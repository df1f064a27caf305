//! The generator: it walks the nodes of a schema document and renders each
//! declaration into the sections of the emitted source text.

use vstd::prelude::*;
use crate::reader::{
    attribute_value, closes, document_nodes, get_attribute, is_end, is_start, opens, tokenize,
    Node,
};
use crate::schema::{alias_outcome, alias_table, builtin_types, Primitive, SchemaError, TypeTable};
use crate::struct_parser::{
    declaration_text, feed_outcome, fields_of, ParserView, StructContentParser, StructType,
};
use crate::text::{decimal, number_value, parse_number, push_bytes, push_decimal, push_str, utf8};

verus! {

/// What generation produces: the sections of the emitted text, and the
/// table of the types declared so far.
#[derive(Debug)]
pub struct ParseResult {
    pub typedefs: Vec<u8>,
    pub replies_list: Vec<u8>,
    pub replies_types: Vec<u8>,
    pub events_list: Vec<u8>,
    pub errors_list: Vec<u8>,
    pub requests_list: Vec<u8>,
    pub types: TypeTable,
}

/// A generation result as a mathematical value.
#[verifier::ext_equal]
pub struct OutputView {
    pub typedefs: Seq<u8>,
    pub replies_list: Seq<u8>,
    pub replies_types: Seq<u8>,
    pub events_list: Seq<u8>,
    pub errors_list: Seq<u8>,
    pub requests_list: Seq<u8>,
    pub types: Map<Seq<char>, Primitive>,
}

impl View for ParseResult {
    type V = OutputView;

    open spec fn view(&self) -> OutputView {
        OutputView {
            typedefs: self.typedefs@,
            replies_list: self.replies_list@,
            replies_types: self.replies_types@,
            events_list: self.events_list@,
            errors_list: self.errors_list@,
            requests_list: self.requests_list@,
            types: self.types@,
        }
    }
}

/// The result that generation starts from: empty sections and the built-in
/// types.
pub open spec fn initial_output() -> OutputView {
    OutputView {
        typedefs: Seq::empty(),
        replies_list: Seq::empty(),
        replies_types: Seq::empty(),
        events_list: Seq::empty(),
        errors_list: Seq::empty(),
        requests_list: Seq::empty(),
        types: builtin_types(),
    }
}

impl ParseResult {
    /// The result that generation starts from.
    pub fn new() -> (result: ParseResult)
        ensures
            result@ == initial_output(),
    {
        ParseResult {
            typedefs: Vec::new(),
            replies_list: Vec::new(),
            replies_types: Vec::new(),
            events_list: Vec::new(),
            errors_list: Vec::new(),
            requests_list: Vec::new(),
            types: TypeTable::builtin(),
        }
    }
}

/// Whether a node carries nothing for the generator and is passed over.
pub open spec fn skippable(node: Node) -> bool {
    node is StartDocument || node is Comment || node is Whitespace
}

/// The position of the first node at or after `at` that is not passed over.
/// The end of the document, met there or by running out of nodes, is an
/// error, and so is ill-formed input.
pub open spec fn next_node(nodes: Seq<Node>, at: int) -> Result<int, SchemaError>
    decreases nodes.len() - at,
{
    if at < 0 || at >= nodes.len() {
        Err(SchemaError::UnexpectedEnd)
    } else if skippable(nodes[at]) {
        next_node(nodes, at + 1)
    } else if nodes[at] is EndDocument {
        Err(SchemaError::UnexpectedEnd)
    } else if nodes[at] is Malformed {
        Err(SchemaError::Malformed)
    } else {
        Ok(at)
    }
}

/// A position that `next_node` finds lies at or after the start, inside the
/// document, at a node that is not passed over.
pub proof fn lemma_next_node(nodes: Seq<Node>, at: int)
    ensures
        next_node(nodes, at) matches Ok(i) ==> 0 <= at <= i < nodes.len() && !skippable(nodes[i])
            && !(nodes[i] is EndDocument) && !(nodes[i] is Malformed),
    decreases nodes.len() - at,
{
    if 0 <= at < nodes.len() && skippable(nodes[at]) {
        lemma_next_node(nodes, at + 1);
    }
}

/// Finds the next node that the generator acts on, from `at` on.
pub fn recv(nodes: &[Node], at: usize) -> (found: Result<usize, SchemaError>)
    ensures
        match next_node(nodes@, at as int) {
            Ok(i) => found == Ok::<usize, SchemaError>(i as usize) && at <= i < nodes@.len(),
            Err(e) => found == Err::<usize, SchemaError>(e),
        },
{
    let mut i: usize = at;
    while i < nodes.len()
        invariant
            at <= i,
            next_node(nodes@, at as int) == next_node(nodes@, i as int),
        decreases nodes@.len() - i,
    {
        match &nodes[i] {
            Node::StartDocument | Node::Comment | Node::Whitespace => {},
            Node::EndDocument => {
                return Err(SchemaError::UnexpectedEnd);
            },
            Node::Malformed => {
                return Err(SchemaError::Malformed);
            },
            _ => {
                return Ok(i);
            },
        }
        i += 1;
    }
    Err(SchemaError::UnexpectedEnd)
}

/// The text that one node inside a `doc` element contributes: character
/// data as it stands, the opening of a `brief` element as a doc-comment
/// marker, anything else nothing.
pub open spec fn doc_piece(node: Node) -> Seq<u8> {
    if node is Characters {
        utf8(node->Characters_0@)
    } else if is_start(node, "brief"@) {
        utf8("/// "@)
    } else {
        Seq::empty()
    }
}

/// The position after the `doc` element whose content starts at `at`, and
/// `out` with the element's text appended.
pub open spec fn doc_outcome(nodes: Seq<Node>, at: int, out: Seq<u8>) -> Result<
    (int, Seq<u8>),
    SchemaError,
>
    decreases nodes.len() - at,
{
    match next_node(nodes, at) {
        Err(e) => Err(e),
        Ok(i) => if is_end(nodes[i], "doc"@) {
            Ok((i + 1, out))
        } else {
            proof {
                lemma_next_node(nodes, at);
            }
            doc_outcome(nodes, i + 1, out + doc_piece(nodes[i]))
        },
    }
}

/// The position after a `doc` element lies after its start and inside the
/// document or at its end.
pub proof fn lemma_doc_outcome(nodes: Seq<Node>, at: int, out: Seq<u8>)
    ensures
        doc_outcome(nodes, at, out) matches Ok(read) ==> 0 <= at < read.0 <= nodes.len(),
    decreases nodes.len() - at,
{
    lemma_next_node(nodes, at);
    if next_node(nodes, at) is Ok {
        let i = next_node(nodes, at)->Ok_0;
        if !is_end(nodes[i], "doc"@) {
            lemma_doc_outcome(nodes, i + 1, out + doc_piece(nodes[i]));
        }
    }
}

/// Reads the content of a `doc` element from `at` on and appends its text to
/// `output`. On an error `output` stays as it was.
pub fn parse_doc(output: &mut Vec<u8>, nodes: &[Node], from: usize) -> (next: Result<
    usize,
    SchemaError,
>)
    ensures
        match doc_outcome(nodes@, from as int, old(output)@) {
            Ok((j, text)) => next == Ok::<usize, SchemaError>(j as usize) && from < j <= nodes@.len()
                && final(output)@ == text,
            Err(e) => next == Err::<usize, SchemaError>(e) && final(output)@ == old(output)@,
        },
{
    let start: usize = output.len();
    let mut at: usize = from;
    assert(output@.take(start as int) =~= old(output)@);
    loop
        invariant
            start <= output@.len(),
            output@.take(start as int) == old(output)@,
            doc_outcome(nodes@, from as int, old(output)@) == doc_outcome(
                nodes@,
                at as int,
                output@,
            ),
            from <= at,
        decreases nodes@.len() - at,
    {
        let i: usize = match recv(nodes, at) {
            Err(e) => {
                output.truncate(start);
                assert(output@ =~= old(output)@);
                return Err(e);
            },
            Ok(i) => i,
        };
        let ghost before = output@;
        match &nodes[i] {
            Node::EndElement { name } => {
                if closes(&nodes[i], "doc") {
                    return Ok(i + 1);
                }
            },
            Node::Characters(text) => {
                push_str(output, text.as_str());
            },
            Node::StartElement { .. } => {
                if opens(&nodes[i], "brief") {
                    push_str(output, "/// ");
                }
            },
            _ => {},
        }
        assert(output@ =~= before + doc_piece(nodes@[i as int]));
        assert(output@.take(start as int) =~= before.take(start as int));
        at = i + 1;
    }
}

/// The position after the element `tag` whose content starts at `at`. The
/// content is passed over; a `doc` element in it is read as one.
pub open spec fn skip_outcome(nodes: Seq<Node>, at: int, tag: Seq<char>) -> Result<int, SchemaError>
    decreases nodes.len() - at,
{
    match next_node(nodes, at) {
        Err(e) => Err(e),
        Ok(i) => if is_end(nodes[i], tag) {
            Ok(i + 1)
        } else if is_start(nodes[i], "doc"@) {
            match doc_outcome(nodes, i + 1, Seq::empty()) {
                Err(e) => Err(e),
                Ok(read) => {
                    proof {
                        lemma_next_node(nodes, at);
                        lemma_doc_outcome(nodes, i + 1, Seq::empty());
                    }
                    skip_outcome(nodes, read.0, tag)
                },
            }
        } else {
            proof {
                lemma_next_node(nodes, at);
            }
            skip_outcome(nodes, i + 1, tag)
        },
    }
}

/// The position after an element that was passed over lies after its start
/// and inside the document or at its end.
pub proof fn lemma_skip_outcome(nodes: Seq<Node>, at: int, tag: Seq<char>)
    ensures
        skip_outcome(nodes, at, tag) matches Ok(j) ==> 0 <= at < j <= nodes.len(),
    decreases nodes.len() - at,
{
    lemma_next_node(nodes, at);
    if next_node(nodes, at) is Ok {
        let i = next_node(nodes, at)->Ok_0;
        if is_end(nodes[i], tag) {
        } else if is_start(nodes[i], "doc"@) {
            lemma_doc_outcome(nodes, i + 1, Seq::empty());
            let read = doc_outcome(nodes, i + 1, Seq::empty());
            if read is Ok {
                lemma_skip_outcome(nodes, read->Ok_0.0, tag);
            }
        } else {
            lemma_skip_outcome(nodes, i + 1, tag);
        }
    }
}

/// The concrete type of one event or error: a type of its own, called by
/// the declaration's name and `suffix`, that knows the declaration's number.
pub open spec fn variant_type(name: Seq<char>, suffix: Seq<char>, number: u8) -> Seq<u8> {
    utf8("pub struct "@) + utf8(name) + utf8(suffix) + utf8(";\nimpl "@) + utf8(name) + utf8(suffix)
        + utf8(" {\n    pub const NUMBER: u8 = "@) + decimal(number as nat) + utf8(";\n}\n"@)
}

/// The line that declares one variant of an event or error union: the
/// declaration's name, holding a value of its concrete type.
pub open spec fn variant_line(name: Seq<char>, suffix: Seq<char>) -> Seq<u8> {
    utf8("\t"@) + utf8(name) + utf8("("@) + utf8(name) + utf8(suffix) + utf8("),\n"@)
}

/// Passes over the content of the element `tag` from `at` on.
fn skip_content(nodes: &[Node], from: usize, tag: &str) -> (next: Result<usize, SchemaError>)
    ensures
        match skip_outcome(nodes@, from as int, tag@) {
            Ok(j) => next == Ok::<usize, SchemaError>(j as usize) && from < j <= nodes@.len(),
            Err(e) => next == Err::<usize, SchemaError>(e),
        },
{
    let mut at: usize = from;
    loop
        invariant
            from <= at,
            skip_outcome(nodes@, from as int, tag@) == skip_outcome(nodes@, at as int, tag@),
        decreases nodes@.len() - at,
    {
        let i: usize = match recv(nodes, at) {
            Err(e) => {
                return Err(e);
            },
            Ok(i) => i,
        };
        if closes(&nodes[i], tag) {
            return Ok(i + 1);
        }
        if opens(&nodes[i], "doc") {
            let mut docs: Vec<u8> = Vec::new();
            assert(docs@ =~= Seq::<u8>::empty());
            at = match parse_doc(&mut docs, nodes, i + 1) {
                Err(e) => {
                    return Err(e);
                },
                Ok(j) => j,
            };
        } else {
            at = i + 1;
        }
    }
}

/// Appends the concrete type of one event or error to `types`, and the line
/// of its variant to `list`.
fn push_variant(types: &mut Vec<u8>, list: &mut Vec<u8>, name: &str, suffix: &str, number: u8)
    ensures
        final(types)@ == old(types)@ + variant_type(name@, suffix@, number),
        final(list)@ == old(list)@ + variant_line(name@, suffix@),
{
    push_str(types, "pub struct ");
    push_str(types, name);
    push_str(types, suffix);
    push_str(types, ";\nimpl ");
    push_str(types, name);
    push_str(types, suffix);
    push_str(types, " {\n    pub const NUMBER: u8 = ");
    push_decimal(types, number as u64);
    push_str(types, ";\n}\n");
    assert(types@ =~= old(types)@ + variant_type(name@, suffix@, number));
    push_str(list, "\t");
    push_str(list, name);
    push_str(list, "(");
    push_str(list, name);
    push_str(list, suffix);
    push_str(list, "),\n");
    assert(list@ =~= old(list)@ + variant_line(name@, suffix@));
}

/// Reads the `event` element whose content starts at `from`. The event
/// `name` gets a concrete type of its own among the type definitions, and a
/// variant that holds it in the event union. The element's content declares
/// nothing more. On an error `output` stays as it was.
pub fn parse_event(output: &mut ParseResult, nodes: &[Node], from: usize, name: &str, number: u8) -> (next:
    Result<usize, SchemaError>)
    ensures
        match skip_outcome(nodes@, from as int, "event"@) {
            Ok(j) => next == Ok::<usize, SchemaError>(j as usize) && from < j <= nodes@.len()
                && final(output)@ == (OutputView {
                typedefs: old(output)@.typedefs + variant_type(name@, "Event"@, number),
                events_list: old(output)@.events_list + variant_line(name@, "Event"@),
                ..old(output)@
            }),
            Err(e) => next == Err::<usize, SchemaError>(e) && final(output)@ == old(output)@,
        },
{
    let next: usize = match skip_content(nodes, from, "event") {
        Err(e) => {
            return Err(e);
        },
        Ok(j) => j,
    };
    push_variant(&mut output.typedefs, &mut output.events_list, name, "Event", number);
    Ok(next)
}

/// Reads the `error` element whose content starts at `from`. The error
/// `name` gets a concrete type of its own among the type definitions, and a
/// variant that holds it in the error union. On an error `output` stays as
/// it was.
pub fn parse_error(output: &mut ParseResult, nodes: &[Node], from: usize, name: &str, number: u8) -> (next:
    Result<usize, SchemaError>)
    ensures
        match skip_outcome(nodes@, from as int, "error"@) {
            Ok(j) => next == Ok::<usize, SchemaError>(j as usize) && from < j <= nodes@.len()
                && final(output)@ == (OutputView {
                typedefs: old(output)@.typedefs + variant_type(name@, "Error"@, number),
                errors_list: old(output)@.errors_list + variant_line(name@, "Error"@),
                ..old(output)@
            }),
            Err(e) => next == Err::<usize, SchemaError>(e) && final(output)@ == old(output)@,
        },
{
    let next: usize = match skip_content(nodes, from, "error") {
        Err(e) => {
            return Err(e);
        },
        Ok(j) => j,
    };
    push_variant(&mut output.typedefs, &mut output.errors_list, name, "Error", number);
    Ok(next)
}

/// The state of a parser that was just made for the declaration `name`.
pub open spec fn fresh_parser(name: Seq<char>, ty: StructType) -> ParserView {
    ParserView { name, ty, members: Seq::empty() }
}

/// The position after the `struct` element whose content starts at `at`,
/// and the parser `p` after every node of the content was fed to it.
pub open spec fn struct_outcome(
    nodes: Seq<Node>,
    at: int,
    p: ParserView,
    types: Map<Seq<char>, Primitive>,
) -> Result<(int, ParserView), SchemaError>
    decreases nodes.len() - at,
{
    match next_node(nodes, at) {
        Err(e) => Err(e),
        Ok(i) => if is_end(nodes[i], "struct"@) {
            Ok((i + 1, p))
        } else {
            match feed_outcome(p, nodes[i], types) {
                Err(e) => Err(e),
                Ok(q) => {
                    proof {
                        lemma_next_node(nodes, at);
                    }
                    struct_outcome(nodes, i + 1, q, types)
                },
            }
        },
    }
}

/// The position after a `struct` element lies after its start and inside
/// the document or at its end.
pub proof fn lemma_struct_outcome(
    nodes: Seq<Node>,
    at: int,
    p: ParserView,
    types: Map<Seq<char>, Primitive>,
)
    ensures
        struct_outcome(nodes, at, p, types) matches Ok(read) ==> 0 <= at < read.0 <= nodes.len(),
    decreases nodes.len() - at,
{
    lemma_next_node(nodes, at);
    if next_node(nodes, at) is Ok {
        let i = next_node(nodes, at)->Ok_0;
        let fed = feed_outcome(p, nodes[i], types);
        if !is_end(nodes[i], "struct"@) && fed is Ok {
            lemma_struct_outcome(nodes, i + 1, fed->Ok_0, types);
        }
    }
}

/// Reads the `struct` element whose content starts at `from` and appends
/// the declaration's text to the type definitions. On an error `parse`
/// stays as it was.
pub fn parse_struct(parse: &mut ParseResult, nodes: &[Node], from: usize, struct_name: &str) -> (next:
    Result<usize, SchemaError>)
    ensures
        match struct_outcome(
            nodes@,
            from as int,
            fresh_parser(struct_name@, StructType::Struct),
            old(parse)@.types,
        ) {
            Ok((j, p)) => next == Ok::<usize, SchemaError>(j as usize) && from < j <= nodes@.len()
                && final(parse)@ == (OutputView {
                typedefs: old(parse)@.typedefs + declaration_text(p),
                ..old(parse)@
            }),
            Err(e) => next == Err::<usize, SchemaError>(e) && final(parse)@ == old(parse)@,
        },
{
    let mut parser = StructContentParser::new(struct_name, StructType::Struct);
    let mut at: usize = from;
    loop
        invariant
            from <= at,
            *parse == *old(parse),
            struct_outcome(
                nodes@,
                from as int,
                fresh_parser(struct_name@, StructType::Struct),
                parse@.types,
            ) == struct_outcome(nodes@, at as int, parser@, parse@.types),
        decreases nodes@.len() - at,
    {
        let i: usize = match recv(nodes, at) {
            Err(e) => {
                return Err(e);
            },
            Ok(i) => i,
        };
        if closes(&nodes[i], "struct") {
            parser.finish(&mut parse.typedefs);
            return Ok(i + 1);
        }
        match parser.feed(&nodes[i], &parse.types) {
            Err(e) => {
                return Err(e);
            },
            Ok(()) => {},
        }
        at = i + 1;
    }
}

/// The position after the `request` element whose content starts at `at`,
/// the parser `p` after every node of the content was fed to it, and `docs`
/// with the text of the content's `doc` elements appended. A `doc` element
/// is read as documentation and not fed to the parser. A `reply` element is
/// passed over with its content: what it declares belongs to the reply and
/// is no member of the request.
pub open spec fn request_outcome(
    nodes: Seq<Node>,
    at: int,
    p: ParserView,
    types: Map<Seq<char>, Primitive>,
    docs: Seq<u8>,
) -> Result<(int, ParserView, Seq<u8>), SchemaError>
    decreases nodes.len() - at,
{
    match next_node(nodes, at) {
        Err(e) => Err(e),
        Ok(i) => if is_end(nodes[i], "request"@) {
            Ok((i + 1, p, docs))
        } else if is_start(nodes[i], "doc"@) {
            match doc_outcome(nodes, i + 1, docs) {
                Err(e) => Err(e),
                Ok(read) => {
                    proof {
                        lemma_next_node(nodes, at);
                        lemma_doc_outcome(nodes, i + 1, docs);
                    }
                    request_outcome(nodes, read.0, p, types, read.1)
                },
            }
        } else if is_start(nodes[i], "reply"@) {
            match skip_outcome(nodes, i + 1, "reply"@) {
                Err(e) => Err(e),
                Ok(j) => {
                    proof {
                        lemma_next_node(nodes, at);
                        lemma_skip_outcome(nodes, i + 1, "reply"@);
                    }
                    request_outcome(nodes, j, p, types, docs)
                },
            }
        } else {
            match feed_outcome(p, nodes[i], types) {
                Err(e) => Err(e),
                Ok(q) => {
                    proof {
                        lemma_next_node(nodes, at);
                    }
                    request_outcome(nodes, i + 1, q, types, docs)
                },
            }
        },
    }
}

/// The position after a `request` element lies after its start and inside
/// the document or at its end.
pub proof fn lemma_request_outcome(
    nodes: Seq<Node>,
    at: int,
    p: ParserView,
    types: Map<Seq<char>, Primitive>,
    docs: Seq<u8>,
)
    ensures
        request_outcome(nodes, at, p, types, docs) matches Ok(read) ==> 0 <= at < read.0
            <= nodes.len(),
    decreases nodes.len() - at,
{
    lemma_next_node(nodes, at);
    if next_node(nodes, at) is Ok {
        let i = next_node(nodes, at)->Ok_0;
        let fed = feed_outcome(p, nodes[i], types);
        if is_end(nodes[i], "request"@) {
        } else if is_start(nodes[i], "doc"@) {
            lemma_doc_outcome(nodes, i + 1, docs);
            let read = doc_outcome(nodes, i + 1, docs);
            if read is Ok {
                lemma_request_outcome(nodes, read->Ok_0.0, p, types, read->Ok_0.1);
            }
        } else if is_start(nodes[i], "reply"@) {
            lemma_skip_outcome(nodes, i + 1, "reply"@);
            let skipped = skip_outcome(nodes, i + 1, "reply"@);
            if skipped is Ok {
                lemma_request_outcome(nodes, skipped->Ok_0, p, types, docs);
            }
        } else if fed is Ok {
            lemma_request_outcome(nodes, i + 1, fed->Ok_0, types, docs);
        }
    }
}

/// What opens the body of a request function: it takes the write path of
/// the connection and issues the request, which allots the sequence number
/// and records that a reply of the request's kind is awaited. The kind is
/// the request's opcode, written between this text and the next.
pub const REQUEST_PROLOGUE: &'static str =
    "\n        let mut socket = self.writer.lock().unwrap();\n        let handle = try!(self.issue(ReplyKind(";

/// What follows the kind in the body of a request function.
pub const REQUEST_ISSUED: &'static str = ")));\n";

/// What closes the body of a request function: it sends the request under
/// the handle's sequence number. The handle is handed out only if the write
/// succeeded; if it failed, the handle is released, so that nothing stays
/// recorded for the request, and the failure is returned.
pub const REQUEST_EPILOGUE: &'static str =
    "\n        .send(&mut socket, handle.sequence());\n        match sent {\n            Ok(()) => Ok(handle),\n            Err(error) => {\n                self.release(handle);\n                Err(ConnectionError::Transport(error))\n            }\n        }\n";

/// One field as a parameter of the request function.
pub open spec fn parameter_text(field: (Seq<char>, Seq<char>)) -> Seq<u8> {
    utf8(", "@) + utf8(field.0) + utf8(": "@) + utf8(field.1)
}

/// All fields as parameters of the request function, in order.
pub open spec fn parameters_text(fields: Seq<(Seq<char>, Seq<char>)>) -> Seq<u8>
    decreases fields.len(),
{
    if fields.len() == 0 {
        Seq::empty()
    } else {
        parameters_text(fields.drop_last()) + parameter_text(fields.last())
    }
}

/// One field as it is set when the request value is built.
pub open spec fn initializer_text(field: (Seq<char>, Seq<char>)) -> Seq<u8> {
    utf8(field.0) + utf8(": "@) + utf8(field.0) + utf8(","@)
}

/// All fields as they are set when the request value is built, in order.
pub open spec fn initializers_text(fields: Seq<(Seq<char>, Seq<char>)>) -> Seq<u8>
    decreases fields.len(),
{
    if fields.len() == 0 {
        Seq::empty()
    } else {
        initializers_text(fields.drop_last()) + initializer_text(fields.last())
    }
}

/// The expression that builds the request value. A request without fields
/// is built all the same, from its one unit member.
pub open spec fn construction_text(fields: Seq<(Seq<char>, Seq<char>)>) -> Seq<u8> {
    if fields.len() == 0 {
        utf8("Request { e: () }"@)
    } else {
        utf8("Request {"@) + initializers_text(fields) + utf8("}"@)
    }
}

/// The head of a request function, up to its last parameter.
pub open spec fn signature_text(name: Seq<char>, fields: Seq<(Seq<char>, Seq<char>)>) -> Seq<u8> {
    utf8("pub fn "@) + utf8(name) + utf8("_request(&self"@) + parameters_text(fields)
}

/// The body of a request function. It issues the request with its opcode
/// as the kind of reply it expects, declares the request type with its send
/// routine, builds the request value and sends it, and hands out the handle
/// or, after a failed write, releases it and returns the failure. The
/// handle's answer is retrieved through the connection, where an error
/// reply comes back as the error and never as a success.
pub open spec fn body_text(opcode: u8, p: ParserView) -> Seq<u8> {
    utf8(REQUEST_PROLOGUE@) + decimal(opcode as nat) + utf8(REQUEST_ISSUED@) + declaration_text(p)
        + utf8("        let sent = "@) + construction_text(fields_of(p.members)) + utf8(
        REQUEST_EPILOGUE@,
    )
}

/// The whole text of the request `name`: its documentation, then its
/// function with one parameter per field. The function returns the reply
/// handle, or the failure that kept the request from being issued or sent.
pub open spec fn request_text(name: Seq<char>, docs: Seq<u8>, opcode: u8, p: ParserView) -> Seq<
    u8,
> {
    docs + utf8("\n"@) + signature_text(name, fields_of(p.members)) + utf8(
        ") -> Result<ReplyHandle, ConnectionError> {\n"@,
    ) + body_text(opcode, p) + utf8("}\n\n"@)
}

/// The head of the request function `name` with the parameters `fields`.
fn signature(name: &str, fields: &Vec<(String, String)>) -> (text: Vec<u8>)
    ensures
        text@ == signature_text(name@, fields.deep_view()),
{
    let ghost all = fields.deep_view();
    let mut text: Vec<u8> = Vec::new();
    push_str(&mut text, "pub fn ");
    assert(text@ =~= utf8("pub fn "@));
    push_str(&mut text, name);
    push_str(&mut text, "_request(&self");
    let ghost head = text@;
    let mut i: usize = 0;
    assert(text@ =~= head + parameters_text(all.take(0)));
    while i < fields.len()
        invariant
            all == fields.deep_view(),
            i <= fields@.len(),
            all.len() == fields@.len(),
            text@ == head + parameters_text(all.take(i as int)),
        decreases fields@.len() - i,
    {
        let ghost before = text@;
        assert(all.take(i + 1).drop_last() =~= all.take(i as int));
        assert(all.take(i + 1).last() == (fields@[i as int].0@, fields@[i as int].1@));
        push_str(&mut text, ", ");
        push_str(&mut text, fields[i].0.as_str());
        push_str(&mut text, ": ");
        push_str(&mut text, fields[i].1.as_str());
        assert(text@ =~= before + parameter_text(all[i as int]));
        i += 1;
        assert(text@ =~= head + parameters_text(all.take(i as int)));
    }
    assert(all.take(i as int) =~= all);
    text
}

/// The expression that builds a request value from `fields`.
fn construction(fields: &Vec<(String, String)>) -> (text: Vec<u8>)
    ensures
        text@ == construction_text(fields.deep_view()),
{
    let ghost all = fields.deep_view();
    let mut text: Vec<u8> = Vec::new();
    if fields.len() == 0 {
        push_str(&mut text, "Request { e: () }");
        assert(text@ =~= utf8("Request { e: () }"@));
        return text;
    }
    push_str(&mut text, "Request {");
    assert(text@ =~= utf8("Request {"@));
    let ghost head = text@;
    let mut i: usize = 0;
    assert(text@ =~= head + initializers_text(all.take(0)));
    while i < fields.len()
        invariant
            all == fields.deep_view(),
            i <= fields@.len(),
            all.len() == fields@.len(),
            text@ == head + initializers_text(all.take(i as int)),
        decreases fields@.len() - i,
    {
        let ghost before = text@;
        assert(all.take(i + 1).drop_last() =~= all.take(i as int));
        assert(all.take(i + 1).last() == (fields@[i as int].0@, fields@[i as int].1@));
        push_str(&mut text, fields[i].0.as_str());
        push_str(&mut text, ": ");
        push_str(&mut text, fields[i].0.as_str());
        push_str(&mut text, ",");
        assert(text@ =~= before + initializer_text(all[i as int]));
        i += 1;
        assert(text@ =~= head + initializers_text(all.take(i as int)));
    }
    assert(all.take(i as int) =~= all);
    push_str(&mut text, "}");
    text
}

/// Renders the request `name` from its documentation, its opcode and its
/// parser.
fn render_request(name: &str, docs: Vec<u8>, opcode: u8, parser: StructContentParser) -> (text:
    Vec<u8>)
    ensures
        text@ == request_text(name@, docs@, opcode, parser@),
{
    let mut body: Vec<u8> = Vec::new();
    push_str(&mut body, REQUEST_PROLOGUE);
    assert(body@ =~= utf8(REQUEST_PROLOGUE@));
    push_decimal(&mut body, opcode as u64);
    push_str(&mut body, REQUEST_ISSUED);
    let fields = parser.finish(&mut body);
    push_str(&mut body, "        let sent = ");
    let built = construction(&fields);
    push_bytes(&mut body, built.as_slice());
    push_str(&mut body, REQUEST_EPILOGUE);
    let head = signature(name, &fields);
    let mut text: Vec<u8> = docs;
    push_str(&mut text, "\n");
    push_bytes(&mut text, head.as_slice());
    push_str(&mut text, ") -> Result<ReplyHandle, ConnectionError> {\n");
    push_bytes(&mut text, body.as_slice());
    push_str(&mut text, "}\n\n");
    text
}

/// Reads the `request` element whose content starts at `from` and appends
/// the text of the request `name` to the request list. On an error `parse`
/// stays as it was.
pub fn parse_request(parse: &mut ParseResult, nodes: &[Node], from: usize, name: &str, opcode: u8) -> (next:
    Result<usize, SchemaError>)
    ensures
        match request_outcome(
            nodes@,
            from as int,
            fresh_parser("Request"@, StructType::Request { opcode }),
            old(parse)@.types,
            Seq::empty(),
        ) {
            Ok((j, p, docs)) => next == Ok::<usize, SchemaError>(j as usize) && from < j
                <= nodes@.len() && final(parse)@ == (OutputView {
                requests_list: old(parse)@.requests_list + request_text(name@, docs, opcode, p),
                ..old(parse)@
            }),
            Err(e) => next == Err::<usize, SchemaError>(e) && final(parse)@ == old(parse)@,
        },
{
    let mut docs: Vec<u8> = Vec::new();
    let mut parser = StructContentParser::new("Request", StructType::Request { opcode });
    let mut at: usize = from;
    assert(docs@ =~= Seq::<u8>::empty());
    loop
        invariant
            from <= at,
            *parse == *old(parse),
            request_outcome(
                nodes@,
                from as int,
                fresh_parser("Request"@, StructType::Request { opcode }),
                parse@.types,
                Seq::empty(),
            ) == request_outcome(nodes@, at as int, parser@, parse@.types, docs@),
        decreases nodes@.len() - at,
    {
        let i: usize = match recv(nodes, at) {
            Err(e) => {
                return Err(e);
            },
            Ok(i) => i,
        };
        if closes(&nodes[i], "request") {
            let text = render_request(name, docs, opcode, parser);
            push_bytes(&mut parse.requests_list, text.as_slice());
            return Ok(i + 1);
        }
        if opens(&nodes[i], "doc") {
            at = match parse_doc(&mut docs, nodes, i + 1) {
                Err(e) => {
                    return Err(e);
                },
                Ok(j) => j,
            };
        } else if opens(&nodes[i], "reply") {
            at = match skip_content(nodes, i + 1, "reply") {
                Err(e) => {
                    return Err(e);
                },
                Ok(j) => j,
            };
        } else {
            match parser.feed(&nodes[i], &parse.types) {
                Err(e) => {
                    return Err(e);
                },
                Ok(()) => {},
            }
            at = i + 1;
        }
    }
}

/// The text that declares `newname` as an alias of `oldname`.
pub open spec fn typedef_text(newname: Seq<char>, oldname: Seq<char>) -> Seq<u8> {
    utf8("pub type "@) + utf8(newname) + utf8(" = "@) + utf8(oldname) + utf8(";\n"@)
}

/// What follows the name of a resource-id type in its send routine: the
/// routine writes the identifier as an unsigned number of 32 bits.
pub const RESOURCE_ROUTINE: &'static str =
    " {\n                        fn socket_send(&self, socket: &mut TcpStream) -> IoResult<()> {\n                            socket.write_u32::<BigEndian>(self.0)\n                        }\n                    }\n";

/// The text that declares the resource-id type `name`: the type, and a send
/// routine that is derived for it without any field declaration.
pub open spec fn resource_text(name: Seq<char>) -> Seq<u8> {
    utf8("pub struct "@) + utf8(name) + utf8("(pub u32);\n"@) + utf8(
        "\n                    impl SocketSend for "@,
    ) + utf8(name) + utf8(RESOURCE_ROUTINE@)
}

/// The number that the attribute `name` holds, if the element has the
/// attribute and it holds a number of at most 255.
pub open spec fn byte_attribute(node: Node, name: Seq<char>) -> Result<u8, SchemaError> {
    match attribute_value(node->attributes@, name) {
        None => Err(SchemaError::MissingAttribute),
        Some(text) => match number_value(utf8(text), 255) {
            None => Err(SchemaError::InvalidNumber),
            Some(n) => Ok(n as u8),
        },
    }
}

/// What the `struct` element at position `i` adds to `out`: its text joins
/// the type definitions.
pub open spec fn struct_item(nodes: Seq<Node>, i: int, out: OutputView) -> Result<
    (int, OutputView),
    SchemaError,
> {
    match attribute_value(nodes[i]->attributes@, "name"@) {
        None => Err(SchemaError::MissingAttribute),
        Some(name) => match struct_outcome(
            nodes,
            i + 1,
            fresh_parser(name, StructType::Struct),
            out.types,
        ) {
            Err(e) => Err(e),
            Ok(read) => Ok(
                (read.0, OutputView { typedefs: out.typedefs + declaration_text(read.1), ..out }),
            ),
        },
    }
}

/// What the `request` element at position `i` adds to `out`: its function
/// joins the request list.
pub open spec fn request_item(nodes: Seq<Node>, i: int, out: OutputView) -> Result<
    (int, OutputView),
    SchemaError,
> {
    match attribute_value(nodes[i]->attributes@, "name"@) {
        None => Err(SchemaError::MissingAttribute),
        Some(name) => match byte_attribute(nodes[i], "opcode"@) {
            Err(e) => Err(e),
            Ok(opcode) => match request_outcome(
                nodes,
                i + 1,
                fresh_parser("Request"@, StructType::Request { opcode }),
                out.types,
                Seq::empty(),
            ) {
                Err(e) => Err(e),
                Ok(read) => Ok(
                    (
                        read.0,
                        OutputView {
                            requests_list: out.requests_list + request_text(
                                name,
                                read.2,
                                opcode,
                                read.1,
                            ),
                            ..out
                        },
                    ),
                ),
            },
        },
    }
}

/// What the `typedef` element at position `i` adds to `out`: an alias joins
/// the type definitions and the table of types.
pub open spec fn typedef_item(nodes: Seq<Node>, i: int, out: OutputView) -> Result<
    (int, OutputView),
    SchemaError,
> {
    match attribute_value(nodes[i]->attributes@, "oldname"@) {
        None => Err(SchemaError::MissingAttribute),
        Some(oldname) => match attribute_value(nodes[i]->attributes@, "newname"@) {
            None => Err(SchemaError::MissingAttribute),
            Some(newname) => match alias_outcome(out.types, newname, oldname) {
                Err(e) => Err(e),
                Ok(_) => Ok(
                    (
                        i + 1,
                        OutputView {
                            typedefs: out.typedefs + typedef_text(newname, oldname),
                            types: alias_table(out.types, newname, oldname),
                            ..out
                        },
                    ),
                ),
            },
        },
    }
}

/// What the resource-id element at position `i` adds to `out`: its type and
/// routine join the type definitions, and its name joins the table of types
/// as an unsigned number of 32 bits. A union of resource-id types is such a
/// type itself; the types that its content lists are not looked at.
pub open spec fn resource_item(nodes: Seq<Node>, i: int, out: OutputView) -> Result<
    (int, OutputView),
    SchemaError,
> {
    match attribute_value(nodes[i]->attributes@, "name"@) {
        None => Err(SchemaError::MissingAttribute),
        Some(name) => if out.types.contains_key(name) {
            Err(SchemaError::DuplicateType)
        } else {
            Ok(
                (
                    i + 1,
                    OutputView {
                        typedefs: out.typedefs + resource_text(name),
                        types: out.types.insert(name, Primitive::U32),
                        ..out
                    },
                ),
            )
        },
    }
}

/// What the `event` element at position `i` adds to `out`: a concrete type
/// joins the type definitions, and a variant that holds it the event union.
pub open spec fn event_item(nodes: Seq<Node>, i: int, out: OutputView) -> Result<
    (int, OutputView),
    SchemaError,
> {
    match attribute_value(nodes[i]->attributes@, "name"@) {
        None => Err(SchemaError::MissingAttribute),
        Some(name) => match byte_attribute(nodes[i], "number"@) {
            Err(e) => Err(e),
            Ok(number) => match skip_outcome(nodes, i + 1, "event"@) {
                Err(e) => Err(e),
                Ok(j) => Ok(
                    (
                        j,
                        OutputView {
                            typedefs: out.typedefs + variant_type(name, "Event"@, number),
                            events_list: out.events_list + variant_line(name, "Event"@),
                            ..out
                        },
                    ),
                ),
            },
        },
    }
}

/// What the `error` element at position `i` adds to `out`: a concrete type
/// joins the type definitions, and a variant that holds it the error union.
pub open spec fn error_item(nodes: Seq<Node>, i: int, out: OutputView) -> Result<
    (int, OutputView),
    SchemaError,
> {
    match attribute_value(nodes[i]->attributes@, "name"@) {
        None => Err(SchemaError::MissingAttribute),
        Some(name) => match byte_attribute(nodes[i], "number"@) {
            Err(e) => Err(e),
            Ok(number) => match skip_outcome(nodes, i + 1, "error"@) {
                Err(e) => Err(e),
                Ok(j) => Ok(
                    (
                        j,
                        OutputView {
                            typedefs: out.typedefs + variant_type(name, "Error"@, number),
                            errors_list: out.errors_list + variant_line(name, "Error"@),
                            ..out
                        },
                    ),
                ),
            },
        },
    }
}

/// What the node at position `i` adds to `out`, and the position after it
/// and its content. A node that opens no declaration is passed over.
pub open spec fn item_outcome(nodes: Seq<Node>, i: int, out: OutputView) -> Result<
    (int, OutputView),
    SchemaError,
> {
    if is_start(nodes[i], "struct"@) {
        struct_item(nodes, i, out)
    } else if is_start(nodes[i], "request"@) {
        request_item(nodes, i, out)
    } else if is_start(nodes[i], "typedef"@) {
        typedef_item(nodes, i, out)
    } else if is_start(nodes[i], "xidtype"@) || is_start(nodes[i], "xidunion"@) {
        resource_item(nodes, i, out)
    } else if is_start(nodes[i], "event"@) {
        event_item(nodes, i, out)
    } else if is_start(nodes[i], "error"@) {
        error_item(nodes, i, out)
    } else {
        Ok((i + 1, out))
    }
}

/// The position after a declaration lies after its start and inside the
/// document or at its end.
pub proof fn lemma_item_outcome(nodes: Seq<Node>, i: int, out: OutputView)
    requires
        0 <= i < nodes.len(),
    ensures
        item_outcome(nodes, i, out) matches Ok(step) ==> i < step.0 <= nodes.len(),
{
    if is_start(nodes[i], "struct"@) {
        let name = attribute_value(nodes[i]->attributes@, "name"@);
        if name is Some {
            lemma_struct_outcome(
                nodes,
                i + 1,
                fresh_parser(name->0, StructType::Struct),
                out.types,
            );
        }
    } else if is_start(nodes[i], "request"@) {
        let opcode = byte_attribute(nodes[i], "opcode"@);
        if opcode is Ok {
            lemma_request_outcome(
                nodes,
                i + 1,
                fresh_parser("Request"@, StructType::Request { opcode: opcode->Ok_0 }),
                out.types,
                Seq::empty(),
            );
        }
    } else if is_start(nodes[i], "event"@) {
        lemma_skip_outcome(nodes, i + 1, "event"@);
    } else if is_start(nodes[i], "error"@) {
        lemma_skip_outcome(nodes, i + 1, "error"@);
    }
}

/// What the declarations from `at` up to the end of the root element add to
/// `out`.
pub open spec fn items_outcome(nodes: Seq<Node>, at: int, out: OutputView) -> Result<
    OutputView,
    SchemaError,
>
    decreases nodes.len() - at,
{
    match next_node(nodes, at) {
        Err(e) => Err(e),
        Ok(i) => if is_end(nodes[i], "xcb"@) {
            Ok(out)
        } else {
            match item_outcome(nodes, i, out) {
                Err(e) => Err(e),
                Ok(step) => {
                    proof {
                        lemma_next_node(nodes, at);
                        lemma_item_outcome(nodes, i, out);
                    }
                    items_outcome(nodes, step.0, step.1)
                },
            }
        },
    }
}

/// What generation produces from the nodes of a schema document: the
/// document must open with the root element, and every declaration up to
/// the root's end is rendered in document order. The first error ends
/// generation and nothing is produced.
pub open spec fn parse_outcome(nodes: Seq<Node>) -> Result<OutputView, SchemaError> {
    match next_node(nodes, 0) {
        Err(e) => Err(e),
        Ok(i) => if !is_start(nodes[i], "xcb"@) {
            Err(SchemaError::ExpectedRoot)
        } else {
            items_outcome(nodes, i + 1, initial_output())
        },
    }
}

/// Reads the number of at most 255 that the attribute `name` of the element
/// `node` holds.
fn byte_of(node: &Node, name: &str) -> (number: Result<u8, SchemaError>)
    requires
        node is StartElement,
    ensures
        number == byte_attribute(*node, name@),
{
    match node {
        Node::StartElement { attributes, .. } => {
            match get_attribute(attributes.as_slice(), name) {
                None => Err(SchemaError::MissingAttribute),
                Some(text) => match parse_number(text.as_str(), 255) {
                    None => Err(SchemaError::InvalidNumber),
                    Some(n) => Ok(n as u8),
                },
            }
        },
        _ => Err(SchemaError::MissingAttribute),
    }
}

/// Reads the attribute `name` of the element `node`, which must have it.
fn required(node: &Node, name: &str) -> (value: Result<String, SchemaError>)
    requires
        node is StartElement,
    ensures
        match attribute_value(node->attributes@, name@) {
            None => value is Err && value->Err_0 == SchemaError::MissingAttribute,
            Some(text) => value is Ok && value->Ok_0@ == text,
        },
{
    match node {
        Node::StartElement { attributes, .. } => {
            match get_attribute(attributes.as_slice(), name) {
                None => Err(SchemaError::MissingAttribute),
                Some(text) => Ok(text),
            }
        },
        _ => Err(SchemaError::MissingAttribute),
    }
}

/// Appends the text of an alias to `out`.
fn push_typedef(out: &mut Vec<u8>, newname: &str, oldname: &str)
    ensures
        final(out)@ == old(out)@ + typedef_text(newname@, oldname@),
{
    push_str(out, "pub type ");
    push_str(out, newname);
    push_str(out, " = ");
    push_str(out, oldname);
    push_str(out, ";\n");
    assert(out@ =~= old(out)@ + typedef_text(newname@, oldname@));
}

/// Appends the text of a resource-id type to `out`.
fn push_resource(out: &mut Vec<u8>, name: &str)
    ensures
        final(out)@ == old(out)@ + resource_text(name@),
{
    push_str(out, "pub struct ");
    push_str(out, name);
    push_str(out, "(pub u32);\n");
    push_str(out, "\n                    impl SocketSend for ");
    push_str(out, name);
    push_str(out, RESOURCE_ROUTINE);
    assert(out@ =~= old(out)@ + resource_text(name@));
}

/// Whether `next` and the generation result after a step are what `outcome`
/// describes, for a step that started at position `i` with the result
/// `before`.
pub open spec fn stepped(
    next: Result<usize, SchemaError>,
    after: OutputView,
    outcome: Result<(int, OutputView), SchemaError>,
    i: int,
    len: int,
    before: OutputView,
) -> bool {
    match outcome {
        Ok((j, out)) => next == Ok::<usize, SchemaError>(j as usize) && i < j <= len && after == out,
        Err(e) => next == Err::<usize, SchemaError>(e) && after == before,
    }
}

fn struct_step(parse: &mut ParseResult, nodes: &[Node], i: usize) -> (next: Result<
    usize,
    SchemaError,
>)
    requires
        i < nodes@.len(),
        nodes@[i as int] is StartElement,
    ensures
        stepped(
            next,
            final(parse)@,
            struct_item(nodes@, i as int, old(parse)@),
            i as int,
            nodes@.len() as int,
            old(parse)@,
        ),
{
    let name = match required(&nodes[i], "name") {
        Err(e) => {
            return Err(e);
        },
        Ok(name) => name,
    };
    parse_struct(parse, nodes, i + 1, name.as_str())
}

fn request_step(parse: &mut ParseResult, nodes: &[Node], i: usize) -> (next: Result<
    usize,
    SchemaError,
>)
    requires
        i < nodes@.len(),
        nodes@[i as int] is StartElement,
    ensures
        stepped(
            next,
            final(parse)@,
            request_item(nodes@, i as int, old(parse)@),
            i as int,
            nodes@.len() as int,
            old(parse)@,
        ),
{
    let name = match required(&nodes[i], "name") {
        Err(e) => {
            return Err(e);
        },
        Ok(name) => name,
    };
    let opcode: u8 = match byte_of(&nodes[i], "opcode") {
        Err(e) => {
            return Err(e);
        },
        Ok(opcode) => opcode,
    };
    parse_request(parse, nodes, i + 1, name.as_str(), opcode)
}

fn typedef_step(parse: &mut ParseResult, nodes: &[Node], i: usize) -> (next: Result<
    usize,
    SchemaError,
>)
    requires
        i < nodes@.len(),
        nodes@[i as int] is StartElement,
    ensures
        stepped(
            next,
            final(parse)@,
            typedef_item(nodes@, i as int, old(parse)@),
            i as int,
            nodes@.len() as int,
            old(parse)@,
        ),
{
    let oldname = match required(&nodes[i], "oldname") {
        Err(e) => {
            return Err(e);
        },
        Ok(name) => name,
    };
    let newname = match required(&nodes[i], "newname") {
        Err(e) => {
            return Err(e);
        },
        Ok(name) => name,
    };
    match parse.types.alias(newname.as_str(), oldname.as_str()) {
        Err(e) => {
            assert(parse@ =~= old(parse)@);
            return Err(e);
        },
        Ok(()) => {},
    }
    push_typedef(&mut parse.typedefs, newname.as_str(), oldname.as_str());
    Ok(i + 1)
}

fn resource_step(parse: &mut ParseResult, nodes: &[Node], i: usize) -> (next: Result<
    usize,
    SchemaError,
>)
    requires
        i < nodes@.len(),
        nodes@[i as int] is StartElement,
    ensures
        stepped(
            next,
            final(parse)@,
            resource_item(nodes@, i as int, old(parse)@),
            i as int,
            nodes@.len() as int,
            old(parse)@,
        ),
{
    let name = match required(&nodes[i], "name") {
        Err(e) => {
            return Err(e);
        },
        Ok(name) => name,
    };
    match parse.types.declare(name.as_str(), Primitive::U32) {
        Err(e) => {
            assert(parse@ =~= old(parse)@);
            return Err(e);
        },
        Ok(()) => {},
    }
    push_resource(&mut parse.typedefs, name.as_str());
    Ok(i + 1)
}

fn event_step(parse: &mut ParseResult, nodes: &[Node], i: usize) -> (next: Result<
    usize,
    SchemaError,
>)
    requires
        i < nodes@.len(),
        nodes@[i as int] is StartElement,
    ensures
        stepped(
            next,
            final(parse)@,
            event_item(nodes@, i as int, old(parse)@),
            i as int,
            nodes@.len() as int,
            old(parse)@,
        ),
{
    let name = match required(&nodes[i], "name") {
        Err(e) => {
            return Err(e);
        },
        Ok(name) => name,
    };
    let number: u8 = match byte_of(&nodes[i], "number") {
        Err(e) => {
            return Err(e);
        },
        Ok(number) => number,
    };
    parse_event(parse, nodes, i + 1, name.as_str(), number)
}

fn error_step(parse: &mut ParseResult, nodes: &[Node], i: usize) -> (next: Result<
    usize,
    SchemaError,
>)
    requires
        i < nodes@.len(),
        nodes@[i as int] is StartElement,
    ensures
        stepped(
            next,
            final(parse)@,
            error_item(nodes@, i as int, old(parse)@),
            i as int,
            nodes@.len() as int,
            old(parse)@,
        ),
{
    let name = match required(&nodes[i], "name") {
        Err(e) => {
            return Err(e);
        },
        Ok(name) => name,
    };
    let number: u8 = match byte_of(&nodes[i], "number") {
        Err(e) => {
            return Err(e);
        },
        Ok(number) => number,
    };
    parse_error(parse, nodes, i + 1, name.as_str(), number)
}

/// Renders the declaration that opens at position `i` into `parse` and
/// gives the position after it. On an error `parse` stays as it was.
pub fn parse_item(parse: &mut ParseResult, nodes: &[Node], i: usize) -> (next: Result<
    usize,
    SchemaError,
>)
    requires
        i < nodes@.len(),
    ensures
        stepped(
            next,
            final(parse)@,
            item_outcome(nodes@, i as int, old(parse)@),
            i as int,
            nodes@.len() as int,
            old(parse)@,
        ),
{
    if opens(&nodes[i], "struct") {
        struct_step(parse, nodes, i)
    } else if opens(&nodes[i], "request") {
        request_step(parse, nodes, i)
    } else if opens(&nodes[i], "typedef") {
        typedef_step(parse, nodes, i)
    } else if opens(&nodes[i], "xidtype") || opens(&nodes[i], "xidunion") {
        resource_step(parse, nodes, i)
    } else if opens(&nodes[i], "event") {
        event_step(parse, nodes, i)
    } else if opens(&nodes[i], "error") {
        error_step(parse, nodes, i)
    } else {
        Ok(i + 1)
    }
}

/// Whether a result of generation is the one that `outcome` describes.
pub open spec fn agrees(
    result: Result<ParseResult, SchemaError>,
    outcome: Result<OutputView, SchemaError>,
) -> bool {
    match outcome {
        Ok(out) => result is Ok && result->Ok_0@ == out,
        Err(e) => result is Err && result->Err_0 == e,
    }
}

/// Generates the sections of the emitted text from the nodes of a schema
/// document. The result is complete or an error: on an error nothing is
/// handed out.
pub fn parse(nodes: &[Node]) -> (result: Result<ParseResult, SchemaError>)
    ensures
        agrees(result, parse_outcome(nodes@)),
{
    let root: usize = match recv(nodes, 0) {
        Err(e) => {
            return Err(e);
        },
        Ok(i) => i,
    };
    if !opens(&nodes[root], "xcb") {
        return Err(SchemaError::ExpectedRoot);
    }
    let mut parse = ParseResult::new();
    let mut at: usize = root + 1;
    loop
        invariant
            parse_outcome(nodes@) == items_outcome(nodes@, at as int, parse@),
        decreases nodes@.len() - at,
    {
        let i: usize = match recv(nodes, at) {
            Err(e) => {
                return Err(e);
            },
            Ok(i) => i,
        };
        if closes(&nodes[i], "xcb") {
            return Ok(parse);
        }
        at = match parse_item(&mut parse, nodes, i) {
            Err(e) => {
                return Err(e);
            },
            Ok(j) => j,
        };
    }
}

/// Generates the sections of the emitted text from the bytes of a schema
/// document: the document is tokenized, and its nodes are rendered as
/// `parse` renders them.
pub fn generate(input: &[u8]) -> (result: Result<ParseResult, SchemaError>)
    ensures
        agrees(result, parse_outcome(document_nodes(input@))),
{
    let nodes = tokenize(input);
    parse(nodes.as_slice())
}

} // verus!
