//! The parser of one declaration's content: it collects the fields and pads
//! of a struct or a request from schema nodes, and renders the declaration
//! as a type definition with its send routine.

use vstd::prelude::*;
use crate::codec::{conforms, decoding, encoding, lemma_round_trip, Slot, Value};
use crate::reader::{attribute_value, get_attribute, is_start, Node};
use crate::schema::{Primitive, SchemaError, TypeTable};
use crate::text::{decimal, number_value, parse_number, push_bytes, push_decimal, push_str, str_eq, utf8};

verus! {

/// What a declaration declares.
#[derive(Clone, Copy, Debug, PartialEq, Eq, Structural)]
pub enum StructType {
    /// A structured type: it can be sent as a field of another declaration.
    Struct,
    /// A request: it is sent as a frame of its own that opens with `opcode`.
    Request { opcode: u8 },
}

/// One member of a declaration, in declaration order, which is wire order.
#[derive(Clone, Debug, PartialEq, Eq)]
pub enum Member {
    /// A named field: its name after renaming, the name of its declared
    /// type, and the wire representation that the type resolves to.
    Field { name: String, ty: String, repr: Primitive },
    /// Anonymous filler of `bytes` bytes; `number` counts the pads of the
    /// declaration from zero.
    Pad { number: usize, bytes: usize },
}

/// A member as a mathematical value.
pub enum MemberView {
    Field { name: Seq<char>, ty: Seq<char>, repr: Primitive },
    Pad { number: nat, bytes: usize },
}

impl View for Member {
    type V = MemberView;

    open spec fn view(&self) -> MemberView {
        match self {
            Member::Field { name, ty, repr } => MemberView::Field {
                name: name@,
                ty: ty@,
                repr: *repr,
            },
            Member::Pad { number, bytes } => MemberView::Pad {
                number: *number as nat,
                bytes: *bytes,
            },
        }
    }
}

/// One part of the table of reserved words: the strict words from `as` to `fn`.
pub open spec fn reserved_first(name: Seq<char>) -> bool {
    name == "as"@ || name == "async"@ || name == "await"@ || name == "break"@ || name == "const"@ || name == "continue"@ || name == "crate"@ || name == "dyn"@ || name == "else"@ || name == "enum"@ || name == "extern"@ || name == "false"@ || name == "fn"@
}

/// One part of the table of reserved words: the strict words from `for` to `ref`.
pub open spec fn reserved_second(name: Seq<char>) -> bool {
    name == "for"@ || name == "gen"@ || name == "if"@ || name == "impl"@ || name == "in"@ || name == "let"@ || name == "loop"@ || name == "match"@ || name == "mod"@ || name == "move"@ || name == "mut"@ || name == "pub"@ || name == "ref"@
}

/// One part of the table of reserved words: the strict words from `return` to `while`.
pub open spec fn reserved_third(name: Seq<char>) -> bool {
    name == "return"@ || name == "self"@ || name == "Self"@ || name == "static"@ || name == "struct"@ || name == "super"@ || name == "trait"@ || name == "true"@ || name == "type"@ || name == "unsafe"@ || name == "use"@ || name == "where"@ || name == "while"@
}

/// One part of the table of reserved words: the words kept back for later use.
pub open spec fn reserved_fourth(name: Seq<char>) -> bool {
    name == "abstract"@ || name == "become"@ || name == "box"@ || name == "do"@ || name == "final"@ || name == "macro"@ || name == "override"@ || name == "priv"@ || name == "try"@ || name == "typeof"@ || name == "unsized"@ || name == "virtual"@ || name == "yield"@
}

/// The table of the words that the emitted language reserves: an
/// identifier of the schema that is one of them cannot stand in emitted text
/// as it is.
pub open spec fn is_reserved(name: Seq<char>) -> bool {
    reserved_first(name) || reserved_second(name) || reserved_third(name) || reserved_fourth(name)
}

/// The name that a schema identifier gets in emitted text. The substitution
/// is fixed: `type` becomes `ty`, any other reserved word gets an underscore
/// appended, and an identifier that is not reserved is kept.
pub open spec fn renamed(name: Seq<char>) -> Seq<char> {
    if name == "type"@ {
        "ty"@
    } else if is_reserved(name) {
        name + "_"@
    } else {
        name
    }
}

/// No word of this part of the table is empty or ends in an underscore, and
/// none is `ty`.
proof fn lemma_reserved_first(name: Seq<char>)
    requires
        reserved_first(name),
    ensures
        name.len() > 0,
        name.last() != '_',
        name != "ty"@,
{
    reveal_strlit("ty");
    reveal_strlit("as");
    reveal_strlit("async");
    reveal_strlit("await");
    reveal_strlit("break");
    reveal_strlit("const");
    reveal_strlit("continue");
    reveal_strlit("crate");
    reveal_strlit("dyn");
    reveal_strlit("else");
    reveal_strlit("enum");
    reveal_strlit("extern");
    reveal_strlit("false");
    reveal_strlit("fn");
}

/// No word of this part of the table is empty or ends in an underscore, and
/// none is `ty`.
proof fn lemma_reserved_second(name: Seq<char>)
    requires
        reserved_second(name),
    ensures
        name.len() > 0,
        name.last() != '_',
        name != "ty"@,
{
    reveal_strlit("ty");
    reveal_strlit("for");
    reveal_strlit("gen");
    reveal_strlit("if");
    reveal_strlit("impl");
    reveal_strlit("in");
    reveal_strlit("let");
    reveal_strlit("loop");
    reveal_strlit("match");
    reveal_strlit("mod");
    reveal_strlit("move");
    reveal_strlit("mut");
    reveal_strlit("pub");
    reveal_strlit("ref");
}

/// No word of this part of the table is empty or ends in an underscore, and
/// none is `ty`.
proof fn lemma_reserved_third(name: Seq<char>)
    requires
        reserved_third(name),
    ensures
        name.len() > 0,
        name.last() != '_',
        name != "ty"@,
{
    reveal_strlit("ty");
    reveal_strlit("return");
    reveal_strlit("self");
    reveal_strlit("Self");
    reveal_strlit("static");
    reveal_strlit("struct");
    reveal_strlit("super");
    reveal_strlit("trait");
    reveal_strlit("true");
    reveal_strlit("type");
    reveal_strlit("unsafe");
    reveal_strlit("use");
    reveal_strlit("where");
    reveal_strlit("while");
}

/// No word of this part of the table is empty or ends in an underscore, and
/// none is `ty`.
proof fn lemma_reserved_fourth(name: Seq<char>)
    requires
        reserved_fourth(name),
    ensures
        name.len() > 0,
        name.last() != '_',
        name != "ty"@,
{
    reveal_strlit("ty");
    reveal_strlit("abstract");
    reveal_strlit("become");
    reveal_strlit("box");
    reveal_strlit("do");
    reveal_strlit("final");
    reveal_strlit("macro");
    reveal_strlit("override");
    reveal_strlit("priv");
    reveal_strlit("try");
    reveal_strlit("typeof");
    reveal_strlit("unsized");
    reveal_strlit("virtual");
    reveal_strlit("yield");
}

/// A renamed identifier is never a reserved word, and an identifier that is
/// not reserved is renamed to itself. The new name depends on the old one
/// alone, so a definition and every reference to it get the same name.
pub proof fn lemma_renamed(name: Seq<char>)
    ensures
        !is_reserved(renamed(name)),
        !is_reserved(name) ==> renamed(name) == name,
{
    reveal_strlit("_");
    let new = renamed(name);
    if is_reserved(name) {
        if reserved_first(name) {
            lemma_reserved_first(name);
        } else if reserved_second(name) {
            lemma_reserved_second(name);
        } else if reserved_third(name) {
            lemma_reserved_third(name);
        } else {
            lemma_reserved_fourth(name);
        }
        if name != "type"@ {
            assert(new.last() == '_');
        }
    }
    if reserved_first(new) {
        lemma_reserved_first(new);
    } else if reserved_second(new) {
        lemma_reserved_second(new);
    } else if reserved_third(new) {
        lemma_reserved_third(new);
    } else if reserved_fourth(new) {
        lemma_reserved_fourth(new);
    }
}

fn in_first(name: &str) -> (found: bool)
    ensures
        found == reserved_first(name@),
{
    str_eq(name, "as")
        || str_eq(name, "async")
        || str_eq(name, "await")
        || str_eq(name, "break")
        || str_eq(name, "const")
        || str_eq(name, "continue")
        || str_eq(name, "crate")
        || str_eq(name, "dyn")
        || str_eq(name, "else")
        || str_eq(name, "enum")
        || str_eq(name, "extern")
        || str_eq(name, "false")
        || str_eq(name, "fn")
}

fn in_second(name: &str) -> (found: bool)
    ensures
        found == reserved_second(name@),
{
    str_eq(name, "for")
        || str_eq(name, "gen")
        || str_eq(name, "if")
        || str_eq(name, "impl")
        || str_eq(name, "in")
        || str_eq(name, "let")
        || str_eq(name, "loop")
        || str_eq(name, "match")
        || str_eq(name, "mod")
        || str_eq(name, "move")
        || str_eq(name, "mut")
        || str_eq(name, "pub")
        || str_eq(name, "ref")
}

fn in_third(name: &str) -> (found: bool)
    ensures
        found == reserved_third(name@),
{
    str_eq(name, "return")
        || str_eq(name, "self")
        || str_eq(name, "Self")
        || str_eq(name, "static")
        || str_eq(name, "struct")
        || str_eq(name, "super")
        || str_eq(name, "trait")
        || str_eq(name, "true")
        || str_eq(name, "type")
        || str_eq(name, "unsafe")
        || str_eq(name, "use")
        || str_eq(name, "where")
        || str_eq(name, "while")
}

fn in_fourth(name: &str) -> (found: bool)
    ensures
        found == reserved_fourth(name@),
{
    str_eq(name, "abstract")
        || str_eq(name, "become")
        || str_eq(name, "box")
        || str_eq(name, "do")
        || str_eq(name, "final")
        || str_eq(name, "macro")
        || str_eq(name, "override")
        || str_eq(name, "priv")
        || str_eq(name, "try")
        || str_eq(name, "typeof")
        || str_eq(name, "unsized")
        || str_eq(name, "virtual")
        || str_eq(name, "yield")
}

/// Whether `name` is a reserved word of the emitted language.
pub fn is_reserved_word(name: &str) -> (found: bool)
    ensures
        found == is_reserved(name@),
{
    in_first(name) || in_second(name) || in_third(name) || in_fourth(name)
}

/// Renames a schema identifier that collides with a reserved word.
pub fn rustyfi_name(name: String) -> (result: String)
    ensures
        result@ == renamed(name@),
        !is_reserved(result@),
        !is_reserved(name@) ==> result@ == name@,
{
    proof {
        lemma_renamed(name@);
    }
    if str_eq(name.as_str(), "type") {
        "ty".to_string()
    } else if is_reserved_word(name.as_str()) {
        name.concat("_")
    } else {
        name
    }
}

/// Whether `member` is a field called `name`.
pub open spec fn is_field(member: MemberView, name: Seq<char>) -> bool {
    member matches MemberView::Field { name: n, .. } && n == name
}

/// Whether `members` has a field called `name`.
pub open spec fn has_field(members: Seq<MemberView>, name: Seq<char>) -> bool {
    exists|i: int| 0 <= i < members.len() && is_field(#[trigger] members[i], name)
}

/// The number of pads among `members`.
pub open spec fn pad_count(members: Seq<MemberView>) -> nat
    decreases members.len(),
{
    if members.len() == 0 {
        0
    } else {
        pad_count(members.drop_last()) + (if members.last() is Pad {
            1nat
        } else {
            0nat
        })
    }
}

/// The logical field list of `members`: name and type of each field, in
/// order. Pads contribute nothing.
pub open spec fn fields_of(members: Seq<MemberView>) -> Seq<(Seq<char>, Seq<char>)>
    decreases members.len(),
{
    if members.len() == 0 {
        Seq::empty()
    } else {
        match members.last() {
            MemberView::Field { name, ty, .. } => fields_of(members.drop_last()).push((name, ty)),
            MemberView::Pad { .. } => fields_of(members.drop_last()),
        }
    }
}

/// The wire slot of one member.
pub open spec fn slot_of(member: MemberView) -> Slot {
    match member {
        MemberView::Field { repr, .. } => Slot::Field(repr),
        MemberView::Pad { bytes, .. } => Slot::Pad(bytes),
    }
}

/// The wire layout of `members`: one slot per member, in order.
pub open spec fn layout_of(members: Seq<MemberView>) -> Seq<Slot> {
    members.map_values(|m: MemberView| slot_of(m))
}

/// The three places in which each member of a declaration is rendered.
#[derive(Clone, Copy, Debug, PartialEq, Eq, Structural)]
pub enum Section {
    /// The type definition: one line per field.
    Definition,
    /// The send routine of a request.
    Send,
    /// The send routine of a structured type.
    SocketSend,
}

/// The text of a pad in a send routine: a loop that writes `bytes` zero
/// bytes, with the pad's number in the name of its counter.
pub open spec fn pad_line(number: nat, bytes: usize) -> Seq<u8> {
    utf8("\tfor _pad"@) + decimal(number) + utf8(" in 0 .. "@) + decimal(bytes as nat) + utf8(
        " { try!(socket.write_u8(0)); }\n"@,
    )
}

/// The text of one member in one section.
pub open spec fn member_line(section: Section, member: MemberView) -> Seq<u8> {
    match member {
        MemberView::Field { name, ty, .. } => match section {
            Section::Definition => utf8("\tpub "@) + utf8(name) + utf8(": "@) + utf8(ty) + utf8(
                ",\n"@,
            ),
            Section::Send => utf8("\ttry!(self."@) + utf8(name) + utf8(
                ".socket_send(&mut socket));\n"@,
            ),
            Section::SocketSend => utf8("\t\ttry!(self."@) + utf8(name) + utf8(
                ".socket_send(&mut socket));\n"@,
            ),
        },
        MemberView::Pad { number, bytes } => match section {
            Section::Definition => Seq::empty(),
            _ => pad_line(number, bytes),
        },
    }
}

/// The text of all `members` in one section, in declaration order.
pub open spec fn member_lines(section: Section, members: Seq<MemberView>) -> Seq<u8>
    decreases members.len(),
{
    if members.len() == 0 {
        Seq::empty()
    } else {
        member_lines(section, members.drop_last()) + member_line(section, members.last())
    }
}

/// The type definition of a declaration. A declaration without fields still
/// gets a type, with one unit member.
pub open spec fn definition_text(name: Seq<char>, members: Seq<MemberView>) -> Seq<u8> {
    utf8("pub struct "@) + utf8(name) + utf8(" {\n"@) + member_lines(Section::Definition, members)
        + (if fields_of(members).len() == 0 {
        utf8("e: ()\n"@)
    } else {
        Seq::empty()
    }) + utf8("}\n"@)
}

/// The send routine of a declaration. That of a request writes the opcode
/// first, then the members in order, then the sequence number it is handed;
/// that of a structured type writes the members in order.
pub open spec fn routine_text(name: Seq<char>, ty: StructType, members: Seq<MemberView>) -> Seq<
    u8,
> {
    match ty {
        StructType::Request { opcode } => utf8("impl "@) + utf8(name) + utf8(" {\n"@) + utf8(
            "    fn send(&self, socket: &mut TcpStream, sequence: u16) -> IoResult<()> {\n"@,
        ) + utf8("try!(socket.write_u8("@) + decimal(opcode as nat) + utf8("));\n"@) + member_lines(
            Section::Send,
            members,
        ) + utf8("try!(sequence.socket_send(socket));\n"@) + utf8("Ok(()) } }\n"@),
        StructType::Struct => utf8("impl SocketSend for "@) + utf8(name) + utf8(" {\n"@) + utf8(
            "    fn socket_send(&self, socket: &mut TcpStream) -> IoResult<()> {\n"@,
        ) + member_lines(Section::SocketSend, members) + utf8("\t\tOk(())\n\t}\n}\n"@),
    }
}

/// The whole text of a declaration: its type definition, then its send
/// routine.
pub open spec fn declaration_text(p: ParserView) -> Seq<u8> {
    definition_text(p.name, p.members) + routine_text(p.name, p.ty, p.members)
}

/// A parser's state as a mathematical value.
pub struct ParserView {
    pub name: Seq<char>,
    pub ty: StructType,
    pub members: Seq<MemberView>,
}

impl ParserView {
    /// What holds of every parser: no two fields share a name, and the pads
    /// are numbered from zero in order.
    pub open spec fn wf(self) -> bool {
        &&& forall|i: int, j: int|
            0 <= i < j < self.members.len() && (#[trigger] self.members[i]) is Field ==> !is_field(
                #[trigger] self.members[j],
                self.members[i]->name,
            )
        &&& forall|i: int|
            0 <= i < self.members.len() ==> ((#[trigger] self.members[i]) matches MemberView::Pad {
                number,
                ..
            } ==> number == pad_count(self.members.take(i)))
    }
}

/// The state after `event` was fed to a parser in the state `p`, or the
/// error that refuses the event.
///
/// A `pad` element adds a pad of as many bytes as its `bytes` attribute
/// says. A `field` element adds a field of the type that its `type`
/// attribute names and the name that its `name` attribute gives, renamed
/// where it is a reserved word; the name must be new in the declaration and
/// the type declared. Any other node leaves the parser as it is.
pub open spec fn feed_outcome(p: ParserView, event: Node, types: Map<Seq<char>, Primitive>) -> Result<
    ParserView,
    SchemaError,
> {
    if is_start(event, "pad"@) {
        match attribute_value(event->attributes@, "bytes"@) {
            None => Err(SchemaError::MissingAttribute),
            Some(text) => match number_value(utf8(text), usize::MAX as nat) {
                None => Err(SchemaError::InvalidNumber),
                Some(bytes) => Ok(
                    ParserView {
                        members: p.members.push(
                            MemberView::Pad { number: pad_count(p.members), bytes: bytes as usize },
                        ),
                        ..p
                    },
                ),
            },
        }
    } else if is_start(event, "field"@) {
        match attribute_value(event->attributes@, "type"@) {
            None => Err(SchemaError::MissingAttribute),
            Some(ty) => match attribute_value(event->attributes@, "name"@) {
                None => Err(SchemaError::MissingAttribute),
                Some(raw) => if has_field(p.members, renamed(raw)) {
                    Err(SchemaError::DuplicateField)
                } else if !types.contains_key(ty) {
                    Err(SchemaError::UnknownType)
                } else {
                    Ok(
                        ParserView {
                            members: p.members.push(
                                MemberView::Field { name: renamed(raw), ty, repr: types[ty] },
                            ),
                            ..p
                        },
                    )
                },
            },
        }
    } else {
        Ok(p)
    }
}

/// Collects the content of one struct or request declaration.
#[derive(Debug)]
pub struct StructContentParser {
    name: String,
    ty: StructType,
    members: Vec<Member>,
}

impl View for StructContentParser {
    type V = ParserView;

    closed spec fn view(&self) -> ParserView {
        ParserView {
            name: self.name@,
            ty: self.ty,
            members: self.members@.map_values(|m: Member| m@),
        }
    }
}

impl StructContentParser {
    /// A parser for the declaration `name` of the kind `ty`, with no member
    /// yet.
    pub fn new(name: &str, ty: StructType) -> (parser: StructContentParser)
        ensures
            parser@ == (ParserView { name: name@, ty, members: Seq::empty() }),
            parser@.wf(),
    {
        let parser = StructContentParser {
            name: name.to_string(),
            ty,
            members: Vec::new(),
        };
        assert(parser@.members =~= Seq::empty());
        parser
    }

    /// Feeds one node of the declaration's content to the parser. On an
    /// error the parser stays as it was.
    pub fn feed(&mut self, event: &Node, types: &TypeTable) -> (done: Result<(), SchemaError>)
        ensures
            match feed_outcome(old(self)@, *event, types@) {
                Ok(p) => done is Ok && final(self)@ == p,
                Err(e) => done == Err::<(), SchemaError>(e) && final(self)@ == old(self)@,
            },
    {
        match event {
            Node::StartElement { name, attributes } => {
                if str_eq(name.as_str(), "pad") {
                    let text = match get_attribute(attributes.as_slice(), "bytes") {
                        None => {
                            return Err(SchemaError::MissingAttribute);
                        },
                        Some(text) => text,
                    };
                    let bytes: usize = match parse_number(text.as_str(), usize::MAX as u64) {
                        None => {
                            return Err(SchemaError::InvalidNumber);
                        },
                        Some(n) => n as usize,
                    };
                    let number: usize = self.pad_total();
                    let ghost before = self@.members;
                    self.members.push(Member::Pad { number, bytes });
                    proof {
                        let pad = MemberView::Pad { number: number as nat, bytes };
                        assert(self@.members =~= before.push(pad));
                    }
                    Ok(())
                } else if str_eq(name.as_str(), "field") {
                    let ty = match get_attribute(attributes.as_slice(), "type") {
                        None => {
                            return Err(SchemaError::MissingAttribute);
                        },
                        Some(ty) => ty,
                    };
                    let raw = match get_attribute(attributes.as_slice(), "name") {
                        None => {
                            return Err(SchemaError::MissingAttribute);
                        },
                        Some(raw) => raw,
                    };
                    let name = rustyfi_name(raw);
                    if self.declares(name.as_str()) {
                        return Err(SchemaError::DuplicateField);
                    }
                    let repr = match types.resolve(ty.as_str()) {
                        None => {
                            return Err(SchemaError::UnknownType);
                        },
                        Some(repr) => repr,
                    };
                    let ghost before = self@.members;
                    let ghost field = MemberView::Field { name: name@, ty: ty@, repr };
                    self.members.push(Member::Field { name, ty, repr });
                    proof {
                        assert(self@.members =~= before.push(field));
                    }
                    Ok(())
                } else {
                    Ok(())
                }
            },
            _ => Ok(()),
        }
    }

    /// Whether a field called `name` was fed already.
    pub fn declares(&self, name: &str) -> (found: bool)
        ensures
            found == has_field(self@.members, name@),
    {
        let mut i: usize = 0;
        while i < self.members.len()
            invariant
                i <= self.members@.len(),
                forall|k: int| 0 <= k < i ==> !is_field(#[trigger] self@.members[k], name@),
            decreases self.members@.len() - i,
        {
            match &self.members[i] {
                Member::Field { name: n, .. } => {
                    if str_eq(n.as_str(), name) {
                        assert(is_field(self@.members[i as int], name@));
                        return true;
                    }
                },
                Member::Pad { .. } => {},
            }
            i += 1;
        }
        false
    }

    /// The number of pads fed so far.
    pub fn pad_total(&self) -> (total: usize)
        ensures
            total == pad_count(self@.members),
    {
        let ghost members = self@.members;
        let mut total: usize = 0;
        let mut i: usize = 0;
        assert(members.take(0) =~= Seq::<MemberView>::empty());
        while i < self.members.len()
            invariant
                members == self@.members,
                i <= self.members@.len(),
                total <= i,
                total == pad_count(members.take(i as int)),
            decreases self.members@.len() - i,
        {
            assert(members.take(i + 1).drop_last() =~= members.take(i as int));
            assert(members.take(i + 1).last() == self.members@[i as int]@);
            match &self.members[i] {
                Member::Pad { .. } => {
                    total += 1;
                },
                Member::Field { .. } => {},
            }
            i += 1;
        }
        assert(members.take(i as int) =~= members);
        total
    }

    /// The opcode of the declaration, if it is a request.
    pub fn opcode(&self) -> (opcode: Option<u8>)
        ensures
            opcode == (match self@.ty {
                StructType::Request { opcode } => Some(opcode),
                StructType::Struct => None,
            }),
    {
        match self.ty {
            StructType::Request { opcode } => Some(opcode),
            StructType::Struct => None,
        }
    }

    /// The wire layout of the members fed so far.
    pub fn layout(&self) -> (slots: Vec<Slot>)
        ensures
            slots@ == layout_of(self@.members),
    {
        let mut slots: Vec<Slot> = Vec::new();
        let mut i: usize = 0;
        while i < self.members.len()
            invariant
                i <= self.members@.len(),
                slots@ == layout_of(self@.members.take(i as int)),
            decreases self.members@.len() - i,
        {
            let slot = match &self.members[i] {
                Member::Field { repr, .. } => Slot::Field(*repr),
                Member::Pad { bytes, .. } => Slot::Pad(*bytes),
            };
            slots.push(slot);
            i += 1;
            assert(slots@ =~= layout_of(self@.members.take(i as int)));
        }
        assert(self@.members.take(i as int) =~= self@.members);
        slots
    }

    /// Appends the lines of all members in one section to `out`.
    fn write_lines(&self, out: &mut Vec<u8>, section: Section)
        ensures
            final(out)@ == old(out)@ + member_lines(section, self@.members),
    {
        let ghost members = self@.members;
        let mut i: usize = 0;
        assert(out@ =~= old(out)@ + member_lines(section, members.take(0)));
        while i < self.members.len()
            invariant
                members == self@.members,
                i <= self.members@.len(),
                out@ == old(out)@ + member_lines(section, members.take(i as int)),
            decreases self.members@.len() - i,
        {
            let ghost before = out@;
            assert(members.take(i + 1).drop_last() =~= members.take(i as int));
            assert(members.take(i + 1).last() == self.members@[i as int]@);
            match &self.members[i] {
                Member::Field { name, ty, .. } => {
                    match section {
                        Section::Definition => {
                            push_str(out, "\tpub ");
                            push_str(out, name.as_str());
                            push_str(out, ": ");
                            push_str(out, ty.as_str());
                            push_str(out, ",\n");
                        },
                        Section::Send => {
                            push_str(out, "\ttry!(self.");
                            push_str(out, name.as_str());
                            push_str(out, ".socket_send(&mut socket));\n");
                        },
                        Section::SocketSend => {
                            push_str(out, "\t\ttry!(self.");
                            push_str(out, name.as_str());
                            push_str(out, ".socket_send(&mut socket));\n");
                        },
                    }
                },
                Member::Pad { number, bytes } => {
                    match section {
                        Section::Definition => {},
                        _ => {
                            push_str(out, "\tfor _pad");
                            push_decimal(out, *number as u64);
                            push_str(out, " in 0 .. ");
                            push_decimal(out, *bytes as u64);
                            push_str(out, " { try!(socket.write_u8(0)); }\n");
                        },
                    }
                },
            }
            assert(out@ =~= before + member_line(section, self.members@[i as int]@));
            i += 1;
            assert(out@ =~= old(out)@ + member_lines(section, members.take(i as int)));
        }
        assert(members.take(i as int) =~= members);
    }

    /// The logical field list fed so far: name and type of each field.
    pub fn fields(&self) -> (fields: Vec<(String, String)>)
        ensures
            fields.deep_view() == fields_of(self@.members),
    {
        let ghost members = self@.members;
        let mut fields: Vec<(String, String)> = Vec::new();
        let mut i: usize = 0;
        assert(fields.deep_view() =~= fields_of(members.take(0)));
        while i < self.members.len()
            invariant
                members == self@.members,
                i <= self.members@.len(),
                fields.deep_view() == fields_of(members.take(i as int)),
            decreases self.members@.len() - i,
        {
            assert(members.take(i + 1).drop_last() =~= members.take(i as int));
            assert(members.take(i + 1).last() == self.members@[i as int]@);
            match &self.members[i] {
                Member::Field { name, ty, .. } => {
                    let ghost before = fields.deep_view();
                    fields.push((name.clone(), ty.clone()));
                    assert(fields.deep_view() =~= before.push((name@, ty@)));
                },
                Member::Pad { .. } => {},
            }
            i += 1;
        }
        assert(members.take(i as int) =~= members);
        fields
    }

    /// The type definition of the declaration.
    fn definition(&self, no_fields: bool) -> (text: Vec<u8>)
        requires
            no_fields == (fields_of(self@.members).len() == 0),
        ensures
            text@ == definition_text(self@.name, self@.members),
    {
        let mut text: Vec<u8> = Vec::new();
        push_str(&mut text, "pub struct ");
        assert(text@ =~= utf8("pub struct "@));
        push_str(&mut text, self.name.as_str());
        push_str(&mut text, " {\n");
        self.write_lines(&mut text, Section::Definition);
        if no_fields {
            push_str(&mut text, "e: ()\n");
        } else {
            assert(text@ + Seq::<u8>::empty() =~= text@);
        }
        push_str(&mut text, "}\n");
        text
    }

    /// The send routine of the declaration.
    fn routine(&self) -> (text: Vec<u8>)
        ensures
            text@ == routine_text(self@.name, self@.ty, self@.members),
    {
        let mut text: Vec<u8> = Vec::new();
        match self.ty {
            StructType::Request { opcode } => {
                push_str(&mut text, "impl ");
                assert(text@ =~= utf8("impl "@));
                push_str(&mut text, self.name.as_str());
                push_str(&mut text, " {\n");
                push_str(
                    &mut text,
                    "    fn send(&self, socket: &mut TcpStream, sequence: u16) -> IoResult<()> {\n",
                );
                push_str(&mut text, "try!(socket.write_u8(");
                push_decimal(&mut text, opcode as u64);
                push_str(&mut text, "));\n");
                self.write_lines(&mut text, Section::Send);
                push_str(&mut text, "try!(sequence.socket_send(socket));\n");
                push_str(&mut text, "Ok(()) } }\n");
            },
            StructType::Struct => {
                push_str(&mut text, "impl SocketSend for ");
                assert(text@ =~= utf8("impl SocketSend for "@));
                push_str(&mut text, self.name.as_str());
                push_str(&mut text, " {\n");
                push_str(
                    &mut text,
                    "    fn socket_send(&self, socket: &mut TcpStream) -> IoResult<()> {\n",
                );
                self.write_lines(&mut text, Section::SocketSend);
                push_str(&mut text, "\t\tOk(())\n\t}\n}\n");
            },
        }
        text
    }

    /// Ends the declaration: appends its type definition and its send
    /// routine to `dest`, and hands back the logical field list.
    pub fn finish(self, dest: &mut Vec<u8>) -> (fields: Vec<(String, String)>)
        ensures
            final(dest)@ == old(dest)@ + declaration_text(self@),
            fields.deep_view() == fields_of(self@.members),
    {
        let fields = self.fields();
        assert(fields@.len() == fields.deep_view().len());
        let definition = self.definition(fields.len() == 0);
        let routine = self.routine();
        push_bytes(dest, definition.as_slice());
        push_bytes(dest, routine.as_slice());
        assert(dest@ =~= old(dest)@ + declaration_text(self@));
        fields
    }
}

/// Feeding keeps what holds of every parser.
pub proof fn lemma_feed_keeps_wf(p: ParserView, event: Node, types: Map<Seq<char>, Primitive>)
    requires
        p.wf(),
        feed_outcome(p, event, types) is Ok,
    ensures
        (feed_outcome(p, event, types)->Ok_0).wf(),
{
    let q = feed_outcome(p, event, types)->Ok_0;
    if q.members.len() > p.members.len() {
        let n = p.members.len() as int;
        assert(q.members.drop_last() =~= p.members);
        assert forall|i: int| 0 <= i < q.members.len() implies ((#[trigger] q.members[i]) matches MemberView::Pad {
            number,
            ..
        } ==> number == pad_count(q.members.take(i))) by {
            if i < n {
                assert(q.members.take(i) =~= p.members.take(i));
            } else {
                assert(q.members.take(i) =~= p.members);
            }
        }
    }
}

/// Round trip for a declaration: values that populate the layout of its
/// members come back, field for field, from the bytes they were encoded to.
pub proof fn lemma_declaration_round_trip(p: ParserView, values: Seq<Value>)
    requires
        conforms(layout_of(p.members), values),
    ensures
        decoding(layout_of(p.members), encoding(layout_of(p.members), values)) == Some(values),
{
    lemma_round_trip(layout_of(p.members), values);
}

} // verus!
