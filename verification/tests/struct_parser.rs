use xrb::codec::{decode, encode, encode_request, stamp, Slot, Value};
use xrb::reader::{Attribute, Node};
use xrb::schema::{Primitive, SchemaError, TypeTable};
use xrb::struct_parser::{is_reserved_word, rustyfi_name, StructContentParser, StructType};

fn element(name: &str, attributes: &[(&str, &str)]) -> Node {
    Node::StartElement {
        name: name.to_string(),
        attributes: attributes
            .iter()
            .map(|(n, v)| Attribute { name: n.to_string(), value: v.to_string() })
            .collect(),
    }
}

fn field(ty: &str, name: &str) -> Node {
    element("field", &[("type", ty), ("name", name)])
}

fn pad(bytes: &str) -> Node {
    element("pad", &[("bytes", bytes)])
}

fn text(bytes: &[u8]) -> String {
    String::from_utf8(bytes.to_vec()).unwrap()
}

const RESERVED: [&str; 52] = [
    "as", "async", "await", "break", "const", "continue", "crate", "dyn", "else", "enum",
    "extern", "false", "fn", "for", "gen", "if", "impl", "in", "let", "loop", "match", "mod",
    "move", "mut", "pub", "ref", "return", "self", "Self", "static", "struct", "super", "trait",
    "true", "type", "unsafe", "use", "where", "while", "abstract", "become", "box", "do", "final",
    "macro", "override", "priv", "try", "typeof", "unsized", "virtual", "yield",
];

#[test]
fn reserved_word_is_renamed() {
    assert_eq!(rustyfi_name("type".to_string()), "ty");
    assert_eq!(rustyfi_name("match".to_string()), "match_");
    assert_eq!(rustyfi_name("fn".to_string()), "fn_");
    assert_eq!(rustyfi_name("Self".to_string()), "Self_");
    assert_eq!(rustyfi_name("ty".to_string()), "ty");
    assert_eq!(rustyfi_name("types".to_string()), "types");
    assert_eq!(rustyfi_name("Type".to_string()), "Type");
    assert_eq!(rustyfi_name("match_".to_string()), "match_");
    assert_eq!(rustyfi_name("".to_string()), "");
    assert_eq!(rustyfi_name("window".to_string()), "window");
}

#[test]
fn every_reserved_word_gets_a_name_that_is_not_reserved() {
    for word in RESERVED {
        assert!(is_reserved_word(word), "{}", word);
        let new = rustyfi_name(word.to_string());
        assert!(!is_reserved_word(&new), "{}", new);
        assert_eq!(rustyfi_name(new.clone()), new);
        if word != "type" {
            assert_eq!(new, format!("{}_", word));
        }
    }
    for name in ["window", "x", "Match", "TYPE", "r#type", "type_", "selfish", "i", ""] {
        assert!(!is_reserved_word(name), "{}", name);
        assert_eq!(rustyfi_name(name.to_string()), name);
    }
}

#[test]
fn renamed_field_is_the_same_in_definition_and_routine() {
    let types = TypeTable::builtin();
    let mut parser = StructContentParser::new("S", StructType::Struct);
    parser.feed(&field("CARD8", "match"), &types).unwrap();
    parser.feed(&field("CARD8", "loop"), &types).unwrap();
    assert_eq!(parser.feed(&field("CARD8", "match_"), &types), Err(SchemaError::DuplicateField));
    let mut dest = Vec::new();
    let fields = parser.finish(&mut dest);
    assert_eq!(
        fields,
        vec![("match_".to_string(), "CARD8".to_string()), ("loop_".to_string(), "CARD8".to_string())]
    );
    let out = text(&dest);
    assert!(out.contains("\tpub match_: CARD8,\n\tpub loop_: CARD8,\n"));
    assert!(out.contains("try!(self.match_.socket_send(&mut socket));"));
    assert!(out.contains("try!(self.loop_.socket_send(&mut socket));"));
}

#[test]
fn struct_declaration_text() {
    let types = TypeTable::builtin();
    let mut parser = StructContentParser::new("POINT", StructType::Struct);
    assert_eq!(parser.feed(&field("INT16", "x"), &types), Ok(()));
    assert_eq!(parser.feed(&Node::EndElement { name: "field".to_string() }, &types), Ok(()));
    assert_eq!(parser.feed(&field("INT16", "y"), &types), Ok(()));
    assert_eq!(parser.opcode(), None);
    let mut dest = b"// head\n".to_vec();
    let fields = parser.finish(&mut dest);
    assert_eq!(
        fields,
        vec![("x".to_string(), "INT16".to_string()), ("y".to_string(), "INT16".to_string())]
    );
    assert_eq!(
        text(&dest),
        "// head\n\
         pub struct POINT {\n\
         \tpub x: INT16,\n\
         \tpub y: INT16,\n\
         }\n\
         impl SocketSend for POINT {\n\
         \x20   fn socket_send(&self, socket: &mut TcpStream) -> IoResult<()> {\n\
         \t\ttry!(self.x.socket_send(&mut socket));\n\
         \t\ttry!(self.y.socket_send(&mut socket));\n\
         \t\tOk(())\n\
         \t}\n\
         }\n"
    );
}

#[test]
fn request_declaration_text() {
    let mut types = TypeTable::builtin();
    types.declare("WINDOW", Primitive::U32).unwrap();
    let mut parser = StructContentParser::new("Request", StructType::Request { opcode: 42 });
    assert_eq!(parser.feed(&field("CARD8", "type"), &types), Ok(()));
    assert_eq!(parser.feed(&pad("3"), &types), Ok(()));
    assert_eq!(parser.feed(&field("WINDOW", "window"), &types), Ok(()));
    assert_eq!(parser.feed(&pad("12"), &types), Ok(()));
    assert_eq!(parser.opcode(), Some(42));
    assert_eq!(parser.pad_total(), 2);
    assert_eq!(
        parser.layout(),
        vec![
            Slot::Field(Primitive::U8),
            Slot::Pad(3),
            Slot::Field(Primitive::U32),
            Slot::Pad(12)
        ]
    );
    let mut dest = Vec::new();
    let fields = parser.finish(&mut dest);
    assert_eq!(
        fields,
        vec![("ty".to_string(), "CARD8".to_string()), ("window".to_string(), "WINDOW".to_string())]
    );
    assert_eq!(
        text(&dest),
        "pub struct Request {\n\
         \tpub ty: CARD8,\n\
         \tpub window: WINDOW,\n\
         }\n\
         impl Request {\n\
         \x20   fn send(&self, socket: &mut TcpStream, sequence: u16) -> IoResult<()> {\n\
         try!(socket.write_u8(42));\n\
         \ttry!(self.ty.socket_send(&mut socket));\n\
         \tfor _pad0 in 0 .. 3 { try!(socket.write_u8(0)); }\n\
         \ttry!(self.window.socket_send(&mut socket));\n\
         \tfor _pad1 in 0 .. 12 { try!(socket.write_u8(0)); }\n\
         try!(sequence.socket_send(socket));\n\
         Ok(()) } }\n"
    );
}

#[test]
fn empty_request_still_has_a_type_and_a_routine() {
    let parser = StructContentParser::new("Request", StructType::Request { opcode: 0 });
    assert_eq!(parser.layout(), vec![]);
    let mut dest = Vec::new();
    let fields = parser.finish(&mut dest);
    assert_eq!(fields, vec![]);
    assert_eq!(
        text(&dest),
        "pub struct Request {\n\
         e: ()\n\
         }\n\
         impl Request {\n\
         \x20   fn send(&self, socket: &mut TcpStream, sequence: u16) -> IoResult<()> {\n\
         try!(socket.write_u8(0));\n\
         try!(sequence.socket_send(socket));\n\
         Ok(()) } }\n"
    );
}

#[test]
fn struct_of_pads_only_has_the_unit_member() {
    let types = TypeTable::builtin();
    let mut parser = StructContentParser::new("GAP", StructType::Struct);
    parser.feed(&pad("+4"), &types).unwrap();
    let mut dest = Vec::new();
    assert_eq!(parser.fields(), vec![]);
    assert_eq!(parser.finish(&mut dest), vec![]);
    assert_eq!(
        text(&dest),
        "pub struct GAP {\n\
         e: ()\n\
         }\n\
         impl SocketSend for GAP {\n\
         \x20   fn socket_send(&self, socket: &mut TcpStream) -> IoResult<()> {\n\
         \tfor _pad0 in 0 .. 4 { try!(socket.write_u8(0)); }\n\
         \t\tOk(())\n\
         \t}\n\
         }\n"
    );
}

#[test]
fn feed_refuses_bad_declarations_and_keeps_its_state() {
    let types = TypeTable::builtin();
    let mut parser = StructContentParser::new("S", StructType::Struct);
    parser.feed(&field("CARD8", "a"), &types).unwrap();
    assert_eq!(parser.feed(&field("CARD8", "a"), &types), Err(SchemaError::DuplicateField));
    assert_eq!(parser.feed(&field("NOPE", "b"), &types), Err(SchemaError::UnknownType));
    assert_eq!(parser.feed(&field("NOPE", "a"), &types), Err(SchemaError::DuplicateField));
    assert_eq!(
        parser.feed(&element("field", &[("name", "b")]), &types),
        Err(SchemaError::MissingAttribute)
    );
    assert_eq!(
        parser.feed(&element("field", &[("type", "CARD8")]), &types),
        Err(SchemaError::MissingAttribute)
    );
    assert_eq!(parser.feed(&element("pad", &[]), &types), Err(SchemaError::MissingAttribute));
    assert_eq!(parser.feed(&pad("x"), &types), Err(SchemaError::InvalidNumber));
    assert_eq!(parser.feed(&pad("-1"), &types), Err(SchemaError::InvalidNumber));
    assert_eq!(parser.feed(&pad(""), &types), Err(SchemaError::InvalidNumber));
    assert_eq!(
        parser.feed(&pad("99999999999999999999999999"), &types),
        Err(SchemaError::InvalidNumber)
    );
    assert!(parser.declares("a"));
    assert!(!parser.declares("b"));
    assert_eq!(parser.layout(), vec![Slot::Field(Primitive::U8)]);
    assert_eq!(parser.fields(), vec![("a".to_string(), "CARD8".to_string())]);
}

#[test]
fn renamed_field_collides_with_its_new_name() {
    let types = TypeTable::builtin();
    let mut parser = StructContentParser::new("S", StructType::Struct);
    parser.feed(&field("CARD8", "ty"), &types).unwrap();
    assert_eq!(parser.feed(&field("CARD8", "type"), &types), Err(SchemaError::DuplicateField));
}

#[test]
fn other_nodes_are_passed_over() {
    let types = TypeTable::builtin();
    let mut parser = StructContentParser::new("S", StructType::Struct);
    for node in [
        Node::StartDocument,
        Node::EndDocument,
        Node::ProcessingInstruction,
        Node::CData,
        Node::Comment,
        Node::Whitespace,
        Node::Malformed,
        Node::Characters("field".to_string()),
        Node::EndElement { name: "pad".to_string() },
        element("list", &[("type", "CARD8"), ("name", "x")]),
    ] {
        assert_eq!(parser.feed(&node, &types), Ok(()));
    }
    assert_eq!(parser.layout(), vec![]);
}

#[test]
fn first_attribute_of_a_name_wins() {
    let types = TypeTable::builtin();
    let mut parser = StructContentParser::new("S", StructType::Struct);
    let node = element("field", &[("type", "CARD16"), ("name", "a"), ("name", "b"), ("type", "X")]);
    parser.feed(&node, &types).unwrap();
    assert_eq!(parser.fields(), vec![("a".to_string(), "CARD16".to_string())]);
}

#[test]
fn parsed_request_encodes_to_its_frame() {
    let types = TypeTable::builtin();
    let mut parser = StructContentParser::new("Request", StructType::Request { opcode: 0x21 });
    parser.feed(&field("CARD16", "f1"), &types).unwrap();
    parser.feed(&field("CARD8", "f2"), &types).unwrap();
    let body = encode_request(
        parser.opcode().unwrap(),
        &parser.layout(),
        &[Value::U16(0xa1b2), Value::U8(0xc3)],
    )
    .unwrap();
    assert_eq!(stamp(&body, 0x0405), vec![0x21, 0xa1, 0xb2, 0xc3, 0x04, 0x05]);
}

#[test]
fn parsed_struct_round_trips() {
    let mut types = TypeTable::builtin();
    types.declare("ATOM", Primitive::U32).unwrap();
    types.alias("TIMESTAMP", "CARD32").unwrap();
    let mut parser = StructContentParser::new("S", StructType::Struct);
    parser.feed(&field("ATOM", "atom"), &types).unwrap();
    parser.feed(&pad("2"), &types).unwrap();
    parser.feed(&field("BOOL", "flag"), &types).unwrap();
    parser.feed(&field("TIMESTAMP", "time"), &types).unwrap();
    parser.feed(&field("INT16", "delta"), &types).unwrap();
    let layout = parser.layout();
    let values =
        vec![Value::U32(0x11223344), Value::Bool(true), Value::U32(5), Value::I16(-300)];
    let bytes = encode(&layout, &values).unwrap();
    assert_eq!(bytes, vec![0x11, 0x22, 0x33, 0x44, 0, 0, 1, 0, 0, 0, 5, 0xfe, 0xd4]);
    assert_eq!(decode(&layout, &bytes), Some(values));
}
