use xrb::schema::{Primitive, SchemaError, TypeTable};

#[test]
fn builtin_names_resolve() {
    let table = TypeTable::builtin();
    assert_eq!(table.resolve("BYTE"), Some(Primitive::U8));
    assert_eq!(table.resolve("INT8"), Some(Primitive::I8));
    assert_eq!(table.resolve("INT16"), Some(Primitive::I16));
    assert_eq!(table.resolve("INT32"), Some(Primitive::I32));
    assert_eq!(table.resolve("CARD8"), Some(Primitive::U8));
    assert_eq!(table.resolve("CARD16"), Some(Primitive::U16));
    assert_eq!(table.resolve("CARD32"), Some(Primitive::U32));
    assert_eq!(table.resolve("BOOL"), Some(Primitive::Bool));
    assert_eq!(table.resolve("WINDOW"), None);
    assert_eq!(table.resolve("card8"), None);
    assert_eq!(TypeTable::new().resolve("BYTE"), None);
}

#[test]
fn widths() {
    assert_eq!(Primitive::I8.width(), 1);
    assert_eq!(Primitive::U8.width(), 1);
    assert_eq!(Primitive::Bool.width(), 1);
    assert_eq!(Primitive::I16.width(), 2);
    assert_eq!(Primitive::U16.width(), 2);
    assert_eq!(Primitive::I32.width(), 4);
    assert_eq!(Primitive::U32.width(), 4);
}

#[test]
fn declare_refuses_a_second_declaration() {
    let mut table = TypeTable::builtin();
    assert_eq!(table.declare("WINDOW", Primitive::U32), Ok(()));
    assert_eq!(table.resolve("WINDOW"), Some(Primitive::U32));
    assert_eq!(table.declare("WINDOW", Primitive::U8), Err(SchemaError::DuplicateType));
    assert_eq!(table.resolve("WINDOW"), Some(Primitive::U32));
    assert_eq!(table.declare("BOOL", Primitive::U8), Err(SchemaError::DuplicateType));
    assert_eq!(table.resolve("BOOL"), Some(Primitive::Bool));
}

#[test]
fn alias_resolves_to_the_old_name() {
    let mut table = TypeTable::builtin();
    assert_eq!(table.alias("VISUALID", "CARD32"), Ok(()));
    assert_eq!(table.alias("VID", "VISUALID"), Ok(()));
    assert_eq!(table.resolve("VID"), Some(Primitive::U32));
    assert_eq!(table.alias("X", "NOPE"), Err(SchemaError::UnknownType));
    assert_eq!(table.resolve("X"), None);
    assert_eq!(table.alias("VID", "CARD8"), Err(SchemaError::DuplicateType));
    assert_eq!(table.resolve("VID"), Some(Primitive::U32));
    assert_eq!(table.alias("VID", "NOPE"), Err(SchemaError::UnknownType));
}
