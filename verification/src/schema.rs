//! The schema model: wire primitives, the table of declared type names, and
//! the errors that stop generation.

use vstd::prelude::*;
use crate::text::str_eq;

verus! {

/// The wire representation of a field.
#[derive(Clone, Copy, Debug, PartialEq, Eq, Structural)]
pub enum Primitive {
    I8,
    U8,
    I16,
    U16,
    I32,
    U32,
    Bool,
}

impl Primitive {
    /// The number of bytes that a value of this representation takes on the
    /// wire.
    pub open spec fn size(self) -> nat {
        match self {
            Primitive::I8 | Primitive::U8 | Primitive::Bool => 1,
            Primitive::I16 | Primitive::U16 => 2,
            Primitive::I32 | Primitive::U32 => 4,
        }
    }

    /// The number of bytes that a value of this representation takes on the
    /// wire.
    pub fn width(self) -> (w: usize)
        ensures
            w == self.size(),
    {
        match self {
            Primitive::I8 | Primitive::U8 | Primitive::Bool => 1,
            Primitive::I16 | Primitive::U16 => 2,
            Primitive::I32 | Primitive::U32 => 4,
        }
    }
}

/// What stops generation. No artifact is produced once one of these is met.
#[derive(Clone, Copy, Debug, PartialEq, Eq, Structural)]
pub enum SchemaError {
    /// The document does not open with the root element.
    ExpectedRoot,
    /// The document ended inside a declaration.
    UnexpectedEnd,
    /// The tokenizer reported ill-formed input.
    Malformed,
    /// An element lacks an attribute that its declaration needs.
    MissingAttribute,
    /// An opcode, an event number or a pad length is not a number in range.
    InvalidNumber,
    /// A field name occurs twice in one declaration.
    DuplicateField,
    /// A field or an alias refers to a type that was not declared.
    UnknownType,
    /// A type name is declared twice.
    DuplicateType,
}

/// One declared type name with the representation it resolves to.
#[derive(Debug)]
pub struct TypeEntry {
    pub name: String,
    pub repr: Primitive,
}

/// The mapping that a list of entries stands for; a later entry of the same
/// name would win.
pub open spec fn entries_map(entries: Seq<TypeEntry>) -> Map<Seq<char>, Primitive>
    decreases entries.len(),
{
    if entries.len() == 0 {
        Map::empty()
    } else {
        entries_map(entries.drop_last()).insert(entries.last().name@, entries.last().repr)
    }
}

/// The type names that every schema starts with.
pub open spec fn builtin_types() -> Map<Seq<char>, Primitive> {
    Map::<Seq<char>, Primitive>::empty().insert("BYTE"@, Primitive::U8).insert(
        "INT8"@,
        Primitive::I8,
    ).insert("INT16"@, Primitive::I16).insert("INT32"@, Primitive::I32).insert(
        "CARD8"@,
        Primitive::U8,
    ).insert("CARD16"@, Primitive::U16).insert("CARD32"@, Primitive::U32).insert(
        "BOOL"@,
        Primitive::Bool,
    )
}

/// The declared type names, each resolved to its wire representation. An
/// alias is resolved when it is declared, so a lookup never follows a chain.
#[derive(Debug)]
pub struct TypeTable {
    entries: Vec<TypeEntry>,
}

impl View for TypeTable {
    type V = Map<Seq<char>, Primitive>;

    closed spec fn view(&self) -> Map<Seq<char>, Primitive> {
        entries_map(self.entries@)
    }
}

impl TypeTable {
    /// A table that knows no type.
    pub fn new() -> (table: TypeTable)
        ensures
            table@ == Map::<Seq<char>, Primitive>::empty(),
    {
        TypeTable { entries: Vec::new() }
    }

    /// A table that knows the built-in integer and boolean names.
    pub fn builtin() -> (table: TypeTable)
        ensures
            table@ == builtin_types(),
    {
        let mut table = TypeTable::new();
        table.put("BYTE", Primitive::U8);
        table.put("INT8", Primitive::I8);
        table.put("INT16", Primitive::I16);
        table.put("INT32", Primitive::I32);
        table.put("CARD8", Primitive::U8);
        table.put("CARD16", Primitive::U16);
        table.put("CARD32", Primitive::U32);
        table.put("BOOL", Primitive::Bool);
        table
    }

    fn put(&mut self, name: &str, repr: Primitive)
        ensures
            final(self)@ == old(self)@.insert(name@, repr),
    {
        self.entries.push(TypeEntry { name: name.to_string(), repr });
        assert(self.entries@.drop_last() =~= old(self).entries@);
    }

    /// The representation that `name` resolves to, if it was declared.
    pub fn resolve(&self, name: &str) -> (repr: Option<Primitive>)
        ensures
            repr == (if self@.contains_key(name@) {
                Some(self@[name@])
            } else {
                None
            }),
    {
        let mut i: usize = self.entries.len();
        assert(self.entries@.take(i as int) =~= self.entries@);
        while i > 0
            invariant
                i <= self.entries@.len(),
                self@.contains_key(name@) <==> entries_map(
                    self.entries@.take(i as int),
                ).contains_key(name@),
                self@.contains_key(name@) ==> self@[name@] == entries_map(
                    self.entries@.take(i as int),
                )[name@],
            decreases i,
        {
            i -= 1;
            assert(self.entries@.take(i + 1).drop_last() =~= self.entries@.take(i as int));
            if str_eq(self.entries[i].name.as_str(), name) {
                return Some(self.entries[i].repr);
            }
        }
        None
    }

    /// Declares `name` with the representation `repr`. A name that is already
    /// declared is refused and the table stays as it was.
    pub fn declare(&mut self, name: &str, repr: Primitive) -> (done: Result<(), SchemaError>)
        ensures
            old(self)@.contains_key(name@) ==> done == Err::<(), SchemaError>(
                SchemaError::DuplicateType,
            ) && final(self)@ == old(self)@,
            !old(self)@.contains_key(name@) ==> done == Ok::<(), SchemaError>(()) && final(self)@
                == old(self)@.insert(name@, repr),
    {
        if self.resolve(name).is_some() {
            return Err(SchemaError::DuplicateType);
        }
        self.put(name, repr);
        Ok(())
    }

    /// Declares `newname` as an alias of `oldname`, which must be declared
    /// already. On an error the table stays as it was.
    pub fn alias(&mut self, newname: &str, oldname: &str) -> (done: Result<(), SchemaError>)
        ensures
            done == alias_outcome(old(self)@, newname@, oldname@),
            final(self)@ == alias_table(old(self)@, newname@, oldname@),
    {
        match self.resolve(oldname) {
            None => Err(SchemaError::UnknownType),
            Some(repr) => self.declare(newname, repr),
        }
    }
}

/// Whether declaring `newname` as an alias of `oldname` succeeds in `types`.
pub open spec fn alias_outcome(
    types: Map<Seq<char>, Primitive>,
    newname: Seq<char>,
    oldname: Seq<char>,
) -> Result<(), SchemaError> {
    if !types.contains_key(oldname) {
        Err(SchemaError::UnknownType)
    } else if types.contains_key(newname) {
        Err(SchemaError::DuplicateType)
    } else {
        Ok(())
    }
}

/// The table after declaring `newname` as an alias of `oldname` in `types`.
pub open spec fn alias_table(
    types: Map<Seq<char>, Primitive>,
    newname: Seq<char>,
    oldname: Seq<char>,
) -> Map<Seq<char>, Primitive> {
    if alias_outcome(types, newname, oldname) is Ok {
        types.insert(newname, types[oldname])
    } else {
        types
    }
}

} // verus!
