//! The wire codec: big-endian encoding of field values against a layout of
//! fields and padding, the matching decoder, and request frames.

use vstd::prelude::*;
use crate::schema::Primitive;

verus! {

/// One value of a field.
#[derive(Clone, Copy, Debug, PartialEq, Eq, Structural)]
pub enum Value {
    I8(i8),
    U8(u8),
    I16(i16),
    U16(u16),
    I32(i32),
    U32(u32),
    Bool(bool),
}

impl Value {
    /// The wire representation that the value belongs to.
    pub open spec fn repr(self) -> Primitive {
        match self {
            Value::I8(_) => Primitive::I8,
            Value::U8(_) => Primitive::U8,
            Value::I16(_) => Primitive::I16,
            Value::U16(_) => Primitive::U16,
            Value::I32(_) => Primitive::I32,
            Value::U32(_) => Primitive::U32,
            Value::Bool(_) => Primitive::Bool,
        }
    }

    /// The wire representation that the value belongs to.
    pub fn kind(&self) -> (p: Primitive)
        ensures
            p == self.repr(),
    {
        match self {
            Value::I8(_) => Primitive::I8,
            Value::U8(_) => Primitive::U8,
            Value::I16(_) => Primitive::I16,
            Value::U16(_) => Primitive::U16,
            Value::I32(_) => Primitive::I32,
            Value::U32(_) => Primitive::U32,
            Value::Bool(_) => Primitive::Bool,
        }
    }
}

/// One position of a wire layout: a field of some representation, or a run
/// of filler bytes.
#[derive(Clone, Copy, Debug, PartialEq, Eq, Structural)]
pub enum Slot {
    Field(Primitive),
    Pad(usize),
}

/// The two bytes of `v`, most significant first.
pub open spec fn be16(v: int) -> Seq<u8> {
    seq![(v / 256) as u8, (v % 256) as u8]
}

/// The four bytes of `v`, most significant first.
pub open spec fn be32(v: int) -> Seq<u8> {
    seq![
        (v / 16777216) as u8,
        (v / 65536 % 256) as u8,
        (v / 256 % 256) as u8,
        (v % 256) as u8,
    ]
}

/// The unsigned number with the same `bits`-bit pattern as `v` in two's
/// complement, where `modulus` is two to the power `bits`.
pub open spec fn unsigned(v: int, modulus: int) -> int {
    if v < 0 {
        v + modulus
    } else {
        v
    }
}

/// The signed number with the same bit pattern as the unsigned `u`.
pub open spec fn signed(u: int, modulus: int) -> int {
    if 2 * u >= modulus {
        u - modulus
    } else {
        u
    }
}

/// The bytes of one value on the wire.
pub open spec fn value_bytes(v: Value) -> Seq<u8> {
    match v {
        Value::I8(x) => seq![unsigned(x as int, 256) as u8],
        Value::U8(x) => seq![x],
        Value::I16(x) => be16(unsigned(x as int, 65536)),
        Value::U16(x) => be16(x as int),
        Value::I32(x) => be32(unsigned(x as int, 4294967296)),
        Value::U32(x) => be32(x as int),
        Value::Bool(b) => seq![if b { 1u8 } else { 0u8 }],
    }
}

/// The value of representation `p` that `bytes` hold, where `bytes` has the
/// length of `p`. A boolean is true when its byte is not zero.
pub open spec fn bytes_value(p: Primitive, bytes: Seq<u8>) -> Value {
    match p {
        Primitive::I8 => Value::I8(signed(bytes[0] as int, 256) as i8),
        Primitive::U8 => Value::U8(bytes[0]),
        Primitive::I16 => Value::I16(signed(bytes[0] * 256 + bytes[1], 65536) as i16),
        Primitive::U16 => Value::U16((bytes[0] * 256 + bytes[1]) as u16),
        Primitive::I32 => Value::I32(
            signed(
                bytes[0] * 16777216 + bytes[1] * 65536 + bytes[2] * 256 + bytes[3],
                4294967296,
            ) as i32,
        ),
        Primitive::U32 => Value::U32(
            (bytes[0] * 16777216 + bytes[1] * 65536 + bytes[2] * 256 + bytes[3]) as u32,
        ),
        Primitive::Bool => Value::Bool(bytes[0] != 0),
    }
}

/// `n` filler bytes: all zero.
pub open spec fn zeros(n: nat) -> Seq<u8> {
    Seq::new(n, |i: int| 0u8)
}

/// Whether `values` populate `slots`: one value per field, in order, each of
/// its field's representation. Padding takes no value.
pub open spec fn conforms(slots: Seq<Slot>, values: Seq<Value>) -> bool
    decreases slots.len(),
{
    if slots.len() == 0 {
        values.len() == 0
    } else {
        match slots[0] {
            Slot::Pad(_) => conforms(slots.drop_first(), values),
            Slot::Field(p) => values.len() > 0 && values[0].repr() == p && conforms(
                slots.drop_first(),
                values.drop_first(),
            ),
        }
    }
}

/// The bytes of `values` laid out as `slots` say: each field big-endian in
/// its width, each pad as that many zero bytes, all in layout order.
pub open spec fn encoding(slots: Seq<Slot>, values: Seq<Value>) -> Seq<u8>
    decreases slots.len(),
{
    if slots.len() == 0 {
        Seq::empty()
    } else {
        match slots[0] {
            Slot::Pad(n) => zeros(n as nat) + encoding(slots.drop_first(), values),
            Slot::Field(_) => value_bytes(values[0]) + encoding(
                slots.drop_first(),
                values.drop_first(),
            ),
        }
    }
}

/// The number of bytes that a layout takes on the wire.
pub open spec fn wire_len(slots: Seq<Slot>) -> nat
    decreases slots.len(),
{
    if slots.len() == 0 {
        0
    } else {
        match slots[0] {
            Slot::Pad(n) => n as nat + wire_len(slots.drop_first()),
            Slot::Field(p) => p.size() + wire_len(slots.drop_first()),
        }
    }
}

/// The values that `bytes` hold when read as `slots` say, if `bytes` has
/// exactly the layout's length. Filler bytes are skipped, whatever they hold.
pub open spec fn decoding(slots: Seq<Slot>, bytes: Seq<u8>) -> Option<Seq<Value>>
    decreases slots.len(),
{
    if slots.len() == 0 {
        if bytes.len() == 0 {
            Some(Seq::empty())
        } else {
            None
        }
    } else {
        match slots[0] {
            Slot::Pad(n) => if bytes.len() < n {
                None
            } else {
                decoding(slots.drop_first(), bytes.skip(n as int))
            },
            Slot::Field(p) => if bytes.len() < p.size() {
                None
            } else {
                match decoding(slots.drop_first(), bytes.skip(p.size() as int)) {
                    Some(rest) => Some(seq![bytes_value(p, bytes.take(p.size() as int))] + rest),
                    None => None,
                }
            },
        }
    }
}

/// The body of a request: the opcode, then the encoded members.
pub open spec fn request_body(opcode: u8, slots: Seq<Slot>, values: Seq<Value>) -> Seq<u8> {
    seq![opcode] + encoding(slots, values)
}

/// A request frame: a body, then the two bytes of the sequence number.
pub open spec fn stamped(body: Seq<u8>, sequence: u16) -> Seq<u8> {
    body + be16(sequence as int)
}

/// Appends the wire bytes of `v` to `out`.
pub fn push_value(out: &mut Vec<u8>, v: Value)
    ensures
        final(out)@ == old(out)@ + value_bytes(v),
{
    match v {
        Value::I8(x) => {
            let u: u8 = if x < 0 {
                (x as i16 + 256) as u8
            } else {
                x as u8
            };
            out.push(u);
        },
        Value::U8(x) => {
            out.push(x);
        },
        Value::I16(x) => {
            let u: u16 = if x < 0 {
                (x as i32 + 65536) as u16
            } else {
                x as u16
            };
            push_u16(out, u);
        },
        Value::U16(x) => {
            push_u16(out, x);
        },
        Value::I32(x) => {
            let u: u32 = if x < 0 {
                (x as i64 + 4294967296) as u32
            } else {
                x as u32
            };
            push_u32(out, u);
        },
        Value::U32(x) => {
            push_u32(out, x);
        },
        Value::Bool(b) => {
            out.push(if b { 1u8 } else { 0u8 });
        },
    }
    assert(out@ =~= old(out)@ + value_bytes(v));
}

/// Appends the two bytes of `v`, most significant first.
pub fn push_u16(out: &mut Vec<u8>, v: u16)
    ensures
        final(out)@ == old(out)@ + be16(v as int),
{
    out.push((v / 256) as u8);
    out.push((v % 256) as u8);
    assert(out@ =~= old(out)@ + be16(v as int));
}

/// Appends the four bytes of `v`, most significant first.
pub fn push_u32(out: &mut Vec<u8>, v: u32)
    ensures
        final(out)@ == old(out)@ + be32(v as int),
{
    out.push((v / 16777216) as u8);
    out.push((v / 65536 % 256) as u8);
    out.push((v / 256 % 256) as u8);
    out.push((v % 256) as u8);
    assert(out@ =~= old(out)@ + be32(v as int));
}

/// Appends `n` zero bytes to `out`.
pub fn push_zeros(out: &mut Vec<u8>, n: usize)
    ensures
        final(out)@ == old(out)@ + zeros(n as nat),
{
    let mut i: usize = 0;
    while i < n
        invariant
            i <= n,
            out@ == old(out)@ + zeros(i as nat),
        decreases n - i,
    {
        out.push(0u8);
        i += 1;
        assert(out@ =~= old(out)@ + zeros(i as nat));
    }
}

/// Appends the encoding of `values` against `slots` to `out`. Where the
/// values do not populate the layout, nothing is appended.
pub fn encode_into(out: &mut Vec<u8>, slots: &[Slot], values: &[Value]) -> (done: bool)
    ensures
        done == conforms(slots@, values@),
        done ==> final(out)@ == old(out)@ + encoding(slots@, values@),
        !done ==> final(out)@ == old(out)@,
{
    if !populates(slots, values) {
        return false;
    }
    let mut i: usize = 0;
    let mut j: usize = 0;
    assert(slots@.skip(0) =~= slots@);
    assert(values@.skip(0) =~= values@);
    while i < slots.len()
        invariant
            i <= slots@.len(),
            j <= values@.len(),
            conforms(slots@.skip(i as int), values@.skip(j as int)),
            old(out)@ + encoding(slots@, values@) == out@ + encoding(
                slots@.skip(i as int),
                values@.skip(j as int),
            ),
        decreases slots@.len() - i,
    {
        let ghost rest = encoding(slots@.skip(i as int), values@.skip(j as int));
        assert(slots@.skip(i as int).drop_first() =~= slots@.skip(i + 1));
        match slots[i] {
            Slot::Pad(n) => {
                push_zeros(out, n);
            },
            Slot::Field(_) => {
                assert(values@.skip(j as int).drop_first() =~= values@.skip(j + 1));
                push_value(out, values[j]);
                j += 1;
            },
        }
        i += 1;
        assert(out@ + encoding(slots@.skip(i as int), values@.skip(j as int)) =~= old(out)@
            + encoding(slots@, values@));
    }
    assert(out@ =~= old(out)@ + encoding(slots@, values@));
    true
}

/// Whether `values` populate `slots`.
pub fn populates(slots: &[Slot], values: &[Value]) -> (ok: bool)
    ensures
        ok == conforms(slots@, values@),
{
    let mut i: usize = 0;
    let mut j: usize = 0;
    assert(slots@.skip(0) =~= slots@);
    assert(values@.skip(0) =~= values@);
    while i < slots.len()
        invariant
            i <= slots@.len(),
            j <= values@.len(),
            conforms(slots@, values@) == conforms(slots@.skip(i as int), values@.skip(j as int)),
        decreases slots@.len() - i,
    {
        assert(slots@.skip(i as int).drop_first() =~= slots@.skip(i + 1));
        match slots[i] {
            Slot::Pad(_) => {},
            Slot::Field(p) => {
                if j >= values.len() {
                    return false;
                }
                if values[j].kind() != p {
                    return false;
                }
                assert(values@.skip(j as int).drop_first() =~= values@.skip(j + 1));
                j += 1;
            },
        }
        i += 1;
    }
    j == values.len()
}

/// Encodes `values` against `slots`: `None` where they do not populate the
/// layout. A layout without members encodes as no bytes.
pub fn encode(slots: &[Slot], values: &[Value]) -> (bytes: Option<Vec<u8>>)
    ensures
        bytes is Some <==> conforms(slots@, values@),
        bytes is Some ==> bytes->0@ == encoding(slots@, values@),
{
    let mut out: Vec<u8> = Vec::new();
    if encode_into(&mut out, slots, values) {
        assert(out@ =~= encoding(slots@, values@));
        Some(out)
    } else {
        None
    }
}

/// Encodes the body of a request: the opcode as the first byte, then the
/// members. `None` where the values do not populate the layout.
pub fn encode_request(opcode: u8, slots: &[Slot], values: &[Value]) -> (body: Option<Vec<u8>>)
    ensures
        body is Some <==> conforms(slots@, values@),
        body is Some ==> body->0@ == request_body(opcode, slots@, values@),
{
    let mut out: Vec<u8> = Vec::new();
    out.push(opcode);
    if encode_into(&mut out, slots, values) {
        assert(out@ =~= request_body(opcode, slots@, values@));
        Some(out)
    } else {
        None
    }
}

/// Completes a request frame: appends the sequence number to the body.
pub fn stamp(body: &[u8], sequence: u16) -> (frame: Vec<u8>)
    ensures
        frame@ == stamped(body@, sequence),
{
    let mut out: Vec<u8> = Vec::new();
    out.extend_from_slice(body);
    assert(out@ =~= body@);
    push_u16(&mut out, sequence);
    out
}

/// Reads the value of representation `p` that starts at `at` in `bytes`.
pub fn read_value(p: Primitive, bytes: &[u8], at: usize) -> (v: Value)
    requires
        at + p.size() <= bytes@.len(),
    ensures
        v == bytes_value(p, bytes@.subrange(at as int, at + p.size())),
{
    let ghost field = bytes@.subrange(at as int, at + p.size());
    match p {
        Primitive::I8 => {
            let b: u8 = bytes[at];
            assert(field[0] == b);
            let x: i8 = if b >= 128 {
                (b as i16 - 256) as i8
            } else {
                b as i8
            };
            Value::I8(x)
        },
        Primitive::U8 => {
            assert(field[0] == bytes@[at as int]);
            Value::U8(bytes[at])
        },
        Primitive::I16 => {
            let u: u16 = read_u16(bytes, at);
            assert(field[0] == bytes@[at as int] && field[1] == bytes@[at + 1]);
            let x: i16 = if u >= 32768 {
                (u as i32 - 65536) as i16
            } else {
                u as i16
            };
            Value::I16(x)
        },
        Primitive::U16 => {
            assert(field[0] == bytes@[at as int] && field[1] == bytes@[at + 1]);
            Value::U16(read_u16(bytes, at))
        },
        Primitive::I32 => {
            let u: u32 = read_u32(bytes, at);
            assert(field[0] == bytes@[at as int] && field[1] == bytes@[at + 1] && field[2]
                == bytes@[at + 2] && field[3] == bytes@[at + 3]);
            let x: i32 = if u >= 2147483648 {
                (u as i64 - 4294967296) as i32
            } else {
                u as i32
            };
            Value::I32(x)
        },
        Primitive::U32 => {
            assert(field[0] == bytes@[at as int] && field[1] == bytes@[at + 1] && field[2]
                == bytes@[at + 2] && field[3] == bytes@[at + 3]);
            Value::U32(read_u32(bytes, at))
        },
        Primitive::Bool => {
            assert(field[0] == bytes@[at as int]);
            Value::Bool(bytes[at] != 0)
        },
    }
}

/// Reads the big-endian number in the two bytes that start at `at`.
pub fn read_u16(bytes: &[u8], at: usize) -> (v: u16)
    requires
        at + 2 <= bytes@.len(),
    ensures
        v == bytes@[at as int] * 256 + bytes@[at + 1],
{
    let hi: u16 = bytes[at] as u16;
    let lo: u16 = bytes[at + 1] as u16;
    hi * 256 + lo
}

/// Reads the big-endian number in the four bytes that start at `at`.
pub fn read_u32(bytes: &[u8], at: usize) -> (v: u32)
    requires
        at + 4 <= bytes@.len(),
    ensures
        v == bytes@[at as int] * 16777216 + bytes@[at + 1] * 65536 + bytes@[at + 2] * 256
            + bytes@[at + 3],
{
    let b0: u32 = bytes[at] as u32;
    let b1: u32 = bytes[at + 1] as u32;
    let b2: u32 = bytes[at + 2] as u32;
    let b3: u32 = bytes[at + 3] as u32;
    b0 * 16777216 + b1 * 65536 + b2 * 256 + b3
}

/// Decodes `bytes` against `slots`: `None` unless `bytes` has exactly the
/// layout's length. Filler bytes are skipped and never handed out.
pub fn decode(slots: &[Slot], bytes: &[u8]) -> (values: Option<Vec<Value>>)
    ensures
        values is Some <==> decoding(slots@, bytes@) is Some,
        values is Some ==> values->0@ == decoding(slots@, bytes@)->0,
{
    let mut out: Vec<Value> = Vec::new();
    let mut i: usize = 0;
    let mut at: usize = 0;
    assert(slots@.skip(0) =~= slots@);
    assert(bytes@.skip(0) =~= bytes@);
    while i < slots.len()
        invariant
            i <= slots@.len(),
            at <= bytes@.len(),
            decoding(slots@, bytes@) == (match decoding(
                slots@.skip(i as int),
                bytes@.skip(at as int),
            ) {
                Some(rest) => Some(out@ + rest),
                None => None,
            }),
        decreases slots@.len() - i,
    {
        let ghost tail = bytes@.skip(at as int);
        assert(slots@.skip(i as int).drop_first() =~= slots@.skip(i + 1));
        match slots[i] {
            Slot::Pad(n) => {
                if bytes.len() - at < n {
                    return None;
                }
                assert(tail.skip(n as int) =~= bytes@.skip(at + n));
                at += n;
            },
            Slot::Field(p) => {
                let w: usize = p.width();
                if bytes.len() - at < w {
                    return None;
                }
                assert(tail.skip(w as int) =~= bytes@.skip(at + w));
                assert(tail.take(w as int) =~= bytes@.subrange(at as int, at + w));
                let v: Value = read_value(p, bytes, at);
                let ghost before = out@;
                out.push(v);
                proof {
                    match decoding(slots@.skip(i + 1), bytes@.skip(at + w)) {
                        Some(rest) => {
                            assert(before + (seq![v] + rest) =~= out@ + rest);
                        },
                        None => {},
                    }
                }
                at += w;
            },
        }
        i += 1;
    }
    if at != bytes.len() {
        return None;
    }
    assert(out@ + Seq::<Value>::empty() =~= out@);
    Some(out)
}

/// Decoding is defined exactly on the byte strings of the layout's length.
pub proof fn lemma_decoding_defined(slots: Seq<Slot>, bytes: Seq<u8>)
    ensures
        decoding(slots, bytes) is Some <==> bytes.len() == wire_len(slots),
        decoding(slots, bytes) is Some ==> conforms(slots, decoding(slots, bytes)->0),
    decreases slots.len(),
{
    if slots.len() > 0 {
        match slots[0] {
            Slot::Pad(n) => {
                if bytes.len() >= n {
                    lemma_decoding_defined(slots.drop_first(), bytes.skip(n as int));
                }
            },
            Slot::Field(p) => {
                if bytes.len() >= p.size() {
                    lemma_decoding_defined(slots.drop_first(), bytes.skip(p.size() as int));
                    match decoding(slots.drop_first(), bytes.skip(p.size() as int)) {
                        Some(rest) => {
                            let v = bytes_value(p, bytes.take(p.size() as int));
                            assert((seq![v] + rest).drop_first() =~= rest);
                        },
                        None => {},
                    }
                }
            },
        }
    }
}

/// An encoding has the length of its layout.
pub proof fn lemma_encoding_len(slots: Seq<Slot>, values: Seq<Value>)
    requires
        conforms(slots, values),
    ensures
        encoding(slots, values).len() == wire_len(slots),
    decreases slots.len(),
{
    if slots.len() > 0 {
        match slots[0] {
            Slot::Pad(n) => {
                lemma_encoding_len(slots.drop_first(), values);
            },
            Slot::Field(p) => {
                lemma_encoding_len(slots.drop_first(), values.drop_first());
            },
        }
    }
}

/// Reading back the bytes of one value gives the value.
pub proof fn lemma_value_round_trip(v: Value)
    ensures
        value_bytes(v).len() == v.repr().size(),
        bytes_value(v.repr(), value_bytes(v)) == v,
{
}

/// Round trip: decoding the encoding of values that populate a layout gives
/// the same values back, field for field.
pub proof fn lemma_round_trip(slots: Seq<Slot>, values: Seq<Value>)
    requires
        conforms(slots, values),
    ensures
        decoding(slots, encoding(slots, values)) == Some(values),
    decreases slots.len(),
{
    let bytes = encoding(slots, values);
    if slots.len() == 0 {
        assert(values =~= Seq::<Value>::empty());
    } else {
        match slots[0] {
            Slot::Pad(n) => {
                let rest = encoding(slots.drop_first(), values);
                assert(bytes.skip(n as int) =~= rest);
                lemma_round_trip(slots.drop_first(), values);
            },
            Slot::Field(p) => {
                let rest = encoding(slots.drop_first(), values.drop_first());
                lemma_value_round_trip(values[0]);
                assert(bytes.skip(p.size() as int) =~= rest);
                assert(bytes.take(p.size() as int) =~= value_bytes(values[0]));
                lemma_round_trip(slots.drop_first(), values.drop_first());
                assert(seq![values[0]] + values.drop_first() =~= values);
            },
        }
    }
}

/// Whether two byte strings of a layout's length agree wherever the layout
/// has a field; they may differ in the filler bytes.
pub open spec fn same_fields(slots: Seq<Slot>, a: Seq<u8>, b: Seq<u8>) -> bool
    decreases slots.len(),
{
    if slots.len() == 0 {
        a.len() == 0 && b.len() == 0
    } else {
        match slots[0] {
            Slot::Pad(n) => a.len() >= n && b.len() >= n && same_fields(
                slots.drop_first(),
                a.skip(n as int),
                b.skip(n as int),
            ),
            Slot::Field(p) => a.len() >= p.size() && b.len() >= p.size() && a.take(p.size() as int)
                == b.take(p.size() as int) && same_fields(
                slots.drop_first(),
                a.skip(p.size() as int),
                b.skip(p.size() as int),
            ),
        }
    }
}

/// Filler bytes are never read back as data: two byte strings that agree on
/// every field decode to the same values.
pub proof fn lemma_padding_ignored(slots: Seq<Slot>, a: Seq<u8>, b: Seq<u8>)
    requires
        same_fields(slots, a, b),
    ensures
        decoding(slots, a) == decoding(slots, b),
    decreases slots.len(),
{
    if slots.len() > 0 {
        match slots[0] {
            Slot::Pad(n) => {
                lemma_padding_ignored(slots.drop_first(), a.skip(n as int), b.skip(n as int));
            },
            Slot::Field(p) => {
                lemma_padding_ignored(
                    slots.drop_first(),
                    a.skip(p.size() as int),
                    b.skip(p.size() as int),
                );
            },
        }
    }
}

/// A request of two fields, the first of sixteen bits and the second of
/// eight, makes a frame of six bytes: the opcode, the first field's high and
/// low byte, the second field, the sequence number's high and low byte.
pub proof fn lemma_frame_shape(opcode: u8, f1: u16, f2: u8, sequence: u16)
    ensures
        stamped(
            request_body(
                opcode,
                seq![Slot::Field(Primitive::U16), Slot::Field(Primitive::U8)],
                seq![Value::U16(f1), Value::U8(f2)],
            ),
            sequence,
        ) == seq![
            opcode,
            (f1 / 256) as u8,
            (f1 % 256) as u8,
            f2,
            (sequence / 256) as u8,
            (sequence % 256) as u8,
        ],
{
    let slots = seq![Slot::Field(Primitive::U16), Slot::Field(Primitive::U8)];
    let values = seq![Value::U16(f1), Value::U8(f2)];
    let slots1 = slots.drop_first();
    let values1 = values.drop_first();
    assert(slots1[0] == Slot::Field(Primitive::U8) && values1[0] == Value::U8(f2));
    assert(slots1.drop_first().len() == 0);
    assert(encoding(slots1.drop_first(), values1.drop_first()) =~= Seq::<u8>::empty());
    assert(encoding(slots1, values1) =~= seq![f2]);
    assert(encoding(slots, values) =~= seq![(f1 / 256) as u8, (f1 % 256) as u8, f2]);
    assert(stamped(request_body(opcode, slots, values), sequence) =~= seq![
        opcode,
        (f1 / 256) as u8,
        (f1 % 256) as u8,
        f2,
        (sequence / 256) as u8,
        (sequence % 256) as u8,
    ]);
}

/// A request without members still makes a frame: the opcode and the two
/// bytes of the sequence number, three bytes in all.
pub proof fn lemma_empty_request_frame(opcode: u8, sequence: u16)
    ensures
        conforms(Seq::<Slot>::empty(), Seq::<Value>::empty()),
        stamped(
            request_body(opcode, Seq::<Slot>::empty(), Seq::<Value>::empty()),
            sequence,
        ) == seq![opcode, (sequence / 256) as u8, (sequence % 256) as u8],
{
    assert(stamped(
        request_body(opcode, Seq::<Slot>::empty(), Seq::<Value>::empty()),
        sequence,
    ) =~= seq![opcode, (sequence / 256) as u8, (sequence % 256) as u8]);
}

} // verus!
