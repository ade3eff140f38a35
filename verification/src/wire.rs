//! The wire format: a base-128 varint codec, a tag decoder, and a field
//! decoder over borrowed byte buffers.
use vstd::prelude::*;
use vstd::slice::{slice_index_get, slice_subrange};
use vstd::string::StringSliceAdditionalSpecFns;
use vstd::utf8::{decode_utf8, valid_utf8};

verus! {

/// Why a decode step failed.
#[derive(Clone, Copy, Debug, PartialEq, Eq, Structural)]
pub enum ParseError {
    /// A varint ran past its group limit, or the buffer ended mid-sequence.
    MalformedVarint,
    /// A length-delimited field declared more bytes than remain.
    TruncatedBuffer,
    /// A tag's low three bits name a wire type this decoder does not support.
    UnknownWireType,
    /// A field number that the target schema does not define.
    UnknownFieldNumber,
    /// A field value was read as a variant its wire type cannot produce.
    TypeMismatch,
    /// Length-delimited bytes were not valid UTF-8 where text was required.
    InvalidText,
    /// Nested messages went deeper than the configured recursion bound.
    RecursionLimit,
}

/// How a field's payload is encoded on the wire.
#[derive(Clone, Copy, Debug, PartialEq, Eq, Structural)]
pub enum WireType {
    /// A single varint value.
    Varint,
    /// A varint length followed by that many raw bytes.
    Len,
}

/// A varint occupies at most this many encoded groups (one byte each).
pub const MAX_VARINT_GROUPS: u8 = 7;

/// Exclusive upper bound on the values representable in `max` varint groups.
pub open spec fn varint_bound(max: nat) -> nat
    decreases max,
{
    if max == 0 {
        1
    } else {
        0x80 * varint_bound((max - 1) as nat)
    }
}

/// Decoding a varint from `data` when at most `max` groups may still be read:
/// each byte contributes its low 7 bits, least-significant group first, and a
/// set top bit marks continuation.
pub open spec fn spec_varint_from(data: Seq<u8>, max: nat) -> Result<(nat, Seq<u8>), ParseError>
    decreases max,
{
    if max == 0 {
        Err(ParseError::MalformedVarint)
    } else if data.len() == 0 {
        Err(ParseError::MalformedVarint)
    } else if data[0] < 0x80 {
        Ok((data[0] as nat, data.skip(1)))
    } else {
        match spec_varint_from(data.skip(1), (max - 1) as nat) {
            Ok((v, rest)) => Ok((((data[0] - 0x80) as nat + 0x80 * v) as nat, rest)),
            Err(e) => Err(e),
        }
    }
}

/// What `parse_varint` returns: the decoded value and the unread remainder.
pub open spec fn spec_decode_varint(data: Seq<u8>) -> Result<(nat, Seq<u8>), ParseError> {
    spec_varint_from(data, MAX_VARINT_GROUPS as nat)
}

/// Every group budget admits at least the value zero.
pub proof fn lemma_varint_bound_pos(max: nat)
    ensures
        varint_bound(max) >= 1,
    decreases max,
{
    if max > 0 {
        lemma_varint_bound_pos((max - 1) as nat);
    }
}

/// A decoded varint is below the bound of its group budget, and its remainder
/// is a strict suffix of the input.
pub proof fn lemma_varint_from_ok(data: Seq<u8>, max: nat)
    ensures
        spec_varint_from(data, max) matches Ok(p) ==> {
            &&& p.0 < varint_bound(max)
            &&& p.1.len() < data.len()
            &&& p.1 =~= data.subrange(data.len() - p.1.len(), data.len() as int)
        },
    decreases max,
{
    lemma_varint_bound_pos(max);
    if max > 0 && data.len() > 0 && data[0] < 0x80 {
        lemma_varint_bound_pos((max - 1) as nat);
        assert(varint_bound(max) == 0x80 * varint_bound((max - 1) as nat));
    }
    if max > 0 && data.len() > 0 && data[0] >= 0x80 {
        let tail = data.skip(1);
        lemma_varint_from_ok(tail, (max - 1) as nat);
        if let Ok((v, rest)) = spec_varint_from(tail, (max - 1) as nat) {
            let b1 = varint_bound((max - 1) as nat);
            assert(varint_bound(max) == 0x80 * b1);
            assert((data[0] - 0x80) as nat + 0x80 * v < 0x80 * b1);
            assert(rest =~= tail.subrange(tail.len() - rest.len(), tail.len() as int));
            assert(tail =~= data.subrange(1, data.len() as int));
            assert(rest =~= data.subrange(data.len() - rest.len(), data.len() as int));
        }
    }
}

/// The bound for a full group budget, as a number.
pub proof fn lemma_varint_bound_values()
    ensures
        varint_bound(MAX_VARINT_GROUPS as nat) == 0x2000000000000,
        forall|m: nat| m <= MAX_VARINT_GROUPS as nat ==> #[trigger] varint_bound(m)
            <= 0x2000000000000,
{
    reveal_with_fuel(varint_bound, 8);
    assert forall|m: nat| m <= MAX_VARINT_GROUPS as nat implies #[trigger] varint_bound(m)
        <= 0x2000000000000 by {
        reveal_with_fuel(varint_bound, 8);
    }
}

/// Reads a varint whose first `max` groups may still carry a continuation bit.
fn parse_varint_from<'a>(data: &'a [u8], max: u8) -> (r: Result<(u64, &'a [u8]), ParseError>)
    requires
        max <= MAX_VARINT_GROUPS,
    ensures
        match r {
            Ok(p) => spec_varint_from(data@, max as nat) == Ok::<(nat, Seq<u8>), ParseError>(
                (p.0 as nat, p.1@),
            ),
            Err(e) => spec_varint_from(data@, max as nat) == Err::<(nat, Seq<u8>), ParseError>(e),
        },
    decreases max,
{
    if max == 0 || data.len() == 0 {
        return Err(ParseError::MalformedVarint);
    }
    let b: u8 = *slice_index_get(data, 0);
    let rest = slice_subrange(data, 1, data.len());
    proof {
        assert(rest@ =~= data@.skip(1));
    }
    if b < 0x80 {
        Ok((b as u64, rest))
    } else {
        match parse_varint_from(rest, max - 1) {
            Ok((v, rest2)) => {
                proof {
                    lemma_varint_from_ok(rest@, (max - 1) as nat);
                    lemma_varint_bound_values();
                }
                Ok(((b - 0x80) as u64 + 0x80 * v, rest2))
            },
            Err(e) => Err(e),
        }
    }
}

/// Decodes a base-128 varint from the front of `data`, returning the value
/// and the remainder after the final (top-bit-clear) byte.
pub fn parse_varint<'a>(data: &'a [u8]) -> (r: Result<(u64, &'a [u8]), ParseError>)
    ensures
        match r {
            Ok(p) => spec_decode_varint(data@) == Ok::<(nat, Seq<u8>), ParseError>(
                (p.0 as nat, p.1@),
            ),
            Err(e) => spec_decode_varint(data@) == Err::<(nat, Seq<u8>), ParseError>(e),
        },
{
    parse_varint_from(data, MAX_VARINT_GROUPS)
}

/// The base-128 encoding of `v`: low seven bits per byte, least-significant
/// group first, continuation bit set on every byte but the last.
pub open spec fn spec_encode_varint(v: nat) -> Seq<u8>
    decreases v,
{
    if v < 0x80 {
        seq![v as u8]
    } else {
        seq![(v % 0x80 + 0x80) as u8] + spec_encode_varint(v / 0x80)
    }
}

/// Encodes `v` as a varint.
pub fn encode_varint(v: u64) -> (r: Vec<u8>)
    ensures
        r@ == spec_encode_varint(v as nat),
{
    let mut out: Vec<u8> = Vec::new();
    let mut cur: u64 = v;
    while cur >= 0x80
        invariant
            spec_encode_varint(v as nat) =~= out@ + spec_encode_varint(cur as nat),
        decreases cur,
    {
        out.push((cur % 0x80 + 0x80) as u8);
        cur = cur / 0x80;
    }
    out.push(cur as u8);
    proof {
        assert(spec_encode_varint(v as nat) =~= out@);
    }
    out
}

/// Decoding is a left inverse of encoding: a value below the bound of `max`
/// groups comes back exactly, with nothing left over.
pub proof fn lemma_varint_round_trip_from(v: nat, max: nat)
    requires
        v < varint_bound(max),
        max >= 1,
    ensures
        spec_varint_from(spec_encode_varint(v), max) == Ok::<(nat, Seq<u8>), ParseError>(
            (v, Seq::<u8>::empty()),
        ),
    decreases max,
{
    if v < 0x80 {
        let enc = spec_encode_varint(v);
        assert(enc == seq![v as u8]);
        assert(enc.skip(1) =~= Seq::<u8>::empty());
    } else {
        let b1 = varint_bound((max - 1) as nat);
        assert(varint_bound(max) == 0x80 * b1);
        assert(v / 0x80 < b1);
        lemma_varint_bound_pos((max - 1) as nat);
        assert(v / 0x80 >= 1);
        assert(b1 >= 2);
        assert((max - 1) as nat >= 1) by {
            if max == 1 {
                assert(b1 == 1);
            }
        }
        lemma_varint_round_trip_from(v / 0x80, (max - 1) as nat);
        let enc = spec_encode_varint(v);
        assert(enc.skip(1) =~= spec_encode_varint(v / 0x80));
        assert(enc[0] == (v % 0x80 + 0x80) as u8);
        assert((enc[0] - 0x80) as nat + 0x80 * (v / 0x80) == v);
    }
}

/// Every unsigned value representable in the full group budget survives an
/// encode-decode round trip, leaving an empty remainder.
pub proof fn lemma_varint_round_trip(v: nat)
    requires
        v < varint_bound(MAX_VARINT_GROUPS as nat),
    ensures
        spec_decode_varint(spec_encode_varint(v)) == Ok::<(nat, Seq<u8>), ParseError>(
            (v, Seq::<u8>::empty()),
        ),
{
    lemma_varint_round_trip_from(v, MAX_VARINT_GROUPS as nat);
}

/// The wire type named by a tag's low three bits.
pub open spec fn spec_wire_type(bits: nat) -> Result<WireType, ParseError> {
    if bits == 0 {
        Ok(WireType::Varint)
    } else if bits == 2 {
        Ok(WireType::Len)
    } else {
        Err(ParseError::UnknownWireType)
    }
}

impl WireType {
    /// Reads a wire type out of a tag's low three bits.
    pub fn from_value(value: u64) -> (r: Result<WireType, ParseError>)
        ensures
            r == spec_wire_type(value as nat),
    {
        if value == 0 {
            Ok(WireType::Varint)
        } else if value == 2 {
            Ok(WireType::Len)
        } else {
            Err(ParseError::UnknownWireType)
        }
    }
}

/// Splitting a tag into a field number (the high bits) and a wire type (the
/// low three bits).
pub open spec fn spec_unpack_tag(tag: nat) -> Result<(nat, WireType), ParseError> {
    match spec_wire_type(tag % 8) {
        Ok(wt) => Ok((tag / 8, wt)),
        Err(e) => Err(e),
    }
}

/// Splits a decoded tag into its field number and wire type.
pub fn unpack_tag(tag: u64) -> (r: Result<(u64, WireType), ParseError>)
    ensures
        match r {
            Ok(p) => spec_unpack_tag(tag as nat) == Ok::<(nat, WireType), ParseError>(
                (p.0 as nat, p.1),
            ),
            Err(e) => spec_unpack_tag(tag as nat) == Err::<(nat, WireType), ParseError>(e),
        },
{
    let field_num = tag >> 3u64;
    let bits = tag & 0x7;
    proof {
        assert(tag >> 3u64 == tag / 8) by (bit_vector);
        assert(tag & 0x7 == tag % 8) by (bit_vector);
    }
    match WireType::from_value(bits) {
        Ok(wt) => Ok((field_num, wt)),
        Err(e) => Err(e),
    }
}

/// The mathematical value of a decoded field: an integer, or a window of the
/// input bytes.
#[verifier::ext_equal]
pub enum SpecFieldValue {
    Int(u64),
    Bytes(Seq<u8>),
}

/// The mathematical value of a field: its number and its value.
#[verifier::ext_equal]
pub struct SpecField {
    pub num: u64,
    pub value: SpecFieldValue,
}

/// One field's value, typed by its wire type. `Len` borrows from the decoded
/// buffer; nothing is copied.
#[derive(Debug)]
pub enum FieldValue<'a> {
    Varint(u64),
    Len(&'a [u8]),
}

/// A field number paired with its decoded value.
#[derive(Debug)]
pub struct Field<'a> {
    pub field_num: u64,
    pub value: FieldValue<'a>,
}

impl<'a> View for FieldValue<'a> {
    type V = SpecFieldValue;

    open spec fn view(&self) -> SpecFieldValue {
        match *self {
            FieldValue::Varint(v) => SpecFieldValue::Int(v),
            FieldValue::Len(b) => SpecFieldValue::Bytes(b@),
        }
    }
}

impl<'a> View for Field<'a> {
    type V = SpecField;

    open spec fn view(&self) -> SpecField {
        SpecField { num: self.field_num, value: self.value@ }
    }
}

/// Relies on std::str::from_utf8: it returns Ok exactly on valid UTF-8 input,
/// and the returned str is a view of those same bytes.
#[verifier::external_body]
fn str_from_utf8<'a>(data: &'a [u8]) -> (r: Option<&'a str>)
    ensures
        match r {
            Some(s) => valid_utf8(data@) && s@ == decode_utf8(data@) && s.spec_bytes() == data@,
            None => !valid_utf8(data@),
        },
{
    std::str::from_utf8(data).ok()
}

impl<'a> FieldValue<'a> {
    /// The field's bytes read as UTF-8 text; `TypeMismatch` on an integer
    /// field, `InvalidText` on bytes that are not UTF-8.
    pub fn as_str(&self) -> (r: Result<&'a str, ParseError>)
        ensures
            match r {
                Ok(s) => self@ matches SpecFieldValue::Bytes(b) && valid_utf8(b) && s@
                    == decode_utf8(b),
                Err(e) => {
                    ||| (e == ParseError::TypeMismatch && !(self@ is Bytes))
                    ||| (self@ matches SpecFieldValue::Bytes(b) && !valid_utf8(b) && e
                        == ParseError::InvalidText)
                },
            },
    {
        match *self {
            FieldValue::Len(data) => match str_from_utf8(data) {
                Some(s) => Ok(s),
                None => Err(ParseError::InvalidText),
            },
            _ => Err(ParseError::TypeMismatch),
        }
    }

    /// The field's raw bytes; `TypeMismatch` on an integer field.
    pub fn as_bytes(&self) -> (r: Result<&'a [u8], ParseError>)
        ensures
            match r {
                Ok(b) => self@ == SpecFieldValue::Bytes(b@),
                Err(e) => e == ParseError::TypeMismatch && !(self@ is Bytes),
            },
    {
        match *self {
            FieldValue::Len(data) => Ok(data),
            _ => Err(ParseError::TypeMismatch),
        }
    }

    /// The field's integer value; `TypeMismatch` on a length-delimited field.
    pub fn as_u64(&self) -> (r: Result<u64, ParseError>)
        ensures
            match r {
                Ok(v) => self@ == SpecFieldValue::Int(v),
                Err(e) => e == ParseError::TypeMismatch && !(self@ is Int),
            },
    {
        match *self {
            FieldValue::Varint(value) => Ok(value),
            _ => Err(ParseError::TypeMismatch),
        }
    }
}

/// Decoding one field from the front of `data`: a varint tag, then a payload
/// shaped by the tag's wire type.
pub open spec fn spec_parse_field(data: Seq<u8>) -> Result<(SpecField, Seq<u8>), ParseError> {
    match spec_decode_varint(data) {
        Err(e) => Err(e),
        Ok((tag, rest)) => match spec_unpack_tag(tag) {
            Err(e) => Err(e),
            Ok((num, WireType::Varint)) => match spec_decode_varint(rest) {
                Err(e) => Err(e),
                Ok((v, rest2)) => Ok(
                    (SpecField { num: num as u64, value: SpecFieldValue::Int(v as u64) }, rest2),
                ),
            },
            Ok((num, WireType::Len)) => match spec_decode_varint(rest) {
                Err(e) => Err(e),
                Ok((len, rest2)) => if rest2.len() < len {
                    Err(ParseError::TruncatedBuffer)
                } else {
                    Ok(
                        (
                            SpecField {
                                num: num as u64,
                                value: SpecFieldValue::Bytes(rest2.take(len as int)),
                            },
                            rest2.skip(len as int),
                        ),
                    )
                },
            },
        },
    }
}

/// Decodes one field from the front of `data`, returning it together with the
/// unconsumed remainder. The bytes of a length-delimited field are borrowed
/// from `data`, never copied.
pub fn parse_field<'a>(data: &'a [u8]) -> (r: Result<(Field<'a>, &'a [u8]), ParseError>)
    ensures
        match r {
            Ok(p) => spec_parse_field(data@) == Ok::<(SpecField, Seq<u8>), ParseError>(
                (p.0@, p.1@),
            ),
            Err(e) => spec_parse_field(data@) == Err::<(SpecField, Seq<u8>), ParseError>(e),
        },
{
    let (tag, remainder) = match parse_varint(data) {
        Ok(p) => p,
        Err(e) => return Err(e),
    };
    let (field_num, wire_type) = match unpack_tag(tag) {
        Ok(p) => p,
        Err(e) => return Err(e),
    };
    match wire_type {
        WireType::Varint => {
            let (value, remainder2) = match parse_varint(remainder) {
                Ok(p) => p,
                Err(e) => return Err(e),
            };
            Ok((Field { field_num, value: FieldValue::Varint(value) }, remainder2))
        },
        WireType::Len => {
            let (len, remainder2) = match parse_varint(remainder) {
                Ok(p) => p,
                Err(e) => return Err(e),
            };
            if (remainder2.len() as u64) < len {
                Err(ParseError::TruncatedBuffer)
            } else {
                let len_bytes = len as usize;
                let payload = slice_subrange(remainder2, 0, len_bytes);
                let rest = slice_subrange(remainder2, len_bytes, remainder2.len());
                proof {
                    assert(payload@ =~= remainder2@.take(len as int));
                    assert(rest@ =~= remainder2@.skip(len as int));
                }
                Ok((Field { field_num, value: FieldValue::Len(payload) }, rest))
            }
        },
    }
}

/// A decoded field consumes at least its tag byte and one payload byte: the
/// remainder is strictly shorter, and nested bytes are at least two bytes
/// shorter than the buffer they came from.
pub proof fn lemma_parse_field_consumes(data: Seq<u8>)
    ensures
        spec_parse_field(data) matches Ok(p) ==> {
            &&& p.1.len() < data.len()
            &&& (p.0.value matches SpecFieldValue::Bytes(b) ==> b.len() + p.1.len() + 2
                <= data.len())
        },
{
    lemma_varint_from_ok(data, MAX_VARINT_GROUPS as nat);
    if let Ok((tag, rest)) = spec_decode_varint(data) {
        lemma_varint_from_ok(rest, MAX_VARINT_GROUPS as nat);
    }
}

/// Zero copy: the bytes of a length-delimited field are a strict sub-range of
/// the input buffer.
pub proof fn lemma_len_field_zero_copy(data: Seq<u8>)
    ensures
        spec_parse_field(data) matches Ok(p) ==> (p.0.value matches SpecFieldValue::Bytes(b)
            ==> exists|i: int, j: int|
            0 <= i <= j <= data.len() && b == data.subrange(i, j) && j - i < data.len()),
{
    lemma_varint_from_ok(data, MAX_VARINT_GROUPS as nat);
    if let Ok((tag, rest)) = spec_decode_varint(data) {
        lemma_varint_from_ok(rest, MAX_VARINT_GROUPS as nat);
        if let Ok((num, WireType::Len)) = spec_unpack_tag(tag) {
            if let Ok((len, rest2)) = spec_decode_varint(rest) {
                if rest2.len() >= len {
                    let i: int = data.len() - rest2.len();
                    let j: int = i + len;
                    let b = rest2.take(len as int);
                    assert(rest2 =~= data.subrange(i, data.len() as int));
                    assert(b =~= data.subrange(i, j));
                    assert(i >= 2);
                    assert(exists|i2: int, j2: int|
                        0 <= i2 <= j2 <= data.len() && b == data.subrange(i2, j2) && j2 - i2
                            < data.len()) by {
                        assert(0 <= i <= j <= data.len() && b == data.subrange(i, j) && j - i
                            < data.len());
                    }
                }
            }
        }
    }
}

} // verus!

