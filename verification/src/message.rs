//! The message assembly loop, its builder capability, and the two example
//! schemas built on it.
use vstd::prelude::*;
use vstd::utf8::{decode_utf8, valid_utf8};

use crate::wire::{parse_field, spec_parse_field, lemma_parse_field_consumes};
use crate::wire::{Field, ParseError, SpecField, SpecFieldValue};

verus! {

/// Nested sub-messages deeper than this are rejected with `RecursionLimit`.
pub const MAX_RECURSION_DEPTH: u32 = 64;

/// A schema-specific message builder: it starts from a default state and
/// consumes decoded fields one at a time. Folding a field may recurse into
/// `parse_message_at` for a nested sub-message, spending one unit of `depth`.
pub trait ProtoMessage<'a>: View + Sized {
    /// The builder's starting state.
    spec fn spec_default() -> Self::V;

    /// How one field transforms the builder's state; `depth` bounds recursion
    /// into nested sub-messages.
    spec fn spec_add(pre: Self::V, field: SpecField, depth: nat) -> Result<Self::V, ParseError>
        decreases depth, 0nat, 0nat,
    ;

    /// A fresh builder in its default state.
    fn default_val() -> (r: Self)
        ensures
            r@ == Self::spec_default(),
    ;

    /// Folds one decoded field into the builder. On an error the builder is
    /// discarded by its caller, so its state is left unconstrained.
    fn add_field(&mut self, field: Field<'a>, depth: u32) -> (r: Result<(), ParseError>)
        ensures
            match Self::spec_add(old(self)@, field@, depth as nat) {
                Ok(next) => r is Ok && final(self)@ == next,
                Err(e) => r == Err::<(), ParseError>(e),
            },
        decreases depth, 0nat, 0nat,
    ;
}

/// Folding decoded fields into a builder state until the buffer is empty; the
/// final remainder is returned alongside the state.
pub open spec fn spec_assemble<'a, T: ProtoMessage<'a>>(
    acc: T::V,
    data: Seq<u8>,
    depth: nat,
) -> Result<(T::V, Seq<u8>), ParseError>
    decreases depth, data.len(), 1nat,
{
    if data.len() == 0 {
        Ok((acc, data))
    } else {
        match spec_parse_field(data) {
            Err(e) => Err(e),
            Ok((f, rest)) => if rest.len() >= data.len() {
                arbitrary()  // unreachable: a field always consumes at least one byte
            } else {
                match T::spec_add(acc, f, depth) {
                    Err(e) => Err(e),
                    Ok(next) => spec_assemble::<T>(next, rest, depth),
                }
            },
        }
    }
}

/// What parsing a whole buffer as a message of type `T` returns.
pub open spec fn spec_parse_message<'a, T: ProtoMessage<'a>>(data: Seq<u8>, depth: nat) -> Result<
    T::V,
    ParseError,
>
    decreases depth, data.len(), 2nat,
{
    match spec_assemble::<T>(T::spec_default(), data, depth) {
        Ok(p) => Ok(p.0),
        Err(e) => Err(e),
    }
}

/// Full-buffer consumption: whenever assembly succeeds, the final remainder
/// is empty — trailing bytes are never discarded.
pub proof fn lemma_assemble_consumes_all<'a, T: ProtoMessage<'a>>(
    acc: T::V,
    data: Seq<u8>,
    depth: nat,
)
    ensures
        spec_assemble::<T>(acc, data, depth) matches Ok(p) ==> p.1 == Seq::<u8>::empty(),
    decreases data.len(),
{
    if data.len() == 0 {
        assert(data =~= Seq::<u8>::empty());
    } else {
        lemma_parse_field_consumes(data);
        if let Ok((f, rest)) = spec_parse_field(data) {
            if let Ok(next) = T::spec_add(acc, f, depth) {
                lemma_assemble_consumes_all::<T>(next, rest, depth);
            }
        }
    }
}

/// Decodes an entire buffer as a message of type `T`, spending at most
/// `depth` levels of sub-message recursion.
pub fn parse_message_at<'a, T: ProtoMessage<'a>>(data: &'a [u8], depth: u32) -> (r: Result<
    T,
    ParseError,
>)
    ensures
        match r {
            Ok(t) => spec_parse_message::<T>(data@, depth as nat) == Ok::<T::V, ParseError>(t@),
            Err(e) => spec_parse_message::<T>(data@, depth as nat) == Err::<T::V, ParseError>(e),
        },
    decreases depth, 1nat,
{
    let mut result: T = T::default_val();
    let mut cur: &'a [u8] = data;
    while !cur.is_empty()
        invariant
            spec_assemble::<T>(T::spec_default(), data@, depth as nat) == spec_assemble::<T>(
                result@,
                cur@,
                depth as nat,
            ),
        decreases cur@.len(),
    {
        proof {
            lemma_parse_field_consumes(cur@);
        }
        let (field, rest) = match parse_field(cur) {
            Ok(p) => p,
            Err(e) => return Err(e),
        };
        match result.add_field(field, depth) {
            Ok(_) => {},
            Err(e) => return Err(e),
        }
        cur = rest;
    }
    proof {
        assert(cur@ =~= Seq::<u8>::empty());
    }
    Ok(result)
}

/// Decodes an entire buffer as one message, handing each decoded field to the
/// schema's builder; the whole input is consumed. Nesting beyond
/// `MAX_RECURSION_DEPTH` is rejected rather than risking unbounded recursion
/// on untrusted input.
pub fn parse_message<'a, T: ProtoMessage<'a>>(data: &'a [u8]) -> (r: Result<T, ParseError>)
    ensures
        match r {
            Ok(t) => spec_parse_message::<T>(data@, MAX_RECURSION_DEPTH as nat) == Ok::<
                T::V,
                ParseError,
            >(t@),
            Err(e) => spec_parse_message::<T>(data@, MAX_RECURSION_DEPTH as nat) == Err::<
                T::V,
                ParseError,
            >(e),
        },
{
    parse_message_at(data, MAX_RECURSION_DEPTH)
}

/// The abstract state of a phone number record: two texts.
#[verifier::ext_equal]
pub struct PhoneNumberView {
    pub number: Seq<char>,
    pub type_: Seq<char>,
}

/// A phone number: field 1 is the number, field 2 its type, both text
/// borrowed from the decoded buffer.
#[derive(Debug)]
pub struct PhoneNumber<'a> {
    pub number: &'a str,
    pub type_: &'a str,
}

impl<'a> View for PhoneNumber<'a> {
    type V = PhoneNumberView;

    open spec fn view(&self) -> PhoneNumberView {
        PhoneNumberView { number: self.number@, type_: self.type_@ }
    }
}

impl<'a> ProtoMessage<'a> for PhoneNumber<'a> {
    open spec fn spec_default() -> PhoneNumberView {
        PhoneNumberView { number: Seq::empty(), type_: Seq::empty() }
    }

    open spec fn spec_add(
        pre: PhoneNumberView,
        field: SpecField,
        depth: nat,
    ) -> Result<PhoneNumberView, ParseError> {
        if field.num == 1 {
            match field.value {
                SpecFieldValue::Bytes(b) => if valid_utf8(b) {
                    Ok(PhoneNumberView { number: decode_utf8(b), ..pre })
                } else {
                    Err(ParseError::InvalidText)
                },
                SpecFieldValue::Int(_) => Err(ParseError::TypeMismatch),
            }
        } else if field.num == 2 {
            match field.value {
                SpecFieldValue::Bytes(b) => if valid_utf8(b) {
                    Ok(PhoneNumberView { type_: decode_utf8(b), ..pre })
                } else {
                    Err(ParseError::InvalidText)
                },
                SpecFieldValue::Int(_) => Err(ParseError::TypeMismatch),
            }
        } else {
            Err(ParseError::UnknownFieldNumber)
        }
    }

    fn default_val() -> (r: Self) {
        let r = PhoneNumber { number: "", type_: "" };
        proof {
            reveal_strlit("");
            assert(r@ =~= Self::spec_default());
        }
        r
    }

    fn add_field(&mut self, field: Field<'a>, depth: u32) -> (r: Result<(), ParseError>) {
        match field.field_num {
            1 => {
                let s = match field.value.as_str() {
                    Ok(s) => s,
                    Err(e) => return Err(e),
                };
                self.number = s;
                proof {
                    assert(self@ =~= Self::spec_add(old(self)@, field@, depth as nat)->Ok_0);
                }
                Ok(())
            },
            2 => {
                let s = match field.value.as_str() {
                    Ok(s) => s,
                    Err(e) => return Err(e),
                };
                self.type_ = s;
                proof {
                    assert(self@ =~= Self::spec_add(old(self)@, field@, depth as nat)->Ok_0);
                }
                Ok(())
            },
            _ => Err(ParseError::UnknownFieldNumber),
        }
    }
}

/// The abstract state of a person record: a name, an id, and the phone
/// numbers seen so far, in order.
#[verifier::ext_equal]
pub struct PersonView {
    pub name: Seq<char>,
    pub id: u64,
    pub phone: Seq<PhoneNumberView>,
}

/// A person: field 1 is the name (text), field 2 the id (integer), field 3 a
/// repeated nested `PhoneNumber` sub-message.
#[derive(Debug)]
pub struct Person<'a> {
    pub name: &'a str,
    pub id: u64,
    pub phone: Vec<PhoneNumber<'a>>,
}

impl<'a> View for Person<'a> {
    type V = PersonView;

    open spec fn view(&self) -> PersonView {
        PersonView {
            name: self.name@,
            id: self.id,
            phone: self.phone@.map_values(|p: PhoneNumber<'a>| p@),
        }
    }
}

impl<'a> ProtoMessage<'a> for Person<'a> {
    open spec fn spec_default() -> PersonView {
        PersonView { name: Seq::empty(), id: 0, phone: Seq::empty() }
    }

    open spec fn spec_add(pre: PersonView, field: SpecField, depth: nat) -> Result<
        PersonView,
        ParseError,
    > {
        if field.num == 1 {
            match field.value {
                SpecFieldValue::Bytes(b) => if valid_utf8(b) {
                    Ok(PersonView { name: decode_utf8(b), ..pre })
                } else {
                    Err(ParseError::InvalidText)
                },
                SpecFieldValue::Int(_) => Err(ParseError::TypeMismatch),
            }
        } else if field.num == 2 {
            match field.value {
                SpecFieldValue::Int(v) => Ok(PersonView { id: v, ..pre }),
                SpecFieldValue::Bytes(_) => Err(ParseError::TypeMismatch),
            }
        } else if field.num == 3 {
            match field.value {
                SpecFieldValue::Bytes(b) => if depth == 0 {
                    Err(ParseError::RecursionLimit)
                } else {
                    match spec_parse_message::<PhoneNumber<'a>>(b, (depth - 1) as nat) {
                        Ok(ph) => Ok(PersonView { phone: pre.phone.push(ph), ..pre }),
                        Err(e) => Err(e),
                    }
                },
                SpecFieldValue::Int(_) => Err(ParseError::TypeMismatch),
            }
        } else {
            Err(ParseError::UnknownFieldNumber)
        }
    }

    fn default_val() -> (r: Self) {
        let r = Person { name: "", id: 0, phone: Vec::new() };
        proof {
            reveal_strlit("");
            assert(r@ =~= Self::spec_default());
        }
        r
    }

    fn add_field(&mut self, field: Field<'a>, depth: u32) -> (r: Result<(), ParseError>) {
        match field.field_num {
            1 => {
                let s = match field.value.as_str() {
                    Ok(s) => s,
                    Err(e) => return Err(e),
                };
                self.name = s;
                proof {
                    assert(self@ =~= Self::spec_add(old(self)@, field@, depth as nat)->Ok_0);
                }
                Ok(())
            },
            2 => {
                let v = match field.value.as_u64() {
                    Ok(v) => v,
                    Err(e) => return Err(e),
                };
                self.id = v;
                proof {
                    assert(self@ =~= Self::spec_add(old(self)@, field@, depth as nat)->Ok_0);
                }
                Ok(())
            },
            3 => {
                let bytes = match field.value.as_bytes() {
                    Ok(b) => b,
                    Err(e) => return Err(e),
                };
                if depth == 0 {
                    return Err(ParseError::RecursionLimit);
                }
                let ph: PhoneNumber<'a> = match parse_message_at::<PhoneNumber<'a>>(
                    bytes,
                    depth - 1,
                ) {
                    Ok(p) => p,
                    Err(e) => return Err(e),
                };
                self.phone.push(ph);
                proof {
                    assert(self@.phone =~= old(self)@.phone.push(ph@));
                    assert(self@ =~= Self::spec_add(old(self)@, field@, depth as nat)->Ok_0);
                }
                Ok(())
            },
            _ => Err(ParseError::UnknownFieldNumber),
        }
    }
}

/// Compares two byte slices by contents.
fn bytes_eq(a: &[u8], b: &[u8]) -> (r: bool)
    ensures
        r == (a@ == b@),
{
    if a.len() != b.len() {
        return false;
    }
    let mut i: usize = 0;
    while i < a.len()
        invariant
            i <= a@.len(),
            a@.len() == b@.len(),
            forall|j: int| 0 <= j < i ==> a@[j] == b@[j],
        decreases a@.len() - i,
    {
        if *vstd::slice::slice_index_get(a, i) != *vstd::slice::slice_index_get(b, i) {
            return false;
        }
        i = i + 1;
    }
    proof {
        assert(a@ =~= b@);
    }
    true
}

/// Compares two strs by contents: their views are equal exactly when their
/// UTF-8 bytes are.
fn str_eq(a: &str, b: &str) -> (r: bool)
    ensures
        r == (a@ == b@),
{
    let r = bytes_eq(a.as_bytes(), b.as_bytes());
    proof {
        vstd::utf8::encode_utf8_decode_utf8(a@);
        vstd::utf8::encode_utf8_decode_utf8(b@);
    }
    r
}

impl<'a> PartialEq for PhoneNumber<'a> {
    fn eq(&self, other: &Self) -> (r: bool) {
        let r = str_eq(self.number, other.number) && str_eq(self.type_, other.type_);
        proof {
            if r {
                assert(self@ =~= other@);
            }
        }
        r
    }
}

impl<'a> vstd::std_specs::cmp::PartialEqSpecImpl for PhoneNumber<'a> {
    open spec fn obeys_eq_spec() -> bool {
        true
    }

    open spec fn eq_spec(&self, other: &Self) -> bool {
        self@ == other@
    }
}

impl<'a> PartialEq for Person<'a> {
    fn eq(&self, other: &Self) -> (r: bool) {
        proof {
            assert(self@.phone.len() == self.phone@.len());
            assert(other@.phone.len() == other.phone@.len());
        }
        if !str_eq(self.name, other.name) || self.id != other.id || self.phone.len()
            != other.phone.len() {
            return false;
        }
        let mut i: usize = 0;
        while i < self.phone.len()
            invariant
                i <= self.phone@.len(),
                self.phone@.len() == other.phone@.len(),
                self@.name == other@.name,
                self@.id == other@.id,
                forall|j: int| 0 <= j < i ==> self@.phone[j] == other@.phone[j],
            decreases self.phone@.len() - i,
        {
            if !(self.phone[i] == other.phone[i]) {
                proof {
                    assert(self@.phone[i as int] == self.phone@[i as int]@);
                    assert(other@.phone[i as int] == other.phone@[i as int]@);
                }
                return false;
            }
            i = i + 1;
        }
        proof {
            assert(self@.phone =~= other@.phone);
            assert(self@ =~= other@);
        }
        true
    }
}

impl<'a> vstd::std_specs::cmp::PartialEqSpecImpl for Person<'a> {
    open spec fn obeys_eq_spec() -> bool {
        true
    }

    open spec fn eq_spec(&self, other: &Self) -> bool {
        self@ == other@
    }
}

} // verus!
