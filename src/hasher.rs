use vstd::prelude::*;

use crate::bits::{lemma_byte_bits_len, literal_bits_le, ToBits};
use crate::types::{HashError, Literal};

verus! {

/// A Pedersen hash gadget: set up from a domain-separation label, it hashes
/// a list of bits to a field element, returned as its little-endian bits.
pub trait PedersenGadget: Sized {
    /// The gadget that `setup` derives from a label.
    spec fn spec_setup(message: Seq<char>) -> Self;

    /// The field element, as little-endian bits, that the gadget hashes
    /// `bits` to.
    spec fn spec_hash(&self, bits: Seq<bool>) -> Seq<bool>;

    /// Derives the gadget's parameters from `message`.
    fn setup(message: &str) -> (r: Self)
        ensures
            r == Self::spec_setup(message@),
    ;

    /// Hashes `bits` to a field element.
    fn hash(&self, bits: &Vec<bool>) -> (r: Vec<bool>)
        ensures
            r@ == self.spec_hash(bits@),
    ;
}

/// The bits that a bounded hasher of capacity `capacity` hashes for `value`:
/// the value's little-endian bits, where a string may hold at most `capacity`
/// bits. With `accepts_address` false, an address is refused.
pub open spec fn bounded_input_spec(value: Literal, capacity: nat, accepts_address: bool) -> Result<Seq<bool>, HashError> {
    if value is Address && !accepts_address {
        Err(HashError::UnsupportedInput)
    } else if value is String && literal_bits_le(value).len() > capacity {
        Err(HashError::InputTooLarge)
    } else {
        Ok(literal_bits_le(value))
    }
}

/// The bits to hash for `value`, or the reason it is refused.
fn bounded_input(value: &Literal, capacity: usize, accepts_address: bool) -> (r: Result<Vec<bool>, HashError>)
    ensures
        bounded_input_spec(*value, capacity as nat, accepts_address) is Ok <==> r is Ok,
        r is Ok ==> r->Ok_0@ == bounded_input_spec(*value, capacity as nat, accepts_address)->Ok_0,
        r is Err ==> r == Err::<Vec<bool>, HashError>(bounded_input_spec(*value, capacity as nat, accepts_address)->Err_0),
{
    if !accepts_address && matches!(value, Literal::Address(_)) {
        return Err(HashError::UnsupportedInput);
    }
    let bits = value.to_bits_le();
    if matches!(value, Literal::String(_)) && bits.len() > capacity {
        return Err(HashError::InputTooLarge);
    }
    Ok(bits)
}

/// A Pedersen hasher that accepts at most 1024 bits of string input.
pub struct Pedersen1024<G> {
    /// The gadget, set up from `label`.
    pub gadget: G,
    /// The label that the gadget was set up from.
    pub label: String,
}

/// A Pedersen hasher that accepts at most 256 bits of string input, and no
/// address.
pub struct Pedersen256<G> {
    /// The gadget, set up from `label`.
    pub gadget: G,
    /// The label that the gadget was set up from.
    pub label: String,
}

impl<G: PedersenGadget> Pedersen1024<G> {
    /// Creates a hasher whose parameters derive from `message`.
    pub fn new(message: &str) -> (r: Self)
        ensures
            r.label@ == message@,
            r.gadget == G::spec_setup(message@),
    {
        Pedersen1024 { gadget: G::setup(message), label: message.to_owned() }
    }

    /// The bits this hasher hashes for `value`: a string of more than 1024
    /// bits fails with `InputTooLarge`; every other value gives its
    /// little-endian bits.
    pub fn input_bits(value: &Literal) -> (r: Result<Vec<bool>, HashError>)
        ensures
            bounded_input_spec(*value, 1024, true) is Ok <==> r is Ok,
            r is Ok ==> r->Ok_0@ == bounded_input_spec(*value, 1024, true)->Ok_0,
            r is Err ==> r == Err::<Vec<bool>, HashError>(bounded_input_spec(*value, 1024, true)->Err_0),
    {
        bounded_input(value, 1024, true)
    }

    /// Hashes `value` to a field element; fails exactly where `input_bits`
    /// fails.
    pub fn hash(&self, value: &Literal) -> (r: Result<Literal, HashError>)
        ensures
            bounded_input_spec(*value, 1024, true) is Ok <==> r is Ok,
            r is Ok ==> r->Ok_0 is Field && r->Ok_0->Field_0@ == self.gadget.spec_hash(
                bounded_input_spec(*value, 1024, true)->Ok_0,
            ),
            r is Err ==> r == Err::<Literal, HashError>(bounded_input_spec(*value, 1024, true)->Err_0),
    {
        let bits = Self::input_bits(value)?;
        Ok(Literal::Field(self.gadget.hash(&bits)))
    }
}

impl<G: PedersenGadget> Pedersen256<G> {
    /// Creates a hasher whose parameters derive from `message`.
    pub fn new(message: &str) -> (r: Self)
        ensures
            r.label@ == message@,
            r.gadget == G::spec_setup(message@),
    {
        Pedersen256 { gadget: G::setup(message), label: message.to_owned() }
    }

    /// The bits this hasher hashes for `value`: an address fails with
    /// `UnsupportedInput`, a string of more than 256 bits with
    /// `InputTooLarge`; every other value gives its little-endian bits.
    pub fn input_bits(value: &Literal) -> (r: Result<Vec<bool>, HashError>)
        ensures
            bounded_input_spec(*value, 256, false) is Ok <==> r is Ok,
            r is Ok ==> r->Ok_0@ == bounded_input_spec(*value, 256, false)->Ok_0,
            r is Err ==> r == Err::<Vec<bool>, HashError>(bounded_input_spec(*value, 256, false)->Err_0),
    {
        bounded_input(value, 256, false)
    }

    /// Hashes `value` to a field element; fails exactly where `input_bits`
    /// fails.
    pub fn hash(&self, value: &Literal) -> (r: Result<Literal, HashError>)
        ensures
            bounded_input_spec(*value, 256, false) is Ok <==> r is Ok,
            r is Ok ==> r->Ok_0 is Field && r->Ok_0->Field_0@ == self.gadget.spec_hash(
                bounded_input_spec(*value, 256, false)->Ok_0,
            ),
            r is Err ==> r == Err::<Literal, HashError>(bounded_input_spec(*value, 256, false)->Err_0),
    {
        let bits = Self::input_bits(value)?;
        Ok(Literal::Field(self.gadget.hash(&bits)))
    }
}

impl<G: PedersenGadget> Default for Pedersen1024<G> {
    /// A hasher set up from the label `Pedersen1024`.
    fn default() -> (r: Self)
        ensures
            r.label@ == "Pedersen1024"@,
            r.gadget == G::spec_setup("Pedersen1024"@),
    {
        Self::new("Pedersen1024")
    }
}

impl<G: PedersenGadget> Default for Pedersen256<G> {
    /// A hasher set up from the label `Pedersen256`.
    fn default() -> (r: Self)
        ensures
            r.label@ == "Pedersen256"@,
            r.gadget == G::spec_setup("Pedersen256"@),
    {
        Self::new("Pedersen256")
    }
}

/// A string is within a bounded hasher's capacity exactly when its bytes
/// number at most an eighth of it: the 1024-bit hasher takes a string of 128
/// bytes (1024 bits) and refuses one of 129; the 256-bit hasher takes 32 bytes
/// (256 bits) and refuses 33. A hasher that refuses addresses refuses every
/// address.
pub proof fn lemma_bounded_capacity(value: Literal, capacity: nat, accepts_address: bool)
    ensures
        value is String ==> (bounded_input_spec(value, capacity, accepts_address) is Ok
            <==> 8 * value->String_0@.len() <= capacity),
        value is String && !(bounded_input_spec(value, capacity, accepts_address) is Ok)
            ==> bounded_input_spec(value, capacity, accepts_address) == Err::<Seq<bool>, HashError>(HashError::InputTooLarge),
        value is Address && !accepts_address
            ==> bounded_input_spec(value, capacity, accepts_address) == Err::<Seq<bool>, HashError>(HashError::UnsupportedInput),
{
    if value is String {
        lemma_byte_bits_len(value->String_0@);
    }
}

} // verus!
