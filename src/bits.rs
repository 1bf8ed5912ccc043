use vstd::prelude::*;

use crate::types::Literal;

verus! {

/// The low `n` bits of `x`, least significant first.
pub open spec fn uint_bits(x: u128, n: nat) -> Seq<bool> {
    Seq::new(n, |i: int| (x >> (i as u128)) & 1u128 == 1u128)
}

/// The bits of a byte string: each byte's eight bits, least significant
/// first, bytes in order.
pub open spec fn byte_bits(b: Seq<u8>) -> Seq<bool>
    decreases b.len(),
{
    if b.len() == 0 {
        Seq::empty()
    } else {
        byte_bits(b.drop_last()) + uint_bits(b.last() as u128, 8)
    }
}

/// The little-endian bit encoding of a literal.
pub open spec fn literal_bits_le(l: Literal) -> Seq<bool> {
    match l {
        Literal::Address(b) => b@,
        Literal::Boolean(b) => seq![b],
        Literal::Field(b) => b@,
        Literal::Group(b) => b@,
        Literal::I8(v) => uint_bits(v as u8 as u128, 8),
        Literal::I16(v) => uint_bits(v as u16 as u128, 16),
        Literal::I32(v) => uint_bits(v as u32 as u128, 32),
        Literal::I64(v) => uint_bits(v as u64 as u128, 64),
        Literal::I128(v) => uint_bits(v as u128, 128),
        Literal::U8(v) => uint_bits(v as u128, 8),
        Literal::U16(v) => uint_bits(v as u128, 16),
        Literal::U32(v) => uint_bits(v as u128, 32),
        Literal::U64(v) => uint_bits(v as u128, 64),
        Literal::U128(v) => uint_bits(v, 128),
        Literal::Scalar(b) => b@,
        Literal::String(s) => byte_bits(s@),
    }
}

/// The big-endian bit encoding of a literal: the little-endian one reversed.
pub open spec fn literal_bits_be(l: Literal) -> Seq<bool> {
    literal_bits_le(l).reverse()
}

/// A string of `n` bytes encodes to `8 * n` bits.
pub proof fn lemma_byte_bits_len(b: Seq<u8>)
    ensures
        byte_bits(b).len() == 8 * b.len(),
    decreases b.len(),
{
    if b.len() > 0 {
        lemma_byte_bits_len(b.drop_last());
    }
}

/// A value whose canonical bit encoding is defined in both orders.
pub trait ToBits {
    spec fn bits_le(&self) -> Seq<bool>;

    spec fn bits_be(&self) -> Seq<bool>;

    /// Returns this value as a list of little-endian bits.
    fn to_bits_le(&self) -> (r: Vec<bool>)
        ensures
            r@ == self.bits_le(),
    ;

    /// Returns this value as a list of big-endian bits.
    fn to_bits_be(&self) -> (r: Vec<bool>)
        ensures
            r@ == self.bits_be(),
    ;
}

/// Appends the low `n` bits of `x`, least significant first.
fn push_uint_bits(x: u128, n: u32, bits: &mut Vec<bool>)
    requires
        n <= 128,
    ensures
        final(bits)@ == old(bits)@ + uint_bits(x, n as nat),
{
    let mut i: u32 = 0;
    while i < n
        invariant
            i <= n,
            n <= 128,
            bits@ == old(bits)@ + uint_bits(x, i as nat),
        decreases n - i,
    {
        let b = (x >> (i as u128)) & 1 == 1;
        bits.push(b);
        assert(uint_bits(x, (i + 1) as nat) =~= uint_bits(x, i as nat).push(b));
        i = i + 1;
    }
}

/// Appends the bits of each byte of `s`, in order.
fn push_byte_bits(s: &Vec<u8>, bits: &mut Vec<bool>)
    ensures
        final(bits)@ == old(bits)@ + byte_bits(s@),
{
    let mut j: usize = 0;
    while j < s.len()
        invariant
            j <= s@.len(),
            bits@ == old(bits)@ + byte_bits(s@.subrange(0, j as int)),
        decreases s@.len() - j,
    {
        assert(s@.subrange(0, (j + 1) as int).drop_last() =~= s@.subrange(0, j as int));
        push_uint_bits(s[j] as u128, 8, bits);
        j = j + 1;
    }
    assert(s@.subrange(0, s@.len() as int) =~= s@);
}

/// Copies a list of bits.
fn copy_bits(b: &Vec<bool>) -> (r: Vec<bool>)
    ensures
        r@ == b@,
{
    let mut r: Vec<bool> = Vec::new();
    let mut i: usize = 0;
    while i < b.len()
        invariant
            i <= b@.len(),
            r@ == b@.subrange(0, i as int),
        decreases b@.len() - i,
    {
        r.push(b[i]);
        assert(b@.subrange(0, (i + 1) as int) =~= b@.subrange(0, i as int).push(b@[i as int]));
        i = i + 1;
    }
    assert(b@.subrange(0, b@.len() as int) =~= b@);
    r
}

/// Reverses a list of bits.
fn reverse_bits(b: Vec<bool>) -> (r: Vec<bool>)
    ensures
        r@ == b@.reverse(),
{
    let mut r: Vec<bool> = Vec::new();
    let mut i: usize = b.len();
    while i > 0
        invariant
            i <= b@.len(),
            r@ == b@.subrange(i as int, b@.len() as int).reverse(),
        decreases i,
    {
        i = i - 1;
        r.push(b[i]);
        assert(b@.subrange(i as int, b@.len() as int).reverse() =~= b@.subrange(
            (i + 1) as int,
            b@.len() as int,
        ).reverse().push(b@[i as int]));
    }
    assert(b@.subrange(0, b@.len() as int) =~= b@);
    r
}

impl ToBits for Literal {
    open spec fn bits_le(&self) -> Seq<bool> {
        literal_bits_le(*self)
    }

    open spec fn bits_be(&self) -> Seq<bool> {
        literal_bits_be(*self)
    }

    fn to_bits_le(&self) -> (r: Vec<bool>) {
        let mut bits: Vec<bool> = Vec::new();
        match self {
            Literal::Address(b) => {
                return copy_bits(b);
            },
            Literal::Boolean(b) => {
                bits.push(*b);
                assert(bits@ =~= seq![*b]);
            },
            Literal::Field(b) => {
                return copy_bits(b);
            },
            Literal::Group(b) => {
                return copy_bits(b);
            },
            Literal::I8(v) => push_uint_bits(*v as u8 as u128, 8, &mut bits),
            Literal::I16(v) => push_uint_bits(*v as u16 as u128, 16, &mut bits),
            Literal::I32(v) => push_uint_bits(*v as u32 as u128, 32, &mut bits),
            Literal::I64(v) => push_uint_bits(*v as u64 as u128, 64, &mut bits),
            Literal::I128(v) => push_uint_bits(*v as u128, 128, &mut bits),
            Literal::U8(v) => push_uint_bits(*v as u128, 8, &mut bits),
            Literal::U16(v) => push_uint_bits(*v as u128, 16, &mut bits),
            Literal::U32(v) => push_uint_bits(*v as u128, 32, &mut bits),
            Literal::U64(v) => push_uint_bits(*v as u128, 64, &mut bits),
            Literal::U128(v) => push_uint_bits(*v, 128, &mut bits),
            Literal::Scalar(b) => {
                return copy_bits(b);
            },
            Literal::String(s) => push_byte_bits(s, &mut bits),
        }
        assert(bits@ =~= literal_bits_le(*self));
        bits
    }

    fn to_bits_be(&self) -> (r: Vec<bool>) {
        let le = self.to_bits_le();
        reverse_bits(le)
    }
}

/// A plaintext value as the value store holds it.
#[derive(Clone, Debug, PartialEq, Eq)]
pub enum Plaintext {
    Literal(Literal),
}

/// The little-endian bits of a plaintext: the variant bit `0` of a literal,
/// then the literal's bits.
pub open spec fn plaintext_bits_le(p: Plaintext) -> Seq<bool> {
    match p {
        Plaintext::Literal(l) => seq![false] + literal_bits_le(l),
    }
}

/// The big-endian bits of a plaintext: the variant bit, then the literal's
/// big-endian bits.
pub open spec fn plaintext_bits_be(p: Plaintext) -> Seq<bool> {
    match p {
        Plaintext::Literal(l) => seq![false] + literal_bits_be(l),
    }
}

impl ToBits for Plaintext {
    open spec fn bits_le(&self) -> Seq<bool> {
        plaintext_bits_le(*self)
    }

    open spec fn bits_be(&self) -> Seq<bool> {
        plaintext_bits_be(*self)
    }

    fn to_bits_le(&self) -> (r: Vec<bool>) {
        let Plaintext::Literal(l) = self;
        let mut bits = vec![false];
        let mut rest = l.to_bits_le();
        bits.append(&mut rest);
        bits
    }

    fn to_bits_be(&self) -> (r: Vec<bool>) {
        let Plaintext::Literal(l) = self;
        let mut bits = vec![false];
        let mut rest = l.to_bits_be();
        bits.append(&mut rest);
        bits
    }
}

/// A ciphertext: field elements, each held as its little-endian bits.
#[derive(Clone, Debug, PartialEq, Eq)]
pub struct Ciphertext {
    pub fields: Vec<Vec<bool>>,
}

/// The field elements' bits, element after element, each in the order that
/// `big_endian` selects.
pub open spec fn fields_bits(f: Seq<Seq<bool>>, big_endian: bool) -> Seq<bool>
    decreases f.len(),
{
    if f.len() == 0 {
        Seq::empty()
    } else {
        fields_bits(f.drop_last(), big_endian) + if big_endian { f.last().reverse() } else { f.last() }
    }
}

impl Ciphertext {
    /// The field elements' bits, as sequences.
    pub open spec fn view_fields(&self) -> Seq<Seq<bool>> {
        self.fields@.map_values(|v: Vec<bool>| v@)
    }

    fn bits(&self, big_endian: bool) -> (r: Vec<bool>)
        ensures
            r@ == fields_bits(self.view_fields(), big_endian),
    {
        let mut out: Vec<bool> = Vec::new();
        let mut i: usize = 0;
        while i < self.fields.len()
            invariant
                i <= self.fields@.len(),
                out@ == fields_bits(self.view_fields().subrange(0, i as int), big_endian),
            decreases self.fields@.len() - i,
        {
            let b = copy_bits(&self.fields[i]);
            let mut b = if big_endian { reverse_bits(b) } else { b };
            out.append(&mut b);
            assert(self.view_fields().subrange(0, (i + 1) as int).drop_last() =~= self.view_fields().subrange(0, i as int));
            i = i + 1;
        }
        assert(self.view_fields().subrange(0, self.fields@.len() as int) =~= self.view_fields());
        out
    }
}

impl ToBits for Ciphertext {
    open spec fn bits_le(&self) -> Seq<bool> {
        fields_bits(self.view_fields(), false)
    }

    open spec fn bits_be(&self) -> Seq<bool> {
        fields_bits(self.view_fields(), true)
    }

    fn to_bits_le(&self) -> (r: Vec<bool>) {
        self.bits(false)
    }

    fn to_bits_be(&self) -> (r: Vec<bool>) {
        self.bits(true)
    }
}

/// A value tagged with how it is disclosed in a proof.
#[derive(Clone, Debug, PartialEq, Eq)]
pub enum Entry<P> {
    Constant(P),
    Public(P),
    Private(P),
}

/// The two bits that open an entry's encoding: `00` for constant, `01` for
/// public, `10` for private.
pub open spec fn visibility_bits<P>(e: Entry<P>) -> Seq<bool> {
    match e {
        Entry::Constant(_) => seq![false, false],
        Entry::Public(_) => seq![false, true],
        Entry::Private(_) => seq![true, false],
    }
}

/// The value that an entry wraps.
pub open spec fn entry_payload<P>(e: Entry<P>) -> P {
    match e {
        Entry::Constant(p) => p,
        Entry::Public(p) => p,
        Entry::Private(p) => p,
    }
}

impl<P: ToBits> Entry<P> {
    /// The visibility prefix followed by the payload's own bits.
    fn tagged_bits(&self, little_endian: bool) -> (r: Vec<bool>)
        ensures
            little_endian ==> r@ == visibility_bits(*self) + entry_payload(*self).bits_le(),
            !little_endian ==> r@ == visibility_bits(*self) + entry_payload(*self).bits_be(),
    {
        let (mut bits, payload) = match self {
            Entry::Constant(p) => (vec![false, false], p),
            Entry::Public(p) => (vec![false, true], p),
            Entry::Private(p) => (vec![true, false], p),
        };
        assert(bits@ =~= visibility_bits(*self));
        let mut rest = if little_endian {
            payload.to_bits_le()
        } else {
            payload.to_bits_be()
        };
        bits.append(&mut rest);
        bits
    }
}

impl<P: ToBits> ToBits for Entry<P> {
    open spec fn bits_le(&self) -> Seq<bool> {
        visibility_bits(*self) + entry_payload(*self).bits_le()
    }

    open spec fn bits_be(&self) -> Seq<bool> {
        visibility_bits(*self) + entry_payload(*self).bits_be()
    }

    fn to_bits_le(&self) -> (r: Vec<bool>) {
        self.tagged_bits(true)
    }

    fn to_bits_be(&self) -> (r: Vec<bool>) {
        self.tagged_bits(false)
    }
}

/// An entry's encoding, in either order, is its two visibility bits followed
/// exactly by its payload's encoding in the same order; the prefix is `00`,
/// `01` or `10` for a constant, public or private entry.
pub proof fn lemma_entry_bits<P: ToBits>(e: Entry<P>)
    ensures
        e.bits_le().subrange(0, 2) == visibility_bits(e),
        e.bits_le().subrange(2, e.bits_le().len() as int) == entry_payload(e).bits_le(),
        e.bits_be().subrange(0, 2) == visibility_bits(e),
        e.bits_be().subrange(2, e.bits_be().len() as int) == entry_payload(e).bits_be(),
        e is Constant ==> visibility_bits(e) == seq![false, false],
        e is Public ==> visibility_bits(e) == seq![false, true],
        e is Private ==> visibility_bits(e) == seq![true, false],
{
    assert(e.bits_le().subrange(0, 2) =~= visibility_bits(e));
    assert(e.bits_le().subrange(2, e.bits_le().len() as int) =~= entry_payload(e).bits_le());
    assert(e.bits_be().subrange(0, 2) =~= visibility_bits(e));
    assert(e.bits_be().subrange(2, e.bits_be().len() as int) =~= entry_payload(e).bits_be());
}

} // verus!
