use vstd::prelude::*;
use vstd::slice::slice_subrange;

use crate::text::{
    bytes_equal, decimal, digits_value, is_digit, lemma_decimal, lemma_digits_value_grows, lemma_keyword,
    parse_type, push_decimal, type_of_word,
};
use crate::types::{keyword_of, Literal, LiteralType};

verus! {

/// The integer literal types.
pub open spec fn is_int_type(t: LiteralType) -> bool {
    t is I8 || t is I16 || t is I32 || t is I64 || t is I128 || t is U8 || t is U16 || t is U32
        || t is U64 || t is U128
}

/// The type and value of an integer literal.
pub open spec fn int_parts(l: Literal) -> Option<(LiteralType, int)> {
    match l {
        Literal::I8(v) => Some((LiteralType::I8, v as int)),
        Literal::I16(v) => Some((LiteralType::I16, v as int)),
        Literal::I32(v) => Some((LiteralType::I32, v as int)),
        Literal::I64(v) => Some((LiteralType::I64, v as int)),
        Literal::I128(v) => Some((LiteralType::I128, v as int)),
        Literal::U8(v) => Some((LiteralType::U8, v as int)),
        Literal::U16(v) => Some((LiteralType::U16, v as int)),
        Literal::U32(v) => Some((LiteralType::U32, v as int)),
        Literal::U64(v) => Some((LiteralType::U64, v as int)),
        Literal::U128(v) => Some((LiteralType::U128, v as int)),
        _ => None,
    }
}

/// The keyword `true`.
pub open spec fn true_word() -> Seq<u8> {
    seq![116u8, 114, 117, 101]
}

/// The keyword `false`.
pub open spec fn false_word() -> Seq<u8> {
    seq![102u8, 97, 108, 115, 101]
}

/// The decimal form of an integer: a minus sign before a negative one.
pub open spec fn signed_decimal(v: int) -> Seq<u8> {
    if v < 0 {
        seq![45u8] + decimal((-v) as nat)
    } else {
        decimal(v as nat)
    }
}

/// The word of a literal in instruction text: `true` or `false` for a
/// boolean, and the decimal value followed by the type keyword for an
/// integer (`5u8`, `-3i16`). Other literals have no word.
pub open spec fn literal_word(l: Literal) -> Option<Seq<u8>> {
    match l {
        Literal::Boolean(b) => Some(if b { true_word() } else { false_word() }),
        _ => match int_parts(l) {
            Some((t, v)) => Some(signed_decimal(v) + keyword_of(t)),
            None => None,
        },
    }
}

/// The bytes `u` and `i` that open an integer type keyword.
pub open spec fn is_type_letter(b: u8) -> bool {
    b == 117 || b == 105
}

/// The first position at or after `i` that holds `u` or `i`.
pub open spec fn letter_pos(w: Seq<u8>, i: int) -> Option<int>
    decreases w.len() - i,
{
    if i < 0 || i >= w.len() {
        None
    } else if is_type_letter(w[i]) {
        Some(i)
    } else {
        letter_pos(w, i + 1)
    }
}

/// The integer literal of type `t` with sign `neg` and magnitude `m`, if
/// the type holds it.
pub open spec fn make_int(t: LiteralType, neg: bool, m: nat) -> Option<Literal> {
    let v: int = if neg { -m } else { m as int };
    match t {
        LiteralType::I8 => if i8::MIN <= v <= i8::MAX { Some(Literal::I8(v as i8)) } else { None },
        LiteralType::I16 => if i16::MIN <= v <= i16::MAX { Some(Literal::I16(v as i16)) } else { None },
        LiteralType::I32 => if i32::MIN <= v <= i32::MAX { Some(Literal::I32(v as i32)) } else { None },
        LiteralType::I64 => if i64::MIN <= v <= i64::MAX { Some(Literal::I64(v as i64)) } else { None },
        LiteralType::I128 => if i128::MIN <= v <= i128::MAX { Some(Literal::I128(v as i128)) } else { None },
        LiteralType::U8 => if 0 <= v <= u8::MAX { Some(Literal::U8(v as u8)) } else { None },
        LiteralType::U16 => if 0 <= v <= u16::MAX { Some(Literal::U16(v as u16)) } else { None },
        LiteralType::U32 => if 0 <= v <= u32::MAX { Some(Literal::U32(v as u32)) } else { None },
        LiteralType::U64 => if 0 <= v <= u64::MAX { Some(Literal::U64(v as u64)) } else { None },
        LiteralType::U128 => if 0 <= v <= u128::MAX { Some(Literal::U128(v as u128)) } else { None },
        _ => None,
    }
}

/// Whether `d` is a nonempty run of decimal digits.
pub open spec fn all_digits(d: Seq<u8>) -> bool {
    d.len() > 0 && forall|i: int| 0 <= i < d.len() ==> is_digit(#[trigger] d[i])
}

/// The literal that a word names: `true`, `false`, or an optional minus
/// sign, decimal digits and an integer type keyword, whose value the type
/// holds.
pub open spec fn literal_parse(w: Seq<u8>) -> Option<Literal> {
    if w == true_word() {
        Some(Literal::Boolean(true))
    } else if w == false_word() {
        Some(Literal::Boolean(false))
    } else {
        match letter_pos(w, 0) {
            None => None,
            Some(j) => {
                let t = type_of_word(w.subrange(j, w.len() as int));
                let p = w.subrange(0, j);
                let neg = p.len() > 0 && p[0] == 45;
                let d = if neg { p.drop_first() } else { p };
                if t is Some && is_int_type(t->Some_0) && all_digits(d) && digits_value(d) <= u128::MAX {
                    make_int(t->Some_0, neg, digits_value(d))
                } else {
                    None
                }
            },
        }
    }
}

/// Skipping bytes that are not type letters finds the next one.
proof fn lemma_letter_pos(w: Seq<u8>, i: int, j: int)
    requires
        0 <= i <= j < w.len(),
        is_type_letter(w[j]),
        forall|k: int| i <= k < j ==> !is_type_letter(#[trigger] w[k]),
    ensures
        letter_pos(w, i) == Some(j),
    decreases j - i,
{
    if i < j {
        lemma_letter_pos(w, i + 1, j);
    }
}

/// The keyword of an integer type opens with `u` or `i`, then digits.
proof fn lemma_int_keyword(t: LiteralType)
    requires
        is_int_type(t),
    ensures
        keyword_of(t).len() >= 2,
        is_type_letter(keyword_of(t)[0]),
        forall|i: int| 1 <= i < keyword_of(t).len() ==> is_digit(#[trigger] keyword_of(t)[i]),
{
}

/// A decimal with its sign is made of digits and at most a leading minus.
proof fn lemma_signed_decimal(v: int)
    ensures
        signed_decimal(v).len() >= 1,
        forall|i: int| 0 <= i < signed_decimal(v).len() ==> is_digit(#[trigger] signed_decimal(v)[i])
            || signed_decimal(v)[i] == 45,
        v < 0 <==> signed_decimal(v)[0] == 45,
{
    if v < 0 {
        lemma_decimal((-v) as nat);
        let s = signed_decimal(v);
        assert forall|i: int| 0 <= i < s.len() implies is_digit(#[trigger] s[i]) || s[i] == 45 by {
            if i > 0 {
                assert(s[i] == decimal((-v) as nat)[i - 1]);
            }
        }
    } else {
        lemma_decimal(v as nat);
    }
}

/// Every boolean and integer literal has a word, the word holds no
/// whitespace, and it reads back as the literal.
pub proof fn lemma_literal_word(l: Literal)
    requires
        l is Boolean || int_parts(l) is Some,
    ensures
        literal_word(l) is Some,
        literal_parse(literal_word(l)->Some_0) == Some(l),
        literal_word(l)->Some_0.len() > 0,
        literal_word(l)->Some_0[0] != 114,
        forall|i: int| 0 <= i < literal_word(l)->Some_0.len() ==> 45 <= #[trigger] literal_word(l)->Some_0[i] <= 117,
{
    let w = literal_word(l)->Some_0;
    if l is Boolean {
        assert(true_word() != false_word()) by {
            assert(true_word().len() != false_word().len());
        }
        assert(forall|i: int| 0 <= i < w.len() ==> 45 <= #[trigger] w[i] <= 117);
    } else {
        let (t, v) = int_parts(l)->Some_0;
        let sd = signed_decimal(v);
        let k = keyword_of(t);
        lemma_signed_decimal(v);
        lemma_int_keyword(t);
        assert(w == sd + k);
        assert(w.last() == k.last());
        assert(w != true_word() && w != false_word()) by {
            assert(w.last() != 101);
        }
        let j = sd.len() as int;
        assert forall|i: int| 0 <= i < j implies !is_type_letter(#[trigger] w[i]) by {
            assert(w[i] == sd[i]);
        }
        assert(w[j] == k[0]);
        lemma_letter_pos(w, 0, j);
        assert(w.subrange(j, w.len() as int) =~= k);
        assert(w.subrange(0, j) =~= sd);
        lemma_keyword(t);
        let p = sd;
        let neg = p.len() > 0 && p[0] == 45;
        assert(neg == (v < 0));
        let m: nat = if v < 0 { (-v) as nat } else { v as nat };
        lemma_decimal(m);
        let d = if neg { p.drop_first() } else { p };
        assert(d =~= decimal(m));
        assert(digits_value(d) == m);
        assert forall|i: int| 0 <= i < w.len() implies 45 <= #[trigger] w[i] <= 117 by {
            if i < j {
                assert(w[i] == sd[i]);
            } else {
                assert(w[i] == k[i - j]);
                assert(forall|q: int| 0 <= q < k.len() ==> 48 <= #[trigger] k[q] <= 117);
            }
        }
        assert(w[0] == sd[0]);
    }
}

/// Reads a nonempty run of decimal digits whose value fits in 128 bits.
fn parse_digits(d: &[u8]) -> (r: Option<u128>)
    ensures
        r is Some <==> all_digits(d@) && digits_value(d@) <= u128::MAX,
        r is Some ==> r->Some_0 == digits_value(d@),
{
    if d.len() == 0 {
        return None;
    }
    let mut value: u128 = 0;
    let mut i: usize = 0;
    while i < d.len()
        invariant
            i <= d@.len(),
            forall|j: int| 0 <= j < i ==> is_digit(#[trigger] d@[j]),
            value as nat == digits_value(d@.subrange(0, i as int)),
        decreases d@.len() - i,
    {
        let b = d[i];
        if b < 48 || b > 57 {
            assert(!is_digit(d@[i as int]));
            return None;
        }
        let digit = (b - 48) as u128;
        assert(d@.subrange(0, (i + 1) as int).drop_last() =~= d@.subrange(0, i as int));
        if value > (u128::MAX - digit) / 10 {
            proof {
                assert(value * 10 + digit > u128::MAX) by (nonlinear_arith)
                    requires value > (u128::MAX - digit) / 10, digit <= 9;
                if all_digits(d@) {
                    lemma_digits_value_grows(d@, (i + 1) as int);
                }
            }
            return None;
        }
        assert(value * 10 + digit <= u128::MAX) by (nonlinear_arith)
            requires value <= (u128::MAX - digit) / 10, digit <= 9;
        value = value * 10 + digit;
        i = i + 1;
    }
    assert(d@.subrange(0, d@.len() as int) =~= d@);
    Some(value)
}

/// The integer literal of type `t` with sign `neg` and magnitude `m`, if
/// the type holds it.
fn make_int_literal(t: LiteralType, neg: bool, m: u128) -> (r: Option<Literal>)
    ensures
        r == make_int(t, neg, m as nat),
{
    match t {
        LiteralType::I8 => if neg { if m <= 128 { Some(Literal::I8((0 - m as i128) as i8)) } else { None } }
            else if m <= 127 { Some(Literal::I8(m as i8)) } else { None },
        LiteralType::I16 => if neg { if m <= 0x8000 { Some(Literal::I16((0 - m as i128) as i16)) } else { None } }
            else if m <= 0x7fff { Some(Literal::I16(m as i16)) } else { None },
        LiteralType::I32 => if neg { if m <= 0x8000_0000 { Some(Literal::I32((0 - m as i128) as i32)) } else { None } }
            else if m <= 0x7fff_ffff { Some(Literal::I32(m as i32)) } else { None },
        LiteralType::I64 => if neg { if m <= 0x8000_0000_0000_0000 { Some(Literal::I64((0 - m as i128) as i64)) } else { None } }
            else if m <= 0x7fff_ffff_ffff_ffff { Some(Literal::I64(m as i64)) } else { None },
        LiteralType::I128 => if neg {
                if m < 0x8000_0000_0000_0000_0000_0000_0000_0000 {
                    Some(Literal::I128(0 - m as i128))
                } else if m == 0x8000_0000_0000_0000_0000_0000_0000_0000 {
                    Some(Literal::I128(i128::MIN))
                } else {
                    None
                }
            } else if m <= 0x7fff_ffff_ffff_ffff_ffff_ffff_ffff_ffff { Some(Literal::I128(m as i128)) } else { None },
        LiteralType::U8 => if neg { if m == 0 { Some(Literal::U8(0)) } else { None } }
            else if m <= 0xff { Some(Literal::U8(m as u8)) } else { None },
        LiteralType::U16 => if neg { if m == 0 { Some(Literal::U16(0)) } else { None } }
            else if m <= 0xffff { Some(Literal::U16(m as u16)) } else { None },
        LiteralType::U32 => if neg { if m == 0 { Some(Literal::U32(0)) } else { None } }
            else if m <= 0xffff_ffff { Some(Literal::U32(m as u32)) } else { None },
        LiteralType::U64 => if neg { if m == 0 { Some(Literal::U64(0)) } else { None } }
            else if m <= 0xffff_ffff_ffff_ffff { Some(Literal::U64(m as u64)) } else { None },
        LiteralType::U128 => if neg { if m == 0 { Some(Literal::U128(0)) } else { None } }
            else { Some(Literal::U128(m)) },
        _ => None,
    }
}

/// Reads the literal that a word names (see `literal_parse`).
pub fn parse_literal(w: &[u8]) -> (r: Option<Literal>)
    ensures
        r == literal_parse(w@),
{
    let tw = vec![116u8, 114, 117, 101];
    if bytes_equal(w, tw.as_slice()) {
        return Some(Literal::Boolean(true));
    }
    let fw = vec![102u8, 97, 108, 115, 101];
    if bytes_equal(w, fw.as_slice()) {
        return Some(Literal::Boolean(false));
    }
    let mut j: usize = 0;
    while j < w.len()
        invariant
            j <= w@.len(),
            letter_pos(w@, 0) == letter_pos(w@, j as int),
        ensures
            j <= w@.len(),
            letter_pos(w@, 0) == letter_pos(w@, j as int),
            j < w@.len() ==> is_type_letter(w@[j as int]),
        decreases w@.len() - j,
    {
        if w[j] == 117 || w[j] == 105 {
            break;
        }
        j = j + 1;
    }
    if j == w.len() {
        return None;
    }
    assert(letter_pos(w@, 0) == Some(j as int));
    let t = match parse_type(slice_subrange(w, j, w.len())) {
        None => return None,
        Some(t) => t,
    };
    if !matches!(t, LiteralType::I8 | LiteralType::I16 | LiteralType::I32 | LiteralType::I64 | LiteralType::I128
        | LiteralType::U8 | LiteralType::U16 | LiteralType::U32 | LiteralType::U64 | LiteralType::U128) {
        return None;
    }
    let p = slice_subrange(w, 0, j);
    let neg = p.len() > 0 && p[0] == 45;
    let d = if neg { slice_subrange(p, 1, p.len()) } else { p };
    assert(neg ==> d@ =~= p@.drop_first());
    let m = match parse_digits(d) {
        None => return None,
        Some(m) => m,
    };
    make_int_literal(t, neg, m)
}

/// The sign and magnitude of an integer literal, with its type.
fn int_sign_magnitude(l: &Literal) -> (r: Option<(bool, u128, LiteralType)>)
    ensures
        int_parts(*l) is None <==> r is None,
        r is Some ==> r->Some_0.0 == (int_parts(*l)->Some_0.1 < 0)
            && r->Some_0.1 as int == (if int_parts(*l)->Some_0.1 < 0 { -int_parts(*l)->Some_0.1 } else { int_parts(*l)->Some_0.1 })
            && r->Some_0.2 == int_parts(*l)->Some_0.0,
{
    match l {
        Literal::I8(v) => Some(if *v < 0 { (true, (0 - *v as i128) as u128, LiteralType::I8) } else { (false, *v as u128, LiteralType::I8) }),
        Literal::I16(v) => Some(if *v < 0 { (true, (0 - *v as i128) as u128, LiteralType::I16) } else { (false, *v as u128, LiteralType::I16) }),
        Literal::I32(v) => Some(if *v < 0 { (true, (0 - *v as i128) as u128, LiteralType::I32) } else { (false, *v as u128, LiteralType::I32) }),
        Literal::I64(v) => Some(if *v < 0 { (true, (0 - *v as i128) as u128, LiteralType::I64) } else { (false, *v as u128, LiteralType::I64) }),
        Literal::I128(v) => Some(if *v < 0 { (true, (-(*v + 1)) as u128 + 1, LiteralType::I128) } else { (false, *v as u128, LiteralType::I128) }),
        Literal::U8(v) => Some((false, *v as u128, LiteralType::U8)),
        Literal::U16(v) => Some((false, *v as u128, LiteralType::U16)),
        Literal::U32(v) => Some((false, *v as u128, LiteralType::U32)),
        Literal::U64(v) => Some((false, *v as u128, LiteralType::U64)),
        Literal::U128(v) => Some((false, *v, LiteralType::U128)),
        _ => None,
    }
}

/// The word of a literal, where it has one (see `literal_word`).
pub fn literal_bytes(l: &Literal) -> (r: Option<Vec<u8>>)
    ensures
        literal_word(*l) is Some <==> r is Some,
        r is Some ==> r->Some_0@ == literal_word(*l)->Some_0,
{
    if let Literal::Boolean(b) = l {
        return Some(if *b { vec![116u8, 114, 117, 101] } else { vec![102u8, 97, 108, 115, 101] });
    }
    let (neg, m, t) = match int_sign_magnitude(l) {
        None => return None,
        Some(parts) => parts,
    };
    let mut out: Vec<u8> = if neg { vec![45u8] } else { Vec::new() };
    push_decimal(m, &mut out);
    let mut k = t.name_bytes();
    out.append(&mut k);
    assert(out@ =~= literal_word(*l)->Some_0);
    Some(out)
}

} // verus!
