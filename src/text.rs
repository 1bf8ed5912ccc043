use vstd::prelude::*;
use vstd::string::StringSliceAdditionalSpecFns;

use crate::instruction::{expected_num_operands, expected_operands_spec, HashInstruction};
use crate::literal_text::{lemma_literal_word, literal_bytes, literal_parse, literal_word, parse_literal};
use crate::types::{
    is_valid_destination_type, keyword_of, type_index, valid_destination_spec, HashError, LiteralType,
    Literal, LiteralModel, Operand, OperandModel, Register, operands_model,
};

verus! {

/// The opcode keyword of each variant, as ASCII bytes.
pub open spec fn opcode_spec(variant: u8) -> Option<Seq<u8>> {
    if variant == 0 {
        Some(seq![104u8, 97, 115, 104, 46, 98, 104, 112, 50, 53, 54] /* hash.bhp256 */)
    } else if variant == 1 {
        Some(seq![104u8, 97, 115, 104, 46, 98, 104, 112, 53, 49, 50] /* hash.bhp512 */)
    } else if variant == 2 {
        Some(seq![104u8, 97, 115, 104, 46, 98, 104, 112, 55, 54, 56] /* hash.bhp768 */)
    } else if variant == 3 {
        Some(seq![104u8, 97, 115, 104, 46, 98, 104, 112, 49, 48, 50, 52] /* hash.bhp1024 */)
    } else if variant == 4 {
        Some(seq![104u8, 97, 115, 104, 46, 112, 101, 100, 54, 52] /* hash.ped64 */)
    } else if variant == 5 {
        Some(seq![104u8, 97, 115, 104, 46, 112, 101, 100, 49, 50, 56] /* hash.ped128 */)
    } else if variant == 6 {
        Some(seq![104u8, 97, 115, 104, 46, 112, 115, 100, 50] /* hash.psd2 */)
    } else if variant == 7 {
        Some(seq![104u8, 97, 115, 104, 46, 112, 115, 100, 52] /* hash.psd4 */)
    } else if variant == 8 {
        Some(seq![104u8, 97, 115, 104, 46, 112, 115, 100, 56] /* hash.psd8 */)
    } else if variant == 9 {
        Some(seq![104u8, 97, 115, 104, 95, 109, 97, 110, 121, 46, 112, 115, 100, 50] /* hash_many.psd2 */)
    } else if variant == 10 {
        Some(seq![104u8, 97, 115, 104, 95, 109, 97, 110, 121, 46, 112, 115, 100, 52] /* hash_many.psd4 */)
    } else if variant == 11 {
        Some(seq![104u8, 97, 115, 104, 95, 109, 97, 110, 121, 46, 112, 115, 100, 56] /* hash_many.psd8 */)
    } else {
        None
    }
}

/// The opcode keyword of `variant`, or `None` for a tag of 12 or more.
pub fn opcode_bytes(variant: u8) -> (r: Option<Vec<u8>>)
    ensures
        r is Some <==> opcode_spec(variant) is Some,
        r is Some ==> r->Some_0@ == opcode_spec(variant)->Some_0,
{
    if variant == 0 {
        Some(vec![104u8, 97, 115, 104, 46, 98, 104, 112, 50, 53, 54] /* hash.bhp256 */)
    } else if variant == 1 {
        Some(vec![104u8, 97, 115, 104, 46, 98, 104, 112, 53, 49, 50] /* hash.bhp512 */)
    } else if variant == 2 {
        Some(vec![104u8, 97, 115, 104, 46, 98, 104, 112, 55, 54, 56] /* hash.bhp768 */)
    } else if variant == 3 {
        Some(vec![104u8, 97, 115, 104, 46, 98, 104, 112, 49, 48, 50, 52] /* hash.bhp1024 */)
    } else if variant == 4 {
        Some(vec![104u8, 97, 115, 104, 46, 112, 101, 100, 54, 52] /* hash.ped64 */)
    } else if variant == 5 {
        Some(vec![104u8, 97, 115, 104, 46, 112, 101, 100, 49, 50, 56] /* hash.ped128 */)
    } else if variant == 6 {
        Some(vec![104u8, 97, 115, 104, 46, 112, 115, 100, 50] /* hash.psd2 */)
    } else if variant == 7 {
        Some(vec![104u8, 97, 115, 104, 46, 112, 115, 100, 52] /* hash.psd4 */)
    } else if variant == 8 {
        Some(vec![104u8, 97, 115, 104, 46, 112, 115, 100, 56] /* hash.psd8 */)
    } else if variant == 9 {
        Some(vec![104u8, 97, 115, 104, 95, 109, 97, 110, 121, 46, 112, 115, 100, 50] /* hash_many.psd2 */)
    } else if variant == 10 {
        Some(vec![104u8, 97, 115, 104, 95, 109, 97, 110, 121, 46, 112, 115, 100, 52] /* hash_many.psd4 */)
    } else if variant == 11 {
        Some(vec![104u8, 97, 115, 104, 95, 109, 97, 110, 121, 46, 112, 115, 100, 56] /* hash_many.psd8 */)
    } else {
        None
    }
}
/// Space, tab, line feed and carriage return separate the words of an
/// instruction.
pub open spec fn is_ws(b: u8) -> bool {
    b == 32 || b == 9 || b == 10 || b == 13
}

/// The words of `s` from position `i` on, given the words `acc` already
/// closed and the word `cur` still open: maximal runs of bytes that are not
/// whitespace, in order.
pub open spec fn split_from(s: Seq<u8>, i: int, acc: Seq<Seq<u8>>, cur: Seq<u8>) -> Seq<Seq<u8>>
    decreases s.len() - i,
{
    if i >= s.len() {
        if cur.len() > 0 { acc.push(cur) } else { acc }
    } else if is_ws(s[i]) {
        split_from(s, i + 1, if cur.len() > 0 { acc.push(cur) } else { acc }, Seq::empty())
    } else {
        split_from(s, i + 1, acc, cur.push(s[i]))
    }
}

/// The words of `s`.
pub open spec fn words(s: Seq<u8>) -> Seq<Seq<u8>> {
    split_from(s, 0, Seq::empty(), Seq::empty())
}

/// Splits `s` into its words.
pub fn split_words(s: &[u8]) -> (r: Vec<Vec<u8>>)
    ensures
        r@.map_values(|w: Vec<u8>| w@) == words(s@),
{
    let mut acc: Vec<Vec<u8>> = Vec::new();
    let mut cur: Vec<u8> = Vec::new();
    let mut i: usize = 0;
    assert(acc@.map_values(|w: Vec<u8>| w@) =~= Seq::<Seq<u8>>::empty());
    assert(cur@ =~= Seq::<u8>::empty());
    while i < s.len()
        invariant
            i <= s@.len(),
            split_from(s@, i as int, acc@.map_values(|w: Vec<u8>| w@), cur@) == words(s@),
        decreases s@.len() - i,
    {
        let b = s[i];
        if b == 32 || b == 9 || b == 10 || b == 13 {
            if cur.len() > 0 {
                let ghost before = acc@;
                acc.push(cur);
                assert(acc@.map_values(|w: Vec<u8>| w@) =~= before.map_values(|w: Vec<u8>| w@).push(cur@));
                cur = Vec::new();
            } else {
                cur = Vec::new();
            }
            assert(cur@ =~= Seq::<u8>::empty());
        } else {
            cur.push(b);
        }
        i = i + 1;
    }
    if cur.len() > 0 {
        let ghost before = acc@;
        acc.push(cur);
        assert(acc@.map_values(|w: Vec<u8>| w@) =~= before.map_values(|w: Vec<u8>| w@).push(cur@));
    }
    acc
}

/// Whether `b` is an ASCII decimal digit.
pub open spec fn is_digit(b: u8) -> bool {
    48 <= b <= 57
}

/// The decimal digits of `n`, most significant first, without leading zeros.
pub open spec fn decimal(n: nat) -> Seq<u8>
    decreases n,
{
    if n < 10 {
        seq![(48 + n) as u8]
    } else {
        decimal(n / 10).push((48 + n % 10) as u8)
    }
}

/// The number that a string of decimal digits spells.
pub open spec fn digits_value(d: Seq<u8>) -> nat
    decreases d.len(),
{
    if d.len() == 0 {
        0
    } else {
        digits_value(d.drop_last()) * 10 + (d.last() - 48) as nat
    }
}

/// The register that a word names: `r` followed by the decimal locator.
pub open spec fn register_of_word(w: Seq<u8>) -> Option<Register> {
    let d = w.drop_first();
    if w.len() >= 2 && w[0] == 114 && (forall|i: int| 0 <= i < d.len() ==> is_digit(#[trigger] d[i]))
        && digits_value(d) <= u64::MAX {
        Some(Register::Locator(digits_value(d) as u64))
    } else {
        None
    }
}

/// The word that names a register.
pub open spec fn register_word(r: Register) -> Seq<u8> {
    match r {
        Register::Locator(n) => seq![114u8] + decimal(n as nat),
    }
}

/// The literal type that a word names.
pub open spec fn type_of_word(w: Seq<u8>) -> Option<LiteralType> {
    if exists|t: LiteralType| keyword_of(t) == w {
        Some(choose|t: LiteralType| keyword_of(t) == w)
    } else {
        None
    }
}

/// Each digit string that extends `d` spells at least as much.
pub(crate) proof fn lemma_digits_value_grows(d: Seq<u8>, k: int)
    requires
        0 <= k <= d.len(),
        forall|i: int| 0 <= i < d.len() ==> is_digit(#[trigger] d[i]),
    ensures
        digits_value(d.subrange(0, k)) <= digits_value(d),
    decreases d.len() - k,
{
    if k < d.len() {
        lemma_digits_value_grows(d, k + 1);
        assert(d.subrange(0, k + 1).drop_last() =~= d.subrange(0, k));
        assert(d.subrange(0, k + 1).last() == d[k]);
    } else {
        assert(d.subrange(0, k) =~= d);
    }
}

/// The decimal digits of `n` are digits and spell `n`.
pub proof fn lemma_decimal(n: nat)
    ensures
        decimal(n).len() >= 1,
        forall|i: int| 0 <= i < decimal(n).len() ==> is_digit(#[trigger] decimal(n)[i]),
        digits_value(decimal(n)) == n,
    decreases n,
{
    if n >= 10 {
        lemma_decimal(n / 10);
        assert(decimal(n).drop_last() =~= decimal(n / 10));
        assert(n == (n / 10) * 10 + n % 10);
        assert(digits_value(decimal(n)) == digits_value(decimal(n / 10)) * 10 + n % 10);
    } else {
        let d = decimal(n);
        assert(d.drop_last() =~= Seq::<u8>::empty());
        assert(digits_value(d.drop_last()) == 0);
        assert(d.last() == (48 + n) as u8);
        assert(((48 + n) as u8 - 48) as nat == n);
    }
}

/// Distinct literal types have distinct keywords.
pub proof fn lemma_keyword_injective(a: LiteralType, b: LiteralType)
    ensures
        keyword_of(a) == keyword_of(b) ==> a == b,
{
    if keyword_of(a) == keyword_of(b) {
        let ka = keyword_of(a);
        let kb = keyword_of(b);
        assert(ka.len() == kb.len() && ka[0] == kb[0] && ka[1] == kb[1]);
    }
}

/// Whether two byte strings are equal.
pub(crate) fn bytes_equal(a: &[u8], b: &[u8]) -> (r: bool)
    ensures
        r == (a@ == b@),
{
    if a.len() != b.len() {
        return false;
    }
    let mut i: usize = 0;
    while i < a.len()
        invariant
            i <= a@.len(),
            a@.len() == b@.len(),
            forall|j: int| 0 <= j < i ==> a@[j] == b@[j],
        decreases a@.len() - i,
    {
        if a[i] != b[i] {
            return false;
        }
        i = i + 1;
    }
    assert(a@ =~= b@);
    true
}

/// Reads the register that a word names.
pub fn parse_register(w: &[u8]) -> (r: Option<Register>)
    ensures
        r == register_of_word(w@),
{
    if w.len() < 2 || w[0] != 114 {
        return None;
    }
    let ghost d = w@.drop_first();
    let mut value: u64 = 0;
    let mut i: usize = 1;
    while i < w.len()
        invariant
            1 <= i <= w@.len(),
            w@.len() >= 2,
            d == w@.drop_first(),
            forall|j: int| 0 <= j < i - 1 ==> is_digit(#[trigger] d[j]),
            value as nat == digits_value(d.subrange(0, i - 1)),
        decreases w@.len() - i,
    {
        let b = w[i];
        if b < 48 || b > 57 {
            assert(!is_digit(d[i - 1]));
            return None;
        }
        let digit = (b - 48) as u64;
        assert(d.subrange(0, i as int).drop_last() =~= d.subrange(0, i - 1));
        if value > (u64::MAX - digit) / 10 {
            proof {
                assert(value * 10 + digit > u64::MAX) by (nonlinear_arith)
                    requires value > (u64::MAX - digit) / 10, digit <= 9;
                if forall|j: int| 0 <= j < d.len() ==> is_digit(#[trigger] d[j]) {
                    lemma_digits_value_grows(d, i as int);
                }
            }
            return None;
        }
        assert(value * 10 + digit <= u64::MAX) by (nonlinear_arith)
            requires value <= (u64::MAX - digit) / 10, digit <= 9;
        value = value * 10 + digit;
        i = i + 1;
    }
    assert(d.subrange(0, d.len() as int) =~= d);
    Some(Register::Locator(value))
}

/// Reads the literal type that a word names.
pub fn parse_type(w: &[u8]) -> (r: Option<LiteralType>)
    ensures
        r == type_of_word(w@),
{
    let types = [
        LiteralType::Address,
        LiteralType::Boolean,
        LiteralType::Field,
        LiteralType::Group,
        LiteralType::I8,
        LiteralType::I16,
        LiteralType::I32,
        LiteralType::I64,
        LiteralType::I128,
        LiteralType::U8,
        LiteralType::U16,
        LiteralType::U32,
        LiteralType::U64,
        LiteralType::U128,
        LiteralType::Scalar,
        LiteralType::String,
    ];
    let mut k: usize = 0;
    while k < 16
        invariant
            k <= 16,
            types@.len() == 16,
            forall|j: int| 0 <= j < k ==> keyword_of(#[trigger] types@[j]) != w@,
            forall|t: LiteralType| #[trigger] types@[type_index(t) as int] == t,
        decreases 16 - k,
    {
        let t = types[k];
        let name = t.name_bytes();
        if bytes_equal(name.as_slice(), w) {
            proof {
                let c = choose|c: LiteralType| keyword_of(c) == w@;
                lemma_keyword_injective(c, t);
            }
            return Some(t);
        }
        k = k + 1;
    }
    assert forall|t: LiteralType| keyword_of(t) != w@ by {
        assert(types@[type_index(t) as int] == t);
    }
    None
}

/// The keyword `into`.
pub open spec fn into_word() -> Seq<u8> {
    seq![105u8, 110, 116, 111]
}

/// The keyword `as`.
pub open spec fn as_word() -> Seq<u8> {
    seq![97u8, 115]
}

/// Words joined by single spaces.
pub open spec fn join_words(ws: Seq<Seq<u8>>) -> Seq<u8>
    decreases ws.len(),
{
    if ws.len() == 0 {
        Seq::empty()
    } else if ws.len() == 1 {
        ws[0]
    } else {
        ws[0] + seq![32u8] + join_words(ws.drop_first())
    }
}

/// A word: at least one byte, none of them whitespace.
pub open spec fn is_plain_word(w: Seq<u8>) -> bool {
    w.len() > 0 && forall|i: int| 0 <= i < w.len() ==> !is_ws(#[trigger] w[i])
}

/// The words of the constants that the library does not spell itself
/// (field, group, address, scalar and string constants), and how to read
/// them back. A caller supplies them, as it supplies the hash primitives.
pub trait ConstantText {
    /// The word of such a constant.
    spec fn spec_word(&self, m: LiteralModel) -> Seq<u8>;

    /// The constant that a word spells, if any.
    spec fn spec_read(&self, w: Seq<u8>) -> Option<LiteralModel>;

    /// Spells a constant.
    fn word(&self, l: &Literal) -> (r: Vec<u8>)
        ensures
            r@ == self.spec_word(l.model()),
    ;

    /// Reads a constant from a word.
    fn read(&self, w: &[u8]) -> (r: Option<Literal>)
        ensures
            r is Some <==> self.spec_read(w@) is Some,
            r is Some ==> r->Some_0.model() == self.spec_read(w@)->Some_0,
    ;
}

/// Whether the library spells an operand itself: a register, or a boolean
/// or integer constant.
pub open spec fn has_word(op: Operand) -> bool {
    op is Register || literal_word(op->Literal_0) is Some
}

/// A word that instruction text can hold: plain and ASCII.
pub open spec fn is_text_word(w: Seq<u8>) -> bool {
    is_plain_word(w) && is_ascii_bytes(w)
}

/// The word of an operand in text.
pub open spec fn operand_word<T: ConstantText>(forms: &T, op: Operand) -> Seq<u8> {
    match op {
        Operand::Register(r) => register_word(r),
        Operand::Literal(l) => if literal_word(l) is Some {
            literal_word(l)->Some_0
        } else {
            forms.spec_word(l.model())
        },
    }
}

/// The operand that a word names: a register, else a boolean or integer
/// constant, else a constant that `forms` reads.
pub open spec fn operand_of_word<T: ConstantText>(forms: &T, w: Seq<u8>) -> Option<OperandModel> {
    if register_of_word(w) is Some {
        Some(OperandModel::Register(register_of_word(w)->Some_0))
    } else if literal_parse(w) is Some {
        Some(OperandModel::Literal(literal_parse(w)->Some_0.model()))
    } else if forms.spec_read(w) is Some {
        Some(OperandModel::Literal(forms.spec_read(w)->Some_0))
    } else {
        None
    }
}

/// The words of an instruction's text.
pub open spec fn instruction_words<T: ConstantText>(forms: &T, opcode: Seq<u8>, operands: Seq<Operand>, destination: Register, t: LiteralType) -> Seq<Seq<u8>> {
    seq![opcode] + Seq::new(operands.len(), |i: int| operand_word(forms, operands[i])) + seq![
        into_word(),
        register_word(destination),
        as_word(),
        keyword_of(t),
    ]
}

/// The text of an instruction: `<opcode> <operands> into <destination> as
/// <type>`, words separated by single spaces. There is none for a variant of
/// 12 or more, for an operand count the variant does not take, or where
/// `forms` spells a constant with a word that is empty or holds whitespace
/// or non-ASCII bytes.
pub open spec fn render_spec<T: ConstantText>(forms: &T, variant: u8, operands: Seq<Operand>, destination: Register, t: LiteralType) -> Option<Seq<u8>> {
    if opcode_spec(variant) is None || operands.len() != expected_operands_spec(variant)
        || exists|i: int| 0 <= i < operands.len() && !is_text_word(#[trigger] operand_word(forms, operands[i])) {
        None
    } else {
        Some(join_words(instruction_words(forms, opcode_spec(variant)->Some_0, operands, destination, t)))
    }
}

/// What the text `s` holds as an instruction of `variant`: its operands, its
/// destination and its destination type. The text must be the opcode, the
/// operands, `into`, the destination register, `as` and a type
/// other than boolean or string, separated by whitespace, with no whitespace
/// before or after.
pub open spec fn parse_spec<T: ConstantText>(forms: &T, variant: u8, s: Seq<u8>) -> Option<(Seq<OperandModel>, Register, LiteralType)> {
    let w = words(s);
    let n = expected_operands_spec(variant) as int;
    if opcode_spec(variant) is Some && s.len() > 0 && !is_ws(s[0]) && !is_ws(s.last()) && w.len() == n + 5
        && w[0] == opcode_spec(variant)->Some_0
        && (forall|i: int| 0 <= i < n ==> (#[trigger] operand_of_word(forms, w[1 + i])) is Some)
        && w[n + 1] == into_word() && register_of_word(w[n + 2]) is Some && w[n + 3] == as_word()
        && type_of_word(w[n + 4]) is Some && valid_destination_spec(type_of_word(w[n + 4])->Some_0) {
        Some((
            Seq::new(n as nat, |i: int| operand_of_word(forms, w[1 + i])->Some_0),
            register_of_word(w[n + 2])->Some_0,
            type_of_word(w[n + 4])->Some_0,
        ))
    } else {
        None
    }
}

/// The words the library spells itself are text words.
proof fn lemma_library_word<T: ConstantText>(forms: &T, op: Operand)
    requires
        has_word(op),
    ensures
        is_text_word(operand_word(forms, op)),
{
    let w = operand_word(forms, op);
    if op is Register {
        let r = op->Register_0;
        lemma_register_word(r);
        let Register::Locator(m) = r;
        lemma_decimal(m as nat);
        assert(w.drop_first() == decimal(m as nat));
        assert(forall|i: int| 1 <= i < w.len() ==> #[trigger] w[i] == w.drop_first()[i - 1]);
    } else {
        lemma_literal_word(op->Literal_0);
    }
}

/// A constant that `forms` spells reads back, as a word of its own: one
/// that no register or boolean or integer constant claims.
pub open spec fn forms_read_back<T: ConstantText>(forms: &T, l: Literal) -> bool {
    let w = forms.spec_word(l.model());
    is_text_word(w) && register_of_word(w) is None && literal_parse(w) is None
        && forms.spec_read(w) == Some(l.model())
}

/// Appending a word to a nonempty list appends a space and the word to its
/// text.
proof fn lemma_join_push(ws: Seq<Seq<u8>>, x: Seq<u8>)
    requires
        ws.len() > 0,
    ensures
        join_words(ws.push(x)) == join_words(ws) + seq![32u8] + x,
    decreases ws.len(),
{
    assert(ws.push(x)[0] == ws[0]);
    if ws.len() == 1 {
        assert(ws.push(x).drop_first() =~= seq![x]);
        assert(join_words(seq![x]) == x);
        assert(join_words(ws) == ws[0]);
    } else {
        assert(ws.push(x).drop_first() =~= ws.drop_first().push(x));
        lemma_join_push(ws.drop_first(), x);
        assert(join_words(ws.push(x)) =~= join_words(ws) + seq![32u8] + x);
    }
}

/// Scanning a run of bytes that are not whitespace extends the open word.
proof fn lemma_scan_word(s: Seq<u8>, i: int, j: int, acc: Seq<Seq<u8>>, cur: Seq<u8>)
    requires
        0 <= i <= j <= s.len(),
        forall|k: int| i <= k < j ==> !is_ws(#[trigger] s[k]),
    ensures
        split_from(s, i, acc, cur) == split_from(s, j, acc, cur + s.subrange(i, j)),
    decreases j - i,
{
    if i < j {
        lemma_scan_word(s, i + 1, j, acc, cur.push(s[i]));
        assert(cur.push(s[i]) + s.subrange(i + 1, j) =~= cur + s.subrange(i, j));
    } else {
        assert(cur + s.subrange(i, j) =~= cur);
    }
}

/// Where the text of words `ws` stands in `s` at `i`, followed by whitespace
/// or the end, splitting goes over it word by word.
proof fn lemma_split_join(s: Seq<u8>, i: int, ws: Seq<Seq<u8>>, acc: Seq<Seq<u8>>)
    requires
        ws.len() > 0,
        forall|k: int| 0 <= k < ws.len() ==> is_plain_word(#[trigger] ws[k]),
        0 <= i,
        i + join_words(ws).len() <= s.len(),
        s.subrange(i, i + join_words(ws).len()) == join_words(ws),
    ensures
        split_from(s, i, acc, Seq::empty()) == split_from(s, i + join_words(ws).len(), acc + ws.drop_last(), ws.last()),
    decreases ws.len(),
{
    let w0 = ws[0];
    assert(is_plain_word(w0));
    let e = i + w0.len();
    if ws.len() == 1 {
        assert(join_words(ws) == w0);
        assert forall|k: int| i <= k < e implies !is_ws(#[trigger] s[k]) by {
            assert(s[k] == s.subrange(i, i + join_words(ws).len())[k - i]);
        }
        lemma_scan_word(s, i, e, acc, Seq::empty());
        assert(Seq::<u8>::empty() + s.subrange(i, e) =~= w0);
        assert(acc + ws.drop_last() =~= acc);
    } else {
        let rest = ws.drop_first();
        let j = join_words(ws);
        assert(j == w0 + seq![32u8] + join_words(rest));
        assert forall|k: int| i <= k < e implies !is_ws(#[trigger] s[k]) by {
            assert(s[k] == s.subrange(i, i + j.len())[k - i]);
            assert(j[k - i] == w0[k - i]);
        }
        lemma_scan_word(s, i, e, acc, Seq::empty());
        assert(Seq::<u8>::empty() + s.subrange(i, e) =~= w0);
        assert(s[e] == s.subrange(i, i + j.len())[e - i]);
        assert(s[e] == 32);
        assert forall|k: int| 0 <= k < rest.len() implies is_plain_word(#[trigger] rest[k]) by {
            assert(rest[k] == ws[k + 1]);
        }
        assert(s.subrange(e + 1, e + 1 + join_words(rest).len()) =~= join_words(rest)) by {
            assert forall|k: int| 0 <= k < join_words(rest).len() implies s.subrange(
                e + 1,
                e + 1 + join_words(rest).len(),
            )[k] == join_words(rest)[k] by {
                assert(s[e + 1 + k] == s.subrange(i, i + j.len())[e + 1 + k - i]);
            }
        }
        lemma_split_join(s, e + 1, rest, acc.push(w0));
        assert(acc.push(w0) + rest.drop_last() =~= acc + ws.drop_last());
        assert(rest.last() == ws.last());
    }
}

/// The words of a text of plain words joined by spaces are those words.
pub proof fn lemma_words_of_join(ws: Seq<Seq<u8>>)
    requires
        ws.len() > 0,
        forall|k: int| 0 <= k < ws.len() ==> is_plain_word(#[trigger] ws[k]),
    ensures
        words(join_words(ws)) == ws,
        join_words(ws)[0] == ws[0][0],
        join_words(ws).last() == ws.last().last(),
    decreases ws.len(),
{
    let s = join_words(ws);
    assert(s.subrange(0, s.len() as int) =~= s);
    lemma_split_join(s, 0, ws, Seq::empty());
    assert(Seq::<Seq<u8>>::empty() + ws.drop_last() =~= ws.drop_last());
    assert(ws.last().len() > 0);
    assert(ws.drop_last().push(ws.last()) =~= ws);
    if ws.len() > 1 {
        lemma_words_of_join(ws.drop_first());
        assert(ws.drop_first()[0] == ws[1]);
        assert(ws.drop_first().last() == ws.last());
        assert(ws[0].len() > 0);
    }
}

/// Register words are plain words, and read back as the register.
pub proof fn lemma_register_word(r: Register)
    ensures
        is_plain_word(register_word(r)),
        register_of_word(register_word(r)) == Some(r),
{
    let Register::Locator(n) = r;
    lemma_decimal(n as nat);
    let w = register_word(r);
    assert(w.drop_first() =~= decimal(n as nat));
    assert forall|i: int| 0 <= i < w.len() implies !is_ws(#[trigger] w[i]) by {
        if i > 0 {
            assert(w[i] == decimal(n as nat)[i - 1]);
        }
    }
}

/// Type keywords are plain words, and read back as the type.
pub proof fn lemma_keyword(t: LiteralType)
    ensures
        is_plain_word(keyword_of(t)),
        type_of_word(keyword_of(t)) == Some(t),
{
    let w = keyword_of(t);
    assert(forall|i: int| 0 <= i < w.len() ==> 48 <= #[trigger] w[i] <= 122);
    let c = choose|c: LiteralType| keyword_of(c) == w;
    lemma_keyword_injective(c, t);
}

/// The opcode keyword of each variant is a plain word.
pub proof fn lemma_opcode_word(variant: u8)
    requires
        variant < 12,
    ensures
        opcode_spec(variant) is Some,
        is_plain_word(opcode_spec(variant)->Some_0),
{
    let w = opcode_spec(variant)->Some_0;
    assert(forall|i: int| 0 <= i < w.len() ==> 46 <= #[trigger] w[i] <= 122);
}

/// Printing an instruction and parsing its text back gives the same
/// operands, destination and destination type: for every variant that names
/// a hash function, every list of operands of the length the variant takes,
/// every destination and every destination type other than boolean or
/// string, where the caller's `forms` read back each constant they spell.
pub proof fn lemma_text_round_trip<T: ConstantText>(forms: &T, variant: u8, operands: Seq<Operand>, destination: Register, t: LiteralType)
    requires
        variant < 12,
        operands.len() == expected_operands_spec(variant),
        forall|i: int| 0 <= i < operands.len() && !has_word(#[trigger] operands[i])
            ==> forms_read_back(forms, operands[i]->Literal_0),
        valid_destination_spec(t),
    ensures
        render_spec(forms, variant, operands, destination, t) is Some,
        parse_spec(forms, variant, render_spec(forms, variant, operands, destination, t)->Some_0) == Some(
            (operands_model(operands), destination, t),
        ),
{
    lemma_opcode_word(variant);
    let opcode = opcode_spec(variant)->Some_0;
    let n = operands.len() as int;
    let ws = instruction_words(forms, opcode, operands, destination, t);
    assert forall|i: int| 0 <= i < n implies is_text_word(#[trigger] operand_word(forms, operands[i])) by {
        if has_word(operands[i]) {
            lemma_library_word(forms, operands[i]);
        } else {
            assert(forms_read_back(forms, operands[i]->Literal_0));
        }
    }
    assert forall|k: int| 0 <= k < ws.len() implies is_plain_word(#[trigger] ws[k]) by {
        if k == 0 {
        } else if k <= n {
            assert(ws[k] == operand_word(forms, operands[k - 1]));
            assert(is_text_word(operand_word(forms, operands[k - 1])));
        } else if k == n + 1 {
            assert(ws[k] == into_word());
            assert(forall|i: int| 0 <= i < into_word().len() ==> 105 <= #[trigger] into_word()[i] <= 116);
        } else if k == n + 2 {
            assert(ws[k] == register_word(destination));
            lemma_register_word(destination);
        } else if k == n + 3 {
            assert(ws[k] == as_word());
            assert(forall|i: int| 0 <= i < as_word().len() ==> 97 <= #[trigger] as_word()[i] <= 115);
        } else {
            assert(ws[k] == keyword_of(t));
            lemma_keyword(t);
        }
    }
    assert(!exists|i: int| 0 <= i < n && !is_text_word(#[trigger] operand_word(forms, operands[i])));
    let s = join_words(ws);
    assert(render_spec(forms, variant, operands, destination, t) == Some(s));
    lemma_words_of_join(ws);
    let w = words(s);
    assert(is_plain_word(ws[0]));
    assert(is_plain_word(ws.last()));
    assert(w[0] == opcode);
    assert forall|i: int| 0 <= i < n implies (#[trigger] operand_of_word(forms, w[1 + i])) == Some(operands[i].model()) by {
        assert(w[1 + i] == operand_word(forms, operands[i]));
        if operands[i] is Register {
            lemma_register_word(operands[i]->Register_0);
        } else if has_word(operands[i]) {
            lemma_literal_word(operands[i]->Literal_0);
            assert(!(register_of_word(w[1 + i]) is Some));
        } else {
            assert(forms_read_back(forms, operands[i]->Literal_0));
        }
    }
    assert(w[n + 1] == into_word());
    assert(w[n + 2] == register_word(destination));
    lemma_register_word(destination);
    assert(w[n + 3] == as_word());
    assert(w[n + 4] == keyword_of(t));
    lemma_keyword(t);
    let parsed = Seq::new(n as nat, |i: int| operand_of_word(forms, w[1 + i])->Some_0);
    assert(parsed =~= operands_model(operands));
}

/// Bytes below 128, each the code of one ASCII character.
pub open spec fn is_ascii_bytes(b: Seq<u8>) -> bool {
    forall|i: int| 0 <= i < b.len() ==> #[trigger] b[i] < 128
}

/// The characters whose codes are the ASCII bytes `b`.
pub open spec fn ascii_chars(b: Seq<u8>) -> Seq<char> {
    b.map_values(|x: u8| x as char)
}

/// Relies on `String::from_utf8`: ASCII bytes are valid UTF-8, and each
/// decodes to the character of the same code.
#[verifier::external_body]
fn ascii_string(bytes: Vec<u8>) -> (r: String)
    requires
        is_ascii_bytes(bytes@),
    ensures
        r@ == ascii_chars(bytes@),
{
    match String::from_utf8(bytes) {
        Ok(s) => s,
        Err(_) => String::new(),
    }
}

/// Text made of ASCII words is ASCII.
proof fn lemma_join_ascii(ws: Seq<Seq<u8>>)
    requires
        forall|k: int| 0 <= k < ws.len() ==> is_ascii_bytes(#[trigger] ws[k]),
    ensures
        is_ascii_bytes(join_words(ws)),
    decreases ws.len(),
{
    if ws.len() > 1 {
        let rest = ws.drop_first();
        assert forall|k: int| 0 <= k < rest.len() implies is_ascii_bytes(#[trigger] rest[k]) by {
            assert(rest[k] == ws[k + 1]);
        }
        lemma_join_ascii(rest);
        let j = join_words(ws);
        assert(is_ascii_bytes(ws[0]));
        assert forall|i: int| 0 <= i < j.len() implies #[trigger] j[i] < 128 by {
            if i >= ws[0].len() + 1 {
                assert(j[i] == join_words(rest)[i - ws[0].len() - 1]);
            }
        }
    } else if ws.len() == 1 {
        assert(is_ascii_bytes(ws[0]));
    }
}

/// The text of an instruction is ASCII.
pub proof fn lemma_render_ascii<T: ConstantText>(forms: &T, variant: u8, operands: Seq<Operand>, destination: Register, t: LiteralType)
    requires
        render_spec(forms, variant, operands, destination, t) is Some,
    ensures
        is_ascii_bytes(render_spec(forms, variant, operands, destination, t)->Some_0),
{
    let opcode = opcode_spec(variant)->Some_0;
    let n = operands.len() as int;
    let ws = instruction_words(forms, opcode, operands, destination, t);
    assert(forall|i: int| 0 <= i < operands.len() ==> is_text_word(#[trigger] operand_word(forms, operands[i])));
    assert forall|k: int| 0 <= k < ws.len() implies is_ascii_bytes(#[trigger] ws[k]) by {
        if k == 0 {
            assert(forall|i: int| 0 <= i < opcode.len() ==> #[trigger] opcode[i] < 128);
        } else if k <= n {
            assert(ws[k] == operand_word(forms, operands[k - 1]));
            assert(is_text_word(operand_word(forms, operands[k - 1])));
        } else if k == n + 1 {
            assert(forall|i: int| 0 <= i < into_word().len() ==> #[trigger] into_word()[i] < 128);
        } else if k == n + 2 {
            let Register::Locator(m) = destination;
            lemma_decimal(m as nat);
            assert(ws[k].drop_first() == decimal(m as nat));
            assert(forall|i: int| 1 <= i < ws[k].len() ==> #[trigger] ws[k][i] == ws[k].drop_first()[i - 1]);
        } else if k == n + 3 {
            assert(forall|i: int| 0 <= i < as_word().len() ==> #[trigger] as_word()[i] < 128);
        } else {
            assert(forall|i: int| 0 <= i < keyword_of(t).len() ==> #[trigger] keyword_of(t)[i] < 128);
        }
    }
    lemma_join_ascii(ws);
}

/// Appends the decimal digits of `n`.
pub(crate) fn push_decimal(n: u128, out: &mut Vec<u8>)
    ensures
        final(out)@ == old(out)@ + decimal(n as nat),
    decreases n,
{
    if n >= 10 {
        push_decimal(n / 10, out);
    }
    let digit = (48 + n % 10) as u8;
    out.push(digit);
    assert(final(out)@ =~= old(out)@ + decimal(n as nat));
}

/// The word that names a register.
fn register_bytes(r: Register) -> (b: Vec<u8>)
    ensures
        b@ == register_word(r),
{
    let Register::Locator(n) = r;
    let mut b: Vec<u8> = vec![114u8];
    push_decimal(n as u128, &mut b);
    b
}

/// Appends a space and the word `w` to the text of the words `ws`.
fn push_word(out: &mut Vec<u8>, w: &[u8], Ghost(ws): Ghost<Seq<Seq<u8>>>)
    requires
        ws.len() > 0,
        old(out)@ == join_words(ws),
    ensures
        final(out)@ == join_words(ws.push(w@)),
{
    proof {
        lemma_join_push(ws, w@);
    }
    out.push(32u8);
    let mut i: usize = 0;
    while i < w.len()
        invariant
            i <= w@.len(),
            out@ == join_words(ws) + seq![32u8] + w@.subrange(0, i as int),
        decreases w@.len() - i,
    {
        out.push(w[i]);
        assert(w@.subrange(0, (i + 1) as int) =~= w@.subrange(0, i as int).push(w@[i as int]));
        i = i + 1;
    }
    assert(w@.subrange(0, w@.len() as int) =~= w@);
    assert(out@ =~= join_words(ws) + seq![32u8] + w@);
}

/// Whether a word can stand in instruction text: nonempty, ASCII, with no
/// whitespace.
fn is_text_word_bytes(w: &[u8]) -> (r: bool)
    ensures
        r == is_text_word(w@),
{
    if w.len() == 0 {
        return false;
    }
    let mut i: usize = 0;
    while i < w.len()
        invariant
            i <= w@.len(),
            forall|k: int| 0 <= k < i ==> !is_ws(#[trigger] w@[k]) && w@[k] < 128,
        decreases w@.len() - i,
    {
        let b = w[i];
        if b >= 128 || b == 32 || b == 9 || b == 10 || b == 13 {
            return false;
        }
        i = i + 1;
    }
    true
}

/// Whether `b` is whitespace.
fn is_ws_byte(b: u8) -> (r: bool)
    ensures
        r == is_ws(b),
{
    b == 32 || b == 9 || b == 10 || b == 13
}

impl<const VARIANT: u8> HashInstruction<VARIANT> {
    /// Returns the opcode keyword, or `InvalidVariant` for a variant of 12 or
    /// more.
    pub fn opcode() -> (r: Result<String, HashError>)
        ensures
            opcode_spec(VARIANT) is Some <==> r is Ok,
            r is Ok ==> r->Ok_0@ == ascii_chars(opcode_spec(VARIANT)->Some_0),
            r is Err ==> r == Err::<String, HashError>(HashError::InvalidVariant),
    {
        match opcode_bytes(VARIANT) {
            None => Err(HashError::InvalidVariant),
            Some(b) => {
                assert(forall|i: int| 0 <= i < b@.len() ==> #[trigger] b@[i] < 128);
                Ok(ascii_string(b))
            },
        }
    }

    /// The text of the instruction, as ASCII bytes. Fails with
    /// `InvalidVariant`, `OperandCount` or `InlineConstant` where there is
    /// no text (see `render_spec`).
    pub fn to_text_bytes<T: ConstantText>(&self, forms: &T) -> (r: Result<Vec<u8>, HashError>)
        ensures
            render_spec(forms, VARIANT, self.operands@, self.destination, self.destination_type) is Some <==> r is Ok,
            r is Ok ==> r->Ok_0@ == render_spec(forms, VARIANT, self.operands@, self.destination, self.destination_type)->Some_0,
    {
        let opcode = match opcode_bytes(VARIANT) {
            None => return Err(HashError::InvalidVariant),
            Some(o) => o,
        };
        let n = expected_num_operands(VARIANT);
        if self.operands.len() != n {
            return Err(HashError::OperandCount);
        }
        let mut out = opcode;
        let ghost mut ws: Seq<Seq<u8>> = seq![opcode_spec(VARIANT)->Some_0];
        assert(join_words(ws) == out@);
        let mut i: usize = 0;
        while i < n
            invariant
                i <= n,
                n == self.operands@.len(),
                opcode_spec(VARIANT) is Some,
                ws.len() == i + 1,
                ws == seq![opcode_spec(VARIANT)->Some_0] + Seq::new(i as nat, |k: int| operand_word(forms, self.operands@[k])),
                forall|k: int| 0 <= k < i ==> is_text_word(#[trigger] operand_word(forms, self.operands@[k])),
                out@ == join_words(ws),
            decreases n - i,
        {
            let b = match &self.operands[i] {
                Operand::Literal(l) => match literal_bytes(l) {
                    None => {
                        let b = forms.word(l);
                        if !is_text_word_bytes(b.as_slice()) {
                            assert(operand_word(forms, self.operands@[i as int]) == b@);
                            assert(!is_text_word(operand_word(forms, self.operands@[i as int])));
                            return Err(HashError::InlineConstant);
                        }
                        b
                    },
                    Some(b) => b,
                },
                Operand::Register(r) => register_bytes(*r),
            };
            proof {
                if has_word(self.operands@[i as int]) {
                    lemma_library_word(forms, self.operands@[i as int]);
                }
            }
            push_word(&mut out, b.as_slice(), Ghost(ws));
            proof {
                ws = ws.push(b@);
            }
            assert(ws =~= seq![opcode_spec(VARIANT)->Some_0] + Seq::new((i + 1) as nat, |k: int| operand_word(forms, self.operands@[k])));
            i = i + 1;
        }
        let into = vec![105u8, 110, 116, 111];
        push_word(&mut out, into.as_slice(), Ghost(ws));
        proof { ws = ws.push(into_word()); }
        let d = register_bytes(self.destination);
        push_word(&mut out, d.as_slice(), Ghost(ws));
        proof { ws = ws.push(d@); }
        let a = vec![97u8, 115];
        push_word(&mut out, a.as_slice(), Ghost(ws));
        proof { ws = ws.push(as_word()); }
        let k = self.destination_type.name_bytes();
        push_word(&mut out, k.as_slice(), Ghost(ws));
        proof { ws = ws.push(k@); }
        assert(ws =~= instruction_words(forms, opcode_spec(VARIANT)->Some_0, self.operands@, self.destination, self.destination_type));
        assert(!exists|j: int| 0 <= j < self.operands@.len() && !is_text_word(#[trigger] operand_word(forms, self.operands@[j])));
        Ok(out)
    }

    /// The text of the instruction: `<opcode> <operands> into <destination>
    /// as <type>`.
    pub fn to_text<T: ConstantText>(&self, forms: &T) -> (r: Result<String, HashError>)
        ensures
            render_spec(forms, VARIANT, self.operands@, self.destination, self.destination_type) is Some <==> r is Ok,
            r is Ok ==> r->Ok_0@ == ascii_chars(render_spec(forms, VARIANT, self.operands@, self.destination, self.destination_type)->Some_0),
    {
        let b = self.to_text_bytes(forms)?;
        proof {
            lemma_render_ascii(forms, VARIANT, self.operands@, self.destination, self.destination_type);
        }
        Ok(ascii_string(b))
    }

    /// Parses an instruction from text; fails with `Parse` on any text that
    /// is not the whole of one instruction of this variant (see `parse_spec`).
    pub fn parse<T: ConstantText>(text: &str, forms: &T) -> (r: Result<Self, HashError>)
        ensures
            parse_spec(forms, VARIANT, text.spec_bytes()) is Some <==> r is Ok,
            r is Err ==> r == Err::<Self, HashError>(HashError::Parse),
            r is Ok ==> (operands_model(r->Ok_0.operands@), r->Ok_0.destination, r->Ok_0.destination_type)
                == parse_spec(forms, VARIANT, text.spec_bytes())->Some_0,
    {
        let s = text.as_bytes();
        let opcode = match opcode_bytes(VARIANT) {
            None => return Err(HashError::Parse),
            Some(o) => o,
        };
        let n = expected_num_operands(VARIANT);
        if s.len() == 0 || is_ws_byte(s[0]) || is_ws_byte(s[s.len() - 1]) {
            return Err(HashError::Parse);
        }
        let w = split_words(s);
        let ghost ww = w@.map_values(|v: Vec<u8>| v@);
        assert(ww == words(s@));
        if w.len() != n + 5 {
            return Err(HashError::Parse);
        }
        assert(w[0]@ == ww[0]);
        if !bytes_equal(w[0].as_slice(), opcode.as_slice()) {
            return Err(HashError::Parse);
        }
        let mut operands: Vec<Operand> = Vec::new();
        let mut i: usize = 0;
        while i < n
            invariant
                i <= n,
                n == expected_operands_spec(VARIANT),
                n <= 2,
                w@.len() == n + 5,
                ww == w@.map_values(|v: Vec<u8>| v@),
                ww == words(text.spec_bytes()),
                forall|k: int| 0 <= k < i ==> (#[trigger] operand_of_word(forms, ww[1 + k])) is Some,
                operands_model(operands@) == Seq::new(i as nat, |k: int| operand_of_word(forms, ww[1 + k])->Some_0),
            decreases n - i,
        {
            assert(w[1 + i]@ == ww[1 + i]);
            let op = match parse_register(w[1 + i].as_slice()) {
                Some(r) => Operand::Register(r),
                None => match parse_literal(w[1 + i].as_slice()) {
                    Some(l) => Operand::Literal(l),
                    None => match forms.read(w[1 + i].as_slice()) {
                        Some(l) => Operand::Literal(l),
                        None => {
                            assert(!(operand_of_word(forms, ww[1 + i as int]) is Some));
                            return Err(HashError::Parse);
                        },
                    },
                },
            };
            let ghost before = operands@;
            operands.push(op);
            assert(operands_model(operands@) =~= operands_model(before).push(op.model()));
            assert(operands_model(operands@) =~= Seq::new((i + 1) as nat, |k: int| operand_of_word(forms, ww[1 + k])->Some_0));
            i = i + 1;
        }
        let into = vec![105u8, 110, 116, 111];
        assert(w[n + 1]@ == ww[n + 1]);
        if !bytes_equal(w[n + 1].as_slice(), into.as_slice()) {
            return Err(HashError::Parse);
        }
        assert(w[n + 2]@ == ww[n + 2]);
        let destination = match parse_register(w[n + 2].as_slice()) {
            None => return Err(HashError::Parse),
            Some(r) => r,
        };
        let a = vec![97u8, 115];
        assert(w[n + 3]@ == ww[n + 3]);
        if !bytes_equal(w[n + 3].as_slice(), a.as_slice()) {
            return Err(HashError::Parse);
        }
        assert(w[n + 4]@ == ww[n + 4]);
        let destination_type = match parse_type(w[n + 4].as_slice()) {
            None => return Err(HashError::Parse),
            Some(t) => t,
        };
        if !is_valid_destination_type(destination_type) {
            return Err(HashError::Parse);
        }
        Ok(HashInstruction { operands, destination, destination_type })
    }

    /// Parses an instruction from text: the same as `parse`.
    pub fn from_str<T: ConstantText>(text: &str, forms: &T) -> (r: Result<Self, HashError>)
        ensures
            parse_spec(forms, VARIANT, text.spec_bytes()) is Some <==> r is Ok,
            r is Err ==> r == Err::<Self, HashError>(HashError::Parse),
            r is Ok ==> (operands_model(r->Ok_0.operands@), r->Ok_0.destination, r->Ok_0.destination_type)
                == parse_spec(forms, VARIANT, text.spec_bytes())->Some_0,
    {
        Self::parse(text, forms)
    }
}

} // verus!
