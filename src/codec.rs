use vstd::prelude::*;

use crate::instruction::{expected_num_operands, expected_operands_spec, HashInstruction};
use crate::types::{
    operands_model, type_index, type_of_index, HashError, Literal, LiteralModel, LiteralType, Operand,
    OperandModel, Register,
};

verus! {

/// The eight little-endian bytes of `x`.
pub open spec fn u64_le(x: u64) -> Seq<u8> {
    Seq::new(8, |i: int| ((x >> (8 * i) as u64) & 0xff) as u8)
}

/// The number whose little-endian bytes are the first eight of `s`.
pub open spec fn u64_from_le(s: Seq<u8>) -> u64 {
    (s[0] as u64) | ((s[1] as u64) << 8u64) | ((s[2] as u64) << 16u64) | ((s[3] as u64) << 24u64)
        | ((s[4] as u64) << 32u64) | ((s[5] as u64) << 40u64) | ((s[6] as u64) << 48u64)
        | ((s[7] as u64) << 56u64)
}

/// Reading back the bytes of a number gives the number.
pub proof fn lemma_u64_le(x: u64)
    ensures
        u64_from_le(u64_le(x)) == x,
{
    let s = u64_le(x);
    assert((x >> 0u64) == x) by (bit_vector);
    assert(s[0] == (x & 0xff) as u8);
    assert(s[1] == ((x >> 8u64) & 0xff) as u8);
    assert(s[2] == ((x >> 16u64) & 0xff) as u8);
    assert(s[3] == ((x >> 24u64) & 0xff) as u8);
    assert(s[4] == ((x >> 32u64) & 0xff) as u8);
    assert(s[5] == ((x >> 40u64) & 0xff) as u8);
    assert(s[6] == ((x >> 48u64) & 0xff) as u8);
    assert(s[7] == ((x >> 56u64) & 0xff) as u8);
    assert((((x & 0xff) as u8) as u64) | ((((x >> 8u64) & 0xff) as u8 as u64) << 8u64)
        | ((((x >> 16u64) & 0xff) as u8 as u64) << 16u64) | ((((x >> 24u64) & 0xff) as u8 as u64) << 24u64)
        | ((((x >> 32u64) & 0xff) as u8 as u64) << 32u64) | ((((x >> 40u64) & 0xff) as u8 as u64) << 40u64)
        | ((((x >> 48u64) & 0xff) as u8 as u64) << 48u64) | ((((x >> 56u64) & 0xff) as u8 as u64) << 56u64)
        == x) by (bit_vector);
}

/// `256` to the power `n`.
pub open spec fn pow256(n: nat) -> nat
    decreases n,
{
    if n == 0 {
        1
    } else {
        256 * pow256((n - 1) as nat)
    }
}

/// The `n` little-endian bytes of `x`.
pub open spec fn le_bytes(x: nat, n: nat) -> Seq<u8>
    decreases n,
{
    if n == 0 {
        Seq::empty()
    } else {
        seq![(x % 256) as u8] + le_bytes(x / 256, (n - 1) as nat)
    }
}

/// The number whose little-endian bytes are `s`.
pub open spec fn le_value(s: Seq<u8>) -> nat
    decreases s.len(),
{
    if s.len() == 0 {
        0
    } else {
        s[0] as nat + 256 * le_value(s.drop_first())
    }
}

/// A number below `256^n` reads back from its `n` bytes.
pub proof fn lemma_le_bytes(x: nat, n: nat)
    requires
        x < pow256(n),
    ensures
        le_bytes(x, n).len() == n,
        le_value(le_bytes(x, n)) == x,
    decreases n,
{
    if n > 0 {
        assert(x / 256 < pow256((n - 1) as nat)) by (nonlinear_arith)
            requires x < 256 * pow256((n - 1) as nat);
        lemma_le_bytes(x / 256, (n - 1) as nat);
        let b = le_bytes(x, n);
        assert(b.drop_first() =~= le_bytes(x / 256, (n - 1) as nat));
        assert(x == (x % 256) + 256 * (x / 256));
    }
}

/// The value of `n` bytes is below `256^n`.
pub proof fn lemma_le_value_bound(s: Seq<u8>)
    ensures
        le_value(s) < pow256(s.len()),
    decreases s.len(),
{
    if s.len() > 0 {
        lemma_le_value_bound(s.drop_first());
        let r = le_value(s.drop_first());
        let p = pow256((s.len() - 1) as nat);
        assert(s[0] as nat + 256 * r < 256 * p) by (nonlinear_arith)
            requires r < p, s[0] < 256;
    }
}

/// The type of a literal value.
pub open spec fn model_type(m: LiteralModel) -> LiteralType {
    match m {
        LiteralModel::Address(_) => LiteralType::Address,
        LiteralModel::Boolean(_) => LiteralType::Boolean,
        LiteralModel::Field(_) => LiteralType::Field,
        LiteralModel::Group(_) => LiteralType::Group,
        LiteralModel::I8(_) => LiteralType::I8,
        LiteralModel::I16(_) => LiteralType::I16,
        LiteralModel::I32(_) => LiteralType::I32,
        LiteralModel::I64(_) => LiteralType::I64,
        LiteralModel::I128(_) => LiteralType::I128,
        LiteralModel::U8(_) => LiteralType::U8,
        LiteralModel::U16(_) => LiteralType::U16,
        LiteralModel::U32(_) => LiteralType::U32,
        LiteralModel::U64(_) => LiteralType::U64,
        LiteralModel::U128(_) => LiteralType::U128,
        LiteralModel::Scalar(_) => LiteralType::Scalar,
        LiteralModel::String(_) => LiteralType::String,
    }
}

/// The payload width in bytes of a fixed-width literal type: one for a
/// boolean, the integer's width for an integer, and zero for the types
/// whose values carry a length (string, field, group, address, scalar).
pub open spec fn payload_width(t: LiteralType) -> nat {
    match t {
        LiteralType::Boolean => 1,
        LiteralType::I8 => 1,
        LiteralType::U8 => 1,
        LiteralType::I16 => 2,
        LiteralType::U16 => 2,
        LiteralType::I32 => 4,
        LiteralType::U32 => 4,
        LiteralType::I64 => 8,
        LiteralType::U64 => 8,
        LiteralType::I128 => 16,
        LiteralType::U128 => 16,
        _ => 0,
    }
}

/// One byte per bit: `1` for set, `0` for clear.
pub open spec fn bit_bytes(b: Seq<bool>) -> Seq<u8> {
    b.map_values(|x: bool| if x { 1u8 } else { 0u8 })
}

/// The payload bytes of a literal value: `0` or `1` for a boolean, the
/// two's-complement little-endian bytes for an integer; for a string its
/// length in eight little-endian bytes, then its bytes; for a field, group,
/// address or scalar element its number of bits in eight bytes, then one
/// byte per bit.
pub open spec fn literal_payload(m: LiteralModel) -> Seq<u8> {
    match m {
        LiteralModel::Boolean(b) => seq![if b { 1u8 } else { 0u8 }],
        LiteralModel::I8(v) => le_bytes(v as u8 as nat, 1),
        LiteralModel::I16(v) => le_bytes(v as u16 as nat, 2),
        LiteralModel::I32(v) => le_bytes(v as u32 as nat, 4),
        LiteralModel::I64(v) => le_bytes(v as u64 as nat, 8),
        LiteralModel::I128(v) => le_bytes(v as u128 as nat, 16),
        LiteralModel::U8(v) => le_bytes(v as nat, 1),
        LiteralModel::U16(v) => le_bytes(v as nat, 2),
        LiteralModel::U32(v) => le_bytes(v as nat, 4),
        LiteralModel::U64(v) => le_bytes(v as nat, 8),
        LiteralModel::U128(v) => le_bytes(v as nat, 16),
        LiteralModel::String(s) => le_bytes(s.len(), 8) + s,
        LiteralModel::Address(b) => le_bytes(b.len(), 8) + bit_bytes(b),
        LiteralModel::Field(b) => le_bytes(b.len(), 8) + bit_bytes(b),
        LiteralModel::Group(b) => le_bytes(b.len(), 8) + bit_bytes(b),
        LiteralModel::Scalar(b) => le_bytes(b.len(), 8) + bit_bytes(b),
    }
}

/// The fixed-width literal of type `t` whose payload bytes are `s`, if they
/// hold one.
pub open spec fn literal_of_payload(t: LiteralType, s: Seq<u8>) -> Option<LiteralModel> {
    let x = le_value(s);
    match t {
        LiteralType::Boolean => if s[0] == 0 {
            Some(LiteralModel::Boolean(false))
        } else if s[0] == 1 {
            Some(LiteralModel::Boolean(true))
        } else {
            None
        },
        LiteralType::I8 => Some(LiteralModel::I8(x as u8 as i8)),
        LiteralType::I16 => Some(LiteralModel::I16(x as u16 as i16)),
        LiteralType::I32 => Some(LiteralModel::I32(x as u32 as i32)),
        LiteralType::I64 => Some(LiteralModel::I64(x as u64 as i64)),
        LiteralType::I128 => Some(LiteralModel::I128(x as u128 as i128)),
        LiteralType::U8 => Some(LiteralModel::U8(x as u8)),
        LiteralType::U16 => Some(LiteralModel::U16(x as u16)),
        LiteralType::U32 => Some(LiteralModel::U32(x as u32)),
        LiteralType::U64 => Some(LiteralModel::U64(x as u64)),
        LiteralType::U128 => Some(LiteralModel::U128(x as u128)),
        _ => None,
    }
}

/// Whether every byte is `0` or `1`.
pub open spec fn all_bits(s: Seq<u8>) -> bool {
    forall|i: int| 0 <= i < s.len() ==> #[trigger] s[i] <= 1
}

/// The length-carrying literal of type `t` whose body bytes are `s`, if
/// they hold one.
pub open spec fn literal_of_body(t: LiteralType, s: Seq<u8>) -> Option<LiteralModel> {
    let b = s.map_values(|x: u8| x == 1);
    match t {
        LiteralType::String => Some(LiteralModel::String(s)),
        LiteralType::Address => if all_bits(s) { Some(LiteralModel::Address(b)) } else { None },
        LiteralType::Field => if all_bits(s) { Some(LiteralModel::Field(b)) } else { None },
        LiteralType::Group => if all_bits(s) { Some(LiteralModel::Group(b)) } else { None },
        LiteralType::Scalar => if all_bits(s) { Some(LiteralModel::Scalar(b)) } else { None },
        _ => None,
    }
}

/// The payload of a fixed-width literal has its type's width and reads
/// back as the literal.
pub proof fn lemma_literal_payload(m: LiteralModel)
    requires
        payload_width(model_type(m)) > 0,
    ensures
        literal_payload(m).len() == payload_width(model_type(m)),
        literal_of_payload(model_type(m), literal_payload(m)) == Some(m),
{
    reveal_with_fuel(pow256, 17);
    assert(pow256(1) == 256);
    assert(pow256(2) == 0x1_0000);
    assert(pow256(4) == 0x1_0000_0000);
    assert(pow256(8) == 0x1_0000_0000_0000_0000);
    assert(pow256(16) == 0x1_0000_0000_0000_0000_0000_0000_0000_0000);
    match m {
        LiteralModel::Boolean(b) => {},
        LiteralModel::I8(v) => {
            lemma_le_bytes(v as u8 as nat, 1);
            assert((v as u8) as i8 == v) by (bit_vector);
        },
        LiteralModel::I16(v) => {
            lemma_le_bytes(v as u16 as nat, 2);
            assert((v as u16) as i16 == v) by (bit_vector);
        },
        LiteralModel::I32(v) => {
            lemma_le_bytes(v as u32 as nat, 4);
            assert((v as u32) as i32 == v) by (bit_vector);
        },
        LiteralModel::I64(v) => {
            lemma_le_bytes(v as u64 as nat, 8);
            assert((v as u64) as i64 == v) by (bit_vector);
        },
        LiteralModel::I128(v) => {
            lemma_le_bytes(v as u128 as nat, 16);
            assert((v as u128) as i128 == v) by (bit_vector);
        },
        LiteralModel::U8(v) => lemma_le_bytes(v as nat, 1),
        LiteralModel::U16(v) => lemma_le_bytes(v as nat, 2),
        LiteralModel::U32(v) => lemma_le_bytes(v as nat, 4),
        LiteralModel::U64(v) => lemma_le_bytes(v as nat, 8),
        LiteralModel::U128(v) => lemma_le_bytes(v as nat, 16),
        _ => {},
    }
}

/// The body of a length-carrying literal reads back as the literal.
proof fn lemma_literal_body(m: LiteralModel)
    requires
        payload_width(model_type(m)) == 0,
    ensures
        literal_of_body(model_type(m), body_of(m)) == Some(m),
{
    match m {
        LiteralModel::Address(b) => {
            assert(bit_bytes(b).map_values(|x: u8| x == 1) =~= b);
        },
        LiteralModel::Field(b) => {
            assert(bit_bytes(b).map_values(|x: u8| x == 1) =~= b);
        },
        LiteralModel::Group(b) => {
            assert(bit_bytes(b).map_values(|x: u8| x == 1) =~= b);
        },
        LiteralModel::Scalar(b) => {
            assert(bit_bytes(b).map_values(|x: u8| x == 1) =~= b);
        },
        _ => {},
    }
}

/// The body bytes of a length-carrying literal, and their number.
pub open spec fn body_of(m: LiteralModel) -> Seq<u8> {
    match m {
        LiteralModel::String(s) => s,
        LiteralModel::Address(b) => bit_bytes(b),
        LiteralModel::Field(b) => bit_bytes(b),
        LiteralModel::Group(b) => bit_bytes(b),
        LiteralModel::Scalar(b) => bit_bytes(b),
        _ => Seq::empty(),
    }
}

/// The bytes of an operand: for a register, the tag 1, the register tag 0
/// (a locator) and the locator's eight little-endian bytes; for a constant,
/// the tag 0, the type's tag and the payload.
pub open spec fn operand_bytes(op: OperandModel) -> Seq<u8> {
    match op {
        OperandModel::Register(r) => seq![1u8, 0u8] + u64_le(r->Locator_0),
        OperandModel::Literal(m) => seq![0u8, type_index(model_type(m))] + literal_payload(m),
    }
}

/// Whether every length in an operand's value fits the eight bytes that
/// carry it (always so for a value held in memory).
pub open spec fn fits(op: OperandModel) -> bool {
    op is Literal && payload_width(model_type(op->Literal_0)) == 0 ==> body_of(op->Literal_0).len() < pow256(8)
}

/// The bytes of a register: the register tag 0 and the locator's bytes.
pub open spec fn register_bytes(r: Register) -> Seq<u8> {
    seq![0u8] + u64_le(r->Locator_0)
}

/// The bytes of the operands, in order.
pub open spec fn operands_bytes(ops: Seq<OperandModel>) -> Seq<u8>
    decreases ops.len(),
{
    if ops.len() == 0 {
        Seq::empty()
    } else {
        operands_bytes(ops.drop_last()) + operand_bytes(ops.last())
    }
}

/// The byte form of an instruction: its operands, then the destination
/// register, then the destination type's tag. This layout is the library's
/// own. There is none for a variant of 12 or more or for an operand count
/// the variant does not take.
pub open spec fn encode_spec(variant: u8, ops: Seq<OperandModel>, destination: Register, t: LiteralType) -> Option<Seq<u8>> {
    if variant >= 12 || ops.len() != expected_operands_spec(variant) {
        None
    } else {
        Some(operands_bytes(ops) + register_bytes(destination) + seq![type_index(t)])
    }
}

/// The operand that the bytes at `at` open with, and where the next item
/// starts.
pub open spec fn operand_decode(b: Seq<u8>, at: int) -> Option<(OperandModel, int)> {
    if 0 <= at && at + 2 <= b.len() {
        if b[at] == 1 && b[at + 1] == 0 && at + 10 <= b.len() {
            Some((OperandModel::Register(Register::Locator(u64_from_le(b.subrange(at + 2, at + 10)))), at + 10))
        } else if b[at] == 0 && type_of_index(b[at + 1]) is Some {
            let t = type_of_index(b[at + 1])->Some_0;
            let w = payload_width(t) as int;
            if w > 0 {
                if at + 2 + w <= b.len() && literal_of_payload(t, b.subrange(at + 2, at + 2 + w)) is Some {
                    Some((OperandModel::Literal(literal_of_payload(t, b.subrange(at + 2, at + 2 + w))->Some_0), at + 2 + w))
                } else {
                    None
                }
            } else if at + 10 <= b.len() {
                let n = le_value(b.subrange(at + 2, at + 10)) as int;
                if at + 10 + n <= b.len() && literal_of_body(t, b.subrange(at + 10, at + 10 + n)) is Some {
                    Some((OperandModel::Literal(literal_of_body(t, b.subrange(at + 10, at + 10 + n))->Some_0), at + 10 + n))
                } else {
                    None
                }
            } else {
                None
            }
        } else {
            None
        }
    } else {
        None
    }
}

/// The first `n` operands that `b` holds, one after another from its start,
/// and where the bytes after them start.
pub open spec fn decode_operands(b: Seq<u8>, n: nat) -> Option<(Seq<OperandModel>, int)>
    decreases n,
{
    if n == 0 {
        Some((Seq::empty(), 0))
    } else {
        match decode_operands(b, (n - 1) as nat) {
            None => None,
            Some((ops, p)) => match operand_decode(b, p) {
                None => None,
                Some((op, q)) => Some((ops.push(op), q)),
            },
        }
    }
}

/// What the bytes `b` hold as an instruction of `variant`, and how many of
/// them it takes: as many operands as the variant takes, a nine-byte
/// register and a type tag.
pub open spec fn decode_spec(variant: u8, b: Seq<u8>) -> Option<(Seq<OperandModel>, Register, LiteralType, nat)> {
    match decode_operands(b, expected_operands_spec(variant)) {
        None => None,
        Some((ops, p)) => if p + 10 <= b.len() && b[p] == 0 && type_of_index(b[p + 9]) is Some {
            Some((
                ops,
                Register::Locator(u64_from_le(b.subrange(p + 1, p + 9))),
                type_of_index(b[p + 9])->Some_0,
                (p + 10) as nat,
            ))
        } else {
            None
        },
    }
}

/// An operand's bytes, wherever they stand, decode to the operand.
proof fn lemma_operand_decode(a: Seq<u8>, op: OperandModel, c: Seq<u8>)
    requires
        fits(op),
    ensures
        operand_decode(a + operand_bytes(op) + c, a.len() as int) == Some((op, (a.len() + operand_bytes(op).len()) as int)),
{
    let x = operand_bytes(op);
    let b = a + x + c;
    let at = a.len() as int;
    assert forall|k: int| 0 <= k < x.len() implies b[at + k] == x[k] by {
        assert(b[at + k] == (a + x)[at + k]);
    }
    match op {
        OperandModel::Register(r) => {
            let Register::Locator(n) = r;
            lemma_u64_le(n);
            assert(b.subrange(at + 2, at + 10) =~= u64_le(n)) by {
                assert forall|k: int| 0 <= k < 8 implies b.subrange(at + 2, at + 10)[k] == u64_le(n)[k] by {
                    assert(b[at + 2 + k] == x[2 + k]);
                }
            }
            assert(b[at] == x[0] && b[at + 1] == x[1]);
        },
        OperandModel::Literal(m) => {
            let t = model_type(m);
            assert(type_of_index(type_index(t)) == Some(t));
            assert(b[at] == x[0] && b[at + 1] == x[1]);
            if payload_width(t) > 0 {
                lemma_literal_payload(m);
                let w = payload_width(t) as int;
                assert(b.subrange(at + 2, at + 2 + w) =~= literal_payload(m)) by {
                    assert forall|k: int| 0 <= k < w implies b.subrange(at + 2, at + 2 + w)[k] == literal_payload(m)[k] by {
                        assert(b[at + 2 + k] == x[2 + k]);
                    }
                }
            } else {
                let body = body_of(m);
                let n = body.len();
                lemma_le_bytes(n, 8);
                assert(literal_payload(m) =~= le_bytes(n, 8) + body);
                assert(b.subrange(at + 2, at + 10) =~= le_bytes(n, 8)) by {
                    assert forall|k: int| 0 <= k < 8 implies b.subrange(at + 2, at + 10)[k] == le_bytes(n, 8)[k] by {
                        assert(b[at + 2 + k] == x[2 + k]);
                    }
                }
                assert(b.subrange(at + 10, at + 10 + n) =~= body) by {
                    assert forall|k: int| 0 <= k < n implies b.subrange(at + 10, at + 10 + n)[k] == body[k] by {
                        assert(b[at + 10 + k] == x[10 + k]);
                    }
                }
                lemma_literal_body(m);
            }
        },
    }
}

/// The bytes of a list of operands decode to the list, whatever follows.
proof fn lemma_decode_operands(ops: Seq<OperandModel>, c: Seq<u8>)
    requires
        forall|i: int| 0 <= i < ops.len() ==> fits(#[trigger] ops[i]),
    ensures
        decode_operands(operands_bytes(ops) + c, ops.len()) == Some((ops, operands_bytes(ops).len() as int)),
    decreases ops.len(),
{
    if ops.len() == 0 {
        assert(ops =~= Seq::<OperandModel>::empty());
    } else {
        let init = ops.drop_last();
        let last = ops.last();
        assert forall|i: int| 0 <= i < init.len() implies fits(#[trigger] init[i]) by {
            assert(init[i] == ops[i]);
        }
        let tail = operand_bytes(last) + c;
        lemma_decode_operands(init, tail);
        assert(operands_bytes(ops) + c =~= operands_bytes(init) + tail);
        assert(fits(ops[ops.len() - 1]));
        lemma_operand_decode(operands_bytes(init), last, c);
        assert(operands_bytes(init) + operand_bytes(last) + c =~= operands_bytes(ops) + c);
        assert(init.push(last) =~= ops);
    }
}

/// Every operand held in memory fits the byte form.
pub proof fn lemma_fits(op: Operand)
    ensures
        fits(op.model()),
{
    reveal_with_fuel(pow256, 9);
    assert(pow256(8) == 0x1_0000_0000_0000_0000);
    if let Operand::Literal(l) = op {
        match l {
            Literal::String(s) => vstd::std_specs::vec::axiom_spec_len(&s),
            Literal::Address(b) => vstd::std_specs::vec::axiom_spec_len(&b),
            Literal::Field(b) => vstd::std_specs::vec::axiom_spec_len(&b),
            Literal::Group(b) => vstd::std_specs::vec::axiom_spec_len(&b),
            Literal::Scalar(b) => vstd::std_specs::vec::axiom_spec_len(&b),
            _ => {},
        }
    }
}

/// Writing an instruction's bytes and reading them back gives the same
/// operands, destination and destination type, and reads every byte
/// written: for every variant that names a hash function, every list of
/// operands of the length the variant takes, every destination and every
/// destination type.
pub proof fn lemma_bytes_round_trip(variant: u8, ops: Seq<Operand>, destination: Register, t: LiteralType)
    requires
        variant < 12,
        ops.len() == expected_operands_spec(variant),
    ensures
        encode_spec(variant, operands_model(ops), destination, t) is Some,
        decode_spec(variant, encode_spec(variant, operands_model(ops), destination, t)->Some_0) == Some(
            (operands_model(ops), destination, t, encode_spec(variant, operands_model(ops), destination, t)->Some_0.len()),
        ),
{
    let m = operands_model(ops);
    assert forall|i: int| 0 <= i < m.len() implies fits(#[trigger] m[i]) by {
        lemma_fits(ops[i]);
    }
    let tail = register_bytes(destination) + seq![type_index(t)];
    lemma_decode_operands(m, tail);
    let b = encode_spec(variant, m, destination, t)->Some_0;
    assert(b =~= operands_bytes(m) + tail);
    let p = operands_bytes(m).len() as int;
    let Register::Locator(x) = destination;
    lemma_u64_le(x);
    assert(b.subrange(p + 1, p + 9) =~= u64_le(x));
    assert(b[p] == 0);
    assert(b[p + 9] == type_index(t));
    assert(type_of_index(type_index(t)) == Some(t));
}

/// Appends the eight little-endian bytes of `x`.
fn push_u64(x: u64, out: &mut Vec<u8>)
    ensures
        final(out)@ == old(out)@ + u64_le(x),
{
    let mut i: u64 = 0;
    while i < 8
        invariant
            i <= 8,
            out@ == old(out)@ + u64_le(x).subrange(0, i as int),
        decreases 8 - i,
    {
        let byte = ((x >> (8 * i)) & 0xff) as u8;
        out.push(byte);
        assert(u64_le(x).subrange(0, (i + 1) as int) =~= u64_le(x).subrange(0, i as int).push(byte));
        i = i + 1;
    }
    assert(u64_le(x).subrange(0, 8) =~= u64_le(x));
}

/// Reads the number whose little-endian bytes start at `at`.
fn read_u64(b: &[u8], at: usize) -> (r: u64)
    requires
        at + 8 <= b@.len(),
    ensures
        r == u64_from_le(b@.subrange(at as int, at + 8)),
{
    (b[at] as u64) | ((b[at + 1] as u64) << 8u64) | ((b[at + 2] as u64) << 16u64) | ((b[at + 3] as u64) << 24u64)
        | ((b[at + 4] as u64) << 32u64) | ((b[at + 5] as u64) << 40u64) | ((b[at + 6] as u64) << 48u64)
        | ((b[at + 7] as u64) << 56u64)
}

/// Once decoding fails at some operand, it fails for every longer list.
proof fn lemma_decode_operands_stops(b: Seq<u8>, k: nat, m: nat)
    requires
        k <= m,
        decode_operands(b, k) is None,
    ensures
        decode_operands(b, m) is None,
    decreases m - k,
{
    if k < m {
        lemma_decode_operands_stops(b, k, (m - 1) as nat);
    }
}

/// `256^k` is at most `256^16` for `k` up to 16.
proof fn lemma_pow256_le(k: nat)
    requires
        k <= 16,
    ensures
        pow256(k) <= pow256(16),
    decreases 16 - k,
{
    if k < 16 {
        lemma_pow256_le(k + 1);
    }
}

/// Appends the `n` little-endian bytes of `x`.
fn push_le(x: u128, n: usize, out: &mut Vec<u8>)
    ensures
        final(out)@ == old(out)@ + le_bytes(x as nat, n as nat),
    decreases n,
{
    if n > 0 {
        out.push((x % 256) as u8);
        push_le(x / 256, n - 1, out);
        assert(final(out)@ =~= old(out)@ + le_bytes(x as nat, n as nat));
    } else {
        assert(final(out)@ =~= old(out)@ + le_bytes(x as nat, n as nat));
    }
}

/// Reads the number whose `w` little-endian bytes start at `at`.
fn read_le_value(b: &[u8], at: usize, w: usize) -> (r: u128)
    requires
        w <= 16,
        at + w <= b@.len(),
    ensures
        r as nat == le_value(b@.subrange(at as int, at + w)),
    decreases w,
{
    if w == 0 {
        0
    } else {
        let len = b.len();
        assert(at + 1 <= len);
        let rest = read_le_value(b, at + 1, w - 1);
        let ghost s = b@.subrange(at as int, at + w);
        assert(s.drop_first() =~= b@.subrange(at + 1, at + w));
        proof {
            lemma_le_value_bound(s);
            lemma_pow256_le(w as nat);
            reveal_with_fuel(pow256, 17);
            assert(pow256(16) == 0x1_0000_0000_0000_0000_0000_0000_0000_0000);
        }
        b[at] as u128 + 256 * rest
    }
}

/// The type tag, payload value and width of a fixed-width literal.
fn literal_code(l: &Literal) -> (r: Option<(u8, u128, usize)>)
    ensures
        r is Some <==> payload_width(model_type(l.model())) > 0,
        r is Some ==> r->Some_0.0 == type_index(model_type(l.model())) && r->Some_0.2 as nat == payload_width(model_type(l.model()))
            && le_bytes(r->Some_0.1 as nat, r->Some_0.2 as nat) == literal_payload(l.model()),
{
    let r = match l {
        Literal::Boolean(b) => Some((1u8, if *b { 1u128 } else { 0u128 }, 1usize)),
        Literal::I8(v) => Some((4u8, *v as u8 as u128, 1usize)),
        Literal::I16(v) => Some((5u8, *v as u16 as u128, 2usize)),
        Literal::I32(v) => Some((6u8, *v as u32 as u128, 4usize)),
        Literal::I64(v) => Some((7u8, *v as u64 as u128, 8usize)),
        Literal::I128(v) => Some((8u8, *v as u128, 16usize)),
        Literal::U8(v) => Some((9u8, *v as u128, 1usize)),
        Literal::U16(v) => Some((10u8, *v as u128, 2usize)),
        Literal::U32(v) => Some((11u8, *v as u128, 4usize)),
        Literal::U64(v) => Some((12u8, *v as u128, 8usize)),
        Literal::U128(v) => Some((13u8, *v, 16usize)),
        _ => None,
    };
    proof {
        if let Literal::Boolean(b) = l {
            reveal_with_fuel(le_bytes, 2);
            assert(le_bytes(1nat, 1) =~= seq![1u8]);
            assert(le_bytes(0nat, 1) =~= seq![0u8]);
        }
    }
    r
}

/// Appends one byte per bit.
fn push_bit_bytes(b: &Vec<bool>, out: &mut Vec<u8>)
    ensures
        final(out)@ == old(out)@ + bit_bytes(b@),
{
    let mut i: usize = 0;
    while i < b.len()
        invariant
            i <= b@.len(),
            out@ == old(out)@ + bit_bytes(b@.subrange(0, i as int)),
        decreases b@.len() - i,
    {
        out.push(if b[i] { 1u8 } else { 0u8 });
        assert(bit_bytes(b@.subrange(0, (i + 1) as int)) =~= bit_bytes(b@.subrange(0, i as int)).push(
            if b@[i as int] { 1u8 } else { 0u8 },
        ));
        i = i + 1;
    }
    assert(b@.subrange(0, b@.len() as int) =~= b@);
}

/// Appends the bytes of `s`.
fn push_bytes(s: &Vec<u8>, out: &mut Vec<u8>)
    ensures
        final(out)@ == old(out)@ + s@,
{
    let mut i: usize = 0;
    while i < s.len()
        invariant
            i <= s@.len(),
            out@ == old(out)@ + s@.subrange(0, i as int),
        decreases s@.len() - i,
    {
        out.push(s[i]);
        assert(s@.subrange(0, (i + 1) as int) =~= s@.subrange(0, i as int).push(s@[i as int]));
        i = i + 1;
    }
    assert(s@.subrange(0, s@.len() as int) =~= s@);
}

/// Appends the bytes of an operand.
fn push_operand(op: &Operand, out: &mut Vec<u8>)
    ensures
        final(out)@ == old(out)@ + operand_bytes(op.model()),
{
    match op {
        Operand::Register(Register::Locator(x)) => {
            out.push(1u8);
            out.push(0u8);
            push_u64(*x, out);
            assert(final(out)@ =~= old(out)@ + operand_bytes(op.model()));
        },
        Operand::Literal(l) => {
            out.push(0u8);
            match literal_code(l) {
                Some((tag, x, w)) => {
                    out.push(tag);
                    push_le(x, w, out);
                },
                None => {
                    match l {
                        Literal::String(s) => {
                            out.push(15u8);
                            push_le(s.len() as u128, 8, out);
                            push_bytes(s, out);
                        },
                        Literal::Address(b) => {
                            out.push(0u8);
                            push_le(b.len() as u128, 8, out);
                            push_bit_bytes(b, out);
                        },
                        Literal::Field(b) => {
                            out.push(2u8);
                            push_le(b.len() as u128, 8, out);
                            push_bit_bytes(b, out);
                        },
                        Literal::Group(b) => {
                            out.push(3u8);
                            push_le(b.len() as u128, 8, out);
                            push_bit_bytes(b, out);
                        },
                        Literal::Scalar(b) => {
                            out.push(14u8);
                            push_le(b.len() as u128, 8, out);
                            push_bit_bytes(b, out);
                        },
                        _ => {},
                    }
                },
            }
            assert(final(out)@ =~= old(out)@ + operand_bytes(op.model()));
        },
    }
}

/// The payload width of a type in the byte form.
fn width_of(t: LiteralType) -> (r: usize)
    ensures
        r as nat == payload_width(t),
{
    match t {
        LiteralType::Boolean | LiteralType::I8 | LiteralType::U8 => 1,
        LiteralType::I16 | LiteralType::U16 => 2,
        LiteralType::I32 | LiteralType::U32 => 4,
        LiteralType::I64 | LiteralType::U64 => 8,
        LiteralType::I128 | LiteralType::U128 => 16,
        _ => 0,
    }
}

/// Copies `n` bytes from `at`.
fn read_bytes(b: &[u8], at: usize, n: usize) -> (r: Vec<u8>)
    requires
        at + n <= b@.len(),
    ensures
        r@ == b@.subrange(at as int, at + n),
{
    let len = b.len();
    let mut r: Vec<u8> = Vec::new();
    let mut i: usize = 0;
    while i < n
        invariant
            i <= n,
            at + n <= b@.len(),
            len == b@.len(),
            r@ == b@.subrange(at as int, at + i),
        decreases n - i,
    {
        r.push(b[at + i]);
        assert(b@.subrange(at as int, at + i + 1) =~= b@.subrange(at as int, at + i).push(b@[at + i]));
        i = i + 1;
    }
    r
}

/// Reads `n` bytes from `at` as bits, each `0` or `1`.
fn read_bits(b: &[u8], at: usize, n: usize) -> (r: Option<Vec<bool>>)
    requires
        at + n <= b@.len(),
    ensures
        r is Some <==> all_bits(b@.subrange(at as int, at + n)),
        r is Some ==> r->Some_0@ == b@.subrange(at as int, at + n).map_values(|x: u8| x == 1),
{
    let ghost s = b@.subrange(at as int, at + n);
    let len = b.len();
    let mut r: Vec<bool> = Vec::new();
    let mut i: usize = 0;
    while i < n
        invariant
            i <= n,
            at + n <= b@.len(),
            len == b@.len(),
            s == b@.subrange(at as int, at + n),
            forall|k: int| 0 <= k < i ==> s[k] <= 1,
            r@ == s.subrange(0, i as int).map_values(|x: u8| x == 1),
        decreases n - i,
    {
        let x = b[at + i];
        if x > 1 {
            assert(s[i as int] == x);
            return None;
        }
        r.push(x == 1);
        assert(s.subrange(0, i + 1).map_values(|x: u8| x == 1) =~= s.subrange(0, i as int).map_values(|x: u8| x == 1).push(x == 1));
        i = i + 1;
    }
    assert(s.subrange(0, n as int) =~= s);
    Some(r)
}

/// Reads the operand at `at`, and where the next item starts.
fn read_operand(b: &[u8], at: usize) -> (r: Option<(Operand, usize)>)
    ensures
        operand_decode(b@, at as int) is Some <==> r is Some,
        r is Some ==> r->Some_0.0.model() == operand_decode(b@, at as int)->Some_0.0
            && r->Some_0.1 as int == operand_decode(b@, at as int)->Some_0.1,
{
    if at >= b.len() || b.len() - at < 2 {
        return None;
    }
    if b[at] == 1 && b[at + 1] == 0 && b.len() - at >= 10 {
        let x = read_u64(b, at + 2);
        return Some((Operand::Register(Register::Locator(x)), at + 10));
    }
    if b[at] != 0 {
        return None;
    }
    let t = match LiteralType::from_index(b[at + 1]) {
        None => return None,
        Some(t) => t,
    };
    let w = width_of(t);
    if w == 0 {
        if b.len() - at < 10 {
            return None;
        }
        let n = read_le_value(b, at + 2, 8);
        if n > (b.len() - at - 10) as u128 {
            return None;
        }
        let n = n as usize;
        let start = at + 10;
        let l = match t {
            LiteralType::String => Literal::String(read_bytes(b, start, n)),
            LiteralType::Address => match read_bits(b, start, n) { None => return None, Some(v) => Literal::Address(v) },
            LiteralType::Field => match read_bits(b, start, n) { None => return None, Some(v) => Literal::Field(v) },
            LiteralType::Group => match read_bits(b, start, n) { None => return None, Some(v) => Literal::Group(v) },
            LiteralType::Scalar => match read_bits(b, start, n) { None => return None, Some(v) => Literal::Scalar(v) },
            _ => {
                return None;
            },
        };
        return Some((Operand::Literal(l), start + n));
    }
    if b.len() - at - 2 < w {
        return None;
    }
    let x = read_le_value(b, at + 2, w);
    let next = at + 2 + w;
    let l = match t {
        LiteralType::Boolean => {
            if b[at + 2] == 0 {
                Literal::Boolean(false)
            } else if b[at + 2] == 1 {
                Literal::Boolean(true)
            } else {
                return None;
            }
        },
        LiteralType::I8 => Literal::I8(x as u8 as i8),
        LiteralType::I16 => Literal::I16(x as u16 as i16),
        LiteralType::I32 => Literal::I32(x as u32 as i32),
        LiteralType::I64 => Literal::I64(x as u64 as i64),
        LiteralType::I128 => Literal::I128(x as i128),
        LiteralType::U8 => Literal::U8(x as u8),
        LiteralType::U16 => Literal::U16(x as u16),
        LiteralType::U32 => Literal::U32(x as u32),
        LiteralType::U64 => Literal::U64(x as u64),
        LiteralType::U128 => Literal::U128(x),
        _ => {
            return None;
        },
    };
    Some((Operand::Literal(l), next))
}

impl<const VARIANT: u8> HashInstruction<VARIANT> {
    /// Writes the instruction's bytes: fails with `InvalidVariant` for a
    /// variant of 12 or more and with `OperandCount` for an operand count the
    /// variant does not take (see `encode_spec`).
    pub fn write_le(&self) -> (r: Result<Vec<u8>, HashError>)
        ensures
            encode_spec(VARIANT, operands_model(self.operands@), self.destination, self.destination_type) is Some <==> r is Ok,
            r is Ok ==> r->Ok_0@ == encode_spec(VARIANT, operands_model(self.operands@), self.destination, self.destination_type)->Some_0,
            VARIANT >= 12 ==> r == Err::<Vec<u8>, HashError>(HashError::InvalidVariant),
            VARIANT < 12 && self.operands@.len() != expected_operands_spec(VARIANT) ==> r == Err::<Vec<u8>, HashError>(HashError::OperandCount),
    {
        if VARIANT >= 12 {
            return Err(HashError::InvalidVariant);
        }
        let n = expected_num_operands(VARIANT);
        if self.operands.len() != n {
            return Err(HashError::OperandCount);
        }
        let ghost m = operands_model(self.operands@);
        let mut out: Vec<u8> = Vec::new();
        let mut i: usize = 0;
        while i < n
            invariant
                i <= n,
                n == self.operands@.len(),
                m == operands_model(self.operands@),
                out@ == operands_bytes(m.subrange(0, i as int)),
            decreases n - i,
        {
            push_operand(&self.operands[i], &mut out);
            let ghost next = m.subrange(0, (i + 1) as int);
            assert(next.drop_last() =~= m.subrange(0, i as int));
            assert(out@ =~= operands_bytes(next));
            i = i + 1;
        }
        assert(m.subrange(0, n as int) =~= m);
        let Register::Locator(d) = self.destination;
        out.push(0u8);
        push_u64(d, &mut out);
        out.push(self.destination_type.index());
        assert(out@ =~= operands_bytes(m) + register_bytes(self.destination) + seq![type_index(self.destination_type)]);
        Ok(out)
    }

    /// Reads an instruction from the start of `bytes`, and returns it with
    /// the number of bytes it took; fails with `Decode` where the bytes do not
    /// hold one (see `decode_spec`).
    pub fn read_le(bytes: &[u8]) -> (r: Result<(Self, usize), HashError>)
        ensures
            decode_spec(VARIANT, bytes@) is Some <==> r is Ok,
            r is Err ==> r == Err::<(Self, usize), HashError>(HashError::Decode),
            r is Ok ==> (operands_model(r->Ok_0.0.operands@), r->Ok_0.0.destination, r->Ok_0.0.destination_type, r->Ok_0.1 as nat)
                == decode_spec(VARIANT, bytes@)->Some_0,
    {
        let n = expected_num_operands(VARIANT);
        let mut operands: Vec<Operand> = Vec::new();
        let mut at: usize = 0;
        let mut i: usize = 0;
        while i < n
            invariant
                i <= n,
                n == expected_operands_spec(VARIANT),
                decode_operands(bytes@, i as nat) == Some((operands_model(operands@), at as int)),
                at <= bytes@.len(),
            decreases n - i,
        {
            match read_operand(bytes, at) {
                None => {
                    proof {
                        lemma_decode_operands_stops(bytes@, (i + 1) as nat, n as nat);
                    }
                    return Err(HashError::Decode);
                },
                Some((op, next)) => {
                    let ghost before = operands@;
                    operands.push(op);
                    assert(operands_model(operands@) =~= operands_model(before).push(op.model()));
                    at = next;
                },
            }
            i = i + 1;
        }
        if bytes.len() - at < 10 || bytes[at] != 0 {
            return Err(HashError::Decode);
        }
        let d = read_u64(bytes, at + 1);
        let destination_type = match LiteralType::from_index(bytes[at + 9]) {
            None => return Err(HashError::Decode),
            Some(t) => t,
        };
        Ok((HashInstruction { operands, destination: Register::Locator(d), destination_type }, at + 10))
    }
}

} // verus!
