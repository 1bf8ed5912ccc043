use hash_instruction::bits::{Ciphertext, Entry, Plaintext, ToBits};
use hash_instruction::hasher::{Pedersen1024, Pedersen256, PedersenGadget};
use hash_instruction::instruction::{
    check_number_of_operands, dispatch, expected_num_operands, hash_input, HashInput, Aleo, HashBHP256, HashBHP512, HashCall,
    HashFunction, HashInstruction, HashManyPSD2, HashManyPSD8, HashPED64, HashPSD2, HashPSD4, HashPSD8, Network,
    Registers,
};
use hash_instruction::text::ConstantText;
use hash_instruction::types::{is_valid_destination_type, HashError, Literal, LiteralModel, LiteralType, Operand, Register};

const VALID_DESTINATION_TYPES: [(&str, LiteralType); 14] = [
    ("address", LiteralType::Address),
    ("field", LiteralType::Field),
    ("group", LiteralType::Group),
    ("i8", LiteralType::I8),
    ("i16", LiteralType::I16),
    ("i32", LiteralType::I32),
    ("i64", LiteralType::I64),
    ("i128", LiteralType::I128),
    ("u8", LiteralType::U8),
    ("u16", LiteralType::U16),
    ("u32", LiteralType::U32),
    ("u64", LiteralType::U64),
    ("u128", LiteralType::U128),
    ("scalar", LiteralType::Scalar),
];

/// A value store over a list of (register, value) pairs.
#[derive(Clone, Debug, PartialEq)]
struct Store<V> {
    cells: Vec<(u64, V)>,
}

// The `spec_*` items are proof-only models; they are never called at run time.
impl<V: Clone> Registers<V> for Store<V> {
    fn spec_load(&self, _operand: Operand) -> Result<V, HashError> {
        unreachable!()
    }

    fn spec_store(&self, _destination: Register, _value: V) -> Result<Self, HashError> {
        unreachable!()
    }

    fn load(&self, operand: &Operand) -> Result<V, HashError> {
        match operand {
            Operand::Register(Register::Locator(n)) => {
                self.cells.iter().find(|(k, _)| k == n).map(|(_, v)| v.clone()).ok_or(HashError::Store)
            }
            Operand::Literal(_) => Err(HashError::Store),
        }
    }

    fn store(&mut self, destination: &Register, value: V) -> Result<(), HashError> {
        let Register::Locator(n) = destination;
        self.cells.retain(|(k, _)| k != n);
        self.cells.push((*n, value));
        Ok(())
    }
}

fn function_code(f: HashFunction) -> bool {
    matches!(f, HashFunction::Bhp512 | HashFunction::Psd2)
}

/// A network whose "hash" records which function saw which bits.
struct FakeNetwork;

impl Network for FakeNetwork {
    fn spec_hash_to_group(&self, _function: HashFunction, _bits: vstd::seq::Seq<bool>) -> Result<Literal, HashError> {
        unreachable!()
    }

    fn spec_hash_poseidon(&self, _function: HashFunction, _to_group: bool, _input: Plaintext) -> Result<Literal, HashError> {
        unreachable!()
    }

    fn spec_downcast(&self, _output: Literal, _t: LiteralType) -> Result<Literal, HashError> {
        unreachable!()
    }

    fn hash_to_group(&self, function: HashFunction, bits: &Vec<bool>) -> Result<Literal, HashError> {
        let mut out = bits.clone();
        out.push(function_code(function));
        Ok(Literal::Group(out))
    }

    fn hash_poseidon(&self, function: HashFunction, to_group: bool, input: &Plaintext) -> Result<Literal, HashError> {
        let mut out = input.to_bits_le();
        out.push(function_code(function));
        Ok(if to_group { Literal::Group(out) } else { Literal::Field(out) })
    }

    fn downcast_lossy(&self, output: Literal, t: LiteralType) -> Result<Literal, HashError> {
        match (output, t) {
            (Literal::Group(b), LiteralType::Group) => Ok(Literal::Group(b)),
            (Literal::Group(b), LiteralType::Field) | (Literal::Field(b), LiteralType::Field) => Ok(Literal::Field(b)),
            (Literal::Field(b), LiteralType::U8) => {
                let mut v: u8 = 0;
                for (i, bit) in b.iter().take(8).enumerate() {
                    if *bit {
                        v |= 1 << i;
                    }
                }
                Ok(Literal::U8(v))
            }
            _ => Err(HashError::Downcast),
        }
    }
}

/// A circuit over native plaintexts, built on the same fake primitives.
struct FakeCircuit;

impl Aleo<Plaintext> for FakeCircuit {
    fn spec_type_of(_v: Plaintext) -> LiteralType {
        unreachable!()
    }

    fn spec_hash_to_group(&self, _function: HashFunction, _input: Plaintext) -> Plaintext {
        unreachable!()
    }

    fn spec_hash_poseidon(&self, _function: HashFunction, _to_group: bool, _input: Plaintext) -> Plaintext {
        unreachable!()
    }

    fn spec_downcast(&self, _output: Plaintext, _t: LiteralType) -> Result<Plaintext, HashError> {
        unreachable!()
    }

    fn hash_to_group(&self, function: HashFunction, input: &Plaintext) -> Plaintext {
        Plaintext::Literal(FakeNetwork.hash_to_group(function, &input.to_bits_le()).unwrap())
    }

    fn hash_poseidon(&self, function: HashFunction, to_group: bool, input: &Plaintext) -> Plaintext {
        Plaintext::Literal(FakeNetwork.hash_poseidon(function, to_group, input).unwrap())
    }

    fn downcast_lossy(&self, output: Plaintext, t: LiteralType) -> Result<Plaintext, HashError> {
        let Plaintext::Literal(l) = output;
        FakeNetwork.downcast_lossy(l, t).map(Plaintext::Literal)
    }
}

/// Spells a field, group, address or scalar element as a letter and its
/// bits as `0`/`1`, and a string as `T` and two hex digits per byte; with
/// `Spaced`, words hold a space.
struct TextForms;
struct Spaced;

fn spell(l: &Literal) -> Vec<u8> {
    let bits = |c: u8, b: &Vec<bool>| {
        let mut w = vec![c];
        w.extend(b.iter().map(|x| if *x { b'1' } else { b'0' }));
        w
    };
    match l {
        Literal::Field(b) => bits(b'F', b),
        Literal::Group(b) => bits(b'G', b),
        Literal::Address(b) => bits(b'A', b),
        Literal::Scalar(b) => bits(b'S', b),
        Literal::String(s) => {
            let mut w = vec![b'T'];
            for x in s {
                w.extend(format!("{x:02x}").bytes());
            }
            w
        }
        _ => unreachable!(),
    }
}

fn read_spelled(w: &[u8]) -> Option<Literal> {
    let (c, rest) = w.split_first()?;
    let bits = || rest.iter().map(|x| match x { b'0' => Some(false), b'1' => Some(true), _ => None }).collect::<Option<Vec<bool>>>();
    match c {
        b'F' => bits().map(Literal::Field),
        b'G' => bits().map(Literal::Group),
        b'A' => bits().map(Literal::Address),
        b'S' => bits().map(Literal::Scalar),
        b'T' if rest.len() % 2 == 0 => rest
            .chunks(2)
            .map(|p| u8::from_str_radix(std::str::from_utf8(p).ok()?, 16).ok())
            .collect::<Option<Vec<u8>>>()
            .map(Literal::String),
        _ => None,
    }
}

impl ConstantText for TextForms {
    fn spec_word(&self, _m: LiteralModel) -> vstd::seq::Seq<u8> {
        unreachable!()
    }

    fn spec_read(&self, _w: vstd::seq::Seq<u8>) -> Option<LiteralModel> {
        unreachable!()
    }

    fn word(&self, l: &Literal) -> Vec<u8> {
        spell(l)
    }

    fn read(&self, w: &[u8]) -> Option<Literal> {
        read_spelled(w)
    }
}

impl ConstantText for Spaced {
    fn spec_word(&self, _m: LiteralModel) -> vstd::seq::Seq<u8> {
        unreachable!()
    }

    fn spec_read(&self, _w: vstd::seq::Seq<u8>) -> Option<LiteralModel> {
        unreachable!()
    }

    fn word(&self, l: &Literal) -> Vec<u8> {
        let mut w = spell(l);
        w.push(b' ');
        w
    }

    fn read(&self, _w: &[u8]) -> Option<Literal> {
        None
    }
}

fn reg(n: u64) -> Operand {
    Operand::Register(Register::Locator(n))
}

fn store_with(value: Literal) -> Store<Plaintext> {
    Store { cells: vec![(0, Plaintext::Literal(value))] }
}

#[test]
fn test_parse() {
    for (name, destination_type) in VALID_DESTINATION_TYPES.iter() {
        let instruction = format!("hash.bhp512 r0 into r1 as {name}");
        let hash = HashBHP512::parse(&instruction, &TextForms).unwrap();
        assert_eq!(hash.operands.len(), 1, "The number of operands is incorrect");
        assert_eq!(hash.operands[0], Operand::Register(Register::Locator(0)), "The first operand is incorrect");
        assert_eq!(hash.destination, Register::Locator(1), "The destination register is incorrect");
        assert_eq!(hash.destination_type, *destination_type, "The destination type is incorrect");
    }
}

#[test]
fn parse_rejects_boolean_and_string_destinations() {
    assert_eq!(HashBHP512::parse("hash.bhp512 r0 into r1 as boolean", &TextForms), Err(HashError::Parse));
    assert_eq!(HashBHP512::parse("hash.bhp512 r0 into r1 as string", &TextForms), Err(HashError::Parse));
}

#[test]
fn parse_rejects_malformed_text() {
    assert_eq!(HashBHP512::parse("hash.bhp256 r0 into r1 as field", &TextForms), Err(HashError::Parse));
    assert_eq!(HashBHP512::parse(" hash.bhp512 r0 into r1 as field", &TextForms), Err(HashError::Parse));
    assert_eq!(HashBHP512::parse("hash.bhp512 r0 into r1 as field ", &TextForms), Err(HashError::Parse));
    assert_eq!(HashBHP512::parse("hash.bhp512 r0 r2 into r1 as field", &TextForms), Err(HashError::Parse));
    assert_eq!(HashBHP512::parse("hash.bhp512 r0 onto r1 as field", &TextForms), Err(HashError::Parse));
    assert_eq!(HashBHP512::parse("hash.bhp512 x0 into r1 as field", &TextForms), Err(HashError::Parse));
    assert_eq!(HashBHP512::parse("hash.bhp512 r into r1 as field", &TextForms), Err(HashError::Parse));
    assert_eq!(HashBHP512::parse("hash.bhp512 r18446744073709551616 into r1 as field", &TextForms), Err(HashError::Parse));
    assert_eq!(HashBHP512::parse("hash.bhp512 r0 into r1 as felt", &TextForms), Err(HashError::Parse));
    assert_eq!(HashBHP512::parse("", &TextForms), Err(HashError::Parse));
}

#[test]
fn parse_accepts_any_whitespace_between_words() {
    let hash = HashPSD2::from_str("hash.psd2\tr18446744073709551615  into\nr7   as u8", &TextForms).unwrap();
    assert_eq!(hash.operands, vec![reg(u64::MAX)]);
    assert_eq!(hash.destination, Register::Locator(7));
    assert_eq!(hash.destination_type, LiteralType::U8);
}

#[test]
fn parse_batched_takes_two_operands() {
    let hash = HashManyPSD8::parse("hash_many.psd8 r3 r4 into r5 as field", &TextForms).unwrap();
    assert_eq!(hash.operands, vec![reg(3), reg(4)]);
    assert_eq!(HashManyPSD8::parse("hash_many.psd8 r3 into r5 as field", &TextForms), Err(HashError::Parse));
}

#[test]
fn print_gives_canonical_text() {
    let hash = HashPSD2::new(vec![reg(0)], Register::Locator(17), LiteralType::U8).unwrap();
    assert_eq!(hash.to_text(&TextForms).unwrap(), "hash.psd2 r0 into r17 as u8");
    let many = HashManyPSD2 { operands: vec![reg(1), reg(20)], destination: Register::Locator(3), destination_type: LiteralType::Scalar };
    assert_eq!(many.to_text(&TextForms).unwrap(), "hash_many.psd2 r1 r20 into r3 as scalar");
}

#[test]
fn print_refuses_what_text_cannot_hold() {
    let constant = HashBHP256 { operands: vec![Operand::Literal(Literal::Field(vec![true]))], destination: Register::Locator(1), destination_type: LiteralType::Field };
    assert_eq!(constant.to_text(&Spaced), Err(HashError::InlineConstant));
    assert_eq!(constant.to_text(&TextForms).unwrap(), "hash.bhp256 F1 into r1 as field");
    let text = HashBHP256 { operands: vec![Operand::Literal(Literal::String(b"x y".to_vec()))], destination: Register::Locator(1), destination_type: LiteralType::Field };
    assert_eq!(text.to_text(&TextForms).unwrap(), "hash.bhp256 T782079 into r1 as field");
    assert_eq!(HashBHP256::parse("hash.bhp256 T782079 into r1 as field", &TextForms).unwrap(), text);
    let short = HashBHP256 { operands: vec![], destination: Register::Locator(1), destination_type: LiteralType::Field };
    assert_eq!(short.to_text(&TextForms), Err(HashError::OperandCount));
    let bad = HashInstruction::<12> { operands: vec![reg(0)], destination: Register::Locator(1), destination_type: LiteralType::Field };
    assert_eq!(bad.to_text(&TextForms), Err(HashError::InvalidVariant));
}

fn round_trip<const V: u8>(operands: Vec<Operand>) {
    for (_, t) in VALID_DESTINATION_TYPES.iter() {
        let hash = HashInstruction::<V>::new(operands.clone(), Register::Locator(9), *t).unwrap();
        let text = hash.to_text(&TextForms).unwrap();
        assert_eq!(HashInstruction::<V>::parse(&text, &TextForms).unwrap(), hash);
        let bytes = hash.write_le().unwrap();
        assert_eq!(HashInstruction::<V>::read_le(&bytes), Ok((hash, bytes.len())));
    }
}

#[test]
fn constant_operands_in_text() {
    let hash = HashBHP256::parse("hash.bhp256 -128i8 into r1 as field", &TextForms).unwrap();
    assert_eq!(hash.operands, vec![Operand::Literal(Literal::I8(-128))]);
    let hash = HashBHP256::parse("hash.bhp256 true into r1 as field", &TextForms).unwrap();
    assert_eq!(hash.operands, vec![Operand::Literal(Literal::Boolean(true))]);
    let hash = HashBHP256::parse("hash.bhp256 0042u16 into r1 as field", &TextForms).unwrap();
    assert_eq!(hash.operands, vec![Operand::Literal(Literal::U16(42))]);
    let hash = HashBHP256::parse("hash.bhp256 -170141183460469231731687303715884105728i128 into r1 as field", &TextForms).unwrap();
    assert_eq!(hash.operands, vec![Operand::Literal(Literal::I128(i128::MIN))]);
    let hash = HashBHP256::parse("hash.bhp256 340282366920938463463374607431768211455u128 into r1 as field", &TextForms).unwrap();
    assert_eq!(hash.operands, vec![Operand::Literal(Literal::U128(u128::MAX))]);
    assert_eq!(HashBHP256::parse("hash.bhp256 256u8 into r1 as field", &TextForms), Err(HashError::Parse));
    assert_eq!(HashBHP256::parse("hash.bhp256 -1u8 into r1 as field", &TextForms), Err(HashError::Parse));
    assert_eq!(HashBHP256::parse("hash.bhp256 128i8 into r1 as field", &TextForms), Err(HashError::Parse));
    assert_eq!(HashBHP256::parse("hash.bhp256 340282366920938463463374607431768211456u128 into r1 as field", &TextForms), Err(HashError::Parse));
    assert_eq!(HashBHP256::parse("hash.bhp256 5field into r1 as field", &TextForms), Err(HashError::Parse));
    assert_eq!(HashBHP256::parse("hash.bhp256 u8 into r1 as field", &TextForms), Err(HashError::Parse));
    assert_eq!(HashBHP256::parse("hash.bhp256 True into r1 as field", &TextForms), Err(HashError::Parse));
    let hash = HashPSD4::new(vec![Operand::Literal(Literal::I64(-9))], Register::Locator(2), LiteralType::Group).unwrap();
    assert_eq!(hash.to_text(&TextForms).unwrap(), "hash.psd4 -9i64 into r2 as group");
    let hash = HashManyPSD2::new(vec![Operand::Literal(Literal::Boolean(false)), reg(4)], Register::Locator(2), LiteralType::Field).unwrap();
    assert_eq!(hash.to_text(&TextForms).unwrap(), "hash_many.psd2 false r4 into r2 as field");
}

#[test]
fn text_round_trip_every_variant() {
    round_trip::<0>(vec![reg(0)]);
    round_trip::<1>(vec![reg(1)]);
    round_trip::<2>(vec![reg(2)]);
    round_trip::<3>(vec![reg(3)]);
    round_trip::<4>(vec![reg(4)]);
    round_trip::<5>(vec![reg(5)]);
    round_trip::<6>(vec![reg(6)]);
    round_trip::<7>(vec![reg(7)]);
    round_trip::<8>(vec![reg(12345678901)]);
    round_trip::<6>(vec![Operand::Literal(Literal::I128(i128::MIN))]);
    round_trip::<7>(vec![Operand::Literal(Literal::U64(u64::MAX))]);
    round_trip::<0>(vec![Operand::Literal(Literal::Boolean(true))]);
    round_trip::<10>(vec![Operand::Literal(Literal::I32(-7)), reg(3)]);
    round_trip::<1>(vec![Operand::Literal(Literal::Field(vec![true, false, true]))]);
    round_trip::<2>(vec![Operand::Literal(Literal::Group(vec![false; 5]))]);
    round_trip::<3>(vec![Operand::Literal(Literal::Address(vec![true]))]);
    round_trip::<4>(vec![Operand::Literal(Literal::Scalar(vec![]))]);
    round_trip::<5>(vec![Operand::Literal(Literal::String(b"hi there".to_vec()))]);
    round_trip::<9>(vec![reg(0), reg(1)]);
    round_trip::<11>(vec![reg(10), reg(0)]);
}

#[test]
fn opcodes_name_each_variant() {
    assert_eq!(HashBHP256::opcode().unwrap(), "hash.bhp256");
    assert_eq!(HashInstruction::<3>::opcode().unwrap(), "hash.bhp1024");
    assert_eq!(HashPED64::opcode().unwrap(), "hash.ped64");
    assert_eq!(HashInstruction::<5>::opcode().unwrap(), "hash.ped128");
    assert_eq!(HashPSD8::opcode().unwrap(), "hash.psd8");
    assert_eq!(HashInstruction::<10>::opcode().unwrap(), "hash_many.psd4");
    assert_eq!(HashInstruction::<12>::opcode(), Err(HashError::InvalidVariant));
    assert_eq!(HashInstruction::<255>::opcode(), Err(HashError::InvalidVariant));
}

#[test]
fn operand_counts() {
    for v in 0..=8u8 {
        assert_eq!(expected_num_operands(v), 1);
    }
    for v in 9..=11u8 {
        assert_eq!(expected_num_operands(v), 2);
    }
    assert_eq!(check_number_of_operands(0, 1), Ok(()));
    assert_eq!(check_number_of_operands(0, 2), Err(HashError::OperandCount));
    assert_eq!(check_number_of_operands(10, 2), Ok(()));
    assert!(!is_valid_destination_type(LiteralType::Boolean));
    assert!(!is_valid_destination_type(LiteralType::String));
    assert!(is_valid_destination_type(LiteralType::Scalar));
}

#[test]
fn new_rejects_wrong_operand_counts() {
    assert_eq!(HashBHP256::new(vec![], Register::Locator(1), LiteralType::Field), Err(HashError::OperandCount));
    assert_eq!(HashPSD8::new(vec![reg(0), reg(1)], Register::Locator(1), LiteralType::Field), Err(HashError::OperandCount));
    assert_eq!(HashManyPSD2::new(vec![reg(0)], Register::Locator(1), LiteralType::Field), Err(HashError::OperandCount));
    assert!(HashManyPSD2::new(vec![reg(0), reg(1)], Register::Locator(1), LiteralType::Field).is_ok());
}

fn rejects_bad_destination<const V: u8>(operands: Vec<Operand>) {
    for t in [LiteralType::Boolean, LiteralType::String] {
        assert_eq!(HashInstruction::<V>::new(operands.clone(), Register::Locator(1), t), Err(HashError::InvalidDestinationType));
    }
}

#[test]
fn new_rejects_boolean_and_string_destinations() {
    rejects_bad_destination::<0>(vec![reg(0)]);
    rejects_bad_destination::<4>(vec![reg(0)]);
    rejects_bad_destination::<6>(vec![reg(0)]);
    rejects_bad_destination::<8>(vec![reg(0)]);
    rejects_bad_destination::<9>(vec![reg(0), reg(1)]);
    rejects_bad_destination::<11>(vec![reg(0), reg(1)]);
}

#[test]
fn invalid_variant_fails_before_operands() {
    assert_eq!(HashInstruction::<12>::new(vec![reg(0)], Register::Locator(1), LiteralType::Field), Err(HashError::InvalidVariant));
    assert_eq!(HashInstruction::<200>::new(vec![], Register::Locator(1), LiteralType::Boolean), Err(HashError::InvalidVariant));
    let bad = HashInstruction::<12> { operands: vec![reg(0)], destination: Register::Locator(1), destination_type: LiteralType::Field };
    let mut store = store_with(Literal::U8(1));
    let before = store.clone();
    assert_eq!(bad.evaluate(&FakeNetwork, &mut store), Err(HashError::InvalidVariant));
    assert_eq!(bad.execute(&FakeCircuit, &mut store), Err(HashError::InvalidVariant));
    assert_eq!(store, before);
    assert_eq!(bad.output_types(&[LiteralType::U8]), Err(HashError::InvalidVariant));
    assert_eq!(bad.write_le(), Err(HashError::InvalidVariant));
}

#[test]
fn batched_variants_are_not_implemented() {
    let many = HashManyPSD2::new(vec![reg(0), reg(0)], Register::Locator(1), LiteralType::Field).unwrap();
    let mut store = store_with(Literal::U8(1));
    let before = store.clone();
    assert_eq!(many.evaluate(&FakeNetwork, &mut store), Err(HashError::NotImplemented));
    assert_eq!(many.execute(&FakeCircuit, &mut store), Err(HashError::NotImplemented));
    assert_eq!(many.finalize(&FakeNetwork, &mut store), Err(HashError::NotImplemented));
    assert_eq!(store, before);
    assert_eq!(many.output_types(&[LiteralType::U8, LiteralType::U8]), Err(HashError::NotImplemented));
    assert_eq!(many.output_types(&[LiteralType::U8]), Err(HashError::OperandCount));
}

#[test]
fn dispatch_table() {
    assert_eq!(dispatch(1, LiteralType::U8), Ok(HashCall { function: HashFunction::Bhp512, to_group: true }));
    assert_eq!(dispatch(5, LiteralType::Field), Ok(HashCall { function: HashFunction::Ped128, to_group: true }));
    assert_eq!(dispatch(6, LiteralType::Address), Ok(HashCall { function: HashFunction::Psd2, to_group: true }));
    assert_eq!(dispatch(7, LiteralType::Group), Ok(HashCall { function: HashFunction::Psd4, to_group: true }));
    assert_eq!(dispatch(8, LiteralType::U64), Ok(HashCall { function: HashFunction::Psd8, to_group: false }));
    assert_eq!(dispatch(9, LiteralType::Field), Err(HashError::NotImplemented));
    assert_eq!(dispatch(12, LiteralType::Field), Err(HashError::InvalidVariant));
}

#[test]
fn hash_input_by_function() {
    let value = Plaintext::Literal(Literal::U8(2));
    let bhp = HashCall { function: HashFunction::Bhp1024, to_group: true };
    assert_eq!(hash_input(bhp, value.clone()), HashInput::Bits(vec![false, false, true, false, false, false, false, false, false]));
    let ped = HashCall { function: HashFunction::Ped64, to_group: true };
    assert_eq!(hash_input(ped, Plaintext::Literal(Literal::Boolean(false))), HashInput::Bits(vec![false, false]));
    let psd = HashCall { function: HashFunction::Psd4, to_group: false };
    assert_eq!(hash_input(psd, value.clone()), HashInput::Value(value));
}

#[test]
fn scenario_bhp512_of_boolean_into_field() {
    let hash = HashBHP512::from_str("hash.bhp512 r0 into r1 as field", &TextForms).unwrap();
    let mut store = store_with(Literal::Boolean(true));
    assert_eq!(hash.evaluate(&FakeNetwork, &mut store), Ok(()));
    let stored = store.cells.iter().find(|(k, _)| *k == 1).unwrap().1.clone();
    // The fake BHP-512 returns its input bits with a marker bit appended: the
    // boolean's two bits are the plaintext variant bit and the value.
    assert_eq!(stored, Plaintext::Literal(Literal::Field(vec![false, true, true])));
}

#[test]
fn evaluate_and_execute_agree() {
    let inputs = [Literal::U8(0xa5), Literal::Boolean(false), Literal::I16(-2), Literal::String(b"hi".to_vec())];
    for input in inputs.iter() {
        let bhp = HashBHP256::new(vec![reg(0)], Register::Locator(2), LiteralType::Group).unwrap();
        let psd = HashPSD2::new(vec![reg(0)], Register::Locator(2), LiteralType::U8).unwrap();
        let mut native = store_with(input.clone());
        let mut circuit = store_with(input.clone());
        assert_eq!(bhp.evaluate(&FakeNetwork, &mut native), bhp.execute(&FakeCircuit, &mut circuit));
        assert_eq!(native, circuit);
        assert_eq!(psd.evaluate(&FakeNetwork, &mut native), psd.execute(&FakeCircuit, &mut circuit));
        assert_eq!(native, circuit);
    }
}

#[test]
fn evaluate_propagates_store_and_downcast_failures() {
    let hash = HashBHP256::new(vec![reg(5)], Register::Locator(2), LiteralType::Field).unwrap();
    let mut store = store_with(Literal::U8(1));
    assert_eq!(hash.evaluate(&FakeNetwork, &mut store), Err(HashError::Store));
    let hash = HashBHP256::new(vec![reg(0)], Register::Locator(2), LiteralType::I64).unwrap();
    assert_eq!(hash.evaluate(&FakeNetwork, &mut store), Err(HashError::Downcast));
}

#[test]
fn output_types_give_the_destination() {
    let hash = HashPSD8::new(vec![reg(0)], Register::Locator(2), LiteralType::I32).unwrap();
    assert_eq!(hash.output_types(&["any input type"]), Ok(vec![LiteralType::I32]));
    assert_eq!(hash.output_types::<u8>(&[]), Err(HashError::OperandCount));
    assert_eq!(hash.destinations(), vec![Register::Locator(2)]);
    assert_eq!(hash.destination_type(), LiteralType::I32);
    assert_eq!(hash.operands(), &[reg(0)][..]);
}

#[test]
fn bytes_exact_and_round_trip() {
    let hash = HashPSD2::new(vec![reg(258)], Register::Locator(1), LiteralType::U16).unwrap();
    let bytes = hash.write_le().unwrap();
    assert_eq!(bytes, vec![1, 0, 2, 1, 0, 0, 0, 0, 0, 0, 0, 1, 0, 0, 0, 0, 0, 0, 0, 10]);
    let mut stream = bytes.clone();
    stream.push(99);
    assert_eq!(HashPSD2::read_le(&stream), Ok((hash, 20)));
    let many = HashManyPSD8::new(vec![reg(u64::MAX), reg(7)], Register::Locator(3), LiteralType::Address).unwrap();
    let bytes = many.write_le().unwrap();
    assert_eq!(bytes.len(), 30);
    assert_eq!(HashManyPSD8::read_le(&bytes), Ok((many, 30)));
}

#[test]
fn constant_operands_in_bytes() {
    let hash = HashBHP256::new(vec![Operand::Literal(Literal::U16(0x1234))], Register::Locator(1), LiteralType::Field).unwrap();
    let bytes = hash.write_le().unwrap();
    assert_eq!(bytes, vec![0, 10, 0x34, 0x12, 0, 1, 0, 0, 0, 0, 0, 0, 0, 2]);
    assert_eq!(HashBHP256::read_le(&bytes), Ok((hash, 14)));
    let hash = HashBHP256::new(vec![Operand::Literal(Literal::I8(-1))], Register::Locator(0), LiteralType::U8).unwrap();
    assert_eq!(hash.write_le().unwrap(), vec![0, 4, 0xff, 0, 0, 0, 0, 0, 0, 0, 0, 0, 9]);
    let hash = HashBHP256::new(vec![Operand::Literal(Literal::Boolean(true))], Register::Locator(0), LiteralType::U8).unwrap();
    assert_eq!(hash.write_le().unwrap(), vec![0, 1, 1, 0, 0, 0, 0, 0, 0, 0, 0, 0, 9]);
    let many = HashManyPSD2::new(
        vec![Operand::Literal(Literal::I128(i128::MIN)), Operand::Literal(Literal::U64(u64::MAX))],
        Register::Locator(5),
        LiteralType::Group,
    )
    .unwrap();
    let bytes = many.write_le().unwrap();
    assert_eq!(bytes.len(), 18 + 10 + 10);
    assert_eq!(HashManyPSD2::read_le(&bytes), Ok((many, 38)));
    let mixed = HashManyPSD2::new(vec![reg(2), Operand::Literal(Literal::I32(-5))], Register::Locator(5), LiteralType::I8).unwrap();
    let bytes = mixed.write_le().unwrap();
    assert_eq!(HashManyPSD2::read_le(&bytes), Ok((mixed, 26)));
}

#[test]
fn bytes_refuse_malformed_streams() {
    assert_eq!(HashPSD2::read_le(&[1, 0, 2, 1, 0, 0, 0, 0, 0, 0, 0, 1, 0, 0, 0, 0, 0, 0, 0]), Err(HashError::Decode));
    assert_eq!(HashPSD2::read_le(&[0, 0, 2, 1, 0, 0, 0, 0, 0, 0, 0, 1, 0, 0, 0, 0, 0, 0, 0, 10]), Err(HashError::Decode));
    assert_eq!(HashPSD2::read_le(&[1, 0, 2, 1, 0, 0, 0, 0, 0, 0, 0, 1, 0, 0, 0, 0, 0, 0, 0, 16]), Err(HashError::Decode));
    let constant = HashBHP256 { operands: vec![Operand::Literal(Literal::Scalar(vec![true]))], destination: Register::Locator(1), destination_type: LiteralType::Field };
    let bytes = constant.write_le().unwrap();
    assert_eq!(bytes, vec![0, 14, 1, 0, 0, 0, 0, 0, 0, 0, 1, 0, 1, 0, 0, 0, 0, 0, 0, 0, 2]);
    assert_eq!(HashBHP256::read_le(&bytes), Ok((constant, 21)));
    let text = HashBHP256::new(vec![Operand::Literal(Literal::String(b"ab".to_vec()))], Register::Locator(0), LiteralType::U8).unwrap();
    let bytes = text.write_le().unwrap();
    assert_eq!(bytes, vec![0, 15, 2, 0, 0, 0, 0, 0, 0, 0, b'a', b'b', 0, 0, 0, 0, 0, 0, 0, 0, 0, 9]);
    assert_eq!(HashBHP256::read_le(&bytes), Ok((text, 22)));
    // A bit byte other than 0 or 1.
    assert_eq!(HashBHP256::read_le(&[0, 2, 1, 0, 0, 0, 0, 0, 0, 0, 2, 0, 1, 0, 0, 0, 0, 0, 0, 0, 2]), Err(HashError::Decode));
    // A boolean payload other than 0 or 1.
    assert_eq!(HashBHP256::read_le(&[0, 1, 2, 0, 1, 0, 0, 0, 0, 0, 0, 0, 2]), Err(HashError::Decode));
    // A field element whose length runs past the end.
    assert_eq!(HashBHP256::read_le(&[0, 2, 0, 0, 1, 0, 0, 0, 0, 0, 0, 0, 2]), Err(HashError::Decode));
    // A payload cut short.
    assert_eq!(HashBHP256::read_le(&[0, 13, 1, 2, 3]), Err(HashError::Decode));
    let short = HashBHP256 { operands: vec![], destination: Register::Locator(1), destination_type: LiteralType::Field };
    assert_eq!(short.write_le(), Err(HashError::OperandCount));
}

#[test]
fn literal_bits() {
    assert_eq!(Literal::U8(5).to_bits_le(), vec![true, false, true, false, false, false, false, false]);
    assert_eq!(Literal::U8(5).to_bits_be(), vec![false, false, false, false, false, true, false, true]);
    assert_eq!(Literal::I8(-1).to_bits_le(), vec![true; 8]);
    assert_eq!(Literal::I16(-2).to_bits_le().len(), 16);
    assert_eq!(Literal::U128(1 << 127).to_bits_le()[127], true);
    assert_eq!(Literal::Boolean(true).to_bits_le(), vec![true]);
    assert_eq!(Literal::String(b"a".to_vec()).to_bits_le(), vec![true, false, false, false, false, true, true, false]);
    assert_eq!(Literal::Field(vec![true, false, false]).to_bits_be(), vec![false, false, true]);
}

#[test]
fn plaintext_bits_have_variant_bit() {
    let p = Plaintext::Literal(Literal::U8(1));
    assert_eq!(p.to_bits_le(), vec![false, true, false, false, false, false, false, false, false]);
    assert_eq!(p.to_bits_be(), vec![false, false, false, false, false, false, false, false, true]);
    let entry = Entry::Public(Plaintext::Literal(Literal::Boolean(true)));
    assert_eq!(entry.to_bits_le(), vec![false, true, false, true]);
}

#[test]
fn entry_bits_have_visibility_prefix() {
    let p = Literal::U8(3);
    let payload = p.to_bits_le();
    let mut expected = vec![false, true];
    expected.extend(payload.iter());
    assert_eq!(Entry::Public(p.clone()).to_bits_le(), expected);
    let mut expected = vec![false, false];
    expected.extend(payload.iter());
    assert_eq!(Entry::Constant(p.clone()).to_bits_le(), expected);
    let mut expected = vec![true, false];
    expected.extend(p.to_bits_be().iter());
    assert_eq!(Entry::Private(p).to_bits_be(), expected);
}

#[test]
fn ciphertext_entry_bits() {
    let c = Ciphertext { fields: vec![vec![true, false], vec![false, false, true]] };
    assert_eq!(c.to_bits_le(), vec![true, false, false, false, true]);
    assert_eq!(c.to_bits_be(), vec![false, true, true, false, false]);
    let entry = Entry::Private(c.clone());
    assert_eq!(entry.to_bits_le(), vec![true, false, true, false, false, false, true]);
    assert_eq!(Entry::Constant(c).to_bits_be(), vec![false, false, false, true, true, false, false]);
    assert_eq!(Entry::Public(Ciphertext { fields: vec![] }).to_bits_le(), vec![false, true]);
}

/// A gadget that "hashes" to the number of input bits, as eight bits.
struct CountingGadget {
    label: String,
}

impl PedersenGadget for CountingGadget {
    fn spec_setup(_message: vstd::seq::Seq<char>) -> Self {
        unreachable!()
    }

    fn spec_hash(&self, _bits: vstd::seq::Seq<bool>) -> vstd::seq::Seq<bool> {
        unreachable!()
    }

    fn setup(message: &str) -> Self {
        CountingGadget { label: message.to_string() }
    }

    fn hash(&self, bits: &Vec<bool>) -> Vec<bool> {
        assert!(!self.label.is_empty());
        (0..16).map(|i| (bits.len() >> i) & 1 == 1).collect()
    }
}

#[test]
fn pedersen1024_capacity() {
    let hasher: Pedersen1024<CountingGadget> = Pedersen1024::default();
    assert_eq!(hasher.label, "Pedersen1024");
    assert_eq!(hasher.gadget.label, "Pedersen1024");
    let ok = Literal::String(vec![b'x'; 128]);
    assert_eq!(Pedersen1024::<CountingGadget>::input_bits(&ok).unwrap().len(), 1024);
    match hasher.hash(&ok) {
        Ok(Literal::Field(bits)) => assert_eq!(bits[10], true),
        other => panic!("unexpected {other:?}"),
    }
    let too_long = Literal::String(vec![b'x'; 129]);
    assert_eq!(hasher.hash(&too_long), Err(HashError::InputTooLarge));
    assert!(hasher.hash(&Literal::Address(vec![true; 253])).is_ok());
    assert!(hasher.hash(&Literal::U128(7)).is_ok());
}

#[test]
fn pedersen256_capacity() {
    let hasher: Pedersen256<CountingGadget> = Pedersen256::new("label");
    assert!(hasher.hash(&Literal::String(vec![0; 32])).is_ok());
    assert_eq!(hasher.hash(&Literal::String(vec![0; 33])), Err(HashError::InputTooLarge));
    assert_eq!(hasher.hash(&Literal::Address(vec![false])), Err(HashError::UnsupportedInput));
    assert_eq!(Pedersen256::<CountingGadget>::input_bits(&Literal::I32(-1)).unwrap(), vec![true; 32]);
    assert_eq!(hasher.label, "label");
    let default: Pedersen256<CountingGadget> = Pedersen256::default();
    assert_eq!(default.label, "Pedersen256");
}
