use vstd::prelude::*;

use crate::bits::{plaintext_bits_le, Plaintext, ToBits};
use crate::codec::model_type;
use crate::types::{
    is_valid_destination_type, valid_destination_spec, HashError, Literal, LiteralType, Operand,
    Register,
};

verus! {

/// The hash functions that an instruction can select.
#[derive(Clone, Copy, Debug, PartialEq, Eq, Structural)]
pub enum HashFunction {
    Bhp256,
    Bhp512,
    Bhp768,
    Bhp1024,
    Ped64,
    Ped128,
    Psd2,
    Psd4,
    Psd8,
}

impl HashFunction {
    /// Whether the function consumes the input's bits (BHP and Pedersen)
    /// rather than its field elements (Poseidon).
    pub open spec fn takes_bits_spec(self) -> bool {
        !(self is Psd2 || self is Psd4 || self is Psd8)
    }

    /// Whether the function consumes the input's bits.
    pub fn takes_bits(&self) -> (r: bool)
        ensures
            r == self.takes_bits_spec(),
    {
        !matches!(self, HashFunction::Psd2 | HashFunction::Psd4 | HashFunction::Psd8)
    }
}

/// The primitive call that an instruction makes: which function, and whether
/// it hashes to a group element (otherwise to a field element).
#[derive(Clone, Copy, Debug, PartialEq, Eq, Structural)]
pub struct HashCall {
    pub function: HashFunction,
    pub to_group: bool,
}

/// Tags 9 to 11 are the batched `hash_many` variants.
pub open spec fn is_batched(variant: u8) -> bool {
    9 <= variant <= 11
}

/// The number of operands that a variant takes.
pub open spec fn expected_operands_spec(variant: u8) -> nat {
    if is_batched(variant) {
        2
    } else {
        1
    }
}

/// The call that `variant` makes for a destination of type `t`: BHP and
/// Pedersen always hash to a group element; Poseidon hashes to a group element
/// for an address or group destination and to a field element otherwise.
pub open spec fn dispatch_spec(variant: u8, t: LiteralType) -> Result<HashCall, HashError> {
    let to_group = t is Address || t is Group;
    if variant == 0 {
        Ok(HashCall { function: HashFunction::Bhp256, to_group: true })
    } else if variant == 1 {
        Ok(HashCall { function: HashFunction::Bhp512, to_group: true })
    } else if variant == 2 {
        Ok(HashCall { function: HashFunction::Bhp768, to_group: true })
    } else if variant == 3 {
        Ok(HashCall { function: HashFunction::Bhp1024, to_group: true })
    } else if variant == 4 {
        Ok(HashCall { function: HashFunction::Ped64, to_group: true })
    } else if variant == 5 {
        Ok(HashCall { function: HashFunction::Ped128, to_group: true })
    } else if variant == 6 {
        Ok(HashCall { function: HashFunction::Psd2, to_group })
    } else if variant == 7 {
        Ok(HashCall { function: HashFunction::Psd4, to_group })
    } else if variant == 8 {
        Ok(HashCall { function: HashFunction::Psd8, to_group })
    } else if is_batched(variant) {
        Err(HashError::NotImplemented)
    } else {
        Err(HashError::InvalidVariant)
    }
}

/// Returns the expected number of operands given the variant.
pub fn expected_num_operands(variant: u8) -> (r: usize)
    ensures
        r == expected_operands_spec(variant),
{
    if 9 <= variant && variant <= 11 {
        2
    } else {
        1
    }
}

/// Returns `Ok(())` if `num_operands` is the number of operands that the
/// variant expects, and `Err(OperandCount)` otherwise.
pub fn check_number_of_operands(variant: u8, num_operands: usize) -> (r: Result<(), HashError>)
    ensures
        num_operands == expected_operands_spec(variant) <==> r is Ok,
        r is Err ==> r == Err::<(), HashError>(HashError::OperandCount),
{
    let expected = expected_num_operands(variant);
    if expected != num_operands {
        Err(HashError::OperandCount)
    } else {
        Ok(())
    }
}

/// Selects the primitive call of `variant` for a destination of type `t`.
pub fn dispatch(variant: u8, t: LiteralType) -> (r: Result<HashCall, HashError>)
    ensures
        r == dispatch_spec(variant, t),
{
    let to_group = matches!(t, LiteralType::Address | LiteralType::Group);
    if variant == 0 {
        Ok(HashCall { function: HashFunction::Bhp256, to_group: true })
    } else if variant == 1 {
        Ok(HashCall { function: HashFunction::Bhp512, to_group: true })
    } else if variant == 2 {
        Ok(HashCall { function: HashFunction::Bhp768, to_group: true })
    } else if variant == 3 {
        Ok(HashCall { function: HashFunction::Bhp1024, to_group: true })
    } else if variant == 4 {
        Ok(HashCall { function: HashFunction::Ped64, to_group: true })
    } else if variant == 5 {
        Ok(HashCall { function: HashFunction::Ped128, to_group: true })
    } else if variant == 6 {
        Ok(HashCall { function: HashFunction::Psd2, to_group })
    } else if variant == 7 {
        Ok(HashCall { function: HashFunction::Psd4, to_group })
    } else if variant == 8 {
        Ok(HashCall { function: HashFunction::Psd8, to_group })
    } else if 9 <= variant && variant <= 11 {
        Err(HashError::NotImplemented)
    } else {
        Err(HashError::InvalidVariant)
    }
}

/// Hashes the operand into the declared type. `VARIANT` selects the hash
/// function; see `dispatch_spec`.
#[derive(Clone, Debug, PartialEq, Eq)]
pub struct HashInstruction<const VARIANT: u8> {
    /// The operands: one, or two for a batched variant.
    pub operands: Vec<Operand>,
    /// The destination register.
    pub destination: Register,
    /// The destination register type.
    pub destination_type: LiteralType,
}

/// BHP with 256-bit chunks.
pub type HashBHP256 = HashInstruction<0>;
/// BHP with 512-bit chunks.
pub type HashBHP512 = HashInstruction<1>;
/// BHP with 768-bit chunks.
pub type HashBHP768 = HashInstruction<2>;
/// BHP with 1024-bit chunks.
pub type HashBHP1024 = HashInstruction<3>;
/// Pedersen with 64-bit chunks.
pub type HashPED64 = HashInstruction<4>;
/// Pedersen with 128-bit chunks.
pub type HashPED128 = HashInstruction<5>;
/// Poseidon with a rate of 2 field elements.
pub type HashPSD2 = HashInstruction<6>;
/// Poseidon with a rate of 4 field elements.
pub type HashPSD4 = HashInstruction<7>;
/// Poseidon with a rate of 8 field elements.
pub type HashPSD8 = HashInstruction<8>;
/// Batched Poseidon with a rate of 2 field elements.
pub type HashManyPSD2 = HashInstruction<9>;
/// Batched Poseidon with a rate of 4 field elements.
pub type HashManyPSD4 = HashInstruction<10>;
/// Batched Poseidon with a rate of 8 field elements.
pub type HashManyPSD8 = HashInstruction<11>;

/// What a native run hands to the selected primitive: the loaded value's
/// little-endian bits for BHP and Pedersen, the value itself (whose field
/// elements the primitive takes) for Poseidon.
#[derive(Clone, Debug, PartialEq, Eq)]
pub enum HashInput {
    Bits(Vec<bool>),
    Value(Plaintext),
}

/// The input that `call` takes from the loaded value `input`.
pub fn hash_input(call: HashCall, input: Plaintext) -> (r: HashInput)
    ensures
        call.function.takes_bits_spec() <==> r is Bits,
        r is Bits ==> r->Bits_0@ == plaintext_bits_le(input),
        r is Value ==> r->Value_0 == input,
{
    if call.function.takes_bits() {
        HashInput::Bits(input.to_bits_le())
    } else {
        HashInput::Value(input)
    }
}

/// The validation that construction performs: the variant must name a hash
/// function, the operand count must match it, and the destination type must
/// be neither boolean nor string.
pub open spec fn validate_spec(variant: u8, num_operands: nat, t: LiteralType) -> Result<(), HashError> {
    if variant >= 12 {
        Err(HashError::InvalidVariant)
    } else if num_operands != expected_operands_spec(variant) {
        Err(HashError::OperandCount)
    } else if !valid_destination_spec(t) {
        Err(HashError::InvalidDestinationType)
    } else {
        Ok(())
    }
}

/// What a run of the instruction decides before it touches any operand:
/// the validation of construction, then the variant's call.
pub open spec fn plan_spec(variant: u8, num_operands: nat, t: LiteralType) -> Result<HashCall, HashError> {
    match validate_spec(variant, num_operands, t) {
        Err(e) => Err(e),
        Ok(_) => dispatch_spec(variant, t),
    }
}

/// The validation of construction, executable.
fn validate(variant: u8, num_operands: usize, t: LiteralType) -> (r: Result<(), HashError>)
    ensures
        r == validate_spec(variant, num_operands as nat, t),
{
    if variant >= 12 {
        return Err(HashError::InvalidVariant);
    }
    match check_number_of_operands(variant, num_operands) {
        Err(e) => Err(e),
        Ok(_) => {
            if !is_valid_destination_type(t) {
                Err(HashError::InvalidDestinationType)
            } else {
                Ok(())
            }
        },
    }
}

/// The value store: loads operands and stores results. `V` is the kind of
/// value it holds (native plaintexts, or values of a circuit).
pub trait Registers<V>: Sized {
    /// What loading `operand` gives.
    spec fn spec_load(&self, operand: Operand) -> Result<V, HashError>;

    /// The store after `value` is stored at `destination`, or the error
    /// that storing it gives.
    spec fn spec_store(&self, destination: Register, value: V) -> Result<Self, HashError>;

    /// Loads the value of an operand.
    fn load(&self, operand: &Operand) -> (r: Result<V, HashError>)
        ensures
            r == self.spec_load(*operand),
    ;

    /// Stores `value` into the register `destination`; a failed store
    /// changes nothing.
    fn store(&mut self, destination: &Register, value: V) -> (r: Result<(), HashError>)
        ensures
            match old(self).spec_store(*destination, value) {
                Ok(next) => r == Ok::<(), HashError>(()) && *final(self) == next,
                Err(e) => r == Err::<(), HashError>(e) && *final(self) == *old(self),
            },
    ;
}

/// The hash primitives of a network, on native values.
pub trait Network {
    /// What `hash_to_group` gives.
    spec fn spec_hash_to_group(&self, function: HashFunction, bits: Seq<bool>) -> Result<Literal, HashError>;

    /// What `hash_poseidon` gives.
    spec fn spec_hash_poseidon(&self, function: HashFunction, to_group: bool, input: Plaintext) -> Result<Literal, HashError>;

    /// What `downcast_lossy` gives.
    spec fn spec_downcast(&self, output: Literal, t: LiteralType) -> Result<Literal, HashError>;

    /// Hashes bits to a group element with a BHP or Pedersen function.
    fn hash_to_group(&self, function: HashFunction, bits: &Vec<bool>) -> (r: Result<Literal, HashError>)
        ensures
            r == self.spec_hash_to_group(function, bits@),
            r is Ok ==> r->Ok_0 is Group,
    ;

    /// Hashes the field elements of `input` with a Poseidon function, to a
    /// group element when `to_group` holds and to a field element otherwise.
    fn hash_poseidon(&self, function: HashFunction, to_group: bool, input: &Plaintext) -> (r: Result<Literal, HashError>)
        ensures
            r == self.spec_hash_poseidon(function, to_group, *input),
            r is Ok && to_group ==> r->Ok_0 is Group,
            r is Ok && !to_group ==> r->Ok_0 is Field,
    ;

    /// Casts a group or field element to `t`, truncating where needed.
    fn downcast_lossy(&self, output: Literal, t: LiteralType) -> (r: Result<Literal, HashError>)
        ensures
            r == self.spec_downcast(output, t),
            r is Ok ==> model_type(r->Ok_0.model()) == t,
    ;
}

/// The hash primitives of a circuit, on circuit values of type `V`.
pub trait Aleo<V> {
    /// The literal type of a circuit value.
    spec fn spec_type_of(v: V) -> LiteralType;

    /// What `hash_to_group` synthesizes.
    spec fn spec_hash_to_group(&self, function: HashFunction, input: V) -> V;

    /// What `hash_poseidon` synthesizes.
    spec fn spec_hash_poseidon(&self, function: HashFunction, to_group: bool, input: V) -> V;

    /// What `downcast_lossy` gives.
    spec fn spec_downcast(&self, output: V, t: LiteralType) -> Result<V, HashError>;

    /// Synthesizes a BHP or Pedersen hash of the bits of `input` to a group element.
    fn hash_to_group(&self, function: HashFunction, input: &V) -> (r: V)
        ensures
            r == self.spec_hash_to_group(function, *input),
    ;

    /// Synthesizes a Poseidon hash of the field elements of `input`.
    fn hash_poseidon(&self, function: HashFunction, to_group: bool, input: &V) -> (r: V)
        ensures
            r == self.spec_hash_poseidon(function, to_group, *input),
    ;

    /// Casts a synthesized group or field element to `t`.
    fn downcast_lossy(&self, output: V, t: LiteralType) -> (r: Result<V, HashError>)
        ensures
            r == self.spec_downcast(output, t),
            r is Ok ==> Self::spec_type_of(r->Ok_0) == t,
    ;
}

/// The raw result of the native primitive that `call` selects, on the
/// loaded value `input`: its bits go to BHP and Pedersen, the value itself
/// to Poseidon.
pub open spec fn native_hash_spec<N: Network>(network: &N, call: HashCall, input: Plaintext) -> Result<Literal, HashError> {
    if call.function.takes_bits_spec() {
        network.spec_hash_to_group(call.function, plaintext_bits_le(input))
    } else {
        network.spec_hash_poseidon(call.function, call.to_group, input)
    }
}

/// The raw result of the circuit primitive that `call` selects.
pub open spec fn circuit_hash_spec<V, A: Aleo<V>>(circuit: &A, call: HashCall, input: V) -> V {
    if call.function.takes_bits_spec() {
        circuit.spec_hash_to_group(call.function, input)
    } else {
        circuit.spec_hash_poseidon(call.function, call.to_group, input)
    }
}

/// The literal of a plaintext.
pub open spec fn plaintext_literal(p: Plaintext) -> Literal {
    match p {
        Plaintext::Literal(l) => l,
    }
}

impl<const VARIANT: u8> HashInstruction<VARIANT> {
    /// What a run of this instruction decides before it touches any operand.
    pub open spec fn plan(&self) -> Result<HashCall, HashError> {
        plan_spec(VARIANT, self.operands@.len(), self.destination_type)
    }

    /// The outcome of a native run on the store `regs`, and the store after
    /// it: validation and dispatch, then a load of the first operand, the
    /// selected primitive, the cast to the destination type and a store at
    /// the destination. The first error is returned as it came, and on any
    /// error the store is left as it was.
    pub open spec fn evaluate_spec<N: Network, R: Registers<Plaintext>>(&self, network: &N, regs: R) -> (Result<(), HashError>, R) {
        match self.plan() {
            Err(e) => (Err(e), regs),
            Ok(call) => match regs.spec_load(self.operands@[0]) {
                Err(e) => (Err(e), regs),
                Ok(input) => match native_hash_spec(network, call, input) {
                    Err(e) => (Err(e), regs),
                    Ok(raw) => match network.spec_downcast(raw, self.destination_type) {
                        Err(e) => (Err(e), regs),
                        Ok(out) => match regs.spec_store(self.destination, Plaintext::Literal(out)) {
                            Err(e) => (Err(e), regs),
                            Ok(next) => (Ok(()), next),
                        },
                    },
                },
            },
        }
    }

    /// The value that a circuit run casts and stores, given the loaded value
    /// `input`: the selected primitive's result cast to the destination type.
    pub open spec fn execute_value_spec<V, A: Aleo<V>>(&self, circuit: &A, call: HashCall, input: V) -> Result<V, HashError> {
        circuit.spec_downcast(circuit_hash_spec(circuit, call, input), self.destination_type)
    }

    /// The outcome of a circuit run on the store `regs`, and the store after
    /// it, step for step as `evaluate_spec`.
    pub open spec fn execute_spec<V, A: Aleo<V>, R: Registers<V>>(&self, circuit: &A, regs: R) -> (Result<(), HashError>, R) {
        match self.plan() {
            Err(e) => (Err(e), regs),
            Ok(call) => match regs.spec_load(self.operands@[0]) {
                Err(e) => (Err(e), regs),
                Ok(input) => match self.execute_value_spec(circuit, call, input) {
                    Err(e) => (Err(e), regs),
                    Ok(out) => match regs.spec_store(self.destination, out) {
                        Err(e) => (Err(e), regs),
                        Ok(next) => (Ok(()), next),
                    },
                },
            },
        }
    }

    /// Initializes a new `hash` instruction: fails on a variant of 12 or
    /// more, on an operand count that the variant does not take, and on a
    /// boolean or string destination type.
    pub fn new(operands: Vec<Operand>, destination: Register, destination_type: LiteralType) -> (r: Result<Self, HashError>)
        ensures
            validate_spec(VARIANT, operands@.len(), destination_type) is Ok <==> r is Ok,
            r is Err ==> r == Err::<Self, HashError>(validate_spec(VARIANT, operands@.len(), destination_type)->Err_0),
            r is Ok ==> r->Ok_0.operands@ == operands@ && r->Ok_0.destination == destination && r->Ok_0.destination_type == destination_type,
    {
        match validate(VARIANT, operands.len(), destination_type) {
            Err(e) => Err(e),
            Ok(_) => Ok(HashInstruction { operands, destination, destination_type }),
        }
    }

    /// Returns the operands.
    pub fn operands(&self) -> (r: &[Operand])
        ensures
            r@ == self.operands@,
    {
        self.operands.as_slice()
    }

    /// Returns the destination registers: the one destination.
    pub fn destinations(&self) -> (r: Vec<Register>)
        ensures
            r@ == seq![self.destination],
    {
        let r = vec![self.destination];
        r
    }

    /// Returns the destination register type.
    pub fn destination_type(&self) -> (r: LiteralType)
        ensures
            r == self.destination_type,
    {
        self.destination_type
    }

    /// Validates the instruction again and selects its primitive call,
    /// before any operand is read.
    pub fn plan_call(&self) -> (r: Result<HashCall, HashError>)
        ensures
            r == self.plan(),
    {
        match validate(VARIANT, self.operands.len(), self.destination_type) {
            Err(e) => Err(e),
            Ok(_) => dispatch(VARIANT, self.destination_type),
        }
    }

    /// Evaluates the instruction on native values: loads the operand, hashes
    /// what `hash_input` makes of it with the selected primitive, casts the
    /// result to the destination type and stores it. Every failure of validation or dispatch comes
    /// before the store is touched.
    pub fn evaluate<N: Network, R: Registers<Plaintext>>(&self, network: &N, registers: &mut R) -> (r: Result<(), HashError>)
        ensures
            (r, *final(registers)) == self.evaluate_spec(network, *old(registers)),
            r is Ok ==> exists|out: Literal| model_type(out.model()) == self.destination_type
                && old(registers).spec_store(self.destination, Plaintext::Literal(out)) == Ok::<R, HashError>(*final(registers)),
            self.plan() is Err ==> r == Err::<(), HashError>(self.plan()->Err_0) && *final(registers) == *old(registers),
            r is Ok ==> self.plan() is Ok,
    {
        let call = match self.plan_call() {
            Err(e) => return Err(e),
            Ok(c) => c,
        };
        let input = registers.load(&self.operands[0])?;
        let output = match hash_input(call, input) {
            HashInput::Bits(bits) => network.hash_to_group(call.function, &bits)?,
            HashInput::Value(value) => network.hash_poseidon(call.function, call.to_group, &value)?,
        };
        let output = network.downcast_lossy(output, self.destination_type)?;
        registers.store(&self.destination, Plaintext::Literal(output))
    }

    /// Executes the instruction in a circuit: the same validation and
    /// dispatch as `evaluate`, with the circuit's primitives.
    pub fn execute<V, A: Aleo<V>, R: Registers<V>>(&self, circuit: &A, registers: &mut R) -> (r: Result<(), HashError>)
        ensures
            (r, *final(registers)) == self.execute_spec(circuit, *old(registers)),
            r is Ok ==> exists|out: V| A::spec_type_of(out) == self.destination_type
                && old(registers).spec_store(self.destination, out) == Ok::<R, HashError>(*final(registers)),
            self.plan() is Err ==> r == Err::<(), HashError>(self.plan()->Err_0) && *final(registers) == *old(registers),
            r is Ok ==> self.plan() is Ok,
    {
        let call = match self.plan_call() {
            Err(e) => return Err(e),
            Ok(c) => c,
        };
        let input = registers.load(&self.operands[0])?;
        let output = if call.function.takes_bits() {
            circuit.hash_to_group(call.function, &input)
        } else {
            circuit.hash_poseidon(call.function, call.to_group, &input)
        };
        let output = circuit.downcast_lossy(output, self.destination_type)?;
        registers.store(&self.destination, output)
    }

    /// Finalizes the instruction: the same as `evaluate`, with the same
    /// result and the same store afterwards.
    pub fn finalize<N: Network, R: Registers<Plaintext>>(&self, network: &N, registers: &mut R) -> (r: Result<(), HashError>)
        ensures
            (r, *final(registers)) == self.evaluate_spec(network, *old(registers)),
            r is Ok ==> exists|out: Literal| model_type(out.model()) == self.destination_type
                && old(registers).spec_store(self.destination, Plaintext::Literal(out)) == Ok::<R, HashError>(*final(registers)),
            self.plan() is Err ==> r == Err::<(), HashError>(self.plan()->Err_0) && *final(registers) == *old(registers),
            r is Ok ==> self.plan() is Ok,
    {
        self.evaluate(network, registers)
    }

    /// Returns the output types for the given input types: the destination
    /// type, for a non-batched variant whose checks pass.
    pub fn output_types<T>(&self, input_types: &[T]) -> (r: Result<Vec<LiteralType>, HashError>)
        ensures
            VARIANT >= 12 ==> r == Err::<Vec<LiteralType>, HashError>(HashError::InvalidVariant),
            VARIANT < 12 && input_types@.len() != expected_operands_spec(VARIANT) ==> r == Err::<Vec<LiteralType>, HashError>(HashError::OperandCount),
            VARIANT < 12 && input_types@.len() == expected_operands_spec(VARIANT) ==> match self.plan() {
                Err(e) => r == Err::<Vec<LiteralType>, HashError>(e),
                Ok(_) => r is Ok && r->Ok_0@ == seq![self.destination_type],
            },
    {
        if VARIANT >= 12 {
            return Err(HashError::InvalidVariant);
        }
        check_number_of_operands(VARIANT, input_types.len())?;
        match self.plan_call() {
            Err(e) => Err(e),
            Ok(_) => {
                let r = vec![self.destination_type];
                Ok(r)
            },
        }
    }
}

/// Native evaluation and circuit execution make the same decisions: both
/// succeed only past `plan_spec`, fail with its error where it fails, and
/// call the primitive it selects. A run gets past it exactly for tags 0 to 8
/// with one operand and a destination type other than boolean or string;
/// BHP and Pedersen always hash to a group element, and Poseidon does so
/// exactly for an address or group destination.
pub proof fn lemma_plan(variant: u8, num_operands: nat, t: LiteralType)
    ensures
        plan_spec(variant, num_operands, t) is Ok <==> (variant <= 8 && num_operands == 1 && valid_destination_spec(t)),
        plan_spec(variant, num_operands, t) is Ok ==> plan_spec(variant, num_operands, t) == dispatch_spec(variant, t),
        plan_spec(variant, num_operands, t) is Ok && variant <= 5 ==> plan_spec(variant, num_operands, t)->Ok_0.to_group
            && plan_spec(variant, num_operands, t)->Ok_0.function.takes_bits_spec(),
        plan_spec(variant, num_operands, t) is Ok && 6 <= variant ==> (plan_spec(variant, num_operands, t)->Ok_0.to_group
            <==> (t is Address || t is Group)) && !plan_spec(variant, num_operands, t)->Ok_0.function.takes_bits_spec(),
{
}

/// The batched tags 9 to 11 never get past validation and dispatch, for any
/// operands and destination type; with two operands and a valid destination
/// type they fail as not implemented.
pub proof fn lemma_batched_fails(variant: u8, num_operands: nat, t: LiteralType)
    requires
        is_batched(variant),
    ensures
        plan_spec(variant, num_operands, t) is Err,
        num_operands == 2 && valid_destination_spec(t) ==> plan_spec(variant, num_operands, t) == Err::<HashCall, HashError>(HashError::NotImplemented),
{
}

/// A tag of 12 or more fails as an invalid variant before anything else is
/// looked at: at construction, at validation and dispatch, and in opcode
/// lookup.
pub proof fn lemma_invalid_variant_fails(variant: u8, num_operands: nat, t: LiteralType)
    requires
        variant >= 12,
    ensures
        validate_spec(variant, num_operands, t) == Err::<(), HashError>(HashError::InvalidVariant),
        plan_spec(variant, num_operands, t) == Err::<HashCall, HashError>(HashError::InvalidVariant),
        crate::text::opcode_spec(variant) is None,
{
}

/// Construction with a boolean or string destination type fails for every
/// variant and every operand count.
pub proof fn lemma_invalid_destination_fails(variant: u8, num_operands: nat, t: LiteralType)
    requires
        t is Boolean || t is String,
    ensures
        validate_spec(variant, num_operands, t) is Err,
        variant < 12 && num_operands == expected_operands_spec(variant)
            ==> validate_spec(variant, num_operands, t) == Err::<(), HashError>(HashError::InvalidDestinationType),
{
}

/// Construction fails on an operand count other than one for tags 0 to 8,
/// and other than two for tags 9 to 11.
pub proof fn lemma_operand_count(variant: u8, num_operands: nat, t: LiteralType)
    requires
        variant < 12,
        (variant <= 8 && num_operands != 1) || (is_batched(variant) && num_operands != 2),
    ensures
        validate_spec(variant, num_operands, t) == Err::<(), HashError>(HashError::OperandCount),
{
}

/// Native evaluation and circuit execution agree. Let `eject` read a circuit
/// value as a plaintext, and let the circuit's store, primitives and cast
/// correspond to the native ones under it: the circuit loads what ejects to
/// the native load (or fails alike), its primitive ejects to the native
/// primitive's result on the ejected input, its cast succeeds exactly where
/// the native one does and ejects to the same literal (or fails alike), and
/// its store succeeds exactly where the native store of the ejected value
/// does (or fails alike). Then both runs give the same result, and on
/// success the native store is the one that storing the ejected circuit
/// result gives.
pub proof fn lemma_evaluate_execute_agree<const VARIANT: u8, N: Network, R: Registers<Plaintext>, V, A: Aleo<V>, C: Registers<V>>(
    instr: &HashInstruction<VARIANT>,
    network: &N,
    regs: R,
    circuit: &A,
    cregs: C,
    eject: spec_fn(V) -> Plaintext,
)
    requires
        instr.plan() is Ok ==> match regs.spec_load(instr.operands@[0]) {
            Ok(p) => cregs.spec_load(instr.operands@[0]) is Ok && eject(cregs.spec_load(instr.operands@[0])->Ok_0) == p,
            Err(e) => cregs.spec_load(instr.operands@[0]) == Err::<V, HashError>(e),
        },
        forall|x: V| instr.plan() is Ok ==> native_hash_spec(network, instr.plan()->Ok_0, eject(x))
            == Ok::<Literal, HashError>(plaintext_literal(eject(#[trigger] circuit_hash_spec(circuit, instr.plan()->Ok_0, x)))),
        forall|y: V| match network.spec_downcast(plaintext_literal(eject(y)), instr.destination_type) {
            Ok(l) => (#[trigger] circuit.spec_downcast(y, instr.destination_type)) is Ok
                && eject(circuit.spec_downcast(y, instr.destination_type)->Ok_0) == Plaintext::Literal(l),
            Err(e) => circuit.spec_downcast(y, instr.destination_type) == Err::<V, HashError>(e),
        },
        forall|z: V| match regs.spec_store(instr.destination, eject(z)) {
            Ok(_) => (#[trigger] cregs.spec_store(instr.destination, z)) is Ok,
            Err(e) => cregs.spec_store(instr.destination, z) == Err::<C, HashError>(e),
        },
    ensures
        instr.evaluate_spec(network, regs).0 == instr.execute_spec(circuit, cregs).0,
        instr.evaluate_spec(network, regs).0 is Ok ==> instr.evaluate_spec(network, regs).1 == regs.spec_store(
            instr.destination,
            eject(instr.execute_value_spec(circuit, instr.plan()->Ok_0, cregs.spec_load(instr.operands@[0])->Ok_0)->Ok_0),
        )->Ok_0,
{
    if instr.plan() is Ok {
        let call = instr.plan()->Ok_0;
        let op = instr.operands@[0];
        if cregs.spec_load(op) is Ok {
            let x = cregs.spec_load(op)->Ok_0;
            let y = circuit_hash_spec(circuit, call, x);
            assert(native_hash_spec(network, call, eject(x)) == Ok::<Literal, HashError>(plaintext_literal(eject(y))));
            let c = circuit.spec_downcast(y, instr.destination_type);
            if c is Ok {
                let z = c->Ok_0;
                assert(cregs.spec_store(instr.destination, z) is Ok
                    <==> regs.spec_store(instr.destination, eject(z)) is Ok);
            }
        }
    }
}

} // verus!
