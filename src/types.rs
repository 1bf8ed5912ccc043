use vstd::prelude::*;

verus! {

/// The static type of a literal value.
#[derive(Clone, Copy, Debug, PartialEq, Eq, Structural)]
pub enum LiteralType {
    Address,
    Boolean,
    Field,
    Group,
    I8,
    I16,
    I32,
    I64,
    I128,
    U8,
    U16,
    U32,
    U64,
    U128,
    Scalar,
    String,
}

/// The wire tag of each literal type, in declaration order.
pub open spec fn type_index(t: LiteralType) -> u8 {
    match t {
        LiteralType::Address => 0,
        LiteralType::Boolean => 1,
        LiteralType::Field => 2,
        LiteralType::Group => 3,
        LiteralType::I8 => 4,
        LiteralType::I16 => 5,
        LiteralType::I32 => 6,
        LiteralType::I64 => 7,
        LiteralType::I128 => 8,
        LiteralType::U8 => 9,
        LiteralType::U16 => 10,
        LiteralType::U32 => 11,
        LiteralType::U64 => 12,
        LiteralType::U128 => 13,
        LiteralType::Scalar => 14,
        LiteralType::String => 15,
    }
}

/// The literal type carrying wire tag `i`, if any.
pub open spec fn type_of_index(i: u8) -> Option<LiteralType> {
    if i == 0 { Some(LiteralType::Address) }
    else if i == 1 { Some(LiteralType::Boolean) }
    else if i == 2 { Some(LiteralType::Field) }
    else if i == 3 { Some(LiteralType::Group) }
    else if i == 4 { Some(LiteralType::I8) }
    else if i == 5 { Some(LiteralType::I16) }
    else if i == 6 { Some(LiteralType::I32) }
    else if i == 7 { Some(LiteralType::I64) }
    else if i == 8 { Some(LiteralType::I128) }
    else if i == 9 { Some(LiteralType::U8) }
    else if i == 10 { Some(LiteralType::U16) }
    else if i == 11 { Some(LiteralType::U32) }
    else if i == 12 { Some(LiteralType::U64) }
    else if i == 13 { Some(LiteralType::U128) }
    else if i == 14 { Some(LiteralType::Scalar) }
    else if i == 15 { Some(LiteralType::String) }
    else { None }
}

/// The keyword that names each literal type in instruction text.
pub open spec fn keyword_of(t: LiteralType) -> Seq<u8> {
    match t {
        LiteralType::Address => seq![97u8, 100, 100, 114, 101, 115, 115] /* address */,
        LiteralType::Boolean => seq![98u8, 111, 111, 108, 101, 97, 110] /* boolean */,
        LiteralType::Field => seq![102u8, 105, 101, 108, 100] /* field */,
        LiteralType::Group => seq![103u8, 114, 111, 117, 112] /* group */,
        LiteralType::I8 => seq![105u8, 56] /* i8 */,
        LiteralType::I16 => seq![105u8, 49, 54] /* i16 */,
        LiteralType::I32 => seq![105u8, 51, 50] /* i32 */,
        LiteralType::I64 => seq![105u8, 54, 52] /* i64 */,
        LiteralType::I128 => seq![105u8, 49, 50, 56] /* i128 */,
        LiteralType::U8 => seq![117u8, 56] /* u8 */,
        LiteralType::U16 => seq![117u8, 49, 54] /* u16 */,
        LiteralType::U32 => seq![117u8, 51, 50] /* u32 */,
        LiteralType::U64 => seq![117u8, 54, 52] /* u64 */,
        LiteralType::U128 => seq![117u8, 49, 50, 56] /* u128 */,
        LiteralType::Scalar => seq![115u8, 99, 97, 108, 97, 114] /* scalar */,
        LiteralType::String => seq![115u8, 116, 114, 105, 110, 103] /* string */,
    }
}

/// Whether `t` may be declared as the destination type of a hash instruction.
pub open spec fn valid_destination_spec(t: LiteralType) -> bool {
    !(t is Boolean || t is String)
}

/// Returns `true` if the destination type is valid: neither boolean nor string.
pub fn is_valid_destination_type(destination_type: LiteralType) -> (r: bool)
    ensures
        r == valid_destination_spec(destination_type),
{
    !matches!(destination_type, LiteralType::Boolean | LiteralType::String)
}

impl LiteralType {
    /// The wire tag of this type.
    pub fn index(&self) -> (r: u8)
        ensures
            r == type_index(*self),
            r < 16,
    {
        match self {
            LiteralType::Address => 0,
            LiteralType::Boolean => 1,
            LiteralType::Field => 2,
            LiteralType::Group => 3,
            LiteralType::I8 => 4,
            LiteralType::I16 => 5,
            LiteralType::I32 => 6,
            LiteralType::I64 => 7,
            LiteralType::I128 => 8,
            LiteralType::U8 => 9,
            LiteralType::U16 => 10,
            LiteralType::U32 => 11,
            LiteralType::U64 => 12,
            LiteralType::U128 => 13,
            LiteralType::Scalar => 14,
            LiteralType::String => 15,
        }
    }

    /// The type carrying the wire tag `i`, or `None` for a tag of 16 or more.
    pub fn from_index(i: u8) -> (r: Option<LiteralType>)
        ensures
            r == type_of_index(i),
    {
        if i == 0 { Some(LiteralType::Address) }
        else if i == 1 { Some(LiteralType::Boolean) }
        else if i == 2 { Some(LiteralType::Field) }
        else if i == 3 { Some(LiteralType::Group) }
        else if i == 4 { Some(LiteralType::I8) }
        else if i == 5 { Some(LiteralType::I16) }
        else if i == 6 { Some(LiteralType::I32) }
        else if i == 7 { Some(LiteralType::I64) }
        else if i == 8 { Some(LiteralType::I128) }
        else if i == 9 { Some(LiteralType::U8) }
        else if i == 10 { Some(LiteralType::U16) }
        else if i == 11 { Some(LiteralType::U32) }
        else if i == 12 { Some(LiteralType::U64) }
        else if i == 13 { Some(LiteralType::U128) }
        else if i == 14 { Some(LiteralType::Scalar) }
        else if i == 15 { Some(LiteralType::String) }
        else { None }
    }

    /// The keyword of this type, as ASCII bytes.
    pub fn name_bytes(&self) -> (r: Vec<u8>)
        ensures
            r@ == keyword_of(*self),
    {
        match self {
            LiteralType::Address => vec![97u8, 100, 100, 114, 101, 115, 115] /* address */,
            LiteralType::Boolean => vec![98u8, 111, 111, 108, 101, 97, 110] /* boolean */,
            LiteralType::Field => vec![102u8, 105, 101, 108, 100] /* field */,
            LiteralType::Group => vec![103u8, 114, 111, 117, 112] /* group */,
            LiteralType::I8 => vec![105u8, 56] /* i8 */,
            LiteralType::I16 => vec![105u8, 49, 54] /* i16 */,
            LiteralType::I32 => vec![105u8, 51, 50] /* i32 */,
            LiteralType::I64 => vec![105u8, 54, 52] /* i64 */,
            LiteralType::I128 => vec![105u8, 49, 50, 56] /* i128 */,
            LiteralType::U8 => vec![117u8, 56] /* u8 */,
            LiteralType::U16 => vec![117u8, 49, 54] /* u16 */,
            LiteralType::U32 => vec![117u8, 51, 50] /* u32 */,
            LiteralType::U64 => vec![117u8, 54, 52] /* u64 */,
            LiteralType::U128 => vec![117u8, 49, 50, 56] /* u128 */,
            LiteralType::Scalar => vec![115u8, 99, 97, 108, 97, 114] /* scalar */,
            LiteralType::String => vec![115u8, 116, 114, 105, 110, 103] /* string */,
        }
    }
}

/// A register: an addressable location of the value store.
#[derive(Clone, Copy, Debug, PartialEq, Eq, Structural)]
pub enum Register {
    Locator(u64),
}

/// An operand: a register to read, or an inline constant.
#[derive(Clone, Debug, PartialEq, Eq)]
pub enum Operand {
    Register(Register),
    Literal(Literal),
}

/// A literal value. Field, group, address and scalar elements are held as
/// their canonical little-endian bits; a string as its UTF-8 bytes.
#[derive(Clone, Debug, PartialEq, Eq)]
pub enum Literal {
    Address(Vec<bool>),
    Boolean(bool),
    Field(Vec<bool>),
    Group(Vec<bool>),
    I8(i8),
    I16(i16),
    I32(i32),
    I64(i64),
    I128(i128),
    U8(u8),
    U16(u16),
    U32(u32),
    U64(u64),
    U128(u128),
    Scalar(Vec<bool>),
    String(Vec<u8>),
}

/// The mathematical value of a literal: its bits and bytes as sequences.
pub enum LiteralModel {
    Address(Seq<bool>),
    Boolean(bool),
    Field(Seq<bool>),
    Group(Seq<bool>),
    I8(i8),
    I16(i16),
    I32(i32),
    I64(i64),
    I128(i128),
    U8(u8),
    U16(u16),
    U32(u32),
    U64(u64),
    U128(u128),
    Scalar(Seq<bool>),
    String(Seq<u8>),
}

/// The mathematical value of an operand.
pub enum OperandModel {
    Register(Register),
    Literal(LiteralModel),
}

impl Literal {
    /// This literal's value.
    pub open spec fn model(self) -> LiteralModel {
        match self {
            Literal::Address(b) => LiteralModel::Address(b@),
            Literal::Boolean(b) => LiteralModel::Boolean(b),
            Literal::Field(b) => LiteralModel::Field(b@),
            Literal::Group(b) => LiteralModel::Group(b@),
            Literal::I8(v) => LiteralModel::I8(v),
            Literal::I16(v) => LiteralModel::I16(v),
            Literal::I32(v) => LiteralModel::I32(v),
            Literal::I64(v) => LiteralModel::I64(v),
            Literal::I128(v) => LiteralModel::I128(v),
            Literal::U8(v) => LiteralModel::U8(v),
            Literal::U16(v) => LiteralModel::U16(v),
            Literal::U32(v) => LiteralModel::U32(v),
            Literal::U64(v) => LiteralModel::U64(v),
            Literal::U128(v) => LiteralModel::U128(v),
            Literal::Scalar(b) => LiteralModel::Scalar(b@),
            Literal::String(s) => LiteralModel::String(s@),
        }
    }
}

impl Operand {
    /// This operand's value.
    pub open spec fn model(self) -> OperandModel {
        match self {
            Operand::Register(r) => OperandModel::Register(r),
            Operand::Literal(l) => OperandModel::Literal(l.model()),
        }
    }
}

/// The values of a list of operands.
pub open spec fn operands_model(ops: Seq<Operand>) -> Seq<OperandModel> {
    ops.map_values(|o: Operand| o.model())
}

/// What can go wrong while building, decoding or running a hash instruction.
#[derive(Clone, Copy, Debug, PartialEq, Eq, Structural)]
pub enum HashError {
    /// The instruction holds a number of operands other than its variant expects.
    OperandCount,
    /// The destination type is boolean or string.
    InvalidDestinationType,
    /// The variant is a batched hash, which is not implemented.
    NotImplemented,
    /// The variant tag names no hash function.
    InvalidVariant,
    /// A bounded hasher was given more bits than it accepts.
    InputTooLarge,
    /// A bounded hasher does not accept this kind of value.
    UnsupportedInput,
    /// The instruction text is malformed.
    Parse,
    /// A constant's word, as the caller's `ConstantText` spells it, is
    /// empty or holds whitespace or a non-ASCII byte.
    InlineConstant,
    /// The byte stream is malformed or ends early.
    Decode,
    /// The value store failed.
    Store,
    /// A hash primitive failed.
    Primitive,
    /// The hash result cannot be represented as the destination type.
    Downcast,
}

} // verus!
