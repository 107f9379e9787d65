//! Which machine instruction each operator of the checked language becomes:
//! the decisions of code generation, apart from the building of IR.
use vstd::prelude::*;

use crate::ast::{CiprType, SpecType};
use crate::token::TokenType;

verus! {

/// An integer comparison, as the predicates of LLVM name them (signed).
#[derive(Debug, Clone, Copy, PartialEq, Eq, Structural)]
pub enum IntCompare {
    Eq,
    Ne,
    Slt,
    Sle,
    Sgt,
    Sge,
}

/// An ordered floating-point comparison.
#[derive(Debug, Clone, Copy, PartialEq, Eq, Structural)]
pub enum FloatCompare {
    Oeq,
    One,
    Olt,
    Ole,
    Ogt,
    Oge,
}

/// The instruction that a binary operator becomes.
#[derive(Debug, Clone, Copy, PartialEq, Eq, Structural)]
pub enum BinaryInstr {
    IntAdd,
    IntSub,
    IntMul,
    IntSignedDiv,
    IntCompare(IntCompare),
    FloatAdd,
    FloatSub,
    FloatMul,
    FloatDiv,
    FloatCompare(FloatCompare),
    /// Both pointers are turned into 64-bit integers and compared.
    PointerCompare(IntCompare),
}

/// Why a binary operator has no instruction: the operator is not one that
/// the operands' type supports, or the operands' type has none.
#[derive(Debug, Clone, Copy, PartialEq, Eq, Structural)]
pub enum UnsupportedBinary {
    IntOp,
    FloatOp,
    BoolOp,
    PointerOp,
    OperandType,
}

/// The comparison that a comparison operator is, where it is one.
pub open spec fn compare_of(op: TokenType) -> Option<IntCompare> {
    match op {
        TokenType::EqualEqual => Some(IntCompare::Eq),
        TokenType::BangEqual => Some(IntCompare::Ne),
        TokenType::Less => Some(IntCompare::Slt),
        TokenType::LessEqual => Some(IntCompare::Sle),
        TokenType::Greater => Some(IntCompare::Sgt),
        TokenType::GreaterEqual => Some(IntCompare::Sge),
        _ => None,
    }
}

/// The ordered floating-point form of an integer comparison.
pub open spec fn float_compare_of(c: IntCompare) -> FloatCompare {
    match c {
        IntCompare::Eq => FloatCompare::Oeq,
        IntCompare::Ne => FloatCompare::One,
        IntCompare::Slt => FloatCompare::Olt,
        IntCompare::Sle => FloatCompare::Ole,
        IntCompare::Sgt => FloatCompare::Ogt,
        IntCompare::Sge => FloatCompare::Oge,
    }
}

/// The instruction for `op` on operands of type `operand` (the left
/// operand's type): integer arithmetic (signed division) and signed
/// comparisons on integers, floating-point arithmetic and ordered
/// comparisons on floats, equality only on booleans and on pointers.
pub open spec fn binary_instr_spec(op: TokenType, operand: SpecType) -> Result<BinaryInstr, UnsupportedBinary> {
    match operand {
        SpecType::Int => match op {
            TokenType::Plus => Ok(BinaryInstr::IntAdd),
            TokenType::Minus => Ok(BinaryInstr::IntSub),
            TokenType::Star => Ok(BinaryInstr::IntMul),
            TokenType::Slash => Ok(BinaryInstr::IntSignedDiv),
            _ => match compare_of(op) {
                Some(c) => Ok(BinaryInstr::IntCompare(c)),
                None => Err(UnsupportedBinary::IntOp),
            },
        },
        SpecType::Float => match op {
            TokenType::Plus => Ok(BinaryInstr::FloatAdd),
            TokenType::Minus => Ok(BinaryInstr::FloatSub),
            TokenType::Star => Ok(BinaryInstr::FloatMul),
            TokenType::Slash => Ok(BinaryInstr::FloatDiv),
            _ => match compare_of(op) {
                Some(c) => Ok(BinaryInstr::FloatCompare(float_compare_of(c))),
                None => Err(UnsupportedBinary::FloatOp),
            },
        },
        SpecType::Bool => match op {
            TokenType::EqualEqual => Ok(BinaryInstr::IntCompare(IntCompare::Eq)),
            TokenType::BangEqual => Ok(BinaryInstr::IntCompare(IntCompare::Ne)),
            _ => Err(UnsupportedBinary::BoolOp),
        },
        SpecType::Pointer(_) => match op {
            TokenType::EqualEqual => Ok(BinaryInstr::PointerCompare(IntCompare::Eq)),
            TokenType::BangEqual => Ok(BinaryInstr::PointerCompare(IntCompare::Ne)),
            _ => Err(UnsupportedBinary::PointerOp),
        },
        _ => Err(UnsupportedBinary::OperandType),
    }
}

fn compare_instr(op: TokenType) -> (r: Option<IntCompare>)
    ensures
        r == compare_of(op),
{
    match op {
        TokenType::EqualEqual => Some(IntCompare::Eq),
        TokenType::BangEqual => Some(IntCompare::Ne),
        TokenType::Less => Some(IntCompare::Slt),
        TokenType::LessEqual => Some(IntCompare::Sle),
        TokenType::Greater => Some(IntCompare::Sgt),
        TokenType::GreaterEqual => Some(IntCompare::Sge),
        _ => None,
    }
}

fn float_compare(c: IntCompare) -> (r: FloatCompare)
    ensures
        r == float_compare_of(c),
{
    match c {
        IntCompare::Eq => FloatCompare::Oeq,
        IntCompare::Ne => FloatCompare::One,
        IntCompare::Slt => FloatCompare::Olt,
        IntCompare::Sle => FloatCompare::Ole,
        IntCompare::Sgt => FloatCompare::Ogt,
        IntCompare::Sge => FloatCompare::Oge,
    }
}

/// The instruction that code generation emits for `op` whose left operand
/// has type `operand`, by [`binary_instr_spec`].
pub fn binary_instruction(op: TokenType, operand: &CiprType) -> (r: Result<BinaryInstr, UnsupportedBinary>)
    ensures
        r == binary_instr_spec(op, operand@),
{
    match operand {
        CiprType::Int => match op {
            TokenType::Plus => Ok(BinaryInstr::IntAdd),
            TokenType::Minus => Ok(BinaryInstr::IntSub),
            TokenType::Star => Ok(BinaryInstr::IntMul),
            TokenType::Slash => Ok(BinaryInstr::IntSignedDiv),
            _ => match compare_instr(op) {
                Some(c) => Ok(BinaryInstr::IntCompare(c)),
                None => Err(UnsupportedBinary::IntOp),
            },
        },
        CiprType::Float => match op {
            TokenType::Plus => Ok(BinaryInstr::FloatAdd),
            TokenType::Minus => Ok(BinaryInstr::FloatSub),
            TokenType::Star => Ok(BinaryInstr::FloatMul),
            TokenType::Slash => Ok(BinaryInstr::FloatDiv),
            _ => match compare_instr(op) {
                Some(c) => Ok(BinaryInstr::FloatCompare(float_compare(c))),
                None => Err(UnsupportedBinary::FloatOp),
            },
        },
        CiprType::Bool => match op {
            TokenType::EqualEqual => Ok(BinaryInstr::IntCompare(IntCompare::Eq)),
            TokenType::BangEqual => Ok(BinaryInstr::IntCompare(IntCompare::Ne)),
            _ => Err(UnsupportedBinary::BoolOp),
        },
        CiprType::Pointer(_) => match op {
            TokenType::EqualEqual => Ok(BinaryInstr::PointerCompare(IntCompare::Eq)),
            TokenType::BangEqual => Ok(BinaryInstr::PointerCompare(IntCompare::Ne)),
            _ => Err(UnsupportedBinary::PointerOp),
        },
        _ => Err(UnsupportedBinary::OperandType),
    }
}

/// What the end of a function body that code generation reached calls for.
#[derive(Debug, Clone, Copy, PartialEq, Eq, Structural)]
pub enum BodyEnd {
    /// The last block already ends in a terminator.
    Closed,
    /// The function returns nothing: an implicit `ret void` closes it.
    ReturnVoid,
    /// The function returns a value yet may fall off its end: an error.
    MissingReturn,
}

/// How a function body whose return type is `ret` ends, where its last
/// block has a terminator as `has_terminator` says.
pub fn implicit_return(ret: &CiprType, has_terminator: bool) -> (e: BodyEnd)
    ensures
        has_terminator ==> e == BodyEnd::Closed,
        !has_terminator && ret@ == SpecType::Void ==> e == BodyEnd::ReturnVoid,
        !has_terminator && ret@ != SpecType::Void ==> e == BodyEnd::MissingReturn,
{
    if has_terminator {
        BodyEnd::Closed
    } else {
        match ret {
            CiprType::Void => BodyEnd::ReturnVoid,
            _ => BodyEnd::MissingReturn,
        }
    }
}

/// What a signed integer comparison of the target machine decides of two
/// numbers.
pub open spec fn int_compare_holds(c: IntCompare, a: int, b: int) -> bool {
    match c {
        IntCompare::Eq => a == b,
        IntCompare::Ne => a != b,
        IntCompare::Slt => a < b,
        IntCompare::Sle => a <= b,
        IntCompare::Sgt => a > b,
        IntCompare::Sge => a >= b,
    }
}

/// What an ordered floating-point comparison of the target machine decides
/// of two numbers that are not NaN (here taken among the integers, which
/// they order as the reals do).
pub open spec fn float_compare_holds(c: FloatCompare, a: int, b: int) -> bool {
    match c {
        FloatCompare::Oeq => a == b,
        FloatCompare::One => a != b,
        FloatCompare::Olt => a < b,
        FloatCompare::Ole => a <= b,
        FloatCompare::Ogt => a > b,
        FloatCompare::Oge => a >= b,
    }
}

/// What a comparison operator of the language means of two numbers.
pub open spec fn operator_holds(op: TokenType, a: int, b: int) -> bool {
    match op {
        TokenType::EqualEqual => a == b,
        TokenType::BangEqual => a != b,
        TokenType::Less => a < b,
        TokenType::LessEqual => a <= b,
        TokenType::Greater => a > b,
        TokenType::GreaterEqual => a >= b,
        _ => false,
    }
}

/// Whether `op` is one of the six comparison operators.
pub open spec fn is_comparison(op: TokenType) -> bool {
    op == TokenType::EqualEqual || op == TokenType::BangEqual || op == TokenType::Less || op == TokenType::LessEqual
        || op == TokenType::Greater || op == TokenType::GreaterEqual
}

/// A comparison lowers to an instruction that decides the same relation as
/// the operator: on integers a signed comparison, on floats an ordered
/// one, whatever the two numbers compared; booleans and pointers compare
/// for equality and inequality alone, as `==` and `!=` mean.
pub proof fn law_comparisons_keep_their_meaning(op: TokenType, a: int, b: int)
    requires
        is_comparison(op),
    ensures
        binary_instr_spec(op, SpecType::Int) matches Ok(BinaryInstr::IntCompare(c)) && int_compare_holds(c, a, b)
            == operator_holds(op, a, b),
        binary_instr_spec(op, SpecType::Float) matches Ok(BinaryInstr::FloatCompare(f)) && float_compare_holds(f, a, b)
            == operator_holds(op, a, b),
        (op == TokenType::EqualEqual || op == TokenType::BangEqual) ==> (binary_instr_spec(op, SpecType::Bool) matches Ok(
            BinaryInstr::IntCompare(c),
        ) && int_compare_holds(c, a, b) == operator_holds(op, a, b)),
        (op == TokenType::EqualEqual || op == TokenType::BangEqual) ==> (binary_instr_spec(
            op,
            SpecType::Pointer(Box::new(SpecType::Int)),
        ) matches Ok(BinaryInstr::PointerCompare(c)) && int_compare_holds(c, a, b) == operator_holds(op, a, b)),
{
}

/// What an arithmetic instruction computes of two numbers (division of
/// non-negative numbers by a positive one, where truncating and flooring
/// agree), for integers and for floats alike; `None` for the others.
pub open spec fn arithmetic_value(i: BinaryInstr, a: int, b: int) -> Option<int> {
    match i {
        BinaryInstr::IntAdd | BinaryInstr::FloatAdd => Some(a + b),
        BinaryInstr::IntSub | BinaryInstr::FloatSub => Some(a - b),
        BinaryInstr::IntMul | BinaryInstr::FloatMul => Some(a * b),
        BinaryInstr::IntSignedDiv | BinaryInstr::FloatDiv => if a >= 0 && b > 0 { Some(a / b) } else { None },
        _ => None,
    }
}

/// The arithmetic operators lower, on integers and on floats, to the
/// instruction that computes the same sum, difference, product or quotient
/// of the operands; booleans and pointers have no arithmetic.
pub proof fn law_arithmetic_keeps_its_meaning(a: int, b: int)
    ensures
        binary_instr_spec(TokenType::Plus, SpecType::Int) matches Ok(i) && arithmetic_value(i, a, b) == Some(a + b),
        binary_instr_spec(TokenType::Minus, SpecType::Int) matches Ok(i) && arithmetic_value(i, a, b) == Some(a - b),
        binary_instr_spec(TokenType::Star, SpecType::Int) matches Ok(i) && arithmetic_value(i, a, b) == Some(a * b),
        a >= 0 && b > 0 ==> (binary_instr_spec(TokenType::Slash, SpecType::Int) matches Ok(i) && arithmetic_value(i, a, b)
            == Some(a / b)),
        binary_instr_spec(TokenType::Plus, SpecType::Float) matches Ok(i) && arithmetic_value(i, a, b) == Some(a + b),
        binary_instr_spec(TokenType::Minus, SpecType::Float) matches Ok(i) && arithmetic_value(i, a, b) == Some(a - b),
        binary_instr_spec(TokenType::Star, SpecType::Float) matches Ok(i) && arithmetic_value(i, a, b) == Some(a * b),
        a >= 0 && b > 0 ==> (binary_instr_spec(TokenType::Slash, SpecType::Float) matches Ok(i) && arithmetic_value(
            i,
            a,
            b,
        ) == Some(a / b)),
        binary_instr_spec(TokenType::Plus, SpecType::Bool) is Err,
        binary_instr_spec(TokenType::Plus, SpecType::Pointer(Box::new(SpecType::Int))) is Err,
{
}

} // verus!
