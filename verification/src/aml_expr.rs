//! Expressions of AML: arithmetic and logic, conversions, references, buffers and
//! packages.
use vstd::prelude::*;
use crate::aml::{DebugObj, NameString, ParseError, SimpleName, SuperName, Target, debug_obj_at, name_string_at, simple_name_at, super_name_at, target_at};
use crate::aml_data::{ByteList, DataRefObj, List, byte_data, byte_data_at, byte_list_at, data_ref_obj_at, parsed, parsed_any, pkg_at, pkg_bounds};
use crate::aml_statement::{EventObj, MutexObj, event_obj_at, mutex_obj_at};
use crate::aml_term::{MethodInvocation, TermArg, method_invocation_at, term_arg_at};

verus! {

/// An expression.
#[derive(Debug)]
pub enum ExprOpcode {
    DefAcquire(DefAcquire),
    DefAdd(DefAdd),
    DefAnd(DefAnd),
    DefBuffer(DefBuffer),
    DefConcat(DefConcat),
    DefConcatRes(DefConcatRes),
    DefCondRefOf(DefCondRefOf),
    DefCopyObj(DefCopyObj),
    DefDecrement(DefDecrement),
    DefDerefOf(DefDerefOf),
    DefDivide(DefDivide),
    DefFindSetLeftBit(DefFindSetLeftBit),
    DefFindSetRightBit(DefFindSetRightBit),
    DefFromBcd(DefFromBcd),
    DefIncrement(DefIncrement),
    DefIndex(DefIndex),
    DefLAnd(DefLAnd),
    DefLEqual(DefLEqual),
    DefLGreater(DefLGreater),
    DefLGreaterEqual(DefLGreaterEqual),
    DefLLess(DefLLess),
    DefLLessEqual(DefLLessEqual),
    DefMid(DefMid),
    DefLNot(DefLNot),
    DefLNotEqual(DefLNotEqual),
    DefLoadTable(DefLoadTable),
    DefLOr(DefLOr),
    DefMatch(DefMatch),
    DefMod(DefMod),
    DefMultiply(DefMultiply),
    DefNAnd(DefNAnd),
    DefNOr(DefNOr),
    DefNot(DefNot),
    DefObjType(DefObjType),
    DefOr(DefOr),
    DefPkg(DefPkg),
    DefVarPkg(DefVarPkg),
    DefRefOf(DefRefOf),
    DefShiftLeft(DefShiftLeft),
    DefShiftRight(DefShiftRight),
    DefSizeOf(DefSizeOf),
    DefStore(DefStore),
    DefSubtract(DefSubtract),
    DefTimer(DefTimer),
    DefToBcd(DefToBcd),
    DefToBuffer(DefToBuffer),
    DefToDecimalString(DefToDecimalString),
    DefToHexString(DefToHexString),
    DefToInteger(DefToInteger),
    DefToString(DefToString),
    DefWait(DefWait),
    DefXOr(DefXOr),
    MethodInvocation(MethodInvocation),
}

/// An expression at `p`: the first alternative that does not fail with `Error`, or the failure that ends the choice.
#[verifier::opaque]
pub open spec fn expr_opcode_at(s: Seq<u8>, p: int) -> Result<(ExprOpcode, int), ParseError>
    decreases s.len() - p, 2int,
{
    match expr_opcode_part1_at(s, p) {
        Ok((v, q)) => Ok((v, q)),
        Err(ParseError::Failure) => Err(ParseError::Failure),
        Err(ParseError::Error) => {
            match expr_opcode_part2_at(s, p) {
                Ok((v, q)) => Ok((v, q)),
                Err(ParseError::Failure) => Err(ParseError::Failure),
                Err(ParseError::Error) => {
                    match expr_opcode_part3_at(s, p) {
                        Ok((v, q)) => Ok((v, q)),
                        Err(ParseError::Failure) => Err(ParseError::Failure),
                        Err(ParseError::Error) => {
                            match expr_opcode_part4_at(s, p) {
                                Ok((v, q)) => Ok((v, q)),
                                Err(ParseError::Failure) => Err(ParseError::Failure),
                                Err(ParseError::Error) => {
                                    match expr_opcode_part5_at(s, p) {
                                        Ok((v, q)) => Ok((v, q)),
                                        Err(ParseError::Failure) => Err(ParseError::Failure),
                                        Err(ParseError::Error) => {
                                            match expr_opcode_part6_at(s, p) {
                                                Ok((v, q)) => Ok((v, q)),
                                                Err(ParseError::Failure) => Err(ParseError::Failure),
                                                Err(ParseError::Error) => {
                                                    match expr_opcode_part7_at(s, p) {
                                                        Ok((v, q)) => Ok((v, q)),
                                                        Err(ParseError::Failure) => Err(ParseError::Failure),
                                                        Err(ParseError::Error) => {
                                                            match expr_opcode_part8_at(s, p) {
                                                                Ok((v, q)) => Ok((v, q)),
                                                                Err(ParseError::Failure) => Err(ParseError::Failure),
                                                                Err(ParseError::Error) => {
                                                                    match expr_opcode_part9_at(s, p) {
                                                                        Ok((v, q)) => Ok((v, q)),
                                                                        Err(x) => Err(x),
                                                                    }
                                                                },
                                                            }
                                                        },
                                                    }
                                                },
                                            }
                                        },
                                    }
                                },
                            }
                        },
                    }
                },
            }
        },
    }
}

impl ExprOpcode {
    /// Parses an expression at `p`.
    pub fn p(s: &[u8], p: usize) -> (r: Result<(ExprOpcode, usize), ParseError>)
        requires
            p <= s@.len(),
        ensures
            parsed(r, expr_opcode_at(s@, p as int), p as int, s@.len() as int),
        decreases s@.len() - p, 2int,
    {
        proof {
            reveal_with_fuel(expr_opcode_at, 1);
            reveal_with_fuel(expr_opcode_part1_at, 1);
            reveal_with_fuel(expr_opcode_part2_at, 1);
            reveal_with_fuel(expr_opcode_part3_at, 1);
            reveal_with_fuel(expr_opcode_part4_at, 1);
            reveal_with_fuel(expr_opcode_part5_at, 1);
            reveal_with_fuel(expr_opcode_part6_at, 1);
            reveal_with_fuel(expr_opcode_part7_at, 1);
            reveal_with_fuel(expr_opcode_part8_at, 1);
            reveal_with_fuel(expr_opcode_part9_at, 1);
        }
        match expr_opcode_part1(s, p) {
            Ok((v, q)) => return Ok((v, q)),
            Err(ParseError::Failure) => return Err(ParseError::Failure),
            Err(ParseError::Error) => {},
        }
        match expr_opcode_part2(s, p) {
            Ok((v, q)) => return Ok((v, q)),
            Err(ParseError::Failure) => return Err(ParseError::Failure),
            Err(ParseError::Error) => {},
        }
        match expr_opcode_part3(s, p) {
            Ok((v, q)) => return Ok((v, q)),
            Err(ParseError::Failure) => return Err(ParseError::Failure),
            Err(ParseError::Error) => {},
        }
        match expr_opcode_part4(s, p) {
            Ok((v, q)) => return Ok((v, q)),
            Err(ParseError::Failure) => return Err(ParseError::Failure),
            Err(ParseError::Error) => {},
        }
        match expr_opcode_part5(s, p) {
            Ok((v, q)) => return Ok((v, q)),
            Err(ParseError::Failure) => return Err(ParseError::Failure),
            Err(ParseError::Error) => {},
        }
        match expr_opcode_part6(s, p) {
            Ok((v, q)) => return Ok((v, q)),
            Err(ParseError::Failure) => return Err(ParseError::Failure),
            Err(ParseError::Error) => {},
        }
        match expr_opcode_part7(s, p) {
            Ok((v, q)) => return Ok((v, q)),
            Err(ParseError::Failure) => return Err(ParseError::Failure),
            Err(ParseError::Error) => {},
        }
        match expr_opcode_part8(s, p) {
            Ok((v, q)) => return Ok((v, q)),
            Err(ParseError::Failure) => return Err(ParseError::Failure),
            Err(ParseError::Error) => {},
        }
        match expr_opcode_part9(s, p) {
            Ok((v, q)) => Ok((v, q)),
            Err(x) => Err(x),
        }
    }
}

/// An expression that gives a reference.
#[derive(Debug)]
pub enum RefTypeOpcode {
    DefRefOf(DefRefOf),
    DefDerefOf(DefDerefOf),
    DefIndex(DefIndex),
    UserTermObj(MethodInvocation),
}

/// An expression that gives a reference at `p`: the first alternative that does not fail with `Error`, or the failure that ends the choice.
#[verifier::opaque]
pub open spec fn ref_type_opcode_at(s: Seq<u8>, p: int) -> Result<(RefTypeOpcode, int), ParseError>
{
    match def_ref_of_at(s, p) {
        Ok((v, q)) => Ok((RefTypeOpcode::DefRefOf(v), q)),
        Err(ParseError::Failure) => Err(ParseError::Failure),
        Err(ParseError::Error) => {
            match def_deref_of_at(s, p) {
                Ok((v, q)) => Ok((RefTypeOpcode::DefDerefOf(v), q)),
                Err(ParseError::Failure) => Err(ParseError::Failure),
                Err(ParseError::Error) => {
                    match def_index_at(s, p) {
                        Ok((v, q)) => Ok((RefTypeOpcode::DefIndex(v), q)),
                        Err(ParseError::Failure) => Err(ParseError::Failure),
                        Err(ParseError::Error) => {
                            match method_invocation_at(s, p) {
                                Ok((v, q)) => Ok((RefTypeOpcode::UserTermObj(v), q)),
                                Err(x) => Err(x),
                            }
                        },
                    }
                },
            }
        },
    }
}

impl RefTypeOpcode {
    /// Parses an expression that gives a reference at `p`.
    pub fn p(s: &[u8], p: usize) -> (r: Result<(RefTypeOpcode, usize), ParseError>)
        requires
            p <= s@.len(),
        ensures
            parsed(r, ref_type_opcode_at(s@, p as int), p as int, s@.len() as int),
    {
        proof {
            reveal(ref_type_opcode_at);
        }
        match DefRefOf::p(s, p) {
            Ok((v, q)) => return Ok((RefTypeOpcode::DefRefOf(v), q)),
            Err(ParseError::Failure) => return Err(ParseError::Failure),
            Err(ParseError::Error) => {},
        }
        match DefDerefOf::p(s, p) {
            Ok((v, q)) => return Ok((RefTypeOpcode::DefDerefOf(v), q)),
            Err(ParseError::Failure) => return Err(ParseError::Failure),
            Err(ParseError::Error) => {},
        }
        match DefIndex::p(s, p) {
            Ok((v, q)) => return Ok((RefTypeOpcode::DefIndex(v), q)),
            Err(ParseError::Failure) => return Err(ParseError::Failure),
            Err(ParseError::Error) => {},
        }
        match MethodInvocation::p(s, p) {
            Ok((v, q)) => Ok((RefTypeOpcode::UserTermObj(v), q)),
            Err(x) => Err(x),
        }
    }
}

/// `Acquire(mutex, timeout)`.
#[derive(Debug)]
pub struct DefAcquire {
    pub mutex: MutexObj,
    pub timeout: Timeout,
}

/// `Acquire(mutex, timeout)` at `p`: the opcode, then its operands in turn; once the opcode is read, an operand that does not parse is a `Failure`.
#[verifier::opaque]
pub open spec fn def_acquire_at(s: Seq<u8>, p: int) -> Result<(DefAcquire, int), ParseError>
{
    if !(0 <= p && p + 2 <= s.len() && s[p] == 0x5b && s[p + 1] == 0x23) {
        Err(ParseError::Error)
    } else {
        match mutex_obj_at(s, p + 2) {
            Ok((mutex, q1)) => {
                match timeout_at(s, q1) {
                    Ok((timeout, q2)) => {
                        Ok((DefAcquire { mutex, timeout }, q2))
                    },
                    Err(_) => Err(ParseError::Failure),
                }
            },
            Err(_) => Err(ParseError::Failure),
        }
    }
}

impl DefAcquire {
    /// Parses `Acquire(mutex, timeout)` at `p`.
    pub fn p(s: &[u8], p: usize) -> (r: Result<(DefAcquire, usize), ParseError>)
        requires
            p <= s@.len(),
        ensures
            parsed(r, def_acquire_at(s@, p as int), p as int, s@.len() as int),
    {
        proof {
            reveal(def_acquire_at);
        }
        if !(p < s.len() && s.len() - p >= 2 && s[p] == 0x5b && s[p + 1] == 0x23) {
            return Err(ParseError::Error);
        }
        let (mutex, q1) = match MutexObj::p(s, p + 2) {
            Ok(x) => x,
            Err(_) => return Err(ParseError::Failure),
        };
        let (timeout, q2) = match Timeout::p(s, q1) {
            Ok(x) => x,
            Err(_) => return Err(ParseError::Failure),
        };
        Ok((DefAcquire { mutex, timeout }, q2))
    }
}

/// A timeout.
#[derive(Debug)]
pub struct Timeout(pub u8);

/// A timeout at `p`.
#[verifier::opaque]
pub open spec fn timeout_at(s: Seq<u8>, p: int) -> Result<(Timeout, int), ParseError>
{
    match byte_data_at(s, p) {
        Ok((v, q)) => Ok((Timeout(v), q)),
        Err(x) => Err(x),
    }
}

impl Timeout {
    /// Parses a timeout at `p`.
    pub fn p(s: &[u8], p: usize) -> (r: Result<(Timeout, usize), ParseError>)
        requires
            p <= s@.len(),
        ensures
            parsed(r, timeout_at(s@, p as int), p as int, s@.len() as int),
    {
        proof {
            reveal(timeout_at);
        }
        match byte_data(s, p) {
            Ok((v, q)) => Ok((Timeout(v), q)),
            Err(x) => Err(x),
        }
    }
}

/// An operand.
#[derive(Debug)]
pub struct Operand(pub TermArg);

/// An operand at `p`.
#[verifier::opaque]
pub open spec fn operand_at(s: Seq<u8>, p: int) -> Result<(Operand, int), ParseError>
    decreases s.len() - p, 4int,
{
    match term_arg_at(s, p) {
        Ok((v, q)) => Ok((Operand(v), q)),
        Err(x) => Err(x),
    }
}

impl Operand {
    /// Parses an operand at `p`.
    pub fn p(s: &[u8], p: usize) -> (r: Result<(Operand, usize), ParseError>)
        requires
            p <= s@.len(),
        ensures
            parsed(r, operand_at(s@, p as int), p as int, s@.len() as int),
        decreases s@.len() - p, 4int,
    {
        proof {
            reveal_with_fuel(operand_at, 1);
            reveal_with_fuel(term_arg_at, 1);
        }
        match TermArg::p(s, p) {
            Ok((v, q)) => Ok((Operand(v), q)),
            Err(x) => Err(x),
        }
    }
}

/// `Add(left, right, target)`.
#[derive(Debug)]
pub struct DefAdd {
    pub left: Operand,
    pub right: Operand,
    pub target: Target,
}

/// `Add(left, right, target)` at `p`: the opcode, then its operands in turn; once the opcode is read, an operand that does not parse is a `Failure`.
#[verifier::opaque]
pub open spec fn def_add_at(s: Seq<u8>, p: int) -> Result<(DefAdd, int), ParseError>
    decreases s.len() - p, 0int,
{
    if !(0 <= p && p + 1 <= s.len() && s[p] == 0x72) {
        Err(ParseError::Error)
    } else {
        match operand_at(s, p + 1) {
            Ok((left, q1)) => if !(p + 1 <= q1 <= s.len()) {
                Err(ParseError::Error)
            } else {
                match operand_at(s, q1) {
                    Ok((right, q2)) => {
                        match target_at(s, q2) {
                            Ok((target, q3)) => {
                                Ok((DefAdd { left, right, target }, q3))
                            },
                            Err(_) => Err(ParseError::Failure),
                        }
                    },
                    Err(_) => Err(ParseError::Failure),
                }
            },
            Err(_) => Err(ParseError::Failure),
        }
    }
}

impl DefAdd {
    /// Parses `Add(left, right, target)` at `p`.
    pub fn p(s: &[u8], p: usize) -> (r: Result<(DefAdd, usize), ParseError>)
        requires
            p <= s@.len(),
        ensures
            parsed(r, def_add_at(s@, p as int), p as int, s@.len() as int),
        decreases s@.len() - p, 0int,
    {
        proof {
            reveal_with_fuel(def_add_at, 1);
            reveal_with_fuel(operand_at, 1);
        }
        if !(p < s.len() && s[p] == 0x72) {
            return Err(ParseError::Error);
        }
        let (left, q1) = match Operand::p(s, p + 1) {
            Ok(x) => x,
            Err(_) => return Err(ParseError::Failure),
        };
        let (right, q2) = match Operand::p(s, q1) {
            Ok(x) => x,
            Err(_) => return Err(ParseError::Failure),
        };
        let (target, q3) = match Target::p(s, q2) {
            Ok(x) => x,
            Err(_) => return Err(ParseError::Failure),
        };
        Ok((DefAdd { left, right, target }, q3))
    }
}

/// `And(left, right, target)`.
#[derive(Debug)]
pub struct DefAnd {
    pub left: Operand,
    pub right: Operand,
    pub target: Target,
}

/// `And(left, right, target)` at `p`: the opcode, then its operands in turn; once the opcode is read, an operand that does not parse is a `Failure`.
#[verifier::opaque]
pub open spec fn def_and_at(s: Seq<u8>, p: int) -> Result<(DefAnd, int), ParseError>
    decreases s.len() - p, 0int,
{
    if !(0 <= p && p + 1 <= s.len() && s[p] == 0x7b) {
        Err(ParseError::Error)
    } else {
        match operand_at(s, p + 1) {
            Ok((left, q1)) => if !(p + 1 <= q1 <= s.len()) {
                Err(ParseError::Error)
            } else {
                match operand_at(s, q1) {
                    Ok((right, q2)) => {
                        match target_at(s, q2) {
                            Ok((target, q3)) => {
                                Ok((DefAnd { left, right, target }, q3))
                            },
                            Err(_) => Err(ParseError::Failure),
                        }
                    },
                    Err(_) => Err(ParseError::Failure),
                }
            },
            Err(_) => Err(ParseError::Failure),
        }
    }
}

impl DefAnd {
    /// Parses `And(left, right, target)` at `p`.
    pub fn p(s: &[u8], p: usize) -> (r: Result<(DefAnd, usize), ParseError>)
        requires
            p <= s@.len(),
        ensures
            parsed(r, def_and_at(s@, p as int), p as int, s@.len() as int),
        decreases s@.len() - p, 0int,
    {
        proof {
            reveal_with_fuel(def_and_at, 1);
            reveal_with_fuel(operand_at, 1);
        }
        if !(p < s.len() && s[p] == 0x7b) {
            return Err(ParseError::Error);
        }
        let (left, q1) = match Operand::p(s, p + 1) {
            Ok(x) => x,
            Err(_) => return Err(ParseError::Failure),
        };
        let (right, q2) = match Operand::p(s, q1) {
            Ok(x) => x,
            Err(_) => return Err(ParseError::Failure),
        };
        let (target, q3) = match Target::p(s, q2) {
            Ok(x) => x,
            Err(_) => return Err(ParseError::Failure),
        };
        Ok((DefAnd { left, right, target }, q3))
    }
}

/// `Concat(left, right, target)`.
#[derive(Debug)]
pub struct DefConcat {
    pub left: TermArg,
    pub right: TermArg,
    pub target: Target,
}

/// `Concat(left, right, target)` at `p`: the opcode, then its operands in turn; once the opcode is read, an operand that does not parse is a `Failure`.
#[verifier::opaque]
pub open spec fn def_concat_at(s: Seq<u8>, p: int) -> Result<(DefConcat, int), ParseError>
    decreases s.len() - p, 0int,
{
    if !(0 <= p && p + 1 <= s.len() && s[p] == 0x73) {
        Err(ParseError::Error)
    } else {
        match term_arg_at(s, p + 1) {
            Ok((left, q1)) => if !(p + 1 <= q1 <= s.len()) {
                Err(ParseError::Error)
            } else {
                match term_arg_at(s, q1) {
                    Ok((right, q2)) => {
                        match target_at(s, q2) {
                            Ok((target, q3)) => {
                                Ok((DefConcat { left, right, target }, q3))
                            },
                            Err(_) => Err(ParseError::Failure),
                        }
                    },
                    Err(_) => Err(ParseError::Failure),
                }
            },
            Err(_) => Err(ParseError::Failure),
        }
    }
}

impl DefConcat {
    /// Parses `Concat(left, right, target)` at `p`.
    pub fn p(s: &[u8], p: usize) -> (r: Result<(DefConcat, usize), ParseError>)
        requires
            p <= s@.len(),
        ensures
            parsed(r, def_concat_at(s@, p as int), p as int, s@.len() as int),
        decreases s@.len() - p, 0int,
    {
        proof {
            reveal_with_fuel(def_concat_at, 1);
            reveal_with_fuel(term_arg_at, 1);
        }
        if !(p < s.len() && s[p] == 0x73) {
            return Err(ParseError::Error);
        }
        let (left, q1) = match TermArg::p(s, p + 1) {
            Ok(x) => x,
            Err(_) => return Err(ParseError::Failure),
        };
        let (right, q2) = match TermArg::p(s, q1) {
            Ok(x) => x,
            Err(_) => return Err(ParseError::Failure),
        };
        let (target, q3) = match Target::p(s, q2) {
            Ok(x) => x,
            Err(_) => return Err(ParseError::Failure),
        };
        Ok((DefConcat { left, right, target }, q3))
    }
}

/// `ConcatRes(left, right, target)`.
#[derive(Debug)]
pub struct DefConcatRes {
    pub left: TermArg,
    pub right: TermArg,
    pub target: Target,
}

/// `ConcatRes(left, right, target)` at `p`: the opcode, then its operands in turn; once the opcode is read, an operand that does not parse is a `Failure`.
#[verifier::opaque]
pub open spec fn def_concat_res_at(s: Seq<u8>, p: int) -> Result<(DefConcatRes, int), ParseError>
    decreases s.len() - p, 0int,
{
    if !(0 <= p && p + 1 <= s.len() && s[p] == 0x84) {
        Err(ParseError::Error)
    } else {
        match term_arg_at(s, p + 1) {
            Ok((left, q1)) => if !(p + 1 <= q1 <= s.len()) {
                Err(ParseError::Error)
            } else {
                match term_arg_at(s, q1) {
                    Ok((right, q2)) => {
                        match target_at(s, q2) {
                            Ok((target, q3)) => {
                                Ok((DefConcatRes { left, right, target }, q3))
                            },
                            Err(_) => Err(ParseError::Failure),
                        }
                    },
                    Err(_) => Err(ParseError::Failure),
                }
            },
            Err(_) => Err(ParseError::Failure),
        }
    }
}

impl DefConcatRes {
    /// Parses `ConcatRes(left, right, target)` at `p`.
    pub fn p(s: &[u8], p: usize) -> (r: Result<(DefConcatRes, usize), ParseError>)
        requires
            p <= s@.len(),
        ensures
            parsed(r, def_concat_res_at(s@, p as int), p as int, s@.len() as int),
        decreases s@.len() - p, 0int,
    {
        proof {
            reveal_with_fuel(def_concat_res_at, 1);
            reveal_with_fuel(term_arg_at, 1);
        }
        if !(p < s.len() && s[p] == 0x84) {
            return Err(ParseError::Error);
        }
        let (left, q1) = match TermArg::p(s, p + 1) {
            Ok(x) => x,
            Err(_) => return Err(ParseError::Failure),
        };
        let (right, q2) = match TermArg::p(s, q1) {
            Ok(x) => x,
            Err(_) => return Err(ParseError::Failure),
        };
        let (target, q3) = match Target::p(s, q2) {
            Ok(x) => x,
            Err(_) => return Err(ParseError::Failure),
        };
        Ok((DefConcatRes { left, right, target }, q3))
    }
}

/// `Multiply(left, right, target)`.
#[derive(Debug)]
pub struct DefMultiply {
    pub left: Operand,
    pub right: Operand,
    pub target: Target,
}

/// `Multiply(left, right, target)` at `p`: the opcode, then its operands in turn; once the opcode is read, an operand that does not parse is a `Failure`.
#[verifier::opaque]
pub open spec fn def_multiply_at(s: Seq<u8>, p: int) -> Result<(DefMultiply, int), ParseError>
    decreases s.len() - p, 0int,
{
    if !(0 <= p && p + 1 <= s.len() && s[p] == 0x77) {
        Err(ParseError::Error)
    } else {
        match operand_at(s, p + 1) {
            Ok((left, q1)) => if !(p + 1 <= q1 <= s.len()) {
                Err(ParseError::Error)
            } else {
                match operand_at(s, q1) {
                    Ok((right, q2)) => {
                        match target_at(s, q2) {
                            Ok((target, q3)) => {
                                Ok((DefMultiply { left, right, target }, q3))
                            },
                            Err(_) => Err(ParseError::Failure),
                        }
                    },
                    Err(_) => Err(ParseError::Failure),
                }
            },
            Err(_) => Err(ParseError::Failure),
        }
    }
}

impl DefMultiply {
    /// Parses `Multiply(left, right, target)` at `p`.
    pub fn p(s: &[u8], p: usize) -> (r: Result<(DefMultiply, usize), ParseError>)
        requires
            p <= s@.len(),
        ensures
            parsed(r, def_multiply_at(s@, p as int), p as int, s@.len() as int),
        decreases s@.len() - p, 0int,
    {
        proof {
            reveal_with_fuel(def_multiply_at, 1);
            reveal_with_fuel(operand_at, 1);
        }
        if !(p < s.len() && s[p] == 0x77) {
            return Err(ParseError::Error);
        }
        let (left, q1) = match Operand::p(s, p + 1) {
            Ok(x) => x,
            Err(_) => return Err(ParseError::Failure),
        };
        let (right, q2) = match Operand::p(s, q1) {
            Ok(x) => x,
            Err(_) => return Err(ParseError::Failure),
        };
        let (target, q3) = match Target::p(s, q2) {
            Ok(x) => x,
            Err(_) => return Err(ParseError::Failure),
        };
        Ok((DefMultiply { left, right, target }, q3))
    }
}

/// `NAnd(left, right, target)`.
#[derive(Debug)]
pub struct DefNAnd {
    pub left: Operand,
    pub right: Operand,
    pub target: Target,
}

/// `NAnd(left, right, target)` at `p`: the opcode, then its operands in turn; once the opcode is read, an operand that does not parse is a `Failure`.
#[verifier::opaque]
pub open spec fn def_nand_at(s: Seq<u8>, p: int) -> Result<(DefNAnd, int), ParseError>
    decreases s.len() - p, 0int,
{
    if !(0 <= p && p + 1 <= s.len() && s[p] == 0x7c) {
        Err(ParseError::Error)
    } else {
        match operand_at(s, p + 1) {
            Ok((left, q1)) => if !(p + 1 <= q1 <= s.len()) {
                Err(ParseError::Error)
            } else {
                match operand_at(s, q1) {
                    Ok((right, q2)) => {
                        match target_at(s, q2) {
                            Ok((target, q3)) => {
                                Ok((DefNAnd { left, right, target }, q3))
                            },
                            Err(_) => Err(ParseError::Failure),
                        }
                    },
                    Err(_) => Err(ParseError::Failure),
                }
            },
            Err(_) => Err(ParseError::Failure),
        }
    }
}

impl DefNAnd {
    /// Parses `NAnd(left, right, target)` at `p`.
    pub fn p(s: &[u8], p: usize) -> (r: Result<(DefNAnd, usize), ParseError>)
        requires
            p <= s@.len(),
        ensures
            parsed(r, def_nand_at(s@, p as int), p as int, s@.len() as int),
        decreases s@.len() - p, 0int,
    {
        proof {
            reveal_with_fuel(def_nand_at, 1);
            reveal_with_fuel(operand_at, 1);
        }
        if !(p < s.len() && s[p] == 0x7c) {
            return Err(ParseError::Error);
        }
        let (left, q1) = match Operand::p(s, p + 1) {
            Ok(x) => x,
            Err(_) => return Err(ParseError::Failure),
        };
        let (right, q2) = match Operand::p(s, q1) {
            Ok(x) => x,
            Err(_) => return Err(ParseError::Failure),
        };
        let (target, q3) = match Target::p(s, q2) {
            Ok(x) => x,
            Err(_) => return Err(ParseError::Failure),
        };
        Ok((DefNAnd { left, right, target }, q3))
    }
}

/// `NOr(left, right, target)`.
#[derive(Debug)]
pub struct DefNOr {
    pub left: Operand,
    pub right: Operand,
    pub target: Target,
}

/// `NOr(left, right, target)` at `p`: the opcode, then its operands in turn; once the opcode is read, an operand that does not parse is a `Failure`.
#[verifier::opaque]
pub open spec fn def_nor_at(s: Seq<u8>, p: int) -> Result<(DefNOr, int), ParseError>
    decreases s.len() - p, 0int,
{
    if !(0 <= p && p + 1 <= s.len() && s[p] == 0x7e) {
        Err(ParseError::Error)
    } else {
        match operand_at(s, p + 1) {
            Ok((left, q1)) => if !(p + 1 <= q1 <= s.len()) {
                Err(ParseError::Error)
            } else {
                match operand_at(s, q1) {
                    Ok((right, q2)) => {
                        match target_at(s, q2) {
                            Ok((target, q3)) => {
                                Ok((DefNOr { left, right, target }, q3))
                            },
                            Err(_) => Err(ParseError::Failure),
                        }
                    },
                    Err(_) => Err(ParseError::Failure),
                }
            },
            Err(_) => Err(ParseError::Failure),
        }
    }
}

impl DefNOr {
    /// Parses `NOr(left, right, target)` at `p`.
    pub fn p(s: &[u8], p: usize) -> (r: Result<(DefNOr, usize), ParseError>)
        requires
            p <= s@.len(),
        ensures
            parsed(r, def_nor_at(s@, p as int), p as int, s@.len() as int),
        decreases s@.len() - p, 0int,
    {
        proof {
            reveal_with_fuel(def_nor_at, 1);
            reveal_with_fuel(operand_at, 1);
        }
        if !(p < s.len() && s[p] == 0x7e) {
            return Err(ParseError::Error);
        }
        let (left, q1) = match Operand::p(s, p + 1) {
            Ok(x) => x,
            Err(_) => return Err(ParseError::Failure),
        };
        let (right, q2) = match Operand::p(s, q1) {
            Ok(x) => x,
            Err(_) => return Err(ParseError::Failure),
        };
        let (target, q3) = match Target::p(s, q2) {
            Ok(x) => x,
            Err(_) => return Err(ParseError::Failure),
        };
        Ok((DefNOr { left, right, target }, q3))
    }
}

/// `Subtract(left, right, target)`.
#[derive(Debug)]
pub struct DefSubtract {
    pub left: Operand,
    pub right: Operand,
    pub target: Target,
}

/// `Subtract(left, right, target)` at `p`: the opcode, then its operands in turn; once the opcode is read, an operand that does not parse is a `Failure`.
#[verifier::opaque]
pub open spec fn def_subtract_at(s: Seq<u8>, p: int) -> Result<(DefSubtract, int), ParseError>
    decreases s.len() - p, 0int,
{
    if !(0 <= p && p + 1 <= s.len() && s[p] == 0x74) {
        Err(ParseError::Error)
    } else {
        match operand_at(s, p + 1) {
            Ok((left, q1)) => if !(p + 1 <= q1 <= s.len()) {
                Err(ParseError::Error)
            } else {
                match operand_at(s, q1) {
                    Ok((right, q2)) => {
                        match target_at(s, q2) {
                            Ok((target, q3)) => {
                                Ok((DefSubtract { left, right, target }, q3))
                            },
                            Err(_) => Err(ParseError::Failure),
                        }
                    },
                    Err(_) => Err(ParseError::Failure),
                }
            },
            Err(_) => Err(ParseError::Failure),
        }
    }
}

impl DefSubtract {
    /// Parses `Subtract(left, right, target)` at `p`.
    pub fn p(s: &[u8], p: usize) -> (r: Result<(DefSubtract, usize), ParseError>)
        requires
            p <= s@.len(),
        ensures
            parsed(r, def_subtract_at(s@, p as int), p as int, s@.len() as int),
        decreases s@.len() - p, 0int,
    {
        proof {
            reveal_with_fuel(def_subtract_at, 1);
            reveal_with_fuel(operand_at, 1);
        }
        if !(p < s.len() && s[p] == 0x74) {
            return Err(ParseError::Error);
        }
        let (left, q1) = match Operand::p(s, p + 1) {
            Ok(x) => x,
            Err(_) => return Err(ParseError::Failure),
        };
        let (right, q2) = match Operand::p(s, q1) {
            Ok(x) => x,
            Err(_) => return Err(ParseError::Failure),
        };
        let (target, q3) = match Target::p(s, q2) {
            Ok(x) => x,
            Err(_) => return Err(ParseError::Failure),
        };
        Ok((DefSubtract { left, right, target }, q3))
    }
}

/// `XOr(left, right, target)`.
#[derive(Debug)]
pub struct DefXOr {
    pub left: Operand,
    pub right: Operand,
    pub target: Target,
}

/// `XOr(left, right, target)` at `p`: the opcode, then its operands in turn; once the opcode is read, an operand that does not parse is a `Failure`.
#[verifier::opaque]
pub open spec fn def_xor_at(s: Seq<u8>, p: int) -> Result<(DefXOr, int), ParseError>
    decreases s.len() - p, 0int,
{
    if !(0 <= p && p + 1 <= s.len() && s[p] == 0x7f) {
        Err(ParseError::Error)
    } else {
        match operand_at(s, p + 1) {
            Ok((left, q1)) => if !(p + 1 <= q1 <= s.len()) {
                Err(ParseError::Error)
            } else {
                match operand_at(s, q1) {
                    Ok((right, q2)) => {
                        match target_at(s, q2) {
                            Ok((target, q3)) => {
                                Ok((DefXOr { left, right, target }, q3))
                            },
                            Err(_) => Err(ParseError::Failure),
                        }
                    },
                    Err(_) => Err(ParseError::Failure),
                }
            },
            Err(_) => Err(ParseError::Failure),
        }
    }
}

impl DefXOr {
    /// Parses `XOr(left, right, target)` at `p`.
    pub fn p(s: &[u8], p: usize) -> (r: Result<(DefXOr, usize), ParseError>)
        requires
            p <= s@.len(),
        ensures
            parsed(r, def_xor_at(s@, p as int), p as int, s@.len() as int),
        decreases s@.len() - p, 0int,
    {
        proof {
            reveal_with_fuel(def_xor_at, 1);
            reveal_with_fuel(operand_at, 1);
        }
        if !(p < s.len() && s[p] == 0x7f) {
            return Err(ParseError::Error);
        }
        let (left, q1) = match Operand::p(s, p + 1) {
            Ok(x) => x,
            Err(_) => return Err(ParseError::Failure),
        };
        let (right, q2) = match Operand::p(s, q1) {
            Ok(x) => x,
            Err(_) => return Err(ParseError::Failure),
        };
        let (target, q3) = match Target::p(s, q2) {
            Ok(x) => x,
            Err(_) => return Err(ParseError::Failure),
        };
        Ok((DefXOr { left, right, target }, q3))
    }
}

/// `FindSetLeftBit(operand, target)`.
#[derive(Debug)]
pub struct DefFindSetLeftBit {
    pub operand: Operand,
    pub target: Target,
}

/// `FindSetLeftBit(operand, target)` at `p`: the opcode, then its operands in turn; once the opcode is read, an operand that does not parse is a `Failure`.
#[verifier::opaque]
pub open spec fn def_find_set_left_bit_at(s: Seq<u8>, p: int) -> Result<(DefFindSetLeftBit, int), ParseError>
    decreases s.len() - p, 0int,
{
    if !(0 <= p && p + 1 <= s.len() && s[p] == 0x81) {
        Err(ParseError::Error)
    } else {
        match operand_at(s, p + 1) {
            Ok((operand, q1)) => {
                match target_at(s, q1) {
                    Ok((target, q2)) => {
                        Ok((DefFindSetLeftBit { operand, target }, q2))
                    },
                    Err(_) => Err(ParseError::Failure),
                }
            },
            Err(_) => Err(ParseError::Failure),
        }
    }
}

impl DefFindSetLeftBit {
    /// Parses `FindSetLeftBit(operand, target)` at `p`.
    pub fn p(s: &[u8], p: usize) -> (r: Result<(DefFindSetLeftBit, usize), ParseError>)
        requires
            p <= s@.len(),
        ensures
            parsed(r, def_find_set_left_bit_at(s@, p as int), p as int, s@.len() as int),
        decreases s@.len() - p, 0int,
    {
        proof {
            reveal_with_fuel(def_find_set_left_bit_at, 1);
            reveal_with_fuel(operand_at, 1);
        }
        if !(p < s.len() && s[p] == 0x81) {
            return Err(ParseError::Error);
        }
        let (operand, q1) = match Operand::p(s, p + 1) {
            Ok(x) => x,
            Err(_) => return Err(ParseError::Failure),
        };
        let (target, q2) = match Target::p(s, q1) {
            Ok(x) => x,
            Err(_) => return Err(ParseError::Failure),
        };
        Ok((DefFindSetLeftBit { operand, target }, q2))
    }
}

/// `FindSetRightBit(operand, target)`.
#[derive(Debug)]
pub struct DefFindSetRightBit {
    pub operand: Operand,
    pub target: Target,
}

/// `FindSetRightBit(operand, target)` at `p`: the opcode, then its operands in turn; once the opcode is read, an operand that does not parse is a `Failure`.
#[verifier::opaque]
pub open spec fn def_find_set_right_bit_at(s: Seq<u8>, p: int) -> Result<(DefFindSetRightBit, int), ParseError>
    decreases s.len() - p, 0int,
{
    if !(0 <= p && p + 1 <= s.len() && s[p] == 0x82) {
        Err(ParseError::Error)
    } else {
        match operand_at(s, p + 1) {
            Ok((operand, q1)) => {
                match target_at(s, q1) {
                    Ok((target, q2)) => {
                        Ok((DefFindSetRightBit { operand, target }, q2))
                    },
                    Err(_) => Err(ParseError::Failure),
                }
            },
            Err(_) => Err(ParseError::Failure),
        }
    }
}

impl DefFindSetRightBit {
    /// Parses `FindSetRightBit(operand, target)` at `p`.
    pub fn p(s: &[u8], p: usize) -> (r: Result<(DefFindSetRightBit, usize), ParseError>)
        requires
            p <= s@.len(),
        ensures
            parsed(r, def_find_set_right_bit_at(s@, p as int), p as int, s@.len() as int),
        decreases s@.len() - p, 0int,
    {
        proof {
            reveal_with_fuel(def_find_set_right_bit_at, 1);
            reveal_with_fuel(operand_at, 1);
        }
        if !(p < s.len() && s[p] == 0x82) {
            return Err(ParseError::Error);
        }
        let (operand, q1) = match Operand::p(s, p + 1) {
            Ok(x) => x,
            Err(_) => return Err(ParseError::Failure),
        };
        let (target, q2) = match Target::p(s, q1) {
            Ok(x) => x,
            Err(_) => return Err(ParseError::Failure),
        };
        Ok((DefFindSetRightBit { operand, target }, q2))
    }
}

/// `Not(operand, target)`.
#[derive(Debug)]
pub struct DefNot {
    pub operand: Operand,
    pub target: Target,
}

/// `Not(operand, target)` at `p`: the opcode, then its operands in turn; once the opcode is read, an operand that does not parse is a `Failure`.
#[verifier::opaque]
pub open spec fn def_not_at(s: Seq<u8>, p: int) -> Result<(DefNot, int), ParseError>
    decreases s.len() - p, 0int,
{
    if !(0 <= p && p + 1 <= s.len() && s[p] == 0x80) {
        Err(ParseError::Error)
    } else {
        match operand_at(s, p + 1) {
            Ok((operand, q1)) => {
                match target_at(s, q1) {
                    Ok((target, q2)) => {
                        Ok((DefNot { operand, target }, q2))
                    },
                    Err(_) => Err(ParseError::Failure),
                }
            },
            Err(_) => Err(ParseError::Failure),
        }
    }
}

impl DefNot {
    /// Parses `Not(operand, target)` at `p`.
    pub fn p(s: &[u8], p: usize) -> (r: Result<(DefNot, usize), ParseError>)
        requires
            p <= s@.len(),
        ensures
            parsed(r, def_not_at(s@, p as int), p as int, s@.len() as int),
        decreases s@.len() - p, 0int,
    {
        proof {
            reveal_with_fuel(def_not_at, 1);
            reveal_with_fuel(operand_at, 1);
        }
        if !(p < s.len() && s[p] == 0x80) {
            return Err(ParseError::Error);
        }
        let (operand, q1) = match Operand::p(s, p + 1) {
            Ok(x) => x,
            Err(_) => return Err(ParseError::Failure),
        };
        let (target, q2) = match Target::p(s, q1) {
            Ok(x) => x,
            Err(_) => return Err(ParseError::Failure),
        };
        Ok((DefNot { operand, target }, q2))
    }
}

/// `Or(operand, target)`.
#[derive(Debug)]
pub struct DefOr {
    pub operand: Operand,
    pub target: Target,
}

/// `Or(operand, target)` at `p`: the opcode, then its operands in turn; once the opcode is read, an operand that does not parse is a `Failure`.
#[verifier::opaque]
pub open spec fn def_or_at(s: Seq<u8>, p: int) -> Result<(DefOr, int), ParseError>
    decreases s.len() - p, 0int,
{
    if !(0 <= p && p + 1 <= s.len() && s[p] == 0x7d) {
        Err(ParseError::Error)
    } else {
        match operand_at(s, p + 1) {
            Ok((operand, q1)) => {
                match target_at(s, q1) {
                    Ok((target, q2)) => {
                        Ok((DefOr { operand, target }, q2))
                    },
                    Err(_) => Err(ParseError::Failure),
                }
            },
            Err(_) => Err(ParseError::Failure),
        }
    }
}

impl DefOr {
    /// Parses `Or(operand, target)` at `p`.
    pub fn p(s: &[u8], p: usize) -> (r: Result<(DefOr, usize), ParseError>)
        requires
            p <= s@.len(),
        ensures
            parsed(r, def_or_at(s@, p as int), p as int, s@.len() as int),
        decreases s@.len() - p, 0int,
    {
        proof {
            reveal_with_fuel(def_or_at, 1);
            reveal_with_fuel(operand_at, 1);
        }
        if !(p < s.len() && s[p] == 0x7d) {
            return Err(ParseError::Error);
        }
        let (operand, q1) = match Operand::p(s, p + 1) {
            Ok(x) => x,
            Err(_) => return Err(ParseError::Failure),
        };
        let (target, q2) = match Target::p(s, q1) {
            Ok(x) => x,
            Err(_) => return Err(ParseError::Failure),
        };
        Ok((DefOr { operand, target }, q2))
    }
}

/// `ToBcd(operand, target)`.
#[derive(Debug)]
pub struct DefToBcd {
    pub operand: Operand,
    pub target: Target,
}

/// `ToBcd(operand, target)` at `p`: the opcode, then its operands in turn; once the opcode is read, an operand that does not parse is a `Failure`.
#[verifier::opaque]
pub open spec fn def_to_bcd_at(s: Seq<u8>, p: int) -> Result<(DefToBcd, int), ParseError>
    decreases s.len() - p, 0int,
{
    if !(0 <= p && p + 2 <= s.len() && s[p] == 0x5b && s[p + 1] == 0x29) {
        Err(ParseError::Error)
    } else {
        match operand_at(s, p + 2) {
            Ok((operand, q1)) => {
                match target_at(s, q1) {
                    Ok((target, q2)) => {
                        Ok((DefToBcd { operand, target }, q2))
                    },
                    Err(_) => Err(ParseError::Failure),
                }
            },
            Err(_) => Err(ParseError::Failure),
        }
    }
}

impl DefToBcd {
    /// Parses `ToBcd(operand, target)` at `p`.
    pub fn p(s: &[u8], p: usize) -> (r: Result<(DefToBcd, usize), ParseError>)
        requires
            p <= s@.len(),
        ensures
            parsed(r, def_to_bcd_at(s@, p as int), p as int, s@.len() as int),
        decreases s@.len() - p, 0int,
    {
        proof {
            reveal_with_fuel(def_to_bcd_at, 1);
            reveal_with_fuel(operand_at, 1);
        }
        if !(p < s.len() && s.len() - p >= 2 && s[p] == 0x5b && s[p + 1] == 0x29) {
            return Err(ParseError::Error);
        }
        let (operand, q1) = match Operand::p(s, p + 2) {
            Ok(x) => x,
            Err(_) => return Err(ParseError::Failure),
        };
        let (target, q2) = match Target::p(s, q1) {
            Ok(x) => x,
            Err(_) => return Err(ParseError::Failure),
        };
        Ok((DefToBcd { operand, target }, q2))
    }
}

/// `ToBuffer(operand, target)`.
#[derive(Debug)]
pub struct DefToBuffer {
    pub operand: Operand,
    pub target: Target,
}

/// `ToBuffer(operand, target)` at `p`: the opcode, then its operands in turn; once the opcode is read, an operand that does not parse is a `Failure`.
#[verifier::opaque]
pub open spec fn def_to_buffer_at(s: Seq<u8>, p: int) -> Result<(DefToBuffer, int), ParseError>
    decreases s.len() - p, 0int,
{
    if !(0 <= p && p + 1 <= s.len() && s[p] == 0x96) {
        Err(ParseError::Error)
    } else {
        match operand_at(s, p + 1) {
            Ok((operand, q1)) => {
                match target_at(s, q1) {
                    Ok((target, q2)) => {
                        Ok((DefToBuffer { operand, target }, q2))
                    },
                    Err(_) => Err(ParseError::Failure),
                }
            },
            Err(_) => Err(ParseError::Failure),
        }
    }
}

impl DefToBuffer {
    /// Parses `ToBuffer(operand, target)` at `p`.
    pub fn p(s: &[u8], p: usize) -> (r: Result<(DefToBuffer, usize), ParseError>)
        requires
            p <= s@.len(),
        ensures
            parsed(r, def_to_buffer_at(s@, p as int), p as int, s@.len() as int),
        decreases s@.len() - p, 0int,
    {
        proof {
            reveal_with_fuel(def_to_buffer_at, 1);
            reveal_with_fuel(operand_at, 1);
        }
        if !(p < s.len() && s[p] == 0x96) {
            return Err(ParseError::Error);
        }
        let (operand, q1) = match Operand::p(s, p + 1) {
            Ok(x) => x,
            Err(_) => return Err(ParseError::Failure),
        };
        let (target, q2) = match Target::p(s, q1) {
            Ok(x) => x,
            Err(_) => return Err(ParseError::Failure),
        };
        Ok((DefToBuffer { operand, target }, q2))
    }
}

/// `ToDecimalString(operand, target)`.
#[derive(Debug)]
pub struct DefToDecimalString {
    pub operand: Operand,
    pub target: Target,
}

/// `ToDecimalString(operand, target)` at `p`: the opcode, then its operands in turn; once the opcode is read, an operand that does not parse is a `Failure`.
#[verifier::opaque]
pub open spec fn def_to_decimal_string_at(s: Seq<u8>, p: int) -> Result<(DefToDecimalString, int), ParseError>
    decreases s.len() - p, 0int,
{
    if !(0 <= p && p + 1 <= s.len() && s[p] == 0x97) {
        Err(ParseError::Error)
    } else {
        match operand_at(s, p + 1) {
            Ok((operand, q1)) => {
                match target_at(s, q1) {
                    Ok((target, q2)) => {
                        Ok((DefToDecimalString { operand, target }, q2))
                    },
                    Err(_) => Err(ParseError::Failure),
                }
            },
            Err(_) => Err(ParseError::Failure),
        }
    }
}

impl DefToDecimalString {
    /// Parses `ToDecimalString(operand, target)` at `p`.
    pub fn p(s: &[u8], p: usize) -> (r: Result<(DefToDecimalString, usize), ParseError>)
        requires
            p <= s@.len(),
        ensures
            parsed(r, def_to_decimal_string_at(s@, p as int), p as int, s@.len() as int),
        decreases s@.len() - p, 0int,
    {
        proof {
            reveal_with_fuel(def_to_decimal_string_at, 1);
            reveal_with_fuel(operand_at, 1);
        }
        if !(p < s.len() && s[p] == 0x97) {
            return Err(ParseError::Error);
        }
        let (operand, q1) = match Operand::p(s, p + 1) {
            Ok(x) => x,
            Err(_) => return Err(ParseError::Failure),
        };
        let (target, q2) = match Target::p(s, q1) {
            Ok(x) => x,
            Err(_) => return Err(ParseError::Failure),
        };
        Ok((DefToDecimalString { operand, target }, q2))
    }
}

/// `ToHexString(operand, target)`.
#[derive(Debug)]
pub struct DefToHexString {
    pub operand: Operand,
    pub target: Target,
}

/// `ToHexString(operand, target)` at `p`: the opcode, then its operands in turn; once the opcode is read, an operand that does not parse is a `Failure`.
#[verifier::opaque]
pub open spec fn def_to_hex_string_at(s: Seq<u8>, p: int) -> Result<(DefToHexString, int), ParseError>
    decreases s.len() - p, 0int,
{
    if !(0 <= p && p + 1 <= s.len() && s[p] == 0x98) {
        Err(ParseError::Error)
    } else {
        match operand_at(s, p + 1) {
            Ok((operand, q1)) => {
                match target_at(s, q1) {
                    Ok((target, q2)) => {
                        Ok((DefToHexString { operand, target }, q2))
                    },
                    Err(_) => Err(ParseError::Failure),
                }
            },
            Err(_) => Err(ParseError::Failure),
        }
    }
}

impl DefToHexString {
    /// Parses `ToHexString(operand, target)` at `p`.
    pub fn p(s: &[u8], p: usize) -> (r: Result<(DefToHexString, usize), ParseError>)
        requires
            p <= s@.len(),
        ensures
            parsed(r, def_to_hex_string_at(s@, p as int), p as int, s@.len() as int),
        decreases s@.len() - p, 0int,
    {
        proof {
            reveal_with_fuel(def_to_hex_string_at, 1);
            reveal_with_fuel(operand_at, 1);
        }
        if !(p < s.len() && s[p] == 0x98) {
            return Err(ParseError::Error);
        }
        let (operand, q1) = match Operand::p(s, p + 1) {
            Ok(x) => x,
            Err(_) => return Err(ParseError::Failure),
        };
        let (target, q2) = match Target::p(s, q1) {
            Ok(x) => x,
            Err(_) => return Err(ParseError::Failure),
        };
        Ok((DefToHexString { operand, target }, q2))
    }
}

/// `ToInteger(operand, target)`.
#[derive(Debug)]
pub struct DefToInteger {
    pub operand: Operand,
    pub target: Target,
}

/// `ToInteger(operand, target)` at `p`: the opcode, then its operands in turn; once the opcode is read, an operand that does not parse is a `Failure`.
#[verifier::opaque]
pub open spec fn def_to_integer_at(s: Seq<u8>, p: int) -> Result<(DefToInteger, int), ParseError>
    decreases s.len() - p, 0int,
{
    if !(0 <= p && p + 1 <= s.len() && s[p] == 0x99) {
        Err(ParseError::Error)
    } else {
        match operand_at(s, p + 1) {
            Ok((operand, q1)) => {
                match target_at(s, q1) {
                    Ok((target, q2)) => {
                        Ok((DefToInteger { operand, target }, q2))
                    },
                    Err(_) => Err(ParseError::Failure),
                }
            },
            Err(_) => Err(ParseError::Failure),
        }
    }
}

impl DefToInteger {
    /// Parses `ToInteger(operand, target)` at `p`.
    pub fn p(s: &[u8], p: usize) -> (r: Result<(DefToInteger, usize), ParseError>)
        requires
            p <= s@.len(),
        ensures
            parsed(r, def_to_integer_at(s@, p as int), p as int, s@.len() as int),
        decreases s@.len() - p, 0int,
    {
        proof {
            reveal_with_fuel(def_to_integer_at, 1);
            reveal_with_fuel(operand_at, 1);
        }
        if !(p < s.len() && s[p] == 0x99) {
            return Err(ParseError::Error);
        }
        let (operand, q1) = match Operand::p(s, p + 1) {
            Ok(x) => x,
            Err(_) => return Err(ParseError::Failure),
        };
        let (target, q2) = match Target::p(s, q1) {
            Ok(x) => x,
            Err(_) => return Err(ParseError::Failure),
        };
        Ok((DefToInteger { operand, target }, q2))
    }
}

/// `LAnd(left, right)`.
#[derive(Debug)]
pub struct DefLAnd {
    pub left: Operand,
    pub right: Operand,
}

/// `LAnd(left, right)` at `p`: the opcode, then its operands in turn; once the opcode is read, an operand that does not parse is a `Failure`.
#[verifier::opaque]
pub open spec fn def_l_and_at(s: Seq<u8>, p: int) -> Result<(DefLAnd, int), ParseError>
    decreases s.len() - p, 0int,
{
    if !(0 <= p && p + 1 <= s.len() && s[p] == 0x90) {
        Err(ParseError::Error)
    } else {
        match operand_at(s, p + 1) {
            Ok((left, q1)) => if !(p + 1 <= q1 <= s.len()) {
                Err(ParseError::Error)
            } else {
                match operand_at(s, q1) {
                    Ok((right, q2)) => {
                        Ok((DefLAnd { left, right }, q2))
                    },
                    Err(_) => Err(ParseError::Failure),
                }
            },
            Err(_) => Err(ParseError::Failure),
        }
    }
}

impl DefLAnd {
    /// Parses `LAnd(left, right)` at `p`.
    pub fn p(s: &[u8], p: usize) -> (r: Result<(DefLAnd, usize), ParseError>)
        requires
            p <= s@.len(),
        ensures
            parsed(r, def_l_and_at(s@, p as int), p as int, s@.len() as int),
        decreases s@.len() - p, 0int,
    {
        proof {
            reveal_with_fuel(def_l_and_at, 1);
            reveal_with_fuel(operand_at, 1);
        }
        if !(p < s.len() && s[p] == 0x90) {
            return Err(ParseError::Error);
        }
        let (left, q1) = match Operand::p(s, p + 1) {
            Ok(x) => x,
            Err(_) => return Err(ParseError::Failure),
        };
        let (right, q2) = match Operand::p(s, q1) {
            Ok(x) => x,
            Err(_) => return Err(ParseError::Failure),
        };
        Ok((DefLAnd { left, right }, q2))
    }
}

/// `LEqual(left, right)`.
#[derive(Debug)]
pub struct DefLEqual {
    pub left: Operand,
    pub right: Operand,
}

/// `LEqual(left, right)` at `p`: the opcode, then its operands in turn; once the opcode is read, an operand that does not parse is a `Failure`.
#[verifier::opaque]
pub open spec fn def_l_equal_at(s: Seq<u8>, p: int) -> Result<(DefLEqual, int), ParseError>
    decreases s.len() - p, 0int,
{
    if !(0 <= p && p + 1 <= s.len() && s[p] == 0x93) {
        Err(ParseError::Error)
    } else {
        match operand_at(s, p + 1) {
            Ok((left, q1)) => if !(p + 1 <= q1 <= s.len()) {
                Err(ParseError::Error)
            } else {
                match operand_at(s, q1) {
                    Ok((right, q2)) => {
                        Ok((DefLEqual { left, right }, q2))
                    },
                    Err(_) => Err(ParseError::Failure),
                }
            },
            Err(_) => Err(ParseError::Failure),
        }
    }
}

impl DefLEqual {
    /// Parses `LEqual(left, right)` at `p`.
    pub fn p(s: &[u8], p: usize) -> (r: Result<(DefLEqual, usize), ParseError>)
        requires
            p <= s@.len(),
        ensures
            parsed(r, def_l_equal_at(s@, p as int), p as int, s@.len() as int),
        decreases s@.len() - p, 0int,
    {
        proof {
            reveal_with_fuel(def_l_equal_at, 1);
            reveal_with_fuel(operand_at, 1);
        }
        if !(p < s.len() && s[p] == 0x93) {
            return Err(ParseError::Error);
        }
        let (left, q1) = match Operand::p(s, p + 1) {
            Ok(x) => x,
            Err(_) => return Err(ParseError::Failure),
        };
        let (right, q2) = match Operand::p(s, q1) {
            Ok(x) => x,
            Err(_) => return Err(ParseError::Failure),
        };
        Ok((DefLEqual { left, right }, q2))
    }
}

/// `LGreater(left, right)`.
#[derive(Debug)]
pub struct DefLGreater {
    pub left: Operand,
    pub right: Operand,
}

/// `LGreater(left, right)` at `p`: the opcode, then its operands in turn; once the opcode is read, an operand that does not parse is a `Failure`.
#[verifier::opaque]
pub open spec fn def_l_greater_at(s: Seq<u8>, p: int) -> Result<(DefLGreater, int), ParseError>
    decreases s.len() - p, 0int,
{
    if !(0 <= p && p + 1 <= s.len() && s[p] == 0x94) {
        Err(ParseError::Error)
    } else {
        match operand_at(s, p + 1) {
            Ok((left, q1)) => if !(p + 1 <= q1 <= s.len()) {
                Err(ParseError::Error)
            } else {
                match operand_at(s, q1) {
                    Ok((right, q2)) => {
                        Ok((DefLGreater { left, right }, q2))
                    },
                    Err(_) => Err(ParseError::Failure),
                }
            },
            Err(_) => Err(ParseError::Failure),
        }
    }
}

impl DefLGreater {
    /// Parses `LGreater(left, right)` at `p`.
    pub fn p(s: &[u8], p: usize) -> (r: Result<(DefLGreater, usize), ParseError>)
        requires
            p <= s@.len(),
        ensures
            parsed(r, def_l_greater_at(s@, p as int), p as int, s@.len() as int),
        decreases s@.len() - p, 0int,
    {
        proof {
            reveal_with_fuel(def_l_greater_at, 1);
            reveal_with_fuel(operand_at, 1);
        }
        if !(p < s.len() && s[p] == 0x94) {
            return Err(ParseError::Error);
        }
        let (left, q1) = match Operand::p(s, p + 1) {
            Ok(x) => x,
            Err(_) => return Err(ParseError::Failure),
        };
        let (right, q2) = match Operand::p(s, q1) {
            Ok(x) => x,
            Err(_) => return Err(ParseError::Failure),
        };
        Ok((DefLGreater { left, right }, q2))
    }
}

/// `LGreaterEqual(left, right)`.
#[derive(Debug)]
pub struct DefLGreaterEqual {
    pub left: Operand,
    pub right: Operand,
}

/// `LGreaterEqual(left, right)` at `p`: the opcode, then its operands in turn; once the opcode is read, an operand that does not parse is a `Failure`.
#[verifier::opaque]
pub open spec fn def_l_greater_equal_at(s: Seq<u8>, p: int) -> Result<(DefLGreaterEqual, int), ParseError>
    decreases s.len() - p, 0int,
{
    if !(0 <= p && p + 2 <= s.len() && s[p] == 0x92 && s[p + 1] == 0x95) {
        Err(ParseError::Error)
    } else {
        match operand_at(s, p + 2) {
            Ok((left, q1)) => if !(p + 2 <= q1 <= s.len()) {
                Err(ParseError::Error)
            } else {
                match operand_at(s, q1) {
                    Ok((right, q2)) => {
                        Ok((DefLGreaterEqual { left, right }, q2))
                    },
                    Err(_) => Err(ParseError::Failure),
                }
            },
            Err(_) => Err(ParseError::Failure),
        }
    }
}

impl DefLGreaterEqual {
    /// Parses `LGreaterEqual(left, right)` at `p`.
    pub fn p(s: &[u8], p: usize) -> (r: Result<(DefLGreaterEqual, usize), ParseError>)
        requires
            p <= s@.len(),
        ensures
            parsed(r, def_l_greater_equal_at(s@, p as int), p as int, s@.len() as int),
        decreases s@.len() - p, 0int,
    {
        proof {
            reveal_with_fuel(def_l_greater_equal_at, 1);
            reveal_with_fuel(operand_at, 1);
        }
        if !(p < s.len() && s.len() - p >= 2 && s[p] == 0x92 && s[p + 1] == 0x95) {
            return Err(ParseError::Error);
        }
        let (left, q1) = match Operand::p(s, p + 2) {
            Ok(x) => x,
            Err(_) => return Err(ParseError::Failure),
        };
        let (right, q2) = match Operand::p(s, q1) {
            Ok(x) => x,
            Err(_) => return Err(ParseError::Failure),
        };
        Ok((DefLGreaterEqual { left, right }, q2))
    }
}

/// `LLess(left, right)`.
#[derive(Debug)]
pub struct DefLLess {
    pub left: Operand,
    pub right: Operand,
}

/// `LLess(left, right)` at `p`: the opcode, then its operands in turn; once the opcode is read, an operand that does not parse is a `Failure`.
#[verifier::opaque]
pub open spec fn def_l_less_at(s: Seq<u8>, p: int) -> Result<(DefLLess, int), ParseError>
    decreases s.len() - p, 0int,
{
    if !(0 <= p && p + 1 <= s.len() && s[p] == 0x95) {
        Err(ParseError::Error)
    } else {
        match operand_at(s, p + 1) {
            Ok((left, q1)) => if !(p + 1 <= q1 <= s.len()) {
                Err(ParseError::Error)
            } else {
                match operand_at(s, q1) {
                    Ok((right, q2)) => {
                        Ok((DefLLess { left, right }, q2))
                    },
                    Err(_) => Err(ParseError::Failure),
                }
            },
            Err(_) => Err(ParseError::Failure),
        }
    }
}

impl DefLLess {
    /// Parses `LLess(left, right)` at `p`.
    pub fn p(s: &[u8], p: usize) -> (r: Result<(DefLLess, usize), ParseError>)
        requires
            p <= s@.len(),
        ensures
            parsed(r, def_l_less_at(s@, p as int), p as int, s@.len() as int),
        decreases s@.len() - p, 0int,
    {
        proof {
            reveal_with_fuel(def_l_less_at, 1);
            reveal_with_fuel(operand_at, 1);
        }
        if !(p < s.len() && s[p] == 0x95) {
            return Err(ParseError::Error);
        }
        let (left, q1) = match Operand::p(s, p + 1) {
            Ok(x) => x,
            Err(_) => return Err(ParseError::Failure),
        };
        let (right, q2) = match Operand::p(s, q1) {
            Ok(x) => x,
            Err(_) => return Err(ParseError::Failure),
        };
        Ok((DefLLess { left, right }, q2))
    }
}

/// `LLessEqual(left, right)`.
#[derive(Debug)]
pub struct DefLLessEqual {
    pub left: Operand,
    pub right: Operand,
}

/// `LLessEqual(left, right)` at `p`: the opcode, then its operands in turn; once the opcode is read, an operand that does not parse is a `Failure`.
#[verifier::opaque]
pub open spec fn def_l_less_equal_at(s: Seq<u8>, p: int) -> Result<(DefLLessEqual, int), ParseError>
    decreases s.len() - p, 0int,
{
    if !(0 <= p && p + 2 <= s.len() && s[p] == 0x92 && s[p + 1] == 0x94) {
        Err(ParseError::Error)
    } else {
        match operand_at(s, p + 2) {
            Ok((left, q1)) => if !(p + 2 <= q1 <= s.len()) {
                Err(ParseError::Error)
            } else {
                match operand_at(s, q1) {
                    Ok((right, q2)) => {
                        Ok((DefLLessEqual { left, right }, q2))
                    },
                    Err(_) => Err(ParseError::Failure),
                }
            },
            Err(_) => Err(ParseError::Failure),
        }
    }
}

impl DefLLessEqual {
    /// Parses `LLessEqual(left, right)` at `p`.
    pub fn p(s: &[u8], p: usize) -> (r: Result<(DefLLessEqual, usize), ParseError>)
        requires
            p <= s@.len(),
        ensures
            parsed(r, def_l_less_equal_at(s@, p as int), p as int, s@.len() as int),
        decreases s@.len() - p, 0int,
    {
        proof {
            reveal_with_fuel(def_l_less_equal_at, 1);
            reveal_with_fuel(operand_at, 1);
        }
        if !(p < s.len() && s.len() - p >= 2 && s[p] == 0x92 && s[p + 1] == 0x94) {
            return Err(ParseError::Error);
        }
        let (left, q1) = match Operand::p(s, p + 2) {
            Ok(x) => x,
            Err(_) => return Err(ParseError::Failure),
        };
        let (right, q2) = match Operand::p(s, q1) {
            Ok(x) => x,
            Err(_) => return Err(ParseError::Failure),
        };
        Ok((DefLLessEqual { left, right }, q2))
    }
}

/// `LNotEqual(left, right)`.
#[derive(Debug)]
pub struct DefLNotEqual {
    pub left: Operand,
    pub right: Operand,
}

/// `LNotEqual(left, right)` at `p`: the opcode, then its operands in turn; once the opcode is read, an operand that does not parse is a `Failure`.
#[verifier::opaque]
pub open spec fn def_l_not_equal_at(s: Seq<u8>, p: int) -> Result<(DefLNotEqual, int), ParseError>
    decreases s.len() - p, 0int,
{
    if !(0 <= p && p + 2 <= s.len() && s[p] == 0x92 && s[p + 1] == 0x93) {
        Err(ParseError::Error)
    } else {
        match operand_at(s, p + 2) {
            Ok((left, q1)) => if !(p + 2 <= q1 <= s.len()) {
                Err(ParseError::Error)
            } else {
                match operand_at(s, q1) {
                    Ok((right, q2)) => {
                        Ok((DefLNotEqual { left, right }, q2))
                    },
                    Err(_) => Err(ParseError::Failure),
                }
            },
            Err(_) => Err(ParseError::Failure),
        }
    }
}

impl DefLNotEqual {
    /// Parses `LNotEqual(left, right)` at `p`.
    pub fn p(s: &[u8], p: usize) -> (r: Result<(DefLNotEqual, usize), ParseError>)
        requires
            p <= s@.len(),
        ensures
            parsed(r, def_l_not_equal_at(s@, p as int), p as int, s@.len() as int),
        decreases s@.len() - p, 0int,
    {
        proof {
            reveal_with_fuel(def_l_not_equal_at, 1);
            reveal_with_fuel(operand_at, 1);
        }
        if !(p < s.len() && s.len() - p >= 2 && s[p] == 0x92 && s[p + 1] == 0x93) {
            return Err(ParseError::Error);
        }
        let (left, q1) = match Operand::p(s, p + 2) {
            Ok(x) => x,
            Err(_) => return Err(ParseError::Failure),
        };
        let (right, q2) = match Operand::p(s, q1) {
            Ok(x) => x,
            Err(_) => return Err(ParseError::Failure),
        };
        Ok((DefLNotEqual { left, right }, q2))
    }
}

/// `LOr(left, right)`.
#[derive(Debug)]
pub struct DefLOr {
    pub left: Operand,
    pub right: Operand,
}

/// `LOr(left, right)` at `p`: the opcode, then its operands in turn; once the opcode is read, an operand that does not parse is a `Failure`.
#[verifier::opaque]
pub open spec fn def_l_or_at(s: Seq<u8>, p: int) -> Result<(DefLOr, int), ParseError>
    decreases s.len() - p, 0int,
{
    if !(0 <= p && p + 1 <= s.len() && s[p] == 0x91) {
        Err(ParseError::Error)
    } else {
        match operand_at(s, p + 1) {
            Ok((left, q1)) => if !(p + 1 <= q1 <= s.len()) {
                Err(ParseError::Error)
            } else {
                match operand_at(s, q1) {
                    Ok((right, q2)) => {
                        Ok((DefLOr { left, right }, q2))
                    },
                    Err(_) => Err(ParseError::Failure),
                }
            },
            Err(_) => Err(ParseError::Failure),
        }
    }
}

impl DefLOr {
    /// Parses `LOr(left, right)` at `p`.
    pub fn p(s: &[u8], p: usize) -> (r: Result<(DefLOr, usize), ParseError>)
        requires
            p <= s@.len(),
        ensures
            parsed(r, def_l_or_at(s@, p as int), p as int, s@.len() as int),
        decreases s@.len() - p, 0int,
    {
        proof {
            reveal_with_fuel(def_l_or_at, 1);
            reveal_with_fuel(operand_at, 1);
        }
        if !(p < s.len() && s[p] == 0x91) {
            return Err(ParseError::Error);
        }
        let (left, q1) = match Operand::p(s, p + 1) {
            Ok(x) => x,
            Err(_) => return Err(ParseError::Failure),
        };
        let (right, q2) = match Operand::p(s, q1) {
            Ok(x) => x,
            Err(_) => return Err(ParseError::Failure),
        };
        Ok((DefLOr { left, right }, q2))
    }
}

/// `Buffer(size) { bytes }`.
#[derive(Debug)]
pub struct DefBuffer {
    pub len: TermArg,
    pub bytes: ByteList,
}

/// `Buffer(size) { bytes }` at `p`: the opcode, then a package whose contents are its parts in turn, which must fill it.
#[verifier::opaque]
pub open spec fn def_buffer_at(s: Seq<u8>, p: int) -> Result<(DefBuffer, int), ParseError>
    decreases s.len() - p, 0int,
{
    if !(0 <= p && p + 1 <= s.len() && s[p] == 0x11) {
        Err(ParseError::Error)
    } else {
        match pkg_at(s, p + 1) {
            Ok((b, e)) => if !(p + 1 < b <= e <= s.len()) {
                Err(ParseError::Error)
            } else {
                let t = s.subrange(0, e);
                match term_arg_at(t, b) {
                    Ok((len, q1)) => {
                        match byte_list_at(t, q1) {
                            Ok((bytes, q2)) => {
                                if q2 == e {
                                    Ok((DefBuffer { len, bytes }, e))
                                } else {
                                    Err(ParseError::Error)
                                }
                            },
                            Err(e) => Err(e),
                        }
                    },
                    Err(e) => Err(e),
                }
            },
            Err(e) => Err(e),
        }
    }
}

impl DefBuffer {
    /// Parses `Buffer(size) { bytes }` at `p`.
    pub fn p(s: &[u8], p: usize) -> (r: Result<(DefBuffer, usize), ParseError>)
        requires
            p <= s@.len(),
        ensures
            parsed(r, def_buffer_at(s@, p as int), p as int, s@.len() as int),
        decreases s@.len() - p, 0int,
    {
        proof {
            reveal_with_fuel(def_buffer_at, 1);
            reveal_with_fuel(term_arg_at, 1);
        }
        if !(p < s.len() && s[p] == 0x11) {
            return Err(ParseError::Error);
        }
        let (b, e) = match pkg_bounds(s, p + 1) {
            Ok(x) => x,
            Err(x) => return Err(x),
        };
        let t = vstd::slice::slice_subrange(s, 0, e);
        let (len, q1) = match TermArg::p(t, b) {
            Ok(x) => x,
            Err(x) => return Err(x),
        };
        let (bytes, q2) = match ByteList::p(t, q1) {
            Ok(x) => x,
            Err(x) => return Err(x),
        };
        if q2 != e {
            return Err(ParseError::Error);
        }
        Ok((DefBuffer { len, bytes }, e))
    }
}

/// `CondRefOf(name, target)`.
#[derive(Debug)]
pub struct DefCondRefOf {
    pub name: SuperName,
    pub target: Target,
}

/// `CondRefOf(name, target)` at `p`: the opcode, then its operands in turn; once the opcode is read, an operand that does not parse is a `Failure`.
#[verifier::opaque]
pub open spec fn def_cond_ref_of_at(s: Seq<u8>, p: int) -> Result<(DefCondRefOf, int), ParseError>
{
    if !(0 <= p && p + 2 <= s.len() && s[p] == 0x5b && s[p + 1] == 0x84) {
        Err(ParseError::Error)
    } else {
        match super_name_at(s, p + 2) {
            Ok((name, q1)) => {
                match target_at(s, q1) {
                    Ok((target, q2)) => {
                        Ok((DefCondRefOf { name, target }, q2))
                    },
                    Err(_) => Err(ParseError::Failure),
                }
            },
            Err(_) => Err(ParseError::Failure),
        }
    }
}

impl DefCondRefOf {
    /// Parses `CondRefOf(name, target)` at `p`.
    pub fn p(s: &[u8], p: usize) -> (r: Result<(DefCondRefOf, usize), ParseError>)
        requires
            p <= s@.len(),
        ensures
            parsed(r, def_cond_ref_of_at(s@, p as int), p as int, s@.len() as int),
    {
        proof {
            reveal(def_cond_ref_of_at);
        }
        if !(p < s.len() && s.len() - p >= 2 && s[p] == 0x5b && s[p + 1] == 0x84) {
            return Err(ParseError::Error);
        }
        let (name, q1) = match SuperName::p(s, p + 2) {
            Ok(x) => x,
            Err(_) => return Err(ParseError::Failure),
        };
        let (target, q2) = match Target::p(s, q1) {
            Ok(x) => x,
            Err(_) => return Err(ParseError::Failure),
        };
        Ok((DefCondRefOf { name, target }, q2))
    }
}

/// `CopyObject(argument, name)`.
#[derive(Debug)]
pub struct DefCopyObj {
    pub arg: TermArg,
    pub name: SimpleName,
}

/// `CopyObject(argument, name)` at `p`: the opcode, then its operands in turn; once the opcode is read, an operand that does not parse is a `Failure`.
#[verifier::opaque]
pub open spec fn def_copy_obj_at(s: Seq<u8>, p: int) -> Result<(DefCopyObj, int), ParseError>
    decreases s.len() - p, 0int,
{
    if !(0 <= p && p + 1 <= s.len() && s[p] == 0x9d) {
        Err(ParseError::Error)
    } else {
        match term_arg_at(s, p + 1) {
            Ok((arg, q1)) => {
                match simple_name_at(s, q1) {
                    Ok((name, q2)) => {
                        Ok((DefCopyObj { arg, name }, q2))
                    },
                    Err(_) => Err(ParseError::Failure),
                }
            },
            Err(_) => Err(ParseError::Failure),
        }
    }
}

impl DefCopyObj {
    /// Parses `CopyObject(argument, name)` at `p`.
    pub fn p(s: &[u8], p: usize) -> (r: Result<(DefCopyObj, usize), ParseError>)
        requires
            p <= s@.len(),
        ensures
            parsed(r, def_copy_obj_at(s@, p as int), p as int, s@.len() as int),
        decreases s@.len() - p, 0int,
    {
        proof {
            reveal_with_fuel(def_copy_obj_at, 1);
            reveal_with_fuel(term_arg_at, 1);
        }
        if !(p < s.len() && s[p] == 0x9d) {
            return Err(ParseError::Error);
        }
        let (arg, q1) = match TermArg::p(s, p + 1) {
            Ok(x) => x,
            Err(_) => return Err(ParseError::Failure),
        };
        let (name, q2) = match SimpleName::p(s, q1) {
            Ok(x) => x,
            Err(_) => return Err(ParseError::Failure),
        };
        Ok((DefCopyObj { arg, name }, q2))
    }
}

/// `Decrement(name)`.
#[derive(Debug)]
pub struct DefDecrement {
    pub name: SuperName,
}

/// `Decrement(name)` at `p`: the opcode, then its operands in turn; once the opcode is read, an operand that does not parse is a `Failure`.
#[verifier::opaque]
pub open spec fn def_decrement_at(s: Seq<u8>, p: int) -> Result<(DefDecrement, int), ParseError>
{
    if !(0 <= p && p + 1 <= s.len() && s[p] == 0x76) {
        Err(ParseError::Error)
    } else {
        match super_name_at(s, p + 1) {
            Ok((name, q1)) => {
                Ok((DefDecrement { name }, q1))
            },
            Err(_) => Err(ParseError::Failure),
        }
    }
}

impl DefDecrement {
    /// Parses `Decrement(name)` at `p`.
    pub fn p(s: &[u8], p: usize) -> (r: Result<(DefDecrement, usize), ParseError>)
        requires
            p <= s@.len(),
        ensures
            parsed(r, def_decrement_at(s@, p as int), p as int, s@.len() as int),
    {
        proof {
            reveal(def_decrement_at);
        }
        if !(p < s.len() && s[p] == 0x76) {
            return Err(ParseError::Error);
        }
        let (name, q1) = match SuperName::p(s, p + 1) {
            Ok(x) => x,
            Err(_) => return Err(ParseError::Failure),
        };
        Ok((DefDecrement { name }, q1))
    }
}

/// `DerefOf(reference)`.
#[derive(Debug)]
pub struct DefDerefOf {
    pub obj_ref: TermArg,
}

/// `DerefOf(reference)` at `p`: the opcode, then its operands in turn; once the opcode is read, an operand that does not parse is a `Failure`.
#[verifier::opaque]
pub open spec fn def_deref_of_at(s: Seq<u8>, p: int) -> Result<(DefDerefOf, int), ParseError>
    decreases s.len() - p, 0int,
{
    if !(0 <= p && p + 1 <= s.len() && s[p] == 0x83) {
        Err(ParseError::Error)
    } else {
        match term_arg_at(s, p + 1) {
            Ok((obj_ref, q1)) => {
                Ok((DefDerefOf { obj_ref }, q1))
            },
            Err(_) => Err(ParseError::Failure),
        }
    }
}

impl DefDerefOf {
    /// Parses `DerefOf(reference)` at `p`.
    pub fn p(s: &[u8], p: usize) -> (r: Result<(DefDerefOf, usize), ParseError>)
        requires
            p <= s@.len(),
        ensures
            parsed(r, def_deref_of_at(s@, p as int), p as int, s@.len() as int),
        decreases s@.len() - p, 0int,
    {
        proof {
            reveal_with_fuel(def_deref_of_at, 1);
            reveal_with_fuel(term_arg_at, 1);
        }
        if !(p < s.len() && s[p] == 0x83) {
            return Err(ParseError::Error);
        }
        let (obj_ref, q1) = match TermArg::p(s, p + 1) {
            Ok(x) => x,
            Err(_) => return Err(ParseError::Failure),
        };
        Ok((DefDerefOf { obj_ref }, q1))
    }
}

/// `Divide(dividend, divisor, remainder, quotient)`.
#[derive(Debug)]
pub struct DefDivide {
    pub dividend: TermArg,
    pub divisor: TermArg,
    pub remainder: Target,
    pub quotient: Target,
}

/// `Divide(dividend, divisor, remainder, quotient)` at `p`: the opcode, then its operands in turn; once the opcode is read, an operand that does not parse is a `Failure`.
#[verifier::opaque]
pub open spec fn def_divide_at(s: Seq<u8>, p: int) -> Result<(DefDivide, int), ParseError>
    decreases s.len() - p, 0int,
{
    if !(0 <= p && p + 1 <= s.len() && s[p] == 0x78) {
        Err(ParseError::Error)
    } else {
        match term_arg_at(s, p + 1) {
            Ok((dividend, q1)) => if !(p + 1 <= q1 <= s.len()) {
                Err(ParseError::Error)
            } else {
                match term_arg_at(s, q1) {
                    Ok((divisor, q2)) => {
                        match target_at(s, q2) {
                            Ok((remainder, q3)) => {
                                match target_at(s, q3) {
                                    Ok((quotient, q4)) => {
                                        Ok((DefDivide { dividend, divisor, remainder, quotient }, q4))
                                    },
                                    Err(_) => Err(ParseError::Failure),
                                }
                            },
                            Err(_) => Err(ParseError::Failure),
                        }
                    },
                    Err(_) => Err(ParseError::Failure),
                }
            },
            Err(_) => Err(ParseError::Failure),
        }
    }
}

impl DefDivide {
    /// Parses `Divide(dividend, divisor, remainder, quotient)` at `p`.
    pub fn p(s: &[u8], p: usize) -> (r: Result<(DefDivide, usize), ParseError>)
        requires
            p <= s@.len(),
        ensures
            parsed(r, def_divide_at(s@, p as int), p as int, s@.len() as int),
        decreases s@.len() - p, 0int,
    {
        proof {
            reveal_with_fuel(def_divide_at, 1);
            reveal_with_fuel(term_arg_at, 1);
        }
        if !(p < s.len() && s[p] == 0x78) {
            return Err(ParseError::Error);
        }
        let (dividend, q1) = match TermArg::p(s, p + 1) {
            Ok(x) => x,
            Err(_) => return Err(ParseError::Failure),
        };
        let (divisor, q2) = match TermArg::p(s, q1) {
            Ok(x) => x,
            Err(_) => return Err(ParseError::Failure),
        };
        let (remainder, q3) = match Target::p(s, q2) {
            Ok(x) => x,
            Err(_) => return Err(ParseError::Failure),
        };
        let (quotient, q4) = match Target::p(s, q3) {
            Ok(x) => x,
            Err(_) => return Err(ParseError::Failure),
        };
        Ok((DefDivide { dividend, divisor, remainder, quotient }, q4))
    }
}

/// `FromBCD(value, target)`.
#[derive(Debug)]
pub struct DefFromBcd {
    pub value: TermArg,
    pub target: Target,
}

/// `FromBCD(value, target)` at `p`: the opcode, then its operands in turn; once the opcode is read, an operand that does not parse is a `Failure`.
#[verifier::opaque]
pub open spec fn def_from_bcd_at(s: Seq<u8>, p: int) -> Result<(DefFromBcd, int), ParseError>
    decreases s.len() - p, 0int,
{
    if !(0 <= p && p + 2 <= s.len() && s[p] == 0x5b && s[p + 1] == 0x28) {
        Err(ParseError::Error)
    } else {
        match term_arg_at(s, p + 2) {
            Ok((value, q1)) => {
                match target_at(s, q1) {
                    Ok((target, q2)) => {
                        Ok((DefFromBcd { value, target }, q2))
                    },
                    Err(_) => Err(ParseError::Failure),
                }
            },
            Err(_) => Err(ParseError::Failure),
        }
    }
}

impl DefFromBcd {
    /// Parses `FromBCD(value, target)` at `p`.
    pub fn p(s: &[u8], p: usize) -> (r: Result<(DefFromBcd, usize), ParseError>)
        requires
            p <= s@.len(),
        ensures
            parsed(r, def_from_bcd_at(s@, p as int), p as int, s@.len() as int),
        decreases s@.len() - p, 0int,
    {
        proof {
            reveal_with_fuel(def_from_bcd_at, 1);
            reveal_with_fuel(term_arg_at, 1);
        }
        if !(p < s.len() && s.len() - p >= 2 && s[p] == 0x5b && s[p + 1] == 0x28) {
            return Err(ParseError::Error);
        }
        let (value, q1) = match TermArg::p(s, p + 2) {
            Ok(x) => x,
            Err(_) => return Err(ParseError::Failure),
        };
        let (target, q2) = match Target::p(s, q1) {
            Ok(x) => x,
            Err(_) => return Err(ParseError::Failure),
        };
        Ok((DefFromBcd { value, target }, q2))
    }
}

/// `Increment(name)`.
#[derive(Debug)]
pub struct DefIncrement {
    pub name: SuperName,
}

/// `Increment(name)` at `p`: the opcode, then its operands in turn; once the opcode is read, an operand that does not parse is a `Failure`.
#[verifier::opaque]
pub open spec fn def_increment_at(s: Seq<u8>, p: int) -> Result<(DefIncrement, int), ParseError>
{
    if !(0 <= p && p + 1 <= s.len() && s[p] == 0x75) {
        Err(ParseError::Error)
    } else {
        match super_name_at(s, p + 1) {
            Ok((name, q1)) => {
                Ok((DefIncrement { name }, q1))
            },
            Err(_) => Err(ParseError::Failure),
        }
    }
}

impl DefIncrement {
    /// Parses `Increment(name)` at `p`.
    pub fn p(s: &[u8], p: usize) -> (r: Result<(DefIncrement, usize), ParseError>)
        requires
            p <= s@.len(),
        ensures
            parsed(r, def_increment_at(s@, p as int), p as int, s@.len() as int),
    {
        proof {
            reveal(def_increment_at);
        }
        if !(p < s.len() && s[p] == 0x75) {
            return Err(ParseError::Error);
        }
        let (name, q1) = match SuperName::p(s, p + 1) {
            Ok(x) => x,
            Err(_) => return Err(ParseError::Failure),
        };
        Ok((DefIncrement { name }, q1))
    }
}

/// `Index(object, index, target)`.
#[derive(Debug)]
pub struct DefIndex {
    pub buf_pkg_str_obj: TermArg,
    pub index_value: TermArg,
    pub target: Target,
}

/// `Index(object, index, target)` at `p`: the opcode, then its operands in turn; once the opcode is read, an operand that does not parse is a `Failure`.
#[verifier::opaque]
pub open spec fn def_index_at(s: Seq<u8>, p: int) -> Result<(DefIndex, int), ParseError>
    decreases s.len() - p, 0int,
{
    if !(0 <= p && p + 1 <= s.len() && s[p] == 0x88) {
        Err(ParseError::Error)
    } else {
        match term_arg_at(s, p + 1) {
            Ok((buf_pkg_str_obj, q1)) => if !(p + 1 <= q1 <= s.len()) {
                Err(ParseError::Error)
            } else {
                match term_arg_at(s, q1) {
                    Ok((index_value, q2)) => {
                        match target_at(s, q2) {
                            Ok((target, q3)) => {
                                Ok((DefIndex { buf_pkg_str_obj, index_value, target }, q3))
                            },
                            Err(_) => Err(ParseError::Failure),
                        }
                    },
                    Err(_) => Err(ParseError::Failure),
                }
            },
            Err(_) => Err(ParseError::Failure),
        }
    }
}

impl DefIndex {
    /// Parses `Index(object, index, target)` at `p`.
    pub fn p(s: &[u8], p: usize) -> (r: Result<(DefIndex, usize), ParseError>)
        requires
            p <= s@.len(),
        ensures
            parsed(r, def_index_at(s@, p as int), p as int, s@.len() as int),
        decreases s@.len() - p, 0int,
    {
        proof {
            reveal_with_fuel(def_index_at, 1);
            reveal_with_fuel(term_arg_at, 1);
        }
        if !(p < s.len() && s[p] == 0x88) {
            return Err(ParseError::Error);
        }
        let (buf_pkg_str_obj, q1) = match TermArg::p(s, p + 1) {
            Ok(x) => x,
            Err(_) => return Err(ParseError::Failure),
        };
        let (index_value, q2) = match TermArg::p(s, q1) {
            Ok(x) => x,
            Err(_) => return Err(ParseError::Failure),
        };
        let (target, q3) = match Target::p(s, q2) {
            Ok(x) => x,
            Err(_) => return Err(ParseError::Failure),
        };
        Ok((DefIndex { buf_pkg_str_obj, index_value, target }, q3))
    }
}

/// `LNot(operand)`.
#[derive(Debug)]
pub struct DefLNot {
    pub operand: Operand,
}

/// `LNot(operand)` at `p`: the opcode, then its operands in turn; once the opcode is read, an operand that does not parse is a `Failure`.
#[verifier::opaque]
pub open spec fn def_l_not_at(s: Seq<u8>, p: int) -> Result<(DefLNot, int), ParseError>
    decreases s.len() - p, 0int,
{
    if !(0 <= p && p + 1 <= s.len() && s[p] == 0x92) {
        Err(ParseError::Error)
    } else {
        match operand_at(s, p + 1) {
            Ok((operand, q1)) => {
                Ok((DefLNot { operand }, q1))
            },
            Err(_) => Err(ParseError::Failure),
        }
    }
}

impl DefLNot {
    /// Parses `LNot(operand)` at `p`.
    pub fn p(s: &[u8], p: usize) -> (r: Result<(DefLNot, usize), ParseError>)
        requires
            p <= s@.len(),
        ensures
            parsed(r, def_l_not_at(s@, p as int), p as int, s@.len() as int),
        decreases s@.len() - p, 0int,
    {
        proof {
            reveal_with_fuel(def_l_not_at, 1);
            reveal_with_fuel(operand_at, 1);
        }
        if !(p < s.len() && s[p] == 0x92) {
            return Err(ParseError::Error);
        }
        let (operand, q1) = match Operand::p(s, p + 1) {
            Ok(x) => x,
            Err(_) => return Err(ParseError::Failure),
        };
        Ok((DefLNot { operand }, q1))
    }
}

/// `Load(name, target)`.
#[derive(Debug)]
pub struct DefLoad {
    pub name: NameString,
    pub target: Target,
}

/// `Load(name, target)` at `p`: the opcode, then its operands in turn; once the opcode is read, an operand that does not parse is a `Failure`.
#[verifier::opaque]
pub open spec fn def_load_at(s: Seq<u8>, p: int) -> Result<(DefLoad, int), ParseError>
{
    if !(0 <= p && p + 2 <= s.len() && s[p] == 0x5b && s[p + 1] == 0x20) {
        Err(ParseError::Error)
    } else {
        match name_string_at(s, p + 2) {
            Ok((name, q1)) => {
                match target_at(s, q1) {
                    Ok((target, q2)) => {
                        Ok((DefLoad { name, target }, q2))
                    },
                    Err(_) => Err(ParseError::Failure),
                }
            },
            Err(_) => Err(ParseError::Failure),
        }
    }
}

impl DefLoad {
    /// Parses `Load(name, target)` at `p`.
    pub fn p(s: &[u8], p: usize) -> (r: Result<(DefLoad, usize), ParseError>)
        requires
            p <= s@.len(),
        ensures
            parsed(r, def_load_at(s@, p as int), p as int, s@.len() as int),
    {
        proof {
            reveal(def_load_at);
        }
        if !(p < s.len() && s.len() - p >= 2 && s[p] == 0x5b && s[p + 1] == 0x20) {
            return Err(ParseError::Error);
        }
        let (name, q1) = match NameString::p(s, p + 2) {
            Ok(x) => x,
            Err(_) => return Err(ParseError::Failure),
        };
        let (target, q2) = match Target::p(s, q1) {
            Ok(x) => x,
            Err(_) => return Err(ParseError::Failure),
        };
        Ok((DefLoad { name, target }, q2))
    }
}

/// `LoadTable(signature, OEM id, OEM table id, root path, parameter path, parameter data)`.
#[derive(Debug)]
pub struct DefLoadTable {
    pub arg1: TermArg,
    pub arg2: TermArg,
    pub arg3: TermArg,
    pub arg4: TermArg,
    pub arg5: TermArg,
    pub arg6: TermArg,
}

/// `LoadTable(signature, OEM id, OEM table id, root path, parameter path, parameter data)` at `p`: the opcode, then its operands in turn; once the opcode is read, an operand that does not parse is a `Failure`.
#[verifier::opaque]
pub open spec fn def_load_table_at(s: Seq<u8>, p: int) -> Result<(DefLoadTable, int), ParseError>
    decreases s.len() - p, 0int,
{
    if !(0 <= p && p + 2 <= s.len() && s[p] == 0x5b && s[p + 1] == 0x1f) {
        Err(ParseError::Error)
    } else {
        match term_arg_at(s, p + 2) {
            Ok((arg1, q1)) => if !(p + 2 <= q1 <= s.len()) {
                Err(ParseError::Error)
            } else {
                match term_arg_at(s, q1) {
                    Ok((arg2, q2)) => if !(p + 2 <= q2 <= s.len()) {
                        Err(ParseError::Error)
                    } else {
                        match term_arg_at(s, q2) {
                            Ok((arg3, q3)) => if !(p + 2 <= q3 <= s.len()) {
                                Err(ParseError::Error)
                            } else {
                                match term_arg_at(s, q3) {
                                    Ok((arg4, q4)) => if !(p + 2 <= q4 <= s.len()) {
                                        Err(ParseError::Error)
                                    } else {
                                        match term_arg_at(s, q4) {
                                            Ok((arg5, q5)) => if !(p + 2 <= q5 <= s.len()) {
                                                Err(ParseError::Error)
                                            } else {
                                                match term_arg_at(s, q5) {
                                                    Ok((arg6, q6)) => {
                                                        Ok((DefLoadTable { arg1, arg2, arg3, arg4, arg5, arg6 }, q6))
                                                    },
                                                    Err(_) => Err(ParseError::Failure),
                                                }
                                            },
                                            Err(_) => Err(ParseError::Failure),
                                        }
                                    },
                                    Err(_) => Err(ParseError::Failure),
                                }
                            },
                            Err(_) => Err(ParseError::Failure),
                        }
                    },
                    Err(_) => Err(ParseError::Failure),
                }
            },
            Err(_) => Err(ParseError::Failure),
        }
    }
}

impl DefLoadTable {
    /// Parses `LoadTable(signature, OEM id, OEM table id, root path, parameter path, parameter data)` at `p`.
    pub fn p(s: &[u8], p: usize) -> (r: Result<(DefLoadTable, usize), ParseError>)
        requires
            p <= s@.len(),
        ensures
            parsed(r, def_load_table_at(s@, p as int), p as int, s@.len() as int),
        decreases s@.len() - p, 0int,
    {
        proof {
            reveal_with_fuel(def_load_table_at, 1);
            reveal_with_fuel(term_arg_at, 1);
        }
        if !(p < s.len() && s.len() - p >= 2 && s[p] == 0x5b && s[p + 1] == 0x1f) {
            return Err(ParseError::Error);
        }
        let (arg1, q1) = match TermArg::p(s, p + 2) {
            Ok(x) => x,
            Err(_) => return Err(ParseError::Failure),
        };
        let (arg2, q2) = match TermArg::p(s, q1) {
            Ok(x) => x,
            Err(_) => return Err(ParseError::Failure),
        };
        let (arg3, q3) = match TermArg::p(s, q2) {
            Ok(x) => x,
            Err(_) => return Err(ParseError::Failure),
        };
        let (arg4, q4) = match TermArg::p(s, q3) {
            Ok(x) => x,
            Err(_) => return Err(ParseError::Failure),
        };
        let (arg5, q5) = match TermArg::p(s, q4) {
            Ok(x) => x,
            Err(_) => return Err(ParseError::Failure),
        };
        let (arg6, q6) = match TermArg::p(s, q5) {
            Ok(x) => x,
            Err(_) => return Err(ParseError::Failure),
        };
        Ok((DefLoadTable { arg1, arg2, arg3, arg4, arg5, arg6 }, q6))
    }
}

/// `Match(package, opcode, operand, opcode, operand, start index)`.
#[derive(Debug)]
pub struct DefMatch {
    pub search_pkg: TermArg,
    pub left_match_opcode: u8,
    pub left: Operand,
    pub right_match_opcode: u8,
    pub right: Operand,
    pub start_index: TermArg,
}

/// `Match(package, opcode, operand, opcode, operand, start index)` at `p`: the opcode, then its operands in turn; once the opcode is read, an operand that does not parse is a `Failure`.
#[verifier::opaque]
pub open spec fn def_match_at(s: Seq<u8>, p: int) -> Result<(DefMatch, int), ParseError>
    decreases s.len() - p, 0int,
{
    if !(0 <= p && p + 1 <= s.len() && s[p] == 0x89) {
        Err(ParseError::Error)
    } else {
        match term_arg_at(s, p + 1) {
            Ok((search_pkg, q1)) => {
                match byte_data_at(s, q1) {
                    Ok((left_match_opcode, q2)) => if !(p + 1 <= q2 <= s.len()) {
                        Err(ParseError::Error)
                    } else {
                        match operand_at(s, q2) {
                            Ok((left, q3)) => {
                                match byte_data_at(s, q3) {
                                    Ok((right_match_opcode, q4)) => if !(p + 1 <= q4 <= s.len()) {
                                        Err(ParseError::Error)
                                    } else {
                                        match operand_at(s, q4) {
                                            Ok((right, q5)) => if !(p + 1 <= q5 <= s.len()) {
                                                Err(ParseError::Error)
                                            } else {
                                                match term_arg_at(s, q5) {
                                                    Ok((start_index, q6)) => {
                                                        Ok((DefMatch { search_pkg, left_match_opcode, left, right_match_opcode, right, start_index }, q6))
                                                    },
                                                    Err(_) => Err(ParseError::Failure),
                                                }
                                            },
                                            Err(_) => Err(ParseError::Failure),
                                        }
                                    },
                                    Err(_) => Err(ParseError::Failure),
                                }
                            },
                            Err(_) => Err(ParseError::Failure),
                        }
                    },
                    Err(_) => Err(ParseError::Failure),
                }
            },
            Err(_) => Err(ParseError::Failure),
        }
    }
}

impl DefMatch {
    /// Parses `Match(package, opcode, operand, opcode, operand, start index)` at `p`.
    pub fn p(s: &[u8], p: usize) -> (r: Result<(DefMatch, usize), ParseError>)
        requires
            p <= s@.len(),
        ensures
            parsed(r, def_match_at(s@, p as int), p as int, s@.len() as int),
        decreases s@.len() - p, 0int,
    {
        proof {
            reveal_with_fuel(def_match_at, 1);
            reveal_with_fuel(term_arg_at, 1);
            reveal_with_fuel(operand_at, 1);
        }
        if !(p < s.len() && s[p] == 0x89) {
            return Err(ParseError::Error);
        }
        let (search_pkg, q1) = match TermArg::p(s, p + 1) {
            Ok(x) => x,
            Err(_) => return Err(ParseError::Failure),
        };
        let (left_match_opcode, q2) = match byte_data(s, q1) {
            Ok(x) => x,
            Err(_) => return Err(ParseError::Failure),
        };
        let (left, q3) = match Operand::p(s, q2) {
            Ok(x) => x,
            Err(_) => return Err(ParseError::Failure),
        };
        let (right_match_opcode, q4) = match byte_data(s, q3) {
            Ok(x) => x,
            Err(_) => return Err(ParseError::Failure),
        };
        let (right, q5) = match Operand::p(s, q4) {
            Ok(x) => x,
            Err(_) => return Err(ParseError::Failure),
        };
        let (start_index, q6) = match TermArg::p(s, q5) {
            Ok(x) => x,
            Err(_) => return Err(ParseError::Failure),
        };
        Ok((DefMatch { search_pkg, left_match_opcode, left, right_match_opcode, right, start_index }, q6))
    }
}

/// `Mid(object, index, length, target)`.
#[derive(Debug)]
pub struct DefMid {
    pub mid_obj: TermArg,
    pub term1: TermArg,
    pub term2: TermArg,
    pub target: Target,
}

/// `Mid(object, index, length, target)` at `p`: the opcode, then its operands in turn; once the opcode is read, an operand that does not parse is a `Failure`.
#[verifier::opaque]
pub open spec fn def_mid_at(s: Seq<u8>, p: int) -> Result<(DefMid, int), ParseError>
    decreases s.len() - p, 0int,
{
    if !(0 <= p && p + 1 <= s.len() && s[p] == 0x9e) {
        Err(ParseError::Error)
    } else {
        match term_arg_at(s, p + 1) {
            Ok((mid_obj, q1)) => if !(p + 1 <= q1 <= s.len()) {
                Err(ParseError::Error)
            } else {
                match term_arg_at(s, q1) {
                    Ok((term1, q2)) => if !(p + 1 <= q2 <= s.len()) {
                        Err(ParseError::Error)
                    } else {
                        match term_arg_at(s, q2) {
                            Ok((term2, q3)) => {
                                match target_at(s, q3) {
                                    Ok((target, q4)) => {
                                        Ok((DefMid { mid_obj, term1, term2, target }, q4))
                                    },
                                    Err(_) => Err(ParseError::Failure),
                                }
                            },
                            Err(_) => Err(ParseError::Failure),
                        }
                    },
                    Err(_) => Err(ParseError::Failure),
                }
            },
            Err(_) => Err(ParseError::Failure),
        }
    }
}

impl DefMid {
    /// Parses `Mid(object, index, length, target)` at `p`.
    pub fn p(s: &[u8], p: usize) -> (r: Result<(DefMid, usize), ParseError>)
        requires
            p <= s@.len(),
        ensures
            parsed(r, def_mid_at(s@, p as int), p as int, s@.len() as int),
        decreases s@.len() - p, 0int,
    {
        proof {
            reveal_with_fuel(def_mid_at, 1);
            reveal_with_fuel(term_arg_at, 1);
        }
        if !(p < s.len() && s[p] == 0x9e) {
            return Err(ParseError::Error);
        }
        let (mid_obj, q1) = match TermArg::p(s, p + 1) {
            Ok(x) => x,
            Err(_) => return Err(ParseError::Failure),
        };
        let (term1, q2) = match TermArg::p(s, q1) {
            Ok(x) => x,
            Err(_) => return Err(ParseError::Failure),
        };
        let (term2, q3) = match TermArg::p(s, q2) {
            Ok(x) => x,
            Err(_) => return Err(ParseError::Failure),
        };
        let (target, q4) = match Target::p(s, q3) {
            Ok(x) => x,
            Err(_) => return Err(ParseError::Failure),
        };
        Ok((DefMid { mid_obj, term1, term2, target }, q4))
    }
}

/// `Mod(dividend, divisor, target)`.
#[derive(Debug)]
pub struct DefMod {
    pub dividend: TermArg,
    pub divisor: TermArg,
    pub target: Target,
}

/// `Mod(dividend, divisor, target)` at `p`: the opcode, then its operands in turn; once the opcode is read, an operand that does not parse is a `Failure`.
#[verifier::opaque]
pub open spec fn def_mod_at(s: Seq<u8>, p: int) -> Result<(DefMod, int), ParseError>
    decreases s.len() - p, 0int,
{
    if !(0 <= p && p + 1 <= s.len() && s[p] == 0x85) {
        Err(ParseError::Error)
    } else {
        match term_arg_at(s, p + 1) {
            Ok((dividend, q1)) => if !(p + 1 <= q1 <= s.len()) {
                Err(ParseError::Error)
            } else {
                match term_arg_at(s, q1) {
                    Ok((divisor, q2)) => {
                        match target_at(s, q2) {
                            Ok((target, q3)) => {
                                Ok((DefMod { dividend, divisor, target }, q3))
                            },
                            Err(_) => Err(ParseError::Failure),
                        }
                    },
                    Err(_) => Err(ParseError::Failure),
                }
            },
            Err(_) => Err(ParseError::Failure),
        }
    }
}

impl DefMod {
    /// Parses `Mod(dividend, divisor, target)` at `p`.
    pub fn p(s: &[u8], p: usize) -> (r: Result<(DefMod, usize), ParseError>)
        requires
            p <= s@.len(),
        ensures
            parsed(r, def_mod_at(s@, p as int), p as int, s@.len() as int),
        decreases s@.len() - p, 0int,
    {
        proof {
            reveal_with_fuel(def_mod_at, 1);
            reveal_with_fuel(term_arg_at, 1);
        }
        if !(p < s.len() && s[p] == 0x85) {
            return Err(ParseError::Error);
        }
        let (dividend, q1) = match TermArg::p(s, p + 1) {
            Ok(x) => x,
            Err(_) => return Err(ParseError::Failure),
        };
        let (divisor, q2) = match TermArg::p(s, q1) {
            Ok(x) => x,
            Err(_) => return Err(ParseError::Failure),
        };
        let (target, q3) = match Target::p(s, q2) {
            Ok(x) => x,
            Err(_) => return Err(ParseError::Failure),
        };
        Ok((DefMod { dividend, divisor, target }, q3))
    }
}

/// `ObjectType(object)`.
#[derive(Debug)]
pub enum DefObjType {
    SimpleName(SimpleName),
    DebugObj(DebugObj),
    DefRefOf(DefRefOf),
    DefDerefOf(DefDerefOf),
    DefIndex(DefIndex),
}

/// `ObjectType(object)` at `p`: its opcode, then the first alternative that does not fail with `Error`; finding none is a `Failure`.
#[verifier::opaque]
pub open spec fn def_obj_type_at(s: Seq<u8>, p: int) -> Result<(DefObjType, int), ParseError>
    decreases s.len() - p, 0int,
{
    if !(0 <= p && p + 1 <= s.len() && s[p] == 0x8e) {
        Err(ParseError::Error)
    } else {
        match simple_name_at(s, p + 1) {
            Ok((v, q)) => Ok((DefObjType::SimpleName(v), q)),
            Err(ParseError::Failure) => Err(ParseError::Failure),
            Err(ParseError::Error) => {
                match debug_obj_at(s, p + 1) {
                    Ok((v, q)) => Ok((DefObjType::DebugObj(v), q)),
                    Err(ParseError::Failure) => Err(ParseError::Failure),
                    Err(ParseError::Error) => {
                        match def_ref_of_at(s, p + 1) {
                            Ok((v, q)) => Ok((DefObjType::DefRefOf(v), q)),
                            Err(ParseError::Failure) => Err(ParseError::Failure),
                            Err(ParseError::Error) => {
                                match def_deref_of_at(s, p + 1) {
                                    Ok((v, q)) => Ok((DefObjType::DefDerefOf(v), q)),
                                    Err(ParseError::Failure) => Err(ParseError::Failure),
                                    Err(ParseError::Error) => {
                                        match def_index_at(s, p + 1) {
                                            Ok((v, q)) => Ok((DefObjType::DefIndex(v), q)),
                                            Err(_) => Err(ParseError::Failure),
                                        }
                                    },
                                }
                            },
                        }
                    },
                }
            },
        }
    }
}

impl DefObjType {
    /// Parses `ObjectType(object)` at `p`.
    pub fn p(s: &[u8], p: usize) -> (r: Result<(DefObjType, usize), ParseError>)
        requires
            p <= s@.len(),
        ensures
            parsed(r, def_obj_type_at(s@, p as int), p as int, s@.len() as int),
        decreases s@.len() - p, 0int,
    {
        proof {
            reveal_with_fuel(def_obj_type_at, 1);
            reveal_with_fuel(def_deref_of_at, 1);
            reveal_with_fuel(def_index_at, 1);
        }
        if !(p < s.len() && s[p] == 0x8e) {
            return Err(ParseError::Error);
        }
        match SimpleName::p(s, p + 1) {
            Ok((v, q)) => return Ok((DefObjType::SimpleName(v), q)),
            Err(ParseError::Failure) => return Err(ParseError::Failure),
            Err(ParseError::Error) => {},
        }
        match DebugObj::p(s, p + 1) {
            Ok((v, q)) => return Ok((DefObjType::DebugObj(v), q)),
            Err(ParseError::Failure) => return Err(ParseError::Failure),
            Err(ParseError::Error) => {},
        }
        match DefRefOf::p(s, p + 1) {
            Ok((v, q)) => return Ok((DefObjType::DefRefOf(v), q)),
            Err(ParseError::Failure) => return Err(ParseError::Failure),
            Err(ParseError::Error) => {},
        }
        match DefDerefOf::p(s, p + 1) {
            Ok((v, q)) => return Ok((DefObjType::DefDerefOf(v), q)),
            Err(ParseError::Failure) => return Err(ParseError::Failure),
            Err(ParseError::Error) => {},
        }
        match DefIndex::p(s, p + 1) {
            Ok((v, q)) => Ok((DefObjType::DefIndex(v), q)),
            Err(_) => Err(ParseError::Failure),
        }
    }
}

/// `Package(count) { elements }`.
#[derive(Debug)]
pub struct DefPkg {
    pub len: usize,
    pub elements: PkgElementList,
}

/// `Package(count) { elements }` at `p`: the opcode, then a package whose contents are its parts in turn, which must fill it.
#[verifier::opaque]
pub open spec fn def_pkg_at(s: Seq<u8>, p: int) -> Result<(DefPkg, int), ParseError>
    decreases s.len() - p, 0int,
{
    if !(0 <= p && p + 1 <= s.len() && s[p] == 0x12) {
        Err(ParseError::Error)
    } else {
        match pkg_at(s, p + 1) {
            Ok((b, e)) => if !(p + 1 < b <= e <= s.len()) {
                Err(ParseError::Error)
            } else {
                let t = s.subrange(0, e);
                match byte_data_at(t, b) {
                    Ok((len, q1)) => if !(b <= q1 <= t.len()) {
                        Err(ParseError::Error)
                    } else {
                        match pkg_element_list_at(t, q1) {
                            Ok((elements, q2)) => {
                                if q2 == e {
                                    Ok((DefPkg { len: len as usize, elements }, e))
                                } else {
                                    Err(ParseError::Error)
                                }
                            },
                            Err(e) => Err(e),
                        }
                    },
                    Err(e) => Err(e),
                }
            },
            Err(e) => Err(e),
        }
    }
}

impl DefPkg {
    /// Parses `Package(count) { elements }` at `p`.
    pub fn p(s: &[u8], p: usize) -> (r: Result<(DefPkg, usize), ParseError>)
        requires
            p <= s@.len(),
        ensures
            parsed(r, def_pkg_at(s@, p as int), p as int, s@.len() as int),
        decreases s@.len() - p, 0int,
    {
        proof {
            reveal_with_fuel(def_pkg_at, 1);
            reveal_with_fuel(pkg_element_list_at, 1);
        }
        if !(p < s.len() && s[p] == 0x12) {
            return Err(ParseError::Error);
        }
        let (b, e) = match pkg_bounds(s, p + 1) {
            Ok(x) => x,
            Err(x) => return Err(x),
        };
        let t = vstd::slice::slice_subrange(s, 0, e);
        let (len, q1) = match byte_data(t, b) {
            Ok(x) => x,
            Err(x) => return Err(x),
        };
        let (elements, q2) = match PkgElementList::p(t, q1) {
            Ok(x) => x,
            Err(x) => return Err(x),
        };
        if q2 != e {
            return Err(ParseError::Error);
        }
        Ok((DefPkg { len: len as usize, elements }, e))
    }
}

/// `VarPackage(count) { elements }`.
#[derive(Debug)]
pub struct DefVarPkg {
    pub len: TermArg,
    pub elements: PkgElementList,
}

/// `VarPackage(count) { elements }` at `p`: the opcode, then a package whose contents are its parts in turn, which must fill it.
#[verifier::opaque]
pub open spec fn def_var_pkg_at(s: Seq<u8>, p: int) -> Result<(DefVarPkg, int), ParseError>
    decreases s.len() - p, 0int,
{
    if !(0 <= p && p + 1 <= s.len() && s[p] == 0x13) {
        Err(ParseError::Error)
    } else {
        match pkg_at(s, p + 1) {
            Ok((b, e)) => if !(p + 1 < b <= e <= s.len()) {
                Err(ParseError::Error)
            } else {
                let t = s.subrange(0, e);
                match term_arg_at(t, b) {
                    Ok((len, q1)) => if !(b <= q1 <= t.len()) {
                        Err(ParseError::Error)
                    } else {
                        match pkg_element_list_at(t, q1) {
                            Ok((elements, q2)) => {
                                if q2 == e {
                                    Ok((DefVarPkg { len, elements }, e))
                                } else {
                                    Err(ParseError::Error)
                                }
                            },
                            Err(e) => Err(e),
                        }
                    },
                    Err(e) => Err(e),
                }
            },
            Err(e) => Err(e),
        }
    }
}

impl DefVarPkg {
    /// Parses `VarPackage(count) { elements }` at `p`.
    pub fn p(s: &[u8], p: usize) -> (r: Result<(DefVarPkg, usize), ParseError>)
        requires
            p <= s@.len(),
        ensures
            parsed(r, def_var_pkg_at(s@, p as int), p as int, s@.len() as int),
        decreases s@.len() - p, 0int,
    {
        proof {
            reveal_with_fuel(def_var_pkg_at, 1);
            reveal_with_fuel(term_arg_at, 1);
            reveal_with_fuel(pkg_element_list_at, 1);
        }
        if !(p < s.len() && s[p] == 0x13) {
            return Err(ParseError::Error);
        }
        let (b, e) = match pkg_bounds(s, p + 1) {
            Ok(x) => x,
            Err(x) => return Err(x),
        };
        let t = vstd::slice::slice_subrange(s, 0, e);
        let (len, q1) = match TermArg::p(t, b) {
            Ok(x) => x,
            Err(x) => return Err(x),
        };
        let (elements, q2) = match PkgElementList::p(t, q1) {
            Ok(x) => x,
            Err(x) => return Err(x),
        };
        if q2 != e {
            return Err(ParseError::Error);
        }
        Ok((DefVarPkg { len, elements }, e))
    }
}

/// The elements of a package.
#[derive(Debug)]
pub struct PkgElementList(pub List<PkgElement>);

/// The elements of a package: items as long as one parses; an item that fails to commit ends the list.
#[verifier::opaque]
pub open spec fn pkg_element_list_at(s: Seq<u8>, p: int) -> Result<(PkgElementList, int), ParseError>
    decreases s.len() - p, 5int,
{
    if !(0 <= p <= s.len()) {
        Err(ParseError::Error)
    } else {
        match pkg_element_at(s, p) {
            Ok((v, q)) => if !(p < q <= s.len()) {
                Err(ParseError::Error)
            } else {
                match pkg_element_list_at(s, q) {
                    Ok((rest, r)) => Ok((PkgElementList(List::Cons(Box::new(v), Box::new(rest.0))), r)),
                    Err(x) => Err(x),
                }
            },
            Err(ParseError::Error) => Ok((PkgElementList(List::Nil), p)),
            Err(ParseError::Failure) => Err(ParseError::Failure),
        }
    }
}

impl PkgElementList {
    /// Parses the list at `p`.
    pub fn p(s: &[u8], p: usize) -> (r: Result<(PkgElementList, usize), ParseError>)
        requires
            p <= s@.len(),
        ensures
            parsed_any(r, pkg_element_list_at(s@, p as int), p as int, s@.len() as int),
        decreases s@.len() - p, 5int,
    {
        proof {
            reveal_with_fuel(pkg_element_list_at, 1);
            reveal_with_fuel(pkg_element_at, 1);
        }
        match PkgElement::p(s, p) {
            Ok((v, q)) => match PkgElementList::p(s, q) {
                Ok((rest, r)) => Ok((PkgElementList(List::Cons(Box::new(v), Box::new(rest.0))), r)),
                Err(x) => Err(x),
            },
            Err(ParseError::Error) => Ok((PkgElementList(List::Nil), p)),
            Err(ParseError::Failure) => Err(ParseError::Failure),
        }
    }
}

/// An element of a package: data or a name.
#[derive(Debug)]
pub enum PkgElement {
    DataRefObj(DataRefObj),
    NameString(NameString),
}

/// An element of a package at `p`: the first alternative that does not fail with `Error`, or the failure that ends the choice.
#[verifier::opaque]
pub open spec fn pkg_element_at(s: Seq<u8>, p: int) -> Result<(PkgElement, int), ParseError>
    decreases s.len() - p, 4int,
{
    match data_ref_obj_at(s, p) {
        Ok((v, q)) => Ok((PkgElement::DataRefObj(v), q)),
        Err(ParseError::Failure) => Err(ParseError::Failure),
        Err(ParseError::Error) => {
            match name_string_at(s, p) {
                Ok((v, q)) => Ok((PkgElement::NameString(v), q)),
                Err(x) => Err(x),
            }
        },
    }
}

impl PkgElement {
    /// Parses an element of a package at `p`.
    pub fn p(s: &[u8], p: usize) -> (r: Result<(PkgElement, usize), ParseError>)
        requires
            p <= s@.len(),
        ensures
            parsed(r, pkg_element_at(s@, p as int), p as int, s@.len() as int),
        decreases s@.len() - p, 4int,
    {
        proof {
            reveal_with_fuel(pkg_element_at, 1);
            reveal_with_fuel(data_ref_obj_at, 1);
        }
        match DataRefObj::p(s, p) {
            Ok((v, q)) => return Ok((PkgElement::DataRefObj(v), q)),
            Err(ParseError::Failure) => return Err(ParseError::Failure),
            Err(ParseError::Error) => {},
        }
        match NameString::p(s, p) {
            Ok((v, q)) => Ok((PkgElement::NameString(v), q)),
            Err(x) => Err(x),
        }
    }
}

/// `RefOf(name)`.
#[derive(Debug)]
pub struct DefRefOf {
    pub name: SuperName,
}

/// `RefOf(name)` at `p`: the opcode, then its operands in turn; once the opcode is read, an operand that does not parse is a `Failure`.
#[verifier::opaque]
pub open spec fn def_ref_of_at(s: Seq<u8>, p: int) -> Result<(DefRefOf, int), ParseError>
{
    if !(0 <= p && p + 1 <= s.len() && s[p] == 0x71) {
        Err(ParseError::Error)
    } else {
        match super_name_at(s, p + 1) {
            Ok((name, q1)) => {
                Ok((DefRefOf { name }, q1))
            },
            Err(_) => Err(ParseError::Failure),
        }
    }
}

impl DefRefOf {
    /// Parses `RefOf(name)` at `p`.
    pub fn p(s: &[u8], p: usize) -> (r: Result<(DefRefOf, usize), ParseError>)
        requires
            p <= s@.len(),
        ensures
            parsed(r, def_ref_of_at(s@, p as int), p as int, s@.len() as int),
    {
        proof {
            reveal(def_ref_of_at);
        }
        if !(p < s.len() && s[p] == 0x71) {
            return Err(ParseError::Error);
        }
        let (name, q1) = match SuperName::p(s, p + 1) {
            Ok(x) => x,
            Err(_) => return Err(ParseError::Failure),
        };
        Ok((DefRefOf { name }, q1))
    }
}

/// `ShiftLeft(operand, count, target)`.
#[derive(Debug)]
pub struct DefShiftLeft {
    pub operand: Operand,
    pub shift_count: TermArg,
    pub target: Target,
}

/// `ShiftLeft(operand, count, target)` at `p`: the opcode, then its operands in turn; once the opcode is read, an operand that does not parse is a `Failure`.
#[verifier::opaque]
pub open spec fn def_shift_left_at(s: Seq<u8>, p: int) -> Result<(DefShiftLeft, int), ParseError>
    decreases s.len() - p, 0int,
{
    if !(0 <= p && p + 1 <= s.len() && s[p] == 0x79) {
        Err(ParseError::Error)
    } else {
        match operand_at(s, p + 1) {
            Ok((operand, q1)) => if !(p + 1 <= q1 <= s.len()) {
                Err(ParseError::Error)
            } else {
                match term_arg_at(s, q1) {
                    Ok((shift_count, q2)) => {
                        match target_at(s, q2) {
                            Ok((target, q3)) => {
                                Ok((DefShiftLeft { operand, shift_count, target }, q3))
                            },
                            Err(_) => Err(ParseError::Failure),
                        }
                    },
                    Err(_) => Err(ParseError::Failure),
                }
            },
            Err(_) => Err(ParseError::Failure),
        }
    }
}

impl DefShiftLeft {
    /// Parses `ShiftLeft(operand, count, target)` at `p`.
    pub fn p(s: &[u8], p: usize) -> (r: Result<(DefShiftLeft, usize), ParseError>)
        requires
            p <= s@.len(),
        ensures
            parsed(r, def_shift_left_at(s@, p as int), p as int, s@.len() as int),
        decreases s@.len() - p, 0int,
    {
        proof {
            reveal_with_fuel(def_shift_left_at, 1);
            reveal_with_fuel(operand_at, 1);
            reveal_with_fuel(term_arg_at, 1);
        }
        if !(p < s.len() && s[p] == 0x79) {
            return Err(ParseError::Error);
        }
        let (operand, q1) = match Operand::p(s, p + 1) {
            Ok(x) => x,
            Err(_) => return Err(ParseError::Failure),
        };
        let (shift_count, q2) = match TermArg::p(s, q1) {
            Ok(x) => x,
            Err(_) => return Err(ParseError::Failure),
        };
        let (target, q3) = match Target::p(s, q2) {
            Ok(x) => x,
            Err(_) => return Err(ParseError::Failure),
        };
        Ok((DefShiftLeft { operand, shift_count, target }, q3))
    }
}

/// `ShiftRight(operand, count, target)`.
#[derive(Debug)]
pub struct DefShiftRight {
    pub operand: Operand,
    pub shift_count: TermArg,
    pub target: Target,
}

/// `ShiftRight(operand, count, target)` at `p`: the opcode, then its operands in turn; once the opcode is read, an operand that does not parse is a `Failure`.
#[verifier::opaque]
pub open spec fn def_shift_right_at(s: Seq<u8>, p: int) -> Result<(DefShiftRight, int), ParseError>
    decreases s.len() - p, 0int,
{
    if !(0 <= p && p + 1 <= s.len() && s[p] == 0x7a) {
        Err(ParseError::Error)
    } else {
        match operand_at(s, p + 1) {
            Ok((operand, q1)) => if !(p + 1 <= q1 <= s.len()) {
                Err(ParseError::Error)
            } else {
                match term_arg_at(s, q1) {
                    Ok((shift_count, q2)) => {
                        match target_at(s, q2) {
                            Ok((target, q3)) => {
                                Ok((DefShiftRight { operand, shift_count, target }, q3))
                            },
                            Err(_) => Err(ParseError::Failure),
                        }
                    },
                    Err(_) => Err(ParseError::Failure),
                }
            },
            Err(_) => Err(ParseError::Failure),
        }
    }
}

impl DefShiftRight {
    /// Parses `ShiftRight(operand, count, target)` at `p`.
    pub fn p(s: &[u8], p: usize) -> (r: Result<(DefShiftRight, usize), ParseError>)
        requires
            p <= s@.len(),
        ensures
            parsed(r, def_shift_right_at(s@, p as int), p as int, s@.len() as int),
        decreases s@.len() - p, 0int,
    {
        proof {
            reveal_with_fuel(def_shift_right_at, 1);
            reveal_with_fuel(operand_at, 1);
            reveal_with_fuel(term_arg_at, 1);
        }
        if !(p < s.len() && s[p] == 0x7a) {
            return Err(ParseError::Error);
        }
        let (operand, q1) = match Operand::p(s, p + 1) {
            Ok(x) => x,
            Err(_) => return Err(ParseError::Failure),
        };
        let (shift_count, q2) = match TermArg::p(s, q1) {
            Ok(x) => x,
            Err(_) => return Err(ParseError::Failure),
        };
        let (target, q3) = match Target::p(s, q2) {
            Ok(x) => x,
            Err(_) => return Err(ParseError::Failure),
        };
        Ok((DefShiftRight { operand, shift_count, target }, q3))
    }
}

/// `SizeOf(name)`.
#[derive(Debug)]
pub struct DefSizeOf {
    pub name: SuperName,
}

/// `SizeOf(name)` at `p`: the opcode, then its operands in turn; once the opcode is read, an operand that does not parse is a `Failure`.
#[verifier::opaque]
pub open spec fn def_size_of_at(s: Seq<u8>, p: int) -> Result<(DefSizeOf, int), ParseError>
{
    if !(0 <= p && p + 1 <= s.len() && s[p] == 0x87) {
        Err(ParseError::Error)
    } else {
        match super_name_at(s, p + 1) {
            Ok((name, q1)) => {
                Ok((DefSizeOf { name }, q1))
            },
            Err(_) => Err(ParseError::Failure),
        }
    }
}

impl DefSizeOf {
    /// Parses `SizeOf(name)` at `p`.
    pub fn p(s: &[u8], p: usize) -> (r: Result<(DefSizeOf, usize), ParseError>)
        requires
            p <= s@.len(),
        ensures
            parsed(r, def_size_of_at(s@, p as int), p as int, s@.len() as int),
    {
        proof {
            reveal(def_size_of_at);
        }
        if !(p < s.len() && s[p] == 0x87) {
            return Err(ParseError::Error);
        }
        let (name, q1) = match SuperName::p(s, p + 1) {
            Ok(x) => x,
            Err(_) => return Err(ParseError::Failure),
        };
        Ok((DefSizeOf { name }, q1))
    }
}

/// `Store(value, name)`.
#[derive(Debug)]
pub struct DefStore {
    pub term: TermArg,
    pub name: SuperName,
}

/// `Store(value, name)` at `p`: the opcode, then its operands in turn; once the opcode is read, an operand that does not parse is a `Failure`.
#[verifier::opaque]
pub open spec fn def_store_at(s: Seq<u8>, p: int) -> Result<(DefStore, int), ParseError>
    decreases s.len() - p, 0int,
{
    if !(0 <= p && p + 1 <= s.len() && s[p] == 0x70) {
        Err(ParseError::Error)
    } else {
        match term_arg_at(s, p + 1) {
            Ok((term, q1)) => {
                match super_name_at(s, q1) {
                    Ok((name, q2)) => {
                        Ok((DefStore { term, name }, q2))
                    },
                    Err(_) => Err(ParseError::Failure),
                }
            },
            Err(_) => Err(ParseError::Failure),
        }
    }
}

impl DefStore {
    /// Parses `Store(value, name)` at `p`.
    pub fn p(s: &[u8], p: usize) -> (r: Result<(DefStore, usize), ParseError>)
        requires
            p <= s@.len(),
        ensures
            parsed(r, def_store_at(s@, p as int), p as int, s@.len() as int),
        decreases s@.len() - p, 0int,
    {
        proof {
            reveal_with_fuel(def_store_at, 1);
            reveal_with_fuel(term_arg_at, 1);
        }
        if !(p < s.len() && s[p] == 0x70) {
            return Err(ParseError::Error);
        }
        let (term, q1) = match TermArg::p(s, p + 1) {
            Ok(x) => x,
            Err(_) => return Err(ParseError::Failure),
        };
        let (name, q2) = match SuperName::p(s, q1) {
            Ok(x) => x,
            Err(_) => return Err(ParseError::Failure),
        };
        Ok((DefStore { term, name }, q2))
    }
}

/// `Timer`.
#[derive(Clone, Copy, Debug)]
pub struct DefTimer;

/// `Timer` at `p`: its opcode.
#[verifier::opaque]
pub open spec fn def_timer_at(s: Seq<u8>, p: int) -> Result<(DefTimer, int), ParseError>
{
    if !(0 <= p && p + 2 <= s.len() && s[p] == 0x5b && s[p + 1] == 0x33) {
        Err(ParseError::Error)
    } else {
        Ok((DefTimer, p + 2))
    }
}

impl DefTimer {
    /// Parses `Timer` at `p`.
    pub fn p(s: &[u8], p: usize) -> (r: Result<(DefTimer, usize), ParseError>)
        requires
            p <= s@.len(),
        ensures
            parsed(r, def_timer_at(s@, p as int), p as int, s@.len() as int),
    {
        proof {
            reveal(def_timer_at);
        }
        if !(p < s.len() && s.len() - p >= 2 && s[p] == 0x5b && s[p + 1] == 0x33) {
            return Err(ParseError::Error);
        }
        Ok((DefTimer, p + 2))
    }
}

/// `ToString(buffer, length, target)`.
#[derive(Debug)]
pub struct DefToString {
    pub arg1: TermArg,
    pub length_arg: TermArg,
    pub target: Target,
}

/// `ToString(buffer, length, target)` at `p`: the opcode, then its operands in turn; once the opcode is read, an operand that does not parse is a `Failure`.
#[verifier::opaque]
pub open spec fn def_to_string_at(s: Seq<u8>, p: int) -> Result<(DefToString, int), ParseError>
    decreases s.len() - p, 0int,
{
    if !(0 <= p && p + 1 <= s.len() && s[p] == 0x9c) {
        Err(ParseError::Error)
    } else {
        match term_arg_at(s, p + 1) {
            Ok((arg1, q1)) => if !(p + 1 <= q1 <= s.len()) {
                Err(ParseError::Error)
            } else {
                match term_arg_at(s, q1) {
                    Ok((length_arg, q2)) => {
                        match target_at(s, q2) {
                            Ok((target, q3)) => {
                                Ok((DefToString { arg1, length_arg, target }, q3))
                            },
                            Err(_) => Err(ParseError::Failure),
                        }
                    },
                    Err(_) => Err(ParseError::Failure),
                }
            },
            Err(_) => Err(ParseError::Failure),
        }
    }
}

impl DefToString {
    /// Parses `ToString(buffer, length, target)` at `p`.
    pub fn p(s: &[u8], p: usize) -> (r: Result<(DefToString, usize), ParseError>)
        requires
            p <= s@.len(),
        ensures
            parsed(r, def_to_string_at(s@, p as int), p as int, s@.len() as int),
        decreases s@.len() - p, 0int,
    {
        proof {
            reveal_with_fuel(def_to_string_at, 1);
            reveal_with_fuel(term_arg_at, 1);
        }
        if !(p < s.len() && s[p] == 0x9c) {
            return Err(ParseError::Error);
        }
        let (arg1, q1) = match TermArg::p(s, p + 1) {
            Ok(x) => x,
            Err(_) => return Err(ParseError::Failure),
        };
        let (length_arg, q2) = match TermArg::p(s, q1) {
            Ok(x) => x,
            Err(_) => return Err(ParseError::Failure),
        };
        let (target, q3) = match Target::p(s, q2) {
            Ok(x) => x,
            Err(_) => return Err(ParseError::Failure),
        };
        Ok((DefToString { arg1, length_arg, target }, q3))
    }
}

/// `Wait(event, timeout)`.
#[derive(Debug)]
pub struct DefWait {
    pub event: EventObj,
    pub operand: Operand,
}

/// `Wait(event, timeout)` at `p`: the opcode, then its operands in turn; once the opcode is read, an operand that does not parse is a `Failure`.
#[verifier::opaque]
pub open spec fn def_wait_at(s: Seq<u8>, p: int) -> Result<(DefWait, int), ParseError>
    decreases s.len() - p, 0int,
{
    if !(0 <= p && p + 2 <= s.len() && s[p] == 0x5b && s[p + 1] == 0x25) {
        Err(ParseError::Error)
    } else {
        match event_obj_at(s, p + 2) {
            Ok((event, q1)) => if !(p + 2 <= q1 <= s.len()) {
                Err(ParseError::Error)
            } else {
                match operand_at(s, q1) {
                    Ok((operand, q2)) => {
                        Ok((DefWait { event, operand }, q2))
                    },
                    Err(_) => Err(ParseError::Failure),
                }
            },
            Err(_) => Err(ParseError::Failure),
        }
    }
}

impl DefWait {
    /// Parses `Wait(event, timeout)` at `p`.
    pub fn p(s: &[u8], p: usize) -> (r: Result<(DefWait, usize), ParseError>)
        requires
            p <= s@.len(),
        ensures
            parsed(r, def_wait_at(s@, p as int), p as int, s@.len() as int),
        decreases s@.len() - p, 0int,
    {
        proof {
            reveal_with_fuel(def_wait_at, 1);
            reveal_with_fuel(operand_at, 1);
        }
        if !(p < s.len() && s.len() - p >= 2 && s[p] == 0x5b && s[p + 1] == 0x25) {
            return Err(ParseError::Error);
        }
        let (event, q1) = match EventObj::p(s, p + 2) {
            Ok(x) => x,
            Err(_) => return Err(ParseError::Failure),
        };
        let (operand, q2) = match Operand::p(s, q1) {
            Ok(x) => x,
            Err(_) => return Err(ParseError::Failure),
        };
        Ok((DefWait { event, operand }, q2))
    }
}

/// Alternatives 1 to 6 of expr opcode.
#[verifier::opaque]
pub open spec fn expr_opcode_part1_at(s: Seq<u8>, p: int) -> Result<(ExprOpcode, int), ParseError>
    decreases s.len() - p, 1int,
{
    match def_acquire_at(s, p) {
        Ok((v, q)) => Ok((ExprOpcode::DefAcquire(v), q)),
        Err(ParseError::Failure) => Err(ParseError::Failure),
        Err(ParseError::Error) => {
            match def_add_at(s, p) {
                Ok((v, q)) => Ok((ExprOpcode::DefAdd(v), q)),
                Err(ParseError::Failure) => Err(ParseError::Failure),
                Err(ParseError::Error) => {
                    match def_and_at(s, p) {
                        Ok((v, q)) => Ok((ExprOpcode::DefAnd(v), q)),
                        Err(ParseError::Failure) => Err(ParseError::Failure),
                        Err(ParseError::Error) => {
                            match def_buffer_at(s, p) {
                                Ok((v, q)) => Ok((ExprOpcode::DefBuffer(v), q)),
                                Err(ParseError::Failure) => Err(ParseError::Failure),
                                Err(ParseError::Error) => {
                                    match def_concat_at(s, p) {
                                        Ok((v, q)) => Ok((ExprOpcode::DefConcat(v), q)),
                                        Err(ParseError::Failure) => Err(ParseError::Failure),
                                        Err(ParseError::Error) => {
                                            match def_concat_res_at(s, p) {
                                                Ok((v, q)) => Ok((ExprOpcode::DefConcatRes(v), q)),
                                                Err(x) => Err(x),
                                            }
                                        },
                                    }
                                },
                            }
                        },
                    }
                },
            }
        },
    }
}

/// Tries the alternatives 1 to 6 of expr opcode.
fn expr_opcode_part1(s: &[u8], p: usize) -> (r: Result<(ExprOpcode, usize), ParseError>)
    requires
        p <= s@.len(),
    ensures
        parsed(r, expr_opcode_part1_at(s@, p as int), p as int, s@.len() as int),
    decreases s@.len() - p, 1int,
{
    proof {
        reveal_with_fuel(expr_opcode_part1_at, 1);
        reveal_with_fuel(def_add_at, 1);
        reveal_with_fuel(def_and_at, 1);
        reveal_with_fuel(def_buffer_at, 1);
        reveal_with_fuel(def_concat_at, 1);
        reveal_with_fuel(def_concat_res_at, 1);
    }
    match DefAcquire::p(s, p) {
        Ok((v, q)) => return Ok((ExprOpcode::DefAcquire(v), q)),
        Err(ParseError::Failure) => return Err(ParseError::Failure),
        Err(ParseError::Error) => {},
    }
    match DefAdd::p(s, p) {
        Ok((v, q)) => return Ok((ExprOpcode::DefAdd(v), q)),
        Err(ParseError::Failure) => return Err(ParseError::Failure),
        Err(ParseError::Error) => {},
    }
    match DefAnd::p(s, p) {
        Ok((v, q)) => return Ok((ExprOpcode::DefAnd(v), q)),
        Err(ParseError::Failure) => return Err(ParseError::Failure),
        Err(ParseError::Error) => {},
    }
    match DefBuffer::p(s, p) {
        Ok((v, q)) => return Ok((ExprOpcode::DefBuffer(v), q)),
        Err(ParseError::Failure) => return Err(ParseError::Failure),
        Err(ParseError::Error) => {},
    }
    match DefConcat::p(s, p) {
        Ok((v, q)) => return Ok((ExprOpcode::DefConcat(v), q)),
        Err(ParseError::Failure) => return Err(ParseError::Failure),
        Err(ParseError::Error) => {},
    }
    match DefConcatRes::p(s, p) {
        Ok((v, q)) => Ok((ExprOpcode::DefConcatRes(v), q)),
        Err(x) => Err(x),
    }
}

/// Alternatives 7 to 12 of expr opcode.
#[verifier::opaque]
pub open spec fn expr_opcode_part2_at(s: Seq<u8>, p: int) -> Result<(ExprOpcode, int), ParseError>
    decreases s.len() - p, 1int,
{
    match def_cond_ref_of_at(s, p) {
        Ok((v, q)) => Ok((ExprOpcode::DefCondRefOf(v), q)),
        Err(ParseError::Failure) => Err(ParseError::Failure),
        Err(ParseError::Error) => {
            match def_copy_obj_at(s, p) {
                Ok((v, q)) => Ok((ExprOpcode::DefCopyObj(v), q)),
                Err(ParseError::Failure) => Err(ParseError::Failure),
                Err(ParseError::Error) => {
                    match def_decrement_at(s, p) {
                        Ok((v, q)) => Ok((ExprOpcode::DefDecrement(v), q)),
                        Err(ParseError::Failure) => Err(ParseError::Failure),
                        Err(ParseError::Error) => {
                            match def_deref_of_at(s, p) {
                                Ok((v, q)) => Ok((ExprOpcode::DefDerefOf(v), q)),
                                Err(ParseError::Failure) => Err(ParseError::Failure),
                                Err(ParseError::Error) => {
                                    match def_divide_at(s, p) {
                                        Ok((v, q)) => Ok((ExprOpcode::DefDivide(v), q)),
                                        Err(ParseError::Failure) => Err(ParseError::Failure),
                                        Err(ParseError::Error) => {
                                            match def_find_set_left_bit_at(s, p) {
                                                Ok((v, q)) => Ok((ExprOpcode::DefFindSetLeftBit(v), q)),
                                                Err(x) => Err(x),
                                            }
                                        },
                                    }
                                },
                            }
                        },
                    }
                },
            }
        },
    }
}

/// Tries the alternatives 7 to 12 of expr opcode.
fn expr_opcode_part2(s: &[u8], p: usize) -> (r: Result<(ExprOpcode, usize), ParseError>)
    requires
        p <= s@.len(),
    ensures
        parsed(r, expr_opcode_part2_at(s@, p as int), p as int, s@.len() as int),
    decreases s@.len() - p, 1int,
{
    proof {
        reveal_with_fuel(expr_opcode_part2_at, 1);
        reveal_with_fuel(def_copy_obj_at, 1);
        reveal_with_fuel(def_deref_of_at, 1);
        reveal_with_fuel(def_divide_at, 1);
        reveal_with_fuel(def_find_set_left_bit_at, 1);
    }
    match DefCondRefOf::p(s, p) {
        Ok((v, q)) => return Ok((ExprOpcode::DefCondRefOf(v), q)),
        Err(ParseError::Failure) => return Err(ParseError::Failure),
        Err(ParseError::Error) => {},
    }
    match DefCopyObj::p(s, p) {
        Ok((v, q)) => return Ok((ExprOpcode::DefCopyObj(v), q)),
        Err(ParseError::Failure) => return Err(ParseError::Failure),
        Err(ParseError::Error) => {},
    }
    match DefDecrement::p(s, p) {
        Ok((v, q)) => return Ok((ExprOpcode::DefDecrement(v), q)),
        Err(ParseError::Failure) => return Err(ParseError::Failure),
        Err(ParseError::Error) => {},
    }
    match DefDerefOf::p(s, p) {
        Ok((v, q)) => return Ok((ExprOpcode::DefDerefOf(v), q)),
        Err(ParseError::Failure) => return Err(ParseError::Failure),
        Err(ParseError::Error) => {},
    }
    match DefDivide::p(s, p) {
        Ok((v, q)) => return Ok((ExprOpcode::DefDivide(v), q)),
        Err(ParseError::Failure) => return Err(ParseError::Failure),
        Err(ParseError::Error) => {},
    }
    match DefFindSetLeftBit::p(s, p) {
        Ok((v, q)) => Ok((ExprOpcode::DefFindSetLeftBit(v), q)),
        Err(x) => Err(x),
    }
}

/// Alternatives 13 to 18 of expr opcode.
#[verifier::opaque]
pub open spec fn expr_opcode_part3_at(s: Seq<u8>, p: int) -> Result<(ExprOpcode, int), ParseError>
    decreases s.len() - p, 1int,
{
    match def_find_set_right_bit_at(s, p) {
        Ok((v, q)) => Ok((ExprOpcode::DefFindSetRightBit(v), q)),
        Err(ParseError::Failure) => Err(ParseError::Failure),
        Err(ParseError::Error) => {
            match def_from_bcd_at(s, p) {
                Ok((v, q)) => Ok((ExprOpcode::DefFromBcd(v), q)),
                Err(ParseError::Failure) => Err(ParseError::Failure),
                Err(ParseError::Error) => {
                    match def_increment_at(s, p) {
                        Ok((v, q)) => Ok((ExprOpcode::DefIncrement(v), q)),
                        Err(ParseError::Failure) => Err(ParseError::Failure),
                        Err(ParseError::Error) => {
                            match def_index_at(s, p) {
                                Ok((v, q)) => Ok((ExprOpcode::DefIndex(v), q)),
                                Err(ParseError::Failure) => Err(ParseError::Failure),
                                Err(ParseError::Error) => {
                                    match def_l_and_at(s, p) {
                                        Ok((v, q)) => Ok((ExprOpcode::DefLAnd(v), q)),
                                        Err(ParseError::Failure) => Err(ParseError::Failure),
                                        Err(ParseError::Error) => {
                                            match def_l_equal_at(s, p) {
                                                Ok((v, q)) => Ok((ExprOpcode::DefLEqual(v), q)),
                                                Err(x) => Err(x),
                                            }
                                        },
                                    }
                                },
                            }
                        },
                    }
                },
            }
        },
    }
}

/// Tries the alternatives 13 to 18 of expr opcode.
fn expr_opcode_part3(s: &[u8], p: usize) -> (r: Result<(ExprOpcode, usize), ParseError>)
    requires
        p <= s@.len(),
    ensures
        parsed(r, expr_opcode_part3_at(s@, p as int), p as int, s@.len() as int),
    decreases s@.len() - p, 1int,
{
    proof {
        reveal_with_fuel(expr_opcode_part3_at, 1);
        reveal_with_fuel(def_find_set_right_bit_at, 1);
        reveal_with_fuel(def_from_bcd_at, 1);
        reveal_with_fuel(def_index_at, 1);
        reveal_with_fuel(def_l_and_at, 1);
        reveal_with_fuel(def_l_equal_at, 1);
    }
    match DefFindSetRightBit::p(s, p) {
        Ok((v, q)) => return Ok((ExprOpcode::DefFindSetRightBit(v), q)),
        Err(ParseError::Failure) => return Err(ParseError::Failure),
        Err(ParseError::Error) => {},
    }
    match DefFromBcd::p(s, p) {
        Ok((v, q)) => return Ok((ExprOpcode::DefFromBcd(v), q)),
        Err(ParseError::Failure) => return Err(ParseError::Failure),
        Err(ParseError::Error) => {},
    }
    match DefIncrement::p(s, p) {
        Ok((v, q)) => return Ok((ExprOpcode::DefIncrement(v), q)),
        Err(ParseError::Failure) => return Err(ParseError::Failure),
        Err(ParseError::Error) => {},
    }
    match DefIndex::p(s, p) {
        Ok((v, q)) => return Ok((ExprOpcode::DefIndex(v), q)),
        Err(ParseError::Failure) => return Err(ParseError::Failure),
        Err(ParseError::Error) => {},
    }
    match DefLAnd::p(s, p) {
        Ok((v, q)) => return Ok((ExprOpcode::DefLAnd(v), q)),
        Err(ParseError::Failure) => return Err(ParseError::Failure),
        Err(ParseError::Error) => {},
    }
    match DefLEqual::p(s, p) {
        Ok((v, q)) => Ok((ExprOpcode::DefLEqual(v), q)),
        Err(x) => Err(x),
    }
}

/// Alternatives 19 to 24 of expr opcode.
#[verifier::opaque]
pub open spec fn expr_opcode_part4_at(s: Seq<u8>, p: int) -> Result<(ExprOpcode, int), ParseError>
    decreases s.len() - p, 1int,
{
    match def_l_greater_at(s, p) {
        Ok((v, q)) => Ok((ExprOpcode::DefLGreater(v), q)),
        Err(ParseError::Failure) => Err(ParseError::Failure),
        Err(ParseError::Error) => {
            match def_l_greater_equal_at(s, p) {
                Ok((v, q)) => Ok((ExprOpcode::DefLGreaterEqual(v), q)),
                Err(ParseError::Failure) => Err(ParseError::Failure),
                Err(ParseError::Error) => {
                    match def_l_less_at(s, p) {
                        Ok((v, q)) => Ok((ExprOpcode::DefLLess(v), q)),
                        Err(ParseError::Failure) => Err(ParseError::Failure),
                        Err(ParseError::Error) => {
                            match def_l_less_equal_at(s, p) {
                                Ok((v, q)) => Ok((ExprOpcode::DefLLessEqual(v), q)),
                                Err(ParseError::Failure) => Err(ParseError::Failure),
                                Err(ParseError::Error) => {
                                    match def_mid_at(s, p) {
                                        Ok((v, q)) => Ok((ExprOpcode::DefMid(v), q)),
                                        Err(ParseError::Failure) => Err(ParseError::Failure),
                                        Err(ParseError::Error) => {
                                            match def_l_not_at(s, p) {
                                                Ok((v, q)) => Ok((ExprOpcode::DefLNot(v), q)),
                                                Err(x) => Err(x),
                                            }
                                        },
                                    }
                                },
                            }
                        },
                    }
                },
            }
        },
    }
}

/// Tries the alternatives 19 to 24 of expr opcode.
fn expr_opcode_part4(s: &[u8], p: usize) -> (r: Result<(ExprOpcode, usize), ParseError>)
    requires
        p <= s@.len(),
    ensures
        parsed(r, expr_opcode_part4_at(s@, p as int), p as int, s@.len() as int),
    decreases s@.len() - p, 1int,
{
    proof {
        reveal_with_fuel(expr_opcode_part4_at, 1);
        reveal_with_fuel(def_l_greater_at, 1);
        reveal_with_fuel(def_l_greater_equal_at, 1);
        reveal_with_fuel(def_l_less_at, 1);
        reveal_with_fuel(def_l_less_equal_at, 1);
        reveal_with_fuel(def_mid_at, 1);
        reveal_with_fuel(def_l_not_at, 1);
    }
    match DefLGreater::p(s, p) {
        Ok((v, q)) => return Ok((ExprOpcode::DefLGreater(v), q)),
        Err(ParseError::Failure) => return Err(ParseError::Failure),
        Err(ParseError::Error) => {},
    }
    match DefLGreaterEqual::p(s, p) {
        Ok((v, q)) => return Ok((ExprOpcode::DefLGreaterEqual(v), q)),
        Err(ParseError::Failure) => return Err(ParseError::Failure),
        Err(ParseError::Error) => {},
    }
    match DefLLess::p(s, p) {
        Ok((v, q)) => return Ok((ExprOpcode::DefLLess(v), q)),
        Err(ParseError::Failure) => return Err(ParseError::Failure),
        Err(ParseError::Error) => {},
    }
    match DefLLessEqual::p(s, p) {
        Ok((v, q)) => return Ok((ExprOpcode::DefLLessEqual(v), q)),
        Err(ParseError::Failure) => return Err(ParseError::Failure),
        Err(ParseError::Error) => {},
    }
    match DefMid::p(s, p) {
        Ok((v, q)) => return Ok((ExprOpcode::DefMid(v), q)),
        Err(ParseError::Failure) => return Err(ParseError::Failure),
        Err(ParseError::Error) => {},
    }
    match DefLNot::p(s, p) {
        Ok((v, q)) => Ok((ExprOpcode::DefLNot(v), q)),
        Err(x) => Err(x),
    }
}

/// Alternatives 25 to 30 of expr opcode.
#[verifier::opaque]
pub open spec fn expr_opcode_part5_at(s: Seq<u8>, p: int) -> Result<(ExprOpcode, int), ParseError>
    decreases s.len() - p, 1int,
{
    match def_l_not_equal_at(s, p) {
        Ok((v, q)) => Ok((ExprOpcode::DefLNotEqual(v), q)),
        Err(ParseError::Failure) => Err(ParseError::Failure),
        Err(ParseError::Error) => {
            match def_load_table_at(s, p) {
                Ok((v, q)) => Ok((ExprOpcode::DefLoadTable(v), q)),
                Err(ParseError::Failure) => Err(ParseError::Failure),
                Err(ParseError::Error) => {
                    match def_l_or_at(s, p) {
                        Ok((v, q)) => Ok((ExprOpcode::DefLOr(v), q)),
                        Err(ParseError::Failure) => Err(ParseError::Failure),
                        Err(ParseError::Error) => {
                            match def_match_at(s, p) {
                                Ok((v, q)) => Ok((ExprOpcode::DefMatch(v), q)),
                                Err(ParseError::Failure) => Err(ParseError::Failure),
                                Err(ParseError::Error) => {
                                    match def_mod_at(s, p) {
                                        Ok((v, q)) => Ok((ExprOpcode::DefMod(v), q)),
                                        Err(ParseError::Failure) => Err(ParseError::Failure),
                                        Err(ParseError::Error) => {
                                            match def_multiply_at(s, p) {
                                                Ok((v, q)) => Ok((ExprOpcode::DefMultiply(v), q)),
                                                Err(x) => Err(x),
                                            }
                                        },
                                    }
                                },
                            }
                        },
                    }
                },
            }
        },
    }
}

/// Tries the alternatives 25 to 30 of expr opcode.
fn expr_opcode_part5(s: &[u8], p: usize) -> (r: Result<(ExprOpcode, usize), ParseError>)
    requires
        p <= s@.len(),
    ensures
        parsed(r, expr_opcode_part5_at(s@, p as int), p as int, s@.len() as int),
    decreases s@.len() - p, 1int,
{
    proof {
        reveal_with_fuel(expr_opcode_part5_at, 1);
        reveal_with_fuel(def_l_not_equal_at, 1);
        reveal_with_fuel(def_load_table_at, 1);
        reveal_with_fuel(def_l_or_at, 1);
        reveal_with_fuel(def_match_at, 1);
        reveal_with_fuel(def_mod_at, 1);
        reveal_with_fuel(def_multiply_at, 1);
    }
    match DefLNotEqual::p(s, p) {
        Ok((v, q)) => return Ok((ExprOpcode::DefLNotEqual(v), q)),
        Err(ParseError::Failure) => return Err(ParseError::Failure),
        Err(ParseError::Error) => {},
    }
    match DefLoadTable::p(s, p) {
        Ok((v, q)) => return Ok((ExprOpcode::DefLoadTable(v), q)),
        Err(ParseError::Failure) => return Err(ParseError::Failure),
        Err(ParseError::Error) => {},
    }
    match DefLOr::p(s, p) {
        Ok((v, q)) => return Ok((ExprOpcode::DefLOr(v), q)),
        Err(ParseError::Failure) => return Err(ParseError::Failure),
        Err(ParseError::Error) => {},
    }
    match DefMatch::p(s, p) {
        Ok((v, q)) => return Ok((ExprOpcode::DefMatch(v), q)),
        Err(ParseError::Failure) => return Err(ParseError::Failure),
        Err(ParseError::Error) => {},
    }
    match DefMod::p(s, p) {
        Ok((v, q)) => return Ok((ExprOpcode::DefMod(v), q)),
        Err(ParseError::Failure) => return Err(ParseError::Failure),
        Err(ParseError::Error) => {},
    }
    match DefMultiply::p(s, p) {
        Ok((v, q)) => Ok((ExprOpcode::DefMultiply(v), q)),
        Err(x) => Err(x),
    }
}

/// Alternatives 31 to 36 of expr opcode.
#[verifier::opaque]
pub open spec fn expr_opcode_part6_at(s: Seq<u8>, p: int) -> Result<(ExprOpcode, int), ParseError>
    decreases s.len() - p, 1int,
{
    match def_nand_at(s, p) {
        Ok((v, q)) => Ok((ExprOpcode::DefNAnd(v), q)),
        Err(ParseError::Failure) => Err(ParseError::Failure),
        Err(ParseError::Error) => {
            match def_nor_at(s, p) {
                Ok((v, q)) => Ok((ExprOpcode::DefNOr(v), q)),
                Err(ParseError::Failure) => Err(ParseError::Failure),
                Err(ParseError::Error) => {
                    match def_not_at(s, p) {
                        Ok((v, q)) => Ok((ExprOpcode::DefNot(v), q)),
                        Err(ParseError::Failure) => Err(ParseError::Failure),
                        Err(ParseError::Error) => {
                            match def_obj_type_at(s, p) {
                                Ok((v, q)) => Ok((ExprOpcode::DefObjType(v), q)),
                                Err(ParseError::Failure) => Err(ParseError::Failure),
                                Err(ParseError::Error) => {
                                    match def_or_at(s, p) {
                                        Ok((v, q)) => Ok((ExprOpcode::DefOr(v), q)),
                                        Err(ParseError::Failure) => Err(ParseError::Failure),
                                        Err(ParseError::Error) => {
                                            match def_pkg_at(s, p) {
                                                Ok((v, q)) => Ok((ExprOpcode::DefPkg(v), q)),
                                                Err(x) => Err(x),
                                            }
                                        },
                                    }
                                },
                            }
                        },
                    }
                },
            }
        },
    }
}

/// Tries the alternatives 31 to 36 of expr opcode.
fn expr_opcode_part6(s: &[u8], p: usize) -> (r: Result<(ExprOpcode, usize), ParseError>)
    requires
        p <= s@.len(),
    ensures
        parsed(r, expr_opcode_part6_at(s@, p as int), p as int, s@.len() as int),
    decreases s@.len() - p, 1int,
{
    proof {
        reveal_with_fuel(expr_opcode_part6_at, 1);
        reveal_with_fuel(def_nand_at, 1);
        reveal_with_fuel(def_nor_at, 1);
        reveal_with_fuel(def_not_at, 1);
        reveal_with_fuel(def_obj_type_at, 1);
        reveal_with_fuel(def_or_at, 1);
        reveal_with_fuel(def_pkg_at, 1);
    }
    match DefNAnd::p(s, p) {
        Ok((v, q)) => return Ok((ExprOpcode::DefNAnd(v), q)),
        Err(ParseError::Failure) => return Err(ParseError::Failure),
        Err(ParseError::Error) => {},
    }
    match DefNOr::p(s, p) {
        Ok((v, q)) => return Ok((ExprOpcode::DefNOr(v), q)),
        Err(ParseError::Failure) => return Err(ParseError::Failure),
        Err(ParseError::Error) => {},
    }
    match DefNot::p(s, p) {
        Ok((v, q)) => return Ok((ExprOpcode::DefNot(v), q)),
        Err(ParseError::Failure) => return Err(ParseError::Failure),
        Err(ParseError::Error) => {},
    }
    match DefObjType::p(s, p) {
        Ok((v, q)) => return Ok((ExprOpcode::DefObjType(v), q)),
        Err(ParseError::Failure) => return Err(ParseError::Failure),
        Err(ParseError::Error) => {},
    }
    match DefOr::p(s, p) {
        Ok((v, q)) => return Ok((ExprOpcode::DefOr(v), q)),
        Err(ParseError::Failure) => return Err(ParseError::Failure),
        Err(ParseError::Error) => {},
    }
    match DefPkg::p(s, p) {
        Ok((v, q)) => Ok((ExprOpcode::DefPkg(v), q)),
        Err(x) => Err(x),
    }
}

/// Alternatives 37 to 42 of expr opcode.
#[verifier::opaque]
pub open spec fn expr_opcode_part7_at(s: Seq<u8>, p: int) -> Result<(ExprOpcode, int), ParseError>
    decreases s.len() - p, 1int,
{
    match def_var_pkg_at(s, p) {
        Ok((v, q)) => Ok((ExprOpcode::DefVarPkg(v), q)),
        Err(ParseError::Failure) => Err(ParseError::Failure),
        Err(ParseError::Error) => {
            match def_ref_of_at(s, p) {
                Ok((v, q)) => Ok((ExprOpcode::DefRefOf(v), q)),
                Err(ParseError::Failure) => Err(ParseError::Failure),
                Err(ParseError::Error) => {
                    match def_shift_left_at(s, p) {
                        Ok((v, q)) => Ok((ExprOpcode::DefShiftLeft(v), q)),
                        Err(ParseError::Failure) => Err(ParseError::Failure),
                        Err(ParseError::Error) => {
                            match def_shift_right_at(s, p) {
                                Ok((v, q)) => Ok((ExprOpcode::DefShiftRight(v), q)),
                                Err(ParseError::Failure) => Err(ParseError::Failure),
                                Err(ParseError::Error) => {
                                    match def_size_of_at(s, p) {
                                        Ok((v, q)) => Ok((ExprOpcode::DefSizeOf(v), q)),
                                        Err(ParseError::Failure) => Err(ParseError::Failure),
                                        Err(ParseError::Error) => {
                                            match def_store_at(s, p) {
                                                Ok((v, q)) => Ok((ExprOpcode::DefStore(v), q)),
                                                Err(x) => Err(x),
                                            }
                                        },
                                    }
                                },
                            }
                        },
                    }
                },
            }
        },
    }
}

/// Tries the alternatives 37 to 42 of expr opcode.
fn expr_opcode_part7(s: &[u8], p: usize) -> (r: Result<(ExprOpcode, usize), ParseError>)
    requires
        p <= s@.len(),
    ensures
        parsed(r, expr_opcode_part7_at(s@, p as int), p as int, s@.len() as int),
    decreases s@.len() - p, 1int,
{
    proof {
        reveal_with_fuel(expr_opcode_part7_at, 1);
        reveal_with_fuel(def_var_pkg_at, 1);
        reveal_with_fuel(def_shift_left_at, 1);
        reveal_with_fuel(def_shift_right_at, 1);
        reveal_with_fuel(def_store_at, 1);
    }
    match DefVarPkg::p(s, p) {
        Ok((v, q)) => return Ok((ExprOpcode::DefVarPkg(v), q)),
        Err(ParseError::Failure) => return Err(ParseError::Failure),
        Err(ParseError::Error) => {},
    }
    match DefRefOf::p(s, p) {
        Ok((v, q)) => return Ok((ExprOpcode::DefRefOf(v), q)),
        Err(ParseError::Failure) => return Err(ParseError::Failure),
        Err(ParseError::Error) => {},
    }
    match DefShiftLeft::p(s, p) {
        Ok((v, q)) => return Ok((ExprOpcode::DefShiftLeft(v), q)),
        Err(ParseError::Failure) => return Err(ParseError::Failure),
        Err(ParseError::Error) => {},
    }
    match DefShiftRight::p(s, p) {
        Ok((v, q)) => return Ok((ExprOpcode::DefShiftRight(v), q)),
        Err(ParseError::Failure) => return Err(ParseError::Failure),
        Err(ParseError::Error) => {},
    }
    match DefSizeOf::p(s, p) {
        Ok((v, q)) => return Ok((ExprOpcode::DefSizeOf(v), q)),
        Err(ParseError::Failure) => return Err(ParseError::Failure),
        Err(ParseError::Error) => {},
    }
    match DefStore::p(s, p) {
        Ok((v, q)) => Ok((ExprOpcode::DefStore(v), q)),
        Err(x) => Err(x),
    }
}

/// Alternatives 43 to 48 of expr opcode.
#[verifier::opaque]
pub open spec fn expr_opcode_part8_at(s: Seq<u8>, p: int) -> Result<(ExprOpcode, int), ParseError>
    decreases s.len() - p, 1int,
{
    match def_subtract_at(s, p) {
        Ok((v, q)) => Ok((ExprOpcode::DefSubtract(v), q)),
        Err(ParseError::Failure) => Err(ParseError::Failure),
        Err(ParseError::Error) => {
            match def_timer_at(s, p) {
                Ok((v, q)) => Ok((ExprOpcode::DefTimer(v), q)),
                Err(ParseError::Failure) => Err(ParseError::Failure),
                Err(ParseError::Error) => {
                    match def_to_bcd_at(s, p) {
                        Ok((v, q)) => Ok((ExprOpcode::DefToBcd(v), q)),
                        Err(ParseError::Failure) => Err(ParseError::Failure),
                        Err(ParseError::Error) => {
                            match def_to_buffer_at(s, p) {
                                Ok((v, q)) => Ok((ExprOpcode::DefToBuffer(v), q)),
                                Err(ParseError::Failure) => Err(ParseError::Failure),
                                Err(ParseError::Error) => {
                                    match def_to_decimal_string_at(s, p) {
                                        Ok((v, q)) => Ok((ExprOpcode::DefToDecimalString(v), q)),
                                        Err(ParseError::Failure) => Err(ParseError::Failure),
                                        Err(ParseError::Error) => {
                                            match def_to_hex_string_at(s, p) {
                                                Ok((v, q)) => Ok((ExprOpcode::DefToHexString(v), q)),
                                                Err(x) => Err(x),
                                            }
                                        },
                                    }
                                },
                            }
                        },
                    }
                },
            }
        },
    }
}

/// Tries the alternatives 43 to 48 of expr opcode.
fn expr_opcode_part8(s: &[u8], p: usize) -> (r: Result<(ExprOpcode, usize), ParseError>)
    requires
        p <= s@.len(),
    ensures
        parsed(r, expr_opcode_part8_at(s@, p as int), p as int, s@.len() as int),
    decreases s@.len() - p, 1int,
{
    proof {
        reveal_with_fuel(expr_opcode_part8_at, 1);
        reveal_with_fuel(def_subtract_at, 1);
        reveal_with_fuel(def_to_bcd_at, 1);
        reveal_with_fuel(def_to_buffer_at, 1);
        reveal_with_fuel(def_to_decimal_string_at, 1);
        reveal_with_fuel(def_to_hex_string_at, 1);
    }
    match DefSubtract::p(s, p) {
        Ok((v, q)) => return Ok((ExprOpcode::DefSubtract(v), q)),
        Err(ParseError::Failure) => return Err(ParseError::Failure),
        Err(ParseError::Error) => {},
    }
    match DefTimer::p(s, p) {
        Ok((v, q)) => return Ok((ExprOpcode::DefTimer(v), q)),
        Err(ParseError::Failure) => return Err(ParseError::Failure),
        Err(ParseError::Error) => {},
    }
    match DefToBcd::p(s, p) {
        Ok((v, q)) => return Ok((ExprOpcode::DefToBcd(v), q)),
        Err(ParseError::Failure) => return Err(ParseError::Failure),
        Err(ParseError::Error) => {},
    }
    match DefToBuffer::p(s, p) {
        Ok((v, q)) => return Ok((ExprOpcode::DefToBuffer(v), q)),
        Err(ParseError::Failure) => return Err(ParseError::Failure),
        Err(ParseError::Error) => {},
    }
    match DefToDecimalString::p(s, p) {
        Ok((v, q)) => return Ok((ExprOpcode::DefToDecimalString(v), q)),
        Err(ParseError::Failure) => return Err(ParseError::Failure),
        Err(ParseError::Error) => {},
    }
    match DefToHexString::p(s, p) {
        Ok((v, q)) => Ok((ExprOpcode::DefToHexString(v), q)),
        Err(x) => Err(x),
    }
}

/// Alternatives 49 to 53 of expr opcode.
#[verifier::opaque]
pub open spec fn expr_opcode_part9_at(s: Seq<u8>, p: int) -> Result<(ExprOpcode, int), ParseError>
    decreases s.len() - p, 1int,
{
    match def_to_integer_at(s, p) {
        Ok((v, q)) => Ok((ExprOpcode::DefToInteger(v), q)),
        Err(ParseError::Failure) => Err(ParseError::Failure),
        Err(ParseError::Error) => {
            match def_to_string_at(s, p) {
                Ok((v, q)) => Ok((ExprOpcode::DefToString(v), q)),
                Err(ParseError::Failure) => Err(ParseError::Failure),
                Err(ParseError::Error) => {
                    match def_wait_at(s, p) {
                        Ok((v, q)) => Ok((ExprOpcode::DefWait(v), q)),
                        Err(ParseError::Failure) => Err(ParseError::Failure),
                        Err(ParseError::Error) => {
                            match def_xor_at(s, p) {
                                Ok((v, q)) => Ok((ExprOpcode::DefXOr(v), q)),
                                Err(ParseError::Failure) => Err(ParseError::Failure),
                                Err(ParseError::Error) => {
                                    match method_invocation_at(s, p) {
                                        Ok((v, q)) => Ok((ExprOpcode::MethodInvocation(v), q)),
                                        Err(x) => Err(x),
                                    }
                                },
                            }
                        },
                    }
                },
            }
        },
    }
}

/// Tries the alternatives 49 to 53 of expr opcode.
fn expr_opcode_part9(s: &[u8], p: usize) -> (r: Result<(ExprOpcode, usize), ParseError>)
    requires
        p <= s@.len(),
    ensures
        parsed(r, expr_opcode_part9_at(s@, p as int), p as int, s@.len() as int),
    decreases s@.len() - p, 1int,
{
    proof {
        reveal_with_fuel(expr_opcode_part9_at, 1);
        reveal_with_fuel(def_to_integer_at, 1);
        reveal_with_fuel(def_to_string_at, 1);
        reveal_with_fuel(def_wait_at, 1);
        reveal_with_fuel(def_xor_at, 1);
        reveal_with_fuel(method_invocation_at, 1);
    }
    match DefToInteger::p(s, p) {
        Ok((v, q)) => return Ok((ExprOpcode::DefToInteger(v), q)),
        Err(ParseError::Failure) => return Err(ParseError::Failure),
        Err(ParseError::Error) => {},
    }
    match DefToString::p(s, p) {
        Ok((v, q)) => return Ok((ExprOpcode::DefToString(v), q)),
        Err(ParseError::Failure) => return Err(ParseError::Failure),
        Err(ParseError::Error) => {},
    }
    match DefWait::p(s, p) {
        Ok((v, q)) => return Ok((ExprOpcode::DefWait(v), q)),
        Err(ParseError::Failure) => return Err(ParseError::Failure),
        Err(ParseError::Error) => {},
    }
    match DefXOr::p(s, p) {
        Ok((v, q)) => return Ok((ExprOpcode::DefXOr(v), q)),
        Err(ParseError::Failure) => return Err(ParseError::Failure),
        Err(ParseError::Error) => {},
    }
    match MethodInvocation::p(s, p) {
        Ok((v, q)) => Ok((ExprOpcode::MethodInvocation(v), q)),
        Err(x) => Err(x),
    }
}

} // verus!
