//! Statements of AML: control flow, notifications, synchronization and delays.
use vstd::prelude::*;
use crate::aml::{ParseError, SuperName, super_name_at};
use crate::aml_data::{byte_data, byte_data_at, dword_data, dword_data_at, parsed, parsed_any, pkg_at, pkg_bounds};
use crate::aml_term::{TermArg, TermList, term_arg_at, term_list_at};

verus! {

/// A statement.
#[derive(Debug)]
pub enum StatementOpcode {
    DefBreak(DefBreak),
    DefBreakPoint(DefBreakPoint),
    DefContinue(DefContinue),
    DefElse(DefElse),
    DefFatal(DefFatal),
    DefIfElse(DefIfElse),
    DefNoop(DefNoop),
    DefNotify(DefNotify),
    DefRelease(DefRelease),
    DefReset(DefReset),
    DefReturn(DefReturn),
    DefSignal(DefSignal),
    DefSleep(DefSleep),
    DefStall(DefStall),
    DefWhile(DefWhile),
}

/// A statement at `p`: the first alternative that does not fail with `Error`, or the failure that ends the choice.
#[verifier::opaque]
pub open spec fn statement_opcode_at(s: Seq<u8>, p: int) -> Result<(StatementOpcode, int), ParseError>
    decreases s.len() - p, 2int,
{
    match statement_opcode_part1_at(s, p) {
        Ok((v, q)) => Ok((v, q)),
        Err(ParseError::Failure) => Err(ParseError::Failure),
        Err(ParseError::Error) => {
            match statement_opcode_part2_at(s, p) {
                Ok((v, q)) => Ok((v, q)),
                Err(ParseError::Failure) => Err(ParseError::Failure),
                Err(ParseError::Error) => {
                    match statement_opcode_part3_at(s, p) {
                        Ok((v, q)) => Ok((v, q)),
                        Err(x) => Err(x),
                    }
                },
            }
        },
    }
}

impl StatementOpcode {
    /// Parses a statement at `p`.
    pub fn p(s: &[u8], p: usize) -> (r: Result<(StatementOpcode, usize), ParseError>)
        requires
            p <= s@.len(),
        ensures
            parsed(r, statement_opcode_at(s@, p as int), p as int, s@.len() as int),
        decreases s@.len() - p, 2int,
    {
        proof {
            reveal_with_fuel(statement_opcode_at, 1);
            reveal_with_fuel(statement_opcode_part1_at, 1);
            reveal_with_fuel(statement_opcode_part3_at, 1);
        }
        match statement_opcode_part1(s, p) {
            Ok((v, q)) => return Ok((v, q)),
            Err(ParseError::Failure) => return Err(ParseError::Failure),
            Err(ParseError::Error) => {},
        }
        match statement_opcode_part2(s, p) {
            Ok((v, q)) => return Ok((v, q)),
            Err(ParseError::Failure) => return Err(ParseError::Failure),
            Err(ParseError::Error) => {},
        }
        match statement_opcode_part3(s, p) {
            Ok((v, q)) => Ok((v, q)),
            Err(x) => Err(x),
        }
    }
}

/// `Break`.
#[derive(Clone, Copy, Debug)]
pub struct DefBreak;

/// `Break` at `p`: its opcode.
#[verifier::opaque]
pub open spec fn def_break_at(s: Seq<u8>, p: int) -> Result<(DefBreak, int), ParseError>
{
    if !(0 <= p && p + 1 <= s.len() && s[p] == 0xa5) {
        Err(ParseError::Error)
    } else {
        Ok((DefBreak, p + 1))
    }
}

impl DefBreak {
    /// Parses `Break` at `p`.
    pub fn p(s: &[u8], p: usize) -> (r: Result<(DefBreak, usize), ParseError>)
        requires
            p <= s@.len(),
        ensures
            parsed(r, def_break_at(s@, p as int), p as int, s@.len() as int),
    {
        proof {
            reveal(def_break_at);
        }
        if !(p < s.len() && s[p] == 0xa5) {
            return Err(ParseError::Error);
        }
        Ok((DefBreak, p + 1))
    }
}

/// `BreakPoint`.
#[derive(Clone, Copy, Debug)]
pub struct DefBreakPoint;

/// `BreakPoint` at `p`: its opcode.
#[verifier::opaque]
pub open spec fn def_break_point_at(s: Seq<u8>, p: int) -> Result<(DefBreakPoint, int), ParseError>
{
    if !(0 <= p && p + 1 <= s.len() && s[p] == 0xcc) {
        Err(ParseError::Error)
    } else {
        Ok((DefBreakPoint, p + 1))
    }
}

impl DefBreakPoint {
    /// Parses `BreakPoint` at `p`.
    pub fn p(s: &[u8], p: usize) -> (r: Result<(DefBreakPoint, usize), ParseError>)
        requires
            p <= s@.len(),
        ensures
            parsed(r, def_break_point_at(s@, p as int), p as int, s@.len() as int),
    {
        proof {
            reveal(def_break_point_at);
        }
        if !(p < s.len() && s[p] == 0xcc) {
            return Err(ParseError::Error);
        }
        Ok((DefBreakPoint, p + 1))
    }
}

/// `Continue`.
#[derive(Clone, Copy, Debug)]
pub struct DefContinue;

/// `Continue` at `p`: its opcode.
#[verifier::opaque]
pub open spec fn def_continue_at(s: Seq<u8>, p: int) -> Result<(DefContinue, int), ParseError>
{
    if !(0 <= p && p + 1 <= s.len() && s[p] == 0x9f) {
        Err(ParseError::Error)
    } else {
        Ok((DefContinue, p + 1))
    }
}

impl DefContinue {
    /// Parses `Continue` at `p`.
    pub fn p(s: &[u8], p: usize) -> (r: Result<(DefContinue, usize), ParseError>)
        requires
            p <= s@.len(),
        ensures
            parsed(r, def_continue_at(s@, p as int), p as int, s@.len() as int),
    {
        proof {
            reveal(def_continue_at);
        }
        if !(p < s.len() && s[p] == 0x9f) {
            return Err(ParseError::Error);
        }
        Ok((DefContinue, p + 1))
    }
}

/// `Noop`.
#[derive(Clone, Copy, Debug)]
pub struct DefNoop;

/// `Noop` at `p`: its opcode.
#[verifier::opaque]
pub open spec fn def_noop_at(s: Seq<u8>, p: int) -> Result<(DefNoop, int), ParseError>
{
    if !(0 <= p && p + 1 <= s.len() && s[p] == 0xa3) {
        Err(ParseError::Error)
    } else {
        Ok((DefNoop, p + 1))
    }
}

impl DefNoop {
    /// Parses `Noop` at `p`.
    pub fn p(s: &[u8], p: usize) -> (r: Result<(DefNoop, usize), ParseError>)
        requires
            p <= s@.len(),
        ensures
            parsed(r, def_noop_at(s@, p as int), p as int, s@.len() as int),
    {
        proof {
            reveal(def_noop_at);
        }
        if !(p < s.len() && s[p] == 0xa3) {
            return Err(ParseError::Error);
        }
        Ok((DefNoop, p + 1))
    }
}

/// `Fatal(type, code, argument)`.
#[derive(Debug)]
pub struct DefFatal {
    pub ty: u8,
    pub code: u32,
    pub arg: TermArg,
}

/// `Fatal(type, code, argument)` at `p`: the opcode, then its operands in turn; once the opcode is read, an operand that does not parse is a `Failure`.
#[verifier::opaque]
pub open spec fn def_fatal_at(s: Seq<u8>, p: int) -> Result<(DefFatal, int), ParseError>
{
    if !(0 <= p && p + 2 <= s.len() && s[p] == 0x5b && s[p + 1] == 0x32) {
        Err(ParseError::Error)
    } else {
        match byte_data_at(s, p + 2) {
            Ok((ty, q1)) => {
                match dword_data_at(s, q1) {
                    Ok((code, q2)) => if !(p + 2 <= q2 <= s.len()) {
                        Err(ParseError::Error)
                    } else {
                        match term_arg_at(s, q2) {
                            Ok((arg, q3)) => {
                                Ok((DefFatal { ty, code, arg }, q3))
                            },
                            Err(_) => Err(ParseError::Failure),
                        }
                    },
                    Err(_) => Err(ParseError::Failure),
                }
            },
            Err(_) => Err(ParseError::Failure),
        }
    }
}

impl DefFatal {
    /// Parses `Fatal(type, code, argument)` at `p`.
    pub fn p(s: &[u8], p: usize) -> (r: Result<(DefFatal, usize), ParseError>)
        requires
            p <= s@.len(),
        ensures
            parsed(r, def_fatal_at(s@, p as int), p as int, s@.len() as int),
    {
        proof {
            reveal(def_fatal_at);
        }
        if !(p < s.len() && s.len() - p >= 2 && s[p] == 0x5b && s[p + 1] == 0x32) {
            return Err(ParseError::Error);
        }
        let (ty, q1) = match byte_data(s, p + 2) {
            Ok(x) => x,
            Err(_) => return Err(ParseError::Failure),
        };
        let (code, q2) = match dword_data(s, q1) {
            Ok(x) => x,
            Err(_) => return Err(ParseError::Failure),
        };
        let (arg, q3) = match TermArg::p(s, q2) {
            Ok(x) => x,
            Err(_) => return Err(ParseError::Failure),
        };
        Ok((DefFatal { ty, code, arg }, q3))
    }
}

/// `If(predicate) { terms }`, with an `Else` inside the same package.
#[derive(Debug)]
pub struct DefIfElse {
    pub predicate: TermArg,
    pub terms: TermList,
    pub else_statement: Option<DefElse>,
}

/// `If(predicate) { terms }` at `p`: the opcode, then a package whose contents are its parts in turn, which must fill it.
#[verifier::opaque]
pub open spec fn def_if_else_at(s: Seq<u8>, p: int) -> Result<(DefIfElse, int), ParseError>
    decreases s.len() - p, 0int,
{
    if !(0 <= p && p + 1 <= s.len() && s[p] == 0xa0) {
        Err(ParseError::Error)
    } else {
        match pkg_at(s, p + 1) {
            Ok((b, e)) => if !(p + 1 < b <= e <= s.len()) {
                Err(ParseError::Error)
            } else {
                let t = s.subrange(0, e);
                match term_arg_at(t, b) {
                    Ok((predicate, q1)) => if !(b <= q1 <= t.len()) {
                        Err(ParseError::Error)
                    } else {
                        match term_list_at(t, q1) {
                            Ok((terms, q2)) => if !(b <= q2 <= t.len()) {
                                Err(ParseError::Error)
                            } else {
                                match def_else_at(t, q2) {
                                    Ok((else_statement, q3)) => {
                                        if q3 == e {
                                            Ok((DefIfElse { predicate, terms, else_statement }, e))
                                        } else {
                                            Err(ParseError::Error)
                                        }
                                    },
                                    Err(e) => Err(e),
                                }
                            },
                            Err(e) => Err(e),
                        }
                    },
                    Err(e) => Err(e),
                }
            },
            Err(e) => Err(e),
        }
    }
}

impl DefIfElse {
    /// Parses `If(predicate) { terms }` at `p`.
    pub fn p(s: &[u8], p: usize) -> (r: Result<(DefIfElse, usize), ParseError>)
        requires
            p <= s@.len(),
        ensures
            parsed(r, def_if_else_at(s@, p as int), p as int, s@.len() as int),
        decreases s@.len() - p, 0int,
    {
        proof {
            reveal_with_fuel(def_if_else_at, 1);
            reveal_with_fuel(term_list_at, 1);
            reveal_with_fuel(def_else_at, 1);
        }
        if !(p < s.len() && s[p] == 0xa0) {
            return Err(ParseError::Error);
        }
        let (b, e) = match pkg_bounds(s, p + 1) {
            Ok(x) => x,
            Err(x) => return Err(x),
        };
        let t = vstd::slice::slice_subrange(s, 0, e);
        let (predicate, q1) = match TermArg::p(t, b) {
            Ok(x) => x,
            Err(x) => return Err(x),
        };
        let (terms, q2) = match TermList::p(t, q1) {
            Ok(x) => x,
            Err(x) => return Err(x),
        };
        let (else_statement, q3) = match DefElse::p(t, q2) {
            Ok(x) => x,
            Err(x) => return Err(x),
        };
        if q3 != e {
            return Err(ParseError::Error);
        }
        Ok((DefIfElse { predicate, terms, else_statement }, e))
    }
}

/// `Notify(object, value)`.
#[derive(Debug)]
pub struct DefNotify {
    pub obj: SuperName,
    pub value: TermArg,
}

/// `Notify(object, value)` at `p`: the opcode, then its operands in turn; once the opcode is read, an operand that does not parse is a `Failure`.
#[verifier::opaque]
pub open spec fn def_notify_at(s: Seq<u8>, p: int) -> Result<(DefNotify, int), ParseError>
{
    if !(0 <= p && p + 1 <= s.len() && s[p] == 0x86) {
        Err(ParseError::Error)
    } else {
        match super_name_at(s, p + 1) {
            Ok((obj, q1)) => if !(p + 1 <= q1 <= s.len()) {
                Err(ParseError::Error)
            } else {
                match term_arg_at(s, q1) {
                    Ok((value, q2)) => {
                        Ok((DefNotify { obj, value }, q2))
                    },
                    Err(_) => Err(ParseError::Failure),
                }
            },
            Err(_) => Err(ParseError::Failure),
        }
    }
}

impl DefNotify {
    /// Parses `Notify(object, value)` at `p`.
    pub fn p(s: &[u8], p: usize) -> (r: Result<(DefNotify, usize), ParseError>)
        requires
            p <= s@.len(),
        ensures
            parsed(r, def_notify_at(s@, p as int), p as int, s@.len() as int),
    {
        proof {
            reveal(def_notify_at);
        }
        if !(p < s.len() && s[p] == 0x86) {
            return Err(ParseError::Error);
        }
        let (obj, q1) = match SuperName::p(s, p + 1) {
            Ok(x) => x,
            Err(_) => return Err(ParseError::Failure),
        };
        let (value, q2) = match TermArg::p(s, q1) {
            Ok(x) => x,
            Err(_) => return Err(ParseError::Failure),
        };
        Ok((DefNotify { obj, value }, q2))
    }
}

/// `Release(mutex)`.
#[derive(Debug)]
pub struct DefRelease {
    pub mutex: MutexObj,
}

/// `Release(mutex)` at `p`: the opcode, then its operands in turn; once the opcode is read, an operand that does not parse is a `Failure`.
#[verifier::opaque]
pub open spec fn def_release_at(s: Seq<u8>, p: int) -> Result<(DefRelease, int), ParseError>
{
    if !(0 <= p && p + 2 <= s.len() && s[p] == 0x5b && s[p + 1] == 0x27) {
        Err(ParseError::Error)
    } else {
        match mutex_obj_at(s, p + 2) {
            Ok((mutex, q1)) => {
                Ok((DefRelease { mutex }, q1))
            },
            Err(_) => Err(ParseError::Failure),
        }
    }
}

impl DefRelease {
    /// Parses `Release(mutex)` at `p`.
    pub fn p(s: &[u8], p: usize) -> (r: Result<(DefRelease, usize), ParseError>)
        requires
            p <= s@.len(),
        ensures
            parsed(r, def_release_at(s@, p as int), p as int, s@.len() as int),
    {
        proof {
            reveal(def_release_at);
        }
        if !(p < s.len() && s.len() - p >= 2 && s[p] == 0x5b && s[p + 1] == 0x27) {
            return Err(ParseError::Error);
        }
        let (mutex, q1) = match MutexObj::p(s, p + 2) {
            Ok(x) => x,
            Err(_) => return Err(ParseError::Failure),
        };
        Ok((DefRelease { mutex }, q1))
    }
}

/// A mutex.
#[derive(Debug)]
pub struct MutexObj(pub SuperName);

/// A mutex at `p`.
#[verifier::opaque]
pub open spec fn mutex_obj_at(s: Seq<u8>, p: int) -> Result<(MutexObj, int), ParseError>
{
    match super_name_at(s, p) {
        Ok((v, q)) => Ok((MutexObj(v), q)),
        Err(x) => Err(x),
    }
}

impl MutexObj {
    /// Parses a mutex at `p`.
    pub fn p(s: &[u8], p: usize) -> (r: Result<(MutexObj, usize), ParseError>)
        requires
            p <= s@.len(),
        ensures
            parsed(r, mutex_obj_at(s@, p as int), p as int, s@.len() as int),
    {
        proof {
            reveal(mutex_obj_at);
        }
        match SuperName::p(s, p) {
            Ok((v, q)) => Ok((MutexObj(v), q)),
            Err(x) => Err(x),
        }
    }
}

/// `Reset(event)`.
#[derive(Debug)]
pub struct DefReset {
    pub event: EventObj,
}

/// `Reset(event)` at `p`: the opcode, then its operands in turn; once the opcode is read, an operand that does not parse is a `Failure`.
#[verifier::opaque]
pub open spec fn def_reset_at(s: Seq<u8>, p: int) -> Result<(DefReset, int), ParseError>
{
    if !(0 <= p && p + 2 <= s.len() && s[p] == 0x5b && s[p + 1] == 0x26) {
        Err(ParseError::Error)
    } else {
        match event_obj_at(s, p + 2) {
            Ok((event, q1)) => {
                Ok((DefReset { event }, q1))
            },
            Err(_) => Err(ParseError::Failure),
        }
    }
}

impl DefReset {
    /// Parses `Reset(event)` at `p`.
    pub fn p(s: &[u8], p: usize) -> (r: Result<(DefReset, usize), ParseError>)
        requires
            p <= s@.len(),
        ensures
            parsed(r, def_reset_at(s@, p as int), p as int, s@.len() as int),
    {
        proof {
            reveal(def_reset_at);
        }
        if !(p < s.len() && s.len() - p >= 2 && s[p] == 0x5b && s[p + 1] == 0x26) {
            return Err(ParseError::Error);
        }
        let (event, q1) = match EventObj::p(s, p + 2) {
            Ok(x) => x,
            Err(_) => return Err(ParseError::Failure),
        };
        Ok((DefReset { event }, q1))
    }
}

/// An event.
#[derive(Debug)]
pub struct EventObj(pub SuperName);

/// An event at `p`.
#[verifier::opaque]
pub open spec fn event_obj_at(s: Seq<u8>, p: int) -> Result<(EventObj, int), ParseError>
{
    match super_name_at(s, p) {
        Ok((v, q)) => Ok((EventObj(v), q)),
        Err(x) => Err(x),
    }
}

impl EventObj {
    /// Parses an event at `p`.
    pub fn p(s: &[u8], p: usize) -> (r: Result<(EventObj, usize), ParseError>)
        requires
            p <= s@.len(),
        ensures
            parsed(r, event_obj_at(s@, p as int), p as int, s@.len() as int),
    {
        proof {
            reveal(event_obj_at);
        }
        match SuperName::p(s, p) {
            Ok((v, q)) => Ok((EventObj(v), q)),
            Err(x) => Err(x),
        }
    }
}

/// `Return(value)`.
#[derive(Debug)]
pub struct DefReturn {
    pub arg: ArgObj,
}

/// `Return(value)` at `p`: the opcode, then its operands in turn; once the opcode is read, an operand that does not parse is a `Failure`.
#[verifier::opaque]
pub open spec fn def_return_at(s: Seq<u8>, p: int) -> Result<(DefReturn, int), ParseError>
{
    if !(0 <= p && p + 1 <= s.len() && s[p] == 0xa4) {
        Err(ParseError::Error)
    } else {
        match return_arg_at(s, p + 1) {
            Ok((arg, q1)) => {
                Ok((DefReturn { arg }, q1))
            },
            Err(_) => Err(ParseError::Failure),
        }
    }
}

impl DefReturn {
    /// Parses `Return(value)` at `p`.
    pub fn p(s: &[u8], p: usize) -> (r: Result<(DefReturn, usize), ParseError>)
        requires
            p <= s@.len(),
        ensures
            parsed(r, def_return_at(s@, p as int), p as int, s@.len() as int),
    {
        proof {
            reveal(def_return_at);
        }
        if !(p < s.len() && s[p] == 0xa4) {
            return Err(ParseError::Error);
        }
        let (arg, q1) = match ArgObj::p(s, p + 1) {
            Ok(x) => x,
            Err(_) => return Err(ParseError::Failure),
        };
        Ok((DefReturn { arg }, q1))
    }
}

/// The value of a `Return`.
#[derive(Debug)]
pub struct ArgObj(pub TermArg);

/// `Return` at `p`.
#[verifier::opaque]
pub open spec fn return_arg_at(s: Seq<u8>, p: int) -> Result<(ArgObj, int), ParseError>
{
    match term_arg_at(s, p) {
        Ok((v, q)) => Ok((ArgObj(v), q)),
        Err(x) => Err(x),
    }
}

impl ArgObj {
    /// Parses `Return` at `p`.
    pub fn p(s: &[u8], p: usize) -> (r: Result<(ArgObj, usize), ParseError>)
        requires
            p <= s@.len(),
        ensures
            parsed(r, return_arg_at(s@, p as int), p as int, s@.len() as int),
    {
        proof {
            reveal(return_arg_at);
        }
        match TermArg::p(s, p) {
            Ok((v, q)) => Ok((ArgObj(v), q)),
            Err(x) => Err(x),
        }
    }
}

/// `Signal(event)`.
#[derive(Debug)]
pub struct DefSignal {
    pub event: EventObj,
}

/// `Signal(event)` at `p`: the opcode, then its operands in turn; once the opcode is read, an operand that does not parse is a `Failure`.
#[verifier::opaque]
pub open spec fn def_signal_at(s: Seq<u8>, p: int) -> Result<(DefSignal, int), ParseError>
{
    if !(0 <= p && p + 2 <= s.len() && s[p] == 0x5b && s[p + 1] == 0x24) {
        Err(ParseError::Error)
    } else {
        match event_obj_at(s, p + 2) {
            Ok((event, q1)) => {
                Ok((DefSignal { event }, q1))
            },
            Err(_) => Err(ParseError::Failure),
        }
    }
}

impl DefSignal {
    /// Parses `Signal(event)` at `p`.
    pub fn p(s: &[u8], p: usize) -> (r: Result<(DefSignal, usize), ParseError>)
        requires
            p <= s@.len(),
        ensures
            parsed(r, def_signal_at(s@, p as int), p as int, s@.len() as int),
    {
        proof {
            reveal(def_signal_at);
        }
        if !(p < s.len() && s.len() - p >= 2 && s[p] == 0x5b && s[p + 1] == 0x24) {
            return Err(ParseError::Error);
        }
        let (event, q1) = match EventObj::p(s, p + 2) {
            Ok(x) => x,
            Err(_) => return Err(ParseError::Failure),
        };
        Ok((DefSignal { event }, q1))
    }
}

/// `Sleep(milliseconds)`.
#[derive(Debug)]
pub struct DefSleep {
    pub ms: TermArg,
}

/// `Sleep(milliseconds)` at `p`: the opcode, then its operands in turn; once the opcode is read, an operand that does not parse is a `Failure`.
#[verifier::opaque]
pub open spec fn def_sleep_at(s: Seq<u8>, p: int) -> Result<(DefSleep, int), ParseError>
{
    if !(0 <= p && p + 2 <= s.len() && s[p] == 0x5b && s[p + 1] == 0x22) {
        Err(ParseError::Error)
    } else {
        match term_arg_at(s, p + 2) {
            Ok((ms, q1)) => {
                Ok((DefSleep { ms }, q1))
            },
            Err(_) => Err(ParseError::Failure),
        }
    }
}

impl DefSleep {
    /// Parses `Sleep(milliseconds)` at `p`.
    pub fn p(s: &[u8], p: usize) -> (r: Result<(DefSleep, usize), ParseError>)
        requires
            p <= s@.len(),
        ensures
            parsed(r, def_sleep_at(s@, p as int), p as int, s@.len() as int),
    {
        proof {
            reveal(def_sleep_at);
        }
        if !(p < s.len() && s.len() - p >= 2 && s[p] == 0x5b && s[p + 1] == 0x22) {
            return Err(ParseError::Error);
        }
        let (ms, q1) = match TermArg::p(s, p + 2) {
            Ok(x) => x,
            Err(_) => return Err(ParseError::Failure),
        };
        Ok((DefSleep { ms }, q1))
    }
}

/// `Stall(microseconds)`.
#[derive(Debug)]
pub struct DefStall {
    pub us: TermArg,
}

/// `Stall(microseconds)` at `p`: the opcode, then its operands in turn; once the opcode is read, an operand that does not parse is a `Failure`.
#[verifier::opaque]
pub open spec fn def_stall_at(s: Seq<u8>, p: int) -> Result<(DefStall, int), ParseError>
{
    if !(0 <= p && p + 2 <= s.len() && s[p] == 0x5b && s[p + 1] == 0x21) {
        Err(ParseError::Error)
    } else {
        match term_arg_at(s, p + 2) {
            Ok((us, q1)) => {
                Ok((DefStall { us }, q1))
            },
            Err(_) => Err(ParseError::Failure),
        }
    }
}

impl DefStall {
    /// Parses `Stall(microseconds)` at `p`.
    pub fn p(s: &[u8], p: usize) -> (r: Result<(DefStall, usize), ParseError>)
        requires
            p <= s@.len(),
        ensures
            parsed(r, def_stall_at(s@, p as int), p as int, s@.len() as int),
    {
        proof {
            reveal(def_stall_at);
        }
        if !(p < s.len() && s.len() - p >= 2 && s[p] == 0x5b && s[p + 1] == 0x21) {
            return Err(ParseError::Error);
        }
        let (us, q1) = match TermArg::p(s, p + 2) {
            Ok(x) => x,
            Err(_) => return Err(ParseError::Failure),
        };
        Ok((DefStall { us }, q1))
    }
}

/// `While(predicate) { terms }` (read with the opcode of `Stall`, which is tried first).
#[derive(Debug)]
pub struct DefWhile {
    pub predicate: TermArg,
    pub terms: TermList,
}

/// `While(predicate) { terms }` at `p`: the opcode, then a package whose contents are its parts in turn, which must fill it.
#[verifier::opaque]
pub open spec fn def_while_at(s: Seq<u8>, p: int) -> Result<(DefWhile, int), ParseError>
    decreases s.len() - p, 0int,
{
    if !(0 <= p && p + 2 <= s.len() && s[p] == 0x5b && s[p + 1] == 0x21) {
        Err(ParseError::Error)
    } else {
        match pkg_at(s, p + 2) {
            Ok((b, e)) => if !(p + 2 < b <= e <= s.len()) {
                Err(ParseError::Error)
            } else {
                let t = s.subrange(0, e);
                match term_arg_at(t, b) {
                    Ok((predicate, q1)) => if !(b <= q1 <= t.len()) {
                        Err(ParseError::Error)
                    } else {
                        match term_list_at(t, q1) {
                            Ok((terms, q2)) => {
                                if q2 == e {
                                    Ok((DefWhile { predicate, terms }, e))
                                } else {
                                    Err(ParseError::Error)
                                }
                            },
                            Err(e) => Err(e),
                        }
                    },
                    Err(e) => Err(e),
                }
            },
            Err(e) => Err(e),
        }
    }
}

impl DefWhile {
    /// Parses `While(predicate) { terms }` at `p`.
    pub fn p(s: &[u8], p: usize) -> (r: Result<(DefWhile, usize), ParseError>)
        requires
            p <= s@.len(),
        ensures
            parsed(r, def_while_at(s@, p as int), p as int, s@.len() as int),
        decreases s@.len() - p, 0int,
    {
        proof {
            reveal_with_fuel(def_while_at, 1);
            reveal_with_fuel(term_list_at, 1);
        }
        if !(p < s.len() && s.len() - p >= 2 && s[p] == 0x5b && s[p + 1] == 0x21) {
            return Err(ParseError::Error);
        }
        let (b, e) = match pkg_bounds(s, p + 2) {
            Ok(x) => x,
            Err(x) => return Err(x),
        };
        let t = vstd::slice::slice_subrange(s, 0, e);
        let (predicate, q1) = match TermArg::p(t, b) {
            Ok(x) => x,
            Err(x) => return Err(x),
        };
        let (terms, q2) = match TermList::p(t, q1) {
            Ok(x) => x,
            Err(x) => return Err(x),
        };
        if q2 != e {
            return Err(ParseError::Error);
        }
        Ok((DefWhile { predicate, terms }, e))
    }
}

/// Alternatives 1 to 6 of statement opcode.
#[verifier::opaque]
pub open spec fn statement_opcode_part1_at(s: Seq<u8>, p: int) -> Result<(StatementOpcode, int), ParseError>
    decreases s.len() - p, 1int,
{
    match def_break_at(s, p) {
        Ok((v, q)) => Ok((StatementOpcode::DefBreak(v), q)),
        Err(ParseError::Failure) => Err(ParseError::Failure),
        Err(ParseError::Error) => {
            match def_break_point_at(s, p) {
                Ok((v, q)) => Ok((StatementOpcode::DefBreakPoint(v), q)),
                Err(ParseError::Failure) => Err(ParseError::Failure),
                Err(ParseError::Error) => {
                    match def_continue_at(s, p) {
                        Ok((v, q)) => Ok((StatementOpcode::DefContinue(v), q)),
                        Err(ParseError::Failure) => Err(ParseError::Failure),
                        Err(ParseError::Error) => {
                            match def_else_at(s, p) {
                                Ok((Some(v), q)) => Ok((StatementOpcode::DefElse(v), q)),
                                Ok((None, _)) => {
                                    match def_fatal_at(s, p) {
                                        Ok((v, q)) => Ok((StatementOpcode::DefFatal(v), q)),
                                        Err(ParseError::Failure) => Err(ParseError::Failure),
                                        Err(ParseError::Error) => {
                                            match def_if_else_at(s, p) {
                                                Ok((v, q)) => Ok((StatementOpcode::DefIfElse(v), q)),
                                                Err(x) => Err(x),
                                            }
                                        },
                                    }
                                },
                                Err(x) => Err(x),
                            }
                        },
                    }
                },
            }
        },
    }
}

/// Tries the alternatives 1 to 6 of statement opcode.
fn statement_opcode_part1(s: &[u8], p: usize) -> (r: Result<(StatementOpcode, usize), ParseError>)
    requires
        p <= s@.len(),
    ensures
        parsed(r, statement_opcode_part1_at(s@, p as int), p as int, s@.len() as int),
    decreases s@.len() - p, 1int,
{
    proof {
        reveal_with_fuel(statement_opcode_part1_at, 1);
        reveal_with_fuel(def_else_at, 1);
        reveal_with_fuel(def_if_else_at, 1);
    }
    match DefBreak::p(s, p) {
        Ok((v, q)) => return Ok((StatementOpcode::DefBreak(v), q)),
        Err(ParseError::Failure) => return Err(ParseError::Failure),
        Err(ParseError::Error) => {},
    }
    match DefBreakPoint::p(s, p) {
        Ok((v, q)) => return Ok((StatementOpcode::DefBreakPoint(v), q)),
        Err(ParseError::Failure) => return Err(ParseError::Failure),
        Err(ParseError::Error) => {},
    }
    match DefContinue::p(s, p) {
        Ok((v, q)) => return Ok((StatementOpcode::DefContinue(v), q)),
        Err(ParseError::Failure) => return Err(ParseError::Failure),
        Err(ParseError::Error) => {},
    }
    match DefElse::p(s, p) {
        Ok((Some(v), q)) => return Ok((StatementOpcode::DefElse(v), q)),
        Ok((None, _)) => {},
        Err(x) => return Err(x),
    }
    match DefFatal::p(s, p) {
        Ok((v, q)) => return Ok((StatementOpcode::DefFatal(v), q)),
        Err(ParseError::Failure) => return Err(ParseError::Failure),
        Err(ParseError::Error) => {},
    }
    match DefIfElse::p(s, p) {
        Ok((v, q)) => Ok((StatementOpcode::DefIfElse(v), q)),
        Err(x) => Err(x),
    }
}

/// Alternatives 7 to 12 of statement opcode.
#[verifier::opaque]
pub open spec fn statement_opcode_part2_at(s: Seq<u8>, p: int) -> Result<(StatementOpcode, int), ParseError>
{
    match def_noop_at(s, p) {
        Ok((v, q)) => Ok((StatementOpcode::DefNoop(v), q)),
        Err(ParseError::Failure) => Err(ParseError::Failure),
        Err(ParseError::Error) => {
            match def_notify_at(s, p) {
                Ok((v, q)) => Ok((StatementOpcode::DefNotify(v), q)),
                Err(ParseError::Failure) => Err(ParseError::Failure),
                Err(ParseError::Error) => {
                    match def_release_at(s, p) {
                        Ok((v, q)) => Ok((StatementOpcode::DefRelease(v), q)),
                        Err(ParseError::Failure) => Err(ParseError::Failure),
                        Err(ParseError::Error) => {
                            match def_reset_at(s, p) {
                                Ok((v, q)) => Ok((StatementOpcode::DefReset(v), q)),
                                Err(ParseError::Failure) => Err(ParseError::Failure),
                                Err(ParseError::Error) => {
                                    match def_return_at(s, p) {
                                        Ok((v, q)) => Ok((StatementOpcode::DefReturn(v), q)),
                                        Err(ParseError::Failure) => Err(ParseError::Failure),
                                        Err(ParseError::Error) => {
                                            match def_signal_at(s, p) {
                                                Ok((v, q)) => Ok((StatementOpcode::DefSignal(v), q)),
                                                Err(x) => Err(x),
                                            }
                                        },
                                    }
                                },
                            }
                        },
                    }
                },
            }
        },
    }
}

/// Tries the alternatives 7 to 12 of statement opcode.
fn statement_opcode_part2(s: &[u8], p: usize) -> (r: Result<(StatementOpcode, usize), ParseError>)
    requires
        p <= s@.len(),
    ensures
        parsed(r, statement_opcode_part2_at(s@, p as int), p as int, s@.len() as int),
{
    proof {
        reveal(statement_opcode_part2_at);
    }
    match DefNoop::p(s, p) {
        Ok((v, q)) => return Ok((StatementOpcode::DefNoop(v), q)),
        Err(ParseError::Failure) => return Err(ParseError::Failure),
        Err(ParseError::Error) => {},
    }
    match DefNotify::p(s, p) {
        Ok((v, q)) => return Ok((StatementOpcode::DefNotify(v), q)),
        Err(ParseError::Failure) => return Err(ParseError::Failure),
        Err(ParseError::Error) => {},
    }
    match DefRelease::p(s, p) {
        Ok((v, q)) => return Ok((StatementOpcode::DefRelease(v), q)),
        Err(ParseError::Failure) => return Err(ParseError::Failure),
        Err(ParseError::Error) => {},
    }
    match DefReset::p(s, p) {
        Ok((v, q)) => return Ok((StatementOpcode::DefReset(v), q)),
        Err(ParseError::Failure) => return Err(ParseError::Failure),
        Err(ParseError::Error) => {},
    }
    match DefReturn::p(s, p) {
        Ok((v, q)) => return Ok((StatementOpcode::DefReturn(v), q)),
        Err(ParseError::Failure) => return Err(ParseError::Failure),
        Err(ParseError::Error) => {},
    }
    match DefSignal::p(s, p) {
        Ok((v, q)) => Ok((StatementOpcode::DefSignal(v), q)),
        Err(x) => Err(x),
    }
}

/// Alternatives 13 to 15 of statement opcode.
#[verifier::opaque]
pub open spec fn statement_opcode_part3_at(s: Seq<u8>, p: int) -> Result<(StatementOpcode, int), ParseError>
    decreases s.len() - p, 1int,
{
    match def_sleep_at(s, p) {
        Ok((v, q)) => Ok((StatementOpcode::DefSleep(v), q)),
        Err(ParseError::Failure) => Err(ParseError::Failure),
        Err(ParseError::Error) => {
            match def_stall_at(s, p) {
                Ok((v, q)) => Ok((StatementOpcode::DefStall(v), q)),
                Err(ParseError::Failure) => Err(ParseError::Failure),
                Err(ParseError::Error) => {
                    match def_while_at(s, p) {
                        Ok((v, q)) => Ok((StatementOpcode::DefWhile(v), q)),
                        Err(x) => Err(x),
                    }
                },
            }
        },
    }
}

/// Tries the alternatives 13 to 15 of statement opcode.
fn statement_opcode_part3(s: &[u8], p: usize) -> (r: Result<(StatementOpcode, usize), ParseError>)
    requires
        p <= s@.len(),
    ensures
        parsed(r, statement_opcode_part3_at(s@, p as int), p as int, s@.len() as int),
    decreases s@.len() - p, 1int,
{
    proof {
        reveal_with_fuel(statement_opcode_part3_at, 1);
        reveal_with_fuel(def_while_at, 1);
    }
    match DefSleep::p(s, p) {
        Ok((v, q)) => return Ok((StatementOpcode::DefSleep(v), q)),
        Err(ParseError::Failure) => return Err(ParseError::Failure),
        Err(ParseError::Error) => {},
    }
    match DefStall::p(s, p) {
        Ok((v, q)) => return Ok((StatementOpcode::DefStall(v), q)),
        Err(ParseError::Failure) => return Err(ParseError::Failure),
        Err(ParseError::Error) => {},
    }
    match DefWhile::p(s, p) {
        Ok((v, q)) => Ok((StatementOpcode::DefWhile(v), q)),
        Err(x) => Err(x),
    }
}

/// `Else { terms }`.
#[derive(Debug)]
pub struct DefElse {
    pub terms: TermList,
}

/// Opcode of `Else`.
pub const ELSE_OP: u8 = 0xa1;

/// An optional `Else` at `p`: `None`, with nothing read, where the input does not hold
/// one; only a failure to commit inside it fails.
#[verifier::opaque]
pub open spec fn def_else_at(s: Seq<u8>, p: int) -> Result<(Option<DefElse>, int), ParseError>
    decreases s.len() - p, 0int,
{
    if !(0 <= p < s.len() && s[p] == ELSE_OP) {
        Ok((None, p))
    } else {
        match pkg_at(s, p + 1) {
            Ok((b, e)) => if !(p + 1 < b <= e <= s.len()) {
                Ok((None, p))
            } else {
                match term_list_at(s.subrange(0, e), b) {
                    Ok((terms, q)) => if q == e {
                        Ok((Some(DefElse { terms }), e))
                    } else {
                        Ok((None, p))
                    },
                    Err(ParseError::Error) => Ok((None, p)),
                    Err(ParseError::Failure) => Err(ParseError::Failure),
                }
            },
            Err(ParseError::Error) => Ok((None, p)),
            Err(ParseError::Failure) => Err(ParseError::Failure),
        }
    }
}

impl DefElse {
    /// Parses an optional `Else` at `p`.
    pub fn p(s: &[u8], p: usize) -> (r: Result<(Option<DefElse>, usize), ParseError>)
        requires
            p <= s@.len(),
        ensures
            parsed_any(r, def_else_at(s@, p as int), p as int, s@.len() as int),
        decreases s@.len() - p, 0int,
    {
        proof {
            reveal_with_fuel(def_else_at, 1);
            reveal_with_fuel(term_list_at, 1);
        }
        if !(p < s.len() && s[p] == ELSE_OP) {
            return Ok((None, p));
        }
        let (b, e) = match pkg_bounds(s, p + 1) {
            Ok(x) => x,
            Err(ParseError::Error) => return Ok((None, p)),
            Err(ParseError::Failure) => return Err(ParseError::Failure),
        };
        let t = vstd::slice::slice_subrange(s, 0, e);
        match TermList::p(t, b) {
            Ok((terms, q)) => if q == e {
                Ok((Some(DefElse { terms }), e))
            } else {
                Ok((None, p))
            },
            Err(ParseError::Error) => Ok((None, p)),
            Err(ParseError::Failure) => Err(ParseError::Failure),
        }
    }
}

} // verus!
