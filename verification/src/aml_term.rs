//! Terms of AML: objects, statements and expressions, lists of terms, the arguments of
//! operators, method calls, and the objects that modify the namespace.
//!
//! Every parser follows the grammar as an ordered choice: an alternative that fails with
//! `Error` lets the next one be tried, one that fails with `Failure` ends the choice. An
//! operator whose opcode has been read commits to its operands where the grammar says so.
use vstd::prelude::*;
use crate::aml::{ArgObj, LocalObj, NameString, ParseError, arg_obj_at, local_obj_at, name_string_at};
use crate::aml_data::{DataObj, DataRefObj, List, data_obj_at, data_ref_obj_at, parsed, parsed_any, pkg_at, pkg_bounds};
use crate::aml_expr::{ExprOpcode, expr_opcode_at};
use crate::aml_named::{NamedObj, named_obj_at};
use crate::aml_statement::{StatementOpcode, statement_opcode_at};

verus! {

/// An object: a namespace modifier or a named object.
#[derive(Debug)]
pub enum Obj {
    NameSpaceModObj(NameSpaceModObj),
    NamedObj(NamedObj),
}

/// An object at `p`: the first alternative that does not fail with `Error`, or the failure that ends the choice.
#[verifier::opaque]
pub open spec fn obj_at(s: Seq<u8>, p: int) -> Result<(Obj, int), ParseError>
    decreases s.len() - p, 3int,
{
    match name_space_mod_obj_at(s, p) {
        Ok((v, q)) => Ok((Obj::NameSpaceModObj(v), q)),
        Err(ParseError::Failure) => Err(ParseError::Failure),
        Err(ParseError::Error) => {
            match named_obj_at(s, p) {
                Ok((v, q)) => Ok((Obj::NamedObj(v), q)),
                Err(x) => Err(x),
            }
        },
    }
}

impl Obj {
    /// Parses an object at `p`.
    pub fn p(s: &[u8], p: usize) -> (r: Result<(Obj, usize), ParseError>)
        requires
            p <= s@.len(),
        ensures
            parsed(r, obj_at(s@, p as int), p as int, s@.len() as int),
        decreases s@.len() - p, 3int,
    {
        proof {
            reveal_with_fuel(obj_at, 1);
            reveal_with_fuel(name_space_mod_obj_at, 1);
            reveal_with_fuel(named_obj_at, 1);
        }
        match NameSpaceModObj::p(s, p) {
            Ok((v, q)) => return Ok((Obj::NameSpaceModObj(v), q)),
            Err(ParseError::Failure) => return Err(ParseError::Failure),
            Err(ParseError::Error) => {},
        }
        match NamedObj::p(s, p) {
            Ok((v, q)) => Ok((Obj::NamedObj(v), q)),
            Err(x) => Err(x),
        }
    }
}

/// A term: an object, a statement or an expression.
#[derive(Debug)]
pub enum TermObj {
    Obj(Obj),
    StatementOpcode(StatementOpcode),
    ExprOpcode(ExprOpcode),
}

/// A term at `p`: the first alternative that does not fail with `Error`, or the failure that ends the choice.
#[verifier::opaque]
pub open spec fn term_obj_at(s: Seq<u8>, p: int) -> Result<(TermObj, int), ParseError>
    decreases s.len() - p, 4int,
{
    match obj_at(s, p) {
        Ok((v, q)) => Ok((TermObj::Obj(v), q)),
        Err(ParseError::Failure) => Err(ParseError::Failure),
        Err(ParseError::Error) => {
            match statement_opcode_at(s, p) {
                Ok((v, q)) => Ok((TermObj::StatementOpcode(v), q)),
                Err(ParseError::Failure) => Err(ParseError::Failure),
                Err(ParseError::Error) => {
                    match expr_opcode_at(s, p) {
                        Ok((v, q)) => Ok((TermObj::ExprOpcode(v), q)),
                        Err(x) => Err(x),
                    }
                },
            }
        },
    }
}

impl TermObj {
    /// Parses a term at `p`.
    pub fn p(s: &[u8], p: usize) -> (r: Result<(TermObj, usize), ParseError>)
        requires
            p <= s@.len(),
        ensures
            parsed(r, term_obj_at(s@, p as int), p as int, s@.len() as int),
        decreases s@.len() - p, 4int,
    {
        proof {
            reveal_with_fuel(term_obj_at, 1);
            reveal_with_fuel(obj_at, 1);
            reveal_with_fuel(statement_opcode_at, 1);
        }
        match Obj::p(s, p) {
            Ok((v, q)) => return Ok((TermObj::Obj(v), q)),
            Err(ParseError::Failure) => return Err(ParseError::Failure),
            Err(ParseError::Error) => {},
        }
        match StatementOpcode::p(s, p) {
            Ok((v, q)) => return Ok((TermObj::StatementOpcode(v), q)),
            Err(ParseError::Failure) => return Err(ParseError::Failure),
            Err(ParseError::Error) => {},
        }
        match ExprOpcode::p(s, p) {
            Ok((v, q)) => Ok((TermObj::ExprOpcode(v), q)),
            Err(x) => Err(x),
        }
    }
}

/// A list of terms.
#[derive(Debug)]
pub struct TermList(pub List<TermObj>);

/// A list of terms: items as long as one parses; an item that fails to commit ends the list.
#[verifier::opaque]
pub open spec fn term_list_at(s: Seq<u8>, p: int) -> Result<(TermList, int), ParseError>
    decreases s.len() - p, 5int,
{
    if !(0 <= p <= s.len()) {
        Err(ParseError::Error)
    } else {
        match term_obj_at(s, p) {
            Ok((v, q)) => if !(p < q <= s.len()) {
                Err(ParseError::Error)
            } else {
                match term_list_at(s, q) {
                    Ok((rest, r)) => Ok((TermList(List::Cons(Box::new(v), Box::new(rest.0))), r)),
                    Err(x) => Err(x),
                }
            },
            Err(ParseError::Error) => Ok((TermList(List::Nil), p)),
            Err(ParseError::Failure) => Err(ParseError::Failure),
        }
    }
}

impl TermList {
    /// Parses the list at `p`.
    pub fn p(s: &[u8], p: usize) -> (r: Result<(TermList, usize), ParseError>)
        requires
            p <= s@.len(),
        ensures
            parsed_any(r, term_list_at(s@, p as int), p as int, s@.len() as int),
        decreases s@.len() - p, 5int,
    {
        proof {
            reveal_with_fuel(term_list_at, 1);
            reveal_with_fuel(term_obj_at, 1);
        }
        match TermObj::p(s, p) {
            Ok((v, q)) => match TermList::p(s, q) {
                Ok((rest, r)) => Ok((TermList(List::Cons(Box::new(v), Box::new(rest.0))), r)),
                Err(x) => Err(x),
            },
            Err(ParseError::Error) => Ok((TermList(List::Nil), p)),
            Err(ParseError::Failure) => Err(ParseError::Failure),
        }
    }
}

/// An argument of an operator: an expression, a data object, an argument or a local.
#[derive(Debug)]
pub enum TermArg {
    ExprOpcode(Box<ExprOpcode>),
    DataObj(Box<DataObj>),
    ArgObj(ArgObj),
    LocalObj(LocalObj),
}

/// An argument of an operator at `p`: the first alternative that does not fail with `Error`, or the failure that ends the choice.
#[verifier::opaque]
pub open spec fn term_arg_at(s: Seq<u8>, p: int) -> Result<(TermArg, int), ParseError>
    decreases s.len() - p, 3int,
{
    match expr_opcode_at(s, p) {
        Ok((v, q)) => Ok((TermArg::ExprOpcode(Box::new(v)), q)),
        Err(ParseError::Failure) => Err(ParseError::Failure),
        Err(ParseError::Error) => {
            match data_obj_at(s, p) {
                Ok((v, q)) => Ok((TermArg::DataObj(Box::new(v)), q)),
                Err(ParseError::Failure) => Err(ParseError::Failure),
                Err(ParseError::Error) => {
                    match arg_obj_at(s, p) {
                        Ok((v, q)) => Ok((TermArg::ArgObj(v), q)),
                        Err(ParseError::Failure) => Err(ParseError::Failure),
                        Err(ParseError::Error) => {
                            match local_obj_at(s, p) {
                                Ok((v, q)) => Ok((TermArg::LocalObj(v), q)),
                                Err(x) => Err(x),
                            }
                        },
                    }
                },
            }
        },
    }
}

impl TermArg {
    /// Parses an argument of an operator at `p`.
    pub fn p(s: &[u8], p: usize) -> (r: Result<(TermArg, usize), ParseError>)
        requires
            p <= s@.len(),
        ensures
            parsed(r, term_arg_at(s@, p as int), p as int, s@.len() as int),
        decreases s@.len() - p, 3int,
    {
        proof {
            reveal_with_fuel(term_arg_at, 1);
            reveal_with_fuel(expr_opcode_at, 1);
            reveal_with_fuel(data_obj_at, 1);
        }
        match ExprOpcode::p(s, p) {
            Ok((v, q)) => return Ok((TermArg::ExprOpcode(Box::new(v)), q)),
            Err(ParseError::Failure) => return Err(ParseError::Failure),
            Err(ParseError::Error) => {},
        }
        match DataObj::p(s, p) {
            Ok((v, q)) => return Ok((TermArg::DataObj(Box::new(v)), q)),
            Err(ParseError::Failure) => return Err(ParseError::Failure),
            Err(ParseError::Error) => {},
        }
        match ArgObj::p(s, p) {
            Ok((v, q)) => return Ok((TermArg::ArgObj(v), q)),
            Err(ParseError::Failure) => return Err(ParseError::Failure),
            Err(ParseError::Error) => {},
        }
        match LocalObj::p(s, p) {
            Ok((v, q)) => Ok((TermArg::LocalObj(v), q)),
            Err(x) => Err(x),
        }
    }
}

/// A call of a method: its name and its arguments.
#[derive(Debug)]
pub struct MethodInvocation {
    pub name: NameString,
    pub args: TermArgList,
}

/// A call of a method at `p`: its parts in turn.
#[verifier::opaque]
pub open spec fn method_invocation_at(s: Seq<u8>, p: int) -> Result<(MethodInvocation, int), ParseError>
    decreases s.len() - p, 0int,
{
    if !(0 <= p <= s.len()) {
        Err(ParseError::Error)
    } else {
        match name_string_at(s, p) {
            Ok((name, q1)) => if !(p < q1 <= s.len()) {
                Err(ParseError::Error)
            } else {
                match term_arg_list_at(s, q1) {
                    Ok((args, q2)) => {
                        Ok((MethodInvocation { name, args }, q2))
                    },
                    Err(e) => Err(e),
                }
            },
            Err(e) => Err(e),
        }
    }
}

impl MethodInvocation {
    /// Parses a call of a method at `p`.
    pub fn p(s: &[u8], p: usize) -> (r: Result<(MethodInvocation, usize), ParseError>)
        requires
            p <= s@.len(),
        ensures
            parsed(r, method_invocation_at(s@, p as int), p as int, s@.len() as int),
        decreases s@.len() - p, 0int,
    {
        proof {
            reveal_with_fuel(method_invocation_at, 1);
            reveal_with_fuel(term_arg_list_at, 1);
        }
        let (name, q1) = match NameString::p(s, p) {
            Ok(x) => x,
            Err(x) => return Err(x),
        };
        let (args, q2) = match TermArgList::p(s, q1) {
            Ok(x) => x,
            Err(x) => return Err(x),
        };
        Ok((MethodInvocation { name, args }, q2))
    }
}

/// A list of arguments.
#[derive(Debug)]
pub struct TermArgList(pub List<TermArg>);

/// A list of arguments: items as long as one parses; an item that fails to commit ends the list.
#[verifier::opaque]
pub open spec fn term_arg_list_at(s: Seq<u8>, p: int) -> Result<(TermArgList, int), ParseError>
    decreases s.len() - p, 4int,
{
    if !(0 <= p <= s.len()) {
        Err(ParseError::Error)
    } else {
        match term_arg_at(s, p) {
            Ok((v, q)) => if !(p < q <= s.len()) {
                Err(ParseError::Error)
            } else {
                match term_arg_list_at(s, q) {
                    Ok((rest, r)) => Ok((TermArgList(List::Cons(Box::new(v), Box::new(rest.0))), r)),
                    Err(x) => Err(x),
                }
            },
            Err(ParseError::Error) => Ok((TermArgList(List::Nil), p)),
            Err(ParseError::Failure) => Err(ParseError::Failure),
        }
    }
}

impl TermArgList {
    /// Parses the list at `p`.
    pub fn p(s: &[u8], p: usize) -> (r: Result<(TermArgList, usize), ParseError>)
        requires
            p <= s@.len(),
        ensures
            parsed_any(r, term_arg_list_at(s@, p as int), p as int, s@.len() as int),
        decreases s@.len() - p, 4int,
    {
        proof {
            reveal_with_fuel(term_arg_list_at, 1);
            reveal_with_fuel(term_arg_at, 1);
        }
        match TermArg::p(s, p) {
            Ok((v, q)) => match TermArgList::p(s, q) {
                Ok((rest, r)) => Ok((TermArgList(List::Cons(Box::new(v), Box::new(rest.0))), r)),
                Err(x) => Err(x),
            },
            Err(ParseError::Error) => Ok((TermArgList(List::Nil), p)),
            Err(ParseError::Failure) => Err(ParseError::Failure),
        }
    }
}

/// An object that modifies the namespace.
#[derive(Debug)]
pub enum NameSpaceModObj {
    DefAlias(DefAlias),
    DefName(DefName),
    DefScope(DefScope),
}

/// An object that modifies the namespace at `p`: the first alternative that does not fail with `Error`, or the failure that ends the choice.
#[verifier::opaque]
pub open spec fn name_space_mod_obj_at(s: Seq<u8>, p: int) -> Result<(NameSpaceModObj, int), ParseError>
    decreases s.len() - p, 1int,
{
    match def_alias_at(s, p) {
        Ok((v, q)) => Ok((NameSpaceModObj::DefAlias(v), q)),
        Err(ParseError::Failure) => Err(ParseError::Failure),
        Err(ParseError::Error) => {
            match def_name_at(s, p) {
                Ok((v, q)) => Ok((NameSpaceModObj::DefName(v), q)),
                Err(ParseError::Failure) => Err(ParseError::Failure),
                Err(ParseError::Error) => {
                    match def_scope_at(s, p) {
                        Ok((v, q)) => Ok((NameSpaceModObj::DefScope(v), q)),
                        Err(x) => Err(x),
                    }
                },
            }
        },
    }
}

impl NameSpaceModObj {
    /// Parses an object that modifies the namespace at `p`.
    pub fn p(s: &[u8], p: usize) -> (r: Result<(NameSpaceModObj, usize), ParseError>)
        requires
            p <= s@.len(),
        ensures
            parsed(r, name_space_mod_obj_at(s@, p as int), p as int, s@.len() as int),
        decreases s@.len() - p, 1int,
    {
        proof {
            reveal_with_fuel(name_space_mod_obj_at, 1);
            reveal_with_fuel(def_scope_at, 1);
        }
        match DefAlias::p(s, p) {
            Ok((v, q)) => return Ok((NameSpaceModObj::DefAlias(v), q)),
            Err(ParseError::Failure) => return Err(ParseError::Failure),
            Err(ParseError::Error) => {},
        }
        match DefName::p(s, p) {
            Ok((v, q)) => return Ok((NameSpaceModObj::DefName(v), q)),
            Err(ParseError::Failure) => return Err(ParseError::Failure),
            Err(ParseError::Error) => {},
        }
        match DefScope::p(s, p) {
            Ok((v, q)) => Ok((NameSpaceModObj::DefScope(v), q)),
            Err(x) => Err(x),
        }
    }
}

/// `Alias(source, alias)`.
#[derive(Debug)]
pub struct DefAlias {
    pub source: NameString,
    pub alias: NameString,
}

/// `Alias(source, alias)` at `p`: the opcode, then its operands in turn.
#[verifier::opaque]
pub open spec fn def_alias_at(s: Seq<u8>, p: int) -> Result<(DefAlias, int), ParseError>
{
    if !(0 <= p && p + 1 <= s.len() && s[p] == 0x06) {
        Err(ParseError::Error)
    } else {
        match name_string_at(s, p + 1) {
            Ok((source, q1)) => {
                match name_string_at(s, q1) {
                    Ok((alias, q2)) => {
                        Ok((DefAlias { source, alias }, q2))
                    },
                    Err(e) => Err(e),
                }
            },
            Err(e) => Err(e),
        }
    }
}

impl DefAlias {
    /// Parses `Alias(source, alias)` at `p`.
    pub fn p(s: &[u8], p: usize) -> (r: Result<(DefAlias, usize), ParseError>)
        requires
            p <= s@.len(),
        ensures
            parsed(r, def_alias_at(s@, p as int), p as int, s@.len() as int),
    {
        proof {
            reveal(def_alias_at);
        }
        if !(p < s.len() && s[p] == 0x06) {
            return Err(ParseError::Error);
        }
        let (source, q1) = match NameString::p(s, p + 1) {
            Ok(x) => x,
            Err(x) => return Err(x),
        };
        let (alias, q2) = match NameString::p(s, q1) {
            Ok(x) => x,
            Err(x) => return Err(x),
        };
        Ok((DefAlias { source, alias }, q2))
    }
}

/// `Name(name, data)`.
#[derive(Debug)]
pub struct DefName {
    pub name: NameString,
    pub data: DataRefObj,
}

/// `Name(name, data)` at `p`: the opcode, then its operands in turn.
#[verifier::opaque]
pub open spec fn def_name_at(s: Seq<u8>, p: int) -> Result<(DefName, int), ParseError>
{
    if !(0 <= p && p + 1 <= s.len() && s[p] == 0x08) {
        Err(ParseError::Error)
    } else {
        match name_string_at(s, p + 1) {
            Ok((name, q1)) => if !(p + 1 <= q1 <= s.len()) {
                Err(ParseError::Error)
            } else {
                match data_ref_obj_at(s, q1) {
                    Ok((data, q2)) => {
                        Ok((DefName { name, data }, q2))
                    },
                    Err(e) => Err(e),
                }
            },
            Err(e) => Err(e),
        }
    }
}

impl DefName {
    /// Parses `Name(name, data)` at `p`.
    pub fn p(s: &[u8], p: usize) -> (r: Result<(DefName, usize), ParseError>)
        requires
            p <= s@.len(),
        ensures
            parsed(r, def_name_at(s@, p as int), p as int, s@.len() as int),
    {
        proof {
            reveal(def_name_at);
        }
        if !(p < s.len() && s[p] == 0x08) {
            return Err(ParseError::Error);
        }
        let (name, q1) = match NameString::p(s, p + 1) {
            Ok(x) => x,
            Err(x) => return Err(x),
        };
        let (data, q2) = match DataRefObj::p(s, q1) {
            Ok(x) => x,
            Err(x) => return Err(x),
        };
        Ok((DefName { name, data }, q2))
    }
}

/// `Scope(name) { terms }`.
#[derive(Debug)]
pub struct DefScope {
    pub name: NameString,
    pub terms: TermList,
}

/// `Scope(name) { terms }` at `p`: the opcode, then a package whose contents are its parts in turn, which must fill it.
#[verifier::opaque]
pub open spec fn def_scope_at(s: Seq<u8>, p: int) -> Result<(DefScope, int), ParseError>
    decreases s.len() - p, 0int,
{
    if !(0 <= p && p + 1 <= s.len() && s[p] == 0x10) {
        Err(ParseError::Error)
    } else {
        match pkg_at(s, p + 1) {
            Ok((b, e)) => if !(p + 1 < b <= e <= s.len()) {
                Err(ParseError::Error)
            } else {
                let t = s.subrange(0, e);
                match name_string_at(t, b) {
                    Ok((name, q1)) => if !(b <= q1 <= t.len()) {
                        Err(ParseError::Error)
                    } else {
                        match term_list_at(t, q1) {
                            Ok((terms, q2)) => {
                                if q2 == e {
                                    Ok((DefScope { name, terms }, e))
                                } else {
                                    Err(ParseError::Error)
                                }
                            },
                            Err(e) => Err(e),
                        }
                    },
                    Err(e) => Err(e),
                }
            },
            Err(e) => Err(e),
        }
    }
}

impl DefScope {
    /// Parses `Scope(name) { terms }` at `p`.
    pub fn p(s: &[u8], p: usize) -> (r: Result<(DefScope, usize), ParseError>)
        requires
            p <= s@.len(),
        ensures
            parsed(r, def_scope_at(s@, p as int), p as int, s@.len() as int),
        decreases s@.len() - p, 0int,
    {
        proof {
            reveal_with_fuel(def_scope_at, 1);
            reveal_with_fuel(term_list_at, 1);
        }
        if !(p < s.len() && s[p] == 0x10) {
            return Err(ParseError::Error);
        }
        let (b, e) = match pkg_bounds(s, p + 1) {
            Ok(x) => x,
            Err(x) => return Err(x),
        };
        let t = vstd::slice::slice_subrange(s, 0, e);
        let (name, q1) = match NameString::p(t, b) {
            Ok(x) => x,
            Err(x) => return Err(x),
        };
        let (terms, q2) = match TermList::p(t, q1) {
            Ok(x) => x,
            Err(x) => return Err(x),
        };
        if q2 != e {
            return Err(ParseError::Error);
        }
        Ok((DefScope { name, terms }, e))
    }
}

} // verus!
