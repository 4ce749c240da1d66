//! Named objects of AML: fields, buffer fields, regions, methods, devices, power
//! resources, thermal zones and the like.
use vstd::prelude::*;
use crate::aml::{NameSeg, NameString, ParseError, name_seg_at, name_string_at, pkg_length, pkg_length_at};
use crate::aml_data::{List, byte_data, byte_data_at, parsed, parsed_any, pkg_at, pkg_bounds, word_data, word_data_at};
use crate::aml_term::{TermArg, TermList, term_arg_at, term_list_at};

verus! {

/// A named object.
#[derive(Debug)]
pub enum NamedObj {
    DefBankField(DefBankField),
    DefCreateBitField(DefCreateBitField),
    DefCreateByteField(DefCreateByteField),
    DefCreateDWordField(DefCreateDWordField),
    DefCreateField(DefCreateField),
    DefCreateQWordField(DefCreateQWordField),
    DefCreateWordField(DefCreateWordField),
    DefDataRegion(DefDataRegion),
    DefExternal(DefExternal),
    DefOpRegion(DefOpRegion),
    DefPowerRes(DefPowerRes),
    DefThermalZone(DefThermalZone),
    DefField(DefField),
    DefMethod(DefMethod),
}

/// A named object at `p`: the first alternative that does not fail with `Error`, or the failure that ends the choice.
#[verifier::opaque]
pub open spec fn named_obj_at(s: Seq<u8>, p: int) -> Result<(NamedObj, int), ParseError>
    decreases s.len() - p, 2int,
{
    match named_obj_part1_at(s, p) {
        Ok((v, q)) => Ok((v, q)),
        Err(ParseError::Failure) => Err(ParseError::Failure),
        Err(ParseError::Error) => {
            match named_obj_part2_at(s, p) {
                Ok((v, q)) => Ok((v, q)),
                Err(ParseError::Failure) => Err(ParseError::Failure),
                Err(ParseError::Error) => {
                    match named_obj_part3_at(s, p) {
                        Ok((v, q)) => Ok((v, q)),
                        Err(x) => Err(x),
                    }
                },
            }
        },
    }
}

impl NamedObj {
    /// Parses a named object at `p`.
    pub fn p(s: &[u8], p: usize) -> (r: Result<(NamedObj, usize), ParseError>)
        requires
            p <= s@.len(),
        ensures
            parsed(r, named_obj_at(s@, p as int), p as int, s@.len() as int),
        decreases s@.len() - p, 2int,
    {
        proof {
            reveal_with_fuel(named_obj_at, 1);
            reveal_with_fuel(named_obj_part2_at, 1);
            reveal_with_fuel(named_obj_part3_at, 1);
        }
        match named_obj_part1(s, p) {
            Ok((v, q)) => return Ok((v, q)),
            Err(ParseError::Failure) => return Err(ParseError::Failure),
            Err(ParseError::Error) => {},
        }
        match named_obj_part2(s, p) {
            Ok((v, q)) => return Ok((v, q)),
            Err(ParseError::Failure) => return Err(ParseError::Failure),
            Err(ParseError::Error) => {},
        }
        match named_obj_part3(s, p) {
            Ok((v, q)) => Ok((v, q)),
            Err(x) => Err(x),
        }
    }
}

/// `BankField(region, bank, value, flags) { fields }`.
#[derive(Debug)]
pub struct DefBankField {
    pub name1: NameString,
    pub name2: NameString,
    pub bank_value: TermArg,
    pub field_flags: FieldFlags,
    pub field_list: FieldList,
}

/// `BankField(region, bank, value, flags) { fields }` at `p`: the opcode, then a package whose contents are its parts in turn, which must fill it.
#[verifier::opaque]
pub open spec fn def_bank_field_at(s: Seq<u8>, p: int) -> Result<(DefBankField, int), ParseError>
{
    if !(0 <= p && p + 2 <= s.len() && s[p] == 0x5b && s[p + 1] == 0x87) {
        Err(ParseError::Error)
    } else {
        match pkg_at(s, p + 2) {
            Ok((b, e)) => if !(p + 2 < b <= e <= s.len()) {
                Err(ParseError::Error)
            } else {
                let t = s.subrange(0, e);
                match name_string_at(t, b) {
                    Ok((name1, q1)) => {
                        match name_string_at(t, q1) {
                            Ok((name2, q2)) => if !(b <= q2 <= t.len()) {
                                Err(ParseError::Error)
                            } else {
                                match term_arg_at(t, q2) {
                                    Ok((bank_value, q3)) => {
                                        match field_flags_at(t, q3) {
                                            Ok((field_flags, q4)) => if !(b <= q4 <= t.len()) {
                                                Err(ParseError::Error)
                                            } else {
                                                match field_list_at(t, q4) {
                                                    Ok((field_list, q5)) => {
                                                        if q5 == e {
                                                            Ok((DefBankField { name1, name2, bank_value, field_flags, field_list }, e))
                                                        } else {
                                                            Err(ParseError::Error)
                                                        }
                                                    },
                                                    Err(e) => Err(e),
                                                }
                                            },
                                            Err(e) => Err(e),
                                        }
                                    },
                                    Err(e) => Err(e),
                                }
                            },
                            Err(e) => Err(e),
                        }
                    },
                    Err(e) => Err(e),
                }
            },
            Err(e) => Err(e),
        }
    }
}

impl DefBankField {
    /// Parses `BankField(region, bank, value, flags) { fields }` at `p`.
    pub fn p(s: &[u8], p: usize) -> (r: Result<(DefBankField, usize), ParseError>)
        requires
            p <= s@.len(),
        ensures
            parsed(r, def_bank_field_at(s@, p as int), p as int, s@.len() as int),
    {
        proof {
            reveal(def_bank_field_at);
        }
        if !(p < s.len() && s.len() - p >= 2 && s[p] == 0x5b && s[p + 1] == 0x87) {
            return Err(ParseError::Error);
        }
        let (b, e) = match pkg_bounds(s, p + 2) {
            Ok(x) => x,
            Err(x) => return Err(x),
        };
        let t = vstd::slice::slice_subrange(s, 0, e);
        let (name1, q1) = match NameString::p(t, b) {
            Ok(x) => x,
            Err(x) => return Err(x),
        };
        let (name2, q2) = match NameString::p(t, q1) {
            Ok(x) => x,
            Err(x) => return Err(x),
        };
        let (bank_value, q3) = match TermArg::p(t, q2) {
            Ok(x) => x,
            Err(x) => return Err(x),
        };
        let (field_flags, q4) = match FieldFlags::p(t, q3) {
            Ok(x) => x,
            Err(x) => return Err(x),
        };
        let (field_list, q5) = match FieldList::p(t, q4) {
            Ok(x) => x,
            Err(x) => return Err(x),
        };
        if q5 != e {
            return Err(ParseError::Error);
        }
        Ok((DefBankField { name1, name2, bank_value, field_flags, field_list }, e))
    }
}

/// Flags of a field unit.
#[derive(Debug)]
pub struct FieldFlags(pub u8);

/// Flags of a field unit at `p`.
#[verifier::opaque]
pub open spec fn field_flags_at(s: Seq<u8>, p: int) -> Result<(FieldFlags, int), ParseError>
{
    match byte_data_at(s, p) {
        Ok((v, q)) => Ok((FieldFlags(v), q)),
        Err(x) => Err(x),
    }
}

impl FieldFlags {
    /// Parses flags of a field unit at `p`.
    pub fn p(s: &[u8], p: usize) -> (r: Result<(FieldFlags, usize), ParseError>)
        requires
            p <= s@.len(),
        ensures
            parsed(r, field_flags_at(s@, p as int), p as int, s@.len() as int),
    {
        proof {
            reveal(field_flags_at);
        }
        match byte_data(s, p) {
            Ok((v, q)) => Ok((FieldFlags(v), q)),
            Err(x) => Err(x),
        }
    }
}

/// The elements of a field list.
#[derive(Debug)]
pub struct FieldList(pub List<FieldElement>);

/// The elements of a field list: items as long as one parses; an item that fails to commit ends the list.
#[verifier::opaque]
pub open spec fn field_list_at(s: Seq<u8>, p: int) -> Result<(FieldList, int), ParseError>
    decreases s.len() - p, 0int,
{
    if !(0 <= p <= s.len()) {
        Err(ParseError::Error)
    } else {
        match field_element_at(s, p) {
            Ok((v, q)) => if !(p < q <= s.len()) {
                Err(ParseError::Error)
            } else {
                match field_list_at(s, q) {
                    Ok((rest, r)) => Ok((FieldList(List::Cons(Box::new(v), Box::new(rest.0))), r)),
                    Err(x) => Err(x),
                }
            },
            Err(ParseError::Error) => Ok((FieldList(List::Nil), p)),
            Err(ParseError::Failure) => Err(ParseError::Failure),
        }
    }
}

impl FieldList {
    /// Parses the list at `p`.
    pub fn p(s: &[u8], p: usize) -> (r: Result<(FieldList, usize), ParseError>)
        requires
            p <= s@.len(),
        ensures
            parsed_any(r, field_list_at(s@, p as int), p as int, s@.len() as int),
        decreases s@.len() - p, 0int,
    {
        proof {
            reveal_with_fuel(field_list_at, 1);
        }
        match FieldElement::p(s, p) {
            Ok((v, q)) => match FieldList::p(s, q) {
                Ok((rest, r)) => Ok((FieldList(List::Cons(Box::new(v), Box::new(rest.0))), r)),
                Err(x) => Err(x),
            },
            Err(ParseError::Error) => Ok((FieldList(List::Nil), p)),
            Err(ParseError::Failure) => Err(ParseError::Failure),
        }
    }
}

/// An access field: access type and attributes.
#[derive(Debug)]
pub struct AccessField {
    pub ty: AccessType,
    pub attrib: AccessAttrib,
}

/// An access field at `p`: the opcode, then its operands in turn; once the opcode is read, an operand that does not parse is a `Failure`.
#[verifier::opaque]
pub open spec fn access_field_at(s: Seq<u8>, p: int) -> Result<(AccessField, int), ParseError>
{
    if !(0 <= p && p + 1 <= s.len() && s[p] == 0x01) {
        Err(ParseError::Error)
    } else {
        match access_type_at(s, p + 1) {
            Ok((ty, q1)) => {
                match access_attrib_at(s, q1) {
                    Ok((attrib, q2)) => {
                        Ok((AccessField { ty, attrib }, q2))
                    },
                    Err(_) => Err(ParseError::Failure),
                }
            },
            Err(_) => Err(ParseError::Failure),
        }
    }
}

impl AccessField {
    /// Parses an access field at `p`.
    pub fn p(s: &[u8], p: usize) -> (r: Result<(AccessField, usize), ParseError>)
        requires
            p <= s@.len(),
        ensures
            parsed(r, access_field_at(s@, p as int), p as int, s@.len() as int),
    {
        proof {
            reveal(access_field_at);
        }
        if !(p < s.len() && s[p] == 0x01) {
            return Err(ParseError::Error);
        }
        let (ty, q1) = match AccessType::p(s, p + 1) {
            Ok(x) => x,
            Err(_) => return Err(ParseError::Failure),
        };
        let (attrib, q2) = match AccessAttrib::p(s, q1) {
            Ok(x) => x,
            Err(_) => return Err(ParseError::Failure),
        };
        Ok((AccessField { ty, attrib }, q2))
    }
}

/// An access type.
#[derive(Debug)]
pub struct AccessType(pub u8);

/// An access type at `p`.
#[verifier::opaque]
pub open spec fn access_type_at(s: Seq<u8>, p: int) -> Result<(AccessType, int), ParseError>
{
    match byte_data_at(s, p) {
        Ok((v, q)) => Ok((AccessType(v), q)),
        Err(x) => Err(x),
    }
}

impl AccessType {
    /// Parses an access type at `p`.
    pub fn p(s: &[u8], p: usize) -> (r: Result<(AccessType, usize), ParseError>)
        requires
            p <= s@.len(),
        ensures
            parsed(r, access_type_at(s@, p as int), p as int, s@.len() as int),
    {
        proof {
            reveal(access_type_at);
        }
        match byte_data(s, p) {
            Ok((v, q)) => Ok((AccessType(v), q)),
            Err(x) => Err(x),
        }
    }
}

/// An access attribute.
#[derive(Debug)]
pub struct AccessAttrib(pub u8);

/// An access attribute at `p`.
#[verifier::opaque]
pub open spec fn access_attrib_at(s: Seq<u8>, p: int) -> Result<(AccessAttrib, int), ParseError>
{
    match byte_data_at(s, p) {
        Ok((v, q)) => Ok((AccessAttrib(v), q)),
        Err(x) => Err(x),
    }
}

impl AccessAttrib {
    /// Parses an access attribute at `p`.
    pub fn p(s: &[u8], p: usize) -> (r: Result<(AccessAttrib, usize), ParseError>)
        requires
            p <= s@.len(),
        ensures
            parsed(r, access_attrib_at(s@, p as int), p as int, s@.len() as int),
    {
        proof {
            reveal(access_attrib_at);
        }
        match byte_data(s, p) {
            Ok((v, q)) => Ok((AccessAttrib(v), q)),
            Err(x) => Err(x),
        }
    }
}

/// `CreateBitField(source, index, name)`.
#[derive(Debug)]
pub struct DefCreateBitField {
    pub source_buf: TermArg,
    pub bit_index: TermArg,
    pub name: NameString,
}

/// `CreateBitField(source, index, name)` at `p`: the opcode, then its operands in turn; once the opcode is read, an operand that does not parse is a `Failure`.
#[verifier::opaque]
pub open spec fn def_create_bit_field_at(s: Seq<u8>, p: int) -> Result<(DefCreateBitField, int), ParseError>
{
    if !(0 <= p && p + 1 <= s.len() && s[p] == 0x8d) {
        Err(ParseError::Error)
    } else {
        match term_arg_at(s, p + 1) {
            Ok((source_buf, q1)) => if !(p + 1 <= q1 <= s.len()) {
                Err(ParseError::Error)
            } else {
                match term_arg_at(s, q1) {
                    Ok((bit_index, q2)) => {
                        match name_string_at(s, q2) {
                            Ok((name, q3)) => {
                                Ok((DefCreateBitField { source_buf, bit_index, name }, q3))
                            },
                            Err(_) => Err(ParseError::Failure),
                        }
                    },
                    Err(_) => Err(ParseError::Failure),
                }
            },
            Err(_) => Err(ParseError::Failure),
        }
    }
}

impl DefCreateBitField {
    /// Parses `CreateBitField(source, index, name)` at `p`.
    pub fn p(s: &[u8], p: usize) -> (r: Result<(DefCreateBitField, usize), ParseError>)
        requires
            p <= s@.len(),
        ensures
            parsed(r, def_create_bit_field_at(s@, p as int), p as int, s@.len() as int),
    {
        proof {
            reveal(def_create_bit_field_at);
        }
        if !(p < s.len() && s[p] == 0x8d) {
            return Err(ParseError::Error);
        }
        let (source_buf, q1) = match TermArg::p(s, p + 1) {
            Ok(x) => x,
            Err(_) => return Err(ParseError::Failure),
        };
        let (bit_index, q2) = match TermArg::p(s, q1) {
            Ok(x) => x,
            Err(_) => return Err(ParseError::Failure),
        };
        let (name, q3) = match NameString::p(s, q2) {
            Ok(x) => x,
            Err(_) => return Err(ParseError::Failure),
        };
        Ok((DefCreateBitField { source_buf, bit_index, name }, q3))
    }
}

/// `CreateByteField(source, index, name)`.
#[derive(Debug)]
pub struct DefCreateByteField {
    pub source_buf: TermArg,
    pub byte_index: TermArg,
    pub name: NameString,
}

/// `CreateByteField(source, index, name)` at `p`: the opcode, then its operands in turn; once the opcode is read, an operand that does not parse is a `Failure`.
#[verifier::opaque]
pub open spec fn def_create_byte_field_at(s: Seq<u8>, p: int) -> Result<(DefCreateByteField, int), ParseError>
{
    if !(0 <= p && p + 1 <= s.len() && s[p] == 0x8c) {
        Err(ParseError::Error)
    } else {
        match term_arg_at(s, p + 1) {
            Ok((source_buf, q1)) => if !(p + 1 <= q1 <= s.len()) {
                Err(ParseError::Error)
            } else {
                match term_arg_at(s, q1) {
                    Ok((byte_index, q2)) => {
                        match name_string_at(s, q2) {
                            Ok((name, q3)) => {
                                Ok((DefCreateByteField { source_buf, byte_index, name }, q3))
                            },
                            Err(_) => Err(ParseError::Failure),
                        }
                    },
                    Err(_) => Err(ParseError::Failure),
                }
            },
            Err(_) => Err(ParseError::Failure),
        }
    }
}

impl DefCreateByteField {
    /// Parses `CreateByteField(source, index, name)` at `p`.
    pub fn p(s: &[u8], p: usize) -> (r: Result<(DefCreateByteField, usize), ParseError>)
        requires
            p <= s@.len(),
        ensures
            parsed(r, def_create_byte_field_at(s@, p as int), p as int, s@.len() as int),
    {
        proof {
            reveal(def_create_byte_field_at);
        }
        if !(p < s.len() && s[p] == 0x8c) {
            return Err(ParseError::Error);
        }
        let (source_buf, q1) = match TermArg::p(s, p + 1) {
            Ok(x) => x,
            Err(_) => return Err(ParseError::Failure),
        };
        let (byte_index, q2) = match TermArg::p(s, q1) {
            Ok(x) => x,
            Err(_) => return Err(ParseError::Failure),
        };
        let (name, q3) = match NameString::p(s, q2) {
            Ok(x) => x,
            Err(_) => return Err(ParseError::Failure),
        };
        Ok((DefCreateByteField { source_buf, byte_index, name }, q3))
    }
}

/// `CreateDWordField(source, index, name)`.
#[derive(Debug)]
pub struct DefCreateDWordField {
    pub source_buf: TermArg,
    pub byte_index: TermArg,
    pub name: NameString,
}

/// `CreateDWordField(source, index, name)` at `p`: the opcode, then its operands in turn; once the opcode is read, an operand that does not parse is a `Failure`.
#[verifier::opaque]
pub open spec fn def_create_dword_field_at(s: Seq<u8>, p: int) -> Result<(DefCreateDWordField, int), ParseError>
{
    if !(0 <= p && p + 1 <= s.len() && s[p] == 0x8a) {
        Err(ParseError::Error)
    } else {
        match term_arg_at(s, p + 1) {
            Ok((source_buf, q1)) => if !(p + 1 <= q1 <= s.len()) {
                Err(ParseError::Error)
            } else {
                match term_arg_at(s, q1) {
                    Ok((byte_index, q2)) => {
                        match name_string_at(s, q2) {
                            Ok((name, q3)) => {
                                Ok((DefCreateDWordField { source_buf, byte_index, name }, q3))
                            },
                            Err(_) => Err(ParseError::Failure),
                        }
                    },
                    Err(_) => Err(ParseError::Failure),
                }
            },
            Err(_) => Err(ParseError::Failure),
        }
    }
}

impl DefCreateDWordField {
    /// Parses `CreateDWordField(source, index, name)` at `p`.
    pub fn p(s: &[u8], p: usize) -> (r: Result<(DefCreateDWordField, usize), ParseError>)
        requires
            p <= s@.len(),
        ensures
            parsed(r, def_create_dword_field_at(s@, p as int), p as int, s@.len() as int),
    {
        proof {
            reveal(def_create_dword_field_at);
        }
        if !(p < s.len() && s[p] == 0x8a) {
            return Err(ParseError::Error);
        }
        let (source_buf, q1) = match TermArg::p(s, p + 1) {
            Ok(x) => x,
            Err(_) => return Err(ParseError::Failure),
        };
        let (byte_index, q2) = match TermArg::p(s, q1) {
            Ok(x) => x,
            Err(_) => return Err(ParseError::Failure),
        };
        let (name, q3) = match NameString::p(s, q2) {
            Ok(x) => x,
            Err(_) => return Err(ParseError::Failure),
        };
        Ok((DefCreateDWordField { source_buf, byte_index, name }, q3))
    }
}

/// `CreateQWordField(source, index, name)`.
#[derive(Debug)]
pub struct DefCreateQWordField {
    pub source_buf: TermArg,
    pub byte_index: TermArg,
    pub name: NameString,
}

/// `CreateQWordField(source, index, name)` at `p`: the opcode, then its operands in turn; once the opcode is read, an operand that does not parse is a `Failure`.
#[verifier::opaque]
pub open spec fn def_create_qword_field_at(s: Seq<u8>, p: int) -> Result<(DefCreateQWordField, int), ParseError>
{
    if !(0 <= p && p + 1 <= s.len() && s[p] == 0x8f) {
        Err(ParseError::Error)
    } else {
        match term_arg_at(s, p + 1) {
            Ok((source_buf, q1)) => if !(p + 1 <= q1 <= s.len()) {
                Err(ParseError::Error)
            } else {
                match term_arg_at(s, q1) {
                    Ok((byte_index, q2)) => {
                        match name_string_at(s, q2) {
                            Ok((name, q3)) => {
                                Ok((DefCreateQWordField { source_buf, byte_index, name }, q3))
                            },
                            Err(_) => Err(ParseError::Failure),
                        }
                    },
                    Err(_) => Err(ParseError::Failure),
                }
            },
            Err(_) => Err(ParseError::Failure),
        }
    }
}

impl DefCreateQWordField {
    /// Parses `CreateQWordField(source, index, name)` at `p`.
    pub fn p(s: &[u8], p: usize) -> (r: Result<(DefCreateQWordField, usize), ParseError>)
        requires
            p <= s@.len(),
        ensures
            parsed(r, def_create_qword_field_at(s@, p as int), p as int, s@.len() as int),
    {
        proof {
            reveal(def_create_qword_field_at);
        }
        if !(p < s.len() && s[p] == 0x8f) {
            return Err(ParseError::Error);
        }
        let (source_buf, q1) = match TermArg::p(s, p + 1) {
            Ok(x) => x,
            Err(_) => return Err(ParseError::Failure),
        };
        let (byte_index, q2) = match TermArg::p(s, q1) {
            Ok(x) => x,
            Err(_) => return Err(ParseError::Failure),
        };
        let (name, q3) = match NameString::p(s, q2) {
            Ok(x) => x,
            Err(_) => return Err(ParseError::Failure),
        };
        Ok((DefCreateQWordField { source_buf, byte_index, name }, q3))
    }
}

/// `CreateWordField(source, index, name)`.
#[derive(Debug)]
pub struct DefCreateWordField {
    pub source_buf: TermArg,
    pub byte_index: TermArg,
    pub name: NameString,
}

/// `CreateWordField(source, index, name)` at `p`: the opcode, then its operands in turn; once the opcode is read, an operand that does not parse is a `Failure`.
#[verifier::opaque]
pub open spec fn def_create_word_field_at(s: Seq<u8>, p: int) -> Result<(DefCreateWordField, int), ParseError>
{
    if !(0 <= p && p + 1 <= s.len() && s[p] == 0x8b) {
        Err(ParseError::Error)
    } else {
        match term_arg_at(s, p + 1) {
            Ok((source_buf, q1)) => if !(p + 1 <= q1 <= s.len()) {
                Err(ParseError::Error)
            } else {
                match term_arg_at(s, q1) {
                    Ok((byte_index, q2)) => {
                        match name_string_at(s, q2) {
                            Ok((name, q3)) => {
                                Ok((DefCreateWordField { source_buf, byte_index, name }, q3))
                            },
                            Err(_) => Err(ParseError::Failure),
                        }
                    },
                    Err(_) => Err(ParseError::Failure),
                }
            },
            Err(_) => Err(ParseError::Failure),
        }
    }
}

impl DefCreateWordField {
    /// Parses `CreateWordField(source, index, name)` at `p`.
    pub fn p(s: &[u8], p: usize) -> (r: Result<(DefCreateWordField, usize), ParseError>)
        requires
            p <= s@.len(),
        ensures
            parsed(r, def_create_word_field_at(s@, p as int), p as int, s@.len() as int),
    {
        proof {
            reveal(def_create_word_field_at);
        }
        if !(p < s.len() && s[p] == 0x8b) {
            return Err(ParseError::Error);
        }
        let (source_buf, q1) = match TermArg::p(s, p + 1) {
            Ok(x) => x,
            Err(_) => return Err(ParseError::Failure),
        };
        let (byte_index, q2) = match TermArg::p(s, q1) {
            Ok(x) => x,
            Err(_) => return Err(ParseError::Failure),
        };
        let (name, q3) = match NameString::p(s, q2) {
            Ok(x) => x,
            Err(_) => return Err(ParseError::Failure),
        };
        Ok((DefCreateWordField { source_buf, byte_index, name }, q3))
    }
}

/// `CreateField(source, bit index, bit count, name)`.
#[derive(Debug)]
pub struct DefCreateField {
    pub source_buf: TermArg,
    pub bit_index: TermArg,
    pub num_bits: TermArg,
    pub name: NameString,
}

/// `CreateField(source, bit index, bit count, name)` at `p`: the opcode, then its operands in turn; once the opcode is read, an operand that does not parse is a `Failure`.
#[verifier::opaque]
pub open spec fn def_create_field_at(s: Seq<u8>, p: int) -> Result<(DefCreateField, int), ParseError>
{
    if !(0 <= p && p + 2 <= s.len() && s[p] == 0x5b && s[p + 1] == 0x13) {
        Err(ParseError::Error)
    } else {
        match term_arg_at(s, p + 2) {
            Ok((source_buf, q1)) => if !(p + 2 <= q1 <= s.len()) {
                Err(ParseError::Error)
            } else {
                match term_arg_at(s, q1) {
                    Ok((bit_index, q2)) => if !(p + 2 <= q2 <= s.len()) {
                        Err(ParseError::Error)
                    } else {
                        match term_arg_at(s, q2) {
                            Ok((num_bits, q3)) => {
                                match name_string_at(s, q3) {
                                    Ok((name, q4)) => {
                                        Ok((DefCreateField { source_buf, bit_index, num_bits, name }, q4))
                                    },
                                    Err(_) => Err(ParseError::Failure),
                                }
                            },
                            Err(_) => Err(ParseError::Failure),
                        }
                    },
                    Err(_) => Err(ParseError::Failure),
                }
            },
            Err(_) => Err(ParseError::Failure),
        }
    }
}

impl DefCreateField {
    /// Parses `CreateField(source, bit index, bit count, name)` at `p`.
    pub fn p(s: &[u8], p: usize) -> (r: Result<(DefCreateField, usize), ParseError>)
        requires
            p <= s@.len(),
        ensures
            parsed(r, def_create_field_at(s@, p as int), p as int, s@.len() as int),
    {
        proof {
            reveal(def_create_field_at);
        }
        if !(p < s.len() && s.len() - p >= 2 && s[p] == 0x5b && s[p + 1] == 0x13) {
            return Err(ParseError::Error);
        }
        let (source_buf, q1) = match TermArg::p(s, p + 2) {
            Ok(x) => x,
            Err(_) => return Err(ParseError::Failure),
        };
        let (bit_index, q2) = match TermArg::p(s, q1) {
            Ok(x) => x,
            Err(_) => return Err(ParseError::Failure),
        };
        let (num_bits, q3) = match TermArg::p(s, q2) {
            Ok(x) => x,
            Err(_) => return Err(ParseError::Failure),
        };
        let (name, q4) = match NameString::p(s, q3) {
            Ok(x) => x,
            Err(_) => return Err(ParseError::Failure),
        };
        Ok((DefCreateField { source_buf, bit_index, num_bits, name }, q4))
    }
}

/// `DataTableRegion(name, signature, OEM id, OEM table id)`.
#[derive(Debug)]
pub struct DefDataRegion {
    pub name: NameString,
    pub term1: TermArg,
    pub term2: TermArg,
    pub term3: TermArg,
}

/// `DataTableRegion(name, signature, OEM id, OEM table id)` at `p`: the opcode, then its operands in turn; once the opcode is read, an operand that does not parse is a `Failure`.
#[verifier::opaque]
pub open spec fn def_data_region_at(s: Seq<u8>, p: int) -> Result<(DefDataRegion, int), ParseError>
{
    if !(0 <= p && p + 2 <= s.len() && s[p] == 0x5b && s[p + 1] == 0x88) {
        Err(ParseError::Error)
    } else {
        match name_string_at(s, p + 2) {
            Ok((name, q1)) => if !(p + 2 <= q1 <= s.len()) {
                Err(ParseError::Error)
            } else {
                match term_arg_at(s, q1) {
                    Ok((term1, q2)) => if !(p + 2 <= q2 <= s.len()) {
                        Err(ParseError::Error)
                    } else {
                        match term_arg_at(s, q2) {
                            Ok((term2, q3)) => if !(p + 2 <= q3 <= s.len()) {
                                Err(ParseError::Error)
                            } else {
                                match term_arg_at(s, q3) {
                                    Ok((term3, q4)) => {
                                        Ok((DefDataRegion { name, term1, term2, term3 }, q4))
                                    },
                                    Err(_) => Err(ParseError::Failure),
                                }
                            },
                            Err(_) => Err(ParseError::Failure),
                        }
                    },
                    Err(_) => Err(ParseError::Failure),
                }
            },
            Err(_) => Err(ParseError::Failure),
        }
    }
}

impl DefDataRegion {
    /// Parses `DataTableRegion(name, signature, OEM id, OEM table id)` at `p`.
    pub fn p(s: &[u8], p: usize) -> (r: Result<(DefDataRegion, usize), ParseError>)
        requires
            p <= s@.len(),
        ensures
            parsed(r, def_data_region_at(s@, p as int), p as int, s@.len() as int),
    {
        proof {
            reveal(def_data_region_at);
        }
        if !(p < s.len() && s.len() - p >= 2 && s[p] == 0x5b && s[p + 1] == 0x88) {
            return Err(ParseError::Error);
        }
        let (name, q1) = match NameString::p(s, p + 2) {
            Ok(x) => x,
            Err(_) => return Err(ParseError::Failure),
        };
        let (term1, q2) = match TermArg::p(s, q1) {
            Ok(x) => x,
            Err(_) => return Err(ParseError::Failure),
        };
        let (term2, q3) = match TermArg::p(s, q2) {
            Ok(x) => x,
            Err(_) => return Err(ParseError::Failure),
        };
        let (term3, q4) = match TermArg::p(s, q3) {
            Ok(x) => x,
            Err(_) => return Err(ParseError::Failure),
        };
        Ok((DefDataRegion { name, term1, term2, term3 }, q4))
    }
}

/// `Device(name) { terms }`.
#[derive(Debug)]
pub struct DefDevice {
    pub name: NameString,
    pub terms: TermList,
}

/// `Device(name) { terms }` at `p`: the opcode, then a package whose contents are its parts in turn, which must fill it.
#[verifier::opaque]
pub open spec fn def_device_at(s: Seq<u8>, p: int) -> Result<(DefDevice, int), ParseError>
{
    if !(0 <= p && p + 2 <= s.len() && s[p] == 0x5b && s[p + 1] == 0x82) {
        Err(ParseError::Error)
    } else {
        match pkg_at(s, p + 2) {
            Ok((b, e)) => if !(p + 2 < b <= e <= s.len()) {
                Err(ParseError::Error)
            } else {
                let t = s.subrange(0, e);
                match name_string_at(t, b) {
                    Ok((name, q1)) => if !(b <= q1 <= t.len()) {
                        Err(ParseError::Error)
                    } else {
                        match term_list_at(t, q1) {
                            Ok((terms, q2)) => {
                                if q2 == e {
                                    Ok((DefDevice { name, terms }, e))
                                } else {
                                    Err(ParseError::Error)
                                }
                            },
                            Err(e) => Err(e),
                        }
                    },
                    Err(e) => Err(e),
                }
            },
            Err(e) => Err(e),
        }
    }
}

impl DefDevice {
    /// Parses `Device(name) { terms }` at `p`.
    pub fn p(s: &[u8], p: usize) -> (r: Result<(DefDevice, usize), ParseError>)
        requires
            p <= s@.len(),
        ensures
            parsed(r, def_device_at(s@, p as int), p as int, s@.len() as int),
    {
        proof {
            reveal(def_device_at);
        }
        if !(p < s.len() && s.len() - p >= 2 && s[p] == 0x5b && s[p + 1] == 0x82) {
            return Err(ParseError::Error);
        }
        let (b, e) = match pkg_bounds(s, p + 2) {
            Ok(x) => x,
            Err(x) => return Err(x),
        };
        let t = vstd::slice::slice_subrange(s, 0, e);
        let (name, q1) = match NameString::p(t, b) {
            Ok(x) => x,
            Err(x) => return Err(x),
        };
        let (terms, q2) = match TermList::p(t, q1) {
            Ok(x) => x,
            Err(x) => return Err(x),
        };
        if q2 != e {
            return Err(ParseError::Error);
        }
        Ok((DefDevice { name, terms }, e))
    }
}

/// `Event(name)`.
#[derive(Debug)]
pub struct DefEvent {
    pub name: NameString,
}

/// `Event(name)` at `p`: the opcode, then its operands in turn; once the opcode is read, an operand that does not parse is a `Failure`.
#[verifier::opaque]
pub open spec fn def_event_at(s: Seq<u8>, p: int) -> Result<(DefEvent, int), ParseError>
{
    if !(0 <= p && p + 2 <= s.len() && s[p] == 0x5b && s[p + 1] == 0x02) {
        Err(ParseError::Error)
    } else {
        match name_string_at(s, p + 2) {
            Ok((name, q1)) => {
                Ok((DefEvent { name }, q1))
            },
            Err(_) => Err(ParseError::Failure),
        }
    }
}

impl DefEvent {
    /// Parses `Event(name)` at `p`.
    pub fn p(s: &[u8], p: usize) -> (r: Result<(DefEvent, usize), ParseError>)
        requires
            p <= s@.len(),
        ensures
            parsed(r, def_event_at(s@, p as int), p as int, s@.len() as int),
    {
        proof {
            reveal(def_event_at);
        }
        if !(p < s.len() && s.len() - p >= 2 && s[p] == 0x5b && s[p + 1] == 0x02) {
            return Err(ParseError::Error);
        }
        let (name, q1) = match NameString::p(s, p + 2) {
            Ok(x) => x,
            Err(_) => return Err(ParseError::Failure),
        };
        Ok((DefEvent { name }, q1))
    }
}

/// `External(name, type, argument count)`.
#[derive(Debug)]
pub struct DefExternal {
    pub name: NameString,
    pub obj_type: u8,
    pub argument_count: u8,
}

/// `External(name, type, argument count)` at `p`: the opcode, then its operands in turn; once the opcode is read, an operand that does not parse is a `Failure`.
#[verifier::opaque]
pub open spec fn def_external_at(s: Seq<u8>, p: int) -> Result<(DefExternal, int), ParseError>
{
    if !(0 <= p && p + 1 <= s.len() && s[p] == 0x15) {
        Err(ParseError::Error)
    } else {
        match name_string_at(s, p + 1) {
            Ok((name, q1)) => {
                match byte_data_at(s, q1) {
                    Ok((obj_type, q2)) => {
                        match byte_data_at(s, q2) {
                            Ok((argument_count, q3)) => {
                                Ok((DefExternal { name, obj_type, argument_count }, q3))
                            },
                            Err(_) => Err(ParseError::Failure),
                        }
                    },
                    Err(_) => Err(ParseError::Failure),
                }
            },
            Err(_) => Err(ParseError::Failure),
        }
    }
}

impl DefExternal {
    /// Parses `External(name, type, argument count)` at `p`.
    pub fn p(s: &[u8], p: usize) -> (r: Result<(DefExternal, usize), ParseError>)
        requires
            p <= s@.len(),
        ensures
            parsed(r, def_external_at(s@, p as int), p as int, s@.len() as int),
    {
        proof {
            reveal(def_external_at);
        }
        if !(p < s.len() && s[p] == 0x15) {
            return Err(ParseError::Error);
        }
        let (name, q1) = match NameString::p(s, p + 1) {
            Ok(x) => x,
            Err(_) => return Err(ParseError::Failure),
        };
        let (obj_type, q2) = match byte_data(s, q1) {
            Ok(x) => x,
            Err(_) => return Err(ParseError::Failure),
        };
        let (argument_count, q3) = match byte_data(s, q2) {
            Ok(x) => x,
            Err(_) => return Err(ParseError::Failure),
        };
        Ok((DefExternal { name, obj_type, argument_count }, q3))
    }
}

/// `Field(region, flags) { fields }`.
#[derive(Debug)]
pub struct DefField {
    pub name: NameString,
    pub flags: FieldFlags,
    pub fields: FieldList,
}

/// `Field(region, flags) { fields }` at `p`: the opcode, then a package whose contents are its parts in turn, which must fill it.
#[verifier::opaque]
pub open spec fn def_field_at(s: Seq<u8>, p: int) -> Result<(DefField, int), ParseError>
{
    if !(0 <= p && p + 2 <= s.len() && s[p] == 0x5b && s[p + 1] == 0x81) {
        Err(ParseError::Error)
    } else {
        match pkg_at(s, p + 2) {
            Ok((b, e)) => if !(p + 2 < b <= e <= s.len()) {
                Err(ParseError::Error)
            } else {
                let t = s.subrange(0, e);
                match name_string_at(t, b) {
                    Ok((name, q1)) => {
                        match field_flags_at(t, q1) {
                            Ok((flags, q2)) => if !(b <= q2 <= t.len()) {
                                Err(ParseError::Error)
                            } else {
                                match field_list_at(t, q2) {
                                    Ok((fields, q3)) => {
                                        if q3 == e {
                                            Ok((DefField { name, flags, fields }, e))
                                        } else {
                                            Err(ParseError::Error)
                                        }
                                    },
                                    Err(e) => Err(e),
                                }
                            },
                            Err(e) => Err(e),
                        }
                    },
                    Err(e) => Err(e),
                }
            },
            Err(e) => Err(e),
        }
    }
}

impl DefField {
    /// Parses `Field(region, flags) { fields }` at `p`.
    pub fn p(s: &[u8], p: usize) -> (r: Result<(DefField, usize), ParseError>)
        requires
            p <= s@.len(),
        ensures
            parsed(r, def_field_at(s@, p as int), p as int, s@.len() as int),
    {
        proof {
            reveal(def_field_at);
        }
        if !(p < s.len() && s.len() - p >= 2 && s[p] == 0x5b && s[p + 1] == 0x81) {
            return Err(ParseError::Error);
        }
        let (b, e) = match pkg_bounds(s, p + 2) {
            Ok(x) => x,
            Err(x) => return Err(x),
        };
        let t = vstd::slice::slice_subrange(s, 0, e);
        let (name, q1) = match NameString::p(t, b) {
            Ok(x) => x,
            Err(x) => return Err(x),
        };
        let (flags, q2) = match FieldFlags::p(t, q1) {
            Ok(x) => x,
            Err(x) => return Err(x),
        };
        let (fields, q3) = match FieldList::p(t, q2) {
            Ok(x) => x,
            Err(x) => return Err(x),
        };
        if q3 != e {
            return Err(ParseError::Error);
        }
        Ok((DefField { name, flags, fields }, e))
    }
}

/// `IndexField(index, data, flags) { fields }`.
#[derive(Debug)]
pub struct DefIndexField {
    pub name1: NameString,
    pub name2: NameString,
    pub flags: FieldFlags,
    pub fields: FieldList,
}

/// `IndexField(index, data, flags) { fields }` at `p`: the opcode, then a package whose contents are its parts in turn, which must fill it.
#[verifier::opaque]
pub open spec fn def_index_field_at(s: Seq<u8>, p: int) -> Result<(DefIndexField, int), ParseError>
{
    if !(0 <= p && p + 2 <= s.len() && s[p] == 0x5b && s[p + 1] == 0x86) {
        Err(ParseError::Error)
    } else {
        match pkg_at(s, p + 2) {
            Ok((b, e)) => if !(p + 2 < b <= e <= s.len()) {
                Err(ParseError::Error)
            } else {
                let t = s.subrange(0, e);
                match name_string_at(t, b) {
                    Ok((name1, q1)) => {
                        match name_string_at(t, q1) {
                            Ok((name2, q2)) => {
                                match field_flags_at(t, q2) {
                                    Ok((flags, q3)) => if !(b <= q3 <= t.len()) {
                                        Err(ParseError::Error)
                                    } else {
                                        match field_list_at(t, q3) {
                                            Ok((fields, q4)) => {
                                                if q4 == e {
                                                    Ok((DefIndexField { name1, name2, flags, fields }, e))
                                                } else {
                                                    Err(ParseError::Error)
                                                }
                                            },
                                            Err(e) => Err(e),
                                        }
                                    },
                                    Err(e) => Err(e),
                                }
                            },
                            Err(e) => Err(e),
                        }
                    },
                    Err(e) => Err(e),
                }
            },
            Err(e) => Err(e),
        }
    }
}

impl DefIndexField {
    /// Parses `IndexField(index, data, flags) { fields }` at `p`.
    pub fn p(s: &[u8], p: usize) -> (r: Result<(DefIndexField, usize), ParseError>)
        requires
            p <= s@.len(),
        ensures
            parsed(r, def_index_field_at(s@, p as int), p as int, s@.len() as int),
    {
        proof {
            reveal(def_index_field_at);
        }
        if !(p < s.len() && s.len() - p >= 2 && s[p] == 0x5b && s[p + 1] == 0x86) {
            return Err(ParseError::Error);
        }
        let (b, e) = match pkg_bounds(s, p + 2) {
            Ok(x) => x,
            Err(x) => return Err(x),
        };
        let t = vstd::slice::slice_subrange(s, 0, e);
        let (name1, q1) = match NameString::p(t, b) {
            Ok(x) => x,
            Err(x) => return Err(x),
        };
        let (name2, q2) = match NameString::p(t, q1) {
            Ok(x) => x,
            Err(x) => return Err(x),
        };
        let (flags, q3) = match FieldFlags::p(t, q2) {
            Ok(x) => x,
            Err(x) => return Err(x),
        };
        let (fields, q4) = match FieldList::p(t, q3) {
            Ok(x) => x,
            Err(x) => return Err(x),
        };
        if q4 != e {
            return Err(ParseError::Error);
        }
        Ok((DefIndexField { name1, name2, flags, fields }, e))
    }
}

/// `Method(name, flags) { terms }`.
#[derive(Debug)]
pub struct DefMethod {
    pub name: NameString,
    pub flags: MethodFlags,
    pub terms: TermList,
}

/// `Method(name, flags) { terms }` at `p`: the opcode, then a package whose contents are its parts in turn, which must fill it.
#[verifier::opaque]
pub open spec fn def_method_at(s: Seq<u8>, p: int) -> Result<(DefMethod, int), ParseError>
    decreases s.len() - p, 0int,
{
    if !(0 <= p && p + 1 <= s.len() && s[p] == 0x14) {
        Err(ParseError::Error)
    } else {
        match pkg_at(s, p + 1) {
            Ok((b, e)) => if !(p + 1 < b <= e <= s.len()) {
                Err(ParseError::Error)
            } else {
                let t = s.subrange(0, e);
                match name_string_at(t, b) {
                    Ok((name, q1)) => {
                        match method_flags_at(t, q1) {
                            Ok((flags, q2)) => if !(b <= q2 <= t.len()) {
                                Err(ParseError::Error)
                            } else {
                                match term_list_at(t, q2) {
                                    Ok((terms, q3)) => {
                                        if q3 == e {
                                            Ok((DefMethod { name, flags, terms }, e))
                                        } else {
                                            Err(ParseError::Error)
                                        }
                                    },
                                    Err(e) => Err(e),
                                }
                            },
                            Err(e) => Err(e),
                        }
                    },
                    Err(e) => Err(e),
                }
            },
            Err(e) => Err(e),
        }
    }
}

impl DefMethod {
    /// Parses `Method(name, flags) { terms }` at `p`.
    pub fn p(s: &[u8], p: usize) -> (r: Result<(DefMethod, usize), ParseError>)
        requires
            p <= s@.len(),
        ensures
            parsed(r, def_method_at(s@, p as int), p as int, s@.len() as int),
        decreases s@.len() - p, 0int,
    {
        proof {
            reveal_with_fuel(def_method_at, 1);
            reveal_with_fuel(term_list_at, 1);
        }
        if !(p < s.len() && s[p] == 0x14) {
            return Err(ParseError::Error);
        }
        let (b, e) = match pkg_bounds(s, p + 1) {
            Ok(x) => x,
            Err(x) => return Err(x),
        };
        let t = vstd::slice::slice_subrange(s, 0, e);
        let (name, q1) = match NameString::p(t, b) {
            Ok(x) => x,
            Err(x) => return Err(x),
        };
        let (flags, q2) = match MethodFlags::p(t, q1) {
            Ok(x) => x,
            Err(x) => return Err(x),
        };
        let (terms, q3) = match TermList::p(t, q2) {
            Ok(x) => x,
            Err(x) => return Err(x),
        };
        if q3 != e {
            return Err(ParseError::Error);
        }
        Ok((DefMethod { name, flags, terms }, e))
    }
}

/// Flags of a method.
#[derive(Debug)]
pub struct MethodFlags(pub u8);

/// Flags of a method at `p`.
#[verifier::opaque]
pub open spec fn method_flags_at(s: Seq<u8>, p: int) -> Result<(MethodFlags, int), ParseError>
{
    match byte_data_at(s, p) {
        Ok((v, q)) => Ok((MethodFlags(v), q)),
        Err(x) => Err(x),
    }
}

impl MethodFlags {
    /// Parses flags of a method at `p`.
    pub fn p(s: &[u8], p: usize) -> (r: Result<(MethodFlags, usize), ParseError>)
        requires
            p <= s@.len(),
        ensures
            parsed(r, method_flags_at(s@, p as int), p as int, s@.len() as int),
    {
        proof {
            reveal(method_flags_at);
        }
        match byte_data(s, p) {
            Ok((v, q)) => Ok((MethodFlags(v), q)),
            Err(x) => Err(x),
        }
    }
}

/// `Mutex(name, sync level)`.
#[derive(Debug)]
pub struct DefMutex {
    pub name: NameString,
    pub flags: SyncFlags,
}

/// `Mutex(name, sync level)` at `p`: the opcode, then its operands in turn; once the opcode is read, an operand that does not parse is a `Failure`.
#[verifier::opaque]
pub open spec fn def_mutex_at(s: Seq<u8>, p: int) -> Result<(DefMutex, int), ParseError>
{
    if !(0 <= p && p + 2 <= s.len() && s[p] == 0x5b && s[p + 1] == 0x01) {
        Err(ParseError::Error)
    } else {
        match name_string_at(s, p + 2) {
            Ok((name, q1)) => {
                match sync_flags_at(s, q1) {
                    Ok((flags, q2)) => {
                        Ok((DefMutex { name, flags }, q2))
                    },
                    Err(_) => Err(ParseError::Failure),
                }
            },
            Err(_) => Err(ParseError::Failure),
        }
    }
}

impl DefMutex {
    /// Parses `Mutex(name, sync level)` at `p`.
    pub fn p(s: &[u8], p: usize) -> (r: Result<(DefMutex, usize), ParseError>)
        requires
            p <= s@.len(),
        ensures
            parsed(r, def_mutex_at(s@, p as int), p as int, s@.len() as int),
    {
        proof {
            reveal(def_mutex_at);
        }
        if !(p < s.len() && s.len() - p >= 2 && s[p] == 0x5b && s[p + 1] == 0x01) {
            return Err(ParseError::Error);
        }
        let (name, q1) = match NameString::p(s, p + 2) {
            Ok(x) => x,
            Err(_) => return Err(ParseError::Failure),
        };
        let (flags, q2) = match SyncFlags::p(s, q1) {
            Ok(x) => x,
            Err(_) => return Err(ParseError::Failure),
        };
        Ok((DefMutex { name, flags }, q2))
    }
}

/// Synchronization flags.
#[derive(Debug)]
pub struct SyncFlags(pub u8);

/// Synchronization flags at `p`.
#[verifier::opaque]
pub open spec fn sync_flags_at(s: Seq<u8>, p: int) -> Result<(SyncFlags, int), ParseError>
{
    match byte_data_at(s, p) {
        Ok((v, q)) => Ok((SyncFlags(v), q)),
        Err(x) => Err(x),
    }
}

impl SyncFlags {
    /// Parses synchronization flags at `p`.
    pub fn p(s: &[u8], p: usize) -> (r: Result<(SyncFlags, usize), ParseError>)
        requires
            p <= s@.len(),
        ensures
            parsed(r, sync_flags_at(s@, p as int), p as int, s@.len() as int),
    {
        proof {
            reveal(sync_flags_at);
        }
        match byte_data(s, p) {
            Ok((v, q)) => Ok((SyncFlags(v), q)),
            Err(x) => Err(x),
        }
    }
}

/// `OperationRegion(name, space, offset, length)`.
#[derive(Debug)]
pub struct DefOpRegion {
    pub name: NameString,
    pub space: RegionSpace,
    pub offset: TermArg,
    pub len: TermArg,
}

/// `OperationRegion(name, space, offset, length)` at `p`: the opcode, then its operands in turn; once the opcode is read, an operand that does not parse is a `Failure`.
#[verifier::opaque]
pub open spec fn def_op_region_at(s: Seq<u8>, p: int) -> Result<(DefOpRegion, int), ParseError>
{
    if !(0 <= p && p + 2 <= s.len() && s[p] == 0x5b && s[p + 1] == 0x80) {
        Err(ParseError::Error)
    } else {
        match name_string_at(s, p + 2) {
            Ok((name, q1)) => {
                match region_space_at(s, q1) {
                    Ok((space, q2)) => if !(p + 2 <= q2 <= s.len()) {
                        Err(ParseError::Error)
                    } else {
                        match term_arg_at(s, q2) {
                            Ok((offset, q3)) => if !(p + 2 <= q3 <= s.len()) {
                                Err(ParseError::Error)
                            } else {
                                match term_arg_at(s, q3) {
                                    Ok((len, q4)) => {
                                        Ok((DefOpRegion { name, space, offset, len }, q4))
                                    },
                                    Err(_) => Err(ParseError::Failure),
                                }
                            },
                            Err(_) => Err(ParseError::Failure),
                        }
                    },
                    Err(_) => Err(ParseError::Failure),
                }
            },
            Err(_) => Err(ParseError::Failure),
        }
    }
}

impl DefOpRegion {
    /// Parses `OperationRegion(name, space, offset, length)` at `p`.
    pub fn p(s: &[u8], p: usize) -> (r: Result<(DefOpRegion, usize), ParseError>)
        requires
            p <= s@.len(),
        ensures
            parsed(r, def_op_region_at(s@, p as int), p as int, s@.len() as int),
    {
        proof {
            reveal(def_op_region_at);
        }
        if !(p < s.len() && s.len() - p >= 2 && s[p] == 0x5b && s[p + 1] == 0x80) {
            return Err(ParseError::Error);
        }
        let (name, q1) = match NameString::p(s, p + 2) {
            Ok(x) => x,
            Err(_) => return Err(ParseError::Failure),
        };
        let (space, q2) = match RegionSpace::p(s, q1) {
            Ok(x) => x,
            Err(_) => return Err(ParseError::Failure),
        };
        let (offset, q3) = match TermArg::p(s, q2) {
            Ok(x) => x,
            Err(_) => return Err(ParseError::Failure),
        };
        let (len, q4) = match TermArg::p(s, q3) {
            Ok(x) => x,
            Err(_) => return Err(ParseError::Failure),
        };
        Ok((DefOpRegion { name, space, offset, len }, q4))
    }
}

/// An address space of an operation region.
#[derive(Debug)]
pub struct RegionSpace(pub u8);

/// An address space of an operation region at `p`.
#[verifier::opaque]
pub open spec fn region_space_at(s: Seq<u8>, p: int) -> Result<(RegionSpace, int), ParseError>
{
    match byte_data_at(s, p) {
        Ok((v, q)) => Ok((RegionSpace(v), q)),
        Err(x) => Err(x),
    }
}

impl RegionSpace {
    /// Parses an address space of an operation region at `p`.
    pub fn p(s: &[u8], p: usize) -> (r: Result<(RegionSpace, usize), ParseError>)
        requires
            p <= s@.len(),
        ensures
            parsed(r, region_space_at(s@, p as int), p as int, s@.len() as int),
    {
        proof {
            reveal(region_space_at);
        }
        match byte_data(s, p) {
            Ok((v, q)) => Ok((RegionSpace(v), q)),
            Err(x) => Err(x),
        }
    }
}

/// `PowerResource(name, system level, resource order) { terms }`.
#[derive(Debug)]
pub struct DefPowerRes {
    pub name: NameString,
    pub system_level: u8,
    pub resource_order: u16,
    pub terms: TermList,
}

/// `PowerResource(name, system level, resource order) { terms }` at `p`: the opcode, then a package whose contents are its parts in turn, which must fill it.
#[verifier::opaque]
pub open spec fn def_power_res_at(s: Seq<u8>, p: int) -> Result<(DefPowerRes, int), ParseError>
    decreases s.len() - p, 0int,
{
    if !(0 <= p && p + 2 <= s.len() && s[p] == 0x5b && s[p + 1] == 0x84) {
        Err(ParseError::Error)
    } else {
        match pkg_at(s, p + 2) {
            Ok((b, e)) => if !(p + 2 < b <= e <= s.len()) {
                Err(ParseError::Error)
            } else {
                let t = s.subrange(0, e);
                match name_string_at(t, b) {
                    Ok((name, q1)) => {
                        match byte_data_at(t, q1) {
                            Ok((system_level, q2)) => {
                                match word_data_at(t, q2) {
                                    Ok((resource_order, q3)) => if !(b <= q3 <= t.len()) {
                                        Err(ParseError::Error)
                                    } else {
                                        match term_list_at(t, q3) {
                                            Ok((terms, q4)) => {
                                                if q4 == e {
                                                    Ok((DefPowerRes { name, system_level, resource_order, terms }, e))
                                                } else {
                                                    Err(ParseError::Error)
                                                }
                                            },
                                            Err(e) => Err(e),
                                        }
                                    },
                                    Err(e) => Err(e),
                                }
                            },
                            Err(e) => Err(e),
                        }
                    },
                    Err(e) => Err(e),
                }
            },
            Err(e) => Err(e),
        }
    }
}

impl DefPowerRes {
    /// Parses `PowerResource(name, system level, resource order) { terms }` at `p`.
    pub fn p(s: &[u8], p: usize) -> (r: Result<(DefPowerRes, usize), ParseError>)
        requires
            p <= s@.len(),
        ensures
            parsed(r, def_power_res_at(s@, p as int), p as int, s@.len() as int),
        decreases s@.len() - p, 0int,
    {
        proof {
            reveal_with_fuel(def_power_res_at, 1);
            reveal_with_fuel(term_list_at, 1);
        }
        if !(p < s.len() && s.len() - p >= 2 && s[p] == 0x5b && s[p + 1] == 0x84) {
            return Err(ParseError::Error);
        }
        let (b, e) = match pkg_bounds(s, p + 2) {
            Ok(x) => x,
            Err(x) => return Err(x),
        };
        let t = vstd::slice::slice_subrange(s, 0, e);
        let (name, q1) = match NameString::p(t, b) {
            Ok(x) => x,
            Err(x) => return Err(x),
        };
        let (system_level, q2) = match byte_data(t, q1) {
            Ok(x) => x,
            Err(x) => return Err(x),
        };
        let (resource_order, q3) = match word_data(t, q2) {
            Ok(x) => x,
            Err(x) => return Err(x),
        };
        let (terms, q4) = match TermList::p(t, q3) {
            Ok(x) => x,
            Err(x) => return Err(x),
        };
        if q4 != e {
            return Err(ParseError::Error);
        }
        Ok((DefPowerRes { name, system_level, resource_order, terms }, e))
    }
}

/// `ThermalZone(name) { terms }`.
#[derive(Debug)]
pub struct DefThermalZone {
    pub name: NameString,
    pub terms: TermList,
}

/// `ThermalZone(name) { terms }` at `p`: the opcode, then a package whose contents are its parts in turn, which must fill it.
#[verifier::opaque]
pub open spec fn def_thermal_zone_at(s: Seq<u8>, p: int) -> Result<(DefThermalZone, int), ParseError>
    decreases s.len() - p, 0int,
{
    if !(0 <= p && p + 2 <= s.len() && s[p] == 0x5b && s[p + 1] == 0x85) {
        Err(ParseError::Error)
    } else {
        match pkg_at(s, p + 2) {
            Ok((b, e)) => if !(p + 2 < b <= e <= s.len()) {
                Err(ParseError::Error)
            } else {
                let t = s.subrange(0, e);
                match name_string_at(t, b) {
                    Ok((name, q1)) => if !(b <= q1 <= t.len()) {
                        Err(ParseError::Error)
                    } else {
                        match term_list_at(t, q1) {
                            Ok((terms, q2)) => {
                                if q2 == e {
                                    Ok((DefThermalZone { name, terms }, e))
                                } else {
                                    Err(ParseError::Error)
                                }
                            },
                            Err(e) => Err(e),
                        }
                    },
                    Err(e) => Err(e),
                }
            },
            Err(e) => Err(e),
        }
    }
}

impl DefThermalZone {
    /// Parses `ThermalZone(name) { terms }` at `p`.
    pub fn p(s: &[u8], p: usize) -> (r: Result<(DefThermalZone, usize), ParseError>)
        requires
            p <= s@.len(),
        ensures
            parsed(r, def_thermal_zone_at(s@, p as int), p as int, s@.len() as int),
        decreases s@.len() - p, 0int,
    {
        proof {
            reveal_with_fuel(def_thermal_zone_at, 1);
            reveal_with_fuel(term_list_at, 1);
        }
        if !(p < s.len() && s.len() - p >= 2 && s[p] == 0x5b && s[p + 1] == 0x85) {
            return Err(ParseError::Error);
        }
        let (b, e) = match pkg_bounds(s, p + 2) {
            Ok(x) => x,
            Err(x) => return Err(x),
        };
        let t = vstd::slice::slice_subrange(s, 0, e);
        let (name, q1) = match NameString::p(t, b) {
            Ok(x) => x,
            Err(x) => return Err(x),
        };
        let (terms, q2) = match TermList::p(t, q1) {
            Ok(x) => x,
            Err(x) => return Err(x),
        };
        if q2 != e {
            return Err(ParseError::Error);
        }
        Ok((DefThermalZone { name, terms }, e))
    }
}

/// An extended access field: access type, attribute and length.
#[derive(Debug)]
pub struct ExtendedAccessField {
    pub ty: AccessType,
    pub attrib: ExtendedAccessAttrib,
    pub len: AccessLength,
}

/// An extended access field at `p`: the opcode, then its operands in turn; once the opcode is read, an operand that does not parse is a `Failure`.
#[verifier::opaque]
pub open spec fn extended_access_field_at(s: Seq<u8>, p: int) -> Result<(ExtendedAccessField, int), ParseError>
{
    if !(0 <= p && p + 1 <= s.len() && s[p] == 0x13) {
        Err(ParseError::Error)
    } else {
        match access_type_at(s, p + 1) {
            Ok((ty, q1)) => {
                match extended_access_attrib_at(s, q1) {
                    Ok((attrib, q2)) => {
                        match access_length_at(s, q2) {
                            Ok((len, q3)) => {
                                Ok((ExtendedAccessField { ty, attrib, len }, q3))
                            },
                            Err(_) => Err(ParseError::Failure),
                        }
                    },
                    Err(_) => Err(ParseError::Failure),
                }
            },
            Err(_) => Err(ParseError::Failure),
        }
    }
}

impl ExtendedAccessField {
    /// Parses an extended access field at `p`.
    pub fn p(s: &[u8], p: usize) -> (r: Result<(ExtendedAccessField, usize), ParseError>)
        requires
            p <= s@.len(),
        ensures
            parsed(r, extended_access_field_at(s@, p as int), p as int, s@.len() as int),
    {
        proof {
            reveal(extended_access_field_at);
        }
        if !(p < s.len() && s[p] == 0x13) {
            return Err(ParseError::Error);
        }
        let (ty, q1) = match AccessType::p(s, p + 1) {
            Ok(x) => x,
            Err(_) => return Err(ParseError::Failure),
        };
        let (attrib, q2) = match ExtendedAccessAttrib::p(s, q1) {
            Ok(x) => x,
            Err(_) => return Err(ParseError::Failure),
        };
        let (len, q3) = match AccessLength::p(s, q2) {
            Ok(x) => x,
            Err(_) => return Err(ParseError::Failure),
        };
        Ok((ExtendedAccessField { ty, attrib, len }, q3))
    }
}

/// An extended access attribute.
#[derive(Debug)]
pub struct ExtendedAccessAttrib(pub u8);

/// An extended access attribute at `p`.
#[verifier::opaque]
pub open spec fn extended_access_attrib_at(s: Seq<u8>, p: int) -> Result<(ExtendedAccessAttrib, int), ParseError>
{
    match byte_data_at(s, p) {
        Ok((v, q)) => Ok((ExtendedAccessAttrib(v), q)),
        Err(x) => Err(x),
    }
}

impl ExtendedAccessAttrib {
    /// Parses an extended access attribute at `p`.
    pub fn p(s: &[u8], p: usize) -> (r: Result<(ExtendedAccessAttrib, usize), ParseError>)
        requires
            p <= s@.len(),
        ensures
            parsed(r, extended_access_attrib_at(s@, p as int), p as int, s@.len() as int),
    {
        proof {
            reveal(extended_access_attrib_at);
        }
        match byte_data(s, p) {
            Ok((v, q)) => Ok((ExtendedAccessAttrib(v), q)),
            Err(x) => Err(x),
        }
    }
}

/// An access length.
#[derive(Debug)]
pub struct AccessLength(pub u8);

/// An access length at `p`.
#[verifier::opaque]
pub open spec fn access_length_at(s: Seq<u8>, p: int) -> Result<(AccessLength, int), ParseError>
{
    match byte_data_at(s, p) {
        Ok((v, q)) => Ok((AccessLength(v), q)),
        Err(x) => Err(x),
    }
}

impl AccessLength {
    /// Parses an access length at `p`.
    pub fn p(s: &[u8], p: usize) -> (r: Result<(AccessLength, usize), ParseError>)
        requires
            p <= s@.len(),
        ensures
            parsed(r, access_length_at(s@, p as int), p as int, s@.len() as int),
    {
        proof {
            reveal(access_length_at);
        }
        match byte_data(s, p) {
            Ok((v, q)) => Ok((AccessLength(v), q)),
            Err(x) => Err(x),
        }
    }
}

/// An element of a field list.
#[derive(Debug)]
pub enum FieldElement {
    NamedField(NamedField),
    ReservedField(ReservedField),
    AccessField(AccessField),
    ExtendedAccessField(ExtendedAccessField),
    ConnectField(ConnectField),
}

/// An element of a field list at `p`: the first alternative that does not fail with `Error`, or the failure that ends the choice.
#[verifier::opaque]
pub open spec fn field_element_at(s: Seq<u8>, p: int) -> Result<(FieldElement, int), ParseError>
{
    match named_field_at(s, p) {
        Ok((v, q)) => Ok((FieldElement::NamedField(v), q)),
        Err(ParseError::Failure) => Err(ParseError::Failure),
        Err(ParseError::Error) => {
            match reserved_field_at(s, p) {
                Ok((v, q)) => Ok((FieldElement::ReservedField(v), q)),
                Err(ParseError::Failure) => Err(ParseError::Failure),
                Err(ParseError::Error) => {
                    match access_field_at(s, p) {
                        Ok((v, q)) => Ok((FieldElement::AccessField(v), q)),
                        Err(ParseError::Failure) => Err(ParseError::Failure),
                        Err(ParseError::Error) => {
                            match extended_access_field_at(s, p) {
                                Ok((v, q)) => Ok((FieldElement::ExtendedAccessField(v), q)),
                                Err(ParseError::Failure) => Err(ParseError::Failure),
                                Err(ParseError::Error) => {
                                    match connect_field_at(s, p) {
                                        Ok((v, q)) => Ok((FieldElement::ConnectField(v), q)),
                                        Err(x) => Err(x),
                                    }
                                },
                            }
                        },
                    }
                },
            }
        },
    }
}

impl FieldElement {
    /// Parses an element of a field list at `p`.
    pub fn p(s: &[u8], p: usize) -> (r: Result<(FieldElement, usize), ParseError>)
        requires
            p <= s@.len(),
        ensures
            parsed(r, field_element_at(s@, p as int), p as int, s@.len() as int),
    {
        proof {
            reveal(field_element_at);
        }
        match NamedField::p(s, p) {
            Ok((v, q)) => return Ok((FieldElement::NamedField(v), q)),
            Err(ParseError::Failure) => return Err(ParseError::Failure),
            Err(ParseError::Error) => {},
        }
        match ReservedField::p(s, p) {
            Ok((v, q)) => return Ok((FieldElement::ReservedField(v), q)),
            Err(ParseError::Failure) => return Err(ParseError::Failure),
            Err(ParseError::Error) => {},
        }
        match AccessField::p(s, p) {
            Ok((v, q)) => return Ok((FieldElement::AccessField(v), q)),
            Err(ParseError::Failure) => return Err(ParseError::Failure),
            Err(ParseError::Error) => {},
        }
        match ExtendedAccessField::p(s, p) {
            Ok((v, q)) => return Ok((FieldElement::ExtendedAccessField(v), q)),
            Err(ParseError::Failure) => return Err(ParseError::Failure),
            Err(ParseError::Error) => {},
        }
        match ConnectField::p(s, p) {
            Ok((v, q)) => Ok((FieldElement::ConnectField(v), q)),
            Err(x) => Err(x),
        }
    }
}

/// Alternatives 1 to 6 of named obj.
#[verifier::opaque]
pub open spec fn named_obj_part1_at(s: Seq<u8>, p: int) -> Result<(NamedObj, int), ParseError>
{
    match def_bank_field_at(s, p) {
        Ok((v, q)) => Ok((NamedObj::DefBankField(v), q)),
        Err(ParseError::Failure) => Err(ParseError::Failure),
        Err(ParseError::Error) => {
            match def_create_bit_field_at(s, p) {
                Ok((v, q)) => Ok((NamedObj::DefCreateBitField(v), q)),
                Err(ParseError::Failure) => Err(ParseError::Failure),
                Err(ParseError::Error) => {
                    match def_create_byte_field_at(s, p) {
                        Ok((v, q)) => Ok((NamedObj::DefCreateByteField(v), q)),
                        Err(ParseError::Failure) => Err(ParseError::Failure),
                        Err(ParseError::Error) => {
                            match def_create_dword_field_at(s, p) {
                                Ok((v, q)) => Ok((NamedObj::DefCreateDWordField(v), q)),
                                Err(ParseError::Failure) => Err(ParseError::Failure),
                                Err(ParseError::Error) => {
                                    match def_create_field_at(s, p) {
                                        Ok((v, q)) => Ok((NamedObj::DefCreateField(v), q)),
                                        Err(ParseError::Failure) => Err(ParseError::Failure),
                                        Err(ParseError::Error) => {
                                            match def_create_qword_field_at(s, p) {
                                                Ok((v, q)) => Ok((NamedObj::DefCreateQWordField(v), q)),
                                                Err(x) => Err(x),
                                            }
                                        },
                                    }
                                },
                            }
                        },
                    }
                },
            }
        },
    }
}

/// Tries the alternatives 1 to 6 of named obj.
fn named_obj_part1(s: &[u8], p: usize) -> (r: Result<(NamedObj, usize), ParseError>)
    requires
        p <= s@.len(),
    ensures
        parsed(r, named_obj_part1_at(s@, p as int), p as int, s@.len() as int),
{
    proof {
        reveal(named_obj_part1_at);
    }
    match DefBankField::p(s, p) {
        Ok((v, q)) => return Ok((NamedObj::DefBankField(v), q)),
        Err(ParseError::Failure) => return Err(ParseError::Failure),
        Err(ParseError::Error) => {},
    }
    match DefCreateBitField::p(s, p) {
        Ok((v, q)) => return Ok((NamedObj::DefCreateBitField(v), q)),
        Err(ParseError::Failure) => return Err(ParseError::Failure),
        Err(ParseError::Error) => {},
    }
    match DefCreateByteField::p(s, p) {
        Ok((v, q)) => return Ok((NamedObj::DefCreateByteField(v), q)),
        Err(ParseError::Failure) => return Err(ParseError::Failure),
        Err(ParseError::Error) => {},
    }
    match DefCreateDWordField::p(s, p) {
        Ok((v, q)) => return Ok((NamedObj::DefCreateDWordField(v), q)),
        Err(ParseError::Failure) => return Err(ParseError::Failure),
        Err(ParseError::Error) => {},
    }
    match DefCreateField::p(s, p) {
        Ok((v, q)) => return Ok((NamedObj::DefCreateField(v), q)),
        Err(ParseError::Failure) => return Err(ParseError::Failure),
        Err(ParseError::Error) => {},
    }
    match DefCreateQWordField::p(s, p) {
        Ok((v, q)) => Ok((NamedObj::DefCreateQWordField(v), q)),
        Err(x) => Err(x),
    }
}

/// Alternatives 7 to 12 of named obj.
#[verifier::opaque]
pub open spec fn named_obj_part2_at(s: Seq<u8>, p: int) -> Result<(NamedObj, int), ParseError>
    decreases s.len() - p, 1int,
{
    match def_create_word_field_at(s, p) {
        Ok((v, q)) => Ok((NamedObj::DefCreateWordField(v), q)),
        Err(ParseError::Failure) => Err(ParseError::Failure),
        Err(ParseError::Error) => {
            match def_data_region_at(s, p) {
                Ok((v, q)) => Ok((NamedObj::DefDataRegion(v), q)),
                Err(ParseError::Failure) => Err(ParseError::Failure),
                Err(ParseError::Error) => {
                    match def_external_at(s, p) {
                        Ok((v, q)) => Ok((NamedObj::DefExternal(v), q)),
                        Err(ParseError::Failure) => Err(ParseError::Failure),
                        Err(ParseError::Error) => {
                            match def_op_region_at(s, p) {
                                Ok((v, q)) => Ok((NamedObj::DefOpRegion(v), q)),
                                Err(ParseError::Failure) => Err(ParseError::Failure),
                                Err(ParseError::Error) => {
                                    match def_power_res_at(s, p) {
                                        Ok((v, q)) => Ok((NamedObj::DefPowerRes(v), q)),
                                        Err(ParseError::Failure) => Err(ParseError::Failure),
                                        Err(ParseError::Error) => {
                                            match def_thermal_zone_at(s, p) {
                                                Ok((v, q)) => Ok((NamedObj::DefThermalZone(v), q)),
                                                Err(x) => Err(x),
                                            }
                                        },
                                    }
                                },
                            }
                        },
                    }
                },
            }
        },
    }
}

/// Tries the alternatives 7 to 12 of named obj.
fn named_obj_part2(s: &[u8], p: usize) -> (r: Result<(NamedObj, usize), ParseError>)
    requires
        p <= s@.len(),
    ensures
        parsed(r, named_obj_part2_at(s@, p as int), p as int, s@.len() as int),
    decreases s@.len() - p, 1int,
{
    proof {
        reveal_with_fuel(named_obj_part2_at, 1);
        reveal_with_fuel(def_power_res_at, 1);
        reveal_with_fuel(def_thermal_zone_at, 1);
    }
    match DefCreateWordField::p(s, p) {
        Ok((v, q)) => return Ok((NamedObj::DefCreateWordField(v), q)),
        Err(ParseError::Failure) => return Err(ParseError::Failure),
        Err(ParseError::Error) => {},
    }
    match DefDataRegion::p(s, p) {
        Ok((v, q)) => return Ok((NamedObj::DefDataRegion(v), q)),
        Err(ParseError::Failure) => return Err(ParseError::Failure),
        Err(ParseError::Error) => {},
    }
    match DefExternal::p(s, p) {
        Ok((v, q)) => return Ok((NamedObj::DefExternal(v), q)),
        Err(ParseError::Failure) => return Err(ParseError::Failure),
        Err(ParseError::Error) => {},
    }
    match DefOpRegion::p(s, p) {
        Ok((v, q)) => return Ok((NamedObj::DefOpRegion(v), q)),
        Err(ParseError::Failure) => return Err(ParseError::Failure),
        Err(ParseError::Error) => {},
    }
    match DefPowerRes::p(s, p) {
        Ok((v, q)) => return Ok((NamedObj::DefPowerRes(v), q)),
        Err(ParseError::Failure) => return Err(ParseError::Failure),
        Err(ParseError::Error) => {},
    }
    match DefThermalZone::p(s, p) {
        Ok((v, q)) => Ok((NamedObj::DefThermalZone(v), q)),
        Err(x) => Err(x),
    }
}

/// Alternatives 13 to 14 of named obj.
#[verifier::opaque]
pub open spec fn named_obj_part3_at(s: Seq<u8>, p: int) -> Result<(NamedObj, int), ParseError>
    decreases s.len() - p, 1int,
{
    match def_field_at(s, p) {
        Ok((v, q)) => Ok((NamedObj::DefField(v), q)),
        Err(ParseError::Failure) => Err(ParseError::Failure),
        Err(ParseError::Error) => {
            match def_method_at(s, p) {
                Ok((v, q)) => Ok((NamedObj::DefMethod(v), q)),
                Err(x) => Err(x),
            }
        },
    }
}

/// Tries the alternatives 13 to 14 of named obj.
fn named_obj_part3(s: &[u8], p: usize) -> (r: Result<(NamedObj, usize), ParseError>)
    requires
        p <= s@.len(),
    ensures
        parsed(r, named_obj_part3_at(s@, p as int), p as int, s@.len() as int),
    decreases s@.len() - p, 1int,
{
    proof {
        reveal_with_fuel(named_obj_part3_at, 1);
        reveal_with_fuel(def_method_at, 1);
    }
    match DefField::p(s, p) {
        Ok((v, q)) => return Ok((NamedObj::DefField(v), q)),
        Err(ParseError::Failure) => return Err(ParseError::Failure),
        Err(ParseError::Error) => {},
    }
    match DefMethod::p(s, p) {
        Ok((v, q)) => Ok((NamedObj::DefMethod(v), q)),
        Err(x) => Err(x),
    }
}

/// A named field: its name and its length in bits.
#[derive(Clone, Copy, Debug)]
pub struct NamedField(pub NameSeg, pub usize);

/// A named field at `p`: a name segment, then a length, which is committed to.
pub open spec fn named_field_at(s: Seq<u8>, p: int) -> Result<(NamedField, int), ParseError> {
    match name_seg_at(s, p) {
        Ok((seg, q)) => match pkg_length_at(s, q) {
            Ok((len, r)) => Ok((NamedField(seg, len as usize), r)),
            Err(_) => Err(ParseError::Failure),
        },
        Err(x) => Err(x),
    }
}

impl NamedField {
    /// Parses a named field at `p`.
    pub fn p(s: &[u8], p: usize) -> (r: Result<(NamedField, usize), ParseError>)
        requires
            p <= s@.len(),
        ensures
            parsed(r, named_field_at(s@, p as int), p as int, s@.len() as int),
    {
        let (seg, q) = match NameSeg::p(s, p) {
            Ok(x) => x,
            Err(x) => return Err(x),
        };
        match pkg_length(s, q) {
            Ok((len, r)) => Ok((NamedField(seg, len), r)),
            Err(_) => Err(ParseError::Failure),
        }
    }
}

/// A reserved field.
#[derive(Clone, Copy, Debug)]
pub struct ReservedField;

/// Byte that starts a reserved field.
pub const RESERVED_FIELD_OP: u8 = 0x00;

/// A reserved field at `p`: its opcode and a package, whose contents are skipped.
pub open spec fn reserved_field_at(s: Seq<u8>, p: int) -> Result<(ReservedField, int), ParseError> {
    if 0 <= p < s.len() && s[p] == RESERVED_FIELD_OP {
        match pkg_at(s, p + 1) {
            Ok((_, e)) => Ok((ReservedField, e)),
            Err(x) => Err(x),
        }
    } else {
        Err(ParseError::Error)
    }
}

impl ReservedField {
    /// Parses a reserved field at `p`.
    pub fn p(s: &[u8], p: usize) -> (r: Result<(ReservedField, usize), ParseError>)
        requires
            p <= s@.len(),
        ensures
            parsed(r, reserved_field_at(s@, p as int), p as int, s@.len() as int),
    {
        if !(p < s.len() && s[p] == RESERVED_FIELD_OP) {
            return Err(ParseError::Error);
        }
        match pkg_bounds(s, p + 1) {
            Ok((_, e)) => Ok((ReservedField, e)),
            Err(x) => Err(x),
        }
    }
}

/// A connection field.
#[derive(Debug)]
pub enum ConnectField {
    NameString(NameString),
}

/// Byte that starts a connection field.
pub const CONNECT_FIELD_OP: u8 = 0x02;

/// A connection field at `p`: its opcode, then a name, which is committed to.
pub open spec fn connect_field_at(s: Seq<u8>, p: int) -> Result<(ConnectField, int), ParseError> {
    if 0 <= p < s.len() && s[p] == CONNECT_FIELD_OP {
        match name_string_at(s, p + 1) {
            Ok((n, q)) => Ok((ConnectField::NameString(n), q)),
            Err(_) => Err(ParseError::Failure),
        }
    } else {
        Err(ParseError::Error)
    }
}

impl ConnectField {
    /// Parses a connection field at `p`.
    pub fn p(s: &[u8], p: usize) -> (r: Result<(ConnectField, usize), ParseError>)
        requires
            p <= s@.len(),
        ensures
            parsed(r, connect_field_at(s@, p as int), p as int, s@.len() as int),
    {
        if !(p < s.len() && s[p] == CONNECT_FIELD_OP) {
            return Err(ParseError::Error);
        }
        match NameString::p(s, p + 1) {
            Ok((n, q)) => Ok((ConnectField::NameString(n), q)),
            Err(_) => Err(ParseError::Failure),
        }
    }
}

} // verus!
