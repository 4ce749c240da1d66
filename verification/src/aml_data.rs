//! Data objects of AML: byte, word, double-word and quad-word data, constants, strings,
//! buffers and packages; the lists that the grammar builds; and package framing, which
//! bounds a construct by its encoded length.
//!
//! Every parser here and in the term grammar reads the input `s` from position `p` and
//! returns what it read with the position after it. A construct framed by a package is
//! parsed on the prefix of the input that ends where the package ends, and must use all of
//! it.
use vstd::prelude::*;
use crate::aml::{ParseError, pkg_length, pkg_length_at, EXT_OP_PREFIX};
use crate::aml_expr::{DefBuffer, DefPkg, DefVarPkg, def_buffer_at, def_pkg_at, def_var_pkg_at};

verus! {

/// A list of parsed items, in input order.
#[derive(Debug)]
pub enum List<T> {
    Nil,
    Cons(Box<T>, Box<List<T>>),
}

/// `r` is what the grammar `g` gives at `p`; on success it ends after `p` and within
/// `len`.
pub open spec fn parsed<T>(r: Result<(T, usize), ParseError>, g: Result<(T, int), ParseError>, p: int, len: int) -> bool {
    match r {
        Ok((v, q)) => g == Ok::<(T, int), ParseError>((v, q as int)) && p < q <= len,
        Err(e) => g == Err::<(T, int), ParseError>(e),
    }
}

/// `r` is what the grammar `g` gives at `p`; on success it ends at or after `p` and within
/// `len` (the construct may be empty).
pub open spec fn parsed_any<T>(r: Result<(T, usize), ParseError>, g: Result<(T, int), ParseError>, p: int, len: int) -> bool {
    match r {
        Ok((v, q)) => g == Ok::<(T, int), ParseError>((v, q as int)) && p <= q <= len,
        Err(e) => g == Err::<(T, int), ParseError>(e),
    }
}

/// One byte of data at `p`.
pub open spec fn byte_data_at(s: Seq<u8>, p: int) -> Result<(u8, int), ParseError> {
    if 0 <= p < s.len() {
        Ok((s[p], p + 1))
    } else {
        Err(ParseError::Error)
    }
}

/// Two bytes of little-endian data at `p`.
pub open spec fn word_data_at(s: Seq<u8>, p: int) -> Result<(u16, int), ParseError> {
    if 0 <= p && p + 2 <= s.len() {
        Ok(((s[p] + 256 * s[p + 1]) as u16, p + 2))
    } else {
        Err(ParseError::Error)
    }
}

/// Four bytes of little-endian data at `p`.
pub open spec fn dword_data_at(s: Seq<u8>, p: int) -> Result<(u32, int), ParseError> {
    if 0 <= p && p + 4 <= s.len() {
        Ok(((s[p] + 0x100 * s[p + 1] + 0x1_0000 * s[p + 2] + 0x100_0000 * s[p + 3]) as u32, p + 4))
    } else {
        Err(ParseError::Error)
    }
}

/// Eight bytes of little-endian data at `p`.
pub open spec fn qword_data_at(s: Seq<u8>, p: int) -> Result<(u64, int), ParseError> {
    if 0 <= p && p + 8 <= s.len() {
        Ok((
            (s[p] + 0x100 * s[p + 1] + 0x1_0000 * s[p + 2] + 0x100_0000 * s[p + 3] + 0x1_0000_0000 * s[p + 4]
                + 0x100_0000_0000 * s[p + 5] + 0x1_0000_0000_0000 * s[p + 6] + 0x100_0000_0000_0000 * s[p
                + 7]) as u64,
            p + 8,
        ))
    } else {
        Err(ParseError::Error)
    }
}

/// Reads one byte of data.
pub fn byte_data(s: &[u8], p: usize) -> (r: Result<(u8, usize), ParseError>)
    ensures
        parsed(r, byte_data_at(s@, p as int), p as int, s@.len() as int),
{
    if p < s.len() {
        Ok((s[p], p + 1))
    } else {
        Err(ParseError::Error)
    }
}

/// Reads two bytes of little-endian data.
pub fn word_data(s: &[u8], p: usize) -> (r: Result<(u16, usize), ParseError>)
    ensures
        parsed(r, word_data_at(s@, p as int), p as int, s@.len() as int),
{
    if p < s.len() && s.len() - p >= 2 {
        Ok((s[p] as u16 + 256 * (s[p + 1] as u16), p + 2))
    } else {
        Err(ParseError::Error)
    }
}

/// Reads four bytes of little-endian data.
pub fn dword_data(s: &[u8], p: usize) -> (r: Result<(u32, usize), ParseError>)
    ensures
        parsed(r, dword_data_at(s@, p as int), p as int, s@.len() as int),
{
    if p < s.len() && s.len() - p >= 4 {
        let v: u32 = s[p] as u32 + 0x100 * (s[p + 1] as u32) + 0x1_0000 * (s[p + 2] as u32) + 0x100_0000 * (s[p
            + 3] as u32);
        Ok((v, p + 4))
    } else {
        Err(ParseError::Error)
    }
}

/// Reads eight bytes of little-endian data.
pub fn qword_data(s: &[u8], p: usize) -> (r: Result<(u64, usize), ParseError>)
    ensures
        parsed(r, qword_data_at(s@, p as int), p as int, s@.len() as int),
{
    if p < s.len() && s.len() - p >= 8 {
        let v: u64 = s[p] as u64 + 0x100 * (s[p + 1] as u64) + 0x1_0000 * (s[p + 2] as u64) + 0x100_0000 * (s[p
            + 3] as u64) + 0x1_0000_0000 * (s[p + 4] as u64) + 0x100_0000_0000 * (s[p + 5] as u64)
            + 0x1_0000_0000_0000 * (s[p + 6] as u64) + 0x100_0000_0000_0000 * (s[p + 7] as u64);
        Ok((v, p + 8))
    } else {
        Err(ParseError::Error)
    }
}

/// The package at `p`: where its contents start and where it ends; fails when its length
/// does not parse or the input ends before the package does.
pub open spec fn pkg_at(s: Seq<u8>, p: int) -> Result<(int, int), ParseError> {
    match pkg_length_at(s, p) {
        Ok((len, q)) => if q + len <= s.len() {
            Ok((q, q + len))
        } else {
            Err(ParseError::Error)
        },
        Err(e) => Err(e),
    }
}

/// Reads a package's length at `p` and returns where its contents start and where it ends.
pub fn pkg_bounds(s: &[u8], p: usize) -> (r: Result<(usize, usize), ParseError>)
    ensures
        match r {
            Ok((b, e)) => pkg_at(s@, p as int) == Ok::<(int, int), ParseError>((b as int, e as int)) && p < b <= e
                <= s@.len(),
            Err(x) => pkg_at(s@, p as int) == Err::<(int, int), ParseError>(x),
        },
{
    match pkg_length(s, p) {
        Ok((len, q)) => if len <= s.len() - q {
            Ok((q, q + len))
        } else {
            Err(ParseError::Error)
        },
        Err(e) => Err(e),
    }
}

/// The bytes from some position to the end of the input that holds them.
#[derive(Clone, Copy, Debug, PartialEq, Eq, Structural)]
pub struct ByteList {
    pub start: usize,
    pub end: usize,
}

/// The rest of the input at `p` as a byte list.
pub open spec fn byte_list_at(s: Seq<u8>, p: int) -> Result<(ByteList, int), ParseError> {
    if 0 <= p <= s.len() {
        Ok((ByteList { start: p as usize, end: s.len() as usize }, s.len() as int))
    } else {
        Err(ParseError::Error)
    }
}

impl ByteList {
    /// Takes the rest of the input.
    pub fn p(s: &[u8], p: usize) -> (r: Result<(ByteList, usize), ParseError>)
        requires
            p <= s@.len(),
        ensures
            parsed_any(r, byte_list_at(s@, p as int), p as int, s@.len() as int),
    {
        Ok((ByteList { start: p, end: s.len() }, s.len()))
    }
}

/// A string: the characters between its prefix and the first null byte after it.
#[derive(Clone, Copy, Debug, PartialEq, Eq, Structural)]
pub struct AmlString {
    pub start: usize,
    pub end: usize,
}

/// Byte that starts a string.
pub const STRING_PREFIX: u8 = 0x0d;

/// Position of the first null byte at or after `i`, or -1 when there is none.
pub open spec fn nul_from(s: Seq<u8>, i: int) -> int
    decreases s.len() - i,
{
    if i < 0 || i >= s.len() {
        -1
    } else if s[i] == 0 {
        i
    } else {
        nul_from(s, i + 1)
    }
}

proof fn lemma_nul_from(s: Seq<u8>, i: int)
    requires
        0 <= i,
    ensures
        nul_from(s, i) == -1 || (i <= nul_from(s, i) < s.len() && s[nul_from(s, i)] == 0),
    decreases s.len() - i,
{
    if i < s.len() && s[i] != 0 {
        lemma_nul_from(s, i + 1);
    }
}

/// A string at `p`.
pub open spec fn string_at(s: Seq<u8>, p: int) -> Result<(AmlString, int), ParseError> {
    if 0 <= p < s.len() && s[p] == STRING_PREFIX && nul_from(s, p + 1) >= 0 {
        Ok((AmlString { start: (p + 1) as usize, end: nul_from(s, p + 1) as usize }, nul_from(s, p + 1) + 1))
    } else {
        Err(ParseError::Error)
    }
}

impl AmlString {
    /// Parses a string at `p`.
    pub fn p(s: &[u8], p: usize) -> (r: Result<(AmlString, usize), ParseError>)
        requires
            p <= s@.len(),
        ensures
            parsed(r, string_at(s@, p as int), p as int, s@.len() as int),
    {
        if !(p < s.len() && s[p] == STRING_PREFIX) {
            return Err(ParseError::Error);
        }
        let mut i = p + 1;
        while i < s.len() && s[i] != 0
            invariant
                p < i <= s@.len(),
                nul_from(s@, i as int) == nul_from(s@, p + 1),
            decreases s@.len() - i,
        {
            i = i + 1;
        }
        if i == s.len() {
            return Err(ParseError::Error);
        }
        proof {
            lemma_nul_from(s@, p + 1);
        }
        Ok((AmlString { start: p + 1, end: i }, i + 1))
    }
}

/// Prefix of a byte constant.
pub const BYTE_PREFIX: u8 = 0x0a;

/// Prefix of a word constant.
pub const WORD_PREFIX: u8 = 0x0b;

/// Prefix of a double-word constant.
pub const DWORD_PREFIX: u8 = 0x0c;

/// Prefix of a quad-word constant.
pub const QWORD_PREFIX: u8 = 0x0e;

/// Opcode of the constant zero.
pub const ZERO_OP: u8 = 0x00;

/// Opcode of the constant one.
pub const ONE_OP: u8 = 0x01;

/// Opcode of the constant with every bit set.
pub const ONES_OP: u8 = 0xff;

/// Second byte of the revision opcode.
pub const REVISION_OP: u8 = 0x30;

/// Data that a computation can use.
#[derive(Debug)]
pub enum ComputationalData {
    ByteConst(u8),
    WordConst(u16),
    DWordConst(u32),
    QWordConst(u64),
    String(AmlString),
    Zero,
    One,
    Ones,
    Revision,
    DefBuffer(DefBuffer),
}

/// Computational data at `p`: a constant after its prefix, a string, one of the constant
/// objects, the revision, or a buffer.
#[verifier::opaque]
pub open spec fn computational_data_at(s: Seq<u8>, p: int) -> Result<(ComputationalData, int), ParseError>
    decreases s.len() - p, 1int,
{
    if !(0 <= p < s.len()) {
        Err(ParseError::Error)
    } else if s[p] == BYTE_PREFIX {
        match byte_data_at(s, p + 1) {
            Ok((v, q)) => Ok((ComputationalData::ByteConst(v), q)),
            Err(e) => Err(e),
        }
    } else if s[p] == WORD_PREFIX {
        match word_data_at(s, p + 1) {
            Ok((v, q)) => Ok((ComputationalData::WordConst(v), q)),
            Err(e) => Err(e),
        }
    } else if s[p] == DWORD_PREFIX {
        match dword_data_at(s, p + 1) {
            Ok((v, q)) => Ok((ComputationalData::DWordConst(v), q)),
            Err(e) => Err(e),
        }
    } else if s[p] == QWORD_PREFIX {
        match qword_data_at(s, p + 1) {
            Ok((v, q)) => Ok((ComputationalData::QWordConst(v), q)),
            Err(e) => Err(e),
        }
    } else if s[p] == STRING_PREFIX {
        match string_at(s, p) {
            Ok((v, q)) => Ok((ComputationalData::String(v), q)),
            Err(e) => Err(e),
        }
    } else if s[p] == ZERO_OP {
        Ok((ComputationalData::Zero, p + 1))
    } else if s[p] == ONE_OP {
        Ok((ComputationalData::One, p + 1))
    } else if s[p] == ONES_OP {
        Ok((ComputationalData::Ones, p + 1))
    } else if s[p] == EXT_OP_PREFIX && p + 1 < s.len() && s[p + 1] == REVISION_OP {
        Ok((ComputationalData::Revision, p + 2))
    } else {
        match def_buffer_at(s, p) {
            Ok((v, q)) => Ok((ComputationalData::DefBuffer(v), q)),
            Err(e) => Err(e),
        }
    }
}

impl ComputationalData {
    /// Parses computational data at `p`.
    pub fn p(s: &[u8], p: usize) -> (r: Result<(ComputationalData, usize), ParseError>)
        requires
            p <= s@.len(),
        ensures
            parsed(r, computational_data_at(s@, p as int), p as int, s@.len() as int),
        decreases s@.len() - p, 1int,
    {
        proof {
            reveal_with_fuel(computational_data_at, 1);
            reveal_with_fuel(def_buffer_at, 1);
        }
        if p >= s.len() {
            return Err(ParseError::Error);
        }
        let b = s[p];
        if b == BYTE_PREFIX {
            match byte_data(s, p + 1) {
                Ok((v, q)) => Ok((ComputationalData::ByteConst(v), q)),
                Err(e) => Err(e),
            }
        } else if b == WORD_PREFIX {
            match word_data(s, p + 1) {
                Ok((v, q)) => Ok((ComputationalData::WordConst(v), q)),
                Err(e) => Err(e),
            }
        } else if b == DWORD_PREFIX {
            match dword_data(s, p + 1) {
                Ok((v, q)) => Ok((ComputationalData::DWordConst(v), q)),
                Err(e) => Err(e),
            }
        } else if b == QWORD_PREFIX {
            match qword_data(s, p + 1) {
                Ok((v, q)) => Ok((ComputationalData::QWordConst(v), q)),
                Err(e) => Err(e),
            }
        } else if b == STRING_PREFIX {
            match AmlString::p(s, p) {
                Ok((v, q)) => Ok((ComputationalData::String(v), q)),
                Err(e) => Err(e),
            }
        } else if b == ZERO_OP {
            Ok((ComputationalData::Zero, p + 1))
        } else if b == ONE_OP {
            Ok((ComputationalData::One, p + 1))
        } else if b == ONES_OP {
            Ok((ComputationalData::Ones, p + 1))
        } else if b == EXT_OP_PREFIX && p + 1 < s.len() && s[p + 1] == REVISION_OP {
            Ok((ComputationalData::Revision, p + 2))
        } else {
            match DefBuffer::p(s, p) {
                Ok((v, q)) => Ok((ComputationalData::DefBuffer(v), q)),
                Err(e) => Err(e),
            }
        }
    }
}

/// A data object: computational data or a package.
#[derive(Debug)]
pub enum DataObj {
    ComputationalData(ComputationalData),
    DefPkg(DefPkg),
    DefVarPkg(DefVarPkg),
}

/// A data object at `p`.
#[verifier::opaque]
pub open spec fn data_obj_at(s: Seq<u8>, p: int) -> Result<(DataObj, int), ParseError>
    decreases s.len() - p, 2int,
{
    match computational_data_at(s, p) {
        Ok((v, q)) => Ok((DataObj::ComputationalData(v), q)),
        Err(ParseError::Failure) => Err(ParseError::Failure),
        Err(ParseError::Error) => match def_pkg_at(s, p) {
            Ok((v, q)) => Ok((DataObj::DefPkg(v), q)),
            Err(ParseError::Failure) => Err(ParseError::Failure),
            Err(ParseError::Error) => match def_var_pkg_at(s, p) {
                Ok((v, q)) => Ok((DataObj::DefVarPkg(v), q)),
                Err(e) => Err(e),
            },
        },
    }
}

impl DataObj {
    /// Parses a data object at `p`.
    pub fn p(s: &[u8], p: usize) -> (r: Result<(DataObj, usize), ParseError>)
        requires
            p <= s@.len(),
        ensures
            parsed(r, data_obj_at(s@, p as int), p as int, s@.len() as int),
        decreases s@.len() - p, 2int,
    {
        proof {
            reveal_with_fuel(data_obj_at, 1);
            reveal_with_fuel(computational_data_at, 1);
            reveal_with_fuel(def_pkg_at, 1);
            reveal_with_fuel(def_var_pkg_at, 1);
        }
        match ComputationalData::p(s, p) {
            Ok((v, q)) => return Ok((DataObj::ComputationalData(v), q)),
            Err(ParseError::Failure) => return Err(ParseError::Failure),
            Err(ParseError::Error) => {},
        }
        match DefPkg::p(s, p) {
            Ok((v, q)) => return Ok((DataObj::DefPkg(v), q)),
            Err(ParseError::Failure) => return Err(ParseError::Failure),
            Err(ParseError::Error) => {},
        }
        match DefVarPkg::p(s, p) {
            Ok((v, q)) => Ok((DataObj::DefVarPkg(v), q)),
            Err(e) => Err(e),
        }
    }
}

/// A data object that a name can stand for.
#[derive(Debug)]
pub struct DataRefObj(pub DataObj);

/// A data reference object at `p`.
#[verifier::opaque]
pub open spec fn data_ref_obj_at(s: Seq<u8>, p: int) -> Result<(DataRefObj, int), ParseError>
    decreases s.len() - p, 3int,
{
    match data_obj_at(s, p) {
        Ok((v, q)) => Ok((DataRefObj(v), q)),
        Err(e) => Err(e),
    }
}

impl DataRefObj {
    /// Parses a data reference object at `p`.
    pub fn p(s: &[u8], p: usize) -> (r: Result<(DataRefObj, usize), ParseError>)
        requires
            p <= s@.len(),
        ensures
            parsed(r, data_ref_obj_at(s@, p as int), p as int, s@.len() as int),
        decreases s@.len() - p, 3int,
    {
        proof {
            reveal_with_fuel(data_ref_obj_at, 1);
            reveal_with_fuel(data_obj_at, 1);
        }
        match DataObj::p(s, p) {
            Ok((v, q)) => Ok((DataRefObj(v), q)),
            Err(e) => Err(e),
        }
    }
}

} // verus!
