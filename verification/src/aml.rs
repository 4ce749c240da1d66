//! The name grammar of ACPI machine language (AML): name segments and paths, the names
//! of arguments, locals and the debug object, and package lengths.
//!
//! Each parser reads from position `p` of the input and returns what it read and the
//! position after it. A parser fails with `Error` when its first bytes do not match,
//! which lets an enclosing choice try its next alternative; once a parser has committed
//! to an alternative it fails with `Failure`, which ends the enclosing choices as well.
use vstd::prelude::*;

verus! {

/// How a parse failed.
#[derive(Clone, Copy, Debug, PartialEq, Eq, Structural)]
pub enum ParseError {
    /// The input does not start with this construct; alternatives may be tried.
    Error,
    /// The input started this construct but does not complete it; no alternative is
    /// tried.
    Failure,
}

/// Byte that starts an absolute name.
pub const ROOT_CHAR: u8 = 0x5c;

/// Byte that climbs one scope up in a name.
pub const PARENT_PREFIX_CHAR: u8 = 0x5e;

/// Byte that starts a path of two segments.
pub const DUAL_NAME_PREFIX: u8 = 0x2e;

/// The null name.
pub const NULL_NAME: u8 = 0x00;

/// First byte of the extended opcodes.
pub const EXT_OP_PREFIX: u8 = 0x5b;

/// Second byte of the debug object's opcode.
pub const DEBUG_OP: u8 = 0x31;

/// Opcode of the first argument; the seven arguments follow in order.
pub const ARG0_OP: u8 = 0x68;

/// Opcode of the first local; the eight locals follow in order.
pub const LOCAL0_OP: u8 = 0x60;

/// A character that may start a name segment: an upper-case letter or an underscore.
pub open spec fn is_lead_name_char(b: u8) -> bool {
    b == 0x5f || (0x41 <= b <= 0x5a)
}

/// A decimal digit.
pub open spec fn is_digit_char(b: u8) -> bool {
    0x30 <= b <= 0x39
}

/// A character that may continue a name segment.
pub open spec fn is_name_char(b: u8) -> bool {
    is_digit_char(b) || is_lead_name_char(b)
}

/// A four-character name segment.
#[derive(Clone, Copy, Debug)]
pub struct NameSeg(pub [u8; 4]);

/// A count of scopes to climb.
#[derive(Clone, Copy, Debug)]
pub struct PrefixPath(pub usize);

/// The null name.
#[derive(Clone, Copy, Debug)]
pub struct NullName;

/// A path of two name segments.
#[derive(Clone, Copy, Debug)]
pub struct DualNamePath(pub NameSeg, pub NameSeg);

/// A path of several name segments.
#[derive(Clone, Debug)]
pub struct MultiNamePath(pub Vec<NameSeg>);

/// A path of name segments.
#[derive(Clone, Debug)]
pub enum NamePath {
    NameSeg(NameSeg),
    DualName(DualNamePath),
    MultiName(MultiNamePath),
    NullName(NullName),
}

/// A name: absolute, climbing some scopes first, or relative to the current scope.
#[derive(Clone, Debug)]
pub enum NameString {
    Absolute(NamePath),
    PathPrefixed(usize, NamePath),
    Relative(NamePath),
}

/// One of the seven method arguments.
#[derive(Clone, Copy, Debug, PartialEq, Eq, Structural)]
pub enum ArgObj {
    Arg0,
    Arg1,
    Arg2,
    Arg3,
    Arg4,
    Arg5,
    Arg6,
}

/// One of the eight method locals.
#[derive(Clone, Copy, Debug, PartialEq, Eq, Structural)]
pub enum LocalObj {
    Local0,
    Local1,
    Local2,
    Local3,
    Local4,
    Local5,
    Local6,
    Local7,
}

/// The debug object.
#[derive(Clone, Copy, Debug)]
pub struct DebugObj;

/// A name, an argument or a local.
#[derive(Clone, Debug)]
pub enum SimpleName {
    NameString(NameString),
    ArgObj(ArgObj),
    LocalObj(LocalObj),
}

/// Something that can be stored to.
#[derive(Clone, Debug)]
pub enum SuperName {
    SimpleName(SimpleName),
    DebugObj(DebugObj),
}

/// Where a result goes.
#[derive(Clone, Debug)]
pub enum Target {
    SuperName(SuperName),
    NullName(NullName),
}

/// The segment made of the four bytes at `p`.
pub open spec fn seg_of(s: Seq<u8>, p: int) -> NameSeg {
    NameSeg([s[p], s[p + 1], s[p + 2], s[p + 3]])
}

/// A name segment at `p`: a lead character and three name characters.
pub open spec fn name_seg_at(s: Seq<u8>, p: int) -> Result<(NameSeg, int), ParseError> {
    if 0 <= p && p + 4 <= s.len() && is_lead_name_char(s[p]) && is_name_char(s[p + 1]) && is_name_char(s[p + 2])
        && is_name_char(s[p + 3]) {
        Ok((seg_of(s, p), p + 4))
    } else {
        Err(ParseError::Error)
    }
}

/// The null name at `p`.
pub open spec fn null_name_at(s: Seq<u8>, p: int) -> Result<(NullName, int), ParseError> {
    if 0 <= p < s.len() && s[p] == NULL_NAME {
        Ok((NullName, p + 1))
    } else {
        Err(ParseError::Error)
    }
}

/// A path of two segments at `p`: the dual-name prefix commits to two segments.
pub open spec fn dual_name_path_at(s: Seq<u8>, p: int) -> Result<(DualNamePath, int), ParseError> {
    if 0 <= p < s.len() && s[p] == DUAL_NAME_PREFIX {
        match name_seg_at(s, p + 1) {
            Ok((a, q)) => match name_seg_at(s, q) {
                Ok((b, r)) => Ok((DualNamePath(a, b), r)),
                Err(_) => Err(ParseError::Failure),
            },
            Err(_) => Err(ParseError::Failure),
        }
    } else {
        Err(ParseError::Error)
    }
}

/// A name path at `p`: a segment, a path of two segments, or the null name. (A path of
/// several segments starts with the same prefix as one of two, which commits, so it is
/// never reached.)
pub open spec fn name_path_at(s: Seq<u8>, p: int) -> Result<(NamePath, int), ParseError> {
    match name_seg_at(s, p) {
        Ok((seg, q)) => Ok((NamePath::NameSeg(seg), q)),
        Err(_) => match dual_name_path_at(s, p) {
            Ok((d, q)) => Ok((NamePath::DualName(d), q)),
            Err(ParseError::Failure) => Err(ParseError::Failure),
            Err(ParseError::Error) => match null_name_at(s, p) {
                Ok((n, q)) => Ok((NamePath::NullName(n), q)),
                Err(e) => Err(e),
            },
        },
    }
}

/// Number of parent-prefix characters from `p` on.
pub open spec fn carets_at(s: Seq<u8>, p: int) -> nat
    decreases s.len() - p,
{
    if 0 <= p < s.len() && s[p] == PARENT_PREFIX_CHAR {
        1 + carets_at(s, p + 1)
    } else {
        0
    }
}

/// A name string at `p`: the root character and a name path, or parent prefixes (if
/// any) and a name path; the name path is committed to.
pub open spec fn name_string_at(s: Seq<u8>, p: int) -> Result<(NameString, int), ParseError> {
    if 0 <= p < s.len() && s[p] == ROOT_CHAR {
        match name_path_at(s, p + 1) {
            Ok((path, q)) => Ok((NameString::Absolute(path), q)),
            Err(_) => Err(ParseError::Failure),
        }
    } else {
        let k = carets_at(s, p);
        match name_path_at(s, p + k) {
            Ok((path, q)) => Ok((
                if k > 0 {
                    NameString::PathPrefixed(k as usize, path)
                } else {
                    NameString::Relative(path)
                },
                q,
            )),
            Err(_) => Err(ParseError::Failure),
        }
    }
}

/// The argument named by opcode `b`, if any.
pub open spec fn arg_of(b: u8) -> Option<ArgObj> {
    if b == 0x68 {
        Some(ArgObj::Arg0)
    } else if b == 0x69 {
        Some(ArgObj::Arg1)
    } else if b == 0x6a {
        Some(ArgObj::Arg2)
    } else if b == 0x6b {
        Some(ArgObj::Arg3)
    } else if b == 0x6c {
        Some(ArgObj::Arg4)
    } else if b == 0x6d {
        Some(ArgObj::Arg5)
    } else if b == 0x6e {
        Some(ArgObj::Arg6)
    } else {
        None
    }
}

/// The local named by opcode `b`, if any.
pub open spec fn local_of(b: u8) -> Option<LocalObj> {
    if b == 0x60 {
        Some(LocalObj::Local0)
    } else if b == 0x61 {
        Some(LocalObj::Local1)
    } else if b == 0x62 {
        Some(LocalObj::Local2)
    } else if b == 0x63 {
        Some(LocalObj::Local3)
    } else if b == 0x64 {
        Some(LocalObj::Local4)
    } else if b == 0x65 {
        Some(LocalObj::Local5)
    } else if b == 0x66 {
        Some(LocalObj::Local6)
    } else if b == 0x67 {
        Some(LocalObj::Local7)
    } else {
        None
    }
}

/// An argument at `p`.
pub open spec fn arg_obj_at(s: Seq<u8>, p: int) -> Result<(ArgObj, int), ParseError> {
    if 0 <= p < s.len() && arg_of(s[p]) is Some {
        Ok((arg_of(s[p])->Some_0, p + 1))
    } else {
        Err(ParseError::Error)
    }
}

/// A local at `p`.
pub open spec fn local_obj_at(s: Seq<u8>, p: int) -> Result<(LocalObj, int), ParseError> {
    if 0 <= p < s.len() && local_of(s[p]) is Some {
        Ok((local_of(s[p])->Some_0, p + 1))
    } else {
        Err(ParseError::Error)
    }
}

/// The debug object at `p`.
pub open spec fn debug_obj_at(s: Seq<u8>, p: int) -> Result<(DebugObj, int), ParseError> {
    if 0 <= p && p + 2 <= s.len() && s[p] == EXT_OP_PREFIX && s[p + 1] == DEBUG_OP {
        Ok((DebugObj, p + 2))
    } else {
        Err(ParseError::Error)
    }
}

/// A simple name at `p`: an argument, a local, or a name string.
pub open spec fn simple_name_at(s: Seq<u8>, p: int) -> Result<(SimpleName, int), ParseError> {
    match arg_obj_at(s, p) {
        Ok((a, q)) => Ok((SimpleName::ArgObj(a), q)),
        Err(_) => match local_obj_at(s, p) {
            Ok((l, q)) => Ok((SimpleName::LocalObj(l), q)),
            Err(_) => match name_string_at(s, p) {
                Ok((n, q)) => Ok((SimpleName::NameString(n), q)),
                Err(e) => Err(e),
            },
        },
    }
}

/// A super name at `p`: a simple name or the debug object.
pub open spec fn super_name_at(s: Seq<u8>, p: int) -> Result<(SuperName, int), ParseError> {
    match simple_name_at(s, p) {
        Ok((n, q)) => Ok((SuperName::SimpleName(n), q)),
        Err(ParseError::Failure) => Err(ParseError::Failure),
        Err(ParseError::Error) => match debug_obj_at(s, p) {
            Ok((d, q)) => Ok((SuperName::DebugObj(d), q)),
            Err(e) => Err(e),
        },
    }
}

/// A target at `p`: a super name or the null name.
pub open spec fn target_at(s: Seq<u8>, p: int) -> Result<(Target, int), ParseError> {
    match super_name_at(s, p) {
        Ok((n, q)) => Ok((Target::SuperName(n), q)),
        Err(ParseError::Failure) => Err(ParseError::Failure),
        Err(ParseError::Error) => match null_name_at(s, p) {
            Ok((n, q)) => Ok((Target::NullName(n), q)),
            Err(e) => Err(e),
        },
    }
}

/// Whether `b` may start a name segment.
fn lead_name_char(b: u8) -> (r: bool)
    ensures
        r == is_lead_name_char(b),
{
    b == 0x5f || (0x41 <= b && b <= 0x5a)
}

/// Whether `b` is a decimal digit.
fn digit_char(b: u8) -> (r: bool)
    ensures
        r == is_digit_char(b),
{
    0x30 <= b && b <= 0x39
}

/// Whether `b` may continue a name segment.
fn name_char(b: u8) -> (r: bool)
    ensures
        r == is_name_char(b),
{
    digit_char(b) || lead_name_char(b)
}

impl NameSeg {
    /// Parses a name segment at `p`.
    pub fn p(s: &[u8], p: usize) -> (r: Result<(NameSeg, usize), ParseError>)
        ensures
            match r {
                Ok((v, q)) => name_seg_at(s@, p as int) == Ok::<(NameSeg, int), ParseError>((v, q as int))
                    && p < q <= s@.len(),
                Err(e) => name_seg_at(s@, p as int) == Err::<(NameSeg, int), ParseError>(e),
            },
    {
        if p <= s.len() && s.len() - p >= 4 && lead_name_char(s[p]) && name_char(s[p + 1]) && name_char(s[p + 2])
            && name_char(s[p + 3]) {
            Ok((NameSeg([s[p], s[p + 1], s[p + 2], s[p + 3]]), p + 4))
        } else {
            Err(ParseError::Error)
        }
    }
}

impl NullName {
    /// Parses the null name at `p`.
    pub fn p(s: &[u8], p: usize) -> (r: Result<(NullName, usize), ParseError>)
        ensures
            match r {
                Ok((v, q)) => null_name_at(s@, p as int) == Ok::<(NullName, int), ParseError>((v, q as int))
                    && p < q <= s@.len(),
                Err(e) => null_name_at(s@, p as int) == Err::<(NullName, int), ParseError>(e),
            },
    {
        if p < s.len() && s[p] == NULL_NAME {
            Ok((NullName, p + 1))
        } else {
            Err(ParseError::Error)
        }
    }
}

impl DualNamePath {
    /// Parses a path of two segments at `p`.
    pub fn p(s: &[u8], p: usize) -> (r: Result<(DualNamePath, usize), ParseError>)
        ensures
            match r {
                Ok((v, q)) => dual_name_path_at(s@, p as int) == Ok::<(DualNamePath, int), ParseError>((v, q as int))
                    && p < q <= s@.len(),
                Err(e) => dual_name_path_at(s@, p as int) == Err::<(DualNamePath, int), ParseError>(e),
            },
    {
        if p < s.len() && s[p] == DUAL_NAME_PREFIX {
            let (a, q) = match NameSeg::p(s, p + 1) {
                Ok(r) => r,
                Err(_) => return Err(ParseError::Failure),
            };
            let (b, r) = match NameSeg::p(s, q) {
                Ok(r) => r,
                Err(_) => return Err(ParseError::Failure),
            };
            Ok((DualNamePath(a, b), r))
        } else {
            Err(ParseError::Error)
        }
    }
}

impl MultiNamePath {
    /// Parses a path of several segments at `p`: the dual-name prefix, a count, and that
    /// many segments.
    pub fn p(s: &[u8], p: usize) -> (r: Result<(MultiNamePath, usize), ParseError>)
        ensures
            match r {
                Ok((v, q)) => {
                    &&& p + 2 <= s@.len()
                    &&& s@[p as int] == DUAL_NAME_PREFIX
                    &&& v.0@.len() == s@[p + 1]
                    &&& q == p + 2 + 4 * v.0@.len()
                    &&& forall|i: int|
                        0 <= i < v.0@.len() ==> name_seg_at(s@, p + 2 + 4 * i) == Ok::<(NameSeg, int), ParseError>(
                            (#[trigger] v.0@[i], p + 2 + 4 * i + 4),
                        )
                },
                Err(e) => e == ParseError::Error && !(p + 2 <= s@.len() && s@[p as int] == DUAL_NAME_PREFIX && forall|i: int|
                    0 <= i < s@[p + 1] ==> #[trigger] name_seg_at(s@, p + 2 + 4 * i) is Ok),
            },
    {
        if !(p < s.len() && s.len() - p >= 2 && s[p] == DUAL_NAME_PREFIX) {
            return Err(ParseError::Error);
        }
        let seg_count = s[p + 1];
        let mut segs: Vec<NameSeg> = Vec::new();
        let mut q = p + 2;
        let mut i: u8 = 0;
        while i < seg_count
            invariant
                p + 2 <= s@.len(),
                s@[p as int] == DUAL_NAME_PREFIX,
                seg_count == s@[p + 1],
                i <= seg_count,
                segs@.len() == i,
                q == p + 2 + 4 * i,
                forall|j: int|
                    0 <= j < i ==> name_seg_at(s@, p + 2 + 4 * j) == Ok::<(NameSeg, int), ParseError>(
                        (#[trigger] segs@[j], p + 2 + 4 * j + 4),
                    ),
            decreases seg_count - i,
        {
            let (seg, next) = match NameSeg::p(s, q) {
                Ok(r) => r,
                Err(_) => {
                    proof {
                        assert(!(name_seg_at(s@, p + 2 + 4 * i) is Ok));
                    }
                    return Err(ParseError::Error);
                },
            };
            segs.push(seg);
            q = next;
            i = i + 1;
        }
        proof {
            assert forall|j: int| 0 <= j < s@[p + 1] implies #[trigger] name_seg_at(s@, p + 2 + 4 * j) is Ok by {
                assert(name_seg_at(s@, p + 2 + 4 * j) == Ok::<(NameSeg, int), ParseError>((segs@[j], p + 2 + 4 * j + 4)));
            }
        }
        Ok((MultiNamePath(segs), q))
    }
}

impl NamePath {
    /// Parses a name path at `p`.
    pub fn p(s: &[u8], p: usize) -> (r: Result<(NamePath, usize), ParseError>)
        ensures
            match r {
                Ok((v, q)) => name_path_at(s@, p as int) == Ok::<(NamePath, int), ParseError>((v, q as int))
                    && p < q <= s@.len(),
                Err(e) => name_path_at(s@, p as int) == Err::<(NamePath, int), ParseError>(e),
            },
    {
        match NameSeg::p(s, p) {
            Ok((seg, q)) => return Ok((NamePath::NameSeg(seg), q)),
            Err(ParseError::Failure) => return Err(ParseError::Failure),
            Err(ParseError::Error) => {},
        }
        match DualNamePath::p(s, p) {
            Ok((d, q)) => return Ok((NamePath::DualName(d), q)),
            Err(ParseError::Failure) => return Err(ParseError::Failure),
            Err(ParseError::Error) => {},
        }
        match MultiNamePath::p(s, p) {
            Ok((m, q)) => {
                // Both start with the dual-name prefix, which the path of two took.
                proof {
                    assert(dual_name_path_at(s@, p as int) != Err::<(DualNamePath, int), ParseError>(ParseError::Error));
                }
                return Ok((NamePath::MultiName(m), q));
            },
            Err(ParseError::Failure) => return Err(ParseError::Failure),
            Err(ParseError::Error) => {},
        }
        match NullName::p(s, p) {
            Ok((n, q)) => Ok((NamePath::NullName(n), q)),
            Err(e) => Err(e),
        }
    }
}

/// Number of parent-prefix characters from `p` on, and the position after them.
fn count_carets(s: &[u8], p: usize) -> (r: usize)
    requires
        p <= s@.len(),
    ensures
        r == carets_at(s@, p as int),
        p + r <= s.len(),
{
    let mut q = p;
    while q < s.len() && s[q] == PARENT_PREFIX_CHAR
        invariant
            p <= q <= s@.len(),
            carets_at(s@, p as int) == (q - p) + carets_at(s@, q as int),
        decreases s@.len() - q,
    {
        q = q + 1;
    }
    q - p
}

impl PrefixPath {
    /// Parses the parent prefixes at `p`: `None` when there is none, which is no failure.
    pub fn p(s: &[u8], p: usize) -> (r: Result<(Option<PrefixPath>, usize), ParseError>)
        requires
            p <= s@.len(),
        ensures
            match r {
                Ok((v, q)) => q == p + carets_at(s@, p as int) && match v {
                    Some(pp) => pp.0 == carets_at(s@, p as int) && pp.0 > 0,
                    None => carets_at(s@, p as int) == 0,
                },
                Err(_) => false,
            },
    {
        let k = count_carets(s, p);
        if k > 0 {
            Ok((Some(PrefixPath(k)), p + k))
        } else {
            Ok((None, p))
        }
    }
}

impl NameString {
    /// Parses a name string at `p`.
    pub fn p(s: &[u8], p: usize) -> (r: Result<(NameString, usize), ParseError>)
        requires
            p <= s@.len(),
        ensures
            match r {
                Ok((v, q)) => name_string_at(s@, p as int) == Ok::<(NameString, int), ParseError>((v, q as int))
                    && p < q <= s@.len(),
                Err(e) => name_string_at(s@, p as int) == Err::<(NameString, int), ParseError>(e),
            },
    {
        if p < s.len() && s[p] == ROOT_CHAR {
            return match NamePath::p(s, p + 1) {
                Ok((path, q)) => Ok((NameString::Absolute(path), q)),
                Err(_) => Err(ParseError::Failure),
            };
        }
        let (prefix, q) = match PrefixPath::p(s, p) {
            Ok(r) => r,
            Err(e) => return Err(e),
        };
        match NamePath::p(s, q) {
            Ok((path, r)) => {
                let name = match prefix {
                    Some(prefix) => NameString::PathPrefixed(prefix.0, path),
                    None => NameString::Relative(path),
                };
                Ok((name, r))
            },
            Err(_) => Err(ParseError::Failure),
        }
    }
}

/// Local `n` is written with opcode `0x60 + n`, for `n` from 0 to 7: a local at `p` is that
/// one byte, and any other byte is no local.
pub proof fn lemma_locals_numbered(s: Seq<u8>, p: int)
    ensures
        local_obj_at(s, p) == if 0 <= p < s.len() && 0x60 <= s[p] < 0x68 {
            Ok::<(LocalObj, int), ParseError>(
                (
                    seq![
                        LocalObj::Local0,
                        LocalObj::Local1,
                        LocalObj::Local2,
                        LocalObj::Local3,
                        LocalObj::Local4,
                        LocalObj::Local5,
                        LocalObj::Local6,
                        LocalObj::Local7,
                    ][s[p] - 0x60],
                    p + 1,
                ),
            )
        } else {
            Err::<(LocalObj, int), ParseError>(ParseError::Error)
        },
{
}

/// Argument `n` is written with opcode `0x68 + n`, for `n` from 0 to 6: an argument at `p`
/// is that one byte, and any other byte is no argument.
pub proof fn lemma_args_numbered(s: Seq<u8>, p: int)
    ensures
        arg_obj_at(s, p) == if 0 <= p < s.len() && 0x68 <= s[p] < 0x6f {
            Ok::<(ArgObj, int), ParseError>(
                (
                    seq![
                        ArgObj::Arg0,
                        ArgObj::Arg1,
                        ArgObj::Arg2,
                        ArgObj::Arg3,
                        ArgObj::Arg4,
                        ArgObj::Arg5,
                        ArgObj::Arg6,
                    ][s[p] - 0x68],
                    p + 1,
                ),
            )
        } else {
            Err::<(ArgObj, int), ParseError>(ParseError::Error)
        },
{
}

impl ArgObj {
    /// Parses an argument at `p`.
    pub fn p(s: &[u8], p: usize) -> (r: Result<(ArgObj, usize), ParseError>)
        ensures
            match r {
                Ok((v, q)) => arg_obj_at(s@, p as int) == Ok::<(ArgObj, int), ParseError>((v, q as int))
                    && p < q <= s@.len(),
                Err(e) => arg_obj_at(s@, p as int) == Err::<(ArgObj, int), ParseError>(e),
            },
    {
        if p >= s.len() {
            return Err(ParseError::Error);
        }
        let arg = match s[p] {
            0x68 => ArgObj::Arg0,
            0x69 => ArgObj::Arg1,
            0x6a => ArgObj::Arg2,
            0x6b => ArgObj::Arg3,
            0x6c => ArgObj::Arg4,
            0x6d => ArgObj::Arg5,
            0x6e => ArgObj::Arg6,
            _ => return Err(ParseError::Error),
        };
        Ok((arg, p + 1))
    }
}

impl LocalObj {
    /// Parses a local at `p`.
    pub fn p(s: &[u8], p: usize) -> (r: Result<(LocalObj, usize), ParseError>)
        ensures
            match r {
                Ok((v, q)) => local_obj_at(s@, p as int) == Ok::<(LocalObj, int), ParseError>((v, q as int))
                    && p < q <= s@.len(),
                Err(e) => local_obj_at(s@, p as int) == Err::<(LocalObj, int), ParseError>(e),
            },
    {
        if p >= s.len() {
            return Err(ParseError::Error);
        }
        let local = match s[p] {
            0x60 => LocalObj::Local0,
            0x61 => LocalObj::Local1,
            0x62 => LocalObj::Local2,
            0x63 => LocalObj::Local3,
            0x64 => LocalObj::Local4,
            0x65 => LocalObj::Local5,
            0x66 => LocalObj::Local6,
            0x67 => LocalObj::Local7,
            _ => return Err(ParseError::Error),
        };
        Ok((local, p + 1))
    }
}

impl DebugObj {
    /// Parses the debug object at `p`.
    pub fn p(s: &[u8], p: usize) -> (r: Result<(DebugObj, usize), ParseError>)
        ensures
            match r {
                Ok((v, q)) => debug_obj_at(s@, p as int) == Ok::<(DebugObj, int), ParseError>((v, q as int))
                    && p < q <= s@.len(),
                Err(e) => debug_obj_at(s@, p as int) == Err::<(DebugObj, int), ParseError>(e),
            },
    {
        if p < s.len() && s.len() - p >= 2 && s[p] == EXT_OP_PREFIX && s[p + 1] == DEBUG_OP {
            Ok((DebugObj, p + 2))
        } else {
            Err(ParseError::Error)
        }
    }
}

impl SimpleName {
    /// Parses a simple name at `p`.
    pub fn p(s: &[u8], p: usize) -> (r: Result<(SimpleName, usize), ParseError>)
        requires
            p <= s@.len(),
        ensures
            match r {
                Ok((v, q)) => simple_name_at(s@, p as int) == Ok::<(SimpleName, int), ParseError>((v, q as int))
                    && p < q <= s@.len(),
                Err(e) => simple_name_at(s@, p as int) == Err::<(SimpleName, int), ParseError>(e),
            },
    {
        match ArgObj::p(s, p) {
            Ok((a, q)) => return Ok((SimpleName::ArgObj(a), q)),
            Err(ParseError::Failure) => return Err(ParseError::Failure),
            Err(ParseError::Error) => {},
        }
        match LocalObj::p(s, p) {
            Ok((l, q)) => return Ok((SimpleName::LocalObj(l), q)),
            Err(ParseError::Failure) => return Err(ParseError::Failure),
            Err(ParseError::Error) => {},
        }
        match NameString::p(s, p) {
            Ok((n, q)) => Ok((SimpleName::NameString(n), q)),
            Err(e) => Err(e),
        }
    }
}

impl SuperName {
    /// Parses a super name at `p`.
    pub fn p(s: &[u8], p: usize) -> (r: Result<(SuperName, usize), ParseError>)
        requires
            p <= s@.len(),
        ensures
            match r {
                Ok((v, q)) => super_name_at(s@, p as int) == Ok::<(SuperName, int), ParseError>((v, q as int))
                    && p < q <= s@.len(),
                Err(e) => super_name_at(s@, p as int) == Err::<(SuperName, int), ParseError>(e),
            },
    {
        match SimpleName::p(s, p) {
            Ok((n, q)) => return Ok((SuperName::SimpleName(n), q)),
            Err(ParseError::Failure) => return Err(ParseError::Failure),
            Err(ParseError::Error) => {},
        }
        match DebugObj::p(s, p) {
            Ok((d, q)) => Ok((SuperName::DebugObj(d), q)),
            Err(e) => Err(e),
        }
    }
}

impl Target {
    /// Parses a target at `p`.
    pub fn p(s: &[u8], p: usize) -> (r: Result<(Target, usize), ParseError>)
        requires
            p <= s@.len(),
        ensures
            match r {
                Ok((v, q)) => target_at(s@, p as int) == Ok::<(Target, int), ParseError>((v, q as int))
                    && p < q <= s@.len(),
                Err(e) => target_at(s@, p as int) == Err::<(Target, int), ParseError>(e),
            },
    {
        match SuperName::p(s, p) {
            Ok((n, q)) => return Ok((Target::SuperName(n), q)),
            Err(ParseError::Failure) => return Err(ParseError::Failure),
            Err(ParseError::Error) => {},
        }
        match NullName::p(s, p) {
            Ok((n, q)) => Ok((Target::NullName(n), q)),
            Err(e) => Err(e),
        }
    }
}

/// Little-endian value of the `n` bytes at `o`.
pub open spec fn le_bytes(s: Seq<u8>, o: int, n: nat) -> nat
    decreases n,
{
    if n == 0 {
        0
    } else {
        (s[o] + 256 * le_bytes(s, o + 1, (n - 1) as nat)) as nat
    }
}

/// The raw encoded length at `p`: the lead byte's low bits, or, with extra bytes (counted
/// by the lead byte's top two bits), its low four bits followed by the extra bytes.
pub open spec fn pkg_raw_length(s: Seq<u8>, p: int) -> int {
    let lead = s[p];
    let extra = lead / 64;
    if extra == 0 {
        lead as int
    } else {
        lead % 16 + 16 * le_bytes(s, p + 1, extra as nat)
    }
}

/// The package length at `p`: the encoded length less the bytes of the encoding; fails
/// when the input ends first, when bits 4 and 5 of a multi-byte lead are not clear, or
/// when the encoded length is smaller than its own encoding.
pub open spec fn pkg_length_at(s: Seq<u8>, p: int) -> Result<(int, int), ParseError> {
    if !(0 <= p < s.len()) {
        Err(ParseError::Error)
    } else {
        let lead = s[p];
        let extra = lead / 64;
        if extra == 0 {
            if lead == 0 {
                Err(ParseError::Error)
            } else {
                Ok((lead - 1, p + 1))
            }
        } else if p + 1 + extra > s.len() || lead % 64 >= 16 || pkg_raw_length(s, p) < 1 + extra {
            Err(ParseError::Error)
        } else {
            Ok((pkg_raw_length(s, p) - 1 - extra, p + 1 + extra))
        }
    }
}

/// Parses a package length at `p`.
pub fn pkg_length(s: &[u8], p: usize) -> (r: Result<(usize, usize), ParseError>)
    ensures
        match r {
            Ok((v, q)) => pkg_length_at(s@, p as int) == Ok::<(int, int), ParseError>((v as int, q as int))
                && p < q <= s@.len(),
            Err(e) => pkg_length_at(s@, p as int) == Err::<(int, int), ParseError>(e),
        },
{
    if p >= s.len() {
        return Err(ParseError::Error);
    }
    let lead_byte = s[p];
    let extra_bytes = (lead_byte >> 6u8) as usize;
    proof {
        assert(lead_byte >> 6u8 == lead_byte / 64) by (bit_vector);
    }
    if extra_bytes == 0 {
        if lead_byte == 0 {
            return Err(ParseError::Error);
        }
        return Ok((lead_byte as usize - 1, p + 1));
    }
    if s.len() - (p + 1) < extra_bytes {
        return Err(ParseError::Error);
    }
    proof {
        assert((lead_byte & 0b0011_0000u8 != 0) == (lead_byte % 64 >= 16)) by (bit_vector);
        assert(lead_byte & 0xfu8 == lead_byte % 16) by (bit_vector);
    }
    if lead_byte & 0b0011_0000u8 != 0 {
        return Err(ParseError::Error);
    }
    let mut pkg_length = (lead_byte & 0xfu8) as usize;
    let mut i: usize = 0;
    let mut scale: usize = 16;
    while i < extra_bytes
        invariant
            1 <= extra_bytes <= 3,
            p + 1 + extra_bytes <= s.len(),
            extra_bytes == s@[p as int] / 64,
            s@[p as int] % 64 < 16,
            i <= extra_bytes,
            scale == 16 * crate::util::pow(256, i as nat),
            pkg_length + scale * le_bytes(s@, p + 1 + i, (extra_bytes - i) as nat) == pkg_raw_length(s@, p as int),
            pkg_length < scale,
        decreases extra_bytes - i,
    {
        let b = s[p + 1 + i];
        proof {
            assert(scale <= 16 * 256 * 256) by {
                crate::util::lemma_pow_grows(256, i as nat, 2);
                reveal_with_fuel(crate::util::pow, 3);
                assert(crate::util::pow(256, 2) == 65536);
            }
            assert(le_bytes(s@, p + 1 + i, (extra_bytes - i) as nat) == b + 256 * le_bytes(
                s@,
                p + 1 + i + 1,
                (extra_bytes - i - 1) as nat,
            ));
            assert(scale * (b + 256 * le_bytes(s@, p + 1 + i + 1, (extra_bytes - i - 1) as nat)) == scale * b + (scale
                * 256) * le_bytes(s@, p + 1 + i + 1, (extra_bytes - i - 1) as nat)) by (nonlinear_arith);
            assert(pkg_length + scale * b < scale * 256) by (nonlinear_arith)
                requires
                    pkg_length < scale,
                    b < 256,
            ;
            assert(scale * 256 <= 16 * 256 * 256 * 256) by (nonlinear_arith)
                requires
                    scale <= 16 * 256 * 256,
            ;
        }
        pkg_length = pkg_length + scale * (b as usize);
        scale = scale * 256;
        i = i + 1;
    }
    proof {
        let rest = le_bytes(s@, p + 1 + i, (extra_bytes - i) as nat);
        assert(rest == 0);
        assert(scale * rest == 0) by (nonlinear_arith)
            requires
                rest == 0,
        ;
    }
    if pkg_length < 1 + extra_bytes {
        return Err(ParseError::Error);
    }
    Ok((pkg_length - 1 - extra_bytes, p + 1 + extra_bytes))
}

/// Name characters: a name segment starts with a capital letter or an underscore and goes
/// on with capital letters, underscores or decimal digits.
pub proof fn lemma_name_chars(b: u8)
    ensures
        is_lead_name_char(b) == (b == ('_' as u8) || (('A' as u8) <= b && b <= ('Z' as u8))),
        is_digit_char(b) == (('0' as u8) <= b && b <= ('9' as u8)),
        is_name_char(b) == (is_lead_name_char(b) || is_digit_char(b)),
{
}

} // verus!
