//! Byte-level parsing primitives: a window on the input, the span it covers, and
//! taking bytes from its front.
use vstd::prelude::*;

verus! {

/// A parse did not match.
#[derive(Clone, Copy, Debug)]
pub struct ParserError;

/// The bytes left to parse.
#[derive(Clone, Copy, Debug)]
pub struct Input<'input> {
    bytes: &'input [u8],
}

impl<'input> View for Input<'input> {
    type V = Seq<u8>;

    closed spec fn view(&self) -> Seq<u8> {
        self.bytes@
    }
}

impl<'input> Input<'input> {
    /// A window on all of `bytes`.
    pub fn new(bytes: &'input [u8]) -> (r: Self)
        ensures
            r@ == bytes@,
    {
        Input { bytes }
    }

    /// The bytes of the window.
    pub fn as_slice(&self) -> (r: &[u8])
        ensures
            r@ == self@,
    {
        self.bytes
    }

    /// The first `index` bytes and the rest.
    pub fn take_split(&self, index: usize) -> (r: (Self, Self))
        requires
            index <= self@.len(),
        ensures
            r.0@ == self@.subrange(0, index as int),
            r.1@ == self@.subrange(index as int, self@.len() as int),
    {
        let (left, right) = self.bytes.split_at(index);
        (Input::new(left), Input::new(right))
    }
}

/// A range of positions in the input.
#[derive(Clone, Copy, Debug)]
pub struct Span {
    pub start: usize,
    pub end: usize,
}

impl Span {
    /// The span of `len` positions from this one's start.
    pub fn with_len(&self, len: usize) -> (r: Self)
        requires
            self.start + len <= usize::MAX,
        ensures
            r.start == self.start,
            r.end == self.start + len,
    {
        Span { start: self.start, end: self.start + len }
    }
}

/// Where parsing stands: the span last taken and the input left.
#[derive(Clone, Copy, Debug)]
pub struct ParserState<'input> {
    pub span: Span,
    pub input: Input<'input>,
}

impl<'input> ParserState<'input> {
    /// The state at the start of `input`.
    pub fn new(input: &'input [u8]) -> (r: Self)
        ensures
            r.span.start == 0,
            r.span.end == 0,
            r.input@ == input@,
    {
        ParserState { span: Span { start: 0, end: 0 }, input: Input::new(input) }
    }
}

/// Takes the first `count` bytes of the input; the span becomes `count` long.
pub fn take<'input>(state: ParserState<'input>, count: usize) -> (r: Result<(ParserState<'input>, Input<'input>), ParserError>)
    requires
        count <= state.input@.len(),
        state.span.start + count <= usize::MAX,
    ensures
        match r {
            Ok((next, taken)) => {
                &&& taken@ == state.input@.subrange(0, count as int)
                &&& next.input@ == state.input@.subrange(count as int, state.input@.len() as int)
                &&& next.span.start == state.span.start
                &&& next.span.end == state.span.start + count
            },
            Err(_) => false,
        },
{
    let (taken, rest) = state.input.take_split(count);
    Ok((ParserState { input: rest, span: state.span.with_len(count) }, taken))
}

/// Takes the first byte of the input.
pub fn take_one<'input>(state: ParserState<'input>) -> (r: Result<(ParserState<'input>, u8), ParserError>)
    requires
        1 <= state.input@.len(),
        state.span.start + 1 <= usize::MAX,
    ensures
        match r {
            Ok((next, b)) => {
                &&& b == state.input@[0]
                &&& next.input@ == state.input@.subrange(1, state.input@.len() as int)
                &&& next.span.start == state.span.start
                &&& next.span.end == state.span.start + 1
            },
            Err(_) => false,
        },
{
    let (next, taken) = match take(state, 1) {
        Ok(p) => p,
        Err(e) => return Err(e),
    };
    let b = taken.as_slice()[0];
    Ok((next, b))
}

/// Takes the first byte of the input when it is `expected`.
pub fn byte<'input>(state: ParserState<'input>, expected: u8) -> (r: Result<(ParserState<'input>, u8), ParserError>)
    requires
        1 <= state.input@.len(),
        state.span.start + 1 <= usize::MAX,
    ensures
        match r {
            Ok((next, b)) => {
                &&& state.input@[0] == expected
                &&& b == expected
                &&& next.input@ == state.input@.subrange(1, state.input@.len() as int)
                &&& next.span.end == state.span.start + 1
            },
            Err(_) => state.input@[0] != expected,
        },
{
    let (next, b) = match take_one(state) {
        Ok(p) => p,
        Err(e) => return Err(e),
    };
    if b == expected {
        Ok((next, expected))
    } else {
        Err(ParserError)
    }
}

/// Takes the first byte of the input when `pred` holds of it.
pub fn satisfy<'input, P: Fn(u8) -> bool>(state: ParserState<'input>, pred: P) -> (r: Result<(ParserState<'input>, u8), ParserError>)
    requires
        1 <= state.input@.len(),
        state.span.start + 1 <= usize::MAX,
        forall|b: u8| #[trigger] pred.requires((b,)),
    ensures
        match r {
            Ok((next, b)) => {
                &&& b == state.input@[0]
                &&& pred.ensures((b,), true)
                &&& next.input@ == state.input@.subrange(1, state.input@.len() as int)
                &&& next.span.end == state.span.start + 1
            },
            Err(_) => pred.ensures((state.input@[0],), false),
        },
{
    let (next, b) = match take_one(state) {
        Ok(p) => p,
        Err(e) => return Err(e),
    };
    if pred(b) {
        Ok((next, b))
    } else {
        Err(ParserError)
    }
}

} // verus!
