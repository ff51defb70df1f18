//! Floating-point work, done by the caller.
//!
//! Nothing in this library computes in binary floating point. A function
//! that needs the result of such an operation looks it up in a [`Known`],
//! the operations whose results its caller has supplied. Where the result
//! is there the function goes on with it; where it is not, the function
//! stops and names the operation as a [`Request`]. The caller performs the
//! operation, records the result, and runs the function again.

use crate::autonum::AutoNum;
use crate::binary64::Binary64;
use vstd::prelude::*;

verus! {

/// An operation on floating-point numbers. The operations of one operand
/// take it on the left, and the integer 0 on the right.
#[derive(Clone, Copy, Debug, PartialEq, Eq, Structural)]
pub enum FloatOp {
    /// The operand itself, as a floating-point number.
    Cast,
    Add,
    Sub,
    Mul,
    Div,
    /// The left operand to the power of the right one.
    Pow,
    Sqrt,
    Cbrt,
    Sin,
    Cos,
    Tan,
    /// The exponential function.
    Exp,
    /// The natural logarithm.
    Ln,
    /// The logarithm to base 10.
    Log10,
}

/// One application of an operation. An integer operand stands for the
/// floating-point number nearest to it.
#[derive(Clone, Copy, Debug, PartialEq, Eq, Structural)]
pub struct FloatCall {
    pub op: FloatOp,
    pub lhs: AutoNum,
    pub rhs: AutoNum,
}

/// How a floating-point number is written.
#[derive(Clone, Copy, Debug, PartialEq, Eq, Structural)]
pub enum FormatStyle {
    /// Decimal notation with a fixed number of digits after the point.
    Fixed,
    /// A mantissa with a fixed number of digits after the point, `e`, and
    /// the decimal exponent.
    Exponent,
    /// As `Exponent`, with a sign before the mantissa, be it `+` or `-`.
    SignedExponent,
    /// Decimal notation with as few digits as tell the number from its
    /// neighbours; the number of digits of the call is not used.
    Shortest,
    /// As `Shortest`, with `e` and the decimal exponent.
    ShortestExponent,
}

/// The request to write `value` in a style, with `digits` digits after the
/// decimal point.
#[derive(Clone, Copy, Debug, PartialEq, Eq, Structural)]
pub struct FormatCall {
    pub style: FormatStyle,
    pub digits: usize,
    pub value: Binary64,
}

/// What a function needs from its caller before it can go on.
#[derive(Clone, Copy, Debug, PartialEq, Eq, Structural)]
pub enum Request {
    /// The result of an operation.
    Arith(FloatCall),
    /// The value of the decimal literal that the characters of the input
    /// from position `start` up to `end` spell.
    Literal { start: usize, end: usize },
    /// A number written out.
    Format(FormatCall),
}

/// Why a function returned no result: it failed, or it awaits the answer to
/// a request.
#[derive(Debug, PartialEq, Eq)]
pub enum Halt<E> {
    Failed(E),
    Awaits(Request),
}

/// The result of one operation.
#[derive(Debug)]
pub struct ArithEntry {
    pub call: FloatCall,
    pub result: Binary64,
}

/// The value of one literal of the input.
#[derive(Debug)]
pub struct LiteralEntry {
    pub start: usize,
    pub end: usize,
    pub value: Binary64,
}

/// One number written out.
#[derive(Debug)]
pub struct FormatEntry {
    pub call: FormatCall,
    pub text: String,
}

/// The results that the caller has supplied. Of two results recorded for
/// one request the earlier one counts.
#[derive(Debug)]
pub struct Known {
    arith: Vec<ArithEntry>,
    literals: Vec<LiteralEntry>,
    formats: Vec<FormatEntry>,
}

/// The first result for `call` among `entries`.
pub open spec fn find_arith(entries: Seq<ArithEntry>, call: FloatCall) -> Option<Binary64>
    decreases entries.len(),
{
    if entries.len() == 0 {
        None
    } else if entries[0].call == call {
        Some(entries[0].result)
    } else {
        find_arith(entries.drop_first(), call)
    }
}

/// The first value for the literal from `start` to `end` among `entries`.
pub open spec fn find_literal(entries: Seq<LiteralEntry>, start: int, end: int) -> Option<
    Binary64,
>
    decreases entries.len(),
{
    if entries.len() == 0 {
        None
    } else if entries[0].start == start && entries[0].end == end {
        Some(entries[0].value)
    } else {
        find_literal(entries.drop_first(), start, end)
    }
}

/// The first text for `call` among `entries`.
pub open spec fn find_format(entries: Seq<FormatEntry>, call: FormatCall) -> Option<Seq<char>>
    decreases entries.len(),
{
    if entries.len() == 0 {
        None
    } else if entries[0].call == call {
        Some(entries[0].text@)
    } else {
        find_format(entries.drop_first(), call)
    }
}

proof fn lemma_find_arith_push(entries: Seq<ArithEntry>, entry: ArithEntry, call: FloatCall)
    ensures
        find_arith(entries.push(entry), call) == (if find_arith(entries, call) is None
            && entry.call == call {
            Some(entry.result)
        } else {
            find_arith(entries, call)
        }),
    decreases entries.len(),
{
    if entries.len() == 0 {
        assert(entries.push(entry).drop_first() =~= entries);
    } else {
        assert(entries.push(entry).drop_first() =~= entries.drop_first().push(entry));
        lemma_find_arith_push(entries.drop_first(), entry, call);
    }
}

proof fn lemma_find_literal_push(
    entries: Seq<LiteralEntry>,
    entry: LiteralEntry,
    start: int,
    end: int,
)
    ensures
        find_literal(entries.push(entry), start, end) == (if find_literal(entries, start, end)
            is None && entry.start == start && entry.end == end {
            Some(entry.value)
        } else {
            find_literal(entries, start, end)
        }),
    decreases entries.len(),
{
    if entries.len() == 0 {
        assert(entries.push(entry).drop_first() =~= entries);
    } else {
        assert(entries.push(entry).drop_first() =~= entries.drop_first().push(entry));
        lemma_find_literal_push(entries.drop_first(), entry, start, end);
    }
}

proof fn lemma_find_format_push(entries: Seq<FormatEntry>, entry: FormatEntry, call: FormatCall)
    ensures
        find_format(entries.push(entry), call) == (if find_format(entries, call) is None
            && entry.call == call {
            Some(entry.text@)
        } else {
            find_format(entries, call)
        }),
    decreases entries.len(),
{
    if entries.len() == 0 {
        assert(entries.push(entry).drop_first() =~= entries);
    } else {
        assert(entries.push(entry).drop_first() =~= entries.drop_first().push(entry));
        lemma_find_format_push(entries.drop_first(), entry, call);
    }
}

impl Known {
    /// The result known for `call`.
    pub closed spec fn arith(self, call: FloatCall) -> Option<Binary64> {
        find_arith(self.arith@, call)
    }

    /// The value known for the literal from `start` to `end`.
    pub closed spec fn literal(self, start: int, end: int) -> Option<Binary64> {
        find_literal(self.literals@, start, end)
    }

    /// The text known for `call`.
    pub closed spec fn format(self, call: FormatCall) -> Option<Seq<char>> {
        find_format(self.formats@, call)
    }

    /// `later` knows every result that is known here, and knows it as the
    /// same.
    pub open spec fn within(self, later: Known) -> bool {
        &&& forall|call: FloatCall| #[trigger]
            self.arith(call) is Some ==> later.arith(call) == self.arith(call)
        &&& forall|start: int, end: int| #[trigger]
            self.literal(start, end) is Some ==> later.literal(start, end) == self.literal(
                start,
                end,
            )
        &&& forall|call: FormatCall| #[trigger]
            self.format(call) is Some ==> later.format(call) == self.format(call)
    }

    /// No result is known for `request`.
    pub open spec fn lacks(self, request: Request) -> bool {
        match request {
            Request::Arith(call) => self.arith(call) is None,
            Request::Literal { start, end } => self.literal(start as int, end as int) is None,
            Request::Format(call) => self.format(call) is None,
        }
    }

    /// Nothing is known.
    pub open spec fn blank(self) -> bool {
        &&& forall|call: FloatCall| self.arith(call) is None
        &&& forall|start: int, end: int| self.literal(start, end) is None
        &&& forall|call: FormatCall| self.format(call) is None
    }

    /// The result of `op` on `lhs` and `rhs` as a number, or the request
    /// for it.
    pub open spec fn float(self, op: FloatOp, lhs: AutoNum, rhs: AutoNum) -> Result<
        AutoNum,
        Request,
    > {
        let call = FloatCall { op, lhs, rhs };
        match self.arith(call) {
            Some(x) => Ok(AutoNum::Float(x)),
            None => Err(Request::Arith(call)),
        }
    }

    /// The result of `op` on `lhs` and `rhs`, or the request for it.
    pub open spec fn result(self, op: FloatOp, lhs: AutoNum, rhs: AutoNum) -> Result<
        Binary64,
        Request,
    > {
        let call = FloatCall { op, lhs, rhs };
        match self.arith(call) {
            Some(x) => Ok(x),
            None => Err(Request::Arith(call)),
        }
    }

    /// The value of the literal from `start` to `end`, or the request for
    /// it.
    pub open spec fn literal_value(self, start: usize, end: usize) -> Result<Binary64, Request> {
        match self.literal(start as int, end as int) {
            Some(x) => Ok(x),
            None => Err(Request::Literal { start, end }),
        }
    }

    /// The text for `call`, or the request for it.
    pub open spec fn written(self, call: FormatCall) -> Result<Seq<char>, Request> {
        match self.format(call) {
            Some(s) => Ok(s),
            None => Err(Request::Format(call)),
        }
    }

    /// With nothing known.
    pub fn new() -> (r: Known)
        ensures
            r.blank(),
    {
        Known { arith: Vec::new(), literals: Vec::new(), formats: Vec::new() }
    }

    /// Records the result of an operation, unless one is known already.
    pub fn record_arith(&mut self, call: FloatCall, result: Binary64)
        ensures
            forall|c: FloatCall|
                #[trigger] final(self).arith(c) == (if old(self).arith(c) is None && c == call {
                    Some(result)
                } else {
                    old(self).arith(c)
                }),
            forall|start: int, end: int|
                #[trigger] final(self).literal(start, end) == old(self).literal(start, end),
            forall|c: FormatCall| #[trigger] final(self).format(c) == old(self).format(c),
            old(self).within(*final(self)),
    {
        let entry = ArithEntry { call, result };
        proof {
            assert forall|c: FloatCall|
                find_arith(self.arith@.push(entry), c) == (if find_arith(self.arith@, c) is None
                    && c == call {
                    Some(result)
                } else {
                    find_arith(self.arith@, c)
                }) by {
                lemma_find_arith_push(self.arith@, entry, c);
            }
        }
        self.arith.push(entry);
    }

    /// Records the value of a literal, unless one is known already.
    pub fn record_literal(&mut self, start: usize, end: usize, value: Binary64)
        ensures
            forall|s: int, e: int|
                #[trigger] final(self).literal(s, e) == (if old(self).literal(s, e) is None && s
                    == start && e == end {
                    Some(value)
                } else {
                    old(self).literal(s, e)
                }),
            forall|c: FloatCall| #[trigger] final(self).arith(c) == old(self).arith(c),
            forall|c: FormatCall| #[trigger] final(self).format(c) == old(self).format(c),
            old(self).within(*final(self)),
    {
        let entry = LiteralEntry { start, end, value };
        proof {
            assert forall|s: int, e: int|
                find_literal(self.literals@.push(entry), s, e) == (if find_literal(
                    self.literals@,
                    s,
                    e,
                ) is None && s == start && e == end {
                    Some(value)
                } else {
                    find_literal(self.literals@, s, e)
                }) by {
                lemma_find_literal_push(self.literals@, entry, s, e);
            }
        }
        self.literals.push(entry);
    }

    /// Records a number written out, unless a text is known already.
    pub fn record_format(&mut self, call: FormatCall, text: String)
        ensures
            forall|c: FormatCall|
                #[trigger] final(self).format(c) == (if old(self).format(c) is None && c == call {
                    Some(text@)
                } else {
                    old(self).format(c)
                }),
            forall|c: FloatCall| #[trigger] final(self).arith(c) == old(self).arith(c),
            forall|start: int, end: int|
                #[trigger] final(self).literal(start, end) == old(self).literal(start, end),
            old(self).within(*final(self)),
    {
        let entry = FormatEntry { call, text };
        proof {
            assert forall|c: FormatCall|
                find_format(self.formats@.push(entry), c) == (if find_format(self.formats@, c)
                    is None && c == call {
                    Some(entry.text@)
                } else {
                    find_format(self.formats@, c)
                }) by {
                lemma_find_format_push(self.formats@, entry, c);
            }
        }
        self.formats.push(entry);
    }

    /// The result known for `call`.
    pub fn lookup_arith(&self, call: &FloatCall) -> (r: Option<Binary64>)
        ensures
            r == self.arith(*call),
    {
        let mut i: usize = 0;
        assert(self.arith@.subrange(0, self.arith.len() as int) =~= self.arith@);
        while i < self.arith.len()
            invariant
                i <= self.arith.len(),
                find_arith(self.arith@, *call) == find_arith(
                    self.arith@.subrange(i as int, self.arith.len() as int),
                    *call,
                ),
            decreases self.arith.len() - i,
        {
            let ghost rest = self.arith@.subrange(i as int, self.arith.len() as int);
            assert(rest[0] == self.arith@[i as int]);
            assert(rest.drop_first() =~= self.arith@.subrange(i + 1, self.arith.len() as int));
            if self.arith[i].call == *call {
                return Some(self.arith[i].result);
            }
            i += 1;
        }
        assert(self.arith@.subrange(i as int, self.arith.len() as int).len() == 0);
        None
    }

    /// The value known for the literal from `start` to `end`.
    pub fn lookup_literal(&self, start: usize, end: usize) -> (r: Option<Binary64>)
        ensures
            r == self.literal(start as int, end as int),
    {
        let mut i: usize = 0;
        assert(self.literals@.subrange(0, self.literals.len() as int) =~= self.literals@);
        while i < self.literals.len()
            invariant
                i <= self.literals.len(),
                find_literal(self.literals@, start as int, end as int) == find_literal(
                    self.literals@.subrange(i as int, self.literals.len() as int),
                    start as int,
                    end as int,
                ),
            decreases self.literals.len() - i,
        {
            let ghost rest = self.literals@.subrange(i as int, self.literals.len() as int);
            assert(rest[0] == self.literals@[i as int]);
            assert(rest.drop_first() =~= self.literals@.subrange(
                i + 1,
                self.literals.len() as int,
            ));
            if self.literals[i].start == start && self.literals[i].end == end {
                return Some(self.literals[i].value);
            }
            i += 1;
        }
        assert(self.literals@.subrange(i as int, self.literals.len() as int).len() == 0);
        None
    }

    /// The text known for `call`.
    pub fn lookup_format(&self, call: &FormatCall) -> (r: Option<String>)
        ensures
            match r {
                Some(s) => self.format(*call) == Some(s@),
                None => self.format(*call) is None,
            },
    {
        let mut i: usize = 0;
        assert(self.formats@.subrange(0, self.formats.len() as int) =~= self.formats@);
        while i < self.formats.len()
            invariant
                i <= self.formats.len(),
                find_format(self.formats@, *call) == find_format(
                    self.formats@.subrange(i as int, self.formats.len() as int),
                    *call,
                ),
            decreases self.formats.len() - i,
        {
            let ghost rest = self.formats@.subrange(i as int, self.formats.len() as int);
            assert(rest[0] == self.formats@[i as int]);
            assert(rest.drop_first() =~= self.formats@.subrange(
                i + 1,
                self.formats.len() as int,
            ));
            if self.formats[i].call == *call {
                return Some(self.formats[i].text.clone());
            }
            i += 1;
        }
        assert(self.formats@.subrange(i as int, self.formats.len() as int).len() == 0);
        None
    }

    /// The result of `op` on `lhs` and `rhs` as a number, or the request
    /// for it.
    pub fn apply(&self, op: FloatOp, lhs: AutoNum, rhs: AutoNum) -> (r: Result<AutoNum, Request>)
        ensures
            r == self.float(op, lhs, rhs),
    {
        let call = FloatCall { op, lhs, rhs };
        match self.lookup_arith(&call) {
            Some(x) => Ok(AutoNum::Float(x)),
            None => Err(Request::Arith(call)),
        }
    }

    /// The result of `op` on `lhs` and `rhs`, or the request for it.
    pub fn compute(&self, op: FloatOp, lhs: AutoNum, rhs: AutoNum) -> (r: Result<
        Binary64,
        Request,
    >)
        ensures
            r == self.result(op, lhs, rhs),
    {
        let call = FloatCall { op, lhs, rhs };
        match self.lookup_arith(&call) {
            Some(x) => Ok(x),
            None => Err(Request::Arith(call)),
        }
    }

    /// The value of the literal from `start` to `end`, or the request for
    /// it.
    pub fn literal_at(&self, start: usize, end: usize) -> (r: Result<Binary64, Request>)
        ensures
            r == self.literal_value(start, end),
    {
        match self.lookup_literal(start, end) {
            Some(x) => Ok(x),
            None => Err(Request::Literal { start, end }),
        }
    }

    /// The text for `call`, or the request for it.
    pub fn write(&self, call: FormatCall) -> (r: Result<String, Request>)
        ensures
            match r {
                Ok(s) => self.written(call) == Ok::<Seq<char>, Request>(s@),
                Err(q) => self.written(call) == Err::<Seq<char>, Request>(q),
            },
    {
        match self.lookup_format(&call) {
            Some(s) => Ok(s),
            None => Err(Request::Format(call)),
        }
    }
}

} // verus!
