//! Chains: ordered lists of operations, each applied to what the one before
//! it produced.
use crate::slots::Handle;
use vstd::prelude::*;

verus! {

/// One step of a chain.
pub enum Operation {
    /// Strips the blanks at both ends of a text.
    Trim,
    /// Strips the leading blanks of a text.
    TrimL,
    /// Strips the trailing blanks of a text.
    TrimR,
    /// Passes a text on if it is the given one.
    EqualString(String),
    /// Passes a text on if it is not the given one.
    NotEqualString(String),
    /// Passes a text on if it is empty.
    Empty,
    /// Reads a text as a 32-bit integer.
    ToI32,
    /// Reads a text as the numeral of a real number.
    ToF64,
    /// Reads a text as an 8-bit unsigned integer.
    ToU8,
    /// Turns a text of one byte into that byte.
    ToByte,
    /// Tries each chain in turn on the value and keeps the first that
    /// succeeds.
    Or(Vec<Chain>),
    /// Writes the value into a destination and passes it on.
    Store(Handle),
    /// Runs a chain as far as it goes and succeeds either way.
    Opt(Chain),
}

/// An ordered list of operations; the order of insertion is the order of
/// execution.
pub struct Chain {
    pub olist: Vec<Operation>,
}

/// `longer` is `shorter` with one operation appended.
pub open spec fn appended(shorter: Chain, longer: Chain) -> bool {
    &&& longer.olist@.len() == shorter.olist@.len() + 1
    &&& longer.olist@.drop_last() =~= shorter.olist@
}

impl Chain {
    /// The chain of no operation.
    pub fn new() -> (chain: Chain)
        ensures
            chain.olist@ == Seq::<Operation>::empty(),
    {
        Chain { olist: Vec::new() }
    }

    /// Appends a step: strip the blanks at both ends.
    pub fn trim(self) -> (chain: Chain)
        ensures
            chain.olist@ == self.olist@.push(Operation::Trim),
    {
        let mut chain = self;
        chain.olist.push(Operation::Trim);
        chain
    }

    /// Appends a step: strip the leading blanks.
    pub fn triml(self) -> (chain: Chain)
        ensures
            chain.olist@ == self.olist@.push(Operation::TrimL),
    {
        let mut chain = self;
        chain.olist.push(Operation::TrimL);
        chain
    }

    /// Appends a step: strip the trailing blanks.
    pub fn trimr(self) -> (chain: Chain)
        ensures
            chain.olist@ == self.olist@.push(Operation::TrimR),
    {
        let mut chain = self;
        chain.olist.push(Operation::TrimR);
        chain
    }

    /// Appends a step: pass the text on if it is `s`.
    pub fn eqs(self, s: String) -> (chain: Chain)
        ensures
            chain.olist@ == self.olist@.push(Operation::EqualString(s)),
    {
        let mut chain = self;
        chain.olist.push(Operation::EqualString(s));
        chain
    }

    /// Appends a step: pass the text on if it is `s`.
    pub fn eq_str(self, s: &str) -> (chain: Chain)
        ensures
            appended(self, chain),
            chain.olist@.last() matches Operation::EqualString(e) && e@ == s@,
    {
        let mut chain = self;
        chain.olist.push(Operation::EqualString(s.to_owned()));
        chain
    }

    /// Appends a step: pass the text on if it is not `s`.
    pub fn neqs(self, s: String) -> (chain: Chain)
        ensures
            chain.olist@ == self.olist@.push(Operation::NotEqualString(s)),
    {
        let mut chain = self;
        chain.olist.push(Operation::NotEqualString(s));
        chain
    }

    /// Appends a step: pass the text on if it is not `s`.
    pub fn neq_str(self, s: &str) -> (chain: Chain)
        ensures
            appended(self, chain),
            chain.olist@.last() matches Operation::NotEqualString(e) && e@ == s@,
    {
        let mut chain = self;
        chain.olist.push(Operation::NotEqualString(s.to_owned()));
        chain
    }

    /// Appends a step: test that the text is empty.
    pub fn empty(self) -> (chain: Chain)
        ensures
            chain.olist@ == self.olist@.push(Operation::Empty),
    {
        let mut chain = self;
        chain.olist.push(Operation::Empty);
        chain
    }

    /// Appends a step: try each of `ops` in turn and keep the first that succeeds.
    pub fn or(self, ops: Vec<Chain>) -> (chain: Chain)
        ensures
            chain.olist@ == self.olist@.push(Operation::Or(ops)),
    {
        let mut chain = self;
        chain.olist.push(Operation::Or(ops));
        chain
    }

    /// Appends a step: turn a text of one byte into that byte.
    pub fn to_byte(self) -> (chain: Chain)
        ensures
            chain.olist@ == self.olist@.push(Operation::ToByte),
    {
        let mut chain = self;
        chain.olist.push(Operation::ToByte);
        chain
    }

    /// Appends a step: read the text as an 8-bit unsigned integer.
    pub fn to_u8(self) -> (chain: Chain)
        ensures
            chain.olist@ == self.olist@.push(Operation::ToU8),
    {
        let mut chain = self;
        chain.olist.push(Operation::ToU8);
        chain
    }

    /// Appends a step: read the text as a 32-bit integer.
    pub fn to_i32(self) -> (chain: Chain)
        ensures
            chain.olist@ == self.olist@.push(Operation::ToI32),
    {
        let mut chain = self;
        chain.olist.push(Operation::ToI32);
        chain
    }

    /// Appends a step: read the text as the numeral of a real number.
    pub fn to_f64(self) -> (chain: Chain)
        ensures
            chain.olist@ == self.olist@.push(Operation::ToF64),
    {
        let mut chain = self;
        chain.olist.push(Operation::ToF64);
        chain
    }

    /// Appends a step: write the value into the destination `field`.
    pub fn store(self, field: Handle) -> (chain: Chain)
        ensures
            chain.olist@ == self.olist@.push(Operation::Store(field)),
    {
        let mut chain = self;
        chain.olist.push(Operation::Store(field));
        chain
    }

    /// Appends a step: run `inner` as far as it goes and succeed either way.
    pub fn opt(self, inner: Chain) -> (chain: Chain)
        ensures
            chain.olist@ == self.olist@.push(Operation::Opt(inner)),
    {
        let mut chain = self;
        chain.olist.push(Operation::Opt(inner));
        chain
    }
}

/// The chain of one step: turn a text of one byte into that byte.
pub fn to_byte() -> (chain: Chain)
    ensures
        chain.olist@ == seq![Operation::ToByte],
{
    let mut c = Chain::new();
    c.olist.push(Operation::ToByte);
    c
}

/// The chain of one step: read the text as an 8-bit unsigned integer.
pub fn to_u8() -> (chain: Chain)
    ensures
        chain.olist@ == seq![Operation::ToU8],
{
    let mut c = Chain::new();
    c.olist.push(Operation::ToU8);
    c
}

/// The chain of one step: read the text as a 32-bit integer.
pub fn to_i32() -> (chain: Chain)
    ensures
        chain.olist@ == seq![Operation::ToI32],
{
    let mut c = Chain::new();
    c.olist.push(Operation::ToI32);
    c
}

/// The chain of one step: read the text as the numeral of a real number.
pub fn to_f64() -> (chain: Chain)
    ensures
        chain.olist@ == seq![Operation::ToF64],
{
    let mut c = Chain::new();
    c.olist.push(Operation::ToF64);
    c
}

/// The chain of one step: test that the text is empty.
pub fn empty() -> (chain: Chain)
    ensures
        chain.olist@ == seq![Operation::Empty],
{
    let mut c = Chain::new();
    c.olist.push(Operation::Empty);
    c
}

/// The chain of one step: strip the blanks at both ends.
pub fn trim() -> (chain: Chain)
    ensures
        chain.olist@ == seq![Operation::Trim],
{
    let mut c = Chain::new();
    c.olist.push(Operation::Trim);
    c
}

/// The chain of one step: strip the leading blanks.
pub fn triml() -> (chain: Chain)
    ensures
        chain.olist@ == seq![Operation::TrimL],
{
    let mut c = Chain::new();
    c.olist.push(Operation::TrimL);
    c
}

/// The chain of one step: strip the trailing blanks.
pub fn trimr() -> (chain: Chain)
    ensures
        chain.olist@ == seq![Operation::TrimR],
{
    let mut c = Chain::new();
    c.olist.push(Operation::TrimR);
    c
}

/// The chain of one step: pass the text on if it is `s`.
pub fn eqs(s: String) -> (chain: Chain)
    ensures
        chain.olist@ == seq![Operation::EqualString(s)],
{
    let mut c = Chain::new();
    c.olist.push(Operation::EqualString(s));
    c
}

/// The chain of one step: pass the text on if it is `s`.
pub fn eq_str(s: &str) -> (chain: Chain)
    ensures
        chain.olist@.len() == 1,
        chain.olist@[0] matches Operation::EqualString(e) && e@ == s@,
{
    let mut c = Chain::new();
    c.olist.push(Operation::EqualString(s.to_owned()));
    c
}

/// The chain of one step: pass the text on if it is not `s`.
pub fn neqs(s: String) -> (chain: Chain)
    ensures
        chain.olist@ == seq![Operation::NotEqualString(s)],
{
    let mut c = Chain::new();
    c.olist.push(Operation::NotEqualString(s));
    c
}

/// The chain of one step: pass the text on if it is not `s`.
pub fn neq_str(s: &str) -> (chain: Chain)
    ensures
        chain.olist@.len() == 1,
        chain.olist@[0] matches Operation::NotEqualString(e) && e@ == s@,
{
    let mut c = Chain::new();
    c.olist.push(Operation::NotEqualString(s.to_owned()));
    c
}

/// The chain of one step: try each of `ops` in turn and keep the first that succeeds.
pub fn or(ops: Vec<Chain>) -> (chain: Chain)
    ensures
        chain.olist@ == seq![Operation::Or(ops)],
{
    let mut c = Chain::new();
    c.olist.push(Operation::Or(ops));
    c
}

/// The chain of one step: run `inner` as far as it goes and succeed either way.
pub fn opt(inner: Chain) -> (chain: Chain)
    ensures
        chain.olist@ == seq![Operation::Opt(inner)],
{
    let mut c = Chain::new();
    c.olist.push(Operation::Opt(inner));
    c
}

/// The chain of one step: write the value into the destination `field`.
pub fn store(field: Handle) -> (chain: Chain)
    ensures
        chain.olist@ == seq![Operation::Store(field)],
{
    let mut c = Chain::new();
    c.olist.push(Operation::Store(field));
    c
}

} // verus!
