//! A rendering of a parser tree as text, for diagnosis: one leaf per line,
//! each with its chain, the lines of a sequence joined by a rail.
//!
//! Rendering reads the tree and changes nothing. The layout is fixed by
//! `spec_print` and its companions; the executable functions are proved to
//! write exactly that text.
use crate::chain::{Chain, Operation};
use crate::parser::{Parser, ParserType};
use vstd::prelude::*;
use vstd::string::StringExecFns;
use vstd::utf8::encode_utf8;

verus! {

/// One item of the margin of a line.
#[derive(Debug, Clone, Copy, PartialEq, Eq, Structural)]
pub enum Indentation {
    /// So many spaces.
    Space(usize),
    /// So many spaces, then the rail with a branch: ` |- `.
    BlockEnd(usize),
    /// So many spaces, then the rail without a branch: ` |  `.
    Block(usize),
}

/// The margin of a line: its items from left to right.
pub struct Indent {
    pub indents: Vec<Indentation>,
}

/// A text of `count` spaces.
pub open spec fn spec_spaces(count: nat) -> Seq<char> {
    Seq::new(count, |i: int| ' ')
}

/// The text of one item of a margin.
pub open spec fn spec_indentation(indentation: Indentation) -> Seq<char> {
    match indentation {
        Indentation::Space(count) => spec_spaces(count as nat),
        Indentation::BlockEnd(count) => spec_spaces(count as nat) + " |- "@,
        Indentation::Block(count) => spec_spaces(count as nat) + " |  "@,
    }
}

/// The text of a margin.
pub open spec fn spec_indent(indents: Seq<Indentation>) -> Seq<char>
    decreases indents.len(),
{
    if indents.len() == 0 {
        Seq::empty()
    } else {
        spec_indent(indents.drop_last()) + spec_indentation(indents.last())
    }
}

/// An item of a margin as it stands once `pushed` is added to its right: a
/// branch that is followed by another branch becomes a plain rail.
pub open spec fn spec_carried(kept: Indentation, pushed: Indentation) -> Indentation {
    match kept {
        Indentation::BlockEnd(spaces) => if pushed is BlockEnd {
            Indentation::Block(spaces)
        } else {
            kept
        },
        _ => kept,
    }
}

/// The margin `indents` with `indent` added to its right.
pub open spec fn spec_push_clone(indents: Seq<Indentation>, indent: Indentation) -> Seq<
    Indentation,
> {
    Seq::new(
        indents.len() + 1,
        |i: int|
            if i < indents.len() {
                spec_carried(indents[i], indent)
            } else {
                indent
            },
    )
}

/// The decimal numeral of `n`.
pub open spec fn spec_decimal(n: nat) -> Seq<char>
    decreases n,
{
    if n < 10 {
        seq![(0x30 + n) as char]
    } else {
        spec_decimal(n / 10).push((0x30 + n % 10) as char)
    }
}

/// The label of a step.
pub open spec fn spec_format_op(op: Operation) -> Seq<char> {
    match op {
        Operation::TrimR => "trimr"@,
        Operation::TrimL => "triml"@,
        Operation::EqualString(s) => "eq "@ + s@,
        Operation::NotEqualString(s) => "neq "@ + s@,
        Operation::Trim => "trim"@,
        Operation::Store(_) => "store"@,
        Operation::Empty => "empty"@,
        Operation::Or(_) => "or -|- "@,
        Operation::ToI32 => "to_i32"@,
        Operation::ToF64 => "to_f64"@,
        Operation::ToU8 => "to_u8"@,
        Operation::ToByte => "to_byte"@,
        Operation::Opt(_) => "opt <"@,
    }
}

/// The width of a text on the line: the number of its bytes.
pub open spec fn spec_width(text: Seq<char>) -> usize {
    encode_utf8(text).len() as usize
}

/// The rendering of a chain within the margin `indent`. `chain_arrow` says
/// that the chain follows a label directly, without an arrow before its
/// first step; `opt` says that the chain is the inner chain of an optional
/// step and closes with `>`.
pub open spec fn spec_print_chain(
    chain: Chain,
    indent: Seq<Indentation>,
    chain_arrow: bool,
    opt: bool,
) -> Seq<char>
    decreases chain, 0nat, 0nat,
{
    spec_print_steps(chain.olist@, 0, indent, chain_arrow, false, opt)
}

/// The rendering of the steps of `ops` from index `from` on. `ni` is the
/// margin so far, `sc` says that no arrow precedes the next step, and
/// `sub` that a step before held chains of its own, which have closed the
/// line already.
pub open spec fn spec_print_steps(
    ops: Seq<Operation>,
    from: nat,
    ni: Seq<Indentation>,
    sc: bool,
    sub: bool,
    opt: bool,
) -> Seq<char>
    decreases ops, ops.len() - from, 0nat,
{
    if from >= ops.len() {
        if sub {
            Seq::empty()
        } else if opt {
            ">\n"@
        } else {
            "\n"@
        }
    } else {
        let op = ops[from as int];
        let arrow = if sc {
            Seq::empty()
        } else {
            " -> "@
        };
        let margin = if sc {
            ni
        } else {
            spec_push_clone(ni, Indentation::Space(4))
        };
        let formated = spec_format_op(op);
        match op {
            Operation::Or(chains) => {
                let inner = spec_push_clone(margin, Indentation::BlockEnd(3));
                arrow + formated + spec_print_branches(chains@, 0, inner) + spec_print_steps(
                    ops,
                    from + 1,
                    inner,
                    false,
                    true,
                    opt,
                )
            },
            Operation::Opt(chain) => {
                arrow + formated + spec_print_chain(chain, margin, true, true) + spec_print_steps(
                    ops,
                    from + 1,
                    margin,
                    false,
                    true,
                    opt,
                )
            },
            _ => {
                arrow + formated + spec_print_steps(
                    ops,
                    from + 1,
                    spec_push_clone(margin, Indentation::Space(spec_width(formated))),
                    false,
                    sub,
                    opt,
                )
            },
        }
    }
}

/// The rendering of the chains of an alternative from index `from` on,
/// each but the first on a line of its own after the margin.
pub open spec fn spec_print_branches(chains: Seq<Chain>, from: nat, ni: Seq<Indentation>) -> Seq<
    char,
>
    decreases chains, chains.len() - from, 1nat,
{
    if from >= chains.len() {
        Seq::empty()
    } else {
        let lead = if from == 0 {
            Seq::empty()
        } else {
            spec_indent(ni)
        };
        lead + spec_print_chain(chains[from as int], ni, true, false) + spec_print_branches(
            chains,
            from + 1,
            ni,
        )
    }
}

/// The rendering of a node within the margin `indent`.
pub open spec fn spec_print_aux(parser: Parser, indent: Seq<Indentation>) -> Seq<char>
    decreases parser, 0nat,
{
    match parser.ptype {
        ParserType::Sequence(list) => "seq -|- "@ + spec_print_children(
            list@,
            0,
            spec_push_clone(indent, Indentation::BlockEnd(4)),
        ),
        ParserType::Take(count) => {
            let ftake = "take "@ + spec_decimal(count as nat);
            ftake + match parser.chain {
                Some(c) => spec_print_chain(
                    c,
                    spec_push_clone(indent, Indentation::Space(spec_width(ftake))),
                    false,
                    false,
                ),
                None => "\n"@,
            }
        },
        ParserType::Skip(count) => "skip "@ + spec_decimal(count as nat) + "\n"@,
        ParserType::PWord => "pword"@,
        ParserType::Blank => "blank"@,
    }
}

/// The rendering of the children of a sequence from index `from` on, each
/// but the first after the margin.
pub open spec fn spec_print_children(list: Seq<Parser>, from: nat, ni: Seq<Indentation>) -> Seq<
    char,
>
    decreases list, list.len() - from,
{
    if from >= list.len() {
        Seq::empty()
    } else {
        let lead = if from == 0 {
            Seq::empty()
        } else {
            spec_indent(ni)
        };
        lead + spec_print_aux(list[from as int], ni) + spec_print_children(list, from + 1, ni)
    }
}

/// The rendering of a tree.
pub open spec fn spec_print(parser: Parser) -> Seq<char> {
    spec_print_aux(parser, Seq::empty())
}

impl Indent {
    /// The empty margin.
    pub fn new() -> (indent: Indent)
        ensures
            indent.indents@ == Seq::<Indentation>::empty(),
    {
        Indent { indents: Vec::new() }
    }

    /// A copy of the margin with `indent` added to its right. Where `indent`
    /// is a branch, the branches to its left become plain rails in the copy.
    pub fn push_clone(&self, indent: Indentation) -> (ni: Indent)
        ensures
            ni.indents@ == spec_push_clone(self.indents@, indent),
    {
        let mut ni = Indent::new();
        let mut k: usize = 0;
        while k < self.indents.len()
            invariant
                k <= self.indents.len(),
                ni.indents@.len() == k,
                forall|j: int| 0 <= j < k ==> ni.indents@[j] == spec_carried(self.indents@[j], indent),
            decreases self.indents.len() - k,
        {
            let i = self.indents[k];
            match i {
                Indentation::BlockEnd(spaces) => {
                    if let Indentation::BlockEnd(_) = indent {
                        ni.indents.push(Indentation::Block(spaces));
                    } else {
                        ni.indents.push(Indentation::BlockEnd(spaces));
                    }
                },
                Indentation::Space(spaces) => ni.indents.push(Indentation::Space(spaces)),
                Indentation::Block(spaces) => ni.indents.push(Indentation::Block(spaces)),
            }
            k += 1;
        }
        ni.indents.push(indent);
        ni
    }

    /// A copy of the margin.
    pub fn duplicate(&self) -> (copy: Indent)
        ensures
            copy.indents@ == self.indents@,
    {
        let mut copy = Indent::new();
        let mut k: usize = 0;
        while k < self.indents.len()
            invariant
                k <= self.indents.len(),
                copy.indents@ == self.indents@.take(k as int),
            decreases self.indents.len() - k,
        {
            copy.indents.push(self.indents[k]);
            k += 1;
        }
        copy
    }

    /// Writes the margin at the end of `out`.
    pub fn print(&self, out: &mut String)
        ensures
            final(out)@ == old(out)@ + spec_indent(self.indents@),
    {
        let mut k: usize = 0;
        while k < self.indents.len()
            invariant
                k <= self.indents.len(),
                out@ == old(out)@ + spec_indent(self.indents@.take(k as int)),
            decreases self.indents.len() - k,
        {
            let i = self.indents[k];
            match i {
                Indentation::Space(c) => {
                    Indent::print_spaces(c, out);
                },
                Indentation::BlockEnd(c) => {
                    Indent::print_spaces(c, out);
                    out.append(" |- ");
                },
                Indentation::Block(c) => {
                    Indent::print_spaces(c, out);
                    out.append(" |  ");
                },
            }
            proof {
                let upto = self.indents@.take(k + 1);
                assert(upto.drop_last() =~= self.indents@.take(k as int));
            }
            k += 1;
        }
        proof {
            assert(self.indents@.take(k as int) =~= self.indents@);
        }
    }

    /// Writes `count` spaces at the end of `out`.
    pub fn print_spaces(count: usize, out: &mut String)
        ensures
            final(out)@ == old(out)@ + spec_spaces(count as nat),
    {
        let mut k: usize = 0;
        while k < count
            invariant
                k <= count,
                out@ == old(out)@ + spec_spaces(k as nat),
            decreases count - k,
        {
            out.append(" ");
            proof {
                reveal_strlit(" ");
            }
            k += 1;
        }
    }
}

/// The numeral of one decimal digit.
fn digit(d: usize) -> (text: &'static str)
    requires
        d < 10,
    ensures
        text@ == seq![(0x30 + d) as char],
{
    proof {
        reveal_strlit("0");
        reveal_strlit("1");
        reveal_strlit("2");
        reveal_strlit("3");
        reveal_strlit("4");
        reveal_strlit("5");
        reveal_strlit("6");
        reveal_strlit("7");
        reveal_strlit("8");
        reveal_strlit("9");
    }
    let text = if d == 0 {
        "0"
    } else if d == 1 {
        "1"
    } else if d == 2 {
        "2"
    } else if d == 3 {
        "3"
    } else if d == 4 {
        "4"
    } else if d == 5 {
        "5"
    } else if d == 6 {
        "6"
    } else if d == 7 {
        "7"
    } else if d == 8 {
        "8"
    } else {
        "9"
    };
    text
}

/// Writes the decimal numeral of `n` at the end of `out`.
pub fn print_decimal(n: usize, out: &mut String)
    ensures
        final(out)@ == old(out)@ + spec_decimal(n as nat),
    decreases n,
{
    if n < 10 {
        out.append(digit(n));
    } else {
        print_decimal(n / 10, out);
        out.append(digit(n % 10));
    }
}

/// The label of a step.
pub fn format_op(op: &Operation) -> (formated: String)
    ensures
        formated@ == spec_format_op(*op),
{
    let mut formated = String::new();
    match op {
        Operation::TrimR => formated.append("trimr"),
        Operation::TrimL => formated.append("triml"),
        Operation::EqualString(s) => {
            formated.append("eq ");
            formated.append(s.as_str());
        },
        Operation::NotEqualString(s) => {
            formated.append("neq ");
            formated.append(s.as_str());
        },
        Operation::Trim => formated.append("trim"),
        Operation::Store(_) => formated.append("store"),
        Operation::Empty => formated.append("empty"),
        Operation::Or(_) => formated.append("or -|- "),
        Operation::ToI32 => formated.append("to_i32"),
        Operation::ToF64 => formated.append("to_f64"),
        Operation::ToU8 => formated.append("to_u8"),
        Operation::ToByte => formated.append("to_byte"),
        Operation::Opt(_) => formated.append("opt <"),
    }
    formated
}

/// Writes the rendering of a chain at the end of `out`.
pub fn print_chain(chain: &Chain, indent: &Indent, chain_arrow: bool, opt: bool, out: &mut String)
    ensures
        final(out)@ == old(out)@ + spec_print_chain(*chain, indent.indents@, chain_arrow, opt),
    decreases chain,
{
    let mut sc = chain_arrow;
    let mut ni = indent.duplicate();
    let mut sub = false;
    let mut i: usize = 0;
    let ghost whole = spec_print_chain(*chain, indent.indents@, chain_arrow, opt);
    while i < chain.olist.len()
        invariant
            i <= chain.olist.len(),
            out@ + spec_print_steps(chain.olist@, i as nat, ni.indents@, sc, sub, opt) == old(out)@
                + whole,
        decreases chain.olist.len() - i,
    {
        if !sc {
            out.append(" -> ");
            ni = ni.push_clone(Indentation::Space(4));
        } else {
            sc = false;
        }
        let formated = format_op(&chain.olist[i]);
        out.append(formated.as_str());
        let spaces = formated.as_str().len();
        match &chain.olist[i] {
            Operation::Or(chains) => {
                sub = true;
                ni = ni.push_clone(Indentation::BlockEnd(3));
                print_branches(chains, &ni, out);
            },
            Operation::Opt(inner) => {
                sub = true;
                print_chain(inner, &ni, true, true, out);
            },
            _ => {
                ni = ni.push_clone(Indentation::Space(spaces));
            },
        }
        i += 1;
    }
    if !sub {
        if opt {
            out.append(">\n");
        } else {
            out.append("\n");
        }
    }
}

/// Writes the renderings of the chains of an alternative at the end of
/// `out`.
pub fn print_branches(chains: &Vec<Chain>, ni: &Indent, out: &mut String)
    ensures
        final(out)@ == old(out)@ + spec_print_branches(chains@, 0, ni.indents@),
    decreases chains,
{
    let mut i: usize = 0;
    let ghost whole = spec_print_branches(chains@, 0, ni.indents@);
    while i < chains.len()
        invariant
            i <= chains.len(),
            out@ + spec_print_branches(chains@, i as nat, ni.indents@) == old(out)@ + whole,
        decreases chains.len() - i,
    {
        if i == 0 {
            print_chain(&chains[i], ni, true, false, out);
        } else {
            ni.print(out);
            print_chain(&chains[i], ni, true, false, out);
        }
        i += 1;
    }
}

/// Writes the rendering of a node at the end of `out`.
pub fn print_aux(parser: &Parser, indent: &Indent, out: &mut String)
    ensures
        final(out)@ == old(out)@ + spec_print_aux(*parser, indent.indents@),
    decreases parser,
{
    match &parser.ptype {
        ParserType::Sequence(list) => {
            out.append("seq -|- ");
            let new_ident = indent.push_clone(Indentation::BlockEnd(4));
            let ghost whole = spec_print_children(list@, 0, new_ident.indents@);
            let ghost start = out@;
            let mut i: usize = 0;
            while i < list.len()
                invariant
                    i <= list.len(),
                    parser.ptype is Sequence,
                    parser.ptype->Sequence_0 == *list,
                    out@ + spec_print_children(list@, i as nat, new_ident.indents@) == start
                        + whole,
                decreases list.len() - i,
            {
                if i > 0 {
                    new_ident.print(out);
                }
                print_aux(&list[i], &new_ident, out);
                i += 1;
            }
        },
        ParserType::Take(count) => {
            let mut ftake = String::new();
            ftake.append("take ");
            print_decimal(*count, &mut ftake);
            out.append(ftake.as_str());
            let new_ident = indent.push_clone(Indentation::Space(ftake.as_str().len()));
            if let Some(c) = &parser.chain {
                print_chain(c, &new_ident, false, false, out);
            } else {
                out.append("\n");
            }
        },
        ParserType::Skip(count) => {
            out.append("skip ");
            print_decimal(*count, out);
            out.append("\n");
        },
        ParserType::PWord => {
            out.append("pword");
        },
        ParserType::Blank => {
            out.append("blank");
        },
    }
}

/// Renders a tree as text.
pub fn print(parser: &Parser) -> (text: String)
    ensures
        text@ == spec_print(*parser),
{
    let mut out = String::new();
    print_aux(parser, &Indent::new(), &mut out);
    out
}

} // verus!
