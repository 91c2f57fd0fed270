//! The parser tree: nodes that each consume a prefix of the buffer and hand
//! the remainder to the next.
//!
//! A node holds no state of a parse: the slice it extracts goes straight to
//! its chain, and the destinations travel beside the buffer. A tree can
//! therefore be run any number of times.
use crate::chain::Chain;
use crate::evaluator::{
    any_stores_into, bytes_of, ended, is_reserved, lemma_steps_failures, lemma_steps_keep_kinds,
    lemma_steps_write_only_where_they_store, run_chain, same_kinds, spec_run_chain, ChainingError,
    Datum, Run,
};
use crate::slots::{Cell, Slots};
use crate::utils;
use crate::utils::{spec_pword, spec_take, spec_triml, Error, Parts};
use vstd::prelude::*;
use vstd::string::StringSliceAdditionalSpecFns;

verus! {

/// The kinds of node.
pub enum ParserType {
    /// A sequence of parsers, run in order until all pass or one fails.
    Sequence(Vec<Parser>),
    /// Takes a number of bytes.
    Take(usize),
    /// Drops a number of bytes.
    Skip(usize),
    /// Takes a word: a letter or an underscore, then letters, digits and
    /// underscores.
    PWord,
    /// Takes the leading blanks.
    Blank,
}

/// A node of the tree, with the chain that is applied to what it extracts.
pub struct Parser {
    pub ptype: ParserType,
    pub chain: Option<Chain>,
}

/// Why a node cannot be run as the kind of node it was taken for.
#[derive(Debug, Clone, Copy, PartialEq, Eq, Structural)]
pub enum InvalidParserError {
    /// Sequence has no parsers.
    SeqEmpty,
    /// Not a sequence.
    SeqNot,
    /// Sequence cannot have chain.
    SeqChain,
    /// Not a take.
    TakeNot,
    /// Not a skip.
    SkipNot,
    /// Not a blank.
    BlankNot,
    /// Not a pword.
    PWordNot,
    /// Must take more than zero bytes.
    TakeZero,
    /// Or must be last in operation chain.
    ChainOrLast,
    /// Store must be last in operation chain.
    ChainStoreLast,
    /// Unexpected error in blank parser.
    BlankError,
}

/// Why a parse failed.
#[derive(Debug, Clone, Copy, PartialEq, Eq, Structural)]
pub enum ParsingError {
    /// A node was run as a kind of node that it is not.
    InvalidParser(InvalidParserError),
    /// More bytes are required than are available.
    InsufficientData,
    /// An offset into the buffer is not a character boundary.
    InvalidIndex,
    /// A skip carries a chain.
    ChainAfterSkip,
    /// The chain of a leaf failed.
    ChainError(ChainingError),
    /// A word was asked of an empty buffer.
    EmptyBuffer,
    /// The buffer does not start with a letter or an underscore.
    InvalidPWord,
    /// Reserved for a failure that cannot arise; no node raises it.
    UnexpectedError,
}

impl Parser {
    /// A node of the given kind, without a chain.
    pub fn new(ptype: ParserType) -> (parser: Parser)
        ensures
            parser.ptype == ptype,
            parser.chain is None,
    {
        Parser { ptype, chain: None }
    }

    /// Runs the tree on `buffer`. A sequence yields `None`, a leaf the
    /// remainder of the buffer.
    pub fn parse<'d>(&self, buffer: &'d str, slots: &mut Slots) -> (r: Result<
        Option<&'d str>,
        ParsingError,
    >)
        ensures
            walk_of(r, final(slots)@) == spec_run_parser(*self, buffer.spec_bytes(), old(slots)@),
            same_kinds(old(slots)@, final(slots)@),
    {
        proof {
            lemma_parse_keeps_kinds(*self, buffer.spec_bytes(), slots@);
        }
        run_parser(self, buffer, slots)
    }

    /// Attaches the chain `c` in place of any chain that the node had.
    pub fn chain(self, c: Chain) -> (parser: Parser)
        ensures
            parser.ptype == self.ptype,
            parser.chain == Some(c),
    {
        let mut parser = self;
        parser.chain = Some(c);
        parser
    }
}

/// A node that runs `list_parsers` in order.
pub fn seq(list_parsers: Vec<Parser>) -> (parser: Parser)
    ensures
        parser.ptype == ParserType::Sequence(list_parsers),
        parser.chain is None,
{
    Parser::new(ParserType::Sequence(list_parsers))
}

/// A node that takes `count` bytes.
pub fn take(count: usize) -> (parser: Parser)
    ensures
        parser.ptype == ParserType::Take(count),
        parser.chain is None,
{
    Parser::new(ParserType::Take(count))
}

/// A node that drops `count` bytes.
pub fn skip(count: usize) -> (parser: Parser)
    ensures
        parser.ptype == ParserType::Skip(count),
        parser.chain is None,
{
    Parser::new(ParserType::Skip(count))
}

/// A node that takes a word.
pub fn pword() -> (parser: Parser)
    ensures
        parser.ptype == ParserType::PWord,
        parser.chain is None,
{
    Parser::new(ParserType::PWord)
}

/// A node that takes the leading blanks.
pub fn blank() -> (parser: Parser)
    ensures
        parser.ptype == ParserType::Blank,
        parser.chain is None,
{
    Parser::new(ParserType::Blank)
}

/// The content of what a leaf returned and left behind.
pub open spec fn rest_of(r: Result<&str, ParsingError>, cells: Seq<Cell>) -> Run<
    Seq<u8>,
    ParsingError,
> {
    Run {
        result: match r {
            Ok(rest) => Ok(rest.spec_bytes()),
            Err(e) => Err(e),
        },
        cells,
    }
}

/// The content of what a node returned and left behind.
pub open spec fn walk_of(r: Result<Option<&str>, ParsingError>, cells: Seq<Cell>) -> Run<
    Option<Seq<u8>>,
    ParsingError,
> {
    Run {
        result: match r {
            Ok(rest) => Ok(bytes_of(rest)),
            Err(e) => Err(e),
        },
        cells,
    }
}

/// What a leaf does once it has cut the buffer: its chain, if it has one,
/// runs on the left part, and a failure of the chain is the failure of the
/// leaf; otherwise the leaf yields the right part.
pub open spec fn spec_run_leaf(chain: Option<Chain>, parts: Parts, cells: Seq<Cell>) -> Run<
    Seq<u8>,
    ParsingError,
> {
    let applied = spec_run_chain(chain, Some(parts.left), cells);
    Run {
        result: match applied.result {
            Ok(_) => Ok(parts.right),
            Err(e) => Err(ParsingError::ChainError(e)),
        },
        cells: applied.cells,
    }
}

/// The failure of a leaf whose cut failed.
pub open spec fn spec_cut_error(e: Error) -> ParsingError {
    match e {
        Error::InsufficientBuffer => ParsingError::InsufficientData,
        Error::InvalidCharBoundary => ParsingError::InvalidIndex,
        Error::EmptyBuffer => ParsingError::EmptyBuffer,
        Error::InvalidPWord => ParsingError::InvalidPWord,
        _ => ParsingError::UnexpectedError,
    }
}

/// What running `parser` as a take does.
pub open spec fn spec_run_take(parser: Parser, buffer: Seq<u8>, cells: Seq<Cell>) -> Run<
    Seq<u8>,
    ParsingError,
> {
    match parser.ptype {
        ParserType::Take(count) => match spec_take(buffer, count as int) {
            Ok(parts) => spec_run_leaf(parser.chain, parts, cells),
            Err(e) => Run { result: Err(spec_cut_error(e)), cells },
        },
        _ => Run { result: Err(ParsingError::InvalidParser(InvalidParserError::TakeNot)), cells },
    }
}

/// What running `parser` as a skip does. A skip that carries a chain fails
/// before it looks at the buffer.
pub open spec fn spec_run_skip(parser: Parser, buffer: Seq<u8>, cells: Seq<Cell>) -> Run<
    Seq<u8>,
    ParsingError,
> {
    match parser.ptype {
        ParserType::Skip(count) => if parser.chain is Some {
            Run { result: Err(ParsingError::ChainAfterSkip), cells }
        } else {
            match spec_take(buffer, count as int) {
                Ok(parts) => Run { result: Ok(parts.right), cells },
                Err(e) => Run { result: Err(spec_cut_error(e)), cells },
            }
        },
        _ => Run { result: Err(ParsingError::InvalidParser(InvalidParserError::SkipNot)), cells },
    }
}

/// What running `parser` as a word does.
pub open spec fn spec_run_pword(parser: Parser, buffer: Seq<u8>, cells: Seq<Cell>) -> Run<
    Seq<u8>,
    ParsingError,
> {
    match parser.ptype {
        ParserType::PWord => match spec_pword(buffer) {
            Ok(parts) => spec_run_leaf(parser.chain, parts, cells),
            Err(e) => Run { result: Err(spec_cut_error(e)), cells },
        },
        _ => Run { result: Err(ParsingError::InvalidParser(InvalidParserError::PWordNot)), cells },
    }
}

/// What running `parser` as a blank does.
pub open spec fn spec_run_blank(parser: Parser, buffer: Seq<u8>, cells: Seq<Cell>) -> Run<
    Seq<u8>,
    ParsingError,
> {
    match parser.ptype {
        ParserType::Blank => spec_run_leaf(parser.chain, spec_triml(buffer), cells),
        _ => Run { result: Err(ParsingError::InvalidParser(InvalidParserError::BlankNot)), cells },
    }
}

/// What a leaf yields, as the result of a node.
pub open spec fn spec_as_walk(run: Run<Seq<u8>, ParsingError>) -> Run<
    Option<Seq<u8>>,
    ParsingError,
> {
    Run {
        result: match run.result {
            Ok(rest) => Ok(Some(rest)),
            Err(e) => Err(e),
        },
        cells: run.cells,
    }
}

/// What running a node does.
pub open spec fn spec_run_parser(parser: Parser, buffer: Seq<u8>, cells: Seq<Cell>) -> Run<
    Option<Seq<u8>>,
    ParsingError,
>
    decreases parser, 0nat,
{
    match parser.ptype {
        ParserType::Sequence(list) => {
            let run = spec_run_list(list@, 0, buffer, cells);
            Run {
                result: match run.result {
                    Ok(_) => Ok(None),
                    Err(e) => Err(e),
                },
                cells: run.cells,
            }
        },
        ParserType::Take(_) => spec_as_walk(spec_run_take(parser, buffer, cells)),
        ParserType::Skip(_) => spec_as_walk(spec_run_skip(parser, buffer, cells)),
        ParserType::PWord => spec_as_walk(spec_run_pword(parser, buffer, cells)),
        ParserType::Blank => spec_as_walk(spec_run_blank(parser, buffer, cells)),
    }
}

/// What the nodes of `list` from index `from` on do to `data`: each runs on
/// the remainder that the one before it left, a sequence among them leaving
/// the data as it found it. The first failure ends the run, and what the
/// earlier nodes stored stays.
pub open spec fn spec_run_list(list: Seq<Parser>, from: nat, data: Seq<u8>, cells: Seq<Cell>) -> Run<
    (),
    ParsingError,
>
    decreases list, list.len() - from,
{
    if from >= list.len() {
        Run { result: Ok(()), cells }
    } else {
        let step = spec_run_parser(list[from as int], data, cells);
        match step.result {
            Err(e) => Run { result: Err(e), cells: step.cells },
            Ok(Some(rest)) => spec_run_list(list, from + 1, rest, step.cells),
            Ok(None) => spec_run_list(list, from + 1, data, step.cells),
        }
    }
}

/// What running `parser` as a sequence does.
pub open spec fn spec_run_seq(parser: Parser, buffer: Seq<u8>, cells: Seq<Cell>) -> Run<
    (),
    ParsingError,
> {
    match parser.ptype {
        ParserType::Sequence(list) => spec_run_list(list@, 0, buffer, cells),
        _ => Run { result: Err(ParsingError::InvalidParser(InvalidParserError::SeqNot)), cells },
    }
}

/// Runs a node of any kind.
pub fn run_parser<'d>(parser: &Parser, buffer: &'d str, slots: &mut Slots) -> (r: Result<
    Option<&'d str>,
    ParsingError,
>)
    ensures
        walk_of(r, final(slots)@) == spec_run_parser(*parser, buffer.spec_bytes(), old(slots)@),
    decreases parser, 1nat,
{
    match parser.ptype {
        ParserType::Sequence(_) => {
            let result = run_seq(parser, buffer, slots);
            match result {
                Ok(()) => return Ok(None),
                Err(pe) => return Err(pe),
            }
        },
        ParserType::Take(_) => {
            let result = run_take(parser, buffer, slots);
            match result {
                Ok(rest) => return Ok(Some(rest)),
                Err(pe) => return Err(pe),
            }
        },
        ParserType::Skip(_) => {
            let result = run_skip(parser, buffer, slots);
            match result {
                Ok(rest) => return Ok(Some(rest)),
                Err(pe) => return Err(pe),
            }
        },
        ParserType::PWord => {
            let result = run_pword(parser, buffer, slots);
            match result {
                Ok(rest) => return Ok(Some(rest)),
                Err(pe) => return Err(pe),
            }
        },
        ParserType::Blank => {
            let result = run_blank(parser, buffer, slots);
            match result {
                Ok(rest) => return Ok(Some(rest)),
                Err(pe) => return Err(pe),
            }
        },
    }
}

/// Runs the children of a sequence in order, threading the remainder of each
/// into the next.
pub fn run_seq<'d>(seq_parser: &Parser, buffer: &'d str, slots: &mut Slots) -> (r: Result<
    (),
    ParsingError,
>)
    ensures
        ended(r, final(slots)@) == spec_run_seq(*seq_parser, buffer.spec_bytes(), old(slots)@),
    decreases seq_parser, 0nat,
{
    match &seq_parser.ptype {
        ParserType::Sequence(list) => {
            let mut data = buffer;
            let mut i: usize = 0;
            while i < list.len()
                invariant
                    i <= list.len(),
                    seq_parser.ptype == ParserType::Sequence(*list),
                    spec_run_list(list@, i as nat, data.spec_bytes(), slots@) == spec_run_list(
                        list@,
                        0,
                        buffer.spec_bytes(),
                        old(slots)@,
                    ),
                decreases list.len() - i,
            {
                let result = run_parser(&list[i], data, slots);
                match result {
                    Err(e) => return Err(e),
                    Ok(Some(rest)) => data = rest,
                    Ok(None) => (),
                }
                i += 1;
            }
        },
        _ => return Err(ParsingError::InvalidParser(InvalidParserError::SeqNot)),
    }
    Ok(())
}

/// The failure of a leaf whose cut failed with `e`.
fn cut_error(e: Error) -> (pe: ParsingError)
    ensures
        pe == spec_cut_error(e),
{
    match e {
        Error::InsufficientBuffer => ParsingError::InsufficientData,
        Error::InvalidCharBoundary => ParsingError::InvalidIndex,
        Error::EmptyBuffer => ParsingError::EmptyBuffer,
        Error::InvalidPWord => ParsingError::InvalidPWord,
        _ => ParsingError::UnexpectedError,
    }
}

/// Takes the leading blanks of `buffer` and applies the chain to them.
pub fn run_blank<'d>(parser: &Parser, buffer: &'d str, slots: &mut Slots) -> (r: Result<
    &'d str,
    ParsingError,
>)
    ensures
        rest_of(r, final(slots)@) == spec_run_blank(*parser, buffer.spec_bytes(), old(slots)@),
{
    if let ParserType::Blank = parser.ptype {
        let ut = utils::blank(buffer);
        match ut {
            Ok(utils::Split { left, right }) => {
                let chain_result = run_chain(&parser.chain, Some(left), slots);
                match chain_result {
                    Err(ce) => return Err(ParsingError::ChainError(ce)),
                    Ok(_) => return Ok(right),
                }
            },
            _ => return Err(ParsingError::InvalidParser(InvalidParserError::BlankError)),
        }
    }
    Err(ParsingError::InvalidParser(InvalidParserError::BlankNot))
}

/// Takes the word that opens `buffer` and applies the chain to it.
pub fn run_pword<'d>(parser: &Parser, buffer: &'d str, slots: &mut Slots) -> (r: Result<
    &'d str,
    ParsingError,
>)
    ensures
        rest_of(r, final(slots)@) == spec_run_pword(*parser, buffer.spec_bytes(), old(slots)@),
{
    if let ParserType::PWord = parser.ptype {
        let ut = utils::pword(buffer);
        match ut {
            Ok(utils::Split { left, right }) => {
                let chain_result = run_chain(&parser.chain, Some(left), slots);
                match chain_result {
                    Err(ce) => return Err(ParsingError::ChainError(ce)),
                    Ok(_) => return Ok(right),
                }
            },
            Err(e) => return Err(cut_error(e)),
        }
    }
    Err(ParsingError::InvalidParser(InvalidParserError::PWordNot))
}

/// Drops the first bytes of `buffer`. A skip that carries a chain is a
/// malformed parser and fails whatever the buffer holds.
pub fn run_skip<'d>(parser: &Parser, buffer: &'d str, slots: &mut Slots) -> (r: Result<
    &'d str,
    ParsingError,
>)
    ensures
        rest_of(r, final(slots)@) == spec_run_skip(*parser, buffer.spec_bytes(), old(slots)@),
{
    if let ParserType::Skip(c) = parser.ptype {
        if parser.chain.is_some() {
            return Err(ParsingError::ChainAfterSkip);
        }
        let ut = utils::skip(buffer, c);
        match ut {
            Ok(utils::Split { left: _, right }) => return Ok(right),
            Err(e) => return Err(cut_error(e)),
        }
    }
    Err(ParsingError::InvalidParser(InvalidParserError::SkipNot))
}

/// Takes the first bytes of `buffer` and applies the chain to them.
pub fn run_take<'d>(parser: &Parser, buffer: &'d str, slots: &mut Slots) -> (r: Result<
    &'d str,
    ParsingError,
>)
    ensures
        rest_of(r, final(slots)@) == spec_run_take(*parser, buffer.spec_bytes(), old(slots)@),
{
    if let ParserType::Take(c) = parser.ptype {
        let ut = utils::take(buffer, c);
        match ut {
            Ok(utils::Split { left, right }) => {
                let chain_result = run_chain(&parser.chain, Some(left), slots);
                match chain_result {
                    Err(ce) => return Err(ParsingError::ChainError(ce)),
                    Ok(_) => return Ok(right),
                }
            },
            Err(e) => return Err(cut_error(e)),
        }
    }
    Err(ParsingError::InvalidParser(InvalidParserError::TakeNot))
}

/// A skip that carries a chain fails whatever the buffer holds, and changes
/// no destination.
pub proof fn lemma_skip_with_chain_fails(parser: Parser, buffer: Seq<u8>, cells: Seq<Cell>)
    requires
        parser.ptype is Skip,
        parser.chain is Some,
    ensures
        spec_run_parser(parser, buffer, cells) == ended(
            Err::<Option<Seq<u8>>, ParsingError>(ParsingError::ChainAfterSkip),
            cells,
        ),
{
}

/// A chain attached to the node, or to a node below it, holds a store into
/// the destination `index`. (The chain of a sequence or of a skip is never
/// run and does not count.)
pub open spec fn parser_stores_into(parser: Parser, index: int) -> bool
    decreases parser, 0nat,
{
    match parser.ptype {
        ParserType::Sequence(list) => any_parser_stores_into(list@, 0, index),
        ParserType::Skip(_) => false,
        _ => parser.chain matches Some(chain) && any_stores_into(chain.olist@, 0, index),
    }
}

/// One of the nodes of `list` from index `from` on stores into the
/// destination `index`.
pub open spec fn any_parser_stores_into(list: Seq<Parser>, from: nat, index: int) -> bool
    decreases list, list.len() - from,
{
    from < list.len() && (parser_stores_into(list[from as int], index) || any_parser_stores_into(
        list,
        from + 1,
        index,
    ))
}

/// A leaf changes no destination that its chain holds no store into.
proof fn lemma_leaf_writes_only_where_it_stores(
    chain: Option<Chain>,
    parts: Parts,
    cells: Seq<Cell>,
    index: int,
)
    requires
        0 <= index < cells.len(),
        !(chain matches Some(c) && any_stores_into(c.olist@, 0, index)),
    ensures
        spec_run_leaf(chain, parts, cells).cells.len() == cells.len(),
        spec_run_leaf(chain, parts, cells).cells[index] == cells[index],
{
    if let Some(c) = chain {
        lemma_steps_write_only_where_they_store(c.olist@, 0, Datum::Str(parts.left), cells, index);
    }
}

/// A parse changes no destination that no chain of the tree holds a store
/// into, and neither adds nor removes a destination.
pub proof fn lemma_parse_writes_only_where_it_stores(
    parser: Parser,
    buffer: Seq<u8>,
    cells: Seq<Cell>,
    index: int,
)
    requires
        0 <= index < cells.len(),
        !parser_stores_into(parser, index),
    ensures
        spec_run_parser(parser, buffer, cells).cells.len() == cells.len(),
        spec_run_parser(parser, buffer, cells).cells[index] == cells[index],
    decreases parser, 0nat,
{
    match parser.ptype {
        ParserType::Sequence(list) => {
            lemma_list_writes_only_where_it_stores(list@, 0, buffer, cells, index);
        },
        ParserType::Take(count) => {
            if let Ok(parts) = spec_take(buffer, count as int) {
                lemma_leaf_writes_only_where_it_stores(parser.chain, parts, cells, index);
            }
        },
        ParserType::Skip(_) => {},
        ParserType::PWord => {
            if let Ok(parts) = spec_pword(buffer) {
                lemma_leaf_writes_only_where_it_stores(parser.chain, parts, cells, index);
            }
        },
        ParserType::Blank => {
            lemma_leaf_writes_only_where_it_stores(parser.chain, spec_triml(buffer), cells, index);
        },
    }
}

/// A run of nodes changes no destination that none of them stores into, and
/// neither adds nor removes a destination.
pub proof fn lemma_list_writes_only_where_it_stores(
    list: Seq<Parser>,
    from: nat,
    data: Seq<u8>,
    cells: Seq<Cell>,
    index: int,
)
    requires
        0 <= index < cells.len(),
        !any_parser_stores_into(list, from, index),
    ensures
        spec_run_list(list, from, data, cells).cells.len() == cells.len(),
        spec_run_list(list, from, data, cells).cells[index] == cells[index],
    decreases list, list.len() - from,
{
    if from < list.len() {
        lemma_parse_writes_only_where_it_stores(list[from as int], data, cells, index);
        let step = spec_run_parser(list[from as int], data, cells);
        match step.result {
            Err(_) => {},
            Ok(Some(rest)) => {
                lemma_list_writes_only_where_it_stores(list, from + 1, rest, step.cells, index);
            },
            Ok(None) => {
                lemma_list_writes_only_where_it_stores(list, from + 1, data, step.cells, index);
            },
        }
    }
}

/// A parse neither adds nor removes a destination, and leaves each
/// destination its kind.
pub proof fn lemma_parse_keeps_kinds(parser: Parser, buffer: Seq<u8>, cells: Seq<Cell>)
    ensures
        same_kinds(cells, spec_run_parser(parser, buffer, cells).cells),
    decreases parser, 0nat,
{
    match parser.ptype {
        ParserType::Sequence(list) => {
            lemma_list_keeps_kinds(list@, 0, buffer, cells);
        },
        ParserType::Take(count) => {
            if let Ok(parts) = spec_take(buffer, count as int) {
                lemma_leaf_keeps_kinds(parser.chain, parts, cells);
            }
        },
        ParserType::Skip(_) => {},
        ParserType::PWord => {
            if let Ok(parts) = spec_pword(buffer) {
                lemma_leaf_keeps_kinds(parser.chain, parts, cells);
            }
        },
        ParserType::Blank => {
            lemma_leaf_keeps_kinds(parser.chain, spec_triml(buffer), cells);
        },
    }
}

/// A leaf leaves each destination its kind.
proof fn lemma_leaf_keeps_kinds(chain: Option<Chain>, parts: Parts, cells: Seq<Cell>)
    ensures
        same_kinds(cells, spec_run_leaf(chain, parts, cells).cells),
{
    if let Some(c) = chain {
        lemma_steps_keep_kinds(c.olist@, 0, Datum::Str(parts.left), cells);
    }
}

/// A run of nodes neither adds nor removes a destination, and leaves each
/// destination its kind.
pub proof fn lemma_list_keeps_kinds(list: Seq<Parser>, from: nat, data: Seq<u8>, cells: Seq<Cell>)
    ensures
        same_kinds(cells, spec_run_list(list, from, data, cells).cells),
    decreases list, list.len() - from,
{
    if from < list.len() {
        lemma_parse_keeps_kinds(list[from as int], data, cells);
        let step = spec_run_parser(list[from as int], data, cells);
        match step.result {
            Err(_) => {},
            Ok(Some(rest)) => {
                lemma_list_keeps_kinds(list, from + 1, rest, step.cells);
            },
            Ok(None) => {
                lemma_list_keeps_kinds(list, from + 1, data, step.cells);
            },
        }
    }
}

/// The failure is one that a parse can end with: a node that is run by its
/// own kind is never taken for another, and the reserved failures are never
/// raised.
pub open spec fn can_end_parse(e: ParsingError) -> bool {
    match e {
        ParsingError::InvalidParser(_) => false,
        ParsingError::UnexpectedError => false,
        ParsingError::ChainError(ce) => !is_reserved(ce) && !(ce is NoParsedData),
        _ => true,
    }
}

/// A parse fails only with a failure that can end a parse.
pub proof fn lemma_parse_failures(parser: Parser, buffer: Seq<u8>, cells: Seq<Cell>)
    ensures
        spec_run_parser(parser, buffer, cells).result matches Err(e) ==> can_end_parse(e),
    decreases parser, 0nat,
{
    match parser.ptype {
        ParserType::Sequence(list) => {
            lemma_list_failures(list@, 0, buffer, cells);
        },
        ParserType::Take(count) => {
            if let Ok(parts) = spec_take(buffer, count as int) {
                lemma_leaf_failures(parser.chain, parts, cells);
            }
        },
        ParserType::Skip(_) => {},
        ParserType::PWord => {
            if let Ok(parts) = spec_pword(buffer) {
                lemma_leaf_failures(parser.chain, parts, cells);
            }
        },
        ParserType::Blank => {
            lemma_leaf_failures(parser.chain, spec_triml(buffer), cells);
        },
    }
}

/// A leaf that has cut the buffer fails only as its chain does.
proof fn lemma_leaf_failures(chain: Option<Chain>, parts: Parts, cells: Seq<Cell>)
    ensures
        spec_run_leaf(chain, parts, cells).result matches Err(e) ==> can_end_parse(e),
{
    if let Some(c) = chain {
        lemma_steps_failures(c.olist@, 0, Datum::Str(parts.left), cells);
    }
}

/// A run of nodes fails only with a failure that can end a parse.
pub proof fn lemma_list_failures(list: Seq<Parser>, from: nat, data: Seq<u8>, cells: Seq<Cell>)
    ensures
        spec_run_list(list, from, data, cells).result matches Err(e) ==> can_end_parse(e),
    decreases list, list.len() - from,
{
    if from < list.len() {
        lemma_parse_failures(list[from as int], data, cells);
        let step = spec_run_parser(list[from as int], data, cells);
        match step.result {
            Err(_) => {},
            Ok(Some(rest)) => {
                lemma_list_failures(list, from + 1, rest, step.cells);
            },
            Ok(None) => {
                lemma_list_failures(list, from + 1, data, step.cells);
            },
        }
    }
}

} // verus!
