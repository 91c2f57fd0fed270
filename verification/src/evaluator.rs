//! The chain evaluator: folds the operations of a chain over one extracted
//! slice, carrying a tagged value from step to step and writing into the
//! destinations that `store` steps name.
//!
//! `spec_run_operation` and its companions say what each step yields and how
//! it leaves the destinations; the executable functions are proved to
//! compute exactly that.
use crate::chain::{Chain, Operation};
use crate::number::{
    is_real, is_real_literal, parse_i32, parse_u8, spec_parse_i32, spec_parse_u8,
};
use crate::slots::{Cell, Handle, Slots};
use crate::utils::{same_text, spec_trim, spec_triml, spec_trimr, trim, triml, trimr, Split};
use vstd::prelude::*;
use vstd::string::StringSliceAdditionalSpecFns;
use vstd::utf8::encode_utf8;

verus! {

/// The kinds of value that pass between the steps of a chain.
#[derive(Debug, Clone, Copy, PartialEq, Eq, Structural)]
pub enum ParsingDataTypes {
    Str,
    I32,
    F64,
    U8,
    Byte,
}

/// Why a chain stopped.
#[derive(Debug, Clone, Copy, PartialEq, Eq, Structural)]
pub enum ChainingError {
    /// A chain was applied before any slice was extracted.
    NoParsedData,
    /// Reserved for a step that got no value from the one before it; no
    /// step raises it.
    PreviousOpFailed,
    /// An equality, inequality or emptiness test failed.
    EqFailed,
    /// A step got a value of a kind it does not take: first the kind of the
    /// value that arrived, then the kind that the step is declared for.
    ExpectedFound(ParsingDataTypes, ParsingDataTypes),
    /// Reserved for a type error that cannot arise; no step raises it.
    InvalidTypeError,
    /// The text is not a 32-bit integer.
    InvalidI32,
    /// The text is not an 8-bit unsigned integer.
    InvalidU8,
    /// The text is not the numeral of a real number.
    InvalidF64,
    /// A store followed an optional step, whose marker cannot be stored.
    StoreAfterOpt,
    /// A step got the placeholder value or, other than a store, the marker
    /// of an optional step.
    NotImplemented,
    /// A byte was asked of a text that is not one byte long.
    BiggerThenByte,
    /// Reserved for a failure while trimming; no step raises it.
    TrimError,
    /// None of the chains of an alternative succeeded.
    NoAlternative,
    /// A store names a destination that the slots do not hold.
    NoDestination,
}

/// The value that one step hands to the next.
#[derive(Debug, Clone, Copy, PartialEq, Eq)]
pub enum LastChainData<'a> {
    /// A slice of the buffer.
    Str(&'a str),
    I32(i32),
    /// A real number, held as the numeral that denotes it.
    F64(&'a str),
    U8(u8),
    Byte(u8),
    /// The marker that an optional step leaves.
    Opt,
    /// A placeholder for the result of a step that does nothing.
    NotImplemented,
}

/// The mathematical content of a [`LastChainData`]: texts as bytes.
pub enum Datum {
    Str(Seq<u8>),
    I32(i32),
    F64(Seq<u8>),
    U8(u8),
    Byte(u8),
    Opt,
    NotImplemented,
}

impl<'a> View for LastChainData<'a> {
    type V = Datum;

    open spec fn view(&self) -> Datum {
        match self {
            LastChainData::Str(text) => Datum::Str(text.spec_bytes()),
            LastChainData::I32(value) => Datum::I32(*value),
            LastChainData::F64(numeral) => Datum::F64(numeral.spec_bytes()),
            LastChainData::U8(value) => Datum::U8(*value),
            LastChainData::Byte(value) => Datum::Byte(*value),
            LastChainData::Opt => Datum::Opt,
            LastChainData::NotImplemented => Datum::NotImplemented,
        }
    }
}

/// How a run ends: with a result, and with the destinations as it left them.
pub struct Run<T, E> {
    pub result: Result<T, E>,
    pub cells: Seq<Cell>,
}

/// The content of what an executable step returned and left behind.
pub open spec fn run_of(r: Result<LastChainData, ChainingError>, cells: Seq<Cell>) -> Run<
    Datum,
    ChainingError,
> {
    Run {
        result: match r {
            Ok(data) => Ok(data@),
            Err(e) => Err(e),
        },
        cells,
    }
}

/// A run that ended with `result` and left the destinations as `cells`.
pub open spec fn ended<T, E>(result: Result<T, E>, cells: Seq<Cell>) -> Run<T, E> {
    Run { result, cells }
}

/// The bytes of a text that may be missing.
pub open spec fn bytes_of(text: Option<&str>) -> Option<Seq<u8>> {
    match text {
        Some(text) => Some(text.spec_bytes()),
        None => None,
    }
}

/// The error of a step that is declared for `declared` and got `found`.
pub open spec fn spec_type_error(declared: ParsingDataTypes, found: Datum) -> ChainingError {
    match found {
        Datum::Str(_) => ChainingError::ExpectedFound(ParsingDataTypes::Str, declared),
        Datum::I32(_) => ChainingError::ExpectedFound(ParsingDataTypes::I32, declared),
        Datum::F64(_) => ChainingError::ExpectedFound(ParsingDataTypes::F64, declared),
        Datum::U8(_) => ChainingError::ExpectedFound(ParsingDataTypes::U8, declared),
        Datum::Byte(_) => ChainingError::ExpectedFound(ParsingDataTypes::Byte, declared),
        Datum::NotImplemented => ChainingError::NotImplemented,
        Datum::Opt => ChainingError::NotImplemented,
    }
}

/// The kind that a step on texts is declared for: the kind it yields. A byte
/// is declared as the 8-bit number that holds it.
pub open spec fn declared_kind(op: Operation) -> ParsingDataTypes {
    match op {
        Operation::ToI32 => ParsingDataTypes::I32,
        Operation::ToF64 => ParsingDataTypes::F64,
        Operation::ToU8 => ParsingDataTypes::U8,
        Operation::ToByte => ParsingDataTypes::U8,
        _ => ParsingDataTypes::Str,
    }
}

/// What a step on texts makes of the text `text`. (A step of another sort
/// passes the text on.)
pub open spec fn spec_on_text(op: Operation, text: Seq<u8>) -> Result<Datum, ChainingError> {
    match op {
        Operation::Trim => Ok(Datum::Str(spec_trim(text))),
        Operation::TrimL => Ok(Datum::Str(spec_triml(text).right)),
        Operation::TrimR => Ok(Datum::Str(spec_trimr(text).left)),
        Operation::EqualString(expected) => if encode_utf8(expected@) == text {
            Ok(Datum::Str(text))
        } else {
            Err(ChainingError::EqFailed)
        },
        Operation::NotEqualString(refused) => if encode_utf8(refused@) != text {
            Ok(Datum::Str(text))
        } else {
            Err(ChainingError::EqFailed)
        },
        Operation::Empty => if text.len() == 0 {
            Ok(Datum::Str(text))
        } else {
            Err(ChainingError::EqFailed)
        },
        Operation::ToI32 => match spec_parse_i32(text) {
            Some(value) => Ok(Datum::I32(value)),
            None => Err(ChainingError::InvalidI32),
        },
        Operation::ToF64 => if is_real_literal(text) {
            Ok(Datum::F64(text))
        } else {
            Err(ChainingError::InvalidF64)
        },
        Operation::ToU8 => match spec_parse_u8(text) {
            Some(value) => Ok(Datum::U8(value)),
            None => Err(ChainingError::InvalidU8),
        },
        Operation::ToByte => if text.len() == 1 {
            Ok(Datum::Byte(text[0]))
        } else {
            Err(ChainingError::BiggerThenByte)
        },
        _ => Ok(Datum::Str(text)),
    }
}

/// What a step on texts makes of any value: a text is worked on, anything
/// else is a type error.
pub open spec fn spec_convert(op: Operation, data: Datum) -> Result<Datum, ChainingError> {
    match data {
        Datum::Str(text) => spec_on_text(op, text),
        _ => Err(spec_type_error(declared_kind(op), data)),
    }
}

/// What a destination holds once `data` is stored in it, if it takes that
/// kind of value: a text destination takes a text, an integer destination a
/// 32-bit integer, a real-number destination a numeral, and an 8-bit
/// destination an 8-bit number or a byte.
pub open spec fn stored(cell: Cell, data: Datum) -> Option<Cell> {
    match (data, cell) {
        (Datum::Str(text), Cell::Str(_)) => Some(Cell::Str(text)),
        (Datum::I32(value), Cell::I32(_)) => Some(Cell::I32(value)),
        (Datum::F64(numeral), Cell::F64(_)) => Some(Cell::F64(numeral)),
        (Datum::U8(value), Cell::U8(_)) => Some(Cell::U8(value)),
        (Datum::Byte(value), Cell::U8(_)) => Some(Cell::U8(value)),
        _ => None,
    }
}

/// The kind of a value that can be stored.
pub open spec fn kind_of(data: Datum) -> ParsingDataTypes {
    match data {
        Datum::I32(_) => ParsingDataTypes::I32,
        Datum::F64(_) => ParsingDataTypes::F64,
        Datum::U8(_) => ParsingDataTypes::U8,
        Datum::Byte(_) => ParsingDataTypes::Byte,
        _ => ParsingDataTypes::Str,
    }
}

/// What a store into `handle` does. The marker of an optional step and the
/// placeholder are refused whatever the destination. Otherwise the
/// destination must exist and take the kind of `data`; then it holds `data`,
/// every other destination is as before, and `data` is passed on. On any
/// failure no destination changes.
pub open spec fn spec_store(handle: Handle, data: Datum, cells: Seq<Cell>) -> Run<
    Datum,
    ChainingError,
> {
    match data {
        Datum::Opt => Run { result: Err(ChainingError::StoreAfterOpt), cells },
        Datum::NotImplemented => Run { result: Err(ChainingError::NotImplemented), cells },
        _ => if handle.index >= cells.len() {
            Run { result: Err(ChainingError::NoDestination), cells }
        } else {
            match stored(cells[handle.index as int], data) {
                Some(cell) => Run { result: Ok(data), cells: cells.update(handle.index as int, cell) },
                None => Run { result: Err(spec_type_error(kind_of(data), data)), cells },
            }
        },
    }
}

/// What one step does to a value and to the destinations.
pub open spec fn spec_run_operation(op: Operation, data: Datum, cells: Seq<Cell>) -> Run<
    Datum,
    ChainingError,
>
    decreases op, 0nat,
{
    match op {
        Operation::Store(handle) => spec_store(handle, data, cells),
        Operation::Opt(inner) => Run {
            result: Ok(Datum::Opt),
            cells: spec_run_operations(inner.olist@, 0, data, cells).cells,
        },
        Operation::Or(chains) => spec_run_alternatives(chains@, 0, data, cells),
        _ => Run { result: spec_convert(op, data), cells },
    }
}

/// What the steps of `ops` from index `from` on do, each on what the one
/// before it yielded. The first failure ends the run: the later steps do
/// nothing, and what the earlier ones stored stays.
pub open spec fn spec_run_operations(
    ops: Seq<Operation>,
    from: nat,
    data: Datum,
    cells: Seq<Cell>,
) -> Run<Datum, ChainingError>
    decreases ops, ops.len() - from,
{
    if from >= ops.len() {
        Run { result: Ok(data), cells }
    } else {
        let step = spec_run_operation(ops[from as int], data, cells);
        match step.result {
            Ok(next) => spec_run_operations(ops, from + 1, next, step.cells),
            Err(_) => step,
        }
    }
}

/// What an alternative of the chains of `chains` from index `from` on does:
/// the run of the first chain that succeeds on `data`. A chain that fails
/// leaves no trace; if all fail, the destinations are as before.
pub open spec fn spec_run_alternatives(
    chains: Seq<Chain>,
    from: nat,
    data: Datum,
    cells: Seq<Cell>,
) -> Run<Datum, ChainingError>
    decreases chains, chains.len() - from,
{
    if from >= chains.len() {
        Run { result: Err(ChainingError::NoAlternative), cells }
    } else {
        let trial = spec_run_operations(chains[from as int].olist@, 0, data, cells);
        if trial.result is Ok {
            trial
        } else {
            spec_run_alternatives(chains, from + 1, data, cells)
        }
    }
}

/// What applying the chain of a leaf to its extracted slice does. Without a
/// chain nothing happens; with a chain but no slice the run fails.
pub open spec fn spec_run_chain(
    chain: Option<Chain>,
    parsed: Option<Seq<u8>>,
    cells: Seq<Cell>,
) -> Run<(), ChainingError> {
    match chain {
        None => Run { result: Ok(()), cells },
        Some(chain) => match parsed {
            None => Run { result: Err(ChainingError::NoParsedData), cells },
            Some(text) => {
                let run = spec_run_operations(chain.olist@, 0, Datum::Str(text), cells);
                Run {
                    result: match run.result {
                        Ok(_) => Ok(()),
                        Err(e) => Err(e),
                    },
                    cells: run.cells,
                }
            },
        },
    }
}

impl ParsingDataTypes {
    /// The error of a step that is declared for `self` and got `found`.
    pub fn chain_type_error<'a>(self, found: &LastChainData<'a>) -> (r: Result<
        LastChainData<'a>,
        ChainingError,
    >)
        ensures
            r == Err::<LastChainData<'a>, ChainingError>(spec_type_error(self, found@)),
    {
        match found {
            LastChainData::Str(_) => Err(
                ChainingError::ExpectedFound(ParsingDataTypes::Str, self),
            ),
            LastChainData::I32(_) => Err(
                ChainingError::ExpectedFound(ParsingDataTypes::I32, self),
            ),
            LastChainData::F64(_) => Err(
                ChainingError::ExpectedFound(ParsingDataTypes::F64, self),
            ),
            LastChainData::U8(_) => Err(ChainingError::ExpectedFound(ParsingDataTypes::U8, self)),
            LastChainData::Byte(_) => Err(
                ChainingError::ExpectedFound(ParsingDataTypes::Byte, self),
            ),
            LastChainData::NotImplemented => Err(ChainingError::NotImplemented),
            LastChainData::Opt => Err(ChainingError::NotImplemented),
        }
    }
}

/// Stores `data` in the destination that `handle` names.
pub fn run_store<'d>(handle: Handle, data: LastChainData<'d>, slots: &mut Slots) -> (r: Result<
    LastChainData<'d>,
    ChainingError,
>)
    ensures
        run_of(r, final(slots)@) == spec_store(handle, data@, old(slots)@),
{
    match data {
        LastChainData::Opt => Err(ChainingError::StoreAfterOpt),
        LastChainData::NotImplemented => Err(ChainingError::NotImplemented),
        _ => {
            if handle.index >= slots.len() {
                return Err(ChainingError::NoDestination);
            }
            match data {
                LastChainData::Str(s) => {
                    if slots.set_str(handle, s) {
                        Ok(LastChainData::Str(s))
                    } else {
                        ParsingDataTypes::Str.chain_type_error(&data)
                    }
                },
                LastChainData::I32(i) => {
                    if slots.set_i32(handle, i) {
                        Ok(LastChainData::I32(i))
                    } else {
                        ParsingDataTypes::I32.chain_type_error(&data)
                    }
                },
                LastChainData::F64(f) => {
                    if slots.set_f64(handle, f) {
                        Ok(LastChainData::F64(f))
                    } else {
                        ParsingDataTypes::F64.chain_type_error(&data)
                    }
                },
                LastChainData::U8(u) => {
                    if slots.set_u8(handle, u) {
                        Ok(LastChainData::U8(u))
                    } else {
                        ParsingDataTypes::U8.chain_type_error(&data)
                    }
                },
                LastChainData::Byte(b) => {
                    if slots.set_u8(handle, b) {
                        Ok(LastChainData::Byte(b))
                    } else {
                        ParsingDataTypes::Byte.chain_type_error(&data)
                    }
                },
                LastChainData::Opt => Err(ChainingError::StoreAfterOpt),
                LastChainData::NotImplemented => Err(ChainingError::NotImplemented),
            }
        },
    }
}

/// Runs one step on `data`.
pub fn run_operation<'d>(op: &Operation, data: LastChainData<'d>, slots: &mut Slots) -> (r: Result<
    LastChainData<'d>,
    ChainingError,
>)
    ensures
        run_of(r, final(slots)@) == spec_run_operation(*op, data@, old(slots)@),
        op is Opt ==> r is Ok,
    decreases op, 0nat,
{
    match op {
        Operation::Trim => {
            match data {
                LastChainData::Str(s) => {
                    let result = trim(s);
                    if let Ok(rest) = result {
                        Ok(LastChainData::Str(rest))
                    } else {
                        Err(ChainingError::TrimError)
                    }
                },
                _ => ParsingDataTypes::Str.chain_type_error(&data),
            }
        },
        Operation::TrimR => {
            match data {
                LastChainData::Str(s) => {
                    let result = trimr(s);
                    if let Ok(Split { left, right: _ }) = result {
                        Ok(LastChainData::Str(left))
                    } else {
                        Err(ChainingError::TrimError)
                    }
                },
                _ => ParsingDataTypes::Str.chain_type_error(&data),
            }
        },
        Operation::TrimL => {
            match data {
                LastChainData::Str(s) => {
                    let result = triml(s);
                    if let Ok(Split { left: _, right }) = result {
                        Ok(LastChainData::Str(right))
                    } else {
                        Err(ChainingError::TrimError)
                    }
                },
                _ => ParsingDataTypes::Str.chain_type_error(&data),
            }
        },
        Operation::EqualString(e) => {
            match data {
                LastChainData::Str(s) => {
                    if same_text(e.as_str(), s) {
                        Ok(LastChainData::Str(s))
                    } else {
                        Err(ChainingError::EqFailed)
                    }
                },
                _ => ParsingDataTypes::Str.chain_type_error(&data),
            }
        },
        Operation::NotEqualString(e) => {
            match data {
                LastChainData::Str(s) => {
                    if !same_text(e.as_str(), s) {
                        Ok(LastChainData::Str(s))
                    } else {
                        Err(ChainingError::EqFailed)
                    }
                },
                _ => ParsingDataTypes::Str.chain_type_error(&data),
            }
        },
        Operation::Empty => {
            match data {
                LastChainData::Str(s) => {
                    if s.as_bytes().len() == 0 {
                        Ok(LastChainData::Str(s))
                    } else {
                        Err(ChainingError::EqFailed)
                    }
                },
                _ => ParsingDataTypes::Str.chain_type_error(&data),
            }
        },
        Operation::ToI32 => {
            match data {
                LastChainData::Str(s) => {
                    let result = parse_i32(s);
                    match result {
                        None => Err(ChainingError::InvalidI32),
                        Some(i) => Ok(LastChainData::I32(i)),
                    }
                },
                _ => ParsingDataTypes::I32.chain_type_error(&data),
            }
        },
        Operation::ToF64 => {
            match data {
                LastChainData::Str(s) => {
                    if is_real(s) {
                        Ok(LastChainData::F64(s))
                    } else {
                        Err(ChainingError::InvalidF64)
                    }
                },
                _ => ParsingDataTypes::F64.chain_type_error(&data),
            }
        },
        Operation::ToU8 => {
            match data {
                LastChainData::Str(s) => {
                    let result = parse_u8(s);
                    match result {
                        None => Err(ChainingError::InvalidU8),
                        Some(i) => Ok(LastChainData::U8(i)),
                    }
                },
                _ => ParsingDataTypes::U8.chain_type_error(&data),
            }
        },
        Operation::ToByte => {
            match data {
                LastChainData::Str(s) => {
                    let bytes = s.as_bytes();
                    if bytes.len() == 1 {
                        Ok(LastChainData::Byte(bytes[0]))
                    } else {
                        Err(ChainingError::BiggerThenByte)
                    }
                },
                _ => ParsingDataTypes::U8.chain_type_error(&data),
            }
        },
        Operation::Store(field) => run_store(*field, data, slots),
        Operation::Opt(chain) => {
            let _ = run_operations(&chain.olist, data, slots);
            Ok(LastChainData::Opt)
        },
        Operation::Or(chains) => run_alternatives(chains, data, slots),
    }
}

/// Runs the steps of `ops` in order, each on what the one before it yielded,
/// up to the first that fails.
pub fn run_operations<'d>(ops: &Vec<Operation>, data: LastChainData<'d>, slots: &mut Slots) -> (r:
    Result<LastChainData<'d>, ChainingError>)
    ensures
        run_of(r, final(slots)@) == spec_run_operations(ops@, 0, data@, old(slots)@),
    decreases ops, 1nat,
{
    let mut last = data;
    let mut i: usize = 0;
    while i < ops.len()
        invariant
            i <= ops.len(),
            spec_run_operations(ops@, i as nat, last@, slots@) == spec_run_operations(
                ops@,
                0,
                data@,
                old(slots)@,
            ),
        decreases ops.len() - i,
    {
        let result = run_operation(&ops[i], last, slots);
        match result {
            Ok(nd) => last = nd,
            Err(e) => return Err(e),
        }
        i += 1;
    }
    Ok(last)
}

/// Tries the chains of `chains` in order on `data`, each on a copy of the
/// destinations, and keeps the first that succeeds.
pub fn run_alternatives<'d>(chains: &Vec<Chain>, data: LastChainData<'d>, slots: &mut Slots) -> (r:
    Result<LastChainData<'d>, ChainingError>)
    ensures
        run_of(r, final(slots)@) == spec_run_alternatives(chains@, 0, data@, old(slots)@),
    decreases chains, 1nat,
{
    let mut i: usize = 0;
    while i < chains.len()
        invariant
            i <= chains.len(),
            slots@ == old(slots)@,
            spec_run_alternatives(chains@, i as nat, data@, slots@) == spec_run_alternatives(
                chains@,
                0,
                data@,
                old(slots)@,
            ),
        decreases chains.len() - i,
    {
        let mut trial = slots.snapshot();
        let result = run_operations(&chains[i].olist, data, &mut trial);
        if let Ok(value) = result {
            *slots = trial;
            return Ok(value);
        }
        i += 1;
    }
    Err(ChainingError::NoAlternative)
}

/// Applies the chain of a leaf, if it has one, to the slice that the leaf
/// extracted.
pub fn run_chain(chain: &Option<Chain>, parsed: Option<&str>, slots: &mut Slots) -> (r: Result<
    (),
    ChainingError,
>)
    ensures
        ended(r, final(slots)@) == spec_run_chain(*chain, bytes_of(parsed), old(slots)@),
{
    if let Some(chain) = chain {
        if parsed.is_none() {
            return Err(ChainingError::NoParsedData);
        }
        let data = LastChainData::Str(parsed.unwrap());
        let result = run_operations(&chain.olist, data, slots);
        match result {
            Ok(_) => Ok(()),
            Err(e) => Err(e),
        }
    } else {
        Ok(())
    }
}

/// An optional step never fails: whatever its inner chain and whatever the
/// value it gets, it yields the marker.
pub proof fn lemma_opt_never_fails(inner: Chain, data: Datum, cells: Seq<Cell>)
    ensures
        spec_run_operation(Operation::Opt(inner), data, cells).result == Ok::<Datum, ChainingError>(
            Datum::Opt,
        ),
{
}

/// A store succeeds exactly when its destination exists and takes the kind
/// of the value. Then that destination holds the whole value and the value
/// is passed on; otherwise no destination changes. No other destination
/// changes either way.
pub proof fn lemma_store_writes_iff_kinds_agree(handle: Handle, data: Datum, cells: Seq<Cell>)
    ensures
        ({
            let run = spec_store(handle, data, cells);
            let at = handle.index as int;
            &&& run.result is Ok <==> at < cells.len() && stored(cells[at], data) is Some
            &&& run.result is Ok ==> run.result == Ok::<Datum, ChainingError>(data) && run.cells[at]
                == stored(cells[at], data)->0
            &&& run.result is Err ==> run.cells == cells
            &&& run.cells.len() == cells.len()
            &&& forall|j: int| 0 <= j < cells.len() && j != at ==> run.cells[j] == cells[j]
        }),
{
}

/// The step holds, at any depth, a store into the destination `index`.
pub open spec fn stores_into(op: Operation, index: int) -> bool
    decreases op, 0nat,
{
    match op {
        Operation::Store(handle) => handle.index == index,
        Operation::Opt(inner) => any_stores_into(inner.olist@, 0, index),
        Operation::Or(chains) => any_chain_stores_into(chains@, 0, index),
        _ => false,
    }
}

/// One of the steps of `ops` from index `from` on holds a store into the
/// destination `index`.
pub open spec fn any_stores_into(ops: Seq<Operation>, from: nat, index: int) -> bool
    decreases ops, ops.len() - from,
{
    from < ops.len() && (stores_into(ops[from as int], index) || any_stores_into(
        ops,
        from + 1,
        index,
    ))
}

/// One of the chains of `chains` from index `from` on holds a store into the
/// destination `index`.
pub open spec fn any_chain_stores_into(chains: Seq<Chain>, from: nat, index: int) -> bool
    decreases chains, chains.len() - from,
{
    from < chains.len() && (any_stores_into(chains[from as int].olist@, 0, index)
        || any_chain_stores_into(chains, from + 1, index))
}

/// A step changes no destination that it holds no store into, and neither
/// adds nor removes a destination.
pub proof fn lemma_step_writes_only_where_it_stores(
    op: Operation,
    data: Datum,
    cells: Seq<Cell>,
    index: int,
)
    requires
        0 <= index < cells.len(),
        !stores_into(op, index),
    ensures
        spec_run_operation(op, data, cells).cells.len() == cells.len(),
        spec_run_operation(op, data, cells).cells[index] == cells[index],
    decreases op, 0nat,
{
    match op {
        Operation::Opt(inner) => {
            lemma_steps_write_only_where_they_store(inner.olist@, 0, data, cells, index);
        },
        Operation::Or(chains) => {
            lemma_alternatives_write_only_where_they_store(chains@, 0, data, cells, index);
        },
        _ => {},
    }
}

/// A run of steps changes no destination that none of them holds a store
/// into, and neither adds nor removes a destination.
pub proof fn lemma_steps_write_only_where_they_store(
    ops: Seq<Operation>,
    from: nat,
    data: Datum,
    cells: Seq<Cell>,
    index: int,
)
    requires
        0 <= index < cells.len(),
        !any_stores_into(ops, from, index),
    ensures
        spec_run_operations(ops, from, data, cells).cells.len() == cells.len(),
        spec_run_operations(ops, from, data, cells).cells[index] == cells[index],
    decreases ops, ops.len() - from,
{
    if from < ops.len() {
        lemma_step_writes_only_where_it_stores(ops[from as int], data, cells, index);
        let step = spec_run_operation(ops[from as int], data, cells);
        if let Ok(next) = step.result {
            lemma_steps_write_only_where_they_store(ops, from + 1, next, step.cells, index);
        }
    }
}

/// An alternative changes no destination that none of its chains holds a
/// store into, and neither adds nor removes a destination.
pub proof fn lemma_alternatives_write_only_where_they_store(
    chains: Seq<Chain>,
    from: nat,
    data: Datum,
    cells: Seq<Cell>,
    index: int,
)
    requires
        0 <= index < cells.len(),
        !any_chain_stores_into(chains, from, index),
    ensures
        spec_run_alternatives(chains, from, data, cells).cells.len() == cells.len(),
        spec_run_alternatives(chains, from, data, cells).cells[index] == cells[index],
    decreases chains, chains.len() - from,
{
    if from < chains.len() {
        lemma_steps_write_only_where_they_store(chains[from as int].olist@, 0, data, cells, index);
        lemma_alternatives_write_only_where_they_store(chains, from + 1, data, cells, index);
    }
}

/// An alternative that fails leaves every destination as it was.
pub proof fn lemma_failed_alternative_leaves_no_trace(
    chains: Seq<Chain>,
    from: nat,
    data: Datum,
    cells: Seq<Cell>,
)
    requires
        spec_run_alternatives(chains, from, data, cells).result is Err,
    ensures
        spec_run_alternatives(chains, from, data, cells).cells == cells,
        spec_run_alternatives(chains, from, data, cells).result == Err::<Datum, ChainingError>(
            ChainingError::NoAlternative,
        ),
    decreases chains.len() - from,
{
    if from < chains.len() {
        lemma_failed_alternative_leaves_no_trace(chains, from + 1, data, cells);
    }
}

/// Two destinations hold values of the same kind.
pub open spec fn same_kind(a: Cell, b: Cell) -> bool {
    match a {
        Cell::Str(_) => b is Str,
        Cell::I32(_) => b is I32,
        Cell::F64(_) => b is F64,
        Cell::U8(_) => b is U8,
    }
}

/// Two states of the destinations hold as many destinations, each of the
/// same kind in both.
pub open spec fn same_kinds(a: Seq<Cell>, b: Seq<Cell>) -> bool {
    &&& a.len() == b.len()
    &&& forall|i: int| 0 <= i < a.len() ==> same_kind(#[trigger] a[i], b[i])
}

/// A step neither adds nor removes a destination, and leaves each
/// destination its kind.
pub proof fn lemma_step_keeps_kinds(op: Operation, data: Datum, cells: Seq<Cell>)
    ensures
        same_kinds(cells, spec_run_operation(op, data, cells).cells),
    decreases op, 0nat,
{
    match op {
        Operation::Opt(inner) => {
            lemma_steps_keep_kinds(inner.olist@, 0, data, cells);
        },
        Operation::Or(chains) => {
            lemma_alternatives_keep_kinds(chains@, 0, data, cells);
        },
        _ => {},
    }
}

/// A run of steps neither adds nor removes a destination, and leaves each
/// destination its kind.
pub proof fn lemma_steps_keep_kinds(ops: Seq<Operation>, from: nat, data: Datum, cells: Seq<Cell>)
    ensures
        same_kinds(cells, spec_run_operations(ops, from, data, cells).cells),
    decreases ops, ops.len() - from,
{
    if from < ops.len() {
        lemma_step_keeps_kinds(ops[from as int], data, cells);
        let step = spec_run_operation(ops[from as int], data, cells);
        if let Ok(next) = step.result {
            lemma_steps_keep_kinds(ops, from + 1, next, step.cells);
        }
    }
}

/// An alternative neither adds nor removes a destination, and leaves each
/// destination its kind.
pub proof fn lemma_alternatives_keep_kinds(
    chains: Seq<Chain>,
    from: nat,
    data: Datum,
    cells: Seq<Cell>,
)
    ensures
        same_kinds(cells, spec_run_alternatives(chains, from, data, cells).cells),
    decreases chains, chains.len() - from,
{
    if from < chains.len() {
        lemma_steps_keep_kinds(chains[from as int].olist@, 0, data, cells);
        lemma_alternatives_keep_kinds(chains, from + 1, data, cells);
    }
}

/// The failure is one of those that are reserved and that no step raises.
pub open spec fn is_reserved(e: ChainingError) -> bool {
    e is PreviousOpFailed || e is InvalidTypeError || e is TrimError
}

/// A step fails with none of the reserved failures, and only a chain that
/// is applied without a slice fails for want of parsed data.
pub proof fn lemma_step_failures(op: Operation, data: Datum, cells: Seq<Cell>)
    ensures
        spec_run_operation(op, data, cells).result matches Err(e) ==> !is_reserved(e) && !(e
            is NoParsedData),
    decreases op, 0nat,
{
    match op {
        Operation::Or(chains) => {
            if spec_run_alternatives(chains@, 0, data, cells).result is Err {
                lemma_failed_alternative_leaves_no_trace(chains@, 0, data, cells);
            }
        },
        _ => {},
    }
}

/// A run of steps fails with none of the reserved failures.
pub proof fn lemma_steps_failures(ops: Seq<Operation>, from: nat, data: Datum, cells: Seq<Cell>)
    ensures
        spec_run_operations(ops, from, data, cells).result matches Err(e) ==> !is_reserved(e) && !(e
            is NoParsedData),
    decreases ops.len() - from,
{
    if from < ops.len() {
        lemma_step_failures(ops[from as int], data, cells);
        let step = spec_run_operation(ops[from as int], data, cells);
        if let Ok(next) = step.result {
            lemma_steps_failures(ops, from + 1, next, step.cells);
        }
    }
}

} // verus!
