//! Destinations: the typed cells that the `store` step of a chain writes.
//!
//! The caller registers each destination before building a parser and gets a
//! [`Handle`] for it. A parser holds handles only; the cells stay with the
//! caller, who passes them to each parse.
use vstd::prelude::*;
use vstd::string::StringSliceAdditionalSpecFns;
use vstd::utf8::encode_utf8;

verus! {

/// Names one destination of a [`Slots`].
#[derive(Debug, Clone, Copy, PartialEq, Eq, Structural)]
pub struct Handle {
    pub index: usize,
}

/// What a destination holds, as a mathematical value. A text is given by its
/// bytes, a real number by the bytes of its numeral.
pub enum Cell {
    Str(Seq<u8>),
    I32(i32),
    F64(Seq<u8>),
    U8(u8),
}

enum Slot {
    Str(String),
    I32(i32),
    F64(String),
    U8(u8),
}

impl View for Slot {
    type V = Cell;

    closed spec fn view(&self) -> Cell {
        match self {
            Slot::Str(text) => Cell::Str(encode_utf8(text@)),
            Slot::I32(value) => Cell::I32(*value),
            Slot::F64(numeral) => Cell::F64(encode_utf8(numeral@)),
            Slot::U8(value) => Cell::U8(*value),
        }
    }
}

/// The destinations of a parse, in the order of their registration.
pub struct Slots {
    cells: Vec<Slot>,
}

impl View for Slots {
    type V = Seq<Cell>;

    closed spec fn view(&self) -> Seq<Cell> {
        Seq::new(self.cells@.len(), |i: int| self.cells@[i]@)
    }
}

impl Slots {
    /// No destination yet.
    pub fn new() -> (slots: Slots)
        ensures
            slots@ == Seq::<Cell>::empty(),
    {
        Slots { cells: Vec::new() }
    }

    fn register(&mut self, slot: Slot) -> (handle: Handle)
        ensures
            final(self)@ == old(self)@.push(slot@),
            handle.index == old(self)@.len(),
    {
        let index = self.cells.len();
        self.cells.push(slot);
        Handle { index }
    }

    /// Registers a text destination that holds `initial`.
    pub fn add_str(&mut self, initial: &str) -> (handle: Handle)
        ensures
            final(self)@ == old(self)@.push(Cell::Str(initial.spec_bytes())),
            handle.index == old(self)@.len(),
    {
        self.register(Slot::Str(initial.to_owned()))
    }

    /// Registers a 32-bit integer destination that holds `initial`.
    pub fn add_i32(&mut self, initial: i32) -> (handle: Handle)
        ensures
            final(self)@ == old(self)@.push(Cell::I32(initial)),
            handle.index == old(self)@.len(),
    {
        self.register(Slot::I32(initial))
    }

    /// Registers a real-number destination that holds the numeral `initial`.
    pub fn add_f64(&mut self, initial: &str) -> (handle: Handle)
        ensures
            final(self)@ == old(self)@.push(Cell::F64(initial.spec_bytes())),
            handle.index == old(self)@.len(),
    {
        self.register(Slot::F64(initial.to_owned()))
    }

    /// Registers an 8-bit destination that holds `initial`.
    pub fn add_u8(&mut self, initial: u8) -> (handle: Handle)
        ensures
            final(self)@ == old(self)@.push(Cell::U8(initial)),
            handle.index == old(self)@.len(),
    {
        self.register(Slot::U8(initial))
    }

    /// The number of destinations.
    pub fn len(&self) -> (n: usize)
        ensures
            n == self@.len(),
    {
        self.cells.len()
    }

    /// The text that a text destination holds.
    pub fn get_str(&self, handle: Handle) -> (r: Option<&str>)
        ensures
            match r {
                Some(text) => handle.index < self@.len() && self@[handle.index as int]
                    == Cell::Str(text.spec_bytes()),
                None => !(handle.index < self@.len() && self@[handle.index as int] is Str),
            },
    {
        if handle.index < self.cells.len() {
            match &self.cells[handle.index] {
                Slot::Str(text) => Some(text.as_str()),
                _ => None,
            }
        } else {
            None
        }
    }

    /// The number that a 32-bit integer destination holds.
    pub fn get_i32(&self, handle: Handle) -> (r: Option<i32>)
        ensures
            match r {
                Some(value) => handle.index < self@.len() && self@[handle.index as int]
                    == Cell::I32(value),
                None => !(handle.index < self@.len() && self@[handle.index as int] is I32),
            },
    {
        if handle.index < self.cells.len() {
            match &self.cells[handle.index] {
                Slot::I32(value) => Some(*value),
                _ => None,
            }
        } else {
            None
        }
    }

    /// The numeral that a real-number destination holds.
    pub fn get_f64(&self, handle: Handle) -> (r: Option<&str>)
        ensures
            match r {
                Some(numeral) => handle.index < self@.len() && self@[handle.index as int]
                    == Cell::F64(numeral.spec_bytes()),
                None => !(handle.index < self@.len() && self@[handle.index as int] is F64),
            },
    {
        if handle.index < self.cells.len() {
            match &self.cells[handle.index] {
                Slot::F64(numeral) => Some(numeral.as_str()),
                _ => None,
            }
        } else {
            None
        }
    }

    /// The number that an 8-bit destination holds.
    pub fn get_u8(&self, handle: Handle) -> (r: Option<u8>)
        ensures
            match r {
                Some(value) => handle.index < self@.len() && self@[handle.index as int]
                    == Cell::U8(value),
                None => !(handle.index < self@.len() && self@[handle.index as int] is U8),
            },
    {
        if handle.index < self.cells.len() {
            match &self.cells[handle.index] {
                Slot::U8(value) => Some(*value),
                _ => None,
            }
        } else {
            None
        }
    }

    fn replace(&mut self, handle: Handle, slot: Slot)
        requires
            handle.index < old(self)@.len(),
        ensures
            final(self)@ == old(self)@.update(handle.index as int, slot@),
    {
        self.cells.set(handle.index, slot);
    }

    /// Writes `text` into a text destination. Returns whether `handle` names
    /// one; if not, nothing changes.
    pub fn set_str(&mut self, handle: Handle, text: &str) -> (written: bool)
        ensures
            written == (handle.index < old(self)@.len() && old(self)@[handle.index as int] is Str),
            final(self)@ == if written {
                old(self)@.update(handle.index as int, Cell::Str(text.spec_bytes()))
            } else {
                old(self)@
            },
    {
        if self.get_str(handle).is_some() {
            self.replace(handle, Slot::Str(text.to_owned()));
            true
        } else {
            false
        }
    }

    /// Writes `value` into a 32-bit integer destination. Returns whether
    /// `handle` names one; if not, nothing changes.
    pub fn set_i32(&mut self, handle: Handle, value: i32) -> (written: bool)
        ensures
            written == (handle.index < old(self)@.len() && old(self)@[handle.index as int] is I32),
            final(self)@ == if written {
                old(self)@.update(handle.index as int, Cell::I32(value))
            } else {
                old(self)@
            },
    {
        if self.get_i32(handle).is_some() {
            self.replace(handle, Slot::I32(value));
            true
        } else {
            false
        }
    }

    /// Writes the numeral `numeral` into a real-number destination. Returns
    /// whether `handle` names one; if not, nothing changes.
    pub fn set_f64(&mut self, handle: Handle, numeral: &str) -> (written: bool)
        ensures
            written == (handle.index < old(self)@.len() && old(self)@[handle.index as int] is F64),
            final(self)@ == if written {
                old(self)@.update(handle.index as int, Cell::F64(numeral.spec_bytes()))
            } else {
                old(self)@
            },
    {
        if self.get_f64(handle).is_some() {
            self.replace(handle, Slot::F64(numeral.to_owned()));
            true
        } else {
            false
        }
    }

    /// Writes `value` into an 8-bit destination. Returns whether `handle`
    /// names one; if not, nothing changes.
    pub fn set_u8(&mut self, handle: Handle, value: u8) -> (written: bool)
        ensures
            written == (handle.index < old(self)@.len() && old(self)@[handle.index as int] is U8),
            final(self)@ == if written {
                old(self)@.update(handle.index as int, Cell::U8(value))
            } else {
                old(self)@
            },
    {
        if self.get_u8(handle).is_some() {
            self.replace(handle, Slot::U8(value));
            true
        } else {
            false
        }
    }

    /// A copy of the destinations as they are now.
    pub fn snapshot(&self) -> (copy: Slots)
        ensures
            copy@ == self@,
    {
        let mut cells: Vec<Slot> = Vec::new();
        let mut i: usize = 0;
        while i < self.cells.len()
            invariant
                i <= self.cells.len(),
                cells@.len() == i,
                forall|j: int| 0 <= j < i ==> cells@[j]@ == self.cells@[j]@,
            decreases self.cells.len() - i,
        {
            let slot = match &self.cells[i] {
                Slot::Str(text) => Slot::Str(text.clone()),
                Slot::I32(value) => Slot::I32(*value),
                Slot::F64(numeral) => Slot::F64(numeral.clone()),
                Slot::U8(value) => Slot::U8(*value),
            };
            cells.push(slot);
            i += 1;
        }
        let copy = Slots { cells };
        copy
    }
}

} // verus!
