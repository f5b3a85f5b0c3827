//! The status of a single slot of the task list, and the cell that holds it in
//! its one-byte encoding.
use vstd::prelude::*;

verus! {

/// The status of a single slot in the task list.
#[derive(Debug, Clone, Copy, PartialEq, Eq, Structural)]
pub enum SlotStatus {
    /// The slot is empty.
    Empty,
    /// The slot is locked while it is being filled.
    Locked,
    /// The slot holds a task that nobody is accessing.
    Stored,
    /// The slot holds a task that is being accessed through a guard.
    Accessed,
}

/// The one-byte code of a status.
pub open spec fn status_code(s: SlotStatus) -> u8 {
    match s {
        SlotStatus::Empty => 0,
        SlotStatus::Locked => 1,
        SlotStatus::Stored => 2,
        SlotStatus::Accessed => 3,
    }
}

/// The status that a one-byte code stands for; codes above 3 stand for none.
pub open spec fn status_of_code(raw: u8) -> SlotStatus
    recommends
        raw <= 3,
{
    if raw == 0 {
        SlotStatus::Empty
    } else if raw == 1 {
        SlotStatus::Locked
    } else if raw == 2 {
        SlotStatus::Stored
    } else {
        SlotStatus::Accessed
    }
}

/// Decoding a code gives back the status that was encoded.
pub proof fn lemma_status_code_roundtrip(s: SlotStatus)
    ensures
        status_code(s) <= 3,
        status_of_code(status_code(s)) == s,
{
}

/// Encoding is injective on the four valid codes: a valid code is the code of
/// the status it decodes to.
pub proof fn lemma_code_status_roundtrip(raw: u8)
    requires
        raw <= 3,
    ensures
        status_code(status_of_code(raw)) == raw,
{
}

impl SlotStatus {
    /// The one-byte code of this status.
    pub fn to_u8(&self) -> (r: u8)
        ensures
            r == status_code(*self),
    {
        match self {
            SlotStatus::Empty => 0,
            SlotStatus::Locked => 1,
            SlotStatus::Stored => 2,
            SlotStatus::Accessed => 3,
        }
    }

    /// The status of a one-byte code; only the codes 0 to 3 stand for a status.
    pub fn from_u8(raw: u8) -> (s: SlotStatus)
        requires
            raw <= 3,
        ensures
            s == status_of_code(raw),
            status_code(s) == raw,
    {
        match raw {
            0 => SlotStatus::Empty,
            1 => SlotStatus::Locked,
            2 => SlotStatus::Stored,
            _ => SlotStatus::Accessed,
        }
    }
}

/// A cell holding a slot status in its one-byte encoding.
#[derive(Debug)]
pub struct AtomicStatus {
    raw: u8,
}

impl View for AtomicStatus {
    type V = SlotStatus;

    closed spec fn view(&self) -> SlotStatus {
        status_of_code(self.raw)
    }
}

impl AtomicStatus {
    #[verifier::type_invariant]
    spec fn valid_code(self) -> bool {
        self.raw <= 3
    }

    /// A cell holding `val`.
    pub fn new(val: SlotStatus) -> (r: Self)
        ensures
            r@ == val,
    {
        proof {
            lemma_status_code_roundtrip(val);
        }
        AtomicStatus { raw: val.to_u8() }
    }

    /// The status held.
    pub fn load(&self) -> (r: SlotStatus)
        ensures
            r == self@,
    {
        proof {
            use_type_invariant(self);
        }
        SlotStatus::from_u8(self.raw)
    }

    /// Replaces the status held by `value`.
    pub fn store(&mut self, value: SlotStatus)
        ensures
            final(self)@ == value,
    {
        proof {
            lemma_status_code_roundtrip(value);
        }
        self.raw = value.to_u8();
    }

    /// Replaces the status by `new` if it is `current`; returns the status that
    /// was held before, as `Ok` when the exchange took place and as `Err` when not.
    pub fn compare_exchange(&mut self, current: SlotStatus, new: SlotStatus) -> (r: Result<SlotStatus, SlotStatus>)
        ensures
            old(self)@ == current ==> r == Ok::<SlotStatus, SlotStatus>(current) && final(self)@ == new,
            old(self)@ != current ==> r == Err::<SlotStatus, SlotStatus>(old(self)@) && *final(self) == *old(self),
    {
        proof {
            use_type_invariant(&*self);
            lemma_status_code_roundtrip(current);
            lemma_status_code_roundtrip(new);
            lemma_code_status_roundtrip(self.raw);
        }
        let prev = self.raw;
        if prev == current.to_u8() {
            self.raw = new.to_u8();
            Ok(SlotStatus::from_u8(prev))
        } else {
            Err(SlotStatus::from_u8(prev))
        }
    }
}

} // verus!
