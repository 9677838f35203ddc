//! Borrowed views of null-terminated UTF-16 strings.

use vstd::prelude::*;
use vstd::slice::slice_subrange;

verus! {

/// A sequence of code units is a string when its last unit, and no other, is null.
pub open spec fn is_cstr16(units: Seq<u16>) -> bool {
    &&& units.len() >= 1
    &&& units[units.len() - 1] == 0
    &&& forall|i: int| 0 <= i < units.len() - 1 ==> units[i] != 0
}

/// The index of the first null unit of `units` at or after `from`, or the
/// length of `units` when there is none.
pub open spec fn first_nul(units: Seq<u16>, from: int) -> int
    decreases units.len() - from,
{
    if from < 0 || from >= units.len() {
        units.len() as int
    } else if units[from] == 0 {
        from
    } else {
        first_nul(units, from + 1)
    }
}

/// `first_nul` finds a null unit, and every unit it passes over is not null.
pub proof fn lemma_first_nul(units: Seq<u16>, from: int)
    requires
        0 <= from <= units.len(),
    ensures
        from <= first_nul(units, from) <= units.len(),
        first_nul(units, from) < units.len() ==> units[first_nul(units, from)] == 0,
        forall|i: int| from <= i < first_nul(units, from) ==> units[i] != 0,
    decreases units.len() - from,
{
    if from < units.len() && units[from] != 0 {
        lemma_first_nul(units, from + 1);
    }
}

/// Why a slice of code units is not a string.
#[derive(Clone, Copy, Debug, PartialEq, Eq, Structural)]
pub enum FromSliceWithNulError {
    /// A null unit stands at this index, before the last unit.
    InteriorNul(usize),
    /// The last unit is not null, or the slice is empty.
    NotNulTerminated,
}

/// A borrowed, null-terminated UTF-16 string. The terminator is part of the view.
#[derive(Clone, Copy, Debug, PartialEq, Eq)]
pub struct CStr16<'a> {
    units: &'a [u16],
}

impl<'a> View for CStr16<'a> {
    type V = Seq<u16>;

    closed spec fn view(&self) -> Seq<u16> {
        self.units@
    }
}

impl<'a> CStr16<'a> {
    #[verifier::type_invariant]
    spec fn terminated(self) -> bool {
        is_cstr16(self.units@)
    }

    /// Views `units` as a string if its only null unit is the last one.
    pub fn from_u16_with_nul(units: &'a [u16]) -> (r: core::result::Result<
        CStr16<'a>,
        FromSliceWithNulError,
    >)
        ensures
            match r {
                Ok(s) => is_cstr16(units@) && s@ == units@,
                Err(FromSliceWithNulError::InteriorNul(i)) => i == first_nul(units@, 0) && i
                    < units.len() - 1,
                Err(FromSliceWithNulError::NotNulTerminated) => first_nul(units@, 0)
                    == units.len(),
            },
    {
        let n = units.len();
        let mut i: usize = 0;
        while i < n
            invariant
                n == units.len(),
                i <= n,
                first_nul(units@, 0) == first_nul(units@, i as int),
            decreases n - i,
        {
            if units[i] == 0 {
                proof {
                    lemma_first_nul(units@, 0);
                }
                if i + 1 == n {
                    return Ok(CStr16 { units });
                } else {
                    return Err(FromSliceWithNulError::InteriorNul(i));
                }
            }
            i += 1;
        }
        Err(FromSliceWithNulError::NotNulTerminated)
    }

    /// Views `units`, which is known to be a string, as one.
    pub fn from_u16_with_nul_unchecked(units: &'a [u16]) -> (s: CStr16<'a>)
        requires
            is_cstr16(units@),
        ensures
            s@ == units@,
    {
        CStr16 { units }
    }

    /// Views the units of `units` up to and including its first null unit as
    /// a string; `None` if no unit is null.
    pub fn from_u16_until_nul(units: &'a [u16]) -> (r: Option<CStr16<'a>>)
        ensures
            match r {
                Some(s) => first_nul(units@, 0) < units.len() && s@ == units@.subrange(
                    0,
                    first_nul(units@, 0) + 1,
                ),
                None => first_nul(units@, 0) == units.len(),
            },
    {
        let n = units.len();
        let mut i: usize = 0;
        while i < n
            invariant
                n == units.len(),
                i <= n,
                first_nul(units@, 0) == first_nul(units@, i as int),
            decreases n - i,
        {
            if units[i] == 0 {
                proof {
                    lemma_first_nul(units@, 0);
                }
                let s = slice_subrange(units, 0, i + 1);
                return Some(CStr16 { units: s });
            }
            i += 1;
        }
        None
    }

    /// The code units, terminator included.
    pub fn to_u16_slice_with_nul(&self) -> (s: &'a [u16])
        ensures
            s@ == self@,
            is_cstr16(s@),
    {
        proof {
            use_type_invariant(self);
        }
        self.units
    }

    /// The code units before the terminator.
    pub fn to_u16_slice(&self) -> (s: &'a [u16])
        ensures
            s@ == self@.drop_last(),
            is_cstr16(self@),
    {
        proof {
            use_type_invariant(self);
        }
        slice_subrange(self.units, 0, self.units.len() - 1)
    }

    /// The number of code units before the terminator.
    pub fn num_chars(&self) -> (n: usize)
        ensures
            n == self@.len() - 1,
    {
        proof {
            use_type_invariant(self);
        }
        self.units.len() - 1
    }

    /// Whether the string holds nothing but its terminator.
    pub fn is_empty(&self) -> (b: bool)
        ensures
            b == (self@.len() == 1),
    {
        self.num_chars() == 0
    }
}

} // verus!
