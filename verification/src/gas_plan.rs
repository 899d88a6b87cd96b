//! A flat variant of the resource budget: the overall cap and the seven
//! dimension caps side by side in one record, with an unchecked cap reader
//! for callers that have already ruled overflow out.
use vstd::prelude::*;

use crate::Error;

verus! {

/// A validated resource budget, kept as eight optional caps in one record.
///
/// Invariant ([`GasPlan::wf`]): when `all` is unset, every dimension is set;
/// [`GasPlan::new`] refuses anything else.
pub struct GasPlan {
    /// Cap on total usage across all dimensions.
    pub all: Option<i64>,
    /// Timeout
    pub time: Option<i64>,
    /// Computation time
    pub comp: Option<i64>,
    /// Working memory
    pub memory: Option<i64>,
    /// Data in database
    pub index: Option<i64>,
    /// Data in storage
    pub store: Option<i64>,
    /// Upload traffic
    pub up: Option<i64>,
    /// Download traffic
    pub down: Option<i64>,
}

impl GasPlan {
    /// All seven dimensions carry a cap.
    pub open spec fn is_rigourous_spec(&self) -> bool {
        &&& self.time is Some
        &&& self.comp is Some
        &&& self.memory is Some
        &&& self.index is Some
        &&& self.store is Some
        &&& self.up is Some
        &&& self.down is Some
    }

    /// The invariant every constructed plan satisfies: an overall cap, or a
    /// cap on every dimension.
    pub open spec fn wf(&self) -> bool {
        self.all is Some || self.is_rigourous_spec()
    }

    /// The mathematical sum of the seven dimensions (meaningful when
    /// `is_rigourous_spec()` holds).
    pub open spec fn total(&self) -> int {
        self.time->0 + self.comp->0 + self.memory->0 + self.index->0 + self.store->0 + self.up->0
            + self.down->0
    }

    /// Summing the dimensions left to right never leaves the 64-bit signed
    /// range: what [`GasPlan::get_cap`] asks of a rigorous plan.
    pub open spec fn sum_fits(&self) -> bool {
        let s2 = self.time->0 + self.comp->0;
        let s3 = s2 + self.memory->0;
        let s4 = s3 + self.index->0;
        let s5 = s4 + self.store->0;
        let s6 = s5 + self.up->0;
        let s7 = s6 + self.down->0;
        &&& i64::MIN <= s2 <= i64::MAX
        &&& i64::MIN <= s3 <= i64::MAX
        &&& i64::MIN <= s4 <= i64::MAX
        &&& i64::MIN <= s5 <= i64::MAX
        &&& i64::MIN <= s6 <= i64::MAX
        &&& i64::MIN <= s7 <= i64::MAX
    }

    /// The single number a session is held to: the smaller of the overall cap
    /// and the dimension sum where both exist, otherwise whichever is there.
    pub open spec fn effective_cap(&self) -> int {
        if self.is_rigourous_spec() {
            if self.all is Some {
                if self.all->0 <= self.total() {
                    self.all->0 as int
                } else {
                    self.total()
                }
            } else {
                self.total()
            }
        } else {
            self.all->0 as int
        }
    }

    /// Validates a budget: succeeds exactly when `all` is set or every one of
    /// the seven dimensions is set; anything looser caps nothing and is
    /// refused with [`Error::InfGasPlan`].
    pub fn new(
        all: Option<i64>,
        time: Option<i64>,
        comp: Option<i64>,
        memory: Option<i64>,
        index: Option<i64>,
        store: Option<i64>,
        up: Option<i64>,
        down: Option<i64>,
    ) -> (r: Result<Self, Error>)
        ensures
            r is Ok <==> (all is Some || (time is Some && comp is Some && memory is Some
                && index is Some && store is Some && up is Some && down is Some)),
            r matches Ok(p) ==> {
                &&& p.all == all
                &&& p.time == time
                &&& p.comp == comp
                &&& p.memory == memory
                &&& p.index == index
                &&& p.store == store
                &&& p.up == up
                &&& p.down == down
                &&& p.wf()
            },
            r matches Err(e) ==> e == Error::InfGasPlan,
    {
        let plan = GasPlan { all, time, comp, memory, index, store, up, down };
        match all.is_none() && !plan.is_rigourous() {
            true => Err(Error::InfGasPlan),
            false => Ok(plan),
        }
    }

    /// Whether every one of the seven dimensions is set.
    pub fn is_rigourous(&self) -> (r: bool)
        ensures
            r == self.is_rigourous_spec(),
    {
        self.time.is_some() && self.comp.is_some() && self.memory.is_some()
            && self.index.is_some() && self.store.is_some() && self.up.is_some()
            && self.down.is_some()
    }

    /// The effective cap of the plan, summed without an overflow escape:
    /// callers rule the overflow out beforehand.
    pub fn get_cap(&self) -> (r: i64)
        requires
            self.wf(),
            self.is_rigourous_spec() ==> self.sum_fits(),
        ensures
            r == self.effective_cap(),
    {
        match self.is_rigourous() {
            true => {
                let sum = self.time.unwrap() + self.comp.unwrap() + self.memory.unwrap()
                    + self.index.unwrap() + self.store.unwrap() + self.up.unwrap()
                    + self.down.unwrap();
                match self.all {
                    Some(all) => if all < sum {
                        all
                    } else {
                        sum
                    },
                    None => sum,
                }
            },
            false => match self.all {
                Some(all) => all,
                // unreachable under `wf`: `all` is set whenever a dimension is not
                None => i64::MAX,
            },
        }
    }
}

} // verus!
