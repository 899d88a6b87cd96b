//! The resource budget: a spending cap across seven independent resource
//! dimensions, validated once at construction and cheaply read afterwards.
use vstd::prelude::*;

use crate::Error;

verus! {

/// Seven optional amounts, one per resource dimension.
///
/// Used both as the per-dimension caps of a [`GasPlan`] and as the running
/// usage ledger of a session (see [`Gas::zero`]). A dimension left `None`
/// carries no amount.
pub struct Gas {
    /// Timeout
    pub time: Option<i64>,
    /// Computation time
    pub comp: Option<i64>,
    /// Working memory
    pub memory: Option<i64>,
    /// Data in database
    pub index: Option<i64>,
    /// Data in storage
    pub store: Option<i64>,
    /// Upload traffic
    pub up: Option<i64>,
    /// Download traffic
    pub down: Option<i64>,
}

/// A validated resource budget: an optional overall cap plus the seven
/// per-dimension caps.
///
/// Invariant ([`GasPlan::wf`]): when `all` is unset, every dimension is set;
/// [`GasPlan::new`] refuses anything else.
pub struct GasPlan {
    /// Cap on total usage across all dimensions.
    pub all: Option<i64>,
    /// The per-dimension caps.
    pub gas: Gas,
}

impl Gas {
    /// All seven dimensions carry an amount.
    pub open spec fn is_rigourous_spec(&self) -> bool {
        &&& self.time is Some
        &&& self.comp is Some
        &&& self.memory is Some
        &&& self.index is Some
        &&& self.store is Some
        &&& self.up is Some
        &&& self.down is Some
    }

    /// The mathematical sum of the seven dimensions (meaningful when
    /// `is_rigourous_spec()` holds).
    pub open spec fn total(&self) -> int {
        self.time->0 + self.comp->0 + self.memory->0 + self.index->0 + self.store->0 + self.up->0
            + self.down->0
    }

    /// Summing the dimensions left to right never leaves the 64-bit signed
    /// range: the exact condition under which [`Gas::sum`] succeeds.
    pub open spec fn sum_fits(&self) -> bool {
        let s2 = self.time->0 + self.comp->0;
        let s3 = s2 + self.memory->0;
        let s4 = s3 + self.index->0;
        let s5 = s4 + self.store->0;
        let s6 = s5 + self.up->0;
        let s7 = s6 + self.down->0;
        &&& i64::MIN <= s2 <= i64::MAX
        &&& i64::MIN <= s3 <= i64::MAX
        &&& i64::MIN <= s4 <= i64::MAX
        &&& i64::MIN <= s5 <= i64::MAX
        &&& i64::MIN <= s6 <= i64::MAX
        &&& i64::MIN <= s7 <= i64::MAX
    }

    /// A ledger with no amounts at all.
    pub fn none() -> (r: Self)
        ensures
            r.time is None,
            r.comp is None,
            r.memory is None,
            r.index is None,
            r.store is None,
            r.up is None,
            r.down is None,
    {
        Gas { time: None, comp: None, memory: None, index: None, store: None, up: None, down: None }
    }

    /// The usage ledger at the start of a session: every counter at zero.
    pub fn zero() -> (r: Self)
        ensures
            r.time == Some(0i64),
            r.comp == Some(0i64),
            r.memory == Some(0i64),
            r.index == Some(0i64),
            r.store == Some(0i64),
            r.up == Some(0i64),
            r.down == Some(0i64),
            r.is_rigourous_spec(),
            r.total() == 0,
    {
        Gas {
            time: Some(0),
            comp: Some(0),
            memory: Some(0),
            index: Some(0),
            store: Some(0),
            up: Some(0),
            down: Some(0),
        }
    }

    /// Whether every one of the seven dimensions is set.
    pub fn is_rigourous(&self) -> (r: bool)
        ensures
            r == self.is_rigourous_spec(),
    {
        self.time.is_some() && self.comp.is_some() && self.memory.is_some()
            && self.index.is_some() && self.store.is_some() && self.up.is_some()
            && self.down.is_some()
    }

    /// The checked sum of the seven dimensions: `None` exactly when some
    /// left-to-right partial sum leaves the 64-bit signed range.
    pub fn sum(&self) -> (r: Option<i64>)
        requires
            self.is_rigourous_spec(),
        ensures
            r is Some <==> self.sum_fits(),
            r matches Some(s) ==> s == self.total(),
    {
        let s2 = match self.time.unwrap().checked_add(self.comp.unwrap()) {
            Some(v) => v,
            None => return None,
        };
        let s3 = match s2.checked_add(self.memory.unwrap()) {
            Some(v) => v,
            None => return None,
        };
        let s4 = match s3.checked_add(self.index.unwrap()) {
            Some(v) => v,
            None => return None,
        };
        let s5 = match s4.checked_add(self.store.unwrap()) {
            Some(v) => v,
            None => return None,
        };
        let s6 = match s5.checked_add(self.up.unwrap()) {
            Some(v) => v,
            None => return None,
        };
        s6.checked_add(self.down.unwrap())
    }
}

impl GasPlan {
    /// The invariant every constructed plan satisfies: an overall cap, or a
    /// cap on every dimension.
    pub open spec fn wf(&self) -> bool {
        self.all is Some || self.gas.is_rigourous_spec()
    }

    /// The single number a session is held to: the smaller of the overall cap
    /// and the dimension sum where both exist, otherwise whichever is there.
    pub open spec fn effective_cap(&self) -> int {
        if self.gas.is_rigourous_spec() {
            if self.all is Some {
                if self.all->0 <= self.gas.total() {
                    self.all->0 as int
                } else {
                    self.gas.total()
                }
            } else {
                self.gas.total()
            }
        } else {
            self.all->0 as int
        }
    }

    /// Validates a budget: succeeds exactly when `all` is set or every one of
    /// the seven dimensions is set; anything looser caps nothing and is
    /// refused with [`Error::InfGasPlan`].
    pub fn new(
        all: Option<i64>,
        time: Option<i64>,
        comp: Option<i64>,
        memory: Option<i64>,
        index: Option<i64>,
        store: Option<i64>,
        up: Option<i64>,
        down: Option<i64>,
    ) -> (r: Result<Self, Error>)
        ensures
            r is Ok <==> (all is Some || (time is Some && comp is Some && memory is Some
                && index is Some && store is Some && up is Some && down is Some)),
            r matches Ok(p) ==> {
                &&& p.all == all
                &&& p.gas.time == time
                &&& p.gas.comp == comp
                &&& p.gas.memory == memory
                &&& p.gas.index == index
                &&& p.gas.store == store
                &&& p.gas.up == up
                &&& p.gas.down == down
                &&& p.wf()
            },
            r matches Err(e) ==> e == Error::InfGasPlan,
    {
        let plan = GasPlan {
            all,
            gas: Gas { time, comp, memory, index, store, up, down },
        };
        match all.is_none() && !plan.gas.is_rigourous() {
            true => Err(Error::InfGasPlan),
            false => Ok(plan),
        }
    }

    /// The unrestricted plan of a default or debug session: overall cap at
    /// the maximum, no dimension capped.
    pub fn max() -> (r: Self)
        ensures
            r.all == Some(i64::MAX),
            r.gas.time is None,
            r.gas.comp is None,
            r.gas.memory is None,
            r.gas.index is None,
            r.gas.store is None,
            r.gas.up is None,
            r.gas.down is None,
            r.wf(),
            r.effective_cap() == i64::MAX,
    {
        GasPlan { all: Some(i64::MAX), gas: Gas::none() }
    }

    /// The effective cap of the plan; fails with [`Error::GasPanOverflow`]
    /// exactly when the dimension sum leaves the 64-bit signed range.
    pub fn get_cap(&self) -> (r: Result<i64, Error>)
        requires
            self.wf(),
        ensures
            r is Ok <==> (self.gas.is_rigourous_spec() ==> self.gas.sum_fits()),
            r matches Ok(c) ==> c == self.effective_cap(),
            r matches Err(e) ==> e == Error::GasPanOverflow,
    {
        match self.gas.is_rigourous() {
            true => {
                let sum = match self.gas.sum() {
                    Some(sum) => sum,
                    None => return Err(Error::GasPanOverflow),
                };
                Ok(
                    match self.all {
                        Some(all) => if all < sum {
                            all
                        } else {
                            sum
                        },
                        None => sum,
                    },
                )
            },
            false => match self.all {
                Some(all) => Ok(all),
                // unreachable under `wf`: `all` is set whenever a dimension is not
                None => Err(Error::InfGasPlan),
            },
        }
    }
}

} // verus!
