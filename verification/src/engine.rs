//! The dispatch engine: owns the session state, invokes the catalogue per
//! statement, deducts gas against the effective cap, binds outputs, and
//! multiplexes results into one ordered output queue.
//!
//! All session state lives behind one owner; a concurrent session runner
//! serializes every mutation through it, so output bindings become visible
//! together with the gas charged for them.
use vstd::prelude::*;

use crate::channel::Channel;
use crate::function;
use crate::function::Function;
use crate::gas::Gas;
use crate::gas::GasPlan;
use crate::io::OutputFrame;
use crate::statement::Statement;
use crate::variable::VarView;
use crate::variable::Variable;
use crate::Error;

verus! {

/// The value of an optional amount, counting an absent one as zero.
pub open spec fn opt0(o: Option<i64>) -> int {
    if o is Some {
        o->0 as int
    } else {
        0
    }
}

/// Charging `c` onto the ledger `u` keeps every counter within the 64-bit
/// signed range.
pub open spec fn charge_fits(u: Gas, c: Gas) -> bool {
    &&& i64::MIN <= u.time->0 + opt0(c.time) <= i64::MAX
    &&& i64::MIN <= u.comp->0 + opt0(c.comp) <= i64::MAX
    &&& i64::MIN <= u.memory->0 + opt0(c.memory) <= i64::MAX
    &&& i64::MIN <= u.index->0 + opt0(c.index) <= i64::MAX
    &&& i64::MIN <= u.store->0 + opt0(c.store) <= i64::MAX
    &&& i64::MIN <= u.up->0 + opt0(c.up) <= i64::MAX
    &&& i64::MIN <= u.down->0 + opt0(c.down) <= i64::MAX
}

/// The ledger after charging `c` onto `u`, dimension by dimension
/// (meaningful when [`charge_fits`] holds).
pub open spec fn charged(u: Gas, c: Gas) -> Gas {
    Gas {
        time: Some((u.time->0 + opt0(c.time)) as i64),
        comp: Some((u.comp->0 + opt0(c.comp)) as i64),
        memory: Some((u.memory->0 + opt0(c.memory)) as i64),
        index: Some((u.index->0 + opt0(c.index)) as i64),
        store: Some((u.store->0 + opt0(c.store)) as i64),
        up: Some((u.up->0 + opt0(c.up)) as i64),
        down: Some((u.down->0 + opt0(c.down)) as i64),
    }
}

/// One usage counter plus one optional cost, checked.
fn add_dim(u: i64, c: Option<i64>) -> (r: Option<i64>)
    ensures
        r is Some <==> i64::MIN <= u + opt0(c) <= i64::MAX,
        r matches Some(v) ==> v == u + opt0(c),
{
    match c {
        Some(v) => u.checked_add(v),
        None => Some(u),
    }
}

/// The value bound to `id` in the variable table, newest binding first.
pub open spec fn var_of(vars: Seq<(i32, Variable)>, id: int) -> Option<VarView>
    decreases vars.len(),
{
    if vars.len() == 0 {
        None
    } else if vars.last().0 == id {
        Some(vars.last().1@)
    } else {
        var_of(vars.drop_last(), id)
    }
}

/// A copy of the value bound to `id`, newest binding first.
fn lookup_var(vars: &Vec<(i32, Variable)>, id: i32) -> (r: Option<Variable>)
    ensures
        r matches Some(v) ==> var_of(vars@, id as int) == Some(v@),
        r is None ==> var_of(vars@, id as int) is None,
{
    let mut i = vars.len();
    proof {
        assert(vars@.take(vars@.len() as int) =~= vars@);
    }
    while i > 0
        invariant
            i <= vars@.len(),
            var_of(vars@, id as int) == var_of(vars@.take(i as int), id as int),
        decreases i,
    {
        i = i - 1;
        proof {
            assert(vars@.take(i + 1).last() == vars@[i as int]);
            assert(vars@.take(i + 1).drop_last() =~= vars@.take(i as int));
        }
        let e = &vars[i];
        if e.0 == id {
            return Some(e.1.duplicate());
        }
    }
    None
}

/// Copies of the values bound to each id, or nothing if any id is unbound.
fn resolve_args(vars: &Vec<(i32, Variable)>, ids: &Vec<i32>) -> (r: Option<Vec<Variable>>)
    ensures
        r matches Some(a) ==> a@.len() == ids@.len() && forall|k: int|
            0 <= k < ids@.len() ==> var_of(vars@, ids@[k] as int) == Some(
                (#[trigger] a@[k])@,
            ),
        r is None ==> exists|k: int|
            0 <= k < ids@.len() && var_of(vars@, (#[trigger] ids@[k]) as int) is None,
{
    let mut args: Vec<Variable> = Vec::new();
    let mut k: usize = 0;
    while k < ids.len()
        invariant
            k <= ids@.len(),
            args@.len() == k,
            forall|j: int|
                0 <= j < k ==> var_of(vars@, ids@[j] as int) == Some((#[trigger] args@[j])@),
        decreases ids@.len() - k,
    {
        match lookup_var(vars, ids[k]) {
            Some(v) => {
                args.push(v);
            },
            None => {
                return None;
            },
        }
        k = k + 1;
    }
    Some(args)
}

/// The session state the engine exclusively owns.
pub struct AmnisState {
    /// The immutable session budget.
    pub gas_plan: GasPlan,
    /// The running usage ledger, starting at zero.
    pub gas_used: Gas,
    /// The output bindings, keyed by id; a later binding of an id shadows
    /// an earlier one.
    pub variables: Vec<(i32, Variable)>,
    /// The channel table, keyed by channel id; the default channel is
    /// pre-seeded.
    pub channels: Vec<(i32, Channel)>,
    /// The multiplexing queue feeding the output stream: frames are
    /// delivered in enqueue order.
    pub queue: Vec<OutputFrame>,
    /// The source line of the next statement.
    pub line: i32,
}

impl AmnisState {
    /// The state invariant: a validated plan, a rigorous ledger, and a
    /// line counter that started at one.
    pub open spec fn wf(&self) -> bool {
        &&& self.gas_plan.wf()
        &&& self.gas_used.is_rigourous_spec()
        &&& 1 <= self.line
    }

    /// The function id of the statement is within the enumerated range.
    pub open spec fn chk_fn(stmt: Statement) -> bool {
        function::fn_of_id(stmt.function as int) is Some
    }

    /// Charging the cost overflows no usage counter.
    pub open spec fn chk_charge(&self, cost: Gas) -> bool {
        charge_fits(self.gas_used, cost)
    }

    /// The charged ledger can be summed.
    pub open spec fn chk_sum(&self, cost: Gas) -> bool {
        charged(self.gas_used, cost).sum_fits()
    }

    /// The plan's effective cap can be computed.
    pub open spec fn chk_cap(&self) -> bool {
        self.gas_plan.gas.is_rigourous_spec() ==> self.gas_plan.gas.sum_fits()
    }

    /// The charged total stays within the effective cap.
    pub open spec fn chk_exhaust(&self, cost: Gas) -> bool {
        charged(self.gas_used, cost).total() <= self.gas_plan.effective_cap()
    }

    /// Every input id of the statement is bound in the variable table.
    pub open spec fn chk_inputs(&self, stmt: Statement) -> bool {
        forall|k: int|
            0 <= k < stmt.inputs@.len() ==> var_of(
                self.variables@,
                (#[trigger] stmt.inputs@[k]) as int,
            ) is Some
    }

    /// The declared payload length of the statement: its body length, or
    /// zero without a body.
    pub open spec fn declared_size(stmt: Statement) -> int {
        match stmt.body {
            Some(b) => b@.len() as int,
            None => 0,
        }
    }

    /// Executes one statement against the session state: resolves the
    /// function, charges the cost against the effective cap, invokes the
    /// catalogue on the resolved inputs, binds the declared outputs to the
    /// result payload, and enqueues the result frame.
    ///
    /// An error leaves the state untouched: nothing is charged and nothing
    /// is bound, so output bindings and their gas charge become visible
    /// together. Which error comes back says what failed first: an invalid
    /// function id, an overflowing charge or cap, an exhausted budget, or
    /// an unbound input.
    pub fn handle_statement(&mut self, stmt: &Statement, cost: &Gas) -> (r: Result<(), Error>)
        requires
            old(self).wf(),
            old(self).line + 2 <= i32::MAX,
        ensures
            final(self).wf(),
            r is Ok <==> (Self::chk_fn(*stmt) && old(self).chk_charge(*cost) && old(self).chk_sum(
                *cost,
            ) && old(self).chk_cap() && old(self).chk_exhaust(*cost) && old(self).chk_inputs(
                *stmt,
            )),
            r matches Err(e) ==> *final(self) == *old(self) && e == (if !Self::chk_fn(*stmt) {
                Error::FnIdInvalid
            } else if !(old(self).chk_charge(*cost) && old(self).chk_sum(*cost) && old(
                self,
            ).chk_cap()) {
                Error::GasPanOverflow
            } else if !old(self).chk_exhaust(*cost) {
                Error::GasExhausted
            } else {
                Error::InvalidInput
            }),
            r is Ok ==> {
                &&& final(self).gas_plan == old(self).gas_plan
                &&& final(self).gas_used == charged(old(self).gas_used, *cost)
                &&& final(self).channels == old(self).channels
                &&& final(self).line == old(self).line + 1 + (if stmt.body is Some {
                    1int
                } else {
                    0int
                })
                &&& final(self).queue@.len() == old(self).queue@.len() + 1
                &&& (forall|k: int|
                    0 <= k < old(self).queue@.len() ==> final(self).queue@[k] == old(
                        self,
                    ).queue@[k])
                &&& final(self).queue@.last().channel == stmt.channel
                &&& final(self).queue@.last().line == old(self).line
                &&& final(self).queue@.last().size == Self::declared_size(*stmt)
                &&& final(self).queue@.last().payload@ == Seq::<u8>::empty()
                &&& final(self).variables@.len() == old(self).variables@.len()
                    + stmt.outputs@.len()
                &&& (forall|k: int|
                    0 <= k < old(self).variables@.len() ==> final(self).variables@[k] == old(
                        self,
                    ).variables@[k])
                &&& (forall|k: int|
                    0 <= k < stmt.outputs@.len() ==> (#[trigger] final(self).variables@[old(
                        self,
                    ).variables@.len() + k]).0 == stmt.outputs@[k] && final(self).variables@[old(
                        self,
                    ).variables@.len() + k].1@ == VarView::Bytes(Seq::<u8>::empty()))
            },
    {
        // resolve the function id against the catalogue
        let func = match Function::new(stmt.function) {
            Ok(f) => f,
            Err(e) => {
                return Err(e);
            },
        };
        // charge the cost and hold it against the effective cap; nothing is
        // committed until the whole statement succeeds
        let t = match add_dim(self.gas_used.time.unwrap(), cost.time) {
            Some(v) => v,
            None => {
                return Err(Error::GasPanOverflow);
            },
        };
        let c = match add_dim(self.gas_used.comp.unwrap(), cost.comp) {
            Some(v) => v,
            None => {
                return Err(Error::GasPanOverflow);
            },
        };
        let m = match add_dim(self.gas_used.memory.unwrap(), cost.memory) {
            Some(v) => v,
            None => {
                return Err(Error::GasPanOverflow);
            },
        };
        let ix = match add_dim(self.gas_used.index.unwrap(), cost.index) {
            Some(v) => v,
            None => {
                return Err(Error::GasPanOverflow);
            },
        };
        let st = match add_dim(self.gas_used.store.unwrap(), cost.store) {
            Some(v) => v,
            None => {
                return Err(Error::GasPanOverflow);
            },
        };
        let up = match add_dim(self.gas_used.up.unwrap(), cost.up) {
            Some(v) => v,
            None => {
                return Err(Error::GasPanOverflow);
            },
        };
        let dn = match add_dim(self.gas_used.down.unwrap(), cost.down) {
            Some(v) => v,
            None => {
                return Err(Error::GasPanOverflow);
            },
        };
        let new_used = Gas {
            time: Some(t),
            comp: Some(c),
            memory: Some(m),
            index: Some(ix),
            store: Some(st),
            up: Some(up),
            down: Some(dn),
        };
        proof {
            assert(new_used == charged(old(self).gas_used, *cost));
        }
        let total = match new_used.sum() {
            Some(s) => s,
            None => {
                return Err(Error::GasPanOverflow);
            },
        };
        let cap = match self.gas_plan.get_cap() {
            Ok(cp) => cp,
            Err(e) => {
                return Err(e);
            },
        };
        if total > cap {
            return Err(Error::GasExhausted);
        }
        // invoke the catalogue on the resolved inputs
        let args = match resolve_args(&self.variables, &stmt.inputs) {
            Some(a) => a,
            None => {
                return Err(Error::InvalidInput);
            },
        };
        proof {
            assert forall|k: int|
                0 <= k < stmt.inputs@.len() implies var_of(
                old(self).variables@,
                (#[trigger] stmt.inputs@[k]) as int,
            ) is Some by {
                assert(var_of(self.variables@, stmt.inputs@[k] as int) == Some(args@[k]@));
            }
        }
        let size: u64 = match &stmt.body {
            Some(b) => b.len() as u64,
            None => 0,
        };
        let frame = func.call(args, stmt.channel, self.line, size);
        // bind the declared outputs before the charge is committed
        let ghost vars0 = self.variables@;
        let mut k: usize = 0;
        while k < stmt.outputs.len()
            invariant
                k <= stmt.outputs@.len(),
                self.gas_plan == old(self).gas_plan,
                self.gas_used == old(self).gas_used,
                self.channels == old(self).channels,
                self.queue == old(self).queue,
                self.line == old(self).line,
                self.variables@.len() == vars0.len() + k,
                forall|j: int| 0 <= j < vars0.len() ==> self.variables@[j] == vars0[j],
                forall|j: int|
                    0 <= j < k ==> (#[trigger] self.variables@[vars0.len() + j]).0
                        == stmt.outputs@[j] && self.variables@[vars0.len() + j].1@
                        == VarView::Bytes(frame.payload@),
                frame.payload@ == Seq::<u8>::empty(),
            decreases stmt.outputs@.len() - k,
        {
            let bound = crate::copy_bytes(&frame.payload);
            self.variables.push((stmt.outputs[k], Variable::Bytes(bound)));
            k = k + 1;
        }
        // commit: charge the gas, enqueue the frame, advance the line
        self.gas_used = new_used;
        self.queue.push(frame);
        self.line = self.line + (if stmt.body.is_some() {
            2
        } else {
            1
        });
        Ok(())
    }

    /// Hands out every queued frame in enqueue order, leaving the queue
    /// empty; the rest of the state stays.
    pub fn take_frames(&mut self) -> (r: Vec<OutputFrame>)
        ensures
            r@ == old(self).queue@,
            final(self).queue@.len() == 0,
            final(self).gas_plan == old(self).gas_plan,
            final(self).gas_used == old(self).gas_used,
            final(self).variables == old(self).variables,
            final(self).channels == old(self).channels,
            final(self).line == old(self).line,
    {
        let mut q: Vec<OutputFrame> = Vec::new();
        std::mem::swap(&mut self.queue, &mut q);
        q
    }
}

/// The dispatch engine: the sole owner of one session's state.
pub struct AmnisCore {
    /// The session state; a concurrent runner serializes every mutation
    /// through this one owner.
    pub state: AmnisState,
}

impl AmnisCore {
    /// A fresh session under the given plan: zero usage, no bindings, the
    /// default channel pre-seeded, an empty queue, line one.
    pub fn new(gas_plan: GasPlan) -> (r: Self)
        requires
            gas_plan.wf(),
        ensures
            r.state.wf(),
            r.state.gas_plan == gas_plan,
            r.state.gas_used.is_rigourous_spec(),
            r.state.gas_used.total() == 0,
            r.state.variables@.len() == 0,
            r.state.channels@.len() == 1,
            r.state.channels@[0].0 == 1,
            r.state.queue@.len() == 0,
            r.state.line == 1,
    {
        let mut channels: Vec<(i32, Channel)> = Vec::new();
        channels.push((1, Channel::new()));
        AmnisCore {
            state: AmnisState {
                gas_plan,
                gas_used: Gas::zero(),
                variables: Vec::new(),
                channels,
                queue: Vec::new(),
                line: 1,
            },
        }
    }
}

/// The frames of one channel, in delivery order.
pub open spec fn frames_on(q: Seq<OutputFrame>, c: int) -> Seq<OutputFrame> {
    q.filter(|f: OutputFrame| f.channel == c)
}

/// Law: enqueueing one frame appends it to its own channel's frame sequence
/// and leaves every other channel's sequence untouched: per-channel frame
/// order is preserved however enqueues from different channels interleave.
pub proof fn lemma_mux_push(q: Seq<OutputFrame>, f: OutputFrame, c: int)
    ensures
        f.channel == c ==> frames_on(q.push(f), c) == frames_on(q, c).push(f),
        f.channel != c ==> frames_on(q.push(f), c) == frames_on(q, c),
{
    reveal_with_fuel(Seq::filter, 1);
    assert(q.push(f).drop_last() =~= q);
    assert(q.push(f).last() == f);
}

/// Law: a queue built by one producer's frames following another's carries
/// each channel's frames in producer order; an output stream assembled from
/// per-channel runs is a valid interleaving, with cross-channel order
/// unconstrained.
pub proof fn lemma_mux_interleaving(q1: Seq<OutputFrame>, q2: Seq<OutputFrame>, c: int)
    ensures
        frames_on(q1 + q2, c) == frames_on(q1, c) + frames_on(q2, c),
    decreases q2.len(),
{
    reveal_with_fuel(Seq::filter, 1);
    if q2.len() == 0 {
        assert(q1 + q2 =~= q1);
        assert(frames_on(q2, c) =~= Seq::<OutputFrame>::empty());
        assert(frames_on(q1, c) + frames_on(q2, c) =~= frames_on(q1, c));
    } else {
        let rest = q2.drop_last();
        let f = q2.last();
        lemma_mux_interleaving(q1, rest, c);
        lemma_mux_push(q1 + rest, f, c);
        lemma_mux_push(rest, f, c);
        assert((q1 + rest).push(f) =~= q1 + q2);
        assert(rest.push(f) =~= q2);
        if f.channel == c {
            assert(frames_on(q1, c) + frames_on(rest, c).push(f) =~= (frames_on(q1, c)
                + frames_on(rest, c)).push(f));
        }
    }
}

} // verus!
