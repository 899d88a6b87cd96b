//! The session-scoped name registry: a bidirectional name/id table with
//! monotonically increasing integer ids, starting at 1 and never reused.
use vstd::prelude::*;

use crate::Error;

verus! {

/// The id bound to `name` among `entries`, newest binding first, as a
/// registry lookup sees it.
pub open spec fn id_in(entries: Seq<(int, Seq<u8>)>, name: Seq<u8>) -> Option<int>
    decreases entries.len(),
{
    if entries.len() == 0 {
        None
    } else if entries.last().1 == name {
        Some(entries.last().0)
    } else {
        id_in(entries.drop_last(), name)
    }
}

/// The name bound to `id` among `entries`, newest binding first.
pub open spec fn name_in(entries: Seq<(int, Seq<u8>)>, id: int) -> Option<Seq<u8>>
    decreases entries.len(),
{
    if entries.len() == 0 {
        None
    } else if entries.last().0 == id {
        Some(entries.last().1)
    } else {
        name_in(entries.drop_last(), id)
    }
}

/// The session name registry.
///
/// Bindings live in one list, in registration order, so the two lookup
/// directions can never disagree. Registering a name that is already bound
/// allocates a fresh id and shadows the older binding; unregistering a name
/// drops every binding of it.
pub struct Namespace {
    /// The (id, name) bindings, oldest first.
    entries: Vec<(i32, Vec<u8>)>,
    /// The most recently allocated id; ids start at 1.
    last_id: i32,
}

impl Namespace {
    /// The bindings as a mathematical sequence of (id, name) pairs.
    pub closed spec fn entries(&self) -> Seq<(int, Seq<u8>)> {
        self.entries@.map_values(|e: (i32, Vec<u8>)| (e.0 as int, e.1@))
    }

    /// The most recently allocated id.
    pub closed spec fn last_id_spec(&self) -> int {
        self.last_id as int
    }

    /// Every id is positive, at most `last_id`, and bound at most once.
    pub open spec fn wf(&self) -> bool {
        &&& 0 <= self.last_id_spec() <= i32::MAX
        &&& forall|i: int|
            0 <= i < self.entries().len() ==> 1 <= (#[trigger] self.entries()[i]).0
                <= self.last_id_spec()
        &&& forall|i: int, j: int|
            0 <= i < j < self.entries().len() ==> (#[trigger] self.entries()[i]).0 != (
            #[trigger] self.entries()[j]).0
    }

    /// What `get_id` returns: the id of the newest binding of `name`.
    pub open spec fn id_of(&self, name: Seq<u8>) -> Option<int> {
        id_in(self.entries(), name)
    }

    /// What `get_name` returns: the name bound to `id`.
    pub open spec fn name_of(&self, id: int) -> Option<Seq<u8>> {
        name_in(self.entries(), id)
    }

    /// The most recently allocated id; 0 while nothing is registered. The
    /// registry cannot allocate past the 32-bit signed range.
    pub fn last_id(&self) -> (r: i32)
        ensures
            r == self.last_id_spec(),
    {
        self.last_id
    }

    /// An empty registry; the first registered name receives id 1.
    pub fn new() -> (r: Self)
        ensures
            r.wf(),
            r.entries().len() == 0,
            r.last_id_spec() == 0,
    {
        Namespace { entries: Vec::new(), last_id: 0 }
    }

    /// Registers `name` under a fresh id, one past the last id handed out.
    /// The fresh id collides with no id in the registry; an older binding of
    /// the same name is shadowed, not replaced.
    pub fn add_name(&mut self, name: &Vec<u8>) -> (id: i32)
        requires
            old(self).wf(),
            old(self).last_id_spec() < i32::MAX,
        ensures
            final(self).wf(),
            id == old(self).last_id_spec() + 1,
            final(self).last_id_spec() == old(self).last_id_spec() + 1,
            final(self).entries() == old(self).entries().push((id as int, name@)),
            final(self).id_of(name@) == Some(id as int),
            forall|i: int|
                0 <= i < old(self).entries().len() ==> (#[trigger] old(self).entries()[i]).0 != id,
    {
        self.last_id = self.last_id + 1;
        let id = self.last_id;
        let owned = crate::copy_bytes(name);
        self.entries.push((id, owned));
        proof {
            assert(self.entries() =~= old(self).entries().push((id as int, name@)));
            assert(self.entries().last() == (id as int, name@));
            assert(self.entries().drop_last() =~= old(self).entries());
        }
        id
    }

    /// The id of the newest binding of `name`, if any.
    pub fn get_id(&self, name: &Vec<u8>) -> (r: Option<i32>)
        ensures
            r matches Some(id) ==> self.id_of(name@) == Some(id as int),
            r is None ==> self.id_of(name@) is None,
    {
        let mut i = self.entries.len();
        proof {
            assert(self.entries().take(self.entries@.len() as int) =~= self.entries());
        }
        while i > 0
            invariant
                i <= self.entries.len(),
                self.id_of(name@) == id_in(self.entries().take(i as int), name@),
            decreases i,
        {
            i = i - 1;
            let e = &self.entries[i];
            if bytes_eq(&e.1, name) {
                proof {
                    assert(self.entries().take(i + 1).last() == self.entries()[i as int]);
                }
                return Some(e.0);
            }
            proof {
                assert(self.entries().take(i + 1).last() == self.entries()[i as int]);
                assert(self.entries().take(i + 1).drop_last() =~= self.entries().take(i as int));
            }
        }
        None
    }

    /// The name bound to `id`, if any, as an owned copy.
    pub fn get_name(&self, id: &i32) -> (r: Option<Vec<u8>>)
        ensures
            r matches Some(n) ==> self.name_of(*id as int) == Some(n@),
            r is None ==> self.name_of(*id as int) is None,
    {
        let mut i = self.entries.len();
        proof {
            assert(self.entries().take(self.entries@.len() as int) =~= self.entries());
        }
        while i > 0
            invariant
                i <= self.entries.len(),
                self.name_of(*id as int) == name_in(self.entries().take(i as int), *id as int),
            decreases i,
        {
            i = i - 1;
            let e = &self.entries[i];
            if e.0 == *id {
                proof {
                    assert(self.entries().take(i + 1).last() == self.entries()[i as int]);
                }
                return Some(crate::copy_bytes(&e.1));
            }
            proof {
                assert(self.entries().take(i + 1).last() == self.entries()[i as int]);
                assert(self.entries().take(i + 1).drop_last() =~= self.entries().take(i as int));
            }
        }
        None
    }

    /// The id of the newest binding of `name`, or [`Error::InvalidInput`]
    /// where the name was never declared: how statement inputs and channel
    /// names are required to pre-exist.
    pub fn try_get_id(&self, name: &Vec<u8>) -> (r: Result<i32, Error>)
        ensures
            r matches Ok(id) ==> self.id_of(name@) == Some(id as int),
            r matches Err(e) ==> e == Error::InvalidInput && self.id_of(name@) is None,
    {
        match self.get_id(name) {
            Some(id) => Ok(id),
            None => Err(Error::InvalidInput),
        }
    }

    /// Unregisters `name`: drops every binding of it, so that neither lookup
    /// direction can still see the name. Returns the id of the newest dropped
    /// binding. Ids are never reallocated: `last_id` stays.
    pub fn remove_name(&mut self, name: &Vec<u8>) -> (r: Option<i32>)
        requires
            old(self).wf(),
        ensures
            final(self).wf(),
            final(self).last_id_spec() == old(self).last_id_spec(),
            final(self).entries() == old(self).entries().filter(
                |e: (int, Seq<u8>)| e.1 != name@,
            ),
            r matches Some(id) ==> old(self).id_of(name@) == Some(id as int),
            r is None ==> old(self).id_of(name@) is None,
    {
        let ghost pred = |e: (int, Seq<u8>)| e.1 != name@;
        let mut kept: Vec<(i32, Vec<u8>)> = Vec::new();
        let mut removed: Option<i32> = None;
        let mut i: usize = 0;
        proof {
            reveal_with_fuel(Seq::filter, 1);
            assert(self.entries().take(0) =~= Seq::<(int, Seq<u8>)>::empty());
            assert(kept@.map_values(|e: (i32, Vec<u8>)| (e.0 as int, e.1@)) =~= self.entries()
                .take(0).filter(pred));
        }
        while i < self.entries.len()
            invariant
                i <= self.entries.len(),
                kept@.map_values(|e: (i32, Vec<u8>)| (e.0 as int, e.1@)) == self.entries().take(
                    i as int,
                ).filter(pred),
                pred == (|e: (int, Seq<u8>)| e.1 != name@),
                removed matches Some(id) ==> id_in(self.entries().take(i as int), name@) == Some(
                    id as int,
                ),
                removed is None ==> id_in(self.entries().take(i as int), name@) is None,
            decreases self.entries.len() - i,
        {
            let e = &self.entries[i];
            proof {
                assert(self.entries().take(i + 1).last() == self.entries()[i as int]);
                assert(self.entries().take(i + 1).drop_last() =~= self.entries().take(i as int));
                assert(self.entries().take(i + 1) =~= self.entries().take(i as int).push(
                    self.entries()[i as int],
                ));
                lemma_filter_push(self.entries().take(i as int), pred, self.entries()[i as int]);
            }
            if bytes_eq(&e.1, name) {
                proof {
                    assert(!pred(self.entries()[i as int]));
                }
                removed = Some(e.0);
            } else {
                proof {
                    assert(pred(self.entries()[i as int]));
                }
                kept.push((e.0, crate::copy_bytes(&e.1)));
                proof {
                    assert(kept@.map_values(|e: (i32, Vec<u8>)| (e.0 as int, e.1@)) =~= self
                        .entries().take(i + 1).filter(pred));
                }
            }
            i = i + 1;
        }
        proof {
            assert(self.entries().take(self.entries@.len() as int) =~= self.entries());
            lemma_filter_wf(self.entries(), pred, self.last_id as int);
        }
        self.entries = kept;
        removed
    }

    /// Unregisters the binding of `id`, if any, returning its name. Other
    /// bindings, including other bindings of the same name, stay.
    pub fn remove_id(&mut self, id: &i32) -> (r: Option<Vec<u8>>)
        requires
            old(self).wf(),
        ensures
            final(self).wf(),
            final(self).last_id_spec() == old(self).last_id_spec(),
            final(self).entries() == old(self).entries().filter(
                |e: (int, Seq<u8>)| e.0 != *id as int,
            ),
            r matches Some(n) ==> old(self).name_of(*id as int) == Some(n@),
            r is None ==> old(self).name_of(*id as int) is None,
    {
        let ghost pred = |e: (int, Seq<u8>)| e.0 != *id as int;
        let mut kept: Vec<(i32, Vec<u8>)> = Vec::new();
        let mut removed: Option<Vec<u8>> = None;
        let mut i: usize = 0;
        proof {
            reveal_with_fuel(Seq::filter, 1);
            assert(self.entries().take(0) =~= Seq::<(int, Seq<u8>)>::empty());
            assert(kept@.map_values(|e: (i32, Vec<u8>)| (e.0 as int, e.1@)) =~= self.entries()
                .take(0).filter(pred));
        }
        while i < self.entries.len()
            invariant
                i <= self.entries.len(),
                kept@.map_values(|e: (i32, Vec<u8>)| (e.0 as int, e.1@)) == self.entries().take(
                    i as int,
                ).filter(pred),
                pred == (|e: (int, Seq<u8>)| e.0 != *id as int),
                removed matches Some(n) ==> name_in(self.entries().take(i as int), *id as int)
                    == Some(n@),
                removed is None ==> name_in(self.entries().take(i as int), *id as int) is None,
            decreases self.entries.len() - i,
        {
            let e = &self.entries[i];
            proof {
                assert(self.entries().take(i + 1).last() == self.entries()[i as int]);
                assert(self.entries().take(i + 1).drop_last() =~= self.entries().take(i as int));
                assert(self.entries().take(i + 1) =~= self.entries().take(i as int).push(
                    self.entries()[i as int],
                ));
                lemma_filter_push(self.entries().take(i as int), pred, self.entries()[i as int]);
            }
            if e.0 == *id {
                proof {
                    assert(!pred(self.entries()[i as int]));
                }
                removed = Some(crate::copy_bytes(&e.1));
            } else {
                proof {
                    assert(pred(self.entries()[i as int]));
                }
                kept.push((e.0, crate::copy_bytes(&e.1)));
                proof {
                    assert(kept@.map_values(|e: (i32, Vec<u8>)| (e.0 as int, e.1@)) =~= self
                        .entries().take(i + 1).filter(pred));
                }
            }
            i = i + 1;
        }
        proof {
            assert(self.entries().take(self.entries@.len() as int) =~= self.entries());
            lemma_filter_wf(self.entries(), pred, self.last_id as int);
        }
        self.entries = kept;
        removed
    }
}

/// Filtering a sequence extended by one element keeps the element exactly
/// when the predicate holds of it.
proof fn lemma_filter_push<A>(s: Seq<A>, pred: spec_fn(A) -> bool, x: A)
    ensures
        pred(x) ==> s.push(x).filter(pred) == s.filter(pred).push(x),
        !pred(x) ==> s.push(x).filter(pred) == s.filter(pred),
{
    reveal(Seq::filter);
    assert(s.push(x).drop_last() =~= s);
    assert(s.push(x).last() == x);
}

/// Filtering a well-formed binding list keeps every id positive, bounded by
/// `last`, and bound at most once.
proof fn lemma_filter_wf(s: Seq<(int, Seq<u8>)>, pred: spec_fn((int, Seq<u8>)) -> bool, last: int)
    requires
        forall|i: int| 0 <= i < s.len() ==> 1 <= (#[trigger] s[i]).0 <= last,
        forall|i: int, j: int| 0 <= i < j < s.len() ==> (#[trigger] s[i]).0 != (#[trigger] s[j]).0,
    ensures
        forall|i: int|
            0 <= i < s.filter(pred).len() ==> 1 <= (#[trigger] s.filter(pred)[i]).0 <= last,
        forall|i: int, j: int|
            0 <= i < j < s.filter(pred).len() ==> (#[trigger] s.filter(pred)[i]).0 != (
            #[trigger] s.filter(pred)[j]).0,
    decreases s.len(),
{
    reveal_with_fuel(Seq::filter, 1);
    if s.len() > 0 {
        let rest = s.drop_last();
        let x = s.last();
        lemma_filter_wf(rest, pred, last);
        assert forall|i: int|
            0 <= i < rest.filter(pred).len() implies (#[trigger] rest.filter(pred)[i]).0
            != x.0 by {
            assert(rest.filter(pred).contains(rest.filter(pred)[i]));
            rest.lemma_filter_contains_rev(pred, rest.filter(pred)[i]);
            let j = choose|j: int| 0 <= j < rest.len() && rest[j] == rest.filter(pred)[i];
            assert(s[j] == rest[j]);
            assert(s[s.len() - 1] == x);
        }
        if pred(x) {
            assert(s.filter(pred) =~= rest.filter(pred).push(x));
        } else {
            assert(s.filter(pred) =~= rest.filter(pred));
        }
    }
}

/// Whole sequences of bytes compare equal exactly when they agree pointwise.
pub fn bytes_eq(a: &Vec<u8>, b: &Vec<u8>) -> (r: bool)
    ensures
        r == (a@ == b@),
{
    if a.len() != b.len() {
        proof {
            assert(a@.len() != b@.len());
        }
        return false;
    }
    let mut i: usize = 0;
    while i < a.len()
        invariant
            i <= a.len(),
            a@.len() == b@.len(),
            forall|j: int| 0 <= j < i ==> a@[j] == b@[j],
        decreases a.len() - i,
    {
        if a[i] != b[i] {
            return false;
        }
        i = i + 1;
    }
    proof {
        assert(a@ =~= b@);
    }
    true
}

/// Law: in one session the registry never hands out a colliding id. Every id
/// recorded in the registry is bound at most once and never exceeds
/// `last_id`, so the fresh id `last_id + 1` that the next registration
/// returns collides with none of them.
pub proof fn lemma_register_never_collides(ns: Namespace)
    requires
        ns.wf(),
    ensures
        forall|i: int, j: int|
            0 <= i < j < ns.entries().len() ==> (#[trigger] ns.entries()[i]).0 != (
            #[trigger] ns.entries()[j]).0,
        forall|i: int|
            0 <= i < ns.entries().len() ==> (#[trigger] ns.entries()[i]).0
                != ns.last_id_spec() + 1,
{
}

/// Law: unregistering a name leaves both lookup directions consistently
/// absent: the name resolves to no id, and no id that was bound to the name
/// resolves to anything.
pub proof fn lemma_unregister_absent(pre: Namespace, post: Namespace, name: Seq<u8>)
    requires
        pre.wf(),
        post.entries() == pre.entries().filter(|e: (int, Seq<u8>)| e.1 != name),
    ensures
        post.id_of(name) is None,
        forall|id: int| pre.name_of(id) == Some(name) ==> post.name_of(id) is None,
{
    let pred = |e: (int, Seq<u8>)| e.1 != name;
    let filtered = pre.entries().filter(pred);
    assert forall|i: int| 0 <= i < filtered.len() implies (#[trigger] filtered[i]).1 != name by {
        pre.entries().lemma_filter_pred(pred, i);
    }
    lemma_id_in_all_differ(filtered, name);
    assert forall|id: int| pre.name_of(id) == Some(name) implies post.name_of(id) is None by {
        lemma_name_in_found(pre.entries(), id);
        let k = choose|k: int|
            0 <= k < pre.entries().len() && (#[trigger] pre.entries()[k]).0 == id
                && pre.entries()[k].1 == name_in(pre.entries(), id)->0;
        assert forall|i: int| 0 <= i < filtered.len() implies (#[trigger] filtered[i]).0 != id by {
            pre.entries().lemma_filter_pred(pred, i);
            assert(filtered.contains(filtered[i]));
            pre.entries().lemma_filter_contains_rev(pred, filtered[i]);
            let j = choose|j: int|
                0 <= j < pre.entries().len() && pre.entries()[j] == filtered[i];
            assert(pre.entries()[j] == filtered[i]);
        }
        lemma_name_in_absent(filtered, id);
    }
}

/// A name bound by no entry resolves to no id.
proof fn lemma_id_in_all_differ(entries: Seq<(int, Seq<u8>)>, name: Seq<u8>)
    requires
        forall|i: int| 0 <= i < entries.len() ==> (#[trigger] entries[i]).1 != name,
    ensures
        id_in(entries, name) is None,
    decreases entries.len(),
{
    if entries.len() > 0 {
        lemma_id_in_all_differ(entries.drop_last(), name);
    }
}

/// An id bound by no entry resolves to no name.
proof fn lemma_name_in_absent(entries: Seq<(int, Seq<u8>)>, id: int)
    requires
        forall|i: int| 0 <= i < entries.len() ==> (#[trigger] entries[i]).0 != id,
    ensures
        name_in(entries, id) is None,
    decreases entries.len(),
{
    if entries.len() > 0 {
        lemma_name_in_absent(entries.drop_last(), id);
    }
}

/// A resolved id is bound by some entry, to the name it resolved to.
proof fn lemma_name_in_found(entries: Seq<(int, Seq<u8>)>, id: int)
    requires
        name_in(entries, id) is Some,
    ensures
        exists|i: int|
            0 <= i < entries.len() && (#[trigger] entries[i]).0 == id && entries[i].1 == name_in(
                entries,
                id,
            )->0,
    decreases entries.len(),
{
    if entries.len() > 0 {
        if entries.last().0 == id {
            assert(entries[entries.len() - 1].0 == id);
        } else {
            lemma_name_in_found(entries.drop_last(), id);
            let i = choose|i: int|
                0 <= i < entries.drop_last().len() && (#[trigger] entries.drop_last()[i]).0 == id
                    && entries.drop_last()[i].1 == name_in(entries.drop_last(), id)->0;
            assert(entries[i] == entries.drop_last()[i]);
        }
    }
}

} // verus!
