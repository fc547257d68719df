//! The response/notification demultiplexer: a pending-request table keyed by
//! correlation id and a subscription table keyed by channel name. Correlation
//! ids are allocated monotonically and are never reused while pending; a
//! response resolves exactly the slot registered under its id; a notification
//! reaches exactly the sink registered under its channel, or is dropped.
//!
//! The table owner is generic in the reply-slot type `S` and the sink type
//! `N`: the surrounding runtime supplies whatever one-shot and stream handles
//! it uses, and performs the actual hand-off with what these methods return.

use vstd::prelude::*;
use std::collections::HashMap;
use crate::strutil::string_eq_str;

verus! {

broadcast use vstd::std_specs::hash::group_hash_axioms;

/// The subscription table a pair list stands for: later entries win, though
/// the table never holds a channel twice.
pub open spec fn subs_map<N>(s: Seq<(String, N)>) -> Map<Seq<char>, N>
    decreases s.len(),
{
    if s.len() == 0 {
        Map::empty()
    } else {
        subs_map(s.drop_last()).insert(s.last().0@, s.last().1)
    }
}

/// No channel name appears twice in the pair list.
pub open spec fn channels_unique<N>(s: Seq<(String, N)>) -> bool {
    forall|i: int, j: int| 0 <= i < j < s.len() ==> s[i].0@ != s[j].0@
}

proof fn lemma_subs_map_domain<N>(s: Seq<(String, N)>, c: Seq<char>)
    ensures
        subs_map(s).contains_key(c) <==> exists|i: int| 0 <= i < s.len() && s[i].0@ == c,
    decreases s.len(),
{
    if s.len() > 0 {
        lemma_subs_map_domain(s.drop_last(), c);
        if s.last().0@ == c {
            assert(s[s.len() - 1].0@ == c);
        } else if subs_map(s).contains_key(c) {
            let i = choose|i: int| 0 <= i < s.drop_last().len() && s.drop_last()[i].0@ == c;
            assert(s[i].0@ == c);
        } else if exists|i: int| 0 <= i < s.len() && s[i].0@ == c {
            let i = choose|i: int| 0 <= i < s.len() && s[i].0@ == c;
            assert(s.drop_last()[i].0@ == c);
        }
    }
}

proof fn lemma_subs_map_at<N>(s: Seq<(String, N)>, i: int)
    requires
        channels_unique(s),
        0 <= i < s.len(),
    ensures
        subs_map(s).contains_key(s[i].0@),
        subs_map(s)[s[i].0@] == s[i].1,
    decreases s.len(),
{
    lemma_subs_map_domain(s, s[i].0@);
    if i < s.len() - 1 {
        assert(s.drop_last()[i] == s[i]);
        lemma_subs_map_at(s.drop_last(), i);
        assert(s[i].0@ != s.last().0@);
    }
}

proof fn lemma_subs_map_push<N>(s: Seq<(String, N)>, p: (String, N))
    ensures
        subs_map(s.push(p)) == subs_map(s).insert(p.0@, p.1),
{
    assert(s.push(p).drop_last() =~= s);
    assert(s.push(p).last() == p);
}

proof fn lemma_subs_map_remove<N>(s: Seq<(String, N)>, i: int)
    requires
        channels_unique(s),
        0 <= i < s.len(),
    ensures
        subs_map(s.remove(i)) =~= subs_map(s).remove(s[i].0@),
    decreases s.len(),
{
    let c = s[i].0@;
    if i == s.len() - 1 {
        assert(s.remove(i) =~= s.drop_last());
        lemma_subs_map_domain(s.drop_last(), c);
        assert(!subs_map(s.drop_last()).contains_key(c));
        assert(subs_map(s.drop_last()).insert(c, s.last().1).remove(c) =~= subs_map(
            s.drop_last(),
        ).remove(c));
        assert(subs_map(s.drop_last()).remove(c) =~= subs_map(s.drop_last()));
    } else {
        assert(s.remove(i).last() == s.last());
        assert(s.remove(i).drop_last() =~= s.drop_last().remove(i));
        assert(s.drop_last()[i] == s[i]);
        lemma_subs_map_remove(s.drop_last(), i);
        assert(c != s.last().0@);
        assert(subs_map(s.drop_last()).remove(c).insert(s.last().0@, s.last().1) =~= subs_map(
            s.drop_last(),
        ).insert(s.last().0@, s.last().1).remove(c));
    }
}

/// The demultiplexer: one instance per connection, shared by the reader loop
/// and by every caller issuing requests.
pub struct Dispatcher<S, N> {
    counter: u64,
    pending: HashMap<u64, S>,
    subs: Vec<(String, N)>,
}

impl<S, N> Dispatcher<S, N> {
    /// The last correlation id handed out; ids start above it at 1.
    pub closed spec fn counter_spec(&self) -> u64 {
        self.counter
    }

    /// The pending-request table: correlation id to reply slot.
    pub closed spec fn pending_view(&self) -> Map<u64, S> {
        self.pending@
    }

    /// The subscription table: channel name to sink.
    pub closed spec fn subs_view(&self) -> Map<Seq<char>, N> {
        subs_map(self.subs@)
    }

    /// Every pending id was allocated: it lies in `1 ..= counter`. This is
    /// what makes a fresh id impossible to confuse with a pending one.
    pub closed spec fn wf(&self) -> bool {
        &&& forall|k: u64| self.pending@.contains_key(k) ==> 1 <= k <= self.counter
        &&& channels_unique(self.subs@)
    }

    /// The last correlation id handed out.
    pub fn counter(&self) -> (c: u64)
        ensures
            c == self.counter_spec(),
    {
        self.counter
    }

    /// A fresh dispatcher: nothing pending, nothing subscribed, ids not yet
    /// begun.
    pub fn new() -> (d: Dispatcher<S, N>)
        ensures
            d.wf(),
            d.counter_spec() == 0,
            d.pending_view() == Map::<u64, S>::empty(),
            d.subs_view() == Map::<Seq<char>, N>::empty(),
    {
        let d = Dispatcher { counter: 0, pending: HashMap::new(), subs: Vec::new() };
        proof {
            assert(subs_map(d.subs@) =~= Map::<Seq<char>, N>::empty());
        }
        d
    }

    /// Allocates the next correlation id and registers the reply slot under
    /// it. The id is strictly greater than every id allocated before, so in
    /// particular it is not pending.
    pub fn allocate(&mut self, slot: S) -> (id: u64)
        requires
            old(self).wf(),
            old(self).counter_spec() < u64::MAX,
        ensures
            final(self).wf(),
            id == old(self).counter_spec() + 1,
            !old(self).pending_view().contains_key(id),
            final(self).counter_spec() == id,
            final(self).pending_view() == old(self).pending_view().insert(id, slot),
            final(self).subs_view() == old(self).subs_view(),
    {
        self.counter = self.counter + 1;
        let id = self.counter;
        self.pending.insert(id, slot);
        id
    }

    /// Resolves a correlation id: removes and returns the slot registered
    /// under it, exactly once; an id that is not pending (duplicate, late, or
    /// never allocated here) yields nothing and changes nothing.
    pub fn resolve(&mut self, id: u64) -> (r: Option<S>)
        requires
            old(self).wf(),
        ensures
            final(self).wf(),
            final(self).counter_spec() == old(self).counter_spec(),
            final(self).subs_view() == old(self).subs_view(),
            old(self).pending_view().contains_key(id) ==> r == Some(
                old(self).pending_view()[id],
            ) && final(self).pending_view() == old(self).pending_view().remove(id),
            !old(self).pending_view().contains_key(id) ==> r is None && final(self).pending_view()
                == old(self).pending_view(),
    {
        let r = self.pending.remove(&id);
        proof {
            if !old(self).pending@.contains_key(id) {
                assert(self.pending@ =~= old(self).pending@);
            }
        }
        r
    }

    /// Registers the sink for a channel, silently replacing any sink the
    /// channel already had: last writer wins.
    pub fn subscribe(&mut self, channel: String, sink: N)
        requires
            old(self).wf(),
        ensures
            final(self).wf(),
            final(self).counter_spec() == old(self).counter_spec(),
            final(self).pending_view() == old(self).pending_view(),
            final(self).subs_view() == old(self).subs_view().insert(channel@, sink),
    {
        self.unsubscribe(channel.as_str());
        let ghost mid = self.subs@;
        let ghost key = channel@;
        proof {
            lemma_subs_map_domain(mid, key);
        }
        self.subs.push((channel, sink));
        proof {
            lemma_subs_map_push(mid, self.subs@.last());
            assert(subs_map(self.subs@) =~= old(self).subs_view().insert(key, self.subs@.last().1));
            assert forall|i: int, j: int| 0 <= i < j < self.subs@.len() implies self.subs@[i].0@
                != self.subs@[j].0@ by {
                if j == self.subs@.len() - 1 {
                    assert(mid[i] == self.subs@[i]);
                    assert(!subs_map(mid).contains_key(key));
                }
            }
        }
    }

    /// Removes the sink for a channel; notifications for it are dropped from
    /// then on. A channel with no sink is left as it is.
    pub fn unsubscribe(&mut self, channel: &str)
        requires
            old(self).wf(),
        ensures
            final(self).wf(),
            final(self).counter_spec() == old(self).counter_spec(),
            final(self).pending_view() == old(self).pending_view(),
            final(self).subs_view() == old(self).subs_view().remove(channel@),
            !old(self).subs_view().contains_key(channel@) ==> final(self).subs_view() == old(
                self,
            ).subs_view(),
    {
        let ghost orig = self.subs@;
        let mut i: usize = 0;
        let mut found: Option<usize> = None;
        while i < self.subs.len()
            invariant
                self == old(self),
                i <= self.subs@.len(),
                match found {
                    Some(j) => j < i && self.subs@[j as int].0@ == channel@,
                    None => forall|j: int| 0 <= j < i ==> self.subs@[j].0@ != channel@,
                },
            decreases self.subs@.len() - i,
        {
            if found.is_none() && string_eq_str(&self.subs[i].0, channel) {
                found = Some(i);
            }
            i += 1;
        }
        match found {
            Some(j) => {
                self.subs.remove(j);
                proof {
                    lemma_subs_map_remove(orig, j as int);
                    assert(channels_unique(self.subs@)) by {
                        assert forall|a: int, b: int|
                            0 <= a < b < self.subs@.len() implies self.subs@[a].0@
                            != self.subs@[b].0@ by {
                            let a0 = if a < j { a } else { a + 1 };
                            let b0 = if b < j { b } else { b + 1 };
                            assert(self.subs@[a] == orig[a0] && self.subs@[b] == orig[b0]);
                        }
                    }
                }
            },
            None => {
                proof {
                    lemma_subs_map_domain(self.subs@, channel@);
                    assert(subs_map(self.subs@).remove(channel@) =~= subs_map(self.subs@));
                }
            },
        }
    }

    /// Looks up the sink a notification for this channel should reach:
    /// the registered sink, or nothing, in which case the notification is
    /// dropped by design.
    pub fn sink_for(&self, channel: &str) -> (r: Option<&N>)
        requires
            self.wf(),
        ensures
            self.subs_view().contains_key(channel@) ==> (r matches Some(n) && *n
                == self.subs_view()[channel@]),
            !self.subs_view().contains_key(channel@) ==> r is None,
    {
        let mut i: usize = 0;
        while i < self.subs.len()
            invariant
                self.wf(),
                i <= self.subs@.len(),
                forall|j: int| 0 <= j < i ==> self.subs@[j].0@ != channel@,
            decreases self.subs@.len() - i,
        {
            if string_eq_str(&self.subs[i].0, channel) {
                proof {
                    lemma_subs_map_at(self.subs@, i as int);
                }
                return Some(&self.subs[i].1);
            }
            i += 1;
        }
        proof {
            lemma_subs_map_domain(self.subs@, channel@);
        }
        None
    }
}


/// Resolution is isolated per caller: with two distinct pending ids,
/// resolving one returns exactly its own slot and leaves the other's slot in
/// place unchanged, whichever arrives first. No caller can receive another
/// caller's payload.
pub proof fn lemma_resolution_isolated<S>(pending: Map<u64, S>, a: u64, b: u64)
    requires
        pending.contains_key(a),
        pending.contains_key(b),
        a != b,
    ensures
        pending.remove(b).contains_key(a),
        pending.remove(b)[a] == pending[a],
        pending.remove(a).contains_key(b),
        pending.remove(a)[b] == pending[b],
{
}

/// Correlation ids are strictly increasing and never reused while pending:
/// the next id exceeds the counter and every id at or below the counter, so
/// in particular every pending one.
pub proof fn lemma_fresh_id<S>(counter: u64, pending: Map<u64, S>)
    requires
        counter < u64::MAX,
        forall|k: u64| pending.contains_key(k) ==> 1 <= k <= counter,
    ensures
        counter + 1 > counter,
        !pending.contains_key((counter + 1) as u64),
        forall|k: u64| pending.contains_key(k) ==> counter + 1 > k,
{
}

/// A notification arriving after a subscription for its channel reaches
/// exactly the registered sink; arriving when no subscription was ever made,
/// it finds no sink and is dropped without error.
pub proof fn lemma_subscription_delivery<N>(subs: Map<Seq<char>, N>, c: Seq<char>, sink: N)
    ensures
        subs.insert(c, sink).contains_key(c),
        subs.insert(c, sink)[c] == sink,
        !Map::<Seq<char>, N>::empty().contains_key(c),
{
}


/// A resolved entry is gone: whatever the response carried — a result, an
/// error, or faultily neither — matching it removes the entry, so it is
/// completed at most once and a duplicate finds nothing.
pub proof fn lemma_resolve_exactly_once<S>(pending: Map<u64, S>, id: u64)
    requires
        pending.contains_key(id),
    ensures
        !pending.remove(id).contains_key(id),
{
}

} // verus!
