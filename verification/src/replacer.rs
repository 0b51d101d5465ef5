//! The LRU-K policy that picks the frame to give up.
use std::collections::HashSet;
use vstd::prelude::*;

use crate::error::{RustDBError, RustDBResult};
use crate::page::FrameId;

verus! {

broadcast use vstd::std_specs::hash::group_hash_axioms;

/// How often `frame_id` occurs in `log`.
pub open spec fn occurrences(log: Seq<FrameId>, frame_id: FrameId) -> nat
    decreases log.len(),
{
    if log.len() == 0 {
        0
    } else {
        occurrences(log.drop_last(), frame_id) + if log.last() == frame_id {
            1nat
        } else {
            0nat
        }
    }
}

/// The least position at which `frame_id` occurs in `log`.
pub open spec fn first_position(log: Seq<FrameId>, frame_id: FrameId) -> int {
    choose|i: int|
        0 <= i < log.len() && log[i] == frame_id && forall|j: int| 0 <= j < i ==> log[j] != frame_id
}

/// The records of all frames but `frame_id`, in their order.
pub open spec fn without(log: Seq<FrameId>, frame_id: FrameId) -> Seq<FrameId> {
    log.filter(|f: FrameId| f != frame_id)
}

/// What the replacer knows, as a mathematical value.
#[verifier::ext_equal]
pub struct ReplacerState {
    /// The most recent accesses, oldest first: of each frame the last `k`, or
    /// all of them where there were fewer.
    pub log: Seq<FrameId>,
    /// The frames that may be given up.
    pub evictable: Set<FrameId>,
    /// How many accesses of each frame count.
    pub k: nat,
}

impl ReplacerState {
    /// No frame is known.
    pub open spec fn empty(k: nat) -> ReplacerState {
        ReplacerState { log: Seq::empty(), evictable: Set::empty(), k }
    }

    /// Whether accesses of the frame are on record.
    pub open spec fn tracks(self, frame_id: FrameId) -> bool {
        self.log.contains(frame_id)
    }

    /// Whether the frame may be given up.
    pub open spec fn may_evict(self, frame_id: FrameId) -> bool {
        self.tracks(frame_id) && self.evictable.contains(frame_id)
    }

    /// Whether fewer than `k` accesses of the frame are on record, so that its
    /// backward k-distance is infinite.
    pub open spec fn is_young(self, frame_id: FrameId) -> bool {
        occurrences(self.log, frame_id) < self.k
    }

    /// Whether `f` goes before `g`: its backward k-distance is greater, or both
    /// are infinite and its first access is older. The oldest access on record
    /// of a frame that is not young is its k-th most recent one.
    pub open spec fn goes_before(self, f: FrameId, g: FrameId) -> bool {
        if self.is_young(f) == self.is_young(g) {
            first_position(self.log, f) < first_position(self.log, g)
        } else {
            self.is_young(f)
        }
    }

    /// Whether `f` is the frame to give up.
    pub open spec fn is_victim(self, f: FrameId) -> bool {
        &&& self.may_evict(f)
        &&& forall|g: FrameId| #[trigger] self.may_evict(g) && g != f ==> self.goes_before(f, g)
    }

    /// The frame to give up, if any may be.
    pub open spec fn victim(self) -> Option<FrameId> {
        if exists|f: FrameId| self.may_evict(f) {
            Some(choose|f: FrameId| self.is_victim(f))
        } else {
            None
        }
    }

    /// The state after an access of the frame: the access is recorded, and the
    /// oldest one of the frame dropped where it no longer counts.
    pub open spec fn access(self, frame_id: FrameId) -> ReplacerState {
        let log = self.log.push(frame_id);
        ReplacerState {
            log: if occurrences(self.log, frame_id) >= self.k && self.log.contains(frame_id) {
                log.remove(first_position(log, frame_id))
            } else {
                log
            },
            ..self
        }
    }

    /// The state after a known frame was marked; one that is not known stays
    /// so.
    pub open spec fn mark(self, frame_id: FrameId, evictable: bool) -> ReplacerState {
        if !self.tracks(frame_id) {
            self
        } else if evictable {
            ReplacerState { evictable: self.evictable.insert(frame_id), ..self }
        } else {
            ReplacerState { evictable: self.evictable.remove(frame_id), ..self }
        }
    }

    /// Whether the frame can be removed: it may be given up, or is not known.
    pub open spec fn can_remove(self, frame_id: FrameId) -> bool {
        self.tracks(frame_id) ==> self.evictable.contains(frame_id)
    }

    /// The state without the frame.
    pub open spec fn forget(self, frame_id: FrameId) -> ReplacerState {
        ReplacerState {
            log: without(self.log, frame_id),
            evictable: self.evictable.remove(frame_id),
            ..self
        }
    }
}

/// A frame on record has a first position.
pub proof fn lemma_first_position(log: Seq<FrameId>, frame_id: FrameId)
    requires
        log.contains(frame_id),
    ensures
        0 <= first_position(log, frame_id) < log.len(),
        log[first_position(log, frame_id)] == frame_id,
        forall|j: int| 0 <= j < first_position(log, frame_id) ==> log[j] != frame_id,
{
    log.index_of_first_ensures(frame_id);
    let i = log.index_of_first(frame_id)->0;
    assert(0 <= i < log.len() && log[i] == frame_id && forall|j: int|
        0 <= j < i ==> log[j] != frame_id);
}

/// Dropping the records of one frame leaves those of the others.
pub proof fn lemma_without(log: Seq<FrameId>, frame_id: FrameId)
    ensures
        forall|f: FrameId| #[trigger]
            without(log, frame_id).contains(f) <==> log.contains(f) && f != frame_id,
    decreases log.len(),
{
    reveal(Seq::filter);
    if log.len() > 0 {
        let rest = log.drop_last();
        let last = log.last();
        lemma_without(rest, frame_id);
        assert(log =~= rest.push(last));
        assert forall|f: FrameId| #[trigger]
            without(log, frame_id).contains(f) <==> log.contains(f) && f != frame_id by {
            lemma_push_contains(rest, last, f);
            lemma_push_contains(without(rest, frame_id), last, f);
            assert(without(rest, frame_id).contains(f) <==> rest.contains(f) && f != frame_id);
        }
    }
}

/// What a sequence holds after a push.
pub proof fn lemma_push_contains(s: Seq<FrameId>, last: FrameId, f: FrameId)
    ensures
        s.push(last).contains(f) <==> s.contains(f) || f == last,
{
    let t = s.push(last);
    assert(t[s.len() as int] == last);
    if s.contains(f) {
        assert(t[s.index_of(f)] == f);
    }
    if t.contains(f) && f != last {
        assert(s[t.index_of(f)] == f);
    }
}

/// After an access the replacer tracks that frame and those it tracked before.
pub proof fn lemma_access_tracks(state: ReplacerState, frame_id: FrameId)
    ensures
        forall|f: FrameId| #[trigger]
            state.access(frame_id).tracks(f) <==> state.tracks(f) || f == frame_id,
{
    let pushed = state.log.push(frame_id);
    let log = state.access(frame_id).log;
    assert forall|f: FrameId| #[trigger]
        state.access(frame_id).tracks(f) <==> state.tracks(f) || f == frame_id by {
        lemma_push_contains(state.log, frame_id, f);
        if log != pushed {
            let i = state.log.index_of(frame_id);
            assert(pushed[i] == frame_id);
            lemma_first_position(pushed, frame_id);
            let cut = first_position(pushed, frame_id);
            assert(cut <= i);
            assert(log == pushed.remove(cut));
            assert(log[log.len() - 1] == frame_id);
            if log.contains(f) {
                let j = log.index_of(f);
                assert(pushed[if j < cut {
                    j
                } else {
                    j + 1
                }] == f);
            }
            if pushed.contains(f) && f != frame_id {
                let j = pushed.index_of(f);
                assert(log[if j < cut {
                    j
                } else {
                    j - 1
                }] == f);
            }
        }
    }
}

/// Two frames that both come first are the same frame.
pub proof fn lemma_victim_is_unique(state: ReplacerState, f: FrameId, g: FrameId)
    requires
        state.is_victim(f),
        state.is_victim(g),
    ensures
        f == g,
{
    if f != g {
        assert(state.may_evict(f) && state.may_evict(g));
        assert(state.goes_before(f, g) && state.goes_before(g, f));
    }
}

/// How often a frame occurs after a push.
proof fn lemma_occurrences_push(log: Seq<FrameId>, last: FrameId, f: FrameId)
    ensures
        occurrences(log.push(last), f) == occurrences(log, f) + if last == f {
            1nat
        } else {
            0nat
        },
{
    assert(log.push(last).drop_last() =~= log);
}

/// How often a frame occurs after one record was dropped.
proof fn lemma_occurrences_remove(log: Seq<FrameId>, i: int, f: FrameId)
    requires
        0 <= i < log.len(),
    ensures
        occurrences(log, f) == occurrences(log.remove(i), f) + if log[i] == f {
            1nat
        } else {
            0nat
        },
    decreases log.len(),
{
    if i == log.len() - 1 {
        assert(log.remove(i) =~= log.drop_last());
    } else {
        lemma_occurrences_remove(log.drop_last(), i, f);
        assert(log.remove(i).drop_last() =~= log.drop_last().remove(i));
    }
}

/// An access adds a record of that frame until there are `k`; from then on it
/// replaces the oldest one. Of the other frames nothing is added or dropped.
pub proof fn law_last_k_accesses_count(state: ReplacerState, frame_id: FrameId, f: FrameId)
    ensures
        occurrences(state.access(frame_id).log, f) == if f != frame_id {
            occurrences(state.log, f)
        } else if state.tracks(f) && occurrences(state.log, f) >= state.k {
            occurrences(state.log, f)
        } else {
            occurrences(state.log, f) + 1
        },
        state.access(frame_id).log.last() == frame_id,
{
    let pushed = state.log.push(frame_id);
    lemma_occurrences_push(state.log, frame_id, f);
    if state.tracks(frame_id) && occurrences(state.log, frame_id) >= state.k {
        let i = state.log.index_of(frame_id);
        assert(pushed[i] == frame_id);
        lemma_first_position(pushed, frame_id);
        assert(first_position(pushed, frame_id) <= i);
        lemma_occurrences_remove(pushed, first_position(pushed, frame_id), f);
    }
}

/// The accesses that are among the last `n` of their frame, in their order.
pub open spec fn recent(history: Seq<FrameId>, n: nat) -> Seq<FrameId>
    decreases history.len(),
{
    if history.len() == 0 {
        Seq::empty()
    } else {
        let rest = history.drop_first();
        if occurrences(rest, history.first()) < n {
            seq![history.first()] + recent(rest, n)
        } else {
            recent(rest, n)
        }
    }
}

/// The state after a history of accesses.
pub open spec fn after_accesses(history: Seq<FrameId>, k: nat) -> ReplacerState
    decreases history.len(),
{
    if history.len() == 0 {
        ReplacerState::empty(k)
    } else {
        after_accesses(history.drop_last(), k).access(history.last())
    }
}

/// How often a frame occurs in a log with a record in front.
proof fn lemma_occurrences_front(first: FrameId, log: Seq<FrameId>, f: FrameId)
    ensures
        occurrences(seq![first] + log, f) == occurrences(log, f) + if first == f {
            1nat
        } else {
            0nat
        },
{
    let whole = seq![first] + log;
    lemma_occurrences_remove(whole, 0, f);
    assert(whole.remove(0) =~= log);
}

/// A frame occurs in a log exactly when it is on record.
proof fn lemma_occurrences_contains(log: Seq<FrameId>, f: FrameId)
    ensures
        occurrences(log, f) > 0 <==> log.contains(f),
    decreases log.len(),
{
    if log.len() > 0 {
        lemma_occurrences_contains(log.drop_last(), f);
        assert(log =~= log.drop_last().push(log.last()));
        lemma_push_contains(log.drop_last(), log.last(), f);
    }
}

/// Of each frame the last `n` accesses are recent, or all where there are fewer.
proof fn lemma_recent_occurrences(history: Seq<FrameId>, n: nat, f: FrameId)
    ensures
        occurrences(recent(history, n), f) == if occurrences(history, f) < n {
            occurrences(history, f)
        } else {
            n
        },
    decreases history.len(),
{
    if history.len() > 0 {
        let rest = history.drop_first();
        lemma_recent_occurrences(rest, n, f);
        lemma_occurrences_front(history.first(), rest, f);
        assert(seq![history.first()] + rest =~= history);
        lemma_occurrences_front(history.first(), recent(rest, n), f);
    }
}

/// A record of another frame in front does not change what an access does.
proof fn lemma_access_behind(first: FrameId, older: ReplacerState, f: FrameId)
    requires
        first != f,
    ensures
        (ReplacerState { log: seq![first] + older.log, ..older }).access(f).log == seq![first]
            + older.access(f).log,
{
    let log = seq![first] + older.log;
    lemma_occurrences_front(first, older.log, f);
    lemma_occurrences_contains(older.log, f);
    lemma_occurrences_contains(log, f);
    assert(log.push(f) =~= seq![first] + older.log.push(f));
    if older.log.contains(f) {
        let short = older.log.push(f);
        let long = log.push(f);
        assert(short[short.len() - 1] == f);
        assert(long[long.len() - 1] == f);
        lemma_first_position(short, f);
        lemma_first_position(long, f);
        let p = first_position(short, f);
        let q = first_position(long, f);
        assert(long[p + 1] == short[p]);
        assert(long[0] == first);
        assert(short[q - 1] == long[q]);
        assert(long.remove(q) =~= seq![first] + short.remove(p));
    }
}

/// An access of the frame whose record is in front drops that record, where all
/// that count are there already.
proof fn lemma_access_in_front(older: ReplacerState, f: FrameId)
    ensures
        (ReplacerState { log: seq![f] + older.log, ..older }).access(f).log == if occurrences(
            older.log,
            f,
        ) + 1 >= older.k {
            older.log.push(f)
        } else {
            seq![f] + older.log.push(f)
        },
{
    let log = seq![f] + older.log;
    lemma_occurrences_front(f, older.log, f);
    assert(log[0] == f);
    assert(log.contains(f));
    assert(log.push(f)[0] == f);
    assert(log.push(f).contains(f));
    lemma_first_position(log.push(f), f);
    assert(log.push(f).remove(0) =~= older.log.push(f));
    assert(log.push(f) =~= seq![f] + older.log.push(f));
}

/// One more access changes the recent accesses as it changes the records.
proof fn lemma_recent_push(history: Seq<FrameId>, f: FrameId, state: ReplacerState, n: nat)
    requires
        n == if state.k == 0 {
            1
        } else {
            state.k
        },
        state.log == recent(history, n),
    ensures
        state.access(f).log == recent(history.push(f), n),
    decreases history.len(),
{
    if history.len() == 0 {
        let rest = history.push(f).drop_first();
        assert(rest =~= Seq::empty());
        assert(recent(rest, n) =~= Seq::empty());
        assert(history.push(f).first() == f);
        assert(occurrences(rest, f) == 0);
        assert(state.log =~= Seq::empty());
        assert(!state.log.contains(f));
        assert(state.access(f).log =~= recent(history.push(f), n));
    } else {
        let first = history.first();
        let rest = history.drop_first();
        let older = ReplacerState { log: recent(rest, n), ..state };
        lemma_recent_push(rest, f, older, n);
        assert(history.push(f).drop_first() =~= rest.push(f));
        lemma_occurrences_push(rest, f, first);
        if occurrences(rest, first) < n {
            assert(state == ReplacerState { log: seq![first] + older.log, ..older });
            if first == f {
                lemma_access_in_front(older, f);
                lemma_recent_occurrences(rest, n, f);
                lemma_occurrences_contains(older.log, f);
            } else {
                lemma_access_behind(first, older, f);
            }
        } else {
            assert(state == older);
        }
    }
}

/// The records are the last `k` accesses of each frame, or all where there were
/// fewer, in the order in which they happened; with `k` of 0, the last one.
pub proof fn law_records_are_the_last_k_accesses(history: Seq<FrameId>, k: nat)
    ensures
        after_accesses(history, k).k == k,
        after_accesses(history, k).log == recent(
            history,
            if k == 0 {
                1
            } else {
                k
            },
        ),
    decreases history.len(),
{
    if history.len() > 0 {
        let earlier = history.drop_last();
        law_records_are_the_last_k_accesses(earlier, k);
        assert(earlier.push(history.last()) =~= history);
        lemma_recent_push(
            earlier,
            history.last(),
            after_accesses(earlier, k),
            if k == 0 {
                1
            } else {
                k
            },
        );
    }
}

/// Where some frame may be given up, exactly one frame comes first, and it is
/// the victim.
pub proof fn law_victim_comes_first(state: ReplacerState)
    ensures
        match state.victim() {
            Some(f) => state.is_victim(f) && forall|g: FrameId| #[trigger]
                state.is_victim(g) ==> g == f,
            None => forall|f: FrameId| !#[trigger] state.may_evict(f),
        },
{
    if exists|f: FrameId| state.may_evict(f) {
        let any = choose|f: FrameId| state.may_evict(f);
        let young = exists|f: FrameId| state.may_evict(f) && state.is_young(f);
        let start = if young {
            choose|f: FrameId| state.may_evict(f) && state.is_young(f)
        } else {
            any
        };
        lemma_first_position(state.log, start);
        let i = lemma_least_candidate(state, young, first_position(state.log, start));
        let f = state.log[i];
        assert(state.may_evict(f));
        lemma_first_position(state.log, f);
        assert forall|g: FrameId| #[trigger]
            state.may_evict(g) && g != f implies state.goes_before(f, g) by {
            lemma_first_position(state.log, g);
        }
        assert(state.is_victim(f));
        assert forall|g: FrameId| #[trigger] state.is_victim(g) implies g
            == state.victim()->0 by {
            lemma_victim_is_unique(state, g, state.victim()->0);
        }
    }
}

/// Up to a record of a frame that may be given up there is a first such record.
/// Where `young` is set, only frames that are young count.
proof fn lemma_least_candidate(state: ReplacerState, young: bool, i: int) -> (least: int)
    requires
        0 <= i < state.log.len(),
        state.evictable.contains(state.log[i]),
        young ==> state.is_young(state.log[i]),
    ensures
        0 <= least <= i,
        state.evictable.contains(state.log[least]),
        young ==> state.is_young(state.log[least]),
        forall|j: int|
            0 <= j < least && state.evictable.contains(#[trigger] state.log[j]) ==> young
                && !state.is_young(state.log[j]),
    decreases i,
{
    if exists|j: int|
        0 <= j < i && state.evictable.contains(#[trigger] state.log[j]) && (young
            ==> state.is_young(state.log[j])) {
        let j = choose|j: int|
            0 <= j < i && state.evictable.contains(#[trigger] state.log[j]) && (young
                ==> state.is_young(state.log[j]));
        lemma_least_candidate(state, young, j)
    } else {
        i
    }
}

/// The LRU-K replacer: it records which frames are accessed, and picks the one
/// to give up.
///
/// Of the frames that may be given up it picks the one whose k-th most recent
/// access is the oldest. A frame with fewer than `k` accesses goes before all
/// that have `k`, and among such frames the one with the oldest access goes
/// first. `k` of 0 acts like 1.
pub struct LruKReplacer {
    log: Vec<FrameId>,
    evictable: HashSet<FrameId>,
    k: usize,
}

impl View for LruKReplacer {
    type V = ReplacerState;

    closed spec fn view(&self) -> ReplacerState {
        ReplacerState { log: self.log@, evictable: self.evictable@, k: self.k as nat }
    }
}

impl LruKReplacer {
    /// A replacer that knows of no access, and counts the last `k` of each frame.
    pub fn new(k: usize) -> (replacer: LruKReplacer)
        ensures
            replacer@ == ReplacerState::empty(k as nat),
    {
        LruKReplacer { log: Vec::new(), evictable: HashSet::new(), k }
    }

    /// How many accesses of the frame are on record.
    fn count(&self, frame_id: FrameId) -> (count: usize)
        ensures
            count == occurrences(self@.log, frame_id),
    {
        let mut count: usize = 0;
        let mut i: usize = 0;
        while i < self.log.len()
            invariant
                i <= self.log.len(),
                count <= i,
                count == occurrences(self.log@.take(i as int), frame_id),
            decreases self.log.len() - i,
        {
            assert(self.log@.take(i + 1).drop_last() =~= self.log@.take(i as int));
            if self.log[i] == frame_id {
                count += 1;
            }
            i += 1;
        }
        assert(self.log@.take(i as int) =~= self.log@);
        count
    }

    /// The least position at which the frame is on record, if it is.
    fn position(&self, frame_id: FrameId) -> (position: Option<usize>)
        ensures
            match position {
                Some(i) => self@.tracks(frame_id) && i == first_position(self@.log, frame_id),
                None => !self@.tracks(frame_id),
            },
    {
        let mut i: usize = 0;
        while i < self.log.len()
            invariant
                i <= self.log.len(),
                forall|j: int| 0 <= j < i ==> self.log@[j] != frame_id,
            decreases self.log.len() - i,
        {
            if self.log[i] == frame_id {
                proof {
                    lemma_first_position(self.log@, frame_id);
                }
                return Some(i);
            }
            i += 1;
        }
        None
    }

    /// Records an access of the frame.
    pub fn record_access(&mut self, frame_id: FrameId)
        ensures
            final(self)@ == old(self)@.access(frame_id),
    {
        let full = self.count(frame_id) >= self.k;
        let oldest = self.position(frame_id);
        let ghost before = self.log@;
        self.log.push(frame_id);
        if full {
            if let Some(i) = oldest {
                proof {
                    lemma_first_position(before, frame_id);
                    assert(self.log@[i as int] == frame_id);
                    lemma_first_position(self.log@, frame_id);
                }
                let _ = self.log.remove(i);
            }
        }
    }

    /// Marks whether the frame may be given up. Nothing happens where no access
    /// of it is on record.
    pub fn set_evictable(&mut self, frame_id: FrameId, evictable: bool)
        ensures
            final(self)@ == old(self)@.mark(frame_id, evictable),
    {
        if self.position(frame_id).is_some() {
            if evictable {
                let _ = self.evictable.insert(frame_id);
            } else {
                let _ = self.evictable.remove(&frame_id);
            }
        }
    }

    /// Drops all that is known of the frame.
    fn forget(&mut self, frame_id: FrameId)
        ensures
            final(self)@ == old(self)@.forget(frame_id),
    {
        let mut log: Vec<FrameId> = Vec::with_capacity(self.log.len());
        proof {
            reveal(Seq::filter);
        }
        let mut i: usize = 0;
        while i < self.log.len()
            invariant
                i <= self.log.len(),
                log@ == without(self.log@.take(i as int), frame_id),
            decreases self.log.len() - i,
        {
            proof {
                reveal(Seq::filter);
                assert(self.log@.take(i + 1).drop_last() =~= self.log@.take(i as int));
            }
            let f: FrameId = self.log[i];
            if f != frame_id {
                log.push(f);
            }
            i += 1;
        }
        assert(self.log@.take(i as int) =~= self.log@);
        self.log = log;
        let _ = self.evictable.remove(&frame_id);
    }

    /// Picks the frame to give up and forgets it; `None` where no frame may be
    /// given up.
    pub fn evict(&mut self) -> (victim: Option<FrameId>)
        ensures
            victim == old(self)@.victim(),
            victim matches Some(f) ==> old(self)@.is_victim(f) && final(self)@ == old(self)@.forget(
                f,
            ),
            victim is None ==> final(self)@ == old(self)@,
    {
        let ghost state = self@;
        let mut oldest_full: Option<FrameId> = None;
        let mut i: usize = 0;
        let ghost mut p: int = 0;
        while i < self.log.len()
            invariant
                *self == *old(self),
                state == self@,
                i <= self.log.len(),
                forall|j: int|
                    0 <= j < i && state.evictable.contains(#[trigger] state.log[j])
                        ==> !state.is_young(state.log[j]),
                match oldest_full {
                    Some(f) => 0 <= p < i && f == state.log[p] && state.evictable.contains(f)
                        && forall|j: int|
                        0 <= j < p ==> !state.evictable.contains(#[trigger] state.log[j]),
                    None => forall|j: int|
                        0 <= j < i ==> !state.evictable.contains(#[trigger] state.log[j]),
                },
            decreases self.log.len() - i,
        {
            let f: FrameId = self.log[i];
            assert(f == state.log[i as int]);
            if self.evictable.contains(&f) {
                if self.count(f) < self.k {
                    proof {
                        assert(state.may_evict(f));
                        lemma_first_position(state.log, f);
                        assert forall|g: FrameId| #[trigger]
                            state.may_evict(g) && g != f implies state.goes_before(f, g) by {
                            lemma_first_position(state.log, g);
                        }
                        assert(state.is_victim(f));
                        lemma_victim_is_unique(state, f, state.victim()->0);
                    }
                    self.forget(f);
                    return Some(f);
                }
                if oldest_full.is_none() {
                    oldest_full = Some(f);
                    proof {
                        p = i as int;
                    }
                }
            }
            i += 1;
        }
        if let Some(f) = oldest_full {
            proof {
                assert(state.may_evict(f));
                lemma_first_position(state.log, f);
                assert forall|g: FrameId| #[trigger]
                    state.may_evict(g) && g != f implies state.goes_before(f, g) by {
                    lemma_first_position(state.log, g);
                }
                assert(state.is_victim(f));
                lemma_victim_is_unique(state, f, state.victim()->0);
            }
            self.forget(f);
            return Some(f);
        }
        None
    }

    /// Drops all that is known of the frame. It fails, and changes nothing,
    /// where the frame is on record and may not be given up.
    pub fn remove(&mut self, frame_id: FrameId) -> (result: RustDBResult<()>)
        ensures
            match result {
                Ok(_) => {
                    &&& old(self)@.can_remove(frame_id)
                    &&& final(self)@ == old(self)@.forget(frame_id)
                },
                Err(e) => {
                    &&& !old(self)@.can_remove(frame_id)
                    &&& *final(self) == *old(self)
                    &&& e.is_buffer_pool("Frame is not evictable"@)
                },
            },
    {
        if self.position(frame_id).is_some() && !self.evictable.contains(&frame_id) {
            return Err(RustDBError::BufferPool("Frame is not evictable".to_string()));
        }
        self.forget(frame_id);
        Ok(())
    }
}

/// Whether some record of `f` is older than every record of `g`.
pub open spec fn has_older_record(log: Seq<FrameId>, f: FrameId, g: FrameId) -> bool {
    exists|i: int|
        0 <= i < log.len() && #[trigger] log[i] == f && forall|j: int|
            0 <= j < log.len() && #[trigger] log[j] == g ==> i < j
}

/// Whether nothing is known of the frame any more, and of the others all that
/// was.
pub open spec fn only_forgets(before: ReplacerState, after: ReplacerState, f: FrameId) -> bool {
    &&& !after.tracks(f)
    &&& !after.evictable.contains(f)
    &&& forall|g: FrameId|
        g != f ==> {
            &&& #[trigger] after.tracks(g) == before.tracks(g)
            &&& after.evictable.contains(g) == before.evictable.contains(g)
        }
    &&& without(after.log, f) == without(before.log, f)
    &&& after.k == before.k
}

/// Records of one frame that were dropped stay so.
proof fn lemma_without_twice(log: Seq<FrameId>, f: FrameId)
    ensures
        without(without(log, f), f) == without(log, f),
    decreases log.len(),
{
    reveal(Seq::filter);
    if log.len() > 0 {
        let rest = log.drop_last();
        lemma_without_twice(rest, f);
        if log.last() != f {
            let kept = without(rest, f);
            assert(without(log, f) =~= kept.push(log.last()));
            assert(kept.push(log.last()).drop_last() =~= kept);
        } else {
            assert(without(log, f) =~= without(rest, f));
        }
    }
}

/// [`LruKReplacer::new`] knows no frame, and counts as many accesses as asked
/// for.
pub proof fn law_new_replacer_knows_nothing(k: usize, replacer: LruKReplacer)
    requires
        call_ensures(LruKReplacer::new, (k,), replacer),
    ensures
        replacer@.k == k,
        forall|f: FrameId| !#[trigger] replacer@.tracks(f),
        forall|f: FrameId| !#[trigger] replacer@.evictable.contains(f),
{
}

/// [`LruKReplacer::record_access`] puts a record of the frame behind all others.
/// The frame is on record once more, or as often as before where `k` records of
/// it were there, of which the oldest goes. No other frame is concerned.
pub proof fn law_record_access_outcome(replacer: &mut LruKReplacer, f: FrameId, g: FrameId)
    requires
        call_ensures(LruKReplacer::record_access, (replacer, f), ()),
    ensures
        final(replacer)@.log.len() > 0,
        final(replacer)@.log.last() == f,
        final(replacer)@.evictable == old(replacer)@.evictable,
        final(replacer)@.k == old(replacer)@.k,
        occurrences(final(replacer)@.log, g) == occurrences(old(replacer)@.log, g) + if g == f && (
        occurrences(old(replacer)@.log, f) < old(replacer)@.k || !old(replacer)@.tracks(f)) {
            1int
        } else {
            0
        },
{
    law_last_k_accesses_count(old(replacer)@, f, g);
    lemma_access_tracks(old(replacer)@, f);
    assert(old(replacer)@.access(f).tracks(f));
}

/// [`LruKReplacer::set_evictable`] marks a frame on record as told, and leaves
/// one that is not alone. No record and no other frame is concerned.
pub proof fn law_set_evictable_outcome(replacer: &mut LruKReplacer, f: FrameId, evictable: bool)
    requires
        call_ensures(LruKReplacer::set_evictable, (replacer, f, evictable), ()),
    ensures
        final(replacer)@.log == old(replacer)@.log,
        final(replacer)@.k == old(replacer)@.k,
        final(replacer)@.evictable.contains(f) == if old(replacer)@.log.contains(f) {
            evictable
        } else {
            old(replacer)@.evictable.contains(f)
        },
        forall|g: FrameId|
            g != f ==> #[trigger] final(replacer)@.evictable.contains(g)
                == old(replacer)@.evictable.contains(g),
{
}

/// [`LruKReplacer::evict`] gives up a frame that is on record and marked, and
/// forgets it. A frame with fewer than `k` records goes before one with `k`, and
/// of two alike the one with the oldest record. Nothing is given up, and nothing
/// changes, exactly where no frame on record is marked.
pub proof fn law_evict_outcome(
    replacer: &mut LruKReplacer,
    victim: Option<FrameId>,
    g: FrameId,
)
    requires
        call_ensures(LruKReplacer::evict, (replacer,), victim),
    ensures
        ({
            let before = old(replacer)@;
            match victim {
                Some(f) => {
                    &&& before.log.contains(f) && before.evictable.contains(f)
                    &&& only_forgets(before, final(replacer)@, f)
                    &&& g != f && before.log.contains(g) && before.evictable.contains(g) ==> {
                        let ours = occurrences(before.log, f);
                        let theirs = occurrences(before.log, g);
                        if ours < before.k {
                            theirs < before.k ==> has_older_record(before.log, f, g)
                        } else {
                            theirs >= before.k && has_older_record(before.log, f, g)
                        }
                    }
                },
                None => {
                    &&& final(replacer)@ == before
                    &&& !(before.log.contains(g) && before.evictable.contains(g))
                },
            }
        }),
{
    let before = old(replacer)@;
    law_victim_comes_first(before);
    match victim {
        Some(f) => {
            lemma_without(before.log, f);
            lemma_without_twice(before.log, f);
            assert forall|h: FrameId| h != f implies #[trigger] before.forget(f).tracks(h)
                == before.tracks(h) by {
                assert(without(before.log, f).contains(h) == before.log.contains(h));
            }
            assert(without(before.log, f).contains(f) == false);
            if g != f && before.may_evict(g) {
                assert(before.goes_before(f, g));
                lemma_first_position(before.log, f);
                lemma_first_position(before.log, g);
                if first_position(before.log, f) < first_position(before.log, g) {
                    let i = first_position(before.log, f);
                    assert(before.log[i] == f);
                    assert(has_older_record(before.log, f, g));
                }
            }
        },
        None => {
            assert(!before.may_evict(g));
        },
    }
}

/// [`LruKReplacer::remove`] forgets a frame that is marked or not on record. It
/// fails, and changes nothing, exactly where the frame is on record and not
/// marked.
pub proof fn law_remove_outcome(
    replacer: &mut LruKReplacer,
    f: FrameId,
    result: RustDBResult<()>,
)
    requires
        call_ensures(LruKReplacer::remove, (replacer, f), result),
    ensures
        result is Err <==> old(replacer)@.log.contains(f) && !old(replacer)@.evictable.contains(f),
        result is Err ==> final(replacer)@ == old(replacer)@,
        result is Ok ==> only_forgets(old(replacer)@, final(replacer)@, f),
{
    let before = old(replacer)@;
    lemma_without(before.log, f);
    lemma_without_twice(before.log, f);
    assert forall|h: FrameId| h != f implies #[trigger] before.forget(f).tracks(h)
        == before.tracks(h) by {
        assert(without(before.log, f).contains(h) == before.log.contains(h));
    }
    assert(without(before.log, f).contains(f) == false);
}

} // verus!
