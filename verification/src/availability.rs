//! How many more pages the pool has room for.
use vstd::prelude::*;

use crate::coherence::{lemma_claim, lemma_clean, lemma_erase};
use crate::page::{FrameId, PageId};
use crate::replacer::{
    law_victim_comes_first, lemma_access_tracks, lemma_push_contains, lemma_without, without,
};
use crate::state::{Claim, PoolState};
use crate::system::{
    is_run, law_order_is_kept, law_runs_stay_in_order, Action, Pending, System,
};

verus! {

impl PoolState {
    /// The number of frames that are free or may be given up.
    pub open spec fn available(self) -> nat {
        self.free_list.len() + self.replacer.evictable.len()
    }
}

/// In a pool without any page all frames are available.
pub proof fn law_all_frames_are_available_at_first(pool_size: nat, k: nat)
    ensures
        PoolState::initial(pool_size, k).available() == pool_size,
{
}

/// Only finitely many frames may be given up.
proof fn lemma_evictable_is_finite(state: PoolState)
    requires
        state.coherent(),
    ensures
        state.replacer.evictable.finite(),
{
    assert(state.replacer.evictable.subset_of(state.replacer.log.to_set()));
    vstd::set_lib::lemma_set_subset_finite(state.replacer.log.to_set(), state.replacer.evictable);
}

/// There is no frame for another page exactly when none is available.
pub proof fn law_exhausted_when_none_available(state: PoolState)
    requires
        state.coherent(),
    ensures
        state.claim() is Exhausted <==> state.available() == 0,
{
    lemma_evictable_is_finite(state);
    law_victim_comes_first(state.replacer);
    if let Some(f) = state.replacer.victim() {
        assert(state.replacer.may_evict(f));
        assert(state.replacer.evictable.contains(f));
        vstd::set::axiom_set_contains_len(state.replacer.evictable, f);
    } else {
        assert forall|f: FrameId| !state.replacer.evictable.contains(f) by {
            assert(!state.replacer.may_evict(f));
        }
        assert(state.replacer.evictable =~= Set::empty());
    }
}

/// While every page in the pool is held, and no frame is free, there is no
/// frame for another page.
pub proof fn law_full_pool_is_exhausted(state: PoolState)
    requires
        state.coherent(),
        state.free_list.len() == 0,
        forall|f: FrameId|
            f < state.pages.len() ==> (#[trigger] state.page(f)).pin_count > 0,
    ensures
        state.claim() is Exhausted,
        state.after_claim() == state,
{
    law_victim_comes_first(state.replacer);
    if let Some(f) = state.replacer.victim() {
        assert(state.replacer.may_evict(f));
        assert(state.page(f).pin_count > 0);
    }
}

/// A claimed frame is no longer available.
proof fn lemma_claim_takes_one(state: PoolState)
    requires
        state.coherent(),
        !(state.claim() is Exhausted),
    ensures
        state.after_claim().available() == state.available() - 1,
{
    lemma_evictable_is_finite(state);
    law_victim_comes_first(state.replacer);
    if state.free_list.len() == 0 {
        let f = state.replacer.victim()->0;
        assert(state.replacer.may_evict(f));
        vstd::set::axiom_set_contains_len(state.replacer.evictable, f);
    }
}

/// How each action changes the number of frames that are available. A new page
/// and a page from disk take one each, and the last reference to a page gives
/// one back.
pub proof fn law_frames_are_counted(before: System, action: Action, after: System)
    requires
        before.inv(),
        before.steps_to(action, after),
    ensures
        after.pool.available() == before.pool.available() + match action {
            Action::NewPage => if before.pool.available() == 0 {
                0int
            } else {
                -1
            },
            Action::FetchPage { page_id } => if before.pool.page_table.contains_key(page_id) {
                let f = before.pool.page_table[page_id];
                if before.pool.replacer.evictable.contains(f) {
                    -1
                } else {
                    0
                }
            } else if before.pool.available() == 0 {
                0
            } else {
                -1
            },
            Action::Release { frame_id } => if before.pool.page(frame_id).pin_count == 1 {
                1
            } else {
                0
            },
            Action::DeletePage { page_id } => {
                let f = before.pool.page_table[page_id];
                if before.pool.page_table.contains_key(page_id) && before.pool.page(f).pin_count
                    == 0 && !before.pool.page(f).is_dirty && !before.pool.replacer.tracks(f) {
                    1
                } else {
                    0
                }
            },
            Action::DeleteWritten { ok } => if ok && !before.pool.replacer.tracks(
                before.pending->DeleteWrite_write.frame(),
            ) {
                1
            } else {
                0
            },
            _ => 0,
        },
{
    let pool = before.pool;
    law_order_is_kept(before, action, after);
    lemma_evictable_is_finite(pool);
    lemma_evictable_is_finite(after.pool);
    law_exhausted_when_none_available(pool);
    lemma_claim(pool);
    if !(pool.claim() is Exhausted) {
        lemma_claim_takes_one(pool);
    }
    match action {
        Action::NewPage => {
            if let Claim::Ready(f) = pool.claim() {
                let claimed = pool.after_claim();
                lemma_access_tracks(claimed.replacer, f);
                assert(!claimed.replacer.evictable.contains(f));
                assert(after.pool.replacer.evictable =~= claimed.replacer.evictable);
            }
        },
        Action::NewPageWritten { ok } => {
            if let Pending::NewWrite { write } = before.pending {
                lemma_access_tracks(pool.replacer, write.frame());
                assert(after.pool.replacer.evictable =~= pool.replacer.evictable);
            }
        },
        Action::FetchRead { reply } => {
            if let Pending::FetchRead { read } = before.pending {
                lemma_access_tracks(pool.replacer, read.frame());
                assert(after.pool.replacer.evictable =~= pool.replacer.evictable);
            }
        },
        Action::FetchPage { page_id } => {
            if pool.page_table.contains_key(page_id) {
                let f = pool.page_table[page_id];
                lemma_access_tracks(pool.replacer, f);
                assert(pool.replacer.access(f).tracks(f));
                assert(after.pool.replacer.evictable == pool.replacer.evictable.remove(f));
                if !pool.replacer.evictable.contains(f) {
                    assert(after.pool.replacer.evictable =~= pool.replacer.evictable);
                }
            }
        },
        Action::Release { frame_id } => {
            assert(pool.replacer.tracks(frame_id));
        },
        Action::DeletePage { page_id } => {
            let f = pool.page_table[page_id];
            if pool.page_table.contains_key(page_id) && pool.page(f).pin_count == 0 && !pool.page(
                f,
            ).is_dirty {
                lemma_erase(pool, page_id);
                lemma_erased_count(pool, page_id);
            }
        },
        Action::DeleteWritten { ok } => {
            if let Pending::DeleteWrite { page_id, write } = before.pending {
                lemma_clean(pool, write.frame());
                let cleaned = pool.clean(write.frame());
                lemma_erase(cleaned, page_id);
                lemma_erased_count(cleaned, page_id);
            }
        },
        _ => {},
    }
}

/// The frame of a deleted page is available afterwards; it was before, unless
/// an eviction had failed.
proof fn lemma_erased_count(state: PoolState, page_id: PageId)
    requires
        state.coherent(),
        state.page_table.contains_key(page_id),
        state.page(state.page_table[page_id]).pin_count == 0,
        !state.page(state.page_table[page_id]).is_dirty,
    ensures
        ({
            let f = state.page_table[page_id];
            let after = state.erase(page_id, f);
            &&& after.free_list == state.free_list.push(f)
            &&& after.available() == state.available() + if state.replacer.tracks(f) {
                0int
            } else {
                1
            }
        }),
{
    let f = state.page_table[page_id];
    let after = state.erase(page_id, f);
    lemma_erase(state, page_id);
    lemma_evictable_is_finite(state);
    if !state.replacer.tracks(f) {
        assert(!state.replacer.evictable.contains(f));
        assert(after.replacer.evictable =~= state.replacer.evictable);
    }
}

impl System {
    /// Whether the frame is set aside for the request under way.
    pub open spec fn uses_frame(self, frame_id: FrameId) -> bool {
        match self.pending {
            Pending::NewWrite { write } => write.frame() == frame_id,
            Pending::FetchWrite { write, .. } => write.frame() == frame_id,
            Pending::FetchRead { read } => read.frame() == frame_id,
            _ => false,
        }
    }

    /// Whether every frame is free, known to the replacer, or set aside for the
    /// request under way.
    pub open spec fn accounts_for_frames(self) -> bool {
        forall|f: FrameId|
            f < self.pool.pages.len() ==> {
                ||| self.pool.free_list.contains(f)
                ||| #[trigger] self.pool.replacer.tracks(f)
                ||| self.uses_frame(f)
            }
    }
}

/// Whether the disk failed in the search for a frame or in the read of a page,
/// so that the frame that was set aside is lost for now.
pub open spec fn loses_frame(action: Action) -> bool {
    match action {
        Action::NewPageWritten { ok } => !ok,
        Action::FetchWritten { ok } => !ok,
        Action::FetchRead { reply } => reply is None,
        _ => false,
    }
}

/// In a pool without any page every frame is accounted for.
pub proof fn law_frames_are_accounted_for_at_first(
    pool_size: usize,
    k: nat,
    disk: Map<PageId, Seq<u8>>,
)
    ensures
        System::initial(pool_size as nat, k, disk).accounts_for_frames(),
{
    let system = System::initial(pool_size as nat, k, disk);
    assert forall|f: FrameId| f < system.pool.pages.len() implies system.pool.free_list.contains(
        f,
    ) by {
        assert(system.pool.free_list[f as int] == f);
    }
}

/// As long as the disk does not fail in the search for a frame or in the read
/// of a page, no frame is lost: each is free, known to the replacer, or set
/// aside for the request under way.
pub proof fn law_no_frame_is_lost(before: System, action: Action, after: System)
    requires
        before.inv(),
        before.accounts_for_frames(),
        before.steps_to(action, after),
        !loses_frame(action),
    ensures
        after.accounts_for_frames(),
{
    let pool = before.pool;
    law_order_is_kept(before, action, after);
    lemma_claim(pool);
    law_victim_comes_first(pool.replacer);
    assert forall|f: FrameId| f < after.pool.pages.len() implies {
        ||| after.pool.free_list.contains(f)
        ||| #[trigger] after.pool.replacer.tracks(f)
        ||| after.uses_frame(f)
    } by {
        assert(pool.free_list.contains(f) || pool.replacer.tracks(f) || before.uses_frame(f));
        match action {
            Action::NewPage => {
                lemma_claim_keeps_others(pool, f);
                if let Claim::Ready(g) = pool.claim() {
                    lemma_access_tracks(pool.after_claim().replacer, g);
                    assert(pool.after_claim().replacer.access(g).tracks(f) == (
                    pool.after_claim().replacer.tracks(f) || f == g));
                }
            },
            Action::NewPageWritten { ok } => {
                if let Pending::NewWrite { write } = before.pending {
                    lemma_access_tracks(pool.replacer, write.frame());
                    assert(pool.replacer.access(write.frame()).tracks(f) == (pool.replacer.tracks(
                        f,
                    ) || f == write.frame()));
                }
            },
            Action::FetchPage { page_id } => {
                if pool.page_table.contains_key(page_id) {
                    let g = pool.page_table[page_id];
                    lemma_access_tracks(pool.replacer, g);
                    assert(pool.replacer.access(g).tracks(f) == (pool.replacer.tracks(f) || f
                        == g));
                } else {
                    lemma_claim_keeps_others(pool, f);
                }
            },
            Action::FetchRead { reply } => {
                if let Pending::FetchRead { read } = before.pending {
                    lemma_access_tracks(pool.replacer, read.frame());
                    assert(pool.replacer.access(read.frame()).tracks(f) == (pool.replacer.tracks(
                        f,
                    ) || f == read.frame()));
                }
            },
            Action::DeletePage { page_id } => {
                let g = pool.page_table[page_id];
                if pool.page_table.contains_key(page_id) && pool.page(g).pin_count == 0
                    && !pool.page(g).is_dirty {
                    lemma_erase(pool, page_id);
                    lemma_erase_keeps_others(pool, page_id, f);
                }
            },
            Action::DeleteWritten { ok } => {
                if let Pending::DeleteWrite { page_id, write } = before.pending {
                    let cleaned = pool.clean(write.frame());
                    lemma_clean(pool, write.frame());
                    lemma_erase(cleaned, page_id);
                    lemma_erase_keeps_others(cleaned, page_id, f);
                }
            },
            Action::Release { frame_id } => {
                assert(after.pool.replacer.log == pool.replacer.log);
                assert(after.pool.replacer.tracks(f) == pool.replacer.tracks(f));
            },
            _ => {},
        }
    }
}

/// In every run from a pool without any page, no frame is lost as long as the
/// disk does not fail in the search for a frame or in the read of a page.
pub proof fn law_runs_lose_no_frame(
    pool_size: usize,
    k: nat,
    states: Seq<System>,
    actions: Seq<Action>,
    n: int,
)
    requires
        is_run(states, actions),
        states[0] == System::initial(pool_size as nat, k, states[0].disk),
        0 <= n < states.len(),
        forall|l: int| 0 <= l < n ==> !loses_frame(#[trigger] actions[l]),
    ensures
        states[n].accounts_for_frames(),
    decreases n,
{
    if n == 0 {
        law_frames_are_accounted_for_at_first(pool_size, k, states[0].disk);
    } else {
        law_runs_lose_no_frame(pool_size, k, states, actions, n - 1);
        law_runs_stay_in_order(states, actions, n - 1);
        law_no_frame_is_lost(states[n - 1], actions[n - 1], states[n]);
    }
}

/// The search for a frame leaves all others free or known.
proof fn lemma_claim_keeps_others(state: PoolState, f: FrameId)
    requires
        state.coherent(),
        state.free_list.contains(f) || state.replacer.tracks(f),
    ensures
        match state.claim() {
            Claim::Ready(g) | Claim::Dirty(g) => f == g,
            Claim::Exhausted => false,
        } || state.after_claim().free_list.contains(f) || state.after_claim().replacer.tracks(f),
{
    let after = state.after_claim();
    if state.free_list.len() > 0 {
        if state.free_list.contains(f) && f != state.free_list[0] {
            let i = state.free_list.index_of(f);
            assert(after.free_list[i - 1] == f);
        }
    } else {
        law_victim_comes_first(state.replacer);
        if let Some(g) = state.replacer.victim() {
            lemma_without(state.replacer.log, g);
            assert(without(state.replacer.log, g).contains(f) == (state.replacer.log.contains(f)
                && f != g));
        }
    }
}

/// The deletion of a page frees its frame and leaves all others free or known.
proof fn lemma_erase_keeps_others(state: PoolState, page_id: PageId, f: FrameId)
    requires
        state.replacer.can_remove(state.page_table[page_id]),
    ensures
        ({
            let after = state.erase(page_id, state.page_table[page_id]);
            &&& after.free_list.contains(state.page_table[page_id])
            &&& state.free_list.contains(f) ==> after.free_list.contains(f)
            &&& state.replacer.tracks(f) && f != state.page_table[page_id]
                ==> after.replacer.tracks(f)
        }),
{
    let g = state.page_table[page_id];
    lemma_push_contains(state.free_list, g, f);
    lemma_push_contains(state.free_list, g, g);
    lemma_without(state.replacer.log, g);
    assert(without(state.replacer.log, g).contains(f) == (state.replacer.log.contains(f) && f
        != g));
}

/// Between operations, while no frame is lost, a page is refused exactly when
/// every frame holds a page that somebody holds.
pub proof fn law_refused_exactly_when_all_are_held(system: System)
    requires
        system.inv(),
        system.accounts_for_frames(),
        system.pending is Idle,
    ensures
        system.pool.claim() is Exhausted <==> forall|f: FrameId|
            f < system.pool.pages.len() ==> (#[trigger] system.pool.page(f)).pin_count > 0,
{
    let pool = system.pool;
    if pool.claim() is Exhausted {
        law_exhausted_when_none_available(pool);
        lemma_evictable_is_finite(pool);
        assert forall|f: FrameId| f < pool.pages.len() implies (#[trigger] pool.page(f)).pin_count
            > 0 by {
            assert(pool.free_list.contains(f) || pool.replacer.tracks(f));
            if pool.replacer.evictable.contains(f) {
                vstd::set::axiom_set_contains_len(pool.replacer.evictable, f);
            }
        }
    } else if forall|f: FrameId|
        f < pool.pages.len() ==> (#[trigger] pool.page(f)).pin_count > 0 {
        if pool.free_list.len() > 0 {
            let f = pool.free_list[0];
            assert(pool.free_list.contains(f));
            assert(pool.page(f).pin_count > 0);
        } else {
            law_full_pool_is_exhausted(pool);
        }
    }
}

/// Between operations, while no frame is lost, every frame is free or holds one
/// page that can be found.
pub proof fn law_frames_are_free_or_used(system: System)
    requires
        system.inv(),
        system.accounts_for_frames(),
        system.pending is Idle,
        system.pool.pages.len() <= usize::MAX,
    ensures
        system.pool.page_table.dom().finite(),
        system.pool.page_table.len() + system.pool.free_list.len() == system.pool.pages.len(),
{
    let pool = system.pool;
    let frames = Seq::new(pool.pages.len(), |i: int| i as FrameId);
    let known = pool.replacer.log.to_set();
    let free = pool.free_list.to_set();
    let id_of = |f: FrameId| pool.page(f).page_id;

    // Every known frame holds the page of exactly one entry of the table.
    assert forall|p: PageId| #[trigger] pool.page_table.contains_key(p) implies known.map(
        id_of,
    ).contains(p) by {
        let f = pool.page_table[p];
        assert(pool.resident(f));
        assert(pool.free_list.contains(f) || pool.replacer.tracks(f));
        assert(known.contains(f) && id_of(f) == p);
    }
    assert forall|p: PageId| known.map(id_of).contains(p) implies #[trigger]
        pool.page_table.contains_key(p) by {
        let f = choose|f: FrameId| #[trigger] known.contains(f) && p == id_of(f);
        assert(pool.replacer.tracks(f));
        assert(pool.resident(f));
    }
    assert(known.map(id_of) =~= pool.page_table.dom());
    assert forall|f: FrameId, g: FrameId|
        known.contains(f) && known.contains(g) && #[trigger] id_of(f)
            == #[trigger] id_of(g) implies f == g by {
        assert(pool.replacer.tracks(f) && pool.replacer.tracks(g));
        assert(pool.resident(f) && pool.resident(g));
    }
    vstd::set_lib::lemma_map_size(known, pool.page_table.dom(), id_of);

    // The known frames and the free ones are all frames, and none is both.
    assert forall|f: FrameId| #[trigger] frames.to_set().contains(f) implies known.union(
        free,
    ).contains(f) by {
        assert(frames.contains(f));
        assert(f < pool.pages.len());
        assert(pool.free_list.contains(f) || pool.replacer.tracks(f));
    }
    assert forall|f: FrameId| #[trigger] known.union(free).contains(f) implies frames.contains(
        f,
    ) by {
        if pool.replacer.tracks(f) {
            assert(f < pool.pages.len());
        } else {
            assert(pool.free_list.contains(f));
            assert(pool.free_list[pool.free_list.index_of(f)] < pool.pages.len());
        }
        assert(frames[f as int] == f);
    }
    assert(known.union(free) =~= frames.to_set());
    assert forall|f: FrameId| known.contains(f) implies !free.contains(f) by {
        assert(pool.replacer.tracks(f));
    }
    vstd::set_lib::lemma_set_disjoint_lens(known, free);
    pool.free_list.unique_seq_to_set();
    assert(frames.no_duplicates());
    frames.unique_seq_to_set();
}

} // verus!
