//! What holds of the pool between any two operations, as long as references are
//! released once each and new pages get ids that are not in use.
use vstd::prelude::*;

use crate::page::{FrameId, Latch, PageId, PageState};
use crate::replacer::{law_victim_comes_first, lemma_access_tracks, lemma_without};
use crate::state::{
    lemma_forget_in_bounds, lemma_hold_in_bounds, lemma_map_in_bounds, lemma_unmap_in_bounds,
    lemma_with_page_in_bounds, Claim, PoolState,
};

verus! {

impl PoolState {
    /// Whether the page in the frame can be found there.
    pub open spec fn resident(self, frame_id: FrameId) -> bool {
        self.page_table.contains_pair(self.page(frame_id).page_id, frame_id)
    }

    /// Whether the frame is in nobody's hands: the replacer does not know it, it
    /// is not free, and nobody holds its page.
    pub open spec fn set_aside(self, frame_id: FrameId) -> bool {
        &&& frame_id < self.pages.len()
        &&& !self.replacer.tracks(frame_id)
        &&& !self.free_list.contains(frame_id)
        &&& self.page(frame_id).pin_count == 0
    }

    /// Whether the parts of the pool agree with each other.
    pub open spec fn coherent(self) -> bool {
        &&& self.in_bounds()
        // The table leads to the page that it names.
        &&& forall|p: PageId| #[trigger]
            self.page_table.contains_key(p) ==> self.page(self.page_table[p]).page_id == p
        // No frame is free twice, and a free frame is not in use.
        &&& self.free_list.no_duplicates()
        &&& forall|f: FrameId| #[trigger]
            self.free_list.contains(f) ==> {
                &&& !self.replacer.tracks(f)
                &&& !self.resident(f)
                &&& self.page(f).pin_count == 0
                &&& !self.page(f).is_dirty
            }
        // A page that the replacer may give up, or that needs a write, can be
        // found.
        &&& forall|f: FrameId| #[trigger] self.replacer.tracks(f) ==> self.resident(f)
        &&& forall|f: FrameId|
            f < self.pages.len() && (#[trigger] self.page(f)).is_dirty ==> self.resident(f)
        // A frame may be given up exactly when the replacer knows it and nobody
        // holds its page.
        &&& forall|f: FrameId| #[trigger]
            self.replacer.evictable.contains(f) ==> self.replacer.tracks(f)
        &&& forall|f: FrameId| #[trigger]
            self.replacer.tracks(f) ==> (self.replacer.evictable.contains(f) <==> self.page(
                f,
            ).pin_count == 0)
        // The replacer knows every frame whose page is held.
        &&& forall|f: FrameId|
            f < self.pages.len() && (#[trigger] self.page(f)).pin_count > 0
                ==> self.replacer.tracks(f)
    }
}

/// A pool without any page is coherent.
pub proof fn lemma_initial_coherent(pool_size: usize, k: nat)
    ensures
        PoolState::initial(pool_size as nat, k).coherent(),
{
    let state = PoolState::initial(pool_size as nat, k);
    assert(!exists|f: FrameId| state.replacer.tracks(f));
    assert forall|i: int, j: int|
        0 <= i < state.free_list.len() && 0 <= j < state.free_list.len() && i
            != j implies state.free_list[i] != state.free_list[j] by {
        assert(state.free_list[i] == i && state.free_list[j] == j);
    }
    assert forall|f: FrameId| #[trigger] state.free_list.contains(f) implies f
        < state.pages.len() by {
        let i = state.free_list.index_of(f);
        assert(state.free_list[i] == i as FrameId);
    }
}

/// What the search for a frame finds is set aside, and the pool stays coherent.
pub proof fn lemma_claim(state: PoolState)
    requires
        state.coherent(),
    ensures
        state.after_claim().coherent(),
        state.after_claim().pages == state.pages,
        state.after_claim().next_page_id == state.next_page_id,
        match state.claim() {
            Claim::Exhausted => state.after_claim() == state,
            Claim::Ready(f) => {
                &&& state.page(f).pin_count == 0
                &&& !state.page(f).is_dirty
                &&& state.after_claim().set_aside(f)
                &&& !state.after_claim().resident(f)
                &&& forall|p: PageId|
                    p != state.page(f).page_id ==> (#[trigger] state.page_table.contains_key(p)
                        <==> state.after_claim().page_table.contains_key(p))
            },
            Claim::Dirty(f) => {
                &&& state.page(f).pin_count == 0
                &&& state.page(f).is_dirty
                &&& state.after_claim().set_aside(f)
                &&& state.after_claim().page_table == state.page_table
            },
        },
{
    let after = state.after_claim();
    if state.free_list.len() > 0 {
        let f = state.free_list[0];
        assert(state.free_list.contains(f));
        assert forall|g: FrameId| after.free_list.contains(g) implies state.free_list.contains(g)
            && g != f by {
            let i = after.free_list.index_of(g);
            assert(after.free_list[i] == state.free_list[i + 1]);
        }
        assert forall|i: int| 0 <= i < after.free_list.len() implies #[trigger] after.free_list[i]
            < after.pages.len() by {
            assert(after.free_list[i] == state.free_list[i + 1]);
        }
        assert(forall|g: FrameId| after.resident(g) == state.resident(g));
        assert(after.replacer == state.replacer);
        assert(after.coherent());
    } else {
        law_victim_comes_first(state.replacer);
        if let Some(f) = state.replacer.victim() {
            assert(state.replacer.may_evict(f));
            lemma_without(state.replacer.log, f);
            lemma_forget_in_bounds(state, f);
            let forgotten = PoolState { replacer: state.replacer.forget(f), ..state };
            assert(forall|g: FrameId| #[trigger]
                forgotten.replacer.tracks(g) <==> state.replacer.tracks(g) && g != f);
            assert(forall|g: FrameId| forgotten.resident(g) == state.resident(g));
            assert(forgotten.coherent());
            if !state.page(f).is_dirty {
                let p = state.page(f).page_id;
                lemma_unmap_in_bounds(forgotten, p);
                assert(after == forgotten.unmap(p));
                assert(state.resident(f));
                assert forall|g: FrameId| g != f implies #[trigger] after.resident(g)
                    == state.resident(g) by {}
                assert(after.coherent());
            }
        }
    }
}

/// An access that holds a frame changes what the replacer knows of that frame
/// only.
proof fn lemma_hold(state: PoolState, frame_id: FrameId)
    ensures
        state.hold(frame_id).pages == state.pages,
        state.hold(frame_id).page_table == state.page_table,
        state.hold(frame_id).free_list == state.free_list,
        state.hold(frame_id).replacer.evictable == state.replacer.evictable.remove(frame_id),
        forall|f: FrameId| #[trigger]
            state.hold(frame_id).replacer.tracks(f) <==> state.replacer.tracks(f) || f == frame_id,
{
    lemma_access_tracks(state.replacer, frame_id);
    let accessed = state.replacer.access(frame_id);
    let held = state.hold(frame_id).replacer;
    assert(accessed.tracks(frame_id));
    assert forall|f: FrameId| #[trigger]
        held.tracks(f) <==> state.replacer.tracks(f) || f == frame_id by {
        assert(held.tracks(f) == accessed.tracks(f));
    }
}

/// A clean page, held once, can be put into a frame that is set aside, as long
/// as it is not in the pool already.
pub proof fn lemma_install(state: PoolState, frame_id: FrameId, page: PageState)
    requires
        state.coherent(),
        state.set_aside(frame_id),
        !state.resident(frame_id),
        !state.page_table.contains_key(page.page_id),
        page.pin_count == 1,
        !page.is_dirty,
    ensures
        (PoolState {
            page_table: state.page_table.insert(page.page_id, frame_id),
            ..state
        }).with_page(frame_id, page).hold(frame_id).coherent(),
{
    let mapped = PoolState { page_table: state.page_table.insert(page.page_id, frame_id), ..state };
    let placed = mapped.with_page(frame_id, page);
    let after = placed.hold(frame_id);
    lemma_map_in_bounds(state, page.page_id, frame_id);
    lemma_with_page_in_bounds(mapped, frame_id, page);
    lemma_hold_in_bounds(placed, frame_id);
    lemma_hold(placed, frame_id);
    assert(after.resident(frame_id));
    assert forall|f: FrameId| f != frame_id && f < state.pages.len() implies #[trigger]
        after.resident(f) == state.resident(f) by {}
    assert(after.coherent());
}

/// A new page can be put into a frame that is set aside, as long as its id is
/// not in use.
pub proof fn lemma_create(state: PoolState, frame_id: FrameId)
    requires
        state.coherent(),
        state.set_aside(frame_id),
        !state.resident(frame_id),
        !state.page_table.contains_key(state.next_page_id),
    ensures
        state.create(frame_id).coherent(),
{
    let page = PageState { pin_count: 1, ..PageState::blank(state.next_page_id) };
    lemma_install(state, frame_id, page);
    let installed = (PoolState {
        page_table: state.page_table.insert(page.page_id, frame_id),
        ..state
    }).with_page(frame_id, page).hold(frame_id);
    let after = state.create(frame_id);
    assert(after.pages == installed.pages);
    assert(after.page_table == installed.page_table);
    assert(after.free_list == installed.free_list);
    assert(after.replacer == installed.replacer);
    assert(forall|f: FrameId| after.resident(f) == installed.resident(f));
    assert(after.in_bounds());
    assert(after.coherent());
}

/// A page from disk can be put into a clean frame that is set aside, as long as
/// it is not in the pool already.
pub proof fn lemma_load(state: PoolState, frame_id: FrameId, page_id: PageId, data: Seq<u8>)
    requires
        state.coherent(),
        state.set_aside(frame_id),
        !state.resident(frame_id),
        !state.page(frame_id).is_dirty,
        !state.page_table.contains_key(page_id),
    ensures
        state.load(frame_id, page_id, data).coherent(),
{
    lemma_install(
        state,
        frame_id,
        PageState { page_id, pin_count: 1, data, ..state.page(frame_id) },
    );
}

/// A page in the pool can be held once more.
pub proof fn lemma_pin(state: PoolState, page_id: PageId)
    requires
        state.coherent(),
        state.page_table.contains_key(page_id),
        state.page(state.page_table[page_id]).pin_count < usize::MAX,
    ensures
        state.pin(state.page_table[page_id]).coherent(),
{
    let frame_id = state.page_table[page_id];
    let page = PageState {
        pin_count: crate::state::wrapping_next(state.page(frame_id).pin_count),
        ..state.page(frame_id)
    };
    let placed = state.with_page(frame_id, page);
    let after = placed.hold(frame_id);
    lemma_with_page_in_bounds(state, frame_id, page);
    lemma_hold_in_bounds(placed, frame_id);
    lemma_hold(placed, frame_id);
    assert(state.resident(frame_id));
    assert forall|f: FrameId| f < state.pages.len() implies #[trigger] after.resident(f)
        == state.resident(f) by {}
    assert(after.coherent());
}

/// A page that is held can be given back.
pub proof fn lemma_unpin(state: PoolState, frame_id: FrameId)
    requires
        state.coherent(),
        frame_id < state.pages.len(),
        state.page(frame_id).pin_count > 0,
    ensures
        state.unpin(frame_id).coherent(),
{
    let after = state.unpin(frame_id);
    assert(state.replacer.tracks(frame_id));
    assert(after.replacer.log == state.replacer.log);
    assert(forall|f: FrameId| #[trigger]
        after.replacer.tracks(f) == state.replacer.tracks(f));
    assert forall|f: FrameId| f < state.pages.len() implies #[trigger] after.resident(f)
        == state.resident(f) by {}
    assert(after.coherent());
}

/// Bytes can be stored in a page that is held.
pub proof fn lemma_store(state: PoolState, frame_id: FrameId, data: Seq<u8>)
    requires
        state.coherent(),
        frame_id < state.pages.len(),
        state.page(frame_id).pin_count > 0,
    ensures
        state.store(frame_id, data).coherent(),
{
    let after = state.store(frame_id, data);
    assert(state.replacer.tracks(frame_id));
    assert(after.replacer == state.replacer);
    assert forall|f: FrameId| f < state.pages.len() implies #[trigger] after.resident(f)
        == state.resident(f) by {}
    assert(after.coherent());
}

/// Any page can be marked as clean.
pub proof fn lemma_clean(state: PoolState, frame_id: FrameId)
    requires
        state.coherent(),
        frame_id < state.pages.len(),
    ensures
        state.clean(frame_id).coherent(),
{
    let after = state.clean(frame_id);
    assert(after.replacer == state.replacer);
    assert forall|f: FrameId| f < state.pages.len() implies #[trigger] after.resident(f)
        == state.resident(f) by {}
    assert(after.coherent());
}

/// Any page can be latched and unlatched.
pub proof fn lemma_latch(state: PoolState, frame_id: FrameId, latch: Latch)
    requires
        state.coherent(),
        frame_id < state.pages.len(),
    ensures
        state.with_latch(frame_id, latch).coherent(),
{
    let after = state.with_latch(frame_id, latch);
    assert(after.replacer == state.replacer);
    assert forall|f: FrameId| f < state.pages.len() implies #[trigger] after.resident(f)
        == state.resident(f) by {}
    assert(after.coherent());
}

/// The flush of any page can end.
pub proof fn lemma_end_flush(state: PoolState, frame_id: FrameId, ok: bool)
    requires
        state.coherent(),
        frame_id < state.pages.len(),
    ensures
        state.end_flush(frame_id, ok).coherent(),
{
    let written = if ok {
        state.clean(frame_id)
    } else {
        state
    };
    lemma_clean(state, frame_id);
    lemma_latch(written, frame_id, Latch::Free);
    assert(state.end_flush(frame_id, ok) =~= written.with_latch(frame_id, Latch::Free));
}

/// A page whose frame is set aside can be dropped once it was written.
pub proof fn lemma_give_up(state: PoolState, frame_id: FrameId)
    requires
        state.coherent(),
        state.set_aside(frame_id),
        state.resident(frame_id),
    ensures
        state.give_up(frame_id).coherent(),
        state.give_up(frame_id).set_aside(frame_id),
        !state.give_up(frame_id).resident(frame_id),
        !state.give_up(frame_id).page(frame_id).is_dirty,
{
    lemma_clean(state, frame_id);
    let cleaned = state.clean(frame_id);
    let after = state.give_up(frame_id);
    lemma_unmap_in_bounds(cleaned, state.page(frame_id).page_id);
    assert(after.replacer == state.replacer);
    assert forall|f: FrameId| f < state.pages.len() && f != frame_id implies #[trigger]
        after.resident(f) == state.resident(f) by {}
    assert(after.coherent());
}

/// A clean page that nobody holds can be deleted.
pub proof fn lemma_erase(state: PoolState, page_id: PageId)
    requires
        state.coherent(),
        state.page_table.contains_key(page_id),
        state.page(state.page_table[page_id]).pin_count == 0,
        !state.page(state.page_table[page_id]).is_dirty,
    ensures
        state.replacer.can_remove(state.page_table[page_id]),
        state.erase(page_id, state.page_table[page_id]).coherent(),
{
    let frame_id = state.page_table[page_id];
    let after = state.erase(page_id, frame_id);
    lemma_without(state.replacer.log, frame_id);
    assert(state.resident(frame_id));
    assert(forall|f: FrameId| #[trigger]
        after.replacer.tracks(f) <==> state.replacer.tracks(f) && f != frame_id);
    assert forall|f: FrameId| #[trigger] after.free_list.contains(f) implies f == frame_id
        || state.free_list.contains(f) by {
        let i = after.free_list.index_of(f);
        if i < state.free_list.len() {
            assert(state.free_list[i] == f);
        }
    }
    assert(!state.free_list.contains(frame_id));
    assert forall|i: int| 0 <= i < after.free_list.len() implies #[trigger] after.free_list[i]
        < after.pages.len() by {
        if i < state.free_list.len() {
            assert(after.free_list[i] == state.free_list[i]);
        }
    }
    assert forall|f: FrameId| f < state.pages.len() && f != frame_id implies #[trigger]
        after.resident(f) == state.resident(f) by {}
    assert(after.in_bounds());
    assert(after.coherent());
}

} // verus!
