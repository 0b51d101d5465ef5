//! The state of the pool as a mathematical value, and what each operation does
//! to it.
use vstd::prelude::*;

use crate::error::{RustDBError, RustDBResult};
use crate::page::{FrameId, Latch, PageId, PageState};
use crate::replacer::{lemma_access_tracks, lemma_without, ReplacerState};

verus! {

/// The number after `n`; after the greatest one comes 0.
pub open spec fn wrapping_next(n: usize) -> usize {
    if n == usize::MAX {
        0
    } else {
        (n + 1) as usize
    }
}

/// The number before `n`; before 0 comes the greatest one.
pub open spec fn wrapping_previous(n: usize) -> usize {
    if n == 0 {
        usize::MAX
    } else {
        (n - 1) as usize
    }
}

/// What a search for a frame to use comes to.
pub enum Claim {
    /// No frame is free and none may be given up.
    Exhausted,
    /// The frame can be used.
    Ready(FrameId),
    /// The frame can be used once its page has been written to disk.
    Dirty(FrameId),
}

/// The state of the pool.
#[verifier::ext_equal]
pub struct PoolState {
    /// What each frame holds.
    pub pages: Seq<PageState>,
    /// The frame of each page that can be found in the pool.
    pub page_table: Map<PageId, FrameId>,
    /// The frames that hold no page, in the order in which they will be used.
    pub free_list: Seq<FrameId>,
    /// What the replacer knows.
    pub replacer: ReplacerState,
    /// The id of the next new page.
    pub next_page_id: PageId,
}

impl PoolState {
    /// A pool in which every frame is free.
    pub open spec fn initial(pool_size: nat, k: nat) -> PoolState {
        PoolState {
            pages: Seq::new(pool_size, |i: int| PageState::blank(0)),
            page_table: Map::empty(),
            free_list: Seq::new(pool_size, |i: int| i as FrameId),
            replacer: ReplacerState::empty(k),
            next_page_id: 0,
        }
    }

    /// Whether every frame that is mentioned exists.
    pub open spec fn in_bounds(self) -> bool {
        &&& forall|p: PageId| #[trigger]
            self.page_table.contains_key(p) ==> self.page_table[p] < self.pages.len()
        &&& forall|i: int|
            0 <= i < self.free_list.len() ==> #[trigger] self.free_list[i] < self.pages.len()
        &&& forall|f: FrameId| #[trigger] self.replacer.tracks(f) ==> f < self.pages.len()
    }

    /// The page in the frame.
    #[verifier::inline]
    pub open spec fn page(self, frame_id: FrameId) -> PageState {
        self.pages[frame_id as int]
    }

    /// The state with another page in the frame.
    pub open spec fn with_page(self, frame_id: FrameId, page: PageState) -> PoolState {
        PoolState { pages: self.pages.update(frame_id as int, page), ..self }
    }

    /// The state in which the page can no longer be found.
    pub open spec fn unmap(self, page_id: PageId) -> PoolState {
        PoolState { page_table: self.page_table.remove(page_id), ..self }
    }

    /// The state in which the frame was accessed and may not be given up.
    pub open spec fn hold(self, frame_id: FrameId) -> PoolState {
        PoolState { replacer: self.replacer.access(frame_id).mark(frame_id, false), ..self }
    }

    /// What the choice of `victim` comes to.
    pub open spec fn claim_victim(self, victim: Option<FrameId>) -> Claim {
        match victim {
            None => Claim::Exhausted,
            Some(f) => if self.page(f).is_dirty {
                Claim::Dirty(f)
            } else {
                Claim::Ready(f)
            },
        }
    }

    /// The state once `victim` was chosen: where its page needs no write, the
    /// page can no longer be found.
    pub open spec fn after_claim_victim(self, victim: Option<FrameId>) -> PoolState {
        match self.claim_victim(victim) {
            Claim::Ready(f) => self.unmap(self.page(f).page_id),
            _ => self,
        }
    }

    /// The frame to use for another page: the first free one, or else the one
    /// that the replacer gives up.
    pub open spec fn claim(self) -> Claim {
        if self.free_list.len() > 0 {
            Claim::Ready(self.free_list[0])
        } else {
            self.claim_victim(self.replacer.victim())
        }
    }

    /// The state once a frame was looked for.
    pub open spec fn after_claim(self) -> PoolState {
        if self.free_list.len() > 0 {
            PoolState { free_list: self.free_list.skip(1), ..self }
        } else {
            match self.replacer.victim() {
                None => self,
                Some(f) => PoolState {
                    replacer: self.replacer.forget(f),
                    ..self
                }.after_claim_victim(Some(f)),
            }
        }
    }

    /// The state once the page in the frame was written to disk.
    pub open spec fn clean(self, frame_id: FrameId) -> PoolState {
        self.with_page(frame_id, PageState { is_dirty: false, ..self.page(frame_id) })
    }

    /// The state once the page in a frame that was given up has been written.
    pub open spec fn give_up(self, frame_id: FrameId) -> PoolState {
        self.clean(frame_id).unmap(self.page(frame_id).page_id)
    }

    /// The state with a new page in the frame, held once.
    pub open spec fn create(self, frame_id: FrameId) -> PoolState {
        let page_id = self.next_page_id;
        PoolState {
            page_table: self.page_table.insert(page_id, frame_id),
            next_page_id: wrapping_next(page_id),
            ..self
        }.with_page(
            frame_id,
            PageState { pin_count: 1, ..PageState::blank(page_id) },
        ).hold(frame_id)
    }

    /// The state with a page from disk in the frame, held once.
    pub open spec fn load(self, frame_id: FrameId, page_id: PageId, data: Seq<u8>) -> PoolState {
        PoolState {
            page_table: self.page_table.insert(page_id, frame_id),
            ..self
        }.with_page(
            frame_id,
            PageState { page_id, pin_count: 1, data, ..self.page(frame_id) },
        ).hold(frame_id)
    }

    /// The state with the page in the frame held once more.
    pub open spec fn pin(self, frame_id: FrameId) -> PoolState {
        self.with_page(
            frame_id,
            PageState {
                pin_count: wrapping_next(self.page(frame_id).pin_count),
                ..self.page(frame_id)
            },
        ).hold(frame_id)
    }

    /// The state with the page in the frame held once less. When nobody is
    /// left, the frame may be given up.
    pub open spec fn unpin(self, frame_id: FrameId) -> PoolState {
        let count = self.page(frame_id).pin_count;
        let state = self.with_page(
            frame_id,
            PageState { pin_count: wrapping_previous(count), ..self.page(frame_id) },
        );
        if count == 1 {
            PoolState { replacer: state.replacer.mark(frame_id, true), ..state }
        } else {
            state
        }
    }

    /// The state with another latch on the page.
    pub open spec fn with_latch(self, frame_id: FrameId, latch: Latch) -> PoolState {
        self.with_page(frame_id, PageState { latch, ..self.page(frame_id) })
    }

    /// The state with the bytes in the frame latched for a change or a flush.
    pub open spec fn latch_write(self, frame_id: FrameId) -> PoolState {
        self.with_latch(frame_id, Latch::Write)
    }

    /// The state with one more guard that reads the bytes in the frame.
    pub open spec fn latch_read(self, frame_id: FrameId) -> PoolState {
        self.with_latch(frame_id, self.page(frame_id).latch.with_reader())
    }

    /// The state with one guard less that reads the bytes in the frame.
    pub open spec fn unlatch_read(self, frame_id: FrameId) -> PoolState {
        self.with_latch(frame_id, self.page(frame_id).latch.without_reader())
    }

    /// The state once a guard has put its bytes into the page, which then needs
    /// a write and is no longer latched.
    pub open spec fn store(self, frame_id: FrameId, data: Seq<u8>) -> PoolState {
        self.with_page(
            frame_id,
            PageState { data, is_dirty: true, latch: Latch::Free, ..self.page(frame_id) },
        )
    }

    /// The state once the write of a flush has ended: the page is no longer
    /// latched, and clean where the write succeeded.
    pub open spec fn end_flush(self, frame_id: FrameId, ok: bool) -> PoolState {
        self.with_page(
            frame_id,
            PageState {
                is_dirty: self.page(frame_id).is_dirty && !ok,
                latch: Latch::Free,
                ..self.page(frame_id)
            },
        )
    }

    /// The state once a clean page was deleted from the frame. The frame is
    /// free afterwards, unless the replacer insists on keeping it.
    pub open spec fn erase(self, page_id: PageId, frame_id: FrameId) -> PoolState {
        let state = self.with_page(frame_id, PageState::blank(0));
        if self.replacer.can_remove(frame_id) {
            PoolState {
                replacer: state.replacer.forget(frame_id),
                free_list: state.free_list.push(frame_id),
                ..state
            }.unmap(page_id)
        } else {
            state
        }
    }

    /// Whether `result` is what the deletion of the page from the frame returns.
    pub open spec fn erase_result(
        self,
        page_id: PageId,
        frame_id: FrameId,
        result: RustDBResult<Option<PageId>>,
    ) -> bool {
        if self.replacer.can_remove(frame_id) {
            result == Ok::<Option<PageId>, RustDBError>(Some(page_id))
        } else {
            result matches Err(e) && e.is_buffer_pool("Frame is not evictable"@)
        }
    }

    /// The first frame from `start` on.
    pub open spec fn frame_from(self, start: int) -> Option<FrameId> {
        if start < self.pages.len() {
            Some(start as FrameId)
        } else {
            None
        }
    }
}

/// No frame that does not exist is mentioned after a page was put into a frame
/// that does.
pub proof fn lemma_with_page_in_bounds(state: PoolState, frame_id: FrameId, page: PageState)
    requires
        state.in_bounds(),
        frame_id < state.pages.len(),
    ensures
        state.with_page(frame_id, page).in_bounds(),
{
    assert(state.with_page(frame_id, page).replacer == state.replacer);
}

/// No frame that does not exist is mentioned after a page was taken out of the
/// table.
pub proof fn lemma_unmap_in_bounds(state: PoolState, page_id: PageId)
    requires
        state.in_bounds(),
    ensures
        state.unmap(page_id).in_bounds(),
{
    assert forall|p: PageId| #[trigger]
        state.unmap(page_id).page_table.contains_key(p) implies state.unmap(page_id).page_table[p]
        < state.pages.len() by {
        assert(state.page_table.contains_key(p));
    }
    assert(state.unmap(page_id).replacer == state.replacer);
}

/// No frame that does not exist is mentioned after a page was entered into the
/// table under a frame that does.
pub proof fn lemma_map_in_bounds(state: PoolState, page_id: PageId, frame_id: FrameId)
    requires
        state.in_bounds(),
        frame_id < state.pages.len(),
    ensures
        (PoolState {
            page_table: state.page_table.insert(page_id, frame_id),
            ..state
        }).in_bounds(),
{
    let mapped = PoolState { page_table: state.page_table.insert(page_id, frame_id), ..state };
    assert forall|p: PageId| #[trigger]
        mapped.page_table.contains_key(p) implies mapped.page_table[p] < mapped.pages.len() by {
        assert(p != page_id ==> state.page_table.contains_key(p));
    }
    assert(mapped.replacer == state.replacer);
}

/// No frame that does not exist is mentioned after a frame that does was
/// accessed.
pub proof fn lemma_hold_in_bounds(state: PoolState, frame_id: FrameId)
    requires
        state.in_bounds(),
        frame_id < state.pages.len(),
    ensures
        state.hold(frame_id).in_bounds(),
{
    lemma_access_tracks(state.replacer, frame_id);
    let held = state.hold(frame_id);
    assert forall|f: FrameId| #[trigger] held.replacer.tracks(f) implies f < held.pages.len() by {
        assert(state.replacer.access(frame_id).tracks(f));
    }
}

/// No frame that does not exist is mentioned after the replacer forgot one.
pub proof fn lemma_forget_in_bounds(state: PoolState, frame_id: FrameId)
    requires
        state.in_bounds(),
    ensures
        (PoolState { replacer: state.replacer.forget(frame_id), ..state }).in_bounds(),
{
    lemma_without(state.replacer.log, frame_id);
    let forgotten = PoolState { replacer: state.replacer.forget(frame_id), ..state };
    assert forall|f: FrameId| #[trigger] forgotten.replacer.tracks(f) implies f
        < forgotten.pages.len() by {
        assert(state.replacer.tracks(f));
    }
}

} // verus!
