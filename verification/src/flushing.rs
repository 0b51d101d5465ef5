//! What flushes come to.
use vstd::prelude::*;

use crate::coherence::{lemma_claim, lemma_clean, lemma_erase};
use crate::page::{FrameId, PageId, PageState};
use crate::replacer::lemma_push_contains;
use crate::state::PoolState;
use crate::system::{
    is_run, law_contents_are_kept, law_order_is_kept, law_runs_stay_in_order, Action, Pending,
    System,
};

verus! {

/// Whether the flush of one frame can take the system from `before` to `after`
/// when no guard is at the bytes and the write does not fail.
pub open spec fn flushes_frame(before: System, frame_id: FrameId, after: System) -> bool {
    &&& before.pool.page(frame_id).latch is Free
    &&& exists|begun: System|
        {
            &&& #[trigger] before.steps_to(Action::Flush { frame_id }, begun)
            &&& if begun.pending is Idle {
                after == begun
            } else {
                begun.steps_to(Action::FlushWritten { ok: true }, after)
            }
        }
}

/// Whether `states` are what the system goes through when the given frames are
/// flushed, one after the other, no guard is at their bytes, and no write fails.
pub open spec fn flushes_frames(states: Seq<System>, frames: Seq<FrameId>) -> bool {
    &&& states.len() == frames.len() + 1
    &&& forall|i: int|
        0 <= i < frames.len() ==> flushes_frame(states[i], #[trigger] frames[i], states[i + 1])
}

/// Whether `states` are what the system goes through when all frames are
/// flushed, one after the other, no guard is at their bytes, and no write fails.
pub open spec fn flushes_all(states: Seq<System>) -> bool {
    flushes_frames(states, Seq::new(states[0].pool.pages.len(), |i: int| i as FrameId))
}

/// Whether `states` are what the system goes through when the given pages, all
/// of them in the pool, are flushed, one after the other, no guard is at their
/// bytes, and no write fails.
pub open spec fn flushes_pages(states: Seq<System>, order: Seq<PageId>) -> bool {
    &&& states.len() == order.len() + 1
    &&& forall|i: int|
        0 <= i < order.len() ==> {
            let table = states[i].pool.page_table;
            &&& table.contains_key(#[trigger] order[i])
            &&& flushes_frame(states[i], table[order[i]], states[i + 1])
        }
}

/// The pool with the pages in the given frames clean.
pub open spec fn cleaned(pool: PoolState, frames: Seq<FrameId>) -> PoolState {
    PoolState {
        pages: Seq::new(
            pool.pages.len(),
            |i: int|
                if frames.contains(i as FrameId) {
                    PageState { is_dirty: false, ..pool.pages[i] }
                } else {
                    pool.pages[i]
                },
        ),
        ..pool
    }
}

/// Whether the page is dirty in one of the given frames.
pub open spec fn dirty_in(pool: PoolState, frames: Seq<FrameId>, page_id: PageId) -> bool {
    &&& pool.page_table.contains_key(page_id)
    &&& frames.contains(pool.page_table[page_id])
    &&& pool.page(pool.page_table[page_id]).is_dirty
}

/// The disk with the dirty pages in the given frames written.
pub open spec fn written(
    pool: PoolState,
    disk: Map<PageId, Seq<u8>>,
    frames: Seq<FrameId>,
) -> Map<PageId, Seq<u8>> {
    Map::new(
        |p: PageId| disk.contains_key(p) || dirty_in(pool, frames, p),
        |p: PageId|
            if dirty_in(pool, frames, p) {
                pool.page(pool.page_table[p]).data
            } else {
                disk[p]
            },
    )
}

/// The system with every page clean, and every page that was dirty in the pool
/// on disk as it was there.
pub open spec fn all_flushed(system: System) -> System {
    let pool = system.pool;
    let is_dirty = |p: PageId|
        pool.page_table.contains_key(p) && pool.page(pool.page_table[p]).is_dirty;
    System {
        pool: PoolState {
            pages: Seq::new(
                pool.pages.len(),
                |i: int| PageState { is_dirty: false, ..pool.pages[i] },
            ),
            ..pool
        },
        disk: Map::new(
            |p: PageId| system.disk.contains_key(p) || is_dirty(p),
            |p: PageId|
                if is_dirty(p) {
                    pool.page(pool.page_table[p]).data
                } else {
                    system.disk[p]
                },
        ),
        pending: Pending::Idle,
    }
}

/// The flush of one frame cleans its page and writes it where it was dirty.
proof fn lemma_flush_frame(before: System, frame_id: FrameId, after: System)
    requires
        before.inv(),
        before.pending is Idle,
        flushes_frame(before, frame_id, after),
    ensures
        frame_id < before.pool.pages.len(),
        after.inv(),
        after.pending is Idle,
        after.pool == before.pool.clean(frame_id),
        after.disk == if before.pool.page(frame_id).is_dirty {
            before.disk.insert(
                before.pool.page(frame_id).page_id,
                before.pool.page(frame_id).data,
            )
        } else {
            before.disk
        },
        forall|p: PageId| #[trigger]
            before.settled(p) ==> after.settled(p) && after.contents(p) == before.contents(p),
{
    let flush = Action::Flush { frame_id };
    let end = Action::FlushWritten { ok: true };
    let begun = choose|begun: System|
        {
            &&& #[trigger] before.steps_to(flush, begun)
            &&& if begun.pending is Idle {
                after == begun
            } else {
                begun.steps_to(end, after)
            }
        };
    law_order_is_kept(before, flush, begun);
    if begun.pending is Idle {
        assert(after.pool.pages =~= before.pool.clean(frame_id).pages);
    } else {
        law_order_is_kept(begun, end, after);
        assert(after.pool.pages =~= before.pool.clean(frame_id).pages);
    }
    assert forall|p: PageId| #[trigger] before.settled(p) implies after.settled(p)
        && after.contents(p) == before.contents(p) by {
        law_contents_are_kept(before, flush, begun, p);
        if !(begun.pending is Idle) {
            law_contents_are_kept(begun, end, after, p);
        }
    }
}

/// What a sequence holds with one more item taken.
proof fn lemma_take_contains(frames: Seq<FrameId>, n: int)
    requires
        0 <= n < frames.len(),
    ensures
        forall|f: FrameId| #[trigger]
            frames.take(n + 1).contains(f) <==> frames.take(n).contains(f) || f == frames[n],
{
    assert(frames.take(n + 1) =~= frames.take(n).push(frames[n]));
    assert forall|f: FrameId| #[trigger]
        frames.take(n + 1).contains(f) <==> frames.take(n).contains(f) || f == frames[n] by {
        lemma_push_contains(frames.take(n), frames[n], f);
    }
}

/// After the first `n` of the given frames were flushed, exactly the pages in
/// them are clean that were not before, and exactly those are written.
proof fn lemma_flush_frames(states: Seq<System>, frames: Seq<FrameId>, n: int)
    requires
        states[0].pool.pages.len() <= usize::MAX,
        states[0].inv(),
        states[0].pending is Idle,
        flushes_frames(states, frames),
        0 <= n <= frames.len(),
    ensures
        states[n].inv(),
        states[n].pending is Idle,
        states[n].pool == cleaned(states[0].pool, frames.take(n)),
        states[n].disk == written(states[0].pool, states[0].disk, frames.take(n)),
        forall|p: PageId| #[trigger]
            states[0].settled(p) ==> states[n].settled(p) && states[n].contents(p)
                == states[0].contents(p),
    decreases n,
{
    let first = states[0];
    if n == 0 {
        assert(frames.take(0) =~= Seq::empty());
        assert(first.pool.pages =~= cleaned(first.pool, frames.take(0)).pages);
        assert(first.disk =~= written(first.pool, first.disk, frames.take(0)));
    } else {
        lemma_flush_frames(states, frames, n - 1);
        let before = states[n - 1];
        let f = frames[n - 1];
        assert(flushes_frame(states[n - 1], frames[n - 1], states[n - 1 + 1]));
        lemma_flush_frame(before, f, states[n]);
        lemma_take_contains(frames, n - 1);
        assert(states[n].pool.pages =~= cleaned(first.pool, frames.take(n)).pages);
        let disk = written(first.pool, first.disk, frames.take(n));
        if before.pool.page(f).is_dirty {
            let page_id = before.pool.page(f).page_id;
            assert(before.pool.resident(f));
            assert(!frames.take(n - 1).contains(f));
            assert forall|p: PageId| #[trigger]
                dirty_in(first.pool, frames.take(n), p) <==> dirty_in(
                    first.pool,
                    frames.take(n - 1),
                    p,
                ) || p == page_id by {
                if first.pool.page_table.contains_key(p) && first.pool.page_table[p] == f {
                    assert(before.pool.page_table.contains_key(p));
                    assert(before.pool.page(before.pool.page_table[p]).page_id == p);
                }
            }
            assert(states[n].disk =~= disk);
        } else {
            assert forall|p: PageId| #[trigger]
                dirty_in(first.pool, frames.take(n), p) == dirty_in(
                    first.pool,
                    frames.take(n - 1),
                    p,
                ) by {
                assert(!first.pool.page(f).is_dirty || frames.take(n - 1).contains(f));
            }
            assert(states[n].disk =~= disk);
        }
    }
}

/// Where the frames of all dirty pages are flushed, it does not matter which
/// others are, nor in which order.
proof fn lemma_covering_flush(states: Seq<System>, frames: Seq<FrameId>)
    requires
        states[0].inv(),
        states[0].pending is Idle,
        flushes_frames(states, frames),
        forall|f: FrameId|
            f < states[0].pool.pages.len() && (#[trigger] states[0].pool.page(f)).is_dirty
                ==> frames.contains(f),
        states[0].pool.pages.len() <= usize::MAX,
    ensures
        states.last() == all_flushed(states[0]),
{
    let first = states[0];
    let last = states.last();
    lemma_flush_frames(states, frames, frames.len() as int);
    assert(frames.take(frames.len() as int) =~= frames);
    assert forall|i: int| 0 <= i < first.pool.pages.len() implies last.pool.pages[i]
        == all_flushed(first).pool.pages[i] by {
        let f = i as FrameId;
        assert(first.pool.page(f).is_dirty ==> frames.contains(f));
    }
    assert(last.pool.pages =~= all_flushed(first).pool.pages);
    assert forall|p: PageId| #[trigger]
        dirty_in(first.pool, frames, p) == (first.pool.page_table.contains_key(p)
            && first.pool.page(first.pool.page_table[p]).is_dirty) by {
        if first.pool.page_table.contains_key(p) {
            let f = first.pool.page_table[p];
            assert(first.pool.page(f).is_dirty ==> frames.contains(f));
        }
    }
    assert(last.disk =~= all_flushed(first).disk);
}

/// After a flush of all pages no page needs a write, and every page whose bytes
/// were settled has them on disk. Nothing else is changed in the pool, and no
/// page on disk but those that were dirty.
pub proof fn law_flush_all_cleans(states: Seq<System>)
    requires
        states[0].pool.pages.len() <= usize::MAX,
        states[0].inv(),
        states[0].pending is Idle,
        flushes_all(states),
    ensures
        states.last() == all_flushed(states[0]),
        forall|f: FrameId|
            f < states[0].pool.pages.len() ==> !(#[trigger] states.last().pool.page(f)).is_dirty,
        forall|p: PageId| #[trigger]
            states[0].settled(p) ==> states.last().disk.contains_pair(p, states[0].contents(p)),
{
    let frames = Seq::new(states[0].pool.pages.len(), |i: int| i as FrameId);
    let after = states.last();
    assert forall|f: FrameId| f < states[0].pool.pages.len() implies frames.contains(f) by {
        assert(frames[f as int] == f);
    }
    lemma_covering_flush(states, frames);
    lemma_flush_frames(states, frames, frames.len() as int);
    assert forall|p: PageId| #[trigger] states[0].settled(p) implies after.disk.contains_pair(
        p,
        states[0].contents(p),
    ) by {
        assert(after.settled(p));
        if after.pool.page_table.contains_key(p) {
            assert(after.pool.page_table[p] < after.pool.pages.len());
        }
    }
}

/// The flush of pages in the pool is the flush of their frames.
proof fn lemma_pages_are_frames(states: Seq<System>, order: Seq<PageId>, n: int)
    requires
        states[0].inv(),
        states[0].pending is Idle,
        flushes_pages(states, order),
        0 <= n <= order.len(),
    ensures
        states[n].inv(),
        states[n].pending is Idle,
        states[n].pool.page_table == states[0].pool.page_table,
    decreases n,
{
    if n > 0 {
        lemma_pages_are_frames(states, order, n - 1);
        let f = states[n - 1].pool.page_table[order[n - 1]];
        lemma_flush_frame(states[n - 1], f, states[n]);
    }
}

/// The flush of every page in the table, in any order, leaves the same pool and
/// the same disk as the flush of all pages.
pub proof fn law_flush_all_is_flush_of_every_page(
    states: Seq<System>,
    paged: Seq<System>,
    order: Seq<PageId>,
)
    requires
        states[0].pool.pages.len() <= usize::MAX,
        states[0].inv(),
        states[0].pending is Idle,
        flushes_all(states),
        paged[0] == states[0],
        flushes_pages(paged, order),
        forall|p: PageId| #[trigger]
            states[0].pool.page_table.contains_key(p) ==> order.contains(p),
    ensures
        paged.last() == states.last(),
        states.last() == all_flushed(states[0]),
{
    let first = states[0];
    law_flush_all_cleans(states);
    let frames = Seq::new(order.len(), |i: int| first.pool.page_table[order[i]]);
    assert forall|i: int| 0 <= i < frames.len() implies flushes_frame(
        paged[i],
        #[trigger] frames[i],
        paged[i + 1],
    ) by {
        lemma_pages_are_frames(paged, order, i);
        assert(paged[i].pool.page_table.contains_key(order[i]));
    }
    assert forall|f: FrameId|
        f < first.pool.pages.len() && (
        #[trigger] first.pool.page(f)).is_dirty implies frames.contains(f) by {
        assert(first.pool.resident(f));
        let i = order.index_of(first.pool.page(f).page_id);
        assert(order.contains(first.pool.page(f).page_id));
        assert(frames[i] == f);
    }
    lemma_covering_flush(paged, frames);
}

/// Whether a flush of the page would write nothing: it is clean, or not in the
/// pool.
pub open spec fn needs_no_write(system: System, page_id: PageId) -> bool {
    system.pool.page_table.contains_key(page_id) ==> !system.pool.page(
        system.pool.page_table[page_id],
    ).is_dirty
}

/// Whether the action puts bytes into the page.
pub open spec fn stores_to(before: System, action: Action, page_id: PageId) -> bool {
    action matches Action::Store { frame_id, .. } && before.pool.page(frame_id).page_id == page_id
}

/// Whether the action ends a flush of the page without an error: the write
/// succeeded, or none was needed and no guard was at the bytes.
pub open spec fn ends_flush(before: System, action: Action, page_id: PageId) -> bool {
    match action {
        Action::Flush { frame_id } => {
            &&& before.pool.page_table.contains_pair(page_id, frame_id)
            &&& before.pool.page(frame_id).latch is Free
            &&& !before.pool.page(frame_id).is_dirty
        },
        Action::FlushWritten { ok } => {
            &&& ok
            &&& before.pending matches Pending::FlushWrite { write }
            &&& write.id() == page_id
        },
        _ => false,
    }
}

/// A page that needs no write stays so under every action but a store to it.
pub proof fn law_clean_pages_stay_clean(
    before: System,
    action: Action,
    after: System,
    page_id: PageId,
)
    requires
        before.inv(),
        before.steps_to(action, after),
        needs_no_write(before, page_id),
        !stores_to(before, action, page_id),
    ensures
        needs_no_write(after, page_id),
{
    let pool = before.pool;
    law_order_is_kept(before, action, after);
    match action {
        Action::NewPage | Action::FetchPage { .. } => {
            lemma_claim(pool);
        },
        Action::DeletePage { page_id: doomed } => {
            let f = pool.page_table[doomed];
            if pool.page_table.contains_key(doomed) && pool.page(f).pin_count == 0 && !pool.page(
                f,
            ).is_dirty {
                lemma_erase(pool, doomed);
            }
        },
        Action::DeleteWritten { ok } => {
            if let Pending::DeleteWrite { page_id: doomed, write } = before.pending {
                lemma_clean(pool, write.frame());
                lemma_erase(pool.clean(write.frame()), doomed);
            }
        },
        _ => {},
    }
}

/// A page that was flushed without an error needs no write.
pub proof fn law_flushed_page_is_clean(
    before: System,
    action: Action,
    after: System,
    page_id: PageId,
)
    requires
        before.inv(),
        before.steps_to(action, after),
        ends_flush(before, action, page_id),
    ensures
        needs_no_write(after, page_id),
{
    if let Pending::FlushWrite { write } = before.pending {
        assert(before.pool.resident(write.frame()));
    }
}

/// A second flush of a page writes nothing and changes nothing, whatever was
/// done since the first one, as long as no bytes were put into the page. The
/// first flush ended with the action before the `i`-th state, or did not find
/// the page in the pool then.
pub proof fn law_second_flush_writes_nothing(
    states: Seq<System>,
    actions: Seq<Action>,
    i: int,
    j: int,
    page_id: PageId,
)
    requires
        is_run(states, actions),
        0 <= i <= j < states.len(),
        !states[i].pool.page_table.contains_key(page_id) || (i > 0 && ends_flush(
            states[i - 1],
            actions[i - 1],
            page_id,
        )),
        forall|l: int| i <= l < j ==> !stores_to(states[l], #[trigger] actions[l], page_id),
    ensures
        needs_no_write(states[j], page_id),
        states[j].pool.page_table.contains_key(page_id) ==> forall|begun: System| #[trigger]
            states[j].steps_to(
                Action::Flush { frame_id: states[j].pool.page_table[page_id] },
                begun,
            ) ==> begun == states[j],
        states[j].pool.page_table.contains_key(page_id) ==> forall|done: System| #[trigger]
            flushes_frame(states[j], states[j].pool.page_table[page_id], done) ==> done
                == states[j],
    decreases j,
{
    law_runs_stay_in_order(states, actions, j);
    if i < j {
        law_runs_stay_in_order(states, actions, j - 1);
        law_second_flush_writes_nothing(states, actions, i, j - 1, page_id);
        law_clean_pages_stay_clean(states[j - 1], actions[j - 1], states[j], page_id);
    } else if states[i].pool.page_table.contains_key(page_id) {
        law_runs_stay_in_order(states, actions, i - 1);
        law_flushed_page_is_clean(states[i - 1], actions[i - 1], states[i], page_id);
    }
}

} // verus!
