//! The calls that flush all pages, one after the other.
use vstd::prelude::*;

use crate::calls::pending_flush;
use crate::error::RustDBResult;
use crate::flushing::{cleaned, dirty_in, written};
use crate::page::{FrameId, Latch, PageId, PageState};
use crate::pool::BufferPoolManager;
use crate::state::PoolState;
use crate::step::{
    begins_flush_all, flushes_all_after_write, flushes_all_latched, FlushStep, PageWrite,
};
use crate::system::{writes, System};

verus! {

/// Whether the caller, who was told `step`, does what it asks for, comes to
/// `after`, and is told `next`: at a frame the flush goes on, and after a write,
/// which does not fail, it goes on too. After the end there is nothing to do.
pub open spec fn follows(before: System, step: FlushStep, after: System, next: FlushStep) -> bool {
    &&& after.pending == pending_flush(next)
    &&& match step {
        FlushStep::Latch(f) => {
            &&& flushes_all_latched(before.pool, f, after.pool, next)
            &&& after.disk == before.disk
        },
        FlushStep::Write(write) => {
            &&& writes(before.disk, write, true, after.disk)
            &&& flushes_all_after_write(before.pool, write, Ok(()), after.pool, next)
        },
        FlushStep::Done(_) => false,
    }
}

/// Whether `steps` are what the caller is told one after the other who has all
/// pages flushed, `states` are what the system goes through, and no write fails.
pub open spec fn is_flush_of_all(states: Seq<System>, steps: Seq<FlushStep>) -> bool {
    &&& states.len() == steps.len() > 0
    &&& begins_flush_all(states[0].pool, steps[0])
    &&& forall|i: int|
        0 <= i < steps.len() - 1 ==> follows(
            states[i],
            #[trigger] steps[i],
            states[i + 1],
            steps[i + 1],
        )
}

/// Whether no guard and no flush is at any bytes.
pub open spec fn nobody_at_bytes(pool: PoolState) -> bool {
    forall|f: FrameId|
        f < pool.pages.len() ==> (#[trigger] pool.pages[f as int]).latch == Latch::Free
}

/// How many of the first `i` steps are at a frame.
pub open spec fn frames_before(steps: Seq<FlushStep>, i: int) -> int
    decreases i,
{
    if i <= 0 {
        0
    } else {
        frames_before(steps, i - 1) + if steps[i - 1] is Latch {
            1int
        } else {
            0
        }
    }
}

/// The first `n` frames.
spec fn first_frames(n: int) -> Seq<FrameId> {
    Seq::new(n as nat, |i: int| i as FrameId)
}

/// Which frames the first ones are.
proof fn lemma_first_frames(n: int)
    requires
        0 <= n <= usize::MAX,
    ensures
        forall|f: FrameId| #[trigger] first_frames(n).contains(f) <==> f < n,
{
    assert forall|f: FrameId| #[trigger] first_frames(n).contains(f) <==> f < n by {
        if f < n {
            assert(first_frames(n)[f as int] == f);
        }
    }
}

/// What one more flushed frame comes to.
proof fn lemma_one_more_frame(pool: PoolState, disk: Map<PageId, Seq<u8>>, n: int)
    requires
        pool.coherent(),
        0 <= n < pool.pages.len() <= usize::MAX,
    ensures
        ({
            let f = n as FrameId;
            let so_far = cleaned(pool, first_frames(n));
            &&& so_far.page(f) == pool.page(f)
            &&& cleaned(pool, first_frames(n + 1)) == if pool.page(f).is_dirty {
                so_far.clean(f)
            } else {
                so_far
            }
            &&& written(pool, disk, first_frames(n + 1)) == if pool.page(f).is_dirty {
                written(pool, disk, first_frames(n)).insert(pool.page(f).page_id, pool.page(f).data)
            } else {
                written(pool, disk, first_frames(n))
            }
        }),
{
    let f = n as FrameId;
    let so_far = cleaned(pool, first_frames(n));
    lemma_first_frames(n);
    lemma_first_frames(n + 1);
    assert(so_far.page(f) == pool.page(f));
    let next = cleaned(pool, first_frames(n + 1));
    if pool.page(f).is_dirty {
        assert(pool.resident(f));
        assert forall|p: PageId| #[trigger]
            dirty_in(pool, first_frames(n + 1), p) <==> dirty_in(pool, first_frames(n), p) || p
                == pool.page(f).page_id by {
            if pool.page_table.contains_key(p) && pool.page_table[p] == f {
                assert(pool.page(pool.page_table[p]).page_id == p);
            }
        }
        assert(next.pages =~= so_far.clean(f).pages);
        assert(written(pool, disk, first_frames(n + 1)) =~= written(
            pool,
            disk,
            first_frames(n),
        ).insert(pool.page(f).page_id, pool.page(f).data));
    } else {
        assert forall|p: PageId| #[trigger]
            dirty_in(pool, first_frames(n + 1), p) == dirty_in(pool, first_frames(n), p) by {}
        assert(next.pages =~= so_far.pages);
        assert(written(pool, disk, first_frames(n + 1)) =~= written(
            pool,
            disk,
            first_frames(n),
        ));
    }
}

/// Where the calls stand at the `i`-th step: the frames before are flushed, and
/// the step concerns the next one, or all are flushed, and the flush is over.
proof fn lemma_flush_of_all(states: Seq<System>, steps: Seq<FlushStep>, i: int)
    requires
        states[0].pool.coherent(),
        states[0].pool.pages.len() <= usize::MAX,
        nobody_at_bytes(states[0].pool),
        is_flush_of_all(states, steps),
        0 <= i < steps.len(),
    ensures
        ({
            let pool = states[0].pool;
            let disk = states[0].disk;
            let n = frames_before(steps, i);
            match steps[i] {
                FlushStep::Latch(f) => {
                    &&& f == n < pool.pages.len()
                    &&& i <= 2 * n
                    &&& states[i].pool == cleaned(pool, first_frames(n))
                    &&& states[i].disk == written(pool, disk, first_frames(n))
                },
                FlushStep::Write(write) => {
                    let f = (n - 1) as FrameId;
                    &&& 0 < n <= pool.pages.len()
                    &&& i < 2 * n
                    &&& write.is_of(pool, f)
                    &&& pool.page(f).is_dirty
                    &&& states[i].pool == cleaned(pool, first_frames(n - 1)).latch_write(f)
                    &&& states[i].disk == written(pool, disk, first_frames(n - 1))
                },
                FlushStep::Done(result) => {
                    &&& result is Ok
                    &&& n == pool.pages.len()
                    &&& i <= 2 * n
                    &&& states[i].pool == cleaned(pool, first_frames(n))
                    &&& states[i].disk == written(pool, disk, first_frames(n))
                },
            }
        }),
    decreases i,
{
    let pool = states[0].pool;
    let disk = states[0].disk;
    if i == 0 {
        lemma_first_frames(0);
        assert(cleaned(pool, first_frames(0)).pages =~= pool.pages);
        assert(written(pool, disk, first_frames(0)) =~= disk);
    } else {
        lemma_flush_of_all(states, steps, i - 1);
        let n = frames_before(steps, i - 1);
        assert(follows(states[i - 1], steps[i - 1], states[i - 1 + 1], steps[i - 1 + 1]));
        match steps[i - 1] {
            FlushStep::Latch(f) => {
                lemma_one_more_frame(pool, disk, n);
                assert(pool.pages[f as int].latch == Latch::Free);
            },
            FlushStep::Write(write) => {
                let f = (n - 1) as FrameId;
                lemma_one_more_frame(pool, disk, n - 1);
                let so_far = cleaned(pool, first_frames(n - 1));
                assert(pool.pages[f as int].latch == Latch::Free);
                assert(so_far.latch_write(f).end_flush(f, true).pages =~= so_far.clean(f).pages);
            },
            FlushStep::Done(_) => {},
        }
    }
}

/// The calls that flush all pages come to every frame once, in order: the first
/// step at a frame is at frame 0, and each is at the frame after the one before.
/// When they are over, they have been to all frames, and no call fails unless
/// the disk does.
pub proof fn law_flush_of_all_comes_to_every_frame(
    states: Seq<System>,
    steps: Seq<FlushStep>,
    i: int,
)
    requires
        states[0].inv(),
        states[0].pool.pages.len() <= usize::MAX,
        nobody_at_bytes(states[0].pool),
        is_flush_of_all(states, steps),
        0 <= i < steps.len(),
    ensures
        steps[i] matches FlushStep::Latch(f) ==> f == frames_before(steps, i),
        steps[i] matches FlushStep::Done(result) ==> result is Ok && frames_before(steps, i)
            == states[0].pool.pages.len(),
        frames_before(steps, i) <= states[0].pool.pages.len(),
{
    lemma_flush_of_all(states, steps, i);
}

/// The calls that flush all pages come to an end: two for each frame are enough.
pub proof fn law_flush_of_all_ends(states: Seq<System>, steps: Seq<FlushStep>)
    requires
        states[0].inv(),
        states[0].pool.pages.len() <= usize::MAX,
        nobody_at_bytes(states[0].pool),
        is_flush_of_all(states, steps),
    ensures
        steps.len() <= 2 * states[0].pool.pages.len() + 1,
        steps.len() == 2 * states[0].pool.pages.len() + 1 ==> steps.last() is Done,
{
    lemma_flush_of_all(states, steps, steps.len() - 1);
}

/// When the calls that flush all pages are over, no page in the pool needs a
/// write, and every page that needed one is on disk with the bytes that it has
/// in the pool. No other page on disk is changed, and nothing in the pool but
/// that the pages are clean.
pub proof fn law_flush_of_all_flushes_all(states: Seq<System>, steps: Seq<FlushStep>)
    requires
        states[0].inv(),
        states[0].pool.pages.len() <= usize::MAX,
        nobody_at_bytes(states[0].pool),
        is_flush_of_all(states, steps),
        steps.last() is Done,
    ensures
        steps.last() matches FlushStep::Done(Ok(_)),
        ({
            let before = states[0].pool;
            let after = states.last().pool;
            &&& after.pages.len() == before.pages.len()
            &&& forall|f: FrameId|
                f < before.pages.len() ==> {
                    let page = #[trigger] before.pages[f as int];
                    &&& after.pages[f as int] == (PageState { is_dirty: false, ..page })
                    &&& page.is_dirty ==> states.last().disk.contains_pair(page.page_id, page.data)
                }
            &&& after.page_table == before.page_table
            &&& after.free_list == before.free_list
            &&& after.replacer == before.replacer
            &&& after.next_page_id == before.next_page_id
        }),
        forall|p: PageId|
            (forall|f: FrameId|
                f < states[0].pool.pages.len() && (#[trigger] states[0].pool.pages[f as int]).is_dirty
                    ==> states[0].pool.pages[f as int].page_id != p) ==> {
                &&& #[trigger] states.last().disk.contains_key(p) == states[0].disk.contains_key(p)
                &&& states[0].disk.contains_key(p) ==> states.last().disk[p] == states[0].disk[p]
            },
{
    let before = states[0].pool;
    lemma_flush_of_all(states, steps, steps.len() - 1);
    lemma_first_frames(before.pages.len() as int);
    assert forall|f: FrameId| f < before.pages.len() && (
    #[trigger] before.pages[f as int]).is_dirty implies states.last().disk.contains_pair(
        before.pages[f as int].page_id,
        before.pages[f as int].data,
    ) by {
        assert(before.resident(f));
        assert(dirty_in(
            before,
            first_frames(before.pages.len() as int),
            before.pages[f as int].page_id,
        ));
    }
    assert forall|p: PageId|
        (forall|f: FrameId|
            f < before.pages.len() && (#[trigger] before.pages[f as int]).is_dirty
                ==> before.pages[f as int].page_id != p) implies {
        &&& #[trigger] states.last().disk.contains_key(p) == states[0].disk.contains_key(p)
        &&& states[0].disk.contains_key(p) ==> states.last().disk[p] == states[0].disk[p]
    } by {
        if before.page_table.contains_key(p) {
            assert(before.pages[before.page_table[p] as int].page_id == p);
        }
        assert(!dirty_in(before, first_frames(before.pages.len() as int), p));
    }
}

/// [`BufferPoolManager::flush_page_all`] tells the first step of a flush of all.
pub proof fn law_flush_page_all_begins(pool: &BufferPoolManager, step: FlushStep)
    requires
        call_ensures(BufferPoolManager::flush_page_all, (pool,), step),
    ensures
        begins_flush_all(pool@, step),
{
}

/// [`BufferPoolManager::flush_page_all_latched`] follows a step at a frame.
pub proof fn law_flush_page_all_latched_follows(
    pool: &mut BufferPoolManager,
    frame_id: FrameId,
    disk: Map<PageId, Seq<u8>>,
    next: FlushStep,
)
    requires
        call_ensures(BufferPoolManager::flush_page_all_latched, (pool, frame_id), next),
    ensures
        ({
            let step = FlushStep::Latch(frame_id);
            follows(
                System { pool: old(pool)@, disk, pending: pending_flush(step) },
                step,
                System { pool: final(pool)@, disk, pending: pending_flush(next) },
                next,
            )
        }),
{
}

/// [`BufferPoolManager::flush_page_all_written`] follows a write that did not
/// fail.
pub proof fn law_flush_page_all_written_follows(
    pool: &mut BufferPoolManager,
    write: PageWrite,
    reply: RustDBResult<()>,
    before: Map<PageId, Seq<u8>>,
    after: Map<PageId, Seq<u8>>,
    next: FlushStep,
)
    requires
        call_ensures(BufferPoolManager::flush_page_all_written, (pool, write, reply), next),
        reply is Ok,
        writes(before, write, true, after),
    ensures
        ({
            let step = FlushStep::Write(write);
            follows(
                System { pool: old(pool)@, disk: before, pending: pending_flush(step) },
                step,
                System { pool: final(pool)@, disk: after, pending: pending_flush(next) },
                next,
            )
        }),
{
}

} // verus!
