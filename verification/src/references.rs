//! How often a page is held: by the references handed out and not given back.
use vstd::prelude::*;

use crate::availability::{law_runs_lose_no_frame, loses_frame};
use crate::coherence::{lemma_claim, lemma_clean, lemma_erase};
use crate::page::{FrameId, PageId};
use crate::state::{Claim, PoolState};
use crate::system::{
    is_run, law_order_is_kept, law_runs_stay_in_order, Action, Pending, System,
};

verus! {

/// How many references to the page in the frame the action hands out: one for a
/// new page, a page from disk or a page found in the pool, and one less than
/// none for a reference that is given back.
pub open spec fn references_in_frame(before: System, action: Action, frame_id: FrameId) -> int {
    match action {
        Action::NewPage => if before.pool.claim() == Claim::Ready(frame_id) {
            1
        } else {
            0
        },
        Action::NewPageWritten { ok } => if ok && (before.pending matches Pending::NewWrite {
            write,
        } && write.frame() == frame_id) {
            1
        } else {
            0
        },
        Action::FetchPage { page_id } => if before.pool.page_table.contains_pair(
            page_id,
            frame_id,
        ) {
            1
        } else {
            0
        },
        Action::FetchRead { reply } => if reply is Some && (
        before.pending matches Pending::FetchRead { read } && read.frame() == frame_id) {
            1
        } else {
            0
        },
        Action::Release { frame_id: released } => if released == frame_id {
            -1
        } else {
            0
        },
        _ => 0,
    }
}

/// How many references to the page the action hands out: one for a new page, a
/// page from disk or a page found in the pool, and one less than none for a
/// reference that is given back.
pub open spec fn references_to_page(before: System, action: Action, page_id: PageId) -> int {
    match action {
        Action::NewPage => if before.pool.claim() is Ready && before.pool.next_page_id == page_id {
            1
        } else {
            0
        },
        Action::NewPageWritten { ok } => if ok && before.pool.next_page_id == page_id {
            1
        } else {
            0
        },
        Action::FetchPage { page_id: wanted } => if wanted == page_id
            && before.pool.page_table.contains_key(page_id) {
            1
        } else {
            0
        },
        Action::FetchRead { reply } => if reply is Some && (
        before.pending matches Pending::FetchRead { read } && read.id() == page_id) {
            1
        } else {
            0
        },
        Action::Release { frame_id } => if before.pool.page(frame_id).page_id == page_id {
            -1
        } else {
            0
        },
        _ => 0,
    }
}

/// How often the page is held: as its pin count says, or not at all where it is
/// not in the pool.
pub open spec fn times_held(pool: PoolState, page_id: PageId) -> int {
    if pool.page_table.contains_key(page_id) {
        pool.page(pool.page_table[page_id]).pin_count as int
    } else {
        0
    }
}

/// The references to the page that the first `n` actions of a run handed out
/// and that were not given back.
pub open spec fn live_references(
    states: Seq<System>,
    actions: Seq<Action>,
    page_id: PageId,
    n: int,
) -> int
    decreases n,
{
    if n <= 0 {
        0
    } else {
        live_references(states, actions, page_id, n - 1) + references_to_page(
            states[n - 1],
            actions[n - 1],
            page_id,
        )
    }
}

/// The pin count of the page in a frame goes up by one with each reference that
/// is handed out, and down by one with each that is given back; nothing else
/// changes it.
pub proof fn law_pin_count_follows_references(
    before: System,
    action: Action,
    after: System,
    frame_id: FrameId,
)
    requires
        before.inv(),
        before.steps_to(action, after),
        frame_id < before.pool.pages.len(),
    ensures
        after.pool.pages.len() == before.pool.pages.len(),
        after.pool.page(frame_id).pin_count == before.pool.page(frame_id).pin_count
            + references_in_frame(before, action, frame_id),
{
    let pool = before.pool;
    match action {
        Action::NewPage => {
            lemma_claim(pool);
        },
        Action::FetchPage { page_id } => {
            lemma_claim(pool);
        },
        Action::DeletePage { page_id } => {
            let f = pool.page_table[page_id];
            if pool.page_table.contains_key(page_id) && pool.page(f).pin_count == 0 && !pool.page(
                f,
            ).is_dirty {
                lemma_erase(pool, page_id);
            }
        },
        Action::DeleteWritten { ok } => {
            if let Pending::DeleteWrite { page_id, write } = before.pending {
                lemma_clean(pool, write.frame());
                lemma_erase(pool.clean(write.frame()), page_id);
            }
        },
        _ => {},
    }
}

/// A page is held once more with each reference to it that is handed out, and
/// once less with each that is given back; nothing else changes how often it is
/// held.
pub proof fn law_pages_are_held_by_references(
    before: System,
    action: Action,
    after: System,
    page_id: PageId,
)
    requires
        before.inv(),
        before.steps_to(action, after),
    ensures
        times_held(after.pool, page_id) == times_held(before.pool, page_id) + references_to_page(
            before,
            action,
            page_id,
        ),
{
    let pool = before.pool;
    law_order_is_kept(before, action, after);
    match action {
        Action::NewPage => {
            lemma_claim(pool);
        },
        Action::FetchPage { page_id: wanted } => {
            lemma_claim(pool);
        },
        Action::DeletePage { page_id: doomed } => {
            let f = pool.page_table[doomed];
            if pool.page_table.contains_key(doomed) && pool.page(f).pin_count == 0 && !pool.page(
                f,
            ).is_dirty {
                lemma_erase(pool, doomed);
            }
        },
        Action::DeleteWritten { ok } => {
            if let Pending::DeleteWrite { page_id: doomed, write } = before.pending {
                lemma_clean(pool, write.frame());
                lemma_erase(pool.clean(write.frame()), doomed);
            }
        },
        Action::Release { frame_id } => {
            assert(pool.replacer.tracks(frame_id));
            assert(pool.resident(frame_id));
        },
        _ => {},
    }
}

/// In every run from a pool without any page, a page is held as often as there
/// are references to it that were handed out and not given back, and a page
/// with such a reference is in the pool. Between operations, as long as no
/// frame was lost to a failure of the disk, its frame may be given up exactly
/// when there is no such reference.
pub proof fn law_pin_count_is_number_of_live_references(
    pool_size: usize,
    k: nat,
    states: Seq<System>,
    actions: Seq<Action>,
    page_id: PageId,
    n: int,
)
    requires
        is_run(states, actions),
        states[0] == System::initial(pool_size as nat, k, states[0].disk),
        0 <= n < states.len(),
    ensures
        times_held(states[n].pool, page_id) == live_references(states, actions, page_id, n),
        live_references(states, actions, page_id, n) > 0
            ==> states[n].pool.page_table.contains_key(page_id),
        ({
            &&& states[n].pending is Idle
            &&& states[n].pool.page_table.contains_key(page_id)
            &&& forall|l: int| 0 <= l < n ==> !loses_frame(#[trigger] actions[l])
        }) ==> (states[n].pool.replacer.may_evict(states[n].pool.page_table[page_id])
            <==> live_references(states, actions, page_id, n) == 0),
    decreases n,
{
    let pool = states[n].pool;
    law_runs_stay_in_order(states, actions, n);
    if n > 0 {
        law_runs_stay_in_order(states, actions, n - 1);
        law_pin_count_is_number_of_live_references(
            pool_size,
            k,
            states,
            actions,
            page_id,
            n - 1,
        );
        law_pages_are_held_by_references(states[n - 1], actions[n - 1], states[n], page_id);
    }
    if states[n].pending is Idle && pool.page_table.contains_key(page_id) && forall|l: int|
        0 <= l < n ==> !loses_frame(#[trigger] actions[l]) {
        law_runs_lose_no_frame(pool_size, k, states, actions, n);
        let f = pool.page_table[page_id];
        assert(pool.resident(f));
        assert(pool.free_list.contains(f) || pool.replacer.tracks(f));
        assert(pool.replacer.tracks(f));
    }
}

} // verus!
