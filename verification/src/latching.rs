//! How guards and flushes share the bytes of a page.
use vstd::prelude::*;

use crate::coherence::{lemma_claim, lemma_clean, lemma_erase};
use crate::page::{FrameId, Latch, PageState, MAX_READERS};
use crate::references::law_pin_count_follows_references;
use crate::system::{is_run, law_runs_stay_in_order, Action, Pending, System};

verus! {

/// Whether the action asks for the bytes in the frame, for a guard or a flush.
pub open spec fn asks_for_bytes(action: Action, frame_id: FrameId) -> bool {
    match action {
        Action::TakeWrite { frame_id: f } => f == frame_id,
        Action::TakeRead { frame_id: f } => f == frame_id,
        Action::Flush { frame_id: f } => f == frame_id,
        _ => false,
    }
}

/// Whether the action puts bytes into the frame.
pub open spec fn stores_in(action: Action, frame_id: FrameId) -> bool {
    action matches Action::Store { frame_id: f, .. } && f == frame_id
}

/// Whether the bytes in the frame are in the hands of a guard that may change
/// them.
pub open spec fn has_writer(system: System, frame_id: FrameId) -> bool {
    &&& frame_id < system.pool.pages.len()
    &&& system.pool.page(frame_id).latch is Write
    &&& !system.is_flushing(frame_id)
}

/// Whether the page is the same, with the same bytes, and as dirty.
pub open spec fn same_bytes(before: PageState, after: PageState) -> bool {
    &&& after.page_id == before.page_id
    &&& after.data == before.data
    &&& after.is_dirty == before.is_dirty
}

/// An action that does not ask for the bytes of a held or latched page, and
/// gives none back, leaves them and their latch alone.
proof fn lemma_others_leave_bytes_alone(
    before: System,
    action: Action,
    after: System,
    frame_id: FrameId,
)
    requires
        before.inv(),
        before.steps_to(action, after),
        frame_id < before.pool.pages.len(),
        !(before.pool.page(frame_id).latch is Free),
        !asks_for_bytes(action, frame_id),
        !stores_in(action, frame_id),
        action != (Action::EndRead { frame_id }),
        !(action is FlushWritten && before.is_flushing(frame_id)),
    ensures
        after.pool.pages.len() == before.pool.pages.len(),
        same_bytes(before.pool.page(frame_id), after.pool.page(frame_id)),
        after.pool.page(frame_id).latch == before.pool.page(frame_id).latch,
        after.is_flushing(frame_id) == before.is_flushing(frame_id),
{
    let pool = before.pool;
    if pool.page(frame_id).pin_count > 0 {
        assert(pool.replacer.tracks(frame_id));
    }
    match action {
        Action::NewPage | Action::FetchPage { .. } => {
            lemma_claim(pool);
        },
        Action::DeletePage { page_id: doomed } => {
            if pool.page_table.contains_key(doomed) && pool.page(
                pool.page_table[doomed],
            ).pin_count == 0 && !pool.page(pool.page_table[doomed]).is_dirty {
                lemma_erase(pool, doomed);
            }
        },
        Action::DeleteWritten { ok } => {
            if let Pending::DeleteWrite { page_id: doomed, write } = before.pending {
                lemma_clean(pool, write.frame());
                lemma_erase(pool.clean(write.frame()), doomed);
            }
        },
        _ => {},
    }
}

/// A guard that may change the bytes of a page is alone with them: until it is
/// given back no other guard and no flush gets at them, they stay as they are in
/// the pool, and what it gives back becomes the bytes of the page.
pub proof fn law_writer_is_alone(before: System, action: Action, after: System, frame_id: FrameId)
    requires
        before.inv(),
        before.steps_to(action, after),
        has_writer(before, frame_id),
    ensures
        asks_for_bytes(action, frame_id) ==> after == before,
        !stores_in(action, frame_id) ==> {
            &&& has_writer(after, frame_id)
            &&& same_bytes(before.pool.page(frame_id), after.pool.page(frame_id))
        },
        action matches Action::Store { frame_id: f, data } ==> f == frame_id ==> {
            &&& after.pool.page(frame_id).latch is Free
            &&& after.pool.page(frame_id).data == data
            &&& after.pool.page(frame_id).is_dirty
        },
{
    if !asks_for_bytes(action, frame_id) && !stores_in(action, frame_id) && action != (
    Action::EndRead { frame_id }) {
        lemma_others_leave_bytes_alone(before, action, after, frame_id);
    }
}

/// Guards that read the bytes of a page share them: until the last of them is
/// given back no guard that may change the bytes and no flush gets at them, and
/// they stay as they are.
pub proof fn law_readers_share(before: System, action: Action, after: System, frame_id: FrameId)
    requires
        before.inv(),
        before.steps_to(action, after),
        frame_id < before.pool.pages.len(),
        before.pool.page(frame_id).latch is Read,
    ensures
        same_bytes(before.pool.page(frame_id), after.pool.page(frame_id)),
        ({
            let latch = before.pool.page(frame_id).latch;
            after.pool.page(frame_id).latch == match action {
                Action::TakeRead { frame_id: f } if f == frame_id
                    && latch.admits_reader() => latch.with_reader(),
                Action::EndRead { frame_id: f } if f == frame_id => latch.without_reader(),
                _ => latch,
            }
        }),
{
    if !asks_for_bytes(action, frame_id) && action != (Action::EndRead { frame_id }) {
        lemma_others_leave_bytes_alone(before, action, after, frame_id);
    }
}

/// While a page is being flushed, no guard gets at its bytes, and they stay as
/// they are. When the disk has replied, others can get at them.
pub proof fn law_flush_keeps_guards_out(
    before: System,
    action: Action,
    after: System,
    frame_id: FrameId,
)
    requires
        before.inv(),
        before.steps_to(action, after),
        before.is_flushing(frame_id),
    ensures
        before.pool.page(frame_id).latch is Write,
        asks_for_bytes(action, frame_id) ==> after == before,
        after.pool.page(frame_id).data == before.pool.page(frame_id).data,
        !(action is FlushWritten) ==> after.is_flushing(frame_id),
        action is FlushWritten ==> after.pool.page(frame_id).latch is Free,
{
    assert(frame_id < before.pool.pages.len());
    if !asks_for_bytes(action, frame_id) && !(action is FlushWritten) {
        lemma_others_leave_bytes_alone(before, action, after, frame_id);
    }
}

/// The bytes that a guard took in order to change them stay in its hands, and in
/// the pool as they were, for as long as nothing is put back into the frame.
pub proof fn law_writer_keeps_the_bytes(
    states: Seq<System>,
    actions: Seq<Action>,
    i: int,
    j: int,
    frame_id: FrameId,
)
    requires
        is_run(states, actions),
        0 <= i < j < states.len(),
        actions[i] == (Action::TakeWrite { frame_id }),
        states[i].pool.page(frame_id).latch is Free,
        forall|l: int| i < l < j ==> !stores_in(#[trigger] actions[l], frame_id),
    ensures
        has_writer(states[j], frame_id),
        same_bytes(states[i].pool.page(frame_id), states[j].pool.page(frame_id)),
    decreases j,
{
    law_runs_stay_in_order(states, actions, j - 1);
    assert(states[j - 1].steps_to(actions[j - 1], states[j]));
    if i < j - 1 {
        law_writer_keeps_the_bytes(states, actions, i, j - 1, frame_id);
        law_writer_is_alone(states[j - 1], actions[j - 1], states[j], frame_id);
    } else {
        assert(states[i].pool.page(frame_id).latch is Free);
        assert(!states[i].is_flushing(frame_id));
    }
}

/// Guards that may change the bytes of a page take turns: between two that were
/// handed out, the first was given back.
pub proof fn law_writers_take_turns(
    states: Seq<System>,
    actions: Seq<Action>,
    i: int,
    j: int,
    frame_id: FrameId,
)
    requires
        is_run(states, actions),
        0 <= i < j < actions.len(),
        actions[i] == (Action::TakeWrite { frame_id }),
        states[i].pool.page(frame_id).latch is Free,
        actions[j] == (Action::TakeWrite { frame_id }),
        states[j].pool.page(frame_id).latch is Free,
    ensures
        exists|l: int| i < l < j && stores_in(#[trigger] actions[l], frame_id),
{
    if forall|l: int| i < l < j ==> !stores_in(#[trigger] actions[l], frame_id) {
        law_writer_keeps_the_bytes(states, actions, i, j, frame_id);
    }
}

/// How many guards that read the bytes in the frame the action hands out: one
/// that is let in, and one less than none for a guard that is given back.
pub open spec fn readers_in_frame(before: System, action: Action, frame_id: FrameId) -> int {
    match action {
        Action::TakeRead { frame_id: f } => if f == frame_id && before.pool.page(
            frame_id,
        ).latch.admits_reader() {
            1
        } else {
            0
        },
        Action::EndRead { frame_id: f } => if f == frame_id {
            -1
        } else {
            0
        },
        _ => 0,
    }
}

/// The guards that read the bytes in the frame and that the first `n` actions of
/// a run handed out and that were not given back.
pub open spec fn live_readers(
    states: Seq<System>,
    actions: Seq<Action>,
    frame_id: FrameId,
    n: int,
) -> int
    decreases n,
{
    if n <= 0 {
        0
    } else {
        live_readers(states, actions, frame_id, n - 1) + readers_in_frame(
            states[n - 1],
            actions[n - 1],
            frame_id,
        )
    }
}

/// In every run from a pool without any page, the latch on the bytes in a frame
/// counts the guards that read them: those handed out and not given back.
pub proof fn law_latch_counts_readers(
    pool_size: usize,
    k: nat,
    states: Seq<System>,
    actions: Seq<Action>,
    frame_id: FrameId,
    n: int,
)
    requires
        is_run(states, actions),
        states[0] == System::initial(pool_size as nat, k, states[0].disk),
        frame_id < pool_size,
        0 <= n < states.len(),
    ensures
        states[n].pool.pages.len() == pool_size,
        match states[n].pool.page(frame_id).latch {
            Latch::Read(readers) => {
                &&& readers == live_readers(states, actions, frame_id, n)
                &&& 0 < readers <= MAX_READERS
            },
            _ => live_readers(states, actions, frame_id, n) == 0,
        },
    decreases n,
{
    if n > 0 {
        law_latch_counts_readers(pool_size, k, states, actions, frame_id, n - 1);
        law_runs_stay_in_order(states, actions, n - 1);
        let before = states[n - 1];
        let action = actions[n - 1];
        assert(before.steps_to(action, states[n]));
        law_pin_count_follows_references(before, action, states[n], frame_id);
        match before.pool.page(frame_id).latch {
            Latch::Free => {
                lemma_claim(before.pool);
            },
            Latch::Read(_) => {
                law_readers_share(before, action, states[n], frame_id);
            },
            Latch::Write => {
                if before.is_flushing(frame_id) {
                    if !(action is FlushWritten) {
                        law_flush_keeps_guards_out(before, action, states[n], frame_id);
                        law_runs_stay_in_order(states, actions, n);
                        assert(states[n].pool.page(frame_id).latch is Write);
                    }
                } else {
                    law_writer_is_alone(before, action, states[n], frame_id);
                }
            },
        }
    }
}

} // verus!
