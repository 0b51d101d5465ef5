//! How the operations of the pool relate to each other.
use vstd::prelude::*;

use crate::coherence::{lemma_claim, lemma_erase};
use crate::page::{FrameId, PageId, PageState};
use crate::replacer::lemma_access_tracks;
use crate::state::{wrapping_next, PoolState};
use crate::system::{is_run, law_runs_stay_in_order, Action, Pending, System};

verus! {

/// A page that is fetched from the pool and given back is held as often as
/// before. All pages and the table are as they were, and the frame may be given
/// up exactly when nobody held the page before.
pub proof fn law_release_undoes_fetch(state: PoolState, page_id: PageId)
    requires
        state.coherent(),
        state.page_table.contains_key(page_id),
        state.page(state.page_table[page_id]).pin_count < usize::MAX,
    ensures
        ({
            let f = state.page_table[page_id];
            let after = state.pin(f).unpin(f);
            &&& after.pages == state.pages
            &&& after.page_table == state.page_table
            &&& after.free_list == state.free_list
            &&& after.next_page_id == state.next_page_id
            &&& after.replacer.log == state.replacer.access(f).log
            &&& after.replacer.evictable == if state.page(f).pin_count == 0 {
                state.replacer.evictable.insert(f)
            } else {
                state.replacer.evictable
            }
        }),
{
    let f = state.page_table[page_id];
    let held = state.pin(f);
    let after = held.unpin(f);
    lemma_access_tracks(state.replacer, f);
    assert(state.replacer.access(f).tracks(f));
    assert(held.replacer.tracks(f));
    assert(after.pages =~= state.pages);
    if state.page(f).pin_count == 0 {
        assert(after.replacer.evictable =~= state.replacer.evictable.insert(f));
    } else {
        assert(state.replacer.tracks(f));
        assert(after.replacer.evictable =~= state.replacer.evictable);
    }
}

/// A page that was deleted is no longer in the pool, its frame is the last of
/// the free ones, and the other pages are where they were.
pub proof fn law_deleted_page_is_gone(state: PoolState, page_id: PageId)
    requires
        state.coherent(),
        state.page_table.contains_key(page_id),
        state.page(state.page_table[page_id]).pin_count == 0,
        !state.page(state.page_table[page_id]).is_dirty,
    ensures
        ({
            let f = state.page_table[page_id];
            let after = state.erase(page_id, f);
            &&& after.page_table == state.page_table.remove(page_id)
            &&& after.free_list == state.free_list.push(f)
            &&& forall|g: FrameId|
                g != f && g < state.pages.len() ==> after.page(g) == #[trigger] state.page(g)
        }),
{
    lemma_erase(state, page_id);
}

/// Whether the action makes a new page.
pub open spec fn creates(before: System, action: Action) -> bool {
    match action {
        Action::NewPage => before.pool.claim() is Ready,
        Action::NewPageWritten { ok } => ok,
        _ => false,
    }
}

/// Each new page gets the next id, is in the pool under it, blank and held
/// once; nothing else uses up an id.
pub proof fn law_new_pages_get_successive_ids(before: System, action: Action, after: System)
    requires
        before.inv(),
        before.steps_to(action, after),
    ensures
        after.pool.next_page_id == if creates(before, action) {
            wrapping_next(before.pool.next_page_id)
        } else {
            before.pool.next_page_id
        },
        creates(before, action) ==> {
            let page_id = before.pool.next_page_id;
            &&& after.pool.page_table.contains_key(page_id)
            &&& after.pool.page(after.pool.page_table[page_id]) == (PageState {
                pin_count: 1,
                ..PageState::blank(page_id)
            })
        },
{
    lemma_claim(before.pool);
}

/// As long as the ids do not run out, they grow throughout a run, so that no
/// two new pages get the same one.
pub proof fn law_new_ids_are_distinct(
    states: Seq<System>,
    actions: Seq<Action>,
    i: int,
    j: int,
)
    requires
        is_run(states, actions),
        0 <= i < j < states.len(),
        forall|l: int|
            0 <= l < actions.len() ==> (#[trigger] states[l]).pool.next_page_id < usize::MAX,
    ensures
        states[i].pool.next_page_id <= states[j].pool.next_page_id,
        creates(states[i], actions[i]) ==> states[i].pool.next_page_id
            < states[j].pool.next_page_id,
    decreases j,
{
    law_runs_stay_in_order(states, actions, j - 1);
    law_new_pages_get_successive_ids(states[j - 1], actions[j - 1], states[j]);
    assert(states[j - 1].pool.next_page_id < usize::MAX);
    if i < j - 1 {
        law_new_ids_are_distinct(states, actions, i, j - 1);
    }
}

/// How many new pages the first `n` actions of a run made.
pub open spec fn pages_made(states: Seq<System>, actions: Seq<Action>, n: int) -> nat
    decreases n,
{
    if n <= 0 {
        0
    } else {
        pages_made(states, actions, n - 1) + if creates(states[n - 1], actions[n - 1]) {
            1nat
        } else {
            0
        }
    }
}

/// In every run from a pool without any page the ids of new pages count up from
/// 0, as long as they do not run out: the first new page gets id 0, and each
/// gets as its id the number of those made before it. It is in the pool under
/// that id, blank and held once.
pub proof fn law_new_ids_count_from_zero(
    pool_size: usize,
    k: nat,
    states: Seq<System>,
    actions: Seq<Action>,
    n: int,
)
    requires
        is_run(states, actions),
        states[0] == System::initial(pool_size as nat, k, states[0].disk),
        0 <= n < states.len(),
        pages_made(states, actions, n) <= usize::MAX,
    ensures
        states[n].pool.next_page_id == pages_made(states, actions, n),
        n < actions.len() && creates(states[n], actions[n]) ==> {
            let page_id = (pages_made(states, actions, n + 1) - 1) as PageId;
            let after = states[n + 1].pool;
            &&& page_id == pages_made(states, actions, n + 1) - 1
            &&& after.page_table.contains_key(page_id)
            &&& after.page(after.page_table[page_id]) == (PageState {
                pin_count: 1,
                ..PageState::blank(page_id)
            })
        },
    decreases n,
{
    law_runs_stay_in_order(states, actions, n);
    if n > 0 {
        law_runs_stay_in_order(states, actions, n - 1);
        law_new_ids_count_from_zero(pool_size, k, states, actions, n - 1);
        law_new_pages_get_successive_ids(states[n - 1], actions[n - 1], states[n]);
    }
    if n < actions.len() && creates(states[n], actions[n]) {
        law_new_pages_get_successive_ids(states[n], actions[n], states[n + 1]);
    }
}

/// Whether only ids that were handed out are in the pool or on their way there.
pub open spec fn only_allocated(system: System) -> bool {
    &&& forall|p: PageId| #[trigger]
        system.pool.page_table.contains_key(p) ==> p < system.pool.next_page_id
    &&& match system.pending {
        Pending::FetchWrite { page_id, .. } => page_id < system.pool.next_page_id,
        Pending::FetchRead { read } => read.id() < system.pool.next_page_id,
        _ => true,
    }
}

/// Where only pages are fetched whose ids were handed out, and the ids do not
/// run out, the id of the next new page is never in use.
pub proof fn law_next_id_is_unused(before: System, action: Action, after: System)
    requires
        before.inv(),
        before.steps_to(action, after),
        before.pool.next_page_id < usize::MAX,
        only_allocated(before),
        action matches Action::FetchPage { page_id } ==> page_id < before.pool.next_page_id,
    ensures
        only_allocated(after),
        !after.pool.page_table.contains_key(after.pool.next_page_id),
{
    law_new_pages_get_successive_ids(before, action, after);
    lemma_claim(before.pool);
}

} // verus!
