//! Which page makes room for another: what the LRU-K policy comes to in a run,
//! counted on what the callers do.
use vstd::prelude::*;

use crate::availability::{law_runs_lose_no_frame, loses_frame};
use crate::coherence::{lemma_claim, lemma_clean, lemma_erase};
use crate::page::{FrameId, PageId};
use crate::references::{law_pages_are_held_by_references, times_held};
use crate::replacer::{
    first_position, law_victim_comes_first, lemma_access_tracks, lemma_first_position,
    lemma_push_contains, lemma_without, occurrences, without, ReplacerState,
};
use crate::state::Claim;
use crate::system::{is_run, law_order_is_kept, law_runs_stay_in_order, Action, Pending, System};

verus! {

/// Whether a new page is made under the id.
pub open spec fn is_made_anew(before: System, after: System, page_id: PageId) -> bool {
    before.pool.next_page_id == page_id && after.pool.next_page_id != page_id
}

/// Whether the page was in the pool and has to make room for another: it is to
/// be written for that, or is no longer found, or a new page is found under its
/// id.
pub open spec fn makes_way(
    before: System,
    action: Action,
    after: System,
    page_id: PageId,
) -> bool {
    &&& action is NewPage || action is FetchPage
    &&& before.pool.page_table.contains_key(page_id)
    &&& match after.pending {
        Pending::NewWrite { write } => write.id() == page_id,
        Pending::FetchWrite { write, .. } => write.id() == page_id,
        _ => !after.pool.page_table.contains_key(page_id) || is_made_anew(before, after, page_id),
    }
}

/// When the page was accessed by the first `n` actions of a run, that is, when a
/// reference to it was handed out, oldest first. Only the accesses since the
/// page came into the pool count, and only those since it last had to make room
/// where the disk kept it from doing so.
pub open spec fn accesses(
    states: Seq<System>,
    actions: Seq<Action>,
    page_id: PageId,
    n: int,
) -> Seq<int>
    decreases n,
{
    if n <= 0 {
        Seq::empty()
    } else {
        let before = states[n - 1];
        let after = states[n];
        let earlier = if !after.pool.page_table.contains_key(page_id) || is_made_anew(
            before,
            after,
            page_id,
        ) || makes_way(before, actions[n - 1], after, page_id) {
            Seq::empty()
        } else {
            accesses(states, actions, page_id, n - 1)
        };
        if times_held(after.pool, page_id) > times_held(before.pool, page_id) {
            earlier.push(n - 1)
        } else {
            earlier
        }
    }
}

/// How many accesses count with the given `k`; 0 acts like 1.
pub open spec fn counted(k: nat) -> nat {
    if k == 0 {
        1
    } else {
        k
    }
}

/// Whether a page with the accesses `ours` makes room before one with the
/// accesses `theirs`, by the last `k` accesses of each: one with fewer than `k`
/// before one with at least `k`, of two with at least `k` the one whose `k`-th
/// most recent access is older, and of two with fewer the one whose first access
/// is older.
pub open spec fn makes_way_before(ours: Seq<int>, theirs: Seq<int>, k: nat) -> bool {
    if ours.len() < k {
        theirs.len() < k ==> ours[0] < theirs[0]
    } else {
        theirs.len() >= k && ours[ours.len() - k] < theirs[theirs.len() - k]
    }
}

/// The last `n` items, or all where there are fewer.
spec fn last_items(items: Seq<int>, n: nat) -> Seq<int> {
    if items.len() <= n {
        items
    } else {
        items.skip(items.len() - n)
    }
}

/// The times at which the frame is on record.
spec fn times_of(log: Seq<FrameId>, times: Seq<int>, f: FrameId) -> Seq<int>
    decreases log.len(),
{
    if log.len() == 0 {
        Seq::empty()
    } else {
        let earlier = times_of(log.drop_last(), times.drop_last(), f);
        if log.last() == f {
            earlier.push(times.last())
        } else {
            earlier
        }
    }
}

/// The times of the records of all frames but one.
spec fn times_without(log: Seq<FrameId>, times: Seq<int>, f: FrameId) -> Seq<int>
    decreases log.len(),
{
    if log.len() == 0 {
        Seq::empty()
    } else {
        let earlier = times_without(log.drop_last(), times.drop_last(), f);
        if log.last() == f {
            earlier
        } else {
            earlier.push(times.last())
        }
    }
}

/// Whether the records were made at the given times, all of them before `n`.
spec fn is_timed(log: Seq<FrameId>, times: Seq<int>, n: int) -> bool {
    &&& times.len() == log.len()
    &&& forall|i: int, j: int| 0 <= i < j < times.len() ==> times[i] < times[j]
    &&& forall|i: int| 0 <= i < times.len() ==> #[trigger] times[i] < n
}

/// Whether the replacer has on record the last accesses of each frame, as the
/// given history has them.
spec fn keeps(
    replacer: ReplacerState,
    times: Seq<int>,
    history: spec_fn(FrameId) -> Seq<int>,
    n: int,
) -> bool {
    &&& is_timed(replacer.log, times, n)
    &&& forall|f: FrameId| #[trigger]
        replacer.tracks(f) ==> times_of(replacer.log, times, f) == last_items(
            history(f),
            counted(replacer.k),
        )
}

/// A frame is on record as often as it has times.
proof fn lemma_times_of_len(log: Seq<FrameId>, times: Seq<int>, f: FrameId)
    requires
        times.len() == log.len(),
    ensures
        times_of(log, times, f).len() == occurrences(log, f),
        log.contains(f) <==> times_of(log, times, f).len() > 0,
    decreases log.len(),
{
    if log.len() > 0 {
        lemma_times_of_len(log.drop_last(), times.drop_last(), f);
        assert(log =~= log.drop_last().push(log.last()));
        lemma_push_contains(log.drop_last(), log.last(), f);
    }
}

/// The first time of a frame is that of its first record.
proof fn lemma_times_of_first(log: Seq<FrameId>, times: Seq<int>, f: FrameId)
    requires
        times.len() == log.len(),
        log.contains(f),
    ensures
        times_of(log, times, f).len() > 0,
        times_of(log, times, f)[0] == times[first_position(log, f)],
    decreases log.len(),
{
    let rest = log.drop_last();
    lemma_times_of_len(log, times, f);
    lemma_times_of_len(rest, times.drop_last(), f);
    lemma_first_position(log, f);
    if rest.contains(f) {
        lemma_times_of_first(rest, times.drop_last(), f);
        lemma_first_position(rest, f);
        let i = first_position(rest, f);
        let j = first_position(log, f);
        assert(log[i] == f);
        assert(j <= i);
        assert(rest[j] == f);
        assert(i == j);
    } else {
        let j = first_position(log, f);
        if j < rest.len() {
            assert(rest[j] == f);
        }
        assert(j == log.len() - 1);
    }
}

/// The times of a frame after one more record.
proof fn lemma_times_of_push(log: Seq<FrameId>, times: Seq<int>, last: FrameId, t: int, f: FrameId)
    requires
        times.len() == log.len(),
    ensures
        times_of(log.push(last), times.push(t), f) == if last == f {
            times_of(log, times, f).push(t)
        } else {
            times_of(log, times, f)
        },
{
    assert(log.push(last).drop_last() =~= log);
    assert(times.push(t).drop_last() =~= times);
}

/// The times of a frame after the first record of one was dropped.
proof fn lemma_times_of_remove(log: Seq<FrameId>, times: Seq<int>, i: int, f: FrameId)
    requires
        times.len() == log.len(),
        0 <= i < log.len(),
        forall|j: int| 0 <= j < i ==> log[j] != log[i],
    ensures
        times_of(log.remove(i), times.remove(i), f) == if log[i] == f {
            times_of(log, times, f).skip(1)
        } else {
            times_of(log, times, f)
        },
        log[i] == f ==> times_of(log, times, f).len() > 0,
    decreases log.len(),
{
    let rest = log.drop_last();
    let earlier = times.drop_last();
    lemma_times_of_len(log, times, f);
    assert(log.contains(log[i]));
    if i == log.len() - 1 {
        assert(log.remove(i) =~= rest);
        assert(times.remove(i) =~= earlier);
        if log[i] == f {
            lemma_times_of_len(rest, earlier, f);
            assert(!rest.contains(f));
            assert(times_of(log, times, f).skip(1) =~= times_of(rest, earlier, f));
        }
    } else {
        lemma_times_of_remove(rest, earlier, i, f);
        assert(log.remove(i).drop_last() =~= rest.remove(i));
        assert(times.remove(i).drop_last() =~= earlier.remove(i));
        assert(times_of(rest, earlier, f).push(times.last()).skip(1) =~= if times_of(
            rest,
            earlier,
            f,
        ).len() > 0 {
            times_of(rest, earlier, f).skip(1).push(times.last())
        } else {
            Seq::empty()
        });
    }
}

/// The records of all frames but one keep their times and their order.
proof fn lemma_times_without(log: Seq<FrameId>, times: Seq<int>, f: FrameId, n: int)
    requires
        is_timed(log, times, n),
    ensures
        is_timed(without(log, f), times_without(log, times, f), n),
        forall|g: FrameId|
            g != f ==> #[trigger] times_of(without(log, f), times_without(log, times, f), g)
                == times_of(log, times, g),
    decreases log.len(),
{
    reveal(Seq::filter);
    if log.len() > 0 {
        let rest = log.drop_last();
        let earlier = times.drop_last();
        let t = times.last();
        assert(is_timed(rest, earlier, t)) by {
            assert forall|i: int| 0 <= i < earlier.len() implies #[trigger] earlier[i] < t by {
                assert(times[i] < times[times.len() - 1]);
            }
        }
        lemma_times_without(rest, earlier, f, t);
        let kept = without(rest, f);
        let kept_times = times_without(rest, earlier, f);
        if log.last() != f {
            assert(without(log, f) =~= kept.push(log.last()));
            assert forall|g: FrameId| g != f implies #[trigger] times_of(
                without(log, f),
                times_without(log, times, f),
                g,
            ) == times_of(log, times, g) by {
                lemma_times_of_push(kept, kept_times, log.last(), t, g);
                assert(times_of(kept, kept_times, g) == times_of(rest, earlier, g));
            }
        } else {
            assert(without(log, f) =~= kept);
            assert forall|g: FrameId| g != f implies #[trigger] times_of(
                without(log, f),
                times_without(log, times, f),
                g,
            ) == times_of(log, times, g) by {
                assert(times_of(kept, kept_times, g) == times_of(rest, earlier, g));
            }
        }
        assert(t < n);
    }
}

/// What is kept after an access of a frame.
proof fn lemma_access_keeps(
    replacer: ReplacerState,
    times: Seq<int>,
    history: spec_fn(FrameId) -> Seq<int>,
    n: int,
    f: FrameId,
    longer: spec_fn(FrameId) -> Seq<int>,
) -> (later: Seq<int>)
    requires
        keeps(replacer, times, history, n),
        !replacer.tracks(f) ==> history(f).len() == 0,
        longer(f) == history(f).push(n),
        forall|g: FrameId| #[trigger] replacer.tracks(g) && g != f ==> longer(g) == history(g),
    ensures
        keeps(replacer.access(f), later, longer, n + 1),
{
    let log = replacer.log;
    let k = counted(replacer.k);
    let pushed = log.push(f);
    let pushed_times = times.push(n);
    lemma_access_tracks(replacer, f);
    lemma_times_of_len(log, times, f);
    let dropped = occurrences(log, f) >= replacer.k && log.contains(f);
    let cut = first_position(pushed, f);
    if dropped {
        lemma_push_contains(log, f, f);
        lemma_first_position(pushed, f);
        assert forall|j: int| 0 <= j < cut implies pushed[j] != pushed[cut] by {}
    }
    let later = if dropped {
        pushed_times.remove(cut)
    } else {
        pushed_times
    };
    let after = replacer.access(f);
    assert(is_timed(after.log, later, n + 1)) by {
        assert forall|i: int, j: int| 0 <= i < j < pushed_times.len() implies pushed_times[i]
            < pushed_times[j] by {}
    }
    assert forall|g: FrameId| #[trigger] after.tracks(g) implies times_of(after.log, later, g)
        == last_items(longer(g), k) by {
        lemma_times_of_push(log, times, f, n, g);
        if dropped {
            lemma_times_of_remove(pushed, pushed_times, cut, g);
        }
        if g == f {
            let known = times_of(log, times, f);
            if log.contains(f) {
                assert(replacer.tracks(f));
                assert(known == last_items(history(f), k));
            } else {
                assert(known =~= history(f));
            }
            if dropped {
                assert(known.push(n).skip(1) =~= last_items(longer(f), k));
            } else {
                assert(known.push(n) =~= last_items(longer(f), k));
            }
        } else {
            assert(replacer.tracks(g));
        }
    }
    later
}

/// What is kept after a frame was forgotten.
proof fn lemma_forget_keeps(
    replacer: ReplacerState,
    times: Seq<int>,
    history: spec_fn(FrameId) -> Seq<int>,
    n: int,
    f: FrameId,
) -> (later: Seq<int>)
    requires
        keeps(replacer, times, history, n),
    ensures
        keeps(replacer.forget(f), later, history, n),
{
    lemma_times_without(replacer.log, times, f, n);
    lemma_without(replacer.log, f);
    let later = times_without(replacer.log, times, f);
    let after = replacer.forget(f);
    assert forall|g: FrameId| #[trigger] after.tracks(g) implies times_of(after.log, later, g)
        == last_items(history(g), counted(after.k)) by {
        assert(without(replacer.log, f).contains(g));
        assert(replacer.tracks(g));
    }
    later
}

/// What is kept stays so with other marks, a later time, and the same history of
/// the frames on record.
proof fn lemma_same_keeps(
    replacer: ReplacerState,
    times: Seq<int>,
    history: spec_fn(FrameId) -> Seq<int>,
    n: int,
    after: ReplacerState,
    same: spec_fn(FrameId) -> Seq<int>,
    m: int,
)
    requires
        keeps(replacer, times, history, n),
        n <= m,
        after.log == replacer.log,
        after.k == replacer.k,
        forall|f: FrameId| #[trigger] replacer.tracks(f) ==> same(f) == history(f),
    ensures
        keeps(after, times, same, m),
{
    assert forall|f: FrameId| #[trigger] after.tracks(f) implies times_of(after.log, times, f)
        == last_items(same(f), counted(after.k)) by {
        assert(replacer.tracks(f));
    }
}

/// The accesses of the page in each frame.
spec fn history_at(states: Seq<System>, actions: Seq<Action>, n: int) -> spec_fn(FrameId) -> Seq<
    int,
> {
    |f: FrameId| accesses(states, actions, states[n].pool.page(f).page_id, n)
}

/// Whether exactly the pages in frames that the replacer knows have accesses.
spec fn knows_accessed(states: Seq<System>, actions: Seq<Action>, n: int) -> bool {
    let pool = states[n].pool;
    forall|p: PageId|
        (#[trigger] accesses(states, actions, p, n)).len() > 0 <==> pool.page_table.contains_key(p)
            && pool.replacer.tracks(pool.page_table[p])
}

/// The replacer without the frame, where there is one to forget.
spec fn forgets(replacer: ReplacerState, forgotten: Option<FrameId>) -> ReplacerState {
    match forgotten {
        Some(f) => replacer.forget(f),
        None => replacer,
    }
}

/// The replacer after an access, where there is one.
spec fn records(replacer: ReplacerState, accessed: Option<FrameId>) -> ReplacerState {
    match accessed {
        Some(f) => replacer.access(f),
        None => replacer,
    }
}

/// What the replacer keeps after an action by which at most one frame is
/// forgotten and then at most one accessed.
proof fn lemma_action_keeps(
    states: Seq<System>,
    actions: Seq<Action>,
    n: int,
    times: Seq<int>,
    forgotten: Option<FrameId>,
    accessed: Option<FrameId>,
) -> (later: Seq<int>)
    requires
        keeps(states[n].pool.replacer, times, history_at(states, actions, n), n),
        ({
            let before = states[n].pool;
            let after = states[n + 1].pool;
            let known = forgets(before.replacer, forgotten);
            &&& after.replacer.log == records(known, accessed).log
            &&& after.replacer.k == before.replacer.k
            &&& forall|f: FrameId| #[trigger]
                known.tracks(f) && accessed != Some(f) ==> {
                    &&& after.page(f).page_id == before.page(f).page_id
                    &&& accesses(states, actions, after.page(f).page_id, n + 1) == accesses(
                        states,
                        actions,
                        before.page(f).page_id,
                        n,
                    )
                }
            &&& accessed matches Some(f) ==> accesses(
                states,
                actions,
                after.page(f).page_id,
                n + 1,
            ) == if known.tracks(f) {
                accesses(states, actions, before.page(f).page_id, n).push(n)
            } else {
                seq![n]
            }
        }),
    ensures
        keeps(
            states[n + 1].pool.replacer,
            later,
            history_at(states, actions, n + 1),
            n + 1,
        ),
{
    let before = states[n].pool;
    let after = states[n + 1].pool;
    let history = history_at(states, actions, n);
    let longer = history_at(states, actions, n + 1);
    let known = forgets(before.replacer, forgotten);
    let kept = match forgotten {
        Some(f) => lemma_forget_keeps(before.replacer, times, history, n, f),
        None => times,
    };
    match accessed {
        Some(f) => {
            let shorter = |g: FrameId|
                if known.tracks(g) {
                    history(g)
                } else {
                    Seq::empty()
                };
            lemma_same_keeps(known, kept, history, n, known, shorter, n);
            assert(seq![n] =~= Seq::<int>::empty().push(n));
            let later = lemma_access_keeps(known, kept, shorter, n, f, longer);
            lemma_same_keeps(
                known.access(f),
                later,
                longer,
                n + 1,
                after.replacer,
                longer,
                n + 1,
            );
            later
        },
        None => {
            lemma_same_keeps(known, kept, history, n, after.replacer, longer, n + 1);
            kept
        },
    }
}

/// Which frame the action has the replacer forget, and which it has it access.
spec fn touched(before: System, action: Action) -> (Option<FrameId>, Option<FrameId>) {
    let pool = before.pool;
    let victim = if pool.free_list.len() > 0 {
        None
    } else {
        pool.replacer.victim()
    };
    match action {
        Action::NewPage => (
            victim,
            match pool.claim() {
                Claim::Ready(f) => Some(f),
                _ => None,
            },
        ),
        Action::NewPageWritten { ok } => (
            None,
            if ok {
                Some(before.pending->NewWrite_write.frame())
            } else {
                None
            },
        ),
        Action::FetchPage { page_id } => if pool.page_table.contains_key(page_id) {
            (None, Some(pool.page_table[page_id]))
        } else {
            (victim, None)
        },
        Action::FetchRead { reply } => (
            None,
            if reply is Some {
                Some(before.pending->read.frame())
            } else {
                None
            },
        ),
        Action::DeletePage { page_id } => {
            let f = pool.page_table[page_id];
            (
                if pool.page_table.contains_key(page_id) && pool.page(f).pin_count == 0
                    && !pool.page(f).is_dirty {
                    Some(f)
                } else {
                    None
                },
                None,
            )
        },
        Action::DeleteWritten { ok } => (
            if ok {
                Some(before.pending->DeleteWrite_write.frame())
            } else {
                None
            },
            None,
        ),
        _ => (None, None),
    }
}

/// What the replacer has on record throughout a run: the last accesses of each
/// page, as many as count.
proof fn lemma_run_keeps(
    pool_size: usize,
    k: nat,
    states: Seq<System>,
    actions: Seq<Action>,
    n: int,
) -> (times: Seq<int>)
    requires
        is_run(states, actions),
        states[0] == System::initial(pool_size as nat, k, states[0].disk),
        0 <= n < states.len(),
    ensures
        keeps(states[n].pool.replacer, times, history_at(states, actions, n), n),
        knows_accessed(states, actions, n),
        states[n].pool.replacer.k == k,
    decreases n,
{
    if n == 0 {
        assert(forall|f: FrameId| !states[0].pool.replacer.tracks(f));
        Seq::empty()
    } else {
        let m = n - 1;
        let earlier = lemma_run_keeps(pool_size, k, states, actions, m);
        law_runs_stay_in_order(states, actions, m);
        assert(states[m].steps_to(actions[m], states[m + 1]));
        lemma_accesses_step(states, actions, m);
        let (forgotten, accessed) = touched(states[m], actions[m]);
        lemma_action_keeps(states, actions, m, earlier, forgotten, accessed)
    }
}

/// What one action adds to the accesses of the pages in the pool.
proof fn lemma_accesses_step(states: Seq<System>, actions: Seq<Action>, n: int)
    requires
        states[n].inv(),
        states[n].steps_to(actions[n], states[n + 1]),
        0 <= n,
        knows_accessed(states, actions, n),
    ensures
        knows_accessed(states, actions, n + 1),
        ({
            let before = states[n].pool;
            let after = states[n + 1].pool;
            let (forgotten, accessed) = touched(states[n], actions[n]);
            let known = forgets(before.replacer, forgotten);
            &&& after.replacer.log == records(known, accessed).log
            &&& after.replacer.k == before.replacer.k
            &&& forall|f: FrameId| #[trigger]
                known.tracks(f) && accessed != Some(f) ==> {
                    &&& after.page(f).page_id == before.page(f).page_id
                    &&& accesses(states, actions, after.page(f).page_id, n + 1) == accesses(
                        states,
                        actions,
                        before.page(f).page_id,
                        n,
                    )
                }
            &&& accessed matches Some(f) ==> accesses(
                states,
                actions,
                after.page(f).page_id,
                n + 1,
            ) == if known.tracks(f) {
                accesses(states, actions, before.page(f).page_id, n).push(n)
            } else {
                seq![n]
            }
        }),
{
    let before = states[n];
    let after = states[n + 1];
    let action = actions[n];
    let pool = before.pool;
    let (forgotten, accessed) = touched(before, action);
    let known = forgets(pool.replacer, forgotten);
    law_order_is_kept(before, action, after);
    lemma_claim(pool);
    law_victim_comes_first(pool.replacer);
    if let Some(f) = pool.replacer.victim() {
        assert(pool.replacer.may_evict(f));
        assert(pool.resident(f));
    }
    if let Some(f) = forgotten {
        lemma_without(pool.replacer.log, f);
        assert(forall|g: FrameId| #[trigger]
            known.tracks(g) <==> without(pool.replacer.log, f).contains(g));
    }
    if let Some(f) = accessed {
        lemma_access_tracks(known, f);
    }
    match action {
        Action::DeletePage { page_id } => {
            if forgotten is Some {
                lemma_erase(pool, page_id);
            }
        },
        Action::DeleteWritten { ok } => {
            if let Pending::DeleteWrite { page_id, write } = before.pending {
                lemma_clean(pool, write.frame());
                lemma_erase(pool.clean(write.frame()), page_id);
            }
        },
        _ => {},
    }
    assert(Seq::<int>::empty().push(n) =~= seq![n]);
    assert forall|f: FrameId| #[trigger] known.tracks(f) && accessed != Some(f) implies {
        &&& after.pool.page(f).page_id == pool.page(f).page_id
        &&& accesses(states, actions, after.pool.page(f).page_id, n + 1) == accesses(
            states,
            actions,
            pool.page(f).page_id,
            n,
        )
    } by {
        law_pages_are_held_by_references(before, action, after, pool.page(f).page_id);
        assert(pool.replacer.tracks(f));
        assert(pool.resident(f));
    }
    if let Some(f) = accessed {
        let p = after.pool.page(f).page_id;
        law_pages_are_held_by_references(before, action, after, p);
        assert(accesses(states, actions, p, n).len() > 0 <==> pool.page_table.contains_key(p)
            && pool.replacer.tracks(pool.page_table[p]));
        assert(accesses(states, actions, p, n).len() == 0 ==> accesses(states, actions, p, n)
            =~= Seq::empty());
    }
    let log = after.pool.replacer.log;
    assert(log == records(known, accessed).log);
    assert forall|f: FrameId| #[trigger] after.pool.replacer.tracks(f) <==> known.tracks(f)
        || accessed == Some(f) by {
        assert(after.pool.replacer.tracks(f) == records(known, accessed).tracks(f));
    }
    assert forall|p: PageId| (#[trigger] accesses(states, actions, p, n + 1)).len() > 0
        <==> after.pool.page_table.contains_key(p) && after.pool.replacer.tracks(
        after.pool.page_table[p],
    ) by {
        law_pages_are_held_by_references(before, action, after, p);
        assert(accesses(states, actions, p, n).len() > 0 <==> pool.page_table.contains_key(p)
            && pool.replacer.tracks(pool.page_table[p]));
        if after.pool.page_table.contains_key(p) {
            let f = after.pool.page_table[p];
            assert(after.pool.page(f).page_id == p);
            if known.tracks(f) && accessed != Some(f) {
                assert(accesses(states, actions, p, n + 1) == accesses(states, actions, p, n));
                assert(pool.resident(f));
            }
        }
    }
}

/// A page makes way for another only when no frame is free and nobody holds it.
pub proof fn law_pages_make_way_only_when_no_frame_is_free(
    before: System,
    action: Action,
    after: System,
    page_id: PageId,
)
    requires
        before.inv(),
        before.steps_to(action, after),
        makes_way(before, action, after, page_id),
    ensures
        before.pool.free_list.len() == 0,
        times_held(before.pool, page_id) == 0,
{
    let _ = lemma_victim_makes_way(before, action, after, page_id);
}

/// The frame of a page that makes way is the victim.
proof fn lemma_victim_makes_way(
    before: System,
    action: Action,
    after: System,
    page_id: PageId,
) -> (f: FrameId)
    requires
        before.inv(),
        before.steps_to(action, after),
        makes_way(before, action, after, page_id),
    ensures
        before.pool.free_list.len() == 0,
        before.pool.page_table.contains_pair(page_id, f),
        before.pool.replacer.is_victim(f),
        before.pool.page(f).page_id == page_id,
        before.pool.page(f).pin_count == 0,
{
    let pool = before.pool;
    lemma_claim(pool);
    law_victim_comes_first(pool.replacer);
    let f = pool.page_table[page_id];
    if let Some(g) = pool.replacer.victim() {
        assert(pool.replacer.may_evict(g));
        assert(pool.resident(g));
    }
    f
}

/// In every run from a new pool, the page that makes way for another is picked
/// by the last `k` accesses, for the `k` that the pool was made with: it goes
/// before every other page that nobody holds. Accesses are the references that
/// were handed out since the page came into the pool. A page whose write failed
/// when it had to make way is no candidate until it is accessed again.
pub proof fn law_pages_make_way_by_last_k_accesses(
    pool_size: usize,
    k: nat,
    states: Seq<System>,
    actions: Seq<Action>,
    n: int,
    page_id: PageId,
    other: PageId,
)
    requires
        is_run(states, actions),
        states[0] == System::initial(pool_size as nat, k, states[0].disk),
        0 <= n < actions.len(),
        makes_way(states[n], actions[n], states[n + 1], page_id),
        other != page_id,
        states[n].pool.page_table.contains_key(other),
        times_held(states[n].pool, other) == 0,
        accesses(states, actions, other, n).len() > 0,
    ensures
        accesses(states, actions, page_id, n).len() > 0,
        makes_way_before(
            accesses(states, actions, page_id, n),
            accesses(states, actions, other, n),
            counted(k),
        ),
{
    let pool = states[n].pool;
    let times = lemma_run_keeps(pool_size, k, states, actions, n);
    law_runs_stay_in_order(states, actions, n);
    assert(states[n].steps_to(actions[n], states[n + 1]));
    let f = lemma_victim_makes_way(states[n], actions[n], states[n + 1], page_id);
    let g = pool.page_table[other];
    let ours = accesses(states, actions, page_id, n);
    let theirs = accesses(states, actions, other, n);
    assert(theirs.len() > 0);
    assert(pool.replacer.tracks(g));
    assert(pool.resident(g));
    assert(pool.replacer.may_evict(g));
    assert(pool.replacer.may_evict(f));
    assert(pool.replacer.goes_before(f, g));
    assert(pool.replacer.tracks(f));
    let log = pool.replacer.log;
    lemma_times_of_len(log, times, f);
    lemma_times_of_len(log, times, g);
    lemma_times_of_first(log, times, f);
    lemma_times_of_first(log, times, g);
    lemma_first_position(log, f);
    lemma_first_position(log, g);
    assert(history_at(states, actions, n)(f) == ours);
    assert(history_at(states, actions, n)(g) == theirs);
    assert(times_of(log, times, f) == last_items(ours, counted(k)));
    assert(times_of(log, times, g) == last_items(theirs, counted(k)));
}

/// In every run from a new pool, where no frame is free, a page that nobody
/// holds makes way for a page that is not in the pool. One whose write failed
/// when it had to make way does not until it is accessed again.
pub proof fn law_some_page_makes_way(
    pool_size: usize,
    k: nat,
    states: Seq<System>,
    actions: Seq<Action>,
    n: int,
    candidate: PageId,
)
    requires
        is_run(states, actions),
        states[0] == System::initial(pool_size as nat, k, states[0].disk),
        0 <= n < actions.len(),
        states[n].pool.free_list.len() == 0,
        states[n].pool.page_table.contains_key(candidate),
        times_held(states[n].pool, candidate) == 0,
        accesses(states, actions, candidate, n).len() > 0,
        actions[n] is NewPage || (actions[n] matches Action::FetchPage { page_id }
            && !states[n].pool.page_table.contains_key(page_id)),
    ensures
        exists|p: PageId| #[trigger] makes_way(states[n], actions[n], states[n + 1], p),
{
    let pool = states[n].pool;
    let times = lemma_run_keeps(pool_size, k, states, actions, n);
    law_runs_stay_in_order(states, actions, n);
    assert(states[n].steps_to(actions[n], states[n + 1]));
    let g = pool.page_table[candidate];
    assert(accesses(states, actions, candidate, n).len() > 0);
    assert(pool.replacer.tracks(g));
    assert(pool.replacer.may_evict(g));
    lemma_claim(pool);
    law_victim_comes_first(pool.replacer);
    let f = pool.replacer.victim()->0;
    assert(pool.replacer.may_evict(f));
    assert(pool.resident(f));
    assert(makes_way(states[n], actions[n], states[n + 1], pool.page(f).page_id));
}

/// In every run from a new pool, as long as the disk does not fail in the search
/// for a frame or in the read of a page, every page in the pool has accesses
/// between operations, so that it is a candidate once nobody holds it.
pub proof fn law_pages_in_the_pool_were_accessed(
    pool_size: usize,
    k: nat,
    states: Seq<System>,
    actions: Seq<Action>,
    n: int,
    page_id: PageId,
)
    requires
        is_run(states, actions),
        states[0] == System::initial(pool_size as nat, k, states[0].disk),
        0 <= n < states.len(),
        states[n].pending is Idle,
        states[n].pool.page_table.contains_key(page_id),
        forall|l: int| 0 <= l < n ==> !loses_frame(#[trigger] actions[l]),
    ensures
        accesses(states, actions, page_id, n).len() > 0,
{
    let pool = states[n].pool;
    let times = lemma_run_keeps(pool_size, k, states, actions, n);
    law_runs_stay_in_order(states, actions, n);
    law_runs_lose_no_frame(pool_size, k, states, actions, n);
    let f = pool.page_table[page_id];
    assert(pool.resident(f));
    assert(pool.free_list.contains(f) || pool.replacer.tracks(f));
    assert(accesses(states, actions, page_id, n).len() > 0);
}

} // verus!
