//! What holds of the replays that are tried for a map access: from which checkpoints, in
//! which ways and in which order, and when the access may go on.

use vstd::prelude::*;

use crate::cache::{CacheData, StateCache};
use crate::engine::{Engine, MapAccess};
use crate::env::{ProvedGoal, VerifierEnv};
use crate::machine::State;
use crate::refine_map::{
    chain, cut_pcs, cut_tries, joined, list_cut_tries, list_rung_tries, may_land,
    may_prove_directly, rung_ids, rung_shapes, rung_tries, shapes, tries_from, try_bcf_refine_map,
    Try,
};
use crate::replay::ReplayShape;
use crate::unreachable::try_emit_path_unreachable_entry;

verus! {

/// Whether a path is replayed as a whole, from its checkpoint or from that one's parent.
pub open spec fn whole(how: ReplayShape, from_parent: bool, shared: bool) -> bool {
    &&& how.anchor_at_parent == from_parent
    &&& how.share_slot_vars == shared
    &&& how.reset_at_crossing is None
    &&& how.crossing_pc is None
}

/// Whether a path is replayed so that its conditions start over at a crossing, counted
/// from its end.
pub open spec fn restarts_at(how: ReplayShape, crossing: int, at: Option<usize>) -> bool {
    &&& !how.anchor_at_parent
    &&& how.share_slot_vars
    &&& how.reset_at_crossing matches Some(k) && k == crossing
    &&& how.crossing_pc == at
}

/// Whether these are the ways that share terms with slots: the path as a whole, from the
/// rung and from its parent, and then with its conditions starting over at each of the
/// last four crossings.
pub open spec fn sharing_ways(ways: Seq<ReplayShape>) -> bool {
    &&& ways.len() == 6
    &&& whole(ways[0], false, true)
    &&& whole(ways[1], true, true)
    &&& forall|k: int| 2 <= k < 6 ==> restarts_at(#[trigger] ways[k], k - 1, None)
}

/// The ways in which the path from a rung is replayed: those that share terms with slots,
/// and from the first rung before them the whole path without sharing.
pub proof fn law_ways_to_replay(first_rung: bool, r: Vec<ReplayShape>)
    requires
        call_ensures(rung_shapes, (first_rung,), r),
    ensures
        !first_rung ==> sharing_ways(r@),
        first_rung ==> r@.len() == 8 && whole(r@[0], false, false) && whole(r@[1], true, false)
            && sharing_ways(r@.skip(2)),
{
    let ways = if first_rung {
        r@.skip(2)
    } else {
        r@
    };
    assert forall|k: int| 2 <= k < 6 implies restarts_at(#[trigger] ways[k], k - 1, None) by {
        assert(k == 2 || k == 3 || k == 4 || k == 5);
    }
}

/// Whether the six tries from a place on are in the ways that share terms with slots.
pub open spec fn shared_tries(tries: Seq<Try>, at: int) -> bool {
    &&& whole(tries[at].how, false, true)
    &&& whole(tries[at + 1].how, true, true)
    &&& restarts_at(tries[at + 2].how, 1, None)
    &&& restarts_at(tries[at + 3].how, 2, None)
    &&& restarts_at(tries[at + 4].how, 3, None)
    &&& restarts_at(tries[at + 5].how, 4, None)
}

proof fn lemma_rung_tries(rungs: Seq<u32>, n: nat)
    requires
        1 <= n <= rungs.len(),
    ensures
        rung_tries(rungs, n).len() == 2 + 6 * n,
        forall|t: int|
            0 <= t < 8 ==> (#[trigger] rung_tries(rungs, n)[t]).rung == rungs[0],
        whole(rung_tries(rungs, n)[0].how, false, false),
        whole(rung_tries(rungs, n)[1].how, true, false),
        forall|i: int| 0 <= i < n ==> #[trigger] shared_tries(rung_tries(rungs, n), 2 + 6 * i),
        forall|i: int, k: int|
            #![trigger rungs[i], rung_tries(rungs, n)[k]]
            0 <= i < n && 2 + 6 * i <= k < 8 + 6 * i ==> rung_tries(rungs, n)[k].rung == rungs[i],
    decreases n,
{
    let all = rung_tries(rungs, n);
    let before = rung_tries(rungs, (n - 1) as nat);
    if n > 1 {
        lemma_rung_tries(rungs, (n - 1) as nat);
        assert forall|k: int| 0 <= k < before.len() implies #[trigger] all[k] == before[k] by {}
    } else {
        assert(before.len() == 0);
    }
    assert forall|t: int| 0 <= t < 8 implies (#[trigger] all[t]).rung == rungs[0] by {
        if n > 1 {
            assert(all[t] == before[t]);
        }
    }
    assert forall|i: int| 0 <= i < n implies #[trigger] shared_tries(all, 2 + 6 * i) by {
        let at = 2 + 6 * i;
        if i < n - 1 {
            assert(shared_tries(before, 2 + 6 * i));
            assert(all[at] == before[at] && all[at + 1] == before[at + 1]);
            assert(all[at + 2] == before[at + 2] && all[at + 3] == before[at + 3]);
            assert(all[at + 4] == before[at + 4] && all[at + 5] == before[at + 5]);
        } else {
            let ways = shapes(n == 1);
            let own = tries_from(rungs[n - 1], ways);
            let m = own.len() - 6;
            assert(before.len() + m == at);
            assert(all[at] == own[m] && all[at + 1] == own[m + 1]);
            assert(all[at + 2] == own[m + 2] && all[at + 3] == own[m + 3]);
            assert(all[at + 4] == own[m + 4] && all[at + 5] == own[m + 5]);
        }
    }
}

/// Every rung is tried, in order: the first in eight ways, and each further one in the
/// six that share terms with slots.
pub proof fn law_every_rung_is_tried(rungs: Vec<u32>, r: Vec<Try>, i: int)
    requires
        call_ensures(list_rung_tries, (&rungs,), r),
        0 <= i < rungs@.len(),
    ensures
        r@.len() == 2 + 6 * rungs@.len(),
        r@[0].rung == rungs@[0] && whole(r@[0].how, false, false),
        r@[1].rung == rungs@[0] && whole(r@[1].how, true, false),
        forall|k: int|
            2 + 6 * i <= k < 8 + 6 * i ==> (#[trigger] r@[k]).rung == rungs@[i],
        shared_tries(r@, 2 + 6 * i),
{
    lemma_rung_tries(rungs@, rungs@.len());
    let x = rungs@[i];
}

proof fn lemma_cut_tries(rung: u32, cuts: Seq<usize>, n: nat)
    requires
        n <= cuts.len(),
    ensures
        cut_tries(rung, cuts, n).len() == 4 * n,
        forall|c: int|
            #![trigger cuts[c]]
            0 <= c < n ==> {
                &&& restarts_at(cut_tries(rung, cuts, n)[4 * c].how, 1, Some(cuts[c]))
                &&& restarts_at(cut_tries(rung, cuts, n)[4 * c + 1].how, 2, Some(cuts[c]))
                &&& restarts_at(cut_tries(rung, cuts, n)[4 * c + 2].how, 3, Some(cuts[c]))
                &&& restarts_at(cut_tries(rung, cuts, n)[4 * c + 3].how, 4, Some(cuts[c]))
            },
        forall|t: int|
            0 <= t < cut_tries(rung, cuts, n).len() ==> (#[trigger] cut_tries(
                rung,
                cuts,
                n,
            )[t]).rung == rung,
    decreases n,
{
    if n > 0 {
        lemma_cut_tries(rung, cuts, (n - 1) as nat);
        let all = cut_tries(rung, cuts, n);
        let before = cut_tries(rung, cuts, (n - 1) as nat);
        assert forall|k: int| 0 <= k < before.len() implies #[trigger] all[k] == before[k] by {}
    }
}

/// Every place is cut at: the path from the rung is replayed with its conditions starting
/// over at each of the last four crossings of each place, in order.
pub proof fn law_every_place_is_cut_at(rung: u32, cuts: Vec<usize>, r: Vec<Try>, c: int)
    requires
        call_ensures(list_cut_tries, (rung, &cuts), r),
        0 <= c < cuts@.len(),
    ensures
        r@.len() == 4 * cuts@.len(),
        forall|t: int| 0 <= t < r@.len() ==> (#[trigger] r@[t]).rung == rung,
        restarts_at(r@[4 * c].how, 1, Some(cuts@[c])),
        restarts_at(r@[4 * c + 1].how, 2, Some(cuts@[c])),
        restarts_at(r@[4 * c + 2].how, 3, Some(cuts@[c])),
        restarts_at(r@[4 * c + 3].how, 4, Some(cuts@[c])),
{
    lemma_cut_tries(rung, cuts@, cuts@.len());
    let x = cuts@[c];
}

/// The places that are cut at are those at which a rung stands, each once, in ascending
/// order.
pub proof fn law_cuts_are_where_rungs_stand(
    cache: StateCache,
    rungs: Vec<u32>,
    r: Vec<usize>,
    pc: usize,
)
    requires
        call_ensures(cut_pcs, (&cache, &rungs), r),
    ensures
        r@.contains(pc) <==> exists|i: int|
            #![trigger rungs@[i]]
            0 <= i < rungs@.len() && (cache@.resolve(rungs@[i]) matches Some(e) && e.1.pc == pc),
        forall|a: int, b: int| 0 <= a < b < r@.len() ==> #[trigger] r@[a] < #[trigger] r@[b],
{
    let x = r@.contains(pc);
}

/// A map access without a symbolic side is never refined, and a replay changes nothing:
/// there the engine's answer about the live state decides.
pub proof fn law_replays_refine_by_the_live_state<E: Engine>(
    engine: &mut E,
    env: &mut VerifierEnv,
    state: State,
    access: MapAccess,
    refined: bool,
)
    requires
        call_ensures(try_bcf_refine_map::<E>, (engine, env, &state, access), refined),
    ensures
        state.bcf is None ==> !refined && *final(env) == *old(env),
        state.bcf is Some && old(env).replay_mode ==> *final(env) == *old(env) && exists|
            landed: Option<(usize, u32)>,
            direct: Option<ProvedGoal>,
        |
            {
                &&& may_land(*old(engine), *old(env), state, access, landed)
                &&& #[trigger] may_prove_directly(
                    *old(engine),
                    *old(env),
                    state,
                    access,
                    landed,
                    direct,
                )
                &&& refined <==> direct is Some
            },
        final(env).error == old(env).error,
{
}

/// Nothing is proved on a replay, nor of a state without a symbolic side.
pub proof fn law_nothing_is_proved_on_replays<E: Engine>(
    engine: &mut E,
    env: &mut VerifierEnv,
    state: State,
    proved: bool,
)
    requires
        call_ensures(try_emit_path_unreachable_entry::<E>, (engine, env, &state), proved),
        env.replay_mode || state.bcf is None,
    ensures
        !proved && *final(env) == *old(env) && *final(engine) == *old(engine),
{
}

// ---------------------------------------------------------------------------
// Rungs
// ---------------------------------------------------------------------------

/// The number that the checkpoint above another one bears.
pub open spec fn above(cache: CacheData, id: u32) -> Option<u32> {
    match cache.resolve(id) {
        Some(e) => e.1.parent_cache_id,
        None => None,
    }
}

/// Whether a row of checkpoints starts at a first one and goes on from parent to parent.
pub open spec fn goes_up(cache: CacheData, first: Option<u32>, row: Seq<u32>) -> bool {
    &&& row.len() > 0 ==> first == Some(row[0])
    &&& forall|k: int|
        0 <= k < row.len() - 1 ==> above(cache, #[trigger] row[k]) == Some(row[k + 1])
}

/// Where a row of checkpoints would go on.
pub open spec fn goes_on_at(cache: CacheData, first: Option<u32>, row: Seq<u32>) -> Option<u32> {
    if row.len() == 0 {
        first
    } else {
        above(cache, row[row.len() - 1])
    }
}

proof fn lemma_chain(cache: CacheData, first: Option<u32>, n: nat)
    ensures
        chain(cache, first, n).len() <= n,
        goes_up(cache, first, chain(cache, first, n)),
        chain(cache, first, n).len() == n || goes_on_at(
            cache,
            first,
            chain(cache, first, n),
        ) is None,
    decreases n,
{
    if first is Some && n > 0 {
        let id = first->0;
        let next = cache.parent_of(id);
        lemma_chain(cache, next, (n - 1) as nat);
        let rest = chain(cache, next, (n - 1) as nat);
        let all = chain(cache, first, n);
        assert(all == seq![id] + rest);
        assert forall|k: int| 0 <= k < all.len() - 1 implies above(cache, #[trigger] all[k])
            == Some(all[k + 1]) by {
            if k > 0 {
                assert(all[k] == rest[k - 1]);
                assert(all[k + 1] == rest[k]);
            }
        }
    }
}

/// A ladder starts at the base of the proof and goes up from parent to parent, for twelve
/// rungs or as far as there are any.
pub proof fn law_ladders_start_at_the_base(
    cache: StateCache,
    base: u32,
    live: Option<u32>,
    r: Vec<u32>,
)
    requires
        call_ensures(rung_ids, (&cache, base, live), r),
    ensures
        exists|n: int|
            #![trigger r@.take(n)]
            {
                &&& 1 <= n <= 12 && n <= r@.len() <= n + 12
                &&& goes_up(cache@, Some(base), r@.take(n))
                &&& n == 12 || goes_on_at(cache@, Some(base), r@.take(n)) is None
                &&& goes_up(cache@, live, r@.skip(n))
                &&& r@.len() == n + 12 || (match goes_on_at(cache@, live, r@.skip(n)) {
                    Some(id) => r@.contains(id),
                    None => true,
                })
            },
{
    let first = chain(cache@, Some(base), 12);
    lemma_chain(cache@, Some(base), 12);
    assert(first.len() > 0);
    let none = Seq::<u32>::empty();
    assert(first + none =~= first);
    lemma_joined(cache@, first, none, live, live, 12);
    let n = first.len() as int;
    let more = choose|more: Seq<u32>|
        #![trigger goes_up(cache@, live, more)]
        {
            &&& r@ == first + more
            &&& more.len() <= 12
            &&& goes_up(cache@, live, more)
            &&& more.len() == 12 || (match goes_on_at(cache@, live, more) {
                Some(id) => r@.contains(id),
                None => true,
            })
        };
    assert(r@.take(n) =~= first);
    assert(r@.skip(n) =~= more);
}

proof fn lemma_joined(
    cache: CacheData,
    first: Seq<u32>,
    more: Seq<u32>,
    live: Option<u32>,
    next: Option<u32>,
    n: nat,
)
    requires
        more.len() + n == 12,
        goes_up(cache, live, more),
        next == goes_on_at(cache, live, more),
    ensures
        exists|all: Seq<u32>|
            #![trigger goes_up(cache, live, all)]
            {
                &&& joined(cache, first + more, next, n) == first + all
                &&& all.len() <= 12
                &&& goes_up(cache, live, all)
                &&& all.len() == 12 || (match goes_on_at(cache, live, all) {
                    Some(id) => (first + all).contains(id),
                    None => true,
                })
            },
    decreases n,
{
    let rungs = first + more;
    if next is Some && n > 0 && !rungs.contains(next->0) {
        let id = next->0;
        let longer = more.push(id);
        assert(rungs.push(id) =~= first + longer);
        assert forall|k: int| 0 <= k < longer.len() - 1 implies above(cache, #[trigger] longer[k])
            == Some(longer[k + 1]) by {
            if k < more.len() - 1 {
                assert(longer[k] == more[k]);
            }
        }
        lemma_joined(cache, first, longer, live, cache.parent_of(id), (n - 1) as nat);
    } else {
        assert(joined(cache, rungs, next, n) == first + more);
        assert(goes_up(cache, live, more));
    }
}

}
