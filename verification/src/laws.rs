use vstd::prelude::*;
use crate::data::{clamp_exp, EntryV, OpV};
use crate::engine::{
    lb_has, lb_last_exp, lb_last_rank, lemma_offline_only_ops, lemma_online_only_ops,
    lemma_reconcile_writes, offline_ops, online_true_ops, reconcile_spec,
};
use crate::model::{
    apply_ops, lemma_applicable_monotone, lemma_apply_ops_idempotent, lemma_history_after,
    lemma_no_merge_history_unchanged, lemma_players_after, online_names_ok, ops_applicable,
    StoreView,
};

verus! {

/// Applying one tick's operations a second time to a store that already
/// reflects them changes nothing: every operation is an insert-or-update
/// upsert keyed by username or `(player, day)`.
pub proof fn law_idempotence(s: StoreView, prev: Seq<Seq<char>>, online: Option<Seq<Seq<char>>>, lb: Option<Seq<EntryV>>, day: u32)
    ensures
        ({
            let ops = reconcile_spec(prev, online, lb, day);
            apply_ops(apply_ops(s, ops), ops) == apply_ops(s, ops)
        }),
{
    lemma_apply_ops_idempotent(s, reconcile_spec(prev, online, lb, day));
}

/// A batch the gateway accepted once is accepted again against the store
/// it produced: re-delivery of a tick's data cannot turn into a
/// constraint violation.
pub proof fn law_reapply_succeeds(s: StoreView, ops: Seq<OpV>)
    requires
        ops_applicable(s, ops),
    ensures
        ops_applicable(apply_ops(s, ops), ops),
{
    let s1 = apply_ops(s, ops);
    assert forall|u: Seq<char>| s.players.contains_key(u) implies s1.players.contains_key(
        u,
    ) by {
        lemma_players_after(s, ops, u);
    }
    lemma_applicable_monotone(s, s1, ops);
}

/// A player on the first tick's online list but absent from the second
/// tick's list ends the second tick with `online == false`, provided the
/// second tick read its previously-online set back from the store the
/// first tick left.
pub proof fn law_online_flag_flips(
    s0: StoreView,
    prev1: Seq<Seq<char>>,
    l1: Seq<Seq<char>>,
    lb1: Option<Seq<EntryV>>,
    d1: u32,
    prev2: Seq<Seq<char>>,
    l2: Seq<Seq<char>>,
    lb2: Option<Seq<EntryV>>,
    d2: u32,
    u: Seq<char>,
)
    requires
        l1.contains(u),
        !l2.contains(u),
        online_names_ok(prev2, apply_ops(s0, reconcile_spec(prev1, Some(l1), lb1, d1))),
    ensures
        ({
            let s1 = apply_ops(s0, reconcile_spec(prev1, Some(l1), lb1, d1));
            let s2 = apply_ops(s1, reconcile_spec(prev2, Some(l2), lb2, d2));
            s2.players.contains_key(u) && !s2.players[u].online
        }),
{
    let ops1 = reconcile_spec(prev1, Some(l1), lb1, d1);
    let ops2 = reconcile_spec(prev2, Some(l2), lb2, d2);
    let s1 = apply_ops(s0, ops1);
    lemma_reconcile_writes(prev1, Some(l1), lb1, d1, u, d1);
    lemma_players_after(s0, ops1, u);
    assert(s1.players.contains_key(u) && s1.players[u].online);
    assert(prev2.contains(u));
    lemma_reconcile_writes(prev2, Some(l2), lb2, d2, u, d2);
    lemma_players_after(s1, ops2, u);
}

/// A player who was never observed by either feed does not exist in the
/// store after the tick.
pub proof fn law_unobserved_absent(
    s: StoreView,
    prev: Seq<Seq<char>>,
    online: Option<Seq<Seq<char>>>,
    lb: Option<Seq<EntryV>>,
    day: u32,
    u: Seq<char>,
)
    requires
        !s.players.contains_key(u),
        !prev.contains(u),
        (online matches Some(l) ==> !l.contains(u)),
        (lb matches Some(entries) ==> !lb_has(entries, u)),
    ensures
        !apply_ops(s, reconcile_spec(prev, online, lb, day)).players.contains_key(u),
{
    lemma_reconcile_writes(prev, online, lb, day, u, day);
    lemma_players_after(s, reconcile_spec(prev, online, lb, day), u);
}

/// Rank fidelity: a player the leaderboard names ends the tick with the
/// 1-based feed position of their last entry as rank and that entry's
/// clamped experience — feed order alone decides, nothing is re-sorted.
pub proof fn law_rank_fidelity(
    s: StoreView,
    prev: Seq<Seq<char>>,
    online: Option<Seq<Seq<char>>>,
    lb: Seq<EntryV>,
    day: u32,
    u: Seq<char>,
)
    requires
        lb_has(lb, u),
    ensures
        ({
            let s1 = apply_ops(s, reconcile_spec(prev, online, Some(lb), day));
            s1.players.contains_key(u) && s1.players[u].rank == lb_last_rank(lb, u) as i32
                && s1.players[u].experience == clamp_exp(lb_last_exp(lb, u))
        }),
{
    lemma_reconcile_writes(prev, online, Some(lb), day, u, day);
    lemma_players_after(s, reconcile_spec(prev, online, Some(lb), day), u);
}

/// History merge within one day: after two ticks on the same day that
/// both rank `u`, the single history capture for `(u, day)` — the map is
/// keyed by player and day, so there can be no second row — holds the
/// experience of the second tick's last entry for `u`.
pub proof fn law_history_merge_same_day(
    s0: StoreView,
    prev1: Seq<Seq<char>>,
    on1: Option<Seq<Seq<char>>>,
    lb1: Seq<EntryV>,
    prev2: Seq<Seq<char>>,
    on2: Option<Seq<Seq<char>>>,
    lb2: Seq<EntryV>,
    day: u32,
    u: Seq<char>,
)
    requires
        lb_has(lb2, u),
    ensures
        ({
            let s1 = apply_ops(s0, reconcile_spec(prev1, on1, Some(lb1), day));
            let s2 = apply_ops(s1, reconcile_spec(prev2, on2, Some(lb2), day));
            s2.history.contains_key((u, day)) && s2.history[(u, day)] == clamp_exp(
                lb_last_exp(lb2, u),
            )
        }),
{
    let s1 = apply_ops(s0, reconcile_spec(prev1, on1, Some(lb1), day));
    let ops2 = reconcile_spec(prev2, on2, Some(lb2), day);
    lemma_reconcile_writes(prev2, on2, Some(lb2), day, u, day);
    lemma_history_after(s1, ops2, u, day);
}

/// Cross-day separation: observing `u` on two different days leaves two
/// distinct history rows, each with its own day's last observed
/// experience.
pub proof fn law_cross_day_separation(
    s0: StoreView,
    prev1: Seq<Seq<char>>,
    on1: Option<Seq<Seq<char>>>,
    lb1: Seq<EntryV>,
    d1: u32,
    prev2: Seq<Seq<char>>,
    on2: Option<Seq<Seq<char>>>,
    lb2: Seq<EntryV>,
    d2: u32,
    u: Seq<char>,
)
    requires
        lb_has(lb1, u),
        lb_has(lb2, u),
        d1 != d2,
    ensures
        ({
            let s1 = apply_ops(s0, reconcile_spec(prev1, on1, Some(lb1), d1));
            let s2 = apply_ops(s1, reconcile_spec(prev2, on2, Some(lb2), d2));
            s2.history.contains_key((u, d1)) && s2.history[(u, d1)] == clamp_exp(
                lb_last_exp(lb1, u),
            ) && s2.history.contains_key((u, d2)) && s2.history[(u, d2)] == clamp_exp(
                lb_last_exp(lb2, u),
            )
        }),
{
    let ops1 = reconcile_spec(prev1, on1, Some(lb1), d1);
    let ops2 = reconcile_spec(prev2, on2, Some(lb2), d2);
    let s1 = apply_ops(s0, ops1);
    lemma_reconcile_writes(prev1, on1, Some(lb1), d1, u, d1);
    lemma_history_after(s0, ops1, u, d1);
    assert(s1.history.contains_key((u, d1)) && s1.history[(u, d1)] == clamp_exp(
        lb_last_exp(lb1, u),
    ));
    lemma_reconcile_writes(prev2, on2, Some(lb2), d2, u, d1);
    lemma_reconcile_writes(prev2, on2, Some(lb2), d2, u, d2);
    lemma_history_after(s1, ops2, u, d1);
    lemma_history_after(s1, ops2, u, d2);
}

/// Partial-feed resilience: when the leaderboard fetch failed, the tick
/// updates online flags only — the history table is exactly what it was,
/// and no player's experience or rank moves from its stored value (a row
/// first created this tick starts at the column defaults).
pub proof fn law_partial_feed_resilience(
    s: StoreView,
    prev: Seq<Seq<char>>,
    l: Seq<Seq<char>>,
    day: u32,
    u: Seq<char>,
)
    ensures
        ({
            let s1 = apply_ops(s, reconcile_spec(prev, Some(l), None, day));
            s1.history == s.history && (s.players.contains_key(u) ==> s1.players.contains_key(u)
                && s1.players[u].experience == s.players[u].experience && s1.players[u].rank
                == s.players[u].rank) && ((s1.players.contains_key(u)
                && !s.players.contains_key(u)) ==> s1.players[u].experience == 0
                && s1.players[u].rank == 0)
        }),
{
    let ops = reconcile_spec(prev, Some(l), None, day);
    lemma_reconcile_writes(prev, Some(l), None, day, u, day);
    lemma_players_after(s, ops, u);
    assert forall|i: int| 0 <= i < ops.len() implies !(ops[i] is MergeHistory) by {
        lemma_reconcile_no_merge_pointwise(prev, l, day, i);
    }
    lemma_no_merge_history_unchanged(s, ops);
}

/// Helper for the resilience law: a tick without leaderboard data emits
/// no history merge at any position.
proof fn lemma_reconcile_no_merge_pointwise(
    prev: Seq<Seq<char>>,
    l: Seq<Seq<char>>,
    day: u32,
    i: int,
)
    requires
        0 <= i < reconcile_spec(prev, Some(l), None, day).len(),
    ensures
        !(reconcile_spec(prev, Some(l), None, day)[i] is MergeHistory),
{
    let ops = reconcile_spec(prev, Some(l), None, day);
    let a = online_true_ops(l);
    let b = offline_ops(prev, l);
    lemma_online_only_ops(l);
    lemma_offline_only_ops(prev, l);
    assert(ops =~= a + b);
    if i < a.len() {
        assert(ops[i] == a[i]);
    } else {
        assert(ops[i] == b[i - a.len()]);
    }
}

} // verus!
