use vstd::prelude::*;
use crate::data::OpV;

verus! {

/// Spec-level image of one player row: every column but the key.
pub struct PlayerV {
    pub experience: i32,
    pub rank: i32,
    pub online: bool,
}

/// The reconciled store as contracts see it: the `players` table keyed by
/// username, the `history` table keyed by `(player, day)`. Map keys give
/// the two uniqueness invariants for free: one row per username, one
/// history capture per player and day.
pub struct StoreView {
    pub players: Map<Seq<char>, PlayerV>,
    pub history: Map<(Seq<char>, u32), i32>,
}

pub open spec fn empty_store() -> StoreView {
    StoreView { players: Map::empty(), history: Map::empty() }
}

/// The column defaults a row gets when a player is first created by an
/// upsert that does not set every column.
pub open spec fn fresh_player() -> PlayerV {
    PlayerV { experience: 0, rank: 0, online: false }
}

/// The row an upsert starts from: the existing row, or a fresh one.
pub open spec fn base_player(s: StoreView, u: Seq<char>) -> PlayerV {
    if s.players.contains_key(u) {
        s.players[u]
    } else {
        fresh_player()
    }
}

pub open spec fn set_online(p: PlayerV, online: bool) -> PlayerV {
    PlayerV { experience: p.experience, rank: p.rank, online: online }
}

pub open spec fn set_ranked(p: PlayerV, experience: i32, rank: i32) -> PlayerV {
    PlayerV { experience: experience, rank: rank, online: p.online }
}

/// Whether one operation can execute against store state `s`: a history
/// merge needs its player row to exist already (foreign key); the player
/// upserts always can.
pub open spec fn op_applicable(s: StoreView, op: OpV) -> bool {
    match op {
        OpV::MergeHistory { username, experience, day } => s.players.contains_key(username),
        _ => true,
    }
}

/// The store after one operation. Total: applicability is stated apart.
pub open spec fn apply_op(s: StoreView, op: OpV) -> StoreView {
    match op {
        OpV::UpsertOnline { username, online } => StoreView {
            players: s.players.insert(username, set_online(base_player(s, username), online)),
            history: s.history,
        },
        OpV::UpsertRanked { username, experience, rank } => StoreView {
            players: s.players.insert(
                username,
                set_ranked(base_player(s, username), experience, rank),
            ),
            history: s.history,
        },
        OpV::MergeHistory { username, experience, day } => StoreView {
            players: s.players,
            history: s.history.insert((username, day), experience),
        },
    }
}

/// The store after a whole sequence of operations, applied in order.
pub open spec fn apply_ops(s: StoreView, ops: Seq<OpV>) -> StoreView
    decreases ops.len(),
{
    if ops.len() == 0 {
        s
    } else {
        apply_op(apply_ops(s, ops.drop_last()), ops.last())
    }
}

/// Every operation can execute at its place in the sequence.
pub open spec fn ops_applicable(s: StoreView, ops: Seq<OpV>) -> bool {
    forall|i: int| 0 <= i < ops.len() ==> op_applicable(apply_ops(s, ops.take(i)), ops[i])
}

/// `ops_applicable`, stated step by step: the form a gateway loop
/// maintains while it walks the sequence.
pub open spec fn ops_applicable_rec(s: StoreView, ops: Seq<OpV>) -> bool
    decreases ops.len(),
{
    ops.len() == 0 || (ops_applicable_rec(s, ops.drop_last()) && op_applicable(
        apply_ops(s, ops.drop_last()),
        ops.last(),
    ))
}

/// The two statements of applicability agree.
pub proof fn lemma_ops_applicable_rec(s: StoreView, ops: Seq<OpV>)
    ensures
        ops_applicable_rec(s, ops) == ops_applicable(s, ops),
    decreases ops.len(),
{
    if ops.len() == 0 {
    } else {
        let dl = ops.drop_last();
        lemma_ops_applicable_rec(s, dl);
        if ops_applicable_rec(s, ops) {
            assert forall|idx: int| 0 <= idx < ops.len() implies op_applicable(
                apply_ops(s, ops.take(idx)),
                ops[idx],
            ) by {
                assert(ops.take(ops.len() - 1) =~= dl);
                if idx < ops.len() - 1 {
                    assert(ops.take(idx) =~= dl.take(idx));
                    assert(op_applicable(apply_ops(s, dl.take(idx)), dl[idx]));
                    assert(ops[idx] == dl[idx]);
                }
            }
        }
        if ops_applicable(s, ops) {
            assert forall|idx: int| 0 <= idx < dl.len() implies op_applicable(
                apply_ops(s, dl.take(idx)),
                dl[idx],
            ) by {
                assert(dl.take(idx) =~= ops.take(idx));
                assert(op_applicable(apply_ops(s, ops.take(idx)), ops[idx]));
            }
            assert(ops_applicable(s, dl));
            assert(ops.take(ops.len() - 1) =~= dl);
            assert(op_applicable(apply_ops(s, ops.take(ops.len() - 1)), ops[ops.len() - 1]));
        }
    }
}

/// The last online flag a sequence of operations writes for `u`, if any.
pub open spec fn last_online(ops: Seq<OpV>, u: Seq<char>) -> Option<bool>
    decreases ops.len(),
{
    if ops.len() == 0 {
        None
    } else {
        match ops.last() {
            OpV::UpsertOnline { username, online } => if username == u {
                Some(online)
            } else {
                last_online(ops.drop_last(), u)
            },
            _ => last_online(ops.drop_last(), u),
        }
    }
}

/// The last `(experience, rank)` pair a sequence of operations writes for
/// `u`, if any.
pub open spec fn last_ranked(ops: Seq<OpV>, u: Seq<char>) -> Option<(i32, i32)>
    decreases ops.len(),
{
    if ops.len() == 0 {
        None
    } else {
        match ops.last() {
            OpV::UpsertRanked { username, experience, rank } => if username == u {
                Some((experience, rank))
            } else {
                last_ranked(ops.drop_last(), u)
            },
            _ => last_ranked(ops.drop_last(), u),
        }
    }
}

/// The last history capture a sequence of operations writes for `(u, d)`,
/// if any.
pub open spec fn last_hist(ops: Seq<OpV>, u: Seq<char>, d: u32) -> Option<i32>
    decreases ops.len(),
{
    if ops.len() == 0 {
        None
    } else {
        match ops.last() {
            OpV::MergeHistory { username, experience, day } => if username == u && day == d {
                Some(experience)
            } else {
                last_hist(ops.drop_last(), u, d)
            },
            _ => last_hist(ops.drop_last(), u, d),
        }
    }
}

/// Whether the sequence holds a player upsert for `u` (either kind creates
/// the row when it is missing).
pub open spec fn creates_player(ops: Seq<OpV>, u: Seq<char>) -> bool
    decreases ops.len(),
{
    if ops.len() == 0 {
        false
    } else {
        (match ops.last() {
            OpV::UpsertOnline { username, online } => username == u,
            OpV::UpsertRanked { username, experience, rank } => username == u,
            OpV::MergeHistory { username, experience, day } => false,
        }) || creates_player(ops.drop_last(), u)
    }
}

/// Whether the sequence holds a history merge for `(u, d)`.
pub open spec fn merges_day(ops: Seq<OpV>, u: Seq<char>, d: u32) -> bool
    decreases ops.len(),
{
    if ops.len() == 0 {
        false
    } else {
        (match ops.last() {
            OpV::MergeHistory { username, experience, day } => username == u && day == d,
            _ => false,
        }) || merges_day(ops.drop_last(), u, d)
    }
}

/// The previously-online name list is a faithful read-back of the store:
/// a name is on it iff the store flags that player online.
pub open spec fn online_names_ok(prev: Seq<Seq<char>>, s: StoreView) -> bool {
    forall|u: Seq<char>| #[trigger] prev.contains(u) == (s.players.contains_key(u)
        && s.players[u].online)
}

pub proof fn lemma_last_online_concat(a: Seq<OpV>, b: Seq<OpV>, u: Seq<char>)
    ensures
        last_online(a + b, u) == (match last_online(b, u) {
            Some(x) => Some(x),
            None => last_online(a, u),
        }),
    decreases b.len(),
{
    if b.len() == 0 {
        assert(a + b =~= a);
    } else {
        lemma_last_online_concat(a, b.drop_last(), u);
        assert((a + b).drop_last() =~= a + b.drop_last());
        assert((a + b).last() == b.last());
    }
}

pub proof fn lemma_last_ranked_concat(a: Seq<OpV>, b: Seq<OpV>, u: Seq<char>)
    ensures
        last_ranked(a + b, u) == (match last_ranked(b, u) {
            Some(x) => Some(x),
            None => last_ranked(a, u),
        }),
    decreases b.len(),
{
    if b.len() == 0 {
        assert(a + b =~= a);
    } else {
        lemma_last_ranked_concat(a, b.drop_last(), u);
        assert((a + b).drop_last() =~= a + b.drop_last());
        assert((a + b).last() == b.last());
    }
}

pub proof fn lemma_last_hist_concat(a: Seq<OpV>, b: Seq<OpV>, u: Seq<char>, d: u32)
    ensures
        last_hist(a + b, u, d) == (match last_hist(b, u, d) {
            Some(x) => Some(x),
            None => last_hist(a, u, d),
        }),
    decreases b.len(),
{
    if b.len() == 0 {
        assert(a + b =~= a);
    } else {
        lemma_last_hist_concat(a, b.drop_last(), u, d);
        assert((a + b).drop_last() =~= a + b.drop_last());
        assert((a + b).last() == b.last());
    }
}

pub proof fn lemma_creates_concat(a: Seq<OpV>, b: Seq<OpV>, u: Seq<char>)
    ensures
        creates_player(a + b, u) == (creates_player(a, u) || creates_player(b, u)),
    decreases b.len(),
{
    if b.len() == 0 {
        assert(a + b =~= a);
    } else {
        lemma_creates_concat(a, b.drop_last(), u);
        assert((a + b).drop_last() =~= a + b.drop_last());
        assert((a + b).last() == b.last());
    }
}

pub proof fn lemma_merges_concat(a: Seq<OpV>, b: Seq<OpV>, u: Seq<char>, d: u32)
    ensures
        merges_day(a + b, u, d) == (merges_day(a, u, d) || merges_day(b, u, d)),
    decreases b.len(),
{
    if b.len() == 0 {
        assert(a + b =~= a);
    } else {
        lemma_merges_concat(a, b.drop_last(), u, d);
        assert((a + b).drop_last() =~= a + b.drop_last());
        assert((a + b).last() == b.last());
    }
}

/// Operations that never touch the history table leave it untouched, row
/// for row.
pub proof fn lemma_no_merge_history_unchanged(s: StoreView, ops: Seq<OpV>)
    requires
        forall|i: int| 0 <= i < ops.len() ==> !(ops[i] is MergeHistory),
    ensures
        apply_ops(s, ops).history == s.history,
    decreases ops.len(),
{
    if ops.len() == 0 {
    } else {
        assert(!(ops[ops.len() - 1] is MergeHistory));
        lemma_no_merge_history_unchanged(s, ops.drop_last());
    }
}

/// A base row overwritten by whatever the sequence last wrote to each of
/// its independent field groups.
pub open spec fn merged_player(p: PlayerV, lo: Option<bool>, lr: Option<(i32, i32)>) -> PlayerV {
    PlayerV {
        experience: match lr {
            Some(er) => er.0,
            None => p.experience,
        },
        rank: match lr {
            Some(er) => er.1,
            None => p.rank,
        },
        online: match lo {
            Some(b) => b,
            None => p.online,
        },
    }
}

/// A sequence without a player upsert for `u` writes neither of `u`'s
/// field groups.
pub proof fn lemma_no_create_no_writes(ops: Seq<OpV>, u: Seq<char>)
    requires
        !creates_player(ops, u),
    ensures
        last_online(ops, u) is None,
        last_ranked(ops, u) is None,
    decreases ops.len(),
{
    if ops.len() == 0 {
    } else {
        lemma_no_create_no_writes(ops.drop_last(), u);
    }
}

/// What a sequence of operations does to one player row: the row exists
/// afterwards iff it existed before or some upsert names it, and its value
/// is the base row overwritten by the last writes.
pub proof fn lemma_players_after(s: StoreView, ops: Seq<OpV>, u: Seq<char>)
    ensures
        apply_ops(s, ops).players.contains_key(u) == (s.players.contains_key(u)
            || creates_player(ops, u)),
        apply_ops(s, ops).players.contains_key(u) ==> apply_ops(s, ops).players[u]
            == merged_player(base_player(s, u), last_online(ops, u), last_ranked(ops, u)),
    decreases ops.len(),
{
    if ops.len() == 0 {
    } else {
        let pre = apply_ops(s, ops.drop_last());
        lemma_players_after(s, ops.drop_last(), u);
        if !s.players.contains_key(u) && !creates_player(ops.drop_last(), u) {
            lemma_no_create_no_writes(ops.drop_last(), u);
        }
        match ops.last() {
            OpV::UpsertOnline { username, online } => {
            },
            OpV::UpsertRanked { username, experience, rank } => {
            },
            OpV::MergeHistory { username, experience, day } => {
            },
        }
    }
}

/// What a sequence of operations does to one history row: it exists
/// afterwards iff it existed before or some merge names `(u, d)`, and its
/// value is the last capture written, else the old one.
pub proof fn lemma_history_after(s: StoreView, ops: Seq<OpV>, u: Seq<char>, d: u32)
    ensures
        apply_ops(s, ops).history.contains_key((u, d)) == (s.history.contains_key((u, d))
            || merges_day(ops, u, d)),
        apply_ops(s, ops).history.contains_key((u, d)) ==> apply_ops(s, ops).history[(u, d)]
            == (match last_hist(ops, u, d) {
                Some(e) => e,
                None => s.history[(u, d)],
            }),
    decreases ops.len(),
{
    if ops.len() == 0 {
    } else {
        lemma_history_after(s, ops.drop_last(), u, d);
    }
}

/// Re-applying a sequence of operations to a store that already reflects
/// it changes nothing: every operation is an insert-or-overwrite keyed by
/// username or `(player, day)`, so the second pass writes the values that
/// are already there.
pub proof fn lemma_apply_ops_idempotent(s: StoreView, ops: Seq<OpV>)
    ensures
        apply_ops(apply_ops(s, ops), ops) == apply_ops(s, ops),
{
    let s1 = apply_ops(s, ops);
    let s2 = apply_ops(s1, ops);
    assert forall|u: Seq<char>| #![trigger s1.players.dom().contains(u)]
        s2.players.dom().contains(u) == s1.players.dom().contains(u) by {
        lemma_players_after(s, ops, u);
        lemma_players_after(s1, ops, u);
    }
    assert forall|u: Seq<char>| #![trigger s2.players[u]]
        s1.players.dom().contains(u) ==> s2.players[u] == s1.players[u] by {
        lemma_players_after(s, ops, u);
        lemma_players_after(s1, ops, u);
    }
    assert forall|k: (Seq<char>, u32)| #![trigger s1.history.dom().contains(k)]
        s2.history.dom().contains(k) == s1.history.dom().contains(k) by {
        lemma_history_after(s, ops, k.0, k.1);
        lemma_history_after(s1, ops, k.0, k.1);
    }
    assert forall|k: (Seq<char>, u32)| #![trigger s2.history[k]]
        s1.history.dom().contains(k) ==> s2.history[k] == s1.history[k] by {
        lemma_history_after(s, ops, k.0, k.1);
        lemma_history_after(s1, ops, k.0, k.1);
    }
    assert(s2.players =~= s1.players);
    assert(s2.history =~= s1.history);
}

/// A sequence that was applicable stays applicable against any store that
/// holds at least the same player rows, in particular against the store it
/// has just been applied to.
pub proof fn lemma_applicable_monotone(s1: StoreView, s2: StoreView, ops: Seq<OpV>)
    requires
        ops_applicable(s1, ops),
        forall|u: Seq<char>| s1.players.contains_key(u) ==> s2.players.contains_key(u),
    ensures
        ops_applicable(s2, ops),
{
    assert forall|i: int| 0 <= i < ops.len() implies op_applicable(
        apply_ops(s2, ops.take(i)),
        ops[i],
    ) by {
        assert(op_applicable(apply_ops(s1, ops.take(i)), ops[i]));
        match ops[i] {
            OpV::MergeHistory { username, experience, day } => {
                lemma_players_after(s1, ops.take(i), username);
                lemma_players_after(s2, ops.take(i), username);
            },
            _ => {},
        }
    }
}

} // verus!
