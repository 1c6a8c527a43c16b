use vstd::prelude::*;
use crate::data::{clamp_exp, store_experience, EntryV, LeaderboardEntry, Op, OpV};
use crate::model::{
    apply_op, apply_ops, creates_player, last_hist, last_online, last_ranked,
    lemma_creates_concat, lemma_last_hist_concat, lemma_last_online_concat,
    lemma_last_ranked_concat, lemma_merges_concat, lemma_ops_applicable_rec, merges_day,
    ops_applicable, ops_applicable_rec, StoreView,
};

verus! {

/// One `UpsertOnline(.., true)` per name on the fetched online list, in
/// list order.
pub open spec fn online_true_ops(online: Seq<Seq<char>>) -> Seq<OpV>
    decreases online.len(),
{
    if online.len() == 0 {
        Seq::empty()
    } else {
        online_true_ops(online.drop_last()).push(
            OpV::UpsertOnline { username: online.last(), online: true },
        )
    }
}

/// One `UpsertOnline(.., false)` per previously online name that is
/// absent from the fetched list, in previous-list order.
pub open spec fn offline_ops(prev: Seq<Seq<char>>, online: Seq<Seq<char>>) -> Seq<OpV>
    decreases prev.len(),
{
    if prev.len() == 0 {
        Seq::empty()
    } else {
        offline_ops(prev.drop_last(), online) + (if online.contains(prev.last()) {
            Seq::empty()
        } else {
            seq![OpV::UpsertOnline { username: prev.last(), online: false }]
        })
    }
}

/// For each leaderboard entry, in feed order: a ranked upsert whose rank
/// is the 1-based feed position, followed by a history merge for `day`
/// with the same clamped experience.
pub open spec fn ranked_ops(lb: Seq<EntryV>, day: u32) -> Seq<OpV>
    decreases lb.len(),
{
    if lb.len() == 0 {
        Seq::empty()
    } else {
        ranked_ops(lb.drop_last(), day) + seq![
            OpV::UpsertRanked {
                username: lb.last().username,
                experience: clamp_exp(lb.last().experience),
                rank: lb.len() as i32,
            },
            OpV::MergeHistory {
                username: lb.last().username,
                experience: clamp_exp(lb.last().experience),
                day: day,
            },
        ]
    }
}

/// Ranked upserts alone (no history), with ranks counted on from
/// `first_rank`: what a backfill pass emits for one leaderboard page when
/// the numbering continues across pages.
pub open spec fn ranked_page_ops(lb: Seq<EntryV>, first_rank: int) -> Seq<OpV>
    decreases lb.len(),
{
    if lb.len() == 0 {
        Seq::empty()
    } else {
        ranked_page_ops(lb.drop_last(), first_rank).push(
            OpV::UpsertRanked {
                username: lb.last().username,
                experience: clamp_exp(lb.last().experience),
                rank: (first_rank + lb.len() - 1) as i32,
            },
        )
    }
}

/// Everything one tick asks the store gateway to do, given what the two
/// fetches returned: online flags first (present names on, previously
/// online absent names off), then ranked upserts with their history
/// merges. A feed that failed contributes nothing, so the fields it owns
/// keep their stored values by omission.
pub open spec fn reconcile_spec(
    prev: Seq<Seq<char>>,
    online: Option<Seq<Seq<char>>>,
    lb: Option<Seq<EntryV>>,
    day: u32,
) -> Seq<OpV> {
    (match online {
        Some(on) => online_true_ops(on) + offline_ops(prev, on),
        None => Seq::empty(),
    }) + (match lb {
        Some(entries) => ranked_ops(entries, day),
        None => Seq::empty(),
    })
}

/// Whether the leaderboard names `u` at all.
pub open spec fn lb_has(lb: Seq<EntryV>, u: Seq<char>) -> bool
    decreases lb.len(),
{
    if lb.len() == 0 {
        false
    } else {
        lb.last().username == u || lb_has(lb.drop_last(), u)
    }
}

/// The experience of the last leaderboard entry naming `u` (0 when none
/// does).
pub open spec fn lb_last_exp(lb: Seq<EntryV>, u: Seq<char>) -> u64
    decreases lb.len(),
{
    if lb.len() == 0 {
        0
    } else if lb.last().username == u {
        lb.last().experience
    } else {
        lb_last_exp(lb.drop_last(), u)
    }
}

/// The 1-based feed position of the last leaderboard entry naming `u` (0
/// when none does).
pub open spec fn lb_last_rank(lb: Seq<EntryV>, u: Seq<char>) -> int
    decreases lb.len(),
{
    if lb.len() == 0 {
        0
    } else if lb.last().username == u {
        lb.len() as int
    } else {
        lb_last_rank(lb.drop_last(), u)
    }
}

proof fn lemma_contains_split<A>(s: Seq<A>, x: A)
    requires
        s.len() > 0,
    ensures
        s.contains(x) == (s.drop_last().contains(x) || s.last() == x),
{
    if s.contains(x) && s.last() != x {
        let i = choose|i: int| 0 <= i < s.len() && s[i] == x;
        assert(i < s.len() - 1);
        assert(s.drop_last()[i] == x);
    }
    if s.drop_last().contains(x) {
        let i = choose|i: int| 0 <= i < s.drop_last().len() && s.drop_last()[i] == x;
        assert(s[i] == x);
    }
    if s.last() == x {
        assert(s[s.len() - 1] == x);
    }
}

/// What the online-list part of a tick writes: the last online flag is
/// `true` exactly for the names on the list, and nothing else is touched.
pub proof fn lemma_online_true_writes(on: Seq<Seq<char>>, u: Seq<char>, d: u32)
    ensures
        creates_player(online_true_ops(on), u) == on.contains(u),
        last_online(online_true_ops(on), u) == (if on.contains(u) {
            Some(true)
        } else {
            None
        }),
        last_ranked(online_true_ops(on), u) is None,
        last_hist(online_true_ops(on), u, d) is None,
        !merges_day(online_true_ops(on), u, d),
    decreases on.len(),
{
    if on.len() == 0 {
        assert(!on.contains(u));
    } else {
        lemma_online_true_writes(on.drop_last(), u, d);
        lemma_contains_split(on, u);
        let ops = online_true_ops(on);
        assert(ops.drop_last() =~= online_true_ops(on.drop_last()));
        assert(ops.last() == OpV::UpsertOnline { username: on.last(), online: true });
    }
}

/// What the offline part of a tick writes: the last online flag is
/// `false` exactly for the previously online names absent from the list.
pub proof fn lemma_offline_writes(prev: Seq<Seq<char>>, on: Seq<Seq<char>>, u: Seq<char>, d: u32)
    ensures
        creates_player(offline_ops(prev, on), u) == (prev.contains(u) && !on.contains(u)),
        last_online(offline_ops(prev, on), u) == (if prev.contains(u) && !on.contains(u) {
            Some(false)
        } else {
            None
        }),
        last_ranked(offline_ops(prev, on), u) is None,
        last_hist(offline_ops(prev, on), u, d) is None,
        !merges_day(offline_ops(prev, on), u, d),
    decreases prev.len(),
{
    if prev.len() == 0 {
        assert(!prev.contains(u));
    } else {
        lemma_offline_writes(prev.drop_last(), on, u, d);
        lemma_contains_split(prev, u);
        let head = offline_ops(prev.drop_last(), on);
        if on.contains(prev.last()) {
            assert(offline_ops(prev, on) =~= head);
        } else {
            let op = OpV::UpsertOnline { username: prev.last(), online: false };
            assert(offline_ops(prev, on) =~= head.push(op));
            assert(offline_ops(prev, on).drop_last() =~= head);
            assert(offline_ops(prev, on).last() == op);
        }
    }
}

/// What the leaderboard part of a tick writes: for a name the feed holds,
/// the last ranked write carries the clamped experience and 1-based
/// position of its last entry, and the day's history capture carries the
/// same experience; no online flag is touched, and no other day.
pub proof fn lemma_ranked_writes(lb: Seq<EntryV>, day: u32, u: Seq<char>, d: u32)
    ensures
        creates_player(ranked_ops(lb, day), u) == lb_has(lb, u),
        last_online(ranked_ops(lb, day), u) is None,
        last_ranked(ranked_ops(lb, day), u) == (if lb_has(lb, u) {
            Some((clamp_exp(lb_last_exp(lb, u)), lb_last_rank(lb, u) as i32))
        } else {
            None
        }),
        merges_day(ranked_ops(lb, day), u, d) == (d == day && lb_has(lb, u)),
        last_hist(ranked_ops(lb, day), u, d) == (if d == day && lb_has(lb, u) {
            Some(clamp_exp(lb_last_exp(lb, u)))
        } else {
            None
        }),
    decreases lb.len(),
{
    if lb.len() == 0 {
    } else {
        lemma_ranked_writes(lb.drop_last(), day, u, d);
        let head = ranked_ops(lb.drop_last(), day);
        let o1 = OpV::UpsertRanked {
            username: lb.last().username,
            experience: clamp_exp(lb.last().experience),
            rank: lb.len() as i32,
        };
        let o2 = OpV::MergeHistory {
            username: lb.last().username,
            experience: clamp_exp(lb.last().experience),
            day: day,
        };
        let ops = ranked_ops(lb, day);
        let mid = head.push(o1);
        assert(ops =~= mid.push(o2));
        assert(ops.drop_last() =~= mid);
        assert(ops.last() == o2);
        assert(mid.drop_last() =~= head);
        assert(mid.last() == o1);
        assert(last_online(ops, u) == last_online(mid, u));
        assert(last_ranked(ops, u) == last_ranked(mid, u));
        assert(creates_player(ops, u) == creates_player(mid, u));
        assert(merges_day(ops, u, d) == ((lb.last().username == u && day == d) || merges_day(
            mid,
            u,
            d,
        )));
        assert(last_hist(ops, u, d) == (if lb.last().username == u && day == d {
            Some(clamp_exp(lb.last().experience))
        } else {
            last_hist(mid, u, d)
        }));
        assert(last_online(mid, u) == last_online(head, u));
        assert(last_ranked(mid, u) == (if lb.last().username == u {
            Some((clamp_exp(lb.last().experience), lb.len() as i32))
        } else {
            last_ranked(head, u)
        }));
        assert(creates_player(mid, u) == (lb.last().username == u || creates_player(head, u)));
        assert(merges_day(mid, u, d) == merges_day(head, u, d));
        assert(last_hist(mid, u, d) == last_hist(head, u, d));
    }
}

/// What a whole tick's operation sequence writes for one player and one
/// day, put together from its three parts.
pub proof fn lemma_reconcile_writes(
    prev: Seq<Seq<char>>,
    online: Option<Seq<Seq<char>>>,
    lb: Option<Seq<EntryV>>,
    day: u32,
    u: Seq<char>,
    d: u32,
)
    ensures
        creates_player(reconcile_spec(prev, online, lb, day), u) == ((match online {
            Some(on) => on.contains(u) || (prev.contains(u) && !on.contains(u)),
            None => false,
        }) || (match lb {
            Some(entries) => lb_has(entries, u),
            None => false,
        })),
        last_online(reconcile_spec(prev, online, lb, day), u) == (match online {
            Some(on) => if on.contains(u) {
                Some(true)
            } else if prev.contains(u) {
                Some(false)
            } else {
                None
            },
            None => None,
        }),
        last_ranked(reconcile_spec(prev, online, lb, day), u) == (match lb {
            Some(entries) => if lb_has(entries, u) {
                Some((clamp_exp(lb_last_exp(entries, u)), lb_last_rank(entries, u) as i32))
            } else {
                None
            },
            None => None,
        }),
        merges_day(reconcile_spec(prev, online, lb, day), u, d) == (match lb {
            Some(entries) => d == day && lb_has(entries, u),
            None => false,
        }),
        last_hist(reconcile_spec(prev, online, lb, day), u, d) == (match lb {
            Some(entries) => if d == day && lb_has(entries, u) {
                Some(clamp_exp(lb_last_exp(entries, u)))
            } else {
                None
            },
            None => None,
        }),
{
    let head = match online {
        Some(on) => online_true_ops(on) + offline_ops(prev, on),
        None => Seq::<OpV>::empty(),
    };
    let tail = match lb {
        Some(entries) => ranked_ops(entries, day),
        None => Seq::<OpV>::empty(),
    };
    match online {
        Some(on) => {
            lemma_online_true_writes(on, u, d);
            lemma_offline_writes(prev, on, u, d);
            lemma_last_online_concat(online_true_ops(on), offline_ops(prev, on), u);
            lemma_last_ranked_concat(online_true_ops(on), offline_ops(prev, on), u);
            lemma_last_hist_concat(online_true_ops(on), offline_ops(prev, on), u, d);
            lemma_creates_concat(online_true_ops(on), offline_ops(prev, on), u);
            lemma_merges_concat(online_true_ops(on), offline_ops(prev, on), u, d);
        },
        None => {},
    }
    match lb {
        Some(entries) => {
            lemma_ranked_writes(entries, day, u, d);
        },
        None => {},
    }
    lemma_last_online_concat(head, tail, u);
    lemma_last_ranked_concat(head, tail, u);
    lemma_last_hist_concat(head, tail, u, d);
    lemma_creates_concat(head, tail, u);
    lemma_merges_concat(head, tail, u, d);
}

/// Player upserts alone can always execute.
proof fn lemma_player_ops_applicable(s: StoreView, ops: Seq<OpV>)
    requires
        forall|i: int| 0 <= i < ops.len() ==> !(ops[i] is MergeHistory),
    ensures
        ops_applicable_rec(s, ops),
    decreases ops.len(),
{
    if ops.len() == 0 {
    } else {
        assert forall|i: int| 0 <= i < ops.drop_last().len() implies !(ops.drop_last()[i]
            is MergeHistory) by {
            assert(ops.drop_last()[i] == ops[i]);
        }
        lemma_player_ops_applicable(s, ops.drop_last());
        assert(!(ops[ops.len() - 1] is MergeHistory));
    }
}

pub proof fn lemma_online_only_ops(on: Seq<Seq<char>>)
    ensures
        forall|i: int| 0 <= i < online_true_ops(on).len() ==> online_true_ops(on)[i]
            is UpsertOnline,
    decreases on.len(),
{
    if on.len() == 0 {
    } else {
        lemma_online_only_ops(on.drop_last());
        assert(online_true_ops(on).drop_last() =~= online_true_ops(on.drop_last()));
        assert forall|i: int| 0 <= i < online_true_ops(on).len() implies online_true_ops(on)[i]
            is UpsertOnline by {
            if i < online_true_ops(on).len() - 1 {
                assert(online_true_ops(on)[i] == online_true_ops(on.drop_last())[i]);
            }
        }
    }
}

pub proof fn lemma_offline_only_ops(prev: Seq<Seq<char>>, on: Seq<Seq<char>>)
    ensures
        forall|i: int| 0 <= i < offline_ops(prev, on).len() ==> offline_ops(prev, on)[i]
            is UpsertOnline,
    decreases prev.len(),
{
    if prev.len() == 0 {
    } else {
        lemma_offline_only_ops(prev.drop_last(), on);
        let head = offline_ops(prev.drop_last(), on);
        assert forall|i: int| 0 <= i < offline_ops(prev, on).len() implies offline_ops(prev, on)[i]
            is UpsertOnline by {
            if i < head.len() {
                assert(offline_ops(prev, on)[i] == head[i]);
            }
        }
    }
}

/// Each history merge the leaderboard part emits follows the ranked
/// upsert that creates its player row, so a tick's whole sequence can
/// always execute.
proof fn lemma_ranked_ops_applicable(
    s: StoreView,
    head: Seq<OpV>,
    lb: Seq<EntryV>,
    day: u32,
)
    requires
        ops_applicable_rec(s, head),
    ensures
        ops_applicable_rec(s, head + ranked_ops(lb, day)),
    decreases lb.len(),
{
    if lb.len() == 0 {
        assert(head + ranked_ops(lb, day) =~= head);
    } else {
        lemma_ranked_ops_applicable(s, head, lb.drop_last(), day);
        let x = head + ranked_ops(lb.drop_last(), day);
        let o1 = OpV::UpsertRanked {
            username: lb.last().username,
            experience: clamp_exp(lb.last().experience),
            rank: lb.len() as i32,
        };
        let o2 = OpV::MergeHistory {
            username: lb.last().username,
            experience: clamp_exp(lb.last().experience),
            day: day,
        };
        let full = head + ranked_ops(lb, day);
        assert(full =~= x.push(o1).push(o2));
        assert(full.drop_last() =~= x.push(o1));
        assert(full.last() == o2);
        assert(x.push(o1).drop_last() =~= x);
        assert(x.push(o1).last() == o1);
        assert(ops_applicable_rec(s, x.push(o1)));
        let mid = apply_ops(s, x.push(o1));
        assert(mid == apply_op(apply_ops(s, x), o1));
        assert(mid.players.contains_key(lb.last().username));
    }
}

/// One tick's operations always execute in full against any store state:
/// success of the persist step is owed whenever the store itself works.
pub proof fn lemma_reconcile_applicable(
    s: StoreView,
    prev: Seq<Seq<char>>,
    online: Option<Seq<Seq<char>>>,
    lb: Option<Seq<EntryV>>,
    day: u32,
)
    ensures
        ops_applicable(s, reconcile_spec(prev, online, lb, day)),
{
    let head = match online {
        Some(on) => online_true_ops(on) + offline_ops(prev, on),
        None => Seq::<OpV>::empty(),
    };
    match online {
        Some(on) => {
            lemma_online_only_ops(on);
            lemma_offline_only_ops(prev, on);
            assert forall|i: int| 0 <= i < head.len() implies !(head[i] is MergeHistory) by {
                if i < online_true_ops(on).len() {
                    assert(head[i] == online_true_ops(on)[i]);
                } else {
                    assert(head[i] == offline_ops(prev, on)[i - online_true_ops(on).len()]);
                }
            }
        },
        None => {},
    }
    lemma_player_ops_applicable(s, head);
    let full = reconcile_spec(prev, online, lb, day);
    match lb {
        Some(entries) => {
            lemma_ranked_ops_applicable(s, head, entries, day);
            assert(full == head + ranked_ops(entries, day));
        },
        None => {
            assert(full =~= head);
        },
    }
    lemma_ops_applicable_rec(s, full);
}

/// Tests whether a list of names holds one equal to `u`.
pub fn names_contain(names: &Vec<String>, u: &String) -> (r: bool)
    ensures
        r == names.deep_view().contains(u@),
{
    let mut i: usize = 0;
    while i < names.len()
        invariant
            i <= names@.len(),
            forall|j: int| 0 <= j < i ==> names.deep_view()[j] != u@,
        decreases names@.len() - i,
    {
        if names[i] == *u {
            assert(names.deep_view()[i as int] == u@);
            return true;
        }
        i += 1;
    }
    false
}

/// The reconciliation engine: a pure function from the previously online
/// names and the two fetch results to the tick's upsert operations.
pub fn reconcile(
    prev_online: &Vec<String>,
    online: Option<&Vec<String>>,
    leaderboard: Option<&Vec<LeaderboardEntry>>,
    day: u32,
) -> (r: Vec<Op>)
    requires
        (leaderboard matches Some(lb) ==> lb@.len() <= 0x7fff_ffff),
    ensures
        r.deep_view() == reconcile_spec(
            prev_online.deep_view(),
            online.deep_view(),
            leaderboard.deep_view(),
            day,
        ),
{
    let mut out: Vec<Op> = Vec::new();
    match online {
        Some(on) => {
            let mut i: usize = 0;
            while i < on.len()
                invariant
                    i <= on@.len(),
                    out.deep_view() == online_true_ops(on.deep_view().take(i as int)),
                decreases on@.len() - i,
            {
                out.push(Op::UpsertOnline { username: on[i].clone(), online: true });
                proof {
                    let full = on.deep_view();
                    assert(full.take(i + 1).drop_last() =~= full.take(i as int));
                    assert(full.take(i + 1).last() == full[i as int]);
                    assert(out.deep_view() =~= online_true_ops(full.take(i + 1)));
                }
                i += 1;
            }
            proof {
                assert(on.deep_view().take(on@.len() as int) =~= on.deep_view());
            }
            let mut j: usize = 0;
            while j < prev_online.len()
                invariant
                    j <= prev_online@.len(),
                    out.deep_view() == online_true_ops(on.deep_view()) + offline_ops(
                        prev_online.deep_view().take(j as int),
                        on.deep_view(),
                    ),
                decreases prev_online@.len() - j,
            {
                proof {
                    let full = prev_online.deep_view();
                    assert(full.take(j + 1).drop_last() =~= full.take(j as int));
                    assert(full.take(j + 1).last() == full[j as int]);
                }
                if !names_contain(on, &prev_online[j]) {
                    out.push(
                        Op::UpsertOnline { username: prev_online[j].clone(), online: false },
                    );
                    proof {
                        let pre = online_true_ops(on.deep_view()) + offline_ops(
                            prev_online.deep_view().take(j as int),
                            on.deep_view(),
                        );
                        assert(out.deep_view() =~= pre.push(
                            OpV::UpsertOnline {
                                username: prev_online.deep_view()[j as int],
                                online: false,
                            },
                        ));
                        assert(out.deep_view() =~= online_true_ops(on.deep_view()) + offline_ops(
                            prev_online.deep_view().take(j + 1),
                            on.deep_view(),
                        ));
                    }
                } else {
                    proof {
                        assert(out.deep_view() =~= online_true_ops(on.deep_view()) + offline_ops(
                            prev_online.deep_view().take(j + 1),
                            on.deep_view(),
                        ));
                    }
                }
                j += 1;
            }
            proof {
                let full = prev_online.deep_view();
                assert(full.take(full.len() as int) =~= full);
            }
        },
        None => {},
    }
    match leaderboard {
        Some(entries) => {
            let base_len = out.len();
            let ghost head = out.deep_view();
            let mut k: usize = 0;
            while k < entries.len()
                invariant
                    k <= entries@.len(),
                    entries@.len() <= 0x7fff_ffff,
                    out.deep_view() == head + ranked_ops(entries.deep_view().take(k as int), day),
                decreases entries@.len() - k,
            {
                let exp = store_experience(entries[k].experience);
                let rank: i32 = (k as i32) + 1;
                out.push(
                    Op::UpsertRanked {
                        username: entries[k].username.clone(),
                        experience: exp,
                        rank: rank,
                    },
                );
                out.push(
                    Op::MergeHistory {
                        username: entries[k].username.clone(),
                        experience: exp,
                        day: day,
                    },
                );
                proof {
                    let full = entries.deep_view();
                    assert(full.take(k + 1).drop_last() =~= full.take(k as int));
                    assert(full.take(k + 1).last() == full[k as int]);
                    let o1 = OpV::UpsertRanked {
                        username: full[k as int].username,
                        experience: clamp_exp(full[k as int].experience),
                        rank: (k + 1) as i32,
                    };
                    let o2 = OpV::MergeHistory {
                        username: full[k as int].username,
                        experience: clamp_exp(full[k as int].experience),
                        day: day,
                    };
                    assert(full.take(k + 1).len() == k + 1);
                    assert(ranked_ops(full.take(k + 1), day) == ranked_ops(
                        full.take(k as int),
                        day,
                    ) + seq![o1, o2]);
                    let pre = head + ranked_ops(full.take(k as int), day);
                    assert(out.deep_view() =~= pre + seq![o1, o2]);
                    assert(head + ranked_ops(full.take(k + 1), day) =~= pre + seq![o1, o2]);
                }
                k += 1;
            }
            proof {
                let full = entries.deep_view();
                assert(full.take(full.len() as int) =~= full);
            }
        },
        None => {},
    }
    proof {
        assert(out.deep_view() =~= reconcile_spec(
            prev_online.deep_view(),
            online.deep_view(),
            leaderboard.deep_view(),
            day,
        ));
    }
    out
}

/// Ranked upserts for one backfill page, ranks counted on from
/// `first_rank` in feed order, without history merges.
pub fn ranked_upserts(leaderboard: &Vec<LeaderboardEntry>, first_rank: i32) -> (r: Vec<Op>)
    requires
        1 <= first_rank,
        first_rank + leaderboard@.len() <= 0x8000_0000,
    ensures
        r.deep_view() == ranked_page_ops(leaderboard.deep_view(), first_rank as int),
{
    let mut out: Vec<Op> = Vec::new();
    let mut k: usize = 0;
    while k < leaderboard.len()
        invariant
            k <= leaderboard@.len(),
            1 <= first_rank,
            first_rank + leaderboard@.len() <= 0x8000_0000,
            out.deep_view() == ranked_page_ops(
                leaderboard.deep_view().take(k as int),
                first_rank as int,
            ),
        decreases leaderboard@.len() - k,
    {
        let exp = store_experience(leaderboard[k].experience);
        let rank: i32 = first_rank + (k as i32);
        out.push(
            Op::UpsertRanked {
                username: leaderboard[k].username.clone(),
                experience: exp,
                rank: rank,
            },
        );
        proof {
            let full = leaderboard.deep_view();
            assert(full.take(k + 1).drop_last() =~= full.take(k as int));
            assert(full.take(k + 1).last() == full[k as int]);
        }
        k += 1;
    }
    proof {
        let full = leaderboard.deep_view();
        assert(full.take(full.len() as int) =~= full);
    }
    out
}

/// Where a backfill pass stands after one page persisted: the next page
/// number, and the first rank of that page — the numbering continues
/// right after the `count` entries just written.
pub fn backfill_advance(page: u32, first_rank: i32, count: usize) -> (r: (u32, i32))
    requires
        page < 0xffff_ffff,
        1 <= first_rank,
        first_rank + count <= 0x7fff_ffff,
    ensures
        r.0 == page + 1,
        r.1 == first_rank + count,
{
    (page + 1, first_rank + count as i32)
}

} // verus!
