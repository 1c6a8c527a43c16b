use vstd::prelude::*;
use crate::data::{Op, OpV, StoreError};
use crate::model::{
    apply_op, apply_ops, empty_store, lemma_ops_applicable_rec, op_applicable, ops_applicable,
    ops_applicable_rec, PlayerV, StoreView,
};

verus! {

/// One row of the `players` table.
pub struct PlayerRow {
    pub username: String,
    pub experience: i32,
    pub rank: i32,
    pub online: bool,
}

impl View for PlayerRow {
    type V = PlayerV;

    open spec fn view(&self) -> PlayerV {
        PlayerV { experience: self.experience, rank: self.rank, online: self.online }
    }
}

impl Clone for PlayerRow {
    fn clone(&self) -> (r: Self)
        ensures
            r == *self,
    {
        PlayerRow {
            username: self.username.clone(),
            experience: self.experience,
            rank: self.rank,
            online: self.online,
        }
    }
}

/// One row of the `history` table.
pub struct HistoryRow {
    pub player: String,
    pub experience: i32,
    pub day: u32,
}

impl Clone for HistoryRow {
    fn clone(&self) -> (r: Self)
        ensures
            r == *self,
    {
        HistoryRow { player: self.player.clone(), experience: self.experience, day: self.day }
    }
}

/// The `players` table a sequence of rows represents.
pub open spec fn players_map(rows: Seq<PlayerRow>) -> Map<Seq<char>, PlayerV>
    decreases rows.len(),
{
    if rows.len() == 0 {
        Map::empty()
    } else {
        players_map(rows.drop_last()).insert(rows.last().username@, rows.last()@)
    }
}

/// The `history` table a sequence of rows represents.
pub open spec fn history_map(rows: Seq<HistoryRow>) -> Map<(Seq<char>, u32), i32>
    decreases rows.len(),
{
    if rows.len() == 0 {
        Map::empty()
    } else {
        history_map(rows.drop_last()).insert(
            (rows.last().player@, rows.last().day),
            rows.last().experience,
        )
    }
}

/// Primary key: at most one row per username.
pub open spec fn unique_players(rows: Seq<PlayerRow>) -> bool {
    forall|i: int, j: int|
        0 <= i < j < rows.len() ==> rows[i].username@ != rows[j].username@
}

/// Uniqueness key: at most one row per `(player, day)`.
pub open spec fn unique_history(rows: Seq<HistoryRow>) -> bool {
    forall|i: int, j: int|
        0 <= i < j < rows.len() ==> (rows[i].player@, rows[i].day) != (rows[j].player@,
        rows[j].day)
}

proof fn lemma_players_map_domain(rows: Seq<PlayerRow>, u: Seq<char>)
    ensures
        players_map(rows).contains_key(u) == (exists|i: int|
            0 <= i < rows.len() && rows[i].username@ == u),
    decreases rows.len(),
{
    if rows.len() == 0 {
    } else {
        let dl = rows.drop_last();
        lemma_players_map_domain(dl, u);
        if rows.last().username@ == u {
            assert(rows[rows.len() - 1].username@ == u);
        } else {
            if players_map(rows).contains_key(u) {
                let i = choose|i: int| 0 <= i < dl.len() && dl[i].username@ == u;
                assert(rows[i].username@ == u);
            }
            if exists|i: int| 0 <= i < rows.len() && rows[i].username@ == u {
                let i = choose|i: int| 0 <= i < rows.len() && rows[i].username@ == u;
                assert(i < rows.len() - 1);
                assert(dl[i].username@ == u);
            }
        }
    }
}

proof fn lemma_players_map_at(rows: Seq<PlayerRow>, i: int)
    requires
        unique_players(rows),
        0 <= i < rows.len(),
    ensures
        players_map(rows).contains_key(rows[i].username@),
        players_map(rows)[rows[i].username@] == rows[i]@,
    decreases rows.len(),
{
    let dl = rows.drop_last();
    if i == rows.len() - 1 {
    } else {
        assert(unique_players(dl));
        lemma_players_map_at(dl, i);
        assert(rows.last().username@ != rows[i].username@);
    }
}

proof fn lemma_players_map_update(rows: Seq<PlayerRow>, i: int, row: PlayerRow)
    requires
        unique_players(rows),
        0 <= i < rows.len(),
        row.username@ == rows[i].username@,
    ensures
        players_map(rows.update(i, row)) == players_map(rows).insert(row.username@, row@),
        unique_players(rows.update(i, row)),
    decreases rows.len(),
{
    let rows2 = rows.update(i, row);
    assert forall|a: int, b: int| 0 <= a < b < rows2.len() implies rows2[a].username@
        != rows2[b].username@ by {
        assert(rows[a].username@ != rows[b].username@);
    }
    if i == rows.len() - 1 {
        assert(rows2.drop_last() =~= rows.drop_last());
        assert(rows2.last() == row);
        assert(players_map(rows2) =~= players_map(rows).insert(row.username@, row@));
    } else {
        assert(unique_players(rows.drop_last()));
        lemma_players_map_update(rows.drop_last(), i, row);
        assert(rows2.drop_last() =~= rows.drop_last().update(i, row));
        assert(rows2.last() == rows.last());
        assert(rows.last().username@ != row.username@);
        assert(players_map(rows2) =~= players_map(rows).insert(row.username@, row@));
    }
}

proof fn lemma_players_map_push(rows: Seq<PlayerRow>, row: PlayerRow)
    requires
        unique_players(rows),
        forall|i: int| 0 <= i < rows.len() ==> rows[i].username@ != row.username@,
    ensures
        players_map(rows.push(row)) == players_map(rows).insert(row.username@, row@),
        unique_players(rows.push(row)),
{
    assert(rows.push(row).drop_last() =~= rows);
    assert(rows.push(row).last() == row);
    assert forall|a: int, b: int| 0 <= a < b < rows.push(row).len() implies rows.push(
        row,
    )[a].username@ != rows.push(row)[b].username@ by {
        if b < rows.len() {
            assert(rows[a].username@ != rows[b].username@);
        }
    }
}

proof fn lemma_history_map_domain(rows: Seq<HistoryRow>, u: Seq<char>, d: u32)
    ensures
        history_map(rows).contains_key((u, d)) == (exists|i: int|
            0 <= i < rows.len() && rows[i].player@ == u && rows[i].day == d),
    decreases rows.len(),
{
    if rows.len() == 0 {
    } else {
        let dl = rows.drop_last();
        lemma_history_map_domain(dl, u, d);
        if rows.last().player@ == u && rows.last().day == d {
            assert(rows[rows.len() - 1].player@ == u && rows[rows.len() - 1].day == d);
        } else {
            if history_map(rows).contains_key((u, d)) {
                let i = choose|i: int| 0 <= i < dl.len() && dl[i].player@ == u && dl[i].day == d;
                assert(rows[i].player@ == u && rows[i].day == d);
            }
            if exists|i: int| 0 <= i < rows.len() && rows[i].player@ == u && rows[i].day == d {
                let i = choose|i: int|
                    0 <= i < rows.len() && rows[i].player@ == u && rows[i].day == d;
                assert(i < rows.len() - 1);
                assert(dl[i].player@ == u && dl[i].day == d);
            }
        }
    }
}

proof fn lemma_history_map_at(rows: Seq<HistoryRow>, i: int)
    requires
        unique_history(rows),
        0 <= i < rows.len(),
    ensures
        history_map(rows).contains_key((rows[i].player@, rows[i].day)),
        history_map(rows)[(rows[i].player@, rows[i].day)] == rows[i].experience,
    decreases rows.len(),
{
    let dl = rows.drop_last();
    if i == rows.len() - 1 {
    } else {
        assert(unique_history(dl));
        lemma_history_map_at(dl, i);
        assert((rows.last().player@, rows.last().day) != (rows[i].player@, rows[i].day));
    }
}

proof fn lemma_history_map_update(rows: Seq<HistoryRow>, i: int, row: HistoryRow)
    requires
        unique_history(rows),
        0 <= i < rows.len(),
        row.player@ == rows[i].player@,
        row.day == rows[i].day,
    ensures
        history_map(rows.update(i, row)) == history_map(rows).insert(
            (row.player@, row.day),
            row.experience,
        ),
        unique_history(rows.update(i, row)),
    decreases rows.len(),
{
    let rows2 = rows.update(i, row);
    assert forall|a: int, b: int| 0 <= a < b < rows2.len() implies (rows2[a].player@, rows2[a].day)
        != (rows2[b].player@, rows2[b].day) by {
        assert((rows[a].player@, rows[a].day) != (rows[b].player@, rows[b].day));
    }
    if i == rows.len() - 1 {
        assert(rows2.drop_last() =~= rows.drop_last());
        assert(rows2.last() == row);
        assert(history_map(rows2) =~= history_map(rows).insert(
            (row.player@, row.day),
            row.experience,
        ));
    } else {
        assert(unique_history(rows.drop_last()));
        lemma_history_map_update(rows.drop_last(), i, row);
        assert(rows2.drop_last() =~= rows.drop_last().update(i, row));
        assert(rows2.last() == rows.last());
        assert((rows.last().player@, rows.last().day) != (row.player@, row.day));
        assert(history_map(rows2) =~= history_map(rows).insert(
            (row.player@, row.day),
            row.experience,
        ));
    }
}

proof fn lemma_history_map_push(rows: Seq<HistoryRow>, row: HistoryRow)
    requires
        unique_history(rows),
        forall|i: int|
            0 <= i < rows.len() ==> (rows[i].player@, rows[i].day) != (row.player@, row.day),
    ensures
        history_map(rows.push(row)) == history_map(rows).insert(
            (row.player@, row.day),
            row.experience,
        ),
        unique_history(rows.push(row)),
{
    assert(rows.push(row).drop_last() =~= rows);
    assert(rows.push(row).last() == row);
    assert forall|a: int, b: int| 0 <= a < b < rows.push(row).len() implies (rows.push(
        row,
    )[a].player@, rows.push(row)[a].day) != (rows.push(row)[b].player@, rows.push(
        row,
    )[b].day) by {
        if b < rows.len() {
            assert((rows[a].player@, rows[a].day) != (rows[b].player@, rows[b].day));
        }
    }
}

/// The store gateway's in-memory model of the relational store: the two
/// tables as row vectors with their uniqueness keys. It executes exactly
/// what the engine instructs, a whole tick's operations atomically.
pub struct Store {
    players: Vec<PlayerRow>,
    history: Vec<HistoryRow>,
}

impl View for Store {
    type V = StoreView;

    closed spec fn view(&self) -> StoreView {
        StoreView { players: players_map(self.players@), history: history_map(self.history@) }
    }
}

impl Store {
    /// Both uniqueness keys hold.
    pub closed spec fn wf(&self) -> bool {
        unique_players(self.players@) && unique_history(self.history@)
    }

    /// An empty store.
    pub fn new() -> (s: Store)
        ensures
            s.wf(),
            s@ == empty_store(),
    {
        Store { players: Vec::new(), history: Vec::new() }
    }

    fn find_player_idx(rows: &Vec<PlayerRow>, username: &String) -> (r: Option<usize>)
        ensures
            (match r {
                Some(i) => i < rows@.len() && rows@[i as int].username@ == username@,
                None => forall|i: int| 0 <= i < rows@.len() ==> rows@[i].username@ != username@,
            }),
    {
        let mut i: usize = 0;
        while i < rows.len()
            invariant
                i <= rows@.len(),
                forall|j: int| 0 <= j < i ==> rows@[j].username@ != username@,
            decreases rows@.len() - i,
        {
            if rows[i].username == *username {
                return Some(i);
            }
            i += 1;
        }
        None
    }

    fn find_history_idx(rows: &Vec<HistoryRow>, username: &String, day: u32) -> (r: Option<usize>)
        ensures
            (match r {
                Some(i) => i < rows@.len() && rows@[i as int].player@ == username@
                    && rows@[i as int].day == day,
                None => forall|i: int|
                    0 <= i < rows@.len() ==> (rows@[i].player@, rows@[i].day) != (username@, day),
            }),
    {
        let mut i: usize = 0;
        while i < rows.len()
            invariant
                i <= rows@.len(),
                forall|j: int| 0 <= j < i ==> (rows@[j].player@, rows@[j].day) != (username@, day),
            decreases rows@.len() - i,
        {
            if rows[i].player == *username && rows[i].day == day {
                return Some(i);
            }
            i += 1;
        }
        None
    }

    /// Executes one operation as an insert-or-update upsert. Fails (and
    /// changes nothing) only when a history merge names an unknown
    /// player.
    fn apply_one(&mut self, op: &Op) -> (ok: bool)
        requires
            old(self).wf(),
        ensures
            final(self).wf(),
            ok == op_applicable(old(self)@, op@),
            ok ==> final(self)@ == apply_op(old(self)@, op@),
            !ok ==> final(self)@ == old(self)@,
    {
        match op {
            Op::UpsertOnline { username, online } => {
                match Self::find_player_idx(&self.players, username) {
                    Some(i) => {
                        let new_row = PlayerRow {
                            username: self.players[i].username.clone(),
                            experience: self.players[i].experience,
                            rank: self.players[i].rank,
                            online: *online,
                        };
                        proof {
                            lemma_players_map_at(self.players@, i as int);
                            lemma_players_map_update(self.players@, i as int, new_row);
                        }
                        self.players.set(i, new_row);
                    },
                    None => {
                        let new_row = PlayerRow {
                            username: username.clone(),
                            experience: 0,
                            rank: 0,
                            online: *online,
                        };
                        proof {
                            lemma_players_map_domain(self.players@, username@);
                            lemma_players_map_push(self.players@, new_row);
                        }
                        self.players.push(new_row);
                    },
                }
                true
            },
            Op::UpsertRanked { username, experience, rank } => {
                match Self::find_player_idx(&self.players, username) {
                    Some(i) => {
                        let new_row = PlayerRow {
                            username: self.players[i].username.clone(),
                            experience: *experience,
                            rank: *rank,
                            online: self.players[i].online,
                        };
                        proof {
                            lemma_players_map_at(self.players@, i as int);
                            lemma_players_map_update(self.players@, i as int, new_row);
                        }
                        self.players.set(i, new_row);
                    },
                    None => {
                        let new_row = PlayerRow {
                            username: username.clone(),
                            experience: *experience,
                            rank: *rank,
                            online: false,
                        };
                        proof {
                            lemma_players_map_domain(self.players@, username@);
                            lemma_players_map_push(self.players@, new_row);
                        }
                        self.players.push(new_row);
                    },
                }
                true
            },
            Op::MergeHistory { username, experience, day } => {
                match Self::find_player_idx(&self.players, username) {
                    None => {
                        proof {
                            lemma_players_map_domain(self.players@, username@);
                        }
                        false
                    },
                    Some(_) => {
                        proof {
                            lemma_players_map_domain(self.players@, username@);
                        }
                        match Self::find_history_idx(&self.history, username, *day) {
                            Some(i) => {
                                let new_row = HistoryRow {
                                    player: self.history[i].player.clone(),
                                    experience: *experience,
                                    day: *day,
                                };
                                proof {
                                    lemma_history_map_update(self.history@, i as int, new_row);
                                }
                                self.history.set(i, new_row);
                            },
                            None => {
                                let new_row = HistoryRow {
                                    player: username.clone(),
                                    experience: *experience,
                                    day: *day,
                                };
                                proof {
                                    lemma_history_map_domain(self.history@, username@, *day);
                                    lemma_history_map_push(self.history@, new_row);
                                }
                                self.history.push(new_row);
                            },
                        }
                        true
                    },
                }
            },
        }
    }

    fn clone_rows(&self) -> (r: Store)
        ensures
            r@ == self@,
            r.wf() == self.wf(),
    {
        let mut players: Vec<PlayerRow> = Vec::new();
        let mut i: usize = 0;
        while i < self.players.len()
            invariant
                i <= self.players@.len(),
                players@ == self.players@.take(i as int),
            decreases self.players@.len() - i,
        {
            players.push(self.players[i].clone());
            proof {
                assert(players@ =~= self.players@.take(i + 1));
            }
            i += 1;
        }
        let mut history: Vec<HistoryRow> = Vec::new();
        let mut j: usize = 0;
        while j < self.history.len()
            invariant
                j <= self.history@.len(),
                history@ == self.history@.take(j as int),
            decreases self.history@.len() - j,
        {
            history.push(self.history[j].clone());
            proof {
                assert(history@ =~= self.history@.take(j + 1));
            }
            j += 1;
        }
        proof {
            assert(self.players@.take(self.players@.len() as int) =~= self.players@);
            assert(self.history@.take(self.history@.len() as int) =~= self.history@);
        }
        Store { players, history }
    }

    /// Applies a whole tick's operations as one atomic unit: either every
    /// operation succeeds and the new state is visible, or the store is
    /// left exactly as it was. Fails only when some history merge names a
    /// player that no operation before it created and the store does not
    /// hold.
    #[verifier::rlimit(50)]
    pub fn apply(&mut self, ops: &Vec<Op>) -> (r: Result<usize, StoreError>)
        requires
            old(self).wf(),
        ensures
            final(self).wf(),
            (match r {
                Ok(n) => ops_applicable(old(self)@, ops.deep_view()) && final(self)@ == apply_ops(
                    old(self)@,
                    ops.deep_view(),
                ) && n == ops@.len(),
                Err(e) => e == StoreError::ConstraintViolation && !ops_applicable(
                    old(self)@,
                    ops.deep_view(),
                ) && final(self)@ == old(self)@,
            }),
    {
        let mut scratch = self.clone_rows();
        let mut i: usize = 0;
        while i < ops.len()
            invariant
                i <= ops@.len(),
                old(self).wf(),
                scratch.wf(),
                scratch@ == apply_ops(old(self)@, ops.deep_view().take(i as int)),
                ops_applicable_rec(old(self)@, ops.deep_view().take(i as int)),
            decreases ops@.len() - i,
        {
            proof {
                let full = ops.deep_view();
                assert(full.take(i + 1).drop_last() =~= full.take(i as int));
                assert(full.take(i + 1).last() == full[i as int]);
            }
            let ok = scratch.apply_one(&ops[i]);
            if !ok {
                proof {
                    let full = ops.deep_view();
                    assert(!op_applicable(apply_ops(old(self)@, full.take(i as int)), full[i as int]));
                    if ops_applicable(old(self)@, full) {
                        assert(op_applicable(apply_ops(old(self)@, full.take(i as int)), full[i as int]));
                    }
                    assert(!ops_applicable(old(self)@, full));
                }
                return Err(StoreError::ConstraintViolation);
            }
            i += 1;
        }
        proof {
            let full = ops.deep_view();
            assert(full.take(ops@.len() as int) =~= full);
            lemma_ops_applicable_rec(old(self)@, full);
        }
        let n = ops.len();
        *self = scratch;
        Ok(n)
    }

    /// Looks one player up by username.
    pub fn get_player(&self, username: &String) -> (r: Option<PlayerRow>)
        requires
            self.wf(),
        ensures
            (match r {
                Some(p) => self@.players.contains_key(username@) && self@.players[username@] == p@
                    && p.username@ == username@,
                None => !self@.players.contains_key(username@),
            }),
    {
        match Self::find_player_idx(&self.players, username) {
            Some(i) => {
                proof {
                    lemma_players_map_at(self.players@, i as int);
                }
                Some(self.players[i].clone())
            },
            None => {
                proof {
                    lemma_players_map_domain(self.players@, username@);
                }
                None
            },
        }
    }

    /// Looks one history capture up by player and day.
    pub fn get_history(&self, username: &String, day: u32) -> (r: Option<i32>)
        requires
            self.wf(),
        ensures
            (match r {
                Some(e) => self@.history.contains_key((username@, day)) && self@.history[(
                    username@,
                    day,
                )] == e,
                None => !self@.history.contains_key((username@, day)),
            }),
    {
        match Self::find_history_idx(&self.history, username, day) {
            Some(i) => {
                proof {
                    lemma_history_map_at(self.history@, i as int);
                }
                Some(self.history[i].experience)
            },
            None => {
                proof {
                    lemma_history_map_domain(self.history@, username@, day);
                }
                None
            },
        }
    }

    /// The names currently flagged online: what a tick reads back as its
    /// "previously online" set.
    pub fn online_players(&self) -> (r: Vec<String>)
        requires
            self.wf(),
        ensures
            forall|u: Seq<char>| #[trigger] r.deep_view().contains(u) == (self@.players.contains_key(
                u,
            ) && self@.players[u].online),
    {
        let mut out: Vec<String> = Vec::new();
        let mut i: usize = 0;
        while i < self.players.len()
            invariant
                i <= self.players@.len(),
                forall|u: Seq<char>| #[trigger] out.deep_view().contains(u) == (exists|j: int|
                    0 <= j < i && self.players@[j].username@ == u && self.players@[j].online),
            decreases self.players@.len() - i,
        {
            if self.players[i].online {
                let ghost prev = out.deep_view();
                out.push(self.players[i].username.clone());
                proof {
                    assert(out.deep_view().drop_last() =~= prev);
                    assert(out.deep_view().last() == self.players@[i as int].username@);
                    assert forall|u: Seq<char>| #[trigger] out.deep_view().contains(u) == (exists|
                        j: int,
                    |
                        0 <= j < i + 1 && self.players@[j].username@ == u
                            && self.players@[j].online) by {
                        if out.deep_view().contains(u) {
                            let k = choose|k: int|
                                0 <= k < out.deep_view().len() && out.deep_view()[k] == u;
                            if k < out.deep_view().len() - 1 {
                                assert(prev[k] == u);
                                assert(prev.contains(u));
                            } else {
                                assert(self.players@[i as int].username@ == u);
                            }
                        }
                        if exists|j: int|
                            0 <= j < i + 1 && self.players@[j].username@ == u
                                && self.players@[j].online {
                            let j = choose|j: int|
                                0 <= j < i + 1 && self.players@[j].username@ == u
                                    && self.players@[j].online;
                            if j < i {
                                assert(prev.contains(u));
                                let k = choose|k: int| 0 <= k < prev.len() && prev[k] == u;
                                assert(out.deep_view()[k] == u);
                                assert(out.deep_view().contains(u));
                            } else {
                                assert(out.deep_view()[out.deep_view().len() - 1] == u);
                                assert(out.deep_view().contains(u));
                            }
                        }
                    }
                }
            } else {
                proof {
                    assert forall|u: Seq<char>| #[trigger] out.deep_view().contains(u) == (exists|
                        j: int,
                    |
                        0 <= j < i + 1 && self.players@[j].username@ == u
                            && self.players@[j].online) by {
                        if exists|j: int|
                            0 <= j < i + 1 && self.players@[j].username@ == u
                                && self.players@[j].online {
                            let j = choose|j: int|
                                0 <= j < i + 1 && self.players@[j].username@ == u
                                    && self.players@[j].online;
                            assert(j < i);
                        }
                    }
                }
            }
            i += 1;
        }
        proof {
            assert forall|u: Seq<char>| #[trigger] out.deep_view().contains(u) == (self@.players.contains_key(
                u,
            ) && self@.players[u].online) by {
                lemma_players_map_domain(self.players@, u);
                if out.deep_view().contains(u) {
                    let j = choose|j: int|
                        0 <= j < self.players@.len() && self.players@[j].username@ == u
                            && self.players@[j].online;
                    lemma_players_map_at(self.players@, j);
                }
                if self@.players.contains_key(u) && self@.players[u].online {
                    let j = choose|j: int|
                        0 <= j < self.players@.len() && self.players@[j].username@ == u;
                    lemma_players_map_at(self.players@, j);
                }
            }
        }
        out
    }

    /// How many player rows the store holds.
    pub fn player_count(&self) -> (n: usize)
        requires
            self.wf(),
        ensures
            n == self@.players.dom().len(),
    {
        proof {
            lemma_players_map_len(self.players@);
        }
        self.players.len()
    }

    /// How many history rows the store holds.
    pub fn history_count(&self) -> (n: usize)
        requires
            self.wf(),
        ensures
            n == self@.history.dom().len(),
    {
        proof {
            lemma_history_map_len(self.history@);
        }
        self.history.len()
    }
}

proof fn lemma_players_map_len(rows: Seq<PlayerRow>)
    requires
        unique_players(rows),
    ensures
        players_map(rows).dom().finite(),
        players_map(rows).dom().len() == rows.len(),
    decreases rows.len(),
{
    if rows.len() == 0 {
    } else {
        let dl = rows.drop_last();
        assert(unique_players(dl));
        lemma_players_map_len(dl);
        lemma_players_map_domain(dl, rows.last().username@);
        assert(!players_map(dl).contains_key(rows.last().username@));
    }
}

proof fn lemma_history_map_len(rows: Seq<HistoryRow>)
    requires
        unique_history(rows),
    ensures
        history_map(rows).dom().finite(),
        history_map(rows).dom().len() == rows.len(),
    decreases rows.len(),
{
    if rows.len() == 0 {
    } else {
        let dl = rows.drop_last();
        assert(unique_history(dl));
        lemma_history_map_len(dl);
        lemma_history_map_domain(dl, rows.last().player@, rows.last().day);
        assert(!history_map(dl).contains_key((rows.last().player@, rows.last().day)));
    }
}

} // verus!
