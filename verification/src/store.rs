//! Reference model of the persistence collaborator consumed by the
//! authority: per-identity scores plus a denormalized scoreboard query.
//!
//! The production system keeps this state in an external SQL store; the
//! authority only ever needs the narrow interface modelled here (atomic
//! increment-and-read, score read with a default, scoreboard ordered by
//! score descending).  This in-memory store gives that interface exact
//! contracts, so the authority's transition can be verified end to end.

use vstd::prelude::*;
use vstd::seq_lib::to_multiset_insert;
use vstd::seq_lib::to_multiset_build;
use crate::message::ScoreboardEntry;
use crate::message::UserId;

verus! {

/// One persisted row: an identity, its display name (may be missing), and
/// its score.
pub struct StoreRow {
    pub user_id: UserId,
    pub username: Option<String>,
    pub score: i32,
}

/// Ghost image of a scoreboard row: plain mathematical values only.
pub ghost struct EntryModel {
    pub username: Option<Seq<char>>,
    pub score: Option<int>,
}

impl View for ScoreboardEntry {
    type V = EntryModel;

    open spec fn view(&self) -> EntryModel {
        EntryModel {
            username: match self.username {
                Some(s) => Some(s@),
                None => None,
            },
            score: match self.score {
                Some(x) => Some(x as int),
                None => None,
            },
        }
    }
}

/// The ghost image of the scoreboard row a store row denormalizes to.
pub open spec fn row_entry(row: StoreRow) -> EntryModel {
    EntryModel {
        username: match row.username {
            Some(s) => Some(s@),
            None => None,
        },
        score: Some(row.score as int),
    }
}

/// Ghost images of a sequence of scoreboard rows.
pub open spec fn models(s: Seq<ScoreboardEntry>) -> Seq<EntryModel> {
    s.map_values(|e: ScoreboardEntry| e@)
}

/// Sort key of a scoreboard row; a missing score sorts below every present
/// one.
pub open spec fn entry_val(e: EntryModel) -> int {
    match e.score {
        Some(s) => s,
        None => i32::MIN - 1,
    }
}

/// Scoreboard order: scores non-increasing from front to back.
pub open spec fn sorted_desc(b: Seq<EntryModel>) -> bool {
    forall|i: int, j: int| 0 <= i < j < b.len() ==> entry_val(b[i]) >= entry_val(b[j])
}

/// Insertion of one row into a scoreboard: the new row goes behind every
/// existing row whose score is at least as high, so rows with equal scores
/// keep their first-come order.
pub open spec fn insert_desc(b: Seq<EntryModel>, e: EntryModel) -> Seq<EntryModel>
    decreases b.len(),
{
    if b.len() == 0 {
        seq![e]
    } else if entry_val(b[0]) >= entry_val(e) {
        seq![b[0]] + insert_desc(b.drop_first(), e)
    } else {
        seq![e] + b
    }
}

/// Position `insert_desc` puts the new row at: the first index whose score
/// is strictly below the new row's.
spec fn ins_pos(b: Seq<EntryModel>, e: EntryModel) -> int
    decreases b.len(),
{
    if b.len() == 0 {
        0
    } else if entry_val(b[0]) >= entry_val(e) {
        1 + ins_pos(b.drop_first(), e)
    } else {
        0
    }
}

/// `insert_desc` is an insertion at `ins_pos`: everything with a score at
/// least the new row's stands before it, everything below stands after.
proof fn lemma_insert_desc_at(b: Seq<EntryModel>, e: EntryModel)
    ensures
        0 <= ins_pos(b, e) <= b.len(),
        forall|k: int| 0 <= k < ins_pos(b, e) ==> entry_val(b[k]) >= entry_val(e),
        ins_pos(b, e) < b.len() ==> entry_val(b[ins_pos(b, e)]) < entry_val(e),
        insert_desc(b, e) =~= b.insert(ins_pos(b, e), e),
    decreases b.len(),
{
    if b.len() == 0 {
    } else if entry_val(b[0]) >= entry_val(e) {
        lemma_insert_desc_at(b.drop_first(), e);
        let p = ins_pos(b, e);
        assert forall|k: int| 0 <= k < p implies entry_val(b[k]) >= entry_val(e) by {
            if k > 0 {
                assert(b.drop_first()[k - 1] == b[k]);
            }
        }
        if p < b.len() {
            assert(b.drop_first()[p - 1] == b[p]);
        }
        assert(insert_desc(b, e) =~= b.insert(p, e));
    } else {
        assert(insert_desc(b, e) =~= b.insert(0, e));
    }
}

/// Inserting into a sorted scoreboard keeps it sorted.
proof fn lemma_insert_desc_sorted(b: Seq<EntryModel>, e: EntryModel)
    requires
        sorted_desc(b),
    ensures
        sorted_desc(insert_desc(b, e)),
{
    lemma_insert_desc_at(b, e);
    let p = ins_pos(b, e);
    let r = b.insert(p, e);
    assert forall|i: int, j: int| 0 <= i < j < r.len() implies entry_val(r[i]) >= entry_val(
        r[j],
    ) by {
        if i < p && j == p {
            assert(entry_val(b[i]) >= entry_val(e));
        } else if i == p && j > p {
            assert(entry_val(r[j]) == entry_val(b[j - 1]));
            if p < b.len() {
                assert(entry_val(b[p]) < entry_val(e));
                assert(entry_val(b[j - 1]) <= entry_val(b[p]));
            }
        } else if i < p && j > p {
            assert(entry_val(b[i]) >= entry_val(b[j - 1]));
        } else if i > p {
            assert(entry_val(b[i - 1]) >= entry_val(b[j - 1]));
        }
    }
}

/// Inserting adds exactly the one row: no duplication, no loss.
proof fn lemma_insert_desc_multiset(b: Seq<EntryModel>, e: EntryModel)
    ensures
        insert_desc(b, e).to_multiset() == b.to_multiset().insert(e),
{
    lemma_insert_desc_at(b, e);
    to_multiset_insert(b, ins_pos(b, e), e);
}

/// The scoreboard a sequence of store rows denormalizes to: each row in
/// turn is placed behind the rows already holding at least its score.
pub open spec fn scoreboard_of(rows: Seq<StoreRow>) -> Seq<EntryModel>
    decreases rows.len(),
{
    if rows.len() == 0 {
        Seq::<EntryModel>::empty()
    } else {
        insert_desc(scoreboard_of(rows.drop_last()), row_entry(rows.last()))
    }
}

/// The scoreboard is ordered by score descending.
pub proof fn lemma_scoreboard_sorted(rows: Seq<StoreRow>)
    ensures
        sorted_desc(scoreboard_of(rows)),
    decreases rows.len(),
{
    if rows.len() > 0 {
        lemma_scoreboard_sorted(rows.drop_last());
        lemma_insert_desc_sorted(scoreboard_of(rows.drop_last()), row_entry(rows.last()));
    }
}

/// The ghost images of every store row, in row order.
pub open spec fn row_entries(rows: Seq<StoreRow>) -> Seq<EntryModel> {
    rows.map_values(|r: StoreRow| row_entry(r))
}

/// The scoreboard holds exactly one row per store row.
pub proof fn lemma_scoreboard_complete(rows: Seq<StoreRow>)
    ensures
        scoreboard_of(rows).to_multiset() == row_entries(rows).to_multiset(),
    decreases rows.len(),
{
    if rows.len() > 0 {
        let e = row_entry(rows.last());
        let m = row_entries(rows);
        lemma_scoreboard_complete(rows.drop_last());
        lemma_insert_desc_multiset(scoreboard_of(rows.drop_last()), e);
        assert(row_entries(rows.drop_last()) =~= m.drop_last());
        assert(m =~= m.drop_last().push(e));
        to_multiset_build(m.drop_last(), e);
        assert(scoreboard_of(rows).to_multiset() == scoreboard_of(
            rows.drop_last(),
        ).to_multiset().insert(e));
        assert(m.to_multiset() == m.drop_last().to_multiset().insert(e));
    } else {
        assert(row_entries(rows) =~= scoreboard_of(rows));
    }
}

/// First row with the given identity, if any.
pub open spec fn lookup(rows: Seq<StoreRow>, u: UserId) -> Option<StoreRow>
    decreases rows.len(),
{
    if rows.len() == 0 {
        None
    } else if rows[0].user_id == u {
        Some(rows[0])
    } else {
        lookup(rows.drop_first(), u)
    }
}

/// Persisted score of an identity; identities without a row read as the
/// store default of zero.
pub open spec fn spec_score(rows: Seq<StoreRow>, u: UserId) -> int {
    match lookup(rows, u) {
        Some(row) => row.score as int,
        None => 0,
    }
}

proof fn lemma_lookup_index(rows: Seq<StoreRow>, u: UserId, i: int)
    requires
        0 <= i < rows.len(),
        rows[i].user_id == u,
        forall|k: int| 0 <= k < i ==> rows[k].user_id != u,
    ensures
        lookup(rows, u) == Some(rows[i]),
    decreases i,
{
    if i > 0 {
        lemma_lookup_index(rows.drop_first(), u, i - 1);
    }
}

proof fn lemma_lookup_absent(rows: Seq<StoreRow>, u: UserId)
    requires
        forall|k: int| 0 <= k < rows.len() ==> rows[k].user_id != u,
    ensures
        lookup(rows, u) is None,
    decreases rows.len(),
{
    if rows.len() > 0 {
        lemma_lookup_absent(rows.drop_first(), u);
    }
}

proof fn lemma_lookup_update(rows: Seq<StoreRow>, i: int, row: StoreRow, v: UserId)
    requires
        0 <= i < rows.len(),
        rows[i].user_id == row.user_id,
        forall|k: int| 0 <= k < i ==> rows[k].user_id != row.user_id,
    ensures
        lookup(rows.update(i, row), v) == if v == row.user_id {
            Some(row)
        } else {
            lookup(rows, v)
        },
    decreases i,
{
    let r2 = rows.update(i, row);
    if i == 0 {
        if v != row.user_id {
            assert(r2.drop_first() =~= rows.drop_first());
        }
    } else {
        lemma_lookup_update(rows.drop_first(), i - 1, row, v);
        assert(r2.drop_first() =~= rows.drop_first().update(i - 1, row));
    }
}

proof fn lemma_lookup_none_iff(rows: Seq<StoreRow>, u: UserId)
    ensures
        (lookup(rows, u) is None) <==> (forall|k: int|
            0 <= k < rows.len() ==> rows[k].user_id != u),
    decreases rows.len(),
{
    if rows.len() > 0 {
        lemma_lookup_none_iff(rows.drop_first(), u);
        if lookup(rows, u) is None {
            assert forall|k: int| 0 <= k < rows.len() implies rows[k].user_id != u by {
                if k > 0 {
                    assert(rows.drop_first()[k - 1] == rows[k]);
                }
            }
        } else {
            if rows[0].user_id != u {
                let k = choose|k: int|
                    0 <= k < rows.drop_first().len() && rows.drop_first()[k].user_id == u;
                assert(rows[k + 1].user_id == u);
            }
        }
    }
}

proof fn lemma_lookup_push(rows: Seq<StoreRow>, row: StoreRow, v: UserId)
    ensures
        lookup(rows.push(row), v) == if lookup(rows, v) is Some {
            lookup(rows, v)
        } else if v == row.user_id {
            Some(row)
        } else {
            None::<StoreRow>
        },
    decreases rows.len(),
{
    if rows.len() > 0 {
        lemma_lookup_push(rows.drop_first(), row, v);
        assert(rows.push(row).drop_first() =~= rows.drop_first().push(row));
    } else {
        assert(rows.push(row)[0] == row);
        if v != row.user_id {
            lemma_lookup_absent(rows.push(row), v);
        }
    }
}

fn clone_opt_string(s: &Option<String>) -> (r: Option<String>)
    ensures
        r == s,
{
    match s {
        Some(x) => Some(x.clone()),
        None => None,
    }
}

/// The authority's shared state: one row per identity.
pub struct Store {
    rows: Vec<StoreRow>,
}

impl View for Store {
    type V = Seq<StoreRow>;

    closed spec fn view(&self) -> Seq<StoreRow> {
        self.rows@
    }
}

impl Store {
    /// Well-formedness: at most one row per identity.
    pub open spec fn wf(&self) -> bool {
        forall|i: int, j: int|
            0 <= i < j < self@.len() ==> self@[i].user_id != self@[j].user_id
    }

    /// An empty store.
    pub fn new() -> (s: Self)
        ensures
            s.wf(),
            s@ == Seq::<StoreRow>::empty(),
    {
        let s = Self { rows: Vec::new() };
        proof {
            assert(s@ =~= Seq::<StoreRow>::empty());
        }
        s
    }

    fn find(&self, user_id: UserId) -> (r: Option<usize>)
        ensures
            match r {
                Some(i) => {
                    &&& i < self@.len()
                    &&& self@[i as int].user_id == user_id
                    &&& forall|k: int| 0 <= k < i ==> self@[k].user_id != user_id
                    &&& lookup(self@, user_id) == Some(self@[i as int])
                },
                None => {
                    &&& forall|k: int| 0 <= k < self@.len() ==> self@[k].user_id != user_id
                    &&& lookup(self@, user_id) is None
                },
            },
    {
        let mut i: usize = 0;
        while i < self.rows.len()
            invariant
                i <= self@.len(),
                forall|k: int| 0 <= k < i ==> self@[k].user_id != user_id,
            decreases self@.len() - i,
        {
            if self.rows[i].user_id == user_id {
                proof {
                    lemma_lookup_index(self@, user_id, i as int);
                }
                return Some(i);
            }
            i += 1;
        }
        proof {
            lemma_lookup_absent(self@, user_id);
        }
        None
    }

    /// Creates the persisted row for a fresh identity with the store's
    /// default score of zero, as account creation does.
    pub fn register(&mut self, user_id: UserId, username: Option<String>)
        requires
            old(self).wf(),
            lookup(old(self)@, user_id) is None,
        ensures
            final(self).wf(),
            final(self)@ == old(self)@.push(
                StoreRow { user_id, username, score: 0 },
            ),
            spec_score(final(self)@, user_id) == 0,
            forall|v: UserId| v != user_id ==> lookup(final(self)@, v) == lookup(old(self)@, v),
    {
        let row = StoreRow { user_id, username, score: 0 };
        proof {
            lemma_lookup_none_iff(old(self)@, user_id);
            assert forall|v: UserId| v != user_id implies lookup(
                old(self)@.push(row),
                v,
            ) == lookup(old(self)@, v) by {
                lemma_lookup_push(old(self)@, row, v);
            }
            lemma_lookup_push(old(self)@, row, user_id);
        }
        self.rows.push(row);
    }

    /// Reads an identity's score without mutating anything; an identity
    /// with no persisted row reads the store default of zero.
    pub fn get_score(&self, user_id: UserId) -> (score: i32)
        ensures
            score as int == spec_score(self@, user_id),
    {
        match self.find(user_id) {
            Some(i) => self.rows[i].score,
            None => 0,
        }
    }

    /// Atomically adds one point to an identity's score and reads the new
    /// value back; an identity with no persisted row starts from the store
    /// default of zero.  No other row changes.
    pub fn increment_and_get_score(&mut self, user_id: UserId) -> (score: i32)
        requires
            old(self).wf(),
            spec_score(old(self)@, user_id) < i32::MAX,
            old(self)@.len() < usize::MAX,
        ensures
            final(self).wf(),
            final(self)@.len() <= old(self)@.len() + 1,
            score as int == spec_score(old(self)@, user_id) + 1,
            spec_score(final(self)@, user_id) == spec_score(old(self)@, user_id) + 1,
            forall|v: UserId| v != user_id ==> lookup(final(self)@, v) == lookup(old(self)@, v),
            match lookup(final(self)@, user_id) {
                Some(row) => row.username == match lookup(old(self)@, user_id) {
                    Some(prev) => prev.username,
                    None => None::<String>,
                },
                None => false,
            },
    {
        match self.find(user_id) {
            Some(i) => {
                let new_score = self.rows[i].score + 1;
                let row = StoreRow {
                    user_id,
                    username: clone_opt_string(&self.rows[i].username),
                    score: new_score,
                };
                proof {
                    assert forall|v: UserId| true implies lookup(
                        old(self)@.update(i as int, row),
                        v,
                    ) == if v == user_id {
                        Some(row)
                    } else {
                        lookup(old(self)@, v)
                    } by {
                        lemma_lookup_update(old(self)@, i as int, row, v);
                    }
                }
                self.rows[i] = row;
                new_score
            },
            None => {
                let row = StoreRow { user_id, username: None, score: 1 };
                proof {
                    assert forall|v: UserId| true implies lookup(
                        old(self)@.push(row),
                        v,
                    ) == if v == user_id {
                        Some(row)
                    } else {
                        lookup(old(self)@, v)
                    } by {
                        lemma_lookup_push(old(self)@, row, v);
                    }
                }
                self.rows.push(row);
                1
            },
        }
    }

    /// The full leaderboard: one entry per persisted row, ordered by score
    /// descending, rows with equal scores in their persisted order.
    pub fn get_scoreboard(&self) -> (board: Vec<ScoreboardEntry>)
        ensures
            models(board@) == scoreboard_of(self@),
    {
        let mut board: Vec<ScoreboardEntry> = Vec::new();
        let mut i: usize = 0;
        proof {
            assert(models(board@) =~= scoreboard_of(self@.take(0)));
        }
        while i < self.rows.len()
            invariant
                i <= self@.len(),
                models(board@) == scoreboard_of(self@.take(i as int)),
            decreases self@.len() - i,
        {
            let entry = ScoreboardEntry {
                username: clone_opt_string(&self.rows[i].username),
                score: Some(self.rows[i].score),
            };
            proof {
                assert(entry@ == row_entry(self@[i as int]));
            }
            let ghost b0 = models(board@);
            let mut idx: usize = 0;
            while idx < board.len() && !entry_val_lt(&board[idx], &entry)
                invariant
                    idx <= board.len(),
                    b0 == models(board@),
                    forall|k: int| 0 <= k < idx ==> entry_val(b0[k]) >= entry_val(entry@),
                decreases board@.len() - idx,
            {
                idx += 1;
            }
            proof {
                lemma_insert_desc_at(b0, entry@);
                let p = ins_pos(b0, entry@);
                if p < idx {
                    assert(entry_val(b0[p]) >= entry_val(entry@));
                    assert(false);
                }
                if idx < p {
                    assert(entry_val(b0[idx as int]) < entry_val(entry@));
                    assert(false);
                }
            }
            board.insert(idx, entry);
            proof {
                assert(models(board@) =~= insert_desc(b0, entry@));
                assert(self@.take(i + 1).drop_last() =~= self@.take(i as int));
                assert(self@.take(i + 1).last() == self@[i as int]);
            }
            i += 1;
        }
        proof {
            assert(self@.take(self@.len() as int) =~= self@);
        }
        board
    }
}

fn entry_val_lt(a: &ScoreboardEntry, b: &ScoreboardEntry) -> (r: bool)
    ensures
        r == (entry_val(a@) < entry_val(b@)),
{
    match (a.score, b.score) {
        (Some(x), Some(y)) => x < y,
        (None, Some(_)) => true,
        (None, None) => false,
        (Some(_), None) => false,
    }
}

} // verus!
