//! The per-user todo store: rows keyed by id, last-writer-wins merging of
//! rows from other replicas, tombstones, and the node's clock.

use vstd::prelude::*;
use vstd::utf8::encode_utf8;
use crate::models::{Todo, TodoRecord, records};
use crate::text::{
    bytes_lt, lex_lt, lemma_lex_lt_asymmetric, lemma_lex_lt_irreflexive, lemma_lex_lt_total,
    lemma_lex_lt_transitive,
};

verus! {

/// The order of versions that decides which of two writes wins: the pair
/// `(updated_at, node_id)`, the time first, then the node id byte-wise.
pub open spec fn version_lt(a: TodoRecord, b: TodoRecord) -> bool {
    a.updated_at < b.updated_at || (a.updated_at == b.updated_at && lex_lt(
        encode_utf8(a.node_id),
        encode_utf8(b.node_id),
    ))
}

/// Two rows written at the same time by the same node.
pub open spec fn same_version(a: TodoRecord, b: TodoRecord) -> bool {
    a.updated_at == b.updated_at && a.node_id == b.node_id
}

pub proof fn lemma_version_lt_irreflexive(a: TodoRecord)
    ensures
        !version_lt(a, a),
{
    lemma_lex_lt_irreflexive(encode_utf8(a.node_id));
}

pub proof fn lemma_version_lt_asymmetric(a: TodoRecord, b: TodoRecord)
    ensures
        version_lt(a, b) ==> !version_lt(b, a),
{
    lemma_lex_lt_asymmetric(encode_utf8(a.node_id), encode_utf8(b.node_id));
}

pub proof fn lemma_version_lt_transitive(a: TodoRecord, b: TodoRecord, c: TodoRecord)
    requires
        version_lt(a, b),
        version_lt(b, c),
    ensures
        version_lt(a, c),
{
    if a.updated_at == b.updated_at && b.updated_at == c.updated_at {
        lemma_lex_lt_transitive(encode_utf8(a.node_id), encode_utf8(b.node_id), encode_utf8(c.node_id));
    }
}

pub proof fn lemma_version_lt_total(a: TodoRecord, b: TodoRecord)
    requires
        !same_version(a, b),
    ensures
        version_lt(a, b) || version_lt(b, a),
{
    if a.updated_at == b.updated_at {
        vstd::utf8::encode_utf8_decode_utf8(a.node_id);
        vstd::utf8::encode_utf8_decode_utf8(b.node_id);
        lemma_lex_lt_total(encode_utf8(a.node_id), encode_utf8(b.node_id));
    }
}

/// Whether an incoming row replaces the stored row with its id: its version
/// is greater.
pub open spec fn supersedes(incoming: TodoRecord, existing: TodoRecord) -> bool {
    version_lt(existing, incoming)
}

/// Whether merging a row changes the store: its id is new, or it supersedes.
pub open spec fn accepts(m: Map<Seq<char>, TodoRecord>, t: TodoRecord) -> bool {
    !m.contains_key(t.id) || supersedes(t, m[t.id])
}

/// The store after merging one row.
pub open spec fn merge_row(m: Map<Seq<char>, TodoRecord>, t: TodoRecord) -> Map<
    Seq<char>,
    TodoRecord,
> {
    if accepts(m, t) {
        m.insert(t.id, t)
    } else {
        m
    }
}

/// The store after merging rows one after the other.
pub open spec fn merge_rows(m: Map<Seq<char>, TodoRecord>, ts: Seq<TodoRecord>) -> Map<
    Seq<char>,
    TodoRecord,
>
    decreases ts.len(),
{
    if ts.len() == 0 {
        m
    } else {
        merge_row(merge_rows(m, ts.drop_last()), ts.last())
    }
}

/// How many of the rows change the store as they are merged in turn.
pub open spec fn accepted_count(m: Map<Seq<char>, TodoRecord>, ts: Seq<TodoRecord>) -> nat
    decreases ts.len(),
{
    if ts.len() == 0 {
        0
    } else {
        accepted_count(m, ts.drop_last()) + if accepts(merge_rows(m, ts.drop_last()), ts.last()) {
            1nat
        } else {
            0nat
        }
    }
}

/// No two rows share an id.
pub open spec fn distinct_ids(rows: Seq<TodoRecord>) -> bool {
    forall|i: int, j: int|
        0 <= i < rows.len() && 0 <= j < rows.len() && i != j ==> #[trigger] rows[i].id
            != #[trigger] rows[j].id
}

/// The rows as a map from id to row.
pub open spec fn rows_map(rows: Seq<TodoRecord>) -> Map<Seq<char>, TodoRecord>
    decreases rows.len(),
{
    if rows.len() == 0 {
        Map::empty()
    } else {
        rows_map(rows.drop_last()).insert(rows.last().id, rows.last())
    }
}

pub proof fn lemma_rows_map(rows: Seq<TodoRecord>)
    requires
        distinct_ids(rows),
    ensures
        forall|k: Seq<char>|
            #[trigger] rows_map(rows).contains_key(k) <==> exists|i: int|
                0 <= i < rows.len() && #[trigger] rows[i].id == k,
        forall|i: int|
            0 <= i < rows.len() ==> #[trigger] rows_map(rows).contains_key(rows[i].id)
                && rows_map(rows)[rows[i].id] == rows[i],
    decreases rows.len(),
{
    if rows.len() > 0 {
        let init = rows.drop_last();
        assert(distinct_ids(init)) by {
            assert forall|i: int, j: int|
                0 <= i < init.len() && 0 <= j < init.len() && i != j implies #[trigger] init[i].id
                != #[trigger] init[j].id by {
                assert(init[i] == rows[i] && init[j] == rows[j]);
            }
        }
        lemma_rows_map(init);
        let n = rows.len() - 1;
        assert(rows_map(rows) == rows_map(init).insert(rows[n].id, rows[n]));
        assert forall|k: Seq<char>|
            #[trigger] rows_map(rows).contains_key(k) implies exists|i: int|
                0 <= i < rows.len() && #[trigger] rows[i].id == k by {
            if k == rows[n].id {
                assert(rows[n].id == k);
            } else {
                assert(rows_map(rows) == rows_map(init).insert(rows.last().id, rows.last()));
                assert(rows_map(init).contains_key(k));
                let i = choose|i: int| 0 <= i < init.len() && #[trigger] init[i].id == k;
                assert(rows[i] == init[i]);
            }
        }
        assert forall|k: Seq<char>|
            (exists|i: int| 0 <= i < rows.len() && #[trigger] rows[i].id == k) implies #[trigger] rows_map(
            rows,
        ).contains_key(k) by {
            let i = choose|i: int| 0 <= i < rows.len() && #[trigger] rows[i].id == k;
            if i < n {
                assert(init[i] == rows[i]);
            }
        }
        assert forall|i: int| 0 <= i < rows.len() implies #[trigger] rows_map(rows).contains_key(
            rows[i].id,
        ) && rows_map(rows)[rows[i].id] == rows[i] by {
            if i < n {
                assert(init[i] == rows[i]);
                assert(rows[i].id != rows[n].id);
            }
        }
    }
}

/// A store of rows with distinct ids has one key per row.
pub proof fn lemma_rows_map_len(rows: Seq<TodoRecord>)
    requires
        distinct_ids(rows),
    ensures
        rows_map(rows).dom().finite(),
        rows_map(rows).dom().len() == rows.len(),
    decreases rows.len(),
{
    if rows.len() > 0 {
        let init = rows.drop_last();
        assert(distinct_ids(init)) by {
            assert forall|i: int, j: int|
                0 <= i < init.len() && 0 <= j < init.len() && i != j implies #[trigger] init[i].id
                != #[trigger] init[j].id by {
                assert(init[i] == rows[i] && init[j] == rows[j]);
            }
        }
        lemma_rows_map_len(init);
        lemma_rows_map(init);
        let last = rows.last();
        if rows_map(init).contains_key(last.id) {
            let i = choose|i: int| 0 <= i < init.len() && #[trigger] init[i].id == last.id;
            assert(rows[i].id == rows[rows.len() - 1].id);
        }
        assert(rows_map(rows).dom() =~= rows_map(init).dom().insert(last.id));
    }
}

pub proof fn lemma_rows_map_update(rows: Seq<TodoRecord>, i: int, t: TodoRecord)
    requires
        distinct_ids(rows),
        0 <= i < rows.len(),
        rows[i].id == t.id,
    ensures
        distinct_ids(rows.update(i, t)),
        rows_map(rows.update(i, t)) == rows_map(rows).insert(t.id, t),
{
    let r2 = rows.update(i, t);
    assert(distinct_ids(r2)) by {
        assert forall|a: int, b: int|
            0 <= a < r2.len() && 0 <= b < r2.len() && a != b implies #[trigger] r2[a].id
            != #[trigger] r2[b].id by {
            assert(r2[a].id == rows[a].id && r2[b].id == rows[b].id);
        }
    }
    lemma_rows_map(rows);
    lemma_rows_map(r2);
    let m1 = rows_map(r2);
    let m2 = rows_map(rows).insert(t.id, t);
    assert forall|k: Seq<char>| m1.contains_key(k) <==> m2.contains_key(k) by {
        if m1.contains_key(k) {
            let j = choose|j: int| 0 <= j < r2.len() && #[trigger] r2[j].id == k;
            assert(rows[j].id == k);
        }
        if m2.contains_key(k) && k != t.id {
            let j = choose|j: int| 0 <= j < rows.len() && #[trigger] rows[j].id == k;
            assert(r2[j].id == k);
        }
        if k == t.id {
            assert(r2[i].id == k);
        }
    }
    assert forall|k: Seq<char>| m1.contains_key(k) implies m1[k] == m2[k] by {
        let j = choose|j: int| 0 <= j < r2.len() && #[trigger] r2[j].id == k;
        assert(m1[r2[j].id] == r2[j]);
        if j != i {
            assert(r2[j] == rows[j]);
            assert(rows_map(rows)[rows[j].id] == rows[j]);
        }
    }
    assert(m1 =~= m2);
}

pub proof fn lemma_rows_map_push(rows: Seq<TodoRecord>, t: TodoRecord)
    requires
        distinct_ids(rows),
        !rows_map(rows).contains_key(t.id),
    ensures
        distinct_ids(rows.push(t)),
        rows_map(rows.push(t)) == rows_map(rows).insert(t.id, t),
{
    lemma_rows_map(rows);
    let r2 = rows.push(t);
    assert(r2.drop_last() =~= rows);
    assert forall|a: int, b: int|
        0 <= a < r2.len() && 0 <= b < r2.len() && a != b implies #[trigger] r2[a].id
        != #[trigger] r2[b].id by {
        if a < rows.len() && b < rows.len() {
            assert(r2[a] == rows[a] && r2[b] == rows[b]);
        } else if a < rows.len() {
            assert(r2[a] == rows[a]);
            assert(rows_map(rows).contains_key(rows[a].id));
        } else if b < rows.len() {
            assert(r2[b] == rows[b]);
            assert(rows_map(rows).contains_key(rows[b].id));
        }
    }
}

/// The rows of one user's todo list, no two with the same id.
pub struct TodoStore {
    rows: Vec<Todo>,
}

impl TodoStore {
    #[verifier::type_invariant]
    spec fn ids_distinct(self) -> bool {
        distinct_ids(records(self.rows@))
    }

    /// The stored rows, in storage order.
    pub closed spec fn entries(self) -> Seq<TodoRecord> {
        records(self.rows@)
    }
}

impl View for TodoStore {
    type V = Map<Seq<char>, TodoRecord>;

    open spec fn view(&self) -> Map<Seq<char>, TodoRecord> {
        rows_map(self.entries())
    }
}

impl TodoStore {
    /// An empty store.
    pub fn new() -> (res: TodoStore)
        ensures
            res@ == Map::<Seq<char>, TodoRecord>::empty(),
            res.entries().len() == 0,
    {
        let res = TodoStore { rows: Vec::new() };
        assert(res.entries() =~= Seq::<TodoRecord>::empty());
        res
    }

    /// The position of the row with this id.
    fn position(&self, id: &String) -> (r: Option<usize>)
        ensures
            match r {
                Some(i) => i < self.entries().len() && self.entries()[i as int].id == id@,
                None => !self@.contains_key(id@),
            },
    {
        proof {
            use_type_invariant(self);
            lemma_rows_map(self.entries());
        }
        let mut i: usize = 0;
        while i < self.rows.len()
            invariant
                i <= self.rows@.len(),
                forall|j: int| 0 <= j < i ==> #[trigger] self.entries()[j].id != id@,
            decreases self.rows@.len() - i,
        {
            if self.rows[i].id == *id {
                return Some(i);
            }
            i = i + 1;
        }
        None
    }

    /// Merges one row: stores it when its id is new or when its version is
    /// greater than that of the stored row; tells whether it was stored.
    pub fn merge_one(&mut self, t: Todo) -> (accepted: bool)
        ensures
            final(self)@ == merge_row(old(self)@, t@),
            accepted == accepts(old(self)@, t@),
    {
        proof {
            use_type_invariant(&*self);
            lemma_rows_map(self.entries());
        }
        match self.position(&t.id) {
            Some(i) => {
                assert(self.entries()[i as int] == self.rows@[i as int]@);
                assert(self@.contains_key(self.entries()[i as int].id));
                assert(old(self)@[t@.id] == self.rows@[i as int]@);
                let newer = {
                    let stored = &self.rows[i];
                    t.updated_at > stored.updated_at || (t.updated_at == stored.updated_at
                        && bytes_lt(stored.node_id.as_str().as_bytes(), t.node_id.as_str().as_bytes()))
                };
                if newer {
                    proof {
                        lemma_rows_map_update(self.entries(), i as int, t@);
                        assert(records(self.rows@.update(i as int, t)) =~= self.entries().update(
                            i as int,
                            t@,
                        ));
                    }
                    let mut rows: Vec<Todo> = Vec::new();
                    std::mem::swap(&mut rows, &mut self.rows);
                    rows.set(i, t);
                    self.rows = rows;
                    true
                } else {
                    false
                }
            },
            None => {
                proof {
                    lemma_rows_map_push(self.entries(), t@);
                    assert(records(self.rows@.push(t)) =~= self.entries().push(t@));
                }
                let mut rows: Vec<Todo> = Vec::new();
                std::mem::swap(&mut rows, &mut self.rows);
                rows.push(t);
                self.rows = rows;
                true
            },
        }
    }
}

impl TodoStore {
    /// The rows as a store, when no two share an id (as in a table whose
    /// primary key is the id).
    pub fn from_rows(rows: Vec<Todo>) -> (res: Option<TodoStore>)
        ensures
            res is Some <==> distinct_ids(records(rows@)),
            res matches Some(s) ==> s.entries() == records(rows@) && s@ == rows_map(records(rows@)),
    {
        let n = rows.len();
        let mut i: usize = 0;
        while i < n
            invariant
                n == rows@.len(),
                i <= n,
                forall|a: int, b: int|
                    0 <= a < i && 0 <= b < n && a != b ==> #[trigger] rows@[a].id@ != #[trigger] rows@[b].id@,
            decreases n - i,
        {
            let mut j: usize = 0;
            while j < n
                invariant
                    n == rows@.len(),
                    i < n,
                    j <= n,
                    forall|a: int, b: int|
                        0 <= a < i && 0 <= b < n && a != b ==> #[trigger] rows@[a].id@ != #[trigger] rows@[b].id@,
                    forall|b: int| 0 <= b < j && b != i ==> rows@[i as int].id@ != #[trigger] rows@[b].id@,
                decreases n - j,
            {
                if j != i && rows[i].id == rows[j].id {
                    proof {
                        let r = records(rows@);
                        assert(r[i as int].id == r[j as int].id);
                    }
                    return None;
                }
                j = j + 1;
            }
            i = i + 1;
        }
        proof {
            let r = records(rows@);
            assert forall|a: int, b: int|
                0 <= a < r.len() && 0 <= b < r.len() && a != b implies #[trigger] r[a].id != #[trigger] r[b].id by {
                assert(rows@[a].id@ != rows@[b].id@);
            }
        }
        Some(TodoStore { rows })
    }

    /// Stores a row under an id that is not yet taken; refuses a taken id
    /// and leaves the store unchanged.
    pub fn insert_new(&mut self, t: Todo) -> (inserted: bool)
        ensures
            inserted == !old(self)@.contains_key(t@.id),
            final(self)@ == if inserted {
                old(self)@.insert(t@.id, t@)
            } else {
                old(self)@
            },
    {
        proof {
            use_type_invariant(&*self);
        }
        match self.position(&t.id) {
            Some(i) => {
                proof {
                    lemma_rows_map(self.entries());
                    assert(self.entries()[i as int].id == t@.id);
                    assert(self@.contains_key(self.entries()[i as int].id));
                }
                false
            },
            None => {
                proof {
                    lemma_rows_map_push(self.entries(), t@);
                    assert(records(self.rows@.push(t)) =~= self.entries().push(t@));
                }
                let mut rows: Vec<Todo> = Vec::new();
                std::mem::swap(&mut rows, &mut self.rows);
                rows.push(t);
                self.rows = rows;
                true
            },
        }
    }

    /// Replaces the row at a position with a row of the same id.
    fn replace_at(&mut self, i: usize, t: Todo)
        requires
            i < old(self).entries().len(),
            old(self).entries()[i as int].id == t@.id,
        ensures
            final(self)@ == old(self)@.insert(t@.id, t@),
            final(self).entries() == old(self).entries().update(i as int, t@),
    {
        proof {
            use_type_invariant(&*self);
            lemma_rows_map_update(self.entries(), i as int, t@);
            assert(records(self.rows@.update(i as int, t)) =~= self.entries().update(i as int, t@));
        }
        let mut rows: Vec<Todo> = Vec::new();
        std::mem::swap(&mut rows, &mut self.rows);
        rows.set(i, t);
        self.rows = rows;
    }

    /// Marks the row with this id done or not done, stamped with the time
    /// and the node; an unknown id changes nothing.
    pub fn set_completed(&mut self, id: &String, completed: bool, now: i64, node_id: &String)
        ensures
            final(self)@ == after_completion(old(self)@, id@, completed, now as int, node_id@),
    {
        proof {
            use_type_invariant(&*self);
            lemma_rows_map(self.entries());
        }
        if let Some(i) = self.position(id) {
            proof {
                assert(self@.contains_key(self.entries()[i as int].id));
            }
            let row = &self.rows[i];
            let t = Todo {
                id: row.id.clone(),
                title: row.title.clone(),
                completed,
                deleted: row.deleted,
                updated_at: now,
                node_id: node_id.clone(),
            };
            self.replace_at(i, t);
        }
    }

    /// Marks the row with this id deleted (a tombstone that replicates),
    /// stamped with the time and the node; an unknown id changes nothing.
    pub fn tombstone(&mut self, id: &String, now: i64, node_id: &String)
        ensures
            final(self)@ == after_tombstone(old(self)@, id@, now as int, node_id@),
    {
        proof {
            use_type_invariant(&*self);
            lemma_rows_map(self.entries());
        }
        if let Some(i) = self.position(id) {
            proof {
                assert(self@.contains_key(self.entries()[i as int].id));
            }
            let row = &self.rows[i];
            let t = Todo {
                id: row.id.clone(),
                title: row.title.clone(),
                completed: row.completed,
                deleted: true,
                updated_at: now,
                node_id: node_id.clone(),
            };
            self.replace_at(i, t);
        }
    }

    /// Marks every row deleted, stamped with the time and the node.
    pub fn tombstone_all(&mut self, now: i64, node_id: &String)
        ensures
            final(self)@ == all_tombstoned(old(self)@, now as int, node_id@),
    {
        let ghost start = self.entries();
        let n = self.rows.len();
        let mut i: usize = 0;
        proof {
            use_type_invariant(&*self);
        }
        while i < n
            invariant
                n == self.entries().len(),
                n == start.len(),
                i <= n,
                distinct_ids(start),
                forall|j: int| 0 <= j < i ==> #[trigger] self.entries()[j] == tombstoned(start[j], now as int, node_id@),
                forall|j: int| i <= j < n ==> #[trigger] self.entries()[j] == start[j],
            decreases n - i,
        {
            assert(self.entries()[i as int] == self.rows@[i as int]@);
            let row = &self.rows[i];
            let t = Todo {
                id: row.id.clone(),
                title: row.title.clone(),
                completed: row.completed,
                deleted: true,
                updated_at: now,
                node_id: node_id.clone(),
            };
            self.replace_at(i, t);
            i = i + 1;
        }
        proof {
            use_type_invariant(&*self);
            let e = self.entries();
            lemma_rows_map(start);
            lemma_rows_map(e);
            assert forall|j: int| 0 <= j < n implies #[trigger] e[j].id == start[j].id by {
                assert(e[j] == tombstoned(start[j], now as int, node_id@));
            }
            assert forall|k: Seq<char>| self@.contains_key(k) <==> old(self)@.contains_key(k) by {
                if self@.contains_key(k) {
                    let j = choose|j: int| 0 <= j < e.len() && #[trigger] e[j].id == k;
                    assert(start[j].id == k);
                }
                if old(self)@.contains_key(k) {
                    let j = choose|j: int| 0 <= j < start.len() && #[trigger] start[j].id == k;
                    assert(e[j].id == k);
                }
            }
            assert(self@.dom() =~= old(self)@.dom());
            assert forall|k: Seq<char>| #[trigger] old(self)@.contains_key(k) implies self@[k]
                == tombstoned(old(self)@[k], now as int, node_id@) by {
                let j = choose|j: int| 0 <= j < start.len() && #[trigger] start[j].id == k;
                assert(e[j].id == k);
                assert(self@[e[j].id] == e[j]);
            }
            assert(self@ =~= all_tombstoned(old(self)@, now as int, node_id@));
        }
    }

    /// The time of the row with this id, if there is one.
    pub fn updated_at_of(&self, id: &String) -> (r: Option<i64>)
        ensures
            r is Some <==> self@.contains_key(id@),
            r matches Some(t) ==> t as int == self@[id@].updated_at,
    {
        proof {
            use_type_invariant(self);
            lemma_rows_map(self.entries());
        }
        match self.position(id) {
            Some(i) => {
                proof {
                    assert(self.entries()[i as int] == self.rows@[i as int]@);
                    assert(self@.contains_key(self.entries()[i as int].id));
                }
                Some(self.rows[i].updated_at)
            },
            None => None,
        }
    }

    /// How many rows the store holds.
    pub fn row_count(&self) -> (r: usize)
        ensures
            self@.dom().finite(),
            r as nat == self@.dom().len(),
    {
        proof {
            use_type_invariant(self);
            lemma_rows_map_len(self.entries());
        }
        self.rows.len()
    }

    /// The latest time of any row: none for an empty store.
    pub fn latest_update(&self) -> (r: Option<i64>)
        ensures
            r is None <==> self@.dom().is_empty(),
            r matches Some(t) ==> forall|k: Seq<char>| #[trigger] self@.contains_key(k) ==> self@[k].updated_at <= t,
    {
        proof {
            use_type_invariant(self);
            lemma_rows_map(self.entries());
        }
        let ghost rs = self.entries();
        let mut best: Option<i64> = None;
        let mut i: usize = 0;
        while i < self.rows.len()
            invariant
                rs == self.entries(),
                i <= self.rows@.len(),
                best is None <==> i == 0,
                best matches Some(t) ==> forall|j: int| 0 <= j < i ==> #[trigger] rs[j].updated_at <= t,
            decreases self.rows@.len() - i,
        {
            assert(rs[i as int] == self.rows@[i as int]@);
            let t = self.rows[i].updated_at;
            best = match best {
                Some(b) => if t > b { Some(t) } else { Some(b) },
                None => Some(t),
            };
            i = i + 1;
        }
        proof {
            if best is None {
                assert(rs.len() == 0);
                assert(self@.dom() =~= Set::<Seq<char>>::empty());
            } else {
                assert(rs.len() > 0);
                assert(self@.contains_key(rs[0].id));
                assert forall|k: Seq<char>| #[trigger] self@.contains_key(k) implies self@[k].updated_at
                    <= best->0 by {
                    let j = choose|j: int| 0 <= j < rs.len() && #[trigger] rs[j].id == k;
                    assert(self@[rs[j].id] == rs[j]);
                }
            }
        }
        best
    }

    /// The rows, each once, with the facts that tie them to the store.
    pub fn rows(&self) -> (res: Vec<Todo>)
        ensures
            records(res@) == self.entries(),
            distinct_ids(records(res@)),
            rows_map(records(res@)) == self@,
    {
        proof {
            use_type_invariant(self);
        }
        let mut out: Vec<Todo> = Vec::new();
        let mut i: usize = 0;
        while i < self.rows.len()
            invariant
                i <= self.rows@.len(),
                records(out@) == self.entries().take(i as int),
            decreases self.rows@.len() - i,
        {
            assert(self.entries()[i as int] == self.rows@[i as int]@);
            let d = self.rows[i].duplicate();
            let ghost prev = out@;
            out.push(d);
            assert(records(out@) =~= records(prev).push(d@));
            assert(self.entries().take(i + 1) =~= self.entries().take(i as int).push(d@));
            i = i + 1;
        }
        assert(self.entries().take(self.rows@.len() as int) =~= self.entries());
        out
    }
}

/// A row marked done or not done by a write at `now` on `node`.
pub open spec fn with_completed(r: TodoRecord, completed: bool, now: int, node: Seq<char>) -> TodoRecord {
    TodoRecord { completed, updated_at: now, node_id: node, ..r }
}

/// A row marked deleted by a write at `now` on `node`.
pub open spec fn tombstoned(r: TodoRecord, now: int, node: Seq<char>) -> TodoRecord {
    TodoRecord { deleted: true, updated_at: now, node_id: node, ..r }
}

/// The store after the row with this id, if there is one, is marked done or
/// not done at `now` on `node`.
pub open spec fn after_completion(
    m: Map<Seq<char>, TodoRecord>,
    id: Seq<char>,
    completed: bool,
    now: int,
    node: Seq<char>,
) -> Map<Seq<char>, TodoRecord> {
    if m.contains_key(id) {
        m.insert(id, with_completed(m[id], completed, now, node))
    } else {
        m
    }
}

/// The store after the row with this id, if there is one, is marked deleted
/// at `now` on `node`.
pub open spec fn after_tombstone(m: Map<Seq<char>, TodoRecord>, id: Seq<char>, now: int, node: Seq<char>) -> Map<
    Seq<char>,
    TodoRecord,
> {
    if m.contains_key(id) {
        m.insert(id, tombstoned(m[id], now, node))
    } else {
        m
    }
}

/// The store after every row is marked deleted at `now` on `node`.
pub open spec fn all_tombstoned(m: Map<Seq<char>, TodoRecord>, now: int, node: Seq<char>) -> Map<
    Seq<char>,
    TodoRecord,
> {
    Map::new(|k: Seq<char>| m.contains_key(k), |k: Seq<char>| tombstoned(m[k], now, node))
}

/// Every row of the store, for a replica that asks for them.
pub fn export_todos(store: &TodoStore) -> (res: Vec<Todo>)
    ensures
        distinct_ids(records(res@)),
        rows_map(records(res@)) == store@,
{
    store.rows()
}

#[verifier::external_type_specification]
#[verifier::external_body]
pub struct ExSystemTime(std::time::SystemTime);

/// `SystemTime::now`: the wall-clock time. Nothing is stated of it.
#[verifier::external_body]
fn system_time_now() -> (res: std::time::SystemTime) {
    std::time::SystemTime::now()
}

/// `SystemTime::duration_since(UNIX_EPOCH)`: how long after the Unix epoch
/// the time lies; `None` for a time before the epoch.
#[verifier::external_body]
fn since_unix_epoch(t: &std::time::SystemTime) -> (res: Option<core::time::Duration>) {
    t.duration_since(std::time::UNIX_EPOCH).ok()
}

/// `Duration::as_millis`: the whole milliseconds of a duration.
#[verifier::external_body]
fn whole_millis(d: &core::time::Duration) -> (res: u128) {
    d.as_millis()
}

/// The time a write is stamped with, given the clock and the time of the
/// row or rows it replaces: the clock when it is ahead of them, else one
/// millisecond after them, so that the write supersedes what it replaces
/// (unless that was stamped at the last representable millisecond).
pub fn next_stamp(clock: i64, prev: Option<i64>) -> (r: i64)
    ensures
        r >= clock,
        prev is None ==> r == clock,
        prev matches Some(p) ==> {
            &&& r >= p
            &&& p < i64::MAX ==> r > p
            &&& clock > p ==> r == clock
            &&& clock <= p && p < i64::MAX ==> r == p + 1
        },
{
    match prev {
        None => clock,
        Some(p) => {
            if clock > p {
                clock
            } else if p < i64::MAX {
                p + 1
            } else {
                p
            }
        },
    }
}

/// The clock set before the Unix epoch: it gives no time to stamp a write with.
#[derive(Debug)]
pub struct ClockBeforeEpoch;

/// The clock reading as an `i64`: the whole milliseconds since the epoch,
/// cast as `as` casts them; none for a clock set before the epoch.
pub fn epoch_millis(since_epoch: Option<u128>) -> (r: Option<i64>)
    ensures
        r == match since_epoch {
            Some(m) => Some(m as i64),
            None => None::<i64>,
        },
{
    match since_epoch {
        Some(m) => Some(m as i64),
        None => None,
    }
}

/// Milliseconds since the Unix epoch by the wall clock, as `epoch_millis`
/// renders the reading; none for a clock set before the epoch. The reading
/// depends on the clock: nothing is stated of it.
pub fn now() -> Option<i64> {
    let millis = match since_unix_epoch(&system_time_now()) {
        Some(d) => Some(whole_millis(&d)),
        None => None,
    };
    epoch_millis(millis)
}

/// Merges rows from another replica in order, each by last-writer-wins on
/// `(updated_at, node_id)`; returns how many rows changed the store.
pub fn merge_todos(store: &mut TodoStore, todos: Vec<Todo>) -> (count: usize)
    ensures
        final(store)@ == merge_rows(old(store)@, records(todos@)),
        count == accepted_count(old(store)@, records(todos@)),
{
    let ghost ts = records(todos@);
    let mut count: usize = 0;
    let mut i: usize = 0;
    assert(ts.take(0) =~= Seq::<TodoRecord>::empty());
    while i < todos.len()
        invariant
            i <= todos@.len(),
            ts == records(todos@),
            store@ == merge_rows(old(store)@, ts.take(i as int)),
            count == accepted_count(old(store)@, ts.take(i as int)),
            count <= i,
        decreases todos@.len() - i,
    {
        let t = todos[i].duplicate();
        assert(ts.take(i + 1).drop_last() =~= ts.take(i as int));
        assert(ts.take(i + 1).last() == t@);
        if store.merge_one(t) {
            count = count + 1;
        }
        i = i + 1;
    }
    assert(ts.take(todos@.len() as int) =~= ts);
    count
}

/// Two rows with the same id and the same version are the same row.
pub open spec fn consistent(a: TodoRecord, b: TodoRecord) -> bool {
    a.id == b.id && same_version(a, b) ==> a == b
}

/// Every two of the rows are consistent.
pub open spec fn all_consistent(rows: Seq<TodoRecord>) -> bool {
    forall|i: int, j: int|
        0 <= i < rows.len() && 0 <= j < rows.len() ==> consistent(#[trigger] rows[i], #[trigger] rows[j])
}

/// Every stored row sits under its own id.
pub open spec fn keyed_by_id(m: Map<Seq<char>, TodoRecord>) -> bool {
    forall|k: Seq<char>| #[trigger] m.contains_key(k) ==> m[k].id == k
}

/// The version of `w` is at least that of `c`.
pub open spec fn at_least(w: TodoRecord, c: TodoRecord) -> bool {
    !version_lt(w, c)
}

/// Merging the same row twice changes nothing the second time.
pub proof fn law_merge_row_idempotent(m: Map<Seq<char>, TodoRecord>, a: TodoRecord)
    ensures
        merge_row(merge_row(m, a), a) == merge_row(m, a),
{
    lemma_version_lt_irreflexive(a);
}

/// Two consistent rows can be merged in either order with the same result.
pub proof fn law_merge_row_commutes(m: Map<Seq<char>, TodoRecord>, a: TodoRecord, b: TodoRecord)
    requires
        consistent(a, b),
    ensures
        merge_row(merge_row(m, a), b) == merge_row(merge_row(m, b), a),
{
    lemma_version_lt_irreflexive(a);
    lemma_version_lt_irreflexive(b);
    lemma_version_lt_asymmetric(a, b);
    if a.id == b.id {
        if m.contains_key(a.id) {
            let c = m[a.id];
            lemma_version_lt_asymmetric(c, a);
            lemma_version_lt_asymmetric(c, b);
            if version_lt(c, a) && version_lt(a, b) {
                lemma_version_lt_transitive(c, a, b);
            }
            if version_lt(c, b) && version_lt(b, a) {
                lemma_version_lt_transitive(c, b, a);
            }
            if version_lt(a, b) && version_lt(b, c) {
                lemma_version_lt_transitive(a, b, c);
            }
            if version_lt(b, a) && version_lt(a, c) {
                lemma_version_lt_transitive(b, a, c);
            }
        }
        if !same_version(a, b) {
            lemma_version_lt_total(a, b);
        }
        assert(merge_row(merge_row(m, a), b) =~= merge_row(merge_row(m, b), a));
    } else {
        assert(merge_row(merge_row(m, a), b) =~= merge_row(merge_row(m, b), a));
    }
}

/// After merging rows into a store, an id is present exactly when it was
/// stored or among the merged rows, and it holds one of those rows with the
/// greatest version: a newer write is never lost.
pub proof fn law_merge_keeps_newest(m: Map<Seq<char>, TodoRecord>, ts: Seq<TodoRecord>, k: Seq<char>)
    requires
        keyed_by_id(m),
    ensures
        keyed_by_id(merge_rows(m, ts)),
        merge_rows(m, ts).contains_key(k) <==> (m.contains_key(k) || exists|i: int|
            0 <= i < ts.len() && #[trigger] ts[i].id == k),
        merge_rows(m, ts).contains_key(k) ==> {
            let w = merge_rows(m, ts)[k];
            &&& (m.contains_key(k) && w == m[k]) || exists|i: int| 0 <= i < ts.len() && #[trigger] ts[i] == w
            &&& m.contains_key(k) ==> at_least(w, m[k])
            &&& forall|i: int| 0 <= i < ts.len() && #[trigger] ts[i].id == k ==> at_least(w, ts[i])
        },
    decreases ts.len(),
{
    if ts.len() == 0 {
        if m.contains_key(k) {
            lemma_version_lt_irreflexive(m[k]);
        }
    }
    if ts.len() > 0 {
        let init = ts.drop_last();
        let t = ts.last();
        let n = ts.len() - 1;
        law_merge_keeps_newest(m, init, k);
        let m1 = merge_rows(m, init);
        assert(merge_rows(m, ts) == merge_row(m1, t));
        assert forall|i: int| 0 <= i < n implies #[trigger] ts[i] == init[i] by {}
        if t.id == k {
            if accepts(m1, t) {
                if m1.contains_key(k) {
                    let w = m1[k];
                    assert forall|c: TodoRecord| at_least(w, c) implies at_least(t, c) by {
                        if version_lt(t, c) {
                            lemma_version_lt_transitive(w, t, c);
                        }
                    }
                }
                assert(ts[n] == t);
                lemma_version_lt_irreflexive(t);
                if m.contains_key(k) {
                    assert(m1.contains_key(k));
                    assert(at_least(m1[k], m[k]));
                    assert(at_least(t, m[k]));
                    assert(merge_rows(m, ts)[k] == t);
                    assert(at_least(merge_rows(m, ts)[k], m[k]));
                }
                assert forall|i: int| 0 <= i < ts.len() && #[trigger] ts[i].id == k implies at_least(t, ts[i]) by {
                    if i < n {
                        assert(init[i].id == k);
                    }
                }
            } else {
                let w = m1[k];
                assert(at_least(w, t));
                assert(merge_rows(m, ts) == m1);
                assert(m.contains_key(k) ==> at_least(merge_rows(m, ts)[k], m[k]));
                assert forall|i: int| 0 <= i < ts.len() && #[trigger] ts[i].id == k implies at_least(w, ts[i]) by {
                    if i < n {
                        assert(init[i].id == k);
                    }
                }
                if !(m.contains_key(k) && w == m[k]) {
                    let j = choose|j: int| 0 <= j < init.len() && #[trigger] init[j] == w;
                    assert(ts[j] == w);
                }
            }
        } else {
            if merge_rows(m, ts).contains_key(k) {
                let w = merge_rows(m, ts)[k];
                assert(w == m1[k]);
                assert(m.contains_key(k) ==> at_least(w, m[k]));
                if !(m.contains_key(k) && w == m[k]) {
                    let j = choose|j: int| 0 <= j < init.len() && #[trigger] init[j] == w;
                    assert(ts[j] == w);
                }
                assert forall|i: int| 0 <= i < ts.len() && #[trigger] ts[i].id == k implies at_least(w, ts[i]) by {
                    assert(i < n);
                    assert(init[i].id == k);
                }
            }
            if exists|i: int| 0 <= i < ts.len() && #[trigger] ts[i].id == k {
                let i = choose|i: int| 0 <= i < ts.len() && #[trigger] ts[i].id == k;
                assert(init[i].id == k);
            }
        }
        if exists|i: int| 0 <= i < init.len() && #[trigger] init[i].id == k {
            let i = choose|i: int| 0 <= i < init.len() && #[trigger] init[i].id == k;
            assert(ts[i].id == k);
        }
        assert forall|kk: Seq<char>| #[trigger] merge_rows(m, ts).contains_key(kk) implies merge_rows(
            m,
            ts,
        )[kk].id == kk by {
            law_merge_keeps_newest(m, init, kk);
        }
    }
}

proof fn lemma_remerge_prefix(m: Map<Seq<char>, TodoRecord>, ts: Seq<TodoRecord>, j: int)
    requires
        keyed_by_id(m),
        0 <= j <= ts.len(),
    ensures
        merge_rows(merge_rows(m, ts), ts.take(j)) == merge_rows(m, ts),
        accepted_count(merge_rows(m, ts), ts.take(j)) == 0,
    decreases j,
{
    let merged = merge_rows(m, ts);
    if j == 0 {
        assert(ts.take(0) =~= Seq::<TodoRecord>::empty());
    } else {
        lemma_remerge_prefix(m, ts, j - 1);
        let p = ts.take(j);
        assert(p.drop_last() =~= ts.take(j - 1));
        let t = ts[j - 1];
        assert(p.last() == t);
        law_merge_keeps_newest(m, ts, t.id);
        assert(ts[j - 1].id == t.id);
        assert(!accepts(merged, t));
    }
}

/// Merging the same rows a second time changes nothing and counts no
/// change: a repeated pull of unchanged data is a no-op.
pub proof fn law_merge_batch_idempotent(m: Map<Seq<char>, TodoRecord>, ts: Seq<TodoRecord>)
    requires
        keyed_by_id(m),
    ensures
        merge_rows(merge_rows(m, ts), ts) == merge_rows(m, ts),
        accepted_count(merge_rows(m, ts), ts) == 0,
{
    lemma_remerge_prefix(m, ts, ts.len() as int);
    assert(ts.take(ts.len() as int) =~= ts);
}

/// A store's rows sit under their own ids.
pub proof fn lemma_store_keyed_by_id(rows: Seq<TodoRecord>)
    requires
        distinct_ids(rows),
    ensures
        keyed_by_id(rows_map(rows)),
{
    lemma_rows_map(rows);
    assert forall|k: Seq<char>| #[trigger] rows_map(rows).contains_key(k) implies rows_map(rows)[k].id == k by {
        let i = choose|i: int| 0 <= i < rows.len() && #[trigger] rows[i].id == k;
    }
}

proof fn lemma_row_commutes_past_rows(m: Map<Seq<char>, TodoRecord>, t: TodoRecord, b: Seq<TodoRecord>)
    requires
        forall|j: int| 0 <= j < b.len() ==> consistent(t, #[trigger] b[j]),
    ensures
        merge_row(merge_rows(m, b), t) == merge_rows(merge_row(m, t), b),
    decreases b.len(),
{
    if b.len() > 0 {
        let b0 = b.drop_last();
        let x = b.last();
        assert forall|j: int| 0 <= j < b0.len() implies consistent(t, #[trigger] b0[j]) by {
            assert(b0[j] == b[j]);
        }
        lemma_row_commutes_past_rows(m, t, b0);
        assert(consistent(t, b[b.len() - 1]));
        law_merge_row_commutes(merge_rows(m, b0), x, t);
    }
}

proof fn lemma_batches_commute(m: Map<Seq<char>, TodoRecord>, a: Seq<TodoRecord>, b: Seq<TodoRecord>)
    requires
        forall|i: int, j: int| 0 <= i < a.len() && 0 <= j < b.len() ==> consistent(#[trigger] a[i], #[trigger] b[j]),
    ensures
        merge_rows(merge_rows(m, a), b) == merge_rows(merge_rows(m, b), a),
    decreases a.len(),
{
    if a.len() > 0 {
        let a0 = a.drop_last();
        let t = a.last();
        assert forall|i: int, j: int| 0 <= i < a0.len() && 0 <= j < b.len() implies consistent(
            #[trigger] a0[i],
            #[trigger] b[j],
        ) by {
            assert(a0[i] == a[i]);
        }
        lemma_batches_commute(m, a0, b);
        assert forall|j: int| 0 <= j < b.len() implies consistent(t, #[trigger] b[j]) by {
            assert(consistent(a[a.len() - 1], b[j]));
        }
        lemma_row_commutes_past_rows(merge_rows(m, a0), t, b);
    }
}

/// Two batches of rows can be merged in either order with the same result,
/// provided no two rows share an id and a version without being the same row.
pub proof fn law_merge_batches_commute(m: Map<Seq<char>, TodoRecord>, a: Seq<TodoRecord>, b: Seq<TodoRecord>)
    requires
        all_consistent(a + b),
    ensures
        merge_rows(merge_rows(m, a), b) == merge_rows(merge_rows(m, b), a),
{
    let ab = a + b;
    assert forall|i: int, j: int| 0 <= i < a.len() && 0 <= j < b.len() implies consistent(
        #[trigger] a[i],
        #[trigger] b[j],
    ) by {
        assert(ab[i] == a[i]);
        assert(ab[a.len() + j] == b[j]);
        assert(consistent(ab[i], ab[a.len() + j]));
    }
    lemma_batches_commute(m, a, b);
}

/// A write that supersedes a replica's row replaces that row when merged
/// into the replica, and the merge counts it as one change.
pub proof fn law_superseding_write_replicates(m: Map<Seq<char>, TodoRecord>, w: TodoRecord)
    requires
        m.contains_key(w.id),
        supersedes(w, m[w.id]),
    ensures
        merge_row(m, w) == m.insert(w.id, w),
        merge_rows(m, seq![w]) == m.insert(w.id, w),
        accepted_count(m, seq![w]) == 1,
{
    let s = seq![w];
    let e = Seq::<TodoRecord>::empty();
    assert(s.drop_last() =~= e);
    assert(s.last() == w);
    assert(merge_rows(m, e) == m);
    assert(accepted_count(m, e) == 0);
    assert(merge_rows(m, s) == merge_row(merge_rows(m, s.drop_last()), s.last()));
    assert(accepted_count(m, s) == accepted_count(m, s.drop_last()) + if accepts(
        merge_rows(m, s.drop_last()),
        s.last(),
    ) {
        1nat
    } else {
        0nat
    });
}

/// Two replicas that each merge the other's full set of rows end up with
/// the same rows, provided no two rows share an id and a version without
/// being the same row.
pub proof fn law_replicas_converge(ra: Seq<TodoRecord>, rb: Seq<TodoRecord>)
    requires
        distinct_ids(ra),
        distinct_ids(rb),
        all_consistent(ra + rb),
    ensures
        merge_rows(rows_map(ra), rb) == merge_rows(rows_map(rb), ra),
{
    let ma = rows_map(ra);
    let mb = rows_map(rb);
    lemma_rows_map(ra);
    lemma_rows_map(rb);
    let both = ra + rb;
    lemma_store_keyed_by_id(ra);
    lemma_store_keyed_by_id(rb);
    let x = merge_rows(ma, rb);
    let y = merge_rows(mb, ra);
    assert forall|k: Seq<char>| x.contains_key(k) <==> y.contains_key(k) by {
        law_merge_keeps_newest(ma, rb, k);
        law_merge_keeps_newest(mb, ra, k);
        if exists|i: int| 0 <= i < rb.len() && #[trigger] rb[i].id == k {
            let i = choose|i: int| 0 <= i < rb.len() && #[trigger] rb[i].id == k;
            assert(mb.contains_key(rb[i].id));
        }
        if exists|i: int| 0 <= i < ra.len() && #[trigger] ra[i].id == k {
            let i = choose|i: int| 0 <= i < ra.len() && #[trigger] ra[i].id == k;
            assert(ma.contains_key(ra[i].id));
        }
    }
    assert forall|k: Seq<char>| x.contains_key(k) implies x[k] == y[k] by {
        law_merge_keeps_newest(ma, rb, k);
        law_merge_keeps_newest(mb, ra, k);
        let wx = x[k];
        let wy = y[k];
        // every winner is one of the rows of ra or rb
        let ix: int = if ma.contains_key(k) && wx == ma[k] {
            choose|i: int| 0 <= i < ra.len() && #[trigger] ra[i].id == k
        } else {
            ra.len() + choose|i: int| 0 <= i < rb.len() && #[trigger] rb[i] == wx
        };
        let iy: int = if mb.contains_key(k) && wy == mb[k] {
            ra.len() + choose|i: int| 0 <= i < rb.len() && #[trigger] rb[i].id == k
        } else {
            choose|i: int| 0 <= i < ra.len() && #[trigger] ra[i] == wy
        };
        assert(both[ix] == wx);
        assert(both[iy] == wy);
        // each winner is at least the other, which is a candidate too
        if ma.contains_key(k) && wx == ma[k] {
        } else {
            let j = choose|i: int| 0 <= i < rb.len() && #[trigger] rb[i] == wx;
            assert(mb.contains_key(rb[j].id));
        }
        if mb.contains_key(k) && wy == mb[k] {
        } else {
            let j = choose|i: int| 0 <= i < ra.len() && #[trigger] ra[i] == wy;
            assert(ma.contains_key(ra[j].id));
        }
        assert(at_least(wx, wy));
        assert(at_least(wy, wx));
        if !same_version(wx, wy) {
            lemma_version_lt_total(wx, wy);
        }
        assert(consistent(both[ix], both[iy]));
    }
    assert(x =~= y);
}

} // verus!
