//! What the API does to a user's todo list, once the request is known to
//! come from that user.

use vstd::prelude::*;
use crate::crypto::{new_uuid_v4, uuid_text};
use crate::ids::{free_series_id, series_len};
use crate::db::{
    after_completion, after_tombstone, distinct_ids, export_todos, lemma_rows_map, next_stamp, now,
    rows_map, supersedes, ClockBeforeEpoch, TodoStore,
};
use crate::models::{records, CreateTodo, PeerReq, Todo, TodoRecord, UpdateTodo};
use crate::state::{distinct_fingerprints, peer_records, DiscoveredPeer, PeerRecord, PeerTable};
use vstd::string::StrSliceExecFns;

verus! {

/// Rows ordered by `updated_at`, newest first.
pub open spec fn newest_first(s: Seq<TodoRecord>) -> bool {
    forall|i: int, j: int| 0 <= i < j < s.len() ==> #[trigger] s[i].updated_at >= #[trigger] s[j].updated_at
}

/// Inserts a row into a list ordered newest first, after the rows written
/// no later than it.
fn insert_newest_first(out: &mut Vec<Todo>, t: Todo)
    requires
        newest_first(records(old(out)@)),
        distinct_ids(records(old(out)@)),
        forall|j: int| 0 <= j < old(out)@.len() ==> #[trigger] old(out)@[j].id@ != t.id@,
    ensures
        newest_first(records(final(out)@)),
        distinct_ids(records(final(out)@)),
        forall|x: TodoRecord|
            #[trigger] records(final(out)@).contains(x) <==> records(old(out)@).contains(x) || x == t@,
{
    let mut p: usize = 0;
    while p < out.len() && out[p].updated_at >= t.updated_at
        invariant
            p <= out@.len(),
            forall|q: int| 0 <= q < p ==> #[trigger] out@[q].updated_at >= t.updated_at,
        decreases out@.len() - p,
    {
        p = p + 1;
    }
    let ghost prev = out@;
    let ghost ro = records(prev);
    let ghost tv = t@;
    proof {
        assert forall|q: int| p <= q < prev.len() implies #[trigger] prev[q].updated_at < t.updated_at by {
            assert(ro[p as int].updated_at >= ro[q].updated_at);
        }
        assert forall|j: int| 0 <= j < prev.len() implies #[trigger] ro[j].id != tv.id by {
            assert(prev[j].id@ != t.id@);
        }
    }
    out.insert(p, t);
    proof {
        let r2 = records(out@);
        assert(out@ == prev.insert(p as int, t));
        assert forall|j: int| 0 <= j < r2.len() implies #[trigger] r2[j] == (if j < p {
            ro[j]
        } else if j == p {
            tv
        } else {
            ro[j - 1]
        }) by {
            if j < p {
                assert(out@[j] == prev[j]);
            } else if j > p {
                assert(out@[j] == prev[j - 1]);
            }
        }
        assert forall|x: int, y: int|
            0 <= x < r2.len() && 0 <= y < r2.len() && x != y implies #[trigger] r2[x].id
            != #[trigger] r2[y].id by {
            if x != p && y != p {
                let x0 = if x < p { x } else { x - 1 };
                let y0 = if y < p { y } else { y - 1 };
                assert(ro[x0].id != ro[y0].id);
            } else if x == p {
                let y0 = if y < p { y } else { y - 1 };
                assert(ro[y0].id != tv.id);
            } else {
                let x0 = if x < p { x } else { x - 1 };
                assert(ro[x0].id != tv.id);
            }
        }
        assert forall|x: int, y: int| 0 <= x < y < r2.len() implies #[trigger] r2[x].updated_at
            >= #[trigger] r2[y].updated_at by {
            if x < p && y < p {
                assert(ro[x].updated_at >= ro[y].updated_at);
            } else if x < p && y == p {
            } else if x < p {
                assert(ro[x].updated_at >= ro[y - 1].updated_at);
            } else if x == p {
                assert(prev[y - 1].updated_at < t.updated_at);
            } else {
                assert(ro[x - 1].updated_at >= ro[y - 1].updated_at);
            }
        }
        assert forall|x: TodoRecord| #[trigger] r2.contains(x) <==> ro.contains(x) || x == tv by {
            if r2.contains(x) {
                let j = choose|j: int| 0 <= j < r2.len() && #[trigger] r2[j] == x;
                if j < p {
                    assert(ro[j] == x);
                } else if j > p {
                    assert(ro[j - 1] == x);
                }
            }
            if ro.contains(x) {
                let j = choose|j: int| 0 <= j < ro.len() && #[trigger] ro[j] == x;
                if j < p {
                    assert(r2[j] == x);
                } else {
                    assert(r2[j + 1] == x);
                }
            }
            if x == tv {
                assert(r2[p as int] == x);
            }
        }
    }
}

/// The rows that are not deleted, newest first (rows written at the same
/// moment come in no promised order).
pub fn list_active_todos(store: &TodoStore) -> (res: Vec<Todo>)
    ensures
        distinct_ids(records(res@)),
        newest_first(records(res@)),
        forall|x: TodoRecord|
            #[trigger] records(res@).contains(x) <==> store@.contains_key(x.id) && store@[x.id] == x
                && !x.deleted,
{
    let all = export_todos(store);
    let ghost rs = records(all@);
    proof {
        lemma_rows_map(rs);
    }
    let mut out: Vec<Todo> = Vec::new();
    let n = all.len();
    let mut i: usize = 0;
    while i < n
        invariant
            n == all@.len(),
            rs == records(all@),
            distinct_ids(rs),
            i <= n,
            distinct_ids(records(out@)),
            newest_first(records(out@)),
            forall|x: TodoRecord|
                #[trigger] records(out@).contains(x) <==> rs.take(i as int).contains(x) && !x.deleted,
        decreases n - i,
    {
        let ghost before = records(out@);
        assert(rs[i as int] == all@[i as int]@);
        if !all[i].deleted {
            let t = all[i].duplicate();
            proof {
                assert forall|j: int| 0 <= j < out@.len() implies #[trigger] out@[j].id@ != t.id@ by {
                    assert(before[j] == out@[j]@);
                    assert(before.contains(before[j]));
                    let a = choose|a: int| 0 <= a < i && #[trigger] rs.take(i as int)[a] == before[j];
                    assert(rs[a].id != rs[i as int].id);
                }
            }
            insert_newest_first(&mut out, t);
        }
        proof {
            assert forall|x: TodoRecord| #[trigger] records(out@).contains(x) <==> rs.take(i + 1).contains(x)
                && !x.deleted by {
                if rs.take(i + 1).contains(x) {
                    let a = choose|a: int| 0 <= a < i + 1 && #[trigger] rs.take(i + 1)[a] == x;
                    if a < i {
                        assert(rs.take(i as int)[a] == x);
                    }
                }
                if rs.take(i as int).contains(x) {
                    let a = choose|a: int| 0 <= a < i && #[trigger] rs.take(i as int)[a] == x;
                    assert(rs.take(i + 1)[a] == x);
                }
                if x == rs[i as int] {
                    assert(rs.take(i + 1)[i as int] == x);
                }
            }
        }
        i = i + 1;
    }
    proof {
        assert(rs.take(n as int) =~= rs);
        assert forall|x: TodoRecord| #[trigger] records(out@).contains(x) <==> store@.contains_key(x.id)
            && store@[x.id] == x && !x.deleted by {
            if rs.contains(x) {
                let a = choose|a: int| 0 <= a < rs.len() && #[trigger] rs[a] == x;
                assert(rows_map(rs).contains_key(rs[a].id));
            }
            if store@.contains_key(x.id) && store@[x.id] == x {
                let a = choose|a: int| 0 <= a < rs.len() && #[trigger] rs[a].id == x.id;
                assert(rows_map(rs)[rs[a].id] == rs[a]);
                assert(rs[a] == x);
            }
        }
    }
    out
}

/// Why a todo cannot be created.
#[derive(Debug)]
pub enum TodoError {
    /// The id is taken (the table's primary key refuses it).
    DuplicateId(String),
    /// The clock is set before the Unix epoch, so the row cannot be stamped.
    ClockBeforeEpoch,
}

/// A new row: not done, not deleted, written at `now` by `node`.
pub open spec fn new_record(id: Seq<char>, title: Seq<char>, now: int, node: Seq<char>) -> TodoRecord {
    TodoRecord { id, title, completed: false, deleted: false, updated_at: now, node_id: node }
}

/// Creates a todo under a given id, written at `now` by `node`; a taken id
/// is refused.
pub fn create_todo_at(store: &mut TodoStore, id: String, payload: CreateTodo, now: i64, node_id: &String) -> (res: Result<Todo, TodoError>)
    ensures
        res is Ok <==> !old(store)@.contains_key(id@),
        match res {
            Ok(t) => t@ == new_record(id@, payload.title@, now as int, node_id@) && final(store)@
                == old(store)@.insert(id@, t@),
            Err(TodoError::DuplicateId(taken)) => taken@ == id@ && final(store)@ == old(store)@,
            Err(TodoError::ClockBeforeEpoch) => false,
        },
{
    let todo = Todo {
        id,
        title: payload.title,
        completed: false,
        deleted: false,
        updated_at: now,
        node_id: node_id.clone(),
    };
    let copy = todo.duplicate();
    if store.insert_new(todo) {
        Ok(copy)
    } else {
        Err(TodoError::DuplicateId(copy.id))
    }
}

/// Creates a todo under a fresh random UUID, written now by `node`. When
/// that UUID is already an id of the store, the todo gets the first free id
/// of a counted series of UUIDs instead, so that creating a todo always adds
/// a row: it is refused only for a clock set before the epoch, or for a
/// store that holds every id of that series.
pub fn create_todo(store: &mut TodoStore, payload: CreateTodo, node_id: &String) -> (res: Result<Todo, TodoError>)
    ensures
        match res {
            Ok(t) => {
                &&& uuid_text(t.id@)
                &&& !old(store)@.contains_key(t.id@)
                &&& t@ == new_record(t.id@, payload.title@, t.updated_at as int, node_id@)
                &&& final(store)@ == old(store)@.insert(t.id@, t@)
                &&& final(store)@.dom().len() == old(store)@.dom().len() + 1
            },
            Err(TodoError::DuplicateId(taken)) => {
                &&& uuid_text(taken@)
                &&& old(store)@.contains_key(taken@)
                &&& final(store)@ == old(store)@
                &&& old(store)@.dom().len() >= series_len()
            },
            Err(TodoError::ClockBeforeEpoch) => final(store)@ == old(store)@,
        },
{
    let drawn = new_uuid_v4();
    let at = match now() {
        Some(t) => t,
        None => {
            return Err(TodoError::ClockBeforeEpoch);
        },
    };
    let rows_before = store.row_count();
    let id = if store.updated_at_of(&drawn).is_none() {
        drawn
    } else {
        match free_series_id(store) {
            Some(free) => free,
            None => {
                return Err(TodoError::DuplicateId(drawn));
            },
        }
    };
    let res = create_todo_at(store, id, payload, at, node_id);
    proof {
        if res is Ok {
            let t = res->Ok_0;
            assert(rows_before as nat == old(store)@.dom().len());
            assert(old(store)@.dom().insert(t@.id) =~= store@.dom());
        }
    }
    res
}

/// Marks a todo done or not done at `now` by `node`; an unknown id changes
/// nothing.
pub fn update_todo_at(store: &mut TodoStore, id: &String, payload: UpdateTodo, now: i64, node_id: &String)
    ensures
        final(store)@ == after_completion(old(store)@, id@, payload.completed, now as int, node_id@),
{
    store.set_completed(id, payload.completed, now, node_id);
}

/// Marks a todo done or not done, stamped with the current time (or, when
/// the clock is not ahead of the row, one millisecond after the row) and
/// this node, so that the new row supersedes the one it replaces wherever it
/// is merged; an unknown id changes nothing. A clock set before the epoch
/// refuses the write and changes nothing.
pub fn update_todo(store: &mut TodoStore, id: &String, payload: UpdateTodo, node_id: &String) -> (res: Result<(), ClockBeforeEpoch>)
    ensures
        match res {
            Ok(()) => exists|at: i64|
                final(store)@ == #[trigger] after_completion(old(store)@, id@, payload.completed, at as int, node_id@),
            Err(_) => final(store)@ == old(store)@,
        },
        res is Ok && old(store)@.contains_key(id@) && old(store)@[id@].updated_at < i64::MAX ==> supersedes(
            final(store)@[id@],
            old(store)@[id@],
        ),
{
    let clock = match now() {
        Some(t) => t,
        None => {
            return Err(ClockBeforeEpoch);
        },
    };
    let at = next_stamp(clock, store.updated_at_of(id));
    let completed = payload.completed;
    update_todo_at(store, id, payload, at, node_id);
    assert(store@ == after_completion(old(store)@, id@, completed, at as int, node_id@));
    Ok(())
}

/// Deletes a todo by tombstoning it at `now` by `node`; an unknown id
/// changes nothing.
pub fn delete_todo_at(store: &mut TodoStore, id: &String, now: i64, node_id: &String)
    ensures
        final(store)@ == after_tombstone(old(store)@, id@, now as int, node_id@),
{
    store.tombstone(id, now, node_id);
}

/// Deletes a todo by tombstoning it, stamped with the current time (or,
/// when the clock is not ahead of the row, one millisecond after the row)
/// and this node, so that the tombstone supersedes the row it replaces
/// wherever it is merged; an unknown id changes nothing. A clock set before
/// the epoch refuses the write and changes nothing.
pub fn delete_todo(store: &mut TodoStore, id: &String, node_id: &String) -> (res: Result<(), ClockBeforeEpoch>)
    ensures
        match res {
            Ok(()) => exists|at: i64|
                final(store)@ == #[trigger] after_tombstone(old(store)@, id@, at as int, node_id@),
            Err(_) => final(store)@ == old(store)@,
        },
        res is Ok && old(store)@.contains_key(id@) && old(store)@[id@].updated_at < i64::MAX ==> supersedes(
            final(store)@[id@],
            old(store)@[id@],
        ),
{
    let clock = match now() {
        Some(t) => t,
        None => {
            return Err(ClockBeforeEpoch);
        },
    };
    let at = next_stamp(clock, store.updated_at_of(id));
    delete_todo_at(store, id, at, node_id);
    assert(store@ == after_tombstone(old(store)@, id@, at as int, node_id@));
    Ok(())
}

/// Whose rows `/api/replication` hands out: the signed-in user's, and only
/// when the request names no other user.
pub fn replication_reader(session_user: Option<String>, requested: Option<String>) -> (res: Option<String>)
    ensures
        match session_user {
            None => res is None,
            Some(u) => match requested {
                Some(q) if q@ != u@ => res is None,
                _ => res matches Some(r) && r@ == u@,
            },
        },
{
    match session_user {
        None => None,
        Some(u) => match requested {
            Some(q) => {
                if q == u {
                    Some(u)
                } else {
                    None
                }
            },
            None => Some(u),
        },
    }
}

/// Every row, tombstones included, as replicas exchange them.
pub fn export_all_data(store: &TodoStore) -> (res: Vec<Todo>)
    ensures
        distinct_ids(records(res@)),
        rows_map(records(res@)) == store@,
{
    export_todos(store)
}

/// Text without the copies of a character at its end.
pub open spec fn trim_end_char(s: Seq<char>, c: char) -> Seq<char>
    decreases s.len(),
{
    if s.len() > 0 && s.last() == c {
        trim_end_char(s.drop_last(), c)
    } else {
        s
    }
}

/// The URL a manual peer is stored under: without trailing slashes.
pub fn add_peer_manual(peer: &PeerReq) -> (res: String)
    ensures
        res@ == trim_end_char(peer.url@, '/'),
{
    let s = peer.url.as_str();
    let mut n = s.unicode_len();
    assert(s@.take(n as int) =~= s@);
    while n > 0 && s.get_char(n - 1) == '/'
        invariant
            n <= s@.len(),
            trim_end_char(s@, '/') == trim_end_char(s@.take(n as int), '/'),
        decreases n,
    {
        assert(s@.take(n as int).drop_last() =~= s@.take(n - 1));
        n = n - 1;
    }
    assert(s@.take(n as int) =~= s@.subrange(0, n as int));
    s.substring_char(0, n).to_owned()
}

/// The peers heard by beacon, for `/api/peers`.
pub fn get_peers_handler(peers: &PeerTable) -> (res: Vec<DiscoveredPeer>)
    ensures
        distinct_fingerprints(peer_records(res@)),
        forall|x: PeerRecord|
            #[trigger] peer_records(res@).contains(x) <==> peers@.contains_key(x.pubkey_fingerprint)
                && peers@[x.pubkey_fingerprint] == x,
{
    peers.peers()
}

} // verus!
