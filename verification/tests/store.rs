use mesh_todo::auth::{delete_my_data, delete_my_data_at};
use mesh_todo::db::{epoch_millis, export_todos, merge_todos, now, TodoStore};
use mesh_todo::handlers::{
    create_todo, create_todo_at, delete_todo, delete_todo_at, export_all_data, list_active_todos,
    replication_reader,
    update_todo, update_todo_at, TodoError,
};
use mesh_todo::models::{CreateTodo, Todo, UpdateTodo};

fn todo(id: &str, title: &str, updated_at: i64, node_id: &str) -> Todo {
    Todo {
        id: id.to_string(),
        title: title.to_string(),
        completed: false,
        deleted: false,
        updated_at,
        node_id: node_id.to_string(),
    }
}

fn find<'a>(rows: &'a [Todo], id: &str) -> &'a Todo {
    rows.iter().find(|t| t.id == id).expect("row present")
}

#[test]
fn newer_write_wins() {
    let mut store = TodoStore::new();
    assert_eq!(merge_todos(&mut store, vec![todo("a", "old", 1000, "n1")]), 1);
    assert_eq!(merge_todos(&mut store, vec![todo("a", "new", 2000, "n1")]), 1);
    assert_eq!(merge_todos(&mut store, vec![todo("a", "stale", 1500, "n1")]), 0);
    let rows = store.rows();
    assert_eq!(rows.len(), 1);
    assert_eq!(rows[0].title, "new");
}

#[test]
fn same_millisecond_broken_by_node_id() {
    let mut store = TodoStore::new();
    merge_todos(&mut store, vec![todo("a", "from b", 1700000000000, "bbbb")]);
    assert_eq!(merge_todos(&mut store, vec![todo("a", "from a", 1700000000000, "aaaa")]), 0);
    assert_eq!(merge_todos(&mut store, vec![todo("a", "from c", 1700000000000, "cccc")]), 1);
    assert_eq!(find(&store.rows(), "a").title, "from c");
}

#[test]
fn identical_row_is_not_counted_again() {
    let mut store = TodoStore::new();
    let rows = vec![todo("a", "x", 5, "n"), todo("b", "y", 6, "n")];
    assert_eq!(merge_todos(&mut store, rows.clone()), 2);
    assert_eq!(merge_todos(&mut store, rows), 0);
}

#[test]
fn versions_compare_time_first() {
    // The version is the pair (updated_at, node_id): 1000 beats 999 whatever the node.
    let mut store = TodoStore::new();
    assert_eq!(merge_todos(&mut store, vec![todo("a", "old", 1000, "n1")]), 1);
    assert_eq!(merge_todos(&mut store, vec![todo("a", "new", 999, "n2")]), 0);
    let a = find(&store.rows(), "a").clone();
    assert_eq!((a.title.as_str(), a.updated_at, a.node_id.as_str()), ("old", 1000, "n1"));
    assert_eq!(merge_todos(&mut store, vec![todo("a", "later", 1001, "m")]), 1);
    assert_eq!(find(&store.rows(), "a").title, "later");
}

#[test]
fn duplicates_in_one_batch_count_each_change() {
    let mut store = TodoStore::new();
    let batch = vec![todo("a", "1", 100, "n"), todo("a", "2", 200, "n"), todo("a", "0", 150, "n")];
    assert_eq!(merge_todos(&mut store, batch), 2);
    assert_eq!(find(&store.rows(), "a").title, "2");
}

#[test]
fn replicas_converge_after_exchange() {
    let mut a = TodoStore::from_rows(vec![
        todo("x", "a-x", 100, "na"),
        todo("y", "a-y", 300, "na"),
        todo("z", "a-z", 50, "na"),
    ])
    .unwrap();
    let mut b = TodoStore::from_rows(vec![
        todo("x", "b-x", 200, "nb"),
        todo("y", "b-y", 250, "nb"),
        todo("w", "b-w", 10, "nb"),
    ])
    .unwrap();
    let from_a = export_todos(&a);
    let from_b = export_todos(&b);
    merge_todos(&mut a, from_b);
    merge_todos(&mut b, from_a);
    let mut ra = a.rows();
    let mut rb = b.rows();
    ra.sort_by(|p, q| p.id.cmp(&q.id));
    rb.sort_by(|p, q| p.id.cmp(&q.id));
    assert_eq!(ra.len(), 4);
    for (p, q) in ra.iter().zip(rb.iter()) {
        assert_eq!((&p.id, &p.title, p.updated_at), (&q.id, &q.title, q.updated_at));
    }
    assert_eq!(find(&ra, "x").title, "b-x");
    assert_eq!(find(&ra, "y").title, "a-y");
}

#[test]
fn merge_order_does_not_matter() {
    let r1 = todo("a", "one", 10, "n1");
    let r2 = todo("a", "two", 20, "n2");
    let mut s1 = TodoStore::new();
    merge_todos(&mut s1, vec![r1.clone(), r2.clone()]);
    let mut s2 = TodoStore::new();
    merge_todos(&mut s2, vec![r2, r1]);
    assert_eq!(s1.rows()[0].title, s2.rows()[0].title);
}

#[test]
fn from_rows_refuses_duplicate_ids() {
    assert!(TodoStore::from_rows(vec![todo("a", "1", 1, "n"), todo("a", "2", 2, "n")]).is_none());
    assert!(TodoStore::from_rows(vec![todo("a", "1", 1, "n"), todo("b", "2", 2, "n")]).is_some());
}

#[test]
fn create_update_delete() {
    let mut store = TodoStore::new();
    let node = "node-1".to_string();
    let t = create_todo_at(&mut store, "id1".to_string(), CreateTodo { title: "milk".into() }, 42, &node)
        .unwrap();
    assert_eq!(t.title, "milk");
    assert!(!t.completed && !t.deleted);
    assert_eq!(t.updated_at, 42);
    assert_eq!(t.node_id, "node-1");
    assert!(matches!(
        create_todo_at(&mut store, "id1".to_string(), CreateTodo { title: "again".into() }, 43, &node),
        Err(TodoError::DuplicateId(ref taken)) if taken == "id1"
    ));
    update_todo_at(&mut store, &"id1".to_string(), UpdateTodo { completed: true }, 50, &node);
    let r = store.rows();
    assert!(r[0].completed);
    assert_eq!(r[0].updated_at, 50);
    update_todo_at(&mut store, &"nope".to_string(), UpdateTodo { completed: true }, 60, &node);
    assert_eq!(store.rows().len(), 1);
    delete_todo_at(&mut store, &"id1".to_string(), 70, &"node-2".to_string());
    let r = store.rows();
    assert!(r[0].deleted);
    assert_eq!(r[0].updated_at, 70);
    assert_eq!(r[0].node_id, "node-2");
    assert!(list_active_todos(&store).is_empty());
    assert_eq!(export_all_data(&store).len(), 1);
}

#[test]
fn active_todos_newest_first() {
    let mut store = TodoStore::new();
    let mut gone = todo("d", "gone", 500, "n");
    gone.deleted = true;
    merge_todos(
        &mut store,
        vec![todo("a", "a", 100, "n"), todo("b", "b", 300, "n"), gone, todo("c", "c", 200, "n")],
    );
    let ids: Vec<String> = list_active_todos(&store).into_iter().map(|t| t.id).collect();
    assert_eq!(ids, vec!["b", "c", "a"]);
}

#[test]
fn delete_my_data_tombstones_everything() {
    let mut store = TodoStore::new();
    merge_todos(&mut store, vec![todo("a", "a", 1, "n"), todo("b", "b", 2, "n")]);
    delete_my_data_at(&mut store, 99, &"me".to_string());
    for t in store.rows() {
        assert!(t.deleted);
        assert_eq!(t.updated_at, 99);
        assert_eq!(t.node_id, "me");
    }
    assert_eq!(store.rows().len(), 2);
}

#[test]
fn tombstone_replicates_over_older_row() {
    let mut remote = TodoStore::new();
    merge_todos(&mut remote, vec![todo("a", "x", 100, "n")]);
    let mut local = TodoStore::new();
    merge_todos(&mut local, vec![todo("a", "x", 100, "n")]);
    delete_todo_at(&mut local, &"a".to_string(), 200, &"n".to_string());
    assert_eq!(merge_todos(&mut remote, export_todos(&local)), 1);
    assert!(remote.rows()[0].deleted);
}

#[test]
fn clock_reads_milliseconds() {
    // 2020-01-01 in milliseconds since the epoch.
    assert!(now().unwrap() > 1_577_836_800_000);
}

#[test]
fn handlers_stamp_the_clock_and_a_fresh_id() {
    let before = now().unwrap();
    let mut store = TodoStore::new();
    let node = "node-1".to_string();
    let t = create_todo(&mut store, CreateTodo { title: "bread".into() }, &node).unwrap();
    assert_eq!(t.id.len(), 36);
    assert_eq!(t.id.as_bytes()[8], b'-');
    assert!(t.updated_at >= before);
    let u = create_todo(&mut store, CreateTodo { title: "eggs".into() }, &node).unwrap();
    assert_ne!(t.id, u.id);
    update_todo(&mut store, &t.id, UpdateTodo { completed: true }, &"node-2".to_string()).unwrap();
    let row = store.rows().into_iter().find(|r| r.id == t.id).unwrap();
    assert!(row.completed);
    assert_eq!(row.node_id, "node-2");
    assert!(row.updated_at >= t.updated_at);
    delete_todo(&mut store, &u.id, &node).unwrap();
    assert_eq!(list_active_todos(&store).len(), 1);
    delete_my_data(&mut store, &node).unwrap();
    assert!(list_active_todos(&store).is_empty());
    assert_eq!(export_all_data(&store).len(), 2);
}

#[test]
fn clock_reading_to_millis() {
    assert_eq!(epoch_millis(Some(1_700_000_000_123)), Some(1_700_000_000_123));
    assert_eq!(epoch_millis(None), None);
}

#[test]
fn replication_reads_only_the_signed_in_user() {
    assert_eq!(replication_reader(None, None), None);
    assert_eq!(replication_reader(None, Some("a".into())), None);
    assert_eq!(replication_reader(Some("a".into()), None), Some("a".to_string()));
    assert_eq!(replication_reader(Some("a".into()), Some("a".into())), Some("a".to_string()));
    assert_eq!(replication_reader(Some("a".into()), Some("b".into())), None);
}

#[test]
fn batches_merge_in_either_order() {
    let a = vec![todo("x", "a1", 5, "n"), todo("y", "a2", 9, "n")];
    let b = vec![todo("x", "b1", 7, "m"), todo("y", "b2", 3, "m")];
    let mut s1 = TodoStore::new();
    merge_todos(&mut s1, a.clone());
    merge_todos(&mut s1, b.clone());
    let mut s2 = TodoStore::new();
    merge_todos(&mut s2, b);
    merge_todos(&mut s2, a);
    assert_eq!(find(&s1.rows(), "x").title, "b1");
    assert_eq!(find(&s2.rows(), "x").title, "b1");
    assert_eq!(find(&s1.rows(), "y").title, "a2");
    assert_eq!(find(&s2.rows(), "y").title, "a2");
}
