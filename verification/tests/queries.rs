use helixite::db::{Helixite, HelixiteBuilder};
use helixite::error::HelixiteError;
use helixite::query::edges::EdgeQuery;
use helixite::query::pagination::Cursor;
use helixite::stats::{GraphStats, LabelStats};
use helixite::storage::engine::StorageEngine;
use helixite::storage::memory::MemoryStorage;
use helixite::txn::WriteTxn;
use helixite::value::Value;

fn s(x: &str) -> String {
    x.to_string()
}

fn props(pairs: &[(&str, Value)]) -> Vec<(String, Value)> {
    pairs.iter().map(|(k, v)| (k.to_string(), v.clone())).collect()
}

/// Users 1..=3 and a City 4; 1 knows 2, 1 knows 3, 2 likes 1, 1 lives_in 4.
fn sample() -> Helixite<MemoryStorage> {
    let mut storage = MemoryStorage::new();
    let mut txn = WriteTxn::new(storage.write_txn().unwrap());
    let a = txn.add_node(s("User"), props(&[("name", Value::String(s("Alice"))), ("age", Value::Int(30))])).unwrap().0;
    let b = txn.add_node(s("User"), props(&[("name", Value::String(s("Bob"))), ("age", Value::Int(25))])).unwrap().0;
    let c = txn.add_node(s("User"), props(&[("name", Value::String(s("Carol"))), ("age", Value::Int(30))])).unwrap().0;
    let d = txn.add_node(s("City"), props(&[("name", Value::String(s("Paris")))])).unwrap().0;
    txn.add_edge(a, b, s("knows"), props(&[("since", Value::Int(2020))])).unwrap();
    txn.add_edge(a, c, s("knows"), props(&[("since", Value::Int(2021))])).unwrap();
    txn.add_edge(b, a, s("likes"), vec![]).unwrap();
    txn.add_edge(a, d, s("lives_in"), vec![]).unwrap();
    storage.commit(txn.into_inner()).unwrap();
    HelixiteBuilder::new().storage(storage).open("mem").unwrap()
}

#[test]
fn nodes_by_label_are_ascending() {
    let db = sample();
    assert_eq!(db.nodes().ids().unwrap(), vec![1, 2, 3, 4]);
    assert_eq!(db.nodes().label(s("User")).ids().unwrap(), vec![1, 2, 3]);
    assert_eq!(db.nodes().label(s("City")).count().unwrap(), 1);
    assert_eq!(db.nodes().label(s("Nobody")).count().unwrap(), 0);
    let users = db.nodes().label(s("User")).collect().unwrap();
    assert_eq!(users.iter().map(|n| n.id).collect::<Vec<_>>(), vec![1, 2, 3]);
}

#[test]
fn node_filters_need_a_label_and_an_index() {
    let mut db = sample();
    let err = db.nodes().where_eq(s("age"), Value::Int(30)).ids().unwrap_err();
    assert_eq!(err, HelixiteError::IndexNotFound(s("property filter requires a label")));
    let err = db.nodes().label(s("User")).where_eq(s("age"), Value::Int(30)).ids().unwrap_err();
    assert_eq!(err, HelixiteError::IndexNotFound(s("no property index for User::age")));

    db.indexes().nodes().create_property("User", "age").unwrap();
    db.indexes().nodes().create_property("User", "name").unwrap();
    assert_eq!(db.nodes().label(s("User")).where_eq(s("age"), Value::Int(30)).ids().unwrap(), vec![1, 3]);
    let both = db
        .nodes()
        .label(s("User"))
        .where_eq(s("age"), Value::Int(30))
        .where_eq(s("name"), Value::String(s("Carol")))
        .ids()
        .unwrap();
    assert_eq!(both, vec![3]);
    assert_eq!(db.nodes().label(s("User")).where_eq(s("age"), Value::Int(99)).count().unwrap(), 0);
}

#[test]
fn search_results_keep_order_and_limit() {
    let mut db = sample();
    db.indexes().nodes().create_property("User", "age").unwrap();
    let storage = db.storage();
    let txn = storage.read_txn().unwrap();
    let q = db.nodes().label(s("User"));
    assert_eq!(q.search_breadth(5), 5);
    assert_eq!(q.retain_search_results(&txn, vec![4, 2, 9, 1], 2).unwrap(), vec![4, 2]);
    let q = db.nodes().label(s("User")).where_eq(s("age"), Value::Int(30));
    assert_eq!(q.search_breadth(5), 50);
    assert_eq!(q.retain_search_results(&txn, vec![4, 3, 2, 1], 5).unwrap(), vec![3, 1]);
    let q = db.nodes();
    assert_eq!(
        q.retain_search_results(&txn, vec![1], 1).unwrap_err(),
        HelixiteError::Storage(s("vector search requires a label"))
    );
}

#[test]
fn edge_query_by_label_and_limit() {
    let db = sample();
    let storage = db.storage();
    assert_eq!(EdgeQuery::new(storage).ids().unwrap(), vec![1, 2, 3, 4]);
    assert_eq!(EdgeQuery::new(storage).label(s("knows")).ids().unwrap(), vec![1, 2]);
    assert_eq!(EdgeQuery::new(storage).label(s("knows")).limit(1).ids().unwrap(), vec![1]);
    assert_eq!(EdgeQuery::new(storage).limit(0).ids().unwrap(), Vec::<u64>::new());
    assert_eq!(EdgeQuery::new(storage).count().unwrap(), 4);
    let first = EdgeQuery::new(storage).label(s("likes")).first().unwrap().unwrap();
    assert_eq!((first.from, first.to), (2, 1));
    assert!(EdgeQuery::new(storage).label(s("hates")).first().unwrap().is_none());
    let edges = EdgeQuery::new(storage).label(s("knows")).collect().unwrap();
    assert_eq!(edges.iter().map(|e| e.to).collect::<Vec<_>>(), vec![2, 3]);
}

#[test]
fn edge_query_filters_use_the_index() {
    let mut db = sample();
    let err = EdgeQuery::new(db.storage()).eq(s("since"), Value::Int(2020)).ids().unwrap_err();
    assert_eq!(err, HelixiteError::IndexNotFound(s("edge property filter requires a label")));
    let err = EdgeQuery::new(db.storage()).label(s("knows")).eq(s("since"), Value::Int(2020)).ids().unwrap_err();
    assert_eq!(err, HelixiteError::IndexNotFound(s("no edge property index for knows::since")));
    db.indexes().edges().create_property("knows", "since").unwrap();
    let ids = EdgeQuery::new(db.storage()).label(s("knows")).eq(s("since"), Value::Int(2021)).ids().unwrap();
    assert_eq!(ids, vec![2]);
    let none = EdgeQuery::new(db.storage()).label(s("knows")).eq(s("since"), Value::Int(1999)).count().unwrap();
    assert_eq!(none, 0);
    let err = EdgeQuery::new(db.storage())
        .label(s("knows"))
        .eq(s("since"), Value::Int(1999))
        .eq(s("weight"), Value::Int(1))
        .ids()
        .unwrap_err();
    assert_eq!(err, HelixiteError::IndexNotFound(s("no edge property index for knows::weight")));
    let nan = Value::Float(f64::NAN.to_bits());
    let ids = EdgeQuery::new(db.storage()).label(s("knows")).eq(s("since"), nan).eq(s("weight"), Value::Int(1)).ids().unwrap();
    assert!(ids.is_empty());
}

#[test]
fn edge_query_pages() {
    let db = sample();
    let storage = db.storage();
    let page = EdgeQuery::new(storage).page(3).unwrap();
    assert_eq!(page.items.iter().map(|e| e.id).collect::<Vec<_>>(), vec![1, 2, 3]);
    assert_eq!(page.next_cursor, Some(s("e:3")));
    let rest = EdgeQuery::new(storage).after(s("e:3")).page(3).unwrap();
    assert_eq!(rest.items.iter().map(|e| e.id).collect::<Vec<_>>(), vec![4]);
    assert_eq!(rest.next_cursor, None);
    assert_eq!(
        EdgeQuery::new(storage).limit(2).page(3).unwrap_err(),
        HelixiteError::InvalidConfig(s("limit() cannot be used with page()"))
    );
    assert_eq!(
        EdgeQuery::new(storage).page(0).unwrap_err(),
        HelixiteError::InvalidConfig(s("page size must be greater than 0"))
    );
    assert_eq!(
        EdgeQuery::new(storage).after(s("e:3")).ids().unwrap_err(),
        HelixiteError::InvalidConfig(s("after() requires page()"))
    );
    assert!(matches!(EdgeQuery::new(storage).after(s("n:3")).page(2), Err(HelixiteError::InvalidCursor(_))));
    assert_eq!(
        EdgeQuery::new(storage).after(s("e:77")).page(2).unwrap_err(),
        HelixiteError::InvalidCursor(s("cursor not found in result set"))
    );
}

#[test]
fn traversal_follows_edges_both_ways() {
    let db = sample();
    let out: Vec<u64> = db.node(1).outgoing(s("knows")).nodes().unwrap().iter().map(|n| n.id).collect();
    assert_eq!(out, vec![2, 3]);
    let incoming: Vec<u64> = db.node(1).incoming(s("likes")).nodes().unwrap().iter().map(|n| n.id).collect();
    assert_eq!(incoming, vec![2]);
    assert_eq!(db.node(1).outgoing_any().count().unwrap(), 3);
    assert_eq!(db.node(1).incoming_any().count().unwrap(), 1);
    assert_eq!(db.node(4).outgoing_any().count().unwrap(), 0);
    let limited = db.node(1).outgoing(s("knows")).limit(0).edges().unwrap();
    assert_eq!(limited.len(), 1);
    let first = db.node(1).outgoing(s("lives_in")).first_node().unwrap().unwrap();
    assert_eq!(first.label, "City");
}

#[test]
fn traversal_pages_continue_after_cursor() {
    let db = sample();
    let page = db.node(1).outgoing_any().edges_page(2).unwrap();
    assert_eq!(page.items.len(), 2);
    let cursor = page.next_cursor.clone().unwrap();
    let rest = db.node(1).outgoing_any().after(cursor).edges_page(2).unwrap();
    assert_eq!(rest.items.len(), 1);
    assert_eq!(rest.next_cursor, None);
    let mut seen: Vec<u64> = page.items.iter().chain(rest.items.iter()).map(|e| e.id).collect();
    seen.sort();
    assert_eq!(seen, vec![1, 2, 4]);
}

#[test]
fn cursor_text_round_trips() {
    assert_eq!(Cursor::encode_edge(42), "e:42");
    assert_eq!(Cursor::decode_edge("e:42").unwrap(), Cursor::Edge(42));
    assert_eq!(Cursor::encode_node(7), "n:7");
    assert_eq!(Cursor::decode_node("n:7").unwrap(), Cursor::Node(7));
    assert!(matches!(Cursor::decode_node("e:7"), Err(HelixiteError::InvalidCursor(_))));
}

#[test]
fn node_and_edge_changes_in_a_transaction() {
    let storage = MemoryStorage::new();
    let mut txn = WriteTxn::new(storage.write_txn().unwrap());
    let a = txn.add_node(s("User"), props(&[("tmp", Value::Int(1))])).unwrap().0;
    let b = txn.add_node(s("User"), vec![]).unwrap().0;
    let e = txn.add_edge(a, b, s("knows"), vec![]).unwrap();
    let inserts = txn
        .node(a)
        .set_label(s("Admin"))
        .remove_property(s("tmp"))
        .set_property(s("level"), Value::Int(2))
        .apply()
        .unwrap();
    assert!(inserts.is_empty());
    txn.edge(e).set_property(s("w"), Value::Int(9)).apply().unwrap();
    let n = txn.get_node(a).unwrap();
    assert_eq!(n.label, "Admin");
    assert_eq!(n.properties, props(&[("level", Value::Int(2))]));
    let edge = txn.get_edge(e).unwrap();
    assert_eq!(edge.properties, props(&[("w", Value::Int(9))]));
    assert_eq!(txn.node(99).set_label(s("X")).apply().unwrap_err(), HelixiteError::NodeNotFound(99));
}

#[test]
fn node_command_gives_back_the_open_transaction() {
    let mut db = sample();
    let (txn, inserts) = db.node_mut(2).replace_properties(props(&[("nick", Value::String(s("B")))])).apply().unwrap();
    assert!(inserts.is_empty());
    db.storage_mut().commit(txn).unwrap();
    let n = db.get_node(2).unwrap();
    assert_eq!(n.properties, props(&[("nick", Value::String(s("B")))]));
    db.edge_mut(3).set_label(s("admires")).apply().unwrap();
    assert_eq!(db.get_edge(3).unwrap().label, "admires");
    assert_eq!(db.node(2).outgoing(s("admires")).count().unwrap(), 1);
}

#[test]
fn stats_count_labels_in_order() {
    let mut db = sample();
    db.indexes().nodes().create_property("User", "name").unwrap();
    db.indexes().nodes().create_property("User", "age").unwrap();
    db.indexes().nodes().create_property("City", "name").unwrap();
    db.indexes().edges().create_property("knows", "since").unwrap();
    let st = GraphStats::load(db.storage()).unwrap();
    assert_eq!(st.node_count, 4);
    assert_eq!(st.edge_count, 4);
    let row = |l: &str, n: usize, e: usize| LabelStats { label: s(l), node_count: n, edge_count: e };
    assert_eq!(
        st.labels,
        vec![row("City", 1, 0), row("User", 3, 0), row("knows", 0, 2), row("likes", 0, 1), row("lives_in", 0, 1)]
    );
    assert_eq!(
        st.indexes.node_properties,
        vec![(s("City"), vec![s("name")]), (s("User"), vec![s("age"), s("name")])]
    );
    assert_eq!(st.indexes.edge_properties, vec![(s("knows"), vec![s("since")])]);
}

#[test]
fn stats_of_an_empty_store() {
    let storage = MemoryStorage::new();
    let st = GraphStats::load(&storage).unwrap();
    assert_eq!((st.node_count, st.edge_count), (0, 0));
    assert!(st.labels.is_empty());
    assert!(st.indexes.node_properties.is_empty());
}

#[test]
fn changed_node_reads_back_with_sorted_names() {
    let mut db = sample();
    let (txn, _) = db
        .node_mut(1)
        .set_property(s("zeta"), Value::Int(1))
        .set_property(s("alpha"), Value::Bool(true))
        .remove_property(s("age"))
        .apply()
        .unwrap();
    db.storage_mut().commit(txn).unwrap();
    let n = db.get_node(1).unwrap();
    assert_eq!(
        n.properties,
        props(&[("alpha", Value::Bool(true)), ("name", Value::String(s("Alice"))), ("zeta", Value::Int(1))])
    );
    db.edge_mut(1).set_property(s("b"), Value::Int(2)).set_property(s("a"), Value::Int(1)).apply().unwrap();
    let e = db.get_edge(1).unwrap();
    assert_eq!(e.properties, props(&[("a", Value::Int(1)), ("b", Value::Int(2)), ("since", Value::Int(2020))]));
}

#[test]
fn successive_node_ids_count_up() {
    let storage = MemoryStorage::new();
    let mut txn = WriteTxn::new(storage.write_txn().unwrap());
    let a = txn.add_node(s("A"), vec![]).unwrap().0;
    let b = txn.add_node(s("B"), vec![]).unwrap().0;
    let c = txn.add_node(s("C"), vec![]).unwrap().0;
    assert_eq!((a, b, c), (1, 2, 3));
}
