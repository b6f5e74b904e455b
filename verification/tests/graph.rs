use helixite::index::codec::{KeyBuilder, KeyReader};
use helixite::query::pagination::{Cursor, CursorKind, Page};
use helixite::db::{HelixiteBuilder, IndexManager};
use helixite::error::HelixiteError;
use helixite::index::property_indexes::NodePropertyIndexes;
use helixite::index::properties::NodePropertyIndex;
use helixite::index::vector::keys::{lvl_key, lnk_key, meta_key, vec_key, VectorIndexMeta};
use helixite::index::vector::similarity::SimilarityKind;
use helixite::index::vector::{HnswConfig, VectorIndex};
use helixite::mutation::MutOp;
use helixite::node::Node;
use helixite::record::write_value;
use helixite::storage::engine::{Db, ReadTxn as _, Scan, StorageEngine, WriteTxn as _};
use helixite::storage::memory::MemoryStorage;
use helixite::txn::WriteTxn;
use helixite::value::Value;

fn s(x: &str) -> String {
    x.to_string()
}

fn props(pairs: &[(&str, Value)]) -> Vec<(String, Value)> {
    pairs.iter().map(|(k, v)| (k.to_string(), v.clone())).collect()
}

fn get_prop<'a>(p: &'a [(String, Value)], name: &str) -> Option<&'a Value> {
    p.iter().find(|(k, _)| k == name).map(|(_, v)| v)
}

#[test]
fn add_node_then_read_it_back() {
    let mut storage = MemoryStorage::new();
    let mut txn = WriteTxn::new(storage.write_txn().unwrap());
    let (id, inserts) = txn
        .add_node(s("User"), props(&[("name", Value::String(s("Alice"))), ("age", Value::Int(30))]))
        .unwrap();
    assert_eq!(id, 1);
    assert!(inserts.is_empty());
    let node = txn.get_node(id).unwrap();
    assert_eq!(node.id, 1);
    assert_eq!(node.label, "User");
    assert_eq!(get_prop(&node.properties, "name"), Some(&Value::String(s("Alice"))));
    assert_eq!(get_prop(&node.properties, "age"), Some(&Value::Int(30)));
    storage.commit(txn.into_inner()).unwrap();

    let db = HelixiteBuilder::new().storage(storage).open("mem").unwrap();
    let node = db.get_node(1).unwrap();
    assert_eq!(node.label, "User");
    assert_eq!(db.path(), "mem");
}

#[test]
fn later_pair_wins_and_names_are_unique() {
    let storage = MemoryStorage::new();
    let mut txn = WriteTxn::new(storage.write_txn().unwrap());
    let (id, _) = txn
        .add_node(s("User"), props(&[("x", Value::Int(1)), ("y", Value::Bool(true)), ("x", Value::Int(2))]))
        .unwrap();
    let node = txn.get_node(id).unwrap();
    assert_eq!(node.properties.len(), 2);
    assert_eq!(get_prop(&node.properties, "x"), Some(&Value::Int(2)));
}

#[test]
fn properties_come_back_in_name_order() {
    let storage = MemoryStorage::new();
    let mut txn = WriteTxn::new(storage.write_txn().unwrap());
    let (id, _) = txn
        .add_node(s("User"), props(&[("zeta", Value::Int(1)), ("alpha", Value::Int(2)), ("mid", Value::Int(3))]))
        .unwrap();
    let node = txn.get_node(id).unwrap();
    let names: Vec<&str> = node.properties.iter().map(|(k, _)| k.as_str()).collect();
    assert_eq!(names, vec!["alpha", "mid", "zeta"]);
    txn.apply_node_changes(id, &vec![MutOp::SetProperty(s("beta"), Value::Bool(true)), MutOp::RemoveProperty(s("mid"))])
        .unwrap();
    let node = txn.get_node(id).unwrap();
    let names: Vec<&str> = node.properties.iter().map(|(k, _)| k.as_str()).collect();
    assert_eq!(names, vec!["alpha", "beta", "zeta"]);
}

#[test]
fn ids_count_up_from_one() {
    let storage = MemoryStorage::new();
    let mut txn = WriteTxn::new(storage.write_txn().unwrap());
    let a = txn.add_node(s("A"), vec![]).unwrap().0;
    let b = txn.add_node(s("A"), vec![]).unwrap().0;
    let c = txn.add_node(s("B"), vec![]).unwrap().0;
    assert_eq!((a, b, c), (1, 2, 3));
    let e1 = txn.add_edge(a, b, s("knows"), vec![]).unwrap();
    let e2 = txn.add_edge(b, c, s("knows"), vec![]).unwrap();
    assert_eq!((e1, e2), (1, 2));
}

#[test]
fn missing_node_is_not_found() {
    let storage = MemoryStorage::new();
    let db = HelixiteBuilder::new().storage(storage).open("mem").unwrap();
    assert_eq!(db.get_node(7).unwrap_err(), HelixiteError::NodeNotFound(7));
    assert_eq!(db.get_edge(9).unwrap_err(), HelixiteError::EdgeNotFound(9));
}

#[test]
fn edge_needs_both_ends() {
    let storage = MemoryStorage::new();
    let mut txn = WriteTxn::new(storage.write_txn().unwrap());
    let a = txn.add_node(s("A"), vec![]).unwrap().0;
    assert_eq!(txn.add_edge(a, 42, s("knows"), vec![]).unwrap_err(), HelixiteError::NodeNotFound(42));
    assert_eq!(txn.add_edge(41, a, s("knows"), vec![]).unwrap_err(), HelixiteError::NodeNotFound(41));
}

#[test]
fn add_edge_then_read_and_delete() {
    let mut storage = MemoryStorage::new();
    let mut txn = WriteTxn::new(storage.write_txn().unwrap());
    let a = txn.add_node(s("User"), vec![]).unwrap().0;
    let b = txn.add_node(s("User"), vec![]).unwrap().0;
    storage.commit(txn.into_inner()).unwrap();
    let mut db = HelixiteBuilder::new().storage(storage).open("mem").unwrap();
    let e = db.add_edge(a, b, s("knows"), props(&[("since", Value::Int(2024))])).unwrap();
    let edge = db.get_edge(e).unwrap();
    assert_eq!((edge.from, edge.to), (a, b));
    assert_eq!(edge.label, "knows");
    assert_eq!(get_prop(&edge.properties, "since"), Some(&Value::Int(2024)));

    let mut txn = WriteTxn::new(db.storage().read_txn().unwrap());
    txn.delete_edge(e).unwrap();
    assert_eq!(txn.get_edge(e).unwrap_err(), HelixiteError::EdgeNotFound(e));
    let t = txn.into_inner();
    let out = t.scan(Db::OutEdges, &Scan::All, None).unwrap();
    assert!(out.is_empty());
    assert_eq!(txn_delete_missing_edge(), HelixiteError::EdgeNotFound(5));
}

fn txn_delete_missing_edge() -> HelixiteError {
    let storage = MemoryStorage::new();
    let mut txn = WriteTxn::new(storage.write_txn().unwrap());
    txn.delete_edge(5).unwrap_err()
}

#[test]
fn delete_node_removes_its_edges() {
    let storage = MemoryStorage::new();
    let mut txn = WriteTxn::new(storage.write_txn().unwrap());
    let a = txn.add_node(s("User"), vec![]).unwrap().0;
    let b = txn.add_node(s("User"), vec![]).unwrap().0;
    let c = txn.add_node(s("User"), vec![]).unwrap().0;
    let e1 = txn.add_edge(a, b, s("knows"), vec![]).unwrap();
    let e2 = txn.add_edge(c, a, s("likes"), vec![]).unwrap();
    let e3 = txn.add_edge(b, c, s("knows"), vec![]).unwrap();
    txn.delete_node(a).unwrap();
    assert_eq!(txn.get_node(a).unwrap_err(), HelixiteError::NodeNotFound(a));
    assert_eq!(txn.get_edge(e1).unwrap_err(), HelixiteError::EdgeNotFound(e1));
    assert_eq!(txn.get_edge(e2).unwrap_err(), HelixiteError::EdgeNotFound(e2));
    assert!(txn.get_edge(e3).is_ok());
    assert!(txn.get_node(b).is_ok());
    let t = txn.into_inner();
    assert_eq!(t.scan(Db::Labels, &Scan::All, None).unwrap().len(), 2);
}

#[test]
fn node_changes_apply_in_order() {
    let storage = MemoryStorage::new();
    let mut txn = WriteTxn::new(storage.write_txn().unwrap());
    let a = txn.add_node(s("User"), props(&[("name", Value::String(s("A"))), ("tmp", Value::Int(1))])).unwrap().0;
    let ops = vec![
        MutOp::SetLabel(s("Admin")),
        MutOp::SetProperty(s("level"), Value::Int(3)),
        MutOp::RemoveProperty(s("tmp")),
        MutOp::SetProperty(s("level"), Value::Int(4)),
    ];
    let inserts = txn.apply_node_changes(a, &ops).unwrap();
    assert!(inserts.is_empty());
    let node = txn.get_node(a).unwrap();
    assert_eq!(node.label, "Admin");
    assert_eq!(get_prop(&node.properties, "level"), Some(&Value::Int(4)));
    assert_eq!(get_prop(&node.properties, "tmp"), None);
    assert_eq!(get_prop(&node.properties, "name"), Some(&Value::String(s("A"))));
    let t = txn.into_inner();
    let labels = t.scan(Db::Labels, &Scan::All, None).unwrap();
    assert_eq!(labels.len(), 1);
    assert_eq!(labels[0].key, helixite::index::labels::LabelIndex::key("Admin", a));
}

#[test]
fn edge_changes_move_adjacency() {
    let storage = MemoryStorage::new();
    let mut txn = WriteTxn::new(storage.write_txn().unwrap());
    let a = txn.add_node(s("User"), vec![]).unwrap().0;
    let b = txn.add_node(s("User"), vec![]).unwrap().0;
    let e = txn.add_edge(a, b, s("knows"), vec![]).unwrap();
    txn.apply_edge_changes(e, &vec![MutOp::SetLabel(s("likes")), MutOp::ReplaceProperties(props(&[("w", Value::Int(5))]))], true)
        .unwrap();
    let edge = txn.get_edge(e).unwrap();
    assert_eq!(edge.label, "likes");
    assert_eq!(edge.properties, props(&[("w", Value::Int(5))]));
    let t = txn.into_inner();
    let out = t.scan(Db::OutEdges, &Scan::All, None).unwrap();
    assert_eq!(out.len(), 1);
    assert_eq!(out[0].key, helixite::index::edges::EdgeIndex::out_key(a, "likes", e));
}

#[test]
fn property_index_create_backfills_and_drop_clears() {
    let mut storage = MemoryStorage::new();
    let mut txn = WriteTxn::new(storage.write_txn().unwrap());
    let a = txn.add_node(s("User"), props(&[("name", Value::String(s("Alice")))])).unwrap().0;
    let _b = txn.add_node(s("User"), props(&[("age", Value::Int(3))])).unwrap().0;
    storage.commit(txn.into_inner()).unwrap();

    IndexManager::new(&mut storage).nodes().create_property("User", "name").unwrap();
    let t = storage.read_txn().unwrap();
    let keys = t.scan(Db::Properties, &Scan::All, None).unwrap();
    assert_eq!(keys.len(), 1);
    assert_eq!(Some(keys[0].key.clone()), NodePropertyIndex::key("User", "name", &Value::String(s("Alice")), a));

    let err = IndexManager::new(&mut storage).nodes().create_property("User", "name").unwrap_err();
    assert_eq!(err, HelixiteError::DuplicateKey(s("node property index User::name already exists")));
    let err = IndexManager::new(&mut storage).nodes().create_property("Ghost", "name").unwrap_err();
    assert_eq!(err, HelixiteError::LabelNotFound(s("Ghost")));

    let mut t = storage.write_txn().unwrap();
    NodePropertyIndexes::drop(&mut t, "User", "name").unwrap();
    assert!(t.scan(Db::Properties, &Scan::All, None).unwrap().is_empty());
    let err = NodePropertyIndexes::drop(&mut t, "User", "name").unwrap_err();
    assert_eq!(err, HelixiteError::IndexNotFound(s("node property index User::name")));
}

#[test]
fn registered_property_is_indexed_on_add() {
    let mut storage = MemoryStorage::new();
    let mut txn = WriteTxn::new(storage.write_txn().unwrap());
    txn.add_node(s("User"), props(&[("name", Value::String(s("Bob")))])).unwrap();
    storage.commit(txn.into_inner()).unwrap();
    IndexManager::new(&mut storage).nodes().create_property("User", "name").unwrap();
    let mut txn = WriteTxn::new(storage.write_txn().unwrap());
    let c = txn.add_node(s("User"), props(&[("name", Value::String(s("Cy")))])).unwrap().0;
    let t = txn.into_inner();
    let keys = t.scan(Db::Properties, &Scan::All, None).unwrap();
    assert_eq!(keys.len(), 2);
    let expected = NodePropertyIndex::key("User", "name", &Value::String(s("Cy")), c).unwrap();
    assert!(keys.iter().any(|e| e.key == expected));
}

#[test]
fn vector_index_meta_and_dimension_check() {
    let mut storage = MemoryStorage::new();
    let mut txn = WriteTxn::new(storage.write_txn().unwrap());
    let v = Value::Vector(vec![1.0f32.to_bits(), 0.0f32.to_bits()]);
    let a = txn.add_node(s("Doc"), props(&[("emb", v.clone())])).unwrap().0;
    storage.commit(txn.into_inner()).unwrap();

    let mut t = storage.write_txn().unwrap();
    let inserts = VectorIndex::create(&mut t, "Doc", "emb", 2, HnswConfig::default()).unwrap();
    assert_eq!(inserts.len(), 1);
    assert_eq!(inserts[0].node_id, a);
    assert_eq!(inserts[0].vector, vec![1.0f32.to_bits(), 0.0f32.to_bits()]);
    let meta = VectorIndex::load_meta(&t, "Doc", "emb").unwrap();
    assert_eq!(meta.dimension, 2);
    assert_eq!(meta.entry_point, None);
    assert_eq!(meta.similarity, SimilarityKind::Cosine);
    let err = VectorIndex::create(&mut t, "Doc", "emb", 2, HnswConfig::default()).unwrap_err();
    assert_eq!(err, HelixiteError::DuplicateKey(s("vector index Doc::emb already exists")));
    let err = VectorIndex::create(&mut t, "Doc", "x", 2, HnswConfig::default().similarity(SimilarityKind::Custom)).unwrap_err();
    assert_eq!(err, HelixiteError::Codec(s("custom similarity cannot be used with persisted indexes")));
    storage.commit(t).unwrap();

    let mut txn = WriteTxn::new(storage.write_txn().unwrap());
    let bad = Value::Vector(vec![1.0f32.to_bits()]);
    let err = txn.add_node(s("Doc"), props(&[("emb", bad)])).unwrap_err();
    assert_eq!(err, HelixiteError::InvalidVectorDim { expected: 2, actual: 1 });
    let (_, inserts) = txn.add_node(s("Doc"), props(&[("emb", v)])).unwrap();
    assert_eq!(inserts.len(), 1);
    assert_eq!(inserts[0].property, "emb");

    let err = VectorIndex::load_meta(&txn.into_inner(), "Doc", "none").unwrap_err();
    assert_eq!(err, HelixiteError::VectorIndexNotFound { label: s("Doc"), property: s("none") });
}

#[test]
fn hnsw_delete_removes_links_and_moves_entry_point() {
    let mut t = MemoryStorage::new().write_txn().unwrap();
    let meta = VectorIndexMeta {
        dimension: 2,
        m: 16,
        ef_construction: 200,
        ef_search: 50,
        similarity: SimilarityKind::Euclidean,
        entry_point: Some(1),
        max_level: 1,
    };
    t.put(Db::VectorIndexes, &meta_key("L", "p"), &meta.serialize()).unwrap();
    for (id, level) in [(1u64, 1u8), (2, 0), (3, 1)] {
        t.put(Db::VectorIndexes, &vec_key("L", "p", id), &[0; 8]).unwrap();
        t.put(Db::VectorIndexes, &lvl_key("L", "p", id), &[level]).unwrap();
    }
    t.put(Db::VectorIndexes, &lnk_key("L", "p", 0, 1, 2), &[]).unwrap();
    t.put(Db::VectorIndexes, &lnk_key("L", "p", 0, 2, 1), &[]).unwrap();
    t.put(Db::VectorIndexes, &lnk_key("L", "p", 1, 3, 1), &[]).unwrap();
    t.put(Db::VectorIndexes, &lnk_key("L", "p", 0, 2, 3), &[]).unwrap();

    VectorIndex::delete(&mut t, "L", "p", 1, &meta).unwrap();
    let links: Vec<_> = t.scan(Db::VectorIndexes, &Scan::Prefix(helixite::index::vector::keys::lnk_index_prefix("L", "p")), None).unwrap();
    assert_eq!(links.len(), 1);
    assert_eq!(links[0].key, lnk_key("L", "p", 0, 2, 3));
    assert!(t.get(Db::VectorIndexes, &vec_key("L", "p", 1)).unwrap().is_none());
    assert!(t.get(Db::VectorIndexes, &lvl_key("L", "p", 1)).unwrap().is_none());
    let new_meta = VectorIndex::load_meta(&t, "L", "p").unwrap();
    assert_eq!(new_meta.entry_point, Some(3));
    assert_eq!(new_meta.max_level, 1);

    VectorIndex::drop(&mut t, "L", "p").unwrap();
    assert!(t.scan(Db::VectorIndexes, &Scan::All, None).unwrap().is_empty());
    let err = VectorIndex::drop(&mut t, "L", "p").unwrap_err();
    assert_eq!(err, HelixiteError::IndexNotFound(s("vector index L::p")));
}

#[test]
fn record_roundtrip_keeps_every_kind() {
    let node = Node {
        id: 9,
        label: s("Thing"),
        properties: props(&[
            ("b", Value::Bool(false)),
            ("f", Value::Float(2.5f64.to_bits())),
            ("i", Value::Int(-5)),
            ("s", Value::String(s("héllo"))),
            ("v", Value::Vector(vec![0.5f32.to_bits(), 7])),
            ("y", Value::Bytes(vec![0, 255]))
        ]),
    };
    let bytes = node.to_record();
    let back = Node::from_record(&bytes).unwrap();
    assert_eq!(back.id, 9);
    assert_eq!(back.label, "Thing");
    assert_eq!(back.properties, node.properties);
    assert!(Node::from_record(&bytes[..bytes.len() - 1]).is_none());
    let mut longer = bytes.clone();
    longer.push(0);
    assert!(Node::from_record(&longer).is_none());
}

#[test]
fn value_record_layout() {
    let b = write_value(helixite::index::codec::KeyBuilder::new(), &Value::Int(-1)).finish();
    assert_eq!(b, vec![1, 0x7f, 0xff, 0xff, 0xff, 0xff, 0xff, 0xff, 0xff]);
    let b = write_value(helixite::index::codec::KeyBuilder::new(), &Value::Bool(true)).finish();
    assert_eq!(b, vec![3, 1]);
}

#[test]
fn hnsw_delete_entry_point_falls_back_to_level_zero_node() {
    let mut t = MemoryStorage::new().write_txn().unwrap();
    let meta = VectorIndexMeta {
        dimension: 2,
        m: 16,
        ef_construction: 200,
        ef_search: 50,
        similarity: SimilarityKind::Euclidean,
        entry_point: Some(1),
        max_level: 1,
    };
    t.put(Db::VectorIndexes, &meta_key("L", "p"), &meta.serialize()).unwrap();
    for (id, level) in [(1u64, 1u8), (2, 0)] {
        t.put(Db::VectorIndexes, &vec_key("L", "p", id), &[0; 8]).unwrap();
        t.put(Db::VectorIndexes, &lvl_key("L", "p", id), &[level]).unwrap();
    }
    VectorIndex::delete(&mut t, "L", "p", 1, &meta).unwrap();
    let after_first = VectorIndex::load_meta(&t, "L", "p").unwrap();
    assert_eq!(after_first.entry_point, Some(2));
    assert_eq!(after_first.max_level, 0);

    VectorIndex::delete(&mut t, "L", "p", 2, &after_first).unwrap();
    let after_last = VectorIndex::load_meta(&t, "L", "p").unwrap();
    assert_eq!(after_last.entry_point, None);
    assert_eq!(after_last.max_level, 0);
}

#[test]
fn committed_delete_is_gone() {
    let mut storage = MemoryStorage::new();
    let mut t = storage.write_txn().unwrap();
    t.put(Db::Metadata, b"k", b"v").unwrap();
    t.put(Db::Metadata, b"kept", b"w").unwrap();
    storage.commit(t).unwrap();

    let mut t = storage.write_txn().unwrap();
    t.delete(Db::Metadata, b"k").unwrap();
    storage.commit(t).unwrap();

    let r = storage.read_txn().unwrap();
    assert_eq!(r.get(Db::Metadata, b"k").unwrap(), None);
    assert_eq!(r.get(Db::Metadata, b"kept").unwrap(), Some(b"w".to_vec()));
}

#[test]
fn record_with_unordered_names_does_not_read() {
    let node = Node { id: 3, label: s("T"), properties: props(&[("b", Value::Int(1)), ("a", Value::Int(2))]) };
    assert!(Node::from_record(&node.to_record()).is_none());
    let sorted = Node { id: 3, label: s("T"), properties: props(&[("a", Value::Int(2)), ("b", Value::Int(1))]) };
    assert_eq!(Node::from_record(&sorted.to_record()).unwrap().properties, sorted.properties);
}

#[test]
fn property_index_create_then_drop_restores_store() {
    let mut storage = MemoryStorage::new();
    let mut txn = WriteTxn::new(storage.write_txn().unwrap());
    txn.add_node(s("User"), props(&[("name", Value::String(s("Alice")))])).unwrap();
    storage.commit(txn.into_inner()).unwrap();
    let before_meta = storage.read_txn().unwrap().scan(Db::Metadata, &Scan::All, None).unwrap();

    IndexManager::new(&mut storage).nodes().create_property("User", "name").unwrap();
    IndexManager::new(&mut storage).nodes().drop_property("User", "name").unwrap();
    let t = storage.read_txn().unwrap();
    assert!(t.scan(Db::Properties, &Scan::All, None).unwrap().is_empty());
    assert_eq!(t.scan(Db::Metadata, &Scan::All, None).unwrap().len(), before_meta.len());
    let err = IndexManager::new(&mut storage).nodes().drop_property("User", "name").unwrap_err();
    assert_eq!(err, HelixiteError::IndexNotFound(s("node property index User::name")));
}

#[test]
fn key_reads_back_part_by_part() {
    let key = KeyBuilder::new().u8(7).str("héllo").bytes(&[1, 2, 3]).u64(42).finish();
    let mut r = KeyReader::new(&key);
    assert_eq!(r.u8(), Some(7));
    assert_eq!(r.str(), Some("héllo".as_bytes()));
    let mut early = KeyReader::new(&key);
    early.u8();
    assert_eq!(early.finish(), None);
    assert_eq!(r.bytes(), Some(&[1u8, 2, 3][..]));
    assert_eq!(r.u64(), Some(42));
    assert_eq!(r.finish(), Some(()));
}

#[test]
fn pages_follow_their_cursors_to_the_end() {
    let ids = vec![5u64, 7, 9, 11, 13];
    let mut all = Vec::new();
    let mut after: Option<Cursor> = None;
    loop {
        let page = Page::from_iter(ids.clone(), 2, after.as_ref(), CursorKind::Edge).unwrap();
        assert!(page.items.len() <= 2);
        all.extend(page.items.iter().copied());
        match page.next_cursor {
            Some(c) => after = Some(Cursor::decode_edge(&c).unwrap()),
            None => break,
        }
    }
    assert_eq!(all, ids);
}

#[test]
fn vector_index_creation_succeeds_then_is_a_duplicate() {
    let mut storage = MemoryStorage::new();
    let mut txn = WriteTxn::new(storage.write_txn().unwrap());
    txn.add_node(s("Doc"), props(&[("emb", Value::Vector(vec![1, 2]))])).unwrap();
    storage.commit(txn.into_inner()).unwrap();
    let (t, inserts) = IndexManager::new(&mut storage).vectors().create("Doc", "emb", 2, HnswConfig::default()).unwrap();
    assert_eq!(inserts.len(), 1);
    storage.commit(t).unwrap();
    match IndexManager::new(&mut storage).vectors().create("Doc", "emb", 2, HnswConfig::default()) {
        Err(err) => assert_eq!(err, HelixiteError::DuplicateKey(s("vector index Doc::emb already exists"))),
        Ok(_) => panic!("a second vector index on the same property was created"),
    }
}
