use helixite::db::HelixiteBuilder;
use helixite::error::HelixiteError;
use helixite::index::vector::keys::{lnk_key, VectorIndexMeta};
use helixite::index::vector::links::{
    add_link, load_level, load_neighbors, load_vector_bits, prune_links_to, store_entry_point, store_meta,
    store_node_vector,
};
use helixite::index::vector::similarity::SimilarityKind;
use helixite::index::vector::{HnswConfig, VectorIndex};
use helixite::query::filter::PropertyFilter;
use helixite::storage::engine::{Db, ReadTxn as _, Scan, StorageEngine, WriteTxn as _};
use helixite::storage::memory::MemoryStorage;
use helixite::value::{IndexedValue, Value};

fn s(x: &str) -> String {
    x.to_string()
}

#[test]
fn links_are_added_listed_and_pruned() {
    let mut t = MemoryStorage::new().write_txn().unwrap();
    assert_eq!(add_link(&mut t, "L", "p", 0, 1, 2, 2).unwrap(), None);
    assert_eq!(add_link(&mut t, "L", "p", 0, 1, 3, 2).unwrap(), None);
    let listed = add_link(&mut t, "L", "p", 0, 1, 4, 2).unwrap().unwrap();
    let mut sorted = listed.clone();
    sorted.sort();
    assert_eq!(sorted, vec![2, 3, 4]);
    assert_eq!(load_neighbors(&t, "L", "p", 1, 1).unwrap(), Vec::<u64>::new());
    prune_links_to(&mut t, "L", "p", 0, 1, &vec![2, 4]).unwrap();
    let mut left = load_neighbors(&t, "L", "p", 0, 1).unwrap();
    left.sort();
    assert_eq!(left, vec![2, 4]);
    assert!(t.get(Db::VectorIndexes, &lnk_key("L", "p", 0, 1, 3)).unwrap().is_none());
}

#[test]
fn vectors_levels_and_entry_point_are_stored() {
    let mut t = MemoryStorage::new().write_txn().unwrap();
    let bits = vec![1.5f32.to_bits(), (-2.0f32).to_bits()];
    store_node_vector(&mut t, "L", "p", 7, &bits, 3).unwrap();
    assert_eq!(load_vector_bits(&t, "L", "p", 7).unwrap(), bits);
    assert_eq!(load_level(&t, "L", "p", 7).unwrap(), Some(3));
    assert_eq!(load_level(&t, "L", "p", 8).unwrap(), None);
    assert_eq!(load_vector_bits(&t, "L", "p", 8).unwrap_err(), HelixiteError::Storage(s("vector not found")));
    store_entry_point(&mut t, "L", "p", 7).unwrap();
    let ep = t.scan(Db::VectorIndexes, &Scan::Prefix(vec![4]), None).unwrap();
    assert_eq!(ep.len(), 1);
    assert_eq!(ep[0].value, 7u64.to_le_bytes().to_vec());
    let meta = VectorIndexMeta {
        dimension: 2,
        m: 16,
        ef_construction: 200,
        ef_search: 50,
        similarity: SimilarityKind::DotProduct,
        entry_point: Some(7),
        max_level: 3,
    };
    store_meta(&mut t, "L", "p", &meta).unwrap();
    let back = VectorIndex::load_meta(&t, "L", "p").unwrap();
    assert_eq!(back.entry_point, Some(7));
    assert_eq!(back.max_level, 3);
    assert_eq!(back.similarity, SimilarityKind::DotProduct);
}

#[test]
fn db_add_node_and_vector_index_give_back_their_transaction() {
    let storage = MemoryStorage::new();
    let mut db = HelixiteBuilder::new().storage(storage).open("mem").unwrap();
    let v = Value::Vector(vec![1.0f32.to_bits(), 0.0f32.to_bits()]);
    let (txn, id, inserts) = db.add_node(s("Doc"), vec![(s("emb"), v.clone())]).unwrap();
    assert_eq!(id, 1);
    assert!(inserts.is_empty());
    db.storage_mut().commit(txn).unwrap();
    let (txn, inserts) = db.create_vector_index("Doc", "emb", 2, HnswConfig::default()).unwrap();
    assert_eq!(inserts.len(), 1);
    assert_eq!(inserts[0].node_id, 1);
    db.storage_mut().commit(txn).unwrap();
    let (_, id, inserts) = db.add_node(s("Doc"), vec![(s("emb"), v)]).unwrap();
    assert_eq!(id, 2);
    assert_eq!(inserts.len(), 1);
    match db.create_vector_index("Doc", "x", 2, HnswConfig::default().similarity(SimilarityKind::Custom)) {
        Err(err) => assert_eq!(err, HelixiteError::Codec(s("custom similarity cannot be used with persisted indexes"))),
        Ok(_) => panic!("a custom similarity was persisted"),
    }
}

#[test]
fn filters_compare_indexed_values() {
    let thirty = IndexedValue::Int(30);
    let f = |x: PropertyFilter| x.matches_indexed(&thirty);
    assert!(f(PropertyFilter::Eq(s("age"), Value::Int(30))));
    assert!(!f(PropertyFilter::Eq(s("age"), Value::String(s("30")))));
    assert!(f(PropertyFilter::Ne(s("age"), Value::Int(31))));
    assert!(f(PropertyFilter::Gt(s("age"), Value::Int(29))));
    assert!(!f(PropertyFilter::Gt(s("age"), Value::Int(30))));
    assert!(f(PropertyFilter::Gte(s("age"), Value::Int(30))));
    assert!(f(PropertyFilter::Lt(s("age"), Value::Int(31))));
    assert!(f(PropertyFilter::Lte(s("age"), Value::Int(30))));
    assert!(!f(PropertyFilter::Lt(s("age"), Value::String(s("z")))));
    assert!(f(PropertyFilter::In(s("age"), vec![Value::Int(1), Value::Int(30)])));
    assert!(!f(PropertyFilter::In(s("age"), vec![])));
    let zero = IndexedValue::Float(0.0f64.to_bits());
    assert!(PropertyFilter::Eq(s("x"), Value::Float((-0.0f64).to_bits())).matches_indexed(&zero));
    assert!(!PropertyFilter::Eq(s("x"), Value::Float(f64::NAN.to_bits())).matches_indexed(&zero));
    assert!(PropertyFilter::Gt(s("x"), Value::Float((-1.0f64).to_bits())).matches_indexed(&zero));
    assert_eq!(PropertyFilter::In(s("tags"), vec![]).property(), "tags");
}
