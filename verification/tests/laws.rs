use helixite::decimal::parse_u64;
use helixite::query::pagination::Cursor;
use helixite::index::vector::similarity::SimilarityKind;
use helixite::error::HelixiteError;
use helixite::mutation::{apply_ops, MutOp};
use helixite::query::traversal::adjacent_edge_ids;
use helixite::edge::Direction;
use helixite::storage::engine::{Db, ReadTxn as _, Scan, StorageEngine, WriteTxn as _};
use helixite::storage::memory::MemoryStorage;
use helixite::txn::WriteTxn;
use helixite::value::{IndexedValue, Value};

fn s(x: &str) -> String {
    x.to_string()
}

#[test]
fn changes_in_two_steps_equal_changes_at_once() {
    let first = || vec![MutOp::SetLabel(s("B")), MutOp::SetProperty(s("x"), Value::Int(1))];
    let second = || vec![MutOp::RemoveProperty(s("y")), MutOp::SetProperty(s("x"), Value::Int(2))];
    let start = vec![(s("y"), Value::Bool(true))];

    let (mut l1, mut p1) = (s("A"), start.clone());
    apply_ops(&mut l1, &mut p1, &first());
    apply_ops(&mut l1, &mut p1, &second());

    let (mut l2, mut p2) = (s("A"), start);
    let mut all = first();
    all.extend(second());
    apply_ops(&mut l2, &mut p2, &all);

    assert_eq!(l1, l2);
    assert_eq!(p1, p2);
    assert_eq!(l1, "B");
    assert_eq!(p1, vec![(s("x"), Value::Int(2))]);
}

#[test]
fn a_set_property_reads_back_and_a_removed_one_is_gone() {
    let (mut l, mut p) = (s("A"), vec![(s("k"), Value::Int(1))]);
    apply_ops(&mut l, &mut p, &vec![MutOp::SetProperty(s("k"), Value::String(s("v")))]);
    assert_eq!(p, vec![(s("k"), Value::String(s("v")))]);
    apply_ops(&mut l, &mut p, &vec![MutOp::RemoveProperty(s("k"))]);
    assert!(p.is_empty());
}

#[test]
fn index_keys_order_as_values_do() {
    let key = |v: Value| v.to_index_key().unwrap();
    assert!(key(Value::Int(-5)) < key(Value::Int(3)));
    assert!(key(Value::Int(i64::MIN)) < key(Value::Int(i64::MAX)));
    assert!(key(Value::Float((-1.5f64).to_bits())) < key(Value::Float(2.0f64.to_bits())));
    assert!(key(Value::Float((-2.0f64).to_bits())) < key(Value::Float((-1.0f64).to_bits())));
    assert!(key(Value::String(s("apple"))) < key(Value::String(s("banana"))));
    assert!(key(Value::Bool(false)) < key(Value::Bool(true)));
    assert!(Value::Float(f64::NAN.to_bits()).to_index_key().is_none());
    assert!(Value::Vector(vec![]).to_index_key().is_none());
}

#[test]
fn index_bytes_read_back() {
    for v in [
        IndexedValue::Int(-7),
        IndexedValue::Float(3.25f64.to_bits()),
        IndexedValue::String(s("héllo")),
        IndexedValue::Bool(true),
        IndexedValue::Bytes(vec![0, 255, 3]),
    ] {
        assert_eq!(IndexedValue::from_bytes(&v.to_bytes()), Some(v));
    }
}

#[test]
fn numbers_print_and_parse_back() {
    for n in [0u64, 7, 42, 1_000_000, u64::MAX] {
        let text = Cursor::encode_edge(n);
        assert_eq!(text, format!("e:{n}"));
        assert_eq!(parse_u64(&text.as_bytes()[2..]), Some(n));
    }
    assert_eq!(
        SimilarityKind::from_byte(9).unwrap_err(),
        HelixiteError::Codec("unknown similarity kind: 9".to_string())
    );
    assert_eq!(SimilarityKind::from_byte(2).unwrap(), SimilarityKind::Euclidean);
    assert_eq!(parse_u64(b"12x"), None);
    assert_eq!(parse_u64(b""), None);
}

#[test]
fn keys_put_then_deleted_leave_the_store_as_it_was() {
    let mut t = MemoryStorage::new().write_txn().unwrap();
    t.put(Db::Metadata, b"keep", b"1").unwrap();
    let before = t.scan(Db::Metadata, &Scan::All, None).unwrap();
    for k in [b"a".as_slice(), b"b".as_slice()] {
        t.put(Db::Properties, k, &[]).unwrap();
    }
    for k in [b"a".as_slice(), b"b".as_slice()] {
        t.delete(Db::Properties, k).unwrap();
    }
    assert_eq!(t.scan(Db::Metadata, &Scan::All, None).unwrap(), before);
    assert!(t.scan(Db::Properties, &Scan::All, None).unwrap().is_empty());
}

#[test]
fn an_added_edge_is_traversed_and_a_deleted_one_is_not() {
    let storage = MemoryStorage::new();
    let mut txn = WriteTxn::new(storage.write_txn().unwrap());
    let a = txn.add_node(s("User"), vec![]).unwrap().0;
    let b = txn.add_node(s("User"), vec![]).unwrap().0;
    let e = txn.add_edge(a, b, s("knows"), vec![]).unwrap();
    let t = txn.into_inner();
    assert_eq!(adjacent_edge_ids(&t, a, Direction::Out, Some("knows"), None).unwrap(), vec![e]);
    assert_eq!(adjacent_edge_ids(&t, b, Direction::In, Some("knows"), None).unwrap(), vec![e]);
    assert_eq!(adjacent_edge_ids(&t, a, Direction::Out, None, None).unwrap(), vec![e]);
    let mut txn = WriteTxn::new(t);
    txn.delete_edge(e).unwrap();
    let t = txn.into_inner();
    assert!(adjacent_edge_ids(&t, a, Direction::Out, Some("knows"), None).unwrap().is_empty());
    assert!(adjacent_edge_ids(&t, b, Direction::In, Some("knows"), None).unwrap().is_empty());
}

#[test]
fn a_relabelled_edge_is_traversed_under_its_new_label_only() {
    let storage = MemoryStorage::new();
    let mut txn = WriteTxn::new(storage.write_txn().unwrap());
    let a = txn.add_node(s("User"), vec![]).unwrap().0;
    let b = txn.add_node(s("User"), vec![]).unwrap().0;
    let e = txn.add_edge(a, b, s("knows"), vec![]).unwrap();
    txn.edge(e).set_label(s("likes")).apply().unwrap();
    let t = txn.into_inner();
    assert_eq!(adjacent_edge_ids(&t, a, Direction::Out, Some("likes"), None).unwrap(), vec![e]);
    assert_eq!(adjacent_edge_ids(&t, b, Direction::In, Some("likes"), None).unwrap(), vec![e]);
    assert!(adjacent_edge_ids(&t, a, Direction::Out, Some("knows"), None).unwrap().is_empty());
    assert!(adjacent_edge_ids(&t, b, Direction::In, Some("knows"), None).unwrap().is_empty());
}
