use kv::storage::{MemTable, Storage};
use kv::value::{Kvpair, Value};

fn test_basi_interface(mut store: impl Storage) {
    let v = store.set("t1", "hello".into(), "world".into());
    assert!(v.unwrap().is_none());

    let v1 = store.set("t1", "hello".into(), "world1".into());
    assert_eq!(v1.unwrap(), Some("world".into()));

    let v = store.get("t1", "hello");
    assert_eq!(v.unwrap(), Some("world1".into()));

    assert_eq!(None, store.get("t1", "hello1").unwrap());
    assert!(store.get("t2", "hello1").unwrap().is_none());

    assert!(store.contains("t1", "hello").unwrap());
    assert!(!store.contains("t1", "hello1").unwrap());
    assert!(!store.contains("t2", "hello").unwrap());

    let v = store.del("t1", "hello");
    assert_eq!(v.unwrap(), Some("world1".into()));

    assert_eq!(None, store.del("t1", "hello1").unwrap());
    assert_eq!(None, store.del("t2", "hello").unwrap());
}

fn test_get_all(mut store: impl Storage) {
    store.set("t2", "k1".into(), "v1".into()).unwrap();
    store.set("t2", "k2".into(), "v2".into()).unwrap();

    let mut data = store.get_all("t2").unwrap();
    data.sort_by(|a, b| a.partial_cmp(b).unwrap());
    assert_eq!(
        data,
        vec![
            Kvpair::new("k1", "v1".into()),
            Kvpair::new("k2", "v2".into()),
        ]
    )
}

fn test_get_iter(mut store: impl Storage) {
    store.set("t2", "k1".into(), "v1".into()).unwrap();
    store.set("t2", "k2".into(), "v2".into()).unwrap();
    let mut it = store.get_iter("t2").unwrap();
    let mut data: Vec<Kvpair> = Vec::new();
    while let Some(p) = it.next() {
        data.push(p);
    }
    data.sort_by(|a, b| a.partial_cmp(b).unwrap());
    assert_eq!(
        data,
        vec![
            Kvpair::new("k1", "v1".into()),
            Kvpair::new("k2", "v2".into()),
        ]
    )
}

#[test]
fn memtable_basic_interface_should_work() {
    let store = MemTable::new();
    test_basi_interface(store);
}

#[test]
fn memtable_get_all_should_work() {
    let store = MemTable::new();
    test_get_all(store);
}

#[test]
fn memtable_iter_should_work() {
    let store = MemTable::new();
    test_get_iter(store);
}

fn test_basi_interface_by_results(mut store: impl Storage) {
    let v = store.set("t1", "hello".into(), "world".into());
    assert!(v.unwrap().is_none());
    let v1 = store.set("t1", "hello".into(), "world1".into());
    assert_eq!(v1, Ok(Some("world".into())));
    let v = store.get("t1", "hello");
    assert_eq!(v, Ok(Some("world1".into())));

    assert_eq!(Ok(None), store.get("t1", "hello1"));
    assert!(store.get("t2", "hello1").unwrap().is_none());

    assert_eq!(store.contains("t1", "hello"), Ok(true));
    assert_eq!(store.contains("t1", "hello1"), Ok(false));
    assert_eq!(store.contains("t2", "hello"), Ok(false));

    let v = store.del("t1", "hello");
    assert_eq!(v, Ok(Some("world1".into())));

    assert_eq!(Ok(None), store.del("t1", "hello1"));
    assert_eq!(Ok(None), store.del("t2", "hello1"));
}

#[test]
fn mod_memtable_basic_interface_should_work() {
    let store = MemTable::new();
    test_basi_interface_by_results(store);
}

#[test]
fn mod_memtable_get_all_should_work() {
    let store = MemTable::new();
    test_get_all(store);
}

#[test]
fn table_isolation_should_hold() {
    let mut store = MemTable::new();
    store.set("t1", "k".into(), "a".into()).unwrap();
    store.set("t2", "k".into(), "b".into()).unwrap();
    assert_eq!(store.get("t1", "k").unwrap(), Some("a".into()));
    assert_eq!(store.get("t2", "k").unwrap(), Some("b".into()));
    store.del("t1", "k").unwrap();
    assert_eq!(store.get("t1", "k").unwrap(), None);
    assert_eq!(store.get("t2", "k").unwrap(), Some("b".into()));
    let all1 = store.get_all("t1").unwrap();
    assert!(all1.is_empty());
}

#[test]
fn set_on_distinct_keys_keeps_both() {
    let mut store = MemTable::new();
    store.set("t", "k1".into(), "v1".into()).unwrap();
    store.set("t", "k2".into(), "v2".into()).unwrap();
    assert_eq!(store.get("t", "k1").unwrap(), Some("v1".into()));
    assert_eq!(store.get("t", "k2").unwrap(), Some("v2".into()));

    let mut other = MemTable::new();
    other.set("t", "k2".into(), "v2".into()).unwrap();
    other.set("t", "k1".into(), "v1".into()).unwrap();
    assert_eq!(other.get("t", "k1").unwrap(), Some("v1".into()));
    assert_eq!(other.get("t", "k2").unwrap(), Some("v2".into()));
}

#[test]
fn set_then_set_returns_first_then_get_sees_second() {
    let mut store = MemTable::new();
    assert_eq!(store.set("t", "k".into(), Value::from(1i64)).unwrap(), None);
    assert_eq!(
        store.set("t", "k".into(), Value::from(2i64)).unwrap(),
        Some(Value::from(1i64))
    );
    assert_eq!(store.get("t", "k").unwrap(), Some(Value::from(2i64)));
    assert_eq!(store.del("t", "k").unwrap(), Some(Value::from(2i64)));
    assert_eq!(store.get("t", "k").unwrap(), None);
}
