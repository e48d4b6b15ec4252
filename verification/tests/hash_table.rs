use arcon_core::backend::{Backend, Handle};
use arcon_core::error::{BackendError, IndexError, StateError};
use arcon_core::index::{key_to_bytes, EagerHashTable, HashTable, IndexOps, MapIndex};

fn fresh() -> Backend {
    Backend::create(String::from("/tmp/state"), String::from("op"))
}

#[test]
fn partitions_of_a_lazy_map_share_nothing() {
    let mut b = fresh();
    let mut k: HashTable<u8, u64> = HashTable::new("k");
    k.set_key(&mut b, 1);
    k.put(&mut b, &b'x', 10).unwrap();
    k.set_key(&mut b, 2);
    assert_eq!(k.get(&b, &b'x'), Ok(None));
    k.set_key(&mut b, 1);
    assert_eq!(k.get(&b, &b'x'), Ok(Some(10)));
}

#[test]
fn partitions_of_an_eager_map_share_nothing() {
    let mut b = fresh();
    let mut k: EagerHashTable<u8, u64> = EagerHashTable::new("k");
    k.set_key(&mut b, 1);
    k.put(&mut b, &b'x', 10).unwrap();
    k.set_key(&mut b, 2);
    assert_eq!(k.get(&b, &b'x'), Ok(None));
    k.set_key(&mut b, 1);
    assert_eq!(k.get(&b, &b'x'), Ok(Some(10)));
}

#[test]
fn map_put_get_take_clear() {
    let mut b = fresh();
    let mut lazy: HashTable<u64, u32> = HashTable::new("l");
    let mut eager: EagerHashTable<u64, u32> = EagerHashTable::new("e");
    lazy.set_key(&mut b, 1);
    eager.set_key(&mut b, 1);
    assert_eq!(lazy.is_empty(&b), Ok(true));
    assert_eq!(eager.is_empty(&b), Ok(true));
    for (k, v) in [(1u64, 10u32), (2, 20), (3, 30), (2, 21)] {
        lazy.put(&mut b, &k, v).unwrap();
        eager.put(&mut b, &k, v).unwrap();
    }
    assert_eq!(lazy.len(&b), Ok(3));
    assert_eq!(eager.len(&b), Ok(3));
    assert_eq!(lazy.get(&b, &2), Ok(Some(21)));
    assert_eq!(eager.get(&b, &2), Ok(Some(21)));
    assert_eq!(lazy.get(&b, &4), Ok(None));
    assert_eq!(eager.get(&b, &4), Ok(None));
    assert_eq!(lazy.take(&mut b, &1), Ok(Some(10)));
    assert_eq!(eager.take(&mut b, &1), Ok(Some(10)));
    assert_eq!(lazy.take(&mut b, &1), Ok(None));
    assert_eq!(eager.take(&mut b, &1), Ok(None));
    assert_eq!(lazy.clear(&mut b, &3), Ok(()));
    assert_eq!(eager.clear(&mut b, &3), Ok(()));
    assert_eq!(lazy.get(&b, &3), Ok(None));
    assert_eq!(eager.get(&b, &3), Ok(None));
    assert_eq!(lazy.len(&b), Ok(1));
    assert_eq!(eager.len(&b), Ok(1));
    assert_eq!(lazy.is_empty(&b), Ok(false));
    assert_eq!(eager.is_empty(&b), Ok(false));
}

#[test]
fn map_rmw_starts_from_the_default() {
    let mut b = fresh();
    let mut lazy: HashTable<u8, u64> = HashTable::new("l");
    let mut eager: EagerHashTable<u8, u64> = EagerHashTable::new("e");
    lazy.set_key(&mut b, 1);
    eager.set_key(&mut b, 1);
    lazy.rmw(&mut b, &7, |v| v + 5).unwrap();
    eager.rmw(&mut b, &7, |v| v + 5).unwrap();
    lazy.rmw(&mut b, &7, |v| v * 2).unwrap();
    eager.rmw(&mut b, &7, |v| v * 2).unwrap();
    assert_eq!(lazy.get(&b, &7), Ok(Some(10)));
    assert_eq!(eager.get(&b, &7), Ok(Some(10)));
    assert_eq!(lazy.len(&b), Ok(1));
    assert_eq!(eager.len(&b), Ok(1));
}

#[test]
fn map_needs_a_key() {
    let mut b = fresh();
    let mut lazy: HashTable<u8, u64> = HashTable::new("l");
    let mut eager: EagerHashTable<u8, u64> = EagerHashTable::new("e");
    let no_key = StateError::Index(IndexError::KeyNotSet);
    assert_eq!(lazy.put(&mut b, &1, 1), Err(no_key));
    assert_eq!(eager.put(&mut b, &1, 1), Err(no_key));
    assert_eq!(lazy.get(&b, &1), Err(no_key));
    assert_eq!(eager.get(&b, &1), Err(no_key));
    assert_eq!(lazy.take(&mut b, &1), Err(no_key));
    assert_eq!(eager.take(&mut b, &1), Err(no_key));
    assert_eq!(lazy.clear(&mut b, &1), Err(no_key));
    assert_eq!(eager.clear(&mut b, &1), Err(no_key));
    assert_eq!(lazy.len(&b), Err(no_key));
    assert_eq!(eager.len(&b), Err(no_key));
    assert_eq!(lazy.is_empty(&b), Err(no_key));
    assert_eq!(eager.is_empty(&b), Err(no_key));
    assert_eq!(lazy.rmw(&mut b, &1, |v| v), Err(no_key));
    assert_eq!(eager.rmw(&mut b, &1, |v| v), Err(no_key));
    assert!(lazy.table(&b).is_err());
    assert!(eager.table(&b).is_err());
}

#[test]
fn eager_map_is_stored_on_persist() {
    let mut b = fresh();
    let mut eager: EagerHashTable<u8, u8> = EagerHashTable::new("m");
    eager.set_key(&mut b, 1);
    eager.put(&mut b, &1, 2).unwrap();
    assert_eq!(b.len(), 0);
    eager.persist(&mut b).unwrap();
    assert_eq!(b.len(), 1);
    let mut lazy: HashTable<u8, u8> = HashTable::new("m");
    lazy.set_key(&mut b, 1);
    assert_eq!(lazy.get(&b, &1), Ok(Some(2)));
    lazy.put(&mut b, &3, 4).unwrap();
    assert_eq!(eager.get(&b, &3), Ok(Some(4)));
}

#[test]
fn a_stored_map_that_does_not_decode_is_an_error() {
    let mut b = fresh();
    b.put(&Handle::new("m"), &key_to_bytes(1), vec![1]);
    let broken = StateError::Backend(BackendError::Encoding);
    let mut lazy: HashTable<u8, u8> = HashTable::new("m");
    let mut eager: EagerHashTable<u8, u8> = EagerHashTable::new("m");
    lazy.set_key(&mut b, 1);
    eager.set_key(&mut b, 1);
    assert_eq!(lazy.put(&mut b, &1, 1), Err(broken));
    assert_eq!(eager.put(&mut b, &1, 1), Err(broken));
    assert_eq!(lazy.get(&b, &1), Err(broken));
    assert_eq!(eager.get(&b, &1), Err(broken));
    assert_eq!(lazy.len(&b), Err(broken));
    assert_eq!(eager.is_empty(&b), Err(broken));
    assert_eq!(eager.rmw(&mut b, &1, |v| v), Err(broken));
    assert_eq!(b.get(&Handle::new("m"), &key_to_bytes(1)), Some(vec![1]));
}

#[test]
fn the_table_of_a_map_has_a_key_and_a_value_column() {
    let mut b = fresh();
    let mut lazy: HashTable<u8, u32> = HashTable::new("l");
    let mut eager: EagerHashTable<u8, u32> = EagerHashTable::new("e");
    lazy.set_key(&mut b, 1);
    eager.set_key(&mut b, 1);
    for (k, v) in [(1u8, 10u32), (2, 20)] {
        lazy.put(&mut b, &k, v).unwrap();
        eager.put(&mut b, &k, v).unwrap();
    }
    let l = lazy.table(&b).unwrap().unwrap();
    let e = eager.table(&b).unwrap().unwrap();
    assert_eq!(l.num_columns(), 2);
    assert_eq!(l.column_name(0).unwrap(), "key");
    assert_eq!(l.column_name(1).unwrap(), "value");
    assert_eq!(l.column(0).unwrap(), &vec![vec![1u8], vec![2u8]]);
    assert_eq!(l.column(1).unwrap(), &vec![vec![10u8, 0, 0, 0], vec![20u8, 0, 0, 0]]);
    assert_eq!(e.column(0), l.column(0));
    assert_eq!(e.column(1), l.column(1));
    assert_eq!(e.name(), &b"e".to_vec());
}

#[test]
fn map_survives_persist_checkpoint_restore() {
    let mut b = fresh();
    let mut eager: EagerHashTable<u64, u64> = EagerHashTable::new("m");
    eager.set_key(&mut b, 1);
    eager.put(&mut b, &5, 50).unwrap();
    eager.set_key(&mut b, 2);
    eager.put(&mut b, &6, 60).unwrap();
    eager.persist(&mut b).unwrap();
    let snapshot = b.checkpoint(String::from("/s"));
    let mut restored = Backend::restore(&snapshot, String::from("/t"), String::from("op")).unwrap();
    let mut again: EagerHashTable<u64, u64> = EagerHashTable::new("m");
    again.set_key(&mut restored, 1);
    assert_eq!(again.get(&restored, &5), Ok(Some(50)));
    assert_eq!(again.get(&restored, &6), Ok(None));
    again.set_key(&mut restored, 2);
    assert_eq!(again.get(&restored, &6), Ok(Some(60)));
}
