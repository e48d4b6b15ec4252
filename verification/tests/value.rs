use arcon_core::backend::{Backend, Handle};
use arcon_core::error::{BackendError, IndexError, StateError};
use arcon_core::index::{key_to_bytes, EagerValue, IndexOps, LazyValue, ValueIndex};

fn fresh() -> Backend {
    Backend::create(String::from("/tmp/state"), String::from("op"))
}

#[test]
fn lazy_put_then_get() {
    let mut b = fresh();
    let mut v: LazyValue<u64> = LazyValue::new("v");
    v.set_key(&mut b, 1);
    assert_eq!(v.put(&mut b, 77), Ok(()));
    assert_eq!(v.get(&b), Ok(Some(77)));
    assert_eq!(v.get(&b), Ok(Some(77)));
}

#[test]
fn eager_put_then_get() {
    let mut b = fresh();
    let mut v: EagerValue<u64> = EagerValue::new("v");
    v.set_key(&mut b, 1);
    assert_eq!(v.put(&mut b, 77), Ok(()));
    assert_eq!(v.get(&b), Ok(Some(77)));
    assert_eq!(v.get(&b), Ok(Some(77)));
}

#[test]
fn put_overwrites() {
    let mut b = fresh();
    let mut lazy: LazyValue<u32> = LazyValue::new("l");
    let mut eager: EagerValue<u32> = EagerValue::new("e");
    lazy.set_key(&mut b, 1);
    eager.set_key(&mut b, 1);
    lazy.put(&mut b, 1).unwrap();
    lazy.put(&mut b, 2).unwrap();
    eager.put(&mut b, 1).unwrap();
    eager.put(&mut b, 2).unwrap();
    assert_eq!(lazy.get(&b), Ok(Some(2)));
    assert_eq!(eager.get(&b), Ok(Some(2)));
}

#[test]
fn nothing_is_stored_at_first() {
    let mut b = fresh();
    let mut lazy: LazyValue<u64> = LazyValue::new("l");
    let mut eager: EagerValue<u64> = EagerValue::new("e");
    lazy.set_key(&mut b, 9);
    eager.set_key(&mut b, 9);
    assert_eq!(lazy.get(&b), Ok(None));
    assert_eq!(eager.get(&b), Ok(None));
    assert_eq!(lazy.take(&mut b), Ok(None));
    assert_eq!(eager.take(&mut b), Ok(None));
}

#[test]
fn operations_before_a_key_is_set_are_refused() {
    let mut b = fresh();
    let mut lazy: LazyValue<u64> = LazyValue::new("l");
    let mut eager: EagerValue<u64> = EagerValue::new("e");
    let no_key = StateError::Index(IndexError::KeyNotSet);
    assert_eq!(lazy.put(&mut b, 1), Err(no_key));
    assert_eq!(lazy.get(&b), Err(no_key));
    assert_eq!(lazy.take(&mut b), Err(no_key));
    assert_eq!(lazy.clear(&mut b), Err(no_key));
    assert_eq!(lazy.rmw(&mut b, |v| v + 1), Err(no_key));
    assert_eq!(eager.put(&mut b, 1), Err(no_key));
    assert_eq!(eager.get(&b), Err(no_key));
    assert_eq!(eager.take(&mut b), Err(no_key));
    assert_eq!(eager.clear(&mut b), Err(no_key));
    assert_eq!(eager.rmw(&mut b, |v| v + 1), Err(no_key));
    assert!(lazy.table(&b).is_err());
    assert!(eager.table(&b).is_err());
    assert_eq!(b.len(), 0);
}

#[test]
fn take_returns_and_clears() {
    let mut b = fresh();
    let mut lazy: LazyValue<u64> = LazyValue::new("l");
    let mut eager: EagerValue<u64> = EagerValue::new("e");
    lazy.set_key(&mut b, 1);
    eager.set_key(&mut b, 1);
    lazy.put(&mut b, 5).unwrap();
    eager.put(&mut b, 6).unwrap();
    assert_eq!(lazy.take(&mut b), Ok(Some(5)));
    assert_eq!(eager.take(&mut b), Ok(Some(6)));
    assert_eq!(lazy.get(&b), Ok(None));
    assert_eq!(eager.get(&b), Ok(None));
}

#[test]
fn clear_removes() {
    let mut b = fresh();
    let mut lazy: LazyValue<u64> = LazyValue::new("l");
    let mut eager: EagerValue<u64> = EagerValue::new("e");
    lazy.set_key(&mut b, 1);
    eager.set_key(&mut b, 1);
    lazy.put(&mut b, 5).unwrap();
    eager.put(&mut b, 6).unwrap();
    eager.persist(&mut b).unwrap();
    assert_eq!(lazy.clear(&mut b), Ok(()));
    assert_eq!(eager.clear(&mut b), Ok(()));
    assert_eq!(lazy.get(&b), Ok(None));
    assert_eq!(eager.get(&b), Ok(None));
    eager.persist(&mut b).unwrap();
    assert_eq!(b.len(), 0);
}

#[test]
fn rmw_starts_from_the_default() {
    let mut b = fresh();
    let mut lazy: LazyValue<u64> = LazyValue::new("l");
    let mut eager: EagerValue<u64> = EagerValue::new("e");
    lazy.set_key(&mut b, 1);
    eager.set_key(&mut b, 1);
    assert_eq!(lazy.rmw(&mut b, |v| v + 10), Ok(()));
    assert_eq!(eager.rmw(&mut b, |v| v + 10), Ok(()));
    assert_eq!(lazy.get(&b), Ok(Some(10)));
    assert_eq!(eager.get(&b), Ok(Some(10)));
    assert_eq!(lazy.rmw(&mut b, |v| v * 3), Ok(()));
    assert_eq!(eager.rmw(&mut b, |v| v * 3), Ok(()));
    assert_eq!(lazy.get(&b), Ok(Some(30)));
    assert_eq!(eager.get(&b), Ok(Some(30)));
}

#[test]
fn keys_keep_apart() {
    let mut b = fresh();
    let mut lazy: LazyValue<u64> = LazyValue::new("l");
    let mut eager: EagerValue<u64> = EagerValue::new("e");
    lazy.set_key(&mut b, 1);
    eager.set_key(&mut b, 1);
    lazy.put(&mut b, 11).unwrap();
    eager.put(&mut b, 11).unwrap();
    lazy.set_key(&mut b, 2);
    eager.set_key(&mut b, 2);
    assert_eq!(lazy.get(&b), Ok(None));
    assert_eq!(eager.get(&b), Ok(None));
    lazy.put(&mut b, 22).unwrap();
    eager.put(&mut b, 22).unwrap();
    lazy.set_key(&mut b, 1);
    eager.set_key(&mut b, 1);
    assert_eq!(lazy.get(&b), Ok(Some(11)));
    assert_eq!(eager.get(&b), Ok(Some(11)));
}

#[test]
fn lazy_writes_reach_the_backend_at_once() {
    let mut b = fresh();
    let mut lazy: LazyValue<u64> = LazyValue::new("l");
    lazy.set_key(&mut b, 3);
    lazy.put(&mut b, 5).unwrap();
    assert_eq!(b.get(&Handle::new("l"), &key_to_bytes(3)), Some(vec![5, 0, 0, 0, 0, 0, 0, 0]));
}

#[test]
fn eager_writes_reach_the_backend_on_persist() {
    let mut b = fresh();
    let mut eager: EagerValue<u64> = EagerValue::new("e");
    eager.set_key(&mut b, 3);
    eager.put(&mut b, 5).unwrap();
    assert_eq!(b.len(), 0);
    assert!(eager.persist(&mut b).is_ok());
    assert_eq!(b.get(&Handle::new("e"), &key_to_bytes(3)), Some(vec![5, 0, 0, 0, 0, 0, 0, 0]));
    assert_eq!(eager.get(&b), Ok(Some(5)));
}

#[test]
fn eager_writes_reach_the_backend_when_the_key_changes() {
    let mut b = fresh();
    let mut eager: EagerValue<u64> = EagerValue::new("e");
    eager.set_key(&mut b, 3);
    eager.put(&mut b, 5).unwrap();
    eager.set_key(&mut b, 4);
    assert_eq!(b.get(&Handle::new("e"), &key_to_bytes(3)), Some(vec![5, 0, 0, 0, 0, 0, 0, 0]));
}

#[test]
fn lazy_persist_changes_nothing() {
    let mut b = fresh();
    let mut lazy: LazyValue<u64> = LazyValue::new("l");
    lazy.set_key(&mut b, 3);
    lazy.put(&mut b, 5).unwrap();
    assert!(lazy.persist(&mut b).is_ok());
    assert_eq!(b.len(), 1);
    assert_eq!(lazy.get(&b), Ok(Some(5)));
}

#[test]
fn bytes_that_do_not_decode_are_an_encoding_error() {
    let mut b = fresh();
    b.put(&Handle::new("v"), &key_to_bytes(1), vec![1, 2, 3]);
    let broken = StateError::Backend(BackendError::Encoding);
    let mut lazy: LazyValue<u64> = LazyValue::new("v");
    let mut eager: EagerValue<u64> = EagerValue::new("v");
    lazy.set_key(&mut b, 1);
    eager.set_key(&mut b, 1);
    assert_eq!(lazy.get(&b), Err(broken));
    assert_eq!(eager.get(&b), Err(broken));
    assert_eq!(lazy.take(&mut b), Err(broken));
    assert_eq!(eager.take(&mut b), Err(broken));
    assert_eq!(lazy.rmw(&mut b, |v| v + 1), Err(broken));
    assert_eq!(eager.rmw(&mut b, |v| v + 1), Err(broken));
    assert_eq!(b.get(&Handle::new("v"), &key_to_bytes(1)), Some(vec![1, 2, 3]));
    assert_eq!(lazy.table(&b).unwrap_err().describe(), "stored bytes do not decode");
    assert_eq!(lazy.put(&mut b, 4), Ok(()));
    assert_eq!(lazy.get(&b), Ok(Some(4)));
}

#[test]
fn the_table_of_a_value_has_one_column() {
    let mut b = fresh();
    let mut lazy: LazyValue<u32> = LazyValue::new("l");
    lazy.set_key(&mut b, 1);
    let empty = lazy.table(&b).unwrap().unwrap();
    assert_eq!(empty.name(), &b"l".to_vec());
    assert_eq!(empty.num_columns(), 1);
    assert_eq!(empty.column_name(0).unwrap(), "value");
    assert_eq!(empty.column(0).unwrap().len(), 0);
    assert!(empty.column(1).is_none());
    assert!(empty.column_name(1).is_none());
    lazy.put(&mut b, 258).unwrap();
    let one = lazy.table(&b).unwrap().unwrap();
    assert_eq!(one.column(0).unwrap(), &vec![vec![2u8, 1, 0, 0]]);
    let mut eager: EagerValue<u32> = EagerValue::new("e");
    eager.set_key(&mut b, 1);
    eager.put(&mut b, 258).unwrap();
    let held = eager.table(&b).unwrap().unwrap();
    assert_eq!(held.column(0).unwrap(), &vec![vec![2u8, 1, 0, 0]]);
    assert_eq!(eager.get(&b), Ok(Some(258)));
}

#[test]
fn value_survives_persist_checkpoint_restore() {
    let mut b = fresh();
    let mut eager: EagerValue<u64> = EagerValue::new("v");
    eager.set_key(&mut b, 1);
    eager.put(&mut b, 5).unwrap();
    eager.persist(&mut b).unwrap();
    let before = eager.table(&b).unwrap().unwrap();
    let snapshot = b.checkpoint(String::from("/tmp/snap"));
    let mut restored = Backend::restore(&snapshot, String::from("/tmp/live"), String::from("op")).unwrap();
    let mut again: EagerValue<u64> = EagerValue::new("v");
    again.set_key(&mut restored, 1);
    assert_eq!(again.get(&restored), Ok(Some(5)));
    let after = again.table(&restored).unwrap().unwrap();
    assert_eq!(after.name(), before.name());
    assert_eq!(after.column(0), before.column(0));
    assert_eq!(after.column_name(0), before.column_name(0));
}

#[test]
fn what_is_not_persisted_is_not_in_the_snapshot() {
    let mut b = fresh();
    let mut eager: EagerValue<u64> = EagerValue::new("v");
    eager.set_key(&mut b, 1);
    eager.put(&mut b, 5).unwrap();
    let snapshot = b.checkpoint(String::from("/tmp/snap"));
    let mut restored = Backend::restore(&snapshot, String::from("/tmp/live"), String::from("op")).unwrap();
    let mut again: EagerValue<u64> = EagerValue::new("v");
    again.set_key(&mut restored, 1);
    assert_eq!(again.get(&restored), Ok(None));
}
