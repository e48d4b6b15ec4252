use arcon_core::backend::{Backend, Handle};
use arcon_core::error::{BackendError, IndexError, StateError};
use arcon_core::index::{key_to_bytes, AppenderIndex, EagerAppender, IndexOps, LazyAppender};

fn fresh() -> Backend {
    Backend::create(String::from("/tmp/state"), String::from("op"))
}

#[test]
fn eager_append_then_consume() {
    let mut b = fresh();
    let mut log: EagerAppender<u64> = EagerAppender::new("_appender");
    log.set_key(&mut b, 1);
    log.append(&mut b, 1).unwrap();
    log.append(&mut b, 2).unwrap();
    log.append(&mut b, 3).unwrap();
    assert_eq!(log.len(&b), Ok(3));
    assert_eq!(log.is_empty(&b), Ok(false));
    assert_eq!(log.consume(&mut b), Ok(vec![1, 2, 3]));
    assert_eq!(log.len(&b), Ok(0));
    assert_eq!(log.is_empty(&b), Ok(true));
    assert_eq!(log.consume(&mut b), Ok(vec![]));
}

#[test]
fn lazy_append_then_consume() {
    let mut b = fresh();
    let mut log: LazyAppender<u64> = LazyAppender::new("_appender");
    log.set_key(&mut b, 1);
    log.append(&mut b, 1).unwrap();
    log.append(&mut b, 2).unwrap();
    log.append(&mut b, 3).unwrap();
    assert_eq!(log.len(&b), Ok(3));
    assert_eq!(log.is_empty(&b), Ok(false));
    assert_eq!(log.consume(&mut b), Ok(vec![1, 2, 3]));
    assert_eq!(log.len(&b), Ok(0));
    assert_eq!(log.is_empty(&b), Ok(true));
    assert_eq!(log.consume(&mut b), Ok(vec![]));
    assert_eq!(b.len(), 0);
}

#[test]
fn a_long_run_of_appends_comes_back_in_order() {
    let mut b = fresh();
    let mut eager: EagerAppender<u32> = EagerAppender::new("e");
    let mut lazy: LazyAppender<u32> = LazyAppender::new("l");
    eager.set_key(&mut b, 7);
    lazy.set_key(&mut b, 7);
    let mut expected = Vec::new();
    for i in 0..200u32 {
        eager.append(&mut b, i * 3).unwrap();
        lazy.append(&mut b, i * 3).unwrap();
        expected.push(i * 3);
    }
    assert_eq!(eager.consume(&mut b), Ok(expected.clone()));
    assert_eq!(lazy.consume(&mut b), Ok(expected));
}

#[test]
fn logs_of_keys_keep_apart() {
    let mut b = fresh();
    let mut eager: EagerAppender<u64> = EagerAppender::new("e");
    let mut lazy: LazyAppender<u64> = LazyAppender::new("l");
    eager.set_key(&mut b, 1);
    lazy.set_key(&mut b, 1);
    eager.append(&mut b, 10).unwrap();
    lazy.append(&mut b, 10).unwrap();
    eager.set_key(&mut b, 2);
    lazy.set_key(&mut b, 2);
    assert_eq!(eager.len(&b), Ok(0));
    assert_eq!(lazy.len(&b), Ok(0));
    eager.append(&mut b, 20).unwrap();
    lazy.append(&mut b, 20).unwrap();
    eager.set_key(&mut b, 1);
    lazy.set_key(&mut b, 1);
    eager.append(&mut b, 11).unwrap();
    lazy.append(&mut b, 11).unwrap();
    assert_eq!(eager.consume(&mut b), Ok(vec![10, 11]));
    assert_eq!(lazy.consume(&mut b), Ok(vec![10, 11]));
    eager.set_key(&mut b, 2);
    lazy.set_key(&mut b, 2);
    assert_eq!(eager.consume(&mut b), Ok(vec![20]));
    assert_eq!(lazy.consume(&mut b), Ok(vec![20]));
}

#[test]
fn appender_needs_a_key() {
    let mut b = fresh();
    let mut eager: EagerAppender<u64> = EagerAppender::new("e");
    let mut lazy: LazyAppender<u64> = LazyAppender::new("l");
    let no_key = StateError::Index(IndexError::KeyNotSet);
    assert_eq!(eager.append(&mut b, 1), Err(no_key));
    assert_eq!(lazy.append(&mut b, 1), Err(no_key));
    assert_eq!(eager.consume(&mut b), Err(no_key));
    assert_eq!(lazy.consume(&mut b), Err(no_key));
    assert_eq!(eager.len(&b), Err(no_key));
    assert_eq!(lazy.len(&b), Err(no_key));
    assert_eq!(eager.is_empty(&b), Err(no_key));
    assert_eq!(lazy.is_empty(&b), Err(no_key));
    assert_eq!(eager.table(&b).unwrap_err().describe(), "no key is set");
    assert_eq!(lazy.table(&b).unwrap_err().describe(), "no key is set");
}

#[test]
fn eager_log_is_stored_on_persist_and_read_by_a_lazy_one() {
    let mut b = fresh();
    let mut eager: EagerAppender<u64> = EagerAppender::new("log");
    eager.set_key(&mut b, 1);
    eager.append(&mut b, 4).unwrap();
    eager.append(&mut b, 5).unwrap();
    assert_eq!(b.len(), 0);
    eager.persist(&mut b).unwrap();
    assert_eq!(b.len(), 1);
    let mut lazy: LazyAppender<u64> = LazyAppender::new("log");
    lazy.set_key(&mut b, 1);
    assert_eq!(lazy.len(&b), Ok(2));
    assert_eq!(lazy.consume(&mut b), Ok(vec![4, 5]));
}

#[test]
fn eager_appends_to_what_is_stored() {
    let mut b = fresh();
    let mut lazy: LazyAppender<u64> = LazyAppender::new("log");
    lazy.set_key(&mut b, 1);
    lazy.append(&mut b, 1).unwrap();
    let mut eager: EagerAppender<u64> = EagerAppender::new("log");
    eager.set_key(&mut b, 1);
    assert_eq!(eager.len(&b), Ok(1));
    eager.append(&mut b, 2).unwrap();
    assert_eq!(eager.len(&b), Ok(2));
    assert_eq!(eager.consume(&mut b), Ok(vec![1, 2]));
    eager.persist(&mut b).unwrap();
    assert_eq!(b.len(), 0);
}

#[test]
fn a_stored_log_that_does_not_decode_is_an_error() {
    let mut b = fresh();
    b.put(&Handle::new("log"), &key_to_bytes(1), vec![9, 9, 9]);
    let broken = StateError::Backend(BackendError::Encoding);
    let mut eager: EagerAppender<u64> = EagerAppender::new("log");
    let mut lazy: LazyAppender<u64> = LazyAppender::new("log");
    eager.set_key(&mut b, 1);
    lazy.set_key(&mut b, 1);
    assert_eq!(eager.append(&mut b, 1), Err(broken));
    assert_eq!(lazy.append(&mut b, 1), Err(broken));
    assert_eq!(eager.consume(&mut b), Err(broken));
    assert_eq!(lazy.consume(&mut b), Err(broken));
    assert_eq!(eager.len(&b), Err(broken));
    assert_eq!(lazy.is_empty(&b), Err(broken));
    assert_eq!(b.get(&Handle::new("log"), &key_to_bytes(1)), Some(vec![9, 9, 9]));
}

#[test]
fn the_table_of_a_log_has_one_cell_per_value() {
    let mut b = fresh();
    let mut eager: EagerAppender<u8> = EagerAppender::new("e");
    let mut lazy: LazyAppender<u8> = LazyAppender::new("l");
    eager.set_key(&mut b, 1);
    lazy.set_key(&mut b, 1);
    for v in [5u8, 6u8] {
        eager.append(&mut b, v).unwrap();
        lazy.append(&mut b, v).unwrap();
    }
    let e = eager.table(&b).unwrap().unwrap();
    let l = lazy.table(&b).unwrap().unwrap();
    assert_eq!(e.column(0).unwrap(), &vec![vec![5u8], vec![6u8]]);
    assert_eq!(l.column(0).unwrap(), &vec![vec![5u8], vec![6u8]]);
    assert_eq!(e.name(), &b"e".to_vec());
    assert_eq!(l.column_name(0).unwrap(), "value");
    assert_eq!(eager.len(&b), Ok(2));
    eager.consume(&mut b).unwrap();
    assert_eq!(eager.table(&b).unwrap().unwrap().column(0).unwrap().len(), 0);
}

#[test]
fn log_survives_persist_checkpoint_restore() {
    let mut b = fresh();
    let mut eager: EagerAppender<u64> = EagerAppender::new("log");
    eager.set_key(&mut b, 1);
    eager.append(&mut b, 1).unwrap();
    eager.append(&mut b, 2).unwrap();
    eager.persist(&mut b).unwrap();
    let snapshot = b.checkpoint(String::from("/s"));
    let mut restored = Backend::restore(&snapshot, String::from("/t"), String::from("op")).unwrap();
    let mut again: EagerAppender<u64> = EagerAppender::new("log");
    again.set_key(&mut restored, 1);
    assert_eq!(again.consume(&mut restored), Ok(vec![1, 2]));
}
