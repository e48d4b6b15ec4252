use arcon_core::backend::{Backend, Handle};
use arcon_core::index::window::window_key_bytes;
use arcon_core::index::{
    AppenderWindow, ArrowWindow, IncrementalWindow, IndexOps, WindowContext, WindowIndex,
};
use arcon_core::table::ImmutableTable;

fn fresh() -> Backend {
    Backend::create(String::from("/tmp/state"), String::from("op"))
}

fn total(items: &[u64]) -> u64 {
    let mut sum = 0;
    for i in items {
        sum += *i;
    }
    sum
}

fn largest(items: &[u64]) -> u64 {
    let mut max = 0;
    for i in items {
        if *i > max {
            max = *i;
        }
    }
    max
}

fn rows(table: &ImmutableTable) -> u64 {
    table.column(0).unwrap().len() as u64
}

#[test]
fn the_bytes_of_a_context_are_key_then_number() {
    assert_eq!(
        window_key_bytes(WindowContext::new(1, 2)),
        vec![1, 0, 0, 0, 0, 0, 0, 0, 2, 0, 0, 0, 0, 0, 0, 0]
    );
}

#[test]
fn appender_window_folds_over_its_elements() {
    let mut b = fresh();
    let mut w = AppenderWindow::new("w", total);
    let ctx = WindowContext::new(1, 0);
    for x in [1u64, 2, 3, 4] {
        w.on_element(&mut b, x, ctx).unwrap();
    }
    assert_eq!(w.result(&b, ctx).unwrap(), 10);
    assert_eq!(w.result(&b, ctx).unwrap(), 10);
}

#[test]
fn appender_window_hands_the_elements_over_in_order() {
    let mut b = fresh();
    let mut w = AppenderWindow::new("w", |items: &[u64]| items.to_vec());
    let ctx = WindowContext::new(1, 0);
    for x in [3u64, 1, 2] {
        w.on_element(&mut b, x, ctx).unwrap();
    }
    assert_eq!(w.result(&b, ctx).unwrap(), vec![3, 1, 2]);
}

#[test]
fn incremental_window_equals_appender_window() {
    let mut b = fresh();
    let mut appender = AppenderWindow::new("a", total);
    let mut incremental = IncrementalWindow::new("i", |x: u64| x, |x: u64, acc: &u64| x + *acc);
    let ctx = WindowContext::new(4, 2);
    for x in [5u64, 9, 1, 1, 20] {
        appender.on_element(&mut b, x, ctx).unwrap();
        incremental.on_element(&mut b, x, ctx).unwrap();
        assert_eq!(appender.result(&b, ctx).unwrap(), incremental.result(&b, ctx).unwrap());
    }
    assert_eq!(incremental.result(&b, ctx).unwrap(), 36);
}

#[test]
fn incremental_window_equals_appender_window_for_max() {
    let mut b = fresh();
    let mut appender = AppenderWindow::new("a", largest);
    let mut incremental = IncrementalWindow::new(
        "i",
        |x: u64| x,
        |x: u64, acc: &u64| if x > *acc { x } else { *acc },
    );
    let ctx = WindowContext::new(4, 2);
    for x in [5u64, 9, 1, 30, 20] {
        appender.on_element(&mut b, x, ctx).unwrap();
        incremental.on_element(&mut b, x, ctx).unwrap();
    }
    assert_eq!(appender.result(&b, ctx).unwrap(), 30);
    assert_eq!(incremental.result(&b, ctx).unwrap(), 30);
}

#[test]
fn arrow_window_works_on_the_column() {
    let mut b = fresh();
    let mut w: ArrowWindow<u64, u64, _> = ArrowWindow::new("w", rows);
    let ctx = WindowContext::new(1, 0);
    for x in [7u64, 8, 9] {
        w.on_element(&mut b, x, ctx).unwrap();
    }
    assert_eq!(w.result(&b, ctx).unwrap(), 3);
    let table = w.table_of(&b, ctx).unwrap();
    assert_eq!(table.name(), &b"w".to_vec());
    assert_eq!(table.column_name(0).unwrap(), "element");
    assert_eq!(
        table.column(0).unwrap(),
        &vec![
            vec![7u8, 0, 0, 0, 0, 0, 0, 0],
            vec![8u8, 0, 0, 0, 0, 0, 0, 0],
            vec![9u8, 0, 0, 0, 0, 0, 0, 0]
        ]
    );
    assert!(matches!(w.table(&b), Ok(None)));
}

#[test]
fn arrow_window_gives_what_the_appender_window_gives() {
    let mut b = fresh();
    let mut appender = AppenderWindow::new("a", |items: &[u64]| items.len() as u64);
    let mut arrow: ArrowWindow<u64, u64, _> = ArrowWindow::new("r", rows);
    let ctx = WindowContext::new(1, 0);
    for x in [7u64, 8, 9, 10] {
        appender.on_element(&mut b, x, ctx).unwrap();
        arrow.on_element(&mut b, x, ctx).unwrap();
    }
    assert_eq!(appender.result(&b, ctx).unwrap(), arrow.result(&b, ctx).unwrap());
}

#[test]
fn windows_keep_apart() {
    let mut b = fresh();
    let mut appender = AppenderWindow::new("a", total);
    let mut incremental = IncrementalWindow::new("i", |x: u64| x, |x: u64, acc: &u64| x + *acc);
    let first = WindowContext::new(1, 0);
    let second = WindowContext::new(1, 1);
    let other_key = WindowContext::new(2, 0);
    for (ctx, x) in [(first, 1u64), (second, 10), (other_key, 100), (first, 2)] {
        appender.on_element(&mut b, x, ctx).unwrap();
        incremental.on_element(&mut b, x, ctx).unwrap();
    }
    assert_eq!(appender.result(&b, first).unwrap(), 3);
    assert_eq!(appender.result(&b, second).unwrap(), 10);
    assert_eq!(appender.result(&b, other_key).unwrap(), 100);
    assert_eq!(incremental.result(&b, first).unwrap(), 3);
    assert_eq!(incremental.result(&b, second).unwrap(), 10);
    assert_eq!(incremental.result(&b, other_key).unwrap(), 100);
}

#[test]
fn clear_discards_the_window() {
    let mut b = fresh();
    let mut appender = AppenderWindow::new("a", total);
    let mut arrow: ArrowWindow<u64, u64, _> = ArrowWindow::new("r", rows);
    let mut incremental = IncrementalWindow::new("i", |x: u64| x, |x: u64, acc: &u64| x + *acc);
    let ctx = WindowContext::new(1, 0);
    appender.on_element(&mut b, 5, ctx).unwrap();
    arrow.on_element(&mut b, 5, ctx).unwrap();
    incremental.on_element(&mut b, 5, ctx).unwrap();
    assert_eq!(b.len(), 3);
    assert!(appender.clear(&mut b, ctx).is_ok());
    assert!(arrow.clear(&mut b, ctx).is_ok());
    assert!(incremental.clear(&mut b, ctx).is_ok());
    assert_eq!(b.len(), 0);
    assert_eq!(appender.result(&b, ctx).unwrap(), 0);
    assert_eq!(arrow.result(&b, ctx).unwrap(), 0);
    assert!(incremental.result(&b, ctx).is_err());
}

#[test]
fn an_incremental_window_without_elements_has_no_result() {
    let b = fresh();
    let mut incremental = IncrementalWindow::new("i", |x: u64| x, |x: u64, acc: &u64| x + *acc);
    let err = incremental.result(&b, WindowContext::new(1, 0)).unwrap_err();
    assert_eq!(err.describe(), "the window holds no element");
}

#[test]
fn window_state_that_does_not_decode_is_an_error() {
    let mut b = fresh();
    let ctx = WindowContext::new(1, 0);
    let key = window_key_bytes(ctx);
    for name in ["a", "r", "i"] {
        b.put(&Handle::new(name), &key, vec![1, 2, 3]);
    }
    let mut appender = AppenderWindow::new("a", total);
    let mut arrow: ArrowWindow<u64, u64, _> = ArrowWindow::new("r", rows);
    let mut incremental = IncrementalWindow::new("i", |x: u64| x, |x: u64, acc: &u64| x + *acc);
    assert_eq!(appender.on_element(&mut b, 1, ctx).unwrap_err().describe(), "stored bytes do not decode");
    assert_eq!(arrow.on_element(&mut b, 1, ctx).unwrap_err().describe(), "stored bytes do not decode");
    assert_eq!(incremental.on_element(&mut b, 1, ctx).unwrap_err().describe(), "stored bytes do not decode");
    assert_eq!(appender.result(&b, ctx).unwrap_err().describe(), "stored bytes do not decode");
    assert_eq!(arrow.result(&b, ctx).unwrap_err().describe(), "stored bytes do not decode");
    assert_eq!(incremental.result(&b, ctx).unwrap_err().describe(), "stored bytes do not decode");
    assert!(arrow.table_of(&b, ctx).is_err());
    assert_eq!(b.get(&Handle::new("a"), &key), Some(vec![1, 2, 3]));
}

#[test]
fn windows_hold_nothing_back() {
    let mut b = fresh();
    let mut appender = AppenderWindow::new("a", total);
    let mut incremental = IncrementalWindow::new("i", |x: u64| x, |x: u64, acc: &u64| x + *acc);
    let ctx = WindowContext::new(1, 0);
    appender.on_element(&mut b, 5, ctx).unwrap();
    incremental.on_element(&mut b, 5, ctx).unwrap();
    assert_eq!(b.len(), 2);
    assert!(appender.persist(&mut b).is_ok());
    assert!(incremental.persist(&mut b).is_ok());
    appender.set_key(&mut b, 9);
    incremental.set_key(&mut b, 9);
    assert_eq!(b.len(), 2);
    assert!(matches!(appender.table(&b), Ok(None)));
    assert!(matches!(incremental.table(&b), Ok(None)));
    assert_eq!(appender.result(&b, ctx).unwrap(), 5);
    assert_eq!(incremental.result(&b, ctx).unwrap(), 5);
}

#[test]
fn windows_survive_checkpoint_restore() {
    let mut b = fresh();
    let mut appender = AppenderWindow::new("a", total);
    let mut incremental = IncrementalWindow::new("i", |x: u64| x, |x: u64, acc: &u64| x + *acc);
    let ctx = WindowContext::new(3, 7);
    for x in [1u64, 2, 3] {
        appender.on_element(&mut b, x, ctx).unwrap();
        incremental.on_element(&mut b, x, ctx).unwrap();
    }
    let snapshot = b.checkpoint(String::from("/s"));
    let restored = Backend::restore(&snapshot, String::from("/t"), String::from("op")).unwrap();
    assert_eq!(appender.result(&restored, ctx).unwrap(), 6);
    assert_eq!(incremental.result(&restored, ctx).unwrap(), 6);
}
