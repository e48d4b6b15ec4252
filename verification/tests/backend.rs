use arcon_core::backend::{has_prefix, make_field_name, Backend, Handle};
use arcon_core::error::SnapshotError;
use arcon_core::snapshot::Snapshot;

fn fresh() -> Backend {
    Backend::create(String::from("/tmp/state"), String::from("op"))
}

#[test]
fn create_gives_an_empty_store() {
    let b = fresh();
    assert_eq!(b.len(), 0);
    assert_eq!(b.path(), "/tmp/state");
    assert_eq!(b.state_id(), "op");
    assert_eq!(b.get(&Handle::new("h"), b"k"), None);
}

#[test]
fn writes_are_read_back_at_once() {
    let mut b = fresh();
    let h = Handle::new("h");
    b.put(&h, b"k", vec![1, 2, 3]);
    assert_eq!(b.get(&h, b"k"), Some(vec![1, 2, 3]));
    assert!(b.contains(&h, b"k"));
    b.put(&h, b"k", vec![4]);
    assert_eq!(b.get(&h, b"k"), Some(vec![4]));
    assert_eq!(b.len(), 1);
}

#[test]
fn handles_and_keys_keep_apart() {
    let mut b = fresh();
    let h1 = Handle::new("one");
    let h2 = Handle::new("two");
    b.put(&h1, b"k", vec![1]);
    b.put(&h2, b"k", vec![2]);
    b.put(&h1, b"j", vec![3]);
    assert_eq!(b.get(&h1, b"k"), Some(vec![1]));
    assert_eq!(b.get(&h2, b"k"), Some(vec![2]));
    assert_eq!(b.get(&h1, b"j"), Some(vec![3]));
    assert_eq!(b.get(&h2, b"j"), None);
    assert_eq!(b.len(), 3);
}

#[test]
fn delete_says_whether_there_was_anything() {
    let mut b = fresh();
    let h = Handle::new("h");
    b.put(&h, b"k", vec![1]);
    assert!(b.delete(&h, b"k"));
    assert!(!b.delete(&h, b"k"));
    assert_eq!(b.get(&h, b"k"), None);
    assert!(!b.contains(&h, b"k"));
    assert_eq!(b.len(), 0);
}

#[test]
fn scan_finds_the_keys_with_a_prefix() {
    let mut b = fresh();
    let h = Handle::new("h");
    let other = Handle::new("other");
    b.put(&h, b"ab", vec![1]);
    b.put(&h, b"ac", vec![2]);
    b.put(&h, b"b", vec![3]);
    b.put(&other, b"ab", vec![4]);
    let mut found = b.scan(&h, b"a");
    found.sort();
    assert_eq!(found, vec![(b"ab".to_vec(), vec![1]), (b"ac".to_vec(), vec![2])]);
    assert_eq!(b.scan(&h, b"").len(), 3);
    assert_eq!(b.scan(&h, b"abc").len(), 0);
}

#[test]
fn prefixes() {
    assert!(has_prefix(b"abc", b"ab"));
    assert!(has_prefix(b"abc", b""));
    assert!(has_prefix(b"abc", b"abc"));
    assert!(!has_prefix(b"abc", b"abcd"));
    assert!(!has_prefix(b"abc", b"b"));
}

#[test]
fn handle_names_are_the_bytes_of_the_text() {
    let h = Handle::new("ab");
    assert_eq!(h.name(), &vec![97u8, 98u8]);
    assert_eq!(h.duplicate().into_name(), vec![97u8, 98u8]);
}

#[test]
fn an_empty_backend_has_an_image_of_magic_and_identifier() {
    let b = fresh();
    let s = b.checkpoint(String::from("/tmp/snap"));
    assert_eq!(s.snapshot_path(), "/tmp/snap");
    assert_eq!(s.bytes(), &vec![0x41, 0x52, 0x43, 0x4e, 2, 0, 0, 0, 0, 0, 0, 0, b'o', b'p']);
}

#[test]
fn checkpoint_then_restore_brings_everything_back() {
    let mut b = fresh();
    let h = Handle::new("h");
    b.put(&h, b"k1", vec![1, 2]);
    b.put(&h, b"k2", vec![]);
    b.put(&Handle::new("g"), b"", vec![7]);
    let s = b.checkpoint(String::from("/tmp/snap"));
    let r = Backend::restore(&s, String::from("/tmp/live"), String::from("op")).unwrap();
    assert_eq!(r.len(), 3);
    assert_eq!(r.path(), "/tmp/live");
    assert_eq!(r.state_id(), "op");
    assert_eq!(r.get(&h, b"k1"), Some(vec![1, 2]));
    assert_eq!(r.get(&h, b"k2"), Some(vec![]));
    assert_eq!(r.get(&Handle::new("g"), b""), Some(vec![7]));
    assert_eq!(r.get(&h, b"k3"), None);
}

#[test]
fn a_checkpoint_leaves_the_backend_as_it_was() {
    let mut b = fresh();
    let h = Handle::new("h");
    b.put(&h, b"k", vec![1]);
    let _ = b.checkpoint(String::from("/tmp/snap"));
    assert_eq!(b.get(&h, b"k"), Some(vec![1]));
    assert_eq!(b.len(), 1);
}

#[test]
fn restoring_twice_gives_the_same_contents() {
    let mut b = fresh();
    let h = Handle::new("h");
    b.put(&h, b"k", vec![9]);
    let s = b.checkpoint(String::from("/tmp/snap"));
    let first = Backend::restore(&s, String::from("/a"), String::from("op")).unwrap();
    let second = Backend::restore(&s, String::from("/b"), String::from("op")).unwrap();
    assert_eq!(first.get(&h, b"k"), second.get(&h, b"k"));
    assert_eq!(first.len(), second.len());
    assert_eq!(
        first.checkpoint(String::from("/x")).bytes(),
        second.checkpoint(String::from("/x")).bytes()
    );
}

#[test]
fn a_snapshot_without_bytes_is_missing() {
    let s = Snapshot::new(String::from("/tmp/snap"), Vec::new());
    let r = Backend::restore(&s, String::from("/t"), String::from("op"));
    assert!(matches!(r, Err(SnapshotError::Missing)));
}

#[test]
fn wrong_bytes_are_corrupt() {
    let bad_magic = Snapshot::new(String::from("/s"), vec![1, 2, 3, 4, 0, 0, 0, 0, 0, 0, 0, 0]);
    assert!(matches!(
        Backend::restore(&bad_magic, String::from("/t"), String::from("")),
        Err(SnapshotError::Corrupt)
    ));
    let short = Snapshot::new(String::from("/s"), vec![0x41, 0x52]);
    assert!(matches!(
        Backend::restore(&short, String::from("/t"), String::from("")),
        Err(SnapshotError::Corrupt)
    ));
    let no_identifier = Snapshot::new(String::from("/s"), vec![0x41, 0x52, 0x43, 0x4e]);
    assert!(matches!(
        Backend::restore(&no_identifier, String::from("/t"), String::from("")),
        Err(SnapshotError::Corrupt)
    ));
    let mut cut = fresh().checkpoint(String::from("/s")).bytes().clone();
    cut.pop();
    let cut = Snapshot::new(String::from("/s"), cut);
    assert!(matches!(
        Backend::restore(&cut, String::from("/t"), String::from("op")),
        Err(SnapshotError::Corrupt)
    ));
}

#[test]
fn an_image_that_holds_a_slot_twice_is_corrupt() {
    let record = arcon_core::snapshot::encode_record(b"h", b"k", b"v");
    let image = arcon_core::snapshot::encode_image(b"op", vec![record.clone(), record]);
    let s = Snapshot::new(String::from("/s"), image);
    assert!(matches!(
        Backend::restore(&s, String::from("/t"), String::from("op")),
        Err(SnapshotError::Corrupt)
    ));
}

#[test]
fn an_image_of_another_state_is_refused() {
    let s = fresh().checkpoint(String::from("/s"));
    assert!(matches!(
        Backend::restore(&s, String::from("/t"), String::from("other")),
        Err(SnapshotError::WrongState)
    ));
}

#[test]
fn records_are_three_frames() {
    let record = arcon_core::snapshot::encode_record(b"h", b"", b"vw");
    assert_eq!(
        record,
        vec![1, 0, 0, 0, 0, 0, 0, 0, b'h', 0, 0, 0, 0, 0, 0, 0, 0, 2, 0, 0, 0, 0, 0, 0, 0, b'v', b'w']
    );
    assert_eq!(
        arcon_core::snapshot::decode_record(&record),
        Some((b"h".to_vec(), Vec::new(), b"vw".to_vec()))
    );
    assert_eq!(arcon_core::snapshot::decode_record(&[0; 8]), None);
}

#[test]
fn handle_names_of_fields_are_state_slash_field() {
    assert_eq!(make_field_name("op", "count"), "op/count");
    assert_eq!(make_field_name("", ""), "/");
    let a = Handle::new(&make_field_name("op", "a"));
    let b = Handle::new(&make_field_name("op", "b"));
    let mut store = fresh();
    store.put(&a, b"k", vec![1]);
    assert_eq!(store.get(&b, b"k"), None);
    assert_eq!(store.get(&a, b"k"), Some(vec![1]));
}
