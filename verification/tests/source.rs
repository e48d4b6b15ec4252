use arcon_core::source::{Poll, Source};

fn sum(mut s: impl Source<Item = u32>) -> u32 {
    let mut sum = 0;
    while let Poll::Ready(v) = s.poll_next().unwrap().unwrap() {
        sum += v;
    }
    sum
}

#[test]
fn iterator_source_test() {
    let v: Vec<u32> = vec![1, 2, 3, 4];
    let sum = sum(v.into_iter());
    assert_eq!(sum, 10);
}

#[test]
fn iterator_source_hands_out_items_in_order_then_is_done() {
    let mut s = vec![7u64, 8u64].into_iter();
    assert!(matches!(s.poll_next(), Ok(Ok(Poll::Ready(7)))));
    assert!(matches!(s.poll_next(), Ok(Ok(Poll::Ready(8)))));
    assert!(matches!(s.poll_next(), Ok(Ok(Poll::Done))));
    assert!(matches!(s.poll_next(), Ok(Ok(Poll::Done))));
}

#[test]
fn iterator_source_ignores_offset() {
    let mut s = vec![1u8, 2u8, 3u8].into_iter();
    s.set_offset(2);
    assert!(matches!(s.poll_next(), Ok(Ok(Poll::Ready(1)))));
}

#[test]
fn empty_iterator_source_is_done_at_once() {
    let mut s = Vec::<u32>::new().into_iter();
    assert!(matches!(s.poll_next(), Ok(Ok(Poll::Done))));
}
