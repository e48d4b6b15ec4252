use arcon_core::backend::{Backend, Handle};
use arcon_core::error::{BackendError, StateError, TimerError};
use arcon_core::index::{IndexOps, Timer, TimerEvent};

fn fresh() -> Backend {
    Backend::create(String::from("/tmp/state"), String::from("op"))
}

fn fired(events: Vec<TimerEvent<u64>>) -> Vec<(u64, u64, u64)> {
    let mut out = Vec::new();
    for e in events {
        out.push((e.time, e.key, e.payload));
    }
    out
}

#[test]
fn a_timer_fires_once_when_its_time_comes() {
    let mut t: Timer<u64> = Timer::new("timer");
    assert_eq!(fired(t.advance_to(10)), vec![]);
    assert_eq!(t.current_time(), 10);
    assert_eq!(t.schedule_at(1, 100, 42), Ok(()));
    assert_eq!(t.len(), 1);
    assert_eq!(fired(t.advance_to(99)), vec![]);
    assert_eq!(fired(t.advance_to(100)), vec![(100, 1, 42)]);
    assert_eq!(t.len(), 0);
    assert_eq!(fired(t.advance_to(200)), vec![]);
    assert_eq!(t.current_time(), 200);
}

#[test]
fn scheduling_into_the_past_is_refused() {
    let mut t: Timer<u64> = Timer::new("timer");
    t.advance_to(50);
    assert_eq!(
        t.schedule_at(1, 50, 7),
        Err(TimerError::Expired { current_time: 50, scheduled_time: 50 })
    );
    assert_eq!(
        t.schedule_at(1, 49, 7),
        Err(TimerError::Expired { current_time: 50, scheduled_time: 49 })
    );
    assert_eq!(
        t.schedule_at(1, 0, 7),
        Err(TimerError::Expired { current_time: 50, scheduled_time: 0 })
    );
    assert_eq!(t.len(), 0);
    assert_eq!(fired(t.advance_to(1000)), vec![]);
    assert_eq!(t.schedule_at(1, 1001, 7), Ok(()));
    assert_eq!(t.len(), 1);
}

#[test]
fn nothing_can_be_scheduled_at_time_zero() {
    let mut t: Timer<u64> = Timer::new("timer");
    assert_eq!(t.current_time(), 0);
    assert_eq!(
        t.schedule_at(1, 0, 7),
        Err(TimerError::Expired { current_time: 0, scheduled_time: 0 })
    );
    assert_eq!(t.schedule_at(1, 1, 7), Ok(()));
}

#[test]
fn timers_fire_in_the_order_of_their_times() {
    let mut t: Timer<u64> = Timer::new("timer");
    t.schedule_at(1, 100, 1).unwrap();
    t.schedule_at(1, 50, 2).unwrap();
    t.schedule_at(1, 75, 3).unwrap();
    assert_eq!(fired(t.advance_to(60)), vec![(50, 1, 2)]);
    assert_eq!(fired(t.advance_to(80)), vec![(75, 1, 3)]);
    assert_eq!(fired(t.advance_to(100)), vec![(100, 1, 1)]);
    assert_eq!(t.len(), 0);
}

#[test]
fn timers_that_are_due_together_come_in_the_order_of_their_times() {
    let mut t: Timer<u64> = Timer::new("timer");
    t.schedule_at(1, 100, 1).unwrap();
    t.schedule_at(1, 50, 2).unwrap();
    t.schedule_at(1, 75, 3).unwrap();
    t.schedule_at(1, 500, 4).unwrap();
    assert_eq!(fired(t.advance_to(100)), vec![(50, 1, 2), (75, 1, 3), (100, 1, 1)]);
    assert_eq!(t.len(), 1);
}

#[test]
fn timers_of_one_time_fire_in_the_order_of_their_keys() {
    let mut t: Timer<u64> = Timer::new("timer");
    t.schedule_at(9, 10, 90).unwrap();
    t.schedule_at(3, 10, 30).unwrap();
    t.schedule_at(5, 10, 50).unwrap();
    t.schedule_at(4, 9, 40).unwrap();
    assert_eq!(fired(t.advance_to(10)), vec![(9, 4, 40), (10, 3, 30), (10, 5, 50), (10, 9, 90)]);
}

#[test]
fn a_second_timer_for_the_same_key_and_time_replaces_the_payload() {
    let mut t: Timer<u64> = Timer::new("timer");
    assert_eq!(t.schedule_at(1, 10, 111), Ok(()));
    assert_eq!(t.schedule_at(1, 10, 222), Ok(()));
    assert_eq!(t.len(), 1);
    assert_eq!(fired(t.advance_to(10)), vec![(10, 1, 222)]);
}

#[test]
fn a_second_timer_for_the_same_key_and_time_is_not_rejected_and_not_kept_twice() {
    let mut t: Timer<u64> = Timer::new("timer");
    t.schedule_at(1, 10, 111).unwrap();
    assert!(t.schedule_at(1, 10, 222).is_ok());
    t.schedule_at(2, 10, 333).unwrap();
    t.schedule_at(1, 11, 444).unwrap();
    assert_eq!(t.len(), 3);
    let events = fired(t.advance_to(20));
    assert_eq!(events, vec![(10, 1, 222), (10, 2, 333), (11, 1, 444)]);
}

#[test]
fn the_clock_does_not_go_back() {
    let mut t: Timer<u64> = Timer::new("timer");
    t.advance_to(100);
    t.schedule_at(1, 150, 1).unwrap();
    assert_eq!(fired(t.advance_to(40)), vec![]);
    assert_eq!(t.current_time(), 100);
    assert_eq!(t.len(), 1);
}

#[test]
fn a_fresh_service_is_stored_empty() {
    let mut b = fresh();
    let mut t: Timer<u64> = Timer::new("timer");
    assert!(t.persist(&mut b).is_ok());
    assert_eq!(
        b.get(&Handle::new("timer"), b""),
        Some(vec![8, 0, 0, 0, 0, 0, 0, 0, 0, 0, 0, 0, 0, 0, 0, 0, 0, 0, 0, 0, 0, 0, 0, 0])
    );
}

#[test]
fn timers_survive_persist_checkpoint_restore() {
    let mut b = fresh();
    let mut t: Timer<u64> = Timer::new("timer");
    t.advance_to(10);
    t.schedule_at(2, 30, 300).unwrap();
    t.schedule_at(1, 20, 200).unwrap();
    t.persist(&mut b).unwrap();
    let snapshot = b.checkpoint(String::from("/s"));
    let restored = Backend::restore(&snapshot, String::from("/t"), String::from("op")).unwrap();
    let mut again: Timer<u64> = Timer::restore("timer", &restored).unwrap();
    assert_eq!(again.current_time(), 10);
    assert_eq!(again.len(), 2);
    assert_eq!(
        again.schedule_at(1, 10, 0),
        Err(TimerError::Expired { current_time: 10, scheduled_time: 10 })
    );
    assert_eq!(fired(again.advance_to(30)), vec![(20, 1, 200), (30, 2, 300)]);
}

#[test]
fn what_was_not_persisted_is_not_restored() {
    let mut b = fresh();
    let mut t: Timer<u64> = Timer::new("timer");
    t.schedule_at(1, 20, 200).unwrap();
    t.persist(&mut b).unwrap();
    t.schedule_at(1, 30, 300).unwrap();
    let again: Timer<u64> = Timer::restore("timer", &b).unwrap();
    assert_eq!(again.len(), 1);
    t.set_key(&mut b, 5);
    let again: Timer<u64> = Timer::restore("timer", &b).unwrap();
    assert_eq!(again.len(), 2);
}

#[test]
fn restoring_where_nothing_is_stored_gives_a_fresh_service() {
    let b = fresh();
    let t: Timer<u64> = Timer::restore("timer", &b).unwrap();
    assert_eq!(t.current_time(), 0);
    assert_eq!(t.len(), 0);
}

#[test]
fn stored_timers_that_do_not_decode_surface_as_an_error() {
    let mut b = fresh();
    b.put(&Handle::new("timer"), b"", vec![1, 2, 3]);
    let r: Result<Timer<u64>, StateError> = Timer::restore("timer", &b);
    assert!(matches!(r, Err(StateError::Backend(BackendError::Encoding))));
}

#[test]
fn stored_timers_out_of_order_surface_as_an_error() {
    let mut b = fresh();
    let mut t: Timer<u64> = Timer::new("timer");
    t.schedule_at(1, 20, 200).unwrap();
    t.schedule_at(1, 30, 300).unwrap();
    t.persist(&mut b).unwrap();
    let good = b.get(&Handle::new("timer"), b"").unwrap();
    // the clock and the length of the list take 24 bytes; each timer takes 64
    assert_eq!(good.len(), 152);
    let first = good[24..88].to_vec();
    let second = good[88..152].to_vec();
    let mut swapped = good[..24].to_vec();
    swapped.extend_from_slice(&second);
    swapped.extend_from_slice(&first);
    assert_eq!(swapped.len(), good.len());
    b.put(&Handle::new("timer"), b"", swapped);
    let r: Result<Timer<u64>, StateError> = Timer::restore("timer", &b);
    assert!(matches!(r, Err(StateError::Backend(BackendError::Encoding))));
    b.put(&Handle::new("timer"), b"", good);
    assert!(Timer::<u64>::restore("timer", &b).is_ok());
}

#[test]
fn the_service_has_no_table() {
    let b = fresh();
    let mut t: Timer<u64> = Timer::new("timer");
    assert!(matches!(t.table(&b), Ok(None)));
}
