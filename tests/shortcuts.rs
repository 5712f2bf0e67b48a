use keyboard_tester::{KeyEvent, KeyboardManager, RegistrationError};

const A: u64 = 30;
const B: u64 = 48;
const META: u64 = 125;
const S: u64 = 31;
const X: u64 = 45;

fn press(key: u64, time: u64) -> KeyEvent {
    KeyEvent::Press { key, time }
}

fn release(key: u64, time: u64) -> KeyEvent {
    KeyEvent::Release { key, time }
}

#[test]
fn succession_within_timeout_fires_once() {
    let mut m = KeyboardManager::new();
    let h = m.register_succession(A, 300).unwrap();
    assert!(m.process_event(press(A, 0)).is_empty());
    assert_eq!(m.process_event(press(A, 200)), vec![h]);
}

#[test]
fn succession_after_timeout_does_not_fire() {
    let mut m = KeyboardManager::new();
    m.register_succession(A, 300).unwrap();
    assert!(m.process_event(press(A, 0)).is_empty());
    assert!(m.process_event(press(A, 400)).is_empty());
}

#[test]
fn succession_at_exact_timeout_fires() {
    let mut m = KeyboardManager::new();
    let h = m.register_succession(A, 300).unwrap();
    assert!(m.process_event(press(A, 1000)).is_empty());
    assert_eq!(m.process_event(press(A, 1300)), vec![h]);
    assert!(m.process_event(press(A, 1601)).is_empty());
}

#[test]
fn succession_interrupted_by_other_key_does_not_fire() {
    let mut m = KeyboardManager::new();
    m.register_succession(A, 300).unwrap();
    assert!(m.process_event(press(A, 0)).is_empty());
    assert!(m.process_event(release(A, 20)).is_empty());
    assert!(m.process_event(press(B, 50)).is_empty());
    assert!(m.process_event(press(A, 100)).is_empty());
}

#[test]
fn succession_of_other_key_does_not_fire() {
    let mut m = KeyboardManager::new();
    m.register_succession(A, 300).unwrap();
    assert!(m.process_event(press(B, 0)).is_empty());
    assert!(m.process_event(press(B, 100)).is_empty());
}

#[test]
fn triple_press_fires_twice() {
    let mut m = KeyboardManager::new();
    let h = m.register_succession(A, 300).unwrap();
    assert!(m.process_event(press(A, 0)).is_empty());
    assert_eq!(m.process_event(press(A, 100)), vec![h]);
    assert_eq!(m.process_event(press(A, 200)), vec![h]);
}

#[test]
fn clock_going_back_counts_as_no_time() {
    let mut m = KeyboardManager::new();
    let h = m.register_succession(A, 300).unwrap();
    assert!(m.process_event(press(A, 5000)).is_empty());
    assert_eq!(m.process_event(press(A, 10)), vec![h]);
}

#[test]
fn combination_fires_on_completing_press() {
    let mut m = KeyboardManager::new();
    let h = m.register_combination(vec![META, S]).unwrap();
    assert!(m.process_event(press(META, 0)).is_empty());
    assert_eq!(m.process_event(press(S, 10)), vec![h]);
}

#[test]
fn combination_fires_again_on_unrelated_press() {
    let mut m = KeyboardManager::new();
    let h = m.register_combination(vec![META, S]).unwrap();
    assert!(m.process_event(press(META, 0)).is_empty());
    assert_eq!(m.process_event(press(S, 10)), vec![h]);
    assert_eq!(m.process_event(press(X, 20)), vec![h]);
}

#[test]
fn combination_stops_after_release() {
    let mut m = KeyboardManager::new();
    m.register_combination(vec![META, S]).unwrap();
    m.process_event(press(META, 0));
    m.process_event(press(S, 10));
    assert!(m.process_event(release(S, 15)).is_empty());
    assert!(m.process_event(press(X, 20)).is_empty());
}

#[test]
fn release_fires_nothing() {
    let mut m = KeyboardManager::new();
    m.register_combination(vec![A]).unwrap();
    m.register_succession(A, 300).unwrap();
    assert!(m.process_event(release(A, 0)).is_empty());
    assert_eq!(m.process_event(press(A, 10)), vec![0]);
    assert!(m.process_event(release(A, 20)).is_empty());
}

#[test]
fn release_of_key_not_held_is_ignored() {
    let mut m = KeyboardManager::new();
    let h = m.register_combination(vec![A]).unwrap();
    assert!(m.process_event(release(B, 0)).is_empty());
    assert_eq!(m.process_event(press(A, 10)), vec![h]);
}

#[test]
fn repeated_press_keeps_key_held_once() {
    let mut m = KeyboardManager::new();
    let h = m.register_combination(vec![A]).unwrap();
    m.process_event(press(A, 0));
    m.process_event(press(A, 1000));
    m.process_event(release(A, 1100));
    assert!(m.process_event(press(B, 1200)).is_empty());
    assert_eq!(m.process_event(press(A, 1300)), vec![h]);
}

#[test]
fn combinations_fire_before_successions_in_registration_order() {
    let mut m = KeyboardManager::new();
    let s1 = m.register_succession(A, 300).unwrap();
    let c1 = m.register_combination(vec![A]).unwrap();
    let s2 = m.register_succession(A, 500).unwrap();
    let c2 = m.register_combination(vec![A, A]).unwrap();
    assert_eq!((s1, c1, s2, c2), (0, 1, 2, 3));
    assert_eq!(m.process_event(press(A, 0)), vec![c1, c2]);
    assert_eq!(m.process_event(press(A, 100)), vec![c1, c2, s1, s2]);
    assert_eq!(m.process_event(press(A, 500)), vec![c1, c2, s2]);
}

#[test]
fn registration_affects_only_later_events() {
    let mut m = KeyboardManager::new();
    assert!(m.process_event(press(META, 0)).is_empty());
    let h = m.register_combination(vec![META]).unwrap();
    assert!(m.process_event(release(META, 5)).is_empty());
    assert_eq!(m.process_event(press(META, 10)), vec![h]);
}

#[test]
fn registration_keeps_key_state() {
    let mut m = KeyboardManager::new();
    m.process_event(press(A, 0));
    let h = m.register_succession(A, 300).unwrap();
    assert_eq!(m.process_event(press(A, 100)), vec![h]);
}

#[test]
fn registrations_are_counted_one_by_one() {
    let mut m = KeyboardManager::new();
    for i in 0..50u64 {
        let h = if i % 2 == 0 {
            m.register_combination(vec![i]).unwrap()
        } else {
            m.register_succession(i, 100).unwrap()
        };
        assert_eq!(h, i as usize);
    }
}

#[test]
fn empty_combination_is_rejected() {
    let mut m = KeyboardManager::new();
    assert_eq!(
        m.register_combination(Vec::new()),
        Err(RegistrationError::EmptyCombination)
    );
    assert_eq!(m.register_combination(vec![A]), Ok(0));
}

#[test]
fn zero_timeout_is_rejected() {
    let mut m = KeyboardManager::new();
    assert_eq!(m.register_succession(A, 0), Err(RegistrationError::ZeroTimeout));
    assert_eq!(m.register_succession(A, 1), Ok(0));
}

#[test]
fn largest_times_and_keys() {
    let mut m = KeyboardManager::new();
    let h = m.register_succession(u64::MAX, u64::MAX).unwrap();
    assert!(m.process_event(press(u64::MAX, 0)).is_empty());
    assert_eq!(m.process_event(press(u64::MAX, u64::MAX)), vec![h]);
}
