use portal_guard::nonce_tracker::{IdentityError, Nonce, NonceTracker, KEY_RENEWAL_INTERVAL};

#[test]
fn check_nonce_tracker() {
    let mut tracker = NonceTracker::new();
    tracker = tracker.mark(0.into()).unwrap();
    tracker = tracker.mark(1.into()).unwrap();
    tracker.mark(0.into()).unwrap_err();
    tracker.mark((KEY_RENEWAL_INTERVAL + 2).into()).unwrap_err();
    tracker = tracker.mark((KEY_RENEWAL_INTERVAL + 1).into()).unwrap();
    tracker.mark(1.into()).unwrap_err();
    tracker = tracker.mark((KEY_RENEWAL_INTERVAL + 2).into()).unwrap();
    tracker = tracker.mark((KEY_RENEWAL_INTERVAL + 3).into()).unwrap();
    tracker.mark((KEY_RENEWAL_INTERVAL + 1).into()).unwrap_err();
    tracker.mark((KEY_RENEWAL_INTERVAL + 2).into()).unwrap_err();
    tracker = tracker.mark((2 * KEY_RENEWAL_INTERVAL).into()).unwrap();
    tracker.mark((KEY_RENEWAL_INTERVAL - 1).into()).unwrap_err();
    tracker = tracker.mark((3 * KEY_RENEWAL_INTERVAL).into()).unwrap();
    tracker = tracker.mark((4 * KEY_RENEWAL_INTERVAL).into()).unwrap();
    for n in 3 * KEY_RENEWAL_INTERVAL + 1..4 * KEY_RENEWAL_INTERVAL {
        tracker = tracker.mark(n.into()).unwrap();
    }
    for n in 4 * KEY_RENEWAL_INTERVAL + 1..5 * KEY_RENEWAL_INTERVAL + 1 {
        tracker = tracker.mark(n.into()).unwrap();
    }
}

#[test]
fn window_is_thirty_two_deep() {
    assert_eq!(KEY_RENEWAL_INTERVAL, 32);
}

#[test]
fn nonce_keeps_its_value() {
    assert_eq!(Nonce::new(7).value(), 7);
    let nonce: Nonce = 9u64.into();
    assert_eq!(nonce.value(), 9);
    assert_eq!(Nonce::new(9), nonce);
}

#[test]
fn new_tracker_is_empty() {
    let tracker = NonceTracker::new();
    assert_eq!(tracker.current_nonce().value(), 0);
    assert_eq!(tracker.nonce_bitmap(), 0);
}

#[test]
fn first_nonce_zero_is_accepted_once() {
    let tracker = NonceTracker::new().mark(Nonce::new(0)).unwrap();
    assert_eq!(tracker.current_nonce().value(), 0);
    assert_eq!(tracker.nonce_bitmap(), 1);
    assert_eq!(tracker.mark(Nonce::new(0)).unwrap_err(), IdentityError::InvalidNonce);
}

#[test]
fn advancing_shifts_the_bitmap_and_sets_bit_zero() {
    let mut tracker = NonceTracker::new();
    tracker = tracker.mark(Nonce::new(0)).unwrap();
    tracker = tracker.mark(Nonce::new(1)).unwrap();
    assert_eq!(tracker.current_nonce().value(), 1);
    assert_eq!(tracker.nonce_bitmap(), 0b11);
    tracker = tracker.mark(Nonce::new(33)).unwrap();
    assert_eq!(tracker.current_nonce().value(), 33);
    assert_eq!(tracker.nonce_bitmap(), (0b11u64 << 32) | 1);
}

#[test]
fn late_nonce_sets_the_bit_at_its_distance() {
    let mut tracker = NonceTracker::new();
    tracker = tracker.mark(Nonce::new(10)).unwrap();
    assert_eq!(tracker.nonce_bitmap(), 1);
    tracker = tracker.mark(Nonce::new(7)).unwrap();
    assert_eq!(tracker.current_nonce().value(), 10);
    assert_eq!(tracker.nonce_bitmap(), 0b1001);
}

#[test]
fn scenario_with_replays_and_a_jump() {
    let mut tracker = NonceTracker::new();
    tracker = tracker.mark(Nonce::new(0)).unwrap();
    tracker = tracker.mark(Nonce::new(1)).unwrap();
    assert!(tracker.mark(Nonce::new(0)).is_err());
    assert!(tracker.mark(Nonce::new(34)).is_err());
    tracker = tracker.mark(Nonce::new(33)).unwrap();
    assert_eq!(tracker.current_nonce().value(), 33);
    // 1 was accepted before the jump and is still inside the window
    assert!(tracker.mark(Nonce::new(1)).is_err());
    // 0 has left the window
    assert!(tracker.mark(Nonce::new(0)).is_err());
    // 2 was never seen and is inside the window
    tracker = tracker.mark(Nonce::new(2)).unwrap();
    assert!(tracker.mark(Nonce::new(2)).is_err());
}

#[test]
fn lower_edge_of_the_window_is_inclusive() {
    let mut tracker = NonceTracker::new();
    tracker = tracker.mark(Nonce::new(1)).unwrap();
    tracker = tracker.mark(Nonce::new(32)).unwrap();
    let marked = tracker.mark(Nonce::new(0)).unwrap();
    assert_eq!(marked.current_nonce().value(), 32);
    assert_eq!(marked.nonce_bitmap(), (1u64 << 32) | (1u64 << 31) | 1);
    assert!(marked.mark(Nonce::new(0)).is_err());
}

#[test]
fn one_below_the_window_is_too_far_behind() {
    let mut tracker = NonceTracker::new();
    tracker = tracker.mark(Nonce::new(20)).unwrap();
    tracker = tracker.mark(Nonce::new(40)).unwrap();
    assert!(tracker.mark(Nonce::new(8)).is_ok());
    assert_eq!(tracker.mark(Nonce::new(7)).unwrap_err(), IdentityError::InvalidNonce);
}

#[test]
fn upper_edge_of_the_window_is_inclusive() {
    let tracker = NonceTracker::new().mark(Nonce::new(5)).unwrap();
    assert_eq!(tracker.mark(Nonce::new(38)).unwrap_err(), IdentityError::InvalidNonce);
    let advanced = tracker.mark(Nonce::new(37)).unwrap();
    assert_eq!(advanced.current_nonce().value(), 37);
    assert_eq!(advanced.nonce_bitmap(), (1u64 << 32) | 1);
    assert!(advanced.mark(Nonce::new(70)).is_err());
    assert!(advanced.mark(Nonce::new(69)).is_ok());
}

#[test]
fn highest_nonce_is_a_duplicate() {
    let tracker = NonceTracker::new().mark(Nonce::new(12)).unwrap();
    assert!(tracker.mark(Nonce::new(12)).is_err());
}

#[test]
fn bits_that_leave_the_top_do_not_come_back() {
    let mut tracker = NonceTracker::new();
    tracker = tracker.mark(Nonce::new(0)).unwrap();
    tracker = tracker.mark(Nonce::new(32)).unwrap();
    assert_eq!(tracker.nonce_bitmap(), (1u64 << 32) | 1);
    tracker = tracker.mark(Nonce::new(64)).unwrap();
    assert_eq!(tracker.nonce_bitmap(), (1u64 << 32) | 1);
    tracker = tracker.mark(Nonce::new(96)).unwrap();
    assert_eq!(tracker.current_nonce().value(), 96);
    assert_eq!(tracker.nonce_bitmap(), (1u64 << 32) | 1);
    assert!(tracker.mark(Nonce::new(0)).is_err());
    assert!(tracker.mark(Nonce::new(32)).is_err());
}

#[test]
fn rising_nonces_are_each_accepted_once() {
    let nonces: Vec<u64> = vec![0, 1, 2, 5, 37, 38, 70];
    let mut tracker = NonceTracker::new();
    for nonce in nonces.iter() {
        tracker = tracker.mark(Nonce::new(*nonce)).unwrap();
    }
    assert_eq!(tracker.current_nonce().value(), 70);
    for nonce in nonces.iter() {
        assert!(tracker.mark(Nonce::new(*nonce)).is_err());
    }
}

#[test]
fn refused_nonce_leaves_the_tracker_as_it_was() {
    let tracker = NonceTracker::new().mark(Nonce::new(3)).unwrap();
    assert!(tracker.mark(Nonce::new(3)).is_err());
    assert_eq!(tracker.current_nonce().value(), 3);
    assert_eq!(tracker.nonce_bitmap(), 1);
}

#[test]
fn largest_nonce_can_be_reached() {
    let mut tracker = NonceTracker::new();
    let mut nonce: u64 = 0;
    while nonce < 64 {
        tracker = tracker.mark(Nonce::new(nonce)).unwrap();
        nonce += 1;
    }
    assert_eq!(tracker.nonce_bitmap(), u64::MAX);
    assert!(tracker.mark(Nonce::new(u64::MAX)).is_err());
}
