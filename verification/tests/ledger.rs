use token_ceiling::ledger::{Admission, CeilingLedger, Charge, KeyWindow};
use token_ceiling::ordered_map::OrderedMap;

/// A one-minute window, roomy key bound.
fn ledger() -> CeilingLedger {
    CeilingLedger::new(60_000, 16)
}

#[test]
fn unknown_key_is_admitted() {
    assert_eq!(ledger().admit_request("alice", 100, 0), Admission::Admit);
}

#[test]
fn usage_below_ceiling_is_admitted() {
    let mut ledger = ledger();
    assert_eq!(ledger.charge("alice", 99, 0), Charge::Recorded);
    assert_eq!(ledger.admit_request("alice", 100, 1), Admission::Admit);
}

#[test]
fn usage_at_ceiling_is_denied_with_window_remainder() {
    let mut ledger = ledger();
    ledger.charge("alice", 100, 0);
    assert_eq!(
        ledger.admit_request("alice", 100, 15_000),
        Admission::Deny { retry_after_ms: 45_000 }
    );
}

#[test]
fn usage_above_ceiling_is_denied() {
    // Post-hoc charging can overshoot; admission must still deny.
    let mut ledger = ledger();
    ledger.charge("alice", 250, 0);
    assert!(matches!(ledger.admit_request("alice", 100, 0), Admission::Deny { .. }));
}

#[test]
fn expired_window_admits_again() {
    let mut ledger = ledger();
    ledger.charge("alice", 100, 0);
    assert_eq!(ledger.admit_request("alice", 100, 60_000), Admission::Admit);
}

#[test]
fn charge_rolls_an_expired_window() {
    let mut ledger = ledger();
    ledger.charge("alice", 100, 0);
    ledger.charge("alice", 30, 60_000);
    // The old 100 tokens aged out with the first window: usage is 30.
    assert_eq!(ledger.admit_request("alice", 100, 60_001), Admission::Admit);
    assert_eq!(
        ledger.admit_request("alice", 30, 60_001),
        Admission::Deny { retry_after_ms: 59_999 }
    );
}

#[test]
fn charges_accumulate_within_a_window() {
    let mut ledger = ledger();
    ledger.charge("alice", 60, 0);
    ledger.charge("alice", 40, 1_000);
    assert!(matches!(ledger.admit_request("alice", 100, 2_000), Admission::Deny { .. }));
}

#[test]
fn charge_saturates_instead_of_overflowing() {
    let mut ledger = ledger();
    ledger.charge("alice", u64::MAX, 0);
    ledger.charge("alice", u64::MAX, 1);
    assert!(matches!(
        ledger.admit_request("alice", u64::MAX, 2),
        Admission::Deny { .. }
    ));
}

#[test]
fn zero_token_charge_creates_no_entry() {
    let mut ledger = CeilingLedger::new(60_000, 1);
    assert_eq!(ledger.charge("alice", 0, 0), Charge::Recorded);
    // The single slot is still free for a real charge.
    assert_eq!(ledger.charge("bob", 5, 0), Charge::Recorded);
    assert_eq!(ledger.charge("carol", 5, 0), Charge::Dropped);
}

#[test]
fn keys_are_tracked_independently() {
    let mut ledger = ledger();
    ledger.charge("alice", 100, 0);
    assert!(matches!(ledger.admit_request("alice", 100, 0), Admission::Deny { .. }));
    assert_eq!(ledger.admit_request("bob", 100, 0), Admission::Admit);
}

#[test]
fn full_ledger_reports_at_capacity_for_new_keys() {
    let mut ledger = CeilingLedger::new(60_000, 1);
    ledger.charge("alice", 5, 0);
    assert_eq!(ledger.admit_request("bob", 100, 1), Admission::AtCapacity);
    // Known keys are still served while the ledger is full.
    assert_eq!(ledger.admit_request("alice", 100, 1), Admission::Admit);
}

#[test]
fn full_ledger_drops_charges_for_new_keys() {
    let mut ledger = CeilingLedger::new(60_000, 1);
    ledger.charge("alice", 5, 0);
    assert_eq!(ledger.charge("bob", 5, 1), Charge::Dropped);
    // Known keys still record while the ledger is full.
    assert_eq!(ledger.charge("alice", 5, 1), Charge::Recorded);
}

#[test]
fn expired_entries_are_evicted_to_admit_new_keys() {
    let mut ledger = CeilingLedger::new(60_000, 1);
    ledger.charge("alice", 5, 0);
    assert_eq!(ledger.admit_request("bob", 100, 60_000), Admission::Admit);
    assert_eq!(ledger.charge("bob", 5, 60_000), Charge::Recorded);
}

#[test]
fn retry_after_is_zero_at_the_window_boundary_edge() {
    // Deny can only happen inside the window, so retry_after_ms is always
    // positive in practice; the saturating math still must not underflow if
    // time lands exactly on the boundary.
    let mut ledger = ledger();
    ledger.charge("alice", 100, 0);
    assert_eq!(
        ledger.admit_request("alice", 100, 59_999),
        Admission::Deny { retry_after_ms: 1 }
    );
}

#[test]
fn window_arithmetic_saturates_at_the_end_of_time() {
    let window = KeyWindow { start_ms: u64::MAX - 10, used: 1 };
    assert!(!window.expired(60_000, u64::MAX - 1));
    assert!(window.expired(60_000, u64::MAX));
    assert_eq!(window.remaining_ms(60_000, u64::MAX - 4), 4);
    assert_eq!(window.remaining_ms(60_000, u64::MAX), 0);
}

#[test]
fn remaining_time_is_zero_once_elapsed() {
    let window = KeyWindow { start_ms: 100, used: 1 };
    assert_eq!(window.remaining_ms(50, 120), 30);
    assert_eq!(window.remaining_ms(50, 150), 0);
    assert_eq!(window.remaining_ms(50, 151), 0);
}

#[test]
fn eviction_drops_exactly_the_elapsed_windows() {
    let mut entries: OrderedMap<KeyWindow> = OrderedMap::new();
    entries.insert("b", KeyWindow { start_ms: 0, used: 1 });
    entries.insert("a", KeyWindow { start_ms: 40, used: 2 });
    entries.insert("c", KeyWindow { start_ms: 20, used: 3 });
    CeilingLedger::evict_expired(&mut entries, 100, 120);
    assert_eq!(entries.len(), 1);
    assert_eq!(entries.key_at(0), "a");
    assert_eq!(entries.get("a").map(|window| window.used), Some(2));
    assert!(entries.get("b").is_none());
    assert!(entries.get("c").is_none());
}

#[test]
fn a_denied_key_stays_denied_until_its_window_resets() {
    let mut ledger = ledger();
    ledger.charge("alice", 10, 1_000);
    assert_eq!(
        ledger.admit_request("alice", 10, 1_000),
        Admission::Deny { retry_after_ms: 60_000 }
    );
    // Charges within the window do not move it.
    ledger.charge("alice", 5, 30_000);
    assert_eq!(
        ledger.admit_request("alice", 10, 60_999),
        Admission::Deny { retry_after_ms: 1 }
    );
    assert_eq!(ledger.admit_request("alice", 10, 61_000), Admission::Admit);
}

#[test]
fn overshoot_is_what_was_in_flight() {
    let mut ledger = ledger();
    ledger.charge("alice", 9, 0);
    assert_eq!(ledger.admit_request("alice", 10, 1), Admission::Admit);
    ledger.charge("alice", 7, 2);
    ledger.charge("alice", 5, 3);
    // Usage is 21: below 10 plus the 12 charged since.
    assert!(matches!(ledger.admit_request("alice", 21, 4), Admission::Deny { .. }));
    assert_eq!(ledger.admit_request("alice", 22, 4), Admission::Admit);
}

#[test]
fn looking_at_a_new_key_reserves_no_slot() {
    let mut ledger = CeilingLedger::new(60_000, 1);
    assert_eq!(ledger.admit_request("alice", 10, 0), Admission::Admit);
    assert_eq!(ledger.charge("bob", 5, 0), Charge::Recorded);
    assert_eq!(ledger.admit_request("alice", 10, 0), Admission::AtCapacity);
}

#[test]
fn a_ledger_without_slots_tracks_nothing() {
    let mut ledger = CeilingLedger::new(60_000, 0);
    assert_eq!(ledger.admit_request("alice", 10, 0), Admission::AtCapacity);
    assert_eq!(ledger.charge("alice", 5, 0), Charge::Dropped);
    assert_eq!(ledger.charge("alice", 0, 0), Charge::Recorded);
}

#[test]
fn a_full_ledger_evicts_only_elapsed_windows() {
    let mut ledger = CeilingLedger::new(100, 2);
    ledger.charge("old", 5, 0);
    ledger.charge("young", 5, 50);
    assert_eq!(ledger.charge("new", 5, 100), Charge::Recorded);
    assert!(matches!(ledger.admit_request("young", 5, 100), Admission::Deny { .. }));
    assert!(matches!(ledger.admit_request("new", 5, 100), Admission::Deny { .. }));
    assert_eq!(ledger.admit_request("old", 5, 100), Admission::AtCapacity);
}

#[test]
fn requests_between_charges_leave_a_window_alone() {
    let mut ledger = CeilingLedger::new(1_000, 2);
    ledger.charge("alice", 4, 0);
    ledger.charge("bob", 1, 0);
    // The ledger is full, so a new key makes it look for elapsed windows.
    assert_eq!(ledger.admit_request("carol", 10, 500), Admission::AtCapacity);
    ledger.charge("alice", 6, 600);
    assert_eq!(ledger.admit_request("carol", 10, 700), Admission::AtCapacity);
    assert_eq!(
        ledger.admit_request("alice", 10, 800),
        Admission::Deny { retry_after_ms: 200 }
    );
    assert_eq!(ledger.admit_request("alice", 10, 1_000), Admission::Admit);
}

#[test]
fn a_request_changes_no_later_answer() {
    let mut asked = CeilingLedger::new(1_000, 2);
    let mut plain = CeilingLedger::new(1_000, 2);
    for ledger in [&mut asked, &mut plain] {
        ledger.charge("alice", 4, 0);
        ledger.charge("bob", 7, 900);
    }
    // Only one of the two ledgers lets the elapsed window leave.
    assert_eq!(asked.admit_request("carol", 10, 1_000), Admission::Admit);
    for now_ms in [1_000, 1_500, 1_899, 1_900, 5_000] {
        for key in ["alice", "bob", "carol", "dave"] {
            assert_eq!(
                asked.admit_request(key, 5, now_ms),
                plain.admit_request(key, 5, now_ms),
                "{key} at {now_ms}"
            );
            assert_eq!(
                asked.charge(key, 3, now_ms),
                plain.charge(key, 3, now_ms),
                "{key} at {now_ms}"
            );
        }
    }
}
