//! Fixed-window, per-key token accounting.
//!
//! One fixed window per key, started by the key's first charge and reset
//! wholesale once it elapses. The ledger performs no I/O and takes the current
//! time as a parameter. It holds all its state in memory, over a bounded number
//! of keys.

use vstd::prelude::*;

use crate::ordered_map::{retained, OrderedMap};

verus! {

/// One key's usage within its current fixed window.
#[derive(Debug, Clone, Copy)]
pub struct KeyWindow {
    /// When this window began, as milliseconds from the filter's epoch.
    pub start_ms: u64,
    /// Tokens charged so far within this window.
    pub used: u64,
}

/// `value`, or the largest `u64` if `value` is larger.
pub open spec fn saturated(value: int) -> u64 {
    if value <= u64::MAX {
        value as u64
    } else {
        u64::MAX
    }
}

impl KeyWindow {
    /// The instant at which this window elapses.
    pub open spec fn reset_ms(self, window_ms: u64) -> u64 {
        saturated(self.start_ms + window_ms)
    }

    /// Whether this window has elapsed at `now_ms`.
    pub open spec fn is_expired(self, window_ms: u64, now_ms: u64) -> bool {
        now_ms >= self.reset_ms(window_ms)
    }

    /// Whether this window has fully elapsed at `now_ms`.
    pub fn expired(&self, window_ms: u64, now_ms: u64) -> (expired: bool)
        ensures
            expired == self.is_expired(window_ms, now_ms),
    {
        now_ms >= self.start_ms.saturating_add(window_ms)
    }

    /// Milliseconds from `now_ms` until this window elapses, zero once it has.
    pub fn remaining_ms(&self, window_ms: u64, now_ms: u64) -> (remaining: u64)
        ensures
            remaining as int == if self.is_expired(window_ms, now_ms) {
                0
            } else {
                self.reset_ms(window_ms) - now_ms
            },
    {
        self.start_ms.saturating_add(window_ms).saturating_sub(now_ms)
    }
}

/// Admission decision for a request, produced by [`CeilingLedger::admit_request`].
#[derive(Debug, Clone, Copy, PartialEq, Eq, Structural)]
pub enum Admission {
    /// Committed usage is below the ceiling, or the key has no usage yet: let
    /// the request through.
    Admit,
    /// The key's committed usage has reached its ceiling.
    Deny {
        /// Milliseconds until the key's current window resets.
        retry_after_ms: u64,
    },
    /// The ledger is full and cannot track a new key; the caller decides the
    /// failure mode.
    AtCapacity,
}

/// Outcome of recording usage via [`CeilingLedger::charge`].
#[derive(Debug, Clone, Copy, PartialEq, Eq, Structural)]
pub enum Charge {
    /// The usage was recorded (or was zero, which needs no record).
    Recorded,
    /// The ledger is full; the charge was dropped and is not counted against
    /// the key's ceiling.
    Dropped,
}

/// What a ledger holds.
#[verifier::ext_equal]
pub struct LedgerView {
    /// Fixed window length in milliseconds.
    pub window_ms: u64,
    /// Bound on distinct keys tracked at once.
    pub max_keys: usize,
    /// The window of each tracked key.
    pub windows: Map<Seq<char>, KeyWindow>,
}

impl LedgerView {
    /// Whether the ledger keeps to its bound.
    pub open spec fn bounded(self) -> bool {
        self.windows.dom().finite() && self.windows.len() <= self.max_keys
    }

    /// Whether `key` has a window that has not elapsed at `now_ms`.
    pub open spec fn is_live(self, key: Seq<char>, now_ms: u64) -> bool {
        self.windows.contains_key(key) && !self.windows[key].is_expired(self.window_ms, now_ms)
    }

    /// The usage that counts against `key` at `now_ms`: what was charged within
    /// its current window.
    pub open spec fn committed(self, key: Seq<char>, now_ms: u64) -> u64 {
        if self.is_live(key, now_ms) {
            self.windows[key].used
        } else {
            0
        }
    }

    /// The ledger without the windows that have elapsed at `now_ms`.
    pub open spec fn evicted(self, now_ms: u64) -> LedgerView {
        LedgerView {
            windows: retained(
                self.windows,
                |window: KeyWindow| !window.is_expired(self.window_ms, now_ms),
            ),
            ..self
        }
    }

    /// The ledger after elapsed windows have made way for `key`, which happens
    /// only when `key` is new and the ledger is full.
    pub open spec fn with_room_for(self, key: Seq<char>, now_ms: u64) -> LedgerView {
        if self.windows.contains_key(key) || self.windows.len() < self.max_keys {
            self
        } else {
            self.evicted(now_ms)
        }
    }

    /// Whether `key` is tracked, or can be once elapsed windows made way.
    pub open spec fn can_track(self, key: Seq<char>, now_ms: u64) -> bool {
        self.windows.contains_key(key) || self.with_room_for(key, now_ms).windows.len()
            < self.max_keys
    }

    /// The decision on a request under `key` with the given `ceiling`.
    pub open spec fn admission(self, key: Seq<char>, ceiling: u64, now_ms: u64) -> Admission {
        if self.is_live(key, now_ms) && self.windows[key].used >= ceiling {
            Admission::Deny {
                retry_after_ms: (self.windows[key].reset_ms(self.window_ms) - now_ms) as u64,
            }
        } else if self.can_track(key, now_ms) {
            Admission::Admit
        } else {
            Admission::AtCapacity
        }
    }

    /// The outcome of charging `tokens` to `key`.
    pub open spec fn charge_outcome(self, key: Seq<char>, tokens: u64, now_ms: u64) -> Charge {
        if tokens == 0 || self.can_track(key, now_ms) {
            Charge::Recorded
        } else {
            Charge::Dropped
        }
    }

    /// The ledger after charging `tokens` to `key`: a live window accumulates,
    /// a new or elapsed one starts over at `now_ms`.
    pub open spec fn charged(self, key: Seq<char>, tokens: u64, now_ms: u64) -> LedgerView {
        if tokens == 0 {
            self
        } else if !self.can_track(key, now_ms) {
            self.with_room_for(key, now_ms)
        } else {
            let window = if self.is_live(key, now_ms) {
                KeyWindow {
                    start_ms: self.windows[key].start_ms,
                    used: saturated(self.windows[key].used + tokens),
                }
            } else {
                KeyWindow { start_ms: now_ms, used: tokens }
            };
            LedgerView {
                windows: self.with_room_for(key, now_ms).windows.insert(key, window),
                ..self
            }
        }
    }
}

/// In-memory fixed-window ledger mapping budget keys to their usage.
#[derive(Debug)]
pub struct CeilingLedger {
    /// Fixed window length in milliseconds.
    window_ms: u64,
    /// Bound on distinct keys tracked at once, so client-chosen keys cannot
    /// grow memory without limit.
    max_keys: usize,
    /// Per-key windows.
    entries: OrderedMap<KeyWindow>,
}

impl View for CeilingLedger {
    type V = LedgerView;

    closed spec fn view(&self) -> LedgerView {
        LedgerView {
            window_ms: self.window_ms,
            max_keys: self.max_keys,
            windows: self.entries@,
        }
    }
}

impl CeilingLedger {
    #[verifier::type_invariant]
    spec fn keeps_bound(&self) -> bool {
        self@.bounded()
    }

    /// Creates an empty ledger enforcing `window_ms` windows over at most
    /// `max_keys` distinct keys.
    pub fn new(window_ms: u64, max_keys: usize) -> (ledger: Self)
        ensures
            ledger@ == (LedgerView { window_ms, max_keys, windows: Map::empty() }),
            ledger@.bounded(),
    {
        CeilingLedger { window_ms, max_keys, entries: OrderedMap::new() }
    }

    /// Decides whether a request under `key` with the given `ceiling` may
    /// proceed at `now_ms`.
    ///
    /// Admission checks **committed** usage only, from responses that have
    /// already completed; requests in flight are not counted. A new key may
    /// make elapsed windows leave a full ledger.
    pub fn admit_request(&mut self, key: &str, ceiling: u64, now_ms: u64) -> (admission: Admission)
        ensures
            admission == old(self)@.admission(key@, ceiling, now_ms),
            final(self)@ == old(self)@.with_room_for(key@, now_ms),
            final(self)@.bounded(),
    {
        proof {
            use_type_invariant(&*self);
        }
        if let Some(window) = self.entries.get(key) {
            if window.expired(self.window_ms, now_ms) || window.used < ceiling {
                return Admission::Admit;
            }
            return Admission::Deny { retry_after_ms: window.remaining_ms(self.window_ms, now_ms) };
        }
        self.make_room(now_ms);
        if self.entries.len() >= self.max_keys {
            return Admission::AtCapacity;
        }
        Admission::Admit
    }

    /// Records `tokens` of usage against `key` at `now_ms`, starting or rolling
    /// the key's window as needed.
    pub fn charge(&mut self, key: &str, tokens: u64, now_ms: u64) -> (charge: Charge)
        ensures
            charge == old(self)@.charge_outcome(key@, tokens, now_ms),
            final(self)@ == old(self)@.charged(key@, tokens, now_ms),
            final(self)@.bounded(),
    {
        proof {
            use_type_invariant(&*self);
        }
        if tokens == 0 {
            return Charge::Recorded;
        }
        let known: Option<KeyWindow> = match self.entries.get(key) {
            Some(window) => Some(*window),
            None => None,
        };
        if let Some(window) = known {
            if window.expired(self.window_ms, now_ms) {
                self.store(key, KeyWindow { start_ms: now_ms, used: tokens });
            } else {
                let used: u64 = window.used.saturating_add(tokens);
                self.store(key, KeyWindow { start_ms: window.start_ms, used });
            }
            return Charge::Recorded;
        }
        self.make_room(now_ms);
        if self.entries.len() >= self.max_keys {
            return Charge::Dropped;
        }
        self.store(key, KeyWindow { start_ms: now_ms, used: tokens });
        Charge::Recorded
    }

    /// Drops elapsed windows if the ledger is full.
    fn make_room(&mut self, now_ms: u64)
        ensures
            final(self)@ == if old(self)@.windows.len() < old(self)@.max_keys {
                old(self)@
            } else {
                old(self)@.evicted(now_ms)
            },
            final(self)@.bounded(),
    {
        proof {
            use_type_invariant(&*self);
        }
        if self.entries.len() >= self.max_keys {
            let mut entries: OrderedMap<KeyWindow> = OrderedMap::new();
            core::mem::swap(&mut self.entries, &mut entries);
            Self::evict_expired(&mut entries, self.window_ms, now_ms);
            proof {
                lemma_evicted(old(self)@, now_ms);
            }
            self.entries = entries;
        }
    }

    /// Makes `window` the window of `key`.
    fn store(&mut self, key: &str, window: KeyWindow)
        requires
            old(self)@.windows.contains_key(key@) || old(self)@.windows.len() < old(self)@.max_keys,
        ensures
            final(self)@ == (LedgerView {
                windows: old(self)@.windows.insert(key@, window),
                ..old(self)@
            }),
            final(self)@.bounded(),
    {
        proof {
            use_type_invariant(&*self);
        }
        let mut entries: OrderedMap<KeyWindow> = OrderedMap::new();
        core::mem::swap(&mut self.entries, &mut entries);
        entries.insert(key, window);
        self.entries = entries;
    }

    /// Drops every entry whose window has elapsed, freeing capacity for new
    /// keys. Only invoked when the ledger is full.
    pub fn evict_expired(entries: &mut OrderedMap<KeyWindow>, window_ms: u64, now_ms: u64)
        ensures
            final(entries)@ == retained(
                old(entries)@,
                |window: KeyWindow| !window.is_expired(window_ms, now_ms),
            ),
    {
        let live = |window: &KeyWindow| -> (verdict: bool)
            ensures
                verdict == !window.is_expired(window_ms, now_ms),
            { !window.expired(window_ms, now_ms) };
        entries.retain(live, Ghost(|window: KeyWindow| !window.is_expired(window_ms, now_ms)));
    }
}

pub(crate) proof fn lemma_evicted(ledger: LedgerView, now_ms: u64)
    requires
        ledger.bounded(),
    ensures
        ledger.evicted(now_ms).bounded(),
        ledger.evicted(now_ms).windows.len() <= ledger.windows.len(),
        ledger.evicted(now_ms).windows.len() < ledger.windows.len() <==> exists|key: Seq<char>|
            ledger.windows.contains_key(key) && !#[trigger] ledger.is_live(key, now_ms),
{
    let remaining = ledger.evicted(now_ms).windows.dom();
    let all = ledger.windows.dom();
    assert(remaining.subset_of(all));
    vstd::set_lib::lemma_len_subset(remaining, all);
    if remaining.len() == all.len() {
        vstd::set_lib::lemma_subset_equality(remaining, all);
        assert forall|key: Seq<char>| ledger.windows.contains_key(
            key,
        ) implies #[trigger] ledger.is_live(key, now_ms) by {
            assert(remaining.contains(key));
        }
    } else {
        if forall|key: Seq<char>|
            ledger.windows.contains_key(key) ==> #[trigger] ledger.is_live(key, now_ms) {
            assert forall|key: Seq<char>| all.contains(key) implies remaining.contains(key) by {
                assert(ledger.is_live(key, now_ms));
            }
            assert(remaining =~= all);
        }
    }
}

} // verus!
