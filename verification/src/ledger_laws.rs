//! Laws of the ledger: what holds across calls, keys and time.

use vstd::prelude::*;

use crate::ledger::{lemma_evicted, saturated, Admission, Charge, KeyWindow, LedgerView};

verus! {

/// A call on the ledger.
pub enum LedgerEvent {
    /// A request under `key` was decided on.
    Asked { key: Seq<char>, now_ms: u64 },
    /// `tokens` were charged to `key`.
    Charged { key: Seq<char>, tokens: u64, now_ms: u64 },
}

impl LedgerEvent {
    /// When the call was made.
    pub open spec fn at(self) -> u64 {
        match self {
            LedgerEvent::Asked { now_ms, .. } => now_ms,
            LedgerEvent::Charged { now_ms, .. } => now_ms,
        }
    }

    /// The tokens that the call charges to `key`.
    pub open spec fn tokens_for(self, key: Seq<char>) -> u64 {
        match self {
            LedgerEvent::Asked { .. } => 0,
            LedgerEvent::Charged { key: charged, tokens, .. } => if charged == key {
                tokens
            } else {
                0
            },
        }
    }
}

/// The ledger after one call.
pub open spec fn after_event(ledger: LedgerView, event: LedgerEvent) -> LedgerView {
    match event {
        LedgerEvent::Asked { key, now_ms } => ledger.with_room_for(key, now_ms),
        LedgerEvent::Charged { key, tokens, now_ms } => ledger.charged(key, tokens, now_ms),
    }
}

/// The ledger after a run of calls, in order.
pub open spec fn after_events(ledger: LedgerView, events: Seq<LedgerEvent>) -> LedgerView
    decreases events.len(),
{
    if events.len() == 0 {
        ledger
    } else {
        after_event(after_events(ledger, events.drop_last()), events.last())
    }
}

/// The tokens that a run of calls charges to `key`, in total.
pub open spec fn total_for(key: Seq<char>, events: Seq<LedgerEvent>) -> nat
    decreases events.len(),
{
    if events.len() == 0 {
        0
    } else {
        total_for(key, events.drop_last()) + events.last().tokens_for(key) as nat
    }
}

/// Whether every call of a run comes before `end_ms`.
pub open spec fn all_before(events: Seq<LedgerEvent>, end_ms: u64) -> bool {
    forall|i: int| 0 <= i < events.len() ==> (#[trigger] events[i]).at() < end_ms
}

/// Whether time does not run backwards over a run of calls from `from_ms` to
/// `to_ms`.
pub open spec fn in_order(events: Seq<LedgerEvent>, from_ms: u64, to_ms: u64) -> bool {
    &&& from_ms <= to_ms
    &&& forall|i: int| 0 <= i < events.len() ==> from_ms <= (#[trigger] events[i]).at() <= to_ms
    &&& forall|i: int, j: int|
        0 <= i <= j < events.len() ==> (#[trigger] events[i]).at() <= (#[trigger] events[j]).at()
}

/// No operation takes the ledger past its bound on distinct keys.
pub proof fn law_bound_is_kept(ledger: LedgerView, key: Seq<char>, tokens: u64, now_ms: u64)
    requires
        ledger.bounded(),
    ensures
        ledger.with_room_for(key, now_ms).bounded(),
        ledger.charged(key, tokens, now_ms).bounded(),
{
    lemma_evicted(ledger, now_ms);
}

/// A request is denied exactly when the usage committed under its key has
/// reached the ceiling.
pub proof fn law_denied_exactly_at_the_ceiling(
    ledger: LedgerView,
    key: Seq<char>,
    ceiling: u64,
    now_ms: u64,
)
    requires
        ceiling > 0 || ledger.is_live(key, now_ms),
    ensures
        ledger.admission(key, ceiling, now_ms) is Deny <==> ledger.committed(key, now_ms)
            >= ceiling,
        ledger.windows.contains_key(key) ==> (ledger.admission(key, ceiling, now_ms)
            == Admission::Admit <==> ledger.committed(key, now_ms) < ceiling),
{
}

/// A denied key stays denied until its window resets, whatever requests and
/// charges come meanwhile, under this key and others, and the announced wait is
/// positive and shrinks as time passes. At the announced instant and after it the
/// key is let through again.
pub proof fn law_denial_lasts_until_the_window_resets(
    ledger: LedgerView,
    key: Seq<char>,
    ceiling: u64,
    now_ms: u64,
    events: Seq<LedgerEvent>,
    later_ms: u64,
)
    requires
        ledger.admission(key, ceiling, now_ms) is Deny,
        all_before(
            events,
            (now_ms + ledger.admission(key, ceiling, now_ms)->retry_after_ms) as u64,
        ),
    ensures
        ledger.admission(key, ceiling, now_ms)->retry_after_ms > 0,
        ({
            let reset_ms = now_ms + ledger.admission(key, ceiling, now_ms)->retry_after_ms;
            let after = after_events(ledger, events);
            &&& reset_ms <= u64::MAX
            &&& later_ms < reset_ms ==> after.admission(key, ceiling, later_ms) == Admission::Deny {
                retry_after_ms: (reset_ms - later_ms) as u64,
            }
            &&& later_ms >= reset_ms ==> after.admission(key, ceiling, later_ms) == Admission::Admit
        }),
{
    law_usage_accumulates_within_a_window(ledger, key, events);
}

/// Once a key's window has elapsed, the key is let through whatever it had
/// used.
pub proof fn law_elapsed_window_admits(
    ledger: LedgerView,
    key: Seq<char>,
    ceiling: u64,
    now_ms: u64,
)
    requires
        ledger.windows.contains_key(key),
        ledger.windows[key].is_expired(ledger.window_ms, now_ms),
    ensures
        ledger.admission(key, ceiling, now_ms) == Admission::Admit,
        ledger.committed(key, now_ms) == 0,
{
}

/// Keys are accounted independently: what is charged to one key changes neither
/// the committed usage nor the denial of another, then or later.
pub proof fn law_keys_are_independent(
    ledger: LedgerView,
    key: Seq<char>,
    tokens: u64,
    now_ms: u64,
    other: Seq<char>,
    ceiling: u64,
    later_ms: u64,
)
    requires
        key != other,
        now_ms <= later_ms,
    ensures
        ({
            let charged = ledger.charged(key, tokens, now_ms);
            &&& charged.committed(other, later_ms) == ledger.committed(other, later_ms)
            &&& charged.is_live(other, later_ms) == ledger.is_live(other, later_ms)
            &&& ledger.admission(other, ceiling, later_ms) is Deny ==> charged.admission(
                other,
                ceiling,
                later_ms,
            ) == ledger.admission(other, ceiling, later_ms)
            &&& charged.admission(other, ceiling, later_ms) is Deny ==> ledger.admission(
                other,
                ceiling,
                later_ms,
            ) is Deny
        }),
{
}

/// Deciding on a request reserves nothing: it changes no key's committed usage.
pub proof fn law_admission_commits_no_usage(
    ledger: LedgerView,
    key: Seq<char>,
    now_ms: u64,
    any: Seq<char>,
    later_ms: u64,
)
    requires
        now_ms <= later_ms,
    ensures
        ledger.with_room_for(key, now_ms).committed(any, later_ms) == ledger.committed(
            any,
            later_ms,
        ),
        ledger.with_room_for(key, now_ms).windows.contains_key(any)
            ==> ledger.windows.contains_key(any),
{
}

proof fn lemma_eviction_composes(ledger: LedgerView, now_ms: u64, later_ms: u64)
    requires
        now_ms <= later_ms,
    ensures
        ledger.evicted(now_ms).evicted(later_ms) == ledger.evicted(later_ms),
{
    assert(ledger.evicted(now_ms).evicted(later_ms).windows =~= ledger.evicted(
        later_ms,
    ).windows);
}

proof fn lemma_can_track(ledger: LedgerView, key: Seq<char>, now_ms: u64)
    requires
        ledger.bounded(),
    ensures
        ledger.can_track(key, now_ms) <==> ledger.evicted(now_ms).windows.contains_key(key)
            || ledger.evicted(now_ms).windows.len() < ledger.max_keys,
{
    lemma_evicted(ledger, now_ms);
    if ledger.windows.contains_key(key) && !ledger.is_live(key, now_ms) {
        assert(ledger.evicted(now_ms).windows.len() < ledger.windows.len());
    }
}

proof fn lemma_answers_depend_on_live_windows(
    a: LedgerView,
    b: LedgerView,
    key: Seq<char>,
    ceiling: u64,
    tokens: u64,
    now_ms: u64,
)
    requires
        a.bounded(),
        b.bounded(),
        a.evicted(now_ms) == b.evicted(now_ms),
    ensures
        a.admission(key, ceiling, now_ms) == b.admission(key, ceiling, now_ms),
        a.charge_outcome(key, tokens, now_ms) == b.charge_outcome(key, tokens, now_ms),
{
    lemma_can_track(a, key, now_ms);
    lemma_can_track(b, key, now_ms);
    assert(a.is_live(key, now_ms) == a.evicted(now_ms).windows.contains_key(key));
    assert(b.is_live(key, now_ms) == b.evicted(now_ms).windows.contains_key(key));
    if a.is_live(key, now_ms) {
        assert(a.evicted(now_ms).windows[key] == a.windows[key]);
        assert(b.evicted(now_ms).windows[key] == b.windows[key]);
    }
    assert(a.evicted(now_ms).window_ms == b.evicted(now_ms).window_ms);
    assert(a.evicted(now_ms).max_keys == b.evicted(now_ms).max_keys);
}

proof fn lemma_events_depend_on_live_windows(a: LedgerView, b: LedgerView, event: LedgerEvent)
    requires
        a.bounded(),
        b.bounded(),
        a.evicted(event.at()) == b.evicted(event.at()),
    ensures
        after_event(a, event).bounded(),
        after_event(b, event).bounded(),
        after_event(a, event).evicted(event.at()) == after_event(b, event).evicted(event.at()),
{
    let now_ms = event.at();
    lemma_eviction_composes(a, now_ms, now_ms);
    lemma_eviction_composes(b, now_ms, now_ms);
    assert(a.evicted(now_ms).window_ms == b.evicted(now_ms).window_ms);
    match event {
        LedgerEvent::Asked { key, .. } => {
            law_bound_is_kept(a, key, 0, now_ms);
            law_bound_is_kept(b, key, 0, now_ms);
        },
        LedgerEvent::Charged { key, tokens, .. } => {
            law_bound_is_kept(a, key, tokens, now_ms);
            law_bound_is_kept(b, key, tokens, now_ms);
            lemma_answers_depend_on_live_windows(a, b, key, 0, tokens, now_ms);
            lemma_charged_live_windows(a, key, tokens, now_ms);
            lemma_charged_live_windows(b, key, tokens, now_ms);
        },
    }
}

proof fn lemma_charged_live_windows(ledger: LedgerView, key: Seq<char>, tokens: u64, now_ms: u64)
    ensures
        ledger.charged(key, tokens, now_ms).evicted(now_ms) == if tokens > 0
            && ledger.charge_outcome(key, tokens, now_ms) == Charge::Recorded {
            let live = ledger.evicted(now_ms);
            LedgerView {
                windows: live.windows.insert(
                    key,
                    if live.windows.contains_key(key) {
                        KeyWindow {
                            start_ms: live.windows[key].start_ms,
                            used: saturated(live.windows[key].used + tokens),
                        }
                    } else {
                        KeyWindow { start_ms: now_ms, used: tokens }
                    },
                ),
                ..live
            }.evicted(now_ms)
        } else {
            ledger.evicted(now_ms)
        },
{
    lemma_eviction_composes(ledger, now_ms, now_ms);
    let live = ledger.evicted(now_ms);
    assert(ledger.is_live(key, now_ms) == live.windows.contains_key(key));
    if tokens > 0 && ledger.can_track(key, now_ms) {
        let charged = ledger.charged(key, tokens, now_ms);
        let window = if live.windows.contains_key(key) {
            KeyWindow {
                start_ms: live.windows[key].start_ms,
                used: saturated(live.windows[key].used + tokens),
            }
        } else {
            KeyWindow { start_ms: now_ms, used: tokens }
        };
        let direct = LedgerView { windows: live.windows.insert(key, window), ..live };
        assert(charged.windows[key] == window);
        assert(charged.evicted(now_ms).windows =~= direct.evicted(now_ms).windows);
    }
}

proof fn lemma_runs_depend_on_live_windows(
    a: LedgerView,
    b: LedgerView,
    from_ms: u64,
    events: Seq<LedgerEvent>,
    to_ms: u64,
)
    requires
        a.bounded(),
        b.bounded(),
        a.evicted(from_ms) == b.evicted(from_ms),
        in_order(events, from_ms, to_ms),
    ensures
        after_events(a, events).bounded(),
        after_events(b, events).bounded(),
        after_events(a, events).evicted(to_ms) == after_events(b, events).evicted(to_ms),
    decreases events.len(),
{
    if events.len() == 0 {
        lemma_eviction_composes(a, from_ms, to_ms);
        lemma_eviction_composes(b, from_ms, to_ms);
    } else {
        let front = events.drop_last();
        let last = events.last();
        assert(events[events.len() - 1] == last);
        assert forall|i: int| 0 <= i < front.len() implies from_ms <= (#[trigger] front[i]).at()
            <= last.at() by {
            assert(front[i] == events[i]);
        }
        assert forall|i: int, j: int| 0 <= i <= j < front.len() implies (
        #[trigger] front[i]).at() <= (#[trigger] front[j]).at() by {
            assert(front[i] == events[i] && front[j] == events[j]);
        }
        lemma_runs_depend_on_live_windows(a, b, from_ms, front, last.at());
        let before_a = after_events(a, front);
        let before_b = after_events(b, front);
        lemma_events_depend_on_live_windows(before_a, before_b, last);
        lemma_eviction_composes(after_event(before_a, last), last.at(), to_ms);
        lemma_eviction_composes(after_event(before_b, last), last.at(), to_ms);
    }
}

/// Nothing is reserved at admission: one request more changes no later answer,
/// to a request or to a charge, in any run of calls over which time does not run
/// backwards.
pub proof fn law_requests_reserve_nothing(
    ledger: LedgerView,
    key: Seq<char>,
    now_ms: u64,
    events: Seq<LedgerEvent>,
    any: Seq<char>,
    ceiling: u64,
    tokens: u64,
    later_ms: u64,
)
    requires
        ledger.bounded(),
        in_order(events, now_ms, later_ms),
    ensures
        ({
            let with = after_events(ledger.with_room_for(key, now_ms), events);
            let without = after_events(ledger, events);
            &&& with.admission(any, ceiling, later_ms) == without.admission(any, ceiling, later_ms)
            &&& with.charge_outcome(any, tokens, later_ms) == without.charge_outcome(
                any,
                tokens,
                later_ms,
            )
            &&& with.committed(any, later_ms) == without.committed(any, later_ms)
        }),
{
    let asked = ledger.with_room_for(key, now_ms);
    law_bound_is_kept(ledger, key, 0, now_ms);
    lemma_eviction_composes(ledger, now_ms, now_ms);
    lemma_runs_depend_on_live_windows(asked, ledger, now_ms, events, later_ms);
    let with = after_events(asked, events);
    let without = after_events(ledger, events);
    lemma_answers_depend_on_live_windows(with, without, any, ceiling, tokens, later_ms);
    assert(with.evicted(later_ms).windows.contains_key(any) == with.is_live(any, later_ms));
    assert(without.evicted(later_ms).windows.contains_key(any) == without.is_live(any, later_ms));
    assert(with.is_live(any, later_ms) ==> with.evicted(later_ms).windows[any]
        == with.windows[any]);
    assert(without.is_live(any, later_ms) ==> without.evicted(later_ms).windows[any]
        == without.windows[any]);
}

/// A charge of no tokens changes nothing, and needs no capacity.
pub proof fn law_zero_charge_changes_nothing(ledger: LedgerView, key: Seq<char>, now_ms: u64)
    ensures
        ledger.charged(key, 0, now_ms) == ledger,
        ledger.charge_outcome(key, 0, now_ms) == Charge::Recorded,
{
}

/// A recorded charge raises the committed usage by its tokens, up to the
/// largest count there is. A window of no length commits nothing, nor does one
/// that starts at the last instant of the clock.
pub proof fn law_recorded_charge_is_committed(
    ledger: LedgerView,
    key: Seq<char>,
    tokens: u64,
    now_ms: u64,
)
    requires
        tokens == 0 || ledger.window_ms > 0 && now_ms < u64::MAX,
        ledger.charge_outcome(key, tokens, now_ms) == Charge::Recorded,
    ensures
        ledger.charged(key, tokens, now_ms).committed(key, now_ms) == saturated(
            ledger.committed(key, now_ms) + tokens,
        ),
{
}

/// Windows are fixed: the first charge of a window starts it, later charges
/// within it do not move it.
pub proof fn law_windows_are_fixed(
    ledger: LedgerView,
    key: Seq<char>,
    tokens: u64,
    now_ms: u64,
)
    requires
        tokens > 0,
        ledger.charge_outcome(key, tokens, now_ms) == Charge::Recorded,
    ensures
        ledger.charged(key, tokens, now_ms).windows.contains_key(key),
        ledger.is_live(key, now_ms) ==> ledger.charged(key, tokens, now_ms).windows[key].start_ms
            == ledger.windows[key].start_ms,
        !ledger.is_live(key, now_ms) ==> ledger.charged(key, tokens, now_ms).windows[key] == (
        KeyWindow { start_ms: now_ms, used: tokens }),
{
}

/// Within one window usage accumulates: after any run of requests and charges,
/// under this key and others, the key has used what it had used before plus what
/// the run charged to it, and its window has not moved.
pub proof fn law_usage_accumulates_within_a_window(
    ledger: LedgerView,
    key: Seq<char>,
    events: Seq<LedgerEvent>,
)
    requires
        ledger.windows.contains_key(key),
        all_before(events, ledger.windows[key].reset_ms(ledger.window_ms)),
    ensures
        after_events(ledger, events).window_ms == ledger.window_ms,
        after_events(ledger, events).windows.contains_key(key),
        after_events(ledger, events).windows[key] == (KeyWindow {
            start_ms: ledger.windows[key].start_ms,
            used: saturated(ledger.windows[key].used + total_for(key, events)),
        }),
    decreases events.len(),
{
    if events.len() > 0 {
        let front = events.drop_last();
        let last = events.last();
        assert forall|i: int| 0 <= i < front.len() implies (#[trigger] front[i]).at()
            < ledger.windows[key].reset_ms(ledger.window_ms) by {
            assert(front[i] == events[i]);
        }
        assert(events[events.len() - 1] == last);
        law_usage_accumulates_within_a_window(ledger, key, front);
        assert(after_events(ledger, front).is_live(key, last.at()));
    }
}

proof fn lemma_event_adds_at_most(
    ledger: LedgerView,
    event: LedgerEvent,
    key: Seq<char>,
    later_ms: u64,
)
    requires
        event.at() <= later_ms,
    ensures
        after_event(ledger, event).committed(key, later_ms) <= ledger.committed(key, later_ms)
            + event.tokens_for(key),
{
}

/// A key can overshoot its ceiling only by what was charged after it was last
/// found below it, whatever requests and charges come meanwhile: the requests
/// then in flight.
pub proof fn law_overshoot_is_bounded(
    ledger: LedgerView,
    key: Seq<char>,
    ceiling: u64,
    now_ms: u64,
    events: Seq<LedgerEvent>,
    later_ms: u64,
)
    requires
        ledger.committed(key, now_ms) < ceiling,
        now_ms <= later_ms,
        forall|i: int| 0 <= i < events.len() ==> (#[trigger] events[i]).at() <= later_ms,
    ensures
        after_events(ledger, events).committed(key, later_ms) < ceiling + total_for(key, events),
    decreases events.len(),
{
    if events.len() > 0 {
        let front = events.drop_last();
        assert forall|i: int| 0 <= i < front.len() implies (#[trigger] front[i]).at()
            <= later_ms by {
            assert(front[i] == events[i]);
        }
        assert(events[events.len() - 1] == events.last());
        law_overshoot_is_bounded(ledger, key, ceiling, now_ms, front, later_ms);
        lemma_event_adds_at_most(after_events(ledger, front), events.last(), key, later_ms);
    }
}

/// Only charges make the ledger track a key. However a ledger came about, it
/// keeps to its bound, and every key that it tracks was charged tokens: when its
/// window started, and no less than one and no more than all in total.
pub proof fn law_only_charged_keys_are_tracked(
    window_ms: u64,
    max_keys: usize,
    events: Seq<LedgerEvent>,
    key: Seq<char>,
)
    ensures
        ({
            let empty = LedgerView { window_ms, max_keys, windows: Map::empty() };
            let reached = after_events(empty, events);
            &&& reached.window_ms == window_ms
            &&& reached.max_keys == max_keys
            &&& reached.bounded()
            &&& reached.windows.contains_key(key) ==> {
                &&& 1 <= reached.windows[key].used <= total_for(key, events)
                &&& exists|i: int|
                    0 <= i < events.len() && (#[trigger] events[i]).tokens_for(key) > 0
                        && events[i].at() == reached.windows[key].start_ms
            }
        }),
    decreases events.len(),
{
    if events.len() > 0 {
        let empty = LedgerView { window_ms, max_keys, windows: Map::empty() };
        let front = events.drop_last();
        let last = events.last();
        let before = after_events(empty, front);
        let reached = after_events(empty, events);
        law_only_charged_keys_are_tracked(window_ms, max_keys, front, key);
        match last {
            LedgerEvent::Asked { key: asked, now_ms } => {
                law_bound_is_kept(before, asked, 0, now_ms);
            },
            LedgerEvent::Charged { key: charged, tokens, now_ms } => {
                law_bound_is_kept(before, charged, tokens, now_ms);
            },
        }
        if reached.windows.contains_key(key) {
            if before.windows.contains_key(key) && reached.windows[key].start_ms
                == before.windows[key].start_ms {
                let i = choose|i: int|
                    0 <= i < front.len() && (#[trigger] front[i]).tokens_for(key) > 0
                        && front[i].at() == before.windows[key].start_ms;
                assert(events[i] == front[i]);
            } else {
                assert(events[events.len() - 1] == last);
            }
        }
    }
}

/// Tracked keys keep working when the ledger is full.
pub proof fn law_known_keys_keep_working(
    ledger: LedgerView,
    key: Seq<char>,
    ceiling: u64,
    tokens: u64,
    now_ms: u64,
)
    requires
        ledger.windows.contains_key(key),
    ensures
        ledger.admission(key, ceiling, now_ms) != Admission::AtCapacity,
        ledger.charge_outcome(key, tokens, now_ms) == Charge::Recorded,
        ledger.with_room_for(key, now_ms) == ledger,
{
}

/// A new key finds no place exactly when the ledger is full of windows that
/// have not elapsed; then a charge to it is dropped and the ledger stays as it
/// is.
pub proof fn law_new_keys_need_a_free_or_elapsed_slot(
    ledger: LedgerView,
    key: Seq<char>,
    ceiling: u64,
    tokens: u64,
    now_ms: u64,
)
    requires
        ledger.bounded(),
        !ledger.windows.contains_key(key),
        tokens > 0,
    ensures
        ({
            let full = ledger.windows.len() == ledger.max_keys && forall|any: Seq<char>|
                ledger.windows.contains_key(any) ==> #[trigger] ledger.is_live(any, now_ms);
            &&& ledger.admission(key, ceiling, now_ms) == if full {
                Admission::AtCapacity
            } else {
                Admission::Admit
            }
            &&& ledger.charge_outcome(key, tokens, now_ms) == if full {
                Charge::Dropped
            } else {
                Charge::Recorded
            }
            &&& full ==> ledger.charged(key, tokens, now_ms) == ledger
        }),
{
    lemma_evicted(ledger, now_ms);
    if ledger.windows.len() == ledger.max_keys && forall|any: Seq<char>|
        ledger.windows.contains_key(any) ==> #[trigger] ledger.is_live(any, now_ms) {
        assert forall|any: Seq<char>| ledger.windows.contains_key(any) implies ledger.evicted(
            now_ms,
        ).windows.contains_key(any) by {
            assert(ledger.is_live(any, now_ms));
        }
        assert(ledger.evicted(now_ms).windows =~= ledger.windows);
    }
}

/// When a key has been let through, a charge to it at that instant is recorded.
pub proof fn law_admitted_usage_can_be_charged(
    ledger: LedgerView,
    key: Seq<char>,
    ceiling: u64,
    tokens: u64,
    now_ms: u64,
)
    requires
        ledger.admission(key, ceiling, now_ms) == Admission::Admit,
    ensures
        ledger.with_room_for(key, now_ms).charge_outcome(key, tokens, now_ms) == Charge::Recorded,
{
}

} // verus!
