//! Laws of the filter: what a caller of the gateway can rely on.

use vstd::prelude::*;
use vstd::utf8::is_ascii_chars_encode_utf8;

use crate::config::{validated, KeySourceView, MissingKeyPolicy, TokenCeilingConfig, MAX_KEY_LENGTH};
use crate::config_laws::{law_accepted_ceilings_are_positive, law_accepted_exactly_when_sound};
use crate::filter::{
    budget_key, clears_stash, raw_key, reported_tokens, FilterView, RequestDecisionView,
    MAX_TRACKED_KEYS, META_CEILING_KEY,
};
use crate::headers::{ascii_lower, is_field_name, law_header_names_ignore_case};
use crate::ledger::{saturated, Charge};
use crate::ledger_laws::{
    after_event, after_events, in_order, law_bound_is_kept,
    law_denial_lasts_until_the_window_resets, law_keys_are_independent,
    law_new_keys_need_a_free_or_elapsed_slot, law_only_charged_keys_are_tracked,
    law_overshoot_is_bounded, law_requests_reserve_nothing, law_usage_accumulates_within_a_window,
    total_for, LedgerEvent,
};
use crate::ordered_map::ascending;
use crate::rejection::{
    exceeded_rejection, law_retry_after_rounds_up, retry_seconds, FilterActionView, RejectionView,
};
use crate::text::{byte_len, decimal_digits, law_decimal_reads_back, trimmed};

verus! {

impl FilterView {
    /// Whether the filter is one that an accepted configuration gives rise to.
    pub open spec fn valid(self) -> bool {
        &&& self.ledger.bounded()
        &&& self.ledger.max_keys == MAX_TRACKED_KEYS
        &&& self.ledger.window_ms > 0
        &&& forall|key: Seq<char>| #[trigger]
            self.ceilings.contains_key(key) ==> self.ceilings[key] > 0
        &&& self.default_ceiling matches Some(ceiling) ==> ceiling > 0
    }

    /// Whether a request under `key` is answered with the 429 that announces a
    /// wait of `retry_after_ms`.
    pub open spec fn rejects_with_wait(
        self,
        key: Seq<char>,
        now_ms: u64,
        retry_after_ms: u64,
    ) -> bool {
        self.ceiling_of(key) matches Some(ceiling) && self.decision(Some(key), now_ms)
            == RequestDecisionView::Rejected(
            FilterActionView::Reject(exceeded_rejection(ceiling, retry_after_ms)),
        )
    }
}

/// What a filter sees of the gateway's traffic.
pub enum Traffic {
    /// A request whose budget key is `key` was decided on.
    Request { key: Option<Seq<char>>, now_ms: u64 },
    /// A response to a request tracked under `key` ended, with its total reported
    /// as `total`.
    Response { key: Seq<char>, total: Option<Seq<char>>, now_ms: u64 },
}

impl Traffic {
    /// When the filter saw it.
    pub open spec fn at(self) -> u64 {
        match self {
            Traffic::Request { now_ms, .. } => now_ms,
            Traffic::Response { now_ms, .. } => now_ms,
        }
    }

    /// The tokens that it charges to `key`.
    pub open spec fn tokens_for(self, key: Seq<char>) -> u64 {
        match self {
            Traffic::Request { .. } => 0,
            Traffic::Response { key: charged, total, .. } => match reported_tokens(total) {
                Some(tokens) => if charged == key {
                    tokens
                } else {
                    0
                },
                None => 0,
            },
        }
    }

    /// The call on the ledger that it leads to, if any.
    pub open spec fn ledger_event(self, filter: FilterView) -> Option<LedgerEvent> {
        match self {
            Traffic::Request { key: Some(key), now_ms } => if filter.ceiling_of(key) is Some {
                Some(LedgerEvent::Asked { key, now_ms })
            } else {
                None
            },
            Traffic::Request { key: None, .. } => None,
            Traffic::Response { key, total, now_ms } => match reported_tokens(total) {
                Some(tokens) => Some(LedgerEvent::Charged { key, tokens, now_ms }),
                None => None,
            },
        }
    }
}

/// The filter after one piece of traffic.
pub open spec fn after_one(filter: FilterView, traffic: Traffic) -> FilterView {
    match traffic {
        Traffic::Request { key, now_ms } => filter.after_decision(key, now_ms),
        Traffic::Response { key, total, now_ms } => filter.settled(key, total, now_ms),
    }
}

/// The filter after a run of traffic, in order.
pub open spec fn after_traffic(filter: FilterView, traffic: Seq<Traffic>) -> FilterView
    decreases traffic.len(),
{
    if traffic.len() == 0 {
        filter
    } else {
        after_one(after_traffic(filter, traffic.drop_last()), traffic.last())
    }
}

/// The tokens that a run of traffic charges to `key`, in total.
pub open spec fn spent_by(key: Seq<char>, traffic: Seq<Traffic>) -> nat
    decreases traffic.len(),
{
    if traffic.len() == 0 {
        0
    } else {
        spent_by(key, traffic.drop_last()) + traffic.last().tokens_for(key) as nat
    }
}

/// Whether all of a run of traffic comes before `end_ms`.
pub open spec fn seen_before(traffic: Seq<Traffic>, end_ms: u64) -> bool {
    forall|i: int| 0 <= i < traffic.len() ==> (#[trigger] traffic[i]).at() < end_ms
}

/// Whether time does not run backwards over a run of traffic from `from_ms` to
/// `to_ms`.
pub open spec fn seen_in_order(traffic: Seq<Traffic>, from_ms: u64, to_ms: u64) -> bool {
    &&& from_ms <= to_ms
    &&& forall|i: int| 0 <= i < traffic.len() ==> from_ms <= (#[trigger] traffic[i]).at() <= to_ms
    &&& forall|i: int, j: int|
        0 <= i <= j < traffic.len() ==> (#[trigger] traffic[i]).at() <= (
        #[trigger] traffic[j]).at()
}

spec fn ledger_events(filter: FilterView, traffic: Seq<Traffic>) -> Seq<LedgerEvent>
    decreases traffic.len(),
{
    if traffic.len() == 0 {
        Seq::empty()
    } else {
        let before = ledger_events(filter, traffic.drop_last());
        match traffic.last().ledger_event(filter) {
            Some(event) => before.push(event),
            None => before,
        }
    }
}

proof fn lemma_traffic_is_ledger_events(filter: FilterView, traffic: Seq<Traffic>, key: Seq<char>)
    ensures
        after_traffic(filter, traffic) == filter.with_ledger(
            after_events(filter.ledger, ledger_events(filter, traffic)),
        ),
        total_for(key, ledger_events(filter, traffic)) == spent_by(key, traffic),
    decreases traffic.len(),
{
    if traffic.len() > 0 {
        let front = traffic.drop_last();
        let events = ledger_events(filter, front);
        lemma_traffic_is_ledger_events(filter, front, key);
        let before = after_traffic(filter, front);
        assert(forall|any: Seq<char>| #[trigger] before.ceiling_of(any) == filter.ceiling_of(any));
        if let Some(event) = traffic.last().ledger_event(filter) {
            assert(events.push(event).drop_last() =~= events);
            assert(after_traffic(filter, traffic) == filter.with_ledger(
                after_event(before.ledger, event),
            ));
        }
    }
}

proof fn lemma_events_come_when_seen(filter: FilterView, traffic: Seq<Traffic>)
    ensures
        forall|j: int|
            0 <= j < ledger_events(filter, traffic).len() ==> exists|i: int|
                0 <= i < traffic.len() && (#[trigger] traffic[i]).at() == (
                #[trigger] ledger_events(filter, traffic)[j]).at(),
    decreases traffic.len(),
{
    if traffic.len() > 0 {
        let front = traffic.drop_last();
        let before = ledger_events(filter, front);
        lemma_events_come_when_seen(filter, front);
        let events = ledger_events(filter, traffic);
        assert forall|j: int| 0 <= j < events.len() implies exists|i: int|
            0 <= i < traffic.len() && (#[trigger] traffic[i]).at() == (
            #[trigger] events[j]).at() by {
            if j < before.len() {
                assert(events[j] == before[j]);
                let i = choose|i: int|
                    0 <= i < front.len() && (#[trigger] front[i]).at() == before[j].at();
                assert(traffic[i] == front[i]);
            } else {
                assert(traffic[traffic.len() - 1].at() == events[j].at());
            }
        }
    }
}

proof fn lemma_events_keep_order(
    filter: FilterView,
    traffic: Seq<Traffic>,
    from_ms: u64,
    to_ms: u64,
)
    requires
        seen_in_order(traffic, from_ms, to_ms),
    ensures
        in_order(ledger_events(filter, traffic), from_ms, to_ms),
    decreases traffic.len(),
{
    if traffic.len() > 0 {
        let front = traffic.drop_last();
        let last = traffic.last();
        assert(traffic[traffic.len() - 1] == last);
        assert forall|i: int| 0 <= i < front.len() implies from_ms <= (#[trigger] front[i]).at()
            <= last.at() by {
            assert(front[i] == traffic[i]);
        }
        assert forall|i: int, j: int| 0 <= i <= j < front.len() implies (
        #[trigger] front[i]).at() <= (#[trigger] front[j]).at() by {
            assert(front[i] == traffic[i] && front[j] == traffic[j]);
        }
        lemma_events_keep_order(filter, front, from_ms, last.at());
    }
}

/// A filter built from an accepted configuration is valid.
pub proof fn law_built_filter_is_valid(config: TokenCeilingConfig)
    requires
        validated(config) is Ok,
        ascending(config.ceilings.entries()),
    ensures
        FilterView::built_from(config).valid(),
{
    law_accepted_exactly_when_sound(config);
    let filter = FilterView::built_from(config);
    assert forall|key: Seq<char>| #[trigger] filter.ceilings.contains_key(
        key,
    ) implies filter.ceilings[key] > 0 by {
        law_accepted_ceilings_are_positive(config, key);
    }
    law_accepted_ceilings_are_positive(config, Seq::empty());
}

/// Requests and responses keep a filter valid and change nothing of it but its
/// ledger: it never tracks more than its bound of distinct keys.
pub proof fn law_validity_is_kept(
    filter: FilterView,
    key: Option<Seq<char>>,
    charged: Seq<char>,
    total: Option<Seq<char>>,
    now_ms: u64,
)
    requires
        filter.valid(),
    ensures
        filter.after_decision(key, now_ms).valid(),
        filter.after_decision(key, now_ms) == filter.with_ledger(
            filter.after_decision(key, now_ms).ledger,
        ),
        filter.settled(charged, total, now_ms).valid(),
        filter.settled(charged, total, now_ms) == filter.with_ledger(
            filter.settled(charged, total, now_ms).ledger,
        ),
        filter.settled(charged, total, now_ms).ledger.windows.len() <= MAX_TRACKED_KEYS,
{
    if let Some(present) = key {
        law_bound_is_kept(filter.ledger, present, 0, now_ms);
    }
    if let Some(tokens) = reported_tokens(total) {
        law_bound_is_kept(filter.ledger, charged, tokens, now_ms);
    }
}

/// A keyless request passes untracked, or is answered a bare 403 where keyless
/// requests are rejected; the filter stays as it was.
pub proof fn law_keyless_requests(filter: FilterView, now_ms: u64)
    ensures
        filter.missing_key == MissingKeyPolicy::Allow ==> filter.decision(None, now_ms)
            == RequestDecisionView::Untracked,
        filter.missing_key == MissingKeyPolicy::Reject ==> filter.decision(None, now_ms)
            == RequestDecisionView::Rejected(FilterActionView::Reject(RejectionView::bare(403))),
        filter.after_decision(None, now_ms) == filter,
{
}

/// A key without a ceiling of its own passes untracked, whatever it has used,
/// when there is no default ceiling; the filter stays as it was.
pub proof fn law_unlisted_keys_are_uncapped_without_a_default(
    filter: FilterView,
    key: Seq<char>,
    now_ms: u64,
)
    requires
        !filter.ceilings.contains_key(key),
        filter.default_ceiling is None,
    ensures
        filter.decision(Some(key), now_ms) == RequestDecisionView::Untracked,
        filter.after_decision(Some(key), now_ms) == filter,
{
}

/// A listed key's own ceiling applies whatever the default is, and the default
/// applies to every other key.
pub proof fn law_own_ceiling_comes_before_the_default(filter: FilterView, key: Seq<char>)
    ensures
        filter.ceilings.contains_key(key) ==> filter.ceiling_of(key) == Some(filter.ceilings[key]),
        !filter.ceilings.contains_key(key) ==> filter.ceiling_of(key) == filter.default_ceiling,
{
}

/// A capped key is answered 429 exactly when its committed usage has reached
/// its ceiling, and the wait announced is what its window has left. A tracked
/// key below its ceiling is let through.
pub proof fn law_429_exactly_when_the_ceiling_is_reached(
    filter: FilterView,
    key: Seq<char>,
    ceiling: u64,
    now_ms: u64,
)
    requires
        filter.valid(),
        filter.ceiling_of(key) == Some(ceiling),
    ensures
        filter.ledger.committed(key, now_ms) >= ceiling <==> exists|wait: u64| #[trigger]
            filter.rejects_with_wait(key, now_ms, wait),
        filter.ledger.committed(key, now_ms) >= ceiling ==> filter.rejects_with_wait(
            key,
            now_ms,
            (filter.ledger.windows[key].reset_ms(filter.ledger.window_ms) - now_ms) as u64,
        ),
        filter.ledger.windows.contains_key(key) && filter.ledger.committed(key, now_ms) < ceiling
            ==> filter.decision(Some(key), now_ms) == RequestDecisionView::TrackedUnder(key),
{
    let left = (filter.ledger.windows[key].reset_ms(filter.ledger.window_ms) - now_ms) as u64;
    if filter.ledger.committed(key, now_ms) >= ceiling {
        assert(filter.rejects_with_wait(key, now_ms, left));
    } else {
        assert forall|wait: u64| !#[trigger] filter.rejects_with_wait(key, now_ms, wait) by {
            assert(exceeded_rejection(ceiling, wait).status == 429);
            assert(RejectionView::bare(503).status == 503);
        }
    }
}

/// The budget of one window: once a charge has started a key's window, and
/// until that window resets, requests under the key are answered 429 exactly
/// when what was charged to it since then has reached its ceiling, and are let
/// through otherwise, whatever requests and responses come meanwhile, under this
/// key and others.
pub proof fn law_budget_of_one_window(
    filter: FilterView,
    key: Seq<char>,
    ceiling: u64,
    tokens: u64,
    start_ms: u64,
    traffic: Seq<Traffic>,
    later_ms: u64,
)
    requires
        filter.valid(),
        filter.ceiling_of(key) == Some(ceiling),
        !filter.ledger.is_live(key, start_ms),
        tokens > 0,
        filter.ledger.charge_outcome(key, tokens, start_ms) == Charge::Recorded,
        later_ms < saturated(start_ms + filter.ledger.window_ms),
        seen_before(traffic, saturated(start_ms + filter.ledger.window_ms)),
    ensures
        ({
            let total = Some(decimal_digits(tokens as nat));
            let spent = after_traffic(filter.settled(key, total, start_ms), traffic);
            if tokens + spent_by(key, traffic) >= ceiling {
                spent.rejects_with_wait(
                    key,
                    later_ms,
                    (saturated(start_ms + filter.ledger.window_ms) - later_ms) as u64,
                )
            } else {
                spent.decision(Some(key), later_ms) == RequestDecisionView::TrackedUnder(key)
            }
        }),
{
    law_decimal_reads_back(tokens);
    let started = filter.settled(key, Some(decimal_digits(tokens as nat)), start_ms);
    let events = ledger_events(started, traffic);
    lemma_traffic_is_ledger_events(started, traffic, key);
    lemma_events_come_when_seen(started, traffic);
    law_usage_accumulates_within_a_window(started.ledger, key, events);
    let spent = after_traffic(started, traffic);
    assert(spent.ledger.is_live(key, later_ms));
    assert(spent.ceiling_of(key) == Some(ceiling));
}

/// A key that has spent its ceiling is answered 429 until its window resets,
/// whatever requests and responses come meanwhile, under this key and others,
/// and the wait announced runs to that reset. At the reset and after it the key
/// is let through again.
pub proof fn law_spent_key_gets_429_until_its_window_resets(
    filter: FilterView,
    key: Seq<char>,
    ceiling: u64,
    now_ms: u64,
    traffic: Seq<Traffic>,
    later_ms: u64,
)
    requires
        filter.valid(),
        filter.ceiling_of(key) == Some(ceiling),
        filter.ledger.committed(key, now_ms) >= ceiling,
        seen_before(traffic, filter.ledger.windows[key].reset_ms(filter.ledger.window_ms)),
    ensures
        ({
            let reset_ms = filter.ledger.windows[key].reset_ms(filter.ledger.window_ms);
            let after = after_traffic(filter, traffic);
            if later_ms < reset_ms {
                after.rejects_with_wait(key, later_ms, (reset_ms - later_ms) as u64)
            } else {
                after.decision(Some(key), later_ms) == RequestDecisionView::TrackedUnder(key)
            }
        }),
{
    let events = ledger_events(filter, traffic);
    lemma_traffic_is_ledger_events(filter, traffic, key);
    lemma_events_come_when_seen(filter, traffic);
    law_denial_lasts_until_the_window_resets(
        filter.ledger,
        key,
        ceiling,
        now_ms,
        events,
        later_ms,
    );
    assert(after_traffic(filter, traffic).ceiling_of(key) == Some(ceiling));
}

/// A client that was answered 429 and waits for the announced seconds is let
/// through again, whatever requests and responses come before the reset.
pub proof fn law_announced_wait_suffices(
    filter: FilterView,
    key: Seq<char>,
    ceiling: u64,
    now_ms: u64,
    traffic: Seq<Traffic>,
    later_ms: u64,
)
    requires
        filter.valid(),
        filter.ceiling_of(key) == Some(ceiling),
        filter.ledger.committed(key, now_ms) >= ceiling,
        ({
            let reset_ms = filter.ledger.windows[key].reset_ms(filter.ledger.window_ms);
            &&& seen_before(traffic, reset_ms)
            &&& later_ms >= now_ms + retry_seconds((reset_ms - now_ms) as u64) * 1000
        }),
    ensures
        after_traffic(filter, traffic).decision(Some(key), later_ms)
            == RequestDecisionView::TrackedUnder(key),
{
    let wait_ms = filter.ledger.windows[key].reset_ms(filter.ledger.window_ms) - now_ms;
    law_retry_after_rounds_up(wait_ms as u64);
    law_spent_key_gets_429_until_its_window_resets(
        filter,
        key,
        ceiling,
        now_ms,
        traffic,
        later_ms,
    );
}

/// A key can overshoot its ceiling only by the totals of responses that end
/// after it was last found below it, whatever else comes meanwhile.
pub proof fn law_overshoot_is_what_was_in_flight(
    filter: FilterView,
    key: Seq<char>,
    ceiling: u64,
    now_ms: u64,
    traffic: Seq<Traffic>,
    later_ms: u64,
)
    requires
        filter.ledger.committed(key, now_ms) < ceiling,
        now_ms <= later_ms,
        forall|i: int| 0 <= i < traffic.len() ==> (#[trigger] traffic[i]).at() <= later_ms,
    ensures
        after_traffic(filter, traffic).ledger.committed(key, later_ms) < ceiling + spent_by(
            key,
            traffic,
        ),
{
    let events = ledger_events(filter, traffic);
    lemma_traffic_is_ledger_events(filter, traffic, key);
    lemma_events_come_when_seen(filter, traffic);
    law_overshoot_is_bounded(filter.ledger, key, ceiling, now_ms, events, later_ms);
}

/// Nothing is reserved at admission: one request more changes no later decision
/// and no later charge, over any run of traffic in which time does not run
/// backwards.
pub proof fn law_requests_change_no_later_answer(
    filter: FilterView,
    key: Option<Seq<char>>,
    now_ms: u64,
    traffic: Seq<Traffic>,
    any: Option<Seq<char>>,
    charged: Seq<char>,
    total: Option<Seq<char>>,
    later_ms: u64,
)
    requires
        filter.valid(),
        seen_in_order(traffic, now_ms, later_ms),
    ensures
        ({
            let with = after_traffic(filter.after_decision(key, now_ms), traffic);
            let without = after_traffic(filter, traffic);
            &&& with.decision(any, later_ms) == without.decision(any, later_ms)
            &&& with.settlement(charged, total, later_ms) == without.settlement(
                charged,
                total,
                later_ms,
            )
        }),
{
    let asked = filter.after_decision(key, now_ms);
    let with = after_traffic(asked, traffic);
    let without = after_traffic(filter, traffic);
    let events = ledger_events(filter, traffic);
    lemma_traffic_is_ledger_events(asked, traffic, charged);
    lemma_traffic_is_ledger_events(filter, traffic, charged);
    lemma_events_keep_order(filter, traffic, now_ms, later_ms);
    lemma_same_ceilings_same_events(asked, filter, traffic);
    assert(forall|k: Seq<char>| #[trigger] with.ceiling_of(k) == without.ceiling_of(k));
    if let Some(asking) = key {
        if filter.ceiling_of(asking) is Some {
            let tokens = match reported_tokens(total) {
                Some(tokens) => tokens,
                None => 0,
            };
            law_requests_reserve_nothing(
                filter.ledger,
                asking,
                now_ms,
                events,
                charged,
                0,
                tokens,
                later_ms,
            );
            if let Some(asked_key) = any {
                let ceiling = match without.ceiling_of(asked_key) {
                    Some(ceiling) => ceiling,
                    None => 0,
                };
                law_requests_reserve_nothing(
                    filter.ledger,
                    asking,
                    now_ms,
                    events,
                    asked_key,
                    ceiling,
                    0,
                    later_ms,
                );
            }
        }
    }
}

proof fn lemma_same_ceilings_same_events(a: FilterView, b: FilterView, traffic: Seq<Traffic>)
    requires
        forall|key: Seq<char>| #[trigger] a.ceiling_of(key) == b.ceiling_of(key),
    ensures
        ledger_events(a, traffic) == ledger_events(b, traffic),
    decreases traffic.len(),
{
    if traffic.len() > 0 {
        lemma_same_ceilings_same_events(a, b, traffic.drop_last());
    }
}

/// However much traffic a filter has seen since it was built, it is valid, and
/// it tracks only keys to which a response has charged tokens.
pub proof fn law_only_spenders_are_tracked(
    config: TokenCeilingConfig,
    traffic: Seq<Traffic>,
    key: Seq<char>,
)
    requires
        validated(config) is Ok,
        ascending(config.ceilings.entries()),
    ensures
        ({
            let reached = after_traffic(FilterView::built_from(config), traffic);
            &&& reached.valid()
            &&& reached.ledger.windows.contains_key(key) ==> 1
                <= reached.ledger.windows[key].used <= spent_by(key, traffic)
        }),
{
    law_built_filter_is_valid(config);
    let built = FilterView::built_from(config);
    let events = ledger_events(built, traffic);
    lemma_traffic_is_ledger_events(built, traffic, key);
    law_only_charged_keys_are_tracked(built.ledger.window_ms, MAX_TRACKED_KEYS, events, key);
}

/// A new key is answered a bare 503 exactly when the ledger is full of windows
/// that have not elapsed, and is let through otherwise. A tracked key is never
/// answered 503.
pub proof fn law_new_keys_fail_closed_at_capacity(
    filter: FilterView,
    key: Seq<char>,
    now_ms: u64,
)
    requires
        filter.valid(),
        filter.ceiling_of(key) is Some,
    ensures
        ({
            let ledger = filter.ledger;
            let full = ledger.windows.len() == MAX_TRACKED_KEYS && forall|any: Seq<char>|
                ledger.windows.contains_key(any) ==> #[trigger] ledger.is_live(any, now_ms);
            let unavailable = RequestDecisionView::Rejected(
                FilterActionView::Reject(RejectionView::bare(503)),
            );
            if ledger.windows.contains_key(key) {
                filter.decision(Some(key), now_ms) != unavailable
            } else {
                filter.decision(Some(key), now_ms) == if full {
                    unavailable
                } else {
                    RequestDecisionView::TrackedUnder(key)
                }
            }
        }),
{
    let ceiling = filter.ceiling_of(key)->0;
    if !filter.ledger.windows.contains_key(key) {
        law_new_keys_need_a_free_or_elapsed_slot(filter.ledger, key, ceiling, 1, now_ms);
    } else {
        assert(RejectionView::bare(503).status == 503);
        assert(forall|wait: u64| (#[trigger] exceeded_rejection(ceiling, wait)).status == 429);
    }
}

/// A filter that has charged nothing yet lets every capped key through.
pub proof fn law_fresh_filter_lets_every_key_through(
    config: TokenCeilingConfig,
    key: Seq<char>,
    now_ms: u64,
)
    requires
        validated(config) is Ok,
        FilterView::built_from(config).ceiling_of(key) is Some,
    ensures
        FilterView::built_from(config).decision(Some(key), now_ms)
            == RequestDecisionView::TrackedUnder(key),
{
}

/// The total that a response reports is charged to its key: the committed usage
/// rises by that total, if it was recorded. Left out is the last instant of the
/// clock, at which no window can start.
pub proof fn law_reported_total_is_charged(
    filter: FilterView,
    key: Seq<char>,
    tokens: u64,
    now_ms: u64,
)
    requires
        filter.valid(),
        tokens == 0 || now_ms < u64::MAX,
    ensures
        ({
            let total = Some(decimal_digits(tokens as nat));
            let settled = filter.settled(key, total, now_ms);
            &&& filter.settlement(key, total, now_ms) is Some
            &&& filter.settlement(key, total, now_ms) == Some(Charge::Recorded)
                ==> settled.ledger.committed(key, now_ms) == saturated(
                filter.ledger.committed(key, now_ms) + tokens,
            )
        }),
{
    law_decimal_reads_back(tokens);
}

/// When a request has been let through, its total can be charged at that
/// instant.
pub proof fn law_tracked_request_can_be_charged(
    filter: FilterView,
    key: Seq<char>,
    tokens: u64,
    now_ms: u64,
)
    requires
        filter.decision(Some(key), now_ms) == RequestDecisionView::TrackedUnder(key),
    ensures
        filter.after_decision(Some(key), now_ms).settlement(
            key,
            Some(decimal_digits(tokens as nat)),
            now_ms,
        ) == Some(Charge::Recorded),
{
    law_decimal_reads_back(tokens);
}

/// A response without a total, or with one that is no number, charges nothing.
pub proof fn law_unparseable_totals_charge_nothing(
    filter: FilterView,
    key: Seq<char>,
    total: Option<Seq<char>>,
    now_ms: u64,
)
    requires
        reported_tokens(total) is None,
    ensures
        filter.settled(key, total, now_ms) == filter,
        filter.settlement(key, total, now_ms) is None,
{
}

/// What is charged to one key changes neither the committed usage of another
/// nor the decision on it while its window lasts.
pub proof fn law_settling_leaves_other_keys_alone(
    filter: FilterView,
    key: Seq<char>,
    total: Option<Seq<char>>,
    now_ms: u64,
    other: Seq<char>,
    later_ms: u64,
)
    requires
        key != other,
        now_ms <= later_ms,
    ensures
        ({
            let settled = filter.settled(key, total, now_ms);
            &&& settled.ledger.committed(other, later_ms) == filter.ledger.committed(
                other,
                later_ms,
            )
            &&& filter.ledger.is_live(other, later_ms) ==> settled.decision(Some(other), later_ms)
                == filter.decision(Some(other), later_ms)
        }),
{
    if let Some(tokens) = reported_tokens(total) {
        let ceiling = match filter.ceiling_of(other) {
            Some(ceiling) => ceiling,
            None => 0,
        };
        law_keys_are_independent(filter.ledger, key, tokens, now_ms, other, ceiling, later_ms);
    }
}

/// Distinct values never share a budget: a budget key is the whole trimmed
/// value, never a part of it, and it is neither empty nor over-long.
pub proof fn law_distinct_keys_never_collide(a: Seq<char>, b: Seq<char>)
    requires
        budget_key(Some(a)) is Some,
        budget_key(Some(a)) == budget_key(Some(b)),
    ensures
        trimmed(a) == trimmed(b),
        budget_key(Some(a)) == Some(trimmed(a)),
        0 < trimmed(a).len(),
        byte_len(trimmed(a)) <= MAX_KEY_LENGTH,
{
}

/// A header key source reads the same key whatever the case of its name.
pub proof fn law_header_source_ignores_case(
    headers: http::HeaderMap,
    metadata: Map<Seq<char>, String>,
    name: Seq<char>,
    other: Seq<char>,
)
    requires
        is_field_name(name),
        name.len() == other.len(),
        forall|i: int|
            0 <= i < name.len() ==> ascii_lower(#[trigger] name[i]) == ascii_lower(other[i]),
    ensures
        budget_key(raw_key(KeySourceView::Header(name), headers, metadata)) == budget_key(
            raw_key(KeySourceView::Header(other), headers, metadata),
        ),
{
    law_header_names_ignore_case(headers, name, other);
}

/// A key read from metadata does not depend on the request's headers, which the
/// client controls, and depends on no other metadata entry. A key read from a
/// header does not depend on the metadata.
pub proof fn law_key_sources_are_separate(
    name: Seq<char>,
    headers: http::HeaderMap,
    other_headers: http::HeaderMap,
    metadata: Map<Seq<char>, String>,
    other_metadata: Map<Seq<char>, String>,
)
    ensures
        metadata.contains_key(name) == other_metadata.contains_key(name) && (
        metadata.contains_key(name) ==> metadata[name]@ == other_metadata[name]@) ==> raw_key(
            KeySourceView::Metadata(name),
            headers,
            metadata,
        ) == raw_key(KeySourceView::Metadata(name), other_headers, other_metadata),
        raw_key(KeySourceView::Header(name), headers, metadata) == raw_key(
            KeySourceView::Header(name),
            headers,
            other_metadata,
        ),
{
}

/// One call for a part of a response.
pub struct ResponseCall {
    pub end_of_stream: bool,
    pub total: Option<Seq<char>>,
    pub now_ms: u64,
}

/// What is left of a stashed key after the calls for a response, each of which
/// removes it if it asks for that.
pub open spec fn stash_after(stash: Option<Seq<char>>, calls: Seq<ResponseCall>) -> Option<
    Seq<char>,
>
    decreases calls.len(),
{
    if calls.len() == 0 {
        stash
    } else {
        let before = stash_after(stash, calls.drop_last());
        if clears_stash(calls.last().end_of_stream, before) {
            None
        } else {
            before
        }
    }
}

/// Whether the call at `i` ends the stream, and no call before it does.
pub open spec fn first_end(calls: Seq<ResponseCall>, i: int) -> bool {
    &&& 0 <= i < calls.len()
    &&& calls[i].end_of_stream
    &&& forall|j: int| 0 <= j < i ==> !(#[trigger] calls[j]).end_of_stream
}

proof fn lemma_stash_lasts_until_the_end(stash: Option<Seq<char>>, calls: Seq<ResponseCall>)
    ensures
        stash_after(stash, calls) == if exists|j: int|
            0 <= j < calls.len() && (#[trigger] calls[j]).end_of_stream {
            None
        } else {
            stash
        },
    decreases calls.len(),
{
    if calls.len() > 0 {
        let front = calls.drop_last();
        lemma_stash_lasts_until_the_end(stash, front);
        if exists|j: int| 0 <= j < front.len() && (#[trigger] front[j]).end_of_stream {
            let j = choose|j: int| 0 <= j < front.len() && (#[trigger] front[j]).end_of_stream;
            assert(calls[j] == front[j]);
        } else if calls.last().end_of_stream {
            assert(calls[calls.len() - 1].end_of_stream);
        } else {
            assert forall|j: int| 0 <= j < calls.len() implies !(
            #[trigger] calls[j]).end_of_stream by {
                if j < front.len() {
                    assert(front[j] == calls[j]);
                }
            }
        }
    }
}

/// A tracked request is charged at most once over the calls for its response,
/// whatever else the filter does between them: the first call that ends the
/// stream charges the stashed key with the total then reported, and no other
/// call changes the filter.
pub proof fn law_a_response_is_charged_at_most_once(
    filter: FilterView,
    key: Seq<char>,
    calls: Seq<ResponseCall>,
    i: int,
)
    requires
        0 <= i < calls.len(),
    ensures
        ({
            let call = calls[i];
            let stash = stash_after(Some(key), calls.take(i));
            let after = filter.after_response(call.end_of_stream, stash, call.total, call.now_ms);
            let charge = filter.response_charge(
                call.end_of_stream,
                stash,
                call.total,
                call.now_ms,
            );
            if first_end(calls, i) {
                &&& after == filter.settled(key, call.total, call.now_ms)
                &&& charge == filter.settlement(key, call.total, call.now_ms)
            } else {
                after == filter && charge is None
            }
        }),
        forall|j: int| first_end(calls, i) && #[trigger] first_end(calls, j) ==> i == j,
{
    let before = calls.take(i);
    lemma_stash_lasts_until_the_end(Some(key), before);
    assert forall|j: int| 0 <= j < i implies #[trigger] before[j] == calls[j] by {}
    if exists|j: int| 0 <= j < before.len() && (#[trigger] before[j]).end_of_stream {
        let j = choose|j: int| 0 <= j < before.len() && (#[trigger] before[j]).end_of_stream;
        assert(calls[j].end_of_stream);
        assert(!first_end(calls, i));
    } else {
        assert forall|j: int| 0 <= j < i implies !(#[trigger] calls[j]).end_of_stream by {
            assert(before[j] == calls[j]);
        }
        assert(first_end(calls, i) == calls[i].end_of_stream);
    }
    assert forall|j: int| first_end(calls, i) && #[trigger] first_end(calls, j) implies i
        == j by {
        if i < j {
            assert(!calls[i].end_of_stream);
        } else if j < i {
            assert(!calls[j].end_of_stream);
        }
    }
}

/// A request that is not tracked is never charged: without a stashed key no call
/// for its response changes the filter.
pub proof fn law_untracked_requests_are_never_charged(
    filter: FilterView,
    calls: Seq<ResponseCall>,
    i: int,
)
    requires
        0 <= i < calls.len(),
    ensures
        ({
            let call = calls[i];
            let stash = stash_after(None, calls.take(i));
            &&& filter.after_response(call.end_of_stream, stash, call.total, call.now_ms) == filter
            &&& filter.response_charge(call.end_of_stream, stash, call.total, call.now_ms) is None
        }),
{
    lemma_stash_lasts_until_the_end(None, calls.take(i));
}

/// The name under which a key is stashed takes few enough bytes to be kept as
/// request metadata.
pub proof fn law_stash_name_fits()
    ensures
        byte_len(META_CEILING_KEY@) <= 64,
{
    reveal_strlit("token_ceiling.key");
    is_ascii_chars_encode_utf8(META_CEILING_KEY@);
}

} // verus!
