//! Laws of calls: what a call gives back for what goes into it, and what later
//! calls give after it.

use std::time::{Duration, Instant};

use vstd::prelude::*;
use vstd::utf8::encode_utf8;

use crate::clock::{saturate_millis, whole_millis};
use crate::config::{validate, KeySource, KeySourceView, MissingKeyPolicy, TokenCeilingConfig};
use crate::config_laws::{lemma_written_window, WrittenWindow};
use crate::filter::{
    carry_out, resolve_key, usable_key, FilterView, RequestDecision, RequestDecisionView,
    RequestOutcome, ResponseOutcome, TokenCeilingFilter,
};
use crate::filter_laws::{
    after_traffic, law_only_spenders_are_tracked, law_spent_key_gets_429_until_its_window_resets,
    law_validity_is_kept, seen_before, Traffic,
};
use crate::headers::read_header;
use crate::ledger::{lemma_evicted, Admission, CeilingLedger, Charge, KeyWindow, LedgerView};
use crate::ordered_map::{ascending, OrderedMap};
use crate::rejection::{
    ceiling_exceeded, exceeded_rejection, missing_key_rejection, retry_seconds, FilterAction,
    Rejection,
};
use crate::text::{
    digits_value, is_plain_decimal, lemma_decimal_is_plain, trimmed, u64_denoted,
};

verus! {

/// When a window that started at `start_ms` ends: after its length, or at the
/// last instant of the clock if that comes first.
pub open spec fn end_ms(start_ms: u64, window_ms: u64) -> int {
    if start_ms + window_ms <= u64::MAX {
        start_ms + window_ms
    } else {
        u64::MAX as int
    }
}

/// Whether a window is still running at `now_ms`.
pub open spec fn runs(window: KeyWindow, window_ms: u64, now_ms: u64) -> bool {
    now_ms < end_ms(window.start_ms, window_ms)
}

/// Whether a ledger has a running window for `key`.
pub open spec fn has_running(ledger: LedgerView, key: Seq<char>, now_ms: u64) -> bool {
    ledger.windows.contains_key(key) && runs(ledger.windows[key], ledger.window_ms, now_ms)
}

/// Whether a ledger has as many keys as it may have, all of them with running
/// windows.
pub open spec fn crowded(ledger: LedgerView, now_ms: u64) -> bool {
    &&& ledger.windows.len() >= ledger.max_keys
    &&& forall|key: Seq<char>| #[trigger]
        ledger.windows.contains_key(key) ==> runs(ledger.windows[key], ledger.window_ms, now_ms)
}

/// Whether a ledger has no more keys than it may have.
pub open spec fn within_bound(ledger: LedgerView) -> bool {
    ledger.windows.dom().finite() && ledger.windows.len() <= ledger.max_keys
}

/// Whether `after` is `before` but for elapsed windows of a full ledger.
pub open spec fn less_elapsed(before: LedgerView, after: LedgerView, now_ms: u64) -> bool {
    &&& after.window_ms == before.window_ms
    &&& after.max_keys == before.max_keys
    &&& within_bound(after)
    &&& before.windows.len() < before.max_keys ==> after.windows == before.windows
    &&& forall|key: Seq<char>| #[trigger]
        after.windows.contains_key(key) ==> before.windows.contains_key(key) && after.windows[key]
            == before.windows[key]
    &&& forall|key: Seq<char>|
        has_running(before, key, now_ms) ==> #[trigger] after.windows.contains_key(key)
}

/// What a request under `key` with a `ceiling` is answered, and what it leaves of
/// the ledger.
pub open spec fn answers(
    before: LedgerView,
    after: LedgerView,
    key: Seq<char>,
    ceiling: u64,
    now_ms: u64,
    admission: Admission,
) -> bool {
    &&& less_elapsed(before, after, now_ms)
    &&& before.windows.contains_key(key) ==> after == before
    &&& if has_running(before, key, now_ms) && before.windows[key].used >= ceiling {
        admission matches Admission::Deny { retry_after_ms } && retry_after_ms == end_ms(
            before.windows[key].start_ms,
            before.window_ms,
        ) - now_ms
    } else if !before.windows.contains_key(key) && crowded(before, now_ms) {
        admission is AtCapacity
    } else {
        admission is Admit
    }
}

/// What a charge of `tokens` to `key` comes to, and what it makes of the ledger.
pub open spec fn charges(
    before: LedgerView,
    after: LedgerView,
    key: Seq<char>,
    tokens: u64,
    now_ms: u64,
    charge: Charge,
) -> bool {
    if tokens == 0 {
        after == before && charge is Recorded
    } else if !before.windows.contains_key(key) && crowded(before, now_ms) {
        after == before && charge is Dropped
    } else {
        &&& charge is Recorded
        &&& after.window_ms == before.window_ms
        &&& after.max_keys == before.max_keys
        &&& within_bound(after)
        &&& after.windows.contains_key(key)
        &&& if has_running(before, key, now_ms) {
            let sum = before.windows[key].used + tokens;
            &&& after.windows[key].start_ms == before.windows[key].start_ms
            &&& sum <= u64::MAX ==> after.windows[key].used == sum
            &&& sum > u64::MAX ==> after.windows[key].used == u64::MAX
        } else {
            after.windows[key].start_ms == now_ms && after.windows[key].used == tokens
        }
        &&& forall|other: Seq<char>|
            other != key && #[trigger] after.windows.contains_key(other)
                ==> before.windows.contains_key(other) && after.windows[other]
                == before.windows[other]
        &&& forall|other: Seq<char>|
            has_running(before, other, now_ms) ==> #[trigger] after.windows.contains_key(other)
        &&& before.windows.contains_key(key) || before.windows.len() < before.max_keys ==> forall|
            other: Seq<char>,
        |
            before.windows.contains_key(other) ==> #[trigger] after.windows.contains_key(other)
    }
}

/// A window has elapsed once its length has passed since its start, or the clock
/// has come to its end; until then the time left runs to that instant.
pub proof fn law_windows_run_their_length(
    window: KeyWindow,
    window_ms: u64,
    now_ms: u64,
    expired: bool,
    remaining: u64,
)
    requires
        call_ensures(KeyWindow::expired, (&window, window_ms, now_ms), expired),
        call_ensures(KeyWindow::remaining_ms, (&window, window_ms, now_ms), remaining),
    ensures
        expired <==> now_ms >= window.start_ms + window_ms || now_ms == u64::MAX,
        expired ==> remaining == 0,
        !expired ==> now_ms + remaining == end_ms(window.start_ms, window_ms),
{
}

/// A new ledger tracks nothing and has the window and the bound that it was made
/// with.
pub proof fn law_new_ledgers_are_empty(
    window_ms: u64,
    max_keys: usize,
    ledger: CeilingLedger,
    key: Seq<char>,
)
    requires
        call_ensures(CeilingLedger::new, (window_ms, max_keys), ledger),
    ensures
        ledger@.window_ms == window_ms,
        ledger@.max_keys == max_keys,
        !ledger@.windows.contains_key(key),
        within_bound(ledger@),
{
}

/// Eviction keeps the running windows as they are and drops all others.
pub proof fn law_eviction_keeps_running_windows(
    entries: &mut OrderedMap<KeyWindow>,
    window_ms: u64,
    now_ms: u64,
    key: Seq<char>,
)
    requires
        call_ensures(CeilingLedger::evict_expired, (entries, window_ms, now_ms), ()),
    ensures
        final(entries)@.contains_key(key) <==> old(entries)@.contains_key(key) && runs(
            old(entries)@[key],
            window_ms,
            now_ms,
        ),
        final(entries)@.contains_key(key) ==> final(entries)@[key] == old(entries)@[key],
{
}

proof fn lemma_crowded(ledger: LedgerView, key: Seq<char>, now_ms: u64)
    requires
        within_bound(ledger),
        !ledger.windows.contains_key(key),
    ensures
        ledger.can_track(key, now_ms) == !crowded(ledger, now_ms),
        crowded(ledger, now_ms) ==> ledger.with_room_for(key, now_ms) == ledger,
        within_bound(ledger.with_room_for(key, now_ms)),
        less_elapsed(ledger, ledger.with_room_for(key, now_ms), now_ms),
{
    lemma_evicted(ledger, now_ms);
    assert forall|any: Seq<char>| #[trigger]
        ledger.windows.contains_key(any) implies ledger.is_live(any, now_ms) == runs(
        ledger.windows[any],
        ledger.window_ms,
        now_ms,
    ) by {}
    if crowded(ledger, now_ms) {
        assert forall|any: Seq<char>| ledger.windows.contains_key(any) implies ledger.evicted(
            now_ms,
        ).windows.contains_key(any) by {
            assert(ledger.is_live(any, now_ms));
        }
        assert(ledger.evicted(now_ms).windows =~= ledger.windows);
    } else if ledger.windows.len() >= ledger.max_keys {
        let any = choose|any: Seq<char>| #[trigger]
            ledger.windows.contains_key(any) && !runs(
                ledger.windows[any],
                ledger.window_ms,
                now_ms,
            );
        assert(!ledger.is_live(any, now_ms));
    }
}

proof fn lemma_answers(ledger: LedgerView, key: Seq<char>, ceiling: u64, now_ms: u64)
    requires
        within_bound(ledger),
    ensures
        answers(
            ledger,
            ledger.with_room_for(key, now_ms),
            key,
            ceiling,
            now_ms,
            ledger.admission(key, ceiling, now_ms),
        ),
{
    if !ledger.windows.contains_key(key) {
        lemma_crowded(ledger, key, now_ms);
    }
}

proof fn lemma_charges(ledger: LedgerView, key: Seq<char>, tokens: u64, now_ms: u64)
    requires
        within_bound(ledger),
    ensures
        charges(
            ledger,
            ledger.charged(key, tokens, now_ms),
            key,
            tokens,
            now_ms,
            ledger.charge_outcome(key, tokens, now_ms),
        ),
{
    if !ledger.windows.contains_key(key) {
        lemma_crowded(ledger, key, now_ms);
    }
}

/// A request is denied while its key's window runs with the ceiling spent, and
/// told when that window ends; a new key finds no place in a crowded ledger; every
/// other request is admitted. Only elapsed windows of a full ledger leave it.
pub proof fn law_admission_by_call(
    ledger: &mut CeilingLedger,
    key: &str,
    ceiling: u64,
    now_ms: u64,
    admission: Admission,
)
    requires
        within_bound(old(ledger)@),
        call_ensures(CeilingLedger::admit_request, (ledger, key, ceiling, now_ms), admission),
    ensures
        answers(old(ledger)@, final(ledger)@, key@, ceiling, now_ms, admission),
{
    lemma_answers(old(ledger)@, key@, ceiling, now_ms);
}

/// A charge adds its tokens to the key's running window, or starts one now with
/// just these tokens; a new key's charge to a crowded ledger is dropped. No other
/// key's running window changes.
pub proof fn law_charge_by_call(
    ledger: &mut CeilingLedger,
    key: &str,
    tokens: u64,
    now_ms: u64,
    charge: Charge,
)
    requires
        within_bound(old(ledger)@),
        call_ensures(CeilingLedger::charge, (ledger, key, tokens, now_ms), charge),
    ensures
        charges(old(ledger)@, final(ledger)@, key@, tokens, now_ms, charge),
{
    lemma_charges(old(ledger)@, key@, tokens, now_ms);
}

/// Whether `action` rejects with `status` and nothing else.
pub open spec fn rejects_bare(action: FilterAction, status: u16) -> bool {
    &&& action is Reject
    &&& action->Reject_0.status == status
    &&& action->Reject_0.headers@.len() == 0
    &&& action->Reject_0.body is None
}

/// Whether `seconds` is the least number of whole seconds, at least one, that
/// covers a wait of `wait_ms`.
pub open spec fn covers_wait(seconds: nat, wait_ms: int) -> bool {
    &&& seconds >= 1
    &&& seconds * 1000 >= wait_ms
    &&& seconds > 1 ==> (seconds - 1) * 1000 < wait_ms
}

/// The number in the first header of a rejection.
pub open spec fn announced_seconds(action: FilterAction) -> nat {
    digits_value(action->Reject_0.headers@[0].1@)
}

/// Whether `action` is the 429 that tells of a `ceiling` spent and of a wait of
/// `wait_ms`.
pub open spec fn tells_of_wait(action: FilterAction, ceiling: u64, wait_ms: int) -> bool {
    let headers = action->Reject_0.headers@;
    &&& action is Reject
    &&& action->Reject_0.status == 429
    &&& action->Reject_0.body is None
    &&& headers.len() == 4
    &&& headers[0].0@ == "Retry-After"@
    &&& headers[1].0@ == "X-RateLimit-Limit-Tokens"@
    &&& headers[2].0@ == "X-RateLimit-Remaining-Tokens"@
    &&& headers[3].0@ == "X-RateLimit-Reset-Tokens"@
    &&& is_plain_decimal(headers[0].1@, announced_seconds(action))
    &&& covers_wait(announced_seconds(action), wait_ms)
    &&& is_plain_decimal(headers[1].1@, ceiling as nat)
    &&& is_plain_decimal(headers[2].1@, 0)
    &&& headers[3].1@ == headers[0].1@
}

proof fn lemma_exceeded(ceiling: u64, retry_after_ms: u64, action: FilterAction)
    requires
        action is Reject,
        action->Reject_0@ == exceeded_rejection(ceiling, retry_after_ms),
    ensures
        tells_of_wait(action, ceiling, retry_after_ms as int),
{
    let rejection = action->Reject_0;
    let seconds = retry_seconds(retry_after_ms) as nat;
    assert(rejection@.headers.len() == 4);
    assert(rejection.headers@.len() == 4);
    assert(forall|i: int|
        0 <= i < 4 ==> (#[trigger] rejection@.headers[i]).0 == rejection.headers@[i].0@
            && rejection@.headers[i].1 == rejection.headers@[i].1@);
    assert(rejection@.headers[0].0 == "Retry-After"@);
    assert(rejection@.headers[1].0 == "X-RateLimit-Limit-Tokens"@);
    assert(rejection@.headers[2] == ("X-RateLimit-Remaining-Tokens"@, "0"@));
    assert(rejection@.headers[3].0 == "X-RateLimit-Reset-Tokens"@);
    lemma_decimal_is_plain(seconds);
    lemma_decimal_is_plain(ceiling as nat);
    reveal_strlit("0");
    assert(digits_value("0"@.drop_last()) == 0);
}

/// The 429 for a spent ceiling has four headers: the wait in the fewest whole
/// seconds that cover it, twice, the ceiling, and that nothing remains.
pub proof fn law_429_tells_of_the_wait(ceiling: u64, retry_after_ms: u64, action: FilterAction)
    requires
        call_ensures(ceiling_exceeded, (ceiling, retry_after_ms), action),
    ensures
        tells_of_wait(action, ceiling, retry_after_ms as int),
{
    lemma_exceeded(ceiling, retry_after_ms, action);
}

/// The rejection of a keyless request is a 403 with no header and no body.
pub proof fn law_keyless_rejection_is_bare(action: FilterAction)
    requires
        call_ensures(missing_key_rejection, (), action),
    ensures
        rejects_bare(action, 403),
{
    assert(action->Reject_0@.headers.len() == 0);
}

/// A rejection starts as its status alone, and a header put onto it comes behind
/// those that it has and changes nothing else.
pub proof fn law_rejections_are_built_up(
    code: u16,
    fresh: Rejection,
    before: Rejection,
    name: &str,
    value: String,
    after: Rejection,
    i: int,
)
    requires
        call_ensures(Rejection::status, (code,), fresh),
        call_ensures(Rejection::with_header, (before, name, value), after),
    ensures
        rejects_bare(FilterAction::Reject(fresh), code),
        after.status == before.status,
        after.body is Some <==> before.body is Some,
        after.body is Some ==> after.body->0@ == before.body->0@,
        after.headers@.len() == before.headers@.len() + 1,
        after.headers@.last().0@ == name@,
        after.headers@.last().1@ == value@,
        0 <= i < before.headers@.len() ==> after.headers@[i].0@ == before.headers@[i].0@
            && after.headers@[i].1@ == before.headers@[i].1@,
{
    assert(fresh@.headers.len() == 0);
    let n = before@.headers.len() as int;
    assert(after@.headers.len() == n + 1);
    assert(after@.headers[n] == (name@, value@));
    if 0 <= i < n {
        assert(after@.headers[i] == before@.headers[i]);
    }
}

/// Every value whose text without the white space around it has between one and
/// 256 bytes has a budget key, which is that text, whole. No other value has one.
pub proof fn law_usable_keys(raw: Option<&str>, key: Option<String>)
    requires
        call_ensures(usable_key, (raw,), key),
    ensures
        key is Some <==> raw is Some && 1 <= encode_utf8(trimmed(raw->0@)).len() <= 256,
        key is Some ==> key->0@ == trimmed(raw->0@),
{
    if let Some(text) = raw {
        lemma_no_bytes_no_characters(trimmed(text@));
    }
}

proof fn lemma_no_bytes_no_characters(text: Seq<char>)
    ensures
        encode_utf8(text).len() == 0 <==> text.len() == 0,
{
    reveal_with_fuel(encode_utf8, 2);
    vstd::utf8::encode_utf8_decode_utf8(text);
    vstd::utf8::encode_utf8_decode_utf8(Seq::<char>::empty());
    if text.len() == 0 {
        assert(text =~= Seq::empty());
    }
    if encode_utf8(text).len() == 0 {
        assert(encode_utf8(text) =~= encode_utf8(Seq::<char>::empty()));
    }
}

/// Whether `key` is the budget key in `raw`.
pub open spec fn is_key_in(key: Option<Seq<char>>, raw: Option<Seq<char>>) -> bool {
    &&& key is Some <==> raw is Some && 1 <= encode_utf8(trimmed(raw->0)).len() <= 256
    &&& key is Some ==> key->0 == trimmed(raw->0)
}

/// `text` as characters, if it is there.
pub open spec fn characters_of(text: Option<String>) -> Option<Seq<char>> {
    if text is Some {
        Some(text->0@)
    } else {
        None
    }
}

/// A metadata source reads the metadata entry of its name, and a header source the
/// header of its name; the budget key is in what was read.
pub proof fn law_keys_come_from_their_source(
    source: KeySource,
    headers: http::HeaderMap,
    metadata: OrderedMap<String>,
    name: &str,
    header: Option<&str>,
    key: Option<String>,
)
    requires
        source matches KeySource::Header(named) ==> name@ == named@ && call_ensures(
            read_header,
            (&headers, name),
            header,
        ),
        call_ensures(resolve_key, (&source, &headers, &metadata), key),
    ensures
        is_key_in(
            characters_of(key),
            match source {
                KeySource::Metadata(named) => if metadata@.contains_key(named@) {
                    Some(metadata@[named@]@)
                } else {
                    None
                },
                KeySource::Header(_) => if header is Some {
                    Some(header->0@)
                } else {
                    None
                },
            },
        ),
{
    match source {
        KeySource::Metadata(named) => {
            if metadata@.contains_key(named@) {
                lemma_no_bytes_no_characters(trimmed(metadata@[named@]@));
            }
        },
        KeySource::Header(_) => {
            if let Some(text) = header {
                lemma_no_bytes_no_characters(trimmed(text@));
            }
        },
    }
}

/// Whether two states of a filter have the same settings.
pub open spec fn same_settings(before: FilterView, after: FilterView) -> bool {
    &&& after.key_source == before.key_source
    &&& after.missing_key == before.missing_key
    &&& after.ceilings == before.ceilings
    &&& after.default_ceiling == before.default_ceiling
    &&& after.ledger.window_ms == before.ledger.window_ms
    &&& after.ledger.max_keys == before.ledger.max_keys
}

/// The ceiling that `ceilings` gives `key`, or else the default one.
pub open spec fn ceiling_in(
    ceilings: Map<Seq<char>, u64>,
    default_ceiling: Option<u64>,
    key: Seq<char>,
) -> Option<u64> {
    if ceilings.contains_key(key) {
        Some(ceilings[key])
    } else {
        default_ceiling
    }
}

/// Whether a request whose budget key is `key` meets `action`, with `stash` kept
/// for its response.
pub open spec fn decides(
    before: FilterView,
    after: FilterView,
    key: Option<Seq<char>>,
    now_ms: u64,
    action: FilterAction,
    stash: Option<Seq<char>>,
) -> bool {
    &&& same_settings(before, after)
    &&& match key {
        None => {
            &&& after == before
            &&& stash is None
            &&& match before.missing_key {
                MissingKeyPolicy::Allow => action is Continue,
                MissingKeyPolicy::Reject => rejects_bare(action, 403),
            }
        },
        Some(present) => match ceiling_in(before.ceilings, before.default_ceiling, present) {
            None => after == before && action is Continue && stash is None,
            Some(ceiling) => exists|admission: Admission|
                {
                    &&& #[trigger] answers(
                        before.ledger,
                        after.ledger,
                        present,
                        ceiling,
                        now_ms,
                        admission,
                    )
                    &&& match admission {
                        Admission::Admit => action is Continue && stash == Some(present),
                        Admission::Deny { retry_after_ms } => tells_of_wait(
                            action,
                            ceiling,
                            retry_after_ms as int,
                        ) && stash is None,
                        Admission::AtCapacity => rejects_bare(action, 503) && stash is None,
                    }
                },
        },
    }
}

/// What a decision does with the request.
pub open spec fn action_of(decision: RequestDecision) -> FilterAction {
    match decision {
        RequestDecision::Untracked => FilterAction::Continue,
        RequestDecision::TrackedUnder(_) => FilterAction::Continue,
        RequestDecision::Rejected(action) => action,
    }
}

/// The key under which a decision tracks the request.
pub open spec fn stash_of(decision: RequestDecision) -> Option<Seq<char>> {
    match decision {
        RequestDecision::TrackedUnder(key) => Some(key@),
        _ => None,
    }
}

proof fn lemma_decides(
    filter: FilterView,
    key: Option<Seq<char>>,
    now_ms: u64,
    action: FilterAction,
    stash: Option<Seq<char>>,
)
    requires
        within_bound(filter.ledger),
        match filter.decision(key, now_ms) {
            RequestDecisionView::Untracked => action is Continue && stash is None,
            RequestDecisionView::TrackedUnder(admitted) => action is Continue && stash == Some(
                admitted,
            ),
            RequestDecisionView::Rejected(rejected) => action@ == rejected && stash is None,
        },
    ensures
        decides(filter, filter.after_decision(key, now_ms), key, now_ms, action, stash),
{
    if let Some(present) = key {
        if let Some(ceiling) = filter.ceiling_of(present) {
            let admission = filter.ledger.admission(present, ceiling, now_ms);
            let after = filter.after_decision(key, now_ms);
            lemma_answers(filter.ledger, present, ceiling, now_ms);
            assert(answers(filter.ledger, after.ledger, present, ceiling, now_ms, admission));
            match admission {
                Admission::Admit => {},
                Admission::Deny { retry_after_ms } => {
                    lemma_exceeded(ceiling, retry_after_ms, action);
                },
                Admission::AtCapacity => {
                    assert(action->Reject_0@.headers.len() == 0);
                },
            }
        }
    } else if action is Reject {
        assert(action->Reject_0@.headers.len() == 0);
    }
}

/// A keyless request meets the policy for such requests, a key without a ceiling
/// passes untracked, and a capped key is answered by the ledger: 429 with the wait
/// when its ceiling is spent, 503 when it finds no place, and let through and
/// tracked under its key otherwise.
pub proof fn law_decision_by_call(
    filter: &mut TokenCeilingFilter,
    key: Option<String>,
    now_ms: u64,
    decision: RequestDecision,
)
    requires
        within_bound(old(filter)@.ledger),
        call_ensures(TokenCeilingFilter::decide, (filter, key, now_ms), decision),
    ensures
        decides(
            old(filter)@,
            final(filter)@,
            characters_of(key),
            now_ms,
            action_of(decision),
            stash_of(decision),
        ),
        decision is Rejected ==> action_of(decision) is Reject,
        final(filter).epoch_of() == old(filter).epoch_of(),
{
    lemma_decides(
        old(filter)@,
        characters_of(key),
        now_ms,
        action_of(decision),
        stash_of(decision),
    );
}

/// Carrying out a decision does what it says and keeps the key that it tracks.
pub proof fn law_decisions_are_carried_out(
    decision: RequestDecision,
    key: Option<String>,
    outcome: RequestOutcome,
)
    requires
        call_ensures(carry_out, (decision, key), outcome),
    ensures
        outcome.action@ == action_of(decision)@,
        characters_of(outcome.stash) == stash_of(decision),
        outcome.key == key,
{
}

/// A request is decided on by the budget key that it comes under.
pub proof fn law_requests_are_decided_by_their_key(
    filter: &mut TokenCeilingFilter,
    source: KeySource,
    headers: http::HeaderMap,
    metadata: OrderedMap<String>,
    key: Option<String>,
    now_ms: u64,
    outcome: RequestOutcome,
)
    requires
        within_bound(old(filter)@.ledger),
        source matches KeySource::Metadata(name) ==> old(filter)@.key_source
            == KeySourceView::Metadata(name@),
        source matches KeySource::Header(name) ==> old(filter)@.key_source
            == KeySourceView::Header(name@),
        call_ensures(resolve_key, (&source, &headers, &metadata), key),
        call_ensures(
            TokenCeilingFilter::on_request,
            (filter, &headers, &metadata, now_ms),
            outcome,
        ),
    ensures
        characters_of(outcome.key) == characters_of(key),
        decides(
            old(filter)@,
            final(filter)@,
            characters_of(key),
            now_ms,
            outcome.action,
            characters_of(outcome.stash),
        ),
        final(filter).epoch_of() == old(filter).epoch_of(),
{
    lemma_decides(
        old(filter)@,
        characters_of(key),
        now_ms,
        outcome.action,
        characters_of(outcome.stash),
    );
}

/// Whether a response that reported `total` is settled on `key` with `charge`.
pub open spec fn settles(
    before: FilterView,
    after: FilterView,
    key: Seq<char>,
    total: Option<&str>,
    now_ms: u64,
    charge: Option<Charge>,
) -> bool {
    if total is Some && u64_denoted(total->0@) is Some {
        &&& same_settings(before, after)
        &&& charge is Some
        &&& charges(
            before.ledger,
            after.ledger,
            key,
            u64_denoted(total->0@)->0,
            now_ms,
            charge->0,
        )
    } else {
        after == before && charge is None
    }
}

/// A total that is a number is charged to its key; any other charges nothing.
pub proof fn law_settlement_by_call(
    filter: &mut TokenCeilingFilter,
    key: &str,
    total: Option<&str>,
    now_ms: u64,
    charge: Option<Charge>,
)
    requires
        within_bound(old(filter)@.ledger),
        call_ensures(TokenCeilingFilter::settle, (filter, key, total, now_ms), charge),
    ensures
        settles(old(filter)@, final(filter)@, key@, total, now_ms, charge),
        final(filter).epoch_of() == old(filter).epoch_of(),
{
    if total is Some && u64_denoted(total->0@) is Some {
        lemma_charges(old(filter)@.ledger, key@, u64_denoted(total->0@)->0, now_ms);
    }
}

/// A response is settled on its stashed key at the end of its stream, which also
/// ends the use of that key; every other part of it continues and changes nothing.
pub proof fn law_responses_are_settled_at_their_end(
    filter: &mut TokenCeilingFilter,
    end_of_stream: bool,
    stashed_key: Option<&str>,
    total: Option<&str>,
    now_ms: u64,
    outcome: ResponseOutcome,
)
    requires
        within_bound(old(filter)@.ledger),
        call_ensures(
            TokenCeilingFilter::on_response_body,
            (filter, end_of_stream, stashed_key, total, now_ms),
            outcome,
        ),
    ensures
        outcome.action is Continue,
        outcome.clear_stash <==> end_of_stream && stashed_key is Some,
        if end_of_stream && stashed_key is Some {
            settles(
                old(filter)@,
                final(filter)@,
                stashed_key->0@,
                total,
                now_ms,
                outcome.charge,
            )
        } else {
            final(filter)@ == old(filter)@ && outcome.charge is None
        },
        final(filter).epoch_of() == old(filter).epoch_of(),
{
    if stashed_key is Some && total is Some && u64_denoted(total->0@) is Some {
        lemma_charges(
            old(filter)@.ledger,
            stashed_key->0@,
            u64_denoted(total->0@)->0,
            now_ms,
        );
    }
}

/// A filter tells the ceiling of a key and the metadata entry that it reads, and
/// its clock gives the whole milliseconds since its epoch, as far as they fit.
pub proof fn law_filters_tell_their_settings(
    filter: TokenCeilingFilter,
    key: &str,
    ceiling: Option<u64>,
    name: Option<&str>,
    now_ms: u64,
)
    requires
        call_ensures(TokenCeilingFilter::ceiling_for, (&filter, key), ceiling),
        call_ensures(TokenCeilingFilter::metadata_name, (&filter,), name),
        call_ensures(TokenCeilingFilter::now_ms, (&filter,), now_ms),
    ensures
        ceiling == ceiling_in(filter@.ceilings, filter@.default_ceiling, key@),
        match filter@.key_source {
            KeySourceView::Metadata(read) => name is Some && name->0@ == read,
            KeySourceView::Header(_) => name is None,
        },
        exists|elapsed: Duration|
            call_ensures(Instant::elapsed, (&filter.epoch_of(),), elapsed) && now_ms == if (
            #[trigger] whole_millis(elapsed)) <= u64::MAX {
                whole_millis(elapsed) as int
            } else {
                u64::MAX as int
            },
{
}

/// A timestamp is the count of milliseconds, or the last instant of the clock if
/// that is earlier.
pub proof fn law_timestamps_saturate(elapsed_ms: u128, now_ms: u64)
    requires
        call_ensures(saturate_millis, (elapsed_ms,), now_ms),
    ensures
        elapsed_ms <= u64::MAX ==> now_ms == elapsed_ms,
        elapsed_ms > u64::MAX ==> now_ms == u64::MAX,
{
}

/// A filter is built exactly from a configuration that passes validation, and has
/// just the settings that the configuration gives: its policy for keyless
/// requests, its ceilings, its default ceiling, and the window and key source that
/// validation made of it. It starts with no usage, may track 10,000 keys, and
/// counts time from a reading of the clock.
pub proof fn law_filters_have_their_configured_settings(
    config: TokenCeilingConfig,
    verdict: Result<(u64, KeySource), String>,
    built: Result<TokenCeilingFilter, String>,
)
    requires
        call_ensures(validate, (&config,), verdict),
        call_ensures(TokenCeilingFilter::from_config, (config,), built),
    ensures
        built is Ok <==> verdict is Ok,
        built matches Err(message) ==> message@ == "token_ceiling: "@ + verdict->Err_0@,
        built matches Ok(filter) ==> {
            &&& filter@.missing_key == config.missing_key
            &&& filter@.ceilings == config.ceilings@
            &&& filter@.default_ceiling == config.default_ceiling
            &&& filter@.ledger.window_ms == verdict->Ok_0.0
            &&& filter@.ledger.max_keys == 10_000
            &&& filter@.ledger.windows == Map::<Seq<char>, KeyWindow>::empty()
            &&& match verdict->Ok_0.1 {
                KeySource::Metadata(name) => filter@.key_source == KeySourceView::Metadata(name@),
                KeySource::Header(name) => filter@.key_source == KeySourceView::Header(name@),
            }
            &&& call_ensures(Instant::now, (), filter.epoch_of())
        },
{
}

proof fn lemma_settings_last(filter: FilterView, traffic: Seq<Traffic>)
    ensures
        same_settings(filter, after_traffic(filter, traffic)),
    decreases traffic.len(),
{
    if traffic.len() > 0 {
        lemma_settings_last(filter, traffic.drop_last());
    }
}

/// However a filter is configured otherwise and whatever traffic it has seen, a
/// keyless request is answered a bare 403 exactly when the configuration says
/// `missing_key: reject`, and let through untracked exactly when it says `allow`.
pub proof fn law_keyless_requests_meet_the_configured_policy(
    config: TokenCeilingConfig,
    built: TokenCeilingFilter,
    traffic: Seq<Traffic>,
    filter: &mut TokenCeilingFilter,
    now_ms: u64,
    decision: RequestDecision,
)
    requires
        call_ensures(TokenCeilingFilter::from_config, (config,), Ok(built)),
        old(filter)@ == after_traffic(built@, traffic),
        call_ensures(TokenCeilingFilter::decide, (filter, None, now_ms), decision),
    ensures
        config.missing_key is Reject <==> decision is Rejected && rejects_bare(
            action_of(decision),
            403,
        ),
        config.missing_key is Allow <==> decision is Untracked,
        final(filter)@ == old(filter)@,
{
    lemma_settings_last(built@, traffic);
    if decision is Rejected {
        assert(action_of(decision)->Reject_0@.headers.len() == 0);
    }
}

/// Whether all of a run of traffic comes before a window that started at
/// `start_ms` ends.
pub open spec fn within_window(traffic: Seq<Traffic>, start_ms: u64, window_ms: int) -> bool {
    forall|i: int|
        0 <= i < traffic.len() ==> (#[trigger] traffic[i]).at() < start_ms + window_ms
            && traffic[i].at() < u64::MAX
}

/// A ceiling holds for the window that the operator wrote: once a response has
/// spent the ceiling of a key without a running window, requests under the key are
/// answered 429 at every instant before that many units of time have passed, and
/// told to wait until then; from then on they are let through. It does not matter
/// what traffic came before, nor what comes meanwhile.
pub proof fn law_ceilings_hold_for_the_written_window(
    config: TokenCeilingConfig,
    written: WrittenWindow,
    count: u64,
    length_ms: int,
    built: TokenCeilingFilter,
    history: Seq<Traffic>,
    key: &str,
    ceiling: u64,
    settling: &mut TokenCeilingFilter,
    total: &str,
    tokens: u64,
    start_ms: u64,
    traffic: Seq<Traffic>,
    deciding: &mut TokenCeilingFilter,
    asked: String,
    later_ms: u64,
    decision: RequestDecision,
)
    requires
        ascending(config.ceilings.entries()),
        config.window@ == written.text(),
        written.says(count, length_ms),
        call_ensures(TokenCeilingFilter::from_config, (config,), Ok(built)),
        ceiling_in(config.ceilings@, config.default_ceiling, key@) == Some(ceiling),
        old(settling)@ == after_traffic(built@, history),
        !has_running(old(settling)@.ledger, key@, start_ms),
        u64_denoted(total@) == Some(tokens),
        tokens >= ceiling,
        call_ensures(
            TokenCeilingFilter::settle,
            (settling, key, Some(total), start_ms),
            Some(Charge::Recorded),
        ),
        within_window(traffic, start_ms, count * length_ms),
        old(deciding)@ == after_traffic(final(settling)@, traffic),
        asked@ == key@,
        call_ensures(TokenCeilingFilter::decide, (deciding, Some(asked), later_ms), decision),
    ensures
        if later_ms < start_ms + count * length_ms && later_ms < u64::MAX {
            &&& decision is Rejected
            &&& tells_of_wait(
                action_of(decision),
                ceiling,
                if start_ms + count * length_ms <= u64::MAX {
                    start_ms + count * length_ms - later_ms
                } else {
                    u64::MAX - later_ms
                },
            )
        } else {
            decision matches RequestDecision::TrackedUnder(admitted) && admitted@ == key@
        },
{
    lemma_written_window(written, count, length_ms);
    law_only_spenders_are_tracked(config, history, key@);
    lemma_settings_last(built@, history);
    let before = old(settling)@;
    lemma_charges(before.ledger, key@, tokens, start_ms);
    let spent = final(settling)@;
    law_validity_is_kept(before, None, key@, Some(total@), start_ms);
    let window_ms = before.ledger.window_ms;
    assert(window_ms == count * length_ms);
    lemma_settings_last(spent, traffic);
    lemma_spent_key(spent, key@, ceiling, traffic, later_ms);
    if later_ms < start_ms + count * length_ms && later_ms < u64::MAX {
        let wait_ms = (spent.ledger.windows[key@].reset_ms(window_ms) - later_ms) as u64;
        lemma_exceeded(ceiling, wait_ms, action_of(decision));
    }
}

proof fn lemma_spent_key(
    filter: FilterView,
    key: Seq<char>,
    ceiling: u64,
    traffic: Seq<Traffic>,
    later_ms: u64,
)
    requires
        filter.valid(),
        filter.ceiling_of(key) == Some(ceiling),
        filter.ledger.windows.contains_key(key),
        filter.ledger.windows[key].used >= ceiling,
        seen_before(traffic, filter.ledger.windows[key].reset_ms(filter.ledger.window_ms)),
    ensures
        ({
            let reset_ms = filter.ledger.windows[key].reset_ms(filter.ledger.window_ms);
            if later_ms < reset_ms {
                after_traffic(filter, traffic).rejects_with_wait(
                    key,
                    later_ms,
                    (reset_ms - later_ms) as u64,
                )
            } else {
                after_traffic(filter, traffic).decision(Some(key), later_ms)
                    == RequestDecisionView::TrackedUnder(key)
            }
        }),
{
    let reset_ms = filter.ledger.windows[key].reset_ms(filter.ledger.window_ms);
    if reset_ms > 0 {
        law_spent_key_gets_429_until_its_window_resets(filter, key, ceiling, 0, traffic, later_ms);
    } else {
        assert(filter.ledger.windows[key].start_ms + filter.ledger.window_ms > 0);
    }
}

/// A client that was answered 429 and comes back after the seconds that the answer
/// announced is let through; one that comes back a second or more before that is
/// answered 429 again. It does not matter what traffic came before, nor what comes
/// before the key's window ends.
pub proof fn law_announced_seconds_are_needed_and_suffice(
    config: TokenCeilingConfig,
    built: TokenCeilingFilter,
    history: Seq<Traffic>,
    first: &mut TokenCeilingFilter,
    key: String,
    now_ms: u64,
    answer: FilterAction,
    traffic: Seq<Traffic>,
    second: &mut TokenCeilingFilter,
    again: String,
    later_ms: u64,
    decision: RequestDecision,
)
    requires
        ascending(config.ceilings.entries()),
        call_ensures(TokenCeilingFilter::from_config, (config,), Ok(built)),
        old(first)@ == after_traffic(built@, history),
        call_ensures(
            TokenCeilingFilter::decide,
            (first, Some(key), now_ms),
            RequestDecision::Rejected(answer),
        ),
        answer is Reject,
        answer->Reject_0.status == 429,
        within_window(
            traffic,
            old(first)@.ledger.windows[key@].start_ms,
            old(first)@.ledger.window_ms as int,
        ),
        old(second)@ == after_traffic(final(first)@, traffic),
        again@ == key@,
        call_ensures(TokenCeilingFilter::decide, (second, Some(again), later_ms), decision),
    ensures
        later_ms >= now_ms + announced_seconds(answer) * 1000
            ==> (decision matches RequestDecision::TrackedUnder(admitted) && admitted@ == key@),
        later_ms + 1000 <= now_ms + announced_seconds(answer) * 1000 ==> decision is Rejected
            && action_of(decision) is Reject && action_of(decision)->Reject_0.status == 429,
{
    law_only_spenders_are_tracked(config, history, key@);
    let before = old(first)@;
    lemma_decides(before, Some(key@), now_ms, answer, None);
    let ceiling = before.ceiling_of(key@)->0;
    let admission = choose|admission: Admission| #[trigger]
        answers(before.ledger, final(first)@.ledger, key@, ceiling, now_ms, admission) && (
        admission matches Admission::Deny { retry_after_ms } && tells_of_wait(
            answer,
            ceiling,
            retry_after_ms as int,
        ));
    assert(has_running(before.ledger, key@, now_ms));
    assert(final(first)@ == before);
    lemma_settings_last(before, traffic);
    lemma_spent_key(before, key@, ceiling, traffic, later_ms);
    let reset_ms = before.ledger.windows[key@].reset_ms(before.ledger.window_ms);
    if later_ms < reset_ms {
        lemma_exceeded(ceiling, (reset_ms - later_ms) as u64, action_of(decision));
    }
}

} // verus!
