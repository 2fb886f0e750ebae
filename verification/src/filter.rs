//! Per-key token spend ceilings over a fixed window.
//!
//! The operator names budget keys in the configuration and caps how many tokens
//! each may consume per window; a key that has exhausted its ceiling receives
//! `429` with `Retry-After` until its window resets.
//!
//! Accounting is **post-hoc**: nothing is estimated or reserved at admission.
//! When a response completes, the reported total is charged against the
//! request's budget key. Admission denies a request only once its key's
//! *committed* usage has reached the ceiling.

use std::time::{Duration, Instant};

use vstd::prelude::*;
use vstd::string::*;

use crate::clock::{read_clock, saturate_millis, time_since, whole_millis};
use crate::config::{
    validate, validated, KeySource, KeySourceView, MissingKeyPolicy, TokenCeilingConfig,
    MAX_KEY_LENGTH,
};
use crate::headers::{header_text, read_header};
use crate::ledger::{saturated, Admission, CeilingLedger, Charge, LedgerView};
use crate::ordered_map::OrderedMap;
use crate::rejection::{
    ceiling_exceeded, exceeded_rejection, missing_key_rejection, FilterAction, FilterActionView,
    Rejection, RejectionView,
};
use crate::text::{byte_len, parse_u64, trimmed, u64_denoted};

verus! {

/// Metadata key stashing the request's resolved budget key, read back at the
/// end of the response to charge the right budget.
pub const META_CEILING_KEY: &'static str = "token_ceiling.key";

/// Metadata key under which the total token count of a response is reported.
pub const META_TOKEN_TOTAL: &'static str = "token.total";

/// Bound on distinct budget keys tracked at once, so client-chosen keys cannot
/// grow memory without limit. When full, new keys fail closed with `503` rather
/// than silently bypassing ceilings.
pub const MAX_TRACKED_KEYS: usize = 10_000;

/// What a filter holds: its settings and its ledger. The clock reading from which
/// it counts time is [`TokenCeilingFilter::epoch_of`].
#[verifier::ext_equal]
pub struct FilterView {
    /// Where the per-request budget key comes from.
    pub key_source: KeySourceView,
    /// Policy for requests whose key cannot be resolved.
    pub missing_key: MissingKeyPolicy,
    /// Per-key ceilings.
    pub ceilings: Map<Seq<char>, u64>,
    /// Ceiling for keys not listed in `ceilings`.
    pub default_ceiling: Option<u64>,
    /// Per-key usage.
    pub ledger: LedgerView,
}

/// A request decision with its key and action taken as views.
pub enum RequestDecisionView {
    Untracked,
    TrackedUnder(Seq<char>),
    Rejected(FilterActionView),
}

impl FilterView {
    /// The filter that `config` gives rise to, once accepted: nothing is charged
    /// yet.
    pub open spec fn built_from(config: TokenCeilingConfig) -> FilterView {
        FilterView {
            key_source: validated(config)->Ok_0.1,
            missing_key: config.missing_key,
            ceilings: config.ceilings@,
            default_ceiling: config.default_ceiling,
            ledger: LedgerView {
                window_ms: validated(config)->Ok_0.0,
                max_keys: MAX_TRACKED_KEYS,
                windows: Map::empty(),
            },
        }
    }

    /// The ceiling that applies to `key`: its own, else the default, else none.
    pub open spec fn ceiling_of(self, key: Seq<char>) -> Option<u64> {
        if self.ceilings.contains_key(key) {
            Some(self.ceilings[key])
        } else {
            self.default_ceiling
        }
    }

    /// The filter with another ledger.
    pub open spec fn with_ledger(self, ledger: LedgerView) -> FilterView {
        FilterView { ledger, ..self }
    }

    /// The decision on a request whose resolved key is `key`.
    pub open spec fn decision(self, key: Option<Seq<char>>, now_ms: u64) -> RequestDecisionView {
        match key {
            None => match self.missing_key {
                MissingKeyPolicy::Allow => RequestDecisionView::Untracked,
                MissingKeyPolicy::Reject => RequestDecisionView::Rejected(
                    FilterActionView::Reject(RejectionView::bare(403)),
                ),
            },
            Some(key) => match self.ceiling_of(key) {
                None => RequestDecisionView::Untracked,
                Some(ceiling) => match self.ledger.admission(key, ceiling, now_ms) {
                    Admission::Admit => RequestDecisionView::TrackedUnder(key),
                    Admission::Deny { retry_after_ms } => RequestDecisionView::Rejected(
                        FilterActionView::Reject(exceeded_rejection(ceiling, retry_after_ms)),
                    ),
                    Admission::AtCapacity => RequestDecisionView::Rejected(
                        FilterActionView::Reject(RejectionView::bare(503)),
                    ),
                },
            },
        }
    }

    /// The filter after that decision: elapsed windows may have made way for a
    /// key with a ceiling.
    pub open spec fn after_decision(self, key: Option<Seq<char>>, now_ms: u64) -> FilterView {
        match key {
            Some(key) => if self.ceiling_of(key) is Some {
                self.with_ledger(self.ledger.with_room_for(key, now_ms))
            } else {
                self
            },
            None => self,
        }
    }

    /// The filter after charging `key` with the total reported as `total`, if
    /// that is a number.
    pub open spec fn settled(
        self,
        key: Seq<char>,
        total: Option<Seq<char>>,
        now_ms: u64,
    ) -> FilterView {
        match reported_tokens(total) {
            Some(tokens) => self.with_ledger(self.ledger.charged(key, tokens, now_ms)),
            None => self,
        }
    }

    /// What that charge came to; `None` if nothing was to be charged.
    pub open spec fn settlement(
        self,
        key: Seq<char>,
        total: Option<Seq<char>>,
        now_ms: u64,
    ) -> Option<Charge> {
        match reported_tokens(total) {
            Some(tokens) => Some(self.ledger.charge_outcome(key, tokens, now_ms)),
            None => None,
        }
    }

    /// The filter after a part of the response whose request stashed `stash`: only
    /// the end of the stream charges, and only a stashed key.
    pub open spec fn after_response(
        self,
        end_of_stream: bool,
        stash: Option<Seq<char>>,
        total: Option<Seq<char>>,
        now_ms: u64,
    ) -> FilterView {
        match stash {
            Some(key) => if end_of_stream {
                self.settled(key, total, now_ms)
            } else {
                self
            },
            None => self,
        }
    }

    /// What that part of the response charged.
    pub open spec fn response_charge(
        self,
        end_of_stream: bool,
        stash: Option<Seq<char>>,
        total: Option<Seq<char>>,
        now_ms: u64,
    ) -> Option<Charge> {
        match stash {
            Some(key) => if end_of_stream {
                self.settlement(key, total, now_ms)
            } else {
                None
            },
            None => None,
        }
    }
}

/// Whether a part of the response ends the use of the key stashed as `stash`.
pub open spec fn clears_stash(end_of_stream: bool, stash: Option<Seq<char>>) -> bool {
    end_of_stream && stash is Some
}

/// The tokens that a reported total names, if it is there and is a number.
pub open spec fn reported_tokens(total: Option<Seq<char>>) -> Option<u64> {
    match total {
        Some(text) => u64_denoted(text),
        None => None,
    }
}

/// `text` as a sequence of characters, if it is there.
pub open spec fn text_of(text: Option<&str>) -> Option<Seq<char>> {
    match text {
        Some(found) => Some(found@),
        None => None,
    }
}

/// `text` as a sequence of characters, if it is there.
pub open spec fn owned_text_of(text: Option<String>) -> Option<Seq<char>> {
    match text {
        Some(found) => Some(found@),
        None => None,
    }
}

/// Per-key fixed-window token spend ceilings, charged post-hoc.
#[derive(Debug)]
pub struct TokenCeilingFilter {
    /// Where the per-request budget key comes from.
    key_source: KeySource,
    /// Policy for requests whose key cannot be resolved.
    missing_key: MissingKeyPolicy,
    /// Per-key ceilings.
    ceilings: OrderedMap<u64>,
    /// Ceiling for keys not listed in `ceilings`, if configured.
    default_ceiling: Option<u64>,
    /// Per-key fixed-window usage state.
    ledger: CeilingLedger,
    /// Monotonic clock reference; all ledger timestamps are offsets from this.
    epoch: Instant,
}

impl View for TokenCeilingFilter {
    type V = FilterView;

    closed spec fn view(&self) -> FilterView {
        FilterView {
            key_source: self.key_source@,
            missing_key: self.missing_key,
            ceilings: self.ceilings@,
            default_ceiling: self.default_ceiling,
            ledger: self.ledger@,
        }
    }
}

/// The decision on a request.
#[derive(Debug)]
pub enum RequestDecision {
    /// No ceiling applies (keyless and allowed, or no ceiling configured for
    /// this key): continue untracked.
    Untracked,
    /// Admitted under this key's ceiling: stash the key so that the end of the
    /// response can charge it.
    TrackedUnder(String),
    /// Reject the request with this action.
    Rejected(FilterAction),
}

impl View for RequestDecision {
    type V = RequestDecisionView;

    open spec fn view(&self) -> RequestDecisionView {
        match *self {
            RequestDecision::Untracked => RequestDecisionView::Untracked,
            RequestDecision::TrackedUnder(key) => RequestDecisionView::TrackedUnder(key@),
            RequestDecision::Rejected(action) => RequestDecisionView::Rejected(action@),
        }
    }
}

/// What to do with a request.
#[derive(Debug)]
pub struct RequestOutcome {
    /// Continue or reject.
    pub action: FilterAction,
    /// The key to stash under [`META_CEILING_KEY`], if the request is tracked.
    pub stash: Option<String>,
    /// The budget key that the request came under, if it has one.
    pub key: Option<String>,
}

/// What to do with a response chunk.
#[derive(Debug)]
pub struct ResponseOutcome {
    /// Always to continue.
    pub action: FilterAction,
    /// What the charge came to, if there was one.
    pub charge: Option<Charge>,
    /// Whether to remove the key stashed under [`META_CEILING_KEY`].
    pub clear_stash: bool,
}

/// The budget key in `raw`: its trimmed text, unless that is empty or over-long.
pub open spec fn budget_key(raw: Option<Seq<char>>) -> Option<Seq<char>> {
    match raw {
        Some(text) => if trimmed(text).len() == 0 || byte_len(trimmed(text)) > MAX_KEY_LENGTH {
            None
        } else {
            Some(trimmed(text))
        },
        None => None,
    }
}

/// What the key source reads from a request, before trimming.
pub open spec fn raw_key(
    source: KeySourceView,
    headers: http::HeaderMap,
    metadata: Map<Seq<char>, String>,
) -> Option<Seq<char>> {
    match source {
        KeySourceView::Metadata(name) => if metadata.contains_key(name) {
            Some(metadata[name]@)
        } else {
            None
        },
        KeySourceView::Header(name) => header_text(headers, name),
    }
}

/// Takes the budget key out of what the key source read.
///
/// The value is trimmed; an empty or over-long ([`MAX_KEY_LENGTH`]) one counts
/// as missing rather than being truncated, so two distinct long keys can never
/// collide into one budget.
pub fn usable_key(raw: Option<&str>) -> (key: Option<String>)
    ensures
        owned_text_of(key) == budget_key(text_of(raw)),
{
    match raw {
        Some(text) => {
            let key = text.trim();
            if key.is_empty() || key.as_bytes().len() > MAX_KEY_LENGTH {
                None
            } else {
                Some(key.to_owned())
            }
        },
        None => None,
    }
}

/// Resolves the request's budget key from the configured source.
pub fn resolve_key(
    source: &KeySource,
    headers: &http::HeaderMap,
    metadata: &OrderedMap<String>,
) -> (key: Option<String>)
    ensures
        owned_text_of(key) == budget_key(raw_key(source@, *headers, metadata@)),
{
    let raw: Option<&str> = match source {
        KeySource::Metadata(name) => match metadata.get(name.as_str()) {
            Some(value) => Some(value.as_str()),
            None => None,
        },
        KeySource::Header(name) => read_header(headers, name.as_str()),
    };
    usable_key(raw)
}

/// Turns a decision into what to do with the request that came under `key`.
pub fn carry_out(decision: RequestDecision, key: Option<String>) -> (outcome: RequestOutcome)
    ensures
        outcome.key == key,
        match decision@ {
            RequestDecisionView::Untracked => outcome.action@ == FilterActionView::Continue
                && outcome.stash is None,
            RequestDecisionView::TrackedUnder(key) => outcome.action@ == FilterActionView::Continue
                && owned_text_of(outcome.stash) == Some(key),
            RequestDecisionView::Rejected(action) => outcome.action@ == action
                && outcome.stash is None,
        },
{
    match decision {
        RequestDecision::Untracked => RequestOutcome {
            action: FilterAction::Continue,
            stash: None,
            key,
        },
        RequestDecision::TrackedUnder(admitted) => RequestOutcome {
            action: FilterAction::Continue,
            stash: Some(admitted),
            key,
        },
        RequestDecision::Rejected(action) => RequestOutcome { action, stash: None, key },
    }
}

impl TokenCeilingFilter {
    /// The clock reading from which this filter counts time.
    pub closed spec fn epoch_of(&self) -> Instant {
        self.epoch
    }

    /// Builds a [`TokenCeilingFilter`] from its configuration.
    ///
    /// # Errors
    ///
    /// Returns a message that starts with the filter's name if the
    /// configuration fails validation: zero or malformed window, no ceilings
    /// configured, a zero ceiling, or a bad key source.
    pub fn from_config(config: TokenCeilingConfig) -> (filter: Result<Self, String>)
        ensures
            match (filter, validated(config)) {
                (Ok(built), Ok(_)) => built@ == FilterView::built_from(config) && call_ensures(
                    Instant::now,
                    (),
                    built.epoch_of(),
                ),
                (Err(message), Err(error)) => message@ == "token_ceiling: "@ + error,
                _ => false,
            },
    {
        match validate(&config) {
            Ok((window_ms, key_source)) => Ok(
                TokenCeilingFilter {
                    key_source,
                    missing_key: config.missing_key,
                    ceilings: config.ceilings,
                    default_ceiling: config.default_ceiling,
                    ledger: CeilingLedger::new(window_ms, MAX_TRACKED_KEYS),
                    epoch: read_clock(Instant::now),
                },
            ),
            Err(error) => {
                let mut message = "token_ceiling: ".to_owned();
                message.append(error.as_str());
                Err(message)
            },
        }
    }

    /// Milliseconds elapsed since this filter's epoch: the whole milliseconds of
    /// what the clock gives as the time since then.
    pub fn now_ms(&self) -> (now_ms: u64)
        ensures
            exists|elapsed: Duration|
                call_ensures(Instant::elapsed, (&self.epoch_of(),), elapsed) && now_ms == saturated(
                    #[trigger] whole_millis(elapsed) as int,
                ),
    {
        let elapsed = time_since(Instant::elapsed, &self.epoch);
        saturate_millis(elapsed.as_millis())
    }

    /// The ceiling applying to `key`: its `ceilings:` entry, else the
    /// `default_ceiling`, else none.
    pub fn ceiling_for(&self, key: &str) -> (ceiling: Option<u64>)
        ensures
            ceiling == self@.ceiling_of(key@),
    {
        match self.ceilings.get(key) {
            Some(ceiling) => Some(*ceiling),
            None => self.default_ceiling,
        }
    }

    /// The one metadata entry that this filter reads, if its keys come from
    /// metadata.
    pub fn metadata_name(&self) -> (name: Option<&str>)
        ensures
            text_of(name) == match self@.key_source {
                KeySourceView::Metadata(read) => Some(read),
                KeySourceView::Header(_) => None,
            },
    {
        match &self.key_source {
            KeySource::Metadata(name) => Some(name.as_str()),
            KeySource::Header(_) => None,
        }
    }

    /// Decides what to do with a request whose resolved key is `key`.
    pub fn decide(&mut self, key: Option<String>, now_ms: u64) -> (decision: RequestDecision)
        ensures
            decision@ == old(self)@.decision(owned_text_of(key), now_ms),
            final(self)@ == old(self)@.after_decision(owned_text_of(key), now_ms),
            final(self).epoch_of() == old(self).epoch_of(),
    {
        let key = match key {
            Some(key) => key,
            None => {
                return match self.missing_key {
                    MissingKeyPolicy::Allow => RequestDecision::Untracked,
                    MissingKeyPolicy::Reject => RequestDecision::Rejected(missing_key_rejection()),
                };
            },
        };
        let ceiling: u64 = match self.ceiling_for(key.as_str()) {
            Some(ceiling) => ceiling,
            None => {
                return RequestDecision::Untracked;
            },
        };
        match self.ledger.admit_request(key.as_str(), ceiling, now_ms) {
            Admission::Admit => RequestDecision::TrackedUnder(key),
            Admission::Deny { retry_after_ms } => RequestDecision::Rejected(
                ceiling_exceeded(ceiling, retry_after_ms),
            ),
            Admission::AtCapacity => RequestDecision::Rejected(
                FilterAction::Reject(Rejection::status(503)),
            ),
        }
    }

    /// Charges `key` with the response's reported usage, if parseable. Returns
    /// what the charge came to, or `None` if nothing was to be charged.
    pub fn settle(&mut self, key: &str, reported_total: Option<&str>, now_ms: u64) -> (charge:
        Option<Charge>)
        ensures
            charge == old(self)@.settlement(key@, text_of(reported_total), now_ms),
            final(self)@ == old(self)@.settled(key@, text_of(reported_total), now_ms),
            final(self).epoch_of() == old(self).epoch_of(),
    {
        let tokens: u64 = match reported_total {
            Some(total) => match parse_u64(total) {
                Ok(tokens) => tokens,
                Err(_) => {
                    return None;
                },
            },
            None => {
                return None;
            },
        };
        Some(self.ledger.charge(key, tokens, now_ms))
    }

    /// The request phase: resolves the budget key and decides.
    pub fn on_request(
        &mut self,
        headers: &http::HeaderMap,
        metadata: &OrderedMap<String>,
        now_ms: u64,
    ) -> (outcome: RequestOutcome)
        ensures
            final(self).epoch_of() == old(self).epoch_of(),
            ({
                let key = budget_key(raw_key(old(self)@.key_source, *headers, metadata@));
                &&& final(self)@ == old(self)@.after_decision(key, now_ms)
                &&& owned_text_of(outcome.key) == key
                &&& match old(self)@.decision(key, now_ms) {
                    RequestDecisionView::Untracked => outcome.action@ == FilterActionView::Continue
                        && outcome.stash is None,
                    RequestDecisionView::TrackedUnder(admitted) => outcome.action@
                        == FilterActionView::Continue && owned_text_of(outcome.stash) == Some(
                        admitted,
                    ),
                    RequestDecisionView::Rejected(action) => outcome.action@ == action
                        && outcome.stash is None,
                }
            }),
    {
        let key = resolve_key(&self.key_source, headers, metadata);
        let named: Option<String> = match &key {
            Some(key) => Some(key.clone()),
            None => None,
        };
        carry_out(self.decide(key, now_ms), named)
    }

    /// The response phase: at the end of the stream, charges the stashed key
    /// with the reported total and asks for the stash to be removed.
    pub fn on_response_body(
        &mut self,
        end_of_stream: bool,
        stashed_key: Option<&str>,
        reported_total: Option<&str>,
        now_ms: u64,
    ) -> (outcome: ResponseOutcome)
        ensures
            outcome.action@ == FilterActionView::Continue,
            outcome.charge == old(self)@.response_charge(
                end_of_stream,
                text_of(stashed_key),
                text_of(reported_total),
                now_ms,
            ),
            outcome.clear_stash == clears_stash(end_of_stream, text_of(stashed_key)),
            final(self)@ == old(self)@.after_response(
                end_of_stream,
                text_of(stashed_key),
                text_of(reported_total),
                now_ms,
            ),
            final(self).epoch_of() == old(self).epoch_of(),
    {
        if end_of_stream {
            if let Some(key) = stashed_key {
                let charge = self.settle(key, reported_total, now_ms);
                return ResponseOutcome {
                    action: FilterAction::Continue,
                    charge,
                    clear_stash: true,
                };
            }
        }
        ResponseOutcome { action: FilterAction::Continue, charge: None, clear_stash: false }
    }
}

} // verus!
