//! Retries of provider calls.

use crate::data_feed::policy::{smaller, ProviderBackoffPolicy};
use crate::model::{DataType, HistoryRequest, Resolution};
use crate::text::{
    ascii_lower, ascii_upper, begins_with, contains, lemma_lower_of_upper, occurs_in, starts_with, to_ascii_lowercase,
};
use crate::time::{date_text, Duration};
use vstd::prelude::*;
use vstd::string::*;

verus! {

/// Words that mark a provider failure as transient.
pub open spec fn transient_words() -> Seq<Seq<char>> {
    seq![
        "overload"@,
        "overloaded"@,
        "rate limit"@,
        "rate-limit"@,
        "rate_limit"@,
        "too many requests"@,
        "429"@,
        "timeout"@,
        "timed out"@,
        "temporar"@,
        "throttle"@,
        "throttled"@,
        "capacity"@,
        "connection reset"@,
        "connection refused"@,
        "connection closed"@,
        "unavailable"@,
        "busy"@,
    ]
}

/// Whether a failure is worth another attempt: its message, in small letters,
/// does not start as that of an unsupported request and holds a transient word.
pub open spec fn retryable_message(message: Seq<char>) -> bool {
    let text = ascii_lower(message);
    &&& !begins_with(text, "notimplemented:"@)
    &&& exists|i: int|
        0 <= i < transient_words().len() && occurs_in(#[trigger] transient_words()[i], text)
}

fn has_transient_word(text: &str) -> (res: bool)
    ensures
        res == exists|i: int|
            0 <= i < transient_words().len() && occurs_in(#[trigger] transient_words()[i], text@),
{
    let words: [&str; 18] = [
        "overload",
        "overloaded",
        "rate limit",
        "rate-limit",
        "rate_limit",
        "too many requests",
        "429",
        "timeout",
        "timed out",
        "temporar",
        "throttle",
        "throttled",
        "capacity",
        "connection reset",
        "connection refused",
        "connection closed",
        "unavailable",
        "busy",
    ];
    let mut i: usize = 0;
    while i < 18
        invariant
            i <= 18,
            words@.len() == 18,
            transient_words().len() == 18,
            forall|j: int| 0 <= j < 18 ==> (#[trigger] words@[j])@ == transient_words()[j],
            forall|j: int| 0 <= j < i ==> !occurs_in(#[trigger] transient_words()[j], text@),
        decreases 18 - i,
    {
        if contains(text, words[i]) {
            assert(words@[i as int]@ == transient_words()[i as int]);
            return true;
        }
        assert(words@[i as int]@ == transient_words()[i as int]);
        i = i + 1;
    }
    false
}

/// Whether a provider failure is worth another attempt.
pub fn is_retryable_provider_error(message: &str) -> (res: bool)
    ensures
        res == retryable_message(message@),
{
    let text = to_ascii_lowercase(message);
    if starts_with(text.as_str(), "notimplemented:") {
        return false;
    }
    has_transient_word(text.as_str())
}

/// What to do after a failed provider call.
#[derive(Debug, Clone, Copy, PartialEq, Eq, Structural)]
pub enum RetryDecision {
    /// Wait, then call again.
    RetryAfter(Duration),
    /// Give the failure to the caller.
    Fail,
}

/// Progress of one provider call through its attempts.
#[derive(Debug, Clone, Copy, PartialEq, Eq, Structural)]
pub struct ProviderRetry {
    /// Number of the attempt under way, from one.
    pub attempt: usize,
    pub max_attempts: usize,
    /// Wait before the next attempt.
    pub delay: Duration,
    pub max_delay: Duration,
}

impl ProviderRetry {
    pub open spec fn wf(self) -> bool {
        &&& 1 <= self.attempt <= self.max_attempts
        &&& self.delay.wf()
        &&& self.max_delay.wf()
    }

    /// The first attempt under a policy; a policy always allows one.
    pub fn start(policy: &ProviderBackoffPolicy) -> (res: ProviderRetry)
        requires
            policy.wf(),
        ensures
            res.wf(),
            res == (ProviderRetry {
                attempt: 1,
                max_attempts: if policy.max_attempts == 0 {
                    1
                } else {
                    policy.max_attempts
                },
                delay: policy.initial_delay,
                max_delay: policy.max_delay,
            }),
    {
        ProviderRetry {
            attempt: 1,
            max_attempts: if policy.max_attempts == 0 {
                1
            } else {
                policy.max_attempts
            },
            delay: policy.initial_delay,
            max_delay: policy.max_delay,
        }
    }

    /// Decides on a failed attempt. A transient failure is retried while
    /// attempts are left; the wait doubles each time, up to its limit.
    pub fn on_error(&mut self, message: &str) -> (res: RetryDecision)
        requires
            old(self).wf(),
        ensures
            final(self).wf(),
            final(self).max_attempts == old(self).max_attempts,
            final(self).max_delay == old(self).max_delay,
            if old(self).attempt < old(self).max_attempts && retryable_message(message@) {
                &&& res == RetryDecision::RetryAfter(old(self).delay)
                &&& final(self).attempt == old(self).attempt + 1
                &&& final(self).delay.nanos == smaller(
                    smaller(
                        old(self).delay.nanos * 2,
                        crate::time::MAX_DURATION_NANOS as int,
                    ),
                    old(self).max_delay.nanos as int,
                )
            } else {
                &&& res == RetryDecision::Fail
                &&& *final(self) == *old(self)
            },
            failed_attempt(*old(self), message@, *final(self), res),
    {
        if self.attempt < self.max_attempts && is_retryable_provider_error(message) {
            let wait = self.delay;
            self.attempt = self.attempt + 1;
            self.delay = self.delay.saturating_double().min(self.max_delay);
            RetryDecision::RetryAfter(wait)
        } else {
            RetryDecision::Fail
        }
    }
}

/// Name of a resolution in log labels.
pub open spec fn resolution_name(resolution: Resolution) -> Seq<char> {
    match resolution {
        Resolution::Tick => "Tick"@,
        Resolution::Second => "Second"@,
        Resolution::Minute => "Minute"@,
        Resolution::Hour => "Hour"@,
        Resolution::Daily => "Daily"@,
    }
}

/// Name of a data type in log labels.
pub open spec fn data_type_name(data_type: DataType) -> Seq<char> {
    match data_type {
        DataType::TradeBar => "TradeBar"@,
        DataType::QuoteBar => "QuoteBar"@,
        DataType::Tick => "Tick"@,
        DataType::PerpetualContext => "PerpetualContext"@,
        DataType::MarginInterestRate => "MarginInterestRate"@,
        DataType::OpenInterest => "OpenInterest"@,
    }
}

/// Label of a provider call: what is asked, of which security, at which
/// resolution and for which dates.
pub fn provider_call_label(kind: &str, request: &HistoryRequest) -> (res: String)
    ensures
        res@ == kind@ + " "@ + request.symbol.value@ + " "@ + resolution_name(request.resolution)
            + " "@ + data_type_name(request.data_type) + " "@ + date_text(request.start.day())
            + ".."@ + date_text(request.end.day()),
{
    let resolution = match request.resolution {
        Resolution::Tick => "Tick",
        Resolution::Second => "Second",
        Resolution::Minute => "Minute",
        Resolution::Hour => "Hour",
        Resolution::Daily => "Daily",
    };
    let data_type = match request.data_type {
        DataType::TradeBar => "TradeBar",
        DataType::QuoteBar => "QuoteBar",
        DataType::Tick => "Tick",
        DataType::PerpetualContext => "PerpetualContext",
        DataType::MarginInterestRate => "MarginInterestRate",
        DataType::OpenInterest => "OpenInterest",
    };
    let start = request.start.date_utc().to_text();
    let end = request.end.date_utc().to_text();
    kind.to_owned().concat(" ").concat(request.symbol.value.as_str()).concat(" ").concat(
        resolution,
    ).concat(" ").concat(data_type).concat(" ").concat(start.as_str()).concat("..").concat(
        end.as_str(),
    )
}

/// However the attempts fail, one provider call is made at most as often as its
/// policy allows: after `failures` retried failures at least one attempt has
/// been used for each of them and one is under way.
pub proof fn law_attempts_are_bounded(start: ProviderRetry, trace: Seq<ProviderRetry>)
    requires
        start.wf(),
        start.attempt == 1,
        trace.len() > 0,
        trace[0] == start,
        forall|i: int|
            0 <= i < trace.len() - 1 ==> (#[trigger] trace[i]).wf() && trace[i].attempt
                < trace[i].max_attempts && trace[i + 1].attempt == trace[i].attempt + 1 && trace[i
                + 1].max_attempts == trace[i].max_attempts,
    ensures
        trace.len() <= start.max_attempts,
{
    lemma_trace(start, trace, trace.len() - 1);
}

proof fn lemma_trace(start: ProviderRetry, trace: Seq<ProviderRetry>, i: int)
    requires
        start.wf(),
        start.attempt == 1,
        trace.len() > 0,
        trace[0] == start,
        0 <= i < trace.len(),
        forall|i: int|
            0 <= i < trace.len() - 1 ==> (#[trigger] trace[i]).wf() && trace[i].attempt
                < trace[i].max_attempts && trace[i + 1].attempt == trace[i].attempt + 1 && trace[i
                + 1].max_attempts == trace[i].max_attempts,
    ensures
        trace[i].attempt == i + 1,
        trace[i].max_attempts == start.max_attempts,
        trace[i].attempt <= trace[i].max_attempts,
    decreases i,
{
    if i > 0 {
        lemma_trace(start, trace, i - 1);
        assert(trace[i - 1].wf());
    }
}

/// A failure that speaks of an overload, a limit, a timeout or a broken connection is
/// worth another attempt, in any case of its letters and whatever stands around the
/// words; a request that is not supported is not, whatever else its message says.
pub proof fn law_transient_failures_are_retried(message: Seq<char>)
    ensures
        begins_with(ascii_lower(message), "notimplemented:"@) ==> !retryable_message(message),
        !begins_with(ascii_lower(message), "notimplemented:"@) && (occurs_in(
            "timeout"@,
            ascii_lower(message),
        ) || occurs_in("timed out"@, ascii_lower(message)) || occurs_in(
            "429"@,
            ascii_lower(message),
        ) || occurs_in("overload"@, ascii_lower(message)) || occurs_in(
            "rate limit"@,
            ascii_lower(message),
        ) || occurs_in("too many requests"@, ascii_lower(message)) || occurs_in(
            "connection reset"@,
            ascii_lower(message),
        ) || occurs_in("connection refused"@, ascii_lower(message)) || occurs_in(
            "connection closed"@,
            ascii_lower(message),
        ) || occurs_in("unavailable"@, ascii_lower(message)) || occurs_in(
            "busy"@,
            ascii_lower(message),
        ) || occurs_in("temporar"@, ascii_lower(message)) || occurs_in(
            "throttle"@,
            ascii_lower(message),
        ) || occurs_in("capacity"@, ascii_lower(message)) || occurs_in(
            "rate-limit"@,
            ascii_lower(message),
        ) || occurs_in("rate_limit"@, ascii_lower(message))) ==> retryable_message(message),
        retryable_message(ascii_upper(message)) == retryable_message(message),
        retryable_message(message) ==> message.len() >= 3,
{
    let words = transient_words();
    let text = ascii_lower(message);
    assert(words[0] == "overload"@ && words[2] == "rate limit"@ && words[3] == "rate-limit"@
        && words[4] == "rate_limit"@ && words[5] == "too many requests"@ && words[6] == "429"@
        && words[7] == "timeout"@ && words[8] == "timed out"@ && words[9] == "temporar"@
        && words[10] == "throttle"@ && words[12] == "capacity"@ && words[13] == "connection reset"@
        && words[14] == "connection refused"@ && words[15] == "connection closed"@ && words[16]
        == "unavailable"@ && words[17] == "busy"@);
    lemma_lower_of_upper(message);
    if retryable_message(message) {
        let i = choose|i: int| 0 <= i < words.len() && occurs_in(#[trigger] words[i], text);
        lemma_words_are_words(i);
    }
}

proof fn lemma_words_are_words(i: int)
    requires
        0 <= i < transient_words().len(),
    ensures
        transient_words()[i].len() >= 3,
{
    reveal_strlit("overload");
    reveal_strlit("overloaded");
    reveal_strlit("rate limit");
    reveal_strlit("rate-limit");
    reveal_strlit("rate_limit");
    reveal_strlit("too many requests");
    reveal_strlit("429");
    reveal_strlit("timeout");
    reveal_strlit("timed out");
    reveal_strlit("temporar");
    reveal_strlit("throttle");
    reveal_strlit("throttled");
    reveal_strlit("capacity");
    reveal_strlit("connection reset");
    reveal_strlit("connection refused");
    reveal_strlit("connection closed");
    reveal_strlit("unavailable");
    reveal_strlit("busy");
}

/// Resolutions and kinds of data are told apart by their names.
pub proof fn law_names_tell_apart(a: Resolution, b: Resolution, x: DataType, y: DataType)
    ensures
        a != b ==> resolution_name(a) != resolution_name(b),
        x != y ==> data_type_name(x) != data_type_name(y),
{
    reveal_strlit("Tick");
    reveal_strlit("Second");
    reveal_strlit("Minute");
    reveal_strlit("Hour");
    reveal_strlit("Daily");
    reveal_strlit("TradeBar");
    reveal_strlit("QuoteBar");
    reveal_strlit("PerpetualContext");
    reveal_strlit("MarginInterestRate");
    reveal_strlit("OpenInterest");
    if a != b && resolution_name(a) == resolution_name(b) {
        assert(resolution_name(a)[0] == resolution_name(b)[0]);
    }
    if x != y && data_type_name(x) == data_type_name(y) {
        assert(data_type_name(x)[0] == data_type_name(y)[0]);
        assert(data_type_name(x)[1] == data_type_name(y)[1]);
    }
}

/// Nothing but the transient words makes a failure worth another attempt.
pub proof fn law_other_failures_are_not_retried(message: Seq<char>)
    requires
        retryable_message(message),
    ensures
        ({
            let text = ascii_lower(message);
            ||| occurs_in("overload"@, text)
            ||| occurs_in("overloaded"@, text)
            ||| occurs_in("rate limit"@, text)
            ||| occurs_in("rate-limit"@, text)
            ||| occurs_in("rate_limit"@, text)
            ||| occurs_in("too many requests"@, text)
            ||| occurs_in("429"@, text)
            ||| occurs_in("timeout"@, text)
            ||| occurs_in("timed out"@, text)
            ||| occurs_in("temporar"@, text)
            ||| occurs_in("throttle"@, text)
            ||| occurs_in("throttled"@, text)
            ||| occurs_in("capacity"@, text)
            ||| occurs_in("connection reset"@, text)
            ||| occurs_in("connection refused"@, text)
            ||| occurs_in("connection closed"@, text)
            ||| occurs_in("unavailable"@, text)
            ||| occurs_in("busy"@, text)
        }),
{
    let text = ascii_lower(message);
    let words = transient_words();
    let i = choose|i: int| 0 <= i < words.len() && occurs_in(#[trigger] words[i], text);
    assert(words.len() == 18);
}

/// What a failed attempt leads to: the attempts and waits after it, and the decision.
pub open spec fn failed_attempt(
    before: ProviderRetry,
    message: Seq<char>,
    after: ProviderRetry,
    decision: RetryDecision,
) -> bool {
    if retryable_message(message) && before.attempt < before.max_attempts {
        &&& decision == RetryDecision::RetryAfter(before.delay)
        &&& after.attempt == before.attempt + 1
        &&& after.max_attempts == before.max_attempts
        &&& after.max_delay == before.max_delay
        &&& after.delay.nanos == smaller(
            smaller(before.delay.nanos * 2, crate::time::MAX_DURATION_NANOS as int),
            before.max_delay.nanos as int,
        )
    } else {
        decision == RetryDecision::Fail && after == before
    }
}

/// Waits double, up to their limit. A transient failure is tried again after the wait, as
/// long as attempts are left; any other failure, and the last one, is final.
pub proof fn law_waits_double(
    before: ProviderRetry,
    message: Seq<char>,
    after: ProviderRetry,
    decision: RetryDecision,
)
    requires
        before.wf(),
        before.delay.nanos * 2 <= crate::time::MAX_DURATION_NANOS,
        failed_attempt(before, message, after, decision),
    ensures
        decision is Fail <==> !retryable_message(message) || before.attempt
            >= before.max_attempts,
        decision matches RetryDecision::RetryAfter(wait) ==> {
            &&& wait == before.delay
            &&& after.attempt == before.attempt + 1
            &&& after.delay.nanos <= before.max_delay.nanos
            &&& before.delay.nanos * 2 <= before.max_delay.nanos ==> after.delay.nanos
                == before.delay.nanos * 2
            &&& before.delay.nanos * 2 >= before.max_delay.nanos ==> after.delay
                == before.max_delay
        },
        decision is Fail ==> after == before,
{
}

} // verus!
