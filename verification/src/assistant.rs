//! The review orchestrator's state machine: one round per function record,
//! from cache check through optional remote review to cache write.
//!
//! The remote calls themselves (session creation, message send, run start,
//! polling, teardown) are performed by the surrounding program; this module
//! decides. Each round is a sequence of states: the driver performs the
//! action the current state calls for, feeds back what happened as an event,
//! and [`step`] yields the next state. The laws at the bottom pin the
//! orchestration contract: a cache hit skips all remote interaction, and a
//! failed round writes nothing.

use vstd::prelude::*;

use crate::cache::CacheEntry;
use crate::cache::CacheEntryView;
use crate::json::parse_verdict;
use crate::json::parse_verdict_text;
use crate::json::trim_ws;
use crate::types::FunctionData;

verus! {

/// The status of a remote assessor run, as the remote side enumerates it.
#[derive(Debug, Clone, Copy, PartialEq, Eq, Structural)]
pub enum RunStatus {
    Queued,
    InProgress,
    RequiresAction,
    Cancelling,
    Cancelled,
    Failed,
    Completed,
    Incomplete,
    Expired,
}

/// The payload of an assessor message: text, a refusal (treated as text), or
/// an unsupported kind such as an image — the assessor must never send one,
/// so it is fatal to the round.
#[derive(Debug)]
pub enum MessagePayload {
    Text(String),
    Refusal(String),
    Unsupported,
}

/// The states of one orchestration round. `Done` and `RoundFailed` are
/// terminal; teardown of session resources happens on every exit path and is
/// the driver's unconditional duty, not a state.
#[derive(Debug)]
pub enum RoundState {
    /// Look the fingerprint up in the cache.
    CheckCache,
    /// Create a fresh conversation thread and assessor persona.
    BeginSession,
    /// Append the composed query message to the thread.
    SendQuery,
    /// Request the assessor to process the thread.
    StartRun,
    /// Fetch the run status until it is terminal.
    Poll,
    /// Retrieve the most recent message in the thread.
    FetchResult,
    /// Upsert the decoded verdict into the cache.
    Persist(CacheEntry),
    /// The round ended with the cache holding a verdict for the fingerprint.
    Done,
    /// The round failed; nothing was written, the function stays eligible
    /// for review on a future invocation.
    RoundFailed,
}

/// What happened when the driver performed the current state's action.
#[derive(Debug)]
pub enum RoundEvent {
    /// The cache already holds a verdict for the fingerprint.
    CacheHit,
    /// The cache holds nothing for the fingerprint.
    CacheMiss,
    /// The cache lookup itself failed; fail closed, no remote call.
    CacheReadFailed,
    SessionCreated,
    MessageAppended,
    RunStarted,
    StatusFetched(RunStatus),
    PayloadFetched(MessagePayload),
    /// Any assessor API call failed.
    RemoteCallFailed,
    Persisted,
    PersistFailed,
}

/// The operation a state calls for; `None` for the terminal states.
#[derive(Debug, Clone, Copy, PartialEq, Eq, Structural)]
pub enum RoundAction {
    LookupCache,
    CreateSession,
    AppendMessage,
    StartReviewRun,
    FetchStatus,
    FetchMessage,
    WriteCache,
}

/// The operation each state calls for.
pub open spec fn action_of(state: RoundState) -> Option<RoundAction> {
    match state {
        RoundState::CheckCache => Some(RoundAction::LookupCache),
        RoundState::BeginSession => Some(RoundAction::CreateSession),
        RoundState::SendQuery => Some(RoundAction::AppendMessage),
        RoundState::StartRun => Some(RoundAction::StartReviewRun),
        RoundState::Poll => Some(RoundAction::FetchStatus),
        RoundState::FetchResult => Some(RoundAction::FetchMessage),
        RoundState::Persist(_) => Some(RoundAction::WriteCache),
        RoundState::Done => None,
        RoundState::RoundFailed => None,
    }
}

/// Whether an action is a remote-assessor operation (as opposed to a cache
/// operation).
pub open spec fn is_remote_action(a: RoundAction) -> bool {
    match a {
        RoundAction::CreateSession => true,
        RoundAction::AppendMessage => true,
        RoundAction::StartReviewRun => true,
        RoundAction::FetchStatus => true,
        RoundAction::FetchMessage => true,
        RoundAction::LookupCache => false,
        RoundAction::WriteCache => false,
    }
}

/// The transition relation of a round. A terminal status ends polling; a
/// non-terminal one polls again; a decodable text or refusal payload moves
/// to persisting exactly the decoded entry; anything unexpected — an
/// undecodable payload, an unsupported payload kind, a failed call — ends
/// the round in `RoundFailed`. Terminal states absorb every event, as does a
/// state fed an event it cannot produce.
pub open spec fn step_ok(pre: RoundState, ev: RoundEvent, post: RoundState) -> bool {
    match (pre, ev) {
        (RoundState::CheckCache, RoundEvent::CacheHit) => post is Done,
        (RoundState::CheckCache, RoundEvent::CacheMiss) => post is BeginSession,
        (RoundState::CheckCache, RoundEvent::CacheReadFailed) => post is RoundFailed,
        (RoundState::BeginSession, RoundEvent::SessionCreated) => post is SendQuery,
        (RoundState::BeginSession, RoundEvent::RemoteCallFailed) => post is RoundFailed,
        (RoundState::SendQuery, RoundEvent::MessageAppended) => post is StartRun,
        (RoundState::SendQuery, RoundEvent::RemoteCallFailed) => post is RoundFailed,
        (RoundState::StartRun, RoundEvent::RunStarted) => post is Poll,
        (RoundState::StartRun, RoundEvent::RemoteCallFailed) => post is RoundFailed,
        (RoundState::Poll, RoundEvent::StatusFetched(st)) => match st {
            RunStatus::Completed => post is FetchResult,
            RunStatus::Failed => post is RoundFailed,
            RunStatus::Expired => post is RoundFailed,
            RunStatus::Cancelled => post is RoundFailed,
            _ => post is Poll,
        },
        (RoundState::Poll, RoundEvent::RemoteCallFailed) => post is RoundFailed,
        (RoundState::FetchResult, RoundEvent::PayloadFetched(p)) => match p {
            MessagePayload::Text(t) => match parse_verdict_text(trim_ws(t@)) {
                Some(v) => post matches RoundState::Persist(e) && e@ == v,
                None => post is RoundFailed,
            },
            MessagePayload::Refusal(t) => match parse_verdict_text(trim_ws(t@)) {
                Some(v) => post matches RoundState::Persist(e) && e@ == v,
                None => post is RoundFailed,
            },
            MessagePayload::Unsupported => post is RoundFailed,
        },
        (RoundState::FetchResult, RoundEvent::RemoteCallFailed) => post is RoundFailed,
        (RoundState::Persist(_), RoundEvent::Persisted) => post is Done,
        (RoundState::Persist(_), RoundEvent::PersistFailed) => post is RoundFailed,
        _ => post == pre,
    }
}

/// One transition of a round: the next state after `event` happened in
/// `state`.
pub fn step(state: RoundState, event: RoundEvent) -> (next: RoundState)
    ensures
        step_ok(state, event, next),
{
    match (state, event) {
        (RoundState::CheckCache, RoundEvent::CacheHit) => RoundState::Done,
        (RoundState::CheckCache, RoundEvent::CacheMiss) => RoundState::BeginSession,
        (RoundState::CheckCache, RoundEvent::CacheReadFailed) => RoundState::RoundFailed,
        (RoundState::BeginSession, RoundEvent::SessionCreated) => RoundState::SendQuery,
        (RoundState::BeginSession, RoundEvent::RemoteCallFailed) => RoundState::RoundFailed,
        (RoundState::SendQuery, RoundEvent::MessageAppended) => RoundState::StartRun,
        (RoundState::SendQuery, RoundEvent::RemoteCallFailed) => RoundState::RoundFailed,
        (RoundState::StartRun, RoundEvent::RunStarted) => RoundState::Poll,
        (RoundState::StartRun, RoundEvent::RemoteCallFailed) => RoundState::RoundFailed,
        (RoundState::Poll, RoundEvent::StatusFetched(st)) => match st {
            RunStatus::Completed => RoundState::FetchResult,
            RunStatus::Failed => RoundState::RoundFailed,
            RunStatus::Expired => RoundState::RoundFailed,
            RunStatus::Cancelled => RoundState::RoundFailed,
            _ => RoundState::Poll,
        },
        (RoundState::Poll, RoundEvent::RemoteCallFailed) => RoundState::RoundFailed,
        (RoundState::FetchResult, RoundEvent::PayloadFetched(p)) => match p {
            MessagePayload::Text(t) => match parse_verdict(t.as_str()) {
                Some(e) => RoundState::Persist(e),
                None => RoundState::RoundFailed,
            },
            MessagePayload::Refusal(t) => match parse_verdict(t.as_str()) {
                Some(e) => RoundState::Persist(e),
                None => RoundState::RoundFailed,
            },
            MessagePayload::Unsupported => RoundState::RoundFailed,
        },
        (RoundState::FetchResult, RoundEvent::RemoteCallFailed) => RoundState::RoundFailed,
        (RoundState::Persist(_), RoundEvent::Persisted) => RoundState::Done,
        (RoundState::Persist(_), RoundEvent::PersistFailed) => RoundState::RoundFailed,
        (s, _) => s,
    }
}

/// The operation the driver must perform next, or `None` when the round is
/// over and only teardown remains.
pub fn next_action(state: &RoundState) -> (r: Option<RoundAction>)
    ensures
        r == action_of(*state),
{
    match state {
        RoundState::CheckCache => Some(RoundAction::LookupCache),
        RoundState::BeginSession => Some(RoundAction::CreateSession),
        RoundState::SendQuery => Some(RoundAction::AppendMessage),
        RoundState::StartRun => Some(RoundAction::StartReviewRun),
        RoundState::Poll => Some(RoundAction::FetchStatus),
        RoundState::FetchResult => Some(RoundAction::FetchMessage),
        RoundState::Persist(_) => Some(RoundAction::WriteCache),
        RoundState::Done => None,
        RoundState::RoundFailed => None,
    }
}

/// Whether the round is over.
pub fn is_terminal(state: &RoundState) -> (r: bool)
    ensures
        r == (state is Done || state is RoundFailed),
{
    match state {
        RoundState::Done => true,
        RoundState::RoundFailed => true,
        _ => false,
    }
}

// ---------------------------------------------------------------------------
// The query message
// ---------------------------------------------------------------------------
/// The plain-text message sent to the assessor: four labeled fields in fixed
/// order — fingerprint, function name, doc string, function body, verbatim.
pub open spec fn query_text(
    hash: Seq<char>,
    name: Seq<char>,
    doc_string: Seq<char>,
    body: Seq<char>,
) -> Seq<char> {
    "HASH\n\n"@ + hash + "\nFUNCTION_NAME\n\n"@ + name + "\nDOC_STRING\n\n"@ + doc_string
        + "\nFUNCTION_BODY\n\n"@ + body + "\n"@
}

/// Composes the assessor query for a record and its fingerprint.
pub fn compose_query(hash: &str, data: &FunctionData) -> (r: String)
    ensures
        r@ == query_text(hash@, data.name@, data.doc_string@, data.body@),
{
    let mut out = String::new();
    out.append("HASH\n\n");
    out.append(hash);
    out.append("\nFUNCTION_NAME\n\n");
    out.append(data.name.as_str());
    out.append("\nDOC_STRING\n\n");
    out.append(data.doc_string.as_str());
    out.append("\nFUNCTION_BODY\n\n");
    out.append(data.body.as_str());
    out.append("\n");
    proof {
        assert(out@ =~= query_text(hash@, data.name@, data.doc_string@, data.body@));
    }
    out
}

// ---------------------------------------------------------------------------
// The default persona
// ---------------------------------------------------------------------------
/// The instructions the default assessor persona is created with.
pub open spec fn default_instructions() -> Seq<char> {
    "You review Rust functions for drift between their documentation and their implementation. Each message holds four labeled fields: HASH, FUNCTION_NAME, DOC_STRING and FUNCTION_BODY. Compare the doc string with the body and answer with a single JSON object with exactly the fields \"name\", \"confidence\", \"hash\", \"errors\" and \"warnings\", in that order and with no other text: name is the function name, confidence is a number between 0.0 and 1.0, hash is the HASH field verbatim, errors is the list of required fixes, and warnings is the list of non-blocking suggestions."@
}

impl core::default::Default for crate::types::DocumentationAssistant {
    /// The static assessor persona: name, instructions and model identifier.
    fn default() -> (r: crate::types::DocumentationAssistant)
        ensures
            r.name@ == "Naggy"@,
            r.instructions@ == default_instructions(),
            r.model@ == "gpt-4o"@,
    {
        crate::types::DocumentationAssistant {
            name: String::from_str("Naggy"),
            instructions: String::from_str(
                "You review Rust functions for drift between their documentation and their implementation. Each message holds four labeled fields: HASH, FUNCTION_NAME, DOC_STRING and FUNCTION_BODY. Compare the doc string with the body and answer with a single JSON object with exactly the fields \"name\", \"confidence\", \"hash\", \"errors\" and \"warnings\", in that order and with no other text: name is the function name, confidence is a number between 0.0 and 1.0, hash is the HASH field verbatim, errors is the list of required fixes, and warnings is the list of non-blocking suggestions.",
            ),
            model: String::from_str("gpt-4o"),
        }
    }
}

// ---------------------------------------------------------------------------
// Laws of a round
// ---------------------------------------------------------------------------
/// The transition at step `i` of a trace is valid.
pub open spec fn trans_at(states: Seq<RoundState>, events: Seq<RoundEvent>, i: int) -> bool {
    step_ok(states[i], events[i], states[i + 1])
}

/// A run of the round state machine: `states` has one state more than
/// `events`, and each event takes one state to the next.
pub open spec fn valid_trace(states: Seq<RoundState>, events: Seq<RoundEvent>) -> bool {
    states.len() == events.len() + 1 && forall|i: int|
        0 <= i < events.len() ==> #[trigger] trans_at(states, events, i)
}

proof fn lemma_done_from(states: Seq<RoundState>, events: Seq<RoundEvent>, k: int, j: int)
    requires
        valid_trace(states, events),
        0 <= k <= j < states.len(),
        states[k] is Done,
    ensures
        states[j] is Done,
    decreases j - k,
{
    if j > k {
        assert(trans_at(states, events, k));
        lemma_done_from(states, events, k + 1, j);
    }
}

proof fn lemma_failed_from(states: Seq<RoundState>, events: Seq<RoundEvent>, k: int, j: int)
    requires
        valid_trace(states, events),
        0 <= k <= j < states.len(),
        states[k] is RoundFailed,
    ensures
        states[j] is RoundFailed,
    decreases j - k,
{
    if j > k {
        assert(trans_at(states, events, k));
        lemma_failed_from(states, events, k + 1, j);
    }
}

/// Cache short-circuit: in a round whose cache lookup hits, no state ever
/// calls for a remote-assessor operation — the round goes straight to `Done`
/// and stays there.
pub proof fn lemma_cache_hit_short_circuit(states: Seq<RoundState>, events: Seq<RoundEvent>)
    requires
        valid_trace(states, events),
        states.len() >= 2,
        states[0] is CheckCache,
        events[0] is CacheHit,
    ensures
        forall|k: int|
            1 <= k < states.len() ==> #[trigger] states[k] is Done,
        forall|k: int|
            0 <= k < states.len() ==> !(action_of(#[trigger] states[k]) matches Some(a)
                && is_remote_action(a)),
{
    assert(trans_at(states, events, 0));
    assert forall|k: int| 1 <= k < states.len() implies #[trigger] states[k] is Done by {
        lemma_done_from(states, events, 1, k);
    }
}

/// The entries a round writes to the cache: one for each `Persist` state
/// whose write was acknowledged.
pub open spec fn writes_upto(
    states: Seq<RoundState>,
    events: Seq<RoundEvent>,
    i: int,
) -> Seq<CacheEntryView>
    decreases i,
{
    if i <= 0 {
        Seq::empty()
    } else {
        writes_upto(states, events, i - 1) + (if 0 <= i - 1 < events.len() && events[i - 1]
            is Persisted {
            match states[i - 1] {
                RoundState::Persist(e) => seq![e@],
                _ => Seq::empty(),
            }
        } else {
            Seq::empty()
        })
    }
}

pub open spec fn writes_of(states: Seq<RoundState>, events: Seq<RoundEvent>) -> Seq<
    CacheEntryView,
> {
    writes_upto(states, events, events.len() as int)
}

/// A store map after a sequence of upserts, each keyed by its own hash.
pub open spec fn apply_writes(
    m: Map<Seq<char>, CacheEntryView>,
    ws: Seq<CacheEntryView>,
) -> Map<Seq<char>, CacheEntryView>
    decreases ws.len(),
{
    if ws.len() == 0 {
        m
    } else {
        apply_writes(m, ws.drop_last()).insert(ws.last().hash, ws.last())
    }
}

proof fn lemma_no_persist_no_writes(states: Seq<RoundState>, events: Seq<RoundEvent>, i: int)
    requires
        forall|k: int| 0 <= k < states.len() ==> !(#[trigger] states[k] is Persist),
        states.len() == events.len() + 1,
        0 <= i <= events.len(),
    ensures
        writes_upto(states, events, i) == Seq::<CacheEntryView>::empty(),
    decreases i,
{
    if i > 0 {
        lemma_no_persist_no_writes(states, events, i - 1);
        assert(!(states[i - 1] is Persist));
        assert(writes_upto(states, events, i) =~= Seq::<CacheEntryView>::empty());
    }
}

/// Round isolation: a round that never reaches `Persist` — in particular one
/// that fails while polling or decoding — writes nothing to the cache, so
/// whatever store the concurrent rounds share, it is left exactly as their
/// own writes make it: a succeeding round's entry is present and untouched.
pub proof fn lemma_round_isolation(
    m: Map<Seq<char>, CacheEntryView>,
    states: Seq<RoundState>,
    events: Seq<RoundEvent>,
    e: CacheEntryView,
)
    requires
        valid_trace(states, events),
        forall|k: int| 0 <= k < states.len() ==> !(#[trigger] states[k] is Persist),
    ensures
        apply_writes(m, writes_of(states, events)) == m,
        apply_writes(apply_writes(m, writes_of(states, events)), seq![e]) == m.insert(e.hash, e),
{
    lemma_no_persist_no_writes(states, events, events.len() as int);
    let one = seq![e];
    assert(one.drop_last() =~= Seq::<CacheEntryView>::empty());
    assert(one.last() == e);
}

/// A failure while polling ends the round: a terminal failure status moves
/// the round to `RoundFailed`, every later state stays `RoundFailed`, and
/// the round never reaches `Persist` afterwards.
pub proof fn lemma_failed_status_ends_round(
    states: Seq<RoundState>,
    events: Seq<RoundEvent>,
    i: int,
)
    requires
        valid_trace(states, events),
        0 <= i < events.len(),
        states[i] is Poll,
        events[i] matches RoundEvent::StatusFetched(st) && (st is Failed || st is Expired
            || st is Cancelled),
    ensures
        forall|k: int| i < k < states.len() ==> #[trigger] states[k] is RoundFailed,
{
    assert(trans_at(states, events, i));
    assert forall|k: int| i < k < states.len() implies #[trigger] states[k] is RoundFailed by {
        lemma_failed_from(states, events, i + 1, k);
    }
}

} // verus!
