//! The per-request pipeline as a state machine: the fixed, ordered extension
//! points a proxy drives for each inbound request, each able to end the
//! request early. A driver owns the actual request, response and hook
//! implementations; it feeds each hook's outcome through [`advance`] and acts
//! on the stage that results.
use vstd::prelude::*;

verus! {

/// How a request ended.
#[derive(Clone, Copy, PartialEq, Eq, Structural, Debug)]
pub enum Outcome {
    /// The upstream's response, after the response filter passed it.
    UpstreamResponse,
    /// The request filter's own response, returned verbatim.
    FilterResponse,
    /// No upstream was available; a service-unavailable response is
    /// synthesized.
    NoRoute,
    /// The connect-failure hook's own response, returned verbatim.
    HookResponse,
    /// The upstream could not be reached and the hook declined; an
    /// internal-error response is synthesized.
    ConnectFailure,
    /// The response filter's own response, returned verbatim.
    ResponseFilterResponse,
}

/// Where a request stands in the pipeline.
#[derive(Clone, Copy, PartialEq, Eq, Structural, Debug)]
pub enum PipelineStage {
    /// Running the request filter, which may reject the request.
    RequestFilter,
    /// Choosing the upstream target.
    SelectUpstream,
    /// Rewriting the outgoing request; this stage cannot fail.
    RewriteRequest,
    /// Forwarding the rewritten request to the upstream.
    Forward,
    /// Asking the connect-failure hook for a response.
    FailHook,
    /// Reporting the upstream latency; this stage cannot fail.
    Latency,
    /// Running the response filter, which may replace the response.
    ResponseFilter,
    /// The request is answered.
    Done(Outcome),
}

/// What one pipeline stage reported.
#[derive(Clone, Copy, PartialEq, Eq, Structural, Debug)]
pub enum PipelineEvent {
    /// The request filter passed the request on.
    FilterPassed,
    /// The request filter answered the request itself.
    FilterResponded,
    /// An upstream target was chosen.
    UpstreamChosen,
    /// No upstream target exists for this request.
    NoUpstream,
    /// The outgoing request was rewritten.
    RewriteDone,
    /// The upstream answered.
    ForwardSucceeded,
    /// The upstream could not be reached.
    ForwardFailed,
    /// The connect-failure hook supplied a response.
    HookResponded,
    /// The connect-failure hook declined to answer.
    HookDeclined,
    /// The latency hook ran.
    LatencyRecorded,
    /// The response filter passed the response on.
    ResponsePassed,
    /// The response filter answered with its own response.
    ResponseResponded,
}

/// The events each stage may report.
pub open spec fn spec_event_fits(stage: PipelineStage, event: PipelineEvent) -> bool {
    match (stage, event) {
        (PipelineStage::RequestFilter, PipelineEvent::FilterPassed) => true,
        (PipelineStage::RequestFilter, PipelineEvent::FilterResponded) => true,
        (PipelineStage::SelectUpstream, PipelineEvent::UpstreamChosen) => true,
        (PipelineStage::SelectUpstream, PipelineEvent::NoUpstream) => true,
        (PipelineStage::RewriteRequest, PipelineEvent::RewriteDone) => true,
        (PipelineStage::Forward, PipelineEvent::ForwardSucceeded) => true,
        (PipelineStage::Forward, PipelineEvent::ForwardFailed) => true,
        (PipelineStage::FailHook, PipelineEvent::HookResponded) => true,
        (PipelineStage::FailHook, PipelineEvent::HookDeclined) => true,
        (PipelineStage::Latency, PipelineEvent::LatencyRecorded) => true,
        (PipelineStage::ResponseFilter, PipelineEvent::ResponsePassed) => true,
        (PipelineStage::ResponseFilter, PipelineEvent::ResponseResponded) => true,
        _ => false,
    }
}

/// The stage after one event: the fixed order request filter, upstream
/// selection, rewrite, forward, then latency and response filter on success
/// or the connect-failure hook on failure — with every rejection ending the
/// request at its documented outcome.
pub open spec fn spec_step(stage: PipelineStage, event: PipelineEvent) -> PipelineStage {
    match (stage, event) {
        (PipelineStage::RequestFilter, PipelineEvent::FilterPassed) => PipelineStage::SelectUpstream,
        (PipelineStage::RequestFilter, PipelineEvent::FilterResponded) => PipelineStage::Done(
            Outcome::FilterResponse,
        ),
        (PipelineStage::SelectUpstream, PipelineEvent::UpstreamChosen) => PipelineStage::RewriteRequest,
        (PipelineStage::SelectUpstream, PipelineEvent::NoUpstream) => PipelineStage::Done(
            Outcome::NoRoute,
        ),
        (PipelineStage::RewriteRequest, PipelineEvent::RewriteDone) => PipelineStage::Forward,
        (PipelineStage::Forward, PipelineEvent::ForwardSucceeded) => PipelineStage::Latency,
        (PipelineStage::Forward, PipelineEvent::ForwardFailed) => PipelineStage::FailHook,
        (PipelineStage::FailHook, PipelineEvent::HookResponded) => PipelineStage::Done(
            Outcome::HookResponse,
        ),
        (PipelineStage::FailHook, PipelineEvent::HookDeclined) => PipelineStage::Done(
            Outcome::ConnectFailure,
        ),
        (PipelineStage::Latency, PipelineEvent::LatencyRecorded) => PipelineStage::ResponseFilter,
        (PipelineStage::ResponseFilter, PipelineEvent::ResponsePassed) => PipelineStage::Done(
            Outcome::UpstreamResponse,
        ),
        (PipelineStage::ResponseFilter, PipelineEvent::ResponseResponded) => PipelineStage::Done(
            Outcome::ResponseFilterResponse,
        ),
        _ => stage,
    }
}

/// The position of a stage in the pipeline's fixed order; the connect-failure
/// hook and the latency hook share a position, as a request reaches exactly
/// one of them.
pub open spec fn spec_stage_order(stage: PipelineStage) -> int {
    match stage {
        PipelineStage::RequestFilter => 0,
        PipelineStage::SelectUpstream => 1,
        PipelineStage::RewriteRequest => 2,
        PipelineStage::Forward => 3,
        PipelineStage::FailHook => 4,
        PipelineStage::Latency => 4,
        PipelineStage::ResponseFilter => 5,
        PipelineStage::Done(_) => 6,
    }
}

/// Law: the pipeline only moves forward — every event a stage may report
/// advances the request strictly further along the fixed stage order, so no
/// stage runs twice and every request is answered within the number of
/// stages.
pub proof fn lemma_pipeline_moves_forward(stage: PipelineStage, event: PipelineEvent)
    requires
        spec_event_fits(stage, event),
    ensures
        spec_stage_order(spec_step(stage, event)) > spec_stage_order(stage),
{
}

/// The stage a request starts in.
pub fn initial_stage() -> (r: PipelineStage)
    ensures
        r == PipelineStage::RequestFilter,
{
    PipelineStage::RequestFilter
}

/// Advance the pipeline by one reported event: the next stage, or `None`
/// when the event is not one the stage can report.
pub fn advance(stage: PipelineStage, event: PipelineEvent) -> (r: Option<PipelineStage>)
    ensures
        spec_event_fits(stage, event) ==> r == Some(spec_step(stage, event)),
        !spec_event_fits(stage, event) ==> r is None,
{
    match (stage, event) {
        (PipelineStage::RequestFilter, PipelineEvent::FilterPassed) => Some(
            PipelineStage::SelectUpstream,
        ),
        (PipelineStage::RequestFilter, PipelineEvent::FilterResponded) => Some(
            PipelineStage::Done(Outcome::FilterResponse),
        ),
        (PipelineStage::SelectUpstream, PipelineEvent::UpstreamChosen) => Some(
            PipelineStage::RewriteRequest,
        ),
        (PipelineStage::SelectUpstream, PipelineEvent::NoUpstream) => Some(
            PipelineStage::Done(Outcome::NoRoute),
        ),
        (PipelineStage::RewriteRequest, PipelineEvent::RewriteDone) => Some(PipelineStage::Forward),
        (PipelineStage::Forward, PipelineEvent::ForwardSucceeded) => Some(PipelineStage::Latency),
        (PipelineStage::Forward, PipelineEvent::ForwardFailed) => Some(PipelineStage::FailHook),
        (PipelineStage::FailHook, PipelineEvent::HookResponded) => Some(
            PipelineStage::Done(Outcome::HookResponse),
        ),
        (PipelineStage::FailHook, PipelineEvent::HookDeclined) => Some(
            PipelineStage::Done(Outcome::ConnectFailure),
        ),
        (PipelineStage::Latency, PipelineEvent::LatencyRecorded) => Some(
            PipelineStage::ResponseFilter,
        ),
        (PipelineStage::ResponseFilter, PipelineEvent::ResponsePassed) => Some(
            PipelineStage::Done(Outcome::UpstreamResponse),
        ),
        (PipelineStage::ResponseFilter, PipelineEvent::ResponseResponded) => Some(
            PipelineStage::Done(Outcome::ResponseFilterResponse),
        ),
        _ => None,
    }
}

/// The status code of the response the pipeline synthesizes itself for an
/// outcome, or `None` where a stage already supplied the response: 503 when
/// no upstream exists, 500 when the upstream could not be reached and the
/// hook declined.
pub fn synthesized_status(outcome: Outcome) -> (r: Option<u16>)
    ensures
        outcome == Outcome::NoRoute ==> r == Some(503u16),
        outcome == Outcome::ConnectFailure ==> r == Some(500u16),
        outcome != Outcome::NoRoute && outcome != Outcome::ConnectFailure ==> r is None,
{
    match outcome {
        Outcome::NoRoute => Some(503),
        Outcome::ConnectFailure => Some(500),
        _ => None,
    }
}

} // verus!
