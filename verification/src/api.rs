//! Errors as the HTTP surface reports them: what each failure behind it comes
//! to, as a status, a code and a sentence.

use vstd::prelude::*;

use crate::error::{ComputeError, ComputeErrorView};
use crate::gemini::GeminiError;
use crate::json::{Json, JsonView};
use crate::message::{self, Message, PieceView};
use crate::narrate::NarrateError;
use crate::orchestrator::OrchestratorError;
use crate::parse::ParseError;
use crate::pipeline::{self, PipelineError};
use crate::suggest::SuggestError;
use crate::text;
use crate::trace;

verus! {

/// The status of a request that is wrong.
pub const BAD_REQUEST: u16 = 400;

/// The status of a request for what is not there.
pub const NOT_FOUND: u16 = 404;

/// The status of a request that cannot be acted on.
pub const UNPROCESSABLE_ENTITY: u16 = 422;

/// The status of a failure on this side.
pub const INTERNAL_SERVER_ERROR: u16 = 500;

/// The status of a failure of the language model.
pub const SERVICE_UNAVAILABLE: u16 = 503;

/// An error as it is reported.
#[derive(Debug)]
pub struct ApiError {
    pub status: u16,
    pub code: &'static str,
    pub message: Message,
}

/// What an [`ApiError`] says.
pub struct ApiErrorView {
    pub status: u16,
    pub code: Seq<char>,
    pub message: Seq<PieceView>,
}

impl View for ApiError {
    type V = ApiErrorView;

    open spec fn view(&self) -> ApiErrorView {
        ApiErrorView { status: self.status, code: self.code@, message: self.message@ }
    }
}

/// A wrong request.
pub open spec fn wrong_request(code: Seq<char>, message: Seq<PieceView>) -> ApiErrorView {
    ApiErrorView { status: BAD_REQUEST, code, message }
}

/// A failure on this side.
pub open spec fn internal_error(message: Seq<PieceView>) -> ApiErrorView {
    ApiErrorView { status: INTERNAL_SERVER_ERROR, code: "internal_error"@, message }
}

impl ApiError {
    /// A wrong request.
    pub fn bad_request(code: &'static str, message: Message) -> (res: Self)
        ensures
            res@ == wrong_request(code@, message@),
    {
        ApiError { status: BAD_REQUEST, code, message }
    }

    /// A request for what is not there.
    pub fn not_found(code: &'static str, message: Message) -> (res: Self)
        ensures
            res@ == (ApiErrorView { status: NOT_FOUND, code: code@, message: message@ }),
    {
        ApiError { status: NOT_FOUND, code, message }
    }

    /// A failure on this side.
    pub fn internal(message: Message) -> (res: Self)
        ensures
            res@ == internal_error(message@),
    {
        ApiError { status: INTERNAL_SERVER_ERROR, code: "internal_error", message }
    }

    /// A body that is not the JSON it should be. The reader of the body says
    /// why, and with which status; JSON that lacks a field is as wrong a
    /// request as JSON that does not parse.
    pub fn invalid_json(status: u16, reason: &str) -> (res: Self)
        ensures
            res@ == (ApiErrorView {
                status: if status == UNPROCESSABLE_ENTITY {
                    BAD_REQUEST
                } else {
                    status
                },
                code: "invalid_json"@,
                message: message::plain(reason@),
            }),
    {
        let status: u16 = if status == UNPROCESSABLE_ENTITY {
            BAD_REQUEST
        } else {
            status
        };
        ApiError { status, code: "invalid_json", message: Message::of(reason) }
    }

    /// The body of the report.
    pub fn body(&self) -> (res: Json)
        ensures
            res@ == JsonView::empty().with("error"@, JsonView::Sentence(self.message@)).with(
                "code"@,
                JsonView::Text(self.code@),
            ),
    {
        Json::object().with("error", Json::Sentence(self.message.duplicate())).with(
            "code",
            Json::of_text(self.code),
        )
    }
}

/// What a request failed of.
#[derive(Debug)]
pub enum BackendError {
    /// The request maps to nothing that can be run.
    Unrecognised(Message),
    /// The compute layer failed.
    Compute(Message),
    /// The language model failed.
    GeminiUnavailable(Message),
    Internal(Message),
}

/// What a [`BackendError`] says.
pub enum BackendErrorView {
    Unrecognised(Seq<PieceView>),
    Compute(Seq<PieceView>),
    GeminiUnavailable(Seq<PieceView>),
    Internal(Seq<PieceView>),
}

impl View for BackendError {
    type V = BackendErrorView;

    open spec fn view(&self) -> BackendErrorView {
        match self {
            BackendError::Unrecognised(m) => BackendErrorView::Unrecognised(m@),
            BackendError::Compute(m) => BackendErrorView::Compute(m@),
            BackendError::GeminiUnavailable(m) => BackendErrorView::GeminiUnavailable(m@),
            BackendError::Internal(m) => BackendErrorView::Internal(m@),
        }
    }
}

/// What a failure of the language model comes to: a missing key is ours to
/// mend.
pub open spec fn gemini_failure(err: GeminiError) -> BackendErrorView {
    match err {
        GeminiError::MissingApiKey => BackendErrorView::Internal(message::plain(err.sentence())),
        _ => BackendErrorView::GeminiUnavailable(message::plain(err.sentence())),
    }
}

/// What a failure to extract an experiment comes to.
pub open spec fn parse_failure(err: ParseError) -> BackendErrorView {
    match err {
        ParseError::Unrecognised(words) => BackendErrorView::Unrecognised(message::plain(words@)),
        ParseError::Gemini(g) => gemini_failure(g),
        _ => BackendErrorView::Internal(message::plain(err.sentence())),
    }
}

/// What a failure to plan comes to.
pub open spec fn orchestrator_failure(err: OrchestratorError) -> BackendErrorView {
    match err {
        OrchestratorError::Gemini(g) => gemini_failure(g),
        OrchestratorError::Unrecognised(words) => BackendErrorView::Unrecognised(
            message::plain(words@),
        ),
        _ => BackendErrorView::Internal(message::plain(err.sentence())),
    }
}

/// What a failure to narrate comes to.
pub open spec fn narrate_failure(err: NarrateError) -> BackendErrorView {
    match err {
        NarrateError::Gemini(g) => gemini_failure(g),
        _ => BackendErrorView::Internal(message::plain(err.sentence())),
    }
}

/// What a failure to suggest comes to.
pub open spec fn suggest_failure(err: SuggestError) -> BackendErrorView {
    match err {
        SuggestError::Gemini(g) => gemini_failure(g),
        _ => BackendErrorView::Internal(message::plain(err.sentence())),
    }
}

/// What a failure of the compute layer comes to: a missing baseline and a loss
/// out of reach are problems of the request.
pub open spec fn compute_failure(err: ComputeErrorView) -> BackendErrorView {
    match err {
        ComputeErrorView::NoPriorSnapshot(m) => BackendErrorView::Unrecognised(m),
        ComputeErrorView::ReverseStressInfeasible(m) => BackendErrorView::Unrecognised(m),
        _ => BackendErrorView::Compute(err.sentence()),
    }
}

/// What a failure to answer a question comes to.
pub open spec fn pipeline_failure(err: PipelineError) -> BackendErrorView {
    match err {
        PipelineError::Orchestrator(e) => orchestrator_failure(e),
        PipelineError::Compute(e) => BackendErrorView::Compute(e@.sentence()),
        PipelineError::Narrate(e) => narrate_failure(e),
        PipelineError::Suggest(e) => suggest_failure(e),
        PipelineError::AllToolsFailed(errors) => BackendErrorView::Compute(
            message::plain(pipeline::all_failed(text::views(errors@))),
        ),
    }
}

impl BackendError {
    /// What a failure of the language model comes to.
    pub fn from_gemini(err: &GeminiError) -> (res: Self)
        ensures
            res@ == gemini_failure(*err),
    {
        let words = err.message();
        match err {
            GeminiError::MissingApiKey => BackendError::Internal(Message::of(words.as_str())),
            _ => BackendError::GeminiUnavailable(Message::of(words.as_str())),
        }
    }

    /// What a failure to extract an experiment comes to.
    pub fn from_parse(err: &ParseError) -> (res: Self)
        ensures
            res@ == parse_failure(*err),
    {
        match err {
            ParseError::Unrecognised(words) => BackendError::Unrecognised(
                Message::of(words.as_str()),
            ),
            ParseError::Gemini(g) => BackendError::from_gemini(g),
            other => {
                let words = other.message();
                BackendError::Internal(Message::of(words.as_str()))
            },
        }
    }

    /// What a failure to plan comes to.
    pub fn from_orchestrator(err: &OrchestratorError) -> (res: Self)
        ensures
            res@ == orchestrator_failure(*err),
    {
        match err {
            OrchestratorError::Gemini(g) => BackendError::from_gemini(g),
            OrchestratorError::Unrecognised(words) => BackendError::Unrecognised(
                Message::of(words.as_str()),
            ),
            other => {
                let words = other.message();
                BackendError::Internal(Message::of(words.as_str()))
            },
        }
    }

    /// What a failure to narrate comes to.
    pub fn from_narrate(err: &NarrateError) -> (res: Self)
        ensures
            res@ == narrate_failure(*err),
    {
        match err {
            NarrateError::Gemini(g) => BackendError::from_gemini(g),
            other => {
                let words = other.message();
                BackendError::Internal(Message::of(words.as_str()))
            },
        }
    }

    /// What a failure to suggest comes to.
    pub fn from_suggest(err: &SuggestError) -> (res: Self)
        ensures
            res@ == suggest_failure(*err),
    {
        match err {
            SuggestError::Gemini(g) => BackendError::from_gemini(g),
            other => {
                let words = other.message();
                BackendError::Internal(Message::of(words.as_str()))
            },
        }
    }

    /// What a failure of the compute layer comes to.
    pub fn from_compute(err: &ComputeError) -> (res: Self)
        ensures
            res@ == compute_failure(err@),
    {
        match err {
            ComputeError::NoPriorSnapshot(m) => BackendError::Unrecognised(m.duplicate()),
            ComputeError::ReverseStressInfeasible(m) => BackendError::Unrecognised(m.duplicate()),
            other => BackendError::Compute(other.message()),
        }
    }

    /// What a failure to answer a question comes to.
    pub fn from_pipeline(err: &PipelineError) -> (res: Self)
        ensures
            res@ == pipeline_failure(*err),
    {
        match err {
            PipelineError::Orchestrator(e) => BackendError::from_orchestrator(e),
            PipelineError::Compute(e) => BackendError::Compute(e.message()),
            PipelineError::Narrate(e) => BackendError::from_narrate(e),
            PipelineError::Suggest(e) => BackendError::from_suggest(e),
            PipelineError::AllToolsFailed(errors) => {
                let list = pipeline::debug_texts(errors);
                let words = text::join2("every planned tool failed: ", list.as_str());
                BackendError::Compute(Message::of(words.as_str()))
            },
        }
    }

    /// The sentence shown to a reader.
    pub fn message(&self) -> (res: Message)
        ensures
            res@ == self@.sentence(),
    {
        match self {
            BackendError::Unrecognised(m) => m.duplicate(),
            BackendError::Compute(m) => prefixed("compute error: ", m),
            BackendError::GeminiUnavailable(m) => prefixed("gemini unavailable: ", m),
            BackendError::Internal(m) => prefixed("internal error: ", m),
        }
    }
}

impl BackendErrorView {
    /// The sentence shown to a reader.
    pub open spec fn sentence(self) -> Seq<PieceView> {
        match self {
            BackendErrorView::Unrecognised(m) => m,
            BackendErrorView::Compute(m) => message::plain("compute error: "@) + m,
            BackendErrorView::GeminiUnavailable(m) => message::plain("gemini unavailable: "@) + m,
            BackendErrorView::Internal(m) => message::plain("internal error: "@) + m,
        }
    }

    /// How a failure is reported.
    pub open spec fn reported(self) -> ApiErrorView {
        match self {
            BackendErrorView::Unrecognised(message) => ApiErrorView {
                status: UNPROCESSABLE_ENTITY,
                code: "unrecognised_request"@,
                message,
            },
            BackendErrorView::Compute(message) => ApiErrorView {
                status: INTERNAL_SERVER_ERROR,
                code: "compute_error"@,
                message,
            },
            BackendErrorView::GeminiUnavailable(message) => ApiErrorView {
                status: SERVICE_UNAVAILABLE,
                code: "gemini_unavailable"@,
                message,
            },
            BackendErrorView::Internal(message) => ApiErrorView {
                status: INTERNAL_SERVER_ERROR,
                code: "internal_error"@,
                message,
            },
        }
    }
}

fn prefixed(prefix: &str, m: &Message) -> (res: Message)
    ensures
        res@ == message::plain(prefix@) + m@,
{
    let mut res = Message::of(prefix);
    res.append(m);
    res
}

impl ApiError {
    /// How a failure is reported.
    pub fn from_backend(err: BackendError) -> (res: Self)
        ensures
            res@ == err@.reported(),
    {
        match err {
            BackendError::Unrecognised(message) => ApiError {
                status: UNPROCESSABLE_ENTITY,
                code: "unrecognised_request",
                message,
            },
            BackendError::Compute(message) => ApiError {
                status: INTERNAL_SERVER_ERROR,
                code: "compute_error",
                message,
            },
            BackendError::GeminiUnavailable(message) => ApiError {
                status: SERVICE_UNAVAILABLE,
                code: "gemini_unavailable",
                message,
            },
            BackendError::Internal(message) => ApiError {
                status: INTERNAL_SERVER_ERROR,
                code: "internal_error",
                message,
            },
        }
    }
}

/// What the failures of the parts come to: a refusal in words is shown to the
/// reader as it is, a language model out of reach is told as such by whichever
/// part needed it, and everything else is a failure on this side; a plan of
/// which every tool failed is a failed computation.
pub proof fn lemma_failures_of_the_parts(
    words: String,
    gemini: GeminiError,
    narrate: NarrateError,
    suggest: SuggestError,
    errors: Vec<String>,
)
    ensures
        parse_failure(ParseError::Unrecognised(words)) == BackendErrorView::Unrecognised(
            message::plain(words@),
        ),
        orchestrator_failure(OrchestratorError::Unrecognised(words))
            == BackendErrorView::Unrecognised(message::plain(words@)),
        parse_failure(ParseError::Gemini(gemini)) == gemini_failure(gemini),
        orchestrator_failure(OrchestratorError::Gemini(gemini)) == gemini_failure(gemini),
        narrate_failure(NarrateError::Gemini(gemini)) == gemini_failure(gemini),
        suggest_failure(SuggestError::Gemini(gemini)) == gemini_failure(gemini),
        parse_failure(ParseError::NoCandidates) is Internal && parse_failure(
            ParseError::EmptyResponse,
        ) is Internal && parse_failure(ParseError::UnexpectedFunction(words)) is Internal
            && parse_failure(ParseError::InvalidArgs(words)) is Internal,
        orchestrator_failure(OrchestratorError::Serialize(words)) is Internal,
        !(narrate is Gemini) ==> narrate_failure(narrate) is Internal,
        !(suggest is Gemini) ==> suggest_failure(suggest) is Internal,
        pipeline_failure(PipelineError::Narrate(narrate)) == narrate_failure(narrate),
        pipeline_failure(PipelineError::Suggest(suggest)) == suggest_failure(suggest),
        pipeline_failure(PipelineError::AllToolsFailed(errors)) is Compute,
{
}

/// How each kind of failure is answered: a wrong request with 400, one that is
/// not understood with 422, a failed computation and any failure on this side
/// with 500, and a language model out of reach with 503.
pub proof fn lemma_statuses(code: Seq<char>, m: Seq<PieceView>)
    ensures
        wrong_request(code, m).status == 400 && wrong_request(code, m).code == code
            && wrong_request(code, m).message == m,
        internal_error(m).status == 500 && internal_error(m).message == m,
        BackendErrorView::Unrecognised(m).reported().status == 422,
        BackendErrorView::Compute(m).reported().status == 500,
        BackendErrorView::GeminiUnavailable(m).reported().status == 503,
        BackendErrorView::Internal(m).reported().status == 500,
        BackendErrorView::Unrecognised(m).reported().message == m,
        BackendErrorView::Compute(m).reported().message == m,
        BackendErrorView::GeminiUnavailable(m).reported().message == m,
        BackendErrorView::Internal(m).reported().message == m,
        BackendErrorView::Unrecognised(m).reported().code == "unrecognised_request"@,
        BackendErrorView::Compute(m).reported().code == "compute_error"@,
        BackendErrorView::GeminiUnavailable(m).reported().code == "gemini_unavailable"@,
        BackendErrorView::Internal(m).reported().code == "internal_error"@,
{
}

/// A request that cannot be acted on is never reported as a failure on this
/// side, and a failure of the language model only ever as one of the service
/// it depends on, unless the key is missing.
pub proof fn lemma_reports_tell_failures_apart(compute: ComputeErrorView, gemini: GeminiError)
    ensures
        compute is NoPriorSnapshot || compute is ReverseStressInfeasible <==> compute_failure(
            compute,
        ).reported().status == UNPROCESSABLE_ENTITY,
        !(gemini is MissingApiKey) <==> gemini_failure(gemini).reported().status
            == SERVICE_UNAVAILABLE,
{
}

/// What answers requests: the language model and the snapshots.
#[derive(Debug)]
pub struct RealBackend<G, S> {
    pub gemini: G,
    pub store: S,
}

impl<G, S> RealBackend<G, S> {
    /// A backend on the given model and snapshots.
    pub fn new(gemini: G, store: S) -> (res: Self)
        ensures
            res.gemini == gemini,
            res.store == store,
    {
        RealBackend { gemini, store }
    }
}

/// The answer of a server that is up.
#[derive(Debug)]
pub struct HealthResponse {
    pub status: &'static str,
    pub version: &'static str,
}

/// The answer of a server that is up.
pub fn health() -> (res: HealthResponse)
    ensures
        res.status@ == "ok"@,
        res.version@ == trace::ENGINE_VERSION@,
{
    HealthResponse { status: "ok", version: trace::ENGINE_VERSION }
}

impl HealthResponse {
    /// The answer as a JSON object.
    pub fn to_json(&self) -> (res: Json)
        ensures
            res@ == JsonView::empty().with("status"@, JsonView::Text(self.status@)).with(
                "version"@,
                JsonView::Text(self.version@),
            ),
    {
        Json::object().with("status", Json::of_text(self.status)).with(
            "version",
            Json::of_text(self.version),
        )
    }
}

} // verus!
