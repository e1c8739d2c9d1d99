//! Requests to the language model and its replies, and when a request is sent
//! again.

use vstd::prelude::*;

use crate::json::{self, Json, JsonView};
use crate::text;

verus! {

/// Where the models are served.
pub const API_BASE: &'static str = "https://generativelanguage.googleapis.com/v1beta/models";

/// The model that plans and extracts.
pub const MODEL_PARSE: &'static str = "gemini-3.8-flash";

/// The model that narrates.
pub const MODEL_NARRATE: &'static str = "gemini-3.8-flash";

/// The model that suggests a next step.
pub const MODEL_SUGGEST: &'static str = "gemini-3.8-flash";

/// How often a request is sent at most.
pub const MAX_ATTEMPTS: u32 = 3;

/// The milliseconds before a request is sent a second time.
pub const FIRST_BACKOFF_MS: u64 = 250;

/// Where a request to a model goes.
pub fn endpoint(model: &str) -> (res: String)
    ensures
        res@ == API_BASE@ + "/"@ + model@ + ":generateContent"@,
{
    let head = text::join3(API_BASE, "/", model);
    text::join2(head.as_str(), ":generateContent")
}

/// What went wrong with a request to the model.
#[derive(Debug)]
pub enum GeminiError {
    MissingApiKey,
    Http(String),
    Status { status: u16, body: String },
    Json(String),
    NoCandidates,
}

impl GeminiError {
    /// The sentence shown to a reader.
    pub open spec fn sentence(self) -> Seq<char> {
        match self {
            GeminiError::MissingApiKey => "GEMINI_API_KEY environment variable is not set"@,
            GeminiError::Http(cause) => "http request failed: "@ + cause@,
            GeminiError::Status { status, body } => "gemini returned status "@ + text::decimal(
                status as nat,
            ) + ": "@ + body@,
            GeminiError::Json(cause) => "failed to parse gemini response as json: "@ + cause@,
            GeminiError::NoCandidates => "gemini response had no candidates"@,
        }
    }

    /// The sentence shown to a reader.
    pub fn message(&self) -> (res: String)
        ensures
            res@ == self.sentence(),
    {
        match self {
            GeminiError::MissingApiKey => text::copy(
                "GEMINI_API_KEY environment variable is not set",
            ),
            GeminiError::Http(cause) => text::join2("http request failed: ", cause.as_str()),
            GeminiError::Status { status, body } => {
                let number = text::decimal_text(*status as u64);
                let head = text::join3("gemini returned status ", number.as_str(), ": ");
                text::join2(head.as_str(), body.as_str())
            },
            GeminiError::Json(cause) => text::join2(
                "failed to parse gemini response as json: ",
                cause.as_str(),
            ),
            GeminiError::NoCandidates => text::copy("gemini response had no candidates"),
        }
    }
}

// ---------------------------------------------------------------------------
// Sending again
// ---------------------------------------------------------------------------

/// What follows a reply.
#[derive(Clone, Copy, Debug, PartialEq, Eq, Structural)]
pub enum NextStep {
    /// The reply is read.
    Accept,
    /// The request is sent again after the given milliseconds.
    Wait(u64),
    /// The request has failed.
    Fail,
}

/// What follows a reply with the given status to the given attempt.
pub open spec fn next_step(attempt: u32, status: u16) -> NextStep {
    if 200 <= status < 300 {
        NextStep::Accept
    } else if (status == 429 || status == 503) && attempt < MAX_ATTEMPTS {
        NextStep::Wait(
            if attempt == 1 {
                FIRST_BACKOFF_MS
            } else {
                (2 * FIRST_BACKOFF_MS) as u64
            },
        )
    } else {
        NextStep::Fail
    }
}

/// Decides what follows a reply: a busy server is asked again, each time after
/// twice the wait, until the attempts are used up.
pub fn after_reply(attempt: u32, status: u16) -> (res: NextStep)
    requires
        attempt >= 1,
    ensures
        res == next_step(attempt, status),
{
    if 200 <= status && status < 300 {
        NextStep::Accept
    } else if (status == 429 || status == 503) && attempt < MAX_ATTEMPTS {
        if attempt == 1 {
            NextStep::Wait(FIRST_BACKOFF_MS)
        } else {
            NextStep::Wait(2 * FIRST_BACKOFF_MS)
        }
    } else {
        NextStep::Fail
    }
}

/// A success is taken at once. A busy server is asked again after a quarter of
/// a second, and after the second attempt in half a second; the third attempt
/// is the last. Any other reply is a failure.
pub proof fn lemma_what_follows_a_reply(attempt: u32, status: u16)
    requires
        attempt >= 1,
    ensures
        next_step(attempt, status) is Accept <==> 200 <= status <= 299,
        status == 429 || status == 503 ==> next_step(attempt, status) == (if attempt == 1 {
            NextStep::Wait(250)
        } else if attempt == 2 {
            NextStep::Wait(500)
        } else {
            NextStep::Fail
        }),
        status != 429 && status != 503 && !(200 <= status <= 299) ==> next_step(attempt, status)
            == NextStep::Fail,
{
}

/// A request is sent at most three times, whatever is replied; and only a busy
/// server is asked again.
pub proof fn lemma_attempts_are_bounded(attempt: u32, status: u16)
    ensures
        next_step(attempt, status) is Wait ==> attempt + 1 <= MAX_ATTEMPTS,
        next_step(attempt, status) is Wait ==> status == 429 || status == 503,
        attempt >= MAX_ATTEMPTS ==> !(next_step(attempt, status) is Wait),
{
}

// ---------------------------------------------------------------------------
// Requests and replies
// ---------------------------------------------------------------------------

/// A function that the model asks to be called.
#[derive(Debug)]
pub struct FunctionCall {
    pub name: String,
    pub args: Json,
}

/// One part of what is said: a text, or a function call.
#[derive(Debug)]
pub struct Part {
    pub text: Option<String>,
    pub function_call: Option<FunctionCall>,
}

/// What one side says; the system instruction has no role.
#[derive(Debug)]
pub struct Content {
    pub role: Option<String>,
    pub parts: Vec<Part>,
}

/// A function that the model may call.
#[derive(Debug)]
pub struct FunctionDeclaration {
    pub name: String,
    pub description: String,
    /// The schema of its arguments.
    pub parameters: Json,
}

/// The functions that the model may call.
#[derive(Debug)]
pub struct Tool {
    pub function_declarations: Vec<FunctionDeclaration>,
}

/// A request to the model.
#[derive(Debug)]
pub struct GeminiRequest {
    pub contents: Vec<Content>,
    pub system_instruction: Option<Content>,
    pub tools: Option<Vec<Tool>>,
}

/// One answer of the model.
#[derive(Debug)]
pub struct Candidate {
    pub content: Content,
    pub finish_reason: Option<String>,
}

/// The reply of the model.
#[derive(Debug)]
pub struct GeminiResponse {
    pub candidates: Vec<Candidate>,
}

/// What a [`Part`] says.
pub struct PartView {
    pub text: Option<Seq<char>>,
    pub function_call: Option<(Seq<char>, JsonView)>,
}

/// What a [`Content`] says.
pub struct ContentView {
    pub role: Option<Seq<char>>,
    pub parts: Seq<PartView>,
}

impl View for Part {
    type V = PartView;

    open spec fn view(&self) -> PartView {
        PartView {
            text: match self.text {
                Some(s) => Some(s@),
                None => None,
            },
            function_call: match self.function_call {
                Some(call) => Some((call.name@, call.args@)),
                None => None,
            },
        }
    }
}

impl View for Content {
    type V = ContentView;

    open spec fn view(&self) -> ContentView {
        ContentView {
            role: match self.role {
                Some(s) => Some(s@),
                None => None,
            },
            parts: self.parts@.map_values(|p: Part| p@),
        }
    }
}

/// What a list of contents says.
pub open spec fn contents_view(contents: Seq<Content>) -> Seq<ContentView> {
    contents.map_values(|c: Content| c@)
}

/// A part that is a text.
pub open spec fn text_part(text: Seq<char>) -> PartView {
    PartView { text: Some(text), function_call: None }
}

/// A content that is one text.
pub open spec fn text_content(role: Option<Seq<char>>, text: Seq<char>) -> ContentView {
    ContentView { role, parts: seq![text_part(text)] }
}

impl Part {
    /// A part that is a text.
    pub fn text(text: &str) -> (res: Part)
        ensures
            res@ == text_part(text@),
    {
        Part { text: Some(text::copy(text)), function_call: None }
    }
}

impl Content {
    /// One text, said in the given role.
    pub fn said(role: &str, text: &str) -> (res: Content)
        ensures
            res@ == text_content(Some(role@), text@),
    {
        let mut parts: Vec<Part> = Vec::new();
        parts.push(Part::text(text));
        let res = Content { role: Some(text::copy(role)), parts };
        assert(res@.parts =~= seq![text_part(text@)]);
        res
    }

    /// A system instruction.
    pub fn instruction(text: &str) -> (res: Content)
        ensures
            res@ == text_content(None, text@),
    {
        let mut parts: Vec<Part> = Vec::new();
        parts.push(Part::text(text));
        let res = Content { role: None, parts };
        assert(res@.parts =~= seq![text_part(text@)]);
        res
    }
}

impl GeminiRequest {
    /// A request of one user turn, with a system instruction and no functions.
    pub fn user_turn(system_prompt: &str, user_text: &str) -> (res: GeminiRequest)
        ensures
            contents_view(res.contents@) == seq![text_content(Some("user"@), user_text@)],
            res.system_instruction is Some,
            res.system_instruction->Some_0@ == text_content(None, system_prompt@),
            res.tools is None,
    {
        let mut contents: Vec<Content> = Vec::new();
        contents.push(Content::said("user", user_text));
        assert(contents_view(contents@) =~= seq![text_content(Some("user"@), user_text@)]);
        GeminiRequest {
            contents,
            system_instruction: Some(Content::instruction(system_prompt)),
            tools: None,
        }
    }
}

impl GeminiResponse {
    /// The first part of the first answer.
    pub fn first_part(&self) -> (res: Option<&Part>)
        ensures
            match res {
                Some(part) => {
                    &&& self.candidates@.len() > 0
                    &&& self.candidates@[0].content.parts@.len() > 0
                    &&& *part == self.candidates@[0].content.parts@[0]
                },
                None => self.candidates@.len() == 0
                    || self.candidates@[0].content.parts@.len() == 0,
            },
    {
        if self.candidates.len() == 0 || self.candidates[0].content.parts.len() == 0 {
            None
        } else {
            Some(&self.candidates[0].content.parts[0])
        }
    }

    /// The text of the first part of the first answer: `None` where there is
    /// no part, `Some(None)` where the part is no text.
    pub open spec fn first_text(self) -> Option<Option<Seq<char>>> {
        if self.candidates@.len() == 0 || self.candidates@[0].content.parts@.len() == 0 {
            None
        } else {
            Some(self.candidates@[0].content.parts@[0]@.text)
        }
    }
}

// ---------------------------------------------------------------------------
// The request on the wire
// ---------------------------------------------------------------------------

impl PartView {
    /// A part as it is sent: only what there is.
    pub open spec fn json(self) -> JsonView {
        let head = match self.text {
            Some(s) => JsonView::empty().with("text"@, JsonView::Text(s)),
            None => JsonView::empty(),
        };
        match self.function_call {
            Some(call) => head.with(
                "functionCall"@,
                JsonView::empty().with("name"@, JsonView::Text(call.0)).with("args"@, call.1),
            ),
            None => head,
        }
    }
}

impl ContentView {
    /// A content as it is sent.
    pub open spec fn json(self) -> JsonView {
        let head = match self.role {
            Some(s) => JsonView::empty().with("role"@, JsonView::Text(s)),
            None => JsonView::empty(),
        };
        head.with("parts"@, JsonView::Array(self.parts.map_values(|p: PartView| p.json())))
    }
}

impl Part {
    fn to_json(&self) -> (res: Json)
        ensures
            res@ == self@.json(),
    {
        let head = match &self.text {
            Some(s) => Json::object().with("text", Json::of_text(s.as_str())),
            None => Json::object(),
        };
        match &self.function_call {
            Some(call) => head.with(
                "functionCall",
                Json::object().with("name", Json::of_text(call.name.as_str())).with(
                    "args",
                    call.args.duplicate(),
                ),
            ),
            None => head,
        }
    }
}

impl Content {
    fn to_json(&self) -> (res: Json)
        ensures
            res@ == self@.json(),
    {
        broadcast use json::lemma_array_view;

        let mut parts: Vec<Json> = Vec::new();
        let mut i: usize = 0;
        while i < self.parts.len()
            invariant
                i <= self.parts@.len(),
                parts@.len() == i,
                forall|k: int| 0 <= k < i ==> (#[trigger] parts@[k])@ == self.parts@[k]@.json(),
            decreases self.parts.len() - i,
        {
            parts.push(self.parts[i].to_json());
            i += 1;
        }
        assert(json::items_view(parts@) =~= self@.parts.map_values(|p: PartView| p.json()));
        let head = match &self.role {
            Some(s) => Json::object().with("role", Json::of_text(s.as_str())),
            None => Json::object(),
        };
        head.with("parts", Json::Array(parts))
    }
}

impl FunctionDeclaration {
    /// A function as it is declared to the model.
    pub open spec fn json(self) -> JsonView {
        JsonView::empty().with("name"@, JsonView::Text(self.name@)).with(
            "description"@,
            JsonView::Text(self.description@),
        ).with("parameters"@, self.parameters@)
    }

    /// Each field of the object holds the figure that it is named after.
    pub proof fn lemma_json_fields(self)
        ensures
            self.json().field("name"@) == Some(JsonView::Text(self.name@)),
            self.json().field("description"@) == Some(JsonView::Text(self.description@)),
            self.json().field("parameters"@) == Some(self.parameters@),
    {
        broadcast use crate::json::group_fields;

        reveal_strlit("name");
        reveal_strlit("description");
        reveal_strlit("parameters");
        assert("name"@.len() == 4);
        assert("description"@.len() == 11);
        assert("parameters"@.len() == 10);
    }

    fn to_json(&self) -> (res: Json)
        ensures
            res@ == self.json(),
    {
        Json::object().with("name", Json::of_text(self.name.as_str())).with(
            "description",
            Json::of_text(self.description.as_str()),
        ).with("parameters", self.parameters.duplicate())
    }
}

impl Tool {
    /// Functions as they are declared to the model.
    pub open spec fn json(self) -> JsonView {
        JsonView::empty().with(
            "functionDeclarations"@,
            JsonView::Array(
                self.function_declarations@.map_values(|d: FunctionDeclaration| d.json()),
            ),
        )
    }

    fn to_json(&self) -> (res: Json)
        ensures
            res@ == self.json(),
    {
        broadcast use json::lemma_array_view;

        let mut out: Vec<Json> = Vec::new();
        let mut i: usize = 0;
        while i < self.function_declarations.len()
            invariant
                i <= self.function_declarations@.len(),
                out@.len() == i,
                forall|k: int|
                    0 <= k < i ==> (#[trigger] out@[k])@ == self.function_declarations@[k].json(),
            decreases self.function_declarations.len() - i,
        {
            out.push(self.function_declarations[i].to_json());
            i += 1;
        }
        assert(json::items_view(out@) =~= self.function_declarations@.map_values(
            |d: FunctionDeclaration| d.json(),
        ));
        Json::object().with("functionDeclarations", Json::Array(out))
    }
}

impl GeminiRequest {
    /// The request as it is sent.
    pub open spec fn json(self) -> JsonView {
        let head = JsonView::empty().with(
            "contents"@,
            JsonView::Array(contents_view(self.contents@).map_values(|c: ContentView| c.json())),
        );
        let instructed = match self.system_instruction {
            Some(c) => head.with("systemInstruction"@, c@.json()),
            None => head,
        };
        match self.tools {
            Some(tools) => instructed.with(
                "tools"@,
                JsonView::Array(tools@.map_values(|t: Tool| t.json())),
            ),
            None => instructed,
        }
    }

    /// The request as it is sent.
    pub fn to_json(&self) -> (res: Json)
        ensures
            res@ == self.json(),
    {
        broadcast use json::lemma_array_view;

        let mut contents: Vec<Json> = Vec::new();
        let mut i: usize = 0;
        while i < self.contents.len()
            invariant
                i <= self.contents@.len(),
                contents@.len() == i,
                forall|k: int|
                    0 <= k < i ==> (#[trigger] contents@[k])@ == self.contents@[k]@.json(),
            decreases self.contents.len() - i,
        {
            contents.push(self.contents[i].to_json());
            i += 1;
        }
        assert(json::items_view(contents@) =~= contents_view(self.contents@).map_values(
            |c: ContentView| c.json(),
        ));
        let head = Json::object().with("contents", Json::Array(contents));
        let instructed = match &self.system_instruction {
            Some(c) => head.with("systemInstruction", c.to_json()),
            None => head,
        };
        match &self.tools {
            Some(tools) => {
                let mut out: Vec<Json> = Vec::new();
                let mut j: usize = 0;
                while j < tools.len()
                    invariant
                        j <= tools@.len(),
                        out@.len() == j,
                        forall|k: int|
                            0 <= k < j ==> (#[trigger] out@[k])@ == tools@[k].json(),
                    decreases tools.len() - j,
                {
                    out.push(tools[j].to_json());
                    j += 1;
                }
                assert(json::items_view(out@) =~= tools@.map_values(|t: Tool| t.json()));
                instructed.with("tools", Json::Array(out))
            },
            None => instructed,
        }
    }
}

} // verus!
