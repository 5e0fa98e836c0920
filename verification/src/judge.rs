//! Scoring by a judge: what the judge is asked, and what can go wrong. The
//! score itself is a fraction, which the caller reads.

use vstd::prelude::*;
use crate::text::{self, debug_of, trimmed, trimmed_end_char};

verus! {

pub const ENV_BASE_URL: &'static str = "ROKR_OPENAI_BASE_URL";

pub const ENV_MODEL: &'static str = "ROKR_OPENAI_MODEL";

pub const ENV_API_KEY: &'static str = "ROKR_OPENAI_API_KEY";

/// Why there is no score.
#[derive(Debug, PartialEq, Eq)]
pub enum JudgeError {
    MissingVariable(String),
    Request(String),
    Body(String),
    Status { status: String, body: String },
    Envelope { error: String, body: String },
    NoChoices,
    Verdict { error: String, content: String },
}

impl JudgeError {
    /// The error in words.
    pub open spec fn message_spec(self) -> Seq<char> {
        match self {
            JudgeError::MissingVariable(name) => "missing env var "@ + name@,
            JudgeError::Request(e) => "judge request failed: "@ + e@,
            JudgeError::Body(e) => "failed to read judge response body: "@ + e@,
            JudgeError::Status { status, body } => "judge returned status "@ + status@ + ": "@
                + body@,
            JudgeError::Envelope { error, body } => "failed to parse judge response envelope: "@
                + error@ + "; body was: "@ + body@,
            JudgeError::NoChoices => "judge response had no choices"@,
            JudgeError::Verdict { error, content } => "failed to parse judge verdict JSON: "@
                + error@ + "; content was: "@ + text::debug_text(content@),
        }
    }

    /// The error in words.
    pub fn message(&self) -> (r: String)
        ensures
            r@ == self.message_spec(),
    {
        match self {
            JudgeError::MissingVariable(name) => {
                let mut m = "missing env var ".to_owned();
                m.append(name.as_str());
                m
            },
            JudgeError::Request(e) => {
                let mut m = "judge request failed: ".to_owned();
                m.append(e.as_str());
                m
            },
            JudgeError::Body(e) => {
                let mut m = "failed to read judge response body: ".to_owned();
                m.append(e.as_str());
                m
            },
            JudgeError::Status { status, body } => {
                let mut m = "judge returned status ".to_owned();
                m.append(status.as_str());
                m.append(": ");
                m.append(body.as_str());
                m
            },
            JudgeError::Envelope { error, body } => {
                let mut m = "failed to parse judge response envelope: ".to_owned();
                m.append(error.as_str());
                m.append("; body was: ");
                m.append(body.as_str());
                m
            },
            JudgeError::NoChoices => "judge response had no choices".to_owned(),
            JudgeError::Verdict { error, content } => {
                let mut m = "failed to parse judge verdict JSON: ".to_owned();
                m.append(error.as_str());
                m.append("; content was: ");
                m.append(debug_of(content.as_str()).as_str());
                m
            },
        }
    }
}

/// What is sent to the judge, and where.
#[derive(Debug)]
pub struct JudgeCall {
    pub url: String,
    pub model: String,
    pub api_key: String,
    pub prompt: String,
}

/// What the judge is asked.
pub open spec fn judge_prompt(transcript: Seq<char>, rubric: Seq<char>) -> Seq<char> {
    "You are grading an AI agent's transcript against a rubric. Respond with ONLY a JSON object of the form {\"score\": <float 0.0-1.0>}, no other text.\n\nRubric:\n"@
        + rubric + "\n\nTranscript:\n"@ + transcript
}

/// Where a judge below `base_url` is asked.
pub open spec fn completions_url(base_url: Seq<char>) -> Seq<char> {
    text::trim_end_char(base_url, '/') + "/chat/completions"@
}

/// The call that scores a transcript. Each of the three settings must be
/// there; the first that is not is named.
pub fn judge_call(
    transcript: &str,
    rubric: &str,
    base_url: Option<String>,
    model: Option<String>,
    api_key: Option<String>,
) -> (r: Result<JudgeCall, JudgeError>)
    ensures
        match r {
            Ok(c) => {
                &&& base_url is Some && model is Some && api_key is Some
                &&& c.url@ == text::trim_end_char(base_url->0@, '/') + "/chat/completions"@
                &&& c.url@ == completions_url(base_url->0@)
                &&& c.model@ == model->0@
                &&& c.api_key@ == api_key->0@
                &&& c.prompt@ == judge_prompt(transcript@, rubric@)
            },
            Err(e) => e matches JudgeError::MissingVariable(name) && {
                ||| base_url is None && name@ == ENV_BASE_URL@
                ||| base_url is Some && model is None && name@ == ENV_MODEL@
                ||| base_url is Some && model is Some && api_key is None && name@ == ENV_API_KEY@
            },
        },
{
    match (base_url, model, api_key) {
        (Some(base_url), Some(model), Some(api_key)) => {
            let mut url = trimmed_end_char(base_url.as_str(), '/');
            url.append("/chat/completions");
            let mut prompt =
                "You are grading an AI agent's transcript against a rubric. Respond with ONLY a JSON object of the form {\"score\": <float 0.0-1.0>}, no other text.\n\nRubric:\n".to_owned();
            prompt.append(rubric);
            prompt.append("\n\nTranscript:\n");
            prompt.append(transcript);
            Ok(JudgeCall { url, model, api_key, prompt })
        },
        (None, _, _) => Err(JudgeError::MissingVariable(ENV_BASE_URL.to_owned())),
        (Some(_), None, _) => Err(JudgeError::MissingVariable(ENV_MODEL.to_owned())),
        (Some(_), Some(_), None) => Err(JudgeError::MissingVariable(ENV_API_KEY.to_owned())),
    }
}

/// The verdict of a reply: its first choice. `choices` are the choices' texts.
pub fn first_choice(choices: &Vec<String>) -> (r: Result<String, JudgeError>)
    ensures
        match r {
            Ok(content) => choices@.len() > 0 && content@ == choices@[0]@,
            Err(e) => choices@.len() == 0 && e == JudgeError::NoChoices,
        },
{
    if choices.len() == 0 {
        Err(JudgeError::NoChoices)
    } else {
        Ok(choices[0].clone())
    }
}

/// The JSON in a reply: its text without the white space around it.
pub fn verdict_json(content: &str) -> (r: String)
    ensures
        r@ == text::trim(content@),
{
    trimmed(content)
}

/// The label of a rubric's score.
pub fn score_label(rubric: &str) -> (r: String)
    ensures
        r@ == "judge_rubric("@ + text::debug_text(rubric@) + ")"@,
{
    let mut out = "judge_rubric(".to_owned();
    out.append(debug_of(rubric).as_str());
    out.append(")");
    out
}

/// The judge gets the whole rubric and, at the very end, the whole transcript:
/// more of the transcript is more of what is asked, and rubrics that differ give
/// requests that differ.
pub proof fn law_the_judge_sees_rubric_and_transcript(
    transcript: Seq<char>,
    more: Seq<char>,
    rubric: Seq<char>,
    other: Seq<char>,
)
    ensures
        judge_prompt(transcript + more, rubric) == judge_prompt(transcript, rubric) + more,
        rubric != other ==> judge_prompt(transcript, rubric) != judge_prompt(transcript, other),
        exists|head: Seq<char>|
            judge_prompt(transcript, rubric) == #[trigger] (head + rubric + "\n\nTranscript:\n"@
                + transcript),
{
    assert(judge_prompt(transcript + more, rubric) =~= judge_prompt(transcript, rubric) + more);
    let head =
        "You are grading an AI agent's transcript against a rubric. Respond with ONLY a JSON object of the form {\"score\": <float 0.0-1.0>}, no other text.\n\nRubric:\n"@;
    assert(judge_prompt(transcript, rubric) == head + rubric + "\n\nTranscript:\n"@ + transcript);
    let a = judge_prompt(transcript, rubric);
    let b = judge_prompt(transcript, other);
    if a == b {
        let n = head.len() as int;
        assert(a.len() == n + rubric.len() + "\n\nTranscript:\n"@.len() + transcript.len());
        assert(b.len() == n + other.len() + "\n\nTranscript:\n"@.len() + transcript.len());
        assert(a.subrange(n, n + rubric.len()) =~= rubric);
        assert(b.subrange(n, n + other.len()) =~= other);
    }
}

/// Every error is told with its cause, whole.
pub proof fn law_errors_tell_their_cause(a: String, b: String)
    ensures
        JudgeError::MissingVariable(a).message_spec() == "missing env var "@ + a@,
        JudgeError::Request(a).message_spec() == "judge request failed: "@ + a@,
        JudgeError::Body(a).message_spec() == "failed to read judge response body: "@ + a@,
        (JudgeError::Status { status: a, body: b }).message_spec() == "judge returned status "@ + a@
            + ": "@ + b@,
        (JudgeError::Envelope { error: a, body: b }).message_spec()
            == "failed to parse judge response envelope: "@ + a@ + "; body was: "@ + b@,
        JudgeError::NoChoices.message_spec() == "judge response had no choices"@,
        (JudgeError::Verdict { error: a, content: b }).message_spec()
            == "failed to parse judge verdict JSON: "@ + a@ + "; content was: "@ + text::debug_text(
            b@,
        ),
{
}

/// The judge is asked below its address, with one slash between, however many
/// slashes the address ends in.
pub proof fn law_slashes_at_the_end_make_no_difference(base: Seq<char>, slashes: Seq<char>)
    requires
        base.len() > 0 ==> base.last() != '/',
        forall|k: int| 0 <= k < slashes.len() ==> #[trigger] slashes[k] == '/',
    ensures
        completions_url(base + slashes) == base + "/chat/completions"@,
{
    let s = base + slashes;
    text::law_one_character_is_trimmed_off_the_end(s, '/');
    let n = choose|n: int|
        0 <= n <= s.len() && #[trigger] s.take(n) == text::trim_end_char(s, '/') && (n > 0 ==> s[n
            - 1] != '/') && forall|i: int| n <= i < s.len() ==> #[trigger] s[i] == '/';
    let m = base.len() as int;
    if n > m {
        assert(s[n - 1] == slashes[n - 1 - m]);
    }
    if n < m {
        assert(s[m - 1] == base.last());
    }
    assert(s.take(m) =~= base);
}

} // verus!
