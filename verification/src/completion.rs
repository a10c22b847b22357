//! Game-completion detection: the shape of a fetched result payload, and the
//! classification of a game's terminal state from it.
//!
//! The payload arrives from the outside as JSON text. Parsing keeps the raw
//! text — it is what the store archives — and reads the three markers that
//! classification looks at: an `error` field, whether that field is a string,
//! and a build marker that only complete results carry.

use vstd::prelude::*;

use crate::teams::str_eq;

verus! {

/// The `error` field of a result payload: absent, a string, or something
/// else.
#[derive(Debug, Clone)]
pub enum ErrorField {
    Absent,
    Text(String),
    NonText,
}

/// Mathematical image of an [`ErrorField`].
#[verifier::ext_equal]
pub enum ErrorFieldV {
    Absent,
    Text(Seq<char>),
    NonText,
}

impl View for ErrorField {
    type V = ErrorFieldV;

    open spec fn view(&self) -> ErrorFieldV {
        match self {
            ErrorField::Absent => ErrorFieldV::Absent,
            ErrorField::Text(s) => ErrorFieldV::Text(s@),
            ErrorField::NonText => ErrorFieldV::NonText,
        }
    }
}

/// A fetched result payload: the raw JSON text, and the markers that
/// classification reads from it.
#[derive(Debug, Clone)]
pub struct ResultPayload {
    /// The payload as the source sent it; the store archives this blob.
    pub raw_json: String,
    /// The payload's `error` field, if any.
    pub error_field: ErrorField,
    /// Whether the payload carries the build marker of a complete result.
    pub has_version_marker: bool,
}

/// Mathematical image of a [`ResultPayload`].
#[verifier::ext_equal]
pub struct ResultPayloadV {
    pub raw_json: Seq<char>,
    pub error_field: ErrorFieldV,
    pub has_version_marker: bool,
}

impl View for ResultPayload {
    type V = ResultPayloadV;

    open spec fn view(&self) -> ResultPayloadV {
        ResultPayloadV {
            raw_json: self.raw_json@,
            error_field: self.error_field@,
            has_version_marker: self.has_version_marker,
        }
    }
}

/// The terminal state of a game, as classification reports it.
#[derive(Debug, Clone)]
pub enum GameStatus {
    /// The source produced a complete result.
    Finished(ResultPayload),
    /// The source reported an error for this game.
    Error(ResultPayload),
    /// The source does not know the game.
    NotFound,
}

/// Mathematical image of a [`GameStatus`].
#[verifier::ext_equal]
pub enum GameStatusV {
    Finished(ResultPayloadV),
    Error(ResultPayloadV),
    NotFound,
}

impl View for GameStatus {
    type V = GameStatusV;

    open spec fn view(&self) -> GameStatusV {
        match self {
            GameStatus::Finished(p) => GameStatusV::Finished(p@),
            GameStatus::Error(p) => GameStatusV::Error(p@),
            GameStatus::NotFound => GameStatusV::NotFound,
        }
    }
}

/// An error of the pipeline itself, as opposed to a classified game state.
#[derive(Debug, Clone, Copy, PartialEq, Eq, Structural)]
pub enum PipelineError {
    /// The source returned no open lobby at all.
    NoLobbiesFound,
    /// A result payload matched none of the recognized shapes; likely an
    /// upstream contract change, surfaced to the caller's retry loop.
    UnknownGameState,
}

/// The marker string the source uses for a game it does not know.
pub open spec fn not_found_marker() -> Seq<char> {
    "Not found"@
}

/// How a payload classifies:
/// a string `error` field equal to the not-found marker means the game is
/// unknown; any other `error` field is a reported failure; no `error` field
/// and a build marker is a complete result; everything else is an
/// unrecognized shape.
pub open spec fn classify_spec(p: ResultPayloadV) -> Result<GameStatusV, PipelineError> {
    match p.error_field {
        ErrorFieldV::Text(s) => if s == not_found_marker() {
            Ok(GameStatusV::NotFound)
        } else {
            Ok(GameStatusV::Error(p))
        },
        ErrorFieldV::NonText => Ok(GameStatusV::Error(p)),
        ErrorFieldV::Absent => if p.has_version_marker {
            Ok(GameStatusV::Finished(p))
        } else {
            Err(PipelineError::UnknownGameState)
        },
    }
}

/// Classify a game's terminal state from its fetched result payload.
pub fn check_if_game_finished(payload: ResultPayload) -> (r: Result<GameStatus, PipelineError>)
    ensures
        (match r {
            Ok(status) => classify_spec(payload@) == Ok::<GameStatusV, PipelineError>(status@),
            Err(e) => classify_spec(payload@) == Err::<GameStatusV, PipelineError>(e),
        }),
{
    match &payload.error_field {
        ErrorField::Text(s) => {
            if str_eq(s.as_str(), "Not found") {
                Ok(GameStatus::NotFound)
            } else {
                Ok(GameStatus::Error(payload))
            }
        },
        ErrorField::NonText => Ok(GameStatus::Error(payload)),
        ErrorField::Absent => {
            if payload.has_version_marker {
                Ok(GameStatus::Finished(payload))
            } else {
                Err(PipelineError::UnknownGameState)
            }
        },
    }
}

impl GameStatus {
    /// What finalization archives for this classification: the raw
    /// payload and whether it was a structurally valid finished result;
    /// nothing for an unknown game.
    pub fn archive_payload(&self) -> (r: Option<(String, bool)>)
        ensures
            (match self@ {
                GameStatusV::Finished(p) => r matches Some(x) && x.0@ == p.raw_json && x.1
                    == true,
                GameStatusV::Error(p) => r matches Some(x) && x.0@ == p.raw_json && x.1 == false,
                GameStatusV::NotFound => r is None,
            }),
    {
        match self {
            GameStatus::Finished(p) => Some((p.raw_json.clone(), true)),
            GameStatus::Error(p) => Some((p.raw_json.clone(), false)),
            GameStatus::NotFound => None,
        }
    }
}

/// What marker extraction yields on a piece of text: nothing when the
/// text is not JSON; otherwise the shape of its `error` field and whether
/// the build marker is present. A function of the text alone.
pub uninterp spec fn json_markers_of(s: Seq<char>) -> Option<(ErrorFieldV, bool)>;

/// Relies on `serde_json::from_str`, `serde_json::Value::get` and
/// `serde_json::Value::as_str`: parse the text, read its `error` field —
/// absent, a string, or some other JSON shape — and test for the
/// `gitCommit` build marker. Each is a function of the text alone; none
/// panics.
#[verifier::external_body]
fn read_markers(text: &str) -> (r: Option<(ErrorField, bool)>)
    ensures
        (r is Some) == (json_markers_of(text@) is Some),
        r matches Some(m) ==> json_markers_of(text@) == Some((m.0@, m.1)),
{
    let parsed: serde_json::Value = match serde_json::from_str(text) {
        Ok(v) => v,
        Err(_) => return None,
    };
    let error_field = match parsed.get("error") {
        None => ErrorField::Absent,
        Some(e) => match e.as_str() {
            Some(s) => ErrorField::Text(s.to_owned()),
            None => ErrorField::NonText,
        },
    };
    Some((error_field, parsed.get("gitCommit").is_some()))
}

/// Read the markers that classification needs out of raw JSON text.
///
/// `None` exactly when the text is not JSON at all; the caller treats
/// that as a transport-class failure of the iteration. Otherwise the
/// payload carries the text's own markers, and keeps the raw text for
/// archiving.
pub fn payload_from_json(text: &str) -> (r: Option<ResultPayload>)
    ensures
        (r is Some) == (json_markers_of(text@) is Some),
        r matches Some(p) ==> p.raw_json@ == text@ && json_markers_of(text@) == Some(
            (p.error_field@, p.has_version_marker),
        ),
{
    match read_markers(text) {
        None => None,
        Some((error_field, has_version_marker)) => Some(
            ResultPayload { raw_json: text.to_owned(), error_field, has_version_marker },
        ),
    }
}

} // verus!
