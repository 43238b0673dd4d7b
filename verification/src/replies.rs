//! What clients are told.

use vstd::prelude::*;

use crate::json::{
    json_bytes, json_document, json_insert, json_member, json_object, json_object_of,
    json_reserved_key, json_string, json_string_of, json_text_at, json_to_vec, json_with_member,
    JsonStep,
};
use crate::text::join;

verus! {

/// A part of the answer to a client. `H` are headers, `E` is the backend's failure.
pub enum ResponsePart<H, E> {
    /// The status and headers.
    Status(u16, H),
    /// A piece of the body.
    Chunk(Vec<u8>),
    /// The backend could not be asked.
    Error(E),
    /// No backend has this model.
    ModelNotFound(String),
}

/// How an answer begins.
pub enum Opening<H, E> {
    /// With a status and headers; the body follows in pieces.
    Answer(u16, H),
    /// With the backend's failure.
    BackendError(E),
    /// Not at all.
    NoResponse,
}

/// How the answer begins whose first part, if any, is the given one.
pub fn opening<H, E>(first: Option<ResponsePart<H, E>>) -> (r: Opening<H, E>)
    ensures
        r == match first {
            Some(ResponsePart::Status(status, headers)) => Opening::Answer(status, headers),
            Some(ResponsePart::Error(e)) => Opening::BackendError(e),
            _ => Opening::NoResponse,
        },
{
    match first {
        Some(ResponsePart::Status(status, headers)) => Opening::Answer(status, headers),
        Some(ResponsePart::Error(e)) => Opening::BackendError(e),
        _ => Opening::NoResponse,
    }
}

/// What a later part adds to the body: a piece, nothing, or a failure that breaks it off.
pub fn body_piece<H, E>(part: ResponsePart<H, E>) -> (r: Result<Vec<u8>, E>)
    ensures
        match part {
            ResponsePart::Chunk(chunk) => r == Ok::<Vec<u8>, E>(chunk),
            ResponsePart::Error(e) => r == Err::<Vec<u8>, E>(e),
            _ => r is Ok && r->Ok_0@.len() == 0,
        },
{
    match part {
        ResponsePart::Chunk(chunk) => Ok(chunk),
        ResponsePart::Error(e) => Err(e),
        _ => Ok(Vec::new()),
    }
}

/// A whole answer: its status and its text.
pub struct TextReply {
    pub status: u16,
    pub text: String,
}

/// The answer to a request whose backend could not be asked.
pub fn backend_error(failure: &str) -> (r: TextReply)
    ensures
        r.status == 500,
        r.text@ == "Backend error: "@ + failure@,
{
    TextReply { status: 500, text: join("Backend error: ", failure) }
}

/// The answer to a request that nobody answered.
pub fn no_response() -> (r: TextReply)
    ensures
        r.status == 500,
        r.text@ == "Worker failed to respond"@,
{
    TextReply { status: 500, text: "Worker failed to respond".to_owned() }
}

/// A whole answer: its status and its JSON document.
pub struct JsonReply {
    pub status: u16,
    pub body: Vec<u8>,
}

/// The text under the member `key` of a JSON document.
pub open spec fn text_under(body: Seq<u8>, key: Seq<char>) -> Option<Seq<char>> {
    match json_document(body) {
        Some(document) => json_text_at(document, seq![JsonStep::Member(key)]),
        None => None,
    }
}

/// The text under the member `inner` of the member `outer` of a JSON document.
pub open spec fn text_within(body: Seq<u8>, outer: Seq<char>, inner: Seq<char>) -> Option<
    Seq<char>,
> {
    match json_document(body) {
        Some(document) => json_text_at(
            document,
            seq![JsonStep::Member(outer), JsonStep::Member(inner)],
        ),
        None => None,
    }
}

/// What is said of a model that no backend has.
pub open spec fn unavailable_text(model: Seq<char>) -> Seq<char> {
    "Model '"@ + model + "' not available on any backend"@
}

/// What is said of a model that is not offered.
pub open spec fn not_found_text(model: Seq<char>) -> Seq<char> {
    "Model '"@ + model + "' not found"@
}

proof fn lemma_keys_are_free()
    ensures
        "error"@ != json_reserved_key(),
        "code"@ != json_reserved_key(),
        "message"@ != json_reserved_key(),
        "code"@ != "message"@,
{
    reveal_strlit("error");
    reveal_strlit("code");
    reveal_strlit("message");
    reveal_strlit("$serde_json::private::RawValue");
    assert("error"@.len() < json_reserved_key().len());
    assert("code"@.len() < json_reserved_key().len());
    assert("message"@.len() < json_reserved_key().len());
    assert("code"@.len() != "message"@.len());
}

/// The answer to a request for a model that no backend has: the document
/// `{"error": "Model '..' not available on any backend"}`.
pub fn model_unavailable(model_name: &str) -> (r: JsonReply)
    ensures
        r.status == 503,
        r.body@ == json_bytes(
            json_object_of("error"@, json_string_of(unavailable_text(model_name@))),
        ),
        text_under(r.body@, "error"@) == Some(unavailable_text(model_name@)),
{
    let mut message = join("Model '", model_name);
    message.append("' not available on any backend");
    let document = json_object("error", json_string(message.as_str()));
    proof {
        lemma_keys_are_free();
        let at = seq![JsonStep::Member("error"@)];
        assert(at.drop_first() =~= Seq::<JsonStep>::empty());
        reveal_with_fuel(json_text_at, 2);
        assert(json_text_at(document, at) == Some(message@));
    }
    let body = match json_to_vec(&document) {
        Some(body) => body,
        None => Vec::new(),
    };
    JsonReply { status: 503, body }
}

/// The answer to a request for the listing of a model that is not offered: the document
/// `{"error": {"code": "model_not_found", "message": "Model '..' not found"}}`.
pub fn model_not_found(model_name: &str) -> (r: JsonReply)
    ensures
        r.status == 404,
        r.body@ == json_bytes(
            json_object_of(
                "error"@,
                json_with_member(
                    json_object_of("code"@, json_string_of("model_not_found"@)),
                    "message"@,
                    json_string_of(not_found_text(model_name@)),
                ),
            ),
        ),
        text_within(r.body@, "error"@, "code"@) == Some("model_not_found"@),
        text_within(r.body@, "error"@, "message"@) == Some(not_found_text(model_name@)),
{
    let mut message = join("Model '", model_name);
    message.append("' not found");
    let mut error = json_object("code", json_string("model_not_found"));
    proof {
        lemma_keys_are_free();
        assert(json_member(error, "code"@) is Some);
    }
    json_insert(&mut error, "message", json_string(message.as_str()));
    let document = json_object("error", error);
    proof {
        let code = seq![JsonStep::Member("error"@), JsonStep::Member("code"@)];
        let text = seq![JsonStep::Member("error"@), JsonStep::Member("message"@)];
        assert(code.drop_first() =~= seq![JsonStep::Member("code"@)]);
        assert(code.drop_first().drop_first() =~= Seq::<JsonStep>::empty());
        assert(text.drop_first() =~= seq![JsonStep::Member("message"@)]);
        assert(text.drop_first().drop_first() =~= Seq::<JsonStep>::empty());
        reveal_with_fuel(json_text_at, 3);
        assert(json_text_at(document, code) == Some("model_not_found"@));
        assert(json_text_at(document, text) == Some(message@));
    }
    let body = match json_to_vec(&document) {
        Some(body) => body,
        None => Vec::new(),
    };
    JsonReply { status: 404, body }
}

/// What is said of a missing model holds its whole name, in quotes.
pub proof fn law_missing_models_are_named(model: Seq<char>)
    ensures
        unavailable_text(model) == "Model '"@ + model + "' not available on any backend"@,
        not_found_text(model) == "Model '"@ + model + "' not found"@,
{
}

} // verus!
