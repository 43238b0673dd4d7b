//! Requests: their paths, and the model that their bodies ask for.

use serde_json::Value;
use vstd::prelude::*;

use crate::json::{
    is_fractionless, is_plain_text, json_as_str, json_bytes, json_depth, json_depth_limit,
    json_document, json_from_slice, json_get, json_insert, json_member, json_plain,
    json_reserved_key, json_steady, json_string, json_string_of, json_text, json_text_at,
    json_to_vec, json_with_member, JsonStep,
};
use crate::models::ModelConfig;
use crate::text::{begins_with, same_text, starts_with};

verus! {

/// The path under which the backends know `path`.
pub open spec fn backend_path(path: Seq<char>) -> Seq<char> {
    if path == "/chat/completions"@ {
        "/v1/chat/completions"@
    } else {
        path
    }
}

/// The path under which the backends know `path`: `/chat/completions` is
/// `/v1/chat/completions` there.
pub fn normalize_path<'a>(path: &'a str) -> (r: &'a str)
    ensures
        r@ == backend_path(path@),
{
    if same_text(path, "/chat/completions") {
        "/v1/chat/completions"
    } else {
        path
    }
}

/// Requests to `path` name a model in their body.
pub open spec fn is_model_path(path: Seq<char>) -> bool {
    ||| begins_with(path, "/api/generate"@)
    ||| begins_with(path, "/api/chat"@)
    ||| begins_with(path, "/api/embed"@)
    ||| begins_with(path, "/api/embeddings"@)
    ||| begins_with(path, "/chat/completions"@)
    ||| begins_with(path, "/v1/chat/completions"@)
    ||| begins_with(path, "/v1/completions"@)
    ||| begins_with(path, "/v1/embeddings"@)
    ||| begins_with(path, "/v1/responses"@)
    ||| begins_with(path, "/v1/images/generations"@)
}

/// Whether requests to `path` name a model in their body.
pub fn names_a_model(path: &str) -> (r: bool)
    ensures
        r == is_model_path(path@),
{
    starts_with(path, "/api/generate") || starts_with(path, "/api/chat") || starts_with(
        path,
        "/api/embed",
    ) || starts_with(path, "/api/embeddings") || starts_with(path, "/chat/completions")
        || starts_with(path, "/v1/chat/completions") || starts_with(path, "/v1/completions")
        || starts_with(path, "/v1/embeddings") || starts_with(path, "/v1/responses")
        || starts_with(path, "/v1/images/generations")
}

/// The text of the member `model` of a body that is a JSON object.
pub open spec fn body_model(body: Seq<u8>) -> Option<Seq<char>> {
    match json_document(body) {
        Some(document) => match json_member(document, "model"@) {
            Some(member) => json_text(member),
            None => None,
        },
        None => None,
    }
}

/// The characters of an optional string.
pub open spec fn text_of(text: Option<String>) -> Option<Seq<char>> {
    match text {
        Some(t) => Some(t@),
        None => None,
    }
}

/// The body is a document that is read again as it is printed, up to its numbers: plain, and not
/// too deep.
pub open spec fn is_reread(body: Seq<u8>) -> bool {
    &&& json_document(body) matches Some(document)
    &&& json_plain(document)
    &&& json_depth(document) <= json_depth_limit()
}

/// The body is a document that is read again as it is printed, with all its numbers.
pub open spec fn is_kept(body: Seq<u8>) -> bool {
    is_reread(body) && json_steady(json_document(body)->0)
}

/// The model that a body asks for: the text of the member `model` of a JSON object.
///
/// A document without backslashes and without the parser's own key is read again as it is
/// printed, up to its numbers; with these too, where all are integers.
pub fn peek_model_from_body(body: &[u8]) -> (r: Option<String>)
    ensures
        text_of(r) == body_model(body@),
        json_document(body@) is Some && is_plain_text(body@) ==> is_reread(body@),
        json_document(body@) is Some && is_plain_text(body@) && is_fractionless(body@) ==> is_kept(
            body@,
        ),
{
    let document = match json_from_slice(body) {
        Some(document) => document,
        None => return None,
    };
    let member = match json_get(&document, "model") {
        Some(member) => member,
        None => return None,
    };
    match json_as_str(member) {
        Some(text) => Some(text.to_owned()),
        None => None,
    }
}

/// What a request's path and body say of the model it is for.
pub enum Resolution {
    /// The path is not one for models, or the body names none.
    NoModel,
    /// The body names a model that the configuration does not know.
    Unknown(String),
    /// The body names a model by its configured name.
    Known(String),
    /// The body names a model by another name than the configured one, which is given here.
    Renamed(String),
}

/// What is found for a path and the model that a body asks for.
pub open spec fn resolves_as(
    r: Resolution,
    path: Seq<char>,
    requested: Option<Seq<char>>,
    config: ModelConfig,
) -> bool {
    if !is_model_path(path) || requested is None {
        r is NoModel
    } else {
        match config.resolved(requested->0) {
            None => r matches Resolution::Unknown(name) && name@ == requested->0,
            Some(configured) => if configured == requested->0 {
                r matches Resolution::Known(name) && name@ == configured
            } else {
                r matches Resolution::Renamed(name) && name@ == configured
            },
        }
    }
}

/// Holds a path and the model that a body asks for against the configuration.
pub fn resolve_request(path: &str, requested: Option<String>, config: &ModelConfig) -> (r:
    Resolution)
    ensures
        resolves_as(r, path@, text_of(requested), *config),
{
    if !names_a_model(path) {
        return Resolution::NoModel;
    }
    let name = match requested {
        Some(name) => name,
        None => return Resolution::NoModel,
    };
    match config.resolve_alias(name.as_str()) {
        None => Resolution::Unknown(name),
        Some(configured) => if same_text(configured.as_str(), name.as_str()) {
            Resolution::Known(configured)
        } else {
            Resolution::Renamed(configured)
        },
    }
}

/// The document of a body with the member `model` set to `model`.
pub open spec fn document_for_model(body: Seq<u8>, model: Seq<char>) -> Value {
    json_with_member(json_document(body)->0, "model"@, json_string_of(model))
}

/// A body with the member `model` set to `model`.
pub open spec fn body_for_model(body: Seq<u8>, model: Seq<char>) -> Seq<u8> {
    json_bytes(document_for_model(body, model))
}

/// The body asks for a configured model by another name than the configured one.
pub open spec fn is_renamed(body: Seq<u8>, path: Seq<char>, config: ModelConfig) -> bool {
    &&& is_model_path(path)
    &&& body_model(body) matches Some(requested)
    &&& config.resolved(requested) matches Some(configured)
    &&& configured != requested
}

/// The body to send on, and the model it then asks for, for a request's path and body.
pub open spec fn rewritten(body: Seq<u8>, path: Seq<char>, config: ModelConfig) -> (
    Seq<u8>,
    Option<Seq<char>>,
) {
    if !is_model_path(path) || body_model(body) is None {
        (body, None)
    } else {
        let requested = body_model(body)->0;
        match config.resolved(requested) {
            None => (body, Some(requested)),
            Some(configured) => if configured == requested {
                (body, Some(configured))
            } else {
                (body_for_model(body, configured), Some(configured))
            },
        }
    }
}

/// The model that a request asks for, in the spelling of the configuration. Where the body asks
/// for it by another name, the body is rewritten to ask for it by the configured one. Nothing
/// where the path is not one for models or the body names none; the name as it stands where the
/// configuration does not know it.
///
/// A rewritten body is the document printed anew, with `model` set and all its other members as
/// they were. Where the document is one that is read again as it is printed, up to its numbers,
/// the body then asks for the model returned, and all its other texts stand where they stood.
/// Where that holds of its numbers too, the body is read as that very document.
pub fn extract_and_resolve_model(body: &mut Vec<u8>, path: &str, config: &ModelConfig) -> (r:
    Option<String>)
    ensures
        (final(body)@, text_of(r)) == rewritten(old(body)@, path@, *config),
        !is_renamed(old(body)@, path@, *config) ==> final(body)@ == old(body)@,
        is_renamed(old(body)@, path@, *config) ==> {
            let document = document_for_model(old(body)@, r->0@);
            &&& final(body)@ == json_bytes(document)
            &&& forall|key: Seq<char>| #[trigger]
                json_member(document, key) == if key == "model"@ {
                    Some(json_string_of(r->0@))
                } else {
                    json_member(json_document(old(body)@)->0, key)
                }
        },
        r is Some && (is_renamed(old(body)@, path@, *config) ==> is_reread(old(body)@)) ==> {
            &&& body_model(final(body)@) == text_of(r)
            &&& forall|at: Seq<JsonStep>|
                at.len() > 0 && at[0] != JsonStep::Member("model"@) ==> #[trigger] json_text_at(
                    json_document(final(body)@)->0,
                    at,
                ) == json_text_at(json_document(old(body)@)->0, at)
        },
        is_renamed(old(body)@, path@, *config) && is_kept(old(body)@) ==> json_document(
            final(body)@,
        ) == Some(document_for_model(old(body)@, r->0@)),
        json_document(old(body)@) is Some && is_plain_text(old(body)@) ==> is_reread(old(body)@),
        json_document(old(body)@) is Some && is_plain_text(old(body)@) && is_fractionless(
            old(body)@,
        ) ==> is_kept(old(body)@),
{
    let requested = peek_model_from_body(body.as_slice());
    match resolve_request(path, requested, config) {
        Resolution::NoModel => None,
        Resolution::Unknown(name) => Some(name),
        Resolution::Known(name) => Some(name),
        Resolution::Renamed(name) => {
            let mut document = match json_from_slice(body.as_slice()) {
                Some(document) => document,
                None => return None,
            };
            proof {
                assert(json_member(document, "model"@) is Some);
            }
            let member = json_string(name.as_str());
            json_insert(&mut document, "model", member);
            match json_to_vec(&document) {
                Some(bytes) => {
                    proof {
                        let at = seq![JsonStep::Member("model"@)];
                        assert(at.drop_first() =~= Seq::<JsonStep>::empty());
                        reveal_with_fuel(json_text_at, 2);
                        reveal_strlit("model");
                        reveal_strlit("$serde_json::private::RawValue");
                        assert("model"@.len() != json_reserved_key().len());
                        if is_reread(body@) {
                            assert(json_text_at(json_document(bytes@)->0, at) == Some(name@));
                        }
                    }
                    *body = bytes;
                    Some(name)
                },
                None => None,
            }
        },
    }
}

/// Every path but `/chat/completions` is known to the backends as it is; that one is known to
/// them under `/v1`. No path is known to them as `/chat/completions`, and to normalize a path
/// twice changes nothing more.
pub proof fn law_one_path_alone_is_renamed(path: Seq<char>)
    ensures
        path != "/chat/completions"@ ==> backend_path(path) == path,
        path == "/chat/completions"@ ==> backend_path(path) == "/v1"@ + path,
        backend_path(path) != "/chat/completions"@,
        backend_path(backend_path(path)) == backend_path(path),
{
    reveal_strlit("/chat/completions");
    reveal_strlit("/v1/chat/completions");
    reveal_strlit("/v1");
    assert("/v1"@ + "/chat/completions"@ =~= "/v1/chat/completions"@);
    assert("/chat/completions"@.len() != "/v1/chat/completions"@.len());
}

/// The paths for models are told by how they begin: whatever follows one of them is one too, and
/// there are no others than those that follow one of these.
pub proof fn law_model_paths_are_told_by_their_beginning(path: Seq<char>)
    ensures
        forall|rest: Seq<char>| is_model_path(path) ==> #[trigger] is_model_path(path + rest),
        is_model_path("/api/generate"@),
        is_model_path("/api/chat"@),
        is_model_path("/api/embed"@),
        is_model_path("/api/embeddings"@),
        is_model_path("/chat/completions"@),
        is_model_path("/v1/chat/completions"@),
        is_model_path("/v1/completions"@),
        is_model_path("/v1/embeddings"@),
        is_model_path("/v1/responses"@),
        is_model_path("/v1/images/generations"@),
        is_model_path(path) ==> exists|head: Seq<char>, rest: Seq<char>|
            path == #[trigger] (head + rest) && (head == "/api/generate"@ || head == "/api/chat"@
                || head == "/api/embed"@ || head == "/chat/completions"@ || head
                == "/v1/chat/completions"@ || head == "/v1/completions"@ || head
                == "/v1/embeddings"@ || head == "/v1/responses"@ || head
                == "/v1/images/generations"@),
{
    reveal_strlit("/api/embed");
    reveal_strlit("/api/embeddings");
    let heads = seq![
        "/api/generate"@,
        "/api/chat"@,
        "/api/embed"@,
        "/api/embeddings"@,
        "/chat/completions"@,
        "/v1/chat/completions"@,
        "/v1/completions"@,
        "/v1/embeddings"@,
        "/v1/responses"@,
        "/v1/images/generations"@,
    ];
    assert forall|h: int| 0 <= h < heads.len() implies begins_with(
        #[trigger] heads[h],
        heads[h],
    ) by {
        assert(heads[h].subrange(0, heads[h].len() as int) =~= heads[h]);
    }
    assert(begins_with(heads[0], heads[0]) && begins_with(heads[1], heads[1]) && begins_with(
        heads[2],
        heads[2],
    ) && begins_with(heads[3], heads[3]) && begins_with(heads[4], heads[4]) && begins_with(
        heads[5],
        heads[5],
    ) && begins_with(heads[6], heads[6]) && begins_with(heads[7], heads[7]) && begins_with(
        heads[8],
        heads[8],
    ) && begins_with(heads[9], heads[9]));
    assert forall|rest: Seq<char>| is_model_path(path) implies #[trigger] is_model_path(
        path + rest,
    ) by {
        assert forall|head: Seq<char>| begins_with(path, head) implies #[trigger] begins_with(
            path + rest,
            head,
        ) by {
            assert((path + rest).subrange(0, head.len() as int) =~= path.subrange(
                0,
                head.len() as int,
            ));
        }
    }
    if is_model_path(path) {
        let h = if begins_with(path, heads[0]) {
            0int
        } else if begins_with(path, heads[1]) {
            1
        } else if begins_with(path, heads[2]) || begins_with(path, heads[3]) {
            2
        } else if begins_with(path, heads[4]) {
            4
        } else if begins_with(path, heads[5]) {
            5
        } else if begins_with(path, heads[6]) {
            6
        } else if begins_with(path, heads[7]) {
            7
        } else if begins_with(path, heads[8]) {
            8
        } else {
            9
        };
        let head = heads[h];
        if h == 2 {
            assert(begins_with(path, head)) by {
                if begins_with(path, heads[3]) {
                    assert(path.subrange(0, head.len() as int) =~= path.subrange(
                        0,
                        heads[3].len() as int,
                    ).subrange(0, head.len() as int));
                    assert(heads[3].subrange(0, head.len() as int) =~= head);
                }
            }
        }
        assert(path =~= head + path.skip(head.len() as int));
    }
}

/// A request's body and model, once resolved: off the paths for models, and without a model in
/// the body, nothing is resolved and nothing changes. Else the model is the configured one, or,
/// where there is none, the one asked for. The body changes only where these two differ.
pub proof fn law_a_body_changes_only_with_its_model(
    body: Seq<u8>,
    path: Seq<char>,
    config: ModelConfig,
)
    ensures
        ({
            let (sent, model) = rewritten(body, path, config);
            let named = is_model_path(path) && body_model(body) is Some;
            &&& model is Some <==> named
            &&& !named ==> sent == body
            &&& named && config.resolved(body_model(body)->0) is None ==> model == body_model(body)
            &&& named && config.resolved(body_model(body)->0) is Some ==> model == config.resolved(
                body_model(body)->0,
            )
            &&& named && model == body_model(body) ==> sent == body
            &&& named && model != body_model(body) ==> sent == json_bytes(
                json_with_member(json_document(body)->0, "model"@, json_string_of(model->0)),
            )
        }),
{
}

/// What is found for a request: no model off the paths for models or where none is asked for; else
/// an unknown one where the configuration has none for that name, which is then given back as it
/// was asked for; else the configured one, as known where it was asked for by that very name, and
/// as renamed where it was not.
pub proof fn law_a_request_is_known_by_its_configured_name(
    r: Resolution,
    path: Seq<char>,
    requested: Option<Seq<char>>,
    config: ModelConfig,
)
    requires
        resolves_as(r, path, requested, config),
    ensures
        r is NoModel <==> !is_model_path(path) || requested is None,
        r matches Resolution::Unknown(name) ==> requested == Some(name@) && config.resolved(
            name@,
        ) is None,
        r matches Resolution::Known(name) ==> requested == Some(name@) && config.resolved(name@)
            == Some(name@),
        r matches Resolution::Renamed(name) ==> {
            &&& requested is Some
            &&& requested != Some(name@)
            &&& config.resolved(requested->0) == Some(name@)
        },
{
}

/// A body asks for a model exactly where it is a document with a text under `model`, and then for
/// the model of that text.
pub proof fn law_a_body_asks_for_its_model(body: Seq<u8>, model: Seq<char>)
    ensures
        body_model(body) == Some(model) <==> {
            &&& json_document(body) matches Some(document)
            &&& json_member(document, "model"@) matches Some(member)
            &&& json_text(member) == Some(model)
        },
{
}

} // verus!
