//! The models that the backends offer, and how they are listed for clients.

use chrono::{DateTime, Utc};
use vstd::prelude::*;

use crate::models::{
    law_names_match_up_to_a_missing_latest, model_names_match, names_match, ModelConfig,
};
use crate::text::same_text;

verus! {

/// A model that some backend offers.
pub struct CachedModel {
    pub name: String,
    /// When it was last changed, as the backend tells it.
    pub modified_at: String,
}

/// The models that the backends offer, as last asked for.
pub struct CachedTags {
    pub models: Vec<CachedModel>,
}

/// A model, as clients of the OpenAI interface are told of it.
pub struct OpenAIModel {
    pub id: String,
    pub object: &'static str,
    /// In seconds since 1970.
    pub created: i64,
    pub owned_by: String,
}

/// The list of models for clients of the OpenAI interface.
pub struct OpenAIModelsList {
    pub object: &'static str,
    pub data: Vec<OpenAIModel>,
}

/// The time that a text in the form of RFC 3339 states, in seconds since 1970; nothing for any
/// other text.
pub uninterp spec fn rfc3339_seconds(text: Seq<char>) -> Option<i64>;

/// The time that a text in the given form states, in seconds since 1970; nothing where it has
/// another form.
pub uninterp spec fn seconds_in_form(text: Seq<char>, form: Seq<char>) -> Option<i64>;

/// The second form in which backends state times: a space between date and time, and the hours
/// of the offset alone, where the minutes are left out.
pub open spec fn spaced_form() -> Seq<char> {
    "%Y-%m-%d %H:%M:%S.%f%#z"@
}

/// `DateTime::parse_from_rfc3339` and `DateTime::timestamp`: the time that a text in that form
/// states.
#[verifier::external_body]
fn parse_rfc3339(text: &str) -> (r: Option<i64>)
    ensures
        r == rfc3339_seconds(text@),
{
    match DateTime::parse_from_rfc3339(text) {
        Ok(time) => Some(time.timestamp()),
        Err(_) => None,
    }
}

/// `DateTime::parse_from_str` and `DateTime::timestamp`: the time that a text in the given form
/// states. With forms that hold a time stamp the parser can overflow, so no other form than this
/// one is taken.
#[verifier::external_body]
fn parse_in_form(text: &str, form: &str) -> (r: Option<i64>)
    requires
        form@ == spaced_form(),
    ensures
        r == seconds_in_form(text@, form@),
{
    match DateTime::parse_from_str(text, form) {
        Ok(time) => Some(time.timestamp()),
        Err(_) => None,
    }
}

/// `Utc::now` and `DateTime::timestamp`: the seconds since 1970, by the system's clock, which
/// must not stand before. What time it is is left unsaid.
#[verifier::external_body]
fn now_seconds() -> (r: i64)
    ensures
        r >= 0,
{
    Utc::now().timestamp()
}

/// The time that a backend's text states, in seconds since 1970.
pub open spec fn stated_seconds(text: Seq<char>) -> Option<i64> {
    if rfc3339_seconds(text) is Some {
        rfc3339_seconds(text)
    } else {
        seconds_in_form(text, spaced_form())
    }
}

/// The time that two readings of a text make out: the first that there is.
pub fn first_reading(rfc3339: Option<i64>, spaced: Option<i64>) -> (r: Option<i64>)
    ensures
        r == if rfc3339 is Some {
            rfc3339
        } else {
            spaced
        },
{
    match rfc3339 {
        Some(t) => Some(t),
        None => spaced,
    }
}

/// The time that a backend's text states, in seconds since 1970; the present for a text that
/// states none.
pub fn parse_created_timestamp(modified_at: &str) -> (r: i64)
    ensures
        stated_seconds(modified_at@) is Some ==> r == stated_seconds(modified_at@)->0,
        stated_seconds(modified_at@) is None ==> r >= 0,
{
    let rfc3339 = parse_rfc3339(modified_at);
    let spaced = parse_in_form(modified_at, "%Y-%m-%d %H:%M:%S.%f%#z");
    match first_reading(rfc3339, spaced) {
        Some(t) => t,
        None => now_seconds(),
    }
}

impl OpenAIModel {
    /// The model of the given name and time.
    pub open spec fn is_listing(self, name: Seq<char>, created: i64) -> bool {
        &&& self.id@ == name
        &&& self.object@ == "model"@
        &&& self.created == created
        &&& self.owned_by@ == "all-llama-proxy"@
    }

    /// The listing of an offered model: its time is the stated one, where it states one, else
    /// one since 1970.
    pub open spec fn lists_cached(self, model: CachedModel) -> bool {
        &&& self.is_listing(model.name@, self.created)
        &&& stated_seconds(model.modified_at@) is Some ==> self.created == stated_seconds(
            model.modified_at@,
        )->0
        &&& stated_seconds(model.modified_at@) is None ==> self.created >= 0
    }

    /// The listing of a model by name and time.
    pub fn new(name: &str, created: i64) -> (r: Self)
        ensures
            r.is_listing(name@, created),
    {
        OpenAIModel {
            id: name.to_owned(),
            object: "model",
            created,
            owned_by: "all-llama-proxy".to_owned(),
        }
    }

    fn of(model: &CachedModel) -> (r: Self)
        ensures
            r.lists_cached(*model),
    {
        let created = parse_created_timestamp(model.modified_at.as_str());
        OpenAIModel::new(model.name.as_str(), created)
    }
}

/// The models in the cache; none as long as it is empty.
pub open spec fn offered(cached_tags: Option<CachedTags>) -> Seq<CachedModel> {
    match cached_tags {
        Some(tags) => tags.models@,
        None => Seq::empty(),
    }
}

/// The list of all offered models, in their order.
pub fn build_models_list(cached_tags: &Option<CachedTags>) -> (r: OpenAIModelsList)
    ensures
        r.object@ == "list"@,
        r.data@.len() == offered(*cached_tags).len(),
        forall|i: int|
            0 <= i < r.data@.len() ==> (#[trigger] r.data@[i]).lists_cached(
                offered(*cached_tags)[i],
            ),
{
    let mut data: Vec<OpenAIModel> = Vec::new();
    match cached_tags {
        Some(tags) => {
            let mut i: usize = 0;
            while i < tags.models.len()
                invariant
                    i <= tags.models@.len(),
                    data@.len() == i,
                    forall|j: int|
                        0 <= j < i ==> (#[trigger] data@[j]).lists_cached(tags.models@[j]),
                decreases tags.models@.len() - i,
            {
                data.push(OpenAIModel::of(&tags.models[i]));
                i = i + 1;
            }
        },
        None => {},
    }
    OpenAIModelsList { object: "list", data }
}

/// The tags to show a client: those in the cache, none as long as it is empty.
pub fn tags_to_show(cached_tags: &Option<CachedTags>) -> (r: CachedTags)
    ensures
        r.models@ == offered(*cached_tags),
{
    let mut models: Vec<CachedModel> = Vec::new();
    match cached_tags {
        Some(tags) => {
            let mut i: usize = 0;
            while i < tags.models.len()
                invariant
                    i <= tags.models@.len(),
                    models@ == tags.models@.take(i as int),
                decreases tags.models@.len() - i,
            {
                let model = &tags.models[i];
                let name = model.name.clone();
                let modified_at = model.modified_at.clone();
                models.push(CachedModel { name, modified_at });
                i = i + 1;
                assert(tags.models@.take(i as int) =~= tags.models@.take(i - 1).push(
                    tags.models@[i - 1],
                ));
            }
            assert(tags.models@.take(tags.models@.len() as int) =~= tags.models@);
        },
        None => {},
    }
    CachedTags { models }
}

/// `i` is the place of the first of `models` that `wanted` holds of.
pub open spec fn is_first(
    models: Seq<CachedModel>,
    wanted: spec_fn(CachedModel) -> bool,
    i: int,
) -> bool {
    &&& 0 <= i < models.len()
    &&& wanted(models[i])
    &&& forall|j: int| 0 <= j < i ==> !wanted(#[trigger] models[j])
}

/// The model's name matches `requested`, up to the tag `latest`.
pub open spec fn matching(requested: Seq<char>) -> spec_fn(CachedModel) -> bool {
    |m: CachedModel| names_match(m.name@, requested)
}

/// The model's name is the configured one of the model that `requested` means.
pub open spec fn meant(config: ModelConfig, requested: Seq<char>) -> spec_fn(CachedModel) -> bool {
    |m: CachedModel| config.resolved(requested) == Some(m.name@)
}

/// The offered model that `requested` asks for: the first whose name matches; without one, the
/// first under the configured name of the model that `requested` means.
pub open spec fn is_asked_for(
    models: Seq<CachedModel>,
    config: ModelConfig,
    requested: Seq<char>,
    i: int,
) -> bool {
    ||| is_first(models, matching(requested), i)
    ||| is_first(models, meant(config, requested), i) && forall|j: int|
        0 <= j < models.len() ==> !names_match((#[trigger] models[j]).name@, requested)
}

fn find_matching(models: &Vec<CachedModel>, requested: &str) -> (r: Option<usize>)
    ensures
        r is Some ==> is_first(models@, matching(requested@), r->0 as int),
        r is None ==> forall|j: int|
            0 <= j < models@.len() ==> !names_match((#[trigger] models@[j]).name@, requested@),
{
    let mut i: usize = 0;
    while i < models.len()
        invariant
            i <= models@.len(),
            forall|j: int|
                0 <= j < i ==> !names_match((#[trigger] models@[j]).name@, requested@),
        decreases models@.len() - i,
    {
        if model_names_match(models[i].name.as_str(), requested) {
            return Some(i);
        }
        i = i + 1;
    }
    None
}

fn find_named(models: &Vec<CachedModel>, name: &str) -> (r: Option<usize>)
    ensures
        r is Some ==> is_first(models@, |m: CachedModel| m.name@ == name@, r->0 as int),
        r is None ==> forall|j: int|
            0 <= j < models@.len() ==> (#[trigger] models@[j]).name@ != name@,
{
    let mut i: usize = 0;
    while i < models.len()
        invariant
            i <= models@.len(),
            forall|j: int| 0 <= j < i ==> (#[trigger] models@[j]).name@ != name@,
        decreases models@.len() - i,
    {
        if same_text(models[i].name.as_str(), name) {
            return Some(i);
        }
        i = i + 1;
    }
    None
}

/// The listing of the offered model that `requested_model` asks for, by its own name or by any
/// name that the configuration knows it under.
pub fn find_model_by_name(
    cached_tags: &Option<CachedTags>,
    config: &ModelConfig,
    requested_model: &str,
) -> (r: Option<OpenAIModel>)
    ensures
        r is Some <==> exists|i: int|
            is_asked_for(offered(*cached_tags), *config, requested_model@, i),
        r is Some ==> exists|i: int|
            #[trigger] is_asked_for(offered(*cached_tags), *config, requested_model@, i)
                && r->0.lists_cached(offered(*cached_tags)[i]),
{
    let models = match cached_tags {
        Some(tags) => &tags.models,
        None => return None,
    };
    assert(models@ == offered(*cached_tags));
    match find_matching(models, requested_model) {
        Some(i) => {
            assert(is_asked_for(offered(*cached_tags), *config, requested_model@, i as int));
            return Some(OpenAIModel::of(&models[i]));
        },
        None => {},
    }
    match config.resolve_alias(requested_model) {
        Some(name) => match find_named(models, name.as_str()) {
            Some(i) => {
                assert(is_first(models@, meant(*config, requested_model@), i as int));
                assert(is_asked_for(offered(*cached_tags), *config, requested_model@, i as int));
                Some(OpenAIModel::of(&models[i]))
            },
            None => None,
        },
        None => None,
    }
}

/// At most one offered model is asked for under a name.
pub proof fn law_one_model_is_asked_for(
    models: Seq<CachedModel>,
    config: ModelConfig,
    requested: Seq<char>,
    i: int,
    j: int,
)
    requires
        is_asked_for(models, config, requested, i),
        is_asked_for(models, config, requested, j),
    ensures
        i == j,
{
    if is_first(models, matching(requested), i) {
        assert(names_match(models[i].name@, requested));
    }
    if is_first(models, matching(requested), j) {
        assert(names_match(models[j].name@, requested));
    }
}

/// A text in the form of RFC 3339 states the time that it has in that form; any other states the
/// one that it has in the form with a space, if it has that.
pub proof fn law_the_first_form_that_fits_counts(text: Seq<char>)
    ensures
        rfc3339_seconds(text) is Some ==> stated_seconds(text) == rfc3339_seconds(text),
        rfc3339_seconds(text) is None ==> stated_seconds(text) == seconds_in_form(
            text,
            "%Y-%m-%d %H:%M:%S.%f%#z"@,
        ),
{
}

/// A listing has its model's name for its id, and is told of as this proxy's.
pub proof fn law_a_listing_names_its_model(listing: OpenAIModel, model: CachedModel)
    requires
        listing.lists_cached(model),
    ensures
        listing.id@ == model.name@,
        listing.object@ == "model"@,
        listing.owned_by@ == "all-llama-proxy"@,
        stated_seconds(model.modified_at@) matches Some(t) ==> listing.created == t,
{
}

/// A model is found where one offered goes by the name asked for, up to a missing tag `latest`,
/// and then it is the first such; without one, where one is offered under exactly the name that
/// the configuration resolves to, and then it is the first such; and in no other case.
pub proof fn law_offered_models_are_found_by_name(
    models: Seq<CachedModel>,
    config: ModelConfig,
    requested: Seq<char>,
    i: int,
)
    ensures
        ({
            let same = |x: Seq<char>|
                {
                    ||| x == requested
                    ||| !x.contains(':') && requested == x + ":latest"@
                    ||| !requested.contains(':') && x == requested + ":latest"@
                };
            let named = |m: CachedModel| config.resolved(requested) == Some(m.name@);
            let any_same = exists|j: int|
                0 <= j < models.len() && same((#[trigger] models[j]).name@);
            is_asked_for(models, config, requested, i) <==> {
                &&& 0 <= i < models.len()
                &&& any_same ==> same(models[i].name@) && forall|j: int|
                    0 <= j < i ==> !same((#[trigger] models[j]).name@)
                &&& !any_same ==> named(models[i]) && forall|j: int|
                    0 <= j < i ==> !named(#[trigger] models[j])
            }
        }),
{
    assert forall|x: Seq<char>| true implies #[trigger] names_match(x, requested) == {
        ||| x == requested
        ||| !x.contains(':') && requested == x + ":latest"@
        ||| !requested.contains(':') && x == requested + ":latest"@
    } by {
        law_names_match_up_to_a_missing_latest(x, requested);
    }
    let wanted = matching(requested);
    assert forall|j: int| 0 <= j < models.len() implies wanted(#[trigger] models[j])
        == names_match(models[j].name@, requested) by {}
    if exists|j: int| 0 <= j < models.len() && names_match(
        (#[trigger] models[j]).name@,
        requested,
    ) {
        let j = choose|j: int|
            0 <= j < models.len() && names_match((#[trigger] models[j]).name@, requested);
        assert(wanted(models[j]));
    }
    if is_asked_for(models, config, requested, i) && is_first(models, wanted, i) {
        assert(names_match(models[i].name@, requested));
    }
}

/// All models in the cache are offered, in their order, and no others; none without a cache.
pub proof fn law_the_whole_cache_is_offered(tags: CachedTags)
    ensures
        offered(Some(tags)) == tags.models@,
        offered(None).len() == 0,
{
}

} // verus!
