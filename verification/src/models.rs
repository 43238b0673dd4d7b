//! Model names and the model configuration.

use vstd::prelude::*;
use vstd::string::*;

use crate::text::{has_char, join, same_text};

verus! {

/// A model name with its tag written out: a name without a tag means its `latest`.
pub open spec fn tagged_name(name: Seq<char>) -> Seq<char> {
    if name.contains(':') {
        name
    } else {
        name + ":latest"@
    }
}

/// Both names mean the same model, where one or both may leave out the tag `latest`.
pub open spec fn names_match(a: Seq<char>, b: Seq<char>) -> bool {
    tagged_name(a) == tagged_name(b)
}

fn with_tag(name: &str) -> (r: String)
    ensures
        r@ == tagged_name(name@),
{
    if has_char(name, ':') {
        name.to_owned()
    } else {
        join(name, ":latest")
    }
}

/// Whether two names mean the same model, where either may leave out the tag `latest`.
pub fn model_names_match(a: &str, b: &str) -> (r: bool)
    ensures
        r == names_match(a@, b@),
{
    same_text(with_tag(a).as_str(), with_tag(b).as_str())
}

/// Matching is an equivalence.
pub proof fn law_names_match_is_an_equivalence(a: Seq<char>, b: Seq<char>, c: Seq<char>)
    ensures
        names_match(a, a),
        names_match(a, b) ==> names_match(b, a),
        names_match(a, b) && names_match(b, c) ==> names_match(a, c),
{
}

/// A name without a tag means its `latest`, and nothing with another tag.
pub proof fn law_bare_name_means_latest_only(bare: Seq<char>, other: Seq<char>)
    requires
        !bare.contains(':'),
    ensures
        names_match(bare, bare + ":latest"@),
        names_match(bare, other) <==> other == bare || other == bare + ":latest"@,
{
    reveal_strlit(":latest");
    let latest = bare + ":latest"@;
    assert(latest[bare.len() as int] == ':');
    assert(latest.contains(':'));
    if names_match(bare, other) && !other.contains(':') {
        let ghost_other = other + ":latest"@;
        assert(latest.len() == ghost_other.len());
        assert(other =~= ghost_other.take(other.len() as int));
        assert(bare =~= latest.take(bare.len() as int));
    }
}

/// A model of the configuration.
pub struct ParsedModel {
    /// The name that backends know it by.
    pub name: String,
    /// The name it is shown under, where that is another.
    pub public_name: Option<String>,
    /// The backends that are meant to serve it.
    pub backends: Vec<String>,
    /// Further names that requests may use.
    pub aliases: Vec<String>,
    /// How many requests for it one backend takes at a time.
    pub max_concurrent_requests: usize,
    /// Whether it is kept loaded.
    pub keep_alive: bool,
}

impl ParsedModel {
    /// A request for `requested` means this model.
    pub open spec fn is_meant_by(self, requested: Seq<char>) -> bool {
        ||| names_match(self.name@, requested)
        ||| (self.public_name is Some && names_match(self.public_name->0@, requested))
        ||| exists|i: int|
            0 <= i < self.aliases@.len() && names_match(
                (#[trigger] self.aliases@[i])@,
                requested,
            )
    }

    /// Whether a request for `requested` means this model.
    pub fn answers_to(&self, requested: &str) -> (r: bool)
        ensures
            r == self.is_meant_by(requested@),
    {
        if model_names_match(self.name.as_str(), requested) {
            return true;
        }
        if let Some(public_name) = &self.public_name {
            if model_names_match(public_name.as_str(), requested) {
                return true;
            }
        }
        let mut i: usize = 0;
        while i < self.aliases.len()
            invariant
                i <= self.aliases@.len(),
                forall|j: int|
                    0 <= j < i ==> !names_match((#[trigger] self.aliases@[j])@, requested@),
            decreases self.aliases@.len() - i,
        {
            if model_names_match(self.aliases[i].as_str(), requested) {
                return true;
            }
            i = i + 1;
        }
        false
    }
}

/// The first of `models` that `requested` means, as an index; their number without one.
pub open spec fn first_meant(models: Seq<ParsedModel>, requested: Seq<char>) -> int
    decreases models.len(),
{
    if models.len() == 0 || models[0].is_meant_by(requested) {
        0
    } else {
        1 + first_meant(models.drop_first(), requested)
    }
}

/// The first of `models` with exactly the name `name`, as an index; their number without one.
pub open spec fn first_named(models: Seq<ParsedModel>, name: Seq<char>) -> int
    decreases models.len(),
{
    if models.len() == 0 || models[0].name@ == name {
        0
    } else {
        1 + first_named(models.drop_first(), name)
    }
}

/// Where `first_meant` points.
pub proof fn lemma_first_meant(models: Seq<ParsedModel>, requested: Seq<char>)
    ensures
        0 <= first_meant(models, requested) <= models.len(),
        first_meant(models, requested) < models.len()
            ==> models[first_meant(models, requested)].is_meant_by(requested),
        forall|i: int|
            0 <= i < first_meant(models, requested) ==> !(#[trigger] models[i]).is_meant_by(
                requested,
            ),
    decreases models.len(),
{
    if models.len() > 0 && !models[0].is_meant_by(requested) {
        let rest = models.drop_first();
        lemma_first_meant(rest, requested);
        assert forall|i: int| 0 <= i < first_meant(models, requested) implies !(
        #[trigger] models[i]).is_meant_by(requested) by {
            if i > 0 {
                assert(models[i] == rest[i - 1]);
            }
        }
    }
}

/// Where `first_named` points.
pub proof fn lemma_first_named(models: Seq<ParsedModel>, name: Seq<char>)
    ensures
        0 <= first_named(models, name) <= models.len(),
        first_named(models, name) < models.len() ==> models[first_named(models, name)].name@
            == name,
        forall|i: int|
            0 <= i < first_named(models, name) ==> (#[trigger] models[i]).name@ != name,
    decreases models.len(),
{
    if models.len() > 0 && models[0].name@ != name {
        let rest = models.drop_first();
        lemma_first_named(rest, name);
        assert forall|i: int| 0 <= i < first_named(models, name) implies (
        #[trigger] models[i]).name@ != name by {
            if i > 0 {
                assert(models[i] == rest[i - 1]);
            }
        }
    }
}

/// The models that the proxy knows, in the order of the configuration.
pub struct ModelConfig {
    pub models: Vec<ParsedModel>,
}

impl ModelConfig {
    /// The configured name of the model that `requested` means.
    pub open spec fn resolved(self, requested: Seq<char>) -> Option<Seq<char>> {
        let i = first_meant(self.models@, requested);
        if i < self.models@.len() {
            Some(self.models@[i].name@)
        } else {
            None
        }
    }

    /// How many requests for `name` one backend takes at a time; one where `name` is unknown.
    pub open spec fn concurrency_cap(self, name: Seq<char>) -> usize {
        let i = first_named(self.models@, name);
        if i < self.models@.len() {
            self.models@[i].max_concurrent_requests
        } else {
            1
        }
    }

    /// The configured name, as spelled in the configuration, of the model that `requested`
    /// means by its name, its public name or an alias; the first such model counts.
    pub fn resolve_alias(&self, requested: &str) -> (r: Option<String>)
        ensures
            r is Some == self.resolved(requested@) is Some,
            r is Some ==> r->0@ == self.resolved(requested@)->0,
    {
        let mut i: usize = 0;
        assert(self.models@.skip(0) =~= self.models@);
        while i < self.models.len()
            invariant
                i <= self.models@.len(),
                first_meant(self.models@, requested@) == i + first_meant(
                    self.models@.skip(i as int),
                    requested@,
                ),
            decreases self.models@.len() - i,
        {
            if self.models[i].answers_to(requested) {
                return Some(self.models[i].name.clone());
            }
            assert(self.models@.skip(i as int).drop_first() =~= self.models@.skip(i + 1));
            i = i + 1;
        }
        None
    }

    /// The first model with exactly the name `name`.
    pub fn get_model(&self, name: &str) -> (r: Option<&ParsedModel>)
        ensures
            r is Some == (first_named(self.models@, name@) < self.models@.len()),
            r is Some ==> *r->0 == self.models@[first_named(self.models@, name@)],
    {
        let mut i: usize = 0;
        assert(self.models@.skip(0) =~= self.models@);
        while i < self.models.len()
            invariant
                i <= self.models@.len(),
                first_named(self.models@, name@) == i + first_named(
                    self.models@.skip(i as int),
                    name@,
                ),
            decreases self.models@.len() - i,
        {
            if same_text(self.models[i].name.as_str(), name) {
                return Some(&self.models[i]);
            }
            assert(self.models@.skip(i as int).drop_first() =~= self.models@.skip(i + 1));
            i = i + 1;
        }
        None
    }
}

/// A request resolves to a name exactly as spelled in the configuration, and the model of that
/// name is found again under it.
pub proof fn law_resolved_name_is_configured(config: ModelConfig, requested: Seq<char>)
    requires
        config.resolved(requested) is Some,
    ensures
        exists|i: int|
            0 <= i < config.models@.len() && (#[trigger] config.models@[i]).name@
                == config.resolved(requested)->0 && config.models@[i].is_meant_by(requested),
        first_named(config.models@, config.resolved(requested)->0) < config.models@.len(),
{
    lemma_first_meant(config.models@, requested);
    lemma_first_named(config.models@, config.resolved(requested)->0);
    let i = first_meant(config.models@, requested);
    assert(config.models@[i].name@ == config.resolved(requested)->0);
}

/// Leaving out the tag `latest`, or writing it, does not change what a request resolves to.
pub proof fn law_latest_tag_is_optional(config: ModelConfig, a: Seq<char>, b: Seq<char>)
    requires
        names_match(a, b),
    ensures
        config.resolved(a) == config.resolved(b),
{
    lemma_meant_by_matching(config.models@, a, b);
}

proof fn lemma_meant_by_matching(models: Seq<ParsedModel>, a: Seq<char>, b: Seq<char>)
    requires
        names_match(a, b),
    ensures
        first_meant(models, a) == first_meant(models, b),
    decreases models.len(),
{
    if models.len() > 0 {
        lemma_meant_by_matching(models.drop_first(), a, b);
        assert(models[0].is_meant_by(a) == models[0].is_meant_by(b));
    }
}

/// Two names mean the same model where they are equal, or where one has no tag and the other is
/// that name with the tag `latest`; and in no other case. So names that both have a tag mean the
/// same only where they are equal.
pub proof fn law_names_match_up_to_a_missing_latest(a: Seq<char>, b: Seq<char>)
    ensures
        names_match(a, b) <==> {
            ||| a == b
            ||| !a.contains(':') && b == a + ":latest"@
            ||| !b.contains(':') && a == b + ":latest"@
        },
        a.contains(':') && b.contains(':') ==> (names_match(a, b) <==> a == b),
{
    reveal_strlit(":latest");
    assert((a + ":latest"@)[a.len() as int] == ':');
    assert((a + ":latest"@).contains(':'));
    assert((b + ":latest"@)[b.len() as int] == ':');
    assert((b + ":latest"@).contains(':'));
    if !a.contains(':') && !b.contains(':') && a + ":latest"@ == b + ":latest"@ {
        let x = a + ":latest"@;
        let y = b + ":latest"@;
        assert(x.len() == y.len());
        assert(a =~= x.take(a.len() as int));
        assert(b =~= y.take(b.len() as int));
    }
}

/// A request resolves to the first model that goes by the name it asks for: the model's own name,
/// its public name or one of its aliases, up to a missing tag `latest`. Where no model goes by
/// that name, it resolves to nothing.
pub proof fn law_the_first_model_of_a_name_is_meant(
    config: ModelConfig,
    requested: Seq<char>,
    at: int,
)
    requires
        0 <= at <= config.models@.len(),
        ({
            let same = |x: Seq<char>|
                {
                    ||| x == requested
                    ||| !x.contains(':') && requested == x + ":latest"@
                    ||| !requested.contains(':') && x == requested + ":latest"@
                };
            let goes_by = |m: ParsedModel|
                {
                    ||| same(m.name@)
                    ||| m.public_name is Some && same(m.public_name->0@)
                    ||| exists|k: int|
                        0 <= k < m.aliases@.len() && same((#[trigger] m.aliases@[k])@)
                };
            &&& forall|j: int| 0 <= j < at ==> !goes_by(#[trigger] config.models@[j])
            &&& at < config.models@.len() ==> goes_by(config.models@[at])
        }),
    ensures
        at < config.models@.len() ==> config.resolved(requested) == Some(config.models@[at].name@),
        at == config.models@.len() ==> config.resolved(requested) is None,
{
    let models = config.models@;
    assert forall|x: Seq<char>| true implies #[trigger] names_match(x, requested) == {
        ||| x == requested
        ||| !x.contains(':') && requested == x + ":latest"@
        ||| !requested.contains(':') && x == requested + ":latest"@
    } by {
        law_names_match_up_to_a_missing_latest(x, requested);
    }
    lemma_first_meant(models, requested);
    let first = first_meant(models, requested);
    assert forall|j: int| 0 <= j < at implies !(#[trigger] models[j]).is_meant_by(requested) by {
        let m = models[j];
        if m.is_meant_by(requested) && !names_match(m.name@, requested) && !(m.public_name is Some
            && names_match(m.public_name->0@, requested)) {
            let k = choose|k: int|
                0 <= k < m.aliases@.len() && names_match((#[trigger] m.aliases@[k])@, requested);
            assert(names_match(m.aliases@[k]@, requested));
        }
    }
    if at < models.len() {
        let m = models[at];
        assert(m.is_meant_by(requested)) by {
            law_names_match_up_to_a_missing_latest(m.name@, requested);
            if m.public_name is Some {
                law_names_match_up_to_a_missing_latest(m.public_name->0@, requested);
            }
            assert forall|k: int| 0 <= k < m.aliases@.len() implies names_match(
                (#[trigger] m.aliases@[k])@,
                requested,
            ) == {
                let x = m.aliases@[k]@;
                ||| x == requested
                ||| !x.contains(':') && requested == x + ":latest"@
                ||| !requested.contains(':') && x == requested + ":latest"@
            } by {
                law_names_match_up_to_a_missing_latest(m.aliases@[k]@, requested);
            }
        }
        assert(first == at) by {
            if first < at {
                assert(models[first].is_meant_by(requested));
            }
        }
    } else {
        assert(first == at) by {
            if first < at {
                assert(models[first].is_meant_by(requested));
            }
        }
    }
}

/// The exact name of a configured model resolves to itself, unless an earlier model goes by it.
pub proof fn law_an_exact_name_resolves_to_itself(config: ModelConfig, at: int)
    requires
        0 <= at < config.models@.len(),
        forall|j: int|
            0 <= j < at ==> !(#[trigger] config.models@[j]).is_meant_by(config.models@[at].name@),
    ensures
        config.resolved(config.models@[at].name@) == Some(config.models@[at].name@),
{
    let name = config.models@[at].name@;
    lemma_first_meant(config.models@, name);
    assert(config.models@[at].is_meant_by(name));
}

/// The cap of a model is that of the first model with exactly its name, and one without such a
/// model.
pub proof fn law_a_cap_is_that_of_the_named_model(config: ModelConfig, name: Seq<char>, at: int)
    requires
        0 <= at <= config.models@.len(),
        forall|j: int| 0 <= j < at ==> (#[trigger] config.models@[j]).name@ != name,
        at < config.models@.len() ==> config.models@[at].name@ == name,
    ensures
        at < config.models@.len() ==> config.concurrency_cap(name)
            == config.models@[at].max_concurrent_requests,
        at == config.models@.len() ==> config.concurrency_cap(name) == 1,
{
    lemma_first_named(config.models@, name);
    let first = first_named(config.models@, name);
    if first < at {
        assert(config.models@[first].name@ == name);
    }
}

} // verus!
