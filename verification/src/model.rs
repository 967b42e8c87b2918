//! Models: the identity that their tags carry, and the details that
//! `ollama show` prints of them.

use vstd::prelude::*;
use crate::string_map::{Entry, EntryView, StringMap};
use crate::text::{
    chars_of, joined, law_join_then_split, law_split_at_separators, law_split_then_join,
    lemma_split_nonempty, lemma_split_prefix, opt_view, push_text, slice_views, split, split_on,
    string_of, views,
};

verus! {

/// Identity fields used with `ollama pull` / `ollama show`; optional [`ModelDetails`] from `ollama show`.
#[derive(Debug, Clone, PartialEq, Eq)]
pub struct Model {
    pub name: String,
    pub param_count: String,
    pub variant: String,
    pub quantization: String,
    /// Populated when parsing `ollama show` output into structured sections.
    pub details: Option<ModelDetails>,
}

/// Parsed `ollama show` output: known sections are typed; anything else is preserved under [`ModelDetails::other`].
#[derive(Debug, Clone, PartialEq, Eq)]
pub struct ModelDetails {
    pub model: Option<ModelSection>,
    pub capabilities: Option<CapabilitiesSection>,
    pub parameters: Option<ParametersSection>,
    pub license: Option<LicenseSection>,
    /// Section name to entries: `(key, Some(value))` for key-value lines, `(tag, None)` for single-token lines.
    pub other: StringMap<Vec<Entry>>,
}

/// The `Model` block from `ollama show` (architecture, size, quantization, etc.).
#[derive(Debug, Clone, PartialEq, Eq)]
pub struct ModelSection {
    pub architecture: Option<String>,
    /// Model size string from the manifest (e.g. `4.3B`), distinct from sampling [`ParametersSection`].
    pub parameters: Option<String>,
    pub context_length: Option<String>,
    pub embedding_length: Option<String>,
    pub quantization: Option<String>,
    pub extra: StringMap<String>,
}

/// Declared capabilities (e.g. `completion`, `vision`).
#[derive(Debug, Clone, PartialEq, Eq)]
pub struct CapabilitiesSection {
    pub tags: Vec<String>,
    pub extra: StringMap<String>,
}

/// Default sampling / generation parameters embedded in the model.
#[derive(Debug, Clone, PartialEq, Eq)]
pub struct ParametersSection {
    pub temperature: Option<String>,
    pub top_k: Option<String>,
    pub top_p: Option<String>,
    pub stop: Option<String>,
    pub extra: StringMap<String>,
}

/// License block: mostly free-form lines; lines with a key-value split are also captured in [`LicenseSection::fields`].
#[derive(Debug, Clone, PartialEq, Eq)]
pub struct LicenseSection {
    pub lines: Vec<String>,
    pub fields: StringMap<String>,
}

/// The four parts of a tag `name:param-variant-quantization`.
#[verifier::ext_equal]
pub struct Identity {
    pub name: Seq<char>,
    pub param_count: Seq<char>,
    pub variant: Seq<char>,
    pub quantization: Seq<char>,
}

/// The model of a [`ModelSection`].
#[verifier::ext_equal]
pub struct ModelSectionView {
    pub architecture: Option<Seq<char>>,
    pub parameters: Option<Seq<char>>,
    pub context_length: Option<Seq<char>>,
    pub embedding_length: Option<Seq<char>>,
    pub quantization: Option<Seq<char>>,
    pub extra: Map<Seq<char>, Seq<char>>,
}

/// The model of a [`CapabilitiesSection`].
#[verifier::ext_equal]
pub struct CapabilitiesView {
    pub tags: Seq<Seq<char>>,
    pub extra: Map<Seq<char>, Seq<char>>,
}

/// The model of a [`ParametersSection`].
#[verifier::ext_equal]
pub struct ParametersView {
    pub temperature: Option<Seq<char>>,
    pub top_k: Option<Seq<char>>,
    pub top_p: Option<Seq<char>>,
    pub stop: Option<Seq<char>>,
    pub extra: Map<Seq<char>, Seq<char>>,
}

/// The model of a [`LicenseSection`].
#[verifier::ext_equal]
pub struct LicenseView {
    pub lines: Seq<Seq<char>>,
    pub fields: Map<Seq<char>, Seq<char>>,
}

/// The model of a [`ModelDetails`].
#[verifier::ext_equal]
pub struct DetailsView {
    pub model: Option<ModelSectionView>,
    pub capabilities: Option<CapabilitiesView>,
    pub parameters: Option<ParametersView>,
    pub license: Option<LicenseView>,
    pub other: Map<Seq<char>, Seq<EntryView>>,
}

impl View for ModelSection {
    type V = ModelSectionView;

    open spec fn view(&self) -> ModelSectionView {
        ModelSectionView {
            architecture: opt_view(self.architecture),
            parameters: opt_view(self.parameters),
            context_length: opt_view(self.context_length),
            embedding_length: opt_view(self.embedding_length),
            quantization: opt_view(self.quantization),
            extra: self.extra.texts(),
        }
    }
}

impl View for CapabilitiesSection {
    type V = CapabilitiesView;

    open spec fn view(&self) -> CapabilitiesView {
        CapabilitiesView { tags: views(self.tags@), extra: self.extra.texts() }
    }
}

impl View for ParametersSection {
    type V = ParametersView;

    open spec fn view(&self) -> ParametersView {
        ParametersView {
            temperature: opt_view(self.temperature),
            top_k: opt_view(self.top_k),
            top_p: opt_view(self.top_p),
            stop: opt_view(self.stop),
            extra: self.extra.texts(),
        }
    }
}

impl View for LicenseSection {
    type V = LicenseView;

    open spec fn view(&self) -> LicenseView {
        LicenseView { lines: views(self.lines@), fields: self.fields.texts() }
    }
}

impl View for ModelDetails {
    type V = DetailsView;

    open spec fn view(&self) -> DetailsView {
        DetailsView {
            model: match self.model {
                Some(m) => Some(m@),
                None => None,
            },
            capabilities: match self.capabilities {
                Some(c) => Some(c@),
                None => None,
            },
            parameters: match self.parameters {
                Some(p) => Some(p@),
                None => None,
            },
            license: match self.license {
                Some(l) => Some(l@),
                None => None,
            },
            other: self.other.lists(),
        }
    }
}

/// A `Model` block without entries.
pub open spec fn no_model_section() -> ModelSectionView {
    ModelSectionView {
        architecture: None,
        parameters: None,
        context_length: None,
        embedding_length: None,
        quantization: None,
        extra: Map::empty(),
    }
}

/// Capabilities without entries.
pub open spec fn no_capabilities() -> CapabilitiesView {
    CapabilitiesView { tags: Seq::empty(), extra: Map::empty() }
}

/// Parameters without entries.
pub open spec fn no_parameters() -> ParametersView {
    ParametersView { temperature: None, top_k: None, top_p: None, stop: None, extra: Map::empty() }
}

/// A license without entries.
pub open spec fn no_license() -> LicenseView {
    LicenseView { lines: Seq::empty(), fields: Map::empty() }
}

/// Details without sections.
pub open spec fn no_details() -> DetailsView {
    DetailsView {
        model: None,
        capabilities: None,
        parameters: None,
        license: None,
        other: Map::empty(),
    }
}

impl Default for ModelSection {
    fn default() -> (r: Self)
        ensures
            r@ == no_model_section(),
            r.architecture is None,
            r.parameters is None,
            r.context_length is None,
            r.embedding_length is None,
            r.quantization is None,
            r.extra@ == Map::<Seq<char>, String>::empty(),
    {
        let r = ModelSection {
            architecture: None,
            parameters: None,
            context_length: None,
            embedding_length: None,
            quantization: None,
            extra: StringMap::new(),
        };
        assert(r@ =~= no_model_section());
        r
    }
}

impl Default for CapabilitiesSection {
    fn default() -> (r: Self)
        ensures
            r@ == no_capabilities(),
            r.tags@.len() == 0,
            r.extra@ == Map::<Seq<char>, String>::empty(),
    {
        let r = CapabilitiesSection { tags: Vec::new(), extra: StringMap::new() };
        assert(r@ =~= no_capabilities());
        r
    }
}

impl Default for ParametersSection {
    fn default() -> (r: Self)
        ensures
            r@ == no_parameters(),
            r.temperature is None,
            r.top_k is None,
            r.top_p is None,
            r.stop is None,
            r.extra@ == Map::<Seq<char>, String>::empty(),
    {
        let r = ParametersSection {
            temperature: None,
            top_k: None,
            top_p: None,
            stop: None,
            extra: StringMap::new(),
        };
        assert(r@ =~= no_parameters());
        r
    }
}

impl Default for LicenseSection {
    fn default() -> (r: Self)
        ensures
            r@ == no_license(),
            r.lines@.len() == 0,
            r.fields@ == Map::<Seq<char>, String>::empty(),
    {
        let r = LicenseSection { lines: Vec::new(), fields: StringMap::new() };
        assert(r@ =~= no_license());
        r
    }
}

impl Default for ModelDetails {
    fn default() -> (r: Self)
        ensures
            r@ == no_details(),
            r.model is None,
            r.capabilities is None,
            r.parameters is None,
            r.license is None,
            r.other@ == Map::<Seq<char>, Vec<Entry>>::empty(),
    {
        let r = ModelDetails {
            model: None,
            capabilities: None,
            parameters: None,
            license: None,
            other: StringMap::new(),
        };
        assert(r@ =~= no_details());
        r
    }
}

/// The tag `name:param-variant-quantization` of an identity.
pub open spec fn extended_name(id: Identity) -> Seq<char> {
    id.name.push(':') + id.param_count.push('-') + id.variant.push('-') + id.quantization
}

/// The identity that a tag carries, or why it carries none. What stands behind a
/// second `:`, or behind a third `-` in the part after the first `:`, does not count.
pub open spec fn tag_identity(tag: Seq<char>) -> Result<Identity, Seq<char>> {
    let parts = split_on(tag, ':');
    if parts.len() < 2 {
        Err("expected name:param-variant-quantization"@)
    } else {
        let fields = split_on(parts[1], '-');
        if fields.len() < 3 {
            Err("expected param-variant-quantization after ':'"@)
        } else {
            Ok(
                Identity {
                    name: parts[0],
                    param_count: fields[0],
                    variant: fields[1],
                    quantization: fields[2],
                },
            )
        }
    }
}

impl Model {
    /// The identity fields.
    pub open spec fn identity(&self) -> Identity {
        Identity {
            name: self.name@,
            param_count: self.param_count@,
            variant: self.variant@,
            quantization: self.quantization@,
        }
    }

    /// A model with the given identity fields and no details.
    pub fn new(name: String, param_count: String, variant: String, quantization: String) -> (r:
        Self)
        ensures
            r.name == name,
            r.param_count == param_count,
            r.variant == variant,
            r.quantization == quantization,
            r.details is None,
    {
        Model { name, param_count, variant, quantization, details: None }
    }

    /// Parses a tag like `name:param-variant-quantization` into identity fields. `details` is left unset.
    pub fn from_str(s: String) -> (r: Result<Self, String>)
        ensures
            match tag_identity(s@) {
                Ok(id) => {
                    &&& r is Ok
                    &&& r->Ok_0.identity() == id
                    &&& r->Ok_0.name@ == id.name
                    &&& r->Ok_0.param_count@ == id.param_count
                    &&& r->Ok_0.variant@ == id.variant
                    &&& r->Ok_0.quantization@ == id.quantization
                    &&& r->Ok_0.details is None
                },
                Err(e) => r is Err && r->Err_0@ == e,
            },
    {
        let chars = chars_of(s.as_str());
        let parts = split(&chars, ':');
        assert(slice_views(parts@).len() == parts@.len());
        if parts.len() < 2 {
            return Err("expected name:param-variant-quantization".to_string());
        }
        assert(slice_views(parts@)[0] == parts@[0]@);
        assert(slice_views(parts@)[1] == parts@[1]@);
        let fields = split(parts[1], '-');
        assert(slice_views(fields@).len() == fields@.len());
        if fields.len() < 3 {
            return Err("expected param-variant-quantization after ':'".to_string());
        }
        assert(slice_views(fields@)[0] == fields@[0]@);
        assert(slice_views(fields@)[1] == fields@[1]@);
        assert(slice_views(fields@)[2] == fields@[2]@);
        Ok(
            Self::new(
                string_of(parts[0]),
                string_of(fields[0]),
                string_of(fields[1]),
                string_of(fields[2]),
            ),
        )
    }

    /// The tag `name:param-variant-quantization`.
    pub fn get_extended_name(&self) -> (r: String)
        ensures
            r@ == extended_name(self.identity()),
            r@ == self.name@ + seq![':'] + self.param_count@ + seq!['-'] + self.variant@ + seq!['-']
                + self.quantization@,
    {
        let mut v = chars_of(self.name.as_str());
        v.push(':');
        push_text(&mut v, self.param_count.as_str());
        v.push('-');
        push_text(&mut v, self.variant.as_str());
        v.push('-');
        push_text(&mut v, self.quantization.as_str());
        assert(v@ =~= extended_name(self.identity()));
        assert(v@ =~= self.name@ + seq![':'] + self.param_count@ + seq!['-'] + self.variant@
            + seq!['-'] + self.quantization@);
        string_of(&v)
    }

    /// The same model with the given details.
    pub fn with_details(self, details: ModelDetails) -> (r: Self)
        ensures
            r == (Model { details: Some(details), ..self }),
    {
        Model {
            name: self.name,
            param_count: self.param_count,
            variant: self.variant,
            quantization: self.quantization,
            details: Some(details),
        }
    }
}

/// The tag of a model is read back as its identity. The separators must not
/// occur inside the fields: `:` in none of them, `-` in none but the name.
pub proof fn law_tag_of_identity(id: Identity)
    requires
        !id.name.contains(':'),
        !id.param_count.contains(':'),
        !id.param_count.contains('-'),
        !id.variant.contains(':'),
        !id.variant.contains('-'),
        !id.quantization.contains(':'),
        !id.quantization.contains('-'),
    ensures
        tag_identity(extended_name(id)) == Ok::<Identity, Seq<char>>(id),
{
    let fields = seq![id.param_count, id.variant, id.quantization];
    let rest = joined(fields, '-');
    assert(fields.drop_last() =~= seq![id.param_count, id.variant]);
    assert(fields.drop_last().drop_last() =~= seq![id.param_count]);
    reveal_with_fuel(joined, 3);
    assert(rest =~= id.param_count.push('-') + id.variant.push('-') + id.quantization);
    law_join_then_split(fields, '-');
    let parts = seq![id.name, rest];
    assert(parts.drop_last() =~= seq![id.name]);
    assert(joined(parts, ':') =~= extended_name(id));
    assert(!rest.contains(':')) by {
        if rest.contains(':') {
            let i = choose|i: int| 0 <= i < rest.len() && rest[i] == ':';
            let a = id.param_count.len() as int;
            let b = a + 1 + id.variant.len();
            if i < a {
                assert(id.param_count[i] == ':');
            } else if a < i < b {
                assert(id.variant[i - a - 1] == ':');
            } else if i > b {
                assert(id.quantization[i - b - 1] == ':');
            }
        }
    }
    law_join_then_split(parts, ':');
}

/// A tag with one `:` and, after it, two `-` is the tag of the identity that is
/// read from it.
pub proof fn law_identity_of_tag(tag: Seq<char>)
    requires
        split_on(tag, ':').len() == 2,
        split_on(split_on(tag, ':')[1], '-').len() == 3,
    ensures
        tag_identity(tag) is Ok,
        extended_name(tag_identity(tag)->Ok_0) == tag,
{
    let parts = split_on(tag, ':');
    let fields = split_on(parts[1], '-');
    law_split_then_join(tag, ':');
    law_split_then_join(parts[1], '-');
    reveal_with_fuel(joined, 3);
    assert(parts.drop_last() =~= seq![parts[0]]);
    assert(fields.drop_last().drop_last() =~= seq![fields[0]]);
    assert(fields.drop_last().last() == fields[1]);
    assert(extended_name(tag_identity(tag)->Ok_0) =~= parts[0].push(':') + (fields[0].push('-')
        + fields[1].push('-') + fields[2]));
    assert(parts[1] =~= fields[0].push('-') + fields[1].push('-') + fields[2]);
}

/// The identity of a model is its four fields, and its tag puts them one after the
/// other, each whole, with `:` and `-` between them.
pub proof fn law_tag_holds_the_fields(m: Model)
    ensures
        m.identity().name == m.name@,
        m.identity().param_count == m.param_count@,
        m.identity().variant == m.variant@,
        m.identity().quantization == m.quantization@,
        extended_name(m.identity()) == m.name@ + seq![':'] + m.param_count@ + seq!['-']
            + m.variant@ + seq!['-'] + m.quantization@,
{
    assert(extended_name(m.identity()) =~= m.name@ + seq![':'] + m.param_count@ + seq!['-']
        + m.variant@ + seq!['-'] + m.quantization@);
}

/// The fields of a tag are what stands between its separators, whole. What follows the
/// fourth behind a further `-` or `:` does not count.
pub proof fn law_fields_of_a_tag(
    name: Seq<char>,
    param_count: Seq<char>,
    variant: Seq<char>,
    quantization: Seq<char>,
    tail: Seq<char>,
)
    requires
        !name.contains(':'),
        !param_count.contains(':') && !param_count.contains('-'),
        !variant.contains(':') && !variant.contains('-'),
        !quantization.contains(':') && !quantization.contains('-'),
        tail.len() > 0 ==> tail[0] == '-' || tail[0] == ':',
    ensures
        match tag_identity(
            name + seq![':'] + param_count + seq!['-'] + variant + seq!['-'] + quantization + tail,
        ) {
            Ok(id) => {
                &&& id.name == name
                &&& id.param_count == param_count
                &&& id.variant == variant
                &&& id.quantization == quantization
            },
            Err(_) => false,
        },
{
    let fields = param_count + seq!['-'] + variant + seq!['-'] + quantization;
    let tag = name + seq![':'] + param_count + seq!['-'] + variant + seq!['-'] + quantization
        + tail;
    law_split_at_separators(name, fields + tail, ':');
    assert(tag =~= name + seq![':'] + (fields + tail));
    assert(!fields.contains(':')) by {
        if fields.contains(':') {
            let i = choose|i: int| 0 <= i < fields.len() && fields[i] == ':';
            let a = param_count.len() as int;
            let b = a + 1 + variant.len();
            if i < a {
                assert(param_count[i] == ':');
            } else if a < i < b {
                assert(variant[i - a - 1] == ':');
            } else if i > b {
                assert(quantization[i - b - 1] == ':');
            }
        }
    }
    let pieces = split_on(fields + tail, ':');
    let second = pieces[0];
    lemma_split_nonempty(tail, ':');
    lemma_split_prefix(fields, tail, ':');
    let cut = split_on(tail, ':')[0];
    assert(second == fields + cut);
    assert(cut.len() > 0 ==> cut[0] == '-') by {
        if tail.len() > 0 && tail[0] == ':' {
            let rest = tail.skip(1);
            assert(tail =~= Seq::<char>::empty() + seq![':'] + rest);
            law_split_at_separators(Seq::empty(), rest, ':');
            assert(cut == Seq::<char>::empty());
        } else if cut.len() > 0 {
            lemma_first_piece_is_prefix(tail, ':');
        }
    }
    law_split_at_separators(param_count, variant + seq!['-'] + quantization + cut, '-');
    assert(second =~= param_count + seq!['-'] + (variant + seq!['-'] + quantization + cut));
    law_split_at_separators(variant, quantization + cut, '-');
    assert(variant + seq!['-'] + quantization + cut =~= variant + seq!['-'] + (quantization + cut));
    lemma_split_prefix(quantization, cut, '-');
    lemma_split_nonempty(cut, '-');
    assert(split_on(cut, '-')[0] =~= Seq::<char>::empty()) by {
        if cut.len() > 0 {
            let rest = cut.skip(1);
            assert(cut =~= Seq::<char>::empty() + seq!['-'] + rest);
            law_split_at_separators(Seq::empty(), rest, '-');
        }
    }
    assert(split_on(quantization + cut, '-')[0] =~= quantization);
    let last = split_on(quantization + cut, '-');
    assert(split_on(second, '-') =~= seq![param_count] + (seq![variant] + last));
    assert(split_on(tag, ':') =~= seq![name] + pieces);
    assert(split_on(tag, ':')[1] == second);
    assert(split_on(second, '-')[2] == last[0]);
}

/// The first piece of a text begins with the first character of the text.
proof fn lemma_first_piece_is_prefix(s: Seq<char>, sep: char)
    requires
        s.len() > 0,
        s[0] != sep,
    ensures
        split_on(s, sep)[0].len() > 0,
        split_on(s, sep)[0][0] == s[0],
    decreases s.len(),
{
    let shorter = s.drop_last();
    lemma_split_nonempty(shorter, sep);
    if shorter.len() > 0 {
        lemma_first_piece_is_prefix(shorter, sep);
    } else {
        assert(shorter =~= Seq::empty());
        assert(split_on(shorter, sep)[0] =~= Seq::empty());
    }
}

/// A tag is refused exactly for want of separators: without a `:` as a whole, and with
/// fewer than two `-` between its first `:` and the next one.
pub proof fn law_tags_without_separators_are_refused(
    tag: Seq<char>,
    name: Seq<char>,
    first: Seq<char>,
    second: Seq<char>,
    tail: Seq<char>,
)
    requires
        !name.contains(':'),
        !first.contains(':') && !first.contains('-'),
        !second.contains(':') && !second.contains('-'),
        tail.len() > 0 ==> tail[0] == ':',
    ensures
        !tag.contains(':') ==> tag_identity(tag) == Err::<Identity, Seq<char>>(
            "expected name:param-variant-quantization"@,
        ),
        tag_identity(name + seq![':'] + first + tail) == Err::<Identity, Seq<char>>(
            "expected param-variant-quantization after ':'"@,
        ),
        tag_identity(name + seq![':'] + first + seq!['-'] + second + tail) == Err::<
            Identity,
            Seq<char>,
        >("expected param-variant-quantization after ':'"@),
{
    if !tag.contains(':') {
        law_split_at_separators(tag, tag, ':');
    }
    law_split_at_separators(first, second, '-');
    law_split_at_separators(second, second, '-');
    lemma_second_part(name, first, tail);
    let both = first + seq!['-'] + second;
    assert(!both.contains(':')) by {
        if both.contains(':') {
            let i = choose|i: int| 0 <= i < both.len() && both[i] == ':';
            if i < first.len() {
                assert(first[i] == ':');
            } else if i > first.len() {
                assert(second[i - first.len() - 1] == ':');
            }
        }
    }
    lemma_second_part(name, both, tail);
    assert(name + seq![':'] + first + seq!['-'] + second + tail =~= name + seq![':'] + both + tail);
}

/// What stands between the first `:` of a tag and the next one.
proof fn lemma_second_part(name: Seq<char>, second: Seq<char>, tail: Seq<char>)
    requires
        !name.contains(':'),
        !second.contains(':'),
        tail.len() > 0 ==> tail[0] == ':',
    ensures
        split_on(name + seq![':'] + second + tail, ':').len() >= 2,
        split_on(name + seq![':'] + second + tail, ':')[1] == second,
{
    law_split_at_separators(name, second + tail, ':');
    assert(name + seq![':'] + second + tail =~= name + seq![':'] + (second + tail));
    if tail.len() == 0 {
        assert(second + tail =~= second);
        law_split_at_separators(second, second, ':');
    } else {
        let rest = tail.skip(1);
        assert(second + tail =~= second + seq![':'] + rest);
        law_split_at_separators(second, rest, ':');
    }
}

/// The model of each section holds what the section holds, field by field.
pub proof fn law_models_of_sections(
    m: ModelSection,
    c: CapabilitiesSection,
    p: ParametersSection,
    l: LicenseSection,
)
    ensures
        m@.architecture == opt_view(m.architecture),
        m@.parameters == opt_view(m.parameters),
        m@.context_length == opt_view(m.context_length),
        m@.embedding_length == opt_view(m.embedding_length),
        m@.quantization == opt_view(m.quantization),
        m@.extra == m.extra.texts(),
        c@.tags == views(c.tags@),
        c@.extra == c.extra.texts(),
        p@.temperature == opt_view(p.temperature),
        p@.top_k == opt_view(p.top_k),
        p@.top_p == opt_view(p.top_p),
        p@.stop == opt_view(p.stop),
        p@.extra == p.extra.texts(),
        l@.lines == views(l.lines@),
        l@.fields == l.fields.texts(),
{
}

/// The model of details holds the models of its sections, each in its place.
pub proof fn law_model_of_details(d: ModelDetails)
    ensures
        match d.model {
            Some(m) => d@.model == Some(m@),
            None => d@.model is None,
        },
        match d.capabilities {
            Some(c) => d@.capabilities == Some(c@),
            None => d@.capabilities is None,
        },
        match d.parameters {
            Some(p) => d@.parameters == Some(p@),
            None => d@.parameters is None,
        },
        match d.license {
            Some(l) => d@.license == Some(l@),
            None => d@.license is None,
        },
        d@.other == d.other.lists(),
{
}

/// What is empty has no section, no field and no entry.
pub proof fn law_nothing_is_empty()
    ensures
        no_details().model is None,
        no_details().capabilities is None,
        no_details().parameters is None,
        no_details().license is None,
        no_details().other == Map::<Seq<char>, Seq<EntryView>>::empty(),
        no_model_section().architecture is None,
        no_model_section().parameters is None,
        no_model_section().context_length is None,
        no_model_section().embedding_length is None,
        no_model_section().quantization is None,
        no_model_section().extra == Map::<Seq<char>, Seq<char>>::empty(),
        no_capabilities().tags.len() == 0,
        no_capabilities().extra == Map::<Seq<char>, Seq<char>>::empty(),
        no_parameters().temperature is None,
        no_parameters().top_k is None,
        no_parameters().top_p is None,
        no_parameters().stop is None,
        no_parameters().extra == Map::<Seq<char>, Seq<char>>::empty(),
        no_license().lines.len() == 0,
        no_license().fields == Map::<Seq<char>, Seq<char>>::empty(),
{
}

}
