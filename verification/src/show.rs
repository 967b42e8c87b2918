//! The text that `ollama show` prints, read into [`ModelDetails`].
//!
//! A line indented by two or three spaces names a section; a line indented by
//! four or more belongs to the section named last. Two spaces in a row part a
//! key from its value.

use vstd::prelude::*;
use crate::model::{
    no_capabilities, no_details, no_license, no_model_section, no_parameters,
    CapabilitiesSection, CapabilitiesView, DetailsView, LicenseSection, LicenseView,
    ModelDetails, ModelSection, ModelSectionView, ParametersSection, ParametersView,
};
use crate::string_map::{entries_view, entry_view, Entry, EntryView, StringMap};
use crate::text::{
    blank, chars_of, find_gap, gap_from, is_blank, is_white_space, law_gap_is_two_spaces,
    law_trailing_run_is_taken_off, lemma_blank_is_trimmed_empty, lemma_trimmed_start,
    lemma_trimmed_start_skips_blank, lines, lines_of, opt_view, same_text, slice_views,
    starts_with, string_of, trim, trim_end, trim_start, trim_trailing, trimmed, trimmed_end,
    trimmed_start, views, without_trailing,
};
use vstd::slice::slice_subrange;

verus! {

/// What one line of the output is.
pub enum ShowLine {
    /// The name of a section.
    Header(Seq<char>),
    /// An item of the current section, without its indentation.
    Item(Seq<char>),
    /// A blank line, or one that is not indented.
    Skipped,
}

/// What one item says.
pub enum ShowItem {
    /// A key with a value, and the line that they stand on.
    Pair(Seq<char>, Seq<char>, Seq<char>),
    /// A text without a value.
    Tag(Seq<char>),
    /// Nothing at all.
    Nothing,
}

/// What one line of the output is.
pub open spec fn show_line(raw: Seq<char>) -> ShowLine {
    let line = without_trailing(raw, '\r');
    if is_blank(line) {
        ShowLine::Skipped
    } else if "    "@.is_prefix_of(line) {
        ShowLine::Item(trimmed_start(line))
    } else if "  "@.is_prefix_of(line) {
        ShowLine::Header(trimmed(line))
    } else {
        ShowLine::Skipped
    }
}

/// The key before the first two spaces in a row, and the value after them. There
/// is none without two spaces in a row or with nothing before them.
pub open spec fn key_and_value(line: Seq<char>) -> Option<(Seq<char>, Seq<char>)> {
    match gap_from(line, 0) {
        Some(i) => {
            let key = trimmed_end(line.take(i));
            if key.len() == 0 {
                None
            } else {
                Some((key, trimmed(line.skip(i))))
            }
        },
        None => None,
    }
}

/// What an item says. A key with an empty value is a tag.
pub open spec fn show_item(content: Seq<char>) -> ShowItem {
    match key_and_value(content) {
        Some((key, value)) => if value.len() == 0 {
            ShowItem::Tag(key)
        } else {
            ShowItem::Pair(key, value, trimmed(content))
        },
        None => if trimmed(content).len() == 0 {
            ShowItem::Nothing
        } else {
            ShowItem::Tag(trimmed(content))
        },
    }
}

/// The section that an item behind these lines belongs to: the one named last.
pub open spec fn current_section(text: Seq<Seq<char>>) -> Option<Seq<char>>
    decreases text.len(),
{
    if text.len() == 0 {
        None
    } else {
        match show_line(text.last()) {
            ShowLine::Header(name) => Some(name),
            _ => current_section(text.drop_last()),
        }
    }
}

/// The items that the lines hold for a section, in their order. A section may
/// be named more than once.
pub open spec fn items_of(text: Seq<Seq<char>>, section: Seq<char>) -> Seq<ShowItem>
    decreases text.len(),
{
    if text.len() == 0 {
        Seq::empty()
    } else {
        let before = items_of(text.drop_last(), section);
        match show_line(text.last()) {
            ShowLine::Item(content) => if current_section(text.drop_last()) == Some(section)
                && show_item(content) !is Nothing {
                before.push(show_item(content))
            } else {
                before
            },
            _ => before,
        }
    }
}

/// The value that the last pair with this key has.
pub open spec fn last_value(items: Seq<ShowItem>, key: Seq<char>) -> Option<Seq<char>>
    decreases items.len(),
{
    if items.len() == 0 {
        None
    } else {
        match items.last() {
            ShowItem::Pair(k, v, _) => if k == key {
                Some(v)
            } else {
                last_value(items.drop_last(), key)
            },
            _ => last_value(items.drop_last(), key),
        }
    }
}

/// Whether one of the items is a pair.
pub open spec fn has_pair(items: Seq<ShowItem>) -> bool {
    exists|i: int| 0 <= i < items.len() && (#[trigger] items[i]) is Pair
}

/// The texts of the tags, in their order.
pub open spec fn tags_in(items: Seq<ShowItem>) -> Seq<Seq<char>>
    decreases items.len(),
{
    if items.len() == 0 {
        Seq::empty()
    } else {
        match items.last() {
            ShowItem::Tag(t) => tags_in(items.drop_last()).push(t),
            _ => tags_in(items.drop_last()),
        }
    }
}

/// The text of an item: the whole line, whether it has a value or not.
pub open spec fn item_text(item: ShowItem) -> Seq<char> {
    match item {
        ShowItem::Pair(_, _, line) => line,
        ShowItem::Tag(tag) => tag,
        ShowItem::Nothing => Seq::empty(),
    }
}

/// The last value of each key that is not among `known`.
pub open spec fn values_but(items: Seq<ShowItem>, known: Set<Seq<char>>) -> Map<
    Seq<char>,
    Seq<char>,
> {
    Map::new(
        |k: Seq<char>| last_value(items, k) is Some && !known.contains(k),
        |k: Seq<char>| last_value(items, k)->0,
    )
}

/// The keys that have a field of their own in the `Model` section.
pub open spec fn model_keys() -> Set<Seq<char>> {
    set![
        "architecture"@,
        "parameters"@,
        "context length"@,
        "embedding length"@,
        "quantization"@,
    ]
}

/// The keys that have a field of their own in the `Parameters` section.
pub open spec fn parameter_keys() -> Set<Seq<char>> {
    set!["temperature"@, "top_k"@, "top_p"@, "stop"@]
}

/// Whether a section keeps its pairs in a type of its own.
pub open spec fn pairs_are_typed(section: Seq<char>) -> bool {
    section == "Model"@ || section == "Capabilities"@ || section == "Parameters"@ || section
        == "License"@
}

/// Whether a section keeps its tags in a type of its own.
pub open spec fn tags_are_typed(section: Seq<char>) -> bool {
    section == "Capabilities"@ || section == "License"@
}

/// The items of a section that it has no type for, in their order.
pub open spec fn untyped_entries(section: Seq<char>, items: Seq<ShowItem>) -> Seq<EntryView>
    decreases items.len(),
{
    if items.len() == 0 {
        Seq::empty()
    } else {
        let before = untyped_entries(section, items.drop_last());
        match items.last() {
            ShowItem::Pair(k, v, _) => if pairs_are_typed(section) {
                before
            } else {
                before.push((k, Some(v)))
            },
            ShowItem::Tag(t) => if tags_are_typed(section) {
                before
            } else {
                before.push((t, None))
            },
            ShowItem::Nothing => before,
        }
    }
}

/// The details that the lines of the output give.
pub open spec fn details_of(text: Seq<Seq<char>>) -> DetailsView {
    let model = items_of(text, "Model"@);
    let capabilities = items_of(text, "Capabilities"@);
    let parameters = items_of(text, "Parameters"@);
    let license = items_of(text, "License"@);
    DetailsView {
        model: if has_pair(model) {
            Some(
                ModelSectionView {
                    architecture: last_value(model, "architecture"@),
                    parameters: last_value(model, "parameters"@),
                    context_length: last_value(model, "context length"@),
                    embedding_length: last_value(model, "embedding length"@),
                    quantization: last_value(model, "quantization"@),
                    extra: values_but(model, model_keys()),
                },
            )
        } else {
            None
        },
        capabilities: if capabilities.len() > 0 {
            Some(
                CapabilitiesView {
                    tags: tags_in(capabilities),
                    extra: values_but(capabilities, Set::empty()),
                },
            )
        } else {
            None
        },
        parameters: if has_pair(parameters) {
            Some(
                ParametersView {
                    temperature: last_value(parameters, "temperature"@),
                    top_k: last_value(parameters, "top_k"@),
                    top_p: last_value(parameters, "top_p"@),
                    stop: last_value(parameters, "stop"@),
                    extra: values_but(parameters, parameter_keys()),
                },
            )
        } else {
            None
        },
        license: if license.len() > 0 {
            Some(
                LicenseView {
                    lines: license.map_values(|item: ShowItem| item_text(item)),
                    fields: values_but(license, Set::empty()),
                },
            )
        } else {
            None
        },
        other: Map::new(
            |s: Seq<char>| untyped_entries(s, items_of(text, s)).len() > 0,
            |s: Seq<char>| untyped_entries(s, items_of(text, s)),
        ),
    }
}

/// An optional value, or the given one where there is none.
pub open spec fn or_else<T>(o: Option<T>, d: T) -> T {
    match o {
        Some(v) => v,
        None => d,
    }
}

/// A `Model` section with one more pair.
pub open spec fn model_with_pair(
    m: ModelSectionView,
    key: Seq<char>,
    value: Seq<char>,
) -> ModelSectionView {
    if key == "architecture"@ {
        ModelSectionView { architecture: Some(value), ..m }
    } else if key == "parameters"@ {
        ModelSectionView { parameters: Some(value), ..m }
    } else if key == "context length"@ {
        ModelSectionView { context_length: Some(value), ..m }
    } else if key == "embedding length"@ {
        ModelSectionView { embedding_length: Some(value), ..m }
    } else if key == "quantization"@ {
        ModelSectionView { quantization: Some(value), ..m }
    } else {
        ModelSectionView { extra: m.extra.insert(key, value), ..m }
    }
}

/// A `Parameters` section with one more pair.
pub open spec fn parameters_with_pair(
    p: ParametersView,
    key: Seq<char>,
    value: Seq<char>,
) -> ParametersView {
    if key == "temperature"@ {
        ParametersView { temperature: Some(value), ..p }
    } else if key == "top_k"@ {
        ParametersView { top_k: Some(value), ..p }
    } else if key == "top_p"@ {
        ParametersView { top_p: Some(value), ..p }
    } else if key == "stop"@ {
        ParametersView { stop: Some(value), ..p }
    } else {
        ParametersView { extra: p.extra.insert(key, value), ..p }
    }
}

/// Capabilities with one more tag.
pub open spec fn capabilities_with_tag(c: CapabilitiesView, tag: Seq<char>) -> CapabilitiesView {
    CapabilitiesView { tags: c.tags.push(tag), ..c }
}

/// Sections that are not typed, with one more entry.
pub open spec fn other_with_entry(
    other: Map<Seq<char>, Seq<EntryView>>,
    section: Seq<char>,
    entry: EntryView,
) -> Map<Seq<char>, Seq<EntryView>> {
    if other.contains_key(section) {
        other.insert(section, other[section].push(entry))
    } else {
        other.insert(section, seq![entry])
    }
}

/// Details with one more item in a section.
pub open spec fn with_item(d: DetailsView, section: Seq<char>, item: ShowItem) -> DetailsView {
    match item {
        ShowItem::Pair(key, value, line) => if section == "Model"@ {
            DetailsView {
                model: Some(model_with_pair(or_else(d.model, no_model_section()), key, value)),
                ..d
            }
        } else if section == "Capabilities"@ {
            let c = or_else(d.capabilities, no_capabilities());
            DetailsView {
                capabilities: Some(CapabilitiesView { extra: c.extra.insert(key, value), ..c }),
                ..d
            }
        } else if section == "Parameters"@ {
            DetailsView {
                parameters: Some(
                    parameters_with_pair(or_else(d.parameters, no_parameters()), key, value),
                ),
                ..d
            }
        } else if section == "License"@ {
            let l = or_else(d.license, no_license());
            DetailsView {
                license: Some(
                    LicenseView { lines: l.lines.push(line), fields: l.fields.insert(key, value) },
                ),
                ..d
            }
        } else {
            DetailsView { other: other_with_entry(d.other, section, (key, Some(value))), ..d }
        },
        ShowItem::Tag(tag) => if section == "Capabilities"@ {
            DetailsView {
                capabilities: Some(
                    capabilities_with_tag(or_else(d.capabilities, no_capabilities()), tag),
                ),
                ..d
            }
        } else if section == "License"@ {
            let l = or_else(d.license, no_license());
            DetailsView { license: Some(LicenseView { lines: l.lines.push(tag), ..l }), ..d }
        } else {
            DetailsView { other: other_with_entry(d.other, section, (tag, None)), ..d }
        },
        ShowItem::Nothing => d,
    }
}

/// The key before the first two spaces in a row, and the value after them.
pub fn split_trait_value_line(line: &[char]) -> (r: Option<(String, String)>)
    ensures
        match r {
            Some((key, value)) => key_and_value(line@) == Some((key@, value@)),
            None => key_and_value(line@) is None,
        },
{
    match find_gap(line) {
        Some(pos) => {
            let key = trim_end(slice_subrange(line, 0, pos));
            let value = trim(slice_subrange(line, pos, line.len()));
            assert(line@.subrange(0, pos as int) =~= line@.take(pos as int));
            assert(line@.subrange(pos as int, line@.len() as int) =~= line@.skip(pos as int));
            if key.len() == 0 {
                None
            } else {
                Some((string_of(key), string_of(value)))
            }
        },
        None => None,
    }
}

/// Adds a tag to the capabilities, which come into being with it.
pub fn push_capability_tag(slot: &mut Option<CapabilitiesSection>, tag: String)
    ensures
        match *final(slot) {
            Some(c) => c@ == capabilities_with_tag(
                match *old(slot) {
                    Some(c) => c@,
                    None => no_capabilities(),
                },
                tag@,
            ),
            None => false,
        },
        match (*old(slot), *final(slot)) {
            (Some(before), Some(after)) => {
                &&& views(after.tags@) == views(before.tags@).push(tag@)
                &&& after.extra == before.extra
            },
            (None, Some(after)) => {
                &&& views(after.tags@) == seq![tag@]
                &&& after.extra@ == Map::<Seq<char>, String>::empty()
            },
            _ => false,
        },
{
    let mut c = match slot.take() {
        Some(c) => c,
        None => CapabilitiesSection::default(),
    };
    let ghost before = c@;
    c.tags.push(tag);
    proof {
        assert(c@ =~= capabilities_with_tag(before, tag@));
        assert(views(c.tags@) =~= before.tags.push(tag@));
    }
    *slot = Some(c);
}

/// Adds an entry to a section that is not typed, which comes into being with it.
pub fn push_other(
    other: &mut StringMap<Vec<Entry>>,
    section: &str,
    key: String,
    value: Option<String>,
)
    ensures
        final(other).lists() == other_with_entry(
            old(other).lists(),
            section@,
            (key@, opt_view(value)),
        ),
        final(other).lists() == old(other).lists().insert(
            section@,
            if old(other).lists().contains_key(section@) {
                old(other).lists()[section@].push((key@, opt_view(value)))
            } else {
                seq![(key@, opt_view(value))]
            },
        ),
{
    let ghost before = other@;
    let mut list = match other.remove(section) {
        Some(v) => v,
        None => Vec::new(),
    };
    let ghost old_list = list@;
    let ghost entry = entry_view((key, value));
    list.push((key, value));
    proof {
        assert(entries_view(list@) =~= entries_view(old_list).push(entry));
        if !before.contains_key(section@) {
            assert(entries_view(old_list) =~= Seq::empty());
            assert(Seq::<EntryView>::empty().push(entry) =~= seq![entry]);
        }
    }
    let ghost lists = before.map_values(|v: Vec<Entry>| entries_view(v@));
    other.insert(section.to_string(), list);
    proof {
        assert(other.lists() =~= other_with_entry(lists, section@, entry));
    }
}

fn add_model_pair(m: &mut ModelSection, key: String, value: String)
    ensures
        final(m)@ == model_with_pair(old(m)@, key@, value@),
{
    let ghost before = m@;
    if same_text(key.as_str(), "architecture") {
        m.architecture = Some(value);
    } else if same_text(key.as_str(), "parameters") {
        m.parameters = Some(value);
    } else if same_text(key.as_str(), "context length") {
        m.context_length = Some(value);
    } else if same_text(key.as_str(), "embedding length") {
        m.embedding_length = Some(value);
    } else if same_text(key.as_str(), "quantization") {
        m.quantization = Some(value);
    } else {
        m.extra.insert(key, value);
        assert(m@.extra =~= before.extra.insert(key@, value@));
    }
    assert(m@ =~= model_with_pair(before, key@, value@));
}

fn add_parameters_pair(p: &mut ParametersSection, key: String, value: String)
    ensures
        final(p)@ == parameters_with_pair(old(p)@, key@, value@),
{
    let ghost before = p@;
    if same_text(key.as_str(), "temperature") {
        p.temperature = Some(value);
    } else if same_text(key.as_str(), "top_k") {
        p.top_k = Some(value);
    } else if same_text(key.as_str(), "top_p") {
        p.top_p = Some(value);
    } else if same_text(key.as_str(), "stop") {
        p.stop = Some(value);
    } else {
        p.extra.insert(key, value);
        assert(p@.extra =~= before.extra.insert(key@, value@));
    }
    assert(p@ =~= parameters_with_pair(before, key@, value@));
}

fn apply_pair(
    details: &mut ModelDetails,
    section: &str,
    key: String,
    value: String,
    line: &[char],
)
    ensures
        final(details)@ == with_item(old(details)@, section@, ShowItem::Pair(key@, value@, line@)),
{
    let ghost before = details@;
    if same_text(section, "Model") {
        let mut m = match details.model.take() {
            Some(m) => m,
            None => ModelSection::default(),
        };
        add_model_pair(&mut m, key, value);
        details.model = Some(m);
    } else if same_text(section, "Capabilities") {
        let mut c = match details.capabilities.take() {
            Some(c) => c,
            None => CapabilitiesSection::default(),
        };
        let ghost old_c = c@;
        c.extra.insert(key, value);
        assert(c@.extra =~= old_c.extra.insert(key@, value@));
        details.capabilities = Some(c);
    } else if same_text(section, "Parameters") {
        let mut p = match details.parameters.take() {
            Some(p) => p,
            None => ParametersSection::default(),
        };
        add_parameters_pair(&mut p, key, value);
        details.parameters = Some(p);
    } else if same_text(section, "License") {
        let mut l = match details.license.take() {
            Some(l) => l,
            None => LicenseSection::default(),
        };
        let ghost old_l = l@;
        l.lines.push(string_of(line));
        assert(l@.lines =~= old_l.lines.push(line@));
        l.fields.insert(key, value);
        assert(l@.fields =~= old_l.fields.insert(key@, value@));
        details.license = Some(l);
    } else {
        push_other(&mut details.other, section, key, Some(value));
    }
    assert(details@ =~= with_item(before, section@, ShowItem::Pair(key@, value@, line@)));
}

fn apply_tag(details: &mut ModelDetails, section: &str, tag: String)
    ensures
        final(details)@ == with_item(old(details)@, section@, ShowItem::Tag(tag@)),
{
    let ghost before = details@;
    if same_text(section, "Capabilities") {
        push_capability_tag(&mut details.capabilities, tag);
    } else if same_text(section, "License") {
        let mut l = match details.license.take() {
            Some(l) => l,
            None => LicenseSection::default(),
        };
        let ghost old_l = l@;
        l.lines.push(tag);
        assert(l@.lines =~= old_l.lines.push(tag@));
        details.license = Some(l);
    } else {
        push_other(&mut details.other, section, tag, None);
    }
    assert(details@ =~= with_item(before, section@, ShowItem::Tag(tag@)));
}

/// Adds what one line of a section says to the details.
pub fn apply_show_line(details: &mut ModelDetails, section: &str, content: &[char])
    ensures
        final(details)@ == with_item(old(details)@, section@, show_item(content@)),
{
    match split_trait_value_line(content) {
        Some((key, value)) => {
            if value.as_str().is_empty() {
                apply_tag(details, section, key);
            } else {
                apply_pair(details, section, key, value, trim(content));
            }
        },
        None => {
            let token = trim(content);
            if token.len() > 0 {
                apply_tag(details, section, string_of(token));
            }
        },
    }
}

/// Parses `ollama show` text into [`ModelDetails`].
pub fn parse_model_show(output: &str) -> (r: ModelDetails)
    ensures
        r@ == details_of(lines_of(output@)),
{
    let mut details = ModelDetails::default();
    let mut section: Option<String> = None;
    let chars = chars_of(output);
    let all = lines(&chars);
    let ghost text = lines_of(output@);
    proof {
        lemma_no_lines();
        assert(text.take(0) =~= Seq::empty());
        assert(slice_views(all@).len() == all@.len());
    }
    for i in 0..all.len()
        invariant
            slice_views(all@) == text,
            all@.len() == text.len(),
            details@ == details_of(text.take(i as int)),
            opt_view(section) == current_section(text.take(i as int)),
    {
        let line = trim_trailing(all[i], '\r');
        proof {
            assert(slice_views(all@)[i as int] == all@[i as int]@);
            assert(text.take(i + 1) =~= text.take(i as int).push(text[i as int]));
            lemma_one_more_line(text.take(i as int), text[i as int]);
        }
        if !blank(line) {
            if starts_with(line, "    ") {
                match &section {
                    Some(name) => {
                        apply_show_line(&mut details, name.as_str(), trim_start(line));
                    },
                    None => {},
                }
            } else if starts_with(line, "  ") {
                section = Some(string_of(trim(line)));
            }
        }
    }
    assert(text.take(text.len() as int) =~= text);
    details
}

/// Parses `ollama show` text into [`ModelDetails`]. On `Err`, returns default (empty) details.
pub fn to_model_details(results: Result<String, String>) -> (r: ModelDetails)
    ensures
        match results {
            Ok(s) => r@ == details_of(lines_of(s@)),
            Err(_) => {
                &&& r@ == no_details()
                &&& r.model is None
                &&& r.capabilities is None
                &&& r.parameters is None
                &&& r.license is None
                &&& r.other@ == Map::<Seq<char>, Vec<Entry>>::empty()
            },
        },
{
    match results {
        Ok(s) => parse_model_show(s.as_str()),
        Err(_) => ModelDetails::default(),
    }
}

impl ModelDetails {
    /// Parses `ollama show` text.
    pub fn from_show_output(s: &str) -> (r: Self)
        ensures
            r@ == details_of(lines_of(s@)),
    {
        parse_model_show(s)
    }
}

proof fn lemma_section_names()
    ensures
        "Model"@ != "Capabilities"@,
        "Model"@ != "Parameters"@,
        "Model"@ != "License"@,
        "Capabilities"@ != "Parameters"@,
        "Capabilities"@ != "License"@,
        "Parameters"@ != "License"@,
{
    reveal_strlit("Model");
    reveal_strlit("Capabilities");
    reveal_strlit("Parameters");
    reveal_strlit("License");
    assert("Model"@.len() == 5);
    assert("Capabilities"@.len() == 12);
    assert("Parameters"@.len() == 10);
    assert("License"@.len() == 7);
}

proof fn lemma_key_names()
    ensures
        "architecture"@ != "parameters"@,
        "architecture"@ != "context length"@,
        "architecture"@ != "embedding length"@,
        "architecture"@ != "quantization"@,
        "parameters"@ != "context length"@,
        "parameters"@ != "embedding length"@,
        "parameters"@ != "quantization"@,
        "context length"@ != "embedding length"@,
        "context length"@ != "quantization"@,
        "embedding length"@ != "quantization"@,
        "temperature"@ != "top_k"@,
        "temperature"@ != "top_p"@,
        "temperature"@ != "stop"@,
        "top_k"@ != "top_p"@,
        "top_k"@ != "stop"@,
        "top_p"@ != "stop"@,
{
    reveal_strlit("architecture");
    reveal_strlit("parameters");
    reveal_strlit("context length");
    reveal_strlit("embedding length");
    reveal_strlit("quantization");
    reveal_strlit("temperature");
    reveal_strlit("top_k");
    reveal_strlit("top_p");
    reveal_strlit("stop");
    assert("architecture"@.len() == 12);
    assert("parameters"@.len() == 10);
    assert("context length"@.len() == 14);
    assert("embedding length"@.len() == 16);
    assert("quantization"@.len() == 12);
    assert("temperature"@.len() == 11);
    assert("top_k"@.len() == 5);
    assert("top_p"@.len() == 5);
    assert("stop"@.len() == 4);
    assert("architecture"@[0] != "quantization"@[0]);
    assert("top_k"@[4] != "top_p"@[4]);
}

proof fn lemma_no_lines()
    ensures
        details_of(Seq::empty()) == no_details(),
        current_section(Seq::empty()) is None,
{
    let none = Seq::<Seq<char>>::empty();
    assert(forall|s: Seq<char>| #[trigger] items_of(none, s) == Seq::<ShowItem>::empty());
    assert(details_of(none).other =~= Map::empty());
    assert(details_of(none) =~= no_details());
}

/// What one more item changes in what the items of a section give.
proof fn lemma_one_more_item(items: Seq<ShowItem>, item: ShowItem)
    ensures
        has_pair(items.push(item)) == (has_pair(items) || item is Pair),
        forall|key: Seq<char>| #[trigger]
            last_value(items.push(item), key) == (match item {
                ShowItem::Pair(k, v, _) => if k == key {
                    Some(v)
                } else {
                    last_value(items, key)
                },
                _ => last_value(items, key),
            }),
        tags_in(items.push(item)) == (match item {
            ShowItem::Tag(t) => tags_in(items).push(t),
            _ => tags_in(items),
        }),
{
    let more = items.push(item);
    assert(more.drop_last() =~= items);
    assert(more.last() == item);
    if has_pair(items) {
        let i = choose|i: int| 0 <= i < items.len() && (#[trigger] items[i]) is Pair;
        assert(more[i] is Pair);
    }
    if item is Pair {
        assert(more[items.len() as int] is Pair);
    }
    if has_pair(more) && item !is Pair {
        let i = choose|i: int| 0 <= i < more.len() && (#[trigger] more[i]) is Pair;
        assert(items[i] is Pair);
    }
}

proof fn lemma_no_pair_no_value(items: Seq<ShowItem>)
    requires
        !has_pair(items),
    ensures
        forall|key: Seq<char>| #[trigger] last_value(items, key) is None,
    decreases items.len(),
{
    if items.len() > 0 {
        let front = items.drop_last();
        assert(!has_pair(front)) by {
            if has_pair(front) {
                let i = choose|i: int| 0 <= i < front.len() && (#[trigger] front[i]) is Pair;
                assert(items[i] is Pair);
            }
        }
        assert(items[items.len() - 1] == items.last());
        lemma_no_pair_no_value(front);
        assert forall|key: Seq<char>| #[trigger] last_value(items, key) is None by {
            assert(last_value(front, key) is None);
        }
    }
}

proof fn lemma_untyped_one_more(section: Seq<char>, items: Seq<ShowItem>, item: ShowItem)
    ensures
        untyped_entries(section, items.push(item)) == (match item {
            ShowItem::Pair(k, v, _) => if pairs_are_typed(section) {
                untyped_entries(section, items)
            } else {
                untyped_entries(section, items).push((k, Some(v)))
            },
            ShowItem::Tag(t) => if tags_are_typed(section) {
                untyped_entries(section, items)
            } else {
                untyped_entries(section, items).push((t, None))
            },
            ShowItem::Nothing => untyped_entries(section, items),
        }),
{
    assert(items.push(item).drop_last() =~= items);
}

/// What one more line changes in the details.
proof fn lemma_one_more_line(text: Seq<Seq<char>>, raw: Seq<char>)
    ensures
        current_section(text.push(raw)) == (match show_line(raw) {
            ShowLine::Header(name) => Some(name),
            _ => current_section(text),
        }),
        details_of(text.push(raw)) == (match (show_line(raw), current_section(text)) {
            (ShowLine::Item(content), Some(section)) => with_item(
                details_of(text),
                section,
                show_item(content),
            ),
            _ => details_of(text),
        }),
{
    let more = text.push(raw);
    assert(more.drop_last() =~= text);
    assert(more.last() == raw);
    match (show_line(raw), current_section(text)) {
        (ShowLine::Item(content), Some(section)) => {
            let item = show_item(content);
            if item is Nothing {
                assert(forall|s: Seq<char>| #[trigger] items_of(more, s) == items_of(text, s));
                assert(details_of(more).other =~= details_of(text).other);
                assert(details_of(more) =~= details_of(text));
            } else {
                lemma_item_line(text, more, section, item);
            }
        },
        _ => {
            assert(forall|s: Seq<char>| #[trigger] items_of(more, s) == items_of(text, s));
            assert(details_of(more).other =~= details_of(text).other);
            assert(details_of(more) =~= details_of(text));
        },
    }
}

proof fn lemma_item_line(
    text: Seq<Seq<char>>,
    more: Seq<Seq<char>>,
    section: Seq<char>,
    item: ShowItem,
)
    requires
        item !is Nothing,
        forall|s: Seq<char>| #[trigger]
            items_of(more, s) == if s == section {
                items_of(text, s).push(item)
            } else {
                items_of(text, s)
            },
    ensures
        details_of(more) == with_item(details_of(text), section, item),
{
    lemma_section_names();
    lemma_key_names();
    let items = items_of(text, section);
    let d = details_of(text);
    let e = details_of(more);
    let w = with_item(d, section, item);
    lemma_one_more_item(items, item);
    lemma_untyped_one_more(section, items, item);
    if !has_pair(items) {
        lemma_no_pair_no_value(items);
    }
    if items.len() == 0 {
        assert(items =~= Seq::empty());
        lemma_no_pair_no_value(items);
    }
    assert forall|s: Seq<char>|
        #![trigger e.other.dom().contains(s)]
        #![trigger w.other.dom().contains(s)]
        e.other.dom().contains(s) == w.other.dom().contains(s) && (e.other.dom().contains(s)
            ==> e.other[s] == w.other[s]) by {
        assert(e.other.dom().contains(s) == (untyped_entries(s, items_of(more, s)).len() > 0));
        assert(d.other.dom().contains(s) == (untyped_entries(s, items_of(text, s)).len() > 0));
        if s == section && !d.other.dom().contains(s) {
            assert(untyped_entries(s, items) =~= Seq::empty());
        }
    }
    assert(e.other =~= w.other);
    if section == "Model"@ {
        if item is Pair {
            assert(e.model->0.extra =~= w.model->0.extra);
            assert(e.model->0 =~= w.model->0);
        }
    } else if section == "Capabilities"@ {
        assert(e.capabilities->0.extra =~= w.capabilities->0.extra);
        assert(e.capabilities->0 =~= w.capabilities->0);
    } else if section == "Parameters"@ {
        if item is Pair {
            assert(e.parameters->0.extra =~= w.parameters->0.extra);
            assert(e.parameters->0 =~= w.parameters->0);
        }
    } else if section == "License"@ {
        assert(e.license->0.lines =~= w.license->0.lines);
        assert(e.license->0.fields =~= w.license->0.fields);
        assert(e.license->0 =~= w.license->0);
    }
    assert(e =~= w);
}

/// Carriage returns at the ends of lines change nothing, so that output with either
/// kind of line end gives the same details.
pub proof fn law_carriage_returns_do_not_count(text: Seq<Seq<char>>, other: Seq<Seq<char>>)
    requires
        text.len() == other.len(),
        forall|i: int|
            0 <= i < text.len() ==> without_trailing(#[trigger] text[i], '\r') == without_trailing(
                other[i],
                '\r',
            ),
    ensures
        details_of(text) == details_of(other),
{
    assert forall|section: Seq<char>| #[trigger] items_of(text, section) == items_of(
        other,
        section,
    ) by {
        lemma_same_lines(text, other, section);
    }
    assert(details_of(text).other =~= details_of(other).other);
    assert(details_of(text) =~= details_of(other));
}

proof fn lemma_same_lines(text: Seq<Seq<char>>, other: Seq<Seq<char>>, section: Seq<char>)
    requires
        text.len() == other.len(),
        forall|i: int|
            0 <= i < text.len() ==> without_trailing(#[trigger] text[i], '\r') == without_trailing(
                other[i],
                '\r',
            ),
    ensures
        items_of(text, section) == items_of(other, section),
        current_section(text) == current_section(other),
    decreases text.len(),
{
    if text.len() > 0 {
        let shorter = text.drop_last();
        assert forall|i: int| 0 <= i < shorter.len() implies without_trailing(
            #[trigger] shorter[i],
            '\r',
        ) == without_trailing(other.drop_last()[i], '\r') by {
            assert(shorter[i] == text[i]);
        }
        lemma_same_lines(shorter, other.drop_last(), section);
        assert(text[text.len() - 1] == text.last());
        assert(show_line(text.last()) == show_line(other.last()));
    }
}

/// An indented line that is not blank always says something.
pub proof fn law_item_lines_count(raw: Seq<char>)
    ensures
        match show_line(raw) {
            ShowLine::Item(content) => show_item(content) !is Nothing,
            _ => true,
        },
{
    match show_line(raw) {
        ShowLine::Item(content) => {
            let line = without_trailing(raw, '\r');
            lemma_blank_is_trimmed_empty(line);
            lemma_trimmed_start(line);
            lemma_blank_is_trimmed_empty(content);
            assert(!is_blank(content)) by {
                assert(!is_white_space(content[0]));
            }
        },
        _ => {},
    }
}

/// The entry that keeps an item of a section that is not typed.
pub open spec fn entry_of(item: ShowItem) -> EntryView {
    match item {
        ShowItem::Pair(key, value, _) => (key, Some(value)),
        ShowItem::Tag(tag) => (tag, None),
        ShowItem::Nothing => (Seq::empty(), None),
    }
}

/// What a section that is not typed says is preserved: every item of it, in
/// order, under its name.
pub proof fn law_untyped_sections_are_preserved(text: Seq<Seq<char>>, section: Seq<char>)
    requires
        !pairs_are_typed(section),
    ensures
        details_of(text).other.contains_key(section) == (items_of(text, section).len() > 0),
        items_of(text, section).len() > 0 ==> details_of(text).other[section] == items_of(
            text,
            section,
        ).map_values(|item: ShowItem| entry_of(item)),
{
    let items = items_of(text, section);
    lemma_items_say_something(text, section);
    lemma_untyped_entries_are_all(section, items);
    if items.len() > 0 {
        assert(details_of(text).other[section] =~= items.map_values(
            |item: ShowItem| entry_of(item),
        ));
    }
}

/// The tags of the `Model` and `Parameters` sections, which have no field for
/// them, are preserved too.
pub proof fn law_tags_without_a_field_are_preserved(text: Seq<Seq<char>>, section: Seq<char>)
    requires
        section == "Model"@ || section == "Parameters"@,
    ensures
        details_of(text).other.contains_key(section) == (tags_in(items_of(text, section)).len()
            > 0),
        details_of(text).other.contains_key(section) ==> details_of(text).other[section]
            == tags_in(items_of(text, section)).map_values(
            |tag: Seq<char>| (tag, None::<Seq<char>>),
        ),
{
    lemma_section_names();
    let items = items_of(text, section);
    lemma_untyped_entries_are_tags(section, items);
    if details_of(text).other.contains_key(section) {
        assert(details_of(text).other[section] =~= tags_in(items).map_values(
            |tag: Seq<char>| (tag, None::<Seq<char>>),
        ));
    }
}

/// The value that details keep for a key of a typed section, in a field or among
/// the extra ones.
pub open spec fn kept_value(d: DetailsView, section: Seq<char>, key: Seq<char>) -> Option<
    Seq<char>,
> {
    if section == "Model"@ {
        let m = or_else(d.model, no_model_section());
        if key == "architecture"@ {
            m.architecture
        } else if key == "parameters"@ {
            m.parameters
        } else if key == "context length"@ {
            m.context_length
        } else if key == "embedding length"@ {
            m.embedding_length
        } else if key == "quantization"@ {
            m.quantization
        } else {
            m.extra.get(key)
        }
    } else if section == "Capabilities"@ {
        or_else(d.capabilities, no_capabilities()).extra.get(key)
    } else if section == "Parameters"@ {
        let p = or_else(d.parameters, no_parameters());
        if key == "temperature"@ {
            p.temperature
        } else if key == "top_k"@ {
            p.top_k
        } else if key == "top_p"@ {
            p.top_p
        } else if key == "stop"@ {
            p.stop
        } else {
            p.extra.get(key)
        }
    } else {
        or_else(d.license, no_license()).fields.get(key)
    }
}

/// The last value that a typed section gives to a key is kept, and nothing else is.
pub proof fn law_last_values_are_kept(text: Seq<Seq<char>>, section: Seq<char>, key: Seq<char>)
    requires
        pairs_are_typed(section),
    ensures
        kept_value(details_of(text), section, key) == last_value(items_of(text, section), key),
{
    lemma_section_names();
    lemma_value_needs_pair(items_of(text, section), key);
}

/// Every line of a license is kept, in order; one with a key and a value is kept
/// among the fields as well.
pub proof fn law_license_lines_are_all_kept(text: Seq<Seq<char>>, i: int)
    requires
        0 <= i < items_of(text, "License"@).len(),
    ensures
        ({
            let items = items_of(text, "License"@);
            match details_of(text).license {
                Some(l) => {
                    &&& l.lines.len() == items.len()
                    &&& l.lines[i] == item_text(items[i])
                    &&& items[i] is Pair ==> l.fields.contains_key(items[i]->Pair_0)
                },
                None => false,
            }
        }),
{
    let items = items_of(text, "License"@);
    if items[i] is Pair {
        lemma_pair_has_value(items, i);
    }
}

proof fn lemma_pair_has_value(items: Seq<ShowItem>, i: int)
    requires
        0 <= i < items.len(),
        items[i] is Pair,
    ensures
        last_value(items, items[i]->Pair_0) is Some,
    decreases items.len(),
{
    if i < items.len() - 1 {
        lemma_pair_has_value(items.drop_last(), i);
    }
}

proof fn lemma_value_needs_pair(items: Seq<ShowItem>, key: Seq<char>)
    ensures
        last_value(items, key) is Some ==> has_pair(items),
    decreases items.len(),
{
    if items.len() > 0 && last_value(items, key) is Some {
        let front = items.drop_last();
        assert(items[items.len() - 1] == items.last());
        if items.last() !is Pair {
            lemma_value_needs_pair(front, key);
        }
        if has_pair(front) {
            let i = choose|i: int| 0 <= i < front.len() && (#[trigger] front[i]) is Pair;
            assert(items[i] is Pair);
        }
    }
}

proof fn lemma_items_say_something(text: Seq<Seq<char>>, section: Seq<char>)
    ensures
        forall|i: int|
            0 <= i < items_of(text, section).len() ==> (#[trigger] items_of(text, section)[i])
                !is Nothing,
    decreases text.len(),
{
    if text.len() > 0 {
        lemma_items_say_something(text.drop_last(), section);
    }
}

proof fn lemma_untyped_entries_are_all(section: Seq<char>, items: Seq<ShowItem>)
    requires
        !pairs_are_typed(section),
        forall|i: int| 0 <= i < items.len() ==> (#[trigger] items[i]) !is Nothing,
    ensures
        untyped_entries(section, items).len() == items.len(),
        forall|i: int|
            0 <= i < items.len() ==> (#[trigger] untyped_entries(section, items)[i]) == entry_of(
                items[i],
            ),
    decreases items.len(),
{
    if items.len() > 0 {
        let front = items.drop_last();
        assert forall|i: int| 0 <= i < front.len() implies (#[trigger] front[i]) !is Nothing by {
            assert(front[i] == items[i]);
        }
        lemma_untyped_entries_are_all(section, front);
        assert(items[items.len() - 1] == items.last());
    }
}

proof fn lemma_untyped_entries_are_tags(section: Seq<char>, items: Seq<ShowItem>)
    requires
        pairs_are_typed(section),
        !tags_are_typed(section),
    ensures
        untyped_entries(section, items) == tags_in(items).map_values(
            |tag: Seq<char>| (tag, None::<Seq<char>>),
        ),
    decreases items.len(),
{
    let entry = |tag: Seq<char>| (tag, None::<Seq<char>>);
    if items.len() > 0 {
        lemma_untyped_entries_are_tags(section, items.drop_last());
        assert(untyped_entries(section, items) =~= tags_in(items).map_values(entry));
    } else {
        assert(untyped_entries(section, items) =~= tags_in(items).map_values(entry));
    }
}

/// What a line is shows from the white space before its text: four spaces begin an
/// item, two or three a section name, and fewer nothing. The text is taken whole;
/// carriage returns behind it do not count.
pub proof fn law_indentation_tells_lines_apart(
    lead: Seq<char>,
    body: Seq<char>,
    line_end: Seq<char>,
)
    requires
        forall|i: int| 0 <= i < lead.len() ==> is_white_space(#[trigger] lead[i]),
        body.len() > 0,
        !is_white_space(body[0]),
        body.last() != '\r',
        forall|i: int| 0 <= i < line_end.len() ==> #[trigger] line_end[i] == '\r',
    ensures
        show_line(lead + body + line_end) == (if lead.len() >= 4 && lead[0] == ' ' && lead[1] == ' '
            && lead[2] == ' ' && lead[3] == ' ' {
            ShowLine::Item(body)
        } else if lead.len() >= 2 && lead[0] == ' ' && lead[1] == ' ' {
            ShowLine::Header(trimmed_end(body))
        } else {
            ShowLine::Skipped
        }),
{
    reveal_strlit("    ");
    reveal_strlit("  ");
    let line = lead + body;
    assert(line.last() == body.last());
    law_trailing_run_is_taken_off(line, line_end, '\r');
    lemma_trimmed_start_skips_blank(lead, body);
    assert(!is_blank(line)) by {
        assert(line[lead.len() as int] == body[0]);
    }
    assert(trimmed_start(line) == body);
    let four = "    "@;
    let two = "  "@;
    assert(four =~= seq![' ', ' ', ' ', ' ']);
    assert(two =~= seq![' ', ' ']);
    let n = lead.len() as int;
    assert(line[n] == body[0]);
    assert(n > 0 ==> line[0] == lead[0]);
    assert(n > 1 ==> line[1] == lead[1]);
    assert(n > 2 ==> line[2] == lead[2]);
    assert(n > 3 ==> line[3] == lead[3]);
    let item = n >= 4 && lead[0] == ' ' && lead[1] == ' ' && lead[2] == ' ' && lead[3] == ' ';
    let header = n >= 2 && lead[0] == ' ' && lead[1] == ' ';
    assert(four.is_prefix_of(line) == item) by {
        if four.is_prefix_of(line) {
            assert(line.subrange(0, 4) == four);
            assert(line[0] == line.subrange(0, 4)[0]);
            assert(line[1] == line.subrange(0, 4)[1]);
            assert(line[2] == line.subrange(0, 4)[2]);
            assert(line[3] == line.subrange(0, 4)[3]);
            assert(is_white_space(' '));
        }
        if item {
            assert(line.subrange(0, 4) =~= four);
        }
    }
    assert(two.is_prefix_of(line) == header) by {
        if two.is_prefix_of(line) {
            assert(line.subrange(0, 2) == two);
            assert(line[0] == line.subrange(0, 2)[0]);
            assert(line[1] == line.subrange(0, 2)[1]);
            assert(is_white_space(' '));
        }
        if header {
            assert(line.subrange(0, 2) =~= two);
        }
    }
}

/// A line of white space alone says nothing.
pub proof fn law_blank_lines_say_nothing(raw: Seq<char>)
    requires
        forall|i: int| 0 <= i < raw.len() ==> is_white_space(#[trigger] raw[i]),
    ensures
        show_line(raw) == ShowLine::Skipped,
    decreases raw.len(),
{
    lemma_without_trailing_is_prefix(raw, '\r');
    let line = without_trailing(raw, '\r');
    assert forall|i: int| 0 <= i < line.len() implies is_white_space(#[trigger] line[i]) by {
        assert(line[i] == raw[i]);
    }
}

proof fn lemma_without_trailing_is_prefix(s: Seq<char>, c: char)
    ensures
        without_trailing(s, c).len() <= s.len(),
        forall|i: int|
            0 <= i < without_trailing(s, c).len() ==> #[trigger] without_trailing(s, c)[i] == s[i],
    decreases s.len(),
{
    if s.len() > 0 && s.last() == c {
        lemma_without_trailing_is_prefix(s.drop_last(), c);
    }
}

/// A line without two spaces in a row is never split: it is one text, whole but for
/// the white space at its ends.
pub proof fn law_lines_without_a_gap_are_whole(content: Seq<char>)
    requires
        forall|i: int|
            0 <= i < content.len() - 1 ==> !(#[trigger] content[i] == ' ' && content[i + 1] == ' '),
    ensures
        trimmed(content).len() > 0 ==> show_item(content) == ShowItem::Tag(trimmed(content)),
        trimmed(content).len() == 0 ==> show_item(content) == ShowItem::Nothing,
{
    law_gap_is_two_spaces(content, 0);
}

/// A line is split at its first two spaces in a row, and nowhere else: the key is what
/// stands before them, the value what stands behind the gap, both without white space
/// at the ends. Without a value the key is a text of its own, and without a key the
/// line is.
pub proof fn law_first_gap_parts_key_and_value(key: Seq<char>, gap: Seq<char>, rest: Seq<char>)
    requires
        forall|i: int|
            0 <= i < key.len() - 1 ==> !(#[trigger] key[i] == ' ' && key[i + 1] == ' '),
        key.len() > 0 ==> key.last() != ' ',
        gap.len() >= 2,
        forall|i: int| 0 <= i < gap.len() ==> #[trigger] gap[i] == ' ',
    ensures
        show_item(key + gap + rest) == (if trimmed_end(key).len() > 0 {
            if trimmed(rest).len() > 0 {
                ShowItem::Pair(trimmed_end(key), trimmed(rest), trimmed(key + gap + rest))
            } else {
                ShowItem::Tag(trimmed_end(key))
            }
        } else if trimmed(key + gap + rest).len() > 0 {
            ShowItem::Tag(trimmed(key + gap + rest))
        } else {
            ShowItem::Nothing
        }),
{
    let line = key + gap + rest;
    let n = key.len() as int;
    law_gap_is_two_spaces(line, 0);
    assert(line[n] == gap[0]);
    assert(line[n + 1] == gap[1]);
    match gap_from(line, 0) {
        Some(i) => {
            if i < n {
                assert(line[i] == key[i]);
                if i + 1 < n {
                    assert(line[i + 1] == key[i + 1]);
                } else {
                    assert(key.last() == key[i]);
                }
            }
            assert(i == n);
        },
        None => {},
    }
    assert(line.take(n) =~= key);
    assert(line.skip(n) =~= gap + rest);
    assert(is_blank(gap));
    lemma_trimmed_start_skips_blank(gap, rest);
}

/// The section of an item is the one that was named last, and an item belongs to that
/// section alone. Nothing else changes with one more line.
pub proof fn law_items_belong_to_the_section_named_last(
    text: Seq<Seq<char>>,
    raw: Seq<char>,
    section: Seq<char>,
)
    ensures
        current_section(Seq::empty()) is None,
        items_of(Seq::empty(), section).len() == 0,
        match show_line(raw) {
            ShowLine::Header(name) => {
                &&& current_section(text + seq![raw]) == Some(name)
                &&& items_of(text + seq![raw], section) == items_of(text, section)
            },
            ShowLine::Item(content) => {
                &&& current_section(text + seq![raw]) == current_section(text)
                &&& items_of(text + seq![raw], section) == (if current_section(text) == Some(
                    section,
                ) {
                    items_of(text, section) + seq![show_item(content)]
                } else {
                    items_of(text, section)
                })
            },
            ShowLine::Skipped => {
                &&& current_section(text + seq![raw]) == current_section(text)
                &&& items_of(text + seq![raw], section) == items_of(text, section)
            },
        },
{
    let more = text + seq![raw];
    assert(more.drop_last() =~= text);
    assert(more.last() == raw);
    law_item_lines_count(raw);
    match show_line(raw) {
        ShowLine::Item(content) => {
            assert(items_of(text, section).push(show_item(content)) =~= items_of(text, section)
                + seq![show_item(content)]);
        },
        _ => {},
    }
}

/// No lines give no details, and one more line changes the details by its item alone.
pub proof fn law_details_grow_line_by_line(text: Seq<Seq<char>>, raw: Seq<char>)
    ensures
        details_of(Seq::empty()) == no_details(),
        details_of(text + seq![raw]) == (match (show_line(raw), current_section(text)) {
            (ShowLine::Item(content), Some(section)) => with_item(
                details_of(text),
                section,
                show_item(content),
            ),
            _ => details_of(text),
        }),
{
    lemma_no_lines();
    lemma_one_more_line(text, raw);
    assert(text + seq![raw] =~= text.push(raw));
}

/// What a key with a value changes, section by section: the field of that name, or the
/// entry of that key among the extra ones, gets the value, and all else stays. In a
/// license the line is kept too; in a section that is not typed the pair is added to
/// what the section holds.
pub proof fn law_pairs_change_one_value(
    d: DetailsView,
    section: Seq<char>,
    key: Seq<char>,
    value: Seq<char>,
    line: Seq<char>,
)
    ensures
        ({
            let e = with_item(d, section, ShowItem::Pair(key, value, line));
            let m = or_else(d.model, no_model_section());
            let p = or_else(d.parameters, no_parameters());
            let c = or_else(d.capabilities, no_capabilities());
            let l = or_else(d.license, no_license());
            &&& section != "Model"@ ==> e.model == d.model
            &&& section != "Capabilities"@ ==> e.capabilities == d.capabilities
            &&& section != "Parameters"@ ==> e.parameters == d.parameters
            &&& section != "License"@ ==> e.license == d.license
            &&& section == "Model"@ ==> {
                &&& e.model is Some
                &&& e.model->0.architecture == (if key == "architecture"@ {
                    Some(value)
                } else {
                    m.architecture
                })
                &&& e.model->0.parameters == (if key == "parameters"@ {
                    Some(value)
                } else {
                    m.parameters
                })
                &&& e.model->0.context_length == (if key == "context length"@ {
                    Some(value)
                } else {
                    m.context_length
                })
                &&& e.model->0.embedding_length == (if key == "embedding length"@ {
                    Some(value)
                } else {
                    m.embedding_length
                })
                &&& e.model->0.quantization == (if key == "quantization"@ {
                    Some(value)
                } else {
                    m.quantization
                })
                &&& e.model->0.extra == (if key == "architecture"@ || key == "parameters"@ || key
                    == "context length"@ || key == "embedding length"@ || key == "quantization"@ {
                    m.extra
                } else {
                    m.extra.insert(key, value)
                })
            }
            &&& section == "Parameters"@ ==> {
                &&& e.parameters is Some
                &&& e.parameters->0.temperature == (if key == "temperature"@ {
                    Some(value)
                } else {
                    p.temperature
                })
                &&& e.parameters->0.top_k == (if key == "top_k"@ {
                    Some(value)
                } else {
                    p.top_k
                })
                &&& e.parameters->0.top_p == (if key == "top_p"@ {
                    Some(value)
                } else {
                    p.top_p
                })
                &&& e.parameters->0.stop == (if key == "stop"@ {
                    Some(value)
                } else {
                    p.stop
                })
                &&& e.parameters->0.extra == (if key == "temperature"@ || key == "top_k"@ || key
                    == "top_p"@ || key == "stop"@ {
                    p.extra
                } else {
                    p.extra.insert(key, value)
                })
            }
            &&& section == "Capabilities"@ ==> {
                &&& e.capabilities is Some
                &&& e.capabilities->0.tags == c.tags
                &&& e.capabilities->0.extra == c.extra.insert(key, value)
            }
            &&& section == "License"@ ==> {
                &&& e.license is Some
                &&& e.license->0.lines == l.lines.push(line)
                &&& e.license->0.fields == l.fields.insert(key, value)
            }
            &&& if section == "Model"@ || section == "Capabilities"@ || section == "Parameters"@
                || section == "License"@ {
                e.other == d.other
            } else {
                e.other == d.other.insert(
                    section,
                    if d.other.contains_key(section) {
                        d.other[section].push((key, Some(value)))
                    } else {
                        seq![(key, Some(value))]
                    },
                )
            }
        }),
{
    lemma_section_names();
    lemma_key_names();
}

/// What a text without a value changes: it is added to the tags of the capabilities, to
/// the lines of the license or to what any other section holds, and all else stays. An
/// item that says nothing changes nothing.
pub proof fn law_tags_are_added_to_their_section(
    d: DetailsView,
    section: Seq<char>,
    tag: Seq<char>,
)
    ensures
        with_item(d, section, ShowItem::Nothing) == d,
        ({
            let e = with_item(d, section, ShowItem::Tag(tag));
            let c = or_else(d.capabilities, no_capabilities());
            let l = or_else(d.license, no_license());
            &&& e.model == d.model
            &&& e.parameters == d.parameters
            &&& if section == "Capabilities"@ {
                &&& e.capabilities is Some
                &&& e.capabilities->0.tags == c.tags.push(tag)
                &&& e.capabilities->0.extra == c.extra
            } else {
                e.capabilities == d.capabilities
            }
            &&& if section == "License"@ {
                &&& e.license is Some
                &&& e.license->0.lines == l.lines.push(tag)
                &&& e.license->0.fields == l.fields
            } else {
                e.license == d.license
            }
            &&& if section == "Capabilities"@ || section == "License"@ {
                e.other == d.other
            } else {
                e.other == d.other.insert(
                    section,
                    if d.other.contains_key(section) {
                        d.other[section].push((tag, None))
                    } else {
                        seq![(tag, None)]
                    },
                )
            }
        }),
{
    lemma_section_names();
}

/// What there is counts, and the substitute only where there is nothing.
pub proof fn law_substitutes_count_for_nothing_only<T>(value: T, substitute: T)
    ensures
        or_else(Some(value), substitute) == value,
        or_else(None, substitute) == substitute,
{
}

}
