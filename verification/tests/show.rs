use ollama_controls::show::{apply_show_line, parse_model_show, push_capability_tag, push_other, split_trait_value_line};
use ollama_controls::string_map::StringMap;
use ollama_controls::text::chars_of;
use ollama_controls::{to_model_details, ModelDetails};

#[test]
fn to_model_details_parses_sections_and_pairs() {
    let sample = r"  Model
    architecture        gemma3    
    context length      131072    

  Capabilities
    completion    
    vision        

  Parameters
    temperature    1                  
    unknown_param  x

  License
    Some license text
";
    let d = to_model_details(Ok(sample.to_string()));
    let m = d.model.as_ref().unwrap();
    assert_eq!(m.architecture.as_deref(), Some("gemma3"));
    assert_eq!(m.context_length.as_deref(), Some("131072"));

    let caps = d.capabilities.as_ref().unwrap();
    assert!(caps.tags.contains(&"completion".to_string()));
    assert!(caps.tags.contains(&"vision".to_string()));

    let p = d.parameters.as_ref().unwrap();
    assert_eq!(p.temperature.as_deref(), Some("1"));
    assert_eq!(p.extra.get("unknown_param"), Some(&"x".to_string()));

    let l = d.license.as_ref().unwrap();
    assert!(l.lines.iter().any(|s| s.contains("Some license text")));
}

#[test]
fn to_model_details_err_returns_empty() {
    assert_eq!(to_model_details(Err("nope".to_string())), ModelDetails::default());
}

#[test]
fn every_typed_field_is_read() {
    let d = parse_model_show(
        "  Model\n    architecture  a\n    parameters  4.3B\n    context length  8192\n    embedding length  2560\n    quantization  Q4_K_M\n    rope  7\n  Parameters\n    temperature  1\n    top_k  64\n    top_p  0.95\n    stop  \"<end>\"\n",
    );
    let m = d.model.as_ref().unwrap();
    assert_eq!(m.architecture.as_deref(), Some("a"));
    assert_eq!(m.parameters.as_deref(), Some("4.3B"));
    assert_eq!(m.context_length.as_deref(), Some("8192"));
    assert_eq!(m.embedding_length.as_deref(), Some("2560"));
    assert_eq!(m.quantization.as_deref(), Some("Q4_K_M"));
    assert_eq!(m.extra.get("rope"), Some(&"7".to_string()));
    assert_eq!(m.extra.len(), 1);
    let p = d.parameters.as_ref().unwrap();
    assert_eq!(p.temperature.as_deref(), Some("1"));
    assert_eq!(p.top_k.as_deref(), Some("64"));
    assert_eq!(p.top_p.as_deref(), Some("0.95"));
    assert_eq!(p.stop.as_deref(), Some("\"<end>\""));
    assert!(p.extra.is_empty());
    assert!(d.capabilities.is_none());
    assert!(d.license.is_none());
    assert!(d.other.is_empty());
}

#[test]
fn later_values_win() {
    let d = parse_model_show("  Model\n    architecture  a\n    x  1\n    architecture  b\n    x  2\n");
    let m = d.model.as_ref().unwrap();
    assert_eq!(m.architecture.as_deref(), Some("b"));
    assert_eq!(m.extra.get("x"), Some(&"2".to_string()));
    assert_eq!(m.extra.len(), 1);
}

#[test]
fn unknown_sections_are_preserved() {
    let d = parse_model_show("  Projector\n    architecture    clip\n    loaded\n    loaded\n");
    assert_eq!(
        d.other.get("Projector"),
        Some(&vec![
            ("architecture".to_string(), Some("clip".to_string())),
            ("loaded".to_string(), None),
            ("loaded".to_string(), None),
        ])
    );
    assert!(d.model.is_none());
}

#[test]
fn tags_in_typed_sections_without_tags_are_preserved() {
    let d = parse_model_show("  Model\n    gemma3\n  Parameters\n    mirostat    \n");
    assert_eq!(d.other.get("Model"), Some(&vec![("gemma3".to_string(), None)]));
    assert_eq!(d.other.get("Parameters"), Some(&vec![("mirostat".to_string(), None)]));
    assert!(d.model.is_none());
    assert!(d.parameters.is_none());
}

#[test]
fn sections_may_be_named_again() {
    let d = parse_model_show("  Capabilities\n    a\n  Other\n    x\n  Capabilities\n    b\n");
    assert_eq!(d.capabilities.as_ref().unwrap().tags, vec!["a".to_string(), "b".to_string()]);
    assert_eq!(d.other.get("Other"), Some(&vec![("x".to_string(), None)]));
}

#[test]
fn capabilities_with_a_value_are_extra() {
    let d = parse_model_show("  Capabilities\n    tools  yes\n    vision\n");
    let c = d.capabilities.as_ref().unwrap();
    assert_eq!(c.tags, vec!["vision".to_string()]);
    assert_eq!(c.extra.get("tools"), Some(&"yes".to_string()));
}

#[test]
fn license_lines_and_fields() {
    let d = parse_model_show("  License\n    Apache License    \n    Version  2.0\n    Terms apply\n");
    let l = d.license.as_ref().unwrap();
    assert_eq!(
        l.lines,
        vec!["Apache License".to_string(), "Version  2.0".to_string(), "Terms apply".to_string()]
    );
    assert_eq!(l.fields.get("Version"), Some(&"2.0".to_string()));
    assert_eq!(l.fields.len(), 1);
}

#[test]
fn a_license_line_with_a_value_is_kept_twice() {
    let mut details = ModelDetails::default();
    apply_show_line(&mut details, "License", &chars_of("Copyright    Someone  else   "));
    let l = details.license.as_ref().unwrap();
    assert_eq!(l.lines, vec!["Copyright    Someone  else".to_string()]);
    assert_eq!(l.fields.get("Copyright"), Some(&"Someone  else".to_string()));
    assert_eq!(details, parse_model_show("  License\n    Copyright    Someone  else   \n"));
}

#[test]
fn items_before_a_section_and_unindented_lines_do_not_count() {
    let d = parse_model_show("    lost  1\nnot indented\n one space\n\t  tab\n");
    assert_eq!(d, ModelDetails::default());
}

#[test]
fn three_spaces_name_a_section() {
    let d = parse_model_show("   Capabilities  \n    vision\n");
    assert_eq!(d.capabilities.as_ref().unwrap().tags, vec!["vision".to_string()]);
}

#[test]
fn a_section_without_items_leaves_nothing() {
    assert_eq!(parse_model_show("  Model\n  License\n"), ModelDetails::default());
    assert_eq!(parse_model_show(""), ModelDetails::default());
}

#[test]
fn carriage_returns_do_not_count() {
    let unix = parse_model_show("  Model\n    architecture  a\n  Capabilities\n    vision\n");
    let dos = parse_model_show("  Model\r\n    architecture  a\r\n  Capabilities\r\r\n    vision\r");
    assert_eq!(unix, dos);
}

#[test]
fn from_show_output_parses() {
    let text = "  Capabilities\n    vision\n";
    assert_eq!(ModelDetails::from_show_output(text), parse_model_show(text));
    assert_eq!(to_model_details(Ok(text.to_string())), parse_model_show(text));
}

#[test]
fn key_and_value_are_parted_by_two_spaces() {
    let split = |s: &str| split_trait_value_line(&chars_of(s));
    assert_eq!(
        split("context length      131072    "),
        Some(("context length".to_string(), "131072".to_string()))
    );
    assert_eq!(split("completion    "), Some(("completion".to_string(), String::new())));
    assert_eq!(split("a\u{a0}  b"), Some(("a".to_string(), "b".to_string())));
    assert_eq!(split("one word"), None);
    assert_eq!(split("  value"), None);
    assert_eq!(split(""), None);
}

#[test]
fn parts_of_the_parser_update_in_place() {
    let mut slot = None;
    push_capability_tag(&mut slot, "a".to_string());
    push_capability_tag(&mut slot, "b".to_string());
    assert_eq!(slot.unwrap().tags, vec!["a".to_string(), "b".to_string()]);

    let mut other = StringMap::new();
    push_other(&mut other, "S", "k".to_string(), Some("v".to_string()));
    push_other(&mut other, "S", "t".to_string(), None);
    assert_eq!(
        other.get("S"),
        Some(&vec![("k".to_string(), Some("v".to_string())), ("t".to_string(), None)])
    );

    let mut details = ModelDetails::default();
    apply_show_line(&mut details, "Model", &chars_of("architecture  llama"));
    apply_show_line(&mut details, "Model", &chars_of("   "));
    assert_eq!(details, parse_model_show("  Model\n    architecture  llama\n"));
}

#[test]
fn details_compare_without_order() {
    let one = parse_model_show("  Model\n    x  1\n    y  2\n  A\n    a\n  B\n    b\n");
    let other = parse_model_show("  B\n    b\n  A\n    a\n  Model\n    y  2\n    x  1\n");
    let different = parse_model_show("  B\n    b\n  A\n    a\n  Model\n    y  2\n    x  2\n");
    assert_eq!(one, other);
    assert_ne!(one, different);
}

#[test]
fn string_maps_hold_one_value_for_a_key() {
    let mut m: StringMap<String> = StringMap::new();
    assert!(m.is_empty());
    m.insert("a".to_string(), "1".to_string());
    m.insert("b".to_string(), "2".to_string());
    m.insert("a".to_string(), "3".to_string());
    assert_eq!(m.len(), 2);
    assert_eq!(m.get("a"), Some(&"3".to_string()));
    assert!(m.contains_key("b"));
    assert!(!m.contains_key("c"));
    let copy = m.clone();
    assert_eq!(copy, m);
    assert_eq!(m.remove("a"), Some("3".to_string()));
    assert_eq!(m.remove("a"), None);
    assert_eq!(m.entries(), &vec![("b".to_string(), "2".to_string())]);
    assert_ne!(copy, m);
}
