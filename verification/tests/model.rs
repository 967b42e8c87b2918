use ollama_controls::{Model, ModelDetails};

fn model(name: &str, param_count: &str, variant: &str, quantization: &str) -> Model {
    Model::new(
        name.to_string(),
        param_count.to_string(),
        variant.to_string(),
        quantization.to_string(),
    )
}

#[test]
fn model_from_str_sets_details_none() {
    let m = Model::from_str("foo:7b-instruct-q4".to_string()).unwrap();
    assert!(m.details.is_none());
    assert_eq!(m.name, "foo");
}

#[test]
fn model_from_str_reads_all_fields() {
    let m = Model::from_str("llama3.2:3b-instruct-q4_K_M".to_string()).unwrap();
    assert_eq!(m, model("llama3.2", "3b", "instruct", "q4_K_M"));
}

#[test]
fn model_from_str_needs_a_colon() {
    assert_eq!(
        Model::from_str("llama3".to_string()),
        Err("expected name:param-variant-quantization".to_string())
    );
    assert_eq!(
        Model::from_str(String::new()),
        Err("expected name:param-variant-quantization".to_string())
    );
}

#[test]
fn model_from_str_needs_three_fields() {
    assert_eq!(
        Model::from_str("llama3:latest".to_string()),
        Err("expected param-variant-quantization after ':'".to_string())
    );
    assert_eq!(
        Model::from_str("llama3:3b-instruct".to_string()),
        Err("expected param-variant-quantization after ':'".to_string())
    );
}

#[test]
fn model_from_str_drops_what_is_left_over() {
    let m = Model::from_str("a:b-c-d-e:f".to_string()).unwrap();
    assert_eq!(m, model("a", "b", "c", "d"));
}

#[test]
fn model_from_str_takes_empty_fields() {
    let m = Model::from_str(":--".to_string()).unwrap();
    assert_eq!(m, model("", "", "", ""));
}

#[test]
fn extended_name_is_the_tag() {
    assert_eq!(
        model("llama3.2", "3b", "instruct", "q4_K_M").get_extended_name(),
        "llama3.2:3b-instruct-q4_K_M"
    );
    assert_eq!(model("", "", "", "").get_extended_name(), ":--");
}

#[test]
fn tag_is_read_back_as_identity() {
    let m = model("my-model", "7b", "chat", "q8_0");
    assert_eq!(Model::from_str(m.get_extended_name()).unwrap(), m);
}

#[test]
fn identity_gives_its_tag_back() {
    let tag = "x-y:1-2-3";
    let m = Model::from_str(tag.to_string()).unwrap();
    assert_eq!(m.get_extended_name(), tag);
}

#[test]
fn with_details_keeps_the_identity() {
    let details = ModelDetails::from_show_output("  Capabilities\n    vision\n");
    let m = model("a", "b", "c", "d").with_details(details.clone());
    assert_eq!(m.get_extended_name(), "a:b-c-d");
    assert_eq!(m.details, Some(details));
}

#[test]
fn models_differ_by_their_details() {
    let plain = model("a", "b", "c", "d");
    let empty = plain.clone().with_details(ModelDetails::default());
    assert_ne!(plain, empty);
    assert_eq!(empty, empty.clone());
}
