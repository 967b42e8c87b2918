use ollama_controls::api::{pull_line, trim_slash, ApiRequest, Method, RequestBody};
use ollama_controls::text::{chars_of, string_of};
use ollama_controls::{ollama_base_url, ListedModel, OllamaClient, PullProgressLine, DEFAULT_OLLAMA_PORT};

fn client() -> OllamaClient {
    OllamaClient::new("http://host:1/".to_string())
}

fn listed(name: &str) -> ListedModel {
    ListedModel {
        name: name.to_string(),
        model: format!("model of {}", name),
        modified_at: String::new(),
        size: 1,
        digest: String::new(),
        details: None,
    }
}

fn progress(error: Option<&str>) -> PullProgressLine {
    PullProgressLine {
        status: "pulling".to_string(),
        digest: None,
        total: None,
        completed: None,
        error: error.map(|e| e.to_string()),
    }
}

fn shown(request: &ApiRequest) -> String {
    format!("{:?}", request)
}

#[test]
fn ollama_base_url_parses() {
    assert_eq!(
        ollama_base_url("192.168.1.5", Some(8080)),
        "http://192.168.1.5:8080"
    );
    assert_eq!(
        ollama_base_url("http://10.0.0.1:11434", None),
        "http://10.0.0.1:11434"
    );
}

#[test]
fn base_url_has_the_default_port() {
    assert_eq!(DEFAULT_OLLAMA_PORT, 11434);
    assert_eq!(ollama_base_url("host", None), "http://host:11434");
    assert_eq!(ollama_base_url("host", Some(0)), "http://host:0");
    assert_eq!(ollama_base_url("host", Some(65535)), "http://host:65535");
    assert_eq!(ollama_base_url("", None), "http://:11434");
    assert_eq!(ollama_base_url("host/", Some(10)), "http://host/:10");
}

#[test]
fn a_scheme_overrides_the_port() {
    assert_eq!(ollama_base_url("https://a.b//", Some(1)), "https://a.b");
    assert_eq!(ollama_base_url("https://a.b", Some(2)), "https://a.b");
    assert_eq!(ollama_base_url("HTTP://a", Some(3)), "http://HTTP://a:3");
}

#[test]
fn white_space_round_a_host_does_not_count() {
    assert_eq!(ollama_base_url(" \thost\n", Some(5)), "http://host:5");
    assert_eq!(ollama_base_url("  http://host/ ", None), "http://host");
}

#[test]
fn base_url_is_stable() {
    let url = ollama_base_url("host", Some(7));
    assert_eq!(ollama_base_url(&url, Some(8)), url);
    // Without its slashes this one is no longer a URL with a scheme.
    assert_eq!(ollama_base_url("http://", None), "http:");
    assert_eq!(ollama_base_url("http:", None), "http://http::11434");
}

#[test]
fn trailing_slashes_do_not_count() {
    assert_eq!(string_of(trim_slash(&chars_of("a/b///"))), "a/b");
    assert_eq!(OllamaClient::new("http://h///".to_string()).base_url(), "http://h");
    assert_eq!(OllamaClient::new("http://h".to_string()).base_url(), "http://h");
    assert_eq!(OllamaClient::new("///".to_string()).base_url(), "");
}

#[test]
fn clients_are_built_from_the_environment() {
    assert_eq!(OllamaClient::localhost().base_url(), "http://127.0.0.1:11434");
    assert_eq!(OllamaClient::from_env(None).base_url(), "http://127.0.0.1:11434");
    assert_eq!(
        OllamaClient::from_env(Some(String::new())).base_url(),
        "http://127.0.0.1:11434"
    );
    assert_eq!(
        OllamaClient::from_env(Some("http://10.0.0.2:99/".to_string())).base_url(),
        "http://10.0.0.2:99"
    );
    assert_eq!(OllamaClient::from_env(Some("host:1".to_string())).base_url(), "host:1");
    assert_eq!(client().clone().base_url(), "http://host:1");
}

#[test]
fn paths_stand_behind_the_base_url() {
    assert_eq!(client().url("/api/x"), "http://host:1/api/x");
}

#[test]
fn requests_without_a_body() {
    let r = client().list_models();
    assert_eq!(r.method, Method::Get);
    assert_eq!(r.url, "http://host:1/api/tags");
    assert!(matches!(r.body, RequestBody::Empty));
    let r = client().list_running();
    assert_eq!(r.method, Method::Get);
    assert_eq!(r.url, "http://host:1/api/ps");
    assert!(matches!(r.body, RequestBody::Empty));
}

#[test]
fn show_asks_for_a_name() {
    let r = client().show("m");
    assert_eq!(r.method, Method::Post);
    assert_eq!(r.url, "http://host:1/api/show");
    assert!(matches!(r.body, RequestBody::Show { name } if name == "m"));
}

#[test]
fn pulls_stream_or_wait() {
    let r = client().pull_stream("m");
    assert_eq!(r.method, Method::Post);
    assert_eq!(r.url, "http://host:1/api/pull");
    assert!(matches!(r.body, RequestBody::Pull { name, stream: true } if name == "m"));
    let r = client().pull_blocking("m");
    assert_eq!(r.method, Method::Post);
    assert_eq!(r.url, "http://host:1/api/pull");
    assert!(matches!(r.body, RequestBody::Pull { name, stream: false } if name == "m"));
}

#[test]
fn delete_copy_and_unload() {
    let r = client().delete_model("m");
    assert_eq!(r.method, Method::Delete);
    assert_eq!(r.url, "http://host:1/api/delete");
    assert!(matches!(r.body, RequestBody::Delete { name } if name == "m"));
    let r = client().copy_model("a", "b");
    assert_eq!(r.method, Method::Post);
    assert_eq!(r.url, "http://host:1/api/copy");
    assert!(matches!(
        r.body,
        RequestBody::Copy { source, destination } if source == "a" && destination == "b"
    ));
    let r = client().unload_model("m");
    assert_eq!(r.method, Method::Post);
    assert_eq!(r.url, "http://host:1/api/generate");
    assert!(matches!(
        r.body,
        RequestBody::GenerateUnload { model, prompt, keep_alive: 0 } if model == "m" && prompt.is_empty()
    ));
}

#[test]
fn create_sends_the_base_and_the_rest() {
    let r = client().create_model("new", " FROM base\nSYSTEM x").unwrap();
    assert_eq!(r.method, Method::Post);
    assert_eq!(r.url, "http://host:1/api/create");
    match r.body {
        RequestBody::Create { name, from, modelfile, stream } => {
            assert_eq!(name, "new");
            assert_eq!(from.as_deref(), Some("base"));
            assert_eq!(modelfile.as_deref(), Some("SYSTEM x\n"));
            assert!(stream);
        }
        _ => panic!("no body for a creation"),
    }
}

#[test]
fn create_refuses_a_bad_modelfile() {
    let r = client().create_model("new", "");
    assert_eq!(r.err(), Some("modelfile is empty".to_string()));
    let r = client().create_model("new", "SYSTEM x");
    assert_eq!(
        r.err(),
        Some("modelfile must start with `FROM <model>` (first line: \"SYSTEM x\")".to_string())
    );
}

#[test]
fn from_line_alone_creates_from_base() {
    let by_file = client().create_model("new", "FROM base:1").unwrap();
    let by_base = client().create_from_base("new", "base:1");
    assert_eq!(shown(&by_file), shown(&by_base));
    match by_base.body {
        RequestBody::Create { name, from, modelfile, stream } => {
            assert_eq!(name, "new");
            assert_eq!(from.as_deref(), Some("base:1"));
            assert_eq!(modelfile, None);
            assert!(stream);
        }
        _ => panic!("no body for a creation"),
    }
}

#[test]
fn an_error_stops_a_pull() {
    assert_eq!(pull_line(&progress(None)), Ok(()));
    assert_eq!(pull_line(&progress(Some("no such model"))), Err("no such model".to_string()));
    assert_eq!(pull_line(&progress(Some(""))), Err(String::new()));
}

#[test]
fn all_listed_models_are_updated() {
    let mut batch = client().update_all_models(&vec![listed("a"), listed("b")]);
    assert_eq!(batch.current(), Some("a"));
    batch.record(Ok(()));
    assert_eq!(batch.current(), Some("b"));
    batch.record(Ok(()));
    assert_eq!(batch.current(), None);
    assert_eq!(batch.finish(), Ok(vec!["a".to_string(), "b".to_string()]));
}

#[test]
fn kept_models_are_not_removed() {
    let models = vec![listed("a"), listed("b"), listed("c"), listed("b")];
    let batch = client().remove_all_except(&models, &["b", "x"]);
    assert_eq!(batch.names(), &vec!["a".to_string(), "c".to_string()]);
    let batch = client().remove_all_except(&models, &[]);
    assert_eq!(batch.names().len(), 4);
    let batch = client().remove_all_except(&models, &["a", "b", "c"]);
    assert_eq!(batch.current(), None);
    assert_eq!(batch.finish(), Ok(vec![]));
}

#[test]
fn the_first_failure_ends_a_batch() {
    let mut batch = client().remove_all_except(&vec![listed("a"), listed("b")], &[]);
    batch.record(Err("busy".to_string()));
    assert_eq!(batch.current(), None);
    batch.record(Ok(()));
    batch.record(Err("later".to_string()));
    assert_eq!(batch.finish(), Err("busy".to_string()));
}

#[test]
fn an_unfinished_batch_gives_what_is_done() {
    let mut batch = client().remove_all_except(&vec![listed("a"), listed("b")], &[]);
    batch.record(Ok(()));
    assert_eq!(batch.finish(), Ok(vec!["a".to_string()]));
}
