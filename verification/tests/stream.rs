use ollama_controls::json::{bad_line_message, check_create_value, create_line, stop_on_error};
use ollama_controls::ndjson::NdjsonReader;

/// Reads lines one after the other, as a buffered reader gives them, and handles
/// each with `handle`.
fn run(lines: &[&str], handle: fn(&str) -> Result<(), String>) -> (Vec<String>, Option<Result<(), String>>) {
    let mut reader = NdjsonReader::new();
    let mut handled = Vec::new();
    let mut next = 0;
    while !reader.is_done() && next <= lines.len() {
        let line = if next < lines.len() { lines[next] } else { "" };
        next += 1;
        if let Some(text) = reader.on_read(Ok(line.len()), line) {
            reader.on_handled(handle(&text));
            handled.push(text);
        }
    }
    (handled, reader.finish())
}

#[test]
fn every_line_is_handled() {
    let (handled, end) = run(&["{\"a\":1}\n", "  \r\n", "\n", "\t{}  \n", "last"], |_| Ok(()));
    assert_eq!(handled, vec!["{\"a\":1}".to_string(), "{}".to_string(), "last".to_string()]);
    assert_eq!(end, Some(Ok(())));
}

#[test]
fn an_empty_stream_ends_well() {
    let (handled, end) = run(&[], |_| Ok(()));
    assert!(handled.is_empty());
    assert_eq!(end, Some(Ok(())));
}

#[test]
fn the_first_error_ends_the_stream() {
    let (handled, end) = run(&["a\n", "b\n", "c\n"], |t| {
        if t == "b" { Err("at b".to_string()) } else { Ok(()) }
    });
    assert_eq!(handled, vec!["a".to_string(), "b".to_string()]);
    assert_eq!(end, Some(Err("at b".to_string())));
}

#[test]
fn a_read_error_ends_the_stream() {
    let mut reader = NdjsonReader::new();
    assert_eq!(reader.on_read(Err("reset".to_string()), "partial"), None);
    assert!(reader.is_done());
    assert_eq!(reader.finish(), Some(Err("reset".to_string())));
}

#[test]
fn ended_streams_stay_ended() {
    let mut reader = NdjsonReader::new();
    assert_eq!(reader.on_read(Ok(0), ""), None);
    assert_eq!(reader.on_read(Ok(3), "abc"), None);
    reader.on_handled(Err("late".to_string()));
    assert_eq!(reader.on_read(Err("later".to_string()), ""), None);
    assert_eq!(reader.finish(), Some(Ok(())));
}

#[test]
fn a_stream_in_progress_has_no_end() {
    let mut reader = NdjsonReader::new();
    assert_eq!(reader.on_read(Ok(2), "x\n"), Some("x".to_string()));
    reader.on_handled(Ok(()));
    assert!(!reader.is_done());
    assert_eq!(reader.finish(), None);
}

#[test]
fn create_lines_are_json_values() {
    let value = create_line("{\"status\": \"success\"}").unwrap();
    assert_eq!(value.get("status").and_then(|s| s.as_str()), Some("success"));
    assert_eq!(create_line("[1, 2]").unwrap().as_array().map(|a| a.len()), Some(2));
    assert!(create_line("\"error\"").is_ok());
}

#[test]
fn an_error_text_stops_a_creation() {
    assert_eq!(create_line("{\"error\":\"no space\"}"), Err("no space".to_string()));
    assert_eq!(create_line("{\"status\":\"x\",\"error\":\"\"}"), Err(String::new()));
    assert!(create_line("{\"error\": 5}").is_ok());
    assert!(create_line("{\"error\": null}").is_ok());
    assert!(create_line("{\"inner\": {\"error\": \"x\"}}").is_ok());
}

#[test]
fn a_line_that_is_not_json_is_quoted() {
    let expected = match serde_json::from_str::<serde_json::Value>("{oops") {
        Ok(_) => panic!("not JSON"),
        Err(e) => format!("{}: {}", e, "{oops"),
    };
    assert_eq!(create_line("{oops"), Err(expected));
    assert_eq!(
        create_line(""),
        Err("EOF while parsing a value at line 1 column 0: ".to_string())
    );
}

#[test]
fn checks_take_parsed_values() {
    let mut members = serde_json::Map::new();
    members.insert("status".to_string(), serde_json::Value::String("ok".to_string()));
    assert_eq!(check_create_value(&serde_json::Value::Object(members.clone())), Ok(()));
    members.insert("error".to_string(), serde_json::Value::String("bad".to_string()));
    assert_eq!(
        check_create_value(&serde_json::Value::Object(members)),
        Err("bad".to_string())
    );
    assert_eq!(check_create_value(&serde_json::Value::Null), Ok(()));
}

#[test]
fn messages_of_lines() {
    assert_eq!(bad_line_message("wrong", "{"), "wrong: {");
    assert_eq!(stop_on_error(None), Ok(()));
    assert_eq!(stop_on_error(Some("e")), Err("e".to_string()));
}
