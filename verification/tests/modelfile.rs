use ollama_controls::modelfile::{from_line, missing_from_message};
use ollama_controls::split_modelfile_from;
use ollama_controls::text::chars_of;

#[test]
fn split_modelfile_from_parses_from_line() {
    let (base, rest) =
        split_modelfile_from("FROM gemma3:latest\nSYSTEM \"x\"\n").unwrap();
    assert_eq!(base, "gemma3:latest");
    assert_eq!(rest.as_deref(), Some("SYSTEM \"x\"\n"));
}

#[test]
fn an_empty_modelfile_is_refused() {
    assert_eq!(split_modelfile_from(""), Err("modelfile is empty".to_string()));
    assert_eq!(split_modelfile_from(" \n\t\r\n"), Err("modelfile is empty".to_string()));
}

#[test]
fn another_first_line_is_refused_and_quoted() {
    assert_eq!(
        split_modelfile_from("SYSTEM \"hi\"\nFROM x\n"),
        Err("modelfile must start with `FROM <model>` (first line: \"SYSTEM \\\"hi\\\"\")".to_string())
    );
    assert_eq!(
        split_modelfile_from("FROM"),
        Err("modelfile must start with `FROM <model>` (first line: \"FROM\")".to_string())
    );
    assert_eq!(
        split_modelfile_from("FROM   \nx"),
        Err("modelfile must start with `FROM <model>` (first line: \"FROM\")".to_string())
    );
    assert_eq!(
        split_modelfile_from("FROM\tx"),
        Err("modelfile must start with `FROM <model>` (first line: \"FROM\\tx\")".to_string())
    );
}

#[test]
fn the_message_holds_what_it_is_given() {
    assert_eq!(
        missing_from_message("'x'"),
        "modelfile must start with `FROM <model>` (first line: 'x')"
    );
}

#[test]
fn blank_text_before_from_is_ignored() {
    assert_eq!(
        split_modelfile_from("\n  \u{3000}\n FROM a\nb"),
        split_modelfile_from("FROM a\nb")
    );
}

#[test]
fn the_keyword_is_read_in_any_case() {
    assert_eq!(split_modelfile_from("from a\nb"), Ok(("a".to_string(), Some("b\n".to_string()))));
    assert_eq!(split_modelfile_from("fRoM a"), Ok(("a".to_string(), None)));
    assert!(from_line(&chars_of("From x")));
    assert!(!from_line(&chars_of("Fro")));
}

#[test]
fn from_line_alone_has_no_rest() {
    assert_eq!(split_modelfile_from("FROM a b"), Ok(("a b".to_string(), None)));
    assert_eq!(split_modelfile_from("FROM   a  \n \n\t\n"), Ok(("a".to_string(), None)));
}

#[test]
fn the_rest_keeps_its_lines() {
    assert_eq!(
        split_modelfile_from("FROM a\n\nPARAMETER x 1\n  y\n\n"),
        Ok(("a".to_string(), Some("\nPARAMETER x 1\n  y\n\n".to_string())))
    );
}

#[test]
fn carriage_returns_before_newlines_are_dropped() {
    assert_eq!(
        split_modelfile_from("FROM a\r\nb\r\nc"),
        Ok(("a".to_string(), Some("b\nc\n".to_string())))
    );
}

#[test]
fn written_modelfile_is_read_back() {
    let text = format!("FROM {}\n{}", "base:tag", "SYSTEM x\nPARAMETER y 1\n");
    assert_eq!(
        split_modelfile_from(&text),
        Ok(("base:tag".to_string(), Some("SYSTEM x\nPARAMETER y 1\n".to_string())))
    );
}
