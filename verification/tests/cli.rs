use ollama_controls::cli::{names_in_list, printed_text, raw_lines, rows, CommandLine, CommandOutput};
use ollama_controls::{
    download_model, inspect_model, inspect_model_details, list_local_downloaded_models, list_models,
    list_running_models, model_with_inspect_details, ollama_cp, ollama_create_from_file, ollama_pull,
    ollama_rm, ollama_update_all_installed, Model, ModelDetails,
};

fn worked(stdout: &str) -> Result<CommandOutput, String> {
    Ok(CommandOutput {
        success: true,
        stdout: stdout.as_bytes().to_vec(),
        stderr: b"ignored".to_vec(),
    })
}

fn failed(stderr: &[u8]) -> Result<CommandOutput, String> {
    Ok(CommandOutput { success: false, stdout: b"ignored".to_vec(), stderr: stderr.to_vec() })
}

fn model() -> Model {
    Model::new("llama".to_string(), "3b".to_string(), "instruct".to_string(), "q4".to_string())
}

fn words(command: &CommandLine) -> Vec<String> {
    let mut w = vec![command.program.clone()];
    w.extend(command.args.iter().cloned());
    assert!(command.env.is_empty());
    w
}

fn strings(words: &[&str]) -> Vec<String> {
    words.iter().map(|w| w.to_string()).collect()
}

#[test]
fn commands_name_their_words() {
    assert_eq!(words(&list_models().command), strings(&["ollama", "list"]));
    assert_eq!(words(&list_local_downloaded_models().command), strings(&["ollama", "list"]));
    assert_eq!(words(&list_running_models().command), strings(&["ollama", "ps"]));
    assert_eq!(
        words(&download_model(&model()).command),
        strings(&["ollama", "pull", "llama:3b-instruct-q4"])
    );
    assert_eq!(words(&inspect_model(&model()).command), strings(&["ollama", "show", "llama"]));
    assert_eq!(
        words(&inspect_model_details(&model()).command),
        strings(&["ollama", "show", "llama"])
    );
    assert_eq!(
        words(&model_with_inspect_details(&model()).command),
        strings(&["ollama", "show", "llama"])
    );
    assert_eq!(words(&ollama_rm("a").command), strings(&["ollama", "rm", "a"]));
    assert_eq!(words(&ollama_cp("a", "b").command), strings(&["ollama", "cp", "a", "b"]));
    assert_eq!(words(&ollama_pull("a:b").command), strings(&["ollama", "pull", "a:b"]));
    assert_eq!(words(&ollama_update_all_installed().command), strings(&["ollama", "list"]));
}

#[test]
fn the_modelfile_path_comes_last() {
    let path = std::path::PathBuf::from("/tmp/My Modelfile");
    let command = ollama_create_from_file("new", path.clone()).command;
    assert_eq!(words(&command), strings(&["ollama", "create", "new", "-f"]));
    assert_eq!(command.path, Some(path));
    assert_eq!(ollama_rm("new").command.path, None);
}

#[test]
fn unit_operations_report_success_or_the_error() {
    let op = ollama_rm("a");
    assert_eq!(op.finish(worked("deleted")), Ok(()));
    assert_eq!(op.finish(failed(b"no such model")), Err("no such model".to_string()));
    assert_eq!(op.finish(Err("not found".to_string())), Err("not found".to_string()));
}

#[test]
fn text_operations_give_what_was_printed() {
    let op = inspect_model(&model());
    assert_eq!(op.finish(worked("  Model\n\u{e9}\n")), Ok("  Model\n\u{e9}\n".to_string()));
    assert_eq!(op.finish(failed(b"e")), Err("e".to_string()));
    assert_eq!(op.finish(Err("x".to_string())), Err("x".to_string()));
}

#[test]
fn bytes_that_are_no_text_are_replaced() {
    let bytes = vec![b'a', 0xff, b'b'];
    let outcome = Ok(CommandOutput { success: true, stdout: bytes.clone(), stderr: vec![] });
    assert_eq!(printed_text(outcome), Ok("a\u{fffd}b".to_string()));
    assert_eq!(printed_text(failed(&bytes)), Err("a\u{fffd}b".to_string()));
}

#[test]
fn lines_operations_split_at_newlines_only() {
    let op = list_running_models();
    assert_eq!(op.finish(worked("NAME\r\na\n")), Ok(strings(&["NAME\r", "a", ""])));
    assert_eq!(op.finish(worked("")), Ok(strings(&[""])));
    assert_eq!(op.finish(failed(b"e")), Err("e".to_string()));
    assert_eq!(raw_lines("a\n\nb"), strings(&["a", "", "b"]));
}

#[test]
fn a_list_is_the_header_and_one_row_per_model() {
    for op in [list_models(), list_local_downloaded_models()] {
        assert_eq!(
            op.finish(worked("NAME  ID\na:1  x\nb:2  y\n")),
            Ok(strings(&["NAME  ID", "a:1  x", "b:2  y"]))
        );
        assert_eq!(op.finish(worked("NAME\n")), Ok(strings(&["NAME"])));
        assert_eq!(op.finish(worked("NAME\na")), Ok(strings(&["NAME", "a"])));
        assert_eq!(op.finish(worked("NAME\n\n")), Ok(strings(&["NAME", ""])));
        assert_eq!(op.finish(worked("")), Ok(strings(&[])));
        assert_eq!(op.finish(failed(b"e")), Err("e".to_string()));
        assert_eq!(op.finish(Err("x".to_string())), Err("x".to_string()));
    }
    let text = "NAME\na 1\n\nb\n";
    assert_eq!(rows(text).join("\n") + "\n", text);
    assert_eq!(names_in_list(&rows(text)), names_in_list(&raw_lines(text)));
}

#[test]
fn details_operations_parse() {
    let text = "  Capabilities\n    vision\n";
    let op = inspect_model_details(&model());
    assert_eq!(op.finish(worked(text)), Ok(ModelDetails::from_show_output(text)));
    assert_eq!(op.finish(failed(b"e")), Err("e".to_string()));
}

#[test]
fn details_are_attached_to_a_copy() {
    let text = "  Capabilities\n    vision\n";
    let expected = model().with_details(ModelDetails::from_show_output(text));
    let old = model().with_details(ModelDetails::default());
    assert_eq!(model_with_inspect_details(&old).finish(worked(text)), Ok(expected));
    assert_eq!(model_with_inspect_details(&old).finish(failed(b"e")), Err("e".to_string()));
    assert_eq!(model_with_inspect_details(&old).model.details, None);
    assert_eq!(old.details, Some(ModelDetails::default()));
}

#[test]
fn installed_models_are_pulled_again() {
    let list = "NAME            ID    SIZE\nllama3:latest   abc   2 GB\n\n  gemma3:4b\tdef 3 GB\nNAME again\n";
    let mut batch = ollama_update_all_installed().finish(worked(list)).unwrap();
    assert_eq!(batch.names(), &strings(&["llama3:latest", "gemma3:4b"]));
    assert_eq!(batch.current(), Some("llama3:latest"));
    batch.record(Ok(()));
    batch.record(Ok(()));
    assert_eq!(batch.finish(), Ok(strings(&["llama3:latest", "gemma3:4b"])));
    assert_eq!(
        ollama_update_all_installed().finish(failed(b"down")).err(),
        Some("down".to_string())
    );
}

#[test]
fn the_first_line_of_a_list_is_a_header() {
    assert_eq!(names_in_list(&strings(&["a 1", "b 2"])), strings(&["b"]));
    assert_eq!(names_in_list(&strings(&[])), strings(&[]));
    assert_eq!(names_in_list(&strings(&["h", "", "  ", "NAME x", "NAMED"])), strings(&["NAMED"]));
}
