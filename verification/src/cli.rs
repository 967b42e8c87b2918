//! Control of a local Ollama by its command line.
//!
//! Each operation names the command to run and, once it was run, says what came
//! of it; running it is left to the caller.

use vstd::prelude::*;
use vstd::utf8::{
    decode_utf8, encode_utf8, encode_utf8_decode_utf8, encode_utf8_valid_utf8, valid_utf8,
};
use crate::batch::{fresh_batch, outcome_view, Batch};
use crate::model::{extended_name, Model, ModelDetails};
use crate::show::{details_of, parse_model_show};
use crate::text::{
    chars_of, first_word, is_blank, is_white_space, joined, law_split_at_separators,
    law_split_then_join, lemma_blank_is_trimmed_empty, lemma_first_word, lemma_split_at,
    lemma_split_nonempty, lemma_split_single, lemma_word_has_no_white_space, lines_of,
    same_chars, slice_views, split, split_on, string_of, trimmed_start, views, word,
};

verus! {

/// `std::path::PathBuf`: the path of a file, carried to the command that reads it.
#[verifier::external_type_specification]
#[verifier::external_body]
pub struct ExPathBuf(std::path::PathBuf);

/// A command to run.
#[derive(Debug, Clone)]
pub struct CommandLine {
    pub program: String,
    pub args: Vec<String>,
    /// A path that follows `args` as the last argument.
    pub path: Option<std::path::PathBuf>,
    /// Environment variables to set over the inherited ones.
    pub env: Vec<(String, String)>,
}

/// The model of a [`CommandLine`].
#[verifier::ext_equal]
pub struct CommandView {
    pub program: Seq<char>,
    pub args: Seq<Seq<char>>,
    pub path: Option<std::path::PathBuf>,
    pub env: Seq<(Seq<char>, Seq<char>)>,
}

impl View for CommandLine {
    type V = CommandView;

    open spec fn view(&self) -> CommandView {
        CommandView {
            program: self.program@,
            args: views(self.args@),
            path: self.path,
            env: self.env@.map_values(|e: (String, String)| (e.0@, e.1@)),
        }
    }
}

/// What a command that has run left behind.
#[derive(Debug, Clone)]
pub struct CommandOutput {
    /// Whether it reported success.
    pub success: bool,
    pub stdout: Vec<u8>,
    pub stderr: Vec<u8>,
}

/// The text that `String::from_utf8_lossy` makes of bytes that are no UTF-8.
pub uninterp spec fn lossy_text(bytes: Seq<u8>) -> Seq<char>;

/// The text that bytes stand for: the one that they encode in UTF-8, or one with
/// replacements where they are no UTF-8.
pub open spec fn text_of(bytes: Seq<u8>) -> Seq<char> {
    if valid_utf8(bytes) {
        decode_utf8(bytes)
    } else {
        lossy_text(bytes)
    }
}

/// `String::from_utf8_lossy`: bytes that are UTF-8 give the text that they encode.
/// In others the bytes that are none are replaced; which text comes out is taken as
/// a function of the bytes and is not stated further.
#[verifier::external_body]
fn text_of_bytes(bytes: &[u8]) -> (r: String)
    ensures
        valid_utf8(bytes@) ==> r@ == decode_utf8(bytes@),
        !valid_utf8(bytes@) ==> r@ == lossy_text(bytes@),
{
    String::from_utf8_lossy(bytes).into_owned()
}

/// A command with the given words and nothing else.
pub open spec fn plain_command(program: Seq<char>, args: Seq<Seq<char>>) -> CommandView {
    CommandView { program, args, path: None, env: Seq::empty() }
}

/// What a command that was run comes to: what it printed, or why there is
/// nothing. A command that could not be run gives that error, one that failed
/// gives what it printed as its error.
pub open spec fn printed(outcome: Result<CommandOutput, String>) -> Result<Seq<char>, Seq<char>> {
    match outcome {
        Ok(output) => if output.success {
            Ok(text_of(output.stdout@))
        } else {
            Err(text_of(output.stderr@))
        },
        Err(e) => Err(e@),
    }
}

/// The header and the rows of a table: the pieces between its newlines, as they
/// stand. Behind a newline at the end there is no row.
pub open spec fn rows_of(text: Seq<char>) -> Seq<Seq<char>> {
    let pieces = split_on(text, '\n');
    if pieces.last().len() == 0 {
        pieces.drop_last()
    } else {
        pieces
    }
}

/// A table as it is printed: each line ended by a newline.
pub open spec fn table(lines: Seq<Seq<char>>) -> Seq<char>
    decreases lines.len(),
{
    if lines.len() == 0 {
        Seq::empty()
    } else {
        table(lines.drop_last()) + lines.last().push('\n')
    }
}

/// The names of the models that `ollama list` prints: the first word of each line
/// behind the header line. Lines without a word, and further headers, do not count.
pub open spec fn installed_names(list: Seq<Seq<char>>) -> Seq<Seq<char>>
    decreases list.len(),
{
    if list.len() <= 1 {
        Seq::empty()
    } else {
        let before = installed_names(list.drop_last());
        let name = first_word(list.last());
        if name.len() == 0 || name == "NAME"@ {
            before
        } else {
            before.push(name)
        }
    }
}

/// A command of a program with the given arguments.
pub fn command(program: &str, args: &[&str]) -> (r: CommandLine)
    ensures
        r@ == plain_command(program@, args@.map_values(|a: &str| a@)),
        r.program@ == program@,
        r.args@.len() == args@.len(),
        forall|i: int| 0 <= i < args@.len() ==> #[trigger] r.args@[i]@ == args@[i]@,
        r.path is None,
        r.env@.len() == 0,
{
    let mut words: Vec<String> = Vec::new();
    let ghost texts = args@.map_values(|a: &str| a@);
    for i in 0..args.len()
        invariant
            texts == args@.map_values(|a: &str| a@),
            views(words@) == texts.take(i as int),
    {
        let ghost before = words@;
        words.push(args[i].to_string());
        assert(views(words@) =~= views(before).push(args@[i as int]@));
        assert(texts.take(i + 1) =~= texts.take(i as int).push(args@[i as int]@));
    }
    assert(texts.take(args@.len() as int) =~= texts);
    let r = CommandLine { program: program.to_string(), args: words, path: None, env: Vec::new() };
    assert(r@ =~= plain_command(program@, texts));
    proof {
        assert forall|i: int| 0 <= i < args@.len() implies #[trigger] r.args@[i]@ == args@[i]@ by {
            assert(views(r.args@)[i] == texts[i]);
        }
    }
    r
}

/// What a command that was run printed, or why there is nothing.
pub fn printed_text(outcome: Result<CommandOutput, String>) -> (r: Result<String, String>)
    ensures
        match r {
            Ok(text) => printed(outcome) == Ok::<Seq<char>, Seq<char>>(text@),
            Err(e) => printed(outcome) == Err::<Seq<char>, Seq<char>>(e@),
        },
        match (outcome, r) {
            (Ok(output), Ok(text)) => output.success && text@ == text_of(output.stdout@),
            (Ok(output), Err(e)) => !output.success && e@ == text_of(output.stderr@),
            (Err(e), Err(message)) => message@ == e@,
            (Err(_), Ok(_)) => false,
        },
{
    match outcome {
        Ok(output) => {
            if output.success {
                Ok(text_of_bytes(&output.stdout))
            } else {
                Err(text_of_bytes(&output.stderr))
            }
        },
        Err(e) => Err(e),
    }
}

/// The raw lines of a text: the pieces between its newlines. A newline at the end
/// leaves an empty piece behind it.
pub fn raw_lines(text: &str) -> (r: Vec<String>)
    ensures
        views(r@) == split_on(text@, '\n'),
{
    let chars = chars_of(text);
    let parts = split(&chars, '\n');
    let ghost pieces = split_on(text@, '\n');
    let mut r: Vec<String> = Vec::new();
    assert(slice_views(parts@).len() == parts@.len());
    for i in 0..parts.len()
        invariant
            slice_views(parts@) == pieces,
            parts@.len() == pieces.len(),
            views(r@) == pieces.take(i as int),
    {
        let ghost before = r@;
        r.push(string_of(parts[i]));
        assert(slice_views(parts@)[i as int] == parts@[i as int]@);
        assert(views(r@) =~= views(before).push(parts@[i as int]@));
        assert(pieces.take(i + 1) =~= pieces.take(i as int).push(pieces[i as int]));
    }
    assert(pieces.take(pieces.len() as int) =~= pieces);
    r
}

/// The header and the rows of a table.
pub fn rows(text: &str) -> (r: Vec<String>)
    ensures
        views(r@) == rows_of(text@),
{
    let mut r = raw_lines(text);
    let ghost all = r@;
    proof {
        lemma_split_nonempty(text@, '\n');
        assert(views(all).len() == all.len());
        assert(views(all).last() == all.last()@);
    }
    if r[r.len() - 1].as_str().is_empty() {
        r.pop();
        assert(views(r@) =~= views(all).drop_last());
    }
    r
}

/// The names of the models in the lines of `ollama list`.
pub fn names_in_list(list: &Vec<String>) -> (r: Vec<String>)
    ensures
        views(r@) == installed_names(views(list@)),
{
    let ghost texts = views(list@);
    let header = chars_of("NAME");
    let mut names: Vec<String> = Vec::new();
    assert(views(names@) =~= Seq::empty());
    for i in 0..list.len()
        invariant
            texts == views(list@),
            header@ == "NAME"@,
            views(names@) == installed_names(texts.take(i as int)),
    {
        proof {
            assert(texts.take(i + 1).drop_last() =~= texts.take(i as int));
            assert(texts.take(i + 1).last() == list@[i as int]@);
        }
        if i > 0 {
            let chars = chars_of(list[i].as_str());
            let name = word(&chars);
            if name.len() > 0 && !same_chars(name, &header) {
                let ghost before = names@;
                names.push(string_of(name));
                assert(views(names@) =~= views(before).push(name@));
            }
        }
    }
    assert(texts.take(list@.len() as int) =~= texts);
    names
}

/// A command that is run for what it does.
#[derive(Debug, Clone)]
pub struct UnitOperation {
    pub command: CommandLine,
}

impl UnitOperation {
    /// Whether it worked, once it was run.
    pub fn finish(&self, outcome: Result<CommandOutput, String>) -> (r: Result<(), String>)
        ensures
            outcome_view(r) == (match printed(outcome) {
                Ok(_) => Ok::<(), Seq<char>>(()),
                Err(e) => Err(e),
            }),
    {
        match printed_text(outcome) {
            Ok(_) => Ok(()),
            Err(e) => Err(e),
        }
    }
}

/// A command that is run for the text that it prints.
#[derive(Debug, Clone)]
pub struct TextOperation {
    pub command: CommandLine,
}

impl TextOperation {
    /// What it printed, once it was run.
    pub fn finish(&self, outcome: Result<CommandOutput, String>) -> (r: Result<String, String>)
        ensures
            match r {
                Ok(text) => printed(outcome) == Ok::<Seq<char>, Seq<char>>(text@),
                Err(e) => printed(outcome) == Err::<Seq<char>, Seq<char>>(e@),
            },
    {
        printed_text(outcome)
    }
}

/// A command that is run for the lines that it prints.
#[derive(Debug, Clone)]
pub struct LinesOperation {
    pub command: CommandLine,
}

impl LinesOperation {
    /// The raw lines that it printed, once it was run.
    pub fn finish(&self, outcome: Result<CommandOutput, String>) -> (r: Result<
        Vec<String>,
        String,
    >)
        ensures
            match printed(outcome) {
                Ok(text) => r is Ok && views(r->Ok_0@) == split_on(text, '\n'),
                Err(e) => r is Err && r->Err_0@ == e,
            },
    {
        match printed_text(outcome) {
            Ok(text) => Ok(raw_lines(text.as_str())),
            Err(e) => Err(e),
        }
    }
}

/// A command that is run for the table that it prints.
#[derive(Debug, Clone)]
pub struct TableOperation {
    pub command: CommandLine,
}

impl TableOperation {
    /// The header and the rows that it printed, once it was run.
    pub fn finish(&self, outcome: Result<CommandOutput, String>) -> (r: Result<
        Vec<String>,
        String,
    >)
        ensures
            match printed(outcome) {
                Ok(text) => r is Ok && views(r->Ok_0@) == rows_of(text),
                Err(e) => r is Err && r->Err_0@ == e,
            },
    {
        match printed_text(outcome) {
            Ok(text) => Ok(rows(text.as_str())),
            Err(e) => Err(e),
        }
    }
}

/// A command that is run for the details of a model.
#[derive(Debug, Clone)]
pub struct DetailsOperation {
    pub command: CommandLine,
}

impl DetailsOperation {
    /// The details that it printed, once it was run.
    pub fn finish(&self, outcome: Result<CommandOutput, String>) -> (r: Result<
        ModelDetails,
        String,
    >)
        ensures
            match printed(outcome) {
                Ok(text) => r is Ok && r->Ok_0@ == details_of(lines_of(text)),
                Err(e) => r is Err && r->Err_0@ == e,
            },
    {
        match printed_text(outcome) {
            Ok(text) => Ok(parse_model_show(text.as_str())),
            Err(e) => Err(e),
        }
    }
}

/// A command that is run for the details of a model, to be attached to it.
#[derive(Debug)]
pub struct ModelOperation {
    pub command: CommandLine,
    pub model: Model,
}

impl ModelOperation {
    /// The model with the details that the command printed, once it was run.
    pub fn finish(self, outcome: Result<CommandOutput, String>) -> (r: Result<Model, String>)
        ensures
            match printed(outcome) {
                Ok(text) => match r {
                    Ok(model) => {
                        &&& model.identity() == self.model.identity()
                        &&& model.name == self.model.name
                        &&& model.param_count == self.model.param_count
                        &&& model.variant == self.model.variant
                        &&& model.quantization == self.model.quantization
                        &&& model.details is Some
                        &&& model.details->0@ == details_of(lines_of(text))
                    },
                    Err(_) => false,
                },
                Err(e) => r is Err && r->Err_0@ == e,
            },
    {
        match printed_text(outcome) {
            Ok(text) => Ok(self.model.with_details(parse_model_show(text.as_str()))),
            Err(e) => Err(e),
        }
    }
}

/// A command that is run for the names of the models to pull again.
#[derive(Debug, Clone)]
pub struct UpdateOperation {
    pub command: CommandLine,
}

impl UpdateOperation {
    /// The models to pull with [`ollama_pull`], one after the other, once the
    /// command was run.
    pub fn finish(&self, outcome: Result<CommandOutput, String>) -> (r: Result<Batch, String>)
        ensures
            match printed(outcome) {
                Ok(text) => r is Ok && r->Ok_0@ == fresh_batch(
                    installed_names(split_on(text, '\n')),
                ),
                Err(e) => r is Err && r->Err_0@ == e,
            },
    {
        match printed_text(outcome) {
            Ok(text) => Ok(Batch::new(names_in_list(&raw_lines(text.as_str())))),
            Err(e) => Err(e),
        }
    }
}

/// Same as [`list_models`]: raw lines from `ollama list` (header plus one row per model).
pub fn list_local_downloaded_models() -> (r: TableOperation)
    ensures
        r.command@ == plain_command("ollama"@, seq!["list"@]),
        r.command.program@ == "ollama"@,
        r.command.args@.len() == 1,
        r.command.args@[0]@ == "list"@,
        r.command.path is None,
        r.command.env@.len() == 0,
{
    list_models()
}

/// `ollama list`: all downloaded models, the header and one row for each.
pub fn list_models() -> (r: TableOperation)
    ensures
        r.command@ == plain_command("ollama"@, seq!["list"@]),
        r.command.program@ == "ollama"@,
        r.command.args@.len() == 1,
        r.command.args@[0]@ == "list"@,
        r.command.path is None,
        r.command.env@.len() == 0,
{
    let r = TableOperation { command: command("ollama", &["list"]) };
    assert(r.command@.args =~= seq!["list"@]);
    r
}

/// `ollama ps`: all running models.
pub fn list_running_models() -> (r: LinesOperation)
    ensures
        r.command@ == plain_command("ollama"@, seq!["ps"@]),
        r.command.program@ == "ollama"@,
        r.command.args@.len() == 1,
        r.command.args@[0]@ == "ps"@,
        r.command.path is None,
        r.command.env@.len() == 0,
{
    let r = LinesOperation { command: command("ollama", &["ps"]) };
    assert(r.command@.args =~= seq!["ps"@]);
    r
}

/// `ollama pull` of a model by its full tag.
pub fn download_model(model: &Model) -> (r: UnitOperation)
    ensures
        r.command@ == plain_command(
            "ollama"@,
            seq!["pull"@, extended_name(model.identity())],
        ),
        r.command.program@ == "ollama"@,
        r.command.args@.len() == 2,
        r.command.args@[0]@ == "pull"@,
        r.command.args@[1]@ == model.name@ + seq![':'] + model.param_count@ + seq!['-']
            + model.variant@ + seq!['-'] + model.quantization@,
        r.command.path is None,
        r.command.env@.len() == 0,
{
    let tag = model.get_extended_name();
    ollama_pull(tag.as_str())
}

/// `ollama show <name>` as text.
pub fn inspect_model(model: &Model) -> (r: TextOperation)
    ensures
        r.command@ == plain_command("ollama"@, seq!["show"@, model.name@]),
        r.command.program@ == "ollama"@,
        r.command.args@.len() == 2,
        r.command.args@[0]@ == "show"@,
        r.command.args@[1]@ == model.name@,
        r.command.path is None,
        r.command.env@.len() == 0,
{
    TextOperation { command: show_command(model) }
}

fn show_command(model: &Model) -> (r: CommandLine)
    ensures
        r@ == plain_command("ollama"@, seq!["show"@, model.name@]),
        r.program@ == "ollama"@,
        r.args@.len() == 2,
        r.args@[0]@ == "show"@,
        r.args@[1]@ == model.name@,
        r.path is None,
        r.env@.len() == 0,
{
    let r = command("ollama", &["show", model.name.as_str()]);
    assert(r@.args =~= seq!["show"@, model.name@]);
    r
}

/// `ollama show <name>`, parsed into [`ModelDetails`].
pub fn inspect_model_details(model: &Model) -> (r: DetailsOperation)
    ensures
        r.command@ == plain_command("ollama"@, seq!["show"@, model.name@]),
        r.command.program@ == "ollama"@,
        r.command.args@.len() == 2,
        r.command.args@[0]@ == "show"@,
        r.command.args@[1]@ == model.name@,
        r.command.path is None,
        r.command.env@.len() == 0,
{
    DetailsOperation { command: show_command(model) }
}

/// `ollama show <name>`, parsed and attached to a copy of `model`.
pub fn model_with_inspect_details(model: &Model) -> (r: ModelOperation)
    ensures
        r.command@ == plain_command("ollama"@, seq!["show"@, model.name@]),
        r.model.identity() == model.identity(),
        r.model.name@ == model.name@,
        r.model.param_count@ == model.param_count@,
        r.model.variant@ == model.variant@,
        r.model.quantization@ == model.quantization@,
        r.model.details is None,
        r.command.program@ == "ollama"@,
        r.command.args@.len() == 2,
        r.command.args@[0]@ == "show"@,
        r.command.args@[1]@ == model.name@,
        r.command.path is None,
        r.command.env@.len() == 0,
{
    ModelOperation {
        command: show_command(model),
        model: Model::new(
            model.name.clone(),
            model.param_count.clone(),
            model.variant.clone(),
            model.quantization.clone(),
        ),
    }
}

/// `ollama rm <name>`
pub fn ollama_rm(name: &str) -> (r: UnitOperation)
    ensures
        r.command@ == plain_command("ollama"@, seq!["rm"@, name@]),
        r.command.program@ == "ollama"@,
        r.command.args@.len() == 2,
        r.command.args@[0]@ == "rm"@,
        r.command.args@[1]@ == name@,
        r.command.path is None,
        r.command.env@.len() == 0,
{
    let r = UnitOperation { command: command("ollama", &["rm", name]) };
    assert(r.command@.args =~= seq!["rm"@, name@]);
    r
}

/// `ollama cp <source> <destination>`
pub fn ollama_cp(source: &str, destination: &str) -> (r: UnitOperation)
    ensures
        r.command@ == plain_command("ollama"@, seq!["cp"@, source@, destination@]),
        r.command.program@ == "ollama"@,
        r.command.args@.len() == 3,
        r.command.args@[0]@ == "cp"@,
        r.command.args@[1]@ == source@,
        r.command.args@[2]@ == destination@,
        r.command.path is None,
        r.command.env@.len() == 0,
{
    let r = UnitOperation { command: command("ollama", &["cp", source, destination]) };
    assert(r.command@.args =~= seq!["cp"@, source@, destination@]);
    r
}

/// `ollama pull <name>`: `name` is a full tag (e.g. `llama3.2:3b-instruct-q4_K_M`).
pub fn ollama_pull(name: &str) -> (r: UnitOperation)
    ensures
        r.command@ == plain_command("ollama"@, seq!["pull"@, name@]),
        r.command.program@ == "ollama"@,
        r.command.args@.len() == 2,
        r.command.args@[0]@ == "pull"@,
        r.command.args@[1]@ == name@,
        r.command.path is None,
        r.command.env@.len() == 0,
{
    let r = UnitOperation { command: command("ollama", &["pull", name]) };
    assert(r.command@.args =~= seq!["pull"@, name@]);
    r
}

/// `ollama create <name> -f <path>`
pub fn ollama_create_from_file(name: &str, modelfile_path: std::path::PathBuf) -> (r: UnitOperation)
    ensures
        r.command@ == (CommandView {
            path: Some(modelfile_path),
            ..plain_command("ollama"@, seq!["create"@, name@, "-f"@])
        }),
        r.command.program@ == "ollama"@,
        r.command.args@.len() == 3,
        r.command.args@[0]@ == "create"@,
        r.command.args@[1]@ == name@,
        r.command.args@[2]@ == "-f"@,
        r.command.path == Some(modelfile_path),
        r.command.env@.len() == 0,
{
    let mut c = command("ollama", &["create", name, "-f"]);
    assert(c@.args =~= seq!["create"@, name@, "-f"@]);
    c.path = Some(modelfile_path);
    UnitOperation { command: c }
}

/// Re-pulls every model that [`list_models`] names: `ollama list`, and then
/// `ollama pull` for each (same pattern as `update_all_models.sh` in the Ollama guides).
pub fn ollama_update_all_installed() -> (r: UpdateOperation)
    ensures
        r.command@ == plain_command("ollama"@, seq!["list"@]),
        r.command.program@ == "ollama"@,
        r.command.args@.len() == 1,
        r.command.args@[0]@ == "list"@,
        r.command.path is None,
        r.command.env@.len() == 0,
{
    UpdateOperation { command: list_models().command }
}

/// A text that a command printed in UTF-8 is the text that is read.
pub proof fn law_printed_text_is_read_back(text: Seq<char>)
    ensures
        text_of(encode_utf8(text)) == text,
{
    encode_utf8_valid_utf8(text);
    encode_utf8_decode_utf8(text);
}

/// A table of a header and one row per model is read back as these lines, unmodified
/// and in their order, with nothing behind the last row.
pub proof fn law_table_is_read_back(lines: Seq<Seq<char>>)
    requires
        forall|i: int| 0 <= i < lines.len() ==> !(#[trigger] lines[i]).contains('\n'),
    ensures
        rows_of(table(lines)) == lines,
{
    lemma_table_pieces(lines);
    assert(lines.push(Seq::empty()).drop_last() =~= lines);
}

proof fn lemma_table_pieces(lines: Seq<Seq<char>>)
    requires
        forall|i: int| 0 <= i < lines.len() ==> !(#[trigger] lines[i]).contains('\n'),
    ensures
        split_on(table(lines), '\n') == lines.push(Seq::empty()),
    decreases lines.len(),
{
    let none = Seq::<char>::empty();
    if lines.len() == 0 {
        assert(lines.push(none) =~= seq![none]);
    } else {
        let front = lines.drop_last();
        let last = lines.last();
        assert forall|i: int| 0 <= i < front.len() implies !(#[trigger] front[i]).contains(
            '\n',
        ) by {
            assert(front[i] == lines[i]);
        }
        assert(lines[lines.len() - 1] == last);
        lemma_table_pieces(front);
        lemma_split_single(last, '\n');
        lemma_split_single(none, '\n');
        if front.len() == 0 {
            assert(table(lines) =~= last.push('\n') + none);
            lemma_split_at(last, none, '\n');
            assert(seq![last] + seq![none] =~= lines.push(none));
        } else {
            let before = table(front);
            let open_end = before.drop_last();
            assert(before =~= open_end.push('\n'));
            assert(split_on(before, '\n') == split_on(open_end, '\n').push(none));
            assert(split_on(open_end, '\n') =~= front) by {
                assert(split_on(open_end, '\n').push(none).drop_last() =~= split_on(
                    open_end,
                    '\n',
                ));
                assert(front.push(none).drop_last() =~= front);
            }
            assert(table(lines) =~= open_end.push('\n') + (last.push('\n') + none));
            lemma_split_at(open_end, last.push('\n') + none, '\n');
            lemma_split_at(last, none, '\n');
            assert(front + (seq![last] + seq![none]) =~= lines.push(none));
        }
    }
}

/// The rows of a table give it back: a newline between each two, and one at the end
/// where the table has one.
pub proof fn law_rows_give_the_table_back(text: Seq<char>)
    ensures
        text.len() > 0 && text.last() == '\n' ==> joined(rows_of(text), '\n').push('\n') == text,
        text.len() > 0 && text.last() != '\n' ==> joined(rows_of(text), '\n') == text,
        text.len() == 0 ==> rows_of(text).len() == 0,
{
    law_split_then_join(text, '\n');
    if text.len() > 0 {
        let front = split_on(text.drop_last(), '\n');
        lemma_split_nonempty(text.drop_last(), '\n');
        let pieces = split_on(text, '\n');
        if text.last() == '\n' {
            assert(pieces.drop_last() =~= front);
            assert(pieces.last() =~= Seq::empty());
            assert(joined(front, '\n').push('\n') =~= text);
        }
    }
}

/// The empty row behind the last one does not change which models are named.
pub proof fn law_rows_name_the_same_models(text: Seq<char>)
    ensures
        installed_names(rows_of(text)) == installed_names(split_on(text, '\n')),
{
    let pieces = split_on(text, '\n');
    lemma_split_nonempty(text, '\n');
    if pieces.last().len() == 0 {
        law_blank_lines_name_no_model(pieces.drop_last(), pieces.last());
        assert(pieces.drop_last().push(pieces.last()) =~= pieces);
    }
}

/// What is pulled again is a name: not empty, without white space, and not the word
/// that heads the list.
pub proof fn law_installed_names_are_names(list: Seq<Seq<char>>, i: int)
    requires
        0 <= i < installed_names(list).len(),
    ensures
        installed_names(list)[i].len() > 0,
        installed_names(list)[i] != "NAME"@,
        forall|k: int| 0 <= k < installed_names(list)[i].len() ==> !is_white_space(
            #[trigger] installed_names(list)[i][k],
        ),
    decreases list.len(),
{
    let before = installed_names(list.drop_last());
    if i < before.len() {
        law_installed_names_are_names(list.drop_last(), i);
    } else {
        lemma_word_has_no_white_space(trimmed_start(list.last()));
    }
}

/// Each row of a list is read back: behind the header, whatever it is, the first
/// column gives the names in the order of the rows.
pub proof fn law_rows_are_read_back(
    header: Seq<char>,
    names: Seq<Seq<char>>,
    columns: Seq<Seq<char>>,
)
    requires
        names.len() == columns.len(),
        forall|i: int| 0 <= i < names.len() ==> #[trigger] names[i].len() > 0,
        forall|i: int| 0 <= i < names.len() ==> #[trigger] names[i] != "NAME"@,
        forall|i: int, k: int|
            0 <= i < names.len() && 0 <= k < names[i].len() ==> !is_white_space(
                #[trigger] names[i][k],
            ),
        forall|i: int|
            0 <= i < columns.len() && (#[trigger] columns[i]).len() > 0 ==> is_white_space(
                columns[i][0],
            ),
    ensures
        installed_names(seq![header] + Seq::new(names.len(), |i: int| names[i] + columns[i]))
            == names,
    decreases names.len(),
{
    let list = seq![header] + Seq::new(names.len(), |i: int| names[i] + columns[i]);
    if names.len() == 0 {
        assert(installed_names(list) =~= names);
    } else {
        let fewer = names.drop_last();
        let shorter = columns.drop_last();
        let last = names.len() - 1;
        assert forall|i: int, k: int|
            0 <= i < fewer.len() && 0 <= k < fewer[i].len() implies !is_white_space(
            #[trigger] fewer[i][k],
        ) by {
            assert(fewer[i][k] == names[i][k]);
        }
        law_rows_are_read_back(header, fewer, shorter);
        assert(list.drop_last() =~= seq![header] + Seq::new(
            fewer.len(),
            |i: int| fewer[i] + shorter[i],
        ));
        assert(list.last() == names[last] + columns[last]);
        assert forall|k: int| 0 <= k < names[last].len() implies !is_white_space(
            #[trigger] names[last][k],
        ) by {}
        lemma_first_word(names[last], columns[last]);
        assert(fewer.push(names[last]) =~= names);
    }
}

/// Blank lines in a list name no model.
pub proof fn law_blank_lines_name_no_model(list: Seq<Seq<char>>, line: Seq<char>)
    requires
        is_blank(line),
    ensures
        installed_names(list.push(line)) == installed_names(list),
{
    lemma_blank_is_trimmed_empty(line);
    assert(list.push(line).drop_last() =~= list);
    assert(first_word(line) =~= Seq::empty());
    if list.len() == 0 {
        assert(installed_names(list.push(line)) =~= installed_names(list));
    }
}

/// A command that succeeded gives the whole text that it printed, and one that failed
/// the whole text of its error; one that could not be run gives why.
pub proof fn law_output_is_given_whole(
    output: CommandOutput,
    text: Seq<char>,
    error: String,
)
    ensures
        output.success && output.stdout@ == encode_utf8(text) ==> printed(Ok(output)) == Ok::<
            Seq<char>,
            Seq<char>,
        >(text),
        !output.success && output.stderr@ == encode_utf8(text) ==> printed(Ok(output)) == Err::<
            Seq<char>,
            Seq<char>,
        >(text),
        printed(Err(error)) == Err::<Seq<char>, Seq<char>>(error@),
        output.success ==> printed(Ok(output)) is Ok,
        !output.success ==> printed(Ok(output)) is Err,
        output.success && !valid_utf8(output.stdout@) ==> printed(Ok(output)) == Ok::<
            Seq<char>,
            Seq<char>,
        >(lossy_text(output.stdout@)),
        !output.success && !valid_utf8(output.stderr@) ==> printed(Ok(output)) == Err::<
            Seq<char>,
            Seq<char>,
        >(lossy_text(output.stderr@)),
{
    law_printed_text_is_read_back(text);
}

/// A table that was printed whole comes out whole: from a command that succeeded, the
/// header and every row, each as it stands, and nothing else.
pub proof fn law_printed_tables_come_out_whole(output: CommandOutput, lines: Seq<Seq<char>>)
    requires
        output.success,
        output.stdout@ == encode_utf8(table(lines)),
        forall|i: int| 0 <= i < lines.len() ==> !(#[trigger] lines[i]).contains('\n'),
    ensures
        printed(Ok(output)) is Ok,
        rows_of(printed(Ok(output))->Ok_0) == lines,
{
    law_output_is_given_whole(output, table(lines), arbitrary());
    law_table_is_read_back(lines);
}

/// A table is its lines, each with one newline behind it.
pub proof fn law_table_lines_end_with_newlines(lines: Seq<Seq<char>>, last: Seq<char>)
    ensures
        table(Seq::empty()).len() == 0,
        table(lines + seq![last]) == table(lines) + last + seq!['\n'],
{
    let more = lines + seq![last];
    assert(more.drop_last() =~= lines);
    assert(more.last() == last);
    assert(table(lines) + last.push('\n') =~= table(lines) + last + seq!['\n']);
}

/// The rows of a table are the pieces between its newlines; a newline at the end has no
/// row behind it.
pub proof fn law_rows_are_cut_at_newlines(text: Seq<char>)
    ensures
        rows_of(text + seq!['\n']) == split_on(text, '\n'),
        text.len() > 0 && text.last() != '\n' ==> rows_of(text) == split_on(text, '\n'),
        text.len() == 0 ==> rows_of(text).len() == 0,
{
    let none = Seq::<char>::empty();
    law_split_at_separators(text, none, '\n');
    assert(text + seq!['\n'] + none =~= text + seq!['\n']);
    lemma_split_single(none, '\n');
    assert((split_on(text, '\n') + seq![none]).drop_last() =~= split_on(text, '\n'));
    lemma_split_nonempty(text.drop_last(), '\n');
}

/// A line of a list behind its header names a model by its first word, whole, unless it
/// has no word or the word that heads the list. The header itself names none.
pub proof fn law_every_row_names_its_model(list: Seq<Seq<char>>, line: Seq<char>)
    ensures
        installed_names(Seq::empty()).len() == 0,
        list.len() == 0 ==> installed_names(list + seq![line]).len() == 0,
        list.len() > 0 ==> installed_names(list + seq![line]) == (if first_word(line).len() > 0
            && first_word(line) != "NAME"@ {
            installed_names(list) + seq![first_word(line)]
        } else {
            installed_names(list)
        }),
{
    let more = list + seq![line];
    assert(more.drop_last() =~= list);
    assert(more.last() == line);
    assert(installed_names(list).push(first_word(line)) =~= installed_names(list) + seq![
        first_word(line),
    ]);
}

/// The model of a command holds its words, each whole and in order, its path and what is
/// set for it.
pub proof fn law_models_of_commands(c: CommandLine)
    ensures
        c@.program == c.program@,
        c@.args.len() == c.args@.len(),
        forall|i: int| 0 <= i < c.args@.len() ==> #[trigger] c@.args[i] == c.args@[i]@,
        c@.path == c.path,
        c@.env.len() == c.env@.len(),
        forall|i: int|
            0 <= i < c.env@.len() ==> (#[trigger] c@.env[i]).0 == c.env@[i].0@ && c@.env[i].1
                == c.env@[i].1@,
{
}

/// A plain command has its words and nothing else.
pub proof fn law_plain_commands_have_words_only(program: Seq<char>, args: Seq<Seq<char>>)
    ensures
        plain_command(program, args).program == program,
        plain_command(program, args).args == args,
        plain_command(program, args).path is None,
        plain_command(program, args).env.len() == 0,
{
}

}
