//! Local Ollama daemon helpers and persisted download directory (`OLLAMA_MODELS`).
//!
//! Ollama reads [`OLLAMA_MODELS_ENV`] when the server **starts**. Changing the saved path only affects
//! processes you start via [`ollama_start_serve`] until you restart a system-managed Ollama with the same env.
//!
//! The functions here decide where files stand, what they hold and which commands
//! to run; reading the environment, files and processes is left to the caller.

use vstd::prelude::*;
use crate::batch::outcome_view;
use crate::cli::{command, plain_command, CommandLine, CommandView};
use crate::number::{
    decimal, is_digit, law_decimal, law_decimal_is_read_back, law_other_texts_are_no_numbers,
    lemma_decimal, number_in, parse_u32, to_decimal,
};
use crate::text::{
    chars_of, is_blank, is_white_space, law_trimming, law_white_space_round_a_text_is_trimmed,
    opt_view, push_text, string_of, trim, trimmed, views, white_space,
};

verus! {

/// Environment variable that sets where models are stored (see Ollama docs).
pub const OLLAMA_MODELS_ENV: &'static str = "OLLAMA_MODELS";

/// The file of the settings in the configuration directory.
pub const SETTINGS_FILE: &'static str = "settings.json";

/// The file of the process number in the configuration directory.
pub const SERVE_PID_FILE: &'static str = "ollama-serve.pid";

/// Persisted settings under [`config_dir`] / `settings.json`.
#[derive(Debug, Clone)]
pub struct OllamaControlsSettings {
    /// Directory for model blobs (maps to `OLLAMA_MODELS` when starting [`ollama_start_serve`]).
    pub models_download_path: Option<String>,
}

impl Default for OllamaControlsSettings {
    fn default() -> (r: Self)
        ensures
            r.models_download_path is None,
    {
        OllamaControlsSettings { models_download_path: None }
    }
}

/// Effective and configured download locations for display / API.
#[derive(Debug, Clone)]
pub struct ModelsPathInfo {
    /// Current process env `OLLAMA_MODELS`, if set.
    pub ollama_models_env: Option<String>,
    /// Path saved in `settings.json` (applied when starting via [`ollama_start_serve`]).
    pub configured_download_path: Option<String>,
    /// Typical default `~/.ollama/models` when `HOME` / `USERPROFILE` is set.
    pub default_home_models_dir: Option<String>,
    /// Shell snippet to export the **configured** path (if any).
    pub shell_export_configured: Option<String>,
}

/// The kind of system that the program runs on.
#[derive(Debug, Clone, Copy, PartialEq, Eq, Structural)]
pub enum Platform {
    Windows,
    Unix,
}

/// A place in the file system: a directory, and the names to join to it one after
/// the other.
#[derive(Debug, Clone)]
pub struct Location {
    pub base: String,
    pub components: Vec<String>,
}

/// The model of a [`Location`].
#[verifier::ext_equal]
pub struct LocationView {
    pub base: Seq<char>,
    pub components: Seq<Seq<char>>,
}

impl View for Location {
    type V = LocationView;

    open spec fn view(&self) -> LocationView {
        LocationView { base: self.base@, components: views(self.components@) }
    }
}

/// The view of an optional place.
pub open spec fn opt_location(o: Option<Location>) -> Option<LocationView> {
    match o {
        Some(l) => Some(l@),
        None => None,
    }
}

impl LocationView {
    /// The place with this name in this one.
    pub open spec fn join(self, name: Seq<char>) -> LocationView {
        LocationView { components: self.components.push(name), ..self }
    }
}

/// A directory with nothing joined to it.
pub open spec fn directory(base: Seq<char>) -> LocationView {
    LocationView { base, components: Seq::empty() }
}

/// The configuration directory: below `XDG_CONFIG_HOME` where that is set, else
/// below `APPDATA` on Windows and below `.config` in `HOME` elsewhere.
pub open spec fn config_place(
    platform: Platform,
    xdg_config_home: Option<Seq<char>>,
    appdata: Option<Seq<char>>,
    home: Option<Seq<char>>,
) -> Option<LocationView> {
    match xdg_config_home {
        Some(base) => Some(directory(base).join("ollama-controls"@)),
        None => match platform {
            Platform::Windows => match appdata {
                Some(app) => Some(directory(app).join("ollama-controls"@)),
                None => None,
            },
            Platform::Unix => match home {
                Some(home) => Some(directory(home).join(".config"@).join("ollama-controls"@)),
                None => None,
            },
        },
    }
}

/// A file in a directory that may not be known.
pub open spec fn file_in(dir: Option<LocationView>, name: Seq<char>) -> Option<LocationView> {
    match dir {
        Some(d) => Some(d.join(name)),
        None => None,
    }
}

/// Whether a shell acts on a character of a bare word wherever it stands, behind the
/// `=` of an assignment: white space, quotes, operators, and what begins an expansion.
pub open spec fn is_active(c: char) -> bool {
    ||| is_white_space(c)
    ||| c == '\'' || c == '"' || c == '\\'
    ||| c == '|' || c == '&' || c == ';' || c == '<' || c == '>' || c == '(' || c == ')'
    ||| c == '$' || c == '`' || c == '!'
    ||| c == '*' || c == '?' || c == '[' || c == '{'
}

/// Whether a shell acts on the character at `i` of a bare word behind the `=` of an
/// assignment. A tilde counts at the start and behind a colon only, where it stands
/// for a home directory.
pub open spec fn acts(word: Seq<char>, i: int) -> bool {
    ||| is_active(word[i])
    ||| word[i] == '~' && (i == 0 || word[i - 1] == ':')
}

/// Whether a path has to be quoted for a shell: it has a character that the shell
/// would act on.
pub open spec fn needs_quotes(p: Seq<char>) -> bool {
    exists|i: int| 0 <= i < p.len() && #[trigger] acts(p, i)
}

/// A text with each apostrophe written as `'"'"'`.
pub open spec fn apostrophes_escaped(p: Seq<char>) -> Seq<char>
    decreases p.len(),
{
    if p.len() == 0 {
        Seq::empty()
    } else if p.last() == '\'' {
        apostrophes_escaped(p.drop_last()) + seq!['\'', '"', '\'', '"', '\'']
    } else {
        apostrophes_escaped(p.drop_last()).push(p.last())
    }
}

/// A path as a word for a shell: between apostrophes where it has to be quoted,
/// as it is elsewhere.
pub open spec fn shell_word(p: Seq<char>) -> Seq<char> {
    if needs_quotes(p) {
        seq!['\''] + apostrophes_escaped(p).push('\'')
    } else {
        p
    }
}

/// How far a shell has come in reading a word.
#[verifier::ext_equal]
pub enum Reading {
    /// Outside quotes, with this text read.
    Bare(Seq<char>),
    /// Between apostrophes, with this text read.
    Single(Seq<char>),
    /// Between double quotes, with this text read.
    Double(Seq<char>),
    /// At a character that this account of a shell leaves out.
    Unknown,
}

/// Whether a character means something else than itself between double quotes.
pub open spec fn is_active_in_double_quotes(c: char) -> bool {
    c == '$' || c == '`' || c == '\\' || c == '!'
}

/// A shell that reads one more character of a word.
pub open spec fn read_on(state: Reading, c: char) -> Reading {
    match state {
        Reading::Bare(text) => if c == '\'' {
            Reading::Single(text)
        } else if c == '"' {
            Reading::Double(text)
        } else if acts(text.push(c), text.len() as int) {
            Reading::Unknown
        } else {
            Reading::Bare(text.push(c))
        },
        Reading::Single(text) => if c == '\'' {
            Reading::Bare(text)
        } else {
            Reading::Single(text.push(c))
        },
        Reading::Double(text) => if c == '"' {
            Reading::Bare(text)
        } else if is_active_in_double_quotes(c) {
            Reading::Unknown
        } else {
            Reading::Double(text.push(c))
        },
        Reading::Unknown => Reading::Unknown,
    }
}

/// A shell that has read a word.
pub open spec fn reading(word: Seq<char>) -> Reading
    decreases word.len(),
{
    if word.len() == 0 {
        Reading::Bare(Seq::empty())
    } else {
        read_on(reading(word.drop_last()), word.last())
    }
}

/// What a saved download directory is: its canonical path, or where it has none
/// the path as it was given.
pub open spec fn saved_path(canonical: Option<Seq<char>>, given: Seq<char>) -> Seq<char> {
    match canonical {
        Some(path) => path,
        None => given,
    }
}

/// The download directory of settings.
pub open spec fn path_of(settings: OllamaControlsSettings) -> Option<Seq<char>> {
    opt_view(settings.models_download_path)
}

/// The download directory that is loaded, from what the settings file holds: that of
/// the settings in it, or none where there are no settings to be read.
pub open spec fn loaded_path(saved: Option<Option<Seq<char>>>) -> Option<Seq<char>> {
    match saved {
        Some(path) => path,
        None => None,
    }
}

/// What to write so that settings with this download directory are saved, or why
/// they cannot be.
pub open spec fn saving(dir: Option<LocationView>, path: Option<Seq<char>>) -> Result<
    SettingsSaveView,
    Seq<char>,
> {
    match dir {
        Some(dir) => Ok(SettingsSaveView { dir, file: dir.join("settings.json"@), path }),
        None => Err("could not resolve config directory"@),
    }
}

/// What to write so that a download directory is saved, or why it cannot be: it has
/// to be created first.
pub open spec fn path_saving(
    dir: Option<LocationView>,
    created: Result<(), Seq<char>>,
    canonical: Option<Seq<char>>,
    given: Seq<char>,
) -> Result<SettingsSaveView, Seq<char>> {
    match created {
        Ok(()) => saving(dir, Some(saved_path(canonical, given))),
        Err(error) => Err("create_dir_all "@ + given + ": "@ + error),
    }
}

/// What the settings file holds once what is to be written was written. Where
/// nothing is to be written it holds what it held before.
pub open spec fn stored_after(
    before: Option<Option<Seq<char>>>,
    saving: Result<SettingsSaveView, Seq<char>>,
) -> Option<Option<Seq<char>>> {
    match saving {
        Ok(save) => Some(save.path),
        Err(_) => before,
    }
}

/// The line that exports a download directory to a shell.
pub open spec fn export_line(path: Seq<char>) -> Seq<char> {
    "export OLLAMA_MODELS="@ + shell_word(path)
}

/// The command that starts the server with a download directory, if there is one.
pub open spec fn serve_command(path: Option<Seq<char>>) -> CommandView {
    CommandView {
        env: match path {
            Some(path) => seq![("OLLAMA_MODELS"@, path)],
            None => Seq::empty(),
        },
        ..plain_command("ollama"@, seq!["serve"@])
    }
}

/// The process number that a text holds, white space round it aside.
pub open spec fn pid_in(text: Seq<char>) -> Option<nat> {
    number_in(trimmed(text), u32::MAX as nat)
}

/// The command that ends the process with this number.
pub open spec fn kill_command(platform: Platform, pid: nat) -> CommandView {
    match platform {
        Platform::Unix => plain_command("kill"@, seq![decimal(pid)]),
        Platform::Windows => plain_command("taskkill"@, seq!["/PID"@, decimal(pid), "/F"@]),
    }
}

/// The command that ends every server, whoever started it.
pub open spec fn fallback_command(platform: Platform) -> CommandView {
    match platform {
        Platform::Unix => plain_command("pkill"@, seq!["-f"@, "ollama serve"@]),
        Platform::Windows => plain_command("taskkill"@, seq!["/F"@, "/IM"@, "ollama.exe"@]),
    }
}

/// One step of stopping the server.
#[derive(Debug, Clone)]
pub enum StopStep {
    /// Run the command, whatever comes of it.
    Kill(CommandLine),
    /// Remove the file, whatever comes of it.
    RemoveFile(Location),
    /// Run the command; [`ollama_stop_serve_fallback`] says what its end means.
    Fallback(CommandLine),
}

/// The model of a [`StopStep`].
pub enum StopStepView {
    Kill(CommandView),
    RemoveFile(LocationView),
    Fallback(CommandView),
}

impl View for StopStep {
    type V = StopStepView;

    open spec fn view(&self) -> StopStepView {
        match *self {
            StopStep::Kill(c) => StopStepView::Kill(c@),
            StopStep::RemoveFile(l) => StopStepView::RemoveFile(l@),
            StopStep::Fallback(c) => StopStepView::Fallback(c@),
        }
    }
}

/// The steps of stopping the server. Where the place of the process number file is
/// known, the process that it names is ended, if it names one, and the file is
/// removed. The fallback comes last, in any case.
pub open spec fn stop_steps(
    platform: Platform,
    pid_file: Option<LocationView>,
    pid_text: Option<Seq<char>>,
) -> Seq<StopStepView> {
    let kill = match pid_text {
        Some(text) => match pid_in(text) {
            Some(pid) => seq![StopStepView::Kill(kill_command(platform, pid))],
            None => Seq::empty(),
        },
        None => Seq::empty(),
    };
    let own = match pid_file {
        Some(file) => kill.push(StopStepView::RemoveFile(file)),
        None => Seq::empty(),
    };
    own.push(StopStepView::Fallback(fallback_command(platform)))
}

/// What to write so that settings are saved.
#[derive(Debug, Clone)]
pub struct SettingsSave {
    /// The directory that has to exist.
    pub dir: Location,
    /// The file in it.
    pub file: Location,
    /// What the file holds.
    pub settings: OllamaControlsSettings,
}

/// The model of a [`SettingsSave`].
pub struct SettingsSaveView {
    pub dir: LocationView,
    pub file: LocationView,
    pub path: Option<Seq<char>>,
}

impl View for SettingsSave {
    type V = SettingsSaveView;

    open spec fn view(&self) -> SettingsSaveView {
        SettingsSaveView { dir: self.dir@, file: self.file@, path: path_of(self.settings) }
    }
}

/// How a command ended.
#[derive(Debug, Clone, Copy)]
pub struct ExitReport {
    /// Whether it reported success.
    pub success: bool,
    /// Its exit code, unless a signal ended it.
    pub code: Option<i32>,
}

/// What to write down of a server that was started.
#[derive(Debug, Clone)]
pub struct PidRecord {
    /// The directory that has to exist.
    pub dir: Location,
    /// The file in it.
    pub file: Location,
    /// What the file holds: the process number.
    pub text: String,
}

impl Location {
    /// The place with this name in this one.
    pub fn join(self, name: &str) -> (r: Location)
        ensures
            r@ == self@.join(name@),
            r.base@ == self.base@,
            r.components@.len() == self.components@.len() + 1,
            forall|i: int|
                0 <= i < self.components@.len() ==> #[trigger] r.components@[i]
                    == self.components@[i],
            r.components@.last()@ == name@,
    {
        let mut components = self.components;
        let ghost before = components@;
        components.push(name.to_string());
        assert(views(components@) =~= views(before).push(name@));
        Location { base: self.base, components }
    }

    /// The same place.
    fn copy(&self) -> (r: Location)
        ensures
            r@ == self@,
    {
        let mut components: Vec<String> = Vec::new();
        for i in 0..self.components.len()
            invariant
                views(components@) == views(self.components@).take(i as int),
        {
            let ghost before = components@;
            components.push(self.components[i].clone());
            assert(views(components@) =~= views(before).push(self.components@[i as int]@));
            assert(views(self.components@).take(i + 1) =~= views(self.components@).take(
                i as int,
            ).push(self.components@[i as int]@));
        }
        assert(views(self.components@).take(self.components@.len() as int) =~= views(
            self.components@,
        ));
        Location { base: self.base.clone(), components }
    }
}

fn directory_at(base: String) -> (r: Location)
    ensures
        r@ == directory(base@),
        r.base@ == base@,
        r.components@.len() == 0,
{
    let r = Location { base, components: Vec::new() };
    assert(r@ =~= directory(base@));
    r
}

/// `~/.config/ollama-controls` (or `%APPDATA%\ollama-controls` on Windows), from the values of the
/// environment variables `XDG_CONFIG_HOME`, `APPDATA` and `HOME`.
pub fn config_dir(
    platform: Platform,
    xdg_config_home: Option<String>,
    appdata: Option<String>,
    home: Option<String>,
) -> (r: Option<Location>)
    ensures
        opt_location(r) == config_place(
            platform,
            opt_view(xdg_config_home),
            opt_view(appdata),
            opt_view(home),
        ),
        match xdg_config_home {
            Some(base) => {
                &&& r is Some
                &&& r->0.base@ == base@
                &&& r->0.components@.len() == 1
                &&& r->0.components@[0]@ == "ollama-controls"@
            },
            None => match (platform, appdata, home) {
                (Platform::Windows, Some(base), _) => {
                    &&& r is Some
                    &&& r->0.base@ == base@
                    &&& r->0.components@.len() == 1
                    &&& r->0.components@[0]@ == "ollama-controls"@
                },
                (Platform::Unix, _, Some(base)) => {
                    &&& r is Some
                    &&& r->0.base@ == base@
                    &&& r->0.components@.len() == 2
                    &&& r->0.components@[0]@ == ".config"@
                    &&& r->0.components@[1]@ == "ollama-controls"@
                },
                _ => r is None,
            },
        },
{
    match xdg_config_home {
        Some(base) => Some(directory_at(base).join("ollama-controls")),
        None => match platform {
            Platform::Windows => match appdata {
                Some(app) => Some(directory_at(app).join("ollama-controls")),
                None => None,
            },
            Platform::Unix => match home {
                Some(home) => Some(directory_at(home).join(".config").join("ollama-controls")),
                None => None,
            },
        },
    }
}

/// The settings file in the configuration directory.
pub fn settings_path(dir: Option<Location>) -> (r: Option<Location>)
    ensures
        opt_location(r) == file_in(opt_location(dir), "settings.json"@),
        match (dir, r) {
            (Some(d), Some(file)) => {
                &&& file.base@ == d.base@
                &&& file.components@.len() == d.components@.len() + 1
                &&& forall|i: int|
                    0 <= i < d.components@.len() ==> #[trigger] file.components@[i]@
                        == d.components@[i]@
                &&& file.components@.last()@ == "settings.json"@
            },
            (None, None) => true,
            _ => false,
        },
{
    match dir {
        Some(d) => Some(d.join(SETTINGS_FILE)),
        None => None,
    }
}

/// The process number file in the configuration directory.
pub fn pid_path(dir: Option<Location>) -> (r: Option<Location>)
    ensures
        opt_location(r) == file_in(opt_location(dir), "ollama-serve.pid"@),
        match (dir, r) {
            (Some(d), Some(file)) => {
                &&& file.base@ == d.base@
                &&& file.components@.len() == d.components@.len() + 1
                &&& forall|i: int|
                    0 <= i < d.components@.len() ==> #[trigger] file.components@[i]@
                        == d.components@[i]@
                &&& file.components@.last()@ == "ollama-serve.pid"@
            },
            (None, None) => true,
            _ => false,
        },
{
    match dir {
        Some(d) => Some(d.join(SERVE_PID_FILE)),
        None => None,
    }
}

/// The persisted settings, from what the settings file holds; a missing file, or
/// one that cannot be read, gives the default.
pub fn load_settings(saved: Option<OllamaControlsSettings>) -> (r: OllamaControlsSettings)
    ensures
        match saved {
            Some(s) => r == s,
            None => r.models_download_path is None,
        },
        path_of(r) == loaded_path(
            match saved {
                Some(s) => Some(path_of(s)),
                None => None,
            },
        ),
{
    match saved {
        Some(s) => s,
        None => OllamaControlsSettings::default(),
    }
}

/// What to write so that settings are saved.
pub fn save_settings_inner(dir: Option<Location>, settings: OllamaControlsSettings) -> (r: Result<
    SettingsSave,
    String,
>)
    ensures
        match saving(opt_location(dir), path_of(settings)) {
            Ok(save) => r is Ok && r->Ok_0@ == save && r->Ok_0.settings == settings,
            Err(e) => r is Err && r->Err_0@ == e,
        },
        match (dir, r) {
            (Some(d), Ok(save)) => {
                &&& save.dir@ == d@
                &&& save.file@.base == d@.base
                &&& save.file@.components == d@.components.push("settings.json"@)
                &&& save.settings == settings
            },
            (None, Err(message)) => message@ == "could not resolve config directory"@,
            _ => false,
        },
{
    match dir {
        Some(d) => {
            let file = d.copy().join(SETTINGS_FILE);
            Ok(SettingsSave { dir: d, file, settings })
        },
        None => Err("could not resolve config directory".to_string()),
    }
}

/// The message for a download directory that cannot be created.
pub fn create_dir_message(path: &str, error: &str) -> (r: String)
    ensures
        r@ == "create_dir_all "@ + path@ + ": "@ + error@,
{
    let mut v = chars_of("create_dir_all ");
    push_text(&mut v, path);
    push_text(&mut v, ": ");
    push_text(&mut v, error);
    string_of(&v)
}

/// Save download directory for future [`ollama_start_serve`] calls: what to write, with the updated
/// settings, once the directory (and parents) was created, or why it is not saved.
///
/// The path that is saved is the canonical one, or where there is none the path as it was given.
pub fn set_models_download_path(
    settings: OllamaControlsSettings,
    dir: Option<Location>,
    created: Result<(), String>,
    canonical: Option<String>,
    given: String,
) -> (r: Result<SettingsSave, String>)
    ensures
        match path_saving(
            opt_location(dir),
            outcome_view(created),
            opt_view(canonical),
            given@,
        ) {
            Ok(save) => r is Ok && r->Ok_0@ == save,
            Err(e) => r is Err && r->Err_0@ == e,
        },
        match (created, dir, r) {
            (Err(error), _, Err(message)) => message@ == "create_dir_all "@ + given@ + ": "@
                + error@,
            (Ok(()), None, Err(message)) => message@ == "could not resolve config directory"@,
            (Ok(()), Some(d), Ok(save)) => {
                &&& save.dir@ == d@
                &&& save.file@.base == d@.base
                &&& save.file@.components == d@.components.push("settings.json"@)
                &&& match (canonical, save.settings.models_download_path) {
                    (Some(path), Some(saved)) => saved@ == path@,
                    (None, Some(saved)) => saved@ == given@,
                    _ => false,
                }
            },
            _ => false,
        },
{
    match created {
        Ok(()) => {
            let mut s = settings;
            s.models_download_path = match canonical {
                Some(path) => Some(path),
                None => Some(given),
            };
            save_settings_inner(dir, s)
        },
        Err(error) => Err(create_dir_message(given.as_str(), error.as_str())),
    }
}

/// Snapshot of env, file config, and default `~/.ollama/models`.
pub fn models_path_info(
    ollama_models_env: Option<String>,
    settings: OllamaControlsSettings,
    default_home_models_dir: Option<String>,
) -> (r: ModelsPathInfo)
    ensures
        r.ollama_models_env == ollama_models_env,
        r.configured_download_path == settings.models_download_path,
        r.default_home_models_dir == default_home_models_dir,
        opt_view(r.shell_export_configured) == (match settings.models_download_path {
            Some(path) => Some(export_line(path@)),
            None => None,
        }),
        match (settings.models_download_path, r.shell_export_configured) {
            (Some(path), Some(line)) => line@ == "export OLLAMA_MODELS="@ + shell_word(path@),
            (None, None) => true,
            _ => false,
        },
{
    let shell_export_configured = match &settings.models_download_path {
        Some(path) => {
            let mut v = chars_of("export ");
            push_text(&mut v, OLLAMA_MODELS_ENV);
            push_text(&mut v, "=");
            push_text(&mut v, shell_escape_path(path.as_str()).as_str());
            proof {
                reveal_strlit("export ");
                reveal_strlit("OLLAMA_MODELS");
                reveal_strlit("=");
                reveal_strlit("export OLLAMA_MODELS=");
                assert("export "@ + "OLLAMA_MODELS"@ + "="@ =~= "export OLLAMA_MODELS="@);
            }
            Some(string_of(&v))
        },
        None => None,
    };
    ModelsPathInfo {
        ollama_models_env,
        configured_download_path: settings.models_download_path,
        default_home_models_dir,
        shell_export_configured,
    }
}

/// Typical default `~/.ollama/models`, from the values of the environment variables
/// `USERPROFILE` (on Windows) and `HOME` (elsewhere).
pub fn default_models_dir_home(
    platform: Platform,
    userprofile: Option<String>,
    home: Option<String>,
) -> (r: Option<Location>)
    ensures
        opt_location(r) == (match (
            match platform {
                Platform::Windows => userprofile,
                Platform::Unix => home,
            }
        ) {
            Some(h) => Some(directory(h@).join(".ollama"@).join("models"@)),
            None => None,
        }),
        match (platform, userprofile, home) {
            (Platform::Windows, Some(base), _) | (Platform::Unix, _, Some(base)) => {
                &&& r is Some
                &&& r->0.base@ == base@
                &&& r->0.components@.len() == 2
                &&& r->0.components@[0]@ == ".ollama"@
                &&& r->0.components@[1]@ == "models"@
            },
            _ => r is None,
        },
{
    let profile = match platform {
        Platform::Windows => userprofile,
        Platform::Unix => home,
    };
    match profile {
        Some(h) => Some(directory_at(h).join(".ollama").join("models")),
        None => None,
    }
}

fn acts_at(word: &Vec<char>, i: usize) -> (r: bool)
    requires
        i < word@.len(),
    ensures
        r == acts(word@, i as int),
{
    let c: char = word[i];
    if white_space(c) {
        return true;
    }
    match c {
        '\'' | '"' | '\\' => true,
        '|' | '&' | ';' | '<' | '>' | '(' | ')' => true,
        '$' | '`' | '!' => true,
        '*' | '?' | '[' | '{' => true,
        '~' => i == 0 || word[i - 1] == ':',
        _ => false,
    }
}

/// A path as a word for a shell.
pub fn shell_escape_path(p: &str) -> (r: String)
    ensures
        r@ == shell_word(p@),
{
    let chars = chars_of(p);
    let mut quote = false;
    let mut escaped: Vec<char> = Vec::new();
    for i in 0..chars.len()
        invariant
            chars@ == p@,
            quote == needs_quotes(p@.take(i as int)),
            escaped@ == apostrophes_escaped(p@.take(i as int)),
    {
        let c: char = chars[i];
        let ghost shorter = p@.take(i as int);
        let ghost longer = p@.take(i + 1);
        proof {
            assert(longer.drop_last() =~= shorter);
            assert(longer.last() == c);
            if needs_quotes(shorter) {
                let k = choose|k: int| 0 <= k < shorter.len() && #[trigger] acts(shorter, k);
                assert(acts(longer, k));
            }
            if needs_quotes(longer) && !acts(p@, i as int) {
                let k = choose|k: int| 0 <= k < longer.len() && #[trigger] acts(longer, k);
                assert(acts(p@, k));
                assert(acts(shorter, k));
            }
            assert(acts(longer, i as int) == acts(p@, i as int));
        }
        if acts_at(&chars, i) {
            quote = true;
        }
        if c == '\'' {
            let ghost before = escaped@;
            escaped.push('\'');
            escaped.push('"');
            escaped.push('\'');
            escaped.push('"');
            escaped.push('\'');
            assert(escaped@ =~= before + seq!['\'', '"', '\'', '"', '\'']);
        } else {
            escaped.push(c);
        }
    }
    assert(p@.take(p@.len() as int) =~= p@);
    if quote {
        let mut v: Vec<char> = Vec::new();
        v.push('\'');
        v.append(&mut escaped);
        v.push('\'');
        assert(v@ =~= shell_word(p@));
        string_of(&v)
    } else {
        p.to_string()
    }
}

/// The command that starts the server: `ollama serve`, with the saved
/// [`OllamaControlsSettings::models_download_path`] as `OLLAMA_MODELS` over the inherited environment.
pub fn ollama_start_serve(settings: &OllamaControlsSettings) -> (r: CommandLine)
    ensures
        r@ == serve_command(path_of(*settings)),
        r.program@ == "ollama"@,
        r.args@.len() == 1,
        r.args@[0]@ == "serve"@,
        r.path is None,
        match settings.models_download_path {
            Some(path) => {
                &&& r.env@.len() == 1
                &&& r.env@[0].0@ == "OLLAMA_MODELS"@
                &&& r.env@[0].1@ == path@
            },
            None => r.env@.len() == 0,
        },
{
    let mut c = command("ollama", &["serve"]);
    assert(c@.args =~= seq!["serve"@]);
    match &settings.models_download_path {
        Some(path) => {
            let mut env: Vec<(String, String)> = Vec::new();
            env.push((OLLAMA_MODELS_ENV.to_string(), path.clone()));
            assert(env@.map_values(|e: (String, String)| (e.0@, e.1@)) =~= seq![
                ("OLLAMA_MODELS"@, path@),
            ]);
            c.env = env;
        },
        None => {},
    }
    c
}

/// What to write down of a server that was started, for [`ollama_stop_serve`].
pub fn pid_record(dir: Option<Location>, pid: u32) -> (r: Option<PidRecord>)
    ensures
        match (dir, r) {
            (Some(d), Some(record)) => {
                &&& record.dir@ == d@
                &&& record.file@ == d@.join("ollama-serve.pid"@)
                &&& record.text@ == decimal(pid as nat)
            },
            (None, None) => true,
            _ => false,
        },
        match r {
            Some(record) => {
                &&& number_in(record.text@, u32::MAX as nat) == Some(pid as nat)
                &&& record.file@.base == dir->0@.base
                &&& record.file@.components == dir->0@.components.push("ollama-serve.pid"@)
            },
            None => true,
        },
{
    match dir {
        Some(d) => {
            let file = d.copy().join(SERVE_PID_FILE);
            proof {
                law_decimal_is_read_back(pid as nat, u32::MAX as nat);
            }
            Some(PidRecord { dir: d, file, text: string_of(&to_decimal(pid as u64)) })
        },
        None => None,
    }
}

/// The process number that a text holds, white space round it aside.
pub fn parse_pid(text: &str) -> (r: Option<u32>)
    ensures
        match r {
            Some(pid) => pid_in(text@) == Some(pid as nat),
            None => pid_in(text@) is None,
        },
        number_in(trimmed(text@), u32::MAX as nat) == (match r {
            Some(pid) => Some(pid as nat),
            None => None,
        }),
{
    let chars = chars_of(text);
    parse_u32(trim(&chars))
}

fn kill(platform: Platform, pid: u32) -> (r: CommandLine)
    ensures
        r@ == kill_command(platform, pid as nat),
        match platform {
            Platform::Unix => {
                &&& r.program@ == "kill"@
                &&& r.args@.len() == 1
                &&& number_in(r.args@[0]@, u32::MAX as nat) == Some(pid as nat)
            },
            Platform::Windows => {
                &&& r.program@ == "taskkill"@
                &&& r.args@.len() == 3
                &&& r.args@[0]@ == "/PID"@
                &&& number_in(r.args@[1]@, u32::MAX as nat) == Some(pid as nat)
                &&& r.args@[2]@ == "/F"@
            },
        },
        r.path is None,
        r.env@.len() == 0,
{
    let number = string_of(&to_decimal(pid as u64));
    proof {
        law_decimal_is_read_back(pid as nat, u32::MAX as nat);
    }
    match platform {
        Platform::Unix => {
            let r = command("kill", &[number.as_str()]);
            assert(r@.args =~= seq![decimal(pid as nat)]);
            r
        },
        Platform::Windows => {
            let r = command("taskkill", &["/PID", number.as_str(), "/F"]);
            assert(r@.args =~= seq!["/PID"@, decimal(pid as nat), "/F"@]);
            r
        },
    }
}

fn fallback(platform: Platform) -> (r: CommandLine)
    ensures
        r@ == fallback_command(platform),
        match platform {
            Platform::Unix => {
                &&& r.program@ == "pkill"@
                &&& r.args@.len() == 2
                &&& r.args@[0]@ == "-f"@
                &&& r.args@[1]@ == "ollama serve"@
            },
            Platform::Windows => {
                &&& r.program@ == "taskkill"@
                &&& r.args@.len() == 3
                &&& r.args@[0]@ == "/F"@
                &&& r.args@[1]@ == "/IM"@
                &&& r.args@[2]@ == "ollama.exe"@
            },
        },
        r.path is None,
        r.env@.len() == 0,
{
    match platform {
        Platform::Unix => {
            let r = command("pkill", &["-f", "ollama serve"]);
            assert(r@.args =~= seq!["-f"@, "ollama serve"@]);
            r
        },
        Platform::Windows => {
            let r = command("taskkill", &["/F", "/IM", "ollama.exe"]);
            assert(r@.args =~= seq!["/F"@, "/IM"@, "ollama.exe"@]);
            r
        },
    }
}

/// The steps that stop a server previously started with [`ollama_start_serve`] (PID file), then
/// best-effort `pkill` / `taskkill`.
pub fn ollama_stop_serve(
    platform: Platform,
    pid_file: Option<Location>,
    pid_text: Option<String>,
) -> (r: Vec<StopStep>)
    ensures
        r@.map_values(|s: StopStep| s@) == stop_steps(
            platform,
            opt_location(pid_file),
            opt_view(pid_text),
        ),
        r@.len() > 0,
        match r@.last() {
            StopStep::Fallback(c) => match platform {
                Platform::Unix => {
                    &&& c.program@ == "pkill"@
                    &&& c.args@.len() == 2
                    &&& c.args@[0]@ == "-f"@
                    &&& c.args@[1]@ == "ollama serve"@
                },
                Platform::Windows => {
                    &&& c.program@ == "taskkill"@
                    &&& c.args@.len() == 3
                    &&& c.args@[0]@ == "/F"@
                    &&& c.args@[1]@ == "/IM"@
                    &&& c.args@[2]@ == "ollama.exe"@
                },
            },
            _ => false,
        },
        match pid_file {
            Some(file) => {
                let recorded = match pid_text {
                    Some(text) => number_in(trimmed(text@), u32::MAX as nat),
                    None => None,
                };
                &&& r@.len() == (if recorded is Some {
                    3int
                } else {
                    2
                })
                &&& match r@[r@.len() - 2] {
                    StopStep::RemoveFile(l) => l@ == file@,
                    _ => false,
                }
                &&& recorded is Some ==> match r@[0] {
                    StopStep::Kill(c) => {
                        &&& match platform {
                            Platform::Unix => {
                                &&& c.program@ == "kill"@
                                &&& c.args@.len() == 1
                                &&& number_in(c.args@[0]@, u32::MAX as nat) == Some(recorded->0)
                            },
                            Platform::Windows => {
                                &&& c.program@ == "taskkill"@
                                &&& c.args@.len() == 3
                                &&& c.args@[0]@ == "/PID"@
                                &&& number_in(c.args@[1]@, u32::MAX as nat) == Some(recorded->0)
                                &&& c.args@[2]@ == "/F"@
                            },
                        }
                        &&& c.path is None
                        &&& c.env@.len() == 0
                    },
                    _ => false,
                }
            },
            None => r@.len() == 1,
        },
{
    let mut steps: Vec<StopStep> = Vec::new();
    match pid_file {
        Some(file) => {
            match &pid_text {
                Some(text) => match parse_pid(text.as_str()) {
                    Some(pid) => {
                        steps.push(StopStep::Kill(kill(platform, pid)));
                    },
                    None => {},
                },
                None => {},
            }
            steps.push(StopStep::RemoveFile(file));
        },
        None => {},
    }
    steps.push(StopStep::Fallback(fallback(platform)));
    assert(steps@.map_values(|s: StopStep| s@) =~= stop_steps(
        platform,
        opt_location(pid_file),
        opt_view(pid_text),
    ));
    steps
}

/// What the end of the fallback command means: it worked, or found no server to
/// end, or failed.
pub fn ollama_stop_serve_fallback(platform: Platform, status: Result<ExitReport, String>) -> (r:
    Result<(), String>)
    ensures
        match status {
            Ok(report) => if report.success || report.code == Some(
                match platform {
                    Platform::Unix => 1i32,
                    Platform::Windows => 128i32,
                },
            ) {
                r is Ok
            } else {
                r is Err && r->Err_0@ == (match platform {
                    Platform::Unix => "could not stop ollama serve (pkill failed)"@,
                    Platform::Windows => "could not stop Ollama (taskkill)"@,
                })
            },
            Err(e) => r is Err && r->Err_0@ == e@,
        },
{
    match status {
        Ok(report) => {
            let nothing_to_stop: i32 = match platform {
                Platform::Unix => 1,
                Platform::Windows => 128,
            };
            let found_none = match report.code {
                Some(code) => code == nothing_to_stop,
                None => false,
            };
            if report.success || found_none {
                Ok(())
            } else {
                match platform {
                    Platform::Unix => Err("could not stop ollama serve (pkill failed)".to_string()),
                    Platform::Windows => Err("could not stop Ollama (taskkill)".to_string()),
                }
            }
        },
        Err(e) => Err(e),
    }
}

/// A server that was started is the one that is stopped: from the record of its
/// process number, with or without white space round it, come the steps that end
/// that process, remove the record and run the fallback, in this order.
pub proof fn law_started_server_is_stopped(
    platform: Platform,
    dir: LocationView,
    pid: u32,
    before: Seq<char>,
    after: Seq<char>,
)
    requires
        is_blank(before),
        is_blank(after),
    ensures
        stop_steps(
            platform,
            file_in(Some(dir), "ollama-serve.pid"@),
            Some(before + decimal(pid as nat) + after),
        ) == seq![
            StopStepView::Kill(
                CommandView {
                    program: match platform {
                        Platform::Unix => "kill"@,
                        Platform::Windows => "taskkill"@,
                    },
                    args: match platform {
                        Platform::Unix => seq![decimal(pid as nat)],
                        Platform::Windows => seq!["/PID"@, decimal(pid as nat), "/F"@],
                    },
                    path: None,
                    env: Seq::empty(),
                },
            ),
            StopStepView::RemoveFile(dir.join("ollama-serve.pid"@)),
            StopStepView::Fallback(fallback_command(platform)),
        ],
{
    let text = decimal(pid as nat);
    lemma_decimal(pid as nat);
    assert(is_digit(text[0]));
    assert(is_digit(text[text.len() - 1]));
    law_white_space_round_a_text_is_trimmed(before, text, after);
    law_decimal_is_read_back(pid as nat, u32::MAX as nat);
}

/// Whatever is known of the server, the fallback is run once, as the last step, and
/// the file of the process number, where its place is known, is removed just before.
pub proof fn law_fallback_comes_last(
    platform: Platform,
    pid_file: Option<LocationView>,
    pid_text: Option<Seq<char>>,
)
    ensures
        ({
            let steps = stop_steps(platform, pid_file, pid_text);
            &&& steps.len() > 0
            &&& steps.last() == StopStepView::Fallback(fallback_command(platform))
            &&& forall|i: int|
                0 <= i < steps.len() - 1 ==> !((#[trigger] steps[i]) is Fallback)
            &&& match pid_file {
                Some(file) => steps.len() > 1 && steps[steps.len() - 2]
                    == StopStepView::RemoveFile(file),
                None => steps.len() == 1,
            }
        }),
{
}

/// Only a process that the file names is ended by its number.
pub proof fn law_only_a_recorded_process_is_killed(
    platform: Platform,
    pid_file: Option<LocationView>,
    pid_text: Option<Seq<char>>,
    i: int,
)
    requires
        0 <= i < stop_steps(platform, pid_file, pid_text).len(),
        stop_steps(platform, pid_file, pid_text)[i] is Kill,
    ensures
        i == 0,
        pid_file is Some,
        match pid_text {
            Some(text) => match pid_in(text) {
                Some(pid) => stop_steps(platform, pid_file, pid_text)[i] == StopStepView::Kill(
                    kill_command(platform, pid),
                ),
                None => false,
            },
            None => false,
        },
{
}

/// The line that exports a path ends with a word that a shell reads as that path,
/// whatever characters it has.
pub proof fn law_shell_word_is_read_back(path: Seq<char>)
    ensures
        export_line(path) == "export OLLAMA_MODELS="@ + shell_word(path),
        reading(shell_word(path)) == Reading::Bare(path),
{
    if needs_quotes(path) {
        let quoted = seq!['\''] + apostrophes_escaped(path);
        lemma_read_escaped(path);
        assert(shell_word(path) =~= quoted.push('\''));
        assert(quoted.push('\'').drop_last() =~= quoted);
    } else {
        lemma_read_bare(path);
    }
}

/// A path with an apostrophe or white space stands between apostrophes, with each
/// apostrophe inside escaped.
pub proof fn law_apostrophes_and_white_space_are_quoted(path: Seq<char>, i: int)
    requires
        0 <= i < path.len(),
        path[i] == '\'' || is_white_space(path[i]),
    ensures
        shell_word(path) == seq!['\''] + apostrophes_escaped(path).push('\''),
{
    assert(acts(path, i));
}

/// Reading an apostrophe and then an escaped text leaves a shell between
/// apostrophes, with the text read.
proof fn lemma_read_escaped(path: Seq<char>)
    ensures
        reading(seq!['\''] + apostrophes_escaped(path)) == Reading::Single(path),
    decreases path.len(),
{
    let quote = seq!['\''];
    let word = quote + apostrophes_escaped(path);
    if path.len() == 0 {
        assert(word =~= quote);
        assert(quote.drop_last() =~= Seq::empty());
        assert(reading(Seq::empty()) == Reading::Bare(Seq::empty()));
        assert(path =~= Seq::empty());
    } else {
        let shorter = path.drop_last();
        let before = quote + apostrophes_escaped(shorter);
        lemma_read_escaped(shorter);
        assert(path =~= shorter.push(path.last()));
        if path.last() == '\'' {
            let b1 = before.push('\'');
            let b2 = b1.push('"');
            let b3 = b2.push('\'');
            let b4 = b3.push('"');
            let b5 = b4.push('\'');
            assert(word =~= b5);
            assert(b1.drop_last() =~= before);
            assert(b2.drop_last() =~= b1);
            assert(b3.drop_last() =~= b2);
            assert(b4.drop_last() =~= b3);
            assert(b5.drop_last() =~= b4);
            assert(reading(b1) == Reading::Bare(shorter));
            assert(reading(b2) == Reading::Double(shorter));
            assert(reading(b3) == Reading::Double(path));
            assert(reading(b4) == Reading::Bare(path));
            assert(reading(b5) == Reading::Single(path));
        } else {
            assert(word =~= before.push(path.last()));
            assert(word.drop_last() =~= before);
        }
    }
}

/// A shell reads a word with nothing to act on as it is.
proof fn lemma_read_bare(path: Seq<char>)
    requires
        !needs_quotes(path),
    ensures
        reading(path) == Reading::Bare(path),
    decreases path.len(),
{
    if path.len() == 0 {
        assert(path =~= Seq::empty());
    } else {
        let shorter = path.drop_last();
        assert(!needs_quotes(shorter)) by {
            if needs_quotes(shorter) {
                let k = choose|k: int| 0 <= k < shorter.len() && #[trigger] acts(shorter, k);
                assert(acts(path, k));
            }
        }
        lemma_read_bare(shorter);
        assert(path =~= shorter.push(path.last()));
        assert(!acts(path, path.len() - 1));
    }
}

/// Settings that were saved are the ones that are loaded, whatever the file held.
pub proof fn law_saved_settings_are_loaded(
    before: Option<Option<Seq<char>>>,
    dir: LocationView,
    path: Option<Seq<char>>,
)
    ensures
        loaded_path(stored_after(before, saving(Some(dir), path))) == path,
{
}

/// A download directory that was created and saved is the one that is loaded. Where it
/// could not be created, or no configuration directory is known, nothing is written
/// and what is loaded stays as it was.
pub proof fn law_download_path_is_saved_and_loaded(
    before: Option<Option<Seq<char>>>,
    dir: Option<LocationView>,
    created: Result<(), Seq<char>>,
    canonical: Option<Seq<char>>,
    given: Seq<char>,
)
    ensures
        ({
            let save = path_saving(dir, created, canonical, given);
            let after = stored_after(before, save);
            match (created, dir) {
                (Err(error), _) => {
                    &&& save == Err::<SettingsSaveView, Seq<char>>(
                        "create_dir_all "@ + given + ": "@ + error,
                    )
                    &&& after == before
                },
                (Ok(()), None) => {
                    &&& save == Err::<SettingsSaveView, Seq<char>>(
                        "could not resolve config directory"@,
                    )
                    &&& after == before
                },
                (Ok(()), Some(d)) => {
                    &&& save is Ok
                    &&& save->Ok_0.dir == d
                    &&& Some(save->Ok_0.file) == file_in(dir, "settings.json"@)
                    &&& loaded_path(after) == Some(saved_path(canonical, given))
                },
            }
        }),
{
}

/// A download directory that was saved is the one that a server started later gets,
/// and the only thing that is set for it; without one nothing is set.
pub proof fn law_saved_path_reaches_the_server(
    before: Option<Option<Seq<char>>>,
    dir: LocationView,
    canonical: Option<Seq<char>>,
    given: Seq<char>,
)
    ensures
        ({
            let save = path_saving(Some(dir), Ok(()), canonical, given);
            let serve = serve_command(loaded_path(stored_after(before, save)));
            &&& serve.env == seq![("OLLAMA_MODELS"@, saved_path(canonical, given))]
            &&& serve.program == serve_command(None).program
            &&& serve.args == serve_command(None).args
            &&& serve_command(None).env == Seq::<(Seq<char>, Seq<char>)>::empty()
        }),
{
}

/// The process that is ended is the one recorded, by its whole number: whatever stands
/// round the number in the record, the first step runs the platform's program with a
/// word that is read as that number, the second removes the record, and the last is
/// the fallback.
pub proof fn law_recorded_process_is_the_one_ended(
    platform: Platform,
    file: LocationView,
    pid: u32,
    before: Seq<char>,
    digits: Seq<char>,
    after: Seq<char>,
)
    requires
        forall|i: int| 0 <= i < before.len() ==> is_white_space(#[trigger] before[i]),
        forall|i: int| 0 <= i < after.len() ==> is_white_space(#[trigger] after[i]),
        number_in(digits, u32::MAX as nat) == Some(pid as nat),
        !is_white_space(digits[0]),
        !is_white_space(digits.last()),
    ensures
        ({
            let steps = stop_steps(platform, Some(file), Some(before + digits + after));
            &&& steps.len() == 3
            &&& match steps[0] {
                StopStepView::Kill(c) => {
                    &&& match platform {
                        Platform::Unix => {
                            &&& c.program == "kill"@
                            &&& c.args.len() == 1
                            &&& number_in(c.args[0], u32::MAX as nat) == Some(pid as nat)
                        },
                        Platform::Windows => {
                            &&& c.program == "taskkill"@
                            &&& c.args.len() == 3
                            &&& c.args[0] == "/PID"@
                            &&& number_in(c.args[1], u32::MAX as nat) == Some(pid as nat)
                            &&& c.args[2] == "/F"@
                        },
                    }
                    &&& c.path is None
                    &&& c.env.len() == 0
                },
                _ => false,
            }
            &&& match steps[1] {
                StopStepView::RemoveFile(l) => l == file,
                _ => false,
            }
            &&& steps[2] is Fallback
        }),
{
    law_other_texts_are_no_numbers(digits, 0, u32::MAX as nat);
    assert(digits.len() > 0) by {
        if digits.len() == 0 {
            assert(digits =~= Seq::empty());
        }
    }
    law_trimming(before, digits, after);
    law_decimal_is_read_back(pid as nat, u32::MAX as nat);
}

/// The record of a started server holds its process number: it is read back as the
/// number, and stopping the server from it ends the process of that number.
pub proof fn law_started_process_is_the_one_ended(platform: Platform, file: LocationView, pid: u32)
    ensures
        number_in(decimal(pid as nat), u32::MAX as nat) == Some(pid as nat),
        match stop_steps(platform, Some(file), Some(decimal(pid as nat)))[0] {
            StopStepView::Kill(c) => match platform {
                Platform::Unix => {
                    &&& c.program == "kill"@
                    &&& c.args.len() == 1
                    &&& number_in(c.args[0], u32::MAX as nat) == Some(pid as nat)
                },
                Platform::Windows => {
                    &&& c.program == "taskkill"@
                    &&& c.args.len() == 3
                    &&& c.args[0] == "/PID"@
                    &&& number_in(c.args[1], u32::MAX as nat) == Some(pid as nat)
                    &&& c.args[2] == "/F"@
                },
            },
            _ => false,
        },
{
    let digits = decimal(pid as nat);
    let none = Seq::<char>::empty();
    law_decimal(pid as nat);
    law_decimal_is_read_back(pid as nat, u32::MAX as nat);
    assert('0' <= digits[0] <= '9');
    assert('0' <= digits[digits.len() - 1] <= '9');
    assert(none + digits + none =~= digits);
    law_recorded_process_is_the_one_ended(platform, file, pid, none, digits, none);
}

/// The fallback is the platform's command against every server, with nothing else set.
pub proof fn law_fallback_ends_every_server(
    platform: Platform,
    pid_file: Option<LocationView>,
    pid_text: Option<Seq<char>>,
)
    ensures
        match stop_steps(platform, pid_file, pid_text).last() {
            StopStepView::Fallback(c) => {
                &&& match platform {
                    Platform::Unix => {
                        &&& c.program == "pkill"@
                        &&& c.args == seq!["-f"@, "ollama serve"@]
                    },
                    Platform::Windows => {
                        &&& c.program == "taskkill"@
                        &&& c.args == seq!["/F"@, "/IM"@, "ollama.exe"@]
                    },
                }
                &&& c.path is None
                &&& c.env.len() == 0
            },
            _ => false,
        },
{
}

/// Without a record that holds a number, no process is ended by a number; the record is
/// removed all the same where its place is known.
pub proof fn law_no_number_no_kill(
    platform: Platform,
    file: LocationView,
    pid_text: Option<Seq<char>>,
)
    requires
        match pid_text {
            Some(text) => number_in(trimmed(text), u32::MAX as nat) is None,
            None => true,
        },
    ensures
        stop_steps(platform, Some(file), pid_text).len() == 2,
        match stop_steps(platform, Some(file), pid_text)[0] {
            StopStepView::RemoveFile(l) => l == file,
            _ => false,
        },
        stop_steps(platform, None, pid_text).len() == 1,
{
}

/// The models of places, steps and saves hold what these hold, part by part.
pub proof fn law_models_of_plans(
    l: Location,
    o: Option<Location>,
    step: StopStep,
    save: SettingsSave,
)
    ensures
        l@.base == l.base@,
        l@.components.len() == l.components@.len(),
        forall|i: int|
            0 <= i < l.components@.len() ==> #[trigger] l@.components[i] == l.components@[i]@,
        match o {
            Some(place) => opt_location(o) == Some(place@),
            None => opt_location(o) is None,
        },
        match (step, step@) {
            (StopStep::Kill(c), StopStepView::Kill(v)) => v == c@,
            (StopStep::RemoveFile(f), StopStepView::RemoveFile(v)) => v == f@,
            (StopStep::Fallback(c), StopStepView::Fallback(v)) => v == c@,
            _ => false,
        },
        save@.dir == save.dir@,
        save@.file == save.file@,
        save@.path == (match save.settings.models_download_path {
            Some(path) => Some(path@),
            None => None,
        }),
{
}

/// A name that is joined to a place comes last, and the rest of the place stays.
pub proof fn law_joined_names_come_last(place: LocationView, base: Seq<char>, name: Seq<char>)
    ensures
        place.join(name).base == place.base,
        place.join(name).components == place.components + seq![name],
        directory(base).base == base,
        directory(base).components.len() == 0,
        file_in(Some(place), name) == Some(place.join(name)),
        file_in(None, name) is None,
{
    assert(place.components.push(name) =~= place.components + seq![name]);
}

/// The configuration directory stands below the first of the places that is known: that
/// of `XDG_CONFIG_HOME` on every platform, then that of the platform.
pub proof fn law_config_directory(
    platform: Platform,
    xdg: Option<Seq<char>>,
    appdata: Option<Seq<char>>,
    home: Option<Seq<char>>,
)
    ensures
        match (xdg, platform, appdata, home, config_place(platform, xdg, appdata, home)) {
            (Some(base), _, _, _, Some(place)) => {
                &&& place.base == base
                &&& place.components == seq!["ollama-controls"@]
            },
            (None, Platform::Windows, Some(base), _, Some(place)) => {
                &&& place.base == base
                &&& place.components == seq!["ollama-controls"@]
            },
            (None, Platform::Unix, _, Some(base), Some(place)) => {
                &&& place.base == base
                &&& place.components == seq![".config"@, "ollama-controls"@]
            },
            (None, Platform::Windows, None, _, None) => true,
            (None, Platform::Unix, _, None, None) => true,
            _ => false,
        },
{
    let none = Seq::<Seq<char>>::empty();
    assert(none.push("ollama-controls"@) =~= seq!["ollama-controls"@]);
    assert(none.push(".config"@).push("ollama-controls"@) =~= seq![
        ".config"@,
        "ollama-controls"@,
    ]);
}

/// A saved path is the canonical one, whole, and the given one, whole, where there is
/// none; settings hold their path, and without settings there is no path.
pub proof fn law_paths_are_kept_whole(
    canonical: Seq<char>,
    given: Seq<char>,
    settings: OllamaControlsSettings,
    path: Option<Seq<char>>,
)
    ensures
        saved_path(Some(canonical), given) == canonical,
        saved_path(None, given) == given,
        loaded_path(Some(path)) == path,
        loaded_path(None) is None,
        match settings.models_download_path {
            Some(p) => path_of(settings) == Some(p@),
            None => path_of(settings) is None,
        },
{
}

/// The server is started with the download directory, whole, as the one variable that
/// is set, and without a directory with none.
pub proof fn law_server_gets_the_whole_path(path: Seq<char>)
    ensures
        serve_command(Some(path)).program == "ollama"@,
        serve_command(Some(path)).args == seq!["serve"@],
        serve_command(Some(path)).path is None,
        serve_command(Some(path)).env == seq![("OLLAMA_MODELS"@, path)],
        serve_command(None).program == "ollama"@,
        serve_command(None).args == seq!["serve"@],
        serve_command(None).path is None,
        serve_command(None).env.len() == 0,
{
}

/// What is written in a save is the path of the settings, in the settings file of the
/// directory; without a directory nothing is written.
pub proof fn law_saves_hold_the_path(dir: LocationView, path: Option<Seq<char>>)
    ensures
        match saving(Some(dir), path) {
            Ok(save) => {
                &&& save.dir == dir
                &&& save.file.base == dir.base
                &&& save.file.components == dir.components + seq!["settings.json"@]
                &&& save.path == path
            },
            Err(_) => false,
        },
        saving(None, path) == Err::<SettingsSaveView, Seq<char>>(
            "could not resolve config directory"@,
        ),
{
    assert(dir.components.push("settings.json"@) =~= dir.components + seq!["settings.json"@]);
}

/// A path is quoted exactly where it has white space, a quote, or another character that
/// a shell acts on; a tilde counts at the start and behind a colon.
pub proof fn law_what_a_shell_acts_on_is_quoted(p: Seq<char>)
    ensures
        needs_quotes(p) <==> exists|i: int| 0 <= i < p.len() && {
            let c = #[trigger] p[i];
            ||| is_white_space(c)
            ||| c == '\'' || c == '"' || c == '\\'
            ||| c == '|' || c == '&' || c == ';' || c == '<' || c == '>' || c == '(' || c == ')'
            ||| c == '$' || c == '`' || c == '!'
            ||| c == '*' || c == '?' || c == '[' || c == '{'
            ||| c == '~' && (i == 0 || p[i - 1] == ':')
        },
{
    if needs_quotes(p) {
        let i = choose|i: int| 0 <= i < p.len() && #[trigger] acts(p, i);
        let c = p[i];
    }
    if exists|i: int| 0 <= i < p.len() && {
        let c = #[trigger] p[i];
        ||| is_white_space(c)
        ||| c == '\'' || c == '"' || c == '\\'
        ||| c == '|' || c == '&' || c == ';' || c == '<' || c == '>' || c == '(' || c == ')'
        ||| c == '$' || c == '`' || c == '!'
        ||| c == '*' || c == '?' || c == '[' || c == '{'
        ||| c == '~' && (i == 0 || p[i - 1] == ':')
    } {
        let i = choose|i: int| 0 <= i < p.len() && {
            let c = #[trigger] p[i];
            ||| is_white_space(c)
            ||| c == '\'' || c == '"' || c == '\\'
            ||| c == '|' || c == '&' || c == ';' || c == '<' || c == '>' || c == '(' || c == ')'
            ||| c == '$' || c == '`' || c == '!'
            ||| c == '*' || c == '?' || c == '[' || c == '{'
            ||| c == '~' && (i == 0 || p[i - 1] == ':')
        };
        assert(acts(p, i));
    }
}

/// A path without quotes around it stays as it is. A quoted one stands, whole, between
/// apostrophes: without apostrophes inside as it is, and each apostrophe inside is
/// written as an apostrophe between double quotes, outside the apostrophes.
pub proof fn law_quoted_paths_are_whole(p: Seq<char>, a: Seq<char>, b: Seq<char>)
    ensures
        !needs_quotes(p) ==> shell_word(p) == p,
        needs_quotes(p) ==> shell_word(p) == seq!['\''] + apostrophes_escaped(p) + seq!['\''],
        !a.contains('\'') ==> apostrophes_escaped(a) == a,
        apostrophes_escaped(a + seq!['\''] + b) == apostrophes_escaped(a) + seq![
            '\'',
            '"',
            '\'',
            '"',
            '\'',
        ] + apostrophes_escaped(b),
{
    assert(seq!['\''] + apostrophes_escaped(p).push('\'') =~= seq!['\''] + apostrophes_escaped(p)
        + seq!['\'']);
    if !a.contains('\'') {
        lemma_nothing_to_escape(a);
    }
    let first = a + seq!['\''];
    assert(first.drop_last() =~= a);
    assert(first.last() == '\'');
    lemma_escaped_apart(first, b);
}

proof fn lemma_nothing_to_escape(a: Seq<char>)
    requires
        !a.contains('\''),
    ensures
        apostrophes_escaped(a) == a,
    decreases a.len(),
{
    if a.len() == 0 {
        assert(a =~= Seq::empty());
    } else {
        let shorter = a.drop_last();
        assert(!shorter.contains('\'')) by {
            if shorter.contains('\'') {
                let i = choose|i: int| 0 <= i < shorter.len() && shorter[i] == '\'';
                assert(a[i] == '\'');
            }
        }
        lemma_nothing_to_escape(shorter);
        assert(a[a.len() - 1] == a.last());
        assert(shorter.push(a.last()) =~= a);
    }
}

proof fn lemma_escaped_apart(a: Seq<char>, b: Seq<char>)
    ensures
        apostrophes_escaped(a + b) == apostrophes_escaped(a) + apostrophes_escaped(b),
    decreases b.len(),
{
    if b.len() == 0 {
        assert(a + b =~= a);
        assert(apostrophes_escaped(a) + apostrophes_escaped(b) =~= apostrophes_escaped(a));
    } else {
        let shorter = b.drop_last();
        lemma_escaped_apart(a, shorter);
        assert((a + b).drop_last() =~= a + shorter);
        assert((a + b).last() == b.last());
        assert(apostrophes_escaped(a + b) =~= apostrophes_escaped(a) + apostrophes_escaped(b));
    }
}

}
