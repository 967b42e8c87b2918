use ollama_controls::cli::CommandLine;
use ollama_controls::config::{
    create_dir_message, default_models_dir_home, load_settings, ollama_stop_serve_fallback, parse_pid,
    pid_path, pid_record, save_settings_inner, settings_path, shell_escape_path, ExitReport, Location,
    Platform, StopStep, SERVE_PID_FILE, SETTINGS_FILE,
};
use ollama_controls::{
    config_dir, models_path_info, ollama_start_serve, ollama_stop_serve, set_models_download_path,
    OllamaControlsSettings, OLLAMA_MODELS_ENV,
};

fn some(s: &str) -> Option<String> {
    Some(s.to_string())
}

fn place(location: Option<Location>) -> Option<String> {
    location.map(|l| {
        let mut text = l.base;
        for c in l.components {
            text.push('|');
            text.push_str(&c);
        }
        text
    })
}

fn dir(base: &str) -> Option<Location> {
    Some(Location { base: base.to_string(), components: vec![] })
}

fn line(command: &CommandLine) -> String {
    format!("{} {}", command.program, command.args.join(" "))
}

fn steps(platform: Platform, file: Option<Location>, text: Option<String>) -> Vec<String> {
    ollama_stop_serve(platform, file, text)
        .into_iter()
        .map(|step| match step {
            StopStep::Kill(c) => format!("kill: {}", line(&c)),
            StopStep::RemoveFile(l) => format!("remove: {}", place(Some(l)).unwrap()),
            StopStep::Fallback(c) => format!("fallback: {}", line(&c)),
        })
        .collect()
}

#[test]
fn names_of_files_and_variables() {
    assert_eq!(OLLAMA_MODELS_ENV, "OLLAMA_MODELS");
    assert_eq!(SETTINGS_FILE, "settings.json");
    assert_eq!(SERVE_PID_FILE, "ollama-serve.pid");
}

#[test]
fn config_dir_prefers_xdg() {
    for platform in [Platform::Unix, Platform::Windows] {
        assert_eq!(
            place(config_dir(platform, some("/x"), some("C:\\A"), some("/home/u"))),
            some("/x|ollama-controls")
        );
    }
}

#[test]
fn config_dir_goes_by_the_platform() {
    assert_eq!(
        place(config_dir(Platform::Windows, None, some("C:\\A"), some("/home/u"))),
        some("C:\\A|ollama-controls")
    );
    assert_eq!(
        place(config_dir(Platform::Unix, None, some("C:\\A"), some("/home/u"))),
        some("/home/u|.config|ollama-controls")
    );
    assert!(config_dir(Platform::Windows, None, None, some("/home/u")).is_none());
    assert!(config_dir(Platform::Unix, None, some("C:\\A"), None).is_none());
}

#[test]
fn files_stand_in_the_config_dir() {
    assert_eq!(place(settings_path(dir("/c"))), some("/c|settings.json"));
    assert_eq!(place(pid_path(dir("/c"))), some("/c|ollama-serve.pid"));
    assert!(settings_path(None).is_none());
    assert!(pid_path(None).is_none());
    let settings = OllamaControlsSettings { models_download_path: some("/m") };
    let save = save_settings_inner(dir("/c"), settings.clone()).unwrap();
    assert_eq!(place(Some(save.dir)), some("/c"));
    assert_eq!(place(Some(save.file)), some("/c|settings.json"));
    assert_eq!(load_settings(Some(save.settings)).models_download_path, some("/m"));
    assert_eq!(
        save_settings_inner(None, settings).err(),
        some("could not resolve config directory")
    );
}

#[test]
fn settings_default_to_nothing() {
    assert_eq!(load_settings(None).models_download_path, None);
    let saved = OllamaControlsSettings { models_download_path: some("/m") };
    assert_eq!(load_settings(Some(saved)).models_download_path, some("/m"));
}

#[test]
fn the_download_path_is_the_canonical_one() {
    let old = OllamaControlsSettings { models_download_path: some("/old") };
    let set = |created: Result<(), String>, dir: Option<Location>, canonical: Option<String>| {
        set_models_download_path(old.clone(), dir, created, canonical, "models".to_string())
    };
    let save = set(Ok(()), dir("/c"), some("/data/models")).unwrap();
    assert_eq!(place(Some(save.dir)), some("/c"));
    assert_eq!(place(Some(save.file)), some("/c|settings.json"));
    assert_eq!(load_settings(Some(save.settings)).models_download_path, some("/data/models"));
    let save = set(Ok(()), dir("/c"), None).unwrap();
    assert_eq!(load_settings(Some(save.settings)).models_download_path, some("models"));
    assert_eq!(
        set(Err("denied".to_string()), dir("/c"), some("/data/models")).err(),
        some("create_dir_all models: denied")
    );
    assert_eq!(
        set(Err("denied".to_string()), None, None).err(),
        some("create_dir_all models: denied")
    );
    assert_eq!(set(Ok(()), None, None).err(), some("could not resolve config directory"));
    assert_eq!(create_dir_message("/m", "denied"), "create_dir_all /m: denied");
}

#[test]
fn the_default_models_dir_is_in_the_home() {
    assert_eq!(
        place(default_models_dir_home(Platform::Unix, some("C:\\U"), some("/home/u"))),
        some("/home/u|.ollama|models")
    );
    assert_eq!(
        place(default_models_dir_home(Platform::Windows, some("C:\\U"), some("/home/u"))),
        some("C:\\U|.ollama|models")
    );
    assert!(default_models_dir_home(Platform::Unix, some("C:\\U"), None).is_none());
    assert!(default_models_dir_home(Platform::Windows, None, some("/home/u")).is_none());
}

#[test]
fn paths_are_quoted_for_a_shell() {
    assert_eq!(shell_escape_path("/data/models"), "/data/models");
    assert_eq!(shell_escape_path("/my data"), "'/my data'");
    assert_eq!(shell_escape_path("/a\u{a0}b"), "'/a\u{a0}b'");
    assert_eq!(shell_escape_path("it's"), "'it'\"'\"'s'");
    assert_eq!(shell_escape_path("'"), "''\"'\"''");
    assert_eq!(shell_escape_path(""), "");
    assert_eq!(shell_escape_path("/a$b"), "'/a$b'");
    assert_eq!(shell_escape_path("/a;b"), "'/a;b'");
    assert_eq!(shell_escape_path("C:\\models"), "'C:\\models'");
    assert_eq!(shell_escape_path("/d\u{e9}p\u{f4}t/x-1_2.3,4:5@6+7"), "/d\u{e9}p\u{f4}t/x-1_2.3,4:5@6+7");
    for c in "|&;<>()$`\\\"*?[{! \t\n".chars() {
        assert_eq!(shell_escape_path(&format!("/a{}b", c)), format!("'/a{}b'", c));
    }
}

#[test]
fn paths_that_a_shell_does_not_act_on_stay_bare() {
    for c in "]}%^#=~".chars() {
        let path = format!("/a{}b", c);
        assert_eq!(shell_escape_path(&path), path);
    }
    for path in ["=a", "#a", "%a", "]a", "}a", "^a", "a~", "/a/~b", "a:b", "a:b~"] {
        assert_eq!(shell_escape_path(path), path);
    }
    assert_eq!(shell_escape_path("~"), "'~'");
    assert_eq!(shell_escape_path("~/models"), "'~/models'");
    assert_eq!(shell_escape_path("/a:~/b"), "'/a:~/b'");
}

#[test]
fn path_info_shows_all_places() {
    let info = models_path_info(
        some("/env"),
        OllamaControlsSettings { models_download_path: some("/my data") },
        some("/home/u/.ollama/models"),
    );
    assert_eq!(info.ollama_models_env, some("/env"));
    assert_eq!(info.configured_download_path, some("/my data"));
    assert_eq!(info.default_home_models_dir, some("/home/u/.ollama/models"));
    assert_eq!(info.shell_export_configured, some("export OLLAMA_MODELS='/my data'"));
    let settings = OllamaControlsSettings { models_download_path: some("/a;b") };
    let info = models_path_info(None, settings, None);
    assert_eq!(info.shell_export_configured, some("export OLLAMA_MODELS='/a;b'"));
    let info = models_path_info(None, OllamaControlsSettings::default(), None);
    assert_eq!(info.ollama_models_env, None);
    assert_eq!(info.configured_download_path, None);
    assert_eq!(info.default_home_models_dir, None);
    assert_eq!(info.shell_export_configured, None);
}

#[test]
fn the_saved_path_reaches_the_server() {
    let save = set_models_download_path(
        OllamaControlsSettings::default(),
        dir("/c"),
        Ok(()),
        None,
        "/m".to_string(),
    );
    let command = ollama_start_serve(&load_settings(Some(save.unwrap().settings)));
    assert_eq!(line(&command), "ollama serve");
    assert_eq!(command.env, vec![("OLLAMA_MODELS".to_string(), "/m".to_string())]);
    let command = ollama_start_serve(&OllamaControlsSettings::default());
    assert_eq!(line(&command), "ollama serve");
    assert!(command.env.is_empty());
}

#[test]
fn the_started_server_is_stopped() {
    let record = pid_record(dir("/c"), 4321).unwrap();
    assert_eq!(place(Some(record.dir)), some("/c"));
    assert_eq!(place(Some(record.file.clone())), some("/c|ollama-serve.pid"));
    assert_eq!(record.text, "4321");
    assert_eq!(
        steps(Platform::Unix, Some(record.file), Some(record.text)),
        vec![
            "kill: kill 4321".to_string(),
            "remove: /c|ollama-serve.pid".to_string(),
            "fallback: pkill -f ollama serve".to_string(),
        ]
    );
    assert!(pid_record(None, 1).is_none());
}

#[test]
fn servers_are_stopped_on_windows() {
    assert_eq!(
        steps(Platform::Windows, dir("p"), some(" 7\r\n")),
        vec![
            "kill: taskkill /PID 7 /F".to_string(),
            "remove: p".to_string(),
            "fallback: taskkill /F /IM ollama.exe".to_string(),
        ]
    );
}

#[test]
fn only_a_recorded_process_is_killed() {
    let rest = vec!["remove: p".to_string(), "fallback: pkill -f ollama serve".to_string()];
    assert_eq!(steps(Platform::Unix, dir("p"), None), rest);
    assert_eq!(steps(Platform::Unix, dir("p"), some("none")), rest);
    assert_eq!(steps(Platform::Unix, dir("p"), some("4294967296")), rest);
    let fallback = vec!["fallback: pkill -f ollama serve".to_string()];
    assert_eq!(steps(Platform::Unix, None, some("1")), fallback);
    assert_eq!(steps(Platform::Unix, None, None), fallback);
}

#[test]
fn process_numbers_are_read() {
    assert_eq!(parse_pid("4294967295"), Some(u32::MAX));
    assert_eq!(parse_pid("\t+012\n"), Some(12));
    assert_eq!(parse_pid("0"), Some(0));
    for text in ["", " ", "+", "-1", "1 2", "12a", "4294967296", "99999999999999999999999"] {
        assert_eq!(parse_pid(text), None);
        assert!(text.trim().parse::<u32>().is_err());
    }
}

#[test]
fn the_fallback_may_find_no_server() {
    let ended = |success: bool, code: Option<i32>| Ok(ExitReport { success, code });
    for platform in [Platform::Unix, Platform::Windows] {
        assert_eq!(ollama_stop_serve_fallback(platform, ended(true, Some(0))), Ok(()));
        assert_eq!(
            ollama_stop_serve_fallback(platform, Err("not found".to_string())),
            Err("not found".to_string())
        );
    }
    assert_eq!(ollama_stop_serve_fallback(Platform::Unix, ended(false, Some(1))), Ok(()));
    assert_eq!(ollama_stop_serve_fallback(Platform::Windows, ended(false, Some(128))), Ok(()));
    for code in [Some(2), Some(128), None] {
        assert_eq!(
            ollama_stop_serve_fallback(Platform::Unix, ended(false, code)),
            Err("could not stop ollama serve (pkill failed)".to_string())
        );
    }
    for code in [Some(1), None] {
        assert_eq!(
            ollama_stop_serve_fallback(Platform::Windows, ended(false, code)),
            Err("could not stop Ollama (taskkill)".to_string())
        );
    }
}
