//! Control Ollama locally (by its command line) or remotely (by its HTTP API at
//! `OLLAMA_HOST`, default `http://127.0.0.1:11434`), for common model-management flows:
//! pull, list, show, copy, create, delete, running processes, unload.
//!
//! This library decides and computes; it does no input or output. A function that
//! stands for a command or a request says what to run or to send, and what the
//! outcome means once it is known.
//!
//! - [`cli`]: the commands of the `ollama` program, and what they print.
//! - [`api`]: the requests of the HTTP API; [`ndjson`] and [`json`] for the lines of a
//!   streamed answer, [`modelfile`] for the `FROM` line that a creation needs, and
//!   [`batch`] for operations on many models.
//! - [`config`]: the settings, the download directory and the local server.
//! - [`model`] and [`show`]: models, and what `ollama show` tells of them.
//! - [`text`], [`number`] and [`string_map`]: what the others are built on.

pub mod api;
pub mod batch;
pub mod cli;
pub mod config;
pub mod json;
pub mod model;
pub mod modelfile;
pub mod ndjson;
pub mod number;
pub mod show;
pub mod string_map;
pub mod text;

pub use api::{
    ollama_base_url, ListedModel, ModelTagDetails, OllamaClient, PsResponse, PullProgressLine,
    RunningModel, ShowResponse, TagsResponse, DEFAULT_OLLAMA_PORT,
};
pub use cli::{
    download_model, inspect_model, inspect_model_details, list_local_downloaded_models,
    list_models, list_running_models, model_with_inspect_details, ollama_cp,
    ollama_create_from_file, ollama_pull, ollama_rm, ollama_update_all_installed,
};
pub use config::{
    config_dir, models_path_info, ollama_start_serve, ollama_stop_serve, set_models_download_path,
    ModelsPathInfo, OllamaControlsSettings, OLLAMA_MODELS_ENV,
};
pub use model::{
    CapabilitiesSection, LicenseSection, Model, ModelDetails, ModelSection, ParametersSection,
};
pub use modelfile::split_modelfile_from;
pub use show::to_model_details;
