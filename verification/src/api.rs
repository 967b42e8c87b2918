//! Remote control of Ollama via its HTTP API (`OLLAMA_HOST`, default `http://127.0.0.1:11434`).
//!
//! The functions here say what to send and what to make of the answers; sending
//! is left to the caller.

use vstd::prelude::*;
use crate::batch::{fresh_batch, Batch};
use crate::json::stop_on_error;
use crate::modelfile::{law_from_line_alone, modelfile_parts, split_modelfile_from};
use crate::number::{decimal, is_digit, lemma_decimal, to_decimal};
use crate::text::{
    chars_of, is_blank, is_white_space, law_trailing_run_is_taken_off, law_trimming,
    law_white_space_round_a_text_is_trimmed, opt_view, push_text, same_text, starts_with,
    string_of, trim, trim_trailing, trimmed, trimmed_start, views, without_trailing,
};

verus! {

/// Default port for Ollama when only a host is given.
pub const DEFAULT_OLLAMA_PORT: u16 = 11434;

/// The models that are installed, as `GET /api/tags` lists them.
#[derive(Debug, Clone)]
pub struct TagsResponse {
    pub models: Vec<ListedModel>,
}

/// An installed model.
#[derive(Debug, Clone)]
pub struct ListedModel {
    pub name: String,
    pub model: String,
    pub modified_at: String,
    pub size: u64,
    pub digest: String,
    pub details: Option<ModelTagDetails>,
}

/// What a listing says of a model.
#[derive(Debug, Clone)]
pub struct ModelTagDetails {
    pub parent_model: String,
    pub format: Option<String>,
    pub family: Option<String>,
    pub families: Option<Vec<String>>,
    pub parameter_size: Option<String>,
    pub quantization_level: Option<String>,
}

/// What `POST /api/show` tells of a model.
#[derive(Debug, Clone)]
pub struct ShowResponse {
    pub license: Option<String>,
    pub modelfile: Option<String>,
    pub parameters: Option<String>,
    pub template: Option<String>,
    pub details: Option<serde_json::Value>,
    pub model_info: Option<serde_json::Value>,
    pub tensors: Option<serde_json::Value>,
    pub capabilities: Option<Vec<String>>,
    pub modified_at: Option<String>,
}

/// One status object of a pull.
#[derive(Debug, Clone)]
pub struct PullProgressLine {
    pub status: String,
    pub digest: Option<String>,
    pub total: Option<u64>,
    pub completed: Option<u64>,
    pub error: Option<String>,
}

/// The models that are loaded, as `GET /api/ps` lists them.
#[derive(Debug, Clone)]
pub struct PsResponse {
    pub models: Vec<RunningModel>,
}

/// A model loaded in memory.
#[derive(Debug, Clone)]
pub struct RunningModel {
    pub name: String,
    pub model: String,
    pub size: u64,
    pub digest: String,
    pub details: Option<ModelTagDetails>,
    pub expires_at: Option<String>,
    pub size_vram: Option<u64>,
}

/// The method of a request.
#[derive(Debug, Clone, Copy, PartialEq, Eq, Structural)]
pub enum Method {
    Get,
    Post,
    Delete,
}

/// The JSON object that a request carries, one variant for each shape. The names
/// of the fields are the names of its members; a member that is `None` is left out.
#[derive(Debug, Clone)]
pub enum RequestBody {
    /// No body at all.
    Empty,
    Show { name: String },
    Pull { name: String, stream: bool },
    Delete { name: String },
    Copy { source: String, destination: String },
    Create { name: String, from: Option<String>, modelfile: Option<String>, stream: bool },
    GenerateUnload { model: String, prompt: String, keep_alive: u32 },
}

/// A request to send.
#[derive(Debug, Clone)]
pub struct ApiRequest {
    pub method: Method,
    pub url: String,
    pub body: RequestBody,
}

/// The model of a [`RequestBody`].
pub enum BodyView {
    Empty,
    Show { name: Seq<char> },
    Pull { name: Seq<char>, stream: bool },
    Delete { name: Seq<char> },
    Copy { source: Seq<char>, destination: Seq<char> },
    Create {
        name: Seq<char>,
        from: Option<Seq<char>>,
        modelfile: Option<Seq<char>>,
        stream: bool,
    },
    GenerateUnload { model: Seq<char>, prompt: Seq<char>, keep_alive: nat },
}

/// The model of an [`ApiRequest`].
pub struct RequestView {
    pub method: Method,
    pub url: Seq<char>,
    pub body: BodyView,
}

impl View for RequestBody {
    type V = BodyView;

    open spec fn view(&self) -> BodyView {
        match *self {
            RequestBody::Empty => BodyView::Empty,
            RequestBody::Show { name } => BodyView::Show { name: name@ },
            RequestBody::Pull { name, stream } => BodyView::Pull { name: name@, stream },
            RequestBody::Delete { name } => BodyView::Delete { name: name@ },
            RequestBody::Copy { source, destination } => BodyView::Copy {
                source: source@,
                destination: destination@,
            },
            RequestBody::Create { name, from, modelfile, stream } => BodyView::Create {
                name: name@,
                from: opt_view(from),
                modelfile: opt_view(modelfile),
                stream,
            },
            RequestBody::GenerateUnload { model, prompt, keep_alive } => BodyView::GenerateUnload {
                model: model@,
                prompt: prompt@,
                keep_alive: keep_alive as nat,
            },
        }
    }
}

impl View for ApiRequest {
    type V = RequestView;

    open spec fn view(&self) -> RequestView {
        RequestView { method: self.method, url: self.url@, body: self.body@ }
    }
}

/// Whether a host is given with its scheme.
pub open spec fn has_scheme(host: Seq<char>) -> bool {
    "http://"@.is_prefix_of(host) || "https://"@.is_prefix_of(host)
}

/// The base URL for a host. A host with a scheme stands for itself, without
/// slashes at its end and whatever the port; any other is reached by `http` at
/// the given port, or at the default one.
pub open spec fn base_url_of(host: Seq<char>, port: Option<u16>) -> Seq<char> {
    let h = trimmed(host);
    if has_scheme(h) {
        without_trailing(h, '/')
    } else {
        let p = match port {
            Some(p) => p,
            None => DEFAULT_OLLAMA_PORT,
        };
        "http://"@ + h + ":"@ + decimal(p as nat)
    }
}

/// The names of listed models.
pub open spec fn listed_names(listed: Seq<ListedModel>) -> Seq<Seq<char>> {
    listed.map_values(|m: ListedModel| m.name@)
}

/// The names that are not among those to keep, in order.
pub open spec fn names_but(names: Seq<Seq<char>>, keep: Seq<Seq<char>>) -> Seq<Seq<char>>
    decreases names.len(),
{
    if names.len() == 0 {
        Seq::empty()
    } else if keep.contains(names.last()) {
        names_but(names.drop_last(), keep)
    } else {
        names_but(names.drop_last(), keep).push(names.last())
    }
}

/// The request that creates a model from a base, with the rest of a Modelfile where
/// there is one.
pub open spec fn create_request(
    base_url: Seq<char>,
    name: Seq<char>,
    from: Seq<char>,
    rest: Option<Seq<char>>,
) -> RequestView {
    RequestView {
        method: Method::Post,
        url: base_url + "/api/create"@,
        body: BodyView::Create { name, from: Some(from), modelfile: rest, stream: true },
    }
}

/// The request that creates a model from a Modelfile, or what is wrong with the file.
pub open spec fn create_from_modelfile(
    base_url: Seq<char>,
    name: Seq<char>,
    modelfile: Seq<char>,
) -> Result<RequestView, Seq<char>> {
    match modelfile_parts(modelfile) {
        Ok((from, rest)) => Ok(create_request(base_url, name, from, rest)),
        Err(e) => Err(e),
    }
}

/// A text without the slashes at its end.
pub fn trim_slash(s: &[char]) -> (r: &[char])
    ensures
        r@ == without_trailing(s@, '/'),
{
    trim_trailing(s, '/')
}

/// Build a base URL such as `http://127.0.0.1:11434` from host (and optional port).
pub fn ollama_base_url(host: &str, port: Option<u16>) -> (r: String)
    ensures
        r@ == base_url_of(host@, port),
        ({
            let h = trimmed(host@);
            if "http://"@.is_prefix_of(h) || "https://"@.is_prefix_of(h) {
                r@ == without_trailing(h, '/')
            } else {
                r@ == "http://"@ + h + ":"@ + decimal(
                    match port {
                        Some(p) => p as nat,
                        None => 11434,
                    },
                )
            }
        }),
{
    let chars = chars_of(host);
    let h = trim(&chars);
    if starts_with(h, "http://") || starts_with(h, "https://") {
        return string_of(trim_slash(h));
    }
    let p: u16 = match port {
        Some(p) => p,
        None => DEFAULT_OLLAMA_PORT,
    };
    let mut v = chars_of("http://");
    push_text(&mut v, string_of(h).as_str());
    push_text(&mut v, ":");
    let mut digits = to_decimal(p as u64);
    v.append(&mut digits);
    string_of(&v)
}

/// The requests of the [Ollama HTTP API](https://github.com/ollama/ollama/blob/main/docs/api.md)
/// to one server.
#[derive(Debug)]
pub struct OllamaClient {
    base_url: String,
}

impl OllamaClient {
    /// The base URL never ends with a slash, so that paths can be put behind it.
    #[verifier::type_invariant]
    spec fn well_formed(self) -> bool {
        self.base_url@.len() > 0 ==> self.base_url@.last() != '/'
    }

    /// The base URL.
    pub closed spec fn base(&self) -> Seq<char> {
        self.base_url@
    }

    /// A client for the server at a base URL, which may end with slashes.
    pub fn new(base_url: String) -> (r: Self)
        ensures
            r.base() == without_trailing(base_url@, '/'),
    {
        let chars = chars_of(base_url.as_str());
        proof {
            lemma_without_trailing(base_url@, '/');
        }
        OllamaClient { base_url: string_of(trim_slash(&chars)) }
    }

    /// `http://127.0.0.1:11434`
    pub fn localhost() -> (r: Self)
        ensures
            r.base() == "http://127.0.0.1:11434"@,
    {
        proof {
            lemma_localhost();
        }
        Self::new(ollama_base_url("127.0.0.1", None))
    }

    /// Takes the value of `OLLAMA_HOST`, when it is set and not empty (same as the `ollama` CLI),
    /// otherwise [`localhost`](Self::localhost).
    pub fn from_env(ollama_host: Option<String>) -> (r: Self)
        ensures
            match ollama_host {
                Some(host) => if host@.len() > 0 {
                    r.base() == without_trailing(host@, '/')
                } else {
                    r.base() == "http://127.0.0.1:11434"@
                },
                None => r.base() == "http://127.0.0.1:11434"@,
            },
    {
        match ollama_host {
            Some(host) => {
                if host.as_str().is_empty() {
                    Self::localhost()
                } else {
                    Self::new(host)
                }
            },
            None => Self::localhost(),
        }
    }

    /// The base URL.
    pub fn base_url(&self) -> (r: &str)
        ensures
            r@ == self.base(),
            r@.len() > 0 ==> r@.last() != '/',
    {
        proof {
            use_type_invariant(self);
        }
        self.base_url.as_str()
    }

    /// The URL for a path.
    pub fn url(&self, path: &str) -> (r: String)
        ensures
            r@ == self.base() + path@,
    {
        let mut v = chars_of(self.base_url.as_str());
        push_text(&mut v, path);
        string_of(&v)
    }

    /// `GET /api/tags`: list installed models.
    pub fn list_models(&self) -> (r: ApiRequest)
        ensures
            r@ == (RequestView {
                method: Method::Get,
                url: self.base() + "/api/tags"@,
                body: BodyView::Empty,
            }),
            r.method == Method::Get,
            r.url@ == self.base() + "/api/tags"@,
            r.body is Empty,
    {
        ApiRequest { method: Method::Get, url: self.url("/api/tags"), body: RequestBody::Empty }
    }

    /// `POST /api/show`: full model metadata (license, modelfile, template, tensors, ...).
    pub fn show(&self, name: &str) -> (r: ApiRequest)
        ensures
            r@ == (RequestView {
                method: Method::Post,
                url: self.base() + "/api/show"@,
                body: BodyView::Show { name: name@ },
            }),
            r.method == Method::Post,
            r.url@ == self.base() + "/api/show"@,
            match r.body {
                RequestBody::Show { name: sent } => {
                    &&& sent@ == name@
                },
                _ => false,
            },
    {
        ApiRequest {
            method: Method::Post,
            url: self.url("/api/show"),
            body: RequestBody::Show { name: name.to_string() },
        }
    }

    fn pull(&self, name: &str, stream: bool) -> (r: ApiRequest)
        ensures
            r@ == (RequestView {
                method: Method::Post,
                url: self.base() + "/api/pull"@,
                body: BodyView::Pull { name: name@, stream },
            }),
            r.method == Method::Post,
            r.url@ == self.base() + "/api/pull"@,
            match r.body {
                RequestBody::Pull { name: sent, stream: flag } => {
                    &&& sent@ == name@
                    &&& flag == stream
                },
                _ => false,
            },
    {
        ApiRequest {
            method: Method::Post,
            url: self.url("/api/pull"),
            body: RequestBody::Pull { name: name.to_string(), stream },
        }
    }

    /// `POST /api/pull` with `stream: false`: wait until pull finishes (no progress lines).
    pub fn pull_blocking(&self, name: &str) -> (r: ApiRequest)
        ensures
            r@ == (RequestView {
                method: Method::Post,
                url: self.base() + "/api/pull"@,
                body: BodyView::Pull { name: name@, stream: false },
            }),
            r.method == Method::Post,
            r.url@ == self.base() + "/api/pull"@,
            match r.body {
                RequestBody::Pull { name: sent, stream } => {
                    &&& sent@ == name@
                    &&& !stream
                },
                _ => false,
            },
    {
        self.pull(name, false)
    }

    /// `POST /api/pull` with `stream: true`: each line of the answer is a [`PullProgressLine`],
    /// which [`pull_line`] checks for an error.
    pub fn pull_stream(&self, name: &str) -> (r: ApiRequest)
        ensures
            r@ == (RequestView {
                method: Method::Post,
                url: self.base() + "/api/pull"@,
                body: BodyView::Pull { name: name@, stream: true },
            }),
            r.method == Method::Post,
            r.url@ == self.base() + "/api/pull"@,
            match r.body {
                RequestBody::Pull { name: sent, stream } => {
                    &&& sent@ == name@
                    &&& stream
                },
                _ => false,
            },
    {
        self.pull(name, true)
    }

    /// `DELETE /api/delete`
    pub fn delete_model(&self, name: &str) -> (r: ApiRequest)
        ensures
            r@ == (RequestView {
                method: Method::Delete,
                url: self.base() + "/api/delete"@,
                body: BodyView::Delete { name: name@ },
            }),
            r.method == Method::Delete,
            r.url@ == self.base() + "/api/delete"@,
            match r.body {
                RequestBody::Delete { name: sent } => {
                    &&& sent@ == name@
                },
                _ => false,
            },
    {
        ApiRequest {
            method: Method::Delete,
            url: self.url("/api/delete"),
            body: RequestBody::Delete { name: name.to_string() },
        }
    }

    /// `POST /api/copy`
    pub fn copy_model(&self, source: &str, destination: &str) -> (r: ApiRequest)
        ensures
            r@ == (RequestView {
                method: Method::Post,
                url: self.base() + "/api/copy"@,
                body: BodyView::Copy { source: source@, destination: destination@ },
            }),
            r.method == Method::Post,
            r.url@ == self.base() + "/api/copy"@,
            match r.body {
                RequestBody::Copy { source: from, destination: to } => {
                    &&& from@ == source@
                    &&& to@ == destination@
                },
                _ => false,
            },
    {
        ApiRequest {
            method: Method::Post,
            url: self.url("/api/copy"),
            body: RequestBody::Copy {
                source: source.to_string(),
                destination: destination.to_string(),
            },
        }
    }

    /// `POST /api/create` with streaming. Parses a leading `FROM <model>` line and sends
    /// `from` plus the remainder as `modelfile` (required by Ollama 0.21+). Whitespace before `FROM` is ignored.
    pub fn create_model(&self, name: &str, modelfile: &str) -> (r: Result<ApiRequest, String>)
        ensures
            match create_from_modelfile(self.base(), name@, modelfile@) {
                Ok(request) => r is Ok && r->Ok_0@ == request,
                Err(e) => r is Err && r->Err_0@ == e,
            },
            match (modelfile_parts(modelfile@), r) {
                (Ok((base, rest)), Ok(request)) => {
                    &&& request.method == Method::Post
                    &&& request.url@ == self.base() + "/api/create"@
                    &&& match request.body {
                        RequestBody::Create { name: sent, from: Some(from), modelfile: text, stream } =>
                        {
                            &&& sent@ == name@
                            &&& from@ == base
                            &&& match text {
                                Some(t) => rest == Some(t@),
                                None => rest is None,
                            }
                            &&& stream
                        },
                        _ => false,
                    }
                },
                (Err(e), Err(message)) => message@ == e,
                _ => false,
            },
    {
        match split_modelfile_from(modelfile) {
            Ok((from, rest)) => Ok(self.create(name, from, rest)),
            Err(e) => Err(e),
        }
    }

    /// `POST /api/create` with streaming, for a tag pointing at an existing model (no custom Modelfile).
    /// Same as `ollama create X --from Y`.
    pub fn create_from_base(&self, new_name: &str, from_model: &str) -> (r: ApiRequest)
        ensures
            r@ == create_request(self.base(), new_name@, from_model@, None),
            r.method == Method::Post,
            r.url@ == self.base() + "/api/create"@,
            match r.body {
                RequestBody::Create { name: sent, from: Some(base), modelfile: None, stream } => {
                    &&& sent@ == new_name@
                    &&& base@ == from_model@
                    &&& stream
                },
                _ => false,
            },
    {
        self.create(new_name, from_model.to_string(), None)
    }

    fn create(&self, name: &str, from: String, modelfile: Option<String>) -> (r: ApiRequest)
        ensures
            r@ == create_request(self.base(), name@, from@, opt_view(modelfile)),
            r.method == Method::Post,
            r.url@ == self.base() + "/api/create"@,
            match r.body {
                RequestBody::Create { name: sent, from: Some(base), modelfile: rest, stream } => {
                    &&& sent@ == name@
                    &&& base@ == from@
                    &&& rest == modelfile
                    &&& stream
                },
                _ => false,
            },
    {
        ApiRequest {
            method: Method::Post,
            url: self.url("/api/create"),
            body: RequestBody::Create {
                name: name.to_string(),
                from: Some(from),
                modelfile,
                stream: true,
            },
        }
    }

    /// `GET /api/ps`: models loaded in memory.
    pub fn list_running(&self) -> (r: ApiRequest)
        ensures
            r@ == (RequestView {
                method: Method::Get,
                url: self.base() + "/api/ps"@,
                body: BodyView::Empty,
            }),
            r.method == Method::Get,
            r.url@ == self.base() + "/api/ps"@,
            r.body is Empty,
    {
        ApiRequest { method: Method::Get, url: self.url("/api/ps"), body: RequestBody::Empty }
    }

    /// Unload a model from memory via `POST /api/generate` with `keep_alive: 0` (empty prompt).
    pub fn unload_model(&self, model: &str) -> (r: ApiRequest)
        ensures
            r@ == (RequestView {
                method: Method::Post,
                url: self.base() + "/api/generate"@,
                body: BodyView::GenerateUnload {
                    model: model@,
                    prompt: Seq::empty(),
                    keep_alive: 0,
                },
            }),
            r.method == Method::Post,
            r.url@ == self.base() + "/api/generate"@,
            match r.body {
                RequestBody::GenerateUnload { model: sent, prompt, keep_alive } => {
                    &&& sent@ == model@
                    &&& prompt@.len() == 0
                    &&& keep_alive == 0
                },
                _ => false,
            },
    {
        ApiRequest {
            method: Method::Post,
            url: self.url("/api/generate"),
            body: RequestBody::GenerateUnload {
                model: model.to_string(),
                prompt: String::new(),
                keep_alive: 0,
            },
        }
    }

    /// The installed tags to pull again with [`pull_stream`](Self::pull_stream), one after
    /// the other: all that are listed.
    pub fn update_all_models(&self, listed: &Vec<ListedModel>) -> (r: Batch)
        ensures
            r@ == fresh_batch(listed_names(listed@)),
            r@.names.len() == listed@.len(),
            forall|i: int|
                0 <= i < listed@.len() ==> #[trigger] r@.names[i] == listed@[i].name@,
            r@.done == 0,
            r@.failure is None,
    {
        let mut names: Vec<String> = Vec::new();
        for i in 0..listed.len()
            invariant
                views(names@) == listed_names(listed@).take(i as int),
        {
            let ghost before = names@;
            names.push(listed[i].name.clone());
            assert(views(names@) =~= views(before).push(listed@[i as int].name@));
            assert(listed_names(listed@).take(i + 1) =~= listed_names(listed@).take(i as int).push(
                listed@[i as int].name@,
            ));
        }
        assert(listed_names(listed@).take(listed@.len() as int) =~= listed_names(listed@));
        Batch::new(names)
    }

    /// The installed models to remove with [`delete_model`](Self::delete_model), one after the
    /// other: every listed one whose name is not in `keep`.
    pub fn remove_all_except(&self, listed: &Vec<ListedModel>, keep: &[&str]) -> (r: Batch)
        ensures
            r@ == fresh_batch(
                names_but(listed_names(listed@), keep@.map_values(|k: &str| k@)),
            ),
            forall|name: Seq<char>| #[trigger]
                r@.names.contains(name) <==> {
                    &&& exists|i: int| 0 <= i < listed@.len() && #[trigger] listed@[i].name@ == name
                    &&& forall|j: int| 0 <= j < keep@.len() ==> #[trigger] keep@[j]@ != name
                },
            r@.done == 0,
            r@.failure is None,
    {
        let mut names: Vec<String> = Vec::new();
        let ghost all = listed_names(listed@);
        let ghost kept = keep@.map_values(|k: &str| k@);
        for i in 0..listed.len()
            invariant
                all == listed_names(listed@),
                kept == keep@.map_values(|k: &str| k@),
                views(names@) == names_but(all.take(i as int), kept),
        {
            let ghost before = names@;
            let name = &listed[i].name;
            proof {
                assert(all.take(i + 1).drop_last() =~= all.take(i as int));
                assert(all.take(i + 1).last() == name@);
            }
            if !is_among(name.as_str(), keep) {
                names.push(name.clone());
                assert(views(names@) =~= views(before).push(name@));
            }
        }
        assert(all.take(listed@.len() as int) =~= all);
        proof {
            assert forall|name: Seq<char>| #[trigger]
                names_but(all, kept).contains(name) <==> {
                    &&& exists|i: int| 0 <= i < listed@.len() && #[trigger] listed@[i].name@ == name
                    &&& forall|j: int| 0 <= j < keep@.len() ==> #[trigger] keep@[j]@ != name
                } by {
                law_removed_are_the_listed_but_kept(listed@, keep@, name);
            }
        }
        Batch::new(names)
    }
}

impl Clone for OllamaClient {
    fn clone(&self) -> (r: Self)
        ensures
            r.base() == self.base(),
    {
        proof {
            use_type_invariant(self);
        }
        OllamaClient { base_url: self.base_url.clone() }
    }
}

/// Whether a name is among the given ones.
fn is_among(name: &str, names: &[&str]) -> (r: bool)
    ensures
        r == names@.map_values(|k: &str| k@).contains(name@),
{
    let ghost texts = names@.map_values(|k: &str| k@);
    for i in 0..names.len()
        invariant
            texts == names@.map_values(|k: &str| k@),
            forall|k: int| 0 <= k < i ==> #[trigger] texts[k] != name@,
    {
        assert(texts[i as int] == names@[i as int]@);
        if same_text(names[i], name) {
            return true;
        }
    }
    false
}

/// Stops a pull at a line with an `error` field.
pub fn pull_line(line: &PullProgressLine) -> (r: Result<(), String>)
    ensures
        match line.error {
            Some(e) => r is Err && r->Err_0@ == e@,
            None => r is Ok,
        },
{
    match &line.error {
        Some(e) => stop_on_error(Some(e.as_str())),
        None => stop_on_error(None),
    }
}

/// What the text without its trailing run looks like.
pub proof fn lemma_without_trailing(s: Seq<char>, c: char)
    ensures
        without_trailing(s, c).len() > 0 ==> without_trailing(s, c).last() != c,
    decreases s.len(),
{
    if s.len() > 0 && s.last() == c {
        lemma_without_trailing(s.drop_last(), c);
    }
}

proof fn lemma_localhost()
    ensures
        without_trailing(base_url_of("127.0.0.1"@, None), '/') == "http://127.0.0.1:11434"@,
{
    reveal_strlit("127.0.0.1");
    reveal_strlit("http://");
    reveal_strlit("https://");
    reveal_strlit(":");
    reveal_strlit("http://127.0.0.1:11434");
    reveal_with_fuel(decimal, 5);
    let host = "127.0.0.1"@;
    assert(trimmed_start(host) == host);
    assert(trimmed(host) == host);
    assert(!has_scheme(host)) by {
        assert("http://"@[0] == 'h');
        assert("https://"@[0] == 'h');
        if "http://"@.is_prefix_of(host) {
            assert(host.subrange(0, 7)[0] == '1');
        }
        if "https://"@.is_prefix_of(host) {
            assert(host.subrange(0, 8)[0] == '1');
        }
    }
    assert(decimal(11434) =~= seq!['1', '1', '4', '3', '4']);
    assert(base_url_of(host, None) =~= "http://127.0.0.1:11434"@);
}

/// Slashes at the end of a URL do not count, however many there are.
pub proof fn law_trailing_slashes_do_not_count(url: Seq<char>, slashes: Seq<char>)
    requires
        forall|i: int| 0 <= i < slashes.len() ==> #[trigger] slashes[i] == '/',
    ensures
        without_trailing(url + slashes, '/') == without_trailing(url, '/'),
        without_trailing(without_trailing(url, '/'), '/') == without_trailing(url, '/'),
    decreases slashes.len(),
{
    lemma_without_trailing(url, '/');
    if slashes.len() == 0 {
        assert(url + slashes =~= url);
    } else {
        assert(slashes[slashes.len() - 1] == '/');
        assert((url + slashes).drop_last() =~= url + slashes.drop_last());
        law_trailing_slashes_do_not_count(url, slashes.drop_last());
    }
}

/// A host with a scheme decides alone: the port does not count.
pub proof fn law_scheme_overrides_port(host: Seq<char>, port: Option<u16>, other: Option<u16>)
    requires
        has_scheme(trimmed(host)),
    ensures
        base_url_of(host, port) == base_url_of(host, other),
{
}

/// White space round a host does not count.
pub proof fn law_white_space_round_a_host_does_not_count(
    before: Seq<char>,
    host: Seq<char>,
    after: Seq<char>,
    port: Option<u16>,
)
    requires
        is_blank(before),
        is_blank(after),
        host.len() > 0,
        !is_white_space(host[0]),
        !is_white_space(host.last()),
    ensures
        base_url_of(before + host + after, port) == base_url_of(host, port),
{
    law_white_space_round_a_text_is_trimmed(before, host, after);
    assert(trimmed(host) == host);
}

/// A base URL is its own base URL: building one from the result changes nothing,
/// whatever the port. Of hosts with a scheme this is said where taking the slashes
/// off leaves the scheme and no white space at the end.
pub proof fn law_base_url_is_stable(host: Seq<char>, port: Option<u16>, other: Option<u16>)
    requires
        has_scheme(trimmed(host)) ==> has_scheme(base_url_of(host, port)) && !is_white_space(
            base_url_of(host, port).last(),
        ),
    ensures
        base_url_of(base_url_of(host, port), other) == base_url_of(host, port),
{
    reveal_strlit("http://");
    reveal_strlit("https://");
    reveal_strlit(":");
    let h = trimmed(host);
    let url = base_url_of(host, port);
    if has_scheme(h) {
        lemma_without_trailing(h, '/');
    } else {
        let p = match port {
            Some(p) => p,
            None => DEFAULT_OLLAMA_PORT,
        };
        lemma_decimal(p as nat);
        let digits = decimal(p as nat);
        assert(is_digit(digits[digits.len() - 1]));
        assert(url.last() == digits.last());
        assert("http://"@ =~= url.subrange(0, 7));
        assert(has_scheme(url));
    }
    assert(url.len() > 0 && url[0] == 'h') by {
        if "http://"@.is_prefix_of(url) {
            assert("http://"@[0] == url.subrange(0, 7)[0]);
        } else {
            assert("https://"@[0] == url.subrange(0, 8)[0]);
        }
    }
    assert(trimmed(url) == url);
    assert(without_trailing(url, '/') == url);
}

/// What is removed is what is listed and not to be kept.
pub proof fn law_kept_models_are_not_removed(
    names: Seq<Seq<char>>,
    keep: Seq<Seq<char>>,
    name: Seq<char>,
)
    ensures
        names_but(names, keep).contains(name) <==> names.contains(name) && !keep.contains(name),
    decreases names.len(),
{
    if names.len() > 0 {
        let shorter = names.drop_last();
        let before = names_but(shorter, keep);
        law_kept_models_are_not_removed(shorter, keep, name);
        if shorter.contains(name) {
            let i = choose|i: int| 0 <= i < shorter.len() && shorter[i] == name;
            assert(names[i] == name);
        }
        if names.contains(name) && names.last() != name {
            let i = choose|i: int| 0 <= i < names.len() && names[i] == name;
            assert(shorter[i] == name);
        }
        if !keep.contains(names.last()) {
            let after = before.push(names.last());
            assert(after[before.len() as int] == names.last());
            if before.contains(name) {
                let i = choose|i: int| 0 <= i < before.len() && before[i] == name;
                assert(after[i] == name);
            }
            if after.contains(name) && names.last() != name {
                let i = choose|i: int| 0 <= i < after.len() && after[i] == name;
                assert(before[i] == name);
            }
        }
    }
}

/// With nothing to keep every listed model is removed, in the order of the listing.
pub proof fn law_keeping_nothing_removes_all(names: Seq<Seq<char>>)
    ensures
        names_but(names, Seq::empty()) == names,
    decreases names.len(),
{
    if names.len() > 0 {
        law_keeping_nothing_removes_all(names.drop_last());
        assert(names.drop_last().push(names.last()) =~= names);
    }
}

/// A Modelfile with a `FROM` line alone creates what its base creates.
pub proof fn law_from_line_alone_creates_from_base(
    base_url: Seq<char>,
    name: Seq<char>,
    from: Seq<char>,
)
    requires
        from.len() > 0,
        !is_white_space(from[0]),
        !is_white_space(from.last()),
        !from.contains('\n'),
    ensures
        create_from_modelfile(base_url, name, "FROM "@ + from) == Ok::<RequestView, Seq<char>>(
            create_request(base_url, name, from, None),
        ),
{
    law_from_line_alone(from);
}

/// A request to create a model says so with every part as it was given: the name of the
/// new model, its base and the rest of the Modelfile, each whole, sent to the path for
/// creations below the base URL, with progress streamed.
pub proof fn law_creations_hold_what_was_given(
    base_url: Seq<char>,
    name: Seq<char>,
    from: Seq<char>,
    rest: Option<Seq<char>>,
)
    ensures
        create_request(base_url, name, from, rest).method == Method::Post,
        create_request(base_url, name, from, rest).url == base_url + "/api/create"@,
        match create_request(base_url, name, from, rest).body {
            BodyView::Create { name: sent, from: base, modelfile, stream } => {
                &&& sent == name
                &&& base == Some(from)
                &&& modelfile == rest
                &&& stream
            },
            _ => false,
        },
{
}

/// Two creations differ where their names, bases or rests differ: no two of them are
/// sent as the same request.
pub proof fn law_creations_are_told_apart(
    base_url: Seq<char>,
    name: Seq<char>,
    other: Seq<char>,
    from: Seq<char>,
    other_from: Seq<char>,
    rest: Option<Seq<char>>,
    other_rest: Option<Seq<char>>,
)
    requires
        create_request(base_url, name, from, rest) == create_request(
            base_url,
            other,
            other_from,
            other_rest,
        ),
    ensures
        name == other,
        from == other_from,
        rest == other_rest,
{
}

/// A creation from a Modelfile is the creation from the base that the file names, with
/// the rest of the file, under the name as it was given; a file without a base is
/// refused with what is wrong with it.
pub proof fn law_creations_from_a_modelfile(
    base_url: Seq<char>,
    name: Seq<char>,
    modelfile: Seq<char>,
)
    ensures
        match (
            modelfile_parts(modelfile),
            create_from_modelfile(base_url, name, modelfile),
        ) {
            (Ok((from, rest)), Ok(request)) => {
                &&& request.method == Method::Post
                &&& request.url == base_url + "/api/create"@
                &&& match request.body {
                    BodyView::Create { name: sent, from: base, modelfile: text, stream } => {
                        &&& sent == name
                        &&& base == Some(from)
                        &&& text == rest
                        &&& stream
                    },
                    _ => false,
                }
            },
            (Err(e), Err(message)) => message == e,
            _ => false,
        },
{
}

/// The model of a request holds what the request holds, part by part.
pub proof fn law_models_of_requests(r: ApiRequest)
    ensures
        r@.method == r.method,
        r@.url == r.url@,
        match (r.body, r@.body) {
            (RequestBody::Empty, BodyView::Empty) => true,
            (RequestBody::Show { name }, BodyView::Show { name: n }) => n == name@,
            (RequestBody::Pull { name, stream }, BodyView::Pull { name: n, stream: s }) => {
                &&& n == name@
                &&& s == stream
            },
            (RequestBody::Delete { name }, BodyView::Delete { name: n }) => n == name@,
            (
                RequestBody::Copy { source, destination },
                BodyView::Copy { source: s, destination: d },
            ) => {
                &&& s == source@
                &&& d == destination@
            },
            (
                RequestBody::Create { name, from, modelfile, stream },
                BodyView::Create { name: n, from: f, modelfile: m, stream: s },
            ) => {
                &&& n == name@
                &&& f == opt_view(from)
                &&& m == opt_view(modelfile)
                &&& s == stream
            },
            (
                RequestBody::GenerateUnload { model, prompt, keep_alive },
                BodyView::GenerateUnload { model: m, prompt: p, keep_alive: k },
            ) => {
                &&& m == model@
                &&& p == prompt@
                &&& k == keep_alive
            },
            _ => false,
        },
{
}

/// The names to work on are the names listed, each whole, one for one and in order.
pub proof fn law_listed_names_are_whole(listed: Seq<ListedModel>)
    ensures
        listed_names(listed).len() == listed.len(),
        forall|i: int| 0 <= i < listed.len() ==> #[trigger] listed_names(listed)[i]
            == listed[i].name@,
{
}

/// A model is removed exactly when it is listed, by its whole name, and no name to keep
/// is that name.
pub proof fn law_removed_are_the_listed_but_kept(
    listed: Seq<ListedModel>,
    keep: Seq<&str>,
    name: Seq<char>,
)
    ensures
        names_but(listed_names(listed), keep.map_values(|k: &str| k@)).contains(name) <==> {
            &&& exists|i: int| 0 <= i < listed.len() && #[trigger] listed[i].name@ == name
            &&& forall|j: int| 0 <= j < keep.len() ==> #[trigger] keep[j]@ != name
        },
{
    let names = listed_names(listed);
    let kept = keep.map_values(|k: &str| k@);
    law_kept_models_are_not_removed(names, kept, name);
    law_listed_names_are_whole(listed);
    if names.contains(name) {
        let i = choose|i: int| 0 <= i < names.len() && names[i] == name;
        assert(listed[i].name@ == name);
    }
    if exists|i: int| 0 <= i < listed.len() && #[trigger] listed[i].name@ == name {
        let i = choose|i: int| 0 <= i < listed.len() && #[trigger] listed[i].name@ == name;
        assert(names[i] == name);
    }
    if kept.contains(name) {
        let j = choose|j: int| 0 <= j < kept.len() && kept[j] == name;
        assert(keep[j]@ == name);
    } else {
        assert forall|j: int| 0 <= j < keep.len() implies #[trigger] keep[j]@ != name by {
            assert(kept[j] == keep[j]@);
        }
    }
}

/// Models are removed in the order of the listing, as often as they are listed: one more
/// listed model comes last, unless it is to be kept.
pub proof fn law_removals_follow_the_listing(
    names: Seq<Seq<char>>,
    last: Seq<char>,
    keep: Seq<Seq<char>>,
)
    ensures
        names_but(Seq::empty(), keep).len() == 0,
        names_but(names + seq![last], keep) == (if exists|j: int|
            0 <= j < keep.len() && #[trigger] keep[j] == last {
            names_but(names, keep)
        } else {
            names_but(names, keep) + seq![last]
        }),
{
    let more = names + seq![last];
    assert(more.drop_last() =~= names);
    assert(more.last() == last);
    assert(keep.contains(last) <==> exists|j: int| 0 <= j < keep.len() && #[trigger] keep[j]
        == last);
    assert(names_but(names, keep).push(last) =~= names_but(names, keep) + seq![last]);
}

/// A host without a scheme stands, whole, between `http://` and its port; one with a
/// scheme stands for itself, without the slashes at its end.
pub proof fn law_base_url_holds_the_host(
    before: Seq<char>,
    host: Seq<char>,
    slashes: Seq<char>,
    after: Seq<char>,
    port: u16,
)
    requires
        forall|i: int| 0 <= i < before.len() ==> is_white_space(#[trigger] before[i]),
        forall|i: int| 0 <= i < after.len() ==> is_white_space(#[trigger] after[i]),
        forall|i: int| 0 <= i < slashes.len() ==> #[trigger] slashes[i] == '/',
        host.len() > 0,
        !is_white_space(host[0]),
        !is_white_space(host.last()),
        host.last() != '/',
    ensures
        ({
            let given = before + (host + slashes) + after;
            let scheme = "http://"@.is_prefix_of(host + slashes) || "https://"@.is_prefix_of(
                host + slashes,
            );
            &&& scheme ==> base_url_of(given, Some(port)) == host
            &&& scheme ==> base_url_of(given, None) == host
            &&& !scheme ==> base_url_of(given, Some(port)) == "http://"@ + (host + slashes) + ":"@
                + decimal(port as nat)
            &&& !scheme ==> base_url_of(given, None) == "http://"@ + (host + slashes) + ":"@
                + decimal(11434)
        }),
{
    let whole = host + slashes;
    assert(whole[0] == host[0]);
    assert(!is_white_space(whole.last())) by {
        if slashes.len() > 0 {
            assert(whole.last() == slashes[slashes.len() - 1]);
        } else {
            assert(whole =~= host);
        }
    }
    law_trimming(before, whole, after);
    law_trailing_run_is_taken_off(host, slashes, '/');
}

}
