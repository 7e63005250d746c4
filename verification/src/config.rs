//! The `langcodec.toml` project configuration and the per-user configuration,
//! with the rules that resolve effective settings from them.

use vstd::prelude::*;
use vstd::string::*;
use crate::paths::{parent_of, path_parent};
use crate::text::{
    strings_view,
    ascii_lower, cat, cat3, chars_eq_str, ends_with, owned, starts_with, str_eq, str_ends_with,
    str_starts_with, trim, trim_lower, decimal, u64_to_string,
};

verus! {

broadcast use vstd::string::group_string_axioms;

/// The whole project configuration.
#[derive(Debug, Clone, Default)]
pub struct CliConfig {
    pub openai: ProviderConfig,
    pub anthropic: ProviderConfig,
    pub gemini: ProviderConfig,
    pub tolgee: TolgeeConfig,
    pub translate: TranslateConfig,
    pub annotate: AnnotateConfig,
}

/// Settings of one AI provider.
#[derive(Debug, Clone, Default)]
pub struct ProviderConfig {
    pub model: Option<String>,
}

/// The `[translate]` section.
#[derive(Debug, Clone, Default)]
pub struct TranslateConfig {
    pub source: Option<String>,
    pub sources: Option<Vec<String>>,
    pub target: Option<String>,
    pub provider: Option<String>,
    pub model: Option<String>,
    pub source_lang: Option<String>,
    pub use_tolgee: Option<bool>,
    pub target_lang: Option<Vec<String>>,
    pub concurrency: Option<usize>,
    pub status: Option<Vec<String>>,
    pub output_status: Option<String>,
    pub input: TranslateInputConfig,
    pub output: Option<TranslateOutputScope>,
}

/// The `[tolgee]` section.
#[derive(Debug, Clone, Default)]
pub struct TolgeeConfig {
    pub config: Option<String>,
    pub project_id: Option<u64>,
    pub api_url: Option<String>,
    pub api_key: Option<String>,
    pub format: Option<String>,
    pub schema: Option<String>,
    pub namespaces: Option<Vec<String>>,
    pub push: TolgeePushConfig,
    pub pull: TolgeePullConfig,
}

/// The `[tolgee.push]` section.
#[derive(Debug, Clone, Default)]
pub struct TolgeePushConfig {
    pub languages: Option<Vec<String>>,
    pub force_mode: Option<String>,
    pub files: Vec<TolgeePushFileConfig>,
}

/// One `[[tolgee.push.files]]` mapping of a catalog to a namespace.
#[derive(Debug, Clone, Default)]
pub struct TolgeePushFileConfig {
    pub path: String,
    pub namespace: String,
}

/// The `[tolgee.pull]` section.
#[derive(Debug, Clone, Default)]
pub struct TolgeePullConfig {
    pub path: Option<String>,
    pub file_structure_template: Option<String>,
}

/// The per-user configuration.
#[derive(Debug, Clone, Default)]
pub struct UserConfig {
    pub tolgee: UserTolgeeConfig,
}

/// The user's Tolgee credentials: a default API key, and keys per project id
/// (each project id once: `projects_unique`).
#[derive(Debug, Clone, Default)]
pub struct UserTolgeeConfig {
    pub api_key: Option<String>,
    pub projects: Vec<(String, UserTolgeeProjectConfig)>,
}

/// The user's credentials for one Tolgee project.
#[derive(Debug, Clone, Default)]
pub struct UserTolgeeProjectConfig {
    pub api_key: Option<String>,
}

/// The `[translate.input]` section.
#[derive(Debug, Clone, Default)]
pub struct TranslateInputConfig {
    pub source: Option<String>,
    pub sources: Option<Vec<String>>,
    pub lang: Option<String>,
    pub status: Option<Vec<String>>,
}

/// `[translate] output`: a plain output path, or a `[translate.output]` table.
#[derive(Debug, Clone)]
pub enum TranslateOutputScope {
    Path(String),
    Config(TranslateOutputConfig),
}

/// The `[translate.output]` section.
#[derive(Debug, Clone, Default)]
pub struct TranslateOutputConfig {
    pub target: Option<String>,
    pub path: Option<String>,
    pub lang: Option<Vec<String>>,
    pub status: Option<String>,
}

/// The `[annotate]` section.
#[derive(Debug, Clone, Default)]
pub struct AnnotateConfig {
    pub input: Option<String>,
    pub inputs: Option<Vec<String>>,
    pub source_roots: Option<Vec<String>>,
    pub output: Option<String>,
    pub source_lang: Option<String>,
    pub concurrency: Option<usize>,
}

/// A project configuration with the path it was read from.
#[derive(Debug, Clone)]
pub struct LoadedConfig {
    pub path: String,
    pub data: CliConfig,
}

/// A user configuration that was found and read.
#[derive(Debug, Clone)]
pub struct LoadedUserConfig {
    pub data: UserConfig,
}

pub open spec fn opt_str(o: Option<&str>) -> Option<Seq<char>> {
    match o {
        Some(s) => Some(s@),
        None => None,
    }
}

pub open spec fn opt_string(o: Option<String>) -> Option<Seq<char>> {
    match o {
        Some(s) => Some(s@),
        None => None,
    }
}


pub open spec fn opt_list(o: Option<&Vec<String>>) -> Option<Seq<Seq<char>>> {
    match o {
        Some(v) => Some(strings_view(v@)),
        None => None,
    }
}

pub open spec fn opt_list_owned(o: Option<Vec<String>>) -> Option<Seq<Seq<char>>> {
    match o {
        Some(v) => Some(strings_view(v@)),
        None => None,
    }
}

/// The first of two optional values that is present.
pub open spec fn or_else<T>(a: Option<T>, b: Option<T>) -> Option<T> {
    match a {
        Some(x) => Some(x),
        None => b,
    }
}

pub fn as_opt_str(o: &Option<String>) -> (r: Option<&str>)
    ensures
        opt_str(r) == opt_string(*o),
{
    match o {
        Some(s) => Some(s.as_str()),
        None => None,
    }
}

impl LoadedConfig {
    /// The directory that holds the configuration file (`Path::parent`).
    pub fn config_dir(&self) -> (r: Option<String>)
        ensures
            opt_string(r) == path_parent(self.path@),
    {
        parent_of(self.path.as_str())
    }
}

impl CliConfig {
    /// The model configured for the provider named `provider` (in any case,
    /// with surrounding whitespace): openai, anthropic or gemini.
    pub open spec fn provider_model_of(&self, provider: Seq<char>) -> Option<Seq<char>> {
        let k = ascii_lower(trim(provider));
        if k == "openai"@ {
            opt_string(self.openai.model)
        } else if k == "anthropic"@ {
            opt_string(self.anthropic.model)
        } else if k == "gemini"@ {
            opt_string(self.gemini.model)
        } else {
            None
        }
    }

    /// The model configured for a provider, named in any case and with
    /// surrounding whitespace: openai, anthropic or gemini.
    pub fn provider_model(&self, provider: &str) -> (r: Option<&str>)
        ensures
            opt_str(r) == self.provider_model_of(provider@),
    {
        let k = trim_lower(provider);
        if chars_eq_str(k.as_slice(), "openai") {
            as_opt_str(&self.openai.model)
        } else if chars_eq_str(k.as_slice(), "anthropic") {
            as_opt_str(&self.anthropic.model)
        } else if chars_eq_str(k.as_slice(), "gemini") {
            as_opt_str(&self.gemini.model)
        } else {
            None
        }
    }

    /// The providers that have a model configured, in the order openai,
    /// anthropic, gemini.
    pub fn configured_provider_names(&self) -> (r: Vec<&'static str>)
        ensures
            r@.map_values(|s: &str| s@) == (if self.openai.model is Some {
                seq!["openai"@]
            } else {
                Seq::empty()
            }) + (if self.anthropic.model is Some {
                seq!["anthropic"@]
            } else {
                Seq::empty()
            }) + (if self.gemini.model is Some {
                seq!["gemini"@]
            } else {
                Seq::empty()
            }),
    {
        let mut names: Vec<&'static str> = Vec::new();
        if self.openai.model.is_some() {
            names.push("openai");
        }
        if self.anthropic.model.is_some() {
            names.push("anthropic");
        }
        if self.gemini.model.is_some() {
            names.push("gemini");
        }
        assert(names@.map_values(|s: &str| s@) =~= (if self.openai.model is Some {
            seq!["openai"@]
        } else {
            Seq::empty()
        }) + (if self.anthropic.model is Some {
            seq!["anthropic"@]
        } else {
            Seq::empty()
        }) + (if self.gemini.model is Some {
            seq!["gemini"@]
        } else {
            Seq::empty()
        }));
        names
    }
}

/// A provider named as given selects the same model as the same name trimmed
/// and lowercased, and a name that is not openai, anthropic or gemini once
/// trimmed and lowercased selects none.
pub proof fn lemma_provider_name_normalized(config: CliConfig, provider: Seq<char>)
    ensures
        config.provider_model_of(provider) == config.provider_model_of(ascii_lower(trim(provider))),
        ({
            let k = ascii_lower(trim(provider));
            k != "openai"@ && k != "anthropic"@ && k != "gemini"@
        }) ==> config.provider_model_of(provider) is None,
{
    crate::text::lemma_trim_lower_idempotent(provider);
}

impl TolgeeConfig {
    pub open spec fn inline_runtime(&self) -> bool {
        ||| self.project_id is Some
        ||| self.api_url is Some
        ||| self.api_key is Some
        ||| self.format is Some
        ||| self.schema is Some
        ||| self.push.languages is Some
        ||| self.push.force_mode is Some
        ||| self.push.files@.len() > 0
        ||| self.pull.path is Some
        ||| self.pull.file_structure_template is Some
    }

    /// The section holds Tolgee runtime settings of its own (anything but
    /// `config` and `namespaces`).
    pub fn has_inline_runtime_config(&self) -> (r: bool)
        ensures
            r == self.inline_runtime(),
    {
        self.project_id.is_some() || self.api_url.is_some() || self.api_key.is_some()
            || self.format.is_some() || self.schema.is_some() || self.push.languages.is_some()
            || self.push.force_mode.is_some() || self.push.files.len() > 0
            || self.pull.path.is_some() || self.pull.file_structure_template.is_some()
    }
}

/// The key of a project's entry in the user configuration, and its API key.
pub open spec fn project_entries(projects: Seq<(String, UserTolgeeProjectConfig)>) -> Seq<
    (Seq<char>, Option<Seq<char>>),
> {
    projects.map_values(
        |p: (String, UserTolgeeProjectConfig)| (p.0@, opt_string(p.1.api_key)),
    )
}

/// The entry of the first project keyed `key`.
pub open spec fn project_lookup(entries: Seq<(Seq<char>, Option<Seq<char>>)>, key: Seq<char>) -> Option<
    Option<Seq<char>>,
>
    decreases entries.len(),
{
    if entries.len() == 0 {
        None
    } else if entries[0].0 == key {
        Some(entries[0].1)
    } else {
        project_lookup(entries.drop_first(), key)
    }
}

impl UserTolgeeConfig {
    /// Each project id occurs once, as in the table the configuration is read
    /// from.
    pub open spec fn projects_unique(&self) -> bool {
        forall|i: int, j: int|
            0 <= i < j < self.projects@.len() ==> #[trigger] self.projects@[i].0@ != #[trigger] self.projects@[j].0@
    }

    /// The API key the user configured for a project (the project's only
    /// entry, the ids being unique).
    pub open spec fn project_key(&self, project_id: Option<u64>) -> Option<Seq<char>> {
        match project_id {
            Some(id) => match project_lookup(project_entries(self.projects@), decimal(id as nat)) {
                Some(k) => k,
                None => None,
            },
            None => None,
        }
    }

    /// The API key for a project: the project's own key when the user
    /// configured one, else the user's default key.
    pub fn api_key_for_project(&self, project_id: Option<u64>) -> (r: Option<&str>)
        requires
            self.projects_unique(),
        ensures
            opt_str(r) == or_else(self.project_key(project_id), opt_string(self.api_key)),
    {
        if let Some(id) = project_id {
            let key = u64_to_string(id);
            let mut i: usize = 0;
            assert(project_entries(self.projects@).skip(0) =~= project_entries(self.projects@));
            while i < self.projects.len()
                invariant
                    i <= self.projects@.len(),
                    project_id == Some(id),
                    key@ == decimal(id as nat),
                    project_lookup(project_entries(self.projects@), key@) == project_lookup(
                        project_entries(self.projects@).skip(i as int),
                        key@,
                    ),
                decreases self.projects.len() - i,
            {
                let ghost rest = project_entries(self.projects@).skip(i as int);
                assert(rest.drop_first() =~= project_entries(self.projects@).skip(i + 1));
                assert(rest[0] == (self.projects@[i as int].0@, opt_string(
                    self.projects@[i as int].1.api_key,
                )));
                if str_eq(self.projects[i].0.as_str(), key.as_str()) {
                    if let Some(k) = &self.projects[i].1.api_key {
                        return Some(k.as_str());
                    }
                    return as_opt_str(&self.api_key);
                }
                i = i + 1;
            }
            assert(project_entries(self.projects@).skip(i as int).len() == 0);
        }
        as_opt_str(&self.api_key)
    }
}

impl TranslateConfig {
    /// `[translate.input] source`, else `[translate] source`.
    pub fn resolved_source(&self) -> (r: Option<&str>)
        ensures
            opt_str(r) == or_else(opt_string(self.input.source), opt_string(self.source)),
    {
        match &self.input.source {
            Some(s) => Some(s.as_str()),
            None => as_opt_str(&self.source),
        }
    }

    /// `[translate.input] sources`, else `[translate] sources`.
    pub fn resolved_sources(&self) -> (r: Option<&Vec<String>>)
        ensures
            opt_list(r) == or_else(opt_list_owned(self.input.sources), opt_list_owned(self.sources)),
    {
        match &self.input.sources {
            Some(s) => Some(s),
            None => match &self.sources {
                Some(s) => Some(s),
                None => None,
            },
        }
    }

    /// `[translate.input] lang`, else `[translate] source_lang`.
    pub fn resolved_source_lang(&self) -> (r: Option<&str>)
        ensures
            opt_str(r) == or_else(opt_string(self.input.lang), opt_string(self.source_lang)),
    {
        match &self.input.lang {
            Some(s) => Some(s.as_str()),
            None => as_opt_str(&self.source_lang),
        }
    }

    /// `[translate.input] status`, else `[translate] status`.
    pub fn resolved_filter_status(&self) -> (r: Option<&Vec<String>>)
        ensures
            opt_list(r) == or_else(opt_list_owned(self.input.status), opt_list_owned(self.status)),
    {
        match &self.input.status {
            Some(s) => Some(s),
            None => match &self.status {
                Some(s) => Some(s),
                None => None,
            },
        }
    }

    /// `[translate.output] target` when the output is a table that sets it,
    /// else `[translate] target`.
    pub fn resolved_target(&self) -> (r: Option<&str>)
        ensures
            opt_str(r) == match self.output {
                Some(TranslateOutputScope::Config(c)) => or_else(
                    opt_string(c.target),
                    opt_string(self.target),
                ),
                _ => opt_string(self.target),
            },
    {
        match &self.output {
            Some(TranslateOutputScope::Config(config)) => match &config.target {
                Some(t) => Some(t.as_str()),
                None => as_opt_str(&self.target),
            },
            _ => as_opt_str(&self.target),
        }
    }

    /// The output path: `[translate] output` when it is a path, else
    /// `[translate.output] path`.
    pub fn resolved_output_path(&self) -> (r: Option<&str>)
        ensures
            opt_str(r) == match self.output {
                Some(TranslateOutputScope::Path(p)) => Some(p@),
                Some(TranslateOutputScope::Config(c)) => opt_string(c.path),
                None => None,
            },
    {
        match &self.output {
            Some(TranslateOutputScope::Path(path)) => Some(path.as_str()),
            Some(TranslateOutputScope::Config(config)) => as_opt_str(&config.path),
            None => None,
        }
    }

    /// `[translate.output] lang` when the output is a table that sets it,
    /// else `[translate] target_lang`.
    pub fn resolved_target_langs(&self) -> (r: Option<&Vec<String>>)
        ensures
            opt_list(r) == match self.output {
                Some(TranslateOutputScope::Config(c)) => or_else(
                    opt_list_owned(c.lang),
                    opt_list_owned(self.target_lang),
                ),
                _ => opt_list_owned(self.target_lang),
            },
    {
        match &self.output {
            Some(TranslateOutputScope::Config(config)) => match &config.lang {
                Some(l) => Some(l),
                None => match &self.target_lang {
                    Some(l) => Some(l),
                    None => None,
                },
            },
            _ => match &self.target_lang {
                Some(l) => Some(l),
                None => None,
            },
        }
    }

    /// `[translate.output] status` when the output is a table that sets it,
    /// else `[translate] output_status`.
    pub fn resolved_output_status(&self) -> (r: Option<&str>)
        ensures
            opt_str(r) == match self.output {
                Some(TranslateOutputScope::Config(c)) => or_else(
                    opt_string(c.status),
                    opt_string(self.output_status),
                ),
                _ => opt_string(self.output_status),
            },
    {
        match &self.output {
            Some(TranslateOutputScope::Config(config)) => match &config.status {
                Some(s) => Some(s.as_str()),
                None => as_opt_str(&self.output_status),
            },
            _ => as_opt_str(&self.output_status),
        }
    }
}

/// On Unix a path is absolute when it starts at the root, `/`.
pub open spec fn is_absolute_path(path: Seq<char>) -> bool {
    starts_with(path, "/"@)
}

/// `Path::join` of a relative path onto a directory, on Unix: a separator is
/// put between them unless the directory is empty or already ends with one.
pub open spec fn join_path(dir: Seq<char>, path: Seq<char>) -> Seq<char> {
    if dir.len() == 0 || ends_with(dir, "/"@) {
        dir + path
    } else {
        dir + "/"@ + path
    }
}

/// Where a path written in a configuration file points: an absolute path
/// stays as it is, a relative one is read from the configuration's directory
/// when there is one.
pub open spec fn config_relative(config_dir: Option<Seq<char>>, path: Seq<char>) -> Seq<char> {
    if is_absolute_path(path) {
        path
    } else {
        match config_dir {
            Some(dir) => join_path(dir, path),
            None => path,
        }
    }
}

/// Resolves a path written in a configuration file against the directory of
/// that file.
pub fn resolve_config_relative_path(config_dir: Option<&str>, path: &str) -> (r: String)
    ensures
        r@ == config_relative(opt_str(config_dir), path@),
{
    if str_starts_with(path, "/") {
        return owned(path);
    }
    match config_dir {
        Some(dir) => {
            if dir.unicode_len() == 0 || str_ends_with(dir, "/") {
                cat(dir, path)
            } else {
                cat3(dir, "/", path)
            }
        },
        None => owned(path),
    }
}

} // verus!
