//! How the options of a `translate` run are resolved from the command line
//! and the project configuration.

use vstd::prelude::*;
use vstd::string::*;
use crate::config::{
    config_relative, opt_list_owned, opt_string, or_else, resolve_config_relative_path,
    LoadedConfig, TolgeeConfig, TranslateConfig, TranslateOutputScope,
};
use crate::langid::{invalid_language_message, language_code_ok, validate_language_code};
use crate::languages::{list_result_view, parse_language_list, parsed_languages};
use crate::model::{opt_seq, EntryStatus, ResourceView};
use crate::paths::path_parent;
use crate::text::{split_on, split_str, strings_view};
use crate::convert::{FormatType, FormatView};
use crate::translate::{
    output_status_for, parse_output_status, parse_status_filter, parsed_statuses, status_names,
    statuses_result_view, TranslateOptions,
};

verus! {

broadcast use vstd::string::group_string_axioms;

/// The number of translations run at once when nothing sets it.
pub const DEFAULT_CONCURRENCY: usize = 4;

/// How progress is shown, once the terminal has been asked.
#[derive(Debug, Clone, Copy, PartialEq, Eq, Structural)]
pub enum ResolvedUiMode {
    Plain,
    Tui,
}

/// The options a translate run works with.
#[derive(Debug, Clone)]
pub struct ResolvedOptions {
    pub source: String,
    pub target: Option<String>,
    pub output: Option<String>,
    pub source_lang: Option<String>,
    pub target_langs: Vec<String>,
    pub statuses: Vec<EntryStatus>,
    pub output_status: EntryStatus,
    pub provider: Option<String>,
    pub model: Option<String>,
    pub provider_error: Option<String>,
    pub model_error: Option<String>,
    pub concurrency: usize,
    pub use_tolgee: bool,
    pub tolgee_config: Option<String>,
    pub tolgee_namespaces: Vec<String>,
    pub dry_run: bool,
    pub strict: bool,
    pub ui_mode: ResolvedUiMode,
}

pub struct ResolvedView {
    pub source: Seq<char>,
    pub target: Option<Seq<char>>,
    pub output: Option<Seq<char>>,
    pub source_lang: Option<Seq<char>>,
    pub target_langs: Seq<Seq<char>>,
    pub statuses: Seq<EntryStatus>,
    pub output_status: EntryStatus,
    pub provider: Option<Seq<char>>,
    pub model: Option<Seq<char>>,
    pub provider_error: Option<Seq<char>>,
    pub model_error: Option<Seq<char>>,
    pub concurrency: usize,
    pub use_tolgee: bool,
    pub tolgee_config: Option<Seq<char>>,
    pub tolgee_namespaces: Seq<Seq<char>>,
    pub dry_run: bool,
    pub strict: bool,
    pub ui_mode: ResolvedUiMode,
}

impl View for ResolvedOptions {
    type V = ResolvedView;

    open spec fn view(&self) -> ResolvedView {
        ResolvedView {
            source: self.source@,
            target: opt_seq(self.target),
            output: opt_seq(self.output),
            source_lang: opt_seq(self.source_lang),
            target_langs: strings_view(self.target_langs@),
            statuses: self.statuses@,
            output_status: self.output_status,
            provider: opt_seq(self.provider),
            model: opt_seq(self.model),
            provider_error: opt_seq(self.provider_error),
            model_error: opt_seq(self.model_error),
            concurrency: self.concurrency,
            use_tolgee: self.use_tolgee,
            tolgee_config: opt_seq(self.tolgee_config),
            tolgee_namespaces: strings_view(self.tolgee_namespaces@),
            dry_run: self.dry_run,
            strict: self.strict,
            ui_mode: self.ui_mode,
        }
    }
}

/// `[translate.output] lang` when the output is a table that sets it, else
/// `[translate] target_lang`.
pub open spec fn config_target_langs(c: TranslateConfig) -> Option<Seq<Seq<char>>> {
    match c.output {
        Some(TranslateOutputScope::Config(o)) => or_else(opt_list_owned(o.lang), opt_list_owned(c.target_lang)),
        _ => opt_list_owned(c.target_lang),
    }
}

/// `[translate.input] lang`, else `[translate] source_lang`.
pub open spec fn config_source_lang(c: TranslateConfig) -> Option<Seq<char>> {
    or_else(opt_string(c.input.lang), opt_string(c.source_lang))
}

/// `[translate.input] status`, else `[translate] status`.
pub open spec fn config_filter_status(c: TranslateConfig) -> Option<Seq<Seq<char>>> {
    or_else(opt_list_owned(c.input.status), opt_list_owned(c.status))
}

/// `[translate.output] status` when the output is a table that sets it,
/// else `[translate] output_status`.
pub open spec fn config_output_status(c: TranslateConfig) -> Option<Seq<char>> {
    match c.output {
        Some(TranslateOutputScope::Config(o)) => or_else(opt_string(o.status), opt_string(c.output_status)),
        _ => opt_string(c.output_status),
    }
}

/// The pieces of the configured target languages, each value split at commas.
pub open spec fn split_values(vs: Seq<Seq<char>>) -> Seq<Seq<char>>
    decreases vs.len(),
{
    if vs.len() == 0 {
        Seq::empty()
    } else {
        split_values(vs.drop_last()) + split_on(vs.last(), ',')
    }
}

/// The target language values asked for: those on the command line, else
/// the configured ones split at commas.
pub open spec fn requested_target_langs(opts: TranslateOptions, cfg: Option<TranslateConfig>) -> Seq<
    Seq<char>,
> {
    if opts.target_langs@.len() > 0 {
        strings_view(opts.target_langs@)
    } else {
        match cfg {
            Some(c) => match config_target_langs(c) {
                Some(vs) => split_values(vs),
                None => Seq::empty(),
            },
            None => Seq::empty(),
        }
    }
}

/// What `validate_language_code` decides of a tag.
pub open spec fn language_code_check(l: Seq<char>) -> Result<(), Seq<char>> {
    if l.len() == 0 {
        Err("Language code cannot be empty"@)
    } else if !language_code_ok(l) {
        Err(invalid_language_message(l))
    } else {
        Ok(())
    }
}

pub open spec fn translate_config_of(config: Option<LoadedConfig>) -> Option<TranslateConfig> {
    match config {
        Some(c) => Some(c.data.translate),
        None => None,
    }
}

/// Whether the run goes through Tolgee: asked on the command line (directly,
/// by a Tolgee configuration or by namespaces) or in the configuration.
pub open spec fn tolgee_wanted(opts: TranslateOptions, cfg: Option<TranslateConfig>) -> bool {
    opts.use_tolgee || opts.tolgee_config is Some || opts.tolgee_namespaces@.len() > 0 || match cfg {
        Some(c) => c.use_tolgee == Some(true),
        None => false,
    }
}

/// The Tolgee configuration file: the one on the command line, else the
/// configured one read from the configuration's directory.
pub open spec fn tolgee_config_path(opts: TranslateOptions, config: Option<LoadedConfig>) -> Option<Seq<char>> {
    match opts.tolgee_config {
        Some(p) => Some(p@),
        None => match config {
            Some(c) => match c.data.tolgee.config {
                Some(p) => Some(config_relative(path_parent(c.path@), p@)),
                None => None,
            },
            None => None,
        },
    }
}

/// The Tolgee namespaces: those on the command line, else the configured ones.
pub open spec fn tolgee_namespaces_for(opts: TranslateOptions, config: Option<LoadedConfig>) -> Seq<Seq<char>> {
    if opts.tolgee_namespaces@.len() > 0 {
        strings_view(opts.tolgee_namespaces@)
    } else {
        match config {
            Some(c) => match c.data.tolgee.namespaces {
                Some(ns) => strings_view(ns@),
                None => Seq::empty(),
            },
            None => Seq::empty(),
        }
    }
}

/// The concurrency: the command line's, else the configured one, else the
/// default.
pub open spec fn concurrency_for(opts: TranslateOptions, cfg: Option<TranslateConfig>) -> usize {
    match opts.concurrency {
        Some(n) => n,
        None => match cfg {
            Some(c) => match c.concurrency {
                Some(n) => n,
                None => DEFAULT_CONCURRENCY,
            },
            None => DEFAULT_CONCURRENCY,
        },
    }
}

/// How the options of a run are resolved, given what the provider and model
/// resolution and the terminal gave. A provider or model that cannot be
/// resolved only fails the run when Tolgee is not used. The checks come in
/// this order: target languages, source language, provider, model,
/// concurrency, status filter, output status, progress display, source.
pub open spec fn resolution(
    opts: TranslateOptions,
    config: Option<LoadedConfig>,
    provider: Result<Seq<char>, Seq<char>>,
    model: Result<Seq<char>, Seq<char>>,
    ui: Result<ResolvedUiMode, Seq<char>>,
) -> Result<ResolvedView, Seq<char>> {
    let cfg = translate_config_of(config);
    let source_lang = or_else(
        opt_seq(opts.source_lang),
        match cfg {
            Some(c) => config_source_lang(c),
            None => None,
        },
    );
    let use_tolgee = tolgee_wanted(opts, cfg);
    match parsed_languages(requested_target_langs(opts, cfg)) {
        Err(e) => Err(e),
        Ok(langs) => if langs.len() == 0 {
            Err(
                "--target-lang is required (or set translate.output.lang/translate.target_lang in langcodec.toml)"@,
            )
        } else if source_lang is Some && language_code_check(source_lang.unwrap()) is Err {
            Err(language_code_check(source_lang.unwrap())->Err_0)
        } else if provider is Err && !use_tolgee {
            Err(provider->Err_0)
        } else if provider is Ok && model is Err && !use_tolgee {
            Err(model->Err_0)
        } else if concurrency_for(opts, cfg) == 0 {
            Err("Concurrency must be greater than zero"@)
        } else {
            let statuses = parsed_statuses(
                status_names(
                    opt_seq(opts.status),
                    match cfg {
                        Some(c) => config_filter_status(c),
                        None => None,
                    },
                ),
            );
            let output_status = output_status_for(
                match cfg {
                    Some(c) => config_output_status(c),
                    None => None,
                },
            );
            match statuses {
                Err(e) => Err(e),
                Ok(sts) => match output_status {
                    Err(e) => Err(e),
                    Ok(os) => match ui {
                        Err(e) => Err(e),
                        Ok(mode) => match opts.source {
                            None => Err("--source is required"@),
                            Some(src) => Ok(
                                ResolvedView {
                                    source: src@,
                                    target: opt_seq(opts.target),
                                    output: opt_seq(opts.output),
                                    source_lang: source_lang,
                                    target_langs: langs,
                                    statuses: sts,
                                    output_status: os,
                                    provider: match provider {
                                        Ok(p) => Some(p),
                                        Err(_) => None,
                                    },
                                    model: match provider {
                                        Ok(_) => match model {
                                            Ok(m) => Some(m),
                                            Err(_) => None,
                                        },
                                        Err(_) => None,
                                    },
                                    provider_error: match provider {
                                        Ok(_) => None,
                                        Err(e) => Some(e),
                                    },
                                    model_error: match provider {
                                        Ok(_) => match model {
                                            Ok(_) => None,
                                            Err(e) => Some(e),
                                        },
                                        Err(_) => None,
                                    },
                                    concurrency: concurrency_for(opts, cfg),
                                    use_tolgee: use_tolgee,
                                    tolgee_config: tolgee_config_path(opts, config),
                                    tolgee_namespaces: tolgee_namespaces_for(opts, config),
                                    dry_run: opts.dry_run,
                                    strict: opts.strict,
                                    ui_mode: mode,
                                },
                            ),
                        },
                    },
                },
            }
        },
    }
}

pub open spec fn str_result(r: Result<String, String>) -> Result<Seq<char>, Seq<char>> {
    match r {
        Ok(s) => Ok(s@),
        Err(e) => Err(e@),
    }
}

pub open spec fn ui_result(r: Result<ResolvedUiMode, String>) -> Result<ResolvedUiMode, Seq<char>> {
    match r {
        Ok(m) => Ok(m),
        Err(e) => Err(e@),
    }
}

fn split_config_values(vs: &Vec<String>) -> (r: Vec<String>)
    ensures
        strings_view(r@) == split_values(strings_view(vs@)),
{
    let ghost vv = strings_view(vs@);
    let mut out: Vec<String> = Vec::new();
    let mut i: usize = 0;
    assert(vv.take(0) =~= Seq::<Seq<char>>::empty());
    assert(strings_view(out@) =~= Seq::<Seq<char>>::empty());
    while i < vs.len()
        invariant
            i <= vs@.len(),
            vv == strings_view(vs@),
            strings_view(out@) == split_values(vv.take(i as int)),
        decreases vs.len() - i,
    {
        assert(vv.take(i + 1).drop_last() =~= vv.take(i as int));
        let pieces = split_str(vs[i].as_str(), ',');
        let ghost pv = strings_view(pieces@);
        let ghost start = strings_view(out@);
        let mut k: usize = 0;
        while k < pieces.len()
            invariant
                k <= pieces@.len(),
                pv == strings_view(pieces@),
                strings_view(out@) == start + pv.take(k as int),
            decreases pieces.len() - k,
        {
            let ghost p0 = strings_view(out@);
            out.push(pieces[k].clone());
            assert(strings_view(out@) =~= p0.push(pv[k as int]));
            assert(pv.take(k + 1) =~= pv.take(k as int).push(pv[k as int]));
            k = k + 1;
        }
        assert(pv.take(k as int) =~= pv);
        i = i + 1;
    }
    assert(vv.take(i as int) =~= vv);
    out
}

fn copy_strings(v: &Vec<String>) -> (r: Vec<String>)
    ensures
        strings_view(r@) == strings_view(v@),
{
    let mut r: Vec<String> = Vec::new();
    let mut i: usize = 0;
    while i < v.len()
        invariant
            i <= v@.len(),
            r@.len() == i,
            forall|j: int| 0 <= j < i ==> #[trigger] r@[j]@ == v@[j]@,
        decreases v.len() - i,
    {
        r.push(v[i].clone());
        i = i + 1;
    }
    assert(strings_view(r@) =~= strings_view(v@));
    r
}

/// Resolves the options of a run. `provider` is what the provider resolution
/// gave for the command line and configuration, `model` what the model
/// resolution gave for that provider, and `ui_mode` what the terminal check
/// gave for the requested display.
pub fn resolve_options(
    opts: &TranslateOptions,
    config: Option<&LoadedConfig>,
    provider: Result<String, String>,
    model: Result<String, String>,
    ui_mode: Result<ResolvedUiMode, String>,
) -> (r: Result<ResolvedOptions, String>)
    ensures
        match resolution(
            *opts,
            match config {
                Some(c) => Some(*c),
                None => None,
            },
            str_result(provider),
            str_result(model),
            ui_result(ui_mode),
        ) {
            Ok(v) => r matches Ok(ro) && ro@ == v,
            Err(e) => r matches Err(m) && m@ == e,
        },
{
    let ghost cfgv = translate_config_of(
        match config {
            Some(c) => Some(*c),
            None => None,
        },
    );
    let cfg: Option<&TranslateConfig> = match config {
        Some(c) => Some(&c.data.translate),
        None => None,
    };
    let source_lang: Option<String> = match &opts.source_lang {
        Some(l) => Some(l.clone()),
        None => match cfg {
            Some(c) => match c.resolved_source_lang() {
                Some(l) => Some(String::from_str(l)),
                None => None,
            },
            None => None,
        },
    };
    let requested: Vec<String> = if opts.target_langs.len() > 0 {
        copy_strings(&opts.target_langs)
    } else {
        match cfg {
            Some(c) => match c.resolved_target_langs() {
                Some(vs) => split_config_values(vs),
                None => Vec::new(),
            },
            None => Vec::new(),
        }
    };
    proof {
        if opts.target_langs@.len() == 0 && (cfgv is None || config_target_langs(cfgv.unwrap()) is None) {
            assert(strings_view(requested@) =~= Seq::<Seq<char>>::empty());
        }
    }
    let target_langs = match parse_language_list(requested.as_slice()) {
        Ok(l) => l,
        Err(e) => {
            return Err(e);
        },
    };
    if target_langs.len() == 0 {
        return Err(
            String::from_str(
                "--target-lang is required (or set translate.output.lang/translate.target_lang in langcodec.toml)",
            ),
        );
    }
    match &source_lang {
        Some(l) => match validate_language_code(l.as_str()) {
            Ok(()) => {},
            Err(e) => {
                return Err(e);
            },
        },
        None => {},
    }
    let cfg_tolgee = match cfg {
        Some(c) => match c.use_tolgee {
            Some(b) => b,
            None => false,
        },
        None => false,
    };
    let use_tolgee = opts.use_tolgee || opts.tolgee_config.is_some() || opts.tolgee_namespaces.len()
        > 0 || cfg_tolgee;
    let tolgee_config: Option<String> = match &opts.tolgee_config {
        Some(p) => Some(p.clone()),
        None => match config {
            Some(c) => match &c.data.tolgee.config {
                Some(p) => {
                    let dir = c.config_dir();
                    let d = crate::config::as_opt_str(&dir);
                    Some(resolve_config_relative_path(d, p.as_str()))
                },
                None => None,
            },
            None => None,
        },
    };
    let tolgee_namespaces: Vec<String> = if opts.tolgee_namespaces.len() > 0 {
        copy_strings(&opts.tolgee_namespaces)
    } else {
        match config {
            Some(c) => match &c.data.tolgee.namespaces {
                Some(ns) => copy_strings(ns),
                None => Vec::new(),
            },
            None => Vec::new(),
        }
    };
    proof {
        if opts.tolgee_namespaces@.len() == 0 && (config is None || config.unwrap().data.tolgee.namespaces is None) {
            assert(strings_view(tolgee_namespaces@) =~= Seq::<Seq<char>>::empty());
        }
    }
    let (prov, provider_error): (Option<String>, Option<String>) = match provider {
        Ok(p) => (Some(p), None),
        Err(e) => if use_tolgee {
            (None, Some(e))
        } else {
            return Err(e);
        },
    };
    let (mdl, model_error): (Option<String>, Option<String>) = if prov.is_some() {
        match model {
            Ok(m) => (Some(m), None),
            Err(e) => if use_tolgee {
                (None, Some(e))
            } else {
                return Err(e);
            },
        }
    } else {
        (None, None)
    };
    let concurrency = match opts.concurrency {
        Some(n) => n,
        None => match cfg {
            Some(c) => match c.concurrency {
                Some(n) => n,
                None => DEFAULT_CONCURRENCY,
            },
            None => DEFAULT_CONCURRENCY,
        },
    };
    if concurrency == 0 {
        return Err(String::from_str("Concurrency must be greater than zero"));
    }
    let cli_status: Option<&str> = match &opts.status {
        Some(s) => Some(s.as_str()),
        None => None,
    };
    let cfg_status: Option<&Vec<String>> = match cfg {
        Some(c) => c.resolved_filter_status(),
        None => None,
    };
    let statuses = match parse_status_filter(cli_status, cfg_status) {
        Ok(s) => s,
        Err(e) => {
            return Err(e);
        },
    };
    let cfg_output_status: Option<&str> = match cfg {
        Some(c) => c.resolved_output_status(),
        None => None,
    };
    let output_status = match parse_output_status(cfg_output_status) {
        Ok(s) => s,
        Err(e) => {
            return Err(e);
        },
    };
    let mode = match ui_mode {
        Ok(m) => m,
        Err(e) => {
            return Err(e);
        },
    };
    let source = match &opts.source {
        Some(s) => s.clone(),
        None => {
            return Err(String::from_str("--source is required"));
        },
    };
    Ok(
        ResolvedOptions {
            source,
            target: crate::model::copy_opt_string(&opts.target),
            output: crate::model::copy_opt_string(&opts.output),
            source_lang,
            target_langs,
            statuses,
            output_status,
            provider: prov,
            model: mdl,
            provider_error,
            model_error,
            concurrency,
            use_tolgee,
            tolgee_config,
            tolgee_namespaces,
            dry_run: opts.dry_run,
            strict: opts.strict,
            ui_mode: mode,
        },
    )
}

/// The paths of a translate run: the source; the target (the explicit one,
/// else the output, else the source); the output (the explicit one, else the
/// target); whether a target was given; whether it is the source.
#[derive(Debug, Clone)]
pub struct TranslationPaths {
    pub source: String,
    pub target: String,
    pub output: String,
    pub has_explicit_target: bool,
    pub target_is_source: bool,
}

pub open spec fn target_path_for(source: Seq<char>, target: Option<Seq<char>>, output: Option<Seq<char>>) -> Seq<
    char,
> {
    match target {
        Some(t) => t,
        None => match output {
            Some(o) => o,
            None => source,
        },
    }
}

pub fn translation_paths(source: &String, target: &Option<String>, output: &Option<String>) -> (r:
    TranslationPaths)
    ensures
        r.source@ == source@,
        r.target@ == target_path_for(source@, opt_seq(*target), opt_seq(*output)),
        r.output@ == (match output {
            Some(o) => o@,
            None => target_path_for(source@, opt_seq(*target), opt_seq(*output)),
        }),
        r.has_explicit_target == target is Some,
        r.target_is_source == crate::paths::path_eq(r.target@, source@),
{
    let target_path = match target {
        Some(t) => t.clone(),
        None => match output {
            Some(o) => o.clone(),
            None => source.clone(),
        },
    };
    let output_path = match output {
        Some(o) => o.clone(),
        None => target_path.clone(),
    };
    let target_is_source = crate::paths::paths_equal(target_path.as_str(), source.as_str());
    TranslationPaths {
        source: source.clone(),
        target: target_path,
        output: output_path,
        has_explicit_target: target.is_some(),
        target_is_source,
    }
}

/// A target that was given and is not the source.
pub open spec fn distinct_target(p: TranslationPaths) -> bool {
    p.has_explicit_target && !p.target_is_source
}

pub open spec fn is_stringsdict(f: Option<FormatView>) -> bool {
    match f {
        Some(FormatView::Stringsdict(_)) => true,
        _ => false,
    }
}

pub open spec fn opt_format(f: Option<FormatType>) -> Option<FormatView> {
    match f {
        Some(x) => Some(x@),
        None => None,
    }
}

/// The output format a run writes, given the formats the three paths name:
/// the output path must name one, and none of the paths may be a
/// `.stringsdict`.
pub open spec fn output_format_check(
    output_path: Seq<char>,
    source: Option<FormatView>,
    target: Option<FormatView>,
    output: Option<FormatView>,
) -> Result<FormatView, Seq<char>> {
    match output {
        None => Err("Cannot infer output format from path: "@ + output_path),
        Some(o) => if is_stringsdict(source) || is_stringsdict(target) || is_stringsdict(output) {
            Err(
                ".stringsdict is not supported by `translate` until plural-aware translation is implemented."@,
            )
        } else {
            Ok(o)
        },
    }
}

fn format_is_stringsdict(f: &Option<FormatType>) -> (r: bool)
    ensures
        r == is_stringsdict(opt_format(*f)),
{
    match f {
        Some(FormatType::Stringsdict(_)) => true,
        _ => false,
    }
}

pub fn check_output_format(
    output_path: &str,
    source: &Option<FormatType>,
    target: &Option<FormatType>,
    output: &Option<FormatType>,
) -> (r: Result<FormatType, String>)
    ensures
        match output_format_check(output_path@, opt_format(*source), opt_format(*target), opt_format(*output)) {
            Ok(f) => r matches Ok(x) && x@ == f,
            Err(e) => r matches Err(m) && m@ == e,
        },
{
    match output {
        None => Err(crate::text::cat("Cannot infer output format from path: ", output_path)),
        Some(o) => if format_is_stringsdict(source) || format_is_stringsdict(target) || format_is_stringsdict(output) {
            Err(
                String::from_str(
                    ".stringsdict is not supported by `translate` until plural-aware translation is implemented.",
                ),
            )
        } else {
            Ok(o.clone_format())
        },
    }
}

/// The checks on the languages a run's paths name, before any catalog is
/// read: a distinct target that is not the output must name the output's
/// language; several target languages need a multi-language output; and
/// leaving out the target only works in place on a multi-language file.
pub open spec fn path_language_check(
    p: TranslationPaths,
    output_multi: bool,
    target_hint: Option<Seq<char>>,
    output_hint: Option<Seq<char>>,
    target_lang_count: nat,
) -> Result<(), Seq<char>> {
    if distinct_target(p) && !crate::paths::path_eq(p.target@, p.output@) && target_hint is Some
        && output_hint is Some && crate::langid::lang_identity(target_hint.unwrap())
        != crate::langid::lang_identity(output_hint.unwrap()) {
        Err(
            "Target path '"@ + p.target@ + "' identifies language '"@ + target_hint.unwrap()
                + "' but output path '"@ + p.output@ + "' identifies language '"@ + output_hint.unwrap()
                + "'; refusing to retag the target locale"@,
        )
    } else if !output_multi && target_lang_count > 1 {
        Err("Multiple --target-lang values are only supported for multi-language output formats"@)
    } else if !p.has_explicit_target && p.output@ == p.source@ && !output_multi {
        Err(
            "Omitting --target is only supported for in-place multi-language files; use --target or --output for single-language formats"@,
        )
    } else {
        Ok(())
    }
}

pub fn check_path_languages(
    p: &TranslationPaths,
    output_format: &FormatType,
    target_hint: Option<&str>,
    output_hint: Option<&str>,
    target_lang_count: usize,
) -> (r: Result<(), String>)
    ensures
        match path_language_check(
            *p,
            crate::convert::multi_language(output_format@),
            crate::config::opt_str(target_hint),
            crate::config::opt_str(output_hint),
            target_lang_count as nat,
        ) {
            Ok(()) => r is Ok,
            Err(e) => r matches Err(m) && m@ == e,
        },
{
    let multi = crate::convert::is_multi_language_format(output_format);
    if p.has_explicit_target && !p.target_is_source && !crate::paths::paths_equal(p.target.as_str(), p.output.as_str()) {
        match (target_hint, output_hint) {
            (Some(t), Some(o)) => {
                if !crate::langid::language_identity_eq(t, o) {
                    let mut m = String::from_str("Target path '");
                    m.append(p.target.as_str());
                    m.append("' identifies language '");
                    m.append(t);
                    m.append("' but output path '");
                    m.append(p.output.as_str());
                    m.append("' identifies language '");
                    m.append(o);
                    m.append("'; refusing to retag the target locale");
                    return Err(m);
                }
            },
            _ => {},
        }
    }
    if !multi && target_lang_count > 1 {
        return Err(
            String::from_str(
                "Multiple --target-lang values are only supported for multi-language output formats",
            ),
        );
    }
    if !p.has_explicit_target && crate::text::str_eq(p.output.as_str(), p.source.as_str()) && !multi {
        return Err(
            String::from_str(
                "Omitting --target is only supported for in-place multi-language files; use --target or --output for single-language formats",
            ),
        );
    }
    Ok(())
}

/// The language hint the source is read with: for a single-language source
/// whose path names no language, its own declared language, else the
/// requested source language.
pub open spec fn source_read_hint(
    source_format: Option<FormatView>,
    path_hint: Option<Seq<char>>,
    intrinsic: Option<Seq<char>>,
    source_lang: Option<Seq<char>>,
) -> Option<Seq<char>> {
    if source_format is Some && crate::convert::single_language(source_format.unwrap()) && path_hint is None {
        or_else(intrinsic, source_lang)
    } else {
        None
    }
}

pub fn source_language_hint(
    source_format: &Option<FormatType>,
    path_hint: &Option<String>,
    intrinsic: &Option<String>,
    source_lang: &Option<String>,
) -> (r: Option<String>)
    ensures
        opt_seq(r) == source_read_hint(
            opt_format(*source_format),
            opt_seq(*path_hint),
            opt_seq(*intrinsic),
            opt_seq(*source_lang),
        ),
{
    let single = match source_format {
        Some(f) => crate::convert::is_single_language_format(f),
        None => false,
    };
    if single && path_hint.is_none() {
        match intrinsic {
            Some(l) => Some(l.clone()),
            None => crate::model::copy_opt_string(source_lang),
        }
    } else {
        None
    }
}

/// Where the target catalog of a run comes from.
#[derive(Debug, Clone, Copy, PartialEq, Eq, Structural)]
pub enum TargetCatalog {
    /// The existing target file is read.
    ReadExisting,
    /// The source catalog is the starting point.
    CopySource,
    /// The target starts empty.
    Fresh,
}

pub open spec fn target_catalog_for(p: TranslationPaths, target_exists: bool, output_multi: bool) -> TargetCatalog {
    if distinct_target(p) && target_exists {
        TargetCatalog::ReadExisting
    } else if (p.has_explicit_target && p.target_is_source) || (!p.has_explicit_target && output_multi) {
        TargetCatalog::CopySource
    } else {
        TargetCatalog::Fresh
    }
}

pub fn target_catalog(p: &TranslationPaths, target_exists: bool, output_format: &FormatType) -> (r:
    TargetCatalog)
    ensures
        r == target_catalog_for(*p, target_exists, crate::convert::multi_language(output_format@)),
{
    let multi = crate::convert::is_multi_language_format(output_format);
    if p.has_explicit_target && !p.target_is_source && target_exists {
        TargetCatalog::ReadExisting
    } else if (p.has_explicit_target && p.target_is_source) || (!p.has_explicit_target && multi) {
        TargetCatalog::CopySource
    } else {
        TargetCatalog::Fresh
    }
}

/// The first requested language of the same identity as the source
/// language, if any.
pub open spec fn first_same_identity(langs: Seq<Seq<char>>, source: Seq<char>) -> Option<int>
    decreases langs.len(),
{
    if langs.len() == 0 {
        None
    } else if crate::langid::lang_identity(langs[0]) == crate::langid::lang_identity(source) {
        Some(0)
    } else {
        match first_same_identity(langs.drop_first(), source) {
            Some(k) => Some(k + 1),
            None => None,
        }
    }
}

/// The checks on the resolved target languages: a single-language output
/// must be in the first target language, and no target language may be the
/// source language.
pub open spec fn resolved_targets_check(
    langs: Seq<Seq<char>>,
    output_multi: bool,
    output_hint: Option<Seq<char>>,
    source_language: Seq<char>,
    output_path: Seq<char>,
) -> Result<(), Seq<char>> {
    if !output_multi && langs.len() > 0 && output_hint is Some && crate::langid::lang_identity(langs[0])
        != crate::langid::lang_identity(output_hint.unwrap()) {
        Err(
            "Target language '"@ + langs[0] + "' is incompatible with output path '"@ + output_path
                + "' language '"@ + output_hint.unwrap() + "'; use a matching output locale"@,
        )
    } else {
        match first_same_identity(langs, source_language) {
            Some(k) => Err(
                "Source language '"@ + source_language + "' and target language '"@ + langs[k]
                    + "' must differ"@,
            ),
            None => Ok(()),
        }
    }
}

pub fn check_resolved_targets(
    langs: &Vec<String>,
    output_format: &FormatType,
    output_hint: Option<&str>,
    source_language: &str,
    output_path: &str,
) -> (r: Result<(), String>)
    ensures
        match resolved_targets_check(
            strings_view(langs@),
            crate::convert::multi_language(output_format@),
            crate::config::opt_str(output_hint),
            source_language@,
            output_path@,
        ) {
            Ok(()) => r is Ok,
            Err(e) => r matches Err(m) && m@ == e,
        },
{
    let ghost lv = strings_view(langs@);
    if !crate::convert::is_multi_language_format(output_format) && langs.len() > 0 {
        match output_hint {
            Some(o) => {
                if !crate::langid::language_identity_eq(langs[0].as_str(), o) {
                    let mut m = String::from_str("Target language '");
                    m.append(langs[0].as_str());
                    m.append("' is incompatible with output path '");
                    m.append(output_path);
                    m.append("' language '");
                    m.append(o);
                    m.append("'; use a matching output locale");
                    return Err(m);
                }
            },
            None => {},
        }
    }
    let mut i: usize = 0;
    assert(lv.skip(0) =~= lv);
    while i < langs.len()
        invariant
            i <= langs@.len(),
            lv == strings_view(langs@),
            !(!crate::convert::multi_language(output_format@) && lv.len() > 0 && crate::config::opt_str(
                output_hint,
            ) is Some && crate::langid::lang_identity(lv[0]) != crate::langid::lang_identity(
                crate::config::opt_str(output_hint).unwrap(),
            )),
            first_same_identity(lv, source_language@) == match first_same_identity(lv.skip(i as int), source_language@) {
                Some(k) => Some(k + i),
                None => None,
            },
        decreases langs.len() - i,
    {
        assert(lv.skip(i as int).drop_first() =~= lv.skip(i + 1));
        assert(lv.skip(i as int)[0] == langs@[i as int]@);
        if crate::langid::language_identity_eq(source_language, langs[i].as_str()) {
            let mut m = String::from_str("Source language '");
            m.append(source_language);
            m.append("' and target language '");
            m.append(langs[i].as_str());
            m.append("' must differ");
            return Err(m);
        }
        i = i + 1;
    }
    assert(lv.skip(i as int).len() == 0);
    Ok(())
}

/// Whether a distinct target that does not exist yet, written to a
/// multi-language output, starts with a resource of the source language.
pub open spec fn seeds_source_resource(p: TranslationPaths, target_exists: bool, output_multi: bool) -> bool {
    distinct_target(p) && !target_exists && output_multi
}

pub fn should_seed_source_resource(p: &TranslationPaths, target_exists: bool, output_format: &FormatType) -> (r:
    bool)
    ensures
        r == seeds_source_resource(*p, target_exists, crate::convert::multi_language(output_format@)),
{
    p.has_explicit_target && !p.target_is_source && !target_exists
        && crate::convert::is_multi_language_format(output_format)
}

/// What a run names as its translation engine: the provider and model,
/// preceded by `tolgee + ` when Tolgee is used; `tolgee` alone, or
/// `unconfigured`, when there is no model.
pub open spec fn engine_label(use_tolgee: bool, provider: Option<Seq<char>>, model: Option<Seq<char>>) -> Seq<char> {
    let ai = if provider is Some && model is Some {
        Some(provider.unwrap() + ":"@ + model.unwrap())
    } else {
        None::<Seq<char>>
    };
    match ai {
        Some(a) => if use_tolgee {
            "tolgee + "@ + a
        } else {
            a
        },
        None => if use_tolgee {
            "tolgee"@
        } else {
            "unconfigured"@
        },
    }
}

pub fn translate_engine_label(opts: &ResolvedOptions) -> (r: String)
    ensures
        r@ == engine_label(opts.use_tolgee, opt_seq(opts.provider), opt_seq(opts.model)),
{
    match (&opts.provider, &opts.model) {
        (Some(p), Some(m)) => {
            let mut s = if opts.use_tolgee {
                String::from_str("tolgee + ")
            } else {
                String::new()
            };
            s.append(p.as_str());
            s.append(":");
            s.append(m.as_str());
            s
        },
        _ => if opts.use_tolgee {
            String::from_str("tolgee")
        } else {
            String::from_str("unconfigured")
        },
    }
}

/// The rows that describe a run on its dashboard.
pub open spec fn metadata_rows(
    opts: ResolvedView,
    source_path: Seq<char>,
    target_path: Seq<char>,
    output_path: Seq<char>,
    config_path: Option<Seq<char>>,
) -> Seq<(Seq<char>, Seq<char>)> {
    seq![
        ("Provider"@, engine_label(opts.use_tolgee, opts.provider, opts.model)),
        ("Source"@, source_path),
        ("Target"@, target_path),
        ("Output"@, output_path),
        ("Concurrency"@, crate::text::decimal(opts.concurrency as nat)),
    ] + (if opts.dry_run {
        seq![("Mode"@, "dry-run"@)]
    } else {
        Seq::empty()
    }) + match config_path {
        Some(c) => seq![("Config"@, c)],
        None => Seq::empty(),
    }
}

fn summary_row(label: &str, value: String) -> (r: crate::translate::SummaryRow)
    ensures
        crate::translate::row_view(r) == (label@, value@),
{
    crate::translate::SummaryRow { label: String::from_str(label), value }
}

pub fn translate_metadata_rows(
    opts: &ResolvedOptions,
    source_path: &String,
    target_path: &String,
    output_path: &String,
    config_path: &Option<String>,
) -> (r: Vec<crate::translate::SummaryRow>)
    ensures
        r@.map_values(|x: crate::translate::SummaryRow| crate::translate::row_view(x)) == metadata_rows(
            opts@,
            source_path@,
            target_path@,
            output_path@,
            opt_seq(*config_path),
        ),
{
    let mut rows: Vec<crate::translate::SummaryRow> = Vec::new();
    rows.push(summary_row("Provider", translate_engine_label(opts)));
    rows.push(summary_row("Source", source_path.clone()));
    rows.push(summary_row("Target", target_path.clone()));
    rows.push(summary_row("Output", output_path.clone()));
    rows.push(summary_row("Concurrency", crate::text::usize_to_string(opts.concurrency)));
    if opts.dry_run {
        rows.push(summary_row("Mode", String::from_str("dry-run")));
    }
    match config_path {
        Some(c) => rows.push(summary_row("Config", c.clone())),
        None => {},
    }
    assert(rows@.map_values(|x: crate::translate::SummaryRow| crate::translate::row_view(x)) =~= metadata_rows(
        opts@,
        source_path@,
        target_path@,
        output_path@,
        opt_seq(*config_path),
    ));
    rows
}

/// The lines a plain run prints before it starts.
pub open spec fn preamble_lines(
    source_language: Seq<char>,
    opts: ResolvedView,
    source_path: Seq<char>,
    target_path: Seq<char>,
    config_path: Option<Seq<char>>,
) -> Seq<Seq<char>> {
    seq![
        "Translating "@ + source_language + " -> "@ + crate::text::join(opts.target_langs, ", "@) + " using "@
            + engine_label(opts.use_tolgee, opts.provider, opts.model),
        "Source: "@ + source_path,
        "Target: "@ + target_path,
    ] + match config_path {
        Some(c) => seq!["Config: "@ + c],
        None => Seq::empty(),
    } + (if opts.dry_run {
        seq!["Mode: dry-run"@]
    } else {
        Seq::empty()
    })
}

pub fn preamble(
    source_language: &str,
    opts: &ResolvedOptions,
    source_path: &str,
    target_path: &str,
    config_path: &Option<String>,
) -> (r: Vec<String>)
    ensures
        strings_view(r@) == preamble_lines(
            source_language@,
            opts@,
            source_path@,
            target_path@,
            opt_seq(*config_path),
        ),
{
    let mut lines: Vec<String> = Vec::new();
    let mut first = String::from_str("Translating ");
    first.append(source_language);
    first.append(" -> ");
    let langs = crate::text::join_strings(&opts.target_langs, ", ");
    first.append(langs.as_str());
    first.append(" using ");
    let label = translate_engine_label(opts);
    first.append(label.as_str());
    lines.push(first);
    lines.push(crate::text::cat("Source: ", source_path));
    lines.push(crate::text::cat("Target: ", target_path));
    match config_path {
        Some(c) => lines.push(crate::text::cat("Config: ", c.as_str())),
        None => {},
    }
    if opts.dry_run {
        lines.push(String::from_str("Mode: dry-run"));
    }
    assert(strings_view(lines@) =~= preamble_lines(
        source_language@,
        opts@,
        source_path@,
        target_path@,
        opt_seq(*config_path),
    ));
    lines
}

/// What the preflight serializes into the output: one resource (by its
/// position) for a single-language format, all of them otherwise.
#[derive(Debug, Clone, Copy, PartialEq, Eq, Structural)]
pub enum SerializationTarget {
    OneResource(usize),
    AllResources,
}

/// How the preflight checks the output before anything is translated: a
/// single-language output needs exactly one target language and a resource
/// of its identity; `.stringsdict` and XLIFF outputs are refused. Each
/// refusal names the output path.
pub open spec fn serialization_plan(
    rs: Seq<ResourceView>,
    format: FormatView,
    output_path: Seq<char>,
    target_lang: Option<Seq<char>>,
) -> Result<SerializationTarget, Seq<char>> {
    let suffix = " ("@ + output_path + ")"@;
    match format {
        FormatView::Strings(_) | FormatView::AndroidStrings(_) => match target_lang {
            None => Err("Single-language outputs require exactly one target language"@ + suffix),
            Some(l) => match crate::languages::identity_match(crate::model::languages_of(rs), l) {
                Some(i) => Ok(SerializationTarget::OneResource(i as usize)),
                None => Err("Target language '"@ + l + "' not found in output"@ + suffix),
            },
        },
        FormatView::Stringsdict(_) => Err(
            ".stringsdict is not supported by `translate` until plural-aware translation is implemented."@
                + suffix,
        ),
        FormatView::Xliff(_) => Err(
            "XLIFF output is not supported by `translate` in v1. Translate into .xcstrings, .strings, or strings.xml first."@
                + suffix,
        ),
        _ => Ok(SerializationTarget::AllResources),
    }
}

pub fn plan_output_serialization(
    codec: &crate::model::Codec,
    format: &FormatType,
    output_path: &str,
    target_lang: Option<&str>,
) -> (r: Result<SerializationTarget, String>)
    ensures
        match serialization_plan(codec@, format@, output_path@, crate::config::opt_str(target_lang)) {
            Ok(t) => r == Ok::<SerializationTarget, String>(t),
            Err(e) => r matches Err(m) && m@ == e,
        },
{
    let mut suffix = String::from_str(" (");
    suffix.append(output_path);
    suffix.append(")");
    match format {
        FormatType::Strings(_) | FormatType::AndroidStrings(_) => match target_lang {
            None => {
                let mut m = String::from_str("Single-language outputs require exactly one target language");
                m.append(suffix.as_str());
                Err(m)
            },
            Some(l) => {
                match crate::languages::resource_identity_position(codec, l) {
                    Some(i) => Ok(SerializationTarget::OneResource(i)),
                    None => {
                        let mut m = String::from_str("Target language '");
                        m.append(l);
                        m.append("' not found in output");
                        m.append(suffix.as_str());
                        Err(m)
                    },
                }
            },
        },
        FormatType::Stringsdict(_) => {
            let mut m = String::from_str(
                ".stringsdict is not supported by `translate` until plural-aware translation is implemented.",
            );
            m.append(suffix.as_str());
            Err(m)
        },
        FormatType::Xliff(_) => {
            let mut m = String::from_str(
                "XLIFF output is not supported by `translate` in v1. Translate into .xcstrings, .strings, or strings.xml first.",
            );
            m.append(suffix.as_str());
            Err(m)
        },
        _ => Ok(SerializationTarget::AllResources),
    }
}

/// The preflight's refusal, given what serializing the output reported.
pub fn preflight_failure(error: &str) -> (r: String)
    ensures
        r@ == "Preflight output validation failed: "@ + error@,
{
    crate::text::cat("Preflight output validation failed: ", error)
}

} // verus!
