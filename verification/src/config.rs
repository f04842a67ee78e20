//! Settings: built-in defaults, then the base and the local configuration file, then the
//! command line, each overriding what it sets.
use vstd::prelude::*;

use crate::cli::CliArgs;
use crate::models::UploadMode;
use crate::paths::{join, join_of, parent, parent_of};
use crate::text::{is_blank, push_str, trim};
use vstd::string::StringExecFns;
use sha2::Digest;

verus! {

pub struct PathSettings {
    pub input_dir: String,
    pub output_dir: String,
    pub working_dir: String,
}

pub struct VideoSettings {
    pub segment_seconds: u64,
    pub max_resolution_width: u32,
    pub max_resolution_height: u32,
    pub preferred_upload_mode: UploadMode,
}

pub struct KimiSettings {
    pub model: String,
    pub base_url: String,
    pub max_retries: u32,
    pub retry_backoff_seconds: u64,
}

pub struct RuntimeSettings {
    pub preprocess_concurrency: usize,
    pub request_concurrency: usize,
    pub log_filter: String,
}

pub struct AppSettings {
    pub paths: PathSettings,
    pub video: VideoSettings,
    pub kimi: KimiSettings,
    pub runtime: RuntimeSettings,
}

/// Settings after every source has been applied, and the run mode.
pub struct ResolvedConfig {
    pub settings: AppSettings,
    pub only_index: bool,
    pub force: bool,
}

pub struct PathSettingsPatch {
    pub input_dir: Option<String>,
    pub output_dir: Option<String>,
    pub working_dir: Option<String>,
}

pub struct VideoSettingsPatch {
    pub segment_seconds: Option<u64>,
    pub max_resolution_width: Option<u32>,
    pub max_resolution_height: Option<u32>,
    pub preferred_upload_mode: Option<UploadMode>,
}

pub struct KimiSettingsPatch {
    pub model: Option<String>,
    pub base_url: Option<String>,
    pub max_retries: Option<u32>,
    pub retry_backoff_seconds: Option<u64>,
}

pub struct RuntimeSettingsPatch {
    pub preprocess_concurrency: Option<usize>,
    pub request_concurrency: Option<usize>,
    pub log_filter: Option<String>,
}

/// What one configuration file sets; a table or key it leaves out is `None`.
pub struct ConfigPatch {
    pub paths: PathSettingsPatch,
    pub video: VideoSettingsPatch,
    pub kimi: KimiSettingsPatch,
    pub runtime: RuntimeSettingsPatch,
}

/// A configuration file as it was found.
pub enum ConfigSource {
    /// No file at the path.
    Missing { path: String },
    /// The file exists but could not be read.
    Unreadable { path: String, reason: String },
    /// The file was read but is not valid TOML for the settings.
    Malformed { path: String, reason: String },
    /// The file's settings.
    Loaded(ConfigPatch),
}

/// Why settings could not be resolved.
pub enum ConfigError {
    NotFound { path: String },
    Unreadable { path: String, reason: String },
    Malformed { path: String, reason: String },
    ZeroSegmentSeconds,
    ZeroConcurrency,
    EmptyModel,
}

/// The value of an option that is set, or the current value.
pub open spec fn pick<T>(o: Option<T>, current: T) -> T {
    match o {
        Some(v) => v,
        None => current,
    }
}

/// A file's settings, or nothing when the file was not applied.
pub open spec fn layer(src: Option<ConfigSource>) -> ConfigPatch {
    match src {
        Some(ConfigSource::Loaded(p)) => p,
        _ => empty_patch(),
    }
}

/// A patch that sets nothing.
pub open spec fn empty_patch() -> ConfigPatch {
    ConfigPatch {
        paths: PathSettingsPatch { input_dir: None, output_dir: None, working_dir: None },
        video: VideoSettingsPatch {
            segment_seconds: None,
            max_resolution_width: None,
            max_resolution_height: None,
            preferred_upload_mode: None,
        },
        kimi: KimiSettingsPatch {
            model: None,
            base_url: None,
            max_retries: None,
            retry_backoff_seconds: None,
        },
        runtime: RuntimeSettingsPatch {
            preprocess_concurrency: None,
            request_concurrency: None,
            log_filter: None,
        },
    }
}

/// The text set by the first source that sets it: command line, local file, base file, or
/// else the built-in text.
pub open spec fn stack_text(
    cli: Option<String>,
    local: Option<String>,
    base: Option<String>,
    default: Seq<char>,
) -> Seq<char> {
    match cli {
        Some(v) => v@,
        None => match local {
            Some(v) => v@,
            None => match base {
                Some(v) => v@,
                None => default,
            },
        },
    }
}

/// The value set by the first source that sets it.
pub open spec fn stack<T>(cli: Option<T>, local: Option<T>, base: Option<T>, default: T) -> T {
    pick(cli, pick(local, pick(base, default)))
}

/// `s` holds, field by field, the built-in settings with the base file's settings over
/// them, the local file's over those, and the command line's over all.
pub open spec fn settings_from(s: AppSettings, b: ConfigPatch, l: ConfigPatch, args: CliArgs) -> bool {
    &&& s.paths.input_dir@ == stack_text(
        args.input_dir,
        l.paths.input_dir,
        b.paths.input_dir,
        "./Video"@,
    )
    &&& s.paths.output_dir@ == stack_text(
        args.output_dir,
        l.paths.output_dir,
        b.paths.output_dir,
        "./Document"@,
    )
    &&& s.paths.working_dir@ == stack_text(
        args.working_dir,
        l.paths.working_dir,
        b.paths.working_dir,
        "./Working"@,
    )
    &&& s.video.segment_seconds == stack(
        args.segment_seconds,
        l.video.segment_seconds,
        b.video.segment_seconds,
        600u64,
    )
    &&& s.video.max_resolution_width == stack(
        None,
        l.video.max_resolution_width,
        b.video.max_resolution_width,
        2048u32,
    )
    &&& s.video.max_resolution_height == stack(
        None,
        l.video.max_resolution_height,
        b.video.max_resolution_height,
        1080u32,
    )
    &&& s.video.preferred_upload_mode == stack(
        args.upload_mode,
        l.video.preferred_upload_mode,
        b.video.preferred_upload_mode,
        UploadMode::Auto,
    )
    &&& s.kimi.model@ == stack_text(None, l.kimi.model, b.kimi.model, "kimi-k2.6"@)
    &&& s.kimi.base_url@ == stack_text(
        None,
        l.kimi.base_url,
        b.kimi.base_url,
        "https://api.moonshot.cn/v1"@,
    )
    &&& s.kimi.max_retries == stack(args.retry_count, l.kimi.max_retries, b.kimi.max_retries, 3u32)
    &&& s.kimi.retry_backoff_seconds == stack(
        None,
        l.kimi.retry_backoff_seconds,
        b.kimi.retry_backoff_seconds,
        5u64,
    )
    &&& s.runtime.preprocess_concurrency == stack(
        None,
        l.runtime.preprocess_concurrency,
        b.runtime.preprocess_concurrency,
        2usize,
    )
    &&& s.runtime.request_concurrency == stack(
        None,
        l.runtime.request_concurrency,
        b.runtime.request_concurrency,
        2usize,
    )
    &&& s.runtime.log_filter@ == stack_text(
        None,
        l.runtime.log_filter,
        b.runtime.log_filter,
        "info"@,
    )
}

/// Law: an option given on the command line decides its setting whatever the files say;
/// where the command line is silent, the local file decides over the base file, and where
/// both files are silent too, the built-in value stands.
pub proof fn command_line_overrides_files(s: AppSettings, b: ConfigPatch, l: ConfigPatch, args: CliArgs)
    requires
        settings_from(s, b, l, args),
    ensures
        args.input_dir matches Some(v) ==> s.paths.input_dir@ == v@,
        args.output_dir matches Some(v) ==> s.paths.output_dir@ == v@,
        args.working_dir matches Some(v) ==> s.paths.working_dir@ == v@,
        args.segment_seconds matches Some(v) ==> s.video.segment_seconds == v,
        args.retry_count matches Some(v) ==> s.kimi.max_retries == v,
        args.upload_mode matches Some(v) ==> s.video.preferred_upload_mode == v,
        args.output_dir is None ==> (l.paths.output_dir matches Some(v) ==> s.paths.output_dir@
            == v@),
        args.output_dir is None && l.paths.output_dir is None ==> (b.paths.output_dir matches Some(
            v,
        ) ==> s.paths.output_dir@ == v@),
        args.segment_seconds is None ==> (l.video.segment_seconds matches Some(v)
            ==> s.video.segment_seconds == v),
        args.segment_seconds is None && l.video.segment_seconds is None
            && b.video.segment_seconds is None ==> s.video.segment_seconds == 600,
        l.kimi.model matches Some(v) ==> s.kimi.model@ == v@,
{
}

/// The first rule the settings break, if any.
pub open spec fn validation_failure(segment_seconds: u64, preprocess: usize, request: usize, model: Seq<char>) -> Option<ConfigError> {
    if segment_seconds == 0 {
        Some(ConfigError::ZeroSegmentSeconds)
    } else if preprocess == 0 || request == 0 {
        Some(ConfigError::ZeroConcurrency)
    } else if trim(model).len() == 0 {
        Some(ConfigError::EmptyModel)
    } else {
        None
    }
}

/// The error a configuration file gives, if any: one that cannot be read or parsed, or a
/// missing base file that was named explicitly.
pub open spec fn source_failure(src: Option<ConfigSource>, is_base: bool, explicit: bool) -> Option<ConfigError> {
    match src {
        Some(ConfigSource::Missing { path }) => if is_base && explicit {
            Some(ConfigError::NotFound { path })
        } else {
            None
        },
        Some(ConfigSource::Unreadable { path, reason }) => Some(
            ConfigError::Unreadable { path, reason },
        ),
        Some(ConfigSource::Malformed { path, reason }) => Some(
            ConfigError::Malformed { path, reason },
        ),
        _ => None,
    }
}

impl AppSettings {
    /// The built-in settings.
    pub open spec fn is_default(self) -> bool {
        settings_from(
            self,
            empty_patch(),
            empty_patch(),
            CliArgs {
                config: None,
                input_dir: None,
                output_dir: None,
                working_dir: None,
                segment_seconds: None,
                retry_count: None,
                upload_mode: None,
                only_index: false,
                force: false,
            },
        )
    }

    /// The built-in settings: `./Video`, `./Document`, `./Working`, segments of 600 s,
    /// at most 2048x1080, upload mode `Auto`, model `kimi-k2.6` at the Moonshot endpoint,
    /// 3 retries 5 s apart, 2 concurrent preprocessing and requests, log filter `info`.
    pub fn default_settings() -> (s: AppSettings)
        ensures
            s.is_default(),
    {
        AppSettings {
            paths: PathSettings {
                input_dir: String::from_str("./Video"),
                output_dir: String::from_str("./Document"),
                working_dir: String::from_str("./Working"),
            },
            video: VideoSettings {
                segment_seconds: 600,
                max_resolution_width: 2048,
                max_resolution_height: 1080,
                preferred_upload_mode: UploadMode::Auto,
            },
            kimi: KimiSettings {
                model: String::from_str("kimi-k2.6"),
                base_url: String::from_str("https://api.moonshot.cn/v1"),
                max_retries: 3,
                retry_backoff_seconds: 5,
            },
            runtime: RuntimeSettings {
                preprocess_concurrency: 2,
                request_concurrency: 2,
                log_filter: String::from_str("info"),
            },
        }
    }
}

} // verus!

verus! {

impl Default for AppSettings {
    fn default() -> (s: Self)
        ensures
            s.is_default(),
    {
        AppSettings::default_settings()
    }
}

/// `new` is `old` with every value the patch sets replaced.
pub open spec fn patched(new: AppSettings, old: AppSettings, p: ConfigPatch) -> bool {
    &&& new.paths.input_dir == pick(p.paths.input_dir, old.paths.input_dir)
    &&& new.paths.output_dir == pick(p.paths.output_dir, old.paths.output_dir)
    &&& new.paths.working_dir == pick(p.paths.working_dir, old.paths.working_dir)
    &&& new.video.segment_seconds == pick(p.video.segment_seconds, old.video.segment_seconds)
    &&& new.video.max_resolution_width == pick(
        p.video.max_resolution_width,
        old.video.max_resolution_width,
    )
    &&& new.video.max_resolution_height == pick(
        p.video.max_resolution_height,
        old.video.max_resolution_height,
    )
    &&& new.video.preferred_upload_mode == pick(
        p.video.preferred_upload_mode,
        old.video.preferred_upload_mode,
    )
    &&& new.kimi.model == pick(p.kimi.model, old.kimi.model)
    &&& new.kimi.base_url == pick(p.kimi.base_url, old.kimi.base_url)
    &&& new.kimi.max_retries == pick(p.kimi.max_retries, old.kimi.max_retries)
    &&& new.kimi.retry_backoff_seconds == pick(
        p.kimi.retry_backoff_seconds,
        old.kimi.retry_backoff_seconds,
    )
    &&& new.runtime.preprocess_concurrency == pick(
        p.runtime.preprocess_concurrency,
        old.runtime.preprocess_concurrency,
    )
    &&& new.runtime.request_concurrency == pick(
        p.runtime.request_concurrency,
        old.runtime.request_concurrency,
    )
    &&& new.runtime.log_filter == pick(p.runtime.log_filter, old.runtime.log_filter)
}

/// `new` is `old` with the values the command line gives replaced.
pub open spec fn overridden(new: AppSettings, old: AppSettings, args: CliArgs) -> bool {
    &&& new.paths.input_dir@ == (match args.input_dir {
        Some(v) => v@,
        None => old.paths.input_dir@,
    })
    &&& new.paths.output_dir@ == (match args.output_dir {
        Some(v) => v@,
        None => old.paths.output_dir@,
    })
    &&& new.paths.working_dir@ == (match args.working_dir {
        Some(v) => v@,
        None => old.paths.working_dir@,
    })
    &&& new.video.segment_seconds == pick(args.segment_seconds, old.video.segment_seconds)
    &&& new.kimi.max_retries == pick(args.retry_count, old.kimi.max_retries)
    &&& new.video.preferred_upload_mode == pick(
        args.upload_mode,
        old.video.preferred_upload_mode,
    )
    &&& new.video.max_resolution_width == old.video.max_resolution_width
    &&& new.video.max_resolution_height == old.video.max_resolution_height
    &&& new.kimi.model == old.kimi.model
    &&& new.kimi.base_url == old.kimi.base_url
    &&& new.kimi.retry_backoff_seconds == old.kimi.retry_backoff_seconds
    &&& new.runtime.preprocess_concurrency == old.runtime.preprocess_concurrency
    &&& new.runtime.request_concurrency == old.runtime.request_concurrency
    &&& new.runtime.log_filter == old.runtime.log_filter
}

impl AppSettings {
    /// Replaces every value the patch sets.
    pub fn apply_patch(&mut self, patch: ConfigPatch)
        ensures
            patched(*final(self), *old(self), patch),
    {
        let ConfigPatch { paths, video, kimi, runtime } = patch;
        patch_paths(&mut self.paths, paths);
        patch_video(&mut self.video, video);
        patch_kimi(&mut self.kimi, kimi);
        patch_runtime(&mut self.runtime, runtime);
    }

    /// The settings' own checks: segments of at least one second, at least one concurrent
    /// task of each kind, and a model name that is not blank.
    pub fn validate(&self) -> (r: Result<(), ConfigError>)
        ensures
            match validation_failure(
                self.video.segment_seconds,
                self.runtime.preprocess_concurrency,
                self.runtime.request_concurrency,
                self.kimi.model@,
            ) {
                Some(e) => r == Err::<(), ConfigError>(e),
                None => r is Ok,
            },
    {
        if self.video.segment_seconds == 0 {
            return Err(ConfigError::ZeroSegmentSeconds);
        }
        if self.runtime.preprocess_concurrency == 0 || self.runtime.request_concurrency == 0 {
            return Err(ConfigError::ZeroConcurrency);
        }
        if is_blank(self.kimi.model.as_str()) {
            return Err(ConfigError::EmptyModel);
        }
        Ok(())
    }
}

/// Replaces the settings the command line gives.
pub fn apply_cli_overrides(settings: &mut AppSettings, args: &CliArgs)
    ensures
        overridden(*final(settings), *old(settings), *args),
{
    if let Some(value) = &args.input_dir {
        settings.paths.input_dir = value.clone();
    }
    if let Some(value) = &args.output_dir {
        settings.paths.output_dir = value.clone();
    }
    if let Some(value) = &args.working_dir {
        settings.paths.working_dir = value.clone();
    }
    if let Some(value) = args.segment_seconds {
        settings.video.segment_seconds = value;
    }
    if let Some(value) = args.retry_count {
        settings.kimi.max_retries = value;
    }
    if let Some(value) = args.upload_mode {
        settings.video.preferred_upload_mode = value;
    }
}

} // verus!

verus! {

fn patch_paths(s: &mut PathSettings, p: PathSettingsPatch)
    ensures
        final(s).input_dir == pick(p.input_dir, old(s).input_dir),
        final(s).output_dir == pick(p.output_dir, old(s).output_dir),
        final(s).working_dir == pick(p.working_dir, old(s).working_dir),
{
    if let Some(value) = p.input_dir {
        s.input_dir = value;
    }
    if let Some(value) = p.output_dir {
        s.output_dir = value;
    }
    if let Some(value) = p.working_dir {
        s.working_dir = value;
    }
}

fn patch_video(s: &mut VideoSettings, p: VideoSettingsPatch)
    ensures
        final(s).segment_seconds == pick(p.segment_seconds, old(s).segment_seconds),
        final(s).max_resolution_width == pick(p.max_resolution_width, old(s).max_resolution_width),
        final(s).max_resolution_height == pick(
            p.max_resolution_height,
            old(s).max_resolution_height,
        ),
        final(s).preferred_upload_mode == pick(
            p.preferred_upload_mode,
            old(s).preferred_upload_mode,
        ),
{
    if let Some(value) = p.segment_seconds {
        s.segment_seconds = value;
    }
    if let Some(value) = p.max_resolution_width {
        s.max_resolution_width = value;
    }
    if let Some(value) = p.max_resolution_height {
        s.max_resolution_height = value;
    }
    if let Some(value) = p.preferred_upload_mode {
        s.preferred_upload_mode = value;
    }
}

fn patch_kimi(s: &mut KimiSettings, p: KimiSettingsPatch)
    ensures
        final(s).model == pick(p.model, old(s).model),
        final(s).base_url == pick(p.base_url, old(s).base_url),
        final(s).max_retries == pick(p.max_retries, old(s).max_retries),
        final(s).retry_backoff_seconds == pick(p.retry_backoff_seconds, old(s).retry_backoff_seconds),
{
    if let Some(value) = p.model {
        s.model = value;
    }
    if let Some(value) = p.base_url {
        s.base_url = value;
    }
    if let Some(value) = p.max_retries {
        s.max_retries = value;
    }
    if let Some(value) = p.retry_backoff_seconds {
        s.retry_backoff_seconds = value;
    }
}

fn patch_runtime(s: &mut RuntimeSettings, p: RuntimeSettingsPatch)
    ensures
        final(s).preprocess_concurrency == pick(p.preprocess_concurrency, old(s).preprocess_concurrency),
        final(s).request_concurrency == pick(p.request_concurrency, old(s).request_concurrency),
        final(s).log_filter == pick(p.log_filter, old(s).log_filter),
{
    if let Some(value) = p.preprocess_concurrency {
        s.preprocess_concurrency = value;
    }
    if let Some(value) = p.request_concurrency {
        s.request_concurrency = value;
    }
    if let Some(value) = p.log_filter {
        s.log_filter = value;
    }
}

} // verus!

verus! {

/// Why resolving would fail, if it would: the base file's error, then the local file's,
/// then the first rule the resolved settings break.
pub open spec fn resolution_failure(
    base: Option<ConfigSource>,
    local: Option<ConfigSource>,
    args: CliArgs,
    base_is_explicit: bool,
) -> Option<ConfigError> {
    let b = layer(base);
    let l = layer(local);
    match source_failure(base, true, base_is_explicit) {
        Some(e) => Some(e),
        None => match source_failure(local, false, base_is_explicit) {
            Some(e) => Some(e),
            None => validation_failure(
                stack(args.segment_seconds, l.video.segment_seconds, b.video.segment_seconds, 600u64),
                stack(
                    None,
                    l.runtime.preprocess_concurrency,
                    b.runtime.preprocess_concurrency,
                    2usize,
                ),
                stack(None, l.runtime.request_concurrency, b.runtime.request_concurrency, 2usize),
                stack_text(None, l.kimi.model, b.kimi.model, "kimi-k2.6"@),
            ),
        },
    }
}

/// Applies a configuration file: its settings when it was loaded, its error when it could
/// not be read or parsed, or an error for a missing base file named explicitly.
fn apply_source(settings: &mut AppSettings, src: Option<ConfigSource>, is_base: bool, explicit: bool) -> (r: Result<(), ConfigError>)
    ensures
        match source_failure(src, is_base, explicit) {
            Some(e) => r == Err::<(), ConfigError>(e),
            None => r is Ok && patched(*final(settings), *old(settings), layer(src)),
        },
{
    match src {
        None => {
            Ok(())
        },
        Some(source) => match source {
            ConfigSource::Missing { path } => {
                if is_base && explicit {
                    Err(ConfigError::NotFound { path })
                } else {
                    Ok(())
                }
            },
            ConfigSource::Unreadable { path, reason } => Err(ConfigError::Unreadable { path, reason }),
            ConfigSource::Malformed { path, reason } => Err(ConfigError::Malformed { path, reason }),
            ConfigSource::Loaded(patch) => {
                settings.apply_patch(patch);
                Ok(())
            },
        },
    }
}

/// Settings from the built-in defaults, the base file, the local file and the command
/// line, in that order of increasing precedence, checked by `validate`.
pub fn load_settings_from_paths(
    base: Option<ConfigSource>,
    local: Option<ConfigSource>,
    args: &CliArgs,
    base_is_explicit: bool,
) -> (r: Result<ResolvedConfig, ConfigError>)
    ensures
        match resolution_failure(base, local, *args, base_is_explicit) {
            Some(e) => r == Err::<ResolvedConfig, ConfigError>(e),
            None => r matches Ok(rc) && settings_from(rc.settings, layer(base), layer(local), *args)
                && rc.only_index == args.only_index && rc.force == args.force,
        },
{
    let ghost b = layer(base);
    let ghost l = layer(local);
    let mut settings = AppSettings::default_settings();
    let ghost s0 = settings;
    match apply_source(&mut settings, base, true, base_is_explicit) {
        Ok(()) => {},
        Err(e) => {
            return Err(e);
        },
    }
    let ghost s1 = settings;
    match apply_source(&mut settings, local, false, base_is_explicit) {
        Ok(()) => {},
        Err(e) => {
            return Err(e);
        },
    }
    let ghost s2 = settings;
    apply_cli_overrides(&mut settings, args);
    assert(settings_from(settings, b, l, *args));
    match settings.validate() {
        Ok(()) => {},
        Err(e) => {
            return Err(e);
        },
    }
    Ok(ResolvedConfig { settings, only_index: args.only_index, force: args.force })
}

/// The base configuration file (`--config`, else `config.toml`) and the local one beside
/// it (`config.local.toml` in the base file's directory, or in `.` when it has none).
pub open spec fn config_paths_of(config: Option<String>) -> (Seq<char>, Seq<char>) {
    let base = match config {
        Some(c) => c@,
        None => "config.toml"@,
    };
    let dir = match parent_of(base) {
        Some(p) => p,
        None => "."@,
    };
    (base, join_of(dir, "config.local.toml"@))
}

/// The paths of the base and the local configuration file.
pub fn config_paths(args: &CliArgs) -> (r: (String, String))
    ensures
        (r.0@, r.1@) == config_paths_of(args.config),
{
    let base = match &args.config {
        Some(c) => c.clone(),
        None => String::from_str("config.toml"),
    };
    let dir = match parent(base.as_str()) {
        Some(p) => p,
        None => String::from_str("."),
    };
    let local = join(dir.as_str(), "config.local.toml");
    (base, local)
}

/// Settings as the program resolves them: from the base and the local file found at
/// `config_paths(args)`, the base file being required only when `--config` names it.
pub fn load_settings(args: &CliArgs, base: ConfigSource, local: ConfigSource) -> (r: Result<
    ResolvedConfig,
    ConfigError,
>)
    ensures
        match resolution_failure(Some(base), Some(local), *args, args.config is Some) {
            Some(e) => r == Err::<ResolvedConfig, ConfigError>(e),
            None => r matches Ok(rc) && settings_from(
                rc.settings,
                layer(Some(base)),
                layer(Some(local)),
                *args,
            ) && rc.only_index == args.only_index && rc.force == args.force,
        },
{
    let explicit = args.config.is_some();
    load_settings_from_paths(Some(base), Some(local), args, explicit)
}

impl ConfigError {
    /// The error as a sentence.
    pub fn message(&self) -> (s: String)
        ensures
            s@ == match self {
                ConfigError::NotFound { path } => "config file not found: "@ + path@,
                ConfigError::Unreadable { path, reason } => "failed to read config file "@
                    + path@ + ": "@ + reason@,
                ConfigError::Malformed { path, reason } => "failed to parse TOML config "@
                    + path@ + ": "@ + reason@,
                ConfigError::ZeroSegmentSeconds => "segment_seconds must be greater than 0"@,
                ConfigError::ZeroConcurrency => "runtime concurrency must be greater than 0"@,
                ConfigError::EmptyModel => "kimi.model must not be empty"@,
            },
    {
        let mut s = String::new();
        match self {
            ConfigError::NotFound { path } => {
                push_str(&mut s, "config file not found: ");
                push_str(&mut s, path.as_str());
            },
            ConfigError::Unreadable { path, reason } => {
                push_str(&mut s, "failed to read config file ");
                push_str(&mut s, path.as_str());
                push_str(&mut s, ": ");
                push_str(&mut s, reason.as_str());
            },
            ConfigError::Malformed { path, reason } => {
                push_str(&mut s, "failed to parse TOML config ");
                push_str(&mut s, path.as_str());
                push_str(&mut s, ": ");
                push_str(&mut s, reason.as_str());
            },
            ConfigError::ZeroSegmentSeconds => {
                push_str(&mut s, "segment_seconds must be greater than 0");
            },
            ConfigError::ZeroConcurrency => {
                push_str(&mut s, "runtime concurrency must be greater than 0");
            },
            ConfigError::EmptyModel => {
                push_str(&mut s, "kimi.model must not be empty");
            },
        }
        s
    }
}

} // verus!

verus! {

/// The SHA-256 digest of the bytes.
pub uninterp spec fn sha256_of(data: Seq<u8>) -> Seq<u8>;

/// sha2's `Sha256::digest`: the contract names the digest `sha256_of` of the input and
/// states its length, 32 bytes, which the type of the output fixes.
#[verifier::external_body]
fn sha256_digest(data: &[u8]) -> (r: Vec<u8>)
    ensures
        r@ == sha256_of(data@),
        r@.len() == 32,
{
    sha2::Sha256::digest(data).to_vec()
}

/// The lower-case hexadecimal digit of `n`, `0 <= n < 16`.
pub open spec fn hex_digit(n: int) -> char {
    if n < 10 {
        (48 + n) as char
    } else {
        (87 + n) as char
    }
}

/// Two lower-case hexadecimal digits per byte, high half first.
pub open spec fn hex_text(b: Seq<u8>) -> Seq<char>
    decreases b.len(),
{
    if b.len() == 0 {
        Seq::empty()
    } else {
        hex_text(b.drop_last()) + seq![hex_digit(b.last() as int / 16), hex_digit(b.last() as int % 16)]
    }
}

/// A lower-case hexadecimal digit.
pub open spec fn is_lower_hex(c: char) -> bool {
    ('0' <= c && c <= '9') || ('a' <= c && c <= 'f')
}

proof fn lemma_hex_text_digits(b: Seq<u8>)
    ensures
        forall|i: int| 0 <= i < hex_text(b).len() ==> is_lower_hex(#[trigger] hex_text(b)[i]),
    decreases b.len(),
{
    if b.len() > 0 {
        lemma_hex_text_digits(b.drop_last());
        lemma_hex_text_len(b.drop_last());
        let hi = b.last() as int / 16;
        let lo = b.last() as int % 16;
        assert(0 <= hi < 16 && 0 <= lo < 16);
        assert(is_lower_hex(hex_digit(hi)));
        assert(is_lower_hex(hex_digit(lo)));
    }
}

/// hex's `encode`: the contract states that it writes each byte as two lower-case
/// hexadecimal digits, high half first, as the crate's table `0123456789abcdef` does.
#[verifier::external_body]
fn hex_encode(data: &[u8]) -> (s: String)
    ensures
        s@ == hex_text(data@),
{
    hex::encode(data)
}

/// The fingerprint of the processing options: the SHA-256 digest of their serialized form,
/// in lower-case hexadecimal.
pub fn fingerprint_of_payload(payload: &[u8]) -> (s: String)
    ensures
        s@ == hex_text(sha256_of(payload@)),
        s@.len() == 64,
        forall|i: int| 0 <= i < s@.len() ==> is_lower_hex(#[trigger] s@[i]),
{
    let digest = sha256_digest(payload);
    digest_fingerprint(&digest)
}

/// The fingerprint written from a digest: each byte as two lower-case hexadecimal digits,
/// so twice as many characters as bytes.
pub fn digest_fingerprint(digest: &Vec<u8>) -> (s: String)
    ensures
        s@ == hex_text(digest@),
        s@.len() == 2 * digest@.len(),
        forall|i: int| 0 <= i < s@.len() ==> is_lower_hex(#[trigger] s@[i]),
{
    proof {
        lemma_hex_text_len(digest@);
        lemma_hex_text_digits(digest@);
    }
    hex_encode(digest.as_slice())
}

proof fn lemma_hex_text_len(b: Seq<u8>)
    ensures
        hex_text(b).len() == 2 * b.len(),
    decreases b.len(),
{
    if b.len() > 0 {
        lemma_hex_text_len(b.drop_last());
    }
}

} // verus!
