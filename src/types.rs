//! The data model: levels, log entries and the configuration records.
use vstd::prelude::*;
use crate::json::JsonValue;

verus! {

/// Severity of a log entry, from the lowest (`Trace`) to the highest (`Fatal`).
#[derive(Clone, Copy, Debug, PartialEq, Eq, Structural, PartialOrd, Ord)]
pub enum LogLevel {
    Trace,
    Debug,
    Info,
    Warn,
    Error,
    Fatal,
}

/// Where rendered lines go.
#[derive(Clone, Copy, Debug, PartialEq, Eq, Structural)]
pub enum OutputTarget {
    Stdout,
    Stderr,
    File,
    Null,
}

/// How an entry is rendered.
#[derive(Clone, Copy, Debug, PartialEq, Eq, Structural, PartialOrd, Ord)]
pub enum OutputFormat {
    Text,
    Json,
}

/// The name of a level, as it appears in rendered output.
pub open spec fn level_name(l: LogLevel) -> Seq<char> {
    match l {
        LogLevel::Trace => seq!['T', 'r', 'a', 'c', 'e'],
        LogLevel::Debug => seq!['D', 'e', 'b', 'u', 'g'],
        LogLevel::Info => seq!['I', 'n', 'f', 'o'],
        LogLevel::Warn => seq!['W', 'a', 'r', 'n'],
        LogLevel::Error => seq!['E', 'r', 'r', 'o', 'r'],
        LogLevel::Fatal => seq!['F', 'a', 't', 'a', 'l'],
    }
}

impl LogLevel {
    /// The name of this level.
    pub fn name(&self) -> (r: &'static str)
        ensures
            r@ == level_name(*self),
    {
        match self {
            LogLevel::Trace => {
                proof { reveal_strlit("Trace"); }
                "Trace"
            },
            LogLevel::Debug => {
                proof { reveal_strlit("Debug"); }
                "Debug"
            },
            LogLevel::Info => {
                proof { reveal_strlit("Info"); }
                "Info"
            },
            LogLevel::Warn => {
                proof { reveal_strlit("Warn"); }
                "Warn"
            },
            LogLevel::Error => {
                proof { reveal_strlit("Error"); }
                "Error"
            },
            LogLevel::Fatal => {
                proof { reveal_strlit("Fatal"); }
                "Fatal"
            },
        }
    }
}

/// One log event: its level, time in epoch milliseconds, process id and message.
#[derive(Debug)]
pub struct LogEntry {
    pub level: LogLevel,
    pub msg: JsonValue,
    pub time: i64,
    pub pid: u32,
}

/// Which attributes of an entry are rendered; an absent flag takes its default.
#[derive(Clone, Copy, Debug, PartialEq, Eq, Structural)]
pub struct FieldsConfig {
    pub pid: Option<bool>,
    pub time: Option<bool>,
    pub msg: Option<bool>,
    pub level: Option<bool>,
}

/// The field selection used when none is configured: level, time and message
/// shown, process id hidden.
pub open spec fn default_fields() -> FieldsConfig {
    FieldsConfig { pid: Some(false), time: Some(true), msg: Some(true), level: Some(true) }
}

impl Default for FieldsConfig {
    fn default() -> (r: FieldsConfig)
        ensures
            r == default_fields(),
    {
        FieldsConfig { pid: Some(false), time: Some(true), msg: Some(true), level: Some(true) }
    }
}

/// A flag's value, or `d` when it is absent.
pub open spec fn flag_or(f: Option<bool>, d: bool) -> bool {
    match f {
        Some(b) => b,
        None => d,
    }
}

// The effective selection: a configured flag wins, an absent one takes the
// default of `default_fields`.

/// The level is shown (by default it is).
pub open spec fn shows_level(f: FieldsConfig) -> bool {
    flag_or(f.level, true)
}

/// The process id is shown (by default it is not).
pub open spec fn shows_pid(f: FieldsConfig) -> bool {
    flag_or(f.pid, false)
}

/// The time is shown (by default it is).
pub open spec fn shows_time(f: FieldsConfig) -> bool {
    flag_or(f.time, true)
}

/// The message is shown (by default it is).
pub open spec fn shows_msg(f: FieldsConfig) -> bool {
    flag_or(f.msg, true)
}

impl FieldsConfig {
    pub fn show_level(&self) -> (r: bool)
        ensures
            r == shows_level(*self),
    {
        self.level.unwrap_or(true)
    }

    pub fn show_pid(&self) -> (r: bool)
        ensures
            r == shows_pid(*self),
    {
        self.pid.unwrap_or(false)
    }

    pub fn show_time(&self) -> (r: bool)
        ensures
            r == shows_time(*self),
    {
        self.time.unwrap_or(true)
    }

    pub fn show_msg(&self) -> (r: bool)
        ensures
            r == shows_msg(*self),
    {
        self.msg.unwrap_or(true)
    }
}

/// Masking settings as supplied by the caller.
#[derive(Debug)]
pub struct MaskingConfig {
    pub exact: Option<Vec<String>>,
    pub partial: Option<Vec<String>>,
    pub regex: Option<Vec<String>>,
    pub keyword: Option<String>,
}

/// Output settings: format, target and the file and batching options.
#[derive(Debug)]
pub struct OutputConfig {
    pub color: bool,
    pub format: OutputFormat,
    pub target: OutputTarget,
    pub file_path: Option<String>,
    pub max_file_size: Option<i64>,
    pub max_backups: Option<u8>,
    pub rotate_daily: Option<bool>,
    pub batch_enabled: Option<bool>,
    pub batch_interval_ms: Option<i64>,
    pub batch_size: Option<i64>,
    pub masking: Option<MaskingConfig>,
}

/// The configuration of one environment.
#[derive(Debug)]
pub struct EnvConfig {
    pub transport: Option<String>,
    pub output: OutputConfig,
    pub fields: Option<FieldsConfig>,
}

/// A development and a production configuration, either of which may be absent.
#[derive(Debug)]
pub struct LoggerConfig {
    pub dev: Option<EnvConfig>,
    pub prod: Option<EnvConfig>,
}

/// The view of an optional string.
pub open spec fn opt_text(o: Option<String>) -> Option<Seq<char>> {
    match o {
        Some(s) => Some(s@),
        None => None,
    }
}

/// The view of an optional list of strings.
pub open spec fn opt_texts(o: Option<Vec<String>>) -> Option<Seq<Seq<char>>> {
    match o {
        Some(v) => Some(v.deep_view()),
        None => None,
    }
}

/// The model of [`MaskingConfig`].
pub struct MaskingSpec {
    pub exact: Option<Seq<Seq<char>>>,
    pub partial: Option<Seq<Seq<char>>>,
    pub regex: Option<Seq<Seq<char>>>,
    pub keyword: Option<Seq<char>>,
}

impl View for MaskingConfig {
    type V = MaskingSpec;

    open spec fn view(&self) -> MaskingSpec {
        MaskingSpec {
            exact: opt_texts(self.exact),
            partial: opt_texts(self.partial),
            regex: opt_texts(self.regex),
            keyword: opt_text(self.keyword),
        }
    }
}

/// The model of [`OutputConfig`].
pub struct OutputSpec {
    pub color: bool,
    pub format: OutputFormat,
    pub target: OutputTarget,
    pub file_path: Option<Seq<char>>,
    pub max_file_size: Option<i64>,
    pub max_backups: Option<u8>,
    pub rotate_daily: Option<bool>,
    pub batch_enabled: Option<bool>,
    pub batch_interval_ms: Option<i64>,
    pub batch_size: Option<i64>,
    pub masking: Option<MaskingSpec>,
}

impl View for OutputConfig {
    type V = OutputSpec;

    open spec fn view(&self) -> OutputSpec {
        OutputSpec {
            color: self.color,
            format: self.format,
            target: self.target,
            file_path: opt_text(self.file_path),
            max_file_size: self.max_file_size,
            max_backups: self.max_backups,
            rotate_daily: self.rotate_daily,
            batch_enabled: self.batch_enabled,
            batch_interval_ms: self.batch_interval_ms,
            batch_size: self.batch_size,
            masking: match self.masking {
                Some(m) => Some(m@),
                None => None,
            },
        }
    }
}

/// The model of [`EnvConfig`].
pub struct EnvSpec {
    pub transport: Option<Seq<char>>,
    pub output: OutputSpec,
    pub fields: Option<FieldsConfig>,
}

impl View for EnvConfig {
    type V = EnvSpec;

    open spec fn view(&self) -> EnvSpec {
        EnvSpec { transport: opt_text(self.transport), output: self.output@, fields: self.fields }
    }
}

/// A copy of an optional string.
pub fn copy_opt_string(o: &Option<String>) -> (r: Option<String>)
    ensures
        opt_text(r) == opt_text(*o),
{
    match o {
        Some(s) => Some(s.clone()),
        None => None,
    }
}

/// A copy of a list of strings.
pub fn copy_strings(v: &Vec<String>) -> (r: Vec<String>)
    ensures
        r.deep_view() == v.deep_view(),
{
    let mut r: Vec<String> = Vec::new();
    let mut i: usize = 0;
    while i < v.len()
        invariant
            i <= v@.len(),
            r@.len() == i,
            forall|k: int| 0 <= k < i ==> #[trigger] r@[k]@ == v@[k]@,
        decreases v@.len() - i,
    {
        r.push(v[i].clone());
        i = i + 1;
    }
    assert(r.deep_view() =~= v.deep_view());
    r
}

fn copy_opt_strings(o: &Option<Vec<String>>) -> (r: Option<Vec<String>>)
    ensures
        opt_texts(r) == opt_texts(*o),
{
    match o {
        Some(v) => Some(copy_strings(v)),
        None => None,
    }
}

impl MaskingConfig {
    /// A copy of these settings.
    pub fn duplicate(&self) -> (r: MaskingConfig)
        ensures
            r@ == self@,
    {
        MaskingConfig {
            exact: copy_opt_strings(&self.exact),
            partial: copy_opt_strings(&self.partial),
            regex: copy_opt_strings(&self.regex),
            keyword: copy_opt_string(&self.keyword),
        }
    }
}

impl OutputConfig {
    /// A copy of these settings.
    pub fn duplicate(&self) -> (r: OutputConfig)
        ensures
            r@ == self@,
    {
        OutputConfig {
            color: self.color,
            format: self.format,
            target: self.target,
            file_path: copy_opt_string(&self.file_path),
            max_file_size: self.max_file_size,
            max_backups: self.max_backups,
            rotate_daily: self.rotate_daily,
            batch_enabled: self.batch_enabled,
            batch_interval_ms: self.batch_interval_ms,
            batch_size: self.batch_size,
            masking: match &self.masking {
                Some(m) => Some(m.duplicate()),
                None => None,
            },
        }
    }
}

impl EnvConfig {
    /// A copy of this configuration.
    pub fn duplicate(&self) -> (r: EnvConfig)
        ensures
            r@ == self@,
    {
        EnvConfig {
            transport: copy_opt_string(&self.transport),
            output: self.output.duplicate(),
            fields: self.fields,
        }
    }
}

} // verus!
