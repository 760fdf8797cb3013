//! The configuration store and the dispatch facade, as an explicit state value.
use vstd::prelude::*;
use crate::format::{
    effective_fields, format_log_json, format_log_text, json_record, masked_message,
    color_spec, rules_view, styled, text_line,
};
use crate::json::{compact, JsonValue};
use crate::masking::{rules_from, MaskRule};
use crate::text::same_text;
use crate::types::{
    EnvConfig, EnvSpec, FieldsConfig, LogEntry, LogLevel, LoggerConfig,
    OutputFormat, OutputTarget,
};

verus! {

/// Why a configuration is refused.
#[derive(Clone, Copy, Debug, PartialEq, Eq, Structural)]
pub enum ConfigError {
    /// The target is a file but no non-empty file path is given.
    MissingFilePath,
}

/// A configuration is acceptable unless it writes to a file without a
/// non-empty path.
pub open spec fn config_valid(c: EnvSpec) -> bool {
    c.output.target == OutputTarget::File ==> match c.output.file_path {
        Some(p) => p.len() > 0,
        None => false,
    }
}

/// Checks that a file target comes with a non-empty file path.
pub fn validate_config(config: &EnvConfig) -> (r: Result<(), ConfigError>)
    ensures
        r is Ok <==> config_valid(config@),
        r matches Err(e) ==> e == ConfigError::MissingFilePath,
{
    if config.output.target == OutputTarget::File {
        match &config.output.file_path {
            Some(p) => {
                if p.unicode_len() == 0 {
                    return Err(ConfigError::MissingFilePath);
                }
            },
            None => {
                return Err(ConfigError::MissingFilePath);
            },
        }
    }
    Ok(())
}

/// The environment indicator selects production exactly when it reads `production`.
pub open spec fn is_production_spec(env: Option<Seq<char>>) -> bool {
    env == Some(seq!['p', 'r', 'o', 'd', 'u', 'c', 't', 'i', 'o', 'n'])
}

/// Does the environment indicator select the production configuration?
pub fn is_production(env: &Option<String>) -> (r: bool)
    ensures
        r == is_production_spec(crate::types::opt_text(*env)),
{
    proof { reveal_strlit("production"); }
    match env {
        Some(e) => {
            let r = same_text(e.as_str(), "production");
            assert("production"@ =~= seq!['p', 'r', 'o', 'd', 'u', 'c', 't', 'i', 'o', 'n']);
            r
        },
        None => false,
    }
}

/// The configuration chosen from a pair: production when selected, otherwise
/// development, falling back to production when development is absent.
pub open spec fn selected(dev: Option<EnvConfig>, prod: Option<EnvConfig>, production: bool) -> Option<EnvConfig> {
    if production {
        prod
    } else {
        match dev {
            Some(d) => Some(d),
            None => prod,
        }
    }
}

/// The configuration once installed: the field selection defaults when absent.
pub open spec fn installed(c: EnvSpec) -> EnvSpec {
    EnvSpec { fields: Some(effective_fields(c.fields)), ..c }
}

/// The rules a configuration installs: those of its masking settings, if any.
pub open spec fn installed_rules(c: EnvSpec) -> Option<crate::masking::RuleSpec> {
    match c.output.masking {
        Some(m) => Some(rules_from(m)),
        None => None,
    }
}

/// What the facade does with one entry.
#[derive(Debug)]
pub enum Dispatch {
    /// No configuration yet: report it (this happens once) and drop the entry.
    Warn,
    /// No configuration yet, already reported: drop the entry.
    Drop,
    /// Hand the entry to the batching worker.
    Enqueue(LogEntry),
    /// Deliver this rendered line now, through the active configuration's sink.
    Deliver(String),
}

/// The process-wide logging state: the active configuration and masking
/// rules, the one-shot warning latch and whether a batching worker runs.
pub struct LoggerState {
    pub active: Option<EnvConfig>,
    pub rules: Option<MaskRule>,
    pub warned: bool,
    pub worker_live: bool,
}

pub open spec fn active_view(s: LoggerState) -> Option<EnvSpec> {
    match s.active {
        Some(c) => Some(c@),
        None => None,
    }
}

/// `line` is a rendering of `entry` under `c` with rules `rules`: the JSON
/// line exactly, or the text line, painted or not when colour is on.
pub open spec fn rendered(c: EnvConfig, rules: Option<crate::masking::RuleSpec>, entry: LogEntry, line: Seq<char>) -> bool {
    let m = masked_message(rules, entry.msg@);
    let f = effective_fields(c.fields);
    match c.output.format {
        OutputFormat::Json => line == compact(json_record(entry.level, entry.time, entry.pid, m, f)),
        OutputFormat::Text => {
            let t = text_line(entry.level, entry.time, entry.pid, m, f);
            &&& !c.output.color ==> line == t
            &&& c.output.color ==> (line == t || line == styled(color_spec(entry.level), t))
        },
    }
}

/// Renders `entry` under `config` in its configured format.
pub fn render_entry(config: &EnvConfig, rules: &Option<MaskRule>, entry: &LogEntry) -> (r: String)
    ensures
        rendered(*config, rules_view(*rules), *entry, r@),
{
    match config.output.format {
        OutputFormat::Text => format_log_text(entry, config, rules),
        OutputFormat::Json => format_log_json(entry, config, rules),
    }
}

impl LoggerState {
    /// A state with no configuration, no rules and no worker.
    pub fn new() -> (r: LoggerState)
        ensures
            r.active is None,
            r.rules is None,
            !r.warned,
            !r.worker_live,
    {
        LoggerState { active: None, rules: None, warned: false, worker_live: false }
    }

    /// Installs the configuration that `config` selects for the environment
    /// indicator `node_env`, and returns it. When nothing is selected, or the
    /// selection is invalid, returns `None` and leaves the state unchanged.
    /// Otherwise the selection, with its field selection defaulted, replaces
    /// the active configuration, and its masking rules replace the active ones.
    pub fn set_config(&mut self, config: LoggerConfig, node_env: Option<String>) -> (r: Option<EnvConfig>)
        ensures
            ({
                let sel = selected(config.dev, config.prod, is_production_spec(crate::types::opt_text(node_env)));
                &&& (r is None <==> (sel is None || !config_valid(sel->0@)))
                &&& r is None ==> *final(self) == *old(self)
                &&& r matches Some(c) ==> {
                    &&& c@ == installed(sel->0@)
                    &&& active_view(*final(self)) == Some(installed(sel->0@))
                    &&& rules_view(final(self).rules) == installed_rules(sel->0@)
                    &&& final(self).warned == old(self).warned
                    &&& final(self).worker_live == old(self).worker_live
                }
            }),
    {
        let production = is_production(&node_env);
        let chosen = if production {
            config.prod
        } else {
            match config.dev {
                Some(d) => Some(d),
                None => config.prod,
            }
        };
        match chosen {
            None => None,
            Some(mut env_config) => {
                if validate_config(&env_config).is_err() {
                    return None;
                }
                if env_config.fields.is_none() {
                    env_config.fields = Some(FieldsConfig::default());
                }
                let rules = match &env_config.output.masking {
                    Some(m) => Some(MaskRule::from_config(m)),
                    None => None,
                };
                let result = env_config.duplicate();
                self.active = Some(env_config);
                self.rules = rules;
                Some(result)
            },
        }
    }

    /// Does the active configuration ask for batching while no worker runs?
    pub fn needs_worker(&self) -> (r: bool)
        ensures
            r == (!self.worker_live && (self.active matches Some(c) && c.output.batch_enabled == Some(true))),
    {
        if self.worker_live {
            return false;
        }
        match &self.active {
            Some(c) => c.output.batch_enabled == Some(true),
            None => false,
        }
    }

    /// Records that the batching worker has started.
    pub fn worker_started(&mut self)
        ensures
            final(self).worker_live,
            final(self).active == old(self).active,
            final(self).rules == old(self).rules,
            final(self).warned == old(self).warned,
    {
        self.worker_live = true;
    }

    /// Records that the batching worker has stopped; entries are then
    /// delivered synchronously.
    pub fn worker_stopped(&mut self)
        ensures
            !final(self).worker_live,
            final(self).active == old(self).active,
            final(self).rules == old(self).rules,
            final(self).warned == old(self).warned,
    {
        self.worker_live = false;
    }

    /// Decides what happens to `entry`: before any configuration it is
    /// dropped, with a warning the first time only; with a live worker it is
    /// queued; otherwise it is rendered for immediate delivery.
    pub fn submit(&mut self, entry: LogEntry) -> (r: Dispatch)
        ensures
            final(self).active == old(self).active,
            final(self).rules == old(self).rules,
            final(self).worker_live == old(self).worker_live,
            old(self).active is None ==> {
                &&& final(self).warned
                &&& (r is Warn <==> !old(self).warned)
                &&& (r is Drop <==> old(self).warned)
            },
            old(self).active is Some ==> final(self).warned == old(self).warned,
            old(self).active is Some && old(self).worker_live ==> r == Dispatch::Enqueue(entry),
            old(self).active is Some && !old(self).worker_live ==> (r matches Dispatch::Deliver(line)
                && rendered(old(self).active->0, rules_view(old(self).rules), entry, line@)),
    {
        match &self.active {
            None => {
                if self.warned {
                    Dispatch::Drop
                } else {
                    self.warned = true;
                    Dispatch::Warn
                }
            },
            Some(c) => {
                if self.worker_live {
                    Dispatch::Enqueue(entry)
                } else {
                    Dispatch::Deliver(render_entry(c, &self.rules, &entry))
                }
            },
        }
    }

    /// Renders `entry` with the active configuration, if there is one.
    pub fn render(&self, entry: &LogEntry) -> (r: Option<String>)
        ensures
            r is None <==> self.active is None,
            self.active is Some ==> (r matches Some(line) && rendered(self.active->0, rules_view(self.rules), *entry, line@)),
    {
        match &self.active {
            Some(c) => Some(render_entry(c, &self.rules, entry)),
            None => None,
        }
    }
}

/// Relies on `std::time::SystemTime::now`, chrono's
/// `From<SystemTime> for DateTime<Utc>` (which also accepts a clock set before
/// 1970) and `DateTime::timestamp_millis`: the current time in milliseconds
/// since the Unix epoch. Nothing is assumed of its value.
#[verifier::external_body]
fn now_millis() -> (r: i64) {
    let now: chrono::DateTime<chrono::Utc> = std::time::SystemTime::now().into();
    now.timestamp_millis()
}

/// `r` follows from submitting an entry of `level`, `msg` and `pid` (stamped
/// with some time) to the state `s0`, which became `s1`.
pub open spec fn submitted_with(
    s0: LoggerState,
    s1: LoggerState,
    level: LogLevel,
    msg: JsonValue,
    pid: u32,
    r: Dispatch,
) -> bool {
    exists|t: i64| submit_outcome(s0, s1, LogEntry { level, msg, time: t, pid }, r)
}

/// The contract of [`LoggerState::submit`] as one predicate.
pub open spec fn submit_outcome(s0: LoggerState, s1: LoggerState, entry: LogEntry, r: Dispatch) -> bool {
    &&& s1.active == s0.active
    &&& s1.rules == s0.rules
    &&& s1.worker_live == s0.worker_live
    &&& s0.active is None ==> {
        &&& s1.warned
        &&& (r is Warn <==> !s0.warned)
        &&& (r is Drop <==> s0.warned)
    }
    &&& s0.active is Some ==> s1.warned == s0.warned
    &&& s0.active is Some && s0.worker_live ==> r == Dispatch::Enqueue(entry)
    &&& s0.active is Some && !s0.worker_live ==> (r matches Dispatch::Deliver(line) && rendered(
        s0.active->0,
        rules_view(s0.rules),
        entry,
        line@,
    ))
}

/// Stamps a new entry of `level` with the current time and submits it.
fn log_at(state: &mut LoggerState, level: LogLevel, message: JsonValue, pid: u32) -> (r: Dispatch)
    ensures
        submitted_with(*old(state), *final(state), level, message, pid, r),
{
    let time = now_millis();
    let entry = LogEntry { level, msg: message, time, pid };
    let r = state.submit(entry);
    assert(submit_outcome(*old(state), *state, LogEntry { level, msg: message, time, pid }, r));
    r
}

/// Logs `message` at level `Trace` for process `pid`.
pub fn trace(state: &mut LoggerState, message: JsonValue, pid: u32) -> (r: Dispatch)
    ensures
        submitted_with(*old(state), *final(state), LogLevel::Trace, message, pid, r),
{
    log_at(state, LogLevel::Trace, message, pid)
}

/// Logs `message` at level `Debug` for process `pid`.
pub fn debug(state: &mut LoggerState, message: JsonValue, pid: u32) -> (r: Dispatch)
    ensures
        submitted_with(*old(state), *final(state), LogLevel::Debug, message, pid, r),
{
    log_at(state, LogLevel::Debug, message, pid)
}

/// Logs `message` at level `Info` for process `pid`.
pub fn info(state: &mut LoggerState, message: JsonValue, pid: u32) -> (r: Dispatch)
    ensures
        submitted_with(*old(state), *final(state), LogLevel::Info, message, pid, r),
{
    log_at(state, LogLevel::Info, message, pid)
}

/// Logs `message` at level `Warn` for process `pid`.
pub fn warn(state: &mut LoggerState, message: JsonValue, pid: u32) -> (r: Dispatch)
    ensures
        submitted_with(*old(state), *final(state), LogLevel::Warn, message, pid, r),
{
    log_at(state, LogLevel::Warn, message, pid)
}

/// Logs `message` at level `Error` for process `pid`.
pub fn error(state: &mut LoggerState, message: JsonValue, pid: u32) -> (r: Dispatch)
    ensures
        submitted_with(*old(state), *final(state), LogLevel::Error, message, pid, r),
{
    log_at(state, LogLevel::Error, message, pid)
}

/// Logs `message` at level `Fatal` for process `pid`.
pub fn fatal(state: &mut LoggerState, message: JsonValue, pid: u32) -> (r: Dispatch)
    ensures
        submitted_with(*old(state), *final(state), LogLevel::Fatal, message, pid, r),
{
    log_at(state, LogLevel::Fatal, message, pid)
}

} // verus!
