//! Rendering of log entries as a text line or a JSON line.
use vstd::prelude::*;
use colored::Colorize;
use crate::json::{
    compact, int_text, nat_text, numbers_valid, pretty, write_int, write_nat, Json, JsonNumber,
    JsonValue,
};
use crate::masking::{mask_json, MaskRule};
use crate::text::{push_all, push_char, same_text};
use crate::types::{
    default_fields, level_name, shows_level, shows_msg, shows_pid, shows_time, EnvConfig,
    FieldsConfig, LogEntry, LogLevel,
};

verus! {

/// The key whose value is hoisted out of a message mapping.
pub open spec fn scope_key() -> Seq<char> {
    seq!['s', 'c', 'o', 'p', 'e']
}

/// The key of a mapping that carries a bare message.
pub open spec fn message_key() -> Seq<char> {
    seq!['m', 'e', 's', 's', 'a', 'g', 'e']
}

/// The value of the first entry stored under `k`.
pub open spec fn first_with_key(es: Seq<(Seq<char>, Json)>, k: Seq<char>) -> Option<Json>
    decreases es.len(),
{
    if es.len() == 0 {
        None
    } else if es[0].0 == k {
        Some(es[0].1)
    } else {
        first_with_key(es.drop_first(), k)
    }
}

/// The entries not stored under `k`, in their order.
pub open spec fn without_key(es: Seq<(Seq<char>, Json)>, k: Seq<char>) -> Seq<(Seq<char>, Json)> {
    es.filter(|e: (Seq<char>, Json)| e.0 != k)
}

/// The scope of a message: the value under `"scope"` when the message is a
/// mapping that has that key.
pub open spec fn scope_of(m: Json) -> Option<Json> {
    match m {
        Json::Object(es) => first_with_key(es, scope_key()),
        _ => None,
    }
}

/// The message without its scope: a mapping loses every `"scope"` entry when
/// it has one; any other message is kept.
pub open spec fn without_scope(m: Json) -> Json {
    match m {
        Json::Object(es) => if first_with_key(es, scope_key()) is Some {
            Json::Object(without_key(es, scope_key()))
        } else {
            m
        },
        _ => m,
    }
}

/// How a value reads in a text line: a string as its raw characters, any
/// other value as its pretty JSON text.
pub open spec fn plain_text(v: Json) -> Seq<char> {
    match v {
        Json::Str(s) => s,
        _ => pretty(v),
    }
}

/// A mapping whose only key is `"message"` stands for that value; any other
/// value for itself.
pub open spec fn unwrap_message(m: Json) -> Json {
    match m {
        Json::Object(es) => if es.len() == 1 && es[0].0 == message_key() {
            es[0].1
        } else {
            m
        },
        _ => m,
    }
}

/// How a message reads in a text line: a mapping whose only key is
/// `"message"` as that value, and then a string as itself, anything else as
/// pretty JSON text.
pub open spec fn message_text(m: Json) -> Seq<char> {
    plain_text(unwrap_message(m))
}

/// The text that follows the scope: the message without its scope, as
/// [`message_text`] reads it.
pub open spec fn body_text(m: Json) -> Seq<char> {
    message_text(without_scope(m))
}

/// The field selection in force: the configured one, or the default.
pub open spec fn effective_fields(f: Option<FieldsConfig>) -> FieldsConfig {
    match f {
        Some(x) => x,
        None => default_fields(),
    }
}

/// The message after the configured masking, if any.
pub open spec fn masked_message(rules: Option<crate::masking::RuleSpec>, m: Json) -> Json {
    match rules {
        Some(r) => mask_json(r, m),
        None => m,
    }
}

pub open spec fn rules_view(rules: Option<MaskRule>) -> Option<crate::masking::RuleSpec> {
    match rules {
        Some(r) => Some(r@),
        None => None,
    }
}

pub open spec fn opt_seq(b: bool, s: Seq<char>) -> Seq<char> {
    if b { s } else { Seq::empty() }
}

/// The tags before the message: `[Level]`, ` [PID:n]` and ` [time]`, each
/// present when its field is selected.
pub open spec fn header_text(level: LogLevel, time: i64, pid: u32, f: FieldsConfig) -> Seq<char> {
    opt_seq(shows_level(f), seq!['['] + level_name(level) + seq![']'])
    + opt_seq(shows_pid(f), seq![' ', '[', 'P', 'I', 'D', ':'] + nat_text(pid as nat) + seq![']'])
    + opt_seq(shows_time(f), seq![' ', '['] + int_text(time as int) + seq![']'])
}

/// The message part: ` [scope]` when there is a scope, then ` text` when the
/// text is not empty.
pub open spec fn message_part(m: Json) -> Seq<char> {
    (match scope_of(m) {
        Some(s) => seq![' ', '['] + plain_text(s) + seq![']'],
        None => Seq::empty(),
    }) + opt_seq(body_text(m).len() > 0, seq![' '] + body_text(m))
}

/// The text line of an entry, before any colouring: the header tags, then the
/// message part when the message is selected.
pub open spec fn text_line(
    level: LogLevel,
    time: i64,
    pid: u32,
    m: Json,
    f: FieldsConfig,
) -> Seq<char> {
    header_text(level, time, pid, f) + opt_seq(shows_msg(f), message_part(m))
}

/// The reset sequence that ends a coloured span.
pub open spec fn reset_seq() -> Seq<char> {
    seq!['\u{1b}', '[', '0', 'm']
}

/// The colour a level's lines are painted in.
#[derive(Clone, Copy, Debug, PartialEq, Eq, Structural)]
pub enum LineColor {
    BrightBlack,
    Cyan,
    Green,
    Yellow,
    Red,
    BoldRed,
}

/// The colour of each level's lines.
pub open spec fn color_spec(l: LogLevel) -> LineColor {
    match l {
        LogLevel::Trace => LineColor::BrightBlack,
        LogLevel::Debug => LineColor::Cyan,
        LogLevel::Info => LineColor::Green,
        LogLevel::Warn => LineColor::Yellow,
        LogLevel::Error => LineColor::Red,
        LogLevel::Fatal => LineColor::BoldRed,
    }
}

/// The colour for lines of `level`.
pub fn color_of(level: LogLevel) -> (c: LineColor)
    ensures
        c == color_spec(level),
{
    match level {
        LogLevel::Trace => LineColor::BrightBlack,
        LogLevel::Debug => LineColor::Cyan,
        LogLevel::Info => LineColor::Green,
        LogLevel::Warn => LineColor::Yellow,
        LogLevel::Error => LineColor::Red,
        LogLevel::Fatal => LineColor::BoldRed,
    }
}

/// The escape sequence that sets a colour: `ESC [ codes m`, with code 1 for
/// bold and 90, 36, 32, 33, 31 for bright black, cyan, green, yellow and red.
pub open spec fn style_seq(c: LineColor) -> Seq<char> {
    match c {
        LineColor::BrightBlack => seq!['\u{1b}', '[', '9', '0', 'm'],
        LineColor::Cyan => seq!['\u{1b}', '[', '3', '6', 'm'],
        LineColor::Green => seq!['\u{1b}', '[', '3', '2', 'm'],
        LineColor::Yellow => seq!['\u{1b}', '[', '3', '3', 'm'],
        LineColor::Red => seq!['\u{1b}', '[', '3', '1', 'm'],
        LineColor::BoldRed => seq!['\u{1b}', '[', '1', ';', '3', '1', 'm'],
    }
}

/// `s` with `st` inserted after each reset sequence, scanning from the left.
pub open spec fn after_resets(s: Seq<char>, st: Seq<char>) -> Seq<char>
    decreases s.len(),
{
    if s.len() == 0 {
        Seq::empty()
    } else if s.len() >= 4 && s.subrange(0, 4) == reset_seq() {
        reset_seq() + st + after_resets(s.subrange(4, s.len() as int), st)
    } else {
        seq![s[0]] + after_resets(s.drop_first(), st)
    }
}

/// `t` painted in colour `c`: the colour's sequence, `t` with the colour set
/// again after each reset inside it, and a final reset.
pub open spec fn styled(c: LineColor, t: Seq<char>) -> Seq<char> {
    style_seq(c) + after_resets(t, style_seq(c)) + reset_seq()
}

/// Relies on `colored::Colorize` and `ColoredString`'s `Display`: when the
/// environment switches colouring off the text comes back unchanged;
/// otherwise it is written behind the style sequence (`compute_style`), with
/// that sequence repeated after every reset sequence inside it
/// (`escape_inner_reset_sequences`), and followed by a reset sequence.
#[verifier::external_body]
fn paint(s: &str, color: LineColor) -> (r: String)
    ensures
        r@ == s@ || r@ == styled(color, s@),
{
    let styled = match color {
        LineColor::BrightBlack => s.bright_black(),
        LineColor::Cyan => s.cyan(),
        LineColor::Green => s.green(),
        LineColor::Yellow => s.yellow(),
        LineColor::Red => s.red(),
        LineColor::BoldRed => s.bold().red(),
    };
    styled.to_string()
}

/// Skipping entries under other keys leaves the first value under `k` unchanged.
proof fn lemma_first_with_key_skip(es: Seq<(Seq<char>, Json)>, k: Seq<char>, i: int)
    requires
        0 <= i < es.len(),
        es[i].0 != k,
    ensures
        first_with_key(es.subrange(i, es.len() as int), k) == first_with_key(
            es.subrange(i + 1, es.len() as int),
            k,
        ),
{
    assert(es.subrange(i, es.len() as int).drop_first() =~= es.subrange(i + 1, es.len() as int));
}

/// The view of the entries of a mapping.
pub open spec fn object_entries(es: Vec<(String, JsonValue)>) -> Seq<(Seq<char>, Json)> {
    Seq::new(es@.len(), |i: int| (es@[i].0@, es@[i].1@))
}

/// The scope of the message `m` and the message without it.
pub fn split_scope(m: &JsonValue) -> (r: (Option<JsonValue>, JsonValue))
    ensures
        match r.0 {
            Some(s) => scope_of(m@) == Some(s@),
            None => scope_of(m@) is None,
        },
        r.1@ == without_scope(m@),
{
    proof { reveal_strlit("scope"); }
    let key = "scope";
    assert(key@ =~= scope_key());
    match m {
        JsonValue::Object(es) => {
            let ghost ev = m@->Object_0;
            assert(ev =~= object_entries(*es));
            let n = es.len();
            let mut found: Option<usize> = None;
            let mut out: Vec<(String, JsonValue)> = Vec::new();
            let mut i: usize = 0;
            assert(ev.subrange(0, n as int) =~= ev);
            assert(without_key(ev.take(0), scope_key()) =~= Seq::empty()) by {
                reveal(Seq::filter);
            }
            while i < n
                invariant
                    n == es@.len(),
                    ev == object_entries(*es),
                    ev == m@->Object_0,
                    key@ == scope_key(),
                    i <= n,
                    match found {
                        Some(j) => j < i && first_with_key(ev, scope_key()) == Some(ev[j as int].1),
                        None => first_with_key(ev, scope_key()) == first_with_key(
                            ev.subrange(i as int, n as int),
                            scope_key(),
                        ),
                    },
                    object_entries(out) == without_key(ev.take(i as int), scope_key()),
                decreases n - i,
            {
                let ghost before = object_entries(out);
                proof {
                    assert(ev.take(i as int + 1).drop_last() =~= ev.take(i as int));
                    reveal(Seq::filter);
                }
                if same_text(es[i].0.as_str(), key) {
                    if found.is_none() {
                        proof {
                            assert(ev.subrange(i as int, n as int)[0] == ev[i as int]);
                        }
                        found = Some(i);
                    }
                    assert(object_entries(out) =~= before);
                } else {
                    proof {
                        if found is None {
                            lemma_first_with_key_skip(ev, scope_key(), i as int);
                        }
                    }
                    out.push((es[i].0.clone(), es[i].1.duplicate()));
                    assert(object_entries(out) =~= before.push(ev[i as int]));
                }
                i = i + 1;
            }
            assert(ev.take(n as int) =~= ev);
            match found {
                Some(j) => {
                    let s = es[j].1.duplicate();
                    let rest = JsonValue::Object(out);
                    assert(rest@->Object_0 =~= object_entries(out));
                    (Some(s), rest)
                },
                None => {
                    assert(ev.subrange(n as int, n as int) =~= Seq::empty());
                    (None, m.duplicate())
                },
            }
        },
        _ => (None, m.duplicate()),
    }
}

/// The text of a value in a line: a string raw, anything else as pretty JSON.
pub fn plain_text_of(v: &JsonValue) -> (r: String)
    ensures
        r@ == plain_text(v@),
{
    match v {
        JsonValue::String(s) => s.clone(),
        _ => v.to_pretty_string(),
    }
}

/// The text of a message: a string as itself, anything else as pretty JSON.
pub fn text_from_message(val: &JsonValue) -> (r: String)
    ensures
        r@ == plain_text(val@),
{
    plain_text_of(val)
}

/// The value a lone `"message"` entry stands for, or `m` itself.
pub fn unwrap_message_value(m: JsonValue) -> (r: JsonValue)
    ensures
        r@ == unwrap_message(m@),
{
    proof { reveal_strlit("message"); }
    let lone = match &m {
        JsonValue::Object(es) => es.len() == 1 && same_text(es[0].0.as_str(), "message"),
        _ => false,
    };
    assert("message"@ =~= message_key());
    if lone {
        match m {
            JsonValue::Object(es) => {
                let mut es = es;
                let (_, v) = es.remove(0);
                v
            },
            _ => m,
        }
    } else {
        proof {
            if m@ is Object && m@->Object_0.len() == 1 {
                assert(m@->Object_0[0].0 == m->Object_0@[0].0@);
            }
        }
        m
    }
}

/// The field selection in force for `config`.
pub fn fields_of(config: &EnvConfig) -> (r: FieldsConfig)
    ensures
        r == effective_fields(config.fields),
{
    match config.fields {
        Some(f) => f,
        None => FieldsConfig::default(),
    }
}

/// The message after masking with `rules`, when there are any.
pub fn mask_message_if_needed(msg: &JsonValue, rules: &Option<MaskRule>) -> (r: JsonValue)
    ensures
        r@ == masked_message(rules_view(*rules), msg@),
{
    match rules {
        Some(r) => r.mask(msg),
        None => msg.duplicate(),
    }
}

fn write_level_tag(level: LogLevel, out: &mut String)
    ensures
        final(out)@ == old(out)@ + (seq!['['] + level_name(level) + seq![']']),
{
    push_char(out, '[');
    push_all(out, level.name());
    push_char(out, ']');
    assert(out@ =~= old(out)@ + (seq!['['] + level_name(level) + seq![']']));
}

fn write_pid_tag(pid: u32, out: &mut String)
    ensures
        final(out)@ == old(out)@ + (seq![' ', '[', 'P', 'I', 'D', ':'] + nat_text(pid as nat) + seq![']']),
{
    proof { reveal_strlit(" [PID:"); }
    push_all(out, " [PID:");
    write_nat(pid as u64, out);
    push_char(out, ']');
    assert(" [PID:"@ =~= seq![' ', '[', 'P', 'I', 'D', ':']);
    assert(out@ =~= old(out)@ + (seq![' ', '[', 'P', 'I', 'D', ':'] + nat_text(pid as nat) + seq![']']));
}

fn write_time_tag(time: i64, out: &mut String)
    ensures
        final(out)@ == old(out)@ + (seq![' ', '['] + int_text(time as int) + seq![']']),
{
    push_char(out, ' ');
    push_char(out, '[');
    write_int(time, out);
    push_char(out, ']');
    assert(out@ =~= old(out)@ + (seq![' ', '['] + int_text(time as int) + seq![']']));
}

fn write_header(entry: &LogEntry, fields: FieldsConfig, out: &mut String)
    ensures
        final(out)@ == old(out)@ + header_text(entry.level, entry.time, entry.pid, fields),
{
    let ghost s0 = out@;
    if fields.show_level() {
        write_level_tag(entry.level, out);
    }
    let ghost s1 = out@;
    if fields.show_pid() {
        write_pid_tag(entry.pid, out);
    }
    let ghost s2 = out@;
    if fields.show_time() {
        write_time_tag(entry.time, out);
    }
    let ghost s3 = out@;
    let ghost a = opt_seq(shows_level(fields), seq!['['] + level_name(entry.level) + seq![']']);
    let ghost b = opt_seq(shows_pid(fields), seq![' ', '[', 'P', 'I', 'D', ':'] + nat_text(entry.pid as nat) + seq![']']);
    let ghost c = opt_seq(shows_time(fields), seq![' ', '['] + int_text(entry.time as int) + seq![']']);
    assert(s1 == s0 + a);
    assert(s2 == s1 + b);
    assert(s3 == s2 + c);
    assert(s3 =~= s0 + (a + b + c));
}

fn write_message_part(masked: &JsonValue, out: &mut String)
    ensures
        final(out)@ == old(out)@ + message_part(masked@),
{
    let ghost m = masked@;
    let ghost s3 = out@;
    let (scope, rest) = split_scope(masked);
    match &scope {
        Some(sv) => {
            push_char(out, ' ');
            push_char(out, '[');
            let st = plain_text_of(sv);
            push_all(out, st.as_str());
            push_char(out, ']');
        },
        None => {},
    }
    let ghost s4 = out@;
    let text = text_from_message(&unwrap_message_value(rest));
    assert(text@ == body_text(m));
    if text.unicode_len() > 0 {
        push_char(out, ' ');
        push_all(out, text.as_str());
    }
    assert(out@ =~= s4 + opt_seq(body_text(m).len() > 0, seq![' '] + body_text(m)));
    assert(out@ =~= s3 + message_part(m));
}

/// The uncoloured text line of `entry` under the field selection `fields`,
/// its message masked with `rules`.
pub fn render_text(entry: &LogEntry, fields: FieldsConfig, rules: &Option<MaskRule>) -> (r: String)
    ensures
        r@ == text_line(
            entry.level,
            entry.time,
            entry.pid,
            masked_message(rules_view(*rules), entry.msg@),
            fields,
        ),
{
    let masked = mask_message_if_needed(&entry.msg, rules);
    let mut out = String::new();
    write_header(entry, fields, &mut out);
    let ghost h = out@;
    if fields.show_msg() {
        write_message_part(&masked, &mut out);
    }
    assert(out@ =~= h + opt_seq(shows_msg(fields), message_part(masked@)));
    out
}

/// The text line of `entry` under `config`: [`render_text`] with the
/// configured field selection, painted in the level's colour when colour is on.
pub fn format_log_text(entry: &LogEntry, config: &EnvConfig, rules: &Option<MaskRule>) -> (r: String)
    ensures
        ({
            let line = text_line(
                entry.level,
                entry.time,
                entry.pid,
                masked_message(rules_view(*rules), entry.msg@),
                effective_fields(config.fields),
            );
            &&& !config.output.color ==> r@ == line
            &&& config.output.color ==> (r@ == line || r@ == styled(color_spec(entry.level), line))
        }),
{
    let fields = fields_of(config);
    let line = render_text(entry, fields, rules);
    if config.output.color {
        paint(line.as_str(), color_of(entry.level))
    } else {
        line
    }
}

/// An entry reduced to its selected fields, in the order they are written.
#[derive(Debug)]
pub struct SerializableLogEntry {
    pub level: Option<LogLevel>,
    pub msg: Option<JsonValue>,
    pub time: Option<i64>,
    pub pid: Option<u32>,
    pub scope: Option<JsonValue>,
}

pub open spec fn level_key() -> Seq<char> {
    seq!['l', 'e', 'v', 'e', 'l']
}

pub open spec fn msg_key() -> Seq<char> {
    seq!['m', 's', 'g']
}

pub open spec fn time_key() -> Seq<char> {
    seq!['t', 'i', 'm', 'e']
}

pub open spec fn pid_key() -> Seq<char> {
    seq!['p', 'i', 'd']
}

/// One entry under `k` when `v` is present, none otherwise.
pub open spec fn opt_entry(k: Seq<char>, v: Option<Json>) -> Seq<(Seq<char>, Json)> {
    match v {
        Some(x) => seq![(k, x)],
        None => Seq::empty(),
    }
}

pub open spec fn opt_json(v: Option<JsonValue>) -> Option<Json> {
    match v {
        Some(x) => Some(x@),
        None => None,
    }
}

/// The JSON object of a projection: `level` (its name), `msg`, `time`, `pid`
/// (as numbers) and `scope`, each only when present.
pub open spec fn projection_json(
    level: Option<LogLevel>,
    msg: Option<Json>,
    time: Option<i64>,
    pid: Option<u32>,
    scope: Option<Json>,
) -> Json {
    Json::Object(
        opt_entry(level_key(), match level { Some(l) => Some(Json::Str(level_name(l))), None => None })
        + opt_entry(msg_key(), msg)
        + opt_entry(time_key(), match time { Some(t) => Some(Json::Number(int_text(t as int))), None => None })
        + opt_entry(pid_key(), match pid { Some(p) => Some(Json::Number(nat_text(p as nat))), None => None })
        + opt_entry(scope_key(), scope),
    )
}

impl View for SerializableLogEntry {
    type V = Json;

    open spec fn view(&self) -> Json {
        projection_json(self.level, opt_json(self.msg), self.time, self.pid, opt_json(self.scope))
    }
}

/// The JSON record of an entry whose message (already masked) is `m`: each
/// selected field, the message (when a scope is taken out of it, the rest,
/// a lone `"message"` entry standing for its value), and the scope hoisted to the top level when the
/// message is selected and has one.
pub open spec fn json_record(level: LogLevel, time: i64, pid: u32, m: Json, f: FieldsConfig) -> Json {
    projection_json(
        if shows_level(f) { Some(level) } else { None },
        if shows_msg(f) {
            Some(if scope_of(m) is Some { unwrap_message(without_scope(m)) } else { m })
        } else {
            None
        },
        if shows_time(f) { Some(time) } else { None },
        if shows_pid(f) { Some(pid) } else { None },
        if shows_msg(f) { scope_of(m) } else { None },
    )
}

fn entry_of(key: &str, v: JsonValue) -> (r: Vec<(String, JsonValue)>)
    ensures
        object_entries(r) == seq![(key@, v@)],
{
    let mut r: Vec<(String, JsonValue)> = Vec::new();
    r.push((String::from_str(key), v));
    assert(object_entries(r) =~= seq![(key@, v@)]);
    r
}

fn append_entries(a: &mut Vec<(String, JsonValue)>, b: Vec<(String, JsonValue)>)
    ensures
        object_entries(*final(a)) == object_entries(*old(a)) + object_entries(b),
{
    let ghost eb = object_entries(b);
    let mut b = b;
    a.append(&mut b);
    assert(object_entries(*a) =~= object_entries(*old(a)) + eb);
}

impl SerializableLogEntry {
    /// The compact JSON text of this record.
    pub fn to_json_string(&self) -> (r: String)
        ensures
            r@ == compact(self@),
            numbers_valid(self@),
    {
        proof {
            reveal_strlit("level");
            reveal_strlit("msg");
            reveal_strlit("time");
            reveal_strlit("pid");
            reveal_strlit("scope");
            assert("level"@ =~= level_key());
            assert("msg"@ =~= msg_key());
            assert("time"@ =~= time_key());
            assert("pid"@ =~= pid_key());
            assert("scope"@ =~= scope_key());
        }
        let mut es: Vec<(String, JsonValue)> = Vec::new();
        assert(object_entries(es) =~= Seq::empty());
        let ghost e0 = object_entries(es);
        if let Some(l) = self.level {
            append_entries(&mut es, entry_of("level", JsonValue::String(String::from_str(l.name()))));
        }
        assert(object_entries(es) =~= e0 + opt_entry(level_key(), match self.level { Some(l) => Some(Json::Str(level_name(l))), None => None }));
        let ghost e1 = object_entries(es);
        if let Some(m) = &self.msg {
            append_entries(&mut es, entry_of("msg", m.duplicate()));
        }
        assert(object_entries(es) =~= e1 + opt_entry(msg_key(), opt_json(self.msg)));
        let ghost e2 = object_entries(es);
        if let Some(t) = self.time {
            append_entries(&mut es, entry_of("time", JsonValue::Number(JsonNumber::from_int(t))));
        }
        assert(object_entries(es) =~= e2 + opt_entry(time_key(), match self.time { Some(t) => Some(Json::Number(int_text(t as int))), None => None }));
        let ghost e3 = object_entries(es);
        if let Some(p) = self.pid {
            append_entries(&mut es, entry_of("pid", JsonValue::Number(JsonNumber::from_int(p as i64))));
        }
        assert(object_entries(es) =~= e3 + opt_entry(pid_key(), match self.pid { Some(p) => Some(Json::Number(nat_text(p as nat))), None => None }));
        let ghost e4 = object_entries(es);
        if let Some(sc) = &self.scope {
            append_entries(&mut es, entry_of("scope", sc.duplicate()));
        }
        assert(object_entries(es) =~= e4 + opt_entry(scope_key(), opt_json(self.scope)));
        let v = JsonValue::Object(es);
        assert(v@->Object_0 =~= self@->Object_0);
        v.to_compact_string()
    }
}

/// The record of `entry` under the field selection `fields`, its message
/// masked with `rules`.
pub fn project(entry: &LogEntry, fields: FieldsConfig, rules: &Option<MaskRule>) -> (r: SerializableLogEntry)
    ensures
        r@ == json_record(
            entry.level,
            entry.time,
            entry.pid,
            masked_message(rules_view(*rules), entry.msg@),
            fields,
        ),
{
    let masked = mask_message_if_needed(&entry.msg, rules);
    let (scope, rest) = split_scope(&masked);
    let rest = if scope.is_some() { unwrap_message_value(rest) } else { rest };
    let show_msg = fields.show_msg();
    SerializableLogEntry {
        level: if fields.show_level() { Some(entry.level) } else { None },
        msg: if show_msg { Some(rest) } else { None },
        time: if fields.show_time() { Some(entry.time) } else { None },
        pid: if fields.show_pid() { Some(entry.pid) } else { None },
        scope: if show_msg { scope } else { None },
    }
}

/// The JSON line of `entry` under `config`, its message masked with `rules`.
pub fn format_log_json(entry: &LogEntry, config: &EnvConfig, rules: &Option<MaskRule>) -> (r: String)
    ensures
        r@ == compact(
            json_record(
                entry.level,
                entry.time,
                entry.pid,
                masked_message(rules_view(*rules), entry.msg@),
                effective_fields(config.fields),
            ),
        ),
        numbers_valid(
            json_record(
                entry.level,
                entry.time,
                entry.pid,
                masked_message(rules_view(*rules), entry.msg@),
                effective_fields(config.fields),
            ),
        ),
{
    let fields = fields_of(config);
    project(entry, fields, rules).to_json_string()
}

/// The keys of a mapping, in order.
pub open spec fn keys_of(es: Seq<(Seq<char>, Json)>) -> Seq<Seq<char>> {
    es.map_values(|e: (Seq<char>, Json)| e.0)
}

pub open spec fn opt_key(b: bool, k: Seq<char>) -> Seq<Seq<char>> {
    if b { seq![k] } else { Seq::empty() }
}

/// The keys a JSON line carries under the field selection `f`: `level`,
/// `msg`, `time`, `pid` for the selected fields, and `scope` when the message
/// is selected and has a scope.
pub open spec fn enabled_keys(f: FieldsConfig, has_scope: bool) -> Seq<Seq<char>> {
    opt_key(shows_level(f), level_key()) + opt_key(shows_msg(f), msg_key()) + opt_key(shows_time(f), time_key())
        + opt_key(shows_pid(f), pid_key()) + opt_key(shows_msg(f) && has_scope, scope_key())
}

/// A JSON line is one object whose keys are exactly the enabled ones, each
/// once: nothing that the field selection leaves out, and no extra key. (Its
/// strings are quoted and escaped and, by the contract of
/// [`format_log_json`], its numbers are well-formed literals, so no value can
/// add a key to the line.)
pub proof fn lemma_json_line_keys(level: LogLevel, time: i64, pid: u32, m: Json, f: FieldsConfig)
    ensures
        json_record(level, time, pid, m, f) is Object,
        keys_of(json_record(level, time, pid, m, f)->Object_0) == enabled_keys(f, scope_of(m) is Some),
        enabled_keys(f, scope_of(m) is Some).no_duplicates(),
{
    let es = json_record(level, time, pid, m, f)->Object_0;
    assert(keys_of(es) =~= enabled_keys(f, scope_of(m) is Some));
    let ks = enabled_keys(f, scope_of(m) is Some);
    assert(level_key() != msg_key());
    assert(level_key()[0] != time_key()[0]);
    assert(level_key()[0] != pid_key()[0]);
    assert(level_key()[0] != scope_key()[0]);
    assert(msg_key()[0] != time_key()[0]);
    assert(msg_key()[0] != pid_key()[0]);
    assert(msg_key()[0] != scope_key()[0]);
    assert(time_key()[0] != pid_key()[0]);
    assert(time_key()[0] != scope_key()[0]);
    assert(pid_key()[0] != scope_key()[0]);
    assert forall|i: int, j: int| 0 <= i < ks.len() && 0 <= j < ks.len() && i != j implies ks[i] != ks[j] by {
        assert(ks[i][0] != ks[j][0]);
    }
}

} // verus!
