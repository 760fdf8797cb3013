//! Structured values (a JSON document model) and their canonical renderings.
use vstd::prelude::*;
use crate::text::{push_all, push_char};

verus! {

/// The mathematical model of a structured value.
pub enum Json {
    Null,
    Bool(bool),
    /// A number, held as its literal text.
    Number(Seq<char>),
    Str(Seq<char>),
    Array(Seq<Json>),
    /// An ordered mapping from keys to values.
    Object(Seq<(Seq<char>, Json)>),
}

/// A structured value: string, number, boolean, null, ordered mapping or sequence.
#[derive(Debug)]
pub enum JsonValue {
    Null,
    Bool(bool),
    /// A number, held as its literal text (for example `42` or `-1.5e3`).
    Number(JsonNumber),
    String(String),
    Array(Vec<JsonValue>),
    Object(Vec<(String, JsonValue)>),
}

/// A character is a decimal digit.
pub open spec fn is_digit(c: char) -> bool {
    '0' <= c && c <= '9'
}

/// One step of the recogniser of JSON number literals
/// (`-? (0 | [1-9][0-9]*) (. [0-9]+)? ([eE] [+-]? [0-9]+)?`). States: 0 start,
/// 1 after `-`, 2 after a leading `0`, 3 in the integer digits, 4 after `.`,
/// 5 in the fraction, 6 after `e`, 7 after the exponent sign, 8 in the
/// exponent digits, 9 rejected.
pub open spec fn number_step(st: nat, c: char) -> nat {
    if st == 0 && c == '-' {
        1
    } else if (st == 0 || st == 1) && c == '0' {
        2
    } else if (st == 0 || st == 1) && is_digit(c) {
        3
    } else if (st == 2 || st == 3 || st == 5) && (c == 'e' || c == 'E') {
        6
    } else if (st == 2 || st == 3) && c == '.' {
        4
    } else if st == 3 && is_digit(c) {
        3
    } else if (st == 4 || st == 5) && is_digit(c) {
        5
    } else if st == 6 && (c == '+' || c == '-') {
        7
    } else if (st == 6 || st == 7 || st == 8) && is_digit(c) {
        8
    } else {
        9
    }
}

/// The recogniser's state after reading `s` from state `st`.
pub open spec fn number_run(st: nat, s: Seq<char>) -> nat
    decreases s.len(),
{
    if s.len() == 0 {
        st
    } else {
        number_step(number_run(st, s.drop_last()), s.last())
    }
}

/// `s` is a JSON number literal.
pub open spec fn number_text(s: Seq<char>) -> bool {
    let st = number_run(0, s);
    st == 2 || st == 3 || st == 5 || st == 8
}

proof fn lemma_number_run_concat(st: nat, a: Seq<char>, b: Seq<char>)
    ensures
        number_run(st, a + b) == number_run(number_run(st, a), b),
    decreases b.len(),
{
    if b.len() == 0 {
        assert(a + b =~= a);
    } else {
        assert((a + b).drop_last() =~= a + b.drop_last());
        lemma_number_run_concat(st, a, b.drop_last());
    }
}

proof fn lemma_digit_char(d: nat)
    requires
        d < 10,
    ensures
        is_digit(digit(d)),
        (digit(d) == '0') == (d == 0),
{
}

proof fn lemma_number_run_digits(st: nat, n: nat)
    requires
        st == 0 || st == 1,
    ensures
        number_run(st, nat_text(n)) == if n == 0 { 2nat } else { 3nat },
    decreases n,
{
    if n < 10 {
        lemma_digit_char(n);
        let t = nat_text(n);
        assert(t.drop_last() =~= Seq::<char>::empty());
        assert(t.last() == digit(n));
        assert(number_run(st, Seq::<char>::empty()) == st);
        assert(number_run(st, t.drop_last()) == st);
        assert(number_run(st, t) == number_step(st, digit(n)));
    } else {
        lemma_number_run_digits(st, n / 10);
        lemma_digit_char(n % 10);
        let t = nat_text(n);
        assert(t.drop_last() == nat_text(n / 10));
        assert(t.last() == digit(n % 10));
        assert(number_run(st, t) == number_step(number_run(st, nat_text(n / 10)), digit(n % 10)));
    }
}

/// Decimal integer notation is a JSON number literal.
pub proof fn lemma_int_text_is_number(i: int)
    ensures
        number_text(int_text(i)),
{
    if i < 0 {
        lemma_number_run_concat(0, seq!['-'], nat_text((-i) as nat));
        assert(seq!['-'].drop_last() =~= Seq::<char>::empty());
        assert(number_run(0, Seq::<char>::empty()) == 0);
        assert(number_run(0, seq!['-'].drop_last()) == 0);
        assert(seq!['-'].last() == '-');
        assert(number_run(0, seq!['-']) == number_step(0, '-'));
        lemma_number_run_digits(1, (-i) as nat);
    } else {
        lemma_number_run_digits(0, i as nat);
    }
}

fn number_step_exec(st: u8, c: char) -> (r: u8)
    requires
        st <= 9,
    ensures
        r as nat == number_step(st as nat, c),
        r <= 9,
{
    let digit = '0' <= c && c <= '9';
    if st == 0 && c == '-' {
        1
    } else if (st == 0 || st == 1) && c == '0' {
        2
    } else if (st == 0 || st == 1) && digit {
        3
    } else if (st == 2 || st == 3 || st == 5) && (c == 'e' || c == 'E') {
        6
    } else if (st == 2 || st == 3) && c == '.' {
        4
    } else if st == 3 && digit {
        3
    } else if (st == 4 || st == 5) && digit {
        5
    } else if st == 6 && (c == '+' || c == '-') {
        7
    } else if (st == 6 || st == 7 || st == 8) && digit {
        8
    } else {
        9
    }
}

/// A JSON number, held as its literal text, which is always well-formed.
#[derive(Debug)]
pub struct JsonNumber {
    text: String,
}

impl View for JsonNumber {
    type V = Seq<char>;

    /// The literal text.
    closed spec fn view(&self) -> Seq<char> {
        self.text@
    }
}

impl JsonNumber {
    #[verifier::type_invariant]
    spec fn well_formed(&self) -> bool {
        number_text(self.text@)
    }

    /// The number written as `text`; `None` when `text` is not a JSON number literal.
    pub fn parse(text: &str) -> (r: Option<JsonNumber>)
        ensures
            r is Some <==> number_text(text@),
            r matches Some(n) ==> n@ == text@,
    {
        let len = text.unicode_len();
        let mut st: u8 = 0;
        let mut i: usize = 0;
        while i < len
            invariant
                len == text@.len(),
                i <= len,
                st <= 9,
                st as nat == number_run(0, text@.take(i as int)),
            decreases len - i,
        {
            assert(text@.take(i + 1).drop_last() =~= text@.take(i as int));
            st = number_step_exec(st, text.get_char(i));
            i = i + 1;
        }
        assert(text@.take(len as int) =~= text@);
        if st == 2 || st == 3 || st == 5 || st == 8 {
            Some(JsonNumber { text: text.to_owned() })
        } else {
            None
        }
    }

    /// The integer `i`.
    pub fn from_int(i: i64) -> (r: JsonNumber)
        ensures
            r@ == int_text(i as int),
    {
        let mut text = String::new();
        write_int(i, &mut text);
        assert(text@ =~= int_text(i as int));
        proof { lemma_int_text_is_number(i as int); }
        JsonNumber { text }
    }

    /// The literal text.
    pub fn as_str(&self) -> (r: &str)
        ensures
            r@ == self@,
    {
        self.text.as_str()
    }

    /// A copy of this number.
    pub fn duplicate(&self) -> (r: JsonNumber)
        ensures
            r@ == self@,
    {
        proof { use_type_invariant(self); }
        JsonNumber { text: self.text.clone() }
    }
}

/// Every number inside the value is a JSON number literal.
pub open spec fn numbers_valid(v: Json) -> bool
    decreases v,
{
    match v {
        Json::Number(n) => number_text(n),
        Json::Array(xs) => forall|i: int| 0 <= i < xs.len() ==> numbers_valid(#[trigger] xs[i]),
        Json::Object(es) => forall|i: int| 0 <= i < es.len() ==> numbers_valid(#[trigger] es[i].1),
        _ => true,
    }
}

pub open spec fn view_of(v: JsonValue) -> Json
    decreases v,
{
    match v {
        JsonValue::Null => Json::Null,
        JsonValue::Bool(b) => Json::Bool(b),
        JsonValue::Number(n) => Json::Number(n@),
        JsonValue::String(s) => Json::Str(s@),
        JsonValue::Array(xs) => Json::Array(
            Seq::new(xs@.len(), |i: int| if 0 <= i < xs@.len() { view_of(xs@[i]) } else { Json::Null }),
        ),
        JsonValue::Object(es) => Json::Object(
            Seq::new(
                es@.len(),
                |i: int|
                    if 0 <= i < es@.len() {
                        (es@[i].0@, view_of(es@[i].1))
                    } else {
                        (Seq::empty(), Json::Null)
                    },
            ),
        ),
    }
}

impl View for JsonValue {
    type V = Json;

    open spec fn view(&self) -> Json {
        view_of(*self)
    }
}

/// The decimal digit character for `d < 10`.
pub open spec fn digit(d: nat) -> char {
    if d == 0 { '0' } else if d == 1 { '1' } else if d == 2 { '2' } else if d == 3 { '3' }
    else if d == 4 { '4' } else if d == 5 { '5' } else if d == 6 { '6' } else if d == 7 { '7' }
    else if d == 8 { '8' } else { '9' }
}

/// The lowercase hexadecimal digit character for `d < 16`.
pub open spec fn hex_digit(d: nat) -> char {
    if d < 10 { digit(d) } else if d == 10 { 'a' } else if d == 11 { 'b' } else if d == 12 { 'c' }
    else if d == 13 { 'd' } else if d == 14 { 'e' } else { 'f' }
}

/// Decimal notation of a natural number, without leading zeros.
pub open spec fn nat_text(n: nat) -> Seq<char>
    decreases n,
{
    if n < 10 {
        seq![digit(n)]
    } else {
        nat_text(n / 10).push(digit(n % 10))
    }
}

/// Decimal notation of an integer, with a leading `-` when negative.
pub open spec fn int_text(i: int) -> Seq<char> {
    if i < 0 {
        seq!['-'] + nat_text((-i) as nat)
    } else {
        nat_text(i as nat)
    }
}

/// How one character is written inside a JSON string literal.
pub open spec fn escape_char(c: char) -> Seq<char> {
    if c == '"' {
        seq!['\\', '"']
    } else if c == '\\' {
        seq!['\\', '\\']
    } else if c == '\u{8}' {
        seq!['\\', 'b']
    } else if c == '\t' {
        seq!['\\', 't']
    } else if c == '\n' {
        seq!['\\', 'n']
    } else if c == '\u{c}' {
        seq!['\\', 'f']
    } else if c == '\r' {
        seq!['\\', 'r']
    } else if (c as u32) < 0x20 {
        seq!['\\', 'u', '0', '0', hex_digit((c as u32 / 16) as nat), hex_digit((c as u32 % 16) as nat)]
    } else {
        seq![c]
    }
}

/// The escaped body of a JSON string literal.
pub open spec fn escape_text(s: Seq<char>) -> Seq<char>
    decreases s.len(),
{
    if s.len() == 0 {
        Seq::empty()
    } else {
        escape_text(s.drop_last()) + escape_char(s.last())
    }
}

/// A JSON string literal: the escaped text between double quotes.
pub open spec fn quoted(s: Seq<char>) -> Seq<char> {
    seq!['"'] + escape_text(s) + seq!['"']
}

/// The parts joined with `sep` between neighbours.
pub open spec fn join(parts: Seq<Seq<char>>, sep: Seq<char>) -> Seq<char>
    decreases parts.len(),
{
    if parts.len() == 0 {
        Seq::empty()
    } else if parts.len() == 1 {
        parts[0]
    } else {
        join(parts.drop_last(), sep) + sep + parts.last()
    }
}

/// Compact JSON text of a value: no whitespace, keys in their stored order.
pub open spec fn compact(v: Json) -> Seq<char>
    decreases v,
{
    match v {
        Json::Null => seq!['n', 'u', 'l', 'l'],
        Json::Bool(b) => if b { seq!['t', 'r', 'u', 'e'] } else { seq!['f', 'a', 'l', 's', 'e'] },
        Json::Number(n) => n,
        Json::Str(s) => quoted(s),
        Json::Array(xs) => seq!['['] + join(compact_items(xs), seq![',']) + seq![']'],
        Json::Object(es) => seq!['{'] + join(compact_entries(es), seq![',']) + seq!['}'],
    }
}

/// The compact text of each element.
pub open spec fn compact_items(xs: Seq<Json>) -> Seq<Seq<char>>
    decreases xs,
{
    Seq::new(xs.len(), |i: int| if 0 <= i < xs.len() { compact(xs[i]) } else { Seq::empty() })
}

/// The compact text of each entry: quoted key, `:`, value.
pub open spec fn compact_entries(es: Seq<(Seq<char>, Json)>) -> Seq<Seq<char>>
    decreases es,
{
    Seq::new(
        es.len(),
        |i: int|
            if 0 <= i < es.len() {
                quoted(es[i].0) + seq![':'] + compact(es[i].1)
            } else {
                Seq::empty()
            },
    )
}

/// Pretty JSON text of a value whose lines start with `pad`: one element or
/// entry per line, indented by two more spaces than the enclosing value,
/// `": "` after each key, and `[]` or `{}` for an empty sequence or mapping.
pub open spec fn pretty_at(v: Json, pad: Seq<char>) -> Seq<char>
    decreases v,
{
    match v {
        Json::Array(xs) => if xs.len() == 0 {
            seq!['[', ']']
        } else {
            seq!['[', '\n'] + join(pretty_items(xs, pad + seq![' ', ' ']), seq![',', '\n'])
                + seq!['\n'] + pad + seq![']']
        },
        Json::Object(es) => if es.len() == 0 {
            seq!['{', '}']
        } else {
            seq!['{', '\n'] + join(pretty_entries(es, pad + seq![' ', ' ']), seq![',', '\n'])
                + seq!['\n'] + pad + seq!['}']
        },
        _ => compact(v),
    }
}

/// Each element on its own line, behind `pad`.
pub open spec fn pretty_items(xs: Seq<Json>, pad: Seq<char>) -> Seq<Seq<char>>
    decreases xs,
{
    Seq::new(
        xs.len(),
        |i: int| if 0 <= i < xs.len() { pad + pretty_at(xs[i], pad) } else { Seq::empty() },
    )
}

/// Each entry on its own line, behind `pad`.
pub open spec fn pretty_entries(es: Seq<(Seq<char>, Json)>, pad: Seq<char>) -> Seq<Seq<char>>
    decreases es,
{
    Seq::new(
        es.len(),
        |i: int|
            if 0 <= i < es.len() {
                pad + quoted(es[i].0) + seq![':', ' '] + pretty_at(es[i].1, pad)
            } else {
                Seq::empty()
            },
    )
}

/// Pretty JSON text of a top-level value.
pub open spec fn pretty(v: Json) -> Seq<char> {
    pretty_at(v, Seq::empty())
}

/// Adding one more part to a joined sequence appends the separator and the part.
pub proof fn lemma_join_step(parts: Seq<Seq<char>>, sep: Seq<char>, i: int)
    requires
        0 <= i < parts.len(),
    ensures
        join(parts.take(i + 1), sep) == if i == 0 {
            parts[0]
        } else {
            join(parts.take(i), sep) + sep + parts[i]
        },
{
    assert(parts.take(i + 1).drop_last() =~= parts.take(i));
}

pub(crate) fn digit_char(d: u64) -> (c: char)
    requires
        d < 10,
    ensures
        c == digit(d as nat),
{
    match d {
        0 => '0',
        1 => '1',
        2 => '2',
        3 => '3',
        4 => '4',
        5 => '5',
        6 => '6',
        7 => '7',
        8 => '8',
        _ => '9',
    }
}

/// Appends the decimal notation of `n`.
pub fn write_nat(n: u64, out: &mut String)
    ensures
        final(out)@ == old(out)@ + nat_text(n as nat),
    decreases n,
{
    if n < 10 {
        push_char(out, digit_char(n));
    } else {
        write_nat(n / 10, out);
        push_char(out, digit_char(n % 10));
    }
}

/// Appends the decimal notation of `i`.
pub fn write_int(i: i64, out: &mut String)
    ensures
        final(out)@ == old(out)@ + int_text(i as int),
{
    if i < 0 {
        push_char(out, '-');
        let m: i128 = -(i as i128);
        write_nat(m as u64, out);
    } else {
        write_nat(i as u64, out);
    }
}

/// Relies on `serde_json::to_string` applied to a `str`: it writes the string
/// between double quotes, escaping `"` and `\\`, the control characters
/// backspace, tab, newline, form feed and carriage return by their short forms,
/// and every other character below U+0020 as `\\u00` and two lowercase hex
/// digits. Serialising a `str` into memory cannot fail.
#[verifier::external_body]
fn quote_str(s: &str) -> (r: String)
    ensures
        r@ == quoted(s@),
{
    match serde_json::to_string(s) {
        Ok(t) => t,
        Err(_) => String::new(),
    }
}

/// Appends the JSON string literal of `s`.
pub fn write_quoted(s: &str, out: &mut String)
    ensures
        final(out)@ == old(out)@ + quoted(s@),
{
    let q = quote_str(s);
    push_all(out, q.as_str());
}

/// Appends the compact JSON text of `v`.
pub fn write_compact(v: &JsonValue, out: &mut String)
    ensures
        final(out)@ == old(out)@ + compact(v@),
        numbers_valid(v@),
    decreases v,
{
    match v {
        JsonValue::Null => {
            push_all(out, "null");
            proof { reveal_strlit("null"); }
            assert(compact(v@) =~= "null"@);
        },
        JsonValue::Bool(b) => {
            if *b {
                push_all(out, "true");
                proof { reveal_strlit("true"); }
                assert(compact(v@) =~= "true"@);
            } else {
                push_all(out, "false");
                proof { reveal_strlit("false"); }
                assert(compact(v@) =~= "false"@);
            }
        },
        JsonValue::Number(n) => {
            proof { use_type_invariant(n); }
            push_all(out, n.as_str());
        },
        JsonValue::String(t) => {
            write_quoted(t.as_str(), out);
        },
        JsonValue::Array(xs) => {
            let ghost start = out@;
            let ghost parts = compact_items(v@->Array_0);
            push_char(out, '[');
            let mut i: usize = 0;
            while i < xs.len()
                invariant
                    parts == compact_items(v@->Array_0),
                    v@->Array_0.len() == xs@.len(),
                    forall|k: int| 0 <= k < xs@.len() ==> #[trigger] v@->Array_0[k] == xs@[k]@,
                    forall|k: int| 0 <= k < xs@.len() ==> decreases_to!(*v => #[trigger] xs@[k]),
                    i <= xs@.len(),
                    out@ == start + seq!['['] + join(parts.take(i as int), seq![',']),
                    forall|k: int| 0 <= k < i ==> numbers_valid(#[trigger] xs@[k]@),
                decreases xs@.len() - i,
            {
                proof { lemma_join_step(parts, seq![','], i as int); }
                if i > 0 {
                    push_char(out, ',');
                }
                write_compact(&xs[i], out);
                i = i + 1;
            }
            push_char(out, ']');
            assert(parts.take(xs@.len() as int) =~= parts);
            assert forall|k: int| 0 <= k < v@->Array_0.len() implies numbers_valid(#[trigger] v@->Array_0[k]) by {
                assert(v@->Array_0[k] == xs@[k]@);
            }
        },
        JsonValue::Object(es) => {
            let ghost start = out@;
            let ghost parts = compact_entries(v@->Object_0);
            push_char(out, '{');
            let mut i: usize = 0;
            while i < es.len()
                invariant
                    parts == compact_entries(v@->Object_0),
                    v@->Object_0.len() == es@.len(),
                    forall|k: int| 0 <= k < es@.len() ==> #[trigger] v@->Object_0[k] == (es@[k].0@, es@[k].1@),
                    forall|k: int| 0 <= k < es@.len() ==> decreases_to!(*v => #[trigger] es@[k].1),
                    i <= es@.len(),
                    out@ == start + seq!['{'] + join(parts.take(i as int), seq![',']),
                    forall|k: int| 0 <= k < i ==> numbers_valid(#[trigger] es@[k].1@),
                decreases es@.len() - i,
            {
                proof { lemma_join_step(parts, seq![','], i as int); }
                let ghost before = out@;
                if i > 0 {
                    push_char(out, ',');
                }
                write_quoted(es[i].0.as_str(), out);
                push_char(out, ':');
                write_compact(&es[i].1, out);
                assert(out@ =~= before + (if i > 0 { seq![','] } else { Seq::empty() }) + parts[i as int]);
                i = i + 1;
            }
            push_char(out, '}');
            assert(parts.take(es@.len() as int) =~= parts);
            assert forall|k: int| 0 <= k < v@->Object_0.len() implies numbers_valid(#[trigger] v@->Object_0[k].1) by {
                assert(v@->Object_0[k] == (es@[k].0@, es@[k].1@));
            }
        },
    }
}

/// Appends the pretty JSON text of `v`, whose lines start with `pad`.
pub fn write_pretty(v: &JsonValue, pad: &String, out: &mut String)
    ensures
        final(out)@ == old(out)@ + pretty_at(v@, pad@),
    decreases v,
{
    match v {
        JsonValue::Array(xs) => {
            if xs.len() == 0 {
                push_all(out, "[]");
                proof { reveal_strlit("[]"); }
                assert(pretty_at(v@, pad@) =~= "[]"@);
                return;
            }
            let ghost start = out@;
            let mut inner = pad.clone();
            push_all(&mut inner, "  ");
            proof { reveal_strlit("  "); }
            assert(inner@ =~= pad@ + seq![' ', ' ']);
            let ghost parts = pretty_items(v@->Array_0, inner@);
            push_all(out, "[\n");
            proof { reveal_strlit("[\n"); }
            assert(out@ =~= start + seq!['[', '\n']);
            let mut i: usize = 0;
            while i < xs.len()
                invariant
                    parts == pretty_items(v@->Array_0, inner@),
                    v@->Array_0.len() == xs@.len(),
                    forall|k: int| 0 <= k < xs@.len() ==> #[trigger] v@->Array_0[k] == xs@[k]@,
                    forall|k: int| 0 <= k < xs@.len() ==> decreases_to!(*v => #[trigger] xs@[k]),
                    i <= xs@.len(),
                    out@ == start + seq!['[', '\n'] + join(parts.take(i as int), seq![',', '\n']),
                decreases xs@.len() - i,
            {
                proof { lemma_join_step(parts, seq![',', '\n'], i as int); }
                let ghost before = out@;
                if i > 0 {
                    push_char(out, ',');
                    push_char(out, '\n');
                }
                push_all(out, inner.as_str());
                write_pretty(&xs[i], &inner, out);
                assert(out@ =~= before + (if i > 0 { seq![',', '\n'] } else { Seq::empty() }) + parts[i as int]);
                i = i + 1;
            }
            assert(parts.take(xs@.len() as int) =~= parts);
            push_char(out, '\n');
            push_all(out, pad.as_str());
            push_char(out, ']');
        },
        JsonValue::Object(es) => {
            if es.len() == 0 {
                push_all(out, "{}");
                proof { reveal_strlit("{}"); }
                assert(pretty_at(v@, pad@) =~= "{}"@);
                return;
            }
            let ghost start = out@;
            let mut inner = pad.clone();
            push_all(&mut inner, "  ");
            proof { reveal_strlit("  "); }
            assert(inner@ =~= pad@ + seq![' ', ' ']);
            let ghost parts = pretty_entries(v@->Object_0, inner@);
            push_all(out, "{\n");
            proof { reveal_strlit("{\n"); }
            assert(out@ =~= start + seq!['{', '\n']);
            let mut i: usize = 0;
            while i < es.len()
                invariant
                    parts == pretty_entries(v@->Object_0, inner@),
                    v@->Object_0.len() == es@.len(),
                    forall|k: int| 0 <= k < es@.len() ==> #[trigger] v@->Object_0[k] == (es@[k].0@, es@[k].1@),
                    forall|k: int| 0 <= k < es@.len() ==> decreases_to!(*v => #[trigger] es@[k].1),
                    i <= es@.len(),
                    out@ == start + seq!['{', '\n'] + join(parts.take(i as int), seq![',', '\n']),
                decreases es@.len() - i,
            {
                proof { lemma_join_step(parts, seq![',', '\n'], i as int); }
                let ghost before = out@;
                if i > 0 {
                    push_char(out, ',');
                    push_char(out, '\n');
                }
                push_all(out, inner.as_str());
                write_quoted(es[i].0.as_str(), out);
                push_char(out, ':');
                push_char(out, ' ');
                write_pretty(&es[i].1, &inner, out);
                assert(out@ =~= before + (if i > 0 { seq![',', '\n'] } else { Seq::empty() }) + parts[i as int]);
                i = i + 1;
            }
            assert(parts.take(es@.len() as int) =~= parts);
            push_char(out, '\n');
            push_all(out, pad.as_str());
            push_char(out, '}');
        },
        _ => {
            write_compact(v, out);
        },
    }
}

impl JsonValue {
    /// The compact JSON text of this value.
    pub fn to_compact_string(&self) -> (r: String)
        ensures
            r@ == compact(self@),
            numbers_valid(self@),
    {
        let mut out = String::new();
        write_compact(self, &mut out);
        assert(out@ =~= compact(self@));
        out
    }

    /// The pretty JSON text of this value.
    pub fn to_pretty_string(&self) -> (r: String)
        ensures
            r@ == pretty(self@),
    {
        let mut out = String::new();
        let pad = String::new();
        write_pretty(self, &pad, &mut out);
        assert(out@ =~= pretty(self@));
        out
    }

    /// A copy of this value.
    pub fn duplicate(&self) -> (r: JsonValue)
        ensures
            r@ == self@,
        decreases self,
    {
        match self {
            JsonValue::Null => JsonValue::Null,
            JsonValue::Bool(b) => JsonValue::Bool(*b),
            JsonValue::Number(n) => JsonValue::Number(n.duplicate()),
            JsonValue::String(t) => JsonValue::String(t.clone()),
            JsonValue::Array(xs) => {
                let mut ys: Vec<JsonValue> = Vec::new();
                let mut i: usize = 0;
                while i < xs.len()
                    invariant
                        i <= xs@.len(),
                        ys@.len() == i,
                        forall|k: int| 0 <= k < xs@.len() ==> decreases_to!(*self => #[trigger] xs@[k]),
                        forall|k: int| 0 <= k < i ==> #[trigger] ys@[k]@ == xs@[k]@,
                    decreases xs@.len() - i,
                {
                    ys.push(xs[i].duplicate());
                    i = i + 1;
                }
                let r = JsonValue::Array(ys);
                assert forall|k: int| 0 <= k < xs@.len() implies r@->Array_0[k] == self@->Array_0[k] by {
                    assert(ys@[k]@ == xs@[k]@);
                }
                assert(r@->Array_0 =~= self@->Array_0);
                r
            },
            JsonValue::Object(es) => {
                let mut ys: Vec<(String, JsonValue)> = Vec::new();
                let mut i: usize = 0;
                while i < es.len()
                    invariant
                        i <= es@.len(),
                        ys@.len() == i,
                        forall|k: int| 0 <= k < es@.len() ==> decreases_to!(*self => #[trigger] es@[k].1),
                        forall|k: int| 0 <= k < i ==> #[trigger] ys@[k].0@ == es@[k].0@ && ys@[k].1@ == es@[k].1@,
                    decreases es@.len() - i,
                {
                    ys.push((es[i].0.clone(), es[i].1.duplicate()));
                    i = i + 1;
                }
                let r = JsonValue::Object(ys);
                assert(r@->Object_0 =~= self@->Object_0);
                r
            },
        }
    }
}

impl Clone for JsonValue {
    fn clone(&self) -> (r: Self)
        ensures
            r@ == self@,
    {
        self.duplicate()
    }
}

} // verus!
