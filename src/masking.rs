//! The masking engine: redacts string values in mappings whose key matches a rule.
use vstd::prelude::*;
use crate::json::{Json, JsonValue};
use crate::text::{contains_seq, contains_str, same_text};
use crate::types::{copy_strings, MaskingConfig};

verus! {

/// `regex::Regex::new` accepts the pattern `p`.
pub uninterp spec fn regex_compiles(p: Seq<char>) -> bool;

/// The regular expression `p` matches somewhere in `text`.
pub uninterp spec fn regex_finds(p: Seq<char>, text: Seq<char>) -> bool;

#[verifier::external_type_specification]
#[verifier::external_body]
pub struct ExRegex(regex::Regex);

/// A compiled regular expression together with the pattern it was compiled from.
pub struct Pattern {
    source: String,
    compiled: regex::Regex,
}

impl View for Pattern {
    type V = Seq<char>;

    /// The pattern text.
    closed spec fn view(&self) -> Seq<char> {
        self.source@
    }
}

/// Relies on `regex::Regex::new`: it returns `Ok` exactly for the patterns it
/// accepts; the compiled value is kept beside its source text.
#[verifier::external_body]
fn compile_pattern(p: &String) -> (r: Option<Pattern>)
    ensures
        r is Some <==> regex_compiles(p@),
        r matches Some(c) ==> c@ == p@,
{
    match regex::Regex::new(p.as_str()) {
        Ok(re) => Some(Pattern { source: p.clone(), compiled: re }),
        Err(_) => None,
    }
}

/// Relies on `regex::Regex::is_match`: whether the pattern matches anywhere in `text`.
#[verifier::external_body]
fn pattern_finds(p: &Pattern, text: &str) -> (r: bool)
    ensures
        r == regex_finds(p@, text@),
{
    p.compiled.is_match(text)
}

impl Pattern {
    /// Compiles `p`; `None` when the pattern is malformed.
    pub fn compile(p: &String) -> (r: Option<Pattern>)
        ensures
            r is Some <==> regex_compiles(p@),
            r matches Some(c) ==> c@ == p@,
    {
        compile_pattern(p)
    }

    /// Does the pattern match somewhere in `text`?
    pub fn finds(&self, text: &str) -> (r: bool)
        ensures
            r == regex_finds(self@, text@),
    {
        pattern_finds(self, text)
    }
}

/// The model of a rule set: exact key names, key substrings, key patterns and
/// the replacement text.
pub struct RuleSpec {
    pub exact: Seq<Seq<char>>,
    pub partial: Seq<Seq<char>>,
    pub regex: Seq<Seq<char>>,
    pub keyword: Seq<char>,
}

/// A set of masking rules.
pub struct MaskRule {
    pub exact: Vec<String>,
    pub partial: Vec<String>,
    pub regex: Vec<Pattern>,
    pub keyword: String,
}

impl View for MaskRule {
    type V = RuleSpec;

    open spec fn view(&self) -> RuleSpec {
        RuleSpec {
            exact: self.exact.deep_view(),
            partial: self.partial.deep_view(),
            regex: Seq::new(self.regex@.len(), |i: int| self.regex@[i]@),
            keyword: self.keyword@,
        }
    }
}

/// The key equals one of the exact names.
pub open spec fn exact_hit(r: RuleSpec, key: Seq<char>) -> bool {
    exists|i: int| 0 <= i < r.exact.len() && r.exact[i] == key
}

/// The key contains one of the substrings.
pub open spec fn partial_hit(r: RuleSpec, key: Seq<char>) -> bool {
    exists|i: int| 0 <= i < r.partial.len() && contains_seq(key, r.partial[i])
}

/// One of the patterns matches the key.
pub open spec fn regex_hit(r: RuleSpec, key: Seq<char>) -> bool {
    exists|i: int| 0 <= i < r.regex.len() && regex_finds(r.regex[i], key)
}

/// A string stored under `key` is redacted.
pub open spec fn key_masked(r: RuleSpec, key: Seq<char>) -> bool {
    exact_hit(r, key) || partial_hit(r, key) || regex_hit(r, key)
}

/// The string stored under `key` after masking.
pub open spec fn mask_text(r: RuleSpec, key: Seq<char>, value: Seq<char>) -> Seq<char> {
    if key_masked(r, key) {
        r.keyword
    } else {
        value
    }
}

/// A value after masking: in a mapping, a string value is replaced by the
/// keyword when its key is masked and any other value is masked recursively;
/// the elements of a sequence are masked; every other value (a string outside
/// a mapping included) is kept.
pub open spec fn mask_json(r: RuleSpec, v: Json) -> Json
    decreases v,
{
    match v {
        Json::Object(es) => Json::Object(mask_entries(r, es)),
        Json::Array(xs) => Json::Array(mask_items(r, xs)),
        _ => v,
    }
}

pub open spec fn mask_entries(r: RuleSpec, es: Seq<(Seq<char>, Json)>) -> Seq<(Seq<char>, Json)>
    decreases es,
{
    Seq::new(
        es.len(),
        |i: int|
            if 0 <= i < es.len() {
                match es[i].1 {
                    Json::Str(s) => (es[i].0, Json::Str(mask_text(r, es[i].0, s))),
                    _ => (es[i].0, mask_json(r, es[i].1)),
                }
            } else {
                es[0]
            },
    )
}

pub open spec fn mask_items(r: RuleSpec, xs: Seq<Json>) -> Seq<Json>
    decreases xs,
{
    Seq::new(xs.len(), |i: int| if 0 <= i < xs.len() { mask_json(r, xs[i]) } else { Json::Null })
}

/// A mapping whose string values are masked and whose other values are kept.
pub open spec fn mask_shallow(r: RuleSpec, es: Seq<(Seq<char>, Json)>) -> Seq<(Seq<char>, Json)> {
    es.map_values(
        |e: (Seq<char>, Json)|
            match e.1 {
                Json::Str(s) => (e.0, Json::Str(mask_text(r, e.0, s))),
                _ => e,
            },
    )
}

/// The model of an ordered mapping.
pub open spec fn entries_view(es: Seq<(String, JsonValue)>) -> Seq<(Seq<char>, Json)> {
    es.map_values(|e: (String, JsonValue)| (e.0@, e.1@))
}

/// Masking twice with the same rules gives what masking once gives.
pub proof fn lemma_mask_idempotent(r: RuleSpec, v: Json)
    ensures
        mask_json(r, mask_json(r, v)) == mask_json(r, v),
    decreases v,
{
    match v {
        Json::Object(es) => {
            let once = mask_entries(r, es);
            let twice = mask_entries(r, once);
            assert forall|i: int| 0 <= i < es.len() implies twice[i] == once[i] by {
                match es[i].1 {
                    Json::Str(s) => {},
                    _ => {
                        lemma_mask_idempotent(r, es[i].1);
                        match mask_json(r, es[i].1) {
                            Json::Str(_) => {},
                            _ => {},
                        }
                    },
                }
            }
            assert(twice =~= once);
        },
        Json::Array(xs) => {
            let once = mask_items(r, xs);
            let twice = mask_items(r, once);
            assert forall|i: int| 0 <= i < xs.len() implies twice[i] == once[i] by {
                lemma_mask_idempotent(r, xs[i]);
            }
            assert(twice =~= once);
        },
        _ => {},
    }
}

/// The text that replaces masked values when none is configured.
pub open spec fn default_keyword() -> Seq<char> {
    seq!['[', 'M', 'A', 'S', 'K', 'E', 'D', ']']
}

/// The rules derived from `cfg`: absent lists are empty, malformed patterns
/// are dropped, and the keyword defaults to [`default_keyword`].
pub open spec fn rules_from(cfg: crate::types::MaskingSpec) -> RuleSpec {
    RuleSpec {
        exact: match cfg.exact { Some(v) => v, None => Seq::empty() },
        partial: match cfg.partial { Some(v) => v, None => Seq::empty() },
        regex: match cfg.regex {
            Some(v) => v.filter(|p: Seq<char>| regex_compiles(p)),
            None => Seq::empty(),
        },
        keyword: match cfg.keyword { Some(k) => k, None => default_keyword() },
    }
}

fn compile_all(ps: &Vec<String>) -> (r: Vec<Pattern>)
    ensures
        Seq::new(r@.len(), |i: int| r@[i]@) == ps.deep_view().filter(|p: Seq<char>| regex_compiles(p)),
{
    let ghost f = |p: Seq<char>| regex_compiles(p);
    let mut r: Vec<Pattern> = Vec::new();
    let mut i: usize = 0;
    while i < ps.len()
        invariant
            i <= ps@.len(),
            f == (|p: Seq<char>| regex_compiles(p)),
            Seq::new(r@.len(), |k: int| r@[k]@) == ps.deep_view().take(i as int).filter(f),
        decreases ps@.len() - i,
    {
        let ghost before = Seq::new(r@.len(), |k: int| r@[k]@);
        proof {
            let t = ps.deep_view().take(i as int + 1);
            assert(t.drop_last() =~= ps.deep_view().take(i as int));
            assert(t.last() == ps@[i as int]@);
            reveal(Seq::filter);
        }
        match Pattern::compile(&ps[i]) {
            Some(c) => {
                r.push(c);
                assert(Seq::new(r@.len(), |k: int| r@[k]@) =~= before.push(ps@[i as int]@));
            },
            None => {
                assert(Seq::new(r@.len(), |k: int| r@[k]@) =~= before);
            },
        }
        i = i + 1;
    }
    assert(ps.deep_view().take(ps@.len() as int) =~= ps.deep_view());
    r
}

/// Is any of `names` equal to `key`?
fn any_equal(names: &Vec<String>, key: &str) -> (r: bool)
    ensures
        r == exists|i: int| 0 <= i < names@.len() && names@[i]@ == key@,
{
    let mut i: usize = 0;
    while i < names.len()
        invariant
            i <= names@.len(),
            forall|k: int| 0 <= k < i ==> names@[k]@ != key@,
        decreases names@.len() - i,
    {
        if same_text(names[i].as_str(), key) {
            return true;
        }
        i = i + 1;
    }
    false
}

/// Does `key` contain any of `parts`?
fn any_contained(parts: &Vec<String>, key: &str) -> (r: bool)
    ensures
        r == exists|i: int| 0 <= i < parts@.len() && contains_seq(key@, parts@[i]@),
{
    let mut i: usize = 0;
    while i < parts.len()
        invariant
            i <= parts@.len(),
            forall|k: int| 0 <= k < i ==> !contains_seq(key@, parts@[k]@),
        decreases parts@.len() - i,
    {
        if contains_str(key, parts[i].as_str()) {
            return true;
        }
        i = i + 1;
    }
    false
}

/// Does any of `patterns` match `key`?
fn any_finds(patterns: &Vec<Pattern>, key: &str) -> (r: bool)
    ensures
        r == exists|i: int| 0 <= i < patterns@.len() && regex_finds(patterns@[i]@, key@),
{
    let mut i: usize = 0;
    while i < patterns.len()
        invariant
            i <= patterns@.len(),
            forall|k: int| 0 <= k < i ==> !regex_finds(patterns@[k]@, key@),
        decreases patterns@.len() - i,
    {
        if patterns[i].finds(key) {
            return true;
        }
        i = i + 1;
    }
    false
}

impl MaskRule {
    /// An empty rule set with an empty keyword: it masks nothing.
    pub fn new() -> (r: MaskRule)
        ensures
            r@.exact.len() == 0,
            r@.partial.len() == 0,
            r@.regex.len() == 0,
            r@.keyword.len() == 0,
    {
        let r = MaskRule { exact: Vec::new(), partial: Vec::new(), regex: Vec::new(), keyword: String::new() };
        assert(r@.exact =~= Seq::empty());
        assert(r@.partial =~= Seq::empty());
        r
    }

    /// The rules that `cfg` describes; malformed patterns are left out.
    pub fn from_config(cfg: &MaskingConfig) -> (r: MaskRule)
        ensures
            r@ == rules_from(cfg@),
    {
        let exact = match &cfg.exact {
            Some(v) => copy_strings(v),
            None => Vec::new(),
        };
        let partial = match &cfg.partial {
            Some(v) => copy_strings(v),
            None => Vec::new(),
        };
        let regex = match &cfg.regex {
            Some(v) => compile_all(v),
            None => Vec::new(),
        };
        let keyword = match &cfg.keyword {
            Some(k) => k.clone(),
            None => {
                proof { reveal_strlit("[MASKED]"); }
                String::from_str("[MASKED]")
            },
        };
        let r = MaskRule { exact, partial, regex, keyword };
        assert(r@.exact =~= rules_from(cfg@).exact);
        assert(r@.partial =~= rules_from(cfg@).partial);
        assert(r@.regex =~= rules_from(cfg@).regex);
        assert(r@.keyword =~= rules_from(cfg@).keyword);
        r
    }

    /// Is a string stored under `key` redacted? Exact names are tested first,
    /// then substrings, then patterns.
    pub fn is_masked_key(&self, key: &str) -> (r: bool)
        ensures
            r == key_masked(self@, key@),
    {
        proof {
            assert forall|i: int| 0 <= i < self.exact@.len() implies #[trigger] self@.exact[i] == self.exact@[i]@ by {}
            assert forall|i: int| 0 <= i < self.partial@.len() implies #[trigger] self@.partial[i] == self.partial@[i]@ by {}
            assert forall|i: int| 0 <= i < self.regex@.len() implies #[trigger] self@.regex[i] == self.regex@[i]@ by {}
        }
        if any_equal(&self.exact, key) {
            proof {
                let i = choose|i: int| 0 <= i < self.exact@.len() && self.exact@[i]@ == key@;
                assert(self@.exact[i] == key@);
            }
            return true;
        }
        if any_contained(&self.partial, key) {
            proof {
                let i = choose|i: int| 0 <= i < self.partial@.len() && contains_seq(key@, self.partial@[i]@);
                assert(contains_seq(key@, self@.partial[i]));
            }
            return true;
        }
        let r = any_finds(&self.regex, key);
        proof {
            if r {
                let i = choose|i: int| 0 <= i < self.regex@.len() && regex_finds(self.regex@[i]@, key@);
                assert(regex_finds(self@.regex[i], key@));
            }
        }
        r
    }

    /// The string `value` stored under `key`, after masking.
    pub fn mask_value(&self, key: &str, value: &str) -> (r: String)
        ensures
            r@ == mask_text(self@, key@, value@),
    {
        if self.is_masked_key(key) {
            self.keyword.clone()
        } else {
            value.to_owned()
        }
    }

    /// A mapping whose string values are masked and whose other values are
    /// kept as they are (not descended into).
    pub fn mask_map(&self, map: &Vec<(String, JsonValue)>) -> (r: Vec<(String, JsonValue)>)
        ensures
            entries_view(r@) == mask_shallow(self@, entries_view(map@)),
    {
        let mut out: Vec<(String, JsonValue)> = Vec::new();
        let mut i: usize = 0;
        while i < map.len()
            invariant
                i <= map@.len(),
                out@.len() == i,
                forall|k: int| 0 <= k < i ==> (#[trigger] out@[k].0@, out@[k].1@) == mask_shallow(self@, entries_view(map@))[k],
            decreases map@.len() - i,
        {
            let key = map[i].0.clone();
            let v = match &map[i].1 {
                JsonValue::String(s) => JsonValue::String(self.mask_value(key.as_str(), s.as_str())),
                other => other.duplicate(),
            };
            out.push((key, v));
            proof {
                assert(entries_view(map@)[i as int] == (map@[i as int].0@, map@[i as int].1@));
            }
            i = i + 1;
        }
        assert forall|k: int| 0 <= k < map@.len() implies entries_view(out@)[k] == mask_shallow(self@, entries_view(map@))[k] by {
            assert((out@[k].0@, out@[k].1@) == mask_shallow(self@, entries_view(map@))[k]);
        }
        assert(entries_view(out@) =~= mask_shallow(self@, entries_view(map@)));
        out
    }

    /// The value after masking, as [`mask_json`] states.
    pub fn mask(&self, value: &JsonValue) -> (r: JsonValue)
        ensures
            r@ == mask_json(self@, value@),
        decreases value,
    {
        match value {
            JsonValue::Object(es) => {
                let mut out: Vec<(String, JsonValue)> = Vec::new();
                let mut i: usize = 0;
                while i < es.len()
                    invariant
                        i <= es@.len(),
                        out@.len() == i,
                        value@->Object_0.len() == es@.len(),
                        forall|k: int| 0 <= k < es@.len() ==> #[trigger] value@->Object_0[k] == (es@[k].0@, es@[k].1@),
                        forall|k: int| 0 <= k < es@.len() ==> decreases_to!(*value => #[trigger] es@[k].1),
                        forall|k: int| 0 <= k < i ==> (#[trigger] out@[k].0@, out@[k].1@) == mask_entries(self@, value@->Object_0)[k],
                    decreases es@.len() - i,
                {
                    let key = es[i].0.clone();
                    let v = match &es[i].1 {
                        JsonValue::String(s) => JsonValue::String(self.mask_value(key.as_str(), s.as_str())),
                        other => self.mask(other),
                    };
                    out.push((key, v));
                    i = i + 1;
                }
                let r = JsonValue::Object(out);
                assert forall|k: int| 0 <= k < es@.len() implies r@->Object_0[k] == mask_json(self@, value@)->Object_0[k] by {
                    assert((out@[k].0@, out@[k].1@) == mask_entries(self@, value@->Object_0)[k]);
                }
                assert(r@->Object_0 =~= mask_json(self@, value@)->Object_0);
                r
            },
            JsonValue::Array(xs) => {
                let mut out: Vec<JsonValue> = Vec::new();
                let mut i: usize = 0;
                while i < xs.len()
                    invariant
                        i <= xs@.len(),
                        out@.len() == i,
                        value@->Array_0.len() == xs@.len(),
                        forall|k: int| 0 <= k < xs@.len() ==> #[trigger] value@->Array_0[k] == xs@[k]@,
                        forall|k: int| 0 <= k < xs@.len() ==> decreases_to!(*value => #[trigger] xs@[k]),
                        forall|k: int| 0 <= k < i ==> #[trigger] out@[k]@ == mask_json(self@, xs@[k]@),
                    decreases xs@.len() - i,
                {
                    out.push(self.mask(&xs[i]));
                    i = i + 1;
                }
                let r = JsonValue::Array(out);
                assert forall|k: int| 0 <= k < xs@.len() implies r@->Array_0[k] == mask_json(self@, value@)->Array_0[k] by {
                    assert(out@[k]@ == mask_json(self@, xs@[k]@));
                }
                assert(r@->Array_0 =~= mask_json(self@, value@)->Array_0);
                r
            },
            _ => value.duplicate(),
        }
    }
}

} // verus!
