//! Configuration of a generated project: defaults, and overrides of its JSON
//! form by keys in which `-` separates the levels (`core-timeout`).

use vstd::prelude::*;
use vstd::string::*;
use crate::json::{JsonValue, Json, entries_model, find_key, insert_member, lemma_entries_lookup,
    lemma_entries_push, lemma_entries_update_last};
use crate::text::{split_first, lemma_split_first, chars_of, string_from_chars, split_once, append_str, append_chars,
    insert_sorted, strictly_sorted, sorted_seq, lemma_sorted_seq_of};
use crate::template::startup::{override_env_key, override_env_key_text};

verus! {

broadcast use vstd::string::group_string_axioms;

/// The configuration of a generated project.
pub struct Config {
    pub admin_token: Option<String>,
    pub core: CoreConfig,
    pub debug: bool,
    pub dry_run: bool,
}

/// The `core` section of the configuration.
pub struct CoreConfig {
    pub timeout: String,
    pub retries: i32,
}

/// The timeout that `core` has by default.
pub const DEFAULT_CORE_TIMEOUT: &'static str = "2m";

/// The number of retries that `core` has by default.
pub const DEFAULT_CORE_RETRIES: i32 = 3;

/// The default timeout, `2m`.
pub fn default_core_timeout() -> (r: String)
    ensures
        r@ == DEFAULT_CORE_TIMEOUT@,
{
    DEFAULT_CORE_TIMEOUT.to_string()
}

/// The default number of retries, 3.
pub fn default_core_retries() -> (r: i32)
    ensures
        r == DEFAULT_CORE_RETRIES,
        r == 3,
{
    DEFAULT_CORE_RETRIES
}

impl Default for CoreConfig {
    /// The default `core` section: timeout `2m`, 3 retries.
    fn default() -> (c: Self)
        ensures
            c.timeout@ == DEFAULT_CORE_TIMEOUT@,
            c.retries == DEFAULT_CORE_RETRIES,
    {
        CoreConfig { timeout: default_core_timeout(), retries: default_core_retries() }
    }
}

impl Default for Config {
    /// The default configuration: no admin token, the default `core` section,
    /// debug and dry run off.
    fn default() -> (c: Self)
        ensures
            c.admin_token is None,
            c.core.timeout@ == DEFAULT_CORE_TIMEOUT@,
            c.core.retries == DEFAULT_CORE_RETRIES,
            !c.debug,
            !c.dry_run,
    {
        Config { admin_token: None, core: CoreConfig::default(), debug: false, dry_run: false }
    }
}

/// The configuration after overrides: the one read back from the overridden
/// document where it reads back as a configuration, else the configuration as
/// it was.
pub fn choose_config(old: Config, parsed: Option<Config>) -> (r: Config)
    ensures
        r == (match parsed { Some(c) => c, None => old }),
{
    match parsed {
        Some(c) => c,
        None => old,
    }
}

/// The document `v` with `val` set under `path`, where `-` separates the levels:
/// a member named by the whole `path` is set directly; otherwise the first
/// segment is followed (created as an empty object where missing) and the rest
/// set there. A value that is not an object is left as it is.
pub open spec fn json_set_path(v: Json, path: Seq<char>, val: Json) -> Json
    decreases path.len(),
{
    match v {
        Json::Object(m) => match split_first(path, '-') {
            Some((first, rest)) => {
                proof { lemma_split_first(path, '-'); }
                if m.contains_key(path) {
                    Json::Object(m.insert(path, val))
                } else {
                    let entry = if m.contains_key(first) { m[first] } else { Json::Object(Map::empty()) };
                    Json::Object(m.insert(first, json_set_path(entry, rest, val)))
                }
            },
            None => Json::Object(m.insert(path, val)),
        },
        _ => v,
    }
}

/// The value under `path` in `v`, where `-` separates the levels, looked up the
/// way `json_set_path` places it: a member named by the whole `path`, else the
/// member of the first segment, followed with the rest.
pub open spec fn json_get_path(v: Json, path: Seq<char>) -> Option<Json>
    decreases path.len(),
{
    match v {
        Json::Object(m) => if m.contains_key(path) {
            Some(m[path])
        } else {
            match split_first(path, '-') {
                Some((first, rest)) => {
                    proof { lemma_split_first(path, '-'); }
                    if m.contains_key(first) { json_get_path(m[first], rest) } else { None }
                },
                None => None,
            }
        },
        _ => None,
    }
}

/// Setting under `path` in `v` reaches its place: `v` is an object, and the walk
/// along `path` meets only objects or missing members.
pub open spec fn path_settable(v: Json, path: Seq<char>) -> bool
    decreases path.len(),
{
    match v {
        Json::Object(m) => m.contains_key(path) || match split_first(path, '-') {
            Some((first, rest)) => {
                proof { lemma_split_first(path, '-'); }
                !m.contains_key(first) || path_settable(m[first], rest)
            },
            None => true,
        },
        _ => false,
    }
}

/// Reading a path back after setting it gives the value that was set, wherever
/// the walk along the path meets only objects or missing members.
pub proof fn law_get_after_set_path(v: Json, path: Seq<char>, val: Json)
    requires
        path_settable(v, path),
    ensures
        json_get_path(json_set_path(v, path, val), path) == Some(val),
    decreases path.len(),
{
    lemma_split_first(path, '-');
    if let Json::Object(m) = v {
        if let Some((first, rest)) = split_first(path, '-') {
            if !m.contains_key(path) {
                let entry = if m.contains_key(first) { m[first] } else { Json::Object(Map::empty()) };
                law_get_after_set_path(entry, rest, val);
                assert(first != path);
            }
        }
    }
}

/// The member of a document that setting under `path` may change, besides a
/// member named by the whole path: the path's first segment.
pub open spec fn path_head(path: Seq<char>) -> Seq<char> {
    match split_first(path, '-') {
        Some((first, _)) => first,
        None => path,
    }
}

/// The path after its first segment (empty where it has one segment).
pub open spec fn path_rest(path: Seq<char>) -> Seq<char> {
    match split_first(path, '-') {
        Some((_, rest)) => rest,
        None => Seq::empty(),
    }
}

/// Setting under a path changes at most two members of an object: the one
/// named by the whole path and the one named by its first segment; every other
/// member stays as it was.
pub proof fn law_set_path_keeps_other_members(m: Map<Seq<char>, Json>, path: Seq<char>, val: Json)
    ensures
        json_set_path(Json::Object(m), path, val) matches Json::Object(m2)
            && m2.remove(path).remove(path_head(path)) == m.remove(path).remove(path_head(path)),
{
    lemma_split_first(path, '-');
    if let Json::Object(m2) = json_set_path(Json::Object(m), path, val) {
        assert(m2.remove(path).remove(path_head(path)) =~= m.remove(path).remove(path_head(path)));
    }
}

/// Where setting follows an existing object member, that member keeps all its
/// own members but the two the rest of the path may change.
pub proof fn law_set_path_keeps_nested_members(m: Map<Seq<char>, Json>, path: Seq<char>, val: Json)
    requires
        !m.contains_key(path),
        split_first(path, '-') is Some,
        m.contains_key(path_head(path)),
        m[path_head(path)] is Object,
    ensures
        ({
            let rest = path_rest(path);
            let inner = m[path_head(path)]->Object_0;
            json_set_path(Json::Object(m), path, val) matches Json::Object(m2) && {
                &&& m2.contains_key(path_head(path))
                &&& m2[path_head(path)] is Object
                &&& m2[path_head(path)]->Object_0.remove(rest).remove(path_head(rest))
                    == inner.remove(rest).remove(path_head(rest))
            }
        }),
{
    lemma_split_first(path, '-');
    let (first, rest) = split_first(path, '-')->0;
    let inner = m[first]->Object_0;
    law_set_path_keeps_other_members(inner, rest, val);
}

/// A document that is not an object is left as it is by setting under any path.
pub proof fn law_set_path_on_non_object(v: Json, path: Seq<char>, val: Json)
    requires
        !(v is Object),
    ensures
        json_set_path(v, path, val) == v,
{
}

/// Follows member `first` (created as an empty object where missing) and sets
/// `val` under `rest` there.
fn set_path_in_member(entries: &mut Vec<(String, JsonValue)>, first: String, rest: &str, val: JsonValue)
    ensures
        ({
            let m = entries_model(old(entries)@);
            let entry = if m.contains_key(first@) { m[first@] } else { Json::Object(Map::empty()) };
            entries_model(final(entries)@) == m.insert(first@, json_set_path(entry, rest@, val.model()))
        }),
    decreases rest@.len(), 1nat,
{
    proof { lemma_entries_lookup(entries@, first@); }
    match find_key(entries, &first) {
        Some(i) => {
            let ghost before = entries@;
            let (k, mut sub) = entries.remove(i);
            set_json_path(&mut sub, rest, val);
            entries.insert(i, (k, sub));
            proof {
                assert(entries@ =~= before.update(i as int, (k, sub)));
                lemma_entries_update_last(before, i as int, (k, sub));
            }
        },
        None => {
            let mut sub = JsonValue::Object(Vec::new());
            proof { assert(sub.model() == Json::Object(Map::empty())); }
            set_json_path(&mut sub, rest, val);
            proof { lemma_entries_push(entries@, (first, sub)); }
            entries.push((first, sub));
        },
    }
}

/// Sets `val` under `path` in `value`, where `-` separates the levels.
pub fn set_json_path(value: &mut JsonValue, path: &str, val: JsonValue)
    ensures
        final(value).model() == json_set_path(old(value).model(), path@, val.model()),
    decreases path@.len(), 0nat,
{
    let chars = chars_of(path);
    proof { lemma_split_first(path@, '-'); }
    if let JsonValue::Object(entries) = value {
        let whole = path.to_string();
        proof { lemma_entries_lookup(entries@, whole@); }
        match split_once(&chars, '-') {
            Some((first, rest)) => {
                if find_key(entries, &whole).is_none() {
                    let first = string_from_chars(&first);
                    let rest = string_from_chars(&rest);
                    set_path_in_member(entries, first, rest.as_str(), val);
                    return;
                }
                insert_member(entries, whole, val);
            },
            None => {
                insert_member(entries, whole, val);
            },
        }
    }
}


/// `c` is an ASCII digit.
pub open spec fn is_digit(c: char) -> bool {
    '0' <= c && c <= '9'
}

/// The value of a string of ASCII digits, read in base ten.
pub open spec fn digits_value(s: Seq<char>) -> int
    decreases s.len(),
{
    if s.len() == 0 {
        0
    } else {
        10 * digits_value(s.drop_last()) + (s.last() as int - '0' as int)
    }
}

/// `s` without its leading `+` or `-`, if it has one.
pub open spec fn unsigned_part(s: Seq<char>) -> Seq<char> {
    if s.len() > 0 && (s[0] == '-' || s[0] == '+') { s.skip(1) } else { s }
}

/// `d` is one or more ASCII digits.
pub open spec fn all_digits(d: Seq<char>) -> bool {
    d.len() > 0 && forall|i: int| 0 <= i < d.len() ==> is_digit(#[trigger] d[i])
}

/// The `i64` that `s` spells, as `str::parse::<i64>` reads it: an optional `+`
/// or `-`, then one or more ASCII digits, the value within the range of `i64`.
pub open spec fn decimal_i64(s: Seq<char>) -> Option<i64> {
    let neg = s.len() > 0 && s[0] == '-';
    let value = if neg { -digits_value(unsigned_part(s)) } else { digits_value(unsigned_part(s)) };
    if all_digits(unsigned_part(s)) && i64::MIN <= value <= i64::MAX {
        Some(value as i64)
    } else {
        None
    }
}

/// The character of decimal digit `d`.
pub open spec fn digit_char(d: int) -> char {
    if d == 0 { '0' } else if d == 1 { '1' } else if d == 2 { '2' } else if d == 3 { '3' }
    else if d == 4 { '4' } else if d == 5 { '5' } else if d == 6 { '6' } else if d == 7 { '7' }
    else if d == 8 { '8' } else { '9' }
}

/// The decimal digits of `n`, without leading zeros (`0` for zero).
pub open spec fn nat_text(n: nat) -> Seq<char>
    decreases n,
{
    if n < 10 {
        seq![digit_char(n as int)]
    } else {
        nat_text(n / 10).push(digit_char((n % 10) as int))
    }
}

/// The decimal text of `n`, as `i64`'s `Display` writes it.
pub open spec fn i64_text(n: i64) -> Seq<char> {
    if n < 0 { seq!['-'] + nat_text((-n) as nat) } else { nat_text(n as nat) }
}

/// A string of digits has a value of at least zero.
proof fn lemma_digits_value_nonneg(d: Seq<char>)
    requires
        forall|i: int| 0 <= i < d.len() ==> is_digit(#[trigger] d[i]),
    ensures
        digits_value(d) >= 0,
    decreases d.len(),
{
    if d.len() > 0 {
        lemma_digits_value_nonneg(d.drop_last());
    }
}

/// The value of a prefix of a string of digits is at most that of the string.
proof fn lemma_digits_value_prefix(d: Seq<char>, m: int)
    requires
        0 <= m <= d.len(),
        forall|i: int| 0 <= i < d.len() ==> is_digit(#[trigger] d[i]),
    ensures
        digits_value(d.take(m)) <= digits_value(d),
    decreases d.len() - m,
{
    if m < d.len() {
        lemma_digits_value_prefix(d, m + 1);
        assert(d.take(m + 1).drop_last() =~= d.take(m));
        assert(is_digit(d[m]));
        lemma_digits_value_nonneg(d.take(m));
    } else {
        assert(d.take(m) =~= d);
    }
}

/// The `i64` that `s` spells, if any, as `str::parse::<i64>` reads it.
fn parse_i64(s: &str) -> (r: Option<i64>)
    ensures
        r == decimal_i64(s@),
{
    let chars = chars_of(s);
    let n = chars.len();
    let neg = n > 0 && chars[0] == '-';
    let start: usize = if n > 0 && (chars[0] == '-' || chars[0] == '+') { 1 } else { 0 };
    let ghost d = unsigned_part(s@);
    assert(d =~= chars@.skip(start as int));
    if start >= n {
        return None;
    }
    let mut acc: u64 = 0;
    let mut k: usize = start;
    assert(d.take(0) =~= Seq::<char>::empty());
    while k < n
        invariant
            start <= k <= n,
            start < n,
            n == chars@.len(),
            chars@ == s@,
            d == chars@.skip(start as int),
            d == unsigned_part(s@),
            forall|j: int| 0 <= j < k - start ==> is_digit(#[trigger] d[j]),
            acc == digits_value(d.take(k - start)),
            acc <= 9223372036854775808u64,
        decreases n - k,
    {
        let c = chars[k];
        assert(d[k - start] == c);
        if !('0' <= c && c <= '9') {
            assert(!is_digit(d[k - start]));
            assert(!all_digits(d));
            return None;
        }
        let dv: u64 = (c as u32 - '0' as u32) as u64;
        assert(dv == c as int - '0' as int);
        assert(d.take(k - start + 1).drop_last() =~= d.take(k - start));
        assert(d.take(k - start + 1).last() == c);
        assert(digits_value(d.take(k - start + 1)) == 10 * acc + dv);
        if acc > 922337203685477580u64 || (acc == 922337203685477580u64 && dv > 8) {
            proof {
                if all_digits(d) {
                    lemma_digits_value_prefix(d, k - start + 1);
                    assert(digits_value(d) > 9223372036854775808);
                }
            }
            assert(decimal_i64(s@) is None);
            return None;
        }
        acc = acc * 10 + dv;
        k = k + 1;
    }
    assert(d.take(n - start) =~= d);
    if neg {
        if acc == 9223372036854775808u64 {
            Some(i64::MIN)
        } else {
            Some(-(acc as i64))
        }
    } else if acc > 9223372036854775807u64 {
        None
    } else {
        Some(acc as i64)
    }
}

/// The character of decimal digit `d`.
fn digit_of(d: u64) -> (c: char)
    requires
        d < 10,
    ensures
        c == digit_char(d as int),
{
    if d == 0 { '0' } else if d == 1 { '1' } else if d == 2 { '2' } else if d == 3 { '3' }
    else if d == 4 { '4' } else if d == 5 { '5' } else if d == 6 { '6' } else if d == 7 { '7' }
    else if d == 8 { '8' } else { '9' }
}

/// The decimal digits of `n`.
fn nat_to_text(n: u64) -> (v: Vec<char>)
    ensures
        v@ == nat_text(n as nat),
    decreases n,
{
    if n < 10 {
        let mut v: Vec<char> = Vec::new();
        v.push(digit_of(n));
        assert(v@ =~= seq![digit_char(n as int)]);
        v
    } else {
        let mut v = nat_to_text(n / 10);
        v.push(digit_of(n % 10));
        v
    }
}

/// The decimal text of `n`.
fn i64_to_text(n: i64) -> (s: String)
    ensures
        s@ == i64_text(n),
{
    if n < 0 {
        let m: u64 = if n == i64::MIN { 9223372036854775808u64 } else { (-n) as u64 };
        let mut v: Vec<char> = Vec::new();
        v.push('-');
        let digits = nat_to_text(m);
        append_chars(&mut v, &digits);
        assert(v@ =~= seq!['-'] + nat_text((-n) as nat));
        string_from_chars(&v)
    } else {
        string_from_chars(&nat_to_text(n as u64))
    }
}

/// `s` is a natural number written the usual way: ASCII digits, without a
/// leading zero unless it is `0` itself.
pub open spec fn canonical_digits(s: Seq<char>) -> bool {
    all_digits(s) && (s.len() == 1 || s[0] != '0')
}

/// The character of the value of a digit is that digit.
proof fn lemma_digit_char_of(c: char)
    requires
        is_digit(c),
    ensures
        digit_char(c as int - '0' as int) == c,
{
}

/// A string of digits that does not start with `0` has a value of at least one.
proof fn lemma_digits_value_positive(s: Seq<char>)
    requires
        all_digits(s),
        s[0] != '0',
    ensures
        digits_value(s) >= 1,
    decreases s.len(),
{
    if s.len() > 1 {
        let t = s.drop_last();
        assert(t[0] == s[0]);
        assert forall|i: int| 0 <= i < t.len() implies is_digit(#[trigger] t[i]) by {
            assert(t[i] == s[i]);
        }
        lemma_digits_value_positive(t);
        assert(is_digit(s[s.len() - 1]));
        assert(digits_value(s) == 10 * digits_value(t) + (s.last() as int - '0' as int));
    } else {
        assert(s.drop_last().len() == 0);
        assert(is_digit(s[0]));
        assert(s.last() == s[0]);
        assert(digits_value(s) == 10 * digits_value(s.drop_last()) + (s.last() as int - '0' as int));
    }
}

/// Writing out the value of a number written the usual way gives back its text.
proof fn lemma_nat_text_of_digits(s: Seq<char>)
    requires
        canonical_digits(s),
    ensures
        digits_value(s) >= 0,
        nat_text(digits_value(s) as nat) == s,
    decreases s.len(),
{
    assert(is_digit(s[s.len() - 1]));
    lemma_digit_char_of(s[s.len() - 1]);
    let d = s.last() as int - '0' as int;
    if s.len() == 1 {
        assert(s.drop_last().len() == 0);
        assert(digits_value(s.drop_last()) == 0);
        assert(digits_value(s) == 10 * digits_value(s.drop_last()) + d);
        assert(digits_value(s) == d);
        assert(nat_text(d as nat) =~= s);
    } else {
        let t = s.drop_last();
        assert(t[0] == s[0]);
        assert forall|i: int| 0 <= i < t.len() implies is_digit(#[trigger] t[i]) by {
            assert(t[i] == s[i]);
        }
        lemma_nat_text_of_digits(t);
        lemma_digits_value_positive(t);
        let a = digits_value(t);
        let n = 10 * a + d;
        assert(n / 10 == a && n % 10 == d) by (nonlinear_arith)
            requires
                n == 10 * a + d,
                0 <= d < 10,
                a >= 1;
        assert(n >= 10);
        assert(nat_text(n as nat) == nat_text((n / 10) as nat).push(digit_char(n % 10)));
        assert(t.push(s.last()) =~= s);
    }
}

/// Environment text that is a natural number written the usual way, within
/// `i64` and other than `0` and `1` (which read as booleans), becomes that
/// number with its text unchanged.
pub proof fn law_plain_integer_kept(s: Seq<char>, float_number: Option<Seq<char>>)
    requires
        canonical_digits(s),
        s != "0"@,
        s != "1"@,
        digits_value(s) <= i64::MAX,
    ensures
        env_value(s, float_number) == Json::Number(s),
{
    reveal_strlit("true");
    reveal_strlit("yes");
    reveal_strlit("false");
    reveal_strlit("no");
    assert(is_digit(s[0]));
    assert(s != "true"@ && s != "yes"@ && s != "false"@ && s != "no"@) by {
        assert("true"@[0] == 't' && "yes"@[0] == 'y' && "false"@[0] == 'f' && "no"@[0] == 'n');
    }
    assert(unsigned_part(s) == s);
    lemma_nat_text_of_digits(s);
}

/// Environment text that is a minus sign and a positive number written the usual
/// way, within `i64`, becomes that negative number with its text unchanged.
pub proof fn law_negative_integer_kept(d: Seq<char>, float_number: Option<Seq<char>>)
    requires
        canonical_digits(d),
        d[0] != '0',
        digits_value(d) <= 9223372036854775808,
    ensures
        env_value(seq!['-'] + d, float_number) == Json::Number(seq!['-'] + d),
{
    let s = seq!['-'] + d;
    reveal_strlit("true");
    reveal_strlit("yes");
    reveal_strlit("false");
    reveal_strlit("no");
    reveal_strlit("1");
    reveal_strlit("0");
    assert(s != "true"@ && s != "yes"@ && s != "false"@ && s != "no"@ && s != "1"@ && s != "0"@) by {
        assert(s[0] == '-');
        assert("true"@[0] == 't' && "yes"@[0] == 'y' && "false"@[0] == 'f' && "no"@[0] == 'n');
        assert("1"@[0] == '1' && "0"@[0] == '0');
    }
    assert(unsigned_part(s) =~= d);
    lemma_nat_text_of_digits(d);
    lemma_digits_value_positive(d);
}

/// The JSON value that an environment variable's text stands for: `true`,
/// `yes` and `1` are true; `false`, `no` and `0` are false; other integers are
/// numbers; else, where `float_number` gives the text of the number that the
/// text reads as (a finite floating-point number), that number; else the text
/// itself as a string.
pub open spec fn env_value(val: Seq<char>, float_number: Option<Seq<char>>) -> Json {
    if val == "true"@ || val == "yes"@ || val == "1"@ {
        Json::Bool(true)
    } else if val == "false"@ || val == "no"@ || val == "0"@ {
        Json::Bool(false)
    } else if decimal_i64(val) is Some {
        Json::Number(i64_text(decimal_i64(val)->0))
    } else if float_number is Some {
        Json::Number(float_number->0)
    } else {
        Json::Str(val)
    }
}

/// Converts the text of an environment variable into a JSON value. `float_number`
/// is the text of the finite floating-point number that `val` reads as, where
/// it reads as one.
pub fn env_string_to_value(val: &str, float_number: Option<String>) -> (r: JsonValue)
    ensures
        r.model() == env_value(val@, match float_number { Some(t) => Some(t@), None => None }),
{
    let v = val.to_string();
    if v == "true".to_string() || v == "yes".to_string() || v == "1".to_string() {
        return JsonValue::Bool(true);
    }
    if v == "false".to_string() || v == "no".to_string() || v == "0".to_string() {
        return JsonValue::Bool(false);
    }
    if let Some(n) = parse_i64(val) {
        return JsonValue::Number(i64_to_text(n));
    }
    match float_number {
        Some(t) => JsonValue::Number(t),
        None => JsonValue::Str(v),
    }
}


/// The key of member `k` under `prefix`: `prefix-k`, or `k` at the top.
pub open spec fn child_key(prefix: Seq<char>, k: Seq<char>) -> Seq<char> {
    if prefix.len() == 0 { k } else { prefix + seq!['-'] + k }
}

/// A later member of `s` has the key of its first member, and so overrides it.
pub open spec fn first_is_overridden(s: Seq<(String, JsonValue)>) -> bool {
    exists|j: int| 1 <= j < s.len() && (#[trigger] s[j]).0@ == s[0].0@
}

/// The keys of the leaves (values that are not objects) under the members `s`
/// of an object whose key is `prefix`; members overridden by a later one with
/// the same key do not count.
pub open spec fn members_leaf_keys(s: Seq<(String, JsonValue)>, prefix: Seq<char>) -> Set<Seq<char>>
    decreases s,
{
    if s.len() == 0 {
        Set::empty()
    } else {
        let here = if first_is_overridden(s) {
            Set::empty()
        } else {
            value_leaf_keys(s[0].1, child_key(prefix, s[0].0@))
        };
        here.union(members_leaf_keys(s.drop_first(), prefix))
    }
}

/// The keys of the leaves of a member value whose key is `key`: the leaves
/// under it where it is an object, else `key` itself.
pub open spec fn value_leaf_keys(v: JsonValue, key: Seq<char>) -> Set<Seq<char>>
    decreases v,
{
    match v {
        JsonValue::Object(entries) => members_leaf_keys(entries@, key),
        _ => set![key],
    }
}

/// The keys of the leaves of document `v` under `prefix`, levels joined by `-`;
/// none where `v` is not an object.
pub open spec fn leaf_keys(v: JsonValue, prefix: Seq<char>) -> Set<Seq<char>> {
    match v {
        JsonValue::Object(entries) => members_leaf_keys(entries@, prefix),
        _ => Set::empty(),
    }
}

/// Every member whose value is not an object (null, a boolean, a number, a
/// string or an array) is a leaf: its key, under the prefix, is among the leaf
/// keys, unless a later member with the same key overrides it.
pub proof fn law_non_object_member_is_leaf(s: Seq<(String, JsonValue)>, prefix: Seq<char>, i: int)
    requires
        0 <= i < s.len(),
        !(s[i].1 is Object),
        forall|j: int| i < j < s.len() ==> (#[trigger] s[j]).0@ != s[i].0@,
    ensures
        members_leaf_keys(s, prefix).contains(child_key(prefix, s[i].0@)),
    decreases s.len(),
{
    if i == 0 {
        if first_is_overridden(s) {
            let j = choose|j: int| 1 <= j < s.len() && (#[trigger] s[j]).0@ == s[0].0@;
            assert(s[j].0@ != s[0].0@);
        }
        assert(!first_is_overridden(s));
        let key = child_key(prefix, s[0].0@);
        assert(value_leaf_keys(s[0].1, key).contains(key));
        assert(members_leaf_keys(s, prefix)
            == value_leaf_keys(s[0].1, key).union(members_leaf_keys(s.drop_first(), prefix)));
    } else {
        let t = s.drop_first();
        assert forall|j: int| i - 1 < j < t.len() implies (#[trigger] t[j]).0@ != t[i - 1].0@ by {
            assert(t[j] == s[j + 1]);
        }
        law_non_object_member_is_leaf(t, prefix, i - 1);
        assert(t[i - 1] == s[i]);
        assert(members_leaf_keys(s, prefix).contains(child_key(prefix, s[i].0@)));
    }
}

/// Only objects are descended into: the leaf keys under a member whose value is
/// an object are among the document's leaf keys, each under the member's key,
/// unless a later member with the same key overrides it.
pub proof fn law_object_member_leaves(s: Seq<(String, JsonValue)>, prefix: Seq<char>, i: int, k: Seq<char>)
    requires
        0 <= i < s.len(),
        s[i].1 is Object,
        forall|j: int| i < j < s.len() ==> (#[trigger] s[j]).0@ != s[i].0@,
        leaf_keys(s[i].1, child_key(prefix, s[i].0@)).contains(k),
    ensures
        members_leaf_keys(s, prefix).contains(k),
    decreases s.len(),
{
    if i == 0 {
        if first_is_overridden(s) {
            let j = choose|j: int| 1 <= j < s.len() && (#[trigger] s[j]).0@ == s[0].0@;
            assert(s[j].0@ != s[0].0@);
        }
        assert(!first_is_overridden(s));
        let key = child_key(prefix, s[0].0@);
        assert(value_leaf_keys(s[0].1, key).contains(k));
        assert(members_leaf_keys(s, prefix)
            == value_leaf_keys(s[0].1, key).union(members_leaf_keys(s.drop_first(), prefix)));
    } else {
        let t = s.drop_first();
        assert forall|j: int| i - 1 < j < t.len() implies (#[trigger] t[j]).0@ != t[i - 1].0@ by {
            assert(t[j] == s[j + 1]);
        }
        law_object_member_leaves(t, prefix, i - 1, k);
        assert(t[i - 1] == s[i]);
        assert(members_leaf_keys(s, prefix).contains(k));
    }
}

/// Adds to the sorted set `out` the keys of the leaves of `value` under `prefix`,
/// levels joined by `-`.
pub fn leaf_keys_recursive(value: &JsonValue, prefix: &str, out: &mut Vec<String>)
    requires
        strictly_sorted(old(out)@.map_values(|v: String| v@)),
    ensures
        strictly_sorted(final(out)@.map_values(|v: String| v@)),
        final(out)@.map_values(|v: String| v@).to_set()
            == old(out)@.map_values(|v: String| v@).to_set().union(leaf_keys(*value, prefix@)),
    decreases *value,
{
    let ghost start = out@.map_values(|v: String| v@).to_set();
    if let JsonValue::Object(entries) = value {
        let n = entries.len();
        let ghost s = entries@;
        assert(s.skip(0) =~= s);
        for i in 0..n
            invariant
                n == s.len(),
                s == entries@,
                *value == JsonValue::Object(*entries),
                strictly_sorted(out@.map_values(|v: String| v@)),
                out@.map_values(|v: String| v@).to_set().union(members_leaf_keys(s.skip(i as int), prefix@))
                    == start.union(members_leaf_keys(s, prefix@)),
        {
            let ghost t = s.skip(i as int);
            assert(t.drop_first() =~= s.skip(i + 1));
            assert(t[0] == s[i as int]);
            let mut overridden = false;
            for j in i + 1..n
                invariant
                    n == s.len(),
                    s == entries@,
                    i < n,
                    t == s.skip(i as int),
                    overridden == exists|k: int| i + 1 <= k < j && (#[trigger] s[k]).0@ == s[i as int].0@,
            {
                if entries[j].0 == entries[i].0 {
                    overridden = true;
                }
            }
            proof {
                if first_is_overridden(t) {
                    let k = choose|k: int| 1 <= k < t.len() && (#[trigger] t[k]).0@ == t[0].0@;
                    assert(s[i + k].0@ == s[i as int].0@);
                }
                if overridden {
                    let k = choose|k: int| i + 1 <= k < n && (#[trigger] s[k]).0@ == s[i as int].0@;
                    assert(t[k - i].0@ == t[0].0@);
                }
            }
            let ghost before = out@.map_values(|v: String| v@).to_set();
            if !overridden {
                let mut key: Vec<char> = Vec::new();
                if prefix.unicode_len() > 0 {
                    append_str(&mut key, prefix);
                    key.push('-');
                }
                append_str(&mut key, entries[i].0.as_str());
                let key = string_from_chars(&key);
                assert(key@ =~= child_key(prefix@, s[i as int].0@));
                let member = &entries[i].1;
                if let JsonValue::Object(_) = member {
                    proof {
                        assert((*value)->Object_0 == *entries);
                        assert(decreases_to!(*value => (*value)->Object_0));
                        assert(decreases_to!(*entries => entries@));
                        assert(decreases_to!(entries@ => entries@[i as int]));
                        assert(decreases_to!(entries@[i as int] => entries@[i as int].1));
                    }
                    leaf_keys_recursive(member, key.as_str(), out);
                    assert(leaf_keys(*member, key@) == value_leaf_keys(*member, key@));
                } else {
                    insert_sorted(out, key);
                    assert(value_leaf_keys(*member, key@) == set![key@]);
                }
                assert(members_leaf_keys(t, prefix@)
                    == value_leaf_keys(s[i as int].1, key@).union(members_leaf_keys(s.skip(i + 1), prefix@)));
            } else {
                assert(members_leaf_keys(t, prefix@) == members_leaf_keys(s.skip(i + 1), prefix@));
            }
            assert(out@.map_values(|v: String| v@).to_set().union(members_leaf_keys(s.skip(i + 1), prefix@))
                =~= before.union(members_leaf_keys(t, prefix@)));
        }
        assert(members_leaf_keys(s.skip(n as int), prefix@) =~= Set::empty());
    }
    assert(out@.map_values(|v: String| v@).to_set() =~= start.union(leaf_keys(*value, prefix@)));
}


/// Document `v` with every override of `s` set in turn, each value under its
/// key (levels joined by `-`).
pub open spec fn overrides_applied(v: Json, s: Seq<(Seq<char>, Json)>) -> Json
    decreases s.len(),
{
    if s.len() == 0 {
        v
    } else {
        overrides_applied(json_set_path(v, s[0].0, s[0].1), s.drop_first())
    }
}

/// The model of a list of overrides: each key with the model of its value.
pub open spec fn overrides_model(s: Seq<(String, JsonValue)>) -> Seq<(Seq<char>, Json)> {
    s.map_values(|o: (String, JsonValue)| (o.0@, o.1.model()))
}

/// Sets each override's value under its key in `doc`, in order.
pub fn apply_overrides(doc: &mut JsonValue, overrides: Vec<(String, JsonValue)>)
    ensures
        final(doc).model() == overrides_applied(old(doc).model(), overrides_model(overrides@)),
{
    let mut rest = overrides;
    let ghost target = overrides_applied(doc.model(), overrides_model(rest@));
    while rest.len() > 0
        invariant
            overrides_applied(doc.model(), overrides_model(rest@)) == target,
        decreases rest.len(),
    {
        let ghost before = rest@;
        let (key, val) = rest.remove(0);
        assert(overrides_model(before).drop_first() =~= overrides_model(rest@));
        set_json_path(doc, key.as_str(), val);
    }
}

/// A variable of the environment, as the program reads it: its name, its value,
/// and the text of the finite floating-point number that the value reads as,
/// where it reads as one.
pub struct EnvVar {
    pub name: String,
    pub value: String,
    pub float_number: Option<String>,
}

/// The variable named `name` in `env`: the last one with that name.
pub open spec fn env_lookup(env: Seq<EnvVar>, name: Seq<char>) -> Option<EnvVar>
    decreases env.len(),
{
    if env.len() == 0 {
        None
    } else if env.last().name@ == name {
        Some(env.last())
    } else {
        env_lookup(env.drop_last(), name)
    }
}

/// The JSON value that variable `var` stands for.
pub open spec fn env_var_value(var: EnvVar) -> Json {
    env_value(var.value@, match var.float_number { Some(t) => Some(t@), None => None })
}

/// The overrides that `env` gives application `app` for the configuration keys
/// `keys`, in their order: each key whose variable is set, with the value of
/// that variable.
pub open spec fn env_overrides(app: Seq<char>, keys: Seq<Seq<char>>, env: Seq<EnvVar>) -> Seq<(Seq<char>, Json)>
    decreases keys.len(),
{
    if keys.len() == 0 {
        Seq::empty()
    } else {
        let rest = env_overrides(app, keys.drop_last(), env);
        match env_lookup(env, override_env_key_text(app, keys.last())) {
            Some(var) => rest.push((keys.last(), env_var_value(var))),
            None => rest,
        }
    }
}

/// A variable found under a name is a variable of the environment with that
/// name, and no later variable has that name; a name that no variable has is
/// not found.
pub proof fn law_env_lookup_finds_named(env: Seq<EnvVar>, name: Seq<char>)
    ensures
        env_lookup(env, name) matches Some(v) ==> exists|i: int| 0 <= i < env.len() && env[i] == v
            && v.name@ == name && forall|j: int| i < j < env.len() ==> (#[trigger] env[j]).name@ != name,
        (forall|i: int| 0 <= i < env.len() ==> (#[trigger] env[i]).name@ != name) ==> env_lookup(env, name) is None,
    decreases env.len(),
{
    if env.len() > 0 {
        let t = env.drop_last();
        law_env_lookup_finds_named(t, name);
        if env.last().name@ == name {
            assert(env[env.len() - 1] == env.last());
        } else if env_lookup(t, name) is Some {
            let i = choose|i: int| 0 <= i < t.len() && t[i] == env_lookup(t, name)->0
                && env_lookup(t, name)->0.name@ == name && forall|j: int| i < j < t.len() ==> (#[trigger] t[j]).name@ != name;
            assert(env[i] == t[i]);
            assert forall|j: int| i < j < env.len() implies (#[trigger] env[j]).name@ != name by {
                if j < t.len() {
                    assert(env[j] == t[j]);
                }
            }
        }
        if forall|i: int| 0 <= i < env.len() ==> (#[trigger] env[i]).name@ != name {
            assert forall|i: int| 0 <= i < t.len() implies (#[trigger] t[i]).name@ != name by {
                assert(t[i] == env[i]);
            }
            assert(env[env.len() - 1].name@ != name);
        }
    }
}

/// Every key whose variable is set gets an override, with the value of that
/// variable; and every override is for one of the keys, with the value of its
/// variable.
pub proof fn law_env_overrides_cover_set_variables(app: Seq<char>, keys: Seq<Seq<char>>, env: Seq<EnvVar>)
    ensures
        forall|i: int| 0 <= i < keys.len() && (#[trigger] env_lookup(env, override_env_key_text(app, keys[i]))) is Some
            ==> env_overrides(app, keys, env).contains(
                (keys[i], env_var_value(env_lookup(env, override_env_key_text(app, keys[i]))->0))),
        forall|o: (Seq<char>, Json)| #[trigger] env_overrides(app, keys, env).contains(o)
            ==> keys.contains(o.0) && env_lookup(env, override_env_key_text(app, o.0)) is Some
                && o.1 == env_var_value(env_lookup(env, override_env_key_text(app, o.0))->0),
    decreases keys.len(),
{
    if keys.len() > 0 {
        let t = keys.drop_last();
        law_env_overrides_cover_set_variables(app, t, env);
        let rest = env_overrides(app, t, env);
        let r = env_overrides(app, keys, env);
        assert forall|i: int| 0 <= i < keys.len() && (#[trigger] env_lookup(env, override_env_key_text(app, keys[i]))) is Some
            implies r.contains((keys[i], env_var_value(env_lookup(env, override_env_key_text(app, keys[i]))->0))) by {
            if i < t.len() {
                assert(t[i] == keys[i]);
                let o = (t[i], env_var_value(env_lookup(env, override_env_key_text(app, t[i]))->0));
                assert(rest.contains(o));
                let k = choose|k: int| 0 <= k < rest.len() && rest[k] == o;
                assert(r[k] == o);
            } else {
                assert(keys[i] == keys.last());
                assert(r[r.len() - 1] == (keys[i], env_var_value(env_lookup(env, override_env_key_text(app, keys[i]))->0)));
            }
        }
        assert forall|o: (Seq<char>, Json)| #[trigger] r.contains(o)
            implies keys.contains(o.0) && env_lookup(env, override_env_key_text(app, o.0)) is Some
                && o.1 == env_var_value(env_lookup(env, override_env_key_text(app, o.0))->0) by {
            let k = choose|k: int| 0 <= k < r.len() && r[k] == o;
            if k < rest.len() {
                assert(rest[k] == o);
                assert(rest.contains(o));
                let j = choose|j: int| 0 <= j < t.len() && t[j] == o.0;
                assert(keys[j] == o.0);
            } else {
                assert(keys[keys.len() - 1] == o.0);
            }
        }
    }
}

/// The index of the variable named `name` in `env` (the last one with that name).
fn find_env(env: &Vec<EnvVar>, name: &String) -> (r: Option<usize>)
    ensures
        match r {
            Some(i) => i < env@.len() && env_lookup(env@, name@) == Some(env@[i as int]),
            None => env_lookup(env@, name@) is None,
        },
{
    let mut i = env.len();
    assert(env@.take(i as int) =~= env@);
    while i > 0
        invariant
            i <= env@.len(),
            env_lookup(env@, name@) == env_lookup(env@.take(i as int), name@),
        decreases i,
    {
        assert(env@.take(i as int).drop_last() =~= env@.take(i - 1));
        if env[i - 1].name == *name {
            return Some(i - 1);
        }
        i = i - 1;
    }
    None
}

/// Overrides the configuration document `doc` of application `app_name` from
/// the environment `env`: for each leaf key of the document, in sorted order,
/// whose variable (`override_env_key`) is set, that variable's value is set
/// under the key.
pub fn apply_env_overrides(app_name: &str, doc: &mut JsonValue, env: &Vec<EnvVar>)
    ensures
        final(doc).model() == overrides_applied(
            old(doc).model(),
            env_overrides(app_name@, sorted_seq(leaf_keys(*old(doc), Seq::empty())), env@),
        ),
{
    let mut keys: Vec<String> = Vec::new();
    proof { reveal_strlit(""); }
    leaf_keys_recursive(doc, "", &mut keys);
    let ghost kv = keys@.map_values(|v: String| v@);
    proof {
        assert(""@ =~= Seq::<char>::empty());
        assert(Seq::<String>::empty().map_values(|v: String| v@).to_set() =~= Set::empty());
        assert(kv.to_set() =~= leaf_keys(*doc, Seq::empty()));
        lemma_sorted_seq_of(kv);
    }
    let mut overrides: Vec<(String, JsonValue)> = Vec::new();
    let n = keys.len();
    for i in 0..n
        invariant
            n == keys@.len(),
            kv == keys@.map_values(|v: String| v@),
            overrides_model(overrides@) == env_overrides(app_name@, kv.take(i as int), env@),
    {
        assert(kv.take(i + 1).drop_last() =~= kv.take(i as int));
        assert(kv.take(i + 1).last() == keys@[i as int]@);
        let env_key = override_env_key(app_name, keys[i].as_str());
        match find_env(env, &env_key) {
            Some(j) => {
                let var = &env[j];
                let float_number = match &var.float_number {
                    Some(t) => Some(t.clone()),
                    None => None,
                };
                let val = env_string_to_value(var.value.as_str(), float_number);
                let ghost before = overrides@;
                let ghost vm = val.model();
                overrides.push((keys[i].clone(), val));
                assert(overrides_model(overrides@) =~= overrides_model(before).push((kv[i as int], vm)));
            },
            None => {},
        }
    }
    assert(kv.take(n as int) =~= kv);
    apply_overrides(doc, overrides);
}

/// Without environment variables, no override applies: the configuration
/// document is left as it is.
pub proof fn law_empty_env_keeps_config(v: Json, app: Seq<char>, keys: Seq<Seq<char>>)
    ensures
        env_overrides(app, keys, Seq::empty()) == Seq::<(Seq<char>, Json)>::empty(),
        overrides_applied(v, env_overrides(app, keys, Seq::empty())) == v,
    decreases keys.len(),
{
    if keys.len() > 0 {
        law_empty_env_keeps_config(v, app, keys.drop_last());
    }
}

} // verus!
