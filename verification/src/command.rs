//! Commands of a generated project: checking a command's name, deriving the
//! names of its argument struct and module, and the source edits that add it.

use vstd::prelude::*;
use vstd::string::*;
use crate::text::{split_first, lemma_split_first, chars_of, string_from_chars, split_once, append_str, append_chars,
    find_chars, find_first, slice_chars, trim_end, trim_start, trim_end_spec, trim_start_spec, ascii_chars,
    ascii_upper_code, ascii_lower_code, ascii_lower_str, unicode_white_space};

verus! {

broadcast use vstd::string::group_string_axioms;

/// Why a command could not be added or found.
#[derive(Debug)]
pub enum CmdError {
    /// The command name is empty.
    NameRequired,
    /// The command name holds `..`, `/`, `\` or a NUL character.
    InvalidName(String),
    /// The dotted name has an empty segment (consecutive dots, or a dot at either end).
    EmptySegment,
    /// The last segment (given here) does not yield a valid Rust identifier.
    NotAnIdentifier(String),
    /// The file to edit lacks the marker (given here) that shows where to insert.
    MissingMarker(String),
    /// The last segment of the name is empty.
    EmptyLeaf,
    /// The command (its last segment given here) already has a handler file.
    AlreadyExists(String),
    /// The working directory has no `src/cli.rs`: it is not a project.
    NoCliFile,
    /// The working directory has no `src/config.rs`: it is not a project.
    NoConfigFile,
}

/// `s` holds two dots in a row.
pub open spec fn has_double_dot(s: Seq<char>) -> bool {
    exists|i: int| 0 <= i && i + 1 < s.len() && #[trigger] s[i] == '.' && s[i + 1] == '.'
}

/// `s` could step outside the directory it names a file or directory in:
/// it holds `..`, `/`, `\` or a NUL character.
pub open spec fn is_unsafe_name(s: Seq<char>) -> bool {
    has_double_dot(s) || s.contains('/') || s.contains('\\') || s.contains('\0')
}

/// Every name without `/`, `\`, a NUL character or two dots in a row is safe,
/// whatever else it holds: letters of either case, digits, single dots, any
/// other character.
pub proof fn law_plain_name_is_safe(s: Seq<char>)
    requires
        forall|i: int| 0 <= i < s.len() ==> s[i] != '/' && s[i] != '\\' && s[i] != '\0',
        forall|i: int| 0 <= i && i + 1 < s.len() ==> !(s[i] == '.' && #[trigger] s[i + 1] == '.'),
    ensures
        !is_unsafe_name(s),
{
    if has_double_dot(s) {
        let i = choose|i: int| 0 <= i && i + 1 < s.len() && #[trigger] s[i] == '.' && s[i + 1] == '.';
        assert(!(s[i] == '.' && s[i + 1] == '.'));
    }
    if s.contains('/') || s.contains('\\') || s.contains('\0') {
        let i = choose|i: int| 0 <= i < s.len() && (s[i] == '/' || s[i] == '\\' || s[i] == '\0');
        assert(s[i] != '/' && s[i] != '\\' && s[i] != '\0');
    }
}

/// A name with `/`, `\` or a NUL character anywhere is unsafe.
pub proof fn law_separator_is_unsafe(s: Seq<char>, i: int)
    requires
        0 <= i < s.len(),
        s[i] == '/' || s[i] == '\\' || s[i] == '\0',
    ensures
        is_unsafe_name(s),
{
    assert(s.contains(s[i]));
}

/// A name with two dots in a row anywhere is unsafe.
pub proof fn law_double_dot_is_unsafe(s: Seq<char>, i: int)
    requires
        0 <= i && i + 1 < s.len(),
        s[i] == '.' && s[i + 1] == '.',
    ensures
        is_unsafe_name(s),
{
    assert(has_double_dot(s));
}

/// Whether `s` holds `..`, `/`, `\` or a NUL character.
pub fn has_unsafe_part(s: &Vec<char>) -> (b: bool)
    ensures
        b == is_unsafe_name(s@),
{
    let n = s.len();
    for i in 0..n
        invariant
            n == s@.len(),
            forall|j: int| 0 <= j < i ==> s@[j] != '/' && s@[j] != '\\' && s@[j] != '\0',
            forall|j: int| 0 <= j && j + 1 < s@.len() && j < i ==> !(#[trigger] s@[j] == '.' && s@[j + 1] == '.'),
    {
        if s[i] == '/' || s[i] == '\\' || s[i] == '\0' {
            assert(s@.contains(s@[i as int]));
            return true;
        }
        if i + 1 < n && s[i] == '.' && s[i + 1] == '.' {
            return true;
        }
    }
    proof {
        if s@.contains('/') || s@.contains('\\') || s@.contains('\0') {
            let j = choose|j: int| 0 <= j < s@.len() && (s@[j] == '/' || s@[j] == '\\' || s@[j] == '\0');
            assert(s@[j] != '/' && s@[j] != '\\' && s@[j] != '\0');
        }
    }
    false
}

/// Checks a command name: it must not be empty and must not hold `..`, `/`,
/// `\` or a NUL character.
pub fn validate_name(name: &str) -> (r: Result<(), CmdError>)
    ensures
        name@.len() == 0 ==> r matches Err(CmdError::NameRequired),
        name@.len() > 0 && is_unsafe_name(name@) ==> (r matches Err(CmdError::InvalidName(n)) && n@ == name@),
        name@.len() > 0 && !is_unsafe_name(name@) ==> r is Ok,
{
    let chars = chars_of(name);
    if chars.len() == 0 {
        return Err(CmdError::NameRequired);
    }
    if has_unsafe_part(&chars) {
        return Err(CmdError::InvalidName(name.to_string()));
    }
    Ok(())
}

/// Unicode's alphanumeric class of a character, as `char::is_alphanumeric` reports it.
pub uninterp spec fn unicode_alphanumeric(c: char) -> bool;

/// Whether `c` is alphanumeric.
///
/// Calls `char::is_alphanumeric` (std): true for the Unicode classes Alphabetic
/// and Numeric. The contract names that result; of it, it states only that an
/// ASCII character is alphanumeric exactly when it is an ASCII letter or digit.
#[verifier::external_body]
fn char_is_alphanumeric(c: char) -> (b: bool)
    ensures
        b == unicode_alphanumeric(c),
        c <= '\u{7f}' ==> b == ascii_alnum(c),
{
    c.is_alphanumeric()
}

/// The upper-case form of a character, as `char::to_uppercase` gives it (one or
/// more characters).
pub uninterp spec fn unicode_uppercase(c: char) -> Seq<char>;

/// The upper-case form of `c`.
///
/// Calls `char::to_uppercase` (std) and collects the characters it yields. The
/// contract names that result; of it, it states only the ASCII mapping: an
/// ASCII character gives one character: a lower-case ASCII letter its upper-case
/// letter (code minus 32), any other ASCII character itself.
#[verifier::external_body]
fn char_to_uppercase(c: char) -> (v: Vec<char>)
    ensures
        v@ == unicode_uppercase(c),
        c <= '\u{7f}' ==> v@ == seq![ascii_upper_code(c) as char],
{
    c.to_uppercase().collect()
}

/// The lower-case form of a string, as `str::to_lowercase` gives it.
pub uninterp spec fn unicode_lowercase(s: Seq<char>) -> Seq<char>;

/// The lower-case form of `s`.
///
/// Calls `str::to_lowercase` (std), which maps by the Unicode lower-case
/// mappings, a final sigma taken into account. The contract names that result;
/// of it, it states only the ASCII mapping: in an ASCII string each upper-case
/// letter becomes its lower-case letter (code plus 32) and every other
/// character stays.
#[verifier::external_body]
pub(crate) fn str_to_lowercase(s: &str) -> (r: String)
    ensures
        r@ == unicode_lowercase(s@),
        ascii_chars(s@) ==> r@ == ascii_lower_str(s@),
{
    s.to_lowercase()
}

/// PascalCase of `s`, given for each character whether it is alphanumeric and
/// its upper-case form: `s` is cut at every character that is not alphanumeric,
/// empty pieces are dropped, and each piece has its first character replaced by
/// its upper-case form; the pieces are joined with nothing between them.
/// `at_start` says whether the next alphanumeric character begins a piece.
pub open spec fn pascal_words(s: Seq<char>, alnum: Seq<bool>, upper: Seq<Seq<char>>, at_start: bool) -> Seq<char>
    decreases s.len(),
{
    if s.len() == 0 || alnum.len() == 0 || upper.len() == 0 {
        Seq::empty()
    } else if !alnum[0] {
        pascal_words(s.drop_first(), alnum.drop_first(), upper.drop_first(), true)
    } else if at_start {
        upper[0] + pascal_words(s.drop_first(), alnum.drop_first(), upper.drop_first(), false)
    } else {
        seq![s[0]] + pascal_words(s.drop_first(), alnum.drop_first(), upper.drop_first(), false)
    }
}

/// PascalCase of the characters `s`, where `alnum[i]` says whether `s[i]` is
/// alphanumeric and `upper[i]` is its upper-case form.
pub fn pascal_case_of(s: &Vec<char>, alnum: &Vec<bool>, upper: &Vec<Vec<char>>) -> (r: Vec<char>)
    requires
        alnum@.len() == s@.len(),
        upper@.len() == s@.len(),
    ensures
        r@ == pascal_words(s@, alnum@, upper@.map_values(|u: Vec<char>| u@), true),
{
    let ghost ups = upper@.map_values(|u: Vec<char>| u@);
    let n = s.len();
    let mut out: Vec<char> = Vec::new();
    let mut at_start = true;
    assert(s@.skip(0) =~= s@);
    assert(alnum@.skip(0) =~= alnum@);
    assert(ups.skip(0) =~= ups);
    for i in 0..n
        invariant
            n == s@.len() == alnum@.len() == upper@.len() == ups.len(),
            ups == upper@.map_values(|u: Vec<char>| u@),
            out@ + pascal_words(s@.skip(i as int), alnum@.skip(i as int), ups.skip(i as int), at_start)
                == pascal_words(s@, alnum@, ups, true),
    {
        let ghost rest = pascal_words(s@.skip(i + 1), alnum@.skip(i + 1), ups.skip(i + 1), false);
        let ghost rest_start = pascal_words(s@.skip(i + 1), alnum@.skip(i + 1), ups.skip(i + 1), true);
        assert(s@.skip(i as int).drop_first() =~= s@.skip(i + 1));
        assert(alnum@.skip(i as int).drop_first() =~= alnum@.skip(i + 1));
        assert(ups.skip(i as int).drop_first() =~= ups.skip(i + 1));
        let ghost prev = out@;
        if !alnum[i] {
            at_start = true;
        } else if at_start {
            crate::text::append_chars(&mut out, &upper[i]);
            assert(prev + (ups[i as int] + rest) =~= out@ + rest);
            at_start = false;
        } else {
            out.push(s[i]);
            assert(prev + (seq![s@[i as int]] + rest) =~= out@ + rest);
        }
    }
    assert(s@.skip(n as int).len() == 0);
    assert(out@ + Seq::<char>::empty() =~= out@);
    out
}

/// The first ASCII letter or digit of `s` exists and is a letter.
pub open spec fn first_alnum_is_letter(s: Seq<char>) -> bool
    decreases s.len(),
{
    if s.len() == 0 {
        false
    } else if ascii_alpha(s[0]) {
        true
    } else if ascii_alnum(s[0]) {
        false
    } else {
        first_alnum_is_letter(s.drop_first())
    }
}

/// What the Unicode classes and mappings that PascalCase uses give for an ASCII
/// character: alphanumeric means ASCII letter or digit, and the upper-case form
/// is one character, the upper-case letter of a lower-case letter, else the
/// character itself.
pub open spec fn ascii_case_facts(c: char) -> bool {
    &&& unicode_alphanumeric(c) == ascii_alnum(c)
    &&& unicode_uppercase(c) == seq![ascii_upper_code(c) as char]
}

/// PascalCase of an ASCII string by the ASCII classes and case mapping.
pub open spec fn ascii_pascal(s: Seq<char>) -> Seq<char> {
    pascal_words(
        s,
        s.map_values(|c: char| ascii_alnum(c)),
        s.map_values(|c: char| seq![ascii_upper_code(c) as char]),
        true,
    )
}

/// ASCII PascalCase of `s`, starting inside a word or not as `at_start` says.
pub open spec fn ascii_pascal_from(s: Seq<char>, at_start: bool) -> Seq<char> {
    pascal_words(
        s,
        s.map_values(|c: char| ascii_alnum(c)),
        s.map_values(|c: char| seq![ascii_upper_code(c) as char]),
        at_start,
    )
}

/// One step of ASCII PascalCase: the first character, then the rest.
proof fn lemma_ascii_pascal_step(s: Seq<char>, at_start: bool)
    requires
        s.len() > 0,
    ensures
        ascii_pascal_from(s, at_start) == if !ascii_alnum(s[0]) {
            ascii_pascal_from(s.drop_first(), true)
        } else if at_start {
            seq![ascii_upper_code(s[0]) as char] + ascii_pascal_from(s.drop_first(), false)
        } else {
            seq![s[0]] + ascii_pascal_from(s.drop_first(), false)
        },
{
    let t = s.drop_first();
    assert(s.map_values(|c: char| ascii_alnum(c)).drop_first() =~= t.map_values(|c: char| ascii_alnum(c)));
    assert(s.map_values(|c: char| seq![ascii_upper_code(c) as char]).drop_first()
        =~= t.map_values(|c: char| seq![ascii_upper_code(c) as char]));
}

/// Inside a word, letters and digits are kept as they are.
proof fn lemma_ascii_pascal_inside_word(s: Seq<char>)
    requires
        forall|i: int| 0 <= i < s.len() ==> ascii_alnum(#[trigger] s[i]),
    ensures
        ascii_pascal_from(s, false) == s,
    decreases s.len(),
{
    if s.len() > 0 {
        lemma_ascii_pascal_step(s, false);
        let t = s.drop_first();
        assert forall|i: int| 0 <= i < t.len() implies ascii_alnum(#[trigger] t[i]) by {
            assert(t[i] == s[i + 1]);
        }
        lemma_ascii_pascal_inside_word(t);
        assert(seq![s[0]] + t =~= s);
    }
}

/// A word of ASCII letters and digits comes out with its first character in
/// upper case and the rest unchanged.
pub proof fn law_pascal_capitalises_word(s: Seq<char>)
    requires
        s.len() > 0,
        forall|i: int| 0 <= i < s.len() ==> ascii_alnum(#[trigger] s[i]),
    ensures
        ascii_pascal(s) == seq![ascii_upper_code(s[0]) as char] + s.drop_first(),
{
    lemma_ascii_pascal_step(s, true);
    let t = s.drop_first();
    assert forall|i: int| 0 <= i < t.len() implies ascii_alnum(#[trigger] t[i]) by {
        assert(t[i] == s[i + 1]);
    }
    lemma_ascii_pascal_inside_word(t);
}

/// Words are capitalised each on its own: PascalCase of `x`, a character that
/// is not an ASCII letter or digit, and `w` is that of `x` followed by that of
/// `w`, the separator dropped.
pub proof fn law_pascal_splits_at_separator(x: Seq<char>, c: char, w: Seq<char>, at_start: bool)
    requires
        !ascii_alnum(c),
    ensures
        ascii_pascal_from(x + seq![c] + w, at_start) == ascii_pascal_from(x, at_start) + ascii_pascal(w),
    decreases x.len(),
{
    let s = x + seq![c] + w;
    lemma_ascii_pascal_step(s, at_start);
    if x.len() == 0 {
        assert(s.drop_first() =~= w);
        assert(x.map_values(|c: char| ascii_alnum(c)).len() == 0);
        assert(ascii_pascal_from(x, at_start) =~= Seq::<char>::empty());
        assert(Seq::<char>::empty() + ascii_pascal(w) =~= ascii_pascal(w));
    } else {
        let x1 = x.drop_first();
        assert(s.drop_first() =~= x1 + seq![c] + w);
        assert(s[0] == x[0]);
        lemma_ascii_pascal_step(x, at_start);
        let next = if !ascii_alnum(x[0]) { true } else { false };
        law_pascal_splits_at_separator(x1, c, w, next);
        if !ascii_alnum(x[0]) {
        } else if at_start {
            assert(seq![ascii_upper_code(x[0]) as char] + (ascii_pascal_from(x1, false) + ascii_pascal(w))
                =~= (seq![ascii_upper_code(x[0]) as char] + ascii_pascal_from(x1, false)) + ascii_pascal(w));
        } else {
            assert(seq![x[0]] + (ascii_pascal_from(x1, false) + ascii_pascal(w))
                =~= (seq![x[0]] + ascii_pascal_from(x1, false)) + ascii_pascal(w));
        }
    }
}

/// For an ASCII string whose characters have their ASCII case facts, PascalCase
/// gives only ASCII letters and digits, and it is empty or starts with a letter
/// exactly as the string's first letter or digit is missing or a letter.
proof fn lemma_pascal_ascii(s: Seq<char>, at_start: bool)
    requires
        forall|i: int| 0 <= i < s.len() ==> #[trigger] ascii_case_facts(s[i]),
    ensures
        ({
            let r = pascal_words(s, s.map_values(|c: char| unicode_alphanumeric(c)),
                s.map_values(|c: char| unicode_uppercase(c)), at_start);
            &&& forall|k: int| 0 <= k < r.len() ==> ascii_alnum(#[trigger] r[k])
            &&& r.len() == 0 ==> !first_alnum_is_letter(s)
            &&& r.len() > 0 ==> (ascii_alpha(r[0]) <==> first_alnum_is_letter(s))
        }),
    decreases s.len(),
{
    if s.len() > 0 {
        let t = s.drop_first();
        let a = s.map_values(|c: char| unicode_alphanumeric(c));
        let u = s.map_values(|c: char| unicode_uppercase(c));
        assert(a.drop_first() =~= t.map_values(|c: char| unicode_alphanumeric(c)));
        assert(u.drop_first() =~= t.map_values(|c: char| unicode_uppercase(c)));
        assert forall|i: int| 0 <= i < t.len() implies #[trigger] ascii_case_facts(t[i]) by {
            assert(t[i] == s[i + 1]);
            assert(ascii_case_facts(s[i + 1]));
        }
        assert(ascii_case_facts(s[0]));
        lemma_pascal_ascii(t, true);
        lemma_pascal_ascii(t, false);
    }
}

/// PascalCase of `s`, as the argument struct of a command is named: `s` is cut
/// at every character that is not alphanumeric (Unicode), empty pieces are
/// dropped, and each piece starts with the upper-case form of its first character.
pub fn pascal_case(s: &str) -> (r: String)
    ensures
        r@ == pascal_words(
            s@,
            s@.map_values(|c: char| unicode_alphanumeric(c)),
            s@.map_values(|c: char| unicode_uppercase(c)),
            true,
        ),
        ascii_chars(s@) ==> r@ == ascii_pascal(s@),
        ascii_chars(s@) ==> forall|k: int| 0 <= k < r@.len() ==> ascii_alnum(#[trigger] r@[k]),
        ascii_chars(s@) ==> (rust_ident(r@) <==> first_alnum_is_letter(s@)),
{
    let chars = chars_of(s);
    let n = chars.len();
    let mut alnum: Vec<bool> = Vec::new();
    let mut upper: Vec<Vec<char>> = Vec::new();
    for i in 0..n
        invariant
            n == chars@.len(),
            chars@ == s@,
            alnum@ == s@.take(i as int).map_values(|c: char| unicode_alphanumeric(c)),
            upper@.map_values(|u: Vec<char>| u@) == s@.take(i as int).map_values(|c: char| unicode_uppercase(c)),
            forall|j: int| 0 <= j < i && s@[j] <= '\u{7f}' ==> #[trigger] ascii_case_facts(s@[j]),
    {
        let c = chars[i];
        alnum.push(char_is_alphanumeric(c));
        let u = char_to_uppercase(c);
        let ghost old_upper = upper@;
        upper.push(u);
        assert(s@.take(i + 1) =~= s@.take(i as int).push(c));
        assert(alnum@ =~= s@.take(i + 1).map_values(|c: char| unicode_alphanumeric(c)));
        assert(upper@.map_values(|u: Vec<char>| u@) =~= old_upper.map_values(|u: Vec<char>| u@).push(u@));
        assert(upper@.map_values(|u: Vec<char>| u@) =~= s@.take(i + 1).map_values(|c: char| unicode_uppercase(c)));
    }
    assert(s@.take(n as int) =~= s@);
    let r = pascal_case_of(&chars, &alnum, &upper);
    proof {
        if ascii_chars(s@) {
            assert forall|i: int| 0 <= i < s@.len() implies #[trigger] ascii_case_facts(s@[i]) by {
                assert(s@[i] <= '\u{7f}');
            }
            lemma_pascal_ascii(s@, true);
            let a1 = s@.map_values(|c: char| unicode_alphanumeric(c));
            let a2 = s@.map_values(|c: char| ascii_alnum(c));
            let u1 = s@.map_values(|c: char| unicode_uppercase(c));
            let u2 = s@.map_values(|c: char| seq![ascii_upper_code(c) as char]);
            assert forall|i: int| 0 <= i < s@.len() implies a1[i] == a2[i] && u1[i] == u2[i] by {
                assert(ascii_case_facts(s@[i]));
            }
            assert(a1 =~= a2);
            assert(u1 =~= u2);
        }
    }
    string_from_chars(&r)
}

/// `c` is an ASCII letter.
pub open spec fn ascii_alpha(c: char) -> bool {
    ('a' <= c && c <= 'z') || ('A' <= c && c <= 'Z')
}

/// `c` is an ASCII letter or digit.
pub open spec fn ascii_alnum(c: char) -> bool {
    ascii_alpha(c) || ('0' <= c && c <= '9')
}

/// `s` is a Rust identifier of ASCII characters: a letter or `_` first, then
/// letters, digits and `_`.
pub open spec fn rust_ident(s: Seq<char>) -> bool {
    &&& s.len() > 0
    &&& ascii_alpha(s[0]) || s[0] == '_'
    &&& forall|i: int| 0 <= i < s.len() ==> ascii_alnum(#[trigger] s[i]) || s[i] == '_'
}

/// Whether `s` is a Rust identifier of ASCII characters.
pub fn is_valid_rust_ident(s: &str) -> (b: bool)
    ensures
        b == rust_ident(s@),
{
    let chars = chars_of(s);
    let n = chars.len();
    if n == 0 {
        return false;
    }
    let first = chars[0];
    if !(('a' <= first && first <= 'z') || ('A' <= first && first <= 'Z')) && first != '_' {
        return false;
    }
    for i in 0..n
        invariant
            n == chars@.len(),
            chars@ == s@,
            forall|j: int| 0 <= j < i ==> ascii_alnum(#[trigger] s@[j]) || s@[j] == '_',
    {
        let c = chars[i];
        if !(('a' <= c && c <= 'z') || ('A' <= c && c <= 'Z') || ('0' <= c && c <= '9')) && c != '_' {
            return false;
        }
    }
    true
}


/// The segments of `s` between the occurrences of `c`, as `str::split` yields them.
pub open spec fn split_on(s: Seq<char>, c: char) -> Seq<Seq<char>>
    decreases s.len(),
{
    match split_first(s, c) {
        Some((a, b)) => {
            proof { lemma_split_first(s, c); }
            seq![a] + split_on(b, c)
        },
        None => seq![s],
    }
}

/// A split yields at least one segment.
pub proof fn lemma_split_on_nonempty(s: Seq<char>, c: char)
    ensures
        split_on(s, c).len() > 0,
    decreases s.len(),
{
    lemma_split_first(s, c);
    if let Some((a, b)) = split_first(s, c) {
        lemma_split_on_nonempty(b, c);
    }
}

/// The segments of `s` between the occurrences of `c`.
pub fn split_chars(s: &Vec<char>, c: char) -> (r: Vec<Vec<char>>)
    ensures
        r@.map_values(|v: Vec<char>| v@) == split_on(s@, c),
    decreases s@.len(),
{
    proof { lemma_split_first(s@, c); }
    match split_once(s, c) {
        Some((a, b)) => {
            let mut rest = split_chars(&b, c);
            let mut r: Vec<Vec<char>> = Vec::new();
            let ghost av = a@;
            let ghost rest_v = rest@;
            r.push(a);
            r.append(&mut rest);
            assert(r@ =~= seq![r@[0]] + rest_v);
            assert(r@.map_values(|v: Vec<char>| v@) =~= seq![av] + rest_v.map_values(|v: Vec<char>| v@));
            r
        },
        None => {
            let mut r: Vec<Vec<char>> = Vec::new();
            let copy = crate::text::slice_chars(s, 0, s.len());
            assert(s@.subrange(0, s@.len() as int) =~= s@);
            r.push(copy);
            assert(r@.map_values(|v: Vec<char>| v@) =~= seq![s@]);
            r
        },
    }
}

/// The names that adding a command derives from its dotted name.
pub struct AddPlan {
    /// The last segment of the dotted name.
    pub leaf: String,
    /// The name of the command's argument struct and enum variant.
    pub struct_name: String,
    /// The name of the command's module and handler file.
    pub mod_name: String,
}

/// PascalCase of `s` by the Unicode classes that `str` methods use.
pub open spec fn pascal_spec(s: Seq<char>) -> Seq<char> {
    pascal_words(
        s,
        s.map_values(|c: char| unicode_alphanumeric(c)),
        s.map_values(|c: char| unicode_uppercase(c)),
        true,
    )
}

/// Some segment of the dotted name is empty.
pub open spec fn has_empty_segment(name: Seq<char>) -> bool {
    exists|i: int| 0 <= i < split_on(name, '.').len() && (#[trigger] split_on(name, '.')[i]).len() == 0
}

/// The last segment of a dotted name.
pub open spec fn leaf_of(name: Seq<char>) -> Seq<char> {
    split_on(name, '.').last()
}

/// The handler file that `cmd add` writes for a dotted name, where it accepts
/// the name: that of the lower-cased last segment under `src/commands`.
pub open spec fn add_path_of(name: Seq<char>) -> Option<Seq<char>> {
    if name.len() > 0 && !is_unsafe_name(name) && !has_empty_segment(name) && rust_ident(pascal_spec(leaf_of(name))) {
        Some(handler_path_text(unicode_lowercase(leaf_of(name))))
    } else {
        None
    }
}

/// The handler file that `cmd edit` opens for a dotted name, where it accepts
/// the name: that of the lower-cased last segment under `src/commands`.
pub open spec fn edit_path_of(name: Seq<char>) -> Option<Seq<char>> {
    if name.len() > 0 && !is_unsafe_name(name) && leaf_of(name).len() > 0 {
        Some(handler_path_text(unicode_lowercase(leaf_of(name))))
    } else {
        None
    }
}

/// Checks the dotted name of a new command and derives from its last segment
/// the names of the argument struct (PascalCase) and of the module (lower case).
pub fn plan_add(name: &str) -> (r: Result<AddPlan, CmdError>)
    ensures
        name@.len() == 0 ==> r matches Err(CmdError::NameRequired),
        name@.len() > 0 && is_unsafe_name(name@) ==> (r matches Err(CmdError::InvalidName(n)) && n@ == name@),
        name@.len() > 0 && !is_unsafe_name(name@) && has_empty_segment(name@) ==> r matches Err(CmdError::EmptySegment),
        name@.len() > 0 && !is_unsafe_name(name@) && !has_empty_segment(name@) ==> {
            let leaf = leaf_of(name@);
            if rust_ident(pascal_spec(leaf)) {
                r matches Ok(p) && p.leaf@ == leaf && p.struct_name@ == pascal_spec(leaf)
                    && p.mod_name@ == unicode_lowercase(leaf)
            } else {
                r matches Err(CmdError::NotAnIdentifier(l)) && l@ == leaf
            }
        },
        name@.len() > 0 && !is_unsafe_name(name@) && !has_empty_segment(name@) && ascii_chars(leaf_of(name@))
            ==> (r is Ok <==> first_alnum_is_letter(leaf_of(name@))),
        ascii_chars(leaf_of(name@)) ==> (r matches Ok(p) ==> p.struct_name@ == ascii_pascal(leaf_of(name@))
            && p.mod_name@ == ascii_lower_str(leaf_of(name@))),
        r is Ok <==> add_path_of(name@) is Some,
        r matches Ok(p) ==> add_path_of(name@) == Some(handler_path_text(p.mod_name@)),
{
    match validate_name(name) {
        Ok(()) => {},
        Err(e) => { return Err(e); },
    }
    let chars = chars_of(name);
    let segments = split_chars(&chars, '.');
    let ghost views = segments@.map_values(|v: Vec<char>| v@);
    proof { lemma_split_on_nonempty(name@, '.'); }
    let n = segments.len();
    for i in 0..n
        invariant
            n == segments@.len() == views.len(),
            views == split_on(name@, '.'),
            name@.len() > 0,
            !is_unsafe_name(name@),
            views == segments@.map_values(|v: Vec<char>| v@),
            forall|j: int| 0 <= j < i ==> (#[trigger] views[j]).len() > 0,
    {
        assert(views[i as int] == segments@[i as int]@);
        if segments[i].len() == 0 {
            return Err(CmdError::EmptySegment);
        }
    }
    let leaf = string_from_chars(&segments[n - 1]);
    assert(leaf@ == views.last());
    let struct_name = pascal_case(leaf.as_str());
    let mod_name = str_to_lowercase(leaf.as_str());
    if !is_valid_rust_ident(struct_name.as_str()) {
        return Err(CmdError::NotAnIdentifier(leaf));
    }
    Ok(AddPlan { leaf, struct_name, mod_name })
}


/// Decides whether the working directory is a project that commands can be
/// added to, given whether it has `src/cli.rs` and `src/config.rs`.
pub fn check_project(has_cli: bool, has_config: bool) -> (r: Result<(), CmdError>)
    ensures
        !has_cli ==> r matches Err(CmdError::NoCliFile),
        has_cli && !has_config ==> r matches Err(CmdError::NoConfigFile),
        has_cli && has_config ==> r is Ok,
{
    if !has_cli {
        Err(CmdError::NoCliFile)
    } else if !has_config {
        Err(CmdError::NoConfigFile)
    } else {
        Ok(())
    }
}

/// Refuses to add the command of `plan` where its handler file already exists,
/// so that adding never overwrites a command.
pub fn check_not_added(plan: &AddPlan, handler_exists: bool) -> (r: Result<(), CmdError>)
    ensures
        handler_exists ==> (r matches Err(CmdError::AlreadyExists(l)) && l@ == plan.leaf@),
        !handler_exists ==> r is Ok,
{
    if handler_exists {
        Err(CmdError::AlreadyExists(plan.leaf.clone()))
    } else {
        Ok(())
    }
}

/// Path of the handler file of module `m`.
pub open spec fn handler_path_text(m: Seq<char>) -> Seq<char> {
    "src/commands/"@ + m + ".rs"@
}

/// The path of the handler file of module `mod_name`, relative to the project.
pub fn handler_path(mod_name: &str) -> (r: String)
    ensures
        r@ == handler_path_text(mod_name@),
{
    let mut v: Vec<char> = Vec::new();
    append_str(&mut v, "src/commands/");
    append_str(&mut v, mod_name);
    append_str(&mut v, ".rs");
    assert(v@ =~= handler_path_text(mod_name@));
    string_from_chars(&v)
}

/// Source of a new command's handler, for argument struct `s`.
pub open spec fn handler_text(s: Seq<char>) -> Seq<char> {
    "use crate::cli::"@ + s + ";\nuse crate::config::Config;\nuse anyhow::Result;\nuse std::path::Path;\n\npub fn execute(args: &"@
        + s + ", _cfg: &Config, _config_path: &Path) -> Result<()> {\n    println!(\"TODO: implement "@ + s
        + " command\");\n    Ok(())\n}\n"@
}

/// The source of a new command's handler module, for argument struct `struct_name`.
pub fn handler_source(struct_name: &str) -> (r: String)
    ensures
        r@ == handler_text(struct_name@),
{
    let mut v: Vec<char> = Vec::new();
    append_str(&mut v, "use crate::cli::");
    append_str(&mut v, struct_name);
    append_str(&mut v, ";\nuse crate::config::Config;\nuse anyhow::Result;\nuse std::path::Path;\n\npub fn execute(args: &");
    append_str(&mut v, struct_name);
    append_str(&mut v, ", _cfg: &Config, _config_path: &Path) -> Result<()> {\n    println!(\"TODO: implement ");
    append_str(&mut v, struct_name);
    append_str(&mut v, " command\");\n    Ok(())\n}\n");
    assert(v@ =~= handler_text(struct_name@));
    string_from_chars(&v)
}

/// `commands/mod.rs` with module `m` declared after its last line.
pub open spec fn registered_text(content: Seq<char>, m: Seq<char>) -> Seq<char> {
    trim_end_spec(content) + "\npub mod "@ + m + ";\n"@
}

/// The argument struct of command `s`, as appended to `cli.rs`.
pub open spec fn args_struct_text(s: Seq<char>) -> Seq<char> {
    "\n#[derive(clap::Args)]\npub struct "@ + s + " {\n    #[arg(long, help = \"Name\")]\n    pub name: Option<String>,\n}\n"@
}

/// The enum variant of command `s`, described by `desc`.
pub open spec fn variant_text(desc: Seq<char>, s: Seq<char>) -> Seq<char> {
    "    #[command(about = \""@ + desc + "\")]\n    "@ + s + "("@ + s + "),\n"@
}

/// The dispatch arm of command `s` with module `m`.
pub open spec fn arm_text(s: Seq<char>, m: Seq<char>) -> Seq<char> {
    "        Commands::"@ + s + "(args) => {\n            commands::"@ + m
        + "::execute(&args, cfg, config_path)\n                .context(\""@ + m + " command failed\")?\n        }\n"@
}

/// `content` with `insertion` (trailing white space replaced by one newline) put
/// just before the first occurrence of `marker`; `None` where the marker is missing.
pub open spec fn inserted_text(content: Seq<char>, marker: Seq<char>, insertion: Seq<char>) -> Option<Seq<char>> {
    match find_first(content, marker) {
        Some(i) => Some(content.take(i) + trim_end_spec(insertion) + seq!['\n'] + trim_start_spec(content.skip(i))),
        None => None,
    }
}

/// The marker in `cli.rs` before which enum variants of new commands go.
pub open spec fn enum_marker() -> Seq<char> {
    "// __CMD_ENUM_MARKER__"@
}

/// The marker in `main.rs` before which dispatch arms of new commands go.
pub open spec fn dispatch_marker() -> Seq<char> {
    "// __CMD_DISPATCH_MARKER__"@
}

/// Inserting before a marker keeps the content whole: everything before the
/// marker's first occurrence, then the insertion without trailing white space
/// and a newline, then the marker and everything after it, unchanged (a marker
/// that starts with a character that is not white space).
pub proof fn law_insert_keeps_content(content: Seq<char>, marker: Seq<char>, insertion: Seq<char>)
    requires
        marker.len() > 0,
        !unicode_white_space(marker[0]),
        find_first(content, marker) is Some,
    ensures
        ({
            let i = find_first(content, marker)->0;
            inserted_text(content, marker, insertion)
                == Some(content.take(i) + trim_end_spec(insertion) + seq!['\n'] + content.skip(i))
        }),
{
    crate::text::lemma_find_from(content, marker, 0);
    let i = find_first(content, marker)->0;
    let after = content.skip(i);
    assert(after[0] == content.subrange(i, i + marker.len())[0]);
    assert(trim_start_spec(after) == after);
}

/// Puts `insertion`, with trailing white space replaced by one newline, just before
/// the first occurrence of `marker` in `content`.
pub fn insert_before_marker(content: &Vec<char>, marker: &Vec<char>, insertion: &Vec<char>) -> (r: Option<Vec<char>>)
    ensures
        match r {
            Some(v) => inserted_text(content@, marker@, insertion@) == Some(v@),
            None => inserted_text(content@, marker@, insertion@) is None,
        },
{
    match find_chars(content, marker) {
        Some(i) => {
            proof { crate::text::lemma_find_from(content@, marker@, 0); }
            let mut v = slice_chars(content, 0, i);
            let ins = trim_end(insertion);
            append_chars(&mut v, &ins);
            v.push('\n');
            let after = slice_chars(content, i, content.len());
            let after = trim_start(&after);
            append_chars(&mut v, &after);
            assert(content@.subrange(0, i as int) =~= content@.take(i as int));
            assert(content@.subrange(i as int, content@.len() as int) =~= content@.skip(i as int));
            Some(v)
        },
        None => None,
    }
}

/// The files that adding a command writes.
pub struct AddEdits {
    /// Path of the new handler file.
    pub handler_path: String,
    /// Content of the new handler file.
    pub handler_source: String,
    /// New content of `src/commands/mod.rs`.
    pub mod_rs: String,
    /// New content of `src/cli.rs`.
    pub cli_rs: String,
    /// New content of `src/main.rs`, where it exists and holds the dispatch marker.
    pub main_rs: Option<String>,
}

/// The description of a command given none: its leaf and ` command`.
pub open spec fn default_desc(leaf: Seq<char>) -> Seq<char> {
    leaf + " command"@
}

/// Computes the files that adding the command of `plan` writes, from the current
/// contents of `src/commands/mod.rs`, `src/cli.rs` and (where it exists)
/// `src/main.rs`. `cli.rs` must hold the enum marker; `main.rs` is left alone
/// where it lacks the dispatch marker.
pub fn plan_edits(plan: &AddPlan, desc: Option<String>, mod_rs: &str, cli_rs: &str, main_rs: Option<String>)
    -> (r: Result<AddEdits, CmdError>)
    ensures
        ({
            let s = plan.struct_name@;
            let m = plan.mod_name@;
            let d = match desc { Some(d) => d@, None => default_desc(plan.leaf@) };
            let cli = trim_end_spec(cli_rs@) + args_struct_text(s);
            match inserted_text(cli, enum_marker(), variant_text(d, s)) {
                None => r matches Err(CmdError::MissingMarker(k)) && k@ == enum_marker(),
                Some(new_cli) => r matches Ok(e) && {
                    &&& e.handler_path@ == handler_path_text(m)
                    &&& e.handler_source@ == handler_text(s)
                    &&& e.mod_rs@ == registered_text(mod_rs@, m)
                    &&& e.cli_rs@ == new_cli
                    &&& match main_rs {
                        None => e.main_rs is None,
                        Some(main) => match inserted_text(main@, dispatch_marker(), arm_text(s, m)) {
                            Some(new_main) => e.main_rs matches Some(x) && x@ == new_main,
                            None => e.main_rs is None,
                        },
                    }
                },
            }
        }),
{
    let s = plan.struct_name.as_str();
    let m = plan.mod_name.as_str();

    let mut reg = chars_of(mod_rs);
    reg = trim_end(&reg);
    append_str(&mut reg, "\npub mod ");
    append_str(&mut reg, m);
    append_str(&mut reg, ";\n");
    assert(reg@ =~= registered_text(mod_rs@, m@));

    let cli_chars = chars_of(cli_rs);
    let mut cli = trim_end(&cli_chars);
    append_str(&mut cli, "\n#[derive(clap::Args)]\npub struct ");
    append_str(&mut cli, s);
    append_str(&mut cli, " {\n    #[arg(long, help = \"Name\")]\n    pub name: Option<String>,\n}\n");
    assert(cli@ =~= trim_end_spec(cli_rs@) + args_struct_text(s@));

    let ghost d = if desc is Some { desc->0@ } else { default_desc(plan.leaf@) };
    let mut variant: Vec<char> = Vec::new();
    append_str(&mut variant, "    #[command(about = \"");
    match desc {
        Some(d) => append_str(&mut variant, d.as_str()),
        None => {
            append_str(&mut variant, plan.leaf.as_str());
            append_str(&mut variant, " command");
        },
    }
    assert(variant@ =~= "    #[command(about = \""@ + d);
    append_str(&mut variant, "\")]\n    ");
    append_str(&mut variant, s);
    append_str(&mut variant, "(");
    append_str(&mut variant, s);
    append_str(&mut variant, "),\n");
    assert(variant@ =~= variant_text(d, s@));

    let enum_mark = chars_of("// __CMD_ENUM_MARKER__");
    let new_cli = match insert_before_marker(&cli, &enum_mark, &variant) {
        Some(c) => c,
        None => { return Err(CmdError::MissingMarker("// __CMD_ENUM_MARKER__".to_string())); },
    };

    let new_main = match main_rs {
        None => None,
        Some(main) => {
            let mut arm: Vec<char> = Vec::new();
            append_str(&mut arm, "        Commands::");
            append_str(&mut arm, s);
            append_str(&mut arm, "(args) => {\n            commands::");
            append_str(&mut arm, m);
            append_str(&mut arm, "::execute(&args, cfg, config_path)\n                .context(\"");
            append_str(&mut arm, m);
            append_str(&mut arm, " command failed\")?\n        }\n");
            assert(arm@ =~= arm_text(s@, m@));
            let dispatch_mark = chars_of("// __CMD_DISPATCH_MARKER__");
            let main_chars = chars_of(main.as_str());
            match insert_before_marker(&main_chars, &dispatch_mark, &arm) {
                Some(x) => Some(string_from_chars(&x)),
                None => None,
            }
        },
    };

    Ok(AddEdits {
        handler_path: handler_path(m),
        handler_source: handler_source(s),
        mod_rs: string_from_chars(&reg),
        cli_rs: string_from_chars(&new_cli),
        main_rs: new_main,
    })
}


/// `s` ends with `p`.
pub open spec fn ends_with(s: Seq<char>, p: Seq<char>) -> bool {
    p.len() <= s.len() && s.skip(s.len() - p.len()) == p
}

/// `s` with `p` removed from its end as often as it ends with it, as
/// `str::trim_end_matches` gives it.
pub open spec fn strip_suffixes(s: Seq<char>, p: Seq<char>) -> Seq<char>
    decreases s.len(),
{
    if p.len() > 0 && ends_with(s, p) {
        strip_suffixes(s.take(s.len() - p.len()), p)
    } else {
        s
    }
}

/// File `f` in `src/commands` is the handler of a command that was added: a `.rs`
/// file other than `mod.rs` and the handlers every new project has.
pub open spec fn is_added_command(f: Seq<char>) -> bool {
    ends_with(f, ".rs"@) && f != "mod.rs"@ && f != "greet.rs"@ && f != "config.rs"@
}

/// The commands that the handler files `files` stand for, in order.
pub open spec fn added_commands(files: Seq<Seq<char>>) -> Seq<Seq<char>>
    decreases files.len(),
{
    if files.len() == 0 {
        Seq::empty()
    } else {
        let rest = added_commands(files.drop_last());
        if is_added_command(files.last()) {
            rest.push(strip_suffixes(files.last(), ".rs"@))
        } else {
            rest
        }
    }
}

/// Whether `s` ends with `p`.
pub fn ends_with_chars(s: &Vec<char>, p: &Vec<char>) -> (b: bool)
    ensures
        b == ends_with(s@, p@),
{
    let n = s.len();
    let m = p.len();
    if m > n {
        return false;
    }
    let off = n - m;
    for k in 0..m
        invariant
            n == s@.len(),
            m == p@.len(),
            off == n - m,
            forall|j: int| 0 <= j < k ==> s@[off + j] == p@[j],
    {
        if s[off + k] != p[k] {
            assert(s@.skip(off as int)[k as int] != p@[k as int]);
            return false;
        }
    }
    assert(s@.skip(off as int) =~= p@);
    true
}

/// The commands that the files `files` of `src/commands` stand for: each `.rs`
/// file but `mod.rs`, `greet.rs` and `config.rs`, named without its `.rs` suffix.
pub fn command_names(files: &Vec<String>) -> (r: Vec<String>)
    ensures
        r@.map_values(|v: String| v@) == added_commands(files@.map_values(|v: String| v@)),
{
    let ghost views = files@.map_values(|v: String| v@);
    let suffix = chars_of(".rs");
    proof { reveal_strlit(".rs"); }
    assert(suffix@.len() == 3);
    let mod_rs = "mod.rs".to_string();
    let greet_rs = "greet.rs".to_string();
    let config_rs = "config.rs".to_string();
    let mut out: Vec<String> = Vec::new();
    let n = files.len();
    for i in 0..n
        invariant
            n == files@.len() == views.len(),
            views == files@.map_values(|v: String| v@),
            suffix@ == ".rs"@,
            suffix@.len() == 3,
            mod_rs@ == "mod.rs"@,
            greet_rs@ == "greet.rs"@,
            config_rs@ == "config.rs"@,
            out@.map_values(|v: String| v@) == added_commands(views.take(i as int)),
    {
        assert(views.take(i + 1).drop_last() =~= views.take(i as int));
        assert(views.take(i + 1).last() == files@[i as int]@);
        let f = chars_of(files[i].as_str());
        if ends_with_chars(&f, &suffix) && files[i] != mod_rs && files[i] != greet_rs && files[i] != config_rs {
            let mut cur = f;
            while ends_with_chars(&cur, &suffix)
                invariant
                    suffix@ == ".rs"@,
                    suffix@.len() == 3,
                    strip_suffixes(cur@, ".rs"@) == strip_suffixes(files@[i as int]@, ".rs"@),
                decreases cur@.len(),
            {
                cur = slice_chars(&cur, 0, cur.len() - suffix.len());
                assert(cur@ =~= cur@.take(cur@.len() as int));
            }
            let ghost before = out@;
            out.push(string_from_chars(&cur));
            assert(out@.map_values(|v: String| v@) =~= before.map_values(|v: String| v@).push(cur@));
        }
    }
    assert(views.take(n as int) =~= views);
    out
}

/// The handler file of an existing command.
pub struct EditTarget {
    /// The last segment of the dotted name.
    pub leaf: String,
    /// Path of the handler file, relative to the project.
    pub path: String,
}

/// Finds the handler file of the command with dotted name `name`: the file of
/// the lower-cased last segment under `src/commands`.
pub fn edit_target(name: &str) -> (r: Result<EditTarget, CmdError>)
    ensures
        name@.len() == 0 ==> r matches Err(CmdError::NameRequired),
        name@.len() > 0 && is_unsafe_name(name@) ==> (r matches Err(CmdError::InvalidName(n)) && n@ == name@),
        name@.len() > 0 && !is_unsafe_name(name@) ==> {
            let leaf = leaf_of(name@);
            if leaf.len() == 0 {
                r matches Err(CmdError::EmptyLeaf)
            } else {
                r matches Ok(t) && t.leaf@ == leaf && t.path@ == handler_path_text(unicode_lowercase(leaf))
            }
        },
        ascii_chars(leaf_of(name@)) ==> (r matches Ok(t) ==> t.path@ == handler_path_text(ascii_lower_str(leaf_of(name@)))),
        r is Ok <==> edit_path_of(name@) is Some,
        r matches Ok(t) ==> edit_path_of(name@) == Some(t.path@),
{
    match validate_name(name) {
        Ok(()) => {},
        Err(e) => { return Err(e); },
    }
    let chars = chars_of(name);
    let segments = split_chars(&chars, '.');
    proof { lemma_split_on_nonempty(name@, '.'); }
    let n = segments.len();
    assert(segments@[n - 1]@ == split_on(name@, '.')[n - 1]);
    let leaf = string_from_chars(&segments[n - 1]);
    if segments[n - 1].len() == 0 {
        return Err(CmdError::EmptyLeaf);
    }
    let lower = str_to_lowercase(leaf.as_str());
    let path = handler_path(lower.as_str());
    Ok(EditTarget { leaf, path })
}


/// `cmd edit` opens the handler file that `cmd add` writes: every dotted name
/// that adding accepts, editing accepts too, and both lead to the same file.
pub proof fn law_edit_opens_added_handler(name: Seq<char>)
    requires
        add_path_of(name) is Some,
    ensures
        edit_path_of(name) == add_path_of(name),
{
    lemma_split_on_nonempty(name, '.');
    let segs = split_on(name, '.');
    assert(segs[segs.len() - 1].len() > 0);
}

/// `cmd show` lists a command that `cmd add` created: the handler file of
/// module `m` is listed as `m`, unless it is one of the handlers every project has.
pub proof fn law_show_lists_added_module(m: Seq<char>)
    requires
        !ends_with(m, ".rs"@),
        m + ".rs"@ != "mod.rs"@,
        m + ".rs"@ != "greet.rs"@,
        m + ".rs"@ != "config.rs"@,
    ensures
        added_commands(seq![m + ".rs"@]) == seq![m],
{
    reveal_strlit(".rs");
    let f = m + ".rs"@;
    assert(f.skip(f.len() - 3) =~= ".rs"@);
    assert(f.take(f.len() - 3) =~= m);
    assert(ends_with(f, ".rs"@));
    assert(strip_suffixes(m, ".rs"@) == m);
    assert(strip_suffixes(f, ".rs"@) == m);
    assert(is_added_command(f));
    assert(seq![f].drop_last() =~= Seq::<Seq<char>>::empty());
    assert(added_commands(Seq::<Seq<char>>::empty()).push(m) =~= seq![m]);
}

} // verus!
