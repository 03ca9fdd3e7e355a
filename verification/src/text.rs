//! Character-level text helpers shared by the rest of the library.

use vstd::prelude::*;
use vstd::string::*;

verus! {

/// Splits `s` at the first occurrence of `c`: the part before it and the part after it.
pub open spec fn split_first(s: Seq<char>, c: char) -> Option<(Seq<char>, Seq<char>)> {
    match s.index_of_first(c) {
        Some(i) => Some((s.take(i), s.skip(i + 1))),
        None => None,
    }
}

/// What `split_first` gives back: a prefix free of `c`, then `c`, then the rest.
pub proof fn lemma_split_first(s: Seq<char>, c: char)
    ensures
        split_first(s, c) is None <==> !s.contains(c),
        split_first(s, c) matches Some((a, b)) ==> {
            &&& s == a + seq![c] + b
            &&& !a.contains(c)
            &&& a.len() < s.len()
            &&& b.len() < s.len()
        },
{
    s.index_of_first_ensures(c);
    if let Some(i) = s.index_of_first(c) {
        assert(s =~= s.take(i) + seq![c] + s.skip(i + 1));
    }
}

/// Splitting `a`, `c`, `b` at the first `c` gives `a` and `b`, where `a` holds no `c`.
pub proof fn lemma_split_first_of(a: Seq<char>, b: Seq<char>, c: char)
    requires
        !a.contains(c),
    ensures
        split_first(a + seq![c] + b, c) == Some((a, b)),
{
    let s = a + seq![c] + b;
    assert(s[a.len() as int] == c);
    assert(s.contains(c));
    lemma_split_first(s, c);
    let (a2, b2) = split_first(s, c)->0;
    assert(s == a2 + seq![c] + b2);
    if a2.len() < a.len() {
        assert(s[a2.len() as int] == c);
        assert(a[a2.len() as int] == c);
        assert(a.contains(c));
    } else if a2.len() > a.len() {
        assert(a2[a.len() as int] == s[a.len() as int]);
        assert(a2.contains(c));
    }
    assert(a2.len() == a.len());
    assert forall|i: int| 0 <= i < a.len() implies a2[i] == a[i] by {
        assert(a2[i] == s[i]);
    }
    assert(a2 =~= a);
    assert(b2.len() == b.len());
    assert forall|i: int| 0 <= i < b.len() implies b2[i] == b[i] by {
        assert(b2[i] == s[a.len() + 1 + i]);
    }
    assert(b2 =~= b);
}

/// The characters of `s`, in order.
pub fn chars_of(s: &str) -> (v: Vec<char>)
    ensures
        v@ == s@,
{
    let n = s.unicode_len();
    let mut v: Vec<char> = Vec::new();
    for i in 0..n
        invariant
            n == s@.len(),
            v@ == s@.take(i as int),
    {
        v.push(s.get_char(i));
        assert(s@.take(i + 1) =~= s@.take(i as int).push(s@[i as int]));
    }
    assert(s@.take(n as int) =~= s@);
    v
}

/// A string made of the characters of `v`.
///
/// Calls `FromIterator<&char>` for `String` (std): the string holds exactly the
/// characters it is given, in order.
#[verifier::external_body]
pub(crate) fn string_from_chars(v: &Vec<char>) -> (s: String)
    ensures
        s@ == v@,
{
    v.iter().collect()
}

/// Splits `s` at its first `c`, as `str::split_once` does.
pub fn split_once(s: &Vec<char>, c: char) -> (r: Option<(Vec<char>, Vec<char>)>)
    ensures
        match r {
            Some((a, b)) => split_first(s@, c) == Some((a@, b@)),
            None => split_first(s@, c) is None,
        },
{
    proof { s@.index_of_first_ensures(c); }
    let n = s.len();
    let mut i: usize = 0;
    while i < n
        invariant
            n == s@.len(),
            i <= n,
            forall|j: int| 0 <= j < i ==> s@[j] != c,
        decreases n - i,
    {
        if s[i] == c {
            let mut a: Vec<char> = Vec::new();
            let mut k: usize = 0;
            while k < i
                invariant
                    i < n == s@.len(),
                    k <= i,
                    a@ == s@.take(k as int),
                decreases i - k,
            {
                a.push(s[k]);
                assert(s@.take(k + 1) =~= s@.take(k as int).push(s@[k as int]));
                k = k + 1;
            }
            let mut b: Vec<char> = Vec::new();
            let mut k: usize = i + 1;
            while k < n
                invariant
                    i < n == s@.len(),
                    i + 1 <= k <= n,
                    b@ == s@.subrange(i + 1, k as int),
                decreases n - k,
            {
                b.push(s[k]);
                assert(s@.subrange(i + 1, k + 1) =~= s@.subrange(i + 1, k as int).push(s@[k as int]));
                k = k + 1;
            }
            proof {
                s@.index_of_first_ensures(c);
                assert(s@[i as int] == c);
                assert(s@.contains(c));
                let f = s@.index_of_first(c).unwrap();
                assert(f == i);
                assert(b@ =~= s@.skip(i + 1));
            }
            return Some((a, b));
        }
        i = i + 1;
    }
    proof {
        s@.index_of_first_ensures(c);
        if s@.contains(c) {
            let j = choose|j: int| 0 <= j < s@.len() && s@[j] == c;
            assert(s@[j] != c);
        }
    }
    None
}


/// The characters `s[from..to]`.
pub fn slice_chars(s: &Vec<char>, from: usize, to: usize) -> (v: Vec<char>)
    requires
        from <= to <= s@.len(),
    ensures
        v@ == s@.subrange(from as int, to as int),
{
    let mut v: Vec<char> = Vec::new();
    let mut k = from;
    while k < to
        invariant
            from <= k <= to <= s@.len(),
            v@ == s@.subrange(from as int, k as int),
        decreases to - k,
    {
        v.push(s[k]);
        assert(s@.subrange(from as int, k + 1) =~= s@.subrange(from as int, k as int).push(s@[k as int]));
        k = k + 1;
    }
    v
}

/// Appends the characters of `b` to `a`.
pub fn append_chars(a: &mut Vec<char>, b: &Vec<char>)
    ensures
        final(a)@ == old(a)@ + b@,
{
    let n = b.len();
    let ghost start = a@;
    for k in 0..n
        invariant
            n == b@.len(),
            a@ == start + b@.take(k as int),
    {
        a.push(b[k]);
        assert(b@.take(k + 1) =~= b@.take(k as int).push(b@[k as int]));
        assert(start + b@.take(k + 1) =~= (start + b@.take(k as int)).push(b@[k as int]));
    }
    assert(b@.take(n as int) =~= b@);
}

/// Appends the characters of the string `b` to `a`.
pub fn append_str(a: &mut Vec<char>, b: &str)
    ensures
        final(a)@ == old(a)@ + b@,
{
    let v = chars_of(b);
    append_chars(a, &v);
}

/// `p` occurs in `s` at index `i`.
pub open spec fn occurs_at(s: Seq<char>, p: Seq<char>, i: int) -> bool {
    0 <= i && i + p.len() <= s.len() && s.subrange(i, i + p.len()) == p
}

/// The first index at or after `i` where `p` occurs in `s`.
pub open spec fn find_from(s: Seq<char>, p: Seq<char>, i: int) -> Option<int>
    decreases s.len() + 1 - i,
{
    if i < 0 || i + p.len() > s.len() {
        None
    } else if occurs_at(s, p, i) {
        Some(i)
    } else {
        find_from(s, p, i + 1)
    }
}

/// The first index where `p` occurs in `s`, as `str::find` reports it.
pub open spec fn find_first(s: Seq<char>, p: Seq<char>) -> Option<int> {
    find_from(s, p, 0)
}

/// What `find_from` gives back: an occurrence, with none before it.
pub proof fn lemma_find_from(s: Seq<char>, p: Seq<char>, i: int)
    requires
        0 <= i,
    ensures
        find_from(s, p, i) matches Some(j) ==> i <= j && occurs_at(s, p, j)
            && forall|k: int| i <= k < j ==> !occurs_at(s, p, k),
        find_from(s, p, i) is None ==> forall|k: int| i <= k ==> !occurs_at(s, p, k),
    decreases s.len() + 1 - i,
{
    if i + p.len() > s.len() {
    } else if occurs_at(s, p, i) {
    } else {
        lemma_find_from(s, p, i + 1);
    }
}

/// The index of the first occurrence of `p` in `s`.
pub fn find_chars(s: &Vec<char>, p: &Vec<char>) -> (r: Option<usize>)
    ensures
        match r {
            Some(i) => find_first(s@, p@) == Some(i as int),
            None => find_first(s@, p@) is None,
        },
{
    let n = s.len();
    let m = p.len();
    if m > n {
        return None;
    }
    let mut i: usize = 0;
    while i <= n - m
        invariant
            n == s@.len(),
            m == p@.len(),
            m <= n,
            i <= n - m + 1,
            find_from(s@, p@, 0) == find_from(s@, p@, i as int),
        decreases n - i,
    {
        let mut k: usize = 0;
        let mut same = true;
        assert(s@.subrange(i as int, i as int) =~= p@.take(0));
        while k < m
            invariant
                n == s@.len(),
                m == p@.len(),
                i + m <= n,
                k <= m,
                same == (s@.subrange(i as int, i + k) == p@.take(k as int)),
            decreases m - k,
        {
            if same && s[i + k] != p[k] {
                same = false;
                assert(s@.subrange(i as int, i + k + 1)[k as int] != p@.take(k + 1)[k as int]);
            } else if same {
                assert(s@.subrange(i as int, i + k + 1) =~= s@.subrange(i as int, i + k).push(s@[i + k]));
                assert(p@.take(k + 1) =~= p@.take(k as int).push(p@[k as int]));
            } else {
                assert(s@.subrange(i as int, i + k) =~= s@.subrange(i as int, i + k + 1).take(k as int));
                assert(p@.take(k as int) =~= p@.take(k + 1).take(k as int));
            }
            k = k + 1;
        }
        assert(p@.take(m as int) =~= p@);
        if same {
            return Some(i);
        }
        i = i + 1;
    }
    None
}

/// Unicode's `White_Space` property of a character, which `char::is_whitespace`
/// reports: the 25 code points U+0009 to U+000D, U+0020, U+0085, U+00A0,
/// U+1680, U+2000 to U+200A, U+2028, U+2029, U+202F, U+205F and U+3000.
pub open spec fn unicode_white_space(c: char) -> bool {
    ('\u{9}' <= c && c <= '\u{d}') || c == ' ' || c == '\u{85}' || c == '\u{a0}' || c == '\u{1680}'
        || ('\u{2000}' <= c && c <= '\u{200a}') || c == '\u{2028}' || c == '\u{2029}' || c == '\u{202f}'
        || c == '\u{205f}' || c == '\u{3000}'
}

/// Whether `c` is white space, as `char::is_whitespace` reports it.
pub(crate) fn char_is_whitespace(c: char) -> (b: bool)
    ensures
        b == unicode_white_space(c),
{
    ('\u{9}' <= c && c <= '\u{d}') || c == ' ' || c == '\u{85}' || c == '\u{a0}' || c == '\u{1680}'
        || ('\u{2000}' <= c && c <= '\u{200a}') || c == '\u{2028}' || c == '\u{2029}' || c == '\u{202f}'
        || c == '\u{205f}' || c == '\u{3000}'
}

/// `s` without trailing white space, as `str::trim_end` gives it.
pub open spec fn trim_end_spec(s: Seq<char>) -> Seq<char>
    decreases s.len(),
{
    if s.len() > 0 && unicode_white_space(s.last()) {
        trim_end_spec(s.drop_last())
    } else {
        s
    }
}

/// `s` without leading white space, as `str::trim_start` gives it.
pub open spec fn trim_start_spec(s: Seq<char>) -> Seq<char>
    decreases s.len(),
{
    if s.len() > 0 && unicode_white_space(s[0]) {
        trim_start_spec(s.drop_first())
    } else {
        s
    }
}

/// `s` without trailing white space.
pub fn trim_end(s: &Vec<char>) -> (v: Vec<char>)
    ensures
        v@ == trim_end_spec(s@),
{
    let mut end = s.len();
    assert(s@.take(end as int) =~= s@);
    while end > 0 && char_is_whitespace(s[end - 1])
        invariant
            end <= s@.len(),
            trim_end_spec(s@) == trim_end_spec(s@.take(end as int)),
        decreases end,
    {
        assert(s@.take(end as int).drop_last() =~= s@.take(end - 1));
        end = end - 1;
    }
    assert(s@.take(end as int) =~= s@.subrange(0, end as int));
    slice_chars(s, 0, end)
}

/// `s` without leading white space.
pub fn trim_start(s: &Vec<char>) -> (v: Vec<char>)
    ensures
        v@ == trim_start_spec(s@),
{
    let n = s.len();
    let mut start: usize = 0;
    assert(s@.skip(0) =~= s@);
    while start < n && char_is_whitespace(s[start])
        invariant
            n == s@.len(),
            start <= n,
            trim_start_spec(s@) == trim_start_spec(s@.skip(start as int)),
        decreases n - start,
    {
        assert(s@.skip(start as int).drop_first() =~= s@.skip(start + 1));
        start = start + 1;
    }
    assert(s@.skip(start as int) =~= s@.subrange(start as int, n as int));
    slice_chars(s, start, n)
}


/// `a` comes before `b` in the lexicographic order of characters, which is the
/// order of `String`s (UTF-8 keeps the order of code points).
pub open spec fn lex_less(a: Seq<char>, b: Seq<char>) -> bool
    decreases a.len(),
{
    if a.len() == 0 {
        b.len() > 0
    } else if b.len() == 0 {
        false
    } else if a[0] != b[0] {
        a[0] < b[0]
    } else {
        lex_less(a.drop_first(), b.drop_first())
    }
}

/// The lexicographic order is a strict total order.
pub proof fn lemma_lex_order(a: Seq<char>, b: Seq<char>, c: Seq<char>)
    ensures
        !lex_less(a, a),
        lex_less(a, b) ==> !lex_less(b, a),
        lex_less(a, b) && lex_less(b, c) ==> lex_less(a, c),
        a != b ==> lex_less(a, b) || lex_less(b, a),
    decreases a.len(),
{
    if a.len() > 0 {
        lemma_lex_order(a.drop_first(), a.drop_first(), a.drop_first());
        if b.len() > 0 {
            if c.len() > 0 {
                lemma_lex_order(a.drop_first(), b.drop_first(), c.drop_first());
            } else {
                lemma_lex_order(a.drop_first(), b.drop_first(), b.drop_first());
            }
            if a != b && a[0] == b[0] {
                assert(a.drop_first() != b.drop_first()) by {
                    if a.drop_first() == b.drop_first() {
                        assert(a =~= seq![a[0]] + a.drop_first());
                        assert(b =~= seq![b[0]] + b.drop_first());
                    }
                }
            }
        }
    } else {
        if b.len() == 0 {
            assert(a =~= b);
        }
    }
}

/// Every character of `s` is ASCII.
pub open spec fn ascii_chars(s: Seq<char>) -> bool {
    forall|i: int| 0 <= i < s.len() ==> #[trigger] s[i] <= '\u{7f}'
}

/// The code of `c` made upper case where it is an ASCII lower-case letter.
pub open spec fn ascii_upper_code(c: char) -> int {
    if 'a' <= c && c <= 'z' { c as int - 32 } else { c as int }
}

/// The code of `c` made lower case where it is an ASCII upper-case letter.
pub open spec fn ascii_lower_code(c: char) -> int {
    if 'A' <= c && c <= 'Z' { c as int + 32 } else { c as int }
}

/// `s` with each ASCII lower-case letter made upper case, other characters kept.
pub open spec fn ascii_upper_str(s: Seq<char>) -> Seq<char> {
    s.map_values(|c: char| ascii_upper_code(c) as char)
}

/// `s` with each ASCII upper-case letter made lower case, other characters kept.
pub open spec fn ascii_lower_str(s: Seq<char>) -> Seq<char> {
    s.map_values(|c: char| ascii_lower_code(c) as char)
}

/// `s` is strictly increasing in the lexicographic order: sorted, each element once.
pub open spec fn strictly_sorted(s: Seq<Seq<char>>) -> bool {
    forall|i: int, j: int| 0 <= i < j < s.len() ==> lex_less(#[trigger] s[i], #[trigger] s[j])
}

/// The strictly increasing sequence of the elements of the finite set `s`.
pub open spec fn sorted_seq(s: Set<Seq<char>>) -> Seq<Seq<char>> {
    choose|q: Seq<Seq<char>>| strictly_sorted(q) && q.to_set() == s
}

/// A strictly increasing sequence is determined by the set of its elements.
pub proof fn lemma_sorted_unique(a: Seq<Seq<char>>, b: Seq<Seq<char>>)
    requires
        strictly_sorted(a),
        strictly_sorted(b),
        a.to_set() == b.to_set(),
    ensures
        a == b,
    decreases a.len(),
{
    if a.len() == 0 {
        if b.len() > 0 {
            assert(b.to_set().contains(b[0]));
        }
        assert(a =~= b);
    } else {
        assert(a.to_set().contains(a[0]));
        let k = choose|k: int| 0 <= k < b.len() && b[k] == a[0];
        assert(b.to_set().contains(b[0]));
        let m = choose|m: int| 0 <= m < a.len() && a[m] == b[0];
        lemma_lex_order(a[0], b[0], a[0]);
        if k > 0 {
            assert(lex_less(b[0], b[k]));
            if m > 0 {
                assert(lex_less(a[0], a[m]));
            }
        }
        assert(a[0] == b[0]);
        let a1 = a.drop_first();
        let b1 = b.drop_first();
        assert forall|x: Seq<char>| a1.to_set().contains(x) implies b1.to_set().contains(x) by {
            let i = choose|i: int| 0 <= i < a1.len() && a1[i] == x;
            assert(a[i + 1] == x);
            assert(lex_less(a[0], a[i + 1]));
            lemma_lex_order(x, x, x);
            assert(b.to_set().contains(x));
            let j = choose|j: int| 0 <= j < b.len() && b[j] == x;
            assert(j != 0);
            assert(b1[j - 1] == x);
        }
        assert forall|x: Seq<char>| b1.to_set().contains(x) implies a1.to_set().contains(x) by {
            let i = choose|i: int| 0 <= i < b1.len() && b1[i] == x;
            assert(b[i + 1] == x);
            assert(lex_less(b[0], b[i + 1]));
            lemma_lex_order(x, x, x);
            assert(a.to_set().contains(x));
            let j = choose|j: int| 0 <= j < a.len() && a[j] == x;
            assert(j != 0);
            assert(a1[j - 1] == x);
        }
        assert(a1.to_set() =~= b1.to_set());
        assert forall|i: int, j: int| 0 <= i < j < a1.len() implies lex_less(#[trigger] a1[i], #[trigger] a1[j]) by {
            assert(a1[i] == a[i + 1] && a1[j] == a[j + 1]);
        }
        assert forall|i: int, j: int| 0 <= i < j < b1.len() implies lex_less(#[trigger] b1[i], #[trigger] b1[j]) by {
            assert(b1[i] == b[i + 1] && b1[j] == b[j + 1]);
        }
        lemma_sorted_unique(a1, b1);
        assert(a =~= seq![a[0]] + a1);
        assert(b =~= seq![b[0]] + b1);
    }
}

/// A strictly increasing sequence is the sorted sequence of its own elements.
pub proof fn lemma_sorted_seq_of(q: Seq<Seq<char>>)
    requires
        strictly_sorted(q),
    ensures
        sorted_seq(q.to_set()) == q,
{
    let r = sorted_seq(q.to_set());
    assert(strictly_sorted(r) && r.to_set() == q.to_set());
    lemma_sorted_unique(r, q);
}

/// Whether `a` comes before `b` in the lexicographic order of characters.
pub fn lex_less_chars(a: &Vec<char>, b: &Vec<char>) -> (r: bool)
    ensures
        r == lex_less(a@, b@),
{
    let n = a.len();
    let m = b.len();
    let mut i: usize = 0;
    assert(a@.skip(0) =~= a@);
    assert(b@.skip(0) =~= b@);
    while i < n && i < m
        invariant
            n == a@.len(),
            m == b@.len(),
            i <= n,
            i <= m,
            lex_less(a@, b@) == lex_less(a@.skip(i as int), b@.skip(i as int)),
        decreases n - i,
    {
        if a[i] != b[i] {
            return a[i] < b[i];
        }
        assert(a@.skip(i as int).drop_first() =~= a@.skip(i + 1));
        assert(b@.skip(i as int).drop_first() =~= b@.skip(i + 1));
        i = i + 1;
    }
    i == n && i < m
}

/// Adds `key` to the sorted set of strings `out`, keeping it sorted.
pub fn insert_sorted(out: &mut Vec<String>, key: String)
    requires
        strictly_sorted(old(out)@.map_values(|v: String| v@)),
    ensures
        strictly_sorted(final(out)@.map_values(|v: String| v@)),
        final(out)@.map_values(|v: String| v@).to_set() == old(out)@.map_values(|v: String| v@).to_set().insert(key@),
{
    let ghost views = out@.map_values(|v: String| v@);
    let k = chars_of(key.as_str());
    let n = out.len();
    let mut p: usize = 0;
    while p < n
        invariant
            n == out@.len() == views.len(),
            views == out@.map_values(|v: String| v@),
            k@ == key@,
            p <= n,
            forall|j: int| 0 <= j < p ==> lex_less(#[trigger] views[j], key@),
        ensures
            p <= n,
            forall|j: int| 0 <= j < p ==> lex_less(#[trigger] views[j], key@),
            p < n ==> !lex_less(views[p as int], key@),
        decreases n - p,
    {
        let e = chars_of(out[p].as_str());
        assert(views[p as int] == out@[p as int]@);
        if !lex_less_chars(&e, &k) {
            break;
        }
        p = p + 1;
    }
    if p < n {
        let e = chars_of(out[p].as_str());
        assert(views[p as int] == e@);
        if out[p] == key {
            assert(views.to_set().insert(key@) =~= views.to_set()) by {
                assert(views.contains(key@));
            }
            return;
        }
        proof {
            lemma_lex_order(e@, key@, key@);
        }
        assert(lex_less(key@, views[p as int]));
    }
    out.insert(p, key);
    let ghost nv = out@.map_values(|v: String| v@);
    assert(nv =~= views.insert(p as int, key@));
    assert forall|i: int, j: int| 0 <= i < j < nv.len() implies lex_less(#[trigger] nv[i], #[trigger] nv[j]) by {
        if j < p {
            assert(nv[i] == views[i] && nv[j] == views[j]);
        } else if j == p {
            assert(nv[i] == views[i]);
        } else if i < p {
            assert(nv[i] == views[i] && nv[j] == views[j - 1]);
            if j - 1 > p {
                assert(lex_less(views[p as int], views[j - 1]));
                lemma_lex_order(key@, views[p as int], views[j - 1]);
            }
            assert(lex_less(key@, views[j - 1]));
            lemma_lex_order(views[i], key@, views[j - 1]);
        } else if i == p {
            assert(nv[j] == views[j - 1]);
            if j - 1 > p {
                assert(lex_less(views[p as int], views[j - 1]));
                lemma_lex_order(key@, views[p as int], views[j - 1]);
            }
        } else {
            assert(nv[i] == views[i - 1] && nv[j] == views[j - 1]);
        }
    }
    assert(nv.to_set() =~= views.to_set().insert(key@)) by {
        assert forall|x: Seq<char>| nv.to_set().contains(x) implies views.to_set().insert(key@).contains(x) by {
            let i = choose|i: int| 0 <= i < nv.len() && nv[i] == x;
            if i < p {
                assert(views[i] == x);
            } else if i > p {
                assert(views[i - 1] == x);
            }
        }
        assert forall|x: Seq<char>| views.to_set().insert(key@).contains(x) implies nv.to_set().contains(x) by {
            if x == key@ {
                assert(nv[p as int] == x);
            } else {
                let i = choose|i: int| 0 <= i < views.len() && views[i] == x;
                if i < p {
                    assert(nv[i] == x);
                } else {
                    assert(nv[i + 1] == x);
                }
            }
        }
    }
}

} // verus!
