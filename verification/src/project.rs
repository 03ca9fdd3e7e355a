//! Creating a project: checking the project's name and filling it into the
//! project's template files.

use vstd::prelude::*;
use vstd::string::*;
use crate::text::{chars_of, string_from_chars, append_chars, find_chars, find_first, slice_chars, lemma_find_from, occurs_at};
use crate::command::{is_unsafe_name, has_unsafe_part};

verus! {

broadcast use vstd::string::group_string_axioms;

/// Why a project name was refused.
#[derive(Debug)]
pub enum InitError {
    /// The project name is empty.
    NameRequired,
    /// The project name holds `/`, `\`, `..` or a NUL character.
    InvalidName(String),
    /// A file or directory of the project's name (given here) already exists.
    AlreadyExists(String),
}

/// Checks the name of a new project, which becomes a directory: it must not be
/// empty and must not hold `/`, `\`, `..` or a NUL character.
pub fn validate_project_name(name: &str) -> (r: Result<(), InitError>)
    ensures
        name@.len() == 0 ==> r matches Err(InitError::NameRequired),
        name@.len() > 0 && is_unsafe_name(name@) ==> (r matches Err(InitError::InvalidName(n)) && n@ == name@),
        name@.len() > 0 && !is_unsafe_name(name@) ==> r is Ok,
{
    let chars = chars_of(name);
    if chars.len() == 0 {
        return Err(InitError::NameRequired);
    }
    if has_unsafe_part(&chars) {
        return Err(InitError::InvalidName(name.to_string()));
    }
    Ok(())
}

/// Decides whether a project can be created under `name`, given whether a file
/// or directory of that name exists: the name must be valid, and nothing may be
/// there yet, so that creating a project never overwrites one.
pub fn check_new_project(name: &str, exists: bool) -> (r: Result<(), InitError>)
    ensures
        name@.len() == 0 ==> r matches Err(InitError::NameRequired),
        name@.len() > 0 && is_unsafe_name(name@) ==> (r matches Err(InitError::InvalidName(n)) && n@ == name@),
        name@.len() > 0 && !is_unsafe_name(name@) && exists
            ==> (r matches Err(InitError::AlreadyExists(n)) && n@ == name@),
        name@.len() > 0 && !is_unsafe_name(name@) && !exists ==> r is Ok,
{
    validate_project_name(name)?;
    if exists {
        return Err(InitError::AlreadyExists(name.to_string()));
    }
    Ok(())
}

/// `s` with every occurrence of `p` replaced by `r`, left to right and without
/// overlap, as `str::replace` gives it for a non-empty `p`.
pub open spec fn replace_all(s: Seq<char>, p: Seq<char>, r: Seq<char>) -> Seq<char>
    decreases s.len(),
{
    if p.len() == 0 {
        s
    } else {
        match find_first(s, p) {
            Some(i) => {
                proof { lemma_find_from(s, p, 0); }
                s.take(i) + r + replace_all(s.skip(i + p.len()), p, r)
            },
            None => s,
        }
    }
}

/// `s` with every occurrence of the non-empty `p` replaced by `r`.
pub fn replace_all_chars(s: &Vec<char>, p: &Vec<char>, r: &Vec<char>) -> (v: Vec<char>)
    requires
        p@.len() > 0,
    ensures
        v@ == replace_all(s@, p@, r@),
    decreases s@.len(),
{
    match find_chars(s, p) {
        Some(i) => {
            proof { lemma_find_from(s@, p@, 0); }
            assert(find_from_zero_is(s@, p@, i as int));
            assert(i + p@.len() <= s@.len());
            let mut v = slice_chars(s, 0, i);
            append_chars(&mut v, r);
            let plen = p.len();
            let slen = s.len();
            assert(i + plen <= slen);
            let rest = slice_chars(s, i + plen, slen);
            let rest = replace_all_chars(&rest, p, r);
            append_chars(&mut v, &rest);
            assert(s@.subrange(0, i as int) =~= s@.take(i as int));
            assert(s@.subrange(i + p@.len(), s@.len() as int) =~= s@.skip(i + p@.len()));
            v
        },
        None => {
            assert(s@.subrange(0, s@.len() as int) =~= s@);
            slice_chars(s, 0, s.len())
        },
    }
}

/// `p` is found first at `i` in `s`.
spec fn find_from_zero_is(s: Seq<char>, p: Seq<char>, i: int) -> bool {
    crate::text::find_from(s, p, 0) == Some(i) && crate::text::occurs_at(s, p, i)
}

/// The placeholder that template files hold for the project's name.
pub open spec fn name_placeholder() -> Seq<char> {
    "{{project_name}}"@
}

/// A template file's content with the project's name in place of every placeholder.
pub fn render_template(content: &str, project_name: &str) -> (r: String)
    ensures
        r@ == replace_all(content@, name_placeholder(), project_name@),
{
    let s = chars_of(content);
    let p = chars_of("{{project_name}}");
    proof { reveal_strlit("{{project_name}}"); }
    assert(p@.len() > 0);
    let n = chars_of(project_name);
    let v = replace_all_chars(&s, &p, &n);
    proof {
        if find_first(s@, p@) is None {
            assert(s@.subrange(0, s@.len() as int) =~= s@);
        }
    }
    string_from_chars(&v)
}


/// A template that holds the placeholder comes out holding the project's name:
/// the first placeholder's place now holds the name.
pub proof fn law_render_names_project(content: Seq<char>, name: Seq<char>)
    requires
        find_first(content, name_placeholder()) is Some,
    ensures
        occurs_at(replace_all(content, name_placeholder(), name), name,
            find_first(content, name_placeholder())->0),
{
    reveal_strlit("{{project_name}}");
    lemma_find_from(content, name_placeholder(), 0);
    let i = find_first(content, name_placeholder())->0;
    let r = replace_all(content, name_placeholder(), name);
    assert(r.subrange(i, i + name.len()) =~= name);
}

/// Every placeholder is replaced, not only the first: rendering text that has
/// its first placeholder after `x` gives `x`, the name, and then the rest
/// rendered in turn.
pub proof fn law_render_replaces_every_placeholder(x: Seq<char>, y: Seq<char>, name: Seq<char>)
    requires
        find_first(x + name_placeholder() + y, name_placeholder()) == Some(x.len() as int),
    ensures
        replace_all(x + name_placeholder() + y, name_placeholder(), name)
            == x + name + replace_all(y, name_placeholder(), name),
{
    reveal_strlit("{{project_name}}");
    let s = x + name_placeholder() + y;
    assert(s.take(x.len() as int) =~= x);
    assert(s.skip((x.len() + name_placeholder().len()) as int) =~= y);
}

/// A template without the placeholder comes out as it is.
pub proof fn law_render_without_placeholder(content: Seq<char>, name: Seq<char>)
    requires
        find_first(content, name_placeholder()) is None,
    ensures
        replace_all(content, name_placeholder(), name) == content,
{
    reveal_strlit("{{project_name}}");
}

} // verus!
