use vstd::prelude::*;
use vstd::string::*;
use crate::text::push_char;
use crate::shard::chars_of;

verus! {

/// What `regex` makes of `haystack` when every leftmost-first, non-overlapping
/// match of `pattern` is replaced by the expansion of `template`; `None` when
/// `pattern` does not compile.
pub uninterp spec fn regex_replace(
    pattern: Seq<char>,
    haystack: Seq<char>,
    template: Seq<char>,
) -> Option<Seq<char>>;

/// Relies on `regex::Regex::new`, whose success depends on the pattern alone,
/// and on `Regex::replace_all`, which substitutes every match of the compiled
/// pattern by the template (`${1}` standing for the first capture group).
#[verifier::external_body]
fn replace_all_matches(pattern: &str, haystack: &str, template: &str) -> (r: Option<String>)
    ensures
        match r {
            Some(s) => regex_replace(pattern@, haystack@, template@) == Some(s@),
            None => regex_replace(pattern@, haystack@, template@) is None,
        },
{
    match regex::Regex::new(pattern) {
        Ok(re) => Some(re.replace_all(haystack, template).into_owned()),
        Err(_) => None,
    }
}

/// A bracketed segment `[x]`.
pub open spec fn bracket_pattern() -> Seq<char> {
    "\\[([^\\]]+)\\]"@
}

/// A parenthesised segment `(x)`.
pub open spec fn paren_pattern() -> Seq<char> {
    "\\(([^)]+)\\)"@
}

/// A run of one or more dots.
pub open spec fn dot_run_pattern() -> Seq<char> {
    "\\.+"@
}

/// The inner text of a segment framed by dots: `.x.`.
pub open spec fn dotted_template() -> Seq<char> {
    ".${1}."@
}

pub open spec fn single_dot() -> Seq<char> {
    "."@
}

pub open spec fn is_separator(c: char) -> bool {
    c == '\'' || c == ' '
}

/// `s` with every apostrophe and space turned into a dot.
pub open spec fn dots_for_separators(s: Seq<char>) -> Seq<char> {
    Seq::new(s.len(), |i: int| if is_separator(s[i]) { '.' } else { s[i] })
}

/// The name under which the release system publishes a file called `name`:
/// bracketed and parenthesised segments framed by dots, apostrophes and spaces
/// turned into dots, then each run of dots collapsed to one.
pub open spec fn release_file_name(name: Seq<char>) -> Option<Seq<char>> {
    match regex_replace(bracket_pattern(), name, dotted_template()) {
        None => None,
        Some(a) => match regex_replace(paren_pattern(), a, dotted_template()) {
            None => None,
            Some(b) => regex_replace(dot_run_pattern(), dots_for_separators(b), single_dot()),
        },
    }
}

/// Turns every apostrophe and space of `s` into a dot.
pub fn dot_separators(s: &str) -> (r: String)
    ensures
        r@ == dots_for_separators(s@),
{
    let v = chars_of(s);
    let mut out = String::new();
    let mut i: usize = 0;
    while i < v.len()
        invariant
            i <= v@.len(),
            v@ == s@,
            out@ == dots_for_separators(s@).subrange(0, i as int),
        decreases v@.len() - i,
    {
        let c = v[i];
        if c == '\'' || c == ' ' {
            push_char(&mut out, '.');
        } else {
            push_char(&mut out, c);
        }
        assert(out@ == dots_for_separators(s@).subrange(0, i + 1));
        i += 1;
    }
    assert(out@ == dots_for_separators(s@));
    out
}

/// The file name to request from the release system for a local file `name`;
/// `None` only if one of the fixed patterns were refused by the regex engine.
pub fn url_file_name(name: &str) -> (r: Option<String>)
    ensures
        match r {
            Some(s) => release_file_name(name@) == Some(s@),
            None => release_file_name(name@) is None,
        },
{
    let bracket = "\\[([^\\]]+)\\]";
    let paren = "\\(([^)]+)\\)";
    let dots = "\\.+";
    let dotted = ".${1}.";
    let a = match replace_all_matches(bracket, name, dotted) {
        Some(a) => a,
        None => return None,
    };
    let b = match replace_all_matches(paren, a.as_str(), dotted) {
        Some(b) => b,
        None => return None,
    };
    let c = dot_separators(b.as_str());
    replace_all_matches(dots, c.as_str(), ".")
}

} // verus!
