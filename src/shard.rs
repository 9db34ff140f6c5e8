use vstd::prelude::*;
use vstd::string::*;
use crate::text::push_char;

verus! {

/// Index of the last occurrence of `c` in `s`, or -1 when there is none.
pub open spec fn last_index_of(s: Seq<char>, c: char) -> int
    decreases s.len(),
{
    if s.len() == 0 {
        -1
    } else if s.last() == c {
        s.len() - 1
    } else {
        last_index_of(s.drop_last(), c)
    }
}

/// The last component of a relative path.
pub open spec fn file_name_of(path: Seq<char>) -> Seq<char> {
    path.subrange(last_index_of(path, '/') + 1, path.len() as int)
}

/// A file name with its extension (from the last `'.'` on) removed.
pub open spec fn stem_of(name: Seq<char>) -> Seq<char> {
    if last_index_of(name, '.') < 0 {
        name
    } else {
        name.subrange(0, last_index_of(name, '.'))
    }
}

pub open spec fn is_upper_ascii(c: char) -> bool {
    'A' <= c && c <= 'Z'
}

pub open spec fn ascii_lower(c: char) -> char {
    if is_upper_ascii(c) {
        ((c as u32) + 32) as char
    } else {
        c
    }
}

pub open spec fn is_ascii_alnum(c: char) -> bool {
    ('0' <= c && c <= '9') || ('a' <= c && c <= 'z') || ('A' <= c && c <= 'Z')
}

/// Position of the character that names the shard of a stem of `n` characters.
pub open spec fn mid_index(n: int) -> int {
    (n + 1) / 2 - 1
}

/// The shard key of a file name: the lower-cased middle character of its stem
/// when that is alphanumeric, else `"other"`.
pub open spec fn shard_key(name: Seq<char>) -> Seq<char> {
    let stem = stem_of(name);
    if stem.len() == 0 {
        seq!['o', 't', 'h', 'e', 'r']
    } else {
        let c = ascii_lower(stem[mid_index(stem.len() as int)]);
        if is_ascii_alnum(c) {
            seq![c]
        } else {
            seq!['o', 't', 'h', 'e', 'r']
        }
    }
}

proof fn lemma_last_index_bounds(s: Seq<char>, c: char)
    ensures
        -1 <= last_index_of(s, c) < s.len(),
    decreases s.len(),
{
    if s.len() > 0 && s.last() != c {
        lemma_last_index_bounds(s.drop_last(), c);
    }
}

/// Position of the last `c` in `v`, if any.
fn find_last(v: &Vec<char>, c: char) -> (r: Option<usize>)
    ensures
        match r {
            Some(i) => i < v@.len() && i == last_index_of(v@, c),
            None => last_index_of(v@, c) == -1,
        },
{
    let mut found: Option<usize> = None;
    let mut i: usize = 0;
    while i < v.len()
        invariant
            i <= v@.len(),
            match found {
                Some(k) => k < i && k == last_index_of(v@.subrange(0, i as int), c),
                None => last_index_of(v@.subrange(0, i as int), c) == -1,
            },
        decreases v@.len() - i,
    {
        assert(v@.subrange(0, i + 1).drop_last() == v@.subrange(0, i as int));
        if v[i] == c {
            found = Some(i);
        }
        i += 1;
    }
    assert(v@.subrange(0, v@.len() as int) == v@);
    found
}

/// The characters `v[from..to]` as a string.
fn collect_range(v: &Vec<char>, from: usize, to: usize) -> (r: String)
    requires
        from <= to <= v@.len(),
    ensures
        r@ == v@.subrange(from as int, to as int),
{
    let mut out = String::new();
    let mut i: usize = from;
    while i < to
        invariant
            from <= i <= to <= v@.len(),
            out@ == v@.subrange(from as int, i as int),
        decreases to - i,
    {
        push_char(&mut out, v[i]);
        assert(out@ == v@.subrange(from as int, i + 1));
        i += 1;
    }
    out
}

/// The last component of a relative path (everything after its last `'/'`).
pub fn file_name(path: &str) -> (r: String)
    ensures
        r@ == file_name_of(path@),
{
    let v = chars_of(path);
    let n = v.len();
    let start: usize = match find_last(&v, '/') {
        Some(i) => i + 1,
        None => 0,
    };
    proof {
        lemma_last_index_bounds(v@, '/');
    }
    collect_range(&v, start, v.len())
}

/// The file name without its extension.
pub fn file_stem(name: &str) -> (r: String)
    ensures
        r@ == stem_of(name@),
{
    let v = chars_of(name);
    let end: usize = match find_last(&v, '.') {
        Some(i) => i,
        None => v.len(),
    };
    proof {
        lemma_last_index_bounds(v@, '.');
        assert(v@.subrange(0, v@.len() as int) == v@);
    }
    collect_range(&v, 0, end)
}

fn other_key() -> (r: String)
    ensures
        r@ == seq!['o', 't', 'h', 'e', 'r'],
{
    let mut s = String::new();
    push_char(&mut s, 'o');
    push_char(&mut s, 't');
    push_char(&mut s, 'h');
    push_char(&mut s, 'e');
    push_char(&mut s, 'r');
    s
}

/// The release channel that holds the asset named `filename`.
pub fn get_release_for_file(filename: &str) -> (r: String)
    ensures
        r@ == shard_key(filename@),
{
    let v = chars_of(filename);
    let end: usize = match find_last(&v, '.') {
        Some(i) => i,
        None => v.len(),
    };
    proof {
        lemma_last_index_bounds(v@, '.');
        assert(v@.subrange(0, v@.len() as int) == v@);
    }
    let ghost stem = stem_of(filename@);
    assert(stem == v@.subrange(0, end as int));
    if end == 0 {
        return other_key();
    }
    let mid: usize = end / 2 + end % 2 - 1;
    assert(mid == mid_index(end as int));
    let c = to_ascii_lower(v[mid]);
    if ('0' <= c && c <= '9') || ('a' <= c && c <= 'z') || ('A' <= c && c <= 'Z') {
        let mut s = String::new();
        push_char(&mut s, c);
        s
    } else {
        other_key()
    }
}

/// The release channel of the asset at `path`, judged by its file name.
pub fn release_for_path(path: &str) -> (r: String)
    ensures
        r@ == shard_key(file_name_of(path@)),
{
    let name = file_name(path);
    get_release_for_file(name.as_str())
}

/// The shard key of a file name depends on its stem alone, and is either a
/// single lower-case ASCII letter or digit, or `"other"`.
pub proof fn lemma_shard_key_by_stem(a: Seq<char>, b: Seq<char>)
    requires
        stem_of(a) == stem_of(b),
    ensures
        shard_key(a) == shard_key(b),
        shard_key(a) == seq!['o', 't', 'h', 'e', 'r'] || (shard_key(a).len() == 1 && (('0'
            <= shard_key(a)[0] && shard_key(a)[0] <= '9') || ('a' <= shard_key(a)[0]
            && shard_key(a)[0] <= 'z'))),
{
}

/// Lower-cases an ASCII letter and leaves every other character as it is.
pub fn to_ascii_lower(c: char) -> (r: char)
    ensures
        r == ascii_lower(c),
{
    if 'A' <= c && c <= 'Z' {
        let b: u8 = ((c as u32) + 32) as u8;
        b as char
    } else {
        c
    }
}

/// The characters of `s` as a vector.
pub fn chars_of(s: &str) -> (r: Vec<char>)
    ensures
        r@ == s@,
{
    let n = s.unicode_len();
    let mut out: Vec<char> = Vec::new();
    let mut i: usize = 0;
    while i < n
        invariant
            n == s@.len(),
            i <= n,
            out@ == s@.subrange(0, i as int),
        decreases n - i,
    {
        out.push(s.get_char(i));
        assert(out@ == s@.subrange(0, i + 1));
        i += 1;
    }
    assert(out@ == s@);
    out
}

} // verus!
