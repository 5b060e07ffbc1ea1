//! Character-level helpers on strings: substring search, file extensions,
//! and comparison of optional strings.

use vstd::prelude::*;

verus! {

/// The view of an optional string: its characters, if present.
pub open spec fn opt_view(o: Option<String>) -> Option<Seq<char>> {
    match o {
        Some(s) => Some(s@),
        None => None,
    }
}

/// `needle` occurs in `hay` starting at position `i`.
pub open spec fn occurs_at(hay: Seq<char>, needle: Seq<char>, i: int) -> bool {
    &&& 0 <= i
    &&& i + needle.len() <= hay.len()
    &&& hay.subrange(i, i + needle.len()) == needle
}

/// `needle` is a substring of `hay` (the empty string is a substring of every string).
pub open spec fn contains_text(hay: Seq<char>, needle: Seq<char>) -> bool {
    exists|i: int| occurs_at(hay, needle, i)
}

/// Index of the last `'.'` in `name`, or -1 when there is none.
pub open spec fn last_dot(name: Seq<char>) -> int
    decreases name.len(),
{
    if name.len() == 0 {
        -1
    } else if name.last() == '.' {
        name.len() - 1
    } else {
        last_dot(name.drop_last())
    }
}

/// The extension of a file name, as `std::path::Path::extension` documents it:
/// none for `..`, for a name without a dot, and for a name whose only dot is its
/// first character; otherwise everything after the last dot.
pub open spec fn file_extension(name: Seq<char>) -> Option<Seq<char>> {
    let k = last_dot(name);
    if name == ".."@ || k <= 0 {
        None
    } else {
        Some(name.subrange(k + 1, name.len() as int))
    }
}

/// The characters of a string, in order.
pub fn chars_of(s: &str) -> (r: Vec<char>)
    ensures
        r@ == s@,
{
    let n = s.unicode_len();
    let mut v: Vec<char> = Vec::new();
    let mut i: usize = 0;
    while i < n
        invariant
            n == s@.len(),
            i <= n,
            v@ == s@.subrange(0, i as int),
        decreases n - i,
    {
        let c = s.get_char(i);
        v.push(c);
        i = i + 1;
        assert(v@ =~= s@.subrange(0, i as int));
    }
    assert(v@ =~= s@);
    v
}

/// Whether `needle` occurs in `hay` at position `i`.
fn matches_at(hay: &Vec<char>, needle: &Vec<char>, i: usize) -> (r: bool)
    requires
        i + needle@.len() <= hay@.len(),
    ensures
        r == occurs_at(hay@, needle@, i as int),
{
    let n = needle.len();
    let mut j: usize = 0;
    while j < n
        invariant
            n == needle@.len(),
            i + n <= hay.len(),
            j <= n,
            forall|k: int| 0 <= k < j ==> hay@[i + k] == needle@[k],
        decreases n - j,
    {
        if hay[i + j] != needle[j] {
            assert(hay@.subrange(i as int, i + n)[j as int] != needle@[j as int]);
            return false;
        }
        j = j + 1;
    }
    assert(hay@.subrange(i as int, i + n) =~= needle@);
    true
}

/// Whether `needle` is a substring of `hay`, as `str::contains` decides it.
pub fn text_contains(hay: &str, needle: &str) -> (r: bool)
    ensures
        r == contains_text(hay@, needle@),
{
    let h = chars_of(hay);
    let n = chars_of(needle);
    if n.len() == 0 {
        assert(occurs_at(hay@, needle@, 0)) by {
            assert(hay@.subrange(0, 0) =~= needle@);
        }
        return true;
    }
    if n.len() > h.len() {
        return false;
    }
    let last = h.len() - n.len();
    let mut i: usize = 0;
    while i <= last
        invariant
            h@ == hay@,
            n@ == needle@,
            last == h@.len() - n@.len(),
            n@.len() > 0,
            last < h.len(),
            i <= last + 1,
            forall|k: int| 0 <= k < i ==> !occurs_at(hay@, needle@, k),
        decreases last + 1 - i,
    {
        if matches_at(&h, &n, i) {
            assert(occurs_at(hay@, needle@, i as int));
            return true;
        }
        i = i + 1;
    }
    false
}

/// When `k` holds a dot and no dot follows it, `k` is the last dot.
proof fn lemma_last_dot_at(name: Seq<char>, k: int)
    requires
        0 <= k < name.len(),
        name[k] == '.',
        forall|j: int| k < j < name.len() ==> name[j] != '.',
    ensures
        last_dot(name) == k,
    decreases name.len(),
{
    if name.last() != '.' {
        lemma_last_dot_at(name.drop_last(), k);
    }
}

/// A name without dots has no last dot.
proof fn lemma_last_dot_none(name: Seq<char>)
    requires
        forall|j: int| 0 <= j < name.len() ==> name[j] != '.',
    ensures
        last_dot(name) == -1,
    decreases name.len(),
{
    if name.len() > 0 {
        lemma_last_dot_none(name.drop_last());
    }
}

/// The position of the last dot, as `last_dot` defines it.
fn last_dot_index(c: &Vec<char>) -> (r: Option<usize>)
    ensures
        match r {
            Some(k) => k < c@.len() && last_dot(c@) == k,
            None => last_dot(c@) == -1,
        },
{
    let len = c.len();
    let mut i: usize = len;
    while i > 0
        invariant
            len == c@.len(),
            i <= len,
            forall|j: int| i <= j < len ==> c@[j] != '.',
        decreases i,
    {
        if c[i - 1] == '.' {
            proof {
                lemma_last_dot_at(c@, i - 1);
            }
            return Some(i - 1);
        }
        i = i - 1;
    }
    proof {
        lemma_last_dot_none(c@);
    }
    None
}

/// Whether a directory entry names a modpack description: its extension is `jsonc`.
pub fn is_modpack_file(file_name: &str) -> (r: bool)
    ensures
        r == (file_extension(file_name@) == Some("jsonc"@)),
{
    proof {
        reveal_strlit("jsonc");
        reveal_strlit("..");
    }
    let c = chars_of(file_name);
    let len = c.len();
    let k = match last_dot_index(&c) {
        Some(k) => k,
        None => {
            return false;
        },
    };
    if k == 0 {
        return false;
    }
    let target = chars_of("jsonc");
    if len - k - 1 != target.len() {
        assert(file_name@.subrange(k + 1, len as int).len() != "jsonc"@.len());
        return false;
    }
    let r = matches_at(&c, &target, k + 1);
    proof {
        if file_name@ == ".."@ {
            assert(file_name@.len() == 2);
        }
    }
    r
}

/// A copy of an optional string.
pub fn copy_opt_string(o: &Option<String>) -> (r: Option<String>)
    ensures
        r == *o,
{
    match o {
        Some(s) => Some(s.clone()),
        None => None,
    }
}

/// Whether two optional strings are equal (both absent, or both present with the same text).
pub fn same_opt_string(a: &Option<String>, b: &Option<String>) -> (r: bool)
    ensures
        r == (opt_view(*a) == opt_view(*b)),
{
    match (a, b) {
        (Some(x), Some(y)) => *x == *y,
        (None, None) => true,
        _ => false,
    }
}

} // verus!
