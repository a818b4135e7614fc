//! Character-level utilities over path strings: equality, case folding,
//! substring and suffix tests, path containment, depth counting, and
//! lexicographic order. Paths are plain `/`-separated strings; entries
//! produced by a filesystem walk never carry a trailing separator.

use vstd::prelude::*;
use vstd::string::StrSliceExecFns;

verus! {

/// ASCII lower-casing of one character; everything else is unchanged.
pub open spec fn lower_char(c: char) -> char {
    if 65 <= c as u32 && c as u32 <= 90 {
        ((c as u32 + 32) as u8) as char
    } else {
        c
    }
}

/// ASCII lower-casing of a whole character sequence.
pub open spec fn lower(s: Seq<char>) -> Seq<char> {
    s.map_values(|c: char| lower_char(c))
}

/// `needle` occurs contiguously somewhere in `hay`.
pub open spec fn contains_seq(hay: Seq<char>, needle: Seq<char>) -> bool {
    exists|i: int|
        0 <= i && i + needle.len() <= hay.len() && #[trigger] hay.subrange(i, i + needle.len())
            == needle
}

/// `suffix` is a suffix of `s`.
pub open spec fn is_suffix_of(suffix: Seq<char>, s: Seq<char>) -> bool {
    suffix.len() <= s.len() && s.subrange(s.len() - suffix.len(), s.len() as int) == suffix
}

/// `child` lies strictly below `parent`: it extends it by at least one
/// further component. The separator check keeps `/a/bb` from counting
/// as a descendant of `/a/b`.
pub open spec fn is_strict_descendant_of(child: Seq<char>, parent: Seq<char>) -> bool {
    child.len() > parent.len() && child.subrange(0, parent.len() as int) == parent
        && child[parent.len() as int] == '/'
}

/// Number of occurrences of `c` in `s`.
pub open spec fn count_char(s: Seq<char>, c: char) -> int
    decreases s.len(),
{
    if s.len() == 0 {
        0
    } else {
        count_char(s.drop_last(), c) + if s.last() == c {
            1int
        } else {
            0int
        }
    }
}

/// Index of the last occurrence of `c` in `s`, or -1 if `c` does not occur.
pub open spec fn last_index_of(s: Seq<char>, c: char) -> int
    decreases s.len(),
{
    if s.len() == 0 {
        -1
    } else if s.last() == c {
        s.len() - 1
    } else {
        last_index_of(s.drop_last(), c)
    }
}

/// The part of a path after its last separator; the whole path when it
/// has none.
pub open spec fn file_name_of(p: Seq<char>) -> Seq<char> {
    p.subrange(last_index_of(p, '/') + 1, p.len() as int)
}

/// The path of an entry named `name` beside `p`: `p`'s last component
/// replaced by `name`.
pub open spec fn sibling_path_of(p: Seq<char>, name: Seq<char>) -> Seq<char> {
    p.subrange(0, last_index_of(p, '/') + 1) + name
}

/// Strict lexicographic order on character sequences by code point.
pub open spec fn lex_lt(a: Seq<char>, b: Seq<char>) -> bool
    decreases a.len(), b.len(),
{
    if b.len() == 0 {
        false
    } else if a.len() == 0 {
        true
    } else if a.first() != b.first() {
        (a.first() as u32) < (b.first() as u32)
    } else {
        lex_lt(a.drop_first(), b.drop_first())
    }
}

pub proof fn lemma_lex_irrefl(a: Seq<char>)
    ensures
        !lex_lt(a, a),
    decreases a.len(),
{
    if a.len() > 0 {
        lemma_lex_irrefl(a.drop_first());
    }
}

pub proof fn lemma_lex_asym(a: Seq<char>, b: Seq<char>)
    requires
        lex_lt(a, b),
    ensures
        !lex_lt(b, a),
    decreases a.len(),
{
    if a.len() > 0 && b.len() > 0 && a.first() == b.first() {
        lemma_lex_asym(a.drop_first(), b.drop_first());
    }
}

proof fn lemma_last_index_of_in_range(s: Seq<char>, c: char)
    ensures
        -1 <= last_index_of(s, c) < s.len(),
        last_index_of(s, c) >= 0 ==> s[last_index_of(s, c)] == c,
        forall|j: int| last_index_of(s, c) < j < s.len() ==> s[j] != c,
    decreases s.len(),
{
    if s.len() > 0 && s.last() != c {
        lemma_last_index_of_in_range(s.drop_last(), c);
        assert(forall|j: int|
            0 <= j < s.len() - 1 ==> s.drop_last()[j] == s[j]);
    }
}

/// ASCII lower-casing of one character.
pub fn lower_char_exec(c: char) -> (r: char)
    ensures
        r == lower_char(c),
{
    let n = c as u32;
    if 65 <= n && n <= 90 {
        ((n + 32) as u8) as char
    } else {
        c
    }
}

/// Decides character-for-character equality of two strings.
pub fn str_eq(a: &str, b: &str) -> (r: bool)
    ensures
        r == (a@ == b@),
{
    let a_len = a.unicode_len();
    let b_len = b.unicode_len();
    if a_len != b_len {
        assert(a@ != b@);
        return false;
    }
    let mut i: usize = 0;
    while i < a_len
        invariant
            a_len == a@.len(),
            b_len == b@.len(),
            a_len == b_len,
            0 <= i <= a_len,
            forall|j: int| 0 <= j < i ==> a@[j] == b@[j],
        decreases a_len - i,
    {
        if a.get_char(i) != b.get_char(i) {
            return false;
        }
        i = i + 1;
    }
    proof {
        assert(a@ =~= b@);
    }
    true
}

/// Decides whether `suffix` ends `s`.
pub fn str_ends_with(s: &str, suffix: &str) -> (r: bool)
    ensures
        r == is_suffix_of(suffix@, s@),
{
    let s_len = s.unicode_len();
    let suf_len = suffix.unicode_len();
    if suf_len > s_len {
        return false;
    }
    let start = s_len - suf_len;
    let mut k: usize = 0;
    while k < suf_len
        invariant
            s_len == s@.len(),
            suf_len == suffix@.len(),
            suf_len <= s_len,
            start == s_len - suf_len,
            0 <= k <= suf_len,
            forall|j: int| 0 <= j < k ==> s@[start + j] == suffix@[j],
        decreases suf_len - k,
    {
        if s.get_char(start + k) != suffix.get_char(k) {
            assert(s@.subrange(s@.len() - suffix@.len(), s@.len() as int)[k as int]
                != suffix@[k as int]);
            return false;
        }
        k = k + 1;
    }
    proof {
        assert(s@.subrange(s@.len() - suffix@.len(), s@.len() as int) =~= suffix@);
    }
    true
}

/// Decides whether `s`, lower-cased, ends with `suffix` (`suffix` is
/// expected already lower-case).
pub fn str_ends_with_ci(s: &str, suffix: &str) -> (r: bool)
    ensures
        r == is_suffix_of(suffix@, lower(s@)),
{
    let s_len = s.unicode_len();
    let suf_len = suffix.unicode_len();
    if suf_len > s_len {
        return false;
    }
    let start = s_len - suf_len;
    let mut k: usize = 0;
    while k < suf_len
        invariant
            s_len == s@.len(),
            suf_len == suffix@.len(),
            suf_len <= s_len,
            start == s_len - suf_len,
            0 <= k <= suf_len,
            forall|j: int| 0 <= j < k ==> lower_char(s@[start + j]) == suffix@[j],
        decreases suf_len - k,
    {
        if lower_char_exec(s.get_char(start + k)) != suffix.get_char(k) {
            assert(lower(s@).subrange(lower(s@).len() - suffix@.len(), lower(s@).len() as int)[
                k as int] != suffix@[k as int]);
            return false;
        }
        k = k + 1;
    }
    proof {
        assert(lower(s@).subrange(lower(s@).len() - suffix@.len(), lower(s@).len() as int)
            =~= suffix@);
    }
    true
}

/// Decides whether `s` matches `needle` at offset `i`.
fn matches_at(s: &str, needle: &str, i: usize) -> (r: bool)
    requires
        i + needle@.len() <= s@.len(),
        s@.len() <= usize::MAX,
    ensures
        r == (s@.subrange(i as int, i + needle@.len()) == needle@),
{
    let n_len = needle.unicode_len();
    let mut k: usize = 0;
    while k < n_len
        invariant
            n_len == needle@.len(),
            i + n_len <= s@.len(),
            s@.len() <= usize::MAX,
            0 <= k <= n_len,
            forall|j: int| 0 <= j < k ==> s@[i + j] == needle@[j],
        decreases n_len - k,
    {
        if s.get_char(i + k) != needle.get_char(k) {
            assert(s@.subrange(i as int, i + needle@.len())[k as int] != needle@[k as int]);
            return false;
        }
        k = k + 1;
    }
    proof {
        assert(s@.subrange(i as int, i + needle@.len()) =~= needle@);
    }
    true
}

/// Decides whether `needle` occurs anywhere in `s`.
pub fn str_contains(s: &str, needle: &str) -> (r: bool)
    ensures
        r == contains_seq(s@, needle@),
{
    let s_len = s.unicode_len();
    let n_len = needle.unicode_len();
    if n_len > s_len {
        return false;
    }
    if n_len == 0 {
        proof {
            assert(s@.subrange(0, 0 + needle@.len() as int) =~= needle@);
        }
        return true;
    }
    let mut i: usize = 0;
    while i <= s_len - n_len
        invariant
            s_len == s@.len(),
            n_len == needle@.len(),
            0 < n_len <= s_len,
            0 <= i <= s_len - n_len + 1,
            forall|j: int|
                0 <= j < i ==> #[trigger] s@.subrange(j, j + needle@.len()) != needle@,
        decreases s_len - n_len - i + 1,
    {
        if matches_at(s, needle, i) {
            return true;
        }
        i = i + 1;
    }
    false
}

/// Decides whether `s` matches `needle` at offset `i` after lower-casing
/// `s` (`needle` is expected already lower-case).
fn matches_at_ci(s: &str, needle: &str, i: usize) -> (r: bool)
    requires
        i + needle@.len() <= s@.len(),
        s@.len() <= usize::MAX,
    ensures
        r == (lower(s@).subrange(i as int, i + needle@.len()) == needle@),
{
    let n_len = needle.unicode_len();
    let mut k: usize = 0;
    while k < n_len
        invariant
            n_len == needle@.len(),
            i + n_len <= s@.len(),
            s@.len() <= usize::MAX,
            0 <= k <= n_len,
            forall|j: int| 0 <= j < k ==> lower_char(s@[i + j]) == needle@[j],
        decreases n_len - k,
    {
        if lower_char_exec(s.get_char(i + k)) != needle.get_char(k) {
            assert(lower(s@).subrange(i as int, i + needle@.len())[k as int]
                != needle@[k as int]);
            return false;
        }
        k = k + 1;
    }
    proof {
        assert(lower(s@).subrange(i as int, i + needle@.len()) =~= needle@);
    }
    true
}

/// Decides whether `needle` occurs anywhere in `s`, lower-cased
/// (`needle` is expected already lower-case).
pub fn str_contains_ci(s: &str, needle: &str) -> (r: bool)
    ensures
        r == contains_seq(lower(s@), needle@),
{
    let s_len = s.unicode_len();
    let n_len = needle.unicode_len();
    if n_len > s_len {
        return false;
    }
    if n_len == 0 {
        proof {
            assert(lower(s@).subrange(0, 0 + needle@.len() as int) =~= needle@);
        }
        return true;
    }
    let mut i: usize = 0;
    while i <= s_len - n_len
        invariant
            s_len == s@.len(),
            n_len == needle@.len(),
            0 < n_len <= s_len,
            0 <= i <= s_len - n_len + 1,
            forall|j: int|
                0 <= j < i ==> #[trigger] lower(s@).subrange(j, j + needle@.len()) != needle@,
        decreases s_len - n_len - i + 1,
    {
        if matches_at_ci(s, needle, i) {
            return true;
        }
        i = i + 1;
    }
    false
}

/// Decides whether `child` lies strictly below `parent`.
pub fn is_strict_descendant(child: &str, parent: &str) -> (r: bool)
    ensures
        r == is_strict_descendant_of(child@, parent@),
{
    let c_len = child.unicode_len();
    let p_len = parent.unicode_len();
    if c_len <= p_len {
        return false;
    }
    if child.get_char(p_len) != '/' {
        return false;
    }
    let mut i: usize = 0;
    while i < p_len
        invariant
            c_len == child@.len(),
            p_len == parent@.len(),
            p_len < c_len,
            0 <= i <= p_len,
            forall|j: int| 0 <= j < i ==> child@[j] == parent@[j],
        decreases p_len - i,
    {
        if child.get_char(i) != parent.get_char(i) {
            assert(child@.subrange(0, parent@.len() as int)[i as int] != parent@[i as int]);
            return false;
        }
        i = i + 1;
    }
    proof {
        assert(child@.subrange(0, parent@.len() as int) =~= parent@);
    }
    true
}

/// Counts the occurrences of `c` in `s`.
pub fn count_char_exec(s: &str, c: char) -> (r: usize)
    ensures
        r == count_char(s@, c),
{
    let s_len = s.unicode_len();
    let mut i: usize = 0;
    let mut n: usize = 0;
    while i < s_len
        invariant
            s_len == s@.len(),
            0 <= i <= s_len,
            n == count_char(s@.take(i as int), c),
            n <= i,
        decreases s_len - i,
    {
        proof {
            assert(s@.take(i + 1).drop_last() =~= s@.take(i as int));
            assert(s@.take(i + 1).last() == s@[i as int]);
        }
        if s.get_char(i) == c {
            n = n + 1;
        }
        i = i + 1;
    }
    proof {
        assert(s@.take(s_len as int) =~= s@);
    }
    n
}

/// Index of the last `/` in `path`, if any.
pub fn last_slash_index(path: &str) -> (r: Option<usize>)
    ensures
        match r {
            Some(i) => last_index_of(path@, '/') == i && i < path@.len(),
            None => last_index_of(path@, '/') == -1,
        },
{
    let p_len = path.unicode_len();
    let mut i: usize = p_len;
    while i > 0
        invariant
            p_len == path@.len(),
            0 <= i <= p_len,
            forall|j: int| i <= j < p_len ==> path@[j] != '/',
        decreases i,
    {
        i = i - 1;
        if path.get_char(i) == '/' {
            proof {
                lemma_last_index_of_in_range(path@, '/');
                assert(last_index_of(path@, '/') >= i) by {
                    assert(path@[i as int] == '/');
                }
            }
            return Some(i);
        }
    }
    proof {
        lemma_last_index_of_in_range(path@, '/');
    }
    None
}

/// The part of `path` after its last separator, as a fresh string.
pub fn file_name(path: &str) -> (r: String)
    ensures
        r@ == file_name_of(path@),
{
    let p_len = path.unicode_len();
    match last_slash_index(path) {
        Some(i) => path.substring_char(i + 1, p_len).to_owned(),
        None => {
            proof {
                assert(path@.subrange(0, p_len as int) =~= path@);
            }
            path.to_owned()
        },
    }
}

/// The path of an entry named `name` beside `path`.
pub fn sibling_path(path: &str, name: &str) -> (r: String)
    ensures
        r@ == sibling_path_of(path@, name@),
{
    let p_len = path.unicode_len();
    match last_slash_index(path) {
        Some(i) => path.substring_char(0, i + 1).to_owned().concat(name),
        None => {
            proof {
                assert(path@.subrange(0, 0) =~= Seq::<char>::empty());
                assert(Seq::<char>::empty() + name@ =~= name@);
            }
            name.to_owned()
        },
    }
}

/// Decides strict lexicographic order of `a` before `b`.
pub fn str_lex_lt(a: &str, b: &str) -> (r: bool)
    ensures
        r == lex_lt(a@, b@),
{
    let a_len = a.unicode_len();
    let b_len = b.unicode_len();
    let mut i: usize = 0;
    proof {
        assert(a@.skip(0) =~= a@);
        assert(b@.skip(0) =~= b@);
    }
    loop
        invariant
            a_len == a@.len(),
            b_len == b@.len(),
            0 <= i <= a_len,
            0 <= i <= b_len,
            forall|j: int| 0 <= j < i ==> a@[j] == b@[j],
            lex_lt(a@, b@) == lex_lt(a@.skip(i as int), b@.skip(i as int)),
        decreases a_len - i,
    {
        if i == b_len {
            assert(b@.skip(i as int).len() == 0);
            return false;
        }
        if i == a_len {
            assert(a@.skip(i as int).len() == 0);
            assert(b@.skip(i as int).len() > 0);
            return true;
        }
        let ca = a.get_char(i);
        let cb = b.get_char(i);
        assert(a@.skip(i as int).first() == a@[i as int]);
        assert(b@.skip(i as int).first() == b@[i as int]);
        if ca != cb {
            return (ca as u32) < (cb as u32);
        }
        proof {
            assert(a@.skip(i as int).drop_first() =~= a@.skip(i + 1));
            assert(b@.skip(i as int).drop_first() =~= b@.skip(i + 1));
        }
        i = i + 1;
    }
}

} // verus!
