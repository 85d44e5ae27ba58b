//! Character-level helpers on strings, each with a specification over the
//! characters it looks at.

use vstd::prelude::*;

verus! {

/// `s` ends with `suffix`.
pub open spec fn ends_with(s: Seq<char>, suffix: Seq<char>) -> bool {
    suffix.len() <= s.len() && s.subrange(s.len() - suffix.len(), s.len() as int) == suffix
}

/// The characters of `s` after its last `/`; all of `s` when it has none.
pub open spec fn after_last_slash(s: Seq<char>) -> Seq<char>
    decreases s.len(),
{
    if s.len() == 0 {
        s
    } else if s.last() == '/' {
        Seq::empty()
    } else {
        after_last_slash(s.drop_last()).push(s.last())
    }
}

/// The file name of a path: its last component, or the path itself when
/// that component is empty (the path ends in `/` or is empty).
pub open spec fn basename_of(path: Seq<char>) -> Seq<char> {
    if after_last_slash(path).len() == 0 {
        path
    } else {
        after_last_slash(path)
    }
}

/// The character strings that a vector of strings holds.
pub open spec fn words(v: Seq<String>) -> Seq<Seq<char>> {
    v.map_values(|s: String| s@)
}

pub fn str_eq(a: &str, b: &str) -> (r: bool)
    ensures
        r == (a@ == b@),
{
    let n = a.unicode_len();
    if n != b.unicode_len() {
        return false;
    }
    let mut i: usize = 0;
    while i < n
        invariant
            n == a@.len() == b@.len(),
            i <= n,
            a@.subrange(0, i as int) == b@.subrange(0, i as int),
        decreases n - i,
    {
        if a.get_char(i) != b.get_char(i) {
            return false;
        }
        assert(a@.subrange(0, i + 1) == a@.subrange(0, i as int).push(a@[i as int]));
        assert(b@.subrange(0, i + 1) == b@.subrange(0, i as int).push(b@[i as int]));
        i = i + 1;
    }
    assert(a@ == a@.subrange(0, n as int));
    assert(b@ == b@.subrange(0, n as int));
    true
}

pub fn str_ends_with(s: &str, suffix: &str) -> (r: bool)
    ensures
        r == ends_with(s@, suffix@),
{
    let n = s.unicode_len();
    let m = suffix.unicode_len();
    if m > n {
        return false;
    }
    let d = n - m;
    let mut i: usize = 0;
    while i < m
        invariant
            n == s@.len(),
            m == suffix@.len(),
            d == n - m,
            i <= m,
            s@.subrange(d as int, d + i) == suffix@.subrange(0, i as int),
        decreases m - i,
    {
        if s.get_char(d + i) != suffix.get_char(i) {
            assert(s@.subrange(d as int, n as int)[i as int] != suffix@[i as int]);
            return false;
        }
        assert(s@.subrange(d as int, d + i + 1) == s@.subrange(d as int, d + i).push(s@[d + i]));
        assert(suffix@.subrange(0, i + 1) == suffix@.subrange(0, i as int).push(suffix@[i as int]));
        i = i + 1;
    }
    assert(suffix@ == suffix@.subrange(0, m as int));
    true
}

proof fn lemma_after_last_slash_split(s: Seq<char>, i: int)
    requires
        0 <= i <= s.len(),
        forall|k: int| i <= k < s.len() ==> s[k] != '/',
    ensures
        after_last_slash(s) == after_last_slash(s.subrange(0, i)) + s.subrange(i, s.len() as int),
    decreases s.len() - i,
{
    if i < s.len() {
        lemma_after_last_slash_split(s, i + 1);
        let t = s.subrange(0, i + 1);
        assert(t.drop_last() == s.subrange(0, i));
        assert(t.last() == s[i]);
        assert(s.subrange(i, s.len() as int) == seq![s[i]] + s.subrange(i + 1, s.len() as int));
        assert(after_last_slash(t) == after_last_slash(s.subrange(0, i)).push(s[i]));
        assert(after_last_slash(s.subrange(0, i)) + s.subrange(i, s.len() as int)
            == after_last_slash(t) + s.subrange(i + 1, s.len() as int));
    } else {
        assert(s.subrange(0, i) == s);
        assert(s.subrange(i, s.len() as int) == Seq::<char>::empty());
        assert(after_last_slash(s) + Seq::<char>::empty() == after_last_slash(s));
    }
}

/// Returns the file name of a path, as `basename_of` describes it.
pub fn basename(file: &str) -> (r: String)
    ensures
        r@ == basename_of(file@),
{
    let n = file.unicode_len();
    let mut i: usize = n;
    while i > 0 && file.get_char(i - 1) != '/'
        invariant
            n == file@.len(),
            i <= n,
            forall|k: int| i <= k < n ==> file@[k] != '/',
        decreases i,
    {
        i = i - 1;
    }
    proof {
        lemma_after_last_slash_split(file@, i as int);
        let t = file@.subrange(0, i as int);
        if i > 0 {
            assert(t.last() == '/');
        }
        assert(after_last_slash(t).len() == 0);
        assert(after_last_slash(t) + file@.subrange(i as int, n as int) == file@.subrange(i as int, n as int));
    }
    if i == n {
        String::from_str(file)
    } else {
        String::from_str(file.substring_char(i, n))
    }
}

/// The number of characters before the first `\n` of `s` (all of them when
/// it has none).
pub open spec fn line_end(s: Seq<char>) -> nat
    decreases s.len(),
{
    if s.len() == 0 || s[0] == '\n' {
        0
    } else {
        1 + line_end(s.drop_first())
    }
}

/// The first line of `s`, as `str::lines` hands it out: text up to the
/// first `\n`, without a `\r` right before that `\n`; `None` when `s` is
/// empty.
pub open spec fn first_line(s: Seq<char>) -> Option<Seq<char>> {
    if s.len() == 0 {
        None
    } else {
        let k = line_end(s) as int;
        if k < s.len() && k > 0 && s[k - 1] == '\r' {
            Some(s.subrange(0, k - 1))
        } else {
            Some(s.subrange(0, k))
        }
    }
}

proof fn lemma_line_end(s: Seq<char>, i: int)
    requires
        0 <= i <= s.len(),
        forall|k: int| 0 <= k < i ==> s[k] != '\n',
        i == s.len() || s[i] == '\n',
    ensures
        line_end(s) == i,
    decreases i,
{
    if i > 0 {
        let t = s.drop_first();
        assert forall|k: int| 0 <= k < i - 1 implies t[k] != '\n' by {
            assert(t[k] == s[k + 1]);
        }
        if i < s.len() {
            assert(t[i - 1] == s[i]);
        }
        lemma_line_end(t, i - 1);
    }
}

/// Returns the first line of `s`, as `first_line` describes it.
pub fn first_line_of(s: &str) -> (r: Option<String>)
    ensures
        match r {
            Some(l) => first_line(s@) == Some(l@),
            None => first_line(s@) is None,
        },
{
    let n = s.unicode_len();
    if n == 0 {
        return None;
    }
    let mut i: usize = 0;
    while i < n && s.get_char(i) != '\n'
        invariant
            n == s@.len(),
            i <= n,
            forall|k: int| 0 <= k < i ==> s@[k] != '\n',
        decreases n - i,
    {
        i = i + 1;
    }
    proof {
        lemma_line_end(s@, i as int);
    }
    if i < n && i > 0 && s.get_char(i - 1) == '\r' {
        Some(String::from_str(s.substring_char(0, i - 1)))
    } else {
        Some(String::from_str(s.substring_char(0, i)))
    }
}

} // verus!
