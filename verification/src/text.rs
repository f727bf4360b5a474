//! Character-level string helpers shared by the application catalog and the
//! metadata pipeline: case folding, suffix tests, and path-name splitting.

use vstd::prelude::*;

verus! {

/// ASCII case folding of a single character, as a code point: uppercase
/// letters map to their lowercase counterpart, everything else is unchanged.
pub open spec fn fold_char(c: char) -> int {
    if 65 <= c as u32 && c as u32 <= 90 {
        c as u32 + 32
    } else {
        c as u32 as int
    }
}

/// Two character sequences are equal up to ASCII case.
pub open spec fn eq_fold(a: Seq<char>, b: Seq<char>) -> bool {
    a.len() == b.len() && forall|i: int| 0 <= i < a.len() ==> fold_char(a[i]) == fold_char(b[i])
}

/// Compares two strings for equality ignoring ASCII case.
pub fn eq_ignore_case(a: &str, b: &str) -> (r: bool)
    ensures
        r == eq_fold(a@, b@),
{
    let alen = a.unicode_len();
    let blen = b.unicode_len();
    if alen != blen {
        return false;
    }
    let mut i: usize = 0;
    while i < alen
        invariant
            alen == a@.len(),
            blen == b@.len(),
            alen == blen,
            0 <= i <= alen,
            forall|j: int| 0 <= j < i ==> fold_char(a@[j]) == fold_char(b@[j]),
        decreases alen - i,
    {
        let ua = a.get_char(i) as u32;
        let ub = b.get_char(i) as u32;
        let fa = if 65 <= ua && ua <= 90 { ua + 32 } else { ua };
        let fb = if 65 <= ub && ub <= 90 { ub + 32 } else { ub };
        if fa != fb {
            return false;
        }
        i = i + 1;
    }
    true
}

/// Compares two strings for exact equality of their character sequences.
pub fn str_eq(a: &str, b: &str) -> (r: bool)
    ensures
        r == (a@ == b@),
{
    let alen = a.unicode_len();
    let blen = b.unicode_len();
    if alen != blen {
        return false;
    }
    let mut i: usize = 0;
    while i < alen
        invariant
            alen == a@.len(),
            blen == b@.len(),
            alen == blen,
            0 <= i <= alen,
            forall|j: int| 0 <= j < i ==> a@[j] == b@[j],
        decreases alen - i,
    {
        let ca = a.get_char(i);
        let cb = b.get_char(i);
        if ca != cb {
            return false;
        }
        i = i + 1;
    }
    proof {
        assert(a@ =~= b@);
    }
    true
}

/// Whether the string contains the given character.
pub fn contains_char(s: &str, c: char) -> (r: bool)
    ensures
        r == s@.contains(c),
{
    let len = s.unicode_len();
    let mut i: usize = 0;
    while i < len
        invariant
            len == s@.len(),
            0 <= i <= len,
            forall|j: int| 0 <= j < i ==> s@[j] != c,
        decreases len - i,
    {
        if s.get_char(i) == c {
            assert(s@.contains(c));
            return true;
        }
        i = i + 1;
    }
    assert(!s@.contains(c));
    false
}

/// The sequence ends with the given suffix (exact comparison).
pub open spec fn ends_with_spec(s: Seq<char>, t: Seq<char>) -> bool {
    t.len() <= s.len() && s.subrange(s.len() - t.len(), s.len() as int) == t
}

/// Whether `s` ends with `t`, compared character by character.
pub fn ends_with(s: &str, t: &str) -> (r: bool)
    ensures
        r == ends_with_spec(s@, t@),
{
    let slen = s.unicode_len();
    let tlen = t.unicode_len();
    if tlen > slen {
        return false;
    }
    let base = slen - tlen;
    let mut i: usize = 0;
    while i < tlen
        invariant
            slen == s@.len(),
            tlen == t@.len(),
            tlen <= slen,
            base == slen - tlen,
            0 <= i <= tlen,
            forall|j: int| 0 <= j < i ==> s@[base + j] == t@[j],
        decreases tlen - i,
    {
        let cs = s.get_char(base + i);
        let ct = t.get_char(i);
        if cs != ct {
            assert(s@.subrange(s@.len() - t@.len(), s@.len() as int)[i as int] != t@[i as int]);
            return false;
        }
        i = i + 1;
    }
    proof {
        assert(s@.subrange(s@.len() - t@.len(), s@.len() as int) =~= t@);
    }
    true
}

/// Index of the first occurrence of `c` in `s`, or -1 if there is none.
pub open spec fn first_at(s: Seq<char>, c: char) -> int
    decreases s.len(),
{
    if s.len() == 0 {
        -1
    } else if s[0] == c {
        0
    } else {
        let r = first_at(s.drop_first(), c);
        if r == -1 {
            -1
        } else {
            r + 1
        }
    }
}

pub proof fn lemma_first_at_range(s: Seq<char>, c: char)
    ensures
        -1 <= first_at(s, c) < s.len(),
    decreases s.len(),
{
    if s.len() > 0 && s[0] != c {
        lemma_first_at_range(s.drop_first(), c);
    }
}

pub proof fn lemma_first_at_found(s: Seq<char>, c: char, i: int)
    requires
        0 <= i < s.len(),
        s[i] == c,
        forall|j: int| 0 <= j < i ==> s[j] != c,
    ensures
        first_at(s, c) == i,
    decreases i,
{
    if i == 0 {
    } else {
        lemma_first_at_found(s.drop_first(), c, i - 1);
    }
}

pub proof fn lemma_first_at_missing(s: Seq<char>, c: char)
    requires
        forall|j: int| 0 <= j < s.len() ==> s[j] != c,
    ensures
        first_at(s, c) == -1,
    decreases s.len(),
{
    if s.len() > 0 {
        lemma_first_at_missing(s.drop_first(), c);
    }
}

/// Index of the last path separator in `s`, or -1 if there is none.
pub open spec fn is_sep(c: char) -> bool {
    c == '/' || c == '\\'
}

pub open spec fn last_sep(s: Seq<char>) -> int
    decreases s.len(),
{
    if s.len() == 0 {
        -1
    } else if is_sep(s[s.len() - 1]) {
        s.len() - 1
    } else {
        last_sep(s.drop_last())
    }
}

pub proof fn lemma_last_sep_at(s: Seq<char>, i: int)
    requires
        -1 <= i < s.len(),
        i >= 0 ==> is_sep(s[i]),
        forall|j: int| i < j < s.len() ==> !is_sep(s[j]),
    ensures
        last_sep(s) == i,
    decreases s.len(),
{
    if s.len() == 0 {
    } else if i == s.len() - 1 {
    } else {
        lemma_last_sep_at(s.drop_last(), i);
    }
}

/// Index of the last '.' in `s`, or -1 if there is none.
pub open spec fn last_dot(s: Seq<char>) -> int
    decreases s.len(),
{
    if s.len() == 0 {
        -1
    } else if s[s.len() - 1] == '.' {
        s.len() - 1
    } else {
        last_dot(s.drop_last())
    }
}

pub proof fn lemma_last_dot_at(s: Seq<char>, i: int)
    requires
        -1 <= i < s.len(),
        i >= 0 ==> s[i] == '.',
        forall|j: int| i < j < s.len() ==> s[j] != '.',
    ensures
        last_dot(s) == i,
    decreases s.len(),
{
    if s.len() == 0 {
    } else if i == s.len() - 1 {
    } else {
        lemma_last_dot_at(s.drop_last(), i);
    }
}

/// The final path component: everything after the last separator.
pub open spec fn base_name_spec(s: Seq<char>) -> Seq<char> {
    s.subrange(last_sep(s) + 1, s.len() as int)
}

/// Returns the final path component of `path`.
pub fn base_name<'a>(path: &'a str) -> (r: &'a str)
    ensures
        r@ == base_name_spec(path@),
{
    let len = path.unicode_len();
    let mut i: usize = len;
    while i > 0
        invariant
            len == path@.len(),
            0 <= i <= len,
            forall|j: int| i <= j < len ==> !is_sep(path@[j]),
        decreases i,
    {
        let c = path.get_char(i - 1);
        if c == '/' || c == '\\' {
            proof {
                lemma_last_sep_at(path@, i - 1);
            }
            return path.substring_char(i, len);
        }
        i = i - 1;
    }
    proof {
        lemma_last_sep_at(path@, -1);
        assert(path@.subrange(0, len as int) =~= path@);
    }
    path.substring_char(0, len)
}

/// The leading directory part of a path: everything up to and including the
/// last separator, or nothing when there is none.
pub open spec fn dir_prefix_spec(s: Seq<char>) -> Seq<char> {
    s.subrange(0, last_sep(s) + 1)
}

/// Returns the leading directory part of `path`, separator included.
pub fn dir_prefix<'a>(path: &'a str) -> (r: &'a str)
    ensures
        r@ == dir_prefix_spec(path@),
{
    let len = path.unicode_len();
    let mut i: usize = len;
    while i > 0
        invariant
            len == path@.len(),
            0 <= i <= len,
            forall|j: int| i <= j < len ==> !is_sep(path@[j]),
        decreases i,
    {
        let c = path.get_char(i - 1);
        if c == '/' || c == '\\' {
            proof {
                lemma_last_sep_at(path@, i - 1);
            }
            return path.substring_char(0, i);
        }
        i = i - 1;
    }
    proof {
        lemma_last_sep_at(path@, -1);
    }
    path.substring_char(0, 0)
}

/// The base name without its extension: everything before the last '.'
/// when that dot is not the first character, the whole name otherwise.
pub open spec fn stem_spec(name: Seq<char>) -> Seq<char> {
    if last_dot(name) > 0 {
        name.subrange(0, last_dot(name))
    } else {
        name
    }
}

/// The extension of a file name: everything after the last '.' when that dot
/// is not the first character, or nothing.
pub open spec fn extension_spec(name: Seq<char>) -> Option<Seq<char>> {
    if last_dot(name) > 0 {
        Some(name.subrange(last_dot(name) + 1, name.len() as int))
    } else {
        None
    }
}

/// Position of the last '.' of `name` when it is past the first character:
/// the split point between stem and extension.
fn find_last_dot(name: &str) -> (r: Option<usize>)
    ensures
        match r {
            Some(i) => last_dot(name@) == i && 0 < i < name@.len(),
            None => last_dot(name@) <= 0,
        },
{
    let len = name.unicode_len();
    let mut i: usize = len;
    while i > 0
        invariant
            len == name@.len(),
            0 <= i <= len,
            forall|j: int| i <= j < len ==> name@[j] != '.',
        decreases i,
    {
        let c = name.get_char(i - 1);
        if c == '.' {
            proof {
                lemma_last_dot_at(name@, i - 1);
            }
            if i - 1 > 0 {
                return Some(i - 1);
            } else {
                return None;
            }
        }
        i = i - 1;
    }
    proof {
        lemma_last_dot_at(name@, -1);
    }
    None
}

/// Returns the stem of a file name, per `stem_spec`.
pub fn stem_of<'a>(name: &'a str) -> (r: &'a str)
    ensures
        r@ == stem_spec(name@),
{
    let len = name.unicode_len();
    match find_last_dot(name) {
        Some(i) => name.substring_char(0, i),
        None => {
            proof {
                assert(name@.subrange(0, len as int) =~= name@);
            }
            name.substring_char(0, len)
        },
    }
}

/// Returns the extension of a file name, per `extension_spec`.
pub fn extension_of<'a>(name: &'a str) -> (r: Option<&'a str>)
    ensures
        match r {
            Some(e) => extension_spec(name@) == Some(e@),
            None => extension_spec(name@) is None,
        },
{
    let len = name.unicode_len();
    match find_last_dot(name) {
        Some(i) => Some(name.substring_char(i + 1, len)),
        None => None,
    }
}

/// Length of `s` once trailing NUL characters are removed.
pub open spec fn trimmed_len(s: Seq<char>) -> int
    decreases s.len(),
{
    if s.len() == 0 {
        0
    } else if s[s.len() - 1] == '\0' {
        trimmed_len(s.drop_last())
    } else {
        s.len() as int
    }
}

/// `s` with every trailing NUL character removed.
pub open spec fn trim_nuls_spec(s: Seq<char>) -> Seq<char> {
    s.subrange(0, trimmed_len(s))
}

pub proof fn lemma_trimmed_len_at(s: Seq<char>, k: int)
    requires
        0 <= k <= s.len(),
        forall|j: int| k <= j < s.len() ==> s[j] == '\0',
        k > 0 ==> s[k - 1] != '\0',
    ensures
        trimmed_len(s) == k,
    decreases s.len(),
{
    if s.len() == 0 {
    } else if k == s.len() {
    } else {
        lemma_trimmed_len_at(s.drop_last(), k);
    }
}

/// Removes every trailing NUL character from `s`.
pub fn trim_nuls<'a>(s: &'a str) -> (r: &'a str)
    ensures
        r@ == trim_nuls_spec(s@),
{
    let len = s.unicode_len();
    let mut i: usize = len;
    while i > 0
        invariant
            len == s@.len(),
            0 <= i <= len,
            forall|j: int| i <= j < len ==> s@[j] == '\0',
        decreases i,
    {
        let c = s.get_char(i - 1);
        if c != '\0' {
            proof {
                lemma_trimmed_len_at(s@, i as int);
            }
            return s.substring_char(0, i);
        }
        i = i - 1;
    }
    proof {
        lemma_trimmed_len_at(s@, 0);
    }
    s.substring_char(0, 0)
}

} // verus!
