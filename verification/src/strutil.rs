//! Helpers over strings viewed as sequences of characters: ASCII
//! lowercasing, prefix/suffix tests, and the base filename of a
//! slash-separated path.

use vstd::prelude::*;
use vstd::string::StrSliceExecFns;

verus! {

/// ASCII lowercasing of a single character; every other character is
/// left unchanged.
pub open spec fn spec_lower_char(c: char) -> char {
    if 65 <= c as u32 && c as u32 <= 90 {
        ((c as u32 + 32) as u8) as char
    } else {
        c
    }
}

/// ASCII lowercasing of a whole character sequence.
pub open spec fn spec_lower(s: Seq<char>) -> Seq<char> {
    Seq::new(s.len(), |i: int| spec_lower_char(s[i]))
}

/// The characters of `s` after the last `'/'`, or all of `s` when it
/// holds no `'/'`.
pub open spec fn spec_basename(s: Seq<char>) -> Seq<char>
    decreases s.len(),
{
    if s.len() == 0 {
        s
    } else if s.last() == '/' {
        Seq::empty()
    } else {
        spec_basename(s.drop_last()).push(s.last())
    }
}

/// ASCII lowercasing of one character.
pub fn lower_char(c: char) -> (r: char)
    ensures
        r == spec_lower_char(c),
{
    let u = c as u32;
    if 65 <= u && u <= 90 {
        ((u + 32) as u8) as char
    } else {
        c
    }
}

/// Character-for-character equality of two string slices.
pub fn str_eq(s: &str, t: &str) -> (r: bool)
    ensures
        r == (s@ == t@),
{
    let n = s.unicode_len();
    let m = t.unicode_len();
    if n != m {
        proof {
            assert(s@ != t@) by {
                assert(s@.len() != t@.len());
            }
        }
        return false;
    }
    let mut i: usize = 0;
    while i < n
        invariant
            i <= n,
            n == s@.len(),
            n == t@.len(),
            forall|j: int| 0 <= j < i ==> s@[j] == t@[j],
        decreases n - i,
    {
        if s.get_char(i) != t.get_char(i) {
            return false;
        }
        i += 1;
    }
    proof {
        assert(s@ =~= t@);
    }
    true
}

/// Does lowercasing `s` give exactly `lit`?  `lit` must already be
/// lowercase in the ASCII sense.
pub fn eq_lowercase(s: &str, lit: &str) -> (r: bool)
    requires
        spec_lower(lit@) == lit@,
    ensures
        r == (spec_lower(s@) == lit@),
{
    let n = s.unicode_len();
    let m = lit.unicode_len();
    if n != m {
        proof {
            assert(spec_lower(s@) != lit@) by {
                assert(spec_lower(s@).len() != lit@.len());
            }
        }
        return false;
    }
    let mut i: usize = 0;
    while i < n
        invariant
            i <= n,
            n == s@.len(),
            n == lit@.len(),
            forall|j: int| 0 <= j < i ==> spec_lower_char(s@[j]) == lit@[j],
        decreases n - i,
    {
        if lower_char(s.get_char(i)) != lit.get_char(i) {
            proof {
                assert(spec_lower(s@)[i as int] != lit@[i as int]);
            }
            return false;
        }
        i += 1;
    }
    proof {
        assert(spec_lower(s@) =~= lit@);
    }
    true
}

/// Does `s` start with `p`, character for character?
pub fn str_starts_with(s: &str, p: &str) -> (r: bool)
    ensures
        r == p@.is_prefix_of(s@),
{
    let n = s.unicode_len();
    let m = p.unicode_len();
    if m > n {
        return false;
    }
    let mut i: usize = 0;
    while i < m
        invariant
            i <= m,
            m <= n,
            n == s@.len(),
            m == p@.len(),
            forall|j: int| 0 <= j < i ==> s@[j] == p@[j],
        decreases m - i,
    {
        if s.get_char(i) != p.get_char(i) {
            proof {
                assert(s@.subrange(0, p@.len() as int)[i as int] != p@[i as int]);
            }
            return false;
        }
        i += 1;
    }
    proof {
        assert(s@.subrange(0, p@.len() as int) =~= p@);
    }
    true
}

/// Does `s` end with `p`, character for character?
pub fn str_ends_with(s: &str, p: &str) -> (r: bool)
    ensures
        r == p@.is_suffix_of(s@),
{
    let n = s.unicode_len();
    let m = p.unicode_len();
    if m > n {
        return false;
    }
    let mut i: usize = 0;
    while i < m
        invariant
            i <= m,
            m <= n,
            n == s@.len(),
            m == p@.len(),
            forall|j: int| 0 <= j < i ==> s@[n - m + j] == p@[j],
        decreases m - i,
    {
        if s.get_char(n - m + i) != p.get_char(i) {
            proof {
                assert(s@.subrange(s@.len() - p@.len(), s@.len() as int)[i as int] != p@[i as int]);
            }
            return false;
        }
        i += 1;
    }
    proof {
        assert(s@.subrange(s@.len() - p@.len(), s@.len() as int) =~= p@);
    }
    true
}

/// When no `'/'` stands at or after position `cut`, and `cut` is
/// either the start or just after a `'/'`, the basename is the suffix
/// of `s` from `cut`.
proof fn lemma_basename_suffix(s: Seq<char>, cut: int)
    requires
        0 <= cut <= s.len(),
        cut == 0 || s[cut - 1] == '/',
        forall|j: int| cut <= j < s.len() ==> s[j] != '/',
    ensures
        spec_basename(s) == s.subrange(cut, s.len() as int),
    decreases s.len(),
{
    if s.len() == cut {
        if s.len() == 0 {
            assert(spec_basename(s) =~= s.subrange(cut, s.len() as int));
        } else {
            assert(s.last() == '/');
            assert(spec_basename(s) =~= s.subrange(cut, s.len() as int));
        }
    } else {
        assert(s.last() != '/');
        lemma_basename_suffix(s.drop_last(), cut);
        assert(s.drop_last().subrange(cut, s.drop_last().len() as int) =~= s.subrange(
            cut,
            s.len() - 1,
        ));
        assert(spec_basename(s) =~= s.subrange(cut, s.len() as int));
    }
}

/// The base filename of `s`: everything after the last `'/'`.
pub fn basename_of(s: &str) -> (r: String)
    ensures
        r@ == spec_basename(s@),
{
    let n = s.unicode_len();
    let mut cut: usize = 0;
    let mut i: usize = 0;
    while i < n
        invariant
            i <= n,
            n == s@.len(),
            cut <= i,
            cut == 0 || s@[cut - 1] == '/',
            forall|j: int| cut <= j < i ==> s@[j] != '/',
        decreases n - i,
    {
        if s.get_char(i) == '/' {
            cut = i + 1;
        }
        i += 1;
    }
    let tail = s.substring_char(cut, n);
    proof {
        lemma_basename_suffix(s@, cut as int);
    }
    tail.to_owned()
}

} // verus!
