//! Character and string helpers: identifier normalization (ASCII
//! lowercasing), suffix matching, and counting of non-alphanumeric
//! characters, together with the two small trusted bridges to `std` string
//! routines that vstd does not specify.

use vstd::prelude::*;

verus! {

/// Lowercase one character: an ASCII capital letter maps to its lowercase
/// form, every other character is unchanged.
pub open spec fn spec_norm_char(c: char) -> char {
    if 'A' <= c && c <= 'Z' {
        ((c as u32) + 32) as char
    } else {
        c
    }
}

/// A character sequence normalized character by character.
pub open spec fn spec_norm(s: Seq<char>) -> Seq<char> {
    s.map_values(|c: char| spec_norm_char(c))
}

/// A sequence is normalized when normalizing it changes nothing.
pub open spec fn is_normalized(s: Seq<char>) -> bool {
    spec_norm(s) == s
}

/// Normalization is idempotent on single characters.
pub proof fn lemma_norm_char_idempotent(c: char)
    ensures
        spec_norm_char(spec_norm_char(c)) == spec_norm_char(c),
{
}

/// Normalization is idempotent: the result of `spec_norm` is normalized.
pub proof fn lemma_norm_idempotent(s: Seq<char>)
    ensures
        is_normalized(spec_norm(s)),
{
    assert(spec_norm(spec_norm(s)) =~= spec_norm(s)) by {
        assert forall|i: int| 0 <= i < s.len() implies spec_norm(spec_norm(s))[i] == spec_norm(
            s,
        )[i] by {
            lemma_norm_char_idempotent(s[i]);
        }
    }
}

/// Executable normalization of a single character.
pub fn norm_char(c: char) -> (r: char)
    ensures
        r == spec_norm_char(c),
{
    if 'A' <= c && c <= 'Z' {
        (((c as u32) + 32) as u8) as char
    } else {
        c
    }
}

/// Relies on `String::push`: appends exactly the given character.
#[verifier::external_body]
pub(crate) fn push_char(s: &mut String, c: char)
    ensures
        final(s)@ == old(s)@.push(c),
{
    s.push(c)
}

/// Normalize an identifier: every ASCII capital letter lowercased, all other
/// characters kept.  Identifiers are normalized this way before any store
/// lookup or write.
pub fn normalize_id(s: &str) -> (r: String)
    ensures
        r@ == spec_norm(s@),
{
    let n: usize = s.unicode_len();
    let mut r = String::new();
    let mut i: usize = 0;
    while i < n
        invariant
            n == s@.len(),
            i <= n,
            r@ == spec_norm(s@.subrange(0, i as int)),
        decreases n - i,
    {
        let c = norm_char(s.get_char(i));
        push_char(&mut r, c);
        proof {
            assert(s@.subrange(0, i + 1).drop_last() =~= s@.subrange(0, i as int));
            assert(spec_norm(s@.subrange(0, i + 1)) =~= spec_norm(s@.subrange(0, i as int)).push(
                spec_norm_char(s@[i as int]),
            ));
        }
        i = i + 1;
    }
    proof {
        assert(s@.subrange(0, n as int) =~= s@);
    }
    r
}

/// `suffix` stands at the end of `s`.
pub open spec fn spec_is_suffix(suffix: Seq<char>, s: Seq<char>) -> bool {
    suffix.len() <= s.len() && s.subrange(s.len() - suffix.len(), s.len() as int) == suffix
}

/// Whether `s` ends with `suffix`, compared character by character.
pub fn str_ends_with(s: &str, suffix: &str) -> (r: bool)
    ensures
        r == spec_is_suffix(suffix@, s@),
{
    let n: usize = s.unicode_len();
    let m: usize = suffix.unicode_len();
    if m > n {
        return false;
    }
    let off: usize = n - m;
    let mut i: usize = 0;
    while i < m
        invariant
            n == s@.len(),
            m == suffix@.len(),
            m <= n,
            off == n - m,
            i <= m,
            forall|j: int| 0 <= j < i ==> s@[off + j] == suffix@[j],
        decreases m - i,
    {
        if s.get_char(off + i) != suffix.get_char(i) {
            assert(s@.subrange(s@.len() - suffix@.len(), s@.len() as int)[i as int] != suffix@[i as int]);
            return false;
        }
        i = i + 1;
    }
    proof {
        assert(s@.subrange(s@.len() - suffix@.len(), s@.len() as int) =~= suffix@);
    }
    true
}

/// Character-by-character string equality.
pub fn str_eq(a: &str, b: &str) -> (r: bool)
    ensures
        r == (a@ == b@),
{
    let n = a.unicode_len();
    let m = b.unicode_len();
    if n != m {
        proof {
            if a@ == b@ {
                assert(a@.len() == b@.len());
            }
        }
        return false;
    }
    let mut i: usize = 0;
    while i < n
        invariant
            n == a@.len(),
            n == b@.len(),
            i <= n,
            forall|j: int| 0 <= j < i ==> a@[j] == b@[j],
        decreases n - i,
    {
        if a.get_char(i) != b.get_char(i) {
            return false;
        }
        i = i + 1;
    }
    proof {
        assert(a@ =~= b@);
    }
    true
}

/// Names the result of `char::is_alphanumeric`: the Unicode alphanumeric
/// property of the character, a function of the character alone.
pub uninterp spec fn is_alphanum(c: char) -> bool;

/// Relies on `char::is_alphanumeric`: true exactly on Unicode alphanumeric
/// characters, decided by the character alone.
#[verifier::external_body]
fn char_is_alphanumeric(c: char) -> (r: bool)
    ensures
        r == is_alphanum(c),
{
    c.is_alphanumeric()
}

/// How many characters of `s` are not alphanumeric.
pub closed spec fn spec_count_special(s: Seq<char>) -> nat
    decreases s.len(),
{
    if s.len() == 0 {
        0
    } else {
        spec_count_special(s.drop_last()) + if is_alphanum(s.last()) {
            0nat
        } else {
            1nat
        }
    }
}

pub proof fn lemma_count_special_le_len(s: Seq<char>)
    ensures
        spec_count_special(s) <= s.len(),
    decreases s.len(),
{
    if s.len() > 0 {
        lemma_count_special_le_len(s.drop_last());
    }
}

/// Count the non-alphanumeric characters of `s`.
pub fn count_special(s: &str) -> (r: usize)
    ensures
        r == spec_count_special(s@),
{
    let n: usize = s.unicode_len();
    let mut cnt: usize = 0;
    let mut i: usize = 0;
    while i < n
        invariant
            n == s@.len(),
            i <= n,
            cnt == spec_count_special(s@.subrange(0, i as int)),
            cnt <= i,
        decreases n - i,
    {
        proof {
            lemma_count_special_le_len(s@.subrange(0, i as int));
            assert(s@.subrange(0, i + 1).drop_last() =~= s@.subrange(0, i as int));
            assert(s@.subrange(0, i + 1).last() == s@[i as int]);
        }
        if !char_is_alphanumeric(s.get_char(i)) {
            cnt = cnt + 1;
        }
        i = i + 1;
    }
    proof {
        assert(s@.subrange(0, n as int) =~= s@);
    }
    cnt
}

} // verus!
