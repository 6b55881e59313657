use vstd::prelude::*;
use vstd::string::StrSliceExecFns;

verus! {

/// The characters left after `str::trim` removes leading and trailing
/// whitespace. What counts as whitespace is settled by the standard library,
/// so the result is named rather than spelled out.
pub uninterp spec fn trim_of(s: Seq<char>) -> Seq<char>;

/// The characters `str::to_lowercase` produces for the given characters.
pub uninterp spec fn lower_of(s: Seq<char>) -> Seq<char>;

/// Relies on str::trim: removes leading and trailing whitespace, and the
/// result depends on the characters alone.
#[verifier::external_body]
fn trim_str(s: &str) -> (r: &str)
    ensures
        r@ == trim_of(s@),
{
    s.trim()
}

/// Relies on str::to_lowercase: the result depends on the characters alone.
#[verifier::external_body]
pub(crate) fn lower_str(s: &str) -> (r: String)
    ensures
        r@ == lower_of(s@),
{
    s.to_lowercase()
}

/// True when the string holds nothing but whitespace (or nothing at all).
pub fn is_blank(s: &str) -> (r: bool)
    ensures
        r == (trim_of(s@).len() == 0),
{
    let t = trim_str(s);
    t.unicode_len() == 0
}

/// The needle occurs in the haystack starting at position `i`.
pub open spec fn match_at(hay: Seq<char>, needle: Seq<char>, i: int) -> bool {
    0 <= i && i + needle.len() <= hay.len() && hay.subrange(i, i + needle.len()) == needle
}

/// The needle occurs somewhere in the haystack. An empty needle occurs in
/// every haystack.
pub open spec fn contains_sub(hay: Seq<char>, needle: Seq<char>) -> bool {
    exists|i: int| match_at(hay, needle, i)
}

/// The needle occurs in the haystack starting exactly at position `i`.
fn matches_here(hay: &str, needle: &str, i: usize) -> (r: bool)
    requires
        i + needle@.len() <= hay@.len(),
    ensures
        r == match_at(hay@, needle@, i as int),
{
    let hl = hay.unicode_len();
    let nl = needle.unicode_len();
    let mut j: usize = 0;
    while j < nl
        invariant
            j <= nl,
            hl == hay@.len(),
            nl == needle@.len(),
            i + nl <= hay@.len(),
            forall|t: int| 0 <= t < j ==> hay@[i + t] == needle@[t],
        decreases nl - j,
    {
        if hay.get_char(i + j) != needle.get_char(j) {
            proof {
                assert(hay@.subrange(i as int, i + needle@.len())[j as int] == hay@[i + j]);
            }
            return false;
        }
        j += 1;
    }
    proof {
        assert(hay@.subrange(i as int, i + needle@.len()) =~= needle@);
    }
    true
}

/// Substring search over the characters: true exactly when the needle occurs
/// in the haystack.
pub fn str_contains(hay: &str, needle: &str) -> (r: bool)
    ensures
        r == contains_sub(hay@, needle@),
{
    let hl = hay.unicode_len();
    let nl = needle.unicode_len();
    if nl > hl {
        proof {
            assert forall|i: int| !match_at(hay@, needle@, i) by {}
        }
        return false;
    }
    if nl == 0 {
        proof {
            assert(hay@.subrange(0, 0) =~= needle@);
            assert(match_at(hay@, needle@, 0));
        }
        return true;
    }
    let mut i: usize = 0;
    while i <= hl - nl
        invariant
            1 <= nl <= hl,
            hl == hay@.len(),
            nl == needle@.len(),
            i <= hl - nl + 1,
            forall|k: int| 0 <= k < i ==> !match_at(hay@, needle@, k),
        decreases hl - nl - i + 1,
    {
        if matches_here(hay, needle, i) {
            return true;
        }
        i += 1;
    }
    proof {
        assert forall|k: int| !match_at(hay@, needle@, k) by {
            if 0 <= k <= hl - nl {
                assert(!match_at(hay@, needle@, k));
            }
        }
    }
    false
}

} // verus!
