//! Text operations of the standard library that the rest of the library
//! relies on, with what each one promises, and two verified comparisons.

use vstd::prelude::*;
use vstd::string::StrSliceExecFns;

verus! {

/// The characters of `s` in lower case, as `str::to_lowercase` gives them.
pub uninterp spec fn lower_of(s: Seq<char>) -> Seq<char>;

/// Whether `char::is_uppercase` holds of `c`.
pub uninterp spec fn upper_case(c: char) -> bool;

/// The characters that `char::to_uppercase` gives for `c`.
pub uninterp spec fn char_upper_of(c: char) -> Seq<char>;

/// The characters that `char::to_lowercase` gives for `c`.
pub uninterp spec fn char_lower_of(c: char) -> Seq<char>;

/// The words of `s`: its pieces between runs of whitespace, as
/// `str::split_whitespace` gives them.
pub uninterp spec fn words_of(s: Seq<char>) -> Seq<Seq<char>>;

/// The lines of `s`, as `str::lines` gives them.
pub uninterp spec fn lines_of(s: Seq<char>) -> Seq<Seq<char>>;

/// Relies on `str::to_lowercase`: its result depends on the characters alone.
#[verifier::external_body]
pub(crate) fn lowercase(s: &str) -> (r: String)
    ensures
        r@ == lower_of(s@),
{
    s.to_lowercase()
}

/// Relies on `char::is_uppercase`.
#[verifier::external_body]
pub(crate) fn is_upper(c: char) -> (r: bool)
    ensures
        r == upper_case(c),
{
    c.is_uppercase()
}

/// Relies on `char::to_uppercase`, collected into characters.
#[verifier::external_body]
pub(crate) fn upper_chars(c: char) -> (r: Vec<char>)
    ensures
        r@ == char_upper_of(c),
{
    c.to_uppercase().collect()
}

/// Relies on `char::to_lowercase`, collected into characters.
#[verifier::external_body]
pub(crate) fn lower_chars(c: char) -> (r: Vec<char>)
    ensures
        r@ == char_lower_of(c),
{
    c.to_lowercase().collect()
}

/// Relies on `str::split_whitespace`, collected into a vector of slices.
#[verifier::external_body]
pub(crate) fn split_words(s: &str) -> (r: Vec<&str>)
    ensures
        r@.len() == words_of(s@).len(),
        forall|i: int| 0 <= i < r@.len() ==> (#[trigger] r@[i])@ == words_of(s@)[i],
{
    s.split_whitespace().collect()
}

/// Relies on `str::lines`, collected into a vector of slices.
#[verifier::external_body]
pub(crate) fn split_lines<'a>(s: &'a str) -> (r: Vec<&'a str>)
    ensures
        r@.len() == lines_of(s@).len(),
        forall|i: int| 0 <= i < r@.len() ==> (#[trigger] r@[i])@ == lines_of(s@)[i],
{
    s.lines().collect()
}

/// The characters of `s` in order.
pub(crate) fn chars_of(s: &str) -> (r: Vec<char>)
    ensures
        r@ == s@,
{
    let n = s.unicode_len();
    let mut r: Vec<char> = Vec::new();
    let mut i: usize = 0;
    while i < n
        invariant
            n == s@.len(),
            i <= n,
            r@ == s@.subrange(0, i as int),
        decreases n - i,
    {
        r.push(s.get_char(i));
        i = i + 1;
    }
    assert(r@ =~= s@);
    r
}

/// Relies on collecting characters into a `String`: the string of the
/// characters of `v` in order.
#[verifier::external_body]
pub(crate) fn string_of(v: &Vec<char>) -> (r: String)
    ensures
        r@ == v@,
{
    v.iter().collect()
}

/// Whether `q` occurs in `t` as a run of consecutive characters.
pub open spec fn has_substring(t: Seq<char>, q: Seq<char>) -> bool {
    exists|i: int| 0 <= i <= t.len() - q.len() && #[trigger] t.subrange(i, i + q.len()) == q
}

/// Whether `q` occurs in `t` as a run of consecutive characters.
pub fn contains_text(t: &str, q: &str) -> (r: bool)
    ensures
        r == has_substring(t@, q@),
{
    let tc = chars_of(t);
    let qc = chars_of(q);
    if qc.len() > tc.len() {
        return false;
    }
    let last = tc.len() - qc.len();
    let mut i: usize = 0;
    while i <= last
        invariant
            tc@ == t@,
            qc@ == q@,
            last == tc.len() - qc.len(),
            i <= last + 1,
            forall|k: int| 0 <= k < i ==> #[trigger] t@.subrange(k, k + q@.len()) != q@,
        decreases last + 1 - i,
    {
        let mut j: usize = 0;
        while j < qc.len() && tc[i + j] == qc[j]
            invariant
                tc@ == t@,
                qc@ == q@,
                i <= last,
                last == tc.len() - qc.len(),
                j <= qc.len(),
                forall|m: int| 0 <= m < j ==> t@[i + m] == q@[m],
            decreases qc.len() - j,
        {
            j = j + 1;
        }
        if j == qc.len() {
            assert(t@.subrange(i as int, i + q@.len()) =~= q@);
            return true;
        }
        assert(t@.subrange(i as int, i + q@.len())[j as int] != q@[j as int]);
        i = i + 1;
    }
    false
}

/// Whether `a` and `b` hold the same characters.
pub fn same_text(a: &str, b: &str) -> (r: bool)
    ensures
        r == (a@ == b@),
{
    let ac = chars_of(a);
    let bc = chars_of(b);
    if ac.len() != bc.len() {
        return false;
    }
    let mut i: usize = 0;
    while i < ac.len()
        invariant
            ac@ == a@,
            bc@ == b@,
            ac.len() == bc.len(),
            i <= ac.len(),
            forall|k: int| 0 <= k < i ==> a@[k] == b@[k],
        decreases ac.len() - i,
    {
        if ac[i] != bc[i] {
            return false;
        }
        i = i + 1;
    }
    assert(a@ =~= b@);
    true
}

} // verus!
