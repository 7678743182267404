//! Tokenization of training text: lowercasing and extraction of the
//! maximal runs of letters `a` through `z`.

use vstd::prelude::*;
use vstd::string::StrSliceExecFns;

verus! {

/// True of the characters that may appear in a known word.
pub open spec fn is_letter(c: char) -> bool {
    'a' <= c && c <= 'z'
}

/// A well-formed word: nonempty, made of letters alone.
pub open spec fn word_ok(w: Seq<char>) -> bool {
    &&& w.len() > 0
    &&& forall|i: int| 0 <= i < w.len() ==> is_letter(w[i])
}

/// Left-to-right scan of `s`: the letter runs completed so far, and the
/// run still open at the scan position.
pub open spec fn scan_tokens(s: Seq<char>) -> (Seq<Seq<char>>, Seq<char>)
    decreases s.len(),
{
    if s.len() == 0 {
        (Seq::empty(), Seq::empty())
    } else {
        let prior = scan_tokens(s.drop_last());
        if is_letter(s.last()) {
            (prior.0, prior.1.push(s.last()))
        } else if prior.1.len() > 0 {
            (prior.0.push(prior.1), Seq::empty())
        } else {
            prior
        }
    }
}

/// The maximal runs of letters in `s`, in order; every other character
/// separates runs and is discarded.
pub open spec fn tokens_of(s: Seq<char>) -> Seq<Seq<char>> {
    let scan = scan_tokens(s);
    if scan.1.len() > 0 {
        scan.0.push(scan.1)
    } else {
        scan.0
    }
}

/// Midway through the scan, every completed run is a word and the open
/// run holds letters alone.
proof fn lemma_scan_tokens_wf(s: Seq<char>)
    ensures
        forall|i: int| 0 <= i < scan_tokens(s).0.len() ==> word_ok(#[trigger] scan_tokens(s).0[i]),
        forall|i: int| 0 <= i < scan_tokens(s).1.len() ==> is_letter(#[trigger] scan_tokens(s).1[i]),
    decreases s.len(),
{
    if s.len() > 0 {
        lemma_scan_tokens_wf(s.drop_last());
        let prior = scan_tokens(s.drop_last());
        if is_letter(s.last()) {
            assert(scan_tokens(s).1 == prior.1.push(s.last()));
            assert forall|i: int| 0 <= i < scan_tokens(s).1.len() implies is_letter(
                scan_tokens(s).1[i],
            ) by {
                if i < prior.1.len() {
                    assert(is_letter(prior.1[i]));
                }
            }
        } else if prior.1.len() > 0 {
            assert(word_ok(prior.1));
            assert(scan_tokens(s).0 == prior.0.push(prior.1));
            assert forall|i: int| 0 <= i < scan_tokens(s).0.len() implies word_ok(
                scan_tokens(s).0[i],
            ) by {
                if i < prior.0.len() {
                    assert(word_ok(prior.0[i]));
                }
            }
        }
    }
}

/// Every token the tokenizer yields is a nonempty run of letters:
/// digits, punctuation and other characters contribute nothing.
pub proof fn lemma_tokens_are_words(s: Seq<char>)
    ensures
        forall|i: int| 0 <= i < tokens_of(s).len() ==> word_ok(#[trigger] tokens_of(s)[i]),
{
    lemma_scan_tokens_wf(s);
}

/// Scanning a concatenation whose first part ends outside a letter run
/// completes the first part's tokens and carries only the second
/// part's state.
proof fn lemma_scan_tokens_concat(s1: Seq<char>, s2: Seq<char>)
    requires
        s1.len() == 0 || !is_letter(s1.last()),
    ensures
        scan_tokens(s1 + s2).0 == tokens_of(s1) + scan_tokens(s2).0,
        scan_tokens(s1 + s2).1 == scan_tokens(s2).1,
    decreases s2.len(),
{
    if s2.len() == 0 {
        assert(s1 + s2 =~= s1);
        assert(tokens_of(s1) + scan_tokens(s2).0 =~= tokens_of(s1));
    } else {
        lemma_scan_tokens_concat(s1, s2.drop_last());
        let rest = scan_tokens(s2.drop_last());
        assert((s1 + s2).drop_last() =~= s1 + s2.drop_last());
        assert((s1 + s2).last() == s2.last());
        if !is_letter(s2.last()) && rest.1.len() > 0 {
            assert((tokens_of(s1) + rest.0).push(rest.1) =~= tokens_of(s1) + rest.0.push(rest.1));
        }
    }
}

/// Tokenization splits at a break: when the first text ends outside a
/// letter run, the tokens of the concatenation are the tokens of the
/// parts, in order. When instead both sides of the seam hold letters,
/// their runs merge into one token.
pub proof fn lemma_tokens_split_at_break(s1: Seq<char>, s2: Seq<char>)
    requires
        s1.len() == 0 || !is_letter(s1.last()),
    ensures
        tokens_of(s1 + s2) == tokens_of(s1) + tokens_of(s2),
{
    lemma_scan_tokens_concat(s1, s2);
    let scan = scan_tokens(s2);
    if scan.1.len() > 0 {
        assert((tokens_of(s1) + scan.0).push(scan.1) =~= tokens_of(s1) + scan.0.push(scan.1));
    } else {
        assert(tokens_of(s1 + s2) == tokens_of(s1) + tokens_of(s2));
    }
}

/// What `str::to_lowercase` returns: a function of the characters alone.
pub uninterp spec fn lower_of(s: Seq<char>) -> Seq<char>;

/// Relies on `str::to_lowercase`: the result depends on the characters of
/// `s` alone, and an empty string stays empty.
#[verifier::external_body]
pub(crate) fn lowercase(s: &str) -> (r: String)
    ensures
        r@ == lower_of(s@),
        s@.len() == 0 ==> r@.len() == 0,
{
    s.to_lowercase()
}

/// Relies on `regex::Regex::new` and `regex::Regex::find_iter`: for the
/// pattern of one or more letters `a` through `z`, the successive
/// non-overlapping matches of the haystack are exactly its maximal runs
/// of such letters, in order. `Regex::new` succeeds on this fixed,
/// well-formed pattern.
#[verifier::external_body]
pub(crate) fn letter_runs(text: &str) -> (r: Vec<String>)
    ensures
        r@.len() == tokens_of(text@).len(),
        forall|i: int| 0 <= i < r@.len() ==> r@[i]@ == tokens_of(text@)[i],
{
    let pattern = regex::Regex::new("[a-z]+").unwrap();
    pattern.find_iter(text).map(|m| m.as_str().to_string()).collect()
}

/// Relies on the `FromIterator` impl of `String`: collecting characters
/// yields the string of exactly those characters, in order.
#[verifier::external_body]
pub(crate) fn string_from_chars(cs: &Vec<char>) -> (r: String)
    ensures
        r@ == cs@,
{
    cs.iter().collect()
}

/// The characters of `s`, as a vector.
pub(crate) fn chars_of(s: &str) -> (r: Vec<char>)
    ensures
        r@ == s@,
{
    let n = s.unicode_len();
    let mut r: Vec<char> = Vec::new();
    let mut i: usize = 0;
    while i < n
        invariant
            i <= n,
            n == s@.len(),
            r@ == s@.take(i as int),
        decreases n - i,
    {
        r.push(s.get_char(i));
        proof {
            assert(s@.take(i + 1) =~= s@.take(i as int).push(s@[i as int]));
        }
        i = i + 1;
    }
    proof {
        assert(s@.take(n as int) =~= s@);
    }
    r
}

/// The characters of both vectors are the same, in the same order.
pub(crate) fn eq_chars(a: &Vec<char>, b: &Vec<char>) -> (r: bool)
    ensures
        r == (a@ == b@),
{
    if a.len() != b.len() {
        return false;
    }
    let mut i: usize = 0;
    while i < a.len()
        invariant
            i <= a.len(),
            a.len() == b.len(),
            forall|j: int| 0 <= j < i ==> a@[j] == b@[j],
        decreases a.len() - i,
    {
        if a[i] != b[i] {
            return false;
        }
        i = i + 1;
    }
    proof {
        assert(a@ =~= b@);
    }
    true
}

} // verus!
