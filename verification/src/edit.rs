//! The edit generator: every string reachable from a word by one
//! deletion, transposition, substitution or insertion.

use vstd::prelude::*;
use vstd::arithmetic::div_mod::lemma_fundamental_div_mod_converse;

verus! {

/// The fixed alphabet: the 26 lowercase letters, in order.
pub open spec fn alphabet() -> Seq<char> {
    seq![
        'a', 'b', 'c', 'd', 'e', 'f', 'g', 'h', 'i', 'j', 'k', 'l', 'm', 'n', 'o', 'p', 'q', 'r',
        's', 't', 'u', 'v', 'w', 'x', 'y', 'z',
    ]
}

/// `w` with the character at `i` removed.
pub open spec fn delete_at(w: Seq<char>, i: int) -> Seq<char> {
    w.remove(i)
}

/// `w` with the characters at `i` and `i + 1` exchanged.
pub open spec fn transpose_at(w: Seq<char>, i: int) -> Seq<char> {
    w.update(i, w[i + 1]).update(i + 1, w[i])
}

/// `w` with the character at `i` replaced by `c`.
pub open spec fn replace_at(w: Seq<char>, i: int, c: char) -> Seq<char> {
    w.update(i, c)
}

/// `w` with `c` inserted before position `i`.
pub open spec fn insert_at(w: Seq<char>, i: int, c: char) -> Seq<char> {
    w.insert(i, c)
}

/// How many transpositions a word of `n` characters admits.
pub open spec fn transposition_count(n: nat) -> nat {
    if n == 0 {
        0
    } else {
        (n - 1) as nat
    }
}

/// All single deletions of `w`, by position.
pub open spec fn deletions_of(w: Seq<char>) -> Seq<Seq<char>> {
    Seq::new(w.len(), |i: int| delete_at(w, i))
}

/// All single transpositions of adjacent characters of `w`, by position.
pub open spec fn transpositions_of(w: Seq<char>) -> Seq<Seq<char>> {
    Seq::new(transposition_count(w.len()), |i: int| transpose_at(w, i))
}

/// All single substitutions in `w`, by position and then by letter.
pub open spec fn alterations_of(w: Seq<char>) -> Seq<Seq<char>> {
    Seq::new(w.len() * 26, |k: int| replace_at(w, k / 26, alphabet()[k % 26]))
}

/// All single insertions into `w`, by position and then by letter.
pub open spec fn insertions_of(w: Seq<char>) -> Seq<Seq<char>> {
    Seq::new((w.len() + 1) * 26, |k: int| insert_at(w, k / 26, alphabet()[k % 26]))
}

/// Every candidate at edit distance one from `w`: the deletions, then
/// the transpositions, then the substitutions, then the insertions.
/// Duplicates are permitted.
pub open spec fn edits_of(w: Seq<char>) -> Seq<Seq<char>> {
    deletions_of(w) + transpositions_of(w) + alterations_of(w) + insertions_of(w)
}

/// A copy of the characters of `v`.
pub(crate) fn copy_chars(v: &Vec<char>) -> (r: Vec<char>)
    ensures
        r@ == v@,
{
    let mut r: Vec<char> = Vec::new();
    let mut i: usize = 0;
    while i < v.len()
        invariant
            i <= v@.len(),
            r@ == v@.take(i as int),
        decreases v@.len() - i,
    {
        r.push(v[i]);
        proof {
            assert(v@.take(i + 1) =~= v@.take(i as int).push(v@[i as int]));
        }
        i = i + 1;
    }
    proof {
        assert(v@.take(v@.len() as int) =~= v@);
    }
    r
}

/// Replace the character at `i` by `c`.
fn set_char(v: &mut Vec<char>, i: usize, c: char)
    requires
        i < old(v)@.len(),
    ensures
        final(v)@ == old(v)@.update(i as int, c),
{
    let _removed = v.remove(i);
    v.insert(i, c);
    proof {
        assert(final(v)@ =~= old(v)@.update(i as int, c));
    }
}

fn delete_char(w: &Vec<char>, i: usize) -> (r: Vec<char>)
    requires
        i < w@.len(),
    ensures
        r@ == delete_at(w@, i as int),
{
    let mut r = copy_chars(w);
    let _removed = r.remove(i);
    r
}

fn transpose_chars(w: &Vec<char>, i: usize) -> (r: Vec<char>)
    requires
        i + 1 < w@.len(),
    ensures
        r@ == transpose_at(w@, i as int),
{
    let n = w.len();
    proof {
        assert(i + 1 < n);
    }
    let a = w[i];
    let b = w[i + 1];
    let mut r = copy_chars(w);
    set_char(&mut r, i, b);
    set_char(&mut r, i + 1, a);
    r
}

fn replace_char(w: &Vec<char>, i: usize, c: char) -> (r: Vec<char>)
    requires
        i < w@.len(),
    ensures
        r@ == replace_at(w@, i as int, c),
{
    let mut r = copy_chars(w);
    set_char(&mut r, i, c);
    r
}

fn insert_char(w: &Vec<char>, i: usize, c: char) -> (r: Vec<char>)
    requires
        i <= w@.len(),
    ensures
        r@ == insert_at(w@, i as int, c),
{
    let mut r = copy_chars(w);
    r.insert(i, c);
    r
}

fn append_char(w: &Vec<char>, c: char) -> (r: Vec<char>)
    ensures
        r@ == insert_at(w@, w@.len() as int, c),
{
    let mut r = copy_chars(w);
    r.push(c);
    proof {
        assert(w@.insert(w@.len() as int, c) =~= w@.push(c));
    }
    r
}
/// Every candidate at edit distance one from `w`, in the order that
/// `edits_of` gives.
#[verifier::loop_isolation(false)]
pub(crate) fn edits(w: &Vec<char>, letters: &Vec<char>) -> (r: Vec<Vec<char>>)
    requires
        letters@ == alphabet(),
    ensures
        r@.len() == edits_of(w@).len(),
        forall|i: int| 0 <= i < r@.len() ==> r@[i]@ == edits_of(w@)[i],
{
    let ghost target = edits_of(w@);
    let ghost dn = w@.len() as int;
    let ghost tc = transposition_count(w@.len()) as int;
    let d = w.len();
    let mut r: Vec<Vec<char>> = Vec::new();

    let mut i: usize = 0;
    while i < d
        invariant
            i <= d,
            r@.len() == i,
            forall|j: int| 0 <= j < r@.len() ==> r@[j]@ == target[j],
        decreases d - i,
    {
        let e = delete_char(w, i);
        proof {
            assert(target[i as int] == deletions_of(w@)[i as int]);
        }
        r.push(e);
        i = i + 1;
    }

    let mut i: usize = 0;
    while i + 1 < d
        invariant
            d > 0 ==> i < d,
            d == 0 ==> i == 0,
            r@.len() == dn + i,
            forall|j: int| 0 <= j < r@.len() ==> r@[j]@ == target[j],
        decreases d - i,
    {
        let e = transpose_chars(w, i);
        proof {
            assert(target[dn + i] == transpositions_of(w@)[i as int]);
        }
        r.push(e);
        i = i + 1;
    }
    proof {
        assert(r@.len() == dn + tc);
    }

    let mut i: usize = 0;
    while i < d
        invariant
            i <= d,
            r@.len() == dn + tc + i * 26,
            forall|j: int| 0 <= j < r@.len() ==> r@[j]@ == target[j],
        decreases d - i,
    {
        let mut j: usize = 0;
        while j < 26
            invariant
                i < d,
                j <= 26,
                r@.len() == dn + tc + i * 26 + j,
                forall|k: int| 0 <= k < r@.len() ==> r@[k]@ == target[k],
            decreases 26 - j,
        {
            let e = replace_char(w, i, letters[j]);
            proof {
                let flat = (i * 26 + j) as int;
                lemma_fundamental_div_mod_converse(flat, 26, i as int, j as int);
                assert(flat < dn * 26);
                assert(target[dn + tc + flat] == alterations_of(w@)[flat]);
                assert(alterations_of(w@)[flat] == replace_at(w@, i as int, alphabet()[j as int]));
            }
            r.push(e);
            j = j + 1;
        }
        i = i + 1;
    }

    let ghost base = dn + tc + dn * 26;
    let mut i: usize = 0;
    while i < d
        invariant
            i <= d,
            r@.len() == base + i * 26,
            forall|j: int| 0 <= j < r@.len() ==> r@[j]@ == target[j],
        decreases d - i,
    {
        let mut j: usize = 0;
        while j < 26
            invariant
                i < d,
                j <= 26,
                r@.len() == base + i * 26 + j,
                forall|k: int| 0 <= k < r@.len() ==> r@[k]@ == target[k],
            decreases 26 - j,
        {
            let e = insert_char(w, i, letters[j]);
            proof {
                let flat = (i * 26 + j) as int;
                lemma_fundamental_div_mod_converse(flat, 26, i as int, j as int);
                assert(flat < (dn + 1) * 26);
                assert(target[base + flat] == insertions_of(w@)[flat]);
                assert(insertions_of(w@)[flat] == insert_at(w@, i as int, alphabet()[j as int]));
            }
            r.push(e);
            j = j + 1;
        }
        i = i + 1;
    }

    let mut j: usize = 0;
    while j < 26
        invariant
            j <= 26,
            r@.len() == base + dn * 26 + j,
            forall|k: int| 0 <= k < r@.len() ==> r@[k]@ == target[k],
        decreases 26 - j,
    {
        let e = append_char(w, letters[j]);
        proof {
            let flat = dn * 26 + j;
            lemma_fundamental_div_mod_converse(flat, 26, dn, j as int);
            assert(flat < (dn + 1) * 26);
            assert(target[base + flat] == insertions_of(w@)[flat]);
            assert(insertions_of(w@)[flat] == insert_at(w@, dn, alphabet()[j as int]));
        }
        r.push(e);
        j = j + 1;
    }
    proof {
        assert(r@.len() == edits_of(w@).len());
    }
    r
}

} // verus!
