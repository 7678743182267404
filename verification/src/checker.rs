//! The spell checker: a frequency model trained on text, queried for
//! the best correction of a word.

use vstd::prelude::*;
use crate::edit::{alphabet, edits, edits_of, copy_chars};
use crate::table::{FreqTable, bump};
use crate::text::{
    chars_of, lowercase, lower_of, letter_runs, lemma_tokens_are_words, string_from_chars,
    tokens_of, word_ok,
};

verus! {

/// The count that `m` records for `k`, zero when `k` is unknown.
pub open spec fn count_in(m: Map<Seq<char>, u32>, k: Seq<char>) -> u32 {
    if m.contains_key(k) {
        m[k]
    } else {
        0u32
    }
}

/// Every key of `m` is a nonempty word of letters.
pub open spec fn keys_ok(m: Map<Seq<char>, u32>) -> bool {
    forall|k: Seq<char>| m.dom().contains(k) ==> word_ok(k)
}

/// The table `m` after observing every token of `toks` once, in order.
pub open spec fn trained(m: Map<Seq<char>, u32>, toks: Seq<Seq<char>>) -> Map<Seq<char>, u32>
    decreases toks.len(),
{
    if toks.len() == 0 {
        m
    } else {
        bump(trained(m, toks.drop_last()), toks.last())
    }
}

/// The running best candidate after also considering `e`: a candidate
/// replaces the best seen so far only when its count is strictly
/// greater, so among equal counts the earliest generated candidate is
/// kept.
pub open spec fn step_best(
    b: Option<Seq<char>>,
    e: Seq<char>,
    m: Map<Seq<char>, u32>,
) -> Option<Seq<char>> {
    match b {
        None => if m.contains_key(e) {
            Some(e)
        } else {
            None
        },
        Some(c) => if m.contains_key(e) && m[e] > m[c] {
            Some(e)
        } else {
            Some(c)
        },
    }
}

/// The best known candidate after scanning `cands` left to right,
/// starting from `b`.
pub open spec fn best_from(
    b: Option<Seq<char>>,
    cands: Seq<Seq<char>>,
    m: Map<Seq<char>, u32>,
) -> Option<Seq<char>>
    decreases cands.len(),
{
    if cands.len() == 0 {
        b
    } else {
        step_best(best_from(b, cands.drop_last(), m), cands.last(), m)
    }
}

/// The best known candidate among the edits of every word of `ws`,
/// scanned left to right starting from `b`: the candidates at edit
/// distance two from the original word, when `ws` is its edits.
pub open spec fn best_over_groups(
    b: Option<Seq<char>>,
    ws: Seq<Seq<char>>,
    m: Map<Seq<char>, u32>,
) -> Option<Seq<char>>
    decreases ws.len(),
{
    if ws.len() == 0 {
        b
    } else {
        best_from(best_over_groups(b, ws.drop_last(), m), edits_of(ws.last()), m)
    }
}

/// What `correct` returns for the query `w` under the table `m`: the
/// query itself when it is known; otherwise the most frequent known
/// candidate at edit distance one; otherwise the most frequent known
/// candidate at edit distance two; otherwise the query unchanged.
pub open spec fn correct_spec(w: Seq<char>, m: Map<Seq<char>, u32>) -> Seq<char> {
    if m.contains_key(w) {
        w
    } else {
        match best_from(None, edits_of(w), m) {
            Some(c) => c,
            None => match best_over_groups(None, edits_of(w), m) {
                Some(c) => c,
                None => w,
            },
        }
    }
}

/// The word that a running best candidate stands for.
pub open spec fn opt_word(b: Option<(Vec<char>, u32)>) -> Option<Seq<char>> {
    match b {
        None => None,
        Some(p) => Some(p.0@),
    }
}

pub struct Checker {
    letters: Vec<char>,
    freq: FreqTable,
}

impl View for Checker {
    type V = Map<Seq<char>, u32>;

    closed spec fn view(&self) -> Map<Seq<char>, u32> {
        self.freq@
    }
}

impl Checker {
    /// The checker is intact: it carries the fixed alphabet, its table
    /// keeps one entry per word, and every known word is a nonempty run
    /// of letters.
    pub closed spec fn wf(&self) -> bool {
        &&& self.letters@ == alphabet()
        &&& self.freq.wf()
        &&& keys_ok(self@)
    }

    /// A checker with the 26-letter alphabet and an empty table.
    pub fn new() -> (r: Checker)
        ensures
            r.wf(),
            r@ == Map::<Seq<char>, u32>::empty(),
    {
        let letters: Vec<char> = vec![
            'a', 'b', 'c', 'd', 'e', 'f', 'g', 'h', 'i', 'j', 'k', 'l', 'm', 'n', 'o', 'p', 'q',
            'r', 's', 't', 'u', 'v', 'w', 'x', 'y', 'z',
        ];
        proof {
            assert(letters@ =~= alphabet());
        }
        Checker { letters, freq: FreqTable::new() }
    }

    /// Accumulate one count for every token of `text`, lowercased and
    /// split into maximal runs of letters.
    #[verifier::loop_isolation(false)]
    pub fn train(&mut self, text: &str)
        requires
            old(self).wf(),
        ensures
            final(self).wf(),
            final(self)@ == trained(old(self)@, tokens_of(lower_of(text@))),
    {
        let lowered = lowercase(text);
        let runs = letter_runs(lowered.as_str());
        let ghost toks = tokens_of(lower_of(text@));
        proof {
            lemma_tokens_are_words(lower_of(text@));
        }
        let mut i: usize = 0;
        while i < runs.len()
            invariant
                i <= runs@.len(),
                self.letters == old(self).letters,
                self.freq.wf(),
                keys_ok(self.freq@),
                self.freq@ == trained(old(self)@, toks.take(i as int)),
            decreases runs@.len() - i,
        {
            let token = chars_of(runs[i].as_str());
            proof {
                assert(token@ == toks[i as int]);
                assert(toks.take(i + 1).drop_last() =~= toks.take(i as int));
                assert(toks.take(i + 1).last() == toks[i as int]);
            }
            self.freq.bump_word(token);
            proof {
                assert(word_ok(toks[i as int]));
                assert(keys_ok(self.freq@));
            }
            i = i + 1;
        }
        proof {
            assert(toks.take(runs@.len() as int) =~= toks);
        }
    }

    /// The recorded count of `word`, zero when it was never seen.
    pub fn count(&self, word: &str) -> (r: u32)
        requires
            self.wf(),
        ensures
            r == count_in(self@, word@),
    {
        let wchars = chars_of(word);
        match self.freq.get(&wchars) {
            Some(c) => c,
            None => 0,
        }
    }

    /// The best-guess correction of `word`: `word` itself when it is
    /// known; otherwise the most frequent known word at edit distance
    /// one, then at edit distance two; otherwise `word` unchanged. The
    /// table is read, never changed.
    #[verifier::loop_isolation(false)]
    pub fn correct(&mut self, word: &str) -> (r: String)
        requires
            old(self).wf(),
        ensures
            *final(self) == *old(self),
            r@ == correct_spec(word@, old(self)@),
    {
        let ghost m = old(self)@;
        let wchars = chars_of(word);
        if let Some(_known) = self.freq.get(&wchars) {
            return word.to_owned();
        }
        let e1 = edits(&wchars, &self.letters);
        let ghost cands = edits_of(word@);

        let mut best: Option<(Vec<char>, u32)> = None;
        let mut i: usize = 0;
        while i < e1.len()
            invariant
                i <= e1@.len(),
                opt_word(best) == best_from(None, cands.take(i as int), m),
                match best {
                    Some(p) => m.contains_key(p.0@) && m[p.0@] == p.1,
                    None => true,
                },
            decreases e1@.len() - i,
        {
            let found = self.freq.get(&e1[i]);
            proof {
                assert(cands.take(i + 1).drop_last() =~= cands.take(i as int));
                assert(cands.take(i + 1).last() == cands[i as int]);
                assert(cands[i as int] == e1@[i as int]@);
            }
            match found {
                Some(cnt) => {
                    let replace = match &best {
                        None => true,
                        Some(p) => cnt > p.1,
                    };
                    if replace {
                        best = Some((copy_chars(&e1[i]), cnt));
                    }
                },
                None => {},
            }
            i = i + 1;
        }
        proof {
            assert(cands.take(e1@.len() as int) =~= cands);
        }
        match best {
            Some(p) => {
                return string_from_chars(&p.0);
            },
            None => {},
        }

        let mut best2: Option<(Vec<char>, u32)> = None;
        let mut i: usize = 0;
        while i < e1.len()
            invariant
                i <= e1@.len(),
                opt_word(best2) == best_over_groups(None, cands.take(i as int), m),
                match best2 {
                    Some(p) => m.contains_key(p.0@) && m[p.0@] == p.1,
                    None => true,
                },
            decreases e1@.len() - i,
        {
            let group = edits(&e1[i], &self.letters);
            let ghost gcands = edits_of(e1@[i as int]@);
            let ghost b0 = best_over_groups(None, cands.take(i as int), m);
            let mut j: usize = 0;
            while j < group.len()
                invariant
                    j <= group@.len(),
                    opt_word(best2) == best_from(b0, gcands.take(j as int), m),
                    match best2 {
                        Some(p) => m.contains_key(p.0@) && m[p.0@] == p.1,
                        None => true,
                    },
                decreases group@.len() - j,
            {
                let found = self.freq.get(&group[j]);
                proof {
                    assert(gcands.take(j + 1).drop_last() =~= gcands.take(j as int));
                    assert(gcands.take(j + 1).last() == gcands[j as int]);
                    assert(gcands[j as int] == group@[j as int]@);
                }
                match found {
                    Some(cnt) => {
                        let replace = match &best2 {
                            None => true,
                            Some(p) => cnt > p.1,
                        };
                        if replace {
                            best2 = Some((copy_chars(&group[j]), cnt));
                        }
                    },
                    None => {},
                }
                j = j + 1;
            }
            proof {
                assert(gcands.take(group@.len() as int) =~= gcands);
                assert(cands.take(i + 1).drop_last() =~= cands.take(i as int));
                assert(cands.take(i + 1).last() == cands[i as int]);
                assert(cands[i as int] == e1@[i as int]@);
            }
            i = i + 1;
        }
        proof {
            assert(cands.take(e1@.len() as int) =~= cands);
        }
        match best2 {
            Some(p) => string_from_chars(&p.0),
            None => word.to_owned(),
        }
    }
}

/// Every word the checker knows is a nonempty run of letters `a`
/// through `z`: the table's keys come from the tokenizer alone.
pub proof fn lemma_checker_keys(c: &Checker)
    requires
        c.wf(),
    ensures
        keys_ok(c@),
{
}

} // verus!
