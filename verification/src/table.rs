//! The word-frequency table: an association vector with unique keys,
//! modeled as a map from word to occurrence count.

use vstd::prelude::*;
use crate::text::eq_chars;

verus! {

/// One more occurrence of a count, capped at the largest representable
/// count.
pub open spec fn sat_inc(c: u32) -> u32 {
    if c == u32::MAX {
        c
    } else {
        (c + 1) as u32
    }
}

/// The map recorded by the entries: later entries would win, though a
/// well-formed table never repeats a key.
pub open spec fn entries_map(s: Seq<(Vec<char>, u32)>) -> Map<Seq<char>, u32>
    decreases s.len(),
{
    if s.len() == 0 {
        Map::empty()
    } else {
        entries_map(s.drop_last()).insert(s.last().0@, s.last().1)
    }
}

/// `m` after one more observation of the word `k`.
pub open spec fn bump(m: Map<Seq<char>, u32>, k: Seq<char>) -> Map<Seq<char>, u32> {
    if m.contains_key(k) {
        m.insert(k, sat_inc(m[k]))
    } else {
        m.insert(k, 1u32)
    }
}

pub struct FreqTable {
    entries: Vec<(Vec<char>, u32)>,
}

impl View for FreqTable {
    type V = Map<Seq<char>, u32>;

    closed spec fn view(&self) -> Map<Seq<char>, u32> {
        entries_map(self.entries@)
    }
}

impl FreqTable {
    /// No key occurs twice among the entries.
    pub closed spec fn wf(&self) -> bool {
        forall|i: int, j: int|
            0 <= i < j < self.entries@.len() ==> self.entries@[i].0@ != self.entries@[j].0@
    }

    pub fn new() -> (r: FreqTable)
        ensures
            r.wf(),
            r@ == Map::<Seq<char>, u32>::empty(),
    {
        FreqTable { entries: Vec::new() }
    }

    /// The position of `w` among the entries, if it is recorded.
    fn position_of(&self, w: &Vec<char>) -> (r: Option<usize>)
        ensures
            match r {
                Some(i) => i < self.entries@.len() && self.entries@[i as int].0@ == w@,
                None => forall|i: int| 0 <= i < self.entries@.len() ==> self.entries@[i].0@ != w@,
            },
    {
        let mut i: usize = 0;
        while i < self.entries.len()
            invariant
                i <= self.entries@.len(),
                forall|j: int| 0 <= j < i ==> self.entries@[j].0@ != w@,
            decreases self.entries@.len() - i,
        {
            if eq_chars(&self.entries[i].0, w) {
                return Some(i);
            }
            i = i + 1;
        }
        None
    }

    /// The recorded count of `w`, if any.
    pub fn get(&self, w: &Vec<char>) -> (r: Option<u32>)
        requires
            self.wf(),
        ensures
            match r {
                Some(c) => self@.contains_key(w@) && self@[w@] == c,
                None => !self@.contains_key(w@),
            },
    {
        let pos = self.position_of(w);
        match pos {
            Some(i) => {
                proof {
                    lemma_entries_map_at(self.entries@, i as int);
                }
                Some(self.entries[i].1)
            },
            None => {
                proof {
                    lemma_entries_map_absent(self.entries@, w@);
                }
                None
            },
        }
    }

    /// Record one more occurrence of `w`.
    pub fn bump_word(&mut self, w: Vec<char>)
        requires
            old(self).wf(),
        ensures
            final(self).wf(),
            final(self)@ == bump(old(self)@, w@),
            final(self)@.dom() == old(self)@.dom().insert(w@),
    {
        let pos = self.position_of(&w);
        match pos {
            Some(i) => {
                proof {
                    lemma_entries_map_at(self.entries@, i as int);
                }
                let entry = self.entries.remove(i);
                let raised = entry.1.saturating_add(1);
                self.entries.insert(i, (entry.0, raised));
                proof {
                    assert(self.entries@ =~= old(self).entries@.update(
                        i as int,
                        (old(self).entries@[i as int].0, raised),
                    ));
                    lemma_entries_map_update(old(self).entries@, i as int, raised);
                    assert(final(self)@.dom() =~= old(self)@.dom().insert(w@));
                }
            },
            None => {
                proof {
                    lemma_entries_map_absent(self.entries@, w@);
                }
                self.entries.push((w, 1));
                proof {
                    assert(self.entries@.drop_last() =~= old(self).entries@);
                    assert(final(self)@.dom() =~= old(self)@.dom().insert(w@));
                }
            },
        }
    }
}

/// In a well-formed entry sequence, the entry at `i` gives the map's
/// value at its key.
proof fn lemma_entries_map_at(s: Seq<(Vec<char>, u32)>, i: int)
    requires
        0 <= i < s.len(),
        forall|p: int, q: int| 0 <= p < q < s.len() ==> s[p].0@ != s[q].0@,
    ensures
        entries_map(s).contains_key(s[i].0@),
        entries_map(s)[s[i].0@] == s[i].1,
    decreases s.len(),
{
    if i + 1 < s.len() {
        lemma_entries_map_at(s.drop_last(), i);
    }
}

/// A key that no entry carries is not in the map.
proof fn lemma_entries_map_absent(s: Seq<(Vec<char>, u32)>, k: Seq<char>)
    requires
        forall|i: int| 0 <= i < s.len() ==> s[i].0@ != k,
    ensures
        !entries_map(s).contains_key(k),
    decreases s.len(),
{
    if s.len() > 0 {
        lemma_entries_map_absent(s.drop_last(), k);
    }
}

/// Replacing the count at position `i` replaces the map's value at that
/// entry's key.
proof fn lemma_entries_map_update(s: Seq<(Vec<char>, u32)>, i: int, c: u32)
    requires
        0 <= i < s.len(),
        forall|p: int, q: int| 0 <= p < q < s.len() ==> s[p].0@ != s[q].0@,
    ensures
        entries_map(s.update(i, (s[i].0, c))) == entries_map(s).insert(s[i].0@, c),
    decreases s.len(),
{
    let t = s.update(i, (s[i].0, c));
    if i == s.len() - 1 {
        assert(t.drop_last() =~= s.drop_last());
        assert(entries_map(t) =~= entries_map(s).insert(s[i].0@, c));
    } else {
        lemma_entries_map_update(s.drop_last(), i, c);
        assert(t.drop_last() =~= s.drop_last().update(i, (s[i].0, c)));
        lemma_entries_map_at(s, i);
        assert(entries_map(t) =~= entries_map(s).insert(s[i].0@, c));
    }
}

} // verus!
