//! Corpus-frequency catalog: a static ranked list of (dictionary form,
//! reading) pairs, loaded once at startup and immutable afterwards.
//! The rank of a pair is its position in the list counted from 1; a
//! pair not in the list gets the sentinel rank `size + 1` (worst).

use vstd::prelude::*;

verus! {

/// Rank of the pair in `entries`, counted from 1; `entries.len() + 1`
/// when the pair is absent. When a pair occurs twice, the first
/// occurrence counts.
pub open spec fn rank_in(entries: Seq<(String, String)>, df: Seq<char>, rd: Seq<char>) -> int
    decreases entries.len(),
{
    if entries.len() == 0 {
        1
    } else if entries[0].0@ == df && entries[0].1@ == rd {
        1
    } else {
        1 + rank_in(entries.drop_first(), df, rd)
    }
}

/// Scanning step: passing a non-matching entry raises the rank by one.
proof fn lemma_rank_in_skip_step(entries: Seq<(String, String)>, df: Seq<char>, rd: Seq<char>, i: int)
    requires
        0 <= i < entries.len(),
        !(entries[i].0@ == df && entries[i].1@ == rd),
    ensures
        rank_in(entries.skip(i), df, rd) == 1 + rank_in(entries.skip(i + 1), df, rd),
{
    assert(entries.skip(i).drop_first() =~= entries.skip(i + 1));
    assert(entries.skip(i)[0] == entries[i]);
}

/// The ranked list of (dictionary form, reading) pairs, most frequent
/// first.
pub struct JpFrequencyList {
    pub entries: Vec<(String, String)>,
}

impl JpFrequencyList {
    /// Room for the sentinel rank `len + 1`.
    pub open spec fn wf(self) -> bool {
        self.entries@.len() < usize::MAX
    }

    /// Rank of a pair per the catalog, sentinel `size + 1` if absent.
    pub open spec fn spec_rank(self, df: Seq<char>, rd: Seq<char>) -> int {
        rank_in(self.entries@, df, rd)
    }

    /// Builds the catalog from the already-decoded list of pairs; the
    /// boundary layer decodes the static file and fails startup on a
    /// malformed one.
    pub fn from_pairs(pairs: Vec<(String, String)>) -> (r: JpFrequencyList)
        requires
            pairs@.len() < usize::MAX,
        ensures
            r.wf(),
            r.entries@ == pairs@,
    {
        JpFrequencyList { entries: pairs }
    }

    /// Rank lookup by (dictionary form, reading).
    pub fn get_frequency(&self, word: &str, reading: &str) -> (r: usize)
        requires
            self.wf(),
        ensures
            r == self.spec_rank(word@, reading@),
    {
        let w: String = word.to_owned();
        let rd: String = reading.to_owned();
        let n: usize = self.entries.len();
        let mut i: usize = 0;
        proof {
            assert(self.entries@.skip(0) =~= self.entries@);
        }
        while i < n
            invariant
                0 <= i <= n,
                n == self.entries@.len(),
                n < usize::MAX,
                w@ == word@,
                rd@ == reading@,
                rank_in(self.entries@, word@, reading@) == i + rank_in(
                    self.entries@.skip(i as int),
                    word@,
                    reading@,
                ),
            decreases n - i,
        {
            if self.entries[i].0 == w && self.entries[i].1 == rd {
                proof {
                    assert(self.entries@.skip(i as int)[0] == self.entries@[i as int]);
                }
                return i + 1;
            }
            proof {
                lemma_rank_in_skip_step(self.entries@, word@, reading@, i as int);
            }
            i = i + 1;
        }
        proof {
            assert(self.entries@.skip(n as int).len() == 0);
        }
        n + 1
    }
}

} // verus!
