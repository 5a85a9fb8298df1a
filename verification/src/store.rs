//! The abstract transactional store the mining core runs against: the
//! four relations of the data model held in memory, with the integrity
//! invariants every operation preserves.

use vstd::prelude::*;
use vstd::seq_lib::*;
use crate::models::mining_batch::MiningBatch;
use crate::models::sentence::Sentence;
use crate::models::user::User;
use crate::models::word::Word;

verus! {

/// First element of `s` satisfying `p`, scanning from the front.
pub open spec fn first_where<A>(s: Seq<A>, p: spec_fn(A) -> bool) -> Option<A>
    decreases s.len(),
{
    if s.len() == 0 {
        None
    } else if p(s[0]) {
        Some(s[0])
    } else {
        first_where(s.drop_first(), p)
    }
}

/// Scanning step: skipping past a non-matching element does not change
/// the first match.
pub proof fn lemma_first_where_skip_step<A>(s: Seq<A>, p: spec_fn(A) -> bool, i: int)
    requires
        0 <= i < s.len(),
        !p(s[i]),
    ensures
        first_where(s.skip(i), p) == first_where(s.skip(i + 1), p),
{
    assert(s.skip(i).drop_first() =~= s.skip(i + 1));
    assert(s.skip(i)[0] == s[i]);
}

/// A matching element at the scan front is the first match.
pub proof fn lemma_first_where_skip_found<A>(s: Seq<A>, p: spec_fn(A) -> bool, i: int)
    requires
        0 <= i < s.len(),
        p(s[i]),
    ensures
        first_where(s.skip(i), p) == Some(s[i]),
{
    assert(s.skip(i)[0] == s[i]);
}

/// A scan that ran off the end found nothing.
pub proof fn lemma_first_where_skip_end<A>(s: Seq<A>, p: spec_fn(A) -> bool)
    ensures
        first_where(s.skip(s.len() as int), p) == None::<A>,
{
    assert(s.skip(s.len() as int).len() == 0);
}

/// A non-empty scan result is a matching element of the sequence.
pub proof fn lemma_first_where_some<A>(s: Seq<A>, p: spec_fn(A) -> bool)
    requires
        first_where(s, p) is Some,
    ensures
        exists|i: int|
            0 <= i < s.len() && #[trigger] s[i] == first_where(s, p)->0 && p(first_where(s, p)->0),
    decreases s.len(),
{
    if s.len() > 0 {
        if p(s[0]) {
            assert(s[0] == first_where(s, p)->0);
        } else {
            lemma_first_where_some(s.drop_first(), p);
            let i = choose|i: int|
                0 <= i < s.drop_first().len() && #[trigger] s.drop_first()[i] == first_where(
                    s.drop_first(),
                    p,
                )->0 && p(first_where(s.drop_first(), p)->0);
            assert(s[i + 1] == first_where(s, p)->0);
        }
    }
}

/// An empty scan result means no element matches.
pub proof fn lemma_first_where_none<A>(s: Seq<A>, p: spec_fn(A) -> bool)
    requires
        first_where(s, p) is None,
    ensures
        forall|i: int| 0 <= i < s.len() ==> !p(#[trigger] s[i]),
    decreases s.len(),
{
    if s.len() > 0 {
        lemma_first_where_none(s.drop_first(), p);
        assert forall|i: int| 0 <= i < s.len() implies !p(#[trigger] s[i]) by {
            if i > 0 {
                assert(s.drop_first()[i - 1] == s[i]);
            }
        }
    }
}

/// Extending a prefix by one element extends its filtered view by that
/// element exactly when the element matches.
pub proof fn lemma_filter_take_step<A>(s: Seq<A>, p: spec_fn(A) -> bool, i: int)
    requires
        0 <= i < s.len(),
    ensures
        s.take(i + 1).filter(p) == if p(s[i]) {
            s.take(i).filter(p).push(s[i])
        } else {
            s.take(i).filter(p)
        },
{
    reveal(Seq::filter);
    assert(s.take(i + 1).drop_last() =~= s.take(i));
    assert(s.take(i + 1).last() == s[i]);
    if p(s[i]) {
        assert(s.take(i + 1).filter(p) =~= s.take(i).filter(p).push(s[i]));
    } else {
        assert(s.take(i + 1).filter(p) =~= s.take(i).filter(p));
    }
}

/// A filter that keeps every element returns the sequence unchanged.
pub proof fn lemma_filter_all_true<A>(s: Seq<A>, p: spec_fn(A) -> bool)
    requires
        forall|i: int| 0 <= i < s.len() ==> p(#[trigger] s[i]),
    ensures
        s.filter(p) == s,
    decreases s.len(),
{
    reveal(Seq::filter);
    if s.len() > 0 {
        assert(forall|i: int| 0 <= i < s.drop_last().len() ==> p(#[trigger] s.drop_last()[i]));
        lemma_filter_all_true(s.drop_last(), p);
        assert(s.filter(p) =~= s);
    } else {
        assert(s.filter(p) =~= s);
    }
}

/// A filter that keeps no element returns the empty sequence.
pub proof fn lemma_filter_all_false<A>(s: Seq<A>, p: spec_fn(A) -> bool)
    requires
        forall|i: int| 0 <= i < s.len() ==> !p(#[trigger] s[i]),
    ensures
        s.filter(p) == Seq::<A>::empty(),
    decreases s.len(),
{
    reveal(Seq::filter);
    if s.len() > 0 {
        assert(forall|i: int| 0 <= i < s.drop_last().len() ==> !p(#[trigger] s.drop_last()[i]));
        lemma_filter_all_false(s.drop_last(), p);
        assert(s.filter(p) =~= Seq::<A>::empty());
    } else {
        assert(s.filter(p) =~= Seq::<A>::empty());
    }
}

/// Predicates that agree on every element of a sequence filter it to
/// the same subsequence.
pub proof fn lemma_filter_congruence<A>(s: Seq<A>, p: spec_fn(A) -> bool, q: spec_fn(A) -> bool)
    requires
        forall|i: int| 0 <= i < s.len() ==> p(#[trigger] s[i]) == q(s[i]),
    ensures
        s.filter(p) == s.filter(q),
    decreases s.len(),
{
    reveal(Seq::filter);
    if s.len() > 0 {
        assert(forall|i: int|
            0 <= i < s.drop_last().len() ==> p(#[trigger] s.drop_last()[i]) == q(
                s.drop_last()[i],
            ));
        lemma_filter_congruence(s.drop_last(), p, q);
        assert(p(s.last()) == q(s.last()));
    }
}

/// Removing one element leaves membership of every other value
/// unchanged.
pub proof fn lemma_remove_contains_other<A>(s: Seq<A>, idx: int, y: A)
    requires
        0 <= idx < s.len(),
        y != s[idx],
    ensures
        s.remove(idx).contains(y) <==> s.contains(y),
{
    let t = s.remove(idx);
    if s.contains(y) {
        let i = choose|i: int| 0 <= i < s.len() && s[i] == y;
        if i < idx {
            assert(t[i] == y);
        } else {
            assert(t[i - 1] == y);
        }
    }
    if t.contains(y) {
        let i = choose|i: int| 0 <= i < t.len() && t[i] == y;
        if i < idx {
            assert(s[i] == y);
        } else {
            assert(s[i + 1] == y);
        }
    }
}

/// Inserting an element anywhere in a sequence adds it once to the
/// sequence's multiset.
pub proof fn lemma_to_multiset_insert<A>(s: Seq<A>, i: int, e: A)
    requires
        0 <= i <= s.len(),
    ensures
        s.insert(i, e).to_multiset() == s.to_multiset().insert(e),
{
    let t = s.insert(i, e);
    t.to_multiset_ensures();
    s.to_multiset_ensures();
    assert(t[i] == e);
    assert(t.remove(i) =~= s);
    assert(t.remove(i).to_multiset() =~= t.to_multiset().remove(t[i]));
    assert(t.to_multiset().remove(e) == s.to_multiset());
    assert(t.contains(e));
    assert(t.to_multiset().count(e) > 0);
    assert(t.to_multiset() =~= s.to_multiset().insert(e));
}

/// Increment that stops at the type's ceiling instead of wrapping.
pub open spec fn sat_inc_i32(x: i32) -> i32 {
    if x < i32::MAX {
        (x + 1) as i32
    } else {
        x
    }
}

/// Whether the id list holds the given id.
pub fn contains_i32(v: &Vec<i32>, x: i32) -> (r: bool)
    ensures
        r == v@.contains(x),
{
    let n: usize = v.len();
    let mut i: usize = 0;
    while i < n
        invariant
            0 <= i <= n,
            n == v@.len(),
            forall|k: int| 0 <= k < i ==> v@[k] != x,
        decreases n - i,
    {
        if v[i] == x {
            return true;
        }
        i = i + 1;
    }
    false
}

/// Resource-miss outcome of a lookup. A cross-user lookup reports the
/// same miss as a lookup of an id that does not exist, so existence of
/// another user's resources never leaks.
#[derive(Debug)]
pub enum QueryError {
    NotFound,
}

/// A word row with this id, owned by this user, exists.
pub open spec fn word_row_exists(words: Seq<Word>, word_id: i32, user_id: i32) -> bool {
    exists|j: int|
        0 <= j < words.len() && (#[trigger] words[j]).id == word_id && words[j].user_id == user_id
}

/// The sentence links to a word row of the same owner.
pub open spec fn word_link_ok(words: Seq<Word>, s: Sentence) -> bool {
    word_row_exists(words, s.word_id, s.user_id)
}

/// A committed sentence links to a batch row of the same owner.
pub open spec fn batch_link_ok(batches: Seq<MiningBatch>, s: Sentence) -> bool {
    s.mining_batch_id matches Some(b) ==> exists|j: int|
        0 <= j < batches.len() && (#[trigger] batches[j]).id == b && batches[j].user_id
            == s.user_id
}

/// A word link survives any rewrite of the word relation that keeps
/// each row's id and owner in place (updates, and appends at the end).
pub proof fn lemma_word_link_preserved(ws: Seq<Word>, ws2: Seq<Word>, s: Sentence)
    requires
        word_link_ok(ws, s),
        ws2.len() >= ws.len(),
        forall|i: int|
            0 <= i < ws.len() ==> (#[trigger] ws2[i]).id == ws[i].id && ws2[i].user_id
                == ws[i].user_id,
    ensures
        word_link_ok(ws2, s),
{
    let j = choose|j: int|
        0 <= j < ws.len() && (#[trigger] ws[j]).id == s.word_id && ws[j].user_id == s.user_id;
    assert(ws2[j].id == s.word_id);
}

/// A batch link survives any rewrite of the batch relation that keeps
/// each row's id and owner in place (updates, and appends at the end).
pub proof fn lemma_batch_link_preserved(bs: Seq<MiningBatch>, bs2: Seq<MiningBatch>, s: Sentence)
    requires
        batch_link_ok(bs, s),
        bs2.len() >= bs.len(),
        forall|i: int|
            0 <= i < bs.len() ==> (#[trigger] bs2[i]).id == bs[i].id && bs2[i].user_id
                == bs[i].user_id,
    ensures
        batch_link_ok(bs2, s),
{
    if s.mining_batch_id is Some {
        let b = s.mining_batch_id->0;
        let j = choose|j: int|
            0 <= j < bs.len() && (#[trigger] bs[j]).id == b && bs[j].user_id == s.user_id;
        assert(bs2[j].id == b);
    }
}

/// The word row that stands for one (owner, dictionary form, reading)
/// triple.
pub open spec fn word_key_matches(w: Word, user_id: i32, df: Seq<char>, rd: Seq<char>) -> bool {
    w.user_id == user_id && w.dictionary_form@ == df && w.reading@ == rd
}

/// The four relations of the data model plus the fresh-id counters.
/// Rows are kept in id order, oldest first.
pub struct Store {
    pub users: Vec<User>,
    pub words: Vec<Word>,
    pub sentences: Vec<Sentence>,
    pub mining_batches: Vec<MiningBatch>,
    pub next_user_id: i32,
    pub next_word_id: i32,
    pub next_sentence_id: i32,
    pub next_mining_batch_id: i32,
}

impl Store {
    /// User rows: ids positive, below the counter, strictly increasing
    /// in row order; usernames and emails unique; generations start
    /// non-negative.
    pub open spec fn users_ok(self) -> bool {
        &&& forall|i: int|
            0 <= i < self.users@.len() ==> {
                &&& 1 <= (#[trigger] self.users@[i]).id < self.next_user_id
                &&& self.users@[i].token_generation >= 0
            }
        &&& forall|i: int, j: int|
            0 <= i < j < self.users@.len() ==> {
                &&& (#[trigger] self.users@[i]).id < (#[trigger] self.users@[j]).id
                &&& self.users@[i].username@ != self.users@[j].username@
                &&& self.users@[i].email@ != self.users@[j].email@
            }
    }

    /// Word rows: ids positive, below the counter, strictly increasing;
    /// per owner the (dictionary form, reading) pair is unique; both
    /// strings non-empty; the counter starts at 1.
    pub open spec fn words_ok(self) -> bool {
        &&& forall|i: int|
            0 <= i < self.words@.len() ==> {
                &&& 1 <= (#[trigger] self.words@[i]).id < self.next_word_id
                &&& self.words@[i].frequency >= 1
                &&& self.words@[i].dictionary_form@.len() > 0
                &&& self.words@[i].reading@.len() > 0
            }
        &&& forall|i: int, j: int|
            0 <= i < j < self.words@.len() ==> {
                &&& (#[trigger] self.words@[i]).id < (#[trigger] self.words@[j]).id
                &&& !(self.words@[i].user_id == self.words@[j].user_id
                    && self.words@[i].dictionary_form@ == self.words@[j].dictionary_form@
                    && self.words@[i].reading@ == self.words@[j].reading@)
            }
    }

    /// Sentence rows: ids positive, below the counter, strictly
    /// increasing; text non-empty; each row links to a word of the same
    /// owner; a row is pending exactly while it has no batch; a batch
    /// link names an existing batch of the same owner.
    pub open spec fn sentences_ok(self) -> bool {
        &&& forall|i: int|
            0 <= i < self.sentences@.len() ==> {
                &&& 1 <= (#[trigger] self.sentences@[i]).id < self.next_sentence_id
                &&& self.sentences@[i].sentence@.len() > 0
                &&& word_link_ok(self.words@, self.sentences@[i])
                &&& (self.sentences@[i].is_pending <==> self.sentences@[i].mining_batch_id
                    is None)
                &&& batch_link_ok(self.mining_batches@, self.sentences@[i])
            }
        &&& forall|i: int, j: int|
            0 <= i < j < self.sentences@.len() ==> (#[trigger] self.sentences@[i]).id < (
            #[trigger] self.sentences@[j]).id
    }

    /// Batch rows: ids positive, below the counter, strictly increasing
    /// in row order (so row order is creation order).
    pub open spec fn mining_batches_ok(self) -> bool {
        &&& forall|i: int|
            0 <= i < self.mining_batches@.len() ==> 1 <= (#[trigger] self.mining_batches@[i]).id
                < self.next_mining_batch_id
        &&& forall|i: int, j: int|
            0 <= i < j < self.mining_batches@.len() ==> (#[trigger] self.mining_batches@[i]).id < (
            #[trigger] self.mining_batches@[j]).id
    }

    /// The store invariant: every operation requires it and hands it
    /// back.
    pub open spec fn wf(self) -> bool {
        &&& self.next_user_id >= 1
        &&& self.next_word_id >= 1
        &&& self.next_sentence_id >= 1
        &&& self.next_mining_batch_id >= 1
        &&& self.users_ok()
        &&& self.words_ok()
        &&& self.sentences_ok()
        &&& self.mining_batches_ok()
    }

    /// First user row with the given id, if any.
    pub open spec fn spec_user_with_id(self, user_id: i32) -> Option<User> {
        first_where(self.users@, |u: User| u.id == user_id)
    }

    /// First user row with the given email, if any.
    pub open spec fn spec_user_with_email(self, email: Seq<char>) -> Option<User> {
        first_where(self.users@, |u: User| u.email@ == email)
    }

    /// First word row of the user with the given dictionary form and
    /// reading, if any.
    pub open spec fn spec_word_with_key(self, user_id: i32, df: Seq<char>, rd: Seq<char>) -> Option<
        Word,
    > {
        first_where(self.words@, |w: Word| word_key_matches(w, user_id, df, rd))
    }

    /// The user relation and its counter agree between the two stores.
    pub open spec fn same_users(self, other: Store) -> bool {
        self.users@ == other.users@ && self.next_user_id == other.next_user_id
    }

    /// The word relation and its counter agree between the two stores.
    pub open spec fn same_words(self, other: Store) -> bool {
        self.words@ == other.words@ && self.next_word_id == other.next_word_id
    }

    /// The sentence relation and its counter agree between the two
    /// stores.
    pub open spec fn same_sentences(self, other: Store) -> bool {
        self.sentences@ == other.sentences@ && self.next_sentence_id == other.next_sentence_id
    }

    /// The batch relation and its counter agree between the two stores.
    pub open spec fn same_mining_batches(self, other: Store) -> bool {
        self.mining_batches@ == other.mining_batches@ && self.next_mining_batch_id
            == other.next_mining_batch_id
    }

    /// Number of pending sentences of the given user.
    pub open spec fn spec_pending_count(self, user_id: i32) -> nat {
        self.sentences@.filter(|s: Sentence| s.user_id == user_id && s.is_pending).len()
    }

    /// First sentence row with the given id, if any.
    pub open spec fn spec_sentence_with_id(self, sentence_id: i32) -> Option<Sentence> {
        first_where(self.sentences@, |s: Sentence| s.id == sentence_id)
    }

    /// First word row with the given id, if any.
    pub open spec fn spec_word_with_id(self, word_id: i32) -> Option<Word> {
        first_where(self.words@, |w: Word| w.id == word_id)
    }

    /// First batch row with the given id, if any.
    pub open spec fn spec_batch_with_id(self, batch_id: i32) -> Option<MiningBatch> {
        first_where(self.mining_batches@, |b: MiningBatch| b.id == batch_id)
    }

    /// Counts the user's pending sentences.
    pub fn count_pending(&self, user_id: i32) -> (r: usize)
        ensures
            r == self.spec_pending_count(user_id),
    {
        let ghost p = |s: Sentence| s.user_id == user_id && s.is_pending;
        let n: usize = self.sentences.len();
        let mut count: usize = 0;
        let mut i: usize = 0;
        proof {
            assert(self.sentences@.take(0) =~= Seq::<Sentence>::empty());
            lemma_filter_all_false(Seq::<Sentence>::empty(), p);
        }
        while i < n
            invariant
                0 <= i <= n,
                n == self.sentences@.len(),
                count <= i,
                p == (|s: Sentence| s.user_id == user_id && s.is_pending),
                count == self.sentences@.take(i as int).filter(p).len(),
            decreases n - i,
        {
            proof {
                lemma_filter_take_step(self.sentences@, p, i as int);
            }
            if self.sentences[i].user_id == user_id && self.sentences[i].is_pending {
                count = count + 1;
            }
            i = i + 1;
        }
        proof {
            assert(self.sentences@.take(n as int) =~= self.sentences@);
        }
        count
    }

    /// An empty store.
    pub fn new() -> (r: Store)
        ensures
            r.wf(),
            r.users@ == Seq::<User>::empty(),
            r.words@ == Seq::<Word>::empty(),
            r.sentences@ == Seq::<Sentence>::empty(),
            r.mining_batches@ == Seq::<MiningBatch>::empty(),
            r.next_user_id == 1,
            r.next_word_id == 1,
            r.next_sentence_id == 1,
            r.next_mining_batch_id == 1,
    {
        Store {
            users: Vec::new(),
            words: Vec::new(),
            sentences: Vec::new(),
            mining_batches: Vec::new(),
            next_user_id: 1,
            next_word_id: 1,
            next_sentence_id: 1,
            next_mining_batch_id: 1,
        }
    }
}

} // verus!
