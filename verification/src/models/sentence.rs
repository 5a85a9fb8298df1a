//! The sentence relation: example sentences attached to a word, either
//! pending (not yet exported) or sealed into a mining batch.

use vstd::prelude::*;
use vstd::seq_lib::*;
use crate::frequency_list::JpFrequencyList;
use crate::models::user::spec_entry;
use crate::models::user::UserSentenceEntry;
use crate::models::word::Word;
use crate::store::first_where;
use crate::store::lemma_filter_all_false;
use crate::store::lemma_filter_all_true;
use crate::store::lemma_first_where_some;
use crate::store::lemma_first_where_skip_end;
use crate::store::lemma_first_where_skip_found;
use crate::store::lemma_first_where_skip_step;
use crate::store::sat_inc_i32;
use crate::store::word_link_ok;
use crate::store::word_row_exists;
use crate::store::QueryError;
use crate::store::Store;

verus! {

/// An example sentence of one user. While pending, `mining_batch_id`
/// is absent; committing seals it into a batch, exactly once.
#[derive(Debug)]
pub struct Sentence {
    pub id: i32,
    pub user_id: i32,
    pub word_id: i32,
    pub sentence: String,
    pub is_pending: bool,
    pub mining_batch_id: Option<i32>,
}

impl Clone for Sentence {
    fn clone(&self) -> (r: Self)
        ensures
            r == *self,
    {
        Sentence {
            id: self.id,
            user_id: self.user_id,
            word_id: self.word_id,
            sentence: self.sentence.clone(),
            is_pending: self.is_pending,
            mining_batch_id: self.mining_batch_id,
        }
    }
}

/// The values from which a fresh sentence row is built.
pub struct NewSentence {
    pub user_id: i32,
    pub word_id: i32,
    pub sentence: String,
}

/// Why an admission was refused.
#[derive(Debug)]
pub enum AdmitSentenceError {
    PendingLimitReached,
}

impl Sentence {
    /// Inserts a fresh pending sentence row for an existing word of
    /// the same owner.
    pub fn new(store: &mut Store, user_id: i32, word_id: i32, sentence: &str) -> (r: Sentence)
        requires
            old(store).wf(),
            sentence@.len() > 0,
            old(store).next_sentence_id < i32::MAX,
            word_row_exists(old(store).words@, word_id, user_id),
        ensures
            final(store).wf(),
            final(store).same_users(*old(store)),
            final(store).same_words(*old(store)),
            final(store).same_mining_batches(*old(store)),
            final(store).next_sentence_id == old(store).next_sentence_id + 1,
            final(store).sentences@ == old(store).sentences@.push(r),
            r.id == old(store).next_sentence_id,
            r.user_id == user_id,
            r.word_id == word_id,
            r.sentence@ == sentence@,
            r.is_pending,
            r.mining_batch_id is None,
            final(store).spec_pending_count(user_id) == old(store).spec_pending_count(user_id)
                + 1,
    {
        let ns = NewSentence { user_id, word_id, sentence: sentence.to_owned() };
        let s = Sentence {
            id: store.next_sentence_id,
            user_id: ns.user_id,
            word_id: ns.word_id,
            sentence: ns.sentence,
            is_pending: true,
            mining_batch_id: None,
        };
        let r = s.clone();
        store.sentences.push(s);
        store.next_sentence_id = store.next_sentence_id + 1;
        proof {
            let ghost p = |s: Sentence| s.user_id == user_id && s.is_pending;
            assert(store.sentences@ =~= old(store).sentences@ + seq![r]);
            Seq::filter_distributes_over_add(old(store).sentences@, seq![r], p);
            assert(seq![r].filter(p) =~= seq![r]) by {
                reveal(Seq::filter);
                assert(seq![r].drop_last() =~= Seq::<Sentence>::empty());
            }
            assert forall|si: int|
                0 <= si < store.sentences@.len() implies word_link_ok(
                store.words@,
                store.sentences@[si],
            ) by {
                if si < old(store).sentences@.len() {
                    assert(word_link_ok(old(store).words@, old(store).sentences@[si]));
                } else {
                    assert(store.sentences@[si] == r);
                }
            }
            assert(store.wf());
        }
        r
    }

    /// Deletes one of the user's pending sentences; a miss, a row of
    /// another user, and an already-committed row all report the same
    /// `NotFound`. The word and its counter stay untouched.
    pub fn delete(store: &mut Store, user_id: i32, sentence_id: i32) -> (r: Result<
        (),
        QueryError,
    >)
        requires
            old(store).wf(),
        ensures
            final(store).wf(),
            final(store).same_users(*old(store)),
            final(store).same_words(*old(store)),
            final(store).same_mining_batches(*old(store)),
            final(store).next_sentence_id == old(store).next_sentence_id,
            r is Ok <==> (old(store).spec_sentence_with_id(sentence_id) matches Some(s)
                && s.user_id == user_id && s.is_pending),
            r is Ok ==> final(store).sentences@ == old(store).sentences@.filter(
                |s: Sentence| s.id != sentence_id,
            ),
            r is Err ==> *final(store) == *old(store) && r == Err::<(), QueryError>(
                QueryError::NotFound,
            ),
    {
        let ghost p = |s: Sentence| s.id == sentence_id;
        let n: usize = store.sentences.len();
        let mut i: usize = 0;
        proof {
            assert(store.sentences@.skip(0) =~= store.sentences@);
        }
        while i < n
            invariant
                0 <= i <= n,
                n == store.sentences@.len(),
                old(store).wf(),
                *store == *old(store),
                p == (|s: Sentence| s.id == sentence_id),
                first_where(store.sentences@, p) == first_where(
                    store.sentences@.skip(i as int),
                    p,
                ),
            decreases n - i,
        {
            if store.sentences[i].id == sentence_id {
                proof {
                    lemma_first_where_skip_found(store.sentences@, p, i as int);
                }
                if store.sentences[i].user_id == user_id && store.sentences[i].is_pending {
                    store.sentences.remove(i);
                    proof {
                        let q = |s: Sentence| s.id != sentence_id;
                        let pre = old(store).sentences@.take(i as int);
                        let mid = seq![old(store).sentences@[i as int]];
                        let post = old(store).sentences@.skip(i as int + 1);
                        assert(old(store).sentences@ =~= pre + mid + post);
                        Seq::filter_distributes_over_add(pre + mid, post, q);
                        Seq::filter_distributes_over_add(pre, mid, q);
                        assert forall|k: int| 0 <= k < pre.len() implies q(#[trigger] pre[k]) by {
                            assert(old(store).sentences@[k].id < old(
                                store,
                            ).sentences@[i as int].id);
                        }
                        assert forall|k: int| 0 <= k < post.len() implies q(#[trigger] post[k]) by {
                            assert(old(store).sentences@[i as int].id < old(
                                store,
                            ).sentences@[i as int + 1 + k].id);
                        }
                        lemma_filter_all_true(pre, q);
                        lemma_filter_all_true(post, q);
                        assert forall|si: int|
                            0 <= si < store.sentences@.len() implies store.sentences@[si] == (
                        if si < i as int {
                            old(store).sentences@[si]
                        } else {
                            old(store).sentences@[si + 1]
                        }) by {
                            assert(store.sentences@ == old(store).sentences@.remove(i as int));
                        }
                        lemma_filter_all_false(mid, q);
                        assert(old(store).sentences@.filter(q) =~= pre + post);
                        assert(store.sentences@ =~= pre + post);
                        assert forall|si: int|
                            0 <= si < store.sentences@.len() implies word_link_ok(
                            store.words@,
                            store.sentences@[si],
                        ) && crate::store::batch_link_ok(
                            store.mining_batches@,
                            store.sentences@[si],
                        ) by {
                            if si < i as int {
                                assert(store.sentences@[si] == old(store).sentences@[si]);
                            } else {
                                assert(store.sentences@[si] == old(store).sentences@[si + 1]);
                            }
                        }
                        assert(store.wf());
                    }
                    return Ok(());
                } else {
                    return Err(QueryError::NotFound);
                }
            }
            proof {
                lemma_first_where_skip_step(store.sentences@, p, i as int);
            }
            i = i + 1;
        }
        proof {
            lemma_first_where_skip_end(store.sentences@, p);
        }
        Err(QueryError::NotFound)
    }
}

/// Admits a sentence to the user's pending queue: checks the capacity
/// cap, runs the word ledger's find-or-insert step, inserts the
/// pending sentence row, and answers the composite listing row.
pub fn admit_sentence(
    store: &mut Store,
    user_id: i32,
    dictionary_form: &str,
    reading: &str,
    sentence_text: &str,
    max_pending: u64,
    frequency_list: &JpFrequencyList,
) -> (r: Result<UserSentenceEntry, AdmitSentenceError>)
    requires
        old(store).wf(),
        frequency_list.wf(),
        dictionary_form@.len() > 0,
        reading@.len() > 0,
        sentence_text@.len() > 0,
        old(store).next_word_id < i32::MAX,
        old(store).next_sentence_id < i32::MAX,
    ensures
        final(store).wf(),
        final(store).same_users(*old(store)),
        final(store).same_mining_batches(*old(store)),
        r is Err <==> old(store).spec_pending_count(user_id) >= max_pending,
        r is Err ==> *final(store) == *old(store) && r == Err::<
            UserSentenceEntry,
            AdmitSentenceError,
        >(AdmitSentenceError::PendingLimitReached),
        r matches Ok(e) ==> {
            &&& final(store).next_sentence_id == old(store).next_sentence_id + 1
            &&& final(store).sentences@.len() == old(store).sentences@.len() + 1
            &&& forall|i: int|
                0 <= i < old(store).sentences@.len() ==> final(store).sentences@[i] == old(
                    store,
                ).sentences@[i]
            &&& ({
                let s = final(store).sentences@.last();
                &&& s.id == old(store).next_sentence_id
                &&& s.user_id == user_id
                &&& s.sentence@ == sentence_text@
                &&& s.is_pending
                &&& s.mining_batch_id is None
            })
            &&& final(store).spec_pending_count(user_id) == old(store).spec_pending_count(
                user_id,
            ) + 1
            &&& (old(store).spec_word_with_key(user_id, dictionary_form@, reading@) matches Some(
                w0,
            ) ==> {
                &&& final(store).next_word_id == old(store).next_word_id
                &&& final(store).words@.len() == old(store).words@.len()
                &&& forall|i: int|
                    0 <= i < old(store).words@.len() ==> final(store).words@[i] == (
                    if crate::store::word_key_matches(
                        old(store).words@[i],
                        user_id,
                        dictionary_form@,
                        reading@,
                    ) {
                        Word {
                            frequency: sat_inc_i32(old(store).words@[i].frequency),
                            is_mined: false,
                            ..old(store).words@[i]
                        }
                    } else {
                        old(store).words@[i]
                    })
                &&& final(store).sentences@.last().word_id == w0.id
                &&& e == spec_entry(
                    Word { frequency: sat_inc_i32(w0.frequency), is_mined: false, ..w0 },
                    final(store).sentences@.last(),
                    *frequency_list,
                )
            })
            &&& (old(store).spec_word_with_key(user_id, dictionary_form@, reading@) is None
                ==> {
                &&& final(store).next_word_id == old(store).next_word_id + 1
                &&& final(store).words@.len() == old(store).words@.len() + 1
                &&& forall|i: int|
                    0 <= i < old(store).words@.len() ==> final(store).words@[i] == old(
                        store,
                    ).words@[i]
                &&& ({
                    let w = final(store).words@.last();
                    &&& w.id == old(store).next_word_id
                    &&& w.user_id == user_id
                    &&& w.dictionary_form@ == dictionary_form@
                    &&& w.reading@ == reading@
                    &&& w.frequency == 1
                    &&& !w.is_mined
                })
                &&& final(store).sentences@.last().word_id == old(store).next_word_id
                &&& e == spec_entry(
                    final(store).words@.last(),
                    final(store).sentences@.last(),
                    *frequency_list,
                )
            })
        },
{
    let count: usize = store.count_pending(user_id);
    if count as u64 >= max_pending {
        return Err(AdmitSentenceError::PendingLimitReached);
    }
    let word = Word::add_or_increase_frequency(store, user_id, dictionary_form, reading);
    proof {
        let kp = |w: Word| crate::store::word_key_matches(w, user_id, dictionary_form@, reading@);
        if old(store).spec_word_with_key(user_id, dictionary_form@, reading@) is Some {
            lemma_first_where_some(old(store).words@, kp);
            let w0 = first_where(old(store).words@, kp)->0;
            let j = choose|j: int|
                0 <= j < old(store).words@.len() && #[trigger] old(store).words@[j] == w0 && kp(w0);
            assert(store.words@[j].id == word.id && store.words@[j].user_id == user_id);
        } else {
            assert(store.words@.last().id == word.id && store.words@.last().user_id == user_id);
        }
    }
    let sentence_row = Sentence::new(store, user_id, word.id, sentence_text);
    let entry = UserSentenceEntry::new(&word, &sentence_row, frequency_list);
    Ok(entry)
}

} // verus!
