//! The word relation: one row per (owner, dictionary form, reading)
//! triple, carrying the running mining-frequency counter and the
//! already-mined flag.

use vstd::prelude::*;
use crate::store::first_where;
use crate::store::lemma_first_where_none;
use crate::store::lemma_first_where_skip_end;
use crate::store::lemma_first_where_skip_found;
use crate::store::lemma_first_where_skip_step;
use crate::store::lemma_word_link_preserved;
use crate::store::sat_inc_i32;
use crate::store::word_key_matches;
use crate::store::Store;

verus! {

/// A vocabulary item of one user. `frequency` counts how many times
/// the user has mined the word (a running total, never decremented);
/// `is_mined` records whether the word is part of a committed batch
/// and is cleared again whenever the word is re-encountered.
#[derive(Debug)]
pub struct Word {
    pub id: i32,
    pub user_id: i32,
    pub dictionary_form: String,
    pub reading: String,
    pub frequency: i32,
    pub is_mined: bool,
}

impl Clone for Word {
    fn clone(&self) -> (r: Self)
        ensures
            r == *self,
    {
        Word {
            id: self.id,
            user_id: self.user_id,
            dictionary_form: self.dictionary_form.clone(),
            reading: self.reading.clone(),
            frequency: self.frequency,
            is_mined: self.is_mined,
        }
    }
}

/// Law (counter monotonicity): in the found case of the word
/// ledger's find-or-insert step, below the counter ceiling, the row
/// handed back counts exactly one more mining than the row it
/// replaces, and is no longer mined.
pub proof fn lemma_counter_monotonicity(w0: Word, r: Word)
    requires
        w0.frequency < i32::MAX,
        r == (Word { frequency: sat_inc_i32(w0.frequency), is_mined: false, ..w0 }),
    ensures
        r.frequency == w0.frequency + 1,
        !r.is_mined,
{
}

/// The values from which a fresh word row is built.
pub struct NewWord {
    pub user_id: i32,
    pub dictionary_form: String,
    pub reading: String,
}

impl Word {
    /// Looks a word up by id.
    pub fn find_by_id(store: &Store, word_id: i32) -> (r: Option<Word>)
        ensures
            r == store.spec_word_with_id(word_id),
    {
        let ghost p = |w: Word| w.id == word_id;
        let n: usize = store.words.len();
        let mut i: usize = 0;
        proof {
            assert(store.words@.skip(0) =~= store.words@);
        }
        while i < n
            invariant
                0 <= i <= n,
                n == store.words@.len(),
                p == (|w: Word| w.id == word_id),
                first_where(store.words@, p) == first_where(store.words@.skip(i as int), p),
            decreases n - i,
        {
            if store.words[i].id == word_id {
                proof {
                    lemma_first_where_skip_found(store.words@, p, i as int);
                }
                return Some(store.words[i].clone());
            }
            proof {
                lemma_first_where_skip_step(store.words@, p, i as int);
            }
            i = i + 1;
        }
        proof {
            lemma_first_where_skip_end(store.words@, p);
        }
        None
    }

    /// The find-or-insert step of the word ledger: an existing row for
    /// the triple gets its counter raised by one and its mined flag
    /// cleared; otherwise a fresh row starts at counter 1, not mined.
    /// Either way the row the triple now stands on is returned.
    pub fn add_or_increase_frequency(
        store: &mut Store,
        user_id: i32,
        dictionary_form: &str,
        reading: &str,
    ) -> (r: Word)
        requires
            old(store).wf(),
            dictionary_form@.len() > 0,
            reading@.len() > 0,
            old(store).next_word_id < i32::MAX,
        ensures
            final(store).wf(),
            final(store).same_users(*old(store)),
            final(store).same_sentences(*old(store)),
            final(store).same_mining_batches(*old(store)),
            old(store).spec_word_with_key(user_id, dictionary_form@, reading@) matches Some(w0)
                ==> {
                &&& r == (Word {
                    frequency: sat_inc_i32(w0.frequency),
                    is_mined: false,
                    ..w0
                })
                &&& final(store).next_word_id == old(store).next_word_id
                &&& final(store).words@.len() == old(store).words@.len()
                &&& forall|i: int|
                    0 <= i < old(store).words@.len() ==> final(store).words@[i] == (
                    if word_key_matches(old(store).words@[i], user_id, dictionary_form@, reading@) {
                        Word {
                            frequency: sat_inc_i32(old(store).words@[i].frequency),
                            is_mined: false,
                            ..old(store).words@[i]
                        }
                    } else {
                        old(store).words@[i]
                    })
            },
            old(store).spec_word_with_key(user_id, dictionary_form@, reading@) is None ==> {
                &&& r.id == old(store).next_word_id
                &&& r.user_id == user_id
                &&& r.dictionary_form@ == dictionary_form@
                &&& r.reading@ == reading@
                &&& r.frequency == 1
                &&& r.is_mined == false
                &&& final(store).words@ == old(store).words@.push(r)
                &&& final(store).next_word_id == old(store).next_word_id + 1
            },
    {
        let ghost p = |w: Word| word_key_matches(w, user_id, dictionary_form@, reading@);
        let df: String = dictionary_form.to_owned();
        let rd: String = reading.to_owned();
        let n: usize = store.words.len();
        let mut i: usize = 0;
        proof {
            assert(store.words@.skip(0) =~= store.words@);
        }
        while i < n
            invariant
                0 <= i <= n,
                n == store.words@.len(),
                old(store).wf(),
                *store == *old(store),
                df@ == dictionary_form@,
                rd@ == reading@,
                p == (|w: Word| word_key_matches(w, user_id, dictionary_form@, reading@)),
                first_where(store.words@, p) == first_where(store.words@.skip(i as int), p),
            decreases n - i,
        {
            if store.words[i].user_id == user_id && store.words[i].dictionary_form == df
                && store.words[i].reading == rd {
                proof {
                    lemma_first_where_skip_found(store.words@, p, i as int);
                }
                let f: i32 = store.words[i].frequency;
                let nf: i32 = if f < i32::MAX {
                    f + 1
                } else {
                    f
                };
                store.words[i].frequency = nf;
                store.words[i].is_mined = false;
                let r = store.words[i].clone();
                proof {
                    assert forall|k: int|
                        0 <= k < store.words@.len() && k != i implies !word_key_matches(
                        store.words@[k],
                        user_id,
                        dictionary_form@,
                        reading@,
                    ) by {
                        if k < i as int {
                            assert(!(old(store).words@[k].user_id == old(store).words@[i as int].user_id
                                && old(store).words@[k].dictionary_form@ == old(
                                store,
                            ).words@[i as int].dictionary_form@ && old(store).words@[k].reading@
                                == old(store).words@[i as int].reading@));
                        } else {
                            assert(!(old(store).words@[i as int].user_id == old(store).words@[k].user_id
                                && old(store).words@[i as int].dictionary_form@ == old(
                                store,
                            ).words@[k].dictionary_form@ && old(store).words@[i as int].reading@
                                == old(store).words@[k].reading@));
                        }
                    }
                    assert forall|si: int|
                        0 <= si < store.sentences@.len() implies crate::store::word_link_ok(
                        store.words@,
                        store.sentences@[si],
                    ) by {
                        assert(crate::store::word_link_ok(
                            old(store).words@,
                            old(store).sentences@[si],
                        ));
                        lemma_word_link_preserved(
                            old(store).words@,
                            store.words@,
                            store.sentences@[si],
                        );
                    }
                    assert(store.wf());
                }
                return r;
            }
            proof {
                lemma_first_where_skip_step(store.words@, p, i as int);
            }
            i = i + 1;
        }
        proof {
            lemma_first_where_skip_end(store.words@, p);
            lemma_first_where_none(store.words@, p);
        }
        let nw = NewWord { user_id, dictionary_form: df, reading: rd };
        let w = Word {
            id: store.next_word_id,
            user_id: nw.user_id,
            dictionary_form: nw.dictionary_form,
            reading: nw.reading,
            frequency: 1,
            is_mined: false,
        };
        let r = w.clone();
        store.words.push(w);
        store.next_word_id = store.next_word_id + 1;
        proof {
            assert forall|si: int|
                0 <= si < store.sentences@.len() implies crate::store::word_link_ok(
                store.words@,
                store.sentences@[si],
            ) by {
                assert(crate::store::word_link_ok(old(store).words@, old(store).sentences@[si]));
                lemma_word_link_preserved(old(store).words@, store.words@, store.sentences@[si]);
            }
            assert(store.wf());
        }
        r
    }
}

} // verus!
