//! The mining-batch relation: immutable groupings of sentences sealed
//! by a commit; the export unit of the system.

use vstd::prelude::*;
use vstd::pervasive::unreached;
use vstd::seq_lib::*;
use crate::models::sentence::Sentence;
use crate::frequency_list::JpFrequencyList;
use crate::models::user::spec_entry;
use crate::models::user::UserSentenceEntry;
use crate::models::word::Word;
use crate::store::first_where;
use crate::store::lemma_batch_link_preserved;
use crate::store::lemma_filter_take_step;
use crate::store::lemma_first_where_none;
use crate::store::lemma_first_where_skip_end;
use crate::store::lemma_first_where_skip_found;
use crate::store::lemma_first_where_skip_step;
use crate::store::QueryError;
use crate::store::Store;

verus! {

/// An immutable batch of committed sentences. Batch ids are handed out
/// in increasing order, so a larger id means a more recent batch.
#[derive(Clone, Copy, Debug)]
pub struct MiningBatch {
    pub id: i32,
    pub user_id: i32,
}

/// The values from which a fresh batch row is built.
pub struct NewMining {
    pub user_id: i32,
}

/// The listing rows for the given sentences, each joined with its word
/// and rank. The word is the store's row with the sentence's word id.
pub open spec fn entries_for(st: Store, ss: Seq<Sentence>, fl: JpFrequencyList) -> Seq<
    UserSentenceEntry,
> {
    ss.map_values(|s: Sentence| spec_entry(st.spec_word_with_id(s.word_id)->0, s, fl))
}

impl MiningBatch {
    /// Inserts a fresh, initially empty batch row for the user.
    pub fn new(store: &mut Store, user_id: i32) -> (r: MiningBatch)
        requires
            old(store).wf(),
            old(store).next_mining_batch_id < i32::MAX,
        ensures
            final(store).wf(),
            final(store).same_users(*old(store)),
            final(store).same_words(*old(store)),
            final(store).same_sentences(*old(store)),
            final(store).next_mining_batch_id == old(store).next_mining_batch_id + 1,
            final(store).mining_batches@ == old(store).mining_batches@.push(r),
            r.id == old(store).next_mining_batch_id,
            r.user_id == user_id,
    {
        let nm = NewMining { user_id };
        let b = MiningBatch { id: store.next_mining_batch_id, user_id: nm.user_id };
        store.mining_batches.push(b);
        store.next_mining_batch_id = store.next_mining_batch_id + 1;
        proof {
            assert forall|si: int|
                0 <= si < store.sentences@.len() implies crate::store::batch_link_ok(
                store.mining_batches@,
                store.sentences@[si],
            ) by {
                assert(crate::store::batch_link_ok(
                    old(store).mining_batches@,
                    old(store).sentences@[si],
                ));
                lemma_batch_link_preserved(
                    old(store).mining_batches@,
                    store.mining_batches@,
                    store.sentences@[si],
                );
            }
            assert(store.wf());
        }
        b
    }

    /// The user's batch with the given id; a miss and another user's
    /// batch report the same `NotFound`.
    pub fn get_batch(store: &Store, user_id: i32, batch_id: i32) -> (r: Result<
        MiningBatch,
        QueryError,
    >)
        ensures
            r is Ok <==> (store.spec_batch_with_id(batch_id) matches Some(b) && b.user_id
                == user_id),
            r matches Ok(b) ==> store.spec_batch_with_id(batch_id) == Some(b),
            r is Err ==> r == Err::<MiningBatch, QueryError>(QueryError::NotFound),
    {
        let ghost p = |b: MiningBatch| b.id == batch_id;
        let n: usize = store.mining_batches.len();
        let mut i: usize = 0;
        proof {
            assert(store.mining_batches@.skip(0) =~= store.mining_batches@);
        }
        while i < n
            invariant
                0 <= i <= n,
                n == store.mining_batches@.len(),
                p == (|b: MiningBatch| b.id == batch_id),
                first_where(store.mining_batches@, p) == first_where(
                    store.mining_batches@.skip(i as int),
                    p,
                ),
            decreases n - i,
        {
            if store.mining_batches[i].id == batch_id {
                proof {
                    lemma_first_where_skip_found(store.mining_batches@, p, i as int);
                }
                if store.mining_batches[i].user_id == user_id {
                    return Ok(store.mining_batches[i]);
                } else {
                    return Err(QueryError::NotFound);
                }
            }
            proof {
                lemma_first_where_skip_step(store.mining_batches@, p, i as int);
            }
            i = i + 1;
        }
        proof {
            lemma_first_where_skip_end(store.mining_batches@, p);
        }
        Err(QueryError::NotFound)
    }

    /// The batch's member sentences joined with their words and ranks,
    /// in store order.
    pub fn get_sentences(store: &Store, batch: &MiningBatch, frequency_list: &JpFrequencyList) -> (r:
        Vec<UserSentenceEntry>)
        requires
            store.wf(),
            frequency_list.wf(),
        ensures
            r@ == entries_for(
                *store,
                store.sentences@.filter(|s: Sentence| s.mining_batch_id == Some(batch.id)),
                *frequency_list,
            ),
    {
        let ghost p = |s: Sentence| s.mining_batch_id == Some(batch.id);
        let mut out: Vec<UserSentenceEntry> = Vec::new();
        let n: usize = store.sentences.len();
        let mut i: usize = 0;
        proof {
            assert(store.sentences@.take(0) =~= Seq::<Sentence>::empty());
            crate::store::lemma_filter_all_false(Seq::<Sentence>::empty(), p);
            assert(out@ =~= entries_for(*store, store.sentences@.take(0).filter(p), *frequency_list));
        }
        while i < n
            invariant
                0 <= i <= n,
                n == store.sentences@.len(),
                store.wf(),
                frequency_list.wf(),
                p == (|s: Sentence| s.mining_batch_id == Some(batch.id)),
                out@ == entries_for(
                    *store,
                    store.sentences@.take(i as int).filter(p),
                    *frequency_list,
                ),
            decreases n - i,
        {
            proof {
                lemma_filter_take_step(store.sentences@, p, i as int);
            }
            let matches_batch = match store.sentences[i].mining_batch_id {
                Some(b) => b == batch.id,
                None => false,
            };
            if matches_batch {
                let wid: i32 = store.sentences[i].word_id;
                let word = match Word::find_by_id(store, wid) {
                    Some(w) => w,
                    None => {
                        proof {
                            lemma_first_where_none(store.words@, |w: Word| w.id == wid);
                            assert(false);
                        }
                        unreached()
                    },
                };
                let entry = UserSentenceEntry::new(&word, &store.sentences[i], frequency_list);
                out.push(entry);
                proof {
                    let pref = store.sentences@.take(i as int).filter(p);
                    assert(entries_for(
                        *store,
                        pref.push(store.sentences@[i as int]),
                        *frequency_list,
                    ) =~= entries_for(*store, pref, *frequency_list).push(
                        spec_entry(
                            store.spec_word_with_id(store.sentences@[i as int].word_id)->0,
                            store.sentences@[i as int],
                            *frequency_list,
                        ),
                    ));
                }
            }
            i = i + 1;
        }
        proof {
            assert(store.sentences@.take(n as int) =~= store.sentences@);
        }
        out
    }

    /// The user's batches, most recently created first (batch ids are
    /// handed out in increasing order, so descending id order is
    /// descending creation order).
    pub fn list_batches(store: &Store, user_id: i32) -> (r: Vec<MiningBatch>)
        requires
            store.wf(),
        ensures
            r@ == store.mining_batches@.filter(|b: MiningBatch| b.user_id == user_id).reverse(),
            forall|i: int, j: int| 0 <= i < j < r@.len() ==> r@[i].id > r@[j].id,
    {
        let ghost p = |b: MiningBatch| b.user_id == user_id;
        let mut out: Vec<MiningBatch> = Vec::new();
        let n: usize = store.mining_batches.len();
        let mut i: usize = n;
        proof {
            assert(store.mining_batches@.skip(n as int) =~= Seq::<MiningBatch>::empty());
            crate::store::lemma_filter_all_false(Seq::<MiningBatch>::empty(), p);
            assert(out@ =~= store.mining_batches@.skip(n as int).filter(p).reverse());
        }
        while i > 0
            invariant
                0 <= i <= n,
                n == store.mining_batches@.len(),
                store.wf(),
                p == (|b: MiningBatch| b.user_id == user_id),
                out@ == store.mining_batches@.skip(i as int).filter(p).reverse(),
                forall|k: int|
                    0 <= k < out@.len() ==> i == 0 || (#[trigger] out@[k]).id
                        > store.mining_batches@[i as int - 1].id,
                forall|k: int, l: int| 0 <= k < l < out@.len() ==> out@[k].id > out@[l].id,
            decreases i,
        {
            i = i - 1;
            proof {
                assert(store.mining_batches@.skip(i as int) =~= seq![
                    store.mining_batches@[i as int],
                ] + store.mining_batches@.skip(i as int + 1));
                Seq::filter_distributes_over_add(
                    seq![store.mining_batches@[i as int]],
                    store.mining_batches@.skip(i as int + 1),
                    p,
                );
                if p(store.mining_batches@[i as int]) {
                    crate::store::lemma_filter_all_true(
                        seq![store.mining_batches@[i as int]],
                        p,
                    );
                } else {
                    crate::store::lemma_filter_all_false(
                        seq![store.mining_batches@[i as int]],
                        p,
                    );
                }
                assert(store.mining_batches@.skip(i as int).filter(p).reverse() =~= (
                if p(store.mining_batches@[i as int]) {
                    store.mining_batches@.skip(i as int + 1).filter(p).reverse().push(
                        store.mining_batches@[i as int],
                    )
                } else {
                    store.mining_batches@.skip(i as int + 1).filter(p).reverse()
                }));
            }
            if store.mining_batches[i].user_id == user_id {
                out.push(store.mining_batches[i]);
            }
        }
        proof {
            assert(store.mining_batches@.skip(0) =~= store.mining_batches@);
        }
        out
    }
}

} // verus!
