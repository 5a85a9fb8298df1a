//! The user relation: identity rows with a per-user token generation
//! counter, plus the mining operations that act on a user's words,
//! sentences and batches.

use vstd::prelude::*;
use vstd::pervasive::unreached;
use vstd::seq_lib::*;
use crate::frequency_list::JpFrequencyList;
use crate::models::mining_batch::entries_for;
use crate::models::mining_batch::MiningBatch;
use crate::models::sentence::Sentence;
use crate::models::word::Word;
use crate::store::lemma_filter_all_false;
use crate::store::lemma_filter_take_step;
use crate::store::lemma_filter_congruence;
use crate::store::lemma_remove_contains_other;
use crate::store::lemma_to_multiset_insert;
use crate::store::lemma_word_link_preserved;
use crate::store::lemma_batch_link_preserved;
use crate::store::word_link_ok;
use crate::store::contains_i32;
use crate::store::first_where;
use crate::store::lemma_first_where_none;
use crate::store::lemma_first_where_skip_end;
use crate::store::lemma_first_where_skip_found;
use crate::store::lemma_first_where_skip_step;
use crate::store::sat_inc_i32;
use crate::store::Store;

verus! {

/// A registered user. `token_generation` starts at 0 and only grows;
/// every issued token embeds the generation current at issue time, so
/// bumping it revokes all outstanding tokens at once.
#[derive(Debug)]
pub struct User {
    pub id: i32,
    pub username: String,
    pub email: String,
    pub hash: String,
    pub token_generation: i32,
}

impl Clone for User {
    fn clone(&self) -> (r: Self)
        ensures
            r == *self,
    {
        User {
            id: self.id,
            username: self.username.clone(),
            email: self.email.clone(),
            hash: self.hash.clone(),
            token_generation: self.token_generation,
        }
    }
}

/// One row of a sentence listing: the sentence joined with its word
/// and the word's corpus rank.
#[derive(Debug)]
pub struct UserSentenceEntry {
    pub sentence_id: i32,
    pub sentence: String,
    pub dictionary_form: String,
    pub reading: String,
    pub mining_frequency: i32,
    pub dictionary_frequency: usize,
}

impl Clone for UserSentenceEntry {
    fn clone(&self) -> (r: Self)
        ensures
            r == *self,
    {
        UserSentenceEntry {
            sentence_id: self.sentence_id,
            sentence: self.sentence.clone(),
            dictionary_form: self.dictionary_form.clone(),
            reading: self.reading.clone(),
            mining_frequency: self.mining_frequency,
            dictionary_frequency: self.dictionary_frequency,
        }
    }
}

/// The listing row determined by a (word, sentence) pair and the
/// catalog.
pub open spec fn spec_entry(word: Word, sentence: Sentence, fl: JpFrequencyList) -> UserSentenceEntry {
    UserSentenceEntry {
        sentence_id: sentence.id,
        sentence: sentence.sentence,
        dictionary_form: word.dictionary_form,
        reading: word.reading,
        mining_frequency: word.frequency,
        dictionary_frequency: fl.spec_rank(word.dictionary_form@, word.reading@) as usize,
    }
}

impl UserSentenceEntry {
    pub fn new(word: &Word, sentence: &Sentence, frequency_list: &JpFrequencyList) -> (r: Self)
        requires
            frequency_list.wf(),
        ensures
            r == spec_entry(*word, *sentence, *frequency_list),
    {
        UserSentenceEntry {
            sentence_id: sentence.id,
            sentence: sentence.sentence.clone(),
            dictionary_form: word.dictionary_form.clone(),
            reading: word.reading.clone(),
            mining_frequency: word.frequency,
            dictionary_frequency: frequency_list.get_frequency(
                word.dictionary_form.as_str(),
                word.reading.as_str(),
            ),
        }
    }
}

/// Why a registration was refused.
#[derive(Debug)]
pub enum UserRegistrationError {
    DuplicateEmail,
    DuplicateUsername,
    FailedToHash,
}

/// Why a batch commit was refused.
#[derive(Debug)]
pub enum CommitSentencesError {
    InvalidSentencesProvided,
}

/// What bcrypt's check answers for a password against a stored hash;
/// the answer is a function of the two strings alone. `None` stands
/// for a stored hash so malformed that bcrypt refuses to check it.
pub uninterp spec fn bcrypt_verify_result(password: Seq<char>, hash: Seq<char>) -> Option<bool>;

/// Relies on bcrypt::verify: whether the password matches the stored
/// salted digest; deterministic in its two arguments.
#[verifier::external_body]
fn bcrypt_verify(password: &str, hash: &str) -> (r: Option<bool>)
    ensures
        r == bcrypt_verify_result(password@, hash@),
{
    bcrypt::verify(password, hash).ok()
}

/// Relies on bcrypt::hash: a freshly salted digest that bcrypt's own
/// check accepts for the hashed password. The salt is drawn anew on
/// every call, so nothing more is promised of the digest string.
#[verifier::external_body]
fn bcrypt_hash(password: &str, cost: u32) -> (r: Option<String>)
    ensures
        r matches Some(h) ==> bcrypt_verify_result(password@, h@) == Some(true),
{
    bcrypt::hash(password, cost).ok()
}

/// The display order of the pending queue: strictly higher mining
/// frequency first; within equal mining frequency, lower (more
/// frequent) corpus rank first.
pub open spec fn priority_le(a: UserSentenceEntry, b: UserSentenceEntry) -> bool {
    a.mining_frequency > b.mining_frequency || (a.mining_frequency == b.mining_frequency
        && a.dictionary_frequency <= b.dictionary_frequency)
}

/// Every pair of listing rows stands in the display order.
pub open spec fn entries_ordered(s: Seq<UserSentenceEntry>) -> bool {
    forall|i: int, j: int| 0 <= i < j < s.len() ==> priority_le(s[i], s[j])
}

/// The display order can always order two rows one way or the other.
pub proof fn lemma_priority_le_total(a: UserSentenceEntry, b: UserSentenceEntry)
    ensures
        priority_le(a, b) || priority_le(b, a),
{
}

/// The display order is transitive.
pub proof fn lemma_priority_le_trans(a: UserSentenceEntry, b: UserSentenceEntry, c: UserSentenceEntry)
    ensures
        priority_le(a, b) && priority_le(b, c) ==> priority_le(a, c),
{
}

/// The listing rows of the user's pending sentences, in store order.
pub open spec fn spec_pending_entries(st: Store, user_id: i32, fl: JpFrequencyList) -> Seq<
    UserSentenceEntry,
> {
    entries_for(st, st.sentences@.filter(|s: Sentence| s.user_id == user_id && s.is_pending), fl)
}

/// Whether `a` comes no later than `b` in the display order.
fn priority_le_exec(a: &UserSentenceEntry, b: &UserSentenceEntry) -> (r: bool)
    ensures
        r == priority_le(*a, *b),
{
    a.mining_frequency > b.mining_frequency || (a.mining_frequency == b.mining_frequency
        && a.dictionary_frequency <= b.dictionary_frequency)
}

/// Insertion sort by the display order; keeps exactly the given rows.
fn sort_entries(input: Vec<UserSentenceEntry>) -> (r: Vec<UserSentenceEntry>)
    ensures
        r@.to_multiset() == input@.to_multiset(),
        entries_ordered(r@),
{
    broadcast use vstd::seq::Seq::to_multiset_ensures;

    let mut out: Vec<UserSentenceEntry> = Vec::new();
    let n: usize = input.len();
    let mut i: usize = 0;
    proof {
        assert(input@.take(0) =~= Seq::<UserSentenceEntry>::empty());
        assert(out@.to_multiset() =~= input@.take(0).to_multiset());
    }
    while i < n
        invariant
            0 <= i <= n,
            n == input@.len(),
            entries_ordered(out@),
            out@.to_multiset() == input@.take(i as int).to_multiset(),
        decreases n - i,
    {
        broadcast use vstd::seq::Seq::to_multiset_ensures;

        let e = input[i].clone();
        let m: usize = out.len();
        let mut j: usize = 0;
        while j < m && priority_le_exec(&out[j], &e)
            invariant
                0 <= j <= m,
                m == out@.len(),
                forall|k: int| 0 <= k < j ==> priority_le(#[trigger] out@[k], e),
            decreases m - j,
        {
            j = j + 1;
        }
        let ghost prev = out@;
        let ghost cur = input@[i as int];
        out.insert(j, e);
        proof {
            lemma_to_multiset_insert(prev, j as int, e);
            assert(input@.take(i as int + 1) =~= input@.take(i as int).push(cur));
            assert(e == cur);
            input@.take(i as int).to_multiset_ensures();
            assert(input@.take(i as int).push(cur).to_multiset() == input@.take(
                i as int,
            ).to_multiset().insert(cur));
            assert(out@.to_multiset() == input@.take(i as int + 1).to_multiset());
            assert forall|k: int, l: int|
                0 <= k < l < out@.len() implies priority_le(out@[k], out@[l]) by {
                let jj = j as int;
                if l < jj {
                    assert(out@[k] == prev[k] && out@[l] == prev[l]);
                } else if k < jj && l == jj {
                    assert(out@[k] == prev[k] && out@[l] == e);
                } else if k < jj && l > jj {
                    assert(out@[k] == prev[k] && out@[l] == prev[l - 1]);
                } else if k == jj {
                    assert(out@[l] == prev[l - 1]);
                    if jj < m as int {
                        lemma_priority_le_total(prev[jj], e);
                        lemma_priority_le_trans(e, prev[jj], prev[l - 1]);
                    }
                } else {
                    assert(out@[k] == prev[k - 1] && out@[l] == prev[l - 1]);
                }
            }
        }
        i = i + 1;
    }
    proof {
        assert(input@.take(n as int) =~= input@);
    }
    out
}

/// Law (word uniqueness): in a well-formed store, at most one word row
/// stands for each (owner, dictionary form, reading) triple.
pub proof fn lemma_word_uniqueness(st: Store)
    requires
        st.wf(),
    ensures
        forall|i: int, j: int|
            0 <= i < j < st.words@.len() ==> !((#[trigger] st.words@[i]).user_id == (
            #[trigger] st.words@[j]).user_id && st.words@[i].dictionary_form@
                == st.words@[j].dictionary_form@ && st.words@[i].reading@
                == st.words@[j].reading@),
{
}

/// The sentence belongs to the commit selection: owned by the user,
/// still pending, and named by the submitted id set.
pub open spec fn commit_matches(s: Sentence, user_id: i32, ids: Seq<i32>) -> bool {
    s.user_id == user_id && s.is_pending && ids.contains(s.id)
}

/// The word is referenced by some sentence of the commit selection.
pub open spec fn word_in_commit(st: Store, w: Word, user_id: i32, ids: Seq<i32>) -> bool {
    exists|k: int|
        0 <= k < st.sentences@.len() && commit_matches(#[trigger] st.sentences@[k], user_id, ids)
            && st.sentences@[k].word_id == w.id
}

impl User {
    /// Looks a user up by id.
    pub fn find_by_id(store: &Store, user_id: i32) -> (r: Option<User>)
        ensures
            r == store.spec_user_with_id(user_id),
    {
        let ghost p = |u: User| u.id == user_id;
        let n: usize = store.users.len();
        let mut i: usize = 0;
        proof {
            assert(store.users@.skip(0) =~= store.users@);
        }
        while i < n
            invariant
                0 <= i <= n,
                n == store.users@.len(),
                p == (|u: User| u.id == user_id),
                first_where(store.users@, p) == first_where(store.users@.skip(i as int), p),
            decreases n - i,
        {
            if store.users[i].id == user_id {
                proof {
                    lemma_first_where_skip_found(store.users@, p, i as int);
                }
                return Some(store.users[i].clone());
            }
            proof {
                lemma_first_where_skip_step(store.users@, p, i as int);
            }
            i = i + 1;
        }
        proof {
            lemma_first_where_skip_end(store.users@, p);
        }
        None
    }

    /// Bumps the user's token generation, revoking every token issued
    /// under the old one; answers the new generation, or `None` for an
    /// unknown user. The counter stops at the type's ceiling.
    pub fn increment_token_generation(store: &mut Store, user_id: i32) -> (r: Option<i32>)
        requires
            old(store).wf(),
        ensures
            final(store).wf(),
            final(store).same_words(*old(store)),
            final(store).same_sentences(*old(store)),
            final(store).same_mining_batches(*old(store)),
            final(store).next_user_id == old(store).next_user_id,
            final(store).users@.len() == old(store).users@.len(),
            forall|i: int|
                0 <= i < old(store).users@.len() ==> final(store).users@[i] == (
                if old(store).users@[i].id == user_id {
                    User {
                        token_generation: sat_inc_i32(old(store).users@[i].token_generation),
                        ..old(store).users@[i]
                    }
                } else {
                    old(store).users@[i]
                }),
            r is Some <==> old(store).spec_user_with_id(user_id) is Some,
            old(store).spec_user_with_id(user_id) matches Some(u) ==> r == Some(
                sat_inc_i32(u.token_generation),
            ),
    {
        let ghost p = |u: User| u.id == user_id;
        let n: usize = store.users.len();
        let mut i: usize = 0;
        proof {
            assert(store.users@.skip(0) =~= store.users@);
        }
        while i < n
            invariant
                0 <= i <= n,
                n == store.users@.len(),
                old(store).wf(),
                *store == *old(store),
                p == (|u: User| u.id == user_id),
                first_where(store.users@, p) == first_where(store.users@.skip(i as int), p),
            decreases n - i,
        {
            if store.users[i].id == user_id {
                proof {
                    lemma_first_where_skip_found(store.users@, p, i as int);
                }
                let g: i32 = store.users[i].token_generation;
                let ng: i32 = if g < i32::MAX {
                    g + 1
                } else {
                    g
                };
                store.users[i].token_generation = ng;
                proof {
                    assert(ng == sat_inc_i32(g));
                    assert(store.users@[i as int] == User {
                        token_generation: sat_inc_i32(old(store).users@[i as int].token_generation),
                        ..old(store).users@[i as int]
                    });
                    assert forall|k: int|
                        0 <= k < store.users@.len() && k != i implies store.users@[k].id
                        != user_id by {
                        if k < i as int {
                            assert(old(store).users@[k].id < old(store).users@[i as int].id);
                        } else {
                            assert(old(store).users@[i as int].id < old(store).users@[k].id);
                        }
                    }
                }
                return Some(ng);
            }
            proof {
                lemma_first_where_skip_step(store.users@, p, i as int);
            }
            i = i + 1;
        }
        proof {
            lemma_first_where_skip_end(store.users@, p);
            lemma_first_where_none(store.users@, p);
        }
        None
    }

    /// Registers a user: refuses a taken username or email, hashes the
    /// password at the given bcrypt cost, and inserts the row with
    /// token generation 0. The caller hands in inputs already
    /// validated and the email already lowercased.
    pub fn register(store: &mut Store, username: &str, email: &str, password: &str, cost: u32) -> (r:
        Result<User, UserRegistrationError>)
        requires
            old(store).wf(),
            old(store).next_user_id < i32::MAX,
        ensures
            final(store).wf(),
            final(store).same_words(*old(store)),
            final(store).same_sentences(*old(store)),
            final(store).same_mining_batches(*old(store)),
            r is Err ==> *final(store) == *old(store),
            (exists|i: int|
                0 <= i < old(store).users@.len() && (#[trigger] old(store).users@[i]).username@
                    == username@) ==> r == Err::<User, UserRegistrationError>(
                UserRegistrationError::DuplicateUsername,
            ),
            (!(exists|i: int|
                0 <= i < old(store).users@.len() && (#[trigger] old(store).users@[i]).username@
                    == username@) && (exists|i: int|
                0 <= i < old(store).users@.len() && (#[trigger] old(store).users@[i]).email@
                    == email@)) ==> r == Err::<User, UserRegistrationError>(
                UserRegistrationError::DuplicateEmail,
            ),
            (!(exists|i: int|
                0 <= i < old(store).users@.len() && ((#[trigger] old(store).users@[i]).username@
                    == username@ || old(store).users@[i].email@ == email@)) && r is Err) ==> r
                == Err::<User, UserRegistrationError>(UserRegistrationError::FailedToHash),
            r matches Ok(u) ==> {
                &&& forall|i: int|
                    0 <= i < old(store).users@.len() ==> ((#[trigger] old(store).users@[i]).username@
                        != username@ && old(store).users@[i].email@ != email@)
                &&& u.id == old(store).next_user_id
                &&& u.username@ == username@
                &&& u.email@ == email@
                &&& u.token_generation == 0
                &&& bcrypt_verify_result(password@, u.hash@) == Some(true)
                &&& final(store).users@ == old(store).users@.push(u)
                &&& final(store).next_user_id == old(store).next_user_id + 1
            },
    {
        let uname: String = username.to_owned();
        let mail: String = email.to_owned();
        let n: usize = store.users.len();
        let mut i: usize = 0;
        while i < n
            invariant
                0 <= i <= n,
                n == store.users@.len(),
                old(store).wf(),
                *store == *old(store),
                uname@ == username@,
                forall|k: int| 0 <= k < i ==> (#[trigger] store.users@[k]).username@ != username@,
            decreases n - i,
        {
            if store.users[i].username == uname {
                return Err(UserRegistrationError::DuplicateUsername);
            }
            i = i + 1;
        }
        let mut i: usize = 0;
        while i < n
            invariant
                0 <= i <= n,
                n == store.users@.len(),
                old(store).wf(),
                *store == *old(store),
                mail@ == email@,
                forall|k: int| 0 <= k < n ==> (#[trigger] store.users@[k]).username@ != username@,
                forall|k: int| 0 <= k < i ==> (#[trigger] store.users@[k]).email@ != email@,
            decreases n - i,
        {
            if store.users[i].email == mail {
                return Err(UserRegistrationError::DuplicateEmail);
            }
            i = i + 1;
        }
        let digest = match bcrypt_hash(password, cost) {
            Some(h) => h,
            None => {
                return Err(UserRegistrationError::FailedToHash);
            },
        };
        let u = User {
            id: store.next_user_id,
            username: uname,
            email: mail,
            hash: digest,
            token_generation: 0,
        };
        let r = u.clone();
        store.users.push(u);
        store.next_user_id = store.next_user_id + 1;
        proof {
            assert(store.wf());
        }
        Ok(r)
    }

    /// The user with the given email, provided the password passes
    /// bcrypt's check against the stored digest; `None` otherwise,
    /// whether the email is unknown, the password wrong, or the
    /// stored digest unreadable.
    pub fn find_by_credentials(store: &Store, email: &str, password: &str) -> (r: Option<User>)
        requires
            store.wf(),
        ensures
            r == match store.spec_user_with_email(email@) {
                Option::None => Option::<User>::None,
                Option::Some(u) => if bcrypt_verify_result(password@, u.hash@) == Some(true) {
                    Option::Some(u)
                } else {
                    Option::<User>::None
                },
            },
    {
        let ghost p = |u: User| u.email@ == email@;
        let mail: String = email.to_owned();
        let n: usize = store.users.len();
        let mut i: usize = 0;
        proof {
            assert(store.users@.skip(0) =~= store.users@);
        }
        while i < n
            invariant
                0 <= i <= n,
                n == store.users@.len(),
                mail@ == email@,
                p == (|u: User| u.email@ == email@),
                first_where(store.users@, p) == first_where(store.users@.skip(i as int), p),
            decreases n - i,
        {
            if store.users[i].email == mail {
                proof {
                    lemma_first_where_skip_found(store.users@, p, i as int);
                }
                let ok = match bcrypt_verify(password, store.users[i].hash.as_str()) {
                    Some(b) => b,
                    None => false,
                };
                if ok {
                    return Some(store.users[i].clone());
                } else {
                    return None;
                }
            }
            proof {
                lemma_first_where_skip_step(store.users@, p, i as int);
            }
            i = i + 1;
        }
        proof {
            lemma_first_where_skip_end(store.users@, p);
        }
        None
    }

    /// Whether the user's pending queue has reached the capacity cap.
    pub fn is_pending_sentence_limit_reached(store: &Store, user_id: i32, max_pending: u64) -> (r:
        bool)
        ensures
            r == (store.spec_pending_count(user_id) >= max_pending),
    {
        let count: usize = store.count_pending(user_id);
        count as u64 >= max_pending
    }

    /// The user's pending sentences joined with their words and corpus
    /// ranks, in the display order: higher mining frequency first, and
    /// within one mining frequency the better (lower) corpus rank
    /// first.
    pub fn get_pending_sentences(
        store: &Store,
        user_id: i32,
        frequency_list: &JpFrequencyList,
    ) -> (r: Vec<UserSentenceEntry>)
        requires
            store.wf(),
            frequency_list.wf(),
        ensures
            r@.to_multiset() == spec_pending_entries(*store, user_id, *frequency_list)
                .to_multiset(),
            r@.len() == store.spec_pending_count(user_id),
            entries_ordered(r@),
    {
        broadcast use vstd::seq::Seq::to_multiset_ensures;

        let ghost p = |s: Sentence| s.user_id == user_id && s.is_pending;
        let mut collected: Vec<UserSentenceEntry> = Vec::new();
        let n: usize = store.sentences.len();
        let mut i: usize = 0;
        proof {
            assert(store.sentences@.take(0) =~= Seq::<Sentence>::empty());
            lemma_filter_all_false(Seq::<Sentence>::empty(), p);
            assert(collected@ =~= entries_for(
                *store,
                store.sentences@.take(0).filter(p),
                *frequency_list,
            ));
        }
        while i < n
            invariant
                0 <= i <= n,
                n == store.sentences@.len(),
                store.wf(),
                frequency_list.wf(),
                p == (|s: Sentence| s.user_id == user_id && s.is_pending),
                collected@ == entries_for(
                    *store,
                    store.sentences@.take(i as int).filter(p),
                    *frequency_list,
                ),
            decreases n - i,
        {
            proof {
                lemma_filter_take_step(store.sentences@, p, i as int);
            }
            if store.sentences[i].user_id == user_id && store.sentences[i].is_pending {
                let wid: i32 = store.sentences[i].word_id;
                let word = match Word::find_by_id(store, wid) {
                    Some(w) => w,
                    None => {
                        proof {
                            lemma_first_where_none(store.words@, |w: Word| w.id == wid);
                            assert(false);
                        }
                        unreached()
                    },
                };
                let entry = UserSentenceEntry::new(&word, &store.sentences[i], frequency_list);
                collected.push(entry);
                proof {
                    let pref = store.sentences@.take(i as int).filter(p);
                    assert(entries_for(
                        *store,
                        pref.push(store.sentences@[i as int]),
                        *frequency_list,
                    ) =~= entries_for(*store, pref, *frequency_list).push(
                        spec_entry(
                            store.spec_word_with_id(store.sentences@[i as int].word_id)->0,
                            store.sentences@[i as int],
                            *frequency_list,
                        ),
                    ));
                }
            }
            i = i + 1;
        }
        proof {
            assert(store.sentences@.take(n as int) =~= store.sentences@);
            assert(collected@ == spec_pending_entries(*store, user_id, *frequency_list));
        }
        let r = sort_entries(collected);
        proof {
            assert(r@.len() == r@.to_multiset().len());
            assert(spec_pending_entries(*store, user_id, *frequency_list).len() == store
                .spec_pending_count(user_id));
        }
        r
    }

    /// The member sentences of one of the user's batches, joined with
    /// their words and ranks; a miss and another user's batch report
    /// the same `NotFound`.
    pub fn get_sentence_batch(
        store: &Store,
        user_id: i32,
        batch_id: i32,
        frequency_list: &JpFrequencyList,
    ) -> (r: Result<Vec<UserSentenceEntry>, crate::store::QueryError>)
        requires
            store.wf(),
            frequency_list.wf(),
        ensures
            r is Ok <==> (store.spec_batch_with_id(batch_id) matches Some(b) && b.user_id
                == user_id),
            r matches Ok(v) ==> v@ == entries_for(
                *store,
                store.sentences@.filter(|s: Sentence| s.mining_batch_id == Some(batch_id)),
                *frequency_list,
            ),
            r is Err ==> r == Err::<Vec<UserSentenceEntry>, crate::store::QueryError>(
                crate::store::QueryError::NotFound,
            ),
    {
        let batch = match MiningBatch::get_batch(store, user_id, batch_id) {
            Ok(b) => b,
            Err(e) => {
                return Err(e);
            },
        };
        let v = MiningBatch::get_sentences(store, &batch, frequency_list);
        proof {
            crate::store::lemma_first_where_some(
                store.mining_batches@,
                |b: MiningBatch| b.id == batch_id,
            );
            assert(batch.id == batch_id);
            assert((|s: Sentence| s.mining_batch_id == Some(batch.id)) =~= (
            |s: Sentence| s.mining_batch_id == Some(batch_id)));
        }
        Ok(v)
    }

    /// Atomically seals a selected set of the user's pending sentences
    /// into a fresh batch: every selected sentence must be an existing
    /// pending sentence of the user, with no id repeated; otherwise
    /// nothing changes and `InvalidSentencesProvided` is reported. On
    /// success the selected sentences stop being pending and point at
    /// the new batch, and every word they reference is marked mined.
    pub fn commit_batch(store: &mut Store, user_id: i32, sentence_ids: &Vec<i32>) -> (r: Result<
        MiningBatch,
        CommitSentencesError,
    >)
        requires
            old(store).wf(),
            sentence_ids@.len() > 0,
            old(store).next_mining_batch_id < i32::MAX,
        ensures
            final(store).wf(),
            final(store).same_users(*old(store)),
            r is Ok <==> old(store).sentences@.filter(
                |s: Sentence| commit_matches(s, user_id, sentence_ids@),
            ).len() == sentence_ids@.len(),
            r is Err ==> *final(store) == *old(store) && r == Err::<
                MiningBatch,
                CommitSentencesError,
            >(CommitSentencesError::InvalidSentencesProvided),
            r matches Ok(b) ==> {
                &&& b.id == old(store).next_mining_batch_id
                &&& b.user_id == user_id
                &&& final(store).mining_batches@ == old(store).mining_batches@.push(b)
                &&& final(store).next_mining_batch_id == old(store).next_mining_batch_id + 1
                &&& final(store).next_sentence_id == old(store).next_sentence_id
                &&& final(store).next_word_id == old(store).next_word_id
                &&& final(store).sentences@.len() == old(store).sentences@.len()
                &&& forall|i: int|
                    0 <= i < old(store).sentences@.len() ==> final(store).sentences@[i] == (
                    if commit_matches(old(store).sentences@[i], user_id, sentence_ids@) {
                        Sentence {
                            is_pending: false,
                            mining_batch_id: Some(b.id),
                            ..old(store).sentences@[i]
                        }
                    } else {
                        old(store).sentences@[i]
                    })
                &&& final(store).words@.len() == old(store).words@.len()
                &&& forall|i: int|
                    0 <= i < old(store).words@.len() ==> final(store).words@[i] == (
                    if word_in_commit(*old(store), old(store).words@[i], user_id, sentence_ids@) {
                        Word { is_mined: true, ..old(store).words@[i] }
                    } else {
                        old(store).words@[i]
                    })
            },
    {
        let ghost cm = |s: Sentence| commit_matches(s, user_id, sentence_ids@);
        let n: usize = store.sentences.len();
        let mut count: usize = 0;
        let mut word_ids: Vec<i32> = Vec::new();
        let mut i: usize = 0;
        proof {
            assert(store.sentences@.take(0) =~= Seq::<Sentence>::empty());
            lemma_filter_all_false(Seq::<Sentence>::empty(), cm);
        }
        while i < n
            invariant
                0 <= i <= n,
                n == store.sentences@.len(),
                old(store).wf(),
                *store == *old(store),
                cm == (|s: Sentence| commit_matches(s, user_id, sentence_ids@)),
                count <= i,
                count == store.sentences@.take(i as int).filter(cm).len(),
                forall|wid: i32| #[trigger]
                    word_ids@.contains(wid) <==> exists|k: int|
                        0 <= k < i && commit_matches(
                            #[trigger] store.sentences@[k],
                            user_id,
                            sentence_ids@,
                        ) && store.sentences@[k].word_id == wid,
            decreases n - i,
        {
            proof {
                lemma_filter_take_step(store.sentences@, cm, i as int);
            }
            let row_matches = store.sentences[i].user_id == user_id && store.sentences[i].is_pending
                && contains_i32(sentence_ids, store.sentences[i].id);
            if row_matches {
                count = count + 1;
                let ghost prev_wids = word_ids@;
                word_ids.push(store.sentences[i].word_id);
                proof {
                    assert forall|wid: i32| #[trigger]
                        word_ids@.contains(wid) implies exists|k: int|
                        0 <= k < i + 1 && commit_matches(
                            #[trigger] store.sentences@[k],
                            user_id,
                            sentence_ids@,
                        ) && store.sentences@[k].word_id == wid by {
                        let idx = choose|idx: int|
                            0 <= idx < word_ids@.len() && word_ids@[idx] == wid;
                        if idx < prev_wids.len() {
                            assert(prev_wids.contains(wid));
                        } else {
                            assert(wid == store.sentences@[i as int].word_id);
                            assert(commit_matches(
                                store.sentences@[i as int],
                                user_id,
                                sentence_ids@,
                            ) && store.sentences@[i as int].word_id == wid);
                        }
                    }
                    assert forall|wid: i32|
                        (exists|k: int|
                            0 <= k < i + 1 && commit_matches(
                                #[trigger] store.sentences@[k],
                                user_id,
                                sentence_ids@,
                            ) && store.sentences@[k].word_id == wid) implies #[trigger] word_ids@
                        .contains(wid) by {
                        let k = choose|k: int|
                            0 <= k < i + 1 && commit_matches(
                                #[trigger] store.sentences@[k],
                                user_id,
                                sentence_ids@,
                            ) && store.sentences@[k].word_id == wid;
                        if k < i as int {
                            assert(prev_wids.contains(wid));
                            let idx = choose|idx: int|
                                0 <= idx < prev_wids.len() && prev_wids[idx] == wid;
                            assert(word_ids@[idx] == wid);
                        } else {
                            assert(word_ids@[word_ids@.len() - 1] == wid);
                        }
                    }
                }
            } else {
                proof {
                    assert forall|wid: i32| #[trigger]
                        word_ids@.contains(wid) implies exists|k: int|
                        0 <= k < i + 1 && commit_matches(
                            #[trigger] store.sentences@[k],
                            user_id,
                            sentence_ids@,
                        ) && store.sentences@[k].word_id == wid by {
                        let k = choose|k: int|
                            0 <= k < i && commit_matches(
                                #[trigger] store.sentences@[k],
                                user_id,
                                sentence_ids@,
                            ) && store.sentences@[k].word_id == wid;
                        assert(0 <= k < i + 1 && commit_matches(
                            store.sentences@[k],
                            user_id,
                            sentence_ids@,
                        ) && store.sentences@[k].word_id == wid);
                    }
                }
            }
            i = i + 1;
        }
        proof {
            assert(store.sentences@.take(n as int) =~= store.sentences@);
        }
        if count != sentence_ids.len() {
            return Err(CommitSentencesError::InvalidSentencesProvided);
        }
        let batch = MiningBatch::new(store, user_id);
        let mut i: usize = 0;
        while i < n
            invariant
                0 <= i <= n,
                n == store.sentences@.len(),
                n == old(store).sentences@.len(),
                old(store).wf(),
                batch.id == old(store).next_mining_batch_id,
                batch.user_id == user_id,
                store.users@ == old(store).users@,
                store.next_user_id == old(store).next_user_id,
                store.words@ == old(store).words@,
                store.next_word_id == old(store).next_word_id,
                store.mining_batches@ == old(store).mining_batches@.push(batch),
                store.next_mining_batch_id == old(store).next_mining_batch_id + 1,
                store.next_sentence_id == old(store).next_sentence_id,
                forall|k: int|
                    0 <= k < i ==> store.sentences@[k] == (
                    if commit_matches(old(store).sentences@[k], user_id, sentence_ids@) {
                        Sentence {
                            is_pending: false,
                            mining_batch_id: Some(batch.id),
                            ..old(store).sentences@[k]
                        }
                    } else {
                        old(store).sentences@[k]
                    }),
                forall|k: int| i <= k < n ==> store.sentences@[k] == old(store).sentences@[k],
            decreases n - i,
        {
            let row_matches = store.sentences[i].user_id == user_id && store.sentences[i].is_pending
                && contains_i32(sentence_ids, store.sentences[i].id);
            if row_matches {
                store.sentences[i].is_pending = false;
                store.sentences[i].mining_batch_id = Some(batch.id);
            }
            i = i + 1;
        }
        let wn: usize = store.words.len();
        let mut wi: usize = 0;
        while wi < wn
            invariant
                0 <= wi <= wn,
                wn == store.words@.len(),
                wn == old(store).words@.len(),
                n == store.sentences@.len(),
                n == old(store).sentences@.len(),
                old(store).wf(),
                batch.id == old(store).next_mining_batch_id,
                batch.user_id == user_id,
                store.users@ == old(store).users@,
                store.next_user_id == old(store).next_user_id,
                store.next_word_id == old(store).next_word_id,
                store.mining_batches@ == old(store).mining_batches@.push(batch),
                store.next_mining_batch_id == old(store).next_mining_batch_id + 1,
                store.next_sentence_id == old(store).next_sentence_id,
                forall|wid: i32| #[trigger]
                    word_ids@.contains(wid) <==> exists|k: int|
                        0 <= k < n && commit_matches(
                            #[trigger] old(store).sentences@[k],
                            user_id,
                            sentence_ids@,
                        ) && old(store).sentences@[k].word_id == wid,
                forall|k: int|
                    0 <= k < n ==> store.sentences@[k] == (
                    if commit_matches(old(store).sentences@[k], user_id, sentence_ids@) {
                        Sentence {
                            is_pending: false,
                            mining_batch_id: Some(batch.id),
                            ..old(store).sentences@[k]
                        }
                    } else {
                        old(store).sentences@[k]
                    }),
                forall|k: int|
                    0 <= k < wi ==> store.words@[k] == (
                    if word_ids@.contains(old(store).words@[k].id) {
                        Word { is_mined: true, ..old(store).words@[k] }
                    } else {
                        old(store).words@[k]
                    }),
                forall|k: int| wi <= k < wn ==> store.words@[k] == old(store).words@[k],
            decreases wn - wi,
        {
            if contains_i32(&word_ids, store.words[wi].id) {
                store.words[wi].is_mined = true;
            }
            wi = wi + 1;
        }
        proof {
            assert forall|si: int|
                0 <= si < store.sentences@.len() implies word_link_ok(
                store.words@,
                store.sentences@[si],
            ) && crate::store::batch_link_ok(store.mining_batches@, store.sentences@[si]) by {
                assert(word_link_ok(old(store).words@, old(store).sentences@[si]));
                assert(store.sentences@[si].word_id == old(store).sentences@[si].word_id);
                assert(store.sentences@[si].user_id == old(store).sentences@[si].user_id);
                lemma_word_link_preserved(
                    old(store).words@,
                    store.words@,
                    old(store).sentences@[si],
                );
                if commit_matches(old(store).sentences@[si], user_id, sentence_ids@) {
                    assert(store.mining_batches@[store.mining_batches@.len() - 1] == batch);
                } else {
                    assert(crate::store::batch_link_ok(
                        old(store).mining_batches@,
                        old(store).sentences@[si],
                    ));
                    lemma_batch_link_preserved(
                        old(store).mining_batches@,
                        store.mining_batches@,
                        old(store).sentences@[si],
                    );
                }
            }
            assert(store.wf());
            assert forall|k: int|
                0 <= k < old(store).words@.len() implies store.words@[k] == (
            if word_in_commit(*old(store), old(store).words@[k], user_id, sentence_ids@) {
                Word { is_mined: true, ..old(store).words@[k] }
            } else {
                old(store).words@[k]
            }) by {
                assert(word_ids@.contains(old(store).words@[k].id) == word_in_commit(
                    *old(store),
                    old(store).words@[k],
                    user_id,
                    sentence_ids@,
                ));
            }
        }
        Ok(batch)
    }
}

/// Law (double-commit rejection): once a store has been rewritten so
/// that every sentence of the commit selection stopped being pending
/// (and ids, owners and the other rows' pending flags are unchanged,
/// as a successful commit leaves them), the same selection matches
/// nothing, so a second commit of the same non-empty id set is
/// refused.
pub proof fn lemma_double_commit_rejection(st0: Store, st1: Store, user_id: i32, ids: Seq<i32>)
    requires
        st1.sentences@.len() == st0.sentences@.len(),
        forall|k: int|
            0 <= k < st0.sentences@.len() ==> {
                &&& (#[trigger] st1.sentences@[k]).id == st0.sentences@[k].id
                &&& st1.sentences@[k].user_id == st0.sentences@[k].user_id
                &&& (commit_matches(st0.sentences@[k], user_id, ids) ==> !st1.sentences@[k]
                    .is_pending)
                &&& (!commit_matches(st0.sentences@[k], user_id, ids) ==> st1.sentences@[k]
                    .is_pending == st0.sentences@[k].is_pending)
            },
    ensures
        st1.sentences@.filter(|s: Sentence| commit_matches(s, user_id, ids)).len() == 0,
{
    let cm = |s: Sentence| commit_matches(s, user_id, ids);
    assert forall|k: int| 0 <= k < st1.sentences@.len() implies !cm(
        #[trigger] st1.sentences@[k],
    ) by {
        if commit_matches(st0.sentences@[k], user_id, ids) {
            assert(!st1.sentences@[k].is_pending);
        } else {
            assert(st1.sentences@[k].is_pending ==> !commit_matches(
                st1.sentences@[k],
                user_id,
                ids,
            ));
        }
    }
    lemma_filter_all_false(st1.sentences@, cm);
}

/// The commit selection never outgrows the submitted id list: selected
/// sentences have pairwise distinct ids, each held by the list, so
/// each selected row answers for a different entry of the list.
proof fn lemma_matched_count_bound(ss: Seq<Sentence>, user_id: i32, ids: Seq<i32>)
    requires
        forall|i: int, j: int|
            0 <= i < j < ss.len() ==> (#[trigger] ss[i]).id != (#[trigger] ss[j]).id,
    ensures
        ss.filter(|s: Sentence| commit_matches(s, user_id, ids)).len() <= ids.len(),
    decreases ss.len(),
{
    reveal(Seq::filter);
    if ss.len() > 0 {
        let s0 = ss.last();
        let rest = ss.drop_last();
        assert forall|i: int, j: int|
            0 <= i < j < rest.len() implies (#[trigger] rest[i]).id != (#[trigger] rest[j]).id by {
            assert(rest[i] == ss[i]);
            assert(rest[j] == ss[j]);
        }
        if commit_matches(s0, user_id, ids) {
            let idx = choose|idx: int| 0 <= idx < ids.len() && ids[idx] == s0.id;
            let ids2 = ids.remove(idx);
            assert forall|k: int|
                0 <= k < rest.len() implies commit_matches(#[trigger] rest[k], user_id, ids)
                == commit_matches(rest[k], user_id, ids2) by {
                assert(rest[k] == ss[k]);
                assert(ss[k].id != s0.id);
                lemma_remove_contains_other(ids, idx, rest[k].id);
            }
            lemma_filter_congruence(
                rest,
                |s: Sentence| commit_matches(s, user_id, ids),
                |s: Sentence| commit_matches(s, user_id, ids2),
            );
            lemma_matched_count_bound(rest, user_id, ids2);
        } else {
            lemma_matched_count_bound(rest, user_id, ids);
        }
    }
}

/// Law (cross-user isolation of commits): when the submitted id list
/// holds an id that names none of the user's own pending sentences —
/// another user's row, an already-committed row, or no row at all —
/// the selection cannot cover the list, so the commit answers
/// `InvalidSentencesProvided` and, by the commit contract, changes
/// nothing: exactly the refusal an id that names nothing earns.
pub proof fn lemma_commit_rejects_unmatched_ids(st: Store, user_id: i32, ids: Seq<i32>, x: i32)
    requires
        st.wf(),
        ids.contains(x),
        forall|k: int|
            0 <= k < st.sentences@.len() && (#[trigger] st.sentences@[k]).id == x ==> !(
            st.sentences@[k].user_id == user_id && st.sentences@[k].is_pending),
    ensures
        st.sentences@.filter(|s: Sentence| commit_matches(s, user_id, ids)).len() != ids.len(),
{
    let idx = choose|idx: int| 0 <= idx < ids.len() && ids[idx] == x;
    let ids2 = ids.remove(idx);
    assert forall|k: int|
        0 <= k < st.sentences@.len() implies commit_matches(
        #[trigger] st.sentences@[k],
        user_id,
        ids,
    ) == commit_matches(st.sentences@[k], user_id, ids2) by {
        if st.sentences@[k].id != x {
            lemma_remove_contains_other(ids, idx, st.sentences@[k].id);
        }
    }
    lemma_filter_congruence(
        st.sentences@,
        |s: Sentence| commit_matches(s, user_id, ids),
        |s: Sentence| commit_matches(s, user_id, ids2),
    );
    assert forall|i: int, j: int|
        0 <= i < j < st.sentences@.len() implies (#[trigger] st.sentences@[i]).id != (
    #[trigger] st.sentences@[j]).id by {
        assert(st.sentences@[i].id < st.sentences@[j].id);
    }
    lemma_matched_count_bound(st.sentences@, user_id, ids2);
}

} // verus!
