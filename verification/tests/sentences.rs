use sentence_base::frequency_list::JpFrequencyList;
use sentence_base::models::mining_batch::MiningBatch;
use sentence_base::models::sentence::admit_sentence;
use sentence_base::models::sentence::AdmitSentenceError;
use sentence_base::models::sentence::Sentence;
use sentence_base::models::user::CommitSentencesError;
use sentence_base::models::user::User;
use sentence_base::models::user::UserSentenceEntry;
use sentence_base::models::word::Word;
use sentence_base::store::QueryError;
use sentence_base::store::Store;
use sentence_base::tokens::authenticate;
use sentence_base::tokens::TokenError;

const COST: u32 = 4;
const MAX_PENDING: u64 = 250;

fn empty_catalog() -> JpFrequencyList {
    JpFrequencyList::from_pairs(Vec::new())
}

fn store_with_main_user() -> (Store, User) {
    let mut store = Store::new();
    let user = User::register(&mut store, "test_user", "test@domain.com", "password", COST)
        .expect("registration should succeed");
    (store, user)
}

fn admit_ok(
    store: &mut Store,
    user_id: i32,
    df: &str,
    reading: &str,
    text: &str,
    catalog: &JpFrequencyList,
) -> UserSentenceEntry {
    admit_sentence(store, user_id, df, reading, text, MAX_PENDING, catalog)
        .expect("admission should succeed")
}

#[test]
fn new_should_require_auth() {
    let (store, _) = store_with_main_user();
    let outcome = authenticate("", &store, 0, "secret");
    assert!(matches!(outcome, Err(TokenError::NoToken)));
}

#[test]
fn get_should_require_auth() {
    let (store, _) = store_with_main_user();
    let outcome = authenticate("token-but-no-scheme", &store, 0, "secret");
    assert!(matches!(outcome, Err(TokenError::NoToken)));
}

#[test]
fn new_batch_should_require_auth() {
    let (store, _) = store_with_main_user();
    let outcome = authenticate("Bearer", &store, 0, "secret");
    assert!(matches!(outcome, Err(TokenError::NoToken)));
}

#[test]
fn get_batch_should_require_auth() {
    let (store, _) = store_with_main_user();
    let outcome = authenticate("Basic dXNlcg==", &store, 0, "secret");
    assert!(matches!(outcome, Err(TokenError::NoToken)));
}

#[test]
fn get_all_batches_should_validate() {
    let (store, _) = store_with_main_user();
    let outcome = authenticate("", &store, 0, "secret");
    assert!(matches!(outcome, Err(TokenError::NoToken)));
}

#[test]
fn new_should_result_with_a_word_and_a_sentence_added() {
    let (mut store, user) = store_with_main_user();
    let catalog = empty_catalog();
    let entry = admit_ok(&mut store, user.id, "猫", "ネコ", "これは猫です。", &catalog);
    // should have at least one word
    assert_eq!(store.words.len(), 1);
    assert_eq!(store.words[0].dictionary_form, "猫");
    assert_eq!(store.words[0].reading, "ネコ");
    assert_eq!(store.words[0].frequency, 1);
    assert!(!store.words[0].is_mined);
    // should have at least one sentence
    assert_eq!(store.sentences.len(), 1);
    assert_eq!(store.sentences[0].sentence, "これは猫です。");
    assert!(store.sentences[0].is_pending);
    assert!(store.sentences[0].mining_batch_id.is_none());
    assert_eq!(entry.sentence_id, store.sentences[0].id);
    assert_eq!(entry.dictionary_form, "猫");
    assert_eq!(entry.reading, "ネコ");
    assert_eq!(entry.mining_frequency, 1);
    // unknown pair gets the worst (sentinel) rank: size + 1
    assert_eq!(entry.dictionary_frequency, 1);
}

#[test]
fn new_should_increase_frequency_on_duplicate() {
    let (mut store, user) = store_with_main_user();
    let catalog = empty_catalog();
    admit_ok(&mut store, user.id, "cat", "CAT", "this is a cat.", &catalog);
    admit_ok(&mut store, user.id, "cat", "CAT", "the cat is cute.", &catalog);
    let entry = admit_ok(&mut store, user.id, "cat", "CAT", "the cat is sleeping.", &catalog);
    // should have at least one word, and only one row for the triple
    assert_eq!(store.words.len(), 1);
    assert_eq!(store.words[0].frequency, 3);
    assert_eq!(entry.mining_frequency, 3);
    // sentences with ids 1..=3 should exist
    assert_eq!(store.sentences.len(), 3);
    for (i, expected) in [1, 2, 3].iter().enumerate() {
        assert_eq!(store.sentences[i].id, *expected);
    }
}

#[test]
fn new_should_not_add_more_sentences_over_the_limit() {
    let (mut store, user) = store_with_main_user();
    let catalog = empty_catalog();
    let cap: u64 = 10;
    for i in 0..10 {
        let text = format!("a cat number {} has appeared", i);
        let outcome = admit_sentence(&mut store, user.id, "cat", "CAT", &text, cap, &catalog);
        assert!(outcome.is_ok());
    }
    let over = admit_sentence(
        &mut store,
        user.id,
        "cat",
        "CAT",
        "the final cat has appeared",
        cap,
        &catalog,
    );
    assert!(matches!(over, Err(AdmitSentenceError::PendingLimitReached)));
    assert_eq!(store.sentences.len(), 10);
}

#[test]
fn new_should_not_count_non_pending_sentences_towards_the_limit() {
    let (mut store, user) = store_with_main_user();
    let catalog = empty_catalog();
    let cap: u64 = 10;
    let mut ids: Vec<i32> = Vec::new();
    for i in 0..10 {
        let text = format!("a cat number {} has appeared", i);
        let entry = admit_sentence(&mut store, user.id, "cat", "CAT", &text, cap, &catalog)
            .expect("should resolve whether pending sentence limit was reached");
        ids.push(entry.sentence_id);
    }
    User::commit_batch(&mut store, user.id, &ids).expect("query should execute");
    // committed sentences never count towards the cap
    let outcome = admit_sentence(
        &mut store,
        user.id,
        "cat",
        "CAT",
        "one more cat has appeared",
        cap,
        &catalog,
    );
    assert!(outcome.is_ok());
}

#[test]
fn get_should_return_empty_sentences_when_none_are_pending() {
    let (mut store, user) = store_with_main_user();
    let catalog = empty_catalog();
    let entry = admit_ok(&mut store, user.id, "cat", "CAT", "the cat is sleeping.", &catalog);
    User::commit_batch(&mut store, user.id, &vec![entry.sentence_id])
        .expect("commit should succeed");
    let pending = User::get_pending_sentences(&store, user.id, &catalog);
    assert!(pending.is_empty());
}

#[test]
fn get_should_return_pending_sentences_in_the_correct_order() {
    let (mut store, user) = store_with_main_user();
    let catalog = JpFrequencyList::from_pairs(vec![
        ("家".to_string(), "イエ".to_string()),
        ("学校".to_string(), "ガッコウ".to_string()),
        ("犬".to_string(), "イヌ".to_string()),
        ("猫".to_string(), "ネコ".to_string()),
        ("ペン".to_string(), "ペン".to_string()),
    ]);
    let admissions = [
        ("ペン", "ペン"),
        ("魑魅魍魎", "チミモウリョウ"),
        ("勝ち星", "カチボシ"),
        ("魑魅魍魎", "チミモウリョウ"),
        ("猫", "ネコ"),
        ("犬", "イヌ"),
        ("魑魅魍魎", "チミモウリョウ"),
        ("学校", "ガッコウ"),
        ("家", "イエ"),
        ("勝ち星", "カチボシ"),
    ];
    for (df, reading) in admissions.iter() {
        let text = format!("{}を見た。", df);
        admit_ok(&mut store, user.id, df, reading, &text, &catalog);
    }
    let pending = User::get_pending_sentences(&store, user.id, &catalog);
    let got: Vec<&str> = pending.iter().map(|e| e.dictionary_form.as_str()).collect();
    assert_eq!(
        got,
        vec![
            "魑魅魍魎",
            "魑魅魍魎",
            "魑魅魍魎",
            "勝ち星",
            "勝ち星",
            "家",
            "学校",
            "犬",
            "猫",
            "ペン",
        ]
    );
}

#[test]
fn new_batch_should_not_work_for_non_existent_sentences() {
    let (mut store, user) = store_with_main_user();
    let outcome = User::commit_batch(&mut store, user.id, &vec![1, 2, 3]);
    assert!(matches!(outcome, Err(CommitSentencesError::InvalidSentencesProvided)));
    assert_eq!(store.mining_batches.len(), 0);
}

#[test]
fn new_batch_should_not_work_for_non_owned_sentences() {
    let (mut store, user) = store_with_main_user();
    let catalog = empty_catalog();
    let other = User::register(&mut store, "user2", "user2@domain.com", "password", COST)
        .expect("should register user");
    let entry = admit_ok(&mut store, other.id, "cat", "CAT", "the cat is sleeping", &catalog);
    let outcome = User::commit_batch(&mut store, user.id, &vec![entry.sentence_id]);
    assert!(matches!(outcome, Err(CommitSentencesError::InvalidSentencesProvided)));
    // the other user's sentence stays pending
    assert!(store.sentences[0].is_pending);
}

#[test]
fn new_batch_should_work() {
    let (mut store, user) = store_with_main_user();
    let catalog = empty_catalog();
    let a = admit_ok(&mut store, user.id, "cat", "CAT", "this is a cat.", &catalog);
    let b = admit_ok(&mut store, user.id, "dog", "DOG", "this is a dog.", &catalog);
    let c = admit_ok(&mut store, user.id, "cat", "CAT", "the cat sleeps.", &catalog);
    let ids = vec![a.sentence_id, b.sentence_id, c.sentence_id];
    let batch = User::commit_batch(&mut store, user.id, &ids).expect("should deserialize response");
    // a fresh batch id
    assert_eq!(batch.id, 1);
    assert_eq!(batch.user_id, user.id);
    // every selected sentence stopped being pending and points at the batch
    for sentence in store.sentences.iter() {
        assert!(!sentence.is_pending);
        assert_eq!(sentence.mining_batch_id, Some(batch.id));
    }
    // every distinct referenced word is mined
    for word in store.words.iter() {
        assert!(word.is_mined);
    }
}

#[test]
fn new_batch_rejects_when_submitting_the_same_batch_twice() {
    let (mut store, user) = store_with_main_user();
    let catalog = empty_catalog();
    let a = admit_ok(&mut store, user.id, "cat", "CAT", "this is a cat.", &catalog);
    let b = admit_ok(&mut store, user.id, "dog", "DOG", "this is a dog.", &catalog);
    let ids = vec![a.sentence_id, b.sentence_id];
    assert!(User::commit_batch(&mut store, user.id, &ids).is_ok());
    let second = User::commit_batch(&mut store, user.id, &ids);
    assert!(matches!(second, Err(CommitSentencesError::InvalidSentencesProvided)));
    assert_eq!(store.mining_batches.len(), 1);
}

#[test]
fn add_should_set_is_mined_to_false_when_mined_again() {
    let (mut store, user) = store_with_main_user();
    let catalog = empty_catalog();
    let entry = admit_ok(
        &mut store,
        user.id,
        "cat",
        "CAT",
        "some sentence with cat",
        &catalog,
    );
    User::commit_batch(&mut store, user.id, &vec![entry.sentence_id])
        .expect("commit should succeed");
    assert!(store.words[0].is_mined);
    // re-encountering the word flips the flag back
    admit_ok(
        &mut store,
        user.id,
        "cat",
        "CAT",
        "some sentence with another cat",
        &catalog,
    );
    assert!(!store.words[0].is_mined);
    assert_eq!(store.words[0].frequency, 2);
}

#[test]
fn get_batch_should_fail_on_non_existent_batch() {
    let (store, user) = store_with_main_user();
    let outcome = MiningBatch::get_batch(&store, user.id, 1);
    assert!(matches!(outcome, Err(QueryError::NotFound)));
}

#[test]
fn get_batch_should_not_work_for_non_owned_batches() {
    let (mut store, user) = store_with_main_user();
    let catalog = empty_catalog();
    let other = User::register(&mut store, "user2", "user2@domain.com", "password", COST)
        .expect("should register user");
    let entry = admit_ok(&mut store, other.id, "cat", "CAT", "the cat is sleeping", &catalog);
    let batch = User::commit_batch(&mut store, other.id, &vec![entry.sentence_id])
        .expect("commit should succeed");
    let outcome = MiningBatch::get_batch(&store, user.id, batch.id);
    assert!(matches!(outcome, Err(QueryError::NotFound)));
}

#[test]
fn get_batch_should_work() {
    let (mut store, user) = store_with_main_user();
    let catalog = empty_catalog();
    let a = admit_ok(&mut store, user.id, "cat", "CAT", "this is a cat.", &catalog);
    let b = admit_ok(&mut store, user.id, "dog", "DOG", "this is a dog.", &catalog);
    let batch = User::commit_batch(&mut store, user.id, &vec![a.sentence_id, b.sentence_id])
        .expect("commit should succeed");
    let entries = User::get_sentence_batch(&store, user.id, batch.id, &catalog)
        .expect("should deserialize response");
    assert_eq!(entries.len(), 2);
    assert_eq!(entries[0].sentence, "this is a cat.");
    assert_eq!(entries[0].dictionary_form, "cat");
    assert_eq!(entries[1].sentence, "this is a dog.");
    assert_eq!(entries[1].dictionary_form, "dog");
}

#[test]
fn get_mining_batches_should_work() {
    let (mut store, user) = store_with_main_user();
    let catalog = empty_catalog();
    let a = admit_ok(&mut store, user.id, "cat", "CAT", "this is a cat.", &catalog);
    let first = User::commit_batch(&mut store, user.id, &vec![a.sentence_id])
        .expect("commit should succeed");
    let b = admit_ok(&mut store, user.id, "dog", "DOG", "this is a dog.", &catalog);
    let second = User::commit_batch(&mut store, user.id, &vec![b.sentence_id])
        .expect("commit should succeed");
    let batches = MiningBatch::list_batches(&store, user.id);
    // most recently created first
    assert_eq!(batches.len(), 2);
    assert_eq!(batches[0].id, second.id);
    assert_eq!(batches[1].id, first.id);
}

#[test]
fn delete_should_remove_a_pending_sentence() {
    let (mut store, user) = store_with_main_user();
    let catalog = empty_catalog();
    let a = admit_ok(&mut store, user.id, "cat", "CAT", "this is a cat.", &catalog);
    let b = admit_ok(&mut store, user.id, "cat", "CAT", "the cat sleeps.", &catalog);
    assert!(Sentence::delete(&mut store, user.id, a.sentence_id).is_ok());
    assert_eq!(store.sentences.len(), 1);
    assert_eq!(store.sentences[0].id, b.sentence_id);
    // the word's running total is historical: deletion leaves it alone
    assert_eq!(store.words[0].frequency, 2);
}

#[test]
fn delete_should_fail_for_non_owned_or_missing_sentences() {
    let (mut store, user) = store_with_main_user();
    let catalog = empty_catalog();
    let other = User::register(&mut store, "user2", "user2@domain.com", "password", COST)
        .expect("should register user");
    let entry = admit_ok(&mut store, other.id, "cat", "CAT", "the cat is sleeping", &catalog);
    // a missing id and another user's sentence report the same error
    let missing = Sentence::delete(&mut store, user.id, 999);
    assert!(matches!(missing, Err(QueryError::NotFound)));
    let foreign = Sentence::delete(&mut store, user.id, entry.sentence_id);
    assert!(matches!(foreign, Err(QueryError::NotFound)));
    assert_eq!(store.sentences.len(), 1);
}

#[test]
fn delete_should_fail_for_committed_sentences() {
    let (mut store, user) = store_with_main_user();
    let catalog = empty_catalog();
    let entry = admit_ok(&mut store, user.id, "cat", "CAT", "the cat is sleeping", &catalog);
    User::commit_batch(&mut store, user.id, &vec![entry.sentence_id])
        .expect("commit should succeed");
    let outcome = Sentence::delete(&mut store, user.id, entry.sentence_id);
    assert!(matches!(outcome, Err(QueryError::NotFound)));
    assert_eq!(store.sentences.len(), 1);
}

#[test]
fn words_stay_unique_per_owner_triple() {
    let (mut store, user) = store_with_main_user();
    let other = User::register(&mut store, "user2", "user2@domain.com", "password", COST)
        .expect("should register user");
    Word::add_or_increase_frequency(&mut store, user.id, "cat", "CAT");
    Word::add_or_increase_frequency(&mut store, user.id, "cat", "CAT");
    Word::add_or_increase_frequency(&mut store, user.id, "cat", "KAT");
    Word::add_or_increase_frequency(&mut store, other.id, "cat", "CAT");
    // one row per (owner, dictionary form, reading)
    assert_eq!(store.words.len(), 3);
    assert_eq!(store.words[0].frequency, 2);
}

#[test]
fn upsert_increments_by_exactly_one_and_clears_mined() {
    let (mut store, user) = store_with_main_user();
    let first = Word::add_or_increase_frequency(&mut store, user.id, "cat", "CAT");
    assert_eq!(first.frequency, 1);
    assert!(!first.is_mined);
    store.words[0].is_mined = true;
    let second = Word::add_or_increase_frequency(&mut store, user.id, "cat", "CAT");
    assert_eq!(second.frequency, 2);
    assert!(!second.is_mined);
    assert!(!store.words[0].is_mined);
}
