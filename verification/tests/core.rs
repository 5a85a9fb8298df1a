use sentence_base::env::get_access_token_expiry_time;
use sentence_base::env::get_int_env_with_default;
use sentence_base::env::get_maximum_pending_sentences;
use sentence_base::env::get_refresh_token_expiry_time;
use sentence_base::env::parse_u64;
use sentence_base::frequency_list::JpFrequencyList;
use sentence_base::responses::ErrorResponse;
use sentence_base::responses::ErrorType;
use sentence_base::responses::SuccessResponse;
use sentence_base::tokens::catch_default;
use sentence_base::tokens::extract_access_token_from_header;
use sentence_base::tokens::TokenError;

#[test]
fn parse_accepts_plain_and_signed_decimals() {
    assert_eq!(parse_u64("0"), Some(0));
    assert_eq!(parse_u64("3600"), Some(3600));
    assert_eq!(parse_u64("+7"), Some(7));
    assert_eq!(parse_u64("18446744073709551615"), Some(u64::MAX));
}

#[test]
fn parse_rejects_junk_and_overflow() {
    assert_eq!(parse_u64(""), None);
    assert_eq!(parse_u64("+"), None);
    assert_eq!(parse_u64("-1"), None);
    assert_eq!(parse_u64("12a"), None);
    assert_eq!(parse_u64(" 12"), None);
    assert_eq!(parse_u64("18446744073709551616"), None);
    assert_eq!(parse_u64("99999999999999999999999"), None);
}

#[test]
fn env_getters_fall_back_to_documented_defaults() {
    assert_eq!(get_access_token_expiry_time(None), 3600);
    assert_eq!(get_refresh_token_expiry_time(None), 43800);
    assert_eq!(get_maximum_pending_sentences(None), 250);
    assert_eq!(get_access_token_expiry_time(Some("120")), 120);
    assert_eq!(get_refresh_token_expiry_time(Some("not-a-number")), 43800);
    assert_eq!(get_maximum_pending_sentences(Some("10")), 10);
    assert_eq!(get_int_env_with_default(Some("覚"), 5), 5);
}

#[test]
fn catalog_ranks_by_position_from_one() {
    let catalog = JpFrequencyList::from_pairs(vec![
        ("家".to_string(), "イエ".to_string()),
        ("学校".to_string(), "ガッコウ".to_string()),
        ("犬".to_string(), "イヌ".to_string()),
    ]);
    assert_eq!(catalog.get_frequency("家", "イエ"), 1);
    assert_eq!(catalog.get_frequency("学校", "ガッコウ"), 2);
    assert_eq!(catalog.get_frequency("犬", "イヌ"), 3);
}

#[test]
fn catalog_gives_unknown_pairs_the_sentinel_rank() {
    let catalog = JpFrequencyList::from_pairs(vec![
        ("家".to_string(), "イエ".to_string()),
        ("学校".to_string(), "ガッコウ".to_string()),
    ]);
    // size + 1
    assert_eq!(catalog.get_frequency("猫", "ネコ"), 3);
    // the lookup is by the pair, not by the form alone
    assert_eq!(catalog.get_frequency("家", "ウチ"), 3);
}

#[test]
fn success_response_carries_data_and_ok_status() {
    let response = SuccessResponse::new(vec![1, 2, 3]);
    assert_eq!(response.http_status, 200);
    assert_eq!(response.get_data(), &vec![1, 2, 3]);
}

#[test]
fn error_responses_carry_status_kind_and_reasons() {
    let e = ErrorResponse::error("Unexpected Error".to_string(), 500);
    assert!(matches!(e.status, ErrorType::Error));
    assert_eq!(e.message, "Unexpected Error");
    assert!(e.reasons.is_none());
    assert_eq!(e.http_status, 500);
    let f = ErrorResponse::fail("Validation Error".to_string(), 422);
    assert!(matches!(f.status, ErrorType::Fail));
    assert_eq!(f.http_status, 422);
    let g = ErrorResponse::fail_with_reasons(
        "Validation Error".to_string(),
        vec!["duplicate username".to_string()],
        409,
    );
    assert_eq!(g.reasons, Some(vec!["duplicate username".to_string()]));
}

#[test]
fn catcher_prefers_the_recorded_token_error() {
    let r = catch_default(Some(&TokenError::Expired), 404, "404 Not Found".to_string());
    assert!(matches!(r.status, ErrorType::Fail));
    assert_eq!(r.http_status, 401);
    assert_eq!(r.message, "Expired Token Provided");
}

#[test]
fn catcher_wraps_bare_statuses_by_class() {
    let client = catch_default(None, 404, "404 Not Found".to_string());
    assert!(matches!(client.status, ErrorType::Fail));
    assert_eq!(client.http_status, 404);
    assert_eq!(client.message, "404 Not Found");
    let server = catch_default(None, 500, "500 Internal Server Error".to_string());
    assert!(matches!(server.status, ErrorType::Error));
    assert_eq!(server.http_status, 500);
}

#[test]
fn header_extraction_takes_the_token_after_the_scheme() {
    assert_eq!(
        extract_access_token_from_header("Bearer abc.def.ghi".to_string()),
        Some("abc.def.ghi".to_string())
    );
    // the white-space run is consumed greedily
    assert_eq!(
        extract_access_token_from_header("Bearer    x y".to_string()),
        Some("x y".to_string())
    );
}

#[test]
fn header_extraction_rejects_other_shapes() {
    assert_eq!(extract_access_token_from_header(String::new()), None);
    assert_eq!(extract_access_token_from_header("Bearer".to_string()), None);
    assert_eq!(extract_access_token_from_header("Bearer ".to_string()), None);
    assert_eq!(extract_access_token_from_header("bearer abc".to_string()), None);
    assert_eq!(extract_access_token_from_header("Basic abc".to_string()), None);
    assert_eq!(
        extract_access_token_from_header("Bearer abc\ndef".to_string()),
        None
    );
}

#[test]
fn header_extraction_matches_the_greedy_backoff_corner() {
    // All white space after the scheme: the greedy run backs off one
    // character, so the capture is that final character.
    assert_eq!(
        extract_access_token_from_header("Bearer   ".to_string()),
        Some(" ".to_string())
    );
    assert_eq!(extract_access_token_from_header("Bearer \n".to_string()), None);
}
