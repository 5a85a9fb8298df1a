use sentence_base::analyzer::analyze_sentence;
use sentence_base::analyzer::dictionary_form_of;
use sentence_base::analyzer::dictionary_form_to_reading;
use sentence_base::analyzer::needs_reading_lookup;
use sentence_base::analyzer::TokenNode;
use sentence_base::store::Store;
use sentence_base::tokens::authenticate;
use sentence_base::tokens::TokenError;

fn node(surface: &str, features: &[&str]) -> TokenNode {
    TokenNode {
        surface: surface.to_string(),
        features: features.iter().map(|f| f.to_string()).collect(),
        is_sentinel: false,
    }
}

fn sentinel() -> TokenNode {
    TokenNode {
        surface: String::new(),
        features: Vec::new(),
        is_sentinel: true,
    }
}

fn no_retoks(n: usize) -> Vec<Vec<TokenNode>> {
    (0..n).map(|_| Vec::new()).collect()
}

#[test]
fn analyze_should_require_auth() {
    let store = Store::new();
    let outcome = authenticate("", &store, 0, "secret");
    assert!(matches!(outcome, Err(TokenError::NoToken)));
}

#[test]
fn analyze_should_morphemalize() {
    // これはペンです。 as the tokenizer reports it, sentinels included.
    let nodes = vec![
        sentinel(),
        node("これ", &["名詞", "代名詞", "一般", "*", "*", "*", "これ", "コレ", "コレ"]),
        node("は", &["助詞", "係助詞", "*", "*", "*", "*", "は", "ハ", "ワ"]),
        node("ペン", &["名詞", "一般", "*", "*", "*", "*", "ペン", "ペン", "ペン"]),
        node("です", &["助動詞", "*", "*", "*", "特殊・デス", "基本形", "です", "デス", "デス"]),
        node("。", &["記号", "句点", "*", "*", "*", "*", "。", "。", "。"]),
        sentinel(),
    ];
    let retoks = no_retoks(nodes.len());
    let morphemes = analyze_sentence(&nodes, &retoks);
    let expected = [
        ("これ", "これ", "コレ"),
        ("は", "は", "ハ"),
        ("ペン", "ペン", "ペン"),
        ("です", "です", "デス"),
        ("。", "。", "。"),
    ];
    assert_eq!(morphemes.len(), expected.len());
    for (m, (surface, df, reading)) in morphemes.iter().zip(expected.iter()) {
        // should include 'morpheme', 'dictionary_form' and 'reading' fields
        assert_eq!(m.morpheme, *surface);
        assert_eq!(m.dictionary_form, *df);
        assert_eq!(m.reading, *reading);
        assert!(!m.morpheme.is_empty());
        assert!(!m.dictionary_form.is_empty());
        assert!(!m.reading.is_empty());
    }
}

#[test]
fn analyze_falls_back_to_surface_on_placeholder_dictionary_form() {
    // An out-of-dictionary token: the annotation slots hold "*".
    let nodes = vec![node("ガギグゲゴ", &["名詞", "一般", "*", "*", "*", "*", "*", "*", "*"])];
    let retoks = no_retoks(1);
    let morphemes = analyze_sentence(&nodes, &retoks);
    assert_eq!(morphemes.len(), 1);
    assert_eq!(morphemes[0].dictionary_form, "ガギグゲゴ");
}

#[test]
fn analyze_reads_placeholder_reading_from_retokenization() {
    // The reading slot is "*", so the caller re-tokenized the
    // dictionary form and the reading comes from that first node.
    let n = node("見", &["動詞", "自立", "*", "*", "一段", "連用形", "見る", "*", "*"]);
    assert!(needs_reading_lookup(&n));
    assert_eq!(dictionary_form_of(&n), "見る");
    let retok = vec![node("見る", &["動詞", "自立", "*", "*", "一段", "基本形", "見る", "ミル", "ミル"])];
    let morphemes = analyze_sentence(&vec![n], &vec![retok]);
    assert_eq!(morphemes.len(), 1);
    assert_eq!(morphemes[0].reading, "ミル");
}

#[test]
fn analyze_falls_back_to_dictionary_form_when_retokenization_is_silent() {
    // The reading slot is "*" and the re-tokenization also carries only
    // placeholders: the computed dictionary form stands in.
    let n = node("謎語", &["名詞", "一般", "*", "*", "*", "*", "謎語", "*", "*"]);
    let retok = vec![node("謎語", &["名詞", "一般", "*", "*", "*", "*", "*", "*", "*"])];
    let morphemes = analyze_sentence(&vec![n], &vec![retok]);
    assert_eq!(morphemes.len(), 1);
    assert_eq!(morphemes[0].reading, "謎語");
}

#[test]
fn retokenization_reading_skips_sentinels() {
    let nodes = vec![
        sentinel(),
        node("走る", &["動詞", "自立", "*", "*", "五段", "基本形", "走る", "ハシル", "ハシル"]),
    ];
    let reading = dictionary_form_to_reading(&nodes, "既定".to_string());
    assert_eq!(reading, "ハシル");
}

#[test]
fn retokenization_reading_defaults_when_empty() {
    let nodes: Vec<TokenNode> = vec![sentinel()];
    let reading = dictionary_form_to_reading(&nodes, "既定".to_string());
    assert_eq!(reading, "既定");
}

#[test]
fn analyze_keeps_token_order_and_features() {
    let nodes = vec![
        node("犬", &["名詞", "一般", "*", "*", "*", "*", "犬", "イヌ", "イヌ"]),
        node("猫", &["名詞", "一般", "*", "*", "*", "*", "猫", "ネコ", "ネコ"]),
    ];
    let morphemes = analyze_sentence(&nodes, &no_retoks(2));
    assert_eq!(morphemes.len(), 2);
    assert_eq!(morphemes[0].morpheme, "犬");
    assert_eq!(morphemes[1].morpheme, "猫");
    assert_eq!(morphemes[0].features.len(), 9);
    assert_eq!(morphemes[0].features[0], "名詞");
}
