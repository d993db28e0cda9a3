use rustfox::highlight::{prettify_summary, tokenize_json};

fn tokens(text: &str) -> Vec<(String, &'static str)> {
    tokenize_json(text).into_iter().map(|n| (n.text, n.cls)).collect()
}

fn t(text: &str, cls: &'static str) -> (String, &'static str) {
    (text.to_string(), cls)
}

#[test]
fn keys_strings_numbers_and_words() {
    assert_eq!(
        tokens("{\"a\": 1, \"b\": \"x\"}"),
        vec![
            t("{", "hl-p"),
            t("\"a\"", "hl-k"),
            t(":", "hl-p"),
            t(" ", ""),
            t("1", "hl-n"),
            t(",", "hl-p"),
            t(" ", ""),
            t("\"b\"", "hl-k"),
            t(":", "hl-p"),
            t(" ", ""),
            t("\"x\"", "hl-s"),
            t("}", "hl-p"),
        ]
    );
}

#[test]
fn word_token_takes_the_character_that_ends_it() {
    assert_eq!(
        tokens("[null,\"x\",-2.5e3]"),
        vec![t("[", "hl-p"), t("null", "hl-b"), t("\"x\"", "hl-s"), t(",", "hl-p"), t("-2.5e3", "hl-n"), t("]", "hl-p")]
    );
    assert_eq!(tokens("{\"b\": true}").last().unwrap(), &t("true", "hl-b"));
    assert_eq!(tokens("nope"), vec![t("nope", "")]);
}

#[test]
fn escapes_and_unterminated_strings() {
    assert_eq!(tokens("\"a\\\"b\""), vec![t("\"a\\\"b\"", "hl-s")]);
    assert_eq!(tokens("\"open"), vec![t("\"open", "hl-s")]);
    assert_eq!(tokens("\"k\" \n:"), vec![t("\"k\"", "hl-k"), t(" ", ""), t("\n", ""), t(":", "hl-p")]);
    assert!(tokens("").is_empty());
    assert_eq!(tokens("@"), vec![t("@", "")]);
}

#[test]
fn summaries_pretty_printed_when_json() {
    assert_eq!(prettify_summary("{\"a\":1,\"b\":[true]}"), "{\n  \"a\": 1,\n  \"b\": [\n    true\n  ]\n}");
    assert_eq!(prettify_summary("not json"), "not json");
    assert_eq!(prettify_summary(""), "");
}
