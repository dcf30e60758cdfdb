use fund_helper::errors::Error;
use fund_helper::frame::extract_frame;
use fund_helper::normalizer::transfer_js_to_json;

#[test]
fn frame_strips_prefix_and_terminator() {
    let body = extract_frame("var apidata={a:1};", "var apidata=", "ctx").unwrap();
    assert_eq!(body, "{a:1}");
}

#[test]
fn frame_finds_first_occurrence() {
    let body = extract_frame("xx var r = [1];", "var r = ", "ctx").unwrap();
    assert_eq!(body, "[1]");
}

#[test]
fn missing_prefix_names_the_prefix() {
    match extract_frame("var r=[];", "var r = ", "the context") {
        Err(Error::PrefixMismatch {
            expected_prefix,
            context,
        }) => {
            assert_eq!(expected_prefix, "var r = ");
            assert_eq!(context, "the context");
        }
        _ => panic!("the prefix is absent, so extraction must fail naming it"),
    }
}

#[test]
fn prefix_with_nothing_after_it_is_malformed() {
    match extract_frame("var apidata=", "var apidata=", "ctx") {
        Err(Error::MalformedPayload { context }) => assert_eq!(context, "ctx"),
        _ => panic!("nothing but the terminator follows the prefix"),
    }
}

#[test]
fn normalizer_quotes_each_listed_key() {
    let keys = vec!["content", "records", "pages", "curpage"];
    let out = transfer_js_to_json(
        String::from(r#"{ content:"a",records:2102,pages:211,curpage:1}"#),
        keys,
    );
    assert_eq!(out, r#"{ "content":"a","records":2102,"pages":211,"curpage":1}"#);
}

#[test]
fn normalizer_leaves_other_text_alone() {
    let keys = vec!["records"];
    let out = transfer_js_to_json(String::from(r#"{"name":"records","n":1}"#), keys);
    assert_eq!(out, r#"{"name":"records","n":1}"#);
}

#[test]
fn normalizer_is_idempotent_on_concrete_payload() {
    let text = String::from(r#"{ content:"<td>records:</td>",records:2102,pages:211,curpage:1}"#);
    let once = transfer_js_to_json(text, vec!["content", "records", "pages", "curpage"]);
    let twice = transfer_js_to_json(once.clone(), vec!["content", "records", "pages", "curpage"]);
    assert_eq!(twice, once);
}

#[test]
fn normalizer_rewrites_mid_text_occurrences() {
    let keys = vec!["pages"];
    let out = transfer_js_to_json(String::from("xpages:1 pages:2"), keys);
    assert_eq!(out, "x\"pages\":1 \"pages\":2");
}
