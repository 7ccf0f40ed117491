use muxing::options::{parse_opts, DEFAULT_X264_OPTS};

fn pairs(list: &[(&str, &str)]) -> Option<Vec<(String, String)>> {
    Some(list.iter().map(|(k, v)| (k.to_string(), v.to_string())).collect())
}

fn parse(s: &str) -> Option<Vec<(String, String)>> {
    parse_opts(s.to_string())
}

#[test]
fn default_options_parse() {
    assert_eq!(
        parse(DEFAULT_X264_OPTS),
        pairs(&[("preset", "veryslow"), ("crf", "18"), ("vpre", "fast")])
    );
}

#[test]
fn empty_options_are_no_pairs() {
    assert_eq!(parse(""), pairs(&[]));
}

#[test]
fn one_comma_may_close_the_options() {
    assert_eq!(parse("a=b,"), pairs(&[("a", "b")]));
    assert_eq!(parse("a=b,,"), None);
    assert_eq!(parse(","), None);
    assert_eq!(parse(",a=b"), None);
}

#[test]
fn items_need_one_equals_sign() {
    assert_eq!(parse("preset"), None);
    assert_eq!(parse("a=b=c"), None);
    assert_eq!(parse("a=b,c"), None);
    assert_eq!(parse("a=b,c==d"), None);
}

#[test]
fn keys_and_values_may_be_empty_or_repeat() {
    assert_eq!(parse("="), pairs(&[("", "")]));
    assert_eq!(parse("a=,=b"), pairs(&[("a", ""), ("", "b")]));
    assert_eq!(parse("a=1,a=2"), pairs(&[("a", "1"), ("a", "2")]));
    assert_eq!(parse(" a = b "), pairs(&[(" a ", " b ")]));
}

#[test]
fn wide_characters_are_kept() {
    assert_eq!(
        parse("schl\u{fc}ssel=\u{1f600},\u{4f60}=\u{597d}"),
        pairs(&[("schl\u{fc}ssel", "\u{1f600}"), ("\u{4f60}", "\u{597d}")])
    );
}

#[test]
fn written_pairs_read_back() {
    let list = [("x", "1"), ("", ""), ("y z", "two"), ("\u{e9}", "")];
    let text: Vec<String> = list.iter().map(|(k, v)| format!("{}={}", k, v)).collect();
    assert_eq!(parse(&text.join(",")), pairs(&list));
}

#[test]
fn option_texts_can_be_put_together() {
    assert_eq!(parse("a=1,b=2"), pairs(&[("a", "1"), ("b", "2")]));
    assert_eq!(parse("a=1,b"), None);
    assert_eq!(parse("a,b=2"), None);
}
