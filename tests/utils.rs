use telegrand::utils::{escape, linkify, linkify_matched};

#[test]
fn escape_writes_markup_characters_as_entities() {
    assert_eq!(escape("<a href=\"x\">Tom & Jerry</a>"), "&lt;a href=\"x\"&gt;Tom &amp; Jerry&lt;/a&gt;");
    assert_eq!(escape("&lt;"), "&amp;lt;");
    assert_eq!(escape("plain text"), "plain text");
    assert_eq!(escape(""), "");
}

#[test]
fn linkify_adds_a_protocol_where_none_is_given() {
    assert_eq!(linkify("example.com"), "http://example.com");
    assert_eq!(linkify("www.example.com/a://b"), "http://www.example.com/a://b");
    assert_eq!(linkify("://example.com"), "http://://example.com");
}

#[test]
fn linkify_keeps_a_given_protocol() {
    assert_eq!(linkify("https://example.com"), "https://example.com");
    assert_eq!(linkify("ftp://files.example.com"), "ftp://files.example.com");
    assert_eq!(linkify("tg://resolve?domain=x"), "tg://resolve?domain=x");
}

#[test]
fn linkify_matched_follows_the_match() {
    assert_eq!(linkify_matched("a.b", false), "http://a.b");
    assert_eq!(linkify_matched("a.b", true), "a.b");
}

#[test]
fn text_content_is_shown_as_it_is() {
    let content = telegrand::message::MessageContent::Text("hello <b>".to_string());
    assert_eq!(telegrand::utils::stringify_message_content(&content, true, "Unsupported message"), "hello <b>");
    assert_eq!(telegrand::utils::stringify_message_content(&content, false, "Unsupported message"), "hello <b>");
}

#[test]
fn other_content_is_shown_by_its_label() {
    let content = telegrand::message::MessageContent::Sticker;
    assert_eq!(
        telegrand::utils::stringify_message_content(&content, true, "Unsupported message"),
        "<i>Unsupported message</i>"
    );
    assert_eq!(
        telegrand::utils::stringify_message_content(&content, false, "Unsupported message"),
        "Unsupported message"
    );
}
