use vstd::prelude::*;
use vstd::string::StrSliceExecFns;
use vstd::string::StringExecFns;

use crate::message::MessageContent;

verus! {

/// `s` with every occurrence of `c` replaced by `by`.
pub open spec fn replaced(s: Seq<char>, c: char, by: Seq<char>) -> Seq<char>
    decreases s.len(),
{
    if s.len() == 0 {
        Seq::empty()
    } else {
        let head = if s[0] == c {
            by
        } else {
            seq![s[0]]
        };
        head + replaced(s.drop_first(), c, by)
    }
}

/// `s` with the markup characters `&`, `<` and `>` written as entities.
pub open spec fn escaped(s: Seq<char>) -> Seq<char> {
    replaced(replaced(replaced(s, '&', "&amp;"@), '<', "&lt;"@), '>', "&gt;"@)
}

/// The pattern that recognises a text starting with a protocol (`https://`).
pub const PROTOCOL_PATTERN: &'static str = "^\\w+://";

/// Whether the regular expression `pattern` matches somewhere in `text`, or
/// `None` when `pattern` is not a valid regular expression.
pub uninterp spec fn regex_match(pattern: Seq<char>, text: Seq<char>) -> Option<bool>;

/// Relies on `str::replace` with a `char` pattern: it returns a new string in
/// which every occurrence of `from` is replaced by `to`.
#[verifier::external_body]
fn replace_char(s: &str, from: char, to: &str) -> (r: String)
    ensures
        r@ == replaced(s@, from, to@),
{
    s.replace(from, to)
}

/// Relies on `regex::Regex::new`, which compiles `pattern` or returns an error,
/// and `regex::Regex::is_match`, which tells whether the compiled expression
/// matches somewhere in `text`.
#[verifier::external_body]
fn regex_is_match(pattern: &str, text: &str) -> (r: Option<bool>)
    ensures
        r == regex_match(pattern@, text@),
{
    match regex::Regex::new(pattern) {
        Ok(re) => Some(re.is_match(text)),
        Err(_) => None,
    }
}

/// Escapes `&`, `<` and `>` so that `text` can be shown as markup.
pub fn escape(text: &str) -> (r: String)
    ensures
        r@ == escaped(text@),
{
    let amp = replace_char(text, '&', "&amp;");
    let lt = replace_char(amp.as_str(), '<', "&lt;");
    replace_char(lt.as_str(), '>', "&gt;")
}

/// The link for `text`, given whether `text` already starts with a protocol:
/// `text` itself if it does, else `text` behind `http://`.
pub fn linkify_matched(text: &str, has_protocol: bool) -> (r: String)
    ensures
        r@ == (if has_protocol {
            text@
        } else {
            "http://"@ + text@
        }),
{
    if has_protocol {
        String::from_str(text)
    } else {
        let mut link = String::from_str("http://");
        link.append(text);
        link
    }
}

/// Turns `text` into a link: a text that does not start with a protocol gets
/// `http://` in front of it.
pub fn linkify(text: &str) -> (r: String)
    ensures
        r@ == (if regex_match(PROTOCOL_PATTERN@, text@) == Some(true) {
            text@
        } else {
            "http://"@ + text@
        }),
{
    let matched = regex_is_match(PROTOCOL_PATTERN, text);
    let has_protocol = match matched {
        Some(m) => m,
        None => false,
    };
    linkify_matched(text, has_protocol)
}

/// The text shown for a message's content: the text of a text message;
/// otherwise `unsupported` (the label for content that cannot be shown, in
/// the user's language), in italics when `use_markup` is set.
pub fn stringify_message_content(content: &MessageContent, use_markup: bool, unsupported: &str) -> (r:
    String)
    ensures
        r@ == (match *content {
            MessageContent::Text(t) => t@,
            _ => if use_markup {
                "<i>"@ + unsupported@ + "</i>"@
            } else {
                unsupported@
            },
        }),
{
    match content {
        MessageContent::Text(t) => t.clone(),
        _ => {
            if use_markup {
                let mut text = String::from_str("<i>");
                text.append(unsupported);
                text.append("</i>");
                text
            } else {
                String::from_str(unsupported)
            }
        },
    }
}

} // verus!
