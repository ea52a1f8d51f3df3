use std::io::IsTerminal;
use syntect::easy::HighlightLines;
use syntect::highlighting::ThemeSet;
use syntect::parsing::SyntaxSet;
use syntect::util::{as_24_bit_terminal_escaped, LinesWithEndings};
use vstd::prelude::*;

use crate::text::{chars_of, first_index_of, split_pieces, string_of, trim, trim_range, find_char};

verus! {

/// The media type of a `Content-Type` value: the text before the first `;`,
/// trimmed.
pub open spec fn media_type(content_type: Seq<char>) -> Seq<char> {
    trim(split_pieces(content_type, ';')[0])
}

/// The syntax that a media type is highlighted with, if any.
pub open spec fn syntax_for(media: Seq<char>) -> Option<Seq<char>> {
    if media == "application/json"@ {
        Some("json"@)
    } else if media == "text/html"@ {
        Some("html"@)
    } else if media == "application/xml"@ || media == "text/xml"@ {
        Some("xml"@)
    } else {
        None
    }
}

/// The syntax to highlight a response body of `content_type` with: JSON, HTML
/// or XML.
pub fn content_type_to_syntax(content_type: &str) -> (r: Option<&'static str>)
    ensures
        match r {
            Some(t) => syntax_for(media_type(content_type@)) == Some(t@),
            None => syntax_for(media_type(content_type@)) is None,
        },
{
    let cs = chars_of(content_type);
    let n = cs.len();
    let end = match find_char(&cs, ';') {
        Some(k) => {
            proof {
                crate::text::lemma_split_at_first(cs@, ';', k as int);
                assert(cs@.take(k as int) =~= cs@.subrange(0, k as int));
            }
            k
        },
        None => {
            proof {
                crate::text::lemma_split_none(cs@, ';');
                assert(cs@ =~= cs@.subrange(0, n as int));
            }
            n
        },
    };
    let (a, b) = trim_range(&cs, 0, end);
    let media = string_of(&cs, a, b);
    assert(media@ == media_type(content_type@));
    if crate::text::str_eq(media.as_str(), "application/json") {
        Some("json")
    } else if crate::text::str_eq(media.as_str(), "text/html") {
        Some("html")
    } else if crate::text::str_eq(media.as_str(), "application/xml") || crate::text::str_eq(
        media.as_str(),
        "text/xml",
    ) {
        Some("xml")
    } else {
        None
    }
}

/// `std::io::stdout().is_terminal()`. It depends on how the program was
/// started; nothing is claimed of it.
#[verifier::external_body]
fn stdout_is_terminal() -> (r: bool) {
    std::io::stdout().is_terminal()
}

/// What syntect makes of `body` highlighted as the syntax with token `token`,
/// in the `base16-ocean.dark` theme, as 24-bit terminal escapes: `None` when
/// the default syntaxes have no such token or a line fails to highlight.
pub uninterp spec fn syntect_highlight(token: Seq<char>, body: Seq<char>) -> Option<Seq<char>>;

/// Highlights `body` line by line with syntect's default syntaxes and themes.
/// Trusted: the outcome is taken to depend on `token` and `body` alone, and is
/// named `syntect_highlight`; nothing more is claimed of it.
#[verifier::external_body]
fn highlight_with_syntect(token: &str, body: &str) -> (r: Option<String>)
    ensures
        match r {
            Some(s) => syntect_highlight(token@, body@) == Some(s@),
            None => syntect_highlight(token@, body@) is None,
        },
{
    let ss = SyntaxSet::load_defaults_newlines();
    let ts = ThemeSet::load_defaults();
    let syntax = ss.find_syntax_by_token(token)?;
    let mut highlighter = HighlightLines::new(syntax, &ts.themes["base16-ocean.dark"]);
    let mut output = String::new();
    for line in LinesWithEndings::from(body) {
        let ranges = highlighter.highlight_line(line, &ss).ok()?;
        output.push_str(&as_24_bit_terminal_escaped(&ranges[..], false));
    }
    Some(output)
}

/// What a highlighted body reads as, once colours are reset at its end.
pub open spec fn highlighted_text(content_type: Seq<char>, body: Seq<char>) -> Option<Seq<char>> {
    match syntax_for(media_type(content_type)) {
        Some(token) => match syntect_highlight(token, body) {
            Some(h) => Some(h + "\x1b[0m"@),
            None => None,
        },
        None => None,
    }
}

/// What is printed for a response body: highlighted when colours are wanted,
/// standard output is a terminal, the body is not empty and highlighting
/// succeeds; else the body as it is.
pub open spec fn highlight_outcome(
    content_type: Seq<char>,
    body: Seq<char>,
    no_color: bool,
    is_terminal: bool,
) -> Seq<char> {
    if !no_color && is_terminal && body.len() > 0 {
        match highlighted_text(content_type, body) {
            Some(h) => h,
            None => body,
        }
    } else {
        body
    }
}

/// A response body highlighted for printing, given whether standard output is
/// a terminal.
pub fn highlight_for(content_type: &str, body: &str, no_color: bool, is_terminal: bool) -> (r:
    String)
    ensures
        r@ == highlight_outcome(content_type@, body@, no_color, is_terminal),
{
    if no_color || !is_terminal || body.is_empty() {
        return String::from_str(body);
    }
    let token = match content_type_to_syntax(content_type) {
        Some(t) => t,
        None => {
            return String::from_str(body);
        },
    };
    match highlight_with_syntect(token, body) {
        Some(mut out) => {
            out.append("\x1b[0m");
            out
        },
        None => String::from_str(body),
    }
}

/// A response body with syntax highlighting when standard output is a
/// terminal, colours are wanted and the content type is known; otherwise the
/// body as it is.
pub fn highlight_body(content_type: &str, body: &str, no_color: bool) -> (r: String)
    ensures
        r@ == highlight_outcome(content_type@, body@, no_color, true) || r@ == highlight_outcome(
            content_type@,
            body@,
            no_color,
            false,
        ),
{
    highlight_for(content_type, body, no_color, stdout_is_terminal())
}

} // verus!
