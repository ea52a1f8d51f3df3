use owo_colors::{OwoColorize, Stream};
use vstd::prelude::*;

verus! {

/// The ways in which text is painted on the terminal.
pub enum Paint {
    Accent,
    Green,
    Yellow,
    Red,
    Bold,
    Dim,
}

/// `s` wrapped in the escape codes of `paint`.
pub open spec fn painted(paint: Paint, s: Seq<char>) -> Seq<char> {
    match paint {
        Paint::Accent => "\x1b[35m"@ + s + "\x1b[39m"@,
        Paint::Green => "\x1b[32m"@ + s + "\x1b[39m"@,
        Paint::Yellow => "\x1b[33m"@ + s + "\x1b[39m"@,
        Paint::Red => "\x1b[31m"@ + s + "\x1b[39m"@,
        Paint::Bold => "\x1b[1m"@ + s + "\x1b[0m"@,
        Paint::Dim => "\x1b[2m"@ + s + "\x1b[0m"@,
    }
}

/// How `s` is shown with `paint`: painted when colours are on, as it is
/// otherwise.
pub open spec fn show(paint: Paint, s: Seq<char>, colors: bool) -> Seq<char> {
    if colors {
        painted(paint, s)
    } else {
        s
    }
}

/// Whether owo-colors would paint text written to standard output, asked
/// through `if_supports_color` on a probe. The answer comes from the terminal
/// and the environment (`NO_COLOR`, `FORCE_COLOR` and the like); nothing is
/// claimed of it.
#[verifier::external_body]
fn stdout_takes_colors() -> (r: bool) {
    "x".if_supports_color(Stream::Stdout, |x| x.red()).to_string() != "x"
}

/// Decides once for the run whether output is painted: never with
/// `no_color`, else when standard output takes colours.
pub fn init(no_color: bool) -> (r: bool)
    ensures
        no_color ==> !r,
{
    !no_color && stdout_takes_colors()
}

/// `OwoColorize::magenta`, written out: `s` between the escape codes of
/// magenta and of the default colour.
#[verifier::external_body]
fn magenta_text(s: &str) -> (r: String)
    ensures
        r@ == painted(Paint::Accent, s@),
{
    s.magenta().to_string()
}

/// `OwoColorize::green`, written out.
#[verifier::external_body]
fn green_text(s: &str) -> (r: String)
    ensures
        r@ == painted(Paint::Green, s@),
{
    s.green().to_string()
}

/// `OwoColorize::yellow`, written out.
#[verifier::external_body]
fn yellow_text(s: &str) -> (r: String)
    ensures
        r@ == painted(Paint::Yellow, s@),
{
    s.yellow().to_string()
}

/// `OwoColorize::red`, written out.
#[verifier::external_body]
fn red_text(s: &str) -> (r: String)
    ensures
        r@ == painted(Paint::Red, s@),
{
    s.red().to_string()
}

/// `OwoColorize::bold`, written out: `s` between the escape codes of bold
/// and of a full reset.
#[verifier::external_body]
fn bold_text(s: &str) -> (r: String)
    ensures
        r@ == painted(Paint::Bold, s@),
{
    s.bold().to_string()
}

/// `OwoColorize::dimmed`, written out.
#[verifier::external_body]
fn dimmed_text(s: &str) -> (r: String)
    ensures
        r@ == painted(Paint::Dim, s@),
{
    s.dimmed().to_string()
}

/// `s` in magenta when colours are on.
pub fn accent(s: &str, colors: bool) -> (r: String)
    ensures
        r@ == show(Paint::Accent, s@, colors),
{
    if colors {
        magenta_text(s)
    } else {
        String::from_str(s)
    }
}

/// `s` in green when colours are on.
pub fn green(s: &str, colors: bool) -> (r: String)
    ensures
        r@ == show(Paint::Green, s@, colors),
{
    if colors {
        green_text(s)
    } else {
        String::from_str(s)
    }
}

/// `s` in yellow when colours are on.
pub fn yellow(s: &str, colors: bool) -> (r: String)
    ensures
        r@ == show(Paint::Yellow, s@, colors),
{
    if colors {
        yellow_text(s)
    } else {
        String::from_str(s)
    }
}

/// `s` in red when colours are on.
pub fn red(s: &str, colors: bool) -> (r: String)
    ensures
        r@ == show(Paint::Red, s@, colors),
{
    if colors {
        red_text(s)
    } else {
        String::from_str(s)
    }
}

/// `s` in bold when colours are on.
pub fn bold(s: &str, colors: bool) -> (r: String)
    ensures
        r@ == show(Paint::Bold, s@, colors),
{
    if colors {
        bold_text(s)
    } else {
        String::from_str(s)
    }
}

/// `s` dimmed when colours are on.
pub fn dim(s: &str, colors: bool) -> (r: String)
    ensures
        r@ == show(Paint::Dim, s@, colors),
{
    if colors {
        dimmed_text(s)
    } else {
        String::from_str(s)
    }
}

} // verus!
