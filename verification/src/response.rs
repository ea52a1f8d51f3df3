use vstd::prelude::*;

use crate::curl::{pair_views, sort_by_name, sorted_by_name};
use crate::text::{decimal, push_decimal};
use crate::listing::{name_column_width, pad_right, padded, widest};
use crate::style::{accent, bold, dim, green, red, show, yellow, Paint};
use crate::text::{chars_of, push_char};

verus! {

/// How a response status is shown.
#[derive(PartialEq, Eq, Debug, Clone, Copy)]
pub enum StatusTone {
    /// 2xx: a green tick.
    Success,
    /// 3xx: a yellow exclamation mark.
    Redirect,
    /// Anything else: a red cross.
    Failure,
}

/// The tone of the status `code`.
pub open spec fn tone_of(code: u16) -> StatusTone {
    if 200 <= code && code <= 299 {
        StatusTone::Success
    } else if 300 <= code && code <= 399 {
        StatusTone::Redirect
    } else {
        StatusTone::Failure
    }
}

/// Classifies a response status code.
pub fn status_tone(code: u16) -> (r: StatusTone)
    ensures
        r == tone_of(code),
{
    if 200 <= code && code <= 299 {
        StatusTone::Success
    } else if 300 <= code && code <= 399 {
        StatusTone::Redirect
    } else {
        StatusTone::Failure
    }
}

/// The paint and glyph of a tone.
pub open spec fn tone_paint(tone: StatusTone) -> Paint {
    match tone {
        StatusTone::Success => Paint::Green,
        StatusTone::Redirect => Paint::Yellow,
        StatusTone::Failure => Paint::Red,
    }
}

pub open spec fn tone_glyph(tone: StatusTone) -> Seq<char> {
    match tone {
        StatusTone::Success => "✓"@,
        StatusTone::Redirect => "!"@,
        StatusTone::Failure => "✗"@,
    }
}

/// The status line of verbose output.
pub open spec fn status_line_text(
    glyph: Seq<char>,
    status: Seq<char>,
    elapsed: Seq<char>,
    size: Seq<char>,
) -> Seq<char> {
    glyph + " "@ + status + "   "@ + elapsed + "   "@ + size
}

/// The status line for a response of status `code` shown as `status`,
/// taking `elapsed` and of `size`.
pub open spec fn status_line_of(
    code: u16,
    status: Seq<char>,
    elapsed: Seq<char>,
    size: Seq<char>,
    colors: bool,
) -> Seq<char> {
    status_line_text(
        show(tone_paint(tone_of(code)), tone_glyph(tone_of(code)), colors),
        show(tone_paint(tone_of(code)), status, colors),
        show(Paint::Dim, elapsed, colors),
        show(Paint::Dim, size, colors),
    )
}

/// Paints `s` in the colour of `tone`.
fn paint_tone(tone: StatusTone, s: &str, colors: bool) -> (r: String)
    ensures
        r@ == show(tone_paint(tone), s@, colors),
{
    match tone {
        StatusTone::Success => green(s, colors),
        StatusTone::Redirect => yellow(s, colors),
        StatusTone::Failure => red(s, colors),
    }
}

/// The status line of verbose output: glyph and status in the colour of the
/// status, then the elapsed time and the size, dimmed.
pub fn status_line(code: u16, status: &str, elapsed: &str, size: &str, colors: bool) -> (r:
    String)
    ensures
        r@ == status_line_of(code, status@, elapsed@, size@, colors),
{
    let tone = status_tone(code);
    let glyph = match tone {
        StatusTone::Success => paint_tone(tone, "✓", colors),
        StatusTone::Redirect => paint_tone(tone, "!", colors),
        StatusTone::Failure => paint_tone(tone, "✗", colors),
    };
    let painted = paint_tone(tone, status, colors);
    let e = dim(elapsed, colors);
    let z = dim(size, colors);
    let mut r = glyph.clone();
    r.append(" ");
    r.append(painted.as_str());
    r.append("   ");
    r.append(e.as_str());
    r.append("   ");
    r.append(z.as_str());
    assert(r@ == status_line_text(glyph@, painted@, e@, z@));
    r
}

/// The request line of verbose output.
pub open spec fn request_line_text(arrow: Seq<char>, method: Seq<char>, url: Seq<char>) -> Seq<char> {
    arrow + " "@ + method + "  "@ + url
}

/// The request line for `method` and `url`: an arrow, the method in bold
/// and the URL dimmed.
pub open spec fn request_line_of(method: Seq<char>, url: Seq<char>, colors: bool) -> Seq<char> {
    request_line_text(
        show(Paint::Accent, "→"@, colors),
        show(Paint::Bold, method, colors),
        show(Paint::Dim, url, colors),
    )
}

/// The request line of verbose output: an arrow, the method in bold and the
/// final URL dimmed.
pub fn request_line(method: &str, url: &str, colors: bool) -> (r: String)
    ensures
        r@ == request_line_of(method@, url@, colors),
{
    let a = accent("→", colors);
    let m = bold(method, colors);
    let u = dim(url, colors);
    let mut r = a.clone();
    r.append(" ");
    r.append(m.as_str());
    r.append("  ");
    r.append(u.as_str());
    assert(r@ == request_line_text(a@, m@, u@));
    r
}

/// The width of the rule that opens a section of verbose output.
pub const RULE_WIDTH: usize = 50;

/// `n` copies of `c`.
pub open spec fn repeated(c: char, n: nat) -> Seq<char>
    decreases n,
{
    if n == 0 {
        Seq::empty()
    } else {
        repeated(c, (n - 1) as nat).push(c)
    }
}

/// The rule that opens a section: `── label ` and dashes up to
/// `RULE_WIDTH` characters.
pub open spec fn rule_text(label: Seq<char>) -> Seq<char> {
    let prefix = "── "@ + label + " "@;
    prefix + repeated(
        '─',
        if prefix.len() < RULE_WIDTH {
            (RULE_WIDTH - prefix.len()) as nat
        } else {
            0
        },
    )
}

/// The rule that opens the section `label`, dimmed.
pub fn section_rule(label: &str, colors: bool) -> (r: String)
    ensures
        r@ == show(Paint::Dim, rule_text(label@), colors),
{
    let mut prefix = String::from_str("── ");
    prefix.append(label);
    prefix.append(" ");
    let count = chars_of(prefix.as_str()).len();
    let dashes: usize = if count < RULE_WIDTH {
        RULE_WIDTH - count
    } else {
        0
    };
    let mut line = prefix;
    let ghost start = line@;
    let mut k: usize = 0;
    while k < dashes
        invariant
            k <= dashes,
            line@ == start + repeated('─', k as nat),
        decreases dashes - k,
    {
        push_char(&mut line, '─');
        k = k + 1;
    }
    assert(line@ == rule_text(label@));
    dim(line.as_str(), colors)
}

/// A header line of the response: its name dimmed and padded, then its value.
pub open spec fn header_line_text(cell: Seq<char>, value: Seq<char>) -> Seq<char> {
    cell + "  "@ + value
}

/// The line of the header `h` in a list whose names are padded to `width`
/// characters.
pub open spec fn header_line_of(h: (Seq<char>, Seq<char>), width: nat, colors: bool) -> Seq<char> {
    header_line_text(show(Paint::Dim, padded(h.0, width), colors), h.1)
}

/// The lines that list `headers` in verbose output: sorted by name (stably),
/// each name padded to the longest name and dimmed, then the value.
pub open spec fn header_lines_of(headers: Seq<(Seq<char>, Seq<char>)>, colors: bool) -> Seq<
    Seq<char>,
> {
    sort_by_name(headers).map_values(
        |h: (Seq<char>, Seq<char>)| header_line_of(h, widest(sort_by_name(headers)), colors),
    )
}

/// The lines that list response headers: sorted by name (stably), each name
/// padded to the longest name, dimmed, and followed by the value.
pub fn header_lines(entries: &Vec<(String, String)>, colors: bool) -> (r: Vec<String>)
    ensures
        r@.map_values(|l: String| l@) == header_lines_of(pair_views(entries@), colors),
{
    let sorted = sorted_by_name(entries);
    let width = name_column_width(&sorted);
    let ghost sv = pair_views(sorted@);
    let ghost want = header_lines_of(pair_views(entries@), colors);
    let mut lines: Vec<String> = Vec::new();
    let mut i: usize = 0;
    while i < sorted.len()
        invariant
            i <= sorted@.len(),
            sv == pair_views(sorted@),
            sv == sort_by_name(pair_views(entries@)),
            width == widest(sv),
            want == header_lines_of(pair_views(entries@), colors),
            lines@.map_values(|l: String| l@) == want.take(i as int),
        decreases sorted@.len() - i,
    {
        let padded_name = pad_right(sorted[i].0.as_str(), width);
        let cell = dim(padded_name.as_str(), colors);
        let mut line = cell.clone();
        line.append("  ");
        line.append(sorted[i].1.as_str());
        assert(sv[i as int] == (sorted@[i as int].0@, sorted@[i as int].1@));
        assert(line@ == header_line_of(sv[i as int], width as nat, colors));
        let ghost prev = lines@;
        lines.push(line);
        assert(lines@.map_values(|l: String| l@) =~= prev.map_values(|l: String| l@).push(line@));
        assert(want.take(i + 1) =~= want.take(i as int).push(want[i as int]));
        i = i + 1;
    }
    assert(want.take(sorted@.len() as int) =~= want);
    lines
}

/// Lines, each followed by a newline.
pub open spec fn lines_text(lines: Seq<Seq<char>>) -> Seq<char>
    decreases lines.len(),
{
    if lines.len() == 0 {
        Seq::empty()
    } else {
        lines_text(lines.drop_last()) + lines.last() + "\n"@
    }
}

/// The `--headers` line of a header: `name: value`.
pub open spec fn plain_header_text(h: (Seq<char>, Seq<char>)) -> Seq<char> {
    h.0 + ": "@ + h.1
}

/// The `--headers` output: one `name: value` line per header, in the order
/// in which the response gave them.
pub open spec fn plain_headers_text(headers: Seq<(Seq<char>, Seq<char>)>) -> Seq<char> {
    lines_text(headers.map_values(|h: (Seq<char>, Seq<char>)| plain_header_text(h)))
}

/// The headers as `--headers` prints them.
pub fn plain_header_block(entries: &Vec<(String, String)>) -> (r: String)
    ensures
        r@ == plain_headers_text(pair_views(entries@)),
{
    let ghost all = pair_views(entries@);
    let ghost lines = all.map_values(|h: (Seq<char>, Seq<char>)| plain_header_text(h));
    let mut r = String::new();
    let mut i: usize = 0;
    while i < entries.len()
        invariant
            i <= entries@.len(),
            all == pair_views(entries@),
            lines == all.map_values(|h: (Seq<char>, Seq<char>)| plain_header_text(h)),
            r@ == lines_text(lines.take(i as int)),
        decreases entries@.len() - i,
    {
        assert(lines.take(i + 1).drop_last() =~= lines.take(i as int));
        assert(lines.take(i + 1).last() == entries@[i as int].0@ + ": "@ + entries@[i as int].1@);
        r.append(entries[i].0.as_str());
        r.append(": ");
        r.append(entries[i].1.as_str());
        r.append("\n");
        i = i + 1;
    }
    assert(lines.take(entries@.len() as int) =~= lines);
    r
}

/// The headers as verbose output lists them: the lines of `header_lines`,
/// each followed by a newline.
pub fn header_block(entries: &Vec<(String, String)>, colors: bool) -> (r: String)
    ensures
        r@ == lines_text(header_lines_of(pair_views(entries@), colors)),
{
    let lines = header_lines(entries, colors);
    let ghost views = lines@.map_values(|l: String| l@);
    let mut r = String::new();
    let mut i: usize = 0;
    while i < lines.len()
        invariant
            i <= lines@.len(),
            views == lines@.map_values(|l: String| l@),
            r@ == lines_text(views.take(i as int)),
        decreases lines@.len() - i,
    {
        assert(views.take(i + 1).drop_last() =~= views.take(i as int));
        r.append(lines[i].as_str());
        r.append("\n");
        i = i + 1;
    }
    assert(views.take(lines@.len() as int) =~= views);
    r
}

/// Verbose output: the request line, the status line, a blank line, the
/// headers section, a blank line and the body section.
pub open spec fn verbose_text(
    request: Seq<char>,
    status: Seq<char>,
    headers_rule: Seq<char>,
    headers: Seq<char>,
    body_rule: Seq<char>,
    body: Seq<char>,
) -> Seq<char> {
    request + "\n"@ + status + "\n\n"@ + headers_rule + "\n"@ + headers + "\n"@ + body_rule + "\n"@
        + body
}

/// What a response prints: only the status code with `--status` (which wins
/// over the other modes), else the verbose report with `--verbose`, else the
/// headers with `--headers`, else the body as highlighted.
pub open spec fn response_output(
    status_only: bool,
    verbose: bool,
    headers_only: bool,
    code: u16,
    status_text: Seq<char>,
    method: Seq<char>,
    url: Seq<char>,
    elapsed: Seq<char>,
    size: Seq<char>,
    headers: Seq<(Seq<char>, Seq<char>)>,
    highlighted: Seq<char>,
    colors: bool,
) -> Seq<char> {
    if status_only {
        decimal(code as nat) + "\n"@
    } else if verbose {
        verbose_text(
            request_line_of(method, url, colors),
            status_line_of(code, status_text, elapsed, size, colors),
            show(Paint::Dim, rule_text("headers"@), colors),
            lines_text(header_lines_of(headers, colors)),
            show(Paint::Dim, rule_text("body"@), colors),
            highlighted,
        )
    } else if headers_only {
        plain_headers_text(headers)
    } else {
        highlighted
    }
}

/// Everything that a response prints on standard output, given its parts:
/// the status code and its text, the method and final URL, the elapsed time
/// and size as printed, the headers, and the body as highlighted.
pub fn response_text(
    status_only: bool,
    verbose: bool,
    headers_only: bool,
    code: u16,
    status_text: &str,
    method: &str,
    url: &str,
    elapsed: &str,
    size: &str,
    headers: &Vec<(String, String)>,
    highlighted: &str,
    colors: bool,
) -> (r: String)
    ensures
        r@ == response_output(
            status_only,
            verbose,
            headers_only,
            code,
            status_text@,
            method@,
            url@,
            elapsed@,
            size@,
            pair_views(headers@),
            highlighted@,
            colors,
        ),
{
    if status_only {
        let mut r = String::new();
        push_decimal(&mut r, code as u128);
        push_char(&mut r, '\n');
        proof {
            reveal_strlit("\n");
        }
        assert(r@ =~= decimal(code as nat) + "\n"@);
        r
    } else if verbose {
        let q = request_line(method, url, colors);
        let s = status_line(code, status_text, elapsed, size, colors);
        let hr = section_rule("headers", colors);
        let hb = header_block(headers, colors);
        let br = section_rule("body", colors);
        let mut r = q.clone();
        r.append("\n");
        r.append(s.as_str());
        r.append("\n\n");
        r.append(hr.as_str());
        r.append("\n");
        r.append(hb.as_str());
        r.append("\n");
        r.append(br.as_str());
        r.append("\n");
        r.append(highlighted);
        assert(r@ == verbose_text(q@, s@, hr@, hb@, br@, highlighted@));
        r
    } else if headers_only {
        plain_header_block(headers)
    } else {
        String::from_str(highlighted)
    }
}

/// The output modes of a response: `--status` prints only the code whatever
/// else is asked; otherwise `--verbose` prints the verbose report, which
/// opens with the request line and closes with the body, whether or not
/// `--headers` is given; `--headers` alone prints the headers; with no flag
/// only the body is printed.
pub proof fn law_response_modes(
    status_only: bool,
    verbose: bool,
    headers_only: bool,
    code: u16,
    status_text: Seq<char>,
    method: Seq<char>,
    url: Seq<char>,
    elapsed: Seq<char>,
    size: Seq<char>,
    headers: Seq<(Seq<char>, Seq<char>)>,
    highlighted: Seq<char>,
    colors: bool,
)
    ensures
        ({
            let out = response_output(
                status_only,
                verbose,
                headers_only,
                code,
                status_text,
                method,
                url,
                elapsed,
                size,
                headers,
                highlighted,
                colors,
            );
            let line = request_line_of(method, url, colors) + "\n"@;
            &&& status_only ==> out == decimal(code as nat) + "\n"@
            &&& !status_only && verbose ==> out == response_output(
                false,
                true,
                !headers_only,
                code,
                status_text,
                method,
                url,
                elapsed,
                size,
                headers,
                highlighted,
                colors,
            )
            &&& !status_only && verbose ==> line.len() <= out.len() && out.take(line.len() as int)
                == line
            &&& !status_only && verbose ==> highlighted.len() <= out.len() && out.skip(
                out.len() - highlighted.len(),
            ) == highlighted
            &&& !status_only && !verbose && headers_only ==> out == plain_headers_text(headers)
            &&& !status_only && !verbose && !headers_only ==> out == highlighted
        }),
{
    if !status_only && verbose {
        lemma_verbose_text_ends(
            request_line_of(method, url, colors),
            status_line_of(code, status_text, elapsed, size, colors),
            show(Paint::Dim, rule_text("headers"@), colors),
            lines_text(header_lines_of(headers, colors)),
            show(Paint::Dim, rule_text("body"@), colors),
            highlighted,
        );
    }
}

/// The verbose report opens with its request line and closes with its body.
proof fn lemma_verbose_text_ends(
    q: Seq<char>,
    s: Seq<char>,
    hr: Seq<char>,
    hb: Seq<char>,
    br: Seq<char>,
    body: Seq<char>,
)
    ensures
        ({
            let out = verbose_text(q, s, hr, hb, br, body);
            let line = q + "\n"@;
            &&& line.len() <= out.len()
            &&& out.take(line.len() as int) == line
            &&& body.len() <= out.len()
            &&& out.skip(out.len() - body.len()) == body
        }),
{
    let out = verbose_text(q, s, hr, hb, br, body);
    let line = q + "\n"@;
    let middle = s + "\n\n"@ + hr + "\n"@ + hb + "\n"@ + br + "\n"@;
    assert(out =~= line + middle + body);
    assert(out.take(line.len() as int) =~= line);
    assert(out.skip(out.len() - body.len()) =~= body);
}

} // verus!
