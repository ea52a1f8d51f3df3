use vstd::prelude::*;
use vstd::utf8::decode_utf8;
use vstd::utf8::encode_utf8;
use vstd::utf8::is_char_boundary;

use crate::style::{accent, bold, dim, red, show, Paint};
use crate::text::{
    has_prefix, last_occurrence, rfind_pattern, starts_with,
    chars_of, contains_char, find_char, first_index_of, last_index_of, lemma_split_at_first,
    lemma_split_none, rfind_char, split_pieces, string_of, trim, trim_range, trimmed,
};

verus! {

/// What went wrong in a helper function called from a template.
pub enum TemplateError {
    HelperArgs { fn_name: &'static str, detail: &'static str, example: &'static str },
    EnvVarMissing(String),
    WrongArgType { fn_name: &'static str, got: String },
}

/// The one-line message of a template error.
pub open spec fn template_error_message(te: TemplateError) -> Seq<char> {
    match te {
        TemplateError::HelperArgs { fn_name, detail, example } => fn_name@ + "() requires "@
            + detail@ + " — e.g. "@ + example@,
        TemplateError::EnvVarMissing(name) => "environment variable '"@ + name@
            + "' is not set"@,
        TemplateError::WrongArgType { fn_name, got } => fn_name@
            + "() expected a string argument, got "@ + got@,
    }
}

impl TemplateError {
    /// The message of this error, as it is displayed.
    pub fn message(&self) -> (r: String)
        ensures
            r@ == template_error_message(*self),
    {
        match self {
            TemplateError::HelperArgs { fn_name, detail, example } => {
                let mut r = String::from_str(fn_name);
                r.append("() requires ");
                r.append(detail);
                r.append(" — e.g. ");
                r.append(example);
                r
            },
            TemplateError::EnvVarMissing(name) => {
                let mut r = String::from_str("environment variable '");
                r.append(name.as_str());
                r.append("' is not set");
                r
            },
            TemplateError::WrongArgType { fn_name, got } => {
                let mut r = String::from_str(fn_name);
                r.append("() expected a string argument, got ");
                r.append(got.as_str());
                r
            },
        }
    }
}

/// The two-line report of a template error: a red cross, the function in
/// bold, and the example painted as an accent.
pub open spec fn template_error_report(
    te: TemplateError,
    cross: Seq<char>,
    subject: Seq<char>,
    hint: Seq<char>,
) -> Seq<char> {
    match te {
        TemplateError::HelperArgs { fn_name, detail, example } => "  "@ + cross + " "@ + subject
            + " requires "@ + detail@ + "\n    e.g. "@ + hint,
        TemplateError::EnvVarMissing(name) => "  "@ + cross + " environment variable "@ + subject
            + " is not set\n    set it in your shell, e.g. "@ + hint,
        TemplateError::WrongArgType { fn_name, got } => "  "@ + cross + " "@ + subject
            + " expected a string argument, got "@ + got@,
    }
}

/// The text painted in bold in the report of `te`.
pub open spec fn report_subject(te: TemplateError) -> Seq<char> {
    match te {
        TemplateError::HelperArgs { fn_name, .. } => fn_name@ + "()"@,
        TemplateError::EnvVarMissing(name) => "'"@ + name@ + "'"@,
        TemplateError::WrongArgType { fn_name, .. } => fn_name@ + "()"@,
    }
}

/// The text painted as an accent in the report of `te` (none for a wrong
/// argument type).
pub open spec fn report_hint(te: TemplateError) -> Seq<char> {
    match te {
        TemplateError::HelperArgs { example, .. } => example@,
        TemplateError::EnvVarMissing(name) => "`export "@ + name@ + "=...`"@,
        TemplateError::WrongArgType { .. } => Seq::empty(),
    }
}

/// The report of `te`, painted when `colors` is on.
pub open spec fn template_error_text(te: TemplateError, colors: bool) -> Seq<char> {
    template_error_report(
        te,
        show(Paint::Red, "✗"@, colors),
        show(Paint::Bold, report_subject(te), colors),
        show(Paint::Accent, report_hint(te), colors),
    )
}

/// Reports a template error to the user.
pub fn format_template_error(te: &TemplateError, colors: bool) -> (r: String)
    ensures
        r@ == template_error_text(*te, colors),
{
    let cross = red("✗", colors);
    match te {
        TemplateError::HelperArgs { fn_name, detail, example } => {
            let mut name = String::from_str(fn_name);
            name.append("()");
            let subject = bold(name.as_str(), colors);
            let hint = accent(example, colors);
            let mut r = String::from_str("  ");
            r.append(cross.as_str());
            r.append(" ");
            r.append(subject.as_str());
            r.append(" requires ");
            r.append(detail);
            r.append("\n    e.g. ");
            r.append(hint.as_str());
            assert(r@ == template_error_report(*te, cross@, subject@, hint@));
            r
        },
        TemplateError::EnvVarMissing(name) => {
            let mut quoted = String::from_str("'");
            quoted.append(name.as_str());
            quoted.append("'");
            let subject = bold(quoted.as_str(), colors);
            let mut export = String::from_str("`export ");
            export.append(name.as_str());
            export.append("=...`");
            let hint = accent(export.as_str(), colors);
            let mut r = String::from_str("  ");
            r.append(cross.as_str());
            r.append(" environment variable ");
            r.append(subject.as_str());
            r.append(" is not set\n    set it in your shell, e.g. ");
            r.append(hint.as_str());
            assert(r@ == template_error_report(*te, cross@, subject@, hint@));
            r
        },
        TemplateError::WrongArgType { fn_name, got } => {
            let mut name = String::from_str(fn_name);
            name.append("()");
            let subject = bold(name.as_str(), colors);
            let mut r = String::from_str("  ");
            r.append(cross.as_str());
            r.append(" ");
            r.append(subject.as_str());
            r.append(" expected a string argument, got ");
            r.append(got.as_str());
            assert(r@ == template_error_report(*te, cross@, subject@, Seq::empty()));
            r
        },
    }
}

/// A character that may start an identifier: an ASCII letter or `_`.
pub open spec fn is_identifier_start(c: char) -> bool {
    ('a' <= c && c <= 'z') || ('A' <= c && c <= 'Z') || c == '_'
}

/// A character that may continue an identifier: an ASCII letter, digit or `_`.
pub open spec fn is_identifier_char(c: char) -> bool {
    is_identifier_start(c) || ('0' <= c && c <= '9')
}

/// `s` is a plain variable name.
pub open spec fn is_identifier_text(s: Seq<char>) -> bool {
    &&& s.len() > 0
    &&& is_identifier_start(s[0])
    &&& forall|i: int| 1 <= i < s.len() ==> is_identifier_char(#[trigger] s[i])
}

/// Whether `cs[lo..hi]` is a plain variable name.
fn identifier_in(cs: &Vec<char>, lo: usize, hi: usize) -> (r: bool)
    requires
        lo <= hi <= cs@.len(),
    ensures
        r == is_identifier_text(cs@.subrange(lo as int, hi as int)),
{
    let ghost t = cs@.subrange(lo as int, hi as int);
    if lo == hi {
        return false;
    }
    let first = cs[lo];
    if !(('a' <= first && first <= 'z') || ('A' <= first && first <= 'Z') || first == '_') {
        return false;
    }
    let mut i = lo + 1;
    while i < hi
        invariant
            lo < i <= hi <= cs@.len(),
            t == cs@.subrange(lo as int, hi as int),
            is_identifier_start(t[0]),
            forall|k: int| 1 <= k < i - lo ==> is_identifier_char(#[trigger] t[k]),
        decreases hi - i,
    {
        let c = cs[i];
        if !(('a' <= c && c <= 'z') || ('A' <= c && c <= 'Z') || c == '_' || ('0' <= c && c
            <= '9')) {
            assert(t[i - lo] == c);
            return false;
        }
        i = i + 1;
    }
    true
}

/// Whether `s` is a plain variable name: an ASCII letter or `_`, then ASCII
/// letters, digits and `_`.
pub fn is_identifier(s: &str) -> (r: bool)
    ensures
        r == is_identifier_text(s@),
{
    let cs = chars_of(s);
    let n = cs.len();
    assert(cs@.subrange(0, n as int) =~= s@);
    identifier_in(&cs, 0, n)
}

/// The name that a piece of an argument list stands for, if it is one.
pub open spec fn piece_identifier(piece: Seq<char>) -> Seq<Seq<char>> {
    if is_identifier_text(trim(piece)) {
        seq![trim(piece)]
    } else {
        Seq::empty()
    }
}

/// The trimmed pieces that are plain variable names, in order.
pub open spec fn identifiers_among(pieces: Seq<Seq<char>>) -> Seq<Seq<char>>
    decreases pieces.len(),
{
    if pieces.len() == 0 {
        Seq::empty()
    } else {
        piece_identifier(pieces[0]) + identifiers_among(pieces.drop_first())
    }
}

/// The variable names passed to a call written as `f(a, b)`: the text between
/// the first `(` and the last `)`, split at commas, trimmed, and kept where it
/// is a plain name.
pub open spec fn call_argument_names(s: Seq<char>) -> Seq<Seq<char>> {
    match (first_index_of(s, '('), last_index_of(s, ')')) {
        (Some(open), Some(close)) => if close <= open + 1 {
            Seq::empty()
        } else {
            identifiers_among(split_pieces(s.subrange(open + 1, close), ','))
        },
        _ => Seq::empty(),
    }
}

/// The views of a list of strings.
pub open spec fn string_views(v: Seq<String>) -> Seq<Seq<char>> {
    v.map_values(|s: String| s@)
}

proof fn lemma_split_step(cs: Seq<char>, start: int, i: int, close: int)
    requires
        0 <= start <= i < close <= cs.len(),
        cs[i] == ',',
        forall|t: int| start <= t < i ==> cs[t] != ',',
    ensures
        identifiers_among(split_pieces(cs.subrange(start, close), ',')) == piece_identifier(
            cs.subrange(start, i),
        ) + identifiers_among(split_pieces(cs.subrange(i + 1, close), ',')),
{
    let piece = cs.subrange(start, close);
    assert forall|t: int| 0 <= t < i - start implies piece[t] != ',' by {
        assert(piece[t] == cs[start + t]);
    }
    lemma_split_at_first(piece, ',', i - start);
    assert(piece.take(i - start) =~= cs.subrange(start, i));
    assert(piece.skip(i - start + 1) =~= cs.subrange(i + 1, close));
    let pieces = split_pieces(piece, ',');
    assert(pieces[0] == cs.subrange(start, i));
    assert(pieces.drop_first() =~= split_pieces(cs.subrange(i + 1, close), ','));
}

proof fn lemma_split_last(cs: Seq<char>, start: int, close: int)
    requires
        0 <= start <= close <= cs.len(),
        forall|t: int| start <= t < close ==> cs[t] != ',',
    ensures
        identifiers_among(split_pieces(cs.subrange(start, close), ',')) == piece_identifier(
            cs.subrange(start, close),
        ),
{
    let piece = cs.subrange(start, close);
    assert forall|t: int| 0 <= t < piece.len() implies piece[t] != ',' by {
        assert(piece[t] == cs[start + t]);
    }
    lemma_split_none(piece, ',');
    assert(seq![piece].drop_first() =~= Seq::<Seq<char>>::empty());
    assert(identifiers_among(Seq::<Seq<char>>::empty()) == Seq::<Seq<char>>::empty());
    assert(seq![piece][0] == piece);
    assert(piece_identifier(piece) + Seq::<Seq<char>>::empty() =~= piece_identifier(piece));
}

/// Appends the name that `cs[lo..hi]` stands for, if it is one.
fn push_piece_identifier(names: &mut Vec<String>, cs: &Vec<char>, lo: usize, hi: usize)
    requires
        lo <= hi <= cs@.len(),
    ensures
        string_views(final(names)@) == string_views(old(names)@) + piece_identifier(
            cs@.subrange(lo as int, hi as int),
        ),
{
    let (a, b) = trim_range(cs, lo, hi);
    if identifier_in(cs, a, b) {
        let name = string_of(cs, a, b);
        names.push(name);
        assert(string_views(names@) =~= string_views(old(names)@) + piece_identifier(
            cs@.subrange(lo as int, hi as int),
        ));
    } else {
        assert(string_views(names@) =~= string_views(old(names)@) + piece_identifier(
            cs@.subrange(lo as int, hi as int),
        ));
    }
}

/// The plain variable names among the arguments of the call in `snippet`.
pub fn call_identifier_args(snippet: &str) -> (r: Vec<String>)
    ensures
        string_views(r@) == call_argument_names(snippet@),
{
    let cs = chars_of(snippet);
    let n = cs.len();
    let open = match find_char(&cs, '(') {
        Some(k) => k,
        None => {
            return Vec::new();
        },
    };
    let close = match rfind_char(&cs, ')') {
        Some(k) => k,
        None => {
            return Vec::new();
        },
    };
    if close <= open || close - open <= 1 {
        return Vec::new();
    }
    let ghost all = identifiers_among(split_pieces(cs@.subrange(open + 1, close as int), ','));
    let mut names: Vec<String> = Vec::new();
    let mut start = open + 1;
    let mut i = open + 1;
    while i < close
        invariant
            open + 1 <= start <= i <= close < cs@.len(),
            all == identifiers_among(split_pieces(cs@.subrange(open + 1, close as int), ',')),
            all == string_views(names@) + identifiers_among(
                split_pieces(cs@.subrange(start as int, close as int), ','),
            ),
            forall|t: int| start <= t < i ==> cs@[t] != ',',
        decreases close - i,
    {
        if cs[i] == ',' {
            proof {
                lemma_split_step(cs@, start as int, i as int, close as int);
            }
            let ghost before = string_views(names@);
            push_piece_identifier(&mut names, &cs, start, i);
            assert(all == string_views(names@) + identifiers_among(
                split_pieces(cs@.subrange(i + 1, close as int), ','),
            ));
            start = i + 1;
        }
        i = i + 1;
    }
    proof {
        lemma_split_last(cs@, start as int, close as int);
    }
    push_piece_identifier(&mut names, &cs, start, close);
    assert(string_views(names@) =~= all);
    names
}

/// The report on a variable that is not defined: `"  ✗ 'name' is not
/// defined"` with a hint to set it or pass it as an override.
pub open spec fn undefined_identifier_report(
    cross: Seq<char>,
    subject: Seq<char>,
    section: Seq<char>,
    example: Seq<char>,
) -> Seq<char> {
    "  "@ + cross + " "@ + subject + " is not defined\n    set it in "@ + section
        + " or pass it as an override (e.g. "@ + example + ")"@
}

/// The report that the variable `name` is not defined.
pub open spec fn undefined_identifier_text(name: Seq<char>, colors: bool) -> Seq<char> {
    undefined_identifier_report(
        show(Paint::Red, "✗"@, colors),
        show(Paint::Bold, "'"@ + name + "'"@, colors),
        show(Paint::Accent, "[variables]"@, colors),
        show(Paint::Accent, "`"@ + name + "=...`"@, colors),
    )
}

/// Reports that the variable `name` is not defined.
pub fn format_undefined_identifier(name: &str, colors: bool) -> (r: String)
    ensures
        r@ == undefined_identifier_text(name@, colors),
{
    let cross = red("✗", colors);
    let mut quoted = String::from_str("'");
    quoted.append(name);
    quoted.append("'");
    let subject = bold(quoted.as_str(), colors);
    let section = accent("[variables]", colors);
    let mut setting = String::from_str("`");
    setting.append(name);
    setting.append("=...`");
    let example = accent(setting.as_str(), colors);
    let mut r = String::from_str("  ");
    r.append(cross.as_str());
    r.append(" ");
    r.append(subject.as_str());
    r.append(" is not defined\n    set it in ");
    r.append(section.as_str());
    r.append(" or pass it as an override (e.g. ");
    r.append(example.as_str());
    r.append(")");
    assert(r@ == undefined_identifier_report(cross@, subject@, section@, example@));
    r
}

/// The report on an expression that is not defined.
pub open spec fn undefined_expression_report(
    cross: Seq<char>,
    subject: Seq<char>,
    section: Seq<char>,
) -> Seq<char> {
    "  "@ + cross + " "@ + subject
        + " is not defined\n    check that all referenced variables are defined in "@ + section
        + " or passed as overrides"@
}

/// The report that the expression `expr` is not defined.
pub open spec fn undefined_expression_text(expr: Seq<char>, colors: bool) -> Seq<char> {
    undefined_expression_report(
        show(Paint::Red, "✗"@, colors),
        show(Paint::Bold, "'"@ + expr + "'"@, colors),
        show(Paint::Accent, "[variables]"@, colors),
    )
}

/// Reports that the expression `expr` is not defined.
pub fn format_undefined_expression(expr: &str, colors: bool) -> (r: String)
    ensures
        r@ == undefined_expression_text(expr@, colors),
{
    let cross = red("✗", colors);
    let mut quoted = String::from_str("'");
    quoted.append(expr);
    quoted.append("'");
    let subject = bold(quoted.as_str(), colors);
    let section = accent("[variables]", colors);
    let mut r = String::from_str("  ");
    r.append(cross.as_str());
    r.append(" ");
    r.append(subject.as_str());
    r.append(" is not defined\n    check that all referenced variables are defined in ");
    r.append(section.as_str());
    r.append(" or passed as overrides");
    assert(r@ == undefined_expression_report(cross@, subject@, section@));
    r
}

/// `names` quoted and separated by `, `.
pub open spec fn quoted_list(names: Seq<Seq<char>>) -> Seq<char>
    decreases names.len(),
{
    if names.len() == 0 {
        Seq::empty()
    } else if names.len() == 1 {
        "'"@ + names[0] + "'"@
    } else {
        quoted_list(names.drop_last()) + ", '"@ + names.last() + "'"@
    }
}

/// What the report on an undefined call names: its one variable, one of its
/// variables, or one of its arguments when none is a plain name.
pub open spec fn call_hint(call: Seq<char>, names: Seq<Seq<char>>) -> Seq<char> {
    if names.len() == 0 {
        "one of the arguments to "@ + call
    } else if names.len() == 1 {
        "'"@ + names[0] + "'"@
    } else {
        "one of "@ + quoted_list(names)
    }
}

/// The report on a call whose arguments are not all defined.
pub open spec fn undefined_call_report(
    cross: Seq<char>,
    subject: Seq<char>,
    call: Seq<char>,
    section: Seq<char>,
) -> Seq<char> {
    "  "@ + cross + " "@ + subject + " (in "@ + call + ") is not defined\n    set it in "@
        + section + " or pass it as an override"@
}

/// The report that an argument of the call `call` is not defined.
pub open spec fn undefined_call_text(call: Seq<char>, colors: bool) -> Seq<char> {
    undefined_call_report(
        show(Paint::Red, "✗"@, colors),
        show(Paint::Bold, call_hint(call, call_argument_names(call)), colors),
        show(Paint::Dim, call, colors),
        show(Paint::Accent, "[variables]"@, colors),
    )
}

/// The names of `names` quoted and joined with `, `.
fn join_quoted(names: &Vec<String>) -> (r: String)
    ensures
        r@ == quoted_list(string_views(names@)),
{
    let mut r = String::new();
    let ghost views = string_views(names@);
    let mut i: usize = 0;
    while i < names.len()
        invariant
            i <= names@.len(),
            views == string_views(names@),
            r@ == quoted_list(views.take(i as int)),
        decreases names@.len() - i,
    {
        assert(views.take(i + 1).drop_last() =~= views.take(i as int));
        assert(views.take(i + 1).last() == names@[i as int]@);
        if i == 0 {
            r.append("'");
        } else {
            r.append(", '");
        }
        r.append(names[i].as_str());
        r.append("'");
        proof {
            if i == 0 {
                assert(views.take(1)[0] == names@[0]@);
                assert(r@ =~= quoted_list(views.take(1)));
            }
        }
        i = i + 1;
    }
    assert(views.take(names@.len() as int) =~= views);
    r
}

/// Reports that an argument of the call `call` is not defined, naming the
/// plain variables among its arguments.
pub fn format_undefined_call(call: &str, colors: bool) -> (r: String)
    ensures
        r@ == undefined_call_text(call@, colors),
{
    let names = call_identifier_args(call);
    let hint = if names.len() == 0 {
        let mut h = String::from_str("one of the arguments to ");
        h.append(call);
        h
    } else if names.len() == 1 {
        let mut h = String::from_str("'");
        h.append(names[0].as_str());
        h.append("'");
        assert(string_views(names@)[0] == names@[0]@);
        h
    } else {
        let mut h = String::from_str("one of ");
        let list = join_quoted(&names);
        h.append(list.as_str());
        h
    };
    assert(hint@ == call_hint(call@, call_argument_names(call@)));
    let cross = red("✗", colors);
    let subject = bold(hint.as_str(), colors);
    let shown_call = dim(call, colors);
    let section = accent("[variables]", colors);
    let mut r = String::from_str("  ");
    r.append(cross.as_str());
    r.append(" ");
    r.append(subject.as_str());
    r.append(" (in ");
    r.append(shown_call.as_str());
    r.append(") is not defined\n    set it in ");
    r.append(section.as_str());
    r.append(" or pass it as an override");
    assert(r@ == undefined_call_report(cross@, subject@, shown_call@, section@));
    r
}

/// The report when the offending part of the template is unknown.
pub open spec fn unknown_undefined_report(cross: Seq<char>) -> Seq<char> {
    "  "@ + cross + " a variable referenced in the template is not defined"@
}

/// The report on an undefined value found at `snippet`: as a variable when it
/// is a plain name, as a call when it holds `(`, else as an expression.
pub open spec fn undefined_text(snippet: Option<Seq<char>>, colors: bool) -> Seq<char> {
    match snippet {
        Some(s) => if is_identifier_text(s) {
            undefined_identifier_text(s, colors)
        } else if s.contains('(') {
            undefined_call_text(s, colors)
        } else {
            undefined_expression_text(s, colors)
        },
        None => unknown_undefined_report(show(Paint::Red, "✗"@, colors)),
    }
}

/// Reports an undefined value, given the template text at which it was found.
pub fn format_undefined(snippet: Option<&str>, colors: bool) -> (r: String)
    ensures
        r@ == undefined_text(
            match snippet {
                Some(s) => Some(s@),
                None => None,
            },
            colors,
        ),
{
    match snippet {
        Some(s) => {
            if is_identifier(s) {
                format_undefined_identifier(s, colors)
            } else if contains_char(s, '(') {
                format_undefined_call(s, colors)
            } else {
                format_undefined_expression(s, colors)
            }
        },
        None => {
            let cross = red("✗", colors);
            let mut r = String::from_str("  ");
            r.append(cross.as_str());
            r.append(" a variable referenced in the template is not defined");
            assert(r@ == unknown_undefined_report(cross@));
            r
        },
    }
}

/// An error message without the ` (in name:line)` that names where it
/// happened.
pub open spec fn without_location(full: Seq<char>) -> Seq<char> {
    match last_occurrence(full, " (in "@) {
        Some(k) => full.take(k),
        None => full,
    }
}

/// The part of an error message worth showing: no location, and no leading
/// `kind: `.
pub open spec fn generic_detail(full: Seq<char>, kind: Seq<char>) -> Seq<char> {
    let w = without_location(full);
    let prefix = kind + ": "@;
    if starts_with(w, prefix) {
        w.skip(prefix.len() as int)
    } else {
        w
    }
}

/// The report on any other rendering error.
pub open spec fn generic_report(cross: Seq<char>, detail: Seq<char>) -> Seq<char> {
    "  "@ + cross + " "@ + detail
}

/// The report on the error whose message is `full` and whose kind reads
/// `kind`.
pub open spec fn generic_text(full: Seq<char>, kind: Seq<char>, colors: bool) -> Seq<char> {
    generic_report(show(Paint::Red, "✗"@, colors), generic_detail(full, kind))
}

/// Reports a rendering error from its message `full` and the description of
/// its kind.
pub fn format_generic(full: &str, kind: &str, colors: bool) -> (r: String)
    ensures
        r@ == generic_text(full@, kind@, colors),
{
    let cs = chars_of(full);
    let marker = chars_of(" (in ");
    let head = match rfind_pattern(&cs, &marker) {
        Some(k) => {
            assert(cs@.subrange(0, k as int) =~= full@.take(k as int));
            string_of(&cs, 0, k)
        },
        None => {
            let n = cs.len();
            assert(cs@.subrange(0, n as int) =~= full@);
            string_of(&cs, 0, n)
        },
    };
    let mut prefix = String::from_str(kind);
    prefix.append(": ");
    let hc = chars_of(head.as_str());
    let pc = chars_of(prefix.as_str());
    let n = hc.len();
    let detail = if has_prefix(&hc, &pc) {
        assert(hc@.subrange(pc@.len() as int, n as int) =~= head@.skip(prefix@.len() as int));
        string_of(&hc, pc.len(), n)
    } else {
        head
    };
    assert(detail@ == generic_detail(full@, kind@));
    let cross = red("✗", colors);
    let mut r = String::from_str("  ");
    r.append(cross.as_str());
    r.append(" ");
    r.append(detail.as_str());
    assert(r@ == generic_report(cross@, generic_detail(full@, kind@)));
    r
}

#[verifier::external_type_specification]
#[verifier::external_body]
pub struct ExMinijinjaError(minijinja::Error);

/// The description of an error's kind (`ErrorKind`'s `Display`, such as
/// `invalid operation`).
pub uninterp spec fn jinja_error_kind(e: minijinja::Error) -> Seq<char>;

/// Whether an error's kind is `ErrorKind::UndefinedError`.
pub uninterp spec fn jinja_error_is_undefined(e: minijinja::Error) -> bool;

/// An error's detail message (`Error::detail`).
pub uninterp spec fn jinja_error_detail(e: minijinja::Error) -> Option<Seq<char>>;

/// An error's `Display` text.
pub uninterp spec fn jinja_error_text(e: minijinja::Error) -> Seq<char>;

/// The template source kept with an error (`Error::template_source`).
pub uninterp spec fn jinja_error_source(e: minijinja::Error) -> Option<Seq<char>>;

/// The byte range of the template at which an error happened (`Error::range`).
pub uninterp spec fn jinja_error_range(e: minijinja::Error) -> Option<(usize, usize)>;

/// `minijinja::Error::template_source`, named `jinja_error_source`.
#[verifier::external_body]
fn error_template_source(e: &minijinja::Error) -> (r: Option<String>)
    ensures
        match r {
            Some(s) => jinja_error_source(*e) == Some(s@),
            None => jinja_error_source(*e) is None,
        },
{
    e.template_source().map(|s| s.to_string())
}

/// `minijinja::Error::range`, as start and end offsets, named
/// `jinja_error_range`.
#[verifier::external_body]
fn error_range(e: &minijinja::Error) -> (r: Option<(usize, usize)>)
    ensures
        r == jinja_error_range(*e),
{
    e.range().map(|range| (range.start, range.end))
}

/// Whether `minijinja::Error::kind` is `ErrorKind::UndefinedError`, named
/// `jinja_error_is_undefined`.
#[verifier::external_body]
fn is_undefined_error(e: &minijinja::Error) -> (r: bool)
    ensures
        r == jinja_error_is_undefined(*e),
{
    matches!(e.kind(), minijinja::ErrorKind::UndefinedError)
}

/// The `Display` text of a `minijinja::Error`, named `jinja_error_text`.
#[verifier::external_body]
fn error_text(e: &minijinja::Error) -> (r: String)
    ensures
        r@ == jinja_error_text(*e),
{
    e.to_string()
}

/// The `Display` text of the `minijinja::ErrorKind` of an error, named
/// `jinja_error_kind`.
#[verifier::external_body]
fn error_kind_text(e: &minijinja::Error) -> (r: String)
    ensures
        r@ == jinja_error_kind(*e),
{
    e.kind().to_string()
}

/// The text of `s` between two byte offsets, when both lie within `s` on
/// character boundaries and the first is not past the second.
pub open spec fn byte_range_text(s: Seq<char>, start: int, end: int) -> Option<Seq<char>> {
    let bytes = encode_utf8(s);
    if 0 <= start <= end <= bytes.len() && is_char_boundary(bytes, start) && is_char_boundary(
        bytes,
        end,
    ) {
        Some(decode_utf8(bytes.subrange(start, end)))
    } else {
        None
    }
}

/// `str::get` with a byte range, which gives `None` exactly where indexing
/// with that range would panic: the range is out of order, past the end, or
/// not on character boundaries.
#[verifier::external_body]
fn byte_slice(s: &str, start: usize, end: usize) -> (r: Option<String>)
    ensures
        match r {
            Some(t) => byte_range_text(s@, start as int, end as int) == Some(t@),
            None => byte_range_text(s@, start as int, end as int) is None,
        },
{
    s.get(start..end).map(|t| t.to_string())
}

/// The trimmed template text between two byte offsets of `source`, unless it
/// is empty or the offsets do not delimit text.
pub open spec fn snippet_text(source: Seq<char>, start: int, end: int) -> Option<Seq<char>> {
    match byte_range_text(source, start, end) {
        Some(t) => if trim(t).len() == 0 {
            None
        } else {
            Some(trim(t))
        },
        None => None,
    }
}

/// The template text at which an error happened, trimmed.
pub fn snippet_between(source: &str, start: usize, end: usize) -> (r: Option<String>)
    ensures
        match r {
            Some(t) => snippet_text(source@, start as int, end as int) == Some(t@),
            None => snippet_text(source@, start as int, end as int) is None,
        },
{
    let piece = byte_slice(source, start, end)?;
    let t = trimmed(piece.as_str());
    if t.as_str().is_empty() {
        None
    } else {
        Some(t)
    }
}

/// The template text at which `e` happened: the trimmed text of its range in
/// its source, when minijinja kept both and the text is not blank.
pub open spec fn error_snippet(e: minijinja::Error) -> Option<Seq<char>> {
    match (jinja_error_source(e), jinja_error_range(e)) {
        (Some(source), Some((start, end))) => snippet_text(source, start as int, end as int),
        _ => None,
    }
}

/// The template text at which `e` happened, when minijinja kept the source
/// and the range, and the text there is not blank.
pub fn undefined_snippet(e: &minijinja::Error) -> (r: Option<String>)
    ensures
        match r {
            Some(t) => error_snippet(*e) == Some(t@),
            None => error_snippet(*e) is None,
        },
{
    let source = error_template_source(e)?;
    let (start, end) = error_range(e)?;
    snippet_between(source.as_str(), start, end)
}

/// The report on a rendering error that no helper caused: on an
/// undefined value, from the template text at which it happened; else on the
/// error's own message.
pub open spec fn rendering_error_text(e: minijinja::Error, colors: bool) -> Seq<char> {
    if jinja_error_is_undefined(e) {
        undefined_text(error_snippet(e), colors)
    } else {
        generic_text(jinja_error_text(e), jinja_error_kind(e), colors)
    }
}

/// Explains a rendering error to the user. `source` is the helper error that
/// caused it, when there is one (found by the caller among the error's
/// sources).
pub fn pretty_template_error(
    e: &minijinja::Error,
    source: Option<&TemplateError>,
    colors: bool,
) -> (r: String)
    ensures
        r@ == match source {
            Some(te) => template_error_text(*te, colors),
            None => rendering_error_text(*e, colors),
        },
{
    if let Some(te) = source {
        return format_template_error(te, colors);
    }
    if is_undefined_error(e) {
        let snippet = undefined_snippet(e);
        let r = match &snippet {
            Some(s) => format_undefined(Some(s.as_str()), colors),
            None => format_undefined(None, colors),
        };
        return r;
    }
    let full = error_text(e);
    let kind = error_kind_text(e);
    format_generic(full.as_str(), kind.as_str(), colors)
}

proof fn lemma_identifiers_among(pieces: Seq<Seq<char>>)
    ensures
        forall|k: int|
            0 <= k < identifiers_among(pieces).len() ==> is_identifier_text(
                #[trigger] identifiers_among(pieces)[k],
            ),
    decreases pieces.len(),
{
    if pieces.len() > 0 {
        lemma_identifiers_among(pieces.drop_first());
        let head = piece_identifier(pieces[0]);
        let rest = identifiers_among(pieces.drop_first());
        assert forall|k: int| 0 <= k < (head + rest).len() implies is_identifier_text(
            #[trigger] (head + rest)[k],
        ) by {
            if k >= head.len() {
                assert((head + rest)[k] == rest[k - head.len()]);
            }
        }
    }
}

/// Every name that the report on an undefined call offers is a plain
/// variable name.
pub proof fn law_call_argument_names_are_identifiers(s: Seq<char>)
    ensures
        forall|k: int|
            0 <= k < call_argument_names(s).len() ==> is_identifier_text(
                #[trigger] call_argument_names(s)[k],
            ),
{
    match (first_index_of(s, '('), last_index_of(s, ')')) {
        (Some(open), Some(close)) => if close > open + 1 {
            lemma_identifiers_among(split_pieces(s.subrange(open + 1, close), ','));
        },
        _ => {
        },
    }
}

} // verus!
