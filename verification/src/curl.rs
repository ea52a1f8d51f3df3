use reqwest::blocking::Request as HttpRequest;
use vstd::prelude::*;
use vstd::utf8::decode_utf8;
use vstd::utf8::valid_utf8;

use crate::template::{request_body_of, request_headers_of, request_method_of, request_url_of};
use crate::text::{chars_of, push_char};

verus! {

/// `s` with each single quote closed, escaped and reopened: `'` becomes `'\''`.
pub open spec fn escape_quotes(s: Seq<char>) -> Seq<char>
    decreases s.len(),
{
    if s.len() == 0 {
        Seq::empty()
    } else {
        escape_quotes(s.drop_last()) + if s.last() == '\'' {
            seq!['\'', '\\', '\'', '\'']
        } else {
            seq![s.last()]
        }
    }
}

/// `s` as one single-quoted shell word.
pub open spec fn shell_quoted(s: Seq<char>) -> Seq<char> {
    seq!['\''] + escape_quotes(s) + seq!['\'']
}

/// Quotes `s` for a POSIX shell.
pub fn shell_quote(s: &str) -> (r: String)
    ensures
        r@ == shell_quoted(s@),
{
    let cs = chars_of(s);
    let mut r = String::new();
    push_char(&mut r, '\'');
    let mut i: usize = 0;
    while i < cs.len()
        invariant
            i <= cs@.len(),
            cs@ == s@,
            r@ == seq!['\''] + escape_quotes(cs@.take(i as int)),
        decreases cs@.len() - i,
    {
        assert(cs@.take(i + 1).drop_last() =~= cs@.take(i as int));
        if cs[i] == '\'' {
            push_char(&mut r, '\'');
            push_char(&mut r, '\\');
            push_char(&mut r, '\'');
            push_char(&mut r, '\'');
        } else {
            push_char(&mut r, cs[i]);
        }
        assert(r@ =~= seq!['\''] + escape_quotes(cs@.take(i + 1)));
        i = i + 1;
    }
    push_char(&mut r, '\'');
    assert(cs@.take(cs@.len() as int) =~= cs@);
    r
}

/// `a` comes no later than `b` in code point order, as `str` compares.
pub open spec fn name_le(a: Seq<char>, b: Seq<char>) -> bool
    decreases a.len(),
{
    if a.len() == 0 {
        true
    } else if b.len() == 0 {
        false
    } else if a[0] != b[0] {
        a[0] < b[0]
    } else {
        name_le(a.drop_first(), b.drop_first())
    }
}

/// Whether `a` comes no later than `b` in code point order.
fn name_le_exec(a: &str, b: &str) -> (r: bool)
    ensures
        r == name_le(a@, b@),
{
    let ac = chars_of(a);
    let bc = chars_of(b);
    assert(ac@.skip(0) =~= ac@);
    assert(bc@.skip(0) =~= bc@);
    let mut i: usize = 0;
    while i < ac.len() && i < bc.len() && ac[i] == bc[i]
        invariant
            i <= ac@.len(),
            i <= bc@.len(),
            ac@ == a@,
            bc@ == b@,
            name_le(a@, b@) == name_le(ac@.skip(i as int), bc@.skip(i as int)),
        decreases ac@.len() - i,
    {
        assert(ac@.skip(i as int).drop_first() =~= ac@.skip(i + 1));
        assert(bc@.skip(i as int).drop_first() =~= bc@.skip(i + 1));
        i = i + 1;
    }
    assert(i < ac@.len() ==> ac@.skip(i as int)[0] == ac@[i as int]);
    assert(i < bc@.len() ==> bc@.skip(i as int)[0] == bc@[i as int]);
    if i == ac.len() {
        true
    } else if i == bc.len() {
        false
    } else {
        ac[i] < bc[i]
    }
}

/// `e` inserted into `sorted` after every entry whose name comes no later.
pub open spec fn insert_by_name(sorted: Seq<(Seq<char>, Seq<char>)>, e: (Seq<char>, Seq<char>)) -> Seq<
    (Seq<char>, Seq<char>),
>
    decreases sorted.len(),
{
    if sorted.len() == 0 {
        seq![e]
    } else if name_le(sorted.last().0, e.0) {
        sorted.push(e)
    } else {
        insert_by_name(sorted.drop_last(), e).push(sorted.last())
    }
}

/// `s` sorted by name, entries with equal names kept in their order (a stable
/// sort, as `slice::sort_by` is).
pub open spec fn sort_by_name(s: Seq<(Seq<char>, Seq<char>)>) -> Seq<(Seq<char>, Seq<char>)>
    decreases s.len(),
{
    if s.len() == 0 {
        Seq::empty()
    } else {
        insert_by_name(sort_by_name(s.drop_last()), s.last())
    }
}

/// The views of a list of string pairs.
pub open spec fn pair_views(v: Seq<(String, String)>) -> Seq<(Seq<char>, Seq<char>)> {
    v.map_values(|e: (String, String)| (e.0@, e.1@))
}

proof fn lemma_insert_at(sorted: Seq<(Seq<char>, Seq<char>)>, e: (Seq<char>, Seq<char>), j: int)
    requires
        0 <= j <= sorted.len(),
        forall|t: int| j <= t < sorted.len() ==> !name_le(#[trigger] sorted[t].0, e.0),
        j > 0 ==> name_le(sorted[j - 1].0, e.0),
    ensures
        insert_by_name(sorted, e) == sorted.take(j) + seq![e] + sorted.skip(j),
    decreases sorted.len(),
{
    if sorted.len() == 0 {
        assert(sorted.take(j) + seq![e] + sorted.skip(j) =~= seq![e]);
    } else if j == sorted.len() {
        assert(sorted.take(j) + seq![e] + sorted.skip(j) =~= sorted.push(e));
    } else {
        let init = sorted.drop_last();
        assert(!name_le(sorted[sorted.len() - 1].0, e.0));
        assert forall|t: int| j <= t < init.len() implies !name_le(#[trigger] init[t].0, e.0) by {
            assert(init[t] == sorted[t]);
        }
        lemma_insert_at(init, e, j);
        assert(init.take(j) + seq![e] + init.skip(j) + seq![sorted.last()] =~= sorted.take(j)
            + seq![e] + sorted.skip(j));
    }
}

/// Inserts `e` into `sorted` after every entry whose name comes no later.
fn insert_sorted(sorted: &mut Vec<(String, String)>, e: (String, String))
    ensures
        pair_views(final(sorted)@) == insert_by_name(pair_views(old(sorted)@), (e.0@, e.1@)),
{
    let ghost before = pair_views(sorted@);
    let mut j = sorted.len();
    while j > 0 && !name_le_exec(sorted[j - 1].0.as_str(), e.0.as_str())
        invariant
            j <= sorted@.len(),
            before == pair_views(sorted@),
            sorted@ == old(sorted)@,
            forall|t: int| j <= t < before.len() ==> !name_le(#[trigger] before[t].0, e.0@),
        decreases j,
    {
        j = j - 1;
    }
    proof {
        lemma_insert_at(before, (e.0@, e.1@), j as int);
    }
    sorted.insert(j, e);
    assert(pair_views(sorted@) =~= before.take(j as int) + seq![(e.0@, e.1@)] + before.skip(
        j as int,
    ));
}

/// Sorts `entries` by their first component, keeping entries with equal
/// names in order.
pub fn sorted_by_name(entries: &Vec<(String, String)>) -> (r: Vec<(String, String)>)
    ensures
        pair_views(r@) == sort_by_name(pair_views(entries@)),
{
    let ghost all = pair_views(entries@);
    let mut sorted: Vec<(String, String)> = Vec::new();
    let mut i: usize = 0;
    while i < entries.len()
        invariant
            i <= entries@.len(),
            all == pair_views(entries@),
            pair_views(sorted@) == sort_by_name(all.take(i as int)),
        decreases entries@.len() - i,
    {
        assert(all.take(i + 1).drop_last() =~= all.take(i as int));
        assert(all.take(i + 1).last() == (entries@[i as int].0@, entries@[i as int].1@));
        let e = (entries[i].0.clone(), entries[i].1.clone());
        insert_sorted(&mut sorted, e);
        i = i + 1;
    }
    assert(all.take(entries@.len() as int) =~= all);
    sorted
}

/// `lines` separated by `sep`.
pub open spec fn joined(lines: Seq<Seq<char>>, sep: Seq<char>) -> Seq<char>
    decreases lines.len(),
{
    if lines.len() == 0 {
        Seq::empty()
    } else if lines.len() == 1 {
        lines[0]
    } else {
        joined(lines.drop_last(), sep) + sep + lines.last()
    }
}

/// The `--header` options for `headers`, in order.
pub open spec fn header_options(headers: Seq<(Seq<char>, Seq<char>)>) -> Seq<Seq<char>> {
    headers.map_values(|h: (Seq<char>, Seq<char>)| "--header "@ + shell_quoted(h.0 + ": "@ + h.1))
}

/// The `--data-raw` option, when there is a body.
pub open spec fn body_options(body: Option<Seq<char>>) -> Seq<Seq<char>> {
    match body {
        Some(b) => seq!["--data-raw "@ + shell_quoted(b)],
        None => Seq::empty(),
    }
}

/// The words of the curl command for a request, one option per line: the
/// method, the quoted URL, the headers sorted by name, and the body.
pub open spec fn curl_lines(
    method: Seq<char>,
    url: Seq<char>,
    headers: Seq<(Seq<char>, Seq<char>)>,
    body: Option<Seq<char>>,
) -> Seq<Seq<char>> {
    seq!["curl"@, "--request "@ + method, "--url "@ + shell_quoted(url)] + header_options(
        sort_by_name(headers),
    ) + body_options(body)
}

/// The text of the curl command, its options continued over lines.
pub open spec fn curl_text(
    method: Seq<char>,
    url: Seq<char>,
    headers: Seq<(Seq<char>, Seq<char>)>,
    body: Option<Seq<char>>,
) -> Seq<char> {
    joined(curl_lines(method, url, headers, body), " \\\n  "@)
}

/// Joins `lines` with `sep`.
fn join_lines(lines: &Vec<String>, sep: &str) -> (r: String)
    ensures
        r@ == joined(string_list_views(lines@), sep@),
{
    let ghost views = string_list_views(lines@);
    let mut r = String::new();
    let mut i: usize = 0;
    while i < lines.len()
        invariant
            i <= lines@.len(),
            views == string_list_views(lines@),
            r@ == joined(views.take(i as int), sep@),
        decreases lines@.len() - i,
    {
        assert(views.take(i + 1).drop_last() =~= views.take(i as int));
        assert(views.take(i + 1).last() == lines@[i as int]@);
        if i > 0 {
            r.append(sep);
        } else {
            assert(views.take(1)[0] == lines@[0]@);
        }
        r.append(lines[i].as_str());
        i = i + 1;
    }
    assert(views.take(lines@.len() as int) =~= views);
    r
}

/// The views of a list of strings.
pub open spec fn string_list_views(v: Seq<String>) -> Seq<Seq<char>> {
    v.map_values(|s: String| s@)
}

/// Writes a request as a curl command that can be pasted into a shell.
/// `body` is the request body as text, present when it is not empty.
pub fn curl_command(
    method: &str,
    url: &str,
    headers: &Vec<(String, String)>,
    body: Option<&str>,
) -> (r: String)
    ensures
        r@ == curl_text(
            method@,
            url@,
            pair_views(headers@),
            match body {
                Some(b) => Some(b@),
                None => None,
            },
        ),
{
    let ghost body_view: Option<Seq<char>> = match body {
        Some(b) => Some(b@),
        None => None,
    };
    let mut lines: Vec<String> = Vec::new();
    lines.push(String::from_str("curl"));
    let mut line = String::from_str("--request ");
    line.append(method);
    lines.push(line);
    let mut line = String::from_str("--url ");
    let quoted = shell_quote(url);
    line.append(quoted.as_str());
    lines.push(line);
    let sorted = sorted_by_name(headers);
    let ghost first = string_list_views(lines@);
    assert(first =~= seq!["curl"@, "--request "@ + method@, "--url "@ + shell_quoted(url@)]);
    let ghost options = header_options(pair_views(sorted@));
    let mut i: usize = 0;
    while i < sorted.len()
        invariant
            i <= sorted@.len(),
            first.len() == 3,
            options == header_options(pair_views(sorted@)),
            string_list_views(lines@) == first + options.take(i as int),
        decreases sorted@.len() - i,
    {
        let mut text = sorted[i].0.clone();
        text.append(": ");
        text.append(sorted[i].1.as_str());
        let mut line = String::from_str("--header ");
        let quoted = shell_quote(text.as_str());
        line.append(quoted.as_str());
        assert(pair_views(sorted@)[i as int] == (sorted@[i as int].0@, sorted@[i as int].1@));
        assert(options[i as int] == line@);
        let ghost prev = lines@;
        lines.push(line);
        assert(string_list_views(lines@) =~= string_list_views(prev).push(options[i as int]));
        assert(string_list_views(lines@) =~= first + options.take(i + 1));
        i = i + 1;
    }
    assert(options.take(sorted@.len() as int) =~= options);
    if let Some(b) = body {
        let mut line = String::from_str("--data-raw ");
        let quoted = shell_quote(b);
        line.append(quoted.as_str());
        lines.push(line);
    }
    assert(string_list_views(lines@) =~= curl_lines(method@, url@, pair_views(headers@), body_view));
    join_lines(&lines, " \\\n  ")
}

/// The method of a request (`Method::as_str`), named `request_method_of`.
#[verifier::external_body]
fn request_method_text(req: &HttpRequest) -> (r: String)
    ensures
        r@ == request_method_of(*req),
{
    req.method().as_str().to_string()
}

/// The URL of a request (`Url::as_str`), named `request_url_of`.
#[verifier::external_body]
fn request_url_text(req: &HttpRequest) -> (r: String)
    ensures
        r@ == request_url_of(*req),
{
    req.url().as_str().to_string()
}

/// A header list with the text of each value where it has one.
pub open spec fn header_entry_views(v: Seq<(String, Option<String>)>) -> Seq<
    (Seq<char>, Option<Seq<char>>),
> {
    v.map_values(|h: (String, Option<String>)| (h.0@, match h.1 {
        Some(t) => Some(t@),
        None => None,
    }))
}

/// The headers of a request in the order in which `HeaderMap::iter` visits
/// them, each value as text when `HeaderValue::to_str` accepts it; named
/// `request_headers_of`.
#[verifier::external_body]
fn request_headers(req: &HttpRequest) -> (r: Vec<(String, Option<String>)>)
    ensures
        header_entry_views(r@) == request_headers_of(*req),
{
    req.headers().iter().map(|(k, v)| (k.as_str().to_string(), v.to_str().ok().map(|s| s.to_string()))).collect()
}

/// The bytes of the body of a request, when it has one held in memory
/// (`Body::as_bytes`); named `request_body_of`.
#[verifier::external_body]
fn request_body_bytes(req: &HttpRequest) -> (r: Option<Vec<u8>>)
    ensures
        match r {
            Some(v) => request_body_of(*req) == Some(v@),
            None => request_body_of(*req) is None,
        },
{
    req.body().and_then(|b| b.as_bytes()).map(|b| b.to_vec())
}

/// What `String::from_utf8_lossy` gives for `bytes`.
pub uninterp spec fn lossy_text(bytes: Seq<u8>) -> Seq<char>;

/// `String::from_utf8_lossy`: the text of `bytes`, each invalid sequence
/// replaced by U+FFFD. As its documentation says, valid UTF-8 is decoded
/// unchanged; the replacement itself is only named.
#[verifier::external_body]
fn lossy_utf8(bytes: &[u8]) -> (r: String)
    ensures
        r@ == lossy_text(bytes@),
        valid_utf8(bytes@) ==> r@ == decode_utf8(bytes@),
{
    String::from_utf8_lossy(bytes).into_owned()
}

/// The header list with every value that is not visible ASCII shown as empty.
pub open spec fn header_texts(headers: Seq<(Seq<char>, Option<Seq<char>>)>) -> Seq<
    (Seq<char>, Seq<char>),
> {
    headers.map_values(|h: (Seq<char>, Option<Seq<char>>)| (h.0, match h.1 {
        Some(v) => v,
        None => Seq::empty(),
    }))
}

/// The body of a request as the curl command carries it: its bytes decoded
/// (invalid UTF-8 replaced), when there are any.
pub open spec fn body_text(body: Option<Seq<u8>>) -> Option<Seq<char>> {
    match body {
        Some(bytes) => if bytes.len() > 0 {
            Some(lossy_text(bytes))
        } else {
            None
        },
        None => None,
    }
}

/// Renders a built request as a curl command.
pub fn render(req: &HttpRequest) -> (r: String)
    ensures
        r@ == curl_text(
            request_method_of(*req),
            request_url_of(*req),
            header_texts(request_headers_of(*req)),
            body_text(request_body_of(*req)),
        ),
{
    let method = request_method_text(req);
    let url = request_url_text(req);
    let raw = request_headers(req);
    let mut headers: Vec<(String, String)> = Vec::new();
    let mut i: usize = 0;
    while i < raw.len()
        invariant
            i <= raw@.len(),
            pair_views(headers@) == header_texts(header_entry_views(raw@)).take(i as int),
        decreases raw@.len() - i,
    {
        let value = match &raw[i].1 {
            Some(v) => v.clone(),
            None => String::new(),
        };
        assert(header_texts(header_entry_views(raw@))[i as int] == (raw@[i as int].0@, value@));
        let ghost prev = headers@;
        headers.push((raw[i].0.clone(), value));
        assert(pair_views(headers@) =~= pair_views(prev).push(
            header_texts(header_entry_views(raw@))[i as int],
        ));
        assert(pair_views(headers@) =~= header_texts(header_entry_views(raw@)).take(i + 1));
        i = i + 1;
    }
    let text = match request_body_bytes(req) {
        Some(bytes) => if bytes.len() > 0 {
            Some(lossy_utf8(bytes.as_slice()))
        } else {
            None
        },
        None => None,
    };
    assert(header_texts(header_entry_views(raw@)).take(raw@.len() as int) =~= header_texts(
        header_entry_views(raw@),
    ));
    let r = match &text {
        Some(t) => curl_command(method.as_str(), url.as_str(), &headers, Some(t.as_str())),
        None => curl_command(method.as_str(), url.as_str(), &headers, None),
    };
    r
}

/// The names of `s` come in order.
pub open spec fn names_sorted(s: Seq<(Seq<char>, Seq<char>)>) -> bool {
    forall|i: int, j: int| 0 <= i < j < s.len() ==> name_le(#[trigger] s[i].0, #[trigger] s[j].0)
}

proof fn lemma_name_le_total(a: Seq<char>, b: Seq<char>)
    ensures
        name_le(a, b) || name_le(b, a),
    decreases a.len(),
{
    if a.len() > 0 && b.len() > 0 && a[0] == b[0] {
        lemma_name_le_total(a.drop_first(), b.drop_first());
    }
}

proof fn lemma_name_le_transitive(a: Seq<char>, b: Seq<char>, c: Seq<char>)
    requires
        name_le(a, b),
        name_le(b, c),
    ensures
        name_le(a, c),
    decreases a.len(),
{
    if a.len() > 0 && b.len() > 0 && c.len() > 0 && a[0] == b[0] && b[0] == c[0] {
        lemma_name_le_transitive(a.drop_first(), b.drop_first(), c.drop_first());
    }
}

proof fn lemma_insert_by_name(s: Seq<(Seq<char>, Seq<char>)>, e: (Seq<char>, Seq<char>))
    requires
        names_sorted(s),
    ensures
        names_sorted(insert_by_name(s, e)),
        insert_by_name(s, e).to_multiset() == s.to_multiset().insert(e),
        forall|k: int|
            0 <= k < insert_by_name(s, e).len() ==> #[trigger] insert_by_name(s, e)[k] == e
                || s.contains(insert_by_name(s, e)[k]),
        insert_by_name(s, e).len() == s.len() + 1,
    decreases s.len(),
{
    broadcast use vstd::seq_lib::group_to_multiset_ensures;

    if s.len() == 0 {
        assert(seq![e] =~= Seq::<(Seq<char>, Seq<char>)>::empty().push(e));
    } else if name_le(s.last().0, e.0) {
        let r = s.push(e);
        assert forall|i: int, j: int| 0 <= i < j < r.len() implies name_le(#[trigger] r[i].0, #[trigger] r[j].0) by {
            if j == s.len() {
                if i < s.len() - 1 {
                    lemma_name_le_transitive(s[i].0, s.last().0, e.0);
                }
            }
        }
        assert forall|k: int| 0 <= k < r.len() implies #[trigger] r[k] == e || s.contains(r[k]) by {
            if k < s.len() {
                assert(s[k] == r[k]);
            }
        }
    } else {
        let init = s.drop_last();
        let last = s.last();
        assert(names_sorted(init));
        lemma_insert_by_name(init, e);
        let mid = insert_by_name(init, e);
        let r = mid.push(last);
        lemma_name_le_total(last.0, e.0);
        assert forall|i: int, j: int| 0 <= i < j < r.len() implies name_le(#[trigger] r[i].0, #[trigger] r[j].0) by {
            if j == mid.len() {
                assert(mid[i] == e || init.contains(mid[i]));
                if mid[i] != e {
                    let t = choose|t: int| 0 <= t < init.len() && init[t] == mid[i];
                    assert(s[t] == init[t]);
                    assert(name_le(s[t].0, s[s.len() - 1].0));
                }
            } else {
                assert(r[i] == mid[i] && r[j] == mid[j]);
            }
        }
        assert forall|k: int| 0 <= k < r.len() implies #[trigger] r[k] == e || s.contains(r[k]) by {
            if k < mid.len() {
                assert(r[k] == mid[k]);
                if mid[k] != e {
                    let t = choose|t: int| 0 <= t < init.len() && init[t] == mid[k];
                    assert(s[t] == init[t]);
                }
            } else {
                assert(s[s.len() - 1] == r[k]);
            }
        }
        assert(init.push(last) =~= s);
    }
}

/// Sorting headers by name gives the same headers, their names in order.
pub proof fn law_sort_by_name(s: Seq<(Seq<char>, Seq<char>)>)
    ensures
        names_sorted(sort_by_name(s)),
        sort_by_name(s).to_multiset() == s.to_multiset(),
    decreases s.len(),
{
    broadcast use vstd::seq_lib::group_to_multiset_ensures;

    if s.len() == 0 {
        assert(s.to_multiset() =~= Seq::<(Seq<char>, Seq<char>)>::empty().to_multiset());
    } else {
        law_sort_by_name(s.drop_last());
        lemma_insert_by_name(sort_by_name(s.drop_last()), s.last());
        assert(s.drop_last().push(s.last()) =~= s);
    }
}

/// How a POSIX shell reads one word made of single-quoted parts and
/// backslash-escaped characters (`quoted`: whether a single quote is open).
/// `None` where the text is not such a word: a quote left open, or an
/// unquoted character that is neither a quote nor an escape.
pub open spec fn shell_read(q: Seq<char>, quoted: bool) -> Option<Seq<char>>
    decreases q.len(),
{
    if q.len() == 0 {
        if quoted {
            None
        } else {
            Some(Seq::empty())
        }
    } else if quoted {
        if q[0] == '\'' {
            shell_read(q.drop_first(), false)
        } else {
            match shell_read(q.drop_first(), true) {
                Some(r) => Some(seq![q[0]] + r),
                None => None,
            }
        }
    } else if q[0] == '\'' {
        shell_read(q.drop_first(), true)
    } else if q[0] == '\\' && q.len() >= 2 {
        match shell_read(q.skip(2), false) {
            Some(r) => Some(seq![q[1]] + r),
            None => None,
        }
    } else {
        None
    }
}

proof fn lemma_escape_quotes_append(a: Seq<char>, b: Seq<char>)
    ensures
        escape_quotes(a + b) == escape_quotes(a) + escape_quotes(b),
    decreases b.len(),
{
    if b.len() == 0 {
        assert(a + b =~= a);
        assert(escape_quotes(a) + escape_quotes(b) =~= escape_quotes(a));
    } else {
        lemma_escape_quotes_append(a, b.drop_last());
        assert((a + b).drop_last() =~= a + b.drop_last());
        assert((a + b).last() == b.last());
        let tail = if b.last() == '\'' {
            seq!['\'', '\\', '\'', '\'']
        } else {
            seq![b.last()]
        };
        assert(escape_quotes(a + b) == escape_quotes(a + b.drop_last()) + tail);
        assert(escape_quotes(b) == escape_quotes(b.drop_last()) + tail);
        assert(escape_quotes(a) + escape_quotes(b) =~= escape_quotes(a) + escape_quotes(
            b.drop_last(),
        ) + tail);
    }
}

proof fn lemma_read_escaped(s: Seq<char>, q: Seq<char>)
    ensures
        shell_read(escape_quotes(s) + q, true) == match shell_read(q, true) {
            Some(r) => Some(s + r),
            None => None::<Seq<char>>,
        },
    decreases s.len(),
{
    if s.len() == 0 {
        assert(escape_quotes(s) == Seq::<char>::empty());
        assert(escape_quotes(s) + q =~= q);
        match shell_read(q, true) {
            Some(r) => assert(s + r =~= r),
            None => {},
        }
    } else {
        let c = s[0];
        let rest = s.drop_first();
        assert(s =~= seq![c] + rest);
        lemma_escape_quotes_append(seq![c], rest);
        assert(seq![c].drop_last() =~= Seq::<char>::empty());
        let head = if c == '\'' {
            seq!['\'', '\\', '\'', '\'']
        } else {
            seq![c]
        };
        assert(escape_quotes(Seq::<char>::empty()) == Seq::<char>::empty());
        assert(escape_quotes(seq![c]) =~= head);
        lemma_read_escaped(rest, q);
        let w = escape_quotes(rest) + q;
        assert(escape_quotes(s) + q =~= head + w);
        let t = head + w;
        if c == '\'' {
            let t1 = t.drop_first();
            let t3 = seq!['\''] + w;
            assert(t1 =~= seq!['\\', '\'', '\''] + w);
            assert(t1.skip(2) =~= t3);
            assert(t3.drop_first() =~= w);
            assert(shell_read(t, true) == shell_read(t1, false));
            assert(shell_read(t3, false) == shell_read(w, true));
            assert(shell_read(t1, false) == match shell_read(t3, false) {
                Some(r) => Some(seq![c] + r),
                None => None::<Seq<char>>,
            });
        } else {
            assert(t.drop_first() =~= w);
            assert(shell_read(t, true) == match shell_read(w, true) {
                Some(r) => Some(seq![c] + r),
                None => None::<Seq<char>>,
            });
        }
        match shell_read(q, true) {
            Some(r) => assert(seq![c] + (rest + r) =~= s + r),
            None => {},
        }
    }
}

/// A shell reads a quoted value back as the value itself: whatever `s`
/// holds, `shell_quote(s)` is one word that stands for exactly `s`.
pub proof fn law_shell_quote_reads_back(s: Seq<char>)
    ensures
        shell_read(shell_quoted(s), false) == Some(s),
{
    let q = seq!['\''];
    lemma_read_escaped(s, q);
    assert(shell_quoted(s).drop_first() =~= escape_quotes(s) + q);
    assert(q.drop_first() =~= Seq::<char>::empty());
    assert(shell_read(Seq::<char>::empty(), false) == Some(Seq::<char>::empty()));
    assert(shell_read(q, true) == Some(Seq::<char>::empty()));
    assert(s + Seq::<char>::empty() =~= s);
    assert(shell_read(shell_quoted(s), false) == shell_read(escape_quotes(s) + q, true));
}

/// A name comes before every longer name that it begins, and no longer name
/// that begins with it comes before it: `users/get` sorts before
/// `users/get-all`, as `str` orders them.
pub proof fn law_name_prefix_first(a: Seq<char>, x: Seq<char>)
    ensures
        name_le(a, a + x),
        x.len() > 0 ==> !name_le(a + x, a),
    decreases a.len(),
{
    if a.len() == 0 {
        assert(a + x =~= x);
    } else {
        law_name_prefix_first(a.drop_first(), x);
        assert((a + x).drop_first() =~= a.drop_first() + x);
        assert((a + x)[0] == a[0]);
    }
}

/// Past a common beginning, the first differing character decides the order
/// of two names.
pub proof fn law_name_first_difference(p: Seq<char>, c: char, d: char, s: Seq<char>, t: Seq<char>)
    requires
        c != d,
    ensures
        name_le(p + seq![c] + s, p + seq![d] + t) <==> c < d,
    decreases p.len(),
{
    let a = p + seq![c] + s;
    let b = p + seq![d] + t;
    if p.len() == 0 {
        assert(a[0] == c);
        assert(b[0] == d);
    } else {
        law_name_first_difference(p.drop_first(), c, d, s, t);
        assert(a.drop_first() =~= p.drop_first() + seq![c] + s);
        assert(b.drop_first() =~= p.drop_first() + seq![d] + t);
        assert(a[0] == p[0] && b[0] == p[0]);
    }
}

} // verus!
