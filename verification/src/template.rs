use base64::Engine;
use reqwest::blocking::Request as HttpRequest;
use vstd::prelude::*;
use vstd::utf8::encode_utf8;

use crate::config::{Config, TemplateValue, Variables};
use crate::errors::{jinja_error_detail, jinja_error_is_undefined, jinja_error_kind, jinja_error_text};
use crate::text::{starts_with, str_eq};

verus! {

/// The request that a template describes, before rendering.
pub struct Request {
    pub url: String,
    pub method: String,
    pub body: String,
    pub headers: Vec<(String, String)>,
}

/// A request template read from a TOML file.
pub struct Template {
    pub name: String,
    pub description: String,
    pub variables: Variables,
    pub request: Request,
}

/// The method of a request whose template names none.
pub fn default_method() -> (r: String)
    ensures
        r@ == "GET"@,
{
    String::from_str("GET")
}

/// The environment variables that a template may read with `env()`, in the
/// order in which they were listed.
#[derive(Clone)]
pub struct EnvVars {
    entries: Vec<(String, String)>,
}

/// The value of the first entry named `name`.
pub open spec fn env_lookup(entries: Seq<(Seq<char>, Seq<char>)>, name: Seq<char>) -> Option<
    Seq<char>,
>
    decreases entries.len(),
{
    if entries.len() == 0 {
        None
    } else if entries[0].0 == name {
        Some(entries[0].1)
    } else {
        env_lookup(entries.drop_first(), name)
    }
}

impl View for EnvVars {
    type V = Seq<(Seq<char>, Seq<char>)>;

    closed spec fn view(&self) -> Seq<(Seq<char>, Seq<char>)> {
        self.entries@.map_values(|e: (String, String)| (e.0@, e.1@))
    }
}

impl EnvVars {
    /// No environment variables.
    pub fn new() -> (r: EnvVars)
        ensures
            r@ == Seq::<(Seq<char>, Seq<char>)>::empty(),
    {
        let r = EnvVars { entries: Vec::new() };
        assert(r@ =~= Seq::<(Seq<char>, Seq<char>)>::empty());
        r
    }

    /// The environment variables `pairs`, in order.
    pub fn from_pairs(pairs: Vec<(String, String)>) -> (r: EnvVars)
        ensures
            r@ == pairs@.map_values(|e: (String, String)| (e.0@, e.1@)),
    {
        EnvVars { entries: pairs }
    }

    /// The value of the variable `name`, if it is set.
    pub fn lookup(&self, name: &str) -> (r: Option<String>)
        ensures
            match r {
                Some(v) => env_lookup(self@, name@) == Some(v@),
                None => env_lookup(self@, name@) is None,
            },
    {
        let ghost all = self@;
        assert(all.skip(0) =~= all);
        let mut i: usize = 0;
        while i < self.entries.len()
            invariant
                i <= self.entries@.len(),
                all == self@,
                all.len() == self.entries@.len(),
                env_lookup(all, name@) == env_lookup(all.skip(i as int), name@),
            decreases self.entries@.len() - i,
        {
            assert(all.skip(i as int)[0] == all[i as int]);
            assert(all.skip(i as int).drop_first() =~= all.skip(i + 1));
            if str_eq(self.entries[i].0.as_str(), name) {
                return Some(self.entries[i].1.clone());
            }
            i = i + 1;
        }
        assert(all.skip(i as int) =~= Seq::<(Seq<char>, Seq<char>)>::empty());
        None
    }
}

/// `minijinja::Error::new(ErrorKind::InvalidOperation, msg)`: the error that
/// a helper function reports for bad arguments. As `Error::new` and the
/// `Display` impls show, its kind is `invalid operation`, not an undefined
/// value, its detail is `msg`, and it reads `invalid operation: ` and `msg`
/// (a new error names no template).
#[verifier::external_body]
fn arg_error(msg: &str) -> (r: minijinja::Error)
    ensures
        jinja_error_kind(r) == "invalid operation"@,
        !jinja_error_is_undefined(r),
        jinja_error_detail(r) == Some(msg@),
        jinja_error_text(r) == "invalid operation: "@ + msg@,
{
    minijinja::Error::new(minijinja::ErrorKind::InvalidOperation, msg.to_string())
}

/// `e` is the error of a helper function with the message `msg`.
pub open spec fn is_helper_error(e: minijinja::Error, msg: Seq<char>) -> bool {
    &&& jinja_error_kind(e) == "invalid operation"@
    &&& !jinja_error_is_undefined(e)
    &&& jinja_error_detail(e) == Some(msg)
    &&& jinja_error_text(e) == "invalid operation: "@ + msg
}

/// The template helper `env(name)`: the value of an environment variable.
pub fn env_function(name: Option<String>, env: &EnvVars) -> (r: Result<String, minijinja::Error>)
    ensures
        match name {
            Some(n) => match env_lookup(env@, n@) {
                Some(v) => r matches Ok(s) && s@ == v,
                None => r matches Err(e) && is_helper_error(
                    e,
                    "environment variable '"@ + n@ + "' is not set"@,
                ),
            },
            None => r matches Err(e) && is_helper_error(
                e,
                "env() requires 1 argument: the variable name — e.g. {{ env('API_TOKEN') }}"@,
            ),
        },
{
    match name {
        None => Err(
            arg_error(
                "env() requires 1 argument: the variable name — e.g. {{ env('API_TOKEN') }}",
            ),
        ),
        Some(n) => match env.lookup(n.as_str()) {
            Some(v) => Ok(v),
            None => {
                let mut msg = String::from_str("environment variable '");
                msg.append(n.as_str());
                msg.append("' is not set");
                Err(arg_error(msg.as_str()))
            },
        },
    }
}

/// The template helper `bearer(token)`: an `Authorization` value for a
/// bearer token.
pub fn bearer_function(token: Option<String>) -> (r: Result<String, minijinja::Error>)
    ensures
        match token {
            Some(t) => r matches Ok(s) && s@ == "Bearer "@ + t@,
            None => r matches Err(e) && is_helper_error(
                e,
                "bearer() requires 1 argument: the token — e.g. {{ bearer(token) }}"@,
            ),
        },
{
    match token {
        Some(t) => {
            let mut r = String::from_str("Bearer ");
            r.append(t.as_str());
            Ok(r)
        },
        None => Err(arg_error("bearer() requires 1 argument: the token — e.g. {{ bearer(token) }}")),
    }
}

/// The base64 digit for a six-bit value.
pub open spec fn base64_digit(v: int) -> char {
    if v < 26 {
        (v + 65) as char
    } else if v < 52 {
        (v - 26 + 97) as char
    } else if v < 62 {
        (v - 52 + 48) as char
    } else if v == 62 {
        '+'
    } else {
        '/'
    }
}

/// Base64 with the standard alphabet and `=` padding (RFC 4648, section 4).
pub open spec fn base64_encode(b: Seq<u8>) -> Seq<char>
    decreases b.len(),
{
    if b.len() == 0 {
        Seq::empty()
    } else if b.len() == 1 {
        seq![base64_digit((b[0] as int) / 4), base64_digit(((b[0] as int) % 4) * 16), '=', '=']
    } else if b.len() == 2 {
        seq![
            base64_digit((b[0] as int) / 4),
            base64_digit(((b[0] as int) % 4) * 16 + (b[1] as int) / 16),
            base64_digit(((b[1] as int) % 16) * 4),
            '=',
        ]
    } else {
        seq![
            base64_digit((b[0] as int) / 4),
            base64_digit(((b[0] as int) % 4) * 16 + (b[1] as int) / 16),
            base64_digit(((b[1] as int) % 16) * 4 + (b[2] as int) / 64),
            base64_digit((b[2] as int) % 64),
        ] + base64_encode(b.skip(3))
    }
}

/// `base64::engine::general_purpose::STANDARD.encode` of the UTF-8 bytes of
/// `text`: standard alphabet, padded with `=`. It panics only when the length
/// of the encoding overflows, which the bound on `text` rules out.
#[verifier::external_body]
fn base64_standard(text: &str) -> (r: String)
    requires
        text@.len() <= usize::MAX / 16,
    ensures
        r@ == base64_encode(encode_utf8(text@)),
{
    base64::engine::general_purpose::STANDARD.encode(text)
}

/// The template helper `basic(username, password)`: an `Authorization` value
/// for HTTP basic authentication.
pub fn basic_function(username: Option<String>, password: Option<String>) -> (r: Result<
    String,
    minijinja::Error,
>)
    requires
        username matches Some(u) ==> u@.len() <= usize::MAX / 64,
        password matches Some(p) ==> p@.len() <= usize::MAX / 64,
    ensures
        match (username, password) {
            (Some(u), Some(p)) => r matches Ok(s) && s@ == "Basic "@ + base64_encode(
                encode_utf8(u@ + ":"@ + p@),
            ),
            _ => r matches Err(e) && is_helper_error(
                e,
                "basic() requires 2 arguments: username and password — e.g. {{ basic(user, pass) }}"@,
            ),
        },
{
    match (username, password) {
        (Some(u), Some(p)) => {
            let mut credentials = u;
            credentials.append(":");
            credentials.append(p.as_str());
            proof {
                reveal_strlit(":");
            }
            let encoded = base64_standard(credentials.as_str());
            let mut r = String::from_str("Basic ");
            r.append(encoded.as_str());
            Ok(r)
        },
        _ => Err(
            arg_error(
                "basic() requires 2 arguments: username and password — e.g. {{ basic(user, pass) }}",
            ),
        ),
    }
}

/// What minijinja renders for the template text `source`, with `variables`
/// as its context, no auto-escaping, and the helpers `env` (reading `env`),
/// `bearer` and `basic`; or the text of the error it reports.
pub uninterp spec fn rendered(
    source: Seq<char>,
    variables: Map<Seq<char>, TemplateValue>,
    env: Seq<(Seq<char>, Seq<char>)>,
) -> Result<Seq<char>, Seq<char>>;

/// Renders `source` with minijinja (`Environment::render_str`) in an
/// environment that has no auto-escaping and the helpers `env`, `bearer` and
/// `basic`. Trusted: the outcome is taken to depend on the text, the
/// variables and the environment variables alone, and is named `rendered`;
/// nothing more is claimed of it.
#[verifier::external_body]
fn render_template(source: &str, variables: &Variables, env: &EnvVars) -> (r: Result<String, String>)
    ensures
        match r {
            Ok(s) => rendered(source@, variables@, env@) == Ok::<Seq<char>, Seq<char>>(s@),
            Err(e) => rendered(source@, variables@, env@) == Err::<Seq<char>, Seq<char>>(e@),
        },
{
    let mut environment = minijinja::Environment::new();
    environment.set_auto_escape_callback(|_| minijinja::AutoEscape::None);
    let env = env.clone();
    environment.add_function("env", move |name: Option<String>| env_function(name, &env));
    environment.add_function("bearer", bearer_function);
    environment.add_function("basic", basic_function);
    let context: std::collections::BTreeMap<&str, minijinja::Value> =
        variables.as_slice().iter().map(|(k, v)| (k.as_str(), jinja_value(v))).collect();
    environment.render_str(source, context).map_err(|e| e.to_string())
}

#[verifier::external_type_specification]
#[verifier::external_body]
pub struct ExJinjaValue(minijinja::Value);

/// A minijinja text value (`Value::from(&str)`); nothing is claimed of it.
#[verifier::external_body]
fn jinja_text(s: &str) -> (r: minijinja::Value) {
    minijinja::Value::from(s)
}

/// A minijinja integer value (`Value::from(i64)`); nothing is claimed of it.
#[verifier::external_body]
fn jinja_integer(i: i64) -> (r: minijinja::Value) {
    minijinja::Value::from(i)
}

/// A minijinja boolean value (`Value::from(bool)`); nothing is claimed of it.
#[verifier::external_body]
fn jinja_boolean(b: bool) -> (r: minijinja::Value) {
    minijinja::Value::from(b)
}

/// The minijinja value that `Value::from_serialize` makes of a TOML value;
/// nothing is claimed of it.
#[verifier::external_body]
fn jinja_toml(v: &toml::Value) -> (r: minijinja::Value) {
    minijinja::Value::from_serialize(v)
}

/// The minijinja value that stands for a template variable in the context.
fn jinja_value(v: &TemplateValue) -> minijinja::Value {
    match v {
        TemplateValue::Text(s) => jinja_text(s.as_str()),
        TemplateValue::Integer(i) => jinja_integer(*i),
        TemplateValue::Boolean(b) => jinja_boolean(*b),
        TemplateValue::Other(o) => jinja_toml(o),
    }
}

/// The message of a rendering failure.
pub open spec fn render_failure(e: Seq<char>) -> Seq<char> {
    "Template rendering failed: "@ + e
}

/// The outcome of rendering `source` for a template with `variables`.
pub open spec fn render_outcome(
    source: Seq<char>,
    variables: Map<Seq<char>, TemplateValue>,
    env: Seq<(Seq<char>, Seq<char>)>,
) -> Result<Seq<char>, Seq<char>> {
    match rendered(source, variables, env) {
        Ok(s) => Ok(s),
        Err(e) => Err(render_failure(e)),
    }
}

/// The variables after the overrides `pairs` are applied in order, each as a
/// string.
pub open spec fn with_overrides(
    variables: Map<Seq<char>, TemplateValue>,
    pairs: Seq<(String, String)>,
) -> Map<Seq<char>, TemplateValue>
    decreases pairs.len(),
{
    if pairs.len() == 0 {
        variables
    } else {
        with_overrides(variables, pairs.drop_last()).insert(
            pairs.last().0@,
            TemplateValue::Text(pairs.last().1),
        )
    }
}

/// A character allowed in an HTTP method or header name: a `tchar` of RFC 9110.
pub open spec fn is_token_char(c: char) -> bool {
    ('a' <= c && c <= 'z') || ('A' <= c && c <= 'Z') || ('0' <= c && c <= '9') || c == '!' || c
        == '#' || c == '$' || c == '%' || c == '&' || c == '\'' || c == '*' || c == '+' || c == '-'
        || c == '.' || c == '^' || c == '_' || c == '`' || c == '|' || c == '~'
}

/// `s` is a valid HTTP method: a non-empty token.
pub open spec fn is_method_token(s: Seq<char>) -> bool {
    s.len() > 0 && forall|i: int| 0 <= i < s.len() ==> is_token_char(#[trigger] s[i])
}

#[verifier::external_type_specification]
#[verifier::external_body]
pub struct ExMethod(reqwest::Method);

#[verifier::external_type_specification]
#[verifier::external_body]
pub struct ExClient(reqwest::blocking::Client);

#[verifier::external_type_specification]
#[verifier::external_body]
pub struct ExRequestBuilder(reqwest::blocking::RequestBuilder);

#[verifier::external_type_specification]
#[verifier::external_body]
pub struct ExHttpRequest(HttpRequest);

/// The text of an HTTP method (`Method::as_str`).
pub uninterp spec fn method_text(m: reqwest::Method) -> Seq<char>;

/// `reqwest::Method::from_bytes` (the `http` crate): a method is accepted
/// exactly when it is a non-empty token, the method keeps the text it was
/// made from (a standard method is matched byte for byte, any other holds
/// its bytes), and the error displays as `invalid HTTP method`.
#[verifier::external_body]
fn parse_method(s: &str) -> (r: Result<reqwest::Method, String>)
    ensures
        r is Ok <==> is_method_token(s@),
        r matches Ok(m) ==> method_text(m) == s@,
        r matches Err(e) ==> e@ == "invalid HTTP method"@,
{
    reqwest::Method::from_bytes(s.as_bytes()).map_err(|e| e.to_string())
}

/// `reqwest::blocking::ClientBuilder::build` on a default builder, its error
/// given as its `Display` text. It fails when the TLS backend or the resolver
/// cannot be set up, which is a state of the process, not of any argument;
/// nothing is claimed of which outcome comes.
#[verifier::external_body]
fn new_client() -> (r: Result<reqwest::blocking::Client, String>) {
    reqwest::blocking::Client::builder().build().map_err(|e| e.to_string())
}

/// What reqwest keeps of a request under construction: its method, its URL
/// (as `Url::as_str` writes it), the headers appended so far as they were
/// given, and its body; `None` once the builder holds an error.
pub uninterp spec fn builder_parts(b: reqwest::blocking::RequestBuilder) -> Option<
    (Seq<char>, Seq<char>, Seq<(Seq<char>, Seq<char>)>, Option<Seq<char>>),
>;

/// How `Client::request` starts a request to the URL written `url`: the URL
/// as `IntoUrl` parses it, with any user and password taken out, and the
/// headers that this adds (an `authorization` header for such a user); `None`
/// when the URL does not parse or has no host.
pub uninterp spec fn url_start(url: Seq<char>) -> Option<(Seq<char>, Seq<(Seq<char>, Seq<char>)>)>;

/// Whether `HeaderName::try_from` accepts the header name `name`.
pub uninterp spec fn header_name_accepted(name: Seq<char>) -> bool;

/// Whether `HeaderValue::try_from` accepts the header value `value`.
pub uninterp spec fn header_value_accepted(value: Seq<char>) -> bool;

/// What `HeaderMap::iter` visits after `appended` is appended in order to an
/// empty map: each name as `HeaderName` writes it, with its value as text
/// where `HeaderValue::to_str` accepts it.
pub uninterp spec fn header_map_entries(appended: Seq<(Seq<char>, Seq<char>)>) -> Seq<
    (Seq<char>, Option<Seq<char>>),
>;

/// The method of a built request (`Request::method`, `Method::as_str`).
pub uninterp spec fn request_method_of(req: HttpRequest) -> Seq<char>;

/// The URL of a built request (`Request::url`, `Url::as_str`).
pub uninterp spec fn request_url_of(req: HttpRequest) -> Seq<char>;

/// The headers of a built request as `HeaderMap::iter` visits them, each
/// value as text where `HeaderValue::to_str` accepts it.
pub uninterp spec fn request_headers_of(req: HttpRequest) -> Seq<(Seq<char>, Option<Seq<char>>)>;

/// The bytes of the body of a built request, when it has one held in memory
/// (`Body::as_bytes`).
pub uninterp spec fn request_body_of(req: HttpRequest) -> Option<Seq<u8>>;

/// `Client::request`: a builder for a request of `method` to `url`. As the
/// source shows, the URL goes through `IntoUrl`, then `RequestBuilder::new`,
/// which moves a user and password into a header; a URL that is refused is
/// kept as an error that `build` reports.
#[verifier::external_body]
fn start_request(client: &reqwest::blocking::Client, method: reqwest::Method, url: &str) -> (r:
    reqwest::blocking::RequestBuilder)
    ensures
        builder_parts(r) == match url_start(url@) {
            Some((u, hs)) => Some((method_text(method), u, hs, None::<Seq<char>>)),
            None => None,
        },
{
    client.request(method, url)
}

/// `RequestBuilder::body` with a string body: it sets the body unless the
/// builder already holds an error.
#[verifier::external_body]
fn with_body(builder: reqwest::blocking::RequestBuilder, body: String) -> (r:
    reqwest::blocking::RequestBuilder)
    ensures
        builder_parts(r) == match builder_parts(builder) {
            Some((m, u, hs, _)) => Some((m, u, hs, Some(body@))),
            None => None,
        },
{
    builder.body(body)
}

/// `RequestBuilder::header`: appends a header when its name and value are
/// accepted; otherwise the builder keeps an error that `build` reports. A
/// builder that already holds an error is left as it is.
#[verifier::external_body]
fn with_header(builder: reqwest::blocking::RequestBuilder, name: &str, value: String) -> (r:
    reqwest::blocking::RequestBuilder)
    ensures
        builder_parts(r) == match builder_parts(builder) {
            Some((m, u, hs, b)) => if header_name_accepted(name@) && header_value_accepted(
                value@,
            ) {
                Some((m, u, hs.push((name@, value@)), b))
            } else {
                None
            },
            None => None,
        },
{
    builder.header(name, value)
}

/// `RequestBuilder::build`, its error given as its `Display` text: the request
/// that the builder holds, or its error. A string body is held in memory as
/// its UTF-8 bytes.
#[verifier::external_body]
fn finish_request(builder: reqwest::blocking::RequestBuilder) -> (r: Result<HttpRequest, String>)
    ensures
        match builder_parts(builder) {
            Some((m, u, hs, b)) => r matches Ok(req) && request_method_of(req) == m
                && request_url_of(req) == u && request_headers_of(req) == header_map_entries(hs)
                && request_body_of(req) == match b {
                Some(t) => Some(encode_utf8(t)),
                None => None,
            },
            None => r is Err,
        },
{
    builder.build().map_err(|e| e.to_string())
}

/// The text that a rendering gave, or nothing where it failed.
pub open spec fn rendered_value(o: Result<Seq<char>, Seq<char>>) -> Seq<char> {
    match o {
        Ok(s) => s,
        Err(_) => Seq::empty(),
    }
}

/// The headers of a template with their values rendered.
pub open spec fn rendered_headers(
    headers: Seq<(String, String)>,
    variables: Map<Seq<char>, TemplateValue>,
    env: Seq<(Seq<char>, Seq<char>)>,
) -> Seq<(Seq<char>, Seq<char>)> {
    headers.map_values(
        |h: (String, String)| (h.0@, rendered_value(render_outcome(h.1@, variables, env))),
    )
}

/// Every header name and value is accepted by the HTTP library.
pub open spec fn headers_accepted(hs: Seq<(Seq<char>, Seq<char>)>) -> bool {
    forall|i: int|
        0 <= i < hs.len() ==> header_name_accepted(#[trigger] hs[i].0) && header_value_accepted(
            hs[i].1,
        )
}

/// What the request of a template holds once every part has rendered: its
/// method, its URL as parsed, the headers that the URL brings followed by the
/// rendered headers in order, and the rendered body unless it is empty;
/// `None` when the HTTP library refuses the URL or a header.
pub open spec fn built_parts(t: Template, env: Seq<(Seq<char>, Seq<char>)>) -> Option<
    (Seq<char>, Seq<char>, Seq<(Seq<char>, Seq<char>)>, Option<Seq<char>>),
> {
    let vars = t.variables@;
    let url = rendered_value(render_outcome(t.request.url@, vars, env));
    let body = rendered_value(render_outcome(t.request.body@, vars, env));
    let hs = rendered_headers(t.request.headers@, vars, env);
    match url_start(url) {
        Some((u, start)) => if headers_accepted(hs) {
            Some(
                (
                    t.request.method@,
                    u,
                    start + hs,
                    if body.len() > 0 {
                        Some(body)
                    } else {
                        None
                    },
                ),
            )
        } else {
            None
        },
        None => None,
    }
}

/// The URL of `t` renders and its method is a token, so that a client is
/// set up before the body and headers are rendered.
pub open spec fn client_step_reached(t: Template, env: Seq<(Seq<char>, Seq<char>)>) -> bool {
    render_outcome(t.request.url@, t.variables@, env) is Ok && is_method_token(t.request.method@)
}

/// `req` is the request made of `parts`.
pub open spec fn request_holds(
    req: HttpRequest,
    parts: (Seq<char>, Seq<char>, Seq<(Seq<char>, Seq<char>)>, Option<Seq<char>>),
) -> bool {
    &&& request_method_of(req) == parts.0
    &&& request_url_of(req) == parts.1
    &&& request_headers_of(req) == header_map_entries(parts.2)
    &&& request_body_of(req) == match parts.3 {
        Some(t) => Some(encode_utf8(t)),
        None => None,
    }
}

/// The first header whose value does not render, as a failure message.
pub open spec fn header_failure(
    headers: Seq<(String, String)>,
    variables: Map<Seq<char>, TemplateValue>,
    env: Seq<(Seq<char>, Seq<char>)>,
) -> Option<Seq<char>>
    decreases headers.len(),
{
    if headers.len() == 0 {
        None
    } else {
        match render_outcome(headers[0].1@, variables, env) {
            Err(e) => Some(e),
            Ok(_) => header_failure(headers.drop_first(), variables, env),
        }
    }
}

/// Why building the request of a template fails before the HTTP client sees
/// it, in the order the checks are made: the URL does not render, the
/// method is not a token, the body does not render, a header does not render.
pub open spec fn request_failure(t: Template, env: Seq<(Seq<char>, Seq<char>)>) -> Option<Seq<char>> {
    let vars = t.variables@;
    match render_outcome(t.request.url@, vars, env) {
        Err(e) => Some(e),
        Ok(_) => if !is_method_token(t.request.method@) {
            Some("Invalid HTTP method '"@ + t.request.method@ + "': invalid HTTP method"@)
        } else {
            match render_outcome(t.request.body@, vars, env) {
                Err(e) => Some(e),
                Ok(_) => header_failure(t.request.headers@, vars, env),
            }
        },
    }
}

impl Template {
    /// Puts the variables of `config` under those of the template: the
    /// template's own values win.
    pub fn inherit_variables(&mut self, config: &Config)
        ensures
            final(self).variables@ == config.variables@.union_prefer_right(old(self).variables@),
            final(self).name == old(self).name,
            final(self).description == old(self).description,
            final(self).request == old(self).request,
    {
        let mut merged = config.variables.duplicate();
        merged.extend_from(&self.variables);
        self.variables = merged;
    }

    /// Sets each override, in order, as a string variable.
    pub fn apply_overrides(&mut self, overrides: &[(String, String)])
        ensures
            final(self).variables@ == with_overrides(old(self).variables@, overrides@),
            final(self).name == old(self).name,
            final(self).description == old(self).description,
            final(self).request == old(self).request,
    {
        let mut i: usize = 0;
        while i < overrides.len()
            invariant
                i <= overrides@.len(),
                self.variables@ == with_overrides(old(self).variables@, overrides@.take(i as int)),
                self.name == old(self).name,
                self.description == old(self).description,
                self.request == old(self).request,
            decreases overrides@.len() - i,
        {
            assert(overrides@.take(i + 1).drop_last() =~= overrides@.take(i as int));
            let name = overrides[i].0.clone();
            let value = overrides[i].1.clone();
            self.variables.insert(name, TemplateValue::Text(value));
            i = i + 1;
        }
        assert(overrides@.take(overrides@.len() as int) =~= overrides@);
    }

    /// Renders template text with this template's variables.
    pub fn render(&self, source: &str, env: &EnvVars) -> (r: Result<String, String>)
        ensures
            match r {
                Ok(s) => render_outcome(source@, self.variables@, env@) == Ok::<
                    Seq<char>,
                    Seq<char>,
                >(s@),
                Err(e) => render_outcome(source@, self.variables@, env@) == Err::<
                    Seq<char>,
                    Seq<char>,
                >(e@),
            },
    {
        match render_template(source, &self.variables, env) {
            Ok(s) => Ok(s),
            Err(e) => {
                let mut msg = String::from_str("Template rendering failed: ");
                msg.append(e.as_str());
                Err(msg)
            },
        }
    }

    /// Builds the HTTP request that this template describes with `client`:
    /// the URL, body and header values rendered, the method checked, and the
    /// request assembled by the HTTP library. The first failing step decides
    /// the error; where every part renders, the request is built exactly when
    /// the library accepts the URL and the headers, and its refusal reads
    /// `Failed to build request: ...`.
    pub fn build_request_with(&self, env: &EnvVars, client: &reqwest::blocking::Client) -> (r:
        Result<HttpRequest, String>)
        ensures
            request_failure(*self, env@) matches Some(m) ==> r matches Err(e) && e@ == m,
            request_failure(*self, env@) is None ==> match built_parts(*self, env@) {
                Some(p) => r matches Ok(req) && request_holds(req, p),
                None => r matches Err(e) && starts_with(e@, "Failed to build request: "@),
            },
    {
        let ghost vars = self.variables@;
        let ghost url_v = rendered_value(render_outcome(self.request.url@, vars, env@));
        let ghost body_v = rendered_value(render_outcome(self.request.body@, vars, env@));
        let ghost hs = rendered_headers(self.request.headers@, vars, env@);
        let url = self.render(self.request.url.as_str(), env)?;
        let method = match parse_method(self.request.method.as_str()) {
            Ok(m) => m,
            Err(e) => {
                return Err(invalid_method_message(self.request.method.as_str(), e.as_str()));
            },
        };
        let mut builder = start_request(client, method, url.as_str());
        let body = self.render(self.request.body.as_str(), env)?;
        let ghost body_opt: Option<Seq<char>> = if body_v.len() > 0 {
            Some(body_v)
        } else {
            None
        };
        if !body.as_str().is_empty() {
            builder = with_body(builder, body);
        }
        let ghost start = url_start(url_v);
        assert(builder_parts(builder) == match start {
            Some((u, st)) => Some((self.request.method@, u, st, body_opt)),
            None => None::<(Seq<char>, Seq<char>, Seq<(Seq<char>, Seq<char>)>, Option<Seq<char>>)>,
        });
        let ghost headers = self.request.headers@;
        assert(headers.skip(0) =~= headers);
        assert(hs.take(0) =~= Seq::<(Seq<char>, Seq<char>)>::empty());
        let mut i: usize = 0;
        while i < self.request.headers.len()
            invariant
                i <= headers.len(),
                headers == self.request.headers@,
                vars == self.variables@,
                hs == rendered_headers(headers, vars, env@),
                hs.len() == headers.len(),
                request_failure(*self, env@) == header_failure(headers.skip(i as int), vars, env@),
                builder_parts(builder) == match start {
                    Some((u, st)) => if headers_accepted(hs.take(i as int)) {
                        Some((self.request.method@, u, st + hs.take(i as int), body_opt))
                    } else {
                        None
                    },
                    None => None::<
                        (Seq<char>, Seq<char>, Seq<(Seq<char>, Seq<char>)>, Option<Seq<char>>),
                    >,
                },
            decreases headers.len() - i,
        {
            assert(headers.skip(i as int)[0] == headers[i as int]);
            assert(headers.skip(i as int).drop_first() =~= headers.skip(i + 1));
            let value = self.render(self.request.headers[i].1.as_str(), env)?;
            assert(hs[i as int] == (headers[i as int].0@, value@));
            assert(hs.take(i + 1) =~= hs.take(i as int).push(hs[i as int]));
            assert(headers_accepted(hs.take(i + 1)) == (headers_accepted(hs.take(i as int))
                && header_name_accepted(hs[i as int].0) && header_value_accepted(hs[i as int].1)))
                by {
                if headers_accepted(hs.take(i + 1)) {
                    assert forall|k: int| 0 <= k < i implies header_name_accepted(
                        #[trigger] hs.take(i as int)[k].0,
                    ) && header_value_accepted(hs.take(i as int)[k].1) by {
                        assert(hs.take(i as int)[k] == hs.take(i + 1)[k]);
                    }
                    assert(hs.take(i + 1)[i as int] == hs[i as int]);
                }
            }
            let ghost before = builder_parts(builder);
            builder = with_header(builder, self.request.headers[i].0.as_str(), value);
            proof {
                match start {
                    Some((u, st)) => {
                        assert((st + hs.take(i as int)).push(hs[i as int]) =~= st + hs.take(
                            i + 1,
                        ));
                    },
                    None => {},
                }
            }
            i = i + 1;
        }
        assert(hs.take(headers.len() as int) =~= hs);
        match finish_request(builder) {
            Ok(request) => Ok(request),
            Err(e) => Err(build_failure_message(e.as_str())),
        }
    }

    /// Builds the HTTP request that this template describes, with a new HTTP
    /// client. As `build_request_with`, except that setting up the client may
    /// fail (a state of the process), which reads `Failed to build request:
    /// ...` too.
    pub fn build_request(&self, env: &EnvVars) -> (r: Result<HttpRequest, String>)
        ensures
            request_failure(*self, env@) matches Some(m) ==> r matches Err(e) && (e@ == m || (
            client_step_reached(*self, env@) && starts_with(e@, "Failed to build request: "@))),
            request_failure(*self, env@) is None ==> match built_parts(*self, env@) {
                Some(p) => (r matches Ok(req) && request_holds(req, p)) || (r matches Err(e)
                    && starts_with(e@, "Failed to build request: "@)),
                None => r matches Err(e) && starts_with(e@, "Failed to build request: "@),
            },
    {
        let _url = self.render(self.request.url.as_str(), env)?;
        if let Err(e) = parse_method(self.request.method.as_str()) {
            return Err(invalid_method_message(self.request.method.as_str(), e.as_str()));
        }
        match new_client() {
            Ok(client) => self.build_request_with(env, &client),
            Err(e) => Err(build_failure_message(e.as_str())),
        }
    }
}

/// The error on a method that is not a token.
fn invalid_method_message(method: &str, e: &str) -> (r: String)
    requires
        e@ == "invalid HTTP method"@,
    ensures
        r@ == "Invalid HTTP method '"@ + method@ + "': invalid HTTP method"@,
{
    let mut msg = String::from_str("Invalid HTTP method '");
    msg.append(method);
    msg.append("': ");
    msg.append(e);
    proof {
        reveal_strlit("': ");
        reveal_strlit("invalid HTTP method");
        reveal_strlit("': invalid HTTP method");
        assert(msg@ =~= "Invalid HTTP method '"@ + method@ + "': invalid HTTP method"@);
    }
    msg
}

/// The error on a request that the HTTP library refuses to build.
fn build_failure_message(e: &str) -> (r: String)
    ensures
        starts_with(r@, "Failed to build request: "@),
{
    let mut msg = String::from_str("Failed to build request: ");
    msg.append(e);
    proof {
        reveal_strlit("Failed to build request: ");
    }
    assert(msg@.take(25) =~= "Failed to build request: "@);
    msg
}

/// The value of the last override of `name` among `pairs`, if any.
pub open spec fn last_override(pairs: Seq<(String, String)>, name: Seq<char>) -> Option<String>
    decreases pairs.len(),
{
    if pairs.len() == 0 {
        None
    } else if pairs.last().0@ == name {
        Some(pairs.last().1)
    } else {
        last_override(pairs.drop_last(), name)
    }
}

/// Overrides given on the command line win: a variable given several times
/// takes the last value given, as a string; a variable not given keeps its
/// value, or stays unset.
pub proof fn law_overrides_last_wins(
    variables: Map<Seq<char>, TemplateValue>,
    pairs: Seq<(String, String)>,
    name: Seq<char>,
)
    ensures
        last_override(pairs, name) matches Some(v) ==> with_overrides(variables, pairs).dom().contains(
            name,
        ) && with_overrides(variables, pairs)[name] == TemplateValue::Text(v),
        last_override(pairs, name) is None ==> (with_overrides(variables, pairs).dom().contains(name)
            == variables.dom().contains(name) && (variables.dom().contains(name) ==> with_overrides(
            variables,
            pairs,
        )[name] == variables[name])),
    decreases pairs.len(),
{
    if pairs.len() > 0 {
        law_overrides_last_wins(variables, pairs.drop_last(), name);
    }
}

/// A template's own variables win over those of the configuration, and the
/// configuration supplies the rest.
pub proof fn law_template_variables_win(
    config: Map<Seq<char>, TemplateValue>,
    template: Map<Seq<char>, TemplateValue>,
    name: Seq<char>,
)
    ensures
        template.dom().contains(name) ==> config.union_prefer_right(template)[name] == template[name],
        !template.dom().contains(name) && config.dom().contains(name) ==> config.union_prefer_right(
            template,
        )[name] == config[name],
        config.union_prefer_right(template).dom().contains(name) <==> config.dom().contains(name)
            || template.dom().contains(name),
{
}

/// Where a variable's value comes from when a template is run: the last
/// override of its name given on the command line, as a string; else the
/// template's own value; else the configuration's; else it is not set.
pub proof fn law_variable_resolution(
    config: Map<Seq<char>, TemplateValue>,
    template: Map<Seq<char>, TemplateValue>,
    pairs: Seq<(String, String)>,
    name: Seq<char>,
)
    ensures
        ({
            let vars = with_overrides(config.union_prefer_right(template), pairs);
            match last_override(pairs, name) {
                Some(v) => vars.dom().contains(name) && vars[name] == TemplateValue::Text(v),
                None => if template.dom().contains(name) {
                    vars.dom().contains(name) && vars[name] == template[name]
                } else if config.dom().contains(name) {
                    vars.dom().contains(name) && vars[name] == config[name]
                } else {
                    !vars.dom().contains(name)
                },
            }
        }),
{
    law_template_variables_win(config, template, name);
    law_overrides_last_wins(config.union_prefer_right(template), pairs, name);
}

/// `env(name)` reads the first variable named exactly `name`: a variable whose
/// name only begins with `name` is never read, and without one named exactly
/// so there is no value.
pub proof fn law_env_lookup(entries: Seq<(Seq<char>, Seq<char>)>, name: Seq<char>)
    ensures
        env_lookup(entries, name) matches Some(v) ==> exists|i: int|
            0 <= i < entries.len() && (#[trigger] entries[i]).0 == name && entries[i].1 == v
                && forall|j: int| 0 <= j < i ==> (#[trigger] entries[j]).0 != name,
        env_lookup(entries, name) is None <==> forall|i: int|
            0 <= i < entries.len() ==> (#[trigger] entries[i]).0 != name,
    decreases entries.len(),
{
    if entries.len() > 0 {
        let rest = entries.drop_first();
        law_env_lookup(rest, name);
        if entries[0].0 == name {
            assert(entries[0].0 == name);
        } else {
            assert forall|i: int| 0 < i < entries.len() implies entries[i] == rest[i - 1] by {}
            match env_lookup(entries, name) {
                Some(v) => {
                    let i = choose|i: int|
                        0 <= i < rest.len() && (#[trigger] rest[i]).0 == name && rest[i].1 == v
                            && forall|j: int| 0 <= j < i ==> (#[trigger] rest[j]).0 != name;
                    assert(entries[i + 1] == rest[i]);
                    assert forall|j: int| 0 <= j < i + 1 implies (#[trigger] entries[j]).0 != name by {
                        if j > 0 {
                            assert(entries[j] == rest[j - 1]);
                        }
                    }
                },
                None => {
                    assert forall|i: int| 0 <= i < entries.len() implies (#[trigger] entries[i]).0
                        != name by {
                        if i > 0 {
                            assert(entries[i] == rest[i - 1]);
                        }
                    }
                },
            }
            if forall|i: int| 0 <= i < entries.len() ==> (#[trigger] entries[i]).0 != name {
                assert forall|i: int| 0 <= i < rest.len() implies (#[trigger] rest[i]).0 != name by {
                    assert(rest[i] == entries[i + 1]);
                }
            }
        }
    }
}

} // verus!
