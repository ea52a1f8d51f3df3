use httpee::config::{Config, TemplateValue, Variables};
use httpee::template::{
    basic_function, bearer_function, default_method, env_function, EnvVars, Request, Template,
};

fn text(s: &str) -> TemplateValue {
    TemplateValue::Text(s.to_string())
}

fn vars(pairs: &[(&str, TemplateValue)]) -> Variables {
    let mut v = Variables::new();
    for (k, val) in pairs {
        v.insert(k.to_string(), val.clone());
    }
    v
}

fn template(variables: Variables, url: &str, method: &str, body: &str, headers: &[(&str, &str)]) -> Template {
    Template {
        name: String::new(),
        description: String::new(),
        variables,
        request: Request {
            url: url.to_string(),
            method: method.to_string(),
            body: body.to_string(),
            headers: headers
                .iter()
                .map(|(k, v)| (k.to_string(), v.to_string()))
                .collect(),
        },
    }
}

/// A sample "create user" template, as its TOML file parses.
fn sample_template() -> Template {
    let mut t = template(
        vars(&[("id", TemplateValue::Integer(100)), ("token", text("123"))]),
        "https://httpbin.org/anything/{{id}}",
        "POST",
        "{\"id\": \"{{id}}\", \"secret\": \"{{secret}}\"}",
        &[
            ("content-type", "application/json"),
            ("authorization", "Bearer {{token}}"),
        ],
    );
    t.name = "Users - Create".to_string();
    t.description = "Create an individual user".to_string();
    t
}

fn config_with_variables() -> Config {
    let mut c = Config::default();
    c.variables = vars(&[
        ("id", text("5")),
        ("token", text("global-token")),
        ("secret", text("global-secret")),
    ]);
    c
}

fn with_config(mut t: Template, config: &Config) -> Template {
    t.inherit_variables(config);
    t
}

fn no_env() -> EnvVars {
    EnvVars::new()
}

#[test]
fn parse_template_defaults_method_to_get() {
    assert_eq!(default_method(), "GET");
}

#[test]
fn template_variables_override_config() {
    let tmpl = with_config(sample_template(), &config_with_variables());

    assert_eq!(tmpl.variables.get("id"), Some(&TemplateValue::Integer(100)));
    assert_eq!(tmpl.variables.get("token"), Some(&text("123")));
    assert_eq!(tmpl.variables.get("secret"), Some(&text("global-secret")));
}

#[test]
fn apply_overrides() {
    let mut tmpl = with_config(sample_template(), &Config::default());

    tmpl.apply_overrides(&[
        ("id".into(), "999".into()),
        ("new_var".into(), "hello".into()),
    ]);

    assert_eq!(tmpl.variables.get("id"), Some(&text("999")));
    assert_eq!(tmpl.variables.get("new_var"), Some(&text("hello")));
}

#[test]
fn apply_overrides_last_wins() {
    let mut tmpl = sample_template();
    tmpl.apply_overrides(&[("id".into(), "1".into()), ("id".into(), "2".into())]);
    assert_eq!(tmpl.variables.get("id"), Some(&text("2")));
    assert_eq!(tmpl.variables.get("token"), Some(&text("123")));
}

#[test]
fn build_request_interpolates_url() {
    let tmpl = with_config(sample_template(), &Config::default());
    let req = tmpl.build_request(&no_env()).unwrap();

    assert_eq!(req.url().as_str(), "https://httpbin.org/anything/100");
}

#[test]
fn build_request_interpolates_headers() {
    let tmpl = with_config(sample_template(), &Config::default());
    let req = tmpl.build_request(&no_env()).unwrap();

    assert_eq!(req.headers()["authorization"], "Bearer 123");
    assert_eq!(req.headers()["content-type"], "application/json");
}

#[test]
fn build_request_interpolates_body() {
    let tmpl = with_config(sample_template(), &config_with_variables());
    let req = tmpl.build_request(&no_env()).unwrap();
    let body = req.body().unwrap().as_bytes().unwrap();

    assert_eq!(
        String::from_utf8_lossy(body),
        r#"{"id": "100", "secret": "global-secret"}"#
    );
}

#[test]
fn build_request_sets_method() {
    let tmpl = with_config(sample_template(), &Config::default());
    let req = tmpl.build_request(&no_env()).unwrap();

    assert_eq!(req.method(), "POST");
}

#[test]
fn build_request_rejects_invalid_method() {
    let tmpl = template(Variables::new(), "http://example.com", "GE T", "", &[]);
    let err = tmpl.build_request(&no_env()).unwrap_err();
    assert_eq!(err, "Invalid HTTP method 'GE T': invalid HTTP method");
}

#[test]
fn build_request_reports_unparsable_url() {
    let tmpl = template(Variables::new(), "not a url", "GET", "", &[]);
    let err = tmpl.build_request(&no_env()).unwrap_err();
    assert!(err.starts_with("Failed to build request: "), "{err}");
}

#[test]
fn build_request_reports_render_errors_first() {
    let tmpl = template(Variables::new(), "{{ broken", "GE T", "", &[]);
    let err = tmpl.build_request(&no_env()).unwrap_err();
    assert!(err.starts_with("Template rendering failed: "), "{err}");
}

#[test]
fn interpolate_env_variable() {
    let env = EnvVars::from_pairs(vec![("HTTPEE_TEST_VAR".into(), "from_env".into())]);
    let tmpl = template(
        Variables::new(),
        "http://example.com/{{ env('HTTPEE_TEST_VAR') }}",
        "GET",
        "",
        &[],
    );
    let req = tmpl.build_request(&env).unwrap();

    assert_eq!(req.url().as_str(), "http://example.com/from_env");
}

#[test]
fn interpolate_env_variable_missing_errors() {
    let tmpl = template(
        Variables::new(),
        "http://example.com/{{ env('HTTPEE_MISSING_VAR_XYZZY') }}",
        "GET",
        "",
        &[],
    );
    let err = tmpl.build_request(&no_env()).unwrap_err();

    assert!(err.contains("HTTPEE_MISSING_VAR_XYZZY"));
}

#[test]
fn interpolate_mixed_vars_and_env() {
    let env = EnvVars::from_pairs(vec![("HTTPEE_TEST_TOKEN".into(), "env_token".into())]);
    let tmpl = template(
        vars(&[("id", TemplateValue::Integer(42))]),
        "http://example.com/{{ id }}/{{ env('HTTPEE_TEST_TOKEN') }}",
        "GET",
        "",
        &[],
    );
    let req = tmpl.build_request(&env).unwrap();

    assert_eq!(req.url().as_str(), "http://example.com/42/env_token");
}

#[test]
fn bearer_helper() {
    let tmpl = template(
        vars(&[("token", text("abc123"))]),
        "http://example.com",
        "GET",
        "",
        &[("authorization", "{{ bearer(token) }}")],
    );
    let req = tmpl.build_request(&no_env()).unwrap();

    assert_eq!(req.headers()["authorization"], "Bearer abc123");
}

#[test]
fn basic_helper() {
    let tmpl = template(
        vars(&[("user", text("alice")), ("pass", text("s3cret"))]),
        "http://example.com",
        "GET",
        "",
        &[("authorization", "{{ basic(user, pass) }}")],
    );
    let req = tmpl.build_request(&no_env()).unwrap();

    // base64("alice:s3cret") = "YWxpY2U6czNjcmV0"
    assert_eq!(req.headers()["authorization"], "Basic YWxpY2U6czNjcmV0");
}

#[test]
fn bearer_helper_missing_argument_errors_clearly() {
    let tmpl = template(
        Variables::new(),
        "http://example.com",
        "GET",
        "",
        &[("authorization", "{{ bearer() }}")],
    );
    let err = tmpl.build_request(&no_env()).unwrap_err();

    assert!(err.contains("bearer()"), "error should name the function: {err}");
    assert!(err.contains("token"), "error should hint the argument: {err}");
}

#[test]
fn basic_helper_missing_argument_errors_clearly() {
    let tmpl = template(
        vars(&[("user", text("alice"))]),
        "http://example.com",
        "GET",
        "",
        &[("authorization", "{{ basic(user) }}")],
    );
    let err = tmpl.build_request(&no_env()).unwrap_err();

    assert!(err.contains("basic()"), "error should name the function: {err}");
    assert!(err.contains("password"), "error should hint the argument: {err}");
}

#[test]
fn interpolate_integer_variables() {
    let tmpl = template(
        vars(&[("count", TemplateValue::Integer(42))]),
        "http://example.com/{{count}}",
        "GET",
        "",
        &[],
    );
    let req = tmpl.build_request(&no_env()).unwrap();

    assert_eq!(req.url().as_str(), "http://example.com/42");
}

#[test]
fn helper_functions_directly() {
    assert_eq!(bearer_function(Some("t".into())).unwrap(), "Bearer t");
    assert!(bearer_function(None).is_err());
    assert_eq!(
        basic_function(Some("alice".into()), Some("s3cret".into())).unwrap(),
        "Basic YWxpY2U6czNjcmV0"
    );
    assert_eq!(basic_function(Some("a".into()), Some("".into())).unwrap(), "Basic YTo=");
    assert!(basic_function(Some("a".into()), None).is_err());
    let env = EnvVars::from_pairs(vec![("A".into(), "1".into()), ("A".into(), "2".into())]);
    assert_eq!(env_function(Some("A".into()), &env).unwrap(), "1");
    assert!(env_function(Some("B".into()), &env).is_err());
    assert!(env_function(None, &env).is_err());
}

#[test]
fn render_reports_failure_prefix() {
    let tmpl = sample_template();
    assert_eq!(tmpl.render("{{ token }}", &no_env()).unwrap(), "123");
    let err = tmpl.render("{% if %}", &no_env()).unwrap_err();
    assert!(err.starts_with("Template rendering failed: "));
}

#[test]
fn helper_errors_are_invalid_operations_with_their_message() {
    let err = bearer_function(None).unwrap_err();
    assert_eq!(err.kind(), minijinja::ErrorKind::InvalidOperation);
    assert_eq!(
        err.detail(),
        Some("bearer() requires 1 argument: the token — e.g. {{ bearer(token) }}")
    );
    let err = basic_function(Some("alice".into()), None).unwrap_err();
    assert_eq!(err.kind(), minijinja::ErrorKind::InvalidOperation);
    assert_eq!(
        err.detail(),
        Some("basic() requires 2 arguments: username and password — e.g. {{ basic(user, pass) }}")
    );
    let env = EnvVars::from_pairs(vec![("A".into(), "1".into())]);
    assert_eq!(env_function(Some("A".into()), &env).unwrap(), "1");
    let err = env_function(Some("B".into()), &env).unwrap_err();
    assert_eq!(err.detail(), Some("environment variable 'B' is not set"));
    assert_eq!(err.to_string(), "invalid operation: environment variable 'B' is not set");
    let err = env_function(None, &env).unwrap_err();
    assert_eq!(
        err.detail(),
        Some("env() requires 1 argument: the variable name — e.g. {{ env('API_TOKEN') }}")
    );
}

#[test]
fn built_request_holds_the_rendered_parts() {
    let tmpl = template(
        vars(&[("id", TemplateValue::Integer(7)), ("name", text("Bob"))]),
        "https://user:pw@example.com/items/{{id}}",
        "PATCH",
        "{\"name\": \"{{name}}\"}",
        &[("x-item", "{{ id }}")],
    );
    let req = tmpl.build_request(&no_env()).unwrap();
    assert_eq!(req.method().as_str(), "PATCH");
    assert_eq!(req.url().as_str(), "https://example.com/items/7");
    assert_eq!(req.headers()["x-item"], "7");
    assert!(req.headers().contains_key("authorization"));
    assert_eq!(req.body().unwrap().as_bytes().unwrap(), b"{\"name\": \"Bob\"}");
    let empty_body = template(Variables::new(), "http://example.com", "GET", "", &[]);
    assert!(empty_body.build_request(&no_env()).unwrap().body().is_none());
    let bad_header = template(Variables::new(), "http://example.com", "GET", "", &[("bad name", "x")]);
    assert!(bad_header.build_request(&no_env()).unwrap_err().starts_with("Failed to build request: "));
}
