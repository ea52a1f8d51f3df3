use httpee::config::{TemplateValue, Variables};
use httpee::curl::{curl_command, render, shell_quote};
use httpee::template::{EnvVars, Request, Template};

#[test]
fn renders_request_as_curl() {
    let mut variables = Variables::new();
    variables.insert("org".into(), TemplateValue::Text("acme".into()));
    variables.insert("token".into(), TemplateValue::Text("abc".into()));
    let tmpl = Template {
        name: String::new(),
        description: String::new(),
        variables,
        request: Request {
            url: "https://api.example.com/orgs/{{ org }}/users".into(),
            method: "POST".into(),
            body: r#"{"name": "O'Brien"}"#.into(),
            headers: vec![
                ("content-type".into(), "application/json".into()),
                ("authorization".into(), "{{ bearer(token) }}".into()),
            ],
        },
    };
    let req = tmpl.build_request(&EnvVars::new()).unwrap();

    assert_eq!(
        render(&req),
        "curl \\\n  --request POST \\\n  --url 'https://api.example.com/orgs/acme/users' \\\n  --header 'authorization: Bearer abc' \\\n  --header 'content-type: application/json' \\\n  --data-raw '{\"name\": \"O'\\''Brien\"}'"
    );
}

#[test]
fn shell_quote_escapes_single_quotes() {
    assert_eq!(shell_quote(""), "''");
    assert_eq!(shell_quote("plain"), "'plain'");
    assert_eq!(shell_quote("it's"), "'it'\\''s'");
}

#[test]
fn curl_command_sorts_headers_stably_and_omits_missing_body() {
    let headers = vec![
        ("x-b".to_string(), "2".to_string()),
        ("x-a".to_string(), "1".to_string()),
        ("x-b".to_string(), "3".to_string()),
    ];
    assert_eq!(
        curl_command("GET", "http://h/", &headers, None),
        "curl \\\n  --request GET \\\n  --url 'http://h/' \\\n  --header 'x-a: 1' \\\n  --header 'x-b: 2' \\\n  --header 'x-b: 3'"
    );
}
