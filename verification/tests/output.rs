use httpee::highlight::{content_type_to_syntax, highlight_body, highlight_for};
use httpee::listing::{
    complete_names, listing_line, locate_template, name_column_width, not_found_report,
    order_templates,
    pad_right, template_summary, TemplateLookup,
};
use httpee::response::{header_lines, request_line, response_text, section_rule, status_line, status_tone, StatusTone};
use httpee::style;
use httpee::config::Variables;
use httpee::template::{Request, Template};

fn pairs(items: &[(&str, &str)]) -> Vec<(String, String)> {
    items.iter().map(|(a, b)| (a.to_string(), b.to_string())).collect()
}

#[test]
fn content_types() {
    assert_eq!(content_type_to_syntax("application/json"), Some("json"));
    assert_eq!(content_type_to_syntax("application/json; charset=utf-8"), Some("json"));
    assert_eq!(content_type_to_syntax(" text/html ;q=1"), Some("html"));
    assert_eq!(content_type_to_syntax("text/xml"), Some("xml"));
    assert_eq!(content_type_to_syntax("application/xml"), Some("xml"));
    assert_eq!(content_type_to_syntax("text/plain"), None);
    assert_eq!(content_type_to_syntax(""), None);
}

#[test]
fn highlight_plain_when_asked() {
    assert_eq!(highlight_body("application/json", "{\"a\": 1}", true), "{\"a\": 1}");
    assert_eq!(highlight_body("application/json", "", false), "");
}

#[test]
fn templates_sorted_and_deduplicated() {
    let found = pairs(&[
        ("users/list", "users/list.toml"),
        ("a/x", "a/x.toml"),
        ("users/list", "users/./list.toml"),
        ("users/list", "users/list.toml"),
    ]);
    let ordered = order_templates(&found);
    assert_eq!(
        ordered,
        pairs(&[
            ("a/x", "a/x.toml"),
            ("users/list", "users/list.toml"),
        ])
    );
    let dup = pairs(&[("b", "x//b.toml"), ("b", "x/b.toml")]);
    assert_eq!(order_templates(&dup), pairs(&[("b", "x//b.toml")]));
}

#[test]
fn locating_templates() {
    let t = pairs(&[("users/create", "u/c.toml"), ("users/list", "u/l.toml")]);
    match locate_template("users/list", &t) {
        TemplateLookup::Found(p) => assert_eq!(p, "u/l.toml"),
        _ => panic!("expected to find the template"),
    }
    match locate_template("users/creat", &t) {
        TemplateLookup::Suggestion(s) => assert_eq!(s, "users/create"),
        _ => panic!("expected a suggestion"),
    }
    assert!(matches!(locate_template("zzz/qqqqq", &t), TemplateLookup::NotFound));
}

#[test]
fn completions() {
    let t = pairs(&[("users/create", "a"), ("users/list", "b"), ("orders", "c")]);
    assert_eq!(complete_names("users/", &t), vec!["users/create", "users/list"]);
    assert_eq!(complete_names("", &t).len(), 3);
    assert!(complete_names("x", &t).is_empty());
}

#[test]
fn listing_layout() {
    style::init(true);
    let t = pairs(&[("ab", "x"), ("é", "y")]);
    assert_eq!(name_column_width(&t), 2);
    assert_eq!(pad_right("ab", 5), "ab   ");
    assert_eq!(pad_right("abcdef", 3), "abcdef");
    assert_eq!(listing_line("ab", 4, "", false), "  ❯ ab  ");
    assert_eq!(listing_line("ab", 2, "Create", false), "  ❯ ab    Create");
}

#[test]
fn summaries() {
    let mut t = Template {
        name: "Name".into(),
        description: String::new(),
        variables: Variables::new(),
        request: Request {
            url: "u".into(),
            method: "GET".into(),
            body: String::new(),
            headers: Vec::new(),
        },
    };
    assert_eq!(template_summary(&t), "Name");
    t.description = "Desc".into();
    assert_eq!(template_summary(&t), "Desc");
    t.description.clear();
    t.name.clear();
    assert_eq!(template_summary(&t), "");
}

#[test]
fn response_pieces() {
    style::init(true);
    assert_eq!(status_tone(200), StatusTone::Success);
    assert_eq!(status_tone(299), StatusTone::Success);
    assert_eq!(status_tone(301), StatusTone::Redirect);
    assert_eq!(status_tone(404), StatusTone::Failure);
    assert_eq!(status_tone(199), StatusTone::Failure);
    assert_eq!(status_line(200, "200 OK", "12ms", "5 B", false), "✓ 200 OK   12ms   5 B");
    assert_eq!(status_line(500, "500 Internal Server Error", "1.0s", "0 B", false), "✗ 500 Internal Server Error   1.0s   0 B");
    assert_eq!(request_line("GET", "http://x/", false), "→ GET  http://x/");
    let rule = section_rule("headers", false);
    assert!(rule.starts_with("── headers "));
    assert_eq!(rule.chars().count(), 50);
    let lines = header_lines(&pairs(&[("server", "x"), ("content-type", "json")]), false);
    assert_eq!(lines, vec!["content-type  json", "server        x"]);
}

#[test]
fn response_output_modes() {
    style::init(true);
    let headers = pairs(&[
        ("content-type", "text/html; charset=UTF-8"),
        ("content-length", "1256"),
    ]);
    let out = |status: bool, verbose: bool, headers_only: bool| {
        response_text(
            status, verbose, headers_only, 200, "200 OK", "GET", "http://example.com/", "32ms",
            "528 B", &headers, "<p>hi</p>", false,
        )
    };
    assert_eq!(out(true, true, true), "200\n");
    assert_eq!(
        out(false, false, true),
        "content-type: text/html; charset=UTF-8\ncontent-length: 1256\n"
    );
    assert_eq!(out(false, false, false), "<p>hi</p>");
    let rule = |label: &str| {
        let prefix = format!("── {label} ");
        format!("{prefix}{}", "─".repeat(50 - prefix.chars().count()))
    };
    assert_eq!(
        out(false, true, true),
        format!(
            "→ GET  http://example.com/\n✓ 200 OK   32ms   528 B\n\n{}\ncontent-length  1256\ncontent-type    text/html; charset=UTF-8\n\n{}\n<p>hi</p>",
            rule("headers"),
            rule("body")
        )
    );
}

#[test]
fn highlighting_on_a_terminal() {
    let body = "{\"a\": 1}\n";
    let out = highlight_for("application/json", body, false, true);
    assert_ne!(out, body);
    assert!(out.starts_with("\x1b["));
    assert!(out.ends_with("\x1b[0m"));
    assert_eq!(highlight_for("application/json", body, false, false), body);
    assert_eq!(highlight_for("application/json", body, true, true), body);
    assert_eq!(highlight_for("text/plain", body, false, true), body);
    assert_eq!(highlight_for("application/json", "", false, true), "");
}

#[test]
fn painting_when_colours_are_on() {
    assert!(!style::init(true));
    assert_eq!(style::accent("a", true), "\x1b[35ma\x1b[39m");
    assert_eq!(style::green("a", true), "\x1b[32ma\x1b[39m");
    assert_eq!(style::yellow("a", true), "\x1b[33ma\x1b[39m");
    assert_eq!(style::red("a", true), "\x1b[31ma\x1b[39m");
    assert_eq!(style::bold("a", true), "\x1b[1ma\x1b[0m");
    assert_eq!(style::dim("a", true), "\x1b[2ma\x1b[0m");
    assert_eq!(style::dim("a", false), "a");
    assert_eq!(
        listing_line("ab", 3, "Create", true),
        "  \x1b[35m❯\x1b[39m \x1b[1mab \x1b[0m    \x1b[2mCreate\x1b[0m"
    );
}

#[test]
fn not_found_reports() {
    let t = pairs(&[("users/list", "u.toml"), ("a/x", "a.toml")]);
    assert_eq!(
        not_found_report("users/lst", Some("users/list"), &t, false),
        "  ✗ template 'users/lst' not found\n    did you mean users/list?\n"
    );
    assert_eq!(
        not_found_report("zzz", None, &t, false),
        "  ✗ template 'zzz' not found\n    available templates:\n      ❯ users/list\n      ❯ a/x\n"
    );
}
