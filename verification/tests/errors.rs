use httpee::errors::{
    call_identifier_args, format_generic, format_template_error, format_undefined,
    format_undefined_call, format_undefined_expression, format_undefined_identifier,
    is_identifier, pretty_template_error, TemplateError,
};
use httpee::style;

fn plain() {
    style::init(true);
}

#[test]
fn identifiers() {
    assert!(is_identifier("token"));
    assert!(is_identifier("_x9"));
    assert!(!is_identifier(""));
    assert!(!is_identifier("9x"));
    assert!(!is_identifier("a-b"));
    assert!(!is_identifier("é"));
}

#[test]
fn call_arguments() {
    assert_eq!(call_identifier_args("basic(user, pass)"), vec!["user", "pass"]);
    assert_eq!(call_identifier_args("f( a ,'lit', 3, b )"), vec!["a", "b"]);
    assert!(call_identifier_args("f()").is_empty());
    assert!(call_identifier_args("f").is_empty());
    assert!(call_identifier_args(")(").is_empty());
    assert_eq!(call_identifier_args("g(h(x), y)"), vec!["y"]);
    assert_eq!(call_identifier_args("f(a,,b)"), vec!["a", "b"]);
}

#[test]
fn template_error_messages() {
    let e = TemplateError::HelperArgs {
        fn_name: "bearer",
        detail: "1 argument: the token",
        example: "{{ bearer(token) }}",
    };
    assert_eq!(
        e.message(),
        "bearer() requires 1 argument: the token — e.g. {{ bearer(token) }}"
    );
    assert_eq!(
        TemplateError::EnvVarMissing("API".into()).message(),
        "environment variable 'API' is not set"
    );
    assert_eq!(
        TemplateError::WrongArgType { fn_name: "env", got: "number".into() }.message(),
        "env() expected a string argument, got number"
    );
}

#[test]
fn reports_without_colour() {
    plain();
    assert_eq!(
        format_template_error(&TemplateError::EnvVarMissing("API".into()), false),
        "  ✗ environment variable 'API' is not set\n    set it in your shell, e.g. `export API=...`"
    );
    assert_eq!(
        format_undefined_identifier("email", false),
        "  ✗ 'email' is not defined\n    set it in [variables] or pass it as an override (e.g. `email=...`)"
    );
    assert_eq!(
        format_undefined_expression("user.name", false),
        "  ✗ 'user.name' is not defined\n    check that all referenced variables are defined in [variables] or passed as overrides"
    );
    assert_eq!(
        format_undefined_call("basic(user, pass)", false),
        "  ✗ one of 'user', 'pass' (in basic(user, pass)) is not defined\n    set it in [variables] or pass it as an override"
    );
    assert_eq!(
        format_undefined_call("bearer(token)", false),
        "  ✗ 'token' (in bearer(token)) is not defined\n    set it in [variables] or pass it as an override"
    );
    assert_eq!(
        format_undefined_call("f(1)", false),
        "  ✗ one of the arguments to f(1) (in f(1)) is not defined\n    set it in [variables] or pass it as an override"
    );
    assert_eq!(
        format_undefined(None, false),
        "  ✗ a variable referenced in the template is not defined"
    );
    assert_eq!(format_undefined(Some("x"), false), format_undefined_identifier("x", false));
    assert_eq!(
        format_generic("invalid operation: boom (in tmpl:3)", "invalid operation", false),
        "  ✗ boom"
    );
    assert_eq!(format_generic("other text", "syntax error", false), "  ✗ other text");
}

#[test]
fn pretty_error_prefers_helper_error() {
    plain();
    let e = minijinja::Error::new(minijinja::ErrorKind::InvalidOperation, "boom");
    let te = TemplateError::WrongArgType { fn_name: "env", got: "map".into() };
    assert_eq!(
        pretty_template_error(&e, Some(&te), false),
        "  ✗ env() expected a string argument, got map"
    );
    assert_eq!(pretty_template_error(&e, None, false), "  ✗ boom");
}

#[test]
fn pretty_error_on_strict_undefined() {
    plain();
    let mut env = minijinja::Environment::new();
    env.set_undefined_behavior(minijinja::UndefinedBehavior::Strict);
    env.add_template("t", "Hello {{ email }}!").unwrap();
    let err = env.get_template("t").unwrap().render(()).unwrap_err();
    assert_eq!(
        pretty_template_error(&err, None, false),
        format_undefined_identifier("email", false)
    );
}
