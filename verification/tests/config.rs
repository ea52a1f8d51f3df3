use httpee::config::{Config, TemplateValue, Variables, DEFAULT_CONFIG};

fn text(s: &str) -> TemplateValue {
    TemplateValue::Text(s.to_string())
}

fn vars(pairs: &[(&str, TemplateValue)]) -> Variables {
    let mut v = Variables::new();
    for (k, val) in pairs {
        v.insert(k.to_string(), val.clone());
    }
    v
}

fn config(dirs: &[&str], variables: Variables) -> Config {
    let mut c = Config::default();
    c.dirs = dirs.iter().map(|d| d.to_string()).collect();
    c.variables = variables;
    c
}

#[test]
fn merge_overrides_variables() {
    let mut cfg = config(&[], vars(&[("id", text("1")), ("token", text("original"))]));
    let other = config(&[], vars(&[("token", text("override")), ("secret", text("new"))]));

    cfg.merge(&other);

    assert_eq!(cfg.variables.get("id"), Some(&text("1")));
    assert_eq!(cfg.variables.get("token"), Some(&text("override")));
    assert_eq!(cfg.variables.get("secret"), Some(&text("new")));
    assert_eq!(cfg.variables.len(), 3);
}

#[test]
fn merge_unions_dirs() {
    let mut cfg = config(&["a", "b"], Variables::new());
    let other = config(&["b", "c"], Variables::new());

    cfg.merge(&other);

    assert_eq!(cfg.dirs, vec!["a", "b", "c"]);
}

#[test]
fn merge_twice_changes_nothing_more() {
    let mut cfg = config(&["a"], vars(&[("x", TemplateValue::Integer(1))]));
    let other = config(&["b", "b", "a"], vars(&[("x", TemplateValue::Boolean(true))]));
    cfg.merge(&other);
    cfg.merge(&other);
    assert_eq!(cfg.dirs, vec!["a", "b"]);
    assert_eq!(cfg.variables.get("x"), Some(&TemplateValue::Boolean(true)));
}

#[test]
fn merge_keeps_other_toml_values() {
    let mut cfg = Config::default();
    let other = config(
        &[],
        vars(&[("ratio", TemplateValue::Other(toml::Value::Float(0.5)))]),
    );
    cfg.merge(&other);
    assert_eq!(
        cfg.variables.get("ratio"),
        Some(&TemplateValue::Other(toml::Value::Float(0.5)))
    );
}

#[test]
fn default_config_is_empty() {
    let cfg = Config::default();
    assert!(cfg.dirs.is_empty());
    assert_eq!(cfg.variables.len(), 0);
    assert!(cfg.additional_configs.is_empty());
}

#[test]
fn variables_insert_replaces() {
    let mut v = Variables::new();
    v.insert("a".into(), text("1"));
    v.insert("a".into(), text("2"));
    assert_eq!(v.len(), 1);
    assert_eq!(v.get("a"), Some(&text("2")));
    assert_eq!(v.get("b"), None);
}

#[test]
fn default_config_text() {
    assert!(DEFAULT_CONFIG.starts_with("dirs = []\n"));
    assert!(DEFAULT_CONFIG.ends_with("[variables]\n"));
}
