use commit_templates::assign::{parse_assignment, parse_assignments, Assignment};
use commit_templates::errors::CliError;
use commit_templates::resolve::resolve;
use commit_templates::template::Template;
use commit_templates::text::{chars_of, replace_all, string_of_chars};

fn template(vars: Vec<&str>, title: &str, body: &str, pattern: &str) -> Template {
    Template {
        label: String::from("label"),
        description: String::from("description"),
        vars: vars.into_iter().map(String::from).collect(),
        branch_pattern: String::from(pattern),
        title: String::from(title),
        body: String::from(body),
    }
}

fn assignment(key: &str, value: &str) -> Assignment {
    Assignment { key: String::from(key), value: String::from(value) }
}

#[test]
fn resolves_example_template() {
    let t = template(vec!["issue"], "Fix #{{issue}}", "Closes {{issue}}", "^fix/");
    let assigns = vec![assignment("issue", "42")];
    let r = resolve(&t, &assigns);
    assert_eq!(r.title, "Fix #42");
    assert_eq!(r.body, "Closes 42");
    assert_eq!(r.branch_pattern, "^fix/");
}

#[test]
fn substitutes_every_occurrence() {
    let t = template(vec!["x"], "{{x}} and {{x}}", "{{x}}{{x}}", "^{{x}}/");
    let assigns = vec![assignment("x", "v")];
    let r = resolve(&t, &assigns);
    assert_eq!(r.title, "v and v");
    assert_eq!(r.body, "vv");
    assert_eq!(r.branch_pattern, "^v/");
}

#[test]
fn empty_vars_returns_template_verbatim() {
    let t = template(vec![], "Title {{x}}", "Body {{y}}", "^main$");
    let assigns = vec![assignment("x", "1"), assignment("y", "2")];
    let r = resolve(&t, &assigns);
    assert_eq!(r.title, "Title {{x}}");
    assert_eq!(r.body, "Body {{y}}");
    assert_eq!(r.branch_pattern, "^main$");
}

#[test]
fn unmatched_declared_variable_keeps_placeholder() {
    let t = template(vec!["a", "b"], "{{a}}-{{b}}", "", "");
    let assigns = vec![assignment("a", "1")];
    let r = resolve(&t, &assigns);
    assert_eq!(r.title, "1-{{b}}");
}

#[test]
fn undeclared_keys_have_no_effect() {
    let t = template(vec!["a"], "{{a}} {{b}}", "", "");
    let assigns = vec![assignment("b", "2"), assignment("a", "1")];
    let r = resolve(&t, &assigns);
    assert_eq!(r.title, "1 {{b}}");
}

#[test]
fn first_duplicate_assignment_wins() {
    let t = template(vec!["a"], "{{a}}", "", "");
    let assigns = vec![assignment("a", "first"), assignment("a", "second")];
    let r = resolve(&t, &assigns);
    assert_eq!(r.title, "first");
}

#[test]
fn full_assignment_leaves_no_placeholder() {
    let t = template(
        vec!["kind", "scope"],
        "{{kind}}({{scope}}): done",
        "{{kind}} touches {{scope}}",
        "^{{kind}}/",
    );
    let assigns = vec![assignment("kind", "fix"), assignment("scope", "core")];
    let r = resolve(&t, &assigns);
    assert_eq!(r.title, "fix(core): done");
    assert_eq!(r.body, "fix touches core");
    assert_eq!(r.branch_pattern, "^fix/");
    assert!(!r.title.contains("{{"));
    assert!(!r.body.contains("{{"));
    assert!(!r.branch_pattern.contains("{{"));
}

#[test]
fn parses_simple_assignment() {
    let a = parse_assignment(&String::from("issue=42")).unwrap();
    assert_eq!(a.key, "issue");
    assert_eq!(a.value, "42");
}

#[test]
fn assignment_value_may_hold_equals_signs() {
    let a = parse_assignment(&String::from("a=b=c")).unwrap();
    assert_eq!(a.key, "a");
    assert_eq!(a.value, "b=c");
}

#[test]
fn assignment_value_may_be_empty() {
    let a = parse_assignment(&String::from("a=")).unwrap();
    assert_eq!(a.key, "a");
    assert_eq!(a.value, "");
}

#[test]
fn assignment_without_equals_is_malformed() {
    let r = parse_assignment(&String::from("issue"));
    assert_eq!(r.unwrap_err(), CliError::MalformedAssignment);
}

#[test]
fn assignment_with_empty_key_is_malformed() {
    let r = parse_assignment(&String::from("=42"));
    assert_eq!(r.unwrap_err(), CliError::MalformedAssignment);
}

#[test]
fn one_malformed_pair_fails_the_whole_list() {
    let raws = vec![String::from("a=1"), String::from("nope")];
    let r = parse_assignments(&raws);
    assert_eq!(r.unwrap_err(), CliError::MalformedAssignment);
}

#[test]
fn well_formed_pairs_all_parse_in_order() {
    let raws = vec![String::from("a=1"), String::from("b=2")];
    let v = parse_assignments(&raws).unwrap();
    assert_eq!(v.len(), 2);
    assert_eq!(v[0].key, "a");
    assert_eq!(v[0].value, "1");
    assert_eq!(v[1].key, "b");
    assert_eq!(v[1].value, "2");
}

#[test]
fn replacement_scans_without_overlap() {
    let s = chars_of("aaa");
    let pat = chars_of("aa");
    let val = chars_of("b");
    let out = string_of_chars(&replace_all(&s, &pat, &val));
    assert_eq!(out, "ba");
}

#[test]
fn substitution_handles_multibyte_text() {
    let t = template(vec!["who"], "grüße {{who}} ✓", "", "");
    let assigns = vec![assignment("who", "wörld")];
    let r = resolve(&t, &assigns);
    assert_eq!(r.title, "grüße wörld ✓");
}

#[test]
fn chars_round_trip() {
    let v = chars_of("héllo ✓");
    assert_eq!(string_of_chars(&v), "héllo ✓");
}
