use commit_templates::errors::CliError;
use commit_templates::loader::{config_search_step, SearchStep};
use commit_templates::template::{select_by_label, select_direct, Template, TemplateStore};
use commit_templates::validate::{validate_branch, BranchCheck};

fn template(label: &str, title: &str) -> Template {
    Template {
        label: String::from(label),
        description: String::from("description"),
        vars: Vec::new(),
        branch_pattern: String::from(".*"),
        title: String::from(title),
        body: String::new(),
    }
}

#[test]
fn stored_templates_are_found_by_id() {
    let mut store = TemplateStore::new();
    store.insert(String::from("fix"), template("Fix", "fix title"));
    store.insert(String::from("feat"), template("Feature", "feat title"));
    assert_eq!(store.len(), 2);
    assert_eq!(store.get(&String::from("fix")).unwrap().title, "fix title");
    assert_eq!(store.get(&String::from("feat")).unwrap().title, "feat title");
    assert!(store.get(&String::from("docs")).is_none());
}

#[test]
fn inserting_an_existing_id_replaces_the_template() {
    let mut store = TemplateStore::new();
    store.insert(String::from("fix"), template("Fix", "old"));
    store.insert(String::from("fix"), template("Fix", "new"));
    assert_eq!(store.len(), 1);
    assert_eq!(store.get(&String::from("fix")).unwrap().title, "new");
}

#[test]
fn missing_template_is_not_found() {
    let mut store = TemplateStore::new();
    store.insert(String::from("fix"), template("Fix", "t"));
    let r = select_direct(&store, &String::from("absent"));
    assert_eq!(r.unwrap_err(), CliError::TemplateNotFound);
}

#[test]
fn present_template_is_selected() {
    let mut store = TemplateStore::new();
    store.insert(String::from("fix"), template("Fix", "t"));
    let t = select_direct(&store, &String::from("fix")).unwrap();
    assert_eq!(t.title, "t");
}

#[test]
fn labels_come_in_store_order() {
    let mut store = TemplateStore::new();
    store.insert(String::from("fix"), template("Fix", "a"));
    store.insert(String::from("feat"), template("Feature", "b"));
    assert_eq!(store.labels(), vec![String::from("Fix"), String::from("Feature")]);
}

#[test]
fn templates_are_found_by_label() {
    let mut store = TemplateStore::new();
    store.insert(String::from("fix"), template("Fix", "a"));
    assert_eq!(select_by_label(&store, &String::from("Fix")).unwrap().title, "a");
    let r = select_by_label(&store, &String::from("Nope"));
    assert_eq!(r.unwrap_err(), CliError::TemplateNotFound);
}

#[test]
fn matching_branch_passes() {
    let r = validate_branch(&String::from("^fix/"), &String::from("fix/issue-42"));
    assert_eq!(r, BranchCheck::Matched);
}

#[test]
fn pattern_matches_anywhere_in_the_branch_name() {
    let r = validate_branch(&String::from("issue"), &String::from("fix/issue-42"));
    assert_eq!(r, BranchCheck::Matched);
}

#[test]
fn non_matching_branch_fails_validation() {
    let r = validate_branch(&String::from("^feature/.*"), &String::from("main"));
    assert_eq!(r, BranchCheck::Mismatch);
}

#[test]
fn anchored_pattern_respects_its_anchor() {
    let r = validate_branch(&String::from("^fix/"), &String::from("myfix/123"));
    assert_eq!(r, BranchCheck::Mismatch);
}

#[test]
fn invalid_pattern_is_reported() {
    let r = validate_branch(&String::from("("), &String::from("main"));
    assert_eq!(r, BranchCheck::InvalidPattern);
}

#[test]
fn commit_message_joins_title_and_body() {
    let t = template("Fix", "a title");
    let assigns = Vec::new();
    let r = commit_templates::resolve::resolve(&t, &assigns);
    assert_eq!(r.commit_message(), "a title\n\n");
    let mut t2 = template("Fix", "title");
    t2.body = String::from("body text");
    let r2 = commit_templates::resolve::resolve(&t2, &assigns);
    assert_eq!(r2.commit_message(), "title\n\nbody text");
}

#[test]
fn search_stops_at_the_first_file_found() {
    let r = config_search_step(Some(String::from("[fix]\nlabel = \"Fix\"")), true);
    match r.unwrap() {
        SearchStep::Found(text) => assert_eq!(text, "[fix]\nlabel = \"Fix\""),
        SearchStep::Ascend => panic!("expected the file to be used"),
    }
}

#[test]
fn search_ascends_while_a_parent_is_left() {
    let r = config_search_step(None, true);
    assert!(matches!(r.unwrap(), SearchStep::Ascend));
}

#[test]
fn exhausted_search_is_config_not_found() {
    let r = config_search_step(None, false);
    assert_eq!(r.unwrap_err(), CliError::ConfigNotFound);
}

#[test]
fn error_messages_name_the_failure() {
    assert_eq!(CliError::ConfigNotFound.message(), "failed to find commit-templates.toml");
    assert_eq!(CliError::ConfigParseError.message(), "failed to deserialize templates file");
    assert_eq!(CliError::TemplateNotFound.message(), "template does not exist");
    assert_eq!(CliError::MalformedAssignment.message(), "var must have the format `var=value`");
    assert_eq!(
        CliError::InvalidPattern.message(),
        "branch pattern is not a valid regular expression"
    );
    assert_eq!(CliError::CommitInvocationFailed.message(), "failed to commit");
    assert_eq!(CliError::BranchQueryFailed.message(), "failed to read current branch");
}
