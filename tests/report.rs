use type_toppings::report::write_indented;
use type_toppings::{ErrorNode, Report, Source};

fn chain(root: &str, causes: &[&str]) -> ErrorNode {
    let mut node: Option<ErrorNode> = None;
    for msg in causes.iter().rev() {
        node = Some(match node {
            None => ErrorNode::new(msg.to_string()),
            Some(inner) => ErrorNode::caused_by(msg.to_string(), inner),
        });
    }
    match node {
        None => ErrorNode::new(root.to_string()),
        Some(inner) => ErrorNode::caused_by(root.to_string(), inner),
    }
}

#[test]
fn root_only_renders_its_message() {
    let report = Report::from(chain("Just one error", &[]));
    assert_eq!(report.render(), "Just one error");
}

#[test]
fn single_cause_is_indented_without_number() {
    let report = Report::from(chain("Outer error", &["Inner error"]));
    assert_eq!(report.render(), "Outer error\n\nCaused by:\n      Inner error");
}

#[test]
fn two_causes_are_numbered() {
    let report = Report::from(chain("Top-level error", &["A", "B"]));
    assert_eq!(report.render(), "Top-level error\n\nCaused by:\n   0: A\n   1: B");
}

#[test]
fn multi_line_cause_is_indented_under_its_prefix() {
    let report = Report::from(chain("Top", &["line1\nline2"]));
    assert_eq!(report.render(), "Top\n\nCaused by:\n      line1\n      line2");
}

#[test]
fn multi_line_numbered_cause_aligns_under_message() {
    let report = Report::from(chain("Top", &["first\nsecond", "B"]));
    assert_eq!(report.render(), "Top\n\nCaused by:\n   0: first\n      second\n   1: B");
}

#[test]
fn multi_line_root_message_is_kept_verbatim() {
    let report = Report::from(chain("a\nb", &["c"]));
    assert_eq!(report.render(), "a\nb\n\nCaused by:\n      c");
}

#[test]
fn rendering_twice_gives_the_same_text() {
    let report = Report::from(chain("Top", &["A", "B\nC"]));
    let first = report.render();
    let second = report.render();
    assert_eq!(first, second);
}

#[test]
fn ordinals_of_two_digits_are_right_aligned() {
    let names: Vec<String> = (0..11).map(|i| format!("e{i}")).collect();
    let refs: Vec<&str> = names.iter().map(|s| s.as_str()).collect();
    let report = Report::from(chain("Top", &refs));
    let text = report.render();
    assert!(text.starts_with("Top\n\nCaused by:\n   0: e0\n   1: e1\n"));
    assert!(text.ends_with("\n   9: e9\n  10: e10"));
}

#[test]
fn empty_cause_message_keeps_its_prefix() {
    let report = Report::from(chain("Top", &[""]));
    assert_eq!(report.render(), "Top\n\nCaused by:\n      ");
}

#[test]
fn non_ascii_messages_are_kept() {
    let report = Report::from(chain("Fehler", &["Grund: ü\nzwei"]));
    assert_eq!(report.render(), "Fehler\n\nCaused by:\n      Grund: ü\n      zwei");
}

#[test]
fn source_walks_the_chain_in_order() {
    let root = chain("Top", &["A", "B"]);
    let mut walk = Source::new(&root);
    assert_eq!(walk.size_hint(), (1, None));
    assert_eq!(walk.next().map(|e| e.message().to_string()), Some("Top".to_string()));
    assert_eq!(walk.next().map(|e| e.message().to_string()), Some("A".to_string()));
    assert_eq!(walk.next().map(|e| e.message().to_string()), Some("B".to_string()));
    assert_eq!(walk.size_hint(), (0, Some(0)));
    assert!(walk.next().is_none());
}

#[test]
fn error_node_source_reports_the_cause() {
    let root = chain("Top", &["A"]);
    assert_eq!(root.source().map(|e| e.message()), Some("A"));
    assert!(root.source().unwrap().source().is_none());
}

#[test]
fn write_indented_adds_margin_after_each_line_break() {
    let mut out = String::from(">");
    write_indented(&mut out, "a\n\nb\n");
    assert_eq!(out, ">a\n      \n      b\n      ");
}

#[test]
fn source_returns_each_link_itself() {
    let root = chain("Same", &["Same", "Same"]);
    let first_cause = root.source().unwrap();
    let second_cause = first_cause.source().unwrap();
    let mut walk = Source::new(&root);
    assert!(std::ptr::eq(walk.next().unwrap(), &root));
    assert!(std::ptr::eq(walk.next().unwrap(), first_cause));
    assert!(std::ptr::eq(walk.next().unwrap(), second_cause));
    assert!(walk.next().is_none());
    assert!(walk.next().is_none());
}
