
use thebe::lower::extract_template_regions;
use thebe::lower::generate_scope_id;
use thebe::lower::parse_event_modifier;
use thebe::CompileError;
use thebe::EventModifier;
use thebe::Span;

#[test]
fn extract_template_between_blocks() {
  let source = "<script setup>let x = 1;</script>\n<div>hello</div>\n<style>.a{}</style>";
  let ast = thebe::parse(source).unwrap();
  let regions = extract_template_regions(source, &ast);
  assert_eq!(regions.len(), 1);
  assert_eq!(regions[0].1.trim(), "<div>hello</div>");
}

#[test]
fn extract_template_no_blocks() {
  let source = "<div>only template</div>";
  let ast = thebe::parse(source).unwrap();
  let regions = extract_template_regions(source, &ast);
  assert_eq!(regions.len(), 1);
  assert_eq!(regions[0].1, source);
}

#[test]
fn scope_id_deterministic() {
  let id1 = generate_scope_id(".a { color: red; }");
  let id2 = generate_scope_id(".a { color: red; }");
  assert_eq!(id1, id2);
  assert!(id1.starts_with("s-"));
}

#[test]
fn scope_id_differs_for_different_content() {
  let id1 = generate_scope_id(".a { color: red; }");
  let id2 = generate_scope_id(".b { color: blue; }");
  assert_ne!(id1, id2);
}

#[test]
fn parse_known_modifier() {
  let span = Span::new(0, 10);
  assert_eq!(
    parse_event_modifier("preventDefault", span).unwrap(),
    EventModifier::PreventDefault,
  );
  assert_eq!(
    parse_event_modifier("stopPropagation", span).unwrap(),
    EventModifier::StopPropagation,
  );
  assert_eq!(
    parse_event_modifier("once", span).unwrap(),
    EventModifier::Once,
  );
}

#[test]
fn parse_unknown_modifier_errors() {
  let span = Span::new(0, 10);
  let err = parse_event_modifier("yolo", span).unwrap_err();
  assert!(matches!(err, CompileError::UnknownEventModifier { .. }));
}
