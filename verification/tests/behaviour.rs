use thebe::diagnostics::compile_diag_info;
use thebe::diagnostics::decimal_string;
use thebe::diagnostics::diag_info;
use thebe::diagnostics::warn_diag_info;
use thebe::diagnostics::DiagInfo;
use thebe::diagnostics::WarnDiagInfo;
use thebe::discover::discover_routes;
use thebe::discover::RouteEntry;
use thebe::discover::RouteKind;
use thebe::discover::TrsFile;
use thebe::emit::build_mod_tree;
use thebe::emit::component_imports;
use thebe::emit::component_infos;
use thebe::emit::components_mod;
use thebe::emit::emit_root_mod;
use thebe::emit::mod_file;
use thebe::emit::module_file_name;
use thebe::emit::plan_modules;
use thebe::emit::validate_output_dir;
use thebe::emit::ComponentInfo;
use thebe::emit::OutputDirError;
use thebe::emit::PathMap;
use thebe::lower::extract_template_regions;
use thebe::lower::generate_scope_id;
use thebe::lower::parse_event_modifier;
use thebe::lower::scope_id_from_hash;
use thebe::lower;
use thebe::parse;
use thebe::CompileError;
use thebe::EventModifier;
use thebe::ParseError;
use thebe::Span;
use thebe::ValidationWarning;

const HEADER: &str = "// Auto-generated by thebe. Do not edit.\n#![allow(clippy::all, unused)]\n\n";

fn file(rel: &str, is_component: bool) -> TrsFile {
  TrsFile {
    source_path: format!("src/{rel}"),
    relative_path: rel.to_string(),
    is_component,
  }
}

fn page(rel: &str, segments: &[&str], url: &str) -> RouteEntry {
  RouteEntry {
    source_path: String::new(),
    relative_path: rel.to_string(),
    url_path: url.to_string(),
    module_segments: segments.iter().map(|s| (*s).to_string()).collect(),
    kind: RouteKind::Page,
    params: Vec::new(),
  }
}

// ── parsing ──────────────────────────────────────────────────────────

#[test]
fn blank_inputs_are_empty_input() {
  assert_eq!(parse(""), Err(ParseError::EmptyInput));
  assert_eq!(parse("  \n\t  \r\n"), Err(ParseError::EmptyInput));
}

#[test]
fn non_blank_input_is_not_empty_input() {
  assert!(parse("<p>hi</p>").is_ok());
  assert!(parse("  x  ").is_ok());
}

#[test]
fn parsed_source_always_lowers_its_blocks() {
  let src = "<script setup>\nlet n = 1;\n</script>\n<p>{{ n }}</p>\n<style scoped>\np { color: red; }\n</style>\n";
  let ast = parse(src).unwrap();
  let compiled = lower(src, &ast).unwrap();
  assert_eq!(compiled.setup.unwrap().content, "let n = 1;");
  assert_eq!(compiled.styles.len(), 1);
  assert!(compiled.styles[0].scoped);
  assert_eq!(compiled.template.len(), 1);
  assert!(compiled.head.is_empty());
}

#[test]
fn lowering_keeps_one_node_per_top_level_node() {
  let src = "<h1>a</h1><p>b</p><span>c</span>";
  let ast = parse(src).unwrap();
  let compiled = lower(src, &ast).unwrap();
  assert_eq!(compiled.template.len(), 3);
}

#[test]
fn head_tag_is_parsed_as_an_ordinary_element() {
  let src = "<thebe:head><title>T</title></thebe:head><p>body</p>";
  let ast = parse(src).unwrap();
  let compiled = lower(src, &ast).unwrap();
  assert!(compiled.head.is_empty());
  assert_eq!(compiled.template.len(), 2);
}

#[test]
fn template_regions_are_the_gaps_between_blocks() {
  let src = "<p>a</p>\n<style>x</style>\n<p>b</p>";
  let ast = parse(src).unwrap();
  let regions = extract_template_regions(src, &ast);
  assert_eq!(regions.len(), 2);
  assert_eq!(regions[0], (0, "<p>a</p>\n".to_string()));
  assert_eq!(regions[1].1, "\n<p>b</p>");
  assert_eq!(regions[1].0, src.find("\n<p>b").unwrap());
}

// ── event modifiers ──────────────────────────────────────────────────

#[test]
fn every_known_modifier_is_accepted() {
  let span = Span::new(0, 1);
  assert_eq!(parse_event_modifier("preventDefault", span), Ok(EventModifier::PreventDefault));
  assert_eq!(parse_event_modifier("self", span), Ok(EventModifier::Self_));
  assert_eq!(parse_event_modifier("nonpassive", span), Ok(EventModifier::NonPassive));
}

#[test]
fn unknown_modifier_is_reported_with_its_span() {
  let span = Span::new(3, 9);
  assert_eq!(
    parse_event_modifier("bogus", span),
    Err(CompileError::UnknownEventModifier { modifier: "bogus".to_string(), span })
  );
}

// ── scope ids ────────────────────────────────────────────────────────

#[test]
fn scope_id_uses_low_32_bits_in_hex() {
  assert_eq!(scope_id_from_hash(0x1234_5678_9abc_def0), "s-9abcdef0");
  assert_eq!(scope_id_from_hash(0xff), "s-000000ff");
  assert_eq!(scope_id_from_hash(0), "s-00000000");
}

#[test]
fn scope_id_has_fixed_format_and_is_deterministic() {
  let a = generate_scope_id(".card { color: red; }");
  assert_eq!(a.len(), 10);
  assert!(a.starts_with("s-"));
  assert!(a[2..].chars().all(|c| c.is_ascii_hexdigit() && !c.is_ascii_uppercase()));
  assert_eq!(a, generate_scope_id(".card { color: red; }"));
}

#[test]
fn scope_id_depends_on_content() {
  assert_ne!(generate_scope_id("a { }"), generate_scope_id("b { }"));
}

// ── messages and diagnostics ─────────────────────────────────────────

#[test]
fn decimal_string_writes_digits() {
  assert_eq!(decimal_string(0), vec!['0']);
  assert_eq!(decimal_string(1204), vec!['1', '2', '0', '4']);
}

#[test]
fn parse_error_messages() {
  assert_eq!(ParseError::EmptyInput.message(), "input is empty");
  assert_eq!(
    ParseError::UnclosedInterpolation { span: Span::new(5, 7) }.message(),
    "unclosed interpolation \"{{\" at byte 5"
  );
  assert_eq!(
    ParseError::MalformedTag { detail: "bad".to_string(), span: Span::new(12, 13) }.message(),
    "malformed tag at byte 12: bad"
  );
}

#[test]
fn compile_error_messages() {
  let e = CompileError::UnknownEventModifier { modifier: "zap".to_string(), span: Span::new(40, 50) };
  assert_eq!(e.message(), "unknown event modifier 'zap' at byte 40");
  let p = CompileError::Parse(ParseError::UnclosedIfBlock { span: Span::new(7, 8) });
  assert_eq!(p.message(), "unclosed {#if} block at byte 7");
}

#[test]
fn parse_error_diagnostic() {
  assert_eq!(
    diag_info(&ParseError::EmptyInput),
    DiagInfo {
      range: (0, 0),
      message: "input is empty".to_string(),
      label: "expected at least one block or template content".to_string(),
      note: None,
      help: None,
    }
  );
  let d = diag_info(&ParseError::UnclosedEachBlock { span: Span::new(2, 9) });
  assert_eq!(d.range, (2, 9));
  assert_eq!(d.message, "unclosed {#each} block");
  assert_eq!(d.help, Some("add a closing {/each} tag".to_string()));
}

#[test]
fn compile_error_diagnostic() {
  let d = compile_diag_info(&CompileError::Parse(ParseError::EmptyInput));
  assert_eq!(d.range, (0, 0));
  assert_eq!(d.message, "parse error");
  assert_eq!(d.label, "input is empty");
  let u = compile_diag_info(&CompileError::UnknownEventModifier {
    modifier: "zap".to_string(),
    span: Span::new(4, 6),
  });
  assert_eq!(u.range, (4, 6));
  assert_eq!(u.label, "'zap' is not a recognised modifier");
}

#[test]
fn warning_diagnostic() {
  let w = ValidationWarning::DuplicateAttribute {
    name: "id".to_string(),
    tag: "div".to_string(),
    first_span: Span::new(5, 11),
    dup_span: Span::new(12, 18),
  };
  assert_eq!(
    warn_diag_info(&w),
    WarnDiagInfo {
      range: (12, 18),
      message: "duplicate attribute".to_string(),
      label: "'id' already set on <div>".to_string(),
      first_range: Some((5, 11)),
      help: Some("remove one of the duplicate attributes".to_string()),
    }
  );
}

#[test]
fn line_and_column_of_a_span() {
  let src = "ab\ncd\nef";
  assert_eq!(Span::new(0, 1).line_col(src), (1, 1));
  assert_eq!(Span::new(4, 5).line_col(src), (2, 2));
  assert_eq!(Span::new(6, 7).line_col(src), (3, 1));
  assert_eq!(Span::new(2, 3).line_col("é\nx"), (1, 3));
  assert_eq!(Span::new(3, 4).line_col("é\nx"), (2, 1));
}

// ── route discovery ──────────────────────────────────────────────────

#[test]
fn discovered_routes_are_sorted_by_path() {
  let files = vec![
    file("blog/post.trs", false),
    file("about.trs", false),
    file("_layout.trs", false),
    file("blog/[id].trs", false),
    file("index.trs", false),
  ];
  let routes = discover_routes(&files);
  let paths: Vec<&str> = routes.iter().map(|r| r.relative_path.as_str()).collect();
  assert_eq!(
    paths,
    vec!["_layout.trs", "about.trs", "blog/[id].trs", "blog/post.trs", "index.trs"]
  );
  assert_eq!(routes[0].kind, RouteKind::Layout);
  assert_eq!(routes[2].url_path, "/blog/{id}");
  assert_eq!(routes[2].params, vec!["id".to_string()]);
  assert_eq!(routes[4].url_path, "/");
}

#[test]
fn discovered_components_keep_their_kind() {
  let routes = discover_routes(&vec![file("Header.trs", true), file("index.trs", false)]);
  assert_eq!(routes.len(), 2);
  assert_eq!(routes[0].kind, RouteKind::Component);
  assert_eq!(routes[1].kind, RouteKind::Page);
}

// ── module tree ──────────────────────────────────────────────────────

#[test]
fn mod_tree_keys_are_sorted_and_hold_every_route() {
  let routes = vec![
    page("zeta.trs", &["zeta"], "/zeta"),
    page("blog/x.trs", &["blog", "x"], "/blog/x"),
    page("alpha.trs", &["alpha"], "/alpha"),
    page("blog/a.trs", &["blog", "a"], "/blog/a"),
  ];
  let tree = build_mod_tree(&routes);
  assert_eq!(tree.keys(), vec!["alpha", "blog", "zeta"]);
  assert_eq!(tree.child("blog").unwrap().keys(), vec!["a", "x"]);
  assert!(tree.child("nope").is_none());
  assert_eq!(
    mod_file(&tree),
    format!("{HEADER}pub mod alpha;\npub mod blog;\npub mod zeta;\n")
  );
}

// ── output directory guard ───────────────────────────────────────────

#[test]
fn output_dir_errors_name_the_reason() {
  assert_eq!(validate_output_dir("/", false), Err(OutputDirError::RootOrEmpty));
  assert_eq!(validate_output_dir("", true), Err(OutputDirError::RootOrEmpty));
  assert_eq!(
    validate_output_dir("/tmp", true),
    Err(OutputDirError::TooShallow { path: "/tmp".to_string() })
  );
  assert_eq!(
    validate_output_dir("gen", false),
    Err(OutputDirError::NotDotPrefixed { name: "gen".to_string() })
  );
  assert_eq!(validate_output_dir("/home/u/.out", false), Ok(()));
}

#[test]
fn output_dir_error_messages() {
  assert_eq!(
    OutputDirError::RootOrEmpty.message(),
    "output directory must not be a filesystem root or empty path"
  );
  assert_eq!(
    OutputDirError::TooShallow { path: "/tmp".to_string() }.message(),
    "absolute output path is too shallow; refusing to wipe `/tmp`"
  );
  assert_eq!(
    OutputDirError::NotDotPrefixed { name: "gen".to_string() }.message(),
    "output directory name `gen` does not start with a dot; use a dot-prefixed name (e.g. `.thebe`) or pass --force"
  );
}

// ── generated modules ────────────────────────────────────────────────

#[test]
fn component_info_lowercases_module_name() {
  let ci = ComponentInfo::from_stem("NavBar");
  assert_eq!(ci.module_name, "navbar");
  assert_eq!(ci.alias, "NavBar");
}

#[test]
fn module_file_names() {
  assert_eq!(module_file_name("NavBar", true), "navbar.rs");
  assert_eq!(module_file_name("_id", false), "_id.rs");
}

#[test]
fn components_mod_lists_modules() {
  let infos = vec![ComponentInfo::from_stem("Header"), ComponentInfo::from_stem("nav_bar")];
  assert_eq!(
    components_mod(&infos),
    format!("{HEADER}pub mod header;\npub mod nav_bar;\n")
  );
}

#[test]
fn component_imports_only_for_rendered_components() {
  let infos = vec![ComponentInfo::from_stem("Header"), ComponentInfo::from_stem("NavBar")];
  let (text, names) = component_imports("let h = Header::render();", &infos, 0);
  assert_eq!(text, "use super::components::header as Header;\n\n");
  assert_eq!(names, vec!["header".to_string()]);
  let (text2, names2) = component_imports("Header::render(); NavBar::render();", &infos, 1);
  assert_eq!(
    text2,
    "use super::super::components::header as Header;\nuse super::super::components::navbar as NavBar;\n\n"
  );
  assert_eq!(names2.len(), 2);
  let (none, no_names) = component_imports("plain", &infos, 0);
  assert_eq!(none, "");
  assert!(no_names.is_empty());
}

#[test]
fn root_mod_for_a_single_page() {
  let index = page("index.trs", &["index"], "/");
  let text = emit_root_mod(&[&index], &PathMap::new(), None, false, &PathMap::new());
  let expected = format!(
    "{HEADER}pub mod routes;\nmod shell;\n\n/// Build an [`axum::Router`] with all discovered routes.\npub fn router() -> axum::Router {{\n  axum::Router::new()\n    .route(\"/\", axum::routing::get(__route_index))\n}}\n\nasync fn __route_index() -> axum::response::Html<String> {{\n  let body = routes::index::render();\n  let mut all_styles: Vec<&str> = Vec::new();\n  all_styles.extend_from_slice(routes::index::STYLES);\n  axum::response::Html(shell::document(&body, &all_styles))\n}}\n"
  );
  assert_eq!(text, expected);
}

#[test]
fn plan_includes_components_module_only_with_components() {
  let mut header = page("Header.trs", &["Header"], "");
  header.kind = RouteKind::Component;
  let entries = vec![page("index.trs", &["index"], "/"), header];
  let plan = plan_modules(&entries, &PathMap::new());
  assert_eq!(plan.components_mod, Some(format!("{HEADER}pub mod header;\n")));
  assert!(plan.root_mod.contains("pub mod components;\n"));
  assert_eq!(plan.mod_tree.keys(), vec!["index"]);
  let infos = component_infos(&entries);
  assert_eq!(infos, vec![ComponentInfo::from_stem("Header")]);

  let only_pages = vec![page("index.trs", &["index"], "/")];
  let plan2 = plan_modules(&only_pages, &PathMap::new());
  assert_eq!(plan2.components_mod, None);
  assert!(!plan2.root_mod.contains("components"));
}

// ── diagnostics of parse errors, from source ─────────────────────────

#[test]
fn diag_info_of_duplicate_script_setup() {
  let source = "<script setup>\nlet a = 1;\n</script>\n<script setup>\nlet b = 2;\n</script>";
  let d = diag_info(&parse(source).unwrap_err());
  assert_eq!(d.message, "duplicate <script setup> block");
  assert_eq!(d.label, "second <script setup> found here");
  assert_eq!(d.range.0, source.rfind("<script setup>").unwrap());
}

#[test]
fn diag_info_of_missing_script_lang_has_help() {
  let d = diag_info(&parse("<script>\nfoo();\n</script>").unwrap_err());
  assert_eq!(d.message, "<script> requires a lang attribute");
  assert_eq!(d.label, "missing lang attribute");
  assert!(d.help.is_some());
}

#[test]
fn diag_info_of_nested_script() {
  let d = diag_info(&parse("<div>\n<script>\nfoo();\n</script>\n</div>").unwrap_err());
  assert_eq!(d.message, "<script> tag inside template content");
}

#[test]
fn diag_info_of_template_errors() {
  let d = diag_info(&thebe::parse_template("Hello {{ name", 0).unwrap_err());
  assert_eq!(d.message, "unclosed interpolation");
  assert_eq!(d.label, "opening {{ has no matching }}");
  assert_eq!(d.range.0, 6);
  let e = diag_info(&thebe::parse_html("{#each items}<li>x</li>{/each}", 0).unwrap_err());
  assert_eq!(e.message, "invalid {#each} expression");
  assert!(e.label.starts_with("could not parse: "));
  assert!(e.help.is_some());
  let f = diag_info(&thebe::parse_html("{#if show}<p>oops</p>", 0).unwrap_err());
  assert_eq!(f.label, "{#if} opened here has no matching {/if}");
}

#[test]
fn diag_info_of_unknown_modifier_from_source() {
  let source = r#"<button on:click|banana="h">x</button>"#;
  let err = lower(source, &parse(source).unwrap()).unwrap_err();
  let d = compile_diag_info(&err);
  assert_eq!(d.message, "unknown event modifier");
  assert_eq!(d.label, "'banana' is not a recognised modifier");
}

// ── error spans ──────────────────────────────────────────────────────

#[test]
fn missing_lang_points_at_the_opening_tag() {
  assert_eq!(
    parse("<script>\nconsole.log('hi');\n</script>"),
    Err(ParseError::MissingScriptLang { span: Span::new(0, 8) })
  );
}

#[test]
fn setup_lang_points_at_the_opening_tag() {
  assert_eq!(
    parse("<p>x</p><script setup lang=\"ts\">a</script>"),
    Err(ParseError::InvalidSetupLang { span: Span::new(8, 32) })
  );
}

#[test]
fn nested_script_in_template_points_at_the_tag() {
  assert_eq!(
    parse("<p>a</p><script"),
    Err(ParseError::NestedScript { span: Span::new(8, 15) })
  );
  assert!(matches!(
    parse("  é <script x"),
    Err(ParseError::NestedScript { span }) if span.start == 5
  ));
}

// ── plain-text reports ───────────────────────────────────────────────

#[test]
fn reports_name_the_file_and_the_message() {
  let source = "<script>\nfoo();\n</script>";
  let err = parse(source).unwrap_err();
  let out = thebe::report::error_to_string(&err, source, Some("app.trs"));
  assert!(out.contains("app.trs"));
  assert!(out.contains("<script> requires a lang attribute"));
  assert!(out.contains("missing lang attribute"));
  let w = ValidationWarning::DuplicateAttribute {
    name: "id".to_string(),
    tag: "div".to_string(),
    first_span: Span::new(5, 11),
    dup_span: Span::new(12, 18),
  };
  let src2 = "<div id=\"a\" id=\"b\"></div>";
  let out2 = thebe::compile_report::warning_to_string(&w, src2, None);
  assert!(out2.contains("<unknown>"));
  assert!(out2.contains("duplicate attribute"));
  assert!(out2.contains("first defined here"));
}

#[test]
fn reports_render_spans_past_the_end() {
  let out = thebe::report::error_to_string(
    &ParseError::UnclosedIfBlock { span: Span::new(50, 60) },
    "{#if a}",
    None,
  );
  assert!(out.contains("unclosed {#if} block"));
}
