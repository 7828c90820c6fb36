
use std::collections::BTreeSet;
use thebe::discover::RouteEntry;
use thebe::discover::RouteKind;
use thebe::emit::build_layout_map;
use thebe::emit::build_mod_tree;
use thebe::emit::build_param_types;
use thebe::emit::find_layout_for_page;
use thebe::emit::handler_name;
use thebe::emit::to_pascal_case;
use thebe::emit::validate_output_dir;
use thebe::emit::ComponentInfo;
use thebe::emit::PathMap;

#[test]
fn handler_name_flat() {
  let segs = vec!["index".to_string()];
  assert_eq!(handler_name(&segs), "__route_index");
}

#[test]
fn handler_name_nested() {
  let segs = vec!["blog".to_string(), "post".to_string()];
  assert_eq!(handler_name(&segs), "__route_blog_post");
}

#[test]
fn handler_name_dynamic() {
  let segs = vec!["blog".to_string(), "_id".to_string()];
  assert_eq!(handler_name(&segs), "__route_blog_id");
}

#[test]
fn mod_tree_flat() {
  let routes = vec![entry(&["index"], RouteKind::Page), entry(&["about"], RouteKind::Page)];
  let tree = build_mod_tree(&routes);
  let names: Vec<_> = tree.keys();
  assert_eq!(names, vec!["about", "index"]);
}

#[test]
fn mod_tree_nested() {
  let routes = vec![
    entry(&["index"], RouteKind::Page),
    entry(&["blog", "index"], RouteKind::Page),
    entry(&["blog", "post"], RouteKind::Page),
  ];
  let tree = build_mod_tree(&routes);
  assert!(tree.contains_key("blog"));
  let blog = tree.child("blog").unwrap();
  let blog_children: BTreeSet<_> = blog.keys().into_iter().collect();
  assert!(blog_children.contains("index"));
  assert!(blog_children.contains("post"));
}

#[test]
fn param_types_single() {
  assert_eq!(build_param_types(&vec!["id".into()]), "String");
}

#[test]
fn param_types_multiple() {
  assert_eq!(
    build_param_types(&vec!["org".into(), "repo".into()]),
    "String, String"
  );
}

#[test]
fn layout_map_root() {
  let layout = route_entry(&["_layout"], RouteKind::Layout, "_layout.trs");
  let map = build_layout_map(&[&layout]);
  assert!(map.contains_key(""));
}

#[test]
fn layout_map_nested() {
  let layout = route_entry(&["blog", "_layout"], RouteKind::Layout, "blog/_layout.trs");
  let map = build_layout_map(&[&layout]);
  assert!(map.contains_key("blog"));
}

#[test]
fn find_layout_root() {
  let layout = route_entry(&["_layout"], RouteKind::Layout, "_layout.trs");
  let map = build_layout_map(&[&layout]);
  let page = route_entry(&["index"], RouteKind::Page, "index.trs");
  let found = find_layout_for_page(&page, &map);
  assert_eq!(found, Some(vec!["_layout".to_string()]));
}

#[test]
fn find_layout_nested_inherits_parent() {
  let layout = route_entry(&["_layout"], RouteKind::Layout, "_layout.trs");
  let map = build_layout_map(&[&layout]);
  let page = route_entry(&["blog", "post"], RouteKind::Page, "blog/post.trs");
  let found = find_layout_for_page(&page, &map);
  assert_eq!(found, Some(vec!["_layout".to_string()]));
}

#[test]
fn find_layout_nearest_wins() {
  let root_layout = route_entry(&["_layout"], RouteKind::Layout, "_layout.trs");
  let blog_layout =
    route_entry(&["blog", "_layout"], RouteKind::Layout, "blog/_layout.trs");
  let map = build_layout_map(&[&root_layout, &blog_layout]);
  let page = route_entry(&["blog", "post"], RouteKind::Page, "blog/post.trs");
  let found = find_layout_for_page(&page, &map);
  assert_eq!(
    found,
    Some(vec!["blog".to_string(), "_layout".to_string()])
  );
}

#[test]
fn find_layout_none() {
  let map = PathMap::new();
  let page = route_entry(&["about"], RouteKind::Page, "about.trs");
  assert_eq!(find_layout_for_page(&page, &map), None);
}

/// Helper with minimal fields.
fn entry(segments: &[&str], kind: RouteKind) -> RouteEntry {
  RouteEntry {
    source_path: String::new(),
    relative_path: String::new(),
    url_path: String::new(),
    module_segments: segments.iter().map(|s| (*s).to_string()).collect(),
    kind,
    params: Vec::new(),
  }
}

/// Helper with a relative path for layout lookups.
fn route_entry(segments: &[&str], kind: RouteKind, rel: &str) -> RouteEntry {
  RouteEntry {
    source_path: String::new(),
    relative_path: rel.to_string(),
    url_path: String::new(),
    module_segments: segments.iter().map(|s| (*s).to_string()).collect(),
    kind,
    params: Vec::new(),
  }
}

// ── to_pascal_case ───────────────────────────────────────────────────

#[test]
fn pascal_already_pascal() {
  assert_eq!(to_pascal_case("Header"), "Header");
}

#[test]
fn pascal_lowercase_single() {
  assert_eq!(to_pascal_case("header"), "Header");
}

#[test]
fn pascal_snake_case() {
  assert_eq!(to_pascal_case("nav_bar"), "NavBar");
}

#[test]
fn pascal_kebab_case() {
  assert_eq!(to_pascal_case("nav-bar"), "NavBar");
}

#[test]
fn pascal_mixed_snake_pascal() {
  assert_eq!(to_pascal_case("my_Button"), "MyButton");
}

#[test]
fn pascal_single_char() {
  assert_eq!(to_pascal_case("x"), "X");
}

// ── ComponentInfo ───────────────────────────────────────────────────

#[test]
fn component_info_from_pascal() {
  let ci = ComponentInfo::from_stem("Header");
  assert_eq!(ci.module_name, "header");
  assert_eq!(ci.alias, "Header");
}

#[test]
fn component_info_from_lowercase() {
  let ci = ComponentInfo::from_stem("header");
  assert_eq!(ci.module_name, "header");
  assert_eq!(ci.alias, "Header");
}

#[test]
fn component_info_from_snake() {
  let ci = ComponentInfo::from_stem("nav_bar");
  assert_eq!(ci.module_name, "nav_bar");
  assert_eq!(ci.alias, "NavBar");
}

// ── Output directory validation ─────────────────────────────────────

#[test]
fn validate_rejects_root() {
  assert!(validate_output_dir("/", false).is_err());
}

#[test]
fn validate_rejects_dot() {
  assert!(validate_output_dir(".", false).is_err());
}

#[test]
fn validate_rejects_dotdot() {
  assert!(validate_output_dir("..", false).is_err());
}

#[test]
fn validate_rejects_shallow_absolute() {
  // Single-component absolute path like `/tmp`.
  assert!(validate_output_dir("/tmp", false).is_err());
}

#[test]
fn validate_rejects_non_dot_without_force() {
  assert!(validate_output_dir("project/generated", false).is_err());
}

#[test]
fn validate_accepts_dot_prefixed_relative() {
  assert!(validate_output_dir("project/.thebe", false).is_ok());
}

#[test]
fn validate_accepts_plain_relative() {
  assert!(validate_output_dir(".thebe", false).is_ok());
}

#[test]
fn validate_accepts_non_dot_with_force() {
  assert!(validate_output_dir("project/generated", true).is_ok());
}

#[test]
fn validate_accepts_deep_absolute_dot() {
  assert!(validate_output_dir("/Users/x/project/.thebe", false).is_ok());
}

#[test]
fn validate_rejects_deep_absolute_no_dot() {
  assert!(validate_output_dir("/Users/x/project/out", false).is_err());
}

#[test]
fn validate_accepts_deep_absolute_force() {
  assert!(validate_output_dir("/Users/x/project/out", true).is_ok());
}
