use thebe::discover::classify;
use thebe::discover::compute_module_segments;
use thebe::discover::compute_url_path;
use thebe::discover::extract_params;
use thebe::discover::RouteKind;


// ── URL paths ──────────────────────────────────────────────────────

#[test]
fn index_maps_to_root() {
  assert_eq!(compute_url_path("index.trs"), "/");
}

#[test]
fn about_maps_to_about() {
  assert_eq!(compute_url_path("about.trs"), "/about");
}

#[test]
fn nested_index_maps_to_parent() {
  assert_eq!(compute_url_path("blog/index.trs"), "/blog");
}

#[test]
fn nested_leaf_maps_to_full_path() {
  assert_eq!(
    compute_url_path("blog/post.trs"),
    "/blog/post"
  );
}

#[test]
fn deeply_nested() {
  assert_eq!(
    compute_url_path("docs/api/v2/index.trs"),
    "/docs/api/v2"
  );
}

#[test]
fn dynamic_segment_in_filename() {
  assert_eq!(
    compute_url_path("blog/[id].trs"),
    "/blog/{id}"
  );
}

#[test]
fn dynamic_segment_in_directory() {
  assert_eq!(
    compute_url_path("[org]/[repo].trs"),
    "/{org}/{repo}"
  );
}

#[test]
fn layout_maps_to_parent_path() {
  assert_eq!(compute_url_path("_layout.trs"), "/");
  assert_eq!(
    compute_url_path("blog/_layout.trs"),
    "/blog"
  );
}

#[test]
fn error_maps_to_parent_path() {
  assert_eq!(compute_url_path("_error.trs"), "/");
  assert_eq!(
    compute_url_path("blog/_error.trs"),
    "/blog"
  );
}

// ── Params ─────────────────────────────────────────────────────────

#[test]
fn no_params_for_static() {
  assert!(extract_params("about.trs").is_empty());
}

#[test]
fn single_param() {
  assert_eq!(
    extract_params("blog/[id].trs"),
    vec!["id"]
  );
}

#[test]
fn multiple_params() {
  assert_eq!(
    extract_params("[org]/[repo].trs"),
    vec!["org", "repo"]
  );
}

// ── Module segments ────────────────────────────────────────────────

#[test]
fn module_segments_flat() {
  assert_eq!(
    compute_module_segments("index.trs"),
    vec!["index"]
  );
}

#[test]
fn module_segments_nested() {
  assert_eq!(
    compute_module_segments("blog/post.trs"),
    vec!["blog", "post"]
  );
}

#[test]
fn module_segments_deeply_nested() {
  assert_eq!(
    compute_module_segments("docs/api/v2/reference.trs"),
    vec!["docs", "api", "v2", "reference"]
  );
}

#[test]
fn module_segments_dynamic() {
  assert_eq!(
    compute_module_segments("blog/[id].trs"),
    vec!["blog", "_id"]
  );
}

#[test]
fn module_segments_layout() {
  assert_eq!(
    compute_module_segments("_layout.trs"),
    vec!["_layout"]
  );
}

#[test]
fn module_segments_error() {
  assert_eq!(
    compute_module_segments("_error.trs"),
    vec!["_error"]
  );
}

// ── Classification ─────────────────────────────────────────────────

#[test]
fn classify_page() {
  assert_eq!(classify("index.trs", false), RouteKind::Page);
}

#[test]
fn classify_layout() {
  assert_eq!(
    classify("_layout.trs", false),
    RouteKind::Layout
  );
}

#[test]
fn classify_error() {
  assert_eq!(
    classify("_error.trs", false),
    RouteKind::Error
  );
}

#[test]
fn classify_component() {
  assert_eq!(
    classify("Counter.trs", true),
    RouteKind::Component
  );
}

#[test]
fn classify_dynamic_page() {
  assert_eq!(
    classify("blog/[id].trs", false),
    RouteKind::Page
  );
}
