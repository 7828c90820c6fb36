//! Route classification: from the relative path of a `.trs` file to its
//! URL route, Rust module path and dynamic parameters.
//!
//! Paths are relative paths with `/` separators; their components follow
//! `std::path::Path::components` on Unix hosts (empty and `.` parts are
//! dropped, except a leading `.`; a leading `/` is the root). A backslash
//! is an ordinary character here, where on Windows hosts `std::path` would
//! also separate on it.

use vstd::prelude::*;
use crate::template::{lemma_split_on_nonempty, split_char, split_on};
use crate::text::{chars_eq, chars_of, concat_chars, concat3, string_from, strings_view, substring};

verus! {

// ---------------------------------------------------------------------------
// Types
// ---------------------------------------------------------------------------

/// Classification of a discovered `.trs` file.
#[derive(Debug, Clone, Copy, PartialEq, Eq, Structural)]
pub enum RouteKind {
    /// A normal page route.
    Page,
    /// A layout that wraps sibling and child routes (`_layout.trs`).
    Layout,
    /// An error page (`_error.trs`, used as 404/500 fallback).
    Error,
    /// A reusable component (lives under `components/`).
    Component,
}

/// A discovered `.trs` file with computed metadata.
#[derive(Debug, Clone)]
pub struct RouteEntry {
    /// Path to the `.trs` source file.
    pub source_path: String,
    /// Path relative to the base directory (e.g. `index.trs`), with `/` separators.
    pub relative_path: String,
    /// URL route path (e.g. `/`, `/about`, `/blog/{id}`).
    pub url_path: String,
    /// Rust module path segments (e.g. `["blog", "_id"]`).
    pub module_segments: Vec<String>,
    /// What kind of file this is.
    pub kind: RouteKind,
    /// Names of dynamic path parameters, in order (e.g. `["id"]`).
    pub params: Vec<String>,
}

/// A `.trs` file found on disk: where it is, its path relative to the
/// directory searched, and whether that directory holds components.
#[derive(Debug, Clone)]
pub struct TrsFile {
    pub source_path: String,
    pub relative_path: String,
    pub is_component: bool,
}

pub struct RouteEntryView {
    pub source_path: Seq<char>,
    pub relative_path: Seq<char>,
    pub url_path: Seq<char>,
    pub module_segments: Seq<Seq<char>>,
    pub kind: RouteKind,
    pub params: Seq<Seq<char>>,
}

impl View for RouteEntry {
    type V = RouteEntryView;

    open spec fn view(&self) -> RouteEntryView {
        RouteEntryView {
            source_path: self.source_path@,
            relative_path: self.relative_path@,
            url_path: self.url_path@,
            module_segments: strings_view(self.module_segments@),
            kind: self.kind,
            params: strings_view(self.params@),
        }
    }
}

// ---------------------------------------------------------------------------
// Path components
// ---------------------------------------------------------------------------

/// The parts that are neither empty nor `.`.
pub open spec fn keep_parts(parts: Seq<Seq<char>>) -> Seq<Seq<char>>
    decreases parts.len(),
{
    if parts.len() == 0 {
        Seq::empty()
    } else {
        let r = keep_parts(parts.drop_last());
        let x = parts.last();
        if x.len() == 0 || x == "."@ {
            r
        } else {
            r.push(x)
        }
    }
}

/// The components of a path: the root `/` when it starts with one, a
/// leading `.`, then every part between separators that is neither empty nor `.`.
pub open spec fn path_components(p: Seq<char>) -> Seq<Seq<char>> {
    let parts = split_on(p, '/');
    if p.len() > 0 && p[0] == '/' {
        seq!["/"@] + keep_parts(parts)
    } else if parts[0] == "."@ {
        seq!["."@] + keep_parts(parts.drop_first())
    } else {
        keep_parts(parts)
    }
}

/// The final component, when it is a name (not the root, `.` or `..`).
pub open spec fn file_name(p: Seq<char>) -> Option<Seq<char>> {
    let c = path_components(p);
    if c.len() > 0 && c.last() != "/"@ && c.last() != "."@ && c.last() != ".."@ {
        Some(c.last())
    } else {
        None
    }
}

/// The index of the last `.` of `s`.
pub open spec fn last_dot(s: Seq<char>) -> Option<int>
    decreases s.len(),
{
    if s.len() == 0 {
        None
    } else if s.last() == '.' {
        Some(s.len() - 1)
    } else {
        last_dot(s.drop_last())
    }
}

pub proof fn lemma_last_dot_props(s: Seq<char>)
    ensures
        last_dot(s) matches Some(k) ==> 0 <= k < s.len() && s[k] == '.',
    decreases s.len(),
{
    if s.len() > 0 && s.last() != '.' {
        lemma_last_dot_props(s.drop_last());
    }
}

/// A file name without its extension: up to its last `.`, unless that dot
/// is the first character (or there is none).
pub open spec fn stem_of(name: Seq<char>) -> Seq<char> {
    match last_dot(name) {
        Some(k) => if k > 0 {
            name.take(k)
        } else {
            name
        },
        None => name,
    }
}

/// `Path::file_stem`.
pub open spec fn file_stem(p: Seq<char>) -> Option<Seq<char>> {
    match file_name(p) {
        Some(n) => Some(stem_of(n)),
        None => None,
    }
}

/// The components of `Path::parent`: all but the last.
pub open spec fn parent_components(p: Seq<char>) -> Seq<Seq<char>> {
    let c = path_components(p);
    if c.len() == 0 {
        c
    } else {
        c.drop_last()
    }
}

/// Whether a segment is a dynamic parameter `[name]`.
pub open spec fn bracketed(s: Seq<char>) -> bool {
    s.len() >= 2 && s[0] == '[' && s.last() == ']'
}

pub open spec fn inner(s: Seq<char>) -> Seq<char> {
    s.subrange(1, s.len() - 1)
}

/// A URL segment: `[param]` becomes `{param}`.
pub open spec fn url_segment(s: Seq<char>) -> Seq<char> {
    if bracketed(s) {
        "{"@ + inner(s) + "}"@
    } else {
        s
    }
}

/// A Rust module name: `[param]` becomes `_param`.
pub open spec fn module_name(s: Seq<char>) -> Seq<char> {
    if bracketed(s) {
        "_"@ + inner(s)
    } else {
        s
    }
}

/// The segments joined with `sep` between them.
pub open spec fn join(segs: Seq<Seq<char>>, sep: Seq<char>) -> Seq<char>
    decreases segs.len(),
{
    if segs.len() == 0 {
        Seq::empty()
    } else if segs.len() == 1 {
        segs[0]
    } else {
        join(segs.drop_last(), sep) + sep + segs.last()
    }
}

/// The URL segments of a route file: its directories, then its stem unless
/// that is `index`, `_layout` or `_error`.
pub open spec fn url_segments(p: Seq<char>) -> Seq<Seq<char>> {
    let stem = file_stem(p)->Some_0;
    let dirs = parent_components(p).map_values(|s: Seq<char>| url_segment(s));
    if stem != "index"@ && stem != "_layout"@ && stem != "_error"@ {
        dirs.push(url_segment(stem))
    } else {
        dirs
    }
}

/// The URL route of a file: `/` and its URL segments joined by `/`.
pub open spec fn url_path_of(p: Seq<char>) -> Seq<char> {
    "/"@ + join(url_segments(p), "/"@)
}

/// The names of the bracketed segments, in order.
pub open spec fn bracket_params(segs: Seq<Seq<char>>) -> Seq<Seq<char>>
    decreases segs.len(),
{
    if segs.len() == 0 {
        Seq::empty()
    } else {
        let r = bracket_params(segs.drop_last());
        if bracketed(segs.last()) {
            r.push(inner(segs.last()))
        } else {
            r
        }
    }
}

/// The dynamic parameters of a file: bracketed directories, then a bracketed stem.
pub open spec fn params_of(p: Seq<char>) -> Seq<Seq<char>> {
    let stem = match file_stem(p) {
        Some(s) => s,
        None => Seq::empty(),
    };
    bracket_params(parent_components(p).push(stem))
}

/// The module path of a file: its directories and its stem as module names.
pub open spec fn module_segments_of(p: Seq<char>) -> Seq<Seq<char>> {
    parent_components(p).push(file_stem(p)->Some_0).map_values(|s: Seq<char>| module_name(s))
}

/// Law: a route file has one module segment per directory, in order, and
/// one for its stem. A dynamic segment `[x]` becomes `_x`; any other is kept
/// as it is; so no module segment is a bracketed `[x]`.
pub proof fn lemma_module_segments_sanitized(p: Seq<char>)
    requires
        file_name(p) is Some,
    ensures
        ({
            let segs = module_segments_of(p);
            let dirs = parent_components(p);
            let stem = file_stem(p)->Some_0;
            &&& segs.len() == dirs.len() + 1
            &&& forall|i: int|
                0 <= i < dirs.len() ==> #[trigger] segs[i] == if bracketed(dirs[i]) {
                    "_"@ + dirs[i].subrange(1, dirs[i].len() - 1)
                } else {
                    dirs[i]
                }
            &&& segs.last() == if bracketed(stem) {
                "_"@ + stem.subrange(1, stem.len() - 1)
            } else {
                stem
            }
            &&& forall|i: int| 0 <= i < segs.len() ==> !bracketed(#[trigger] segs[i])
        }),
{
    reveal_strlit("_");
    let segs = module_segments_of(p);
    let all = parent_components(p).push(file_stem(p)->Some_0);
    assert forall|i: int| 0 <= i < segs.len() implies !bracketed(#[trigger] segs[i]) by {
        assert(segs[i] == module_name(all[i]));
        if bracketed(all[i]) {
            assert(segs[i][0] == '_');
        }
    }
}

/// A component file is a component; otherwise `_layout` and `_error` stems
/// are layouts and error pages, and the rest are pages.
pub open spec fn classify_of(p: Seq<char>, is_components: bool) -> RouteKind {
    let stem = match file_stem(p) {
        Some(s) => s,
        None => Seq::empty(),
    };
    if is_components {
        RouteKind::Component
    } else if stem == "_layout"@ {
        RouteKind::Layout
    } else if stem == "_error"@ {
        RouteKind::Error
    } else {
        RouteKind::Page
    }
}

// ---------------------------------------------------------------------------
// Executable path handling
// ---------------------------------------------------------------------------

fn is_dot(s: &String) -> (r: bool)
    ensures
        r == (s@ == "."@),
{
    chars_eq(chars_of(s.as_str()).as_slice(), chars_of(".").as_slice())
}

/// The parts of `parts[from..]` that are neither empty nor `.`.
fn keep_parts_exec(parts: &Vec<String>, from: usize) -> (r: Vec<String>)
    requires
        from <= parts@.len(),
    ensures
        strings_view(r@) == keep_parts(strings_view(parts@).skip(from as int)),
{
    let ghost pv = strings_view(parts@);
    let mut out: Vec<String> = Vec::new();
    let mut i: usize = from;
    proof {
        assert(pv.subrange(from as int, from as int) =~= Seq::<Seq<char>>::empty());
        assert(strings_view(out@) =~= Seq::<Seq<char>>::empty());
    }
    while i < parts.len()
        invariant
            from <= i <= parts@.len(),
            pv == strings_view(parts@),
            pv.len() == parts@.len(),
            strings_view(out@) == keep_parts(pv.subrange(from as int, i as int)),
        decreases parts@.len() - i,
    {
        proof {
            assert(pv.subrange(from as int, i + 1).drop_last() =~= pv.subrange(from as int, i as int));
            assert(pv.subrange(from as int, i + 1).last() == parts@[i as int]@);
        }
        let p = &parts[i];
        if !(p.as_str().is_empty() || is_dot(p)) {
            let c = p.clone();
            proof {
                crate::text::lemma_strings_view_push(out@, c);
            }
            out.push(c);
        }
        i = i + 1;
    }
    proof {
        assert(pv.subrange(from as int, i as int) =~= pv.skip(from as int));
    }
    out
}

/// The components of a path.
pub(crate) fn path_components_of(p: &[char]) -> (r: Vec<String>)
    ensures
        strings_view(r@) == path_components(p@),
{
    let parts = split_char(p, '/');
    proof {
        lemma_split_on_nonempty(p@, '/');
        assert(strings_view(parts@).skip(0) =~= strings_view(parts@));
    }
    if p.len() > 0 && p[0] == '/' {
        let mut out: Vec<String> = Vec::new();
        out.push(string_from(chars_of("/").as_slice()));
        let rest = keep_parts_exec(&parts, 0);
        let mut rest = rest;
        out.append(&mut rest);
        proof {
            assert(strings_view(out@) =~= seq!["/"@] + keep_parts(split_on(p@, '/')));
        }
        out
    } else if is_dot(&parts[0]) {
        let mut out: Vec<String> = Vec::new();
        out.push(string_from(chars_of(".").as_slice()));
        let mut rest = keep_parts_exec(&parts, 1);
        out.append(&mut rest);
        proof {
            assert(strings_view(parts@).skip(1) =~= split_on(p@, '/').drop_first());
            assert(strings_view(out@) =~= seq!["."@] + keep_parts(split_on(p@, '/').drop_first()));
        }
        out
    } else {
        keep_parts_exec(&parts, 0)
    }
}

/// `s` ends with... the index of its last `.`.
fn last_dot_exec(s: &[char]) -> (r: Option<usize>)
    ensures
        match r {
            Some(k) => last_dot(s@) == Some(k as int),
            None => last_dot(s@) is None,
        },
{
    let mut j: usize = s.len();
    proof {
        assert(s@.take(j as int) =~= s@);
    }
    while j > 0
        invariant
            j <= s@.len(),
            last_dot(s@) == last_dot(s@.take(j as int)),
        decreases j,
    {
        proof {
            assert(s@.take(j as int).drop_last() =~= s@.take(j - 1));
        }
        if s[j - 1] == '.' {
            return Some(j - 1);
        }
        j = j - 1;
    }
    None
}

/// The file stem and the parent components of a path.
fn stem_and_parent(p: &[char]) -> (r: (Option<String>, Vec<String>))
    ensures
        opt_seq(r.0) == file_stem(p@),
        strings_view(r.1@) == parent_components(p@),
{
    let mut comps = path_components_of(p);
    let n = comps.len();
    if n == 0 {
        return (None, comps);
    }
    let last = comps.pop().unwrap();
    proof {
        assert(strings_view(comps@) =~= path_components(p@).drop_last());
        assert(last@ == path_components(p@).last());
    }
    let lc = chars_of(last.as_str());
    let is_name = !(chars_eq(lc.as_slice(), chars_of("/").as_slice()) || chars_eq(
        lc.as_slice(),
        chars_of(".").as_slice(),
    ) || chars_eq(lc.as_slice(), chars_of("..").as_slice()));
    if !is_name {
        return (None, comps);
    }
    proof {
        lemma_last_dot_props(lc@);
    }
    let stem = match last_dot_exec(lc.as_slice()) {
        Some(k) => if k > 0 {
            substring(lc.as_slice(), 0, k)
        } else {
            last
        },
        None => last,
    };
    proof {
        assert(stem_of(lc@) == stem@);
    }
    (Some(stem), comps)
}

/// The components of a `/`-separated path (as `Path::components` gives them).
pub fn components(path: &str) -> (r: Vec<String>)
    ensures
        strings_view(r@) == path_components(path@),
{
    path_components_of(chars_of(path).as_slice())
}

/// The file name of a path.
pub(crate) fn file_name_of(p: &[char]) -> (r: Option<String>)
    ensures
        opt_seq(r) == file_name(p@),
{
    let mut comps = path_components_of(p);
    if comps.len() == 0 {
        return None;
    }
    let last = comps.pop().unwrap();
    proof {
        assert(last@ == path_components(p@).last());
    }
    let lc = chars_of(last.as_str());
    if chars_eq(lc.as_slice(), chars_of("/").as_slice()) || chars_eq(lc.as_slice(), chars_of(".").as_slice())
        || chars_eq(lc.as_slice(), chars_of("..").as_slice()) {
        None
    } else {
        Some(last)
    }
}

pub open spec fn opt_seq(o: Option<String>) -> Option<Seq<char>> {
    match o {
        Some(s) => Some(s@),
        None => None,
    }
}

fn is_bracketed(s: &[char]) -> (r: bool)
    ensures
        r == bracketed(s@),
{
    s.len() >= 2 && s[0] == '[' && s[s.len() - 1] == ']'
}

/// Convert a path segment, replacing `[param]` with `{param}`.
fn convert_segment(segment: &String) -> (r: String)
    ensures
        r@ == url_segment(segment@),
{
    let s = chars_of(segment.as_str());
    if is_bracketed(s.as_slice()) {
        let n = s.len();
        concat3(
            chars_of("{").as_slice(),
            vstd::slice::slice_subrange(s.as_slice(), 1, n - 1),
            chars_of("}").as_slice(),
        )
    } else {
        segment.clone()
    }
}

/// Make a path segment a valid Rust identifier: `[id]` becomes `_id`.
fn sanitize_module_name(segment: &String) -> (r: String)
    ensures
        r@ == module_name(segment@),
{
    let s = chars_of(segment.as_str());
    if is_bracketed(s.as_slice()) {
        let n = s.len();
        string_from(
            concat_chars(
                chars_of("_").as_slice(),
                vstd::slice::slice_subrange(s.as_slice(), 1, n - 1),
            ).as_slice(),
        )
    } else {
        segment.clone()
    }
}

/// The segments joined with `sep` between them.
pub fn join_with(segs: &Vec<String>, sep: &str) -> (r: String)
    ensures
        r@ == join(strings_view(segs@), sep@),
{
    let ghost sv = strings_view(segs@);
    let sp = chars_of(sep);
    let mut out: Vec<char> = Vec::new();
    let mut i: usize = 0;
    proof {
        assert(sv.take(0) =~= Seq::<Seq<char>>::empty());
    }
    while i < segs.len()
        invariant
            i <= segs@.len(),
            sv == strings_view(segs@),
            sv.len() == segs@.len(),
            sp@ == sep@,
            out@ == join(sv.take(i as int), sep@),
        decreases segs@.len() - i,
    {
        proof {
            assert(sv.take(i + 1).drop_last() =~= sv.take(i as int));
            assert(sv.take(i + 1).last() == segs@[i as int]@);
        }
        let part = chars_of(segs[i].as_str());
        if i == 0 {
            out = part;
            proof {
                assert(sv.take(1)[0] == segs@[0]@);
            }
        } else {
            let with_sep = concat_chars(out.as_slice(), sp.as_slice());
            out = concat_chars(with_sep.as_slice(), part.as_slice());
        }
        i = i + 1;
    }
    proof {
        assert(sv.take(i as int) =~= sv);
    }
    string_from(out.as_slice())
}

// ---------------------------------------------------------------------------
// Public API
// ---------------------------------------------------------------------------

/// Convert a relative `.trs` file path to a URL route path.
///
/// - `index.trs` → `/`
/// - `about.trs` → `/about`
/// - `blog/index.trs` → `/blog`
/// - `blog/[id].trs` → `/blog/{id}`
/// - `_layout.trs` and `_error.trs` → their directory's path
pub fn compute_url_path(relative: &str) -> (r: String)
    requires
        file_name(relative@) is Some,
    ensures
        r@ == url_path_of(relative@),
{
    let p = chars_of(relative);
    let (stem, parent) = stem_and_parent(p.as_slice());
    let stem = stem.unwrap();
    let ghost pv = strings_view(parent@);
    let mut segments: Vec<String> = Vec::new();
    let mut i: usize = 0;
    while i < parent.len()
        invariant
            i <= parent@.len(),
            pv == strings_view(parent@),
            segments@.len() == i,
            forall|k: int| 0 <= k < i ==> #[trigger] segments@[k]@ == url_segment(pv[k]),
        decreases parent@.len() - i,
    {
        segments.push(convert_segment(&parent[i]));
        i = i + 1;
    }
    proof {
        assert(strings_view(segments@) =~= pv.map_values(|s: Seq<char>| url_segment(s)));
    }
    let sc = chars_of(stem.as_str());
    let special = chars_eq(sc.as_slice(), chars_of("index").as_slice()) || chars_eq(
        sc.as_slice(),
        chars_of("_layout").as_slice(),
    ) || chars_eq(sc.as_slice(), chars_of("_error").as_slice());
    if !special {
        let c = convert_segment(&stem);
        proof {
            crate::text::lemma_strings_view_push(segments@, c);
        }
        segments.push(c);
    }
    let joined = join_with(&segments, "/");
    let slash = chars_of("/");
    string_from(concat_chars(slash.as_slice(), chars_of(joined.as_str()).as_slice()).as_slice())
}

/// Extract dynamic parameter names from the path.
///
/// - `blog/[id].trs` → `["id"]`
/// - `[org]/[repo].trs` → `["org", "repo"]`
/// - `about.trs` → `[]`
pub fn extract_params(relative: &str) -> (r: Vec<String>)
    ensures
        strings_view(r@) == params_of(relative@),
{
    let p = chars_of(relative);
    let (stem, mut segs) = stem_and_parent(p.as_slice());
    let stem = match stem {
        Some(s) => s,
        None => String::new(),
    };
    proof {
        crate::text::lemma_strings_view_push(segs@, stem);
    }
    segs.push(stem);
    let ghost sv = strings_view(segs@);
    let mut params: Vec<String> = Vec::new();
    let mut i: usize = 0;
    proof {
        assert(sv.take(0) =~= Seq::<Seq<char>>::empty());
        assert(strings_view(params@) =~= Seq::<Seq<char>>::empty());
    }
    while i < segs.len()
        invariant
            i <= segs@.len(),
            sv == strings_view(segs@),
            sv.len() == segs@.len(),
            strings_view(params@) == bracket_params(sv.take(i as int)),
        decreases segs@.len() - i,
    {
        proof {
            assert(sv.take(i + 1).drop_last() =~= sv.take(i as int));
            assert(sv.take(i + 1).last() == segs@[i as int]@);
        }
        let c = chars_of(segs[i].as_str());
        if is_bracketed(c.as_slice()) {
            let n = c.len();
            let inner_name = substring(c.as_slice(), 1, n - 1);
            proof {
                crate::text::lemma_strings_view_push(params@, inner_name);
            }
            params.push(inner_name);
        }
        i = i + 1;
    }
    proof {
        assert(sv.take(i as int) =~= sv);
    }
    params
}

/// Convert a relative `.trs` file path to Rust module path segments;
/// dynamic segments like `[id]` become `_id`.
///
/// - `index.trs` → `["index"]`
/// - `blog/[id].trs` → `["blog", "_id"]`
pub fn compute_module_segments(relative: &str) -> (r: Vec<String>)
    requires
        file_name(relative@) is Some,
    ensures
        strings_view(r@) == module_segments_of(relative@),
{
    let p = chars_of(relative);
    let (stem, mut segs) = stem_and_parent(p.as_slice());
    let stem = stem.unwrap();
    proof {
        crate::text::lemma_strings_view_push(segs@, stem);
    }
    segs.push(stem);
    let ghost sv = strings_view(segs@);
    let mut out: Vec<String> = Vec::new();
    let mut i: usize = 0;
    while i < segs.len()
        invariant
            i <= segs@.len(),
            sv == strings_view(segs@),
            out@.len() == i,
            forall|k: int| 0 <= k < i ==> #[trigger] out@[k]@ == module_name(sv[k]),
        decreases segs@.len() - i,
    {
        out.push(sanitize_module_name(&segs[i]));
        i = i + 1;
    }
    proof {
        assert(strings_view(out@) =~= sv.map_values(|s: Seq<char>| module_name(s)));
    }
    out
}

/// Classify a `.trs` file based on its stem.
pub fn classify(relative: &str, is_components: bool) -> (r: RouteKind)
    ensures
        r == classify_of(relative@, is_components),
{
    if is_components {
        return RouteKind::Component;
    }
    let p = chars_of(relative);
    let (stem, _) = stem_and_parent(p.as_slice());
    let sc = match stem {
        Some(s) => chars_of(s.as_str()),
        None => Vec::new(),
    };
    if chars_eq(sc.as_slice(), chars_of("_layout").as_slice()) {
        RouteKind::Layout
    } else if chars_eq(sc.as_slice(), chars_of("_error").as_slice()) {
        RouteKind::Error
    } else {
        RouteKind::Page
    }
}

// ---------------------------------------------------------------------------
// Ordering of paths
// ---------------------------------------------------------------------------

/// Characters in code point order, compared lexicographically (the byte
/// order of their UTF-8 encodings).
pub open spec fn chars_less(a: Seq<char>, b: Seq<char>) -> bool
    decreases a.len(),
{
    if a.len() == 0 {
        b.len() > 0
    } else if b.len() == 0 {
        false
    } else if a[0] != b[0] {
        (a[0] as u32) < (b[0] as u32)
    } else {
        chars_less(a.drop_first(), b.drop_first())
    }
}

/// The order of component kinds: the root, `.`, `..`, then names.
pub open spec fn comp_rank(c: Seq<char>) -> int {
    if c == "/"@ {
        0
    } else if c == "."@ {
        1
    } else if c == ".."@ {
        2
    } else {
        3
    }
}

pub open spec fn comp_less(a: Seq<char>, b: Seq<char>) -> bool {
    comp_rank(a) < comp_rank(b) || (comp_rank(a) == comp_rank(b) && chars_less(a, b))
}

/// Component sequences compared lexicographically.
pub open spec fn comps_less(a: Seq<Seq<char>>, b: Seq<Seq<char>>) -> bool
    decreases a.len(),
{
    if a.len() == 0 {
        b.len() > 0
    } else if b.len() == 0 {
        false
    } else if a[0] != b[0] {
        comp_less(a[0], b[0])
    } else {
        comps_less(a.drop_first(), b.drop_first())
    }
}

/// `Path` order: by components.
pub open spec fn path_less(p: Seq<char>, q: Seq<char>) -> bool {
    comps_less(path_components(p), path_components(q))
}

pub(crate) fn chars_less_exec(a: &[char], b: &[char]) -> (r: bool)
    ensures
        r == chars_less(a@, b@),
{
    let mut i: usize = 0;
    proof {
        assert(a@.skip(0) =~= a@);
        assert(b@.skip(0) =~= b@);
    }
    while i < a.len() && i < b.len() && a[i] == b[i]
        invariant
            i <= a@.len(),
            i <= b@.len(),
            chars_less(a@, b@) == chars_less(a@.skip(i as int), b@.skip(i as int)),
        decreases a@.len() - i,
    {
        proof {
            assert(a@.skip(i as int).drop_first() =~= a@.skip(i + 1));
            assert(b@.skip(i as int).drop_first() =~= b@.skip(i + 1));
        }
        i = i + 1;
    }
    if i == a.len() {
        i < b.len()
    } else if i == b.len() {
        false
    } else {
        (a[i] as u32) < (b[i] as u32)
    }
}

fn comp_rank_exec(c: &[char]) -> (r: u8)
    ensures
        r as int == comp_rank(c@),
{
    if chars_eq(c, chars_of("/").as_slice()) {
        0
    } else if chars_eq(c, chars_of(".").as_slice()) {
        1
    } else if chars_eq(c, chars_of("..").as_slice()) {
        2
    } else {
        3
    }
}

fn comps_less_exec(a: &Vec<String>, b: &Vec<String>) -> (r: bool)
    ensures
        r == comps_less(strings_view(a@), strings_view(b@)),
{
    let ghost av = strings_view(a@);
    let ghost bv = strings_view(b@);
    let mut i: usize = 0;
    proof {
        assert(av.skip(0) =~= av);
        assert(bv.skip(0) =~= bv);
    }
    loop
        invariant
            i <= a@.len(),
            i <= b@.len(),
            av == strings_view(a@),
            bv == strings_view(b@),
            comps_less(av, bv) == comps_less(av.skip(i as int), bv.skip(i as int)),
        decreases a@.len() - i,
    {
        if i == a.len() {
            return i < b.len();
        }
        if i == b.len() {
            return false;
        }
        let x = chars_of(a[i].as_str());
        let y = chars_of(b[i].as_str());
        proof {
            assert(av.skip(i as int)[0] == x@);
            assert(bv.skip(i as int)[0] == y@);
        }
        if !chars_eq(x.as_slice(), y.as_slice()) {
            let rx = comp_rank_exec(x.as_slice());
            let ry = comp_rank_exec(y.as_slice());
            return rx < ry || (rx == ry && chars_less_exec(x.as_slice(), y.as_slice()));
        }
        proof {
            assert(av.skip(i as int).drop_first() =~= av.skip(i + 1));
            assert(bv.skip(i as int).drop_first() =~= bv.skip(i + 1));
        }
        i = i + 1;
    }
}

// ---------------------------------------------------------------------------
// Discovery
// ---------------------------------------------------------------------------

/// The entry of a discovered file.
pub open spec fn entry_of(source: Seq<char>, rel: Seq<char>, is_component: bool) -> RouteEntryView {
    RouteEntryView {
        source_path: source,
        relative_path: rel,
        url_path: url_path_of(rel),
        module_segments: module_segments_of(rel),
        kind: classify_of(rel, is_component),
        params: params_of(rel),
    }
}

/// The index of the first entry at or after `i` whose path is greater than `rel`.
pub open spec fn first_greater(s: Seq<RouteEntryView>, rel: Seq<char>, i: int) -> int
    decreases s.len() - i,
{
    if i < 0 || i >= s.len() {
        s.len() as int
    } else if path_less(rel, s[i].relative_path) {
        i
    } else {
        first_greater(s, rel, i + 1)
    }
}

/// The entries stably sorted by relative path.
pub open spec fn sort_entries(s: Seq<RouteEntryView>) -> Seq<RouteEntryView>
    decreases s.len(),
{
    if s.len() == 0 {
        Seq::empty()
    } else {
        let pre = sort_entries(s.drop_last());
        pre.insert(first_greater(pre, s.last().relative_path, 0), s.last())
    }
}

pub open spec fn files_entries(files: Seq<TrsFile>) -> Seq<RouteEntryView> {
    files.map_values(|f: TrsFile| entry_of(f.source_path@, f.relative_path@, f.is_component))
}

pub open spec fn entries_view(v: Seq<RouteEntry>) -> Seq<RouteEntryView> {
    v.map_values(|e: RouteEntry| e@)
}

/// The route entry of one discovered file.
pub fn route_entry(file: &TrsFile) -> (r: RouteEntry)
    requires
        file_name(file.relative_path@) is Some,
    ensures
        r@ == entry_of(file.source_path@, file.relative_path@, file.is_component),
{
    let rel = file.relative_path.as_str();
    RouteEntry {
        source_path: file.source_path.clone(),
        relative_path: file.relative_path.clone(),
        url_path: compute_url_path(rel),
        module_segments: compute_module_segments(rel),
        kind: classify(rel, file.is_component),
        params: extract_params(rel),
    }
}

/// The route entries of all discovered `.trs` files (routes and
/// components), sorted by relative path for deterministic output.
pub fn discover_routes(files: &Vec<TrsFile>) -> (r: Vec<RouteEntry>)
    requires
        forall|i: int| 0 <= i < files@.len() ==> file_name(#[trigger] files@[i].relative_path@) is Some,
    ensures
        entries_view(r@) == sort_entries(files_entries(files@)),
{
    let ghost fv = files_entries(files@);
    let mut sorted: Vec<RouteEntry> = Vec::new();
    let mut keys: Vec<Vec<String>> = Vec::new();
    let mut i: usize = 0;
    proof {
        assert(fv.take(0) =~= Seq::<RouteEntryView>::empty());
        assert(entries_view(sorted@) =~= Seq::<RouteEntryView>::empty());
    }
    while i < files.len()
        invariant
            i <= files@.len(),
            fv == files_entries(files@),
            fv.len() == files@.len(),
            forall|k: int| 0 <= k < files@.len() ==> file_name(#[trigger] files@[k].relative_path@) is Some,
            entries_view(sorted@) == sort_entries(fv.take(i as int)),
            keys@.len() == sorted@.len(),
            forall|k: int|
                0 <= k < keys@.len() ==> strings_view(#[trigger] keys@[k]@) == path_components(
                    sorted@[k].relative_path@,
                ),
        decreases files@.len() - i,
    {
        let entry = route_entry(&files[i]);
        let key = path_components_of(chars_of(entry.relative_path.as_str()).as_slice());
        let ghost sv = entries_view(sorted@);
        proof {
            assert(fv.take(i + 1).drop_last() =~= fv.take(i as int));
            assert(fv.take(i + 1).last() == entry@);
        }
        let mut p: usize = 0;
        while p < sorted.len() && !comps_less_exec(&key, &keys[p])
            invariant
                p <= sorted@.len(),
                keys@.len() == sorted@.len(),
                sv == entries_view(sorted@),
                strings_view(key@) == path_components(entry.relative_path@),
                forall|k: int|
                    0 <= k < keys@.len() ==> strings_view(#[trigger] keys@[k]@) == path_components(
                        sorted@[k].relative_path@,
                    ),
                first_greater(sv, entry.relative_path@, p as int) == first_greater(
                    sv,
                    entry.relative_path@,
                    0,
                ),
            decreases sorted@.len() - p,
        {
            p = p + 1;
        }
        let ghost e = entry@;
        let ghost kv = keys@;
        let ghost so = sorted@;
        sorted.insert(p, entry);
        keys.insert(p, key);
        proof {
            assert(entries_view(sorted@) =~= sv.insert(p as int, e));
            assert forall|k: int| 0 <= k < keys@.len() implies strings_view(#[trigger] keys@[k]@)
                == path_components(sorted@[k].relative_path@) by {
                if k < p {
                    assert(keys@[k] == kv[k] && sorted@[k] == so[k]);
                } else if k > p {
                    assert(keys@[k] == kv[k - 1] && sorted@[k] == so[k - 1]);
                }
            }
        }
        i = i + 1;
    }
    proof {
        assert(fv.take(i as int) =~= fv);
    }
    sorted
}

// ---------------------------------------------------------------------------
// Order laws
// ---------------------------------------------------------------------------

pub proof fn lemma_chars_less_irrefl(a: Seq<char>)
    ensures
        !chars_less(a, a),
    decreases a.len(),
{
    if a.len() > 0 {
        lemma_chars_less_irrefl(a.drop_first());
    }
}

pub proof fn lemma_chars_less_asym(a: Seq<char>, b: Seq<char>)
    requires
        chars_less(a, b),
    ensures
        !chars_less(b, a),
    decreases a.len(),
{
    if a.len() > 0 && b.len() > 0 && a[0] == b[0] {
        lemma_chars_less_asym(a.drop_first(), b.drop_first());
    }
}

pub proof fn lemma_chars_less_trans(a: Seq<char>, b: Seq<char>, c: Seq<char>)
    requires
        chars_less(a, b),
        chars_less(b, c),
    ensures
        chars_less(a, c),
    decreases a.len(),
{
    if a.len() > 0 && b.len() > 0 && c.len() > 0 && a[0] == b[0] && b[0] == c[0] {
        lemma_chars_less_trans(a.drop_first(), b.drop_first(), c.drop_first());
    }
}

pub proof fn lemma_comp_less_props(a: Seq<char>, b: Seq<char>, c: Seq<char>)
    ensures
        !comp_less(a, a),
        comp_less(a, b) ==> !comp_less(b, a),
        comp_less(a, b) && comp_less(b, c) ==> comp_less(a, c),
{
    lemma_chars_less_irrefl(a);
    if comp_less(a, b) && comp_rank(a) == comp_rank(b) {
        lemma_chars_less_asym(a, b);
    }
    if comp_less(a, b) && comp_less(b, c) && comp_rank(a) == comp_rank(b) && comp_rank(b) == comp_rank(c) {
        lemma_chars_less_trans(a, b, c);
    }
}

pub proof fn lemma_comps_less_asym(a: Seq<Seq<char>>, b: Seq<Seq<char>>)
    requires
        comps_less(a, b),
    ensures
        !comps_less(b, a),
    decreases a.len(),
{
    if a.len() > 0 && b.len() > 0 {
        lemma_comp_less_props(a[0], b[0], a[0]);
        if a[0] == b[0] {
            lemma_comps_less_asym(a.drop_first(), b.drop_first());
        }
    }
}

pub proof fn lemma_comps_less_trans(a: Seq<Seq<char>>, b: Seq<Seq<char>>, c: Seq<Seq<char>>)
    requires
        comps_less(a, b),
        comps_less(b, c),
    ensures
        comps_less(a, c),
    decreases a.len(),
{
    if a.len() > 0 && b.len() > 0 && c.len() > 0 {
        lemma_comp_less_props(a[0], b[0], c[0]);
        lemma_comp_less_props(b[0], a[0], c[0]);
        lemma_comp_less_props(a[0], c[0], b[0]);
        if a[0] == b[0] && b[0] == c[0] {
            lemma_comps_less_trans(a.drop_first(), b.drop_first(), c.drop_first());
        }
    }
}

/// Path order is a strict order: irreflexive, asymmetric and transitive.
pub proof fn lemma_path_less_order(p: Seq<char>, q: Seq<char>, r: Seq<char>)
    ensures
        path_less(p, q) ==> !path_less(q, p),
        path_less(p, q) && path_less(q, r) ==> path_less(p, r),
{
    if path_less(p, q) {
        lemma_comps_less_asym(path_components(p), path_components(q));
        if path_less(q, r) {
            lemma_comps_less_trans(path_components(p), path_components(q), path_components(r));
        }
    }
}

/// Entries in order of their relative paths.
pub open spec fn sorted_by_path(s: Seq<RouteEntryView>) -> bool {
    forall|i: int, j: int|
        0 <= i < j < s.len() ==> !path_less(#[trigger] s[j].relative_path, #[trigger] s[i].relative_path)
}

proof fn lemma_first_greater(s: Seq<RouteEntryView>, rel: Seq<char>, i: int)
    requires
        0 <= i <= s.len(),
    ensures
        i <= first_greater(s, rel, i) <= s.len(),
        forall|k: int| i <= k < first_greater(s, rel, i) ==> !path_less(rel, #[trigger] s[k].relative_path),
        first_greater(s, rel, i) < s.len() ==> path_less(rel, s[first_greater(s, rel, i)].relative_path),
    decreases s.len() - i,
{
    if i < s.len() && !path_less(rel, s[i].relative_path) {
        lemma_first_greater(s, rel, i + 1);
    }
}

/// Law: discovery lists every file exactly once (the result is a
/// permutation of the files) and sorts the entries by relative path.
pub proof fn lemma_discover_sorted(entries: Seq<RouteEntryView>)
    ensures
        sorted_by_path(sort_entries(entries)),
        sort_entries(entries).to_multiset() == entries.to_multiset(),
    decreases entries.len(),
{
    broadcast use vstd::seq_lib::to_multiset_insert, vstd::seq_lib::to_multiset_build;

    if entries.len() == 0 {
        assert(sort_entries(entries) =~= entries);
    } else {
        let pre_in = entries.drop_last();
        let x = entries.last();
        lemma_discover_sorted(pre_in);
        let pre = sort_entries(pre_in);
        lemma_first_greater(pre, x.relative_path, 0);
        let p = first_greater(pre, x.relative_path, 0);
        let r = pre.insert(p, x);
        assert(r == sort_entries(entries));
        assert forall|i: int, j: int| 0 <= i < j < r.len() implies !path_less(
            #[trigger] r[j].relative_path,
            #[trigger] r[i].relative_path,
        ) by {
            if j < p {
                assert(r[i] == pre[i] && r[j] == pre[j]);
            } else if j == p {
                assert(r[i] == pre[i] && r[j] == x);
            } else if i < p {
                assert(r[i] == pre[i] && r[j] == pre[j - 1]);
            } else if i == p {
                assert(r[i] == x && r[j] == pre[j - 1]);
                let k = j - 1;
                if path_less(pre[k].relative_path, x.relative_path) {
                    lemma_path_less_order(pre[k].relative_path, x.relative_path, pre[p].relative_path);
                    lemma_path_less_order(x.relative_path, pre[p].relative_path, x.relative_path);
                    if k > p {
                        assert(!path_less(pre[k].relative_path, pre[p].relative_path));
                    }
                }
            } else {
                assert(r[i] == pre[i - 1] && r[j] == pre[j - 1]);
            }
        }
        assert(entries =~= pre_in.push(x));
    }
}

pub proof fn lemma_chars_less_total(a: Seq<char>, b: Seq<char>)
    requires
        a != b,
    ensures
        chars_less(a, b) || chars_less(b, a),
    decreases a.len(),
{
    if a.len() > 0 && b.len() > 0 {
        if a[0] == b[0] {
            if a.drop_first() == b.drop_first() {
                assert(a =~= seq![a[0]] + a.drop_first());
                assert(b =~= seq![b[0]] + b.drop_first());
            }
            lemma_chars_less_total(a.drop_first(), b.drop_first());
        } else {
            vstd::utf8::char_u32_cast(a[0], a[0] as u32);
            vstd::utf8::char_u32_cast(b[0], b[0] as u32);
        }
    } else if a.len() == 0 && b.len() == 0 {
        assert(a =~= b);
    }
}

} // verus!
