//! The logic of code emission: names, module trees, layouts and the text
//! of the generated modules. Writing the files is left to the caller.

use vstd::prelude::*;
use crate::discover::{
    RouteEntry, RouteEntryView, RouteKind, chars_less, entries_view, file_name, join, join_with, opt_seq,
    parent_components, path_components,
};
use crate::text::{chars_eq, chars_of, concat_chars, string_from, strings_view};

verus! {

// ---------------------------------------------------------------------------
// Case conversion (outside calls)
// ---------------------------------------------------------------------------

/// The uppercase mapping of a character (`char::to_uppercase`).
pub uninterp spec fn upper_of(c: char) -> Seq<char>;

/// The lowercase form of a string (`str::to_lowercase`).
pub uninterp spec fn lower_of(s: Seq<char>) -> Seq<char>;

pub open spec fn is_ascii_lower(c: char) -> bool {
    'a' <= c && c <= 'z'
}

pub open spec fn ascii_to_lower(c: char) -> char {
    if 'A' <= c && c <= 'Z' {
        ((c as u32) + 32) as char
    } else {
        c
    }
}

/// `char::to_uppercase`, collected into a string. The Unicode mapping is
/// named, not stated; of ASCII characters it maps `'a'..='z'` to
/// `'A'..='Z'` and leaves the others as they are.
#[verifier::external_body]
fn char_to_upper(c: char) -> (r: String)
    ensures
        r@ == upper_of(c),
        (c as u32) < 0x80 ==> r@ == seq![
            if is_ascii_lower(c) {
                ((c as u32) - 32) as char
            } else {
                c
            },
        ],
{
    c.to_uppercase().to_string()
}

/// `str::to_lowercase`. The Unicode mapping is named, not stated; a string
/// of ASCII characters has `'A'..='Z'` mapped to `'a'..='z'` and the rest unchanged.
#[verifier::external_body]
fn str_to_lower(s: &str) -> (r: String)
    ensures
        r@ == lower_of(s@),
        (forall|i: int| 0 <= i < s@.len() ==> (#[trigger] s@[i] as u32) < 0x80) ==> r@ == s@.map_values(
            |c: char| ascii_to_lower(c),
        ),
{
    s.to_lowercase()
}

// ---------------------------------------------------------------------------
// Names
// ---------------------------------------------------------------------------

/// Whether `c` separates words of a snake- or kebab-case name.
pub open spec fn is_word_sep(c: char) -> bool {
    c == '_' || c == '-'
}

/// The parts of `s` between `_` and `-` separators (`str::split(['_', '-'])`).
pub open spec fn split_words(s: Seq<char>) -> Seq<Seq<char>>
    decreases s.len(),
{
    if s.len() == 0 {
        seq![Seq::empty()]
    } else {
        let r = split_words(s.drop_last());
        if is_word_sep(s.last()) {
            r.push(Seq::empty())
        } else {
            r.update(r.len() - 1, r.last().push(s.last()))
        }
    }
}

/// A word with its first character upper-cased.
pub open spec fn capitalize(w: Seq<char>) -> Seq<char> {
    if w.len() == 0 {
        Seq::empty()
    } else {
        upper_of(w[0]) + w.drop_first()
    }
}

/// The non-empty words capitalized and concatenated.
pub open spec fn join_capitalized(words: Seq<Seq<char>>) -> Seq<char>
    decreases words.len(),
{
    if words.len() == 0 {
        Seq::empty()
    } else {
        join_capitalized(words.drop_last()) + capitalize(words.last())
    }
}

/// `PascalCase`: split on `_`/`-`, drop empty parts, capitalize each, concatenate.
pub open spec fn pascal_of(s: Seq<char>) -> Seq<char> {
    join_capitalized(split_words(s))
}

proof fn lemma_split_words_nonempty(s: Seq<char>)
    ensures
        split_words(s).len() >= 1,
    decreases s.len(),
{
    if s.len() > 0 {
        lemma_split_words_nonempty(s.drop_last());
    }
}

proof fn lemma_split_words_single(s: Seq<char>)
    requires
        forall|i: int| 0 <= i < s.len() ==> !is_word_sep(#[trigger] s[i]),
    ensures
        split_words(s) == seq![s],
    decreases s.len(),
{
    if s.len() > 0 {
        let pre = s.drop_last();
        assert forall|i: int| 0 <= i < pre.len() implies !is_word_sep(#[trigger] pre[i]) by {
            assert(pre[i] == s[i]);
        }
        lemma_split_words_single(pre);
        assert(!is_word_sep(s[s.len() - 1]));
        assert(pre.push(s.last()) =~= s);
        assert(seq![pre].update(0, pre.push(s.last())) =~= seq![s]);
    } else {
        assert(s =~= Seq::<char>::empty());
    }
}

/// Law: a name without `_` or `-` is a single word; its `PascalCase` form
/// is the name with the first character upper-cased and the rest
/// unchanged, so a name whose first character is its own upper case (an
/// already `PascalCase` name) is unchanged.
pub proof fn lemma_pascal_single_word(s: Seq<char>)
    requires
        forall|i: int| 0 <= i < s.len() ==> !is_word_sep(#[trigger] s[i]),
    ensures
        pascal_of(s) == capitalize(s),
        s.len() > 0 && upper_of(s[0]) == seq![s[0]] ==> pascal_of(s) == s,
{
    lemma_split_words_single(s);
    let w = seq![s];
    assert(w.drop_last() =~= Seq::<Seq<char>>::empty());
    assert(join_capitalized(w) == join_capitalized(w.drop_last()) + capitalize(s));
    assert(join_capitalized(w) =~= capitalize(s));
    if s.len() > 0 && upper_of(s[0]) == seq![s[0]] {
        assert(seq![s[0]] + s.drop_first() =~= s);
    }
}

fn capitalize_exec(w: &Vec<char>) -> (r: Vec<char>)
    ensures
        r@ == capitalize(w@),
{
    if w.len() == 0 {
        Vec::new()
    } else {
        let first = char_to_upper(w[0]);
        let n = w.len();
        let rest = vstd::slice::slice_subrange(w.as_slice(), 1, n);
        proof {
            assert(rest@ =~= w@.drop_first());
        }
        concat_chars(chars_of(first.as_str()).as_slice(), rest)
    }
}

/// Convert a string to `PascalCase`: `header` → `Header`, `nav_bar` and
/// `nav-bar` → `NavBar`; an already `PascalCase` name is unchanged.
pub fn to_pascal_case(s: &str) -> (r: String)
    ensures
        r@ == pascal_of(s@),
{
    let cs = chars_of(s);
    let mut done: Vec<char> = Vec::new();
    let mut cur: Vec<char> = Vec::new();
    let mut i: usize = 0;
    proof {
        assert(cs@.take(0) =~= Seq::<char>::empty());
    }
    while i < cs.len()
        invariant
            i <= cs@.len(),
            split_words(cs@.take(i as int)).len() >= 1,
            split_words(cs@.take(i as int)).last() == cur@,
            join_capitalized(split_words(cs@.take(i as int)).drop_last()) == done@,
        decreases cs@.len() - i,
    {
        let c = cs[i];
        proof {
            assert(cs@.take(i + 1).drop_last() =~= cs@.take(i as int));
            assert(cs@.take(i + 1).last() == c);
            lemma_split_words_nonempty(cs@.take(i as int));
        }
        let ghost parts = split_words(cs@.take(i as int));
        if c == '_' || c == '-' {
            let cap = capitalize_exec(&cur);
            done = concat_chars(done.as_slice(), cap.as_slice());
            cur = Vec::new();
            proof {
                let np = parts.push(Seq::empty());
                assert(np.drop_last() =~= parts);
                assert(parts =~= parts.drop_last().push(parts.last()));
            }
        } else {
            cur.push(c);
            proof {
                let np = parts.update(parts.len() - 1, parts.last().push(c));
                assert(np.drop_last() =~= parts.drop_last());
            }
        }
        i = i + 1;
    }
    let cap = capitalize_exec(&cur);
    proof {
        assert(cs@.take(i as int) =~= cs@);
        let parts = split_words(cs@);
        assert(parts =~= parts.drop_last().push(parts.last()));
    }
    string_from(concat_chars(done.as_slice(), cap.as_slice()).as_slice())
}

/// A discovered component with its lowercase Rust module name and
/// `PascalCase` alias matching the tag name used in templates.
#[derive(Debug, Clone, PartialEq, Eq)]
pub struct ComponentInfo {
    /// Lowercase module name used for file names and `mod` declarations.
    pub module_name: String,
    /// `PascalCase` alias matching the component tag in templates.
    pub alias: String,
}

impl ComponentInfo {
    /// Derive component info from a raw filename stem: the module name is
    /// lowercased, the alias is its `PascalCase` form.
    pub fn from_stem(stem: &str) -> (r: Self)
        ensures
            r.module_name@ == lower_of(stem@),
            r.alias@ == pascal_of(stem@),
    {
        ComponentInfo { module_name: str_to_lower(stem), alias: to_pascal_case(stem) }
    }
}

/// `s` without its leading underscores.
pub open spec fn trim_underscores(s: Seq<char>) -> Seq<char>
    decreases s.len(),
{
    if s.len() > 0 && s[0] == '_' {
        trim_underscores(s.drop_first())
    } else {
        s
    }
}

/// The handler name of a route: `__route_` and its module segments, each
/// without leading underscores, joined by `_`.
pub open spec fn handler_name_of(segments: Seq<Seq<char>>) -> Seq<char> {
    "__route_"@ + join(segments.map_values(|s: Seq<char>| trim_underscores(s)), "_"@)
}

fn trim_underscores_exec(s: &String) -> (r: String)
    ensures
        r@ == trim_underscores(s@),
{
    let cs = chars_of(s.as_str());
    let mut i: usize = 0;
    proof {
        assert(cs@.skip(0) =~= cs@);
    }
    while i < cs.len() && cs[i] == '_'
        invariant
            i <= cs@.len(),
            trim_underscores(cs@) == trim_underscores(cs@.skip(i as int)),
        decreases cs@.len() - i,
    {
        proof {
            assert(cs@.skip(i as int).drop_first() =~= cs@.skip(i + 1));
        }
        i = i + 1;
    }
    let n = cs.len();
    proof {
        assert(cs@.subrange(i as int, n as int) =~= cs@.skip(i as int));
    }
    string_from(vstd::slice::slice_subrange(cs.as_slice(), i, n))
}

/// Build a unique handler function name from module segments
/// (`["blog", "_slug"]` → `__route_blog_slug`).
pub fn handler_name(segments: &Vec<String>) -> (r: String)
    ensures
        r@ == handler_name_of(strings_view(segments@)),
{
    let mut clean: Vec<String> = Vec::new();
    let mut i: usize = 0;
    while i < segments.len()
        invariant
            i <= segments@.len(),
            clean@.len() == i,
            forall|k: int| 0 <= k < i ==> #[trigger] clean@[k]@ == trim_underscores(segments@[k]@),
        decreases segments@.len() - i,
    {
        clean.push(trim_underscores_exec(&segments[i]));
        i = i + 1;
    }
    proof {
        assert(strings_view(clean@) =~= strings_view(segments@).map_values(
            |s: Seq<char>| trim_underscores(s),
        ));
    }
    let joined = join_with(&clean, "_");
    string_from(
        concat_chars(chars_of("__route_").as_slice(), chars_of(joined.as_str()).as_slice()).as_slice(),
    )
}

/// `n` copies of `String` joined by `, `.
pub open spec fn param_types_of(n: nat) -> Seq<char> {
    join(Seq::new(n, |i: int| "String"@), ", "@)
}

/// Build the Axum `Path` type tuple: one `String` per parameter.
pub fn build_param_types(params: &Vec<String>) -> (r: String)
    ensures
        r@ == param_types_of(params@.len()),
{
    let mut v: Vec<String> = Vec::new();
    let mut i: usize = 0;
    while i < params.len()
        invariant
            i <= params@.len(),
            v@.len() == i,
            forall|k: int| 0 <= k < i ==> #[trigger] v@[k]@ == "String"@,
        decreases params@.len() - i,
    {
        v.push(string_from(chars_of("String").as_slice()));
        i = i + 1;
    }
    proof {
        assert(strings_view(v@) =~= Seq::new(params@.len(), |i: int| "String"@));
    }
    join_with(&v, ", ")
}

// ---------------------------------------------------------------------------
// Output directory validation
// ---------------------------------------------------------------------------

/// Why an output directory is not safe to wipe.
#[derive(Debug, Clone, PartialEq)]
pub enum OutputDirError {
    /// The path has no final name (a filesystem root or an empty path).
    RootOrEmpty,
    /// The final name is `.` or `..`.
    CurrentOrParent,
    /// An absolute path with fewer than two components below the root.
    TooShallow { path: String },
    /// The final name does not start with a dot and `force` is not set.
    NotDotPrefixed { name: String },
}

pub enum OutputDirErrorView {
    RootOrEmpty,
    CurrentOrParent,
    TooShallow { path: Seq<char> },
    NotDotPrefixed { name: Seq<char> },
}

impl View for OutputDirError {
    type V = OutputDirErrorView;

    open spec fn view(&self) -> OutputDirErrorView {
        match self {
            OutputDirError::RootOrEmpty => OutputDirErrorView::RootOrEmpty,
            OutputDirError::CurrentOrParent => OutputDirErrorView::CurrentOrParent,
            OutputDirError::TooShallow { path } => OutputDirErrorView::TooShallow { path: path@ },
            OutputDirError::NotDotPrefixed { name } => OutputDirErrorView::NotDotPrefixed { name: name@ },
        }
    }
}

/// The verdict on an output directory: it must have a final name that is
/// not `.` or `..`; an absolute path needs at least two components below
/// the root; without `force` the final name must start with a dot.
pub open spec fn output_dir_check(dir: Seq<char>, force: bool) -> Result<(), OutputDirErrorView> {
    let name = match file_name(dir) {
        Some(n) => n,
        None => Seq::empty(),
    };
    if name.len() == 0 {
        Err(OutputDirErrorView::RootOrEmpty)
    } else if name == "."@ || name == ".."@ {
        Err(OutputDirErrorView::CurrentOrParent)
    } else if dir.len() > 0 && dir[0] == '/' && path_components(dir).len() < 3 {
        Err(OutputDirErrorView::TooShallow { path: dir })
    } else if !force && name[0] != '.' {
        Err(OutputDirErrorView::NotDotPrefixed { name })
    } else {
        Ok(())
    }
}

/// Law (the safety guard): a directory accepted for wiping has a final
/// name that is not empty, `.` or `..`; an absolute one has at least two
/// components below the root; and unless `force` is set its name starts
/// with a dot.
pub proof fn lemma_output_dir_guard(dir: Seq<char>, force: bool)
    requires
        output_dir_check(dir, force) is Ok,
    ensures
        file_name(dir) matches Some(n) && n.len() > 0 && n != "."@ && n != ".."@ && (!force ==> n[0]
            == '.'),
        dir.len() > 0 && dir[0] == '/' ==> path_components(dir).len() >= 3,
{
}

impl OutputDirError {
    /// The error message.
    pub fn message(&self) -> (r: String)
        ensures
            r@ == match self@ {
                OutputDirErrorView::RootOrEmpty =>
                    "output directory must not be a filesystem root or empty path"@,
                OutputDirErrorView::CurrentOrParent => "output directory must not be `.` or `..`"@,
                OutputDirErrorView::TooShallow { path } =>
                    "absolute output path is too shallow; refusing to wipe `"@ + path + "`"@,
                OutputDirErrorView::NotDotPrefixed { name } => "output directory name `"@ + name
                    + "` does not start with a dot; use a dot-prefixed name (e.g. `.thebe`) or pass --force"@,
            },
    {
        match self {
            OutputDirError::RootOrEmpty => string_from(
                chars_of("output directory must not be a filesystem root or empty path").as_slice(),
            ),
            OutputDirError::CurrentOrParent => string_from(
                chars_of("output directory must not be `.` or `..`").as_slice(),
            ),
            OutputDirError::TooShallow { path } => crate::text::concat3(
                chars_of("absolute output path is too shallow; refusing to wipe `").as_slice(),
                chars_of(path.as_str()).as_slice(),
                chars_of("`").as_slice(),
            ),
            OutputDirError::NotDotPrefixed { name } => crate::text::concat3(
                chars_of("output directory name `").as_slice(),
                chars_of(name.as_str()).as_slice(),
                chars_of(
                    "` does not start with a dot; use a dot-prefixed name (e.g. `.thebe`) or pass --force",
                ).as_slice(),
            ),
        }
    }
}

/// Validate that the output path is safe to wipe.
pub fn validate_output_dir(output_dir: &str, force: bool) -> (r: Result<(), OutputDirError>)
    ensures
        match r {
            Ok(_) => output_dir_check(output_dir@, force) == Ok::<(), OutputDirErrorView>(()),
            Err(e) => output_dir_check(output_dir@, force) == Err::<(), OutputDirErrorView>(e@),
        },
{
    let p = chars_of(output_dir);
    let comps = crate::discover::path_components_of(p.as_slice());
    let name = crate::discover::file_name_of(p.as_slice());
    let name = match name {
        Some(n) => n,
        None => String::new(),
    };
    let nc = chars_of(name.as_str());
    if nc.len() == 0 {
        return Err(OutputDirError::RootOrEmpty);
    }
    if chars_eq(nc.as_slice(), chars_of(".").as_slice()) || chars_eq(
        nc.as_slice(),
        chars_of("..").as_slice(),
    ) {
        return Err(OutputDirError::CurrentOrParent);
    }
    if p.len() > 0 && p[0] == '/' && comps.len() < 3 {
        return Err(OutputDirError::TooShallow { path: string_from(p.as_slice()) });
    }
    if !force && nc[0] != '.' {
        return Err(OutputDirError::NotDotPrefixed { name });
    }
    Ok(())
}

// ---------------------------------------------------------------------------
// Maps keyed by paths
// ---------------------------------------------------------------------------

/// The map of a list of `(key, value)` pairs, later pairs overriding earlier ones.
pub open spec fn pairs_map(v: Seq<(Seq<Seq<char>>, Seq<Seq<char>>)>) -> Map<
    Seq<Seq<char>>,
    Seq<Seq<char>>,
>
    decreases v.len(),
{
    if v.len() == 0 {
        Map::empty()
    } else {
        pairs_map(v.drop_last()).insert(v.last().0, v.last().1)
    }
}

/// A map from paths (by their components) to lists of names; inserting a
/// key again replaces its value.
pub struct PathMap {
    entries: Vec<(Vec<String>, Vec<String>)>,
}

pub open spec fn pairs_view(v: Seq<(Vec<String>, Vec<String>)>) -> Seq<(Seq<Seq<char>>, Seq<Seq<char>>)> {
    v.map_values(|p: (Vec<String>, Vec<String>)| (strings_view(p.0@), strings_view(p.1@)))
}

impl View for PathMap {
    type V = Map<Seq<Seq<char>>, Seq<Seq<char>>>;

    closed spec fn view(&self) -> Map<Seq<Seq<char>>, Seq<Seq<char>>> {
        pairs_map(pairs_view(self.entries@))
    }
}

fn clone_strings(v: &Vec<String>) -> (r: Vec<String>)
    ensures
        strings_view(r@) == strings_view(v@),
{
    let mut out: Vec<String> = Vec::new();
    let mut i: usize = 0;
    while i < v.len()
        invariant
            i <= v@.len(),
            out@.len() == i,
            forall|k: int| 0 <= k < i ==> #[trigger] out@[k]@ == v@[k]@,
        decreases v@.len() - i,
    {
        out.push(v[i].clone());
        i = i + 1;
    }
    assert(strings_view(out@) =~= strings_view(v@));
    out
}

fn strings_eq(a: &Vec<String>, b: &Vec<String>) -> (r: bool)
    ensures
        r == (strings_view(a@) == strings_view(b@)),
{
    if a.len() != b.len() {
        return false;
    }
    let mut i: usize = 0;
    while i < a.len()
        invariant
            a@.len() == b@.len(),
            i <= a@.len(),
            forall|k: int| 0 <= k < i ==> a@[k]@ == b@[k]@,
        decreases a@.len() - i,
    {
        if !(a[i] == b[i]) {
            assert(strings_view(a@)[i as int] != strings_view(b@)[i as int]);
            return false;
        }
        i = i + 1;
    }
    assert(strings_view(a@) =~= strings_view(b@));
    true
}

/// The last pair of `v` with key `k` is the map's value at `k`.
proof fn lemma_pairs_map_last(v: Seq<(Seq<Seq<char>>, Seq<Seq<char>>)>, k: Seq<Seq<char>>, j: int)
    requires
        0 <= j < v.len(),
        v[j].0 == k,
        forall|m: int| j < m < v.len() ==> v[m].0 != k,
    ensures
        pairs_map(v).contains_key(k),
        pairs_map(v)[k] == v[j].1,
    decreases v.len(),
{
    if j < v.len() - 1 {
        lemma_pairs_map_last(v.drop_last(), k, j);
    }
}

proof fn lemma_pairs_map_absent(v: Seq<(Seq<Seq<char>>, Seq<Seq<char>>)>, k: Seq<Seq<char>>)
    requires
        forall|m: int| 0 <= m < v.len() ==> v[m].0 != k,
    ensures
        !pairs_map(v).contains_key(k),
    decreases v.len(),
{
    if v.len() > 0 {
        lemma_pairs_map_absent(v.drop_last(), k);
    }
}

impl PathMap {
    /// An empty map.
    pub fn new() -> (r: PathMap)
        ensures
            r@ == Map::<Seq<Seq<char>>, Seq<Seq<char>>>::empty(),
    {
        let r = PathMap { entries: Vec::new() };
        proof {
            assert(pairs_view(r.entries@) =~= Seq::empty());
        }
        r
    }

    /// Set the value of `key` (by path components).
    pub fn insert(&mut self, key: Vec<String>, value: Vec<String>)
        ensures
            final(self)@ == old(self)@.insert(strings_view(key@), strings_view(value@)),
    {
        let ghost kv = (strings_view(key@), strings_view(value@));
        self.entries.push((key, value));
        proof {
            assert(pairs_view(self.entries@) =~= pairs_view(old(self).entries@).push(kv));
            assert(pairs_view(old(self).entries@).push(kv).drop_last() =~= pairs_view(
                old(self).entries@,
            ));
        }
    }

    /// The value of `key` (by path components), if it has one.
    pub fn get(&self, key: &Vec<String>) -> (r: Option<Vec<String>>)
        ensures
            match r {
                Some(v) => self@.contains_key(strings_view(key@)) && self@[strings_view(key@)]
                    == strings_view(v@),
                None => !self@.contains_key(strings_view(key@)),
            },
    {
        let ghost pv = pairs_view(self.entries@);
        let mut j: usize = self.entries.len();
        while j > 0
            invariant
                j <= self.entries@.len(),
                pv == pairs_view(self.entries@),
                forall|m: int| j <= m < pv.len() ==> pv[m].0 != strings_view(key@),
            decreases j,
        {
            if strings_eq(&self.entries[j - 1].0, key) {
                proof {
                    lemma_pairs_map_last(pv, strings_view(key@), j - 1);
                }
                return Some(clone_strings(&self.entries[j - 1].1));
            }
            j = j - 1;
        }
        proof {
            lemma_pairs_map_absent(pv, strings_view(key@));
        }
        None
    }

    /// Whether the directory `dir` (a `/`-separated path) has a value.
    pub fn contains_key(&self, dir: &str) -> (r: bool)
        ensures
            r == self@.contains_key(path_components(dir@)),
    {
        let key = crate::discover::path_components_of(chars_of(dir).as_slice());
        self.get(&key).is_some()
    }
}

// ---------------------------------------------------------------------------
// Layouts
// ---------------------------------------------------------------------------

/// The layouts by directory: each layout's directory (the components of
/// its parent) maps to its module path; a later layout of a directory wins.
pub open spec fn layout_map_of(layouts: Seq<RouteEntryView>) -> Map<Seq<Seq<char>>, Seq<Seq<char>>>
    decreases layouts.len(),
{
    if layouts.len() == 0 {
        Map::empty()
    } else {
        let l = layouts.last();
        layout_map_of(layouts.drop_last()).insert(parent_components(l.relative_path), l.module_segments)
    }
}

pub open spec fn refs_view(v: Seq<&RouteEntry>) -> Seq<RouteEntryView> {
    v.map_values(|e: &RouteEntry| e@)
}

/// Build a mapping from directory to layout module path:
/// `_layout.trs` → `["_layout"]`, `blog/_layout.trs` → `["blog", "_layout"]`.
pub fn build_layout_map(layouts: &[&RouteEntry]) -> (r: PathMap)
    ensures
        r@ == layout_map_of(refs_view(layouts@)),
{
    let ghost lv = refs_view(layouts@);
    let mut map = PathMap::new();
    let mut i: usize = 0;
    proof {
        assert(lv.take(0) =~= Seq::<RouteEntryView>::empty());
    }
    while i < layouts.len()
        invariant
            i <= layouts@.len(),
            lv == refs_view(layouts@),
            lv.len() == layouts@.len(),
            map@ == layout_map_of(lv.take(i as int)),
        decreases layouts@.len() - i,
    {
        let layout = layouts[i];
        proof {
            assert(lv.take(i + 1).drop_last() =~= lv.take(i as int));
            assert(lv.take(i + 1).last() == layout@);
        }
        let dir = parent_components_exec(layout.relative_path.as_str());
        map.insert(dir, clone_strings(&layout.module_segments));
        i = i + 1;
    }
    proof {
        assert(lv.take(i as int) =~= lv);
    }
    map
}

/// The components of a path's parent.
fn parent_components_exec(p: &str) -> (r: Vec<String>)
    ensures
        strings_view(r@) == parent_components(p@),
{
    let mut comps = crate::discover::path_components_of(chars_of(p).as_slice());
    if comps.len() > 0 {
        comps.pop();
        proof {
            assert(strings_view(comps@) =~= path_components(p@).drop_last());
        }
    }
    comps
}

/// The layout of directory `dir`: the map's value at `dir` or at the
/// nearest ancestor that has one; once no parent is left (at the empty
/// path or the root) the value of the empty path.
pub open spec fn find_layout_in(m: Map<Seq<Seq<char>>, Seq<Seq<char>>>, dir: Seq<Seq<char>>) -> Option<
    Seq<Seq<char>>,
>
    decreases dir.len(),
{
    if m.contains_key(dir) {
        Some(m[dir])
    } else if dir.len() == 0 || dir.last() == "/"@ {
        if m.contains_key(Seq::empty()) {
            Some(m[Seq::empty()])
        } else {
            None
        }
    } else {
        find_layout_in(m, dir.drop_last())
    }
}

pub open spec fn opt_strings(o: Option<Vec<String>>) -> Option<Seq<Seq<char>>> {
    match o {
        Some(v) => Some(strings_view(v@)),
        None => None,
    }
}

/// Find the most specific layout for a page route: walks from the page's
/// directory up to the root, returning the first matching layout module path.
pub fn find_layout_for_page(page: &RouteEntry, layout_map: &PathMap) -> (r: Option<Vec<String>>)
    ensures
        opt_strings(r) == find_layout_in(layout_map@, parent_components(page.relative_path@)),
{
    let mut dir = parent_components_exec(page.relative_path.as_str());
    loop
        invariant
            find_layout_in(layout_map@, strings_view(dir@)) == find_layout_in(
                layout_map@,
                parent_components(page.relative_path@),
            ),
        decreases dir@.len(),
    {
        match layout_map.get(&dir) {
            Some(l) => {
                return Some(l);
            },
            None => {},
        }
        let n = dir.len();
        let at_root = n > 0 && chars_eq(chars_of(dir[n - 1].as_str()).as_slice(), chars_of("/").as_slice());
        if n == 0 || at_root {
            let empty: Vec<String> = Vec::new();
            proof {
                assert(strings_view(empty@) =~= Seq::<Seq<char>>::empty());
            }
            return layout_map.get(&empty);
        }
        let ghost before = strings_view(dir@);
        dir.pop();
        proof {
            assert(strings_view(dir@) =~= before.drop_last());
        }
    }
}

// ---------------------------------------------------------------------------
// Module tree
// ---------------------------------------------------------------------------

/// A tree of module names used to generate `mod.rs` files; the children
/// of each node are kept sorted by name, each name once.
#[derive(Debug)]
pub struct ModTree {
    pub children: Vec<(String, ModTree)>,
}

pub struct ModTreeView {
    pub children: Seq<(Seq<char>, ModTreeView)>,
}

pub open spec fn tree_view(t: ModTree) -> ModTreeView
    decreases t, 0nat,
{
    ModTreeView { children: children_view(t.children@) }
}

pub open spec fn children_view(s: Seq<(String, ModTree)>) -> Seq<(Seq<char>, ModTreeView)>
    decreases s, 0nat,
{
    if s.len() == 0 {
        Seq::empty()
    } else {
        children_view(s.subrange(0, s.len() - 1)).push(
            (s[s.len() - 1].0@, tree_view(s[s.len() - 1].1)),
        )
    }
}

impl View for ModTree {
    type V = ModTreeView;

    open spec fn view(&self) -> ModTreeView {
        tree_view(*self)
    }
}

pub open spec fn empty_tree() -> ModTreeView {
    ModTreeView { children: Seq::empty() }
}

/// The index of the child named `k`.
pub open spec fn child_index(c: Seq<(Seq<char>, ModTreeView)>, k: Seq<char>) -> Option<int>
    decreases c.len(),
{
    if c.len() == 0 {
        None
    } else {
        match child_index(c.drop_last(), k) {
            Some(i) => Some(i),
            None => if c.last().0 == k {
                Some(c.len() - 1)
            } else {
                None
            },
        }
    }
}

/// Where a new child named `k` goes: before the first child whose name is greater.
pub open spec fn child_pos(c: Seq<(Seq<char>, ModTreeView)>, k: Seq<char>, i: int) -> int
    decreases c.len() - i,
{
    if i < 0 || i >= c.len() {
        c.len() as int
    } else if crate::discover::chars_less(k, c[i].0) {
        i
    } else {
        child_pos(c, k, i + 1)
    }
}

/// The tree with the path of names added (each name an entry of the sorted map of its node).
pub open spec fn insert_path(t: ModTreeView, path: Seq<Seq<char>>) -> ModTreeView
    decreases path.len(),
{
    if path.len() == 0 {
        t
    } else {
        let k = path[0];
        match child_index(t.children, k) {
            Some(i) => ModTreeView {
                children: t.children.update(i, (k, insert_path(t.children[i].1, path.drop_first()))),
            },
            None => ModTreeView {
                children: t.children.insert(
                    child_pos(t.children, k, 0),
                    (k, insert_path(empty_tree(), path.drop_first())),
                ),
            },
        }
    }
}

/// The module tree of the routes: every route's module path added in turn.
pub open spec fn mod_tree_of(routes: Seq<RouteEntryView>) -> ModTreeView
    decreases routes.len(),
{
    if routes.len() == 0 {
        empty_tree()
    } else {
        insert_path(mod_tree_of(routes.drop_last()), routes.last().module_segments)
    }
}

proof fn lemma_children_view_len(s: Seq<(String, ModTree)>)
    ensures
        children_view(s).len() == s.len(),
    decreases s.len(),
{
    if s.len() > 0 {
        lemma_children_view_len(s.subrange(0, s.len() - 1));
    }
}

proof fn lemma_children_view_index(s: Seq<(String, ModTree)>, i: int)
    requires
        0 <= i < s.len(),
    ensures
        children_view(s)[i] == (s[i].0@, tree_view(s[i].1)),
        children_view(s).len() == s.len(),
    decreases s.len(),
{
    lemma_children_view_len(s);
    if i < s.len() - 1 {
        lemma_children_view_index(s.subrange(0, s.len() - 1), i);
    }
}

/// The view of children is determined elementwise.
proof fn lemma_children_view_ext(a: Seq<(String, ModTree)>, b: Seq<(Seq<char>, ModTreeView)>)
    requires
        a.len() == b.len(),
        forall|i: int| 0 <= i < a.len() ==> (a[i].0@, tree_view(a[i].1)) == b[i],
    ensures
        children_view(a) == b,
    decreases a.len(),
{
    if a.len() > 0 {
        let a0 = a.subrange(0, a.len() - 1);
        let b0 = b.subrange(0, b.len() - 1);
        lemma_children_view_ext(a0, b0);
        assert(b =~= b0.push(b[b.len() - 1]));
    } else {
        assert(b =~= Seq::<(Seq<char>, ModTreeView)>::empty());
    }
}

proof fn lemma_child_index_props(c: Seq<(Seq<char>, ModTreeView)>, k: Seq<char>)
    ensures
        child_index(c, k) matches Some(i) ==> 0 <= i < c.len() && c[i].0 == k,
        child_index(c, k) is None ==> forall|i: int| 0 <= i < c.len() ==> c[i].0 != k,
    decreases c.len(),
{
    if c.len() > 0 {
        lemma_child_index_props(c.drop_last(), k);
        if child_index(c, k) is None {
            assert forall|i: int| 0 <= i < c.len() implies c[i].0 != k by {
                if i < c.len() - 1 {
                    assert(c.drop_last()[i] == c[i]);
                }
            }
        }
    }
}

proof fn lemma_child_index_first(c: Seq<(Seq<char>, ModTreeView)>, k: Seq<char>, j: int)
    requires
        0 <= j < c.len(),
        c[j].0 == k,
        forall|m: int| 0 <= m < j ==> c[m].0 != k,
    ensures
        child_index(c, k) == Some(j),
    decreases c.len(),
{
    if j < c.len() - 1 {
        lemma_child_index_first(c.drop_last(), k, j);
    } else {
        lemma_child_index_props(c.drop_last(), k);
    }
}

/// The children's names are strictly increasing.
pub open spec fn keys_sorted(c: Seq<(Seq<char>, ModTreeView)>) -> bool {
    forall|i: int, j: int| 0 <= i < j < c.len() ==> chars_less(#[trigger] c[i].0, #[trigger] c[j].0)
}

/// Every node's children have strictly increasing names (a sorted map).
pub open spec fn tree_ok(t: ModTreeView) -> bool
    decreases t, 1nat,
{
    keys_sorted(t.children) && children_ok(t.children)
}

/// Every child tree is a sorted map.
pub open spec fn children_ok(c: Seq<(Seq<char>, ModTreeView)>) -> bool
    decreases c, 0nat,
{
    if c.len() == 0 {
        true
    } else {
        children_ok(c.subrange(0, c.len() - 1)) && tree_ok(c[c.len() - 1].1)
    }
}

proof fn lemma_children_ok(c: Seq<(Seq<char>, ModTreeView)>)
    ensures
        children_ok(c) <==> forall|i: int| 0 <= i < c.len() ==> #[trigger] tree_ok(c[i].1),
    decreases c.len(),
{
    if c.len() > 0 {
        let pre = c.subrange(0, c.len() - 1);
        lemma_children_ok(pre);
        if forall|i: int| 0 <= i < c.len() ==> #[trigger] tree_ok(c[i].1) {
            assert forall|i: int| 0 <= i < pre.len() implies #[trigger] tree_ok(pre[i].1) by {
                assert(pre[i] == c[i]);
                assert(tree_ok(c[i].1));
            }
            assert(tree_ok(c[c.len() - 1].1));
            assert(children_ok(c));
        }
        if children_ok(c) {
            assert forall|i: int| 0 <= i < c.len() implies #[trigger] tree_ok(c[i].1) by {
                if i < c.len() - 1 {
                    assert(pre[i] == c[i]);
                    assert(tree_ok(pre[i].1));
                }
            }
        }
    }
}

/// Whether the tree holds the path of names `q` (each name a child of the one before).
pub open spec fn has_path(t: ModTreeView, q: Seq<Seq<char>>) -> bool
    decreases q.len(),
{
    q.len() > 0 && exists|i: int|
        0 <= i < t.children.len() && #[trigger] t.children[i].0 == q[0] && (q.len() == 1 || has_path(
            t.children[i].1,
            q.drop_first(),
        ))
}

proof fn lemma_child_pos(c: Seq<(Seq<char>, ModTreeView)>, k: Seq<char>, i: int)
    requires
        0 <= i <= c.len(),
    ensures
        i <= child_pos(c, k, i) <= c.len(),
        forall|m: int| i <= m < child_pos(c, k, i) ==> !chars_less(k, #[trigger] c[m].0),
        child_pos(c, k, i) < c.len() ==> chars_less(k, c[child_pos(c, k, i)].0),
    decreases c.len() - i,
{
    if i < c.len() && !chars_less(k, c[i].0) {
        lemma_child_pos(c, k, i + 1);
    }
}

proof fn lemma_empty_tree_ok()
    ensures
        tree_ok(empty_tree()),
{
}

/// Inserting a path keeps the tree a sorted map, adds the path, and keeps
/// every path already there.
proof fn lemma_insert_path(t: ModTreeView, path: Seq<Seq<char>>)
    requires
        tree_ok(t),
    ensures
        tree_ok(insert_path(t, path)),
        path.len() > 0 ==> has_path(insert_path(t, path), path),
        forall|q: Seq<Seq<char>>| has_path(t, q) ==> #[trigger] has_path(insert_path(t, path), q),
    decreases path.len(),
{
    if path.len() > 0 {
        let k = path[0];
        let rest = path.drop_first();
        let c = t.children;
        lemma_child_index_props(c, k);
        match child_index(c, k) {
            Some(ci) => {
                let child = c[ci].1;
                lemma_children_ok(c);
                assert(tree_ok(child));
                lemma_insert_path(child, rest);
                let nc = c.update(ci, (k, insert_path(child, rest)));
                let nt = insert_path(t, path);
                assert(nt.children == nc);
                assert(keys_sorted(nc)) by {
                    assert forall|i: int, j: int| 0 <= i < j < nc.len() implies chars_less(
                        #[trigger] nc[i].0,
                        #[trigger] nc[j].0,
                    ) by {
                        assert(nc[i].0 == c[i].0 && nc[j].0 == c[j].0);
                    }
                }
                assert forall|i: int| 0 <= i < nc.len() implies #[trigger] tree_ok(nc[i].1) by {
                    if i != ci {
                        assert(nc[i] == c[i]);
                    }
                }
                lemma_children_ok(nc);
                assert(tree_ok(nt));
                assert(nc[ci].0 == path[0]);
                if path.len() > 1 {
                    assert(has_path(nc[ci].1, path.drop_first()));
                }
                assert(has_path(nt, path));
                assert forall|q: Seq<Seq<char>>| has_path(t, q) implies #[trigger] has_path(nt, q) by {
                    let i = choose|i: int|
                        0 <= i < c.len() && #[trigger] c[i].0 == q[0] && (q.len() == 1 || has_path(
                            c[i].1,
                            q.drop_first(),
                        ));
                    if i == ci {
                        if q.len() > 1 {
                            assert(has_path(insert_path(child, rest), q.drop_first()));
                        }
                        assert(nc[i].0 == q[0]);
                    } else {
                        assert(nc[i] == c[i]);
                    }
                }
            },
            None => {
                lemma_child_pos(c, k, 0);
                let p = child_pos(c, k, 0);
                let sub = insert_path(empty_tree(), rest);
                lemma_empty_tree_ok();
                lemma_insert_path(empty_tree(), rest);
                let nc = c.insert(p, (k, sub));
                let nt = insert_path(t, path);
                assert(nt.children == nc);
                assert(keys_sorted(nc)) by {
                    assert forall|i: int, j: int| 0 <= i < j < nc.len() implies chars_less(
                        #[trigger] nc[i].0,
                        #[trigger] nc[j].0,
                    ) by {
                        if j < p {
                            assert(nc[i] == c[i] && nc[j] == c[j]);
                        } else if j == p {
                            assert(nc[i] == c[i]);
                            assert(c[i].0 != k);
                            crate::discover::lemma_chars_less_total(c[i].0, k);
                        } else if i < p {
                            assert(nc[i] == c[i] && nc[j] == c[j - 1]);
                        } else if i == p {
                            assert(nc[j] == c[j - 1]);
                            if j - 1 > p {
                                crate::discover::lemma_chars_less_trans(k, c[p].0, c[j - 1].0);
                            }
                        } else {
                            assert(nc[i] == c[i - 1] && nc[j] == c[j - 1]);
                        }
                    }
                }
                lemma_children_ok(c);
                assert forall|i: int| 0 <= i < nc.len() implies #[trigger] tree_ok(nc[i].1) by {
                    if i < p {
                        assert(nc[i] == c[i]);
                    } else if i > p {
                        assert(nc[i] == c[i - 1]);
                    }
                }
                lemma_children_ok(nc);
                assert(tree_ok(nt));
                assert(nc[p].0 == path[0]);
                if path.len() > 1 {
                    assert(has_path(nc[p].1, path.drop_first()));
                }
                assert(has_path(nt, path));
                assert forall|q: Seq<Seq<char>>| has_path(t, q) implies #[trigger] has_path(nt, q) by {
                    let i = choose|i: int|
                        0 <= i < c.len() && #[trigger] c[i].0 == q[0] && (q.len() == 1 || has_path(
                            c[i].1,
                            q.drop_first(),
                        ));
                    if i < p {
                        assert(nc[i] == c[i]);
                    } else {
                        assert(nc[i + 1] == c[i]);
                    }
                }
            },
        }
    }
}

/// Law: the module tree of the routes is a sorted map at every node (each
/// name once, in order), and it holds every route's module path.
pub proof fn lemma_mod_tree(routes: Seq<RouteEntryView>)
    ensures
        tree_ok(mod_tree_of(routes)),
        forall|i: int|
            0 <= i < routes.len() && routes[i].module_segments.len() > 0 ==> has_path(
                mod_tree_of(routes),
                #[trigger] routes[i].module_segments,
            ),
    decreases routes.len(),
{
    if routes.len() > 0 {
        let pre = routes.drop_last();
        lemma_mod_tree(pre);
        lemma_insert_path(mod_tree_of(pre), routes.last().module_segments);
        assert forall|i: int|
            0 <= i < routes.len() && routes[i].module_segments.len() > 0 implies has_path(
            mod_tree_of(routes),
            #[trigger] routes[i].module_segments,
        ) by {
            if i < routes.len() - 1 {
                assert(routes[i] == pre[i]);
            }
        }
    } else {
        lemma_empty_tree_ok();
    }
}

impl ModTree {
    pub fn new() -> (r: ModTree)
        ensures
            r@ == empty_tree(),
    {
        ModTree { children: Vec::new() }
    }

    /// The names of the children, in order.
    pub fn keys(&self) -> (r: Vec<String>)
        ensures
            r@.len() == self@.children.len(),
            forall|i: int| 0 <= i < r@.len() ==> #[trigger] r@[i]@ == self@.children[i].0,
    {
        let mut out: Vec<String> = Vec::new();
        let mut i: usize = 0;
        proof {
            lemma_children_view_len(self.children@);
        }
        while i < self.children.len()
            invariant
                i <= self.children@.len(),
                self@.children.len() == self.children@.len(),
                out@.len() == i,
                forall|k: int| 0 <= k < i ==> #[trigger] out@[k]@ == self@.children[k].0,
            decreases self.children@.len() - i,
        {
            proof {
                lemma_children_view_index(self.children@, i as int);
            }
            out.push(self.children[i].0.clone());
            i = i + 1;
        }
        out
    }

    /// Whether a child has the name `name`.
    pub fn contains_key(&self, name: &str) -> (r: bool)
        ensures
            r == (child_index(self@.children, name@) is Some),
    {
        self.child(name).is_some()
    }

    /// The child named `name`.
    pub fn child(&self, name: &str) -> (r: Option<&ModTree>)
        ensures
            match r {
                Some(c) => child_index(self@.children, name@) matches Some(i) && self@.children[i].1
                    == c@,
                None => child_index(self@.children, name@) is None,
            },
    {
        let k = chars_of(name);
        let mut i: usize = 0;
        proof {
            lemma_children_view_len(self.children@);
        }
        while i < self.children.len()
            invariant
                i <= self.children@.len(),
                self@.children.len() == self.children@.len(),
                forall|m: int| 0 <= m < i ==> self@.children[m].0 != name@,
                k@ == name@,
            decreases self.children@.len() - i,
        {
            proof {
                lemma_children_view_index(self.children@, i as int);
            }
            if chars_eq(chars_of(self.children[i].0.as_str()).as_slice(), k.as_slice()) {
                proof {
                    lemma_child_index_first(self@.children, name@, i as int);
                }
                return Some(&self.children[i].1);
            }
            i = i + 1;
        }
        proof {
            lemma_child_index_props(self@.children, name@);
            if child_index(self@.children, name@) is Some {
                let j = child_index(self@.children, name@)->Some_0;
                assert(self@.children[j].0 == name@);
            }
        }
        None
    }
}

fn insert_path_exec(tree: ModTree, path: &[String]) -> (r: ModTree)
    ensures
        r@ == insert_path(tree@, strings_view(path@)),
    decreases path@.len(),
{
    if path.len() == 0 {
        return tree;
    }
    let ghost tv = tree@;
    let ghost pv = strings_view(path@);
    let mut t = tree;
    let n = path.len();
    let rest = vstd::slice::slice_subrange(path, 1, n);
    proof {
        assert(rest@.len() == n - 1);
        assert(strings_view(rest@) =~= pv.drop_first());
        lemma_children_view_len(t.children@);
    }
    let key = chars_of(path[0].as_str());
    let mut i: usize = 0;
    while i < t.children.len()
        invariant
            i <= t.children@.len(),
            tv == t@,
            tv == tree@,
            tv.children.len() == t.children@.len(),
            forall|m: int| 0 <= m < i ==> tv.children[m].0 != pv[0],
            key@ == pv[0],
            pv == strings_view(path@),
            pv.len() > 0,
            rest@.len() < path@.len(),
            strings_view(rest@) == pv.drop_first(),
        decreases t.children@.len() - i,
    {
        proof {
            lemma_children_view_index(t.children@, i as int);
        }
        if chars_eq(chars_of(t.children[i].0.as_str()).as_slice(), key.as_slice()) {
            proof {
                lemma_child_index_first(tv.children, pv[0], i as int);
            }
            let ghost old_children = t.children@;
            let (name, child) = t.children.remove(i);
            let child2 = insert_path_exec(child, rest);
            let ghost item = (name, child2);
            t.children.insert(i, (name, child2));
            proof {
                assert(t.children@ =~= old_children.update(i as int, item));
                let target = tv.children.update(i as int, (pv[0], insert_path(tv.children[i as int].1, pv.drop_first())));
                assert forall|m: int| 0 <= m < t.children@.len() implies (
                t.children@[m].0@,
                tree_view(t.children@[m].1),
            ) == target[m] by {
                    lemma_children_view_index(old_children, m);
                }
                lemma_children_view_ext(t.children@, target);
                assert(child_index(tv.children, pv[0]) == Some(i as int));
                assert(insert_path(tv, pv) == ModTreeView { children: target });
                assert(t@ == ModTreeView { children: children_view(t.children@) });
            }
            return t;
        }
        i = i + 1;
    }
    proof {
        lemma_child_index_props(tv.children, pv[0]);
        if child_index(tv.children, pv[0]) is Some {
            let j = child_index(tv.children, pv[0])->Some_0;
            assert(tv.children[j].0 == pv[0]);
        }
    }
    let mut p: usize = 0;
    while p < t.children.len() && !crate::discover::chars_less_exec(
        key.as_slice(),
        chars_of(t.children[p].0.as_str()).as_slice(),
    )
        invariant
            p <= t.children@.len(),
            tv == t@,
            tv.children.len() == t.children@.len(),
            key@ == pv[0],
            child_pos(tv.children, pv[0], p as int) == child_pos(tv.children, pv[0], 0),
        decreases t.children@.len() - p,
    {
        proof {
            lemma_children_view_index(t.children@, p as int);
        }
        p = p + 1;
    }
    proof {
        if p < t.children.len() {
            lemma_children_view_index(t.children@, p as int);
        }
    }
    let ghost old_children = t.children@;
    let sub = insert_path_exec(ModTree::new(), rest);
    t.children.insert(p, (path[0].clone(), sub));
    proof {
        let target = tv.children.insert(p as int, (pv[0], insert_path(empty_tree(), pv.drop_first())));
        assert forall|m: int| 0 <= m < t.children@.len() implies (
            t.children@[m].0@,
            tree_view(t.children@[m].1),
        ) == target[m] by {
            if m < p {
                lemma_children_view_index(old_children, m);
            } else if m > p {
                lemma_children_view_index(old_children, m - 1);
            }
        }
        lemma_children_view_ext(t.children@, target);
    }
    t
}

/// Build the module tree of the routes' module paths.
pub fn build_mod_tree(routes: &[RouteEntry]) -> (r: ModTree)
    ensures
        r@ == mod_tree_of(routes@.map_values(|e: RouteEntry| e@)),
{
    let ghost rv = routes@.map_values(|e: RouteEntry| e@);
    let mut root = ModTree::new();
    let mut i: usize = 0;
    proof {
        assert(rv.take(0) =~= Seq::<RouteEntryView>::empty());
    }
    while i < routes.len()
        invariant
            i <= routes@.len(),
            rv == routes@.map_values(|e: RouteEntry| e@),
            rv.len() == routes@.len(),
            root@ == mod_tree_of(rv.take(i as int)),
        decreases routes@.len() - i,
    {
        proof {
            assert(rv.take(i + 1).drop_last() =~= rv.take(i as int));
            assert(rv.take(i + 1).last() == routes@[i as int]@);
        }
        root = insert_path_exec(root, routes[i].module_segments.as_slice());
        i = i + 1;
    }
    proof {
        assert(rv.take(i as int) =~= rv);
    }
    root
}

// ---------------------------------------------------------------------------
// Generated text
// ---------------------------------------------------------------------------

/// Append the characters of `s`.
fn push_str(buf: &mut Vec<char>, s: &str)
    ensures
        final(buf)@ == old(buf)@ + s@,
{
    let cs = chars_of(s);
    let mut i: usize = 0;
    while i < cs.len()
        invariant
            i <= cs@.len(),
            buf@ == old(buf)@ + cs@.take(i as int),
            cs@ == s@,
        decreases cs@.len() - i,
    {
        buf.push(cs[i]);
        proof {
            assert(cs@.take(i + 1) =~= cs@.take(i as int).push(cs@[i as int]));
            assert(buf@ =~= old(buf)@ + cs@.take(i + 1));
        }
        i = i + 1;
    }
    proof {
        assert(cs@.take(i as int) =~= cs@);
    }
}

/// The first lines of every generated module.
pub open spec fn file_header() -> Seq<char> {
    "// Auto-generated by thebe. Do not edit.\n"@ + "#![allow(clippy::all, unused)]\n\n"@
}

fn push_header(buf: &mut Vec<char>)
    ensures
        final(buf)@ == old(buf)@ + file_header(),
{
    push_str(buf, "// Auto-generated by thebe. Do not edit.\n");
    push_str(buf, "#![allow(clippy::all, unused)]\n\n");
    proof {
        assert(buf@ =~= old(buf)@ + file_header());
    }
}

/// One `pub mod name;` line per name.
pub open spec fn mod_lines(names: Seq<Seq<char>>) -> Seq<char>
    decreases names.len(),
{
    if names.len() == 0 {
        Seq::empty()
    } else {
        mod_lines(names.drop_last()) + "pub mod "@ + names.last() + ";\n"@
    }
}

fn push_mod_lines(buf: &mut Vec<char>, names: &Vec<String>)
    ensures
        final(buf)@ == old(buf)@ + mod_lines(strings_view(names@)),
{
    let ghost nv = strings_view(names@);
    let mut i: usize = 0;
    proof {
        assert(nv.take(0) =~= Seq::<Seq<char>>::empty());
        assert(buf@ =~= old(buf)@ + mod_lines(nv.take(0)));
    }
    while i < names.len()
        invariant
            i <= names@.len(),
            nv == strings_view(names@),
            nv.len() == names@.len(),
            buf@ == old(buf)@ + mod_lines(nv.take(i as int)),
        decreases names@.len() - i,
    {
        proof {
            assert(nv.take(i + 1).drop_last() =~= nv.take(i as int));
            assert(nv.take(i + 1).last() == names@[i as int]@);
        }
        let ghost before = buf@;
        push_str(buf, "pub mod ");
        push_str(buf, names[i].as_str());
        push_str(buf, ";\n");
        proof {
            assert(buf@ =~= old(buf)@ + mod_lines(nv.take(i + 1)));
        }
        i = i + 1;
    }
    proof {
        assert(nv.take(i as int) =~= nv);
    }
}

/// The `mod.rs` text of a module tree node: one `pub mod` line per child.
pub open spec fn mod_file_text(t: ModTreeView) -> Seq<char> {
    file_header() + mod_lines(t.children.map_values(|c: (Seq<char>, ModTreeView)| c.0))
}

/// The `mod.rs` text of a module tree node.
pub fn mod_file(tree: &ModTree) -> (r: String)
    ensures
        r@ == mod_file_text(tree@),
{
    let names = tree.keys();
    let mut buf: Vec<char> = Vec::new();
    push_header(&mut buf);
    push_mod_lines(&mut buf, &names);
    proof {
        assert(strings_view(names@) =~= tree@.children.map_values(
            |c: (Seq<char>, ModTreeView)| c.0,
        ));
        assert(buf@ =~= mod_file_text(tree@));
    }
    string_from(buf.as_slice())
}

/// The `components/mod.rs` text: one `pub mod` line per component module.
pub open spec fn components_mod_text(module_names: Seq<Seq<char>>) -> Seq<char> {
    file_header() + mod_lines(module_names)
}

pub open spec fn infos_modules(infos: Seq<ComponentInfo>) -> Seq<Seq<char>> {
    infos.map_values(|ci: ComponentInfo| ci.module_name@)
}

/// The `components/mod.rs` text of the component modules.
pub fn components_mod(infos: &Vec<ComponentInfo>) -> (r: String)
    ensures
        r@ == components_mod_text(infos_modules(infos@)),
{
    let mut names: Vec<String> = Vec::new();
    let mut i: usize = 0;
    while i < infos.len()
        invariant
            i <= infos@.len(),
            names@.len() == i,
            forall|k: int| 0 <= k < i ==> #[trigger] names@[k]@ == infos@[k].module_name@,
        decreases infos@.len() - i,
    {
        names.push(infos[i].module_name.clone());
        i = i + 1;
    }
    let mut buf: Vec<char> = Vec::new();
    push_header(&mut buf);
    push_mod_lines(&mut buf, &names);
    proof {
        assert(strings_view(names@) =~= infos_modules(infos@));
        assert(buf@ =~= components_mod_text(infos_modules(infos@)));
    }
    string_from(buf.as_slice())
}

// ---------------------------------------------------------------------------
// Root module and router
// ---------------------------------------------------------------------------

/// One `.route(...)` line per page.
pub open spec fn route_lines(pages: Seq<RouteEntryView>) -> Seq<char>
    decreases pages.len(),
{
    if pages.len() == 0 {
        Seq::empty()
    } else {
        let p = pages.last();
        route_lines(pages.drop_last()) + "    .route(\""@ + p.url_path + "\", axum::routing::get("@
            + handler_name_of(p.module_segments) + "))\n"@
    }
}

/// The handler's signature: no extractor, a `String` path, or a tuple of them.
pub open spec fn signature_of(handler: Seq<char>, params: Seq<Seq<char>>) -> Seq<char> {
    if params.len() == 0 {
        "async fn "@ + handler + "() -> axum::response::Html<String> {\n"@
    } else if params.len() == 1 {
        "async fn "@ + handler + "(\n  axum::extract::Path("@ + params[0]
            + "): axum::extract::Path<String>,\n) -> axum::response::Html<String> {\n"@
    } else {
        "async fn "@ + handler + "(\n  axum::extract::Path(("@ + join(params, ", "@)
            + ")): axum::extract::Path<("@ + param_types_of(params.len())
            + ")>,\n) -> axum::response::Html<String> {\n"@
    }
}

/// Each parameter as a reference argument: `&name`.
pub open spec fn ref_args(params: Seq<Seq<char>>) -> Seq<Seq<char>> {
    params.map_values(|p: Seq<char>| "&"@ + p)
}

/// The line that renders the page body.
pub open spec fn render_line(mod_path: Seq<char>, params: Seq<Seq<char>>) -> Seq<char> {
    if params.len() == 0 {
        "  let body = routes::"@ + mod_path + "::render();\n"@
    } else {
        "  let body = routes::"@ + mod_path + "::render("@ + join(ref_args(params), ", "@) + ");\n"@
    }
}

/// Law: a page's render call passes its path parameters in their order, each
/// as a reference: the `i`-th argument is `&` and the `i`-th parameter, the
/// same order in which the handler's `Path` extractor names them.
pub proof fn lemma_render_line_args(mod_path: Seq<char>, params: Seq<Seq<char>>)
    requires
        params.len() > 0,
    ensures
        render_line(mod_path, params) == "  let body = routes::"@ + mod_path + "::render("@ + join(
            Seq::new(params.len(), |i: int| "&"@ + params[i]),
            ", "@,
        ) + ");\n"@,
{
    assert(ref_args(params) =~= Seq::new(params.len(), |i: int| "&"@ + params[i]));
}

/// Law: one more path parameter adds one more argument at the end of the
/// render call, `&` and its name, after a `, ` where there were arguments
/// already; the text before it is unchanged.
pub proof fn lemma_render_line_push(mod_path: Seq<char>, params: Seq<Seq<char>>, p: Seq<char>)
    ensures
        ({
            let before = render_line(mod_path, params);
            render_line(mod_path, params.push(p)) == before.subrange(0, before.len() - 3) + (if params.len()
                == 0 {
                "&"@ + p
            } else {
                ", &"@ + p
            }) + ");\n"@
        }),
{
    reveal_strlit("  let body = routes::");
    reveal_strlit("::render();\n");
    reveal_strlit("::render(");
    reveal_strlit(");\n");
    reveal_strlit(", ");
    reveal_strlit(", &");
    reveal_strlit("&");
    let head = "  let body = routes::"@ + mod_path + "::render("@;
    let before = render_line(mod_path, params);
    let ps = params.push(p);
    let args = ref_args(ps);
    assert(args.len() == params.len() + 1);
    assert(args.last() == "&"@ + p);
    assert(args.drop_last() =~= ref_args(params));
    if params.len() == 0 {
        assert(before =~= head + ");\n"@);
        assert(join(args, ", "@) == args[0]);
    } else {
        assert(before =~= head + join(ref_args(params), ", "@) + ");\n"@);
        assert(join(args, ", "@) == join(ref_args(params), ", "@) + ", "@ + ("&"@ + p));
    }
    assert(before.subrange(0, before.len() - 3) =~= if params.len() == 0 {
        head
    } else {
        head + join(ref_args(params), ", "@)
    });
    assert(render_line(mod_path, ps) =~= before.subrange(0, before.len() - 3) + (if params.len()
        == 0 {
        "&"@ + p
    } else {
        ", &"@ + p
    }) + ");\n"@);
}

/// One line per used component adding its styles.
pub open spec fn component_style_lines(mods: Seq<Seq<char>>) -> Seq<char>
    decreases mods.len(),
{
    if mods.len() == 0 {
        Seq::empty()
    } else {
        component_style_lines(mods.drop_last()) + "  all_styles.extend_from_slice(components::"@
            + mods.last() + "::STYLES);\n"@
    }
}

/// The handler of one page: its signature, the rendered body (wrapped in
/// its layout when it has one), its styles, those of its layout and of the
/// components it uses, and the document.
pub open spec fn page_block(
    page: RouteEntryView,
    layouts: Map<Seq<Seq<char>>, Seq<Seq<char>>>,
    refs: Map<Seq<Seq<char>>, Seq<Seq<char>>>,
) -> Seq<char> {
    let handler = handler_name_of(page.module_segments);
    let mod_path = join(page.module_segments, "::"@);
    let layout = find_layout_in(layouts, parent_components(page.relative_path));
    let key = path_components(page.relative_path);
    "\n"@ + signature_of(handler, page.params) + render_line(mod_path, page.params) + match layout {
        Some(l) => "  let body = routes::"@ + join(l, "::"@) + "::render_with_slot(&body, &[]);\n"@,
        None => Seq::empty(),
    } + "  let mut all_styles: Vec<&str> = Vec::new();\n"@ + "  all_styles.extend_from_slice(routes::"@
        + mod_path + "::STYLES);\n"@ + match layout {
        Some(l) => "  all_styles.extend_from_slice(routes::"@ + join(l, "::"@) + "::STYLES);\n"@,
        None => Seq::empty(),
    } + if refs.contains_key(key) {
        component_style_lines(refs[key])
    } else {
        Seq::empty()
    } + "  axum::response::Html(shell::document(&body, &all_styles))\n"@ + "}\n"@
}

pub open spec fn page_blocks(
    pages: Seq<RouteEntryView>,
    layouts: Map<Seq<Seq<char>>, Seq<Seq<char>>>,
    refs: Map<Seq<Seq<char>>, Seq<Seq<char>>>,
) -> Seq<char>
    decreases pages.len(),
{
    if pages.len() == 0 {
        Seq::empty()
    } else {
        page_blocks(pages.drop_last(), layouts, refs) + page_block(pages.last(), layouts, refs)
    }
}

/// The 404 fallback handler rendering the root error page.
pub open spec fn fallback_block(err: RouteEntryView) -> Seq<char> {
    let err_mod = join(err.module_segments, "::"@);
    "\n"@ + "async fn __fallback() -> (axum::http::StatusCode, axum::response::Html<String>) {\n"@
        + "  let body = routes::"@ + err_mod + "::render();\n"@ + "  let styles = routes::"@ + err_mod
        + "::STYLES;\n"@
        + "  (axum::http::StatusCode::NOT_FOUND, axum::response::Html(shell::document(&body, styles)))\n"@
        + "}\n"@
}

/// The top-level `mod.rs`: module declarations, the router with a route
/// per page (and the fallback when there is a root error page), the page
/// handlers and the fallback handler.
pub open spec fn root_mod_text(
    pages: Seq<RouteEntryView>,
    layouts: Map<Seq<Seq<char>>, Seq<Seq<char>>>,
    root_error: Option<RouteEntryView>,
    has_components: bool,
    refs: Map<Seq<Seq<char>>, Seq<Seq<char>>>,
) -> Seq<char> {
    file_header() + "pub mod routes;\nmod shell;\n"@ + (if has_components {
        "pub mod components;\n"@
    } else {
        Seq::empty()
    }) + "\n"@ + "/// Build an [`axum::Router`] with all discovered routes.\n"@
        + "pub fn router() -> axum::Router {\n"@ + "  axum::Router::new()\n"@ + route_lines(pages)
        + (if root_error is Some {
        "    .fallback(__fallback)\n"@
    } else {
        Seq::empty()
    }) + "}\n"@ + page_blocks(pages, layouts, refs) + match root_error {
        Some(e) => fallback_block(e),
        None => Seq::empty(),
    }
}

fn join_into(buf: &mut Vec<char>, segs: &Vec<String>, sep: &str)
    ensures
        final(buf)@ == old(buf)@ + join(strings_view(segs@), sep@),
{
    let j = join_with(segs, sep);
    push_str(buf, j.as_str());
}

fn push_signature(buf: &mut Vec<char>, handler: &String, params: &Vec<String>)
    ensures
        final(buf)@ == old(buf)@ + signature_of(handler@, strings_view(params@)),
{
    let ghost pv = strings_view(params@);
    if params.len() == 0 {
        push_str(buf, "async fn ");
        push_str(buf, handler.as_str());
        push_str(buf, "() -> axum::response::Html<String> {\n");
    } else if params.len() == 1 {
        push_str(buf, "async fn ");
        push_str(buf, handler.as_str());
        push_str(buf, "(\n  axum::extract::Path(");
        push_str(buf, params[0].as_str());
        push_str(buf, "): axum::extract::Path<String>,\n) -> axum::response::Html<String> {\n");
    } else {
        let types = build_param_types(params);
        push_str(buf, "async fn ");
        push_str(buf, handler.as_str());
        push_str(buf, "(\n  axum::extract::Path((");
        join_into(buf, params, ", ");
        push_str(buf, ")): axum::extract::Path<(");
        push_str(buf, types.as_str());
        push_str(buf, ")>,\n) -> axum::response::Html<String> {\n");
    }
    proof {
        assert(buf@ =~= old(buf)@ + signature_of(handler@, pv));
    }
}

fn push_render_line(buf: &mut Vec<char>, mod_path: &String, params: &Vec<String>)
    ensures
        final(buf)@ == old(buf)@ + render_line(mod_path@, strings_view(params@)),
{
    let ghost pv = strings_view(params@);
    if params.len() == 0 {
        push_str(buf, "  let body = routes::");
        push_str(buf, mod_path.as_str());
        push_str(buf, "::render();\n");
    } else {
        let mut args: Vec<String> = Vec::new();
        let mut i: usize = 0;
        while i < params.len()
            invariant
                i <= params@.len(),
                args@.len() == i,
                forall|k: int| 0 <= k < i ==> #[trigger] args@[k]@ == "&"@ + params@[k]@,
            decreases params@.len() - i,
        {
            args.push(
                string_from(
                    concat_chars(chars_of("&").as_slice(), chars_of(params[i].as_str()).as_slice()).as_slice(),
                ),
            );
            i = i + 1;
        }
        proof {
            assert(strings_view(args@) =~= ref_args(pv));
        }
        push_str(buf, "  let body = routes::");
        push_str(buf, mod_path.as_str());
        push_str(buf, "::render(");
        join_into(buf, &args, ", ");
        push_str(buf, ");\n");
    }
    proof {
        assert(buf@ =~= old(buf)@ + render_line(mod_path@, pv));
    }
}

pub open spec fn layout_body_line(layout: Option<Seq<Seq<char>>>) -> Seq<char> {
    match layout {
        Some(l) => "  let body = routes::"@ + join(l, "::"@) + "::render_with_slot(&body, &[]);\n"@,
        None => Seq::empty(),
    }
}

pub open spec fn layout_style_line(layout: Option<Seq<Seq<char>>>) -> Seq<char> {
    match layout {
        Some(l) => "  all_styles.extend_from_slice(routes::"@ + join(l, "::"@) + "::STYLES);\n"@,
        None => Seq::empty(),
    }
}

fn push_layout_lines(buf: &mut Vec<char>, layout: &Option<Vec<String>>, styles: bool)
    ensures
        final(buf)@ == old(buf)@ + if styles {
            layout_style_line(opt_strings(*layout))
        } else {
            layout_body_line(opt_strings(*layout))
        },
{
    match layout {
        Some(l) => {
            if styles {
                push_str(buf, "  all_styles.extend_from_slice(routes::");
                join_into(buf, l, "::");
                push_str(buf, "::STYLES);\n");
            } else {
                push_str(buf, "  let body = routes::");
                join_into(buf, l, "::");
                push_str(buf, "::render_with_slot(&body, &[]);\n");
            }
            proof {
                assert(buf@ =~= old(buf)@ + if styles {
                    layout_style_line(opt_strings(*layout))
                } else {
                    layout_body_line(opt_strings(*layout))
                });
            }
        },
        None => {
            proof {
                assert(buf@ =~= old(buf)@ + Seq::<char>::empty());
            }
        },
    }
}

pub open spec fn used_style_lines(refs: Map<Seq<Seq<char>>, Seq<Seq<char>>>, key: Seq<Seq<char>>) -> Seq<
    char,
> {
    if refs.contains_key(key) {
        component_style_lines(refs[key])
    } else {
        Seq::empty()
    }
}

fn push_component_styles(buf: &mut Vec<char>, page: &RouteEntry, component_refs: &PathMap)
    ensures
        final(buf)@ == old(buf)@ + used_style_lines(
            component_refs@,
            path_components(page.relative_path@),
        ),
{
    let key = crate::discover::path_components_of(chars_of(page.relative_path.as_str()).as_slice());
    match component_refs.get(&key) {
        Some(used) => {
            let ghost uv = strings_view(used@);
            let mut i: usize = 0;
            proof {
                assert(uv.take(0) =~= Seq::<Seq<char>>::empty());
                assert(buf@ =~= old(buf)@ + component_style_lines(uv.take(0)));
            }
            while i < used.len()
                invariant
                    i <= used@.len(),
                    uv == strings_view(used@),
                    uv.len() == used@.len(),
                    buf@ == old(buf)@ + component_style_lines(uv.take(i as int)),
                decreases used@.len() - i,
            {
                proof {
                    assert(uv.take(i + 1).drop_last() =~= uv.take(i as int));
                    assert(uv.take(i + 1).last() == used@[i as int]@);
                }
                push_str(buf, "  all_styles.extend_from_slice(components::");
                push_str(buf, used[i].as_str());
                push_str(buf, "::STYLES);\n");
                proof {
                    assert(buf@ =~= old(buf)@ + component_style_lines(uv.take(i + 1)));
                }
                i = i + 1;
            }
            proof {
                assert(uv.take(i as int) =~= uv);
            }
        },
        None => {
            proof {
                assert(buf@ =~= old(buf)@ + Seq::<char>::empty());
            }
        },
    }
}

#[verifier::spinoff_prover]
#[verifier::rlimit(60)]
fn push_page_block(buf: &mut Vec<char>, page: &RouteEntry, layout_map: &PathMap, component_refs: &PathMap)
    ensures
        final(buf)@ == old(buf)@ + page_block(page@, layout_map@, component_refs@),
{
    let handler = handler_name(&page.module_segments);
    let mod_path = join_with(&page.module_segments, "::");
    let layout_mod = find_layout_for_page(page, layout_map);
    let ghost b0 = buf@;
    push_str(buf, "\n");
    push_signature(buf, &handler, &page.params);
    push_render_line(buf, &mod_path, &page.params);
    push_layout_lines(buf, &layout_mod, false);
    push_str(buf, "  let mut all_styles: Vec<&str> = Vec::new();\n");
    push_str(buf, "  all_styles.extend_from_slice(routes::");
    push_str(buf, mod_path.as_str());
    push_str(buf, "::STYLES);\n");
    push_layout_lines(buf, &layout_mod, true);
    push_component_styles(buf, page, component_refs);
    push_str(buf, "  axum::response::Html(shell::document(&body, &all_styles))\n");
    push_str(buf, "}\n");
    proof {
        let layout = find_layout_in(layout_map@, parent_components(page.relative_path@));
        assert(layout_body_line(layout) == match layout {
            Some(l) => "  let body = routes::"@ + join(l, "::"@) + "::render_with_slot(&body, &[]);\n"@,
            None => Seq::<char>::empty(),
        });
        assert(buf@ =~= b0 + page_block(page@, layout_map@, component_refs@));
    }
}

/// The top-level `mod.rs` with the Axum router function.
pub fn emit_root_mod(
    pages: &[&RouteEntry],
    layout_map: &PathMap,
    root_error: Option<&RouteEntry>,
    has_components: bool,
    component_refs: &PathMap,
) -> (r: String)
    ensures
        r@ == root_mod_text(
            refs_view(pages@),
            layout_map@,
            match root_error {
                Some(e) => Some(e@),
                None => None,
            },
            has_components,
            component_refs@,
        ),
{
    let ghost pv = refs_view(pages@);
    let mut buf: Vec<char> = Vec::new();
    push_header(&mut buf);
    push_str(&mut buf, "pub mod routes;\nmod shell;\n");
    if has_components {
        push_str(&mut buf, "pub mod components;\n");
    }
    push_str(&mut buf, "\n");
    push_str(&mut buf, "/// Build an [`axum::Router`] with all discovered routes.\n");
    push_str(&mut buf, "pub fn router() -> axum::Router {\n");
    push_str(&mut buf, "  axum::Router::new()\n");
    let ghost b_routes = buf@;
    let mut i: usize = 0;
    proof {
        assert(pv.take(0) =~= Seq::<RouteEntryView>::empty());
        assert(buf@ =~= b_routes + route_lines(pv.take(0)));
    }
    while i < pages.len()
        invariant
            i <= pages@.len(),
            pv == refs_view(pages@),
            pv.len() == pages@.len(),
            buf@ == b_routes + route_lines(pv.take(i as int)),
        decreases pages@.len() - i,
    {
        let page = pages[i];
        proof {
            assert(pv.take(i + 1).drop_last() =~= pv.take(i as int));
            assert(pv.take(i + 1).last() == page@);
        }
        let handler = handler_name(&page.module_segments);
        push_str(&mut buf, "    .route(\"");
        push_str(&mut buf, page.url_path.as_str());
        push_str(&mut buf, "\", axum::routing::get(");
        push_str(&mut buf, handler.as_str());
        push_str(&mut buf, "))\n");
        proof {
            assert(buf@ =~= b_routes + route_lines(pv.take(i + 1)));
        }
        i = i + 1;
    }
    proof {
        assert(pv.take(i as int) =~= pv);
    }
    let ghost b_after_routes = buf@;
    if root_error.is_some() {
        push_str(&mut buf, "    .fallback(__fallback)\n");
    }
    push_str(&mut buf, "}\n");
    let ghost b_blocks = buf@;
    let mut i: usize = 0;
    proof {
        assert(buf@ =~= b_blocks + page_blocks(pv.take(0), layout_map@, component_refs@));
    }
    while i < pages.len()
        invariant
            i <= pages@.len(),
            pv == refs_view(pages@),
            pv.len() == pages@.len(),
            buf@ == b_blocks + page_blocks(pv.take(i as int), layout_map@, component_refs@),
        decreases pages@.len() - i,
    {
        let page = pages[i];
        proof {
            assert(pv.take(i + 1).drop_last() =~= pv.take(i as int));
            assert(pv.take(i + 1).last() == page@);
        }
        push_page_block(&mut buf, page, layout_map, component_refs);
        proof {
            assert(buf@ =~= b_blocks + page_blocks(pv.take(i + 1), layout_map@, component_refs@));
        }
        i = i + 1;
    }
    proof {
        assert(pv.take(i as int) =~= pv);
    }
    let ghost b_fallback = buf@;
    match root_error {
        Some(err) => {
            let err_mod = join_with(&err.module_segments, "::");
            push_str(&mut buf, "\n");
            push_str(
                &mut buf,
                "async fn __fallback() -> (axum::http::StatusCode, axum::response::Html<String>) {\n",
            );
            push_str(&mut buf, "  let body = routes::");
            push_str(&mut buf, err_mod.as_str());
            push_str(&mut buf, "::render();\n");
            push_str(&mut buf, "  let styles = routes::");
            push_str(&mut buf, err_mod.as_str());
            push_str(&mut buf, "::STYLES;\n");
            push_str(
                &mut buf,
                "  (axum::http::StatusCode::NOT_FOUND, axum::response::Html(shell::document(&body, styles)))\n",
            );
            push_str(&mut buf, "}\n");
            proof {
                assert(buf@ =~= b_fallback + fallback_block(err@));
            }
        },
        None => {},
    }
    proof {
        let re = match root_error {
            Some(e) => Some(e@),
            None => None,
        };
        assert(buf@ =~= root_mod_text(pv, layout_map@, re, has_components, component_refs@));
    }
    string_from(buf.as_slice())
}

// ---------------------------------------------------------------------------
// Planning the emitted modules
// ---------------------------------------------------------------------------

pub struct ComponentInfoView {
    pub module_name: Seq<char>,
    pub alias: Seq<char>,
}

impl View for ComponentInfo {
    type V = ComponentInfoView;

    open spec fn view(&self) -> ComponentInfoView {
        ComponentInfoView { module_name: self.module_name@, alias: self.alias@ }
    }
}

pub open spec fn info_of(stem: Seq<char>) -> ComponentInfoView {
    ComponentInfoView { module_name: lower_of(stem), alias: pascal_of(stem) }
}

/// The metadata of the component entries (from the last module segment), in order.
pub open spec fn component_infos_of(entries: Seq<RouteEntryView>) -> Seq<ComponentInfoView>
    decreases entries.len(),
{
    if entries.len() == 0 {
        Seq::empty()
    } else {
        let e = entries.last();
        let r = component_infos_of(entries.drop_last());
        if e.kind == RouteKind::Component {
            r.push(info_of(e.module_segments.last()))
        } else {
            r
        }
    }
}

pub open spec fn infos_view(v: Seq<ComponentInfo>) -> Seq<ComponentInfoView> {
    v.map_values(|ci: ComponentInfo| ci@)
}

/// Build component metadata: lowercase module name and `PascalCase` alias
/// of each component entry.
pub fn component_infos(entries: &Vec<RouteEntry>) -> (r: Vec<ComponentInfo>)
    requires
        forall|i: int|
            0 <= i < entries@.len() && (#[trigger] entries@[i]).kind == RouteKind::Component
                ==> entries@[i].module_segments@.len() > 0,
    ensures
        infos_view(r@) == component_infos_of(entries_view(entries@)),
{
    let ghost ev = entries_view(entries@);
    let mut out: Vec<ComponentInfo> = Vec::new();
    let mut i: usize = 0;
    proof {
        assert(ev.take(0) =~= Seq::<RouteEntryView>::empty());
        assert(infos_view(out@) =~= Seq::<ComponentInfoView>::empty());
    }
    while i < entries.len()
        invariant
            i <= entries@.len(),
            ev == entries_view(entries@),
            ev.len() == entries@.len(),
            forall|k: int|
                0 <= k < entries@.len() && (#[trigger] entries@[k]).kind == RouteKind::Component
                    ==> entries@[k].module_segments@.len() > 0,
            infos_view(out@) == component_infos_of(ev.take(i as int)),
        decreases entries@.len() - i,
    {
        let e = &entries[i];
        proof {
            assert(ev.take(i + 1).drop_last() =~= ev.take(i as int));
            assert(ev.take(i + 1).last() == e@);
        }
        if e.kind == RouteKind::Component {
            let n = e.module_segments.len();
            let stem = &e.module_segments[n - 1];
            let ci = ComponentInfo::from_stem(stem.as_str());
            proof {
                assert(strings_view(e.module_segments@).last() == stem@);
                assert(infos_view(out@.push(ci)) =~= infos_view(out@).push(ci@));
            }
            out.push(ci);
        }
        i = i + 1;
    }
    proof {
        assert(ev.take(i as int) =~= ev);
    }
    out
}

/// `PathBuf::push`: an absolute path replaces the path; otherwise it is
/// appended, after a separator unless the path is empty or ends in one.
pub open spec fn path_push(acc: Seq<char>, seg: Seq<char>) -> Seq<char> {
    if seg.len() > 0 && seg[0] == '/' {
        seg
    } else if acc.len() == 0 {
        seg
    } else if acc.last() == '/' {
        acc + seg
    } else {
        acc + "/"@ + seg
    }
}

/// The segments pushed in turn onto an empty path.
pub open spec fn path_of_segments(segs: Seq<Seq<char>>) -> Seq<char>
    decreases segs.len(),
{
    if segs.len() == 0 {
        Seq::empty()
    } else {
        path_push(path_of_segments(segs.drop_last()), segs.last())
    }
}

fn path_of_segments_exec(segs: &[String]) -> (r: Vec<char>)
    ensures
        r@ == path_of_segments(strings_view(segs@)),
{
    let ghost sv = strings_view(segs@);
    let mut acc: Vec<char> = Vec::new();
    let mut i: usize = 0;
    proof {
        assert(sv.take(0) =~= Seq::<Seq<char>>::empty());
    }
    while i < segs.len()
        invariant
            i <= segs@.len(),
            sv == strings_view(segs@),
            sv.len() == segs@.len(),
            acc@ == path_of_segments(sv.take(i as int)),
        decreases segs@.len() - i,
    {
        proof {
            assert(sv.take(i + 1).drop_last() =~= sv.take(i as int));
            assert(sv.take(i + 1).last() == segs@[i as int]@);
        }
        let seg = chars_of(segs[i].as_str());
        if seg.len() > 0 && seg[0] == '/' {
            acc = seg;
        } else if acc.len() == 0 {
            acc = seg;
        } else if acc[acc.len() - 1] == '/' {
            acc = concat_chars(acc.as_slice(), seg.as_slice());
        } else {
            let with_sep = concat_chars(acc.as_slice(), chars_of("/").as_slice());
            acc = concat_chars(with_sep.as_slice(), seg.as_slice());
        }
        i = i + 1;
    }
    proof {
        assert(sv.take(i as int) =~= sv);
    }
    acc
}

/// Each layout's directory mapped to the layout's own path (by components).
pub open spec fn layout_sources_of(layouts: Seq<RouteEntryView>) -> Map<Seq<Seq<char>>, Seq<Seq<char>>>
    decreases layouts.len(),
{
    if layouts.len() == 0 {
        Map::empty()
    } else {
        let l = layouts.last();
        layout_sources_of(layouts.drop_last()).insert(
            parent_components(l.relative_path),
            path_components(l.relative_path),
        )
    }
}

/// `used` with each name of `more` appended unless already present.
pub open spec fn append_new(used: Seq<Seq<char>>, more: Seq<Seq<char>>) -> Seq<Seq<char>>
    decreases more.len(),
{
    if more.len() == 0 {
        used
    } else {
        let r = append_new(used, more.drop_last());
        if r.contains(more.last()) {
            r
        } else {
            r.push(more.last())
        }
    }
}

pub type PathMapView = Map<Seq<Seq<char>>, Seq<Seq<char>>>;

/// The components a page uses: its own, then those of its layout not
/// already listed. The layout's source is found through the directory of
/// the layout's module path.
pub open spec fn page_refs_of(
    page: RouteEntryView,
    layouts: PathMapView,
    sources: PathMapView,
    refs: PathMapView,
) -> Seq<Seq<char>> {
    let key = path_components(page.relative_path);
    let own = if refs.contains_key(key) {
        refs[key]
    } else {
        Seq::empty()
    };
    match find_layout_in(layouts, parent_components(page.relative_path)) {
        Some(segs) => {
            let dir = path_components(path_of_segments(segs.drop_last()));
            if sources.contains_key(dir) && refs.contains_key(sources[dir]) {
                append_new(own, refs[sources[dir]])
            } else {
                own
            }
        },
        None => own,
    }
}

/// The used components of every page that uses any, by the page's path.
pub open spec fn pages_refs_of(
    pages: Seq<RouteEntryView>,
    layouts: PathMapView,
    sources: PathMapView,
    refs: PathMapView,
) -> PathMapView
    decreases pages.len(),
{
    if pages.len() == 0 {
        Map::empty()
    } else {
        let p = pages.last();
        let r = pages_refs_of(pages.drop_last(), layouts, sources, refs);
        let used = page_refs_of(p, layouts, sources, refs);
        if used.len() > 0 {
            r.insert(path_components(p.relative_path), used)
        } else {
            r
        }
    }
}

fn contains_string(v: &Vec<String>, x: &String) -> (r: bool)
    ensures
        r == strings_view(v@).contains(x@),
{
    let mut i: usize = 0;
    while i < v.len()
        invariant
            i <= v@.len(),
            forall|k: int| 0 <= k < i ==> v@[k]@ != x@,
        decreases v@.len() - i,
    {
        if v[i] == *x {
            assert(strings_view(v@)[i as int] == x@);
            return true;
        }
        i = i + 1;
    }
    proof {
        if strings_view(v@).contains(x@) {
            let k = choose|k: int| 0 <= k < strings_view(v@).len() && strings_view(v@)[k] == x@;
            assert(v@[k]@ == x@);
        }
    }
    false
}

/// A layout found for a directory is one of the map's values.
pub proof fn lemma_find_layout_value(m: PathMapView, dir: Seq<Seq<char>>)
    ensures
        find_layout_in(m, dir) matches Some(v) ==> exists|k: Seq<Seq<char>>|
            m.contains_key(k) && m[k] == v,
    decreases dir.len(),
{
    if !m.contains_key(dir) && !(dir.len() == 0 || dir.last() == "/"@) {
        lemma_find_layout_value(m, dir.drop_last());
    }
}

/// Every value of the map is non-empty.
pub open spec fn values_nonempty(m: PathMapView) -> bool {
    forall|k: Seq<Seq<char>>| m.contains_key(k) ==> (#[trigger] m[k]).len() > 0
}

fn page_refs(
    page: &RouteEntry,
    layout_map: &PathMap,
    sources: &PathMap,
    component_refs: &PathMap,
) -> (r: Vec<String>)
    requires
        values_nonempty(layout_map@),
    ensures
        strings_view(r@) == page_refs_of(page@, layout_map@, sources@, component_refs@),
{
    let key = crate::discover::path_components_of(chars_of(page.relative_path.as_str()).as_slice());
    let mut used = match component_refs.get(&key) {
        Some(v) => v,
        None => {
            let v: Vec<String> = Vec::new();
            proof {
                assert(strings_view(v@) =~= Seq::<Seq<char>>::empty());
            }
            v
        },
    };
    match find_layout_for_page(page, layout_map) {
        Some(segs) => {
            proof {
                lemma_find_layout_value(layout_map@, parent_components(page.relative_path@));
            }
            let ghost sv = strings_view(segs@);
            let n = segs.len();
            let dir_path = path_of_segments_exec(vstd::slice::slice_subrange(segs.as_slice(), 0, n - 1));
            proof {
                assert(strings_view(segs@.subrange(0, n - 1)) =~= sv.drop_last());
            }
            let dir = crate::discover::path_components_of(dir_path.as_slice());
            match sources.get(&dir) {
                Some(layout_rel) => match component_refs.get(&layout_rel) {
                    Some(more) => {
                        let ghost u0 = strings_view(used@);
                        let ghost mv = strings_view(more@);
                        let mut i: usize = 0;
                        proof {
                            assert(mv.take(0) =~= Seq::<Seq<char>>::empty());
                        }
                        while i < more.len()
                            invariant
                                i <= more@.len(),
                                mv == strings_view(more@),
                                mv.len() == more@.len(),
                                strings_view(used@) == append_new(u0, mv.take(i as int)),
                            decreases more@.len() - i,
                        {
                            proof {
                                assert(mv.take(i + 1).drop_last() =~= mv.take(i as int));
                                assert(mv.take(i + 1).last() == more@[i as int]@);
                            }
                            if !contains_string(&used, &more[i]) {
                                let c = more[i].clone();
                                proof {
                                    crate::text::lemma_strings_view_push(used@, c);
                                }
                                used.push(c);
                            }
                            i = i + 1;
                        }
                        proof {
                            assert(mv.take(i as int) =~= mv);
                        }
                    },
                    None => {},
                },
                None => {},
            }
        },
        None => {},
    }
    used
}

/// The entries of one kind, in order.
pub open spec fn of_kind(entries: Seq<RouteEntryView>, k: RouteKind) -> Seq<RouteEntryView>
    decreases entries.len(),
{
    if entries.len() == 0 {
        Seq::empty()
    } else {
        let r = of_kind(entries.drop_last(), k);
        if entries.last().kind == k {
            r.push(entries.last())
        } else {
            r
        }
    }
}

/// The entries that are not components, in order.
pub open spec fn routes_of(entries: Seq<RouteEntryView>) -> Seq<RouteEntryView>
    decreases entries.len(),
{
    if entries.len() == 0 {
        Seq::empty()
    } else {
        let r = routes_of(entries.drop_last());
        if entries.last().kind != RouteKind::Component {
            r.push(entries.last())
        } else {
            r
        }
    }
}

/// The first error page whose URL is `/`.
pub open spec fn root_error_of(errors: Seq<RouteEntryView>) -> Option<RouteEntryView>
    decreases errors.len(),
{
    if errors.len() == 0 {
        None
    } else {
        match root_error_of(errors.drop_last()) {
            Some(e) => Some(e),
            None => if errors.last().url_path == "/"@ {
                Some(errors.last())
            } else {
                None
            },
        }
    }
}

/// The modules to write once every entry is compiled.
pub struct ModulePlan {
    /// The module tree of the routes (pages, layouts and error pages).
    pub mod_tree: ModTree,
    /// The text of `components/mod.rs`, when there are components.
    pub components_mod: Option<String>,
    /// The text of the top-level `mod.rs`.
    pub root_mod: String,
}

fn clone_entry(e: &RouteEntry) -> (r: RouteEntry)
    ensures
        r@ == e@,
{
    RouteEntry {
        source_path: e.source_path.clone(),
        relative_path: e.relative_path.clone(),
        url_path: e.url_path.clone(),
        module_segments: clone_strings(&e.module_segments),
        kind: e.kind,
        params: clone_strings(&e.params),
    }
}

pub open spec fn layouts_nonempty(entries: Seq<RouteEntryView>) -> bool {
    forall|i: int|
        0 <= i < entries.len() && (#[trigger] entries[i]).kind != RouteKind::Page
            ==> entries[i].module_segments.len() > 0
}

proof fn lemma_layout_map_values(layouts: Seq<RouteEntryView>)
    requires
        forall|i: int| 0 <= i < layouts.len() ==> (#[trigger] layouts[i]).module_segments.len() > 0,
    ensures
        values_nonempty(layout_map_of(layouts)),
    decreases layouts.len(),
{
    if layouts.len() > 0 {
        let pre = layouts.drop_last();
        assert forall|i: int| 0 <= i < pre.len() implies (#[trigger] pre[i]).module_segments.len() > 0 by {
            assert(pre[i] == layouts[i]);
        }
        lemma_layout_map_values(pre);
        assert(layouts.last() == layouts[layouts.len() - 1]);
    }
}

/// Plan the modules of a build: the route module tree, the components
/// module and the top-level module with the router. `component_refs` maps
/// each compiled entry's path to the component modules it references.
pub fn plan_modules(entries: &Vec<RouteEntry>, component_refs: &PathMap) -> (r: ModulePlan)
    requires
        layouts_nonempty(entries_view(entries@)),
    ensures
        ({
            let ev = entries_view(entries@);
            let pages = of_kind(ev, RouteKind::Page);
            let layouts = of_kind(ev, RouteKind::Layout);
            let layout_map = layout_map_of(layouts);
            let infos = component_infos_of(ev);
            &&& r.mod_tree@ == mod_tree_of(routes_of(ev))
            &&& opt_seq(r.components_mod) == if of_kind(ev, RouteKind::Component).len() > 0 {
                Some(components_mod_text(infos.map_values(|ci: ComponentInfoView| ci.module_name)))
            } else {
                None::<Seq<char>>
            }
            &&& r.root_mod@ == root_mod_text(
                pages,
                layout_map,
                root_error_of(of_kind(ev, RouteKind::Error)),
                infos.len() > 0,
                pages_refs_of(pages, layout_map, layout_sources_of(layouts), component_refs@),
            )
        }),
{
    let ghost ev = entries_view(entries@);
    let mut pages: Vec<&RouteEntry> = Vec::new();
    let mut layouts: Vec<&RouteEntry> = Vec::new();
    let mut errors: Vec<&RouteEntry> = Vec::new();
    let mut routes: Vec<RouteEntry> = Vec::new();
    let mut n_components: usize = 0;
    let mut i: usize = 0;
    proof {
        assert(ev.take(0) =~= Seq::<RouteEntryView>::empty());
        assert(refs_view(pages@) =~= Seq::<RouteEntryView>::empty());
        assert(refs_view(layouts@) =~= Seq::<RouteEntryView>::empty());
        assert(refs_view(errors@) =~= Seq::<RouteEntryView>::empty());
        assert(entries_view(routes@) =~= Seq::<RouteEntryView>::empty());
    }
    while i < entries.len()
        invariant
            i <= entries@.len(),
            ev == entries_view(entries@),
            ev.len() == entries@.len(),
            refs_view(pages@) == of_kind(ev.take(i as int), RouteKind::Page),
            refs_view(layouts@) == of_kind(ev.take(i as int), RouteKind::Layout),
            refs_view(errors@) == of_kind(ev.take(i as int), RouteKind::Error),
            entries_view(routes@) == routes_of(ev.take(i as int)),
            n_components as int == of_kind(ev.take(i as int), RouteKind::Component).len(),
            n_components <= i,
        decreases entries@.len() - i,
    {
        let e = &entries[i];
        proof {
            assert(ev.take(i + 1).drop_last() =~= ev.take(i as int));
            assert(ev.take(i + 1).last() == e@);
        }
        match e.kind {
            RouteKind::Page => {
                proof {
                    assert(refs_view(pages@.push(e)) =~= refs_view(pages@).push(e@));
                }
                pages.push(e);
            },
            RouteKind::Layout => {
                proof {
                    assert(refs_view(layouts@.push(e)) =~= refs_view(layouts@).push(e@));
                }
                layouts.push(e);
            },
            RouteKind::Error => {
                proof {
                    assert(refs_view(errors@.push(e)) =~= refs_view(errors@).push(e@));
                }
                errors.push(e);
            },
            RouteKind::Component => {
                n_components = n_components + 1;
            },
        }
        if e.kind != RouteKind::Component {
            let c = clone_entry(e);
            proof {
                assert(entries_view(routes@.push(c)) =~= entries_view(routes@).push(e@));
            }
            routes.push(c);
        }
        i = i + 1;
    }
    proof {
        assert(ev.take(i as int) =~= ev);
    }
    let mod_tree = build_mod_tree(routes.as_slice());
    proof {
        assert(routes@.map_values(|e: RouteEntry| e@) =~= entries_view(routes@));
    }
    proof {
        assert forall|i: int|
            0 <= i < entries@.len() && (#[trigger] entries@[i]).kind == RouteKind::Component
                implies entries@[i].module_segments@.len() > 0 by {
            assert(ev[i] == entries@[i]@);
        }
    }
    let infos = component_infos(entries);
    let components_mod = if n_components > 0 {
        Some(components_mod(&infos))
    } else {
        None
    };
    proof {
        assert(infos_modules(infos@) =~= infos_view(infos@).map_values(
            |ci: ComponentInfoView| ci.module_name,
        ));
    }
    let layout_map = build_layout_map(layouts.as_slice());
    proof {
        let lv = refs_view(layouts@);
        assert forall|k: int| 0 <= k < lv.len() implies (#[trigger] lv[k]).module_segments.len() > 0 by {
            lemma_of_kind_member(ev, RouteKind::Layout, k);
            let j = choose|j: int| 0 <= j < ev.len() && ev[j] == of_kind(ev, RouteKind::Layout)[k];
            assert(ev[j].kind != RouteKind::Page);
        }
        lemma_layout_map_values(lv);
    }
    let mut sources = PathMap::new();
    let mut k: usize = 0;
    let ghost lv = refs_view(layouts@);
    proof {
        assert(lv.take(0) =~= Seq::<RouteEntryView>::empty());
    }
    while k < layouts.len()
        invariant
            k <= layouts@.len(),
            lv == refs_view(layouts@),
            lv.len() == layouts@.len(),
            sources@ == layout_sources_of(lv.take(k as int)),
        decreases layouts@.len() - k,
    {
        let l = layouts[k];
        proof {
            assert(lv.take(k + 1).drop_last() =~= lv.take(k as int));
            assert(lv.take(k + 1).last() == l@);
        }
        let dir = parent_components_exec(l.relative_path.as_str());
        let rel = crate::discover::path_components_of(chars_of(l.relative_path.as_str()).as_slice());
        sources.insert(dir, rel);
        k = k + 1;
    }
    proof {
        assert(lv.take(k as int) =~= lv);
    }
    let mut page_component_refs = PathMap::new();
    let ghost pv = refs_view(pages@);
    let mut j: usize = 0;
    proof {
        assert(pv.take(0) =~= Seq::<RouteEntryView>::empty());
    }
    while j < pages.len()
        invariant
            j <= pages@.len(),
            pv == refs_view(pages@),
            pv.len() == pages@.len(),
            values_nonempty(layout_map@),
            page_component_refs@ == pages_refs_of(pv.take(j as int), layout_map@, sources@, component_refs@),
        decreases pages@.len() - j,
    {
        let page = pages[j];
        proof {
            assert(pv.take(j + 1).drop_last() =~= pv.take(j as int));
            assert(pv.take(j + 1).last() == page@);
        }
        let used = page_refs(page, &layout_map, &sources, component_refs);
        if used.len() > 0 {
            let key = crate::discover::path_components_of(chars_of(page.relative_path.as_str()).as_slice());
            page_component_refs.insert(key, used);
        }
        j = j + 1;
    }
    proof {
        assert(pv.take(j as int) =~= pv);
    }
    let mut root_error: Option<&RouteEntry> = None;
    let ghost erv = refs_view(errors@);
    let mut m: usize = 0;
    proof {
        assert(erv.take(0) =~= Seq::<RouteEntryView>::empty());
    }
    while m < errors.len()
        invariant
            m <= errors@.len(),
            erv == refs_view(errors@),
            erv.len() == errors@.len(),
            root_error_of(erv.take(m as int)) == match root_error {
                Some(e) => Some(e@),
                None => None::<RouteEntryView>,
            },
        decreases errors@.len() - m,
    {
        let e = errors[m];
        proof {
            assert(erv.take(m + 1).drop_last() =~= erv.take(m as int));
            assert(erv.take(m + 1).last() == e@);
        }
        if root_error.is_none() && chars_eq(chars_of(e.url_path.as_str()).as_slice(), chars_of("/").as_slice()) {
            root_error = Some(e);
        }
        m = m + 1;
    }
    proof {
        assert(erv.take(m as int) =~= erv);
    }
    let root_mod = emit_root_mod(
        pages.as_slice(),
        &layout_map,
        root_error,
        infos.len() > 0,
        &page_component_refs,
    );
    ModulePlan { mod_tree, components_mod, root_mod }
}

/// The entries of a kind are entries of the list.
proof fn lemma_of_kind_member(entries: Seq<RouteEntryView>, k: RouteKind, i: int)
    requires
        0 <= i < of_kind(entries, k).len(),
    ensures
        exists|j: int| 0 <= j < entries.len() && entries[j] == of_kind(entries, k)[i],
        of_kind(entries, k)[i].kind == k,
    decreases entries.len(),
{
    let pre = entries.drop_last();
    if i < of_kind(pre, k).len() {
        lemma_of_kind_member(pre, k, i);
        let j = choose|j: int| 0 <= j < pre.len() && pre[j] == of_kind(pre, k)[i];
        assert(entries[j] == pre[j]);
    } else {
        assert(entries[entries.len() - 1] == entries.last());
    }
}

// ---------------------------------------------------------------------------
// Component imports of a compiled module
// ---------------------------------------------------------------------------

/// The components whose render call `Alias::render()` occurs in `code`, in order.
pub open spec fn referenced_infos(code: Seq<char>, infos: Seq<ComponentInfoView>) -> Seq<
    ComponentInfoView,
>
    decreases infos.len(),
{
    if infos.len() == 0 {
        Seq::empty()
    } else {
        let r = referenced_infos(code, infos.drop_last());
        if crate::text::find(code, infos.last().alias + "::render()"@) is Some {
            r.push(infos.last())
        } else {
            r
        }
    }
}

/// `super::` repeated `n` times.
pub open spec fn supers(n: nat) -> Seq<char>
    decreases n,
{
    if n == 0 {
        Seq::empty()
    } else {
        supers((n - 1) as nat) + "super::"@
    }
}

/// One `use` line per referenced component.
pub open spec fn import_lines(refd: Seq<ComponentInfoView>, sup: Seq<char>) -> Seq<char>
    decreases refd.len(),
{
    if refd.len() == 0 {
        Seq::empty()
    } else {
        let ci = refd.last();
        import_lines(refd.drop_last(), sup) + "use "@ + sup + "components::"@ + ci.module_name + " as "@
            + ci.alias + ";\n"@
    }
}

/// The imports put before a module at depth `depth` (its number of module
/// segments): nothing when it references no component; else a `use` line
/// per referenced component, reaching the root with one `super::` more than
/// the depth, and a blank line.
pub open spec fn imports_text(code: Seq<char>, infos: Seq<ComponentInfoView>, depth: nat) -> Seq<char> {
    let refd = referenced_infos(code, infos);
    if refd.len() == 0 {
        Seq::empty()
    } else {
        import_lines(refd, supers(depth + 1)) + "\n"@
    }
}

/// The `use` imports a compiled module needs for the components it
/// renders, and those components' module names.
pub fn component_imports(code: &str, infos: &Vec<ComponentInfo>, depth: usize) -> (r: (String, Vec<String>))
    ensures
        r.0@ == imports_text(code@, infos_view(infos@), depth as nat),
        strings_view(r.1@) == referenced_infos(code@, infos_view(infos@)).map_values(
            |ci: ComponentInfoView| ci.module_name,
        ),
{
    let cs = chars_of(code);
    let ghost iv = infos_view(infos@);
    let mut refd: Vec<&ComponentInfo> = Vec::new();
    let mut i: usize = 0;
    proof {
        assert(iv.take(0) =~= Seq::<ComponentInfoView>::empty());
        assert(refd@.map_values(|ci: &ComponentInfo| ci@) =~= Seq::<ComponentInfoView>::empty());
    }
    while i < infos.len()
        invariant
            i <= infos@.len(),
            iv == infos_view(infos@),
            iv.len() == infos@.len(),
            cs@ == code@,
            refd@.map_values(|ci: &ComponentInfo| ci@) == referenced_infos(code@, iv.take(i as int)),
        decreases infos@.len() - i,
    {
        let ci = &infos[i];
        proof {
            assert(iv.take(i + 1).drop_last() =~= iv.take(i as int));
            assert(iv.take(i + 1).last() == ci@);
        }
        let call = concat_chars(chars_of(ci.alias.as_str()).as_slice(), chars_of("::render()").as_slice());
        if crate::text::find_exec(cs.as_slice(), call.as_slice(), 0).is_some() {
            proof {
                assert(refd@.push(ci).map_values(|c: &ComponentInfo| c@) =~= refd@.map_values(
                    |c: &ComponentInfo| c@,
                ).push(ci@));
            }
            refd.push(ci);
        }
        i = i + 1;
    }
    proof {
        assert(iv.take(i as int) =~= iv);
    }
    let ghost rv = refd@.map_values(|ci: &ComponentInfo| ci@);
    let mut names: Vec<String> = Vec::new();
    let mut buf: Vec<char> = Vec::new();
    let mut sup: Vec<char> = chars_of("super::");
    let mut d: usize = 0;
    proof {
        assert(supers(1) == supers(0) + "super::"@);
        assert(sup@ =~= supers(1));
    }
    while d < depth
        invariant
            d <= depth,
            sup@ == supers(d as nat + 1),
        decreases depth - d,
    {
        sup = concat_chars(sup.as_slice(), chars_of("super::").as_slice());
        d = d + 1;
    }
    let sup_str = string_from(sup.as_slice());
    let mut j: usize = 0;
    proof {
        assert(rv.take(0) =~= Seq::<ComponentInfoView>::empty());
        assert(strings_view(names@) =~= Seq::<Seq<char>>::empty());
        assert(rv.len() == refd@.len());
    }
    while j < refd.len()
        invariant
            j <= refd@.len(),
            rv == refd@.map_values(|ci: &ComponentInfo| ci@),
            rv.len() == refd@.len(),
            sup_str@ == supers(depth as nat + 1),
            buf@ == import_lines(rv.take(j as int), sup_str@),
            strings_view(names@) == rv.take(j as int).map_values(|ci: ComponentInfoView| ci.module_name),
        decreases refd@.len() - j,
    {
        let ci = refd[j];
        proof {
            assert(rv.take(j + 1).drop_last() =~= rv.take(j as int));
            assert(rv.take(j + 1).last() == ci@);
        }
        push_str(&mut buf, "use ");
        push_str(&mut buf, sup_str.as_str());
        push_str(&mut buf, "components::");
        push_str(&mut buf, ci.module_name.as_str());
        push_str(&mut buf, " as ");
        push_str(&mut buf, ci.alias.as_str());
        push_str(&mut buf, ";\n");
        let c = ci.module_name.clone();
        proof {
            crate::text::lemma_strings_view_push(names@, c);
            assert(rv.take(j + 1).map_values(|ci: ComponentInfoView| ci.module_name) =~= rv.take(
                j as int,
            ).map_values(|ci: ComponentInfoView| ci.module_name).push(ci@.module_name));
        }
        names.push(c);
        proof {
            assert(buf@ =~= import_lines(rv.take(j + 1), sup_str@));
        }
        j = j + 1;
    }
    proof {
        assert(rv.take(j as int) =~= rv);
    }
    if refd.len() > 0 {
        push_str(&mut buf, "\n");
    } else {
        proof {
            assert(buf@ =~= Seq::<char>::empty());
        }
    }
    (string_from(buf.as_slice()), names)
}

/// The file name of a module: its leaf segment (lower-cased for
/// components) with the `.rs` extension.
pub fn module_file_name(leaf: &str, lowercase_leaf: bool) -> (r: String)
    ensures
        r@ == (if lowercase_leaf {
            lower_of(leaf@)
        } else {
            leaf@
        }) + ".rs"@,
{
    let base = if lowercase_leaf {
        str_to_lower(leaf)
    } else {
        string_from(chars_of(leaf).as_slice())
    };
    string_from(concat_chars(chars_of(base.as_str()).as_slice(), chars_of(".rs").as_slice()).as_slice())
}

} // verus!

verus! {

/// The router line of one page: its URL routed to its handler.
pub open spec fn route_line(p: RouteEntryView) -> Seq<char> {
    "    .route(\""@ + p.url_path + "\", axum::routing::get("@ + handler_name_of(p.module_segments) + "))\n"@
}

/// The router's fallback line, present exactly when there is a root error page.
pub open spec fn fallback_line(root_error: Option<RouteEntryView>) -> Seq<char> {
    if root_error is Some {
        "    .fallback(__fallback)\n"@
    } else {
        Seq::empty()
    }
}

proof fn lemma_route_lines_flat(pages: Seq<RouteEntryView>)
    ensures
        route_lines(pages) == pages.map_values(|p: RouteEntryView| route_line(p)).flatten_alt(),
    decreases pages.len(),
{
    if pages.len() > 0 {
        lemma_route_lines_flat(pages.drop_last());
        let f = |p: RouteEntryView| route_line(p);
        assert(pages.map_values(f).drop_last() =~= pages.drop_last().map_values(f));
        assert(route_lines(pages) =~= route_lines(pages.drop_last()) + route_line(pages.last()));
    } else {
        assert(pages.map_values(|p: RouteEntryView| route_line(p)) =~= Seq::<Seq<char>>::empty());
    }
}

/// Law: the router of the root module has one `.route(...)` line per page,
/// in page order, followed by the fallback line exactly when there is a
/// root error page; the page handlers follow, then the fallback handler
/// when there is a root error page.
pub proof fn lemma_root_mod_routes(
    pages: Seq<RouteEntryView>,
    layouts: Map<Seq<Seq<char>>, Seq<Seq<char>>>,
    root_error: Option<RouteEntryView>,
    has_components: bool,
    refs: Map<Seq<Seq<char>>, Seq<Seq<char>>>,
)
    ensures
        ({
            let head = file_header() + "pub mod routes;\nmod shell;\n"@ + (if has_components {
                "pub mod components;\n"@
            } else {
                Seq::empty()
            }) + "\n"@ + "/// Build an [`axum::Router`] with all discovered routes.\n"@
                + "pub fn router() -> axum::Router {\n"@ + "  axum::Router::new()\n"@;
            let tail = match root_error {
                Some(e) => fallback_block(e),
                None => Seq::empty(),
            };
            root_mod_text(pages, layouts, root_error, has_components, refs) == head + pages.map_values(
                |p: RouteEntryView| route_line(p),
            ).flatten() + fallback_line(root_error) + "}\n"@ + page_blocks(pages, layouts, refs) + tail
        }),
{
    lemma_route_lines_flat(pages);
    pages.map_values(|p: RouteEntryView| route_line(p)).lemma_flatten_and_flatten_alt_are_equivalent();
}

} // verus!
