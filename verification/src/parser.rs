//! Top-level `.trs` parsing: `<script setup>`, `<script>`, `<style>` blocks
//! and the template fragments between them.

use vstd::prelude::*;

use crate::template::template_nodes;
use crate::template::spec_parse_template;
use crate::template::{lit_close_expr, lit_open_expr, split_interpolations};
use crate::text::bpos;
use crate::text::byte_offsets;
use crate::text::chars_of;
use crate::text::concat_chars;
use crate::text::find;
use crate::text::find_char_exec;
use crate::text::find_char_from;
use crate::text::find_exec;
use crate::text::find_from;
use crate::text::is_ascii_space;
use crate::text::is_ascii_space_char;
use crate::text::is_tag_space;
use crate::text::is_tag_space_char;
use crate::text::lead_len;
use crate::text::lemma_bpos_mono;
use crate::text::lemma_find_char_props;
use crate::text::lemma_find_from_props;
use crate::text::lemma_skip_space_back_bounds;
use crate::text::lemma_skip_space_bounds;
use crate::text::lemma_utf8_len_subrange;
use crate::text::matches_at;
use crate::text::matches_at_exec;
use crate::text::skip_space_back_exec;
use crate::text::skip_space_exec;
use crate::text::str_byte_len;
use crate::text::string_from;
use crate::text::trim;
use crate::text::trimmed;
use crate::text::utf8_len;
use crate::types::mk_span;
use crate::types::ParseError;
use crate::types::ParseErrorView;
use crate::types::ScriptBlock;
use crate::types::ScriptBlockView;
use crate::types::Span;
use crate::types::StyleBlock;
use crate::types::StyleBlockView;
use crate::types::TemplateFragment;
use crate::types::TemplateNodeView;
use crate::types::ThebeAst;
use crate::types::ThebeAstView;

verus! {

/// The kind of a top-level block.
#[derive(Debug, Clone, Copy, PartialEq, Eq, Structural)]
pub enum BlockKind {
    ScriptSetup,
    Script,
    Style,
}

pub open spec fn close_tag_of(k: BlockKind) -> Seq<char> {
    match k {
        BlockKind::ScriptSetup | BlockKind::Script => "</script>"@,
        BlockKind::Style => "</style>"@,
    }
}

impl BlockKind {
    /// The closing tag that ends a block of this kind.
    pub fn close_tag(self) -> (r: Vec<char>)
        ensures
            r@ == close_tag_of(self),
    {
        match self {
            BlockKind::ScriptSetup | BlockKind::Script => chars_of("</script>"),
            BlockKind::Style => chars_of("</style>"),
        }
    }
}

/// The character at `i` ends a tag name: `>`, tag whitespace, or end of input.
pub open spec fn is_tag_boundary(s: Seq<char>, i: int) -> bool {
    i >= s.len() || s[i] == '>' || is_tag_space(s[i])
}

/// The recognised opening tag name at `lt + 1`, in the order
/// `script setup`, `script`, `style`.
pub open spec fn tag_candidate(s: Seq<char>, lt: int) -> Option<(BlockKind, Seq<char>)> {
    if matches_at(s, "script setup"@, lt + 1) && is_tag_boundary(s, lt + 1 + "script setup"@.len()) {
        Some((BlockKind::ScriptSetup, "script setup"@))
    } else if matches_at(s, "script"@, lt + 1) && is_tag_boundary(s, lt + 1 + "script"@.len()) {
        Some((BlockKind::Script, "script"@))
    } else if matches_at(s, "style"@, lt + 1) && is_tag_boundary(s, lt + 1 + "style"@.len()) {
        Some((BlockKind::Style, "style"@))
    } else {
        None
    }
}

/// A recognised opening tag at `lt` (where `s[lt] == '<'`): its kind and the
/// index after its `>`. A recognised name with no later `>` matches nothing.
pub open spec fn spec_try_match_tag(s: Seq<char>, lt: int) -> Option<(BlockKind, int)> {
    match tag_candidate(s, lt) {
        None => None,
        Some((kind, _name)) => match find_char_from(s, '>', lt) {
            None => None,
            Some(g) => Some((kind, g + 1)),
        },
    }
}

/// The earliest recognised opening tag at or after `p`:
/// `(kind, index of '<', index after '>')`.
pub open spec fn spec_find_next_block(s: Seq<char>, p: int) -> Option<(BlockKind, int, int)>
    decreases s.len() - p,
{
    if p < 0 {
        None
    } else {
        match find_char_from(s, '<', p) {
            None => None,
            Some(lt) => match spec_try_match_tag(s, lt) {
                Some((kind, te)) => Some((kind, lt, te)),
                None => {
                    proof {
                        lemma_find_char_props(s, '<', p);
                    }
                    spec_find_next_block(s, lt + 1)
                },
            },
        }
    }
}

pub proof fn lemma_find_next_block(s: Seq<char>, p: int)
    requires
        0 <= p,
    ensures
        spec_find_next_block(s, p) matches Some((k, ts, te)) ==> p <= ts < te <= s.len() && s[ts]
            == '<',
    decreases s.len() - p,
{
    lemma_find_char_props(s, '<', p);
    match find_char_from(s, '<', p) {
        None => {},
        Some(lt) => {
            match spec_try_match_tag(s, lt) {
                Some((kind, te)) => {
                    lemma_find_char_props(s, '>', lt);
                },
                None => {
                    lemma_find_next_block(s, lt + 1);
                },
            }
        },
    }
}

/// Net HTML tag depth of `t[p..]` starting from depth `d`: opening tags
/// count +1, closing tags -1, self-closing tags, comments and doctypes 0.
pub open spec fn depth_from(t: Seq<char>, p: int, d: int) -> int
    decreases t.len() - p,
{
    if p < 0 || p >= t.len() {
        d
    } else {
        match find_char_from(t, '<', p) {
            None => d,
            Some(a) => {
                proof {
                    lemma_find_char_props(t, '<', p);
                    lemma_find_char_props(t, '>', a);
                }
                if matches_at(t, "</"@, a) || matches_at(t, "<!"@, a) {
                    let d2 = if matches_at(t, "</"@, a) {
                        d - 1
                    } else {
                        d
                    };
                    match find_char_from(t, '>', a) {
                        Some(g) => depth_from(t, g + 1, d2),
                        None => d2,
                    }
                } else {
                    match find_char_from(t, '>', a) {
                        Some(g) => depth_from(
                            t,
                            g + 1,
                            if t[g - 1] == '/' {
                                d
                            } else {
                                d + 1
                            },
                        ),
                        None => depth_from(t, a + 1, d),
                    }
                }
            },
        }
    }
}

pub open spec fn spec_html_tag_depth(t: Seq<char>) -> int {
    depth_from(t, 0, 0)
}

/// The index of the first `<script` at or after `p` in `t` that is
/// followed by a tag boundary.
pub open spec fn script_tag_from(t: Seq<char>, p: int) -> Option<int>
    decreases t.len() - p,
{
    if p < 0 || p >= t.len() {
        None
    } else {
        match find_from(t, "<script"@, p) {
            None => None,
            Some(a) => {
                proof {
                    lemma_find_from_props(t, "<script"@, p);
                }
                if is_tag_boundary(t, a + 7) {
                    Some(a)
                } else {
                    script_tag_from(t, a + 1)
                }
            },
        }
    }
}

/// The index of the first `<script` tag in `t`, if any.
pub open spec fn spec_script_tag_pos(t: Seq<char>) -> Option<int> {
    script_tag_from(t, 0)
}

proof fn lemma_script_tag_from_bounds(t: Seq<char>, p: int)
    ensures
        script_tag_from(t, p) matches Some(k) ==> 0 <= p <= k && k + 7 <= t.len() && matches_at(
            t,
            "<script"@,
            k,
        ),
    decreases t.len() - p,
{
    if 0 <= p < t.len() {
        lemma_find_from_props(t, "<script"@, p);
        reveal_strlit("<script");
        match find_from(t, "<script"@, p) {
            None => {},
            Some(a) => {
                if !is_tag_boundary(t, a + 7) {
                    lemma_script_tag_from_bounds(t, a + 1);
                }
            },
        }
    }
}

/// The value of `name="value"` in an opening tag.
pub open spec fn spec_extract_attr(tag: Seq<char>, name: Seq<char>) -> Option<Seq<char>> {
    let needle = name + "=\""@;
    match find(tag, needle) {
        None => None,
        Some(k) => {
            let start = k + needle.len();
            match find_char_from(tag, '"', start) {
                None => None,
                Some(e) => Some(tag.subrange(start, e)),
            }
        },
    }
}

/// `name` occurs in `tag` at or after `p` preceded by ASCII whitespace and
/// followed by ASCII whitespace, `>`, `/`, `=` or the end.
pub open spec fn bool_attr_from(tag: Seq<char>, name: Seq<char>, p: int) -> bool
    decreases tag.len() + 1 - p,
{
    if p < 0 || p > tag.len() {
        false
    } else {
        match find_from(tag, name, p) {
            None => false,
            Some(a) => {
                let before_ok = a > 0 && is_ascii_space(tag[a - 1]);
                let after = a + name.len();
                let after_ok = after >= tag.len() || is_ascii_space(tag[after]) || tag[after] == '>'
                    || tag[after] == '/' || tag[after] == '=';
                if before_ok && after_ok {
                    true
                } else {
                    proof {
                        lemma_find_from_props(tag, name, p);
                    }
                    bool_attr_from(tag, name, a + 1)
                }
            },
        }
    }
}

pub open spec fn spec_has_bool_attr(tag: Seq<char>, name: Seq<char>) -> bool {
    bool_attr_from(tag, name, 0)
}

/// The template fragment `s[a..b]` appended to `frags`: nothing when it is
/// blank; an error when it holds a `<script` tag; else its template nodes,
/// with spans based at its first non-blank character.
pub open spec fn spec_push_fragment(
    frags: Seq<Seq<TemplateNodeView>>,
    s: Seq<char>,
    a: int,
    b: int,
) -> Result<Seq<Seq<TemplateNodeView>>, ParseErrorView> {
    let raw = s.subrange(a, b);
    let trimmed = trim(raw);
    if trimmed.len() == 0 {
        Ok(frags)
    } else if let Some(k) = spec_script_tag_pos(trimmed) {
        let at = a + lead_len(raw) + k;
        Err(ParseErrorView::NestedScript { span: mk_span(bpos(s, 0, at), bpos(s, 0, at + 7)) })
    } else {
        match spec_parse_template(trimmed, bpos(s, 0, a + lead_len(raw))) {
            Err(e) => Err(e),
            Ok(nodes) => Ok(frags.push(nodes)),
        }
    }
}

/// A script block preceded by template text with unclosed HTML tags is nested.
pub open spec fn spec_check_nested(kind: BlockKind, before: Seq<char>, span: Span) -> Option<ParseErrorView> {
    if (kind == BlockKind::Script || kind == BlockKind::ScriptSetup) && before.len() > 0
        && spec_html_tag_depth(before) > 0 {
        Some(ParseErrorView::NestedScript { span })
    } else {
        None
    }
}

pub open spec fn with_template(ast: ThebeAstView, t: Seq<Seq<TemplateNodeView>>) -> ThebeAstView {
    ThebeAstView { script_setup: ast.script_setup, script: ast.script, styles: ast.styles, template: t }
}

/// The rest of the parse from character index `pos`, given the blocks and
/// fragments found so far in `ast`.
pub open spec fn parse_from(s: Seq<char>, pos: int, ast: ThebeAstView) -> Result<ThebeAstView, ParseErrorView>
    decreases s.len() - pos,
{
    if pos < 0 || pos >= s.len() {
        Ok(ast)
    } else {
        match spec_find_next_block(s, pos) {
            None => match spec_push_fragment(ast.template, s, pos, s.len() as int) {
                Err(e) => Err(e),
                Ok(t) => Ok(with_template(ast, t)),
            },
            Some((kind, ts, te)) => {
                let at = bpos(s, 0, ts);
                match spec_check_nested(kind, trim(s.subrange(pos, ts)), mk_span(at, at)) {
                    Some(e) => Err(e),
                    None => match spec_push_fragment(ast.template, s, pos, ts) {
                        Err(e) => Err(e),
                        Ok(t) => {
                            let open_tag = s.subrange(ts, te);
                            let close = close_tag_of(kind);
                            match find_from(s, close, te) {
                                None => Err(
                                    ParseErrorView::MalformedTag {
                                        detail: "unclosed "@ + open_tag,
                                        span: mk_span(at, bpos(s, 0, te)),
                                    },
                                ),
                                Some(c) => {
                                    proof {
                                        lemma_find_next_block(s, pos);
                                        lemma_find_from_props(s, close, te);
                                    }
                                    let end = c + close.len();
                                    let span = mk_span(at, bpos(s, 0, end));
                                    let content = trim(s.subrange(te, c));
                                    let ast1 = with_template(ast, t);
                                    match kind {
                                        BlockKind::ScriptSetup => if ast1.script_setup is Some {
                                            Err(ParseErrorView::DuplicateScriptSetup { span })
                                        } else if spec_extract_attr(open_tag, "lang"@) is Some {
                                            Err(ParseErrorView::InvalidSetupLang { span: mk_span(at, bpos(s, 0, te)) })
                                        } else {
                                            parse_from(
                                                s,
                                                end,
                                                ThebeAstView {
                                                    script_setup: Some(
                                                        ScriptBlockView { content, lang: None, span },
                                                    ),
                                                    script: ast1.script,
                                                    styles: ast1.styles,
                                                    template: ast1.template,
                                                },
                                            )
                                        },
                                        BlockKind::Script => if ast1.script is Some {
                                            Err(ParseErrorView::DuplicateScript { span })
                                        } else {
                                            match spec_extract_attr(open_tag, "lang"@) {
                                                None => Err(ParseErrorView::MissingScriptLang { span: mk_span(at, bpos(s, 0, te)) }),
                                                Some(l) => parse_from(
                                                    s,
                                                    end,
                                                    ThebeAstView {
                                                        script_setup: ast1.script_setup,
                                                        script: Some(
                                                            ScriptBlockView { content, lang: Some(l), span },
                                                        ),
                                                        styles: ast1.styles,
                                                        template: ast1.template,
                                                    },
                                                ),
                                            }
                                        },
                                        BlockKind::Style => parse_from(
                                            s,
                                            end,
                                            ThebeAstView {
                                                script_setup: ast1.script_setup,
                                                script: ast1.script,
                                                styles: ast1.styles.push(
                                                    StyleBlockView {
                                                        content,
                                                        scoped: spec_has_bool_attr(open_tag, "scoped"@),
                                                        lang: spec_extract_attr(open_tag, "lang"@),
                                                        span,
                                                    },
                                                ),
                                                template: ast1.template,
                                            },
                                        ),
                                    }
                                },
                            }
                        },
                    },
                }
            },
        }
    }
}

pub open spec fn empty_ast() -> ThebeAstView {
    ThebeAstView { script_setup: None, script: None, styles: Seq::empty(), template: Seq::empty() }
}

/// The AST of a `.trs` file with characters `s`.
///
/// Blank input is [`ParseError::EmptyInput`]. Otherwise the input is read
/// left to right: each recognised opening tag (`<script setup>`,
/// `<script ...>`, `<style ...>`) starts a block that runs to the first
/// matching closing tag; the text between blocks becomes template
/// fragments. A second `<script setup>` or `<script>` is an error, as is
/// `lang` on `<script setup>`, a `<script>` without `lang`, a block
/// without a closing tag, and a `<script>` tag inside template content.
pub open spec fn spec_parse(s: Seq<char>) -> Result<ThebeAstView, ParseErrorView> {
    if trim(s).len() == 0 {
        Err(ParseErrorView::EmptyInput)
    } else {
        parse_from(s, 0, empty_ast())
    }
}

proof fn lemma_split_never_empty_input(s: Seq<char>, base: int, pos: int, acc: Seq<TemplateNodeView>)
    ensures
        split_interpolations(s, base, pos, acc) != Err::<Seq<TemplateNodeView>, ParseErrorView>(
            ParseErrorView::EmptyInput,
        ),
    decreases s.len() - pos,
{
    if 0 <= pos < s.len() {
        match find_from(s, lit_open_expr(), pos) {
            None => {},
            Some(k) => {
                lemma_find_from_props(s, lit_open_expr(), pos);
                match find_from(s, lit_close_expr(), k + 2) {
                    None => {},
                    Some(c) => {
                        lemma_find_from_props(s, lit_close_expr(), k + 2);
                        let acc1 = if k > pos {
                            acc.push(TemplateNodeView::Text(s.subrange(pos, k)))
                        } else {
                            acc
                        };
                        lemma_split_never_empty_input(
                            s,
                            base,
                            c + 2,
                            acc1.push(
                                TemplateNodeView::Expr {
                                    expr: trim(s.subrange(k + 2, c)),
                                    span: mk_span(bpos(s, base, k), bpos(s, base, c + 2)),
                                },
                            ),
                        );
                    },
                }
            },
        }
    }
}

proof fn lemma_parse_from_never_empty_input(s: Seq<char>, pos: int, ast: ThebeAstView)
    ensures
        parse_from(s, pos, ast) != Err::<ThebeAstView, ParseErrorView>(ParseErrorView::EmptyInput),
    decreases s.len() - pos,
{
    if 0 <= pos < s.len() {
        lemma_find_next_block(s, pos);
        match spec_find_next_block(s, pos) {
            None => {
                let raw = s.subrange(pos, s.len() as int);
                lemma_split_never_empty_input(trim(raw), bpos(s, 0, pos + lead_len(raw)), 0, Seq::empty());
            },
            Some((kind, ts, te)) => {
                let raw = s.subrange(pos, ts);
                lemma_split_never_empty_input(trim(raw), bpos(s, 0, pos + lead_len(raw)), 0, Seq::empty());
                let close = close_tag_of(kind);
                lemma_find_from_props(s, close, te);
                match find_from(s, close, te) {
                    None => {},
                    Some(c) => {
                        let end = c + close.len();
                        let at = bpos(s, 0, ts);
                        let span = mk_span(at, bpos(s, 0, end));
                        let open_tag = s.subrange(ts, te);
                        let content = trim(s.subrange(te, c));
                        match spec_push_fragment(ast.template, s, pos, ts) {
                            Err(_) => {},
                            Ok(t) => {
                                let ast1 = with_template(ast, t);
                                lemma_parse_from_never_empty_input(
                                    s,
                                    end,
                                    ThebeAstView {
                                        script_setup: Some(ScriptBlockView { content, lang: None, span }),
                                        script: ast1.script,
                                        styles: ast1.styles,
                                        template: ast1.template,
                                    },
                                );
                                match spec_extract_attr(open_tag, "lang"@) {
                                    Some(l) => lemma_parse_from_never_empty_input(
                                        s,
                                        end,
                                        ThebeAstView {
                                            script_setup: ast1.script_setup,
                                            script: Some(ScriptBlockView { content, lang: Some(l), span }),
                                            styles: ast1.styles,
                                            template: ast1.template,
                                        },
                                    ),
                                    None => {},
                                }
                                lemma_parse_from_never_empty_input(
                                    s,
                                    end,
                                    ThebeAstView {
                                        script_setup: ast1.script_setup,
                                        script: ast1.script,
                                        styles: ast1.styles.push(
                                            StyleBlockView {
                                                content,
                                                scoped: spec_has_bool_attr(open_tag, "scoped"@),
                                                lang: spec_extract_attr(open_tag, "lang"@),
                                                span,
                                            },
                                        ),
                                        template: ast1.template,
                                    },
                                );
                            },
                        }
                    },
                }
            },
        }
    }
}

/// Law: a file is refused as empty exactly when it is blank (empty or
/// whitespace only); no other input gives [`ParseError::EmptyInput`].
pub proof fn lemma_parse_empty_iff_blank(s: Seq<char>)
    ensures
        (spec_parse(s) == Err::<ThebeAstView, ParseErrorView>(ParseErrorView::EmptyInput)) <==> trim(
            s,
        ).len() == 0,
{
    lemma_parse_from_never_empty_input(s, 0, empty_ast());
}

} // verus!

verus! {

pub open spec fn frags_view(v: Seq<TemplateFragment>) -> Seq<Seq<TemplateNodeView>> {
    v.map_values(|f: TemplateFragment| f@)
}

pub open spec fn ast_result(r: Result<ThebeAst, ParseError>) -> Result<ThebeAstView, ParseErrorView> {
    match r {
        Ok(a) => Ok(a@),
        Err(e) => Err(e@),
    }
}

fn is_tag_boundary_exec(s: &[char], i: usize) -> (r: bool)
    ensures
        r == is_tag_boundary(s@, i as int),
{
    i >= s.len() || s[i] == '>' || is_tag_space_char(s[i])
}

/// Try to match the recognised tag names at `lt` (where `s[lt] == '<'`).
fn try_match_tag(s: &[char], lt: usize) -> (r: Option<(BlockKind, usize)>)
    requires
        lt < s@.len(),
    ensures
        match r {
            Some((k, te)) => spec_try_match_tag(s@, lt as int) == Some((k, te as int)),
            None => spec_try_match_tag(s@, lt as int) is None,
        },
{
    let _n = s.len();
    let setup = chars_of("script setup");
    let script = chars_of("script");
    let style = chars_of("style");
    proof {
        reveal_strlit("script setup");
        reveal_strlit("script");
        reveal_strlit("style");
    }
    let kind = if matches_at_exec(s, setup.as_slice(), lt + 1) && is_tag_boundary_exec(s, lt + 13) {
        BlockKind::ScriptSetup
    } else if matches_at_exec(s, script.as_slice(), lt + 1) && is_tag_boundary_exec(s, lt + 7) {
        BlockKind::Script
    } else if matches_at_exec(s, style.as_slice(), lt + 1) && is_tag_boundary_exec(s, lt + 6) {
        BlockKind::Style
    } else {
        return None;
    };
    match find_char_exec(s, '>', lt) {
        None => None,
        Some(g) => {
            proof {
                lemma_find_char_props(s@, '>', lt as int);
            }
            Some((kind, g + 1))
        },
    }
}

/// Find the earliest opening tag for a recognised block at or after `from`.
fn find_next_block(s: &[char], from: usize) -> (r: Option<(BlockKind, usize, usize)>)
    ensures
        match r {
            Some((k, ts, te)) => spec_find_next_block(s@, from as int) == Some((k, ts as int, te as int)),
            None => spec_find_next_block(s@, from as int) is None,
        },
{
    let n = s.len();
    let mut pos = from;
    loop
        invariant
            n == s@.len(),
            from <= pos,
            spec_find_next_block(s@, pos as int) == spec_find_next_block(s@, from as int),
        decreases s@.len() - pos,
    {
        match find_char_exec(s, '<', pos) {
            None => {
                return None;
            },
            Some(lt) => {
                proof {
                    lemma_find_char_props(s@, '<', pos as int);
                }
                match try_match_tag(s, lt) {
                    Some((k, te)) => {
                        return Some((k, lt, te));
                    },
                    None => {
                        pos = lt + 1;
                    },
                }
            },
        }
    }
}

/// Refuse a script block that follows template text (`before`, trimmed)
/// with unclosed HTML tags: such a block is nested in the template.
fn check_nested_script(kind: BlockKind, before: &[char], span: Span) -> (r: Result<(), ParseError>)
    ensures
        match r {
            Ok(_) => spec_check_nested(kind, before@, span) is None,
            Err(e) => spec_check_nested(kind, before@, span) == Some(e@),
        },
{
    if (kind == BlockKind::Script || kind == BlockKind::ScriptSetup) && before.len() > 0
        && html_tag_depth(before) > 0 {
        return Err(ParseError::NestedScript { span });
    }
    Ok(())
}

/// Net HTML tag depth of a text fragment.
fn html_tag_depth(text: &[char]) -> (r: i128)
    ensures
        r == spec_html_tag_depth(text@),
{
    let n = text.len();
    let close_open = chars_of("</");
    let bang_open = chars_of("<!");
    let mut depth: i128 = 0;
    let mut pos: usize = 0;
    while pos < n
        invariant
            n == text@.len(),
            pos <= n,
            -(pos as int) <= depth <= pos,
            close_open@ == "</"@,
            bang_open@ == "<!"@,
            depth_from(text@, pos as int, depth as int) == spec_html_tag_depth(text@),
        decreases n - pos,
    {
        match find_char_exec(text, '<', pos) {
            None => {
                return depth;
            },
            Some(abs) => {
                proof {
                    lemma_find_char_props(text@, '<', pos as int);
                    lemma_find_char_props(text@, '>', abs as int);
                }
                let is_close = matches_at_exec(text, close_open.as_slice(), abs);
                if is_close || matches_at_exec(text, bang_open.as_slice(), abs) {
                    if is_close {
                        depth = depth - 1;
                    }
                    match find_char_exec(text, '>', abs) {
                        Some(g) => {
                            pos = g + 1;
                        },
                        None => {
                            return depth;
                        },
                    }
                } else {
                    match find_char_exec(text, '>', abs) {
                        Some(g) => {
                            if text[g - 1] != '/' {
                                depth = depth + 1;
                            }
                            pos = g + 1;
                        },
                        None => {
                            pos = abs + 1;
                        },
                    }
                }
            },
        }
    }
    depth
}

/// The position of the first `<script` tag in `text` (followed by a tag
/// boundary), if any.
fn contains_script_tag(text: &[char]) -> (r: Option<usize>)
    ensures
        match r {
            Some(k) => spec_script_tag_pos(text@) == Some(k as int),
            None => spec_script_tag_pos(text@) is None,
        },
{
    let n = text.len();
    let pat = chars_of("<script");
    proof {
        reveal_strlit("<script");
    }
    let mut pos: usize = 0;
    while pos < n
        invariant
            n == text@.len(),
            pat@ == "<script"@,
            pat@.len() == 7,
            script_tag_from(text@, pos as int) == spec_script_tag_pos(text@),
        decreases n - pos,
    {
        match find_exec(text, pat.as_slice(), pos) {
            None => {
                return None;
            },
            Some(abs) => {
                proof {
                    lemma_find_from_props(text@, "<script"@, pos as int);
                }
                if is_tag_boundary_exec(text, abs + 7) {
                    return Some(abs);
                }
                pos = abs + 1;
            },
        }
    }
    None
}

/// Extract a `name="value"` attribute from an opening tag.
fn extract_attr(tag: &[char], name: &[char]) -> (r: Option<String>)
    ensures
        match r {
            Some(v) => spec_extract_attr(tag@, name@) == Some(v@),
            None => spec_extract_attr(tag@, name@) is None,
        },
{
    let _n = tag.len();
    let needle = concat_chars(name, chars_of("=\"").as_slice());
    match find_exec(tag, needle.as_slice(), 0) {
        None => None,
        Some(k) => {
            proof {
                lemma_find_from_props(tag@, needle@, 0);
            }
            let start = k + needle.len();
            match find_char_exec(tag, '"', start) {
                None => None,
                Some(e) => {
                    proof {
                        lemma_find_char_props(tag@, '"', start as int);
                    }
                    Some(crate::text::substring(tag, start, e))
                },
            }
        },
    }
}

/// Check if a tag contains a standalone boolean attribute `name`.
fn has_bool_attr(tag: &[char], name: &[char]) -> (r: bool)
    ensures
        r == spec_has_bool_attr(tag@, name@),
{
    let n = tag.len();
    let mut pos: usize = 0;
    loop
        invariant
            n == tag@.len(),
            pos <= n + 1,
            bool_attr_from(tag@, name@, pos as int) == spec_has_bool_attr(tag@, name@),
        decreases n + 1 - pos,
    {
        if pos > n {
            return false;
        }
        match find_exec(tag, name, pos) {
            None => {
                return false;
            },
            Some(abs) => {
                proof {
                    lemma_find_from_props(tag@, name@, pos as int);
                }
                let before_ok = abs > 0 && is_ascii_space_char(tag[abs - 1]);
                let after = abs + name.len();
                let after_ok = after >= n || is_ascii_space_char(tag[after]) || tag[after] == '>'
                    || tag[after] == '/' || tag[after] == '=';
                if before_ok && after_ok {
                    return true;
                }
                if abs >= n {
                    assert(!bool_attr_from(tag@, name@, abs + 1));
                    return false;
                }
                pos = abs + 1;
            },
        }
    }
}

pub proof fn lemma_frags_view_push(v: Seq<TemplateFragment>, x: TemplateFragment)
    ensures
        frags_view(v.push(x)) == frags_view(v).push(x@),
{
    assert(frags_view(v.push(x)) =~= frags_view(v).push(x@));
}

/// Push the template fragment `s[a..b]`, rejecting nested `<script>` tags
/// and splitting `{{ expr }}` interpolations.
fn push_template_fragment(
    fragments: &mut Vec<TemplateFragment>,
    s: &[char],
    offs: &[usize],
    a: usize,
    b: usize,
) -> (r: Result<(), ParseError>)
    requires
        a <= b <= s@.len(),
        crate::template::is_offsets(offs@, s@, 0),
    ensures
        match r {
            Ok(()) => spec_push_fragment(frags_view(old(fragments)@), s@, a as int, b as int) == Ok::<
                Seq<Seq<TemplateNodeView>>,
                ParseErrorView,
            >(frags_view(final(fragments)@)),
            Err(e) => spec_push_fragment(frags_view(old(fragments)@), s@, a as int, b as int) == Err::<
                Seq<Seq<TemplateNodeView>>,
                ParseErrorView,
            >(e@),
        },
{
    let raw = vstd::slice::slice_subrange(s, a, b);
    let i = skip_space_exec(raw, 0);
    let j = skip_space_back_exec(raw, raw.len());
    if i >= j {
        return Ok(());
    }
    proof {
        lemma_skip_space_bounds(raw@, 0);
        lemma_skip_space_back_bounds(raw@, raw@.len() as int);
    }
    let t = vstd::slice::slice_subrange(raw, i, j);
    if let Some(k) = contains_script_tag(t) {
        proof {
            lemma_script_tag_from_bounds(t@, 0);
            lemma_bpos_mono(s@, 0, (a + i + k + 7) as int, s@.len() as int);
        }
        return Err(ParseError::NestedScript { span: Span::new(offs[a + i + k], offs[a + i + k + 7]) });
    }
    let tbase = offs[a + i];
    proof {
        crate::text::lemma_bpos_subrange(s@, 0, a as int, b as int, i as int);
        lemma_utf8_len_subrange(s@, (a + i) as int, (a + j) as int);
        lemma_bpos_mono(s@, 0, (a + j) as int, s@.len() as int);
        assert(t@ =~= s@.subrange((a + i) as int, (a + j) as int));
    }
    let toffs = byte_offsets(t, tbase);
    let nodes = template_nodes(t, &toffs, Ghost(tbase as int))?;
    let frag = TemplateFragment { nodes };
    proof {
        lemma_frags_view_push(fragments@, frag);
    }
    fragments.push(frag);
    Ok(())
}

/// Parse a `.trs` file into a [`ThebeAst`].
///
/// Errors: [`ParseError::EmptyInput`] for blank input;
/// [`ParseError::DuplicateScriptSetup`] / [`ParseError::DuplicateScript`]
/// for a second block of either kind; [`ParseError::NestedScript`] for a
/// `<script>` tag inside template content; [`ParseError::MalformedTag`] for
/// a block with no closing tag; [`ParseError::InvalidSetupLang`] for `lang`
/// on `<script setup>`; [`ParseError::MissingScriptLang`] for `<script>`
/// without `lang`; [`ParseError::UnclosedInterpolation`] for `{{` without `}}`.
pub fn parse(input: &str) -> (r: Result<ThebeAst, ParseError>)
    ensures
        ast_result(r) == spec_parse(input@),
{
    let s_vec = chars_of(input);
    let s = s_vec.as_slice();
    let n = s.len();
    let _bytes = str_byte_len(input);
    let offs_vec = byte_offsets(s, 0);
    let offs = offs_vec.as_slice();
    let i0 = skip_space_exec(s, 0);
    let j0 = skip_space_back_exec(s, n);
    if i0 >= j0 {
        return Err(ParseError::EmptyInput);
    }
    proof {
        lemma_skip_space_bounds(s@, 0);
        lemma_skip_space_back_bounds(s@, s@.len() as int);
    }
    let mut ast = ThebeAst { script_setup: None, script: None, styles: Vec::new(), template: Vec::new() };
    proof {
        assert(ast@.styles =~= Seq::<StyleBlockView>::empty());
        assert(ast@.template =~= Seq::<Seq<TemplateNodeView>>::empty());
    }
    let lang = chars_of("lang");
    let scoped = chars_of("scoped");
    let mut pos: usize = 0;
    loop
        invariant
            n == s@.len(),
            s@ == input@,
            pos <= n,
            crate::template::is_offsets(offs@, s@, 0),
            lang@ == "lang"@,
            scoped@ == "scoped"@,
            trim(s@).len() != 0,
            parse_from(s@, pos as int, ast@) == parse_from(s@, 0, empty_ast()),
        decreases n - pos,
    {
        if pos >= n {
            return Ok(ast);
        }
        match find_next_block(s, pos) {
            None => {
                push_template_fragment(&mut ast.template, s, offs, pos, n)?;
                return Ok(ast);
            },
            Some((kind, tag_start, tag_end)) => {
                proof {
                    lemma_find_next_block(s@, pos as int);
                }
                let abs_tag_start = offs[tag_start];
                let before = vstd::slice::slice_subrange(s, pos, tag_start);
                let bi = skip_space_exec(before, 0);
                let bj = skip_space_back_exec(before, before.len());
                proof {
                    lemma_skip_space_bounds(before@, 0);
                    lemma_skip_space_back_bounds(before@, before@.len() as int);
                }
                let trimmed_before = if bi < bj {
                    vstd::slice::slice_subrange(before, bi, bj)
                } else {
                    vstd::slice::slice_subrange(before, 0, 0)
                };
                proof {
                    assert(trimmed_before@ =~= trim(before@));
                }
                check_nested_script(kind, trimmed_before, Span::new(abs_tag_start, abs_tag_start))?;
                push_template_fragment(&mut ast.template, s, offs, pos, tag_start)?;
                let open_tag = vstd::slice::slice_subrange(s, tag_start, tag_end);
                let close_tag = kind.close_tag();
                match find_exec(s, close_tag.as_slice(), tag_end) {
                    None => {
                        let detail = string_from(concat_chars(chars_of("unclosed ").as_slice(), open_tag).as_slice());
                        return Err(ParseError::MalformedTag { detail, span: Span::new(abs_tag_start, offs[tag_end]) });
                    },
                    Some(close_pos) => {
                        proof {
                            lemma_find_from_props(s@, close_tag@, tag_end as int);
                        }
                        let block_end = close_pos + close_tag.len();
                        let block_span = Span::new(abs_tag_start, offs[block_end]);
                        let content = trimmed(s, tag_end, close_pos);
                        match kind {
                            BlockKind::ScriptSetup => {
                                if ast.script_setup.is_some() {
                                    return Err(ParseError::DuplicateScriptSetup { span: block_span });
                                }
                                if extract_attr(open_tag, lang.as_slice()).is_some() {
                                    return Err(ParseError::InvalidSetupLang { span: Span::new(abs_tag_start, offs[tag_end]) });
                                }
                                ast.script_setup = Some(ScriptBlock { lang: None, content, span: block_span });
                            },
                            BlockKind::Script => {
                                if ast.script.is_some() {
                                    return Err(ParseError::DuplicateScript { span: block_span });
                                }
                                match extract_attr(open_tag, lang.as_slice()) {
                                    None => {
                                        return Err(ParseError::MissingScriptLang { span: Span::new(abs_tag_start, offs[tag_end]) });
                                    },
                                    Some(l) => {
                                        ast.script = Some(ScriptBlock { lang: Some(l), content, span: block_span });
                                    },
                                }
                            },
                            BlockKind::Style => {
                                let st = StyleBlock {
                                    scoped: has_bool_attr(open_tag, scoped.as_slice()),
                                    lang: extract_attr(open_tag, lang.as_slice()),
                                    content,
                                    span: block_span,
                                };
                                proof {
                                    assert(ast@.styles.push(st@) =~= ast.styles@.push(st).map_values(|x: StyleBlock| x@));
                                }
                                ast.styles.push(st);
                            },
                        }
                        pos = block_end;
                    },
                }
            },
        }
    }
}

} // verus!

verus! {

/// The block at `span` with `content` is the text from a `<` followed by
/// `name` at character `ts`, through the first `>` after it (ending at
/// `te`), to the closing tag `close` at `c`; its content is the text
/// between them, trimmed.
pub open spec fn shape_at(
    s: Seq<char>,
    span: Span,
    content: Seq<char>,
    name: Seq<char>,
    close: Seq<char>,
    ts: int,
    te: int,
    c: int,
) -> bool {
    &&& 0 <= ts < te <= c
    &&& c + close.len() <= s.len()
    &&& span == mk_span(bpos(s, 0, ts), bpos(s, 0, c + close.len()))
    &&& s[ts] == '<'
    &&& matches_at(s, name, ts + 1)
    &&& find_char_from(s, '>', ts) == Some(te - 1)
    &&& matches_at(s, close, c)
    &&& content == trim(s.subrange(te, c))
}

pub open spec fn block_shape(s: Seq<char>, span: Span, content: Seq<char>, name: Seq<char>, close: Seq<char>) -> bool {
    exists|ts: int, te: int, c: int| #[trigger] shape_at(s, span, content, name, close, ts, te, c)
}

/// Every block of `ast` has its shape in `s`: `<script setup ...>` (with
/// no `lang`), `<script ...>` (with a `lang`) and `<style ...>` blocks,
/// the styles in source order without overlap.
pub open spec fn blocks_shaped(s: Seq<char>, ast: ThebeAstView) -> bool {
    &&& ast.script_setup matches Some(b) ==> block_shape(s, b.span, b.content, "script setup"@, "</script>"@)
        && b.lang is None
    &&& ast.script matches Some(b) ==> block_shape(s, b.span, b.content, "script"@, "</script>"@) && b.lang is Some
    &&& forall|k: int| 0 <= k < ast.styles.len() ==> block_shape(
        s,
        (#[trigger] ast.styles[k]).span,
        ast.styles[k].content,
        "style"@,
        "</style>"@,
    )
    &&& forall|i: int, j: int| 0 <= i < j < ast.styles.len() ==> (#[trigger] ast.styles[i]).span.end
        <= (#[trigger] ast.styles[j]).span.start
}

proof fn lemma_find_next_block_tag(s: Seq<char>, p: int)
    requires
        0 <= p,
    ensures
        spec_find_next_block(s, p) matches Some((k, ts, te)) ==> spec_try_match_tag(s, ts) == Some((k, te)),
    decreases s.len() - p,
{
    lemma_find_char_props(s, '<', p);
    match find_char_from(s, '<', p) {
        None => {},
        Some(lt) => {
            match spec_try_match_tag(s, lt) {
                Some(_) => {},
                None => {
                    lemma_find_next_block_tag(s, lt + 1);
                },
            }
        },
    }
}

#[verifier::rlimit(60)]
#[verifier::spinoff_prover]
proof fn lemma_parse_from_shaped(s: Seq<char>, pos: int, ast: ThebeAstView)
    requires
        utf8_len(s) <= usize::MAX,
        0 <= pos,
        blocks_shaped(s, ast),
        forall|k: int| 0 <= k < ast.styles.len() ==> (#[trigger] ast.styles[k]).span.end <= bpos(s, 0, pos),
    ensures
        parse_from(s, pos, ast) matches Ok(a) ==> blocks_shaped(s, a),
    decreases s.len() - pos,
{
    if 0 <= pos < s.len() {
        lemma_find_next_block(s, pos);
        lemma_find_next_block_tag(s, pos);
        match spec_find_next_block(s, pos) {
            None => {
                match spec_push_fragment(ast.template, s, pos, s.len() as int) {
                    Err(_) => {},
                    Ok(t) => {
                        assert(blocks_shaped(s, with_template(ast, t)));
                    },
                }
            },
            Some((kind, ts, te)) => {
                let close = close_tag_of(kind);
                lemma_find_from_props(s, close, te);
                lemma_find_char_props(s, '>', ts);
                match find_from(s, close, te) {
                    None => {},
                    Some(c) => {
                        let end = c + close.len();
                        let at = bpos(s, 0, ts);
                        let span = mk_span(at, bpos(s, 0, end));
                        let open_tag = s.subrange(ts, te);
                        let content = trim(s.subrange(te, c));
                        lemma_bpos_mono(s, 0, pos, ts);
                        lemma_bpos_mono(s, 0, ts, end);
                        lemma_bpos_mono(s, 0, end, s.len() as int);
                        let name = match kind {
                            BlockKind::ScriptSetup => "script setup"@,
                            BlockKind::Script => "script"@,
                            BlockKind::Style => "style"@,
                        };
                        assert(shape_at(s, span, content, name, close, ts, te, c));
                        match spec_push_fragment(ast.template, s, pos, ts) {
                            Err(_) => {},
                            Ok(t) => {
                                let ast1 = with_template(ast, t);
                                assert(blocks_shaped(s, ast1));
                                if kind == BlockKind::Style {
                                    let next = ThebeAstView {
                                        styles: ast1.styles.push(
                                            StyleBlockView {
                                                content,
                                                scoped: spec_has_bool_attr(open_tag, "scoped"@),
                                                lang: spec_extract_attr(open_tag, "lang"@),
                                                span,
                                            },
                                        ),
                                        ..ast1
                                    };
                                    assert forall|k: int| 0 <= k < next.styles.len() implies block_shape(
                                        s,
                                        (#[trigger] next.styles[k]).span,
                                        next.styles[k].content,
                                        "style"@,
                                        "</style>"@,
                                    ) by {
                                        if k < ast.styles.len() {
                                            assert(next.styles[k] == ast.styles[k]);
                                        }
                                    }
                                    assert forall|i: int, j: int| 0 <= i < j < next.styles.len() implies (
                                    #[trigger] next.styles[i]).span.end <= (#[trigger] next.styles[j]).span.start by {
                                        assert(next.styles[i] == ast.styles[i]);
                                        if j < ast.styles.len() {
                                            assert(next.styles[j] == ast.styles[j]);
                                        }
                                    }
                                    assert forall|k: int| 0 <= k < next.styles.len() implies (
                                    #[trigger] next.styles[k]).span.end <= bpos(s, 0, end) by {
                                        if k < ast.styles.len() {
                                            assert(next.styles[k] == ast.styles[k]);
                                        }
                                    }
                                    lemma_parse_from_shaped(s, end, next);
                                } else if kind == BlockKind::ScriptSetup {
                                    let next = ThebeAstView {
                                        script_setup: Some(ScriptBlockView { content, lang: None, span }),
                                        ..ast1
                                    };
                                    lemma_parse_from_shaped(s, end, next);
                                } else {
                                    match spec_extract_attr(open_tag, "lang"@) {
                                        None => {},
                                        Some(l) => {
                                            let next = ThebeAstView {
                                                script: Some(ScriptBlockView { content, lang: Some(l), span }),
                                                ..ast1
                                            };
                                            lemma_parse_from_shaped(s, end, next);
                                        },
                                    }
                                }
                            },
                        }
                    },
                }
            },
        }
    }
}

/// Law: in a file that parses, each block is what its span covers: a `<`
/// and its tag name (`script setup`, `script` or `style`), through the
/// first `>`, its content (the inner text, trimmed), and the closing tag
/// (`</script>` or `</style>`); `<script setup>` has no `lang` and
/// `<script>` has one; the styles come in source order without overlap.
pub proof fn lemma_parse_blocks_shaped(s: Seq<char>)
    requires
        utf8_len(s) <= usize::MAX,
    ensures
        spec_parse(s) matches Ok(ast) ==> blocks_shaped(s, ast),
{
    if trim(s).len() > 0 {
        lemma_parse_from_shaped(s, 0, empty_ast());
    }
}

} // verus!

verus! {

/// The gaps of `s[0..n]` around the block intervals `cuts` (character
/// positions, in order): before the first, between consecutive ones, and
/// after the last up to `n`.
pub open spec fn gaps(cuts: Seq<(int, int)>, n: int) -> Seq<(int, int)>
    decreases cuts.len(),
{
    if cuts.len() == 0 {
        seq![(0, n)]
    } else {
        gaps(cuts.drop_last(), cuts.last().0).push((cuts.last().1, n))
    }
}

/// One fragment per gap whose text is not blank, in order: the template
/// nodes of the gap's trimmed text, based at the byte offset of its first
/// non-blank character.
pub open spec fn gap_fragments(s: Seq<char>, gs: Seq<(int, int)>) -> Seq<Seq<TemplateNodeView>>
    decreases gs.len(),
{
    if gs.len() == 0 {
        Seq::empty()
    } else {
        let g = gs.last();
        let raw = s.subrange(g.0, g.1);
        let rest = gap_fragments(s, gs.drop_last());
        if trim(raw).len() == 0 {
            rest
        } else {
            rest.push(spec_parse_template(trim(raw), bpos(s, 0, g.0 + lead_len(raw)))->Ok_0)
        }
    }
}

/// The span of a block interval.
pub open spec fn cut_span(s: Seq<char>, c: (int, int)) -> Span {
    mk_span(bpos(s, 0, c.0), bpos(s, 0, c.1))
}

/// The block intervals are in order, apart, within `s[0..n]`; each is the
/// span of a block of `ast`, and each block's span is one of them.
pub open spec fn cuts_ok(s: Seq<char>, cuts: Seq<(int, int)>, n: int, ast: ThebeAstView) -> bool {
    &&& forall|i: int| 0 <= i < cuts.len() ==> 0 <= (#[trigger] cuts[i]).0 < cuts[i].1 <= n
    &&& forall|i: int| 0 < i < cuts.len() ==> (#[trigger] cuts[i]).0 >= cuts[i - 1].1
    &&& forall|i: int| 0 <= i < cuts.len() ==> crate::lower::block_spans(ast).contains(
        cut_span(s, #[trigger] cuts[i]),
    )
    &&& forall|x: Span| #[trigger] crate::lower::block_spans(ast).contains(x) ==> cuts.map_values(
        |c: (int, int)| cut_span(s, c),
    ).contains(x)
}

proof fn lemma_push_fragment_gap(frags: Seq<Seq<TemplateNodeView>>, s: Seq<char>, a: int, b: int)
    requires
        0 <= a <= b <= s.len(),
    ensures
        spec_push_fragment(frags, s, a, b) matches Ok(t) ==> t == (if trim(s.subrange(a, b)).len() == 0 {
            frags
        } else {
            frags.push(
                spec_parse_template(trim(s.subrange(a, b)), bpos(s, 0, a + lead_len(s.subrange(a, b))))->Ok_0,
            )
        }),
{
}

proof fn lemma_block_spans_grow(ast: ThebeAstView, next: ThebeAstView, sp: Span, kind: BlockKind)
    requires
        kind == BlockKind::ScriptSetup ==> ast.script_setup is None && next.script_setup is Some
            && next.script_setup->0.span == sp && next.script == ast.script && next.styles == ast.styles,
        kind == BlockKind::Script ==> ast.script is None && next.script is Some && next.script->0.span == sp
            && next.script_setup == ast.script_setup && next.styles == ast.styles,
        kind == BlockKind::Style ==> next.styles.len() == ast.styles.len() + 1 && next.styles.drop_last()
            == ast.styles && next.styles.last().span == sp && next.script_setup == ast.script_setup
            && next.script == ast.script,
    ensures
        forall|x: Span| crate::lower::block_spans(ast).contains(x) ==> crate::lower::block_spans(next).contains(x),
        crate::lower::block_spans(next).contains(sp),
        forall|x: Span| crate::lower::block_spans(next).contains(x) ==> crate::lower::block_spans(ast).contains(x)
            || x == sp,
{
    let ba = crate::lower::block_spans(ast);
    let bn = crate::lower::block_spans(next);
    let fa = ast.styles.map_values(|st: StyleBlockView| st.span);
    let fnx = next.styles.map_values(|st: StyleBlockView| st.span);
    let a0: Seq<Span> = match ast.script_setup {
        Some(b) => seq![b.span],
        None => Seq::empty(),
    };
    let b0: Seq<Span> = match ast.script {
        Some(b) => seq![b.span],
        None => Seq::empty(),
    };
    assert(ba =~= a0 + b0 + fa);
    let d: int = if kind == BlockKind::ScriptSetup {
        0
    } else if kind == BlockKind::Script {
        a0.len() as int
    } else {
        ba.len() as int
    };
    if kind == BlockKind::Style {
        assert(fnx =~= fa.push(sp));
        assert(bn =~= ba.push(sp));
    } else if kind == BlockKind::ScriptSetup {
        assert(fnx =~= fa);
        assert(bn =~= seq![sp] + b0 + fa);
    } else {
        assert(fnx =~= fa);
        assert(bn =~= a0 + seq![sp] + fa);
    }
    assert(bn[d] == sp);
    assert forall|x: Span| ba.contains(x) implies bn.contains(x) by {
        let i = choose|i: int| 0 <= i < ba.len() && ba[i] == x;
        if i < d {
            assert(bn[i] == x);
        } else {
            assert(bn[i + 1] == x);
        }
    }
    assert(bn.len() == ba.len() + 1);
    assert forall|x: Span| bn.contains(x) implies ba.contains(x) || x == sp by {
        let i = choose|i: int| 0 <= i < bn.len() && bn[i] == x;
        if i < d {
            assert(ba[i] == x);
        } else if i > d {
            assert(ba[i - 1] == x);
        }
    }
}

proof fn lemma_cuts_push(
    s: Seq<char>,
    cuts: Seq<(int, int)>,
    pos: int,
    ts: int,
    end: int,
    ast: ThebeAstView,
    next: ThebeAstView,
)
    requires
        cuts_ok(s, cuts, pos, ast),
        cuts.len() > 0 ==> cuts.last().1 == pos,
        0 <= pos <= ts < end,
        forall|x: Span| crate::lower::block_spans(ast).contains(x) ==> crate::lower::block_spans(next).contains(x),
        crate::lower::block_spans(next).contains(mk_span(bpos(s, 0, ts), bpos(s, 0, end))),
        forall|x: Span| crate::lower::block_spans(next).contains(x) ==> crate::lower::block_spans(ast).contains(x)
            || x == mk_span(bpos(s, 0, ts), bpos(s, 0, end)),
    ensures
        cuts_ok(s, cuts.push((ts, end)), end, next),
{
    let cuts2 = cuts.push((ts, end));
    let f = |c: (int, int)| cut_span(s, c);
    assert(cuts2.map_values(f) =~= cuts.map_values(f).push(cut_span(s, (ts, end))));
    assert forall|x: Span| #[trigger] crate::lower::block_spans(next).contains(x) implies cuts2.map_values(f).contains(x) by {
        if crate::lower::block_spans(ast).contains(x) {
            let i = choose|i: int| 0 <= i < cuts.map_values(f).len() && cuts.map_values(f)[i] == x;
            assert(cuts2.map_values(f)[i] == x);
        } else {
            assert(cuts2.map_values(f)[cuts.len() as int] == x);
        }
    }
    assert forall|i: int| 0 <= i < cuts2.len() implies crate::lower::block_spans(next).contains(
        mk_span(bpos(s, 0, (#[trigger] cuts2[i]).0), bpos(s, 0, cuts2[i].1)),
    ) by {
        if i < cuts.len() {
            assert(cuts2[i] == cuts[i]);
        }
    }
    assert forall|i: int| 0 <= i < cuts2.len() implies 0 <= (#[trigger] cuts2[i]).0 < cuts2[i].1 <= end by {
        if i < cuts.len() {
            assert(cuts2[i] == cuts[i]);
        }
    }
    assert forall|i: int| 0 < i < cuts2.len() implies (#[trigger] cuts2[i]).0 >= cuts2[i - 1].1 by {
        if i < cuts.len() {
            assert(cuts2[i] == cuts[i]);
        }
        assert(cuts2[i - 1] == cuts[i - 1]);
    }
}

proof fn lemma_gaps_prefix(s: Seq<char>, cuts: Seq<(int, int)>, pos: int, n: int)
    requires
        cuts.len() == 0 ==> pos == 0,
        cuts.len() > 0 ==> cuts.last().1 == pos,
    ensures
        gaps(cuts, n).last() == (pos, n),
        gaps(cuts, n).drop_last() == (if cuts.len() == 0 {
            Seq::<(int, int)>::empty()
        } else {
            gaps(cuts.drop_last(), cuts.last().0)
        }),
        gap_fragments(s, gaps(cuts, n)) == ({
            let prev = if cuts.len() == 0 {
                Seq::<Seq<TemplateNodeView>>::empty()
            } else {
                gap_fragments(s, gaps(cuts.drop_last(), cuts.last().0))
            };
            let raw = s.subrange(pos, n);
            if trim(raw).len() == 0 {
                prev
            } else {
                prev.push(spec_parse_template(trim(raw), bpos(s, 0, pos + lead_len(raw)))->Ok_0)
            }
        }),
{
    if cuts.len() == 0 {
        assert(gaps(cuts, n).drop_last() =~= Seq::<(int, int)>::empty());
        assert(gap_fragments(s, Seq::<(int, int)>::empty()) =~= Seq::<Seq<TemplateNodeView>>::empty());
    }
}

#[verifier::rlimit(80)]
#[verifier::spinoff_prover]
proof fn lemma_parse_from_gaps(s: Seq<char>, pos: int, ast: ThebeAstView, cuts: Seq<(int, int)>)
    requires
        0 <= pos <= s.len(),
        cuts_ok(s, cuts, pos, ast),
        cuts.len() == 0 ==> pos == 0,
        cuts.len() > 0 ==> cuts.last().1 == pos,
        ast.template == (if cuts.len() == 0 {
            Seq::empty()
        } else {
            gap_fragments(s, gaps(cuts.drop_last(), cuts.last().0))
        }),
    ensures
        parse_from(s, pos, ast) matches Ok(a) ==> exists|cs: Seq<(int, int)>|
            #[trigger] cuts_ok(s, cs, s.len() as int, a) && a.template == gap_fragments(s, gaps(cs, s.len() as int)),
    decreases s.len() - pos,
{
    if pos >= s.len() {
        // Only reached with the final gap empty.
        lemma_gaps_prefix(s, cuts, pos, s.len() as int);
        assert(s.subrange(pos, s.len() as int) =~= Seq::<char>::empty());
        assert(trim(s.subrange(pos, s.len() as int)) =~= Seq::<char>::empty());
        assert(ast.template == gap_fragments(s, gaps(cuts, s.len() as int)));
        assert(cuts_ok(s, cuts, s.len() as int, ast));
    } else {
        lemma_find_next_block(s, pos);
        match spec_find_next_block(s, pos) {
            None => {
                lemma_push_fragment_gap(ast.template, s, pos, s.len() as int);
                if let Ok(t) = spec_push_fragment(ast.template, s, pos, s.len() as int) {
                    lemma_gaps_prefix(s, cuts, pos, s.len() as int);
                    assert(t == gap_fragments(s, gaps(cuts, s.len() as int)));
                    assert(cuts_ok(s, cuts, s.len() as int, with_template(ast, t)));
                }
            },
            Some((kind, ts, te)) => {
                let close = close_tag_of(kind);
                lemma_find_from_props(s, close, te);
                match find_from(s, close, te) {
                    None => {},
                    Some(c) => {
                        let end = c + close.len();
                        let at = bpos(s, 0, ts);
                        let span = mk_span(at, bpos(s, 0, end));
                        let open_tag = s.subrange(ts, te);
                        let content = trim(s.subrange(te, c));
                        lemma_push_fragment_gap(ast.template, s, pos, ts);
                        match spec_push_fragment(ast.template, s, pos, ts) {
                            Err(_) => {},
                            Ok(t) => {
                                let ast1 = with_template(ast, t);
                                let cuts2 = cuts.push((ts, end));
                                assert(cuts2.drop_last() =~= cuts);
                                lemma_gaps_prefix(s, cuts, pos, ts);
                                assert(ast1.template == gap_fragments(s, gaps(cuts, ts)));
                                let next = match kind {
                                    BlockKind::ScriptSetup => ThebeAstView {
                                        script_setup: Some(ScriptBlockView { content, lang: None, span }),
                                        ..ast1
                                    },
                                    BlockKind::Script => ThebeAstView {
                                        script: Some(
                                            ScriptBlockView {
                                                content,
                                                lang: spec_extract_attr(open_tag, "lang"@),
                                                span,
                                            },
                                        ),
                                        ..ast1
                                    },
                                    BlockKind::Style => ThebeAstView {
                                        styles: ast1.styles.push(
                                            StyleBlockView {
                                                content,
                                                scoped: spec_has_bool_attr(open_tag, "scoped"@),
                                                lang: spec_extract_attr(open_tag, "lang"@),
                                                span,
                                            },
                                        ),
                                        ..ast1
                                    },
                                };
                                if (kind == BlockKind::ScriptSetup && ast1.script_setup is None) || (kind
                                    == BlockKind::Script && ast1.script is None) || kind == BlockKind::Style {
                                    if kind == BlockKind::Style {
                                        assert(next.styles.drop_last() =~= ast1.styles);
                                    }
                                    lemma_block_spans_grow(ast1, next, span, kind);
                                    assert(crate::lower::block_spans(ast1) == crate::lower::block_spans(ast));
                                    lemma_bpos_mono(s, 0, pos, ts);
                                    lemma_cuts_push(s, cuts, pos, ts, end, ast1, next);
                                    if kind == BlockKind::Script {
                                        match spec_extract_attr(open_tag, "lang"@) {
                                            None => {},
                                            Some(l) => {
                                                lemma_parse_from_gaps(s, end, next, cuts2);
                                            },
                                        }
                                    } else if kind == BlockKind::ScriptSetup {
                                        if spec_extract_attr(open_tag, "lang"@) is None {
                                            lemma_parse_from_gaps(s, end, next, cuts2);
                                        }
                                    } else {
                                        lemma_parse_from_gaps(s, end, next, cuts2);
                                    }
                                }
                            },
                        }
                    },
                }
            },
        }
    }
}

/// Law: the template of a file that parses is its non-blank gaps: there
/// are block intervals, in order and apart, each the span of one of the
/// file's blocks and every block's span among them, such that the fragments are exactly one per gap around
/// them (before the first, between consecutive ones, after the last) whose
/// text is not blank, in source order, each holding the template nodes of
/// the gap's trimmed text at its byte offset.
pub proof fn lemma_parse_fragments_are_gaps(s: Seq<char>)
    ensures
        spec_parse(s) matches Ok(ast) ==> exists|cuts: Seq<(int, int)>|
            #[trigger] cuts_ok(s, cuts, s.len() as int, ast) && ast.template == gap_fragments(
                s,
                gaps(cuts, s.len() as int),
            ),
{
    if trim(s).len() > 0 {
        lemma_parse_from_gaps(s, 0, empty_ast(), Seq::empty());
    }
}

} // verus!
