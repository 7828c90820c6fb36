//! Template parsing: `{{ expr }}` interpolation splitting and the HTML tree parser.

use vstd::prelude::*;

use crate::text::bpos;
use crate::text::is_upper;
use crate::text::byte_offsets;
use crate::text::chars_of;
use crate::text::find_exec;
use crate::text::find;
use crate::text::find_char_from;
use crate::text::chars_eq;
use crate::text::concat3;
use crate::text::concat_chars;
use crate::text::find_char_exec;
use crate::text::is_space_char;
use crate::text::is_tag_space_char;
use crate::text::lemma_bpos_mono;
use crate::text::lemma_utf8_len_subrange;
use crate::text::lemma_utf8_len_ascii_step;
use crate::text::string_from;
use crate::text::char_is_uppercase;
use crate::text::find_from;
use crate::text::lemma_find_char_least;
use crate::text::lemma_find_char_none;
use crate::text::lemma_strings_view_push;
use crate::text::matches_at_exec;
use crate::text::strings_view;
use crate::text::is_space;
use crate::text::is_tag_space;
use crate::text::lemma_find_char_props;
use crate::text::matches_at;
use crate::text::starts_with;
use crate::text::lemma_find_from_props;
use crate::text::substring;
use crate::text::trim;
use crate::text::trimmed;
use crate::text::utf8_len;
use crate::types::mk_span;
use crate::types::opt_str;
use crate::types::element_view;
use crate::types::nodes_view;
use crate::types::branches_view;
use crate::types::lemma_nodes_view_push;
use crate::types::lemma_branches_view_push;
use crate::types::Attribute;
use crate::types::Directive;
use crate::types::Element;
use crate::types::HtmlNode;
use crate::types::IfBranch;
use crate::types::AttributeView;
use crate::types::DirectiveKind;
use crate::types::DirectiveView;
use crate::types::ElementView;
use crate::types::HtmlNodeView;
use crate::types::IfBranchView;
use crate::types::tnodes_view;
use crate::types::ParseError;
use crate::types::ParseErrorView;
use crate::types::Span;
use crate::types::TemplateNode;
use crate::types::TemplateNodeView;

verus! {

// ---------------------------------------------------------------------------
// Literals
// ---------------------------------------------------------------------------

pub open spec fn lit_open_expr() -> Seq<char> {
    seq!['{', '{']
}

pub open spec fn lit_close_expr() -> Seq<char> {
    seq!['}', '}']
}

/// Byte offsets of all character indices of `s` (plus `base`) are in `offs`.
pub open spec fn is_offsets(offs: Seq<usize>, s: Seq<char>, base: int) -> bool {
    &&& offs.len() == s.len() + 1
    &&& forall|i: int| 0 <= i <= s.len() ==> offs[i] == bpos(s, base, i)
    &&& base + utf8_len(s) <= usize::MAX
    &&& 0 <= base
}

pub open spec fn tnodes_result(r: Result<Vec<TemplateNode>, ParseError>) -> Result<
    Seq<TemplateNodeView>,
    ParseErrorView,
> {
    match r {
        Ok(v) => Ok(tnodes_view(v@)),
        Err(e) => Err(e@),
    }
}

// ---------------------------------------------------------------------------
// `{{ expr }}` splitting
// ---------------------------------------------------------------------------

/// Splitting of `s[pos..]` into text and `{{ expr }}` nodes, appended to `acc`.
///
/// Text outside `{{ ... }}` becomes a text node (never empty); each
/// `{{ ... }}` becomes an expression node holding its trimmed inner text
/// and the byte span of the whole `{{ ... }}`. A `{{` with no later `}}`
/// is an error whose span covers the `{{`.
pub open spec fn split_interpolations(
    s: Seq<char>,
    base: int,
    pos: int,
    acc: Seq<TemplateNodeView>,
) -> Result<Seq<TemplateNodeView>, ParseErrorView>
    decreases s.len() - pos,
{
    if pos < 0 || pos >= s.len() {
        Ok(acc)
    } else {
        match find_from(s, lit_open_expr(), pos) {
            None => Ok(acc.push(TemplateNodeView::Text(s.subrange(pos, s.len() as int)))),
            Some(k) => {
                let acc1 = if k > pos {
                    acc.push(TemplateNodeView::Text(s.subrange(pos, k)))
                } else {
                    acc
                };
                match find_from(s, lit_close_expr(), k + 2) {
                    None => Err(
                        ParseErrorView::UnclosedInterpolation {
                            span: mk_span(bpos(s, base, k), bpos(s, base, k + 2)),
                        },
                    ),
                    Some(c) => {
                        proof {
                            lemma_find_from_props(s, lit_open_expr(), pos);
                            lemma_find_from_props(s, lit_close_expr(), k + 2);
                        }
                        split_interpolations(
                            s,
                            base,
                            c + 2,
                            acc1.push(
                                TemplateNodeView::Expr {
                                    expr: trim(s.subrange(k + 2, c)),
                                    span: mk_span(bpos(s, base, k), bpos(s, base, c + 2)),
                                },
                            ),
                        )
                    },
                }
            },
        }
    }
}

/// The template nodes of fragment `s` whose first byte is at offset `base`.
pub open spec fn spec_parse_template(s: Seq<char>, base: int) -> Result<
    Seq<TemplateNodeView>,
    ParseErrorView,
> {
    split_interpolations(s, base, 0, Seq::empty())
}

pub proof fn lemma_tnodes_view_push(v: Seq<TemplateNode>, x: TemplateNode)
    ensures
        tnodes_view(v.push(x)) == tnodes_view(v).push(x@),
{
    assert(tnodes_view(v.push(x)) =~= tnodes_view(v).push(x@));
}

/// Splits `s` (whose byte offsets are `offs`) on `{{ ... }}` interpolations.
pub fn template_nodes(s: &[char], offs: &Vec<usize>, Ghost(base): Ghost<int>) -> (r: Result<
    Vec<TemplateNode>,
    ParseError,
>)
    requires
        is_offsets(offs@, s@, base),
    ensures
        tnodes_result(r) == spec_parse_template(s@, base),
{
    let open: Vec<char> = vec!['{', '{'];
    let close: Vec<char> = vec!['}', '}'];
    assert(open@ =~= lit_open_expr());
    assert(close@ =~= lit_close_expr());
    let mut nodes: Vec<TemplateNode> = Vec::new();
    let mut pos: usize = 0;
    assert(tnodes_view(nodes@) =~= Seq::<TemplateNodeView>::empty());
    while pos < s.len()
        invariant
            is_offsets(offs@, s@, base),
            open@ == lit_open_expr(),
            close@ == lit_close_expr(),
            pos <= s@.len(),
            split_interpolations(s@, base, pos as int, tnodes_view(nodes@)) == spec_parse_template(
                s@,
                base,
            ),
        decreases s@.len() - pos,
    {
        match find_exec(s, open.as_slice(), pos) {
            None => {
                let t = substring(s, pos, s.len());
                proof {
                    lemma_tnodes_view_push(nodes@, TemplateNode::Text(t));
                }
                nodes.push(TemplateNode::Text(t));
                return Ok(nodes);
            },
            Some(k) => {
                proof {
                    lemma_find_from_props(s@, lit_open_expr(), pos as int);
                }
                if k > pos {
                    let t = substring(s, pos, k);
                    proof {
                        lemma_tnodes_view_push(nodes@, TemplateNode::Text(t));
                    }
                    nodes.push(TemplateNode::Text(t));
                }
                match find_exec(s, close.as_slice(), k + 2) {
                    None => {
                        return Err(
                            ParseError::UnclosedInterpolation {
                                span: Span::new(offs[k], offs[k + 2]),
                            },
                        );
                    },
                    Some(c) => {
                        proof {
                            lemma_find_from_props(s@, lit_close_expr(), k + 2);
                        }
                        let expr = trimmed(s, k + 2, c);
                        let node = TemplateNode::Expr { expr, span: Span::new(offs[k], offs[c + 2]) };
                        proof {
                            lemma_tnodes_view_push(nodes@, node);
                        }
                        nodes.push(node);
                        pos = c + 2;
                    },
                }
            },
        }
    }
    Ok(nodes)
}

/// Parse a template fragment into a sequence of [`TemplateNode`]s.
///
/// Splits `fragment` on `{{ ... }}` delimiters. Everything outside becomes
/// [`TemplateNode::Text`]; everything inside becomes [`TemplateNode::Expr`]
/// with the expression trimmed. `base_offset` is the byte offset of
/// `fragment` within the original input, used for spans.
///
/// Returns [`ParseError::UnclosedInterpolation`] if `{{` appears without a
/// matching `}}`.
pub fn parse_template(fragment: &str, base_offset: usize) -> (r: Result<
    Vec<TemplateNode>,
    ParseError,
>)
    requires
        base_offset + utf8_len(fragment@) <= usize::MAX,
    ensures
        tnodes_result(r) == spec_parse_template(fragment@, base_offset as int),
{
    let s = chars_of(fragment);
    let offs = byte_offsets(s.as_slice(), base_offset);
    template_nodes(s.as_slice(), &offs, Ghost(base_offset as int))
}

} // verus!

verus! {

// ---------------------------------------------------------------------------
// HTML tree: scanning helpers
// ---------------------------------------------------------------------------

/// HTML void elements (self-closing without `/>`).
pub open spec fn is_void_tag(t: Seq<char>) -> bool {
    ||| t == "area"@
    ||| t == "base"@
    ||| t == "br"@
    ||| t == "col"@
    ||| t == "embed"@
    ||| t == "hr"@
    ||| t == "img"@
    ||| t == "input"@
    ||| t == "link"@
    ||| t == "meta"@
    ||| t == "param"@
    ||| t == "source"@
    ||| t == "track"@
    ||| t == "wbr"@
}

pub open spec fn is_tag_name_end(c: char) -> bool {
    c == '>' || c == '/' || is_tag_space(c)
}

pub open spec fn is_attr_name_end(c: char) -> bool {
    c == '=' || c == '>' || c == '/' || is_tag_space(c)
}

/// End of the tag name starting at `i`.
pub open spec fn scan_tag_name(s: Seq<char>, i: int) -> int
    decreases s.len() - i,
{
    if 0 <= i < s.len() && !is_tag_name_end(s[i]) {
        scan_tag_name(s, i + 1)
    } else {
        i
    }
}

/// End of the attribute or directive name starting at `i`.
pub open spec fn scan_attr_name(s: Seq<char>, i: int) -> int
    decreases s.len() - i,
{
    if 0 <= i < s.len() && !is_attr_name_end(s[i]) {
        scan_attr_name(s, i + 1)
    } else {
        i
    }
}

/// First index at or after `i` that is not tag whitespace.
pub open spec fn skip_tag_space(s: Seq<char>, i: int) -> int
    decreases s.len() - i,
{
    if 0 <= i < s.len() && is_tag_space(s[i]) {
        skip_tag_space(s, i + 1)
    } else {
        i
    }
}

/// Text stops before `<`, `{{`, `{#`, `{:` and `{/`.
pub open spec fn is_text_stop(s: Seq<char>, i: int) -> bool {
    ||| s[i] == '<'
    ||| (i + 1 < s.len() && s[i] == '{' && (s[i + 1] == '{' || s[i + 1] == '#' || s[i + 1] == ':'
        || s[i + 1] == '/'))
}

/// End of the run of plain text starting at `i`.
pub open spec fn scan_text(s: Seq<char>, i: int) -> int
    decreases s.len() - i,
{
    if 0 <= i < s.len() && !is_text_stop(s, i) {
        scan_text(s, i + 1)
    } else {
        i
    }
}

/// Splits `s` at every occurrence of `c` (`str::split`).
pub open spec fn split_on(s: Seq<char>, c: char) -> Seq<Seq<char>>
    decreases s.len(),
{
    match find_char_from(s, c, 0) {
        None => seq![s],
        Some(k) => {
            proof {
                lemma_find_char_props(s, c, 0);
            }
            seq![s.take(k)] + split_on(s.skip(k + 1), c)
        },
    }
}

/// Directive names: `on:event|mod|...`, `bind:prop`, `class:name`,
/// `style:prop`, `use:action`. Only `on:` directives carry modifiers.
pub open spec fn spec_directive_name(name: Seq<char>) -> Option<
    (DirectiveKind, Seq<char>, Seq<Seq<char>>),
> {
    if starts_with(name, "on:"@) {
        let parts = split_on(name.skip(3), '|');
        Some((DirectiveKind::On, parts[0], parts.skip(1)))
    } else if starts_with(name, "bind:"@) {
        Some((DirectiveKind::Bind, name.skip(5), Seq::empty()))
    } else if starts_with(name, "class:"@) {
        Some((DirectiveKind::Class, name.skip(6), Seq::empty()))
    } else if starts_with(name, "style:"@) {
        Some((DirectiveKind::Style, name.skip(6), Seq::empty()))
    } else if starts_with(name, "use:"@) {
        Some((DirectiveKind::Use, name.skip(4), Seq::empty()))
    } else {
        None
    }
}

/// `iterable as binding` or `iterable as binding, index`.
pub open spec fn spec_each_expr(e: Seq<char>) -> Option<(Seq<char>, Seq<char>, Option<Seq<char>>)> {
    match find(e, " as "@) {
        None => None,
        Some(k) => {
            let iterable = trim(e.take(k));
            let rest = trim(e.skip(k + 4));
            match find_char_from(rest, ',', 0) {
                Some(c) => Some((iterable, trim(rest.take(c)), Some(trim(rest.skip(c + 1))))),
                None => Some((iterable, rest, None)),
            }
        },
    }
}

/// The value of `<slot>`'s first `name` attribute, when it starts with static text.
pub open spec fn slot_name(attrs: Seq<AttributeView>, i: int) -> Option<Seq<char>>
    decreases attrs.len() - i,
{
    if i < 0 || i >= attrs.len() {
        None
    } else if attrs[i].name == "name"@ {
        if attrs[i].value.len() == 0 {
            None
        } else {
            match attrs[i].value[0] {
                TemplateNodeView::Text(t) => Some(t),
                TemplateNodeView::Expr { .. } => None,
            }
        }
    } else {
        slot_name(attrs, i + 1)
    }
}

/// Slots, components (uppercase first letter) and plain elements.
pub open spec fn classify_element(e: ElementView) -> HtmlNodeView {
    if e.tag == "slot"@ {
        HtmlNodeView::Slot { name: slot_name(e.attributes, 0), children: e.children, span: e.span }
    } else if e.tag.len() > 0 && is_upper(e.tag[0]) {
        HtmlNodeView::Component(e)
    } else {
        HtmlNodeView::Element(e)
    }
}

/// Error for input at which no parsing rule applies (a stray closing tag,
/// an unknown `{#...}` block, or a `/` inside a tag that is not `/>`).
pub open spec fn stuck(s: Seq<char>, base: int, pos: int) -> ParseErrorView {
    ParseErrorView::MalformedTag {
        detail: "unexpected input"@,
        span: mk_span(bpos(s, base, pos), bpos(s, base, pos)),
    }
}

pub enum AttrItem {
    Attr(AttributeView),
    Dir(DirectiveView),
}

/// The parsed value of a quoted attribute: an empty value is one empty text segment.
pub open spec fn attr_value(v: Seq<char>, base: int) -> Result<Seq<TemplateNodeView>, ParseErrorView> {
    if v.len() == 0 {
        Ok(seq![TemplateNodeView::Text(Seq::empty())])
    } else {
        spec_parse_template(v, base)
    }
}

/// One attribute or directive starting at `pos`.
pub open spec fn spec_attr(s: Seq<char>, base: int, pos: int) -> Result<(AttrItem, int), ParseErrorView> {
    let n = scan_attr_name(s, pos);
    let full = s.subrange(pos, n);
    if !(n < s.len() && s[n] == '=') {
        let span = mk_span(bpos(s, base, pos), bpos(s, base, n));
        match spec_directive_name(full) {
            Some((k, name, mods)) => Ok(
                (
                    AttrItem::Dir(
                        DirectiveView { kind: k, name, modifiers: mods, value: Seq::empty(), span },
                    ),
                    n,
                ),
            ),
            None => Ok((AttrItem::Attr(AttributeView { name: full, value: Seq::empty(), span }), n)),
        }
    } else if !(n + 1 < s.len() && s[n + 1] == '"') {
        Err(
            ParseErrorView::MalformedTag {
                detail: "expected '\"' after "@ + full + "="@,
                span: mk_span(bpos(s, base, pos), bpos(s, base, n + 1)),
            },
        )
    } else {
        let vs = n + 2;
        match find_char_from(s, '"', vs) {
            None => Err(
                ParseErrorView::MalformedTag {
                    detail: "unclosed attribute value for "@ + full,
                    span: mk_span(bpos(s, base, pos), bpos(s, base, vs)),
                },
            ),
            Some(cq) => {
                let span = mk_span(bpos(s, base, pos), bpos(s, base, cq + 1));
                let val = s.subrange(vs, cq);
                match spec_directive_name(full) {
                    Some((k, name, mods)) => Ok(
                        (
                            AttrItem::Dir(
                                DirectiveView { kind: k, name, modifiers: mods, value: val, span },
                            ),
                            cq + 1,
                        ),
                    ),
                    None => match attr_value(val, bpos(s, base, vs)) {
                        Err(e) => Err(e),
                        Ok(v) => Ok((AttrItem::Attr(AttributeView { name: full, value: v, span }), cq + 1)),
                    },
                }
            },
        }
    }
}

/// `{prefix content}` starting at `pos`: the trimmed content and the index after `}`.
pub open spec fn spec_block_tag(s: Seq<char>, base: int, pos: int, prefix: Seq<char>) -> Result<
    (Seq<char>, int),
    ParseErrorView,
> {
    let p = pos + 1 + prefix.len();
    match find_char_from(s, '}', p) {
        None => Err(
            ParseErrorView::MalformedTag {
                detail: "unclosed {"@ + prefix + "}"@,
                span: mk_span(bpos(s, base, pos), bpos(s, base, p)),
            },
        ),
        Some(c) => Ok((trim(s.subrange(p, c)), c + 1)),
    }
}

/// `{{ expr }}` starting at `pos`.
pub open spec fn spec_expr(s: Seq<char>, base: int, pos: int) -> Result<(HtmlNodeView, int), ParseErrorView> {
    match find_from(s, lit_close_expr(), pos + 2) {
        None => Err(
            ParseErrorView::UnclosedInterpolation {
                span: mk_span(bpos(s, base, pos), bpos(s, base, pos) + 2),
            },
        ),
        Some(c) => Ok(
            (
                HtmlNodeView::Expr {
                    expr: trim(s.subrange(pos + 2, c)),
                    span: mk_span(bpos(s, base, pos), bpos(s, base, c + 2)),
                },
                c + 2,
            ),
        ),
    }
}

/// `s[pos..]` starts with `</parent` followed by `>` or whitespace.
pub open spec fn at_parent_close(s: Seq<char>, pos: int, parent: Option<Seq<char>>) -> bool {
    match parent {
        None => false,
        Some(t) => {
            let a = pos + 2 + t.len();
            &&& matches_at(s, "</"@ + t, pos)
            &&& a < s.len()
            &&& (s[a] == '>' || is_space(s[a]))
        },
    }
}

// ---------------------------------------------------------------------------
// HTML tree: recursive structure
// ---------------------------------------------------------------------------

/// Attributes and directives from `pos` up to the `>` or `/>` of the opening tag.
pub open spec fn spec_attrs(
    s: Seq<char>,
    base: int,
    pos: int,
    attrs: Seq<AttributeView>,
    dirs: Seq<DirectiveView>,
) -> Result<(Seq<AttributeView>, Seq<DirectiveView>, int), ParseErrorView>
    decreases s.len() - pos,
{
    if pos < 0 || pos >= s.len() || s[pos] == '>' || matches_at(s, "/>"@, pos) {
        Ok((attrs, dirs, pos))
    } else {
        match spec_attr(s, base, pos) {
            Err(e) => Err(e),
            Ok((item, q)) => {
                let q2 = skip_tag_space(s, q);
                if pos < q && q2 <= s.len() && q <= q2 {
                    match item {
                        AttrItem::Attr(a) => spec_attrs(s, base, q2, attrs.push(a), dirs),
                        AttrItem::Dir(d) => spec_attrs(s, base, q2, attrs, dirs.push(d)),
                    }
                } else {
                    Err(stuck(s, base, pos))
                }
            },
        }
    }
}

/// An element starting at `pos` (where `s[pos] == '<'`): opening tag,
/// children up to the matching closing tag, and the closing tag.
pub open spec fn spec_element(s: Seq<char>, base: int, pos: int) -> Result<(ElementView, int), ParseErrorView>
    decreases s.len() - pos, 2nat,
{
    let t = scan_tag_name(s, pos + 1);
    let tag = s.subrange(pos + 1, t);
    let p2 = skip_tag_space(s, t);
    if !(0 <= pos < p2 <= s.len()) {
        Err(stuck(s, base, pos))
    } else {
        match spec_attrs(s, base, p2, Seq::empty(), Seq::empty()) {
            Err(e) => Err(e),
            Ok((attrs, dirs, p3)) => {
                let explicit = matches_at(s, "/>"@, p3);
                if !explicit && !(0 <= p3 < s.len() && s[p3] == '>') {
                    Err(
                        ParseErrorView::MalformedTag {
                            detail: "unclosed opening tag <"@ + tag + ">"@,
                            span: mk_span(bpos(s, base, pos), bpos(s, base, p3)),
                        },
                    )
                } else {
                    let p4 = if explicit {
                        p3 + 2
                    } else {
                        p3 + 1
                    };
                    let self_closing = explicit || is_void_tag(tag);
                    if self_closing {
                        Ok(
                            (
                                ElementView {
                                    tag,
                                    attributes: attrs,
                                    directives: dirs,
                                    children: Seq::empty(),
                                    self_closing,
                                    span: mk_span(bpos(s, base, pos), bpos(s, base, p4)),
                                },
                                p4,
                            ),
                        )
                    } else if !(pos < p4 <= s.len()) {
                        Err(stuck(s, base, pos))
                    } else {
                        match spec_nodes(s, base, p4, Some(tag), Seq::empty()) {
                            Err(e) => Err(e),
                            Ok((kids, p5)) => {
                                let close = "</"@ + tag + ">"@;
                                if !matches_at(s, close, p5) {
                                    Err(
                                        ParseErrorView::MalformedTag {
                                            detail: "missing closing tag </"@ + tag + ">"@,
                                            span: mk_span(bpos(s, base, pos), bpos(s, base, p5)),
                                        },
                                    )
                                } else {
                                    let end = p5 + close.len();
                                    Ok(
                                        (
                                            ElementView {
                                                tag,
                                                attributes: attrs,
                                                directives: dirs,
                                                children: kids,
                                                self_closing: false,
                                                span: mk_span(bpos(s, base, pos), bpos(s, base, end)),
                                            },
                                            end,
                                        ),
                                    )
                                }
                            },
                        }
                    }
                }
            },
        }
    }
}

/// The branches of an `{#if}` block, starting with the body at `pos`.
/// `start` is the index of the opening `{#if`.
pub open spec fn spec_branches(
    s: Seq<char>,
    base: int,
    pos: int,
    start: int,
    cond: Option<Seq<char>>,
    had_else: bool,
    acc: Seq<IfBranchView>,
) -> Result<(Seq<IfBranchView>, int), ParseErrorView>
    decreases s.len() - pos, 5nat,
{
    if !(0 <= pos <= s.len()) {
        Err(stuck(s, base, pos))
    } else {
        match spec_nodes(s, base, pos, None, Seq::empty()) {
            Err(e) => Err(e),
            Ok((kids, q)) => {
                if !(pos <= q <= s.len()) {
                    Err(stuck(s, base, pos))
                } else {
                    let acc1 = acc.push(
                        IfBranchView {
                            condition: cond,
                            children: kids,
                            span: mk_span(bpos(s, base, pos), bpos(s, base, q)),
                        },
                    );
                    let unclosed = ParseErrorView::UnclosedIfBlock {
                        span: mk_span(bpos(s, base, start), bpos(s, base, q)),
                    };
                    if had_else {
                        if matches_at(s, "{/if}"@, q) {
                            Ok((acc1, q + 5))
                        } else {
                            Err(unclosed)
                        }
                    } else if matches_at(s, "{:else if "@, q) {
                        match spec_block_tag(s, base, q, ":else if"@) {
                            Err(e) => Err(e),
                            Ok((c2, q2)) => if q < q2 <= s.len() {
                                spec_branches(s, base, q2, start, Some(c2), false, acc1)
                            } else {
                                Err(stuck(s, base, q))
                            },
                        }
                    } else if matches_at(s, "{:else"@, q) {
                        match spec_block_tag(s, base, q, ":else"@) {
                            Err(e) => Err(e),
                            Ok((_c2, q2)) => if q < q2 <= s.len() {
                                spec_branches(s, base, q2, start, None, true, acc1)
                            } else {
                                Err(stuck(s, base, q))
                            },
                        }
                    } else if matches_at(s, "{/if}"@, q) {
                        Ok((acc1, q + 5))
                    } else {
                        Err(unclosed)
                    }
                }
            },
        }
    }
}

/// An `{#if}` block starting at `pos`.
pub open spec fn spec_if(s: Seq<char>, base: int, pos: int) -> Result<(HtmlNodeView, int), ParseErrorView>
    decreases s.len() - pos, 2nat,
{
    match spec_block_tag(s, base, pos, "#if"@) {
        Err(e) => Err(e),
        Ok((cond, p)) => if 0 <= pos < p <= s.len() {
            match spec_branches(s, base, p, pos, Some(cond), false, Seq::empty()) {
                Err(e) => Err(e),
                Ok((brs, q)) => Ok(
                    (
                        HtmlNodeView::If {
                            branches: brs,
                            span: mk_span(bpos(s, base, pos), bpos(s, base, q)),
                        },
                        q,
                    ),
                ),
            }
        } else {
            Err(stuck(s, base, pos))
        },
    }
}

/// An `{#each}` block starting at `pos`.
pub open spec fn spec_each(s: Seq<char>, base: int, pos: int) -> Result<(HtmlNodeView, int), ParseErrorView>
    decreases s.len() - pos, 2nat,
{
    match spec_block_tag(s, base, pos, "#each"@) {
        Err(e) => Err(e),
        Ok((content, p)) => match spec_each_expr(content) {
            None => Err(
                ParseErrorView::InvalidEachExpression {
                    detail: content,
                    span: mk_span(bpos(s, base, pos), bpos(s, base, p)),
                },
            ),
            Some((iterable, binding, index)) => if 0 <= pos < p <= s.len() {
                match spec_nodes(s, base, p, None, Seq::empty()) {
                    Err(e) => Err(e),
                    Ok((kids, q)) => if matches_at(s, "{/each}"@, q) {
                        Ok(
                            (
                                HtmlNodeView::Each {
                                    iterable,
                                    binding,
                                    index,
                                    children: kids,
                                    span: mk_span(bpos(s, base, pos), bpos(s, base, q + 7)),
                                },
                                q + 7,
                            ),
                        )
                    } else {
                        Err(
                            ParseErrorView::UnclosedEachBlock {
                                span: mk_span(bpos(s, base, pos), bpos(s, base, q)),
                            },
                        )
                    },
                }
            } else {
                Err(stuck(s, base, pos))
            },
        },
    }
}

/// The single node starting at `pos` (no closing tag or block boundary there).
pub open spec fn spec_node_at(s: Seq<char>, base: int, pos: int) -> Result<(HtmlNodeView, int), ParseErrorView>
    decreases s.len() - pos, 3nat,
{
    if matches_at(s, "{#if "@, pos) {
        spec_if(s, base, pos)
    } else if matches_at(s, "{#each "@, pos) {
        spec_each(s, base, pos)
    } else if 0 <= pos < s.len() && s[pos] == '<' && !matches_at(s, "</"@, pos) {
        match spec_element(s, base, pos) {
            Err(e) => Err(e),
            Ok((e, q)) => Ok((classify_element(e), q)),
        }
    } else if matches_at(s, lit_open_expr(), pos) {
        spec_expr(s, base, pos)
    } else {
        let q = scan_text(s, pos);
        Ok((HtmlNodeView::Text(s.subrange(pos, q)), q))
    }
}

/// Sibling nodes from `pos` until the closing tag of `parent`, a `{:`/`{/`
/// block boundary, or the end of input; appended to `acc`. Input at which
/// no node can be read (see [`stuck`]) is an error.
pub open spec fn spec_nodes(
    s: Seq<char>,
    base: int,
    pos: int,
    parent: Option<Seq<char>>,
    acc: Seq<HtmlNodeView>,
) -> Result<(Seq<HtmlNodeView>, int), ParseErrorView>
    decreases s.len() - pos, 4nat,
{
    if pos < 0 || pos >= s.len() {
        Ok((acc, pos))
    } else if at_parent_close(s, pos, parent) {
        Ok((acc, pos))
    } else if matches_at(s, "{:"@, pos) || matches_at(s, "{/"@, pos) {
        Ok((acc, pos))
    } else {
        match spec_node_at(s, base, pos) {
            Err(e) => Err(e),
            Ok((n, q)) => if pos < q <= s.len() {
                spec_nodes(s, base, q, parent, acc.push(n))
            } else {
                Err(stuck(s, base, pos))
            },
        }
    }
}

/// The HTML tree of fragment `s` whose first byte is at offset `base`.
pub open spec fn spec_parse_html(s: Seq<char>, base: int) -> Result<Seq<HtmlNodeView>, ParseErrorView> {
    match spec_nodes(s, base, 0, None, Seq::empty()) {
        Ok((nodes, _end)) => Ok(nodes),
        Err(e) => Err(e),
    }
}

} // verus!

verus! {

// ---------------------------------------------------------------------------
// Directive names and `{#each}` expressions
// ---------------------------------------------------------------------------

pub proof fn lemma_split_on_nonempty(s: Seq<char>, c: char)
    ensures
        split_on(s, c).len() >= 1,
{
}

/// `s` split at every occurrence of `c`.
pub fn split_char(s: &[char], c: char) -> (r: Vec<String>)
    ensures
        strings_view(r@) == split_on(s@, c),
{
    let mut out: Vec<String> = Vec::new();
    let mut start: usize = 0;
    let mut j: usize = 0;
    assert(strings_view(out@) =~= Seq::<Seq<char>>::empty());
    assert(s@.skip(0) =~= s@);
    loop
        invariant
            start <= j <= s@.len(),
            forall|m: int| start <= m < j ==> s@[m] != c,
            strings_view(out@) + split_on(s@.skip(start as int), c) == split_on(s@, c),
        decreases s@.len() - j,
    {
        let ghost t = s@.skip(start as int);
        if j == s.len() {
            proof {
                lemma_find_char_none(t, c, 0);
                assert(t =~= s@.subrange(start as int, j as int));
            }
            let part = substring(s, start, j);
            proof {
                lemma_strings_view_push(out@, part);
            }
            out.push(part);
            proof {
                assert(strings_view(out@) =~= strings_view(out@).take(out@.len() - 1) + seq![
                    part@,
                ]);
            }
            return out;
        }
        if s[j] == c {
            proof {
                lemma_find_char_least(t, c, 0, j - start);
                assert(t.take(j - start) =~= s@.subrange(start as int, j as int));
                assert(t.skip(j - start + 1) =~= s@.skip(j + 1));
            }
            let part = substring(s, start, j);
            proof {
                lemma_strings_view_push(out@, part);
                assert(strings_view(out@).push(part@) + split_on(s@.skip(j + 1), c) =~= strings_view(
                    out@,
                ) + (seq![part@] + split_on(s@.skip(j + 1), c)));
            }
            out.push(part);
            start = j + 1;
        }
        j = j + 1;
    }
}

/// Try to parse a directive name like `on:click` or `on:click|preventDefault`
/// into `(kind, argument, modifiers)`.
pub fn parse_directive_name(name: &[char]) -> (r: Option<(DirectiveKind, String, Vec<String>)>)
    ensures
        match r {
            Some((k, n, m)) => spec_directive_name(name@) == Some((k, n@, strings_view(m@))),
            None => spec_directive_name(name@) is None,
        },
{
    let on = chars_of("on:");
    let bind = chars_of("bind:");
    let class = chars_of("class:");
    let style = chars_of("style:");
    let use_ = chars_of("use:");
    proof {
        reveal_strlit("on:");
        reveal_strlit("bind:");
        reveal_strlit("class:");
        reveal_strlit("style:");
        reveal_strlit("use:");
    }
    let n = name.len();
    if matches_at_exec(name, on.as_slice(), 0) {
        let rest = vstd::slice::slice_subrange(name, 3, n);
        let mut parts = split_char(rest, '|');
        proof {
            lemma_split_on_nonempty(rest@, '|');
            assert(rest@ =~= name@.skip(3));
        }
        let event = parts.remove(0);
        proof {
            assert(strings_view(parts@) =~= split_on(name@.skip(3), '|').skip(1));
        }
        Some((DirectiveKind::On, event, parts))
    } else if matches_at_exec(name, bind.as_slice(), 0) {
        let arg = substring(name, 5, n);
        assert(arg@ =~= name@.skip(5));
        let mods: Vec<String> = Vec::new();
        assert(strings_view(mods@) =~= Seq::<Seq<char>>::empty());
        Some((DirectiveKind::Bind, arg, mods))
    } else if matches_at_exec(name, class.as_slice(), 0) {
        let arg = substring(name, 6, n);
        assert(arg@ =~= name@.skip(6));
        let mods: Vec<String> = Vec::new();
        assert(strings_view(mods@) =~= Seq::<Seq<char>>::empty());
        Some((DirectiveKind::Class, arg, mods))
    } else if matches_at_exec(name, style.as_slice(), 0) {
        let arg = substring(name, 6, n);
        assert(arg@ =~= name@.skip(6));
        let mods: Vec<String> = Vec::new();
        assert(strings_view(mods@) =~= Seq::<Seq<char>>::empty());
        Some((DirectiveKind::Style, arg, mods))
    } else if matches_at_exec(name, use_.as_slice(), 0) {
        let arg = substring(name, 4, n);
        assert(arg@ =~= name@.skip(4));
        let mods: Vec<String> = Vec::new();
        assert(strings_view(mods@) =~= Seq::<Seq<char>>::empty());
        Some((DirectiveKind::Use, arg, mods))
    } else {
        None
    }
}

/// Parse `"iterable as binding"` or `"iterable as binding, index"`.
pub fn parse_each_expr(expr: &[char]) -> (r: Option<(String, String, Option<String>)>)
    ensures
        match r {
            Some((a, b, c)) => spec_each_expr(expr@) == Some((a@, b@, opt_str(c))),
            None => spec_each_expr(expr@) is None,
        },
{
    let sep = chars_of(" as ");
    proof {
        reveal_strlit(" as ");
    }
    let n = expr.len();
    match find_exec(expr, sep.as_slice(), 0) {
        None => None,
        Some(k) => {
            proof {
                lemma_find_from_props(expr@, " as "@, 0);
            }
            let iterable = trimmed(expr, 0, k);
            let rest_s = trimmed(expr, k + 4, n);
            let rest = chars_of(rest_s.as_str());
            proof {
                assert(expr@.subrange(0, k as int) =~= expr@.take(k as int));
                assert(expr@.subrange(k + 4, expr@.len() as int) =~= expr@.skip(k + 4));
            }
            let rn = rest.len();
            match find_char_exec(rest.as_slice(), ',', 0) {
                Some(c) => {
                    proof {
                        lemma_find_char_props(rest@, ',', 0);
                        assert(rest@.subrange(0, c as int) =~= rest@.take(c as int));
                        assert(rest@.subrange(c + 1, rest@.len() as int) =~= rest@.skip(c + 1));
                    }
                    let binding = trimmed(rest.as_slice(), 0, c);
                    let index = trimmed(rest.as_slice(), c + 1, rn);
                    Some((iterable, binding, Some(index)))
                },
                None => Some((iterable, rest_s, None)),
            }
        },
    }
}

} // verus!

verus! {

// ---------------------------------------------------------------------------
// HTML tree: executable parser
// ---------------------------------------------------------------------------

pub open spec fn attrs_view(v: Seq<Attribute>) -> Seq<AttributeView> {
    v.map_values(|a: Attribute| a@)
}

pub open spec fn dirs_view(v: Seq<Directive>) -> Seq<DirectiveView> {
    v.map_values(|d: Directive| d@)
}

pub open spec fn opt_chars(o: Option<&[char]>) -> Option<Seq<char>> {
    match o {
        Some(t) => Some(t@),
        None => None,
    }
}

pub open spec fn nodes_result(r: Result<Vec<HtmlNode>, ParseError>) -> Result<
    Seq<HtmlNodeView>,
    ParseErrorView,
> {
    match r {
        Ok(v) => Ok(nodes_view(v@)),
        Err(e) => Err(e@),
    }
}

pub fn is_tag_name_end_char(c: char) -> (r: bool)
    ensures
        r == is_tag_name_end(c),
{
    c == '>' || c == '/' || is_tag_space_char(c)
}

pub fn is_attr_name_end_char(c: char) -> (r: bool)
    ensures
        r == is_attr_name_end(c),
{
    c == '=' || c == '>' || c == '/' || is_tag_space_char(c)
}

/// Is `t` one of the HTML void elements?
pub fn is_void_element(t: &[char]) -> (r: bool)
    ensures
        r == is_void_tag(t@),
{
    chars_eq(t, chars_of("area").as_slice()) || chars_eq(t, chars_of("base").as_slice()) || chars_eq(
        t,
        chars_of("br").as_slice(),
    ) || chars_eq(t, chars_of("col").as_slice()) || chars_eq(t, chars_of("embed").as_slice())
        || chars_eq(t, chars_of("hr").as_slice()) || chars_eq(t, chars_of("img").as_slice())
        || chars_eq(t, chars_of("input").as_slice()) || chars_eq(t, chars_of("link").as_slice())
        || chars_eq(t, chars_of("meta").as_slice()) || chars_eq(t, chars_of("param").as_slice())
        || chars_eq(t, chars_of("source").as_slice()) || chars_eq(t, chars_of("track").as_slice())
        || chars_eq(t, chars_of("wbr").as_slice())
}

pub proof fn lemma_attrs_view_push(v: Seq<Attribute>, x: Attribute)
    ensures
        attrs_view(v.push(x)) == attrs_view(v).push(x@),
{
    assert(attrs_view(v.push(x)) =~= attrs_view(v).push(x@));
}

pub proof fn lemma_dirs_view_push(v: Seq<Directive>, x: Directive)
    ensures
        dirs_view(v.push(x)) == dirs_view(v).push(x@),
{
    assert(dirs_view(v.push(x)) =~= dirs_view(v).push(x@));
}

/// A cursor over a template fragment (`input`), whose byte offsets are `offs`.
pub struct HtmlParser<'a> {
    input: &'a [char],
    offs: &'a [usize],
    pos: usize,
    base_offset: usize,
}

impl<'a> HtmlParser<'a> {
    pub closed spec fn wf(&self) -> bool {
        &&& is_offsets(self.offs@, self.input@, self.base_offset as int)
        &&& self.pos <= self.input@.len()
    }

    pub closed spec fn src(&self) -> Seq<char> {
        self.input@
    }

    pub closed spec fn base(&self) -> int {
        self.base_offset as int
    }

    pub closed spec fn same(&self, other: &Self) -> bool {
        &&& self.input@ == other.input@
        &&& self.offs@ == other.offs@
        &&& self.base_offset == other.base_offset
    }

    /// The unparsed rest of the input.
    fn remaining(&self) -> (r: &'a [char])
        requires
            self.wf(),
        ensures
            r@ == self.input@.skip(self.pos as int),
    {
        vstd::slice::slice_subrange(self.input, self.pos, self.input.len())
    }

    /// Byte offset of the cursor within the original input.
    fn abs_pos(&self) -> (r: usize)
        requires
            self.wf(),
        ensures
            r == bpos(self.input@, self.base_offset as int, self.pos as int),
    {
        self.offs[self.pos]
    }

    /// Does the input continue with `lit` at the cursor?
    fn at(&self, lit: &[char]) -> (r: bool)
        ensures
            r == matches_at(self.input@, lit@, self.pos as int),
    {
        matches_at_exec(self.input, lit, self.pos)
    }

    /// The error for input at which no rule applies.
    fn stuck_error(&self) -> (r: ParseError)
        requires
            self.wf(),
        ensures
            r@ == stuck(self.input@, self.base_offset as int, self.pos as int),
    {
        let p = self.abs_pos();
        ParseError::MalformedTag { detail: string_from(chars_of("unexpected input").as_slice()), span: Span::new(p, p) }
    }

    fn skip_whitespace(&mut self)
        requires
            old(self).wf(),
        ensures
            final(self).wf(),
            final(self).same(old(self)),
            final(self).pos == skip_tag_space(old(self).input@, old(self).pos as int),
    {
        let ghost p0 = self.pos as int;
        while self.pos < self.input.len() && is_tag_space_char(self.input[self.pos])
            invariant
                self.wf(),
                self.same(old(self)),
                p0 <= self.pos,
                skip_tag_space(self.input@, self.pos as int) == skip_tag_space(self.input@, p0),
            decreases self.input@.len() - self.pos,
        {
            self.pos = self.pos + 1;
        }
    }

    /// Plain text up to the next `<`, `{{`, `{#`, `{:` or `{/`.
    fn parse_text(&mut self) -> (r: String)
        requires
            old(self).wf(),
        ensures
            final(self).wf(),
            final(self).same(old(self)),
            final(self).pos == scan_text(old(self).input@, old(self).pos as int),
            r@ == old(self).input@.subrange(old(self).pos as int, final(self).pos as int),
    {
        let start = self.pos;
        let ghost s = self.input@;
        let n = self.input.len();
        while self.pos < n && !(self.input[self.pos] == '<' || (self.pos + 1 < n && self.input[self.pos] == '{'
            && (self.input[self.pos + 1] == '{' || self.input[self.pos + 1] == '#' || self.input[self.pos + 1] == ':'
            || self.input[self.pos + 1] == '/')))
            invariant
                self.wf(),
                self.same(old(self)),
                n == s.len(),
                s == self.input@,
                start <= self.pos,
                scan_text(s, self.pos as int) == scan_text(s, start as int),
            decreases n - self.pos,
        {
            self.pos = self.pos + 1;
        }
        substring(self.input, start, self.pos)
    }

    /// A `{{ expr }}` interpolation node.
    fn parse_expr(&mut self) -> (r: Result<HtmlNode, ParseError>)
        requires
            old(self).wf(),
            matches_at(old(self).input@, lit_open_expr(), old(self).pos as int),
        ensures
            final(self).wf(),
            final(self).same(old(self)),
            match r {
                Ok(n) => spec_expr(old(self).input@, old(self).base_offset as int, old(self).pos as int)
                    == Ok::<(HtmlNodeView, int), ParseErrorView>((n@, final(self).pos as int))
                    && old(self).pos < final(self).pos,
                Err(e) => spec_expr(old(self).input@, old(self).base_offset as int, old(self).pos as int)
                    == Err::<(HtmlNodeView, int), ParseErrorView>(e@),
            },
    {
        let ghost s = self.input@;
        let ghost b = self.base_offset as int;
        let close: Vec<char> = vec!['}', '}'];
        assert(close@ =~= lit_close_expr());
        let start = self.abs_pos();
        let n = self.input.len();
        let after_open = self.pos + 2;
        proof {
            assert(s.subrange(self.pos as int, self.pos + 2)[0] == '{');
            assert(s.subrange(self.pos as int, self.pos + 2)[1] == '{');
            lemma_utf8_len_ascii_step(s, self.pos as int);
            lemma_utf8_len_ascii_step(s, self.pos + 1);
        }
        match find_exec(self.input, close.as_slice(), after_open) {
            None => Err(ParseError::UnclosedInterpolation { span: Span::new(start, self.offs[after_open]) }),
            Some(c) => {
                proof {
                    lemma_find_from_props(s, lit_close_expr(), after_open as int);
                }
                let expr = trimmed(self.input, after_open, c);
                self.pos = c + 2;
                let end = self.abs_pos();
                Ok(HtmlNode::Expr { expr, span: Span::new(start, end) })
            },
        }
    }

    /// Slots, components and plain elements.
    fn classify(element: Element) -> (r: HtmlNode)
        ensures
            r@ == classify_element(element@),
    {
        let tag_chars = chars_of(element.tag.as_str());
        if chars_eq(tag_chars.as_slice(), chars_of("slot").as_slice()) {
            Self::element_to_slot(element)
        } else if tag_chars.len() > 0 && char_is_uppercase(tag_chars[0]) {
            HtmlNode::Component(element)
        } else {
            HtmlNode::Element(element)
        }
    }

    /// Convert a parsed `<slot>` element into an [`HtmlNode::Slot`].
    fn element_to_slot(element: Element) -> (r: HtmlNode)
        requires
            element.tag@ == "slot"@,
        ensures
            r@ == classify_element(element@),
    {
        let name = slot_name_of(&element.attributes);
        proof {
            assert(element_view(element).attributes == attrs_view(element.attributes@));
        }
        HtmlNode::Slot { name, children: element.children, span: element.span }
    }
}

/// The `<slot>` name: the leading static text of the first `name` attribute.
fn slot_name_of(attrs: &Vec<Attribute>) -> (r: Option<String>)
    ensures
        opt_str(r) == slot_name(attrs_view(attrs@), 0),
{
    let name_lit = chars_of("name");
    let mut i: usize = 0;
    let ghost av = attrs_view(attrs@);
    while i < attrs.len()
        invariant
            i <= attrs@.len(),
            av == attrs_view(attrs@),
            av.len() == attrs@.len(),
            name_lit@ == "name"@,
            slot_name(av, i as int) == slot_name(av, 0),
        decreases attrs@.len() - i,
    {
        let a = &attrs[i];
        assert(av[i as int] == a@);
        if chars_eq(chars_of(a.name.as_str()).as_slice(), name_lit.as_slice()) {
            if a.value.len() > 0 {
                assert(av[i as int].value[0] == a.value@[0]@);
                match &a.value[0] {
                    TemplateNode::Text(t) => {
                        return Some(t.clone());
                    },
                    TemplateNode::Expr { .. } => {
                        return None;
                    },
                }
            }
            return None;
        }
        i = i + 1;
    }
    None
}

} // verus!

verus! {

impl<'a> HtmlParser<'a> {
    /// `{prefix content}` at the cursor: returns the trimmed content.
    fn parse_block_tag(&mut self, prefix: &[char]) -> (r: Result<String, ParseError>)
        requires
            old(self).wf(),
            old(self).pos + 1 + prefix@.len() <= old(self).input@.len(),
        ensures
            final(self).wf(),
            final(self).same(old(self)),
            match r {
                Ok(c) => spec_block_tag(
                    old(self).input@,
                    old(self).base_offset as int,
                    old(self).pos as int,
                    prefix@,
                ) == Ok::<(Seq<char>, int), ParseErrorView>((c@, final(self).pos as int))
                    && old(self).pos < final(self).pos,
                Err(e) => spec_block_tag(
                    old(self).input@,
                    old(self).base_offset as int,
                    old(self).pos as int,
                    prefix@,
                ) == Err::<(Seq<char>, int), ParseErrorView>(e@),
            },
    {
        let ghost s = self.input@;
        let start = self.abs_pos();
        let _n = self.input.len();
        self.pos = self.pos + 1 + prefix.len();
        match find_char_exec(self.input, '}', self.pos) {
            None => {
                let detail = concat3(chars_of("unclosed {").as_slice(), prefix, chars_of("}").as_slice());
                Err(ParseError::MalformedTag { detail, span: Span::new(start, self.abs_pos()) })
            },
            Some(c) => {
                proof {
                    lemma_find_char_props(s, '}', self.pos as int);
                }
                let content = trimmed(self.input, self.pos, c);
                self.pos = c + 1;
                Ok(content)
            },
        }
    }

    /// One attribute or directive at the cursor, appended to `attributes`
    /// or `directives`.
    fn parse_attr_or_directive(
        &mut self,
        attributes: &mut Vec<Attribute>,
        directives: &mut Vec<Directive>,
    ) -> (r: Result<(), ParseError>)
        requires
            old(self).wf(),
        ensures
            final(self).wf(),
            final(self).same(old(self)),
            old(self).pos <= final(self).pos,
            match spec_attr(old(self).input@, old(self).base_offset as int, old(self).pos as int) {
                Ok((AttrItem::Attr(a), q)) => {
                    &&& r is Ok
                    &&& final(self).pos == q
                    &&& attrs_view(final(attributes)@) == attrs_view(old(attributes)@).push(a)
                    &&& final(directives)@ == old(directives)@
                },
                Ok((AttrItem::Dir(d), q)) => {
                    &&& r is Ok
                    &&& final(self).pos == q
                    &&& dirs_view(final(directives)@) == dirs_view(old(directives)@).push(d)
                    &&& final(attributes)@ == old(attributes)@
                },
                Err(e) => r matches Err(x) && x@ == e,
            },
    {
        let ghost s = self.input@;
        let ghost b = self.base_offset as int;
        let n = self.input.len();
        let attr_start = self.abs_pos();
        let name_start = self.pos;
        while self.pos < n && !is_attr_name_end_char(self.input[self.pos])
            invariant
                self.wf(),
                self.same(old(self)),
                n == s.len(),
                s == self.input@,
                name_start <= self.pos,
                scan_attr_name(s, self.pos as int) == scan_attr_name(s, name_start as int),
            decreases n - self.pos,
        {
            self.pos = self.pos + 1;
        }
        let name_end = self.pos;
        let full = vstd::slice::slice_subrange(self.input, name_start, name_end);
        if !(name_end < n && self.input[name_end] == '=') {
            let span = Span::new(attr_start, self.abs_pos());
            match parse_directive_name(full) {
                Some((kind, name, modifiers)) => {
                    let d = Directive { kind, name, modifiers, value: String::new(), span };
                    proof {
                        lemma_dirs_view_push(directives@, d);
                    }
                    directives.push(d);
                },
                None => {
                    let value: Vec<TemplateNode> = Vec::new();
                    let a = Attribute { name: string_from(full), value, span };
                    proof {
                        assert(tnodes_view(value@) =~= Seq::<TemplateNodeView>::empty());
                        lemma_attrs_view_push(attributes@, a);
                    }
                    attributes.push(a);
                },
            }
            return Ok(());
        }
        self.pos = self.pos + 1;
        if !(self.pos < n && self.input[self.pos] == '"') {
            let detail = concat3(chars_of("expected '\"' after ").as_slice(), full, chars_of("=").as_slice());
            return Err(ParseError::MalformedTag { detail, span: Span::new(attr_start, self.abs_pos()) });
        }
        self.pos = self.pos + 1;
        let val_start = self.pos;
        match find_char_exec(self.input, '"', val_start) {
            None => {
                let detail = string_from(concat_chars(chars_of("unclosed attribute value for ").as_slice(), full).as_slice());
                Err(ParseError::MalformedTag { detail, span: Span::new(attr_start, self.abs_pos()) })
            },
            Some(cq) => {
                proof {
                    lemma_find_char_props(s, '"', val_start as int);
                }
                self.pos = cq + 1;
                let span = Span::new(attr_start, self.abs_pos());
                match parse_directive_name(full) {
                    Some((kind, name, modifiers)) => {
                        let d = Directive { kind, name, modifiers, value: substring(self.input, val_start, cq), span };
                        proof {
                            lemma_dirs_view_push(directives@, d);
                        }
                        directives.push(d);
                    },
                    None => {
                        let mut value: Vec<TemplateNode> = Vec::new();
                        if cq == val_start {
                            value.push(TemplateNode::Text(String::new()));
                            proof {
                                assert(tnodes_view(value@) =~= seq![TemplateNodeView::Text(Seq::empty())]);
                            }
                        } else {
                            let vs = vstd::slice::slice_subrange(self.input, val_start, cq);
                            let vbase = self.offs[val_start];
                            proof {
                                lemma_utf8_len_subrange(s, val_start as int, cq as int);
                                lemma_bpos_mono(s, b, cq as int, s.len() as int);
                            }
                            let voffs = byte_offsets(vs, vbase);
                            value = template_nodes(vs, &voffs, Ghost(vbase as int))?;
                        }
                        let a = Attribute { name: string_from(full), value, span };
                        proof {
                            lemma_attrs_view_push(attributes@, a);
                        }
                        attributes.push(a);
                    },
                }
                Ok(())
            },
        }
    }
}

} // verus!

verus! {

impl<'a> HtmlParser<'a> {
    fn at_parent_close(&self, t: &[char]) -> (r: bool)
        requires
            self.wf(),
        ensures
            r == at_parent_close(self.input@, self.pos as int, Some(t@)),
    {
        let close = concat_chars(chars_of("</").as_slice(), t);
        proof {
            reveal_strlit("</");
        }
        let n = self.input.len();
        if !self.at(close.as_slice()) {
            return false;
        }
        let a = self.pos + 2 + t.len();
        a < n && (self.input[a] == '>' || is_space_char(self.input[a]))
    }

    fn at_tag_end(&self) -> (r: bool)
        requires
            self.wf(),
        ensures
            r == (self.pos >= self.input@.len() || self.input@[self.pos as int] == '>' || matches_at(
                self.input@,
                "/>"@,
                self.pos as int,
            )),
    {
        self.pos >= self.input.len() || self.input[self.pos] == '>' || self.at(chars_of("/>").as_slice())
    }

    /// Attributes and directives up to the `>` or `/>` that ends the opening tag.
    fn parse_attributes(&mut self) -> (r: Result<(Vec<Attribute>, Vec<Directive>), ParseError>)
        requires
            old(self).wf(),
        ensures
            final(self).wf(),
            final(self).same(old(self)),
            match r {
                Ok((a, d)) => spec_attrs(
                    old(self).input@,
                    old(self).base_offset as int,
                    old(self).pos as int,
                    Seq::empty(),
                    Seq::empty(),
                ) == Ok::<(Seq<AttributeView>, Seq<DirectiveView>, int), ParseErrorView>(
                    (attrs_view(a@), dirs_view(d@), final(self).pos as int),
                ) && old(self).pos <= final(self).pos,
                Err(e) => spec_attrs(
                    old(self).input@,
                    old(self).base_offset as int,
                    old(self).pos as int,
                    Seq::empty(),
                    Seq::empty(),
                ) == Err::<(Seq<AttributeView>, Seq<DirectiveView>, int), ParseErrorView>(e@),
            },
    {
        let ghost s = self.input@;
        let ghost b = self.base_offset as int;
        let ghost p0 = self.pos as int;
        let n = self.input.len();
        let mut attributes: Vec<Attribute> = Vec::new();
        let mut directives: Vec<Directive> = Vec::new();
        proof {
            assert(attrs_view(attributes@) =~= Seq::<AttributeView>::empty());
            assert(dirs_view(directives@) =~= Seq::<DirectiveView>::empty());
        }
        while !self.at_tag_end()
            invariant
                self.wf(),
                self.same(old(self)),
                s == self.input@,
                n == s.len(),
                b == self.base_offset as int,
                p0 == old(self).pos as int,
                p0 <= self.pos,
                spec_attrs(s, b, self.pos as int, attrs_view(attributes@), dirs_view(directives@))
                    == spec_attrs(s, b, p0, Seq::empty(), Seq::empty()),
            decreases n - self.pos,
        {
            let before = self.pos;
            let ghost av = attrs_view(attributes@);
            let ghost dv = dirs_view(directives@);
            self.parse_attr_or_directive(&mut attributes, &mut directives)?;
            let q = self.pos;
            self.skip_whitespace();
            proof {
                lemma_skip_tag_space_bounds(s, q as int);
            }
            if q == before {
                let here = self.pos;
                self.pos = before;
                let e = self.stuck_error();
                self.pos = here;
                return Err(e);
            }
        }
        Ok((attributes, directives))
    }

    /// Parse an opening tag, its children, and its closing tag.
    fn parse_element(&mut self) -> (r: Result<Element, ParseError>)
        requires
            old(self).wf(),
            old(self).pos < old(self).input@.len(),
            old(self).input@[old(self).pos as int] == '<',
        ensures
            final(self).wf(),
            final(self).same(old(self)),
            match r {
                Ok(e) => spec_element(old(self).input@, old(self).base_offset as int, old(self).pos as int)
                    == Ok::<(ElementView, int), ParseErrorView>((e@, final(self).pos as int))
                    && old(self).pos < final(self).pos,
                Err(e) => spec_element(old(self).input@, old(self).base_offset as int, old(self).pos as int)
                    == Err::<(ElementView, int), ParseErrorView>(e@),
            },
        decreases old(self).input@.len() - old(self).pos, 2nat,
    {
        let ghost s = self.input@;
        let ghost b = self.base_offset as int;
        let ghost p0 = self.pos as int;
        let n = self.input.len();
        let elem_start = self.abs_pos();
        self.pos = self.pos + 1;
        let tag_start = self.pos;
        while self.pos < n && !is_tag_name_end_char(self.input[self.pos])
            invariant
                self.wf(),
                self.same(old(self)),
                n == s.len(),
                s == self.input@,
                tag_start <= self.pos,
                scan_tag_name(s, self.pos as int) == scan_tag_name(s, tag_start as int),
            decreases n - self.pos,
        {
            self.pos = self.pos + 1;
        }
        let tag_end = self.pos;
        proof {
            assert(scan_tag_name(s, tag_end as int) == tag_end as int);
            lemma_skip_tag_space_bounds(s, tag_end as int);
        }
        let tag_slice = vstd::slice::slice_subrange(self.input, tag_start, tag_end);
        let tag = string_from(tag_slice);
        self.skip_whitespace();
        let p2 = self.pos;
        let (attributes, directives) = self.parse_attributes()?;
        let p3 = self.pos;
        let slash_gt = chars_of("/>");
        proof {
            reveal_strlit("/>");
        }
        let explicit = self.at(slash_gt.as_slice());
        if explicit {
            self.pos = self.pos + 2;
        } else if self.pos < n && self.input[self.pos] == '>' {
            self.pos = self.pos + 1;
        } else {
            let detail = concat3(chars_of("unclosed opening tag <").as_slice(), tag_slice, chars_of(">").as_slice());
            return Err(ParseError::MalformedTag { detail, span: Span::new(elem_start, self.abs_pos()) });
        }
        let is_void = is_void_element(tag_slice);
        let self_closing = explicit || is_void;
        let mut children: Vec<HtmlNode> = Vec::new();
        if !self_closing {
            children = self.parse_nodes(Some(tag_slice))?;
            let close = concat_chars(concat_chars(chars_of("</").as_slice(), tag_slice).as_slice(), chars_of(">").as_slice());
            if !self.at(close.as_slice()) {
                let detail = concat3(chars_of("missing closing tag </").as_slice(), tag_slice, chars_of(">").as_slice());
                return Err(ParseError::MalformedTag { detail, span: Span::new(elem_start, self.abs_pos()) });
            }
            self.pos = self.pos + close.len();
        } else {
            proof {
                assert(nodes_view(children@) =~= Seq::<HtmlNodeView>::empty());
            }
        }
        let elem_end = self.abs_pos();
        Ok(Element { tag, attributes, directives, children, self_closing, span: Span::new(elem_start, elem_end) })
    }

    /// The single node at the cursor.
    #[verifier::rlimit(40)]
    fn parse_node(&mut self) -> (r: Result<HtmlNode, ParseError>)
        requires
            old(self).wf(),
            old(self).pos < old(self).input@.len(),
        ensures
            final(self).wf(),
            final(self).same(old(self)),
            match r {
                Ok(node) => spec_node_at(old(self).input@, old(self).base_offset as int, old(self).pos as int)
                    == Ok::<(HtmlNodeView, int), ParseErrorView>((node@, final(self).pos as int))
                    && old(self).pos <= final(self).pos,
                Err(e) => spec_node_at(old(self).input@, old(self).base_offset as int, old(self).pos as int)
                    == Err::<(HtmlNodeView, int), ParseErrorView>(e@),
            },
        decreases old(self).input@.len() - old(self).pos, 3nat,
    {
        let ghost s = self.input@;
        let if_open = chars_of("{#if ");
        let each_open = chars_of("{#each ");
        let lt_slash = chars_of("</");
        let expr_open: Vec<char> = vec!['{', '{'];
        proof {
            reveal_strlit("{#if ");
            reveal_strlit("{#each ");
            assert(expr_open@ =~= lit_open_expr());
        }
        if self.at(if_open.as_slice()) {
            self.parse_if_block()
        } else if self.at(each_open.as_slice()) {
            self.parse_each_block()
        } else if self.input[self.pos] == '<' && !self.at(lt_slash.as_slice()) {
            let element = self.parse_element()?;
            Ok(Self::classify(element))
        } else if self.at(expr_open.as_slice()) {
            self.parse_expr()
        } else {
            proof {
                lemma_scan_text_bounds(s, self.pos as int);
            }
            Ok(HtmlNode::Text(self.parse_text()))
        }
    }

    /// Parse nodes until the closing tag of `parent`, a `{:`/`{/` boundary,
    /// or the end of input.
    fn parse_nodes(&mut self, parent: Option<&[char]>) -> (r: Result<Vec<HtmlNode>, ParseError>)
        requires
            old(self).wf(),
        ensures
            final(self).wf(),
            final(self).same(old(self)),
            match r {
                Ok(v) => spec_nodes(
                    old(self).input@,
                    old(self).base_offset as int,
                    old(self).pos as int,
                    opt_chars(parent),
                    Seq::empty(),
                ) == Ok::<(Seq<HtmlNodeView>, int), ParseErrorView>((nodes_view(v@), final(self).pos as int))
                    && old(self).pos <= final(self).pos,
                Err(e) => spec_nodes(
                    old(self).input@,
                    old(self).base_offset as int,
                    old(self).pos as int,
                    opt_chars(parent),
                    Seq::empty(),
                ) == Err::<(Seq<HtmlNodeView>, int), ParseErrorView>(e@),
            },
        decreases old(self).input@.len() - old(self).pos, 4nat,
    {
        let ghost s = self.input@;
        let ghost b = self.base_offset as int;
        let ghost p0 = self.pos as int;
        let ghost pv = opt_chars(parent);
        let n = self.input.len();
        let brace_colon = chars_of("{:");
        let brace_slash = chars_of("{/");
        let mut nodes: Vec<HtmlNode> = Vec::new();
        proof {
            assert(nodes_view(nodes@) =~= Seq::<HtmlNodeView>::empty());
        }
        loop
            invariant
                self.wf(),
                self.same(old(self)),
                s == self.input@,
                n == s.len(),
                b == self.base_offset as int,
                p0 == old(self).pos as int,
                p0 <= self.pos,
                pv == opt_chars(parent),
                brace_colon@ == "{:"@,
                brace_slash@ == "{/"@,
                spec_nodes(s, b, self.pos as int, pv, nodes_view(nodes@)) == spec_nodes(
                    s,
                    b,
                    p0,
                    pv,
                    Seq::empty(),
                ),
            decreases n - self.pos,
        {
            if self.pos >= n {
                return Ok(nodes);
            }
            if let Some(t) = parent {
                if self.at_parent_close(t) {
                    return Ok(nodes);
                }
            }
            if self.at(brace_colon.as_slice()) || self.at(brace_slash.as_slice()) {
                return Ok(nodes);
            }
            let before = self.pos;
            let node = self.parse_node()?;
            if self.pos == before {
                self.pos = before;
                return Err(self.stuck_error());
            }
            proof {
                lemma_nodes_view_push(nodes@, node);
            }
            nodes.push(node);
        }
    }

    /// Parse an `{#if}` / `{:else if}` / `{:else}` / `{/if}` block.
    fn parse_if_block(&mut self) -> (r: Result<HtmlNode, ParseError>)
        requires
            old(self).wf(),
            matches_at(old(self).input@, "{#if "@, old(self).pos as int),
        ensures
            final(self).wf(),
            final(self).same(old(self)),
            match r {
                Ok(node) => spec_if(old(self).input@, old(self).base_offset as int, old(self).pos as int)
                    == Ok::<(HtmlNodeView, int), ParseErrorView>((node@, final(self).pos as int))
                    && old(self).pos < final(self).pos,
                Err(e) => spec_if(old(self).input@, old(self).base_offset as int, old(self).pos as int)
                    == Err::<(HtmlNodeView, int), ParseErrorView>(e@),
            },
        decreases old(self).input@.len() - old(self).pos, 2nat,
    {
        let ghost s = self.input@;
        let ghost b = self.base_offset as int;
        let n = self.input.len();
        let block_start_idx = self.pos;
        let block_start = self.abs_pos();
        let if_prefix = chars_of("#if");
        let else_if_open = chars_of("{:else if ");
        let else_if_prefix = chars_of(":else if");
        let else_open = chars_of("{:else");
        let else_prefix = chars_of(":else");
        let close_if = chars_of("{/if}");
        proof {
            reveal_strlit("{#if ");
            reveal_strlit("#if");
            reveal_strlit("{:else if ");
            reveal_strlit(":else if");
            reveal_strlit("{:else");
            reveal_strlit(":else");
            reveal_strlit("{/if}");
        }
        let cond0 = self.parse_block_tag(if_prefix.as_slice())?;
        let ghost p1 = self.pos as int;
        let ghost c0 = cond0@;
        let mut branches: Vec<IfBranch> = Vec::new();
        let mut had_else = false;
        let mut current_condition: Option<String> = Some(cond0);
        proof {
            assert(branches_view(branches@) =~= Seq::<IfBranchView>::empty());
        }
        loop
            invariant
                self.wf(),
                self.same(old(self)),
                s == self.input@,
                n == s.len(),
                b == self.base_offset as int,
                block_start_idx == old(self).pos,
                block_start == bpos(s, b, block_start_idx as int),
                block_start_idx < self.pos,
                else_if_open@ == "{:else if "@,
                else_if_prefix@ == ":else if"@,
                else_open@ == "{:else"@,
                else_prefix@ == ":else"@,
                close_if@ == "{/if}"@,
                else_if_open@.len() == 10,
                else_if_prefix@.len() == 8,
                else_open@.len() == 6,
                else_prefix@.len() == 5,
                close_if@.len() == 5,
                spec_branches(
                    s,
                    b,
                    self.pos as int,
                    block_start_idx as int,
                    opt_str(current_condition),
                    had_else,
                    branches_view(branches@),
                ) == spec_branches(s, b, p1, block_start_idx as int, Some(c0), false, Seq::empty()),
                spec_if(s, b, block_start_idx as int) == match spec_branches(
                    s,
                    b,
                    p1,
                    block_start_idx as int,
                    Some(c0),
                    false,
                    Seq::empty(),
                ) {
                    Err(e) => Err(e),
                    Ok((brs, q)) => Ok(
                        (
                            HtmlNodeView::If {
                                branches: brs,
                                span: mk_span(bpos(s, b, block_start_idx as int), bpos(s, b, q)),
                            },
                            q,
                        ),
                    ),
                },
            decreases n - self.pos,
        {
            let branch_start = self.abs_pos();
            let children = self.parse_nodes(None)?;
            let branch_end = self.abs_pos();
            let cond = current_condition;
            current_condition = None;
            let br = IfBranch { condition: cond, children, span: Span::new(branch_start, branch_end) };
            proof {
                lemma_branches_view_push(branches@, br);
            }
            branches.push(br);
            if had_else {
                if self.at(close_if.as_slice()) {
                    self.pos = self.pos + 5;
                    let block_end = self.abs_pos();
                    return Ok(HtmlNode::If { branches, span: Span::new(block_start, block_end) });
                }
                return Err(ParseError::UnclosedIfBlock { span: Span::new(block_start, self.abs_pos()) });
            }
            if self.at(else_if_open.as_slice()) {
                let c = self.parse_block_tag(else_if_prefix.as_slice())?;
                current_condition = Some(c);
            } else if self.at(else_open.as_slice()) {
                let _ = self.parse_block_tag(else_prefix.as_slice())?;
                current_condition = None;
                had_else = true;
            } else if self.at(close_if.as_slice()) {
                self.pos = self.pos + 5;
                let block_end = self.abs_pos();
                return Ok(HtmlNode::If { branches, span: Span::new(block_start, block_end) });
            } else {
                return Err(ParseError::UnclosedIfBlock { span: Span::new(block_start, self.abs_pos()) });
            }
        }
    }

    /// Parse an `{#each iterable as binding}` / `{/each}` block.
    fn parse_each_block(&mut self) -> (r: Result<HtmlNode, ParseError>)
        requires
            old(self).wf(),
            matches_at(old(self).input@, "{#each "@, old(self).pos as int),
        ensures
            final(self).wf(),
            final(self).same(old(self)),
            match r {
                Ok(node) => spec_each(old(self).input@, old(self).base_offset as int, old(self).pos as int)
                    == Ok::<(HtmlNodeView, int), ParseErrorView>((node@, final(self).pos as int))
                    && old(self).pos < final(self).pos,
                Err(e) => spec_each(old(self).input@, old(self).base_offset as int, old(self).pos as int)
                    == Err::<(HtmlNodeView, int), ParseErrorView>(e@),
            },
        decreases old(self).input@.len() - old(self).pos, 2nat,
    {
        let ghost s = self.input@;
        let n = self.input.len();
        let block_start = self.abs_pos();
        let each_prefix = chars_of("#each");
        let close_each = chars_of("{/each}");
        proof {
            reveal_strlit("{#each ");
            reveal_strlit("#each");
            reveal_strlit("{/each}");
        }
        let tag_content = self.parse_block_tag(each_prefix.as_slice())?;
        let content_chars = chars_of(tag_content.as_str());
        match parse_each_expr(content_chars.as_slice()) {
            None => Err(ParseError::InvalidEachExpression { detail: tag_content, span: Span::new(block_start, self.abs_pos()) }),
            Some((iterable, binding, index)) => {
                let children = self.parse_nodes(None)?;
                if !self.at(close_each.as_slice()) {
                    return Err(ParseError::UnclosedEachBlock { span: Span::new(block_start, self.abs_pos()) });
                }
                self.pos = self.pos + 7;
                let block_end = self.abs_pos();
                Ok(HtmlNode::Each { iterable, binding, index, children, span: Span::new(block_start, block_end) })
            },
        }
    }
}

pub proof fn lemma_skip_tag_space_bounds(s: Seq<char>, i: int)
    requires
        0 <= i <= s.len(),
    ensures
        i <= skip_tag_space(s, i) <= s.len(),
    decreases s.len() - i,
{
    if i < s.len() && is_tag_space(s[i]) {
        lemma_skip_tag_space_bounds(s, i + 1);
    }
}

pub proof fn lemma_scan_text_bounds(s: Seq<char>, i: int)
    requires
        0 <= i <= s.len(),
    ensures
        i <= scan_text(s, i) <= s.len(),
    decreases s.len() - i,
{
    if i < s.len() && !is_text_stop(s, i) {
        lemma_scan_text_bounds(s, i + 1);
    }
}

/// The HTML tree of the fragment `s` (byte offsets `offs`).
pub fn html_nodes(s: &[char], offs: &[usize], Ghost(base): Ghost<int>) -> (r: Result<Vec<HtmlNode>, ParseError>)
    requires
        is_offsets(offs@, s@, base),
    ensures
        nodes_result(r) == spec_parse_html(s@, base),
{
    let base_offset = offs[0];
    proof {
        assert(s@.take(0) =~= Seq::<char>::empty());
    }
    let mut parser = HtmlParser { input: s, offs, pos: 0, base_offset };
    parser.parse_nodes(None)
}

/// Parse a template fragment string into an HTML node tree.
///
/// A lightweight, non-validating parser for elements with attributes and
/// directives, self-closing and void elements, `{{ expr }}` interpolations
/// (also inside attribute values), `{#if}`/`{#each}` blocks, components and
/// slots. `base_offset` is the byte offset of `fragment` in the original input.
///
/// Errors: [`ParseError::UnclosedInterpolation`], [`ParseError::MalformedTag`],
/// [`ParseError::UnclosedIfBlock`], [`ParseError::UnclosedEachBlock`],
/// [`ParseError::InvalidEachExpression`].
pub fn parse_html(fragment: &str, base_offset: usize) -> (r: Result<Vec<HtmlNode>, ParseError>)
    requires
        base_offset + utf8_len(fragment@) <= usize::MAX,
    ensures
        nodes_result(r) == spec_parse_html(fragment@, base_offset as int),
{
    let s = chars_of(fragment);
    let offs = byte_offsets(s.as_slice(), base_offset);
    html_nodes(s.as_slice(), offs.as_slice(), Ghost(base_offset as int))
}

} // verus!

verus! {

/// The source text a template node was parsed from: a text node's own
/// text, or the `{{ ... }}` slice under an expression's byte span (`base`
/// is the byte offset of `s`).
pub open spec fn node_source(s: Seq<char>, base: int, n: TemplateNodeView) -> Seq<char> {
    match n {
        TemplateNodeView::Text(t) => t,
        TemplateNodeView::Expr { span, .. } => s.subrange(
            crate::lower::char_index(s, span.start - base),
            crate::lower::char_index(s, span.end - base),
        ),
    }
}

/// The source texts of `nodes`, concatenated in order.
pub open spec fn nodes_source(s: Seq<char>, base: int, nodes: Seq<TemplateNodeView>) -> Seq<char>
    decreases nodes.len(),
{
    if nodes.len() == 0 {
        Seq::empty()
    } else {
        nodes_source(s, base, nodes.drop_last()) + node_source(s, base, nodes.last())
    }
}

/// A node as the splitter makes it: a text is not empty; an expression's
/// source is `{{`, an inner text without `}}`, and `}}`, and its
/// expression is that inner text trimmed.
pub open spec fn well_split(s: Seq<char>, base: int, n: TemplateNodeView) -> bool {
    match n {
        TemplateNodeView::Text(t) => t.len() > 0,
        TemplateNodeView::Expr { expr, .. } => {
            let raw = node_source(s, base, n);
            &&& raw.len() >= 4
            &&& raw.take(2) == lit_open_expr()
            &&& raw.skip(raw.len() - 2) == lit_close_expr()
            &&& find(raw.subrange(2, raw.len() - 2), lit_close_expr()) is None
            &&& expr == trim(raw.subrange(2, raw.len() - 2))
        },
    }
}

/// No two text nodes are next to each other.
pub open spec fn no_adjacent_texts(nodes: Seq<TemplateNodeView>) -> bool {
    forall|i: int| 0 <= i < nodes.len() - 1 ==> !((#[trigger] nodes[i]) is Text && nodes[i + 1] is Text)
}

proof fn lemma_no_match_inside(s: Seq<char>, p: Seq<char>, a: int, b: int)
    requires
        0 <= a <= b <= s.len(),
        p.len() > 0,
        forall|m: int| a <= m < b ==> !matches_at(s, p, m),
    ensures
        find(s.subrange(a, b), p) is None,
{
    let r = s.subrange(a, b);
    lemma_find_from_props(r, p, 0);
    if let Some(j) = find(r, p) {
        assert(r.subrange(j, j + p.len()) =~= s.subrange(a + j, a + j + p.len()));
        assert(matches_at(s, p, a + j));
        assert(a <= a + j < b);
    }
}

proof fn lemma_expr_node(s: Seq<char>, base: int, k: int, c: int)
    requires
        0 <= base,
        base + utf8_len(s) <= usize::MAX,
        0 <= k,
        k + 2 <= c,
        c + 2 <= s.len(),
        matches_at(s, lit_close_expr(), c),
        s.subrange(k, k + 2) == lit_open_expr(),
        forall|m: int| k + 2 <= m < c ==> !matches_at(s, lit_close_expr(), m),
    ensures
        ({
            let e = TemplateNodeView::Expr {
                expr: trim(s.subrange(k + 2, c)),
                span: mk_span(bpos(s, base, k), bpos(s, base, c + 2)),
            };
            &&& node_source(s, base, e) == s.subrange(k, c + 2)
            &&& well_split(s, base, e)
        }),
{
    crate::lower::lemma_char_index(s, k);
    crate::lower::lemma_char_index(s, c + 2);
    lemma_bpos_mono(s, base, k, c + 2);
    lemma_bpos_mono(s, 0, k, c + 2);
    let raw = s.subrange(k, c + 2);
    assert(raw.take(2) =~= s.subrange(k, k + 2));
    assert(raw.skip(raw.len() - 2) =~= s.subrange(c, c + 2));
    assert(raw.subrange(2, raw.len() - 2) =~= s.subrange(k + 2, c));
    lemma_no_match_inside(s, lit_close_expr(), k + 2, c);
}

#[verifier::rlimit(40)]
proof fn lemma_split_source(s: Seq<char>, base: int, pos: int, acc: Seq<TemplateNodeView>)
    requires
        0 <= base,
        base + utf8_len(s) <= usize::MAX,
        0 <= pos <= s.len(),
        nodes_source(s, base, acc) == s.take(pos),
        forall|i: int| 0 <= i < acc.len() ==> well_split(s, base, #[trigger] acc[i]),
        no_adjacent_texts(acc),
        acc.len() == 0 || acc.last() is Expr,
    ensures
        split_interpolations(s, base, pos, acc) matches Ok(nodes) ==> {
            &&& nodes_source(s, base, nodes) == s
            &&& forall|i: int| 0 <= i < nodes.len() ==> well_split(s, base, #[trigger] nodes[i])
            &&& no_adjacent_texts(nodes)
        },
    decreases s.len() - pos,
{
    if pos >= s.len() {
        assert(s.take(pos) =~= s);
    } else {
        lemma_find_from_props(s, lit_open_expr(), pos);
        match find_from(s, lit_open_expr(), pos) {
            None => {
                let t = s.subrange(pos, s.len() as int);
                let nodes = acc.push(TemplateNodeView::Text(t));
                assert(nodes.drop_last() =~= acc);
                assert(s.take(pos) + t =~= s);
                assert forall|i: int| 0 <= i < nodes.len() implies well_split(s, base, #[trigger] nodes[i]) by {
                    if i < acc.len() {
                        assert(nodes[i] == acc[i]);
                    }
                }
                assert forall|i: int| 0 <= i < nodes.len() - 1 implies !((#[trigger] nodes[i]) is Text
                    && nodes[i + 1] is Text) by {
                    assert(nodes[i] == acc[i]);
                    if i < acc.len() - 1 {
                        assert(nodes[i + 1] == acc[i + 1]);
                    }
                }
            },
            Some(k) => {
                let acc1 = if k > pos {
                    acc.push(TemplateNodeView::Text(s.subrange(pos, k)))
                } else {
                    acc
                };
                lemma_find_from_props(s, lit_close_expr(), k + 2);
                match find_from(s, lit_close_expr(), k + 2) {
                    None => {},
                    Some(c) => {
                        let e = TemplateNodeView::Expr {
                            expr: trim(s.subrange(k + 2, c)),
                            span: mk_span(bpos(s, base, k), bpos(s, base, c + 2)),
                        };
                        let acc2 = acc1.push(e);
                        let raw = s.subrange(k, c + 2);
                        lemma_expr_node(s, base, k, c);
                        // The source so far.
                        if k > pos {
                            assert(acc1.drop_last() =~= acc);
                            assert(s.take(pos) + s.subrange(pos, k) =~= s.take(k));
                        }
                        assert(nodes_source(s, base, acc1) == s.take(k));
                        assert(acc2.drop_last() =~= acc1);
                        assert(s.take(k) + raw =~= s.take(c + 2));
                        assert forall|i: int| 0 <= i < acc2.len() implies well_split(s, base, #[trigger] acc2[i]) by {
                            if i < acc.len() {
                                assert(acc2[i] == acc[i]);
                            }
                        }
                        assert forall|i: int| 0 <= i < acc2.len() - 1 implies !((#[trigger] acc2[i]) is Text
                            && acc2[i + 1] is Text) by {
                            if i < acc.len() - 1 {
                                assert(acc2[i] == acc[i] && acc2[i + 1] == acc[i + 1]);
                            } else if i == acc.len() - 1 {
                                assert(acc2[i] == acc[i]);
                            }
                        }
                        lemma_split_source(s, base, c + 2, acc2);
                    },
                }
            },
        }
    }
}

/// Law: a parsed template gives its fragment back: the texts and the
/// `{{ ... }}` slices under the expressions' spans, in order, concatenate
/// to the fragment; each expression slice is `{{`, an inner text without
/// `}}` and `}}`, the expression being that inner text trimmed; no text
/// node is empty and no two text nodes are adjacent.
pub proof fn lemma_parse_template_reconstructs(s: Seq<char>, base: int)
    requires
        0 <= base,
        base + utf8_len(s) <= usize::MAX,
    ensures
        spec_parse_template(s, base) matches Ok(nodes) ==> {
            &&& nodes_source(s, base, nodes) == s
            &&& forall|i: int| 0 <= i < nodes.len() ==> well_split(s, base, #[trigger] nodes[i])
            &&& no_adjacent_texts(nodes)
        },
{
    assert(s.take(0) =~= Seq::<char>::empty());
    lemma_split_source(s, base, 0, Seq::empty());
}

} // verus!

verus! {

/// Every node of the tree is classified by its tag: an element's tag is
/// not `slot` and does not start with an upper-case letter; a component's
/// tag is not `slot` and starts with one; and so for every node below,
/// inside elements, components, slots, `{#if}` branches, `{#each}` and
/// `<thebe:head>` blocks.
pub open spec fn classified(n: HtmlNodeView) -> bool
    decreases n,
{
    match n {
        HtmlNodeView::Element(e) => e.tag != "slot"@ && !(e.tag.len() > 0 && is_upper(e.tag[0]))
            && forall|i: int| 0 <= i < e.children.len() ==> classified(#[trigger] e.children[i]),
        HtmlNodeView::Component(e) => e.tag != "slot"@ && e.tag.len() > 0 && is_upper(e.tag[0])
            && forall|i: int| 0 <= i < e.children.len() ==> classified(#[trigger] e.children[i]),
        HtmlNodeView::Slot { children, .. } => forall|i: int|
            0 <= i < children.len() ==> classified(#[trigger] children[i]),
        HtmlNodeView::If { branches, .. } => forall|i: int, j: int|
            0 <= i < branches.len() && 0 <= j < branches[i].children.len() ==> classified(
                #[trigger] branches[i].children[j],
            ),
        HtmlNodeView::Each { children, .. } => forall|i: int|
            0 <= i < children.len() ==> classified(#[trigger] children[i]),
        HtmlNodeView::Head { children, .. } => forall|i: int|
            0 <= i < children.len() ==> classified(#[trigger] children[i]),
        _ => true,
    }
}

pub open spec fn all_classified(ns: Seq<HtmlNodeView>) -> bool {
    forall|i: int| 0 <= i < ns.len() ==> classified(#[trigger] ns[i])
}

pub open spec fn branches_classified(bs: Seq<IfBranchView>) -> bool {
    forall|i: int| 0 <= i < bs.len() ==> all_classified(#[trigger] bs[i].children)
}

proof fn lemma_nodes_classified(
    s: Seq<char>,
    base: int,
    pos: int,
    parent: Option<Seq<char>>,
    acc: Seq<HtmlNodeView>,
)
    requires
        all_classified(acc),
    ensures
        spec_nodes(s, base, pos, parent, acc) matches Ok((ns, _q)) ==> all_classified(ns),
    decreases s.len() - pos, 4nat,
{
    if pos < 0 || pos >= s.len() {
    } else if at_parent_close(s, pos, parent) {
    } else if matches_at(s, "{:"@, pos) || matches_at(s, "{/"@, pos) {
    } else {
        lemma_node_at_classified(s, base, pos);
        match spec_node_at(s, base, pos) {
            Err(e) => {},
            Ok((n, q)) => if pos < q <= s.len() {
                assert(all_classified(acc.push(n))) by {
                    assert forall|i: int| 0 <= i < acc.push(n).len() implies classified(#[trigger] acc.push(n)[i]) by {
                        if i < acc.len() {
                            assert(acc.push(n)[i] == acc[i]);
                        }
                    }
                }
                lemma_nodes_classified(s, base, q, parent, acc.push(n));
            },
        }
    }
}

proof fn lemma_node_at_classified(s: Seq<char>, base: int, pos: int)
    ensures
        spec_node_at(s, base, pos) matches Ok((n, _q)) ==> classified(n),
    decreases s.len() - pos, 3nat,
{
    if matches_at(s, "{#if "@, pos) {
        lemma_if_classified(s, base, pos);
    } else if matches_at(s, "{#each "@, pos) {
        lemma_each_classified(s, base, pos);
    } else if 0 <= pos < s.len() && s[pos] == '<' && !matches_at(s, "</"@, pos) {
        lemma_element_classified(s, base, pos);
    } else if matches_at(s, lit_open_expr(), pos) {
        reveal_with_fuel(classified, 1);
    }
}

proof fn lemma_element_classified(s: Seq<char>, base: int, pos: int)
    ensures
        spec_element(s, base, pos) matches Ok((e, _q)) ==> all_classified(e.children),
    decreases s.len() - pos, 2nat,
{
    let t = scan_tag_name(s, pos + 1);
    let tag = s.subrange(pos + 1, t);
    let p2 = skip_tag_space(s, t);
    if 0 <= pos < p2 <= s.len() {
        match spec_attrs(s, base, p2, Seq::empty(), Seq::empty()) {
            Err(e) => {},
            Ok((attrs, dirs, p3)) => {
                let explicit = matches_at(s, "/>"@, p3);
                let p4 = if explicit {
                    p3 + 2
                } else {
                    p3 + 1
                };
                if pos < p4 <= s.len() {
                    lemma_nodes_classified(s, base, p4, Some(tag), Seq::empty());
                }
            },
        }
    }
}

proof fn lemma_branches_classified(
    s: Seq<char>,
    base: int,
    pos: int,
    start: int,
    cond: Option<Seq<char>>,
    had_else: bool,
    acc: Seq<IfBranchView>,
)
    requires
        branches_classified(acc),
    ensures
        spec_branches(s, base, pos, start, cond, had_else, acc) matches Ok((bs, _q)) ==> branches_classified(bs),
    decreases s.len() - pos, 5nat,
{
    if 0 <= pos <= s.len() {
        lemma_nodes_classified(s, base, pos, None, Seq::empty());
        match spec_nodes(s, base, pos, None, Seq::empty()) {
            Err(e) => {},
            Ok((kids, q)) => {
                if pos <= q <= s.len() {
                    let acc1 = acc.push(
                        IfBranchView {
                            condition: cond,
                            children: kids,
                            span: mk_span(bpos(s, base, pos), bpos(s, base, q)),
                        },
                    );
                    assert(branches_classified(acc1)) by {
                        assert forall|i: int| 0 <= i < acc1.len() implies all_classified(#[trigger] acc1[i].children) by {
                            if i < acc.len() {
                                assert(acc1[i] == acc[i]);
                            }
                        }
                    }
                    if !had_else {
                        if matches_at(s, "{:else if "@, q) {
                            match spec_block_tag(s, base, q, ":else if"@) {
                                Err(e) => {},
                                Ok((c2, q2)) => if q < q2 <= s.len() {
                                    lemma_branches_classified(s, base, q2, start, Some(c2), false, acc1);
                                },
                            }
                        } else if matches_at(s, "{:else"@, q) {
                            match spec_block_tag(s, base, q, ":else"@) {
                                Err(e) => {},
                                Ok((_c2, q2)) => if q < q2 <= s.len() {
                                    lemma_branches_classified(s, base, q2, start, None, true, acc1);
                                },
                            }
                        }
                    }
                }
            },
        }
    }
}

proof fn lemma_if_classified(s: Seq<char>, base: int, pos: int)
    ensures
        spec_if(s, base, pos) matches Ok((n, _q)) ==> classified(n),
    decreases s.len() - pos, 2nat,
{
    match spec_block_tag(s, base, pos, "#if"@) {
        Err(e) => {},
        Ok((cond, p)) => if 0 <= pos < p <= s.len() {
            lemma_branches_classified(s, base, p, pos, Some(cond), false, Seq::empty());
            match spec_branches(s, base, p, pos, Some(cond), false, Seq::empty()) {
                Err(e) => {},
                Ok((brs, q)) => {
                    let n = HtmlNodeView::If { branches: brs, span: mk_span(bpos(s, base, pos), bpos(s, base, q)) };
                    assert forall|i: int, j: int|
                        0 <= i < brs.len() && 0 <= j < brs[i].children.len() implies classified(
                            #[trigger] brs[i].children[j],
                        ) by {
                        assert(all_classified(brs[i].children));
                    }
                    assert(classified(n));
                },
            }
        },
    }
}

proof fn lemma_each_classified(s: Seq<char>, base: int, pos: int)
    ensures
        spec_each(s, base, pos) matches Ok((n, _q)) ==> classified(n),
    decreases s.len() - pos, 2nat,
{
    match spec_block_tag(s, base, pos, "#each"@) {
        Err(e) => {},
        Ok((content, p)) => match spec_each_expr(content) {
            None => {},
            Some((iterable, binding, index)) => if 0 <= pos < p <= s.len() {
                lemma_nodes_classified(s, base, p, None, Seq::empty());
            },
        },
    }
}

/// Law: every node of a parsed HTML tree, at any depth, is classified by
/// its tag: `<slot>` gives a slot, a tag starting with an upper-case
/// letter a component, any other tag a plain element (see [`classified`]).
pub proof fn lemma_parse_html_classified(s: Seq<char>, base: int)
    ensures
        spec_parse_html(s, base) matches Ok(ns) ==> all_classified(ns),
{
    lemma_nodes_classified(s, base, 0, None, Seq::empty());
}

} // verus!

verus! {

proof fn lemma_utf8_len_ascii(s: Seq<char>)
    requires
        forall|i: int| 0 <= i < s.len() ==> (#[trigger] s[i] as u32) < 0x80,
    ensures
        utf8_len(s) == s.len(),
    decreases s.len(),
{
    if s.len() > 0 {
        let pre = s.drop_last();
        assert forall|i: int| 0 <= i < pre.len() implies (#[trigger] pre[i] as u32) < 0x80 by {
            assert(pre[i] == s[i]);
        }
        lemma_utf8_len_ascii(pre);
        assert((s.last() as u32) < 0x80);
    }
}

proof fn lemma_scan_name_to_end(s: Seq<char>, i: int, e: int)
    requires
        1 <= i <= e < s.len(),
        forall|k: int| i <= k < e ==> !is_tag_name_end(#[trigger] s[k]),
        is_tag_name_end(s[e]),
    ensures
        scan_tag_name(s, i) == e,
    decreases e - i,
{
    if i < e {
        lemma_scan_name_to_end(s, i + 1, e);
    }
}

/// `<t>` for a tag name `t` (no `>`, `/` or tag whitespace in it) of ASCII
/// characters that is a void element parses as that one element,
/// self-closing, with no attributes, directives or children, spanning the
/// whole opening tag.
proof fn lemma_void_tag_parses(t: Seq<char>, b: int)
    requires
        t.len() > 0,
        forall|i: int| 0 <= i < t.len() ==> !is_tag_name_end(#[trigger] t[i]) && (t[i] as u32) < 0x80,
        is_void_tag(t),
    ensures
        spec_parse_html("<"@ + t + ">"@, b) == Ok::<Seq<HtmlNodeView>, ParseErrorView>(
            seq![
                classify_element(
                    ElementView {
                        tag: t,
                        attributes: Seq::empty(),
                        directives: Seq::empty(),
                        children: Seq::empty(),
                        self_closing: true,
                        span: mk_span(b, b + t.len() + 2),
                    },
                ),
            ],
        ),
{
    reveal_strlit("<");
    reveal_strlit(">");
    reveal_strlit("/>");
    reveal_strlit("</");
    reveal_strlit("{#if ");
    reveal_strlit("{#each ");
    reveal_strlit("{:");
    reveal_strlit("{/");
    let s = "<"@ + t + ">"@;
    let n = t.len() as int;
    assert(s.len() == n + 2);
    assert(s[0] == '<');
    assert(s[n + 1] == '>');
    assert forall|k: int| 1 <= k < n + 1 implies !is_tag_name_end(#[trigger] s[k]) by {
        assert(s[k] == t[k - 1]);
    }
    assert(s[1] == t[0]);
    assert forall|i: int| 0 <= i < s.len() implies (#[trigger] s[i] as u32) < 0x80 by {
        if 1 <= i < n + 1 {
            assert(s[i] == t[i - 1]);
        }
    }
    lemma_scan_name_to_end(s, 1, n + 1);
    assert(s.subrange(1, n + 1) =~= t);
    assert(skip_tag_space(s, n + 1) == n + 1);
    assert(spec_attrs(s, b, n + 1, Seq::empty(), Seq::empty()) == Ok::<
        (Seq<AttributeView>, Seq<DirectiveView>, int),
        ParseErrorView,
    >((Seq::empty(), Seq::empty(), n + 1)));
    assert(!matches_at(s, "/>"@, n + 1));
    assert(s.take(0) =~= Seq::<char>::empty());
    assert(s.take(n + 2) =~= s);
    lemma_utf8_len_ascii(s);
    assert(bpos(s, b, 0) == b);
    assert(bpos(s, b, n + 2) == b + n + 2);
    let e = ElementView {
        tag: t,
        attributes: Seq::empty(),
        directives: Seq::empty(),
        children: Seq::empty(),
        self_closing: true,
        span: mk_span(b, b + t.len() + 2),
    };
    assert(spec_element(s, b, 0) == Ok::<(ElementView, int), ParseErrorView>((e, n + 2)));
    assert(!matches_at(s, "{#if "@, 0));
    assert(!matches_at(s, "{#each "@, 0));
    assert(!matches_at(s, "</"@, 0));
    assert(spec_node_at(s, b, 0) == Ok::<(HtmlNodeView, int), ParseErrorView>((classify_element(e), n + 2)));
    assert(!matches_at(s, "{:"@, 0));
    assert(!matches_at(s, "{/"@, 0));
    assert(spec_nodes(s, b, n + 2, None, seq![classify_element(e)]) == Ok::<
        (Seq<HtmlNodeView>, int),
        ParseErrorView,
    >((seq![classify_element(e)], n + 2)));
    assert(Seq::<HtmlNodeView>::empty().push(classify_element(e)) =~= seq![classify_element(e)]);
}

/// Law: each HTML void element (`area`, `base`, `br`, `col`, `embed`, `hr`,
/// `img`, `input`, `link`, `meta`, `param`, `source`, `track`, `wbr`),
/// opened as `<name>` without `/>`, parses as one self-closing element with
/// that tag and no attributes, directives or children, consuming no closing
/// tag: the element spans exactly the opening tag.
pub proof fn lemma_void_elements_self_close(t: Seq<char>, b: int)
    requires
        t == "area"@ || t == "base"@ || t == "br"@ || t == "col"@ || t == "embed"@ || t == "hr"@ || t
            == "img"@ || t == "input"@ || t == "link"@ || t == "meta"@ || t == "param"@ || t == "source"@
            || t == "track"@ || t == "wbr"@,
    ensures
        is_void_tag(t),
        spec_parse_html("<"@ + t + ">"@, b) == Ok::<Seq<HtmlNodeView>, ParseErrorView>(
            seq![
                classify_element(
                    ElementView {
                        tag: t,
                        attributes: Seq::empty(),
                        directives: Seq::empty(),
                        children: Seq::empty(),
                        self_closing: true,
                        span: mk_span(b, b + t.len() + 2),
                    },
                ),
            ],
        ),
{
    reveal_strlit("area");
    reveal_strlit("base");
    reveal_strlit("br");
    reveal_strlit("col");
    reveal_strlit("embed");
    reveal_strlit("hr");
    reveal_strlit("img");
    reveal_strlit("input");
    reveal_strlit("link");
    reveal_strlit("meta");
    reveal_strlit("param");
    reveal_strlit("source");
    reveal_strlit("track");
    reveal_strlit("wbr");
    assert(t.len() > 0);
    assert forall|i: int| 0 <= i < t.len() implies !is_tag_name_end(#[trigger] t[i]) && (t[i] as u32) < 0x80 by {
        assert('a' <= t[i] && t[i] <= 'z');
    }
    lemma_void_tag_parses(t, b);
}

/// `<t>` for an ASCII tag name `t` (no `>`, `/` or tag whitespace in it)
/// that is not a void element is an error: the element waits for `</t>`
/// and the input ends first.
proof fn lemma_open_tag_unclosed(t: Seq<char>, b: int)
    requires
        t.len() > 0,
        forall|i: int| 0 <= i < t.len() ==> !is_tag_name_end(#[trigger] t[i]) && (t[i] as u32) < 0x80,
        !is_void_tag(t),
    ensures
        spec_parse_html("<"@ + t + ">"@, b) == Err::<Seq<HtmlNodeView>, ParseErrorView>(
            ParseErrorView::MalformedTag {
                detail: "missing closing tag </"@ + t + ">"@,
                span: mk_span(b, b + t.len() + 2),
            },
        ),
{
    reveal_strlit("<");
    reveal_strlit(">");
    reveal_strlit("/>");
    reveal_strlit("</");
    reveal_strlit("{#if ");
    reveal_strlit("{#each ");
    reveal_strlit("{:");
    reveal_strlit("{/");
    let s = "<"@ + t + ">"@;
    let n = t.len() as int;
    assert(s.len() == n + 2);
    assert(s[0] == '<');
    assert(s[n + 1] == '>');
    assert forall|k: int| 1 <= k < n + 1 implies !is_tag_name_end(#[trigger] s[k]) by {
        assert(s[k] == t[k - 1]);
    }
    assert(s[1] == t[0]);
    assert forall|i: int| 0 <= i < s.len() implies (#[trigger] s[i] as u32) < 0x80 by {
        if 1 <= i < n + 1 {
            assert(s[i] == t[i - 1]);
        }
    }
    lemma_scan_name_to_end(s, 1, n + 1);
    assert(s.subrange(1, n + 1) =~= t);
    assert(skip_tag_space(s, n + 1) == n + 1);
    assert(spec_attrs(s, b, n + 1, Seq::empty(), Seq::empty()) == Ok::<
        (Seq<AttributeView>, Seq<DirectiveView>, int),
        ParseErrorView,
    >((Seq::empty(), Seq::empty(), n + 1)));
    assert(!matches_at(s, "/>"@, n + 1));
    assert(spec_nodes(s, b, n + 2, Some(t), Seq::empty()) == Ok::<
        (Seq<HtmlNodeView>, int),
        ParseErrorView,
    >((Seq::empty(), n + 2)));
    assert(!matches_at(s, "</"@ + t + ">"@, n + 2));
    assert(s.take(0) =~= Seq::<char>::empty());
    assert(s.take(n + 2) =~= s);
    lemma_utf8_len_ascii(s);
    assert(bpos(s, b, 0) == b);
    assert(bpos(s, b, n + 2) == b + n + 2);
    let err = ParseErrorView::MalformedTag {
        detail: "missing closing tag </"@ + t + ">"@,
        span: mk_span(b, b + t.len() + 2),
    };
    assert(spec_element(s, b, 0) == Err::<(ElementView, int), ParseErrorView>(err));
    assert(!matches_at(s, "{#if "@, 0));
    assert(!matches_at(s, "{#each "@, 0));
    assert(!matches_at(s, "</"@, 0));
    assert(spec_node_at(s, b, 0) == Err::<(HtmlNodeView, int), ParseErrorView>(err));
    assert(!matches_at(s, "{:"@, 0));
    assert(!matches_at(s, "{/"@, 0));
}

/// Law: an opening tag `<name>` without `/>` and with nothing after it
/// parses exactly when `name` is an HTML void element (`area`, `base`,
/// `br`, `col`, `embed`, `hr`, `img`, `input`, `link`, `meta`, `param`,
/// `source`, `track`, `wbr`); for any other ASCII tag name it is the error
/// "missing closing tag </name>" spanning the opening tag.
pub proof fn lemma_open_tag_alone(t: Seq<char>, b: int)
    requires
        t.len() > 0,
        forall|i: int| 0 <= i < t.len() ==> !is_tag_name_end(#[trigger] t[i]) && (t[i] as u32) < 0x80,
    ensures
        (spec_parse_html("<"@ + t + ">"@, b) is Ok) <==> (t == "area"@ || t == "base"@ || t == "br"@
            || t == "col"@ || t == "embed"@ || t == "hr"@ || t == "img"@ || t == "input"@ || t
            == "link"@ || t == "meta"@ || t == "param"@ || t == "source"@ || t == "track"@ || t
            == "wbr"@),
        !(t == "area"@ || t == "base"@ || t == "br"@ || t == "col"@ || t == "embed"@ || t == "hr"@
            || t == "img"@ || t == "input"@ || t == "link"@ || t == "meta"@ || t == "param"@ || t
            == "source"@ || t == "track"@ || t == "wbr"@) ==> spec_parse_html("<"@ + t + ">"@, b)
            == Err::<Seq<HtmlNodeView>, ParseErrorView>(
            ParseErrorView::MalformedTag {
                detail: "missing closing tag </"@ + t + ">"@,
                span: mk_span(b, b + t.len() + 2),
            },
        ),
{
    if is_void_tag(t) {
        lemma_void_tag_parses(t, b);
    } else {
        lemma_open_tag_unclosed(t, b);
    }
}

} // verus!
