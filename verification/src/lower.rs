//! Lowering: from the parsed AST and its source to the IR.

use std::hash::{DefaultHasher, Hash, Hasher};
use vstd::prelude::*;
use vstd::std_specs::hash::DefaultHasherAdditionalSpecFns;
use crate::error::{CompileError, CompileErrorView};
use crate::ir::{
    ClientScript, ClientScriptView, CompiledComponent, CompiledComponentView, ProcessedStyle,
    ProcessedStyleView, SetupBlock, opt_client_view,
    EventModifier, IrAction, IrAttribute, IrBinding, IrClassToggle, IrComponentRef, IrConst,
    IrConstView, IrDirectiveView, IrEach, IrElement, IrElementView, IrEventHandler,
    IrEventHandlerView, IrExpr, IrExprView, IrIf, IrIfBranch, IrIfBranchView, IrNode, IrNodeView,
    IrSlot, IrStyleProp, actions_view, attrs_view, bindings_view, events_view,
    ir_branches_view, ir_component_view, ir_element_view, ir_node_view, ir_nodes_view,
    lemma_ir_branches_view_push, lemma_ir_nodes_view_push, style_props_view, toggles_view,
};
use crate::parser::{
    BlockKind, close_tag_of, empty_ast, lemma_find_next_block, parse_from, spec_extract_attr,
    spec_find_next_block, spec_has_bool_attr, spec_parse, spec_push_fragment, with_template,
};
use crate::template::{parse_html, spec_parse_html};
use crate::text::{
    bpos, concat_chars, find_from, lemma_find_from_props, lead_len, lemma_skip_space_back_bounds, lemma_skip_space_bounds,
    lemma_utf8_len_mono, skip_space_back_exec, skip_space_exec, string_from, trim, byte_offsets, chars_eq, chars_of, lemma_bpos_mono, lemma_utf8_len_full,
    lemma_utf8_len_subrange, str_byte_len, substring, utf8_len,
};
use crate::types::{
    Attribute, Directive, DirectiveKind, DirectiveView, Element, ElementView, HtmlNode,
    HtmlNodeView, IfBranch, IfBranchView, ParseError, ParseErrorView, ScriptBlock,
    ScriptBlockView, Span, StyleBlock, StyleBlockView, mk_span,
    TemplateNode, ThebeAst, ThebeAstView,
    branch_view, branches_view, element_view, lemma_branches_view_index,
    lemma_branches_view_len, lemma_nodes_view_index, lemma_nodes_view_len,
    node_view, nodes_view, opt_str, tnodes_view,
};

verus! {

// ---------------------------------------------------------------------------
// Event modifiers
// ---------------------------------------------------------------------------

/// The modifier named by `m`, if it is one of the eight known modifiers.
pub open spec fn modifier_of(m: Seq<char>) -> Option<EventModifier> {
    if m == "preventDefault"@ {
        Some(EventModifier::PreventDefault)
    } else if m == "stopPropagation"@ {
        Some(EventModifier::StopPropagation)
    } else if m == "once"@ {
        Some(EventModifier::Once)
    } else if m == "capture"@ {
        Some(EventModifier::Capture)
    } else if m == "self"@ {
        Some(EventModifier::Self_)
    } else if m == "trusted"@ {
        Some(EventModifier::Trusted)
    } else if m == "passive"@ {
        Some(EventModifier::Passive)
    } else if m == "nonpassive"@ {
        Some(EventModifier::NonPassive)
    } else {
        None
    }
}

/// The typed modifiers of a directive at `span`; the first unknown one is an error.
pub open spec fn lower_modifiers(ms: Seq<Seq<char>>, span: Span) -> Result<
    Seq<EventModifier>,
    CompileErrorView,
>
    decreases ms.len(),
{
    if ms.len() == 0 {
        Ok(Seq::empty())
    } else {
        match lower_modifiers(ms.drop_last(), span) {
            Err(e) => Err(e),
            Ok(prev) => match modifier_of(ms.last()) {
                Some(m) => Ok(prev.push(m)),
                None => Err(CompileErrorView::UnknownEventModifier { modifier: ms.last(), span }),
            },
        }
    }
}

pub open spec fn modifier_result(r: Result<EventModifier, CompileError>) -> Result<
    EventModifier,
    CompileErrorView,
> {
    match r {
        Ok(m) => Ok(m),
        Err(e) => Err(e@),
    }
}

/// Parse a string event modifier into its typed representation.
pub fn parse_event_modifier(modifier: &str, span: Span) -> (r: Result<EventModifier, CompileError>)
    ensures
        modifier_result(r) == match modifier_of(modifier@) {
            Some(m) => Ok::<EventModifier, CompileErrorView>(m),
            None => Err(CompileErrorView::UnknownEventModifier { modifier: modifier@, span }),
        },
{
    let m = chars_of(modifier);
    if chars_eq(&m, &chars_of("preventDefault")) {
        Ok(EventModifier::PreventDefault)
    } else if chars_eq(&m, &chars_of("stopPropagation")) {
        Ok(EventModifier::StopPropagation)
    } else if chars_eq(&m, &chars_of("once")) {
        Ok(EventModifier::Once)
    } else if chars_eq(&m, &chars_of("capture")) {
        Ok(EventModifier::Capture)
    } else if chars_eq(&m, &chars_of("self")) {
        Ok(EventModifier::Self_)
    } else if chars_eq(&m, &chars_of("trusted")) {
        Ok(EventModifier::Trusted)
    } else if chars_eq(&m, &chars_of("passive")) {
        Ok(EventModifier::Passive)
    } else if chars_eq(&m, &chars_of("nonpassive")) {
        Ok(EventModifier::NonPassive)
    } else {
        Err(CompileError::UnknownEventModifier { modifier: modifier.to_string(), span })
    }
}

// ---------------------------------------------------------------------------
// Directive decomposition
// ---------------------------------------------------------------------------

/// An element's directives, split by kind, in source order.
#[verifier::ext_equal]
pub struct DecomposedView {
    pub events: Seq<IrEventHandlerView>,
    pub bindings: Seq<IrDirectiveView>,
    pub class_toggles: Seq<IrDirectiveView>,
    pub style_props: Seq<IrDirectiveView>,
    pub actions: Seq<IrDirectiveView>,
}

pub open spec fn no_directives() -> DecomposedView {
    DecomposedView {
        events: Seq::empty(),
        bindings: Seq::empty(),
        class_toggles: Seq::empty(),
        style_props: Seq::empty(),
        actions: Seq::empty(),
    }
}

/// `d` with the directive `dir` added to the list of its kind.
pub open spec fn add_directive(d: DecomposedView, dir: DirectiveView) -> Result<
    DecomposedView,
    CompileErrorView,
> {
    let item = IrDirectiveView { name: dir.name, value: dir.value, span: dir.span };
    match dir.kind {
        DirectiveKind::On => match lower_modifiers(dir.modifiers, dir.span) {
            Err(e) => Err(e),
            Ok(ms) => Ok(
                DecomposedView {
                    events: d.events.push(
                        IrEventHandlerView {
                            event: dir.name,
                            handler: dir.value,
                            modifiers: ms,
                            span: dir.span,
                        },
                    ),
                    ..d
                },
            ),
        },
        DirectiveKind::Bind => Ok(DecomposedView { bindings: d.bindings.push(item), ..d }),
        DirectiveKind::Class => Ok(DecomposedView { class_toggles: d.class_toggles.push(item), ..d }),
        DirectiveKind::Style => Ok(DecomposedView { style_props: d.style_props.push(item), ..d }),
        DirectiveKind::Use => Ok(DecomposedView { actions: d.actions.push(item), ..d }),
    }
}

/// The directives `ds` split into typed fields; the first `on:` directive
/// with an unknown modifier is an error.
pub open spec fn decompose_spec(ds: Seq<DirectiveView>) -> Result<DecomposedView, CompileErrorView>
    decreases ds.len(),
{
    if ds.len() == 0 {
        Ok(no_directives())
    } else {
        match decompose_spec(ds.drop_last()) {
            Err(e) => Err(e),
            Ok(d) => add_directive(d, ds.last()),
        }
    }
}

pub struct Decomposed {
    pub events: Vec<IrEventHandler>,
    pub bindings: Vec<IrBinding>,
    pub class_toggles: Vec<IrClassToggle>,
    pub style_props: Vec<IrStyleProp>,
    pub actions: Vec<IrAction>,
}

pub open spec fn decomposed_view(d: Decomposed) -> DecomposedView {
    DecomposedView {
        events: events_view(d.events@),
        bindings: bindings_view(d.bindings@),
        class_toggles: toggles_view(d.class_toggles@),
        style_props: style_props_view(d.style_props@),
        actions: actions_view(d.actions@),
    }
}

fn lower_modifier_list(ms: &Vec<String>, span: Span) -> (r: Result<Vec<EventModifier>, CompileError>)
    ensures
        match r {
            Ok(v) => lower_modifiers(ms@.map_values(|m: String| m@), span) == Ok::<
                Seq<EventModifier>,
                CompileErrorView,
            >(v@),
            Err(e) => lower_modifiers(ms@.map_values(|m: String| m@), span) == Err::<
                Seq<EventModifier>,
                CompileErrorView,
            >(e@),
        },
{
    let ghost full = ms@.map_values(|m: String| m@);
    let mut out: Vec<EventModifier> = Vec::new();
    let mut i: usize = 0;
    while i < ms.len()
        invariant
            i <= ms@.len(),
            full == ms@.map_values(|m: String| m@),
            lower_modifiers(full.take(i as int), span) == Ok::<Seq<EventModifier>, CompileErrorView>(
                out@,
            ),
        decreases ms@.len() - i,
    {
        proof {
            assert(full.take(i + 1).drop_last() =~= full.take(i as int));
            assert(full.take(i + 1).last() == ms@[i as int]@);
        }
        match parse_event_modifier(ms[i].as_str(), span) {
            Ok(m) => {
                out.push(m);
            },
            Err(e) => {
                proof {
                    lemma_modifiers_prefix_err(full, i as int + 1, span);
                }
                return Err(e);
            },
        }
        i = i + 1;
    }
    proof {
        assert(full.take(i as int) =~= full);
    }
    Ok(out)
}

/// An error in the modifiers of a prefix is the error of the whole list.
pub proof fn lemma_modifiers_prefix_err(ms: Seq<Seq<char>>, k: int, span: Span)
    requires
        0 <= k <= ms.len(),
        lower_modifiers(ms.take(k), span) is Err,
    ensures
        lower_modifiers(ms, span) == lower_modifiers(ms.take(k), span),
    decreases ms.len() - k,
{
    if k < ms.len() {
        assert(ms.take(k + 1).drop_last() =~= ms.take(k));
        lemma_modifiers_prefix_err(ms, k + 1, span);
    } else {
        assert(ms.take(k) =~= ms);
    }
}

/// An error in the directives of a prefix is the error of the whole list.
pub proof fn lemma_decompose_prefix_err(ds: Seq<DirectiveView>, k: int)
    requires
        0 <= k <= ds.len(),
        decompose_spec(ds.take(k)) is Err,
    ensures
        decompose_spec(ds) == decompose_spec(ds.take(k)),
    decreases ds.len() - k,
{
    if k < ds.len() {
        assert(ds.take(k + 1).drop_last() =~= ds.take(k));
        lemma_decompose_prefix_err(ds, k + 1);
    } else {
        assert(ds.take(k) =~= ds);
    }
}

pub open spec fn dirs_of(el: &Element) -> Seq<DirectiveView> {
    el.directives@.map_values(|d: Directive| d@)
}

/// Split an element's generic directives into typed IR fields.
fn decompose_directives(el: &Element) -> (r: Result<Decomposed, CompileError>)
    ensures
        match r {
            Ok(d) => decompose_spec(dirs_of(el)) == Ok::<DecomposedView, CompileErrorView>(
                decomposed_view(d),
            ),
            Err(e) => decompose_spec(dirs_of(el)) == Err::<DecomposedView, CompileErrorView>(e@),
        },
{
    let ghost full = dirs_of(el);
    let mut d = Decomposed {
        events: Vec::new(),
        bindings: Vec::new(),
        class_toggles: Vec::new(),
        style_props: Vec::new(),
        actions: Vec::new(),
    };
    proof {
        assert(decomposed_view(d) =~= no_directives());
        assert(full.take(0) =~= Seq::<DirectiveView>::empty());
    }
    let mut i: usize = 0;
    while i < el.directives.len()
        invariant
            i <= el.directives@.len(),
            full == dirs_of(el),
            decompose_spec(full.take(i as int)) == Ok::<DecomposedView, CompileErrorView>(
                decomposed_view(d),
            ),
        decreases el.directives@.len() - i,
    {
        let dir = &el.directives[i];
        proof {
            assert(full.take(i + 1).drop_last() =~= full.take(i as int));
            assert(full.take(i + 1).last() == dir@);
        }
        let ghost before = decomposed_view(d);
        match dir.kind {
            DirectiveKind::On => {
                match lower_modifier_list(&dir.modifiers, dir.span) {
                    Ok(modifiers) => {
                        let ev = IrEventHandler {
                            event: dir.name.clone(),
                            handler: dir.value.clone(),
                            modifiers,
                            span: dir.span,
                        };
                        d.events.push(ev);
                        proof {
                            assert(events_view(d.events@) =~= before.events.push(ev@));
                        }
                    },
                    Err(e) => {
                        proof {
                            lemma_decompose_prefix_err(full, i as int + 1);
                        }
                        return Err(e);
                    },
                }
            },
            DirectiveKind::Bind => {
                let b = IrBinding {
                    property: dir.name.clone(),
                    expression: dir.value.clone(),
                    span: dir.span,
                };
                d.bindings.push(b);
                proof {
                    assert(bindings_view(d.bindings@) =~= before.bindings.push(b@));
                }
            },
            DirectiveKind::Class => {
                let t = IrClassToggle {
                    class: dir.name.clone(),
                    condition: dir.value.clone(),
                    span: dir.span,
                };
                d.class_toggles.push(t);
                proof {
                    assert(toggles_view(d.class_toggles@) =~= before.class_toggles.push(t@));
                }
            },
            DirectiveKind::Style => {
                let p = IrStyleProp {
                    property: dir.name.clone(),
                    value: dir.value.clone(),
                    span: dir.span,
                };
                d.style_props.push(p);
                proof {
                    assert(style_props_view(d.style_props@) =~= before.style_props.push(p@));
                }
            },
            DirectiveKind::Use => {
                let a = IrAction {
                    name: dir.name.clone(),
                    argument: dir.value.clone(),
                    span: dir.span,
                };
                d.actions.push(a);
                proof {
                    assert(actions_view(d.actions@) =~= before.actions.push(a@));
                }
            },
        }
        i = i + 1;
    }
    proof {
        assert(full.take(i as int) =~= full);
    }
    Ok(d)
}

// ---------------------------------------------------------------------------
// Node lowering
// ---------------------------------------------------------------------------

/// The IR of an element (or component) tag: its directives decomposed, its
/// attributes kept, its children lowered. A directive error comes before any
/// error in the children.
pub open spec fn lower_element_spec(e: ElementView) -> Result<IrElementView, CompileErrorView>
    decreases e, 0nat,
{
    match decompose_spec(e.directives) {
        Err(x) => Err(x),
        Ok(d) => match lower_nodes_spec(e.children) {
            Err(x) => Err(x),
            Ok(ch) => Ok(
                IrElementView {
                    tag: e.tag,
                    attributes: e.attributes,
                    events: d.events,
                    bindings: d.bindings,
                    class_toggles: d.class_toggles,
                    style_props: d.style_props,
                    actions: d.actions,
                    children: ch,
                    self_closing: e.self_closing,
                    span: e.span,
                },
            ),
        },
    }
}

pub open spec fn lower_branch_spec(b: IfBranchView) -> Result<IrIfBranchView, CompileErrorView>
    decreases b, 0nat,
{
    match lower_nodes_spec(b.children) {
        Err(x) => Err(x),
        Ok(ch) => Ok(IrIfBranchView { condition: b.condition, children: ch, span: b.span }),
    }
}

/// The branches lowered in order; the first error wins.
pub open spec fn lower_branches_spec(bs: Seq<IfBranchView>) -> Result<
    Seq<IrIfBranchView>,
    CompileErrorView,
>
    decreases bs, 0nat,
{
    if bs.len() == 0 {
        Ok(Seq::empty())
    } else {
        match lower_branches_spec(bs.subrange(0, bs.len() - 1)) {
            Err(x) => Err(x),
            Ok(prev) => match lower_branch_spec(bs[bs.len() - 1]) {
                Err(x) => Err(x),
                Ok(b) => Ok(prev.push(b)),
            },
        }
    }
}

/// The IR node of a template node. A `<thebe:head>` block below the top
/// level of a template region is an error.
pub open spec fn lower_node_spec(n: HtmlNodeView) -> Result<IrNodeView, CompileErrorView>
    decreases n, 0nat,
{
    match n {
        HtmlNodeView::Element(e) => match lower_element_spec(e) {
            Err(x) => Err(x),
            Ok(el) => Ok(IrNodeView::Element(el)),
        },
        HtmlNodeView::Text(t) => Ok(IrNodeView::Text(t)),
        HtmlNodeView::Expr { expr, span } => Ok(IrNodeView::Expr(IrExprView { expr, span })),
        HtmlNodeView::If { branches, span } => match lower_branches_spec(branches) {
            Err(x) => Err(x),
            Ok(bs) => Ok(IrNodeView::If { branches: bs, span }),
        },
        HtmlNodeView::Each { iterable, binding, index, children, span } => match lower_nodes_spec(
            children,
        ) {
            Err(x) => Err(x),
            Ok(ch) => Ok(IrNodeView::Each { iterable, binding, index, children: ch, span }),
        },
        HtmlNodeView::Component(e) => match lower_element_spec(e) {
            Err(x) => Err(x),
            Ok(c) => Ok(IrNodeView::Component(c)),
        },
        HtmlNodeView::Slot { name, children, span } => match lower_nodes_spec(children) {
            Err(x) => Err(x),
            Ok(ch) => Ok(IrNodeView::Slot { name, fallback: ch, span }),
        },
        HtmlNodeView::RawHtml { expr, span } => Ok(IrNodeView::RawHtml(IrExprView { expr, span })),
        HtmlNodeView::Const { name, expr, span } => Ok(
            IrNodeView::Const(IrConstView { name, expr, span }),
        ),
        HtmlNodeView::Debug { expr, span } => Ok(IrNodeView::Debug(IrExprView { expr, span })),
        HtmlNodeView::Head { span, .. } => Err(
            CompileErrorView::Parse(ParseErrorView::NestedHead { span }),
        ),
    }
}

/// The nodes lowered in order; the first error wins.
pub open spec fn lower_nodes_spec(s: Seq<HtmlNodeView>) -> Result<Seq<IrNodeView>, CompileErrorView>
    decreases s, 0nat,
{
    if s.len() == 0 {
        Ok(Seq::empty())
    } else {
        match lower_nodes_spec(s.subrange(0, s.len() - 1)) {
            Err(x) => Err(x),
            Ok(prev) => match lower_node_spec(s[s.len() - 1]) {
                Err(x) => Err(x),
                Ok(n) => Ok(prev.push(n)),
            },
        }
    }
}

pub proof fn lemma_lower_nodes_prefix_err(s: Seq<HtmlNodeView>, k: int)
    requires
        0 <= k <= s.len(),
        lower_nodes_spec(s.take(k)) is Err,
    ensures
        lower_nodes_spec(s) == lower_nodes_spec(s.take(k)),
    decreases s.len() - k,
{
    if k < s.len() {
        assert(s.take(k + 1).subrange(0, k) =~= s.take(k));
        lemma_lower_nodes_prefix_err(s, k + 1);
    } else {
        assert(s.take(k) =~= s);
    }
}

pub proof fn lemma_lower_branches_prefix_err(s: Seq<IfBranchView>, k: int)
    requires
        0 <= k <= s.len(),
        lower_branches_spec(s.take(k)) is Err,
    ensures
        lower_branches_spec(s) == lower_branches_spec(s.take(k)),
    decreases s.len() - k,
{
    if k < s.len() {
        assert(s.take(k + 1).subrange(0, k) =~= s.take(k));
        lemma_lower_branches_prefix_err(s, k + 1);
    } else {
        assert(s.take(k) =~= s);
    }
}

// ---------------------------------------------------------------------------
// What lowering keeps of a tag's directives

/// Whether a directive is of kind `k`.
pub open spec fn of_kind(k: DirectiveKind) -> spec_fn(DirectiveView) -> bool {
    |d: DirectiveView| d.kind == k
}

/// A directive as its name, value and span.
pub open spec fn directive_item(d: DirectiveView) -> IrDirectiveView {
    IrDirectiveView { name: d.name, value: d.value, span: d.span }
}

/// The directives of kind `k` among `ds`, in source order, each as its name,
/// value and span.
pub open spec fn directives_of_kind(ds: Seq<DirectiveView>, k: DirectiveKind) -> Seq<
    IrDirectiveView,
> {
    ds.filter(of_kind(k)).map_values(|d: DirectiveView| directive_item(d))
}

/// An event handler as its event, handler and span.
pub open spec fn handler_item(h: IrEventHandlerView) -> IrDirectiveView {
    IrDirectiveView { name: h.event, value: h.handler, span: h.span }
}

proof fn lemma_directives_of_kind_push(ds: Seq<DirectiveView>, k: DirectiveKind)
    requires
        ds.len() > 0,
    ensures
        directives_of_kind(ds, k) == if ds.last().kind == k {
            directives_of_kind(ds.drop_last(), k).push(directive_item(ds.last()))
        } else {
            directives_of_kind(ds.drop_last(), k)
        },
{
    let f = |d: DirectiveView| directive_item(d);
    let fl = ds.drop_last().filter(of_kind(k));
    assert(ds.drop_last().push(ds.last()) =~= ds);
    ds.drop_last().lemma_filter_push(ds.last(), of_kind(k));
    if ds.last().kind == k {
        assert(ds.filter(of_kind(k)) == fl.push(ds.last()));
        assert(fl.push(ds.last()).map_values(f) =~= fl.map_values(f).push(f(ds.last())));
    } else {
        assert(ds.filter(of_kind(k)) == fl);
    }
}

/// Splitting directives by kind keeps, for each kind, exactly the
/// directives of that kind, in source order: `bind:`, `class:`, `style:`
/// and `use:` directives each become one item with their name, value and
/// span, and each `on:` directive one handler with its event, handler and
/// span.
pub proof fn lemma_decompose_by_kind(ds: Seq<DirectiveView>)
    requires
        decompose_spec(ds) is Ok,
    ensures
        ({
            let d = decompose_spec(ds)->Ok_0;
            &&& d.bindings == directives_of_kind(ds, DirectiveKind::Bind)
            &&& d.class_toggles == directives_of_kind(ds, DirectiveKind::Class)
            &&& d.style_props == directives_of_kind(ds, DirectiveKind::Style)
            &&& d.actions == directives_of_kind(ds, DirectiveKind::Use)
            &&& d.events.map_values(|h: IrEventHandlerView| handler_item(h)) == directives_of_kind(
                ds,
                DirectiveKind::On,
            )
        }),
    decreases ds.len(),
{
    if ds.len() == 0 {
        assert(ds.filter(of_kind(DirectiveKind::Bind)) =~= Seq::<DirectiveView>::empty());
        assert(ds.filter(of_kind(DirectiveKind::Class)) =~= Seq::<DirectiveView>::empty());
        assert(ds.filter(of_kind(DirectiveKind::Style)) =~= Seq::<DirectiveView>::empty());
        assert(ds.filter(of_kind(DirectiveKind::Use)) =~= Seq::<DirectiveView>::empty());
        assert(ds.filter(of_kind(DirectiveKind::On)) =~= Seq::<DirectiveView>::empty());
        let d = decompose_spec(ds)->Ok_0;
        assert(d.events.map_values(|h: IrEventHandlerView| handler_item(h))
            =~= Seq::<IrDirectiveView>::empty());
        assert(directives_of_kind(ds, DirectiveKind::Bind) =~= Seq::<IrDirectiveView>::empty());
        assert(directives_of_kind(ds, DirectiveKind::Class) =~= Seq::<IrDirectiveView>::empty());
        assert(directives_of_kind(ds, DirectiveKind::Style) =~= Seq::<IrDirectiveView>::empty());
        assert(directives_of_kind(ds, DirectiveKind::Use) =~= Seq::<IrDirectiveView>::empty());
        assert(directives_of_kind(ds, DirectiveKind::On) =~= Seq::<IrDirectiveView>::empty());
    } else {
        let prev = ds.drop_last();
        assert(decompose_spec(prev) is Ok);
        lemma_decompose_by_kind(prev);
        lemma_directives_of_kind_push(ds, DirectiveKind::Bind);
        lemma_directives_of_kind_push(ds, DirectiveKind::Class);
        lemma_directives_of_kind_push(ds, DirectiveKind::Style);
        lemma_directives_of_kind_push(ds, DirectiveKind::Use);
        lemma_directives_of_kind_push(ds, DirectiveKind::On);
        let p = decompose_spec(prev)->Ok_0;
        let d = decompose_spec(ds)->Ok_0;
        let g = |h: IrEventHandlerView| handler_item(h);
        if ds.last().kind == DirectiveKind::On {
            let h = d.events.last();
            assert(d.events == p.events.push(h));
            assert(p.events.push(h).map_values(g) =~= p.events.map_values(g).push(g(h)));
        } else {
            assert(d.events == p.events);
        }
    }
}

/// The IR of a tag keeps its name, attributes, self-closing flag and span,
/// and holds exactly the tag's directives of each kind, in source order.
pub proof fn lemma_lower_element_directives(e: ElementView)
    requires
        lower_element_spec(e) is Ok,
    ensures
        ({
            let c = lower_element_spec(e)->Ok_0;
            &&& c.tag == e.tag
            &&& c.attributes == e.attributes
            &&& c.self_closing == e.self_closing
            &&& c.span == e.span
            &&& c.bindings == directives_of_kind(e.directives, DirectiveKind::Bind)
            &&& c.class_toggles == directives_of_kind(e.directives, DirectiveKind::Class)
            &&& c.style_props == directives_of_kind(e.directives, DirectiveKind::Style)
            &&& c.actions == directives_of_kind(e.directives, DirectiveKind::Use)
            &&& c.events.map_values(|h: IrEventHandlerView| handler_item(h)) == directives_of_kind(
                e.directives,
                DirectiveKind::On,
            )
        }),
{
    lemma_decompose_by_kind(e.directives);
}

/// A component tag lowers as an element tag does, with the same
/// directives, attributes and children; only the node's kind differs. So
/// each `bind:` directive of a component becomes one of its bindings, with
/// the directive's property and expression, in source order.
pub proof fn lemma_lower_component_as_element(e: ElementView)
    ensures
        (lower_node_spec(HtmlNodeView::Component(e)) is Ok) == (lower_node_spec(
            HtmlNodeView::Element(e),
        ) is Ok),
        lower_node_spec(HtmlNodeView::Component(e)) is Err ==> lower_node_spec(
            HtmlNodeView::Component(e),
        ) == lower_node_spec(HtmlNodeView::Element(e)),
        lower_node_spec(HtmlNodeView::Element(e)) matches Ok(IrNodeView::Element(c))
            ==> lower_node_spec(HtmlNodeView::Component(e)) == Ok::<IrNodeView, CompileErrorView>(
            IrNodeView::Component(c),
        ),
        lower_node_spec(HtmlNodeView::Component(e)) matches Ok(IrNodeView::Component(c)) ==> {
            &&& c.tag == e.tag
            &&& c.attributes == e.attributes
            &&& c.bindings == directives_of_kind(e.directives, DirectiveKind::Bind)
            &&& c.class_toggles == directives_of_kind(e.directives, DirectiveKind::Class)
            &&& c.style_props == directives_of_kind(e.directives, DirectiveKind::Style)
            &&& c.actions == directives_of_kind(e.directives, DirectiveKind::Use)
            &&& c.events.map_values(|h: IrEventHandlerView| handler_item(h)) == directives_of_kind(
                e.directives,
                DirectiveKind::On,
            )
        },
        lower_node_spec(HtmlNodeView::Component(e)) is Ok ==> lower_node_spec(
            HtmlNodeView::Component(e),
        )->Ok_0 is Component,
{
    if lower_element_spec(e) is Ok {
        lemma_lower_element_directives(e);
    }
}

pub open spec fn node_res(r: Result<IrNode, CompileError>) -> Result<IrNodeView, CompileErrorView> {
    match r {
        Ok(n) => Ok(ir_node_view(n)),
        Err(e) => Err(e@),
    }
}

pub open spec fn nodes_res(r: Result<Vec<IrNode>, CompileError>) -> Result<
    Seq<IrNodeView>,
    CompileErrorView,
> {
    match r {
        Ok(v) => Ok(ir_nodes_view(v@)),
        Err(e) => Err(e@),
    }
}

pub open spec fn element_res(r: Result<IrElement, CompileError>) -> Result<
    IrElementView,
    CompileErrorView,
> {
    match r {
        Ok(e) => Ok(ir_element_view(e)),
        Err(e) => Err(e@),
    }
}

pub open spec fn component_res(r: Result<IrComponentRef, CompileError>) -> Result<
    IrElementView,
    CompileErrorView,
> {
    match r {
        Ok(c) => Ok(ir_component_view(c)),
        Err(e) => Err(e@),
    }
}

/// A copy of attribute value segments.
fn clone_tnodes(v: &Vec<TemplateNode>) -> (r: Vec<TemplateNode>)
    ensures
        tnodes_view(r@) == tnodes_view(v@),
{
    let mut out: Vec<TemplateNode> = Vec::new();
    let mut i: usize = 0;
    while i < v.len()
        invariant
            i <= v@.len(),
            out@.len() == i,
            forall|k: int| 0 <= k < i ==> out@[k]@ == v@[k]@,
        decreases v@.len() - i,
    {
        let n = match &v[i] {
            TemplateNode::Text(t) => TemplateNode::Text(t.clone()),
            TemplateNode::Expr { expr, span } => TemplateNode::Expr { expr: expr.clone(), span: *span },
        };
        out.push(n);
        i = i + 1;
    }
    assert(tnodes_view(out@) =~= tnodes_view(v@));
    out
}

fn lower_attribute(attr: &Attribute) -> (r: IrAttribute)
    ensures
        r@ == attr@,
{
    IrAttribute { name: attr.name.clone(), value: clone_tnodes(&attr.value), span: attr.span }
}

fn lower_attributes(v: &Vec<Attribute>) -> (r: Vec<IrAttribute>)
    ensures
        attrs_view(r@) == v@.map_values(|a: Attribute| a@),
{
    let mut out: Vec<IrAttribute> = Vec::new();
    let mut i: usize = 0;
    while i < v.len()
        invariant
            i <= v@.len(),
            out@.len() == i,
            forall|k: int| 0 <= k < i ==> out@[k]@ == v@[k]@,
        decreases v@.len() - i,
    {
        let a = lower_attribute(&v[i]);
        out.push(a);
        i = i + 1;
    }
    assert(attrs_view(out@) =~= v@.map_values(|a: Attribute| a@));
    out
}

fn lower_nodes(v: &Vec<HtmlNode>) -> (r: Result<Vec<IrNode>, CompileError>)
    ensures
        nodes_res(r) == lower_nodes_spec(nodes_view(v@)),
    decreases v, 1nat,
{
    let ghost full = nodes_view(v@);
    proof {
        lemma_nodes_view_len(v@);
        assert(full.take(0) =~= Seq::<HtmlNodeView>::empty());
    }
    let mut out: Vec<IrNode> = Vec::new();
    let mut i: usize = 0;
    while i < v.len()
        invariant
            i <= v@.len(),
            full == nodes_view(v@),
            full.len() == v@.len(),
            lower_nodes_spec(full.take(i as int)) == Ok::<Seq<IrNodeView>, CompileErrorView>(
                ir_nodes_view(out@),
            ),
        decreases v@.len() - i,
    {
        proof {
            lemma_nodes_view_index(v@, i as int);
            assert(full.take(i + 1).subrange(0, i as int) =~= full.take(i as int));
            assert(full.take(i + 1)[i as int] == node_view(v@[i as int]));
        }
        match lower_node(&v[i]) {
            Ok(n) => {
                proof {
                    lemma_ir_nodes_view_push(out@, n);
                }
                out.push(n);
            },
            Err(e) => {
                proof {
                    lemma_lower_nodes_prefix_err(full, i + 1);
                }
                return Err(e);
            },
        }
        i = i + 1;
    }
    proof {
        assert(full.take(i as int) =~= full);
    }
    Ok(out)
}

fn lower_element(el: &Element) -> (r: Result<IrElement, CompileError>)
    ensures
        element_res(r) == lower_element_spec(element_view(*el)),
    decreases el, 2nat,
{
    let d = match decompose_directives(el) {
        Ok(d) => d,
        Err(e) => {
            return Err(e);
        },
    };
    let attributes = lower_attributes(&el.attributes);
    let children = match lower_nodes(&el.children) {
        Ok(c) => c,
        Err(e) => {
            return Err(e);
        },
    };
    Ok(
        IrElement {
            tag: el.tag.clone(),
            attributes,
            events: d.events,
            bindings: d.bindings,
            class_toggles: d.class_toggles,
            style_props: d.style_props,
            actions: d.actions,
            children,
            self_closing: el.self_closing,
            span: el.span,
        },
    )
}

fn lower_component(el: &Element) -> (r: Result<IrComponentRef, CompileError>)
    ensures
        component_res(r) == lower_element_spec(element_view(*el)),
    decreases el, 2nat,
{
    let d = match decompose_directives(el) {
        Ok(d) => d,
        Err(e) => {
            return Err(e);
        },
    };
    let props = lower_attributes(&el.attributes);
    let children = match lower_nodes(&el.children) {
        Ok(c) => c,
        Err(e) => {
            return Err(e);
        },
    };
    Ok(
        IrComponentRef {
            name: el.tag.clone(),
            props,
            events: d.events,
            bindings: d.bindings,
            class_toggles: d.class_toggles,
            style_props: d.style_props,
            actions: d.actions,
            children,
            self_closing: el.self_closing,
            span: el.span,
        },
    )
}

fn lower_if(branches: &Vec<IfBranch>, span: Span) -> (r: Result<IrIf, CompileError>)
    ensures
        match r {
            Ok(i) => lower_branches_spec(branches_view(branches@)) == Ok::<
                Seq<IrIfBranchView>,
                CompileErrorView,
            >(ir_branches_view(i.branches@)) && i.span == span,
            Err(e) => lower_branches_spec(branches_view(branches@)) == Err::<
                Seq<IrIfBranchView>,
                CompileErrorView,
            >(e@),
        },
    decreases branches, 1nat,
{
    let ghost full = branches_view(branches@);
    proof {
        lemma_branches_view_len(branches@);
        assert(full.take(0) =~= Seq::<IfBranchView>::empty());
    }
    let mut out: Vec<IrIfBranch> = Vec::new();
    let mut i: usize = 0;
    while i < branches.len()
        invariant
            i <= branches@.len(),
            full == branches_view(branches@),
            full.len() == branches@.len(),
            lower_branches_spec(full.take(i as int)) == Ok::<Seq<IrIfBranchView>, CompileErrorView>(
                ir_branches_view(out@),
            ),
        decreases branches@.len() - i,
    {
        let b = &branches[i];
        proof {
            lemma_branches_view_index(branches@, i as int);
            assert(full.take(i + 1).subrange(0, i as int) =~= full.take(i as int));
            assert(full.take(i + 1)[i as int] == branch_view(*b));
        }
        match lower_nodes(&b.children) {
            Ok(children) => {
                let nb = IrIfBranch { condition: b.condition.clone(), children, span: b.span };
                proof {
                    lemma_ir_branches_view_push(out@, nb);
                    assert(opt_str(nb.condition) == opt_str(b.condition));
                }
                out.push(nb);
            },
            Err(e) => {
                proof {
                    assert(branch_view(*b).children == nodes_view(b.children@));
                    assert(lower_branch_spec(branch_view(*b)) is Err);
                    lemma_lower_branches_prefix_err(full, i + 1);
                }
                return Err(e);
            },
        }
        i = i + 1;
    }
    proof {
        assert(full.take(i as int) =~= full);
    }
    Ok(IrIf { branches: out, span })
}

fn clone_opt(o: &Option<String>) -> (r: Option<String>)
    ensures
        opt_str(r) == opt_str(*o),
{
    match o {
        Some(s) => Some(s.clone()),
        None => None,
    }
}

fn lower_each(
    iterable: &String,
    binding: &String,
    index: &Option<String>,
    children: &Vec<HtmlNode>,
    span: Span,
) -> (r: Result<IrEach, CompileError>)
    ensures
        match r {
            Ok(e) => lower_nodes_spec(nodes_view(children@)) == Ok::<
                Seq<IrNodeView>,
                CompileErrorView,
            >(ir_nodes_view(e.children@)) && e.iterable@ == iterable@ && e.binding@ == binding@
                && opt_str(e.index) == opt_str(*index) && e.span == span,
            Err(e) => lower_nodes_spec(nodes_view(children@)) == Err::<
                Seq<IrNodeView>,
                CompileErrorView,
            >(e@),
        },
    decreases children, 2nat,
{
    let ir_children = match lower_nodes(children) {
        Ok(c) => c,
        Err(e) => {
            return Err(e);
        },
    };
    Ok(
        IrEach {
            iterable: iterable.clone(),
            binding: binding.clone(),
            index: clone_opt(index),
            children: ir_children,
            span,
        },
    )
}

fn lower_slot(name: &Option<String>, children: &Vec<HtmlNode>, span: Span) -> (r: Result<
    IrSlot,
    CompileError,
>)
    ensures
        match r {
            Ok(s) => lower_nodes_spec(nodes_view(children@)) == Ok::<
                Seq<IrNodeView>,
                CompileErrorView,
            >(ir_nodes_view(s.fallback@)) && opt_str(s.name) == opt_str(*name) && s.span == span,
            Err(e) => lower_nodes_spec(nodes_view(children@)) == Err::<
                Seq<IrNodeView>,
                CompileErrorView,
            >(e@),
        },
    decreases children, 2nat,
{
    let fallback = match lower_nodes(children) {
        Ok(c) => c,
        Err(e) => {
            return Err(e);
        },
    };
    Ok(IrSlot { name: clone_opt(name), fallback, span })
}

fn lower_node(node: &HtmlNode) -> (r: Result<IrNode, CompileError>)
    ensures
        node_res(r) == lower_node_spec(node_view(*node)),
    decreases node, 3nat,
{
    match node {
        HtmlNode::Element(el) => match lower_element(el) {
            Ok(e) => Ok(IrNode::Element(e)),
            Err(e) => Err(e),
        },
        HtmlNode::Text(t) => Ok(IrNode::Text(t.clone())),
        HtmlNode::Expr { expr, span } => Ok(IrNode::Expr(IrExpr { expr: expr.clone(), span: *span })),
        HtmlNode::If { branches, span } => match lower_if(branches, *span) {
            Ok(i) => Ok(IrNode::If(i)),
            Err(e) => Err(e),
        },
        HtmlNode::Each { iterable, binding, index, children, span } => match lower_each(
            iterable,
            binding,
            index,
            children,
            *span,
        ) {
            Ok(e) => Ok(IrNode::Each(e)),
            Err(e) => Err(e),
        },
        HtmlNode::Component(el) => match lower_component(el) {
            Ok(c) => Ok(IrNode::Component(c)),
            Err(e) => Err(e),
        },
        HtmlNode::Slot { name, children, span } => match lower_slot(name, children, *span) {
            Ok(s) => Ok(IrNode::Slot(s)),
            Err(e) => Err(e),
        },
        HtmlNode::RawHtml { expr, span } => Ok(
            IrNode::RawHtml(IrExpr { expr: expr.clone(), span: *span }),
        ),
        HtmlNode::Const { name, expr, span } => Ok(
            IrNode::Const(IrConst { name: name.clone(), expr: expr.clone(), span: *span }),
        ),
        HtmlNode::Debug { expr, span } => Ok(IrNode::Debug(IrExpr { expr: expr.clone(), span: *span })),
        HtmlNode::Head { span, .. } => Err(CompileError::Parse(ParseError::NestedHead { span: *span })),
    }
}

// ---------------------------------------------------------------------------
// Template regions
// ---------------------------------------------------------------------------

/// Whether byte offset `x` falls on a character boundary of `s` (its end included).
pub open spec fn is_char_boundary(s: Seq<char>, x: int) -> bool {
    exists|i: int| 0 <= i <= s.len() && bpos(s, 0, i) == x
}

/// The character index at byte offset `x` of `s`, for `x` on a boundary.
pub open spec fn char_index(s: Seq<char>, x: int) -> int {
    choose|i: int| 0 <= i <= s.len() && bpos(s, 0, i) == x
}

/// The character index of the boundary at character `i` is `i`.
pub proof fn lemma_char_index(s: Seq<char>, i: int)
    requires
        0 <= i <= s.len(),
    ensures
        is_char_boundary(s, bpos(s, 0, i)),
        char_index(s, bpos(s, 0, i)) == i,
{
    let x = bpos(s, 0, i);
    assert(0 <= i <= s.len() && bpos(s, 0, i) == x);
    let j = char_index(s, x);
    if j < i {
        lemma_bpos_mono(s, 0, j, i);
    } else if i < j {
        lemma_bpos_mono(s, 0, i, j);
    }
}

/// The spans of the script and style blocks: `<script setup>`, `<script>`, then the styles.
pub open spec fn block_spans(ast: ThebeAstView) -> Seq<Span> {
    let a: Seq<Span> = match ast.script_setup {
        Some(b) => seq![b.span],
        None => Seq::empty(),
    };
    let b: Seq<Span> = match ast.script {
        Some(b) => seq![b.span],
        None => Seq::empty(),
    };
    a + b + ast.styles.map_values(|st: StyleBlockView| st.span)
}

/// Both ends of `sp` fall on character boundaries of `s`.
pub open spec fn span_on_boundaries(s: Seq<char>, sp: Span) -> bool {
    is_char_boundary(s, sp.start as int) && is_char_boundary(s, sp.end as int)
}

/// Every block span of `ast` starts and ends on a character boundary of `s`.
pub open spec fn blocks_on_boundaries(s: Seq<char>, ast: ThebeAstView) -> bool {
    &&& (ast.script_setup matches Some(b) ==> span_on_boundaries(s, b.span))
    &&& (ast.script matches Some(b) ==> span_on_boundaries(s, b.span))
    &&& forall|k: int|
        0 <= k < ast.styles.len() ==> span_on_boundaries(s, #[trigger] ast.styles[k].span)
}

pub proof fn lemma_block_spans_on_boundaries(s: Seq<char>, ast: ThebeAstView)
    requires
        blocks_on_boundaries(s, ast),
    ensures
        spans_on_boundaries(s, block_spans(ast)),
{
    let a: Seq<Span> = match ast.script_setup {
        Some(b) => seq![b.span],
        None => Seq::empty(),
    };
    let b: Seq<Span> = match ast.script {
        Some(b) => seq![b.span],
        None => Seq::empty(),
    };
    let c = ast.styles.map_values(|st: StyleBlockView| st.span);
    let all = block_spans(ast);
    assert(all == a + b + c);
    assert forall|k: int| 0 <= k < all.len() implies is_char_boundary(s, #[trigger] all[k].start as int)
        && is_char_boundary(s, all[k].end as int) by {
        if k < a.len() {
            assert(all[k] == a[k]);
        } else if k < a.len() + b.len() {
            assert(all[k] == b[k - a.len()]);
        } else {
            assert(all[k] == c[k - a.len() - b.len()]);
            assert(span_on_boundaries(s, ast.styles[k - a.len() - b.len()].span));
        }
    }
}

pub open spec fn spans_on_boundaries(s: Seq<char>, spans: Seq<Span>) -> bool {
    forall|k: int|
        0 <= k < spans.len() ==> is_char_boundary(s, #[trigger] spans[k].start as int)
            && is_char_boundary(s, spans[k].end as int)
}

/// The index of the first span at or after `i` whose start is past `key` (or the length).
pub open spec fn first_after(s: Seq<Span>, key: usize, i: int) -> int
    decreases s.len() - i,
{
    if i < 0 || i >= s.len() {
        s.len() as int
    } else if s[i].start > key {
        i
    } else {
        first_after(s, key, i + 1)
    }
}

/// `x` inserted into `sorted` after every span that starts at or before it.
pub open spec fn insert_by_start(sorted: Seq<Span>, x: Span) -> Seq<Span> {
    sorted.insert(first_after(sorted, x.start, 0), x)
}

/// The spans stably sorted by their start (`sort_by_key(|s| s.start)`).
pub open spec fn sort_by_start(s: Seq<Span>) -> Seq<Span>
    decreases s.len(),
{
    if s.len() == 0 {
        Seq::empty()
    } else {
        insert_by_start(sort_by_start(s.drop_last()), s.last())
    }
}

pub proof fn lemma_first_after_bounds(s: Seq<Span>, key: usize, i: int)
    requires
        0 <= i <= s.len(),
    ensures
        i <= first_after(s, key, i) <= s.len(),
    decreases s.len() - i,
{
    if i < s.len() && s[i].start <= key {
        lemma_first_after_bounds(s, key, i + 1);
    }
}

/// Sorting keeps every span on a character boundary.
pub proof fn lemma_sort_on_boundaries(src: Seq<char>, s: Seq<Span>)
    requires
        spans_on_boundaries(src, s),
    ensures
        spans_on_boundaries(src, sort_by_start(s)),
        sort_by_start(s).len() == s.len(),
    decreases s.len(),
{
    if s.len() > 0 {
        let prev = sort_by_start(s.drop_last());
        assert(spans_on_boundaries(src, s.drop_last())) by {
            assert forall|k: int| 0 <= k < s.drop_last().len() implies is_char_boundary(
                src,
                #[trigger] s.drop_last()[k].start as int,
            ) && is_char_boundary(src, s.drop_last()[k].end as int) by {
                assert(s.drop_last()[k] == s[k]);
            }
        }
        lemma_sort_on_boundaries(src, s.drop_last());
        lemma_first_after_bounds(prev, s.last().start, 0);
        let p = first_after(prev, s.last().start, 0);
        let r = prev.insert(p, s.last());
        assert forall|k: int| 0 <= k < r.len() implies is_char_boundary(
            src,
            #[trigger] r[k].start as int,
        ) && is_char_boundary(src, r[k].end as int) by {
            if k < p {
                assert(r[k] == prev[k]);
            } else if k == p {
                assert(r[k] == s[s.len() - 1]);
            } else {
                assert(r[k] == prev[k - 1]);
            }
        }
    }
}

/// The template text between the blocks: for each sorted block span, the
/// text from `pos` to its start (when it starts after `pos`); `pos` then
/// moves to its end. The text after the last block closes the list.
pub open spec fn regions_from(s: Seq<char>, spans: Seq<Span>, pos: int) -> Seq<(int, Seq<char>)>
    decreases spans.len(),
{
    if spans.len() == 0 {
        if pos < utf8_len(s) {
            seq![(pos, s.subrange(char_index(s, pos), s.len() as int))]
        } else {
            Seq::empty()
        }
    } else {
        let sp = spans[0];
        let here: Seq<(int, Seq<char>)> = if sp.start > pos {
            seq![(pos, s.subrange(char_index(s, pos), char_index(s, sp.start as int)))]
        } else {
            Seq::empty()
        };
        here + regions_from(s, spans.drop_first(), sp.end as int)
    }
}

/// The template regions of `s`: `(byte offset, text)` for each gap between blocks.
pub open spec fn template_regions(s: Seq<char>, ast: ThebeAstView) -> Seq<(int, Seq<char>)> {
    regions_from(s, sort_by_start(block_spans(ast)), 0)
}

pub open spec fn regions_view(v: Seq<(usize, String)>) -> Seq<(int, Seq<char>)> {
    v.map_values(|r: (usize, String)| (r.0 as int, r.1@))
}

fn spans_of(ast: &ThebeAst) -> (v: Vec<Span>)
    ensures
        v@ == block_spans(ast@),
{
    let mut v: Vec<Span> = Vec::new();
    if let Some(s) = &ast.script_setup {
        v.push(s.span);
    }
    if let Some(s) = &ast.script {
        v.push(s.span);
    }
    let ghost pre = v@;
    let mut i: usize = 0;
    while i < ast.styles.len()
        invariant
            i <= ast.styles@.len(),
            v@ == pre + ast@.styles.take(i as int).map_values(|st: StyleBlockView| st.span),
        decreases ast.styles@.len() - i,
    {
        v.push(ast.styles[i].span);
        proof {
            assert(ast@.styles.take(i + 1) =~= ast@.styles.take(i as int).push(ast@.styles[i as int]));
            assert(ast@.styles.take(i + 1).map_values(|st: StyleBlockView| st.span)
                =~= ast@.styles.take(i as int).map_values(|st: StyleBlockView| st.span).push(
                ast.styles@[i as int].span,
            ));
        }
        i = i + 1;
    }
    proof {
        assert(ast@.styles.take(i as int) =~= ast@.styles);
        assert(v@ =~= block_spans(ast@));
    }
    v
}

/// Stable insertion sort of spans by their start.
fn sort_spans(v: &Vec<Span>) -> (r: Vec<Span>)
    ensures
        r@ == sort_by_start(v@),
{
    let mut sorted: Vec<Span> = Vec::new();
    let mut i: usize = 0;
    proof {
        assert(v@.take(0) =~= Seq::<Span>::empty());
    }
    while i < v.len()
        invariant
            i <= v@.len(),
            sorted@ == sort_by_start(v@.take(i as int)),
        decreases v@.len() - i,
    {
        let x = v[i];
        let mut p: usize = 0;
        while p < sorted.len() && sorted[p].start <= x.start
            invariant
                p <= sorted@.len(),
                first_after(sorted@, x.start, p as int) == first_after(sorted@, x.start, 0),
            decreases sorted@.len() - p,
        {
            p = p + 1;
        }
        sorted.insert(p, x);
        proof {
            assert(v@.take(i + 1).drop_last() =~= v@.take(i as int));
        }
        i = i + 1;
    }
    proof {
        assert(v@.take(i as int) =~= v@);
    }
    sorted
}

/// The index of the boundary at byte offset `x`, found in the offset table `offs`.
pub(crate) fn index_of_offset(offs: &[usize], x: usize, Ghost(s): Ghost<Seq<char>>) -> (r: usize)
    requires
        offs@.len() == s.len() + 1,
        forall|i: int| 0 <= i <= s.len() ==> offs@[i] == bpos(s, 0, i),
        is_char_boundary(s, x as int),
    ensures
        r <= s.len(),
        bpos(s, 0, r as int) == x,
        r as int == char_index(s, x as int),
{
    let ghost w = choose|i: int| 0 <= i <= s.len() && bpos(s, 0, i) == x;
    let mut i: usize = 0;
    while i < offs.len() && offs[i] != x
        invariant
            0 <= w <= s.len(),
            bpos(s, 0, w) == x,
            offs@.len() == s.len() + 1,
            forall|k: int| 0 <= k <= s.len() ==> offs@[k] == bpos(s, 0, k),
            i <= w,
        decreases offs@.len() - i,
    {
        proof {
            if i == w {
                assert(offs@[i as int] == x);
            }
        }
        i = i + 1;
    }
    proof {
        lemma_char_index(s, i as int);
    }
    i
}

/// Find the template-text gaps between script/style block spans.
pub fn extract_template_regions(source: &str, ast: &ThebeAst) -> (r: Vec<(usize, String)>)
    requires
        blocks_on_boundaries(source@, ast@),
    ensures
        regions_view(r@) == template_regions(source@, ast@),
        forall|k: int|
            0 <= k < r@.len() ==> #[trigger] r@[k].0 + utf8_len(r@[k].1@) <= utf8_len(source@),
{
    let chars = chars_of(source);
    let s = chars.as_slice();
    let n = str_byte_len(source);
    let offs = byte_offsets(s, 0);
    let blocks = spans_of(ast);
    let spans = sort_spans(&blocks);
    proof {
        lemma_block_spans_on_boundaries(source@, ast@);
        lemma_sort_on_boundaries(source@, block_spans(ast@));
        lemma_char_index(s@, 0);
        lemma_utf8_len_full(s@);
    }
    let ghost all = spans@;
    let mut regions: Vec<(usize, String)> = Vec::new();
    let mut pos: usize = 0;
    let mut pos_idx: usize = 0;
    let mut k: usize = 0;
    proof {
        assert(all.skip(0) =~= all);
    }
    while k < spans.len()
        invariant
            k <= all.len(),
            all == spans@,
            s@ == source@,
            n == utf8_len(s@),
            offs@.len() == s@.len() + 1,
            forall|i: int| 0 <= i <= s@.len() ==> offs@[i] == bpos(s@, 0, i),
            spans_on_boundaries(source@, all),
            pos_idx <= s@.len(),
            bpos(s@, 0, pos_idx as int) == pos,
            char_index(s@, pos as int) == pos_idx,
            regions_view(regions@) + regions_from(s@, all.skip(k as int), pos as int)
                == regions_from(s@, all, 0),
            forall|j: int|
                0 <= j < regions@.len() ==> #[trigger] regions@[j].0 + utf8_len(regions@[j].1@)
                    <= utf8_len(source@),
        decreases all.len() - k,
    {
        let sp = spans[k];
        proof {
            assert(all.skip(k as int)[0] == sp);
            assert(all.skip(k as int).drop_first() =~= all.skip(k + 1));
            assert(is_char_boundary(source@, all[k as int].start as int));
            assert(is_char_boundary(source@, all[k as int].end as int));
        }
        let ghost before = regions_view(regions@);
        if sp.start > pos {
            let a = index_of_offset(offs.as_slice(), sp.start, Ghost(s@));
            proof {
                if a < pos_idx {
                    lemma_bpos_mono(s@, 0, a as int, pos_idx as int);
                }
                lemma_utf8_len_subrange(s@, pos_idx as int, a as int);
                lemma_bpos_mono(s@, 0, a as int, s@.len() as int);
                lemma_utf8_len_full(s@);
            }
            let text = substring(s, pos_idx, a);
            regions.push((pos, text));
            proof {
                assert(regions_view(regions@) =~= before.push((pos as int, text@)));
            }
        }
        proof {
            assert(regions_view(regions@) + regions_from(s@, all.skip(k + 1), sp.end as int)
                =~= regions_from(s@, all, 0));
        }
        let e = index_of_offset(offs.as_slice(), sp.end, Ghost(s@));
        pos = sp.end;
        pos_idx = e;
        k = k + 1;
    }
    if pos < n {
        proof {
            lemma_utf8_len_subrange(s@, pos_idx as int, s@.len() as int);
            lemma_utf8_len_full(s@);
            assert(s@.take(s@.len() as int) =~= s@);
        }
        let ghost before = regions_view(regions@);
        let text = substring(s, pos_idx, s.len());
        regions.push((pos, text));
        proof {
            assert(regions_view(regions@) =~= before.push((pos as int, text@)));
        }
    }
    proof {
        assert(all.skip(k as int) =~= Seq::<Span>::empty());
        assert(regions_view(regions@) =~= regions_from(s@, all, 0));
    }
    regions
}

// ---------------------------------------------------------------------------
// Template lowering
// ---------------------------------------------------------------------------

/// Byte offset of the first non-blank character of a region at byte `off` with text `text`.
pub open spec fn region_offset(off: int, text: Seq<char>) -> int {
    off + utf8_len(text.take(lead_len(text)))
}

/// The top-level nodes of a region lowered: `<thebe:head>` blocks give
/// their lowered children to the head, every other node goes to the body.
pub open spec fn lower_top_spec(nodes: Seq<HtmlNodeView>) -> Result<
    (Seq<IrNodeView>, Seq<IrNodeView>),
    CompileErrorView,
>
    decreases nodes.len(),
{
    if nodes.len() == 0 {
        Ok((Seq::empty(), Seq::empty()))
    } else {
        match lower_top_spec(nodes.drop_last()) {
            Err(e) => Err(e),
            Ok((t, h)) => match nodes.last() {
                HtmlNodeView::Head { children, .. } => match lower_nodes_spec(children) {
                    Err(e) => Err(e),
                    Ok(c) => Ok((t, h + c)),
                },
                n => match lower_node_spec(n) {
                    Err(e) => Err(e),
                    Ok(x) => Ok((t.push(x), h)),
                },
            },
        }
    }
}

/// A region lowered: nothing when blank, else its trimmed text parsed as
/// HTML (at the byte offset of its first non-blank character) and lowered.
pub open spec fn lower_region_spec(r: (int, Seq<char>)) -> Result<
    (Seq<IrNodeView>, Seq<IrNodeView>),
    CompileErrorView,
> {
    let t = trim(r.1);
    if t.len() == 0 {
        Ok((Seq::empty(), Seq::empty()))
    } else {
        match spec_parse_html(t, region_offset(r.0, r.1)) {
            Err(e) => Err(CompileErrorView::Parse(e)),
            Ok(nodes) => lower_top_spec(nodes),
        }
    }
}

/// The regions lowered in order, their bodies and heads concatenated; the first error wins.
pub open spec fn lower_regions_spec(rs: Seq<(int, Seq<char>)>) -> Result<
    (Seq<IrNodeView>, Seq<IrNodeView>),
    CompileErrorView,
>
    decreases rs.len(),
{
    if rs.len() == 0 {
        Ok((Seq::empty(), Seq::empty()))
    } else {
        match lower_regions_spec(rs.drop_last()) {
            Err(e) => Err(e),
            Ok((t, h)) => match lower_region_spec(rs.last()) {
                Err(e) => Err(e),
                Ok((t2, h2)) => Ok((t + t2, h + h2)),
            },
        }
    }
}

pub proof fn lemma_ir_nodes_view_concat(a: Seq<IrNode>, b: Seq<IrNode>)
    ensures
        ir_nodes_view(a + b) == ir_nodes_view(a) + ir_nodes_view(b),
    decreases b.len(),
{
    if b.len() == 0 {
        assert(a + b =~= a);
        assert(ir_nodes_view(a) + ir_nodes_view(b) =~= ir_nodes_view(a));
    } else {
        let b0 = b.drop_last();
        lemma_ir_nodes_view_concat(a, b0);
        assert(a + b =~= (a + b0).push(b.last()));
        assert(b =~= b0.push(b.last()));
        lemma_ir_nodes_view_push(a + b0, b.last());
        lemma_ir_nodes_view_push(b0, b.last());
        assert(ir_nodes_view(a) + ir_nodes_view(b) =~= (ir_nodes_view(a) + ir_nodes_view(b0)).push(
            ir_node_view(b.last()),
        ));
    }
}

pub proof fn lemma_lower_top_prefix_err(s: Seq<HtmlNodeView>, k: int)
    requires
        0 <= k <= s.len(),
        lower_top_spec(s.take(k)) is Err,
    ensures
        lower_top_spec(s) == lower_top_spec(s.take(k)),
    decreases s.len() - k,
{
    if k < s.len() {
        assert(s.take(k + 1).drop_last() =~= s.take(k));
        lemma_lower_top_prefix_err(s, k + 1);
    } else {
        assert(s.take(k) =~= s);
    }
}

pub proof fn lemma_lower_regions_prefix_err(s: Seq<(int, Seq<char>)>, k: int)
    requires
        0 <= k <= s.len(),
        lower_regions_spec(s.take(k)) is Err,
    ensures
        lower_regions_spec(s) == lower_regions_spec(s.take(k)),
    decreases s.len() - k,
{
    if k < s.len() {
        assert(s.take(k + 1).drop_last() =~= s.take(k));
        lemma_lower_regions_prefix_err(s, k + 1);
    } else {
        assert(s.take(k) =~= s);
    }
}

/// Lower the top-level nodes of one region onto the ends of `template` and `head`.
fn lower_top_nodes(nodes: &Vec<HtmlNode>, template: &mut Vec<IrNode>, head: &mut Vec<IrNode>) -> (r:
    Result<(), CompileError>)
    ensures
        match r {
            Ok(_) => match lower_top_spec(nodes_view(nodes@)) {
                Ok((t, h)) => ir_nodes_view(final(template)@) == ir_nodes_view(old(template)@) + t
                    && ir_nodes_view(final(head)@) == ir_nodes_view(old(head)@) + h,
                Err(_) => false,
            },
            Err(e) => lower_top_spec(nodes_view(nodes@)) == Err::<
                (Seq<IrNodeView>, Seq<IrNodeView>),
                CompileErrorView,
            >(e@),
        },
{
    let ghost full = nodes_view(nodes@);
    let ghost t0 = ir_nodes_view(template@);
    let ghost h0 = ir_nodes_view(head@);
    proof {
        lemma_nodes_view_len(nodes@);
        assert(full.take(0) =~= Seq::<HtmlNodeView>::empty());
        assert(t0 + Seq::<IrNodeView>::empty() =~= t0);
        assert(h0 + Seq::<IrNodeView>::empty() =~= h0);
    }
    let mut i: usize = 0;
    while i < nodes.len()
        invariant
            i <= nodes@.len(),
            full == nodes_view(nodes@),
            full.len() == nodes@.len(),
            match lower_top_spec(full.take(i as int)) {
                Ok((t, h)) => ir_nodes_view(template@) == t0 + t && ir_nodes_view(head@) == h0 + h,
                Err(_) => false,
            },
        decreases nodes@.len() - i,
    {
        proof {
            lemma_nodes_view_index(nodes@, i as int);
            assert(full.take(i + 1).drop_last() =~= full.take(i as int));
            assert(full.take(i + 1).last() == node_view(nodes@[i as int]));
        }
        let ghost tb = ir_nodes_view(template@);
        let ghost hb = ir_nodes_view(head@);
        match &nodes[i] {
            HtmlNode::Head { children, .. } => {
                match lower_nodes(children) {
                    Ok(mut c) => {
                        let ghost cv = c@;
                        let ghost hv = head@;
                        head.append(&mut c);
                        proof {
                            lemma_ir_nodes_view_concat(hv, cv);
                            let (t, h) = lower_top_spec(full.take(i as int))->Ok_0;
                            assert(h0 + (h + ir_nodes_view(cv)) =~= (h0 + h) + ir_nodes_view(cv));
                        }
                    },
                    Err(e) => {
                        proof {
                            lemma_lower_top_prefix_err(full, i + 1);
                        }
                        return Err(e);
                    },
                }
            },
            _ => {
                match lower_node(&nodes[i]) {
                    Ok(x) => {
                        proof {
                            lemma_ir_nodes_view_push(template@, x);
                            let (t, h) = lower_top_spec(full.take(i as int))->Ok_0;
                            assert(t0 + t.push(ir_node_view(x)) =~= (t0 + t).push(ir_node_view(x)));
                        }
                        template.push(x);
                    },
                    Err(e) => {
                        proof {
                            lemma_lower_top_prefix_err(full, i + 1);
                        }
                        return Err(e);
                    },
                }
            },
        }
        i = i + 1;
    }
    proof {
        assert(full.take(i as int) =~= full);
    }
    Ok(())
}

/// Extract template regions (gaps between script/style blocks) from the raw
/// source, parse each into an HTML tree, and lower it to IR nodes, returning
/// the body nodes and the `<thebe:head>` nodes.
fn lower_template(source: &str, ast: &ThebeAst) -> (r: Result<(Vec<IrNode>, Vec<IrNode>), CompileError>)
    requires
        blocks_on_boundaries(source@, ast@),
    ensures
        match r {
            Ok((t, h)) => lower_regions_spec(template_regions(source@, ast@)) == Ok::<
                (Seq<IrNodeView>, Seq<IrNodeView>),
                CompileErrorView,
            >((ir_nodes_view(t@), ir_nodes_view(h@))),
            Err(e) => lower_regions_spec(template_regions(source@, ast@)) == Err::<
                (Seq<IrNodeView>, Seq<IrNodeView>),
                CompileErrorView,
            >(e@),
        },
{
    let n = str_byte_len(source);
    let regions = extract_template_regions(source, ast);
    let ghost rs = regions_view(regions@);
    let mut template: Vec<IrNode> = Vec::new();
    let mut head: Vec<IrNode> = Vec::new();
    proof {
        assert(rs.take(0) =~= Seq::<(int, Seq<char>)>::empty());
        assert(ir_nodes_view(template@) =~= Seq::<IrNodeView>::empty());
    }
    let mut k: usize = 0;
    while k < regions.len()
        invariant
            k <= regions@.len(),
            rs == regions_view(regions@),
            rs == template_regions(source@, ast@),
            rs.len() == regions@.len(),
            n == utf8_len(source@),
            forall|j: int|
                0 <= j < regions@.len() ==> #[trigger] regions@[j].0 + utf8_len(regions@[j].1@)
                    <= utf8_len(source@),
            lower_regions_spec(rs.take(k as int)) == Ok::<
                (Seq<IrNodeView>, Seq<IrNodeView>),
                CompileErrorView,
            >((ir_nodes_view(template@), ir_nodes_view(head@))),
        decreases regions@.len() - k,
    {
        let offset = regions[k].0;
        let chars = chars_of(regions[k].1.as_str());
        let ghost text = chars@;
        proof {
            assert(rs.take(k + 1).drop_last() =~= rs.take(k as int));
            assert(rs.take(k + 1).last() == (offset as int, text));
            assert(regions@[k as int].0 + utf8_len(regions@[k as int].1@) <= utf8_len(source@));
        }
        let cs = chars.as_slice();
        let offs = byte_offsets(cs, offset);
        let i = skip_space_exec(cs, 0);
        let j = skip_space_back_exec(cs, cs.len());
        let ghost tb = ir_nodes_view(template@);
        let ghost hb = ir_nodes_view(head@);
        if i < j {
            proof {
                lemma_skip_space_bounds(text, 0);
                lemma_skip_space_back_bounds(text, text.len() as int);
                lemma_utf8_len_subrange(text, i as int, j as int);
                lemma_utf8_len_mono(text, j as int, text.len() as int);
                lemma_utf8_len_full(text);
            }
            let trimmed = substring(cs, i, j);
            let trim_offset = offs[i];
            assert(trimmed@ == trim(text));
            assert(trim_offset == region_offset(offset as int, text));
            let nodes = match parse_html(trimmed.as_str(), trim_offset) {
                Ok(v) => v,
                Err(e) => {
                    proof {
                        lemma_lower_regions_prefix_err(rs, k + 1);
                    }
                    return Err(CompileError::Parse(e));
                },
            };
            let ghost tv = template@;
            let ghost hv = head@;
            match lower_top_nodes(&nodes, &mut template, &mut head) {
                Ok(_) => {
                    proof {
                        let (t, h) = lower_regions_spec(rs.take(k as int))->Ok_0;
                        let (t2, h2) = lower_top_spec(nodes_view(nodes@))->Ok_0;
                        assert(t + t2 == ir_nodes_view(template@));
                        assert(h + h2 == ir_nodes_view(head@));
                    }
                },
                Err(e) => {
                    proof {
                        lemma_lower_regions_prefix_err(rs, k + 1);
                    }
                    return Err(e);
                },
            }
        } else {
            proof {
                assert(trim(text).len() == 0);
                assert(tb + Seq::<IrNodeView>::empty() =~= tb);
                assert(hb + Seq::<IrNodeView>::empty() =~= hb);
            }
        }
        k = k + 1;
    }
    proof {
        assert(rs.take(k as int) =~= rs);
    }
    Ok((template, head))
}

// ---------------------------------------------------------------------------
// Scope identifiers
// ---------------------------------------------------------------------------

/// What `<str as Hash>::hash` writes into a hasher whose writes so far are
/// `state`, for a string with characters `content`.
pub uninterp spec fn str_hash_writes(state: Seq<Seq<u8>>, content: Seq<char>) -> Seq<Seq<u8>>;

/// `<str as Hash>::hash` into a `DefaultHasher`. What it writes is a
/// function of the string and the writes before it; which bytes it writes
/// is not stated (the standard library documents no layout for it).
#[verifier::external_body]
fn hash_str(content: &str, state: &mut DefaultHasher)
    ensures
        final(state)@ == str_hash_writes(old(state)@, content@),
{
    content.hash(state);
}

/// The lowest `n` hexadecimal digits of `v`, most significant first, in lower case.
pub open spec fn hex_digits(v: nat, n: nat) -> Seq<char>
    decreases n,
{
    if n == 0 {
        Seq::empty()
    } else {
        hex_digits(v / 16, (n - 1) as nat).push("0123456789abcdef"@[(v % 16) as int])
    }
}

/// The scope identifier of a hash: `s-` and the low 32 bits as 8 hex digits.
pub open spec fn scope_id_of_hash(hash: u64) -> Seq<char> {
    "s-"@ + hex_digits(hash as nat % 0x1_0000_0000, 8)
}

/// The scope identifier of a style block's content: that of its `DefaultHasher` hash.
pub open spec fn scope_id_spec(content: Seq<char>) -> Seq<char> {
    scope_id_of_hash(DefaultHasher::spec_finish(str_hash_writes(Seq::empty(), content)))
}

/// A lower-case hexadecimal digit.
pub open spec fn is_hex_digit(c: char) -> bool {
    ('0' <= c && c <= '9') || ('a' <= c && c <= 'f')
}

proof fn lemma_hex_digits(v: nat, n: nat)
    ensures
        hex_digits(v, n).len() == n,
        forall|i: int| 0 <= i < n ==> is_hex_digit(#[trigger] hex_digits(v, n)[i]),
    decreases n,
{
    reveal_strlit("0123456789abcdef");
    if n > 0 {
        lemma_hex_digits(v / 16, (n - 1) as nat);
        let d = "0123456789abcdef"@[(v % 16) as int];
        assert(is_hex_digit(d));
        assert forall|i: int| 0 <= i < n implies is_hex_digit(#[trigger] hex_digits(v, n)[i]) by {
            if i < n - 1 {
                assert(hex_digits(v, n)[i] == hex_digits(v / 16, (n - 1) as nat)[i]);
            }
        }
    }
}

/// Law: every scope identifier is `s-` followed by eight lower-case
/// hexadecimal digits, whatever the style content.
pub proof fn lemma_scope_id_format(content: Seq<char>)
    ensures
        scope_id_spec(content).len() == 10,
        scope_id_spec(content).take(2) == "s-"@,
        forall|i: int| 2 <= i < 10 ==> is_hex_digit(#[trigger] scope_id_spec(content)[i]),
{
    reveal_strlit("s-");
    let h = DefaultHasher::spec_finish(str_hash_writes(Seq::empty(), content));
    lemma_hex_digits(h as nat % 0x1_0000_0000, 8);
    let id = scope_id_spec(content);
    assert(id.take(2) =~= "s-"@);
    assert forall|i: int| 2 <= i < 10 implies is_hex_digit(#[trigger] id[i]) by {
        assert(id[i] == hex_digits(h as nat % 0x1_0000_0000, 8)[i - 2]);
    }
}

fn hex_digits_exec(v: u64, n: usize) -> (r: Vec<char>)
    ensures
        r@ == hex_digits(v as nat, n as nat),
    decreases n,
{
    if n == 0 {
        Vec::new()
    } else {
        let mut r = hex_digits_exec(v / 16, n - 1);
        let digits = chars_of("0123456789abcdef");
        proof {
            reveal_strlit("0123456789abcdef");
        }
        r.push(digits[(v % 16) as usize]);
        r
    }
}

/// The scope identifier for a given content hash (`s-` and 8 lower-case hex digits).
pub fn scope_id_from_hash(hash: u64) -> (r: String)
    ensures
        r@ == scope_id_of_hash(hash),
{
    let low = hash & 0xFFFF_FFFFu64;
    assert(low == hash % 0x1_0000_0000) by (bit_vector)
        requires
            low == hash & 0xFFFF_FFFFu64,
    ;
    let digits = hex_digits_exec(low, 8);
    let prefix = chars_of("s-");
    string_from(concat_chars(prefix.as_slice(), digits.as_slice()).as_slice())
}

/// Generate a deterministic scope identifier from style content.
pub fn generate_scope_id(content: &str) -> (r: String)
    ensures
        r@ == scope_id_spec(content@),
{
    let mut hasher = DefaultHasher::new();
    hash_str(content, &mut hasher);
    let hash = hasher.finish();
    scope_id_from_hash(hash)
}

// ---------------------------------------------------------------------------
// Script / style lowering
// ---------------------------------------------------------------------------

pub open spec fn setup_spec(b: Option<ScriptBlockView>) -> Option<IrExprView> {
    match b {
        Some(sb) => Some(IrExprView { expr: sb.content, span: sb.span }),
        None => None,
    }
}

/// A client script: its content and span, with a missing `lang` as the empty string.
pub open spec fn client_spec(b: Option<ScriptBlockView>) -> Option<ClientScriptView> {
    match b {
        Some(sb) => Some(
            ClientScriptView {
                content: sb.content,
                lang: match sb.lang {
                    Some(l) => l,
                    None => Seq::empty(),
                },
                span: sb.span,
            },
        ),
        None => None,
    }
}

/// A processed style: a scoped one gets the scope identifier of its content.
pub open spec fn style_spec(st: StyleBlockView) -> ProcessedStyleView {
    ProcessedStyleView {
        content: st.content,
        scoped: st.scoped,
        scope_id: if st.scoped {
            Some(scope_id_spec(st.content))
        } else {
            None
        },
        lang: st.lang,
        span: st.span,
    }
}

fn lower_setup(script: &ScriptBlock) -> (r: SetupBlock)
    ensures
        r.content@ == script.content@,
        r.span == script.span,
{
    SetupBlock { content: script.content.clone(), span: script.span }
}

fn lower_client_script(script: &ScriptBlock) -> (r: ClientScript)
    ensures
        opt_client_view(Some(r)) == client_spec(Some(script@)),
{
    let lang = match &script.lang {
        Some(l) => l.clone(),
        None => String::new(),
    };
    ClientScript { content: script.content.clone(), lang, span: script.span }
}

fn lower_style(style: &StyleBlock) -> (r: ProcessedStyle)
    ensures
        r@ == style_spec(style@),
{
    let scope_id = if style.scoped {
        Some(generate_scope_id(style.content.as_str()))
    } else {
        None
    };
    ProcessedStyle {
        content: style.content.clone(),
        scoped: style.scoped,
        scope_id,
        lang: clone_opt(&style.lang),
        span: style.span,
    }
}

// ---------------------------------------------------------------------------
// Public API
// ---------------------------------------------------------------------------

/// The compiled component of source `s` with AST `ast`: the blocks carried
/// over (scoped styles with their scope identifiers), and the template
/// regions between the blocks parsed and lowered; the first error wins.
pub open spec fn lower_spec(s: Seq<char>, ast: ThebeAstView) -> Result<
    CompiledComponentView,
    CompileErrorView,
> {
    match lower_regions_spec(template_regions(s, ast)) {
        Err(e) => Err(e),
        Ok((t, h)) => Ok(
            CompiledComponentView {
                setup: setup_spec(ast.script_setup),
                client_script: client_spec(ast.script),
                styles: ast.styles.map_values(|st: StyleBlockView| style_spec(st)),
                template: t,
                head: h,
            },
        ),
    }
}

pub open spec fn compiled_res(r: Result<CompiledComponent, CompileError>) -> Result<
    CompiledComponentView,
    CompileErrorView,
> {
    match r {
        Ok(c) => Ok(c@),
        Err(e) => Err(e@),
    }
}

/// Lower a parsed `.trs` AST and its raw source into a [`CompiledComponent`].
///
/// The `source` must be the input that `ast` was parsed from (its block
/// spans must fall on character boundaries of `source`).
pub fn lower(source: &str, ast: &ThebeAst) -> (r: Result<CompiledComponent, CompileError>)
    requires
        blocks_on_boundaries(source@, ast@),
    ensures
        compiled_res(r) == lower_spec(source@, ast@),
{
    let setup = match &ast.script_setup {
        Some(sb) => Some(lower_setup(sb)),
        None => None,
    };
    let client_script = match &ast.script {
        Some(sb) => Some(lower_client_script(sb)),
        None => None,
    };
    let mut styles: Vec<ProcessedStyle> = Vec::new();
    let mut i: usize = 0;
    while i < ast.styles.len()
        invariant
            i <= ast.styles@.len(),
            styles@.len() == i,
            forall|k: int| 0 <= k < i ==> #[trigger] styles@[k]@ == style_spec(ast.styles@[k]@),
        decreases ast.styles@.len() - i,
    {
        styles.push(lower_style(&ast.styles[i]));
        i = i + 1;
    }
    let (template, head) = match lower_template(source, ast) {
        Ok(p) => p,
        Err(e) => {
            return Err(e);
        },
    };
    let r = CompiledComponent { setup, client_script, styles, template, head };
    proof {
        assert(r@.styles =~= ast@.styles.map_values(|st: StyleBlockView| style_spec(st)));
    }
    Ok(r)
}

// ---------------------------------------------------------------------------
// Parsed files can be lowered
// ---------------------------------------------------------------------------

proof fn lemma_block_span(s: Seq<char>, i: int, j: int)
    requires
        0 <= i <= j <= s.len(),
        utf8_len(s) <= usize::MAX,
    ensures
        span_on_boundaries(s, mk_span(bpos(s, 0, i), bpos(s, 0, j))),
{
    lemma_bpos_mono(s, 0, i, j);
    lemma_bpos_mono(s, 0, j, s.len() as int);
    lemma_utf8_len_full(s);
    lemma_char_index(s, i);
    lemma_char_index(s, j);
}

proof fn lemma_parse_from_boundaries(s: Seq<char>, pos: int, ast: ThebeAstView)
    requires
        utf8_len(s) <= usize::MAX,
        blocks_on_boundaries(s, ast),
    ensures
        parse_from(s, pos, ast) matches Ok(a) ==> blocks_on_boundaries(s, a),
    decreases s.len() - pos,
{
    if 0 <= pos < s.len() {
        lemma_find_next_block(s, pos);
        match spec_find_next_block(s, pos) {
            None => {},
            Some((kind, ts, te)) => {
                let close = close_tag_of(kind);
                lemma_find_from_props(s, close, te);
                match find_from(s, close, te) {
                    None => {},
                    Some(c) => {
                        let end = c + close.len();
                        lemma_block_span(s, ts, end);
                        let at = bpos(s, 0, ts);
                        let span = mk_span(at, bpos(s, 0, end));
                        let open_tag = s.subrange(ts, te);
                        let content = trim(s.subrange(te, c));
                        match spec_push_fragment(ast.template, s, pos, ts) {
                            Err(_) => {},
                            Ok(t) => {
                                let ast1 = with_template(ast, t);
                                let next = match kind {
                                    BlockKind::ScriptSetup => ThebeAstView {
                                        script_setup: Some(
                                            ScriptBlockView { content, lang: None, span },
                                        ),
                                        ..ast1
                                    },
                                    BlockKind::Script => ThebeAstView {
                                        script: Some(
                                            ScriptBlockView {
                                                content,
                                                lang: spec_extract_attr(open_tag, "lang"@),
                                                span,
                                            },
                                        ),
                                        ..ast1
                                    },
                                    BlockKind::Style => ThebeAstView {
                                        styles: ast1.styles.push(
                                            StyleBlockView {
                                                content,
                                                scoped: spec_has_bool_attr(open_tag, "scoped"@),
                                                lang: spec_extract_attr(open_tag, "lang"@),
                                                span,
                                            },
                                        ),
                                        ..ast1
                                    },
                                };
                                assert(blocks_on_boundaries(s, next)) by {
                                    if kind == BlockKind::Style {
                                        assert forall|k: int| 0 <= k < next.styles.len() implies span_on_boundaries(
                                            s,
                                            #[trigger] next.styles[k].span,
                                        ) by {
                                            if k < ast.styles.len() {
                                                assert(next.styles[k] == ast.styles[k]);
                                            }
                                        }
                                    }
                                }
                                lemma_parse_from_boundaries(s, end, next);
                                if kind == BlockKind::Script {
                                    match spec_extract_attr(open_tag, "lang"@) {
                                        Some(l) => {
                                            assert(next.script == Some(
                                                ScriptBlockView { content, lang: Some(l), span },
                                            ));
                                        },
                                        None => {},
                                    }
                                }
                            },
                        }
                    },
                }
            },
        }
    }
}

/// Law: the block spans of every file that parses fall on character
/// boundaries of its source, so [`lower`] accepts every parsed source with
/// its own AST.
pub proof fn lemma_parse_blocks_on_boundaries(s: Seq<char>)
    requires
        utf8_len(s) <= usize::MAX,
        spec_parse(s) is Ok,
    ensures
        blocks_on_boundaries(s, spec_parse(s)->Ok_0),
{
    lemma_parse_from_boundaries(s, 0, empty_ast());
}

// ---------------------------------------------------------------------------
// Shape laws
// ---------------------------------------------------------------------------

/// Law: lowering keeps every node: a list of nodes that lowers gives one IR
/// node per template node, in the same positions.
pub proof fn lemma_lower_nodes_len(s: Seq<HtmlNodeView>)
    ensures
        lower_nodes_spec(s) matches Ok(v) ==> v.len() == s.len() && forall|i: int|
            0 <= i < s.len() ==> lower_node_spec(s[i]) == Ok::<IrNodeView, CompileErrorView>(
                #[trigger] v[i],
            ),
    decreases s.len(),
{
    if s.len() > 0 {
        let pre = s.subrange(0, s.len() - 1);
        lemma_lower_nodes_len(pre);
        if lower_nodes_spec(s) is Ok {
            let v = lower_nodes_spec(s)->Ok_0;
            let pv = lower_nodes_spec(pre)->Ok_0;
            assert forall|i: int| 0 <= i < s.len() implies lower_node_spec(s[i]) == Ok::<
                IrNodeView,
                CompileErrorView,
            >(#[trigger] v[i]) by {
                if i < s.len() - 1 {
                    assert(s[i] == pre[i]);
                    assert(v[i] == pv[i]);
                }
            }
        }
    }
}

/// The top-level nodes that are not `<thebe:head>` blocks.
pub open spec fn body_nodes(nodes: Seq<HtmlNodeView>) -> Seq<HtmlNodeView>
    decreases nodes.len(),
{
    if nodes.len() == 0 {
        Seq::empty()
    } else {
        let r = body_nodes(nodes.drop_last());
        if nodes.last() is Head {
            r
        } else {
            r.push(nodes.last())
        }
    }
}

/// Law: at the top level of a region the body gets exactly the lowered
/// non-head nodes, in order; `<thebe:head>` blocks go to the head only.
pub proof fn lemma_lower_top_body(nodes: Seq<HtmlNodeView>)
    ensures
        lower_top_spec(nodes) matches Ok((t, h)) ==> lower_nodes_spec(body_nodes(nodes)) == Ok::<
            Seq<IrNodeView>,
            CompileErrorView,
        >(t),
    decreases nodes.len(),
{
    if nodes.len() > 0 {
        let pre = nodes.drop_last();
        lemma_lower_top_body(pre);
        let b = body_nodes(pre);
        if !(nodes.last() is Head) {
            assert(body_nodes(nodes).subrange(0, body_nodes(nodes).len() - 1) =~= b);
        }
    }
}

} // verus!

verus! {

/// The byte ranges around `spans` (taken in order) within `[pos, n)`:
/// from `pos` to the first span's start, between each span's end and the
/// next one's start, and from the last span's end to `n`.
pub open spec fn gaps_from(spans: Seq<Span>, pos: int, n: int) -> Seq<(int, int)>
    decreases spans.len(),
{
    if spans.len() == 0 {
        seq![(pos, n)]
    } else {
        seq![(pos, spans[0].start as int)] + gaps_from(spans.drop_first(), spans[0].end as int, n)
    }
}

/// A range that holds at least one byte.
pub open spec fn nonempty_range(g: (int, int)) -> bool {
    g.0 < g.1
}

/// A range with the text of `s` it covers.
pub open spec fn region_of(s: Seq<char>, g: (int, int)) -> (int, Seq<char>) {
    (g.0, s.subrange(char_index(s, g.0), char_index(s, g.1)))
}

proof fn lemma_regions_from_gaps(s: Seq<char>, spans: Seq<Span>, pos: int)
    ensures
        regions_from(s, spans, pos) == gaps_from(spans, pos, utf8_len(s) as int).filter(
            |g: (int, int)| nonempty_range(g),
        ).map_values(|g: (int, int)| region_of(s, g)),
    decreases spans.len(),
{
    reveal(Seq::filter);
    let pred = |g: (int, int)| nonempty_range(g);
    let f = |g: (int, int)| region_of(s, g);
    let n = utf8_len(s) as int;
    if spans.len() == 0 {
        let one: Seq<(int, int)> = seq![(pos, n)];
        assert(one.drop_last() =~= Seq::<(int, int)>::empty());
        assert(Seq::<(int, int)>::empty().filter(pred) =~= Seq::<(int, int)>::empty());
        assert(!pred((pos, n)) ==> one.filter(pred) == one.drop_last().filter(pred));
        if pos < n {
            assert(one.filter(pred) =~= one);
        } else {
            assert(one.filter(pred) =~= Seq::<(int, int)>::empty());
        }
        lemma_char_index(s, s.len() as int);
        crate::text::lemma_utf8_len_full(s);
        assert(char_index(s, n) == s.len());
        assert(regions_from(s, spans, pos) =~= one.filter(pred).map_values(f));
    } else {
        let sp = spans[0];
        let head: Seq<(int, int)> = seq![(pos, sp.start as int)];
        let rest = gaps_from(spans.drop_first(), sp.end as int, n);
        lemma_regions_from_gaps(s, spans.drop_first(), sp.end as int);
        Seq::filter_distributes_over_add(head, rest, pred);
        assert(head.drop_last() =~= Seq::<(int, int)>::empty());
        assert(Seq::<(int, int)>::empty().filter(pred) =~= Seq::<(int, int)>::empty());
        assert(!pred((pos, sp.start as int)) ==> head.filter(pred) == head.drop_last().filter(pred));
        if sp.start > pos {
            assert(head.filter(pred) =~= head);
        } else {
            assert(head.filter(pred) =~= Seq::<(int, int)>::empty());
        }
        assert((head.filter(pred) + rest.filter(pred)).map_values(f) =~= head.filter(pred).map_values(f)
            + rest.filter(pred).map_values(f));
        assert(regions_from(s, spans, pos) =~= head.filter(pred).map_values(f) + regions_from(
            s,
            spans.drop_first(),
            sp.end as int,
        ));
    }
}

/// The spans are in order and apart, each from its start to its end.
pub open spec fn spans_apart(spans: Seq<Span>) -> bool {
    &&& forall|i: int| 0 <= i < spans.len() ==> (#[trigger] spans[i]).start <= spans[i].end
    &&& forall|i: int, j: int| 0 <= i < j < spans.len() ==> (#[trigger] spans[i]).end <= (#[trigger] spans[j]).start
}

proof fn lemma_gaps_uncovered(spans: Seq<Span>, pos: int, n: int)
    requires
        spans_apart(spans),
        spans.len() > 0 ==> pos <= spans[0].start,
        forall|i: int| 0 <= i < spans.len() ==> (#[trigger] spans[i]).end <= n,
    ensures
        forall|k: int, i: int|
            0 <= k < gaps_from(spans, pos, n).len() && 0 <= i < spans.len() && nonempty_range(
                #[trigger] gaps_from(spans, pos, n)[k],
            ) ==> !((#[trigger] spans[i]).start < gaps_from(spans, pos, n)[k].1 && gaps_from(
                spans,
                pos,
                n,
            )[k].0 < spans[i].end),
        forall|k: int| 0 <= k < gaps_from(spans, pos, n).len() ==> {
            let g = #[trigger] gaps_from(spans, pos, n)[k];
            &&& g.0 == pos || exists|i: int| 0 <= i < spans.len() && g.0 == spans[i].end
            &&& g.1 == n || exists|i: int| 0 <= i < spans.len() && g.1 == spans[i].start
        },
    decreases spans.len(),
{
    let gs = gaps_from(spans, pos, n);
    if spans.len() > 0 {
        let sp = spans[0];
        let tl = spans.drop_first();
        assert(spans_apart(tl)) by {
            assert forall|i: int, j: int| 0 <= i < j < tl.len() implies (#[trigger] tl[i]).end <= (
            #[trigger] tl[j]).start by {
                assert(tl[i] == spans[i + 1] && tl[j] == spans[j + 1]);
            }
            assert forall|i: int| 0 <= i < tl.len() implies (#[trigger] tl[i]).start <= tl[i].end by {
                assert(tl[i] == spans[i + 1]);
            }
        }
        if tl.len() > 0 {
            assert(tl[0] == spans[1]);
        }
        assert forall|i: int| 0 <= i < tl.len() implies (#[trigger] tl[i]).end <= n by {
            assert(tl[i] == spans[i + 1]);
        }
        lemma_gaps_uncovered(tl, sp.end as int, n);
        let rest = gaps_from(tl, sp.end as int, n);
        assert(gs =~= seq![(pos, sp.start as int)] + rest);
        assert forall|k: int, i: int|
            0 <= k < gs.len() && 0 <= i < spans.len() && nonempty_range(#[trigger] gs[k]) implies !(
            (#[trigger] spans[i]).start < gs[k].1 && gs[k].0 < spans[i].end) by {
            if k == 0 {
                if i > 0 {
                    assert(spans[0].end <= spans[i].start);
                }
            } else {
                assert(gs[k] == rest[k - 1]);
                if i > 0 {
                    assert(spans[i] == tl[i - 1]);
                } else {
                    // The first span ends where the rest begins.
                    lemma_gaps_start_after(tl, sp.end as int, n, k - 1);
                }
            }
        }
        assert forall|k: int| 0 <= k < gs.len() implies {
            let g = #[trigger] gs[k];
            &&& g.0 == pos || exists|i: int| 0 <= i < spans.len() && g.0 == spans[i].end
            &&& g.1 == n || exists|i: int| 0 <= i < spans.len() && g.1 == spans[i].start
        } by {
            if k == 0 {
                assert(gs[0].1 == spans[0].start);
            } else {
                assert(gs[k] == rest[k - 1]);
                let g = rest[k - 1];
                if g.0 == sp.end {
                    assert(g.0 == spans[0].end);
                } else {
                    let i = choose|i: int| 0 <= i < tl.len() && g.0 == tl[i].end;
                    assert(tl[i] == spans[i + 1]);
                }
                if g.1 != n {
                    let i = choose|i: int| 0 <= i < tl.len() && g.1 == tl[i].start;
                    assert(tl[i] == spans[i + 1]);
                }
            }
        }
    }
}

proof fn lemma_gaps_start_after(spans: Seq<Span>, pos: int, n: int, k: int)
    requires
        spans_apart(spans),
        spans.len() > 0 ==> pos <= spans[0].start,
        0 <= k < gaps_from(spans, pos, n).len(),
    ensures
        gaps_from(spans, pos, n)[k].0 >= pos,
    decreases spans.len(),
{
    if spans.len() > 0 && k > 0 {
        let tl = spans.drop_first();
        assert(spans_apart(tl)) by {
            assert forall|i: int, j: int| 0 <= i < j < tl.len() implies (#[trigger] tl[i]).end <= (
            #[trigger] tl[j]).start by {
                assert(tl[i] == spans[i + 1] && tl[j] == spans[j + 1]);
            }
            assert forall|i: int| 0 <= i < tl.len() implies (#[trigger] tl[i]).start <= tl[i].end by {
                assert(tl[i] == spans[i + 1]);
            }
        }
        if tl.len() > 0 {
            assert(tl[0] == spans[1]);
            assert(spans[0].end <= spans[1].start);
        }
        assert(gaps_from(spans, pos, n) =~= seq![(pos, spans[0].start as int)] + gaps_from(tl, spans[0].end as int, n));
        lemma_gaps_start_after(tl, spans[0].end as int, n, k - 1);
    }
}

/// Law: the template regions are the source's byte ranges not covered by
/// a block: they are the non-empty ranges around the blocks (taken by
/// start), each with the text it covers; when the blocks are in order and
/// apart (as those of a parse are), no region overlaps a block, and each
/// region starts at the start of the source or the end of a block and ends
/// at the start of a block or the end of the source, so it is maximal.
pub proof fn lemma_template_regions_gaps(s: Seq<char>, ast: ThebeAstView)
    ensures
        template_regions(s, ast) == gaps_from(sort_by_start(block_spans(ast)), 0, utf8_len(s) as int).filter(
            |g: (int, int)| nonempty_range(g),
        ).map_values(|g: (int, int)| region_of(s, g)),
        ({
            let spans = sort_by_start(block_spans(ast));
            let gs = gaps_from(spans, 0, utf8_len(s) as int);
            spans_apart(spans) && (forall|i: int| 0 <= i < spans.len() ==> (#[trigger] spans[i]).end <= utf8_len(s))
                ==> (forall|k: int, i: int|
                0 <= k < gs.len() && 0 <= i < spans.len() && nonempty_range(#[trigger] gs[k]) ==> !(
                (#[trigger] spans[i]).start < gs[k].1 && gs[k].0 < spans[i].end)) && (forall|k: int|
                0 <= k < gs.len() ==> {
                    let g = #[trigger] gs[k];
                    &&& g.0 == 0 || exists|i: int| 0 <= i < spans.len() && g.0 == spans[i].end
                    &&& g.1 == utf8_len(s) || exists|i: int| 0 <= i < spans.len() && g.1 == spans[i].start
                })
        }),
{
    let spans = sort_by_start(block_spans(ast));
    lemma_regions_from_gaps(s, spans, 0);
    if spans_apart(spans) && (forall|i: int| 0 <= i < spans.len() ==> (#[trigger] spans[i]).end <= utf8_len(s)) {
        lemma_gaps_uncovered(spans, 0, utf8_len(s) as int);
    }
}

} // verus!

verus! {

/// Law: lowering keeps the styles: one processed style per style block, in
/// order, with its content, `scoped` flag, `lang` and span; a style has a
/// scope identifier exactly when it is scoped, that identifier being `s-`
/// and eight lower-case hex digits, the same for the same content.
pub proof fn lemma_lower_styles(s: Seq<char>, ast: ThebeAstView, i: int, j: int)
    requires
        lower_spec(s, ast) is Ok,
        0 <= i < ast.styles.len(),
        0 <= j < ast.styles.len(),
    ensures
        ({
            let c = lower_spec(s, ast)->Ok_0;
            &&& c.styles.len() == ast.styles.len()
            &&& c.styles[i].content == ast.styles[i].content
            &&& c.styles[i].scoped == ast.styles[i].scoped
            &&& c.styles[i].lang == ast.styles[i].lang
            &&& c.styles[i].span == ast.styles[i].span
            &&& (c.styles[i].scope_id is Some <==> ast.styles[i].scoped)
            &&& (c.styles[i].scope_id matches Some(id) ==> id.len() == 10 && id.take(2) == "s-"@
                && forall|k: int| 2 <= k < 10 ==> is_hex_digit(#[trigger] id[k]))
            &&& (ast.styles[i].scoped && ast.styles[j].scoped && ast.styles[i].content
                == ast.styles[j].content ==> c.styles[i].scope_id == c.styles[j].scope_id)
        }),
{
    lemma_scope_id_format(ast.styles[i].content);
}

} // verus!
