//! Semantic validation of the compiled IR: non-fatal warnings.

use vstd::prelude::*;
use crate::ir::{
    CompiledComponent, CompiledComponentView, EventModifier, IrAttribute, IrBinding,
    IrClassToggle, IrComponentRef, IrDirectiveView, IrElement, IrElementView, IrEventHandler,
    IrEventHandlerView, IrIfBranch, IrIfBranchView, IrNode, IrNodeView, IrStyleProp, attrs_view,
    bindings_view, events_view, style_props_view, toggles_view,
    ir_branch_view, ir_branches_view, ir_component_view, ir_element_view, ir_node_view,
    ir_nodes_view, lemma_ir_branches_view_index, lemma_ir_branches_view_len,
    lemma_ir_nodes_view_index, lemma_ir_nodes_view_len,
};
use crate::text::{
    chars_eq, chars_of, concat_chars, lemma_skip_space_back_bounds,
    lemma_skip_space_bounds, skip_space_back_exec, skip_space_exec, string_from, trim,
};
use crate::types::{AttributeView, Span, TemplateNode, TemplateNodeView, opt_str, tnodes_view};
use crate::warning::{ValidationWarning, ValidationWarningView};

verus! {

// ---------------------------------------------------------------------------
// Named items
// ---------------------------------------------------------------------------

/// A named item of an element: its name, its value and its span. Attributes
/// have an empty value here; directives give their argument and expression.
pub type ItemView = (Seq<char>, Seq<char>, Span);

pub open spec fn items_view(v: Seq<(String, String, Span)>) -> Seq<ItemView> {
    v.map_values(|t: (String, String, Span)| (t.0@, t.1@, t.2))
}

pub open spec fn attr_items(v: Seq<AttributeView>) -> Seq<ItemView> {
    v.map_values(|a: AttributeView| (a.name, Seq::<char>::empty(), a.span))
}

pub open spec fn event_items(v: Seq<IrEventHandlerView>) -> Seq<ItemView> {
    v.map_values(|e: IrEventHandlerView| (e.event, e.handler, e.span))
}

pub open spec fn dir_items(v: Seq<IrDirectiveView>) -> Seq<ItemView> {
    v.map_values(|d: IrDirectiveView| (d.name, d.value, d.span))
}

/// The index of the first item named `name`.
pub open spec fn first_named(items: Seq<ItemView>, name: Seq<char>) -> Option<int>
    decreases items.len(),
{
    if items.len() == 0 {
        None
    } else {
        match first_named(items.drop_last(), name) {
            Some(k) => Some(k),
            None => if items.last().0 == name {
                Some(items.len() - 1)
            } else {
                None
            },
        }
    }
}

/// Whether a text is empty once trimmed (`str::trim().is_empty()`).
pub open spec fn blank(t: Seq<char>) -> bool {
    trim(t).len() == 0
}

/// The kinds of duplicate warnings.
#[derive(Clone, Copy, PartialEq, Eq, Structural)]
pub enum DupKind {
    Attribute,
    Event,
    Binding,
    ClassToggle,
    StyleProp,
}

pub open spec fn dup_warning(
    kind: DupKind,
    tag: Seq<char>,
    name: Seq<char>,
    first_span: Span,
    dup_span: Span,
) -> ValidationWarningView {
    match kind {
        DupKind::Attribute => ValidationWarningView::DuplicateAttribute {
            name,
            tag,
            first_span,
            dup_span,
        },
        DupKind::Event => ValidationWarningView::DuplicateEventHandler {
            event: name,
            tag,
            first_span,
            dup_span,
        },
        DupKind::Binding => ValidationWarningView::DuplicateBinding {
            property: name,
            tag,
            first_span,
            dup_span,
        },
        DupKind::ClassToggle => ValidationWarningView::DuplicateClassToggle {
            class: name,
            tag,
            first_span,
            dup_span,
        },
        DupKind::StyleProp => ValidationWarningView::DuplicateStyleProp {
            property: name,
            tag,
            first_span,
            dup_span,
        },
    }
}

/// One warning for each item whose name an earlier item already has, in
/// item order, pointing back at the first item of that name.
pub open spec fn dup_warnings(items: Seq<ItemView>, kind: DupKind, tag: Seq<char>) -> Seq<
    ValidationWarningView,
>
    decreases items.len(),
{
    if items.len() == 0 {
        Seq::empty()
    } else {
        let pre = items.drop_last();
        let it = items.last();
        let rest = dup_warnings(pre, kind, tag);
        match first_named(pre, it.0) {
            Some(j) => rest.push(dup_warning(kind, tag, it.0, pre[j].2, it.2)),
            None => rest,
        }
    }
}

/// The kinds of empty-value warnings.
#[derive(Clone, Copy, PartialEq, Eq, Structural)]
pub enum BlankKind {
    Handler,
    StyleValue,
    ClassCondition,
    BindingExpression,
}

pub open spec fn blank_warning(kind: BlankKind, name: Seq<char>, span: Span) -> ValidationWarningView {
    match kind {
        BlankKind::Handler => ValidationWarningView::EmptyEventHandler { event: name, span },
        BlankKind::StyleValue => ValidationWarningView::EmptyStylePropValue { property: name, span },
        BlankKind::ClassCondition => ValidationWarningView::EmptyClassToggleCondition {
            class: name,
            span,
        },
        BlankKind::BindingExpression => ValidationWarningView::EmptyBindingExpression {
            property: name,
            span,
        },
    }
}

/// One warning for each item whose value is blank, in item order.
pub open spec fn blank_warnings(items: Seq<ItemView>, kind: BlankKind) -> Seq<ValidationWarningView>
    decreases items.len(),
{
    if items.len() == 0 {
        Seq::empty()
    } else {
        let it = items.last();
        let rest = blank_warnings(items.drop_last(), kind);
        if blank(it.1) {
            rest.push(blank_warning(kind, it.0, it.2))
        } else {
            rest
        }
    }
}

/// The conflicting-modifier warnings of one handler: `passive` with
/// `preventDefault`, then `passive` with `nonpassive`.
pub open spec fn conflicts_of(e: IrEventHandlerView) -> Seq<ValidationWarningView> {
    let passive = e.modifiers.contains(EventModifier::Passive);
    let a: Seq<ValidationWarningView> = if passive && e.modifiers.contains(
        EventModifier::PreventDefault,
    ) {
        seq![ValidationWarningView::ConflictingPassivePreventDefault { event: e.event, span: e.span }]
    } else {
        Seq::empty()
    };
    let b: Seq<ValidationWarningView> = if passive && e.modifiers.contains(
        EventModifier::NonPassive,
    ) {
        seq![ValidationWarningView::ConflictingPassiveNonPassive { event: e.event, span: e.span }]
    } else {
        Seq::empty()
    };
    a + b
}

pub open spec fn conflict_warnings(events: Seq<IrEventHandlerView>) -> Seq<ValidationWarningView>
    decreases events.len(),
{
    if events.len() == 0 {
        Seq::empty()
    } else {
        conflict_warnings(events.drop_last()) + conflicts_of(events.last())
    }
}

// ---------------------------------------------------------------------------
// Slot attributes and component props
// ---------------------------------------------------------------------------

/// The index of the first attribute named `slot`.
pub open spec fn first_slot_attr(attrs: Seq<AttributeView>) -> Option<int> {
    first_named(attr_items(attrs), "slot"@)
}

/// Why a `slot` attribute value is invalid: absent, dynamic, or blank.
pub open spec fn slot_reason(v: Seq<TemplateNodeView>) -> Option<Seq<char>> {
    if v.len() == 0 {
        Some("slot attribute requires a value (e.g. slot=\"header\")"@)
    } else if v.len() > 1 {
        Some("slot attribute must be a static string, not a dynamic expression"@)
    } else {
        match v[0] {
            TemplateNodeView::Text(t) => if blank(t) {
                Some("slot attribute value must not be empty"@)
            } else {
                None
            },
            TemplateNodeView::Expr { .. } => Some(
                "slot attribute must be a static string, not a dynamic expression"@,
            ),
        }
    }
}

/// A warning when the first `slot` attribute is not a single, static, non-blank text.
pub open spec fn slot_attr_warnings(tag: Seq<char>, attrs: Seq<AttributeView>) -> Seq<
    ValidationWarningView,
> {
    match first_slot_attr(attrs) {
        None => Seq::empty(),
        Some(k) => match slot_reason(attrs[k].value) {
            None => Seq::empty(),
            Some(reason) => seq![
                ValidationWarningView::InvalidSlotAttribute { tag, reason, span: attrs[k].span },
            ],
        },
    }
}

/// Whether a value segment is empty: empty text, or a blank expression.
pub open spec fn empty_segment(n: TemplateNodeView) -> bool {
    match n {
        TemplateNodeView::Text(t) => t.len() == 0,
        TemplateNodeView::Expr { expr, .. } => blank(expr),
    }
}

/// A prop other than `slot` with a value whose segments are all empty.
pub open spec fn empty_prop(a: AttributeView) -> bool {
    a.name != "slot"@ && a.value.len() > 0 && forall|i: int|
        0 <= i < a.value.len() ==> empty_segment(#[trigger] a.value[i])
}

pub open spec fn empty_prop_warnings(component: Seq<char>, props: Seq<AttributeView>) -> Seq<
    ValidationWarningView,
>
    decreases props.len(),
{
    if props.len() == 0 {
        Seq::empty()
    } else {
        let p = props.last();
        let rest = empty_prop_warnings(component, props.drop_last());
        if empty_prop(p) {
            rest.push(
                ValidationWarningView::EmptyComponentProp { name: p.name, component, span: p.span },
            )
        } else {
            rest
        }
    }
}

/// One warning per `prefix`-kind directive on a component, in order.
pub open spec fn directive_warnings(
    prefix: Seq<char>,
    component: Seq<char>,
    ds: Seq<IrDirectiveView>,
) -> Seq<ValidationWarningView>
    decreases ds.len(),
{
    if ds.len() == 0 {
        Seq::empty()
    } else {
        let d = ds.last();
        directive_warnings(prefix, component, ds.drop_last()).push(
            ValidationWarningView::DirectiveOnComponent {
                directive: prefix + d.name,
                component,
                span: d.span,
            },
        )
    }
}

// ---------------------------------------------------------------------------
// Per-element warnings
// ---------------------------------------------------------------------------

/// The warnings of an element's own attributes and directives, in check order.
pub open spec fn element_warnings(e: IrElementView) -> Seq<ValidationWarningView> {
    dup_warnings(attr_items(e.attributes), DupKind::Attribute, e.tag) + dup_warnings(
        event_items(e.events),
        DupKind::Event,
        e.tag,
    ) + dup_warnings(dir_items(e.bindings), DupKind::Binding, e.tag) + dup_warnings(
        dir_items(e.class_toggles),
        DupKind::ClassToggle,
        e.tag,
    ) + dup_warnings(dir_items(e.style_props), DupKind::StyleProp, e.tag) + conflict_warnings(
        e.events,
    ) + blank_warnings(event_items(e.events), BlankKind::Handler) + blank_warnings(
        dir_items(e.style_props),
        BlankKind::StyleValue,
    ) + blank_warnings(dir_items(e.class_toggles), BlankKind::ClassCondition) + blank_warnings(
        dir_items(e.bindings),
        BlankKind::BindingExpression,
    ) + slot_attr_warnings(e.tag, e.attributes)
}

/// The warnings of a component's own props and directives, in check order.
pub open spec fn component_warnings(c: IrElementView) -> Seq<ValidationWarningView> {
    dup_warnings(attr_items(c.attributes), DupKind::Attribute, c.tag) + dup_warnings(
        event_items(c.events),
        DupKind::Event,
        c.tag,
    ) + dup_warnings(dir_items(c.bindings), DupKind::Binding, c.tag) + conflict_warnings(c.events)
        + blank_warnings(event_items(c.events), BlankKind::Handler) + blank_warnings(
        dir_items(c.bindings),
        BlankKind::BindingExpression,
    ) + empty_prop_warnings(c.tag, c.attributes) + directive_warnings(
        "class:"@,
        c.tag,
        c.class_toggles,
    ) + directive_warnings("style:"@, c.tag, c.style_props) + slot_attr_warnings(c.tag, c.attributes)
}

// ---------------------------------------------------------------------------
// The walk
// ---------------------------------------------------------------------------

/// The validation state: the warnings so far, the first default slot, and
/// the first span of each slot name seen (in order of first appearance).
pub struct VState {
    pub warnings: Seq<ValidationWarningView>,
    pub default_slot: Option<Span>,
    pub named_slots: Seq<ItemView>,
}

pub open spec fn add_warnings(st: VState, ws: Seq<ValidationWarningView>) -> VState {
    VState { warnings: st.warnings + ws, ..st }
}

/// A slot seen: a second default slot, or a second slot of a name, is a warning.
pub open spec fn slot_check(st: VState, name: Option<Seq<char>>, span: Span) -> VState {
    match name {
        None => match st.default_slot {
            Some(first) => add_warnings(
                st,
                seq![ValidationWarningView::MultipleDefaultSlots { first_span: first, dup_span: span }],
            ),
            None => VState { default_slot: Some(span), ..st },
        },
        Some(n) => match first_named(st.named_slots, n) {
            Some(k) => add_warnings(
                st,
                seq![
                    ValidationWarningView::DuplicateNamedSlot {
                        name: n,
                        first_span: st.named_slots[k].2,
                        dup_span: span,
                    },
                ],
            ),
            None => VState {
                named_slots: st.named_slots.push((n, Seq::<char>::empty(), span)),
                ..st
            },
        },
    }
}

pub open spec fn validate_node_spec(st: VState, n: IrNodeView) -> VState
    decreases n, 0nat,
{
    match n {
        IrNodeView::Element(e) => validate_nodes_spec(add_warnings(st, element_warnings(e)), e.children),
        IrNodeView::Component(c) => validate_nodes_spec(
            add_warnings(st, component_warnings(c)),
            c.children,
        ),
        IrNodeView::Expr(x) => if blank(x.expr) {
            add_warnings(st, seq![ValidationWarningView::EmptyExpression { span: x.span }])
        } else {
            st
        },
        IrNodeView::RawHtml(x) => if blank(x.expr) {
            add_warnings(st, seq![ValidationWarningView::EmptyExpression { span: x.span }])
        } else {
            st
        },
        IrNodeView::If { branches, .. } => validate_branches_spec(st, branches),
        IrNodeView::Each { children, .. } => validate_nodes_spec(st, children),
        IrNodeView::Slot { name, fallback, span } => validate_nodes_spec(
            slot_check(st, name, span),
            fallback,
        ),
        IrNodeView::Text(_) => st,
        IrNodeView::Const(_) => st,
        IrNodeView::Debug(_) => st,
    }
}

pub open spec fn validate_nodes_spec(st: VState, s: Seq<IrNodeView>) -> VState
    decreases s, 0nat,
{
    if s.len() == 0 {
        st
    } else {
        validate_node_spec(validate_nodes_spec(st, s.subrange(0, s.len() - 1)), s[s.len() - 1])
    }
}

pub open spec fn validate_branch_spec(st: VState, b: IrIfBranchView) -> VState
    decreases b, 0nat,
{
    validate_nodes_spec(st, b.children)
}

pub open spec fn validate_branches_spec(st: VState, bs: Seq<IrIfBranchView>) -> VState
    decreases bs, 0nat,
{
    if bs.len() == 0 {
        st
    } else {
        validate_branch_spec(validate_branches_spec(st, bs.subrange(0, bs.len() - 1)), bs[bs.len() - 1])
    }
}

/// The warnings of a compiled component: the template walked in order
/// (the head is not validated).
pub open spec fn validate_spec(c: CompiledComponentView) -> Seq<ValidationWarningView> {
    validate_nodes_spec(
        VState { warnings: Seq::empty(), default_slot: None, named_slots: Seq::empty() },
        c.template,
    ).warnings
}

// ---------------------------------------------------------------------------
// Executable checks
// ---------------------------------------------------------------------------

pub open spec fn warnings_view(v: Seq<ValidationWarning>) -> Seq<ValidationWarningView> {
    v.map_values(|w: ValidationWarning| w@)
}

/// Whether `s` is empty once trimmed.
fn is_blank(s: &str) -> (r: bool)
    ensures
        r == blank(s@),
{
    let cs = chars_of(s);
    let a = skip_space_exec(cs.as_slice(), 0);
    let b = skip_space_back_exec(cs.as_slice(), cs.len());
    proof {
        lemma_skip_space_bounds(cs@, 0);
        lemma_skip_space_back_bounds(cs@, cs@.len() as int);
    }
    a >= b
}

fn attr_item_vec(v: &Vec<IrAttribute>) -> (r: Vec<(String, String, Span)>)
    ensures
        items_view(r@) == attr_items(attrs_view(v@)),
{
    let mut out: Vec<(String, String, Span)> = Vec::new();
    let mut i: usize = 0;
    while i < v.len()
        invariant
            i <= v@.len(),
            out@.len() == i,
            forall|k: int|
                0 <= k < i ==> (#[trigger] out@[k]).0@ == v@[k].name@ && out@[k].1@ == Seq::<
                    char,
                >::empty() && out@[k].2 == v@[k].span,
        decreases v@.len() - i,
    {
        out.push((v[i].name.clone(), String::new(), v[i].span));
        i = i + 1;
    }
    assert(items_view(out@) =~= attr_items(attrs_view(v@)));
    out
}

fn event_item_vec(v: &Vec<IrEventHandler>) -> (r: Vec<(String, String, Span)>)
    ensures
        items_view(r@) == event_items(events_view(v@)),
{
    let mut out: Vec<(String, String, Span)> = Vec::new();
    let mut i: usize = 0;
    while i < v.len()
        invariant
            i <= v@.len(),
            out@.len() == i,
            forall|k: int|
                0 <= k < i ==> (#[trigger] out@[k]).0@ == v@[k].event@ && out@[k].1@
                    == v@[k].handler@ && out@[k].2 == v@[k].span,
        decreases v@.len() - i,
    {
        out.push((v[i].event.clone(), v[i].handler.clone(), v[i].span));
        i = i + 1;
    }
    assert(items_view(out@) =~= event_items(events_view(v@)));
    out
}

fn binding_item_vec(v: &Vec<IrBinding>) -> (r: Vec<(String, String, Span)>)
    ensures
        items_view(r@) == dir_items(bindings_view(v@)),
{
    let mut out: Vec<(String, String, Span)> = Vec::new();
    let mut i: usize = 0;
    while i < v.len()
        invariant
            i <= v@.len(),
            out@.len() == i,
            forall|k: int|
                0 <= k < i ==> (#[trigger] out@[k]).0@ == v@[k].property@ && out@[k].1@
                    == v@[k].expression@ && out@[k].2 == v@[k].span,
        decreases v@.len() - i,
    {
        out.push((v[i].property.clone(), v[i].expression.clone(), v[i].span));
        i = i + 1;
    }
    assert(items_view(out@) =~= dir_items(bindings_view(v@)));
    out
}

fn toggle_item_vec(v: &Vec<IrClassToggle>) -> (r: Vec<(String, String, Span)>)
    ensures
        items_view(r@) == dir_items(toggles_view(v@)),
{
    let mut out: Vec<(String, String, Span)> = Vec::new();
    let mut i: usize = 0;
    while i < v.len()
        invariant
            i <= v@.len(),
            out@.len() == i,
            forall|k: int|
                0 <= k < i ==> (#[trigger] out@[k]).0@ == v@[k].class@ && out@[k].1@
                    == v@[k].condition@ && out@[k].2 == v@[k].span,
        decreases v@.len() - i,
    {
        out.push((v[i].class.clone(), v[i].condition.clone(), v[i].span));
        i = i + 1;
    }
    assert(items_view(out@) =~= dir_items(toggles_view(v@)));
    out
}

fn style_item_vec(v: &Vec<IrStyleProp>) -> (r: Vec<(String, String, Span)>)
    ensures
        items_view(r@) == dir_items(style_props_view(v@)),
{
    let mut out: Vec<(String, String, Span)> = Vec::new();
    let mut i: usize = 0;
    while i < v.len()
        invariant
            i <= v@.len(),
            out@.len() == i,
            forall|k: int|
                0 <= k < i ==> (#[trigger] out@[k]).0@ == v@[k].property@ && out@[k].1@
                    == v@[k].value@ && out@[k].2 == v@[k].span,
        decreases v@.len() - i,
    {
        out.push((v[i].property.clone(), v[i].value.clone(), v[i].span));
        i = i + 1;
    }
    assert(items_view(out@) =~= dir_items(style_props_view(v@)));
    out
}

/// Once found in a prefix, the first item of a name stays the first in longer prefixes.
pub proof fn lemma_first_named_extend(items: Seq<ItemView>, name: Seq<char>, m: int, n: int)
    requires
        0 <= m <= n <= items.len(),
        first_named(items.take(m), name) is Some,
    ensures
        first_named(items.take(n), name) == first_named(items.take(m), name),
    decreases n - m,
{
    if m < n {
        lemma_first_named_extend(items, name, m, n - 1);
        assert(items.take(n).drop_last() =~= items.take(n - 1));
    }
}

/// A first index is a real index holding the name.
pub proof fn lemma_first_named_props(items: Seq<ItemView>, name: Seq<char>)
    ensures
        first_named(items, name) matches Some(k) ==> 0 <= k < items.len() && items[k].0 == name,
    decreases items.len(),
{
    if items.len() > 0 {
        lemma_first_named_props(items.drop_last(), name);
    }
}

/// The index of the first of `items[..upto]` named `name`.
fn first_named_exec(items: &Vec<(String, String, Span)>, upto: usize, name: &String) -> (r: Option<
    usize,
>)
    requires
        upto <= items@.len(),
    ensures
        match r {
            Some(k) => first_named(items_view(items@).take(upto as int), name@) == Some(k as int),
            None => first_named(items_view(items@).take(upto as int), name@) is None,
        },
{
    let ghost iv = items_view(items@);
    let mut j: usize = 0;
    proof {
        assert(iv.take(0) =~= Seq::<ItemView>::empty());
    }
    while j < upto
        invariant
            j <= upto <= items@.len(),
            iv == items_view(items@),
            first_named(iv.take(j as int), name@) is None,
        decreases upto - j,
    {
        proof {
            assert(iv.take(j + 1).drop_last() =~= iv.take(j as int));
            assert(iv.take(j + 1).last() == iv[j as int]);
        }
        if items[j].0 == *name {
            proof {
                lemma_first_named_extend(iv, name@, j + 1, upto as int);
            }
            return Some(j);
        }
        j = j + 1;
    }
    None
}

fn make_dup(kind: DupKind, tag: &String, name: &String, first_span: Span, dup_span: Span) -> (r:
    ValidationWarning)
    ensures
        r@ == dup_warning(kind, tag@, name@, first_span, dup_span),
{
    match kind {
        DupKind::Attribute => ValidationWarning::DuplicateAttribute {
            name: name.clone(),
            tag: tag.clone(),
            first_span,
            dup_span,
        },
        DupKind::Event => ValidationWarning::DuplicateEventHandler {
            event: name.clone(),
            tag: tag.clone(),
            first_span,
            dup_span,
        },
        DupKind::Binding => ValidationWarning::DuplicateBinding {
            property: name.clone(),
            tag: tag.clone(),
            first_span,
            dup_span,
        },
        DupKind::ClassToggle => ValidationWarning::DuplicateClassToggle {
            class: name.clone(),
            tag: tag.clone(),
            first_span,
            dup_span,
        },
        DupKind::StyleProp => ValidationWarning::DuplicateStyleProp {
            property: name.clone(),
            tag: tag.clone(),
            first_span,
            dup_span,
        },
    }
}

fn make_blank(kind: BlankKind, name: &String, span: Span) -> (r: ValidationWarning)
    ensures
        r@ == blank_warning(kind, name@, span),
{
    match kind {
        BlankKind::Handler => ValidationWarning::EmptyEventHandler { event: name.clone(), span },
        BlankKind::StyleValue => ValidationWarning::EmptyStylePropValue {
            property: name.clone(),
            span,
        },
        BlankKind::ClassCondition => ValidationWarning::EmptyClassToggleCondition {
            class: name.clone(),
            span,
        },
        BlankKind::BindingExpression => ValidationWarning::EmptyBindingExpression {
            property: name.clone(),
            span,
        },
    }
}

fn has_modifier(ms: &Vec<EventModifier>, m: EventModifier) -> (r: bool)
    ensures
        r == ms@.contains(m),
{
    let mut i: usize = 0;
    while i < ms.len()
        invariant
            i <= ms@.len(),
            forall|k: int| 0 <= k < i ==> ms@[k] != m,
        decreases ms@.len() - i,
    {
        if ms[i] == m {
            return true;
        }
        i = i + 1;
    }
    false
}

/// The walk's state: the warnings so far and the slots seen.
struct ValidationCtx {
    warnings: Vec<ValidationWarning>,
    default_slot: Option<Span>,
    named_slots: Vec<(String, String, Span)>,
}

impl ValidationCtx {
    spec fn state(&self) -> VState {
        VState {
            warnings: warnings_view(self.warnings@),
            default_slot: self.default_slot,
            named_slots: items_view(self.named_slots@),
        }
    }

    fn push(&mut self, w: ValidationWarning)
        ensures
            final(self).state() == add_warnings(old(self).state(), seq![w@]),
    {
        self.warnings.push(w);
        proof {
            assert(warnings_view(self.warnings@) =~= warnings_view(old(self).warnings@) + seq![w@]);
        }
    }

    fn check_duplicates(&mut self, items: &Vec<(String, String, Span)>, kind: DupKind, tag: &String)
        ensures
            final(self).state() == add_warnings(
                old(self).state(),
                dup_warnings(items_view(items@), kind, tag@),
            ),
    {
        let ghost iv = items_view(items@);
        let ghost w0 = self.state().warnings;
        let mut i: usize = 0;
        proof {
            assert(iv.take(0) =~= Seq::<ItemView>::empty());
            assert(w0 + Seq::<ValidationWarningView>::empty() =~= w0);
        }
        while i < items.len()
            invariant
                i <= items@.len(),
                iv == items_view(items@),
                iv.len() == items@.len(),
                self.state() == add_warnings(old(self).state(), dup_warnings(iv.take(i as int), kind, tag@)),
            decreases items@.len() - i,
        {
            proof {
                assert(iv.take(i + 1).drop_last() =~= iv.take(i as int));
                assert(iv.take(i + 1).last() == iv[i as int]);
            }
            let ghost before = self.state();
            match first_named_exec(items, i, &items[i].0) {
                Some(j) => {
                    proof {
                        lemma_first_named_props(iv.take(i as int), items@[i as int].0@);
                        assert(iv.take(i as int)[j as int] == iv[j as int]);
                    }
                    let w = make_dup(kind, tag, &items[i].0, items[j].2, items[i].2);
                    self.push(w);
                    proof {
                        let d = dup_warnings(iv.take(i as int), kind, tag@);
                        assert(old(self).state().warnings + d.push(w@) =~= (old(self).state().warnings
                            + d) + seq![w@]);
                    }
                },
                None => {},
            }
            i = i + 1;
        }
        proof {
            assert(iv.take(i as int) =~= iv);
        }
    }

    fn check_blanks(&mut self, items: &Vec<(String, String, Span)>, kind: BlankKind)
        ensures
            final(self).state() == add_warnings(
                old(self).state(),
                blank_warnings(items_view(items@), kind),
            ),
    {
        let ghost iv = items_view(items@);
        let mut i: usize = 0;
        proof {
            assert(iv.take(0) =~= Seq::<ItemView>::empty());
            assert(old(self).state().warnings + Seq::<ValidationWarningView>::empty()
                =~= old(self).state().warnings);
        }
        while i < items.len()
            invariant
                i <= items@.len(),
                iv == items_view(items@),
                iv.len() == items@.len(),
                self.state() == add_warnings(old(self).state(), blank_warnings(iv.take(i as int), kind)),
            decreases items@.len() - i,
        {
            proof {
                assert(iv.take(i + 1).drop_last() =~= iv.take(i as int));
                assert(iv.take(i + 1).last() == iv[i as int]);
            }
            if is_blank(items[i].1.as_str()) {
                let w = make_blank(kind, &items[i].0, items[i].2);
                self.push(w);
                proof {
                    let d = blank_warnings(iv.take(i as int), kind);
                    assert(old(self).state().warnings + d.push(w@) =~= (old(self).state().warnings + d)
                        + seq![w@]);
                }
            }
            i = i + 1;
        }
        proof {
            assert(iv.take(i as int) =~= iv);
        }
    }

    fn check_event_modifiers(&mut self, events: &Vec<IrEventHandler>)
        ensures
            final(self).state() == add_warnings(old(self).state(), conflict_warnings(events_view(events@))),
    {
        let ghost ev = events_view(events@);
        let mut i: usize = 0;
        proof {
            assert(ev.take(0) =~= Seq::<IrEventHandlerView>::empty());
            assert(old(self).state().warnings + Seq::<ValidationWarningView>::empty()
                =~= old(self).state().warnings);
        }
        while i < events.len()
            invariant
                i <= events@.len(),
                ev == events_view(events@),
                ev.len() == events@.len(),
                self.state() == add_warnings(old(self).state(), conflict_warnings(ev.take(i as int))),
            decreases events@.len() - i,
        {
            let e = &events[i];
            proof {
                assert(ev.take(i + 1).drop_last() =~= ev.take(i as int));
                assert(ev.take(i + 1).last() == e@);
            }
            let ghost w1 = self.state().warnings;
            let passive = has_modifier(&e.modifiers, EventModifier::Passive);
            let prevent = has_modifier(&e.modifiers, EventModifier::PreventDefault);
            let non_passive = has_modifier(&e.modifiers, EventModifier::NonPassive);
            if passive && prevent {
                self.push(
                    ValidationWarning::ConflictingPassivePreventDefault {
                        event: e.event.clone(),
                        span: e.span,
                    },
                );
            }
            let ghost w2 = self.state().warnings;
            if passive && non_passive {
                self.push(
                    ValidationWarning::ConflictingPassiveNonPassive { event: e.event.clone(), span: e.span },
                );
            }
            proof {
                let c = conflicts_of(e@);
                let a: Seq<ValidationWarningView> = if passive && prevent {
                    seq![ValidationWarningView::ConflictingPassivePreventDefault { event: e.event@, span: e.span }]
                } else {
                    Seq::empty()
                };
                let b: Seq<ValidationWarningView> = if passive && non_passive {
                    seq![ValidationWarningView::ConflictingPassiveNonPassive { event: e.event@, span: e.span }]
                } else {
                    Seq::empty()
                };
                assert(c == a + b);
                assert(w2 =~= w1 + a);
                assert(self.state().warnings =~= w1 + a + b);
                let d = conflict_warnings(ev.take(i as int));
                assert(old(self).state().warnings + (d + c) =~= w1 + a + b);
            }
            i = i + 1;
        }
        proof {
            assert(ev.take(i as int) =~= ev);
        }
    }

    fn check_slot_attribute(&mut self, tag: &String, attrs: &Vec<IrAttribute>)
        ensures
            final(self).state() == add_warnings(
                old(self).state(),
                slot_attr_warnings(tag@, attrs_view(attrs@)),
            ),
    {
        let items = attr_item_vec(attrs);
        let slot = string_from(chars_of("slot").as_slice());
        let ghost st0 = self.state();
        proof {
            assert(st0.warnings + Seq::<ValidationWarningView>::empty() =~= st0.warnings);
            assert(items_view(items@).take(items@.len() as int) =~= items_view(items@));
        }
        match first_named_exec(&items, items.len(), &slot) {
            None => {},
            Some(k) => {
                proof {
                    lemma_first_named_props(attr_items(attrs_view(attrs@)), "slot"@);
                }
                let a = &attrs[k];
                proof {
                    assert(attrs_view(attrs@)[k as int] == a@);
                }
                let n = a.value.len();
                let reason = if n == 0 {
                    Some(chars_of("slot attribute requires a value (e.g. slot=\"header\")"))
                } else if n > 1 {
                    Some(chars_of("slot attribute must be a static string, not a dynamic expression"))
                } else {
                    proof {
                        assert(tnodes_view(a.value@)[0] == a.value@[0]@);
                    }
                    match &a.value[0] {
                        TemplateNode::Text(t) => if is_blank(t.as_str()) {
                            Some(chars_of("slot attribute value must not be empty"))
                        } else {
                            None
                        },
                        TemplateNode::Expr { .. } => Some(
                            chars_of("slot attribute must be a static string, not a dynamic expression"),
                        ),
                    }
                };
                match reason {
                    None => {},
                    Some(r) => {
                        self.push(
                            ValidationWarning::InvalidSlotAttribute {
                                tag: tag.clone(),
                                reason: string_from(r.as_slice()),
                                span: a.span,
                            },
                        );
                    },
                }
            },
        }
    }

    fn check_empty_component_props(&mut self, comp: &IrComponentRef)
        ensures
            final(self).state() == add_warnings(
                old(self).state(),
                empty_prop_warnings(comp.name@, attrs_view(comp.props@)),
            ),
    {
        let ghost pv = attrs_view(comp.props@);
        let mut i: usize = 0;
        let slot = chars_of("slot");
        proof {
            assert(pv.take(0) =~= Seq::<AttributeView>::empty());
            assert(old(self).state().warnings + Seq::<ValidationWarningView>::empty()
                =~= old(self).state().warnings);
        }
        while i < comp.props.len()
            invariant
                i <= comp.props@.len(),
                pv == attrs_view(comp.props@),
                pv.len() == comp.props@.len(),
                slot@ == "slot"@,
                self.state() == add_warnings(
                    old(self).state(),
                    empty_prop_warnings(comp.name@, pv.take(i as int)),
                ),
            decreases comp.props@.len() - i,
        {
            let p = &comp.props[i];
            proof {
                assert(pv.take(i + 1).drop_last() =~= pv.take(i as int));
                assert(pv.take(i + 1).last() == p@);
            }
            let is_slot = chars_eq(chars_of(p.name.as_str()).as_slice(), slot.as_slice());
            let mut all_empty = true;
            let mut j: usize = 0;
            while j < p.value.len()
                invariant
                    j <= p.value@.len(),
                    all_empty == forall|k: int| 0 <= k < j ==> empty_segment(#[trigger] tnodes_view(p.value@)[k]),
                decreases p.value@.len() - j,
            {
                let seg_empty = match &p.value[j] {
                    TemplateNode::Text(t) => t.as_str().is_empty(),
                    TemplateNode::Expr { expr, .. } => is_blank(expr.as_str()),
                };
                proof {
                    assert(tnodes_view(p.value@)[j as int] == p.value@[j as int]@);
                    if !seg_empty {
                        assert(!empty_segment(tnodes_view(p.value@)[j as int]));
                    }
                }
                all_empty = all_empty && seg_empty;
                j = j + 1;
            }
            if !is_slot && p.value.len() > 0 && all_empty {
                self.push(
                    ValidationWarning::EmptyComponentProp {
                        name: p.name.clone(),
                        component: comp.name.clone(),
                        span: p.span,
                    },
                );
                proof {
                    let d = empty_prop_warnings(comp.name@, pv.take(i as int));
                    let w = ValidationWarningView::EmptyComponentProp {
                        name: p.name@,
                        component: comp.name@,
                        span: p.span,
                    };
                    assert(old(self).state().warnings + d.push(w) =~= (old(self).state().warnings + d)
                        + seq![w]);
                }
            }
            i = i + 1;
        }
        proof {
            assert(pv.take(i as int) =~= pv);
        }
    }

    fn check_directive_list(&mut self, prefix: &str, component: &String, items: &Vec<(String, String, Span)>)
        ensures
            final(self).state() == add_warnings(
                old(self).state(),
                directive_warnings(prefix@, component@, items_dirs(items_view(items@))),
            ),
    {
        let ghost dv = items_dirs(items_view(items@));
        let pre = chars_of(prefix);
        let mut i: usize = 0;
        proof {
            assert(dv.take(0) =~= Seq::<IrDirectiveView>::empty());
            assert(old(self).state().warnings + Seq::<ValidationWarningView>::empty()
                =~= old(self).state().warnings);
        }
        while i < items.len()
            invariant
                i <= items@.len(),
                dv == items_dirs(items_view(items@)),
                dv.len() == items@.len(),
                pre@ == prefix@,
                self.state() == add_warnings(
                    old(self).state(),
                    directive_warnings(prefix@, component@, dv.take(i as int)),
                ),
            decreases items@.len() - i,
        {
            proof {
                assert(dv.take(i + 1).drop_last() =~= dv.take(i as int));
                assert(dv.take(i + 1).last() == dv[i as int]);
            }
            let name = chars_of(items[i].0.as_str());
            let directive = string_from(concat_chars(pre.as_slice(), name.as_slice()).as_slice());
            let w = ValidationWarning::DirectiveOnComponent {
                directive,
                component: component.clone(),
                span: items[i].2,
            };
            self.push(w);
            proof {
                let d = directive_warnings(prefix@, component@, dv.take(i as int));
                assert(old(self).state().warnings + d.push(w@) =~= (old(self).state().warnings + d)
                    + seq![w@]);
            }
            i = i + 1;
        }
        proof {
            assert(dv.take(i as int) =~= dv);
        }
    }

    fn check_slot_duplicates(&mut self, name: &Option<String>, span: Span)
        ensures
            final(self).state() == slot_check(old(self).state(), opt_str(*name), span),
    {
        match name {
            None => {
                match self.default_slot {
                    Some(first_span) => {
                        self.push(ValidationWarning::MultipleDefaultSlots { first_span, dup_span: span });
                    },
                    None => {
                        self.default_slot = Some(span);
                    },
                }
            },
            Some(n) => {
                let ghost nv = items_view(self.named_slots@);
                proof {
                    assert(nv.take(nv.len() as int) =~= nv);
                }
                match first_named_exec(&self.named_slots, self.named_slots.len(), n) {
                    Some(k) => {
                        proof {
                            lemma_first_named_props(nv, n@);
                        }
                        let first_span = self.named_slots[k].2;
                        self.push(
                            ValidationWarning::DuplicateNamedSlot {
                                name: n.clone(),
                                first_span,
                                dup_span: span,
                            },
                        );
                    },
                    None => {
                        self.named_slots.push((n.clone(), String::new(), span));
                        proof {
                            assert(items_view(self.named_slots@) =~= nv.push(
                                (n@, Seq::<char>::empty(), span),
                            ));
                        }
                    },
                }
            },
        }
    }

    fn check_empty_expr(&mut self, expr: &String, span: Span)
        ensures
            final(self).state() == if blank(expr@) {
                add_warnings(old(self).state(), seq![ValidationWarningView::EmptyExpression { span }])
            } else {
                old(self).state()
            },
    {
        if is_blank(expr.as_str()) {
            self.push(ValidationWarning::EmptyExpression { span });
        }
    }
}

/// The directives of `(name, value, span)` items.
pub open spec fn items_dirs(v: Seq<ItemView>) -> Seq<IrDirectiveView> {
    v.map_values(|t: ItemView| IrDirectiveView { name: t.0, value: t.1, span: t.2 })
}

pub proof fn lemma_add_warnings_assoc(
    st: VState,
    a: Seq<ValidationWarningView>,
    b: Seq<ValidationWarningView>,
)
    ensures
        add_warnings(add_warnings(st, a), b) == add_warnings(st, a + b),
{
    assert((st.warnings + a) + b =~= st.warnings + (a + b));
}

impl ValidationCtx {
    fn validate_element(&mut self, el: &IrElement)
        ensures
            final(self).state() == validate_nodes_spec(
                add_warnings(old(self).state(), element_warnings(ir_element_view(*el))),
                ir_nodes_view(el.children@),
            ),
        decreases el, 2nat,
    {
        let ghost st0 = self.state();
        let ghost e = ir_element_view(*el);
        let tag = &el.tag;
        let attrs = attr_item_vec(&el.attributes);
        let events = event_item_vec(&el.events);
        let bindings = binding_item_vec(&el.bindings);
        let toggles = toggle_item_vec(&el.class_toggles);
        let styles = style_item_vec(&el.style_props);
        self.check_duplicates(&attrs, DupKind::Attribute, tag);
        let ghost a1 = dup_warnings(attr_items(e.attributes), DupKind::Attribute, e.tag);
        self.check_duplicates(&events, DupKind::Event, tag);
        let ghost p = dup_warnings(event_items(e.events), DupKind::Event, e.tag);
        proof { lemma_add_warnings_assoc(st0, a1, p); }
        let ghost a2 = a1 + p;
        self.check_duplicates(&bindings, DupKind::Binding, tag);
        let ghost p = dup_warnings(dir_items(e.bindings), DupKind::Binding, e.tag);
        proof { lemma_add_warnings_assoc(st0, a2, p); }
        let ghost a3 = a2 + p;
        self.check_duplicates(&toggles, DupKind::ClassToggle, tag);
        let ghost p = dup_warnings(dir_items(e.class_toggles), DupKind::ClassToggle, e.tag);
        proof { lemma_add_warnings_assoc(st0, a3, p); }
        let ghost a4 = a3 + p;
        self.check_duplicates(&styles, DupKind::StyleProp, tag);
        let ghost p = dup_warnings(dir_items(e.style_props), DupKind::StyleProp, e.tag);
        proof { lemma_add_warnings_assoc(st0, a4, p); }
        let ghost a5 = a4 + p;
        self.check_event_modifiers(&el.events);
        let ghost p = conflict_warnings(e.events);
        proof { lemma_add_warnings_assoc(st0, a5, p); }
        let ghost a6 = a5 + p;
        self.check_blanks(&events, BlankKind::Handler);
        let ghost p = blank_warnings(event_items(e.events), BlankKind::Handler);
        proof { lemma_add_warnings_assoc(st0, a6, p); }
        let ghost a7 = a6 + p;
        self.check_blanks(&styles, BlankKind::StyleValue);
        let ghost p = blank_warnings(dir_items(e.style_props), BlankKind::StyleValue);
        proof { lemma_add_warnings_assoc(st0, a7, p); }
        let ghost a8 = a7 + p;
        self.check_blanks(&toggles, BlankKind::ClassCondition);
        let ghost p = blank_warnings(dir_items(e.class_toggles), BlankKind::ClassCondition);
        proof { lemma_add_warnings_assoc(st0, a8, p); }
        let ghost a9 = a8 + p;
        self.check_blanks(&bindings, BlankKind::BindingExpression);
        let ghost p = blank_warnings(dir_items(e.bindings), BlankKind::BindingExpression);
        proof { lemma_add_warnings_assoc(st0, a9, p); }
        let ghost a10 = a9 + p;
        self.check_slot_attribute(tag, &el.attributes);
        let ghost p = slot_attr_warnings(e.tag, e.attributes);
        proof {
            lemma_add_warnings_assoc(st0, a10, p);
            assert(a10 + p == element_warnings(e));
        }
        self.validate_nodes(&el.children);
    }

    fn validate_component(&mut self, comp: &IrComponentRef)
        ensures
            final(self).state() == validate_nodes_spec(
                add_warnings(old(self).state(), component_warnings(ir_component_view(*comp))),
                ir_nodes_view(comp.children@),
            ),
        decreases comp, 2nat,
    {
        let ghost st0 = self.state();
        let ghost c = ir_component_view(*comp);
        let tag = &comp.name;
        let props = attr_item_vec(&comp.props);
        let events = event_item_vec(&comp.events);
        let bindings = binding_item_vec(&comp.bindings);
        let toggles = toggle_item_vec(&comp.class_toggles);
        let styles = style_item_vec(&comp.style_props);
        self.check_duplicates(&props, DupKind::Attribute, tag);
        let ghost a1 = dup_warnings(attr_items(c.attributes), DupKind::Attribute, c.tag);
        self.check_duplicates(&events, DupKind::Event, tag);
        let ghost p = dup_warnings(event_items(c.events), DupKind::Event, c.tag);
        proof { lemma_add_warnings_assoc(st0, a1, p); }
        let ghost a2 = a1 + p;
        self.check_duplicates(&bindings, DupKind::Binding, tag);
        let ghost p = dup_warnings(dir_items(c.bindings), DupKind::Binding, c.tag);
        proof { lemma_add_warnings_assoc(st0, a2, p); }
        let ghost a3 = a2 + p;
        self.check_event_modifiers(&comp.events);
        let ghost p = conflict_warnings(c.events);
        proof { lemma_add_warnings_assoc(st0, a3, p); }
        let ghost a4 = a3 + p;
        self.check_blanks(&events, BlankKind::Handler);
        let ghost p = blank_warnings(event_items(c.events), BlankKind::Handler);
        proof { lemma_add_warnings_assoc(st0, a4, p); }
        let ghost a5 = a4 + p;
        self.check_blanks(&bindings, BlankKind::BindingExpression);
        let ghost p = blank_warnings(dir_items(c.bindings), BlankKind::BindingExpression);
        proof { lemma_add_warnings_assoc(st0, a5, p); }
        let ghost a6 = a5 + p;
        self.check_empty_component_props(comp);
        let ghost p = empty_prop_warnings(c.tag, c.attributes);
        proof { lemma_add_warnings_assoc(st0, a6, p); }
        let ghost a7 = a6 + p;
        self.check_directive_list("class:", tag, &toggles);
        let ghost p = directive_warnings("class:"@, c.tag, c.class_toggles);
        proof {
            assert(items_dirs(items_view(toggles@)) =~= c.class_toggles);
            lemma_add_warnings_assoc(st0, a7, p);
        }
        let ghost a8 = a7 + p;
        self.check_directive_list("style:", tag, &styles);
        let ghost p = directive_warnings("style:"@, c.tag, c.style_props);
        proof {
            assert(items_dirs(items_view(styles@)) =~= c.style_props);
            lemma_add_warnings_assoc(st0, a8, p);
        }
        let ghost a9 = a8 + p;
        self.check_slot_attribute(tag, &comp.props);
        let ghost p = slot_attr_warnings(c.tag, c.attributes);
        proof {
            lemma_add_warnings_assoc(st0, a9, p);
            assert(a9 + p == component_warnings(c));
        }
        self.validate_nodes(&comp.children);
    }

    fn validate_nodes(&mut self, nodes: &Vec<IrNode>)
        ensures
            final(self).state() == validate_nodes_spec(old(self).state(), ir_nodes_view(nodes@)),
        decreases nodes, 1nat,
    {
        let ghost full = ir_nodes_view(nodes@);
        proof {
            lemma_ir_nodes_view_len(nodes@);
            assert(full.take(0) =~= Seq::<IrNodeView>::empty());
        }
        let mut i: usize = 0;
        while i < nodes.len()
            invariant
                i <= nodes@.len(),
                full == ir_nodes_view(nodes@),
                full.len() == nodes@.len(),
                self.state() == validate_nodes_spec(old(self).state(), full.take(i as int)),
            decreases nodes@.len() - i,
        {
            proof {
                lemma_ir_nodes_view_index(nodes@, i as int);
                assert(full.take(i + 1).subrange(0, i as int) =~= full.take(i as int));
                assert(full.take(i + 1)[i as int] == ir_node_view(nodes@[i as int]));
            }
            self.validate_node(&nodes[i]);
            i = i + 1;
        }
        proof {
            assert(full.take(i as int) =~= full);
        }
    }

    fn validate_branches(&mut self, branches: &Vec<IrIfBranch>)
        ensures
            final(self).state() == validate_branches_spec(old(self).state(), ir_branches_view(branches@)),
        decreases branches, 1nat,
    {
        let ghost full = ir_branches_view(branches@);
        proof {
            lemma_ir_branches_view_len(branches@);
            assert(full.take(0) =~= Seq::<IrIfBranchView>::empty());
        }
        let mut i: usize = 0;
        while i < branches.len()
            invariant
                i <= branches@.len(),
                full == ir_branches_view(branches@),
                full.len() == branches@.len(),
                self.state() == validate_branches_spec(old(self).state(), full.take(i as int)),
            decreases branches@.len() - i,
        {
            let b = &branches[i];
            proof {
                lemma_ir_branches_view_index(branches@, i as int);
                assert(full.take(i + 1).subrange(0, i as int) =~= full.take(i as int));
                assert(full.take(i + 1)[i as int] == ir_branch_view(*b));
                assert(ir_branch_view(*b).children == ir_nodes_view(b.children@));
            }
            let ghost before = self.state();
            self.validate_nodes(&b.children);
            proof {
                assert(validate_branch_spec(before, ir_branch_view(*b)) == validate_nodes_spec(
                    before,
                    ir_nodes_view(b.children@),
                ));
            }
            i = i + 1;
        }
        proof {
            assert(full.take(i as int) =~= full);
        }
    }

    fn validate_node(&mut self, node: &IrNode)
        ensures
            final(self).state() == validate_node_spec(old(self).state(), ir_node_view(*node)),
        decreases node, 3nat,
    {
        match node {
            IrNode::Element(el) => self.validate_element(el),
            IrNode::Component(comp) => self.validate_component(comp),
            IrNode::Expr(e) => self.check_empty_expr(&e.expr, e.span),
            IrNode::RawHtml(e) => self.check_empty_expr(&e.expr, e.span),
            IrNode::If(ib) => self.validate_branches(&ib.branches),
            IrNode::Each(each) => self.validate_nodes(&each.children),
            IrNode::Slot(slot) => {
                self.check_slot_duplicates(&slot.name, slot.span);
                self.validate_nodes(&slot.fallback);
            },
            IrNode::Text(_) => {},
            IrNode::Const(_) => {},
            IrNode::Debug(_) => {},
        }
    }
}

// ---------------------------------------------------------------------------
// Validation reaches every tag of the tree
// ---------------------------------------------------------------------------

/// The own warnings of every tag nested in `n`, `n` itself included, in
/// document order: an element gives its element warnings, a component its
/// component warnings. Children, `{#if}` branches, `{#each}` bodies and slot
/// fallback content are all walked.
pub open spec fn tag_checks(n: IrNodeView) -> Seq<Seq<ValidationWarningView>>
    decreases n, 0nat,
{
    match n {
        IrNodeView::Element(e) => seq![element_warnings(e)] + tag_checks_of(e.children),
        IrNodeView::Component(c) => seq![component_warnings(c)] + tag_checks_of(c.children),
        IrNodeView::If { branches, .. } => tag_checks_of_branches(branches),
        IrNodeView::Each { children, .. } => tag_checks_of(children),
        IrNodeView::Slot { fallback, .. } => tag_checks_of(fallback),
        _ => Seq::empty(),
    }
}

pub open spec fn tag_checks_of(s: Seq<IrNodeView>) -> Seq<Seq<ValidationWarningView>>
    decreases s, 0nat,
{
    if s.len() == 0 {
        Seq::empty()
    } else {
        tag_checks_of(s.subrange(0, s.len() - 1)) + tag_checks(s[s.len() - 1])
    }
}

pub open spec fn tag_checks_of_branch(b: IrIfBranchView) -> Seq<Seq<ValidationWarningView>>
    decreases b, 0nat,
{
    tag_checks_of(b.children)
}

pub open spec fn tag_checks_of_branches(bs: Seq<IrIfBranchView>) -> Seq<
    Seq<ValidationWarningView>,
>
    decreases bs, 0nat,
{
    if bs.len() == 0 {
        Seq::empty()
    } else {
        tag_checks_of_branches(bs.subrange(0, bs.len() - 1)) + tag_checks_of_branch(
            bs[bs.len() - 1],
        )
    }
}

/// Whether `part` occurs in `ws` as a contiguous run.
pub open spec fn holds_run(ws: Seq<ValidationWarningView>, part: Seq<ValidationWarningView>) -> bool {
    exists|i: int, j: int| 0 <= i <= j <= ws.len() && #[trigger] ws.subrange(i, j) == part
}

/// Whether every list of `parts` occurs in `ws` as a contiguous run.
pub open spec fn holds_runs(
    ws: Seq<ValidationWarningView>,
    parts: Seq<Seq<ValidationWarningView>>,
) -> bool {
    forall|k: int| 0 <= k < parts.len() ==> holds_run(ws, #[trigger] parts[k])
}

proof fn lemma_runs_extend(
    ws: Seq<ValidationWarningView>,
    ws2: Seq<ValidationWarningView>,
    parts: Seq<Seq<ValidationWarningView>>,
)
    requires
        holds_runs(ws, parts),
        ws.is_prefix_of(ws2),
    ensures
        holds_runs(ws2, parts),
{
    assert forall|k: int| 0 <= k < parts.len() implies holds_run(ws2, #[trigger] parts[k]) by {
        assert(holds_run(ws, parts[k]));
        let (i, j) = choose|i: int, j: int|
            0 <= i <= j <= ws.len() && #[trigger] ws.subrange(i, j) == parts[k];
        assert(ws2.subrange(i, j) =~= ws.subrange(i, j));
    }
}

proof fn lemma_runs_concat(
    ws: Seq<ValidationWarningView>,
    a: Seq<Seq<ValidationWarningView>>,
    b: Seq<Seq<ValidationWarningView>>,
)
    requires
        holds_runs(ws, a),
        holds_runs(ws, b),
    ensures
        holds_runs(ws, a + b),
{
    assert forall|k: int| 0 <= k < (a + b).len() implies holds_run(ws, #[trigger] (a + b)[k]) by {
        if k < a.len() {
            assert((a + b)[k] == a[k]);
        } else {
            assert((a + b)[k] == b[k - a.len()]);
        }
    }
}

proof fn lemma_add_warnings_run(st: VState, ws: Seq<ValidationWarningView>)
    ensures
        st.warnings.is_prefix_of(add_warnings(st, ws).warnings),
        holds_run(add_warnings(st, ws).warnings, ws),
{
    let all = add_warnings(st, ws).warnings;
    assert(all.subrange(0, st.warnings.len() as int) =~= st.warnings);
    assert(all.subrange(st.warnings.len() as int, all.len() as int) =~= ws);
}

proof fn lemma_prefix_trans(
    a: Seq<ValidationWarningView>,
    b: Seq<ValidationWarningView>,
    c: Seq<ValidationWarningView>,
)
    requires
        a.is_prefix_of(b),
        b.is_prefix_of(c),
    ensures
        a.is_prefix_of(c),
{
    assert(c.subrange(0, a.len() as int) =~= b.subrange(0, a.len() as int));
}

proof fn lemma_own_check_reached(st: VState, ws: Seq<ValidationWarningView>, children: Seq<IrNodeView>)
    ensures
        st.warnings.is_prefix_of(validate_nodes_spec(add_warnings(st, ws), children).warnings),
        holds_runs(
            validate_nodes_spec(add_warnings(st, ws), children).warnings,
            seq![ws] + tag_checks_of(children),
        ),
    decreases children, 1nat,
{
    let st1 = add_warnings(st, ws);
    let fin = validate_nodes_spec(st1, children).warnings;
    lemma_add_warnings_run(st, ws);
    lemma_validate_nodes_reaches(st1, children);
    lemma_prefix_trans(st.warnings, st1.warnings, fin);
    assert(holds_runs(st1.warnings, seq![ws])) by {
        assert forall|k: int| 0 <= k < seq![ws].len() implies holds_run(
            st1.warnings,
            #[trigger] seq![ws][k],
        ) by {}
    }
    lemma_runs_extend(st1.warnings, fin, seq![ws]);
    lemma_runs_concat(fin, seq![ws], tag_checks_of(children));
}

/// Validating a node keeps the warnings found before it, and its warnings
/// hold the own warnings of every tag nested in it (see `tag_checks`).
pub proof fn lemma_validate_node_reaches(st: VState, n: IrNodeView)
    ensures
        st.warnings.is_prefix_of(validate_node_spec(st, n).warnings),
        holds_runs(validate_node_spec(st, n).warnings, tag_checks(n)),
    decreases n, 2nat,
{
    let fin = validate_node_spec(st, n).warnings;
    match n {
        IrNodeView::Element(e) => {
            lemma_own_check_reached(st, element_warnings(e), e.children);
        },
        IrNodeView::Component(c) => {
            lemma_own_check_reached(st, component_warnings(c), c.children);
        },
        IrNodeView::If { branches, .. } => {
            lemma_validate_branches_reaches(st, branches);
        },
        IrNodeView::Each { children, .. } => {
            lemma_validate_nodes_reaches(st, children);
        },
        IrNodeView::Slot { name, fallback, span } => {
            let st1 = slot_check(st, name, span);
            assert(st.warnings.is_prefix_of(st1.warnings)) by {
                assert(st1.warnings.subrange(0, st.warnings.len() as int) =~= st.warnings);
            }
            lemma_validate_nodes_reaches(st1, fallback);
            lemma_prefix_trans(st.warnings, st1.warnings, fin);
        },
        IrNodeView::Expr(_) => {
            assert(fin.subrange(0, st.warnings.len() as int) =~= st.warnings);
        },
        IrNodeView::RawHtml(_) => {
            assert(fin.subrange(0, st.warnings.len() as int) =~= st.warnings);
        },
        _ => {
            assert(fin.subrange(0, st.warnings.len() as int) =~= st.warnings);
        },
    }
}

/// Validating a list of nodes keeps the warnings found before it, and its
/// warnings hold the own warnings of every tag nested in any of the nodes.
pub proof fn lemma_validate_nodes_reaches(st: VState, s: Seq<IrNodeView>)
    ensures
        st.warnings.is_prefix_of(validate_nodes_spec(st, s).warnings),
        holds_runs(validate_nodes_spec(st, s).warnings, tag_checks_of(s)),
    decreases s, 0nat,
{
    if s.len() == 0 {
        assert(st.warnings.subrange(0, st.warnings.len() as int) =~= st.warnings);
    } else {
        let pre = s.subrange(0, s.len() - 1);
        let st1 = validate_nodes_spec(st, pre);
        let fin = validate_nodes_spec(st, s).warnings;
        lemma_validate_nodes_reaches(st, pre);
        lemma_validate_node_reaches(st1, s[s.len() - 1]);
        lemma_prefix_trans(st.warnings, st1.warnings, fin);
        lemma_runs_extend(st1.warnings, fin, tag_checks_of(pre));
        lemma_runs_concat(fin, tag_checks_of(pre), tag_checks(s[s.len() - 1]));
    }
}

/// Validating `{#if}` branches keeps the warnings found before them, and
/// their warnings hold the own warnings of every tag nested in any branch.
pub proof fn lemma_validate_branches_reaches(st: VState, bs: Seq<IrIfBranchView>)
    ensures
        st.warnings.is_prefix_of(validate_branches_spec(st, bs).warnings),
        holds_runs(validate_branches_spec(st, bs).warnings, tag_checks_of_branches(bs)),
    decreases bs, 0nat,
{
    if bs.len() == 0 {
        assert(st.warnings.subrange(0, st.warnings.len() as int) =~= st.warnings);
    } else {
        let pre = bs.subrange(0, bs.len() - 1);
        let b = bs[bs.len() - 1];
        let st1 = validate_branches_spec(st, pre);
        let fin = validate_branches_spec(st, bs).warnings;
        lemma_validate_branches_reaches(st, pre);
        lemma_validate_nodes_reaches(st1, b.children);
        assert(validate_branch_spec(st1, b) == validate_nodes_spec(st1, b.children));
        assert(tag_checks_of_branch(b) == tag_checks_of(b.children));
        lemma_prefix_trans(st.warnings, st1.warnings, fin);
        lemma_runs_extend(st1.warnings, fin, tag_checks_of_branches(pre));
        lemma_runs_concat(fin, tag_checks_of_branches(pre), tag_checks_of_branch(b));
    }
}

/// Law: validation reaches every tag of the template. For each element
/// nested anywhere in it (below other elements, components, `{#if}`
/// branches, `{#each}` bodies or slot fallback content), the warnings of a
/// component hold that element's own warnings as a contiguous run, and
/// likewise each nested component's own warnings.
pub proof fn lemma_validate_reaches_every_tag(c: CompiledComponentView)
    ensures
        holds_runs(validate_spec(c), tag_checks_of(c.template)),
{
    lemma_validate_nodes_reaches(
        VState { warnings: Seq::empty(), default_slot: None, named_slots: Seq::empty() },
        c.template,
    );
}


/// Validate a compiled component and return all warnings (empty when no
/// problem was detected). Only the body template is walked.
pub fn validate(component: &CompiledComponent) -> (r: Vec<ValidationWarning>)
    ensures
        warnings_view(r@) == validate_spec(component@),
{
    let mut ctx = ValidationCtx { warnings: Vec::new(), default_slot: None, named_slots: Vec::new() };
    proof {
        assert(warnings_view(ctx.warnings@) =~= Seq::<ValidationWarningView>::empty());
        assert(items_view(ctx.named_slots@) =~= Seq::<ItemView>::empty());
        assert(ctx.state() == VState {
            warnings: Seq::empty(),
            default_slot: None,
            named_slots: Seq::empty(),
        });
    }
    ctx.validate_nodes(&component.template);
    ctx.warnings
}

} // verus!

verus! {

/// The set of names of `items`.
pub open spec fn item_names(items: Seq<ItemView>) -> Set<Seq<char>>
    decreases items.len(),
{
    if items.len() == 0 {
        Set::empty()
    } else {
        item_names(items.drop_last()).insert(items.last().0)
    }
}

proof fn lemma_first_named_some(items: Seq<ItemView>, name: Seq<char>)
    ensures
        first_named(items, name) is Some <==> item_names(items).contains(name),
        item_names(items).finite(),
        item_names(items).len() <= items.len(),
    decreases items.len(),
{
    if items.len() > 0 {
        lemma_first_named_some(items.drop_last(), name);
        let pre = items.drop_last();
        lemma_first_named_some(pre, items.last().0);
    }
}

/// Law: one duplicate warning per repeated name: the warnings of `items`
/// are as many as the items less the number of distinct names.
pub proof fn lemma_dup_warning_count(items: Seq<ItemView>, kind: DupKind, tag: Seq<char>)
    ensures
        item_names(items).finite(),
        dup_warnings(items, kind, tag).len() == items.len() - item_names(items).len(),
    decreases items.len(),
{
    lemma_first_named_some(items, Seq::empty());
    if items.len() > 0 {
        let pre = items.drop_last();
        lemma_dup_warning_count(pre, kind, tag);
        lemma_first_named_some(pre, items.last().0);
    }
}

} // verus!

verus! {

/// The items whose value is blank.
pub open spec fn blank_items(items: Seq<ItemView>) -> Seq<ItemView> {
    items.filter(|it: ItemView| blank(it.1))
}

/// Law: one empty-value warning per empty expression, handler, binding or
/// style value: the warnings are those of the items with a blank value, in
/// order, each naming its item and pointing at its span.
pub proof fn lemma_blank_warnings_filter(items: Seq<ItemView>, kind: BlankKind)
    ensures
        blank_warnings(items, kind) == (blank_items(items).map_values(
            |it: ItemView| blank_warning(kind, it.0, it.2),
        )),
    decreases items.len(),
{
    reveal(Seq::filter);
    if items.len() > 0 {
        lemma_blank_warnings_filter(items.drop_last(), kind);
        let f = |it: ItemView| blank_warning(kind, it.0, it.2);
        let pre = blank_items(items.drop_last());
        assert(blank_items(items) == if blank(items.last().1) {
            pre.push(items.last())
        } else {
            pre
        });
        if blank(items.last().1) {
            assert(pre.push(items.last()).map_values(f) =~= pre.map_values(f).push(f(items.last())));
        }
    } else {
        assert(blank_items(items) =~= Seq::<ItemView>::empty());
        assert(blank_warnings(items, kind) =~= blank_items(items).map_values(
            |it: ItemView| blank_warning(kind, it.0, it.2),
        ));
    }
}

/// Whether a value is a single, non-blank, static text.
pub open spec fn static_text_value(v: Seq<TemplateNodeView>) -> bool {
    &&& v.len() == 1
    &&& v[0] matches TemplateNodeView::Text(t) && !blank(t)
}

/// Law: at most one slot-attribute warning per node, given exactly when
/// its first `slot` attribute's value is not a single, non-blank, static
/// text; it points at that attribute.
pub proof fn lemma_slot_attr_warning(tag: Seq<char>, attrs: Seq<AttributeView>)
    ensures
        slot_attr_warnings(tag, attrs).len() <= 1,
        slot_attr_warnings(tag, attrs).len() == 1 <==> (first_slot_attr(attrs) is Some
            && !static_text_value(attrs[first_slot_attr(attrs)->0].value)),
        slot_attr_warnings(tag, attrs).len() == 1 ==> slot_attr_warnings(tag, attrs)[0]
            == (ValidationWarningView::InvalidSlotAttribute {
            tag,
            reason: slot_reason(attrs[first_slot_attr(attrs)->0].value)->0,
            span: attrs[first_slot_attr(attrs)->0].span,
        }),
{
}

} // verus!
