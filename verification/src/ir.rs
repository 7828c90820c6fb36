//! The lowered intermediate representation of a `.trs` component, with views.

use vstd::prelude::*;
use crate::types::{AttributeView, Span, TemplateNode, opt_str, tnodes_view};

verus! {

/// A compiled `.trs` component ready for downstream code generation.
#[derive(Debug, PartialEq)]
pub struct CompiledComponent {
    /// The `<script setup>` block (always Rust), if present.
    pub setup: Option<SetupBlock>,
    /// The client-side `<script lang="...">` block, if present.
    pub client_script: Option<ClientScript>,
    /// Processed style blocks in source order.
    pub styles: Vec<ProcessedStyle>,
    /// Template IR nodes in source order.
    pub template: Vec<IrNode>,
    /// Nodes from `<thebe:head>` blocks, rendered into `<head>`.
    pub head: Vec<IrNode>,
}

/// The `<script setup>` block content.
#[derive(Debug, Clone, PartialEq)]
pub struct SetupBlock {
    /// Raw Rust source code.
    pub content: String,
    /// Byte-offset span of the entire block.
    pub span: Span,
}

/// A client-side `<script lang="...">` block.
#[derive(Debug, Clone, PartialEq)]
pub struct ClientScript {
    /// Raw script content.
    pub content: String,
    /// The `lang` attribute value (e.g. `"js"`, `"ts"`).
    pub lang: String,
    /// Byte-offset span of the entire block.
    pub span: Span,
}

/// A processed `<style>` block.
#[derive(Debug, Clone, PartialEq)]
pub struct ProcessedStyle {
    /// Raw CSS/preprocessor content.
    pub content: String,
    /// Whether this style block has the `scoped` attribute.
    pub scoped: bool,
    /// Deterministic identifier for scoped style isolation (`None` when not scoped).
    pub scope_id: Option<String>,
    /// The `lang` attribute value (e.g. `"scss"`).
    pub lang: Option<String>,
    /// Byte-offset span of the entire block.
    pub span: Span,
}

/// A node in the lowered template tree.
#[derive(Debug, PartialEq)]
pub enum IrNode {
    /// An HTML element with typed directives.
    Element(IrElement),
    /// Raw text between tags.
    Text(String),
    /// An interpolated expression `{{ expr }}`.
    Expr(IrExpr),
    /// A conditional block.
    If(IrIf),
    /// An iteration block.
    Each(IrEach),
    /// A component reference (tag starting with uppercase).
    Component(IrComponentRef),
    /// A `<slot>` element for composition.
    Slot(IrSlot),
    /// A raw HTML injection `{@html expr}`.
    RawHtml(IrExpr),
    /// A local constant binding `{@const name = expr}`.
    Const(IrConst),
    /// A debug tag `{@debug expr}`.
    Debug(IrExpr),
}

/// A lowered HTML element with directives split into typed fields.
#[derive(Debug, PartialEq)]
pub struct IrElement {
    /// The tag name, e.g. `"div"`.
    pub tag: String,
    /// Static and dynamic attributes.
    pub attributes: Vec<IrAttribute>,
    /// Event handlers (`on:click`, ...).
    pub events: Vec<IrEventHandler>,
    /// Two-way bindings (`bind:value`, ...).
    pub bindings: Vec<IrBinding>,
    /// Conditional CSS classes (`class:active`, ...).
    pub class_toggles: Vec<IrClassToggle>,
    /// Inline style properties (`style:color`, ...).
    pub style_props: Vec<IrStyleProp>,
    /// Action hooks (`use:tooltip`, ...).
    pub actions: Vec<IrAction>,
    /// Child IR nodes.
    pub children: Vec<IrNode>,
    /// Whether this element is self-closing.
    pub self_closing: bool,
    /// Byte-offset span of the entire element.
    pub span: Span,
}

/// A lowered component reference.
#[derive(Debug, PartialEq)]
pub struct IrComponentRef {
    /// The component name (uppercase tag), e.g. `"Button"`.
    pub name: String,
    /// Props passed as attributes.
    pub props: Vec<IrAttribute>,
    /// Event handlers on the component.
    pub events: Vec<IrEventHandler>,
    /// Two-way bindings on the component.
    pub bindings: Vec<IrBinding>,
    /// `class:` toggles on the component tag, kept so that validation can warn about them.
    pub class_toggles: Vec<IrClassToggle>,
    /// `style:` properties on the component tag, kept so that validation can warn about them.
    pub style_props: Vec<IrStyleProp>,
    /// Action hooks on the component.
    pub actions: Vec<IrAction>,
    /// Default slot children.
    pub children: Vec<IrNode>,
    /// Whether the component tag is self-closing.
    pub self_closing: bool,
    /// Byte-offset span.
    pub span: Span,
}

/// An attribute on an element or component.
#[derive(Debug, Clone, PartialEq)]
pub struct IrAttribute {
    /// Attribute name.
    pub name: String,
    /// Parsed value segments (static text and `{{ expr }}` expressions).
    pub value: Vec<TemplateNode>,
    /// Byte-offset span of the `name="value"` pair.
    pub span: Span,
}

/// An interpolated expression in template text.
#[derive(Debug, Clone, PartialEq)]
pub struct IrExpr {
    /// The trimmed expression text.
    pub expr: String,
    /// Byte-offset span of the `{{ ... }}`.
    pub span: Span,
}

/// A local constant binding from `{@const name = expr}`.
#[derive(Debug, Clone, PartialEq)]
pub struct IrConst {
    /// The variable name.
    pub name: String,
    /// The initializer expression.
    pub expr: String,
    /// Byte-offset span.
    pub span: Span,
}

/// An event handler decomposed from an `on:event` directive.
#[derive(Debug, Clone, PartialEq)]
pub struct IrEventHandler {
    /// The DOM event name (e.g. `"click"`).
    pub event: String,
    /// The handler expression.
    pub handler: String,
    /// Typed, validated modifiers.
    pub modifiers: Vec<EventModifier>,
    /// Byte-offset span of the directive.
    pub span: Span,
}

/// A validated event modifier.
#[derive(Debug, Clone, Copy, PartialEq, Eq, Structural)]
pub enum EventModifier {
    /// `event.preventDefault()`
    PreventDefault,
    /// `event.stopPropagation()`
    StopPropagation,
    /// Fire the handler at most once.
    Once,
    /// Use capture phase instead of bubble.
    Capture,
    /// Only fire when `event.target === element`.
    Self_,
    /// Only fire for `event.isTrusted`.
    Trusted,
    /// Mark the listener as passive.
    Passive,
    /// Explicitly mark the listener as non-passive.
    NonPassive,
}

/// A two-way binding from a `bind:prop` directive.
#[derive(Debug, Clone, PartialEq)]
pub struct IrBinding {
    /// The property being bound (e.g. `"value"`).
    pub property: String,
    /// The expression to bind to.
    pub expression: String,
    /// Byte-offset span of the directive.
    pub span: Span,
}

/// A conditional CSS class from a `class:name` directive.
#[derive(Debug, Clone, PartialEq)]
pub struct IrClassToggle {
    /// The CSS class name (e.g. `"active"`).
    pub class: String,
    /// The condition expression.
    pub condition: String,
    /// Byte-offset span of the directive.
    pub span: Span,
}

/// An inline style property from a `style:prop` directive.
#[derive(Debug, Clone, PartialEq)]
pub struct IrStyleProp {
    /// The CSS property name (e.g. `"color"`).
    pub property: String,
    /// The value expression.
    pub value: String,
    /// Byte-offset span of the directive.
    pub span: Span,
}

/// An action hook from a `use:action` directive.
#[derive(Debug, Clone, PartialEq)]
pub struct IrAction {
    /// The action name (e.g. `"tooltip"`).
    pub name: String,
    /// The argument expression (may be empty).
    pub argument: String,
    /// Byte-offset span of the directive.
    pub span: Span,
}

/// A lowered conditional block.
#[derive(Debug, PartialEq)]
pub struct IrIf {
    /// Branches in order: `{#if}`, `{:else if}`..., optional `{:else}`.
    pub branches: Vec<IrIfBranch>,
    /// Byte-offset span of the entire block.
    pub span: Span,
}

/// A single branch in an `{#if}` chain.
#[derive(Debug, PartialEq)]
pub struct IrIfBranch {
    /// The condition expression (`None` for `{:else}`).
    pub condition: Option<String>,
    /// Child IR nodes.
    pub children: Vec<IrNode>,
    /// Byte-offset span of this branch's body.
    pub span: Span,
}

/// A lowered iteration block.
#[derive(Debug, PartialEq)]
pub struct IrEach {
    /// The iterable expression.
    pub iterable: String,
    /// The loop variable binding.
    pub binding: String,
    /// Optional index variable.
    pub index: Option<String>,
    /// Child IR nodes inside the loop body.
    pub children: Vec<IrNode>,
    /// Byte-offset span of the entire block.
    pub span: Span,
}

/// A lowered `<slot>` element.
#[derive(Debug, PartialEq)]
pub struct IrSlot {
    /// The slot name (`None` for the default slot).
    pub name: Option<String>,
    /// Fallback content rendered when the slot is not filled.
    pub fallback: Vec<IrNode>,
    /// Byte-offset span.
    pub span: Span,
}

// ---------------------------------------------------------------------------
// Views
// ---------------------------------------------------------------------------

pub struct IrExprView {
    pub expr: Seq<char>,
    pub span: Span,
}

pub struct IrConstView {
    pub name: Seq<char>,
    pub expr: Seq<char>,
    pub span: Span,
}

pub struct IrEventHandlerView {
    pub event: Seq<char>,
    pub handler: Seq<char>,
    pub modifiers: Seq<EventModifier>,
    pub span: Span,
}

/// The view shared by bindings, class toggles, style properties and actions:
/// the directive's argument, its value expression and its span.
pub struct IrDirectiveView {
    pub name: Seq<char>,
    pub value: Seq<char>,
    pub span: Span,
}

pub struct IrElementView {
    pub tag: Seq<char>,
    pub attributes: Seq<AttributeView>,
    pub events: Seq<IrEventHandlerView>,
    pub bindings: Seq<IrDirectiveView>,
    pub class_toggles: Seq<IrDirectiveView>,
    pub style_props: Seq<IrDirectiveView>,
    pub actions: Seq<IrDirectiveView>,
    pub children: Seq<IrNodeView>,
    pub self_closing: bool,
    pub span: Span,
}

pub struct IrIfBranchView {
    pub condition: Option<Seq<char>>,
    pub children: Seq<IrNodeView>,
    pub span: Span,
}

pub enum IrNodeView {
    Element(IrElementView),
    Text(Seq<char>),
    Expr(IrExprView),
    If { branches: Seq<IrIfBranchView>, span: Span },
    Each {
        iterable: Seq<char>,
        binding: Seq<char>,
        index: Option<Seq<char>>,
        children: Seq<IrNodeView>,
        span: Span,
    },
    Component(IrElementView),
    Slot { name: Option<Seq<char>>, fallback: Seq<IrNodeView>, span: Span },
    RawHtml(IrExprView),
    Const(IrConstView),
    Debug(IrExprView),
}

impl View for IrAttribute {
    type V = AttributeView;

    open spec fn view(&self) -> AttributeView {
        AttributeView { name: self.name@, value: tnodes_view(self.value@), span: self.span }
    }
}

impl View for IrExpr {
    type V = IrExprView;

    open spec fn view(&self) -> IrExprView {
        IrExprView { expr: self.expr@, span: self.span }
    }
}

impl View for IrConst {
    type V = IrConstView;

    open spec fn view(&self) -> IrConstView {
        IrConstView { name: self.name@, expr: self.expr@, span: self.span }
    }
}

impl View for IrEventHandler {
    type V = IrEventHandlerView;

    open spec fn view(&self) -> IrEventHandlerView {
        IrEventHandlerView {
            event: self.event@,
            handler: self.handler@,
            modifiers: self.modifiers@,
            span: self.span,
        }
    }
}

impl View for IrBinding {
    type V = IrDirectiveView;

    open spec fn view(&self) -> IrDirectiveView {
        IrDirectiveView { name: self.property@, value: self.expression@, span: self.span }
    }
}

impl View for IrClassToggle {
    type V = IrDirectiveView;

    open spec fn view(&self) -> IrDirectiveView {
        IrDirectiveView { name: self.class@, value: self.condition@, span: self.span }
    }
}

impl View for IrStyleProp {
    type V = IrDirectiveView;

    open spec fn view(&self) -> IrDirectiveView {
        IrDirectiveView { name: self.property@, value: self.value@, span: self.span }
    }
}

impl View for IrAction {
    type V = IrDirectiveView;

    open spec fn view(&self) -> IrDirectiveView {
        IrDirectiveView { name: self.name@, value: self.argument@, span: self.span }
    }
}

pub open spec fn attrs_view(v: Seq<IrAttribute>) -> Seq<AttributeView> {
    v.map_values(|a: IrAttribute| a@)
}

pub open spec fn events_view(v: Seq<IrEventHandler>) -> Seq<IrEventHandlerView> {
    v.map_values(|e: IrEventHandler| e@)
}

pub open spec fn bindings_view(v: Seq<IrBinding>) -> Seq<IrDirectiveView> {
    v.map_values(|e: IrBinding| e@)
}

pub open spec fn toggles_view(v: Seq<IrClassToggle>) -> Seq<IrDirectiveView> {
    v.map_values(|e: IrClassToggle| e@)
}

pub open spec fn style_props_view(v: Seq<IrStyleProp>) -> Seq<IrDirectiveView> {
    v.map_values(|e: IrStyleProp| e@)
}

pub open spec fn actions_view(v: Seq<IrAction>) -> Seq<IrDirectiveView> {
    v.map_values(|e: IrAction| e@)
}

pub open spec fn ir_element_view(e: IrElement) -> IrElementView
    decreases e, 0nat,
{
    IrElementView {
        tag: e.tag@,
        attributes: attrs_view(e.attributes@),
        events: events_view(e.events@),
        bindings: bindings_view(e.bindings@),
        class_toggles: toggles_view(e.class_toggles@),
        style_props: style_props_view(e.style_props@),
        actions: actions_view(e.actions@),
        children: ir_nodes_view(e.children@),
        self_closing: e.self_closing,
        span: e.span,
    }
}

pub open spec fn ir_component_view(c: IrComponentRef) -> IrElementView
    decreases c, 0nat,
{
    IrElementView {
        tag: c.name@,
        attributes: attrs_view(c.props@),
        events: events_view(c.events@),
        bindings: bindings_view(c.bindings@),
        class_toggles: toggles_view(c.class_toggles@),
        style_props: style_props_view(c.style_props@),
        actions: actions_view(c.actions@),
        children: ir_nodes_view(c.children@),
        self_closing: c.self_closing,
        span: c.span,
    }
}

pub open spec fn ir_branch_view(b: IrIfBranch) -> IrIfBranchView
    decreases b, 0nat,
{
    IrIfBranchView {
        condition: opt_str(b.condition),
        children: ir_nodes_view(b.children@),
        span: b.span,
    }
}

pub open spec fn ir_branches_view(s: Seq<IrIfBranch>) -> Seq<IrIfBranchView>
    decreases s, 0nat,
{
    if s.len() == 0 {
        Seq::empty()
    } else {
        ir_branches_view(s.subrange(0, s.len() - 1)).push(ir_branch_view(s[s.len() - 1]))
    }
}

pub open spec fn ir_node_view(n: IrNode) -> IrNodeView
    decreases n, 0nat,
{
    match n {
        IrNode::Element(e) => IrNodeView::Element(ir_element_view(e)),
        IrNode::Text(t) => IrNodeView::Text(t@),
        IrNode::Expr(e) => IrNodeView::Expr(e@),
        IrNode::If(i) => IrNodeView::If { branches: ir_branches_view(i.branches@), span: i.span },
        IrNode::Each(e) => IrNodeView::Each {
            iterable: e.iterable@,
            binding: e.binding@,
            index: opt_str(e.index),
            children: ir_nodes_view(e.children@),
            span: e.span,
        },
        IrNode::Component(c) => IrNodeView::Component(ir_component_view(c)),
        IrNode::Slot(s) => IrNodeView::Slot {
            name: opt_str(s.name),
            fallback: ir_nodes_view(s.fallback@),
            span: s.span,
        },
        IrNode::RawHtml(e) => IrNodeView::RawHtml(e@),
        IrNode::Const(c) => IrNodeView::Const(c@),
        IrNode::Debug(e) => IrNodeView::Debug(e@),
    }
}

pub open spec fn ir_nodes_view(s: Seq<IrNode>) -> Seq<IrNodeView>
    decreases s, 0nat,
{
    if s.len() == 0 {
        Seq::empty()
    } else {
        ir_nodes_view(s.subrange(0, s.len() - 1)).push(ir_node_view(s[s.len() - 1]))
    }
}

impl View for IrNode {
    type V = IrNodeView;

    open spec fn view(&self) -> IrNodeView {
        ir_node_view(*self)
    }
}

pub proof fn lemma_ir_nodes_view_push(s: Seq<IrNode>, x: IrNode)
    ensures
        ir_nodes_view(s.push(x)) == ir_nodes_view(s).push(ir_node_view(x)),
{
    assert(s.push(x).subrange(0, s.len() as int) =~= s);
}

pub proof fn lemma_ir_nodes_view_len(s: Seq<IrNode>)
    ensures
        ir_nodes_view(s).len() == s.len(),
    decreases s.len(),
{
    if s.len() > 0 {
        lemma_ir_nodes_view_len(s.subrange(0, s.len() - 1));
    }
}

pub proof fn lemma_ir_nodes_view_index(s: Seq<IrNode>, i: int)
    requires
        0 <= i < s.len(),
    ensures
        ir_nodes_view(s)[i] == ir_node_view(s[i]),
        ir_nodes_view(s).len() == s.len(),
    decreases s.len(),
{
    lemma_ir_nodes_view_len(s);
    if i < s.len() - 1 {
        lemma_ir_nodes_view_index(s.subrange(0, s.len() - 1), i);
    }
}

pub proof fn lemma_ir_branches_view_len(s: Seq<IrIfBranch>)
    ensures
        ir_branches_view(s).len() == s.len(),
    decreases s.len(),
{
    if s.len() > 0 {
        lemma_ir_branches_view_len(s.subrange(0, s.len() - 1));
    }
}

pub proof fn lemma_ir_branches_view_index(s: Seq<IrIfBranch>, i: int)
    requires
        0 <= i < s.len(),
    ensures
        ir_branches_view(s)[i] == ir_branch_view(s[i]),
        ir_branches_view(s).len() == s.len(),
    decreases s.len(),
{
    lemma_ir_branches_view_len(s);
    if i < s.len() - 1 {
        lemma_ir_branches_view_index(s.subrange(0, s.len() - 1), i);
    }
}

pub proof fn lemma_ir_branches_view_push(s: Seq<IrIfBranch>, x: IrIfBranch)
    ensures
        ir_branches_view(s.push(x)) == ir_branches_view(s).push(ir_branch_view(x)),
{
    assert(s.push(x).subrange(0, s.len() as int) =~= s);
}

pub open spec fn opt_setup_view(o: Option<SetupBlock>) -> Option<IrExprView> {
    match o {
        Some(s) => Some(IrExprView { expr: s.content@, span: s.span }),
        None => None,
    }
}

pub struct ClientScriptView {
    pub content: Seq<char>,
    pub lang: Seq<char>,
    pub span: Span,
}

pub open spec fn opt_client_view(o: Option<ClientScript>) -> Option<ClientScriptView> {
    match o {
        Some(s) => Some(ClientScriptView { content: s.content@, lang: s.lang@, span: s.span }),
        None => None,
    }
}

pub struct ProcessedStyleView {
    pub content: Seq<char>,
    pub scoped: bool,
    pub scope_id: Option<Seq<char>>,
    pub lang: Option<Seq<char>>,
    pub span: Span,
}

impl View for ProcessedStyle {
    type V = ProcessedStyleView;

    open spec fn view(&self) -> ProcessedStyleView {
        ProcessedStyleView {
            content: self.content@,
            scoped: self.scoped,
            scope_id: opt_str(self.scope_id),
            lang: opt_str(self.lang),
            span: self.span,
        }
    }
}

pub struct CompiledComponentView {
    pub setup: Option<IrExprView>,
    pub client_script: Option<ClientScriptView>,
    pub styles: Seq<ProcessedStyleView>,
    pub template: Seq<IrNodeView>,
    pub head: Seq<IrNodeView>,
}

impl View for CompiledComponent {
    type V = CompiledComponentView;

    open spec fn view(&self) -> CompiledComponentView {
        CompiledComponentView {
            setup: opt_setup_view(self.setup),
            client_script: opt_client_view(self.client_script),
            styles: self.styles@.map_values(|s: ProcessedStyle| s@),
            template: ir_nodes_view(self.template@),
            head: ir_nodes_view(self.head@),
        }
    }
}

} // verus!
