//! AST types for `.trs` files, with their mathematical views.

use vstd::prelude::*;

verus! {

/// A byte-offset span within the source input.
///
/// Both `start` and `end` are byte offsets (0-based). `end` is exclusive,
/// so the spanned text is `&input[span.start..span.end]`.
#[derive(Debug, Clone, Copy, PartialEq, Eq, Structural)]
pub struct Span {
    /// Start byte offset (inclusive).
    pub start: usize,
    /// End byte offset (exclusive).
    pub end: usize,
}

/// Spans built from mathematical offsets (used by the specifications).
pub open spec fn mk_span(start: int, end: int) -> Span {
    Span { start: start as usize, end: end as usize }
}

/// A script block (`<script>` or `<script setup>`), with optional `lang` attribute.
///
/// `<script setup>` is always Rust: its `lang` is always `None`.
#[derive(Debug, Clone, PartialEq)]
pub struct ScriptBlock {
    /// Raw content of the script block (trimmed).
    pub content: String,
    /// The `lang` attribute value, e.g. `"ts"` for `<script lang="ts">`.
    pub lang: Option<String>,
    /// Span of the entire block (from `<` of the opening tag to `>` of the closing tag).
    pub span: Span,
}

/// A style block (`<style>` or `<style scoped>`), with optional `lang` attribute.
#[derive(Debug, Clone, PartialEq)]
pub struct StyleBlock {
    /// Raw content of the style block (trimmed).
    pub content: String,
    /// Whether this style block has the `scoped` attribute.
    pub scoped: bool,
    /// The `lang` attribute value, e.g. `"scss"`.
    pub lang: Option<String>,
    /// Span of the entire block.
    pub span: Span,
}

/// A single node within a template fragment: static text or a `{{ expr }}`.
#[derive(Debug, Clone, PartialEq)]
pub enum TemplateNode {
    /// Raw text/HTML emitted as-is.
    Text(String),
    /// An expression inside `{{ expr }}`, trimmed.
    Expr {
        /// The trimmed expression text.
        expr: String,
        /// Span of the `{{ ... }}`.
        span: Span,
    },
}

/// A template fragment split on `{{ ... }}` interpolations.
#[derive(Debug, Clone, PartialEq)]
pub struct TemplateFragment {
    /// The text and expression nodes in source order.
    pub nodes: Vec<TemplateNode>,
}

/// A branch of an `{#if}` / `{:else if}` / `{:else}` chain.
#[derive(Debug, PartialEq)]
pub struct IfBranch {
    /// The condition expression. `None` for the `{:else}` branch.
    pub condition: Option<String>,
    /// Child nodes inside this branch.
    pub children: Vec<HtmlNode>,
    /// Span of this branch's body.
    pub span: Span,
}

/// A node in the parsed template HTML tree.
#[derive(Debug, PartialEq)]
pub enum HtmlNode {
    /// An HTML-like element.
    Element(Element),
    /// Raw text between tags.
    Text(String),
    /// An interpolated expression `{{ expr }}`.
    Expr { expr: String, span: Span },
    /// A conditional block `{#if cond}...{:else if cond}...{:else}...{/if}`.
    If { branches: Vec<IfBranch>, span: Span },
    /// An iteration block `{#each iterable as binding, index}...{/each}`.
    Each {
        iterable: String,
        binding: String,
        index: Option<String>,
        children: Vec<HtmlNode>,
        span: Span,
    },
    /// A component reference: an element whose tag starts with an uppercase letter.
    Component(Element),
    /// A `<slot>` element; `name` is `None` for the default slot.
    Slot { name: Option<String>, children: Vec<HtmlNode>, span: Span },
    /// A raw HTML injection `{@html expr}`.
    RawHtml { expr: String, span: Span },
    /// A local constant binding `{@const name = expr}`.
    Const { name: String, expr: String, span: Span },
    /// A debug tag `{@debug expr}`.
    Debug { expr: String, span: Span },
    /// A `<thebe:head>` block.
    Head { children: Vec<HtmlNode>, span: Span },
}

/// An HTML-like element in the template tree.
#[derive(Debug, PartialEq)]
pub struct Element {
    /// The tag name, e.g. `"div"`.
    pub tag: String,
    /// Static and dynamic attributes.
    pub attributes: Vec<Attribute>,
    /// Directives such as `on:click="handler"`.
    pub directives: Vec<Directive>,
    /// Child nodes.
    pub children: Vec<HtmlNode>,
    /// Whether this element is self-closing (`<img />`, `<br>`).
    pub self_closing: bool,
    /// Span of the entire element.
    pub span: Span,
}

/// An attribute on an element; its value is split on `{{ }}` interpolations.
#[derive(Debug, Clone, PartialEq)]
pub struct Attribute {
    /// Attribute name.
    pub name: String,
    /// The parsed value segments. Empty for a boolean attribute.
    pub value: Vec<TemplateNode>,
    /// Span of the entire `name="value"` pair.
    pub span: Span,
}

/// The kind of a directive.
#[derive(Debug, Clone, Copy, PartialEq, Eq, Structural)]
pub enum DirectiveKind {
    /// `on:event`
    On,
    /// `bind:prop`
    Bind,
    /// `class:name`
    Class,
    /// `style:prop`
    Style,
    /// `use:action`
    Use,
}

/// A directive on an element (e.g. `on:click="handler"`).
#[derive(Debug, Clone, PartialEq)]
pub struct Directive {
    /// The directive kind.
    pub kind: DirectiveKind,
    /// The directive argument (e.g. `"click"` in `on:click`).
    pub name: String,
    /// Modifiers (`on:click|preventDefault`); always empty for non-`On` directives.
    pub modifiers: Vec<String>,
    /// The directive value (empty when written without `="..."`).
    pub value: String,
    /// Span of the entire directive.
    pub span: Span,
}

/// The parsed AST of a `.trs` file.
#[derive(Debug, Clone, PartialEq)]
pub struct ThebeAst {
    /// The `<script setup>` block, if present.
    pub script_setup: Option<ScriptBlock>,
    /// The `<script>` block, if present.
    pub script: Option<ScriptBlock>,
    /// Style blocks in source order.
    pub styles: Vec<StyleBlock>,
    /// Template fragments in source order.
    pub template: Vec<TemplateFragment>,
}

/// Errors that can occur when parsing a `.trs` file.
#[derive(Debug, Clone, PartialEq)]
pub enum ParseError {
    /// The input is empty or whitespace-only.
    EmptyInput,
    /// A second `<script setup>` block; the span points to it.
    DuplicateScriptSetup { span: Span },
    /// A second `<script>` block; the span points to it.
    DuplicateScript { span: Span },
    /// A `<script>` tag inside template content.
    NestedScript { span: Span },
    /// A `lang` attribute on `<script setup>`.
    InvalidSetupLang { span: Span },
    /// A `<script>` block without `lang`.
    MissingScriptLang { span: Span },
    /// `{{` without a matching `}}`; the span points to the `{{`.
    UnclosedInterpolation { span: Span },
    /// A tag that is not properly closed or is malformed.
    MalformedTag { detail: String, span: Span },
    /// An `{#if}` without `{/if}`.
    UnclosedIfBlock { span: Span },
    /// An `{#each}` without `{/each}`.
    UnclosedEachBlock { span: Span },
    /// An `{#each ...}` expression that is not `iterable as binding[, index]`.
    InvalidEachExpression { detail: String, span: Span },
    /// An `{@html}` block without its closing `}`.
    UnclosedRawHtml { span: Span },
    /// An `{@const}` block without its closing `}`.
    UnclosedConst { span: Span },
    /// An `{@const}` block without `=`.
    InvalidConstExpression { detail: String, span: Span },
    /// An `{@debug}` block without its closing `}`.
    UnclosedDebug { span: Span },
    /// An unsupported attribute or directive on `<slot>`.
    InvalidSlotAttribute { detail: String, span: Span },
    /// A `<thebe:head>` nested inside another element.
    NestedHead { span: Span },
}

// ---------------------------------------------------------------------------
// Views
// ---------------------------------------------------------------------------

pub open spec fn opt_str(o: Option<String>) -> Option<Seq<char>> {
    match o {
        Some(s) => Some(s@),
        None => None,
    }
}

pub struct ScriptBlockView {
    pub content: Seq<char>,
    pub lang: Option<Seq<char>>,
    pub span: Span,
}

pub struct StyleBlockView {
    pub content: Seq<char>,
    pub scoped: bool,
    pub lang: Option<Seq<char>>,
    pub span: Span,
}

pub enum TemplateNodeView {
    Text(Seq<char>),
    Expr { expr: Seq<char>, span: Span },
}

pub struct ThebeAstView {
    pub script_setup: Option<ScriptBlockView>,
    pub script: Option<ScriptBlockView>,
    pub styles: Seq<StyleBlockView>,
    pub template: Seq<Seq<TemplateNodeView>>,
}

pub struct AttributeView {
    pub name: Seq<char>,
    pub value: Seq<TemplateNodeView>,
    pub span: Span,
}

pub struct DirectiveView {
    pub kind: DirectiveKind,
    pub name: Seq<char>,
    pub modifiers: Seq<Seq<char>>,
    pub value: Seq<char>,
    pub span: Span,
}

pub struct ElementView {
    pub tag: Seq<char>,
    pub attributes: Seq<AttributeView>,
    pub directives: Seq<DirectiveView>,
    pub children: Seq<HtmlNodeView>,
    pub self_closing: bool,
    pub span: Span,
}

pub struct IfBranchView {
    pub condition: Option<Seq<char>>,
    pub children: Seq<HtmlNodeView>,
    pub span: Span,
}

pub enum HtmlNodeView {
    Element(ElementView),
    Text(Seq<char>),
    Expr { expr: Seq<char>, span: Span },
    If { branches: Seq<IfBranchView>, span: Span },
    Each {
        iterable: Seq<char>,
        binding: Seq<char>,
        index: Option<Seq<char>>,
        children: Seq<HtmlNodeView>,
        span: Span,
    },
    Component(ElementView),
    Slot { name: Option<Seq<char>>, children: Seq<HtmlNodeView>, span: Span },
    RawHtml { expr: Seq<char>, span: Span },
    Const { name: Seq<char>, expr: Seq<char>, span: Span },
    Debug { expr: Seq<char>, span: Span },
    Head { children: Seq<HtmlNodeView>, span: Span },
}

pub enum ParseErrorView {
    EmptyInput,
    DuplicateScriptSetup { span: Span },
    DuplicateScript { span: Span },
    NestedScript { span: Span },
    InvalidSetupLang { span: Span },
    MissingScriptLang { span: Span },
    UnclosedInterpolation { span: Span },
    MalformedTag { detail: Seq<char>, span: Span },
    UnclosedIfBlock { span: Span },
    UnclosedEachBlock { span: Span },
    InvalidEachExpression { detail: Seq<char>, span: Span },
    UnclosedRawHtml { span: Span },
    UnclosedConst { span: Span },
    InvalidConstExpression { detail: Seq<char>, span: Span },
    UnclosedDebug { span: Span },
    InvalidSlotAttribute { detail: Seq<char>, span: Span },
    NestedHead { span: Span },
}

impl View for ScriptBlock {
    type V = ScriptBlockView;

    open spec fn view(&self) -> ScriptBlockView {
        ScriptBlockView { content: self.content@, lang: opt_str(self.lang), span: self.span }
    }
}

impl View for StyleBlock {
    type V = StyleBlockView;

    open spec fn view(&self) -> StyleBlockView {
        StyleBlockView {
            content: self.content@,
            scoped: self.scoped,
            lang: opt_str(self.lang),
            span: self.span,
        }
    }
}

impl View for TemplateNode {
    type V = TemplateNodeView;

    open spec fn view(&self) -> TemplateNodeView {
        match self {
            TemplateNode::Text(t) => TemplateNodeView::Text(t@),
            TemplateNode::Expr { expr, span } => TemplateNodeView::Expr { expr: expr@, span: *span },
        }
    }
}

pub open spec fn tnodes_view(v: Seq<TemplateNode>) -> Seq<TemplateNodeView> {
    v.map_values(|n: TemplateNode| n@)
}

impl View for TemplateFragment {
    type V = Seq<TemplateNodeView>;

    open spec fn view(&self) -> Seq<TemplateNodeView> {
        tnodes_view(self.nodes@)
    }
}

pub open spec fn opt_script_view(o: Option<ScriptBlock>) -> Option<ScriptBlockView> {
    match o {
        Some(s) => Some(s@),
        None => None,
    }
}

impl View for ThebeAst {
    type V = ThebeAstView;

    open spec fn view(&self) -> ThebeAstView {
        ThebeAstView {
            script_setup: opt_script_view(self.script_setup),
            script: opt_script_view(self.script),
            styles: self.styles@.map_values(|s: StyleBlock| s@),
            template: self.template@.map_values(|f: TemplateFragment| f@),
        }
    }
}

impl View for Attribute {
    type V = AttributeView;

    open spec fn view(&self) -> AttributeView {
        AttributeView { name: self.name@, value: tnodes_view(self.value@), span: self.span }
    }
}

impl View for Directive {
    type V = DirectiveView;

    open spec fn view(&self) -> DirectiveView {
        DirectiveView {
            kind: self.kind,
            name: self.name@,
            modifiers: self.modifiers@.map_values(|m: String| m@),
            value: self.value@,
            span: self.span,
        }
    }
}

pub open spec fn element_view(e: Element) -> ElementView
    decreases e, 0nat,
{
    ElementView {
        tag: e.tag@,
        attributes: e.attributes@.map_values(|a: Attribute| a@),
        directives: e.directives@.map_values(|d: Directive| d@),
        children: nodes_view(e.children@),
        self_closing: e.self_closing,
        span: e.span,
    }
}

pub open spec fn branch_view(b: IfBranch) -> IfBranchView
    decreases b, 0nat,
{
    IfBranchView {
        condition: opt_str(b.condition),
        children: nodes_view(b.children@),
        span: b.span,
    }
}

pub open spec fn branches_view(s: Seq<IfBranch>) -> Seq<IfBranchView>
    decreases s, 0nat,
{
    if s.len() == 0 {
        Seq::empty()
    } else {
        branches_view(s.subrange(0, s.len() - 1)).push(branch_view(s[s.len() - 1]))
    }
}

pub open spec fn node_view(n: HtmlNode) -> HtmlNodeView
    decreases n, 0nat,
{
    match n {
        HtmlNode::Element(e) => HtmlNodeView::Element(element_view(e)),
        HtmlNode::Text(t) => HtmlNodeView::Text(t@),
        HtmlNode::Expr { expr, span } => HtmlNodeView::Expr { expr: expr@, span },
        HtmlNode::If { branches, span } => HtmlNodeView::If {
            branches: branches_view(branches@),
            span,
        },
        HtmlNode::Each { iterable, binding, index, children, span } => HtmlNodeView::Each {
            iterable: iterable@,
            binding: binding@,
            index: opt_str(index),
            children: nodes_view(children@),
            span,
        },
        HtmlNode::Component(e) => HtmlNodeView::Component(element_view(e)),
        HtmlNode::Slot { name, children, span } => HtmlNodeView::Slot {
            name: opt_str(name),
            children: nodes_view(children@),
            span,
        },
        HtmlNode::RawHtml { expr, span } => HtmlNodeView::RawHtml { expr: expr@, span },
        HtmlNode::Const { name, expr, span } => HtmlNodeView::Const {
            name: name@,
            expr: expr@,
            span,
        },
        HtmlNode::Debug { expr, span } => HtmlNodeView::Debug { expr: expr@, span },
        HtmlNode::Head { children, span } => HtmlNodeView::Head {
            children: nodes_view(children@),
            span,
        },
    }
}

pub open spec fn nodes_view(s: Seq<HtmlNode>) -> Seq<HtmlNodeView>
    decreases s, 0nat,
{
    if s.len() == 0 {
        Seq::empty()
    } else {
        nodes_view(s.subrange(0, s.len() - 1)).push(node_view(s[s.len() - 1]))
    }
}

impl View for Element {
    type V = ElementView;

    open spec fn view(&self) -> ElementView {
        element_view(*self)
    }
}

impl View for IfBranch {
    type V = IfBranchView;

    open spec fn view(&self) -> IfBranchView {
        branch_view(*self)
    }
}

impl View for HtmlNode {
    type V = HtmlNodeView;

    open spec fn view(&self) -> HtmlNodeView {
        node_view(*self)
    }
}

impl View for ParseError {
    type V = ParseErrorView;

    open spec fn view(&self) -> ParseErrorView {
        match self {
            ParseError::EmptyInput => ParseErrorView::EmptyInput,
            ParseError::DuplicateScriptSetup { span } => ParseErrorView::DuplicateScriptSetup {
                span: *span,
            },
            ParseError::DuplicateScript { span } => ParseErrorView::DuplicateScript { span: *span },
            ParseError::NestedScript { span } => ParseErrorView::NestedScript { span: *span },
            ParseError::InvalidSetupLang { span } => ParseErrorView::InvalidSetupLang {
                span: *span,
            },
            ParseError::MissingScriptLang { span } => ParseErrorView::MissingScriptLang {
                span: *span,
            },
            ParseError::UnclosedInterpolation { span } => ParseErrorView::UnclosedInterpolation {
                span: *span,
            },
            ParseError::MalformedTag { detail, span } => ParseErrorView::MalformedTag {
                detail: detail@,
                span: *span,
            },
            ParseError::UnclosedIfBlock { span } => ParseErrorView::UnclosedIfBlock { span: *span },
            ParseError::UnclosedEachBlock { span } => ParseErrorView::UnclosedEachBlock {
                span: *span,
            },
            ParseError::InvalidEachExpression { detail, span } =>
                ParseErrorView::InvalidEachExpression { detail: detail@, span: *span },
            ParseError::UnclosedRawHtml { span } => ParseErrorView::UnclosedRawHtml { span: *span },
            ParseError::UnclosedConst { span } => ParseErrorView::UnclosedConst { span: *span },
            ParseError::InvalidConstExpression { detail, span } =>
                ParseErrorView::InvalidConstExpression { detail: detail@, span: *span },
            ParseError::UnclosedDebug { span } => ParseErrorView::UnclosedDebug { span: *span },
            ParseError::InvalidSlotAttribute { detail, span } =>
                ParseErrorView::InvalidSlotAttribute { detail: detail@, span: *span },
            ParseError::NestedHead { span } => ParseErrorView::NestedHead { span: *span },
        }
    }
}

pub proof fn lemma_nodes_view_push(s: Seq<HtmlNode>, x: HtmlNode)
    ensures
        nodes_view(s.push(x)) == nodes_view(s).push(node_view(x)),
        nodes_view(s.push(x)).len() == s.len() + 1,
{
    assert(s.push(x).subrange(0, s.len() as int) =~= s);
    lemma_nodes_view_len(s);
}

pub proof fn lemma_nodes_view_len(s: Seq<HtmlNode>)
    ensures
        nodes_view(s).len() == s.len(),
    decreases s.len(),
{
    if s.len() > 0 {
        lemma_nodes_view_len(s.subrange(0, s.len() - 1));
    }
}

pub proof fn lemma_nodes_view_index(s: Seq<HtmlNode>, i: int)
    requires
        0 <= i < s.len(),
    ensures
        nodes_view(s)[i] == node_view(s[i]),
        nodes_view(s).len() == s.len(),
    decreases s.len(),
{
    lemma_nodes_view_len(s);
    if i < s.len() - 1 {
        lemma_nodes_view_index(s.subrange(0, s.len() - 1), i);
    }
}

pub proof fn lemma_branches_view_push(s: Seq<IfBranch>, x: IfBranch)
    ensures
        branches_view(s.push(x)) == branches_view(s).push(branch_view(x)),
{
    assert(s.push(x).subrange(0, s.len() as int) =~= s);
}

pub proof fn lemma_branches_view_len(s: Seq<IfBranch>)
    ensures
        branches_view(s).len() == s.len(),
    decreases s.len(),
{
    if s.len() > 0 {
        lemma_branches_view_len(s.subrange(0, s.len() - 1));
    }
}

pub proof fn lemma_branches_view_index(s: Seq<IfBranch>, i: int)
    requires
        0 <= i < s.len(),
    ensures
        branches_view(s)[i] == branch_view(s[i]),
        branches_view(s).len() == s.len(),
    decreases s.len(),
{
    lemma_branches_view_len(s);
    if i < s.len() - 1 {
        lemma_branches_view_index(s.subrange(0, s.len() - 1), i);
    }
}

// ---------------------------------------------------------------------------
// Operations
// ---------------------------------------------------------------------------

impl Span {
    /// Create a new span.
    pub fn new(start: usize, end: usize) -> (r: Self)
        ensures
            r == (Span { start, end }),
    {
        Span { start, end }
    }
}

impl ParseError {
    /// The span of the error, if it has one.
    pub open spec fn span_of(e: ParseErrorView) -> Option<Span> {
        match e {
            ParseErrorView::EmptyInput => None,
            ParseErrorView::DuplicateScriptSetup { span } => Some(span),
            ParseErrorView::DuplicateScript { span } => Some(span),
            ParseErrorView::NestedScript { span } => Some(span),
            ParseErrorView::InvalidSetupLang { span } => Some(span),
            ParseErrorView::MissingScriptLang { span } => Some(span),
            ParseErrorView::UnclosedInterpolation { span } => Some(span),
            ParseErrorView::MalformedTag { span, .. } => Some(span),
            ParseErrorView::UnclosedIfBlock { span } => Some(span),
            ParseErrorView::UnclosedEachBlock { span } => Some(span),
            ParseErrorView::InvalidEachExpression { span, .. } => Some(span),
            ParseErrorView::UnclosedRawHtml { span } => Some(span),
            ParseErrorView::UnclosedConst { span } => Some(span),
            ParseErrorView::InvalidConstExpression { span, .. } => Some(span),
            ParseErrorView::UnclosedDebug { span } => Some(span),
            ParseErrorView::InvalidSlotAttribute { span, .. } => Some(span),
            ParseErrorView::NestedHead { span } => Some(span),
        }
    }

    /// Returns the span of the error, if available
    /// (every variant but [`ParseError::EmptyInput`] has one).
    pub fn span(&self) -> (r: Option<Span>)
        ensures
            r == Self::span_of(self@),
    {
        match self {
            ParseError::EmptyInput => None,
            ParseError::DuplicateScriptSetup { span }
            | ParseError::DuplicateScript { span }
            | ParseError::NestedScript { span }
            | ParseError::InvalidSetupLang { span }
            | ParseError::MissingScriptLang { span }
            | ParseError::UnclosedInterpolation { span }
            | ParseError::MalformedTag { span, .. }
            | ParseError::UnclosedIfBlock { span }
            | ParseError::UnclosedEachBlock { span }
            | ParseError::UnclosedRawHtml { span }
            | ParseError::UnclosedConst { span }
            | ParseError::UnclosedDebug { span }
            | ParseError::InvalidConstExpression { span, .. }
            | ParseError::InvalidEachExpression { span, .. }
            | ParseError::InvalidSlotAttribute { span, .. }
            | ParseError::NestedHead { span } => Some(*span),
        }
    }
}

} // verus!
