//! Non-fatal diagnostics of the validation pass.

use vstd::prelude::*;
use crate::types::Span;

verus! {

/// A non-fatal diagnostic produced during semantic validation.
#[derive(Debug, Clone, PartialEq)]
pub enum ValidationWarning {
    /// The same attribute name appears more than once on an element.
    DuplicateAttribute { name: String, tag: String, first_span: Span, dup_span: Span },
    /// The same event name appears more than once on an element.
    DuplicateEventHandler { event: String, tag: String, first_span: Span, dup_span: Span },
    /// The same binding property appears more than once on an element.
    DuplicateBinding { property: String, tag: String, first_span: Span, dup_span: Span },
    /// The same class toggle appears more than once on an element.
    DuplicateClassToggle { class: String, tag: String, first_span: Span, dup_span: Span },
    /// The same style property appears more than once on an element.
    DuplicateStyleProp { property: String, tag: String, first_span: Span, dup_span: Span },
    /// Event modifiers `passive` and `preventDefault` conflict.
    ConflictingPassivePreventDefault { event: String, span: Span },
    /// Event modifiers `passive` and `nonpassive` conflict.
    ConflictingPassiveNonPassive { event: String, span: Span },
    /// An interpolation expression is empty (e.g. `{{ }}`).
    EmptyExpression { span: Span },
    /// An event handler has an empty value (e.g. `on:click=""`).
    EmptyEventHandler { event: String, span: Span },
    /// A style prop has an empty value expression.
    EmptyStylePropValue { property: String, span: Span },
    /// A class toggle has an empty condition.
    EmptyClassToggleCondition { class: String, span: Span },
    /// A binding has an empty expression.
    EmptyBindingExpression { property: String, span: Span },
    /// More than one unnamed `<slot />` (default slot) in a component.
    MultipleDefaultSlots { first_span: Span, dup_span: Span },
    /// Two or more `<slot name="X">` with the same name.
    DuplicateNamedSlot { name: String, first_span: Span, dup_span: Span },
    /// A component prop has an empty value (e.g. `<Button label="">`).
    EmptyComponentProp { name: String, component: String, span: Span },
    /// A `class:` or `style:` directive on a component, where it has no effect.
    DirectiveOnComponent { directive: String, component: String, span: Span },
    /// A `slot` attribute that is not a single, static, non-empty text value.
    InvalidSlotAttribute { tag: String, reason: String, span: Span },
}

/// The mathematical form of a warning, with its texts as character sequences.
pub enum ValidationWarningView {
    DuplicateAttribute { name: Seq<char>, tag: Seq<char>, first_span: Span, dup_span: Span },
    DuplicateEventHandler { event: Seq<char>, tag: Seq<char>, first_span: Span, dup_span: Span },
    DuplicateBinding { property: Seq<char>, tag: Seq<char>, first_span: Span, dup_span: Span },
    DuplicateClassToggle { class: Seq<char>, tag: Seq<char>, first_span: Span, dup_span: Span },
    DuplicateStyleProp { property: Seq<char>, tag: Seq<char>, first_span: Span, dup_span: Span },
    ConflictingPassivePreventDefault { event: Seq<char>, span: Span },
    ConflictingPassiveNonPassive { event: Seq<char>, span: Span },
    EmptyExpression { span: Span },
    EmptyEventHandler { event: Seq<char>, span: Span },
    EmptyStylePropValue { property: Seq<char>, span: Span },
    EmptyClassToggleCondition { class: Seq<char>, span: Span },
    EmptyBindingExpression { property: Seq<char>, span: Span },
    MultipleDefaultSlots { first_span: Span, dup_span: Span },
    DuplicateNamedSlot { name: Seq<char>, first_span: Span, dup_span: Span },
    EmptyComponentProp { name: Seq<char>, component: Seq<char>, span: Span },
    DirectiveOnComponent { directive: Seq<char>, component: Seq<char>, span: Span },
    InvalidSlotAttribute { tag: Seq<char>, reason: Seq<char>, span: Span },
}

impl View for ValidationWarning {
    type V = ValidationWarningView;

    open spec fn view(&self) -> ValidationWarningView {
        match self {
            ValidationWarning::DuplicateAttribute { name, tag, first_span, dup_span } =>
                ValidationWarningView::DuplicateAttribute {
                    name: name@,
                    tag: tag@,
                    first_span: *first_span,
                    dup_span: *dup_span,
                },
            ValidationWarning::DuplicateEventHandler { event, tag, first_span, dup_span } =>
                ValidationWarningView::DuplicateEventHandler {
                    event: event@,
                    tag: tag@,
                    first_span: *first_span,
                    dup_span: *dup_span,
                },
            ValidationWarning::DuplicateBinding { property, tag, first_span, dup_span } =>
                ValidationWarningView::DuplicateBinding {
                    property: property@,
                    tag: tag@,
                    first_span: *first_span,
                    dup_span: *dup_span,
                },
            ValidationWarning::DuplicateClassToggle { class, tag, first_span, dup_span } =>
                ValidationWarningView::DuplicateClassToggle {
                    class: class@,
                    tag: tag@,
                    first_span: *first_span,
                    dup_span: *dup_span,
                },
            ValidationWarning::DuplicateStyleProp { property, tag, first_span, dup_span } =>
                ValidationWarningView::DuplicateStyleProp {
                    property: property@,
                    tag: tag@,
                    first_span: *first_span,
                    dup_span: *dup_span,
                },
            ValidationWarning::ConflictingPassivePreventDefault { event, span } =>
                ValidationWarningView::ConflictingPassivePreventDefault {
                    event: event@,
                    span: *span,
                },
            ValidationWarning::ConflictingPassiveNonPassive { event, span } =>
                ValidationWarningView::ConflictingPassiveNonPassive { event: event@, span: *span },
            ValidationWarning::EmptyExpression { span } => ValidationWarningView::EmptyExpression {
                span: *span,
            },
            ValidationWarning::EmptyEventHandler { event, span } =>
                ValidationWarningView::EmptyEventHandler { event: event@, span: *span },
            ValidationWarning::EmptyStylePropValue { property, span } =>
                ValidationWarningView::EmptyStylePropValue { property: property@, span: *span },
            ValidationWarning::EmptyClassToggleCondition { class, span } =>
                ValidationWarningView::EmptyClassToggleCondition { class: class@, span: *span },
            ValidationWarning::EmptyBindingExpression { property, span } =>
                ValidationWarningView::EmptyBindingExpression { property: property@, span: *span },
            ValidationWarning::MultipleDefaultSlots { first_span, dup_span } =>
                ValidationWarningView::MultipleDefaultSlots {
                    first_span: *first_span,
                    dup_span: *dup_span,
                },
            ValidationWarning::DuplicateNamedSlot { name, first_span, dup_span } =>
                ValidationWarningView::DuplicateNamedSlot {
                    name: name@,
                    first_span: *first_span,
                    dup_span: *dup_span,
                },
            ValidationWarning::EmptyComponentProp { name, component, span } =>
                ValidationWarningView::EmptyComponentProp {
                    name: name@,
                    component: component@,
                    span: *span,
                },
            ValidationWarning::DirectiveOnComponent { directive, component, span } =>
                ValidationWarningView::DirectiveOnComponent {
                    directive: directive@,
                    component: component@,
                    span: *span,
                },
            ValidationWarning::InvalidSlotAttribute { tag, reason, span } =>
                ValidationWarningView::InvalidSlotAttribute {
                    tag: tag@,
                    reason: reason@,
                    span: *span,
                },
        }
    }
}

impl ValidationWarning {
    /// The primary span of a warning: the duplicate or offending location.
    pub open spec fn span_of(w: ValidationWarningView) -> Span {
        match w {
            ValidationWarningView::DuplicateAttribute { dup_span, .. } => dup_span,
            ValidationWarningView::DuplicateEventHandler { dup_span, .. } => dup_span,
            ValidationWarningView::DuplicateBinding { dup_span, .. } => dup_span,
            ValidationWarningView::DuplicateClassToggle { dup_span, .. } => dup_span,
            ValidationWarningView::DuplicateStyleProp { dup_span, .. } => dup_span,
            ValidationWarningView::MultipleDefaultSlots { dup_span, .. } => dup_span,
            ValidationWarningView::DuplicateNamedSlot { dup_span, .. } => dup_span,
            ValidationWarningView::ConflictingPassivePreventDefault { span, .. } => span,
            ValidationWarningView::ConflictingPassiveNonPassive { span, .. } => span,
            ValidationWarningView::EmptyExpression { span } => span,
            ValidationWarningView::EmptyEventHandler { span, .. } => span,
            ValidationWarningView::EmptyStylePropValue { span, .. } => span,
            ValidationWarningView::EmptyClassToggleCondition { span, .. } => span,
            ValidationWarningView::EmptyBindingExpression { span, .. } => span,
            ValidationWarningView::EmptyComponentProp { span, .. } => span,
            ValidationWarningView::DirectiveOnComponent { span, .. } => span,
            ValidationWarningView::InvalidSlotAttribute { span, .. } => span,
        }
    }

    /// Returns the primary span for this warning (the duplicate or offending location).
    pub fn span(&self) -> (r: Span)
        ensures
            r == Self::span_of(self@),
    {
        match self {
            ValidationWarning::DuplicateAttribute { dup_span, .. }
            | ValidationWarning::DuplicateEventHandler { dup_span, .. }
            | ValidationWarning::DuplicateBinding { dup_span, .. }
            | ValidationWarning::DuplicateClassToggle { dup_span, .. }
            | ValidationWarning::DuplicateStyleProp { dup_span, .. }
            | ValidationWarning::MultipleDefaultSlots { dup_span, .. }
            | ValidationWarning::DuplicateNamedSlot { dup_span, .. } => *dup_span,
            ValidationWarning::ConflictingPassivePreventDefault { span, .. }
            | ValidationWarning::ConflictingPassiveNonPassive { span, .. }
            | ValidationWarning::EmptyExpression { span }
            | ValidationWarning::EmptyEventHandler { span, .. }
            | ValidationWarning::EmptyStylePropValue { span, .. }
            | ValidationWarning::EmptyClassToggleCondition { span, .. }
            | ValidationWarning::EmptyBindingExpression { span, .. }
            | ValidationWarning::EmptyComponentProp { span, .. }
            | ValidationWarning::DirectiveOnComponent { span, .. }
            | ValidationWarning::InvalidSlotAttribute { span, .. } => *span,
        }
    }
}

} // verus!
