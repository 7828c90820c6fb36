//! Parser, compiler and route logic for `.trs` single-file components.

pub mod text;
pub mod types;
pub mod template;
pub mod parser;
pub mod ir;
pub mod error;
pub mod warning;
pub mod lower;
pub mod validate;
pub mod discover;
pub mod emit;
pub mod visitor;
pub mod diagnostics;
pub mod report;
pub mod compile_report;

pub use error::CompileError;
pub use ir::{
    ClientScript, CompiledComponent, EventModifier, IrAction, IrAttribute, IrBinding, IrClassToggle,
    IrComponentRef, IrConst, IrEach, IrElement, IrEventHandler, IrExpr, IrIf, IrIfBranch, IrNode,
    IrSlot, IrStyleProp, ProcessedStyle, SetupBlock,
};
pub use lower::lower;
pub use parser::parse;
pub use template::{parse_html, parse_template};
pub use types::{
    Attribute, Directive, DirectiveKind, Element, HtmlNode, IfBranch, ParseError, ScriptBlock, Span,
    StyleBlock, TemplateFragment, TemplateNode, ThebeAst,
};
pub use validate::validate;
pub use warning::ValidationWarning;
