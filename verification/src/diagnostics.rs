//! Messages and diagnostic metadata of errors and warnings, and source positions.
//!
//! The rendering of diagnostics is left to the caller; this module decides
//! what each error or warning says and which byte ranges it points at.

use vstd::prelude::*;
use crate::error::{CompileError, CompileErrorView};
use crate::lower::{char_index, index_of_offset, is_char_boundary};
use crate::text::{bpos, byte_offsets, chars_of, concat_chars, string_from, utf8_len};
use crate::types::{opt_str, ParseError, ParseErrorView, Span};
use crate::warning::{ValidationWarning, ValidationWarningView};

verus! {

// ---------------------------------------------------------------------------
// Decimal numbers
// ---------------------------------------------------------------------------

/// The decimal digits of `n`, most significant first (`0` for zero).
pub open spec fn decimal(n: nat) -> Seq<char>
    decreases n,
{
    if n < 10 {
        seq!["0123456789"@[n as int]]
    } else {
        decimal(n / 10).push("0123456789"@[(n % 10) as int])
    }
}

/// The decimal representation of `n`.
pub fn decimal_string(n: usize) -> (r: Vec<char>)
    ensures
        r@ == decimal(n as nat),
    decreases n,
{
    let digits = chars_of("0123456789");
    proof {
        reveal_strlit("0123456789");
    }
    if n < 10 {
        let mut v: Vec<char> = Vec::new();
        v.push(digits[n]);
        proof {
            assert(v@ =~= seq!["0123456789"@[n as int]]);
        }
        v
    } else {
        let mut v = decimal_string(n / 10);
        v.push(digits[n % 10]);
        v
    }
}

fn text3(a: &str, b: &[char], c: &str) -> (r: String)
    ensures
        r@ == a@ + b@ + c@,
{
    let ab = concat_chars(chars_of(a).as_slice(), b);
    string_from(concat_chars(ab.as_slice(), chars_of(c).as_slice()).as_slice())
}

/// `a`, the byte offset, `b`, then the detail.
fn at_byte(a: &str, start: usize, b: &str, detail: &[char]) -> (r: String)
    ensures
        r@ == a@ + decimal(start as nat) + b@ + detail@,
{
    let d = decimal_string(start);
    let ad = concat_chars(chars_of(a).as_slice(), d.as_slice());
    let adb = concat_chars(ad.as_slice(), chars_of(b).as_slice());
    string_from(concat_chars(adb.as_slice(), detail).as_slice())
}

// ---------------------------------------------------------------------------
// Messages
// ---------------------------------------------------------------------------

/// The message of a parse error.
pub open spec fn parse_message(e: ParseErrorView) -> Seq<char> {
    match e {
        ParseErrorView::EmptyInput => "input is empty"@,
        ParseErrorView::DuplicateScriptSetup { span } => "duplicate <script setup> block at byte "@
            + decimal(span.start as nat),
        ParseErrorView::DuplicateScript { span } => "duplicate <script> block at byte "@ + decimal(
            span.start as nat,
        ),
        ParseErrorView::NestedScript { span } => "<script> tag found inside template content at byte "@
            + decimal(span.start as nat),
        ParseErrorView::InvalidSetupLang { span } =>
            "<script setup> does not accept a lang attribute (always Rust) at byte "@ + decimal(
            span.start as nat,
        ),
        ParseErrorView::MissingScriptLang { span } => "<script> requires a lang attribute at byte "@
            + decimal(span.start as nat),
        ParseErrorView::UnclosedInterpolation { span } => "unclosed interpolation \"{{\" at byte "@
            + decimal(span.start as nat),
        ParseErrorView::MalformedTag { detail, span } => "malformed tag at byte "@ + decimal(
            span.start as nat,
        ) + ": "@ + detail,
        ParseErrorView::UnclosedIfBlock { span } => "unclosed {#if} block at byte "@ + decimal(
            span.start as nat,
        ),
        ParseErrorView::UnclosedEachBlock { span } => "unclosed {#each} block at byte "@ + decimal(
            span.start as nat,
        ),
        ParseErrorView::InvalidEachExpression { detail, span } => "invalid {#each} expression at byte "@
            + decimal(span.start as nat) + ": "@ + detail,
        ParseErrorView::UnclosedRawHtml { span } => "unclosed {@html} block at byte "@ + decimal(
            span.start as nat,
        ),
        ParseErrorView::UnclosedConst { span } => "unclosed {@const} block at byte "@ + decimal(
            span.start as nat,
        ),
        ParseErrorView::InvalidConstExpression { detail, span } =>
            "invalid {@const} expression at byte "@ + decimal(span.start as nat) + ": "@ + detail,
        ParseErrorView::UnclosedDebug { span } => "unclosed {@debug} block at byte "@ + decimal(
            span.start as nat,
        ),
        ParseErrorView::InvalidSlotAttribute { detail, span } =>
            "unsupported attribute on <slot> at byte "@ + decimal(span.start as nat) + ": "@ + detail,
        ParseErrorView::NestedHead { span } =>
            "<thebe:head> cannot be nested inside other elements at byte "@ + decimal(
            span.start as nat,
        ),
    }
}

impl ParseError {
    /// The error message.
    pub fn message(&self) -> (r: String)
        ensures
            r@ == parse_message(self@),
    {
        let none: Vec<char> = Vec::new();
        let r = match self {
            ParseError::EmptyInput => string_from(chars_of("input is empty").as_slice()),
            ParseError::DuplicateScriptSetup { span } => at_byte(
                "duplicate <script setup> block at byte ",
                span.start,
                "",
                none.as_slice(),
            ),
            ParseError::DuplicateScript { span } => at_byte(
                "duplicate <script> block at byte ",
                span.start,
                "",
                none.as_slice(),
            ),
            ParseError::NestedScript { span } => at_byte(
                "<script> tag found inside template content at byte ",
                span.start,
                "",
                none.as_slice(),
            ),
            ParseError::InvalidSetupLang { span } => at_byte(
                "<script setup> does not accept a lang attribute (always Rust) at byte ",
                span.start,
                "",
                none.as_slice(),
            ),
            ParseError::MissingScriptLang { span } => at_byte(
                "<script> requires a lang attribute at byte ",
                span.start,
                "",
                none.as_slice(),
            ),
            ParseError::UnclosedInterpolation { span } => at_byte(
                "unclosed interpolation \"{{\" at byte ",
                span.start,
                "",
                none.as_slice(),
            ),
            ParseError::MalformedTag { detail, span } => at_byte(
                "malformed tag at byte ",
                span.start,
                ": ",
                chars_of(detail.as_str()).as_slice(),
            ),
            ParseError::UnclosedIfBlock { span } => at_byte(
                "unclosed {#if} block at byte ",
                span.start,
                "",
                none.as_slice(),
            ),
            ParseError::UnclosedEachBlock { span } => at_byte(
                "unclosed {#each} block at byte ",
                span.start,
                "",
                none.as_slice(),
            ),
            ParseError::InvalidEachExpression { detail, span } => at_byte(
                "invalid {#each} expression at byte ",
                span.start,
                ": ",
                chars_of(detail.as_str()).as_slice(),
            ),
            ParseError::UnclosedRawHtml { span } => at_byte(
                "unclosed {@html} block at byte ",
                span.start,
                "",
                none.as_slice(),
            ),
            ParseError::UnclosedConst { span } => at_byte(
                "unclosed {@const} block at byte ",
                span.start,
                "",
                none.as_slice(),
            ),
            ParseError::InvalidConstExpression { detail, span } => at_byte(
                "invalid {@const} expression at byte ",
                span.start,
                ": ",
                chars_of(detail.as_str()).as_slice(),
            ),
            ParseError::UnclosedDebug { span } => at_byte(
                "unclosed {@debug} block at byte ",
                span.start,
                "",
                none.as_slice(),
            ),
            ParseError::InvalidSlotAttribute { detail, span } => at_byte(
                "unsupported attribute on <slot> at byte ",
                span.start,
                ": ",
                chars_of(detail.as_str()).as_slice(),
            ),
            ParseError::NestedHead { span } => at_byte(
                "<thebe:head> cannot be nested inside other elements at byte ",
                span.start,
                "",
                none.as_slice(),
            ),
        };
        proof {
            reveal_strlit("");
            assert(r@ =~= parse_message(self@));
        }
        r
    }
}

/// The message of a compile error: that of the parse error it carries, or
/// the unknown modifier and where it is.
pub open spec fn compile_message(e: CompileErrorView) -> Seq<char> {
    match e {
        CompileErrorView::Parse(p) => parse_message(p),
        CompileErrorView::UnknownEventModifier { modifier, span } => "unknown event modifier '"@
            + modifier + "' at byte "@ + decimal(span.start as nat),
    }
}

impl CompileError {
    /// The error message.
    pub fn message(&self) -> (r: String)
        ensures
            r@ == compile_message(self@),
    {
        match self {
            CompileError::Parse(e) => e.message(),
            CompileError::UnknownEventModifier { modifier, span } => {
                let head = text3("unknown event modifier '", chars_of(modifier.as_str()).as_slice(), "' at byte ");
                let d = decimal_string(span.start);
                string_from(concat_chars(chars_of(head.as_str()).as_slice(), d.as_slice()).as_slice())
            },
        }
    }
}

// ---------------------------------------------------------------------------
// Source positions
// ---------------------------------------------------------------------------

/// The number of newlines in `s`.
pub open spec fn count_newlines(s: Seq<char>) -> nat
    decreases s.len(),
{
    if s.len() == 0 {
        0
    } else {
        count_newlines(s.drop_last()) + if s.last() == '\n' {
            1nat
        } else {
            0nat
        }
    }
}

/// The index of the last newline of `s`.
pub open spec fn last_newline(s: Seq<char>) -> Option<int>
    decreases s.len(),
{
    if s.len() == 0 {
        None
    } else if s.last() == '\n' {
        Some(s.len() - 1)
    } else {
        last_newline(s.drop_last())
    }
}

/// The 1-based line and byte column of the byte offset `start` in `s`: one
/// more than the newlines before it, and one more than the bytes between
/// the last of them and it.
pub open spec fn line_col_of(s: Seq<char>, start: int) -> (int, int) {
    let before = s.take(char_index(s, start));
    let line_start = match last_newline(before) {
        Some(p) => utf8_len(before.take(p + 1)) as int,
        None => 0,
    };
    (count_newlines(before) + 1int, utf8_len(before) - line_start + 1)
}

proof fn lemma_last_newline_props(s: Seq<char>)
    ensures
        last_newline(s) matches Some(k) ==> 0 <= k < s.len(),
    decreases s.len(),
{
    if s.len() > 0 && s.last() != '\n' {
        lemma_last_newline_props(s.drop_last());
    }
}

impl Span {
    /// The 1-based line and (byte) column of `start` in `source`.
    pub fn line_col(&self, source: &str) -> (r: (usize, usize))
        requires
            is_char_boundary(source@, self.start as int),
            utf8_len(source@) < usize::MAX,
        ensures
            (r.0 as int, r.1 as int) == line_col_of(source@, self.start as int),
    {
        let s = chars_of(source);
        proof {
            crate::text::lemma_utf8_len_mono(s@, 0, s@.len() as int);
            crate::text::lemma_utf8_len_full(s@);
        }
        let offs = byte_offsets(s.as_slice(), 0);
        let k = index_of_offset(offs.as_slice(), self.start, Ghost(s@));
        let mut lines: usize = 0;
        let mut last: usize = 0;
        let mut i: usize = 0;
        proof {
            assert(s@.take(k as int).take(0) =~= Seq::<char>::empty());
        }
        while i < k
            invariant
                i <= k <= s@.len(),
                offs@.len() == s@.len() + 1,
                forall|j: int| 0 <= j <= s@.len() ==> offs@[j] == bpos(s@, 0, j),
                lines as nat == count_newlines(s@.take(i as int)),
                lines <= i,
                last as int == match last_newline(s@.take(i as int)) {
                    Some(p) => utf8_len(s@.take(p + 1)) as int,
                    None => 0,
                },
            decreases k - i,
        {
            proof {
                assert(s@.take(i + 1).drop_last() =~= s@.take(i as int));
                assert(s@.take(i + 1).last() == s@[i as int]);
            }
            if s[i] == '\n' {
                lines = lines + 1;
                last = offs[i + 1];
            }
            i = i + 1;
        }
        proof {
            let before = s@.take(k as int);
            assert(s@.take(i as int) =~= before);
            lemma_last_newline_props(before);
            match last_newline(before) {
                Some(p) => {
                    assert(before.take(p + 1) =~= s@.take(p + 1));
                    crate::text::lemma_utf8_len_mono(s@, p + 1, k as int);
                },
                None => {},
            }
            assert(utf8_len(before) == bpos(s@, 0, k as int));
            crate::text::lemma_bpos_mono(s@, 0, k as int, s@.len() as int);
        }
        (lines + 1, offs[k] - last + 1)
    }
}

// ---------------------------------------------------------------------------
// Diagnostic metadata
// ---------------------------------------------------------------------------

/// What an error diagnostic shows: the byte range it points at, its
/// message, the label on the range, and an optional note and help line.
#[derive(Debug, PartialEq)]
pub struct DiagInfo {
    pub range: (usize, usize),
    pub message: String,
    pub label: String,
    pub note: Option<String>,
    pub help: Option<String>,
}

pub struct DiagInfoView {
    pub range: (usize, usize),
    pub message: Seq<char>,
    pub label: Seq<char>,
    pub note: Option<Seq<char>>,
    pub help: Option<Seq<char>>,
}

impl View for DiagInfo {
    type V = DiagInfoView;

    open spec fn view(&self) -> DiagInfoView {
        DiagInfoView {
            range: self.range,
            message: self.message@,
            label: self.label@,
            note: opt_str(self.note),
            help: opt_str(self.help),
        }
    }
}

fn lit(s: &str) -> (r: String)
    ensures
        r@ == s@,
{
    string_from(chars_of(s).as_slice())
}

/// The diagnostic of a parse error.
pub open spec fn parse_diag(e: ParseErrorView) -> DiagInfoView {
    match e {
        ParseErrorView::EmptyInput => DiagInfoView {
            range: (0usize, 0usize),
            message: "input is empty"@,
            label: "expected at least one block or template content"@,
            note: None,
            help: None,
        },
        ParseErrorView::DuplicateScriptSetup { span } => DiagInfoView {
            range: (span.start, span.end),
            message: "duplicate <script setup> block"@,
            label: "second <script setup> found here"@,
            note: Some("only one <script setup> block is allowed per .trs file"@),
            help: None,
        },
        ParseErrorView::DuplicateScript { span } => DiagInfoView {
            range: (span.start, span.end),
            message: "duplicate <script> block"@,
            label: "second <script> found here"@,
            note: Some("only one <script> block is allowed per .trs file"@),
            help: None,
        },
        ParseErrorView::NestedScript { span } => DiagInfoView {
            range: (span.start, span.end),
            message: "<script> tag inside template content"@,
            label: "nested <script> found here"@,
            note: Some("<script> tags must be top-level blocks, not nested inside HTML"@),
            help: None,
        },
        ParseErrorView::InvalidSetupLang { span } => DiagInfoView {
            range: (span.start, span.end),
            message: "<script setup> does not accept a lang attribute"@,
            label: "lang attribute not allowed here"@,
            note: Some("<script setup> is always Rust — remove the lang attribute"@),
            help: None,
        },
        ParseErrorView::MissingScriptLang { span } => DiagInfoView {
            range: (span.start, span.end),
            message: "<script> requires a lang attribute"@,
            label: "missing lang attribute"@,
            note: None,
            help: Some("add a lang attribute, e.g. <script lang=\"ts\">"@),
        },
        ParseErrorView::UnclosedInterpolation { span } => DiagInfoView {
            range: (span.start, span.end),
            message: "unclosed interpolation"@,
            label: "opening {{ has no matching }}"@,
            note: None,
            help: None,
        },
        ParseErrorView::MalformedTag { detail, span } => DiagInfoView {
            range: (span.start, span.end),
            message: "malformed tag"@,
            label: detail,
            note: None,
            help: None,
        },
        ParseErrorView::UnclosedIfBlock { span } => DiagInfoView {
            range: (span.start, span.end),
            message: "unclosed {#if} block"@,
            label: "{#if} opened here has no matching {/if}"@,
            note: None,
            help: Some("add a closing {/if} tag"@),
        },
        ParseErrorView::UnclosedEachBlock { span } => DiagInfoView {
            range: (span.start, span.end),
            message: "unclosed {#each} block"@,
            label: "{#each} opened here has no matching {/each}"@,
            note: None,
            help: Some("add a closing {/each} tag"@),
        },
        ParseErrorView::InvalidEachExpression { detail, span } => DiagInfoView {
            range: (span.start, span.end),
            message: "invalid {#each} expression"@,
            label: "could not parse: "@ + detail,
            note: None,
            help: Some("expected {#each iterable as binding} or {#each iterable as binding, index}"@),
        },
        ParseErrorView::UnclosedRawHtml { span } => DiagInfoView {
            range: (span.start, span.end),
            message: "unclosed {@html} block"@,
            label: "{@html opened here has no closing }"@,
            note: None,
            help: Some("add a closing }"@),
        },
        ParseErrorView::UnclosedConst { span } => DiagInfoView {
            range: (span.start, span.end),
            message: "unclosed {@const} block"@,
            label: "{@const opened here has no closing }"@,
            note: None,
            help: Some("add a closing }"@),
        },
        ParseErrorView::InvalidConstExpression { detail, span } => DiagInfoView {
            range: (span.start, span.end),
            message: "invalid {@const} expression"@,
            label: "could not parse: "@ + detail,
            note: None,
            help: Some("expected {@const name = expression}"@),
        },
        ParseErrorView::UnclosedDebug { span } => DiagInfoView {
            range: (span.start, span.end),
            message: "unclosed {@debug} block"@,
            label: "{@debug opened here has no closing }"@,
            note: None,
            help: Some("add a closing }"@),
        },
        ParseErrorView::InvalidSlotAttribute { detail, span } => DiagInfoView {
            range: (span.start, span.end),
            message: "unsupported attribute on <slot>"@,
            label: detail,
            note: Some("only the 'name' attribute is allowed on <slot> elements"@),
            help: None,
        },
        ParseErrorView::NestedHead { span } => DiagInfoView {
            range: (span.start, span.end),
            message: "<thebe:head> inside another element"@,
            label: "nested <thebe:head> found here"@,
            note: Some("<thebe:head> blocks must be at the top level of the template"@),
            help: None,
        },
    }
}

/// The diagnostic metadata of a parse error.
pub fn diag_info(error: &ParseError) -> (r: DiagInfo)
    ensures
        r@ == parse_diag(error@),
{
    let r = match error {
        ParseError::EmptyInput => DiagInfo {
            range: (0, 0),
            message: lit("input is empty"),
            label: lit("expected at least one block or template content"),
            note: None,
            help: None,
        },
        ParseError::DuplicateScriptSetup { span } => DiagInfo {
            range: (span.start, span.end),
            message: lit("duplicate <script setup> block"),
            label: lit("second <script setup> found here"),
            note: Some(lit("only one <script setup> block is allowed per .trs file")),
            help: None,
        },
        ParseError::DuplicateScript { span } => DiagInfo {
            range: (span.start, span.end),
            message: lit("duplicate <script> block"),
            label: lit("second <script> found here"),
            note: Some(lit("only one <script> block is allowed per .trs file")),
            help: None,
        },
        ParseError::NestedScript { span } => DiagInfo {
            range: (span.start, span.end),
            message: lit("<script> tag inside template content"),
            label: lit("nested <script> found here"),
            note: Some(lit("<script> tags must be top-level blocks, not nested inside HTML")),
            help: None,
        },
        ParseError::InvalidSetupLang { span } => DiagInfo {
            range: (span.start, span.end),
            message: lit("<script setup> does not accept a lang attribute"),
            label: lit("lang attribute not allowed here"),
            note: Some(lit("<script setup> is always Rust — remove the lang attribute")),
            help: None,
        },
        ParseError::MissingScriptLang { span } => DiagInfo {
            range: (span.start, span.end),
            message: lit("<script> requires a lang attribute"),
            label: lit("missing lang attribute"),
            note: None,
            help: Some(lit("add a lang attribute, e.g. <script lang=\"ts\">")),
        },
        ParseError::UnclosedInterpolation { span } => DiagInfo {
            range: (span.start, span.end),
            message: lit("unclosed interpolation"),
            label: lit("opening {{ has no matching }}"),
            note: None,
            help: None,
        },
        ParseError::MalformedTag { detail, span } => DiagInfo {
            range: (span.start, span.end),
            message: lit("malformed tag"),
            label: detail.clone(),
            note: None,
            help: None,
        },
        ParseError::UnclosedIfBlock { span } => DiagInfo {
            range: (span.start, span.end),
            message: lit("unclosed {#if} block"),
            label: lit("{#if} opened here has no matching {/if}"),
            note: None,
            help: Some(lit("add a closing {/if} tag")),
        },
        ParseError::UnclosedEachBlock { span } => DiagInfo {
            range: (span.start, span.end),
            message: lit("unclosed {#each} block"),
            label: lit("{#each} opened here has no matching {/each}"),
            note: None,
            help: Some(lit("add a closing {/each} tag")),
        },
        ParseError::InvalidEachExpression { detail, span } => DiagInfo {
            range: (span.start, span.end),
            message: lit("invalid {#each} expression"),
            label: text3("could not parse: ", chars_of(detail.as_str()).as_slice(), ""),
            note: None,
            help: Some(lit("expected {#each iterable as binding} or {#each iterable as binding, index}")),
        },
        ParseError::UnclosedRawHtml { span } => DiagInfo {
            range: (span.start, span.end),
            message: lit("unclosed {@html} block"),
            label: lit("{@html opened here has no closing }"),
            note: None,
            help: Some(lit("add a closing }")),
        },
        ParseError::UnclosedConst { span } => DiagInfo {
            range: (span.start, span.end),
            message: lit("unclosed {@const} block"),
            label: lit("{@const opened here has no closing }"),
            note: None,
            help: Some(lit("add a closing }")),
        },
        ParseError::InvalidConstExpression { detail, span } => DiagInfo {
            range: (span.start, span.end),
            message: lit("invalid {@const} expression"),
            label: text3("could not parse: ", chars_of(detail.as_str()).as_slice(), ""),
            note: None,
            help: Some(lit("expected {@const name = expression}")),
        },
        ParseError::UnclosedDebug { span } => DiagInfo {
            range: (span.start, span.end),
            message: lit("unclosed {@debug} block"),
            label: lit("{@debug opened here has no closing }"),
            note: None,
            help: Some(lit("add a closing }")),
        },
        ParseError::InvalidSlotAttribute { detail, span } => DiagInfo {
            range: (span.start, span.end),
            message: lit("unsupported attribute on <slot>"),
            label: detail.clone(),
            note: Some(lit("only the 'name' attribute is allowed on <slot> elements")),
            help: None,
        },
        ParseError::NestedHead { span } => DiagInfo {
            range: (span.start, span.end),
            message: lit("<thebe:head> inside another element"),
            label: lit("nested <thebe:head> found here"),
            note: Some(lit("<thebe:head> blocks must be at the top level of the template")),
            help: None,
        },
    };
    proof {
        reveal_strlit("");
    }
    r
}

/// The diagnostic of a compile error: a parse error shows its own message
/// at its span (or at the start); an unknown modifier names itself.
pub open spec fn compile_diag(e: CompileErrorView) -> DiagInfoView {
    match e {
        CompileErrorView::Parse(p) => {
            let span = match ParseError::span_of(p) {
                Some(sp) => sp,
                None => Span { start: 0, end: 0 },
            };
            DiagInfoView {
                range: (span.start, span.end),
                message: "parse error"@,
                label: parse_message(p),
                note: None,
                help: None,
            }
        },
        CompileErrorView::UnknownEventModifier { modifier, span } => DiagInfoView {
            range: (span.start, span.end),
            message: "unknown event modifier"@,
            label: "'"@ + modifier + "' is not a recognised modifier"@,
            note: None,
            help: Some(
                "known modifiers: preventDefault, stopPropagation, once, capture, self, trusted, passive, nonpassive"@,
            ),
        },
    }
}

/// The diagnostic metadata of a compile error.
pub fn compile_diag_info(error: &CompileError) -> (r: DiagInfo)
    ensures
        r@ == compile_diag(error@),
{
    match error {
        CompileError::Parse(e) => {
            let span = match e.span() {
                Some(sp) => sp,
                None => Span::new(0, 0),
            };
            DiagInfo {
                range: (span.start, span.end),
                message: lit("parse error"),
                label: e.message(),
                note: None,
                help: None,
            }
        },
        CompileError::UnknownEventModifier { modifier, span } => DiagInfo {
            range: (span.start, span.end),
            message: lit("unknown event modifier"),
            label: text3("'", chars_of(modifier.as_str()).as_slice(), "' is not a recognised modifier"),
            note: None,
            help: Some(
                lit(
                    "known modifiers: preventDefault, stopPropagation, once, capture, self, trusted, passive, nonpassive",
                ),
            ),
        },
    }
}

/// What a warning diagnostic shows: the byte range of the offending
/// location, its message and label, the range of the first occurrence
/// (for duplicates) and a help line.
#[derive(Debug, PartialEq)]
pub struct WarnDiagInfo {
    pub range: (usize, usize),
    pub message: String,
    pub label: String,
    pub first_range: Option<(usize, usize)>,
    pub help: Option<String>,
}

pub struct WarnDiagInfoView {
    pub range: (usize, usize),
    pub message: Seq<char>,
    pub label: Seq<char>,
    pub first_range: Option<(usize, usize)>,
    pub help: Option<Seq<char>>,
}

impl View for WarnDiagInfo {
    type V = WarnDiagInfoView;

    open spec fn view(&self) -> WarnDiagInfoView {
        WarnDiagInfoView {
            range: self.range,
            message: self.message@,
            label: self.label@,
            first_range: self.first_range,
            help: opt_str(self.help),
        }
    }
}

fn text5(a: &str, x: &[char], b: &str, y: &[char], c: &str) -> (r: String)
    ensures
        r@ == a@ + x@ + b@ + y@ + c@,
{
    let ax = concat_chars(chars_of(a).as_slice(), x);
    let axb = concat_chars(ax.as_slice(), chars_of(b).as_slice());
    let axby = concat_chars(axb.as_slice(), y);
    string_from(concat_chars(axby.as_slice(), chars_of(c).as_slice()).as_slice())
}

/// The diagnostic of a validation warning.
pub open spec fn warn_diag(w: ValidationWarningView) -> WarnDiagInfoView {
    match w {
        ValidationWarningView::DuplicateAttribute { name, tag, first_span, dup_span } => WarnDiagInfoView {
            range: (dup_span.start, dup_span.end),
            message: "duplicate attribute"@,
            label: "'"@ + name + "' already set on <"@ + tag + ">"@,
            first_range: Some((first_span.start, first_span.end)),
            help: Some("remove one of the duplicate attributes"@),
        },
        ValidationWarningView::DuplicateEventHandler { event, tag, first_span, dup_span } => WarnDiagInfoView {
            range: (dup_span.start, dup_span.end),
            message: "duplicate event handler"@,
            label: "'on:"@ + event + "' already bound on <"@ + tag + ">"@,
            first_range: Some((first_span.start, first_span.end)),
            help: Some("remove one of the duplicate handlers"@),
        },
        ValidationWarningView::DuplicateBinding { property, tag, first_span, dup_span } => WarnDiagInfoView {
            range: (dup_span.start, dup_span.end),
            message: "duplicate binding"@,
            label: "'bind:"@ + property + "' already bound on <"@ + tag + ">"@,
            first_range: Some((first_span.start, first_span.end)),
            help: Some("remove one of the duplicate bindings"@),
        },
        ValidationWarningView::DuplicateClassToggle { class, tag, first_span, dup_span } => WarnDiagInfoView {
            range: (dup_span.start, dup_span.end),
            message: "duplicate class toggle"@,
            label: "'class:"@ + class + "' already set on <"@ + tag + ">"@,
            first_range: Some((first_span.start, first_span.end)),
            help: Some("remove one of the duplicate class toggles"@),
        },
        ValidationWarningView::DuplicateStyleProp { property, tag, first_span, dup_span } => WarnDiagInfoView {
            range: (dup_span.start, dup_span.end),
            message: "duplicate style prop"@,
            label: "'style:"@ + property + "' already set on <"@ + tag + ">"@,
            first_range: Some((first_span.start, first_span.end)),
            help: Some("remove one of the duplicate style properties"@),
        },
        ValidationWarningView::ConflictingPassivePreventDefault { event, span } => WarnDiagInfoView {
            range: (span.start, span.end),
            message: "conflicting event modifiers"@,
            label: "'passive' and 'preventDefault' on 'on:"@ + event + "'"@,
            first_range: None,
            help: Some("passive listeners cannot call preventDefault — remove one modifier"@),
        },
        ValidationWarningView::ConflictingPassiveNonPassive { event, span } => WarnDiagInfoView {
            range: (span.start, span.end),
            message: "conflicting event modifiers"@,
            label: "'passive' and 'nonpassive' on 'on:"@ + event + "'"@,
            first_range: None,
            help: Some("choose either passive or nonpassive, not both"@),
        },
        ValidationWarningView::EmptyExpression { span } => WarnDiagInfoView {
            range: (span.start, span.end),
            message: "empty expression"@,
            label: "interpolation contains no expression"@,
            first_range: None,
            help: Some("add an expression inside {{ }}"@),
        },
        ValidationWarningView::EmptyEventHandler { event, span } => WarnDiagInfoView {
            range: (span.start, span.end),
            message: "empty event handler"@,
            label: "'on:"@ + event + "' has no handler"@,
            first_range: None,
            help: Some("provide a handler expression, e.g. on:click=\"handle_click\""@),
        },
        ValidationWarningView::EmptyStylePropValue { property, span } => WarnDiagInfoView {
            range: (span.start, span.end),
            message: "empty style prop value"@,
            label: "'style:"@ + property + "' has no value expression"@,
            first_range: None,
            help: Some("provide a value expression, e.g. style:color=\"theme_color\""@),
        },
        ValidationWarningView::EmptyClassToggleCondition { class, span } => WarnDiagInfoView {
            range: (span.start, span.end),
            message: "empty class toggle condition"@,
            label: "'class:"@ + class + "' has no condition"@,
            first_range: None,
            help: Some("provide a condition expression, e.g. class:active=\"is_active\""@),
        },
        ValidationWarningView::EmptyBindingExpression { property, span } => WarnDiagInfoView {
            range: (span.start, span.end),
            message: "empty binding expression"@,
            label: "'bind:"@ + property + "' has no expression"@,
            first_range: None,
            help: Some("provide a binding expression, e.g. bind:value=\"name\""@),
        },
        ValidationWarningView::MultipleDefaultSlots { first_span, dup_span } => WarnDiagInfoView {
            range: (dup_span.start, dup_span.end),
            message: "multiple default slots"@,
            label: "second default <slot> found here"@,
            first_range: Some((first_span.start, first_span.end)),
            help: Some("only one default slot is allowed per component — name the others"@),
        },
        ValidationWarningView::DuplicateNamedSlot { name, first_span, dup_span } => WarnDiagInfoView {
            range: (dup_span.start, dup_span.end),
            message: "duplicate named slot"@,
            label: "slot '"@ + name + "' already defined"@,
            first_range: Some((first_span.start, first_span.end)),
            help: Some("each named slot should appear only once"@),
        },
        ValidationWarningView::EmptyComponentProp { name, component, span } => WarnDiagInfoView {
            range: (span.start, span.end),
            message: "empty component prop"@,
            label: "'"@ + name + "' on <"@ + component + "> has an empty value"@,
            first_range: None,
            help: Some("remove the prop or give it a value"@),
        },
        ValidationWarningView::DirectiveOnComponent { directive, component, span } => WarnDiagInfoView {
            range: (span.start, span.end),
            message: "directive has no effect on a component"@,
            label: "'"@ + directive + "' on <"@ + component + "> is ignored"@,
            first_range: None,
            help: Some("move the directive to an element inside the component"@),
        },
        ValidationWarningView::InvalidSlotAttribute { tag, reason, span } => WarnDiagInfoView {
            range: (span.start, span.end),
            message: "invalid slot attribute"@,
            label: reason,
            first_range: None,
            help: Some("use a static, non-empty name, e.g. slot=\"header\""@),
        },
    }
}

/// The diagnostic metadata of a validation warning.
pub fn warn_diag_info(warning: &ValidationWarning) -> (r: WarnDiagInfo)
    ensures
        r@ == warn_diag(warning@),
{
    match warning {
        ValidationWarning::DuplicateAttribute { name, tag, first_span, dup_span } => WarnDiagInfo {
            range: (dup_span.start, dup_span.end),
            message: lit("duplicate attribute"),
            label: text5("'", chars_of(name.as_str()).as_slice(), "' already set on <", chars_of(tag.as_str()).as_slice(), ">"),
            first_range: Some((first_span.start, first_span.end)),
            help: Some(lit("remove one of the duplicate attributes")),
        },
        ValidationWarning::DuplicateEventHandler { event, tag, first_span, dup_span } => WarnDiagInfo {
            range: (dup_span.start, dup_span.end),
            message: lit("duplicate event handler"),
            label: text5("'on:", chars_of(event.as_str()).as_slice(), "' already bound on <", chars_of(tag.as_str()).as_slice(), ">"),
            first_range: Some((first_span.start, first_span.end)),
            help: Some(lit("remove one of the duplicate handlers")),
        },
        ValidationWarning::DuplicateBinding { property, tag, first_span, dup_span } => WarnDiagInfo {
            range: (dup_span.start, dup_span.end),
            message: lit("duplicate binding"),
            label: text5("'bind:", chars_of(property.as_str()).as_slice(), "' already bound on <", chars_of(tag.as_str()).as_slice(), ">"),
            first_range: Some((first_span.start, first_span.end)),
            help: Some(lit("remove one of the duplicate bindings")),
        },
        ValidationWarning::DuplicateClassToggle { class, tag, first_span, dup_span } => WarnDiagInfo {
            range: (dup_span.start, dup_span.end),
            message: lit("duplicate class toggle"),
            label: text5("'class:", chars_of(class.as_str()).as_slice(), "' already set on <", chars_of(tag.as_str()).as_slice(), ">"),
            first_range: Some((first_span.start, first_span.end)),
            help: Some(lit("remove one of the duplicate class toggles")),
        },
        ValidationWarning::DuplicateStyleProp { property, tag, first_span, dup_span } => WarnDiagInfo {
            range: (dup_span.start, dup_span.end),
            message: lit("duplicate style prop"),
            label: text5("'style:", chars_of(property.as_str()).as_slice(), "' already set on <", chars_of(tag.as_str()).as_slice(), ">"),
            first_range: Some((first_span.start, first_span.end)),
            help: Some(lit("remove one of the duplicate style properties")),
        },
        ValidationWarning::ConflictingPassivePreventDefault { event, span } => WarnDiagInfo {
            range: (span.start, span.end),
            message: lit("conflicting event modifiers"),
            label: text3("'passive' and 'preventDefault' on 'on:", chars_of(event.as_str()).as_slice(), "'"),
            first_range: None,
            help: Some(lit("passive listeners cannot call preventDefault — remove one modifier")),
        },
        ValidationWarning::ConflictingPassiveNonPassive { event, span } => WarnDiagInfo {
            range: (span.start, span.end),
            message: lit("conflicting event modifiers"),
            label: text3("'passive' and 'nonpassive' on 'on:", chars_of(event.as_str()).as_slice(), "'"),
            first_range: None,
            help: Some(lit("choose either passive or nonpassive, not both")),
        },
        ValidationWarning::EmptyExpression { span } => WarnDiagInfo {
            range: (span.start, span.end),
            message: lit("empty expression"),
            label: lit("interpolation contains no expression"),
            first_range: None,
            help: Some(lit("add an expression inside {{ }}")),
        },
        ValidationWarning::EmptyEventHandler { event, span } => WarnDiagInfo {
            range: (span.start, span.end),
            message: lit("empty event handler"),
            label: text3("'on:", chars_of(event.as_str()).as_slice(), "' has no handler"),
            first_range: None,
            help: Some(lit("provide a handler expression, e.g. on:click=\"handle_click\"")),
        },
        ValidationWarning::EmptyStylePropValue { property, span } => WarnDiagInfo {
            range: (span.start, span.end),
            message: lit("empty style prop value"),
            label: text3("'style:", chars_of(property.as_str()).as_slice(), "' has no value expression"),
            first_range: None,
            help: Some(lit("provide a value expression, e.g. style:color=\"theme_color\"")),
        },
        ValidationWarning::EmptyClassToggleCondition { class, span } => WarnDiagInfo {
            range: (span.start, span.end),
            message: lit("empty class toggle condition"),
            label: text3("'class:", chars_of(class.as_str()).as_slice(), "' has no condition"),
            first_range: None,
            help: Some(lit("provide a condition expression, e.g. class:active=\"is_active\"")),
        },
        ValidationWarning::EmptyBindingExpression { property, span } => WarnDiagInfo {
            range: (span.start, span.end),
            message: lit("empty binding expression"),
            label: text3("'bind:", chars_of(property.as_str()).as_slice(), "' has no expression"),
            first_range: None,
            help: Some(lit("provide a binding expression, e.g. bind:value=\"name\"")),
        },
        ValidationWarning::MultipleDefaultSlots { first_span, dup_span } => WarnDiagInfo {
            range: (dup_span.start, dup_span.end),
            message: lit("multiple default slots"),
            label: lit("second default <slot> found here"),
            first_range: Some((first_span.start, first_span.end)),
            help: Some(lit("only one default slot is allowed per component — name the others")),
        },
        ValidationWarning::DuplicateNamedSlot { name, first_span, dup_span } => WarnDiagInfo {
            range: (dup_span.start, dup_span.end),
            message: lit("duplicate named slot"),
            label: text3("slot '", chars_of(name.as_str()).as_slice(), "' already defined"),
            first_range: Some((first_span.start, first_span.end)),
            help: Some(lit("each named slot should appear only once")),
        },
        ValidationWarning::EmptyComponentProp { name, component, span } => WarnDiagInfo {
            range: (span.start, span.end),
            message: lit("empty component prop"),
            label: text5("'", chars_of(name.as_str()).as_slice(), "' on <", chars_of(component.as_str()).as_slice(), "> has an empty value"),
            first_range: None,
            help: Some(lit("remove the prop or give it a value")),
        },
        ValidationWarning::DirectiveOnComponent { directive, component, span } => WarnDiagInfo {
            range: (span.start, span.end),
            message: lit("directive has no effect on a component"),
            label: text5("'", chars_of(directive.as_str()).as_slice(), "' on <", chars_of(component.as_str()).as_slice(), "> is ignored"),
            first_range: None,
            help: Some(lit("move the directive to an element inside the component")),
        },
        ValidationWarning::InvalidSlotAttribute { tag, reason, span } => WarnDiagInfo {
            range: (span.start, span.end),
            message: lit("invalid slot attribute"),
            label: reason.clone(),
            first_range: None,
            help: Some(lit("use a static, non-empty name, e.g. slot=\"header\"")),
        },
    }
}

} // verus!
