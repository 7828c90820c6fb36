//! Plain-text diagnostic reports rendered with `ariadne` (no colours, ASCII
//! box drawing, byte offsets). What a report says comes from
//! [`crate::diagnostics`]; the layout is `ariadne`'s.

use vstd::prelude::*;
use ariadne::CharSet;
use ariadne::Config;
use ariadne::IndexType;
use ariadne::Label;
use ariadne::Report;
use ariadne::ReportKind;
use ariadne::Source;
use crate::diagnostics::{diag_info, parse_diag, DiagInfoView};
use crate::lower::is_char_boundary;
use crate::text::utf8_len;
use crate::types::ParseError;

verus! {

/// The text `ariadne` writes for an error report (kind `Error`) on the
/// file `fname` with contents `source`: its main range, message, labelled
/// ranges, notes and help lines.
pub uninterp spec fn rendered_error_report(
    fname: Seq<char>,
    source: Seq<char>,
    range: (usize, usize),
    message: Seq<char>,
    labels: Seq<((usize, usize), Seq<char>)>,
    notes: Seq<Seq<char>>,
    helps: Seq<Seq<char>>,
) -> Seq<char>;

/// The text `ariadne` writes for a warning report (kind `Warning`), with
/// the same parts as [`rendered_error_report`].
pub uninterp spec fn rendered_warning_report(
    fname: Seq<char>,
    source: Seq<char>,
    range: (usize, usize),
    message: Seq<char>,
    labels: Seq<((usize, usize), Seq<char>)>,
    notes: Seq<Seq<char>>,
    helps: Seq<Seq<char>>,
) -> Seq<char>;

pub open spec fn labels_view(v: Seq<((usize, usize), String)>) -> Seq<((usize, usize), Seq<char>)> {
    v.map_values(|l: ((usize, usize), String)| (l.0, l.1@))
}

pub open spec fn texts_view(v: Seq<String>) -> Seq<Seq<char>> {
    v.map_values(|t: String| t@)
}

/// A range `ariadne` renders without panicking on `source`: its start is
/// not after its end (`Label::new` asserts it); a start inside the source
/// is on a character boundary (the line is sliced there); and when such a
/// label is not empty, its end is on a boundary inside the source too, or
/// lies beyond the byte just past the end (then the label is skipped). A
/// label starting past the end is skipped.
pub open spec fn renderable(source: Seq<char>, r: (usize, usize)) -> bool {
    let n = utf8_len(source) as int;
    &&& r.0 <= r.1
    &&& r.0 <= n ==> is_char_boundary(source, r.0 as int)
    &&& r.0 <= n && r.0 < r.1 ==> (r.1 <= n && is_char_boundary(source, r.1 as int)) || r.1 > n + 1
}

/// The report's location (its range's start) and every label are renderable.
pub open spec fn ranges_renderable(source: Seq<char>, range: (usize, usize), labels: Seq<((usize, usize), Seq<char>)>) -> bool {
    &&& range.0 <= utf8_len(source) ==> is_char_boundary(source, range.0 as int)
    &&& forall|i: int| 0 <= i < labels.len() ==> renderable(source, (#[trigger] labels[i]).0)
}

/// `ariadne::Report::build(ReportKind::Error, ..)` with the given parts,
/// finished and written into an in-memory buffer with a plain-text
/// `Config` (no colour, ASCII, byte offsets). The contract names the text
/// (`rendered_error_report`) and ties it to every argument; it states
/// nothing of the layout. It requires the ranges on which `ariadne`'s
/// byte-indexed rendering does not panic (see [`renderable`]).
#[verifier::external_body]
pub(crate) fn render_error_report(
    fname: &str,
    source: &str,
    range: (usize, usize),
    message: &str,
    labels: &Vec<((usize, usize), String)>,
    notes: &Vec<String>,
    helps: &Vec<String>,
) -> (r: String)
    requires
        ranges_renderable(source@, range, labels_view(labels@)),
    ensures
        r@ == rendered_error_report(fname@, source@, range, message@, labels_view(labels@), texts_view(notes@), texts_view(helps@)),
{
    let config = Config::default().with_index_type(IndexType::Byte).with_color(false).with_char_set(CharSet::Ascii);
    let mut b = Report::build(ReportKind::Error, (fname.to_string(), range.0..range.1)).with_config(config).with_message(message);
    for (r, m) in labels.iter() {
        b.add_label(Label::new((fname.to_string(), r.0..r.1)).with_message(m));
    }
    b.with_notes(notes.iter());
    b.with_helps(helps.iter());
    let mut buf = Vec::new();
    b.finish().write((fname.to_string(), Source::from(source)), &mut buf).expect("writing to a Vec");
    String::from_utf8(buf).expect("ariadne writes UTF-8")
}

/// As [`render_error_report`], for `ReportKind::Warning`.
#[verifier::external_body]
pub(crate) fn render_warning_report(
    fname: &str,
    source: &str,
    range: (usize, usize),
    message: &str,
    labels: &Vec<((usize, usize), String)>,
    notes: &Vec<String>,
    helps: &Vec<String>,
) -> (r: String)
    requires
        ranges_renderable(source@, range, labels_view(labels@)),
    ensures
        r@ == rendered_warning_report(fname@, source@, range, message@, labels_view(labels@), texts_view(notes@), texts_view(helps@)),
{
    let config = Config::default().with_index_type(IndexType::Byte).with_color(false).with_char_set(CharSet::Ascii);
    let mut b = Report::build(ReportKind::Warning, (fname.to_string(), range.0..range.1)).with_config(config).with_message(message);
    for (r, m) in labels.iter() {
        b.add_label(Label::new((fname.to_string(), r.0..r.1)).with_message(m));
    }
    b.with_notes(notes.iter());
    b.with_helps(helps.iter());
    let mut buf = Vec::new();
    b.finish().write((fname.to_string(), Source::from(source)), &mut buf).expect("writing to a Vec");
    String::from_utf8(buf).expect("ariadne writes UTF-8")
}

/// The name a report shows for the file: the given one, or `<unknown>`.
pub open spec fn shown_name(filename: Option<&str>) -> Seq<char> {
    match filename {
        Some(f) => f@,
        None => "<unknown>"@,
    }
}

pub(crate) fn shown_name_exec<'a>(filename: Option<&'a str>) -> (r: &'a str)
    ensures
        r@ == shown_name(filename),
{
    match filename {
        Some(f) => f,
        None => "<unknown>",
    }
}

/// An optional text as a list of zero or one texts.
pub open spec fn opt_list(o: Option<Seq<char>>) -> Seq<Seq<char>> {
    match o {
        Some(t) => seq![t],
        None => Seq::empty(),
    }
}

pub(crate) fn opt_list_exec(o: Option<String>) -> (r: Vec<String>)
    ensures
        texts_view(r@) == opt_list(crate::types::opt_str(o)),
{
    let mut v: Vec<String> = Vec::new();
    if let Some(t) = o {
        v.push(t);
    }
    proof {
        assert(texts_view(v@) =~= opt_list(crate::types::opt_str(o)));
    }
    v
}

/// The report text of an error diagnostic: its range, message, the label
/// on its range, its note and its help line.
pub open spec fn error_report_text(fname: Seq<char>, source: Seq<char>, d: DiagInfoView) -> Seq<char> {
    rendered_error_report(fname, source, d.range, d.message, seq![(d.range, d.label)], opt_list(d.note), opt_list(d.help))
}

pub(crate) fn render_diag(fname: &str, source: &str, d: crate::diagnostics::DiagInfo) -> (r: String)
    requires
        renderable(source@, d.range),
    ensures
        r@ == error_report_text(fname@, source@, d@),
{
    let ghost dv = d@;
    let mut labels: Vec<((usize, usize), String)> = Vec::new();
    labels.push((d.range, d.label));
    let notes = opt_list_exec(d.note);
    let helps = opt_list_exec(d.help);
    proof {
        assert(labels_view(labels@) =~= seq![(dv.range, dv.label)]);
    }
    render_error_report(fname, source, d.range, d.message.as_str(), &labels, &notes, &helps)
}

/// Render a parse error's diagnostic to a string (no colours, ASCII box
/// drawing); `filename` is shown in the header (`<unknown>` when `None`).
pub fn error_to_string(error: &ParseError, source: &str, filename: Option<&str>) -> (r: String)
    requires
        renderable(source@, parse_diag(error@).range),
    ensures
        r@ == error_report_text(shown_name(filename), source@, parse_diag(error@)),
{
    let fname = shown_name_exec(filename);
    render_diag(fname, source, diag_info(error))
}

} // verus!
