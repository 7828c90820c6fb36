//! Plain-text reports of compile errors and validation warnings, rendered
//! with `ariadne` as in [`crate::report`].

use vstd::prelude::*;
use crate::diagnostics::{compile_diag, compile_diag_info, warn_diag, warn_diag_info, WarnDiagInfoView};
use crate::error::CompileError;
use crate::report::{
    error_report_text, labels_view, opt_list, opt_list_exec, render_diag, render_warning_report,
    renderable, rendered_warning_report, shown_name, shown_name_exec,
};
use crate::warning::ValidationWarning;

verus! {

/// Render a compile error's diagnostic to a string (no colours, ASCII box
/// drawing); `filename` is shown in the header (`<unknown>` when `None`).
pub fn error_to_string(error: &CompileError, source: &str, filename: Option<&str>) -> (r: String)
    requires
        renderable(source@, compile_diag(error@).range),
    ensures
        r@ == error_report_text(shown_name(filename), source@, compile_diag(error@)),
{
    let fname = shown_name_exec(filename);
    render_diag(fname, source, compile_diag_info(error))
}

/// The labels of a warning: its message on its range, then, for a
/// duplicate, "first defined here" on the first occurrence.
pub open spec fn warning_labels(d: WarnDiagInfoView) -> Seq<((usize, usize), Seq<char>)> {
    match d.first_range {
        Some(fr) => seq![(d.range, d.label), (fr, "first defined here"@)],
        None => seq![(d.range, d.label)],
    }
}

/// The report text of a warning diagnostic.
pub open spec fn warning_report_text(fname: Seq<char>, source: Seq<char>, d: WarnDiagInfoView) -> Seq<char> {
    rendered_warning_report(fname, source, d.range, d.message, warning_labels(d), Seq::empty(), opt_list(d.help))
}

/// The ranges of a warning are renderable on `source` (see [`renderable`]).
pub open spec fn warning_renderable(source: Seq<char>, d: WarnDiagInfoView) -> bool {
    &&& renderable(source, d.range)
    &&& d.first_range matches Some(fr) ==> renderable(source, fr)
}

/// Render a validation warning's diagnostic to a string (no colours, ASCII
/// box drawing); `filename` is shown in the header (`<unknown>` when `None`).
pub fn warning_to_string(warning: &ValidationWarning, source: &str, filename: Option<&str>) -> (r: String)
    requires
        warning_renderable(source@, warn_diag(warning@)),
    ensures
        r@ == warning_report_text(shown_name(filename), source@, warn_diag(warning@)),
{
    let fname = shown_name_exec(filename);
    let d = warn_diag_info(warning);
    let ghost dv = d@;
    let mut labels: Vec<((usize, usize), String)> = Vec::new();
    labels.push((d.range, d.label));
    if let Some(fr) = d.first_range {
        labels.push((fr, crate::text::string_from(crate::text::chars_of("first defined here").as_slice())));
    }
    let notes: Vec<String> = Vec::new();
    let helps = opt_list_exec(d.help);
    proof {
        reveal_strlit("first defined here");
        assert(labels_view(labels@) =~= warning_labels(dv));
        assert(crate::report::texts_view(notes@) =~= Seq::<Seq<char>>::empty());
    }
    render_warning_report(fname, source, d.range, d.message.as_str(), &labels, &notes, &helps)
}

} // verus!
