//! Output rendering: pure projection of a decision into text, with no
//! decision logic of its own. The exit code is set by the evaluator
//! alone; nothing rendered here changes it.

use vstd::prelude::*;

use crate::evaluate::{MatrixRow, Notice, Summary};
use crate::json::{spec_print, JsonValue};
use crate::strutil::str_eq;

verus! {

/// The presentation formats.
#[derive(Clone, Copy, Debug, PartialEq, Eq, Structural)]
pub enum OutputType {
    Json,
    Table,
    Text,
    Pretty,
}

/// How a notice is classified for presentation, by its `type` field.
#[derive(Clone, Copy, Debug, PartialEq, Eq, Structural)]
pub enum NoticeKind {
    Warning,
    Error,
    Info,
}

/// `warning` and `error` are set apart; everything else is
/// informational.
pub open spec fn spec_notice_kind(t: Seq<char>) -> NoticeKind {
    if t == "warning"@ {
        NoticeKind::Warning
    } else if t == "error"@ {
        NoticeKind::Error
    } else {
        NoticeKind::Info
    }
}

pub fn notice_kind(t: &str) -> (k: NoticeKind)
    ensures
        k == spec_notice_kind(t@),
{
    if str_eq(t, "warning") {
        NoticeKind::Warning
    } else if str_eq(t, "error") {
        NoticeKind::Error
    } else {
        NoticeKind::Info
    }
}

/// The JSON rendering of a response document: the document itself,
/// serialized compactly. The pretty mode uses the same text; the
/// document model preserves member order either way.
pub fn render_json(doc: &JsonValue) -> (r: String)
    ensures
        r@ == spec_print(doc@),
{
    crate::json::print_json(doc)
}

/// The fixed table header: one column set for every matrix rendering.
pub open spec fn spec_table_header() -> Seq<Seq<char>> {
    seq!["CONSUMER"@, "C.VERSION"@, "PROVIDER"@, "P.VERSION"@, "SUCCESS?"@, "RESULT"@]
}

/// A missing version is shown as `unknown`.
pub open spec fn spec_version_cell(v: Option<Seq<char>>) -> Seq<char> {
    match v {
        Some(s) => s,
        None => "unknown"@,
    }
}

/// The verification column: `true` only when the row's verification
/// ran and reported success; a missing or unknown outcome shows as
/// `false`.
pub open spec fn spec_success_cell(r: MatrixRow) -> Seq<char> {
    match r.verification {
        Some(v) => if v.success == Some(true) {
            "true"@
        } else {
            "false"@
        },
        None => "false"@,
    }
}

/// The six cells of one matrix row.
pub open spec fn spec_row_cells(r: MatrixRow) -> Seq<Seq<char>> {
    seq![
        r.consumer_name@,
        spec_version_cell(crate::strutil::opt_view(r.consumer_version)),
        r.provider_name@,
        spec_version_cell(crate::strutil::opt_view(r.provider_version)),
        spec_success_cell(r),
        spec_success_cell(r),
    ]
}

pub open spec fn spec_table_body(rows: Seq<MatrixRow>) -> Seq<Seq<Seq<char>>> {
    rows.map_values(|r: MatrixRow| spec_row_cells(r))
}

/// What the table layout engine produces for given cells. The text
/// depends on the header and the rows alone: the preset is fixed and
/// the arrangement never consults the terminal.
pub uninterp spec fn table_text(header: Seq<Seq<char>>, rows: Seq<Seq<Seq<char>>>) -> Seq<char>;

/// Relies on comfy_table: building a `Table` with the fixed UTF8_FULL
/// preset, this header and these rows, and rendering it with
/// `to_string`. With the default (disabled) content arrangement the
/// text is a function of the cells alone.
#[verifier::external_body]
fn render_table_with(header: &Vec<String>, rows: &Vec<Vec<String>>) -> (r: String)
    ensures
        r@ == table_text(header.deep_view(), rows.deep_view()),
{
    let mut table = comfy_table::Table::new();
    table.load_style(comfy_table::presets::UTF8_FULL);
    table.set_header(header.clone());
    for row in rows {
        table.add_row(row.clone());
    }
    table.to_string()
}

fn version_cell(v: &Option<String>) -> (r: String)
    ensures
        r@ == spec_version_cell(crate::strutil::opt_view(*v)),
{
    match v {
        Some(s) => s.clone(),
        None => "unknown".to_owned(),
    }
}

fn success_cell(r: &MatrixRow) -> (c: String)
    ensures
        c@ == spec_success_cell(*r),
{
    match &r.verification {
        Some(v) => match v.success {
            Some(true) => "true".to_owned(),
            _ => "false".to_owned(),
        },
        None => "false".to_owned(),
    }
}

fn row_cells(r: &MatrixRow) -> (cells: Vec<String>)
    ensures
        cells@.map_values(|c: String| c@) == spec_row_cells(*r),
{
    let mut cells: Vec<String> = Vec::new();
    cells.push(r.consumer_name.clone());
    cells.push(version_cell(&r.consumer_version));
    cells.push(r.provider_name.clone());
    cells.push(version_cell(&r.provider_version));
    cells.push(success_cell(r));
    cells.push(success_cell(r));
    proof {
        assert(cells@.map_values(|c: String| c@) =~= spec_row_cells(*r));
    }
    cells
}

/// The table rendering of the matrix rows: the fixed header and one
/// line of cells per row, in order, laid out by the table engine.
pub fn render_table(rows: &Vec<MatrixRow>) -> (r: String)
    ensures
        r@ == table_text(spec_table_header(), spec_table_body(rows@)),
{
    let mut header: Vec<String> = Vec::new();
    header.push("CONSUMER".to_owned());
    header.push("C.VERSION".to_owned());
    header.push("PROVIDER".to_owned());
    header.push("P.VERSION".to_owned());
    header.push("SUCCESS?".to_owned());
    header.push("RESULT".to_owned());
    proof {
        assert(header.deep_view() =~~= spec_table_header());
    }
    let mut body: Vec<Vec<String>> = Vec::new();
    let mut i: usize = 0;
    while i < rows.len()
        invariant
            i <= rows@.len(),
            body@.len() == i,
            forall|j: int|
                0 <= j < i ==> (#[trigger] body@[j])@.map_values(|c: String| c@)
                    == spec_row_cells(rows@[j]),
        decreases rows@.len() - i,
    {
        body.push(row_cells(&rows[i]));
        i = i + 1;
    }
    proof {
        assert(body.deep_view() =~~= spec_table_body(rows@));
    }
    render_table_with(&header, &body)
}

/// The text rendering: the summary's reason on its own line, then each
/// notice's text on its own line, in the server's order.
pub open spec fn spec_text_output(reason: Seq<char>, notices: Seq<Seq<char>>) -> Seq<char>
    decreases notices.len(),
{
    if notices.len() == 0 {
        reason + "\n"@
    } else {
        spec_text_output(reason, notices.drop_last()) + notices.last() + "\n"@
    }
}

/// The texts of the notices, in order.
pub open spec fn spec_notice_texts(notices: Seq<Notice>) -> Seq<Seq<char>> {
    notices.map_values(|n: Notice| n.text@)
}

pub fn render_text(summary: &Summary, notices: &Vec<Notice>) -> (r: String)
    ensures
        r@ == spec_text_output(summary.reason@, spec_notice_texts(notices@)),
{
    let ghost texts = spec_notice_texts(notices@);
    let mut out: String = summary.reason.clone();
    out.append("\n");
    let mut i: usize = 0;
    proof {
        assert(texts.take(0) =~= Seq::<Seq<char>>::empty());
        assert(out@ == spec_text_output(summary.reason@, texts.take(0)));
    }
    while i < notices.len()
        invariant
            texts == spec_notice_texts(notices@),
            texts.len() == notices@.len(),
            i <= texts.len(),
            out@ == spec_text_output(summary.reason@, texts.take(i as int)),
        decreases texts.len() - i,
    {
        proof {
            assert(texts.take(i as int + 1).drop_last() =~= texts.take(i as int));
            assert(texts.take(i as int + 1).last() == texts[i as int]);
        }
        out.append(notices[i].text.as_str());
        out.append("\n");
        i = i + 1;
    }
    proof {
        assert(texts.take(texts.len() as int) =~= texts);
    }
    out
}

/// The presentation lines for the notices alone (used beside the table
/// rendering): one line per notice, the server's order kept, never
/// re-sorted, ignored rows included.
pub fn render_notice_lines(notices: &Vec<Notice>) -> (lines: Vec<(NoticeKind, String)>)
    ensures
        lines@.len() == notices@.len(),
        forall|i: int|
            0 <= i < notices@.len() ==> #[trigger] lines@[i].0 == spec_notice_kind(
                notices@[i].notice_type@,
            ) && lines@[i].1@ == notices@[i].text@,
{
    let mut lines: Vec<(NoticeKind, String)> = Vec::new();
    let mut i: usize = 0;
    while i < notices.len()
        invariant
            i <= notices@.len(),
            lines@.len() == i,
            forall|j: int|
                0 <= j < i ==> #[trigger] lines@[j].0 == spec_notice_kind(
                    notices@[j].notice_type@,
                ) && lines@[j].1@ == notices@[j].text@,
        decreases notices@.len() - i,
    {
        let kind = notice_kind(notices[i].notice_type.as_str());
        lines.push((kind, notices[i].text.clone()));
        i = i + 1;
    }
    lines
}

/// Law: the text rendering of any summary starts with its reason, so a
/// failing check always has its reason in front of the reader, whatever
/// the notices say.
pub proof fn lemma_text_output_carries_reason(reason: Seq<char>, notices: Seq<Seq<char>>)
    ensures
        spec_text_output(reason, notices).len() >= reason.len() + 1,
        spec_text_output(reason, notices).take(reason.len() as int) == reason,
    decreases notices.len(),
{
    if notices.len() == 0 {
        reveal_strlit("\n");
        assert((reason + "\n"@).take(reason.len() as int) =~= reason);
    } else {
        lemma_text_output_carries_reason(reason, notices.drop_last());
        let prev = spec_text_output(reason, notices.drop_last());
        assert((prev + notices.last() + "\n"@).take(reason.len() as int) =~= prev.take(
            reason.len() as int,
        ));
    }
}

/// The table rendering of arbitrary cells: a header line and one line
/// per row, laid out by the table engine.
pub fn render_cells(header: &Vec<String>, body: &Vec<Vec<String>>) -> (r: String)
    ensures
        r@ == table_text(header.deep_view(), body.deep_view()),
{
    render_table_with(header, body)
}

} // verus!
