//! The output: each line of the input, followed by its two new columns.

use vstd::prelude::*;
use vstd::string::*;
use crate::fields::{fields, lemma_fields_of_tab_free, lemma_fields_of_tabbed, tab_free, TAB};
use crate::error::AppError;
use crate::record::{ingested, lemma_ingested_ok, parsed, texts, RecordText, Records};

verus! {

/// The text of the two columns that a line of the output ends with.
pub struct ColumnsText {
    pub density: Seq<char>,
    pub cumulative: Seq<char>,
}

/// The two columns that are added to a record, as they are to be written:
/// its density and its cumulative density.
#[derive(Debug)]
pub struct Columns {
    pub density: String,
    pub cumulative: String,
}

impl View for Columns {
    type V = ColumnsText;

    open spec fn view(&self) -> ColumnsText {
        ColumnsText { density: self.density@, cumulative: self.cumulative@ }
    }
}

/// The texts of `columns`, in order.
pub open spec fn column_texts(columns: Seq<Columns>) -> Seq<ColumnsText> {
    Seq::new(columns.len(), |i: int| columns[i]@)
}

/// A line of the output: the line as it was read, a tab, the density, a
/// tab, and the cumulative density.
pub open spec fn annotated(line: Seq<char>, columns: ColumnsText) -> Seq<char> {
    line + seq![TAB] + columns.density + seq![TAB] + columns.cumulative
}

/// The lines of the output: one for each record, in the order of the
/// records, each with the columns at its own position.
pub open spec fn emitted(records: Seq<RecordText>, columns: Seq<ColumnsText>) -> Seq<Seq<char>> {
    Seq::new(records.len(), |i: int| annotated(records[i].line, columns[i]))
}

/// Lays out one line of the output.
pub fn render(line: &str, columns: &Columns) -> (out: String)
    ensures
        out@ == annotated(line@, columns@),
{
    proof {
        reveal_strlit("\t");
        assert("\t"@ =~= seq![TAB]);
    }
    let mut out = String::from_str(line);
    out.append("\t");
    out.append(columns.density.as_str());
    out.append("\t");
    out.append(columns.cumulative.as_str());
    out
}

/// Lays out the output for `records`, given the two columns of each.
pub fn emit(records: &Records, columns: &Vec<Columns>) -> (out: Vec<String>)
    requires
        columns.len() == records@.len(),
    ensures
        out.len() == records@.len(),
        texts(out@) == emitted(records@, column_texts(columns@)),
{
    let mut out: Vec<String> = Vec::new();
    let mut i: usize = 0;
    while i < records.len()
        invariant
            columns.len() == records@.len(),
            i <= records@.len(),
            out.len() == i,
            forall|k: int|
                0 <= k < i ==> (#[trigger] out@[k])@ == annotated(records@[k].line, columns@[k]@),
        decreases records@.len() - i,
    {
        out.push(render(records.get(i).line(), &columns[i]));
        i = i + 1;
    }
    assert(texts(out@) =~= emitted(records@, column_texts(columns@)));
    out
}

/// Where the two columns hold no tab, a line of the output has the fields
/// of the line that was read, and after them the density and the cumulative
/// density, each a field of its own.
pub proof fn lemma_annotated_fields(line: Seq<char>, columns: ColumnsText)
    requires
        tab_free(columns.density),
        tab_free(columns.cumulative),
    ensures
        fields(annotated(line, columns)) == fields(line).push(columns.density).push(
            columns.cumulative,
        ),
{
    lemma_fields_of_tab_free(columns.density);
    lemma_fields_of_tab_free(columns.cumulative);
    lemma_fields_of_tabbed(line, columns.density);
    lemma_fields_of_tabbed(line + seq![TAB] + columns.density, columns.cumulative);
    assert(fields(line) + seq![columns.density] =~= fields(line).push(columns.density));
    assert(fields(line).push(columns.density) + seq![columns.cumulative] =~= fields(line).push(
        columns.density,
    ).push(columns.cumulative));
}

/// A line of the output begins with the line that was read, unchanged.
pub proof fn lemma_annotated_keeps_line(line: Seq<char>, columns: ColumnsText)
    ensures
        annotated(line, columns).len() == line.len() + columns.density.len()
            + columns.cumulative.len() + 2,
        annotated(line, columns).take(line.len() as int) == line,
{
    assert(annotated(line, columns).take(line.len() as int) =~= line);
}

/// Where every line of the input parses, the output has exactly as many
/// lines as the input.
pub proof fn lemma_output_count(
    lines: Seq<Seq<char>>,
    field_pos: nat,
    columns: Seq<ColumnsText>,
)
    requires
        ingested(lines, field_pos) is Ok,
    ensures
        ingested(lines, field_pos) matches Ok(records) && emitted(records, columns).len()
            == lines.len(),
{
    lemma_ingested_ok(lines, field_pos);
}

/// Where every line of the input parses, the output keeps the order of the
/// input: the line of the output at a position is the line of the input at
/// that position, unchanged, followed by the two columns for that position.
pub proof fn lemma_output_order(
    lines: Seq<Seq<char>>,
    field_pos: nat,
    columns: Seq<ColumnsText>,
)
    requires
        ingested(lines, field_pos) is Ok,
    ensures
        ingested(lines, field_pos) matches Ok(records) && forall|i: int|
            0 <= i < lines.len() ==> {
                &&& (#[trigger] emitted(records, columns)[i]) == annotated(lines[i], columns[i])
                &&& emitted(records, columns)[i].take(lines[i].len() as int) == lines[i]
            },
{
    lemma_ingested_ok(lines, field_pos);
    let records = ingested(lines, field_pos)->Ok_0;
    assert forall|i: int| 0 <= i < lines.len() implies {
        &&& (#[trigger] emitted(records, columns)[i]) == annotated(lines[i], columns[i])
        &&& emitted(records, columns)[i].take(lines[i].len() as int) == lines[i]
    } by {
        assert(records[i].line == lines[i]);
        lemma_annotated_keeps_line(lines[i], columns[i]);
    }
}

/// Where the two columns hold no tab, a line of the output parses as the
/// line that was read does, at any field position.
pub proof fn lemma_annotated_parses_alike(line: Seq<char>, columns: ColumnsText, field_pos: nat)
    requires
        tab_free(columns.density),
        tab_free(columns.cumulative),
        parsed(line, field_pos) is Ok,
    ensures
        parsed(annotated(line, columns), field_pos) == parsed(line, field_pos),
{
    lemma_annotated_fields(line, columns);
}

/// The output can be read again. Where every line of the input parses and
/// no column holds a tab, every line of the output parses at the same field
/// position, and gives the weight that the line of the input gave.
pub proof fn lemma_output_reads_back(
    lines: Seq<Seq<char>>,
    field_pos: nat,
    columns: Seq<ColumnsText>,
)
    requires
        ingested(lines, field_pos) is Ok,
        forall|i: int|
            0 <= i < lines.len() ==> tab_free((#[trigger] columns[i]).density) && tab_free(
                columns[i].cumulative,
            ),
    ensures
        ingested(lines, field_pos) matches Ok(records) && ingested(
            emitted(records, columns),
            field_pos,
        ) matches Ok(again) && again.len() == records.len() && forall|i: int|
            0 <= i < records.len() ==> (#[trigger] again[i]).weight == records[i].weight,
{
    lemma_ingested_ok(lines, field_pos);
    let records = ingested(lines, field_pos)->Ok_0;
    let output = emitted(records, columns);
    assert forall|i: int| 0 <= i < output.len() implies (#[trigger] parsed(output[i], field_pos))
        == Ok::<Seq<char>, AppError>(records[i].weight) by {
        assert(records[i].line == lines[i]);
        assert(tab_free(columns[i].density));
        lemma_annotated_parses_alike(lines[i], columns[i], field_pos);
    }
    lemma_ingested_ok(output, field_pos);
    let again = ingested(output, field_pos)->Ok_0;
    assert forall|i: int| 0 <= i < records.len() implies (#[trigger] again[i]).weight
        == records[i].weight by {
        assert(parsed(output[i], field_pos) == Ok::<Seq<char>, AppError>(again[i].weight));
    }
}

} // verus!
