//! Records: the lines of the input, each with the text of its weight.

use vstd::prelude::*;
use vstd::std_specs::iter::IteratorSpec;
use vstd::string::*;
use crate::error::AppError;
use crate::fields::{field_count, fields, is_field_of, select_field};
use crate::literal::{is_float_literal, is_literal};

verus! {

/// What parsing a line at the field `field_pos` gives: the text of the
/// selected field where it is the text of a number, `IndexError` where the
/// line has too few fields, and `ParseError` where the field is there and
/// is no number.
pub open spec fn parsed(line: Seq<char>, field_pos: nat) -> Result<Seq<char>, AppError> {
    if field_pos >= field_count(line) {
        Err(AppError::IndexError)
    } else if !is_float_literal(fields(line)[field_pos as int]) {
        Err(AppError::ParseError)
    } else {
        Ok(fields(line)[field_pos as int])
    }
}

/// Selects the field of `line` at the zero-based position `field_pos` and
/// checks that it is the text of a number.
pub fn parse_line<'a>(line: &'a str, field_pos: usize) -> (outcome: Result<&'a str, AppError>)
    ensures
        match parsed(line@, field_pos as nat) {
            Ok(weight) => outcome matches Ok(text) && text@ == weight,
            Err(e) => outcome == Err::<&str, AppError>(e),
        },
{
    match select_field(line, field_pos) {
        None => Err(AppError::IndexError),
        Some(text) => {
            if is_literal(text) {
                Ok(text)
            } else {
                Err(AppError::ParseError)
            }
        },
    }
}

/// The text of a record: a line of the input and the text of its weight.
pub struct RecordText {
    pub line: Seq<char>,
    pub weight: Seq<char>,
}

/// A line of the input together with the text of its weight, the field
/// that was selected from it. A record is made by parsing a line and is
/// never changed afterwards.
#[derive(Debug)]
pub struct Record {
    line: String,
    weight: String,
}

impl View for Record {
    type V = RecordText;

    closed spec fn view(&self) -> RecordText {
        RecordText { line: self.line@, weight: self.weight@ }
    }
}

impl Record {
    #[verifier::type_invariant]
    spec fn weight_is_numeric_field(&self) -> bool {
        &&& is_float_literal(self.weight@)
        &&& is_field_of(self.weight@, self.line@)
    }

    /// Makes a record of `line`, with the field at `field_pos` as its
    /// weight.
    pub fn parse(line: String, field_pos: usize) -> (outcome: Result<Record, AppError>)
        ensures
            match parsed(line@, field_pos as nat) {
                Ok(weight) => outcome matches Ok(record) && record@ == (RecordText {
                    line: line@,
                    weight,
                }),
                Err(e) => outcome == Err::<Record, AppError>(e),
            },
    {
        let weight = match parse_line(line.as_str(), field_pos) {
            Ok(text) => text.to_owned(),
            Err(e) => {
                return Err(e);
            },
        };
        assert(fields(line@)[field_pos as int] == weight@);
        Ok(Record { line, weight })
    }

    /// The line as it was read.
    pub fn line(&self) -> (line: &str)
        ensures
            line@ == self@.line,
    {
        self.line.as_str()
    }

    /// The text of the weight: one of the fields of the line, and the text
    /// of a number.
    pub fn weight(&self) -> (weight: &str)
        ensures
            weight@ == self@.weight,
            is_float_literal(weight@),
            is_field_of(weight@, self@.line),
    {
        proof {
            use_type_invariant(self);
        }
        self.weight.as_str()
    }
}

/// The texts of `lines`, in order.
pub open spec fn texts(lines: Seq<String>) -> Seq<Seq<char>> {
    Seq::new(lines.len(), |i: int| lines[i]@)
}

/// What reading `lines` in order gives: a record for each line, in the
/// order of the lines, where every line parses, and otherwise the error of
/// the first line that does not.
pub open spec fn ingested(lines: Seq<Seq<char>>, field_pos: nat) -> Result<
    Seq<RecordText>,
    AppError,
>
    decreases lines.len(),
{
    if lines.len() == 0 {
        Ok(Seq::<RecordText>::empty())
    } else {
        match ingested(lines.drop_last(), field_pos) {
            Err(e) => Err(e),
            Ok(before) => match parsed(lines.last(), field_pos) {
                Err(e) => Err(e),
                Ok(weight) => Ok(before.push(RecordText { line: lines.last(), weight })),
            },
        }
    }
}

/// True if the line at the position `index` is the first of `lines` that
/// does not parse.
pub open spec fn fails_first_at(lines: Seq<Seq<char>>, field_pos: nat, index: int) -> bool {
    &&& 0 <= index < lines.len()
    &&& parsed(lines[index], field_pos) is Err
    &&& forall|j: int| 0 <= j < index ==> (#[trigger] parsed(lines[j], field_pos)) is Ok
}

/// Reading succeeds on exactly the inputs whose every line parses. It then
/// gives one record for each line, in the order of the lines: the record
/// at a position holds the line at that position, unchanged, and the field
/// selected from it.
pub proof fn lemma_ingested_ok(lines: Seq<Seq<char>>, field_pos: nat)
    ensures
        ingested(lines, field_pos) is Ok <==> forall|i: int|
            0 <= i < lines.len() ==> (#[trigger] parsed(lines[i], field_pos)) is Ok,
        ingested(lines, field_pos) matches Ok(records) ==> {
            &&& records.len() == lines.len()
            &&& forall|i: int|
                0 <= i < lines.len() ==> (#[trigger] records[i]).line == lines[i] && parsed(
                    lines[i],
                    field_pos,
                ) == Ok::<Seq<char>, AppError>(records[i].weight)
        },
    decreases lines.len(),
{
    if lines.len() > 0 {
        let before = lines.drop_last();
        lemma_ingested_ok(before, field_pos);
        assert forall|i: int| 0 <= i < before.len() implies before[i] == lines[i] by {}
        if ingested(lines, field_pos) is Ok {
            assert forall|i: int| 0 <= i < lines.len() implies (#[trigger] parsed(
                lines[i],
                field_pos,
            )) is Ok by {
                if i < before.len() {
                    assert(parsed(before[i], field_pos) is Ok);
                }
            }
        } else if ingested(before, field_pos) is Err {
            let i = choose|i: int|
                0 <= i < before.len() && !((#[trigger] parsed(before[i], field_pos)) is Ok);
            assert(parsed(lines[i], field_pos) is Err);
        } else {
            assert(parsed(lines[lines.len() - 1], field_pos) is Err);
        }
    }
}

/// Reading fails with the error of the first line that does not parse.
pub proof fn lemma_ingested_err(lines: Seq<Seq<char>>, field_pos: nat)
    ensures
        ingested(lines, field_pos) matches Err(e) ==> exists|i: int|
            #[trigger] fails_first_at(lines, field_pos, i) && parsed(lines[i], field_pos) == Err::<
                Seq<char>,
                AppError,
            >(e),
    decreases lines.len(),
{
    if lines.len() > 0 {
        let before = lines.drop_last();
        lemma_ingested_err(before, field_pos);
        lemma_ingested_ok(before, field_pos);
        assert forall|i: int| 0 <= i < before.len() implies before[i] == lines[i] by {}
        match ingested(before, field_pos) {
            Err(e) => {
                let i = choose|i: int|
                    #[trigger] fails_first_at(before, field_pos, i) && parsed(before[i], field_pos)
                        == Err::<Seq<char>, AppError>(e);
                assert(fails_first_at(lines, field_pos, i)) by {
                    assert forall|j: int| 0 <= j < i implies (#[trigger] parsed(
                        lines[j],
                        field_pos,
                    )) is Ok by {
                        assert(parsed(before[j], field_pos) is Ok);
                    }
                }
            },
            Ok(_) => {
                if parsed(lines.last(), field_pos) is Err {
                    let i = lines.len() - 1;
                    assert(fails_first_at(lines, field_pos, i)) by {
                        assert forall|j: int| 0 <= j < i implies (#[trigger] parsed(
                            lines[j],
                            field_pos,
                        )) is Ok by {
                            assert(parsed(before[j], field_pos) is Ok);
                        }
                    }
                }
            },
        }
    }
}

/// The records of a run, in the order in which their lines were read, all
/// parsed at one field position.
#[derive(Debug)]
pub struct Records {
    field_pos: usize,
    items: Vec<Record>,
}

impl View for Records {
    type V = Seq<RecordText>;

    closed spec fn view(&self) -> Seq<RecordText> {
        Seq::new(self.items@.len(), |i: int| self.items@[i]@)
    }
}

impl Records {
    /// The field position at which every line is parsed.
    pub closed spec fn field_pos(&self) -> nat {
        self.field_pos as nat
    }

    /// Every record is what parsing its line at the field position gives.
    pub open spec fn valid(&self) -> bool {
        forall|i: int|
            0 <= i < self@.len() ==> parsed((#[trigger] self@[i]).line, self.field_pos()) == Ok::<
                Seq<char>,
                AppError,
            >(self@[i].weight)
    }

    /// No records yet, for lines to be parsed at `field_pos`.
    pub fn new(field_pos: usize) -> (records: Records)
        ensures
            records.valid(),
            records@ == Seq::<RecordText>::empty(),
            records.field_pos() == field_pos,
    {
        let records = Records { field_pos, items: Vec::new() };
        assert(records@ =~= Seq::<RecordText>::empty());
        records
    }

    /// Parses `line` and adds its record after those that are there. A line
    /// that does not parse changes nothing.
    pub fn push_line(&mut self, line: String) -> (outcome: Result<(), AppError>)
        requires
            old(self).valid(),
        ensures
            final(self).valid(),
            final(self).field_pos() == old(self).field_pos(),
            match parsed(line@, old(self).field_pos()) {
                Ok(weight) => outcome is Ok && final(self)@ == old(self)@.push(
                    RecordText { line: line@, weight },
                ),
                Err(e) => outcome == Err::<(), AppError>(e) && final(self)@ == old(self)@,
            },
    {
        match Record::parse(line, self.field_pos) {
            Ok(record) => {
                self.items.push(record);
                assert(self@ =~= old(self)@.push(record@));
                Ok(())
            },
            Err(e) => Err(e),
        }
    }

    /// The number of records.
    pub fn len(&self) -> (len: usize)
        ensures
            len == self@.len(),
    {
        self.items.len()
    }

    /// The record at the position `index`.
    pub fn get(&self, index: usize) -> (record: &Record)
        requires
            index < self@.len(),
        ensures
            record@ == self@[index as int],
    {
        &self.items[index]
    }
}

/// Reads `lines` in order, each parsed at `field_pos`. The outcome is all
/// or nothing: a record for every line, or the error of the first line that
/// does not parse.
pub fn ingest(lines: Vec<String>, field_pos: usize) -> (outcome: Result<Records, AppError>)
    ensures
        match ingested(texts(lines@), field_pos as nat) {
            Ok(records) => outcome matches Ok(read) && read.valid() && read@ == records
                && read.field_pos() == field_pos,
            Err(e) => outcome == Err::<Records, AppError>(e),
        },
        outcome matches Ok(read) ==> read@.len() == lines.len() && forall|i: int|
            0 <= i < lines.len() ==> (#[trigger] read@[i]).line == lines[i]@,
{
    proof {
        lemma_ingested_ok(texts(lines@), field_pos as nat);
    }
    let ghost all = texts(lines@);
    let mut records = Records::new(field_pos);
    for line in it: lines
        invariant
            texts(it.seq()) == all,
            records.valid(),
            records.field_pos() == field_pos,
            ingested(all.take(it.index()), field_pos as nat) == Ok::<Seq<RecordText>, AppError>(
                records@,
            ),
    {
        proof {
            assert(all.take(it.index() + 1).drop_last() =~= all.take(it.index()));
            assert(all[it.index()] == line@);
        }
        match records.push_line(line) {
            Ok(()) => {},
            Err(e) => {
                proof {
                    lemma_ingested_stops(all.take(it.index() + 1), all, field_pos as nat);
                }
                return Err(e);
            },
        }
    }
    assert(all.take(all.len() as int) =~= all);
    Ok(records)
}

/// Once the lines read so far have failed, the lines that follow do not
/// matter.
proof fn lemma_ingested_stops(read: Seq<Seq<char>>, all: Seq<Seq<char>>, field_pos: nat)
    requires
        read.len() <= all.len(),
        all.take(read.len() as int) == read,
        ingested(read, field_pos) is Err,
    ensures
        ingested(all, field_pos) == ingested(read, field_pos),
    decreases all.len(),
{
    if read.len() < all.len() {
        assert(all.drop_last().take(read.len() as int) =~= read);
        lemma_ingested_stops(read, all.drop_last(), field_pos);
    } else {
        assert(all =~= read);
    }
}

} // verus!
