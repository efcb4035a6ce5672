use vstd::prelude::*;
use crate::decimal::{parse_u32, parse_u32_spec};
use crate::fields::{line_fields, split_line, views};

verus! {

/// A field that every record must have.
#[derive(Debug, Clone, Copy, PartialEq, Eq, Structural)]
pub enum RequiredField {
    Start,
    End,
    Name,
    Score,
}

/// Why a line, or the column setting, cannot be used.
#[derive(Debug, Clone, Copy, PartialEq, Eq, Structural)]
pub enum BedError {
    /// The line ends before this field.
    MalformedRecord(RequiredField),
    /// This coordinate field is not an unsigned 32-bit decimal number.
    InvalidCoordinate(RequiredField),
    /// The column setting is neither `score` nor a column index.
    InvalidColumnIndex,
    /// The column setting is a negative number.
    NegativeColumnIndex,
    /// The first record has no value column at this index.
    ColumnOutOfRange(usize),
    /// A later record has no value column at this index.
    MissingValue(usize),
}

/// One interval record: the fields of one tab-separated line. The score is
/// kept as its text; fields after the score are the value columns.
#[derive(Debug)]
pub struct BedRecord {
    pub chrom: String,
    pub start: u32,
    pub end: u32,
    pub name: String,
    pub score: String,
    pub values: Vec<String>,
}

/// The contents of a `BedRecord`.
pub ghost struct BedRecordView {
    pub chrom: Seq<char>,
    pub start: u32,
    pub end: u32,
    pub name: Seq<char>,
    pub score: Seq<char>,
    pub values: Seq<Seq<char>>,
}

impl View for BedRecord {
    type V = BedRecordView;

    open spec fn view(&self) -> BedRecordView {
        BedRecordView {
            chrom: self.chrom@,
            start: self.start,
            end: self.end,
            name: self.name@,
            score: self.score@,
            values: views(self.values@),
        }
    }
}

/// The first required field that a line of `n` fields lacks.
pub open spec fn missing_field(n: nat) -> RequiredField {
    if n <= 1 {
        RequiredField::Start
    } else if n == 2 {
        RequiredField::End
    } else if n == 3 {
        RequiredField::Name
    } else {
        RequiredField::Score
    }
}

/// The record that the fields `f` of a line describe, or why there is none.
pub open spec fn record_of_fields(f: Seq<Seq<char>>) -> Result<BedRecordView, BedError> {
    if f.len() < 5 {
        Err(BedError::MalformedRecord(missing_field(f.len())))
    } else if parse_u32_spec(f[1]) is None {
        Err(BedError::InvalidCoordinate(RequiredField::Start))
    } else if parse_u32_spec(f[2]) is None {
        Err(BedError::InvalidCoordinate(RequiredField::End))
    } else {
        Ok(
            BedRecordView {
                chrom: f[0],
                start: parse_u32_spec(f[1])->0,
                end: parse_u32_spec(f[2])->0,
                name: f[3],
                score: f[4],
                values: f.subrange(5, f.len() as int),
            },
        )
    }
}

/// The record on one input line, or why there is none.
pub open spec fn record_of_line(line: Seq<char>) -> Result<BedRecordView, BedError> {
    record_of_fields(line_fields(line))
}

/// Reads one input line (with or without its line terminator) as a record.
pub fn parse_record(line: &str) -> (r: Result<BedRecord, BedError>)
    ensures
        match r {
            Ok(rec) => record_of_line(line@) == Ok::<BedRecordView, BedError>(rec@),
            Err(e) => record_of_line(line@) == Err::<BedRecordView, BedError>(e),
        },
{
    let fields = split_line(line);
    let ghost f = views(fields@);
    let n = fields.len();
    if n < 5 {
        let missing = if n <= 1 {
            RequiredField::Start
        } else if n == 2 {
            RequiredField::End
        } else if n == 3 {
            RequiredField::Name
        } else {
            RequiredField::Score
        };
        return Err(BedError::MalformedRecord(missing));
    }
    let start = match parse_u32(fields[1].as_str()) {
        Some(v) => v,
        None => {
            return Err(BedError::InvalidCoordinate(RequiredField::Start));
        },
    };
    let end = match parse_u32(fields[2].as_str()) {
        Some(v) => v,
        None => {
            return Err(BedError::InvalidCoordinate(RequiredField::End));
        },
    };
    let mut values: Vec<String> = Vec::new();
    let mut i: usize = 5;
    while i < n
        invariant
            5 <= i <= n,
            n == fields@.len(),
            f == views(fields@),
            views(values@) == f.subrange(5, i as int),
        decreases n - i,
    {
        let v = fields[i].clone();
        assert(v@ == f[i as int]);
        let ghost before = values@;
        values.push(v);
        assert(views(values@) =~= views(before).push(v@));
        assert(f.subrange(5, i + 1) =~= f.subrange(5, i as int).push(f[i as int]));
        i = i + 1;
    }
    let rec = BedRecord {
        chrom: fields[0].clone(),
        start,
        end,
        name: fields[3].clone(),
        score: fields[4].clone(),
        values,
    };
    assert(rec@.values =~= f.subrange(5, n as int));
    Ok(rec)
}

} // verus!
