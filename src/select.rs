use vstd::prelude::*;
use crate::decimal::{all_digits, is_digit, parse_u32, parse_u32_spec};
use crate::fields::chars_of;
use crate::record::{BedError, BedRecord, BedRecordView};

verus! {

/// Which field of a record gives the graphed value.
#[derive(Debug, Clone, Copy, PartialEq, Eq, Structural)]
pub enum ColumnSelector {
    /// The score field.
    Score,
    /// The value column at this 0-based index; the first value column is the
    /// field after the score.
    Index(usize),
}

/// The largest column index that the setting accepts.
pub const MAX_COLUMN_INDEX: u32 = 2147483647;

/// The keyword that selects the score field.
pub open spec fn score_keyword() -> Seq<char> {
    seq!['s', 'c', 'o', 'r', 'e']
}

/// Whether `t` is a minus sign followed by one or more digits.
pub open spec fn is_negative_number(t: Seq<char>) -> bool {
    t.len() >= 2 && t[0] == '-' && all_digits(t.drop_first())
}

/// The selector that the setting `t` names, or why it names none.
pub open spec fn selector_of(t: Seq<char>) -> Result<ColumnSelector, BedError> {
    if t == score_keyword() {
        Ok(ColumnSelector::Score)
    } else if is_negative_number(t) {
        Err(BedError::NegativeColumnIndex)
    } else if parse_u32_spec(t) is Some && parse_u32_spec(t)->0 <= MAX_COLUMN_INDEX {
        Ok(ColumnSelector::Index(parse_u32_spec(t)->0 as usize))
    } else {
        Err(BedError::InvalidColumnIndex)
    }
}

/// Reads the column setting: the keyword `score`, or a column index.
pub fn parse_column_selector(token: &str) -> (r: Result<ColumnSelector, BedError>)
    ensures
        r == selector_of(token@),
{
    let cs = chars_of(token);
    let n = cs.len();
    if n == 5 && cs[0] == 's' && cs[1] == 'c' && cs[2] == 'o' && cs[3] == 'r' && cs[4] == 'e' {
        assert(token@ =~= score_keyword());
        return Ok(ColumnSelector::Score);
    }
    if n >= 2 && cs[0] == '-' {
        let mut i: usize = 1;
        let mut digits = true;
        while i < n
            invariant
                1 <= i <= n,
                n == cs@.len(),
                digits == all_digits(cs@.drop_first().subrange(0, i - 1)),
            decreases n - i,
        {
            let c = cs[i];
            let ghost p = cs@.drop_first().subrange(0, i - 1);
            let ghost q = cs@.drop_first().subrange(0, i as int);
            assert(q =~= p.push(c));
            assert(forall|j: int| 0 <= j < p.len() ==> q[j] == p[j]);
            assert(q[p.len() as int] == c);
            if !('0' <= c && c <= '9') {
                digits = false;
                assert(!is_digit(q[p.len() as int]));
            } else if digits {
                assert(forall|j: int| 0 <= j < q.len() ==> is_digit(#[trigger] q[j]));
            } else {
                let ghost w = choose|j: int| 0 <= j < p.len() && !is_digit(#[trigger] p[j]);
                assert(!is_digit(q[w]));
            }
            i = i + 1;
        }
        assert(cs@.drop_first().subrange(0, n - 1) =~= cs@.drop_first());
        if digits {
            return Err(BedError::NegativeColumnIndex);
        }
    }
    match parse_u32(token) {
        Some(v) => {
            if v <= MAX_COLUMN_INDEX {
                Ok(ColumnSelector::Index(v as usize))
            } else {
                Err(BedError::InvalidColumnIndex)
            }
        },
        None => Err(BedError::InvalidColumnIndex),
    }
}

/// The text of the field that gives a record's value. The score is read
/// leniently (text that is not a number counts as zero); a value column must
/// hold a number.
#[derive(Debug, PartialEq, Eq)]
pub enum SelectedValue {
    Score(String),
    Column(String),
}

/// The value that `column` picks from `rec`, or why there is none. Whether the
/// index lies in range is checked against the first record only: a later
/// record that lacks the column is an error of its own.
pub open spec fn selection_of(
    column: ColumnSelector,
    first_done: bool,
    rec: BedRecordView,
) -> Result<Seq<char>, BedError> {
    match column {
        ColumnSelector::Score => Ok(rec.score),
        ColumnSelector::Index(i) => {
            if i < rec.values.len() {
                Ok(rec.values[i as int])
            } else if first_done {
                Err(BedError::MissingValue(i))
            } else {
                Err(BedError::ColumnOutOfRange(i))
            }
        },
    }
}

/// Picks one value per record, checking the column index once, on the first
/// record.
#[derive(Debug)]
pub struct ValueSelector {
    pub column: ColumnSelector,
    /// Whether a record has already been selected from.
    pub first_done: bool,
}

impl ValueSelector {
    pub fn new(column: ColumnSelector) -> (r: ValueSelector)
        ensures
            r.column == column,
            !r.first_done,
    {
        ValueSelector { column, first_done: false }
    }

    /// The text of the selected field of `rec`.
    pub fn select(&mut self, rec: &BedRecord) -> (r: Result<SelectedValue, BedError>)
        ensures
            final(self).column == old(self).column,
            final(self).first_done == (old(self).first_done || r is Ok),
            match r {
                Ok(SelectedValue::Score(t)) => old(self).column == ColumnSelector::Score
                    && selection_of(old(self).column, old(self).first_done, rec@) == Ok::<
                    Seq<char>,
                    BedError,
                >(t@),
                Ok(SelectedValue::Column(t)) => old(self).column is Index && selection_of(
                    old(self).column,
                    old(self).first_done,
                    rec@,
                ) == Ok::<Seq<char>, BedError>(t@),
                Err(e) => selection_of(old(self).column, old(self).first_done, rec@) == Err::<
                    Seq<char>,
                    BedError,
                >(e),
            },
    {
        let r = match self.column {
            ColumnSelector::Score => Ok(SelectedValue::Score(rec.score.clone())),
            ColumnSelector::Index(i) => {
                if i < rec.values.len() {
                    Ok(SelectedValue::Column(rec.values[i].clone()))
                } else if self.first_done {
                    Err(BedError::MissingValue(i))
                } else {
                    Err(BedError::ColumnOutOfRange(i))
                }
            },
        };
        if r.is_ok() {
            self.first_done = true;
        }
        r
    }
}

} // verus!
