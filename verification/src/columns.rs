//! Delimited text with two or three numeric columns.
//!
//! Every line that is neither blank nor a comment is a row. A row is a point
//! when its first two fields are finite numbers; a third field that is a number
//! is the point's uncertainty. The uncertainties are kept only if every point
//! has one.
use crate::error::GeddesError;
use crate::numbers::{is_finite_number, read_number_rows, reads_any, rows_read_by, value_rows};
use crate::pattern::{Axis, AxisModel, ParsedPattern, PatternModel};
use crate::ieee::f64_finite;
use crate::text::{
    fields, find_first_visible, first_visible, line_texts, read_lines, split_fields, text_lines,
    texts,
};
use vstd::prelude::*;

verus! {

/// How the rows of a text-column format are read.
#[derive(Debug, Clone, Copy, PartialEq, Eq, Structural)]
pub struct ColumnRules {
    /// Commas separate fields, as white space does.
    pub commas: bool,
    /// Lines that begin with `#` or `!` are comments.
    pub comments: bool,
    /// Number of leading fields of a row that are read.
    pub width: usize,
    /// A third column holds uncertainties.
    pub uncertainty: bool,
}

/// The rules of plain two- or three-column files.
pub open spec fn xy_rules() -> ColumnRules {
    ColumnRules { commas: false, comments: true, width: 3, uncertainty: true }
}

/// The rules of comma-separated files.
pub open spec fn csv_rules() -> ColumnRules {
    ColumnRules { commas: true, comments: true, width: 3, uncertainty: true }
}

/// The rules of the two-column profile inside an archive.
pub open spec fn profile_rules() -> ColumnRules {
    ColumnRules { commas: false, comments: false, width: 2, uncertainty: false }
}

/// A line that holds a row: it is not blank, and it is no comment.
pub open spec fn is_data_line(line: Seq<char>, comments: bool) -> bool {
    match first_visible(line) {
        None => false,
        Some(c) => !(comments && (c == '#' || c == '!')),
    }
}

/// The leading fields of a line, at most `width` of them.
pub open spec fn leading_fields(line: Seq<char>, rules: ColumnRules) -> Seq<Seq<char>> {
    let all = fields(line, rules.commas);
    if all.len() > rules.width {
        all.take(rules.width as int)
    } else {
        all
    }
}

/// The rows of a text: the leading fields of every data line, in order; `None`
/// where a line could not be decoded.
pub open spec fn rows_of(lines: Seq<Option<Seq<char>>>, rules: ColumnRules) -> Option<
    Seq<Seq<Seq<char>>>,
>
    decreases lines.len(),
{
    if lines.len() == 0 {
        Some(Seq::empty())
    } else {
        match (rows_of(lines.drop_last(), rules), lines.last()) {
            (Some(rows), Some(line)) => if is_data_line(line, rules.comments) {
                Some(rows.push(leading_fields(line, rules)))
            } else {
                Some(rows)
            },
            _ => None,
        }
    }
}

/// The views of a list of rows of fields.
pub open spec fn field_rows(rows: Seq<Vec<Vec<char>>>) -> Seq<Seq<Seq<char>>> {
    Seq::new(rows.len(), |i: int| texts(rows[i]@))
}

/// The message of the failure to decode a line.
pub open spec fn invalid_text() -> Seq<char> {
    "stream did not contain valid UTF-8"@
}

/// Cuts a text into rows of fields.
pub fn column_rows(buf: &[u8], rules: ColumnRules) -> (r: Result<Vec<Vec<Vec<char>>>, GeddesError>)
    ensures
        match rows_of(text_lines(buf@), rules) {
            Some(rows) => r matches Ok(found) && field_rows(found@) == rows,
            None => r matches Err(GeddesError::Io(text)) && text@ == invalid_text(),
        },
{
    let lines: Vec<Option<Vec<char>>> = read_lines(buf);
    let ghost all = text_lines(buf@);
    let mut rows: Vec<Vec<Vec<char>>> = Vec::new();
    let mut i: usize = 0;
    while i < lines.len()
        invariant
            i <= lines@.len(),
            line_texts(lines@) == all,
            all == text_lines(buf@),
            rows_of(all.take(i as int), rules) == Some(field_rows(rows@)),
        decreases lines@.len() - i,
    {
        proof {
            assert(all.take(i + 1).drop_last() =~= all.take(i as int));
            assert(all.take(i + 1).last() == all[i as int]);
        }
        match &lines[i] {
            None => {
                proof {
                    assert(line_texts(lines@)[i as int] is None);
                    lemma_rows_fail(all, rules, i as int);
                }
                return Err(GeddesError::Io("stream did not contain valid UTF-8".to_owned()));
            },
            Some(line) => {
                let data: bool = match find_first_visible(line) {
                    None => false,
                    Some(c) => !(rules.comments && (c == '#' || c == '!')),
                };
                if data {
                    let mut row: Vec<Vec<char>> = split_fields(line, rules.commas);
                    let ghost whole = texts(row@);
                    if row.len() > rules.width {
                        row.truncate(rules.width);
                        assert(texts(row@) =~= whole.take(rules.width as int));
                    }
                    assert(field_rows(rows@.push(row)) =~= field_rows(rows@).push(texts(row@)));
                    rows.push(row);
                }
            },
        }
        i = i + 1;
    }
    proof {
        assert(all.take(i as int) =~= all);
    }
    Ok(rows)
}

/// Once a line cannot be decoded, no longer text has rows.
pub proof fn lemma_rows_fail(lines: Seq<Option<Seq<char>>>, rules: ColumnRules, at: int)
    requires
        0 <= at < lines.len(),
        lines[at] is None,
    ensures
        rows_of(lines, rules) is None,
    decreases lines.len(),
{
    if at < lines.len() - 1 {
        lemma_rows_fail(lines.drop_last(), rules, at);
    }
}

/// A row is a point: its first two fields are finite numbers.
pub open spec fn is_point(row: Seq<Option<u64>>) -> bool {
    row.len() >= 2 && is_finite_number(row[0]) && is_finite_number(row[1])
}

/// A point with an uncertainty: its third field is a number.
pub open spec fn has_uncertainty(row: Seq<Option<u64>>) -> bool {
    is_point(row) && row.len() >= 3 && row[2] is Some
}

/// The first column: the first field of every point.
pub open spec fn column_x(rows: Seq<Seq<Option<u64>>>) -> Seq<u64>
    decreases rows.len(),
{
    if rows.len() == 0 {
        Seq::empty()
    } else if is_point(rows.last()) {
        column_x(rows.drop_last()).push(rows.last()[0]->0)
    } else {
        column_x(rows.drop_last())
    }
}

/// The second column: the second field of every point.
pub open spec fn column_y(rows: Seq<Seq<Option<u64>>>) -> Seq<u64>
    decreases rows.len(),
{
    if rows.len() == 0 {
        Seq::empty()
    } else if is_point(rows.last()) {
        column_y(rows.drop_last()).push(rows.last()[1]->0)
    } else {
        column_y(rows.drop_last())
    }
}

/// The third column: the third field of every point that has one.
pub open spec fn column_e(rows: Seq<Seq<Option<u64>>>) -> Seq<u64>
    decreases rows.len(),
{
    if rows.len() == 0 {
        Seq::empty()
    } else if has_uncertainty(rows.last()) {
        column_e(rows.drop_last()).push(rows.last()[2]->0)
    } else {
        column_e(rows.drop_last())
    }
}

/// The pattern that rows of values make. The third column is attached only
/// where the format has one, it is not empty, and it is as long as the others.
pub open spec fn columns_model(rows: Seq<Seq<Option<u64>>>, uncertainty: bool) -> PatternModel {
    let x = column_x(rows);
    let e = column_e(rows);
    PatternModel {
        x: AxisModel::Listed(x),
        y: column_y(rows),
        e: if uncertainty && e.len() > 0 && e.len() == x.len() {
            Some(e)
        } else {
            None
        },
    }
}

/// Adds the point of one row, if it is one, to the three columns.
pub fn parse_columns(
    row: &Vec<Option<u64>>,
    x: &mut Vec<u64>,
    y: &mut Vec<u64>,
    e: &mut Vec<u64>,
)
    ensures
        final(x)@ == if is_point(row@) {
            old(x)@.push(row@[0]->0)
        } else {
            old(x)@
        },
        final(y)@ == if is_point(row@) {
            old(y)@.push(row@[1]->0)
        } else {
            old(y)@
        },
        final(e)@ == if has_uncertainty(row@) {
            old(e)@.push(row@[2]->0)
        } else {
            old(e)@
        },
{
    if row.len() >= 2 {
        if let (Some(value_x), Some(value_y)) = (row[0], row[1]) {
            if f64_finite(value_x) && f64_finite(value_y) {
                x.push(value_x);
                y.push(value_y);
                if row.len() >= 3 {
                    if let Some(value_e) = row[2] {
                        e.push(value_e);
                    }
                }
            }
        }
    }
}

/// Makes the pattern of rows of values.
pub fn columns_pattern(rows: &Vec<Vec<Option<u64>>>, uncertainty: bool) -> (r: ParsedPattern)
    ensures
        r@ == columns_model(value_rows(rows@), uncertainty),
        r.well_formed(),
{
    let mut x: Vec<u64> = Vec::new();
    let mut y: Vec<u64> = Vec::new();
    let mut e: Vec<u64> = Vec::new();
    let ghost all = value_rows(rows@);
    let mut i: usize = 0;
    while i < rows.len()
        invariant
            i <= rows@.len(),
            all == value_rows(rows@),
            x@ == column_x(all.take(i as int)),
            y@ == column_y(all.take(i as int)),
            e@ == column_e(all.take(i as int)),
            x@.len() == y@.len(),
        decreases rows@.len() - i,
    {
        proof {
            assert(all.take(i + 1).drop_last() =~= all.take(i as int));
            assert(all.take(i + 1).last() == rows@[i as int]@);
        }
        parse_columns(&rows[i], &mut x, &mut y, &mut e);
        i = i + 1;
    }
    proof {
        assert(all.take(i as int) =~= all);
    }
    let attach: bool = uncertainty && e.len() > 0 && e.len() == x.len();
    ParsedPattern {
        x: Axis::Listed(x),
        y,
        e: if attach {
            Some(e)
        } else {
            None
        },
    }
}

/// What decoding a text-column file with `number` as the reader of numbers
/// results in: the pattern of the rows, for some answers of `number` to their
/// fields.
pub open spec fn columns_decoded<F: Fn(&Vec<char>) -> Option<u64>>(
    buf: Seq<u8>,
    rules: ColumnRules,
    number: &F,
    r: Result<ParsedPattern, GeddesError>,
) -> bool {
    match rows_of(text_lines(buf), rules) {
        None => r matches Err(GeddesError::Io(text)) && text@ == invalid_text(),
        Some(rows) => r matches Ok(pattern) && exists|
            found: Seq<Vec<Vec<char>>>,
            values: Seq<Vec<Option<u64>>>,
        |
            {
                &&& field_rows(found) == rows
                &&& rows_read_by(number, found, values)
                &&& pattern@ == columns_model(value_rows(values), rules.uncertainty)
            },
    }
}

/// Decodes a text-column file under the given rules.
pub fn parse_delimited<F: Fn(&Vec<char>) -> Option<u64>>(
    buf: &[u8],
    rules: ColumnRules,
    number: &F,
) -> (r: Result<ParsedPattern, GeddesError>)
    requires
        reads_any(number),
    ensures
        columns_decoded(buf@, rules, number, r),
        r matches Ok(pattern) ==> pattern.well_formed(),
{
    let found: Vec<Vec<Vec<char>>> = match column_rows(buf, rules) {
        Ok(found) => found,
        Err(e) => return Err(e),
    };
    let values: Vec<Vec<Option<u64>>> = read_number_rows(&found, number);
    Ok(columns_pattern(&values, rules.uncertainty))
}

/// Decodes a plain file of two or three columns separated by white space.
/// Lines that begin with `#` or `!` are comments.
pub fn parse_xy<F: Fn(&Vec<char>) -> Option<u64>>(buf: &[u8], number: &F) -> (r: Result<
    ParsedPattern,
    GeddesError,
>)
    requires
        reads_any(number),
    ensures
        columns_decoded(buf@, xy_rules(), number, r),
        r matches Ok(pattern) ==> pattern.well_formed(),
{
    parse_delimited(
        buf,
        ColumnRules { commas: false, comments: true, width: 3, uncertainty: true },
        number,
    )
}

/// Decodes a file of two or three columns separated by commas or white space.
/// Lines that begin with `#` or `!` are comments.
pub fn parse_csv<F: Fn(&Vec<char>) -> Option<u64>>(buf: &[u8], number: &F) -> (r: Result<
    ParsedPattern,
    GeddesError,
>)
    requires
        reads_any(number),
    ensures
        columns_decoded(buf@, csv_rules(), number, r),
        r matches Ok(pattern) ==> pattern.well_formed(),
{
    parse_delimited(
        buf,
        ColumnRules { commas: true, comments: true, width: 3, uncertainty: true },
        number,
    )
}

/// Some row is a point.
pub open spec fn has_point(rows: Seq<Seq<Option<u64>>>) -> bool {
    exists|i: int| 0 <= i < rows.len() && is_point(#[trigger] rows[i])
}

/// Every row that is a point has an uncertainty.
pub open spec fn every_point_has_uncertainty(rows: Seq<Seq<Option<u64>>>) -> bool {
    forall|i: int| 0 <= i < rows.len() && is_point(#[trigger] rows[i]) ==> has_uncertainty(rows[i])
}

/// The first two columns are equally long, with one entry for each point, and
/// the third is never longer; it is as long exactly when every point has an
/// uncertainty.
pub proof fn lemma_column_lengths(rows: Seq<Seq<Option<u64>>>)
    ensures
        column_x(rows).len() == column_y(rows).len(),
        column_e(rows).len() <= column_x(rows).len(),
        column_e(rows).len() == column_x(rows).len() <==> every_point_has_uncertainty(rows),
        column_x(rows).len() > 0 <==> has_point(rows),
    decreases rows.len(),
{
    if rows.len() > 0 {
        let before = rows.drop_last();
        lemma_column_lengths(before);
        assert forall|i: int| 0 <= i < before.len() implies before[i] == rows[i] by {}
        if every_point_has_uncertainty(rows) {
            assert forall|i: int| 0 <= i < before.len() && is_point(
                #[trigger] before[i],
            ) implies has_uncertainty(before[i]) by {
                assert(before[i] == rows[i]);
            }
        }
        if every_point_has_uncertainty(before) && (is_point(rows.last()) ==> has_uncertainty(
            rows.last(),
        )) {
            assert forall|i: int| 0 <= i < rows.len() && is_point(
                #[trigger] rows[i],
            ) implies has_uncertainty(rows[i]) by {
                if i < before.len() {
                    assert(before[i] == rows[i]);
                }
            }
        }
        if !every_point_has_uncertainty(before) {
            let i = choose|i: int|
                0 <= i < before.len() && is_point(#[trigger] before[i]) && !has_uncertainty(
                    before[i],
                );
            assert(rows[i] == before[i]);
        }
        if has_point(before) {
            let i = choose|i: int| 0 <= i < before.len() && is_point(#[trigger] before[i]);
            assert(is_point(rows[i]));
        }
        if has_point(rows) && !is_point(rows.last()) {
            let i = choose|i: int| 0 <= i < rows.len() && is_point(#[trigger] rows[i]);
            assert(is_point(before[i]));
        }
        if is_point(rows.last()) {
            assert(is_point(rows[rows.len() - 1]));
        }
    }
}

/// Uncertainties are kept all or not at all: where there is a point and every
/// point has an uncertainty, the pattern has one uncertainty for each point;
/// where a single point lacks one, the pattern has none.
pub proof fn lemma_uncertainty_all_or_nothing(rows: Seq<Seq<Option<u64>>>)
    ensures
        has_point(rows) && every_point_has_uncertainty(rows) ==> columns_model(rows, true).e
            == Some(column_e(rows)) && column_e(rows).len() == column_x(rows).len(),
        !every_point_has_uncertainty(rows) ==> columns_model(rows, true).e is None,
        columns_model(rows, true).well_formed(),
        columns_model(rows, false).e is None,
{
    lemma_column_lengths(rows);
}

/// A blank line adds no row, and under rules with comments a line whose first
/// visible character is `#` or `!` adds none either: such lines never
/// contribute a point.
pub proof fn lemma_blank_and_comment_lines_add_no_row(
    lines: Seq<Option<Seq<char>>>,
    line: Seq<char>,
    rules: ColumnRules,
)
    requires
        first_visible(line) is None || (rules.comments && (first_visible(line) == Some('#')
            || first_visible(line) == Some('!'))),
    ensures
        rows_of(lines.push(Some(line)), rules) == rows_of(lines, rules),
{
    assert(lines.push(Some(line)).drop_last() =~= lines);
}

} // verus!
