//! GSAS-style RAW text: a `BANK` header line that gives the origin and the
//! step of the scan in hundredths of a degree, followed by the intensities as
//! a free stream of numbers.
use crate::columns::invalid_text;
use crate::error::{parse_error, GeddesError};
use crate::numbers::{collect_numbers, numbers_of, read_by, read_numbers, reads_any};
use crate::pattern::{Axis, AxisModel, ParsedPattern, PatternModel};
use crate::text::{begins_with, fields, line_texts, read_lines, split_fields, text_lines, texts};
use vstd::prelude::*;

verus! {

/// The word that begins a header line.
pub open spec fn bank() -> Seq<char> {
    seq!['B', 'A', 'N', 'K']
}

/// Fewest fields of a header line.
pub const HEADER_FIELDS: usize = 7;

/// Index of the field of a header line that holds the origin of the scan.
pub const START_FIELD: usize = 5;

/// Index of the field of a header line that holds the step of the scan.
pub const STEP_FIELD: usize = 6;

/// A line that begins with `BANK`.
pub open spec fn is_bank_line(line: Seq<char>) -> bool {
    begins_with(line, bank())
}

/// A header line: it begins with `BANK` and has at least seven fields.
pub open spec fn is_header(line: Seq<char>) -> bool {
    is_bank_line(line) && fields(line, false).len() >= HEADER_FIELDS
}

/// How the search for the header ends.
pub enum HeaderSearch {
    /// The header is the line of this index.
    Found(int),
    /// No line is a header.
    Missing,
    /// A line before any header could not be decoded.
    Undecodable,
}

/// Searches the lines from index `from` on for the first header.
pub open spec fn find_header(lines: Seq<Option<Seq<char>>>, from: int) -> HeaderSearch
    decreases lines.len() - from,
{
    if from < 0 || from >= lines.len() {
        HeaderSearch::Missing
    } else {
        match lines[from] {
            None => HeaderSearch::Undecodable,
            Some(line) => if is_header(line) {
                HeaderSearch::Found(from)
            } else {
                find_header(lines, from + 1)
            },
        }
    }
}

/// The fields of the data lines from index `from` on, up to the next line that
/// begins with `BANK`, a line that cannot be decoded, or the end.
pub open spec fn data_fields(lines: Seq<Option<Seq<char>>>, from: int) -> Seq<Seq<char>>
    decreases lines.len() - from,
{
    if from < 0 || from >= lines.len() {
        Seq::empty()
    } else {
        match lines[from] {
            None => Seq::empty(),
            Some(line) => if is_bank_line(line) {
                Seq::empty()
            } else {
                fields(line, false) + data_fields(lines, from + 1)
            },
        }
    }
}

/// The data lines from index `from` on end at a line that begins with `BANK`
/// or at the end of the text, not at a line that cannot be decoded.
pub open spec fn data_complete(lines: Seq<Option<Seq<char>>>, from: int) -> bool
    decreases lines.len() - from,
{
    if from < 0 || from >= lines.len() {
        true
    } else {
        match lines[from] {
            None => false,
            Some(line) => is_bank_line(line) || data_complete(lines, from + 1),
        }
    }
}

/// The fields of a GSAS text that are to be read as numbers.
pub struct GsasScan {
    /// The header field that holds the origin.
    pub start: Vec<char>,
    /// The header field that holds the step.
    pub step: Vec<char>,
    /// The fields of the data lines, in order.
    pub data: Vec<Vec<char>>,
    /// False where the data lines end at a line that could not be decoded.
    pub complete: bool,
}

/// What a `GsasScan` holds, as a mathematical value.
pub struct GsasScanModel {
    pub start: Seq<char>,
    pub step: Seq<char>,
    pub data: Seq<Seq<char>>,
    pub complete: bool,
}

impl View for GsasScan {
    type V = GsasScanModel;

    open spec fn view(&self) -> GsasScanModel {
        GsasScanModel {
            start: self.start@,
            step: self.step@,
            data: texts(self.data@),
            complete: self.complete,
        }
    }
}

/// The message of the failure to find a header.
pub open spec fn header_missing() -> Seq<char> {
    "BANK header not found in RAW file"@
}

/// What scanning the lines of a text results in.
pub open spec fn gsas_scanned(
    lines: Seq<Option<Seq<char>>>,
    r: Result<GsasScan, GeddesError>,
) -> bool {
    match find_header(lines, 0) {
        HeaderSearch::Undecodable => r matches Err(GeddesError::Io(text)) && text@
            == invalid_text(),
        HeaderSearch::Missing => r matches Err(e) && e.is_parse(header_missing()),
        HeaderSearch::Found(at) => r matches Ok(scan) && scan@ == (GsasScanModel {
            start: fields(lines[at]->0, false)[START_FIELD as int],
            step: fields(lines[at]->0, false)[STEP_FIELD as int],
            data: data_fields(lines, at + 1),
            complete: data_complete(lines, at + 1),
        }),
    }
}

/// Tells whether a line begins with `BANK`.
pub fn begins_with_bank(line: &Vec<char>) -> (r: bool)
    ensures
        r == is_bank_line(line@),
{
    if line.len() < 4 {
        return false;
    }
    let r: bool = line[0] == 'B' && line[1] == 'A' && line[2] == 'N' && line[3] == 'K';
    proof {
        let head = line@.subrange(0, 4);
        if r {
            assert(head =~= bank());
        } else {
            assert(head[0] == line@[0] && head[1] == line@[1] && head[2] == line@[2] && head[3]
                == line@[3]);
        }
    }
    r
}

/// Copies a field.
fn copy_field(field: &Vec<char>) -> (r: Vec<char>)
    ensures
        r@ == field@,
{
    let mut copy: Vec<char> = Vec::new();
    let mut i: usize = 0;
    while i < field.len()
        invariant
            i <= field@.len(),
            copy@ == field@.take(i as int),
        decreases field@.len() - i,
    {
        copy.push(field[i]);
        assert(field@.take(i + 1) =~= field@.take(i as int).push(field@[i as int]));
        i = i + 1;
    }
    assert(field@.take(i as int) =~= field@);
    copy
}

/// Finds the header of a GSAS text and collects the fields that are to be
/// read as numbers: origin and step from the header, and every field of the
/// lines after it, up to the next line that begins with `BANK`.
pub fn gsas_scan(buf: &[u8]) -> (r: Result<GsasScan, GeddesError>)
    ensures
        gsas_scanned(text_lines(buf@), r),
{
    let lines: Vec<Option<Vec<char>>> = read_lines(buf);
    let ghost all = text_lines(buf@);
    let mut i: usize = 0;
    let mut start: Vec<char> = Vec::new();
    let mut step: Vec<char> = Vec::new();
    let mut found: bool = false;
    while !found && i < lines.len()
        invariant
            i <= lines@.len(),
            line_texts(lines@) == all,
            all == text_lines(buf@),
            !found ==> find_header(all, 0) == find_header(all, i as int),
            found ==> i > 0 && find_header(all, 0) == HeaderSearch::Found(i - 1) && start@
                == fields(all[i - 1]->0, false)[START_FIELD as int] && step@ == fields(
                all[i - 1]->0,
                false,
            )[STEP_FIELD as int],
        decreases lines@.len() - i,
    {
        assert(line_texts(lines@)[i as int] == all[i as int]);
        match &lines[i] {
            None => {
                return Err(GeddesError::Io("stream did not contain valid UTF-8".to_owned()));
            },
            Some(line) => {
                if begins_with_bank(line) {
                    let parts: Vec<Vec<char>> = split_fields(line, false);
                    if parts.len() >= HEADER_FIELDS {
                        assert(texts(parts@)[START_FIELD as int] == parts@[START_FIELD as int]@);
                        assert(texts(parts@)[STEP_FIELD as int] == parts@[STEP_FIELD as int]@);
                        start = copy_field(&parts[START_FIELD]);
                        step = copy_field(&parts[STEP_FIELD]);
                        found = true;
                    }
                }
            },
        }
        i = i + 1;
    }
    if !found {
        return Err(parse_error("BANK header not found in RAW file"));
    }
    let ghost first = i as int;
    let mut data: Vec<Vec<char>> = Vec::new();
    let mut complete: bool = true;
    let mut open: bool = true;
    while open && i < lines.len()
        invariant
            first <= i <= lines@.len(),
            line_texts(lines@) == all,
            open ==> data_fields(all, first) == texts(data@) + data_fields(all, i as int),
            open ==> data_complete(all, first) == data_complete(all, i as int),
            open ==> complete,
            !open ==> data_fields(all, first) == texts(data@),
            !open ==> data_complete(all, first) == complete,
        decreases lines@.len() - i + if open { 1int } else { 0int },
    {
        assert(line_texts(lines@)[i as int] == all[i as int]);
        match &lines[i] {
            None => {
                complete = false;
                open = false;
                assert(texts(data@) + Seq::<Seq<char>>::empty() =~= texts(data@));
            },
            Some(line) => {
                if begins_with_bank(line) {
                    open = false;
                    assert(texts(data@) + Seq::<Seq<char>>::empty() =~= texts(data@));
                } else {
                    let mut parts: Vec<Vec<char>> = split_fields(line, false);
                    proof {
                        assert(texts(data@ + parts@) =~= texts(data@) + texts(parts@));
                        assert((texts(data@) + texts(parts@)) + data_fields(all, i + 1) =~= texts(
                            data@,
                        ) + (texts(parts@) + data_fields(all, i + 1)));
                    }
                    data.append(&mut parts);
                    i = i + 1;
                }
            },
        }
    }
    proof {
        if open {
            assert(texts(data@) + Seq::<Seq<char>>::empty() =~= texts(data@));
        }
    }
    Ok(GsasScan { start, step, data, complete })
}

/// The message of the failure to read the origin.
pub open spec fn invalid_start() -> Seq<char> {
    "Invalid start"@
}

/// The message of the failure to read the step.
pub open spec fn invalid_step() -> Seq<char> {
    "Invalid step"@
}

/// What the values read from a scan result in: a failure where the origin or
/// the step is no number or the data lines could not all be decoded, else the
/// pattern of every data field that is a number.
pub open spec fn gsas_assembled(
    start: Option<u64>,
    step: Option<u64>,
    values: Seq<Option<u64>>,
    complete: bool,
    r: Result<ParsedPattern, GeddesError>,
) -> bool {
    if start is None {
        r matches Err(e) && e.is_parse(invalid_start())
    } else if step is None {
        r matches Err(e) && e.is_parse(invalid_step())
    } else if !complete {
        r matches Err(GeddesError::Io(text)) && text@ == invalid_text()
    } else {
        r matches Ok(pattern) && pattern@ == (PatternModel {
            x: AxisModel::Centidegrees { start: start->0, step: step->0 },
            y: numbers_of(values),
            e: None,
        })
    }
}

/// Makes the pattern of a GSAS text from the values read for its scan.
pub fn gsas_pattern(
    start: Option<u64>,
    step: Option<u64>,
    values: &Vec<Option<u64>>,
    complete: bool,
) -> (r: Result<ParsedPattern, GeddesError>)
    ensures
        gsas_assembled(start, step, values@, complete, r),
        r matches Ok(pattern) ==> pattern.well_formed(),
{
    let start: u64 = match start {
        Some(bits) => bits,
        None => return Err(parse_error("Invalid start")),
    };
    let step: u64 = match step {
        Some(bits) => bits,
        None => return Err(parse_error("Invalid step")),
    };
    if !complete {
        return Err(GeddesError::Io("stream did not contain valid UTF-8".to_owned()));
    }
    Ok(
        ParsedPattern {
            x: Axis::Centidegrees { start, step },
            y: collect_numbers(values),
            e: None,
        },
    )
}

/// What decoding a GSAS text with `number` as the reader of numbers results
/// in: the failure of the scan, or what some answers of `number` to the fields
/// of the scan result in.
pub open spec fn gsas_decoded<F: Fn(&Vec<char>) -> Option<u64>>(
    buf: Seq<u8>,
    number: &F,
    r: Result<ParsedPattern, GeddesError>,
) -> bool {
    exists|scanned: Result<GsasScan, GeddesError>|
        #![trigger gsas_scanned(text_lines(buf), scanned)]
        gsas_scanned(text_lines(buf), scanned) && match scanned {
            Err(e) => r == Err::<ParsedPattern, GeddesError>(e),
            Ok(scan) => exists|start: Option<u64>, step: Option<u64>, values: Seq<Option<u64>>|
                {
                    &&& call_ensures(*number, (&scan.start,), start)
                    &&& start is Some ==> call_ensures(*number, (&scan.step,), step)
                    &&& start is Some && step is Some ==> read_by(number, scan.data@, values)
                    &&& #[trigger] gsas_assembled(start, step, values, scan.complete, r)
                },
        }
}

/// Decodes a GSAS-style RAW text.
pub fn parse_gsas_raw<F: Fn(&Vec<char>) -> Option<u64>>(buf: &[u8], number: &F) -> (r: Result<
    ParsedPattern,
    GeddesError,
>)
    requires
        reads_any(number),
    ensures
        gsas_decoded(buf@, number, r),
        r matches Ok(pattern) ==> pattern.well_formed(),
{
    let scanned: Result<GsasScan, GeddesError> = gsas_scan(buf);
    match scanned {
        Err(e) => {
            let r: Result<ParsedPattern, GeddesError> = Err(e);
            assert(gsas_scanned(text_lines(buf@), scanned));
            r
        },
        Ok(scan) => {
            let start: Option<u64> = number(&scan.start);
            if start.is_none() {
                let r = gsas_pattern(start, None, &Vec::new(), scan.complete);
                assert(gsas_scanned(text_lines(buf@), scanned));
                assert(gsas_assembled(start, None, Seq::empty(), scan.complete, r));
                return r;
            }
            let step: Option<u64> = number(&scan.step);
            if step.is_none() {
                let r = gsas_pattern(start, step, &Vec::new(), scan.complete);
                assert(gsas_scanned(text_lines(buf@), scanned));
                assert(gsas_assembled(start, step, Seq::empty(), scan.complete, r));
                return r;
            }
            let values: Vec<Option<u64>> = read_numbers(&scan.data, number);
            let r = gsas_pattern(start, step, &values, scan.complete);
            assert(gsas_scanned(text_lines(buf@), scanned));
            assert(gsas_assembled(start, step, values@, scan.complete, r));
            r
        },
    }
}

} // verus!
