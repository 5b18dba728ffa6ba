//! The choice of a decoder by the extension of a file name.
use crate::bruker::{bruker_decoded, parse_bruker_raw};
use crate::columns::{
    columns_decoded, columns_model, csv_rules, field_rows, lemma_uncertainty_all_or_nothing,
    parse_csv, parse_xy, profile_rules, rows_of, xy_rules, ColumnRules,
};
use crate::error::GeddesError;
use crate::gsas::{gsas_decoded, parse_gsas_raw};
use crate::numbers::{reads_any, rows_read_by, value_rows};
use crate::pattern::ParsedPattern;
use crate::rasx::{
    entry_decoded, is_selected, parse_rasx, rasx_decoded, zip_entry_content, zip_names,
};
use crate::text::{chars_of, text_lines};
use crate::xrdml::{parse_xrdml, xrdml_decoded};
use vstd::prelude::*;

verus! {

/// The formats that can be decoded.
#[derive(Debug, Clone, Copy, PartialEq, Eq, Structural)]
pub enum Format {
    /// Two or three columns separated by white space: `xy`, `xye`.
    Xy,
    /// Two or three columns separated by commas or white space: `csv`.
    Csv,
    /// A zip container with a profile entry: `rasx`.
    Rasx,
    /// An XML document: `xrdml`.
    Xrdml,
    /// GSAS text or a Bruker binary buffer: `raw`.
    Raw,
}

/// Index of the first character of the last component of a path: one past its
/// last `/`, or 0 where it has none.
pub open spec fn name_start(path: Seq<char>) -> int
    decreases path.len(),
{
    if path.len() == 0 {
        0
    } else if path.last() == '/' {
        path.len() as int
    } else {
        name_start(path.drop_last())
    }
}

/// Index of the last `.` of a file name, or -1 where it has none.
pub open spec fn last_dot(name: Seq<char>) -> int
    decreases name.len(),
{
    if name.len() == 0 {
        -1
    } else if name.last() == '.' {
        name.len() - 1
    } else {
        last_dot(name.drop_last())
    }
}

/// The extension of a path: what follows the last `.` of its last component,
/// where a `.` stands in the component after its first character.
pub open spec fn extension_of(path: Seq<char>) -> Option<Seq<char>> {
    let name = path.skip(name_start(path));
    let dot = last_dot(name);
    if dot >= 1 {
        Some(name.skip(dot + 1))
    } else {
        None
    }
}

/// The lower-case form of an ASCII capital letter, any other character as it
/// is.
pub open spec fn lower(c: char) -> char {
    if 'A' <= c <= 'Z' {
        ((c as u8) + 32) as char
    } else {
        c
    }
}

/// A text in lower case.
pub open spec fn lower_text(text: Seq<char>) -> Seq<char> {
    Seq::new(text.len(), |i: int| lower(text[i]))
}

/// The format that an extension names, whatever the case of its letters.
pub open spec fn format_of(extension: Seq<char>) -> Option<Format> {
    let word = lower_text(extension);
    if word == seq!['x', 'y'] || word == seq!['x', 'y', 'e'] {
        Some(Format::Xy)
    } else if word == seq!['c', 's', 'v'] {
        Some(Format::Csv)
    } else if word == seq!['r', 'a', 's', 'x'] {
        Some(Format::Rasx)
    } else if word == seq!['x', 'r', 'd', 'm', 'l'] {
        Some(Format::Xrdml)
    } else if word == seq!['r', 'a', 'w'] {
        Some(Format::Raw)
    } else {
        None
    }
}

/// The format that a file name selects: that of its extension, or `None` where
/// it has no extension or one that names no format.
pub open spec fn format_of_name(path: Seq<char>) -> Option<Format> {
    match extension_of(path) {
        Some(extension) => format_of(extension),
        None => None,
    }
}

/// Turns an ASCII capital letter into its lower-case form.
pub fn to_lower(c: char) -> (r: char)
    ensures
        r == lower(c),
{
    if 'A' <= c && c <= 'Z' {
        ((c as u8) + 32) as char
    } else {
        c
    }
}

/// Tells whether the characters of `path` from `from` on are `word`, whatever
/// the case of their letters.
fn is_word(path: &Vec<char>, from: usize, word: &Vec<char>) -> (r: bool)
    requires
        from <= path@.len(),
    ensures
        r == (lower_text(path@.skip(from as int)) == word@),
{
    let ghost rest = path@.skip(from as int);
    if path.len() - from != word.len() {
        return false;
    }
    let mut i: usize = 0;
    while i < word.len()
        invariant
            i <= word@.len(),
            from + word@.len() == path@.len() <= usize::MAX,
            rest == path@.skip(from as int),
            forall|j: int| 0 <= j < i ==> lower(rest[j]) == word@[j],
        decreases word@.len() - i,
    {
        assert(rest[i as int] == path@[from + i]);
        if to_lower(path[from + i]) != word[i] {
            assert(lower_text(rest)[i as int] != word@[i as int]);
            return false;
        }
        i = i + 1;
    }
    assert(lower_text(rest) =~= word@);
    true
}

/// Finds the extension of a path: the index of its first character.
pub fn find_extension(path: &Vec<char>) -> (r: Option<usize>)
    ensures
        match extension_of(path@) {
            Some(extension) => r matches Some(from) && from <= path@.len() && path@.skip(
                from as int,
            ) == extension,
            None => r is None,
        },
{
    let mut start: usize = 0;
    let mut dot: Option<usize> = None;
    let mut i: usize = 0;
    assert(path@.take(0).skip(0) =~= Seq::<char>::empty());
    while i < path.len()
        invariant
            i <= path@.len(),
            start == name_start(path@.take(i as int)),
            start <= i,
            match dot {
                Some(at) => start <= at < i && last_dot(path@.take(i as int).skip(start as int))
                    == at - start,
                None => last_dot(path@.take(i as int).skip(start as int)) == -1,
            },
        decreases path@.len() - i,
    {
        let c: char = path[i];
        proof {
            let before = path@.take(i as int);
            let after = path@.take(i + 1);
            assert(after.drop_last() =~= before);
            assert(after.last() == c);
            if c == '/' {
                assert(after.skip(i + 1) =~= Seq::<char>::empty());
            } else {
                assert(after.skip(start as int).drop_last() =~= before.skip(start as int));
                assert(after.skip(start as int).last() == c);
            }
        }
        if c == '/' {
            start = i + 1;
            dot = None;
        } else if c == '.' {
            dot = Some(i);
        }
        i = i + 1;
    }
    proof {
        assert(path@.take(i as int) =~= path@);
    }
    match dot {
        Some(at) => {
            if at > start {
                proof {
                    let name = path@.skip(start as int);
                    assert(name.skip(at - start + 1) =~= path@.skip(at + 1));
                }
                Some(at + 1)
            } else {
                None
            }
        },
        None => None,
    }
}

/// Tells which format a file name selects.
pub fn detect_format(path: &Vec<char>) -> (r: Option<Format>)
    ensures
        r == format_of_name(path@),
{
    let from: usize = match find_extension(path) {
        Some(from) => from,
        None => return None,
    };
    let xy: Vec<char> = vec!['x', 'y'];
    let xye: Vec<char> = vec!['x', 'y', 'e'];
    let csv: Vec<char> = vec!['c', 's', 'v'];
    let rasx: Vec<char> = vec!['r', 'a', 's', 'x'];
    let xrdml: Vec<char> = vec!['x', 'r', 'd', 'm', 'l'];
    let raw: Vec<char> = vec!['r', 'a', 'w'];
    assert(xy@ =~= seq!['x', 'y']);
    assert(xye@ =~= seq!['x', 'y', 'e']);
    assert(csv@ =~= seq!['c', 's', 'v']);
    assert(rasx@ =~= seq!['r', 'a', 's', 'x']);
    assert(xrdml@ =~= seq!['x', 'r', 'd', 'm', 'l']);
    assert(raw@ =~= seq!['r', 'a', 'w']);
    if is_word(path, from, &xy) || is_word(path, from, &xye) {
        Some(Format::Xy)
    } else if is_word(path, from, &csv) {
        Some(Format::Csv)
    } else if is_word(path, from, &rasx) {
        Some(Format::Rasx)
    } else if is_word(path, from, &xrdml) {
        Some(Format::Xrdml)
    } else if is_word(path, from, &raw) {
        Some(Format::Raw)
    } else {
        None
    }
}

/// What decoding a `raw` file results in: what it decodes to as GSAS text,
/// or, where that fails, what it decodes to as a Bruker buffer.
pub open spec fn raw_decoded<F: Fn(&Vec<char>) -> Option<u64>>(
    buf: Seq<u8>,
    number: &F,
    r: Result<ParsedPattern, GeddesError>,
) -> bool {
    exists|first: Result<ParsedPattern, GeddesError>| #[trigger]
        gsas_decoded(buf, number, first) && if first is Ok {
            r == first
        } else {
            bruker_decoded(buf, r)
        }
}

/// What decoding a file in a given format results in.
pub open spec fn decoded_as<F: Fn(&Vec<char>) -> Option<u64>>(
    format: Format,
    buf: Seq<u8>,
    number: &F,
    r: Result<ParsedPattern, GeddesError>,
) -> bool {
    match format {
        Format::Xy => columns_decoded(buf, xy_rules(), number, r),
        Format::Csv => columns_decoded(buf, csv_rules(), number, r),
        Format::Rasx => rasx_decoded(buf, number, r),
        Format::Xrdml => xrdml_decoded(buf, number, r),
        Format::Raw => raw_decoded(buf, number, r),
    }
}

/// What decoding a file of a given name results in: the unknown-format
/// failure where the name selects no format, whatever the file holds; else
/// what the file decodes to in the format that the name selects.
pub open spec fn loaded<F: Fn(&Vec<char>) -> Option<u64>>(
    buf: Seq<u8>,
    path: Seq<char>,
    number: &F,
    r: Result<ParsedPattern, GeddesError>,
) -> bool {
    match format_of_name(path) {
        None => r matches Err(GeddesError::UnknownFormat),
        Some(format) => decoded_as(format, buf, number, r),
    }
}

/// Decodes a `raw` file: as GSAS text first, and as a Bruker buffer where
/// that fails.
pub fn parse_raw<F: Fn(&Vec<char>) -> Option<u64>>(buf: &[u8], number: &F) -> (r: Result<
    ParsedPattern,
    GeddesError,
>)
    requires
        reads_any(number),
    ensures
        raw_decoded(buf@, number, r),
        r matches Ok(pattern) ==> pattern.well_formed(),
{
    let first = parse_gsas_raw(buf, number);
    if first.is_ok() {
        assert(gsas_decoded(buf@, number, first));
        first
    } else {
        let r = parse_bruker_raw(buf);
        assert(gsas_decoded(buf@, number, first));
        r
    }
}

/// Decodes the bytes of a file in the format that its name selects. `number`
/// reads a field as a double-precision number and gives the bit pattern of
/// the value, or `None` where the field is no numeral.
pub fn load_from_reader<F: Fn(&Vec<char>) -> Option<u64>>(
    buf: &[u8],
    filename: &str,
    number: &F,
) -> (r: Result<ParsedPattern, GeddesError>)
    requires
        reads_any(number),
    ensures
        loaded(buf@, filename@, number, r),
        r matches Ok(pattern) ==> pattern.well_formed(),
{
    let path: Vec<char> = chars_of(filename);
    match detect_format(&path) {
        None => Err(GeddesError::UnknownFormat),
        Some(Format::Xy) => parse_xy(buf, number),
        Some(Format::Csv) => parse_csv(buf, number),
        Some(Format::Rasx) => parse_rasx(buf, number),
        Some(Format::Xrdml) => parse_xrdml(buf, number),
        Some(Format::Raw) => parse_raw(buf, number),
    }
}

/// Decodes the bytes of a file in the format that its name selects.
pub fn read_bytes<F: Fn(&Vec<char>) -> Option<u64>>(buf: &[u8], filename: &str, number: &F) -> (r:
    Result<ParsedPattern, GeddesError>)
    requires
        reads_any(number),
    ensures
        loaded(buf@, filename@, number, r),
        r matches Ok(pattern) ==> pattern.well_formed(),
{
    load_from_reader(buf, filename, number)
}

/// A name that selects no format fails with the unknown-format failure,
/// whatever the file holds and whatever the reader of numbers answers.
pub proof fn lemma_unknown_format<F: Fn(&Vec<char>) -> Option<u64>>(
    buf: Seq<u8>,
    path: Seq<char>,
    number: &F,
    r: Result<ParsedPattern, GeddesError>,
)
    requires
        format_of_name(path) is None,
        loaded(buf, path, number, r),
    ensures
        r matches Err(GeddesError::UnknownFormat),
{
}

/// Every pattern that a decode results in has as many positions as
/// intensities, and as many uncertainties where it has any.
pub proof fn lemma_loaded_well_formed<F: Fn(&Vec<char>) -> Option<u64>>(
    buf: Seq<u8>,
    path: Seq<char>,
    number: &F,
    r: Result<ParsedPattern, GeddesError>,
)
    requires
        loaded(buf, path, number, r),
    ensures
        r matches Ok(pattern) ==> pattern.well_formed(),
{
    if let Ok(pattern) = r {
        match format_of_name(path)->0 {
            Format::Xy => {
                lemma_columns_well_formed(buf, xy_rules(), number, r);
            },
            Format::Csv => {
                lemma_columns_well_formed(buf, csv_rules(), number, r);
            },
            Format::Rasx => {
                let at = choose|at: int| #[trigger]
                    is_selected(zip_names(buf), at) && entry_decoded(
                        buf,
                        zip_names(buf)[at],
                        number,
                        r,
                    );
                let content = zip_entry_content(buf, zip_names(buf)[at])->0->Ok_0;
                lemma_columns_well_formed(content, profile_rules(), number, r);
            },
            Format::Xrdml => {},
            Format::Raw => {
                let first = choose|first: Result<ParsedPattern, GeddesError>| #[trigger]
                    gsas_decoded(buf, number, first) && if first is Ok {
                        r == first
                    } else {
                        bruker_decoded(buf, r)
                    };
                if first is Ok {
                    assert(gsas_decoded(buf, number, r));
                }
            },
        }
    }
}

/// Every pattern decoded from columns of text is well formed.
pub proof fn lemma_columns_well_formed<F: Fn(&Vec<char>) -> Option<u64>>(
    buf: Seq<u8>,
    rules: ColumnRules,
    number: &F,
    r: Result<ParsedPattern, GeddesError>,
)
    requires
        columns_decoded(buf, rules, number, r),
    ensures
        r matches Ok(pattern) ==> pattern.well_formed(),
{
    if let Ok(pattern) = r {
        let (found, values) = choose|found: Seq<Vec<Vec<char>>>, values: Seq<Vec<Option<u64>>>|
            {
                &&& field_rows(found) == rows_of(text_lines(buf), rules)->0
                &&& rows_read_by(number, found, values)
                &&& pattern@ == columns_model(value_rows(values), rules.uncertainty)
            };
        lemma_uncertainty_all_or_nothing(value_rows(values));
    }
}

} // verus!
