//! RASX archives: a zip container whose profile entry holds the pattern as
//! two columns of text.
use crate::columns::{columns_decoded, parse_delimited, profile_rules, ColumnRules};
use crate::error::GeddesError;
use crate::numbers::reads_any;
use crate::pattern::ParsedPattern;
use crate::text::{chars_of, contains_text, ends_with, has_part, has_suffix, same_text, texts};
use vstd::prelude::*;

verus! {

/// `zip::ZipArchive`, the archive reader, carried as an opaque value.
#[verifier::external_type_specification]
#[verifier::external_body]
#[verifier::reject_recursive_types(R)]
pub struct ExZipArchive<R>(zip::ZipArchive<R>);

/// `std::io::Cursor`, through which the archive reader reads a byte slice,
/// carried as an opaque value.
#[verifier::external_type_specification]
#[verifier::external_body]
#[verifier::reject_recursive_types(T)]
pub struct ExCursor<T>(std::io::Cursor<T>);

/// `zip::result::ZipError`, the failure of the archive reader, carried as an
/// opaque value.
#[verifier::external_type_specification]
#[verifier::external_body]
pub struct ExZipError(zip::result::ZipError);

/// The bytes that an archive was opened from.
pub uninterp spec fn archive_source(archive: zip::ZipArchive<std::io::Cursor<&[u8]>>) -> Seq<u8>;

/// Whether `zip::ZipArchive::new` accepts the bytes as an archive.
pub uninterp spec fn zip_opens(bytes: Seq<u8>) -> bool;

/// What `zip::ZipArchive::len` gives for the archive of these bytes: the
/// number of its entries.
pub uninterp spec fn zip_entry_count(bytes: Seq<u8>) -> nat;

/// What `zip::ZipArchive::by_index` and `ZipFile::name` give for the archive of
/// these bytes: the name of the entry of that index, or `None` where the
/// entry cannot be opened.
pub uninterp spec fn zip_entry_name(bytes: Seq<u8>, index: int) -> Option<Seq<char>>;

/// What `zip::ZipArchive::by_name` and reading the entry to its end give for
/// the archive of these bytes: `None` where the entry cannot be opened, else
/// its content or the message of the failure to read it.
pub uninterp spec fn zip_entry_content(bytes: Seq<u8>, name: Seq<char>) -> Option<
    Result<Seq<u8>, Seq<char>>,
>;

/// `zip::ZipArchive::new` on the bytes of a file: the archive, or the error
/// that the structure of the bytes gives. The archive is a reader over these
/// bytes; whether they are accepted is a function of the bytes.
#[verifier::external_body]
fn open_archive<'a>(bytes: &'a [u8]) -> (r: Result<
    zip::ZipArchive<std::io::Cursor<&'a [u8]>>,
    zip::result::ZipError,
>)
    ensures
        r is Ok <==> zip_opens(bytes@),
        r matches Ok(archive) ==> archive_source(archive) == bytes@,
{
    zip::ZipArchive::new(std::io::Cursor::new(bytes))
}

/// The message of a `zip::result::ZipError`, as its `Display` gives it.
/// Nothing is claimed of the message.
#[verifier::external_body]
fn zip_error_text(error: &zip::result::ZipError) -> String {
    error.to_string()
}

/// `zip::ZipArchive::len`: the number of entries, a function of the bytes of
/// the archive.
#[verifier::external_body]
fn archive_len<'a>(archive: &zip::ZipArchive<std::io::Cursor<&'a [u8]>>) -> (n: usize)
    ensures
        n == zip_entry_count(archive_source(*archive)),
{
    archive.len()
}

/// `zip::ZipArchive::by_index`, then `ZipFile::name`: the name of the entry
/// of that index, or `None` where the entry cannot be opened; a function of
/// the bytes of the archive and the index. The archive stays one over the same
/// bytes.
#[verifier::external_body]
fn entry_name<'a>(
    archive: &mut zip::ZipArchive<std::io::Cursor<&'a [u8]>>,
    index: usize,
) -> (r: Option<String>)
    ensures
        archive_source(*final(archive)) == archive_source(*old(archive)),
        match r {
            Some(name) => zip_entry_name(archive_source(*old(archive)), index as int) == Some(
                name@,
            ),
            None => zip_entry_name(archive_source(*old(archive)), index as int) is None,
        },
{
    match archive.by_index(index) {
        Ok(file) => Some(file.name().to_string()),
        Err(_) => None,
    }
}

/// `zip::ZipArchive::by_name`, then the entry read to its end: the content of
/// the entry of that name, a function of the bytes of the archive and the
/// name. The outer error is that of opening the entry, the inner one the
/// message of the failure to read it.
#[verifier::external_body]
fn entry_content<'a>(
    archive: &mut zip::ZipArchive<std::io::Cursor<&'a [u8]>>,
    name: &str,
) -> (r: Result<Result<Vec<u8>, String>, zip::result::ZipError>)
    ensures
        match r {
            Err(_) => zip_entry_content(archive_source(*old(archive)), name@) is None,
            Ok(Err(message)) => zip_entry_content(archive_source(*old(archive)), name@) == Some(
                Err::<Seq<u8>, Seq<char>>(message@),
            ),
            Ok(Ok(content)) => zip_entry_content(archive_source(*old(archive)), name@) == Some(
                Ok::<Seq<u8>, Seq<char>>(content@),
            ),
        },
{
    let mut file = match archive.by_name(name) {
        Ok(file) => file,
        Err(error) => return Err(error),
    };
    let mut content = Vec::new();
    match std::io::Read::read_to_end(&mut file, &mut content) {
        Ok(_) => Ok(Ok(content)),
        Err(error) => Ok(Err(error.to_string())),
    }
}

/// The name of the entry that is looked for first.
pub open spec fn profile_name() -> Seq<char> {
    seq![
        'D',
        'a',
        't',
        'a',
        '0',
        '/',
        'P',
        'r',
        'o',
        'f',
        'i',
        'l',
        'e',
        '0',
        '.',
        't',
        'x',
        't',
    ]
}

/// The word that the name of a profile entry holds.
pub open spec fn profile_word() -> Seq<char> {
    seq!['P', 'r', 'o', 'f', 'i', 'l', 'e']
}

/// The ending of the name of a profile entry.
pub open spec fn text_ending() -> Seq<char> {
    seq!['.', 't', 'x', 't']
}

/// A name that may be that of a profile entry: it holds `Profile` and ends
/// with `.txt`.
pub open spec fn is_profile_like(name: Seq<char>) -> bool {
    contains_text(name, profile_word()) && ends_with(name, text_ending())
}

/// `at` is the index of the selected entry: the first entry named
/// `Data0/Profile0.txt`, or, where there is none, the first whose name holds
/// `Profile` and ends with `.txt`.
pub open spec fn is_selected(names: Seq<Seq<char>>, at: int) -> bool {
    &&& 0 <= at < names.len()
    &&& if exists|i: int| 0 <= i < names.len() && names[i] == profile_name() {
        &&& names[at] == profile_name()
        &&& forall|i: int| 0 <= i < at ==> names[i] != profile_name()
    } else {
        &&& is_profile_like(names[at])
        &&& forall|i: int| 0 <= i < at ==> !is_profile_like(names[i])
    }
}

/// No entry can be selected: none has the name that is looked for first, and
/// none has a name like that of a profile.
pub open spec fn none_selectable(names: Seq<Seq<char>>) -> bool {
    forall|i: int|
        0 <= i < names.len() ==> (#[trigger] names[i]) != profile_name() && !is_profile_like(
            names[i],
        )
}

/// Selects the profile entry among the names of an archive.
pub fn select_profile(names: &Vec<Vec<char>>) -> (r: Option<usize>)
    ensures
        r matches Some(at) ==> is_selected(texts(names@), at as int),
        r is None ==> none_selectable(texts(names@)),
{
    let exact: Vec<char> = vec![
        'D',
        'a',
        't',
        'a',
        '0',
        '/',
        'P',
        'r',
        'o',
        'f',
        'i',
        'l',
        'e',
        '0',
        '.',
        't',
        'x',
        't',
    ];
    let word: Vec<char> = vec!['P', 'r', 'o', 'f', 'i', 'l', 'e'];
    let ending: Vec<char> = vec!['.', 't', 'x', 't'];
    assert(exact@ =~= profile_name());
    assert(word@ =~= profile_word());
    assert(ending@ =~= text_ending());
    let ghost all = texts(names@);
    let mut fallback: Option<usize> = None;
    let mut i: usize = 0;
    while i < names.len()
        invariant
            i <= names@.len(),
            all == texts(names@),
            exact@ == profile_name(),
            word@ == profile_word(),
            ending@ == text_ending(),
            forall|j: int| 0 <= j < i ==> (#[trigger] all[j]) != profile_name(),
            fallback matches Some(at) ==> at < i && is_profile_like(all[at as int]) && forall|
                j: int,
            |
                0 <= j < at ==> !is_profile_like(#[trigger] all[j]),
            fallback is None ==> forall|j: int| 0 <= j < i ==> !is_profile_like(#[trigger] all[j]),
        decreases names@.len() - i,
    {
        assert(all[i as int] == names@[i as int]@);
        if same_text(&names[i], &exact) {
            return Some(i);
        }
        if fallback.is_none() && has_part(&names[i], &word) && has_suffix(&names[i], &ending) {
            fallback = Some(i);
        }
        i = i + 1;
    }
    fallback
}

/// The pattern of names that is reported when no entry can be selected.
pub open spec fn expected_entry() -> Seq<char> {
    "Profile*.txt"@
}

/// The names of the entries below index `n` that can be opened, in the order
/// of the archive.
pub open spec fn zip_names_below(bytes: Seq<u8>, n: int) -> Seq<Seq<char>>
    decreases n,
{
    if n <= 0 {
        Seq::empty()
    } else {
        match zip_entry_name(bytes, n - 1) {
            Some(name) => zip_names_below(bytes, n - 1).push(name),
            None => zip_names_below(bytes, n - 1),
        }
    }
}

/// The names of the entries of an archive that can be opened.
pub open spec fn zip_names(bytes: Seq<u8>) -> Seq<Seq<char>> {
    zip_names_below(bytes, zip_entry_count(bytes) as int)
}

/// What the selected entry results in: the archive failure where it cannot be
/// opened, the failure to read it, or what its content decodes to as two
/// columns of text.
pub open spec fn entry_decoded<F: Fn(&Vec<char>) -> Option<u64>>(
    buf: Seq<u8>,
    name: Seq<char>,
    number: &F,
    r: Result<ParsedPattern, GeddesError>,
) -> bool {
    match zip_entry_content(buf, name) {
        None => r matches Err(GeddesError::Zip(_)),
        Some(Err(message)) => r matches Err(GeddesError::Io(text)) && text@ == message,
        Some(Ok(content)) => columns_decoded(content, profile_rules(), number, r),
    }
}

/// What decoding an archive with `number` as the reader of numbers results
/// in: the archive failure where the bytes are no archive; the failure that
/// names the expected entry where no entry can be selected; else what the
/// selected entry results in. What the archive holds is decided by the archive
/// reader.
pub open spec fn rasx_decoded<F: Fn(&Vec<char>) -> Option<u64>>(
    buf: Seq<u8>,
    number: &F,
    r: Result<ParsedPattern, GeddesError>,
) -> bool {
    if !zip_opens(buf) {
        r matches Err(GeddesError::Zip(_))
    } else if none_selectable(zip_names(buf)) {
        r matches Err(GeddesError::FileNotFoundInArchive(text)) && text@ == expected_entry()
    } else {
        exists|at: int| #[trigger]
            is_selected(zip_names(buf), at) && entry_decoded(buf, zip_names(buf)[at], number, r)
    }
}

/// Decodes a RASX archive: selects its profile entry and decodes the content
/// of the entry as two columns separated by white space.
pub fn parse_rasx<F: Fn(&Vec<char>) -> Option<u64>>(buf: &[u8], number: &F) -> (r: Result<
    ParsedPattern,
    GeddesError,
>)
    requires
        reads_any(number),
    ensures
        rasx_decoded(buf@, number, r),
        r matches Ok(pattern) ==> pattern.well_formed(),
{
    let mut archive = match open_archive(buf) {
        Ok(archive) => archive,
        Err(error) => return Err(GeddesError::Zip(zip_error_text(&error))),
    };
    let count: usize = archive_len(&archive);
    let mut names: Vec<String> = Vec::new();
    let mut shown: Vec<Vec<char>> = Vec::new();
    let mut i: usize = 0;
    while i < count
        invariant
            i <= count,
            archive_source(archive) == buf@,
            names@.len() == shown@.len(),
            forall|j: int| 0 <= j < names@.len() ==> (#[trigger] names@[j])@ == shown@[j]@,
            texts(shown@) == zip_names_below(buf@, i as int),
        decreases count - i,
    {
        if let Some(name) = entry_name(&mut archive, i) {
            let text: Vec<char> = chars_of(name.as_str());
            assert(texts(shown@.push(text)) =~= texts(shown@).push(text@));
            shown.push(text);
            names.push(name);
        }
        i = i + 1;
    }
    let at: usize = match select_profile(&shown) {
        Some(at) => at,
        None => {
            return Err(GeddesError::FileNotFoundInArchive("Profile*.txt".to_owned()));
        },
    };
    proof {
        assert(texts(shown@)[at as int] == shown@[at as int]@);
        lemma_selected_is_selectable(texts(shown@), at as int);
    }
    let r = match entry_content(&mut archive, names[at].as_str()) {
        Err(error) => Err(GeddesError::Zip(zip_error_text(&error))),
        Ok(Err(message)) => Err(GeddesError::Io(message)),
        Ok(Ok(content)) => parse_delimited(
            content.as_slice(),
            ColumnRules { commas: false, comments: false, width: 2, uncertainty: false },
            number,
        ),
    };
    assert(entry_decoded(buf@, zip_names(buf@)[at as int], number, r));
    r
}

/// Where an entry is selected, not every entry is unselectable.
pub proof fn lemma_selected_is_selectable(names: Seq<Seq<char>>, at: int)
    requires
        is_selected(names, at),
    ensures
        !none_selectable(names),
{
    if none_selectable(names) {
        assert(names[at] != profile_name() && !is_profile_like(names[at]));
        if exists|i: int| 0 <= i < names.len() && names[i] == profile_name() {
        }
    }
}

} // verus!
