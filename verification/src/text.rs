//! Lines and fields of text files.
//!
//! A file is cut into lines at every line feed, each line is decoded from
//! UTF-8 on its own, and a line is cut into fields at white space, and at
//! commas where the format separates by them.
use vstd::prelude::*;
use vstd::slice::slice_subrange;
use vstd::string::StringSliceAdditionalSpecFns;
use vstd::utf8::{decode_utf8, encode_utf8_decode_utf8, valid_utf8};

verus! {

/// The characters with the Unicode property `White_Space`.
pub open spec fn is_space(c: char) -> bool {
    let u = c as u32;
    ||| 0x09 <= u <= 0x0d
    ||| u == 0x20
    ||| u == 0x85
    ||| u == 0xa0
    ||| u == 0x1680
    ||| 0x2000 <= u <= 0x200a
    ||| u == 0x2028
    ||| u == 0x2029
    ||| u == 0x202f
    ||| u == 0x205f
    ||| u == 0x3000
}

/// Tells whether a character is white space.
pub fn is_whitespace(c: char) -> (r: bool)
    ensures
        r == is_space(c),
{
    let u: u32 = c as u32;
    (0x09 <= u && u <= 0x0d) || u == 0x20 || u == 0x85 || u == 0xa0 || u == 0x1680 || (0x2000 <= u
        && u <= 0x200a) || u == 0x2028 || u == 0x2029 || u == 0x202f || u == 0x205f || u == 0x3000
}

/// The views of a list of texts.
pub open spec fn texts(list: Seq<Vec<char>>) -> Seq<Seq<char>> {
    Seq::new(list.len(), |i: int| list[i]@)
}

/// The views of a list of lines, of which some could not be decoded.
pub open spec fn line_texts(list: Seq<Option<Vec<char>>>) -> Seq<Option<Seq<char>>> {
    Seq::new(
        list.len(),
        |i: int|
            match list[i] {
                Some(line) => Some(line@),
                None => None,
            },
    )
}

/// Number of bytes of the line that starts at `from`: those before the next
/// line feed, or before the end of the buffer where none follows.
pub open spec fn line_len(buf: Seq<u8>, from: int) -> nat
    decreases buf.len() - from,
{
    if from >= buf.len() || buf[from] == 0x0a {
        0
    } else {
        1 + line_len(buf, from + 1)
    }
}

/// The lines of a buffer from offset `from` on, without their line feeds. A
/// line feed at the very end of the buffer starts no further line.
pub open spec fn lines_from(buf: Seq<u8>, from: int) -> Seq<Seq<u8>>
    decreases buf.len() - from,
{
    if from < 0 || from >= buf.len() {
        Seq::empty()
    } else {
        let end = from + line_len(buf, from);
        if end < buf.len() {
            seq![buf.subrange(from, end)] + lines_from(buf, end + 1)
        } else {
            seq![buf.subrange(from, end)]
        }
    }
}

/// The text of a line, or `None` where its bytes are not well-formed UTF-8.
pub open spec fn line_text(bytes: Seq<u8>) -> Option<Seq<char>> {
    if valid_utf8(bytes) {
        Some(decode_utf8(bytes))
    } else {
        None
    }
}

/// The decoded lines of a buffer.
pub open spec fn text_lines(buf: Seq<u8>) -> Seq<Option<Seq<char>>> {
    lines_from(buf, 0).map_values(|bytes: Seq<u8>| line_text(bytes))
}

/// A line ends inside the buffer.
pub proof fn lemma_line_len_bounds(buf: Seq<u8>, from: int)
    requires
        0 <= from <= buf.len(),
    ensures
        from + line_len(buf, from) <= buf.len(),
    decreases buf.len() - from,
{
    if from < buf.len() && buf[from] != 0x0a {
        lemma_line_len_bounds(buf, from + 1);
    }
}

/// `core::str::from_utf8`: the bytes as text when they are well-formed UTF-8,
/// and `None` when they are not.
#[verifier::external_body]
fn utf8_text(bytes: &[u8]) -> (r: Option<&str>)
    ensures
        r is Some <==> valid_utf8(bytes@),
        r matches Some(text) ==> text.spec_bytes() == bytes@,
{
    std::str::from_utf8(bytes).ok()
}

/// `str::chars`: the characters of a text, in order.
#[verifier::external_body]
pub(crate) fn chars_of(text: &str) -> (r: Vec<char>)
    ensures
        r@ == text@,
{
    text.chars().collect()
}

/// Decodes one line.
pub fn decode_line(bytes: &[u8]) -> (r: Option<Vec<char>>)
    ensures
        r is Some <==> line_text(bytes@) is Some,
        r matches Some(line) ==> Some(line@) == line_text(bytes@),
{
    match utf8_text(bytes) {
        Some(text) => {
            proof {
                encode_utf8_decode_utf8(text@);
            }
            Some(chars_of(text))
        },
        None => None,
    }
}

/// Cuts a buffer into lines and decodes each of them.
pub fn read_lines(buf: &[u8]) -> (r: Vec<Option<Vec<char>>>)
    ensures
        line_texts(r@) == text_lines(buf@),
{
    let len: usize = buf.len();
    let mut lines: Vec<Option<Vec<char>>> = Vec::new();
    let mut from: usize = 0;
    while from < len
        invariant
            len == buf@.len(),
            from <= len + 1,
            line_texts(lines@) + lines_from(buf@, from as int).map_values(
                |bytes: Seq<u8>| line_text(bytes),
            ) == text_lines(buf@),
        decreases len + 1 - from,
    {
        let mut end: usize = from;
        while end < len && buf[end] != 0x0a
            invariant
                len == buf@.len(),
                from <= end <= len,
                end + line_len(buf@, end as int) == from + line_len(buf@, from as int),
            decreases len - end,
        {
            end = end + 1;
        }
        let line: Option<Vec<char>> = decode_line(slice_subrange(buf, from, end));
        proof {
            let rest = lines_from(buf@, end + 1);
            let decode = |bytes: Seq<u8>| line_text(bytes);
            let here = lines_from(buf@, from as int);
            assert(here == seq![buf@.subrange(from as int, end as int)] + rest);
            assert(here.map_values(decode) =~= seq![line_text(buf@.subrange(from as int, end as int))]
                + rest.map_values(decode));
            assert(line_texts(lines@.push(line)) =~= line_texts(lines@) + seq![
                line_text(buf@.subrange(from as int, end as int)),
            ]);
        }
        lines.push(line);
        if end == len {
            from = len;
            proof {
                assert(lines_from(buf@, end + 1) =~= lines_from(buf@, len as int));
            }
        } else {
            from = end + 1;
        }
    }
    proof {
        assert(lines_from(buf@, from as int).map_values(|bytes: Seq<u8>| line_text(bytes))
            =~= Seq::empty());
        assert(line_texts(lines@) + Seq::<Option<Seq<char>>>::empty() =~= line_texts(lines@));
    }
    lines
}

/// A character that ends a field: white space, and a comma where the format
/// separates by commas.
pub open spec fn is_separator(c: char, commas: bool) -> bool {
    is_space(c) || (commas && c == ',')
}

/// The fields of a line: its maximal runs of characters that are not
/// separators, in order. The definition follows the line from left to right: a
/// separator adds nothing, a character after a field character extends the last
/// field, and any other character begins a new field.
pub open spec fn fields(line: Seq<char>, commas: bool) -> Seq<Seq<char>>
    decreases line.len(),
{
    if line.len() == 0 {
        Seq::empty()
    } else {
        let before = fields(line.drop_last(), commas);
        let c = line.last();
        if is_separator(c, commas) {
            before
        } else if line.len() >= 2 && !is_separator(line[line.len() - 2], commas) {
            before.drop_last().push(before.last().push(c))
        } else {
            before.push(seq![c])
        }
    }
}

/// Cuts a line into its fields.
pub fn split_fields(line: &Vec<char>, commas: bool) -> (r: Vec<Vec<char>>)
    ensures
        texts(r@) == fields(line@, commas),
{
    let mut done: Vec<Vec<char>> = Vec::new();
    let mut current: Vec<char> = Vec::new();
    let mut i: usize = 0;
    while i < line.len()
        invariant
            i <= line@.len(),
            current@.len() > 0 <==> (i > 0 && !is_separator(line@[i - 1], commas)),
            current@.len() == 0 ==> texts(done@) == fields(line@.take(i as int), commas),
            current@.len() > 0 ==> texts(done@).push(current@) == fields(
                line@.take(i as int),
                commas,
            ),
        decreases line@.len() - i,
    {
        let c: char = line[i];
        let separator: bool = is_whitespace(c) || (commas && c == ',');
        proof {
            assert(line@.take(i + 1).drop_last() =~= line@.take(i as int));
            assert(line@.take(i + 1).last() == c);
        }
        if separator {
            if current.len() > 0 {
                proof {
                    assert(texts(done@.push(current)) =~= texts(done@).push(current@));
                }
                done.push(current);
                current = Vec::new();
            }
        } else {
            let ghost previous = current@;
            current.push(c);
            proof {
                let prefix = line@.take(i + 1);
                if previous.len() > 0 {
                    let before = texts(done@).push(previous);
                    assert(prefix[prefix.len() - 2] == line@[i - 1]);
                    assert(before.drop_last() =~= texts(done@));
                    assert(before.last() == previous);
                    assert(fields(prefix, commas) == before.drop_last().push(
                        before.last().push(c),
                    ));
                } else {
                    assert(current@ =~= seq![c]);
                    if i > 0 {
                        assert(prefix[prefix.len() - 2] == line@[i - 1]);
                    }
                    assert(fields(prefix, commas) == texts(done@).push(seq![c]));
                }
            }
        }
        i = i + 1;
    }
    proof {
        assert(line@.take(i as int) =~= line@);
    }
    if current.len() > 0 {
        proof {
            assert(texts(done@.push(current)) =~= texts(done@).push(current@));
        }
        done.push(current);
    }
    done
}

/// The first character of a line that is not white space.
pub open spec fn first_visible(line: Seq<char>) -> Option<char>
    decreases line.len(),
{
    if line.len() == 0 {
        None
    } else if is_space(line[0]) {
        first_visible(line.drop_first())
    } else {
        Some(line[0])
    }
}

/// Finds the first character of a line that is not white space.
pub fn find_first_visible(line: &Vec<char>) -> (r: Option<char>)
    ensures
        r == first_visible(line@),
{
    let mut i: usize = 0;
    assert(line@.skip(0) =~= line@);
    while i < line.len()
        invariant
            i <= line@.len(),
            first_visible(line@) == first_visible(line@.skip(i as int)),
        decreases line@.len() - i,
    {
        if !is_whitespace(line[i]) {
            assert(line@.skip(i as int)[0] == line@[i as int]);
            return Some(line[i]);
        }
        proof {
            assert(line@.skip(i as int).drop_first() =~= line@.skip(i + 1));
        }
        i = i + 1;
    }
    assert(line@.skip(i as int).len() == 0);
    None
}

/// The line begins with the characters of `prefix`.
pub open spec fn begins_with(line: Seq<char>, prefix: Seq<char>) -> bool {
    prefix.len() <= line.len() && line.subrange(0, prefix.len() as int) == prefix
}

/// The line ends with the characters of `suffix`.
pub open spec fn ends_with(line: Seq<char>, suffix: Seq<char>) -> bool {
    suffix.len() <= line.len() && line.subrange(line.len() - suffix.len(), line.len() as int)
        == suffix
}

/// The characters of `part` occur in the line, one after the other.
pub open spec fn contains_text(line: Seq<char>, part: Seq<char>) -> bool {
    exists|at: int|
        0 <= at && at + part.len() <= line.len() && #[trigger] line.subrange(
            at,
            at + part.len(),
        ) == part
}

/// Tells whether `part` stands in the line at offset `at`.
pub fn matches_at(line: &Vec<char>, at: usize, part: &Vec<char>) -> (r: bool)
    ensures
        r == (at + part@.len() <= line@.len() && line@.subrange(
            at as int,
            at + part@.len(),
        ) == part@),
{
    if at > line.len() || line.len() - at < part.len() {
        return false;
    }
    let mut i: usize = 0;
    while i < part.len()
        invariant
            i <= part@.len(),
            at + part@.len() <= line@.len() <= usize::MAX,
            forall|j: int| 0 <= j < i ==> line@[at + j] == part@[j],
        decreases part@.len() - i,
    {
        if line[at + i] != part[i] {
            assert(line@.subrange(at as int, at + part@.len())[i as int] != part@[i as int]);
            return false;
        }
        i = i + 1;
    }
    assert(line@.subrange(at as int, at + part@.len()) =~= part@);
    true
}

/// Tells whether the line begins with `prefix`.
pub fn starts_with(line: &Vec<char>, prefix: &Vec<char>) -> (r: bool)
    ensures
        r == begins_with(line@, prefix@),
{
    matches_at(line, 0, prefix)
}

/// Tells whether the line ends with `suffix`.
pub fn has_suffix(line: &Vec<char>, suffix: &Vec<char>) -> (r: bool)
    ensures
        r == ends_with(line@, suffix@),
{
    if suffix.len() > line.len() {
        return false;
    }
    matches_at(line, line.len() - suffix.len(), suffix)
}

/// Tells whether `part` occurs in the line.
pub fn has_part(line: &Vec<char>, part: &Vec<char>) -> (r: bool)
    ensures
        r == contains_text(line@, part@),
{
    if part.len() > line.len() {
        return false;
    }
    let last: usize = line.len() - part.len();
    let mut at: usize = 0;
    loop
        invariant
            last == line@.len() - part@.len(),
            at <= last,
            forall|k: int|
                0 <= k < at ==> #[trigger] line@.subrange(k, k + part@.len()) != part@,
        decreases last - at,
    {
        if matches_at(line, at, part) {
            return true;
        }
        if at == last {
            return false;
        }
        at = at + 1;
    }
}


/// The line without the white space at its beginning.
pub open spec fn trim_start(line: Seq<char>) -> Seq<char>
    decreases line.len(),
{
    if line.len() > 0 && is_space(line[0]) {
        trim_start(line.drop_first())
    } else {
        line
    }
}

/// The line without the white space at its end.
pub open spec fn trim_end(line: Seq<char>) -> Seq<char>
    decreases line.len(),
{
    if line.len() > 0 && is_space(line.last()) {
        trim_end(line.drop_last())
    } else {
        line
    }
}

/// The line without the white space at both ends.
pub open spec fn trimmed(line: Seq<char>) -> Seq<char> {
    trim_end(trim_start(line))
}

/// Copies a line without the white space at both ends.
pub fn trim(line: &Vec<char>) -> (r: Vec<char>)
    ensures
        r@ == trimmed(line@),
{
    let mut from: usize = 0;
    assert(line@.skip(0) =~= line@);
    while from < line.len() && is_whitespace(line[from])
        invariant
            from <= line@.len(),
            trim_start(line@) == trim_start(line@.skip(from as int)),
        decreases line@.len() - from,
    {
        proof {
            assert(line@.skip(from as int)[0] == line@[from as int]);
            assert(line@.skip(from as int).drop_first() =~= line@.skip(from + 1));
        }
        from = from + 1;
    }
    proof {
        if from < line@.len() {
            assert(line@.skip(from as int)[0] == line@[from as int]);
        }
        assert(trim_start(line@) == line@.skip(from as int));
    }
    let ghost rest = line@.skip(from as int);
    let mut to: usize = line.len();
    assert(line@.subrange(from as int, to as int) =~= rest);
    while to > from && is_whitespace(line[to - 1])
        invariant
            from <= to <= line@.len(),
            trim_end(rest) == trim_end(line@.subrange(from as int, to as int)),
        decreases to - from,
    {
        proof {
            let part = line@.subrange(from as int, to as int);
            assert(part.last() == line@[to - 1]);
            assert(part.drop_last() =~= line@.subrange(from as int, to - 1));
        }
        to = to - 1;
    }
    proof {
        let part = line@.subrange(from as int, to as int);
        if to > from {
            assert(part.last() == line@[to - 1]);
        }
        assert(trim_end(rest) == part);
    }
    let mut copy: Vec<char> = Vec::new();
    let mut i: usize = from;
    while i < to
        invariant
            from <= i <= to <= line@.len(),
            copy@ == line@.subrange(from as int, i as int),
        decreases to - i,
    {
        copy.push(line[i]);
        assert(line@.subrange(from as int, i + 1) =~= line@.subrange(from as int, i as int).push(
            line@[i as int],
        ));
        i = i + 1;
    }
    copy
}

/// Tells whether two byte strings are equal.
pub fn same_bytes(a: &Vec<u8>, b: &Vec<u8>) -> (r: bool)
    ensures
        r == (a@ == b@),
{
    if a.len() != b.len() {
        return false;
    }
    let mut i: usize = 0;
    while i < a.len()
        invariant
            i <= a@.len(),
            a@.len() == b@.len(),
            forall|j: int| 0 <= j < i ==> a@[j] == b@[j],
        decreases a@.len() - i,
    {
        if a[i] != b[i] {
            return false;
        }
        i = i + 1;
    }
    assert(a@ =~= b@);
    true
}

/// Tells whether two texts are equal.
pub fn same_text(a: &Vec<char>, b: &Vec<char>) -> (r: bool)
    ensures
        r == (a@ == b@),
{
    if a.len() != b.len() {
        return false;
    }
    let r: bool = matches_at(a, 0, b);
    assert(a@.subrange(0, a@.len() as int) =~= a@);
    r
}

/// Every field has a character, and no field holds a separator.
pub proof fn lemma_fields_hold_no_separator(line: Seq<char>, commas: bool)
    ensures
        forall|i: int|
            0 <= i < fields(line, commas).len() ==> {
                &&& (#[trigger] fields(line, commas)[i]).len() > 0
                &&& forall|j: int|
                    0 <= j < fields(line, commas)[i].len() ==> !is_separator(
                        #[trigger] fields(line, commas)[i][j],
                        commas,
                    )
            },
        line.len() > 0 && !is_separator(line.last(), commas) ==> fields(line, commas).len() > 0,
    decreases line.len(),
{
    if line.len() > 0 {
        lemma_fields_hold_no_separator(line.drop_last(), commas);
        let before = fields(line.drop_last(), commas);
        let c = line.last();
        if !is_separator(c, commas) {
            if line.len() >= 2 && !is_separator(line[line.len() - 2], commas) {
                assert(line.drop_last().last() == line[line.len() - 2]);
                let grown = before.last().push(c);
                let after = before.drop_last().push(grown);
                assert forall|i: int| 0 <= i < after.len() implies {
                    &&& (#[trigger] after[i]).len() > 0
                    &&& forall|j: int|
                        0 <= j < after[i].len() ==> !is_separator(#[trigger] after[i][j], commas)
                } by {
                    if i < after.len() - 1 {
                        assert(after[i] == before[i]);
                    } else {
                        assert forall|j: int| 0 <= j < grown.len() implies !is_separator(
                            #[trigger] grown[j],
                            commas,
                        ) by {
                            if j < grown.len() - 1 {
                                assert(grown[j] == before.last()[j]);
                            }
                        }
                    }
                }
            } else {
                let after = before.push(seq![c]);
                assert forall|i: int| 0 <= i < after.len() implies {
                    &&& (#[trigger] after[i]).len() > 0
                    &&& forall|j: int|
                        0 <= j < after[i].len() ==> !is_separator(#[trigger] after[i][j], commas)
                } by {
                    if i < after.len() - 1 {
                        assert(after[i] == before[i]);
                    }
                }
            }
        }
    }
}

} // verus!
