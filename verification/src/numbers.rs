//! Numbers written as text.
//!
//! Turning a decimal numeral into a double-precision value is left to the
//! caller. A decoder hands out the fields that it needs as numbers; the caller
//! reads each of them, and hands back the bit pattern of the value or `None`
//! where the field is not a numeral.
use crate::ieee::f64_is_finite;
use vstd::prelude::*;

verus! {

/// A field that was read as a number, and as a finite one.
pub open spec fn is_finite_number(value: Option<u64>) -> bool {
    value matches Some(bits) && f64_is_finite(bits)
}

/// The views of a list of rows of values.
pub open spec fn value_rows(rows: Seq<Vec<Option<u64>>>) -> Seq<Seq<Option<u64>>> {
    Seq::new(rows.len(), |i: int| rows[i]@)
}

/// `values` are answers of `number` to `fields`, one for each field.
pub open spec fn read_by<F: Fn(&Vec<char>) -> Option<u64>>(
    number: &F,
    fields: Seq<Vec<char>>,
    values: Seq<Option<u64>>,
) -> bool {
    &&& values.len() == fields.len()
    &&& forall|i: int|
        0 <= i < fields.len() ==> call_ensures(*number, (&#[trigger] fields[i],), values[i])
}

/// `rows` are answers of `number` to `fields`, row by row.
pub open spec fn rows_read_by<F: Fn(&Vec<char>) -> Option<u64>>(
    number: &F,
    fields: Seq<Vec<Vec<char>>>,
    rows: Seq<Vec<Option<u64>>>,
) -> bool {
    &&& rows.len() == fields.len()
    &&& forall|i: int| 0 <= i < fields.len() ==> read_by(number, (#[trigger] fields[i])@, rows[i]@)
}

/// `number` may be asked about any field.
pub open spec fn reads_any<F: Fn(&Vec<char>) -> Option<u64>>(number: &F) -> bool {
    forall|field: &Vec<char>| call_requires(*number, (field,))
}

/// Asks `number` about every field of a list.
pub fn read_numbers<F: Fn(&Vec<char>) -> Option<u64>>(fields: &Vec<Vec<char>>, number: &F) -> (r:
    Vec<Option<u64>>)
    requires
        reads_any(number),
    ensures
        read_by(number, fields@, r@),
{
    let mut values: Vec<Option<u64>> = Vec::new();
    let mut i: usize = 0;
    while i < fields.len()
        invariant
            reads_any(number),
            i <= fields@.len(),
            values@.len() == i,
            forall|j: int|
                0 <= j < i ==> call_ensures(*number, (&#[trigger] fields@[j],), values@[j]),
        decreases fields@.len() - i,
    {
        let value: Option<u64> = number(&fields[i]);
        values.push(value);
        i = i + 1;
    }
    values
}

/// Asks `number` about every field of every row.
pub fn read_number_rows<F: Fn(&Vec<char>) -> Option<u64>>(
    fields: &Vec<Vec<Vec<char>>>,
    number: &F,
) -> (r: Vec<Vec<Option<u64>>>)
    requires
        reads_any(number),
    ensures
        rows_read_by(number, fields@, r@),
{
    let mut rows: Vec<Vec<Option<u64>>> = Vec::new();
    let mut i: usize = 0;
    while i < fields.len()
        invariant
            reads_any(number),
            i <= fields@.len(),
            rows@.len() == i,
            forall|j: int|
                0 <= j < i ==> read_by(number, (#[trigger] fields@[j])@, rows@[j]@),
        decreases fields@.len() - i,
    {
        let row: Vec<Option<u64>> = read_numbers(&fields[i], number);
        rows.push(row);
        i = i + 1;
    }
    rows
}

/// The values that were read as numbers, in order.
pub open spec fn numbers_of(values: Seq<Option<u64>>) -> Seq<u64>
    decreases values.len(),
{
    if values.len() == 0 {
        Seq::empty()
    } else {
        match values.last() {
            Some(bits) => numbers_of(values.drop_last()).push(bits),
            None => numbers_of(values.drop_last()),
        }
    }
}

/// Keeps the values that were read as numbers.
pub fn collect_numbers(values: &Vec<Option<u64>>) -> (r: Vec<u64>)
    ensures
        r@ == numbers_of(values@),
{
    let mut kept: Vec<u64> = Vec::new();
    let mut i: usize = 0;
    while i < values.len()
        invariant
            i <= values@.len(),
            kept@ == numbers_of(values@.take(i as int)),
        decreases values@.len() - i,
    {
        proof {
            assert(values@.take(i + 1).drop_last() =~= values@.take(i as int));
            assert(values@.take(i + 1).last() == values@[i as int]);
        }
        if let Some(bits) = values[i] {
            kept.push(bits);
        }
        i = i + 1;
    }
    assert(values@.take(i as int) =~= values@);
    kept
}

} // verus!
