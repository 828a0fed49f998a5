//! One row of the registry feed.
//!
//! A row is a list of columns in a fixed order. Whitespace around a column's
//! text does not count, and a row may be shorter than the list: a column that
//! it lacks reads as empty.

use vstd::prelude::*;
use vstd::slice::slice_to_vec;
use crate::field::{parse_port, parse_protocol, spec_parse_port, spec_parse_protocol};
use crate::text::{chars_of, spec_trim, string_of, trim};
use crate::{RecordView, ServiceRecord};

verus! {

/// Column of the service name.
pub const NAME: usize = 0;

/// Column of the port number.
pub const PORT: usize = 1;

/// Column of the transport protocol.
pub const PROTOCOL: usize = 2;

/// Column of the description.
pub const DESCRIPTION: usize = 3;

/// Column of the assignee.
pub const ASSIGNEE: usize = 4;

/// Column of the contact.
pub const CONTACT: usize = 5;

/// Column of the registration date.
pub const REGISTRATION_DATE: usize = 6;

/// Column of the modification date.
pub const MODIFICATION_DATE: usize = 7;

/// Column of the reference.
pub const REFERENCE: usize = 8;

/// Column of the service code.
pub const SERVICE_CODE: usize = 9;

/// Column of the reports of unauthorized use.
pub const UNAUTHORIZED_USE: usize = 10;

/// Column of the assignment notes.
pub const ASSIGNMENT_NOTES: usize = 11;

/// The text of column `index` of `row` without surrounding whitespace; empty
/// if the row has no such column.
pub open spec fn column(row: Seq<Seq<char>>, index: usize) -> Seq<char> {
    if index < row.len() {
        spec_trim(row[index as int])
    } else {
        Seq::empty()
    }
}

/// The text of column `index` of `row` without surrounding whitespace, or
/// nothing if that text is empty.
pub open spec fn optional_column(row: Seq<Seq<char>>, index: usize) -> Option<Seq<char>> {
    if column(row, index).len() == 0 {
        None
    } else {
        Some(column(row, index))
    }
}

/// The record that `row` defines, if it defines one: it does if its port
/// column holds a port and its protocol column a protocol.
pub open spec fn spec_parse_row(row: Seq<Seq<char>>) -> Option<RecordView> {
    match (spec_parse_port(column(row, PORT)), spec_parse_protocol(column(row, PROTOCOL))) {
        (Some(port), Some(protocol)) => Some(
            RecordView {
                name: column(row, NAME),
                port,
                protocol,
                description: column(row, DESCRIPTION),
                assignee: optional_column(row, ASSIGNEE),
                contact: optional_column(row, CONTACT),
                registration_date: optional_column(row, REGISTRATION_DATE),
                modification_date: optional_column(row, MODIFICATION_DATE),
                reference: optional_column(row, REFERENCE),
                service_code: optional_column(row, SERVICE_CODE),
                unauthorized_use: optional_column(row, UNAUTHORIZED_USE),
                assignment_notes: optional_column(row, ASSIGNMENT_NOTES),
            },
        ),
        _ => None,
    }
}

/// In the record that a row defines, each optional text is absent or not
/// empty.
pub proof fn lemma_row_record_is_well_formed(row: Seq<Seq<char>>)
    ensures
        spec_parse_row(row) is Some ==> spec_parse_row(row)->0.well_formed(),
{
}

/// The function that gives the record a row defines, if it defines one.
pub open spec fn row_record() -> spec_fn(Seq<Seq<char>>) -> Option<RecordView> {
    |row: Seq<Seq<char>>| spec_parse_row(row)
}

/// The records that `rows` define, in the order of the rows.
pub open spec fn spec_parse_rows(rows: Seq<Seq<Seq<char>>>) -> Seq<RecordView> {
    rows.filter_map(row_record())
}

/// The characters of column `index` of `row` without surrounding whitespace.
fn column_chars(row: &Vec<String>, index: usize) -> (chars: Vec<char>)
    ensures
        chars@ == column(row.deep_view(), index),
{
    if index < row.len() {
        let all = chars_of(row[index].as_str());
        slice_to_vec(trim(all.as_slice()))
    } else {
        Vec::new()
    }
}

/// The text of column `index` of `row` without surrounding whitespace.
fn text_column(row: &Vec<String>, index: usize) -> (text: String)
    ensures
        text@ == column(row.deep_view(), index),
{
    let chars = column_chars(row, index);
    string_of(chars.as_slice())
}

/// The text of column `index` of `row` without surrounding whitespace, or
/// nothing if that text is empty.
fn optional_text_column(row: &Vec<String>, index: usize) -> (text: Option<String>)
    ensures
        text.deep_view() == optional_column(row.deep_view(), index),
{
    let chars = column_chars(row, index);
    if chars.len() == 0 {
        None
    } else {
        Some(string_of(chars.as_slice()))
    }
}

/// The record that `row` defines, if it defines one.
pub fn parse_row(row: &Vec<String>) -> (record: Option<ServiceRecord>)
    ensures
        record.deep_view() == spec_parse_row(row.deep_view()),
{
    let port_text = column_chars(row, PORT);
    let protocol_text = column_chars(row, PROTOCOL);
    match (parse_port(port_text.as_slice()), parse_protocol(protocol_text.as_slice())) {
        (Some(port), Some(protocol)) => Some(
            ServiceRecord {
                name: text_column(row, NAME),
                port,
                protocol,
                description: text_column(row, DESCRIPTION),
                assignee: optional_text_column(row, ASSIGNEE),
                contact: optional_text_column(row, CONTACT),
                registration_date: optional_text_column(row, REGISTRATION_DATE),
                modification_date: optional_text_column(row, MODIFICATION_DATE),
                reference: optional_text_column(row, REFERENCE),
                service_code: optional_text_column(row, SERVICE_CODE),
                unauthorized_use: optional_text_column(row, UNAUTHORIZED_USE),
                assignment_notes: optional_text_column(row, ASSIGNMENT_NOTES),
            },
        ),
        _ => None,
    }
}

/// The records that `rows` define, in the order of the rows.
pub fn parse_rows(rows: &Vec<Vec<String>>) -> (records: Vec<ServiceRecord>)
    ensures
        records.deep_view() == spec_parse_rows(rows.deep_view()),
{
    let mut records: Vec<ServiceRecord> = Vec::new();
    let ghost feed = rows.deep_view();
    let mut next: usize = 0;
    while next < rows.len()
        invariant
            next <= rows@.len(),
            feed == rows.deep_view(),
            records.deep_view() == feed.take(next as int).filter_map(row_record()),
        decreases rows@.len() - next,
    {
        proof {
            assert(feed.take(next + 1).drop_last() == feed.take(next as int));
        }
        match parse_row(&rows[next]) {
            Some(record) => {
                records.push(record);
            },
            None => {},
        }
        next += 1;
    }
    proof {
        assert(feed.take(next as int) == feed);
    }
    records
}

} // verus!
