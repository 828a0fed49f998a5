//! Lookups in the text of a service-definitions file.
//!
//! Nothing is kept between two lookups: each one scans the whole text, line
//! by line, and answers with the records of the lines that match, in the
//! order of the lines. A line that defines no record is passed over.

use vstd::prelude::*;
use vstd::slice::slice_subrange;
use crate::line::{lemma_line_record_has_name, parse_line, spec_parse_line};
use crate::query::{
    answer, found, has_name, lemma_filter_keeps, lemma_filter_map_includes,
    lemma_port_lookup_includes, lemma_port_lookup_not_found, select_name, select_port, with_name,
    with_port,
};
use crate::text::{chars_of, find_char, other_than, prefix_len};
use crate::{RecordView, ServiceRecord};

verus! {

/// The lines of `text`: the pieces between its line feeds. A text that ends
/// in a line feed has no empty last line.
pub open spec fn lines(text: Seq<char>) -> Seq<Seq<char>>
    decreases text.len(),
{
    let n = prefix_len(text, other_than('\n')) as int;
    if text.len() == 0 {
        Seq::empty()
    } else if n >= text.len() {
        seq![text]
    } else {
        seq![text.take(n)] + lines(text.skip(n + 1))
    }
}

/// The function that gives the record a line defines, if it defines one.
pub open spec fn line_record() -> spec_fn(Seq<char>) -> Option<RecordView> {
    |line: Seq<char>| spec_parse_line(line)
}

/// The records that the lines of `text` define, in the order of the lines.
pub open spec fn spec_parse_services_file(text: Seq<char>) -> Seq<RecordView> {
    lines(text).filter_map(line_record())
}

/// The records that the lines of `source` define, in the order of the lines.
pub fn parse_services_file(source: &str) -> (records: Vec<ServiceRecord>)
    ensures
        records.deep_view() == spec_parse_services_file(source@),
{
    let chars = chars_of(source);
    let text = chars.as_slice();
    let mut records: Vec<ServiceRecord> = Vec::new();
    let mut at: usize = 0;
    let ghost mut done: Seq<Seq<char>> = Seq::empty();
    proof {
        assert(text@.skip(0) == text@);
    }
    while at < text.len()
        invariant
            at <= text@.len(),
            done + lines(text@.skip(at as int)) == lines(text@),
            records.deep_view() == done.filter_map(line_record()),
        decreases text@.len() - at,
    {
        let end = find_char(text, at, '\n');
        let line = slice_subrange(text, at, end);
        let ghost rest = text@.skip(at as int);
        proof {
            assert(rest.take(end - at) == line@);
            if end < text@.len() {
                assert(rest.skip(end - at + 1) == text@.skip(end + 1));
            }
            assert(done.push(line@).drop_last() == done);
        }
        match parse_line(line) {
            Some(record) => {
                records.push(record);
            },
            None => {},
        }
        proof {
            done = done.push(line@);
        }
        at = if end < text.len() {
            end + 1
        } else {
            end
        };
    }
    records
}

/// The records with port `target_port` that the lines of `source` define, in
/// the order of the lines, or nothing if no line defines one.
pub fn lookup_by_port_impl(source: &str, target_port: u16) -> (result: Option<Vec<ServiceRecord>>)
    ensures
        result.deep_view() == found(with_port(spec_parse_services_file(source@), target_port)),
{
    let records = parse_services_file(source);
    answer(select_port(&records, target_port))
}

/// The records with name `target_name` that the lines of `source` define, in
/// the order of the lines, or nothing if no line defines one.
pub fn lookup_by_name_impl(source: &str, target_name: &str) -> (result: Option<
    Vec<ServiceRecord>,
>)
    ensures
        result.deep_view() == found(with_name(spec_parse_services_file(source@), target_name@)),
{
    let records = parse_services_file(source);
    answer(select_name(&records, target_name))
}

/// Every record that a text defines has a name: a lookup of the empty name
/// finds nothing.
pub proof fn lemma_no_record_without_name(text: Seq<char>)
    ensures
        with_name(spec_parse_services_file(text), Seq::empty()) == Seq::<RecordView>::empty(),
{
    let records = spec_parse_services_file(text);
    let matches = with_name(records, Seq::empty());
    if matches.len() > 0 {
        let r = matches[0];
        assert(matches.contains(r));
        lemma_filter_keeps(records, has_name(Seq::empty()), r);
        lines(text).lemma_filter_map_contains(line_record(), r);
        let line = choose|line: Seq<char>| #[trigger]
            lines(text).contains(line) && line_record()(line) == Some(r);
        lemma_line_record_has_name(line);
    }
}

/// A lookup by port finds the record of every line that defines one: the
/// answer for the record's port includes the record.
pub proof fn lemma_line_record_is_found(text: Seq<char>, i: int)
    requires
        0 <= i < lines(text).len(),
        spec_parse_line(lines(text)[i]) is Some,
    ensures
        found(with_port(spec_parse_services_file(text), spec_parse_line(lines(text)[i])->0.port))
            is Some,
        found(
            with_port(spec_parse_services_file(text), spec_parse_line(lines(text)[i])->0.port),
        )->0.contains(spec_parse_line(lines(text)[i])->0),
{
    lemma_filter_map_includes(lines(text), line_record(), i);
    lemma_port_lookup_includes(spec_parse_services_file(text), spec_parse_line(lines(text)[i])->0);
}

/// A lookup by port finds nothing exactly if no line defines a record with
/// that port.
pub proof fn lemma_port_without_line_is_not_found(text: Seq<char>, port: u16)
    ensures
        found(with_port(spec_parse_services_file(text), port)) is None <==> forall|i: int|
            0 <= i < lines(text).len() && spec_parse_line(#[trigger] lines(text)[i]) is Some
                ==> spec_parse_line(lines(text)[i])->0.port != port,
{
    let all = lines(text);
    let records = spec_parse_services_file(text);
    lemma_port_lookup_not_found(records, port);
    if found(with_port(records, port)) is None {
        assert forall|i: int|
            0 <= i < all.len() && spec_parse_line(#[trigger] all[i]) is Some implies
            spec_parse_line(all[i])->0.port != port by {
            lemma_filter_map_includes(all, line_record(), i);
            let k = choose|k: int|
                0 <= k < records.len() && records[k] == spec_parse_line(all[i])->0;
            assert(records[k].port != port);
        }
    } else {
        let k = choose|k: int| 0 <= k < records.len() && (#[trigger] records[k]).port == port;
        assert(records.contains(records[k]));
        all.lemma_filter_map_contains(line_record(), records[k]);
        let line = choose|line: Seq<char>| #[trigger]
            all.contains(line) && line_record()(line) == Some(records[k]);
        let i = choose|i: int| 0 <= i < all.len() && all[i] == line;
        assert(spec_parse_line(all[i])->0.port == port);
    }
}

} // verus!
