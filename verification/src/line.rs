//! One line of a service-definitions file.
//!
//! A line that defines a service holds a name, then a port and a protocol
//! with a `/` between them, then aliases, and may end in a comment that a `#`
//! starts:
//!
//! ```text
//! http    80/tcp    www www-http    # WorldWideWeb HTTP
//! ```
//!
//! Any other line defines nothing.

use vstd::prelude::*;
use vstd::slice::slice_subrange;
use crate::field::{parse_port, parse_protocol, spec_parse_port, spec_parse_protocol};
use crate::text::{
    find_char, lemma_prefix_len, lemma_prefix_len_other_than, other_than, pieces, prefix_len,
    printing, push_all, spec_split_whitespace, spec_trim, spec_trim_start, split_whitespace,
    string_of, trim, within,
};
use crate::{RecordView, ServiceRecord};

verus! {

/// The two parts of `word` around its `/`, if it holds exactly one.
pub open spec fn spec_split_port_protocol(word: Seq<char>) -> Option<(Seq<char>, Seq<char>)> {
    let at = prefix_len(word, other_than('/')) as int;
    let rest = word.skip(at + 1);
    if word.contains('/') && !rest.contains('/') {
        Some((word.take(at), rest))
    } else {
        None
    }
}

/// `words` with one space between each two of them.
pub open spec fn spec_join(words: Seq<Seq<char>>) -> Seq<char>
    decreases words.len(),
{
    if words.len() == 0 {
        Seq::empty()
    } else if words.len() == 1 {
        words[0]
    } else {
        spec_join(words.drop_last()) + seq![' '] + words.last()
    }
}

/// The description that a line without surrounding whitespace gives: what
/// follows its first `#`, without surrounding whitespace; on a line without
/// `#`, the words after the second, with one space between each two.
pub open spec fn spec_description(line: Seq<char>) -> Seq<char> {
    let at = prefix_len(line, other_than('#')) as int;
    if line.contains('#') {
        spec_trim(line.skip(at + 1))
    } else {
        spec_join(spec_split_whitespace(line).skip(2))
    }
}

/// The record that the line `raw` defines, if it defines one.
///
/// A line defines a record if, once the whitespace around it is removed, it
/// is not empty, does not start with `#`, and has at least two words, the
/// second of which is a port, a `/` and a protocol. The first word is the
/// record's name.
pub open spec fn spec_parse_line(raw: Seq<char>) -> Option<RecordView> {
    let line = spec_trim(raw);
    let words = spec_split_whitespace(line);
    if line.len() == 0 || line[0] == '#' || words.len() < 2 {
        None
    } else {
        match spec_split_port_protocol(words[1]) {
            None => None,
            Some((port, protocol)) => match (spec_parse_port(port), spec_parse_protocol(protocol)) {
                (Some(port), Some(protocol)) => Some(
                    RecordView {
                        name: words[0],
                        port,
                        protocol,
                        description: spec_description(line),
                        assignee: None,
                        contact: None,
                        registration_date: None,
                        modification_date: None,
                        reference: None,
                        service_code: None,
                        unauthorized_use: None,
                        assignment_notes: None,
                    },
                ),
                _ => None,
            },
        }
    }
}

/// The two parts of `word` around its `/`, if it holds exactly one.
pub fn split_port_protocol(word: &[char]) -> (parts: Option<(&[char], &[char])>)
    ensures
        match parts {
            Some((port, protocol)) => spec_split_port_protocol(word@) == Some(
                (port@, protocol@),
            ),
            None => spec_split_port_protocol(word@) is None,
        },
{
    let at = find_char(word, 0, '/');
    proof {
        assert(word@.skip(0) == word@);
        lemma_prefix_len_other_than(word@, '/');
    }
    if at == word.len() {
        return None;
    }
    let second = find_char(word, at + 1, '/');
    proof {
        lemma_prefix_len_other_than(word@.skip(at + 1), '/');
    }
    if second < word.len() {
        return None;
    }
    let port = slice_subrange(word, 0, at);
    let protocol = slice_subrange(word, at + 1, word.len());
    Some((port, protocol))
}

/// The pieces of `line` from the one numbered `from` on, with one space
/// between each two.
fn join(line: &[char], bounds: &Vec<(usize, usize)>, from: usize) -> (joined: Vec<char>)
    requires
        within(bounds@, line@.len()),
        from <= bounds@.len(),
    ensures
        joined@ == spec_join(pieces(line@, bounds@).skip(from as int)),
{
    let mut joined: Vec<char> = Vec::new();
    let mut next: usize = from;
    let ghost words = pieces(line@, bounds@).skip(from as int);
    while next < bounds.len()
        invariant
            from <= next <= bounds@.len(),
            within(bounds@, line@.len()),
            words == pieces(line@, bounds@).skip(from as int),
            joined@ == spec_join(words.take(next - from)),
        decreases bounds@.len() - next,
    {
        if next > from {
            joined.push(' ');
        }
        let (start, end) = bounds[next];
        push_all(&mut joined, slice_subrange(line, start, end));
        proof {
            let done = words.take(next - from + 1);
            assert(done.drop_last() == words.take(next - from));
        }
        next += 1;
    }
    proof {
        assert(words.take(next - from) == words);
    }
    joined
}

/// The description that `line` gives, where `bounds` delimits its words.
fn describe(line: &[char], bounds: &Vec<(usize, usize)>) -> (description: String)
    requires
        within(bounds@, line@.len()),
        pieces(line@, bounds@) == spec_split_whitespace(line@),
        bounds@.len() >= 2,
    ensures
        description@ == spec_description(line@),
{
    let at = find_char(line, 0, '#');
    proof {
        assert(line@.skip(0) == line@);
        lemma_prefix_len_other_than(line@, '#');
    }
    if at < line.len() {
        let comment = trim(slice_subrange(line, at + 1, line.len()));
        string_of(comment)
    } else {
        let joined = join(line, bounds, 2);
        string_of(joined.as_slice())
    }
}

/// The record that the line `raw` defines, if it defines one.
pub fn parse_line(raw: &[char]) -> (record: Option<ServiceRecord>)
    ensures
        record.deep_view() == spec_parse_line(raw@),
{
    let line = trim(raw);
    if line.len() == 0 || line[0] == '#' {
        return None;
    }
    let bounds = split_whitespace(line);
    if bounds.len() < 2 {
        return None;
    }
    let name = slice_subrange(line, bounds[0].0, bounds[0].1);
    let second = slice_subrange(line, bounds[1].0, bounds[1].1);
    match split_port_protocol(second) {
        None => None,
        Some((port, protocol)) => match (parse_port(port), parse_protocol(protocol)) {
            (Some(port), Some(protocol)) => Some(
                ServiceRecord {
                    name: string_of(name),
                    port,
                    protocol,
                    description: describe(line, &bounds),
                    assignee: None,
                    contact: None,
                    registration_date: None,
                    modification_date: None,
                    reference: None,
                    service_code: None,
                    unauthorized_use: None,
                    assignment_notes: None,
                },
            ),
            _ => None,
        },
    }
}

/// The record that a line defines carries no text but its name and its
/// description: a line has no place for any other.
pub proof fn lemma_line_record_is_plain(raw: Seq<char>)
    ensures
        spec_parse_line(raw) matches Some(r) ==> {
            &&& r.assignee is None
            &&& r.contact is None
            &&& r.registration_date is None
            &&& r.modification_date is None
            &&& r.reference is None
            &&& r.service_code is None
            &&& r.unauthorized_use is None
            &&& r.assignment_notes is None
            &&& r.well_formed()
        },
{
}

/// The record that a line defines has a name.
pub proof fn lemma_line_record_has_name(raw: Seq<char>)
    ensures
        spec_parse_line(raw) is Some ==> spec_parse_line(raw)->0.name.len() > 0,
{
    let line = spec_trim(raw);
    let words = spec_split_whitespace(line);
    if words.len() >= 2 {
        let rest = spec_trim_start(line);
        lemma_prefix_len(rest, printing());
    }
}

} // verus!
