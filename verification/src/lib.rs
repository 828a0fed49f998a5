//! Service names and port numbers.
//!
//! A [`ServiceRecord`] associates a service name with a port and a transport
//! protocol, and may carry descriptive metadata. Records come from one of two
//! sources: a [`embedded::Registry`], indexed once from the rows of a
//! registry feed, or the text of a service-definitions file, which
//! [`runtime`] scans on every lookup. [`lookup_by_port`] and
//! [`lookup_by_name`] answer from whichever source they are given.
//!
//! Every function is verified against a contract stated over the view of a
//! record, [`RecordView`], and over sequences of characters. The proofs rest
//! on the specifications that vstd gives to std and on one assumption of this
//! crate's own, the contract of `String::push` in [`text`].

use vstd::prelude::*;
use crate::embedded::Registry;
use crate::query::{found, lemma_name_lookup_exact, named, with_name, with_port};
use crate::runtime::{lemma_no_record_without_name, spec_parse_services_file};

pub mod embedded;
pub mod field;
pub mod line;
pub mod order;
pub mod query;
pub mod row;
pub mod runtime;
pub mod text;

verus! {

/// Transport protocol of a service.
#[derive(Debug, Clone, Copy, PartialEq, Eq, Hash, Structural)]
pub enum TransportProtocol {
    /// Transmission Control Protocol
    Tcp,
    /// User Datagram Protocol
    Udp,
}

/// One association of a service name with a port and a protocol.
#[derive(Debug, PartialEq, Eq)]
pub struct ServiceRecord {
    /// Service name; empty for a reserved or unassigned port.
    pub name: String,
    /// Port number.
    pub port: u16,
    /// Transport protocol.
    pub protocol: TransportProtocol,
    /// Description of the service; empty where the source gives none.
    pub description: String,
    /// Organization or person to whom the port is assigned.
    pub assignee: Option<String>,
    /// Contact information for the assignee.
    pub contact: Option<String>,
    /// Date on which the service was registered.
    pub registration_date: Option<String>,
    /// Date on which the record was last modified.
    pub modification_date: Option<String>,
    /// Reference documentation.
    pub reference: Option<String>,
    /// Service code.
    pub service_code: Option<String>,
    /// Whether unauthorized use has been reported.
    pub unauthorized_use: Option<String>,
    /// Notes about the assignment.
    pub assignment_notes: Option<String>,
}

/// What a [`ServiceRecord`] holds, with every text as its sequence of
/// characters.
pub ghost struct RecordView {
    pub name: Seq<char>,
    pub port: u16,
    pub protocol: TransportProtocol,
    pub description: Seq<char>,
    pub assignee: Option<Seq<char>>,
    pub contact: Option<Seq<char>>,
    pub registration_date: Option<Seq<char>>,
    pub modification_date: Option<Seq<char>>,
    pub reference: Option<Seq<char>>,
    pub service_code: Option<Seq<char>>,
    pub unauthorized_use: Option<Seq<char>>,
    pub assignment_notes: Option<Seq<char>>,
}

/// Whether `text` is absent or not empty.
pub open spec fn absent_or_not_empty(text: Option<Seq<char>>) -> bool {
    text matches Some(t) ==> t.len() > 0
}

impl RecordView {
    /// Whether each of the optional texts is absent or not empty: an empty
    /// text never stands for an absent one.
    pub open spec fn well_formed(self) -> bool {
        &&& absent_or_not_empty(self.assignee)
        &&& absent_or_not_empty(self.contact)
        &&& absent_or_not_empty(self.registration_date)
        &&& absent_or_not_empty(self.modification_date)
        &&& absent_or_not_empty(self.reference)
        &&& absent_or_not_empty(self.service_code)
        &&& absent_or_not_empty(self.unauthorized_use)
        &&& absent_or_not_empty(self.assignment_notes)
    }
}

impl View for ServiceRecord {
    type V = RecordView;

    open spec fn view(&self) -> RecordView {
        RecordView {
            name: self.name@,
            port: self.port,
            protocol: self.protocol,
            description: self.description@,
            assignee: self.assignee.deep_view(),
            contact: self.contact.deep_view(),
            registration_date: self.registration_date.deep_view(),
            modification_date: self.modification_date.deep_view(),
            reference: self.reference.deep_view(),
            service_code: self.service_code.deep_view(),
            unauthorized_use: self.unauthorized_use.deep_view(),
            assignment_notes: self.assignment_notes.deep_view(),
        }
    }
}

impl DeepView for ServiceRecord {
    type V = RecordView;

    open spec fn deep_view(&self) -> RecordView {
        self@
    }
}

/// Copies an optional text.
fn clone_optional(text: &Option<String>) -> (copy: Option<String>)
    ensures
        copy.deep_view() == text.deep_view(),
{
    match text {
        Some(s) => Some(s.clone()),
        None => None,
    }
}

impl Clone for ServiceRecord {
    fn clone(&self) -> (copy: Self)
        ensures
            copy@ == self@,
    {
        ServiceRecord {
            name: self.name.clone(),
            port: self.port,
            protocol: self.protocol,
            description: self.description.clone(),
            assignee: clone_optional(&self.assignee),
            contact: clone_optional(&self.contact),
            registration_date: clone_optional(&self.registration_date),
            modification_date: clone_optional(&self.modification_date),
            reference: clone_optional(&self.reference),
            service_code: clone_optional(&self.service_code),
            unauthorized_use: clone_optional(&self.unauthorized_use),
            assignment_notes: clone_optional(&self.assignment_notes),
        }
    }
}

/// Where the records of a lookup come from.
pub enum ServiceSource {
    /// A registry that was indexed ahead of time.
    Embedded(Registry),
    /// The text of a service-definitions file, scanned on every lookup.
    Runtime(String),
}

impl ServiceSource {
    /// The records of the source, in its order: that of the registry, or
    /// that of the lines of the text.
    pub open spec fn records(&self) -> Seq<RecordView> {
        match self {
            ServiceSource::Embedded(registry) => registry.records(),
            ServiceSource::Runtime(text) => spec_parse_services_file(text@),
        }
    }
}

/// The records of `source` with port `port`, of either protocol, in the order
/// of the source, or nothing if it has none.
pub fn lookup_by_port(source: &ServiceSource, port: u16) -> (result: Option<Vec<ServiceRecord>>)
    ensures
        result.deep_view() == found(with_port(source.records(), port)),
{
    match source {
        ServiceSource::Embedded(registry) => embedded::lookup_by_port_impl(registry, port),
        ServiceSource::Runtime(text) => runtime::lookup_by_port_impl(text.as_str(), port),
    }
}

/// The records of `source` with name `name`, of any port and protocol, in the
/// order of the source, or nothing if it has none. Names are compared as they
/// are written. A lookup of the empty name finds nothing.
pub fn lookup_by_name(source: &ServiceSource, name: &str) -> (result: Option<Vec<ServiceRecord>>)
    ensures
        result.deep_view() == found(named(source.records(), name@)),
{
    match source {
        ServiceSource::Embedded(registry) => embedded::lookup_by_name_impl(registry, name),
        ServiceSource::Runtime(text) => {
            proof {
                if name@.len() == 0 {
                    assert(name@ == Seq::<char>::empty());
                    lemma_no_record_without_name(text@);
                }
            }
            runtime::lookup_by_name_impl(text.as_str(), name)
        },
    }
}

/// Two lookups of one port in one source give the same answer.
pub proof fn lemma_lookup_by_port_repeats(
    source: ServiceSource,
    port: u16,
    first: Option<Vec<ServiceRecord>>,
    second: Option<Vec<ServiceRecord>>,
)
    requires
        first.deep_view() == found(with_port(source.records(), port)),
        second.deep_view() == found(with_port(source.records(), port)),
    ensures
        first.deep_view() == second.deep_view(),
{
}

/// Two lookups of one name in one source give the same answer.
pub proof fn lemma_lookup_by_name_repeats(
    source: ServiceSource,
    name: Seq<char>,
    first: Option<Vec<ServiceRecord>>,
    second: Option<Vec<ServiceRecord>>,
)
    requires
        first.deep_view() == found(named(source.records(), name)),
        second.deep_view() == found(named(source.records(), name)),
    ensures
        first.deep_view() == second.deep_view(),
{
}

/// A lookup by name answers with every record of the source that has the
/// name, whatever its port and protocol, and with no other record. The one
/// exception is the empty name in a registry that holds records without a
/// name: they are not indexed, and the lookup finds nothing.
pub proof fn lemma_lookup_by_name_is_exact(source: ServiceSource, name: Seq<char>, r: RecordView)
    requires
        name.len() > 0 || source is Runtime || with_name(source.records(), name).len() == 0,
    ensures
        named(source.records(), name).contains(r) <==> source.records().contains(r) && r.name
            == name,
{
    lemma_name_lookup_exact(source.records(), name, r);
    if name.len() == 0 && source is Runtime {
        assert(name == Seq::<char>::empty());
        lemma_no_record_without_name(source->Runtime_0@);
    }
}

} // verus!
