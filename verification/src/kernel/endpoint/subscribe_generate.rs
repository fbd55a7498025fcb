//! What builds the receiving end of a subscription.

use vstd::prelude::*;

use crate::kernel::endpoint::manifest::str_view;
use crate::message::{EndpointClass, EndpointId, MediaKind, SubscribeSpec};
use crate::table::Table;

verus! {

/// What builds the receiving end of a subscription.
#[derive(Debug, Clone, Copy, PartialEq, Eq, Structural)]
pub enum SubscribeEndpointFactory {
    /// Writes what it receives to a file.
    FileReceiver,
    /// Decodes what it receives.
    MediaReceiver,
    /// A builder that the program around the kernel keeps under this number.
    Registered(u32),
}

/// The receiving end of a subscription.
#[derive(Debug)]
pub enum SubscribeEndpoint {
    File { id: EndpointId, name: String, out_dir: String },
    Media { id: EndpointId, name: String, kind: MediaKind },
    /// To be built by the builder with this number.
    Registered { factory: u32 },
}

/// What a receiving end is, as a mathematical value.
pub enum ReceiverModel {
    File { id: EndpointId, name: Seq<char>, out_dir: Seq<char> },
    Media { id: EndpointId, name: Seq<char>, kind: MediaKind },
    Registered { factory: u32 },
}

impl View for SubscribeEndpoint {
    type V = ReceiverModel;

    open spec fn view(&self) -> ReceiverModel {
        match self {
            SubscribeEndpoint::File { id, name, out_dir } => ReceiverModel::File {
                id: *id,
                name: name@,
                out_dir: out_dir@,
            },
            SubscribeEndpoint::Media { id, name, kind } => ReceiverModel::Media {
                id: *id,
                name: name@,
                kind: *kind,
            },
            SubscribeEndpoint::Registered { factory } => ReceiverModel::Registered {
                factory: *factory,
            },
        }
    }
}

/// The builders that are there from the start: files are written, pictures and sound are decoded.
pub open spec fn default_map() -> Map<EndpointClass, SubscribeEndpointFactory> {
    Map::empty().insert(EndpointClass::File, SubscribeEndpointFactory::FileReceiver).insert(
        EndpointClass::Graph,
        SubscribeEndpointFactory::MediaReceiver,
    ).insert(EndpointClass::Audio, SubscribeEndpointFactory::MediaReceiver)
}

pub(crate) fn default_factories() -> (r: Table<EndpointClass, SubscribeEndpointFactory>)
    ensures
        r.wf(),
        r@ == default_map(),
{
    let mut r: Table<EndpointClass, SubscribeEndpointFactory> = Table::new();
    let _ = r.insert(EndpointClass::File, SubscribeEndpointFactory::FileReceiver);
    let _ = r.insert(EndpointClass::Graph, SubscribeEndpointFactory::MediaReceiver);
    let _ = r.insert(EndpointClass::Audio, SubscribeEndpointFactory::MediaReceiver);
    r
}

/// The receiving end that a builder makes for a subscription.
pub open spec fn built(
    factory: SubscribeEndpointFactory,
    kind: MediaKind,
    id: EndpointId,
    out_dir: Seq<char>,
) -> ReceiverModel {
    match factory {
        SubscribeEndpointFactory::FileReceiver => ReceiverModel::File {
            id,
            name: kind.label(),
            out_dir,
        },
        SubscribeEndpointFactory::MediaReceiver => ReceiverModel::Media {
            id,
            name: kind.label(),
            kind,
        },
        SubscribeEndpointFactory::Registered(n) => ReceiverModel::Registered { factory: n },
    }
}

/// Builds the receiving end of a subscription. Files go to `out_dir`, or to `temp_dir` when none
/// is given.
pub fn build(
    factory: SubscribeEndpointFactory,
    spec: &SubscribeSpec,
    out_dir: Option<&str>,
    temp_dir: &str,
) -> (r: SubscribeEndpoint)
    ensures
        r@ == built(
            factory,
            spec.kind,
            spec.endpoint(),
            match str_view(out_dir) {
                Some(d) => d,
                None => temp_dir@,
            },
        ),
{
    let id = EndpointId::new(spec.kind, spec.endpoint_id);
    match factory {
        SubscribeEndpointFactory::FileReceiver => SubscribeEndpoint::File {
            id,
            name: spec.kind.as_str().to_owned(),
            out_dir: match out_dir {
                Some(d) => d.to_owned(),
                None => temp_dir.to_owned(),
            },
        },
        SubscribeEndpointFactory::MediaReceiver => SubscribeEndpoint::Media {
            id,
            name: spec.kind.as_str().to_owned(),
            kind: spec.kind,
        },
        SubscribeEndpointFactory::Registered(n) => SubscribeEndpoint::Registered { factory: n },
    }
}

} // verus!
