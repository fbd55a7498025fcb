//! What a node tells about itself when it is looked for.

use vstd::prelude::*;

use crate::kernel::endpoint::manifest::EndpointSummary;
use crate::message::{CodecId, MediaKind, TransportId};

verus! {

/// What a node does for others.
#[derive(Debug, Clone, Copy, PartialEq, Eq, Structural)]
pub enum RoleId {
    Sender,
    Viewer,
    Relay,
}

/// Version of the announcement.
pub const DISCOVERY_INFO_VERSION: u32 = 1;

/// What a node announces about itself.
#[derive(Debug)]
pub struct DiscoveryInfo {
    pub v: u32,
    pub name: String,
    pub roles: Vec<RoleId>,
    pub media: Vec<MediaKind>,
    pub transports: Vec<TransportId>,
    pub codecs: Vec<CodecId>,
    pub endpoints: Vec<EndpointSummary>,
}

/// The roles of a node with a relay.
pub open spec fn relay_roles() -> Seq<RoleId> {
    seq![RoleId::Sender, RoleId::Viewer, RoleId::Relay]
}

/// The transports of a node with a relay.
pub open spec fn relay_transports() -> Seq<TransportId> {
    seq![TransportId::Ws, TransportId::Srt, TransportId::Quic]
}

/// The codecs of a node with a relay.
pub open spec fn relay_codecs() -> Seq<CodecId> {
    seq![CodecId::H264, CodecId::Aac]
}

impl DiscoveryInfo {
    /// The announcement of a node with a relay.
    pub fn relay_default(name: String, media: Vec<MediaKind>, endpoints: Vec<EndpointSummary>) -> (r:
        DiscoveryInfo)
        ensures
            r.v == DISCOVERY_INFO_VERSION,
            r.name == name,
            r.roles@ == relay_roles(),
            r.media == media,
            r.transports@ == relay_transports(),
            r.codecs@ == relay_codecs(),
            r.endpoints == endpoints,
    {
        let mut roles: Vec<RoleId> = Vec::new();
        roles.push(RoleId::Sender);
        roles.push(RoleId::Viewer);
        roles.push(RoleId::Relay);
        let mut transports: Vec<TransportId> = Vec::new();
        transports.push(TransportId::Ws);
        transports.push(TransportId::Srt);
        transports.push(TransportId::Quic);
        let mut codecs: Vec<CodecId> = Vec::new();
        codecs.push(CodecId::H264);
        codecs.push(CodecId::Aac);
        assert(roles@ =~= relay_roles());
        assert(transports@ =~= relay_transports());
        assert(codecs@ =~= relay_codecs());
        DiscoveryInfo {
            v: DISCOVERY_INFO_VERSION,
            name,
            roles,
            media,
            transports,
            codecs,
            endpoints,
        }
    }
}

/// What a node answers when it is asked who it is: where its relay is reached, and what it does.
#[derive(Debug)]
pub struct DiscoveryResp {
    pub node_id: String,
    pub name: String,
    pub relay_port: u16,
    pub srt_port: Option<u16>,
    pub quic_port: Option<u16>,
    pub roles: Vec<RoleId>,
    pub media: Vec<MediaKind>,
    pub transports: Vec<TransportId>,
    pub endpoints: Vec<EndpointSummary>,
}

} // verus!
