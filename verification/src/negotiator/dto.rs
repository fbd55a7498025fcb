//! What devices send each other while they negotiate access.

use vstd::prelude::*;

use crate::channel::message::opt_view;
use crate::kernel::session_api::ShareTokenView;
use crate::message::{
    texts, Delivery, EndpointId, EndpointStrategy, MediaKind, PickRule, ReliabilityProfile,
    StrategyModel, TransportId,
};

verus! {

/// The body of an answer that reports an error.
#[derive(Debug)]
pub struct ApiError {
    pub error: String,
}

/// Tells a node that another one no longer subscribes to one of its endpoints.
#[derive(Debug)]
pub struct UnsubscribeRequest {
    pub node_id: String,
    pub endpoint_kind: MediaKind,
    pub endpoint_id: u32,
}

/// How many subscribers an endpoint still has.
#[derive(Debug, Clone, Copy, PartialEq, Eq, Structural)]
pub struct UnsubscribeResp {
    pub remaining_subscribers: u32,
}

/// Asks for access: to an endpoint, or, without one, for a token to push the given media.
#[derive(Debug)]
pub struct ShareRequest {
    pub device_id: String,
    pub device_name: String,
    pub endpoint_id: Option<EndpointId>,
    pub strategy_id: Option<String>,
    pub delivery_mode: Option<Delivery>,
    pub relay_addr: Option<String>,
    pub share_token: Option<String>,
    pub media: Vec<MediaKind>,
}

/// The ports at which a stream can be fetched.
#[derive(Debug, Clone, Copy, PartialEq, Eq, Structural)]
pub struct RelayAddr {
    pub ws_port: u16,
    pub srt_port: Option<u16>,
    pub quic_port: Option<u16>,
}

/// What is granted.
#[derive(Debug)]
pub struct ShareGrant {
    pub view: ShareTokenView,
    /// Whether the device that asked is trusted.
    pub trusted: bool,
    pub delivery: Option<Delivery>,
    pub transports: Option<Vec<TransportId>>,
    pub transport_profile: Option<ReliabilityProfile>,
    pub pick_rule: Option<PickRule>,
    pub strategy: Option<EndpointStrategy>,
    pub relay: Option<RelayAddr>,
}

/// What a shown token is, as a mathematical value.
pub struct TokenViewModel {
    pub token: Seq<char>,
    pub stream_id: Seq<char>,
    pub pin: Seq<char>,
    pub expires_at: u64,
}

impl View for ShareTokenView {
    type V = TokenViewModel;

    open spec fn view(&self) -> TokenViewModel {
        TokenViewModel {
            token: self.token@,
            stream_id: self.stream_id@,
            pin: self.pin@,
            expires_at: self.expires_at,
        }
    }
}

impl Clone for ShareTokenView {
    fn clone(&self) -> (r: Self)
        ensures
            r@ == self@,
    {
        ShareTokenView {
            token: self.token.clone(),
            stream_id: self.stream_id.clone(),
            pin: self.pin.clone(),
            expires_at: self.expires_at,
        }
    }
}

/// What is granted, as a mathematical value.
#[verifier::ext_equal]
pub struct GrantModel {
    pub view: TokenViewModel,
    pub trusted: bool,
    pub delivery: Option<Delivery>,
    pub transports: Option<Seq<TransportId>>,
    pub transport_profile: Option<ReliabilityProfile>,
    pub pick_rule: Option<PickRule>,
    pub strategy: Option<StrategyModel>,
    pub relay: Option<RelayAddr>,
}

impl View for ShareGrant {
    type V = GrantModel;

    open spec fn view(&self) -> GrantModel {
        GrantModel {
            view: self.view@,
            trusted: self.trusted,
            delivery: self.delivery,
            transports: match self.transports {
                Some(v) => Some(v@),
                None => None,
            },
            transport_profile: self.transport_profile,
            pick_rule: self.pick_rule,
            strategy: match self.strategy {
                Some(s) => Some(s@),
                None => None,
            },
            relay: self.relay,
        }
    }
}

fn clone_transport_ids(v: &Vec<TransportId>) -> (r: Vec<TransportId>)
    ensures
        r@ == v@,
{
    let r = v.clone();
    assert(r@ =~= v@);
    r
}

impl Clone for ShareGrant {
    fn clone(&self) -> (r: Self)
        ensures
            r@ == self@,
    {
        ShareGrant {
            view: self.view.clone(),
            trusted: self.trusted,
            delivery: self.delivery,
            transports: match &self.transports {
                Some(v) => Some(clone_transport_ids(v)),
                None => None,
            },
            transport_profile: self.transport_profile,
            pick_rule: self.pick_rule,
            strategy: match &self.strategy {
                Some(s) => Some(s.clone()),
                None => None,
            },
            relay: self.relay,
        }
    }
}

/// A request that waits for the user.
#[derive(Debug)]
pub struct PendingRequest {
    pub id: String,
    pub device_id: String,
    pub device_name: String,
    /// The names of the media that are asked for.
    pub media: Vec<String>,
    /// The name of the endpoint that is asked for.
    pub endpoint_name: Option<String>,
    /// Unix time in seconds; zero when it is not known.
    pub created_at: u64,
}

/// What a waiting request is, as a mathematical value.
#[verifier::ext_equal]
pub struct PendingModel {
    pub id: Seq<char>,
    pub device_id: Seq<char>,
    pub device_name: Seq<char>,
    pub media: Seq<Seq<char>>,
    pub endpoint_name: Option<Seq<char>>,
    pub created_at: u64,
}

impl View for PendingRequest {
    type V = PendingModel;

    open spec fn view(&self) -> PendingModel {
        PendingModel {
            id: self.id@,
            device_id: self.device_id@,
            device_name: self.device_name@,
            media: texts(self.media@),
            endpoint_name: opt_view(self.endpoint_name),
            created_at: self.created_at,
        }
    }
}

} // verus!
