//! Loading of outgoing frames: the sender's counterpart of interpretation.

use vstd::prelude::*;

use crate::frame::Frame;
use crate::message::{EndpointStrategy, PickRule, SerializeRule};

verus! {

/// Loads frames for sending under a strategy.
pub trait Loader: Sized {
    /// The rule under which the receiver reads the frames.
    spec fn spec_rule(&self) -> PickRule;

    /// The rule under which frames are packed.
    spec fn spec_serialize_rule(&self) -> SerializeRule;

    fn rule(&self) -> (r: PickRule)
        ensures
            r == self.spec_rule(),
    ;

    fn serialize_rule(&self) -> (r: SerializeRule)
        ensures
            r == self.spec_serialize_rule(),
    ;

    /// The frame as it is sent. A passthrough loader sends it as it is.
    fn load(&self, frame: Frame) -> (r: Frame)
        ensures
            self.spec_serialize_rule() == SerializeRule::Passthrough ==> r == frame,
    ;
}

/// A loader that sends frames as they are.
pub struct PassthroughLoader {
    serialize: SerializeRule,
    rule: PickRule,
}

impl PassthroughLoader {
    pub fn new(serialize: SerializeRule, rule: PickRule) -> (r: PassthroughLoader)
        ensures
            r.spec_serialize_rule() == serialize,
            r.spec_rule() == rule,
    {
        PassthroughLoader { serialize, rule }
    }
}

impl Loader for PassthroughLoader {
    closed spec fn spec_rule(&self) -> PickRule {
        self.rule
    }

    closed spec fn spec_serialize_rule(&self) -> SerializeRule {
        self.serialize
    }

    fn rule(&self) -> (r: PickRule) {
        self.rule
    }

    fn serialize_rule(&self) -> (r: SerializeRule) {
        self.serialize
    }

    fn load(&self, frame: Frame) -> (r: Frame)
        ensures
            r == frame,
    {
        frame
    }
}

/// The loader of a strategy, or `None` when no loader implements its packing rule: such a
/// strategy is refused rather than silently downgraded.
pub fn loader_for(strategy: &EndpointStrategy) -> (r: Option<PassthroughLoader>)
    ensures
        match r {
            Some(l) => {
                &&& strategy.serialize == SerializeRule::Passthrough
                &&& l.spec_serialize_rule() == strategy.serialize
                &&& l.spec_rule() == strategy.pick
            },
            None => strategy.serialize == SerializeRule::Chunked,
        },
{
    match strategy.serialize {
        SerializeRule::Passthrough => Some(
            PassthroughLoader::new(strategy.serialize, strategy.pick),
        ),
        SerializeRule::Chunked => None,
    }
}

/// What is loaded for a strategy is sent as it is and read by the rule of the strategy; a packing that
/// nothing implements is refused.
pub proof fn law_loaded_frame_is_sent_as_it_is(
    strategy: &EndpointStrategy,
    r: Option<PassthroughLoader>,
    l: &PassthroughLoader,
    frame: Frame,
    sent: Frame,
    rule: PickRule,
)
    requires
        call_ensures(loader_for, (strategy,), r),
        r matches Some(x) ==> *l == x,
        call_ensures(<PassthroughLoader as Loader>::load, (l, frame), sent),
        call_ensures(<PassthroughLoader as Loader>::rule, (l,), rule),
    ensures
        r is Some <==> strategy.serialize is Passthrough,
        sent == frame,
        r is Some ==> rule == strategy.pick,
{
}

} // verus!
