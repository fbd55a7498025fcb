//! One end of a channel: text messages and files in both directions.
//!
//! The session decides; whoever owns the connection and the files performs the effects that the
//! session returns, in their order.

use vstd::prelude::*;
use vstd::string::*;

pub use crate::channel::file_name::sanitize_file_name;
use crate::channel::chunk::{ChannelChunkHeader, CHANNEL_CHUNK_HEADER_LEN};
use crate::channel::file_name::sanitized;
use crate::channel::message::{
    effect_models, ChannelEvent, ChannelMsg, Effect, EffectModel, EventModel, MsgModel,
};
use crate::channel::outbound::{PumpAction, PumpInput, PumpModel, PumpPhase};
use crate::error::Error;
use crate::frame::{Frame, TRACK_CHANNEL};
use crate::table::Table;
use crate::text::{dec, decimal, is_digit, join2, lemma_numeral_injective, lemma_parse_dec};

verus! {

/// How many bytes more than announced a transfer may bring before it is cut off.
pub const OVERFLOW_TOLERANCE: u64 = 1_048_576;

/// A file that is being received.
pub struct InboundTransfer {
    pub name: String,
    pub size: u64,
    pub transferred: u64,
    pub tmp_path: String,
}

/// What an inbound transfer is, as a mathematical value.
pub struct InboundModel {
    pub name: Seq<char>,
    pub size: u64,
    pub transferred: u64,
    pub tmp_path: Seq<char>,
}

impl View for InboundTransfer {
    type V = InboundModel;

    open spec fn view(&self) -> InboundModel {
        InboundModel {
            name: self.name@,
            size: self.size,
            transferred: self.transferred,
            tmp_path: self.tmp_path@,
        }
    }
}

/// The most bytes that a transfer of the announced size may bring.
pub open spec fn byte_limit(size: u64) -> u64 {
    if size + OVERFLOW_TOLERANCE > u64::MAX {
        u64::MAX
    } else {
        (size + OVERFLOW_TOLERANCE) as u64
    }
}

/// A file that is being sent.
#[derive(Debug, Clone, Copy, PartialEq, Eq, Structural)]
pub struct OutboundTransfer {
    /// Whether the peer has decided on the offer.
    pub decided: bool,
}

/// One end of a channel.
pub struct ChannelSession {
    peer_id: String,
    peer_name: String,
    auto_accept: bool,
    next_msg_id: u64,
    next_transfer_id: u32,
    inbounds: Table<u32, InboundTransfer>,
    outbounds: Table<u32, OutboundTransfer>,
    closed: bool,
}

/// What a session is, as a mathematical value.
#[verifier::ext_equal]
pub struct PeerModel {
    pub peer_id: Seq<char>,
    pub peer_name: Seq<char>,
    /// Whether offered files are accepted without asking.
    pub auto_accept: bool,
    pub next_msg_id: u64,
    pub next_transfer_id: u32,
    pub inbounds: Map<u32, InboundModel>,
    pub outbounds: Map<u32, OutboundTransfer>,
    pub closed: bool,
}

/// The models of the inbound transfers.
pub open spec fn inbound_models(m: Map<u32, InboundTransfer>) -> Map<u32, InboundModel> {
    m.map_values(|t: InboundTransfer| t@)
}

impl View for ChannelSession {
    type V = PeerModel;

    closed spec fn view(&self) -> PeerModel {
        PeerModel {
            peer_id: self.peer_id@,
            peer_name: self.peer_name@,
            auto_accept: self.auto_accept,
            next_msg_id: self.next_msg_id,
            next_transfer_id: self.next_transfer_id,
            inbounds: inbound_models(self.inbounds@),
            outbounds: self.outbounds@,
            closed: self.closed,
        }
    }
}

/// The event of a failed transfer.
pub open spec fn failed(transfer_id: u32, reason: Seq<char>) -> EffectModel {
    EffectModel::Event(EventModel::FileFailed { transfer_id, reason })
}

impl PeerModel {
    /// The state without a transfer, in both directions.
    pub open spec fn without_transfer(self, id: u32) -> PeerModel {
        PeerModel { inbounds: self.inbounds.remove(id), outbounds: self.outbounds.remove(id), ..self }
    }

    /// Deletes the unfinished file of an inbound transfer.
    pub open spec fn discard(self, id: u32) -> Seq<EffectModel> {
        if self.inbounds.dom().contains(id) {
            seq![EffectModel::RemoveFile(self.inbounds[id].tmp_path)]
        } else {
            Seq::empty()
        }
    }

    /// Stops the sender of an outbound transfer.
    pub open spec fn halt(self, id: u32) -> Seq<EffectModel> {
        if self.outbounds.dom().contains(id) {
            seq![EffectModel::Cancel(id)]
        } else {
            Seq::empty()
        }
    }

    /// What cancelling a transfer entails: nothing when it is not running, else it is stopped,
    /// the peer is told, and the listeners are told.
    pub open spec fn cancel_effects(self, id: u32) -> Seq<EffectModel> {
        if !self.inbounds.dom().contains(id) && !self.outbounds.dom().contains(id) {
            Seq::empty()
        } else {
            self.halt(id) + self.discard(id) + seq![
                EffectModel::Send(
                    MsgModel::FileCancel { transfer_id: id, reason: Some("用户主动取消"@) },
                ),
                failed(id, "传输已取消"@),
            ]
        }
    }

    /// The state after a message from the peer.
    pub open spec fn after_control(self, msg: MsgModel) -> PeerModel {
        match msg {
            MsgModel::FileDecision { transfer_id, accept, .. } => if !self.outbounds.dom().contains(
                transfer_id,
            ) {
                self
            } else if accept {
                PeerModel {
                    outbounds: self.outbounds.insert(
                        transfer_id,
                        OutboundTransfer { decided: true },
                    ),
                    ..self
                }
            } else {
                PeerModel { outbounds: self.outbounds.remove(transfer_id), ..self }
            },
            MsgModel::FileCancel { transfer_id, .. } => self.without_transfer(transfer_id),
            MsgModel::FileAck { transfer_id, .. } => PeerModel {
                outbounds: self.outbounds.remove(transfer_id),
                ..self
            },
            _ => self,
        }
    }

    /// What a message from the peer entails.
    pub open spec fn control_effects(self, msg: MsgModel) -> Seq<EffectModel> {
        match msg {
            MsgModel::Text { msg_id, text, timestamp } => seq![
                EffectModel::Event(
                    EventModel::Message {
                        msg_id,
                        text,
                        timestamp,
                        is_self: false,
                        peer_id: self.peer_id,
                    },
                ),
            ],
            MsgModel::FileOffer { transfer_id, name, size, .. } => {
                let told = seq![
                    EffectModel::Event(
                        EventModel::FileOffer { transfer_id, name, size, peer_id: self.peer_id },
                    ),
                ];
                if self.auto_accept {
                    told.push(EffectModel::Accept { transfer_id, name, size })
                } else {
                    told
                }
            },
            MsgModel::FileDecision { transfer_id, accept, .. } => if !self.outbounds.dom().contains(
                transfer_id,
            ) {
                Seq::empty()
            } else {
                let signal = if self.outbounds[transfer_id].decided {
                    Seq::empty()
                } else {
                    seq![EffectModel::Decide { transfer_id, accept }]
                };
                if accept {
                    signal
                } else {
                    signal.push(EffectModel::Forget(transfer_id))
                }
            },
            MsgModel::FileProgress { transfer_id, transferred, total } => seq![
                EffectModel::Event(
                    EventModel::FileProgress { transfer_id, transferred, total, is_upload: false },
                ),
            ],
            MsgModel::FileCancel { transfer_id, reason } => {
                let why = match reason {
                    Some(r) => r,
                    None => "对端取消传输"@,
                };
                (self.discard(transfer_id) + self.halt(transfer_id)).push(failed(transfer_id, why))
            },
            MsgModel::FileAck { transfer_id, .. } => if self.outbounds.dom().contains(
                transfer_id,
            ) {
                seq![EffectModel::Acknowledge(transfer_id)]
            } else {
                Seq::empty()
            },
            MsgModel::Ping => seq![EffectModel::Send(MsgModel::Pong)],
            MsgModel::Pong => Seq::empty(),
        }
    }

    /// What holds of every session: no transfer has brought more bytes than it may.
    pub open spec fn wf(self) -> bool {
        forall|id: u32| #[trigger]
            self.inbounds.dom().contains(id) ==> self.inbounds[id].transferred <= byte_limit(
                self.inbounds[id].size,
            )
    }
}

impl ChannelSession {
    pub closed spec fn tables_wf(&self) -> bool {
        self.inbounds.wf() && self.outbounds.wf()
    }

    pub open spec fn wf(&self) -> bool {
        self.tables_wf() && self@.wf()
    }

    /// The name of the peer.
    pub fn peer_name(&self) -> (r: &str)
        ensures
            r@ == self@.peer_name,
    {
        self.peer_name.as_str()
    }

    /// A new session with a peer, and the event that tells of it.
    pub fn new(peer_id: String, peer_name: String, auto_accept: bool) -> (r: (
        ChannelSession,
        Effect,
    ))
        ensures
            r.0.wf(),
            r.0@ == (PeerModel {
                peer_id: peer_id@,
                peer_name: peer_name@,
                auto_accept,
                next_msg_id: 1,
                next_transfer_id: 1,
                inbounds: Map::empty(),
                outbounds: Map::empty(),
                closed: false,
            }),
            r.1@ == EffectModel::Event(
                EventModel::Connected { peer_id: peer_id@, peer_name: peer_name@ },
            ),
    {
        let event = ChannelEvent::Connected {
            peer_id: peer_id.clone(),
            peer_name: peer_name.clone(),
        };
        let s = ChannelSession {
            peer_id,
            peer_name,
            auto_accept,
            next_msg_id: 1,
            next_transfer_id: 1,
            inbounds: Table::new(),
            outbounds: Table::new(),
            closed: false,
        };
        assert(s@.inbounds =~= Map::empty());
        (s, Effect::Event(event))
    }

    /// Whether the session still runs.
    pub fn is_alive(&self) -> (r: bool)
        ensures
            r == !self@.closed,
    {
        !self.closed
    }

    /// Prepares a text message: its number, the message for the peer, and the event to be told
    /// when it was sent. A closed session refuses.
    pub fn send_text(&mut self, text: &str, timestamp: u64) -> (r: Result<
        (u64, ChannelMsg, ChannelEvent),
        Error,
    >)
        requires
            old(self).wf(),
        ensures
            final(self).wf(),
            old(self)@.closed ==> {
                &&& r matches Err(Error::Message(t)) && t@ == "通道已关闭"@
                &&& final(self)@ == old(self)@
            },
            !old(self)@.closed ==> {
                let id = old(self)@.next_msg_id;
                &&& final(self)@ == (PeerModel {
                    next_msg_id: id.wrapping_add(1),
                    ..old(self)@
                })
                &&& r matches Ok(m) && m.0 == id && m.1@ == (MsgModel::Text {
                    msg_id: id,
                    text: text@,
                    timestamp,
                }) && m.2@ == (EventModel::Message {
                    msg_id: id,
                    text: text@,
                    timestamp,
                    is_self: true,
                    peer_id: old(self)@.peer_id,
                })
            },
    {
        if self.closed {
            return Err(Error::Message("通道已关闭".to_owned()));
        }
        let msg_id: u64 = self.next_msg_id;
        self.next_msg_id = msg_id.wrapping_add(1);
        let msg = ChannelMsg::Text { msg_id, text: text.to_owned(), timestamp };
        let event = ChannelEvent::Message {
            msg_id,
            text: text.to_owned(),
            timestamp,
            is_self: true,
            peer_id: self.peer_id.clone(),
        };
        Ok((msg_id, msg, event))
    }

    /// Prepares the offer of a file: the number of the transfer, the offer for the peer, and the
    /// event to be told when it was sent. A closed session refuses, and so does a path that is
    /// not a plain file.
    pub fn send_file(
        &mut self,
        path: &str,
        is_file: bool,
        file_name: Option<String>,
        size: u64,
    ) -> (r: Result<(u32, ChannelMsg, ChannelEvent), Error>)
        requires
            old(self).wf(),
        ensures
            final(self).wf(),
            old(self)@.closed ==> {
                &&& r matches Err(Error::Message(t)) && t@ == "通道已关闭"@
                &&& final(self)@ == old(self)@
            },
            !old(self)@.closed && !is_file ==> {
                &&& r matches Err(Error::Message(t)) && t@ == "不是普通文件: "@ + path@
                &&& final(self)@ == old(self)@
            },
            !old(self)@.closed && is_file ==> {
                let id = old(self)@.next_transfer_id;
                let name = match file_name {
                    Some(n) => n@,
                    None => "未命名"@,
                };
                &&& final(self)@ == (PeerModel {
                    next_transfer_id: id.wrapping_add(1),
                    outbounds: old(self)@.outbounds.insert(id, OutboundTransfer { decided: false }),
                    ..old(self)@
                })
                &&& r matches Ok(m) && m.0 == id && m.1@ == (MsgModel::FileOffer {
                    transfer_id: id,
                    name,
                    size,
                    mime: None,
                    sha256: None,
                }) && m.2@ == (EventModel::FileOffer {
                    transfer_id: id,
                    name,
                    size,
                    peer_id: old(self)@.peer_id,
                })
            },
    {
        if self.closed {
            return Err(Error::Message("通道已关闭".to_owned()));
        }
        if !is_file {
            return Err(Error::Message(join2("不是普通文件: ", path)));
        }
        let name: String = match file_name {
            Some(n) => n,
            None => "未命名".to_owned(),
        };
        let transfer_id: u32 = self.next_transfer_id;
        self.next_transfer_id = transfer_id.wrapping_add(1);
        let _ = self.outbounds.insert(transfer_id, OutboundTransfer { decided: false });
        let msg = ChannelMsg::FileOffer {
            transfer_id,
            name: name.clone(),
            size,
            mime: None,
            sha256: None,
        };
        let event = ChannelEvent::FileOffer {
            transfer_id,
            name,
            size,
            peer_id: self.peer_id.clone(),
        };
        Ok((transfer_id, msg, event))
    }

    /// Takes an inbound transfer out; the effect deletes its unfinished file.
    fn take_inbound(&mut self, id: u32, effects: &mut Vec<Effect>)
        requires
            old(self).wf(),
        ensures
            final(self).wf(),
            final(self)@ == (PeerModel { inbounds: old(self)@.inbounds.remove(id), ..old(self)@ }),
            effect_models(final(effects)@) == effect_models(old(effects)@) + old(self)@.discard(id),
    {
        match self.inbounds.remove(&id) {
            Some(t) => {
                effects.push(Effect::RemoveFile(t.tmp_path));
                assert(effect_models(effects@) =~= effect_models(old(effects)@) + old(
                    self,
                )@.discard(id));
            },
            None => {
                assert(effect_models(effects@) =~= effect_models(old(effects)@) + old(
                    self,
                )@.discard(id));
            },
        }
        assert(self@.inbounds =~= old(self)@.inbounds.remove(id));
    }

    /// Takes an outbound transfer out; the effect stops its sender.
    fn take_outbound(&mut self, id: u32, effects: &mut Vec<Effect>)
        requires
            old(self).wf(),
        ensures
            final(self).wf(),
            final(self)@ == (PeerModel { outbounds: old(self)@.outbounds.remove(id), ..old(self)@ }),
            effect_models(final(effects)@) == effect_models(old(effects)@) + old(self)@.halt(id),
    {
        match self.outbounds.remove(&id) {
            Some(_) => {
                effects.push(Effect::Cancel(id));
                assert(effect_models(effects@) =~= effect_models(old(effects)@) + old(self)@.halt(
                    id,
                ));
            },
            None => {
                assert(effect_models(effects@) =~= effect_models(old(effects)@) + old(self)@.halt(
                    id,
                ));
            },
        }
    }

    /// Cancels a transfer on behalf of the user.
    pub fn cancel_transfer(&mut self, transfer_id: u32) -> (effects: Vec<Effect>)
        requires
            old(self).wf(),
        ensures
            final(self).wf(),
            final(self)@ == old(self)@.without_transfer(transfer_id),
            effect_models(effects@) == old(self)@.cancel_effects(transfer_id),
    {
        let active: bool = self.inbounds.contains(&transfer_id) || self.outbounds.contains(
            &transfer_id,
        );
        let mut effects: Vec<Effect> = Vec::new();
        let ghost m = self@;
        self.take_outbound(transfer_id, &mut effects);
        assert(self@.discard(transfer_id) == m.discard(transfer_id));
        self.take_inbound(transfer_id, &mut effects);
        assert(self@ =~= m.without_transfer(transfer_id));
        if !active {
            assert(effect_models(effects@) =~= m.cancel_effects(transfer_id));
            return effects;
        }
        effects.push(
            Effect::Send(
                ChannelMsg::FileCancel {
                    transfer_id,
                    reason: Some("用户主动取消".to_owned()),
                },
            ),
        );
        effects.push(
            Effect::Event(
                ChannelEvent::FileFailed { transfer_id, reason: "传输已取消".to_owned() },
            ),
        );
        assert(effect_models(effects@) =~= m.cancel_effects(transfer_id));
        effects
    }

    /// Handles a message from the peer.
    pub fn handle_control_msg(&mut self, msg: ChannelMsg) -> (effects: Vec<Effect>)
        requires
            old(self).wf(),
        ensures
            final(self).wf(),
            final(self)@ == old(self)@.after_control(msg@),
            effect_models(effects@) == old(self)@.control_effects(msg@),
    {
        let mut effects: Vec<Effect> = Vec::new();
        let ghost m = self@;
        let ghost mm = msg@;
        match msg {
            ChannelMsg::Text { msg_id, text, timestamp } => {
                effects.push(
                    Effect::Event(
                        ChannelEvent::Message {
                            msg_id,
                            text,
                            timestamp,
                            is_self: false,
                            peer_id: self.peer_id.clone(),
                        },
                    ),
                );
            },
            ChannelMsg::FileOffer { transfer_id, name, size, .. } => {
                effects.push(
                    Effect::Event(
                        ChannelEvent::FileOffer {
                            transfer_id,
                            name: name.clone(),
                            size,
                            peer_id: self.peer_id.clone(),
                        },
                    ),
                );
                if self.auto_accept {
                    effects.push(Effect::Accept { transfer_id, name, size });
                }
            },
            ChannelMsg::FileDecision { transfer_id, accept, .. } => {
                match self.outbounds.remove(&transfer_id) {
                    Some(t) => {
                        if !t.decided {
                            effects.push(Effect::Decide { transfer_id, accept });
                        }
                        if accept {
                            let _ = self.outbounds.insert(
                                transfer_id,
                                OutboundTransfer { decided: true },
                            );
                        } else {
                            effects.push(Effect::Forget(transfer_id));
                        }
                    },
                    None => {},
                }
                assert(self@ =~= m.after_control(mm));
            },
            ChannelMsg::FileProgress { transfer_id, transferred, total } => {
                effects.push(
                    Effect::Event(
                        ChannelEvent::FileProgress {
                            transfer_id,
                            transferred,
                            total,
                            is_upload: false,
                        },
                    ),
                );
            },
            ChannelMsg::FileCancel { transfer_id, reason } => {
                let why: String = match reason {
                    Some(r) => r,
                    None => "对端取消传输".to_owned(),
                };
                self.take_inbound(transfer_id, &mut effects);
                assert(self@.halt(transfer_id) == m.halt(transfer_id));
                self.take_outbound(transfer_id, &mut effects);
                effects.push(
                    Effect::Event(ChannelEvent::FileFailed { transfer_id, reason: why }),
                );
            },
            ChannelMsg::FileAck { transfer_id, .. } => {
                match self.outbounds.remove(&transfer_id) {
                    Some(_) => {
                        effects.push(Effect::Acknowledge(transfer_id));
                    },
                    None => {},
                }
            },
            ChannelMsg::Ping => {
                effects.push(Effect::Send(ChannelMsg::Pong));
            },
            ChannelMsg::Pong => {},
        }
        assert(self@ =~= m.after_control(mm));
        assert(effect_models(effects@) =~= m.control_effects(mm));
        effects
    }

    /// Ends the session: closes the connection, deletes the unfinished files, stops the senders
    /// and tells the listeners. A session that has ended stays as it is.
    pub fn close(&mut self) -> (effects: Vec<Effect>)
        requires
            old(self).wf(),
        ensures
            final(self).wf(),
            old(self)@.closed ==> final(self)@ == old(self)@ && effects@.len() == 0,
            !old(self)@.closed ==> {
                &&& final(self)@ == old(self)@.ended()
                &&& old(self)@.ending(effect_models(effects@))
            },
    {
        let mut effects: Vec<Effect> = Vec::new();
        if self.closed {
            return effects;
        }
        let ghost m = self@;
        self.closed = true;
        effects.push(Effect::CloseTransport);
        let ghost mut in_keys: Seq<u32> = Seq::empty();
        let ghost mut out_keys: Seq<u32> = Seq::empty();
        assert(effect_models(effects@) =~= seq![EffectModel::CloseTransport] + m.discards(in_keys));
        let mut more: bool = true;
        while more
            invariant
                self.tables_wf(),
                self@ == (PeerModel { inbounds: self@.inbounds, closed: true, ..m }),
                forall|k: u32| #[trigger]
                    m.inbounds.dom().contains(k) <==> self@.inbounds.dom().contains(k)
                        || in_keys.contains(k),
                forall|k: u32| #[trigger]
                    self@.inbounds.dom().contains(k) ==> self@.inbounds[k] == m.inbounds[k]
                        && !in_keys.contains(k),
                in_keys.no_duplicates(),
                effect_models(effects@) == seq![EffectModel::CloseTransport] + m.discards(in_keys),
                !more ==> self@.inbounds == Map::<u32, InboundModel>::empty(),
            decreases (if more { 1nat } else { 0nat }), self.inbounds.keys().len(),
        {
            let ghost before = self@.inbounds;
            let ghost done = effects@;
            match self.inbounds.pop() {
                None => {
                    assert(self@.inbounds =~= Map::<u32, InboundModel>::empty());
                    more = false;
                },
                Some(e) => {
                    let ghost k = e.0;
                    effects.push(Effect::RemoveFile(e.1.tmp_path));
                    proof {
                        assert(self@.inbounds =~= before.remove(k));
                        let next = in_keys.push(k);
                        assert(m.inbounds.dom().contains(k));
                        assert(m.discards(next) =~= m.discards(in_keys).push(
                            EffectModel::RemoveFile(m.inbounds[k].tmp_path),
                        ));
                        assert(effect_models(effects@) =~= effect_models(done).push(
                            EffectModel::RemoveFile(m.inbounds[k].tmp_path),
                        ));
                        assert forall|j: u32| #[trigger] m.inbounds.dom().contains(j)
                            <==> self@.inbounds.dom().contains(j) || next.contains(j) by {
                            assert(next[next.len() - 1] == k);
                            if in_keys.contains(j) {
                                let i = choose|i: int| 0 <= i < in_keys.len() && in_keys[i] == j;
                                assert(next[i] == j);
                            }
                        }
                        in_keys = next;
                    }
                },
            }
        }
        let ghost head = effect_models(effects@);
        assert(head =~= head + halts(out_keys));
        more = true;
        while more
            invariant
                self.tables_wf(),
                self@ == (PeerModel {
                    inbounds: Map::empty(),
                    outbounds: self@.outbounds,
                    closed: true,
                    ..m
                }),
                forall|k: u32| #[trigger]
                    m.outbounds.dom().contains(k) <==> self@.outbounds.dom().contains(k)
                        || out_keys.contains(k),
                forall|k: u32| #[trigger]
                    self@.outbounds.dom().contains(k) ==> !out_keys.contains(k),
                out_keys.no_duplicates(),
                effect_models(effects@) == head + halts(out_keys),
                !more ==> self@.outbounds == Map::<u32, OutboundTransfer>::empty(),
            decreases (if more { 1nat } else { 0nat }), self.outbounds.keys().len(),
        {
            let ghost before = self@.outbounds;
            let ghost done = effects@;
            match self.outbounds.pop() {
                None => {
                    more = false;
                },
                Some(e) => {
                    let ghost k = e.0;
                    effects.push(Effect::Cancel(e.0));
                    proof {
                        let next = out_keys.push(k);
                        assert(m.outbounds.dom().contains(k));
                        assert(halts(next) =~= halts(out_keys).push(EffectModel::Cancel(k)));
                        assert(effect_models(effects@) =~= effect_models(done).push(
                            EffectModel::Cancel(k),
                        ));
                        assert forall|j: u32| #[trigger] m.outbounds.dom().contains(j)
                            <==> self@.outbounds.dom().contains(j) || next.contains(j) by {
                            assert(next[next.len() - 1] == k);
                            if out_keys.contains(j) {
                                let i = choose|i: int| 0 <= i < out_keys.len() && out_keys[i] == j;
                                assert(next[i] == j);
                            }
                        }
                        out_keys = next;
                    }
                },
            }
        }
        effects.push(
            Effect::Event(ChannelEvent::Disconnected { peer_id: self.peer_id.clone() }),
        );
        proof {
            assert(self@ =~= m.ended());
            assert(in_keys.to_set() =~= m.inbounds.dom());
            assert(out_keys.to_set() =~= m.outbounds.dom());
            assert(effect_models(effects@) =~= m.end_effects(in_keys, out_keys));
        }
        effects
    }

    /// The names for a file that is about to be received: of the temporary file, and of the file
    /// it becomes.
    pub fn plan_inbound(transfer_id: u32, name: &str, unix_secs: u64) -> (r: InboundPlan)
        ensures
            r.tmp_name@ == ".tmp-recv-"@ + dec(transfer_id as nat) + "-"@ + dec(unix_secs as nat),
            r.safe_name@ == sanitized(name@, unix_secs),
    {
        let mut tmp_name: String = join2(".tmp-recv-", decimal(transfer_id as u64).as_str());
        tmp_name.append("-");
        tmp_name.append(decimal(unix_secs).as_str());
        InboundPlan { tmp_name, safe_name: sanitize_file_name(name, unix_secs) }
    }

    /// Notes that the temporary file of an accepted offer is open; the effect tells the peer that
    /// the offer is accepted.
    pub fn accept_inbound(
        &mut self,
        transfer_id: u32,
        safe_name: String,
        size: u64,
        tmp_path: String,
    ) -> (effect: Effect)
        requires
            old(self).wf(),
        ensures
            final(self).wf(),
            final(self)@ == (PeerModel {
                inbounds: old(self)@.inbounds.insert(
                    transfer_id,
                    InboundModel {
                        name: safe_name@,
                        size,
                        transferred: 0,
                        tmp_path: tmp_path@,
                    },
                ),
                ..old(self)@
            }),
            effect@ == EffectModel::Send(
                MsgModel::FileDecision { transfer_id, accept: true, reason: None },
            ),
    {
        let t = InboundTransfer { name: safe_name, size, transferred: 0, tmp_path };
        let ghost tm = t@;
        let _ = self.inbounds.insert(transfer_id, t);
        assert(self@.inbounds =~= old(self)@.inbounds.insert(transfer_id, tm));
        Effect::Send(ChannelMsg::FileDecision { transfer_id, accept: true, reason: None })
    }

    /// Decides what to do with the payload of a chunk. Payloads that are too short, and chunks of
    /// transfers that are not running, are ignored. A transfer that brings more bytes than it may
    /// is cut off. All other chunks are to be written.
    pub fn handle_media_frame(&mut self, payload: &Vec<u8>) -> (r: ChunkStep)
        requires
            old(self).wf(),
        ensures
            final(self).wf(),
            match old(self)@.chunk_fate(payload@) {
                ChunkFate::Ignore => r is Ignore && final(self)@ == old(self)@,
                ChunkFate::CutOff(id) => {
                    let rest = PeerModel {
                        inbounds: old(self)@.inbounds.remove(id),
                        ..old(self)@
                    };
                    &&& r matches ChunkStep::CutOff(effects) && effect_models(effects@) == old(
                        self,
                    )@.discard(id) + rest.cancel_effects(id)
                    &&& final(self)@ == rest.without_transfer(id)
                },
                ChunkFate::Write(h) => r == ChunkStep::Write(h) && final(self)@ == old(self)@,
            },
    {
        let header: ChannelChunkHeader = match ChannelChunkHeader::decode(payload) {
            Some(h) => h,
            None => {
                return ChunkStep::Ignore;
            },
        };
        if payload.len() - CHANNEL_CHUNK_HEADER_LEN < header.chunk_len as usize {
            return ChunkStep::Ignore;
        }
        let over: bool = match self.inbounds.get(&header.transfer_id) {
            None => {
                return ChunkStep::Ignore;
            },
            Some(t) => {
                assert(self@.inbounds[header.transfer_id] == t@);
                t.transferred as u128 + header.chunk_len as u128 > t.size.saturating_add(
                    OVERFLOW_TOLERANCE,
                ) as u128
            },
        };
        assert(self@.inbounds.dom().contains(header.transfer_id));
        if over {
            let mut effects: Vec<Effect> = Vec::new();
            self.take_inbound(header.transfer_id, &mut effects);
            let ghost rest = self@;
            let ghost head = effect_models(effects@);
            assert(head =~= old(self)@.discard(header.transfer_id));
            let mut tail = self.cancel_transfer(header.transfer_id);
            let ghost tail_model = effect_models(tail@);
            let ghost done = effects@;
            let ghost more = tail@;
            effects.append(&mut tail);
            assert(effect_models(effects@) =~= effect_models(done) + effect_models(more));
            return ChunkStep::CutOff(effects);
        }
        ChunkStep::Write(header)
    }

    /// Notes that the bytes of a chunk were written. The effects tell of the progress; the result
    /// says whether the file is complete, and then the transfer has ended.
    pub fn chunk_written(&mut self, header: ChannelChunkHeader) -> (r: (Effect, Option<Received>))
        requires
            old(self).wf(),
            old(self)@.inbounds.dom().contains(header.transfer_id),
            old(self)@.inbounds[header.transfer_id].transferred + header.chunk_len <= byte_limit(
                old(self)@.inbounds[header.transfer_id].size,
            ),
        ensures
            final(self).wf(),
            final(self)@ == old(self)@.after_chunk(header),
            r.0@ == old(self)@.chunk_progress(header),
            received_view(r.1) == old(self)@.completed(header),
    {
        let transfer_id: u32 = header.transfer_id;
        let ghost m = self@;
        let taken: Option<InboundTransfer> = self.inbounds.remove(&transfer_id);
        let mut t: InboundTransfer = taken.unwrap();
        assert(t@ == m.inbounds[transfer_id]);
        t.transferred = t.transferred + header.chunk_len as u64;
        let progress = Effect::Event(
            ChannelEvent::FileProgress {
                transfer_id,
                transferred: t.transferred,
                total: t.size,
                is_upload: false,
            },
        );
        if header.is_eof() {
            assert(self@.inbounds =~= m.inbounds.remove(transfer_id));
            let f = Received { transfer_id, name: t.name, tmp_path: t.tmp_path };
            (progress, Some(f))
        } else {
            let ghost tm = t@;
            let _ = self.inbounds.insert(transfer_id, t);
            assert(self@.inbounds =~= m.inbounds.insert(transfer_id, tm));
            (progress, None)
        }
    }

    /// What follows when the temporary file of a complete transfer was renamed to `outcome`, or
    /// could not be renamed.
    pub fn inbound_renamed(received: Received, outcome: Result<String, String>) -> (effects: Vec<
        Effect,
    >)
        ensures
            effect_models(effects@) == (match outcome {
                Ok(path) => seq![
                    EffectModel::Send(
                        MsgModel::FileAck {
                            transfer_id: received.transfer_id,
                            save_path: Some(path@),
                        },
                    ),
                    EffectModel::Event(
                        EventModel::FileCompleted {
                            transfer_id: received.transfer_id,
                            name: received.name@,
                            path: Some(path@),
                            is_upload: false,
                        },
                    ),
                ],
                Err(why) => seq![
                    EffectModel::RemoveFile(received.tmp_path@),
                    failed(received.transfer_id, "落盘重命名失败: "@ + why@),
                ],
            }),
    {
        let mut effects: Vec<Effect> = Vec::new();
        let transfer_id: u32 = received.transfer_id;
        match outcome {
            Ok(path) => {
                effects.push(
                    Effect::Send(
                        ChannelMsg::FileAck { transfer_id, save_path: Some(path.clone()) },
                    ),
                );
                effects.push(
                    Effect::Event(
                        ChannelEvent::FileCompleted {
                            transfer_id,
                            name: received.name,
                            path: Some(path),
                            is_upload: false,
                        },
                    ),
                );
                assert(effect_models(effects@) =~= seq![
                    EffectModel::Send(
                        MsgModel::FileAck { transfer_id, save_path: Some(path@) },
                    ),
                    EffectModel::Event(
                        EventModel::FileCompleted {
                            transfer_id,
                            name: received.name@,
                            path: Some(path@),
                            is_upload: false,
                        },
                    ),
                ]);
            },
            Err(why) => {
                effects.push(Effect::RemoveFile(received.tmp_path));
                effects.push(
                    Effect::Event(
                        ChannelEvent::FileFailed {
                            transfer_id,
                            reason: join2("落盘重命名失败: ", why.as_str()),
                        },
                    ),
                );
                assert(effect_models(effects@) =~= seq![
                    EffectModel::RemoveFile(received.tmp_path@),
                    failed(transfer_id, "落盘重命名失败: "@ + why@),
                ]);
            },
        }
        effects
    }

    /// Handles what the connection delivered.
    pub fn receive_step(&mut self, packet: Incoming) -> (r: ReceiveStep)
        requires
            old(self).wf(),
        ensures
            final(self).wf(),
            match packet {
                Incoming::Control(msg) => {
                    &&& final(self)@ == old(self)@.after_control(msg@)
                    &&& r matches ReceiveStep::Perform(e) && effect_models(e@) == old(
                        self,
                    )@.control_effects(msg@)
                },
                Incoming::Media(frame) => if frame.header.track == TRACK_CHANNEL {
                    &&& final(self)@ == old(self)@
                    &&& r == ReceiveStep::Chunk(frame.payload)
                } else {
                    r is Skip && final(self)@ == old(self)@
                },
                Incoming::Other => r is Skip && final(self)@ == old(self)@,
                Incoming::End => {
                    &&& r is Stop
                    &&& old(self)@.closed ==> final(self)@ == old(self)@ && r->Stop_0@.len() == 0
                    &&& !old(self)@.closed ==> final(self)@ == old(self)@.ended() && old(
                        self,
                    )@.ending(effect_models(r->Stop_0@))
                },
            },
    {
        match packet {
            Incoming::Control(msg) => ReceiveStep::Perform(self.handle_control_msg(msg)),
            Incoming::Media(frame) => {
                if frame.header.track == TRACK_CHANNEL {
                    ReceiveStep::Chunk(frame.payload)
                } else {
                    ReceiveStep::Skip
                }
            },
            Incoming::Other => ReceiveStep::Skip,
            Incoming::End => ReceiveStep::Stop(self.close()),
        }
    }
}

/// Something that the connection of a channel delivered.
pub enum Incoming {
    Control(ChannelMsg),
    Media(Frame),
    Other,
    /// The connection ended or failed.
    End,
}

/// What to do about it.
pub enum ReceiveStep {
    Perform(Vec<Effect>),
    /// Hand the payload to [`ChannelSession::handle_media_frame`].
    Chunk(Vec<u8>),
    Skip,
    /// Perform the effects and stop receiving.
    Stop(Vec<Effect>),
}

/// The names for a file that is about to be received.
pub struct InboundPlan {
    pub tmp_name: String,
    pub safe_name: String,
}

/// A transfer whose last byte has arrived.
pub struct Received {
    pub transfer_id: u32,
    pub name: String,
    pub tmp_path: String,
}

/// What a received file is, as a mathematical value.
pub struct ReceivedModel {
    pub transfer_id: u32,
    pub name: Seq<char>,
    pub tmp_path: Seq<char>,
}

impl View for Received {
    type V = ReceivedModel;

    open spec fn view(&self) -> ReceivedModel {
        ReceivedModel {
            transfer_id: self.transfer_id,
            name: self.name@,
            tmp_path: self.tmp_path@,
        }
    }
}

/// The model of a file that may have been received.
pub open spec fn received_view(r: Option<Received>) -> Option<ReceivedModel> {
    match r {
        Some(f) => Some(f@),
        None => None,
    }
}

/// What to do with a chunk.
pub enum ChunkStep {
    Ignore,
    /// The transfer was cut off; perform the effects.
    CutOff(Vec<Effect>),
    /// Write the bytes behind the header, which [`crate::channel::chunk::chunk_data`] cuts out, then
    /// call [`ChannelSession::chunk_written`].
    Write(ChannelChunkHeader),
}

/// What becomes of a chunk.
pub enum ChunkFate {
    Ignore,
    CutOff(u32),
    Write(ChannelChunkHeader),
}

/// The effects that stop the senders of transfers.
pub open spec fn halts(ids: Seq<u32>) -> Seq<EffectModel> {
    ids.map_values(|id: u32| EffectModel::Cancel(id))
}

impl PeerModel {
    /// What becomes of a chunk with the given payload.
    pub open spec fn chunk_fate(self, payload: Seq<u8>) -> ChunkFate {
        match ChannelChunkHeader::parsed(payload) {
            None => ChunkFate::Ignore,
            Some(h) => if payload.len() < CHANNEL_CHUNK_HEADER_LEN + h.chunk_len {
                ChunkFate::Ignore
            } else if !self.inbounds.dom().contains(h.transfer_id) {
                ChunkFate::Ignore
            } else if self.inbounds[h.transfer_id].transferred + h.chunk_len > byte_limit(
                self.inbounds[h.transfer_id].size,
            ) {
                ChunkFate::CutOff(h.transfer_id)
            } else {
                ChunkFate::Write(h)
            },
        }
    }

    /// The state after a chunk was written: its bytes are counted, and the last one ends its
    /// transfer.
    pub open spec fn after_chunk(self, h: ChannelChunkHeader) -> PeerModel {
        let t = self.inbounds[h.transfer_id];
        PeerModel {
            inbounds: if h.eof() {
                self.inbounds.remove(h.transfer_id)
            } else {
                self.inbounds.insert(
                    h.transfer_id,
                    InboundModel { transferred: (t.transferred + h.chunk_len) as u64, ..t },
                )
            },
            ..self
        }
    }

    /// What is told when a chunk was written.
    pub open spec fn chunk_progress(self, h: ChannelChunkHeader) -> EffectModel {
        let t = self.inbounds[h.transfer_id];
        EffectModel::Event(
            EventModel::FileProgress {
                transfer_id: h.transfer_id,
                transferred: (t.transferred + h.chunk_len) as u64,
                total: t.size,
                is_upload: false,
            },
        )
    }

    /// The file that is complete when a chunk was written: the one that it was the last chunk of.
    pub open spec fn completed(self, h: ChannelChunkHeader) -> Option<ReceivedModel> {
        let t = self.inbounds[h.transfer_id];
        if h.eof() {
            Some(
                ReceivedModel { transfer_id: h.transfer_id, name: t.name, tmp_path: t.tmp_path },
            )
        } else {
            None
        }
    }

    /// The state after the end: nothing runs any more.
    pub open spec fn ended(self) -> PeerModel {
        PeerModel { inbounds: Map::empty(), outbounds: Map::empty(), closed: true, ..self }
    }

    /// The effects that delete the unfinished files of transfers.
    pub open spec fn discards(self, ids: Seq<u32>) -> Seq<EffectModel> {
        ids.map_values(|id: u32| EffectModel::RemoveFile(self.inbounds[id].tmp_path))
    }

    /// The effects of the end, when the transfers are walked in the given orders.
    pub open spec fn end_effects(self, in_ids: Seq<u32>, out_ids: Seq<u32>) -> Seq<EffectModel> {
        (seq![EffectModel::CloseTransport] + self.discards(in_ids) + halts(out_ids)).push(
            EffectModel::Event(EventModel::Disconnected { peer_id: self.peer_id }),
        )
    }

    /// The effects of the end: every transfer is walked once, in some order.
    pub open spec fn ending(self, effects: Seq<EffectModel>) -> bool {
        exists|in_ids: Seq<u32>, out_ids: Seq<u32>|
            {
                &&& in_ids.no_duplicates()
                &&& in_ids.to_set() == self.inbounds.dom()
                &&& out_ids.no_duplicates()
                &&& out_ids.to_set() == self.outbounds.dom()
                &&& effects == #[trigger] self.end_effects(in_ids, out_ids)
            }
    }
}

/// A closed session has no transfers left, so cancelling one does nothing.
pub proof fn law_cancel_after_end_does_nothing(m: PeerModel, id: u32)
    ensures
        m.ended().cancel_effects(id).len() == 0,
        m.ended().without_transfer(id) == m.ended(),
{
    assert(m.ended().without_transfer(id) =~= m.ended());
}

/// Cancelling a transfer twice has no effect the second time.
pub proof fn law_cancel_once(m: PeerModel, id: u32)
    ensures
        m.without_transfer(id).cancel_effects(id).len() == 0,
{
}

/// A transfer that was refused by the peer is forgotten; one that was accepted stays until it is
/// acknowledged or cancelled.
pub proof fn law_decision_keeps_or_forgets(m: PeerModel, id: u32, accept: bool, reason: Option<Seq<char>>)
    requires
        m.outbounds.dom().contains(id),
    ensures
        m.after_control(
            MsgModel::FileDecision { transfer_id: id, accept, reason },
        ).outbounds.dom().contains(id) <==> accept,
{
}

/// No message from the peer makes this end forget or add an inbound transfer, but for a
/// cancellation of that very transfer.
pub proof fn law_control_keeps_inbounds(m: PeerModel, msg: MsgModel, id: u32)
    requires
        msg matches MsgModel::FileCancel { transfer_id, .. } ==> transfer_id != id,
    ensures
        m.after_control(msg).inbounds.dom().contains(id) <==> m.inbounds.dom().contains(id),
        m.inbounds.dom().contains(id) ==> m.after_control(msg).inbounds[id] == m.inbounds[id],
{
}

/// A transfer that is cancelled, whatever its sender waits for, is told as failed once: the peer is
/// told of the cancellation, then the listeners, and the sender stops without a word.
pub proof fn law_cancelled_transfer_fails_once(m: PeerModel, id: u32, sender: PumpModel)
    requires
        m.outbounds.dom().contains(id),
        sender.transfer_id == id,
        sender.phase != PumpPhase::Done,
    ensures
        ({
            let effects = m.cancel_effects(id);
            let n = effects.len() as int;
            &&& n >= 2
            &&& effects[n - 1] == failed(id, "传输已取消"@)
            &&& effects[n - 2] == EffectModel::Send(
                MsgModel::FileCancel { transfer_id: id, reason: Some("用户主动取消"@) },
            )
            &&& forall|i: int| 0 <= i < n - 1 ==> !((#[trigger] effects[i]) is Event)
            &&& effects.contains(EffectModel::Cancel(id))
        }),
        sender.expects(PumpInput::Cancelled),
        sender.step(PumpInput::Cancelled) == (
            sender.at(PumpPhase::Done),
            None::<EventModel>,
            PumpAction::Stop,
        ),
        forall|input: PumpInput| !(#[trigger] sender.at(PumpPhase::Done).expects(input)),
{
    assert(m.cancel_effects(id)[0] == EffectModel::Cancel(id));
}

proof fn lemma_effect_at(v: Seq<Effect>, i: int)
    requires
        0 <= i < v.len(),
    ensures
        effect_models(v).len() == v.len(),
        effect_models(v)[i] == v[i]@,
{
}

/// A text that one end sends arrives at the other: handling the message there comes to exactly one
/// event, with the number, the text and the time of the message, as a message of the other side.
/// The end that sends it tells of it in the same words, as its own.
pub proof fn law_text_arrives(
    here: &mut ChannelSession,
    text: &str,
    timestamp: u64,
    sent: (u64, ChannelMsg, ChannelEvent),
    there: &mut ChannelSession,
    effects: Vec<Effect>,
)
    requires
        call_ensures(
            ChannelSession::send_text,
            (here, text, timestamp),
            Ok::<(u64, ChannelMsg, ChannelEvent), Error>(sent),
        ),
        call_ensures(ChannelSession::handle_control_msg, (there, sent.1), effects),
    ensures
        effects@.len() == 1,
        effects@[0] matches Effect::Event(
            ChannelEvent::Message { msg_id, text: t, timestamp: at, is_self, peer_id },
        ) && msg_id == sent.0 && t@ == text@ && at == timestamp && !is_self && peer_id@ == old(
            there,
        )@.peer_id,
        final(there)@ == old(there)@,
        sent.2 matches ChannelEvent::Message { msg_id, text: t, timestamp: at, is_self, peer_id }
            && msg_id == sent.0 && t@ == text@ && at == timestamp && is_self && peer_id@ == old(
            here,
        )@.peer_id,
{
    assert(effect_models(effects@).len() == 1);
    lemma_effect_at(effects@, 0);
}

/// What arrives over the connection is handled: a message that is received comes to the same
/// effects as when it is handled directly.
pub proof fn law_received_message_is_handled(
    a: &mut ChannelSession,
    b: &mut ChannelSession,
    msg: ChannelMsg,
    effects: Vec<Effect>,
    step: ReceiveStep,
)
    requires
        *old(b) == *old(a),
        call_ensures(ChannelSession::handle_control_msg, (a, msg), effects),
        call_ensures(ChannelSession::receive_step, (b, Incoming::Control(msg)), step),
    ensures
        step matches ReceiveStep::Perform(e) && effect_models(e@) == effect_models(effects@),
        final(b)@ == final(a)@,
{
}

/// An end that is alive sends what it is given, and numbers its messages one after the other; an
/// end that has been closed is no longer alive and sends nothing.
pub proof fn law_open_end_sends(
    s: &mut ChannelSession,
    alive: bool,
    text: &str,
    timestamp: u64,
    r: Result<(u64, ChannelMsg, ChannelEvent), Error>,
    again: &mut ChannelSession,
    text2: &str,
    timestamp2: u64,
    r2: Result<(u64, ChannelMsg, ChannelEvent), Error>,
)
    requires
        call_ensures(ChannelSession::is_alive, (&*old(s),), alive),
        call_ensures(ChannelSession::send_text, (s, text, timestamp), r),
        *old(again) == *final(s),
        call_ensures(ChannelSession::send_text, (again, text2, timestamp2), r2),
    ensures
        alive <==> r is Ok,
        alive <==> r2 is Ok,
        r is Ok && r2 is Ok ==> {
            let first = r->Ok_0.0;
            let second = r2->Ok_0.0;
            second != first && (first < u64::MAX ==> second == first + 1)
        },
{
}

/// The first message of a session has the number one, as has its first transfer; a new session is
/// alive and is told of with the peer's id and name.
pub proof fn law_session_starts_counting_at_one(
    peer_id: String,
    peer_name: String,
    auto_accept: bool,
    opened: (ChannelSession, Effect),
    alive: bool,
    a: &mut ChannelSession,
    text: &str,
    timestamp: u64,
    r: Result<(u64, ChannelMsg, ChannelEvent), Error>,
    b: &mut ChannelSession,
    path: &str,
    file_name: Option<String>,
    size: u64,
    q: Result<(u32, ChannelMsg, ChannelEvent), Error>,
)
    requires
        call_ensures(ChannelSession::new, (peer_id, peer_name, auto_accept), opened),
        call_ensures(ChannelSession::is_alive, (&opened.0,), alive),
        *old(a) == opened.0,
        *old(b) == opened.0,
        call_ensures(ChannelSession::send_text, (a, text, timestamp), r),
        call_ensures(ChannelSession::send_file, (b, path, true, file_name, size), q),
    ensures
        alive,
        opened.1 matches Effect::Event(ChannelEvent::Connected { peer_id: p, peer_name: n })
            && p@ == peer_id@ && n@ == peer_name@,
        r matches Ok(m) && m.0 == 1,
        q matches Ok(m) && m.0 == 1,
{
}

/// A file that one end offers is known at the other: under the number of the transfer, with its
/// name and size. An end that accepts by itself goes on to receive it, under the same number, name
/// and size; another end only tells of it.
pub proof fn law_file_offer_arrives(
    here: &mut ChannelSession,
    path: &str,
    name: String,
    size: u64,
    sent: (u32, ChannelMsg, ChannelEvent),
    there: &mut ChannelSession,
    effects: Vec<Effect>,
)
    requires
        call_ensures(
            ChannelSession::send_file,
            (here, path, true, Some(name), size),
            Ok::<(u32, ChannelMsg, ChannelEvent), Error>(sent),
        ),
        call_ensures(ChannelSession::handle_control_msg, (there, sent.1), effects),
    ensures
        effects@.len() == (if old(there)@.auto_accept {
            2int
        } else {
            1int
        }),
        effects@[0] matches Effect::Event(
            ChannelEvent::FileOffer { transfer_id, name: n, size: s, peer_id },
        ) && transfer_id == sent.0 && n@ == name@ && s == size && peer_id@ == old(there)@.peer_id,
        old(there)@.auto_accept ==> (effects@[1] matches Effect::Accept {
            transfer_id,
            name: n,
            size: s,
        } && transfer_id == sent.0 && n@ == name@ && s == size),
        final(there)@ == old(there)@,
        final(here)@.outbounds.dom().contains(sent.0),
        sent.2 matches ChannelEvent::FileOffer { transfer_id, name: n, size: s, peer_id }
            && transfer_id == sent.0 && n@ == name@ && s == size && peer_id@ == old(
            here,
        )@.peer_id,
{
    assert(effect_models(effects@).len() == effects@.len());
    lemma_effect_at(effects@, 0);
    if there@.auto_accept {
        lemma_effect_at(effects@, 1);
    }
}

/// A closed end offers no file, and what is no plain file is not offered.
pub proof fn law_only_files_are_offered(
    s: &mut ChannelSession,
    path: &str,
    is_file: bool,
    name: Option<String>,
    size: u64,
    r: Result<(u32, ChannelMsg, ChannelEvent), Error>,
    alive: bool,
)
    requires
        call_ensures(ChannelSession::send_file, (s, path, is_file, name, size), r),
        call_ensures(ChannelSession::is_alive, (&*old(s),), alive),
    ensures
        r is Ok <==> alive && is_file,
        r is Err ==> final(s)@ == old(s)@,
{
}

/// An offer that is accepted at one end sets the sender at the other end going, once: the answer
/// that accepting sends is handled by telling the sender that it may start, and by nothing when it
/// comes a second time.
pub proof fn law_accepted_offer_starts_the_sender(
    there: &mut ChannelSession,
    transfer_id: u32,
    safe_name: String,
    size: u64,
    tmp_path: String,
    msg: ChannelMsg,
    here: &mut ChannelSession,
    effects: Vec<Effect>,
    again: &mut ChannelSession,
    more: Vec<Effect>,
)
    requires
        call_ensures(
            ChannelSession::accept_inbound,
            (there, transfer_id, safe_name, size, tmp_path),
            Effect::Send(msg),
        ),
        old(here)@.outbounds.dom().contains(transfer_id),
        !old(here)@.outbounds[transfer_id].decided,
        call_ensures(ChannelSession::handle_control_msg, (here, msg), effects),
        *old(again) == *final(here),
        call_ensures(ChannelSession::handle_control_msg, (again, msg), more),
    ensures
        effects@.len() == 1,
        effects@[0] == (Effect::Decide { transfer_id, accept: true }),
        final(here)@.outbounds.dom().contains(transfer_id),
        more@.len() == 0,
        final(again)@ == final(here)@,
{
    assert(effect_models(effects@).len() == 1);
    lemma_effect_at(effects@, 0);
    assert(effect_models(more@).len() == 0);
}

/// An offer that the peer refuses ends: its sender is told, and the transfer is forgotten.
pub proof fn law_refused_offer_ends(
    s: &mut ChannelSession,
    transfer_id: u32,
    reason: Option<String>,
    effects: Vec<Effect>,
)
    requires
        old(s)@.outbounds.dom().contains(transfer_id),
        !old(s)@.outbounds[transfer_id].decided,
        call_ensures(
            ChannelSession::handle_control_msg,
            (s, ChannelMsg::FileDecision { transfer_id, accept: false, reason }),
            effects,
        ),
    ensures
        effects@.len() == 2,
        effects@[0] == (Effect::Decide { transfer_id, accept: false }),
        effects@[1] == Effect::Forget(transfer_id),
        !final(s)@.outbounds.dom().contains(transfer_id),
{
    assert(effect_models(effects@).len() == 2);
    lemma_effect_at(effects@, 0);
    lemma_effect_at(effects@, 1);
}

/// A file that has been stored is acknowledged and told of with its name and place, and the
/// acknowledgement ends the transfer at the sender's end.
pub proof fn law_stored_file_is_acknowledged(
    received: Received,
    path: String,
    effects: Vec<Effect>,
    msg: ChannelMsg,
    here: &mut ChannelSession,
    answer: Vec<Effect>,
)
    requires
        call_ensures(
            ChannelSession::inbound_renamed,
            (received, Ok::<String, String>(path)),
            effects,
        ),
        effects@[0] == Effect::Send(msg),
        old(here)@.outbounds.dom().contains(received.transfer_id),
        call_ensures(ChannelSession::handle_control_msg, (here, msg), answer),
    ensures
        effects@.len() == 2,
        effects@[1] matches Effect::Event(
            ChannelEvent::FileCompleted { transfer_id, name, path: p, is_upload },
        ) && transfer_id == received.transfer_id && name@ == received.name@ && (p matches Some(x)
            && x@ == path@) && !is_upload,
        msg matches ChannelMsg::FileAck { transfer_id, save_path } && transfer_id
            == received.transfer_id && (save_path matches Some(x) && x@ == path@),
        answer@.len() == 1,
        answer@[0] == Effect::Acknowledge(received.transfer_id),
        !final(here)@.outbounds.dom().contains(received.transfer_id),
{
    assert(effect_models(effects@).len() == 2);
    lemma_effect_at(effects@, 0);
    lemma_effect_at(effects@, 1);
    assert(msg@ == (MsgModel::FileAck {
        transfer_id: received.transfer_id,
        save_path: Some(path@),
    }));
    assert(effect_models(answer@).len() == 1);
    lemma_effect_at(answer@, 0);
}

/// A file that could not be stored is not acknowledged: its temporary file is deleted, and the
/// transfer is told of as failed, with the reason.
pub proof fn law_unstored_file_is_dropped(received: Received, why: String, effects: Vec<Effect>)
    requires
        call_ensures(
            ChannelSession::inbound_renamed,
            (received, Err::<String, String>(why)),
            effects,
        ),
    ensures
        effects@.len() == 2,
        effects@[0] matches Effect::RemoveFile(p) && p@ == received.tmp_path@,
        effects@[1] matches Effect::Event(ChannelEvent::FileFailed { transfer_id, reason })
            && transfer_id == received.transfer_id && reason@ == "落盘重命名失败: "@ + why@,
{
    assert(effect_models(effects@).len() == 2);
    lemma_effect_at(effects@, 0);
    lemma_effect_at(effects@, 1);
}

/// Cancelling a transfer stops it at both ends. Where the user cancels, an unfinished file is
/// deleted, a sender is stopped, and the peer is told; what the peer is told does the same there,
/// and both ends tell of the failure.
pub proof fn law_cancel_stops_both_ends(
    here: &mut ChannelSession,
    transfer_id: u32,
    effects: Vec<Effect>,
    there: &mut ChannelSession,
    msg: ChannelMsg,
    answer: Vec<Effect>,
)
    requires
        old(here)@.inbounds.dom().contains(transfer_id) || old(here)@.outbounds.dom().contains(
            transfer_id,
        ),
        call_ensures(ChannelSession::cancel_transfer, (here, transfer_id), effects),
        effects@[effects@.len() - 2] == Effect::Send(msg),
        call_ensures(ChannelSession::handle_control_msg, (there, msg), answer),
    ensures
        !final(here)@.inbounds.dom().contains(transfer_id),
        !final(here)@.outbounds.dom().contains(transfer_id),
        !final(there)@.inbounds.dom().contains(transfer_id),
        !final(there)@.outbounds.dom().contains(transfer_id),
        old(here)@.outbounds.dom().contains(transfer_id) ==> effects@[0] == Effect::Cancel(
            transfer_id,
        ),
        old(here)@.inbounds.dom().contains(transfer_id) ==> (effects@[effects@.len() - 3] matches
            Effect::RemoveFile(p) && p@ == old(here)@.inbounds[transfer_id].tmp_path),
        effects@.last() matches Effect::Event(ChannelEvent::FileFailed { transfer_id: t, reason })
            && t == transfer_id && reason@ == "传输已取消"@,
        old(there)@.inbounds.dom().contains(transfer_id) ==> (answer@[0] matches
            Effect::RemoveFile(p) && p@ == old(there)@.inbounds[transfer_id].tmp_path),
        old(there)@.outbounds.dom().contains(transfer_id) ==> answer@[answer@.len() - 2]
            == Effect::Cancel(transfer_id),
        answer@.last() matches Effect::Event(ChannelEvent::FileFailed { transfer_id: t, reason })
            && t == transfer_id && reason@ == "用户主动取消"@,
        forall|i: int|
            0 <= i < answer@.len() - 1 ==> !((#[trigger] answer@[i]) is Event) && !(answer@[i] is Send),
{
    let n = effects@.len() as int;
    let m = effect_models(effects@);
    assert(m.len() == n);
    assert(n >= 2);
    lemma_effect_at(effects@, 0);
    lemma_effect_at(effects@, n - 1);
    lemma_effect_at(effects@, n - 2);
    if here@.inbounds.dom().contains(transfer_id) {
        lemma_effect_at(effects@, n - 3);
    }
    assert(msg@ == (MsgModel::FileCancel { transfer_id, reason: Some("用户主动取消"@) }));
    let k = answer@.len() as int;
    assert(effect_models(answer@).len() == k);
    lemma_effect_at(answer@, 0);
    lemma_effect_at(answer@, k - 1);
    if k >= 2 {
        lemma_effect_at(answer@, k - 2);
    }
    assert forall|i: int| 0 <= i < k - 1 implies !((#[trigger] answer@[i]) is Event) && !(answer@[i]
        is Send) by {
        lemma_effect_at(answer@, i);
    }
}

/// A transfer that the peer cancels without a reason is told of as cancelled by the peer.
pub proof fn law_peer_cancel_is_told(
    s: &mut ChannelSession,
    transfer_id: u32,
    effects: Vec<Effect>,
)
    requires
        call_ensures(
            ChannelSession::handle_control_msg,
            (s, ChannelMsg::FileCancel { transfer_id, reason: None }),
            effects,
        ),
    ensures
        effects@.len() > 0,
        effects@.last() matches Effect::Event(ChannelEvent::FileFailed { transfer_id: t, reason })
            && t == transfer_id && reason@ == "对端取消传输"@,
{
    assert(effect_models(effects@).len() == effects@.len());
    lemma_effect_at(effects@, effects@.len() - 1);
}

/// The progress that the peer reports is told as it was reported; a ping is answered with a pong,
/// and a pong with nothing.
pub proof fn law_reports_and_pings_are_answered(
    a: &mut ChannelSession,
    transfer_id: u32,
    transferred: u64,
    total: u64,
    told: Vec<Effect>,
    b: &mut ChannelSession,
    ponged: Vec<Effect>,
    c: &mut ChannelSession,
    quiet: Vec<Effect>,
)
    requires
        call_ensures(
            ChannelSession::handle_control_msg,
            (a, ChannelMsg::FileProgress { transfer_id, transferred, total }),
            told,
        ),
        call_ensures(ChannelSession::handle_control_msg, (b, ChannelMsg::Ping), ponged),
        call_ensures(ChannelSession::handle_control_msg, (c, ChannelMsg::Pong), quiet),
    ensures
        told@.len() == 1,
        told@[0] == Effect::Event(
            ChannelEvent::FileProgress { transfer_id, transferred, total, is_upload: false },
        ),
        final(a)@ == old(a)@,
        ponged@.len() == 1,
        ponged@[0] == Effect::Send(ChannelMsg::Pong),
        final(b)@ == old(b)@,
        quiet@.len() == 0,
        final(c)@ == old(c)@,
{
    assert(effect_models(told@).len() == 1);
    lemma_effect_at(told@, 0);
    assert(effect_models(ponged@).len() == 1);
    lemma_effect_at(ponged@, 0);
    assert(effect_models(quiet@).len() == 0);
}

/// When a session ends, the connection is closed first and the end is told of last; in between, the
/// unfinished file of every transfer that comes in is deleted and the sender of every transfer that
/// goes out is stopped. Nothing is left running, and the session is no longer alive.
pub proof fn law_end_leaves_nothing_behind(
    s: &mut ChannelSession,
    effects: Vec<Effect>,
    alive: bool,
)
    requires
        !old(s)@.closed,
        call_ensures(ChannelSession::close, (s,), effects),
        call_ensures(ChannelSession::is_alive, (&*final(s),), alive),
    ensures
        !alive,
        final(s)@.inbounds.dom() == Set::<u32>::empty(),
        final(s)@.outbounds.dom() == Set::<u32>::empty(),
        effects@.len() >= 2,
        effects@[0] == Effect::CloseTransport,
        effects@.last() matches Effect::Event(ChannelEvent::Disconnected { peer_id }) && peer_id@
            == old(s)@.peer_id,
        forall|id: u32| #[trigger]
            old(s)@.inbounds.dom().contains(id) ==> exists|i: int|
                0 <= i < effects@.len() && ((#[trigger] effects@[i]) matches Effect::RemoveFile(p)
                    && p@ == old(s)@.inbounds[id].tmp_path),
        forall|id: u32| #[trigger]
            old(s)@.outbounds.dom().contains(id) ==> exists|i: int|
                0 <= i < effects@.len() && #[trigger] effects@[i] == Effect::Cancel(id),
{
    let m = old(s)@;
    let all = effect_models(effects@);
    assert(m.ending(all));
    let (ins, outs) = choose|in_ids: Seq<u32>, out_ids: Seq<u32>|
        {
            &&& in_ids.no_duplicates()
            &&& in_ids.to_set() == m.inbounds.dom()
            &&& out_ids.no_duplicates()
            &&& out_ids.to_set() == m.outbounds.dom()
            &&& all == #[trigger] m.end_effects(in_ids, out_ids)
        };
    let n = effects@.len() as int;
    assert(all.len() == n);
    assert(m.discards(ins).len() == ins.len());
    assert(halts(outs).len() == outs.len());
    assert(n == ins.len() + outs.len() + 2);
    lemma_effect_at(effects@, 0);
    lemma_effect_at(effects@, n - 1);
    assert forall|id: u32| #[trigger] m.inbounds.dom().contains(id) implies exists|i: int|
        0 <= i < effects@.len() && ((#[trigger] effects@[i]) matches Effect::RemoveFile(p) && p@
            == m.inbounds[id].tmp_path) by {
        assert(ins.to_set().contains(id));
        let j = choose|j: int| 0 <= j < ins.len() && ins[j] == id;
        lemma_effect_at(effects@, j + 1);
        assert(all[j + 1] == m.discards(ins)[j]);
    }
    assert forall|id: u32| #[trigger] m.outbounds.dom().contains(id) implies exists|i: int|
        0 <= i < effects@.len() && #[trigger] effects@[i] == Effect::Cancel(id) by {
        assert(outs.to_set().contains(id));
        let j = choose|j: int| 0 <= j < outs.len() && outs[j] == id;
        let i = j + 1 + ins.len() as int;
        lemma_effect_at(effects@, i);
        assert(all[i] == halts(outs)[j]);
        assert(effects@[i]@ == EffectModel::Cancel(id));
    }
}

/// The end of the connection ends the session, and is told as closing it would be.
pub proof fn law_lost_connection_ends_the_session(
    s: &mut ChannelSession,
    step: ReceiveStep,
    alive: bool,
)
    requires
        !old(s)@.closed,
        call_ensures(ChannelSession::receive_step, (s, Incoming::End), step),
        call_ensures(ChannelSession::is_alive, (&*final(s),), alive),
    ensures
        !alive,
        step matches ReceiveStep::Stop(e) && e@.len() >= 2 && e@[0] == Effect::CloseTransport && (
        e@.last() matches Effect::Event(ChannelEvent::Disconnected { peer_id }) && peer_id@ == old(
            s,
        )@.peer_id),
{
    let m = old(s)@;
    let e = step->Stop_0;
    assert(m.ending(effect_models(e@)));
    let (ins, outs) = choose|in_ids: Seq<u32>, out_ids: Seq<u32>|
        {
            &&& in_ids.no_duplicates()
            &&& in_ids.to_set() == m.inbounds.dom()
            &&& out_ids.no_duplicates()
            &&& out_ids.to_set() == m.outbounds.dom()
            &&& effect_models(e@) == #[trigger] m.end_effects(in_ids, out_ids)
        };
    assert(effect_models(e@).len() == e@.len());
    assert(m.discards(ins).len() == ins.len());
    assert(halts(outs).len() == outs.len());
    assert(e@.len() == ins.len() + outs.len() + 2);
    lemma_effect_at(e@, 0);
    lemma_effect_at(e@, e@.len() - 1);
}

/// Frames of the channel's own track are taken as parts of files; frames of other tracks, and what
/// is neither message nor frame, are skipped.
pub proof fn law_channel_frames_are_taken(s: &mut ChannelSession, frame: Frame, step: ReceiveStep)
    requires
        call_ensures(ChannelSession::receive_step, (s, Incoming::Media(frame)), step),
    ensures
        frame.header.track == TRACK_CHANNEL ==> (step matches ReceiveStep::Chunk(v) && v@
            == frame.payload@),
        frame.header.track != TRACK_CHANNEL ==> step is Skip,
        final(s)@ == old(s)@,
{
}

/// A chunk of a transfer that is being received, within its limit, is to be written; once written,
/// its bytes count, progress is told with the new count and the announced size, and the last chunk
/// completes the file under its name and temporary path. A transfer keeps running until then.
pub proof fn law_chunk_counts(
    s: &mut ChannelSession,
    header: ChannelChunkHeader,
    r: (Effect, Option<Received>),
    last: bool,
)
    requires
        old(s)@.inbounds.dom().contains(header.transfer_id),
        old(s)@.inbounds[header.transfer_id].transferred + header.chunk_len <= u64::MAX,
        call_ensures(ChannelSession::chunk_written, (s, header), r),
        call_ensures(ChannelChunkHeader::is_eof, (&header,), last),
    ensures
        ({
            let t = old(s)@.inbounds[header.transfer_id];
            &&& r.0 == Effect::Event(
                ChannelEvent::FileProgress {
                    transfer_id: header.transfer_id,
                    transferred: (t.transferred + header.chunk_len) as u64,
                    total: t.size,
                    is_upload: false,
                },
            )
            &&& last <==> r.1 is Some
            &&& r.1 matches Some(f) ==> f.transfer_id == header.transfer_id && f.name@ == t.name
                && f.tmp_path@ == t.tmp_path
            &&& last <==> !final(s)@.inbounds.dom().contains(header.transfer_id)
            &&& !last ==> final(s)@.inbounds[header.transfer_id].transferred == t.transferred
                + header.chunk_len && final(s)@.inbounds[header.transfer_id].size == t.size
                && final(s)@.inbounds[header.transfer_id].tmp_path == t.tmp_path
        }),
{
}

/// An accepted transfer starts with nothing received, under the given name, size and temporary path.
pub proof fn law_accepted_transfer_starts_empty(
    s: &mut ChannelSession,
    transfer_id: u32,
    safe_name: String,
    size: u64,
    tmp_path: String,
    effect: Effect,
)
    requires
        call_ensures(
            ChannelSession::accept_inbound,
            (s, transfer_id, safe_name, size, tmp_path),
            effect,
        ),
    ensures
        final(s)@.inbounds.dom() == old(s)@.inbounds.dom().insert(transfer_id),
        final(s)@.inbounds[transfer_id].transferred == 0,
        final(s)@.inbounds[transfer_id].size == size,
        final(s)@.inbounds[transfer_id].name == safe_name@,
        final(s)@.inbounds[transfer_id].tmp_path == tmp_path@,
        effect == Effect::Send(
            ChannelMsg::FileDecision { transfer_id, accept: true, reason: None },
        ),
{
}

/// Files that are received at the same time are kept apart: their temporary names differ unless both
/// the transfer and the second are the same. The name that is left is the cleaned one.
pub proof fn law_received_files_are_kept_apart(
    a: u32,
    b: u32,
    name: &str,
    other: &str,
    then: u64,
    now: u64,
    first: InboundPlan,
    second: InboundPlan,
    cleaned: String,
)
    requires
        call_ensures(ChannelSession::plan_inbound, (a, name, then), first),
        call_ensures(ChannelSession::plan_inbound, (b, other, now), second),
        call_ensures(sanitize_file_name, (name, then), cleaned),
    ensures
        first.safe_name@ == cleaned@,
        first.tmp_name@ == second.tmp_name@ ==> a == b && then == now,
        first.tmp_name@.len() > 0 && first.tmp_name@[0] == '.',
{
    reveal_strlit(".tmp-recv-");
    reveal_strlit("-");
    let front = ".tmp-recv-"@;
    let n = front.len() as int;
    if first.tmp_name@ == second.tmp_name@ {
        let x = dec(a as nat);
        let y = dec(b as nat);
        let s = first.tmp_name@.skip(n);
        lemma_parse_dec(a as nat, a as nat);
        lemma_parse_dec(b as nat, b as nat);
        assert(s =~= x + "-"@ + dec(then as nat));
        assert(second.tmp_name@.skip(n) =~= y + "-"@ + dec(now as nat));
        assert(s[x.len() as int] == '-');
        assert(s[y.len() as int] == '-');
        if x.len() < y.len() {
            assert(is_digit(y[x.len() as int]) && s[x.len() as int] == y[x.len() as int]);
        }
        if y.len() < x.len() {
            assert(is_digit(x[y.len() as int]) && s[y.len() as int] == x[y.len() as int]);
        }
        assert(s.take(x.len() as int) =~= x && s.take(y.len() as int) =~= y);
        assert(s.skip(x.len() as int + 1) =~= dec(then as nat));
        assert(s.skip(y.len() as int + 1) =~= dec(now as nat));
        lemma_numeral_injective(a as nat, b as nat, 10);
        lemma_numeral_injective(then as nat, now as nat, 10);
    }
}

/// A chunk of a file that is being received is written as long as the file stays within its size
/// and a megabyte more; one that goes beyond ends the transfer, and what was received is removed. A
/// chunk of another file, or one that is shorter than it says, is passed over.
pub proof fn law_chunk_is_written_within_the_limit(
    s: &mut ChannelSession,
    payload: &Vec<u8>,
    header: Option<ChannelChunkHeader>,
    r: ChunkStep,
)
    requires
        call_ensures(ChannelChunkHeader::decode, (payload,), header),
        call_ensures(ChannelSession::handle_media_frame, (s, payload), r),
    ensures
        header is None ==> r is Ignore && final(s)@ == old(s)@,
        header matches Some(h) ==> {
            let whole = payload@.len() >= 17 + h.chunk_len;
            let known = old(s)@.inbounds.dom().contains(h.transfer_id);
            let t = old(s)@.inbounds[h.transfer_id];
            let limit = t.size + 1048576;
            &&& !whole || !known ==> r is Ignore && final(s)@ == old(s)@
            &&& whole && known && limit <= u64::MAX && t.transferred + h.chunk_len <= limit
                ==> r == ChunkStep::Write(h) && final(s)@ == old(s)@
            &&& whole && known && limit <= u64::MAX && t.transferred + h.chunk_len > limit
                ==> !final(s)@.inbounds.dom().contains(h.transfer_id) && (r matches ChunkStep::CutOff(
                v,
            ) && v@.len() > 0 && effect_models(v@)[0] == EffectModel::RemoveFile(t.tmp_path))
        },
{
    if let ChunkStep::CutOff(v) = r {
        assert(effect_models(v@).len() == v@.len());
    }
}

} // verus!
