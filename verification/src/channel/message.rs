//! Messages on a channel, events for the user interface, and effects to be performed.

use vstd::prelude::*;

verus! {

/// The characters of an optional string.
pub open spec fn opt_view(s: Option<String>) -> Option<Seq<char>> {
    match s {
        Some(t) => Some(t@),
        None => None,
    }
}

/// A message that the two ends of a channel exchange.
#[derive(Debug)]
pub enum ChannelMsg {
    Text { msg_id: u64, text: String, timestamp: u64 },
    FileOffer {
        transfer_id: u32,
        name: String,
        size: u64,
        mime: Option<String>,
        sha256: Option<String>,
    },
    FileDecision { transfer_id: u32, accept: bool, reason: Option<String> },
    FileProgress { transfer_id: u32, transferred: u64, total: u64 },
    FileCancel { transfer_id: u32, reason: Option<String> },
    FileAck { transfer_id: u32, save_path: Option<String> },
    Ping,
    Pong,
}

/// What a message is, as a mathematical value.
pub enum MsgModel {
    Text { msg_id: u64, text: Seq<char>, timestamp: u64 },
    FileOffer {
        transfer_id: u32,
        name: Seq<char>,
        size: u64,
        mime: Option<Seq<char>>,
        sha256: Option<Seq<char>>,
    },
    FileDecision { transfer_id: u32, accept: bool, reason: Option<Seq<char>> },
    FileProgress { transfer_id: u32, transferred: u64, total: u64 },
    FileCancel { transfer_id: u32, reason: Option<Seq<char>> },
    FileAck { transfer_id: u32, save_path: Option<Seq<char>> },
    Ping,
    Pong,
}

impl View for ChannelMsg {
    type V = MsgModel;

    open spec fn view(&self) -> MsgModel {
        match *self {
            ChannelMsg::Text { msg_id, text, timestamp } => MsgModel::Text {
                msg_id,
                text: text@,
                timestamp,
            },
            ChannelMsg::FileOffer { transfer_id, name, size, mime, sha256 } => MsgModel::FileOffer {
                transfer_id,
                name: name@,
                size,
                mime: opt_view(mime),
                sha256: opt_view(sha256),
            },
            ChannelMsg::FileDecision { transfer_id, accept, reason } => MsgModel::FileDecision {
                transfer_id,
                accept,
                reason: opt_view(reason),
            },
            ChannelMsg::FileProgress { transfer_id, transferred, total } => MsgModel::FileProgress {
                transfer_id,
                transferred,
                total,
            },
            ChannelMsg::FileCancel { transfer_id, reason } => MsgModel::FileCancel {
                transfer_id,
                reason: opt_view(reason),
            },
            ChannelMsg::FileAck { transfer_id, save_path } => MsgModel::FileAck {
                transfer_id,
                save_path: opt_view(save_path),
            },
            ChannelMsg::Ping => MsgModel::Ping,
            ChannelMsg::Pong => MsgModel::Pong,
        }
    }
}

/// Something that the user interface wants to know.
#[derive(Debug)]
pub enum ChannelEvent {
    Connected { peer_id: String, peer_name: String },
    Disconnected { peer_id: String },
    Message { msg_id: u64, text: String, timestamp: u64, is_self: bool, peer_id: String },
    FileOffer { transfer_id: u32, name: String, size: u64, peer_id: String },
    FileProgress { transfer_id: u32, transferred: u64, total: u64, is_upload: bool },
    FileCompleted { transfer_id: u32, name: String, path: Option<String>, is_upload: bool },
    FileFailed { transfer_id: u32, reason: String },
}

/// What an event is, as a mathematical value.
pub enum EventModel {
    Connected { peer_id: Seq<char>, peer_name: Seq<char> },
    Disconnected { peer_id: Seq<char> },
    Message { msg_id: u64, text: Seq<char>, timestamp: u64, is_self: bool, peer_id: Seq<char> },
    FileOffer { transfer_id: u32, name: Seq<char>, size: u64, peer_id: Seq<char> },
    FileProgress { transfer_id: u32, transferred: u64, total: u64, is_upload: bool },
    FileCompleted { transfer_id: u32, name: Seq<char>, path: Option<Seq<char>>, is_upload: bool },
    FileFailed { transfer_id: u32, reason: Seq<char> },
}

impl View for ChannelEvent {
    type V = EventModel;

    open spec fn view(&self) -> EventModel {
        match *self {
            ChannelEvent::Connected { peer_id, peer_name } => EventModel::Connected {
                peer_id: peer_id@,
                peer_name: peer_name@,
            },
            ChannelEvent::Disconnected { peer_id } => EventModel::Disconnected { peer_id: peer_id@ },
            ChannelEvent::Message { msg_id, text, timestamp, is_self, peer_id } => {
                EventModel::Message { msg_id, text: text@, timestamp, is_self, peer_id: peer_id@ }
            },
            ChannelEvent::FileOffer { transfer_id, name, size, peer_id } => EventModel::FileOffer {
                transfer_id,
                name: name@,
                size,
                peer_id: peer_id@,
            },
            ChannelEvent::FileProgress { transfer_id, transferred, total, is_upload } => {
                EventModel::FileProgress { transfer_id, transferred, total, is_upload }
            },
            ChannelEvent::FileCompleted { transfer_id, name, path, is_upload } => {
                EventModel::FileCompleted {
                    transfer_id,
                    name: name@,
                    path: opt_view(path),
                    is_upload,
                }
            },
            ChannelEvent::FileFailed { transfer_id, reason } => EventModel::FileFailed {
                transfer_id,
                reason: reason@,
            },
        }
    }
}

/// Something that has to be done outside of the state machine.
#[derive(Debug)]
pub enum Effect {
    /// Tell the listeners.
    Event(ChannelEvent),
    /// Send a message to the peer.
    Send(ChannelMsg),
    /// Receive the file of an offer.
    Accept { transfer_id: u32, name: String, size: u64 },
    /// Delete the file of a transfer that did not finish.
    RemoveFile(String),
    /// Tell the sender of a file what the peer decided.
    Decide { transfer_id: u32, accept: bool },
    /// Tell the sender of a file that the peer has it.
    Acknowledge(u32),
    /// Tell the sender of a file to stop.
    Cancel(u32),
    /// Tell the sender of a file that nothing more will come.
    Forget(u32),
    /// Close the connection.
    CloseTransport,
}

/// What an effect is, as a mathematical value.
pub enum EffectModel {
    Event(EventModel),
    Send(MsgModel),
    Accept { transfer_id: u32, name: Seq<char>, size: u64 },
    RemoveFile(Seq<char>),
    Decide { transfer_id: u32, accept: bool },
    Acknowledge(u32),
    Cancel(u32),
    Forget(u32),
    CloseTransport,
}

impl View for Effect {
    type V = EffectModel;

    open spec fn view(&self) -> EffectModel {
        match *self {
            Effect::Event(e) => EffectModel::Event(e@),
            Effect::Send(m) => EffectModel::Send(m@),
            Effect::Accept { transfer_id, name, size } => EffectModel::Accept {
                transfer_id,
                name: name@,
                size,
            },
            Effect::RemoveFile(p) => EffectModel::RemoveFile(p@),
            Effect::Decide { transfer_id, accept } => EffectModel::Decide { transfer_id, accept },
            Effect::Acknowledge(t) => EffectModel::Acknowledge(t),
            Effect::Cancel(t) => EffectModel::Cancel(t),
            Effect::Forget(t) => EffectModel::Forget(t),
            Effect::CloseTransport => EffectModel::CloseTransport,
        }
    }
}

/// The effects of a list as mathematical values.
pub open spec fn effect_models(v: Seq<Effect>) -> Seq<EffectModel> {
    v.map_values(|e: Effect| e@)
}

} // verus!
