//! The sender of a file: waits for the peer's decision, sends the file in chunks, and waits for
//! the acknowledgement.
//!
//! The pump decides; whoever owns the file and the connection performs its actions and reports
//! what came of them.

use vstd::prelude::*;

use crate::channel::chunk::{
    chunk_data, ChannelChunkHeader, CHANNEL_CHUNK_HEADER_LEN, FILE_CHUNK_SIZE, FLAG_EOF,
};
use crate::channel::message::{ChannelEvent, EventModel};
use crate::channel::session::{ChannelSession, ChunkStep, Incoming, ReceiveStep};
use crate::frame::{Frame, FrameHeader, CODEC_CHANNEL, TRACK_CHANNEL};
use crate::text::join2;

verus! {

/// What the pump waits for.
#[derive(Debug, Clone, Copy, PartialEq, Eq, Structural)]
pub enum PumpPhase {
    Decision,
    Open,
    Read,
    Sent { len: u32, eof: bool },
    Ack,
    Done,
}

/// What came of an action.
pub enum PumpInput {
    /// The decision of the peer; `None` when none will come.
    Decision(Option<bool>),
    Opened(Result<(), String>),
    /// The transfer was cancelled, and that was told already.
    Cancelled,
    /// The number of bytes read.
    Read(Result<usize, String>),
    Sent(Result<(), String>),
    /// Whether the peer has acknowledged the file; `false` when it never will.
    Acked(bool),
}

/// What to do next.
#[derive(Debug, Clone, Copy, PartialEq, Eq, Structural)]
pub enum PumpAction {
    Open,
    /// Read up to one chunk, unless the transfer was cancelled.
    Read,
    /// Send the bytes just read behind this header.
    Send(ChannelChunkHeader),
    WaitAck,
    Stop,
}

/// The sender of one file.
pub struct OutboundPump {
    pub transfer_id: u32,
    pub name: String,
    pub size: u64,
    offset: u64,
    phase: PumpPhase,
}

/// What a pump is, as a mathematical value.
pub struct PumpModel {
    pub transfer_id: u32,
    pub name: Seq<char>,
    pub size: u64,
    /// Bytes sent so far.
    pub offset: u64,
    pub phase: PumpPhase,
}

impl View for OutboundPump {
    type V = PumpModel;

    closed spec fn view(&self) -> PumpModel {
        PumpModel {
            transfer_id: self.transfer_id,
            name: self.name@,
            size: self.size,
            offset: self.offset,
            phase: self.phase,
        }
    }
}

/// The text behind some words.
pub open spec fn said(words: Seq<char>, why: String) -> Seq<char> {
    words + why@
}

impl PumpModel {
    /// Whether the pump waits for such an input.
    pub open spec fn expects(self, input: PumpInput) -> bool {
        match input {
            PumpInput::Decision(_) => self.phase == PumpPhase::Decision,
            PumpInput::Opened(_) => self.phase == PumpPhase::Open,
            PumpInput::Cancelled => self.phase != PumpPhase::Done,
            PumpInput::Read(r) => self.phase == PumpPhase::Read && (r matches Ok(n) ==> n
                <= FILE_CHUNK_SIZE && self.offset + n <= u64::MAX),
            PumpInput::Sent(_) => self.phase is Sent,
            PumpInput::Acked(_) => self.phase == PumpPhase::Ack,
        }
    }

    /// Whether the next `n` bytes are the last ones: nothing was read, the announced size is
    /// reached, or the file was announced as empty.
    pub open spec fn is_last(self, n: int) -> bool {
        n == 0 || self.offset + n >= self.size || self.size == 0
    }

    /// The header of the next `n` bytes.
    pub open spec fn header(self, n: int) -> ChannelChunkHeader {
        ChannelChunkHeader {
            transfer_id: self.transfer_id,
            offset: self.offset,
            chunk_len: n as u32,
            flags: if self.is_last(n) {
                FLAG_EOF
            } else {
                0
            },
        }
    }

    pub open spec fn at(self, phase: PumpPhase) -> PumpModel {
        PumpModel { phase, ..self }
    }

    pub open spec fn fails(self, reason: Seq<char>) -> (PumpModel, Option<EventModel>, PumpAction) {
        (
            self.at(PumpPhase::Done),
            Some(EventModel::FileFailed { transfer_id: self.transfer_id, reason }),
            PumpAction::Stop,
        )
    }

    /// The state, the event and the action that follow an input.
    pub open spec fn step(self, input: PumpInput) -> (PumpModel, Option<EventModel>, PumpAction) {
        match input {
            PumpInput::Decision(d) => if d == Some(true) {
                (self.at(PumpPhase::Open), None, PumpAction::Open)
            } else {
                self.fails("对端拒绝接收文件"@)
            },
            PumpInput::Opened(r) => match r {
                Ok(()) => (self.at(PumpPhase::Read), None, PumpAction::Read),
                Err(e) => self.fails(said("读取文件失败: "@, e)),
            },
            PumpInput::Cancelled => (self.at(PumpPhase::Done), None, PumpAction::Stop),
            PumpInput::Read(r) => match r {
                Ok(n) => (
                    self.at(PumpPhase::Sent { len: n as u32, eof: self.is_last(n as int) }),
                    None,
                    PumpAction::Send(self.header(n as int)),
                ),
                Err(e) => self.fails(said("读取文件块失败: "@, e)),
            },
            PumpInput::Sent(r) => match r {
                Ok(()) => {
                    let sent = (self.offset + self.phase->len) as u64;
                    let told = Some(
                        EventModel::FileProgress {
                            transfer_id: self.transfer_id,
                            transferred: sent,
                            total: self.size,
                            is_upload: true,
                        },
                    );
                    if self.phase->eof {
                        (
                            PumpModel { offset: sent, phase: PumpPhase::Ack, ..self },
                            told,
                            PumpAction::WaitAck,
                        )
                    } else {
                        (
                            PumpModel { offset: sent, phase: PumpPhase::Read, ..self },
                            told,
                            PumpAction::Read,
                        )
                    }
                },
                Err(e) => self.fails(said("发送数据块失败: "@, e)),
            },
            PumpInput::Acked(got) => if got {
                (
                    self.at(PumpPhase::Done),
                    Some(
                        EventModel::FileCompleted {
                            transfer_id: self.transfer_id,
                            name: self.name,
                            path: None,
                            is_upload: true,
                        },
                    ),
                    PumpAction::Stop,
                )
            } else {
                self.fails("未收到对端完成确认"@)
            },
        }
    }

    /// What holds of every pump.
    pub open spec fn wf(self) -> bool {
        self.phase matches PumpPhase::Sent { len, .. } ==> self.offset + len <= u64::MAX
    }
}

/// The characters of an optional event.
pub open spec fn event_view(e: Option<ChannelEvent>) -> Option<EventModel> {
    match e {
        Some(x) => Some(x@),
        None => None,
    }
}

impl OutboundPump {
    /// The sender of a file that was just offered.
    pub fn new(transfer_id: u32, name: String, size: u64) -> (r: OutboundPump)
        ensures
            r@ == (PumpModel {
                transfer_id,
                name: name@,
                size,
                offset: 0,
                phase: PumpPhase::Decision,
            }),
            r@.wf(),
    {
        OutboundPump { transfer_id, name, size, offset: 0, phase: PumpPhase::Decision }
    }

    fn failure(&mut self, reason: String) -> (r: (Option<ChannelEvent>, PumpAction))
        ensures
            (final(self)@, event_view(r.0), r.1) == old(self)@.fails(reason@),
    {
        self.phase = PumpPhase::Done;
        (
            Some(ChannelEvent::FileFailed { transfer_id: self.transfer_id, reason }),
            PumpAction::Stop,
        )
    }

    /// Takes in what came of the last action; returns the event to be told and the next action.
    pub fn step(&mut self, input: PumpInput) -> (r: (Option<ChannelEvent>, PumpAction))
        requires
            old(self)@.wf(),
            old(self)@.expects(input),
        ensures
            final(self)@.wf(),
            (final(self)@, event_view(r.0), r.1) == old(self)@.step(input),
    {
        match input {
            PumpInput::Decision(d) => {
                let accepted: bool = match d {
                    Some(b) => b,
                    None => false,
                };
                if accepted {
                    self.phase = PumpPhase::Open;
                    (None, PumpAction::Open)
                } else {
                    self.failure("对端拒绝接收文件".to_owned())
                }
            },
            PumpInput::Opened(r) => match r {
                Ok(()) => {
                    self.phase = PumpPhase::Read;
                    (None, PumpAction::Read)
                },
                Err(e) => self.failure(join2("读取文件失败: ", e.as_str())),
            },
            PumpInput::Cancelled => {
                self.phase = PumpPhase::Done;
                (None, PumpAction::Stop)
            },
            PumpInput::Read(r) => match r {
                Ok(n) => {
                    let eof: bool = n == 0 || self.offset + n as u64 >= self.size || self.size == 0;
                    let header = ChannelChunkHeader {
                        transfer_id: self.transfer_id,
                        offset: self.offset,
                        chunk_len: n as u32,
                        flags: if eof {
                            FLAG_EOF
                        } else {
                            0
                        },
                    };
                    self.phase = PumpPhase::Sent { len: n as u32, eof };
                    (None, PumpAction::Send(header))
                },
                Err(e) => self.failure(join2("读取文件块失败: ", e.as_str())),
            },
            PumpInput::Sent(r) => match r {
                Ok(()) => {
                    if let PumpPhase::Sent { len, eof } = self.phase {
                        self.offset = self.offset + len as u64;
                        let told = ChannelEvent::FileProgress {
                            transfer_id: self.transfer_id,
                            transferred: self.offset,
                            total: self.size,
                            is_upload: true,
                        };
                        if eof {
                            self.phase = PumpPhase::Ack;
                            (Some(told), PumpAction::WaitAck)
                        } else {
                            self.phase = PumpPhase::Read;
                            (Some(told), PumpAction::Read)
                        }
                    } else {
                        (None, PumpAction::Stop)
                    }
                },
                Err(e) => self.failure(join2("发送数据块失败: ", e.as_str())),
            },
            PumpInput::Acked(got) => {
                if got {
                    self.phase = PumpPhase::Done;
                    let told = ChannelEvent::FileCompleted {
                        transfer_id: self.transfer_id,
                        name: self.name.clone(),
                        path: None,
                        is_upload: true,
                    };
                    (Some(told), PumpAction::Stop)
                } else {
                    self.failure("未收到对端完成确认".to_owned())
                }
            },
        }
    }
}

/// The frame of a chunk: its header and then its bytes.
pub open spec fn chunk_payload(header: ChannelChunkHeader, data: Seq<u8>) -> Seq<u8> {
    header.bytes() + data
}

/// Builds the frame of a chunk from its header and the buffer that starts with its bytes.
pub fn chunk_frame(header: ChannelChunkHeader, buf: &Vec<u8>) -> (r: Frame)
    requires
        header.chunk_len <= buf@.len(),
    ensures
        r.header == (FrameHeader {
            track: TRACK_CHANNEL,
            codec: CODEC_CHANNEL,
            flags: header.flags,
            pts: header.transfer_id,
            seq: 0,
        }),
        r.payload@ == chunk_payload(header, buf@.take(header.chunk_len as int)),
{
    let mut payload: Vec<u8> = header.encode();
    let n: usize = header.chunk_len as usize;
    let mut i: usize = 0;
    assert(payload@ =~= header.bytes() + buf@.take(0));
    while i < n
        invariant
            n == header.chunk_len,
            n <= buf@.len(),
            i <= n,
            payload@ == header.bytes() + buf@.take(i as int),
        decreases n - i,
    {
        payload.push(buf[i]);
        i += 1;
        assert(payload@ =~= header.bytes() + buf@.take(i as int));
    }
    Frame::new(TRACK_CHANNEL, CODEC_CHANNEL, header.flags, header.transfer_id, payload)
}

/// The receiver of a chunk reads the header that the sender wrote, and finds its bytes behind it.
pub proof fn law_chunk_understood(header: ChannelChunkHeader, data: Seq<u8>)
    requires
        data.len() == header.chunk_len,
    ensures
        ChannelChunkHeader::parsed(chunk_payload(header, data)) == Some(header),
        chunk_payload(header, data).len() == CHANNEL_CHUNK_HEADER_LEN + header.chunk_len,
        chunk_payload(header, data).skip(CHANNEL_CHUNK_HEADER_LEN as int) == data,
{
    crate::channel::chunk::law_header_round_trip(header, data);
    assert(header.bytes().len() == 17);
    assert(chunk_payload(header, data).skip(17) =~= data);
}

/// While a file is read as it was announced, the last chunk is marked exactly when the last byte
/// is in it.
pub proof fn law_end_marked_at_end(m: PumpModel, n: nat)
    requires
        0 < n,
        n <= FILE_CHUNK_SIZE,
        m.offset + n <= m.size,
    ensures
        m.header(n as int).eof() <==> m.offset + n == m.size,
{
    assert(FLAG_EOF & FLAG_EOF != 0) by (bit_vector);
    assert(0u8 & FLAG_EOF == 0) by (bit_vector);
}

/// The chunks of a file lie end to end: each one starts where the one before it ended.
pub proof fn law_chunks_contiguous(m: PumpModel, n: usize, k: usize)
    requires
        m.phase == PumpPhase::Read,
        m.expects(PumpInput::Read(Ok(n))),
        !m.is_last(n as int),
    ensures
        ({
            let sent = m.step(PumpInput::Read(Ok(n))).0;
            let next = sent.step(PumpInput::Sent(Ok(()))).0;
            &&& next.phase == PumpPhase::Read
            &&& next.header(k as int).offset == m.header(n as int).offset + m.header(
                n as int,
            ).chunk_len
        }),
{
}

/// A sender starts once its offer is accepted, and only then: it opens the file, and then reads it
/// from the beginning. When the offer is refused, or nobody will answer any more, it tells that the
/// transfer failed, and stops.
pub proof fn law_sender_starts_when_accepted(
    transfer_id: u32,
    name: String,
    size: u64,
    fresh: OutboundPump,
    p: &mut OutboundPump,
    decision: Option<bool>,
    r: (Option<ChannelEvent>, PumpAction),
    opened: &mut OutboundPump,
    q: (Option<ChannelEvent>, PumpAction),
)
    requires
        call_ensures(OutboundPump::new, (transfer_id, name, size), fresh),
        *old(p) == fresh,
        call_ensures(OutboundPump::step, (p, PumpInput::Decision(decision)), r),
        *old(opened) == *final(p),
        decision == Some(true) ==> call_ensures(
            OutboundPump::step,
            (opened, PumpInput::Opened(Ok(()))),
            q,
        ),
    ensures
        decision == Some(true) ==> r.0 is None && r.1 is Open && q.0 is None && q.1 is Read
            && final(opened)@.offset == 0,
        decision != Some(true) ==> r.1 is Stop && (r.0 matches Some(ChannelEvent::FileFailed {
            transfer_id: t,
            reason,
        }) && t == transfer_id),
{
}

/// What was read is sent with a header that says to which transfer it belongs, where it goes and how
/// much it is, and is marked as the last part exactly when it reaches the announced size or nothing
/// was read. Once it is sent, the progress is told, and the next part is read; after the last one
/// the acknowledgement is waited for.
pub proof fn law_sender_sends_what_was_read(
    p: &mut OutboundPump,
    n: usize,
    r: (Option<ChannelEvent>, PumpAction),
    sent: &mut OutboundPump,
    q: (Option<ChannelEvent>, PumpAction),
    last: bool,
)
    requires
        old(p)@.phase == PumpPhase::Read,
        n <= FILE_CHUNK_SIZE,
        old(p)@.offset + n <= u64::MAX,
        call_ensures(OutboundPump::step, (p, PumpInput::Read(Ok(n))), r),
        *old(sent) == *final(p),
        call_ensures(OutboundPump::step, (sent, PumpInput::Sent(Ok(()))), q),
        r.1 matches PumpAction::Send(h) ==> call_ensures(ChannelChunkHeader::is_eof, (&h,), last),
    ensures
        r.0 is None,
        r.1 matches PumpAction::Send(h) && h.transfer_id == old(p)@.transfer_id && h.offset == old(p)@.offset && h.chunk_len == n,
        last <==> n == 0 || old(p)@.offset + n >= old(p)@.size,
        q.0 == Some(
            ChannelEvent::FileProgress {
                transfer_id: old(p)@.transfer_id,
                transferred: (old(p)@.offset + n) as u64,
                total: old(p)@.size,
                is_upload: true,
            },
        ),
        last ==> q.1 is WaitAck,
        !last ==> q.1 is Read,
        final(sent)@.offset == old(p)@.offset + n,
{
    assert(1u8 & FLAG_EOF != 0) by (bit_vector)
        requires
            FLAG_EOF == 1u8,
    ;
    assert(0u8 & FLAG_EOF == 0) by (bit_vector)
        requires
            FLAG_EOF == 1u8,
    ;
}

/// A file that the peer has acknowledged is told as completed, under its name; one that it never will
/// as failed. A file that cannot be opened, read or sent fails with the reason.
pub proof fn law_sender_tells_how_it_ended(
    p: &mut OutboundPump,
    acked: bool,
    r: (Option<ChannelEvent>, PumpAction),
    broken: &mut OutboundPump,
    why: String,
    input: PumpInput,
    q: (Option<ChannelEvent>, PumpAction),
)
    requires
        old(p)@.phase == PumpPhase::Ack,
        call_ensures(OutboundPump::step, (p, PumpInput::Acked(acked)), r),
        input == PumpInput::Opened(Err(why)) || input == PumpInput::Read(Err(why)) || input
            == PumpInput::Sent(Err(why)),
        call_ensures(OutboundPump::step, (broken, input), q),
    ensures
        r.1 is Stop,
        acked ==> (r.0 matches Some(
            ChannelEvent::FileCompleted { transfer_id, name, path, is_upload },
        ) && transfer_id == old(p)@.transfer_id && name@ == old(p)@.name && path is None
            && is_upload),
        !acked ==> (r.0 matches Some(ChannelEvent::FileFailed { transfer_id, reason })
            && transfer_id == old(p)@.transfer_id),
        q.1 is Stop,
        q.0 matches Some(ChannelEvent::FileFailed { transfer_id, reason }) && transfer_id == old(broken)@.transfer_id && reason@.len() >= why@.len() && reason@.skip(reason@.len() - why@.len())
            == why@,
{
    let reason = q.0->0->FileFailed_reason@;
    assert(reason.skip(reason.len() - why@.len()) =~= why@);
}

/// What a sender sends is what is written at the other end: the frame of a chunk is taken as one, its
/// header is read as it was written, and the bytes behind it are those that were read, as long as
/// the transfer is running there and has not brought too much.
pub proof fn law_sent_chunk_is_written(
    header: ChannelChunkHeader,
    buf: &Vec<u8>,
    frame: Frame,
    there: &mut ChannelSession,
    step: ReceiveStep,
    payload: &Vec<u8>,
    again: &mut ChannelSession,
    fate: ChunkStep,
    data: Vec<u8>,
)
    requires
        header.chunk_len <= buf@.len(),
        call_ensures(chunk_frame, (header, buf), frame),
        call_ensures(ChannelSession::receive_step, (there, Incoming::Media(frame)), step),
        step matches ReceiveStep::Chunk(v) ==> v == *payload,
        *old(again) == *final(there),
        call_ensures(ChannelSession::handle_media_frame, (again, payload), fate),
        old(there)@.inbounds.dom().contains(header.transfer_id),
        old(there)@.inbounds[header.transfer_id].transferred + header.chunk_len
            <= old(there)@.inbounds[header.transfer_id].size,
        call_ensures(chunk_data, (&header, payload), data),
    ensures
        step is Chunk,
        fate == ChunkStep::Write(header),
        data@ == buf@.take(header.chunk_len as int),
        final(again)@ == old(there)@,
{
    let sent = buf@.take(header.chunk_len as int);
    law_chunk_understood(header, sent);
    assert(payload@ == chunk_payload(header, sent));
    assert(data@ =~= payload@.skip(CHANNEL_CHUNK_HEADER_LEN as int));
}

} // verus!
