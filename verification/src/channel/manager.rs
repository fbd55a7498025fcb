//! The channels of a node, one for each peer.

use vstd::prelude::*;
use vstd::string::*;

use crate::channel::message::{
    effect_models, ChannelEvent, ChannelMsg, Effect, EffectModel, EventModel, MsgModel,
};
use crate::channel::session::{halts, ChannelSession, OutboundTransfer, PeerModel};
use crate::error::Error;
use crate::order::lemma_all_listed;
use crate::table::Table;
use crate::text::{
    begins_with, join2, join3, push_char, skip_chars, starts_with,
};

verus! {

/// Bytes that stand for themselves in a query string.
pub open spec fn unreserved(b: u8) -> bool {
    ||| 0x61 <= b <= 0x7A
    ||| 0x41 <= b <= 0x5A
    ||| 0x30 <= b <= 0x39
    ||| b == 0x2D
    ||| b == 0x5F
    ||| b == 0x2E
    ||| b == 0x7E
}

/// The character of a digit below sixteen, upper case.
pub open spec fn upper_hex(d: int) -> char {
    if d < 10 {
        (48 + d) as char
    } else {
        (55 + d) as char
    }
}

/// How a byte is written in a query string.
pub open spec fn escaped(b: u8) -> Seq<char> {
    if unreserved(b) {
        seq![b as char]
    } else {
        seq!['%', upper_hex(b as int / 16), upper_hex(b as int % 16)]
    }
}

/// How bytes are written in a query string.
pub open spec fn percent_encoded(bytes: Seq<u8>) -> Seq<char>
    decreases bytes.len(),
{
    if bytes.len() == 0 {
        Seq::empty()
    } else {
        percent_encoded(bytes.drop_last()) + escaped(bytes.last())
    }
}

fn hex_digit(d: u8) -> (r: char)
    requires
        d < 16,
    ensures
        r == upper_hex(d as int),
{
    if d < 10 {
        (48 + d) as char
    } else {
        (55 + d) as char
    }
}

/// Writes a text for a query string: letters, digits and `-_.~` stay, every other byte of its
/// UTF-8 form becomes a per cent sign and two hexadecimal digits.
pub fn percent_encode(s: &str) -> (r: String)
    ensures
        r@ == percent_encoded(s.spec_bytes()),
{
    let bytes = s.as_bytes();
    let mut out = String::new();
    let mut i: usize = 0;
    assert(bytes@.take(0) =~= Seq::<u8>::empty());
    while i < bytes.len()
        invariant
            i <= bytes@.len(),
            bytes@ == s.spec_bytes(),
            out@ == percent_encoded(bytes@.take(i as int)),
        decreases bytes.len() - i,
    {
        let b: u8 = bytes[i];
        let ghost done = out@;
        if (0x61 <= b && b <= 0x7A) || (0x41 <= b && b <= 0x5A) || (0x30 <= b && b <= 0x39) || b
            == 0x2D || b == 0x5F || b == 0x2E || b == 0x7E {
            push_char(&mut out, b as char);
        } else {
            push_char(&mut out, '%');
            push_char(&mut out, hex_digit(b / 16));
            push_char(&mut out, hex_digit(b % 16));
        }
        assert(out@ =~= done + escaped(b));
        assert(bytes@.take(i as int + 1).drop_last() =~= bytes@.take(i as int));
        i += 1;
    }
    assert(bytes@.take(bytes@.len() as int) =~= bytes@);
    out
}

/// A text for a query string holds no character that would end the value or the query.
pub proof fn law_percent_encoded_alphabet(bytes: Seq<u8>, i: int)
    requires
        0 <= i < percent_encoded(bytes).len(),
    ensures
        ({
            let c = percent_encoded(bytes)[i];
            c == '%' || ((c as u32) < 128 && unreserved(c as u8))
        }),
    decreases bytes.len(),
{
    if bytes.len() > 0 {
        let head = percent_encoded(bytes.drop_last());
        if i < head.len() {
            law_percent_encoded_alphabet(bytes.drop_last(), i);
        } else {
            assert(percent_encoded(bytes)[i] == escaped(bytes.last())[i - head.len()]);
        }
    }
}

/// The value of an upper-case hexadecimal digit.
pub open spec fn hex_value(c: char) -> int {
    if c <= '9' {
        c as int - 48
    } else {
        c as int - 55
    }
}

/// The bytes that a text in a query string stands for: a per cent sign and two hexadecimal digits
/// stand for one byte, every other character for itself.
pub open spec fn percent_decoded(text: Seq<char>) -> Seq<u8>
    decreases text.len(),
{
    if text.len() == 0 {
        Seq::empty()
    } else if text[0] == '%' && text.len() >= 3 {
        seq![(hex_value(text[1]) * 16 + hex_value(text[2])) as u8] + percent_decoded(text.skip(3))
    } else {
        seq![text[0] as u8] + percent_decoded(text.skip(1))
    }
}

/// Bytes one after the other are written one after the other.
pub proof fn law_percent_encoding_joins(a: Seq<u8>, b: Seq<u8>)
    ensures
        percent_encoded(a + b) == percent_encoded(a) + percent_encoded(b),
    decreases b.len(),
{
    if b.len() == 0 {
        assert(a + b =~= a);
        assert(percent_encoded(a) + percent_encoded(b) =~= percent_encoded(a));
    } else {
        law_percent_encoding_joins(a, b.drop_last());
        assert((a + b).drop_last() =~= a + b.drop_last());
        assert(percent_encoded(a + b) =~= percent_encoded(a) + percent_encoded(b));
    }
}

/// A text for a query string is read back as the bytes that it was written for, and takes one to
/// three characters for each of them.
pub proof fn law_percent_round_trip(bytes: Seq<u8>)
    ensures
        percent_decoded(percent_encoded(bytes)) == bytes,
        bytes.len() <= percent_encoded(bytes).len() <= 3 * bytes.len(),
    decreases bytes.len(),
{
    if bytes.len() > 0 {
        let b = bytes[0];
        let rest = bytes.skip(1);
        let text = percent_encoded(bytes);
        let first = escaped(b);
        law_percent_round_trip(rest);
        law_percent_encoding_joins(seq![b], rest);
        assert(seq![b] + rest =~= bytes);
        assert(seq![b].drop_last() =~= Seq::<u8>::empty());
        assert(percent_encoded(Seq::<u8>::empty()) =~= Seq::<char>::empty());
        assert(percent_encoded(seq![b]) =~= first);
        assert(text == first + percent_encoded(rest));
        assert(text.skip(first.len() as int) =~= percent_encoded(rest));
        assert(text[0] == first[0]);
        if !unreserved(b) {
            assert(text[1] == first[1] && text[2] == first[2]);
            assert(hex_value(upper_hex(b as int / 16)) == b as int / 16);
            assert(hex_value(upper_hex(b as int % 16)) == b as int % 16);
        }
        assert(percent_decoded(text) =~= bytes);
    }
}

/// The WebSocket form of the address of a relay: an HTTP address becomes a WebSocket one, an
/// address without a scheme gets one.
pub open spec fn ws_base(base: Seq<char>) -> Seq<char> {
    if begins_with(base, "http://"@) {
        "ws://"@ + base.skip(7)
    } else if begins_with(base, "https://"@) {
        "wss://"@ + base.skip(8)
    } else if begins_with(base, "ws://"@) || begins_with(base, "wss://"@) {
        base
    } else {
        "ws://"@ + base
    }
}

/// The WebSocket form of the address of a relay.
pub fn ws_base_of(base: &str) -> (r: String)
    ensures
        r@ == ws_base(base@),
{
    proof {
        reveal_strlit("http://");
        reveal_strlit("https://");
    }
    if starts_with(base, "http://") {
        join2("ws://", skip_chars(base, 7).as_str())
    } else if starts_with(base, "https://") {
        join2("wss://", skip_chars(base, 8).as_str())
    } else if !starts_with(base, "ws://") && !starts_with(base, "wss://") {
        join2("ws://", base)
    } else {
        base.to_owned()
    }
}

/// The address at which the channel of a peer is opened.
pub fn channel_url(peer_relay_base: &str, self_id: &str, self_name: &str) -> (r: String)
    ensures
        r@ == ws_base(peer_relay_base@) + "/ws/channel?peer_id="@ + self_id@ + "&peer_name="@
            + percent_encoded(self_name.spec_bytes()),
{
    let mut r: String = ws_base_of(peer_relay_base);
    r.append("/ws/channel?peer_id=");
    r.append(self_id);
    r.append("&peer_name=");
    r.append(percent_encode(self_name).as_str());
    r
}

/// The id of the transport session of a channel.
pub fn channel_session_id(self_id: &str, peer_id: &str) -> (r: String)
    ensures
        r@ == "chan-"@ + self_id@ + "-"@ + peer_id@,
{
    let mut r: String = join3("chan-", self_id, "-");
    r.append(peer_id);
    r
}

/// A channel as it is shown to the user.
#[derive(Debug)]
pub struct ChannelStatus {
    pub peer_id: String,
    pub peer_name: String,
    pub connected: bool,
    pub active_transfers: u32,
}

/// The channels of a node.
pub struct ChannelManager {
    sessions: Table<String, ChannelSession>,
    out_dir: String,
    auto_accept: bool,
}

/// The models of the sessions.
pub open spec fn peer_models(m: Map<Seq<char>, ChannelSession>) -> Map<Seq<char>, PeerModel> {
    m.map_values(|s: ChannelSession| s@)
}

/// The channels whose session still runs.
pub open spec fn alive(m: Map<Seq<char>, PeerModel>) -> Map<Seq<char>, PeerModel> {
    m.restrict(Set::new(|k: Seq<char>| m.dom().contains(k) && !m[k].closed))
}

impl View for ChannelManager {
    type V = Map<Seq<char>, PeerModel>;

    closed spec fn view(&self) -> Map<Seq<char>, PeerModel> {
        peer_models(self.sessions@)
    }
}

/// The error for a peer without a channel.
pub open spec fn not_connected(e: Error, peer_id: Seq<char>) -> bool {
    e matches Error::Message(t) && t@ == "节点 "@ + peer_id + " 的通道尚未连接"@
}

impl ChannelManager {
    pub closed spec fn wf(&self) -> bool {
        &&& self.sessions.wf()
        &&& forall|k: Seq<char>| #[trigger]
            self.sessions@.dom().contains(k) ==> self.sessions@[k].wf()
    }

    /// The directory for received files.
    pub closed spec fn dir(&self) -> Seq<char> {
        self.out_dir@
    }

    /// Whether offered files are accepted without asking.
    pub closed spec fn accepts(&self) -> bool {
        self.auto_accept
    }

    /// No channels yet.
    pub fn new(out_dir: String, auto_accept: bool) -> (r: ChannelManager)
        ensures
            r.wf(),
            r@ == Map::<Seq<char>, PeerModel>::empty(),
            r.dir() == out_dir@,
            r.accepts() == auto_accept,
    {
        let r = ChannelManager { sessions: Table::new(), out_dir, auto_accept };
        assert(r@ =~= Map::<Seq<char>, PeerModel>::empty());
        r
    }

    /// The directory for received files.
    pub fn out_dir(&self) -> (r: &str)
        ensures
            r@ == self.dir(),
    {
        self.out_dir.as_str()
    }

    /// Changes the directory for received files.
    pub fn set_out_dir(&mut self, out_dir: String)
        requires
            old(self).wf(),
        ensures
            final(self).wf(),
            final(self)@ == old(self)@,
            final(self).accepts() == old(self).accepts(),
            final(self).dir() == out_dir@,
    {
        self.out_dir = out_dir;
    }

    /// Notes a new channel with a peer. A channel that the peer had before is ended; its effects
    /// come second.
    pub fn register_session(&mut self, peer_id: String, peer_name: &str) -> (r: (
        Effect,
        Vec<Effect>,
    ))
        requires
            old(self).wf(),
        ensures
            final(self).wf(),
            final(self).dir() == old(self).dir(),
            final(self).accepts() == old(self).accepts(),
            final(self)@ == old(self)@.insert(
                peer_id@,
                PeerModel {
                    peer_id: peer_id@,
                    peer_name: peer_name@,
                    auto_accept: old(self).accepts(),
                    next_msg_id: 1,
                    next_transfer_id: 1,
                    inbounds: Map::empty(),
                    outbounds: Map::empty(),
                    closed: false,
                },
            ),
            r.0@ == EffectModel::Event(
                EventModel::Connected { peer_id: peer_id@, peer_name: peer_name@ },
            ),
            old(self)@.dom().contains(peer_id@) && !old(self)@[peer_id@].closed ==> old(self)@[peer_id@].ending(effect_models(r.1@)),
            !old(self)@.dom().contains(peer_id@) || old(self)@[peer_id@].closed ==> r.1@.len()
                == 0,
    {
        let (session, connected) = ChannelSession::new(
            peer_id.clone(),
            peer_name.to_owned(),
            self.auto_accept,
        );
        let ghost fresh = session@;
        let replaced = self.sessions.insert(peer_id, session);
        assert(self@ =~= old(self)@.insert(peer_id@, fresh));
        let ended: Vec<Effect> = match replaced {
            Some(mut prior) => prior.close(),
            None => Vec::new(),
        };
        (connected, ended)
    }

    /// The running channel with a peer. One that has ended is dropped.
    pub fn get_session(&mut self, peer_id: &str) -> (r: Option<&mut ChannelSession>)
        requires
            old(self).wf(),
        ensures
            final(self).dir() == old(self).dir(),
            final(self).accepts() == old(self).accepts(),
            match r {
                Some(s) => {
                    &&& old(self)@.dom().contains(peer_id@)
                    &&& !old(self)@[peer_id@].closed
                    &&& s.wf()
                    &&& s@ == old(self)@[peer_id@]
                    &&& final(self)@ == old(self)@.insert(peer_id@, final(s)@)
                    &&& final(s).wf() ==> final(self).wf()
                },
                None => {
                    &&& !old(self)@.dom().contains(peer_id@) || old(self)@[peer_id@].closed
                    &&& final(self).wf()
                    &&& final(self)@ == old(self)@.remove(peer_id@)
                },
            },
    {
        let key: String = peer_id.to_owned();
        let live: bool = match self.sessions.get(&key) {
            Some(s) => s.is_alive(),
            None => false,
        };
        if !live {
            let _ = self.sessions.remove(&key);
            assert(self@ =~= old(self)@.remove(peer_id@));
            return None;
        }
        let ghost m = self.sessions@;
        let ghost k = peer_id@;
        proof {
            assert forall|s: ChannelSession| #[trigger] peer_models(m.insert(k, s)) == peer_models(
                m,
            ).insert(k, s@) by {
                assert(peer_models(m.insert(k, s)) =~= peer_models(m).insert(k, s@));
            }
        }
        self.sessions.get_mut(&key)
    }

    /// The running channels. Those that have ended are dropped.
    pub fn list_statuses(&mut self) -> (r: Vec<ChannelStatus>)
        requires
            old(self).wf(),
        ensures
            final(self).wf(),
            final(self).dir() == old(self).dir(),
            final(self).accepts() == old(self).accepts(),
            final(self)@ == alive(old(self)@),
            r@.len() == final(self)@.dom().len(),
            forall|i: int|
                0 <= i < r@.len() ==> {
                    let s = #[trigger] r@[i];
                    &&& final(self)@.dom().contains(s.peer_id@)
                    &&& s.peer_name@ == final(self)@[s.peer_id@].peer_name
                    &&& s.connected
                    &&& s.active_transfers == 0
                },
            forall|i: int, j: int|
                0 <= i < j < r@.len() ==> (#[trigger] r@[i]).peer_id@ != (
                #[trigger] r@[j]).peer_id@,
    {
        self.drop_ended();
        let mut out: Vec<ChannelStatus> = Vec::new();
        let mut i: usize = 0;
        let count: usize = self.sessions.len();
        let ghost keys = self.sessions.keys();
        proof {
            self.sessions.lemma_keys();
            assert(self@.dom() =~= self.sessions@.dom());
        }
        while i < count
            invariant
                self.wf(),
                keys == self.sessions.keys(),
                keys.no_duplicates(),
                count == keys.len(),
                i <= count,
                out@.len() == i,
                forall|k: Seq<char>| #[trigger] self@.dom().contains(k) ==> !self@[k].closed,
                forall|j: int|
                    0 <= j < i ==> {
                        let s = #[trigger] out@[j];
                        &&& s.peer_id@ == keys[j]
                        &&& self@.dom().contains(keys[j])
                        &&& s.peer_name@ == self@[keys[j]].peer_name
                        &&& s.connected
                        &&& s.active_transfers == 0
                    },
            decreases count - i,
        {
            let id: String = self.sessions.key_at(i).clone();
            let s: &ChannelSession = self.sessions.value_at(i);
            assert(self@[keys[i as int]] == s@);
            assert(self@.dom().contains(keys[i as int]));
            out.push(
                ChannelStatus {
                    peer_id: id,
                    peer_name: s.peer_name().to_owned(),
                    connected: s.is_alive(),
                    active_transfers: 0,
                },
            );
            i += 1;
        }
        out
    }

    fn drop_ended(&mut self)
        requires
            old(self).wf(),
        ensures
            final(self).wf(),
            final(self).dir() == old(self).dir(),
            final(self).accepts() == old(self).accepts(),
            final(self)@ == alive(old(self)@),
    {
        let ghost all = self.sessions@;
        let mut kept: Table<String, ChannelSession> = Table::new();
        let mut more: bool = true;
        while more
            invariant
                self.sessions.wf(),
                self.out_dir == old(self).out_dir,
                self.auto_accept == old(self).auto_accept,
                kept.wf(),
                forall|k: Seq<char>| #[trigger] all.dom().contains(k) ==> all[k].wf(),
                forall|k: Seq<char>| #[trigger]
                    all.dom().contains(k) ==> {
                        ||| self.sessions@.dom().contains(k) && self.sessions@[k] == all[k]
                        ||| !self.sessions@.dom().contains(k) && (kept@.dom().contains(k)
                            <==> !all[k]@.closed)
                    },
                forall|k: Seq<char>| #[trigger]
                    self.sessions@.dom().contains(k) ==> all.dom().contains(k)
                        && !kept@.dom().contains(k),
                forall|k: Seq<char>| #[trigger]
                    kept@.dom().contains(k) ==> all.dom().contains(k) && kept@[k] == all[k],
                !more ==> self.sessions@ == Map::<Seq<char>, ChannelSession>::empty(),
            decreases (if more { 1nat } else { 0nat }), self.sessions.keys().len(),
        {
            match self.sessions.pop() {
                None => {
                    more = false;
                },
                Some(e) => {
                    let live: bool = e.1.is_alive();
                    if live {
                        let _ = kept.insert(e.0, e.1);
                    }
                },
            }
        }
        self.sessions = kept;
        assert(self@ =~= alive(old(self)@));
    }

    /// Prepares a text message for a peer.
    pub fn send_text(&mut self, peer_id: &str, text: &str, timestamp: u64) -> (r: Result<
        (u64, ChannelMsg, ChannelEvent),
        Error,
    >)
        requires
            old(self).wf(),
        ensures
            final(self).wf(),
            final(self).dir() == old(self).dir(),
            final(self).accepts() == old(self).accepts(),
            r is Ok <==> old(self)@.dom().contains(peer_id@) && !old(self)@[peer_id@].closed,
            r matches Err(e) ==> not_connected(e, peer_id@) && final(self)@ == old(self)@.remove(
                peer_id@,
            ),
            r matches Ok(m) ==> {
                let before = old(self)@[peer_id@];
                &&& m.0 == before.next_msg_id
                &&& m.1@ == (MsgModel::Text {
                    msg_id: m.0,
                    text: text@,
                    timestamp,
                })
                &&& m.2@ == (EventModel::Message {
                    msg_id: m.0,
                    text: text@,
                    timestamp,
                    is_self: true,
                    peer_id: before.peer_id,
                })
                &&& final(self)@ == old(self)@.insert(
                    peer_id@,
                    PeerModel { next_msg_id: m.0.wrapping_add(1), ..before },
                )
            },
    {
        match self.get_session(peer_id) {
            Some(s) => s.send_text(text, timestamp),
            None => Err(Error::Message(join3("节点 ", peer_id, " 的通道尚未连接"))),
        }
    }

    /// Prepares the offer of a file to a peer.
    pub fn send_file(
        &mut self,
        peer_id: &str,
        path: &str,
        is_file: bool,
        file_name: Option<String>,
        size: u64,
    ) -> (r: Result<(u32, ChannelMsg, ChannelEvent), Error>)
        requires
            old(self).wf(),
        ensures
            final(self).wf(),
            final(self).dir() == old(self).dir(),
            final(self).accepts() == old(self).accepts(),
            ({
                let open = old(self)@.dom().contains(peer_id@) && !old(self)@[peer_id@].closed;
                &&& r is Ok <==> open && is_file
                &&& !open ==> {
                    &&& r matches Err(e) && not_connected(e, peer_id@)
                    &&& final(self)@ == old(self)@.remove(peer_id@)
                }
                &&& open && !is_file ==> {
                    &&& r matches Err(Error::Message(t)) && t@ == "不是普通文件: "@ + path@
                    &&& final(self)@ == old(self)@
                }
            }),
            r matches Ok(m) ==> {
                let before = old(self)@[peer_id@];
                let name = match file_name {
                    Some(n) => n@,
                    None => "未命名"@,
                };
                &&& m.0 == before.next_transfer_id
                &&& m.1@ == (MsgModel::FileOffer {
                    transfer_id: m.0,
                    name,
                    size,
                    mime: None,
                    sha256: None,
                })
                &&& m.2@ == (EventModel::FileOffer {
                    transfer_id: m.0,
                    name,
                    size,
                    peer_id: before.peer_id,
                })
                &&& final(self)@ == old(self)@.insert(
                    peer_id@,
                    PeerModel {
                        next_transfer_id: m.0.wrapping_add(1),
                        outbounds: before.outbounds.insert(
                            m.0,
                            OutboundTransfer { decided: false },
                        ),
                        ..before
                    },
                )
            },
    {
        match self.get_session(peer_id) {
            Some(s) => {
                let r = s.send_file(path, is_file, file_name, size);
                assert(r is Err ==> old(self)@.insert(peer_id@, old(self)@[peer_id@]) =~= old(self)@);
                r
            },
            None => Err(Error::Message(join3("节点 ", peer_id, " 的通道尚未连接"))),
        }
    }

    /// Cancels a transfer with a peer.
    pub fn cancel_transfer(&mut self, peer_id: &str, transfer_id: u32) -> (r: Result<
        Vec<Effect>,
        Error,
    >)
        requires
            old(self).wf(),
        ensures
            final(self).wf(),
            final(self).dir() == old(self).dir(),
            final(self).accepts() == old(self).accepts(),
            r is Ok <==> old(self)@.dom().contains(peer_id@) && !old(self)@[peer_id@].closed,
            r matches Err(e) ==> not_connected(e, peer_id@) && final(self)@ == old(self)@.remove(
                peer_id@,
            ),
            r matches Ok(e) ==> {
                let before = old(self)@[peer_id@];
                &&& effect_models(e@) == before.cancel_effects(transfer_id)
                &&& final(self)@ == old(self)@.insert(
                    peer_id@,
                    before.without_transfer(transfer_id),
                )
            },
    {
        match self.get_session(peer_id) {
            Some(s) => Ok(s.cancel_transfer(transfer_id)),
            None => Err(Error::Message(join3("节点 ", peer_id, " 的通道尚未连接"))),
        }
    }

    /// Ends the channel with a peer; nothing happens when there is none.
    pub fn close_session(&mut self, peer_id: &str) -> (effects: Vec<Effect>)
        requires
            old(self).wf(),
        ensures
            final(self).wf(),
            final(self).dir() == old(self).dir(),
            final(self).accepts() == old(self).accepts(),
            final(self)@ == old(self)@.remove(peer_id@),
            old(self)@.dom().contains(peer_id@) && !old(self)@[peer_id@].closed ==> old(self)@[peer_id@].ending(effect_models(effects@)),
            !old(self)@.dom().contains(peer_id@) || old(self)@[peer_id@].closed ==> effects@.len()
                == 0,
    {
        let removed = self.sessions.remove(&peer_id.to_owned());
        assert(self@ =~= old(self)@.remove(peer_id@));
        match removed {
            Some(mut s) => s.close(),
            None => Vec::new(),
        }
    }
}

/// A channel that was opened carries messages to its peer until it is closed: what is sent over it is
/// the text for that peer, the first one with the number one; once it is closed nothing is sent.
pub proof fn law_open_channel_carries_messages(
    m: &mut ChannelManager,
    peer_id: String,
    peer_name: &str,
    opened: (Effect, Vec<Effect>),
    used: &mut ChannelManager,
    peer: &str,
    text: &str,
    timestamp: u64,
    sent: Result<(u64, ChannelMsg, ChannelEvent), Error>,
    ended: &mut ChannelManager,
    effects: Vec<Effect>,
    late: &mut ChannelManager,
    refused: Result<(u64, ChannelMsg, ChannelEvent), Error>,
)
    requires
        peer@ == peer_id@,
        call_ensures(ChannelManager::register_session, (m, peer_id, peer_name), opened),
        *old(used) == *final(m),
        call_ensures(ChannelManager::send_text, (used, peer, text, timestamp), sent),
        *old(ended) == *final(used),
        call_ensures(ChannelManager::close_session, (ended, peer), effects),
        *old(late) == *final(ended),
        call_ensures(ChannelManager::send_text, (late, peer, text, timestamp), refused),
    ensures
        opened.0 matches Effect::Event(ChannelEvent::Connected { peer_id: p, peer_name: n }) && p@
            == peer_id@ && n@ == peer_name@,
        sent matches Ok(x) && x.0 == 1 && (x.1 matches ChannelMsg::Text {
            msg_id,
            text: t,
            timestamp: at,
        } && msg_id == 1 && t@ == text@ && at == timestamp) && (x.2 matches ChannelEvent::Message {
            msg_id,
            text: t,
            timestamp: at,
            is_self,
            peer_id: p,
        } && is_self && p@ == peer_id@ && t@ == text@),
        effects@.len() >= 2,
        effects@[0] is CloseTransport,
        effects@.last() matches Effect::Event(ChannelEvent::Disconnected { peer_id: p }) && p@
            == peer_id@,
        refused is Err,
{
    let s = old(ended)@[peer@];
    assert(s.ending(effect_models(effects@)));
    let (ins, outs) = choose|in_ids: Seq<u32>, out_ids: Seq<u32>|
        {
            &&& in_ids.no_duplicates()
            &&& in_ids.to_set() == s.inbounds.dom()
            &&& out_ids.no_duplicates()
            &&& out_ids.to_set() == s.outbounds.dom()
            &&& effect_models(effects@) == #[trigger] s.end_effects(in_ids, out_ids)
        };
    let all = effect_models(effects@);
    assert(all.len() == effects@.len());
    assert(s.discards(ins).len() == ins.len());
    assert(halts(outs).len() == outs.len());
    assert(all[0] == effects@[0]@);
    assert(all[all.len() - 1] == effects@.last()@);
}

/// A peer that connects again has its former channel ended, and starts anew.
pub proof fn law_reconnecting_ends_the_former_channel(
    m: &mut ChannelManager,
    peer_id: String,
    peer_name: &str,
    r: (Effect, Vec<Effect>),
)
    requires
        call_ensures(ChannelManager::register_session, (m, peer_id, peer_name), r),
        old(m)@.dom().contains(peer_id@),
        !old(m)@[peer_id@].closed,
    ensures
        r.1@.len() >= 2,
        r.1@[0] is CloseTransport,
        final(m)@[peer_id@].peer_name == peer_name@,
        final(m)@[peer_id@].next_msg_id == 1,
        final(m)@[peer_id@].auto_accept == old(m).accepts(),
        forall|other: Seq<char>| other != peer_id@ && #[trigger] old(m)@.dom().contains(other)
            ==> final(m)@.dom().contains(other) && final(m)@[other] == old(m)@[other],
{
    let s = old(m)@[peer_id@];
    let effects = r.1;
    assert(s.ending(effect_models(effects@)));
    let (ins, outs) = choose|in_ids: Seq<u32>, out_ids: Seq<u32>|
        {
            &&& in_ids.no_duplicates()
            &&& in_ids.to_set() == s.inbounds.dom()
            &&& out_ids.no_duplicates()
            &&& out_ids.to_set() == s.outbounds.dom()
            &&& effect_models(effects@) == #[trigger] s.end_effects(in_ids, out_ids)
        };
    let all = effect_models(effects@);
    assert(all.len() == effects@.len());
    assert(s.discards(ins).len() == ins.len());
    assert(halts(outs).len() == outs.len());
    assert(all[0] == effects@[0]@);
}

/// Every running channel is listed as connected, with its peer, and no other is.
pub proof fn law_running_channels_are_listed(
    m: &mut ChannelManager,
    r: Vec<ChannelStatus>,
    peer: Seq<char>,
) -> (i: int)
    requires
        old(m).wf(),
        call_ensures(ChannelManager::list_statuses, (m,), r),
        old(m)@.dom().contains(peer),
        !old(m)@[peer].closed,
    ensures
        0 <= i < r@.len(),
        r@[i].peer_id@ == peer,
        r@[i].peer_name@ == old(m)@[peer].peer_name,
        r@[i].connected,
        forall|j: int|
            0 <= j < r@.len() ==> old(m)@.dom().contains((#[trigger] r@[j]).peer_id@) && !old(m)@[r@[j].peer_id@].closed,
{
    let all = alive(old(m)@);
    old(m).sessions.lemma_keys();
    assert(old(m)@.dom() =~= old(m).sessions@.dom());
    assert(all.dom().subset_of(old(m)@.dom()));
    vstd::set_lib::lemma_len_subset(all.dom(), old(m)@.dom());
    let ids = r@.map_values(|x: ChannelStatus| x.peer_id@);
    assert(ids.no_duplicates()) by {
        assert forall|a: int, b: int|
            0 <= a < ids.len() && 0 <= b < ids.len() && a != b implies ids[a] != ids[b] by {
            if a < b {
                assert(r@[a].peer_id@ != r@[b].peer_id@);
            } else {
                assert(r@[b].peer_id@ != r@[a].peer_id@);
            }
        }
    }
    assert forall|j: int| 0 <= j < ids.len() implies all.dom().contains(#[trigger] ids[j]) by {
        assert(all.dom().contains(r@[j].peer_id@));
    }
    let i = lemma_all_listed(ids, all.dom(), peer);
    assert(r@[i].peer_id@ == peer);
    i
}

/// A channel is opened at the relay of the peer: over the WebSocket that stands for its address, which
/// is a secure one when the address is, and with the id and the name of this node behind it.
pub proof fn law_channel_is_opened_at_the_relay(
    base: &str,
    rest: Seq<char>,
    id: &str,
    name: &str,
    encoded: String,
    r: String,
)
    requires
        call_ensures(channel_url, (base, id, name), r),
        call_ensures(percent_encode, (name,), encoded),
    ensures
        base@ == "http://"@ + rest ==> r@ == "ws://"@ + rest + "/ws/channel?peer_id="@ + id@
            + "&peer_name="@ + encoded@,
        base@ == "https://"@ + rest ==> r@ == "wss://"@ + rest + "/ws/channel?peer_id="@ + id@
            + "&peer_name="@ + encoded@,
        base@ == "ws://"@ + rest ==> r@ == base@ + "/ws/channel?peer_id="@ + id@ + "&peer_name="@
            + encoded@,
        base@ == "wss://"@ + rest ==> r@ == base@ + "/ws/channel?peer_id="@ + id@ + "&peer_name="@
            + encoded@,
{
    reveal_strlit("http://");
    reveal_strlit("https://");
    reveal_strlit("ws://");
    reveal_strlit("wss://");
    if base@ == "http://"@ + rest {
        assert(base@.subrange(0, 7) =~= "http://"@);
        assert(base@.skip(7) =~= rest);
    } else if base@ == "https://"@ + rest {
        assert(base@.subrange(0, 8) =~= "https://"@);
        assert(base@.skip(8) =~= rest);
        assert(base@[4] == 's');
        assert(!begins_with(base@, "http://"@)) by {
            if begins_with(base@, "http://"@) {
                assert(base@.subrange(0, 7)[4] == "http://"@[4]);
            }
        }
    } else if base@ == "ws://"@ + rest || base@ == "wss://"@ + rest {
        assert(base@[0] == 'w');
        assert(!begins_with(base@, "http://"@)) by {
            if begins_with(base@, "http://"@) {
                assert(base@.subrange(0, 7)[0] == "http://"@[0]);
            }
        }
        assert(!begins_with(base@, "https://"@)) by {
            if begins_with(base@, "https://"@) {
                assert(base@.subrange(0, 8)[0] == "https://"@[0]);
            }
        }
        if base@ == "ws://"@ + rest {
            assert(base@.subrange(0, 5) =~= "ws://"@);
        } else {
            assert(base@.subrange(0, 6) =~= "wss://"@);
        }
    }
}

/// A name that was written for a query string is read back from it byte for byte.
pub proof fn law_written_name_is_read_back(name: &str, r: String)
    requires
        call_ensures(percent_encode, (name,), r),
    ensures
        percent_decoded(r@) == name.spec_bytes(),
        forall|i: int|
            0 <= i < r@.len() ==> #[trigger] r@[i] != '&' && r@[i] != '=' && r@[i] != ' ' && r@[i]
                != '#' && r@[i] != '+',
{
    law_percent_round_trip(name.spec_bytes());
    assert forall|i: int| 0 <= i < r@.len() implies #[trigger] r@[i] != '&' && r@[i] != '=' && r@[i]
        != ' ' && r@[i] != '#' && r@[i] != '+' by {
        law_percent_encoded_alphabet(name.spec_bytes(), i);
    }
}

/// Received files go to the directory that was set last, and offers are answered as it was said at the
/// beginning.
pub proof fn law_files_go_where_it_was_said(
    dir: String,
    auto_accept: bool,
    m: ChannelManager,
    first: &str,
    moved: &mut ChannelManager,
    other: String,
    second: &str,
)
    requires
        call_ensures(ChannelManager::new, (dir, auto_accept), m),
        call_ensures(ChannelManager::out_dir, (&m,), first),
        *old(moved) == m,
        call_ensures(ChannelManager::set_out_dir, (moved, other), ()),
        call_ensures(ChannelManager::out_dir, (&*final(moved),), second),
    ensures
        first@ == dir@,
        second@ == other@,
        final(moved).accepts() == auto_accept,
        final(moved)@.dom() == Set::<Seq<char>>::empty(),
{
}

/// The session of a channel names both its ends, this one first; with the same end here, channels to
/// different peers have different sessions.
pub proof fn law_channel_session_names_both_ends(
    own: &str,
    peer: &str,
    other: &str,
    a: String,
    b: String,
)
    requires
        call_ensures(channel_session_id, (own, peer), a),
        call_ensures(channel_session_id, (own, other), b),
    ensures
        a@.len() >= own@.len() + peer@.len(),
        a@.skip(a@.len() - peer@.len()) == peer@,
        a@.subrange(5, 5int + own@.len()) == own@,
        a@ == b@ ==> peer@ == other@,
{
    reveal_strlit("chan-");
    reveal_strlit("-");
    let n = 6 + own@.len();
    assert(a@.skip(a@.len() - peer@.len()) =~= peer@);
    assert(a@.subrange(5, 5int + own@.len()) =~= own@);
    assert(a@.skip(n as int) =~= peer@);
    assert(b@.skip(n as int) =~= other@);
}

} // verus!
