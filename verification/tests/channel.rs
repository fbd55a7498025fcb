use stross_kernel::channel::chunk::{
    chunk_data, ChannelChunkHeader, CHANNEL_CHUNK_HEADER_LEN, FILE_CHUNK_SIZE, FLAG_EOF,
};
use stross_kernel::channel::file_name::{numbered_name, resolve_unique_name, sanitize_file_name};
use stross_kernel::channel::manager::{
    channel_session_id, channel_url, percent_encode, ws_base_of, ChannelManager,
};
use stross_kernel::channel::message::{ChannelEvent, ChannelMsg, Effect};
use stross_kernel::channel::outbound::{chunk_frame, OutboundPump, PumpAction, PumpInput};
use stross_kernel::channel::session::{
    ChannelSession, ChunkStep, Incoming, ReceiveStep,
};
use stross_kernel::error::Error;
use stross_kernel::frame::{Frame, CODEC_CHANNEL, TRACK_CHANNEL};

const NOW: u64 = 1_700_000_000;

fn session(auto_accept: bool) -> ChannelSession {
    ChannelSession::new("dev-a".to_string(), "手机A".to_string(), auto_accept).0
}

fn header(id: u32, offset: u64, len: u32, flags: u8) -> ChannelChunkHeader {
    ChannelChunkHeader { transfer_id: id, offset, chunk_len: len, flags }
}

fn chunk(h: ChannelChunkHeader, bytes: &[u8]) -> Vec<u8> {
    chunk_frame(h, &bytes.to_vec()).payload
}

fn refusal(e: Error) -> String {
    match e {
        Error::Message(t) => t,
        other => panic!("unexpected error {other:?}"),
    }
}

#[test]
fn chunk_headers_survive_the_wire() {
    let h = header(0x0102_0304, 0x0506_0708_090a_0b0c, 0x0d0e_0f10, FLAG_EOF);
    let bytes = h.encode();
    assert_eq!(bytes.len(), CHANNEL_CHUNK_HEADER_LEN);
    assert_eq!(bytes, vec![1, 2, 3, 4, 5, 6, 7, 8, 9, 10, 11, 12, 13, 14, 15, 16, 1]);
    assert_eq!(ChannelChunkHeader::decode(&bytes), Some(h));
    assert!(h.is_eof());
    assert_eq!(ChannelChunkHeader::decode(&bytes[..16].to_vec()), None);
}

#[test]
fn chunk_frames_hold_header_and_bytes() {
    let f = chunk_frame(header(1, 0, 2, 0), &vec![7, 8, 9]);
    assert_eq!(f.header.track, TRACK_CHANNEL);
    assert_eq!(f.header.codec, CODEC_CHANNEL);
    assert_eq!(f.payload[CHANNEL_CHUNK_HEADER_LEN..].to_vec(), vec![7, 8]);
}

#[test]
fn received_names_are_cleaned() {
    assert_eq!(sanitize_file_name("../../etc/passwd", NOW), "passwd");
    assert_eq!(sanitize_file_name("C:\\tmp\\备注.txt", NOW), "备注.txt");
    assert_eq!(sanitize_file_name("  .notes.  ", NOW), "notes");
    assert_eq!(sanitize_file_name("a\u{7}b.txt", NOW), "a_b.txt");
    assert_eq!(sanitize_file_name("dir/", NOW), "dir");
    assert_eq!(sanitize_file_name("..", NOW), "file_1700000000");
    assert_eq!(sanitize_file_name("", NOW), "file_1700000000");
}

#[test]
fn taken_names_are_numbered() {
    assert_eq!(numbered_name("a.txt", 2), "a (2).txt");
    let taken = vec!["a.txt".to_string(), "a (1).txt".to_string()];
    let free = resolve_unique_name("a.txt", &taken, NOW);
    assert!(!taken.contains(&free));
    assert_eq!(free, "a (2).txt");
    assert_eq!(resolve_unique_name("b.txt", &taken, NOW), "b.txt");
}

#[test]
fn query_texts_are_escaped() {
    assert_eq!(percent_encode("a-Z_0.~"), "a-Z_0.~");
    assert_eq!(percent_encode("a b&c"), "a%20b%26c");
    assert_eq!(percent_encode("手"), "%E6%89%8B");
}

#[test]
fn channels_have_addresses() {
    assert_eq!(ws_base_of("http://192.168.1.5:18777"), "ws://192.168.1.5:18777");
    assert_eq!(ws_base_of("https://host"), "wss://host");
    assert_eq!(ws_base_of("wss://host"), "wss://host");
    assert_eq!(ws_base_of("host:1"), "ws://host:1");
    assert_eq!(
        channel_url("http://192.168.1.5:18777", "node-pc", "my pc"),
        "ws://192.168.1.5:18777/ws/channel?peer_id=node-pc&peer_name=my%20pc"
    );
    assert_eq!(channel_session_id("a", "b"), "chan-a-b");
}

#[test]
fn texts_are_numbered() {
    let mut s = session(true);
    for n in 1..4 {
        let (id, msg, event) = s.send_text("你好", NOW).unwrap();
        assert_eq!(id, n);
        assert!(matches!(msg, ChannelMsg::Text { msg_id, .. } if msg_id == n));
        assert!(matches!(
            event,
            ChannelEvent::Message { is_self: true, peer_id, .. } if peer_id == "dev-a"
        ));
    }
}

#[test]
fn pings_are_answered() {
    let mut s = session(true);
    let effects = s.handle_control_msg(ChannelMsg::Ping);
    assert!(matches!(effects.as_slice(), [Effect::Send(ChannelMsg::Pong)]));
    assert!(s.handle_control_msg(ChannelMsg::Pong).is_empty());
}

#[test]
fn offers_are_accepted_when_told_to() {
    let offer = || ChannelMsg::FileOffer {
        transfer_id: 3,
        name: "a.txt".to_string(),
        size: 4,
        mime: None,
        sha256: None,
    };
    let effects = session(true).handle_control_msg(offer());
    assert!(matches!(
        effects.as_slice(),
        [Effect::Event(ChannelEvent::FileOffer { .. }), Effect::Accept { transfer_id: 3, size: 4, .. }]
    ));
    let effects = session(false).handle_control_msg(offer());
    assert!(matches!(effects.as_slice(), [Effect::Event(ChannelEvent::FileOffer { .. })]));
}

#[test]
fn a_file_arrives() {
    let mut s = session(true);
    let plan = ChannelSession::plan_inbound(3, "../a.txt", NOW);
    assert_eq!(plan.safe_name, "a.txt");
    let accepted = s.accept_inbound(3, plan.safe_name, 4, "/tmp/x.part".to_string());
    assert!(matches!(
        accepted,
        Effect::Send(ChannelMsg::FileDecision { transfer_id: 3, accept: true, .. })
    ));
    let first = match s.handle_media_frame(&chunk(header(3, 0, 2, 0), &[1, 2])) {
        ChunkStep::Write(h) => h,
        _ => panic!("the bytes are to be written"),
    };
    let (event, done) = s.chunk_written(first);
    assert!(done.is_none());
    assert!(matches!(
        event,
        Effect::Event(ChannelEvent::FileProgress { transferred: 2, total: 4, is_upload: false, .. })
    ));
    let last = match s.handle_media_frame(&chunk(header(3, 2, 2, FLAG_EOF), &[3, 4])) {
        ChunkStep::Write(h) => h,
        _ => panic!("the bytes are to be written"),
    };
    let received = s.chunk_written(last).1.expect("the file is complete");
    assert_eq!(received.tmp_path, "/tmp/x.part");
    let effects = ChannelSession::inbound_renamed(received, Ok("/out/a.txt".to_string()));
    assert!(effects.iter().any(|e| matches!(
        e,
        Effect::Send(ChannelMsg::FileAck { transfer_id: 3, save_path: Some(p) }) if p == "/out/a.txt"
    )));
    assert!(effects.iter().any(|e| matches!(
        e,
        Effect::Event(ChannelEvent::FileCompleted { is_upload: false, .. })
    )));
}

#[test]
fn too_many_bytes_end_a_transfer() {
    let mut s = session(true);
    s.accept_inbound(3, "a.txt".to_string(), 0, "/tmp/x.part".to_string());
    assert!(matches!(
        s.handle_media_frame(&chunk(header(9, 0, 1, 0), &[1])),
        ChunkStep::Ignore
    ));
    let huge = header(3, 0, u32::MAX, 0);
    match s.handle_media_frame(&huge.encode()) {
        ChunkStep::CutOff(effects) => assert!(effects
            .iter()
            .any(|e| matches!(e, Effect::RemoveFile(p) if p == "/tmp/x.part"))),
        ChunkStep::Ignore => {}
        ChunkStep::Write(_) => panic!("bytes that are not there cannot be written"),
    }
}

#[test]
fn cancelling_tells_both_sides() {
    let mut s = session(true);
    assert!(s.cancel_transfer(1).is_empty());
    let (id, _, _) = s
        .send_file("/tmp/a.txt", true, Some("a.txt".to_string()), 5)
        .unwrap();
    let effects = s.cancel_transfer(id);
    assert!(matches!(
        effects.as_slice(),
        [
            Effect::Cancel(_),
            Effect::Send(ChannelMsg::FileCancel { reason: Some(_), .. }),
            Effect::Event(ChannelEvent::FileFailed { .. })
        ]
    ));
    assert!(s.cancel_transfer(id).is_empty());
}

#[test]
fn decisions_reach_the_sender_once() {
    let mut s = session(true);
    let (id, msg, _) = s
        .send_file("/tmp/a.txt", true, Some("a.txt".to_string()), 5)
        .unwrap();
    assert!(matches!(msg, ChannelMsg::FileOffer { size: 5, .. }));
    let yes = || ChannelMsg::FileDecision { transfer_id: id, accept: true, reason: None };
    assert!(matches!(
        s.handle_control_msg(yes()).as_slice(),
        [Effect::Decide { accept: true, .. }]
    ));
    assert!(s.handle_control_msg(yes()).is_empty());
    let ack = ChannelMsg::FileAck { transfer_id: id, save_path: None };
    assert!(matches!(s.handle_control_msg(ack).as_slice(), [Effect::Acknowledge(_)]));
}

#[test]
fn a_closed_session_stays_closed() {
    let mut s = session(true);
    s.accept_inbound(3, "a.txt".to_string(), 4, "/tmp/x.part".to_string());
    let effects = s.close();
    assert!(matches!(effects.first(), Some(Effect::CloseTransport)));
    assert!(effects.iter().any(|e| matches!(e, Effect::RemoveFile(_))));
    assert!(!s.is_alive());
    assert!(s.close().is_empty());
    assert_eq!(refusal(s.send_text("x", NOW).unwrap_err()), "通道已关闭");
}

#[test]
fn packets_are_told_apart() {
    let mut s = session(true);
    assert!(matches!(
        s.receive_step(Incoming::Control(ChannelMsg::Ping)),
        ReceiveStep::Perform(e) if e.len() == 1
    ));
    let f = chunk_frame(header(1, 0, 0, 0), &vec![]);
    assert!(matches!(s.receive_step(Incoming::Media(f)), ReceiveStep::Chunk(_)));
    let other = Frame::new(0, 1, 0, 0, vec![1]);
    assert!(matches!(s.receive_step(Incoming::Media(other)), ReceiveStep::Skip));
    assert!(matches!(s.receive_step(Incoming::Other), ReceiveStep::Skip));
    assert!(matches!(s.receive_step(Incoming::End), ReceiveStep::Stop(_)));
    assert!(!s.is_alive());
}

#[test]
fn a_file_is_sent_in_chunks() {
    let size = FILE_CHUNK_SIZE as u64 + 10;
    let mut p = OutboundPump::new(4, "a.bin".to_string(), size);
    assert_eq!(p.step(PumpInput::Decision(Some(true))).1, PumpAction::Open);
    assert_eq!(p.step(PumpInput::Opened(Ok(()))).1, PumpAction::Read);
    assert_eq!(
        p.step(PumpInput::Read(Ok(FILE_CHUNK_SIZE))).1,
        PumpAction::Send(header(4, 0, FILE_CHUNK_SIZE as u32, 0))
    );
    let (event, action) = p.step(PumpInput::Sent(Ok(())));
    assert!(matches!(event, Some(ChannelEvent::FileProgress { transferred: 65536, .. })));
    assert_eq!(action, PumpAction::Read);
    assert_eq!(
        p.step(PumpInput::Read(Ok(10))).1,
        PumpAction::Send(header(4, FILE_CHUNK_SIZE as u64, 10, FLAG_EOF))
    );
    assert_eq!(p.step(PumpInput::Sent(Ok(()))).1, PumpAction::WaitAck);
    let (event, action) = p.step(PumpInput::Acked(true));
    assert!(matches!(event, Some(ChannelEvent::FileCompleted { is_upload: true, .. })));
    assert_eq!(action, PumpAction::Stop);
}

#[test]
fn sending_can_fail() {
    let why = |event| match event {
        Some(ChannelEvent::FileFailed { reason, .. }) => reason,
        other => panic!("unexpected {other:?}"),
    };
    let mut p = OutboundPump::new(4, "a.bin".to_string(), 1);
    assert_eq!(why(p.step(PumpInput::Decision(Some(false))).0), "对端拒绝接收文件");
    let mut p = OutboundPump::new(4, "a.bin".to_string(), 1);
    p.step(PumpInput::Decision(Some(true)));
    assert_eq!(
        why(p.step(PumpInput::Opened(Err("gone".to_string()))).0),
        "读取文件失败: gone"
    );
    let mut p = OutboundPump::new(4, "a.bin".to_string(), 1);
    p.step(PumpInput::Decision(Some(true)));
    p.step(PumpInput::Opened(Ok(())));
    p.step(PumpInput::Read(Ok(1)));
    p.step(PumpInput::Sent(Ok(())));
    assert_eq!(why(p.step(PumpInput::Acked(false)).0), "未收到对端完成确认");
}

#[test]
fn the_manager_knows_its_peers() {
    let mut m = ChannelManager::new("/downloads".to_string(), true);
    assert_eq!(m.out_dir(), "/downloads");
    m.set_out_dir("/other".to_string());
    assert_eq!(m.out_dir(), "/other");
    assert_eq!(
        refusal(m.send_text("dev-a", "x", NOW).unwrap_err()),
        "节点 dev-a 的通道尚未连接"
    );
    let (event, closed) = m.register_session("dev-a".to_string(), "手机A");
    assert!(matches!(event, Effect::Event(ChannelEvent::Connected { .. })));
    assert!(closed.is_empty());
    assert_eq!(m.send_text("dev-a", "x", NOW).unwrap().0, 1);
    assert_eq!(
        refusal(m.send_file("dev-a", "/tmp", false, None, 0).unwrap_err()),
        "不是普通文件: /tmp"
    );
    m.send_file("dev-a", "/tmp/a", true, None, 9).unwrap();
    let list = m.list_statuses();
    assert_eq!(list.len(), 1);
    assert!(list[0].connected);
    assert_eq!(list[0].active_transfers, 0);
    let (_, closed) = m.register_session("dev-a".to_string(), "手机A");
    assert!(!closed.is_empty(), "the older channel is closed");
    assert_eq!(m.get_session("dev-a").unwrap().peer_name(), "手机A");
    assert!(!m.close_session("dev-a").is_empty());
    assert!(m.list_statuses().is_empty());
    assert!(m.cancel_transfer("dev-a", 1).is_err());
}

#[test]
fn a_cancelled_transfer_fails_once() {
    let mut s = session(true);
    let (id, _, _) = s
        .send_file("/tmp/a.txt", true, Some("a.txt".to_string()), 5)
        .unwrap();
    let effects = s.cancel_transfer(id);
    let sent = effects
        .iter()
        .filter(|e| matches!(e, Effect::Send(ChannelMsg::FileCancel { .. })))
        .count();
    let failed: Vec<&str> = effects
        .iter()
        .filter_map(|e| match e {
            Effect::Event(ChannelEvent::FileFailed { reason, .. }) => Some(reason.as_str()),
            _ => None,
        })
        .collect();
    assert_eq!(sent, 1);
    assert_eq!(failed, vec!["传输已取消"]);
    let mut waiting = OutboundPump::new(id, "a.txt".to_string(), 5);
    let (event, action) = waiting.step(PumpInput::Cancelled);
    assert!(event.is_none());
    assert_eq!(action, PumpAction::Stop);
    let mut sent_all = OutboundPump::new(id, "a.txt".to_string(), 5);
    sent_all.step(PumpInput::Decision(Some(true)));
    sent_all.step(PumpInput::Opened(Ok(())));
    sent_all.step(PumpInput::Read(Ok(5)));
    assert_eq!(sent_all.step(PumpInput::Sent(Ok(()))).1, PumpAction::WaitAck);
    let (event, action) = sent_all.step(PumpInput::Cancelled);
    assert!(event.is_none());
    assert_eq!(action, PumpAction::Stop);
}

fn percent_decode(text: &str) -> String {
    let b = text.as_bytes();
    let mut out = Vec::new();
    let mut i = 0;
    while i < b.len() {
        if b[i] == b'%' {
            out.push(u8::from_str_radix(&text[i + 1..i + 3], 16).unwrap());
            i += 3;
        } else {
            out.push(b[i]);
            i += 1;
        }
    }
    String::from_utf8(out).unwrap()
}

#[test]
fn escaped_texts_can_be_read_back() {
    for t in ["", "a-Z_0.~", "a b&c=100%", "手机 A/é", "%41"] {
        let e = percent_encode(t);
        assert_eq!(percent_decode(&e), t);
        assert!(t.len() <= e.len() && e.len() <= 3 * t.len());
        assert_eq!(percent_encode(&format!("{t}?")), format!("{e}%3F"));
    }
}

#[test]
fn the_bytes_of_a_chunk_are_cut_out() {
    let h = header(1, 0, 2, 0);
    let mut payload = chunk(h, &[7, 8]);
    payload.push(9);
    assert_eq!(chunk_data(&h, &payload), vec![7, 8]);
    let empty = header(1, 0, 0, FLAG_EOF);
    assert_eq!(chunk_data(&empty, &chunk(empty, &[])), Vec::<u8>::new());
}

fn sent_and_received(file: &[u8], reads: &[usize]) -> Vec<u8> {
    let mut pump = OutboundPump::new(6, "a.bin".to_string(), file.len() as u64);
    let mut s = session(true);
    s.accept_inbound(6, "a.bin".to_string(), file.len() as u64, "/tmp/y.part".to_string());
    pump.step(PumpInput::Decision(Some(true)));
    pump.step(PumpInput::Opened(Ok(())));
    let mut at = 0;
    let mut got = Vec::new();
    for (i, n) in reads.iter().enumerate() {
        let h = match pump.step(PumpInput::Read(Ok(*n))).1 {
            PumpAction::Send(h) => h,
            other => panic!("unexpected {other:?}"),
        };
        assert_eq!(h.offset, at as u64);
        let payload = chunk_frame(h, &file[at..at + n].to_vec()).payload;
        at += n;
        match s.handle_media_frame(&payload) {
            ChunkStep::Write(back) => assert_eq!(back, h),
            _ => panic!("the bytes are to be written"),
        }
        got.extend(chunk_data(&h, &payload));
        assert_eq!(s.chunk_written(h).1.is_some(), i == reads.len() - 1);
        let last = pump.step(PumpInput::Sent(Ok(()))).1;
        assert_eq!(last == PumpAction::WaitAck, i == reads.len() - 1);
    }
    got
}

#[test]
fn a_file_arrives_whole_however_it_is_read() {
    let file: Vec<u8> = (0..100_000u32).map(|i| (i % 251) as u8).collect();
    assert_eq!(sent_and_received(&file, &[FILE_CHUNK_SIZE, 100_000 - FILE_CHUNK_SIZE]), file);
    assert_eq!(sent_and_received(&file, &[1, 40_000, 7, 50_000, 9_992]), file);
    assert_eq!(sent_and_received(&[], &[0]), Vec::<u8>::new());
}
