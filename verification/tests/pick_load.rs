use stross_kernel::frame::{Frame, CODEC_H264, TRACK_VIDEO};
use stross_kernel::message::{EndpointStrategy, PickRule, SerializeRule};
use stross_kernel::pick::load::{loader_for, Loader, PassthroughLoader};

#[test]
fn passthrough_loader_keeps_frame() {
    let f = Frame::new(TRACK_VIDEO, CODEC_H264, 0, 42, vec![1, 2, 3]);
    let header = f.header;
    let payload = f.payload.clone();
    let loader = PassthroughLoader::new(SerializeRule::Passthrough, PickRule::Realtime);
    assert_eq!(loader.rule(), PickRule::Realtime);
    assert_eq!(loader.serialize_rule(), SerializeRule::Passthrough);
    let out = loader.load(f);
    assert_eq!(out.header, header);
    assert_eq!(out.payload, payload);
}

#[test]
fn loader_for_strategy_dispatch() {
    let passthrough = EndpointStrategy::passthrough(PickRule::Realtime);
    let loader = loader_for(&passthrough).expect("plain frames can be loaded");
    assert_eq!(loader.serialize_rule(), SerializeRule::Passthrough);

    let chunked = EndpointStrategy {
        strategy_id: "chunked".to_string(),
        serialize: SerializeRule::Chunked,
        pick: PickRule::StrictOrdered,
    };
    assert!(loader_for(&chunked).is_none(), "no loader cuts frames up");
}
