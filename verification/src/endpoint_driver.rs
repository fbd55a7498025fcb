//! What a node does when somebody subscribes to one of its endpoints.

use vstd::prelude::*;

use crate::channel::message::opt_view;
use crate::kernel::auth::AuthPolicy;
use crate::kernel::data_plane::DataPlaneBackend;
use crate::kernel::endpoint::manifest::{clone_opt, EndpointManifest};
use crate::kernel::endpoint::file_source::FileSource;
use crate::kernel::streams::{Quality, StreamConfig, VideoSource};
use crate::kernel::{AnchorModel, Kernel, KernelModel};
use crate::message::{CtxModel, Delivery, EndpointId, MediaKind, SubscribeCtx};
use crate::negotiator::dto::ShareGrant;
use crate::negotiator::grant::{notify_subscribed, ShareStart};
use crate::text::{dec, decimal, join2};

verus! {

/// How a file is pushed.
#[derive(Debug)]
pub struct FilePushOptions {
    pub push_url: String,
    pub stream_id: String,
    pub title: String,
    pub share_token: Option<String>,
    /// Where the number of watchers is asked for.
    pub watcher_base: Option<String>,
}

/// What is to be done for a subscription.
#[derive(Debug)]
pub enum DriverAction {
    /// There is no such endpoint.
    Nothing,
    /// Endpoints of this kind are not pushed on subscription.
    Unsupported,
    /// The endpoint has no file.
    NoSource,
    /// There is no address to push to.
    NoAddress,
    PushFile { path: String, options: FilePushOptions },
    PushMedia { config: StreamConfig, relay_url: Option<String> },
}

/// The relay over which a subscription is served: that of the subscriber when data is pushed to it,
/// else that of this node.
pub open spec fn served_by(anchor: Option<AnchorModel>, ctx: CtxModel) -> Option<Seq<char>> {
    match ctx.delivery {
        Delivery::Push => ctx.relay_addr,
        Delivery::Pull | Delivery::Both => match anchor {
            Some(a) => Some("ws://127.0.0.1:"@ + dec(a.port as nat)),
            None => None,
        },
    }
}

/// The address to which a subscription is pushed.
pub open spec fn pushed_to(anchor: Option<AnchorModel>, ctx: CtxModel) -> Option<Seq<char>> {
    match served_by(anchor, ctx) {
        Some(base) => Some(base + "/ws/push"@),
        None => None,
    }
}

/// The token with which a subscription is pushed: one is needed on a relay of somebody else only.
pub open spec fn token_used(ctx: CtxModel) -> Option<Seq<char>> {
    if ctx.delivery == Delivery::Push {
        ctx.share_token
    } else {
        None
    }
}

fn pushed_token(ctx: &SubscribeCtx) -> (r: Option<String>)
    ensures
        opt_view(r) == token_used(ctx@),
{
    if ctx.delivery == Delivery::Push {
        clone_opt(&ctx.share_token)
    } else {
        None
    }
}

/// The relay at which the watchers of a subscription are counted.
pub fn resolve_watcher_base<P: AuthPolicy, D: DataPlaneBackend>(
    app: &Kernel<P, D>,
    ctx: &SubscribeCtx,
) -> (r: Option<String>)
    ensures
        opt_view(r) == served_by(app@.anchor, ctx@),
{
    match ctx.delivery {
        Delivery::Push => clone_opt(&ctx.relay_addr),
        Delivery::Pull | Delivery::Both => match app.relay_port() {
            Some(p) => Some(join2("ws://127.0.0.1:", decimal(p as u64).as_str())),
            None => None,
        },
    }
}

/// The address to which a subscription is pushed.
pub fn resolve_push_url<P: AuthPolicy, D: DataPlaneBackend>(
    app: &Kernel<P, D>,
    ctx: &SubscribeCtx,
) -> (r: Option<String>)
    ensures
        opt_view(r) == pushed_to(app@.anchor, ctx@),
{
    match resolve_watcher_base(app, ctx) {
        Some(base) => Some(join2(base.as_str(), "/ws/push")),
        None => None,
    }
}

/// Whether a configuration captures what a kind of endpoint shares: the screen as pictures, the
/// microphone as sound; in medium quality and without end.
pub open spec fn captures(
    cfg: StreamConfig,
    kind: MediaKind,
    title: Seq<char>,
    stream_id: Seq<char>,
    share_token: Option<Seq<char>>,
) -> bool {
    &&& cfg.stream_id@ == stream_id
    &&& cfg.title@ == title
    &&& cfg.video == (if kind == MediaKind::Screen {
        Some(VideoSource::Screen)
    } else {
        None
    })
    &&& cfg.audio == (kind == MediaKind::Mic)
    &&& cfg.quality == Quality::Medium
    &&& cfg.duration_secs is None
    &&& opt_view(cfg.share_token) == share_token
}

/// The configuration of a push of an endpoint.
pub fn media_config(
    title: String,
    kind: MediaKind,
    stream_id: String,
    share_token: Option<String>,
) -> (r: StreamConfig)
    ensures
        captures(r, kind, title@, stream_id@, opt_view(share_token)),
{
    let (video, audio) = match kind {
        MediaKind::Screen => (Some(VideoSource::Screen), false),
        MediaKind::Mic => (None, true),
        _ => (None, false),
    };
    StreamConfig {
        stream_id,
        title,
        video,
        quality: Quality::Medium,
        audio,
        duration_secs: None,
        share_token,
    }
}

/// What is to be done for a subscription: the file of a file endpoint is pushed, a screen or a
/// microphone is captured and pushed, other endpoints are left alone.
pub open spec fn driven<P: AuthPolicy, D: DataPlaneBackend>(
    k: KernelModel<P, D>,
    id: EndpointId,
    ctx: CtxModel,
    r: DriverAction,
) -> bool {
    let key = k.registry.own(id);
    if !k.registry.mounts.dom().contains(key) {
        r is Nothing
    } else if id.kind == MediaKind::File {
        if !k.registry.files.dom().contains(key) {
            r is NoSource
        } else {
            let file = k.registry.files[key];
            match pushed_to(k.anchor, ctx) {
                None => r is NoAddress,
                Some(url) => r matches DriverAction::PushFile { path, options } && {
                    &&& path@ == file.path
                    &&& options.push_url@ == url
                    &&& options.stream_id@ == ctx.stream_id
                    &&& options.title@ == "文件 "@ + file.name
                    &&& opt_view(options.share_token) == token_used(ctx)
                    &&& opt_view(options.watcher_base) == served_by(k.anchor, ctx)
                },
            }
        }
    } else if id.kind == MediaKind::Screen || id.kind == MediaKind::Mic {
        r matches DriverAction::PushMedia { config, relay_url } && {
            &&& captures(
                config,
                id.kind,
                k.registry.mounts[key].name,
                ctx.stream_id,
                token_used(ctx),
            )
            &&& opt_view(relay_url) == (if ctx.delivery == Delivery::Push {
                pushed_to(k.anchor, ctx)
            } else {
                None
            })
        }
    } else {
        r is Unsupported
    }
}

/// Decides what is to be done for a subscription to an endpoint of this node.
pub fn drive<P: AuthPolicy, D: DataPlaneBackend>(
    app: &Kernel<P, D>,
    endpoint_id: EndpointId,
    ctx: &SubscribeCtx,
) -> (r: DriverAction)
    requires
        app.wf(),
    ensures
        driven(app@, endpoint_id, ctx@, r),
{
    let manifest = match app.endpoint_manifest(endpoint_id) {
        Some(m) => m,
        None => {
            return DriverAction::Nothing;
        },
    };
    match endpoint_id.kind {
        MediaKind::File => {
            let src = match app.file_source(endpoint_id) {
                Some(s) => s,
                None => {
                    return DriverAction::NoSource;
                },
            };
            let push_url: String = match resolve_push_url(app, ctx) {
                Some(u) => u,
                None => {
                    return DriverAction::NoAddress;
                },
            };
            DriverAction::PushFile {
                options: FilePushOptions {
                    push_url,
                    stream_id: ctx.stream_id.clone(),
                    title: join2("文件 ", src.name.as_str()),
                    share_token: pushed_token(ctx),
                    watcher_base: resolve_watcher_base(app, ctx),
                },
                path: src.path,
            }
        },
        MediaKind::Screen | MediaKind::Mic => {
            let config = media_config(
                manifest.name,
                endpoint_id.kind,
                ctx.stream_id.clone(),
                pushed_token(ctx),
            );
            let relay_url: Option<String> = match ctx.delivery {
                Delivery::Push => resolve_push_url(app, ctx),
                Delivery::Pull | Delivery::Both => None,
            };
            DriverAction::PushMedia { config, relay_url }
        },
        _ => DriverAction::Unsupported,
    }
}

/// Without a push to the subscriber, nothing leaves this node: a file goes to the relay of this node,
/// and no token of the subscriber is used.
pub proof fn law_fetched_data_stays_here<P: AuthPolicy, D: DataPlaneBackend>(
    k: KernelModel<P, D>,
    id: EndpointId,
    ctx: CtxModel,
    r: DriverAction,
)
    requires
        ctx.delivery != Delivery::Push,
        driven(k, id, ctx, r),
    ensures
        r matches DriverAction::PushFile { path, options } ==> k.anchor is Some
            && options.push_url@ == "ws://127.0.0.1:"@ + dec(k.anchor->0.port as nat) + "/ws/push"@
            && options.share_token is None,
        r matches DriverAction::PushMedia { config, relay_url } ==> relay_url is None
            && config.share_token is None,
{
}

/// What is pushed for a subscription goes out under the granted stream: when a grant makes an
/// endpoint start sharing, what the driver pushes for it bears the stream id of the grant, whether
/// it is a file or a capture.
pub proof fn law_push_bears_the_granted_stream<P: AuthPolicy, D: DataPlaneBackend>(
    app: &mut Kernel<P, D>,
    endpoint_id: EndpointId,
    g: &ShareGrant,
    subscriber: &str,
    now: u64,
    started: ShareStart,
    later: &Kernel<P, D>,
    r: DriverAction,
)
    requires
        call_ensures(
            notify_subscribed::<P, D>,
            (app, Some(endpoint_id), g, subscriber, now),
            Some(started),
        ),
        call_ensures(drive::<P, D>, (later, endpoint_id, &started.ctx), r),
    ensures
        r matches DriverAction::PushFile { path, options } ==> options.stream_id@
            == g.view.stream_id@,
        r matches DriverAction::PushMedia { config, relay_url } ==> config.stream_id@
            == g.view.stream_id@,
{
}

/// A screen is captured as pictures without sound, a microphone as sound without pictures: each goes
/// out under the name of the endpoint and the stream of the subscription, in medium quality and
/// until it is stopped.
pub proof fn law_capture_follows_the_endpoint<P: AuthPolicy, D: DataPlaneBackend>(
    app: &Kernel<P, D>,
    endpoint_id: EndpointId,
    ctx: &SubscribeCtx,
    m: EndpointManifest,
    r: DriverAction,
)
    requires
        call_ensures(drive::<P, D>, (app, endpoint_id, ctx), r),
        call_ensures(Kernel::<P, D>::endpoint_manifest, (app, endpoint_id), Some(m)),
        endpoint_id.kind is Screen || endpoint_id.kind is Mic,
    ensures
        r matches DriverAction::PushMedia { config, relay_url } && ({
            &&& config.stream_id@ == ctx.stream_id@
            &&& config.title@ == m.name@
            &&& endpoint_id.kind is Screen ==> config.video == Some(VideoSource::Screen)
                && !config.audio
            &&& endpoint_id.kind is Mic ==> config.video is None && config.audio
            &&& config.quality is Medium
            &&& config.duration_secs is None
        }),
{
}

/// A subscriber that has data pushed to it gets it at its own relay, with its own token.
pub proof fn law_pushed_data_goes_to_the_subscriber<P: AuthPolicy, D: DataPlaneBackend>(
    app: &Kernel<P, D>,
    endpoint_id: EndpointId,
    ctx: &SubscribeCtx,
    base: String,
    r: DriverAction,
)
    requires
        call_ensures(drive::<P, D>, (app, endpoint_id, ctx), r),
        ctx.delivery is Push,
        ctx.relay_addr == Some(base),
    ensures
        r matches DriverAction::PushFile { path, options } ==> options.push_url@ == base@
            + "/ws/push"@ && (options.watcher_base matches Some(w) && w@ == base@) && opt_view(
            options.share_token,
        ) == opt_view(ctx.share_token),
        r matches DriverAction::PushMedia { config, relay_url } ==> (relay_url matches Some(u)
            && u@ == base@ + "/ws/push"@) && opt_view(config.share_token) == opt_view(
            ctx.share_token,
        ),
{
}

/// A file is pushed to the relay of this node from where it lies, under its own name, and its
/// watchers are counted there; without a relay nothing is pushed, nor without a file.
pub proof fn law_file_goes_to_the_own_relay<P: AuthPolicy, D: DataPlaneBackend>(
    app: &Kernel<P, D>,
    endpoint_id: EndpointId,
    ctx: &SubscribeCtx,
    m: EndpointManifest,
    src: Option<FileSource>,
    r: DriverAction,
)
    requires
        call_ensures(drive::<P, D>, (app, endpoint_id, ctx), r),
        call_ensures(Kernel::<P, D>::endpoint_manifest, (app, endpoint_id), Some(m)),
        call_ensures(Kernel::<P, D>::file_source, (app, endpoint_id), src),
        endpoint_id.kind is File,
        !(ctx.delivery is Push),
    ensures
        src is None ==> r is NoSource,
        src is Some && app.anchor is None ==> r is NoAddress,
        src is Some && app.anchor is Some ==> (r matches DriverAction::PushFile { path, options }
            && ({
            &&& path@ == src->0.path@
            &&& options.title@ == "文件 "@ + src->0.name@
            &&& options.stream_id@ == ctx.stream_id@
            &&& options.push_url@ == "ws://127.0.0.1:"@ + dec(app.anchor->0.port as nat)
                + "/ws/push"@
            &&& options.share_token is None
            &&& options.watcher_base matches Some(w) && w@ == "ws://127.0.0.1:"@ + dec(
                app.anchor->0.port as nat,
            )
        })),
{
}

/// Nothing is done for an endpoint that this node does not have, and endpoints of other kinds than
/// files, screens and microphones are not pushed.
pub proof fn law_other_endpoints_are_left_alone<P: AuthPolicy, D: DataPlaneBackend>(
    app: &Kernel<P, D>,
    endpoint_id: EndpointId,
    ctx: &SubscribeCtx,
    m: Option<EndpointManifest>,
    r: DriverAction,
)
    requires
        call_ensures(drive::<P, D>, (app, endpoint_id, ctx), r),
        call_ensures(Kernel::<P, D>::endpoint_manifest, (app, endpoint_id), m),
    ensures
        m is None <==> r is Nothing,
        m is Some && !(endpoint_id.kind is File) && !(endpoint_id.kind is Screen) && !(
        endpoint_id.kind is Mic) ==> r is Unsupported,
{
}

} // verus!
