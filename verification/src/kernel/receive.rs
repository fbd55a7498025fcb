//! Receiving streams, each over a link of its own.

use vstd::prelude::*;

use crate::kernel::auth::AuthPolicy;
use crate::kernel::data_plane::DataPlaneBackend;
use crate::kernel::{Kernel, KernelModel, LinkMetaModel, ReceiveLinkMeta};
use crate::order::{
    lemma_all_listed, lemma_same_images, lemma_same_members, lemma_text_le_total, lemma_text_le_transitive, sort,
    text_le, text_leq, Ranked,
};
use crate::receiver::{LocalProxy, ReceiveStats, StatsModel};
use crate::text::{dec, decimal, is_empty_text, join2};

verus! {

/// The link of a program that receives one stream at a time.
pub const MAIN_RECEIVE_LINK: &'static str = "main";

/// A link as it is shown.
#[derive(Debug)]
pub struct ReceiveLinkView {
    pub link_id: String,
    pub stats: ReceiveStats,
}

impl Ranked for ReceiveLinkView {
    open spec fn le(&self, other: &Self) -> bool {
        text_le(self.link_id@, other.link_id@)
    }

    proof fn total(a: &Self, b: &Self) {
        lemma_text_le_total(a.link_id@, b.link_id@);
    }

    proof fn transitive(a: &Self, b: &Self, c: &Self) {
        lemma_text_le_transitive(a.link_id@, b.link_id@, c.link_id@);
    }

    fn leq(&self, other: &Self) -> (r: bool) {
        text_leq(self.link_id.as_str(), other.link_id.as_str())
    }
}

/// The kernel after a link ended.
pub open spec fn link_stopped<P: AuthPolicy, D: DataPlaneBackend>(
    k: KernelModel<P, D>,
    link_id: Seq<char>,
) -> KernelModel<P, D> {
    KernelModel {
        receivers: k.receivers.remove(link_id),
        links: k.links.remove(link_id),
        ..k
    }
}

/// The kernel after a link started to receive a stream; a link of the same name is replaced.
pub open spec fn link_started<P: AuthPolicy, D: DataPlaneBackend>(
    k: KernelModel<P, D>,
    link_id: Seq<char>,
    stream_id: Seq<char>,
) -> KernelModel<P, D> {
    KernelModel {
        receivers: k.receivers.insert(link_id, StatsModel::zero()),
        links: k.links.insert(
            link_id,
            LinkMetaModel { node_id: ""@, endpoint_id: None, stream_id: Some(stream_id) },
        ),
        ..k
    }
}

impl<P: AuthPolicy, D: DataPlaneBackend> Kernel<P, D> {
    /// Ends a link; others go on. The result says whether something was being received over it,
    /// which is then to be stopped.
    pub fn stop_receive_link(&mut self, link_id: &str) -> (r: bool)
        requires
            old(self).wf(),
        ensures
            final(self).wf(),
            r == old(self)@.receivers.dom().contains(link_id@),
            final(self)@ == link_stopped(old(self)@, link_id@),
    {
        let key: String = link_id.to_owned();
        let had: bool = self.receivers.remove(&key).is_some();
        let _ = self.receive_link_meta.remove(&key);
        assert(self@.receivers =~= old(self)@.receivers.remove(link_id@));
        assert(self@.links =~= old(self)@.links.remove(link_id@));
        assert(self@ =~= link_stopped(old(self)@, link_id@));
        had
    }

    /// Ends the link of a program that receives one stream at a time; others go on.
    pub fn stop_receive(&mut self) -> (r: bool)
        requires
            old(self).wf(),
        ensures
            final(self).wf(),
            r == old(self)@.receivers.dom().contains(MAIN_RECEIVE_LINK@),
            final(self)@ == link_stopped(old(self)@, MAIN_RECEIVE_LINK@),
    {
        self.stop_receive_link(MAIN_RECEIVE_LINK)
    }

    /// Notes that a link receives a stream.
    pub fn note_receive_link(&mut self, link_id: &str, stream_id: &str)
        requires
            old(self).wf(),
        ensures
            final(self).wf(),
            final(self)@ == link_started(old(self)@, link_id@, stream_id@),
    {
        let stats = ReceiveStats::default();
        let meta = ReceiveLinkMeta {
            node_id: "".to_owned(),
            endpoint_id: None,
            stream_id: Some(stream_id.to_owned()),
        };
        let ghost mm = meta@;
        let ghost sm = stats@;
        let _ = self.receivers.insert(link_id.to_owned(), stats);
        let _ = self.receive_link_meta.insert(link_id.to_owned(), meta);
        assert(self@.receivers =~= old(self)@.receivers.insert(link_id@, sm));
        assert(self@.links =~= old(self)@.links.insert(link_id@, mm));
        assert(self@ =~= link_started(old(self)@, link_id@, stream_id@));
    }

    /// Takes in what was counted on a link; nothing happens when the link is gone.
    pub fn update_receive_stats(&mut self, link_id: &str, stats: ReceiveStats)
        requires
            old(self).wf(),
        ensures
            final(self).wf(),
            final(self)@ == (if old(self)@.receivers.dom().contains(link_id@) {
                KernelModel {
                    receivers: old(self)@.receivers.insert(link_id@, stats@),
                    ..old(self)@
                }
            } else {
                old(self)@
            }),
    {
        let key: String = link_id.to_owned();
        if self.receivers.contains(&key) {
            let ghost sm = stats@;
            let _ = self.receivers.insert(key, stats);
            assert(self@.receivers =~= old(self)@.receivers.insert(link_id@, sm));
            assert(self@ =~= KernelModel { receivers: self@.receivers, ..old(self)@ });
        }
    }

    /// What was counted on a link; zero when there is no such link.
    pub fn receive_status_of(&self, link_id: &str) -> (r: ReceiveStats)
        requires
            self.wf(),
        ensures
            r@ == (if self@.receivers.dom().contains(link_id@) {
                self@.receivers[link_id@]
            } else {
                StatsModel::zero()
            }),
    {
        match self.receivers.get(&link_id.to_owned()) {
            Some(s) => s.clone(),
            None => ReceiveStats::default(),
        }
    }

    /// What was counted on the link of a program that receives one stream at a time.
    pub fn receive_status(&self) -> (r: ReceiveStats)
        requires
            self.wf(),
        ensures
            r@ == (if self@.receivers.dom().contains(MAIN_RECEIVE_LINK@) {
                self@.receivers[MAIN_RECEIVE_LINK@]
            } else {
                StatsModel::zero()
            }),
    {
        self.receive_status_of(MAIN_RECEIVE_LINK)
    }

    /// Whether one more decoded picture can be counted on a link.
    pub fn can_count_decoded(&self, link_id: &str) -> (r: bool)
        requires
            self.wf(),
        ensures
            r == decoded_left(self@, decode_link(link_id@)),
    {
        let id: &str = if is_empty_text(link_id) {
            MAIN_RECEIVE_LINK
        } else {
            link_id
        };
        self.receive_status_of(id).decoded_video < u64::MAX
    }

    /// Counts a picture that was decoded outside the kernel on a link; an empty name stands for the
    /// link of a program that receives one stream at a time.
    pub fn note_android_decoded_frame_on(&mut self, link_id: &str)
        requires
            old(self).wf(),
            decoded_left(old(self)@, decode_link(link_id@)),
        ensures
            final(self).wf(),
            ({
                let id = decode_link(link_id@);
                final(self)@ == (if old(self)@.receivers.dom().contains(id) {
                    KernelModel {
                        receivers: old(self)@.receivers.insert(
                            id,
                            one_more_decoded(old(self)@.receivers[id]),
                        ),
                        ..old(self)@
                    }
                } else {
                    old(self)@
                })
            }),
    {
        let id: &str = if is_empty_text(link_id) {
            MAIN_RECEIVE_LINK
        } else {
            link_id
        };
        let mut stats = self.receive_status_of(id);
        stats.decoded_video = stats.decoded_video + 1;
        stats.running = true;
        self.update_receive_stats(id, stats);
    }

    /// Counts a picture that was decoded outside the kernel, for a program that receives one stream
    /// at a time.
    pub fn note_android_decoded_frame(&mut self)
        requires
            old(self).wf(),
            decoded_left(old(self)@, MAIN_RECEIVE_LINK@),
        ensures
            final(self).wf(),
            final(self)@ == (if old(self)@.receivers.dom().contains(MAIN_RECEIVE_LINK@) {
                KernelModel {
                    receivers: old(self)@.receivers.insert(
                        MAIN_RECEIVE_LINK@,
                        one_more_decoded(old(self)@.receivers[MAIN_RECEIVE_LINK@]),
                    ),
                    ..old(self)@
                }
            } else {
                old(self)@
            }),
    {
        proof {
            reveal_strlit("main");
        }
        self.note_android_decoded_frame_on(MAIN_RECEIVE_LINK);
    }

    /// All links with what was counted on them, in the order of their names.
    pub fn receive_links(&self) -> (r: Vec<ReceiveLinkView>)
        requires
            self.wf(),
        ensures
            r@.len() == self@.receivers.dom().len(),
            forall|i: int|
                0 <= i < r@.len() ==> {
                    &&& self@.receivers.dom().contains((#[trigger] r@[i]).link_id@)
                    &&& r@[i].stats@ == self@.receivers[r@[i].link_id@]
                },
            forall|i: int, j: int|
                #![trigger r@[i], r@[j]]
                0 <= i < j < r@.len() ==> text_le(r@[i].link_id@, r@[j].link_id@) && r@[i].link_id@
                    != r@[j].link_id@,
    {
        let mut v: Vec<ReceiveLinkView> = Vec::new();
        let n: usize = self.receivers.len();
        let ghost keys = self.receivers.keys();
        let mut i: usize = 0;
        proof {
            self.receivers.lemma_keys();
            assert(self@.receivers.dom() =~= self.receivers@.dom());
        }
        while i < n
            invariant
                self.wf(),
                n == keys.len(),
                keys == self.receivers.keys(),
                keys.no_duplicates(),
                i <= n,
                v@.len() == i,
                forall|j: int|
                    0 <= j < i ==> {
                        &&& (#[trigger] v@[j]).link_id@ == keys[j]
                        &&& self@.receivers.dom().contains(keys[j])
                        &&& v@[j].stats@ == self@.receivers[keys[j]]
                    },
            decreases n - i,
        {
            let k: String = self.receivers.key_at(i).clone();
            let s: ReceiveStats = self.receivers.value_at(i).clone();
            v.push(ReceiveLinkView { link_id: k, stats: s });
            i += 1;
        }
        let ghost unsorted = v@;
        let r = sort(v);
        proof {
            let f = |x: ReceiveLinkView| x.link_id@;
            assert(unsorted.map_values(f) =~= keys);
            lemma_same_images(unsorted, r@, f);
            lemma_same_members(unsorted, r@);
            assert forall|i: int| 0 <= i < r@.len() implies {
                &&& self@.receivers.dom().contains((#[trigger] r@[i]).link_id@)
                &&& r@[i].stats@ == self@.receivers[r@[i].link_id@]
            } by {
                assert(r@.contains(r@[i]));
                let j = choose|j: int| 0 <= j < unsorted.len() && unsorted[j] == r@[i];
                assert(unsorted[j].link_id@ == keys[j]);
            }
            assert forall|i: int, j: int|
                #![trigger r@[i], r@[j]]
                0 <= i < j < r@.len() implies text_le(r@[i].link_id@, r@[j].link_id@)
                && r@[i].link_id@ != r@[j].link_id@ by {
                assert(r@[i].le(&r@[j]));
                assert(r@.map_values(f)[i] != r@.map_values(f)[j]);
            }
        }
        r
    }

    /// The resident relay as a stand-in when a stream cannot be watched directly.
    pub fn local_proxy(&self) -> (r: Option<LocalProxy>)
        ensures
            match self@.anchor {
                Some(a) => r matches Some(p) && p.ws_base@ == loopback_base(a.port),
                None => r is None,
            },
    {
        match &self.anchor {
            Some(a) => Some(
                LocalProxy {
                    ws_base: join2("ws://127.0.0.1:", decimal(a.port as u64).as_str()),
                },
            ),
            None => None,
        }
    }
}

/// The address of a relay of this node.
pub open spec fn loopback_base(port: u16) -> Seq<char> {
    "ws://127.0.0.1:"@ + dec(port as nat)
}

/// The link that a report of a decoded picture means.
pub open spec fn decode_link(link_id: Seq<char>) -> Seq<char> {
    if link_id.len() == 0 {
        MAIN_RECEIVE_LINK@
    } else {
        link_id
    }
}

/// What is counted after one more picture was decoded.
pub open spec fn one_more_decoded(s: StatsModel) -> StatsModel {
    StatsModel { decoded_video: (s.decoded_video + 1) as u64, running: true, ..s }
}

/// Whether one more decoded picture can be counted on a link.
pub open spec fn decoded_left<P: AuthPolicy, D: DataPlaneBackend>(
    k: KernelModel<P, D>,
    link_id: Seq<char>,
) -> bool {
    k.receivers.dom().contains(link_id) ==> k.receivers[link_id].decoded_video < u64::MAX
}

/// Starting or ending one link leaves every other link as it is.
pub proof fn law_links_are_independent<P: AuthPolicy, D: DataPlaneBackend>(
    k: KernelModel<P, D>,
    link_id: Seq<char>,
    stream_id: Seq<char>,
    other: Seq<char>,
)
    requires
        other != link_id,
    ensures
        link_stopped(k, link_id).receivers.dom().contains(other) <==> k.receivers.dom().contains(
            other,
        ),
        k.receivers.dom().contains(other) ==> link_stopped(k, link_id).receivers[other]
            == k.receivers[other],
        link_started(k, link_id, stream_id).receivers.dom().contains(other)
            <==> k.receivers.dom().contains(other),
        k.receivers.dom().contains(other) ==> link_started(k, link_id, stream_id).receivers[other]
            == k.receivers[other],
{
}

/// A link that is started anew has counted nothing yet, whatever it received before.
pub proof fn law_restarted_link_counts_anew<P: AuthPolicy, D: DataPlaneBackend>(
    k: KernelModel<P, D>,
    link_id: Seq<char>,
    stream_id: Seq<char>,
)
    ensures
        link_started(link_stopped(k, link_id), link_id, stream_id) == link_started(
            k,
            link_id,
            stream_id,
        ),
        link_started(k, link_id, stream_id).receivers[link_id] == StatsModel::zero(),
        !link_stopped(k, link_id).receivers.dom().contains(link_id),
{
    assert(link_started(link_stopped(k, link_id), link_id, stream_id) =~= link_started(
        k,
        link_id,
        stream_id,
    ));
}

/// A link that starts has counted nothing; what is counted on it afterwards is told when it is asked
/// for, and what is counted on a link that is not there is told nobody.
pub proof fn law_link_tells_what_was_counted<P: AuthPolicy, D: DataPlaneBackend>(
    app: &mut Kernel<P, D>,
    link_id: &str,
    stream_id: &str,
    fresh: ReceiveStats,
    again: &mut Kernel<P, D>,
    stats: ReceiveStats,
    told: ReceiveStats,
    ended: &mut Kernel<P, D>,
    had: bool,
    late: &mut Kernel<P, D>,
    lost: ReceiveStats,
)
    requires
        call_ensures(Kernel::<P, D>::note_receive_link, (app, link_id, stream_id), ()),
        call_ensures(Kernel::<P, D>::receive_status_of, (&*final(app), link_id), fresh),
        *old(again) == *final(app),
        call_ensures(Kernel::<P, D>::update_receive_stats, (again, link_id, stats), ()),
        call_ensures(Kernel::<P, D>::receive_status_of, (&*final(again), link_id), told),
        *old(ended) == *final(again),
        call_ensures(Kernel::<P, D>::stop_receive_link, (ended, link_id), had),
        *old(late) == *final(ended),
        call_ensures(Kernel::<P, D>::update_receive_stats, (late, link_id, stats), ()),
        call_ensures(Kernel::<P, D>::receive_status_of, (&*final(late), link_id), lost),
    ensures
        fresh@ == StatsModel::zero(),
        told@ == stats@,
        had,
        lost@ == StatsModel::zero(),
        final(late)@ == final(ended)@,
{
}

/// A picture that was decoded is counted on its link, or, when none is named, on the link of a
/// program that receives one stream at a time; nothing else changes.
pub proof fn law_decoded_picture_is_counted<P: AuthPolicy, D: DataPlaneBackend>(
    app: &mut Kernel<P, D>,
    link_id: &str,
    main: &str,
    before: ReceiveStats,
    after: ReceiveStats,
)
    requires
        main@ == "main"@,
        call_ensures(Kernel::<P, D>::note_android_decoded_frame_on, (app, link_id), ()),
        call_ensures(
            Kernel::<P, D>::receive_status_of,
            (
                &*old(app),
                if link_id@.len() == 0 {
                    main
                } else {
                    link_id
                },
            ),
            before,
        ),
        call_ensures(
            Kernel::<P, D>::receive_status_of,
            (
                &*final(app),
                if link_id@.len() == 0 {
                    main
                } else {
                    link_id
                },
            ),
            after,
        ),
        before.decoded_video < u64::MAX,
    ensures
        ({
            let id = if link_id@.len() == 0 {
                "main"@
            } else {
                link_id@
            };
            &&& old(app)@.receivers.dom().contains(id) ==> after.decoded_video
                == before.decoded_video + 1 && after.running && after.received == before.received
                && after.audio_blocks == before.audio_blocks && after.dropped == before.dropped
            &&& !old(app)@.receivers.dom().contains(id) ==> final(app)@ == old(app)@
        }),
        final(app)@.links == old(app)@.links,
{
}

/// Every link is listed with what was counted on it.
pub proof fn law_links_are_listed<P: AuthPolicy, D: DataPlaneBackend>(
    app: &Kernel<P, D>,
    r: Vec<ReceiveLinkView>,
    link_id: &str,
    stats: ReceiveStats,
) -> (i: int)
    requires
        app.wf(),
        call_ensures(Kernel::<P, D>::receive_links, (app,), r),
        app@.receivers.dom().contains(link_id@),
        call_ensures(Kernel::<P, D>::receive_status_of, (app, link_id), stats),
    ensures
        0 <= i < r@.len(),
        r@[i].link_id@ == link_id@,
        r@[i].stats@ == stats@,
{
    app.receivers.lemma_keys();
    assert(app@.receivers.dom() =~= app.receivers@.dom());
    let ids = r@.map_values(|x: ReceiveLinkView| x.link_id@);
    assert(ids.no_duplicates()) by {
        assert forall|a: int, b: int|
            0 <= a < ids.len() && 0 <= b < ids.len() && a != b implies ids[a] != ids[b] by {
            if a < b {
                assert(r@[a].link_id@ != r@[b].link_id@);
            } else {
                assert(r@[b].link_id@ != r@[a].link_id@);
            }
        }
    }
    assert forall|j: int| 0 <= j < ids.len() implies app@.receivers.dom().contains(
        #[trigger] ids[j],
    ) by {
        assert(app@.receivers.dom().contains(r@[j].link_id@));
    }
    let i = lemma_all_listed(ids, app@.receivers.dom(), link_id@);
    assert(r@[i].link_id@ == link_id@);
    i
}

/// The relay of this node stands in for others exactly when it runs, at the port at which it listens.
pub proof fn law_own_relay_stands_in<P: AuthPolicy, D: DataPlaneBackend>(
    app: &Kernel<P, D>,
    r: Option<LocalProxy>,
)
    requires
        call_ensures(Kernel::<P, D>::local_proxy, (app,), r),
    ensures
        r is Some <==> app.anchor is Some,
        r matches Some(p) ==> p.ws_base@ == "ws://127.0.0.1:"@ + dec(app.anchor->0.port as nat),
{
}

/// A program that receives one stream at a time sees its link as every other: what was counted on it
/// is what its status shows, a picture that was decoded is counted there, and once it is stopped
/// nothing is left.
pub proof fn law_single_link_is_a_link<P: AuthPolicy, D: DataPlaneBackend>(
    app: &mut Kernel<P, D>,
    main: &str,
    before: ReceiveStats,
    same: ReceiveStats,
    after: ReceiveStats,
    ended: &mut Kernel<P, D>,
    had: bool,
    left: ReceiveStats,
)
    requires
        main@ == "main"@,
        call_ensures(Kernel::<P, D>::receive_status, (&*old(app),), before),
        call_ensures(Kernel::<P, D>::receive_status_of, (&*old(app), main), same),
        before.decoded_video < u64::MAX,
        call_ensures(Kernel::<P, D>::note_android_decoded_frame, (app,), ()),
        call_ensures(Kernel::<P, D>::receive_status, (&*final(app),), after),
        *old(ended) == *final(app),
        call_ensures(Kernel::<P, D>::stop_receive, (ended,), had),
        call_ensures(Kernel::<P, D>::receive_status, (&*final(ended),), left),
    ensures
        before@ == same@,
        had ==> after.decoded_video == before.decoded_video + 1 && after.received == before.received
            && after.audio_blocks == before.audio_blocks && after.dropped == before.dropped,
        !had ==> after@ == before@,
        left@ == StatsModel::zero(),
{
}

} // verus!
