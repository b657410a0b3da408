//! Bookkeeping of the robot's camera streams.
//!
//! The robot streams every detected camera to the connected surface station,
//! each on a UDP port of its own. This module decides which streams to stop and
//! start when cameras come and go or the peer changes; the processes that do the
//! streaming are run by the caller, who reports each stream that did start.

use vstd::prelude::*;
use crate::names::{names, contains_name};

verus! {

/// The first UDP port handed out to a stream.
pub const FIRST_PORT: u16 = 1024;

/// The bookkeeping, as a mathematical value.
pub struct CameraSyncModel {
    /// Cameras found by the last detection, without repetition.
    pub known: Seq<Seq<char>>,
    /// Running streams: camera and port.
    pub streams: Seq<(Seq<char>, u16)>,
    /// Whether a surface station is connected.
    pub has_peer: bool,
    /// The port the next stream gets.
    pub next_port: u16,
    /// Whether the robot has shut the streaming down for good.
    pub stopped: bool,
}

/// The bookkeeping of the robot's camera streams.
pub struct CameraSync {
    known: Vec<String>,
    streams: Vec<(String, u16)>,
    has_peer: bool,
    next_port: u16,
    stopped: bool,
}

/// The mathematical form of a list of streams.
pub open spec fn streams_view(s: Seq<(String, u16)>) -> Seq<(Seq<char>, u16)> {
    s.map_values(|p: (String, u16)| (p.0@, p.1))
}

/// The cameras of a list of streams.
pub open spec fn stream_names(s: Seq<(Seq<char>, u16)>) -> Seq<Seq<char>> {
    s.map_values(|p: (Seq<char>, u16)| p.0)
}

/// Keeps the names that are in `set`.
pub open spec fn member_of(set: Seq<Seq<char>>) -> spec_fn(Seq<char>) -> bool {
    |n: Seq<char>| set.contains(n)
}

/// Keeps the names that are not in `set`.
pub open spec fn absent_from(set: Seq<Seq<char>>) -> spec_fn(Seq<char>) -> bool {
    |n: Seq<char>| !set.contains(n)
}

/// Keeps the streams whose camera is not in `set`.
pub open spec fn stream_absent_from(set: Seq<Seq<char>>) -> spec_fn((Seq<char>, u16)) -> bool {
    |p: (Seq<char>, u16)| !set.contains(p.0)
}

/// The names of a list, each once, in the order of first appearance.
pub open spec fn dedup(s: Seq<Seq<char>>) -> Seq<Seq<char>>
    decreases s.len(),
{
    if s.len() == 0 {
        Seq::empty()
    } else {
        let d = dedup(s.drop_last());
        if d.contains(s.last()) {
            d
        } else {
            d.push(s.last())
        }
    }
}

/// The invariant of the bookkeeping: cameras and streams are not repeated,
/// every stream has a port of its own, below the next port handed out, and no
/// stream runs once streaming is shut down.
pub open spec fn model_wf(m: CameraSyncModel) -> bool {
    &&& m.stopped ==> m.streams.len() == 0
    &&& m.known.no_duplicates()
    &&& stream_names(m.streams).no_duplicates()
    &&& forall|i: int| 0 <= i < m.streams.len() ==> #[trigger] m.streams[i].1 < m.next_port
    &&& forall|i: int, j: int|
        0 <= i < m.streams.len() && 0 <= j < m.streams.len() && i != j ==> #[trigger] m.streams[i].1
            != #[trigger] m.streams[j].1
}

/// What to do after the cameras were detected again.
pub struct ResyncPlan {
    /// Streams to stop: cameras no longer detected.
    pub stop: Vec<String>,
    /// Cameras no longer detected that had no stream.
    pub missing: Vec<String>,
    /// Newly detected cameras to start streaming.
    pub start: Vec<String>,
    /// Newly detected cameras that cannot stream because no peer is connected.
    pub no_peer: Vec<String>,
}

/// What to do when a surface station connects.
pub struct PeerPlan {
    /// Streams to stop (they pointed at the previous peer).
    pub stop: Vec<String>,
    /// Cameras to start streaming to the new peer.
    pub start: Vec<String>,
}

// ---------------------------------------------------------------------------
// Helpers over lists of names
// ---------------------------------------------------------------------------

proof fn lemma_names_push(l: Seq<String>, s: String)
    ensures
        names(l.push(s)) == names(l).push(s@),
{
    assert(names(l.push(s)) =~= names(l).push(s@));
}

proof fn lemma_dedup_no_duplicates(s: Seq<Seq<char>>)
    ensures
        dedup(s).no_duplicates(),
        forall|n: Seq<char>| dedup(s).contains(n) <==> s.contains(n),
    decreases s.len(),
{
    if s.len() > 0 {
        let init = s.drop_last();
        lemma_dedup_no_duplicates(init);
        let d = dedup(init);
        assert(s =~= init.push(s.last()));
        assert forall|n: Seq<char>| dedup(s).contains(n) <==> s.contains(n) by {
            if n == s.last() {
                assert(s[s.len() - 1] == n);
            }
            if init.contains(n) {
                let k = choose|k: int| 0 <= k < init.len() && init[k] == n;
                assert(s[k] == n);
            }
            if s.contains(n) && n != s.last() {
                let k = choose|k: int| 0 <= k < s.len() && s[k] == n;
                assert(k != s.len() - 1);
                assert(init[k] == n);
            }
            if !d.contains(s.last()) {
                let e = d.push(s.last());
                if d.contains(n) {
                    let k = choose|k: int| 0 <= k < d.len() && d[k] == n;
                    assert(e[k] == n);
                }
                if n == s.last() {
                    assert(e[d.len() as int] == n);
                }
                if e.contains(n) && n != s.last() {
                    let k = choose|k: int| 0 <= k < e.len() && e[k] == n;
                    assert(k < d.len());
                    assert(d[k] == n);
                }
            }
        }
        if !d.contains(s.last()) {
            let e = d.push(s.last());
            assert forall|i: int, j: int| 0 <= i < e.len() && 0 <= j < e.len() && i != j implies e[i]
                != e[j] by {
                if i < d.len() && j < d.len() {
                } else if i < d.len() {
                    assert(d.contains(e[i]));
                } else if j < d.len() {
                    assert(d.contains(e[j]));
                }
            }
        }
    }
}

fn dedup_names(list: &Vec<String>) -> (r: Vec<String>)
    ensures
        names(r@) == dedup(names(list@)),
{
    let mut r: Vec<String> = Vec::new();
    let mut i: usize = 0;
    while i < list.len()
        invariant
            i <= list@.len(),
            names(r@) == dedup(names(list@).take(i as int)),
        decreases list@.len() - i,
    {
        let name = &list[i];
        let present = contains_name(&r, name);
        proof {
            let t = names(list@).take(i + 1);
            assert(t.drop_last() =~= names(list@).take(i as int));
            assert(t.last() == list@[i as int]@);
        }
        if !present {
            let ghost before = r@;
            r.push(name.clone());
            proof {
                lemma_names_push(before, list@[i as int]);
            }
        }
        i = i + 1;
    }
    proof {
        assert(names(list@).take(i as int) =~= names(list@));
    }
    r
}

/// The entries of `list` whose name satisfies `keep == names(set)@.contains`.
fn filter_by_membership(list: &Vec<String>, set: &Vec<String>, keep_members: bool) -> (r: Vec<
    String,
>)
    ensures
        names(r@) == names(list@).filter(
            if keep_members {
                member_of(names(set@))
            } else {
                absent_from(names(set@))
            },
        ),
{
    let ghost pred = if keep_members {
        member_of(names(set@))
    } else {
        absent_from(names(set@))
    };
    let mut r: Vec<String> = Vec::new();
    let mut i: usize = 0;
    while i < list.len()
        invariant
            i <= list@.len(),
            pred == (if keep_members {
                member_of(names(set@))
            } else {
                absent_from(names(set@))
            }),
            names(r@) == names(list@).take(i as int).filter(pred),
        decreases list@.len() - i,
    {
        let name = &list[i];
        let member = contains_name(set, name);
        proof {
            let t = names(list@).take(i + 1);
            assert(t =~= names(list@).take(i as int).push(list@[i as int]@));
            names(list@).take(i as int).lemma_filter_push(list@[i as int]@, pred);
        }
        if member == keep_members {
            let ghost before = r@;
            r.push(name.clone());
            proof {
                lemma_names_push(before, list@[i as int]);
            }
        }
        i = i + 1;
    }
    proof {
        assert(names(list@).take(i as int) =~= names(list@));
    }
    r
}

// ---------------------------------------------------------------------------
// The bookkeeping
// ---------------------------------------------------------------------------

impl View for CameraSync {
    type V = CameraSyncModel;

    closed spec fn view(&self) -> CameraSyncModel {
        CameraSyncModel {
            known: names(self.known@),
            streams: streams_view(self.streams@),
            has_peer: self.has_peer,
            next_port: self.next_port,
            stopped: self.stopped,
        }
    }
}

proof fn lemma_stream_names_distinct_after_filter(
    s: Seq<(Seq<char>, u16)>,
    p: spec_fn((Seq<char>, u16)) -> bool,
)
    requires
        stream_names(s).no_duplicates(),
        forall|i: int, j: int|
            0 <= i < s.len() && 0 <= j < s.len() && i != j ==> #[trigger] s[i].1 != #[trigger] s[j].1,
    ensures
        stream_names(s.filter(p)).no_duplicates(),
        forall|i: int, j: int|
            0 <= i < s.filter(p).len() && 0 <= j < s.filter(p).len() && i != j ==> #[trigger] s.filter(
                p,
            )[i].1 != #[trigger] s.filter(p)[j].1,
        forall|x: (Seq<char>, u16)| s.filter(p).contains(x) ==> s.contains(x),
    decreases s.len(),
{
    reveal(Seq::filter);
    broadcast use vstd::seq_lib::group_filter_ensures;

    if s.len() > 0 {
        let init = s.drop_last();
        assert(stream_names(init) =~= stream_names(s).drop_last());
        assert forall|i: int, j: int|
            0 <= i < init.len() && 0 <= j < init.len() && i != j implies #[trigger] init[i].1
            != #[trigger] init[j].1 by {
            assert(init[i] == s[i] && init[j] == s[j]);
        }
        lemma_stream_names_distinct_after_filter(init, p);
        let fi = init.filter(p);
        if p(s.last()) {
            let f = fi.push(s.last());
            assert(s.filter(p) == f);
            assert forall|i: int| 0 <= i < fi.len() implies #[trigger] fi[i] != s.last() && fi[i].0
                != s.last().0 && fi[i].1 != s.last().1 by {
                assert(init.contains(fi[i]));
                let k = choose|k: int| 0 <= k < init.len() && init[k] == fi[i];
                assert(s[k] == fi[i]);
                assert(stream_names(s)[k] == s[k].0);
                assert(stream_names(s)[s.len() - 1] == s.last().0);
            }
            assert(stream_names(f) =~= stream_names(fi).push(s.last().0));
            assert forall|x: (Seq<char>, u16)| f.contains(x) implies s.contains(x) by {
                if x != s.last() {
                    let k = choose|k: int| 0 <= k < f.len() && f[k] == x;
                    assert(fi[k] == x);
                    assert(init.contains(x));
                    let m = choose|m: int| 0 <= m < init.len() && init[m] == x;
                    assert(s[m] == x);
                } else {
                    assert(s[s.len() - 1] == x);
                }
            }
            assert forall|i: int, j: int|
                0 <= i < f.len() && 0 <= j < f.len() && i != j implies #[trigger] f[i].1
                != #[trigger] f[j].1 by {
                if i < fi.len() && j < fi.len() {
                    assert(f[i] == fi[i] && f[j] == fi[j]);
                }
            }
        } else {
            assert(s.filter(p) == fi);
            assert forall|x: (Seq<char>, u16)| fi.contains(x) implies s.contains(x) by {
                assert(init.filter(p).contains(x));
                assert(init.contains(x));
                let m = choose|m: int| 0 <= m < init.len() && init[m] == x;
                assert(s[m] == x);
            }
        }
    }
}

impl CameraSync {
    /// The bookkeeping's invariant.
    pub open spec fn wf(&self) -> bool {
        model_wf(self@)
    }

    /// No cameras, no streams, no peer; ports start at [`FIRST_PORT`].
    pub fn new() -> (s: CameraSync)
        ensures
            s.wf(),
            !s@.stopped,
            s@.known == Seq::<Seq<char>>::empty(),
            s@.streams == Seq::<(Seq<char>, u16)>::empty(),
            !s@.has_peer,
            s@.next_port == FIRST_PORT,
    {
        let s = CameraSync {
            known: Vec::new(),
            streams: Vec::new(),
            has_peer: false,
            next_port: FIRST_PORT,
            stopped: false,
        };
        assert(s@.known =~= Seq::<Seq<char>>::empty());
        assert(s@.streams =~= Seq::<(Seq<char>, u16)>::empty());
        assert(stream_names(s@.streams) =~= Seq::<Seq<char>>::empty());
        s
    }

    /// The running streams, for the surface station.
    pub fn camera_list(&self) -> (l: Vec<(String, u16)>)
        ensures
            streams_view(l@) == self@.streams,
    {
        let mut l: Vec<(String, u16)> = Vec::new();
        let mut i: usize = 0;
        while i < self.streams.len()
            invariant
                i <= self.streams@.len(),
                streams_view(l@) == streams_view(self.streams@).take(i as int),
            decreases self.streams@.len() - i,
        {
            let name = self.streams[i].0.clone();
            let port = self.streams[i].1;
            let ghost before = l@;
            l.push((name, port));
            proof {
                assert(streams_view(l@) =~= streams_view(before).push((self.streams@[i as int].0@, port)));
                assert(streams_view(self.streams@).take(i + 1) =~= streams_view(self.streams@).take(
                    i as int,
                ).push((self.streams@[i as int].0@, port)));
            }
            i = i + 1;
        }
        proof {
            assert(streams_view(self.streams@).take(i as int) =~= streams_view(self.streams@));
        }
        l
    }

    /// The cameras of the running streams.
    fn stream_name_list(&self) -> (l: Vec<String>)
        ensures
            names(l@) == stream_names(self@.streams),
    {
        let mut l: Vec<String> = Vec::new();
        let mut i: usize = 0;
        while i < self.streams.len()
            invariant
                i <= self.streams@.len(),
                names(l@) == stream_names(streams_view(self.streams@)).take(i as int),
            decreases self.streams@.len() - i,
        {
            let ghost before = l@;
            l.push(self.streams[i].0.clone());
            proof {
                lemma_names_push(before, self.streams@[i as int].0);
                assert(stream_names(streams_view(self.streams@)).take(i + 1) =~= stream_names(
                    streams_view(self.streams@),
                ).take(i as int).push(self.streams@[i as int].0@));
            }
            i = i + 1;
        }
        proof {
            assert(stream_names(streams_view(self.streams@)).take(i as int) =~= stream_names(
                streams_view(self.streams@),
            ));
        }
        l
    }

    /// Stops every stream: returns their cameras.
    fn stop_all(&mut self) -> (stopped: Vec<String>)
        requires
            old(self).wf(),
        ensures
            final(self).wf(),
            names(stopped@) == stream_names(old(self)@.streams),
            final(self)@ == (CameraSyncModel { streams: Seq::empty(), ..old(self)@ }),
    {
        let stopped = self.stream_name_list();
        self.streams = Vec::new();
        proof {
            assert(self@.streams =~= Seq::<(Seq<char>, u16)>::empty());
            assert(stream_names(self@.streams) =~= Seq::<Seq<char>>::empty());
        }
        stopped
    }

    /// A surface station connected: every stream stops, and every known camera
    /// is to start streaming to it. Once streaming is shut down, nothing happens.
    pub fn peer_connected(&mut self) -> (plan: PeerPlan)
        requires
            old(self).wf(),
        ensures
            final(self).wf(),
            old(self)@.stopped ==> final(self)@ == old(self)@ && plan.stop@.len() == 0
                && plan.start@.len() == 0,
            !old(self)@.stopped ==> names(plan.stop@) == stream_names(old(self)@.streams),
            !old(self)@.stopped ==> names(plan.start@) == old(self)@.known,
            !old(self)@.stopped ==> final(self)@ == (CameraSyncModel {
                streams: Seq::empty(),
                has_peer: true,
                ..old(self)@
            }),
    {
        if self.stopped {
            return PeerPlan { stop: Vec::new(), start: Vec::new() };
        }
        let stop = self.stop_all();
        self.has_peer = true;
        let mut start: Vec<String> = Vec::new();
        let mut i: usize = 0;
        while i < self.known.len()
            invariant
                i <= self.known@.len(),
                names(start@) == names(self.known@).take(i as int),
            decreases self.known@.len() - i,
        {
            let ghost before = start@;
            start.push(self.known[i].clone());
            proof {
                lemma_names_push(before, self.known@[i as int]);
                assert(names(self.known@).take(i + 1) =~= names(self.known@).take(i as int).push(
                    self.known@[i as int]@,
                ));
            }
            i = i + 1;
        }
        proof {
            assert(names(self.known@).take(i as int) =~= names(self.known@));
        }
        PeerPlan { stop, start }
    }

    /// The surface station disconnected: every stream stops. Once streaming is
    /// shut down, nothing happens.
    pub fn peer_lost(&mut self) -> (stop: Vec<String>)
        requires
            old(self).wf(),
        ensures
            final(self).wf(),
            old(self)@.stopped ==> final(self)@ == old(self)@ && stop@.len() == 0,
            !old(self)@.stopped ==> names(stop@) == stream_names(old(self)@.streams),
            !old(self)@.stopped ==> final(self)@ == (CameraSyncModel {
                streams: Seq::empty(),
                has_peer: false,
                ..old(self)@
            }),
    {
        if self.stopped {
            return Vec::new();
        }
        let stop = self.stop_all();
        self.has_peer = false;
        stop
    }

    /// The robot shuts down: every stream stops, and streaming stays shut down;
    /// no later call starts or stops anything.
    pub fn shutdown(&mut self) -> (stop: Vec<String>)
        requires
            old(self).wf(),
        ensures
            final(self).wf(),
            names(stop@) == stream_names(old(self)@.streams),
            final(self)@ == (CameraSyncModel { streams: Seq::empty(), stopped: true, ..old(self)@ }),
    {
        let stop = self.stop_all();
        self.stopped = true;
        stop
    }

    /// The port the next stream gets.
    pub fn next_port(&self) -> (p: u16)
        ensures
            p == self@.next_port,
    {
        self.next_port
    }

    /// Whether a surface station is connected.
    pub fn has_peer(&self) -> (b: bool)
        ensures
            b == self@.has_peer,
    {
        self.has_peer
    }

    /// A stream of `camera` started on the next port: it replaces any stream
    /// the camera had, and the next stream gets the following port. Once
    /// streaming is shut down, no stream is recorded.
    pub fn stream_started(&mut self, camera: String)
        requires
            old(self).wf(),
            old(self)@.next_port < u16::MAX,
        ensures
            final(self).wf(),
            old(self)@.stopped ==> final(self)@ == old(self)@,
            !old(self)@.stopped ==> final(self)@ == (CameraSyncModel {
                streams: old(self)@.streams.filter(stream_absent_from(seq![camera@])).push(
                    (camera@, old(self)@.next_port),
                ),
                next_port: (old(self)@.next_port + 1) as u16,
                ..old(self)@
            }),
    {
        if self.stopped {
            return;
        }
        let ghost old_streams = self@.streams;
        let mut one: Vec<String> = Vec::new();
        one.push(camera.clone());
        proof {
            assert(names(one@) =~= seq![camera@]);
        }
        self.remove_streams_of(&one);
        let port = self.next_port;
        let ghost kept = self@.streams;
        self.streams.push((camera, port));
        self.next_port = port + 1;
        proof {
            assert(self@.streams =~= kept.push((camera@, port)));
            lemma_stream_names_distinct_after_filter(old_streams, stream_absent_from(seq![camera@]));
            assert forall|i: int| 0 <= i < kept.len() implies #[trigger] stream_names(kept)[i]
                != camera@ by {
                assert(kept.contains(kept[i]));
                old_streams.lemma_filter_contains_rev(
                    stream_absent_from(seq![camera@]),
                    kept[i],
                );
                assert(seq![camera@][0] == camera@);
            }
            assert(stream_names(self@.streams) =~= stream_names(kept).push(camera@));
            let s = self@.streams;
            assert forall|i: int| 0 <= i < s.len() implies #[trigger] s[i].1 < self@.next_port by {
                if i < kept.len() {
                    assert(s[i] == kept[i]);
                    assert(kept.contains(kept[i]));
                    assert(old_streams.contains(kept[i]));
                }
            }
            assert forall|i: int, j: int|
                0 <= i < s.len() && 0 <= j < s.len() && i != j implies #[trigger] s[i].1
                != #[trigger] s[j].1 by {
                if i < kept.len() {
                    assert(kept.contains(kept[i]));
                    assert(old_streams.contains(kept[i]));
                }
                if j < kept.len() {
                    assert(kept.contains(kept[j]));
                    assert(old_streams.contains(kept[j]));
                }
            }
        }
    }

    /// Drops the streams of the cameras in `cameras`.
    fn remove_streams_of(&mut self, cameras: &Vec<String>)
        requires
            old(self).wf(),
        ensures
            final(self).wf(),
            final(self)@ == (CameraSyncModel {
                streams: old(self)@.streams.filter(stream_absent_from(names(cameras@))),
                ..old(self)@
            }),
    {
        let ghost pred = stream_absent_from(names(cameras@));
        let ghost old_view = self@;
        let mut kept: Vec<(String, u16)> = Vec::new();
        let mut i: usize = 0;
        while i < self.streams.len()
            invariant
                i <= self.streams@.len(),
                self@ == old_view,
                pred == stream_absent_from(names(cameras@)),
                streams_view(kept@) == streams_view(self.streams@).take(i as int).filter(pred),
            decreases self.streams@.len() - i,
        {
            let gone = contains_name(cameras, &self.streams[i].0);
            let ghost sv = streams_view(self.streams@);
            proof {
                assert(sv.take(i + 1) =~= sv.take(i as int).push(sv[i as int]));
                sv.take(i as int).lemma_filter_push(sv[i as int], pred);
            }
            if !gone {
                let ghost before = kept@;
                kept.push((self.streams[i].0.clone(), self.streams[i].1));
                proof {
                    assert(streams_view(kept@) =~= streams_view(before).push(sv[i as int]));
                }
            }
            i = i + 1;
        }
        proof {
            assert(streams_view(self.streams@).take(i as int) =~= streams_view(self.streams@));
            lemma_stream_names_distinct_after_filter(old_view.streams, pred);
            let f = old_view.streams.filter(pred);
            assert forall|k: int| 0 <= k < f.len() implies #[trigger] f[k].1 < old_view.next_port by {
                assert(f.contains(f[k]));
                assert(old_view.streams.contains(f[k]));
            }
        }
        self.streams = kept;
    }

    /// The cameras were detected again (`detected`, one name per entry, possibly
    /// repeated). Streams of cameras that are gone stop; gone cameras without a
    /// stream are reported; new cameras are to start streaming when a peer is
    /// connected, and are reported otherwise.
    pub fn resync(&mut self, detected: &Vec<String>) -> (plan: ResyncPlan)
        requires
            old(self).wf(),
        ensures
            final(self).wf(),
            old(self)@.stopped ==> final(self)@ == old(self)@ && plan.stop@.len() == 0
                && plan.missing@.len() == 0 && plan.start@.len() == 0 && plan.no_peer@.len() == 0,
            !old(self)@.stopped ==> ({
                let next = dedup(names(detected@));
                let removed = old(self)@.known.filter(absent_from(next));
                let added = next.filter(absent_from(old(self)@.known));
                let running = stream_names(old(self)@.streams);
                &&& names(plan.stop@) == removed.filter(member_of(running))
                &&& names(plan.missing@) == removed.filter(absent_from(running))
                &&& names(plan.start@) == (if old(self)@.has_peer {
                    added
                } else {
                    Seq::empty()
                })
                &&& names(plan.no_peer@) == (if old(self)@.has_peer {
                    Seq::empty()
                } else {
                    added
                })
                &&& final(self)@ == (CameraSyncModel {
                    known: next,
                    streams: old(self)@.streams.filter(stream_absent_from(removed)),
                    ..old(self)@
                })
            }),
    {
        if self.stopped {
            return ResyncPlan {
                stop: Vec::new(),
                missing: Vec::new(),
                start: Vec::new(),
                no_peer: Vec::new(),
            };
        }
        let next = dedup_names(detected);
        proof {
            lemma_dedup_no_duplicates(names(detected@));
        }
        let removed = filter_by_membership(&self.known, &next, false);
        let running = self.stream_name_list();
        let stop = filter_by_membership(&removed, &running, true);
        let missing = filter_by_membership(&removed, &running, false);
        let added = filter_by_membership(&next, &self.known, false);
        self.remove_streams_of(&removed);
        self.known = next;
        if self.has_peer {
            let empty: Vec<String> = Vec::new();
            proof {
                assert(names(empty@) =~= Seq::<Seq<char>>::empty());
            }
            ResyncPlan { stop, missing, start: added, no_peer: empty }
        } else {
            let empty: Vec<String> = Vec::new();
            proof {
                assert(names(empty@) =~= Seq::<Seq<char>>::empty());
            }
            ResyncPlan { stop, missing, start: empty, no_peer: added }
        }
    }
}


/// Every camera that disappeared has its stream stopped or is reported as
/// missing, and never both; nothing else is stopped or reported.
pub proof fn law_resync_accounts_for_removed(
    removed: Seq<Seq<char>>,
    running: Seq<Seq<char>>,
    n: Seq<char>,
)
    ensures
        removed.contains(n) <==> (removed.filter(member_of(running)).contains(n) || removed.filter(
            absent_from(running),
        ).contains(n)),
        !(removed.filter(member_of(running)).contains(n) && removed.filter(
            absent_from(running),
        ).contains(n)),
{
    broadcast use vstd::seq_lib::group_filter_ensures;

    if removed.contains(n) {
        let k = choose|k: int| 0 <= k < removed.len() && removed[k] == n;
        if running.contains(n) {
            assert(member_of(running)(removed[k]));
            removed.lemma_filter_contains(member_of(running), k);
        } else {
            assert(absent_from(running)(removed[k]));
            removed.lemma_filter_contains(absent_from(running), k);
        }
    }
    if removed.filter(member_of(running)).contains(n) {
        removed.lemma_filter_contains_rev(member_of(running), n);
    }
    if removed.filter(absent_from(running)).contains(n) {
        removed.lemma_filter_contains_rev(absent_from(running), n);
    }
    if removed.filter(member_of(running)).contains(n) {
        let k = choose|k: int|
            0 <= k < removed.filter(member_of(running)).len() && removed.filter(
                member_of(running),
            )[k] == n;
        assert(member_of(running)(removed.filter(member_of(running))[k]));
    }
    if removed.filter(absent_from(running)).contains(n) {
        let k = choose|k: int|
            0 <= k < removed.filter(absent_from(running)).len() && removed.filter(
                absent_from(running),
            )[k] == n;
        assert(absent_from(running)(removed.filter(absent_from(running))[k]));
    }
}

} // verus!
