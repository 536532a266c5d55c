//! The camera registry: the one record of which cameras exist, what they last
//! reported, and which viewers wait for their frames.

use vstd::prelude::*;
use crate::stream::StreamReceiverState;
use crate::utils::now_millis;
use vstd::utf8::*;

verus! {

/// The most cameras the registry holds: stream ids are single bytes, and 0
/// is never given out.
pub const MAX_CAMERAS: usize = 255;

/// The frames waiting in a delivery queue.
pub open spec fn queued(pending: Seq<Vec<u8>>) -> Seq<Seq<u8>> {
    pending.map_values(|f: Vec<u8>| f@)
}

/// A delivery queue after a frame is offered: the frame is appended when the
/// queue has room, and dropped for this queue otherwise.
pub open spec fn offer(pending: Seq<Seq<u8>>, capacity: usize, frame: Seq<u8>) -> Seq<Seq<u8>> {
    if pending.len() < capacity {
        pending.push(frame)
    } else {
        pending
    }
}

/// One viewer of a camera's live frames, and the frames it has not taken yet.
pub struct Viewer {
    pub id: u64,
    pub capacity: usize,
    pub pending: Vec<Vec<u8>>,
}

/// No two viewers share an id.
pub open spec fn viewer_ids_unique(vs: Seq<Viewer>) -> bool {
    forall|i: int, j: int| 0 <= i < vs.len() && 0 <= j < vs.len() && i != j ==> vs[i].id != vs[j].id
}

/// The position of the viewer with id `id`, if there is one.
pub open spec fn has_viewer(vs: Seq<Viewer>, id: u64) -> bool {
    exists|i: int| 0 <= i < vs.len() && vs[i].id == id
}

/// `after` is `before` without viewer `id`, the others kept in order; the
/// same as `before` when it has no such viewer.
pub open spec fn removed_viewer(before: Seq<Viewer>, after: Seq<Viewer>, id: u64) -> bool {
    if has_viewer(before, id) {
        exists|k: int| 0 <= k < before.len() && before[k].id == id && after == before.remove(k)
    } else {
        after == before
    }
}

/// `after` is `before` with `frame` offered to every viewer's queue.
pub open spec fn delivered(before: Seq<Viewer>, after: Seq<Viewer>, frame: Seq<u8>) -> bool {
    &&& after.len() == before.len()
    &&& forall|i: int|
        #![trigger after[i]]
        0 <= i < before.len() ==> {
            &&& after[i].id == before[i].id
            &&& after[i].capacity == before[i].capacity
            &&& queued(after[i].pending@) == offer(
                queued(before[i].pending@),
                before[i].capacity,
                frame,
            )
        }
}

/// Offering a frame to all viewers treats each queue on its own: a viewer
/// with room gets the frame after the ones it already waits for, whatever
/// the other queues hold; a full queue stays as it is and misses the frame.
pub proof fn lemma_fanout_isolation(before: Seq<Viewer>, after: Seq<Viewer>, frame: Seq<u8>, i: int)
    requires
        delivered(before, after, frame),
        0 <= i < before.len(),
    ensures
        queued(before[i].pending@).len() < before[i].capacity ==> queued(after[i].pending@) == queued(
            before[i].pending@,
        ).push(frame),
        queued(before[i].pending@).len() >= before[i].capacity ==> queued(after[i].pending@)
            == queued(before[i].pending@),
{
    assert(after[i].id == before[i].id);
}

/// Times that never decrease along the sequence.
pub open spec fn chronological(moves: Seq<i64>) -> bool {
    forall|i: int, j: int| 0 <= i <= j < moves.len() ==> moves[i] <= moves[j]
}

/// The time a movement reported at `at` is logged with: `at`, or the last
/// logged time when the clock reads earlier, so the log stays in order.
pub open spec fn next_stamp(moves: Seq<i64>, at: i64) -> i64 {
    if moves.len() > 0 && moves.last() > at {
        moves.last()
    } else {
        at
    }
}

/// The later of two times.
pub open spec fn later(a: i64, b: i64) -> i64 {
    if b > a {
        b
    } else {
        a
    }
}

/// Two frames offered one after the other reach a viewer with room for
/// both in the order they were offered; a viewer that joins between them
/// (with an empty queue) has only the second.
pub proof fn lemma_fanout_order(
    a: Seq<Viewer>,
    b: Seq<Viewer>,
    c: Seq<Viewer>,
    f1: Seq<u8>,
    f2: Seq<u8>,
    i: int,
)
    requires
        delivered(a, b, f1),
        delivered(b, c, f2),
        0 <= i < a.len(),
        queued(a[i].pending@).len() + 2 <= a[i].capacity,
    ensures
        queued(c[i].pending@) == queued(a[i].pending@).push(f1).push(f2),
        forall|j: int|
            0 <= j < b.len() && queued(b[j].pending@).len() == 0 && b[j].capacity > 0
                ==> queued(#[trigger] c[j].pending@) == seq![f2],
{
    assert(b[i].capacity == a[i].capacity);
    assert forall|j: int|
        0 <= j < b.len() && queued(b[j].pending@).len() == 0 && b[j].capacity > 0
            implies queued(#[trigger] c[j].pending@) == seq![f2] by {
        assert(c[j].id == b[j].id);
        assert(queued(b[j].pending@).push(f2) =~= seq![f2]);
    }
}

/// What is known of one camera.
pub struct CameraInfo {
    pub name: String,
    pub ip: String,
    pub stream_id: u8,
    pub lum: u8,
    /// Times of reported movements, in milliseconds since the Unix epoch,
    /// oldest first.
    pub moves: Vec<i64>,
    /// The latest complete frame.
    pub image: Vec<u8>,
    /// When `image` was last set, in milliseconds since the Unix epoch; it
    /// never decreases.
    pub last_image: i64,
    pub senders: Vec<Viewer>,
}

impl CameraInfo {
    pub open spec fn wf(&self) -> bool {
        viewer_ids_unique(self.senders@) && chronological(self.moves@)
    }

    /// A camera that has reported nothing yet.
    pub fn new(name: &str, stream_id: u8) -> (r: Self)
        ensures
            r.wf(),
            r.name@ == name@,
            r.ip@ == Seq::<char>::empty(),
            r.stream_id == stream_id,
            r.lum == 0,
            r.moves@ == Seq::<i64>::empty(),
            r.image@ == Seq::<u8>::empty(),
            r.last_image == 0,
            r.senders@ == Seq::<Viewer>::empty(),
    {
        CameraInfo {
            name: name.to_owned(),
            ip: String::new(),
            stream_id,
            lum: 0,
            moves: Vec::new(),
            image: Vec::new(),
            last_image: 0,
            senders: Vec::new(),
        }
    }

    /// Appends a movement at time `at`, or at the last logged time if that
    /// is later.
    pub fn record_movement_at(&mut self, at: i64)
        requires
            old(self).wf(),
        ensures
            final(self).wf(),
            final(self).moves@ == old(self).moves@.push(next_stamp(old(self).moves@, at)),
            final(self).name == old(self).name,
            final(self).ip == old(self).ip,
            final(self).stream_id == old(self).stream_id,
            final(self).lum == old(self).lum,
            final(self).image == old(self).image,
            final(self).last_image == old(self).last_image,
            final(self).senders == old(self).senders,
    {
        let n = self.moves.len();
        let stamp = if n > 0 && self.moves[n - 1] > at {
            self.moves[n - 1]
        } else {
            at
        };
        self.moves.push(stamp);
    }

    /// Appends a movement at the current time.
    pub fn record_movement(&mut self)
        requires
            old(self).wf(),
        ensures
            final(self).wf(),
            final(self).moves@.len() == old(self).moves@.len() + 1,
            final(self).moves@.drop_last() == old(self).moves@,
            final(self).name == old(self).name,
            final(self).ip == old(self).ip,
            final(self).stream_id == old(self).stream_id,
            final(self).lum == old(self).lum,
            final(self).image == old(self).image,
            final(self).last_image == old(self).last_image,
            final(self).senders == old(self).senders,
    {
        let at = now_millis();
        self.record_movement_at(at);
        assert(self.moves@.drop_last() =~= old(self).moves@);
    }

    /// Adds an empty delivery queue of `capacity` frames for viewer `id`.
    /// Returns false, changing nothing, when that id already has one.
    pub fn add_sender(&mut self, id: u64, capacity: usize) -> (r: bool)
        requires
            old(self).wf(),
        ensures
            final(self).wf(),
            r == !has_viewer(old(self).senders@, id),
            r ==> final(self).senders@.len() == old(self).senders@.len() + 1
                && final(self).senders@.drop_last() == old(self).senders@
                && final(self).senders@.last().id == id
                && final(self).senders@.last().capacity == capacity
                && final(self).senders@.last().pending@.len() == 0,
            !r ==> final(self).senders == old(self).senders,
            final(self).name == old(self).name,
            final(self).ip == old(self).ip,
            final(self).stream_id == old(self).stream_id,
            final(self).lum == old(self).lum,
            final(self).moves == old(self).moves,
            final(self).image == old(self).image,
            final(self).last_image == old(self).last_image,
    {
        match self.sender_index(id) {
            Some(_) => false,
            None => {
                self.senders.push(Viewer { id, capacity, pending: Vec::new() });
                assert(self.senders@.drop_last() =~= old(self).senders@);
                true
            },
        }
    }

    /// The position of viewer `id` among the senders.
    fn sender_index(&self, id: u64) -> (r: Option<usize>)
        ensures
            r is None <==> !has_viewer(self.senders@, id),
            r matches Some(i) ==> i < self.senders@.len() && self.senders@[i as int].id == id,
    {
        let mut i: usize = 0;
        while i < self.senders.len()
            invariant
                i <= self.senders@.len(),
                forall|j: int| 0 <= j < i ==> self.senders@[j].id != id,
            decreases self.senders@.len() - i,
        {
            if self.senders[i].id == id {
                return Some(i);
            }
            i = i + 1;
        }
        None
    }

    /// Removes the delivery queue of viewer `id`. Returns whether there was one.
    pub fn remove_sender(&mut self, id: u64) -> (r: bool)
        requires
            old(self).wf(),
        ensures
            final(self).wf(),
            r == has_viewer(old(self).senders@, id),
            !has_viewer(final(self).senders@, id),
            forall|v: Viewer|
                final(self).senders@.contains(v) <==> old(self).senders@.contains(v) && v.id != id,
            removed_viewer(old(self).senders@, final(self).senders@, id),
            final(self).name == old(self).name,
            final(self).ip == old(self).ip,
            final(self).stream_id == old(self).stream_id,
            final(self).lum == old(self).lum,
            final(self).moves == old(self).moves,
            final(self).image == old(self).image,
            final(self).last_image == old(self).last_image,
    {
        match self.sender_index(id) {
            Some(i) => {
                let ghost before = self.senders@;
                let _ = self.senders.remove(i);
                assert forall|v: Viewer|
                    self.senders@.contains(v) <==> before.contains(v) && v.id != id by {
                    if self.senders@.contains(v) {
                        let k = choose|k: int| 0 <= k < self.senders@.len() && self.senders@[k] == v;
                        if k < i {
                            assert(before[k] == v);
                        } else {
                            assert(before[k + 1] == v);
                        }
                    }
                    if before.contains(v) && v.id != id {
                        let k = choose|k: int| 0 <= k < before.len() && before[k] == v;
                        if k < i {
                            assert(self.senders@[k] == v);
                        } else {
                            assert(self.senders@[k - 1] == v);
                        }
                    }
                }
                true
            },
            None => {
                assert forall|v: Viewer|
                    self.senders@.contains(v) <==> old(self).senders@.contains(v) && v.id != id by {
                    if self.senders@.contains(v) {
                        let k = choose|k: int| 0 <= k < self.senders@.len() && self.senders@[k] == v;
                        assert(self.senders@[k].id != id);
                    }
                }
                false
            },
        }
    }

    /// Takes the frames waiting for viewer `id`, oldest first, leaving its
    /// queue empty; `None` when the camera has no such viewer.
    pub fn take_frames(&mut self, id: u64) -> (r: Option<Vec<Vec<u8>>>)
        requires
            old(self).wf(),
        ensures
            final(self).wf(),
            r is Some <==> has_viewer(old(self).senders@, id),
            r matches Some(frames) ==> exists|i: int|
                0 <= i < old(self).senders@.len() && old(self).senders@[i].id == id
                    && queued(frames@) == queued(old(self).senders@[i].pending@)
                    && final(self).senders@ == old(self).senders@.update(
                    i,
                    Viewer { pending: final(self).senders@[i].pending, ..old(self).senders@[i] },
                ) && final(self).senders@[i].pending@.len() == 0,
            r is None ==> final(self).senders == old(self).senders,
            final(self).name == old(self).name,
            final(self).ip == old(self).ip,
            final(self).stream_id == old(self).stream_id,
            final(self).lum == old(self).lum,
            final(self).moves == old(self).moves,
            final(self).image == old(self).image,
            final(self).last_image == old(self).last_image,
    {
        match self.sender_index(id) {
            Some(i) => {
                let mut frames: Vec<Vec<u8>> = Vec::new();
                let v = &mut self.senders[i];
                std::mem::swap(&mut frames, &mut v.pending);
                Some(frames)
            },
            None => None,
        }
    }

    /// Stores `frame` as the latest image, stamped `at` unless the stamp it
    /// has is later, and offers it to every viewer's queue.
    pub fn publish(&mut self, frame: Vec<u8>, at: i64)
        requires
            old(self).wf(),
        ensures
            final(self).wf(),
            final(self).image@ == frame@,
            final(self).last_image == later(old(self).last_image, at),
            delivered(old(self).senders@, final(self).senders@, frame@),
            final(self).name == old(self).name,
            final(self).ip == old(self).ip,
            final(self).stream_id == old(self).stream_id,
            final(self).lum == old(self).lum,
            final(self).moves == old(self).moves,
    {
        let mut i: usize = 0;
        while i < self.senders.len()
            invariant
                i <= self.senders@.len(),
                self.senders@.len() == old(self).senders@.len(),
                self.name == old(self).name,
                self.ip == old(self).ip,
                self.stream_id == old(self).stream_id,
                self.lum == old(self).lum,
                self.moves == old(self).moves,
                self.last_image == old(self).last_image,
                forall|j: int|
                    #![trigger self.senders@[j]]
                    0 <= j < self.senders@.len() ==> self.senders@[j].id == old(self).senders@[j].id
                        && self.senders@[j].capacity == old(self).senders@[j].capacity,
                forall|j: int|
                    #![trigger self.senders@[j]]
                    0 <= j < i ==> queued(self.senders@[j].pending@) == offer(
                        queued(old(self).senders@[j].pending@),
                        old(self).senders@[j].capacity,
                        frame@,
                    ),
                forall|j: int|
                    #![trigger self.senders@[j]]
                    i <= j < self.senders@.len() ==> self.senders@[j].pending == old(
                        self,
                    ).senders@[j].pending,
            decreases self.senders@.len() - i,
        {
            let v = &mut self.senders[i];
            if v.pending.len() < v.capacity {
                let copy = copy_bytes(&frame);
                let ghost before = queued(v.pending@);
                v.pending.push(copy);
                assert(queued(v.pending@) =~= before.push(frame@));
            }
            i = i + 1;
        }
        self.image = frame;
        if at > self.last_image {
            self.last_image = at;
        }
    }
}

/// A copy of `src`.
fn copy_bytes(src: &Vec<u8>) -> (r: Vec<u8>)
    ensures
        r@ == src@,
{
    let mut r: Vec<u8> = Vec::new();
    let mut i: usize = 0;
    while i < src.len()
        invariant
            i <= src@.len(),
            r@ == src@.subrange(0, i as int),
        decreases src@.len() - i,
    {
        r.push(src[i]);
        i = i + 1;
    }
    assert(r@ =~= src@);
    r
}

/// The names of a sequence of cameras, in order.
pub open spec fn names_of(cams: Seq<CameraInfo>) -> Seq<Seq<char>> {
    cams.map_values(|c: CameraInfo| c.name@)
}

/// The registry after a status report from `name`: unchanged when the name
/// is known or the registry is full, else extended by the name.
pub open spec fn after_stat(names: Seq<Seq<char>>, name: Seq<char>) -> Seq<Seq<char>> {
    if names.contains(name) || names.len() >= MAX_CAMERAS {
        names
    } else {
        names.push(name)
    }
}

/// The registry's names after status reports from `events`, in order.
pub open spec fn names_after_stats(start: Seq<Seq<char>>, events: Seq<Seq<char>>) -> Seq<Seq<char>>
    decreases events.len(),
{
    if events.len() == 0 {
        start
    } else {
        after_stat(names_after_stats(start, events.drop_last()), events.last())
    }
}

/// Whether `a` is reported in `events` before `b` ever is.
pub open spec fn seen_before(events: Seq<Seq<char>>, a: Seq<char>, b: Seq<char>) -> bool {
    exists|i: int|
        0 <= i < events.len() && events[i] == a && forall|k: int| 0 <= k <= i ==> events[k] != b
}

/// Whatever status reports arrive, each camera name is recorded once, and
/// so holds one stream id (its position plus one); names already recorded
/// keep their positions; every reported name is recorded unless the
/// registry is full; and new names are recorded in the order they are
/// first reported.
pub proof fn lemma_registry_identity(start: Seq<Seq<char>>, events: Seq<Seq<char>>)
    requires
        start.no_duplicates(),
        start.len() <= MAX_CAMERAS,
    ensures
        names_after_stats(start, events).no_duplicates(),
        start.len() <= names_after_stats(start, events).len() <= MAX_CAMERAS,
        names_after_stats(start, events).subrange(0, start.len() as int) == start,
        forall|i: int|
            0 <= i < events.len() ==> names_after_stats(start, events).contains(#[trigger] events[i])
                || names_after_stats(start, events).len() == MAX_CAMERAS,
        forall|j: int, k: int|
            start.len() <= j < k < names_after_stats(start, events).len() ==> seen_before(
                events,
                #[trigger] names_after_stats(start, events)[j],
                #[trigger] names_after_stats(start, events)[k],
            ),
    decreases events.len(),
{
    if events.len() > 0 {
        let prev_ev = events.drop_last();
        let e = events.last();
        lemma_registry_identity(start, prev_ev);
        let prev = names_after_stats(start, prev_ev);
        let r = names_after_stats(start, events);
        assert(r == after_stat(prev, e));
        if !(prev.contains(e) || prev.len() >= MAX_CAMERAS) {
            assert(r == prev.push(e));
            assert forall|a: int, b: int|
                0 <= a < r.len() && 0 <= b < r.len() && a != b implies r[a] != r[b] by {
                if a == prev.len() {
                    assert(prev[b] == r[b]);
                } else if b == prev.len() {
                    assert(prev[a] == r[a]);
                }
            }
            assert(r.subrange(0, start.len() as int) =~= prev.subrange(0, start.len() as int));
            assert forall|j: int, k: int|
                start.len() <= j < k < r.len() implies seen_before(events, #[trigger] r[j], #[trigger] r[k]) by {
                if k < prev.len() {
                    assert(seen_before(prev_ev, prev[j], prev[k]));
                    let i = choose|i: int|
                        0 <= i < prev_ev.len() && prev_ev[i] == prev[j] && forall|m: int|
                            0 <= m <= i ==> prev_ev[m] != prev[k];
                    assert(events[i] == r[j]);
                    assert forall|m: int| 0 <= m <= i implies events[m] != r[k] by {
                        assert(events[m] == prev_ev[m]);
                    }
                } else {
                    // r[k] is e, first reported now; r[j] was reported earlier.
                    assert(r[k] == e);
                    assert(prev[j] == r[j]);
                    assert(!start.contains(prev[j])) by {
                        if start.contains(prev[j]) {
                            let q = choose|q: int| 0 <= q < start.len() && start[q] == prev[j];
                            assert(prev.subrange(0, start.len() as int)[q] == prev[q]);
                        }
                    }
                    lemma_new_name_reported(start, prev_ev, j);
                    let i = choose|i: int| 0 <= i < prev_ev.len() && prev_ev[i] == prev[j];
                    assert(events[i] == r[j]);
                    assert forall|m: int| 0 <= m <= i implies events[m] != r[k] by {
                        assert(events[m] == prev_ev[m]);
                        if prev_ev[m] == e {
                            assert(prev.contains(prev_ev[m]) || prev.len() == MAX_CAMERAS);
                        }
                    }
                }
            }
        } else {
            assert(r == prev);
            assert forall|j: int, k: int|
                start.len() <= j < k < r.len() implies seen_before(events, #[trigger] r[j], #[trigger] r[k]) by {
                assert(seen_before(prev_ev, prev[j], prev[k]));
                let i = choose|i: int|
                    0 <= i < prev_ev.len() && prev_ev[i] == prev[j] && forall|m: int|
                        0 <= m <= i ==> prev_ev[m] != prev[k];
                assert(events[i] == r[j]);
                assert forall|m: int| 0 <= m <= i implies events[m] != r[k] by {
                    assert(events[m] == prev_ev[m]);
                }
            }
        }
        assert forall|i: int| 0 <= i < events.len() implies r.contains(#[trigger] events[i])
            || r.len() == MAX_CAMERAS by {
            if i < prev_ev.len() {
                assert(events[i] == prev_ev[i]);
                if prev.contains(prev_ev[i]) {
                    let q = choose|q: int| 0 <= q < prev.len() && prev[q] == prev_ev[i];
                    assert(r[q] == prev[q]);
                }
            } else {
                if !(prev.contains(e) || prev.len() >= MAX_CAMERAS) {
                    assert(r[prev.len() as int] == e);
                }
            }
        }
    } else {
        assert(start.subrange(0, start.len() as int) =~= start);
    }
}

/// A name recorded after the first ones was reported at some point.
proof fn lemma_new_name_reported(start: Seq<Seq<char>>, events: Seq<Seq<char>>, j: int)
    requires
        start.len() <= j < names_after_stats(start, events).len(),
    ensures
        exists|i: int| 0 <= i < events.len() && events[i] == names_after_stats(start, events)[j],
    decreases events.len(),
{
    if events.len() > 0 {
        let prev_ev = events.drop_last();
        let prev = names_after_stats(start, prev_ev);
        if j < prev.len() {
            lemma_new_name_reported(start, prev_ev, j);
            let i = choose|i: int| 0 <= i < prev_ev.len() && prev_ev[i] == prev[j];
            assert(events[i] == prev_ev[i]);
            if !(prev.contains(events.last()) || prev.len() >= MAX_CAMERAS) {
                assert(names_after_stats(start, events)[j] == prev[j]);
            }
        } else {
            assert(events[events.len() - 1] == events.last());
        }
    }
}

/// `after` is `before` with the status report `(ip, lum)` applied.
pub open spec fn stat_applied(before: CameraInfo, after: CameraInfo, ip: Seq<char>, lum: u8) -> bool {
    &&& after.name == before.name
    &&& after.ip@ == ip
    &&& after.lum == lum
    &&& after.stream_id == before.stream_id
    &&& after.moves == before.moves
    &&& after.image == before.image
    &&& after.last_image == before.last_image
    &&& after.senders == before.senders
}

/// Lexicographic order on byte strings, a proper prefix first.
pub open spec fn bytes_lt(a: Seq<u8>, b: Seq<u8>) -> bool
    decreases a.len(),
{
    if a.len() == 0 {
        b.len() > 0
    } else if b.len() == 0 {
        false
    } else if a[0] != b[0] {
        a[0] < b[0]
    } else {
        bytes_lt(a.drop_first(), b.drop_first())
    }
}

/// The order of names: that of their UTF-8 bytes, which is the order of
/// `str`.
pub open spec fn name_lt(a: Seq<char>, b: Seq<char>) -> bool {
    bytes_lt(encode_utf8(a), encode_utf8(b))
}

proof fn lemma_bytes_lt_trans(a: Seq<u8>, b: Seq<u8>, c: Seq<u8>)
    requires
        bytes_lt(a, b),
        bytes_lt(b, c),
    ensures
        bytes_lt(a, c),
    decreases a.len(),
{
    if a.len() > 0 && b.len() > 0 && c.len() > 0 && a[0] == b[0] && b[0] == c[0] {
        lemma_bytes_lt_trans(a.drop_first(), b.drop_first(), c.drop_first());
    }
}

proof fn lemma_bytes_lt_total(a: Seq<u8>, b: Seq<u8>)
    requires
        a != b,
    ensures
        bytes_lt(a, b) || bytes_lt(b, a),
    decreases a.len(),
{
    if a.len() > 0 && b.len() > 0 && a[0] == b[0] {
        if a.drop_first() == b.drop_first() {
            assert(a =~= seq![a[0]] + a.drop_first());
            assert(b =~= seq![b[0]] + b.drop_first());
        }
        lemma_bytes_lt_total(a.drop_first(), b.drop_first());
    } else if a.len() == 0 && b.len() == 0 {
        assert(a =~= b);
    }
}

/// Whether `a` comes before `b` in byte order.
fn bytes_less(a: &[u8], b: &[u8]) -> (r: bool)
    ensures
        r == bytes_lt(a@, b@),
{
    let mut i: usize = 0;
    assert(a@.skip(0) =~= a@ && b@.skip(0) =~= b@);
    while i < a.len() && i < b.len() && a[i] == b[i]
        invariant
            i <= a@.len(),
            i <= b@.len(),
            bytes_lt(a@, b@) == bytes_lt(a@.skip(i as int), b@.skip(i as int)),
        decreases a@.len() - i,
    {
        proof {
            assert(a@.skip(i as int).drop_first() =~= a@.skip(i + 1));
            assert(b@.skip(i as int).drop_first() =~= b@.skip(i + 1));
        }
        i = i + 1;
    }
    if i == a.len() {
        i < b.len()
    } else if i == b.len() {
        false
    } else {
        a[i] < b[i]
    }
}

/// Whether name `a` comes before name `b`.
fn name_less(a: &String, b: &String) -> (r: bool)
    ensures
        r == name_lt(a@, b@),
{
    bytes_less(a.as_str().as_bytes(), b.as_str().as_bytes())
}

/// Whether camera `c` stands in the listing `r`.
pub open spec fn listed(r: Seq<&CameraInfo>, c: CameraInfo) -> bool {
    exists|i: int| 0 <= i < r.len() && *r[i] == c
}

/// Every camera has a distinct name, the n-th first seen holds stream id n,
/// and no two viewers of a camera share an id.
pub open spec fn registry_wf(cams: Seq<CameraInfo>) -> bool {
    &&& cams.len() <= MAX_CAMERAS
    &&& names_of(cams).no_duplicates()
    &&& forall|i: int|
        #![trigger cams[i]]
        0 <= i < cams.len() ==> cams[i].stream_id == i + 1 && cams[i].wf()
}

/// The position of the camera named `name`.
fn find_name(cams: &Vec<CameraInfo>, name: &String) -> (r: Option<usize>)
    requires
        registry_wf(cams@),
    ensures
        r is None <==> !names_of(cams@).contains(name@),
        r matches Some(i) ==> i < cams@.len() && cams@[i as int].name@ == name@ && i
            == names_of(cams@).index_of(name@),
{
    let mut i: usize = 0;
    while i < cams.len()
        invariant
            registry_wf(cams@),
            i <= cams@.len(),
            forall|j: int| 0 <= j < i ==> cams@[j].name@ != name@,
        decreases cams@.len() - i,
    {
        if cams[i].name == *name {
            proof {
                let ns = names_of(cams@);
                assert(ns[i as int] == name@);
                assert(ns.contains(name@));
                let k = ns.index_of(name@);
                assert(0 <= k < ns.len() && ns[k] == name@);
                assert(ns.no_duplicates());
                assert(k == i as int);
            }
            return Some(i);
        }
        i = i + 1;
    }
    proof {
        let ns = names_of(cams@);
        if ns.contains(name@) {
            let k = choose|k: int| 0 <= k < ns.len() && ns[k] == name@;
            assert(cams@[k].name@ == name@);
        }
    }
    None
}

/// Appends a new camera with the next stream id.
fn add_camera(cams: &mut Vec<CameraInfo>, name: &str) -> (r: u8)
    requires
        registry_wf(old(cams)@),
        !names_of(old(cams)@).contains(name@),
        old(cams)@.len() < MAX_CAMERAS,
    ensures
        registry_wf(final(cams)@),
        r == old(cams)@.len() + 1,
        final(cams)@.len() == old(cams)@.len() + 1,
        final(cams)@.drop_last() == old(cams)@,
        names_of(final(cams)@) == names_of(old(cams)@).push(name@),
        final(cams)@.last().stream_id == r,
        final(cams)@.last().name@ == name@,
        final(cams)@.last().ip@.len() == 0,
        final(cams)@.last().lum == 0,
        final(cams)@.last().last_image == 0,
        final(cams)@.last().moves@.len() == 0,
        final(cams)@.last().image@.len() == 0,
        final(cams)@.last().senders@.len() == 0,
{
    let new_stream_id = (cams.len() + 1) as u8;
    let cam = CameraInfo::new(name, new_stream_id);
    cams.push(cam);
    proof {
        let ns = names_of(cams@);
        let olds = names_of(old(cams)@);
        assert(cams@.drop_last() =~= old(cams)@);
        assert(ns =~= olds.push(name@));
        assert forall|i: int, j: int|
            0 <= i < ns.len() && 0 <= j < ns.len() && i != j implies ns[i] != ns[j] by {
            if i == ns.len() - 1 {
                assert(olds[j] == ns[j]);
            } else if j == ns.len() - 1 {
                assert(olds[i] == ns[i]);
            }
        }
    }
    new_stream_id
}

/// Replacing one camera by another with the same name and stream id, itself
/// well formed, keeps the registry well formed.
proof fn lemma_update_keeps_wf(cams: Seq<CameraInfo>, i: int, c: CameraInfo)
    requires
        registry_wf(cams),
        0 <= i < cams.len(),
        c.name == cams[i].name,
        c.stream_id == cams[i].stream_id,
        c.wf(),
    ensures
        registry_wf(cams.update(i, c)),
        names_of(cams.update(i, c)) == names_of(cams),
{
    assert(names_of(cams.update(i, c)) =~= names_of(cams));
}

/// All cameras, in the order they were first seen.
pub struct CamerasState {
    cameras: Vec<CameraInfo>,
}

impl CamerasState {
    #[verifier::type_invariant]
    closed spec fn inv(&self) -> bool {
        registry_wf(self.cameras@)
    }

    /// The cameras in the order they were first seen.
    pub closed spec fn cameras(&self) -> Seq<CameraInfo> {
        self.cameras@
    }

    pub open spec fn names(&self) -> Seq<Seq<char>> {
        names_of(self.cameras())
    }

    /// The position of camera `name`, when there is one.
    pub open spec fn index_of(&self, name: Seq<char>) -> int {
        self.names().index_of(name)
    }

    pub fn new() -> (r: Self)
        ensures
            registry_wf(r.cameras()),
            r.cameras().len() == 0,
    {
        CamerasState { cameras: Vec::new() }
    }

    pub fn len(&self) -> (r: usize)
        ensures
            r == self.cameras().len(),
    {
        self.cameras.len()
    }

    /// The camera named `name`.
    pub fn camera(&self, name: &str) -> (r: Option<&CameraInfo>)
        ensures
            r is None <==> !self.names().contains(name@),
            r matches Some(c) ==> *c == self.cameras()[self.index_of(name@)],
    {
        proof {
            use_type_invariant(self);
        }
        let key = name.to_owned();
        match find_name(&self.cameras, &key) {
            Some(i) => Some(&self.cameras[i]),
            None => None,
        }
    }

    /// The camera that holds stream id `stream_id`.
    pub fn camera_by_stream_id(&self, stream_id: u8) -> (r: Option<&CameraInfo>)
        ensures
            r is None <==> !(1 <= stream_id <= self.cameras().len()),
            r matches Some(c) ==> *c == self.cameras()[stream_id - 1],
    {
        if 1 <= stream_id && (stream_id as usize) <= self.cameras.len() {
            Some(&self.cameras[stream_id as usize - 1])
        } else {
            None
        }
    }

    /// Records a status report: creates camera `name` with the next stream
    /// id when it is new, then sets its address and brightness. Returns the
    /// camera's stream id; `None`, changing nothing, when `name` is new and
    /// the registry already holds `MAX_CAMERAS` cameras.
    pub fn set_camera_stat(&mut self, name: &str, ip: &str, lum: u8) -> (r: Option<u8>)
        ensures
            registry_wf(final(self).cameras()),
            final(self).names() == after_stat(old(self).names(), name@),
            old(self).names().contains(name@) ==> {
                let i = old(self).index_of(name@);
                &&& r == Some(old(self).cameras()[i].stream_id)
                &&& stat_applied(old(self).cameras()[i], final(self).cameras()[i], ip@, lum)
                &&& final(self).cameras() == old(self).cameras().update(i, final(self).cameras()[i])
            },
            !old(self).names().contains(name@) && old(self).cameras().len() < MAX_CAMERAS ==> {
                let n = old(self).cameras().len() as int;
                &&& r == Some((n + 1) as u8)
                &&& final(self).cameras().len() == n + 1
                &&& final(self).cameras().drop_last() == old(self).cameras()
                &&& final(self).cameras()[n].name@ == name@
                &&& final(self).cameras()[n].ip@ == ip@
                &&& final(self).cameras()[n].lum == lum
                &&& final(self).cameras()[n].stream_id == n + 1
                &&& final(self).cameras()[n].moves@.len() == 0
                &&& final(self).cameras()[n].image@.len() == 0
                &&& final(self).cameras()[n].last_image == 0
                &&& final(self).cameras()[n].senders@.len() == 0
            },
            !old(self).names().contains(name@) && old(self).cameras().len() >= MAX_CAMERAS ==> r
                is None && final(self).cameras() == old(self).cameras(),
    {
        proof {
            use_type_invariant(&*self);
        }
        let key = name.to_owned();
        let mut cams: Vec<CameraInfo> = Vec::new();
        std::mem::swap(&mut cams, &mut self.cameras);
        let r = match find_name(&cams, &key) {
            Some(i) => {
                let cam = &mut cams[i];
                cam.ip = ip.to_owned();
                cam.lum = lum;
                proof {
                    assert(names_of(cams@) =~= names_of(old(self).cameras@));
                }
                Some(cams[i].stream_id)
            },
            None => {
                if cams.len() >= MAX_CAMERAS {
                    None
                } else {
                    let id = add_camera(&mut cams, name);
                    let ghost added = cams@;
                    let last = cams.len() - 1;
                    let cam = &mut cams[last];
                    cam.ip = ip.to_owned();
                    cam.lum = lum;
                    proof {
                        assert(cams@ == added.update(last as int, cams@[last as int]));
                        assert(cams@.drop_last() =~= added.drop_last());
                        assert(names_of(cams@) =~= names_of(added));
                        assert(names_of(cams@)[last as int] == name@);
                    }
                    Some(id)
                }
            },
        };
        self.cameras = cams;
        r
    }

    /// Appends a movement at time `at` (or at its last logged time, if that
    /// is later) to camera `name`. Returns whether the
    /// camera is known; an unknown name changes nothing.
    pub fn record_movement_at(&mut self, name: &str, at: i64) -> (r: bool)
        ensures
            registry_wf(final(self).cameras()),
            r == old(self).names().contains(name@),
            !r ==> final(self).cameras() == old(self).cameras(),
            r ==> {
                let i = old(self).index_of(name@);
                let (a, b) = (old(self).cameras()[i], final(self).cameras()[i]);
                &&& final(self).cameras() == old(self).cameras().update(i, b)
                &&& b.moves@ == a.moves@.push(next_stamp(a.moves@, at))
                &&& b.name == a.name && b.ip == a.ip && b.stream_id == a.stream_id
                &&& b.lum == a.lum && b.image == a.image && b.last_image == a.last_image
                &&& b.senders == a.senders
            },
    {
        proof {
            use_type_invariant(&*self);
        }
        let key = name.to_owned();
        let mut cams: Vec<CameraInfo> = Vec::new();
        std::mem::swap(&mut cams, &mut self.cameras);
        let r = match find_name(&cams, &key) {
            Some(i) => {
                let ghost before = cams@;
                cams[i].record_movement_at(at);
                proof {
                    lemma_update_keeps_wf(before, i as int, cams@[i as int]);
                    assert(cams@ == before.update(i as int, cams@[i as int]));
                }
                true
            },
            None => false,
        };
        self.cameras = cams;
        r
    }

    /// Appends a movement at the current time to camera `name`. Returns
    /// whether the camera is known; an unknown name changes nothing.
    pub fn record_movement(&mut self, name: &str) -> (r: bool)
        ensures
            registry_wf(final(self).cameras()),
            r == old(self).names().contains(name@),
            !r ==> final(self).cameras() == old(self).cameras(),
            r ==> {
                let i = old(self).index_of(name@);
                let (a, b) = (old(self).cameras()[i], final(self).cameras()[i]);
                &&& final(self).cameras() == old(self).cameras().update(i, b)
                &&& b.moves@.drop_last() == a.moves@
                &&& b.moves@.len() == a.moves@.len() + 1
                &&& b.name == a.name && b.ip == a.ip && b.stream_id == a.stream_id
                &&& b.lum == a.lum && b.image == a.image && b.last_image == a.last_image
                &&& b.senders == a.senders
            },
    {
        let at = now_millis();
        let r = self.record_movement_at(name, at);
        proof {
            if r {
                let i = old(self).index_of(name@);
                assert(self.cameras()[i].moves@.drop_last() =~= old(self).cameras()[i].moves@);
            }
        }
        r
    }

    /// Adds an empty delivery queue of `capacity` frames for viewer `id` of
    /// camera `name`. Returns false, changing nothing, when the camera is
    /// unknown or already has a viewer with that id.
    pub fn add_sender(&mut self, name: &str, id: u64, capacity: usize) -> (r: bool)
        ensures
            registry_wf(final(self).cameras()),
            r == (old(self).names().contains(name@) && !has_viewer(
                old(self).cameras()[old(self).index_of(name@)].senders@,
                id,
            )),
            !r ==> final(self).cameras() == old(self).cameras(),
            r ==> {
                let i = old(self).index_of(name@);
                let (a, b) = (old(self).cameras()[i], final(self).cameras()[i]);
                &&& final(self).cameras() == old(self).cameras().update(i, b)
                &&& b.senders@.drop_last() == a.senders@
                &&& b.senders@.len() == a.senders@.len() + 1
                &&& b.senders@.last().id == id
                &&& b.senders@.last().capacity == capacity
                &&& b.senders@.last().pending@.len() == 0
                &&& b.name == a.name && b.ip == a.ip && b.stream_id == a.stream_id
                &&& b.lum == a.lum && b.image == a.image && b.last_image == a.last_image
                &&& b.moves == a.moves
            },
    {
        proof {
            use_type_invariant(&*self);
        }
        let key = name.to_owned();
        let mut cams: Vec<CameraInfo> = Vec::new();
        std::mem::swap(&mut cams, &mut self.cameras);
        let r = match find_name(&cams, &key) {
            Some(i) => {
                let ghost before = cams@;
                let added = cams[i].add_sender(id, capacity);
                proof {
                    lemma_update_keeps_wf(before, i as int, cams@[i as int]);
                    assert(cams@ == before.update(i as int, cams@[i as int]));
                    if !added {
                        assert(cams@ =~= before);
                    }
                }
                added
            },
            None => false,
        };
        self.cameras = cams;
        r
    }

    /// Removes the delivery queue of viewer `id` from camera `name`. Returns
    /// whether there was one.
    pub fn remove_sender(&mut self, name: &str, id: u64) -> (r: bool)
        ensures
            registry_wf(final(self).cameras()),
            r == (old(self).names().contains(name@) && has_viewer(
                old(self).cameras()[old(self).index_of(name@)].senders@,
                id,
            )),
            !old(self).names().contains(name@) ==> final(self).cameras() == old(self).cameras(),
            old(self).names().contains(name@) ==> {
                let i = old(self).index_of(name@);
                let (a, b) = (old(self).cameras()[i], final(self).cameras()[i]);
                &&& final(self).cameras() == old(self).cameras().update(i, b)
                &&& !has_viewer(b.senders@, id)
                &&& forall|v: Viewer| b.senders@.contains(v) <==> a.senders@.contains(v) && v.id != id
                &&& removed_viewer(a.senders@, b.senders@, id)
                &&& b.name == a.name && b.ip == a.ip && b.stream_id == a.stream_id
                &&& b.lum == a.lum && b.image == a.image && b.last_image == a.last_image
                &&& b.moves == a.moves
            },
    {
        proof {
            use_type_invariant(&*self);
        }
        let key = name.to_owned();
        let mut cams: Vec<CameraInfo> = Vec::new();
        std::mem::swap(&mut cams, &mut self.cameras);
        let r = match find_name(&cams, &key) {
            Some(i) => {
                let ghost before = cams@;
                let removed = cams[i].remove_sender(id);
                proof {
                    lemma_update_keeps_wf(before, i as int, cams@[i as int]);
                    assert(cams@ == before.update(i as int, cams@[i as int]));
                }
                removed
            },
            None => false,
        };
        self.cameras = cams;
        r
    }

    /// Takes the frames waiting for viewer `id` of camera `name`, oldest
    /// first, leaving its queue empty; `None`, changing nothing, when there is
    /// no such camera or viewer.
    pub fn take_frames(&mut self, name: &str, id: u64) -> (r: Option<Vec<Vec<u8>>>)
        ensures
            registry_wf(final(self).cameras()),
            r is Some <==> (old(self).names().contains(name@) && has_viewer(
                old(self).cameras()[old(self).index_of(name@)].senders@,
                id,
            )),
            r is None ==> final(self).cameras() == old(self).cameras(),
            r matches Some(frames) ==> {
                let i = old(self).index_of(name@);
                let (a, b) = (old(self).cameras()[i], final(self).cameras()[i]);
                &&& final(self).cameras() == old(self).cameras().update(i, b)
                &&& exists|k: int|
                    0 <= k < a.senders@.len() && a.senders@[k].id == id && queued(frames@)
                        == queued(a.senders@[k].pending@) && b.senders@ == a.senders@.update(
                        k,
                        Viewer { pending: b.senders@[k].pending, ..a.senders@[k] },
                    ) && b.senders@[k].pending@.len() == 0
                &&& b.name == a.name && b.ip == a.ip && b.stream_id == a.stream_id
                &&& b.lum == a.lum && b.image == a.image && b.last_image == a.last_image
                &&& b.moves == a.moves
            },
    {
        proof {
            use_type_invariant(&*self);
        }
        let key = name.to_owned();
        let mut cams: Vec<CameraInfo> = Vec::new();
        std::mem::swap(&mut cams, &mut self.cameras);
        let r = match find_name(&cams, &key) {
            Some(i) => {
                let ghost before = cams@;
                let frames = cams[i].take_frames(id);
                proof {
                    if frames is Some {
                        let k = choose|k: int|
                            0 <= k < before[i as int].senders@.len() && before[i as int].senders@[k].id
                                == id && queued(frames->0@) == queued(
                                before[i as int].senders@[k].pending@,
                            ) && cams@[i as int].senders@ == before[i as int].senders@.update(
                                k,
                                Viewer {
                                    pending: cams@[i as int].senders@[k].pending,
                                    ..before[i as int].senders@[k]
                                },
                            ) && cams@[i as int].senders@[k].pending@.len() == 0;
                        let vs = cams@[i as int].senders@;
                        assert forall|x: int, y: int|
                            0 <= x < vs.len() && 0 <= y < vs.len() && x != y implies vs[x].id
                            != vs[y].id by {
                            assert(before[i as int].senders@[x].id == vs[x].id);
                            assert(before[i as int].senders@[y].id == vs[y].id);
                        }
                    }
                    lemma_update_keeps_wf(before, i as int, cams@[i as int]);
                    assert(cams@ == before.update(i as int, cams@[i as int]));
                    if frames is None {
                        assert(cams@ =~= before);
                    }
                }
                frames
            },
            None => None,
        };
        self.cameras = cams;
        r
    }

    /// Stores `frame` as the latest image of the camera that holds stream id
    /// `stream_id`, stamped with the later of `at` and its current stamp, and offers it to each of its viewers' queues.
    /// Returns whether such a camera exists; frames for an unknown stream id
    /// are dropped.
    pub fn publish_frame(&mut self, stream_id: u8, frame: Vec<u8>, at: i64) -> (r: bool)
        ensures
            registry_wf(final(self).cameras()),
            final(self).names() == old(self).names(),
            r == (1 <= stream_id <= old(self).cameras().len()),
            !r ==> final(self).cameras() == old(self).cameras(),
            r ==> {
                let i = stream_id - 1;
                let (a, b) = (old(self).cameras()[i], final(self).cameras()[i]);
                &&& final(self).cameras() == old(self).cameras().update(i, b)
                &&& b.image@ == frame@
                &&& b.last_image == later(a.last_image, at)
                &&& delivered(a.senders@, b.senders@, frame@)
                &&& b.name == a.name && b.ip == a.ip && b.stream_id == a.stream_id
                &&& b.lum == a.lum && b.moves == a.moves
            },
    {
        proof {
            use_type_invariant(&*self);
        }
        if stream_id == 0 || stream_id as usize > self.cameras.len() {
            return false;
        }
        let i = stream_id as usize - 1;
        let mut cams: Vec<CameraInfo> = Vec::new();
        std::mem::swap(&mut cams, &mut self.cameras);
        let ghost before = cams@;
        cams[i].publish(frame, at);
        proof {
            let vs = cams@[i as int].senders@;
            let olds = before[i as int].senders@;
            assert forall|x: int, y: int|
                0 <= x < vs.len() && 0 <= y < vs.len() && x != y implies vs[x].id != vs[y].id by {
                assert(olds[x].id == vs[x].id);
                assert(olds[y].id == vs[y].id);
            }
            lemma_update_keeps_wf(before, i as int, cams@[i as int]);
            assert(cams@ == before.update(i as int, cams@[i as int]));
        }
        self.cameras = cams;
        true
    }

    /// All cameras, ordered by name.
    pub fn get_all_cameras(&self) -> (r: Vec<&CameraInfo>)
        ensures
            r@.len() == self.cameras().len(),
            forall|i: int, j: int|
                0 <= i < j < r@.len() ==> name_lt(#[trigger] r@[i].name@, #[trigger] r@[j].name@),
            forall|k: int| 0 <= k < self.cameras().len() ==> listed(r@, #[trigger] self.cameras()[k]),
            forall|i: int| 0 <= i < r@.len() ==> self.cameras().contains(*#[trigger] r@[i]),
    {
        proof {
            use_type_invariant(self);
        }
        let cams = &self.cameras;
        let ghost ns = names_of(cams@);
        let mut order: Vec<usize> = Vec::new();
        let mut n: usize = 0;
        while n < cams.len()
            invariant
                registry_wf(cams@),
                ns == names_of(cams@),
                n <= cams@.len(),
                order@.len() == n,
                forall|i: int| 0 <= i < n ==> order@[i] < n,
                forall|k: usize| k < n ==> #[trigger] order@.contains(k),
                forall|i: int, j: int|
                    0 <= i < j < n ==> name_lt(
                        #[trigger] cams@[order@[i] as int].name@,
                        #[trigger] cams@[order@[j] as int].name@,
                    ),
            decreases cams@.len() - n,
        {
            let mut p: usize = 0;
            while p < order.len() && name_less(&cams[order[p]].name, &cams[n].name)
                invariant
                    registry_wf(cams@),
                    n < cams@.len(),
                    p <= order@.len(),
                    order@.len() == n,
                    forall|i: int| 0 <= i < n ==> order@[i] < n,
                    forall|i: int|
                        0 <= i < p ==> name_lt(
                            #[trigger] cams@[order@[i] as int].name@,
                            cams@[n as int].name@,
                        ),
                decreases order@.len() - p,
            {
                p = p + 1;
            }
            proof {
                let x = cams@[n as int].name@;
                if p < n {
                    let y = cams@[order@[p as int] as int].name@;
                    assert(ns[n as int] == x);
                    assert(ns[order@[p as int] as int] == y);
                    assert(x != y);
                    if encode_utf8(x) == encode_utf8(y) {
                        encode_utf8_decode_utf8(x);
                        encode_utf8_decode_utf8(y);
                    }
                    lemma_bytes_lt_total(encode_utf8(x), encode_utf8(y));
                    assert forall|j: int| p <= j < n implies name_lt(
                        x,
                        #[trigger] cams@[order@[j] as int].name@,
                    ) by {
                        if j > p {
                            lemma_bytes_lt_trans(
                                encode_utf8(x),
                                encode_utf8(y),
                                encode_utf8(cams@[order@[j] as int].name@),
                            );
                        }
                    }
                }
            }
            let ghost old_order = order@;
            order.insert(p, n);
            proof {
                assert forall|i: int, j: int|
                    0 <= i < j < n + 1 implies name_lt(
                    #[trigger] cams@[order@[i] as int].name@,
                    #[trigger] cams@[order@[j] as int].name@,
                ) by {
                    if i < p && j < p {
                        assert(order@[i] == old_order[i] && order@[j] == old_order[j]);
                    } else if i < p && j == p {
                    } else if i < p {
                        assert(order@[j] == old_order[j - 1]);
                        lemma_bytes_lt_trans(
                            encode_utf8(cams@[order@[i] as int].name@),
                            encode_utf8(cams@[n as int].name@),
                            encode_utf8(cams@[order@[j] as int].name@),
                        );
                    } else if i == p {
                        assert(order@[j] == old_order[j - 1]);
                    } else {
                        assert(order@[i] == old_order[i - 1] && order@[j] == old_order[j - 1]);
                    }
                }
                assert forall|k: usize| k < n + 1 implies #[trigger] order@.contains(k) by {
                    if k == n {
                        assert(order@[p as int] == k);
                    } else {
                        assert(old_order.contains(k));
                        let q = choose|q: int| 0 <= q < old_order.len() && old_order[q] == k;
                        if q < p {
                            assert(order@[q] == k);
                        } else {
                            assert(order@[q + 1] == k);
                        }
                    }
                }
                assert forall|i: int| 0 <= i < n + 1 implies order@[i] < n + 1 by {
                    if i < p {
                        assert(order@[i] == old_order[i]);
                    } else if i > p {
                        assert(order@[i] == old_order[i - 1]);
                    }
                }
            }
            n = n + 1;
        }
        let mut r: Vec<&CameraInfo> = Vec::new();
        let mut i: usize = 0;
        while i < order.len()
            invariant
                order@.len() == cams@.len(),
                forall|k: usize| k < cams@.len() ==> #[trigger] order@.contains(k),
                forall|j: int| 0 <= j < order@.len() ==> order@[j] < cams@.len(),
                i <= order@.len(),
                r@.len() == i,
                forall|j: int| 0 <= j < i ==> *r@[j] == cams@[order@[j] as int],
            decreases order@.len() - i,
        {
            r.push(&cams[order[i]]);
            i = i + 1;
        }
        proof {
            assert(self.cameras() == cams@);
            assert forall|k: int| 0 <= k < self.cameras().len() implies listed(r@, #[trigger] self.cameras()[k]) by {
                assert(order@.contains(k as usize));
                let q = choose|q: int| 0 <= q < order@.len() && order@[q] == k as usize;
                assert(*r@[q] == cams@[k]);
            }
            assert forall|i: int| 0 <= i < r@.len() implies self.cameras().contains(*#[trigger] r@[i]) by {
                assert(*r@[i] == self.cameras()[order@[i] as int]);
            }
            assert forall|i: int, j: int|
                0 <= i < j < r@.len() implies name_lt(#[trigger] r@[i].name@, #[trigger] r@[j].name@) by {
                assert(*r@[i] == cams@[order@[i] as int]);
                assert(*r@[j] == cams@[order@[j] as int]);
            }
        }
        r
    }
}

impl StreamReceiverState for CamerasState {
    /// A frame of a known stream becomes its camera's image, with a stamp
    /// that does not go back, and is offered once to each of its viewers'
    /// queues; nothing else changes. A frame of an unknown stream changes
    /// nothing.
    open spec fn took_frame(&self, stream_id: u8, data: Seq<u8>, after: Self) -> bool {
        if 1 <= stream_id <= self.cameras().len() {
            let i = stream_id - 1;
            let (a, b) = (self.cameras()[i], after.cameras()[i]);
            &&& after.cameras() == self.cameras().update(i, b)
            &&& b.image@ == data
            &&& b.last_image >= a.last_image
            &&& delivered(a.senders@, b.senders@, data)
            &&& b.name == a.name && b.ip == a.ip && b.stream_id == a.stream_id
            &&& b.lum == a.lum && b.moves == a.moves
        } else {
            after.cameras() == self.cameras()
        }
    }

    /// Publishes a completed frame, stamped with the current time.
    fn set_stream_image(&mut self, stream_id: u8, data: Vec<u8>) {
        let at = now_millis();
        let _ = self.publish_frame(stream_id, data, at);
    }
}

} // verus!
