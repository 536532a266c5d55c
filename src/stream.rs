//! Reassembly of camera frames from the chunked UDP stream.
//!
//! Each datagram carries a four-byte header (stream id, image id, and a
//! big-endian chunk index) followed by image bytes that belong at offset
//! `chunk index * CHUNK_SIZE` of the frame. A change of image id on a stream
//! completes the frame accumulated so far.

use vstd::prelude::*;

verus! {

/// Bytes of image data that one chunk index stands for.
pub const CHUNK_SIZE: usize = 500;

/// Length of the datagram header.
pub const HEADER_LEN: usize = 4;

/// Capacity of a datagram of the stream.
pub const DATAGRAM_CAPACITY: usize = 520;

/// `buf` grown with zeros to at least `offset + data.len()` bytes, with
/// `data` copied in at `offset`.
pub open spec fn place_chunk(buf: Seq<u8>, offset: int, data: Seq<u8>) -> Seq<u8> {
    let end = offset + data.len();
    let len = if buf.len() < end { end } else { buf.len() as int };
    Seq::new(
        len as nat,
        |i: int|
            if offset <= i < end {
                data[i - offset]
            } else if i < buf.len() {
                buf[i]
            } else {
                0u8
            },
    )
}

/// The contents of an optional byte vector.
pub open spec fn bytes_view(o: Option<Vec<u8>>) -> Option<Seq<u8>> {
    match o {
        Some(v) => Some(v@),
        None => None,
    }
}

/// Byte offset in the frame of the chunk with index `chunk`.
pub open spec fn chunk_offset(chunk: u16) -> int {
    chunk as int * CHUNK_SIZE as int
}

/// The buffer of a stream after a chunk: `(image id, bytes)`.
pub open spec fn next_buffer(prev: Option<(u8, Seq<u8>)>, img_id: u8, chunk: u16, data: Seq<u8>) -> (
    u8,
    Seq<u8>,
) {
    match prev {
        Some((id, bytes)) if id == img_id => (id, place_chunk(bytes, chunk_offset(chunk), data)),
        _ => (img_id, place_chunk(Seq::empty(), chunk_offset(chunk), data)),
    }
}

/// The frame that a chunk completes: the bytes gathered under the previous
/// image id of the stream, when the chunk carries another one.
pub open spec fn completed_frame(prev: Option<(u8, Seq<u8>)>, img_id: u8) -> Option<Seq<u8>> {
    match prev {
        Some((id, bytes)) if id != img_id => Some(bytes),
        _ => None,
    }
}

/// The parts of one datagram of the stream.
pub struct Datagram {
    pub stream_id: u8,
    pub img_id: u8,
    pub packet_id: u16,
    pub payload: Vec<u8>,
}

/// Splits a received datagram into its header fields and payload; `None`
/// when it is shorter than the header.
pub fn parse_datagram(buf: &[u8]) -> (r: Option<Datagram>)
    ensures
        buf@.len() < HEADER_LEN <==> r is None,
        r matches Some(d) ==> {
            &&& d.stream_id == buf@[0]
            &&& d.img_id == buf@[1]
            &&& d.packet_id == buf@[2] as int * 256 + buf@[3] as int
            &&& d.payload@ == buf@.subrange(HEADER_LEN as int, buf@.len() as int)
        },
{
    if buf.len() < HEADER_LEN {
        return None;
    }
    let packet_id: u16 = (buf[2] as u16) * 256 + (buf[3] as u16);
    let mut payload: Vec<u8> = Vec::new();
    let mut i: usize = HEADER_LEN;
    while i < buf.len()
        invariant
            HEADER_LEN <= i <= buf@.len(),
            payload@ == buf@.subrange(HEADER_LEN as int, i as int),
        decreases buf@.len() - i,
    {
        payload.push(buf[i]);
        i = i + 1;
    }
    Some(Datagram { stream_id: buf[0], img_id: buf[1], packet_id, payload })
}

/// Receives the frames that the reassembly completes.
pub trait StreamReceiverState: Sized {
    /// Whether `after` is this state once it has taken frame `data` of
    /// stream `stream_id`. A state that says nothing of its frames keeps
    /// this default.
    open spec fn took_frame(&self, stream_id: u8, data: Seq<u8>, after: Self) -> bool {
        true
    }

    fn set_stream_image(&mut self, stream_id: u8, data: Vec<u8>)
        ensures
            old(self).took_frame(stream_id, data@, *final(self)),
    ;
}

/// The frame being gathered for one stream.
struct StreamImage {
    id: u8,
    bytes: Vec<u8>,
}

/// The reassembly buffers, in slots indexed by stream id.
pub struct FrameAssembler {
    images: Vec<Option<StreamImage>>,
}

impl FrameAssembler {
    /// The buffer of each stream seen so far: its image id and bytes.
    pub closed spec fn buffers(&self) -> Map<u8, (u8, Seq<u8>)> {
        Map::new(
            |s: u8| s < self.images@.len() && self.images@[s as int] is Some,
            |s: u8| (self.images@[s as int]->0.id, self.images@[s as int]->0.bytes@),
        )
    }

    /// An assembler that has seen no datagram.
    pub fn new() -> (r: Self)
        ensures
            r.buffers() == Map::<u8, (u8, Seq<u8>)>::empty(),
    {
        let r = FrameAssembler { images: Vec::new() };
        assert(r.buffers() =~= Map::<u8, (u8, Seq<u8>)>::empty());
        r
    }

    /// Takes one chunk of stream `stream_id`. Returns the frame that it
    /// completes, if its image id differs from the one being gathered.
    pub fn accept(&mut self, stream_id: u8, img_id: u8, packet_id: u16, data: &[u8]) -> (r: Option<Vec<u8>>)
        requires
            chunk_offset(packet_id) + data@.len() <= usize::MAX,
        ensures
            final(self).buffers() == old(self).buffers().insert(
                stream_id,
                next_buffer(old(self).buffers().get(stream_id), img_id, packet_id, data@),
            ),
            bytes_view(r) == completed_frame(old(self).buffers().get(stream_id), img_id),
    {
        let slot = stream_id as usize;
        while self.images.len() <= slot
            invariant
                self.buffers() == old(self).buffers(),
            decreases slot + 1 - self.images@.len(),
        {
            self.images.push(None);
            assert(self.buffers() =~= old(self).buffers());
        }
        let ghost grown = self.buffers();
        let mut taken: Option<StreamImage> = None;
        self.images.set_and_swap(slot, &mut taken);
        let (id, prev_bytes, done) = match taken {
            Some(img) => {
                if img.id != img_id {
                    (img_id, Vec::new(), Some(img.bytes))
                } else {
                    (img.id, img.bytes, None)
                }
            },
            None => (img_id, Vec::new(), None),
        };
        let start: usize = packet_id as usize * CHUNK_SIZE;
        let bytes = place(prev_bytes, start, data);
        self.images.set(slot, Some(StreamImage { id, bytes }));
        proof {
            let nb = next_buffer(grown.get(stream_id), img_id, packet_id, data@);
            assert(self.buffers() =~= grown.insert(stream_id, nb));
        }
        done
    }
}

/// Copies `data` into `buf` at `start`, growing it with zeros as needed.
fn place(buf: Vec<u8>, start: usize, data: &[u8]) -> (r: Vec<u8>)
    requires
        start + data@.len() <= usize::MAX,
    ensures
        r@ == place_chunk(buf@, start as int, data@),
{
    let mut bytes = buf;
    let end: usize = start + data.len();
    while bytes.len() < end
        invariant
            end == start + data@.len(),
            bytes@.len() <= if buf@.len() < end { end as int } else { buf@.len() as int },
            buf@.len() <= bytes@.len(),
            forall|i: int| 0 <= i < buf@.len() ==> bytes@[i] == buf@[i],
            forall|i: int| buf@.len() <= i < bytes@.len() ==> bytes@[i] == 0u8,
        decreases end - bytes@.len(),
    {
        bytes.push(0u8);
    }
    let mut i: usize = 0;
    while i < data.len()
        invariant
            end == start + data@.len(),
            i <= data@.len(),
            bytes@.len() == (if buf@.len() < end { end as int } else { buf@.len() as int }),
            forall|j: int|
                0 <= j < bytes@.len() ==> bytes@[j] == if start <= j < start + i {
                    data@[j - start]
                } else if j < buf@.len() {
                    buf@[j]
                } else {
                    0u8
                },
        decreases data@.len() - i,
    {
        bytes.set(start + i, data[i]);
        i = i + 1;
    }
    assert(bytes@ =~= place_chunk(buf@, start as int, data@));
    bytes
}

/// Reassembles frames and hands each completed one to its state.
pub struct StreamReceiver<T: StreamReceiverState> {
    pub state: T,
    assembler: FrameAssembler,
}

impl<T: StreamReceiverState> StreamReceiver<T> {
    pub closed spec fn buffers(&self) -> Map<u8, (u8, Seq<u8>)> {
        self.assembler.buffers()
    }

    /// The state that completed frames are handed to.
    pub closed spec fn target(&self) -> T {
        self.state
    }

    pub fn new(state: T) -> (r: Self)
        ensures
            r.target() == state,
            r.buffers() == Map::<u8, (u8, Seq<u8>)>::empty(),
    {
        StreamReceiver { state, assembler: FrameAssembler::new() }
    }

    /// Takes one chunk; when it completes a frame, the frame goes to the
    /// state's `set_stream_image` before the chunk is stored.
    pub fn recv_bytes(&mut self, stream_id: u8, img_id: u8, packet_id: u16, data: &[u8])
        requires
            chunk_offset(packet_id) + data@.len() <= usize::MAX,
        ensures
            final(self).buffers() == old(self).buffers().insert(
                stream_id,
                next_buffer(old(self).buffers().get(stream_id), img_id, packet_id, data@),
            ),
            completed_frame(old(self).buffers().get(stream_id), img_id) is None ==> final(self).target()
                == old(self).target(),
            completed_frame(old(self).buffers().get(stream_id), img_id) matches Some(f)
                ==> old(self).target().took_frame(stream_id, f, final(self).target()),
    {
        let done = self.assembler.accept(stream_id, img_id, packet_id, data);
        match done {
            Some(frame) => self.state.set_stream_image(stream_id, frame),
            None => {},
        }
    }
}

} // verus!
