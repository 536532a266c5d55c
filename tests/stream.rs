use camserver::state::CamerasState;
use camserver::stream::{parse_datagram, FrameAssembler, StreamReceiver, StreamReceiverState};

struct Frames {
    got: Vec<(u8, Vec<u8>)>,
}

impl StreamReceiverState for Frames {
    fn set_stream_image(&mut self, stream_id: u8, data: Vec<u8>) {
        self.got.push((stream_id, data));
    }
}

fn chunk(fill: u8, len: usize) -> Vec<u8> {
    vec![fill; len]
}

#[test]
fn reassembly_out_of_order() {
    let mut r = StreamReceiver::new(Frames { got: vec![] });
    r.recv_bytes(1, 1, 2, &chunk(3, 200));
    r.recv_bytes(1, 1, 0, &chunk(1, 500));
    r.recv_bytes(1, 1, 1, &chunk(2, 500));
    assert!(r.state.got.is_empty());
    r.recv_bytes(1, 2, 0, &chunk(9, 10));
    assert_eq!(r.state.got.len(), 1);
    let (id, frame) = &r.state.got[0];
    assert_eq!(*id, 1);
    assert_eq!(frame.len(), 1200);
    assert!(frame[..500].iter().all(|b| *b == 1));
    assert!(frame[500..1000].iter().all(|b| *b == 2));
    assert!(frame[1000..].iter().all(|b| *b == 3));
}

#[test]
fn lost_chunk_leaves_zeros() {
    let mut a = FrameAssembler::new();
    assert_eq!(a.accept(1, 1, 2, &chunk(3, 200)), None);
    assert_eq!(a.accept(1, 1, 0, &chunk(1, 500)), None);
    let frame = a.accept(1, 2, 0, &chunk(9, 10)).unwrap();
    assert_eq!(frame.len(), 1200);
    assert!(frame[..500].iter().all(|b| *b == 1));
    assert!(frame[500..1000].iter().all(|b| *b == 0));
    assert!(frame[1000..].iter().all(|b| *b == 3));
}

#[test]
fn streams_are_reassembled_separately() {
    let mut a = FrameAssembler::new();
    assert_eq!(a.accept(1, 5, 0, &[1, 2]), None);
    assert_eq!(a.accept(2, 5, 0, &[3]), None);
    assert_eq!(a.accept(2, 6, 0, &[4]), Some(vec![3]));
    assert_eq!(a.accept(1, 5, 0, &[7]), None);
    assert_eq!(a.accept(1, 6, 1, &[8]), Some(vec![7, 2]));
    let next = a.accept(1, 7, 0, &[]).unwrap();
    assert_eq!(next.len(), 501);
    assert_eq!(next[500], 8);
}

#[test]
fn duplicate_chunks_are_idempotent() {
    let mut a = FrameAssembler::new();
    a.accept(4, 1, 1, &[5, 6]);
    a.accept(4, 1, 1, &[5, 6]);
    let f = a.accept(4, 2, 0, &[]).unwrap();
    assert_eq!(f.len(), 502);
    assert_eq!(&f[500..], &[5, 6]);
}

#[test]
fn datagram_header_is_parsed() {
    let d = parse_datagram(&[7, 3, 0x01, 0x02, 9, 8]).unwrap();
    assert_eq!(d.stream_id, 7);
    assert_eq!(d.img_id, 3);
    assert_eq!(d.packet_id, 258);
    assert_eq!(d.payload, vec![9, 8]);
    assert!(parse_datagram(&[1, 2, 3]).is_none());
    assert_eq!(parse_datagram(&[1, 2, 0, 0]).unwrap().payload, Vec::<u8>::new());
}

#[test]
fn completed_frames_reach_the_registry() {
    let mut s = CamerasState::new();
    s.set_camera_stat("front", "10.0.0.1", 0);
    s.add_sender("front", 1, 4);
    let mut r = StreamReceiver::new(s);
    r.recv_bytes(1, 1, 0, &[1, 2, 3]);
    r.recv_bytes(1, 2, 0, &[4]);
    r.recv_bytes(9, 1, 0, &[4]);
    r.recv_bytes(9, 2, 0, &[4]);
    let cam = r.state.camera("front").unwrap();
    assert_eq!(cam.image, vec![1, 2, 3]);
    assert_eq!(r.state.take_frames("front", 1), Some(vec![vec![1, 2, 3]]));
}
