//! What the hub does with the messages of the status bus: camera status
//! reports and movement notices, and the topics of camera commands.

use vstd::prelude::*;
use vstd::utf8::*;
use vstd::string::*;
use crate::json::{json_as_str, json_as_u64, json_get, json_member, json_str, json_u64};
use crate::state::{CameraInfo, CamerasState, MAX_CAMERAS, after_stat, names_of, stat_applied};
use crate::topic::{SLASH, join, lemma_join_split, split, split_bytes};

verus! {

broadcast use encode_utf8_valid_utf8;

/// The pattern of status reports.
pub const STAT_PATTERN: &'static str = "home/cams/+/stat";

/// The pattern of movement notices.
pub const MOVE_PATTERN: &'static str = "home/cams/+/move";

/// The camera a topic of four segments speaks of: its third segment.
pub open spec fn topic_camera(topic: Seq<u8>) -> Option<Seq<u8>> {
    let segs = split(topic);
    if segs.len() == 4 {
        Some(segs[2])
    } else {
        None
    }
}

/// After an ASCII byte that starts a character, the next one starts one too.
proof fn lemma_boundary_after_ascii(bytes: Seq<u8>, i: int)
    requires
        valid_utf8(bytes),
        0 <= i < bytes.len(),
        is_char_boundary(bytes, i),
        bytes[i] < 0x80,
    ensures
        is_char_boundary(bytes, i + 1),
    decreases bytes.len(),
{
    let l = length_of_first_scalar(bytes);
    let rest = pop_first_scalar(bytes);
    reveal_with_fuel(is_char_boundary, 2);
    if i == 0 {
        assert(is_leading_byte_width_1(bytes[0]));
        assert(l == 1);
    } else {
        assert(is_char_boundary(rest, i - l));
        assert(i - l >= 0);
        assert(rest[i - l] == bytes[i]);
        lemma_boundary_after_ascii(rest, i - l);
    }
}

/// The name of the camera that `topic` speaks of: the third of its four
/// segments; `None` when it has another number of segments.
pub fn camera_name(topic: &str) -> (r: Option<String>)
    ensures
        topic_camera(encode_utf8(topic@)) is None <==> r is None,
        r matches Some(n) ==> Some(encode_utf8(n@)) == topic_camera(encode_utf8(topic@)),
{
    let bytes = topic.as_bytes();
    let len = bytes.len();
    let segs = split_bytes(bytes);
    if segs.len() != 4 {
        return None;
    }
    let ghost s = bytes@;
    let ghost sv = segs@.map_values(|v: Vec<u8>| v@);
    proof {
        lemma_join_split(s);
        let head_one = seq![sv[0]];
        let head_two = seq![sv[0], sv[1]];
        let head_three = seq![sv[0], sv[1], sv[2]];
        assert(head_two.drop_last() =~= head_one);
        assert(head_three.drop_last() =~= head_two);
        assert(sv.drop_last() =~= head_three);
        assert(join(head_one) == sv[0]);
        assert(join(head_two) == join(head_one) + seq![SLASH] + sv[1]);
        assert(join(head_three) == join(head_two) + seq![SLASH] + sv[2]);
        assert(join(sv) == join(head_three) + seq![SLASH] + sv[3]);
        assert(s =~= sv[0] + seq![SLASH] + sv[1] + seq![SLASH] + sv[2] + seq![SLASH] + sv[3]);
        assert(s.len() == len);
        assert(sv[0] == segs@[0]@ && sv[1] == segs@[1]@ && sv[2] == segs@[2]@);
    }
    let a = segs[0].len() + 1 + segs[1].len() + 1;
    let b = a + segs[2].len();
    proof {
        assert(s[a - 1] == SLASH);
        assert(s[b as int] == SLASH);
        assert(s.subrange(a as int, b as int) =~= sv[2]);
        is_char_boundary_iff_is_leading_byte(s, a - 1);
        lemma_boundary_after_ascii(s, a - 1);
    }
    let (_, tail) = topic.split_at(a);
    proof {
        let tb = tail.spec_bytes();
        assert(tb[b - a] == SLASH);
        is_char_boundary_iff_is_leading_byte(tb, b - a);
    }
    let (piece, _) = tail.split_at(b - a);
    assert(piece.spec_bytes() =~= sv[2]);
    Some(piece.to_owned())
}

/// The address and brightness in a status report: `None` without an
/// address; a missing brightness reads 0, and a larger one keeps its low
/// byte.
pub fn stat_values(ip: Option<String>, lum: Option<u64>) -> (r: Option<(String, u8)>)
    ensures
        ip is None <==> r is None,
        r matches Some((i, l)) ==> i@ == ip->0@ && l == lum_value(lum),
{
    match ip {
        Some(i) => {
            let l: u8 = match lum {
                Some(x) => (x % 256) as u8,
                None => 0,
            };
            Some((i, l))
        },
        None => None,
    }
}

/// The brightness a report gives: its low byte, or 0 when it has none.
pub open spec fn lum_value(lum: Option<u64>) -> u8 {
    match lum {
        Some(x) => (x % 256) as u8,
        None => 0u8,
    }
}

/// Camera `c` of the registry `after` holds stream id `id` and the report
/// `(ip, lum)`: a known camera changed in those two fields only, or a new
/// camera appended with nothing else recorded; every other camera is as in
/// `before`.
pub open spec fn stat_recorded(
    before: Seq<CameraInfo>,
    after: Seq<CameraInfo>,
    c: Seq<char>,
    id: u8,
    ip: Seq<char>,
    lum: u8,
) -> bool {
    let i = id - 1;
    &&& 1 <= id <= after.len()
    &&& names_of(after)[i] == c
    &&& if names_of(before).contains(c) {
        &&& after == before.update(i, after[i])
        &&& stat_applied(before[i], after[i], ip, lum)
    } else {
        &&& i == before.len()
        &&& after.drop_last() == before
        &&& after[i].ip@ == ip
        &&& after[i].lum == lum
        &&& after[i].moves@.len() == 0
        &&& after[i].image@.len() == 0
        &&& after[i].senders@.len() == 0
        &&& after[i].last_image == 0
    }
}

/// Records a status report on `topic` whose address and brightness have
/// been read from its payload. Returns the camera's stream id, or `None`
/// when nothing was recorded: the topic names no camera, there is no
/// address, or the registry is full.
pub fn apply_stat(state: &mut CamerasState, topic: &str, ip: Option<String>, lum: Option<u64>) -> (r: Option<u8>)
    ensures
        topic_camera(encode_utf8(topic@)) is None || ip is None ==> r is None && final(state).cameras()
            == old(state).cameras(),
        r is None ==> final(state).cameras() == old(state).cameras(),
        (topic_camera(encode_utf8(topic@)) is Some && ip is Some) ==> exists|c: Seq<char>|
            Some(encode_utf8(c)) == topic_camera(encode_utf8(topic@)) && final(state).names() == after_stat(old(state).names(), c) && (r is Some
                <==> (old(state).names().contains(c) || old(state).names().len() < MAX_CAMERAS)) && (r matches Some(id)
                ==> stat_recorded(old(state).cameras(), final(state).cameras(), c, id, ip->0@, lum_value(lum))),
{
    let name = match camera_name(topic) {
        Some(n) => n,
        None => return None,
    };
    match stat_values(ip, lum) {
        Some((ip, lum)) => {
            let r = state.set_camera_stat(name.as_str(), ip.as_str(), lum);
            proof {
                let c = name@;
                let ns = old(state).names();
                if ns.contains(c) {
                    let i = ns.index_of(c);
                    assert(final(state).cameras()[i].stream_id == old(state).cameras()[i].stream_id);
                    assert(final(state).names()[i] == c);
                } else if ns.len() < MAX_CAMERAS {
                    assert(final(state).names()[ns.len() as int] == c);
                }
            }
            r
        },
        None => None,
    }
}

/// The address a status report's payload gives: its member `ip`, when that
/// is a string.
pub open spec fn stat_ip(body: serde_json::Value) -> Option<Seq<char>> {
    match json_member(body, "ip"@) {
        Some(m) => json_str(m),
        None => None,
    }
}

/// The brightness a status report's payload gives: its member `lum`, when
/// that is an integer that fits in a `u64`.
pub open spec fn stat_lum(body: serde_json::Value) -> Option<u64> {
    match json_member(body, "lum"@) {
        Some(m) => json_u64(m),
        None => None,
    }
}

/// Handles a status report on `topic`: reads the address (`ip`, a string)
/// and brightness (`lum`, an integer) of its payload and records them.
/// Returns the camera's stream id, or `None` when nothing was recorded: the
/// topic names no camera, the payload gives no address, or the camera is
/// new and the registry is full.
pub fn mqtt_cam_stat(state: &mut CamerasState, topic: &str, body: &serde_json::Value) -> (r: Option<u8>)
    ensures
        topic_camera(encode_utf8(topic@)) is None || stat_ip(*body) is None ==> r is None
            && final(state).cameras() == old(state).cameras(),
        r is None ==> final(state).cameras() == old(state).cameras(),
        (topic_camera(encode_utf8(topic@)) is Some && stat_ip(*body) is Some) ==> exists|c: Seq<char>|
            Some(encode_utf8(c)) == topic_camera(encode_utf8(topic@)) && final(state).names()
                == after_stat(old(state).names(), c) && (r is Some <==> (old(state).names().contains(c)
                || old(state).names().len() < MAX_CAMERAS)) && (r matches Some(id) ==> stat_recorded(
                old(state).cameras(),
                final(state).cameras(),
                c,
                id,
                stat_ip(*body)->0,
                lum_value(stat_lum(*body)),
            )),
{
    let ip = match json_get(body, "ip") {
        Some(v) => json_as_str(v),
        None => None,
    };
    let lum = match json_get(body, "lum") {
        Some(v) => json_as_u64(v),
        None => None,
    };
    apply_stat(state, topic, ip, lum)
}

/// Handles a movement notice on `topic`: appends the current time to the
/// camera's movements. Returns the camera's name and address, for the
/// snapshot to take; `None`, changing nothing, when the topic names no
/// known camera.
pub fn mqtt_cam_move(state: &mut CamerasState, topic: &str) -> (r: Option<(String, String)>)
    ensures
        r is None ==> final(state).cameras() == old(state).cameras(),
        r is Some <==> (topic_camera(encode_utf8(topic@)) matches Some(n) && exists|c: Seq<char>|
            encode_utf8(c) == n && old(state).names().contains(c)),
        r matches Some((n, ip)) ==> {
            let i = old(state).index_of(n@);
            &&& Some(encode_utf8(n@)) == topic_camera(encode_utf8(topic@))
            &&& old(state).names().contains(n@)
            &&& ip@ == old(state).cameras()[i].ip@
            &&& final(state).cameras()[i].moves@.drop_last() == old(state).cameras()[i].moves@
            &&& final(state).cameras()[i].moves@.len() == old(state).cameras()[i].moves@.len() + 1
            &&& final(state).cameras()[i].ip == old(state).cameras()[i].ip
            &&& final(state).cameras()[i].lum == old(state).cameras()[i].lum
            &&& final(state).cameras()[i].image == old(state).cameras()[i].image
            &&& final(state).cameras()[i].senders == old(state).cameras()[i].senders
            &&& final(state).cameras() == old(state).cameras().update(i, final(state).cameras()[i])
        },
{
    let name = match camera_name(topic) {
        Some(n) => n,
        None => return None,
    };
    let ghost cn = name@;
    proof {
        assert forall|c: Seq<char>| encode_utf8(c) == encode_utf8(cn) implies c == cn by {
            encode_utf8_decode_utf8(c);
            encode_utf8_decode_utf8(cn);
        }
    }
    let ip = match state.camera(name.as_str()) {
        Some(cam) => cam.ip.clone(),
        None => return None,
    };
    let recorded = state.record_movement(name.as_str());
    assert(recorded);
    Some((name, ip))
}

/// The topic that commands for camera `cam` are published on.
pub fn command_topic(cam: &str) -> (r: String)
    ensures
        r@ == "home/cams/"@ + cam@ + "/cmd"@,
{
    let mut r = String::from_str("home/cams/");
    r.append(cam);
    r.append("/cmd");
    r
}

} // verus!
