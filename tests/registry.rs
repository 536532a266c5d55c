use camserver::bus::{camera_name, command_topic, mqtt_cam_move, mqtt_cam_stat, stat_values};
use camserver::stream::StreamReceiverState;
use camserver::state::{CameraInfo, CamerasState, MAX_CAMERAS};

fn json(text: &str) -> serde_json::Value {
    serde_json::from_str(text).unwrap()
}

#[test]
fn stream_ids_follow_first_seen_order() {
    let mut s = CamerasState::new();
    assert_eq!(s.set_camera_stat("front", "10.0.0.1", 5), Some(1));
    assert_eq!(s.set_camera_stat("back", "10.0.0.2", 6), Some(2));
    assert_eq!(s.set_camera_stat("front", "10.0.0.9", 7), Some(1));
    assert_eq!(s.set_camera_stat("garage", "10.0.0.3", 8), Some(3));
    assert_eq!(s.len(), 3);
    let front = s.camera("front").unwrap();
    assert_eq!(front.stream_id, 1);
    assert_eq!(front.ip, "10.0.0.9");
    assert_eq!(front.lum, 7);
    assert_eq!(s.camera_by_stream_id(3).unwrap().name, "garage");
    assert!(s.camera_by_stream_id(0).is_none());
    assert!(s.camera_by_stream_id(4).is_none());
    assert!(s.camera("attic").is_none());
}

#[test]
fn full_registry_refuses_new_names() {
    let mut s = CamerasState::new();
    for i in 0..MAX_CAMERAS {
        assert_eq!(s.set_camera_stat(&format!("cam{}", i), "ip", 0), Some((i + 1) as u8));
    }
    assert_eq!(s.set_camera_stat("one_more", "ip", 0), None);
    assert_eq!(s.len(), MAX_CAMERAS);
    assert_eq!(s.set_camera_stat("cam0", "ip2", 1), Some(1));
}

#[test]
fn listing_is_ordered_by_name() {
    let mut s = CamerasState::new();
    s.set_camera_stat("zeta", "1", 0);
    s.set_camera_stat("alpha", "2", 0);
    s.set_camera_stat("Mid", "3", 0);
    s.set_camera_stat("alp", "4", 0);
    let names: Vec<&str> = s.get_all_cameras().iter().map(|c| c.name.as_str()).collect();
    assert_eq!(names, vec!["Mid", "alp", "alpha", "zeta"]);
    assert!(CamerasState::new().get_all_cameras().is_empty());
}

#[test]
fn movements_are_recorded_for_known_cameras_only() {
    let mut s = CamerasState::new();
    assert!(!s.record_movement("front"));
    s.set_camera_stat("front", "10.0.0.1", 0);
    assert!(s.record_movement_at("front", 1000));
    assert!(s.record_movement_at("front", 2000));
    assert_eq!(s.camera("front").unwrap().moves, vec![1000, 2000]);
    assert!(s.record_movement("front"));
    let moves = &s.camera("front").unwrap().moves;
    assert_eq!(moves.len(), 3);
    // The clock reads milliseconds since the epoch: later than 2020.
    assert!(moves[2] > 1_577_836_800_000);
}

#[test]
fn fan_out_keeps_order_and_isolates_viewers() {
    let mut s = CamerasState::new();
    s.set_camera_stat("front", "10.0.0.1", 0);
    assert!(s.add_sender("front", 1, 1));
    assert!(s.publish_frame(1, vec![1], 10));
    assert!(s.add_sender("front", 2, 4));
    assert!(!s.add_sender("front", 2, 4));
    // Viewer 1 is full: it misses the second frame, viewer 2 still gets it.
    assert!(s.publish_frame(1, vec![2], 20));
    assert_eq!(s.take_frames("front", 1), Some(vec![vec![1]]));
    assert_eq!(s.take_frames("front", 2), Some(vec![vec![2]]));
    assert_eq!(s.take_frames("front", 2), Some(vec![]));
    let cam = s.camera("front").unwrap();
    assert_eq!(cam.image, vec![2]);
    assert_eq!(cam.last_image, 20);
}

#[test]
fn viewer_receives_frames_in_order() {
    let mut s = CamerasState::new();
    s.set_camera_stat("front", "10.0.0.1", 0);
    s.add_sender("front", 1, 8);
    s.publish_frame(1, vec![1], 1);
    s.add_sender("front", 2, 8);
    s.publish_frame(1, vec![2], 2);
    assert_eq!(s.take_frames("front", 1), Some(vec![vec![1], vec![2]]));
    assert_eq!(s.take_frames("front", 2), Some(vec![vec![2]]));
}

#[test]
fn removed_viewer_gets_nothing() {
    let mut s = CamerasState::new();
    s.set_camera_stat("front", "10.0.0.1", 0);
    s.add_sender("front", 1, 8);
    assert!(s.remove_sender("front", 1));
    assert!(!s.remove_sender("front", 1));
    s.publish_frame(1, vec![9], 1);
    assert_eq!(s.take_frames("front", 1), None);
    assert_eq!(s.take_frames("back", 1), None);
    assert!(!s.add_sender("back", 1, 8));
}

#[test]
fn frame_for_unknown_stream_is_dropped() {
    let mut s = CamerasState::new();
    assert!(!s.publish_frame(1, vec![1], 1));
    s.set_camera_stat("front", "10.0.0.1", 0);
    assert!(!s.publish_frame(2, vec![1], 1));
    assert!(s.camera("front").unwrap().image.is_empty());
}

#[test]
fn camera_info_starts_empty() {
    let mut c = CameraInfo::new("front", 4);
    assert_eq!(c.name, "front");
    assert_eq!(c.ip, "");
    assert_eq!(c.stream_id, 4);
    assert_eq!(c.lum, 0);
    assert!(c.moves.is_empty() && c.image.is_empty() && c.senders.is_empty());
    c.record_movement_at(5);
    assert_eq!(c.moves, vec![5]);
    assert!(c.add_sender(3, 2));
    assert_eq!(c.senders[0].id, 3);
}

#[test]
fn camera_name_is_third_segment() {
    assert_eq!(camera_name("home/cams/frontdoor/stat"), Some("frontdoor".to_string()));
    assert_eq!(camera_name("home/cams/café/move"), Some("café".to_string()));
    assert_eq!(camera_name("home/cams//stat"), Some("".to_string()));
    assert_eq!(camera_name("home/cams/front"), None);
    assert_eq!(camera_name("home/cams/front/extra/stat"), None);
}

#[test]
fn stat_values_read_address_and_brightness() {
    assert_eq!(stat_values(Some("1.2.3.4".to_string()), Some(300)), Some(("1.2.3.4".to_string(), 44)));
    assert_eq!(stat_values(Some("1.2.3.4".to_string()), None), Some(("1.2.3.4".to_string(), 0)));
    assert_eq!(stat_values(None, Some(5)), None);
}

#[test]
fn stat_messages_update_the_registry() {
    let mut s = CamerasState::new();
    let r = mqtt_cam_stat(&mut s, "home/cams/front/stat", &json("{\"ip\":\"10.0.0.7\",\"lum\":12}"));
    assert_eq!(r, Some(1));
    let c = s.camera("front").unwrap();
    assert_eq!(c.ip, "10.0.0.7");
    assert_eq!(c.lum, 12);
    assert_eq!(mqtt_cam_stat(&mut s, "home/cams/back/stat", &json("{\"ip\":\"10.0.0.8\"}")), Some(2));
    assert_eq!(s.camera("back").unwrap().lum, 0);
    assert_eq!(mqtt_cam_stat(&mut s, "home/cams/side/stat", &json("{\"lum\":3}")), None);
    assert_eq!(mqtt_cam_stat(&mut s, "home/cams/side/stat", &json("{\"ip\":5}")), None);
    assert_eq!(mqtt_cam_stat(&mut s, "home/cams/side/stat", &json("[1,2]")), None);
    assert_eq!(s.len(), 2);
    assert_eq!(mqtt_cam_stat(&mut s, "home/cams/front/stat", &json("{\"ip\":\"10.0.0.9\",\"lum\":-1}")), Some(1));
    assert_eq!(s.camera("front").unwrap().lum, 0);
}

#[test]
fn move_messages_record_movements() {
    let mut s = CamerasState::new();
    assert_eq!(mqtt_cam_move(&mut s, "home/cams/front/move"), None);
    s.set_camera_stat("front", "10.0.0.7", 1);
    assert_eq!(
        mqtt_cam_move(&mut s, "home/cams/front/move"),
        Some(("front".to_string(), "10.0.0.7".to_string()))
    );
    assert_eq!(s.camera("front").unwrap().moves.len(), 1);
}

#[test]
fn command_topic_for_camera() {
    assert_eq!(command_topic("front"), "home/cams/front/cmd");
}

#[test]
fn frame_stamp_never_goes_back() {
    let mut s = CamerasState::new();
    s.set_camera_stat("front", "10.0.0.1", 0);
    assert!(s.publish_frame(1, vec![1], 20));
    assert!(s.publish_frame(1, vec![2], 10));
    let cam = s.camera("front").unwrap();
    assert_eq!(cam.image, vec![2]);
    assert_eq!(cam.last_image, 20);
}

#[test]
fn movement_log_stays_in_order() {
    let mut s = CamerasState::new();
    s.set_camera_stat("front", "10.0.0.1", 0);
    assert!(s.record_movement_at("front", 2000));
    assert!(s.record_movement_at("front", 1500));
    assert!(s.record_movement_at("front", 2500));
    assert_eq!(s.camera("front").unwrap().moves, vec![2000, 2000, 2500]);
}

#[test]
fn frames_from_the_stream_are_stamped_with_the_clock() {
    let mut s = CamerasState::new();
    s.set_camera_stat("front", "10.0.0.1", 0);
    s.set_stream_image(1, vec![5]);
    let cam = s.camera("front").unwrap();
    assert_eq!(cam.image, vec![5]);
    assert!(cam.last_image > 1_577_836_800_000);
}
