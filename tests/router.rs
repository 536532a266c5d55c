use camserver::router::TopicRouter;

#[test]
fn resubscribe_replays_registered_patterns() {
    let mut r: TopicRouter<u32> = TopicRouter::new();
    r.register("home/cams/+/stat", 1);
    r.register("home/cams/+/move", 2);
    r.register("home/cams/+/stat", 3);
    let topics = r.resubscribe();
    assert_eq!(
        topics,
        vec![
            "home/cams/+/stat".to_string(),
            "home/cams/+/move".to_string(),
            "home/cams/+/stat".to_string()
        ]
    );
}

#[test]
fn resubscribe_on_empty_router_is_empty() {
    let r: TopicRouter<u32> = TopicRouter::new();
    assert!(r.resubscribe().is_empty());
}

#[test]
fn receive_selects_matches_in_registration_order() {
    let mut r: TopicRouter<&str> = TopicRouter::new();
    r.register("home/cams/+/stat", "stat");
    r.register("home/cams/+/move", "move");
    r.register("home/#", "all");
    r.register("home/cams/+/stat", "stat again");
    assert_eq!(r.receive("home/cams/front/stat"), vec![0, 2, 3]);
    assert_eq!(r.receive("home/cams/front/move"), vec![1, 2]);
    assert_eq!(r.receive("office/cams/front/move"), Vec::<usize>::new());
    assert_eq!(*r.handler(3), "stat again");
}

#[test]
fn malformed_payload_is_dropped_and_next_message_dispatched() {
    let mut r: TopicRouter<u32> = TopicRouter::new();
    r.register("home/cams/+/stat", 7);
    assert!(r.dispatch("home/cams/front/stat", b"not json {").is_none());
    assert!(r.dispatch("home/cams/front/stat", &[0xff, 0xfe]).is_none());
    let (v, idx) = r.dispatch("home/cams/front/stat", b"{\"ip\":\"10.0.0.5\",\"lum\":3}").unwrap();
    assert_eq!(idx, vec![0]);
    assert_eq!(v["ip"].as_str(), Some("10.0.0.5"));
    let (_, other) = r.dispatch("home/cams/back/move", b"{}").unwrap();
    assert!(other.is_empty());
    assert_eq!(r.len(), 1);
}
