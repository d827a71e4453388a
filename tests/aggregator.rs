use rg_launcher::aggregator::{Aggregator, JobState, Message, Reply};
use rg_launcher::progress::ProgressEvent;

fn event(percent_tenths: Option<u16>, speed: Option<&str>) -> ProgressEvent {
    ProgressEvent { percent_tenths, speed: speed.map(|s| s.to_string()), eta_secs: None }
}

#[test]
fn register_update_query_scenario() {
    let mut agg = Aggregator::new();
    let id = agg.register("http://x/video".to_string(), "My Video".to_string(), 10);
    assert_eq!(id, 1);
    agg.update(1, event(Some(450), Some("2MiB/s")), 11);
    let snap = agg.query();
    assert_eq!(snap.len(), 1);
    assert_eq!(snap[0].id, 1);
    assert_eq!(snap[0].state, JobState::InProgress);
    assert_eq!(snap[0].percent_tenths, 450);
    assert_eq!(snap[0].speed.as_deref(), Some("2MiB/s"));
    assert_eq!(snap[0].title, "My Video");
    assert_eq!(snap[0].url, "http://x/video");
    assert_eq!(snap[0].last_updated, 11);
}

#[test]
fn late_lower_update_is_dropped() {
    let mut agg = Aggregator::new();
    agg.register("http://x/video".to_string(), "My Video".to_string(), 0);
    agg.update(1, event(Some(450), None), 1);
    agg.update(1, event(Some(100), Some("9MiB/s")), 2);
    let snap = agg.query();
    assert_eq!(snap[0].percent_tenths, 450);
    assert_eq!(snap[0].speed, None);
    assert_eq!(snap[0].last_updated, 1);
}

#[test]
fn completed_job_ignores_later_update() {
    let mut agg = Aggregator::new();
    agg.register("http://x/video".to_string(), "My Video".to_string(), 0);
    agg.complete(1, 5);
    agg.update(1, event(Some(500), None), 6);
    let snap = agg.query();
    assert_eq!(snap[0].state, JobState::Completed);
    assert_eq!(snap[0].percent_tenths, 1000);
    assert_eq!(snap[0].last_updated, 5);
}

#[test]
fn query_of_empty_store_is_empty() {
    let agg = Aggregator::new();
    assert!(agg.query().is_empty());
}

#[test]
fn out_of_order_updates_keep_the_maximum() {
    let mut agg = Aggregator::new();
    agg.register("u".to_string(), "t".to_string(), 0);
    for p in [300u16, 100, 720, 450, 0, 719] {
        agg.update(1, event(Some(p), None), 1);
    }
    assert_eq!(agg.query()[0].percent_tenths, 720);
}

#[test]
fn finished_jobs_stay_finished() {
    let mut agg = Aggregator::new();
    agg.register("u".to_string(), "t".to_string(), 0);
    agg.update(1, event(Some(300), None), 1);
    agg.fail(1, 2, 2);
    agg.complete(1, 3);
    agg.fail(1, 7, 4);
    agg.update(1, event(Some(900), None), 5);
    let snap = agg.query();
    assert_eq!(snap[0].state, JobState::Failed { code: 2 });
    assert_eq!(snap[0].percent_tenths, 300);
    assert_eq!(snap[0].last_updated, 2);
}

#[test]
fn register_gives_fresh_ids() {
    let mut agg = Aggregator::new();
    let a = agg.register("a".to_string(), "A".to_string(), 0);
    let b = agg.register("b".to_string(), "B".to_string(), 0);
    let c = agg.register("c".to_string(), "C".to_string(), 0);
    assert_eq!((a, b, c), (1, 2, 3));
    let snap = agg.query();
    assert_eq!(snap.len(), 3);
    assert_eq!(snap[1].title, "B");
    assert_eq!(snap[2].state, JobState::Pending);
    assert_eq!(snap[2].percent_tenths, 0);
}

#[test]
fn unknown_job_is_ignored() {
    let mut agg = Aggregator::new();
    agg.register("a".to_string(), "A".to_string(), 0);
    agg.update(0, event(Some(500), None), 1);
    agg.update(2, event(Some(500), None), 1);
    agg.complete(9, 1);
    agg.fail(9, 1, 1);
    let snap = agg.query();
    assert_eq!(snap.len(), 1);
    assert_eq!(snap[0].state, JobState::Pending);
    assert_eq!(snap[0].percent_tenths, 0);
}

#[test]
fn malformed_percent_is_dropped() {
    let mut agg = Aggregator::new();
    agg.register("a".to_string(), "A".to_string(), 0);
    agg.update(1, event(Some(1001), Some("1KiB/s")), 1);
    let snap = agg.query();
    assert_eq!(snap[0].state, JobState::Pending);
    assert_eq!(snap[0].speed, None);
}

#[test]
fn update_without_percent_keeps_it() {
    let mut agg = Aggregator::new();
    agg.register("a".to_string(), "A".to_string(), 0);
    agg.update(1, event(Some(250), Some("1KiB/s")), 1);
    agg.update(1, ProgressEvent { percent_tenths: None, speed: None, eta_secs: Some(30) }, 2);
    let snap = agg.query();
    assert_eq!(snap[0].percent_tenths, 250);
    assert_eq!(snap[0].speed.as_deref(), Some("1KiB/s"));
    assert_eq!(snap[0].eta_secs, Some(30));
    assert_eq!(snap[0].last_updated, 2);
}

#[test]
fn snapshot_does_not_alias_the_store() {
    let mut agg = Aggregator::new();
    agg.register("a".to_string(), "A".to_string(), 0);
    let before = agg.query();
    agg.update(1, event(Some(500), None), 1);
    assert_eq!(before[0].percent_tenths, 0);
    assert_eq!(agg.query()[0].percent_tenths, 500);
}

#[test]
fn messages_drive_the_store() {
    let mut agg = Aggregator::new();
    let reply = agg.handle(
        Message::Register { url: "http://x/video".to_string(), title_hint: "My Video".to_string() },
        0,
    );
    assert!(matches!(reply, Reply::Registered(1)));
    let reply = agg.handle(Message::Update { job_id: 1, event: event(Some(450), None) }, 1);
    assert!(matches!(reply, Reply::Done));
    let reply = agg.handle(Message::Complete { job_id: 1 }, 2);
    assert!(matches!(reply, Reply::Done));
    let reply = agg.handle(Message::Fail { job_id: 1, code: 1 }, 3);
    assert!(matches!(reply, Reply::Done));
    match agg.handle(Message::Query, 4) {
        Reply::Snapshot(snap) => {
            assert_eq!(snap.len(), 1);
            assert_eq!(snap[0].state, JobState::Completed);
            assert_eq!(snap[0].percent_tenths, 1000);
        }
        _ => panic!("a query is answered with a snapshot"),
    }
}
