use rg_launcher::aggregator::Message;
use rg_launcher::worker::{next_message, WorkerEvent};

#[test]
fn progress_line_becomes_update() {
    let line = WorkerEvent::Line("[download]  45.0% of 10.00MiB at 2MiB/s ETA 00:04".to_string());
    match next_message(Some(3), &line) {
        Some(Message::Update { job_id, event }) => {
            assert_eq!(job_id, 3);
            assert_eq!(event.percent_tenths, Some(450));
            assert_eq!(event.speed.as_deref(), Some("2MiB/s"));
            assert_eq!(event.eta_secs, Some(4));
        }
        _ => panic!("expected an update"),
    }
}

#[test]
fn other_lines_send_nothing() {
    let line = WorkerEvent::Line("[youtube] abc: Downloading webpage".to_string());
    assert!(next_message(Some(3), &line).is_none());
}

#[test]
fn exit_codes_finish_the_job() {
    assert!(matches!(next_message(Some(2), &WorkerEvent::Exited { code: 0 }), Some(Message::Complete { job_id: 2 })));
    assert!(matches!(
        next_message(Some(2), &WorkerEvent::Exited { code: 1 }),
        Some(Message::Fail { job_id: 2, code: 1 })
    ));
}

#[test]
fn no_job_id_sends_nothing() {
    let line = WorkerEvent::Line("[download]  45.0%".to_string());
    assert!(next_message(None, &line).is_none());
    assert!(next_message(None, &WorkerEvent::Exited { code: 0 }).is_none());
}
