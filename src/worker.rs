use vstd::prelude::*;

use crate::aggregator::Message;
use crate::progress::{line_event, parse_ytdl_output_line};

verus! {

/// What a download worker observes of the download tool it runs.
pub enum WorkerEvent {
    /// One line of the tool's standard output.
    Line(String),
    /// The tool exited with this code; zero is success.
    Exited { code: i32 },
}

/// The message a worker sends to the store for `event`, if any. Without a job
/// id (the store was unreachable when the job started) nothing is sent; lines
/// that report no progress send nothing either.
pub fn next_message(job_id: Option<u64>, event: &WorkerEvent) -> (r: Option<Message>)
    ensures
        match (job_id, event) {
            (None, _) => r is None,
            (Some(id), WorkerEvent::Line(l)) => match r {
                Some(Message::Update { job_id: to, event: ev }) => to == id && line_event(l@)
                    == Some(ev.fields()),
                Some(_) => false,
                None => line_event(l@) is None,
            },
            (Some(id), WorkerEvent::Exited { code }) => if *code == 0 {
                r == Some(Message::Complete { job_id: id })
            } else {
                r == Some(Message::Fail { job_id: id, code: *code })
            },
        },
{
    let id = match job_id {
        Some(id) => id,
        None => {
            return None;
        },
    };
    match event {
        WorkerEvent::Line(l) => match parse_ytdl_output_line(l.as_str()) {
            Some(ev) => Some(Message::Update { job_id: id, event: ev }),
            None => None,
        },
        WorkerEvent::Exited { code } => {
            if *code == 0 {
                Some(Message::Complete { job_id: id })
            } else {
                Some(Message::Fail { job_id: id, code: *code })
            }
        },
    }
}

} // verus!
