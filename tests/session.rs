use yoitsus::queue::{Track, TrackMetadata};
use yoitsus::scheduler::{Outcome, PlaylistJob, Resolution, ResolutionFailure};
use yoitsus::session::{ControlError, Controller, PlaybackState};

fn track(name: &'static str, secs: Option<u64>) -> Track<&'static str> {
    Track {
        source: name,
        metadata: TrackMetadata {
            title: Some(name.to_string()),
            artist: None,
            duration: secs,
            thumbnail: None,
            source_url: name.to_string(),
            date: None,
        },
    }
}

fn names(c: &Controller<&'static str>, room: u64) -> Vec<&'static str> {
    c.session(room).ok().unwrap().queue().snapshot().iter().map(|t| t.source).collect()
}

#[test]
fn not_connected_is_reported() {
    let mut c: Controller<&'static str> = Controller::new();
    assert!(!c.is_connected(1));
    assert_eq!(c.pause(1), Err(ControlError::NotConnected));
    assert_eq!(c.resume(1), Err(ControlError::NotConnected));
    assert_eq!(c.stop(1), Err(ControlError::NotConnected));
    assert_eq!(c.shuffle(1), Err(ControlError::NotConnected));
    assert_eq!(c.leave(1), Err(ControlError::NotConnected));
    assert!(matches!(c.skip(1), Err(ControlError::NotConnected)));
    assert!(matches!(c.status(1), Err(ControlError::NotConnected)));
    assert!(matches!(c.current(1), Err(ControlError::NotConnected)));
}

#[test]
fn connect_twice_reuses_the_session() {
    let mut c = Controller::new();
    assert!(c.connect(7));
    assert_eq!(c.enqueue(7, track("a", Some(30))), 1);
    assert!(!c.connect(7));
    assert_eq!(names(&c, 7), vec!["a"]);
}

#[test]
fn playback_state_machine() {
    let mut c = Controller::new();
    c.connect(1);
    assert_eq!(c.session(1).ok().unwrap().state(), PlaybackState::Idle);
    assert!(matches!(c.status(1), Err(ControlError::QueueEmpty)));
    assert!(matches!(c.current(1), Err(ControlError::QueueEmpty)));
    assert_eq!(c.pause(1), Err(ControlError::NotPlaying));
    c.enqueue(1, track("a", Some(30)));
    c.enqueue(1, track("b", Some(45)));
    assert_eq!(c.session(1).ok().unwrap().state(), PlaybackState::Playing);
    assert_eq!(c.resume(1), Err(ControlError::NotPaused));
    assert_eq!(c.pause(1), Ok(()));
    assert_eq!(c.pause(1), Err(ControlError::NotPlaying));
    assert_eq!(c.session(1).ok().unwrap().state(), PlaybackState::Paused);
    assert_eq!(c.resume(1), Ok(()));
    assert_eq!(c.current(1).ok().unwrap().source, "a");
    let st = c.status(1).ok().unwrap();
    assert_eq!(st.queue_length, 2);
    assert_eq!(st.playtime, "01:15");
    assert_eq!(st.state, PlaybackState::Playing);
    assert_eq!(c.skip(1).ok().unwrap().source, "a");
    assert_eq!(c.current(1).ok().unwrap().source, "b");
    assert_eq!(c.skip(1).ok().unwrap().source, "b");
    assert_eq!(c.session(1).ok().unwrap().state(), PlaybackState::Idle);
    assert!(matches!(c.skip(1), Err(ControlError::QueueEmpty)));
}

#[test]
fn stop_clears_and_leave_drops() {
    let mut c = Controller::new();
    c.connect(1);
    c.connect(2);
    c.enqueue(1, track("a", Some(30)));
    c.enqueue(2, track("z", None));
    assert_eq!(c.stop(1), Ok(()));
    assert_eq!(names(&c, 1), Vec::<&str>::new());
    assert_eq!(c.session(1).ok().unwrap().state(), PlaybackState::Idle);
    assert_eq!(names(&c, 2), vec!["z"]);
    assert_eq!(c.status(2).ok().unwrap().playtime, "infinite");
    assert_eq!(c.leave(1), Ok(()));
    assert!(!c.is_connected(1));
    assert!(c.is_connected(2));
}

#[test]
fn appends_are_in_lock_order() {
    let mut c = Controller::new();
    c.connect(3);
    c.enqueue(3, track("x", Some(1)));
    assert_eq!(c.enqueue(3, track("first", Some(1))), 2);
    assert_eq!(c.enqueue(3, track("second", Some(1))), 3);
    assert_eq!(names(&c, 3), vec!["x", "first", "second"]);
}

#[test]
fn shuffle_keeps_head() {
    let mut c = Controller::new();
    c.connect(1);
    for n in ["h", "a", "b", "c", "d"] {
        c.enqueue(1, track(n, Some(1)));
    }
    assert_eq!(c.shuffle(1), Ok(()));
    let after = names(&c, 1);
    assert_eq!(after[0], "h");
    let mut tail = after[1..].to_vec();
    tail.sort();
    assert_eq!(tail, vec!["a", "b", "c", "d"]);
}

#[test]
fn playlist_through_the_session() {
    let mut c = Controller::new();
    c.connect(9);
    let mut job = PlaylistJob::new(vec!["A".to_string(), "B".to_string(), "C".to_string()]);
    c.record_fast_path(
        9,
        &mut job,
        Resolution::Failed(ResolutionFailure { reference: "A".to_string(), cause: "gone".to_string() }),
    );
    assert_eq!(c.session(9).ok().unwrap().state(), PlaybackState::Idle);
    c.record_fast_path(9, &mut job, Resolution::Resolved(track("B", Some(100))));
    assert_eq!(c.session(9).ok().unwrap().state(), PlaybackState::Playing);
    assert!(job.fast_path_item().is_none());
    let outs = vec![Outcome { index: 2, result: Resolution::Resolved(track("C", Some(20))) }];
    let rep = c.commit_batch(9, &job, outs);
    assert_eq!(names(&c, 9), vec!["B", "C"]);
    assert_eq!(rep.failures, 1);
    assert_eq!(rep.queue_length, 2);
    assert_eq!(c.status(9).ok().unwrap().playtime, "02:00");
}

#[test]
fn first_enqueue_opens_the_session() {
    let mut c = Controller::new();
    assert!(!c.is_connected(5));
    assert_eq!(c.enqueue(5, track("a", Some(10))), 1);
    assert!(c.is_connected(5));
    assert_eq!(c.session(5).ok().unwrap().state(), PlaybackState::Playing);
    assert_eq!(names(&c, 5), vec!["a"]);
}

#[test]
fn playlist_opens_the_session() {
    let mut c = Controller::new();
    let mut job = PlaylistJob::new(vec!["A".to_string(), "B".to_string()]);
    c.record_fast_path(4, &mut job, Resolution::Resolved(track("A", Some(5))));
    assert!(c.is_connected(4));
    let outs = vec![Outcome {
        index: 1,
        result: Resolution::Failed(ResolutionFailure { reference: "B".to_string(), cause: "gone".to_string() }),
    }];
    let rep = c.commit_batch(4, &job, outs);
    assert_eq!(rep.failures, 1);
    assert_eq!(rep.enqueued, 0);
    assert_eq!(names(&c, 4), vec!["A"]);
}
