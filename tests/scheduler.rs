use yoitsus::queue::{Track, TrackMetadata, TrackQueue};
use yoitsus::scheduler::{
    parse_listing, Outcome, PlaylistError, PlaylistJob, Resolution, ResolutionFailure,
};

fn track(name: &str) -> Track<String> {
    Track {
        source: name.to_string(),
        metadata: TrackMetadata {
            title: Some(name.to_string()),
            artist: Some("artist".to_string()),
            duration: Some(60),
            thumbnail: None,
            source_url: name.to_string(),
            date: None,
        },
    }
}

fn failed(name: &str) -> Resolution<String> {
    Resolution::Failed(ResolutionFailure {
        reference: name.to_string(),
        cause: "unavailable".to_string(),
    })
}

fn items(v: &[&str]) -> Vec<String> {
    v.iter().map(|s| s.to_string()).collect()
}

fn names(q: &TrackQueue<String>) -> Vec<String> {
    q.snapshot().iter().map(|t| t.source.clone()).collect()
}

/// Resolves with `ok` deciding per item, fast path first, then the batch,
/// whose outcomes arrive in `arrival` order (positions into the pending list).
fn run(
    job: &mut PlaylistJob,
    q: &mut TrackQueue<String>,
    ok: &dyn Fn(&str) -> bool,
    arrival: Option<Vec<usize>>,
) -> yoitsus::scheduler::PlaylistReport {
    while let Some((_, item)) = job.fast_path_item() {
        let item = item.clone();
        let r = if ok(&item) { Resolution::Resolved(track(&item)) } else { failed(&item) };
        job.record_fast_path(q, r);
    }
    let pending = job.pending();
    let order: Vec<usize> = arrival.unwrap_or_else(|| (0..pending.len()).collect());
    let mut outs = Vec::new();
    for k in order {
        let (index, item) = &pending[k];
        let result = if ok(item) { Resolution::Resolved(track(item)) } else { failed(item) };
        outs.push(Outcome { index: *index, result });
    }
    assert!(job.outcomes_complete(&outs));
    job.commit_batch(q, outs)
}

#[test]
fn middle_failure_keeps_order() {
    let mut job = PlaylistJob::new(items(&["A", "B", "C"]));
    let mut q = TrackQueue::new();
    let rep = run(&mut job, &mut q, &|s| s != "B", None);
    assert_eq!(names(&q), vec!["A", "C"]);
    assert_eq!(rep.failures, 1);
    assert_eq!(rep.enqueued, 1);
    assert_eq!(rep.queue_length, 2);
}

#[test]
fn leading_failure_fast_path() {
    let mut job = PlaylistJob::new(items(&["A", "B", "C"]));
    let mut q = TrackQueue::new();
    // fast path: A fails, B becomes the head at once
    let (i, item) = job.fast_path_item().unwrap();
    assert_eq!((i, item.as_str()), (0, "A"));
    job.record_fast_path(&mut q, failed("A"));
    assert!(q.is_empty());
    assert_eq!(job.dropped(), 1);
    let (i, item) = job.fast_path_item().unwrap();
    assert_eq!((i, item.as_str()), (1, "B"));
    job.record_fast_path(&mut q, Resolution::Resolved(track("B")));
    assert_eq!(names(&q), vec!["B"]);
    assert!(job.head_found());
    // the fast path does not run again
    assert!(job.fast_path_item().is_none());
    let pending = job.pending();
    assert_eq!(pending.len(), 1);
    assert_eq!(pending[0].0, 2);
    assert_eq!(pending[0].1, "C");
    let outs = vec![Outcome { index: 2, result: Resolution::Resolved(track("C")) }];
    let rep = job.commit_batch(&mut q, outs);
    assert_eq!(names(&q), vec!["B", "C"]);
    assert_eq!(rep.failures, 1);
}

#[test]
fn leading_failure_and_failing_tail() {
    let mut job = PlaylistJob::new(items(&["A", "B", "C"]));
    let mut q = TrackQueue::new();
    let rep = run(&mut job, &mut q, &|s| s == "B", None);
    assert_eq!(names(&q), vec!["B"]);
    assert_eq!(rep.failures, 2);
}

#[test]
fn empty_listing_changes_nothing() {
    let mut job = PlaylistJob::new(Vec::new());
    let mut q = TrackQueue::new();
    q.append(track("X"));
    assert!(job.fast_path_item().is_none());
    let rep = run(&mut job, &mut q, &|_| true, None);
    assert_eq!(rep.failures, 0);
    assert_eq!(rep.enqueued, 0);
    assert_eq!(q.len(), 1);
    assert_eq!(rep.queue_length, 1);
}

#[test]
fn empty_listing_output_is_not_an_error() {
    let job = PlaylistJob::from_listing(Some("")).ok().unwrap();
    assert_eq!(job.item_count(), 0);
    let job = PlaylistJob::from_listing(Some("no links here")).ok().unwrap();
    assert_eq!(job.item_count(), 0);
}

#[test]
fn failed_listing_is_reported() {
    assert!(matches!(
        PlaylistJob::from_listing(None),
        Err(PlaylistError::ListingFailure)
    ));
}

#[test]
fn completion_order_does_not_matter() {
    // first item resolves on the fast path; the batch is empty
    let mut job = PlaylistJob::new(items(&["A", "B", "C"]));
    let mut q = TrackQueue::new();
    run(&mut job, &mut q, &|_| true, None);
    assert_eq!(names(&q), vec!["A", "B", "C"]);

    // A, B, C go to the batch after the head resolves, arriving C, A, B
    let mut job = PlaylistJob::new(items(&["H", "A", "B", "C"]));
    let mut q = TrackQueue::new();
    job.record_fast_path(&mut q, Resolution::Resolved(track("head")));
    let outs = vec![
        Outcome { index: 3, result: Resolution::Resolved(track("C")) },
        Outcome { index: 1, result: Resolution::Resolved(track("A")) },
        Outcome { index: 2, result: Resolution::Resolved(track("B")) },
    ];
    assert!(job.outcomes_complete(&outs));
    let rep = job.commit_batch(&mut q, outs);
    assert_eq!(names(&q), vec!["head", "A", "B", "C"]);
    assert_eq!(rep.failures, 0);
    assert_eq!(rep.enqueued, 3);
}

#[test]
fn completion_order_with_a_failure() {
    let mut job = PlaylistJob::new(items(&["H", "A", "B", "C"]));
    let mut q = TrackQueue::new();
    let rep = run(&mut job, &mut q, &|s| s != "B", Some(vec![2, 0, 1]));
    assert_eq!(names(&q), vec!["H", "A", "C"]);
    assert_eq!(rep.failures, 1);
}

#[test]
fn incomplete_outcomes_are_detected() {
    let mut job = PlaylistJob::new(items(&["H", "A", "B"]));
    let mut q = TrackQueue::new();
    job.record_fast_path(&mut q, Resolution::Resolved(track("H")));
    let missing = vec![Outcome { index: 1, result: failed("A") }];
    assert!(!job.outcomes_complete(&missing));
    let duplicate = vec![
        Outcome { index: 1, result: failed("A") },
        Outcome { index: 1, result: failed("A") },
    ];
    assert!(!job.outcomes_complete(&duplicate));
    let out_of_range = vec![
        Outcome { index: 0, result: failed("H") },
        Outcome { index: 1, result: failed("A") },
    ];
    assert!(!job.outcomes_complete(&out_of_range));
    let complete = vec![
        Outcome { index: 2, result: failed("B") },
        Outcome { index: 1, result: failed("A") },
    ];
    assert!(job.outcomes_complete(&complete));
}

#[test]
fn listing_links_are_parsed_in_order() {
    let raw = [
        "{\"_type\": \"url\", \"url\": \"https://www.youtube.com/watch?v=dQw4w9WgXcQ\", \"title\": \"one\"}",
        "{\"_type\": \"url\", \"url\": \"https://www.youtube.com/watch?v=short\"}",
        "{\"_type\": \"url\", \"url\": \"https://www.youtube.com/watch?v=9bZkp7q19f0\", \"title\": \"two\"}",
    ]
    .join("\n");
    let raw = raw.as_str();
    let links = parse_listing(raw).unwrap();
    assert_eq!(
        links,
        vec![
            "https://www.youtube.com/watch?v=dQw4w9WgXcQ".to_string(),
            "https://www.youtube.com/watch?v=9bZkp7q19f0".to_string(),
        ]
    );
    let job = PlaylistJob::from_listing(Some(raw)).ok().unwrap();
    assert_eq!(job.item_count(), 2);
}
