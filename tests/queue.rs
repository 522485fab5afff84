use yoitsus::queue::{release_date_text, Track, TrackMetadata, TrackQueue};
use yoitsus::shuffle::{fisher_yates_shuffle, shuffle_with_draws};

fn track(name: &'static str, secs: Option<u64>) -> Track<&'static str> {
    Track {
        source: name,
        metadata: TrackMetadata {
            title: Some(name.to_string()),
            artist: None,
            duration: secs,
            thumbnail: None,
            source_url: format!("https://www.youtube.com/watch?v={}", name),
            date: None,
        },
    }
}

fn names(q: &TrackQueue<&'static str>) -> Vec<&'static str> {
    q.snapshot().iter().map(|t| t.source).collect()
}

#[test]
fn append_returns_new_length() {
    let mut q = TrackQueue::new();
    assert!(q.is_empty());
    assert!(q.current().is_none());
    assert_eq!(q.append(track("a", Some(10))), 1);
    assert_eq!(q.append(track("b", Some(20))), 2);
    assert_eq!(q.len(), 2);
    assert_eq!(q.current().unwrap().source, "a");
    assert_eq!(names(&q), vec!["a", "b"]);
}

#[test]
fn total_duration_sums_known_lengths() {
    let mut q = TrackQueue::new();
    assert_eq!(q.total_duration(), 0);
    q.append(track("a", Some(200)));
    q.append(track("b", Some(3500)));
    assert_eq!(q.total_duration(), 3700);
    assert!(!q.is_unbounded());
    assert_eq!(q.playtime(), "1:01:40");
}

#[test]
fn live_stream_makes_playtime_unbounded() {
    let mut q = TrackQueue::new();
    q.append(track("a", Some(200)));
    q.append(track("live", None));
    assert_eq!(q.total_duration(), 200);
    assert!(q.is_unbounded());
    assert_eq!(q.playtime(), "infinite");
}

#[test]
fn total_duration_saturates() {
    let mut q = TrackQueue::new();
    q.append(track("a", Some(u64::MAX)));
    q.append(track("b", Some(5)));
    assert_eq!(q.total_duration(), u64::MAX);
}

#[test]
fn empty_queue_playtime() {
    let q: TrackQueue<&'static str> = TrackQueue::new();
    assert_eq!(q.playtime(), "00:00");
}

#[test]
fn remove_front_and_skip() {
    let mut q = TrackQueue::new();
    for n in ["a", "b", "c", "d"] {
        q.append(track(n, Some(1)));
    }
    q.remove_front_n(2);
    assert_eq!(names(&q), vec!["c", "d"]);
    assert_eq!(q.skip().unwrap().source, "c");
    assert_eq!(names(&q), vec!["d"]);
    q.remove_front_n(5);
    assert!(q.is_empty());
    assert!(q.skip().is_none());
}

#[test]
fn clear_empties() {
    let mut q = TrackQueue::new();
    q.append(track("a", Some(1)));
    q.clear();
    assert_eq!(q.len(), 0);
}

#[test]
fn shuffle_tail_keeps_head_and_elements() {
    let all = ["h", "a", "b", "c", "d", "e", "f", "g"];
    for _ in 0..50 {
        let mut q = TrackQueue::new();
        for n in all {
            q.append(track(n, Some(1)));
        }
        q.shuffle_tail();
        let after = names(&q);
        assert_eq!(after.len(), all.len());
        assert_eq!(after[0], "h");
        let mut tail: Vec<&str> = after[1..].to_vec();
        tail.sort();
        assert_eq!(tail, vec!["a", "b", "c", "d", "e", "f", "g"]);
    }
}

#[test]
fn shuffle_tail_moves_something_eventually() {
    let mut moved = false;
    for _ in 0..50 {
        let mut q = TrackQueue::new();
        for n in ["h", "a", "b", "c", "d", "e"] {
            q.append(track(n, Some(1)));
        }
        q.shuffle_tail();
        if names(&q) != vec!["h", "a", "b", "c", "d", "e"] {
            moved = true;
        }
    }
    assert!(moved);
}

#[test]
fn shuffle_tail_on_short_queues() {
    let mut q = TrackQueue::new();
    q.shuffle_tail();
    assert!(q.is_empty());
    q.append(track("h", Some(1)));
    q.shuffle_tail();
    assert_eq!(names(&q), vec!["h"]);
    q.append(track("a", Some(1)));
    q.shuffle_tail();
    assert_eq!(names(&q), vec!["h", "a"]);
}

#[test]
fn fisher_yates_is_a_permutation() {
    let mut v: Vec<u32> = (0..100).collect();
    fisher_yates_shuffle(&mut v);
    let mut sorted = v.clone();
    sorted.sort();
    assert_eq!(sorted, (0..100).collect::<Vec<u32>>());
    let mut empty: Vec<u32> = Vec::new();
    fisher_yates_shuffle(&mut empty);
    assert!(empty.is_empty());
}

#[test]
fn release_date_is_shown_day_first() {
    assert_eq!(release_date_text("20230415"), "15/04/2023");
    assert_eq!(release_date_text("2023041"), "Unknown");
    assert_eq!(release_date_text(""), "Unknown");
}

#[test]
fn durstenfeld_swaps_follow_the_draws() {
    let mut v = vec![1, 2, 3];
    shuffle_with_draws(&mut v, &vec![0, 0]);
    assert_eq!(v, vec![2, 3, 1]);
    let mut v = vec![1, 2, 3];
    shuffle_with_draws(&mut v, &vec![2, 1]);
    assert_eq!(v, vec![1, 2, 3]);
    let mut v = vec![1, 2, 3, 4];
    shuffle_with_draws(&mut v, &vec![1, 0, 0]);
    assert_eq!(v, vec![4, 3, 1, 2]);
    let mut one = vec![7];
    shuffle_with_draws(&mut one, &vec![]);
    assert_eq!(one, vec![7]);
}

#[test]
fn each_permutation_from_one_draw_sequence() {
    let mut seen: Vec<Vec<u8>> = Vec::new();
    for a in 0..4usize {
        for b in 0..3usize {
            for c in 0..2usize {
                let mut v = vec![1u8, 2, 3, 4];
                shuffle_with_draws(&mut v, &vec![a, b, c]);
                assert!(!seen.contains(&v));
                seen.push(v);
            }
        }
    }
    assert_eq!(seen.len(), 24);
}
