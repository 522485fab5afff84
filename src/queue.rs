//! The ordered track queue of one playback session.
use vstd::prelude::*;
use vstd::string::{StrSliceExecFns, StringExecFns};

use crate::shuffle::{durstenfeld, fisher_yates_shuffle, valid_draws};
use crate::time_format::{clock_text, to_time};

verus! {

/// What is known of a resolved track.
pub struct TrackMetadata {
    pub title: Option<String>,
    pub artist: Option<String>,
    /// Length in seconds; absent for a live stream, which has no end.
    pub duration: Option<u64>,
    pub thumbnail: Option<String>,
    pub source_url: String,
    pub date: Option<String>,
}

/// A release date given as `YYYYMMDD`, shown as `DD/MM/YYYY`; a date too
/// short to hold the three parts shows as `Unknown`.
pub open spec fn release_date_spec(d: Seq<char>) -> Seq<char> {
    if d.len() >= 8 {
        d.subrange(6, 8) + seq!['/'] + d.subrange(4, 6) + seq!['/'] + d.subrange(0, 4)
    } else {
        seq!['U', 'n', 'k', 'n', 'o', 'w', 'n']
    }
}

pub fn release_date_text(date: &str) -> (r: String)
    ensures
        r@ == release_date_spec(date@),
{
    let n = date.unicode_len();
    proof {
        reveal_strlit("Unknown");
        reveal_strlit("/");
    }
    if n < 8 {
        return String::from_str("Unknown");
    }
    let mut out = String::from_str(date.substring_char(6, 8));
    out.append("/");
    out.append(date.substring_char(4, 6));
    out.append("/");
    out.append(date.substring_char(0, 4));
    out
}

/// A playable source together with its metadata.
pub struct Track<S> {
    pub source: S,
    pub metadata: TrackMetadata,
}

/// The length a track adds to the total: its duration, or nothing when it
/// has none.
pub open spec fn known_secs<S>(t: Track<S>) -> nat {
    match t.metadata.duration {
        Some(d) => d as nat,
        None => 0,
    }
}

/// Sum of the known durations of `s`.
pub open spec fn total_secs<S>(s: Seq<Track<S>>) -> nat
    decreases s.len(),
{
    if s.len() == 0 {
        0
    } else {
        total_secs(s.drop_last()) + known_secs(s.last())
    }
}

/// Some track of `s` has no known end.
pub open spec fn has_unbounded<S>(s: Seq<Track<S>>) -> bool {
    exists|i: int| 0 <= i < s.len() && (#[trigger] s[i]).metadata.duration.is_none()
}

pub open spec fn saturate(n: nat) -> u64 {
    if n <= u64::MAX {
        n as u64
    } else {
        u64::MAX
    }
}

/// The text shown as a queue's total playtime.
pub open spec fn playtime_text<S>(s: Seq<Track<S>>) -> Seq<char> {
    if has_unbounded(s) {
        seq!['i', 'n', 'f', 'i', 'n', 'i', 't', 'e']
    } else {
        clock_text(saturate(total_secs(s)) as nat)
    }
}

/// The tracks of one session in playback order; the head is the track that
/// plays or is about to play. Callers hold the session's lock for every
/// mutating call.
pub struct TrackQueue<S> {
    tracks: Vec<Track<S>>,
}

impl<S> View for TrackQueue<S> {
    type V = Seq<Track<S>>;

    closed spec fn view(&self) -> Seq<Track<S>> {
        self.tracks@
    }
}

impl<S> TrackQueue<S> {
    pub fn new() -> (r: Self)
        ensures
            r@ == Seq::<Track<S>>::empty(),
    {
        TrackQueue { tracks: Vec::new() }
    }

    pub fn len(&self) -> (r: usize)
        ensures
            r == self@.len(),
    {
        self.tracks.len()
    }

    pub fn is_empty(&self) -> (r: bool)
        ensures
            r == (self@.len() == 0),
    {
        self.tracks.len() == 0
    }

    /// Adds `track` at the tail and returns the new length.
    pub fn append(&mut self, track: Track<S>) -> (r: usize)
        ensures
            final(self)@ == old(self)@.push(track),
            r == final(self)@.len(),
    {
        self.tracks.push(track);
        self.tracks.len()
    }

    /// The head of the queue, if any.
    pub fn current(&self) -> (r: Option<&Track<S>>)
        ensures
            self@.len() == 0 ==> r.is_none(),
            self@.len() > 0 ==> r == Some(&self@[0]),
    {
        if self.tracks.len() == 0 {
            None
        } else {
            Some(&self.tracks[0])
        }
    }

    /// Read-only view of the queued tracks, in order.
    pub fn snapshot(&self) -> (r: &[Track<S>])
        ensures
            r@ == self@,
    {
        self.tracks.as_slice()
    }

    /// Empties the queue.
    pub fn clear(&mut self)
        ensures
            final(self)@ == Seq::<Track<S>>::empty(),
    {
        self.tracks.clear();
    }

    /// Drops the first `k` tracks (all of them when fewer are queued).
    pub fn remove_front_n(&mut self, k: usize)
        ensures
            k >= old(self)@.len() ==> final(self)@ == Seq::<Track<S>>::empty(),
            k < old(self)@.len() ==> final(self)@ == old(self)@.subrange(
                k as int,
                old(self)@.len() as int,
            ),
    {
        if k >= self.tracks.len() {
            self.tracks.clear();
        } else {
            let rest = self.tracks.split_off(k);
            self.tracks = rest;
        }
    }

    /// Removes and returns the head; the next track becomes the head.
    pub fn skip(&mut self) -> (r: Option<Track<S>>)
        ensures
            old(self)@.len() == 0 ==> r.is_none() && final(self)@ == old(self)@,
            old(self)@.len() > 0 ==> r == Some(old(self)@[0]) && final(self)@ == old(self)@.drop_first(),
    {
        if self.tracks.len() == 0 {
            None
        } else {
            let t = self.tracks.remove(0);
            assert(old(self)@.remove(0) =~= old(self)@.drop_first());
            Some(t)
        }
    }

    /// Shuffles every track but the head, which stays in place: the tail
    /// becomes Durstenfeld's shuffle of itself under some valid draws, and
    /// so holds exactly the tracks it held before.
    pub fn shuffle_tail(&mut self)
        ensures
            final(self)@.len() == old(self)@.len(),
            old(self)@.len() > 0 ==> final(self)@[0] == old(self)@[0],
            old(self)@.len() > 0 ==> exists|d: Seq<usize>|
                valid_draws(d, (old(self)@.len() - 1) as nat) && final(self)@.subrange(
                    1,
                    final(self)@.len() as int,
                ) == durstenfeld(old(self)@.subrange(1, old(self)@.len() as int), d),
            old(self)@.len() > 0 ==> final(self)@.subrange(1, final(self)@.len() as int).to_multiset()
                == old(self)@.subrange(1, old(self)@.len() as int).to_multiset(),
    {
        if self.tracks.len() < 2 {
            proof {
                if self@.len() == 1 {
                    let d = Seq::<usize>::empty();
                    assert(valid_draws(d, 0));
                    assert(self@.subrange(1, 1) =~= Seq::<Track<S>>::empty());
                    assert(durstenfeld(self@.subrange(1, 1), d) == self@.subrange(1, 1));
                }
            }
            return;
        }
        let mut tail = self.tracks.split_off(1);
        fisher_yates_shuffle(&mut tail);
        let ghost shuffled = tail@;
        self.tracks.append(&mut tail);
        assert(self@.subrange(1, self@.len() as int) =~= shuffled);
    }
}

impl<S> TrackQueue<S> {
    /// Sum of the known durations in seconds, saturating at `u64::MAX`.
    pub fn total_duration(&self) -> (r: u64)
        ensures
            r == saturate(total_secs(self@)),
    {
        let mut acc: u64 = 0;
        let mut i: usize = 0;
        while i < self.tracks.len()
            invariant
                i <= self@.len(),
                acc == saturate(total_secs(self@.subrange(0, i as int))),
            decreases self@.len() - i,
        {
            let d: u64 = match self.tracks[i].metadata.duration {
                Some(d) => d,
                None => 0,
            };
            assert(self@.subrange(0, i + 1).drop_last() =~= self@.subrange(0, i as int));
            acc = acc.saturating_add(d);
            i += 1;
        }
        assert(self@.subrange(0, i as int) =~= self@);
        acc
    }

    /// Whether some queued track has no known end (a live stream).
    pub fn is_unbounded(&self) -> (r: bool)
        ensures
            r == has_unbounded(self@),
    {
        let mut i: usize = 0;
        while i < self.tracks.len()
            invariant
                i <= self@.len(),
                forall|j: int| 0 <= j < i ==> (#[trigger] self@[j]).metadata.duration.is_some(),
            decreases self@.len() - i,
        {
            if self.tracks[i].metadata.duration.is_none() {
                return true;
            }
            i += 1;
        }
        false
    }

    /// The total playtime as shown: `infinite` when a live stream is
    /// queued, the formatted sum of durations otherwise.
    pub fn playtime(&self) -> (r: String)
        ensures
            r@ == playtime_text(self@),
    {
        if self.is_unbounded() {
            proof { reveal_strlit("infinite"); }
            String::from_str("infinite")
        } else {
            to_time(self.total_duration())
        }
    }
}

} // verus!
