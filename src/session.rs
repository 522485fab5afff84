//! The playback session controller: one session per room, each owning one
//! queue, with the playback controls over it.
use vstd::prelude::*;
use vstd::std_specs::hash::group_hash_axioms;

use std::collections::HashMap;

use crate::queue::{Track, TrackQueue, playtime_text};
use crate::shuffle::{durstenfeld, valid_draws};
use crate::scheduler::{
    complete_batch, failed_count, in_index_order, resolved_tracks, Outcome, PlaylistJob, PlaylistReport,
    Resolution,
};

verus! {

/// Where playback of a connected session stands.
#[derive(Clone, Copy, Debug, PartialEq, Eq, Structural)]
pub enum PlaybackState {
    Playing,
    Paused,
    /// Nothing is queued.
    Idle,
}

/// Why a control operation did nothing. None of these is fatal.
#[derive(Clone, Copy, Debug, PartialEq, Eq, Structural)]
pub enum ControlError {
    /// The room has no session.
    NotConnected,
    /// The room's queue is empty.
    QueueEmpty,
    /// A pause was asked while nothing was playing.
    NotPlaying,
    /// A resume was asked while nothing was paused.
    NotPaused,
}

/// The abstract state of a session: its queued tracks and playback state.
pub struct SessionView<S> {
    pub tracks: Seq<Track<S>>,
    pub state: PlaybackState,
}

impl<S> SessionView<S> {
    /// A session is idle exactly when its queue is empty.
    pub open spec fn wf(self) -> bool {
        (self.tracks.len() == 0) == (self.state == PlaybackState::Idle)
    }
}

/// The state a session takes once `tracks` is its queue, from `state`:
/// idle when empty, playing when tracks arrive at an idle session,
/// unchanged otherwise.
pub open spec fn settle<S>(tracks: Seq<Track<S>>, state: PlaybackState) -> PlaybackState {
    if tracks.len() == 0 {
        PlaybackState::Idle
    } else if state == PlaybackState::Idle {
        PlaybackState::Playing
    } else {
        state
    }
}

/// One room's binding to its queue.
pub struct Session<S> {
    queue: TrackQueue<S>,
    state: PlaybackState,
}

impl<S> View for Session<S> {
    type V = SessionView<S>;

    closed spec fn view(&self) -> SessionView<S> {
        SessionView { tracks: self.queue@, state: self.state }
    }
}

impl<S> Session<S> {
    pub fn queue(&self) -> (r: &TrackQueue<S>)
        ensures
            r@ == self@.tracks,
    {
        &self.queue
    }

    pub fn state(&self) -> (r: PlaybackState)
        ensures
            r == self@.state,
    {
        self.state
    }

    fn settle_state(&mut self)
        ensures
            final(self)@.tracks == old(self)@.tracks,
            final(self)@.state == settle(old(self)@.tracks, old(self)@.state),
    {
        if self.queue.is_empty() {
            self.state = PlaybackState::Idle;
        } else if self.state == PlaybackState::Idle {
            self.state = PlaybackState::Playing;
        }
    }
}

/// What the presentation layer shows of a session.
pub struct QueueStatus {
    pub queue_length: usize,
    pub playtime: String,
    pub state: PlaybackState,
}

/// The session table: at most one session per room, keyed by room id.
pub struct Controller<S> {
    sessions: HashMap<u64, Session<S>>,
}

pub open spec fn session_views<S>(m: Map<u64, Session<S>>) -> Map<u64, SessionView<S>> {
    m.map_values(|s: Session<S>| s@)
}

/// A session just opened: nothing queued.
pub open spec fn fresh_session<S>() -> SessionView<S> {
    SessionView { tracks: Seq::empty(), state: PlaybackState::Idle }
}

/// `room`'s session, or a fresh one where the room has none yet.
pub open spec fn session_or_fresh<S>(m: Map<u64, SessionView<S>>, room: u64) -> SessionView<S> {
    if m.contains_key(room) {
        m[room]
    } else {
        fresh_session()
    }
}

/// The table after `track` is queued in `room`'s session, which is opened
/// first where the room has none.
pub open spec fn after_enqueue<S>(m: Map<u64, SessionView<S>>, room: u64, track: Track<S>) -> Map<
    u64,
    SessionView<S>,
> {
    let base = session_or_fresh(m, room);
    let tracks = base.tracks.push(track);
    m.insert(room, SessionView { tracks, state: settle(tracks, base.state) })
}

/// Two enqueues in one room take effect one after the other, in the order
/// in which they took the session: both tracks are queued, adjacent, the
/// first one first, and nothing else changes.
pub proof fn lemma_enqueues_do_not_interleave<S>(
    m: Map<u64, SessionView<S>>,
    room: u64,
    first: Track<S>,
    second: Track<S>,
)
    ensures
        after_enqueue(after_enqueue(m, room, first), room, second)[room].tracks == session_or_fresh(
            m,
            room,
        ).tracks + seq![first, second],
        after_enqueue(after_enqueue(m, room, first), room, second).dom() == m.dom().insert(room),
        forall|other: u64|
            other != room && m.contains_key(other) ==> after_enqueue(
                after_enqueue(m, room, first),
                room,
                second,
            )[other] == m[other],
{
    let once = after_enqueue(m, room, first);
    let twice = after_enqueue(once, room, second);
    assert(twice[room].tracks =~= session_or_fresh(m, room).tracks + seq![first, second]);
    assert(twice.dom() =~= m.dom().insert(room));
}

impl<S> View for Controller<S> {
    type V = Map<u64, SessionView<S>>;

    closed spec fn view(&self) -> Map<u64, SessionView<S>> {
        session_views(self.sessions@)
    }
}

impl<S> Controller<S> {
    /// Every session in the table is well formed.
    pub open spec fn wf(&self) -> bool {
        forall|room: u64| #[trigger] self@.contains_key(room) ==> self@[room].wf()
    }

    pub fn new() -> (r: Self)
        ensures
            r@ == Map::<u64, SessionView<S>>::empty(),
            r.wf(),
    {
        let r = Controller { sessions: HashMap::new() };
        assert(r@ =~= Map::<u64, SessionView<S>>::empty());
        r
    }

    pub fn is_connected(&self, room: u64) -> (r: bool)
        ensures
            r == self@.contains_key(room),
    {
        broadcast use group_hash_axioms;

        self.sessions.contains_key(&room)
    }

    fn take(&mut self, room: u64) -> (r: Option<Session<S>>)
        ensures
            final(self)@ == old(self)@.remove(room),
            r.is_none() == !old(self)@.contains_key(room),
            r matches Some(s) ==> s@ == old(self)@[room],
    {
        broadcast use group_hash_axioms;

        let r = self.sessions.remove(&room);
        assert(self@ =~= old(self)@.remove(room));
        r
    }

    fn put(&mut self, room: u64, s: Session<S>)
        ensures
            final(self)@ == old(self)@.insert(room, s@),
    {
        broadcast use group_hash_axioms;

        self.sessions.insert(room, s);
        assert(self@ =~= old(self)@.insert(room, s@));
    }

    fn take_or_open(&mut self, room: u64) -> (r: Session<S>)
        requires
            old(self).wf(),
        ensures
            final(self).wf(),
            final(self)@ == old(self)@.remove(room),
            r@ == session_or_fresh(old(self)@, room),
    {
        match self.take(room) {
            Some(s) => s,
            None => Session { queue: TrackQueue::new(), state: PlaybackState::Idle },
        }
    }

    /// Opens a session for `room` with an empty queue; where one exists it
    /// is kept as it is. Returns whether a session was opened.
    pub fn connect(&mut self, room: u64) -> (r: bool)
        requires
            old(self).wf(),
        ensures
            final(self).wf(),
            r == !old(self)@.contains_key(room),
            old(self)@.contains_key(room) ==> final(self)@ == old(self)@,
            !old(self)@.contains_key(room) ==> final(self)@ == old(self)@.insert(
                room,
                SessionView { tracks: Seq::empty(), state: PlaybackState::Idle },
            ),
    {
        if self.is_connected(room) {
            false
        } else {
            let s = Session { queue: TrackQueue::new(), state: PlaybackState::Idle };
            self.put(room, s);
            true
        }
    }

    /// Ends `room`'s session and drops its queue.
    pub fn leave(&mut self, room: u64) -> (r: Result<(), ControlError>)
        requires
            old(self).wf(),
        ensures
            final(self).wf(),
            !old(self)@.contains_key(room) ==> r == Err::<(), ControlError>(ControlError::NotConnected)
                && final(self)@ == old(self)@,
            old(self)@.contains_key(room) ==> r == Ok::<(), ControlError>(()) && final(self)@
                == old(self)@.remove(room),
    {
        match self.take(room) {
            None => {
                assert(self@ =~= old(self)@);
                Err(ControlError::NotConnected)
            },
            Some(_) => Ok(()),
        }
    }

    /// Queues `track` at the tail of `room`'s queue and returns the new
    /// length; a room without a session gets one first, and an idle
    /// session starts playing.
    pub fn enqueue(&mut self, room: u64, track: Track<S>) -> (r: usize)
        requires
            old(self).wf(),
        ensures
            final(self).wf(),
            final(self)@ == after_enqueue(old(self)@, room, track),
            r == final(self)@[room].tracks.len(),
    {
        let mut s = self.take_or_open(room);
        let n = s.queue.append(track);
        s.settle_state();
        self.put(room, s);
        assert(self@ =~= after_enqueue(old(self)@, room, track));
        n
    }

    /// Pauses the playing track.
    pub fn pause(&mut self, room: u64) -> (r: Result<(), ControlError>)
        requires
            old(self).wf(),
        ensures
            final(self).wf(),
            !old(self)@.contains_key(room) ==> r == Err::<(), ControlError>(ControlError::NotConnected)
                && final(self)@ == old(self)@,
            old(self)@.contains_key(room) && old(self)@[room].state != PlaybackState::Playing ==> r
                == Err::<(), ControlError>(ControlError::NotPlaying) && final(self)@ == old(self)@,
            old(self)@.contains_key(room) && old(self)@[room].state == PlaybackState::Playing ==> r
                == Ok::<(), ControlError>(()) && final(self)@ == old(self)@.insert(
                room,
                SessionView { tracks: old(self)@[room].tracks, state: PlaybackState::Paused },
            ),
    {
        self.switch(room, PlaybackState::Playing, PlaybackState::Paused, ControlError::NotPlaying)
    }

    /// Resumes the paused track.
    pub fn resume(&mut self, room: u64) -> (r: Result<(), ControlError>)
        requires
            old(self).wf(),
        ensures
            final(self).wf(),
            !old(self)@.contains_key(room) ==> r == Err::<(), ControlError>(ControlError::NotConnected)
                && final(self)@ == old(self)@,
            old(self)@.contains_key(room) && old(self)@[room].state != PlaybackState::Paused ==> r
                == Err::<(), ControlError>(ControlError::NotPaused) && final(self)@ == old(self)@,
            old(self)@.contains_key(room) && old(self)@[room].state == PlaybackState::Paused ==> r
                == Ok::<(), ControlError>(()) && final(self)@ == old(self)@.insert(
                room,
                SessionView { tracks: old(self)@[room].tracks, state: PlaybackState::Playing },
            ),
    {
        self.switch(room, PlaybackState::Paused, PlaybackState::Playing, ControlError::NotPaused)
    }

    fn switch(&mut self, room: u64, from: PlaybackState, to: PlaybackState, refusal: ControlError) -> (r:
        Result<(), ControlError>)
        requires
            old(self).wf(),
            from != PlaybackState::Idle,
            to != PlaybackState::Idle,
        ensures
            final(self).wf(),
            !old(self)@.contains_key(room) ==> r == Err::<(), ControlError>(ControlError::NotConnected)
                && final(self)@ == old(self)@,
            old(self)@.contains_key(room) && old(self)@[room].state != from ==> r == Err::<
                (),
                ControlError,
            >(refusal) && final(self)@ == old(self)@,
            old(self)@.contains_key(room) && old(self)@[room].state == from ==> r == Ok::<
                (),
                ControlError,
            >(()) && final(self)@ == old(self)@.insert(
                room,
                SessionView { tracks: old(self)@[room].tracks, state: to },
            ),
    {
        match self.take(room) {
            None => {
                assert(self@ =~= old(self)@);
                Err(ControlError::NotConnected)
            },
            Some(mut s) => {
                let r = if s.state == from {
                    s.state = to;
                    Ok(())
                } else {
                    Err(refusal)
                };
                self.put(room, s);
                proof {
                    if old(self)@[room].state != from {
                        assert(self@ =~= old(self)@);
                    } else {
                        assert(self@ =~= old(self)@.insert(
                            room,
                            SessionView { tracks: old(self)@[room].tracks, state: to },
                        ));
                    }
                }
                r
            },
        }
    }

    /// Drops the head of `room`'s queue; the next track plays, or the
    /// session turns idle when none is left. Returns the dropped track.
    pub fn skip(&mut self, room: u64) -> (r: Result<Track<S>, ControlError>)
        requires
            old(self).wf(),
        ensures
            final(self).wf(),
            !old(self)@.contains_key(room) ==> (r matches Err(e) && e == ControlError::NotConnected
                && final(self)@ == old(self)@),
            old(self)@.contains_key(room) && old(self)@[room].tracks.len() == 0 ==> (r matches Err(e)
                && e == ControlError::QueueEmpty && final(self)@ == old(self)@),
            old(self)@.contains_key(room) && old(self)@[room].tracks.len() > 0 ==> {
                let rest = old(self)@[room].tracks.drop_first();
                &&& r matches Ok(t) && t == old(self)@[room].tracks[0]
                &&& final(self)@ == old(self)@.insert(
                    room,
                    SessionView {
                        tracks: rest,
                        state: if rest.len() == 0 {
                            PlaybackState::Idle
                        } else {
                            PlaybackState::Playing
                        },
                    },
                )
            },
    {
        match self.take(room) {
            None => {
                assert(self@ =~= old(self)@);
                Err(ControlError::NotConnected)
            },
            Some(mut s) => {
                match s.queue.skip() {
                    None => {
                        self.put(room, s);
                        assert(self@ =~= old(self)@);
                        Err(ControlError::QueueEmpty)
                    },
                    Some(t) => {
                        if s.queue.is_empty() {
                            s.state = PlaybackState::Idle;
                        } else {
                            s.state = PlaybackState::Playing;
                        }
                        self.put(room, s);
                        Ok(t)
                    },
                }
            },
        }
    }

    /// Empties `room`'s queue; the session stays, idle.
    pub fn stop(&mut self, room: u64) -> (r: Result<(), ControlError>)
        requires
            old(self).wf(),
        ensures
            final(self).wf(),
            !old(self)@.contains_key(room) ==> r == Err::<(), ControlError>(ControlError::NotConnected)
                && final(self)@ == old(self)@,
            old(self)@.contains_key(room) ==> r == Ok::<(), ControlError>(()) && final(self)@
                == old(self)@.insert(
                room,
                SessionView { tracks: Seq::empty(), state: PlaybackState::Idle },
            ),
    {
        match self.take(room) {
            None => {
                assert(self@ =~= old(self)@);
                Err(ControlError::NotConnected)
            },
            Some(mut s) => {
                s.queue.clear();
                s.state = PlaybackState::Idle;
                self.put(room, s);
                Ok(())
            },
        }
    }

    /// Shuffles every track of `room`'s queue but the head.
    pub fn shuffle(&mut self, room: u64) -> (r: Result<(), ControlError>)
        requires
            old(self).wf(),
        ensures
            final(self).wf(),
            final(self)@.dom() == old(self)@.dom(),
            forall|other: u64| other != room && #[trigger] old(self)@.contains_key(other) ==> final(self)@[other]
                == old(self)@[other],
            !old(self)@.contains_key(room) ==> r == Err::<(), ControlError>(ControlError::NotConnected),
            old(self)@.contains_key(room) ==> {
                let before = old(self)@[room].tracks;
                let after = final(self)@[room].tracks;
                &&& r == Ok::<(), ControlError>(())
                &&& final(self)@[room].state == old(self)@[room].state
                &&& after.len() == before.len()
                &&& before.len() > 0 ==> after[0] == before[0]
                &&& before.len() > 0 ==> after.subrange(1, after.len() as int).to_multiset()
                    == before.subrange(1, before.len() as int).to_multiset()
                &&& before.len() > 0 ==> exists|d: Seq<usize>|
                    valid_draws(d, (before.len() - 1) as nat) && after.subrange(1, after.len() as int)
                        == durstenfeld(before.subrange(1, before.len() as int), d)
            },
    {
        match self.take(room) {
            None => {
                assert(self@ =~= old(self)@);
                Err(ControlError::NotConnected)
            },
            Some(mut s) => {
                s.queue.shuffle_tail();
                self.put(room, s);
                assert(self@.dom() =~= old(self)@.dom());
                Ok(())
            },
        }
    }

    /// The session of `room`, for reading.
    pub fn session(&self, room: u64) -> (r: Result<&Session<S>, ControlError>)
        ensures
            !self@.contains_key(room) ==> (r matches Err(e) && e == ControlError::NotConnected),
            self@.contains_key(room) ==> (r matches Ok(s) && s@ == self@[room]),
    {
        broadcast use group_hash_axioms;

        match self.sessions.get(&room) {
            None => Err(ControlError::NotConnected),
            Some(s) => Ok(s),
        }
    }

    /// The head of `room`'s queue.
    pub fn current(&self, room: u64) -> (r: Result<&Track<S>, ControlError>)
        ensures
            !self@.contains_key(room) ==> (r matches Err(e) && e == ControlError::NotConnected),
            self@.contains_key(room) && self@[room].tracks.len() == 0 ==> (r matches Err(e) && e
                == ControlError::QueueEmpty),
            self@.contains_key(room) && self@[room].tracks.len() > 0 ==> (r matches Ok(t) && *t
                == self@[room].tracks[0]),
    {
        match self.session(room) {
            Err(e) => Err(e),
            Ok(s) => match s.queue.current() {
                None => Err(ControlError::QueueEmpty),
                Some(t) => Ok(t),
            },
        }
    }

    /// Length, shown playtime and state of `room`'s queue.
    pub fn status(&self, room: u64) -> (r: Result<QueueStatus, ControlError>)
        ensures
            !self@.contains_key(room) ==> (r matches Err(e) && e == ControlError::NotConnected),
            self@.contains_key(room) && self@[room].tracks.len() == 0 ==> (r matches Err(e) && e
                == ControlError::QueueEmpty),
            self@.contains_key(room) && self@[room].tracks.len() > 0 ==> (r matches Ok(st) && {
                &&& st.queue_length == self@[room].tracks.len()
                &&& st.playtime@ == playtime_text(self@[room].tracks)
                &&& st.state == self@[room].state
            }),
    {
        match self.session(room) {
            Err(e) => Err(e),
            Ok(s) => {
                if s.queue.is_empty() {
                    Err(ControlError::QueueEmpty)
                } else {
                    Ok(QueueStatus { queue_length: s.queue.len(), playtime: s.queue.playtime(), state: s.state })
                }
            },
        }
    }

    /// Hands the fast path's result for `job`'s current item to `room`'s
    /// session, opened first where the room has none: a resolved track is
    /// queued at once.
    pub fn record_fast_path(&mut self, room: u64, job: &mut PlaylistJob, result: Resolution<S>)
        requires
            old(self).wf(),
            old(job)@.wf(),
            old(job)@.fast_path_open(),
        ensures
            final(self).wf(),
            final(job)@.wf(),
            final(job)@.items == old(job)@.items,
            final(job)@.cursor == old(job)@.cursor + 1,
            match result {
                Resolution::Resolved(t) => {
                    &&& final(self)@ == after_enqueue(old(self)@, room, t)
                    &&& final(job)@.head_found
                    &&& final(job)@.dropped == old(job)@.dropped
                },
                Resolution::Failed(_) => {
                    &&& final(self)@ == old(self)@.insert(room, session_or_fresh(old(self)@, room))
                    &&& !final(job)@.head_found
                    &&& final(job)@.dropped == old(job)@.dropped + 1
                },
            },
    {
        let mut s = self.take_or_open(room);
        let ghost resolved = result;
        job.record_fast_path(&mut s.queue, result);
        s.settle_state();
        self.put(room, s);
        proof {
            match resolved {
                Resolution::Resolved(t) => {
                    assert(self@ =~= after_enqueue(old(self)@, room, t));
                },
                Resolution::Failed(_) => {
                    assert(self@ =~= old(self)@.insert(room, session_or_fresh(old(self)@, room)));
                },
            }
        }
    }

    /// Commits `job`'s concurrent batch to `room`'s session (opened first
    /// where the room has none), in position order, and reports the
    /// playlist's result once.
    pub fn commit_batch(&mut self, room: u64, job: &PlaylistJob, outs: Vec<Outcome<S>>) -> (r: PlaylistReport)
        requires
            old(self).wf(),
            job@.wf(),
            !job@.fast_path_open(),
            complete_batch(outs@, job@.cursor as int, job@.items.len() as int),
        ensures
            final(self).wf(),
            ({
                let order = in_index_order(outs@, job@.cursor as int, job@.items.len() as int);
                let base = session_or_fresh(old(self)@, room);
                let tracks = base.tracks + resolved_tracks(order);
                &&& final(self)@ == old(self)@.insert(
                    room,
                    SessionView { tracks, state: settle(tracks, base.state) },
                )
                &&& r.queue_length == tracks.len()
                &&& r.enqueued == resolved_tracks(order).len()
                &&& r.failures == job@.dropped + failed_count(order)
            }),
    {
        let mut s = self.take_or_open(room);
        let rep = job.commit_batch(&mut s.queue, outs);
        s.settle_state();
        self.put(room, s);
        rep
    }
}

} // verus!
