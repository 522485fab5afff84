//! Resolution of a playlist into queued tracks: the item listing is parsed,
//! the first playable item is queued at once, and the rest are resolved
//! concurrently and committed in their original order.
use vstd::prelude::*;

use crate::queue::{Track, TrackQueue};

verus! {

/// The item links that the listing tool prints, one capture per item.
pub const WATCH_LINK_PATTERN: &'static str = "\"url\": \"(https://www.youtube.com/watch\\?v=[A-Za-z0-9]{11})\"";

/// What the first capture group of `pattern` yields on each successive
/// non-overlapping match in `text`.
pub uninterp spec fn first_groups_of(pattern: Seq<char>, text: Seq<char>) -> Seq<Seq<char>>;

pub open spec fn string_views(v: Seq<String>) -> Seq<Seq<char>> {
    v.map_values(|s: String| s@)
}

/// Relies on regex's `Regex::new` and `Regex::captures_iter`: compiles
/// `pattern` (`None` when it does not compile; the item-link pattern is
/// valid syntax and compiles) and takes the first group of each match in
/// `text`, in order of the matches.
#[verifier::external_body]
fn capture_first_groups(pattern: &str, text: &str) -> (r: Option<Vec<String>>)
    ensures
        r matches Some(v) ==> string_views(v@) == first_groups_of(pattern@, text@),
        pattern@ == WATCH_LINK_PATTERN@ ==> r.is_some(),
{
    match regex::Regex::new(pattern) {
        Ok(re) => Some(
            re.captures_iter(text).map(|c| c.get(1).map_or("", |m| m.as_str()).to_string()).collect(),
        ),
        Err(_) => None,
    }
}

/// The playlist could not be listed at all.
#[derive(Clone, Copy, Debug, PartialEq, Eq, Structural)]
pub enum PlaylistError {
    ListingFailure,
}

/// Why one item could not be resolved.
pub struct ResolutionFailure {
    pub reference: String,
    pub cause: String,
}

/// The result of resolving one item.
pub enum Resolution<S> {
    Resolved(Track<S>),
    Failed(ResolutionFailure),
}

/// A resolution result tagged with the item's position in the listing.
pub struct Outcome<S> {
    pub index: usize,
    pub result: Resolution<S>,
}

/// What a finished playlist reports, once.
#[derive(Clone, Copy, Debug, PartialEq, Eq, Structural)]
pub struct PlaylistReport {
    /// Tracks queued by the concurrent batch.
    pub enqueued: usize,
    /// Items that failed, on the fast path and in the batch together.
    pub failures: usize,
    /// The queue's length afterwards.
    pub queue_length: usize,
}

/// The item references that a listing output names.
pub open spec fn listed_items(raw: Seq<char>) -> Seq<Seq<char>> {
    first_groups_of(WATCH_LINK_PATTERN@, raw)
}

/// Reads the item references out of the listing tool's output.
pub fn parse_listing(raw: &str) -> (r: Option<Vec<String>>)
    ensures
        r.is_some(),
        r matches Some(v) ==> string_views(v@) == listed_items(raw@),
{
    capture_first_groups(WATCH_LINK_PATTERN, raw)
}

/// The tracks of the resolved results of `rs`, in order.
pub open spec fn resolved_tracks<S>(rs: Seq<Resolution<S>>) -> Seq<Track<S>>
    decreases rs.len(),
{
    if rs.len() == 0 {
        Seq::empty()
    } else {
        let init = resolved_tracks(rs.drop_last());
        match rs.last() {
            Resolution::Resolved(t) => init.push(t),
            Resolution::Failed(_) => init,
        }
    }
}

/// The number of failed results in `rs`.
pub open spec fn failed_count<S>(rs: Seq<Resolution<S>>) -> nat
    decreases rs.len(),
{
    if rs.len() == 0 {
        0
    } else {
        failed_count(rs.drop_last()) + match rs.last() {
            Resolution::Resolved(_) => 0nat,
            Resolution::Failed(_) => 1nat,
        }
    }
}

/// Some outcome of `outs` carries index `i`.
pub open spec fn has_index<S>(outs: Seq<Outcome<S>>, i: int) -> bool {
    exists|j: int| 0 <= j < outs.len() && (#[trigger] outs[j]).index == i
}

/// The outcomes of a batch over positions `base..end`: each index lies in
/// that range, no two outcomes share one, and every position has one.
pub open spec fn complete_batch<S>(outs: Seq<Outcome<S>>, base: int, end: int) -> bool {
    &&& base <= end
    &&& forall|j: int| 0 <= j < outs.len() ==> base <= (#[trigger] outs[j]).index < end
    &&& forall|j: int, l: int|
        0 <= j < outs.len() && 0 <= l < outs.len() && j != l ==> (#[trigger] outs[j]).index
            != (#[trigger] outs[l]).index
    &&& forall|i: int| base <= i < end ==> has_index(outs, i)
}

/// The result reported for position `i`.
pub open spec fn result_at<S>(outs: Seq<Outcome<S>>, i: int) -> Resolution<S> {
    outs[choose|j: int| 0 <= j < outs.len() && (#[trigger] outs[j]).index == i].result
}

/// The results of positions `base..end`, in position order, whatever order
/// the outcomes arrived in.
pub open spec fn in_index_order<S>(outs: Seq<Outcome<S>>, base: int, end: int) -> Seq<Resolution<S>> {
    Seq::new((end - base) as nat, |k: int| result_at(outs, base + k))
}

proof fn lemma_result_at<S>(outs: Seq<Outcome<S>>, base: int, end: int, j: int)
    requires
        complete_batch(outs, base, end),
        0 <= j < outs.len(),
    ensures
        result_at(outs, outs[j].index as int) == outs[j].result,
{
    let i = outs[j].index as int;
    assert(has_index(outs, i));
    let c = choose|l: int| 0 <= l < outs.len() && (#[trigger] outs[l]).index == i;
    assert(outs[c].index == outs[j].index);
}

/// The results of a batch are committed in position order, so two arrivals
/// of the same outcomes in different completion orders commit the same
/// results in the same order.
pub proof fn lemma_commit_order_ignores_completion_order<S>(
    first: Seq<Outcome<S>>,
    second: Seq<Outcome<S>>,
    base: int,
    end: int,
)
    requires
        complete_batch(first, base, end),
        first.to_multiset() == second.to_multiset(),
    ensures
        complete_batch(second, base, end),
        in_index_order(first, base, end) == in_index_order(second, base, end),
{
    broadcast use vstd::seq_lib::group_to_multiset_ensures;

    assert forall|j: int| 0 <= j < second.len() implies first.contains(#[trigger] second[j]) by {
        assert(second.contains(second[j]));
        assert(second.to_multiset().count(second[j]) > 0);
    }
    assert forall|j: int| 0 <= j < first.len() implies second.contains(#[trigger] first[j]) by {
        assert(first.contains(first[j]));
        assert(first.to_multiset().count(first[j]) > 0);
    }
    assert(first.no_duplicates()) by {
        assert forall|j: int, l: int| 0 <= j < first.len() && 0 <= l < first.len() && j != l implies
            first[j] != first[l] by {
            assert(first[j].index != first[l].index);
        }
    }
    first.lemma_multiset_has_no_duplicates();
    second.lemma_multiset_has_no_duplicates_conv();
    assert forall|j: int, l: int|
        0 <= j < second.len() && 0 <= l < second.len() && j != l implies (#[trigger] second[j]).index
        != (#[trigger] second[l]).index by {
        if second[j].index == second[l].index {
            assert(first.contains(second[j]));
            assert(first.contains(second[l]));
            let a = choose|x: int| 0 <= x < first.len() && first[x] == second[j];
            let b = choose|x: int| 0 <= x < first.len() && first[x] == second[l];
            assert(first[a].index == first[b].index);
            assert(a == b);
        }
    }
    assert forall|i: int| base <= i < end implies has_index(second, i) by {
        assert(has_index(first, i));
        let j = choose|j: int| 0 <= j < first.len() && (#[trigger] first[j]).index == i;
        assert(second.contains(first[j]));
        let l = choose|l: int| 0 <= l < second.len() && second[l] == first[j];
        assert(second[l].index == i);
    }
    assert forall|i: int| base <= i < end implies #[trigger] result_at(first, i) == result_at(second, i) by {
        assert(has_index(first, i));
        let j = choose|j: int| 0 <= j < first.len() && (#[trigger] first[j]).index == i;
        lemma_result_at(first, base, end, j);
        let l = choose|l: int| 0 <= l < second.len() && second[l] == first[j];
        lemma_result_at(second, base, end, l);
    }
    let x = in_index_order(first, base, end);
    let y = in_index_order(second, base, end);
    assert forall|k: int| 0 <= k < x.len() implies #[trigger] x[k] == y[k] by {
        assert(result_at(first, base + k) == result_at(second, base + k));
    }
    assert(x =~= y);
}

/// A listing with no items left for the batch commits nothing and reports
/// no failure of its own: the queue keeps its length.
pub proof fn lemma_empty_batch_commits_nothing<S>(outs: Seq<Outcome<S>>, base: int)
    requires
        complete_batch(outs, base, base),
    ensures
        outs.len() == 0,
        resolved_tracks(in_index_order(outs, base, base)).len() == 0,
        failed_count(in_index_order(outs, base, base)) == 0,
{
    if outs.len() > 0 {
        let first = outs[0];
        assert(base <= first.index < base);
    }
    assert(in_index_order(outs, base, base).len() == 0);
}

proof fn lemma_counts_bounded<S>(rs: Seq<Resolution<S>>)
    ensures
        failed_count(rs) + resolved_tracks(rs).len() == rs.len(),
    decreases rs.len(),
{
    if rs.len() > 0 {
        lemma_counts_bounded(rs.drop_last());
    }
}

/// The abstract state of a playlist job.
pub struct PlaylistJobView {
    /// The item references, in listing order.
    pub items: Seq<Seq<char>>,
    /// How many items the fast path has tried.
    pub cursor: nat,
    /// Items that failed on the fast path.
    pub dropped: nat,
    /// The fast path has queued a track.
    pub head_found: bool,
}

/// A playlist being resolved: first the fast path, one item at a time until
/// one resolves, then one concurrent batch over every item left.
pub struct PlaylistJob {
    items: Vec<String>,
    cursor: usize,
    dropped: usize,
    head_found: bool,
}

impl View for PlaylistJob {
    type V = PlaylistJobView;

    closed spec fn view(&self) -> PlaylistJobView {
        PlaylistJobView {
            items: string_views(self.items@),
            cursor: self.cursor as nat,
            dropped: self.dropped as nat,
            head_found: self.head_found,
        }
    }
}

impl PlaylistJobView {
    /// Every item before the cursor was tried on the fast path: all of them
    /// failed but, once the head is found, the last one.
    pub open spec fn wf(self) -> bool {
        &&& self.cursor <= self.items.len()
        &&& if self.head_found {
            self.cursor >= 1 && self.dropped == self.cursor - 1
        } else {
            self.dropped == self.cursor
        }
    }

    /// The fast path still has an item to try.
    pub open spec fn fast_path_open(self) -> bool {
        !self.head_found && self.cursor < self.items.len()
    }
}

impl PlaylistJob {
    /// A job over `items`, in listing order, before any resolution.
    pub fn new(items: Vec<String>) -> (r: Self)
        ensures
            r@.items == string_views(items@),
            r@.cursor == 0,
            r@.dropped == 0,
            !r@.head_found,
            r@.wf(),
    {
        PlaylistJob { items, cursor: 0, dropped: 0, head_found: false }
    }

    /// A job over the items of the listing tool's output; `listing` is
    /// `None` when the listing call itself failed. An output that names no
    /// item gives an empty job, not an error.
    pub fn from_listing(listing: Option<&str>) -> (r: Result<Self, PlaylistError>)
        ensures
            listing.is_none() ==> r == Err::<Self, PlaylistError>(PlaylistError::ListingFailure),
            listing.is_some() ==> r.is_ok(),
            r matches Ok(job) ==> {
                &&& listing matches Some(raw)
                &&& job@.items == listed_items(raw@)
                &&& job@.cursor == 0 && job@.dropped == 0 && !job@.head_found
                &&& job@.wf()
            },
            r matches Err(e) ==> e == PlaylistError::ListingFailure,
    {
        match listing {
            None => Err(PlaylistError::ListingFailure),
            Some(raw) => match parse_listing(raw) {
                Some(items) => Ok(PlaylistJob::new(items)),
                None => Err(PlaylistError::ListingFailure),
            },
        }
    }

    pub fn item_count(&self) -> (r: usize)
        ensures
            r == self@.items.len(),
    {
        self.items.len()
    }

    /// Items that failed on the fast path so far.
    pub fn dropped(&self) -> (r: usize)
        ensures
            r == self@.dropped,
    {
        self.dropped
    }

    /// Whether the fast path has queued a track.
    pub fn head_found(&self) -> (r: bool)
        ensures
            r == self@.head_found,
    {
        self.head_found
    }

    /// The item the fast path resolves next, with its position; `None` once
    /// a track was queued or every item was tried.
    pub fn fast_path_item(&self) -> (r: Option<(usize, &String)>)
        requires
            self@.wf(),
        ensures
            r.is_some() == self@.fast_path_open(),
            r matches Some(p) ==> p.0 == self@.cursor && p.1@ == self@.items[p.0 as int],
    {
        if !self.head_found && self.cursor < self.items.len() {
            Some((self.cursor, &self.items[self.cursor]))
        } else {
            None
        }
    }

    /// Takes the fast path's result for its current item: a resolved track
    /// is queued at once and ends the fast path; a failure drops the item.
    pub fn record_fast_path<S>(&mut self, queue: &mut TrackQueue<S>, result: Resolution<S>)
        requires
            old(self)@.wf(),
            old(self)@.fast_path_open(),
        ensures
            final(self)@.wf(),
            final(self)@.items == old(self)@.items,
            final(self)@.cursor == old(self)@.cursor + 1,
            match result {
                Resolution::Resolved(t) => {
                    &&& final(queue)@ == old(queue)@.push(t)
                    &&& final(self)@.head_found
                    &&& final(self)@.dropped == old(self)@.dropped
                },
                Resolution::Failed(_) => {
                    &&& final(queue)@ == old(queue)@
                    &&& !final(self)@.head_found
                    &&& final(self)@.dropped == old(self)@.dropped + 1
                },
            },
    {
        let n = self.items.len();
        assert(self@.items.len() == n);
        match result {
            Resolution::Resolved(t) => {
                queue.append(t);
                self.head_found = true;
            },
            Resolution::Failed(_) => {
                self.dropped = self.dropped + 1;
            },
        }
        self.cursor = self.cursor + 1;
    }

    /// The items left for the concurrent batch, each with its position.
    pub fn pending(&self) -> (r: Vec<(usize, String)>)
        requires
            self@.wf(),
        ensures
            r@.len() == self@.items.len() - self@.cursor,
            forall|k: int|
                0 <= k < r@.len() ==> (#[trigger] r@[k]).0 == self@.cursor + k && r@[k].1@
                    == self@.items[self@.cursor + k],
    {
        let mut r: Vec<(usize, String)> = Vec::new();
        let mut i = self.cursor;
        while i < self.items.len()
            invariant
                self.cursor <= i <= self.items@.len(),
                r@.len() == i - self.cursor,
                forall|k: int|
                    0 <= k < r@.len() ==> (#[trigger] r@[k]).0 == self.cursor + k && r@[k].1@
                        == self.items@[self.cursor + k]@,
            decreases self.items@.len() - i,
        {
            r.push((i, self.items[i].clone()));
            i += 1;
        }
        r
    }

    /// Whether `outs` holds exactly one outcome for each pending item.
    pub fn outcomes_complete<S>(&self, outs: &Vec<Outcome<S>>) -> (r: bool)
        requires
            self@.wf(),
        ensures
            r == complete_batch(outs@, self@.cursor as int, self@.items.len() as int),
    {
        let base = self.cursor;
        let end = self.items.len();
        assert(self@.items.len() == end);
        let ghost o = outs@;
        let mut seen: Vec<bool> = Vec::new();
        while seen.len() < end - base
            invariant
                base <= end,
                seen@.len() <= end - base,
                forall|k: int| 0 <= k < seen@.len() ==> !seen@[k],
            decreases end - base - seen@.len(),
        {
            seen.push(false);
        }
        let mut j: usize = 0;
        while j < outs.len()
            invariant
                base == self@.cursor,
                end == self@.items.len(),
                base <= end,
                seen@.len() == end - base,
                j <= o.len(),
                o == outs@,
                forall|a: int| 0 <= a < j ==> base <= (#[trigger] o[a]).index < end,
                forall|a: int, b: int| 0 <= a < j && 0 <= b < j && a != b ==> (#[trigger] o[a]).index
                    != (#[trigger] o[b]).index,
                forall|k: int| 0 <= k < end - base ==> (seen@[k] <==> exists|a: int| 0 <= a < j && (#[trigger] o[a]).index == base + k),
            decreases o.len() - j,
        {
            let idx = outs[j].index;
            if idx < base || idx >= end {
                assert(!complete_batch(o, base as int, end as int)) by {
                    assert(!(base <= o[j as int].index < end));
                }
                return false;
            }
            if seen[idx - base] {
                assert(exists|a: int| 0 <= a < j && (#[trigger] o[a]).index == idx);
                let ghost a = choose|a: int| 0 <= a < j && (#[trigger] o[a]).index == idx;
                assert(o[a].index == o[j as int].index && a != j);
                assert(!complete_batch(o, base as int, end as int));
                return false;
            }
            seen[idx - base] = true;
            j += 1;
        }
        let mut k: usize = 0;
        while k < end - base
            invariant
                base == self@.cursor,
                end == self@.items.len(),
                base <= end,
                seen@.len() == end - base,
                j == o.len(),
                o == outs@,
                forall|q: int| 0 <= q < k ==> seen@[q],
                forall|q: int| 0 <= q < end - base ==> (seen@[q] <==> exists|a: int| 0 <= a < j && (#[trigger] o[a]).index == base + q),
            decreases end - base - k,
        {
            if !seen[k] {
                assert(!has_index(o, base + k));
                assert(!complete_batch(o, base as int, end as int));
                return false;
            }
            k += 1;
        }
        assert forall|i: int| base <= i < end implies has_index(o, i) by {
            assert(seen@[i - base]);
        }
        true
    }

    /// Commits the concurrent batch: the resolved tracks are appended in
    /// the order of their positions, whatever order they arrived in, and
    /// the failures of the fast path and of the batch are reported once,
    /// together.
    pub fn commit_batch<S>(&self, queue: &mut TrackQueue<S>, outs: Vec<Outcome<S>>) -> (r: PlaylistReport)
        requires
            self@.wf(),
            !self@.fast_path_open(),
            complete_batch(outs@, self@.cursor as int, self@.items.len() as int),
        ensures
            ({
                let order = in_index_order(outs@, self@.cursor as int, self@.items.len() as int);
                &&& final(queue)@ == old(queue)@ + resolved_tracks(order)
                &&& r.enqueued == resolved_tracks(order).len()
                &&& r.failures == self@.dropped + failed_count(order)
                &&& r.queue_length == final(queue)@.len()
            }),
    {
        let base = self.cursor;
        let end = self.items.len();
        assert(self@.items.len() == end);
        let m = end - base;
        let ghost all = outs@;
        let ghost order = in_index_order(all, base as int, end as int);
        // One slot per pending position, position `k` at `m - 1 - k`, so
        // that popping yields the positions in ascending order.
        let mut slots: Vec<Option<Resolution<S>>> = Vec::new();
        while slots.len() < m
            invariant
                slots@.len() <= m,
                forall|q: int| 0 <= q < slots@.len() ==> (#[trigger] slots@[q]).is_none(),
            decreases m - slots@.len(),
        {
            slots.push(None);
        }
        let mut outs = outs;
        while outs.len() > 0
            invariant
                base <= end,
                m == end - base,
                slots@.len() == m,
                complete_batch(all, base as int, end as int),
                outs@.len() <= all.len(),
                outs@ == all.subrange(0, outs@.len() as int),
                forall|k: int|
                    0 <= k < m && (#[trigger] slots@[m - 1 - k]).is_some() ==> slots@[m - 1 - k]
                        == Some(result_at(all, base + k)),
                forall|j: int|
                    outs@.len() <= j < all.len() ==> (#[trigger] slots@[m - 1 - (all[j].index - base)]).is_some(),
            decreases outs@.len(),
        {
            let ghost before = outs@;
            match outs.pop() {
                Some(o) => {
                    let ghost j: int = before.len() - 1;
                    assert(before[j] == o);
                    assert(all[j] == o);
                    proof {
                        lemma_result_at(all, base as int, end as int, j);
                    }
                    let k = o.index - base;
                    slots[m - 1 - k] = Some(o.result);
                    assert(outs@ =~= all.subrange(0, outs@.len() as int));
                },
                None => {},
            }
        }
        assert forall|k: int| 0 <= k < m implies #[trigger] slots@[m - 1 - k] == Some(order[k]) by {
            assert(has_index(all, base + k));
            let j = choose|j: int| 0 <= j < all.len() && (#[trigger] all[j]).index == base + k;
            assert(slots@[m - 1 - (all[j].index - base)].is_some());
        }
        let ghost q0 = queue@;
        let mut failures = self.dropped;
        let mut enqueued: usize = 0;
        let mut p: usize = 0;
        proof {
            lemma_counts_bounded(order);
            assert(order.subrange(0, 0) =~= Seq::<Resolution<S>>::empty());
            assert(q0 + Seq::<Track<S>>::empty() =~= q0);
        }
        while slots.len() > 0
            invariant
                m == end - base,
                base == self@.cursor,
                end == self@.items.len(),
                self@.wf(),
                order.len() == m,
                slots@.len() + p == m,
                forall|k: int| p <= k < m ==> #[trigger] slots@[m - 1 - k] == Some(order[k]),
                queue@ == q0 + resolved_tracks(order.subrange(0, p as int)),
                enqueued == resolved_tracks(order.subrange(0, p as int)).len(),
                failures == self@.dropped + failed_count(order.subrange(0, p as int)),
            decreases slots@.len(),
        {
            let ghost pre = order.subrange(0, p as int);
            let ghost next = order.subrange(0, p + 1);
            proof {
                assert(next.drop_last() =~= pre);
                assert(slots@[m - 1 - p] == Some(order[p as int]));
                lemma_counts_bounded(next);
            }
            match slots.pop() {
                Some(Some(Resolution::Resolved(t))) => {
                    queue.append(t);
                    enqueued = enqueued + 1;
                },
                Some(Some(Resolution::Failed(_))) => {
                    failures = failures + 1;
                },
                _ => {},
            }
            p = p + 1;
        }
        assert(order.subrange(0, m as int) =~= order);
        PlaylistReport { enqueued, failures, queue_length: queue.len() }
    }
}

} // verus!
