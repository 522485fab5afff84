//! Lexical classification of a user's track reference.
use vstd::prelude::*;
use vstd::string::{StrSliceExecFns, StringExecFns};

verus! {

/// How a reference is to be resolved.
#[derive(Clone, Copy, Debug, PartialEq, Eq, Structural)]
pub enum RequestKind {
    DirectLink,
    SearchTerm,
    Playlist,
    LiveStream,
}

/// A classified reference: its kind and the reference to resolve.
pub struct Request {
    pub kind: RequestKind,
    pub reference: String,
}

pub open spec fn live_marker() -> Seq<char> {
    seq!['l', 'i', 'v', 'e']
}

pub open spec fn playlist_marker() -> Seq<char> {
    seq!['p', 'l', 'a', 'y', 'l', 'i', 's', 't']
}

pub open spec fn url_scheme() -> Seq<char> {
    seq!['h', 't', 't', 'p']
}

/// The start of a link to the music storefront over TLS.
pub open spec fn secure_storefront() -> Seq<char> {
    seq!['h', 't', 't', 'p', 's', ':', '/', '/', 'm', 'u', 's', 'i', 'c', '.']
}

/// The start of a link to the music storefront without TLS.
pub open spec fn plain_storefront() -> Seq<char> {
    seq!['h', 't', 't', 'p', ':', '/', '/', 'm', 'u', 's', 'i', 'c', '.']
}

/// `pat` occurs in `s` at position `i`.
pub open spec fn occurs_at(s: Seq<char>, pat: Seq<char>, i: int) -> bool {
    0 <= i && i + pat.len() <= s.len() && s.subrange(i, i + pat.len()) == pat
}

pub open spec fn contains(s: Seq<char>, pat: Seq<char>) -> bool {
    exists|i: int| occurs_at(s, pat, i)
}

pub open spec fn starts_with(s: Seq<char>, pat: Seq<char>) -> bool {
    occurs_at(s, pat, 0)
}

/// The kind of a reference, by the first rule that applies: live marker,
/// playlist marker, URL scheme, else a search term.
pub open spec fn kind_of(s: Seq<char>) -> RequestKind {
    if contains(s, live_marker()) {
        RequestKind::LiveStream
    } else if contains(s, playlist_marker()) {
        RequestKind::Playlist
    } else if starts_with(s, url_scheme()) {
        RequestKind::DirectLink
    } else {
        RequestKind::SearchTerm
    }
}

/// A reference that holds the live marker is a live stream, whatever other
/// markers or scheme it holds.
pub proof fn lemma_live_marker_wins(s: Seq<char>)
    requires
        contains(s, live_marker()),
    ensures
        kind_of(s) == RequestKind::LiveStream,
{
}

/// A link whose host is the music storefront (`music.<site>`) rewritten to
/// the canonical site (`<site>`); scheme, path and query are kept, and any
/// other reference is unchanged.
pub open spec fn canonical_link(s: Seq<char>) -> Seq<char> {
    if starts_with(s, secure_storefront()) {
        secure_storefront().take(8) + s.subrange(14, s.len() as int)
    } else if starts_with(s, plain_storefront()) {
        plain_storefront().take(7) + s.subrange(13, s.len() as int)
    } else {
        s
    }
}

/// The reference that resolution receives: links and playlists are made
/// canonical; live streams and search terms are kept as given.
pub open spec fn canonical_of(s: Seq<char>) -> Seq<char> {
    let k = kind_of(s);
    if k == RequestKind::DirectLink || k == RequestKind::Playlist {
        canonical_link(s)
    } else {
        s
    }
}

/// The characters of `s`, one by one.
fn chars_of(s: &str) -> (r: Vec<char>)
    ensures
        r@ == s@,
{
    let n = s.unicode_len();
    let mut r: Vec<char> = Vec::new();
    let mut i: usize = 0;
    while i < n
        invariant
            n == s@.len(),
            i <= n,
            r@ == s@.subrange(0, i as int),
        decreases n - i,
    {
        r.push(s.get_char(i));
        i += 1;
        assert(r@ =~= s@.subrange(0, i as int));
    }
    assert(r@ =~= s@);
    r
}

/// Whether `pat` occurs in `s` at `i`.
fn occurs_at_exec(s: &Vec<char>, pat: &Vec<char>, i: usize) -> (r: bool)
    ensures
        r == occurs_at(s@, pat@, i as int),
{
    if i > s.len() || pat.len() > s.len() - i {
        return false;
    }
    let n = s.len();
    let mut j: usize = 0;
    while j < pat.len()
        invariant
            n == s@.len(),
            i + pat@.len() <= n,
            j <= pat@.len(),
            forall|k: int| 0 <= k < j ==> s@[i + k] == pat@[k],
        decreases pat@.len() - j,
    {
        if s[i + j] != pat[j] {
            assert(s@.subrange(i as int, i + pat@.len())[j as int] != pat@[j as int]);
            return false;
        }
        j += 1;
    }
    assert(s@.subrange(i as int, i + pat@.len()) =~= pat@);
    true
}

/// Whether `pat` occurs anywhere in `s`.
fn contains_exec(s: &Vec<char>, pat: &Vec<char>) -> (r: bool)
    ensures
        r == contains(s@, pat@),
{
    let n = s.len();
    let mut i: usize = 0;
    while i < n
        invariant
            n == s@.len(),
            i <= n,
            forall|k: int| 0 <= k < i ==> !occurs_at(s@, pat@, k),
        decreases n - i,
    {
        if occurs_at_exec(s, pat, i) {
            return true;
        }
        i += 1;
    }
    if occurs_at_exec(s, pat, n) {
        return true;
    }
    assert forall|k: int| !occurs_at(s@, pat@, k) by {
        if 0 <= k < i {
        }
    }
    false
}

/// Decides the kind of a reference by lexical inspection alone.
pub fn classify(reference: &str) -> (r: RequestKind)
    ensures
        r == kind_of(reference@),
{
    let s = chars_of(reference);
    classify_chars(&s)
}

fn classify_chars(s: &Vec<char>) -> (r: RequestKind)
    ensures
        r == kind_of(s@),
{
    proof {
        reveal_strlit("live");
        reveal_strlit("playlist");
        reveal_strlit("http");
    }
    let live = chars_of("live");
    let playlist = chars_of("playlist");
    let scheme = chars_of("http");
    assert(live@ =~= live_marker());
    assert(playlist@ =~= playlist_marker());
    assert(scheme@ =~= url_scheme());
    if contains_exec(s, &live) {
        RequestKind::LiveStream
    } else if contains_exec(s, &playlist) {
        RequestKind::Playlist
    } else if occurs_at_exec(s, &scheme, 0) {
        RequestKind::DirectLink
    } else {
        RequestKind::SearchTerm
    }
}

/// `text` from its `skip`-th character on, behind `lead`.
fn relead(text: &str, lead: &str, skip: usize) -> (r: String)
    requires
        skip <= text@.len(),
    ensures
        r@ == lead@ + text@.subrange(skip as int, text@.len() as int),
{
    let n = text.unicode_len();
    let mut out = String::from_str(lead);
    out.append(text.substring_char(skip, n));
    out
}

/// Classifies a reference and gives the reference that resolution receives.
pub fn classify_request(reference: &str) -> (r: Request)
    ensures
        r.kind == kind_of(reference@),
        r.reference@ == canonical_of(reference@),
{
    let s = chars_of(reference);
    let kind = classify_chars(&s);
    proof {
        reveal_strlit("https://music.");
        reveal_strlit("http://music.");
        reveal_strlit("https://");
        reveal_strlit("http://");
    }
    let secure = chars_of("https://music.");
    let plain = chars_of("http://music.");
    assert(secure@ =~= secure_storefront());
    assert(plain@ =~= plain_storefront());
    assert("https://"@ =~= secure_storefront().take(8));
    assert("http://"@ =~= plain_storefront().take(7));
    let canonical = if kind == RequestKind::DirectLink || kind == RequestKind::Playlist {
        if occurs_at_exec(&s, &secure, 0) {
            relead(reference, "https://", 14)
        } else if occurs_at_exec(&s, &plain, 0) {
            relead(reference, "http://", 13)
        } else {
            String::from_str(reference)
        }
    } else {
        String::from_str(reference)
    };
    Request { kind, reference: canonical }
}

} // verus!
