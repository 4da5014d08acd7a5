//! Per-guild playback state and every change the music commands make to
//! it: enqueueing, advancing, removing and reordering queued tracks,
//! hydrating a restored queue, and the idle-disconnect decision.
//!
//! Voice connections, track handles and volumes live outside this state;
//! the operations here return what has to be started and leave the audio
//! work to the caller.

use vstd::prelude::*;
use std::collections::VecDeque;
use crate::track::{Track, TrackView};
use crate::probe::{entry_url_spec, playlist_entry_url, YtdlPlaylistEntry, YtdlpInfo};
use crate::text::owned;

verus! {

/// Idle timeout a guild starts with, in seconds.
pub const DEFAULT_IDLE_LEAVE_SECS: u64 = 300;

/// The queue and playback bookkeeping of one guild.
pub struct GuildPlayer {
    /// Upcoming tracks, head first.
    pub queue: VecDeque<Track>,
    /// The track playing now, if any.
    pub current: Option<Track>,
    /// When the player ran out of tracks (milliseconds on the caller's clock).
    pub idle_since_ms: Option<u64>,
    /// How long an idle player stays connected; 0 disables auto-leave.
    pub idle_leave_secs: u64,
    /// Whether persisted settings and queue have been loaded.
    pub settings_loaded: bool,
}

/// `ids` names the track.
pub open spec fn selected(ids: Seq<u128>, t: Track) -> bool {
    ids.contains(t.id)
}

/// Whether `id` is one of `ids`.
pub fn contains_id(ids: &[u128], id: u128) -> (b: bool)
    ensures
        b == ids@.contains(id),
{
    let mut i: usize = 0;
    while i < ids.len()
        invariant
            i <= ids.len(),
            forall|k: int| 0 <= k < i ==> ids@[k] != id,
        decreases ids.len() - i,
    {
        if ids[i] == id {
            assert(ids@[i as int] == id);
            return true;
        }
        i += 1;
    }
    false
}

/// The tracks `ids` does not name, in their original order.
pub open spec fn without_ids(q: Seq<Track>, ids: Seq<u128>) -> Seq<Track> {
    q.filter(|t: Track| !selected(ids, t))
}

/// The views of a sequence of tracks.
pub open spec fn track_views(s: Seq<Track>) -> Seq<TrackView> {
    s.map_values(|t: Track| t@)
}

/// The playing track's view as a sequence of zero or one element.
pub open spec fn current_views(c: Option<Track>) -> Seq<TrackView> {
    match c {
        Some(t) => seq![t@],
        None => Seq::empty(),
    }
}

impl GuildPlayer {
    /// A player with an empty queue and the default idle timeout.
    pub fn new() -> (p: GuildPlayer)
        ensures
            p.queue@.len() == 0,
            p.current is None,
            p.idle_since_ms is None,
            p.idle_leave_secs == DEFAULT_IDLE_LEAVE_SECS,
            !p.settings_loaded,
    {
        GuildPlayer {
            queue: VecDeque::new(),
            current: None,
            idle_since_ms: None,
            idle_leave_secs: DEFAULT_IDLE_LEAVE_SECS,
            settings_loaded: false,
        }
    }

    /// Marks `track` as playing; the player is no longer idle.
    pub fn begin(&mut self, track: Track)
        ensures
            final(self).current == Some(track),
            final(self).idle_since_ms is None,
            final(self).queue@ == old(self).queue@,
            final(self).idle_leave_secs == old(self).idle_leave_secs,
            final(self).settings_loaded == old(self).settings_loaded,
    {
        self.current = Some(track);
        self.idle_since_ms = None;
    }

    /// Empties the queue; the current track keeps playing.
    pub fn clear(&mut self)
        ensures
            final(self).queue@.len() == 0,
            final(self).current == old(self).current,
            final(self).idle_since_ms == old(self).idle_since_ms,
            final(self).idle_leave_secs == old(self).idle_leave_secs,
            final(self).settings_loaded == old(self).settings_loaded,
    {
        self.queue.clear();
    }

    /// Drops every queued track that `ids` names and returns how many were
    /// dropped. The current track is untouched.
    pub fn remove_tracks(&mut self, ids: &[u128]) -> (removed: usize)
        ensures
            final(self).queue@ == without_ids(old(self).queue@, ids@),
            removed == old(self).queue@.len() - final(self).queue@.len(),
            final(self).current == old(self).current,
            final(self).idle_since_ms == old(self).idle_since_ms,
            final(self).idle_leave_secs == old(self).idle_leave_secs,
            final(self).settings_loaded == old(self).settings_loaded,
    {
        let ghost q0 = self.queue@;
        let ghost cur0 = self.current;
        let ghost idle0 = self.idle_since_ms;
        let ghost leave0 = self.idle_leave_secs;
        let ghost loaded0 = self.settings_loaded;
        let ghost keep = |t: Track| !selected(ids@, t);
        if ids.len() == 0 {
            assert(without_ids(q0, ids@) =~= q0) by {
                lemma_filter_all(q0, keep);
            }
            return 0;
        }
        let n = self.queue.len();
        let mut kept: VecDeque<Track> = VecDeque::new();
        let mut i: usize = 0;
        assert(q0.take(0).filter(keep) =~= Seq::<Track>::empty()) by {
            reveal(Seq::filter);
        }
        assert(q0.subrange(0, n as int) =~= q0);
        while i < n
            invariant
                n == q0.len(),
                i <= n,
                self.queue@ == q0.subrange(i as int, n as int),
                kept@ == q0.take(i as int).filter(keep),
                keep == (|t: Track| !selected(ids@, t)),
                self.current == cur0,
                self.idle_since_ms == idle0,
                self.idle_leave_secs == leave0,
                self.settings_loaded == loaded0,
            decreases n - i,
        {
            let t = self.queue.pop_front().unwrap();
            assert(t == q0[i as int]);
            proof {
                assert(q0.take(i + 1).drop_last() =~= q0.take(i as int));
                reveal(Seq::filter);
            }
            if !contains_id(ids, t.id) {
                kept.push_back(t);
            }
            i += 1;
            assert(self.queue@ =~= q0.subrange(i as int, n as int));
        }
        assert(q0.take(n as int) =~= q0);
        proof { q0.lemma_filter_len(keep); }
        let removed = n - kept.len();
        self.queue = kept;
        removed
    }

    /// The current track followed by the queue, as persisted between restarts.
    pub fn snapshot(&self) -> (v: Vec<Track>)
        ensures
            track_views(v@) == current_views(self.current) + track_views(self.queue@),
    {
        let mut v: Vec<Track> = Vec::new();
        match &self.current {
            Some(c) => v.push(c.duplicate()),
            None => {},
        }
        let ghost head: Seq<TrackView> = current_views(self.current);
        assert(track_views(v@) =~= head);
        let mut i: usize = 0;
        while i < self.queue.len()
            invariant
                i <= self.queue@.len(),
                track_views(v@) == head + track_views(self.queue@.take(i as int)),
            decreases self.queue@.len() - i,
        {
            let t = self.queue[i].duplicate();
            let ghost v_before = v@;
            let ghost tv = t@;
            v.push(t);
            proof {
                assert(track_views(v@) =~= track_views(v_before).push(tv));
                let q = self.queue@;
                assert(q.take(i + 1) =~= q.take(i as int).push(q[i as int]));
                assert(track_views(q.take(i + 1)) =~= track_views(q.take(i as int)).push(q[i as int]@));
            }
            i += 1;
            assert(track_views(v@) =~= head + track_views(self.queue@.take(i as int)));
        }
        assert(self.queue@.take(self.queue@.len() as int) =~= self.queue@);
        v
    }
}

/// Filtering with a predicate that holds everywhere keeps the sequence.
pub proof fn lemma_filter_all<A>(s: Seq<A>, p: spec_fn(A) -> bool)
    requires
        forall|x: A| #[trigger] p(x),
    ensures
        s.filter(p) == s,
    decreases s.len(),
{
    reveal(Seq::filter);
    if s.len() > 0 {
        lemma_filter_all(s.drop_last(), p);
        assert(s.drop_last().push(s.last()) =~= s);
    }
}


/// The queue after one "move up" pass: scanning from the front, a named
/// track directly behind an unnamed one trades places with it, so each
/// unnamed track that precedes a run of named tracks drops behind the run.
pub open spec fn moved_up(s: Seq<Track>, ids: Seq<u128>) -> Seq<Track>
    decreases s.len(),
{
    if s.len() < 2 {
        s
    } else if selected(ids, s[1]) && !selected(ids, s[0]) {
        seq![s[1]] + moved_up(seq![s[0]] + s.subrange(2, s.len() as int), ids)
    } else {
        seq![s[0]] + moved_up(s.drop_first(), ids)
    }
}

/// The queue after one "move down" pass: scanning from the back, a named
/// track directly ahead of an unnamed one trades places with it.
pub open spec fn moved_down(s: Seq<Track>, ids: Seq<u128>) -> Seq<Track>
    decreases s.len(),
{
    if s.len() < 2 {
        s
    } else if selected(ids, s[s.len() - 2]) && !selected(ids, s[s.len() - 1]) {
        moved_down(s.subrange(0, s.len() - 2).push(s[s.len() - 1]), ids).push(s[s.len() - 2])
    } else {
        moved_down(s.drop_last(), ids).push(s[s.len() - 1])
    }
}

/// The named tracks of `s`, in order.
pub open spec fn picked(s: Seq<Track>, ids: Seq<u128>) -> Seq<Track> {
    s.filter(|t: Track| selected(ids, t))
}

/// The tracks of `s` that `ids` does not name, in order.
pub open spec fn unpicked(s: Seq<Track>, ids: Seq<u128>) -> Seq<Track> {
    s.filter(|t: Track| !selected(ids, t))
}

impl GuildPlayer {
    /// Moves every named queued track one place toward the head (see
    /// [`moved_up`]). The current track is untouched.
    pub fn move_tracks_up(&mut self, ids: &[u128])
        ensures
            final(self).queue@ == moved_up(old(self).queue@, ids@),
            final(self).current == old(self).current,
            final(self).idle_since_ms == old(self).idle_since_ms,
            final(self).idle_leave_secs == old(self).idle_leave_secs,
            final(self).settings_loaded == old(self).settings_loaded,
    {
        let ghost q0 = self.queue@;
        let ghost cur0 = self.current;
        let ghost idle0 = self.idle_since_ms;
        let ghost leave0 = self.idle_leave_secs;
        let ghost loaded0 = self.settings_loaded;
        let n = self.queue.len();
        if n < 2 {
            return;
        }
        let mut i: usize = 1;
        assert(q0.subrange(0, 0) + moved_up(q0.subrange(0, n as int), ids@) =~= moved_up(q0, ids@)) by {
            assert(q0.subrange(0, n as int) =~= q0);
        }
        while i < n
            invariant
                1 <= i <= n,
                n >= 2,
                self.queue@.len() == n,
                self.queue@.subrange(0, i - 1) + moved_up(self.queue@.subrange(i - 1, n as int), ids@)
                    == moved_up(q0, ids@),
                self.current == cur0,
                self.idle_since_ms == idle0,
                self.idle_leave_secs == leave0,
                self.settings_loaded == loaded0,
            decreases n - i,
        {
            let ghost q = self.queue@;
            let ghost w = q.subrange(i - 1, n as int);
            let here = contains_id(ids, self.queue[i].id);
            let before = contains_id(ids, self.queue[i - 1].id);
            if here && !before {
                let x = self.queue.remove(i).unwrap();
                self.queue.insert(i - 1, x);
                proof {
                    let q2 = self.queue@;
                    assert(w[0] == q[i - 1]);
                    assert(w[1] == q[i as int]);
                    assert(q2.subrange(0, i as int) =~= q.subrange(0, i - 1) + seq![w[1]]);
                    assert(q2.subrange(i as int, n as int) =~= seq![w[0]] + w.subrange(2, w.len() as int));
                }
            } else {
                proof {
                    assert(w[0] == q[i - 1]);
                    assert(w[1] == q[i as int]);
                    assert(q.subrange(0, i as int) =~= q.subrange(0, i - 1) + seq![w[0]]);
                    assert(q.subrange(i as int, n as int) =~= w.drop_first());
                }
            }
            i += 1;
        }
        assert(self.queue@.subrange(0, n - 1) + self.queue@.subrange(n - 1, n as int) =~= self.queue@);
    }

    /// Moves every named queued track one place toward the tail (see
    /// [`moved_down`]). Returns whether the pass ran, which it does when
    /// `ids` is non-empty and at least two tracks are queued; otherwise the
    /// queue is left alone.
    pub fn move_tracks_down(&mut self, ids: &[u128]) -> (ran: bool)
        ensures
            ran == (ids@.len() > 0 && old(self).queue@.len() >= 2),
            final(self).queue@ == moved_down(old(self).queue@, ids@),
            final(self).current == old(self).current,
            final(self).idle_since_ms == old(self).idle_since_ms,
            final(self).idle_leave_secs == old(self).idle_leave_secs,
            final(self).settings_loaded == old(self).settings_loaded,
    {
        let ghost q0 = self.queue@;
        let ghost cur0 = self.current;
        let ghost idle0 = self.idle_since_ms;
        let ghost leave0 = self.idle_leave_secs;
        let ghost loaded0 = self.settings_loaded;
        let n = self.queue.len();
        if ids.len() == 0 {
            proof { lemma_moved_down_none_selected(q0, ids@); }
            return false;
        }
        if n < 2 {
            return false;
        }
        let mut k: usize = n;
        assert(moved_down(q0.subrange(0, n as int), ids@) + q0.subrange(n as int, n as int) =~= moved_down(q0, ids@)) by {
            assert(q0.subrange(0, n as int) =~= q0);
        }
        while k >= 2
            invariant
                1 <= k <= n,
                self.queue@.len() == n,
                moved_down(self.queue@.subrange(0, k as int), ids@) + self.queue@.subrange(k as int, n as int)
                    == moved_down(q0, ids@),
                self.current == cur0,
                self.idle_since_ms == idle0,
                self.idle_leave_secs == leave0,
                self.settings_loaded == loaded0,
            decreases k,
        {
            let ghost q = self.queue@;
            let ghost w = q.subrange(0, k as int);
            let upper = contains_id(ids, self.queue[k - 2].id);
            let lower = contains_id(ids, self.queue[k - 1].id);
            if upper && !lower {
                let x = self.queue.remove(k - 1).unwrap();
                self.queue.insert(k - 2, x);
                proof {
                    let q2 = self.queue@;
                    assert(w[k - 2] == q[k - 2]);
                    assert(w[k - 1] == q[k - 1]);
                    assert(q2.subrange(0, k - 1) =~= w.subrange(0, k - 2).push(w[k - 1]));
                    assert(q2.subrange(k - 1, n as int) =~= seq![w[k - 2]] + q.subrange(k as int, n as int));
                }
            } else {
                proof {
                    assert(w[k - 1] == q[k - 1]);
                    assert(q.subrange(0, k - 1) =~= w.drop_last());
                    assert(q.subrange(k - 1, n as int) =~= seq![w[k - 1]] + q.subrange(k as int, n as int));
                }
            }
            k -= 1;
        }
        assert(self.queue@.subrange(0, 1) + self.queue@.subrange(1, n as int) =~= self.queue@);
        true
    }
}

/// With nothing named, a move-down pass changes nothing.
proof fn lemma_moved_down_none_selected(s: Seq<Track>, ids: Seq<u128>)
    requires
        ids.len() == 0,
    ensures
        moved_down(s, ids) == s,
    decreases s.len(),
{
    if s.len() >= 2 {
        assert(!selected(ids, s[s.len() - 2]));
        lemma_moved_down_none_selected(s.drop_last(), ids);
        assert(s.drop_last().push(s[s.len() - 1]) =~= s);
    }
}

proof fn lemma_filter_single<A>(x: A, p: spec_fn(A) -> bool)
    ensures
        seq![x].filter(p) == (if p(x) { seq![x] } else { Seq::<A>::empty() }),
{
    reveal(Seq::filter);
    assert(seq![x].drop_last() =~= Seq::<A>::empty());
    assert(Seq::<A>::empty().filter(p) =~= Seq::<A>::empty());
}

proof fn lemma_filter_cons<A>(x: A, r: Seq<A>, p: spec_fn(A) -> bool)
    ensures
        (seq![x] + r).filter(p) == (if p(x) { seq![x] + r.filter(p) } else { r.filter(p) }),
{
    Seq::filter_distributes_over_add(seq![x], r, p);
    lemma_filter_single(x, p);
    assert(Seq::<A>::empty() + r.filter(p) =~= r.filter(p));
}

pub(crate) proof fn lemma_filter_snoc<A>(r: Seq<A>, x: A, p: spec_fn(A) -> bool)
    ensures
        r.push(x).filter(p) == (if p(x) { r.filter(p).push(x) } else { r.filter(p) }),
{
    Seq::filter_distributes_over_add(r, seq![x], p);
    lemma_filter_single(x, p);
    assert(r + seq![x] =~= r.push(x));
    assert(r.filter(p) + seq![x] =~= r.filter(p).push(x));
    assert(r.filter(p) + Seq::<A>::empty() =~= r.filter(p));
}

/// A move-up pass keeps the named tracks in their relative order, and the
/// unnamed ones in theirs.
pub proof fn law_move_up_keeps_relative_order(s: Seq<Track>, ids: Seq<u128>)
    ensures
        picked(moved_up(s, ids), ids) == picked(s, ids),
        unpicked(moved_up(s, ids), ids) == unpicked(s, ids),
    decreases s.len(),
{
    let p = |t: Track| selected(ids, t);
    let u = |t: Track| !selected(ids, t);
    if s.len() >= 2 {
        let r = s.subrange(2, s.len() as int);
        assert(s =~= seq![s[0]] + (seq![s[1]] + r));
        assert(s.drop_first() =~= seq![s[1]] + r);
        lemma_filter_cons(s[0], seq![s[1]] + r, p);
        lemma_filter_cons(s[0], seq![s[1]] + r, u);
        lemma_filter_cons(s[1], r, p);
        lemma_filter_cons(s[1], r, u);
        if selected(ids, s[1]) && !selected(ids, s[0]) {
            let t = seq![s[0]] + r;
            law_move_up_keeps_relative_order(t, ids);
            lemma_filter_cons(s[1], moved_up(t, ids), p);
            lemma_filter_cons(s[1], moved_up(t, ids), u);
            lemma_filter_cons(s[0], r, p);
            lemma_filter_cons(s[0], r, u);
        } else {
            let t = s.drop_first();
            law_move_up_keeps_relative_order(t, ids);
            lemma_filter_cons(s[0], moved_up(t, ids), p);
            lemma_filter_cons(s[0], moved_up(t, ids), u);
        }
    }
}

/// A run of named tracks at the front of the queue stays where it is under
/// a move-up pass.
pub proof fn law_move_up_leading_run_stays(run: Seq<Track>, post: Seq<Track>, ids: Seq<u128>)
    requires
        forall|i: int| 0 <= i < run.len() ==> selected(ids, #[trigger] run[i]),
    ensures
        moved_up(run + post, ids) == run + moved_up(post, ids),
    decreases run.len(),
{
    if run.len() > 0 {
        let s = run + post;
        let rest = run.drop_first();
        assert(s.drop_first() =~= rest + post);
        assert(s[0] == run[0]);
        law_move_up_leading_run_stays(rest, post, ids);
        assert(seq![run[0]] + (rest + post) =~= s);
        assert(seq![run[0]] + (rest + moved_up(post, ids)) =~= run + moved_up(post, ids));
        if s.len() < 2 {
            assert(post.len() == 0 && rest.len() == 0);
            assert(run + moved_up(post, ids) =~= s);
        }
    } else {
        assert(run + post =~= post);
        assert(run + moved_up(post, ids) =~= moved_up(post, ids));
    }
}

/// Under a move-up pass, a maximal run of named tracks behind an unnamed
/// track `u` moves up one place as a whole, and `u` lands right behind it.
pub proof fn law_move_up_run_passes_track(u: Track, run: Seq<Track>, post: Seq<Track>, ids: Seq<u128>)
    requires
        !selected(ids, u),
        run.len() > 0,
        forall|i: int| 0 <= i < run.len() ==> selected(ids, #[trigger] run[i]),
        post.len() == 0 || !selected(ids, post[0]),
    ensures
        moved_up(seq![u] + run + post, ids) == run + seq![u] + moved_up(post, ids),
    decreases run.len(),
{
    let s = seq![u] + run + post;
    let rest = run.drop_first();
    assert(s[0] == u);
    assert(s[1] == run[0]);
    assert(s.subrange(2, s.len() as int) =~= rest + post);
    let t = seq![u] + (rest + post);
    assert(seq![s[0]] + s.subrange(2, s.len() as int) =~= t);
    assert(moved_up(s, ids) == seq![run[0]] + moved_up(t, ids));
    if rest.len() == 0 {
        assert(t =~= seq![u] + post);
        if post.len() == 0 {
            assert(moved_up(t, ids) == t);
            assert(moved_up(post, ids) == post);
        } else {
            assert(t[1] == post[0]);
            assert(t.drop_first() =~= post);
            assert(t[0] == u);
            assert(moved_up(t, ids) == seq![u] + moved_up(post, ids));
        }
        assert(seq![run[0]] + (seq![u] + moved_up(post, ids)) =~= run + seq![u] + moved_up(post, ids));
    } else {
        law_move_up_run_passes_track(u, rest, post, ids);
        assert(t =~= seq![u] + rest + post);
        assert(seq![run[0]] + (rest + seq![u] + moved_up(post, ids)) =~= run + seq![u] + moved_up(post, ids));
    }
}

/// A move-up pass never moves a track across an unnamed track that starts
/// `rest`: the queue can be cut there and each part moved on its own.
pub proof fn law_move_up_splits_before_unnamed(pre: Seq<Track>, rest: Seq<Track>, ids: Seq<u128>)
    requires
        rest.len() == 0 || !selected(ids, rest[0]),
    ensures
        moved_up(pre + rest, ids) == moved_up(pre, ids) + moved_up(rest, ids),
    decreases pre.len(),
{
    let s = pre + rest;
    if pre.len() == 0 {
        assert(s =~= rest);
        assert(moved_up(pre, ids) + moved_up(rest, ids) =~= moved_up(rest, ids));
    } else if pre.len() == 1 {
        if rest.len() == 0 {
            assert(s =~= pre);
            assert(moved_up(pre, ids) + moved_up(rest, ids) =~= pre);
        } else {
            assert(s[1] == rest[0]);
            assert(s.drop_first() =~= rest);
            assert(moved_up(pre, ids) == pre);
            assert(seq![s[0]] + moved_up(rest, ids) =~= pre + moved_up(rest, ids));
        }
    } else {
        assert(s[0] == pre[0]);
        assert(s[1] == pre[1]);
        if selected(ids, pre[1]) && !selected(ids, pre[0]) {
            let t = seq![pre[0]] + pre.subrange(2, pre.len() as int);
            assert(seq![s[0]] + s.subrange(2, s.len() as int) =~= t + rest);
            law_move_up_splits_before_unnamed(t, rest, ids);
            assert(seq![pre[1]] + (moved_up(t, ids) + moved_up(rest, ids))
                =~= (seq![pre[1]] + moved_up(t, ids)) + moved_up(rest, ids));
        } else {
            let t = pre.drop_first();
            assert(s.drop_first() =~= t + rest);
            law_move_up_splits_before_unnamed(t, rest, ids);
            assert(seq![pre[0]] + (moved_up(t, ids) + moved_up(rest, ids))
                =~= (seq![pre[0]] + moved_up(t, ids)) + moved_up(rest, ids));
        }
    }
}

/// Wherever it stands in the queue, a maximal run of named tracks right
/// behind an unnamed track `u` moves up one place as a whole under a
/// move-up pass, `u` lands right behind it, and the tracks before `u` are
/// moved among themselves only.
pub proof fn law_move_up_run_anywhere(pre: Seq<Track>, u: Track, run: Seq<Track>, post: Seq<Track>, ids: Seq<u128>)
    requires
        !selected(ids, u),
        run.len() > 0,
        forall|i: int| 0 <= i < run.len() ==> selected(ids, #[trigger] run[i]),
        post.len() == 0 || !selected(ids, post[0]),
    ensures
        moved_up(pre + (seq![u] + run + post), ids) == moved_up(pre, ids) + (run + seq![u] + moved_up(post, ids)),
{
    let rest = seq![u] + run + post;
    assert(rest[0] == u);
    law_move_up_splits_before_unnamed(pre, rest, ids);
    law_move_up_run_passes_track(u, run, post, ids);
}

/// A move-up pass only reorders: the same tracks, each as often, remain.
pub proof fn law_move_up_is_permutation(s: Seq<Track>, ids: Seq<u128>)
    ensures
        moved_up(s, ids).to_multiset() == s.to_multiset(),
        moved_up(s, ids).len() == s.len(),
    decreases s.len(),
{
    broadcast use vstd::seq_lib::lemma_multiset_commutative;
    if s.len() >= 2 {
        let r = s.subrange(2, s.len() as int);
        assert(s =~= seq![s[0]] + (seq![s[1]] + r));
        assert(s.drop_first() =~= seq![s[1]] + r);
        if selected(ids, s[1]) && !selected(ids, s[0]) {
            let t = seq![s[0]] + r;
            law_move_up_is_permutation(t, ids);
            assert(seq![s[1]].to_multiset().add(seq![s[0]].to_multiset()) =~= seq![s[0]].to_multiset().add(seq![s[1]].to_multiset()));
        } else {
            law_move_up_is_permutation(s.drop_first(), ids);
        }
    }
}

/// A move-down pass is a move-up pass on the reversed queue, reversed back.
pub proof fn law_move_down_mirrors_move_up(s: Seq<Track>, ids: Seq<u128>)
    ensures
        moved_down(s, ids) == moved_up(s.reverse(), ids).reverse(),
    decreases s.len(),
{
    let n = s.len() as int;
    if n < 2 {
        assert(s.reverse().reverse() =~= s);
    } else {
        let rv = s.reverse();
        assert(rv[0] == s[n - 1]);
        assert(rv[1] == s[n - 2]);
        if selected(ids, s[n - 2]) && !selected(ids, s[n - 1]) {
            let t = s.subrange(0, n - 2).push(s[n - 1]);
            law_move_down_mirrors_move_up(t, ids);
            assert(seq![rv[0]] + rv.subrange(2, n) =~= t.reverse());
            assert((seq![rv[1]] + moved_up(t.reverse(), ids)).reverse()
                =~= moved_up(t.reverse(), ids).reverse().push(rv[1]));
        } else {
            let t = s.drop_last();
            law_move_down_mirrors_move_up(t, ids);
            assert(rv.drop_first() =~= t.reverse());
            assert((seq![rv[0]] + moved_up(t.reverse(), ids)).reverse()
                =~= moved_up(t.reverse(), ids).reverse().push(rv[0]));
        }
    }
}

/// A move-down pass keeps the named tracks in their relative order, and
/// the unnamed ones in theirs.
pub proof fn law_move_down_keeps_relative_order(s: Seq<Track>, ids: Seq<u128>)
    ensures
        picked(moved_down(s, ids), ids) == picked(s, ids),
        unpicked(moved_down(s, ids), ids) == unpicked(s, ids),
    decreases s.len(),
{
    let p = |t: Track| selected(ids, t);
    let u = |t: Track| !selected(ids, t);
    let n = s.len() as int;
    if n >= 2 {
        let r = s.subrange(0, n - 2);
        assert(s =~= r.push(s[n - 2]).push(s[n - 1]));
        assert(s.drop_last() =~= r.push(s[n - 2]));
        lemma_filter_snoc(r.push(s[n - 2]), s[n - 1], p);
        lemma_filter_snoc(r.push(s[n - 2]), s[n - 1], u);
        lemma_filter_snoc(r, s[n - 2], p);
        lemma_filter_snoc(r, s[n - 2], u);
        if selected(ids, s[n - 2]) && !selected(ids, s[n - 1]) {
            let t = r.push(s[n - 1]);
            law_move_down_keeps_relative_order(t, ids);
            lemma_filter_snoc(moved_down(t, ids), s[n - 2], p);
            lemma_filter_snoc(moved_down(t, ids), s[n - 2], u);
            lemma_filter_snoc(r, s[n - 1], p);
            lemma_filter_snoc(r, s[n - 1], u);
        } else {
            let t = s.drop_last();
            law_move_down_keeps_relative_order(t, ids);
            lemma_filter_snoc(moved_down(t, ids), s[n - 1], p);
            lemma_filter_snoc(moved_down(t, ids), s[n - 1], u);
        }
    }
}

/// With no track named, neither pass changes the queue.
pub proof fn law_moves_without_selection_are_identity(s: Seq<Track>, ids: Seq<u128>)
    requires
        forall|i: int| 0 <= i < s.len() ==> !selected(ids, #[trigger] s[i]),
    ensures
        moved_up(s, ids) == s,
        moved_down(s, ids) == s,
    decreases s.len(),
{
    if s.len() >= 2 {
        assert(!selected(ids, s[0]));
        assert(!selected(ids, s[s.len() - 2]));
        law_moves_without_selection_are_identity(s.drop_first(), ids);
        law_moves_without_selection_are_identity(s.drop_last(), ids);
        assert(seq![s[0]] + s.drop_first() =~= s);
        assert(s.drop_last().push(s[s.len() - 1]) =~= s);
    }
}

/// Removing named tracks leaves exactly the unnamed ones, in order, and
/// the count it reports is the number of named tracks that were queued.
pub proof fn law_remove_counts_named(s: Seq<Track>, ids: Seq<u128>)
    ensures
        without_ids(s, ids) == unpicked(s, ids),
        s.len() - without_ids(s, ids).len() == picked(s, ids).len(),
    decreases s.len(),
{
    let p = |t: Track| selected(ids, t);
    let u = |t: Track| !selected(ids, t);
    if s.len() > 0 {
        law_remove_counts_named(s.drop_last(), ids);
        assert(s.drop_last().push(s.last()) =~= s);
        lemma_filter_snoc(s.drop_last(), s.last(), p);
        lemma_filter_snoc(s.drop_last(), s.last(), u);
    } else {
        reveal(Seq::filter);
    }
}

/// The current track (if any) followed by the queue.
pub open spec fn lineup(current: Option<Track>, queue: Seq<Track>) -> Seq<Track> {
    match current {
        Some(t) => seq![t] + queue,
        None => queue,
    }
}

/// What enqueueing a track asks the caller to do.
pub enum EnqueuePlan {
    /// Something is playing; the track was appended to the queue.
    Queued,
    /// Nothing was playing but restored tracks were waiting: start `head`,
    /// then append `next`.
    StartRestored { head: Track, next: Track },
    /// Nothing was playing or waiting: start `track`.
    StartNew { track: Track },
}

/// The plan for enqueueing `t` onto a player in the given state.
pub open spec fn enqueue_plan(current: Option<Track>, queue: Seq<Track>, t: Track) -> EnqueuePlan {
    if current is Some {
        EnqueuePlan::Queued
    } else if queue.len() > 0 {
        EnqueuePlan::StartRestored { head: queue[0], next: t }
    } else {
        EnqueuePlan::StartNew { track: t }
    }
}

/// The queue once the plan is made (before any track is started).
pub open spec fn queue_after_plan(current: Option<Track>, queue: Seq<Track>, t: Track) -> Seq<Track> {
    if current is Some {
        queue.push(t)
    } else if queue.len() > 0 {
        queue.drop_first()
    } else {
        queue
    }
}

/// The playing track and queue once a started plan is completed.
pub open spec fn after_finish(current: Option<Track>, queue: Seq<Track>, plan: EnqueuePlan) -> (Option<Track>, Seq<Track>) {
    match plan {
        EnqueuePlan::Queued => (current, queue),
        EnqueuePlan::StartRestored { head, next } => (Some(head), queue.push(next)),
        EnqueuePlan::StartNew { track } => (Some(track), queue),
    }
}

/// What to hand the voice driver for a probed track.
pub enum InputSource {
    /// A live stream: transmux this manifest URL through ffmpeg.
    Ffmpeg(String),
    /// A regular video: let yt-dlp resolve this watch URL lazily.
    YoutubeDl(String),
}

/// Failures of the music commands that this library decides.
pub enum MusicError {
    /// yt-dlp reported a live track without a manifest URL.
    MissingLiveManifest,
    /// The playlist dump held no entries.
    EmptyPlaylist,
    /// The bot has no call in the guild and no voice channel to join was given.
    NotInVoice,
}

impl MusicError {
    /// The message shown for this error.
    pub fn message(&self) -> (m: String)
        ensures
            m@ == music_error_text(*self),
    {
        match self {
            MusicError::MissingLiveManifest => owned("Live track missing manifest URL from yt-dlp"),
            MusicError::EmptyPlaylist => owned("Playlist contains no entries"),
            MusicError::NotInVoice => owned("Bot isn't in voice — initiate playback from Discord first"),
        }
    }
}

/// The message of each music error.
pub open spec fn music_error_text(e: MusicError) -> Seq<char> {
    match e {
        MusicError::MissingLiveManifest => "Live track missing manifest URL from yt-dlp"@,
        MusicError::EmptyPlaylist => "Playlist contains no entries"@,
        MusicError::NotInVoice => "Bot isn't in voice — initiate playback from Discord first"@,
    }
}

/// How a probed track is fed to the voice driver: live streams through
/// ffmpeg from their manifest URL (which must be present), everything else
/// through yt-dlp from the watch URL.
pub fn input_source(info: &YtdlpInfo, watch_url: &str) -> (r: Result<InputSource, MusicError>)
    ensures
        info.is_live ==> match info.url {
            Some(u) => (r matches Ok(InputSource::Ffmpeg(m)) && m@ == u@),
            None => r matches Err(MusicError::MissingLiveManifest),
        },
        !info.is_live ==> (r matches Ok(InputSource::YoutubeDl(w)) && w@ == watch_url@),
{
    if info.is_live {
        match &info.url {
            Some(u) => Ok(InputSource::Ffmpeg(u.clone())),
            None => Err(MusicError::MissingLiveManifest),
        }
    } else {
        Ok(InputSource::YoutubeDl(owned(watch_url)))
    }
}

/// Which voice channel to join before playing: none when the bot already
/// has a call in the guild, else the requester's channel, which must be known.
pub fn voice_join_target(has_call: bool, voice_channel_id: Option<u64>) -> (r: Result<Option<u64>, MusicError>)
    ensures
        has_call ==> r == Ok::<Option<u64>, MusicError>(None),
        !has_call ==> match voice_channel_id {
            Some(c) => r == Ok::<Option<u64>, MusicError>(Some(c)),
            None => r matches Err(MusicError::NotInVoice),
        },
{
    if has_call {
        Ok(None)
    } else {
        match voice_channel_id {
            Some(c) => Ok(Some(c)),
            None => Err(MusicError::NotInVoice),
        }
    }
}

/// The title a probed track is queued under.
pub open spec fn info_title(info: &YtdlpInfo, query: Seq<char>) -> Seq<char> {
    match info.title {
        Some(t) => t@,
        None => query,
    }
}

/// The URL a probed track is queued under.
pub open spec fn info_watch_url(info: &YtdlpInfo, query: Seq<char>) -> Seq<char> {
    match info.webpage_url {
        Some(u) => u@,
        None => query,
    }
}

fn or_query(o: &Option<String>, query: &str) -> (r: String)
    ensures
        r@ == match *o {
            Some(s) => s@,
            None => query@,
        },
{
    match o {
        Some(s) => s.clone(),
        None => owned(query),
    }
}

/// The queue entry for a probed track: its title and page URL (the query
/// standing in for either when missing), no duration for live streams.
pub fn track_from_info(info: &YtdlpInfo, query: &str, requested_by_id: u64, requested_by_name: String) -> (t: Track)
    ensures
        t.title@ == info_title(info, query@),
        t.url@ == info_watch_url(info, query@),
        t.duration_secs == (if info.is_live { None } else { info.duration_secs }),
        t.requested_by_name@ == requested_by_name@,
        t.requested_by_id == requested_by_id,
        t.is_live == info.is_live,
{
    let title = or_query(&info.title, query);
    let url = or_query(&info.webpage_url, query);
    let duration = if info.is_live { None } else { info.duration_secs };
    Track::new(title, url, duration, requested_by_name, requested_by_id, info.is_live)
}

/// The title, URL and duration a usable playlist entry is queued under.
pub struct EntryPlan {
    pub title: Seq<char>,
    pub url: Seq<char>,
    pub duration_secs: Option<u64>,
}

/// The queue entries a playlist dump yields: entries without a usable URL
/// are skipped, a missing title falls back to the URL.
pub open spec fn playlist_plan(es: Seq<YtdlPlaylistEntry>) -> Seq<EntryPlan>
    decreases es.len(),
{
    if es.len() == 0 {
        Seq::empty()
    } else {
        let rest = playlist_plan(es.drop_last());
        let e = es.last();
        match entry_url_spec(&e) {
            Some(u) => rest.push(EntryPlan {
                title: match e.title {
                    Some(t) => t@,
                    None => u,
                },
                url: u,
                duration_secs: e.duration_secs,
            }),
            None => rest,
        }
    }
}

/// The tracks to queue for a playlist dump, in playlist order.
pub fn playlist_tracks(entries: &Vec<YtdlPlaylistEntry>, requested_by_id: u64, requested_by_name: &str) -> (v: Vec<Track>)
    ensures
        v@.len() == playlist_plan(entries@).len(),
        forall|i: int| #![trigger v@[i]] 0 <= i < v@.len() ==> {
            &&& v@[i].title@ == playlist_plan(entries@)[i].title
            &&& v@[i].url@ == playlist_plan(entries@)[i].url
            &&& v@[i].duration_secs == playlist_plan(entries@)[i].duration_secs
            &&& v@[i].requested_by_name@ == requested_by_name@
            &&& v@[i].requested_by_id == requested_by_id
            &&& !v@[i].is_live
        },
{
    let mut v: Vec<Track> = Vec::new();
    let mut i: usize = 0;
    while i < entries.len()
        invariant
            i <= entries@.len(),
            v@.len() == playlist_plan(entries@.take(i as int)).len(),
            forall|k: int| #![trigger v@[k]] 0 <= k < v@.len() ==> {
                &&& v@[k].title@ == playlist_plan(entries@.take(i as int))[k].title
                &&& v@[k].url@ == playlist_plan(entries@.take(i as int))[k].url
                &&& v@[k].duration_secs == playlist_plan(entries@.take(i as int))[k].duration_secs
                &&& v@[k].requested_by_name@ == requested_by_name@
                &&& v@[k].requested_by_id == requested_by_id
                &&& !v@[k].is_live
            },
        decreases entries@.len() - i,
    {
        let e = &entries[i];
        let ghost p_old = playlist_plan(entries@.take(i as int));
        let ghost v_old = v@;
        proof {
            assert(entries@.take(i + 1).drop_last() =~= entries@.take(i as int));
            assert(entries@.take(i + 1).last() == entries@[i as int]);
        }
        let ghost p_new = playlist_plan(entries@.take(i + 1));
        match playlist_entry_url(e) {
            Some(url) => {
                let title = match &e.title {
                    Some(t) => t.clone(),
                    None => url.clone(),
                };
                let t = Track::new(title, url, e.duration_secs, owned(requested_by_name), requested_by_id, false);
                v.push(t);
                proof {
                    assert(p_new.len() == p_old.len() + 1);
                    assert forall|k: int| #![trigger v@[k]] 0 <= k < v@.len() implies {
                        &&& v@[k].title@ == p_new[k].title
                        &&& v@[k].url@ == p_new[k].url
                        &&& v@[k].duration_secs == p_new[k].duration_secs
                        &&& v@[k].requested_by_name@ == requested_by_name@
                        &&& v@[k].requested_by_id == requested_by_id
                        &&& !v@[k].is_live
                    } by {
                        if k < v_old.len() {
                            assert(v@[k] == v_old[k]);
                            assert(p_new[k] == p_old[k]);
                        }
                    }
                }
            },
            None => {
                proof {
                    assert(p_new == p_old);
                }
            },
        }
        i += 1;
    }
    assert(entries@.take(entries@.len() as int) =~= entries@);
    let ghost plan = playlist_plan(entries@);
    assert(playlist_plan(entries@.take(i as int)) == plan);
    assert forall|k: int| #![trigger v@[k]] 0 <= k < v@.len() implies {
        &&& v@[k].title@ == plan[k].title
        &&& v@[k].url@ == plan[k].url
        &&& v@[k].duration_secs == plan[k].duration_secs
        &&& v@[k].requested_by_name@ == requested_by_name@
        &&& v@[k].requested_by_id == requested_by_id
        &&& !v@[k].is_live
    } by {}
    v
}

/// What a playlist enqueue reports: the playlist's title and how many
/// tracks were queued or started.
pub struct PlaylistResult {
    pub title: Option<String>,
    pub added: usize,
}

impl GuildPlayer {
    /// First step of enqueueing `track`: appends it when something is
    /// playing, takes the restored head off the queue when nothing is
    /// playing but tracks are waiting, and otherwise only plans to start it.
    pub fn enqueue(&mut self, track: Track) -> (plan: EnqueuePlan)
        ensures
            plan == enqueue_plan(old(self).current, old(self).queue@, track),
            final(self).queue@ == queue_after_plan(old(self).current, old(self).queue@, track),
            final(self).current == old(self).current,
            final(self).idle_since_ms == old(self).idle_since_ms,
            final(self).idle_leave_secs == old(self).idle_leave_secs,
            final(self).settings_loaded == old(self).settings_loaded,
    {
        if self.current.is_some() {
            self.queue.push_back(track);
            EnqueuePlan::Queued
        } else {
            match self.queue.pop_front() {
                Some(head) => EnqueuePlan::StartRestored { head, next: track },
                None => EnqueuePlan::StartNew { track },
            }
        }
    }

    /// Second step, once the planned track is playing: records it as
    /// current and, for a restored head, appends the new track behind the
    /// rest of the restored queue.
    pub fn finish_enqueue(&mut self, plan: EnqueuePlan)
        ensures
            (final(self).current, final(self).queue@) == after_finish(old(self).current, old(self).queue@, plan),
            !(plan is Queued) ==> final(self).idle_since_ms is None,
            plan is Queued ==> final(self).idle_since_ms == old(self).idle_since_ms,
            final(self).idle_leave_secs == old(self).idle_leave_secs,
            final(self).settings_loaded == old(self).settings_loaded,
    {
        match plan {
            EnqueuePlan::Queued => {},
            EnqueuePlan::StartRestored { head, next } => {
                self.begin(head);
                self.queue.push_back(next);
            },
            EnqueuePlan::StartNew { track } => {
                self.begin(track);
            },
        }
    }

    /// Called when the current track ends: clears it and takes the next
    /// track off the queue for the caller to start (then [`Self::begin`]);
    /// with nothing queued the player goes idle at `now_ms`.
    pub fn advance(&mut self, now_ms: u64) -> (next: Option<Track>)
        ensures
            final(self).current is None,
            old(self).queue@.len() > 0 ==> next == Some(old(self).queue@[0])
                && final(self).queue@ == old(self).queue@.drop_first()
                && final(self).idle_since_ms == old(self).idle_since_ms,
            old(self).queue@.len() == 0 ==> next is None
                && final(self).queue@ == old(self).queue@
                && final(self).idle_since_ms == Some(now_ms),
            final(self).idle_leave_secs == old(self).idle_leave_secs,
            final(self).settings_loaded == old(self).settings_loaded,
    {
        self.current = None;
        let next = self.queue.pop_front();
        if next.is_none() {
            self.idle_since_ms = Some(now_ms);
        }
        next
    }

    /// Starts a playlist track: returns it for the caller to start (then
    /// [`Self::begin`]) when nothing is playing, else appends it.
    pub fn enqueue_playlist_track(&mut self, track: Track) -> (start: Option<Track>)
        ensures
            old(self).current is None ==> start == Some(track) && final(self).queue@ == old(self).queue@,
            old(self).current is Some ==> start is None && final(self).queue@ == old(self).queue@.push(track),
            final(self).current == old(self).current,
            final(self).idle_since_ms == old(self).idle_since_ms,
            final(self).idle_leave_secs == old(self).idle_leave_secs,
            final(self).settings_loaded == old(self).settings_loaded,
    {
        if self.current.is_none() {
            Some(track)
        } else {
            self.queue.push_back(track);
            None
        }
    }

    /// Disconnect: drops the current track (returned so the caller can stop
    /// it) and the queue, and clears the idle mark.
    pub fn leave(&mut self) -> (stopped: Option<Track>)
        ensures
            stopped == old(self).current,
            final(self).current is None,
            final(self).queue@.len() == 0,
            final(self).idle_since_ms is None,
            final(self).idle_leave_secs == old(self).idle_leave_secs,
            final(self).settings_loaded == old(self).settings_loaded,
    {
        let stopped = self.current.take();
        self.queue.clear();
        self.idle_since_ms = None;
        stopped
    }

    /// Whether the idle reaper should disconnect this guild at `now_ms`:
    /// auto-leave is enabled, nothing plays or waits, and the player has been
    /// idle for at least the timeout (a clock that went backwards counts as
    /// no time elapsed).
    pub fn should_leave_idle(&self, now_ms: u64) -> (b: bool)
        ensures
            b == (self.idle_leave_secs > 0 && self.current is None && self.queue@.len() == 0
                && match self.idle_since_ms {
                    Some(t) => now_ms >= t && (now_ms - t) / 1000 >= self.idle_leave_secs,
                    None => false,
                }),
    {
        if self.idle_leave_secs == 0 || self.current.is_some() || self.queue.len() != 0 {
            return false;
        }
        match self.idle_since_ms {
            Some(t) => now_ms >= t && (now_ms - t) / 1000 >= self.idle_leave_secs,
            None => false,
        }
    }

    /// Applies a persisted idle timeout (negative values mean 0) and marks
    /// the settings as loaded.
    pub fn apply_idle_setting(&mut self, idle_leave_secs: i64)
        ensures
            final(self).idle_leave_secs == if idle_leave_secs < 0 { 0 } else { idle_leave_secs as u64 },
            final(self).settings_loaded,
            final(self).queue@ == old(self).queue@,
            final(self).current == old(self).current,
            final(self).idle_since_ms == old(self).idle_since_ms,
    {
        self.idle_leave_secs = if idle_leave_secs < 0 { 0 } else { idle_leave_secs as u64 };
        self.settings_loaded = true;
    }

    /// First-interaction hydration after a restart: applies the persisted
    /// idle timeout (when a settings row exists) and appends the persisted
    /// tracks behind whatever is queued. Does nothing once loaded.
    pub fn hydrate(&mut self, idle_leave_secs: Option<i64>, restored: Vec<Track>)
        ensures
            old(self).settings_loaded ==> final(self).queue@ == old(self).queue@
                && final(self).idle_leave_secs == old(self).idle_leave_secs,
            !old(self).settings_loaded ==> final(self).queue@ == old(self).queue@ + restored@
                && final(self).idle_leave_secs == match idle_leave_secs {
                    Some(s) => if s < 0 { 0 } else { s as u64 },
                    None => old(self).idle_leave_secs,
                },
            final(self).settings_loaded,
            final(self).current == old(self).current,
            final(self).idle_since_ms == old(self).idle_since_ms,
    {
        if self.settings_loaded {
            return;
        }
        match idle_leave_secs {
            Some(s) => {
                self.idle_leave_secs = if s < 0 { 0 } else { s as u64 };
            },
            None => {},
        }
        let ghost q0 = self.queue@;
        let ghost cur0 = self.current;
        let ghost idle0 = self.idle_since_ms;
        let ghost leave0 = self.idle_leave_secs;
        let mut rest = restored;
        let ghost r0 = rest@;
        let mut i: usize = 0;
        let n = rest.len();
        let mut rev: Vec<Track> = Vec::new();
        while rest.len() > 0
            invariant
                rev@.len() + rest@.len() == n,
                forall|k: int| 0 <= k < rest@.len() ==> #[trigger] rest@[k] == r0[k],
                forall|k: int| 0 <= k < rev@.len() ==> #[trigger] rev@[k] == r0[n - 1 - k],
                n == r0.len(),
            decreases rest@.len(),
        {
            let t = rest.pop().unwrap();
            rev.push(t);
        }
        while rev.len() > 0
            invariant
                rev@.len() <= n,
                forall|k: int| 0 <= k < rev@.len() ==> #[trigger] rev@[k] == r0[n - 1 - k],
                self.queue@ == q0 + r0.take(n - rev@.len()),
                n == r0.len(),
                self.current == cur0,
                self.idle_since_ms == idle0,
                self.idle_leave_secs == leave0,
            decreases rev@.len(),
        {
            let t = rev.pop().unwrap();
            let ghost j = n - rev@.len() - 1;
            assert(t == r0[j]);
            self.queue.push_back(t);
            assert(r0.take(j + 1) =~= r0.take(j).push(r0[j]));
            assert(self.queue@ =~= q0 + r0.take(n - rev@.len()));
        }
        assert(r0.take(n as int) =~= r0);
        self.settings_loaded = true;
    }
}

/// Enqueueing (both steps, the start succeeding) appends the new track to
/// the lineup of current track followed by queue: restored tracks resume
/// in order and the new track plays after them.
pub proof fn law_enqueue_appends_to_lineup(current: Option<Track>, queue: Seq<Track>, t: Track)
    ensures
        ({
            let (c2, q2) = after_finish(current, queue_after_plan(current, queue, t), enqueue_plan(current, queue, t));
            lineup(c2, q2) == lineup(current, queue).push(t)
        }),
{
    if current is Some {
        assert(seq![current->0] + queue.push(t) =~= (seq![current->0] + queue).push(t));
    } else if queue.len() > 0 {
        assert(seq![queue[0]] + queue.drop_first().push(t) =~= queue.push(t));
    } else {
        assert(seq![t] =~= queue.push(t));
    }
}

/// After a restart, a guild's first interaction gives back the lineup that
/// was persisted: the track that was playing and the queue behind it, in
/// order, all waiting in the queue (hydrating a fresh player with a
/// snapshot).
pub proof fn law_restart_restores_lineup(current: Option<Track>, queue: Seq<Track>, snap: Seq<Track>, fresh: Seq<Track>)
    requires
        track_views(snap) == current_views(current) + track_views(queue),
        fresh.len() == 0,
    ensures
        track_views(fresh + snap) == track_views(lineup(current, queue)),
{
    assert(fresh + snap =~= snap);
    match current {
        Some(t) => {
            assert(track_views(seq![t] + queue) =~= seq![t@] + track_views(queue));
        },
        None => {
            assert(current_views(current) + track_views(queue) =~= track_views(queue));
        },
    }
}

/// When a track ends and the next one starts, the lineup loses exactly the
/// finished track: what plays next is the head of the queue and the rest
/// keep their order.
pub proof fn law_advance_drops_only_finished(queue: Seq<Track>)
    requires
        queue.len() > 0,
    ensures
        lineup(Some(queue[0]), queue.drop_first()) == queue,
{
    assert(seq![queue[0]] + queue.drop_first() =~= queue);
}
} // verus!
