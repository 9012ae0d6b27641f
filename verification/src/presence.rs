//! Remote presence detection: the decisions.
//!
//! The signal is the **system-level connection state** (the remote being among
//! the connected devices that expose the ATVV service), not signal strength.
//! A missing remote is only declared absent after it has been missing for
//! `absent_after` milliseconds in a row: an idle Bluetooth HID link may be
//! released briefly by the system, and flipping on every poll would make
//! keep-awake flap.

use vstd::prelude::*;
use crate::bridge::{name_matches, name_matches_spec};
use crate::text::str_equal;

verus! {

#[derive(Debug, Clone, Copy, PartialEq, Eq, Structural)]
pub enum Presence {
    Present,
    Absent,
}

/// A candidate remote, as listed for binding.
#[derive(Debug, Clone, PartialEq, Eq)]
pub struct RemoteInfo {
    /// The Bluetooth device id as a string; stable for one remote on one
    /// host. This is what gets persisted.
    pub id: String,
    pub name: String,
    /// Whether the system has it connected right now ("in hand" rather than
    /// "a neighbour seen in a scan").
    pub connected: bool,
}

pub struct RemoteInfoView {
    pub id: Seq<char>,
    pub name: Seq<char>,
    pub connected: bool,
}

impl View for RemoteInfo {
    type V = RemoteInfoView;

    open spec fn view(&self) -> RemoteInfoView {
        RemoteInfoView { id: self.id@, name: self.name@, connected: self.connected }
    }
}

#[derive(Debug, Clone)]
pub struct PresenceOptions {
    /// The bound device id; `None` accepts any matching remote.
    pub bound_id: Option<String>,
    /// Polling interval, in milliseconds.
    pub poll_interval: u64,
    /// How long, in milliseconds, the remote must be missing in a row before
    /// it counts as absent.
    pub absent_after: u64,
}

impl Default for PresenceOptions {
    fn default() -> (r: Self)
        ensures
            r.bound_id is None,
            r.poll_interval == 5_000,
            r.absent_after == 90_000,
    {
        PresenceOptions { bound_id: None, poll_interval: 5_000, absent_after: 90_000 }
    }
}

pub open spec fn ids_view(ids: Seq<String>) -> Seq<Seq<char>> {
    ids.map_values(|s: String| s@)
}

/// Whether the target remote is among the connected devices: the bound one
/// if there is a binding, any of them otherwise.
pub open spec fn seen_spec(connected_ids: Seq<Seq<char>>, bound_id: Option<Seq<char>>) -> bool {
    match bound_id {
        Some(b) => connected_ids.contains(b),
        None => connected_ids.len() > 0,
    }
}

pub open spec fn opt_str_view(o: Option<&str>) -> Option<Seq<char>> {
    match o {
        Some(s) => Some(s@),
        None => None,
    }
}

/// Decides from the ids of the connected ATVV devices whether the target
/// remote is there.
pub fn seen_now(connected_ids: &[String], bound_id: Option<&str>) -> (r: bool)
    ensures
        r == seen_spec(ids_view(connected_ids@), opt_str_view(bound_id)),
{
    let ghost ids = ids_view(connected_ids@);
    match bound_id {
        None => connected_ids.len() > 0,
        Some(bound) => {
            let mut i: usize = 0;
            while i < connected_ids.len()
                invariant
                    bound_id == Some(bound),
                    ids == ids_view(connected_ids@),
                    i <= connected_ids@.len(),
                    forall|j: int| 0 <= j < i ==> ids[j] != bound@,
                decreases connected_ids@.len() - i,
            {
                assert(ids[i as int] == connected_ids@[i as int]@);
                if str_equal(connected_ids[i].as_str(), bound) {
                    assert(ids[i as int] == bound@);
                    return true;
                }
                i = i + 1;
            }
            false
        },
    }
}

/// How long the remote has been missing.
#[derive(Debug, Clone, Copy, PartialEq, Eq, Structural)]
pub enum Missing {
    /// It was seen on the last poll.
    No,
    /// Missing since this time (milliseconds).
    Since(u64),
    /// Missing since before the watch started: counts as missing long enough.
    LongAgo,
}

pub struct TrackerView {
    pub reported: Option<Presence>,
    pub missing: Missing,
}

/// Whether a remote missing as `missing` has been missing long enough at `now`.
pub open spec fn missing_long_enough(missing: Missing, now_ms: u64, absent_after: u64) -> bool {
    match missing {
        Missing::No => absent_after == 0,
        Missing::Since(t) => (now_ms as int) - (t as int) >= absent_after as int,
        Missing::LongAgo => true,
    }
}

/// One poll: the new state, and the presence to report if it changed.
pub open spec fn observe_spec(s: TrackerView, seen: bool, now_ms: u64, absent_after: u64) -> (
    TrackerView,
    Option<Presence>,
) {
    let missing = if seen {
        Missing::No
    } else {
        match s.missing {
            Missing::No => Missing::Since(now_ms),
            m => m,
        }
    };
    let current = if seen {
        Presence::Present
    } else if missing_long_enough(missing, now_ms, absent_after) {
        Presence::Absent
    } else {
        match s.reported {
            Some(p) => p,
            None => Presence::Absent,
        }
    };
    if s.reported == Some(current) {
        (TrackerView { reported: s.reported, missing }, None)
    } else {
        (TrackerView { reported: Some(current), missing }, Some(current))
    }
}

/// Debounces the polled "is it connected" signal into presence flips. The
/// first poll always reports, so callers need not handle an unknown start.
pub struct PresenceTracker {
    reported: Option<Presence>,
    missing: Missing,
}

impl View for PresenceTracker {
    type V = TrackerView;

    closed spec fn view(&self) -> TrackerView {
        TrackerView { reported: self.reported, missing: self.missing }
    }
}

impl PresenceTracker {
    /// A tracker that has reported nothing yet and treats an initial miss as
    /// a long-standing one: at start-up "not there" simply means absent.
    pub fn new() -> (r: Self)
        ensures
            r@ == (TrackerView { reported: None, missing: Missing::LongAgo }),
    {
        PresenceTracker { reported: None, missing: Missing::LongAgo }
    }

    /// Feeds one poll result; returns the presence to report when it flipped
    /// (or on the first poll).
    pub fn observe(&mut self, seen: bool, now_ms: u64, absent_after: u64) -> (r: Option<Presence>)
        ensures
            (final(self)@, r) == observe_spec(old(self)@, seen, now_ms, absent_after),
    {
        let missing = if seen {
            Missing::No
        } else {
            match self.missing {
                Missing::No => Missing::Since(now_ms),
                m => m,
            }
        };
        let long_enough = match missing {
            Missing::No => absent_after == 0,
            Missing::Since(t) => now_ms >= t && now_ms - t >= absent_after,
            Missing::LongAgo => true,
        };
        let current = if seen {
            Presence::Present
        } else if long_enough {
            Presence::Absent
        } else {
            match self.reported {
                Some(p) => p,
                None => Presence::Absent,
            }
        };
        self.missing = missing;
        let same = match self.reported {
            Some(p) => p == current,
            None => false,
        };
        if same {
            None
        } else {
            self.reported = Some(current);
            Some(current)
        }
    }
}

/// Adds a remote to the list unless one with the same id is already there.
pub fn remember_remote(found: &mut Vec<RemoteInfo>, info: RemoteInfo)
    ensures
        (exists|i: int| 0 <= i < old(found)@.len() && old(found)@[i].id@ == info.id@)
            ==> final(found)@ == old(found)@,
        !(exists|i: int| 0 <= i < old(found)@.len() && old(found)@[i].id@ == info.id@)
            ==> final(found)@ == old(found)@.push(info),
{
    let mut i: usize = 0;
    while i < found.len()
        invariant
            i <= found@.len(),
            found@ == old(found)@,
            forall|j: int| 0 <= j < i ==> found@[j].id@ != info.id@,
        decreases found@.len() - i,
    {
        if str_equal(found[i].id.as_str(), info.id.as_str()) {
            return;
        }
        i = i + 1;
    }
    found.push(info);
}

/// The sort class of a remote: connected ones first, and within each group
/// those whose name matches a known model first.
pub open spec fn remote_rank(r: RemoteInfoView) -> int {
    (if r.connected { 0int } else { 2int }) + (if name_matches_spec(r.name) { 0int } else { 1int })
}

pub open spec fn rank_is(k: int) -> spec_fn(RemoteInfo) -> bool {
    |r: RemoteInfo| remote_rank(r@) == k
}

/// The remotes ordered by rank, keeping the discovery order within a rank.
pub open spec fn sorted_remotes(found: Seq<RemoteInfo>) -> Seq<RemoteInfo> {
    found.filter(rank_is(0)) + found.filter(rank_is(1)) + found.filter(rank_is(2)) + found.filter(
        rank_is(3),
    )
}

fn copy_remote(r: &RemoteInfo) -> (c: RemoteInfo)
    ensures
        c == *r,
{
    RemoteInfo { id: r.id.clone(), name: r.name.clone(), connected: r.connected }
}

fn rank(r: &RemoteInfo) -> (k: u8)
    ensures
        k as int == remote_rank(r@),
{
    let a: u8 = if r.connected { 0 } else { 2 };
    let b: u8 = if name_matches(r.name.as_str()) { 0 } else { 1 };
    a + b
}

/// Orders the candidate remotes for display: connected before merely
/// advertising, and known names before the rest; a stable sort.
pub fn sort_remotes(found: Vec<RemoteInfo>) -> (r: Vec<RemoteInfo>)
    ensures
        r@ == sorted_remotes(found@),
{
    let mut out: Vec<RemoteInfo> = Vec::new();
    let mut k: u8 = 0;
    while k < 4
        invariant
            k <= 4,
            k == 0 ==> out@ == Seq::<RemoteInfo>::empty(),
            k == 1 ==> out@ == found@.filter(rank_is(0)),
            k == 2 ==> out@ == found@.filter(rank_is(0)) + found@.filter(rank_is(1)),
            k == 3 ==> out@ == found@.filter(rank_is(0)) + found@.filter(rank_is(1)) + found@.filter(
                rank_is(2),
            ),
            k == 4 ==> out@ == sorted_remotes(found@),
        decreases 4 - k,
    {
        let ghost o0 = out@;
        let mut i: usize = 0;
        while i < found.len()
            invariant
                i <= found@.len(),
                k < 4,
                out@ == o0 + found@.take(i as int).filter(rank_is(k as int)),
            decreases found@.len() - i,
        {
            proof {
                reveal(Seq::filter);
                assert(found@.take(i + 1).drop_last() =~= found@.take(i as int));
            }
            if rank(&found[i]) == k {
                out.push(copy_remote(&found[i]));
                proof {
                    assert(out@ =~= o0 + found@.take(i + 1).filter(rank_is(k as int)));
                }
            }
            i = i + 1;
        }
        assert(found@.take(found@.len() as int) =~= found@);
        proof {
            if k == 0 {
                assert(out@ =~= found@.filter(rank_is(0)));
            }
        }
        k = k + 1;
    }
    out
}


/// The first poll always reports the current state, so callers never hold an
/// unknown initial value.
pub proof fn law_first_poll_reports(s: TrackerView, seen: bool, now_ms: u64, absent_after: u64)
    requires
        s.reported is None,
    ensures
        observe_spec(s, seen, now_ms, absent_after).1 is Some,
{
}

/// A remote that is seen is reported present (once, on the flip), and stays
/// reported present.
pub proof fn law_seen_is_present(s: TrackerView, now_ms: u64, absent_after: u64)
    ensures
        observe_spec(s, true, now_ms, absent_after).0.reported == Some(Presence::Present),
        observe_spec(s, true, now_ms, absent_after).1 == (if s.reported == Some(
            Presence::Present,
        ) {
            None
        } else {
            Some(Presence::Present)
        }),
{
}

/// Within the grace period a present remote that goes missing is still
/// reported present: nothing flips.
pub proof fn law_grace_period_keeps_presence(s: TrackerView, now_ms: u64, absent_after: u64)
    requires
        s.reported == Some(Presence::Present),
        !missing_long_enough(
            match s.missing {
                Missing::No => Missing::Since(now_ms),
                m => m,
            },
            now_ms,
            absent_after,
        ),
    ensures
        observe_spec(s, false, now_ms, absent_after).1 is None,
        observe_spec(s, false, now_ms, absent_after).0.reported == Some(Presence::Present),
{
}

/// Missing for `absent_after` milliseconds in a row means absent.
pub proof fn law_long_miss_is_absence(s: TrackerView, t: u64, now_ms: u64, absent_after: u64)
    requires
        s.missing == Missing::Since(t),
        (now_ms as int) - (t as int) >= absent_after as int,
    ensures
        observe_spec(s, false, now_ms, absent_after).0.reported == Some(Presence::Absent),
{
}

/// A run of polls `(seen, now_ms)`: the tracker state afterwards, and the
/// reports made, in order.
pub open spec fn run_observe(s: TrackerView, polls: Seq<(bool, u64)>, absent_after: u64) -> (
    TrackerView,
    Seq<Presence>,
)
    decreases polls.len(),
{
    if polls.len() == 0 {
        (s, Seq::empty())
    } else {
        let (t, reps) = run_observe(s, polls.drop_last(), absent_after);
        let (t2, r) = observe_spec(t, polls.last().0, polls.last().1, absent_after);
        (t2, match r {
            Some(p) => reps.push(p),
            None => reps,
        })
    }
}

/// Over any run of polls, a change is reported only when the state flips:
/// no two reports in a row are the same, the last report is the state held,
/// and a tracker that has reported nothing yet reports on its first poll.
pub proof fn law_reports_only_flips(s: TrackerView, polls: Seq<(bool, u64)>, absent_after: u64)
    ensures
        ({
            let (t, reps) = run_observe(s, polls, absent_after);
            &&& forall|i: int| 0 <= i < reps.len() - 1 ==> #[trigger] reps[i] != reps[i + 1]
            &&& reps.len() == 0 ==> t.reported == s.reported
            &&& reps.len() > 0 ==> t.reported == Some(reps.last())
            &&& s.reported is None && polls.len() > 0 ==> reps.len() > 0
        }),
    decreases polls.len(),
{
    if polls.len() > 0 {
        law_reports_only_flips(s, polls.drop_last(), absent_after);
        let (t, reps) = run_observe(s, polls.drop_last(), absent_after);
        let (t2, r) = observe_spec(t, polls.last().0, polls.last().1, absent_after);
        if let Some(p) = r {
            let reps2 = reps.push(p);
            assert forall|i: int| 0 <= i < reps2.len() - 1 implies #[trigger] reps2[i] != reps2[i + 1] by {
                if i < reps.len() - 1 {
                    assert(reps2[i] == reps[i] && reps2[i + 1] == reps[i + 1]);
                } else {
                    assert(reps2[i] == reps.last());
                }
            }
        } else {
            if s.reported is None && polls.len() > 0 && reps.len() == 0 {
                law_first_poll_reports(t, polls.last().0, polls.last().1, absent_after);
            }
        }
    }
}

} // verus!
