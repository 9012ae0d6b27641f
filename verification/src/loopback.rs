//! Recognising loopback audio devices by name.
//!
//! A loopback driver (BlackHole on macOS, VB-Cable on Windows, a PipeWire /
//! Pulse null-sink on Linux) turns the output device the voice is written to
//! into a virtual microphone. A device is chosen by name: exactly, or else
//! by a case-insensitive substring.

use vstd::prelude::*;
use crate::text::{contains, contains_seq};

verus! {

/// What `str::to_lowercase` returns for a string (full Unicode lowercase mapping).
pub uninterp spec fn lowercase(s: Seq<char>) -> Seq<char>;

/// Calls `str::to_lowercase`. The contract only names the result: the
/// Unicode case mapping itself is not restated here.
#[verifier::external_body]
pub(crate) fn to_lowercase(s: &str) -> (r: String)
    ensures
        r@ == lowercase(s@),
{
    s.to_lowercase()
}

pub open spec fn loopback_marker(i: int) -> Seq<char> {
    if i == 0 {
        "blackhole"@
    } else if i == 1 {
        "vb-audio"@
    } else if i == 2 {
        "vb-cable"@
    } else if i == 3 {
        "cable input"@
    } else if i == 4 {
        "null output"@
    } else {
        "loopback"@
    }
}

/// A lower-cased device name belongs to a known loopback driver when it
/// contains one of the markers.
pub open spec fn has_loopback_marker(lowered: Seq<char>) -> bool {
    exists|i: int| 0 <= i < 6 && contains_seq(lowered, #[trigger] loopback_marker(i))
}

fn marker(i: usize) -> (r: &'static str)
    requires
        i < 6,
    ensures
        r@ == loopback_marker(i as int),
{
    if i == 0 {
        "blackhole"
    } else if i == 1 {
        "vb-audio"
    } else if i == 2 {
        "vb-cable"
    } else if i == 3 {
        "cable input"
    } else if i == 4 {
        "null output"
    } else {
        "loopback"
    }
}

/// Whether an already lower-cased name carries a known loopback marker.
pub fn lowered_is_known_loopback(lowered: &str) -> (r: bool)
    ensures
        r == has_loopback_marker(lowered@),
{
    let mut i: usize = 0;
    while i < 6
        invariant
            i <= 6,
            forall|j: int| 0 <= j < i ==> !contains_seq(lowered@, #[trigger] loopback_marker(j)),
        decreases 6 - i,
    {
        if contains(lowered, marker(i)) {
            return true;
        }
        i = i + 1;
    }
    false
}

/// Whether a device name looks like a known loopback driver (case-insensitive).
pub fn is_known_loopback(name: &str) -> (r: bool)
    ensures
        r == has_loopback_marker(lowercase(name@)),
{
    let lower = to_lowercase(name);
    lowered_is_known_loopback(lower.as_str())
}


/// Device `i` is named exactly `query`.
pub open spec fn names_exactly(names: Seq<Option<String>>, query: Seq<char>, i: int) -> bool {
    names[i] matches Some(n) && n@ == query
}

/// Device `i`'s lower-cased name contains the lower-cased `query`.
pub open spec fn names_loosely(names: Seq<Option<String>>, query: Seq<char>, i: int) -> bool {
    names[i] matches Some(n) && contains_seq(lowercase(n@), lowercase(query))
}

/// Device `i`'s given lower-cased name contains the given lower-cased query.
pub open spec fn lowered_contains(lowered: Seq<Option<String>>, lowered_query: Seq<char>, i: int) -> bool {
    lowered[i] matches Some(l) && contains_seq(l@, lowered_query)
}

/// The device choice, with the lower-cased names (`None` where the name is
/// unknown) and the lower-cased query given: the first device named exactly
/// `query`; failing that, the first whose lower-cased name contains the
/// lower-cased query; `None` when no device qualifies.
pub fn select_with_lowered(
    names: &[Option<String>],
    lowered: &[Option<String>],
    query: &str,
    lowered_query: &str,
) -> (r: Option<usize>)
    requires
        lowered@.len() == names@.len(),
    ensures
        (exists|i: int| 0 <= i < names@.len() && names_exactly(names@, query@, i)) ==> (
        r matches Some(k) && k < names@.len() && names_exactly(names@, query@, k as int) && forall|
            j: int,
        | 0 <= j < k ==> !names_exactly(names@, query@, j)),
        !(exists|i: int| 0 <= i < names@.len() && names_exactly(names@, query@, i)) ==> match r {
            Some(k) => k < names@.len() && lowered_contains(lowered@, lowered_query@, k as int)
                && forall|j: int| 0 <= j < k ==> !lowered_contains(lowered@, lowered_query@, j),
            None => forall|j: int| 0 <= j < names@.len() ==> !lowered_contains(lowered@, lowered_query@, j),
        },
{
    let mut i: usize = 0;
    while i < names.len()
        invariant
            i <= names@.len(),
            forall|j: int| 0 <= j < i ==> !names_exactly(names@, query@, j),
        decreases names@.len() - i,
    {
        if let Some(n) = &names[i] {
            if crate::text::str_equal(n.as_str(), query) {
                return Some(i);
            }
        }
        i = i + 1;
    }
    let mut i: usize = 0;
    while i < lowered.len()
        invariant
            i <= lowered@.len(),
            lowered@.len() == names@.len(),
            forall|j: int| 0 <= j < names@.len() ==> !names_exactly(names@, query@, j),
            forall|j: int| 0 <= j < i ==> !lowered_contains(lowered@, lowered_query@, j),
        decreases lowered@.len() - i,
    {
        if let Some(l) = &lowered[i] {
            if contains(l.as_str(), lowered_query) {
                return Some(i);
            }
        }
        i = i + 1;
    }
    None
}

/// Picks the output device that a name query designates, among devices whose
/// names were read (`None` where reading the name failed): the first whose
/// name equals the query; failing that, the first whose name contains it,
/// ignoring case; `None` when no device qualifies.
pub fn select_output_device(names: &[Option<String>], query: &str) -> (r: Option<usize>)
    ensures
        (exists|i: int| 0 <= i < names@.len() && names_exactly(names@, query@, i)) ==> (
        r matches Some(k) && k < names@.len() && names_exactly(names@, query@, k as int) && forall|
            j: int,
        | 0 <= j < k ==> !names_exactly(names@, query@, j)),
        !(exists|i: int| 0 <= i < names@.len() && names_exactly(names@, query@, i)) ==> match r {
            Some(k) => k < names@.len() && names_loosely(names@, query@, k as int) && forall|j: int|
                0 <= j < k ==> !names_loosely(names@, query@, j),
            None => forall|j: int| 0 <= j < names@.len() ==> !names_loosely(names@, query@, j),
        },
{
    let mut lowered: Vec<Option<String>> = Vec::new();
    let mut i: usize = 0;
    while i < names.len()
        invariant
            i <= names@.len(),
            lowered@.len() == i,
            forall|j: int| 0 <= j < i ==> match names@[j] {
                Some(n) => (#[trigger] lowered@[j]) matches Some(l) && l@ == lowercase(n@),
                None => lowered@[j] is None,
            },
        decreases names@.len() - i,
    {
        let l = match &names[i] {
            Some(n) => Some(to_lowercase(n.as_str())),
            None => None,
        };
        lowered.push(l);
        i = i + 1;
    }
    let q = to_lowercase(query);
    let r = select_with_lowered(names, lowered.as_slice(), query, q.as_str());
    proof {
        assert forall|j: int| 0 <= j < names@.len() implies lowered_contains(lowered@, q@, j)
            == names_loosely(names@, query@, j) by {
            if let Some(n) = names@[j] {
                assert(lowered@[j] matches Some(l) && l@ == lowercase(n@));
            }
        }
    }
    r
}

} // verus!
