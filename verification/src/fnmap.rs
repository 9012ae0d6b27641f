//! Device-scoped F5 -> Fn/Globe remapping: the decisions.
//!
//! The remote's microphone button reports keyboard-page F5 (usage 0x3E). Mapping
//! F5 of **this device only** to Apple's Fn/Globe key, together with the system
//! setting "Dictation shortcut: hold Globe", turns holding the mic button into
//! holding Fn, so system dictation runs exactly while the voice stream runs.
//! The mapping is written to the `UserKeyMapping` property of each matching HID
//! service; this module decides what to write and remembers what to restore.

use vstd::prelude::*;
use std::collections::HashMap;

verus! {

/// The remote's HID identity (RC003 / 2 Pro and ARN9 share it).
pub const VENDOR_ID: i64 = 0x2717;

pub const PRODUCT_ID: i64 = 0x32B8;

/// Keyboard page F5: the remote's microphone button.
pub const SRC_F5: u64 = 0x0000_0007_0000_003E;

/// Apple vendor page top-case Fn/Globe key.
pub const DST_FN_GLOBE: u64 = 0x0000_00FF_0000_0003;

/// Keeps every mapping whose source is not F5.
pub open spec fn not_f5(m: (u64, u64)) -> bool {
    m.0 != SRC_F5
}

/// Keeps every mapping but our own F5 -> Fn pair.
pub open spec fn not_ours(m: (u64, u64)) -> bool {
    m != (SRC_F5, DST_FN_GLOBE)
}

pub open spec fn desired_spec(current: Seq<(u64, u64)>) -> Seq<(u64, u64)> {
    current.filter(|m: (u64, u64)| not_f5(m)).push((SRC_F5, DST_FN_GLOBE))
}

pub open spec fn original_spec(current: Seq<(u64, u64)>) -> Seq<(u64, u64)> {
    current.filter(|m: (u64, u64)| not_ours(m))
}

/// The mapping table to write: the existing non-F5 entries, then F5 -> Fn.
pub fn desired_mappings(current: &[(u64, u64)]) -> (r: Vec<(u64, u64)>)
    ensures
        r@ == desired_spec(current@),
{
    let mut out: Vec<(u64, u64)> = Vec::new();
    let mut i: usize = 0;
    while i < current.len()
        invariant
            i <= current@.len(),
            out@ == current@.take(i as int).filter(|m: (u64, u64)| not_f5(m)),
        decreases current@.len() - i,
    {
        let m = current[i];
        proof {
            reveal(Seq::filter);
            assert(current@.take(i + 1).drop_last() =~= current@.take(i as int));
        }
        if m.0 != SRC_F5 {
            out.push(m);
        }
        i = i + 1;
    }
    assert(current@.take(current@.len() as int) =~= current@);
    out.push((SRC_F5, DST_FN_GLOBE));
    out
}

/// The "original" table to save: a leftover F5 -> Fn pair of our own (from a
/// crashed earlier run) is not an original, or restoring would write the stale
/// mapping back. Somebody else's F5 mapping is kept.
pub fn original_for_save(current: &[(u64, u64)]) -> (r: Vec<(u64, u64)>)
    ensures
        r@ == original_spec(current@),
{
    let mut out: Vec<(u64, u64)> = Vec::new();
    let mut i: usize = 0;
    while i < current.len()
        invariant
            i <= current@.len(),
            out@ == current@.take(i as int).filter(|m: (u64, u64)| not_ours(m)),
        decreases current@.len() - i,
    {
        let m = current[i];
        proof {
            reveal(Seq::filter);
            assert(current@.take(i + 1).drop_last() =~= current@.take(i as int));
        }
        if !(m.0 == SRC_F5 && m.1 == DST_FN_GLOBE) {
            out.push(m);
        }
        i = i + 1;
    }
    assert(current@.take(current@.len() as int) =~= current@);
    out
}

/// Whether a table read back from a service carries our F5 -> Fn pair.
pub fn mapping_installed(read_back: &[(u64, u64)]) -> (r: bool)
    ensures
        r == read_back@.contains((SRC_F5, DST_FN_GLOBE)),
{
    let mut i: usize = 0;
    while i < read_back.len()
        invariant
            i <= read_back@.len(),
            forall|j: int| 0 <= j < i ==> read_back@[j] != (SRC_F5, DST_FN_GLOBE),
        decreases read_back@.len() - i,
    {
        let m = read_back[i];
        if m.0 == SRC_F5 && m.1 == DST_FN_GLOBE {
            assert(read_back@[i as int] == (SRC_F5, DST_FN_GLOBE));
            return true;
        }
        i = i + 1;
    }
    false
}

fn copy_pairs(v: &Vec<(u64, u64)>) -> (r: Vec<(u64, u64)>)
    ensures
        r@ == v@,
{
    let mut r: Vec<(u64, u64)> = Vec::new();
    let mut i: usize = 0;
    while i < v.len()
        invariant
            i <= v@.len(),
            r@ == v@.take(i as int),
        decreases v@.len() - i,
    {
        r.push(v[i]);
        i = i + 1;
        assert(r@ =~= v@.take(i as int));
    }
    assert(v@.take(v@.len() as int) =~= v@);
    r
}

pub open spec fn saved_view(m: Map<u64, Vec<(u64, u64)>>) -> Map<u64, Seq<(u64, u64)>> {
    m.map_values(|v: Vec<(u64, u64)>| v@)
}

/// Remembers, per HID service (by registry id), the mapping table found
/// before F5 -> Fn was first applied, so that it can be restored later.
pub struct VoiceKeyMapper {
    saved: HashMap<u64, Vec<(u64, u64)>>,
}

impl View for VoiceKeyMapper {
    type V = Map<u64, Seq<(u64, u64)>>;

    closed spec fn view(&self) -> Map<u64, Seq<(u64, u64)>> {
        saved_view(self.saved@)
    }
}

impl VoiceKeyMapper {
    pub fn new() -> (r: Self)
        ensures
            r@ == Map::<u64, Seq<(u64, u64)>>::empty(),
    {
        let r = VoiceKeyMapper { saved: HashMap::new() };
        assert(r@ =~= Map::<u64, Seq<(u64, u64)>>::empty());
        r
    }

    /// Whether any original is waiting to be restored.
    pub fn has_saved(&self) -> (r: bool)
        ensures
            r == (self@.dom().len() > 0),
    {
        broadcast use vstd::std_specs::hash::group_hash_axioms;

        assert(self@.dom() =~= self.saved@.dom());
        self.saved.len() > 0
    }

    /// For one matching service with registry id `rid` whose current table is
    /// `current`: saves the original table unless one is already saved for
    /// `rid`, and returns the table to write.
    pub fn prepare_apply(&mut self, rid: u64, current: &[(u64, u64)]) -> (r: Vec<(u64, u64)>)
        ensures
            r@ == desired_spec(current@),
            final(self)@ == (if old(self)@.contains_key(rid) {
                old(self)@
            } else {
                old(self)@.insert(rid, original_spec(current@))
            }),
    {
        broadcast use vstd::std_specs::hash::group_hash_axioms;

        if !self.saved.contains_key(&rid) {
            let original = original_for_save(current);
            let ghost s0 = self.saved@;
            self.saved.insert(rid, original);
            assert(saved_view(self.saved@) =~= saved_view(s0).insert(rid, original_spec(current@)));
        }
        desired_mappings(current)
    }

    /// The saved original for service `rid`, if any.
    pub fn restore_value(&self, rid: u64) -> (r: Option<Vec<(u64, u64)>>)
        ensures
            match r {
                Some(v) => self@.contains_key(rid) && self@[rid] == v@,
                None => !self@.contains_key(rid),
            },
    {
        broadcast use vstd::std_specs::hash::group_hash_axioms;

        match self.saved.get(&rid) {
            Some(v) => Some(copy_pairs(v)),
            None => None,
        }
    }

    /// Records that service `rid` got its original back.
    pub fn restored(&mut self, rid: u64)
        ensures
            final(self)@ == old(self)@.remove(rid),
    {
        broadcast use vstd::std_specs::hash::group_hash_axioms;

        let ghost s0 = self.saved@;
        self.saved.remove(&rid);
        assert(saved_view(self.saved@) =~= saved_view(s0).remove(rid));
    }

    /// Drops the saved originals of services that are no longer present:
    /// their mapping disappeared together with the device.
    pub fn forget_absent(&mut self, present: &[u64])
        ensures
            final(self)@ == old(self)@.restrict(present@.to_set()),
    {
        broadcast use vstd::std_specs::hash::group_hash_axioms;

        let ghost s0 = self.saved@;
        let mut kept: HashMap<u64, Vec<(u64, u64)>> = HashMap::new();
        let mut i: usize = 0;
        while i < present.len()
            invariant
                i <= present@.len(),
                forall|k: u64| #[trigger] self.saved@.contains_key(k) <==> s0.contains_key(k) && !present@.take(i as int).contains(k),
                forall|k: u64| self.saved@.contains_key(k) ==> #[trigger] self.saved@[k] == s0[k],
                forall|k: u64| #[trigger] kept@.contains_key(k) <==> s0.contains_key(k) && present@.take(i as int).contains(k),
                forall|k: u64| kept@.contains_key(k) ==> #[trigger] kept@[k] == s0[k],
            decreases present@.len() - i,
        {
            let rid = present[i];
            proof {
                assert forall|k: u64| present@.take(i + 1).contains(k) <==> present@.take(i as int).contains(k) || k == rid by {
                    if present@.take(i + 1).contains(k) {
                        let j = choose|j: int| 0 <= j < i + 1 && #[trigger] present@.take(i + 1)[j] == k;
                        if j < i {
                            assert(present@.take(i as int)[j] == k);
                        }
                    }
                    if present@.take(i as int).contains(k) {
                        let j = choose|j: int| 0 <= j < i && #[trigger] present@.take(i as int)[j] == k;
                        assert(present@.take(i + 1)[j] == k);
                    }
                    if k == rid {
                        assert(present@.take(i + 1)[i as int] == k);
                    }
                }
            }
            match self.saved.remove(&rid) {
                Some(v) => {
                    kept.insert(rid, v);
                },
                None => {},
            }
            i = i + 1;
        }
        assert(present@.take(present@.len() as int) =~= present@);
        proof {
            assert forall|k: u64| present@.contains(k) <==> present@.to_set().contains(k) by {}
        }
        self.saved = kept;
        assert(saved_view(self.saved@) =~= saved_view(s0).restrict(present@.to_set()));
    }
}

impl VoiceKeyMapper {
    /// Settles one restore once the saved originals have been written back.
    /// `outcomes` lists the remote's present services, each as (registry id,
    /// whether its saved original was written back). Written-back originals
    /// are forgotten, so are those of services no longer present, and failed
    /// ones stay for the next try. Returns how many were restored.
    pub fn settle_restore(&mut self, outcomes: &[(u64, bool)]) -> (r: usize)
        ensures
            final(self)@ == restore_spec(old(self)@, outcomes@).0,
            r as nat == restore_spec(old(self)@, outcomes@).1,
    {
        broadcast use vstd::std_specs::hash::group_hash_axioms;

        let ghost s0 = self@;
        let mut n: usize = 0;
        let mut present: Vec<u64> = Vec::new();
        let mut i: usize = 0;
        while i < outcomes.len()
            invariant
                i <= outcomes@.len(),
                self@ == restore_writes(s0, outcomes@.take(i as int)).0,
                n as nat == restore_writes(s0, outcomes@.take(i as int)).1,
                n <= i,
                present@ == outcomes@.take(i as int).map_values(|p: (u64, bool)| p.0),
            decreases outcomes@.len() - i,
        {
            let (rid, ok) = outcomes[i];
            proof {
                assert(outcomes@.take(i + 1).drop_last() =~= outcomes@.take(i as int));
                assert(outcomes@.take(i + 1).last() == (rid, ok));
                assert(self@.dom() =~= self.saved@.dom());
            }
            if ok && self.saved.contains_key(&rid) {
                self.restored(rid);
                n = n + 1;
            }
            present.push(rid);
            proof {
                assert(present@ =~= outcomes@.take(i + 1).map_values(|p: (u64, bool)| p.0));
            }
            i = i + 1;
        }
        assert(outcomes@.take(outcomes@.len() as int) =~= outcomes@);
        self.forget_absent(present.as_slice());
        n
    }
}

impl Default for VoiceKeyMapper {
    fn default() -> (r: Self)
        ensures
            r@ == Map::<u64, Seq<(u64, u64)>>::empty(),
    {
        Self::new()
    }
}

/// The table written by an apply always ends with our F5 -> Fn pair, and it
/// holds no other F5 entry.
pub proof fn law_desired_has_single_f5(current: Seq<(u64, u64)>)
    ensures
        desired_spec(current).last() == (SRC_F5, DST_FN_GLOBE),
        forall|i: int|
            0 <= i < desired_spec(current).len() - 1 ==> (#[trigger] desired_spec(current)[i]).0
                != SRC_F5,
{
    let f = |m: (u64, u64)| not_f5(m);
    let kept = current.filter(f);
    assert forall|i: int| 0 <= i < desired_spec(current).len() - 1 implies (#[trigger] desired_spec(
        current,
    )[i]).0 != SRC_F5 by {
        assert(desired_spec(current)[i] == kept[i]);
        current.lemma_filter_pred(f, i);
    }
}

/// The original saved for a service is what it had before the first apply,
/// minus our own F5 -> Fn pair; later applies never overwrite it, so a
/// restore writes back exactly that table.
pub proof fn law_first_apply_original_is_kept(
    s: Map<u64, Seq<(u64, u64)>>,
    rid: u64,
    first: Seq<(u64, u64)>,
    later: Seq<(u64, u64)>,
)
    requires
        !s.contains_key(rid),
    ensures
        ({
            let s1 = s.insert(rid, original_spec(first));
            let s2 = if s1.contains_key(rid) {
                s1
            } else {
                s1.insert(rid, original_spec(later))
            };
            s2.contains_key(rid) && s2[rid] == original_spec(first)
        }),
{
}

/// The writing pass of one restore over the remote's present services
/// `(registry id, whether writing the original back succeeded)`, in order:
/// a service whose original is saved and written back is forgotten. Returns
/// the saved originals afterwards and how many were restored.
pub open spec fn restore_writes(s: Map<u64, Seq<(u64, u64)>>, services: Seq<(u64, bool)>) -> (
    Map<u64, Seq<(u64, u64)>>,
    nat,
)
    decreases services.len(),
{
    if services.len() == 0 {
        (s, 0)
    } else {
        let (t, n) = restore_writes(s, services.drop_last());
        let (rid, ok) = services.last();
        if t.contains_key(rid) && ok {
            (t.remove(rid), n + 1)
        } else {
            (t, n)
        }
    }
}

/// One whole restore: the writing pass, then the originals of services no
/// longer present are dropped.
pub open spec fn restore_spec(s: Map<u64, Seq<(u64, u64)>>, services: Seq<(u64, bool)>) -> (
    Map<u64, Seq<(u64, u64)>>,
    nat,
) {
    let (t, n) = restore_writes(s, services);
    (t.restrict(services.map_values(|p: (u64, bool)| p.0).to_set()), n)
}

proof fn lemma_restore_writes(s: Map<u64, Seq<(u64, u64)>>, services: Seq<(u64, bool)>, r: u64)
    requires
        forall|i: int, j: int|
            0 <= i < j < services.len() ==> (#[trigger] services[i]).0 != (#[trigger] services[j]).0,
    ensures
        restore_writes(s, services).0.contains_key(r) == (s.contains_key(r) && !exists|i: int|
            0 <= i < services.len() && (#[trigger] services[i]).0 == r && services[i].1),
        restore_writes(s, services).0.contains_key(r) ==> restore_writes(s, services).0[r] == s[r],
    decreases services.len(),
{
    if services.len() > 0 {
        let u = services.drop_last();
        assert forall|i: int, j: int| 0 <= i < j < u.len() implies (#[trigger] u[i]).0 != (#[trigger] u[j]).0 by {
            assert(u[i] == services[i] && u[j] == services[j]);
        }
        lemma_restore_writes(s, u, r);
        let k = services.len() - 1;
        if exists|i: int| 0 <= i < services.len() && (#[trigger] services[i]).0 == r && services[i].1 {
            let i = choose|i: int| 0 <= i < services.len() && (#[trigger] services[i]).0 == r && services[i].1;
            if i < k {
                assert(u[i] == services[i]);
            }
        } else {
            assert forall|i: int| 0 <= i < u.len() implies !((#[trigger] u[i]).0 == r && u[i].1) by {
                assert(u[i] == services[i]);
            }
        }
    }
}

/// What one restore leaves saved: with the remote's present services given
/// (each registry id once) together with whether writing the saved original
/// back succeeded, an original stays saved, unchanged, exactly for a present
/// service whose write failed (to be retried); written-back ones and those of
/// services that disappeared are forgotten.
pub proof fn law_restore_keeps_only_failed_writes(
    s: Map<u64, Seq<(u64, u64)>>,
    services: Seq<(u64, bool)>,
    r: u64,
)
    requires
        forall|i: int, j: int|
            0 <= i < j < services.len() ==> (#[trigger] services[i]).0 != (#[trigger] services[j]).0,
    ensures
        restore_spec(s, services).0.contains_key(r) == (s.contains_key(r) && exists|i: int|
            0 <= i < services.len() && (#[trigger] services[i]).0 == r && !services[i].1),
        restore_spec(s, services).0.contains_key(r) ==> restore_spec(s, services).0[r] == s[r],
{
    let present = services.map_values(|p: (u64, bool)| p.0);
    lemma_restore_writes(s, services, r);
    if present.to_set().contains(r) {
        assert(present.contains(r));
        let i = choose|i: int| 0 <= i < present.len() && present[i] == r;
        assert(services[i].0 == r);
        assert forall|j: int| 0 <= j < services.len() && j != i implies (#[trigger] services[j]).0 != r by {
            if j < i {
                assert(services[j].0 != services[i].0);
            } else {
                assert(services[i].0 != services[j].0);
            }
        }
        if services[i].1 {
            assert(!exists|j: int| 0 <= j < services.len() && (#[trigger] services[j]).0 == r && !services[j].1);
        } else {
            assert(!exists|j: int| 0 <= j < services.len() && (#[trigger] services[j]).0 == r && services[j].1);
        }
    } else {
        assert forall|j: int| 0 <= j < services.len() implies (#[trigger] services[j]).0 != r by {
            assert(present[j] == services[j].0);
            assert(present.contains(present[j]));
        }
    }
}

pub open spec fn restored_here(s: Map<u64, Seq<(u64, u64)>>) -> spec_fn((u64, bool)) -> bool {
    |p: (u64, bool)| p.1 && s.contains_key(p.0)
}

/// How many one restore reports: with each present service listed once, the
/// count is the number of services whose original was saved and written back.
pub proof fn law_restore_count(s: Map<u64, Seq<(u64, u64)>>, services: Seq<(u64, bool)>)
    requires
        forall|i: int, j: int|
            0 <= i < j < services.len() ==> (#[trigger] services[i]).0 != (#[trigger] services[j]).0,
    ensures
        restore_spec(s, services).1 == services.filter(restored_here(s)).len(),
    decreases services.len(),
{
    reveal(Seq::filter);
    if services.len() > 0 {
        let u = services.drop_last();
        assert forall|i: int, j: int| 0 <= i < j < u.len() implies (#[trigger] u[i]).0 != (#[trigger] u[j]).0 by {
            assert(u[i] == services[i] && u[j] == services[j]);
        }
        law_restore_count(s, u);
        let (rid, ok) = services.last();
        lemma_restore_writes(s, u, rid);
        assert forall|i: int| 0 <= i < u.len() implies (#[trigger] u[i]).0 != rid by {
            assert(u[i] == services[i]);
            assert(services[i].0 != services[services.len() - 1].0);
        }
    }
}

} // verus!
