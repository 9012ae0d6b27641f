//! Building the key mappings from the persisted configuration.
//!
//! The configuration stores, for the global mapping and for each application
//! layer, only the bindings that were changed, as `(button id, action id)`
//! pairs; unknown ids are ignored. The global mapping starts from the factory
//! defaults. The editing operations keep one stored pair per button, as a map
//! keyed by button id does.

use vstd::prelude::*;
use crate::keymap::{
    action_id, button_id, button_index, default_actions, find_profile, first_match,
    law_action_ids_distinct, law_button_ids_distinct, lemma_first_match_unique, lemma_no_match,
    no_overrides, resolve_spec, Action, AppKeyMaps, AppKeyMapsView, AppProfileView,
    KeyMap, RemoteButton,
};
use crate::text::str_equal;

verus! {

/// The bound remote. `id` is the matching key, `name` is for display.
#[derive(Debug, Clone)]
pub struct BoundDevice {
    pub id: String,
    pub name: String,
}

impl Default for BoundDevice {
    fn default() -> (r: Self)
        ensures
            r.id@ == Seq::<char>::empty(),
            r.name@ == Seq::<char>::empty(),
    {
        BoundDevice { id: String::new(), name: String::new() }
    }
}

/// One application's persisted layer: only the keys that differ from the
/// global mapping.
#[derive(Debug, Clone)]
pub struct AppProfile {
    pub bundle_id: String,
    /// The display name recorded when the layer was added.
    pub name: String,
    pub enabled: bool,
    /// `(button id, action id)` pairs.
    pub bindings: Vec<(String, String)>,
}

impl Default for AppProfile {
    fn default() -> (r: Self)
        ensures
            r.bundle_id@ == Seq::<char>::empty(),
            r.name@ == Seq::<char>::empty(),
            r.enabled,
            r.bindings@.len() == 0,
    {
        AppProfile {
            bundle_id: String::new(),
            name: String::new(),
            enabled: true,
            bindings: Vec::new(),
        }
    }
}

pub open spec fn bindings_view(b: Seq<(String, String)>) -> Seq<(Seq<char>, Seq<char>)> {
    b.map_values(|p: (String, String)| (p.0@, p.1@))
}

/// The button with id `s`, if any.
pub open spec fn button_by_id(s: Seq<char>) -> Option<RemoteButton> {
    if exists|b: RemoteButton| button_id(b) == s {
        Some(choose|b: RemoteButton| button_id(b) == s)
    } else {
        None
    }
}

/// The action with id `s`, if any.
pub open spec fn action_by_id(s: Seq<char>) -> Option<Action> {
    if exists|a: Action| action_id(a) == s {
        Some(choose|a: Action| action_id(a) == s)
    } else {
        None
    }
}

/// A mapping with `bs` applied in order; pairs with an unknown id are skipped.
pub open spec fn apply_bindings(m: Seq<Action>, bs: Seq<(Seq<char>, Seq<char>)>) -> Seq<Action>
    decreases bs.len(),
{
    if bs.len() == 0 {
        m
    } else {
        let m1 = apply_bindings(m, bs.drop_last());
        match (button_by_id(bs.last().0), action_by_id(bs.last().1)) {
            (Some(b), Some(a)) => m1.update(button_index(b), a),
            _ => m1,
        }
    }
}

/// Layer overrides with `bs` applied in order; pairs with an unknown id are skipped.
pub open spec fn apply_overrides(ov: Seq<Option<Action>>, bs: Seq<(Seq<char>, Seq<char>)>) -> Seq<
    Option<Action>,
>
    decreases bs.len(),
{
    if bs.len() == 0 {
        ov
    } else {
        let o1 = apply_overrides(ov, bs.drop_last());
        match (button_by_id(bs.last().0), action_by_id(bs.last().1)) {
            (Some(b), Some(a)) => o1.update(button_index(b), Some(a)),
            _ => o1,
        }
    }
}

/// Looks up a binding's button and action by id.
fn lookup(pair: &(String, String)) -> (r: Option<(RemoteButton, Action)>)
    ensures
        match (button_by_id(pair.0@), action_by_id(pair.1@)) {
            (Some(b), Some(a)) => r == Some((b, a)),
            _ => r is None,
        },
{
    let b = RemoteButton::from_id(pair.0.as_str());
    let a = Action::from_id(pair.1.as_str());
    proof {
        if let Some(b) = b {
            let c = choose|c: RemoteButton| button_id(c) == pair.0@;
            law_button_ids_distinct(b, c);
        }
        if let Some(a) = a {
            let c = choose|c: Action| action_id(c) == pair.1@;
            law_action_ids_distinct(a, c);
        }
    }
    match (b, a) {
        (Some(b), Some(a)) => Some((b, a)),
        _ => None,
    }
}

/// The global mapping: the factory defaults with the stored bindings applied.
pub fn key_map(bindings: &[(String, String)]) -> (r: KeyMap)
    ensures
        r@ == apply_bindings(default_actions(), bindings_view(bindings@)),
{
    let mut map = KeyMap::with_defaults();
    let ghost bs = bindings_view(bindings@);
    let mut i: usize = 0;
    while i < bindings.len()
        invariant
            bs == bindings_view(bindings@),
            i <= bindings@.len(),
            map@ == apply_bindings(default_actions(), bs.take(i as int)),
        decreases bindings@.len() - i,
    {
        assert(bs.take(i + 1).drop_last() =~= bs.take(i as int));
        assert(bs.take(i + 1).last() == (bindings@[i as int].0@, bindings@[i as int].1@));
        match lookup(&bindings[i]) {
            Some((b, a)) => map.set(b, a),
            None => {},
        }
        i = i + 1;
    }
    assert(bs.take(bindings@.len() as int) =~= bs);
    map
}

pub struct ProfileEntryView {
    pub bundle_id: Seq<char>,
    pub name: Seq<char>,
    pub enabled: bool,
    pub bindings: Seq<(Seq<char>, Seq<char>)>,
}

impl View for AppProfile {
    type V = ProfileEntryView;

    open spec fn view(&self) -> ProfileEntryView {
        ProfileEntryView {
            bundle_id: self.bundle_id@,
            name: self.name@,
            enabled: self.enabled,
            bindings: bindings_view(self.bindings@),
        }
    }
}

/// Adds one persisted layer to the mappings: the existing layer for its
/// bundle id (or a new one under its name) takes its enabled flag and its
/// bindings.
pub open spec fn add_layer(m: AppKeyMapsView, p: ProfileEntryView) -> AppKeyMapsView {
    match find_profile(m.profiles, p.bundle_id) {
        Some(i) => AppKeyMapsView {
            profiles: m.profiles.update(
                i,
                AppProfileView {
                    enabled: p.enabled,
                    overrides: apply_overrides(m.profiles[i].overrides, p.bindings),
                    ..m.profiles[i]
                },
            ),
            ..m
        },
        None => AppKeyMapsView {
            profiles: m.profiles.push(
                AppProfileView {
                    bundle_id: p.bundle_id,
                    name: p.name,
                    enabled: p.enabled,
                    overrides: apply_overrides(no_overrides(), p.bindings),
                },
            ),
            ..m
        },
    }
}

pub open spec fn add_layers(m: AppKeyMapsView, ps: Seq<ProfileEntryView>) -> AppKeyMapsView
    decreases ps.len(),
{
    if ps.len() == 0 {
        m
    } else {
        add_layer(add_layers(m, ps.drop_last()), ps.last())
    }
}

pub open spec fn entries_view(ps: Seq<AppProfile>) -> Seq<ProfileEntryView> {
    ps.map_values(|p: AppProfile| p@)
}

/// Applies a layer's stored bindings to its overrides.
fn apply_layer_bindings(profile: &mut crate::keymap::AppProfile, stored: &AppProfile)
    ensures
        final(profile)@ == (AppProfileView {
            enabled: stored.enabled,
            overrides: apply_overrides(old(profile)@.overrides, stored@.bindings),
            ..old(profile)@
        }),
{
    profile.set_enabled(stored.enabled);
    let ghost bs = stored@.bindings;
    let ghost p0 = old(profile)@;
    let mut i: usize = 0;
    while i < stored.bindings.len()
        invariant
            bs == stored@.bindings,
            i <= stored.bindings@.len(),
            profile@ == (AppProfileView {
                enabled: stored.enabled,
                overrides: apply_overrides(p0.overrides, bs.take(i as int)),
                ..p0
            }),
        decreases stored.bindings@.len() - i,
    {
        assert(bs.take(i + 1).drop_last() =~= bs.take(i as int));
        assert(bs.take(i + 1).last() == (
            stored.bindings@[i as int].0@,
            stored.bindings@[i as int].1@,
        ));
        match lookup(&stored.bindings[i]) {
            Some((b, a)) => profile.set(b, a),
            None => {},
        }
        i = i + 1;
    }
    assert(bs.take(stored.bindings@.len() as int) =~= bs);
}

/// The global mapping plus every stored application layer, in stored order.
pub fn app_key_maps(bindings: &[(String, String)], profiles: &[AppProfile]) -> (r: AppKeyMaps)
    ensures
        r@ == add_layers(
            AppKeyMapsView {
                base: apply_bindings(default_actions(), bindings_view(bindings@)),
                profiles: Seq::empty(),
            },
            entries_view(profiles@),
        ),
{
    let mut maps = AppKeyMaps::new(key_map(bindings));
    let ghost m0 = maps@;
    let ghost ps = entries_view(profiles@);
    let mut i: usize = 0;
    while i < profiles.len()
        invariant
            ps == entries_view(profiles@),
            i <= profiles@.len(),
            maps@ == add_layers(m0, ps.take(i as int)),
        decreases profiles@.len() - i,
    {
        assert(ps.take(i + 1).drop_last() =~= ps.take(i as int));
        assert(ps.take(i + 1).last() == profiles@[i as int]@);
        let stored = &profiles[i];
        let profile = maps.profile_mut(stored.bundle_id.as_str(), stored.name.as_str());
        apply_layer_bindings(profile, stored);
        i = i + 1;
    }
    assert(ps.take(profiles@.len() as int) =~= ps);
    maps
}

/// The stored layer for `bundle_id`, created (enabled, empty, named `name`)
/// if there is none yet.
pub fn app_profile_mut<'a>(profiles: &'a mut Vec<AppProfile>, bundle_id: &str, name: &str) -> (r:
    &'a mut AppProfile)
    ensures
        (exists|i: int|
            0 <= i < old(profiles)@.len() && old(profiles)@[i].bundle_id@ == bundle_id@) ==> (
        exists|i: int|
            0 <= i < old(profiles)@.len() && old(profiles)@[i].bundle_id@ == bundle_id@ && (forall|
                j: int,
            | 0 <= j < i ==> (#[trigger] old(profiles)@[j]).bundle_id@ != bundle_id@) && *r == old(
                profiles,
            )@[i] && final(profiles)@ == old(profiles)@.update(i, *final(r))),
        !(exists|i: int|
            0 <= i < old(profiles)@.len() && old(profiles)@[i].bundle_id@ == bundle_id@) ==> (
        r.bundle_id@ == bundle_id@ && r.name@ == name@ && r.enabled && r.bindings@.len() == 0
            && final(profiles)@ == old(profiles)@.push(*final(r))),
{
    let mut i: usize = 0;
    while i < profiles.len()
        invariant
            i <= profiles@.len(),
            profiles@ == old(profiles)@,
            forall|j: int| 0 <= j < i ==> (#[trigger] profiles@[j]).bundle_id@ != bundle_id@,
        decreases profiles@.len() - i,
    {
        if str_equal(profiles[i].bundle_id.as_str(), bundle_id) {
            return &mut profiles[i];
        }
        i = i + 1;
    }
    profiles.push(
        AppProfile {
            bundle_id: bundle_id.to_string(),
            name: name.to_string(),
            enabled: true,
            bindings: Vec::new(),
        },
    );
    let n = profiles.len();
    &mut profiles[n - 1]
}

pub open spec fn other_entry(id: Seq<char>) -> spec_fn(AppProfile) -> bool {
    |p: AppProfile| p.bundle_id@ != id
}

/// Drops every stored layer for `bundle_id`.
pub fn remove_app_profile(profiles: &mut Vec<AppProfile>, bundle_id: &str)
    ensures
        final(profiles)@ == old(profiles)@.filter(other_entry(bundle_id@)),
{
    let ghost ps = profiles@;
    let mut rest: Vec<AppProfile> = Vec::new();
    std::mem::swap(&mut rest, profiles);
    let mut kept: Vec<AppProfile> = Vec::new();
    let n = rest.len();
    let mut i: usize = 0;
    while i < n
        invariant
            n == ps.len(),
            i <= n,
            rest@ == ps.skip(i as int),
            kept@ == ps.take(i as int).filter(other_entry(bundle_id@)),
        decreases n - i,
    {
        let ghost r0 = rest@;
        let p = rest.remove(0);
        proof {
            reveal(Seq::filter);
            assert(ps.take(i + 1).drop_last() =~= ps.take(i as int));
            assert(ps.skip(i as int)[0] == ps[i as int]);
            assert(rest@ =~= ps.skip(i + 1));
        }
        if !str_equal(p.bundle_id.as_str(), bundle_id) {
            kept.push(p);
        }
        i = i + 1;
    }
    assert(ps.take(n as int) =~= ps);
    *profiles = kept;
}


pub open spec fn other_button(id: Seq<char>) -> spec_fn((Seq<char>, Seq<char>)) -> bool {
    |p: (Seq<char>, Seq<char>)| p.0 != id
}

/// Stored bindings after setting (`Some`) or clearing (`None`) the binding
/// of `button`: every pair for its id goes, and a set binding is appended.
pub open spec fn rebind(bs: Seq<(Seq<char>, Seq<char>)>, button: RemoteButton, action: Option<Action>) -> Seq<
    (Seq<char>, Seq<char>),
> {
    let kept = bs.filter(other_button(button_id(button)));
    match action {
        Some(a) => kept.push((button_id(button), action_id(a))),
        None => kept,
    }
}

/// Sets (`Some`) or clears (`None`) the stored binding of one button, the
/// way a map keyed by button id is updated.
pub fn rebind_button(bindings: &mut Vec<(String, String)>, button: RemoteButton, action: Option<Action>)
    ensures
        bindings_view(final(bindings)@) == rebind(bindings_view(old(bindings)@), button, action),
{
    let id = button.id();
    let ghost ps = bindings@;
    let ghost vs = bindings_view(ps);
    let mut rest: Vec<(String, String)> = Vec::new();
    std::mem::swap(&mut rest, bindings);
    let mut kept: Vec<(String, String)> = Vec::new();
    let n = rest.len();
    let mut i: usize = 0;
    while i < n
        invariant
            n == ps.len(),
            vs == bindings_view(ps),
            id@ == button_id(button),
            i <= n,
            rest@ == ps.skip(i as int),
            bindings_view(kept@) == vs.take(i as int).filter(other_button(id@)),
        decreases n - i,
    {
        assert(rest@.len() > 0);
        let pair = rest.remove(0);
        proof {
            reveal(Seq::filter);
            assert(ps.skip(i as int)[0] == ps[i as int]);
            assert(rest@ =~= ps.skip(i + 1));
            assert(vs.take(i + 1).drop_last() =~= vs.take(i as int));
            assert(vs.take(i + 1).last() == (pair.0@, pair.1@));
        }
        if !str_equal(pair.0.as_str(), id) {
            let ghost k0 = kept@;
            kept.push(pair);
            assert(bindings_view(kept@) =~= bindings_view(k0).push((pair.0@, pair.1@)));
        }
        i = i + 1;
    }
    assert(vs.take(n as int) =~= vs);
    match action {
        Some(a) => {
            let ghost k0 = kept@;
            kept.push((id.to_string(), a.id().to_string()));
            assert(bindings_view(kept@) =~= bindings_view(k0).push((button_id(button), action_id(a))));
        },
        None => {},
    }
    *bindings = kept;
}

/// `i` is the first stored layer for `id`.
pub open spec fn entry_match(ps: Seq<AppProfile>, id: Seq<char>, i: int) -> bool {
    &&& 0 <= i < ps.len()
    &&& ps[i].bundle_id@ == id
    &&& forall|j: int| 0 <= j < i ==> (#[trigger] ps[j]).bundle_id@ != id
}

/// Position of the first stored layer for `bundle_id`, if any.
fn position(profiles: &Vec<AppProfile>, bundle_id: &str) -> (r: Option<usize>)
    ensures
        match r {
            Some(i) => entry_match(profiles@, bundle_id@, i as int),
            None => forall|j: int| 0 <= j < profiles@.len() ==> (#[trigger] profiles@[j]).bundle_id@ != bundle_id@,
        },
{
    let mut i: usize = 0;
    while i < profiles.len()
        invariant
            i <= profiles@.len(),
            forall|j: int| 0 <= j < i ==> (#[trigger] profiles@[j]).bundle_id@ != bundle_id@,
        decreases profiles@.len() - i,
    {
        if str_equal(profiles[i].bundle_id.as_str(), bundle_id) {
            return Some(i);
        }
        i = i + 1;
    }
    None
}

/// Switches the first stored layer for `bundle_id` on or off; nothing
/// happens when there is none.
pub fn set_app_profile_enabled(profiles: &mut Vec<AppProfile>, bundle_id: &str, enabled: bool)
    ensures
        forall|i: int| entry_match(old(profiles)@, bundle_id@, i) ==> final(profiles)@ == old(profiles)@.update(
            i,
            AppProfile { enabled, ..old(profiles)@[i] },
        ),
        (forall|j: int| 0 <= j < old(profiles)@.len() ==> (#[trigger] old(profiles)@[j]).bundle_id@ != bundle_id@)
            ==> final(profiles)@ == old(profiles)@,
{
    match position(profiles, bundle_id) {
        Some(i) => {
            let p = &mut profiles[i];
            p.enabled = enabled;
            proof {
                assert forall|k: int| entry_match(old(profiles)@, bundle_id@, k) implies k == i by {
                    if k < i {
                        assert(old(profiles)@[k].bundle_id@ != bundle_id@);
                    } else if k > i {
                        assert(old(profiles)@[i as int].bundle_id@ != bundle_id@);
                    }
                }
            }
        },
        None => {},
    }
}

/// Drops every binding of the first stored layer for `bundle_id`, keeping
/// the (now empty) layer; nothing happens when there is none.
pub fn clear_app_bindings(profiles: &mut Vec<AppProfile>, bundle_id: &str)
    ensures
        final(profiles)@.len() == old(profiles)@.len(),
        forall|i: int| entry_match(old(profiles)@, bundle_id@, i) ==> {
            &&& final(profiles)@[i].bundle_id == old(profiles)@[i].bundle_id
            &&& final(profiles)@[i].name == old(profiles)@[i].name
            &&& final(profiles)@[i].enabled == old(profiles)@[i].enabled
            &&& final(profiles)@[i].bindings@.len() == 0
            &&& forall|j: int| 0 <= j < old(profiles)@.len() && j != i ==> final(profiles)@[j] == old(profiles)@[j]
        },
        (forall|j: int| 0 <= j < old(profiles)@.len() ==> (#[trigger] old(profiles)@[j]).bundle_id@ != bundle_id@)
            ==> final(profiles)@ == old(profiles)@,
{
    match position(profiles, bundle_id) {
        Some(i) => {
            let p = &mut profiles[i];
            p.bindings = Vec::new();
            proof {
                assert forall|k: int| entry_match(old(profiles)@, bundle_id@, k) implies k == i by {
                    if k < i {
                        assert(old(profiles)@[k].bundle_id@ != bundle_id@);
                    } else if k > i {
                        assert(old(profiles)@[i as int].bundle_id@ != bundle_id@);
                    }
                }
            }
        },
        None => {},
    }
}

/// The override a layer stores for a requested action: choosing the same
/// action as the global mapping stores no override at all, since it would
/// change nothing and only show up as a difference that is none.
pub open spec fn wanted_override(base: Action, action: Option<Action>) -> Option<Action> {
    match action {
        Some(a) if a != base => Some(a),
        _ => None,
    }
}

/// Sets (`Some`) or clears (`None`) what `button` does in the layer for
/// `bundle_id`, creating the layer (under `name`, or the bundle id when no
/// name is given) when there is none. `bindings` are the stored global
/// bindings; an action equal to the global one clears the override.
pub fn set_app_binding(
    profiles: &mut Vec<AppProfile>,
    bindings: &[(String, String)],
    bundle_id: &str,
    name: Option<&str>,
    button: RemoteButton,
    action: Option<Action>,
)
    ensures
        ({
            let base = apply_bindings(default_actions(), bindings_view(bindings@))[button_index(button)];
            let wanted = wanted_override(base, action);
            &&& forall|i: int| entry_match(old(profiles)@, bundle_id@, i) ==> {
                &&& final(profiles)@.len() == old(profiles)@.len()
                &&& forall|j: int| 0 <= j < old(profiles)@.len() && j != i ==> final(profiles)@[j] == old(profiles)@[j]
                &&& final(profiles)@[i].bundle_id == old(profiles)@[i].bundle_id
                &&& final(profiles)@[i].name == old(profiles)@[i].name
                &&& final(profiles)@[i].enabled == old(profiles)@[i].enabled
                &&& bindings_view(final(profiles)@[i].bindings@) == rebind(bindings_view(old(profiles)@[i].bindings@), button, wanted)
            }
            &&& (forall|j: int| 0 <= j < old(profiles)@.len() ==> (#[trigger] old(profiles)@[j]).bundle_id@ != bundle_id@) ==> {
                let k = old(profiles)@.len() as int;
                &&& final(profiles)@.len() == k + 1
                &&& forall|j: int| 0 <= j < k ==> final(profiles)@[j] == old(profiles)@[j]
                &&& final(profiles)@[k].bundle_id@ == bundle_id@
                &&& final(profiles)@[k].name@ == match name { Some(n) => n@, None => bundle_id@ }
                &&& final(profiles)@[k].enabled
                &&& bindings_view(final(profiles)@[k].bindings@) == rebind(Seq::empty(), button, wanted)
            }
        }),
{
    let base = key_map(bindings).action(button);
    let wanted = match action {
        Some(a) => if a != base { Some(a) } else { None },
        None => None,
    };
    let display = match name {
        Some(n) => n,
        None => bundle_id,
    };
    let ghost old_ps = profiles@;
    let profile = app_profile_mut(profiles, bundle_id, display);
    rebind_button(&mut profile.bindings, button, wanted);
    proof {
        assert forall|i: int| entry_match(old_ps, bundle_id@, i) implies (forall|k: int|
            #![trigger old_ps[k]]
            0 <= k < old_ps.len() && old_ps[k].bundle_id@ == bundle_id@ && (forall|j: int|
                0 <= j < k ==> (#[trigger] old_ps[j]).bundle_id@ != bundle_id@) ==> k == i) by {
            assert forall|k: int|
                #![trigger old_ps[k]]
                0 <= k < old_ps.len() && old_ps[k].bundle_id@ == bundle_id@ && (forall|j: int|
                    0 <= j < k ==> (#[trigger] old_ps[j]).bundle_id@ != bundle_id@) implies k == i by {
                if k < i {
                    assert(old_ps[k].bundle_id@ != bundle_id@);
                } else if k > i {
                    assert(old_ps[i].bundle_id@ != bundle_id@);
                }
            }
        }
        assert(bindings_view(Seq::<(String, String)>::empty()) =~= Seq::empty());
    }
}


proof fn lemma_button_by_id_of(b: RemoteButton)
    ensures
        button_by_id(button_id(b)) == Some(b),
{
    let c = choose|c: RemoteButton| button_id(c) == button_id(b);
    law_button_ids_distinct(b, c);
}

proof fn lemma_action_by_id_of(a: Action)
    ensures
        action_by_id(action_id(a)) == Some(a),
{
    let c = choose|c: Action| action_id(c) == action_id(a);
    law_action_ids_distinct(a, c);
}

proof fn lemma_index_range(b: RemoteButton)
    ensures
        0 <= button_index(b) < 12,
{
}

proof fn lemma_apply_len(m: Seq<Action>, bs: Seq<(Seq<char>, Seq<char>)>)
    requires
        m.len() == 12,
    ensures
        apply_bindings(m, bs).len() == 12,
    decreases bs.len(),
{
    if bs.len() > 0 {
        lemma_apply_len(m, bs.drop_last());
        if let Some(c) = button_by_id(bs.last().0) {
            lemma_index_range(c);
        }
    }
}

/// Dropping the stored pairs of one button changes no other button.
proof fn lemma_filter_keeps_others(m: Seq<Action>, bs: Seq<(Seq<char>, Seq<char>)>, b: RemoteButton, j: int)
    requires
        m.len() == 12,
        0 <= j < 12,
        j != button_index(b),
    ensures
        apply_bindings(m, bs.filter(other_button(button_id(b))))[j] == apply_bindings(m, bs)[j],
    decreases bs.len(),
{
    reveal(Seq::filter);
    if bs.len() > 0 {
        let f = other_button(button_id(b));
        let t = bs.drop_last();
        lemma_filter_keeps_others(m, t, b, j);
        lemma_apply_len(m, t);
        lemma_apply_len(m, t.filter(f));
        if let Some(c) = button_by_id(bs.last().0) {
            lemma_index_range(c);
        }
        if f(bs.last()) {
            assert(bs.filter(f).drop_last() == t.filter(f));
            assert(bs.filter(f).last() == bs.last());
        } else {
            assert(bs.filter(f) == t.filter(f));
            lemma_button_by_id_of(b);
        }
    }
}

/// After dropping its stored pairs, a button keeps what it had before any
/// binding was applied.
proof fn lemma_filter_restores(m: Seq<Action>, bs: Seq<(Seq<char>, Seq<char>)>, b: RemoteButton)
    requires
        m.len() == 12,
    ensures
        apply_bindings(m, bs.filter(other_button(button_id(b))))[button_index(b)] == m[button_index(b)],
    decreases bs.len(),
{
    reveal(Seq::filter);
    lemma_index_range(b);
    if bs.len() > 0 {
        let f = other_button(button_id(b));
        let t = bs.drop_last();
        lemma_filter_restores(m, t, b);
        lemma_apply_len(m, t.filter(f));
        if f(bs.last()) {
            assert(bs.filter(f).drop_last() == t.filter(f));
            assert(bs.filter(f).last() == bs.last());
            let l = bs.last();
            if let Some(c) = button_by_id(l.0) {
                lemma_index_range(c);
                assert(button_id(c) == l.0);
                assert(c != b);
                law_button_ids_distinct(b, c);
                assert(button_index(c) != button_index(b));
            }
        } else {
            assert(bs.filter(f) == t.filter(f));
        }
    }
}

/// Binding a button in the global mapping makes it do that action and
/// leaves every other button as it was.
pub proof fn law_global_binding_reads_back(bs: Seq<(Seq<char>, Seq<char>)>, b: RemoteButton, a: Action)
    ensures
        apply_bindings(default_actions(), rebind(bs, b, Some(a)))[button_index(b)] == a,
        forall|j: int|
            0 <= j < 12 && j != button_index(b) ==> apply_bindings(default_actions(), rebind(bs, b, Some(a)))[j]
                == apply_bindings(default_actions(), bs)[j],
{
    let m = default_actions();
    let f = other_button(button_id(b));
    let r = rebind(bs, b, Some(a));
    assert(r.drop_last() == bs.filter(f));
    assert(r.last() == (button_id(b), action_id(a)));
    lemma_button_by_id_of(b);
    lemma_action_by_id_of(a);
    lemma_apply_len(m, bs.filter(f));
    assert forall|j: int| 0 <= j < 12 && j != button_index(b) implies apply_bindings(m, r)[j]
        == apply_bindings(m, bs)[j] by {
        lemma_filter_keeps_others(m, bs, b, j);
    }
}

/// Clearing a button's stored binding returns it to its factory action and
/// leaves every other button as it was.
pub proof fn law_global_binding_cleared(bs: Seq<(Seq<char>, Seq<char>)>, b: RemoteButton)
    ensures
        apply_bindings(default_actions(), rebind(bs, b, None))[button_index(b)] == default_actions()[button_index(b)],
        forall|j: int|
            0 <= j < 12 && j != button_index(b) ==> apply_bindings(default_actions(), rebind(bs, b, None))[j]
                == apply_bindings(default_actions(), bs)[j],
{
    let m = default_actions();
    lemma_filter_restores(m, bs, b);
    assert forall|j: int| 0 <= j < 12 && j != button_index(b) implies apply_bindings(m, rebind(bs, b, None))[j]
        == apply_bindings(m, bs)[j] by {
        lemma_filter_keeps_others(m, bs, b, j);
    }
}


proof fn lemma_overrides_len(ov: Seq<Option<Action>>, bs: Seq<(Seq<char>, Seq<char>)>)
    requires
        ov.len() == 12,
    ensures
        apply_overrides(ov, bs).len() == 12,
    decreases bs.len(),
{
    if bs.len() > 0 {
        lemma_overrides_len(ov, bs.drop_last());
        if let Some(c) = button_by_id(bs.last().0) {
            lemma_index_range(c);
        }
    }
}

/// What a layer whose stored bindings were rebound for `b` says about `b`.
proof fn lemma_rebind_override(ov: Seq<Option<Action>>, bs: Seq<(Seq<char>, Seq<char>)>, b: RemoteButton, want: Option<Action>)
    requires
        ov.len() == 12,
    ensures
        apply_overrides(ov, rebind(bs, b, want))[button_index(b)] == match want {
            Some(a) => Some(a),
            None => ov[button_index(b)],
        },
    decreases bs.len(),
{
    let f = other_button(button_id(b));
    lemma_index_range(b);
    match want {
        Some(a) => {
            let r = rebind(bs, b, Some(a));
            assert(r.drop_last() == bs.filter(f));
            assert(r.last() == (button_id(b), action_id(a)));
            lemma_button_by_id_of(b);
            lemma_action_by_id_of(a);
            lemma_overrides_len(ov, bs.filter(f));
        },
        None => {
            lemma_filter_keeps_override(ov, bs, b);
        },
    }
}

/// After dropping its stored pairs, a button's override is the one it
/// started from.
proof fn lemma_filter_keeps_override(ov: Seq<Option<Action>>, bs: Seq<(Seq<char>, Seq<char>)>, b: RemoteButton)
    requires
        ov.len() == 12,
    ensures
        apply_overrides(ov, bs.filter(other_button(button_id(b))))[button_index(b)] == ov[button_index(b)],
    decreases bs.len(),
{
    reveal(Seq::filter);
    lemma_index_range(b);
    if bs.len() > 0 {
        let f = other_button(button_id(b));
        let t = bs.drop_last();
        lemma_filter_keeps_override(ov, t, b);
        lemma_overrides_len(ov, t.filter(f));
        if f(bs.last()) {
            assert(bs.filter(f).drop_last() == t.filter(f));
            assert(bs.filter(f).last() == bs.last());
            if let Some(c) = button_by_id(bs.last().0) {
                lemma_index_range(c);
                law_button_ids_distinct(b, c);
            }
        } else {
            assert(bs.filter(f) == t.filter(f));
        }
    }
}

/// The layer for `x` is the first one, enabled, and says `o` for `b`.
pub open spec fn layer_says(m: AppKeyMapsView, x: Seq<char>, b: RemoteButton, o: Option<Action>) -> bool {
    exists|k: int|
        first_match(m.profiles, x, k) && m.profiles[k].enabled && m.profiles[k].overrides.len() == 12
            && #[trigger] m.profiles[k].overrides[button_index(b)] == o
}

/// Adding the stored layers one by one: before the layer for `x` no layer
/// for `x` exists; from it on, that layer says what its bindings say.
proof fn lemma_layers_for(
    m0: AppKeyMapsView,
    es: Seq<ProfileEntryView>,
    x: Seq<char>,
    i: int,
    b: RemoteButton,
    o: Option<Action>,
    n: int,
)
    requires
        m0.profiles.len() == 0,
        0 <= i < es.len(),
        0 <= n <= es.len(),
        es[i].bundle_id == x,
        es[i].enabled,
        forall|j: int| 0 <= j < es.len() && j != i ==> (#[trigger] es[j]).bundle_id != x,
        apply_overrides(no_overrides(), es[i].bindings)[button_index(b)] == o,
    ensures
        n <= i ==> forall|q: int|
            0 <= q < add_layers(m0, es.take(n)).profiles.len() ==> (#[trigger] add_layers(m0, es.take(n)).profiles[q]).bundle_id != x,
        n > i ==> layer_says(add_layers(m0, es.take(n)), x, b, o),
    decreases n,
{
    if n > 0 {
        lemma_layers_for(m0, es, x, i, b, o, n - 1);
        let m = add_layers(m0, es.take(n - 1));
        let p = es[n - 1];
        assert(es.take(n).drop_last() == es.take(n - 1));
        assert(es.take(n).last() == p);
        let m2 = add_layer(m, p);
        assert(add_layers(m0, es.take(n)) == m2);
        if n - 1 < i {
            assert(p.bundle_id != x);
            match find_profile(m.profiles, p.bundle_id) {
                Some(k) => {
                    assert forall|q: int| 0 <= q < m2.profiles.len() implies (#[trigger] m2.profiles[q]).bundle_id != x by {
                        if q != k {
                            assert(m2.profiles[q] == m.profiles[q]);
                        }
                    }
                },
                None => {
                    assert forall|q: int| 0 <= q < m2.profiles.len() implies (#[trigger] m2.profiles[q]).bundle_id != x by {
                        if q < m.profiles.len() {
                            assert(m2.profiles[q] == m.profiles[q]);
                        }
                    }
                },
            }
        } else if n - 1 == i {
            lemma_no_match(m.profiles, x);
            let k = m.profiles.len() as int;
            assert(m2.profiles[k].bundle_id == x);
            lemma_overrides_len(no_overrides(), p.bindings);
            assert forall|j: int| 0 <= j < k implies (#[trigger] m2.profiles[j]).bundle_id != x by {
                assert(m2.profiles[j] == m.profiles[j]);
            }
            assert(first_match(m2.profiles, x, k));
            assert(m2.profiles[k].overrides[button_index(b)] == o);
        } else {
            assert(p.bundle_id != x);
            let k = choose|k: int|
                first_match(m.profiles, x, k) && m.profiles[k].enabled && m.profiles[k].overrides.len() == 12
                    && #[trigger] m.profiles[k].overrides[button_index(b)] == o;
            match find_profile(m.profiles, p.bundle_id) {
                Some(k2) => {
                    assert(first_match(m.profiles, p.bundle_id, k2));
                    assert(k2 != k);
                    assert forall|j: int| 0 <= j < k implies (#[trigger] m2.profiles[j]).bundle_id != x by {
                        if j != k2 {
                            assert(m2.profiles[j] == m.profiles[j]);
                        }
                    }
                    assert(m2.profiles[k] == m.profiles[k]);
                    assert(first_match(m2.profiles, x, k));
                },
                None => {
                    assert forall|j: int| 0 <= j < k implies (#[trigger] m2.profiles[j]).bundle_id != x by {
                        assert(m2.profiles[j] == m.profiles[j]);
                    }
                    assert(m2.profiles[k] == m.profiles[k]);
                    assert(first_match(m2.profiles, x, k));
                },
            }
            assert(m2.profiles[k].overrides[button_index(b)] == o);
        }
    }
}

/// An application override, once stored (as `set_app_binding` stores a
/// choice that differs from the global mapping), is what that application's
/// resolved mapping does for the button, while its layer is on. `es` are the
/// stored layers, with the one for `x` at `i` and no other for `x`.
pub proof fn law_app_binding_reads_back(
    bindings: Seq<(Seq<char>, Seq<char>)>,
    es: Seq<ProfileEntryView>,
    x: Seq<char>,
    i: int,
    b: RemoteButton,
    a: Action,
    stored: Seq<(Seq<char>, Seq<char>)>,
)
    requires
        0 <= i < es.len(),
        es[i].bundle_id == x,
        es[i].enabled,
        forall|j: int| 0 <= j < es.len() && j != i ==> (#[trigger] es[j]).bundle_id != x,
        es[i].bindings == rebind(stored, b, Some(a)),
    ensures
        resolve_spec(
            add_layers(
                AppKeyMapsView { base: apply_bindings(default_actions(), bindings), profiles: Seq::empty() },
                es,
            ),
            Some(x),
        )[button_index(b)] == a,
{
    let m0 = AppKeyMapsView { base: apply_bindings(default_actions(), bindings), profiles: Seq::empty() };
    lemma_rebind_override(no_overrides(), stored, b, Some(a));
    lemma_layers_for(m0, es, x, i, b, Some(a), es.len() as int);
    assert(es.take(es.len() as int) == es);
    let m = add_layers(m0, es);
    let k = choose|k: int|
        first_match(m.profiles, x, k) && m.profiles[k].enabled && m.profiles[k].overrides.len() == 12
            && #[trigger] m.profiles[k].overrides[button_index(b)] == Some(a);
    lemma_first_match_unique(m.profiles, x, k);
    lemma_index_range(b);
}

proof fn lemma_layers_keep_base(m0: AppKeyMapsView, es: Seq<ProfileEntryView>)
    ensures
        add_layers(m0, es).base == m0.base,
    decreases es.len(),
{
    if es.len() > 0 {
        lemma_layers_keep_base(m0, es.drop_last());
    }
}

/// A cleared application override (as `set_app_binding` stores a choice equal
/// to the global mapping) leaves that application with the global action for
/// the button. `es` are the stored layers, with the one for `x` at `i` and no
/// other for `x`.
pub proof fn law_app_binding_cleared_falls_back(
    bindings: Seq<(Seq<char>, Seq<char>)>,
    es: Seq<ProfileEntryView>,
    x: Seq<char>,
    i: int,
    b: RemoteButton,
    stored: Seq<(Seq<char>, Seq<char>)>,
)
    requires
        0 <= i < es.len(),
        es[i].bundle_id == x,
        es[i].enabled,
        forall|j: int| 0 <= j < es.len() && j != i ==> (#[trigger] es[j]).bundle_id != x,
        es[i].bindings == rebind(stored, b, None),
    ensures
        resolve_spec(
            add_layers(
                AppKeyMapsView { base: apply_bindings(default_actions(), bindings), profiles: Seq::empty() },
                es,
            ),
            Some(x),
        )[button_index(b)] == apply_bindings(default_actions(), bindings)[button_index(b)],
{
    let m0 = AppKeyMapsView { base: apply_bindings(default_actions(), bindings), profiles: Seq::empty() };
    lemma_index_range(b);
    lemma_rebind_override(no_overrides(), stored, b, None);
    lemma_layers_for(m0, es, x, i, b, None, es.len() as int);
    lemma_layers_keep_base(m0, es);
    assert(es.take(es.len() as int) == es);
    let m = add_layers(m0, es);
    let k = choose|k: int|
        first_match(m.profiles, x, k) && m.profiles[k].enabled && m.profiles[k].overrides.len() == 12
            && #[trigger] m.profiles[k].overrides[button_index(b)] == None::<Action>;
    lemma_first_match_unique(m.profiles, x, k);
    lemma_index_range(b);
}

} // verus!
