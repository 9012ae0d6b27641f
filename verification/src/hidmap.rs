//! Key remapping at the HID level: the decisions.
//!
//! The remote is read in listening (non-exclusive) mode, so the system keeps
//! handling it and F5 dictation keeps working. For a remapped button, the
//! native keystroke that the system produces is cancelled by matching it,
//! within a short window, against an "armed" entry; the mapped keystroke is
//! injected instead. Back (0xF1) is a dead key at system level and produces no
//! native event, so it only needs injecting.

use vstd::prelude::*;
use crate::keymap::{
    button_index, disposition_of, native_of, parse_report_spec, parse_report_usages, Disposition,
    Injection, KeyMap, Mods, RemoteButton,
};

verus! {

/// System permissions the key mapper needs.
#[derive(Debug, Clone, Copy, PartialEq, Eq, Structural)]
pub struct Permissions {
    /// Input Monitoring: needed to read HID reports.
    pub input_monitoring: bool,
    /// Accessibility: needed to inject events and to create the intercepting tap.
    pub accessibility: bool,
}

impl Permissions {
    pub fn ready(self) -> (r: bool)
        ensures
            r == (self.input_monitoring && self.accessibility),
    {
        self.input_monitoring && self.accessibility
    }
}

pub const FLAG_SHIFT: u64 = 0x2_0000;

pub const FLAG_CONTROL: u64 = 0x4_0000;

pub const FLAG_OPTION: u64 = 0x8_0000;

pub const FLAG_COMMAND: u64 = 0x10_0000;

pub const FLAG_FN: u64 = 0x80_0000;

/// Marks injected events so the intercepting tap lets them through.
pub const SYNTHETIC_MARKER: i64 = 0x5243_5401;

/// How long, in milliseconds, an armed entry cancels a matching native event.
pub const ARM_TTL_MS: u64 = 220;

/// At most this many armed entries are kept; the oldest are dropped first.
pub const ARM_CAPACITY: usize = 64;

pub open spec fn has_bit(mods: u8, bit: u8) -> bool {
    mods & bit == bit
}

/// The keyboard event flags for a set of modifiers.
pub open spec fn flags_of(mods: u8) -> int {
    (if has_bit(mods, 1) { FLAG_COMMAND } else { 0 }) + (if has_bit(mods, 2) {
        FLAG_SHIFT
    } else {
        0
    }) + (if has_bit(mods, 4) { FLAG_CONTROL } else { 0 }) + (if has_bit(mods, 8) {
        FLAG_OPTION
    } else {
        0
    }) + (if has_bit(mods, 16) { FLAG_FN } else { 0 })
}

pub fn cg_flags(mods: Mods) -> (r: u64)
    ensures
        r == flags_of(mods.0),
{
    let m = mods.0;
    let mut f: u64 = 0;
    if mods.contains(Mods::command()) {
        f = f + FLAG_COMMAND;
    }
    if mods.contains(Mods::shift()) {
        f = f + FLAG_SHIFT;
    }
    if mods.contains(Mods::control()) {
        f = f + FLAG_CONTROL;
    }
    if mods.contains(Mods::option()) {
        f = f + FLAG_OPTION;
    }
    if mods.contains(Mods::fn_key()) {
        f = f + FLAG_FN;
    }
    f
}

/// A native key event to cancel if it arrives before `expiry_ms`.
#[derive(Debug, Clone, Copy, PartialEq, Eq, Structural)]
pub struct Armed {
    pub keycode: u16,
    pub down: bool,
    pub expiry_ms: u64,
}

pub open spec fn live_at(now_ms: u64) -> spec_fn(Armed) -> bool {
    |a: Armed| a.expiry_ms > now_ms
}

/// The armed list after arming `keycode`/`down` at `now_ms`: expired entries
/// go, the new one is appended, and the oldest go beyond the capacity.
pub open spec fn arm_spec(armed: Seq<Armed>, keycode: u16, down: bool, now_ms: u64) -> Seq<Armed> {
    let l = armed.filter(live_at(now_ms)).push(
        Armed { keycode, down, expiry_ms: (now_ms + ARM_TTL_MS) as u64 },
    );
    if l.len() > ARM_CAPACITY {
        l.skip(l.len() - ARM_CAPACITY)
    } else {
        l
    }
}

/// Position of the first live entry matching `keycode`/`down`.
pub open spec fn first_armed(l: Seq<Armed>, keycode: u16, down: bool, i: int) -> bool {
    &&& 0 <= i < l.len()
    &&& l[i].keycode == keycode && l[i].down == down
    &&& forall|j: int| 0 <= j < i ==> !((#[trigger] l[j]).keycode == keycode && l[j].down == down)
}

/// Whether a native event should be cancelled, and the armed list afterwards:
/// expired entries go, and the first matching entry is consumed.
pub open spec fn take_spec(armed: Seq<Armed>, keycode: u16, down: bool, now_ms: u64) -> (bool, Seq<Armed>) {
    let l = armed.filter(live_at(now_ms));
    if exists|i: int| first_armed(l, keycode, down, i) {
        let i = choose|i: int| first_armed(l, keycode, down, i);
        (true, l.remove(i))
    } else {
        (false, l)
    }
}

/// The state shared between the HID reader and the intercepting tap.
pub struct Shared {
    keymap: KeyMap,
    armed: Vec<Armed>,
}

fn drop_expired(armed: &Vec<Armed>, now_ms: u64) -> (r: Vec<Armed>)
    ensures
        r@ == armed@.filter(live_at(now_ms)),
{
    let mut r: Vec<Armed> = Vec::new();
    let mut i: usize = 0;
    while i < armed.len()
        invariant
            i <= armed@.len(),
            r@ == armed@.take(i as int).filter(live_at(now_ms)),
        decreases armed@.len() - i,
    {
        proof {
            reveal(Seq::filter);
            assert(armed@.take(i + 1).drop_last() =~= armed@.take(i as int));
        }
        let a = armed[i];
        if a.expiry_ms > now_ms {
            r.push(a);
        }
        i = i + 1;
    }
    assert(armed@.take(armed@.len() as int) =~= armed@);
    r
}

impl Shared {
    pub fn new(keymap: KeyMap) -> (r: Shared)
        ensures
            r.map() == keymap@,
            r.armed() == Seq::<Armed>::empty(),
    {
        Shared { keymap, armed: Vec::new() }
    }

    pub closed spec fn armed(&self) -> Seq<Armed> {
        self.armed@
    }

    /// The key mapping in force.
    pub closed spec fn map(&self) -> Seq<Action> {
        self.keymap@
    }

    pub fn keymap(&self) -> (r: &KeyMap)
        ensures
            r@ == self.map(),
    {
        &self.keymap
    }

    /// Arms the cancellation of one native event.
    pub fn arm(&mut self, keycode: u16, down: bool, now_ms: u64)
        requires
            now_ms <= u64::MAX - ARM_TTL_MS,
        ensures
            final(self).armed() == arm_spec(old(self).armed(), keycode, down, now_ms),
            final(self).map() == old(self).map(),
            final(self).armed().len() <= ARM_CAPACITY,
    {
        let mut l = drop_expired(&self.armed, now_ms);
        l.push(Armed { keycode, down, expiry_ms: now_ms + ARM_TTL_MS });
        if l.len() > ARM_CAPACITY {
            let overflow = l.len() - ARM_CAPACITY;
            let mut kept: Vec<Armed> = Vec::new();
            let mut i = overflow;
            while i < l.len()
                invariant
                    overflow <= i <= l@.len(),
                    kept@ == l@.subrange(overflow as int, i as int),
                decreases l@.len() - i,
            {
                kept.push(l[i]);
                i = i + 1;
                assert(kept@ =~= l@.subrange(overflow as int, i as int));
            }
            assert(kept@ =~= l@.skip(overflow as int));
            self.armed = kept;
        } else {
            self.armed = l;
        }
    }

    /// Consumes a matching armed entry; returns whether the native event
    /// should be cancelled.
    pub fn take_match(&mut self, keycode: u16, down: bool, now_ms: u64) -> (r: bool)
        ensures
            (r, final(self).armed()) == take_spec(old(self).armed(), keycode, down, now_ms),
            final(self).map() == old(self).map(),
    {
        let mut l = drop_expired(&self.armed, now_ms);
        let ghost lv = l@;
        let mut i: usize = 0;
        while i < l.len()
            invariant
                l@ == lv,
                lv == old(self).armed().filter(live_at(now_ms)),
                self.map() == old(self).map(),
                self.armed() == old(self).armed(),
                i <= lv.len(),
                forall|j: int| 0 <= j < i ==> !((#[trigger] lv[j]).keycode == keycode && lv[j].down
                    == down),
            decreases lv.len() - i,
        {
            let a = l[i];
            if a.keycode == keycode && a.down == down {
                proof {
                    assert(first_armed(lv, keycode, down, i as int));
                    let k = choose|k: int| first_armed(lv, keycode, down, k);
                    if k < i {
                        assert(lv[k].keycode == keycode && lv[k].down == down);
                    } else if k > i {
                        assert(!(lv[i as int].keycode == keycode && lv[i as int].down == down));
                    }
                }
                l.remove(i);
                self.armed = l;
                return true;
            }
            i = i + 1;
        }
        self.armed = l;
        false
    }

    /// Hot-swaps the key mapping.
    pub fn update_keymap(&mut self, keymap: KeyMap)
        ensures
            final(self).map() == keymap@,
            final(self).armed() == old(self).armed(),
    {
        self.keymap = keymap;
    }
}

/// Something the HID reader must do.
#[derive(Debug, Clone, Copy, PartialEq, Eq, Structural)]
pub enum Effect {
    /// Arm the cancellation of the native event with this key code and direction.
    Arm { keycode: u16, down: bool },
    /// Inject this keystroke, pressed or released.
    Emit { injection: Injection, down: bool },
}

/// The button a HID usage belongs to, if any.
pub open spec fn button_of_usage(u: u16) -> Option<RemoteButton> {
    if u == 0x66 {
        Some(RemoteButton::Power)
    } else if u == 0x52 {
        Some(RemoteButton::Up)
    } else if u == 0x51 {
        Some(RemoteButton::Down)
    } else if u == 0x50 {
        Some(RemoteButton::Left)
    } else if u == 0x4F {
        Some(RemoteButton::Right)
    } else if u == 0x28 {
        Some(RemoteButton::OkKey)
    } else if u == 0xF1 {
        Some(RemoteButton::Back)
    } else if u == 0x4A {
        Some(RemoteButton::Home)
    } else if u == 0x65 {
        Some(RemoteButton::Menu)
    } else if u == 0x35 {
        Some(RemoteButton::Tv)
    } else if u == 0x80 {
        Some(RemoteButton::VolumeUp)
    } else if u == 0x81 {
        Some(RemoteButton::VolumeDown)
    } else {
        None
    }
}

/// The effects of one press (`down`) or release of button `b` under mapping
/// `m`, and the held injections afterwards.
pub open spec fn edge_spec(m: Seq<Action>, held: Seq<Option<Injection>>, b: RemoteButton, down: bool) -> (
    Seq<Option<Injection>>,
    Seq<Effect>,
) {
    let arm = match native_of(b) {
        Some(n) => seq![Effect::Arm { keycode: n.keycode, down }],
        None => Seq::empty(),
    };
    match disposition_of(m, b) {
        Disposition::Passthrough => (held, Seq::empty()),
        Disposition::Suppress => (held, arm),
        Disposition::Remap(i) => if down {
            (held.update(button_index(b), Some(i)), arm.push(Effect::Emit { injection: i, down: true }))
        } else {
            match held[button_index(b)] {
                Some(h) => (
                    held.update(button_index(b), None),
                    arm.push(Effect::Emit { injection: h, down: false }),
                ),
                None => (held, arm),
            }
        },
    }
}

/// The effects of edges for each usage of `us` in order (usages that belong
/// to no button are skipped).
pub open spec fn edges_spec(m: Seq<Action>, held: Seq<Option<Injection>>, us: Seq<u16>, down: bool) -> (
    Seq<Option<Injection>>,
    Seq<Effect>,
)
    decreases us.len(),
{
    if us.len() == 0 {
        (held, Seq::empty())
    } else {
        let (h1, e1) = edges_spec(m, held, us.drop_last(), down);
        match button_of_usage(us.last()) {
            Some(b) => {
                let (h2, e2) = edge_spec(m, h1, b, down);
                (h2, e1 + e2)
            },
            None => (h1, e1),
        }
    }
}

/// `s` without repeated elements, keeping first occurrences in order.
pub open spec fn dedup(s: Seq<u16>) -> Seq<u16>
    decreases s.len(),
{
    if s.len() == 0 {
        Seq::empty()
    } else {
        let d = dedup(s.drop_last());
        if d.contains(s.last()) {
            d
        } else {
            d.push(s.last())
        }
    }
}

pub open spec fn absent_from(other: Seq<u16>) -> spec_fn(u16) -> bool {
    |u: u16| !other.contains(u)
}

pub struct ReaderView {
    /// The usages pressed at the last report.
    pub active: Seq<u16>,
    /// The injection held down for each button (indexed by position in `RemoteButton::ALL`).
    pub held: Seq<Option<Injection>>,
}

/// One HID report: which usages went down and up, and what to do about them.
/// Presses are handled before releases.
pub open spec fn report_spec(s: ReaderView, m: Seq<Action>, report_id: u32, data: Seq<u8>) -> (
    ReaderView,
    Seq<Effect>,
) {
    match parse_report_spec(report_id, data) {
        None => (s, Seq::empty()),
        Some(us) => {
            let new = dedup(us);
            let pressed = new.filter(absent_from(s.active));
            let released = s.active.filter(absent_from(new));
            let (h1, e1) = edges_spec(m, s.held, pressed, true);
            let (h2, e2) = edges_spec(m, h1, released, false);
            (ReaderView { active: new, held: h2 }, e1 + e2)
        },
    }
}

use crate::keymap::Action;

/// The HID reader's own state: which usages are down and which injected
/// keystrokes are being held.
pub struct ReaderState {
    active: Vec<u16>,
    held: Vec<Option<Injection>>,
}

impl View for ReaderState {
    type V = ReaderView;

    closed spec fn view(&self) -> ReaderView {
        ReaderView {
            active: self.active@,
            held: Seq::new(
                12,
                |i: int|
                    if i < self.held@.len() {
                        self.held@[i]
                    } else {
                        None
                    },
            ),
        }
    }
}

fn contains_u16(s: &Vec<u16>, u: u16) -> (r: bool)
    ensures
        r == s@.contains(u),
{
    let mut i: usize = 0;
    while i < s.len()
        invariant
            i <= s@.len(),
            forall|j: int| 0 <= j < i ==> s@[j] != u,
        decreases s@.len() - i,
    {
        if s[i] == u {
            assert(s@[i as int] == u);
            return true;
        }
        i = i + 1;
    }
    false
}

fn dedup_exec(s: &Vec<u16>) -> (r: Vec<u16>)
    ensures
        r@ == dedup(s@),
{
    let mut r: Vec<u16> = Vec::new();
    let mut i: usize = 0;
    while i < s.len()
        invariant
            i <= s@.len(),
            r@ == dedup(s@.take(i as int)),
        decreases s@.len() - i,
    {
        assert(s@.take(i + 1).drop_last() =~= s@.take(i as int));
        if !contains_u16(&r, s[i]) {
            r.push(s[i]);
        }
        i = i + 1;
    }
    assert(s@.take(s@.len() as int) =~= s@);
    r
}

/// The elements of `s` that are not in `other`, in order.
fn minus(s: &Vec<u16>, other: &Vec<u16>) -> (r: Vec<u16>)
    ensures
        r@ == s@.filter(absent_from(other@)),
{
    let mut r: Vec<u16> = Vec::new();
    let mut i: usize = 0;
    while i < s.len()
        invariant
            i <= s@.len(),
            r@ == s@.take(i as int).filter(absent_from(other@)),
        decreases s@.len() - i,
    {
        proof {
            reveal(Seq::filter);
            assert(s@.take(i + 1).drop_last() =~= s@.take(i as int));
        }
        if !contains_u16(other, s[i]) {
            r.push(s[i]);
        }
        i = i + 1;
    }
    assert(s@.take(s@.len() as int) =~= s@);
    r
}

fn usage_button(u: u16) -> (r: Option<RemoteButton>)
    ensures
        r == button_of_usage(u),
{
    if u == 0x66 {
        Some(RemoteButton::Power)
    } else if u == 0x52 {
        Some(RemoteButton::Up)
    } else if u == 0x51 {
        Some(RemoteButton::Down)
    } else if u == 0x50 {
        Some(RemoteButton::Left)
    } else if u == 0x4F {
        Some(RemoteButton::Right)
    } else if u == 0x28 {
        Some(RemoteButton::OkKey)
    } else if u == 0xF1 {
        Some(RemoteButton::Back)
    } else if u == 0x4A {
        Some(RemoteButton::Home)
    } else if u == 0x65 {
        Some(RemoteButton::Menu)
    } else if u == 0x35 {
        Some(RemoteButton::Tv)
    } else if u == 0x80 {
        Some(RemoteButton::VolumeUp)
    } else if u == 0x81 {
        Some(RemoteButton::VolumeDown)
    } else {
        None
    }
}

impl ReaderState {
    /// The reader holds one optional injection per button.
    pub proof fn lemma_len(&self)
        ensures
            self@.held.len() == 12,
    {
    }

    pub fn new() -> (r: ReaderState)
        ensures
            r@.active == Seq::<u16>::empty(),
            r@.held == Seq::new(12, |i: int| None::<Injection>),
    {
        let r = ReaderState { active: Vec::new(), held: Vec::new() };
        assert(r@.held =~= Seq::new(12, |i: int| None::<Injection>));
        r
    }

    fn set_held(&mut self, b: RemoteButton, v: Option<Injection>)
        ensures
            final(self)@ == (ReaderView {
                held: old(self)@.held.update(button_index(b), v),
                ..old(self)@
            }),
    {
        let i = b.index();
        let ghost v0 = self@;
        while self.held.len() <= i
            invariant
                self@ == v0,
                i < 12,
            decreases 12 - self.held@.len(),
        {
            self.held.push(None);
            assert(self@.held =~= v0.held);
        }
        self.held.set(i, v);
        assert(self@.held =~= v0.held.update(i as int, v));
    }

    fn get_held(&self, b: RemoteButton) -> (r: Option<Injection>)
        ensures
            r == self@.held[button_index(b)],
    {
        let i = b.index();
        if i < self.held.len() {
            self.held[i]
        } else {
            None
        }
    }

    fn edge(&mut self, keymap: &KeyMap, b: RemoteButton, down: bool, effects: &mut Vec<Effect>)
        ensures
            ({
                let (h, e) = edge_spec(keymap@, old(self)@.held, b, down);
                &&& final(self)@ == (ReaderView { held: h, ..old(self)@ })
                &&& final(effects)@ == old(effects)@ + e
            }),
    {
        let ghost e0 = effects@;
        let native = b.native();
        match keymap.disposition(b) {
            Disposition::Passthrough => {
                assert(effects@ =~= e0 + Seq::<Effect>::empty());
            },
            Disposition::Suppress => {
                match native {
                    Some(n) => {
                        effects.push(Effect::Arm { keycode: n.keycode, down });
                        assert(effects@ =~= e0 + seq![Effect::Arm { keycode: n.keycode, down }]);
                    },
                    None => {
                        assert(effects@ =~= e0 + Seq::<Effect>::empty());
                    },
                }
            },
            Disposition::Remap(inj) => {
                let ghost arm = match native_of(b) {
                    Some(n) => seq![Effect::Arm { keycode: n.keycode, down }],
                    None => Seq::<Effect>::empty(),
                };
                match native {
                    Some(n) => {
                        effects.push(Effect::Arm { keycode: n.keycode, down });
                    },
                    None => {},
                }
                assert(effects@ =~= e0 + arm);
                if down {
                    effects.push(Effect::Emit { injection: inj, down: true });
                    self.set_held(b, Some(inj));
                    assert(effects@ =~= e0 + arm.push(Effect::Emit { injection: inj, down: true }));
                } else {
                    match self.get_held(b) {
                        Some(h) => {
                            effects.push(Effect::Emit { injection: h, down: false });
                            self.set_held(b, None);
                            assert(effects@ =~= e0 + arm.push(
                                Effect::Emit { injection: h, down: false },
                            ));
                        },
                        None => {},
                    }
                }
            },
        }
    }

    fn edges(&mut self, keymap: &KeyMap, us: &Vec<u16>, down: bool, effects: &mut Vec<Effect>)
        ensures
            ({
                let (h, e) = edges_spec(keymap@, old(self)@.held, us@, down);
                &&& final(self)@ == (ReaderView { held: h, ..old(self)@ })
                &&& final(effects)@ == old(effects)@ + e
            }),
    {
        let ghost s0 = self@;
        let ghost e0 = effects@;
        let mut i: usize = 0;
        while i < us.len()
            invariant
                i <= us@.len(),
                ({
                    let (h, e) = edges_spec(keymap@, s0.held, us@.take(i as int), down);
                    &&& self@ == (ReaderView { held: h, ..s0 })
                    &&& effects@ == e0 + e
                }),
            decreases us@.len() - i,
        {
            assert(us@.take(i + 1).drop_last() =~= us@.take(i as int));
            let ghost e1 = effects@;
            match usage_button(us[i]) {
                Some(b) => {
                    self.edge(keymap, b, down, effects);
                    proof {
                        let (h, e) = edges_spec(keymap@, s0.held, us@.take(i as int), down);
                        let (h2, e2) = edge_spec(keymap@, h, b, down);
                        assert(effects@ =~= e0 + (e + e2));
                    }
                },
                None => {},
            }
            i = i + 1;
        }
        assert(us@.take(us@.len() as int) =~= us@);
    }

    /// Handles one HID input report: works out which buttons went down and
    /// up since the last report, and returns what to arm and inject.
    pub fn handle_report(&mut self, keymap: &KeyMap, report_id: u32, data: &[u8]) -> (r: Vec<Effect>)
        ensures
            (final(self)@, r@) == report_spec(old(self)@, keymap@, report_id, data@),
    {
        let mut effects: Vec<Effect> = Vec::new();
        let usages = match parse_report_usages(report_id, data) {
            Some(u) => u,
            None => {
                assert(effects@ =~= Seq::<Effect>::empty());
                return effects;
            },
        };
        let new = dedup_exec(&usages);
        let pressed = minus(&new, &self.active);
        let released = minus(&self.active, &new);
        let ghost s0 = self@;
        self.active = new;
        self.edges(keymap, &pressed, true, &mut effects);
        self.edges(keymap, &released, false, &mut effects);
        proof {
            let (h1, e1) = edges_spec(keymap@, s0.held, pressed@, true);
            let (h2, e2) = edges_spec(keymap@, h1, released@, false);
            assert(effects@ =~= e1 + e2);
        }
        effects
    }

    /// On disconnect or stop: releases every injected keystroke still held
    /// (so no modifier stays stuck), in button order, and forgets the
    /// pressed usages.
    pub fn release_all_held(&mut self) -> (r: Vec<Effect>)
        ensures
            final(self)@.active == Seq::<u16>::empty(),
            final(self)@.held == Seq::new(12, |i: int| None::<Injection>),
            r@ == held_releases(old(self)@.held, 12),
    {
        let mut effects: Vec<Effect> = Vec::new();
        let mut i: usize = 0;
        while i < 12
            invariant
                i <= 12,
                effects@ == held_releases(old(self)@.held, i as int),
                forall|j: int| 0 <= j < 12 ==> #[trigger] self@.held[j] == old(self)@.held[j],
            decreases 12 - i,
        {
            match self.get_held(RemoteButton::at(i)) {
                Some(h) => effects.push(Effect::Emit { injection: h, down: false }),
                None => {},
            }
            i = i + 1;
        }
        self.held = Vec::new();
        self.active = Vec::new();
        assert(self@.held =~= Seq::new(12, |i: int| None::<Injection>));
        effects
    }
}

/// The releases of the injections held for the first `n` buttons, in order.
pub open spec fn held_releases(held: Seq<Option<Injection>>, n: int) -> Seq<Effect>
    decreases n,
{
    if n <= 0 {
        Seq::empty()
    } else {
        let prev = held_releases(held, n - 1);
        match held[n - 1] {
            Some(h) => prev.push(Effect::Emit { injection: h, down: false }),
            None => prev,
        }
    }
}


/// A native event that arrives within the window after its cancellation was
/// armed is cancelled.
pub proof fn law_armed_event_is_cancelled(
    armed: Seq<Armed>,
    keycode: u16,
    down: bool,
    t: u64,
    now_ms: u64,
)
    requires
        t <= u64::MAX - ARM_TTL_MS,
        now_ms < t + ARM_TTL_MS,
    ensures
        take_spec(arm_spec(armed, keycode, down, t), keycode, down, now_ms).0,
{
    let a = Armed { keycode, down, expiry_ms: (t + ARM_TTL_MS) as u64 };
    let l0 = armed.filter(live_at(t)).push(a);
    let l1 = arm_spec(armed, keycode, down, t);
    assert(l1.len() > 0 && l1.last() == a) by {
        if l0.len() > ARM_CAPACITY {
            assert(l1[l1.len() - 1] == l0[l0.len() - 1]);
        }
    }
    let f = live_at(now_ms);
    let l = l1.filter(f);
    reveal(Seq::filter);
    assert(l1.drop_last().filter(f).push(a) == l);
    assert(l.last() == a);
    lemma_first_exists(l, keycode, down, l.len() - 1);
}

/// If some entry matches, a first matching entry exists.
pub proof fn lemma_first_exists(l: Seq<Armed>, keycode: u16, down: bool, k: int)
    requires
        0 <= k < l.len(),
        l[k].keycode == keycode && l[k].down == down,
    ensures
        exists|i: int| first_armed(l, keycode, down, i),
    decreases k,
{
    if forall|j: int| 0 <= j < k ==> !((#[trigger] l[j]).keycode == keycode && l[j].down == down) {
        assert(first_armed(l, keycode, down, k));
    } else {
        let j = choose|j: int| 0 <= j < k && (#[trigger] l[j]).keycode == keycode && l[j].down
            == down;
        lemma_first_exists(l, keycode, down, j);
    }
}

/// Pressing and then releasing a remapped button injects the mapped key down
/// and then up, and leaves nothing held.
pub proof fn law_remap_press_release_pairs(
    m: Seq<Action>,
    held: Seq<Option<Injection>>,
    b: RemoteButton,
    i: Injection,
)
    requires
        disposition_of(m, b) == Disposition::Remap(i),
        held.len() == 12,
        held[button_index(b)] is None,
    ensures
        ({
            let (h1, e1) = edge_spec(m, held, b, true);
            let (h2, e2) = edge_spec(m, h1, b, false);
            &&& h2 == held
            &&& e1.last() == Effect::Emit { injection: i, down: true }
            &&& e2.last() == Effect::Emit { injection: i, down: false }
        }),
{
    crate::keymap::lemma_button_index(b);
    let (h1, e1) = edge_spec(m, held, b, true);
    let (h2, e2) = edge_spec(m, h1, b, false);
    assert(h2 =~= held);
}

/// Passthrough buttons are never touched: no arming, no injection.
pub proof fn law_passthrough_has_no_effect(
    m: Seq<Action>,
    held: Seq<Option<Injection>>,
    b: RemoteButton,
    down: bool,
)
    requires
        disposition_of(m, b) == Disposition::Passthrough,
    ensures
        edge_spec(m, held, b, down) == (held, Seq::<Effect>::empty()),
{
}

} // verus!
