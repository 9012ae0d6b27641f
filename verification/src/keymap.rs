//! Remote button -> host action mapping model (platform-neutral data).
//!
//! Design point: **identity mappings pass through automatically.** Most keys
//! (arrows, OK, volume) already behave correctly once paired; a key is only
//! intercepted and re-injected when it is mapped to something different from
//! its native behaviour. With the defaults only Power / Back / TV / Home / Menu
//! take the interception path.

use vstd::prelude::*;
use crate::text::str_equal;

verus! {

/// A physical button of the remote. The voice (microphone) button is not
/// among them: it is handled by device-scoped F5 remapping instead.
#[derive(Debug, Clone, Copy, PartialEq, Eq, Hash, Structural)]
pub enum RemoteButton {
    Power,
    Up,
    Down,
    Left,
    Right,
    OkKey,
    Back,
    Home,
    Menu,
    Tv,
    VolumeUp,
    VolumeDown,
}

/// Number of remote buttons.
pub const BUTTON_COUNT: usize = 12;

/// The position of a button in [`RemoteButton::ALL`].
pub open spec fn button_index(b: RemoteButton) -> int {
    match b {
        RemoteButton::Power => 0,
        RemoteButton::Up => 1,
        RemoteButton::Down => 2,
        RemoteButton::Left => 3,
        RemoteButton::Right => 4,
        RemoteButton::OkKey => 5,
        RemoteButton::Back => 6,
        RemoteButton::Home => 7,
        RemoteButton::Menu => 8,
        RemoteButton::Tv => 9,
        RemoteButton::VolumeUp => 10,
        RemoteButton::VolumeDown => 11,
    }
}

/// The button at position `i` of [`RemoteButton::ALL`].
pub open spec fn button_at(i: int) -> RemoteButton {
    if i == 0 {
        RemoteButton::Power
    } else if i == 1 {
        RemoteButton::Up
    } else if i == 2 {
        RemoteButton::Down
    } else if i == 3 {
        RemoteButton::Left
    } else if i == 4 {
        RemoteButton::Right
    } else if i == 5 {
        RemoteButton::OkKey
    } else if i == 6 {
        RemoteButton::Back
    } else if i == 7 {
        RemoteButton::Home
    } else if i == 8 {
        RemoteButton::Menu
    } else if i == 9 {
        RemoteButton::Tv
    } else if i == 10 {
        RemoteButton::VolumeUp
    } else {
        RemoteButton::VolumeDown
    }
}

pub proof fn lemma_button_index(b: RemoteButton)
    ensures
        0 <= button_index(b) < 12,
        button_at(button_index(b)) == b,
{
}

pub proof fn lemma_button_at(i: int)
    requires
        0 <= i < 12,
    ensures
        button_index(button_at(i)) == i,
{
}

pub open spec fn hid_usage_of(b: RemoteButton) -> u16 {
    match b {
        RemoteButton::Power => 0x66,
        RemoteButton::Up => 0x52,
        RemoteButton::Down => 0x51,
        RemoteButton::Left => 0x50,
        RemoteButton::Right => 0x4F,
        RemoteButton::OkKey => 0x28,
        RemoteButton::Back => 0xF1,
        RemoteButton::Home => 0x4A,
        RemoteButton::Menu => 0x65,
        RemoteButton::Tv => 0x35,
        RemoteButton::VolumeUp => 0x80,
        RemoteButton::VolumeDown => 0x81,
    }
}

pub open spec fn button_id(b: RemoteButton) -> Seq<char> {
    match b {
        RemoteButton::Power => "power"@,
        RemoteButton::Up => "up"@,
        RemoteButton::Down => "down"@,
        RemoteButton::Left => "left"@,
        RemoteButton::Right => "right"@,
        RemoteButton::OkKey => "ok"@,
        RemoteButton::Back => "back"@,
        RemoteButton::Home => "home"@,
        RemoteButton::Menu => "menu"@,
        RemoteButton::Tv => "tv"@,
        RemoteButton::VolumeUp => "volume_up"@,
        RemoteButton::VolumeDown => "volume_down"@,
    }
}

pub open spec fn button_label(b: RemoteButton) -> Seq<char> {
    match b {
        RemoteButton::Power => "电源"@,
        RemoteButton::Up => "上"@,
        RemoteButton::Down => "下"@,
        RemoteButton::Left => "左"@,
        RemoteButton::Right => "右"@,
        RemoteButton::OkKey => "确定"@,
        RemoteButton::Back => "返回"@,
        RemoteButton::Home => "主页"@,
        RemoteButton::Menu => "菜单"@,
        RemoteButton::Tv => "TV"@,
        RemoteButton::VolumeUp => "音量 +"@,
        RemoteButton::VolumeDown => "音量 −"@,
    }
}

/// A set of modifier keys, one bit each.
#[derive(Debug, Clone, Copy, PartialEq, Eq, Hash, Structural)]
pub struct Mods(pub u8);

/// A keyboard injection: a virtual key code plus modifiers.
#[derive(Debug, Clone, Copy, PartialEq, Eq, Structural)]
pub struct Injection {
    pub keycode: u16,
    pub mods: Mods,
}

pub open spec fn inj(keycode: u16, mods: u8) -> Option<Injection> {
    Some(Injection { keycode, mods: Mods(mods) })
}

/// What the system does with a button when nobody interferes. `None` means it
/// has no usable native behaviour (Back is a dead key at system level; Power
/// and Volume are system-defined events outside this keyboard model).
pub open spec fn native_of(b: RemoteButton) -> Option<Injection> {
    match b {
        RemoteButton::Up => inj(126, 0),
        RemoteButton::Down => inj(125, 0),
        RemoteButton::Left => inj(123, 0),
        RemoteButton::Right => inj(124, 0),
        RemoteButton::OkKey => inj(36, 0),
        RemoteButton::Tv => inj(50, 0),
        RemoteButton::Home => inj(115, 0),
        RemoteButton::Menu => inj(110, 0),
        _ => None,
    }
}

impl RemoteButton {
    pub const ALL: [RemoteButton; 12] = [
        RemoteButton::Power,
        RemoteButton::Up,
        RemoteButton::Down,
        RemoteButton::Left,
        RemoteButton::Right,
        RemoteButton::OkKey,
        RemoteButton::Back,
        RemoteButton::Home,
        RemoteButton::Menu,
        RemoteButton::Tv,
        RemoteButton::VolumeUp,
        RemoteButton::VolumeDown,
    ];

    /// Position of this button in [`RemoteButton::ALL`].
    pub fn index(self) -> (r: usize)
        ensures
            r == button_index(self),
    {
        match self {
            RemoteButton::Power => 0,
            RemoteButton::Up => 1,
            RemoteButton::Down => 2,
            RemoteButton::Left => 3,
            RemoteButton::Right => 4,
            RemoteButton::OkKey => 5,
            RemoteButton::Back => 6,
            RemoteButton::Home => 7,
            RemoteButton::Menu => 8,
            RemoteButton::Tv => 9,
            RemoteButton::VolumeUp => 10,
            RemoteButton::VolumeDown => 11,
        }
    }

    /// The button at position `i` of [`RemoteButton::ALL`].
    pub fn at(i: usize) -> (r: RemoteButton)
        requires
            i < 12,
        ensures
            r == button_at(i as int),
    {
        if i == 0 {
            RemoteButton::Power
        } else if i == 1 {
            RemoteButton::Up
        } else if i == 2 {
            RemoteButton::Down
        } else if i == 3 {
            RemoteButton::Left
        } else if i == 4 {
            RemoteButton::Right
        } else if i == 5 {
            RemoteButton::OkKey
        } else if i == 6 {
            RemoteButton::Back
        } else if i == 7 {
            RemoteButton::Home
        } else if i == 8 {
            RemoteButton::Menu
        } else if i == 9 {
            RemoteButton::Tv
        } else if i == 10 {
            RemoteButton::VolumeUp
        } else {
            RemoteButton::VolumeDown
        }
    }

    /// The HID keyboard-page usage the remote reports for this button.
    pub fn hid_usage(self) -> (r: u16)
        ensures
            r == hid_usage_of(self),
    {
        match self {
            RemoteButton::Power => 0x66,
            RemoteButton::Up => 0x52,
            RemoteButton::Down => 0x51,
            RemoteButton::Left => 0x50,
            RemoteButton::Right => 0x4F,
            RemoteButton::OkKey => 0x28,
            RemoteButton::Back => 0xF1,
            RemoteButton::Home => 0x4A,
            RemoteButton::Menu => 0x65,
            RemoteButton::Tv => 0x35,
            RemoteButton::VolumeUp => 0x80,
            RemoteButton::VolumeDown => 0x81,
        }
    }

    /// Stable string id (configuration files, front end).
    pub fn id(self) -> (r: &'static str)
        ensures
            r@ == button_id(self),
    {
        match self {
            RemoteButton::Power => "power",
            RemoteButton::Up => "up",
            RemoteButton::Down => "down",
            RemoteButton::Left => "left",
            RemoteButton::Right => "right",
            RemoteButton::OkKey => "ok",
            RemoteButton::Back => "back",
            RemoteButton::Home => "home",
            RemoteButton::Menu => "menu",
            RemoteButton::Tv => "tv",
            RemoteButton::VolumeUp => "volume_up",
            RemoteButton::VolumeDown => "volume_down",
        }
    }

    /// The button whose id is `id`, if any.
    pub fn from_id(id: &str) -> (r: Option<RemoteButton>)
        ensures
            match r {
                Some(b) => button_id(b) == id@,
                None => forall|b: RemoteButton| button_id(b) != id@,
            },
    {
        let mut i: usize = 0;
        while i < 12
            invariant
                i <= 12,
                forall|j: int| 0 <= j < i ==> button_id(#[trigger] button_at(j)) != id@,
            decreases 12 - i,
        {
            let b = RemoteButton::at(i);
            if str_equal(b.id(), id) {
                return Some(b);
            }
            i = i + 1;
        }
        assert forall|b: RemoteButton| button_id(b) != id@ by {
            lemma_button_index(b);
            assert(button_id(button_at(button_index(b))) != id@);
        }
        None
    }

    /// Reverse lookup: HID usage -> button. The microphone usage (0x3E)
    /// belongs to no button and gives `None`.
    pub fn from_hid_usage(usage: u16) -> (r: Option<RemoteButton>)
        ensures
            match r {
                Some(b) => hid_usage_of(b) == usage,
                None => forall|b: RemoteButton| hid_usage_of(b) != usage,
            },
    {
        let mut i: usize = 0;
        while i < 12
            invariant
                i <= 12,
                forall|j: int| 0 <= j < i ==> hid_usage_of(#[trigger] button_at(j)) != usage,
            decreases 12 - i,
        {
            let b = RemoteButton::at(i);
            if b.hid_usage() == usage {
                return Some(b);
            }
            i = i + 1;
        }
        assert forall|b: RemoteButton| hid_usage_of(b) != usage by {
            lemma_button_index(b);
            assert(hid_usage_of(button_at(button_index(b))) != usage);
        }
        None
    }

    pub fn label(self) -> (r: &'static str)
        ensures
            r@ == button_label(self),
    {
        match self {
            RemoteButton::Power => "电源",
            RemoteButton::Up => "上",
            RemoteButton::Down => "下",
            RemoteButton::Left => "左",
            RemoteButton::Right => "右",
            RemoteButton::OkKey => "确定",
            RemoteButton::Back => "返回",
            RemoteButton::Home => "主页",
            RemoteButton::Menu => "菜单",
            RemoteButton::Tv => "TV",
            RemoteButton::VolumeUp => "音量 +",
            RemoteButton::VolumeDown => "音量 −",
        }
    }

    /// The system's native handling of this button once paired; used to fold
    /// identity mappings into passthrough.
    pub fn native(self) -> (r: Option<Injection>)
        ensures
            r == native_of(self),
    {
        match self {
            RemoteButton::Up => Some(Injection { keycode: 126, mods: Mods::none() }),
            RemoteButton::Down => Some(Injection { keycode: 125, mods: Mods::none() }),
            RemoteButton::Left => Some(Injection { keycode: 123, mods: Mods::none() }),
            RemoteButton::Right => Some(Injection { keycode: 124, mods: Mods::none() }),
            RemoteButton::OkKey => Some(Injection { keycode: 36, mods: Mods::none() }),
            RemoteButton::Tv => Some(Injection { keycode: 50, mods: Mods::none() }),
            RemoteButton::Home => Some(Injection { keycode: 115, mods: Mods::none() }),
            RemoteButton::Menu => Some(Injection { keycode: 110, mods: Mods::none() }),
            RemoteButton::Back | RemoteButton::Power => None,
            RemoteButton::VolumeUp | RemoteButton::VolumeDown => None,
        }
    }
}

impl Mods {
    pub fn none() -> (r: Mods)
        ensures
            r.0 == 0,
    {
        Mods(0)
    }

    pub fn command() -> (r: Mods)
        ensures
            r.0 == 1,
    {
        Mods(1)
    }

    pub fn shift() -> (r: Mods)
        ensures
            r.0 == 2,
    {
        Mods(2)
    }

    pub fn control() -> (r: Mods)
        ensures
            r.0 == 4,
    {
        Mods(4)
    }

    pub fn option() -> (r: Mods)
        ensures
            r.0 == 8,
    {
        Mods(8)
    }

    pub fn fn_key() -> (r: Mods)
        ensures
            r.0 == 16,
    {
        Mods(16)
    }

    /// Whether every modifier of `other` is in `self`.
    pub fn contains(self, other: Mods) -> (r: bool)
        ensures
            r == (self.0 & other.0 == other.0),
    {
        self.0 & other.0 == other.0
    }

    pub fn union(self, other: Mods) -> (r: Mods)
        ensures
            r.0 == self.0 | other.0,
    {
        Mods(self.0 | other.0)
    }
}

/// A union contains both of its operands.
pub proof fn law_union_contains_both(a: Mods, b: Mods)
    ensures
        (a.0 | b.0) & a.0 == a.0,
        (a.0 | b.0) & b.0 == b.0,
{
    let x = a.0;
    let y = b.0;
    assert((x | y) & x == x && (x | y) & y == y) by (bit_vector);
}

/// An action that can be assigned to a button. Every concrete action resolves
/// to a keyboard event.
#[derive(Debug, Clone, Copy, PartialEq, Eq, Structural)]
pub enum Action {
    /// Keep the system's native behaviour (no interception, no injection).
    Native,
    /// Intercept the native behaviour and send nothing.
    Disabled,
    Escape,
    Return,
    Tab,
    Space,
    Delete,
    ForwardDelete,
    ArrowUp,
    ArrowDown,
    ArrowLeft,
    ArrowRight,
    Home,
    End,
    PageUp,
    PageDown,
    /// Mission Control (Control + Up).
    MissionControl,
    /// Application switcher (Command + Tab).
    AppSwitcher,
    /// Context menu (Shift + F10).
    ContextMenu,
    /// Show desktop (Fn + F11).
    ShowDesktop,
}

/// Action ids in the order Native, Disabled, then [`Action::ASSIGNABLE`].
pub open spec fn action_at(i: int) -> Action {
    if i == 0 {
        Action::Native
    } else if i == 1 {
        Action::Disabled
    } else if i == 2 {
        Action::Escape
    } else if i == 3 {
        Action::Return
    } else if i == 4 {
        Action::Tab
    } else if i == 5 {
        Action::Space
    } else if i == 6 {
        Action::Delete
    } else if i == 7 {
        Action::ForwardDelete
    } else if i == 8 {
        Action::ArrowUp
    } else if i == 9 {
        Action::ArrowDown
    } else if i == 10 {
        Action::ArrowLeft
    } else if i == 11 {
        Action::ArrowRight
    } else if i == 12 {
        Action::Home
    } else if i == 13 {
        Action::End
    } else if i == 14 {
        Action::PageUp
    } else if i == 15 {
        Action::PageDown
    } else if i == 16 {
        Action::MissionControl
    } else if i == 17 {
        Action::AppSwitcher
    } else if i == 18 {
        Action::ContextMenu
    } else {
        Action::ShowDesktop
    }
}

pub open spec fn action_index(a: Action) -> int {
    match a {
        Action::Native => 0,
        Action::Disabled => 1,
        Action::Escape => 2,
        Action::Return => 3,
        Action::Tab => 4,
        Action::Space => 5,
        Action::Delete => 6,
        Action::ForwardDelete => 7,
        Action::ArrowUp => 8,
        Action::ArrowDown => 9,
        Action::ArrowLeft => 10,
        Action::ArrowRight => 11,
        Action::Home => 12,
        Action::End => 13,
        Action::PageUp => 14,
        Action::PageDown => 15,
        Action::MissionControl => 16,
        Action::AppSwitcher => 17,
        Action::ContextMenu => 18,
        Action::ShowDesktop => 19,
    }
}

pub proof fn lemma_action_index(a: Action)
    ensures
        0 <= action_index(a) < 20,
        action_at(action_index(a)) == a,
{
}

pub open spec fn action_id(a: Action) -> Seq<char> {
    match a {
        Action::Native => "native"@,
        Action::Disabled => "disabled"@,
        Action::Escape => "escape"@,
        Action::Return => "return"@,
        Action::Tab => "tab"@,
        Action::Space => "space"@,
        Action::Delete => "delete"@,
        Action::ForwardDelete => "forward_delete"@,
        Action::ArrowUp => "arrow_up"@,
        Action::ArrowDown => "arrow_down"@,
        Action::ArrowLeft => "arrow_left"@,
        Action::ArrowRight => "arrow_right"@,
        Action::Home => "home"@,
        Action::End => "end"@,
        Action::PageUp => "page_up"@,
        Action::PageDown => "page_down"@,
        Action::MissionControl => "mission_control"@,
        Action::AppSwitcher => "app_switcher"@,
        Action::ContextMenu => "context_menu"@,
        Action::ShowDesktop => "show_desktop"@,
    }
}

pub open spec fn action_label(a: Action) -> Seq<char> {
    match a {
        Action::Native => "保持原生"@,
        Action::Disabled => "禁用"@,
        Action::Escape => "Escape"@,
        Action::Return => "Return"@,
        Action::Tab => "Tab"@,
        Action::Space => "空格"@,
        Action::Delete => "Delete（退格）"@,
        Action::ForwardDelete => "向前删除"@,
        Action::ArrowUp => "方向上"@,
        Action::ArrowDown => "方向下"@,
        Action::ArrowLeft => "方向左"@,
        Action::ArrowRight => "方向右"@,
        Action::Home => "Home"@,
        Action::End => "End"@,
        Action::PageUp => "Page Up"@,
        Action::PageDown => "Page Down"@,
        Action::MissionControl => "调度中心"@,
        Action::AppSwitcher => "切换应用"@,
        Action::ContextMenu => "上下文菜单"@,
        Action::ShowDesktop => "显示桌面"@,
    }
}

/// The keyboard event an action resolves to; `Native` and `Disabled` have none.
pub open spec fn injection_of(a: Action) -> Option<Injection> {
    match a {
        Action::Native | Action::Disabled => None,
        Action::Escape => inj(53, 0),
        Action::Return => inj(36, 0),
        Action::Tab => inj(48, 0),
        Action::Space => inj(49, 0),
        Action::Delete => inj(51, 0),
        Action::ForwardDelete => inj(117, 0),
        Action::ArrowUp => inj(126, 0),
        Action::ArrowDown => inj(125, 0),
        Action::ArrowLeft => inj(123, 0),
        Action::ArrowRight => inj(124, 0),
        Action::Home => inj(115, 0),
        Action::End => inj(119, 0),
        Action::PageUp => inj(116, 0),
        Action::PageDown => inj(121, 0),
        Action::MissionControl => inj(126, 4),
        Action::AppSwitcher => inj(48, 1),
        Action::ContextMenu => inj(109, 2),
        Action::ShowDesktop => inj(103, 16),
    }
}

impl Action {
    /// The choices offered for a button besides Native and Disabled.
    pub const ASSIGNABLE: [Action; 18] = [
        Action::Escape,
        Action::Return,
        Action::Tab,
        Action::Space,
        Action::Delete,
        Action::ForwardDelete,
        Action::ArrowUp,
        Action::ArrowDown,
        Action::ArrowLeft,
        Action::ArrowRight,
        Action::Home,
        Action::End,
        Action::PageUp,
        Action::PageDown,
        Action::MissionControl,
        Action::AppSwitcher,
        Action::ContextMenu,
        Action::ShowDesktop,
    ];

    fn at(i: usize) -> (r: Action)
        requires
            i < 20,
        ensures
            r == action_at(i as int),
    {
        if i == 0 {
            Action::Native
        } else if i == 1 {
            Action::Disabled
        } else if i == 2 {
            Action::Escape
        } else if i == 3 {
            Action::Return
        } else if i == 4 {
            Action::Tab
        } else if i == 5 {
            Action::Space
        } else if i == 6 {
            Action::Delete
        } else if i == 7 {
            Action::ForwardDelete
        } else if i == 8 {
            Action::ArrowUp
        } else if i == 9 {
            Action::ArrowDown
        } else if i == 10 {
            Action::ArrowLeft
        } else if i == 11 {
            Action::ArrowRight
        } else if i == 12 {
            Action::Home
        } else if i == 13 {
            Action::End
        } else if i == 14 {
            Action::PageUp
        } else if i == 15 {
            Action::PageDown
        } else if i == 16 {
            Action::MissionControl
        } else if i == 17 {
            Action::AppSwitcher
        } else if i == 18 {
            Action::ContextMenu
        } else {
            Action::ShowDesktop
        }
    }

    pub fn id(self) -> (r: &'static str)
        ensures
            r@ == action_id(self),
    {
        match self {
            Action::Native => "native",
            Action::Disabled => "disabled",
            Action::Escape => "escape",
            Action::Return => "return",
            Action::Tab => "tab",
            Action::Space => "space",
            Action::Delete => "delete",
            Action::ForwardDelete => "forward_delete",
            Action::ArrowUp => "arrow_up",
            Action::ArrowDown => "arrow_down",
            Action::ArrowLeft => "arrow_left",
            Action::ArrowRight => "arrow_right",
            Action::Home => "home",
            Action::End => "end",
            Action::PageUp => "page_up",
            Action::PageDown => "page_down",
            Action::MissionControl => "mission_control",
            Action::AppSwitcher => "app_switcher",
            Action::ContextMenu => "context_menu",
            Action::ShowDesktop => "show_desktop",
        }
    }

    /// The action whose id is `id`, if any.
    pub fn from_id(id: &str) -> (r: Option<Action>)
        ensures
            match r {
                Some(a) => action_id(a) == id@,
                None => forall|a: Action| action_id(a) != id@,
            },
    {
        let mut i: usize = 0;
        while i < 20
            invariant
                i <= 20,
                forall|j: int| 0 <= j < i ==> action_id(#[trigger] action_at(j)) != id@,
            decreases 20 - i,
        {
            let a = Action::at(i);
            if str_equal(a.id(), id) {
                return Some(a);
            }
            i = i + 1;
        }
        assert forall|a: Action| action_id(a) != id@ by {
            lemma_action_index(a);
            assert(action_id(action_at(action_index(a))) != id@);
        }
        None
    }

    pub fn label(self) -> (r: &'static str)
        ensures
            r@ == action_label(self),
    {
        match self {
            Action::Native => "保持原生",
            Action::Disabled => "禁用",
            Action::Escape => "Escape",
            Action::Return => "Return",
            Action::Tab => "Tab",
            Action::Space => "空格",
            Action::Delete => "Delete（退格）",
            Action::ForwardDelete => "向前删除",
            Action::ArrowUp => "方向上",
            Action::ArrowDown => "方向下",
            Action::ArrowLeft => "方向左",
            Action::ArrowRight => "方向右",
            Action::Home => "Home",
            Action::End => "End",
            Action::PageUp => "Page Up",
            Action::PageDown => "Page Down",
            Action::MissionControl => "调度中心",
            Action::AppSwitcher => "切换应用",
            Action::ContextMenu => "上下文菜单",
            Action::ShowDesktop => "显示桌面",
        }
    }

    /// The keyboard injection this action resolves to.
    pub fn injection(self) -> (r: Option<Injection>)
        ensures
            r == injection_of(self),
    {
        let key = |keycode: u16, mods: Mods| -> (r: Option<Injection>)
            ensures
                r == Some(Injection { keycode, mods }),
            { Some(Injection { keycode, mods }) };
        match self {
            Action::Native | Action::Disabled => None,
            Action::Escape => key(53, Mods::none()),
            Action::Return => key(36, Mods::none()),
            Action::Tab => key(48, Mods::none()),
            Action::Space => key(49, Mods::none()),
            Action::Delete => key(51, Mods::none()),
            Action::ForwardDelete => key(117, Mods::none()),
            Action::ArrowUp => key(126, Mods::none()),
            Action::ArrowDown => key(125, Mods::none()),
            Action::ArrowLeft => key(123, Mods::none()),
            Action::ArrowRight => key(124, Mods::none()),
            Action::Home => key(115, Mods::none()),
            Action::End => key(119, Mods::none()),
            Action::PageUp => key(116, Mods::none()),
            Action::PageDown => key(121, Mods::none()),
            Action::MissionControl => key(126, Mods::control()),
            Action::AppSwitcher => key(48, Mods::command()),
            Action::ContextMenu => key(109, Mods::shift()),
            Action::ShowDesktop => key(103, Mods::fn_key()),
        }
    }
}


/// The runtime treatment of one button.
#[derive(Debug, Clone, Copy, PartialEq, Eq, Structural)]
pub enum Disposition {
    /// Let the native behaviour through; the reader does not touch this key.
    Passthrough,
    /// Intercept the native behaviour and inject nothing (disabled).
    Suppress,
    /// Intercept the native behaviour (if any) and inject this key instead.
    Remap(Injection),
}

/// The runtime treatment of button `b` under the mapping `m`: identity
/// mappings fold into passthrough, so nothing is intercepted needlessly.
pub open spec fn disposition_of(m: Seq<Action>, b: RemoteButton) -> Disposition {
    let a = m[button_index(b)];
    if a == Action::Native {
        Disposition::Passthrough
    } else if a == Action::Disabled {
        if native_of(b) is None {
            Disposition::Passthrough
        } else {
            Disposition::Suppress
        }
    } else {
        let i = injection_of(a)->0;
        if native_of(b) == Some(i) {
            Disposition::Passthrough
        } else {
            Disposition::Remap(i)
        }
    }
}

/// The factory mapping, in [`RemoteButton::ALL`] order: avoid TV's backtick and
/// Power's shutdown dialog, bring Back to life, make the rest sensible.
pub open spec fn default_actions() -> Seq<Action> {
    seq![
        Action::Escape,
        Action::ArrowUp,
        Action::ArrowDown,
        Action::ArrowLeft,
        Action::ArrowRight,
        Action::Return,
        Action::Delete,
        Action::MissionControl,
        Action::ContextMenu,
        Action::AppSwitcher,
        Action::Native,
        Action::Native,
    ]
}

/// The buttons among the first `n` of [`RemoteButton::ALL`] that are not
/// passthrough under `m`, in that order.
pub open spec fn managed_upto(m: Seq<Action>, n: int) -> Seq<RemoteButton>
    decreases n,
{
    if n <= 0 {
        Seq::empty()
    } else {
        let b = button_at(n - 1);
        let prev = managed_upto(m, n - 1);
        if disposition_of(m, b) != Disposition::Passthrough {
            prev.push(b)
        } else {
            prev
        }
    }
}

/// A complete button mapping. Its view has one action per button, indexed by
/// position in [`RemoteButton::ALL`].
#[derive(Debug, Clone)]
pub struct KeyMap {
    actions: Vec<Action>,
}

impl View for KeyMap {
    type V = Seq<Action>;

    closed spec fn view(&self) -> Seq<Action> {
        Seq::new(
            12,
            |i: int|
                if i < self.actions@.len() {
                    self.actions@[i]
                } else {
                    Action::Native
                },
        )
    }
}

impl KeyMap {
    /// The factory defaults.
    pub fn with_defaults() -> (r: KeyMap)
        ensures
            r@ == default_actions(),
    {
        let r = KeyMap {
            actions: vec![
                Action::Escape,
                Action::ArrowUp,
                Action::ArrowDown,
                Action::ArrowLeft,
                Action::ArrowRight,
                Action::Return,
                Action::Delete,
                Action::MissionControl,
                Action::ContextMenu,
                Action::AppSwitcher,
                Action::Native,
                Action::Native,
            ],
        };
        assert(r@ =~= default_actions());
        r
    }

    /// A mapping has one action per button.
    pub proof fn lemma_len(&self)
        ensures
            self@.len() == 12,
    {
    }

    /// An exact copy of this mapping.
    pub fn copy(&self) -> (r: KeyMap)
        ensures
            r@ == self@,
    {
        let mut actions: Vec<Action> = Vec::new();
        let mut i: usize = 0;
        while i < 12
            invariant
                i <= 12,
                actions@.len() == i,
                forall|j: int| 0 <= j < i ==> actions@[j] == #[trigger] self@[j],
            decreases 12 - i,
        {
            actions.push(self.action(RemoteButton::at(i)));
            i = i + 1;
        }
        let r = KeyMap { actions };
        assert(r@ =~= self@);
        r
    }

    pub fn action(&self, button: RemoteButton) -> (r: Action)
        ensures
            r == self@[button_index(button)],
    {
        let i = button.index();
        if i < self.actions.len() {
            self.actions[i]
        } else {
            Action::Native
        }
    }

    pub fn set(&mut self, button: RemoteButton, action: Action)
        ensures
            final(self)@ == old(self)@.update(button_index(button), action),
            final(self)@[button_index(button)] == action,
            forall|b: RemoteButton|
                b != button ==> #[trigger] final(self)@[button_index(b)] == old(self)@[button_index(b)],
    {
        proof {
            lemma_button_index(button);
            assert forall|b: RemoteButton| b != button implies button_index(b) != button_index(button) by {
                lemma_button_index(b);
            }
        }
        let i = button.index();
        let ghost v0 = self@;
        while self.actions.len() <= i
            invariant
                self@ == v0,
                i < 12,
            decreases 12 - self.actions@.len(),
        {
            self.actions.push(Action::Native);
            assert(self@ =~= v0);
        }
        self.actions.set(i, action);
        assert(self@ =~= v0.update(i as int, action));
    }

    /// The runtime treatment of a button.
    pub fn disposition(&self, button: RemoteButton) -> (r: Disposition)
        ensures
            r == disposition_of(self@, button),
    {
        let native = button.native();
        match self.action(button) {
            Action::Native => Disposition::Passthrough,
            Action::Disabled => match native {
                None => Disposition::Passthrough,
                Some(_) => Disposition::Suppress,
            },
            action => {
                let injection = match action.injection() {
                    Some(i) => i,
                    None => {
                        assert(false);
                        Injection { keycode: 0, mods: Mods(0) }
                    },
                };
                let same = match native {
                    Some(n) => n.keycode == injection.keycode && n.mods.0 == injection.mods.0,
                    None => false,
                };
                if same {
                    Disposition::Passthrough
                } else {
                    Disposition::Remap(injection)
                }
            },
        }
    }

    /// The buttons the reader must intervene on (intercept or inject), in
    /// [`RemoteButton::ALL`] order.
    pub fn managed_buttons(&self) -> (r: Vec<RemoteButton>)
        ensures
            r@ == managed_upto(self@, 12),
    {
        let mut r: Vec<RemoteButton> = Vec::new();
        let mut i: usize = 0;
        while i < 12
            invariant
                i <= 12,
                r@ == managed_upto(self@, i as int),
            decreases 12 - i,
        {
            let b = RemoteButton::at(i);
            if self.disposition(b) != Disposition::Passthrough {
                r.push(b);
            }
            i = i + 1;
        }
        r
    }
}

impl Default for KeyMap {
    fn default() -> (r: KeyMap)
        ensures
            r@ == default_actions(),
    {
        KeyMap::with_defaults()
    }
}

// ---------------------------------------------------------------------------
// Per-application layers
// ---------------------------------------------------------------------------

/// The overrides of one application: only the keys that differ from the global
/// mapping are stored, so keys it does not cover follow the global mapping.
pub struct AppProfileView {
    pub bundle_id: Seq<char>,
    pub name: Seq<char>,
    pub enabled: bool,
    /// One optional override per button, indexed by position in [`RemoteButton::ALL`].
    pub overrides: Seq<Option<Action>>,
}

/// One application's override layer.
#[derive(Debug, Clone, PartialEq, Eq)]
pub struct AppProfile {
    /// macOS bundle identifier, such as `com.apple.Safari`; the unique key.
    pub bundle_id: String,
    /// Display name only; matching looks at `bundle_id` alone.
    pub name: String,
    /// When off, the whole layer is bypassed but its overrides are kept.
    pub enabled: bool,
    overrides: Vec<Option<Action>>,
}

pub open spec fn no_overrides() -> Seq<Option<Action>> {
    Seq::new(12, |i: int| None)
}

/// The overrides among the first `n` buttons, as (button, action) pairs in
/// [`RemoteButton::ALL`] order.
pub open spec fn entries_upto(ov: Seq<Option<Action>>, n: int) -> Seq<(RemoteButton, Action)>
    decreases n,
{
    if n <= 0 {
        Seq::empty()
    } else {
        let prev = entries_upto(ov, n - 1);
        match ov[n - 1] {
            Some(a) => prev.push((button_at(n - 1), a)),
            None => prev,
        }
    }
}

impl View for AppProfile {
    type V = AppProfileView;

    closed spec fn view(&self) -> AppProfileView {
        AppProfileView {
            bundle_id: self.bundle_id@,
            name: self.name@,
            enabled: self.enabled,
            overrides: Seq::new(
                12,
                |i: int|
                    if i < self.overrides@.len() {
                        self.overrides@[i]
                    } else {
                        None
                    },
            ),
        }
    }
}

impl AppProfile {
    /// A new, enabled layer without overrides.
    pub fn new(bundle_id: &str, name: &str) -> (r: AppProfile)
        ensures
            r@ == (AppProfileView {
                bundle_id: bundle_id@,
                name: name@,
                enabled: true,
                overrides: no_overrides(),
            }),
    {
        let r = AppProfile {
            bundle_id: bundle_id.to_string(),
            name: name.to_string(),
            enabled: true,
            overrides: Vec::new(),
        };
        assert(r@.overrides =~= no_overrides());
        r
    }

    pub fn get(&self, button: RemoteButton) -> (r: Option<Action>)
        ensures
            r == self@.overrides[button_index(button)],
    {
        let i = button.index();
        if i < self.overrides.len() {
            self.overrides[i]
        } else {
            None
        }
    }

    fn put(&mut self, button: RemoteButton, value: Option<Action>)
        ensures
            final(self)@ == (AppProfileView {
                overrides: old(self)@.overrides.update(button_index(button), value),
                ..old(self)@
            }),
    {
        let i = button.index();
        let ghost v0 = self@;
        while self.overrides.len() <= i
            invariant
                self@ == v0,
                i < 12,
            decreases 12 - self.overrides@.len(),
        {
            self.overrides.push(None);
            assert(self@.overrides =~= v0.overrides);
        }
        self.overrides.set(i, value);
        assert(self@.overrides =~= v0.overrides.update(i as int, value));
    }

    pub fn set(&mut self, button: RemoteButton, action: Action)
        ensures
            final(self)@ == (AppProfileView {
                overrides: old(self)@.overrides.update(button_index(button), Some(action)),
                ..old(self)@
            }),
            final(self)@.overrides[button_index(button)] == Some(action),
            forall|b: RemoteButton|
                b != button ==> #[trigger] final(self)@.overrides[button_index(b)] == old(self)@.overrides[button_index(b)],
    {
        proof {
            lemma_button_index(button);
            assert forall|b: RemoteButton| b != button implies button_index(b) != button_index(button) by {
                lemma_button_index(b);
            }
        }
        self.put(button, Some(action));
    }

    /// Turns the whole layer on or off; its overrides are kept either way.
    pub fn set_enabled(&mut self, enabled: bool)
        ensures
            final(self)@ == (AppProfileView { enabled, ..old(self)@ }),
    {
        self.enabled = enabled;
    }

    /// Drops the override, so the key falls back to the global mapping.
    pub fn clear(&mut self, button: RemoteButton)
        ensures
            final(self)@ == (AppProfileView {
                overrides: old(self)@.overrides.update(button_index(button), None),
                ..old(self)@
            }),
            final(self)@.overrides[button_index(button)] is None,
            forall|b: RemoteButton|
                b != button ==> #[trigger] final(self)@.overrides[button_index(b)] == old(self)@.overrides[button_index(b)],
    {
        proof {
            lemma_button_index(button);
            assert forall|b: RemoteButton| b != button implies button_index(b) != button_index(button) by {
                lemma_button_index(b);
            }
        }
        self.put(button, None);
    }

    pub fn clear_all(&mut self)
        ensures
            final(self)@ == (AppProfileView { overrides: no_overrides(), ..old(self)@ }),
    {
        self.overrides.clear();
        assert(self@.overrides =~= no_overrides());
    }

    /// The overrides in [`RemoteButton::ALL`] order.
    /// A layer has one optional override per button.
    pub proof fn lemma_len(&self)
        ensures
            self@.overrides.len() == 12,
    {
    }

    pub fn entries(&self) -> (r: Vec<(RemoteButton, Action)>)
        ensures
            r@ == entries_upto(self@.overrides, 12),
    {
        let mut r: Vec<(RemoteButton, Action)> = Vec::new();
        let mut i: usize = 0;
        while i < 12
            invariant
                i <= 12,
                r@ == entries_upto(self@.overrides, i as int),
            decreases 12 - i,
        {
            let b = RemoteButton::at(i);
            match self.get(b) {
                Some(a) => r.push((b, a)),
                None => {},
            }
            i = i + 1;
        }
        r
    }

    pub fn is_empty(&self) -> (r: bool)
        ensures
            r == (self@.overrides == no_overrides()),
    {
        let mut i: usize = 0;
        while i < 12
            invariant
                i <= 12,
                forall|j: int| 0 <= j < i ==> self@.overrides[j] is None,
            decreases 12 - i,
        {
            if self.get(RemoteButton::at(i)).is_some() {
                assert(self@.overrides[i as int] != no_overrides()[i as int]);
                return false;
            }
            i = i + 1;
        }
        assert(self@.overrides =~= no_overrides());
        true
    }
}

/// How a key of one application differs from the global mapping.
#[derive(Debug, Clone, Copy, PartialEq, Eq, Structural)]
pub struct Diff {
    pub button: RemoteButton,
    /// The action in the global mapping.
    pub base: Action,
    /// The action under the application's override.
    pub app: Action,
}

/// The real differences among the first `n` buttons: overrides whose action
/// differs from the global one, in [`RemoteButton::ALL`] order.
pub open spec fn diffs_upto(base: Seq<Action>, ov: Seq<Option<Action>>, n: int) -> Seq<Diff>
    decreases n,
{
    if n <= 0 {
        Seq::empty()
    } else {
        let prev = diffs_upto(base, ov, n - 1);
        match ov[n - 1] {
            Some(a) => if a != base[n - 1] {
                prev.push(Diff { button: button_at(n - 1), base: base[n - 1], app: a })
            } else {
                prev
            },
            None => prev,
        }
    }
}

/// The global mapping plus the per-application layers.
pub struct AppKeyMapsView {
    pub base: Seq<Action>,
    pub profiles: Seq<AppProfileView>,
}

/// Keeps the layers of every application but `id`.
pub open spec fn other_app(id: Seq<char>) -> spec_fn(AppProfileView) -> bool {
    |p: AppProfileView| p.bundle_id != id
}

pub open spec fn profiles_view(ps: Seq<AppProfile>) -> Seq<AppProfileView> {
    ps.map_values(|p: AppProfile| p@)
}

/// `i` is the first layer whose bundle id is `id`.
pub open spec fn first_match(ps: Seq<AppProfileView>, id: Seq<char>, i: int) -> bool {
    &&& 0 <= i < ps.len()
    &&& ps[i].bundle_id == id
    &&& forall|j: int| 0 <= j < i ==> (#[trigger] ps[j]).bundle_id != id
}

/// The position of the first layer for bundle id `id`, if there is one.
pub open spec fn find_profile(ps: Seq<AppProfileView>, id: Seq<char>) -> Option<int> {
    if exists|i: int| first_match(ps, id, i) {
        Some(choose|i: int| first_match(ps, id, i))
    } else {
        None
    }
}

pub proof fn lemma_first_match_unique(ps: Seq<AppProfileView>, id: Seq<char>, i: int)
    requires
        first_match(ps, id, i),
    ensures
        find_profile(ps, id) == Some(i),
{
    let k = choose|k: int| first_match(ps, id, k);
    assert(first_match(ps, id, k));
    if k < i {
        assert(ps[k].bundle_id != id);
    } else if k > i {
        assert(ps[i].bundle_id != id);
    }
}

pub proof fn lemma_no_match(ps: Seq<AppProfileView>, id: Seq<char>)
    requires
        forall|j: int| 0 <= j < ps.len() ==> (#[trigger] ps[j]).bundle_id != id,
    ensures
        find_profile(ps, id) is None,
{
}

/// The global mapping overlaid with a layer's overrides.
pub open spec fn overlay(base: Seq<Action>, ov: Seq<Option<Action>>) -> Seq<Action> {
    Seq::new(
        12,
        |k: int|
            match ov[k] {
                Some(a) => a,
                None => base[k],
            },
    )
}

/// The effective mapping for an application: the global mapping, overlaid with
/// the application's layer when it has one and the layer is enabled.
pub open spec fn resolve_spec(m: AppKeyMapsView, id: Option<Seq<char>>) -> Seq<Action> {
    match id {
        None => m.base,
        Some(s) => match find_profile(m.profiles, s) {
            None => m.base,
            Some(i) => if m.profiles[i].enabled {
                overlay(m.base, m.profiles[i].overrides)
            } else {
                m.base
            },
        },
    }
}

pub open spec fn diff_spec(m: AppKeyMapsView, id: Seq<char>) -> Seq<Diff> {
    match find_profile(m.profiles, id) {
        None => Seq::empty(),
        Some(i) => diffs_upto(m.base, m.profiles[i].overrides, 12),
    }
}

/// The global mapping plus the layers keyed by bundle id. At run time a
/// change of frontmost application resolves to a full [`KeyMap`] that is
/// hot-swapped into the HID layer.
pub struct AppKeyMaps {
    base: KeyMap,
    /// Kept in the order the user added them.
    profiles: Vec<AppProfile>,
}

impl View for AppKeyMaps {
    type V = AppKeyMapsView;

    closed spec fn view(&self) -> AppKeyMapsView {
        AppKeyMapsView { base: self.base@, profiles: profiles_view(self.profiles@) }
    }
}

impl AppKeyMaps {
    pub fn new(base: KeyMap) -> (r: AppKeyMaps)
        ensures
            r@ == (AppKeyMapsView { base: base@, profiles: Seq::empty() }),
    {
        let r = AppKeyMaps { base, profiles: Vec::new() };
        assert(r@.profiles =~= Seq::<AppProfileView>::empty());
        r
    }

    pub fn base(&self) -> (r: &KeyMap)
        ensures
            r@ == self@.base,
    {
        &self.base
    }

    pub fn set_base(&mut self, base: KeyMap)
        ensures
            final(self)@ == (AppKeyMapsView { base: base@, ..old(self)@ }),
    {
        self.base = base;
    }

    pub fn profiles(&self) -> (r: &[AppProfile])
        ensures
            profiles_view(r@) == self@.profiles,
    {
        self.profiles.as_slice()
    }

    fn find(&self, bundle_id: &str) -> (r: Option<usize>)
        ensures
            match r {
                Some(i) => find_profile(self@.profiles, bundle_id@) == Some(i as int)
                    && i < self.profiles@.len(),
                None => find_profile(self@.profiles, bundle_id@) is None,
            },
    {
        let ghost ps = self@.profiles;
        let mut i: usize = 0;
        while i < self.profiles.len()
            invariant
                ps == self@.profiles,
                ps.len() == self.profiles@.len(),
                i <= ps.len(),
                forall|j: int| 0 <= j < i ==> (#[trigger] ps[j]).bundle_id != bundle_id@,
            decreases ps.len() - i,
        {
            assert(ps[i as int] == self.profiles@[i as int]@);
            if str_equal(self.profiles[i].bundle_id.as_str(), bundle_id) {
                proof {
                    lemma_first_match_unique(ps, bundle_id@, i as int);
                }
                return Some(i);
            }
            i = i + 1;
        }
        None
    }

    pub fn profile(&self, bundle_id: &str) -> (r: Option<&AppProfile>)
        ensures
            match r {
                Some(p) => exists|i: int|
                    find_profile(self@.profiles, bundle_id@) == Some(i) && p@ == self@.profiles[i],
                None => find_profile(self@.profiles, bundle_id@) is None,
            },
    {
        match self.find(bundle_id) {
            Some(i) => {
                let p = &self.profiles[i];
                assert(p@ == self@.profiles[i as int]);
                Some(p)
            },
            None => None,
        }
    }

    /// The layer for `bundle_id`, created (enabled, empty, named `name`) if
    /// there is none yet.
    pub fn profile_mut(&mut self, bundle_id: &str, name: &str) -> (r: &mut AppProfile)
        ensures
            match find_profile(old(self)@.profiles, bundle_id@) {
                Some(i) => r@ == old(self)@.profiles[i] && final(self)@ == (AppKeyMapsView {
                    profiles: old(self)@.profiles.update(i, final(r)@),
                    ..old(self)@
                }),
                None => r@ == (AppProfileView {
                    bundle_id: bundle_id@,
                    name: name@,
                    enabled: true,
                    overrides: no_overrides(),
                }) && final(self)@ == (AppKeyMapsView {
                    profiles: old(self)@.profiles.push(final(r)@),
                    ..old(self)@
                }),
            },
    {
        match self.find(bundle_id) {
            Some(i) => {
                let ghost ps = self.profiles@;
                let r = &mut self.profiles[i];
                proof {
                    assert(profiles_view(ps.update(i as int, *final(r))) =~= profiles_view(
                        ps,
                    ).update(i as int, final(r)@));
                }
                r
            },
            None => {
                self.profiles.push(AppProfile::new(bundle_id, name));
                let n = self.profiles.len();
                let ghost ps = self.profiles@;
                let r = &mut self.profiles[n - 1];
                proof {
                    assert(profiles_view(ps.update(n - 1, *final(r))) =~= profiles_view(
                        old(self).profiles@,
                    ).push(final(r)@));
                }
                r
            },
        }
    }

    /// Drops every layer for `bundle_id`.
    pub fn remove(&mut self, bundle_id: &str)
        ensures
            final(self)@ == (AppKeyMapsView {
                profiles: old(self)@.profiles.filter(other_app(bundle_id@)),
                ..old(self)@
            }),
    {
        let ghost ps = self@.profiles;
        let mut rest: Vec<AppProfile> = Vec::new();
        std::mem::swap(&mut rest, &mut self.profiles);
        let mut kept: Vec<AppProfile> = Vec::new();
        let n = rest.len();
        let mut i: usize = 0;
        // Walk the layers front to back, keeping those for other applications.
        while i < n
            invariant
                n == ps.len(),
                i <= n,
                rest@.len() == n - i,
                profiles_view(rest@) == ps.skip(i as int),
                profiles_view(kept@) == ps.take(i as int).filter(other_app(bundle_id@)),
                self.base@ == old(self).base@,
            decreases n - i,
        {
            let ghost r0 = rest@;
            let p = rest.remove(0);
            proof {
                assert(ps.take(i + 1).drop_last() =~= ps.take(i as int));
                reveal(Seq::filter);
                assert(ps.take(i + 1).last() == ps[i as int]);
                assert(profiles_view(r0)[0] == r0[0]@);
                assert(ps.skip(i as int)[0] == ps[i as int]);
                assert(p@ == ps[i as int]);
                assert(rest@ =~= r0.skip(1));
                assert(profiles_view(rest@) =~= profiles_view(r0).skip(1));
                assert(ps.skip(i as int).skip(1) =~= ps.skip(i + 1));
            }
            if !str_equal(p.bundle_id.as_str(), bundle_id) {
                kept.push(p);
                proof {
                    assert(profiles_view(kept@) =~= ps.take(i as int).filter(
                        other_app(bundle_id@),
                    ).push(ps[i as int]));
                }
            }
            i = i + 1;
        }
        assert(ps.take(n as int) =~= ps);
        self.profiles = kept;
    }

    /// The full mapping in effect for `bundle_id`: the global mapping overlaid
    /// with the application's layer if it exists and is enabled.
    pub fn resolve(&self, bundle_id: Option<&str>) -> (r: KeyMap)
        ensures
            r@ == resolve_spec(
                self@,
                match bundle_id {
                    Some(s) => Some(s@),
                    None => None,
                },
            ),
    {
        let id = match bundle_id {
            Some(id) => id,
            None => return self.base.copy(),
        };
        let i = match self.find(id) {
            Some(i) => i,
            None => return self.base.copy(),
        };
        let profile = &self.profiles[i];
        assert(profile@ == self@.profiles[i as int]);
        if !profile.enabled {
            return self.base.copy();
        }
        let mut map = self.base.copy();
        let mut k: usize = 0;
        while k < 12
            invariant
                k <= 12,
                profile@ == self@.profiles[i as int],
                map@.len() == 12,
                forall|j: int| 0 <= j < k ==> #[trigger] map@[j] == overlay(
                    self@.base,
                    profile@.overrides,
                )[j],
                forall|j: int| k <= j < 12 ==> #[trigger] map@[j] == self@.base[j],
            decreases 12 - k,
        {
            let b = RemoteButton::at(k);
            match profile.get(b) {
                Some(a) => map.set(b, a),
                None => {},
            }
            k = k + 1;
        }
        assert(map@ =~= overlay(self@.base, profile@.overrides));
        map
    }

    /// The application's real differences from the global mapping. Overrides
    /// equal to the global action are not listed: they change nothing.
    pub fn diff(&self, bundle_id: &str) -> (r: Vec<Diff>)
        ensures
            r@ == diff_spec(self@, bundle_id@),
    {
        let i = match self.find(bundle_id) {
            Some(i) => i,
            None => return Vec::new(),
        };
        let profile = &self.profiles[i];
        assert(profile@ == self@.profiles[i as int]);
        let mut r: Vec<Diff> = Vec::new();
        let mut k: usize = 0;
        while k < 12
            invariant
                k <= 12,
                profile@ == self@.profiles[i as int],
                r@ == diffs_upto(self@.base, profile@.overrides, k as int),
            decreases 12 - k,
        {
            let b = RemoteButton::at(k);
            match profile.get(b) {
                Some(app) => {
                    let base = self.base.action(b);
                    if app != base {
                        r.push(Diff { button: b, base, app });
                    }
                },
                None => {},
            }
            k = k + 1;
        }
        r
    }
}

impl Default for AppKeyMaps {
    fn default() -> (r: AppKeyMaps)
        ensures
            r@ == (AppKeyMapsView { base: default_actions(), profiles: Seq::empty() }),
    {
        AppKeyMaps::new(KeyMap::with_defaults())
    }
}

// ---------------------------------------------------------------------------
// HID input reports
// ---------------------------------------------------------------------------

/// The non-zero little-endian u16 usages among the first `n` byte pairs of `b`.
pub open spec fn usages_upto(b: Seq<u8>, n: int) -> Seq<u16>
    decreases n,
{
    if n <= 0 {
        Seq::empty()
    } else {
        let prev = usages_upto(b, n - 1);
        let u = (b[2 * (n - 1)] as int + 256 * b[2 * (n - 1) + 1] as int) as u16;
        if u != 0 {
            prev.push(u)
        } else {
            prev
        }
    }
}

/// The report bytes after removing a leading report id: a 7-byte report that
/// starts with the report id (1) carries it as a prefix.
pub open spec fn report_payload(data: Seq<u8>) -> Seq<u8> {
    if data.len() == 7 && data[0] == 1 {
        data.skip(1)
    } else {
        data
    }
}

pub open spec fn parse_report_spec(report_id: u32, data: Seq<u8>) -> Option<Seq<u16>> {
    let bytes = report_payload(data);
    if report_id != 1 || bytes.len() == 0 || bytes.len() % 2 != 0 {
        None
    } else {
        Some(usages_upto(bytes, (bytes.len() / 2) as int))
    }
}

/// The keyboard-page usages currently pressed, from one HID input report of
/// the remote: report id 1, an optional report-id prefix on 7-byte reports,
/// then little-endian u16 pairs where every non-zero pair is a pressed usage.
pub fn parse_report_usages(report_id: u32, data: &[u8]) -> (r: Option<Vec<u16>>)
    ensures
        match r {
            Some(v) => parse_report_spec(report_id, data@) == Some(v@),
            None => parse_report_spec(report_id, data@) is None,
        },
{
    if report_id != 1 {
        return None;
    }
    let start: usize = if data.len() == 7 && data[0] == 1 { 1 } else { 0 };
    let ghost bytes = report_payload(data@);
    assert(bytes =~= data@.skip(start as int));
    let len = data.len() - start;
    if len == 0 || len % 2 != 0 {
        return None;
    }
    let mut out: Vec<u16> = Vec::new();
    let mut k: usize = 0;
    while k < len / 2
        invariant
            bytes =~= data@.skip(start as int),
            len == bytes.len(),
            start + len == data@.len(),
            start + len == data.len(),
            len % 2 == 0,
            k <= len / 2,
            out@ == usages_upto(bytes, k as int),
        decreases len / 2 - k,
    {
        assert(len == 2 * (len / 2));
        assert(2 * k + 1 < len);
        assert(start + 2 * k + 1 < data@.len());
        let twice: usize = k + k;
        let idx: usize = start + twice;
        let lo = data[idx];
        let hi = data[idx + 1];
        let usage: u16 = (lo as u16) + 256 * (hi as u16);
        if usage != 0 {
            out.push(usage);
        }
        k = k + 1;
    }
    Some(out)
}


// ---------------------------------------------------------------------------
// Laws
// ---------------------------------------------------------------------------

/// Distinct buttons have distinct string ids, so `RemoteButton::from_id`
/// gives back the button whose id it was handed.
pub proof fn law_button_ids_distinct(b1: RemoteButton, b2: RemoteButton)
    ensures
        button_id(b1) == button_id(b2) ==> b1 == b2,
{
    reveal_strlit("power");
    reveal_strlit("up");
    reveal_strlit("down");
    reveal_strlit("left");
    reveal_strlit("right");
    reveal_strlit("ok");
    reveal_strlit("back");
    reveal_strlit("home");
    reveal_strlit("menu");
    reveal_strlit("tv");
    reveal_strlit("volume_up");
    reveal_strlit("volume_down");
    if button_id(b1) == button_id(b2) {
        assert(button_id(b1).len() == button_id(b2).len());
        assert(button_id(b1)[0] == button_id(b2)[0]);
        assert(button_id(b1)[1] == button_id(b2)[1]);
        if button_id(b1).len() > 7 {
            assert(button_id(b1)[7] == button_id(b2)[7]);
        }
    }
}

/// Distinct actions have distinct string ids, so `Action::from_id` gives back
/// the action whose id it was handed.
pub proof fn law_action_ids_distinct(a1: Action, a2: Action)
    ensures
        action_id(a1) == action_id(a2) ==> a1 == a2,
{
    reveal_strlit("native");
    reveal_strlit("disabled");
    reveal_strlit("escape");
    reveal_strlit("return");
    reveal_strlit("tab");
    reveal_strlit("space");
    reveal_strlit("delete");
    reveal_strlit("forward_delete");
    reveal_strlit("arrow_up");
    reveal_strlit("arrow_down");
    reveal_strlit("arrow_left");
    reveal_strlit("arrow_right");
    reveal_strlit("home");
    reveal_strlit("end");
    reveal_strlit("page_up");
    reveal_strlit("page_down");
    reveal_strlit("mission_control");
    reveal_strlit("app_switcher");
    reveal_strlit("context_menu");
    reveal_strlit("show_desktop");
    if action_id(a1) == action_id(a2) {
        let x = action_id(a1);
        let y = action_id(a2);
        assert(x.len() == y.len());
        assert(x[0] == y[0]);
        assert(x[1] == y[1]);
        assert(x[2] == y[2]);
        if x.len() > 6 {
            assert(x[6] == y[6]);
            assert(x[7] == y[7]);
        }
    }
}

/// Distinct buttons report distinct HID usages, so `RemoteButton::from_hid_usage`
/// inverts `RemoteButton::hid_usage`.
pub proof fn law_hid_usages_distinct(b1: RemoteButton, b2: RemoteButton)
    ensures
        hid_usage_of(b1) == hid_usage_of(b2) ==> b1 == b2,
{
}

/// Identity mappings pass through: a button mapped to the very keystroke it
/// natively produces is not intercepted, and disabling a button that has no
/// native behaviour leaves it alone as well.
pub proof fn law_identity_mapping_passes_through(m: Seq<Action>, b: RemoteButton)
    requires
        m.len() == 12,
        injection_of(m[button_index(b)]) == native_of(b) || m[button_index(b)] == Action::Native
            || (m[button_index(b)] == Action::Disabled && native_of(b) is None),
    ensures
        disposition_of(m, b) == Disposition::Passthrough,
{
}

/// A button is intercepted without injection only when it is disabled and
/// has a native behaviour to suppress; every other intercepted button injects
/// its action's keystroke.
pub proof fn law_disposition_cases(m: Seq<Action>, b: RemoteButton)
    ensures
        disposition_of(m, b) == Disposition::Suppress <==> (m[button_index(b)] == Action::Disabled
            && native_of(b) is Some),
        disposition_of(m, b) matches Disposition::Remap(i) ==> injection_of(m[button_index(b)])
            == Some(i) && native_of(b) != Some(i),
{
}

/// A button mapped to a keystroke passes through only when that keystroke is
/// exactly the one the button produces natively, key code and modifiers
/// alike; whenever the two differ (a modifier more is enough), the button is
/// remapped to the action's keystroke.
pub proof fn law_remap_unless_same_keystroke(m: Seq<Action>, b: RemoteButton, i: Injection)
    requires
        injection_of(m[button_index(b)]) == Some(i),
    ensures
        disposition_of(m, b) == Disposition::Passthrough <==> (native_of(b) matches Some(n)
            && n.keycode == i.keycode && n.mods.0 == i.mods.0),
        !(native_of(b) matches Some(n) && n.keycode == i.keycode && n.mods.0 == i.mods.0)
            ==> disposition_of(m, b) == Disposition::Remap(i),
        i.mods.0 != 0 ==> disposition_of(m, b) == Disposition::Remap(i),
{
}

/// Without a frontmost application, or without a layer for it, the effective
/// mapping is the global one.
pub proof fn law_resolve_falls_back_to_base(m: AppKeyMapsView, id: Option<Seq<char>>)
    requires
        id is None || find_profile(m.profiles, id->0) is None,
    ensures
        resolve_spec(m, id) == m.base,
{
}

/// A disabled layer is bypassed: the effective mapping is the global one,
/// while the layer's overrides are kept.
pub proof fn law_disabled_profile_is_bypassed(m: AppKeyMapsView, id: Seq<char>, i: int)
    requires
        find_profile(m.profiles, id) == Some(i),
        !m.profiles[i].enabled,
    ensures
        resolve_spec(m, Some(id)) == m.base,
{
}

/// Under an enabled layer each key takes the layer's override if it has one,
/// and otherwise follows the global mapping (so changes to the global mapping
/// flow through to every key the layer does not cover).
pub proof fn law_resolve_overlays_overrides(
    m: AppKeyMapsView,
    id: Seq<char>,
    i: int,
    b: RemoteButton,
)
    requires
        find_profile(m.profiles, id) == Some(i),
        m.profiles[i].enabled,
    ensures
        resolve_spec(m, Some(id))[button_index(b)] == match m.profiles[i].overrides[button_index(
            b,
        )] {
            Some(a) => a,
            None => m.base[button_index(b)],
        },
{
}

/// Clearing a layer's override returns that key to the global mapping.
pub proof fn law_clear_returns_key_to_base(
    m: AppKeyMapsView,
    id: Seq<char>,
    i: int,
    b: RemoteButton,
)
    requires
        find_profile(m.profiles, id) == Some(i),
        m.profiles[i].overrides.len() == 12,
    ensures
        ({
            let p = m.profiles[i];
            let cleared = AppProfileView {
                overrides: p.overrides.update(button_index(b), None),
                ..p
            };
            let m2 = AppKeyMapsView { profiles: m.profiles.update(i, cleared), ..m };
            resolve_spec(m2, Some(id))[button_index(b)] == m.base[button_index(b)]
        }),
{
    let p = m.profiles[i];
    let cleared = AppProfileView { overrides: p.overrides.update(button_index(b), None), ..p };
    let ps2 = m.profiles.update(i, cleared);
    assert forall|j: int| 0 <= j < i implies (#[trigger] ps2[j]).bundle_id != id by {
        assert(ps2[j] == m.profiles[j]);
    }
    assert(first_match(ps2, id, i));
    lemma_first_match_unique(ps2, id, i);
    lemma_button_index(b);
}

/// Every listed difference is real (the layer's action differs from the
/// global one) and names the global action correctly.
pub proof fn law_diff_lists_only_real_differences(
    base: Seq<Action>,
    ov: Seq<Option<Action>>,
    n: int,
    k: int,
)
    requires
        0 <= n <= 12,
        0 <= k < diffs_upto(base, ov, n).len(),
    ensures
        ({
            let d = diffs_upto(base, ov, n)[k];
            &&& d.base != d.app
            &&& d.base == base[button_index(d.button)]
            &&& ov[button_index(d.button)] == Some(d.app)
        }),
    decreases n,
{
    if n > 0 {
        let prev = diffs_upto(base, ov, n - 1);
        if k < prev.len() {
            law_diff_lists_only_real_differences(base, ov, n - 1, k);
        } else {
            lemma_button_at(n - 1);
        }
    }
}

/// Every real difference among the first `n` buttons is listed: an
/// override that differs from the global action appears, with the button,
/// the global action and the override.
pub proof fn lemma_diffs_upto_complete(base: Seq<Action>, ov: Seq<Option<Action>>, n: int, j: int)
    requires
        0 <= j < n <= 12,
        ov[j] matches Some(a) && a != base[j],
    ensures
        exists|k: int|
            0 <= k < diffs_upto(base, ov, n).len() && #[trigger] diffs_upto(base, ov, n)[k] == (Diff {
                button: button_at(j),
                base: base[j],
                app: ov[j]->0,
            }),
    decreases n,
{
    let prev = diffs_upto(base, ov, n - 1);
    if j == n - 1 {
        assert(diffs_upto(base, ov, n)[prev.len() as int] == (Diff {
            button: button_at(j),
            base: base[j],
            app: ov[j]->0,
        }));
    } else {
        lemma_diffs_upto_complete(base, ov, n - 1, j);
        let k = choose|k: int|
            0 <= k < prev.len() && #[trigger] prev[k] == (Diff {
                button: button_at(j),
                base: base[j],
                app: ov[j]->0,
            });
        assert(diffs_upto(base, ov, n)[k] == prev[k]);
    }
}

/// The difference listing of an application is complete: for every button
/// whose override in the application's layer differs from the global action,
/// a difference naming that button, the global action and the override is
/// listed.
pub proof fn law_diff_lists_every_real_difference(
    m: AppKeyMapsView,
    id: Seq<char>,
    i: int,
    b: RemoteButton,
    a: Action,
)
    requires
        find_profile(m.profiles, id) == Some(i),
        m.profiles[i].overrides[button_index(b)] == Some(a),
        a != m.base[button_index(b)],
    ensures
        exists|k: int|
            0 <= k < diff_spec(m, id).len() && #[trigger] diff_spec(m, id)[k] == (Diff {
                button: b,
                base: m.base[button_index(b)],
                app: a,
            }),
{
    lemma_button_index(b);
    let ov = m.profiles[i].overrides;
    lemma_diffs_upto_complete(m.base, ov, 12, button_index(b));
    let d = Diff { button: b, base: m.base[button_index(b)], app: a };
    let k = choose|k: int|
        0 <= k < diffs_upto(m.base, ov, 12).len() && #[trigger] diffs_upto(m.base, ov, 12)[k] == d;
    assert(diff_spec(m, id) == diffs_upto(m.base, ov, 12));
    assert(diff_spec(m, id)[k] == d);
}

/// Every usage a report yields is non-zero (zero pairs are empty slots).
pub proof fn law_report_usages_nonzero(b: Seq<u8>, n: int, k: int)
    requires
        0 <= k < usages_upto(b, n).len(),
    ensures
        usages_upto(b, n)[k] != 0,
    decreases n,
{
    if n > 0 {
        if k < usages_upto(b, n - 1).len() {
            law_report_usages_nonzero(b, n - 1, k);
        }
    }
}

proof fn lemma_entries_upto_empty(ov: Seq<Option<Action>>, n: int)
    requires
        0 <= n <= ov.len(),
    ensures
        entries_upto(ov, n).len() == 0 <==> forall|j: int| 0 <= j < n ==> (#[trigger] ov[j]) is None,
    decreases n,
{
    if n > 0 {
        lemma_entries_upto_empty(ov, n - 1);
        if entries_upto(ov, n).len() == 0 {
            assert(ov[n - 1] is None);
        }
    }
}

/// A layer lists no entries exactly when it overrides nothing.
pub proof fn law_no_entries_iff_empty(p: AppProfileView)
    requires
        p.overrides.len() == 12,
    ensures
        entries_upto(p.overrides, 12).len() == 0 <==> p.overrides == no_overrides(),
{
    lemma_entries_upto_empty(p.overrides, 12);
    if forall|j: int| 0 <= j < 12 ==> (#[trigger] p.overrides[j]) is None {
        assert(p.overrides =~= no_overrides());
    }
}

} // verus!
