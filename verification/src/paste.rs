//! Decisions taken while pasting into the window that had the focus: how
//! the keystrokes look, how long to wait for the focus, where to send the
//! paste when the keystrokes cannot be used, and the window style that keeps
//! our own window from taking the focus.

use vstd::prelude::*;

verus! {

/// Virtual-key code of the Ctrl key.
pub const VK_CONTROL: u16 = 0x11;
/// Virtual-key code of the V key.
pub const VK_V: u16 = 0x56;
/// Hardware scan code of the Ctrl key.
pub const SCAN_CONTROL: u16 = 0x1D;
/// Hardware scan code of the V key.
pub const SCAN_V: u16 = 0x2F;

/// Pause after writing the clipboard and before pasting, in milliseconds.
pub const SETTLE_MS: u64 = 60;
/// Pause before the keystrokes when the target already has the focus.
pub const DIRECT_KEY_DELAY_MS: u64 = 30;
/// Pause before the keystrokes when the focus had to be moved first.
pub const FOCUSED_KEY_DELAY_MS: u64 = 40;
/// How long to wait for the target to take the focus.
pub const FOCUS_WAIT_MS: u64 = 1500;
/// Interval between checks while waiting for the focus.
pub const FOCUS_POLL_MS: u64 = 20;

/// One keyboard event.
#[derive(Clone, Copy, Debug, PartialEq, Eq)]
pub struct KeyStroke {
    pub vk: u16,
    pub scan: u16,
    pub up: bool,
}

/// The four events of Ctrl+V: Ctrl down, V down, V up, Ctrl up.
pub open spec fn ctrl_v_spec() -> Seq<KeyStroke> {
    seq![
        KeyStroke { vk: VK_CONTROL, scan: SCAN_CONTROL, up: false },
        KeyStroke { vk: VK_V, scan: SCAN_V, up: false },
        KeyStroke { vk: VK_V, scan: SCAN_V, up: true },
        KeyStroke { vk: VK_CONTROL, scan: SCAN_CONTROL, up: true },
    ]
}

/// The keyboard events that paste with Ctrl+V.
pub fn ctrl_v_keys() -> (r: Vec<KeyStroke>)
    ensures
        r@ == ctrl_v_spec(),
{
    let mut v: Vec<KeyStroke> = Vec::new();
    v.push(KeyStroke { vk: VK_CONTROL, scan: SCAN_CONTROL, up: false });
    v.push(KeyStroke { vk: VK_V, scan: SCAN_V, up: false });
    v.push(KeyStroke { vk: VK_V, scan: SCAN_V, up: true });
    v.push(KeyStroke { vk: VK_CONTROL, scan: SCAN_CONTROL, up: true });
    assert(v@ =~= ctrl_v_spec());
    v
}

/// The window to paste into: the one remembered as last focused, unless
/// there is none or it is the null window.
pub fn usable_target(target: Option<usize>) -> (r: Option<usize>)
    ensures
        r == (match target {
            Some(t) => if t != 0 {
                Some(t)
            } else {
                None
            },
            None => None,
        }),
{
    match target {
        Some(t) => if t != 0 {
            Some(t)
        } else {
            None
        },
        None => None,
    }
}

/// How to paste once the clipboard is written and has settled.
#[derive(Clone, Copy, Debug, PartialEq, Eq)]
pub enum PasteRoute {
    /// The target still has the focus: type Ctrl+V after `DIRECT_KEY_DELAY_MS`.
    Direct,
    /// Another window has the focus: move it to the target first.
    Refocus,
}

/// Type directly when the target is the foreground window, else refocus it.
pub fn paste_route(target: usize, foreground: usize) -> (r: PasteRoute)
    ensures
        target == foreground ==> r == PasteRoute::Direct,
        target != foreground ==> r == PasteRoute::Refocus,
{
    if target == foreground {
        PasteRoute::Direct
    } else {
        PasteRoute::Refocus
    }
}

/// The next step while waiting for the paste target to take the focus.
#[derive(Clone, Copy, Debug, PartialEq, Eq)]
pub enum FocusWait {
    /// The target has the focus.
    Focused,
    /// Wait `FOCUS_POLL_MS` more, and ask for the focus again when asked to.
    Retry { set_again: bool },
    /// The wait is over without the target taking the focus.
    TimedOut,
}

/// One step of the wait for the focus: done when the target has it; after
/// `FOCUS_WAIT_MS`, given up; otherwise wait, asking again for the focus
/// when the last request was refused.
pub fn focus_wait_step(target_has_focus: bool, elapsed_ms: u64, request_ok: bool) -> (r: FocusWait)
    ensures
        target_has_focus ==> r == FocusWait::Focused,
        !target_has_focus && elapsed_ms >= FOCUS_WAIT_MS ==> r == FocusWait::TimedOut,
        !target_has_focus && elapsed_ms < FOCUS_WAIT_MS ==> r == (FocusWait::Retry {
            set_again: !request_ok,
        }),
{
    if target_has_focus {
        FocusWait::Focused
    } else if elapsed_ms < FOCUS_WAIT_MS {
        FocusWait::Retry { set_again: !request_ok }
    } else {
        FocusWait::TimedOut
    }
}

/// How to deliver the paste once the wait for the focus is over.
#[derive(Clone, Copy, Debug, PartialEq, Eq)]
pub enum PasteDelivery {
    /// Type Ctrl+V into the focused target.
    Keys,
    /// Post a paste message to this window.
    Message(usize),
}

/// Type Ctrl+V when the target took the focus; otherwise post the paste
/// message to the target thread's focused control, or to the target itself
/// when that thread has no focused control (`focus == 0`).
pub fn paste_delivery(target_has_focus: bool, focus: usize, target: usize) -> (r: PasteDelivery)
    ensures
        target_has_focus ==> r == PasteDelivery::Keys,
        !target_has_focus && focus != 0 ==> r == PasteDelivery::Message(focus),
        !target_has_focus && focus == 0 ==> r == PasteDelivery::Message(target),
{
    if target_has_focus {
        PasteDelivery::Keys
    } else if focus == 0 {
        PasteDelivery::Message(target)
    } else {
        PasteDelivery::Message(focus)
    }
}

/// Whether input must be attached to the target's thread to move the
/// focus: only when it runs on another thread than ours.
pub fn needs_input_attach(our_thread: u32, target_thread: u32) -> (r: bool)
    ensures
        r == (our_thread != target_thread),
{
    our_thread != target_thread
}

/// The extended style to set so that our window never takes the focus, or
/// `None` when the no-activate bit is already set.
pub fn no_activate_style(ex_style: isize, no_activate: isize) -> (r: Option<isize>)
    ensures
        (ex_style & no_activate) == 0 ==> r == Some(ex_style | no_activate),
        (ex_style & no_activate) != 0 ==> r is None,
{
    if ex_style & no_activate == 0 {
        Some(ex_style | no_activate)
    } else {
        None
    }
}

} // verus!
