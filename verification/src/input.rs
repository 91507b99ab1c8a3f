//! Input state tracking and named action mappings. The window event source
//! hands in plain key, mouse-button and gamepad edges; actions map a name
//! to a set of buttons with any-of semantics.

use vstd::prelude::*;

use crate::kvlist::distinct_keys;
use crate::kvlist::has_key;
use crate::kvlist::kv_get;
use crate::kvlist::kv_insert;
use crate::kvlist::kv_remove;
use crate::kvlist::value_sel;

verus! {

/// A keyboard key the engine can observe.
#[derive(Debug, Clone, Copy, PartialEq, Eq, Structural)]
pub enum KeyCode {
    A,
    B,
    C,
    D,
    E,
    S,
    T,
    W,
    Up,
    Down,
    Left,
    Right,
    Return,
    Escape,
    Space,
    Other(u32),
}

/// A mouse button.
#[derive(Debug, Clone, Copy, PartialEq, Eq, Structural)]
pub enum MouseBtn {
    Left,
    Right,
    Middle,
    Other(u16),
}

/// A gamepad button.
#[derive(Debug, Clone, Copy, PartialEq, Eq, Structural)]
pub enum GamepadButton {
    A,
    B,
    X,
    Y,
    DPadUp,
    DPadDown,
    DPadLeft,
    DPadRight,
    LeftShoulder,
    RightShoulder,
    LeftTrigger,
    RightTrigger,
    LeftStick,
    RightStick,
    Start,
    Select,
}

/// Any button an action can bind.
#[derive(Debug, Clone, Copy, PartialEq, Eq, Structural)]
pub enum InputButton {
    Key(KeyCode),
    Mouse(MouseBtn),
    Gamepad(GamepadButton),
}

/// Membership in an edge set.
pub open spec fn in_seq<T>(s: Seq<T>, x: T) -> bool {
    exists|i: int| 0 <= i < s.len() && s[i] == x
}

fn key_contains(v: &Vec<KeyCode>, x: KeyCode) -> (r: bool)
    ensures
        r == in_seq(v@, x),
{
    let n = v.len();
    let mut i: usize = 0;
    while i < n
        invariant
            n == v@.len(),
            0 <= i <= n,
            forall|j: int| 0 <= j < i ==> v@[j] != x,
        decreases n - i,
    {
        if v[i] == x {
            return true;
        }
        i = i + 1;
    }
    false
}

fn key_remove(v: &mut Vec<KeyCode>, x: KeyCode)
    ensures
        !in_seq(final(v)@, x),
        forall|y: KeyCode| y != x ==> (in_seq(final(v)@, y) <==> in_seq(old(v)@, y)),
{
    let mut out: Vec<KeyCode> = Vec::new();
    let n = v.len();
    let mut i: usize = 0;
    while i < n
        invariant
            n == v@.len(),
            0 <= i <= n,
            !in_seq(out@, x),
            forall|y: KeyCode| y != x ==> (in_seq(out@, y) <==> in_seq(v@.take(i as int), y)),
        decreases n - i,
    {
        let ghost before = out@;
        if v[i] != x {
            out.push(v[i]);
        }
        proof {
            let vi = v@[i as int];
            if vi != x {
                assert(out@ =~= before.push(vi));
            } else {
                assert(out@ =~= before);
            }
            assert(v@.take(i + 1)[i as int] == vi);
            assert(in_seq(v@.take(i + 1), vi));
            if vi != x {
                assert(out@[out@.len() - 1] == vi);
                assert(in_seq(out@, vi));
            }
            assert forall|y: KeyCode|
                y != x implies (in_seq(out@, y) <==> in_seq(v@.take(i + 1), y)) by {
                assert(v@.take(i + 1).drop_last() =~= v@.take(i as int));
                assert(v@.take(i + 1).last() == vi);
                if in_seq(v@.take(i + 1), y) {
                    let j = choose|j: int|
                        0 <= j < v@.take(i + 1).len() && #[trigger] v@.take(i + 1)[j] == y;
                    if j < i {
                        assert(v@.take(i as int)[j] == y);
                        assert(in_seq(v@.take(i as int), y));
                    } else {
                        assert(vi == y);
                    }
                }
                if in_seq(v@.take(i as int), y) {
                    let j = choose|j: int|
                        0 <= j < v@.take(i as int).len() && #[trigger] v@.take(i as int)[j] == y;
                    assert(v@.take(i + 1)[j] == y);
                    assert(in_seq(v@.take(i + 1), y));
                }
                if in_seq(before, y) {
                    let j = choose|j: int| 0 <= j < before.len() && #[trigger] before[j] == y;
                    assert(out@[j] == y);
                    assert(in_seq(out@, y));
                }
                if in_seq(out@, y) {
                    let j = choose|j: int| 0 <= j < out@.len() && #[trigger] out@[j] == y;
                    if j < before.len() {
                        assert(before[j] == y);
                        assert(in_seq(before, y));
                    } else {
                        assert(vi == y);
                    }
                }
            }
        }
        i = i + 1;
    }
    proof {
        assert(v@.take(n as int) =~= v@);
    }
    *v = out;
}

fn mouse_remove(v: &mut Vec<MouseBtn>, x: MouseBtn)
    ensures
        !in_seq(final(v)@, x),
        forall|y: MouseBtn| y != x ==> (in_seq(final(v)@, y) <==> in_seq(old(v)@, y)),
{
    let mut out: Vec<MouseBtn> = Vec::new();
    let n = v.len();
    let mut i: usize = 0;
    while i < n
        invariant
            n == v@.len(),
            0 <= i <= n,
            !in_seq(out@, x),
            forall|y: MouseBtn| y != x ==> (in_seq(out@, y) <==> in_seq(v@.take(i as int), y)),
        decreases n - i,
    {
        let ghost before = out@;
        if v[i] != x {
            out.push(v[i]);
        }
        proof {
            let vi = v@[i as int];
            if vi != x {
                assert(out@ =~= before.push(vi));
            } else {
                assert(out@ =~= before);
            }
            assert(v@.take(i + 1)[i as int] == vi);
            assert(in_seq(v@.take(i + 1), vi));
            if vi != x {
                assert(out@[out@.len() - 1] == vi);
                assert(in_seq(out@, vi));
            }
            assert forall|y: MouseBtn|
                y != x implies (in_seq(out@, y) <==> in_seq(v@.take(i + 1), y)) by {
                assert(v@.take(i + 1).drop_last() =~= v@.take(i as int));
                assert(v@.take(i + 1).last() == vi);
                if in_seq(v@.take(i + 1), y) {
                    let j = choose|j: int|
                        0 <= j < v@.take(i + 1).len() && #[trigger] v@.take(i + 1)[j] == y;
                    if j < i {
                        assert(v@.take(i as int)[j] == y);
                        assert(in_seq(v@.take(i as int), y));
                    } else {
                        assert(vi == y);
                    }
                }
                if in_seq(v@.take(i as int), y) {
                    let j = choose|j: int|
                        0 <= j < v@.take(i as int).len() && #[trigger] v@.take(i as int)[j] == y;
                    assert(v@.take(i + 1)[j] == y);
                    assert(in_seq(v@.take(i + 1), y));
                }
                if in_seq(before, y) {
                    let j = choose|j: int| 0 <= j < before.len() && #[trigger] before[j] == y;
                    assert(out@[j] == y);
                    assert(in_seq(out@, y));
                }
                if in_seq(out@, y) {
                    let j = choose|j: int| 0 <= j < out@.len() && #[trigger] out@[j] == y;
                    if j < before.len() {
                        assert(before[j] == y);
                        assert(in_seq(before, y));
                    } else {
                        assert(vi == y);
                    }
                }
            }
        }
        i = i + 1;
    }
    proof {
        assert(v@.take(n as int) =~= v@);
    }
    *v = out;
}

fn pad_remove(v: &mut Vec<GamepadButton>, x: GamepadButton)
    ensures
        !in_seq(final(v)@, x),
        forall|y: GamepadButton| y != x ==> (in_seq(final(v)@, y) <==> in_seq(old(v)@, y)),
{
    let mut out: Vec<GamepadButton> = Vec::new();
    let n = v.len();
    let mut i: usize = 0;
    while i < n
        invariant
            n == v@.len(),
            0 <= i <= n,
            !in_seq(out@, x),
            forall|y: GamepadButton| y != x ==> (in_seq(out@, y) <==> in_seq(v@.take(i as int), y)),
        decreases n - i,
    {
        let ghost before = out@;
        if v[i] != x {
            out.push(v[i]);
        }
        proof {
            let vi = v@[i as int];
            if vi != x {
                assert(out@ =~= before.push(vi));
            } else {
                assert(out@ =~= before);
            }
            assert(v@.take(i + 1)[i as int] == vi);
            assert(in_seq(v@.take(i + 1), vi));
            if vi != x {
                assert(out@[out@.len() - 1] == vi);
                assert(in_seq(out@, vi));
            }
            assert forall|y: GamepadButton|
                y != x implies (in_seq(out@, y) <==> in_seq(v@.take(i + 1), y)) by {
                assert(v@.take(i + 1).drop_last() =~= v@.take(i as int));
                assert(v@.take(i + 1).last() == vi);
                if in_seq(v@.take(i + 1), y) {
                    let j = choose|j: int|
                        0 <= j < v@.take(i + 1).len() && #[trigger] v@.take(i + 1)[j] == y;
                    if j < i {
                        assert(v@.take(i as int)[j] == y);
                        assert(in_seq(v@.take(i as int), y));
                    } else {
                        assert(vi == y);
                    }
                }
                if in_seq(v@.take(i as int), y) {
                    let j = choose|j: int|
                        0 <= j < v@.take(i as int).len() && #[trigger] v@.take(i as int)[j] == y;
                    assert(v@.take(i + 1)[j] == y);
                    assert(in_seq(v@.take(i + 1), y));
                }
                if in_seq(before, y) {
                    let j = choose|j: int| 0 <= j < before.len() && #[trigger] before[j] == y;
                    assert(out@[j] == y);
                    assert(in_seq(out@, y));
                }
                if in_seq(out@, y) {
                    let j = choose|j: int| 0 <= j < out@.len() && #[trigger] out@[j] == y;
                    if j < before.len() {
                        assert(before[j] == y);
                        assert(in_seq(before, y));
                    } else {
                        assert(vi == y);
                    }
                }
            }
        }
        i = i + 1;
    }
    proof {
        assert(v@.take(n as int) =~= v@);
    }
    *v = out;
}

fn mouse_contains(v: &Vec<MouseBtn>, x: MouseBtn) -> (r: bool)
    ensures
        r == in_seq(v@, x),
{
    let n = v.len();
    let mut i: usize = 0;
    while i < n
        invariant
            n == v@.len(),
            0 <= i <= n,
            forall|j: int| 0 <= j < i ==> v@[j] != x,
        decreases n - i,
    {
        if v[i] == x {
            return true;
        }
        i = i + 1;
    }
    false
}

fn pad_contains(v: &Vec<GamepadButton>, x: GamepadButton) -> (r: bool)
    ensures
        r == in_seq(v@, x),
{
    let n = v.len();
    let mut i: usize = 0;
    while i < n
        invariant
            n == v@.len(),
            0 <= i <= n,
            forall|j: int| 0 <= j < i ==> v@[j] != x,
        decreases n - i,
    {
        if v[i] == x {
            return true;
        }
        i = i + 1;
    }
    false
}

/// The edge-tracking input state and the action map.
pub struct InputManager {
    pub keys_pressed: Vec<KeyCode>,
    pub keys_just_pressed: Vec<KeyCode>,
    pub keys_just_released: Vec<KeyCode>,
    pub mouse_buttons_pressed: Vec<MouseBtn>,
    pub mouse_buttons_just_pressed: Vec<MouseBtn>,
    pub mouse_buttons_just_released: Vec<MouseBtn>,
    pub gamepad_buttons_pressed: Vec<GamepadButton>,
    pub gamepad_buttons_just_pressed: Vec<GamepadButton>,
    pub gamepad_buttons_just_released: Vec<GamepadButton>,
    pub input_map: Vec<(String, Vec<InputButton>)>,
}

/// Whether `button` is held down in state `m`.
pub open spec fn spec_button_pressed(m: &InputManager, button: InputButton) -> bool {
    match button {
        InputButton::Key(k) => in_seq(m.keys_pressed@, k),
        InputButton::Mouse(b) => in_seq(m.mouse_buttons_pressed@, b),
        InputButton::Gamepad(g) => in_seq(m.gamepad_buttons_pressed@, g),
    }
}

/// Whether `button` was pressed this tick.
pub open spec fn spec_button_just_pressed(m: &InputManager, button: InputButton) -> bool {
    match button {
        InputButton::Key(k) => in_seq(m.keys_just_pressed@, k),
        InputButton::Mouse(b) => in_seq(m.mouse_buttons_just_pressed@, b),
        InputButton::Gamepad(g) => in_seq(m.gamepad_buttons_just_pressed@, g),
    }
}

/// Whether `button` was released this tick.
pub open spec fn spec_button_just_released(m: &InputManager, button: InputButton) -> bool {
    match button {
        InputButton::Key(k) => in_seq(m.keys_just_released@, k),
        InputButton::Mouse(b) => in_seq(m.mouse_buttons_just_released@, b),
        InputButton::Gamepad(g) => in_seq(m.gamepad_buttons_just_released@, g),
    }
}

impl InputManager {
    /// The action map keeps its names unique.
    pub open spec fn wf(&self) -> bool {
        distinct_keys(self.input_map@)
    }

    /// A state with nothing pressed and no mappings.
    pub fn new() -> (r: Self)
        ensures
            r.wf(),
            r.keys_pressed@.len() == 0,
            r.keys_just_pressed@.len() == 0,
            r.keys_just_released@.len() == 0,
            r.mouse_buttons_pressed@.len() == 0,
            r.gamepad_buttons_pressed@.len() == 0,
            r.input_map@.len() == 0,
    {
        InputManager {
            keys_pressed: Vec::new(),
            keys_just_pressed: Vec::new(),
            keys_just_released: Vec::new(),
            mouse_buttons_pressed: Vec::new(),
            mouse_buttons_just_pressed: Vec::new(),
            mouse_buttons_just_released: Vec::new(),
            gamepad_buttons_pressed: Vec::new(),
            gamepad_buttons_just_pressed: Vec::new(),
            gamepad_buttons_just_released: Vec::new(),
            input_map: Vec::new(),
        }
    }

    /// Records one key edge from the window event source. A press of an
    /// already-held key raises no new edge (key repeat), a release always
    /// raises one, and nothing else moves.
    pub fn on_key_event(&mut self, key: KeyCode, pressed: bool)
        ensures
            final(self).wf() == old(self).wf(),
            final(self).input_map@ == old(self).input_map@,
            in_seq(final(self).keys_pressed@, key) == pressed,
            forall|y: KeyCode|
                y != key ==> (in_seq(final(self).keys_pressed@, y) <==> in_seq(
                    old(self).keys_pressed@,
                    y,
                )),
            pressed && !in_seq(old(self).keys_pressed@, key) ==> final(self).keys_just_pressed@
                == old(self).keys_just_pressed@.push(key),
            pressed && in_seq(old(self).keys_pressed@, key) ==> *final(self) == *old(self),
            pressed ==> final(self).keys_just_released@ == old(self).keys_just_released@,
            !pressed ==> final(self).keys_just_pressed@ == old(self).keys_just_pressed@ && final(self).keys_just_released@ == old(self).keys_just_released@.push(key),
            final(self).mouse_buttons_pressed@ == old(self).mouse_buttons_pressed@,
            final(self).mouse_buttons_just_pressed@ == old(self).mouse_buttons_just_pressed@,
            final(self).mouse_buttons_just_released@ == old(self).mouse_buttons_just_released@,
            final(self).gamepad_buttons_pressed@ == old(self).gamepad_buttons_pressed@,
            final(self).gamepad_buttons_just_pressed@ == old(self).gamepad_buttons_just_pressed@,
            final(self).gamepad_buttons_just_released@ == old(self).gamepad_buttons_just_released@,
    {
        if pressed {
            if !key_contains(&self.keys_pressed, key) {
                self.keys_just_pressed.push(key);
                self.keys_pressed.push(key);
                proof {
                    assert(self.keys_pressed@.last() == key);
                    assert forall|y: KeyCode|
                        y != key && #[trigger] in_seq(self.keys_pressed@, y) implies in_seq(
                        old(self).keys_pressed@,
                        y,
                    ) by {
                        let j = choose|j: int|
                            0 <= j < self.keys_pressed@.len() && #[trigger] self.keys_pressed@[j]
                                == y;
                        assert(old(self).keys_pressed@[j] == y);
                    }
                    assert forall|y: KeyCode|
                        y != key && #[trigger] in_seq(old(self).keys_pressed@, y) implies in_seq(
                        self.keys_pressed@,
                        y,
                    ) by {
                        let j = choose|j: int|
                            0 <= j < old(self).keys_pressed@.len() && #[trigger] old(self).keys_pressed@[j] == y;
                        assert(self.keys_pressed@[j] == y);
                    }
                }
            }
        } else {
            key_remove(&mut self.keys_pressed, key);
            self.keys_just_released.push(key);
            proof {
                assert(self.keys_just_released@.last() == key);
                assert(self.keys_just_released@ =~= old(self).keys_just_released@.push(key));
            }
        }
    }

    /// Records one mouse-button edge, with the same frame as key edges.
    pub fn on_mouse_event(&mut self, button: MouseBtn, pressed: bool)
        ensures
            final(self).wf() == old(self).wf(),
            final(self).input_map@ == old(self).input_map@,
            in_seq(final(self).mouse_buttons_pressed@, button) == pressed,
            forall|y: MouseBtn|
                y != button ==> (in_seq(final(self).mouse_buttons_pressed@, y) <==> in_seq(
                    old(self).mouse_buttons_pressed@,
                    y,
                )),
            pressed && !in_seq(old(self).mouse_buttons_pressed@, button) ==> final(self).mouse_buttons_just_pressed@ == old(self).mouse_buttons_just_pressed@.push(button),
            pressed && in_seq(old(self).mouse_buttons_pressed@, button) ==> *final(self) == *old(self),
            pressed ==> final(self).mouse_buttons_just_released@ == old(self).mouse_buttons_just_released@,
            !pressed ==> final(self).mouse_buttons_just_pressed@ == old(self).mouse_buttons_just_pressed@ && final(self).mouse_buttons_just_released@ == old(self).mouse_buttons_just_released@.push(button),
            final(self).keys_pressed@ == old(self).keys_pressed@,
            final(self).keys_just_pressed@ == old(self).keys_just_pressed@,
            final(self).keys_just_released@ == old(self).keys_just_released@,
            final(self).gamepad_buttons_pressed@ == old(self).gamepad_buttons_pressed@,
            final(self).gamepad_buttons_just_pressed@ == old(self).gamepad_buttons_just_pressed@,
            final(self).gamepad_buttons_just_released@ == old(self).gamepad_buttons_just_released@,
    {
        if pressed {
            if !mouse_contains(&self.mouse_buttons_pressed, button) {
                self.mouse_buttons_just_pressed.push(button);
                self.mouse_buttons_pressed.push(button);
                proof {
                    assert(self.mouse_buttons_pressed@.last() == button);
                    assert forall|y: MouseBtn|
                        y != button && #[trigger] in_seq(self.mouse_buttons_pressed@, y)
                        implies in_seq(old(self).mouse_buttons_pressed@, y) by {
                        let j = choose|j: int|
                            0 <= j < self.mouse_buttons_pressed@.len()
                                && #[trigger] self.mouse_buttons_pressed@[j] == y;
                        assert(old(self).mouse_buttons_pressed@[j] == y);
                    }
                    assert forall|y: MouseBtn|
                        y != button && #[trigger] in_seq(old(self).mouse_buttons_pressed@, y)
                        implies in_seq(self.mouse_buttons_pressed@, y) by {
                        let j = choose|j: int|
                            0 <= j < old(self).mouse_buttons_pressed@.len() && #[trigger] old(self).mouse_buttons_pressed@[j] == y;
                        assert(self.mouse_buttons_pressed@[j] == y);
                    }
                }
            }
        } else {
            mouse_remove(&mut self.mouse_buttons_pressed, button);
            self.mouse_buttons_just_released.push(button);
            proof {
                assert(self.mouse_buttons_just_released@.last() == button);
                assert(self.mouse_buttons_just_released@ =~= old(self).mouse_buttons_just_released@.push(button));
            }
        }
    }

    /// Records one gamepad-button edge, with the same frame as key edges.
    pub fn on_gamepad_event(&mut self, button: GamepadButton, pressed: bool)
        ensures
            final(self).wf() == old(self).wf(),
            final(self).input_map@ == old(self).input_map@,
            in_seq(final(self).gamepad_buttons_pressed@, button) == pressed,
            forall|y: GamepadButton|
                y != button ==> (in_seq(final(self).gamepad_buttons_pressed@, y) <==> in_seq(
                    old(self).gamepad_buttons_pressed@,
                    y,
                )),
            pressed && !in_seq(old(self).gamepad_buttons_pressed@, button) ==> final(self).gamepad_buttons_just_pressed@ == old(self).gamepad_buttons_just_pressed@.push(
                button,
            ),
            pressed && in_seq(old(self).gamepad_buttons_pressed@, button) ==> *final(self) == *old(self),
            pressed ==> final(self).gamepad_buttons_just_released@ == old(self).gamepad_buttons_just_released@,
            !pressed ==> final(self).gamepad_buttons_just_pressed@ == old(self).gamepad_buttons_just_pressed@ && final(self).gamepad_buttons_just_released@ == old(self).gamepad_buttons_just_released@.push(button),
            final(self).keys_pressed@ == old(self).keys_pressed@,
            final(self).keys_just_pressed@ == old(self).keys_just_pressed@,
            final(self).keys_just_released@ == old(self).keys_just_released@,
            final(self).mouse_buttons_pressed@ == old(self).mouse_buttons_pressed@,
            final(self).mouse_buttons_just_pressed@ == old(self).mouse_buttons_just_pressed@,
            final(self).mouse_buttons_just_released@ == old(self).mouse_buttons_just_released@,
    {
        if pressed {
            if !pad_contains(&self.gamepad_buttons_pressed, button) {
                self.gamepad_buttons_just_pressed.push(button);
                self.gamepad_buttons_pressed.push(button);
                proof {
                    assert(self.gamepad_buttons_pressed@.last() == button);
                    assert forall|y: GamepadButton|
                        y != button && #[trigger] in_seq(self.gamepad_buttons_pressed@, y)
                        implies in_seq(old(self).gamepad_buttons_pressed@, y) by {
                        let j = choose|j: int|
                            0 <= j < self.gamepad_buttons_pressed@.len()
                                && #[trigger] self.gamepad_buttons_pressed@[j] == y;
                        assert(old(self).gamepad_buttons_pressed@[j] == y);
                    }
                    assert forall|y: GamepadButton|
                        y != button && #[trigger] in_seq(old(self).gamepad_buttons_pressed@, y)
                        implies in_seq(self.gamepad_buttons_pressed@, y) by {
                        let j = choose|j: int|
                            0 <= j < old(self).gamepad_buttons_pressed@.len() && #[trigger] old(self).gamepad_buttons_pressed@[j] == y;
                        assert(self.gamepad_buttons_pressed@[j] == y);
                    }
                }
            }
        } else {
            pad_remove(&mut self.gamepad_buttons_pressed, button);
            self.gamepad_buttons_just_released.push(button);
            proof {
                assert(self.gamepad_buttons_just_released@.last() == button);
                assert(self.gamepad_buttons_just_released@ =~= old(self).gamepad_buttons_just_released@.push(button));
            }
        }
    }

    /// Clears the per-tick edge sets; held state stays.
    pub fn update(&mut self)
        ensures
            final(self).wf() == old(self).wf(),
            final(self).input_map@ == old(self).input_map@,
            final(self).keys_pressed@ == old(self).keys_pressed@,
            final(self).mouse_buttons_pressed@ == old(self).mouse_buttons_pressed@,
            final(self).gamepad_buttons_pressed@ == old(self).gamepad_buttons_pressed@,
            final(self).keys_just_pressed@.len() == 0,
            final(self).keys_just_released@.len() == 0,
            final(self).mouse_buttons_just_pressed@.len() == 0,
            final(self).mouse_buttons_just_released@.len() == 0,
            final(self).gamepad_buttons_just_pressed@.len() == 0,
            final(self).gamepad_buttons_just_released@.len() == 0,
    {
        self.keys_just_pressed.clear();
        self.keys_just_released.clear();
        self.mouse_buttons_just_pressed.clear();
        self.mouse_buttons_just_released.clear();
        self.gamepad_buttons_just_pressed.clear();
        self.gamepad_buttons_just_released.clear();
    }

    /// Whether `key` is held down.
    pub fn is_key_pressed(&self, key: KeyCode) -> (r: bool)
        ensures
            r == in_seq(self.keys_pressed@, key),
    {
        key_contains(&self.keys_pressed, key)
    }

    /// Whether `key` was pressed this tick.
    pub fn is_key_just_pressed(&self, key: KeyCode) -> (r: bool)
        ensures
            r == in_seq(self.keys_just_pressed@, key),
    {
        key_contains(&self.keys_just_pressed, key)
    }

    /// Whether `key` was released this tick.
    pub fn is_key_just_released(&self, key: KeyCode) -> (r: bool)
        ensures
            r == in_seq(self.keys_just_released@, key),
    {
        key_contains(&self.keys_just_released, key)
    }

    /// Whether `button` is held down.
    pub fn is_mouse_button_pressed(&self, button: MouseBtn) -> (r: bool)
        ensures
            r == in_seq(self.mouse_buttons_pressed@, button),
    {
        mouse_contains(&self.mouse_buttons_pressed, button)
    }

    /// Whether `button` is held down.
    pub fn is_gamepad_button_pressed(&self, button: GamepadButton) -> (r: bool)
        ensures
            r == in_seq(self.gamepad_buttons_pressed@, button),
    {
        pad_contains(&self.gamepad_buttons_pressed, button)
    }

    /// Binds an action name to a set of buttons, replacing an old binding.
    pub fn map_input(&mut self, action_name: String, buttons: Vec<InputButton>)
        requires
            old(self).wf(),
        ensures
            final(self).wf(),
            crate::kvlist::kv_upd(
                final(self).input_map@,
                old(self).input_map@,
                action_name@,
                buttons,
            ),
            final(self).keys_pressed@ == old(self).keys_pressed@,
            final(self).keys_just_pressed@ == old(self).keys_just_pressed@,
            final(self).keys_just_released@ == old(self).keys_just_released@,
            final(self).mouse_buttons_pressed@ == old(self).mouse_buttons_pressed@,
            final(self).gamepad_buttons_pressed@ == old(self).gamepad_buttons_pressed@,
    {
        kv_insert(&mut self.input_map, action_name, buttons);
    }

    /// Drops the binding of an action name.
    pub fn remove_input_mapping(&mut self, action_name: &str)
        requires
            old(self).wf(),
        ensures
            final(self).wf(),
            !has_key(final(self).input_map@, action_name@),
    {
        let _ = kv_remove(&mut self.input_map, action_name);
    }

    /// Drops every action binding.
    pub fn clear_input_map(&mut self)
        ensures
            final(self).wf(),
            final(self).input_map@.len() == 0,
    {
        self.input_map.clear();
    }

    fn is_input_button_pressed(&self, button: InputButton) -> (r: bool)
        ensures
            r == spec_button_pressed(self, button),
    {
        match button {
            InputButton::Key(k) => self.is_key_pressed(k),
            InputButton::Mouse(b) => self.is_mouse_button_pressed(b),
            InputButton::Gamepad(g) => self.is_gamepad_button_pressed(g),
        }
    }

    fn is_input_button_just_pressed(&self, button: InputButton) -> (r: bool)
        ensures
            r == spec_button_just_pressed(self, button),
    {
        match button {
            InputButton::Key(k) => key_contains(&self.keys_just_pressed, k),
            InputButton::Mouse(b) => mouse_contains(&self.mouse_buttons_just_pressed, b),
            InputButton::Gamepad(g) => pad_contains(&self.gamepad_buttons_just_pressed, g),
        }
    }

    fn is_input_button_just_released(&self, button: InputButton) -> (r: bool)
        ensures
            r == spec_button_just_released(self, button),
    {
        match button {
            InputButton::Key(k) => key_contains(&self.keys_just_released, k),
            InputButton::Mouse(b) => mouse_contains(&self.mouse_buttons_just_released, b),
            InputButton::Gamepad(g) => pad_contains(&self.gamepad_buttons_just_released, g),
        }
    }

    /// Whether any button bound to `action_name` is held down: the action
    /// holds exactly when one of its buttons does.
    pub fn is_action_pressed(&self, action_name: &str) -> (r: bool)
        requires
            self.wf(),
        ensures
            r == (has_key(self.input_map@, action_name@) && exists|i: int|
                0 <= i < value_sel(self.input_map@, action_name@)@.len() && spec_button_pressed(
                    self,
                    #[trigger] value_sel(self.input_map@, action_name@)@[i],
                )),
    {
        match kv_get(&self.input_map, action_name) {
            Some(buttons) => {
                let ghost bs = value_sel(self.input_map@, action_name@)@;
                let n = buttons.len();
                let mut i: usize = 0;
                while i < n
                    invariant
                        buttons@ == bs,
                        has_key(self.input_map@, action_name@),
                        bs == value_sel(self.input_map@, action_name@)@,
                        n == bs.len(),
                        0 <= i <= n,
                        forall|j: int| 0 <= j < i ==> !spec_button_pressed(self, #[trigger] bs[j]),
                    decreases n - i,
                {
                    if self.is_input_button_pressed(buttons[i]) {
                        return true;
                    }
                    i = i + 1;
                }
                false
            },
            None => false,
        }
    }

    /// Whether any button bound to `action_name` was pressed this tick.
    pub fn is_action_just_pressed(&self, action_name: &str) -> (r: bool)
        requires
            self.wf(),
        ensures
            r == (has_key(self.input_map@, action_name@) && exists|i: int|
                0 <= i < value_sel(self.input_map@, action_name@)@.len()
                    && spec_button_just_pressed(
                    self,
                    #[trigger] value_sel(self.input_map@, action_name@)@[i],
                )),
    {
        match kv_get(&self.input_map, action_name) {
            Some(buttons) => {
                let ghost bs = value_sel(self.input_map@, action_name@)@;
                let n = buttons.len();
                let mut i: usize = 0;
                while i < n
                    invariant
                        buttons@ == bs,
                        has_key(self.input_map@, action_name@),
                        bs == value_sel(self.input_map@, action_name@)@,
                        n == bs.len(),
                        0 <= i <= n,
                        forall|j: int|
                            0 <= j < i ==> !spec_button_just_pressed(self, #[trigger] bs[j]),
                    decreases n - i,
                {
                    if self.is_input_button_just_pressed(buttons[i]) {
                        return true;
                    }
                    i = i + 1;
                }
                false
            },
            None => false,
        }
    }

    /// Whether any button bound to `action_name` was released this tick.
    pub fn is_action_just_released(&self, action_name: &str) -> (r: bool)
        requires
            self.wf(),
        ensures
            r == (has_key(self.input_map@, action_name@) && exists|i: int|
                0 <= i < value_sel(self.input_map@, action_name@)@.len()
                    && spec_button_just_released(
                    self,
                    #[trigger] value_sel(self.input_map@, action_name@)@[i],
                )),
    {
        match kv_get(&self.input_map, action_name) {
            Some(buttons) => {
                let ghost bs = value_sel(self.input_map@, action_name@)@;
                let n = buttons.len();
                let mut i: usize = 0;
                while i < n
                    invariant
                        buttons@ == bs,
                        has_key(self.input_map@, action_name@),
                        bs == value_sel(self.input_map@, action_name@)@,
                        n == bs.len(),
                        0 <= i <= n,
                        forall|j: int|
                            0 <= j < i ==> !spec_button_just_released(self, #[trigger] bs[j]),
                    decreases n - i,
                {
                    if self.is_input_button_just_released(buttons[i]) {
                        return true;
                    }
                    i = i + 1;
                }
                false
            },
            None => false,
        }
    }

    /// The held keys, as a list.
    pub fn get_pressed_keys(&self) -> (r: Vec<KeyCode>)
        ensures
            r@ == self.keys_pressed@,
    {
        self.keys_pressed.clone()
    }

    /// The keys pressed this tick, as a list.
    pub fn get_just_pressed_keys(&self) -> (r: Vec<KeyCode>)
        ensures
            r@ == self.keys_just_pressed@,
    {
        self.keys_just_pressed.clone()
    }

    /// Installs the stock movement and action bindings.
    pub fn setup_default_mappings(&mut self)
        requires
            old(self).wf(),
        ensures
            final(self).wf(),
            has_key(final(self).input_map@, "move_up"@),
            has_key(final(self).input_map@, "move_down"@),
            has_key(final(self).input_map@, "move_left"@),
            has_key(final(self).input_map@, "move_right"@),
            has_key(final(self).input_map@, "jump"@),
            has_key(final(self).input_map@, "action"@),
            has_key(final(self).input_map@, "cancel"@),
    {
        let mut up: Vec<InputButton> = Vec::new();
        up.push(InputButton::Key(KeyCode::W));
        up.push(InputButton::Key(KeyCode::Up));
        up.push(InputButton::Gamepad(GamepadButton::DPadUp));
        self.map_input(String::from_str("move_up"), up);
        let mut down: Vec<InputButton> = Vec::new();
        down.push(InputButton::Key(KeyCode::S));
        down.push(InputButton::Key(KeyCode::Down));
        down.push(InputButton::Gamepad(GamepadButton::DPadDown));
        self.map_input(String::from_str("move_down"), down);
        let mut left: Vec<InputButton> = Vec::new();
        left.push(InputButton::Key(KeyCode::A));
        left.push(InputButton::Key(KeyCode::Left));
        left.push(InputButton::Gamepad(GamepadButton::DPadLeft));
        self.map_input(String::from_str("move_left"), left);
        let mut right: Vec<InputButton> = Vec::new();
        right.push(InputButton::Key(KeyCode::D));
        right.push(InputButton::Key(KeyCode::Right));
        right.push(InputButton::Gamepad(GamepadButton::DPadRight));
        self.map_input(String::from_str("move_right"), right);
        let mut jump: Vec<InputButton> = Vec::new();
        jump.push(InputButton::Key(KeyCode::Space));
        jump.push(InputButton::Gamepad(GamepadButton::A));
        self.map_input(String::from_str("jump"), jump);
        let mut action: Vec<InputButton> = Vec::new();
        action.push(InputButton::Key(KeyCode::Return));
        action.push(InputButton::Key(KeyCode::E));
        action.push(InputButton::Mouse(MouseBtn::Left));
        action.push(InputButton::Gamepad(GamepadButton::B));
        self.map_input(String::from_str("action"), action);
        let mut cancel: Vec<InputButton> = Vec::new();
        cancel.push(InputButton::Key(KeyCode::Escape));
        cancel.push(InputButton::Mouse(MouseBtn::Right));
        cancel.push(InputButton::Gamepad(GamepadButton::Y));
        self.map_input(String::from_str("cancel"), cancel);
    }
}

} // verus!
