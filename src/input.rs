//! Per-tick controller state: which logical buttons are held, and which were
//! newly pressed during the current tick.
use vstd::prelude::*;

verus! {

#[derive(Clone, Copy, Debug, PartialEq, Eq, Structural)]
pub enum Buttons {
    Up,
    Down,
    Left,
    Right,
    Action,
}

/// One flag per logical button.
#[derive(Clone, Copy, Debug, PartialEq, Eq, Structural)]
pub struct ButtonFlags {
    pub up: bool,
    pub down: bool,
    pub left: bool,
    pub right: bool,
    pub action: bool,
}

impl ButtonFlags {
    pub open spec fn spec_get(self, b: Buttons) -> bool {
        match b {
            Buttons::Up => self.up,
            Buttons::Down => self.down,
            Buttons::Left => self.left,
            Buttons::Right => self.right,
            Buttons::Action => self.action,
        }
    }

    pub fn none() -> (r: Self)
        ensures
            forall|b: Buttons| !r.spec_get(b),
    {
        ButtonFlags { up: false, down: false, left: false, right: false, action: false }
    }

    pub fn get(&self, b: Buttons) -> (r: bool)
        ensures
            r == self.spec_get(b),
    {
        match b {
            Buttons::Up => self.up,
            Buttons::Down => self.down,
            Buttons::Left => self.left,
            Buttons::Right => self.right,
            Buttons::Action => self.action,
        }
    }

    pub fn set(&mut self, b: Buttons, v: bool)
        ensures
            final(self).spec_get(b) == v,
            forall|c: Buttons| c != b ==> final(self).spec_get(c) == old(self).spec_get(c),
    {
        match b {
            Buttons::Up => self.up = v,
            Buttons::Down => self.down = v,
            Buttons::Left => self.left = v,
            Buttons::Right => self.right = v,
            Buttons::Action => self.action = v,
        }
    }
}

/// Buttons currently held, and buttons that went down during this tick.
#[derive(Clone, Copy, Debug, PartialEq, Eq, Structural)]
pub struct ControllerState {
    pub held: ButtonFlags,
    pub pressed: ButtonFlags,
}

impl ControllerState {
    pub fn new() -> (r: Self)
        ensures
            forall|b: Buttons| !r.held.spec_get(b) && !r.pressed.spec_get(b),
    {
        ControllerState { held: ButtonFlags::none(), pressed: ButtonFlags::none() }
    }

    /// Records that `b` went down; it counts as pressed this tick unless it was
    /// already held.
    pub fn button_down(&mut self, b: Buttons)
        ensures
            final(self).held.spec_get(b),
            final(self).pressed.spec_get(b) == (old(self).pressed.spec_get(b) || !old(
                self,
            ).held.spec_get(b)),
            forall|c: Buttons|
                c != b ==> final(self).held.spec_get(c) == old(self).held.spec_get(c)
                    && final(self).pressed.spec_get(c) == old(self).pressed.spec_get(c),
    {
        if !self.held.get(b) {
            self.pressed.set(b, true);
        }
        self.held.set(b, true);
    }

    /// Records that `b` was released.
    pub fn button_up(&mut self, b: Buttons)
        ensures
            !final(self).held.spec_get(b),
            final(self).pressed == old(self).pressed,
            forall|c: Buttons| c != b ==> final(self).held.spec_get(c) == old(self).held.spec_get(c),
    {
        self.held.set(b, false);
    }

    /// Ends a tick: no button counts as newly pressed any more.
    pub fn update(&mut self)
        ensures
            final(self).held == old(self).held,
            forall|b: Buttons| !final(self).pressed.spec_get(b),
    {
        self.pressed = ButtonFlags::none();
    }

    pub fn get_button_down(&self, b: Buttons) -> (r: bool)
        ensures
            r == self.held.spec_get(b),
    {
        self.held.get(b)
    }

    pub fn get_button_pressed(&self, b: Buttons) -> (r: bool)
        ensures
            r == self.pressed.spec_get(b),
    {
        self.pressed.get(b)
    }
}

} // verus!
