//! Which way the camera is asked to move, from the movement keys that are held
//! down.

use vstd::prelude::*;

verus! {

/// The movement asked for along the x axis, relative to where the camera looks.
/// In an `Override` state both keys of the axis are down and the named one,
/// pressed last, wins.
#[derive(PartialEq, Eq, Structural, Copy, Clone, Debug)]
pub enum MoveX {
    Left,
    LeftOverride,
    Right,
    RightOverride,
    Still,
}

impl MoveX {
    /// The key towards left is down.
    pub open spec fn left_down(self) -> bool {
        self != MoveX::Right && self != MoveX::Still
    }

    /// The key towards right is down.
    pub open spec fn right_down(self) -> bool {
        self != MoveX::Left && self != MoveX::Still
    }

    /// The direction of the movement: -1 towards left, 1 towards right, 0
    /// for none.
    pub open spec fn sign(self) -> int {
        if self == MoveX::Still {
            0
        } else if self == MoveX::Right || self == MoveX::RightOverride {
            1
        } else {
            -1
        }
    }

    /// The state after the key of one direction goes down: `towards_right`
    /// tells which. The key wins; it overrides the opposite key if that one is
    /// down and did not itself override.
    pub open spec fn after_press(self, towards_right: bool) -> MoveX {
        if towards_right {
            if self.left_down() && self != MoveX::LeftOverride {
                MoveX::RightOverride
            } else {
                MoveX::Right
            }
        } else {
            if self.right_down() && self != MoveX::RightOverride {
                MoveX::LeftOverride
            } else {
                MoveX::Left
            }
        }
    }

    /// The state after the key of one direction goes up: `towards_right`
    /// tells which. The opposite key is left if it is down, else nothing.
    pub open spec fn after_release(self, towards_right: bool) -> MoveX {
        if towards_right {
            if self.left_down() {
                MoveX::Left
            } else {
                MoveX::Still
            }
        } else {
            if self.right_down() {
                MoveX::Right
            } else {
                MoveX::Still
            }
        }
    }

    /// The direction of the movement: -1 towards left, 1 towards right, 0
    /// for none.
    pub fn heading(self) -> (s: i8)
        ensures
            s == self.sign(),
    {
        match self {
            MoveX::Left | MoveX::LeftOverride => -1,
            MoveX::Right | MoveX::RightOverride => 1,
            MoveX::Still => 0,
        }
    }

    /// The state after the key of one direction goes down.
    pub fn pressed(self, towards_right: bool) -> (next: MoveX)
        ensures
            next == self.after_press(towards_right),
    {
        if towards_right {
            match self {
                MoveX::Right | MoveX::RightOverride => self,
                MoveX::Left => MoveX::RightOverride,
                MoveX::LeftOverride | MoveX::Still => MoveX::Right,
            }
        } else {
            match self {
                MoveX::Left | MoveX::LeftOverride => self,
                MoveX::Right => MoveX::LeftOverride,
                MoveX::RightOverride | MoveX::Still => MoveX::Left,
            }
        }
    }

    /// The state after the key of one direction goes up.
    pub fn released(self, towards_right: bool) -> (next: MoveX)
        ensures
            next == self.after_release(towards_right),
    {
        if towards_right {
            match self {
                MoveX::Right | MoveX::Still => MoveX::Still,
                MoveX::RightOverride | MoveX::LeftOverride => MoveX::Left,
                MoveX::Left => self,
            }
        } else {
            match self {
                MoveX::Left | MoveX::Still => MoveX::Still,
                MoveX::LeftOverride | MoveX::RightOverride => MoveX::Right,
                MoveX::Right => self,
            }
        }
    }

    /// A key that goes down makes the axis move its way, and when it goes up
    /// again the axis no longer moves its way. A key that goes down and up
    /// while the other is up leaves the axis at rest.
    pub proof fn lemma_key_decides(self, towards_right: bool)
        ensures
            self.after_press(towards_right).sign() == if towards_right {
                1int
            } else {
                -1int
            },
            self.after_release(towards_right).sign() != if towards_right {
                1int
            } else {
                -1int
            },
            MoveX::Still.after_press(towards_right).after_release(towards_right) == MoveX::Still,
    {
    }
}

/// The movement asked for along the y axis of the world.
/// In an `Override` state both keys of the axis are down and the named one,
/// pressed last, wins.
#[derive(PartialEq, Eq, Structural, Copy, Clone, Debug)]
pub enum MoveY {
    Up,
    UpOverride,
    Down,
    DownOverride,
    Still,
}

impl MoveY {
    /// The key towards down is down.
    pub open spec fn down_down(self) -> bool {
        self != MoveY::Up && self != MoveY::Still
    }

    /// The key towards up is down.
    pub open spec fn up_down(self) -> bool {
        self != MoveY::Down && self != MoveY::Still
    }

    /// The direction of the movement: -1 towards down, 1 towards up, 0
    /// for none.
    pub open spec fn sign(self) -> int {
        if self == MoveY::Still {
            0
        } else if self == MoveY::Up || self == MoveY::UpOverride {
            1
        } else {
            -1
        }
    }

    /// The state after the key of one direction goes down: `towards_up`
    /// tells which. The key wins; it overrides the opposite key if that one is
    /// down and did not itself override.
    pub open spec fn after_press(self, towards_up: bool) -> MoveY {
        if towards_up {
            if self.down_down() && self != MoveY::DownOverride {
                MoveY::UpOverride
            } else {
                MoveY::Up
            }
        } else {
            if self.up_down() && self != MoveY::UpOverride {
                MoveY::DownOverride
            } else {
                MoveY::Down
            }
        }
    }

    /// The state after the key of one direction goes up: `towards_up`
    /// tells which. The opposite key is left if it is down, else nothing.
    pub open spec fn after_release(self, towards_up: bool) -> MoveY {
        if towards_up {
            if self.down_down() {
                MoveY::Down
            } else {
                MoveY::Still
            }
        } else {
            if self.up_down() {
                MoveY::Up
            } else {
                MoveY::Still
            }
        }
    }

    /// The direction of the movement: -1 towards down, 1 towards up, 0
    /// for none.
    pub fn heading(self) -> (s: i8)
        ensures
            s == self.sign(),
    {
        match self {
            MoveY::Down | MoveY::DownOverride => -1,
            MoveY::Up | MoveY::UpOverride => 1,
            MoveY::Still => 0,
        }
    }

    /// The state after the key of one direction goes down.
    pub fn pressed(self, towards_up: bool) -> (next: MoveY)
        ensures
            next == self.after_press(towards_up),
    {
        if towards_up {
            match self {
                MoveY::Up | MoveY::UpOverride => self,
                MoveY::Down => MoveY::UpOverride,
                MoveY::DownOverride | MoveY::Still => MoveY::Up,
            }
        } else {
            match self {
                MoveY::Down | MoveY::DownOverride => self,
                MoveY::Up => MoveY::DownOverride,
                MoveY::UpOverride | MoveY::Still => MoveY::Down,
            }
        }
    }

    /// The state after the key of one direction goes up.
    pub fn released(self, towards_up: bool) -> (next: MoveY)
        ensures
            next == self.after_release(towards_up),
    {
        if towards_up {
            match self {
                MoveY::Up | MoveY::Still => MoveY::Still,
                MoveY::UpOverride | MoveY::DownOverride => MoveY::Down,
                MoveY::Down => self,
            }
        } else {
            match self {
                MoveY::Down | MoveY::Still => MoveY::Still,
                MoveY::DownOverride | MoveY::UpOverride => MoveY::Up,
                MoveY::Up => self,
            }
        }
    }

    /// A key that goes down makes the axis move its way, and when it goes up
    /// again the axis no longer moves its way. A key that goes down and up
    /// while the other is up leaves the axis at rest.
    pub proof fn lemma_key_decides(self, towards_up: bool)
        ensures
            self.after_press(towards_up).sign() == if towards_up {
                1int
            } else {
                -1int
            },
            self.after_release(towards_up).sign() != if towards_up {
                1int
            } else {
                -1int
            },
            MoveY::Still.after_press(towards_up).after_release(towards_up) == MoveY::Still,
    {
    }
}

/// The movement asked for along the z axis, relative to where the camera looks.
/// In an `Override` state both keys of the axis are down and the named one,
/// pressed last, wins.
#[derive(PartialEq, Eq, Structural, Copy, Clone, Debug)]
pub enum MoveZ {
    Forward,
    ForwardOverride,
    Backward,
    BackwardOverride,
    Still,
}

impl MoveZ {
    /// The key towards forward is down.
    pub open spec fn forward_down(self) -> bool {
        self != MoveZ::Backward && self != MoveZ::Still
    }

    /// The key towards backward is down.
    pub open spec fn backward_down(self) -> bool {
        self != MoveZ::Forward && self != MoveZ::Still
    }

    /// The direction of the movement: -1 towards forward, 1 towards backward, 0
    /// for none.
    pub open spec fn sign(self) -> int {
        if self == MoveZ::Still {
            0
        } else if self == MoveZ::Backward || self == MoveZ::BackwardOverride {
            1
        } else {
            -1
        }
    }

    /// The state after the key of one direction goes down: `towards_backward`
    /// tells which. The key wins; it overrides the opposite key if that one is
    /// down and did not itself override.
    pub open spec fn after_press(self, towards_backward: bool) -> MoveZ {
        if towards_backward {
            if self.forward_down() && self != MoveZ::ForwardOverride {
                MoveZ::BackwardOverride
            } else {
                MoveZ::Backward
            }
        } else {
            if self.backward_down() && self != MoveZ::BackwardOverride {
                MoveZ::ForwardOverride
            } else {
                MoveZ::Forward
            }
        }
    }

    /// The state after the key of one direction goes up: `towards_backward`
    /// tells which. The opposite key is left if it is down, else nothing.
    pub open spec fn after_release(self, towards_backward: bool) -> MoveZ {
        if towards_backward {
            if self.forward_down() {
                MoveZ::Forward
            } else {
                MoveZ::Still
            }
        } else {
            if self.backward_down() {
                MoveZ::Backward
            } else {
                MoveZ::Still
            }
        }
    }

    /// The direction of the movement: -1 towards forward, 1 towards backward, 0
    /// for none.
    pub fn heading(self) -> (s: i8)
        ensures
            s == self.sign(),
    {
        match self {
            MoveZ::Forward | MoveZ::ForwardOverride => -1,
            MoveZ::Backward | MoveZ::BackwardOverride => 1,
            MoveZ::Still => 0,
        }
    }

    /// The state after the key of one direction goes down.
    pub fn pressed(self, towards_backward: bool) -> (next: MoveZ)
        ensures
            next == self.after_press(towards_backward),
    {
        if towards_backward {
            match self {
                MoveZ::Backward | MoveZ::BackwardOverride => self,
                MoveZ::Forward => MoveZ::BackwardOverride,
                MoveZ::ForwardOverride | MoveZ::Still => MoveZ::Backward,
            }
        } else {
            match self {
                MoveZ::Forward | MoveZ::ForwardOverride => self,
                MoveZ::Backward => MoveZ::ForwardOverride,
                MoveZ::BackwardOverride | MoveZ::Still => MoveZ::Forward,
            }
        }
    }

    /// The state after the key of one direction goes up.
    pub fn released(self, towards_backward: bool) -> (next: MoveZ)
        ensures
            next == self.after_release(towards_backward),
    {
        if towards_backward {
            match self {
                MoveZ::Backward | MoveZ::Still => MoveZ::Still,
                MoveZ::BackwardOverride | MoveZ::ForwardOverride => MoveZ::Forward,
                MoveZ::Forward => self,
            }
        } else {
            match self {
                MoveZ::Forward | MoveZ::Still => MoveZ::Still,
                MoveZ::ForwardOverride | MoveZ::BackwardOverride => MoveZ::Backward,
                MoveZ::Backward => self,
            }
        }
    }

    /// A key that goes down makes the axis move its way, and when it goes up
    /// again the axis no longer moves its way. A key that goes down and up
    /// while the other is up leaves the axis at rest.
    pub proof fn lemma_key_decides(self, towards_backward: bool)
        ensures
            self.after_press(towards_backward).sign() == if towards_backward {
                1int
            } else {
                -1int
            },
            self.after_release(towards_backward).sign() != if towards_backward {
                1int
            } else {
                -1int
            },
            MoveZ::Still.after_press(towards_backward).after_release(towards_backward)
                == MoveZ::Still,
    {
    }
}

/// The movement asked for along each axis.
#[derive(Copy, Clone, Debug)]
pub struct MoveState {
    pub x: MoveX,
    pub y: MoveY,
    pub z: MoveZ,
}

impl Default for MoveState {
    /// No movement on any axis.
    fn default() -> (state: MoveState)
        ensures
            state.x == MoveX::Still,
            state.y == MoveY::Still,
            state.z == MoveZ::Still,
    {
        MoveState { x: MoveX::Still, y: MoveY::Still, z: MoveZ::Still }
    }
}

impl MoveState {
    /// Whether movement is asked for on some axis.
    pub fn is_moving(&self) -> (b: bool)
        ensures
            b == (self.x != MoveX::Still || self.y != MoveY::Still || self.z != MoveZ::Still),
            b == (self.x.sign() != 0 || self.y.sign() != 0 || self.z.sign() != 0),
    {
        self.x != MoveX::Still || self.y != MoveY::Still || self.z != MoveZ::Still
    }
}

} // verus!
