use vstd::prelude::*;

verus! {

/// The keys the camera controls read; every other key is `Other`.
#[derive(Copy, Clone, Debug, PartialEq, Eq, Structural)]
pub enum Key {
    W,
    A,
    S,
    D,
    E,
    Q,
    Other,
}

/// A camera move in the camera's own frame: steps forward, up and right.
#[derive(Copy, Clone, Debug, PartialEq, Eq, Structural)]
pub struct MoveDir {
    pub forward: i8,
    pub up: i8,
    pub right: i8,
}

/// W and S move forward and back, D and A right and left, E and Q up and
/// down; other keys do not move the camera.
pub open spec fn key_move_spec(k: Key) -> Option<MoveDir> {
    match k {
        Key::W => Some(MoveDir { forward: 1, up: 0, right: 0 }),
        Key::S => Some(MoveDir { forward: -1i8, up: 0, right: 0 }),
        Key::D => Some(MoveDir { forward: 0, up: 0, right: 1 }),
        Key::A => Some(MoveDir { forward: 0, up: 0, right: -1i8 }),
        Key::E => Some(MoveDir { forward: 0, up: 1, right: 0 }),
        Key::Q => Some(MoveDir { forward: 0, up: -1i8, right: 0 }),
        Key::Other => None,
    }
}

/// The camera move a key press asks for.
pub fn key_move(k: Key) -> (r: Option<MoveDir>)
    ensures
        r == key_move_spec(k),
{
    match k {
        Key::W => Some(MoveDir { forward: 1, up: 0, right: 0 }),
        Key::S => Some(MoveDir { forward: -1, up: 0, right: 0 }),
        Key::D => Some(MoveDir { forward: 0, up: 0, right: 1 }),
        Key::A => Some(MoveDir { forward: 0, up: 0, right: -1 }),
        Key::E => Some(MoveDir { forward: 0, up: 1, right: 0 }),
        Key::Q => Some(MoveDir { forward: 0, up: -1, right: 0 }),
        Key::Other => None,
    }
}

/// The opposite key of a movement key moves the camera the opposite way,
/// and every movement is a single unit step along one axis.
pub proof fn lemma_opposite_keys()
    ensures
        ({
            let w = key_move_spec(Key::W).unwrap();
            let s = key_move_spec(Key::S).unwrap();
            w.forward == -s.forward && w.up == -s.up && w.right == -s.right
        }),
        ({
            let d = key_move_spec(Key::D).unwrap();
            let a = key_move_spec(Key::A).unwrap();
            d.forward == -a.forward && d.up == -a.up && d.right == -a.right
        }),
        ({
            let e = key_move_spec(Key::E).unwrap();
            let q = key_move_spec(Key::Q).unwrap();
            e.forward == -q.forward && e.up == -q.up && e.right == -q.right
        }),
        forall|k: Key|
            #[trigger] key_move_spec(k) is Some ==> step_len(key_move_spec(k).unwrap()) == 1,
{
    assert forall|k: Key| #[trigger] key_move_spec(k) is Some implies step_len(
        key_move_spec(k).unwrap(),
    ) == 1 by {
        match k {
            Key::W => {},
            Key::A => {},
            Key::S => {},
            Key::D => {},
            Key::E => {},
            Key::Q => {},
            Key::Other => {},
        }
    }
}

/// The number of unit steps a move takes along the three axes.
pub open spec fn step_len(m: MoveDir) -> int {
    unit_abs(m.forward) + unit_abs(m.up) + unit_abs(m.right)
}

/// The size of a step component.
pub open spec fn unit_abs(v: i8) -> int {
    if v < 0 {
        -(v as int)
    } else {
        v as int
    }
}

/// Counts frames between reports of the frame rate.
pub struct FrameCounter {
    frames: u32,
}

impl FrameCounter {
    /// Frames counted since the last report.
    pub closed spec fn count(self) -> u32 {
        self.frames
    }

    pub fn new() -> (c: Self)
        ensures
            c.count() == 0,
    {
        FrameCounter { frames: 0 }
    }

    /// Frames counted since the last report.
    pub fn frames(&self) -> (n: u32)
        ensures
            n == self.count(),
    {
        self.frames
    }

    /// Counts one frame. Once a whole second has passed since the last
    /// report (`elapsed_secs >= 1`), returns the frames of that span,
    /// this one included, and starts counting again from zero.
    pub fn tick(&mut self, elapsed_secs: u64) -> (report: Option<u32>)
        requires
            old(self).count() < u32::MAX,
        ensures
            elapsed_secs >= 1 ==> report == Some((old(self).count() + 1) as u32)
                && final(self).count() == 0,
            elapsed_secs < 1 ==> report is None && final(self).count() == old(self).count() + 1,
    {
        self.frames = self.frames + 1;
        if elapsed_secs >= 1 {
            let frames = self.frames;
            self.frames = 0;
            Some(frames)
        } else {
            None
        }
    }
}

} // verus!
