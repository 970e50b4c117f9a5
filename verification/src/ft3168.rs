//! FT3168 touch controller: decoding its registers, telling swipes from
//! taps, and the commands written to it. The bus transfers themselves are
//! made by the caller, which hands over the bytes it read.

use vstd::prelude::*;

verus! {

/// I2C address of the controller.
pub const FT3168_ADDR: u8 = 0x38;
pub const REG_FINGER_NUM: u8 = 0x02;
pub const REG_X1_H: u8 = 0x03;
pub const REG_X1_L: u8 = 0x04;
pub const REG_Y1_H: u8 = 0x05;
pub const REG_Y1_L: u8 = 0x06;
pub const REG_POWER_MODE: u8 = 0xA5;
pub const REG_GESTURE_ID: u8 = 0xD3;
pub const REG_X2_H: u8 = 0x09;
pub const REG_GESTURE_MODE: u8 = 0xD0;
pub const REG_PROXIMITY_SENSING_MODE: u8 = 0xB0;

/// Movement below this many pixels on both axes is a tap.
pub const TAP_SLOP: u32 = 30;

#[derive(Clone, Copy, PartialEq, Eq, Structural)]
pub enum PowerMode {
    Active,
    Monitor,
    Standby,
    Hibernate,
}

pub open spec fn power_mode_value(m: PowerMode) -> u8 {
    match m {
        PowerMode::Active => 0,
        PowerMode::Monitor => 1,
        PowerMode::Standby => 2,
        PowerMode::Hibernate => 3,
    }
}

impl PowerMode {
    /// The register value of the mode.
    pub fn value(self) -> (r: u8)
        ensures
            r == power_mode_value(self),
    {
        match self {
            PowerMode::Active => 0,
            PowerMode::Monitor => 1,
            PowerMode::Standby => 2,
            PowerMode::Hibernate => 3,
        }
    }
}

#[derive(Clone, Copy, PartialEq, Eq, Structural)]
pub struct TouchPoint {
    pub x: u16,
    pub y: u16,
    pub fingers: u8,
}

/// Gestures the controller recognises by itself.
#[derive(Clone, Copy, PartialEq, Eq, Structural)]
pub enum Gesture {
    NoGesture,
    SwipeUp,
    SwipeDown,
    SwipeLeft,
    SwipeRight,
    SingleTap,
    DoubleTap,
    LongPress,
    Unknown(u8),
}

#[derive(Clone, Copy, PartialEq, Eq, Structural)]
pub enum SwipeDirection {
    Up,
    Down,
    Left,
    Right,
    Tap,
}

/// A finished gesture with where it started and ended.
#[derive(Clone, Copy, PartialEq, Eq, Structural)]
pub struct SwipeEvent {
    pub direction: SwipeDirection,
    pub start_x: u16,
    pub start_y: u16,
    pub end_x: u16,
    pub end_y: u16,
}

/// Whether a touch point is pressed or released.
#[derive(Clone, Copy, PartialEq, Eq, Structural)]
pub enum TouchState {
    Pressed(TouchPoint),
    Released,
}

pub open spec fn abs_diff(a: u16, b: u16) -> int {
    if a >= b {
        a - b
    } else {
        b - a
    }
}

/// The direction of a movement from `(sx, sy)` to `(ex, ey)`: a tap when
/// it stays within the slop on both axes, a swipe along an axis that
/// moved more than one and a half times the other, a tap otherwise.
pub open spec fn classify(sx: u16, sy: u16, ex: u16, ey: u16) -> SwipeDirection {
    let adx = abs_diff(ex, sx);
    let ady = abs_diff(ey, sy);
    if adx < TAP_SLOP && ady < TAP_SLOP {
        SwipeDirection::Tap
    } else if adx > ady * 3 / 2 {
        if ex > sx {
            SwipeDirection::Right
        } else {
            SwipeDirection::Left
        }
    } else if ady > adx * 3 / 2 {
        if ey > sy {
            SwipeDirection::Down
        } else {
            SwipeDirection::Up
        }
    } else {
        SwipeDirection::Tap
    }
}

/// Classifies the movement from `(sx, sy)` to `(ex, ey)`.
pub fn swipe_direction(sx: u16, sy: u16, ex: u16, ey: u16) -> (r: SwipeDirection)
    ensures
        r == classify(sx, sy, ex, ey),
{
    let adx: u32 = if ex >= sx {
        (ex - sx) as u32
    } else {
        (sx - ex) as u32
    };
    let ady: u32 = if ey >= sy {
        (ey - sy) as u32
    } else {
        (sy - ey) as u32
    };
    if adx < TAP_SLOP && ady < TAP_SLOP {
        SwipeDirection::Tap
    } else if adx > ady * 3 / 2 {
        if ex > sx {
            SwipeDirection::Right
        } else {
            SwipeDirection::Left
        }
    } else if ady > adx * 3 / 2 {
        if ey > sy {
            SwipeDirection::Down
        } else {
            SwipeDirection::Up
        }
    } else {
        SwipeDirection::Tap
    }
}

pub open spec fn reversed(d: SwipeDirection) -> SwipeDirection {
    match d {
        SwipeDirection::Up => SwipeDirection::Down,
        SwipeDirection::Down => SwipeDirection::Up,
        SwipeDirection::Left => SwipeDirection::Right,
        SwipeDirection::Right => SwipeDirection::Left,
        SwipeDirection::Tap => SwipeDirection::Tap,
    }
}

/// Moving back along the same path gives the opposite direction; a tap
/// stays a tap.
pub proof fn lemma_classify_reversed(sx: u16, sy: u16, ex: u16, ey: u16)
    ensures
        classify(ex, ey, sx, sy) == reversed(classify(sx, sy, ex, ey)),
{
}

/// A 12-bit coordinate from its high register (low nibble used) and low
/// register.
pub open spec fn coord(h: u8, l: u8) -> u16 {
    ((h % 16) * 256 + l) as u16
}

fn coord_of(h: u8, l: u8) -> (r: u16)
    ensures
        r == coord(h, l),
        r < 4096,
{
    let hh = h as u16;
    let ll = l as u16;
    assert(((hh & 0x0F) << 8u16) | ll == (hh % 16) * 256 + ll) by (bit_vector)
        requires
            hh < 256,
            ll < 256,
    ;
    ((hh & 0x0F) << 8u16) | ll
}

/// The gesture a gesture-id register value stands for.
pub open spec fn gesture_of(id: u8) -> Gesture {
    if id == 0x00 {
        Gesture::NoGesture
    } else if id == 0x20 {
        Gesture::SwipeLeft
    } else if id == 0x21 {
        Gesture::SwipeRight
    } else if id == 0x22 {
        Gesture::SwipeUp
    } else if id == 0x23 {
        Gesture::SwipeDown
    } else if id == 0x24 {
        Gesture::DoubleTap
    } else {
        Gesture::Unknown(id)
    }
}

/// The driver's swipe tracking: whether a finger is down, where it landed
/// and where it was last seen.
pub struct Ft3168Touch {
    pub tracking: bool,
    pub start_x: u16,
    pub start_y: u16,
    pub last_x: u16,
    pub last_y: u16,
}

impl Ft3168Touch {
    pub fn new() -> (r: Self)
        ensures
            !r.tracking,
            r.start_x == 0 && r.start_y == 0 && r.last_x == 0 && r.last_y == 0,
    {
        Ft3168Touch { tracking: false, start_x: 0, start_y: 0, last_x: 0, last_y: 0 }
    }

    /// The register write that starts the controller in active mode.
    pub fn initialize(&self) -> (r: (u8, u8))
        ensures
            r == (REG_POWER_MODE, 0u8),
    {
        (REG_POWER_MODE, PowerMode::Active.value())
    }

    /// The register write that starts the controller in `mode`.
    pub fn initialize_with_mode(&self, mode: PowerMode) -> (r: (u8, u8))
        ensures
            r == (REG_POWER_MODE, power_mode_value(mode)),
    {
        (REG_POWER_MODE, mode.value())
    }

    /// The register write that starts the controller in monitor mode.
    pub fn init(&self) -> (r: (u8, u8))
        ensures
            r == (REG_POWER_MODE, 1u8),
    {
        (REG_POWER_MODE, 0x01)
    }

    /// The register write that sets the power mode.
    pub fn set_power_mode(&self, mode: PowerMode) -> (r: (u8, u8))
        ensures
            r == (REG_POWER_MODE, power_mode_value(mode)),
    {
        (REG_POWER_MODE, mode.value())
    }

    /// The register write that turns proximity sensing on or off.
    pub fn set_proximity_sensing_mode(&self, enable: bool) -> (r: (u8, u8))
        ensures
            r == (REG_PROXIMITY_SENSING_MODE, if enable { 1u8 } else { 0u8 }),
    {
        (REG_PROXIMITY_SENSING_MODE, if enable { 1 } else { 0 })
    }

    /// The register write that turns gesture recognition on or off.
    pub fn set_gesture_mode(&self, enable: bool) -> (r: (u8, u8))
        ensures
            r == (REG_GESTURE_MODE, if enable { 1u8 } else { 0u8 }),
    {
        (REG_GESTURE_MODE, if enable { 1 } else { 0 })
    }

    /// The first touch point from the finger count and the four coordinate
    /// registers; `None` when no finger is down.
    pub fn read(&self, fingers: u8, x_h: u8, x_l: u8, y_h: u8, y_l: u8) -> (r: Option<TouchPoint>)
        ensures
            fingers == 0 ==> r is None,
            fingers != 0 ==> r == Some(TouchPoint { x: coord(x_h, x_l), y: coord(y_h, y_l), fingers }),
    {
        if fingers == 0 {
            return None;
        }
        Some(TouchPoint { x: coord_of(x_h, x_l), y: coord_of(y_h, y_l), fingers })
    }

    /// Feeds one reading. A finger down is tracked (its first position is
    /// the start of the gesture) and returned; the first reading without a
    /// finger after one was down ends the gesture and returns it.
    pub fn poll(&mut self, point: Option<TouchPoint>) -> (r: (Option<TouchPoint>, Option<SwipeEvent>))
        ensures
            match point {
                Some(tp) => {
                    &&& r == (Some(tp), None::<SwipeEvent>)
                    &&& final(self).tracking
                    &&& final(self).last_x == tp.x && final(self).last_y == tp.y
                    &&& old(self).tracking ==> final(self).start_x == old(self).start_x && final(self).start_y == old(
                        self,
                    ).start_y
                    &&& !old(self).tracking ==> final(self).start_x == tp.x && final(self).start_y == tp.y
                },
                None => {
                    &&& !final(self).tracking
                    &&& final(self).start_x == old(self).start_x && final(self).start_y == old(self).start_y
                    &&& final(self).last_x == old(self).last_x && final(self).last_y == old(self).last_y
                    &&& !old(self).tracking ==> r == (None::<TouchPoint>, None::<SwipeEvent>)
                    &&& old(self).tracking ==> r == (
                        None::<TouchPoint>,
                        Some(
                            SwipeEvent {
                                direction: classify(
                                    old(self).start_x,
                                    old(self).start_y,
                                    old(self).last_x,
                                    old(self).last_y,
                                ),
                                start_x: old(self).start_x,
                                start_y: old(self).start_y,
                                end_x: old(self).last_x,
                                end_y: old(self).last_y,
                            },
                        ),
                    )
                },
            },
    {
        match point {
            Some(tp) => {
                if !self.tracking {
                    self.tracking = true;
                    self.start_x = tp.x;
                    self.start_y = tp.y;
                }
                self.last_x = tp.x;
                self.last_y = tp.y;
                (Some(tp), None)
            },
            None => {
                if self.tracking {
                    self.tracking = false;
                    let direction = swipe_direction(self.start_x, self.start_y, self.last_x, self.last_y);
                    let event = SwipeEvent {
                        direction,
                        start_x: self.start_x,
                        start_y: self.start_y,
                        end_x: self.last_x,
                        end_y: self.last_y,
                    };
                    (None, Some(event))
                } else {
                    (None, None)
                }
            },
        }
    }

    /// The gesture reported by the gesture-id register.
    pub fn read_gesture(&self, id: u8) -> (r: Gesture)
        ensures
            r == gesture_of(id),
    {
        if id == 0x00 {
            Gesture::NoGesture
        } else if id == 0x20 {
            Gesture::SwipeLeft
        } else if id == 0x21 {
            Gesture::SwipeRight
        } else if id == 0x22 {
            Gesture::SwipeUp
        } else if id == 0x23 {
            Gesture::SwipeDown
        } else if id == 0x24 {
            Gesture::DoubleTap
        } else {
            Gesture::Unknown(id)
        }
    }

    /// The number of active touch points, as the finger-count register
    /// reports it.
    pub fn finger_number(&self, reg: u8) -> (r: u8)
        ensures
            r == reg,
    {
        reg
    }

    /// The first touch point from the finger count and the four bytes read
    /// from its coordinate registers.
    pub fn touch1(&self, fingers: u8, data: [u8; 4]) -> (r: TouchState)
        ensures
            fingers == 0 ==> r == TouchState::Released,
            fingers != 0 ==> r == TouchState::Pressed(
                TouchPoint { x: coord(data[0], data[1]), y: coord(data[2], data[3]), fingers },
            ),
    {
        if fingers == 0 {
            return TouchState::Released;
        }
        TouchState::Pressed(TouchPoint { x: coord_of(data[0], data[1]), y: coord_of(data[2], data[3]), fingers })
    }

    /// The second touch point; released unless two fingers are down.
    pub fn touch2(&self, fingers: u8, data: [u8; 4]) -> (r: TouchState)
        ensures
            fingers < 2 ==> r == TouchState::Released,
            fingers >= 2 ==> r == TouchState::Pressed(
                TouchPoint { x: coord(data[0], data[1]), y: coord(data[2], data[3]), fingers },
            ),
    {
        if fingers < 2 {
            return TouchState::Released;
        }
        TouchState::Pressed(TouchPoint { x: coord_of(data[0], data[1]), y: coord_of(data[2], data[3]), fingers })
    }

    /// All active touch points (up to two) from the finger count and the
    /// two points' states.
    pub fn get_touches(&self, fingers: u8, first: TouchState, second: TouchState) -> (r: Vec<TouchPoint>)
        ensures
            r@ == (if fingers >= 1 {
                match first {
                    TouchState::Pressed(p) => seq![p],
                    TouchState::Released => seq![],
                }
            } else {
                seq![]
            }) + (if fingers >= 2 {
                match second {
                    TouchState::Pressed(q) => seq![q],
                    TouchState::Released => seq![],
                }
            } else {
                seq![]
            }),
    {
        let mut touches: Vec<TouchPoint> = Vec::new();
        if fingers >= 1 {
            if let TouchState::Pressed(p) = first {
                touches.push(p);
            }
        }
        if fingers >= 2 {
            if let TouchState::Pressed(q) = second {
                touches.push(q);
            }
        }
        touches
    }
}

} // verus!
