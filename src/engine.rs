use vstd::prelude::*;
use vstd::arithmetic::div_mod::{lemma_div_is_ordered, lemma_div_is_ordered_by_denominator};
use crate::curve::{Curve, PARAM_MAX, ceiling, factor_spec, lemma_factor_bounded};
use crate::event::{TimeVal, EventCode, RawEvent, ReadStatus, SyncState, ReadMode};
use crate::fixed::{ONE, HALF, div_floor, isqrt, is_isqrt, nearest, round_nearest};

verus! {

/// Largest magnitude of a pending axis value, in micro-units: an `i32` count
/// plus a carry.
pub const AXIS_MAX: i64 = 2147483648500000;

/// Microseconds between the last frame and `now`; zero before the first frame.
pub open spec fn elapsed_us(now: TimeVal, last: Option<TimeVal>) -> int {
    match last {
        Some(l) => (now.sec - l.sec) * 1000000 + (now.usec - l.usec),
        None => 0,
    }
}

/// Length of the motion vector `(x, y)`, rounded down.
pub open spec fn dist(x: int, y: int) -> int {
    choose|r: int| #[trigger] is_isqrt(x * x + y * y, r)
}

/// Speed in micro-units per millisecond, for a positive `elapsed`.
pub open spec fn speed_of(x: int, y: int, elapsed: int) -> int {
    (dist(x, y) * 1000) / elapsed
}

/// `n` held within the range of `i32`.
pub open spec fn clamp_i32(n: int) -> int {
    if n > i32::MAX {
        i32::MAX as int
    } else if n < i32::MIN {
        i32::MIN as int
    } else {
        n
    }
}

/// Microseconds between `last` and `now`; zero without a `last`.
fn elapsed(now: TimeVal, last: Option<TimeVal>) -> (r: i128)
    ensures
        r == elapsed_us(now, last),
{
    match last {
        Some(l) => (now.sec as i128 - l.sec as i128) * 1000000 + (now.usec as i128 - l.usec as i128),
        None => 0,
    }
}

/// The integer square root is unique.
proof fn lemma_isqrt_unique(n: int, r1: int, r2: int)
    requires
        is_isqrt(n, r1),
        is_isqrt(n, r2),
    ensures
        r1 == r2,
{
    if r1 < r2 {
        assert((r1 + 1) * (r1 + 1) <= r2 * r2) by (nonlinear_arith)
            requires
                0 <= r1 + 1 <= r2,
        ;
    } else if r2 < r1 {
        assert((r2 + 1) * (r2 + 1) <= r1 * r1) by (nonlinear_arith)
            requires
                0 <= r2 + 1 <= r1,
        ;
    }
}

/// The event-stream engine: pending motion of the current frame, the carry
/// from the last one, the time of the last frame, and the sync state.
#[derive(Clone, Copy, Debug)]
pub struct Engine {
    pub curve: Curve,
    /// Pending X motion of the current frame, in micro-units.
    pub x: i64,
    /// Pending Y motion of the current frame, in micro-units.
    pub y: i64,
    /// What rounding left over on X at the last frame, in micro-units.
    pub carry_x: i64,
    /// What rounding left over on Y at the last frame, in micro-units.
    pub carry_y: i64,
    /// Time of the last frame terminator processed, if any.
    pub last_frame: Option<TimeVal>,
    pub sync: SyncState,
}

impl Engine {
    /// A valid curve, pending motion in range, each carry in `(-HALF, HALF]`.
    pub open spec fn wf(&self) -> bool {
        &&& self.curve.wf()
        &&& -AXIS_MAX <= self.x <= AXIS_MAX
        &&& -AXIS_MAX <= self.y <= AXIS_MAX
        &&& -HALF < self.carry_x <= HALF
        &&& -HALF < self.carry_y <= HALF
    }

    /// Everything but the sync state agrees.
    pub open spec fn same_frame_state(&self, o: Engine) -> bool {
        &&& self.curve == o.curve
        &&& self.x == o.x
        &&& self.y == o.y
        &&& self.carry_x == o.carry_x
        &&& self.carry_y == o.carry_y
        &&& self.last_frame == o.last_frame
    }

    /// Scale for a frame ending at `now`. Without a positive elapsed time the
    /// speed counts as unbounded and the scale is `mult * cap`.
    pub open spec fn scale_at(&self, now: TimeVal) -> int {
        let e = elapsed_us(now, self.last_frame);
        let c = self.curve;
        if e <= 0 {
            (c.mult * ceiling(c.cap)) / (ONE as int)
        } else {
            factor_spec(c.mult as int, c.accel as int, c.cap, c.offset as int, speed_of(self.x as int, self.y as int, e))
        }
    }

    /// Pending X motion once scaled, in micro-units.
    pub open spec fn scaled_x(&self, now: TimeVal) -> int {
        (self.scale_at(now) * self.x) / (ONE as int)
    }

    /// Pending Y motion once scaled, in micro-units.
    pub open spec fn scaled_y(&self, now: TimeVal) -> int {
        (self.scale_at(now) * self.y) / (ONE as int)
    }

    /// Closing a frame at terminator `ev`: emit the rounded X and Y motion and
    /// the terminator, keep the remainders, clear the pending motion.
    pub open spec fn frame(self, ev: RawEvent) -> (Engine, Seq<RawEvent>) {
        let sx = self.scaled_x(ev.time);
        let sy = self.scaled_y(ev.time);
        let next = Engine {
            x: 0,
            y: 0,
            carry_x: (sx - nearest(sx) * ONE) as i64,
            carry_y: (sy - nearest(sy) * ONE) as i64,
            last_frame: Some(ev.time),
            ..self
        };
        let mx = RawEvent { time: ev.time, code: EventCode::RelX, value: clamp_i32(nearest(sx)) as i32 };
        let my = RawEvent { time: ev.time, code: EventCode::RelY, value: clamp_i32(nearest(sy)) as i32 };
        (next, seq![mx, my, ev])
    }

    /// One read: the state after it and the events it sends on.
    pub open spec fn step(self, status: ReadStatus, ev: RawEvent) -> (Engine, Seq<RawEvent>) {
        match status {
            ReadStatus::SyncLoss => (Engine { sync: SyncState::Resyncing, ..self }, Seq::empty()),
            ReadStatus::Normal => {
                let s = Engine { sync: SyncState::Normal, ..self };
                match ev.code {
                    EventCode::RelX => (Engine { x: (ev.value * ONE + self.carry_x) as i64, ..s }, Seq::empty()),
                    EventCode::RelY => (Engine { y: (ev.value * ONE + self.carry_y) as i64, ..s }, Seq::empty()),
                    EventCode::SynReport => s.frame(ev),
                    EventCode::Other { .. } => (s, seq![ev]),
                }
            },
        }
    }

    /// A fresh engine: nothing pending, no carry, no frame seen, in step.
    pub fn new(curve: Curve) -> (r: Engine)
        requires
            curve.wf(),
        ensures
            r.wf(),
            r == (Engine { curve, x: 0, y: 0, carry_x: 0, carry_y: 0, last_frame: None, sync: SyncState::Normal }),
    {
        Engine { curve, x: 0, y: 0, carry_x: 0, carry_y: 0, last_frame: None, sync: SyncState::Normal }
    }

    /// How the next read from the source must be made.
    pub fn read_mode(&self) -> (r: ReadMode)
        ensures
            r == (match self.sync {
                SyncState::Normal => ReadMode::Normal,
                SyncState::Resyncing => ReadMode::Sync,
            }),
    {
        match self.sync {
            SyncState::Normal => ReadMode::Normal,
            SyncState::Resyncing => ReadMode::Sync,
        }
    }

    /// Scale for the frame ending at `now`.
    pub fn scale(&self, now: TimeVal) -> (r: i64)
        requires
            self.wf(),
        ensures
            r == self.scale_at(now),
            -1000000000000000000 <= r <= 1000000000000000000,
    {
        let e = elapsed(now, self.last_frame);
        let c = self.curve;
        if e <= 0 {
            let top: i128 = match c.cap {
                Some(t) => t as i128,
                None => PARAM_MAX as i128,
            };
            assert(0 < c.mult * top <= 1000000000000000000000000) by (nonlinear_arith)
                requires
                    0 < c.mult <= PARAM_MAX,
                    0 < top <= PARAM_MAX,
            ;
            return div_floor(c.mult as i128 * top, ONE as i128) as i64;
        }
        let x = self.x as i128;
        let y = self.y as i128;
        assert(0 <= x * x <= AXIS_MAX * AXIS_MAX && 0 <= y * y <= AXIS_MAX * AXIS_MAX) by (nonlinear_arith)
            requires
                -AXIS_MAX <= x <= AXIS_MAX,
                -AXIS_MAX <= y <= AXIS_MAX,
        ;
        let n: u128 = (x * x + y * y) as u128;
        let d = isqrt(n);
        proof {
            lemma_isqrt_unique(x * x + y * y, d as int, dist(x as int, y as int));
        }
        assert(d < 0x10000000000000) by (nonlinear_arith)
            requires
                d * d <= n,
                n < 0x100000000000000000000000000,
        ;
        let speed = (d * 1000) / (e as u128);
        proof {
            lemma_div_is_ordered_by_denominator(d * 1000, 1, e as int);
        }
        let f = c.factor_at(speed as i64);
        proof {
            lemma_factor_bounded(c.mult as int, c.accel as int, c.cap, c.offset as int, speed as int);
        }
        f
    }
    /// Closes the frame at terminator `ev`.
    fn close_frame(&mut self, ev: RawEvent) -> (r: Vec<RawEvent>)
        requires
            old(self).wf(),
        ensures
            final(self).wf(),
            (*final(self), r@) == old(self).frame(ev),
    {
        let s = self.scale(ev.time) as i128;
        let x = self.x as i128;
        let y = self.y as i128;
        proof {
            lemma_scaled_bounded(s as int, x as int);
            lemma_scaled_bounded(s as int, y as int);
        }
        let (nx, cx) = round_nearest(div_floor(s * x, ONE as i128));
        let (ny, cy) = round_nearest(div_floor(s * y, ONE as i128));
        let mx = RawEvent { time: ev.time, code: EventCode::RelX, value: saturate_i32(nx) };
        let my = RawEvent { time: ev.time, code: EventCode::RelY, value: saturate_i32(ny) };
        self.x = 0;
        self.y = 0;
        self.carry_x = cx;
        self.carry_y = cy;
        self.last_frame = Some(ev.time);
        let r = vec![mx, my, ev];
        assert(r@ =~= seq![mx, my, ev]);
        r
    }

    /// Takes in one read from the source and returns the events to send on.
    pub fn on_read(&mut self, status: ReadStatus, ev: RawEvent) -> (r: Vec<RawEvent>)
        requires
            old(self).wf(),
        ensures
            final(self).wf(),
            (*final(self), r@) == old(self).step(status, ev),
    {
        if status == ReadStatus::SyncLoss {
            self.sync = SyncState::Resyncing;
            return Vec::new();
        }
        self.sync = SyncState::Normal;
        match ev.code {
            EventCode::RelX => {
                self.x = ev.value as i64 * ONE + self.carry_x;
                Vec::new()
            },
            EventCode::RelY => {
                self.y = ev.value as i64 * ONE + self.carry_y;
                Vec::new()
            },
            EventCode::SynReport => self.close_frame(ev),
            EventCode::Other { .. } => {
                let r = vec![ev];
                assert(r@ =~= seq![ev]);
                r
            },
        }
    }
}

/// `n` held within the range of `i32`.
fn saturate_i32(n: i128) -> (r: i32)
    ensures
        r == clamp_i32(n as int),
{
    if n > i32::MAX as i128 {
        i32::MAX
    } else if n < i32::MIN as i128 {
        i32::MIN
    } else {
        n as i32
    }
}

/// A scale within `10^18` times a pending axis value stays well inside `i128`.
proof fn lemma_scaled_bounded(s: int, v: int)
    requires
        -1000000000000000000 <= s <= 1000000000000000000,
        -AXIS_MAX <= v <= AXIS_MAX,
    ensures
        -0x10000000000000000000000000000000 < s * v < 0x10000000000000000000000000000000,
        -0x1000000000000000000000000000000 < (s * v) / (ONE as int) < 0x1000000000000000000000000000000,
{
    assert(-2147483648500000000000000000000000 <= s * v <= 2147483648500000000000000000000000)
        by (nonlinear_arith)
        requires
            -1000000000000000000 <= s <= 1000000000000000000,
            -AXIS_MAX <= v <= AXIS_MAX,
    ;
    lemma_div_is_ordered(-2147483648500000000000000000000000, s * v, ONE as int);
    lemma_div_is_ordered(s * v, 2147483648500000000000000000000000, ONE as int);
}

} // verus!
