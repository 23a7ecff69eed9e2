//! The viewer's state between frames and the decisions taken on each batch of
//! pressed keys: movement, turning, the overview toggle and quitting.

use vstd::prelude::*;
use crate::view::{div_trunc, div_toward_zero, ONE};

verus! {

/// Walking speed, in thousandths of a level unit per millisecond.
pub const PLAYER_SPEED: i128 = 100;

/// Turning speed, in thousandths of a degree per millisecond.
pub const PLAYER_ROTATION_SPEED: i128 = 30;

/// A full turn, in thousandths of a degree.
pub const FULL_TURN: i128 = 360000;

/// Least time between two toggles of the overview, in milliseconds.
pub const TOGGLE_DELAY: u64 = 200;

/// The keys the viewer reacts to.
#[derive(Debug, Clone, Copy, PartialEq, Eq, Structural)]
pub enum Key {
    W,
    S,
    A,
    D,
    Left,
    Right,
    M,
    Q,
}

/// What the caller should do after the keys were handled.
#[derive(Debug, Clone, Copy, PartialEq, Eq, Structural)]
pub enum Action {
    Continue,
    Quit,
}

/// `v` saturated to the range of `i64`.
pub open spec fn sat(v: int) -> int {
    if v < i64::MIN {
        i64::MIN as int
    } else if v > i64::MAX {
        i64::MAX as int
    } else {
        v
    }
}

/// The remainder of `a` by `m` with the sign of `a`, as Rust's `%` gives it.
pub open spec fn rem_trunc(a: int, m: int) -> int {
    if a >= 0 {
        a % m
    } else {
        -((-a) % m)
    }
}

/// Saturates `v` to `i64`.
fn saturate(v: i128) -> (r: i64)
    ensures
        r == sat(v as int),
{
    if v < i64::MIN as i128 {
        i64::MIN
    } else if v > i64::MAX as i128 {
        i64::MAX
    } else {
        v as i64
    }
}

/// The viewer: position in thousandths of a level unit, facing angle in
/// thousandths of a degree, strictly within one full turn either way.
#[derive(Debug, Clone, Copy, PartialEq, Eq, Structural)]
pub struct Player {
    pub x: i64,
    pub y: i64,
    pub angle: i64,
}

impl Player {
    /// A viewer at the origin facing angle zero.
    pub fn new() -> (p: Player)
        ensures
            p == (Player { x: 0, y: 0, angle: 0 }),
    {
        Player { x: 0, y: 0, angle: 0 }
    }

    /// Moves along x by `delta`, saturating at the range of `i64`.
    pub fn move_x(&mut self, delta: i64)
        ensures
            *final(self) == (Player { x: sat(old(self).x + delta) as i64, ..*old(self) }),
    {
        self.x = saturate(self.x as i128 + delta as i128);
    }

    /// Moves along y by `delta`, saturating at the range of `i64`.
    pub fn move_y(&mut self, delta: i64)
        ensures
            *final(self) == (Player { y: sat(old(self).y + delta) as i64, ..*old(self) }),
    {
        self.y = saturate(self.y as i128 + delta as i128);
    }

    /// Turns by `delta_angle`, keeping the angle within one full turn.
    pub fn rotate(&mut self, delta_angle: i64)
        ensures
            *final(self) == (Player {
                angle: rem_trunc(old(self).angle + delta_angle, FULL_TURN as int) as i64,
                ..*old(self)
            }),
    {
        let a: i128 = self.angle as i128 + delta_angle as i128;
        let r: i128 = if a >= 0 {
            a % FULL_TURN
        } else {
            -((-a) % FULL_TURN)
        };
        self.angle = r as i64;
    }
}

/// The distance moved in `dt` milliseconds along an axis whose direction
/// component is `c / ONE`.
pub open spec fn travel(c: int, dt: int) -> int {
    sat(div_trunc(c * PLAYER_SPEED * dt, ONE as int))
}

/// Computes `travel`.
fn travel_exec(c: i32, dt: u64) -> (r: i64)
    requires
        -ONE <= c <= ONE,
    ensures
        r == travel(c as int, dt as int),
{
    proof {
        assert(-65536 * 100 * 0x1_0000_0000_0000_0000 <= c * 100 * dt <= 65536 * 100 * 0x1_0000_0000_0000_0000)
            by (nonlinear_arith)
            requires -65536 <= c <= 65536, 0 <= dt < 0x1_0000_0000_0000_0000;
    }
    let q = div_toward_zero(c as i128 * PLAYER_SPEED * dt as i128, ONE as i128);
    saturate(q)
}

/// The viewer after one batch of keys held for `dt` milliseconds, facing with
/// cosine `cos / ONE` and sine `sin / ONE`: forward and back move along the
/// facing direction, left and right at right angles to it, and the arrow keys
/// turn.
pub open spec fn moved(p: Player, keys: Seq<Key>, dt: int, cos: int, sin: int) -> Player {
    let p1 = if keys.contains(Key::W) {
        Player { x: sat(p.x + travel(cos, dt)) as i64, y: sat(p.y + travel(sin, dt)) as i64, ..p }
    } else {
        p
    };
    let p2 = if keys.contains(Key::S) {
        Player { x: sat(p1.x + travel(-cos, dt)) as i64, y: sat(p1.y + travel(-sin, dt)) as i64, ..p1 }
    } else {
        p1
    };
    let p3 = if keys.contains(Key::A) {
        Player { x: sat(p2.x + travel(sin, dt)) as i64, y: sat(p2.y + travel(-cos, dt)) as i64, ..p2 }
    } else {
        p2
    };
    let p4 = if keys.contains(Key::D) {
        Player { x: sat(p3.x + travel(-sin, dt)) as i64, y: sat(p3.y + travel(cos, dt)) as i64, ..p3 }
    } else {
        p3
    };
    let turn = sat(PLAYER_ROTATION_SPEED * dt);
    let p5 = if keys.contains(Key::Left) {
        Player { angle: rem_trunc(p4.angle - turn, FULL_TURN as int) as i64, ..p4 }
    } else {
        p4
    };
    if keys.contains(Key::Right) {
        Player { angle: rem_trunc(p5.angle + turn, FULL_TURN as int) as i64, ..p5 }
    } else {
        p5
    }
}

/// Whether `keys` holds `k`.
pub fn has_key(keys: &[Key], k: Key) -> (r: bool)
    ensures
        r == keys@.contains(k),
{
    let mut i: usize = 0;
    while i < keys.len()
        invariant
            i <= keys@.len(),
            forall|j: int| 0 <= j < i ==> keys@[j] != k,
        decreases keys@.len() - i,
    {
        if keys[i] == k {
            assert(keys@[i as int] == k);
            return true;
        }
        i = i + 1;
    }
    false
}

/// The clock and the overview toggle.
#[derive(Debug, Clone, Copy, PartialEq, Eq, Structural)]
pub struct Game {
    /// When keys were last handled, in milliseconds.
    pub last_update: u64,
    /// Whether the overview is shown instead of the first-person view.
    pub render_map: bool,
    /// When the overview was last toggled, in milliseconds.
    pub last_toggle_time: u64,
}

/// Milliseconds from `then` to `now`, or zero if the clock went back.
pub open spec fn elapsed(then: u64, now: u64) -> int {
    if now >= then {
        now - then
    } else {
        0
    }
}

impl Game {
    /// A game started at `now` milliseconds, with the overview hidden.
    pub fn new(now: u64) -> (g: Game)
        ensures
            g == (Game { last_update: now, render_map: false, last_toggle_time: now }),
    {
        Game { last_update: now, render_map: false, last_toggle_time: now }
    }

    /// Handles the keys held at `now` milliseconds: moves and turns the player
    /// for the time since the last call, toggles the overview on `M` unless it
    /// was toggled within the last `TOGGLE_DELAY` milliseconds, and asks to
    /// quit on `Q`. `cos` and `sin` give the player's facing direction.
    pub fn handle_input(&mut self, keys: &[Key], now: u64, cos: i32, sin: i32, player: &mut Player) -> (r: Action)
        requires
            -ONE <= cos <= ONE,
            -ONE <= sin <= ONE,
        ensures
            *final(player) == moved(*old(player), keys@, elapsed(old(self).last_update, now), cos as int, sin as int),
            final(self).last_update == now,
            keys@.contains(Key::M) && elapsed(old(self).last_toggle_time, now) > TOGGLE_DELAY ==> final(self).render_map == !old(self).render_map && final(self).last_toggle_time == now,
            !(keys@.contains(Key::M) && elapsed(old(self).last_toggle_time, now) > TOGGLE_DELAY) ==> final(self).render_map == old(self).render_map && final(self).last_toggle_time == old(self).last_toggle_time,
            r == (if keys@.contains(Key::Q) { Action::Quit } else { Action::Continue }),
    {
        let dt: u64 = if now >= self.last_update { now - self.last_update } else { 0 };
        self.last_update = now;
        if has_key(keys, Key::W) {
            player.move_x(travel_exec(cos, dt));
            player.move_y(travel_exec(sin, dt));
        }
        if has_key(keys, Key::S) {
            player.move_x(travel_exec(-cos, dt));
            player.move_y(travel_exec(-sin, dt));
        }
        if has_key(keys, Key::A) {
            player.move_x(travel_exec(sin, dt));
            player.move_y(travel_exec(-cos, dt));
        }
        if has_key(keys, Key::D) {
            player.move_x(travel_exec(-sin, dt));
            player.move_y(travel_exec(cos, dt));
        }
        let turn = saturate(PLAYER_ROTATION_SPEED * dt as i128);
        if has_key(keys, Key::Left) {
            player.rotate(saturate(-(turn as i128)));
        }
        if has_key(keys, Key::Right) {
            player.rotate(turn);
        }
        if has_key(keys, Key::M) {
            let since: u64 = if now >= self.last_toggle_time { now - self.last_toggle_time } else { 0 };
            if since > TOGGLE_DELAY {
                self.render_map = !self.render_map;
                self.last_toggle_time = now;
            }
        }
        if has_key(keys, Key::Q) {
            Action::Quit
        } else {
            Action::Continue
        }
    }
}

} // verus!
