//! A free-standing player square that moves within the configured screen and
//! draws itself into the pixel buffer.
use vstd::prelude::*;

use crate::{HEIGHT, WIDTH};

verus! {

/// The player's state as plain numbers.
pub struct PlayerView {
    pub x: nat,
    pub y: nat,
    pub color: u32,
    pub size: nat,
    pub regular_speed: nat,
    pub boost_speed: nat,
    pub current_speed: nat,
}

pub struct Player {
    x: usize,
    y: usize,
    color: u32,
    size: usize,
    regular_speed: usize,
    boost_speed: usize,
    current_speed: usize,
}

/// Direction of a move along one axis.
#[derive(Debug, Clone, Copy, PartialEq, Eq, Structural)]
pub enum DirState {
    Negative,
    Zero,
    Positive,
}

impl View for Player {
    type V = PlayerView;

    closed spec fn view(&self) -> PlayerView {
        PlayerView {
            x: self.x as nat,
            y: self.y as nat,
            color: self.color,
            size: self.size as nat,
            regular_speed: self.regular_speed as nat,
            boost_speed: self.boost_speed as nat,
            current_speed: self.current_speed as nat,
        }
    }
}

/// One axis of a player move. A `Positive` direction lowers the coordinate
/// and a `Negative` one raises it; the move is kept only if the square then
/// lies wholly within `[0, bound)`.
pub open spec fn player_axis(p: nat, dir: DirState, speed: nat, size: nat, bound: nat) -> nat {
    let n: int = match dir {
        DirState::Positive => p - speed,
        DirState::Negative => (p + speed) as int,
        DirState::Zero => p as int,
    };
    if n >= 0 && n + size <= bound {
        n as nat
    } else {
        p
    }
}

/// Buffer index `p` is the on-screen pixel at row `r` and column `c` of the
/// square whose top-left corner is at `(x, y)`.
pub open spec fn square_hit(p: int, x: int, y: int, r: int, c: int) -> bool {
    &&& x + c < WIDTH
    &&& y + r < HEIGHT
    &&& p == (y + r) * WIDTH + x + c
}

/// Buffer index `p` is an on-screen pixel of the player's square.
pub open spec fn square_covers(v: PlayerView, p: int) -> bool {
    exists|r: int, c: int|
        0 <= r < v.size && 0 <= c < v.size && #[trigger] square_hit(p, v.x as int, v.y as int, r, c)
}

/// The pixels of rows before `row`, and of row `row` before column `col`.
spec fn square_done(p: int, x: int, y: int, size: int, row: int, col: int) -> bool {
    exists|r: int, c: int|
        0 <= c < size && (0 <= r < row || (r == row && c < col)) && #[trigger] square_hit(
            p,
            x,
            y,
            r,
            c,
        )
}

proof fn lemma_square_done_step(p: int, x: int, y: int, size: int, row: int, col: int)
    requires
        0 <= row,
        0 <= col < size,
    ensures
        square_done(p, x, y, size, row, col + 1) == (square_done(p, x, y, size, row, col)
            || square_hit(p, x, y, row, col)),
{
    if square_done(p, x, y, size, row, col + 1) {
        let (r, c) = choose|r: int, c: int|
            0 <= c < size && (0 <= r < row || (r == row && c < col + 1)) && #[trigger] square_hit(
                p,
                x,
                y,
                r,
                c,
            );
        if !(r == row && c == col) {
            assert(square_done(p, x, y, size, row, col));
        }
    }
    if square_done(p, x, y, size, row, col) {
        let (r, c) = choose|r: int, c: int|
            0 <= c < size && (0 <= r < row || (r == row && c < col)) && #[trigger] square_hit(
                p,
                x,
                y,
                r,
                c,
            );
        assert(square_hit(p, x, y, r, c));
    }
    if square_hit(p, x, y, row, col) {
        assert(square_done(p, x, y, size, row, col + 1));
    }
}

proof fn lemma_square_done_row(p: int, x: int, y: int, size: int, row: int)
    requires
        0 <= row,
        0 <= size,
    ensures
        square_done(p, x, y, size, row, size) == square_done(p, x, y, size, row + 1, 0),
{
    if square_done(p, x, y, size, row, size) {
        let (r, c) = choose|r: int, c: int|
            0 <= c < size && (0 <= r < row || (r == row && c < size)) && #[trigger] square_hit(
                p,
                x,
                y,
                r,
                c,
            );
        assert(square_hit(p, x, y, r, c));
    }
    if square_done(p, x, y, size, row + 1, 0) {
        let (r, c) = choose|r: int, c: int|
            0 <= c < size && (0 <= r < row + 1 || (r == row + 1 && c < 0)) && #[trigger] square_hit(
                p,
                x,
                y,
                r,
                c,
            );
        assert(square_hit(p, x, y, r, c));
    }
}

impl Player {
    pub fn new(
        x: usize,
        y: usize,
        color: u32,
        size: usize,
        regular_speed: usize,
        boost_speed: usize,
    ) -> (r: Self)
        ensures
            r@ == (PlayerView {
                x: x as nat,
                y: y as nat,
                color,
                size: size as nat,
                regular_speed: regular_speed as nat,
                boost_speed: boost_speed as nat,
                current_speed: regular_speed as nat,
            }),
    {
        Player { x, y, color, size, regular_speed, boost_speed, current_speed: regular_speed }
    }

    /// The top-left corner.
    pub fn position(&self) -> (r: (usize, usize))
        ensures
            r.0 == self@.x,
            r.1 == self@.y,
    {
        (self.x, self.y)
    }

    /// Fills the on-screen part of the player's square with its color.
    pub fn draw(&self, buffer: &mut [u32])
        requires
            old(buffer)@.len() >= WIDTH * HEIGHT,
        ensures
            final(buffer)@.len() == old(buffer)@.len(),
            forall|p: int|
                0 <= p < old(buffer)@.len() ==> final(buffer)@[p] == if square_covers(self@, p) {
                    self@.color
                } else {
                    old(buffer)@[p]
                },
    {
        let ghost old_buf = buffer@;
        let ghost x = self.x as int;
        let ghost y = self.y as int;
        let ghost size = self.size as int;
        let mut row: usize = 0;
        while row < self.size
            invariant
                buffer@.len() == old_buf.len(),
                old_buf.len() >= WIDTH * HEIGHT,
                x == self.x,
                y == self.y,
                size == self.size,
                row <= self.size,
                forall|p: int|
                    0 <= p < old_buf.len() ==> buffer@[p] == if square_done(p, x, y, size, row as int, 0) {
                        self.color
                    } else {
                        old_buf[p]
                    },
            decreases self.size - row,
        {
            let mut col: usize = 0;
            while col < self.size
                invariant
                    buffer@.len() == old_buf.len(),
                    old_buf.len() >= WIDTH * HEIGHT,
                    x == self.x,
                    y == self.y,
                    size == self.size,
                    row < self.size,
                    col <= self.size,
                    forall|p: int|
                        0 <= p < old_buf.len() ==> buffer@[p] == if square_done(
                            p,
                            x,
                            y,
                            size,
                            row as int,
                            col as int,
                        ) {
                            self.color
                        } else {
                            old_buf[p]
                        },
                decreases self.size - col,
            {
                if self.x < WIDTH && col < WIDTH - self.x && self.y < HEIGHT && row < HEIGHT
                    - self.y {
                    let px = self.x + col;
                    let py = self.y + row;
                    buffer[py * WIDTH + px] = self.color;
                }
                proof {
                    assert forall|p: int| 0 <= p < old_buf.len() implies buffer@[p] == if square_done(
                        p,
                        x,
                        y,
                        size,
                        row as int,
                        col + 1,
                    ) {
                        self.color
                    } else {
                        old_buf[p]
                    } by {
                        lemma_square_done_step(p, x, y, size, row as int, col as int);
                    }
                }
                col += 1;
            }
            proof {
                assert forall|p: int| 0 <= p < old_buf.len() implies buffer@[p] == if square_done(
                    p,
                    x,
                    y,
                    size,
                    row + 1,
                    0,
                ) {
                    self.color
                } else {
                    old_buf[p]
                } by {
                    lemma_square_done_row(p, x, y, size, row as int);
                }
            }
            row += 1;
        }
        proof {
            assert forall|p: int| 0 <= p < old_buf.len() implies buffer@[p] == if square_covers(
                self@,
                p,
            ) {
                self.color
            } else {
                old_buf[p]
            } by {
                assert(row == self.size);
                assert(self@.x == x && self@.y == y && self@.size == size);
                if square_covers(self@, p) {
                    let (r, c) = choose|r: int, c: int|
                        0 <= r < size && 0 <= c < size && #[trigger] square_hit(p, x, y, r, c);
                    assert(square_hit(p, x, y, r, c));
                    assert(square_done(p, x, y, size, size, 0));
                }
                if square_done(p, x, y, size, size, 0) {
                    let (r, c) = choose|r: int, c: int|
                        0 <= c < size && (0 <= r < size || (r == size && c < 0)) && #[trigger] square_hit(
                            p,
                            x,
                            y,
                            r,
                            c,
                        );
                    assert(square_hit(p, x, y, r, c));
                    assert(square_covers(self@, p));
                }
            }
        }
    }

    /// Moves the player by its current speed along each axis, keeping each
    /// axis's old coordinate when the move would leave the screen.
    pub fn move_player(&mut self, x_dir: DirState, y_dir: DirState)
        ensures
            final(self)@ == (PlayerView {
                x: player_axis(old(self)@.x, x_dir, old(self)@.current_speed, old(self)@.size, WIDTH as nat),
                y: player_axis(old(self)@.y, y_dir, old(self)@.current_speed, old(self)@.size, HEIGHT as nat),
                ..old(self)@
            }),
    {
        self.x = step(self.x, x_dir, self.current_speed, self.size, WIDTH);
        self.y = step(self.y, y_dir, self.current_speed, self.size, HEIGHT);
    }

    /// Selects the boost speed when `activate` holds, the regular speed
    /// otherwise.
    pub fn boost(&mut self, activate: bool)
        ensures
            final(self)@ == (PlayerView {
                current_speed: if activate {
                    old(self)@.boost_speed
                } else {
                    old(self)@.regular_speed
                },
                ..old(self)@
            }),
    {
        if activate {
            self.current_speed = self.boost_speed;
        } else {
            self.current_speed = self.regular_speed;
        }
    }
}

fn step(p: usize, dir: DirState, speed: usize, size: usize, bound: usize) -> (r: usize)
    ensures
        r == player_axis(p as nat, dir, speed as nat, size as nat, bound as nat),
{
    let n: i128 = match dir {
        DirState::Positive => p as i128 - speed as i128,
        DirState::Negative => p as i128 + speed as i128,
        DirState::Zero => p as i128,
    };
    if n >= 0 && (n as u128) <= bound as u128 && size as u128 <= bound as u128 - n as u128 {
        n as usize
    } else {
        p
    }
}

} // verus!
