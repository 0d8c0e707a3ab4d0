//! A fixed-shape record of one pong-style game round: the two players, the
//! ball, an identifier and a status flag. Only its initial value has any
//! logic to it; transporting the record is some caller's business.

use vstd::prelude::*;

verus! {

/// A planar coordinate, one byte per axis.
#[derive(Clone, Copy, Debug, PartialEq, Eq, Structural)]
pub struct Position {
    pub x: i8,
    pub y: i8,
}

/// The state of one game round.
#[derive(Clone, Copy, Debug, PartialEq, Eq, Structural)]
#[allow(non_camel_case_types)]
pub struct gameInfo {
    pub gameId: u32,
    pub player1: Position,
    pub player2: Position,
    pub ball: Position,
    pub gameStatus: i8,
}

impl gameInfo {
    /// The initial state: both players and the ball at the origin, the
    /// identifier and the status at zero.
    #[allow(non_snake_case)]
    pub fn GameInfo() -> (g: gameInfo)
        ensures
            g.gameId == 0,
            g.player1.x == 0 && g.player1.y == 0,
            g.player2.x == 0 && g.player2.y == 0,
            g.ball.x == 0 && g.ball.y == 0,
            g.gameStatus == 0,
    {
        gameInfo {
            gameId: 0,
            player1: Position { x: 0, y: 0 },
            player2: Position { x: 0, y: 0 },
            ball: Position { x: 0, y: 0 },
            gameStatus: 0,
        }
    }
}

} // verus!
