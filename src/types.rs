//! Data of the race: identities, cars, states, and the messages exchanged.
use vstd::prelude::*;

verus! {

/// Price of one unit of acceleration.
pub const ACCELERATION_COST: u32 = 10;
/// Price of one unit of shell.
pub const SHELL_COST: u32 = 20;
/// Most acceleration units that may be bought in one turn.
pub const MAX_ACC_AMOUNT: u32 = 25;
/// Most shell units that may be bought in one turn.
pub const MAX_SHELL_AMOUNT: u32 = 10;
/// Length of the track.
pub const MAX_DISTANCE: u32 = 10_000;
/// Time that one round lasts: a car moves `speed * TIME` per round.
pub const TIME: u32 = 1;
/// Number of participants that closes registration.
pub const QUORUM: usize = 3;
/// A penalty at or above this removes a participant from the turn order.
pub const PENALTY_LIMIT: u8 = 5;
/// Starting balance of every car.
pub const START_BALANCE: u32 = 15_000;
/// Starting speed of every car.
pub const START_SPEED: u32 = 100;

/// Execution budget handed to a participant for one decision.
pub const GAS_FOR_STRATEGY: u64 = 20_000_000_000;
/// Budget held by one reservation.
pub const RESERVATION_AMOUNT: u64 = 240_000_000_000;
/// Number of blocks that a reservation lasts.
pub const RESERVATION_TIME: u32 = 86_400;
/// At or below this remaining budget the next turn is not sent directly.
pub const GAS_MIN_AMOUNT: u64 = 30_000_000_000;

/// A 256-bit identity (of an actor, a message or a reservation), held as two
/// halves. The zero value stands for "none".
#[derive(Clone, Copy, Debug, PartialEq, Eq, Structural)]
pub struct Id256 {
    pub hi: u128,
    pub lo: u128,
}

/// Identity of a participant or of the administrator.
pub type ActorId = Id256;
/// Correlation id of a sent request.
pub type MessageId = Id256;
/// Handle of an execution reservation.
pub type ReservationId = Id256;

impl Id256 {
    /// The identity made of zeros.
    pub fn zero() -> (r: Id256)
        ensures
            r.hi == 0 && r.lo == 0,
    {
        Id256 { hi: 0, lo: 0 }
    }

    /// The identity whose low 64 bits are `v` and whose other bits are zero.
    pub fn from_u64(v: u64) -> (r: Id256)
        ensures
            r.hi == 0,
            r.lo == v as u128,
    {
        Id256 { hi: 0, lo: v as u128 }
    }

    pub open spec fn is_zero_spec(&self) -> bool {
        self.hi == 0 && self.lo == 0
    }

    pub fn is_zero(&self) -> (r: bool)
        ensures
            r == self.is_zero_spec(),
    {
        self.hi == 0 && self.lo == 0
    }
}

/// Economic and physical state of one participant.
#[derive(Clone, Copy, Debug, PartialEq, Eq, Structural)]
pub struct Car {
    pub balance: u32,
    pub position: u32,
    pub speed: u32,
    pub penalty: u8,
}

impl Car {
    /// The car that every participant starts with.
    pub fn starting() -> (r: Car)
        ensures
            r == starting_car(),
    {
        Car { balance: START_BALANCE, position: 0, speed: START_SPEED, penalty: 0 }
    }
}

pub open spec fn starting_car() -> Car {
    Car { balance: START_BALANCE, position: 0, speed: START_SPEED, penalty: 0 }
}

/// Phase of the race.
#[derive(Clone, Copy, Debug, PartialEq, Eq, Structural)]
pub enum GameState {
    Registration,
    ReadyToStart,
    Race,
    Stopped,
    Finished,
}

/// Control actions that the coordinator accepts.
#[derive(Clone, Copy, Debug, PartialEq, Eq, Structural)]
pub enum GameAction {
    Register { car_id: ActorId },
    StartGame,
    ContinueGame,
    Play,
    MakeReservation,
}

/// What a participant may answer to a turn request.
#[derive(Clone, Copy, Debug, PartialEq, Eq, Structural)]
pub enum StrategyAction {
    BuyAcceleration { amount: u32 },
    BuyShell { amount: u32 },
    Skip,
}

/// Acknowledgements sent back to the caller of a control action.
#[derive(Clone, Copy, Debug, PartialEq, Eq, Structural)]
pub enum GameReply {
    Registered,
    NotEnoughGas,
    GameFinished,
    GasReserved,
}

/// Why a control action was refused.
#[derive(Clone, Copy, Debug, PartialEq, Eq, Structural)]
pub enum GameError {
    /// The action is not legal in the current state.
    InvalidState,
    /// The turn order is empty: nobody can be asked.
    NotFound,
    /// A turn request is still waiting for its reply.
    ReplyPending,
}

} // verus!
