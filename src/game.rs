//! The coordinator: registration, turns, replies, round closure and
//! continuation.
use vstd::prelude::*;
use crate::codec::{decode_strategy, decoded};
use crate::types::{
    ActorId, Car, GameAction, GameError, GameReply, GameState, Id256, MessageId, ReservationId, StrategyAction,
    ACCELERATION_COST, GAS_MIN_AMOUNT, MAX_ACC_AMOUNT, MAX_DISTANCE, MAX_SHELL_AMOUNT, PENALTY_LIMIT,
    QUORUM, SHELL_COST, START_BALANCE, START_SPEED, TIME, starting_car,
};

verus! {

// ---------------------------------------------------------------------------
// Model of the car table and the turn order.
// ---------------------------------------------------------------------------

/// `id` has an entry in `cars`.
pub open spec fn has_id(cars: Seq<(ActorId, Car)>, id: ActorId) -> bool {
    exists|i: int| 0 <= i < cars.len() && cars[i].0 == id
}

/// No identity has two entries in `cars`.
pub open spec fn ids_unique(cars: Seq<(ActorId, Car)>) -> bool {
    forall|i: int, j: int|
        0 <= i < cars.len() && 0 <= j < cars.len() && cars[i].0 == cars[j].0 ==> i == j
}

/// Position of `id`'s entry in `cars`.
pub open spec fn index_of(cars: Seq<(ActorId, Car)>, id: ActorId) -> int {
    choose|i: int| 0 <= i < cars.len() && cars[i].0 == id
}

/// The car registered under `id`.
pub open spec fn car_of(cars: Seq<(ActorId, Car)>, id: ActorId) -> Car {
    cars[index_of(cars, id)].1
}

/// What every car satisfies: it is on the track, and its speed was paid for
/// (each unit of speed above the start cost `ACCELERATION_COST` of balance).
pub open spec fn car_fits(c: Car) -> bool {
    &&& c.position <= MAX_DISTANCE
    &&& ACCELERATION_COST * c.speed + c.balance <= START_BALANCE + ACCELERATION_COST
        * START_SPEED
}

/// Car table, turn order and state after `id` asks to register. Only a
/// new identity during registration is taken: it gets a fresh car and joins
/// the end of the turn order, and the third participant closes
/// registration. An identity that already has a car changes nothing.
pub open spec fn registration(
    cars: Seq<(ActorId, Car)>,
    ids: Seq<ActorId>,
    state: GameState,
    id: ActorId,
) -> (Seq<(ActorId, Car)>, Seq<ActorId>, GameState) {
    if state != GameState::Registration || has_id(cars, id) {
        (cars, ids, state)
    } else if ids.len() + 1 == QUORUM {
        (cars.push((id, starting_car())), ids.push(id), GameState::ReadyToStart)
    } else {
        (cars.push((id, starting_car())), ids.push(id), GameState::Registration)
    }
}

/// `a` and `b` agree on every field but the car table, the turn order and
/// the state.
pub open spec fn same_but_lineup(a: Game, b: Game) -> bool {
    &&& a.admin == b.admin
    &&& a.current_turn == b.current_turn
    &&& a.awaiting_reply_to_msg_id == b.awaiting_reply_to_msg_id
    &&& a.winner == b.winner
    &&& a.current_round == b.current_round
    &&& a.reservations@ == b.reservations@
}

/// The turn order without every occurrence of `id`.
pub open spec fn without(ids: Seq<ActorId>, id: ActorId) -> Seq<ActorId> {
    ids.filter(|x: ActorId| x != id)
}

/// The turn order without the participants whose penalty reached the limit.
pub open spec fn eligible(ids: Seq<ActorId>, cars: Seq<(ActorId, Car)>) -> Seq<ActorId> {
    ids.filter(|x: ActorId| car_of(cars, x).penalty < PENALTY_LIMIT)
}

// ---------------------------------------------------------------------------
// Purchases.
// ---------------------------------------------------------------------------

pub open spec fn sat_inc_u8(p: u8) -> u8 {
    if p < 255 {
        (p + 1) as u8
    } else {
        255
    }
}

pub open spec fn sat_inc_u32(n: u32) -> u32 {
    if n < u32::MAX {
        (n + 1) as u32
    } else {
        u32::MAX
    }
}

/// `c` with one more penalty point.
pub open spec fn penalized(c: Car) -> Car {
    Car { balance: c.balance, position: c.position, speed: c.speed, penalty: sat_inc_u8(c.penalty) }
}

/// `c` with its penalty forced to the limit.
pub open spec fn disqualified(c: Car) -> Car {
    Car { balance: c.balance, position: c.position, speed: c.speed, penalty: PENALTY_LIMIT }
}

pub open spec fn acceleration_allowed(c: Car, amount: u32) -> bool {
    amount <= MAX_ACC_AMOUNT && ACCELERATION_COST * amount <= c.balance
}

/// `c` after it asks for `amount` units of acceleration: paid and applied
/// when within the limit and affordable, else one penalty point.
pub open spec fn accelerated(c: Car, amount: u32) -> Car {
    if acceleration_allowed(c, amount) {
        Car {
            balance: (c.balance - ACCELERATION_COST * amount) as u32,
            position: c.position,
            speed: (c.speed + amount) as u32,
            penalty: c.penalty,
        }
    } else {
        penalized(c)
    }
}

pub open spec fn shell_allowed(c: Car, amount: u32) -> bool {
    amount <= MAX_SHELL_AMOUNT && SHELL_COST * amount <= c.balance
}

/// `c` after paying for `amount` units of shell.
pub open spec fn paid_shell(c: Car, amount: u32) -> Car {
    Car {
        balance: (c.balance - SHELL_COST * amount) as u32,
        position: c.position,
        speed: c.speed,
        penalty: c.penalty,
    }
}

/// `c` after a shell of `amount` hits it: its speed drops, floored at zero.
pub open spec fn slowed(c: Car, amount: u32) -> Car {
    Car {
        balance: c.balance,
        position: c.position,
        speed: if c.speed >= amount { (c.speed - amount) as u32 } else { 0 },
        penalty: c.penalty,
    }
}

pub open spec fn distance(a: u32, b: u32) -> int {
    if a >= b {
        a - b
    } else {
        b - a
    }
}

/// Entry `t` is the target of a shell bought by entry `k`: another car at
/// the least distance from `k`, and the last such car in table order.
pub open spec fn is_closest(cars: Seq<(ActorId, Car)>, k: int, t: int) -> bool {
    let p = cars[k].1.position;
    &&& 0 <= t < cars.len()
    &&& t != k
    &&& forall|j: int|
        0 <= j < cars.len() && j != k ==> distance(p, cars[t].1.position) <= distance(
            p,
            cars[j].1.position,
        )
    &&& forall|j: int|
        t < j < cars.len() && j != k ==> distance(p, cars[t].1.position) < distance(
            p,
            cars[j].1.position,
        )
}

/// The target of a shell bought by entry `k`, if any other car exists.
pub open spec fn closest_to(cars: Seq<(ActorId, Car)>, k: int) -> Option<int> {
    if exists|t: int| is_closest(cars, k, t) {
        Some(choose|t: int| is_closest(cars, k, t))
    } else {
        None
    }
}

/// The table after entry `k` asks for `amount` units of shell.
pub open spec fn after_shell(cars: Seq<(ActorId, Car)>, k: int, amount: u32) -> Seq<(ActorId, Car)> {
    let c = cars[k].1;
    if !shell_allowed(c, amount) {
        cars.update(k, (cars[k].0, penalized(c)))
    } else {
        let paid = cars.update(k, (cars[k].0, paid_shell(c, amount)));
        match closest_to(cars, k) {
            Some(t) => paid.update(t, (paid[t].0, slowed(paid[t].1, amount))),
            None => paid,
        }
    }
}

/// The table after entry `k` answers with `intent` (`None`: an answer that
/// could not be read).
pub open spec fn after_intent(
    cars: Seq<(ActorId, Car)>,
    k: int,
    intent: Option<StrategyAction>,
) -> Seq<(ActorId, Car)> {
    match intent {
        Some(StrategyAction::BuyAcceleration { amount }) => cars.update(
            k,
            (cars[k].0, accelerated(cars[k].1, amount)),
        ),
        Some(StrategyAction::BuyShell { amount }) => after_shell(cars, k, amount),
        Some(StrategyAction::Skip) => cars,
        None => cars.update(k, (cars[k].0, disqualified(cars[k].1))),
    }
}

// ---------------------------------------------------------------------------
// Movement.
// ---------------------------------------------------------------------------

/// `c` reaches the finish line in this round.
pub open spec fn crosses(c: Car) -> bool {
    c.penalty < PENALTY_LIMIT && c.position + c.speed * TIME >= MAX_DISTANCE
}

/// `c` after one round: cars still racing move by `speed * TIME`, stopping
/// at the finish line.
pub open spec fn moved(c: Car) -> Car {
    if c.penalty < PENALTY_LIMIT {
        Car {
            balance: c.balance,
            position: if crosses(c) { MAX_DISTANCE } else { (c.position + c.speed * TIME) as u32 },
            speed: c.speed,
            penalty: c.penalty,
        }
    } else {
        c
    }
}

pub open spec fn moved_all(cars: Seq<(ActorId, Car)>) -> Seq<(ActorId, Car)> {
    cars.map_values(|e: (ActorId, Car)| (e.0, moved(e.1)))
}

/// Entry `i` is the first in table order to cross the line.
pub open spec fn first_crossing(cars: Seq<(ActorId, Car)>, i: int) -> bool {
    &&& 0 <= i < cars.len()
    &&& crosses(cars[i].1)
    &&& forall|j: int| 0 <= j < i ==> !crosses(cars[j].1)
}

pub open spec fn some_crossing(cars: Seq<(ActorId, Car)>) -> bool {
    exists|i: int| 0 <= i < cars.len() && crosses(cars[i].1)
}

/// The turn index after the current one, in a turn order of `len`.
pub open spec fn next_turn(turn: u8, len: int) -> int {
    if len == 0 {
        0
    } else {
        (turn + 1) % len
    }
}

// ---------------------------------------------------------------------------
// The coordinator.
// ---------------------------------------------------------------------------

/// What the caller does after `play`.
#[derive(Clone, Copy, Debug, PartialEq, Eq, Structural)]
pub enum PlayStep {
    /// The race is over: answer with `GameReply::GameFinished`.
    GameFinished,
    /// Send this participant a turn request with a snapshot of the cars,
    /// then record its id with `await_reply`.
    AskCar(ActorId),
}

/// What became of a participant's reply.
#[derive(Clone, Copy, Debug, PartialEq, Eq, Structural)]
pub enum ReplyOutcome {
    /// The reply answers no outstanding request: the race is stopped, and
    /// the recorded request stays outstanding until `continue_game` gives it
    /// up.
    Anomaly,
    /// The reply was applied. When it completed a round, `closed_round` is
    /// that round's number: send the administrator a snapshot of the cars
    /// under it.
    Applied { closed_round: Option<u32> },
}

/// How the next turn is driven after a reply.
#[derive(Clone, Copy, Debug, PartialEq, Eq, Structural)]
pub enum Continuation {
    /// Enough budget is left: play the next turn now.
    PlayNow,
    /// Play the next turn on this reservation's budget.
    PlayFromReservation(ReservationId),
    /// Nothing left to run on: the race is stopped.
    Paused,
    /// The race is not running (stopped or finished): no turn follows.
    Idle,
}

/// The race coordinator's whole state.
pub struct Game {
    pub admin: ActorId,
    /// One entry per registered participant, in order of registration.
    pub cars: Vec<(ActorId, Car)>,
    /// The turn order.
    pub car_ids: Vec<ActorId>,
    /// Index of the participant whose turn it is.
    pub current_turn: u8,
    /// Id of the outstanding turn request; zero when there is none.
    pub awaiting_reply_to_msg_id: MessageId,
    pub state: GameState,
    /// The participant that finished first; meaningful once finished.
    pub winner: ActorId,
    pub current_round: u32,
    /// Unused reservations, the most recent last.
    pub reservations: Vec<ReservationId>,
}

/// `a` and `b` agree on every field but the car table.
pub open spec fn same_but_cars(a: Game, b: Game) -> bool {
    &&& a.admin == b.admin
    &&& a.car_ids@ == b.car_ids@
    &&& a.current_turn == b.current_turn
    &&& a.awaiting_reply_to_msg_id == b.awaiting_reply_to_msg_id
    &&& a.state == b.state
    &&& a.winner == b.winner
    &&& a.current_round == b.current_round
    &&& a.reservations@ == b.reservations@
}

impl Game {
    /// The invariant that every operation keeps.
    pub open spec fn wf(&self) -> bool {
        &&& ids_unique(self.cars@)
        &&& forall|j: int| 0 <= j < self.car_ids.len() ==> has_id(self.cars@, #[trigger] self.car_ids@[j])
        &&& self.car_ids.len() <= QUORUM
        &&& self.state == GameState::Registration ==> self.car_ids.len() < QUORUM
        &&& self.car_ids.len() == 0 ==> self.current_turn == 0
        &&& self.car_ids.len() > 0 ==> self.current_turn < self.car_ids.len()
        &&& forall|i: int| 0 <= i < self.cars.len() ==> car_fits(#[trigger] self.cars@[i].1)
    }

    /// What `play` decides.
    pub open spec fn play_spec(&self) -> Result<PlayStep, GameError> {
        if self.state == GameState::Finished {
            Ok(PlayStep::GameFinished)
        } else if self.state == GameState::Stopped {
            Err(GameError::InvalidState)
        } else if !self.awaiting_reply_to_msg_id.is_zero_spec() {
            Err(GameError::ReplyPending)
        } else if self.car_ids@.len() == 0 {
            Err(GameError::NotFound)
        } else {
            Ok(PlayStep::AskCar(self.current_id()))
        }
    }

    /// The participant whose turn it is.
    pub open spec fn current_id(&self) -> ActorId {
        self.car_ids@[self.current_turn as int]
    }

    /// A coordinator in registration, administered by `admin`.
    pub fn new(admin: ActorId) -> (r: Game)
        ensures
            r.wf(),
            r.admin == admin,
            r.cars@.len() == 0,
            r.car_ids@.len() == 0,
            r.current_turn == 0,
            r.awaiting_reply_to_msg_id.is_zero_spec(),
            r.state == GameState::Registration,
            r.winner.is_zero_spec(),
            r.current_round == 0,
            r.reservations@.len() == 0,
    {
        Game {
            admin,
            cars: Vec::new(),
            car_ids: Vec::new(),
            current_turn: 0,
            awaiting_reply_to_msg_id: Id256::zero(),
            state: GameState::Registration,
            winner: Id256::zero(),
            current_round: 0,
            reservations: Vec::new(),
        }
    }

    /// Position of `id`'s entry in the car table, if it has one.
    pub fn find_car(&self, id: ActorId) -> (r: Option<usize>)
        ensures
            match r {
                Some(i) => i < self.cars@.len() && self.cars@[i as int].0 == id,
                None => !has_id(self.cars@, id),
            },
    {
        let mut i: usize = 0;
        while i < self.cars.len()
            invariant
                i <= self.cars@.len(),
                forall|j: int| 0 <= j < i ==> self.cars@[j].0 != id,
            decreases self.cars@.len() - i,
        {
            if self.cars[i].0 == id {
                return Some(i);
            }
            i += 1;
        }
        None
    }

    /// Registers `car_id` with a fresh car and appends it to the turn order.
    /// The third registration closes registration. Registering an identity
    /// that already has a car is acknowledged and changes nothing.
    pub fn register(&mut self, car_id: ActorId) -> (r: Result<GameReply, GameError>)
        requires
            old(self).wf(),
        ensures
            final(self).wf(),
            (final(self).cars@, final(self).car_ids@, final(self).state) == registration(
                old(self).cars@,
                old(self).car_ids@,
                old(self).state,
                car_id,
            ),
            same_but_lineup(*old(self), *final(self)),
            old(self).state == GameState::Registration ==> r == Ok::<GameReply, GameError>(
                GameReply::Registered,
            ),
            old(self).state != GameState::Registration ==> r == Err::<GameReply, GameError>(
                GameError::InvalidState,
            ),
    {
        if self.state != GameState::Registration {
            return Err(GameError::InvalidState);
        }
        match self.find_car(car_id) {
            Some(i) => {
                proof { lemma_index_of(self.cars@, i as int); }
                return Ok(GameReply::Registered);
            },
            None => {},
        }
        let ghost before = self.cars@;
        self.cars.push((car_id, Car::starting()));
        assert(self.cars@[before.len() as int].0 == car_id);
        assert(forall|w: int| 0 <= w < before.len() ==> self.cars@[w] == before[w]);
        self.car_ids.push(car_id);
        assert forall|j: int| 0 <= j < self.car_ids.len() implies has_id(
            self.cars@,
            #[trigger] self.car_ids@[j],
        ) by {
            if j < self.car_ids.len() - 1 {
                let x = self.car_ids@[j];
                assert(has_id(before, old(self).car_ids@[j]));
                let w = choose|w: int| 0 <= w < before.len() && before[w].0 == x;
                assert(self.cars@[w].0 == x);
            } else {
                assert(self.cars@[before.len() as int].0 == car_id);
            }
        }
        if self.car_ids.len() == QUORUM {
            self.state = GameState::ReadyToStart;
        }
        Ok(GameReply::Registered)
    }

    /// Starts a race whose registration is complete.
    pub fn start_game(&mut self) -> (r: Result<(), GameError>)
        requires
            old(self).wf(),
        ensures
            final(self).wf(),
            old(self).state == GameState::ReadyToStart ==> r is Ok && final(self).state
                == GameState::Race,
            old(self).state != GameState::ReadyToStart ==> r == Err::<(), GameError>(
                GameError::InvalidState,
            ) && final(self).state == old(self).state,
            final(self).cars@ == old(self).cars@,
            same_but_state(*old(self), *final(self)),
    {
        if self.state != GameState::ReadyToStart {
            return Err(GameError::InvalidState);
        }
        self.state = GameState::Race;
        Ok(())
    }

    /// Resumes a stopped race. A request still recorded as outstanding is
    /// given up: the next `play` asks the current participant afresh, and a
    /// late reply to the old request no longer matches.
    pub fn continue_game(&mut self) -> (r: Result<(), GameError>)
        requires
            old(self).wf(),
        ensures
            final(self).wf(),
            old(self).state == GameState::Stopped ==> {
                &&& r is Ok
                &&& final(self).state == GameState::Race
                &&& final(self).awaiting_reply_to_msg_id.is_zero_spec()
            },
            old(self).state != GameState::Stopped ==> {
                &&& r == Err::<(), GameError>(GameError::InvalidState)
                &&& *final(self) == *old(self)
            },
            final(self).cars@ == old(self).cars@,
            final(self).car_ids@ == old(self).car_ids@,
            final(self).admin == old(self).admin,
            final(self).current_turn == old(self).current_turn,
            final(self).winner == old(self).winner,
            final(self).current_round == old(self).current_round,
            final(self).reservations@ == old(self).reservations@,
    {
        if self.state != GameState::Stopped {
            return Err(GameError::InvalidState);
        }
        self.state = GameState::Race;
        self.awaiting_reply_to_msg_id = Id256::zero();
        Ok(())
    }

    /// Decides the next turn: who is asked, or that the race is over. A
    /// stopped race asks nobody until it is continued, and nobody is asked
    /// while a request is outstanding.
    pub fn play(&self) -> (r: Result<PlayStep, GameError>)
        requires
            self.wf(),
        ensures
            self.state == GameState::Finished ==> r == Ok::<PlayStep, GameError>(
                PlayStep::GameFinished,
            ),
            self.state == GameState::Stopped ==> r == Err::<PlayStep, GameError>(
                GameError::InvalidState,
            ),
            self.state != GameState::Finished && self.state != GameState::Stopped ==> {
                &&& !self.awaiting_reply_to_msg_id.is_zero_spec() ==> r == Err::<
                    PlayStep,
                    GameError,
                >(GameError::ReplyPending)
                &&& self.awaiting_reply_to_msg_id.is_zero_spec() && self.car_ids@.len() == 0
                    ==> r == Err::<PlayStep, GameError>(GameError::NotFound)
                &&& self.awaiting_reply_to_msg_id.is_zero_spec() && self.car_ids@.len() > 0
                    ==> r == Ok::<PlayStep, GameError>(PlayStep::AskCar(self.current_id()))
            },
    {
        if self.state == GameState::Finished {
            return Ok(PlayStep::GameFinished);
        }
        if self.state == GameState::Stopped {
            return Err(GameError::InvalidState);
        }
        if !self.awaiting_reply_to_msg_id.is_zero() {
            return Err(GameError::ReplyPending);
        }
        if self.car_ids.len() == 0 {
            return Err(GameError::NotFound);
        }
        Ok(PlayStep::AskCar(self.get_current_car_id()))
    }

    /// The participant whose turn it is.
    pub fn get_current_car_id(&self) -> (r: ActorId)
        requires
            self.wf(),
            self.car_ids@.len() > 0,
        ensures
            r == self.current_id(),
    {
        self.car_ids[self.current_turn as usize]
    }

    /// Records `msg_id` as the outstanding turn request.
    pub fn await_reply(&mut self, msg_id: MessageId)
        requires
            old(self).wf(),
        ensures
            final(self).wf(),
            final(self).awaiting_reply_to_msg_id == msg_id,
            final(self).cars@ == old(self).cars@,
            final(self).car_ids@ == old(self).car_ids@,
            final(self).state == old(self).state,
            final(self).current_turn == old(self).current_turn,
            final(self).admin == old(self).admin,
            final(self).winner == old(self).winner,
            final(self).current_round == old(self).current_round,
            final(self).reservations@ == old(self).reservations@,
    {
        self.awaiting_reply_to_msg_id = msg_id;
    }

    /// Keeps a freshly acquired reservation for later turns.
    pub fn reserve_gas(&mut self, reservation_id: ReservationId) -> (r: GameReply)
        requires
            old(self).wf(),
        ensures
            final(self).wf(),
            r == GameReply::GasReserved,
            final(self).reservations@ == old(self).reservations@.push(reservation_id),
            final(self).cars@ == old(self).cars@,
            final(self).car_ids@ == old(self).car_ids@,
            final(self).state == old(self).state,
            final(self).current_turn == old(self).current_turn,
            final(self).current_round == old(self).current_round,
            final(self).admin == old(self).admin,
            final(self).winner == old(self).winner,
            final(self).awaiting_reply_to_msg_id == old(self).awaiting_reply_to_msg_id,
    {
        self.reservations.push(reservation_id);
        GameReply::GasReserved
    }

    /// Position in the car table of the participant whose turn it is.
    fn current_index(&self) -> (k: usize)
        requires
            self.wf(),
            self.car_ids@.len() > 0,
        ensures
            k < self.cars@.len(),
            k == index_of(self.cars@, self.current_id()),
            self.cars@[k as int].0 == self.current_id(),
    {
        let id = self.get_current_car_id();
        assert(has_id(self.cars@, self.car_ids@[self.current_turn as int]));
        match self.find_car(id) {
            Some(k) => {
                proof { lemma_index_of(self.cars@, k as int); }
                k
            },
            None => {
                proof { assert(false); }
                0
            },
        }
    }

    /// The current participant asks for `amount` units of acceleration.
    pub fn buy_acceleration(&mut self, amount: u32)
        requires
            old(self).wf(),
            old(self).car_ids@.len() > 0,
        ensures
            final(self).wf(),
            ({
                let k = index_of(old(self).cars@, old(self).current_id());
                final(self).cars@ == old(self).cars@.update(
                    k,
                    (old(self).cars@[k].0, accelerated(old(self).cars@[k].1, amount)),
                )
            }),
            same_but_cars(*old(self), *final(self)),
    {
        let k = self.current_index();
        let (id, car) = self.cars[k];
        let mut car = car;
        if amount > MAX_ACC_AMOUNT {
            car.penalty = car.penalty.saturating_add(1);
        } else {
            let cost = ACCELERATION_COST * amount;
            if cost > car.balance {
                car.penalty = car.penalty.saturating_add(1);
            } else {
                car.balance = car.balance - cost;
                car.speed = car.speed + amount;
            }
        }
        proof { lemma_update_car(self.cars@, k as int, car); }
        self.cars.set(k, (id, car));
    }

    /// Position in the car table of the shell target for entry `k`: of the
    /// other cars, the one nearest to `position`, the last one on a tie.
    fn find_closest_car(&self, k: usize, position: u32) -> (r: Option<usize>)
        requires
            k < self.cars@.len(),
            position == self.cars@[k as int].1.position,
        ensures
            match r {
                Some(t) => is_closest(self.cars@, k as int, t as int),
                None => self.cars@.len() <= 1,
            },
    {
        let ghost cars = self.cars@;
        let mut best: Option<usize> = None;
        let mut best_distance: u32 = 0;
        let mut i: usize = 0;
        while i < self.cars.len()
            invariant
                cars == self.cars@,
                k < cars.len(),
                position == cars[k as int].1.position,
                i <= cars.len(),
                match best {
                    Some(t) => {
                        &&& t < i
                        &&& t != k
                        &&& best_distance == distance(position, cars[t as int].1.position)
                        &&& forall|j: int|
                            0 <= j < i && j != k ==> best_distance <= distance(
                                position,
                                cars[j].1.position,
                            )
                        &&& forall|j: int|
                            t < j < i && j != k ==> best_distance < distance(
                                position,
                                cars[j].1.position,
                            )
                    },
                    None => i == 0 || (i == 1 && k == 0),
                },
            decreases cars.len() - i,
        {
            if i != k {
                let other = self.cars[i].1.position;
                let d = if position >= other {
                    position - other
                } else {
                    other - position
                };
                match best {
                    Some(_) => {
                        if d <= best_distance {
                            best = Some(i);
                            best_distance = d;
                        }
                    },
                    None => {
                        best = Some(i);
                        best_distance = d;
                    },
                }
            }
            i += 1;
        }
        best
    }

    /// The current participant asks for `amount` units of shell, which slow
    /// down the nearest other car.
    pub fn buy_shell(&mut self, amount: u32)
        requires
            old(self).wf(),
            old(self).car_ids@.len() > 0,
        ensures
            final(self).wf(),
            final(self).cars@ == after_shell(
                old(self).cars@,
                index_of(old(self).cars@, old(self).current_id()),
                amount,
            ),
            same_but_cars(*old(self), *final(self)),
    {
        let ghost before = self.cars@;
        let k = self.current_index();
        let (id, car) = self.cars[k];
        let mut car = car;
        if amount > MAX_SHELL_AMOUNT {
            car.penalty = car.penalty.saturating_add(1);
            proof { lemma_update_car(self.cars@, k as int, car); }
            self.cars.set(k, (id, car));
            return;
        }
        let cost = SHELL_COST * amount;
        if cost > car.balance {
            car.penalty = car.penalty.saturating_add(1);
            proof { lemma_update_car(self.cars@, k as int, car); }
            self.cars.set(k, (id, car));
            return;
        }
        car.balance = car.balance - cost;
        proof { lemma_update_car(self.cars@, k as int, car); }
        self.cars.set(k, (id, car));
        let target = self.find_closest_car(k, car.position);
        proof {
            assert forall|j: int| 0 <= j < before.len() implies self.cars@[j].1.position
                == before[j].1.position by {}
            assert(self.cars@.len() == before.len());
        }
        match target {
            Some(t) => {
                proof {
                    assert(is_closest(before, k as int, t as int));
                    lemma_closest_unique(before, k as int, t as int);
                }
                let (tid, hit) = self.cars[t];
                let mut hit = hit;
                hit.speed = hit.speed.saturating_sub(amount);
                proof { lemma_update_car(self.cars@, t as int, hit); }
                self.cars.set(t, (tid, hit));
            },
            None => {
                proof {
                    if exists|t: int| is_closest(before, k as int, t) {
                        let t = choose|t: int| is_closest(before, k as int, t);
                        assert(t != k && 0 <= t < before.len());
                    }
                }
            },
        }
    }

    /// The current participant answered with unreadable bytes: its penalty
    /// is forced to the limit and it leaves the turn order at once.
    pub fn disqualify_current(&mut self)
        requires
            old(self).wf(),
            old(self).car_ids@.len() > 0,
        ensures
            ({
                let k = index_of(old(self).cars@, old(self).current_id());
                final(self).cars@ == old(self).cars@.update(
                    k,
                    (old(self).cars@[k].0, disqualified(old(self).cars@[k].1)),
                )
            }),
            final(self).car_ids@ == without(old(self).car_ids@, old(self).current_id()),
            final(self).car_ids@.len() < old(self).car_ids@.len(),
            forall|j: int|
                0 <= j < final(self).car_ids@.len() ==> old(self).car_ids@.contains(
                    #[trigger] final(self).car_ids@[j],
                ),
            ids_unique(final(self).cars@),
            forall|j: int| 0 <= j < final(self).car_ids.len() ==> has_id(final(self).cars@, #[trigger] final(self).car_ids@[j]),
            forall|i: int| 0 <= i < final(self).cars.len() ==> car_fits(#[trigger] final(self).cars@[i].1),
            final(self).admin == old(self).admin,
            final(self).current_turn == old(self).current_turn,
            final(self).awaiting_reply_to_msg_id == old(self).awaiting_reply_to_msg_id,
            final(self).state == old(self).state,
            final(self).winner == old(self).winner,
            final(self).current_round == old(self).current_round,
            final(self).reservations@ == old(self).reservations@,
    {
        let k = self.current_index();
        let id = self.cars[k].0;
        let mut car = self.cars[k].1;
        car.penalty = PENALTY_LIMIT;
        proof { lemma_update_car(self.cars@, k as int, car); }
        self.cars.set(k, (id, car));
        let ghost ids = self.car_ids@;
        let mut kept: Vec<ActorId> = Vec::new();
        let mut i: usize = 0;
        while i < self.car_ids.len()
            invariant
                ids == self.car_ids@,
                i <= ids.len(),
                kept@ == without(ids.take(i as int), id),
                forall|j: int| 0 <= j < kept.len() ==> ids.contains(#[trigger] kept@[j]),
            decreases ids.len() - i,
        {
            let x = self.car_ids[i];
            assert(ids.take(i + 1).drop_last() =~= ids.take(i as int));
            assert(ids.take(i + 1).last() == x);
            proof { reveal(Seq::filter); }
            assert(without(ids.take(i + 1), id) == (if x != id {
                without(ids.take(i as int), id).push(x)
            } else {
                without(ids.take(i as int), id)
            }));
            if x != id {
                kept.push(x);
            }
            assert(ids.contains(x));
            i += 1;
        }
        assert(ids.take(ids.len() as int) =~= ids);
        proof {
            assert(ids[old(self).current_turn as int] == id);
            lemma_without_shrinks(ids, id, old(self).current_turn as int);
        }
        self.car_ids = kept;
        assert forall|j: int| 0 <= j < self.car_ids.len() implies has_id(self.cars@, #[trigger] self.car_ids@[j]) by {
            let x = self.car_ids@[j];
            assert(ids.contains(x));
            let w = choose|w: int| 0 <= w < ids.len() && ids[w] == x;
            assert(has_id(old(self).cars@, old(self).car_ids@[w]));
            let v = choose|v: int| 0 <= v < old(self).cars@.len() && old(self).cars@[v].0 == x;
            assert(self.cars@[v].0 == x);
        }
    }
}

/// Replacing the car of an entry, under the same identity, keeps the
/// identities of the table and its cars within bounds when the new car is.
pub proof fn lemma_update_car(cars: Seq<(ActorId, Car)>, k: int, c: Car)
    requires
        ids_unique(cars),
        0 <= k < cars.len(),
        forall|i: int| 0 <= i < cars.len() ==> car_fits(#[trigger] cars[i].1),
        car_fits(c),
    ensures
        ids_unique(cars.update(k, (cars[k].0, c))),
        forall|x: ActorId|
            has_id(cars, x) ==> #[trigger] has_id(cars.update(k, (cars[k].0, c)), x) && index_of(
                cars.update(k, (cars[k].0, c)),
                x,
            ) == index_of(cars, x),
        forall|i: int|
            0 <= i < cars.len() ==> car_fits(#[trigger] cars.update(k, (cars[k].0, c))[i].1),
{
    let u = cars.update(k, (cars[k].0, c));
    assert forall|x: ActorId| has_id(cars, x) implies #[trigger] has_id(u, x) && index_of(u, x) == index_of(cars, x) by {
        let w = choose|w: int| 0 <= w < cars.len() && cars[w].0 == x;
        assert(u[w].0 == x);
        lemma_index_of(cars, w);
        lemma_index_of(u, w);
    }
}

impl Game {
    /// Drops from the turn order every participant whose penalty reached
    /// the limit. Their cars stay in the table.
    fn check_for_penalties(&mut self)
        requires
            old(self).wf(),
            old(self).current_turn == 0,
        ensures
            final(self).wf(),
            final(self).car_ids@ == eligible(old(self).car_ids@, old(self).cars@),
            forall|j: int|
                0 <= j < final(self).car_ids@.len() ==> car_of(
                    final(self).cars@,
                    #[trigger] final(self).car_ids@[j],
                ).penalty < PENALTY_LIMIT,
            final(self).cars@ == old(self).cars@,
            final(self).admin == old(self).admin,
            final(self).current_turn == old(self).current_turn,
            final(self).awaiting_reply_to_msg_id == old(self).awaiting_reply_to_msg_id,
            final(self).state == old(self).state,
            final(self).winner == old(self).winner,
            final(self).current_round == old(self).current_round,
            final(self).reservations@ == old(self).reservations@,
    {
        let ghost ids = self.car_ids@;
        let ghost cars = self.cars@;
        let mut kept: Vec<ActorId> = Vec::new();
        let mut i: usize = 0;
        while i < self.car_ids.len()
            invariant
                ids == self.car_ids@,
                cars == self.cars@,
                self.wf(),
                i <= ids.len(),
                kept@ == eligible(ids.take(i as int), cars),
                forall|j: int| 0 <= j < kept.len() ==> ids.contains(#[trigger] kept@[j]),
            decreases ids.len() - i,
        {
            let x = self.car_ids[i];
            assert(ids.take(i + 1).drop_last() =~= ids.take(i as int));
            assert(ids.take(i + 1).last() == x);
            proof { reveal(Seq::filter); }
            assert(eligible(ids.take(i + 1), cars) == (if car_of(cars, x).penalty < PENALTY_LIMIT {
                eligible(ids.take(i as int), cars).push(x)
            } else {
                eligible(ids.take(i as int), cars)
            }));
            assert(has_id(cars, self.car_ids@[i as int]));
            let k = match self.find_car(x) {
                Some(k) => k,
                None => {
                    proof { assert(false); }
                    0
                },
            };
            proof { lemma_index_of(cars, k as int); }
            if self.cars[k].1.penalty < PENALTY_LIMIT {
                kept.push(x);
            }
            assert(ids.contains(x));
            i += 1;
        }
        assert(ids.take(ids.len() as int) =~= ids);
        proof {
            ids.lemma_filter_len(|x: ActorId| car_of(cars, x).penalty < PENALTY_LIMIT);
            assert forall|j: int| 0 <= j < kept@.len() implies car_of(cars, #[trigger] kept@[j]).penalty
                < PENALTY_LIMIT by {
                ids.lemma_filter_pred(|x: ActorId| car_of(cars, x).penalty < PENALTY_LIMIT, j);
            }
        }
        self.car_ids = kept;
        assert forall|j: int| 0 <= j < self.car_ids.len() implies has_id(
            self.cars@,
            #[trigger] self.car_ids@[j],
        ) by {
            let x = self.car_ids@[j];
            assert(ids.contains(x));
            let w = choose|w: int| 0 <= w < ids.len() && ids[w] == x;
            assert(has_id(cars, ids[w]));
        }
    }

    /// Moves every car still racing by `speed * TIME`, stopping at the finish
    /// line. The first car in table order to reach it wins and the race is
    /// over.
    fn update_positions(&mut self)
        requires
            old(self).wf(),
        ensures
            final(self).wf(),
            final(self).cars@ == moved_all(old(self).cars@),
            some_crossing(old(self).cars@) ==> final(self).state == GameState::Finished && exists|
                i: int,
            |
                first_crossing(old(self).cars@, i) && final(self).winner == old(self).cars@[i].0,
            !some_crossing(old(self).cars@) ==> final(self).state == old(self).state
                && final(self).winner == old(self).winner,
            final(self).car_ids@ == old(self).car_ids@,
            final(self).admin == old(self).admin,
            final(self).current_turn == old(self).current_turn,
            final(self).awaiting_reply_to_msg_id == old(self).awaiting_reply_to_msg_id,
            final(self).current_round == old(self).current_round,
            final(self).reservations@ == old(self).reservations@,
    {
        let ghost cars = self.cars@;
        let ghost mut first: int = 0;
        let mut found = false;
        let mut i: usize = 0;
        while i < self.cars.len()
            invariant
                i <= cars.len(),
                self.cars@.len() == cars.len(),
                forall|j: int| 0 <= j < i ==> #[trigger] self.cars@[j] == (cars[j].0, moved(cars[j].1)),
                forall|j: int| i <= j < cars.len() ==> #[trigger] self.cars@[j] == cars[j],
                forall|j: int| 0 <= j < cars.len() ==> car_fits(#[trigger] cars[j].1),
                found <==> exists|j: int| 0 <= j < i && crosses(#[trigger] cars[j].1),
                found ==> first_crossing(cars, first) && self.winner == cars[first].0 && self.state
                    == GameState::Finished,
                !found ==> self.winner == old(self).winner && self.state == old(self).state,
                self.car_ids@ == old(self).car_ids@,
                self.admin == old(self).admin,
                self.current_turn == old(self).current_turn,
                self.awaiting_reply_to_msg_id == old(self).awaiting_reply_to_msg_id,
                self.current_round == old(self).current_round,
                self.reservations@ == old(self).reservations@,
            decreases cars.len() - i,
        {
            let (id, car) = self.cars[i];
            let mut car = car;
            assert(car_fits(cars[i as int].1));
            if car.penalty < PENALTY_LIMIT {
                let ahead = car.position + car.speed * TIME;
                if ahead >= MAX_DISTANCE {
                    car.position = MAX_DISTANCE;
                    if !found {
                        proof { first = i as int; }
                        self.winner = id;
                        found = true;
                    }
                    self.state = GameState::Finished;
                } else {
                    car.position = ahead;
                }
            }
            self.cars.set(i, (id, car));
            i += 1;
        }
        assert(self.cars@ =~= moved_all(cars));
        proof {
            assert forall|a: int, b: int|
                0 <= a < self.cars@.len() && 0 <= b < self.cars@.len() && self.cars@[a].0
                    == self.cars@[b].0 implies a == b by {
                assert(self.cars@[a].0 == cars[a].0);
                assert(self.cars@[b].0 == cars[b].0);
            }
            assert forall|x: ActorId| has_id(cars, x) implies has_id(self.cars@, x) by {
                let w = choose|w: int| 0 <= w < cars.len() && cars[w].0 == x;
                assert(self.cars@[w].0 == x);
            }
            assert forall|j: int| 0 <= j < self.cars@.len() implies car_fits(#[trigger] self.cars@[j].1) by {
                assert(car_fits(cars[j].1));
            }
            assert forall|j: int| 0 <= j < self.car_ids.len() implies has_id(
                self.cars@,
                #[trigger] self.car_ids@[j],
            ) by {
                assert(has_id(cars, old(self).car_ids@[j]));
            }
        }
    }

    /// Closes a round: disqualified participants leave the turn order, cars
    /// move, and the round counter goes up. Returns the number of the round
    /// closed.
    fn close_round(&mut self) -> (r: u32)
        requires
            old(self).wf(),
            old(self).current_turn == 0,
        ensures
            final(self).wf(),
            r == old(self).current_round,
            final(self).current_round == sat_inc_u32(old(self).current_round),
            final(self).car_ids@ == eligible(old(self).car_ids@, old(self).cars@),
            final(self).cars@ == moved_all(old(self).cars@),
            some_crossing(old(self).cars@) ==> final(self).state == GameState::Finished && exists|
                i: int,
            |
                first_crossing(old(self).cars@, i) && final(self).winner == old(self).cars@[i].0,
            !some_crossing(old(self).cars@) ==> final(self).state == old(self).state
                && final(self).winner == old(self).winner,
            final(self).admin == old(self).admin,
            final(self).current_turn == 0,
            final(self).awaiting_reply_to_msg_id == old(self).awaiting_reply_to_msg_id,
            final(self).reservations@ == old(self).reservations@,
            forall|j: int|
                0 <= j < final(self).car_ids@.len() ==> car_of(
                    final(self).cars@,
                    #[trigger] final(self).car_ids@[j],
                ).penalty < PENALTY_LIMIT,
            forall|j: int|
                0 <= j < final(self).car_ids@.len() ==> old(self).car_ids@.contains(
                    #[trigger] final(self).car_ids@[j],
                ),
            final(self).car_ids@.len() <= old(self).car_ids@.len(),
    {
        self.check_for_penalties();
        let ghost cars = self.cars@;
        proof {
            let f = |x: ActorId| car_of(cars, x).penalty < PENALTY_LIMIT;
            old(self).car_ids@.lemma_filter_len(f);
            assert forall|j: int| 0 <= j < self.car_ids@.len() implies old(self).car_ids@.contains(
                #[trigger] self.car_ids@[j],
            ) by {
                assert(self.car_ids@.contains(self.car_ids@[j]));
                old(self).car_ids@.lemma_filter_contains_rev(f, self.car_ids@[j]);
            }
        }
        self.update_positions();
        proof {
            lemma_moved_keeps(cars);
            assert forall|j: int| 0 <= j < self.car_ids@.len() implies car_of(
                self.cars@,
                #[trigger] self.car_ids@[j],
            ).penalty < PENALTY_LIMIT by {
                assert(car_of(cars, self.car_ids@[j]).penalty < PENALTY_LIMIT);
                assert(has_id(cars, self.car_ids@[j]));
            }
        }
        let closed = self.current_round;
        self.current_round = self.current_round.saturating_add(1);
        closed
    }
}

impl Game {
    /// Handles a participant's reply `payload` to request `reply_to`.
    ///
    /// A reply to anything but the outstanding request stops the race and is
    /// otherwise ignored. Otherwise the answer is read and applied to the
    /// current participant (unreadable bytes disqualify it at once), the turn
    /// passes on, and when it passes back to the start of the turn order the
    /// round is closed.
    pub fn handle_reply(&mut self, reply_to: MessageId, payload: &[u8]) -> (r: ReplyOutcome)
        requires
            old(self).wf(),
        ensures
            final(self).wf(),
            final(self).admin == old(self).admin,
            final(self).reservations@ == old(self).reservations@,
            final(self).cars@.len() == old(self).cars@.len(),
            forall|i: int|
                0 <= i < old(self).cars@.len() ==> (#[trigger] final(self).cars@[i]).0 == old(
                    self,
                ).cars@[i].0,
            final(self).car_ids@.len() <= old(self).car_ids@.len(),
            forall|j: int|
                0 <= j < final(self).car_ids@.len() ==> old(self).car_ids@.contains(
                    #[trigger] final(self).car_ids@[j],
                ),
            final(self).current_turn == 0 && r is Applied ==> forall|j: int|
                0 <= j < final(self).car_ids@.len() ==> car_of(
                    final(self).cars@,
                    #[trigger] final(self).car_ids@[j],
                ).penalty < PENALTY_LIMIT,
            (reply_to != old(self).awaiting_reply_to_msg_id || old(self).car_ids@.len() == 0) ==> {
                &&& r == ReplyOutcome::Anomaly
                &&& final(self).state == GameState::Stopped
                &&& final(self).cars@ == old(self).cars@
                &&& same_but_state(*old(self), *final(self))
            },
            (reply_to == old(self).awaiting_reply_to_msg_id && old(self).car_ids@.len() > 0) ==> {
                let id = old(self).current_id();
                let k = index_of(old(self).cars@, id);
                let intent = decoded(payload@);
                let cars = after_intent(old(self).cars@, k, intent);
                let ids = if intent is None {
                    without(old(self).car_ids@, id)
                } else {
                    old(self).car_ids@
                };
                let turn = next_turn(old(self).current_turn, ids.len() as int);
                &&& final(self).awaiting_reply_to_msg_id.is_zero_spec()
                &&& final(self).current_turn == turn
                &&& turn != 0 ==> {
                    &&& r == ReplyOutcome::Applied { closed_round: None }
                    &&& final(self).cars@ == cars
                    &&& final(self).car_ids@ == ids
                    &&& final(self).state == old(self).state
                    &&& final(self).winner == old(self).winner
                    &&& final(self).current_round == old(self).current_round
                }
                &&& turn == 0 ==> {
                    &&& r == ReplyOutcome::Applied { closed_round: Some(old(self).current_round) }
                    &&& final(self).cars@ == moved_all(cars)
                    &&& final(self).car_ids@ == eligible(ids, cars)
                    &&& final(self).current_round == sat_inc_u32(old(self).current_round)
                    &&& some_crossing(cars) ==> final(self).state == GameState::Finished
                        && exists|i: int| first_crossing(cars, i) && final(self).winner == cars[i].0
                    &&& !some_crossing(cars) ==> final(self).state == old(self).state
                        && final(self).winner == old(self).winner
                }
            },
    {
        if reply_to != self.awaiting_reply_to_msg_id || self.car_ids.len() == 0 {
            self.state = GameState::Stopped;
            return ReplyOutcome::Anomaly;
        }
        self.awaiting_reply_to_msg_id = Id256::zero();
        match decode_strategy(payload) {
            Some(StrategyAction::BuyAcceleration { amount }) => self.buy_acceleration(amount),
            Some(StrategyAction::BuyShell { amount }) => self.buy_shell(amount),
            Some(StrategyAction::Skip) => {},
            None => self.disqualify_current(),
        }
        let n = self.car_ids.len();
        if n == 0 {
            self.current_turn = 0;
        } else {
            self.current_turn = ((self.current_turn as usize + 1) % n) as u8;
        }
        if self.current_turn == 0 {
            let ghost mid = self.car_ids@;
            let closed = self.close_round();
            assert forall|j: int| 0 <= j < self.car_ids@.len() implies old(self).car_ids@.contains(
                #[trigger] self.car_ids@[j],
            ) by {
                assert(mid.contains(self.car_ids@[j]));
                let v = choose|v: int| 0 <= v < mid.len() && mid[v] == self.car_ids@[j];
                assert(old(self).car_ids@.contains(mid[v]));
            }
            ReplyOutcome::Applied { closed_round: Some(closed) }
        } else {
            ReplyOutcome::Applied { closed_round: None }
        }
    }

    /// Decides how the next turn is driven once a reply has been handled,
    /// given the execution budget left. Outside a running race there is no
    /// next turn. Above the floor the next turn is played at once; otherwise
    /// it runs on the latest reservation, and with none left the race stops
    /// until it is continued.
    pub fn next_step(&mut self, gas_available: u64) -> (r: Continuation)
        requires
            old(self).wf(),
        ensures
            final(self).wf(),
            final(self).cars@ == old(self).cars@,
            final(self).car_ids@ == old(self).car_ids@,
            final(self).current_turn == old(self).current_turn,
            final(self).current_round == old(self).current_round,
            final(self).winner == old(self).winner,
            final(self).awaiting_reply_to_msg_id == old(self).awaiting_reply_to_msg_id,
            final(self).admin == old(self).admin,
            old(self).state != GameState::Race ==> r == Continuation::Idle && *final(self)
                == *old(self),
            old(self).state == GameState::Race && gas_available > GAS_MIN_AMOUNT ==> r
                == Continuation::PlayNow && *final(self) == *old(self),
            old(self).state == GameState::Race && gas_available <= GAS_MIN_AMOUNT
                && old(self).reservations@.len() > 0 ==> {
                &&& r == Continuation::PlayFromReservation(old(self).reservations@.last())
                &&& final(self).reservations@ == old(self).reservations@.drop_last()
                &&& final(self).state == GameState::Race
            },
            old(self).state == GameState::Race && gas_available <= GAS_MIN_AMOUNT
                && old(self).reservations@.len() == 0 ==> {
                &&& r == Continuation::Paused
                &&& final(self).state == GameState::Stopped
                &&& final(self).reservations@ == old(self).reservations@
            },
    {
        if self.state != GameState::Race {
            return Continuation::Idle;
        }
        if gas_available > GAS_MIN_AMOUNT {
            return Continuation::PlayNow;
        }
        match self.reservations.pop() {
            Some(id) => Continuation::PlayFromReservation(id),
            None => {
                self.state = GameState::Stopped;
                Continuation::Paused
            },
        }
    }
}

/// What the caller does after a control action was accepted.
#[derive(Clone, Copy, Debug, PartialEq, Eq, Structural)]
pub enum Command {
    /// Answer the caller with this acknowledgement.
    Reply(GameReply),
    /// Send the coordinator itself a `Play` action.
    PlayNext,
    /// Send this participant a turn request, then record its id with
    /// `await_reply`.
    AskCar(ActorId),
    /// Acquire a reservation, hand it to `reserve_gas`, and answer the caller
    /// with what that returns.
    Reserve,
}

impl Game {
    /// Decides a control action.
    pub fn handle(&mut self, action: GameAction) -> (r: Result<Command, GameError>)
        requires
            old(self).wf(),
        ensures
            final(self).wf(),
            !(action is Register) ==> final(self).cars@ == old(self).cars@,
            match action {
                GameAction::Register { car_id } => {
                    &&& (final(self).cars@, final(self).car_ids@, final(self).state)
                        == registration(old(self).cars@, old(self).car_ids@, old(self).state, car_id)
                    &&& same_but_lineup(*old(self), *final(self))
                    &&& r == if old(self).state == GameState::Registration {
                        Ok::<Command, GameError>(Command::Reply(GameReply::Registered))
                    } else {
                        Err(GameError::InvalidState)
                    }
                },
                GameAction::StartGame => {
                    &&& same_but_state(*old(self), *final(self))
                    &&& old(self).state == GameState::ReadyToStart ==> r == Ok::<
                        Command,
                        GameError,
                    >(Command::PlayNext) && final(self).state == GameState::Race
                    &&& old(self).state != GameState::ReadyToStart ==> r == Err::<
                        Command,
                        GameError,
                    >(GameError::InvalidState) && final(self).state == old(self).state
                },
                GameAction::ContinueGame => {
                    &&& final(self).car_ids@ == old(self).car_ids@
                    &&& final(self).admin == old(self).admin
                    &&& final(self).current_turn == old(self).current_turn
                    &&& final(self).winner == old(self).winner
                    &&& final(self).current_round == old(self).current_round
                    &&& final(self).reservations@ == old(self).reservations@
                    &&& old(self).state == GameState::Stopped ==> r == Ok::<Command, GameError>(
                        Command::PlayNext,
                    ) && final(self).state == GameState::Race
                        && final(self).awaiting_reply_to_msg_id.is_zero_spec()
                    &&& old(self).state != GameState::Stopped ==> r == Err::<Command, GameError>(
                        GameError::InvalidState,
                    ) && *final(self) == *old(self)
                },
                GameAction::Play => {
                    &&& *final(self) == *old(self)
                    &&& r == match old(self).play_spec() {
                        Ok(PlayStep::GameFinished) => Ok::<Command, GameError>(
                            Command::Reply(GameReply::GameFinished),
                        ),
                        Ok(PlayStep::AskCar(id)) => Ok(Command::AskCar(id)),
                        Err(e) => Err(e),
                    }
                },
                GameAction::MakeReservation => {
                    &&& *final(self) == *old(self)
                    &&& r == Ok::<Command, GameError>(Command::Reserve)
                },
            },
    {
        match action {
            GameAction::Register { car_id } => match self.register(car_id) {
                Ok(reply) => Ok(Command::Reply(reply)),
                Err(e) => Err(e),
            },
            GameAction::StartGame => match self.start_game() {
                Ok(()) => Ok(Command::PlayNext),
                Err(e) => Err(e),
            },
            GameAction::ContinueGame => match self.continue_game() {
                Ok(()) => Ok(Command::PlayNext),
                Err(e) => Err(e),
            },
            GameAction::Play => match self.play() {
                Ok(PlayStep::GameFinished) => Ok(Command::Reply(GameReply::GameFinished)),
                Ok(PlayStep::AskCar(id)) => Ok(Command::AskCar(id)),
                Err(e) => Err(e),
            },
            GameAction::MakeReservation => Ok(Command::Reserve),
        }
    }
}

/// Moving the cars keeps every identity at its place, and every penalty.
pub proof fn lemma_moved_keeps(cars: Seq<(ActorId, Car)>)
    requires
        ids_unique(cars),
    ensures
        forall|x: ActorId|
            has_id(cars, x) ==> #[trigger] car_of(moved_all(cars), x).penalty == car_of(
                cars,
                x,
            ).penalty,
{
    let m = moved_all(cars);
    assert forall|a: int, b: int|
        0 <= a < m.len() && 0 <= b < m.len() && m[a].0 == m[b].0 implies a == b by {
        assert(m[a].0 == cars[a].0 && m[b].0 == cars[b].0);
    }
    assert forall|x: ActorId| has_id(cars, x) implies #[trigger] car_of(m, x).penalty == car_of(
        cars,
        x,
    ).penalty by {
        let w = index_of(cars, x);
        assert(m[w].0 == x);
        lemma_index_of(m, w);
    }
}

/// The entry that `is_closest` names is unique.
pub proof fn lemma_closest_unique(cars: Seq<(ActorId, Car)>, k: int, t: int)
    requires
        is_closest(cars, k, t),
    ensures
        closest_to(cars, k) == Some(t),
{
    let u = choose|u: int| is_closest(cars, k, u);
    assert(is_closest(cars, k, u));
    if u < t {
        assert(distance(cars[k].1.position, cars[t].1.position) <= distance(cars[k].1.position, cars[u].1.position));
    } else if t < u {
        assert(distance(cars[k].1.position, cars[u].1.position) <= distance(cars[k].1.position, cars[t].1.position));
    }
}

/// Removing an identity that occurs shortens the turn order.
proof fn lemma_without_shrinks(s: Seq<ActorId>, id: ActorId, i: int)
    requires
        0 <= i < s.len(),
        s[i] == id,
    ensures
        without(s, id).len() < s.len(),
    decreases s.len(),
{
    reveal(Seq::filter);
    s.drop_last().lemma_filter_len(|x: ActorId| x != id);
    assert(without(s, id) == (if s.last() != id {
        without(s.drop_last(), id).push(s.last())
    } else {
        without(s.drop_last(), id)
    }));
    if i < s.len() - 1 {
        assert(s.drop_last()[i] == s[i]);
        lemma_without_shrinks(s.drop_last(), id, i);
    }
}

/// `a` and `b` agree on every field but the car table and the state.
pub open spec fn same_but_state(a: Game, b: Game) -> bool {
    &&& a.admin == b.admin
    &&& a.car_ids@ == b.car_ids@
    &&& a.current_turn == b.current_turn
    &&& a.awaiting_reply_to_msg_id == b.awaiting_reply_to_msg_id
    &&& a.winner == b.winner
    &&& a.current_round == b.current_round
    &&& a.reservations@ == b.reservations@
}

/// In a table without repeated identities, an entry's position is the one
/// that `index_of` names.
pub proof fn lemma_index_of(cars: Seq<(ActorId, Car)>, i: int)
    requires
        ids_unique(cars),
        0 <= i < cars.len(),
    ensures
        index_of(cars, cars[i].0) == i,
        has_id(cars, cars[i].0),
{
    assert(0 <= i < cars.len() && cars[i].0 == cars[i].0);
}

} // verus!
