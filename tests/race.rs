use car_races::codec::{decode_strategy, encode_strategy};
use car_races::game::{Command, Continuation, Game, PlayStep, ReplyOutcome};
use car_races::types::{
    Car, GameAction, GameError, GameReply, GameState, Id256, StrategyAction, GAS_MIN_AMOUNT,
    MAX_DISTANCE,
};

fn id(n: u64) -> Id256 {
    Id256::from_u64(n)
}

fn ready_game() -> Game {
    let mut game = Game::new(id(100));
    for n in 2..5u64 {
        assert_eq!(game.register(id(n)), Ok(GameReply::Registered));
    }
    game
}

fn racing_game() -> Game {
    let mut game = ready_game();
    assert_eq!(game.start_game(), Ok(()));
    game
}

fn car_of(game: &Game, n: u64) -> Car {
    let i = game.find_car(id(n)).expect("registered");
    game.cars[i].1
}

/// Asks the current participant and hands back `payload` as its reply.
fn answer(game: &mut Game, msg: u64, payload: &[u8]) -> ReplyOutcome {
    match game.play() {
        Ok(PlayStep::AskCar(_)) => {}
        other => panic!("no turn to play: {:?}", other),
    }
    game.await_reply(id(msg));
    game.handle_reply(id(msg), payload)
}

#[test]
fn quorum_opens_the_race() {
    let mut game = Game::new(id(100));
    assert_eq!(game.register(id(2)), Ok(GameReply::Registered));
    assert_eq!(game.state, GameState::Registration);
    assert_eq!(game.register(id(3)), Ok(GameReply::Registered));
    assert_eq!(game.state, GameState::Registration);
    assert_eq!(game.register(id(4)), Ok(GameReply::Registered));
    assert_eq!(game.state, GameState::ReadyToStart);
    assert_eq!(game.car_ids, vec![id(2), id(3), id(4)]);
    assert_eq!(game.register(id(5)), Err(GameError::InvalidState));
    assert_eq!(game.car_ids.len(), 3);
    assert_eq!(game.cars.len(), 3);
    assert_eq!(
        car_of(&game, 3),
        Car { balance: 15_000, position: 0, speed: 100, penalty: 0 }
    );
    assert_eq!(game.handle(GameAction::StartGame), Ok(Command::PlayNext));
    assert_eq!(game.state, GameState::Race);
    assert_eq!(game.play(), Ok(PlayStep::AskCar(id(2))));
    assert_eq!(game.handle(GameAction::Play), Ok(Command::AskCar(id(2))));
}

#[test]
fn control_actions_in_the_wrong_state_are_refused() {
    let mut game = Game::new(id(100));
    assert_eq!(game.start_game(), Err(GameError::InvalidState));
    assert_eq!(game.continue_game(), Err(GameError::InvalidState));
    assert_eq!(game.play(), Err(GameError::NotFound));
    assert_eq!(game.state, GameState::Registration);
    let mut game = ready_game();
    assert_eq!(game.play(), Ok(PlayStep::AskCar(id(2))));
    let mut game = racing_game();
    assert_eq!(game.handle(GameAction::StartGame), Err(GameError::InvalidState));
    assert_eq!(game.handle(GameAction::Register { car_id: id(9) }), Err(GameError::InvalidState));
    assert_eq!(game.state, GameState::Race);
}

#[test]
fn affordable_acceleration_is_applied() {
    let mut game = racing_game();
    let payload = encode_strategy(StrategyAction::BuyAcceleration { amount: 25 });
    assert_eq!(answer(&mut game, 7, &payload), ReplyOutcome::Applied { closed_round: None });
    assert_eq!(
        car_of(&game, 2),
        Car { balance: 14_750, position: 0, speed: 125, penalty: 0 }
    );
    assert_eq!(game.current_turn, 1);
    assert!(game.awaiting_reply_to_msg_id.is_zero());
}

#[test]
fn acceleration_over_the_limit_is_penalized() {
    let mut game = racing_game();
    let payload = encode_strategy(StrategyAction::BuyAcceleration { amount: 30 });
    answer(&mut game, 7, &payload);
    assert_eq!(
        car_of(&game, 2),
        Car { balance: 15_000, position: 0, speed: 100, penalty: 1 }
    );
}

#[test]
fn unaffordable_purchase_is_penalized() {
    let mut game = racing_game();
    game.cars[0].1.balance = 240;
    game.cars[0].1.speed = 100;
    answer(&mut game, 7, &encode_strategy(StrategyAction::BuyAcceleration { amount: 25 }));
    assert_eq!(car_of(&game, 2), Car { balance: 240, position: 0, speed: 100, penalty: 1 });
    game.cars[1].1.balance = 199;
    answer(&mut game, 8, &encode_strategy(StrategyAction::BuyShell { amount: 10 }));
    assert_eq!(car_of(&game, 3), Car { balance: 199, position: 0, speed: 100, penalty: 1 });
    assert_eq!(car_of(&game, 2).speed, 100);
    assert_eq!(car_of(&game, 4).speed, 100);
}

#[test]
fn shell_slows_the_nearest_other_car() {
    let mut game = racing_game();
    game.cars[1].1.position = 500;
    game.cars[2].1.position = 300;
    answer(&mut game, 7, &encode_strategy(StrategyAction::BuyShell { amount: 10 }));
    assert_eq!(car_of(&game, 2).balance, 14_800);
    assert_eq!(car_of(&game, 4).speed, 90);
    assert_eq!(car_of(&game, 3).speed, 100);
}

#[test]
fn shell_tie_goes_to_the_last_car_in_table_order() {
    let mut game = racing_game();
    answer(&mut game, 7, &encode_strategy(StrategyAction::BuyShell { amount: 10 }));
    assert_eq!(car_of(&game, 3).speed, 100);
    assert_eq!(car_of(&game, 4).speed, 90);
}

#[test]
fn shell_speed_floors_at_zero() {
    let mut game = racing_game();
    game.cars[2].1.speed = 4;
    answer(&mut game, 7, &encode_strategy(StrategyAction::BuyShell { amount: 10 }));
    assert_eq!(car_of(&game, 4).speed, 0);
}

#[test]
fn undecodable_reply_disqualifies_at_once() {
    let mut game = racing_game();
    let outcome = answer(&mut game, 7, &[9, 1, 2]);
    assert_eq!(outcome, ReplyOutcome::Applied { closed_round: None });
    assert_eq!(car_of(&game, 2).penalty, 5);
    assert_eq!(game.car_ids, vec![id(3), id(4)]);
    assert_eq!(game.cars.len(), 3);
    assert_eq!(game.current_turn, 1);
}

#[test]
fn mismatched_reply_stops_the_race() {
    let mut game = racing_game();
    game.await_reply(id(7));
    let outcome = game.handle_reply(id(8), &encode_strategy(StrategyAction::Skip));
    assert_eq!(outcome, ReplyOutcome::Anomaly);
    assert_eq!(game.state, GameState::Stopped);
    assert_eq!(game.current_turn, 0);
    assert_eq!(game.awaiting_reply_to_msg_id, id(7));
    assert_eq!(game.play(), Err(GameError::InvalidState));
    assert_eq!(game.handle(GameAction::ContinueGame), Ok(Command::PlayNext));
    assert_eq!(game.state, GameState::Race);
    assert!(game.awaiting_reply_to_msg_id.is_zero());
    assert_eq!(game.play(), Ok(PlayStep::AskCar(id(2))));
}

#[test]
fn no_second_request_while_one_is_outstanding() {
    let mut game = racing_game();
    assert_eq!(game.play(), Ok(PlayStep::AskCar(id(2))));
    game.await_reply(id(7));
    assert_eq!(game.play(), Err(GameError::ReplyPending));
    assert_eq!(game.handle(GameAction::Play), Err(GameError::ReplyPending));
    game.handle_reply(id(7), &encode_strategy(StrategyAction::Skip));
    assert_eq!(game.play(), Ok(PlayStep::AskCar(id(3))));
}

#[test]
fn exhausted_budget_without_reservation_pauses() {
    let mut game = racing_game();
    answer(&mut game, 7, &encode_strategy(StrategyAction::Skip));
    assert_eq!(game.next_step(GAS_MIN_AMOUNT), Continuation::Paused);
    assert_eq!(game.state, GameState::Stopped);
    assert_eq!(game.play(), Err(GameError::InvalidState));
    assert_eq!(game.handle(GameAction::Play), Err(GameError::InvalidState));
    assert_eq!(game.start_game(), Err(GameError::InvalidState));
    assert_eq!(game.continue_game(), Ok(()));
    assert_eq!(game.state, GameState::Race);
    assert_eq!(game.play(), Ok(PlayStep::AskCar(id(3))));
}

#[test]
fn budget_runs_on_reservations_latest_first() {
    let mut game = racing_game();
    assert_eq!(game.handle(GameAction::MakeReservation), Ok(Command::Reserve));
    assert_eq!(game.reserve_gas(id(50)), GameReply::GasReserved);
    assert_eq!(game.reserve_gas(id(51)), GameReply::GasReserved);
    assert_eq!(game.next_step(GAS_MIN_AMOUNT + 1), Continuation::PlayNow);
    assert_eq!(game.reservations.len(), 2);
    assert_eq!(game.next_step(0), Continuation::PlayFromReservation(id(51)));
    assert_eq!(game.next_step(0), Continuation::PlayFromReservation(id(50)));
    assert_eq!(game.state, GameState::Race);
    assert_eq!(game.next_step(0), Continuation::Paused);
    assert_eq!(game.state, GameState::Stopped);
}

#[test]
fn full_round_moves_cars_and_counts_once() {
    let mut game = racing_game();
    let skip = encode_strategy(StrategyAction::Skip);
    assert_eq!(answer(&mut game, 1, &skip), ReplyOutcome::Applied { closed_round: None });
    assert_eq!(answer(&mut game, 2, &skip), ReplyOutcome::Applied { closed_round: None });
    assert_eq!(game.current_round, 0);
    assert_eq!(answer(&mut game, 3, &skip), ReplyOutcome::Applied { closed_round: Some(0) });
    assert_eq!(game.current_round, 1);
    assert_eq!(game.current_turn, 0);
    for n in 2..5u64 {
        assert_eq!(car_of(&game, n).position, 100);
    }
    answer(&mut game, 4, &skip);
    assert_eq!(game.current_round, 1);
}

#[test]
fn penalized_participant_leaves_the_turn_order() {
    let mut game = racing_game();
    let greedy = encode_strategy(StrategyAction::BuyAcceleration { amount: 26 });
    let skip = encode_strategy(StrategyAction::Skip);
    let mut msg = 1u64;
    for _ in 0..5 {
        answer(&mut game, msg, &greedy);
        answer(&mut game, msg + 1, &skip);
        answer(&mut game, msg + 2, &skip);
        msg += 3;
    }
    assert_eq!(car_of(&game, 2).penalty, 5);
    assert_eq!(game.car_ids, vec![id(3), id(4)]);
    assert_eq!(game.cars.len(), 3);
    assert_eq!(car_of(&game, 2).position, 400);
    assert_eq!(car_of(&game, 3).position, 500);
    assert_eq!(game.play(), Ok(PlayStep::AskCar(id(3))));
}

#[test]
fn first_car_over_the_line_wins() {
    let mut game = racing_game();
    game.cars[1].1.position = 9_950;
    game.cars[2].1.position = 9_990;
    let skip = encode_strategy(StrategyAction::Skip);
    answer(&mut game, 1, &skip);
    answer(&mut game, 2, &skip);
    answer(&mut game, 3, &skip);
    assert_eq!(game.state, GameState::Finished);
    assert_eq!(game.winner, id(3));
    assert_eq!(car_of(&game, 3).position, MAX_DISTANCE);
    assert_eq!(car_of(&game, 4).position, MAX_DISTANCE);
    assert_eq!(car_of(&game, 2).position, 100);
    assert_eq!(game.play(), Ok(PlayStep::GameFinished));
    assert_eq!(game.handle(GameAction::Play), Ok(Command::Reply(GameReply::GameFinished)));
    assert_eq!(game.next_step(0), Continuation::Idle);
    assert_eq!(game.state, GameState::Finished);
    assert_eq!(game.continue_game(), Err(GameError::InvalidState));
}

#[test]
fn race_runs_to_the_finish() {
    let mut game = racing_game();
    let skip = encode_strategy(StrategyAction::Skip);
    let mut msg = 1u64;
    while game.state != GameState::Finished {
        answer(&mut game, msg, &skip);
        msg += 1;
    }
    assert_eq!(game.current_round, 100);
    assert_eq!(game.winner, id(2));
}

#[test]
fn answers_decode_from_their_wire_form() {
    assert_eq!(
        decode_strategy(&[0, 25, 0, 0, 0]),
        Some(StrategyAction::BuyAcceleration { amount: 25 })
    );
    assert_eq!(
        decode_strategy(&[1, 0x10, 0x27, 0, 0]),
        Some(StrategyAction::BuyShell { amount: 10_000 })
    );
    assert_eq!(decode_strategy(&[2]), Some(StrategyAction::Skip));
    assert_eq!(decode_strategy(&[2, 7, 7]), Some(StrategyAction::Skip));
    assert_eq!(decode_strategy(&[0, 1, 2, 3]), None);
    assert_eq!(decode_strategy(&[3, 0, 0, 0, 0]), None);
    assert_eq!(decode_strategy(&[]), None);
    assert_eq!(encode_strategy(StrategyAction::BuyShell { amount: 0x0403_0201 }), vec![1, 1, 2, 3, 4]);
    for action in [
        StrategyAction::BuyAcceleration { amount: u32::MAX },
        StrategyAction::BuyShell { amount: 7 },
        StrategyAction::Skip,
    ] {
        assert_eq!(decode_strategy(&encode_strategy(action)), Some(action));
    }
}

#[test]
fn duplicate_registration_changes_nothing() {
    let mut game = Game::new(id(100));
    game.register(id(2)).unwrap();
    game.cars[0].1.balance = 5;
    assert_eq!(game.register(id(2)), Ok(GameReply::Registered));
    assert_eq!(game.cars.len(), 1);
    assert_eq!(game.cars[0].1.balance, 5);
    assert_eq!(game.car_ids, vec![id(2)]);
    assert_eq!(game.state, GameState::Registration);
    game.register(id(3)).unwrap();
    game.register(id(3)).unwrap();
    assert_eq!(game.state, GameState::Registration);
    game.register(id(4)).unwrap();
    assert_eq!(game.state, GameState::ReadyToStart);
    assert_eq!(game.car_ids, vec![id(2), id(3), id(4)]);
    assert_eq!(game.register(id(2)), Err(GameError::InvalidState));
}
