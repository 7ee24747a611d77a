use std::collections::BTreeSet;
use syndote::game::{round_gate, RoundGate, RoundStart, TurnOutcome};
use syndote::types::{actor_zero, ActorId, Game, GameStatus, PlayerInfo, INITIAL_BALANCE, PENALTY};

const ADMIN: ActorId = (0, 9, 0);
const P1: ActorId = (1, 0, 0);
const P2: ActorId = (2, 0, 0);
const P3: ActorId = (3, 0, 0);
const P4: ActorId = (4, 0, 0);

fn game_in_play() -> Game {
    let mut g = Game::new(ADMIN);
    for p in [P1, P2, P3, P4] {
        g.register(&p);
    }
    g
}

#[test]
fn new_game_is_open_for_registration() {
    let g = Game::new(ADMIN);
    assert_eq!(g.admin, ADMIN);
    assert_eq!(g.game_status, GameStatus::Registration);
    assert!(g.players.is_empty());
    assert!(g.players_queue.is_empty());
    assert_eq!(g.round, 0);
    assert_eq!(g.properties.len(), 40);
    assert_eq!(g.ownership.len(), 40);
    assert_eq!(g.winner, actor_zero());
    g.check_status(GameStatus::Registration);
}

#[test]
fn fourth_registration_starts_the_game() {
    let mut g = Game::new(ADMIN);
    for p in [P1, P2, P3] {
        g.register(&p);
        assert_eq!(g.game_status, GameStatus::Registration);
    }
    g.register(&P4);
    assert_eq!(g.game_status, GameStatus::Play);
    assert_eq!(g.players_queue, vec![P1, P2, P3, P4]);
    let p = &g.players[&P2];
    assert_eq!(p.balance, INITIAL_BALANCE);
    assert_eq!(p.position, 0);
    assert!(p.cells.is_empty());
    g.only_player(&P3);
    assert!(!g.players.contains_key(&ADMIN));
}

#[test]
fn the_program_itself_may_run_rounds() {
    let mut g = game_in_play();
    g.only_admin(&ADMIN);
    let program: ActorId = (5, 5, 5);
    match g.begin_round(&program, &program) {
        RoundStart::Turns { queue } => assert_eq!(queue, vec![P1, P2, P3, P4]),
        RoundStart::Finished { .. } => panic!("four players are left"),
    }
    assert_eq!(g.round, 1);
}

#[test]
fn game_without_a_board_is_played_to_the_end() {
    let a: ActorId = (0, 2, 0);
    let b: ActorId = (0, 3, 0);
    let mut g = Game::new(ADMIN);
    g.properties = Vec::new();
    g.ownership = Vec::new();
    g.game_status = GameStatus::Play;
    g.players.insert(a, PlayerInfo::default());
    g.players.insert(b, PlayerInfo { penalty: PENALTY, ..PlayerInfo::default() });
    g.players_queue = vec![a, b];
    match g.begin_round(&ADMIN, &ADMIN) {
        RoundStart::Finished { winner } => assert_eq!(winner, a),
        RoundStart::Turns { .. } => panic!("one player is left"),
    }
    assert_eq!(g.game_status, GameStatus::Finished);
    assert_eq!(g.winner, a);
    assert_eq!(g.players_queue, vec![a]);
    assert!(g.players[&b].lost);
    assert_eq!(g.round, 0);
    assert_eq!(g.current_step, 0);
}

#[test]
fn round_moves_on_while_players_are_left() {
    let mut g = game_in_play();
    match g.begin_round(&ADMIN, &ADMIN) {
        RoundStart::Turns { queue } => assert_eq!(queue, vec![P1, P2, P3, P4]),
        RoundStart::Finished { .. } => panic!("four players are left"),
    }
    assert_eq!(g.round, 1);
    assert_eq!(g.game_status, GameStatus::Play);
}

#[test]
fn round_number_wraps_around() {
    let mut g = game_in_play();
    g.round = u128::MAX;
    let _ = g.begin_round(&ADMIN, &ADMIN);
    assert_eq!(g.round, 0);
}

#[test]
fn last_player_left_wins() {
    let mut g = game_in_play();
    for p in [P1, P2, P4] {
        g.players.get_mut(&p).unwrap().penalty = PENALTY;
    }
    match g.begin_round(&ADMIN, &ADMIN) {
        RoundStart::Finished { winner } => assert_eq!(winner, P3),
        RoundStart::Turns { .. } => panic!("one player is left"),
    }
    assert_eq!(g.winner, P3);
    assert_eq!(g.game_status, GameStatus::Finished);
    assert_eq!(g.round, 0);
    assert_eq!(g.players_queue, vec![P3]);
    assert!(g.players[&P1].lost);
}

#[test]
fn start_registration_resets_the_game() {
    let mut g = game_in_play();
    g.game_status = GameStatus::Finished;
    g.round = 12;
    g.start_registration(&ADMIN);
    assert_eq!(g.admin, ADMIN);
    assert_eq!(g.game_status, GameStatus::Registration);
    assert!(g.players.is_empty());
    assert_eq!(g.round, 0);
    assert_eq!(g.properties.len(), 40);
}

#[test]
fn move_onto_a_free_cell_asks_the_player() {
    let mut g = game_in_play();
    assert!(g.needs_rolls(&P1));
    let r = g.move_player(P1, (1, 2));
    assert_eq!(r, TurnOutcome::AwaitPlayer);
    let p = &g.players[&P1];
    assert_eq!(p.position, 3);
    assert_eq!(p.debt, 0);
    assert!(!p.in_jail);
    assert_eq!(g.current_player, P1);
    assert_eq!(g.current_step, 1);
}

#[test]
fn move_onto_another_players_cell_records_the_rent() {
    let mut g = game_in_play();
    g.ownership[5] = P2;
    let r = g.move_player(P1, (2, 3));
    assert_eq!(r, TurnOutcome::AwaitPlayer);
    assert_eq!(g.players[&P1].debt, 110);
    assert_eq!(g.players[&P1].balance, INITIAL_BALANCE);
}

#[test]
fn own_cell_records_no_rent() {
    let mut g = game_in_play();
    g.ownership[5] = P1;
    let _ = g.move_player(P1, (2, 3));
    assert_eq!(g.players[&P1].debt, 0);
}

#[test]
fn go_to_jail_cell_sends_to_jail() {
    let mut g = game_in_play();
    g.players.get_mut(&P1).unwrap().position = 25;
    let r = g.move_player(P1, (2, 3));
    assert_eq!(r, TurnOutcome::Done);
    let p = &g.players[&P1];
    assert!(p.in_jail);
    assert_eq!(p.position, 10);
    assert!(!g.needs_rolls(&P1));
}

#[test]
fn jailed_player_stays_in_place() {
    let mut g = game_in_play();
    {
        let p = g.players.get_mut(&P1).unwrap();
        p.position = 10;
        p.in_jail = true;
    }
    let r = g.move_player(P1, (6, 6));
    assert_eq!(r, TurnOutcome::AwaitPlayer);
    let p = &g.players[&P1];
    assert_eq!(p.position, 10);
    assert!(p.in_jail);
}

#[test]
fn landing_on_genesis_pays_a_new_circle() {
    let mut g = game_in_play();
    g.players.get_mut(&P1).unwrap().position = 35;
    let r = g.move_player(P1, (2, 3));
    assert_eq!(r, TurnOutcome::Done);
    assert_eq!(g.players[&P1].position, 0);
    assert_eq!(g.players[&P1].balance, INITIAL_BALANCE + 2_000);
}

#[test]
fn passing_genesis_pays_nothing() {
    let mut g = game_in_play();
    g.players.get_mut(&P1).unwrap().position = 38;
    let _ = g.move_player(P1, (2, 3));
    assert_eq!(g.players[&P1].position, 3);
    assert_eq!(g.players[&P1].balance, INITIAL_BALANCE);
}

#[test]
fn landing_on_jackpot_pays() {
    let mut g = game_in_play();
    g.players.get_mut(&P1).unwrap().position = 15;
    let r = g.move_player(P1, (2, 3));
    assert_eq!(r, TurnOutcome::Done);
    assert_eq!(g.players[&P1].balance, INITIAL_BALANCE + 1_000);
}

#[test]
fn punishment_takes_the_fee_or_jails() {
    let mut g = game_in_play();
    let _ = g.move_player(P1, (1, 1));
    assert_eq!(g.players[&P1].position, 2);
    assert_eq!(g.players[&P1].balance, INITIAL_BALANCE - 1_000);
    g.players.get_mut(&P2).unwrap().balance = 1_000;
    let r = g.move_player(P2, (1, 1));
    assert_eq!(r, TurnOutcome::Done);
    let p = &g.players[&P2];
    assert_eq!(p.balance, 1_000);
    assert!(p.in_jail);
    assert_eq!(p.position, 10);
}

#[test]
fn mystery_and_teleport_cells_ask_the_player() {
    let mut g = game_in_play();
    assert_eq!(g.move_player(P1, (2, 2)), TurnOutcome::AwaitPlayer);
    assert_eq!(g.players[&P1].position, 4);
    assert_eq!(g.move_player(P2, (3, 4)), TurnOutcome::AwaitPlayer);
    assert_eq!(g.players[&P2].position, 7);
    assert_eq!(g.current_step, 2);
    assert_eq!(g.current_player, P2);
}

#[test]
fn lost_player_is_skipped() {
    let mut g = game_in_play();
    g.players.get_mut(&P1).unwrap().lost = true;
    let r = g.move_player(P1, (3, 3));
    assert_eq!(r, TurnOutcome::Skipped);
    assert_eq!(g.players[&P1].position, 0);
    assert_eq!(g.current_step, 0);
    assert_eq!(g.current_player, actor_zero());
    assert!(!g.needs_rolls(&P1));
}

#[test]
fn answered_turn_keeps_its_changes() {
    let mut g = game_in_play();
    let _ = g.move_player(P1, (1, 2));
    let saved = g.snapshot();
    g.players.get_mut(&P1).unwrap().balance = 7;
    g.ownership[3] = P1;
    g.turn_replied(saved, &P1, true);
    assert_eq!(g.players[&P1].balance, 7);
    assert_eq!(g.players[&P1].penalty, 0);
    assert_eq!(g.ownership[3], P1);
}

#[test]
fn silent_player_is_rolled_back_and_penalised() {
    let mut g = game_in_play();
    let _ = g.move_player(P1, (1, 2));
    let saved = g.snapshot();
    g.players.get_mut(&P1).unwrap().balance = 7;
    g.players.get_mut(&P1).unwrap().cells.insert(3);
    g.ownership[3] = P1;
    g.properties_in_bank.insert(3);
    g.turn_replied(saved, &P1, false);
    let p = &g.players[&P1];
    assert_eq!(p.penalty, PENALTY);
    assert_eq!(p.balance, INITIAL_BALANCE);
    assert_eq!(p.position, 3);
    assert!(p.cells.is_empty());
    assert_eq!(g.ownership[3], actor_zero());
    assert!(g.properties_in_bank.is_empty());
    assert_eq!(g.current_player, P1);
    assert_eq!(g.current_step, 1);
}

#[test]
fn player_records_can_be_copied() {
    let p = PlayerInfo { position: 3, balance: 7, debt: 1, in_jail: true, round: 2, cells: BTreeSet::from([4u8]), penalty: 1, lost: false };
    let q = p.clone();
    assert_eq!(q.cells, p.cells);
    assert_eq!((q.position, q.balance, q.debt, q.in_jail, q.round, q.penalty, q.lost), (3, 7, 1, true, 2, 1, false));
    let d = PlayerInfo::default();
    assert_eq!(d.balance, 0);
    assert!(d.cells.is_empty());
}

#[test]
fn round_gate_follows_status_and_gas() {
    assert_eq!(round_gate(GameStatus::Registration, false, false), RoundGate::Stop);
    assert_eq!(round_gate(GameStatus::Finished, true, true), RoundGate::Stop);
    assert_eq!(round_gate(GameStatus::Play, false, false), RoundGate::PlayRound);
    assert_eq!(round_gate(GameStatus::Play, false, true), RoundGate::PlayRound);
    assert_eq!(round_gate(GameStatus::Play, true, true), RoundGate::PassToReservation);
    assert_eq!(round_gate(GameStatus::Play, true, false), RoundGate::OutOfGas);
}
