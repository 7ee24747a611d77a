use std::collections::{BTreeMap, BTreeSet};
use syndote::board::init_properties;
use syndote::types::{ActorId, GameError, PlayerInfo, Property};
use syndote::utils::{get_player_info, rolls_from_random, sell_property};

const ADMIN: ActorId = (0, 7, 0);
const P1: ActorId = (1, 0, 0);
const P2: ActorId = (2, 0, 0);

fn player(balance: u32, cells: &[u8]) -> PlayerInfo {
    PlayerInfo {
        position: 0,
        balance,
        debt: 0,
        in_jail: false,
        round: 0,
        cells: cells.iter().copied().collect(),
        penalty: 0,
        lost: false,
    }
}

fn board() -> (Vec<Option<Property>>, Vec<ActorId>) {
    let mut properties = Vec::new();
    let mut ownership = Vec::new();
    init_properties(&mut properties, &mut ownership);
    (properties, ownership)
}

#[test]
fn selling_own_cells_brings_half_their_price() {
    let (properties, mut ownership) = board();
    ownership[1] = P1;
    ownership[3] = P1;
    let mut bank = BTreeSet::new();
    let mut info = player(100, &[1, 3]);
    let r = sell_property(&ADMIN, &mut ownership, &vec![1, 3], &mut bank, &properties, &mut info, &P1);
    assert_eq!(r, Ok(()));
    assert_eq!(info.balance, 100 + 500 + 525);
    assert!(info.cells.is_empty());
    assert_eq!(ownership[1], ADMIN);
    assert_eq!(ownership[3], ADMIN);
    assert_eq!(bank, BTreeSet::from([1u8, 3]));
    assert_eq!(info.penalty, 0);
}

#[test]
fn selling_a_cell_twice_pays_twice() {
    let (properties, mut ownership) = board();
    ownership[1] = P1;
    let mut bank = BTreeSet::new();
    let mut info = player(0, &[1]);
    let r = sell_property(&ADMIN, &mut ownership, &vec![1, 1], &mut bank, &properties, &mut info, &P1);
    assert!(r.is_ok());
    assert_eq!(info.balance, 1_000);
}

#[test]
fn selling_another_accounts_cell_is_refused() {
    let (properties, mut ownership) = board();
    ownership[1] = P1;
    ownership[3] = P2;
    let mut bank = BTreeSet::new();
    let mut info = player(100, &[1]);
    let r = sell_property(&ADMIN, &mut ownership, &vec![1, 3], &mut bank, &properties, &mut info, &P1);
    assert_eq!(r, Err(GameError::StrategicError));
    assert_eq!(info.penalty, 1);
    assert_eq!(info.balance, 100);
    assert_eq!(ownership[1], P1);
    assert!(bank.is_empty());
}

#[test]
fn player_info_checks_the_sender_and_the_round() {
    let mut players: BTreeMap<ActorId, PlayerInfo> = BTreeMap::new();
    players.insert(P1, player(10, &[]));
    players.insert(P2, player(10, &[]));
    assert_eq!(get_player_info(&P1, &mut players, 1, &P1), Ok(()));
    assert_eq!(players[&P1].penalty, 0);

    assert_eq!(get_player_info(&P1, &mut players, 1, &P2), Err(GameError::StrategicError));
    assert_eq!(players[&P2].penalty, 1);
    assert_eq!(players[&P1].penalty, 0);

    let stranger: ActorId = (9, 9, 9);
    assert_eq!(get_player_info(&P1, &mut players, 1, &stranger), Err(GameError::StrategicError));
    assert_eq!(players.len(), 2);

    players.get_mut(&P1).unwrap().round = 1;
    assert_eq!(get_player_info(&P1, &mut players, 1, &P1), Err(GameError::StrategicError));
    assert_eq!(players[&P1].penalty, 1);
    assert_eq!(get_player_info(&P1, &mut players, 2, &P1), Ok(()));
}

#[test]
fn dice_range_from_one_to_six() {
    assert_eq!(rolls_from_random(0, 5), (1, 6));
    assert_eq!(rolls_from_random(255, 6), (4, 1));
    for b in 0..=255u8 {
        let (r1, r2) = rolls_from_random(b, b.wrapping_add(1));
        assert!((1..=6).contains(&r1));
        assert!((1..=6).contains(&r2));
    }
}

#[test]
fn valid_move_adds_no_penalty_even_at_the_top() {
    let mut players: BTreeMap<ActorId, PlayerInfo> = BTreeMap::new();
    players.insert(P1, PlayerInfo { penalty: u8::MAX, ..player(10, &[]) });
    assert_eq!(get_player_info(&P1, &mut players, 1, &P1), Ok(()));
    assert_eq!(players[&P1].penalty, u8::MAX);
}

#[test]
fn a_sale_moves_only_the_sellers_cells_to_the_admin() {
    let (properties, mut ownership) = board();
    ownership[1] = P1;
    ownership[3] = P1;
    ownership[5] = P2;
    let before = ownership.clone();
    let mut bank = BTreeSet::new();
    let mut info = player(0, &[1, 3]);
    let r = sell_property(&ADMIN, &mut ownership, &vec![3], &mut bank, &properties, &mut info, &P1);
    assert_eq!(r, Ok(()));
    for i in 0..ownership.len() {
        if ownership[i] != before[i] {
            assert_eq!(before[i], P1);
            assert_eq!(ownership[i], ADMIN);
        }
    }
    assert_eq!(ownership[1], P1);
    assert_eq!(ownership[3], ADMIN);
    assert_eq!(info.cells, BTreeSet::from([1u8]));
}
