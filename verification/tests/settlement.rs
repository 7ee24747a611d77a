use std::collections::{BTreeMap, BTreeSet};
use syndote::board::init_properties;
use syndote::types::{actor_zero, ActorId, PlayerInfo, Property};
use syndote::utils::bankrupt_and_penalty;

const ADMIN: ActorId = (0, 7, 0);
const P1: ActorId = (1, 0, 0);
const P2: ActorId = (2, 0, 0);

fn info(balance: u32, debt: u32, penalty: u8, cells: &[u8]) -> PlayerInfo {
    PlayerInfo {
        position: 0,
        balance,
        debt,
        in_jail: false,
        round: 0,
        cells: cells.iter().copied().collect::<BTreeSet<u8>>(),
        penalty,
        lost: false,
    }
}

struct Table {
    players: BTreeMap<ActorId, PlayerInfo>,
    queue: Vec<ActorId>,
    properties: Vec<Option<Property>>,
    bank: BTreeSet<u8>,
    ownership: Vec<ActorId>,
}

fn table(players: Vec<(ActorId, PlayerInfo)>) -> Table {
    let mut properties = Vec::new();
    let mut ownership = Vec::new();
    init_properties(&mut properties, &mut ownership);
    let queue = players.iter().map(|(a, _)| *a).collect();
    for (a, p) in players.iter() {
        for c in p.cells.iter() {
            ownership[*c as usize] = *a;
        }
    }
    Table { players: players.into_iter().collect(), queue, properties, bank: BTreeSet::new(), ownership }
}

fn check(t: &mut Table) {
    bankrupt_and_penalty(
        &ADMIN,
        &mut t.players,
        &mut t.queue,
        &mut t.properties,
        &mut t.bank,
        &mut t.ownership,
    );
}

#[test]
fn debt_paid_from_balance_costs_a_penalty_point() {
    let mut t = table(vec![(P1, info(500, 100, 0, &[1, 3]))]);
    check(&mut t);
    let p = &t.players[&P1];
    assert_eq!(p.balance, 400);
    assert_eq!(p.debt, 0);
    assert_eq!(p.penalty, 1);
    assert_eq!(p.cells, [1u8, 3].into_iter().collect());
    assert!(!p.lost);
    assert_eq!(t.queue, vec![P1]);
    assert!(t.bank.is_empty());
    assert_eq!(t.ownership[1], P1);
}

#[test]
fn debt_paid_after_selling_the_lowest_cells() {
    // cell 1 sells for 500, which covers a debt of 400 from a balance of 50
    let mut start = info(50, 400, 0, &[1, 3, 5]);
    start.position = 17;
    start.in_jail = true;
    start.round = 3;
    let mut t = table(vec![(P1, start)]);
    check(&mut t);
    let p = &t.players[&P1];
    assert_eq!((p.position, p.in_jail, p.round), (17, true, 3));
    assert_eq!(p.balance, 150);
    assert_eq!(p.debt, 0);
    assert_eq!(p.penalty, 1);
    assert_eq!(p.cells, [3u8, 5].into_iter().collect());
    assert!(!p.lost);
    assert_eq!(t.bank, [1u8].into_iter().collect());
    assert_eq!(t.ownership[1], ADMIN);
    assert_eq!(t.ownership[3], P1);
}

#[test]
fn unpaid_debt_puts_the_player_out() {
    // cells 1 and 3 sell for 500 and 525: not enough for a debt of 5000
    let mut t = table(vec![(P1, info(100, 5_000, 0, &[1, 3])), (P2, info(1_000, 0, 0, &[5]))]);
    check(&mut t);
    let p = &t.players[&P1];
    assert!(p.lost);
    // the record keeps its balance, debt and cells; only `lost` is set
    assert_eq!(p.balance, 100);
    assert_eq!(p.debt, 5_000);
    assert_eq!(p.cells, [1u8, 3].into_iter().collect());
    assert_eq!(p.penalty, 0);
    assert_eq!(t.queue, vec![P2]);
    assert_eq!(t.bank, [1u8, 3].into_iter().collect());
    assert_eq!(t.ownership[1], ADMIN);
    assert_eq!(t.ownership[3], ADMIN);
    assert_eq!(t.ownership[5], P2);
    assert!(!t.players[&P2].lost);
}

#[test]
fn five_penalty_points_put_the_player_out() {
    let mut t = table(vec![(P1, info(1_000, 0, 5, &[6])), (P2, info(1_000, 0, 4, &[]))]);
    check(&mut t);
    assert!(t.players[&P1].lost);
    assert!(!t.players[&P2].lost);
    assert_eq!(t.queue, vec![P2]);
    assert_eq!(t.bank, [6u8].into_iter().collect());
    assert_eq!(t.ownership[6], ADMIN);
}

#[test]
fn paying_the_fifth_penalty_point_puts_the_player_out() {
    let mut t = table(vec![(P1, info(1_000, 100, 4, &[6]))]);
    check(&mut t);
    let p = &t.players[&P1];
    assert_eq!(p.balance, 900);
    assert_eq!(p.penalty, 5);
    assert!(p.lost);
    assert!(t.queue.is_empty());
    assert_eq!(t.ownership[6], ADMIN);
}

#[test]
fn debt_without_cells_is_paid_from_the_balance() {
    let mut t = table(vec![(P1, info(100, 50, 0, &[]))]);
    check(&mut t);
    let p = &t.players[&P1];
    assert!(!p.lost);
    assert_eq!(p.balance, 50);
    assert_eq!(p.debt, 0);
    assert_eq!(p.penalty, 1);
    assert_eq!(t.queue, vec![P1]);
    assert!(t.bank.is_empty());
}

#[test]
fn debt_paid_by_the_last_sale() {
    let mut t = table(vec![(P1, info(0, 100, 0, &[1]))]);
    check(&mut t);
    let p = &t.players[&P1];
    assert!(!p.lost);
    assert_eq!(p.balance, 400);
    assert_eq!(p.debt, 0);
    assert!(p.cells.is_empty());
    assert_eq!(t.queue, vec![P1]);
    assert_eq!(t.bank, [1u8].into_iter().collect());
    assert_eq!(t.ownership[1], ADMIN);
}

#[test]
fn second_check_changes_nothing() {
    let mut t = table(vec![(P1, info(100, 5_000, 0, &[1, 3])), (P2, info(0, 100, 0, &[5]))]);
    check(&mut t);
    let players = t.players.clone();
    let queue = t.queue.clone();
    let bank = t.bank.clone();
    let ownership = t.ownership.clone();
    check(&mut t);
    for (a, p) in players.iter() {
        let q = &t.players[a];
        assert_eq!((q.balance, q.debt, q.penalty, q.lost, q.cells.clone()), (p.balance, p.debt, p.penalty, p.lost, p.cells.clone()));
    }
    assert_eq!(t.queue, queue);
    assert_eq!(t.bank, bank);
    assert_eq!(t.ownership, ownership);
}

#[test]
fn players_out_already_are_left_alone() {
    let mut lost = info(1_000, 0, 5, &[]);
    lost.lost = true;
    let mut t = table(vec![(P1, lost)]);
    t.queue = vec![P1, P1];
    check(&mut t);
    assert!(t.players[&P1].lost);
    assert_eq!(t.queue, vec![P1, P1]);
}

#[test]
fn clean_players_are_unchanged() {
    let mut t = table(vec![(P1, info(1_000, 0, 0, &[8])), (P2, info(2_000, 0, 3, &[9]))]);
    check(&mut t);
    assert_eq!(t.players[&P1].balance, 1_000);
    assert_eq!(t.players[&P2].penalty, 3);
    assert_eq!(t.queue, vec![P1, P2]);
    assert!(t.bank.is_empty());
    assert_eq!(t.ownership[8], P1);
    assert_ne!(t.ownership[8], actor_zero());
}

#[test]
fn after_the_check_everyone_is_out_or_clear() {
    let p3: ActorId = (3, 0, 0);
    let p4: ActorId = (4, 0, 0);
    let mut t = table(vec![
        (P1, info(100, 5_000, 0, &[1, 3])),
        (P2, info(0, 100, 0, &[5])),
        (p3, info(10, 0, 5, &[8])),
        (p4, info(900, 0, 2, &[9])),
    ]);
    t.queue = vec![P1, P2, p3, p4, P1];
    let before = t.players.clone();
    check(&mut t);
    for (_, p) in t.players.iter() {
        assert!(p.lost || (p.penalty < 5 && p.debt == 0));
    }
    let newly_out: Vec<ActorId> =
        before.iter().filter(|(a, p)| !p.lost && t.players[*a].lost).map(|(a, _)| *a).collect();
    assert_eq!(newly_out, vec![P1, p3]);
    assert_eq!(t.queue, vec![P2, p4]);
}

#[test]
fn unpaid_debtor_record_is_only_marked_out() {
    // cell 1 sells for 500: not enough for a debt of 1000 from a balance of 0
    let mut t = table(vec![(P1, info(0, 1_000, 0, &[1]))]);
    let before = t.players[&P1].clone();
    check(&mut t);
    let p = &t.players[&P1];
    assert!(p.lost);
    assert_eq!((p.balance, p.debt, p.penalty, p.cells.clone()), (before.balance, before.debt, before.penalty, before.cells.clone()));
    assert!(t.queue.is_empty());
    assert_eq!(t.ownership[1], ADMIN);
    assert!(t.bank.contains(&1));
}

#[test]
fn check_leaves_clean_players_and_only_hands_players_cells_to_the_admin() {
    let p3: ActorId = (3, 0, 0);
    let mut lost = info(50, 0, 5, &[9]);
    lost.lost = true;
    let mut t = table(vec![(P1, info(100, 5_000, 1, &[1, 3])), (P2, info(700, 0, 4, &[5])), (p3, lost)]);
    let before = t.players.clone();
    let ownership = t.ownership.clone();
    check(&mut t);
    for a in [P2, p3] {
        let (p, q) = (&before[&a], &t.players[&a]);
        assert_eq!((q.balance, q.debt, q.penalty, q.lost, q.cells.clone()), (p.balance, p.debt, p.penalty, p.lost, p.cells.clone()));
    }
    for (i, a) in t.ownership.iter().enumerate() {
        if *a != ownership[i] {
            assert_eq!(*a, ADMIN);
            assert!(before.values().any(|p| p.cells.contains(&(i as u8))));
            assert!(t.bank.contains(&(i as u8)));
        }
    }
    assert!(t.players[&P1].penalty >= 1);
}
