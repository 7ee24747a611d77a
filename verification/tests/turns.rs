use syndote::messages::{your_turn, your_turn_properties};
use syndote::strategy::{basic_choice, gambler_choice, jail_choice, position_after_jail_roll, Choice};
use syndote::types::{actor_from_u64, actor_zero, ActorId, Game, Gear};

const ADMIN: ActorId = (0, 9, 0);
const ME: ActorId = (1, 0, 0);
const OTHER: ActorId = (2, 0, 0);

#[test]
fn turn_message_shifts_the_board_by_one() {
    let g = Game::new(ADMIN);
    let props = your_turn_properties(&g.properties);
    assert_eq!(props.len(), 41);
    assert!(props[0].is_none());
    let genesis = props[1].as_ref().unwrap();
    assert_eq!(genesis.0, actor_from_u64(60));
    assert_eq!(genesis.2, 2_000);
    let last = props[40].as_ref().unwrap();
    assert_eq!((last.2, last.3), (4_500, 450));
    let m = your_turn(&g);
    assert_eq!(m.properties.len(), 41);
    assert!(m.players.is_empty());
}

#[test]
fn turn_message_carries_the_players() {
    let mut g = Game::new(ADMIN);
    g.register(&ME);
    let m = your_turn(&g);
    assert_eq!(m.players.len(), 1);
    assert_eq!(m.players[&ME].balance, 15_000);
}

#[test]
fn jail_strategy() {
    assert_eq!(jail_choice(1_000), Choice::ThrowRoll { pay_fine: false });
    assert_eq!(jail_choice(1_001), Choice::ThrowRoll { pay_fine: true });
    assert_eq!(position_after_jail_roll(true, Some((false, 14)), 10), None);
    assert_eq!(position_after_jail_roll(false, Some((false, 14)), 10), Some(14));
    assert_eq!(position_after_jail_roll(false, Some((true, 10)), 10), None);
    assert_eq!(position_after_jail_roll(false, None, 10), Some(10));
}

fn message(owner_at_3: ActorId, gears: usize, rent: u32, mine_at: Option<usize>) -> Vec<Option<(ActorId, Vec<Gear>, u32, u32)>> {
    let mut v: Vec<Option<(ActorId, Vec<Gear>, u32, u32)>> = vec![None];
    for i in 0..40usize {
        let owner = if Some(i + 1) == mine_at { ME } else { actor_zero() };
        v.push(Some((owner, vec![], 1_000, 100)));
    }
    v[3] = Some((owner_at_3, vec![Gear::Bronze; gears], 1_200, rent));
    v
}

#[test]
fn basic_strategy_choices() {
    assert_eq!(basic_choice(&message(ME, 2, 100, None), 3, 5_000, &ME), Choice::AddGear);
    assert_eq!(basic_choice(&message(ME, 3, 100, None), 3, 5_000, &ME), Choice::Upgrade);
    assert_eq!(basic_choice(&message(actor_zero(), 0, 100, None), 3, 5_000, &ME), Choice::BuyCell);
    assert_eq!(basic_choice(&message(OTHER, 0, 100, None), 3, 5_000, &ME), Choice::PayRent { sell: None });
    assert_eq!(basic_choice(&message(OTHER, 0, 6_000, Some(8)), 3, 5_000, &ME), Choice::PayRent { sell: Some(7) });
    assert_eq!(basic_choice(&message(OTHER, 0, 6_000, None), 3, 5_000, &ME), Choice::PayRent { sell: None });
    assert_eq!(basic_choice(&message(OTHER, 0, 100, None), 0, 5_000, &ME), Choice::Pass);
}

#[test]
fn gambler_strategy_choices() {
    assert_eq!(gambler_choice(&message(actor_from_u64(65), 0, 0, None), 3, 5_000, &ME), Choice::Teleport);
    assert_eq!(gambler_choice(&message(actor_from_u64(66), 0, 0, None), 3, 5_000, &ME), Choice::Mystery);
    assert_eq!(gambler_choice(&message(actor_from_u64(60), 0, 0, None), 3, 5_000, &ME), Choice::Pass);
    assert_eq!(gambler_choice(&message(ME, 2, 100, None), 3, 5_000, &ME), Choice::AddGear);
    assert_eq!(gambler_choice(&message(ME, 3, 100, None), 3, 5_000, &ME), Choice::Upgrade);
    assert_eq!(gambler_choice(&message(ME, 1, 100, None), 3, 500, &ME), Choice::Pass);
    assert_eq!(gambler_choice(&message(actor_zero(), 0, 100, None), 3, 5_000, &ME), Choice::BuyCell);
    assert_eq!(gambler_choice(&message(actor_zero(), 0, 100, None), 3, 1_200, &ME), Choice::PayRent { sell: None });
    assert_eq!(gambler_choice(&message(OTHER, 0, 100, None), 3, 5_000, &ME), Choice::PayRent { sell: None });
}
