use syndote::board::init_properties;
use syndote::types::{actor_from_u64, actor_zero, CellType, Property, NUMBER_OF_CELLS};

fn board() -> (Vec<Option<Property>>, Vec<(u128, u64, u128)>) {
    let mut properties = Vec::new();
    let mut ownership = Vec::new();
    init_properties(&mut properties, &mut ownership);
    (properties, ownership)
}

#[test]
fn board_has_forty_cells_owned_by_no_one() {
    let (properties, ownership) = board();
    assert_eq!(properties.len(), NUMBER_OF_CELLS as usize);
    assert_eq!(ownership.len(), 40);
    assert!(ownership.iter().all(|a| *a == actor_zero()));
    assert!(properties.iter().all(|p| p.is_some()));
}

#[test]
fn board_special_cells() {
    let (properties, _) = board();
    let kind = |i: usize| properties[i].as_ref().unwrap().4;
    assert_eq!(kind(0), CellType::Genesis);
    assert_eq!(kind(10), CellType::Jail);
    assert_eq!(kind(30), CellType::GotoJail);
    assert_eq!(kind(20), CellType::Jackpot);
    for i in [2usize, 16, 38] {
        assert_eq!(kind(i), CellType::Punishment);
    }
    for i in [4usize, 36] {
        assert_eq!(kind(i), CellType::Mystery);
    }
    for i in [7usize, 33] {
        assert_eq!(kind(i), CellType::Teleport);
    }
    let jails = (0..40).filter(|i| kind(*i) == CellType::Jail).count();
    assert_eq!(jails, 1);
}

#[test]
fn board_prices_and_rents() {
    let (properties, _) = board();
    let cell = |i: usize| properties[i].clone().unwrap();
    let c0 = cell(0);
    assert_eq!(c0.0, actor_from_u64(60));
    assert_eq!(c0.2, 2_000);
    assert_eq!(c0.3, 0);
    let c1 = cell(1);
    assert_eq!(c1.0, actor_zero());
    assert_eq!((c1.2, c1.3), (1_000, 100));
    assert!(c1.1.is_empty());
    assert_eq!((cell(28).2, cell(28).3), (3_350, 334));
    assert_eq!((cell(39).2, cell(39).3), (4_500, 450));
    assert_eq!(cell(7).0, actor_from_u64(65));
    assert_eq!(cell(7).2, 250);
    assert_eq!(cell(4).0, actor_from_u64(66));
    assert_eq!(cell(4).2, 500);
    assert_eq!(cell(10).0, actor_from_u64(61));
    assert_eq!(cell(30).0, actor_from_u64(62));
    assert_eq!(cell(2).0, actor_from_u64(63));
    assert_eq!(cell(20).0, actor_from_u64(64));
    assert_eq!(cell(20).2, 1_000);
}

#[test]
fn board_is_appended_after_existing_cells() {
    let mut properties: Vec<Option<Property>> = vec![None];
    let mut ownership = vec![(1u128, 2u64, 3u128)];
    init_properties(&mut properties, &mut ownership);
    assert_eq!(properties.len(), 41);
    assert!(properties[0].is_none());
    assert_eq!(properties[1].as_ref().unwrap().4, CellType::Genesis);
    assert_eq!(ownership[0], (1, 2, 3));
    assert_eq!(ownership.len(), 41);
}

#[test]
fn board_cells_on_sale_have_rent_and_no_owner() {
    let (properties, _) = board();
    for p in properties.iter() {
        let c = p.clone().unwrap();
        assert!(c.1.is_empty());
        assert_eq!(c.4 == CellType::Normal, c.3 > 0);
        assert_eq!(c.4 == CellType::Normal, c.0 == actor_zero());
        if c.4 != CellType::Normal {
            assert!((60..=66).any(|k| c.0 == actor_from_u64(k)));
        }
    }
}
