use vstd::prelude::*;
use crate::types::{
    actor_from_u64, ActorId, CellType, Gear, Price, Property, Rent, JACKPOT_EARN, MYSTERY_VALUE,
    NEW_CIRCLE, PUNISHMENT_FEE, TELEPORT_FEE,
};

verus! {

/// The board, cell by cell: the number of the account that owns the cell at
/// the start (zero for a cell on sale; the special cells belong to the
/// accounts 60 to 66), its price, its rent and its kind.
pub open spec fn board_cell(i: u8) -> (u64, Price, Rent, CellType) {
    match i {
        0 => (60u64, NEW_CIRCLE, 0, CellType::Genesis),
        1 => (0u64, 1_000, 100, CellType::Normal),
        2 => (63u64, PUNISHMENT_FEE, 0, CellType::Punishment),
        3 => (0u64, 1_050, 105, CellType::Normal),
        4 => (66u64, MYSTERY_VALUE, 0, CellType::Mystery),
        5 => (0u64, 1_100, 110, CellType::Normal),
        6 => (0u64, 1_500, 150, CellType::Normal),
        7 => (65u64, TELEPORT_FEE, 0, CellType::Teleport),
        8 => (0u64, 1_550, 155, CellType::Normal),
        9 => (0u64, 1_700, 170, CellType::Normal),
        10 => (61u64, 0, 0, CellType::Jail),
        11 => (0u64, 2_000, 200, CellType::Normal),
        12 => (0u64, 2_050, 205, CellType::Normal),
        13 => (0u64, 2_100, 210, CellType::Normal),
        14 => (0u64, 2_200, 220, CellType::Normal),
        15 => (0u64, 2_300, 230, CellType::Normal),
        16 => (63u64, PUNISHMENT_FEE, 0, CellType::Punishment),
        17 => (0u64, 2_400, 240, CellType::Normal),
        18 => (0u64, 2_450, 245, CellType::Normal),
        19 => (0u64, 2_500, 250, CellType::Normal),
        20 => (64u64, JACKPOT_EARN, 0, CellType::Jackpot),
        21 => (0u64, 3_000, 300, CellType::Normal),
        22 => (0u64, 3_000, 300, CellType::Normal),
        23 => (0u64, 3_100, 310, CellType::Normal),
        24 => (0u64, 3_150, 315, CellType::Normal),
        25 => (0u64, 3_200, 320, CellType::Normal),
        26 => (0u64, 3_250, 325, CellType::Normal),
        27 => (0u64, 3_300, 330, CellType::Normal),
        28 => (0u64, 3_350, 334, CellType::Normal),
        29 => (0u64, 3_400, 340, CellType::Normal),
        30 => (62u64, 0, 0, CellType::GotoJail),
        31 => (0u64, 4_000, 400, CellType::Normal),
        32 => (0u64, 4_050, 405, CellType::Normal),
        33 => (65u64, TELEPORT_FEE, 0, CellType::Teleport),
        34 => (0u64, 4_100, 410, CellType::Normal),
        35 => (0u64, 4_150, 415, CellType::Normal),
        36 => (66u64, MYSTERY_VALUE, 0, CellType::Mystery),
        37 => (0u64, 4_200, 420, CellType::Normal),
        38 => (63u64, PUNISHMENT_FEE, 0, CellType::Punishment),
        39 => (0u64, 4_500, 450, CellType::Normal),
        _ => (0u64, 0, 0, CellType::Normal),
    }
}

/// Whether `p` is the property that the board puts on cell `i` at the start.
pub open spec fn is_board_property(p: Option<Property>, i: int) -> bool {
    let (owner, price, rent, kind) = board_cell(i as u8);
    match p {
        Some(q) => q.0 == crate::types::spec_actor_from_u64(owner) && q.1@ == Seq::<Gear>::empty()
            && q.2 == price && q.3 == rent && q.4 == kind,
        None => false,
    }
}

/// Cell `i` of the board.
fn board_entry(i: u8) -> (r: (u64, Price, Rent, CellType))
    requires
        i < 40,
    ensures
        r == board_cell(i),
{
    match i {
        0 => (60, NEW_CIRCLE, 0, CellType::Genesis),
        1 => (0, 1_000, 100, CellType::Normal),
        2 => (63, PUNISHMENT_FEE, 0, CellType::Punishment),
        3 => (0, 1_050, 105, CellType::Normal),
        4 => (66, MYSTERY_VALUE, 0, CellType::Mystery),
        5 => (0, 1_100, 110, CellType::Normal),
        6 => (0, 1_500, 150, CellType::Normal),
        7 => (65, TELEPORT_FEE, 0, CellType::Teleport),
        8 => (0, 1_550, 155, CellType::Normal),
        9 => (0, 1_700, 170, CellType::Normal),
        10 => (61, 0, 0, CellType::Jail),
        11 => (0, 2_000, 200, CellType::Normal),
        12 => (0, 2_050, 205, CellType::Normal),
        13 => (0, 2_100, 210, CellType::Normal),
        14 => (0, 2_200, 220, CellType::Normal),
        15 => (0, 2_300, 230, CellType::Normal),
        16 => (63, PUNISHMENT_FEE, 0, CellType::Punishment),
        17 => (0, 2_400, 240, CellType::Normal),
        18 => (0, 2_450, 245, CellType::Normal),
        19 => (0, 2_500, 250, CellType::Normal),
        20 => (64, JACKPOT_EARN, 0, CellType::Jackpot),
        21 => (0, 3_000, 300, CellType::Normal),
        22 => (0, 3_000, 300, CellType::Normal),
        23 => (0, 3_100, 310, CellType::Normal),
        24 => (0, 3_150, 315, CellType::Normal),
        25 => (0, 3_200, 320, CellType::Normal),
        26 => (0, 3_250, 325, CellType::Normal),
        27 => (0, 3_300, 330, CellType::Normal),
        28 => (0, 3_350, 334, CellType::Normal),
        29 => (0, 3_400, 340, CellType::Normal),
        30 => (62, 0, 0, CellType::GotoJail),
        31 => (0, 4_000, 400, CellType::Normal),
        32 => (0, 4_050, 405, CellType::Normal),
        33 => (65, TELEPORT_FEE, 0, CellType::Teleport),
        34 => (0, 4_100, 410, CellType::Normal),
        35 => (0, 4_150, 415, CellType::Normal),
        36 => (66, MYSTERY_VALUE, 0, CellType::Mystery),
        37 => (0, 4_200, 420, CellType::Normal),
        38 => (63, PUNISHMENT_FEE, 0, CellType::Punishment),
        39 => (0, 4_500, 450, CellType::Normal),
        _ => (0, 0, 0, CellType::Normal),
    }
}

/// Lays out the board: appends its forty cells to `properties` and forty
/// cells owned by no one to `ownership`.
pub fn init_properties(properties: &mut Vec<Option<Property>>, ownership: &mut Vec<ActorId>)
    requires
        old(properties)@.len() + 40 <= usize::MAX,
        old(ownership)@.len() + 40 <= usize::MAX,
    ensures
        final(properties)@.len() == old(properties)@.len() + 40,
        final(properties)@.subrange(0, old(properties)@.len() as int) == old(properties)@,
        forall|i: int| 0 <= i < 40 ==> #[trigger] is_board_property(
            final(properties)@[old(properties)@.len() + i], i),
        final(ownership)@ == old(ownership)@ + Seq::new(40, |i: int| crate::types::spec_actor_zero()),
{
    let ghost p0 = properties@;
    let ghost o0 = ownership@;
    let mut i: u8 = 0;
    while i < 40
        invariant
            i <= 40,
            properties@.len() == p0.len() + i,
            properties@.subrange(0, p0.len() as int) == p0,
            forall|j: int| 0 <= j < i ==> #[trigger] is_board_property(properties@[p0.len() + j], j),
            ownership@ == o0 + Seq::new(i as nat, |j: int| crate::types::spec_actor_zero()),
            p0.len() + 40 <= usize::MAX,
            o0.len() + 40 <= usize::MAX,
        decreases 40 - i,
    {
        let (owner, price, rent, kind) = board_entry(i);
        let gears: Vec<Gear> = Vec::new();
        properties.push(Some((actor_from_u64(owner), gears, price, rent, kind)));
        ownership.push((0, 0, 0));
        assert(properties@.subrange(0, p0.len() as int) =~= p0);
        assert(ownership@ =~= o0 + Seq::new((i + 1) as nat, |j: int| crate::types::spec_actor_zero()));
        i = i + 1;
    }
}

} // verus!
