use vstd::prelude::*;
use std::collections::BTreeMap;
use crate::types::{ActorId, Game, Gear, Gears, PlayerInfo, Price, Property, Rent};

verus! {

/// A property as a strategy program sees it: owner, gears, price and rent.
pub type PropertyView = (ActorId, Gears, Price, Rent);

/// The message that hands a player its turn: the players and the board.
pub struct YourTurn {
    pub players: BTreeMap<ActorId, PlayerInfo>,
    /// Cell `i` of the board is at index `i + 1`; index 0 holds nothing.
    pub properties: Vec<Option<PropertyView>>,
}

/// Whether `v` shows the property `p` to a strategy program.
pub open spec fn shows_property(v: Option<PropertyView>, p: Option<Property>) -> bool {
    match (v, p) {
        (Some(a), Some(b)) => a.0 == b.0 && a.1@ == b.1@ && a.2 == b.2 && a.3 == b.3,
        _ => false,
    }
}

/// A copy of the gears of a property.
pub(crate) fn copy_gears(gears: &Gears) -> (r: Gears)
    ensures
        r@ == gears@,
{
    let mut r: Vec<Gear> = Vec::new();
    let mut i: usize = 0;
    while i < gears.len()
        invariant
            i <= gears.len(),
            r@ == gears@.take(i as int),
        decreases gears.len() - i,
    {
        r.push(gears[i]);
        i = i + 1;
        assert(r@ =~= gears@.take(i as int));
    }
    assert(gears@.take(i as int) =~= gears@);
    r
}

/// The board as the turn message shows it: an empty slot first, then every
/// property without its kind.
pub fn your_turn_properties(properties: &Vec<Option<Property>>) -> (r: Vec<Option<PropertyView>>)
    requires
        forall|i: int| 0 <= i < properties@.len() ==> #[trigger] properties@[i] is Some,
        properties@.len() < usize::MAX,
    ensures
        r@.len() == properties@.len() + 1,
        r@[0] is None,
        forall|i: int| 0 <= i < properties@.len() ==> #[trigger] shows_property(r@[i + 1], properties@[i]),
{
    let mut r: Vec<Option<PropertyView>> = Vec::new();
    r.push(None);
    let mut i: usize = 0;
    while i < properties.len()
        invariant
            i <= properties@.len(),
            properties@.len() < usize::MAX,
            forall|i: int| 0 <= i < properties@.len() ==> #[trigger] properties@[i] is Some,
            r@.len() == i + 1,
            r@[0] is None,
            forall|j: int| 0 <= j < i ==> #[trigger] shows_property(r@[j + 1], properties@[j]),
        decreases properties@.len() - i,
    {
        match &properties[i] {
            Some(p) => {
                r.push(Some((p.0, copy_gears(&p.1), p.2, p.3)));
            },
            None => {},
        }
        i = i + 1;
    }
    r
}

/// The turn message for the players and board of `game`.
pub fn your_turn(game: &Game) -> (m: YourTurn)
    requires
        forall|i: int| 0 <= i < game.properties@.len() ==> #[trigger] game.properties@[i] is Some,
        game.properties@.len() < usize::MAX,
    ensures
        m.players@ == game.players@,
        m.properties@.len() == game.properties@.len() + 1,
        m.properties@[0] is None,
        forall|i: int| 0 <= i < game.properties@.len()
            ==> #[trigger] shows_property(m.properties@[i + 1], game.properties@[i]),
{
    YourTurn { players: game.players.clone(), properties: your_turn_properties(&game.properties) }
}

} // verus!
