use vstd::prelude::*;
use crate::messages::PropertyView;
use crate::types::{actor_eq, actor_from_u64, actor_zero, ActorId, COST_FOR_UPGRADE, FINE};

verus! {

/// What a strategy program asks the game to do on its turn.
#[derive(Clone, Copy, Debug, PartialEq, Eq, Structural)]
pub enum Choice {
    /// Nothing more: the turn is over.
    Pass,
    /// Throw the dice in jail, paying the fine first or not.
    ThrowRoll { pay_fine: bool },
    AddGear,
    Upgrade,
    BuyCell,
    /// Pay the rent, selling the given cell first if any.
    PayRent { sell: Option<u8> },
    Mystery,
    Teleport,
}

/// The owner of slot `i` of the board as the turn message shows it.
pub open spec fn slot_owner(props: Seq<Option<PropertyView>>, i: int) -> Option<ActorId> {
    match props[i] {
        Some(p) => Some(p.0),
        None => None,
    }
}

/// Whether `i` is the first slot of the message held by `me`.
pub open spec fn is_first_owned(props: Seq<Option<PropertyView>>, me: ActorId, i: int) -> bool {
    &&& 0 <= i < props.len()
    &&& slot_owner(props, i) == Some(me)
    &&& forall|j: int| 0 <= j < i ==> #[trigger] slot_owner(props, j) != Some(me)
}

/// Whether no slot of the message is held by `me`.
pub open spec fn owns_nothing(props: Seq<Option<PropertyView>>, me: ActorId) -> bool {
    forall|j: int| 0 <= j < props.len() ==> #[trigger] slot_owner(props, j) != Some(me)
}

/// The choice of a player in jail: it pays the fine and throws when its
/// balance exceeds the fine, otherwise it throws hoping to get out for free.
pub fn jail_choice(balance: u32) -> (c: Choice)
    ensures
        c == (Choice::ThrowRoll { pay_fine: balance > FINE }),
{
    Choice::ThrowRoll { pay_fine: balance > FINE }
}

/// The cell a player plays after throwing from jail, or none when the turn is
/// over: after paying the fine the turn is over; otherwise the player plays
/// from where the game's answer puts it if it is out of jail, ends its turn if
/// it is still in jail, and plays from `position` if the answer says nothing of
/// the jail.
pub fn position_after_jail_roll(pay_fine: bool, jail_reply: Option<(bool, u8)>, position: u8) -> (r: Option<u8>)
    ensures
        pay_fine ==> r is None,
        !pay_fine ==> r == match jail_reply {
            Some((in_jail, at)) => if in_jail { None } else { Some(at) },
            None => Some(position),
        },
{
    if pay_fine {
        return None;
    }
    match jail_reply {
        Some((in_jail, at)) => if in_jail {
            None
        } else {
            Some(at)
        },
        None => Some(position),
    }
}

/// The first cell held by `me`, numbered as on the board (one less than its
/// slot in the message), or none if `me` holds none.
fn first_owned_cell(properties: &Vec<Option<PropertyView>>, me: &ActorId) -> (r: Option<u8>)
    requires
        forall|j: int| 0 <= j < properties@.len() && #[trigger] slot_owner(properties@, j) == Some(*me)
            ==> 1 <= j <= 256,
    ensures
        r is None <==> owns_nothing(properties@, *me),
        r matches Some(c) ==> is_first_owned(properties@, *me, c + 1),
{
    let mut i: usize = 0;
    while i < properties.len()
        invariant
            i <= properties@.len(),
            forall|j: int| 0 <= j < i ==> #[trigger] slot_owner(properties@, j) != Some(*me),
            forall|j: int| 0 <= j < properties@.len() && #[trigger] slot_owner(properties@, j) == Some(*me)
                ==> 1 <= j <= 256,
        decreases properties@.len() - i,
    {
        match &properties[i] {
            Some(p) => {
                if actor_eq(&p.0, me) {
                    assert(slot_owner(properties@, i as int) == Some(*me));
                    return Some((i - 1) as u8);
                }
            },
            None => {},
        }
        i = i + 1;
    }
    None
}

/// The choice of the basic strategy on the slot `position` of the turn message:
/// on its own cell it adds a gear while there are fewer than three, then
/// upgrades; it buys a free cell; on another account's cell it pays the rent,
/// offering its first cell for sale when the rent is not below its balance.
pub open spec fn basic_choice_spec(props: Seq<Option<PropertyView>>, position: int, balance: u32, me: ActorId, first: Option<u8>) -> Choice {
    match props[position] {
        Some(p) => if p.0 == me {
            if p.1.len() < 3 { Choice::AddGear } else { Choice::Upgrade }
        } else if p.0 == crate::types::spec_actor_zero() {
            Choice::BuyCell
        } else if p.3 >= balance {
            Choice::PayRent { sell: first }
        } else {
            Choice::PayRent { sell: None }
        },
        None => Choice::Pass,
    }
}

/// Whether the basic strategy pays a rent it cannot cover on slot `position`.
pub open spec fn basic_sells(props: Seq<Option<PropertyView>>, position: int, balance: u32, me: ActorId) -> bool {
    match props[position] {
        Some(p) => p.0 != me && p.0 != crate::types::spec_actor_zero() && p.3 >= balance,
        None => false,
    }
}

/// The choice of the basic strategy for its cell (see `basic_choice_spec`).
pub fn basic_choice(properties: &Vec<Option<PropertyView>>, position: u8, balance: u32, me: &ActorId) -> (c: Choice)
    requires
        position < properties@.len(),
        basic_sells(properties@, position as int, balance, *me) ==> forall|j: int|
            0 <= j < properties@.len() && #[trigger] slot_owner(properties@, j) == Some(*me) ==> 1 <= j <= 256,
    ensures
        !basic_sells(properties@, position as int, balance, *me)
            ==> c == basic_choice_spec(properties@, position as int, balance, *me, None),
        match properties@[position as int] {
            Some(p) => p.0 == *me ==> {
                &&& (c == Choice::AddGear <==> p.1@.len() < 3)
                &&& (c == Choice::Upgrade <==> p.1@.len() >= 3)
            },
            None => true,
        },
        basic_sells(properties@, position as int, balance, *me) ==> {
            &&& owns_nothing(properties@, *me) ==> c == (Choice::PayRent { sell: None })
            &&& !owns_nothing(properties@, *me) ==> (c matches Choice::PayRent { sell: Some(cell) }
                && is_first_owned(properties@, *me, cell + 1))
        },
{
    match &properties[position as usize] {
        Some(p) => {
            let mine = actor_eq(&p.0, me);
            let free = actor_eq(&p.0, &actor_zero());
            if mine {
                if p.1.len() < 3 {
                    Choice::AddGear
                } else {
                    Choice::Upgrade
                }
            } else if free {
                Choice::BuyCell
            } else if p.3 >= balance {
                Choice::PayRent { sell: first_owned_cell(properties, me) }
            } else {
                Choice::PayRent { sell: None }
            }
        },
        None => Choice::Pass,
    }
}

/// Whether the basic strategy can name its first cell for sale without
/// going out of the range of cell numbers (the condition of `basic_choice`).
pub fn basic_choice_fits(properties: &Vec<Option<PropertyView>>, position: u8, balance: u32, me: &ActorId) -> (r: bool)
    requires
        position < properties@.len(),
    ensures
        r == (basic_sells(properties@, position as int, balance, *me) ==> forall|j: int|
            0 <= j < properties@.len() && #[trigger] slot_owner(properties@, j) == Some(*me) ==> 1 <= j <= 256),
{
    let sells = match &properties[position as usize] {
        Some(p) => !actor_eq(&p.0, me) && !actor_eq(&p.0, &actor_zero()) && p.3 >= balance,
        None => false,
    };
    if !sells {
        return true;
    }
    let mut i: usize = 0;
    while i < properties.len()
        invariant
            i <= properties@.len(),
            basic_sells(properties@, position as int, balance, *me),
            forall|j: int| 0 <= j < i && #[trigger] slot_owner(properties@, j) == Some(*me) ==> 1 <= j <= 256,
        decreases properties@.len() - i,
    {
        match &properties[i] {
            Some(p) => {
                if actor_eq(&p.0, me) && (i == 0 || i > 256) {
                    assert(slot_owner(properties@, i as int) == Some(*me));
                    return false;
                }
            },
            None => {},
        }
        i = i + 1;
    }
    true
}

/// The choice of the gambling strategy on the slot `position` of the turn
/// message. On a special cell (no rent) it teleports on a teleport cell, plays
/// the mystery on a mystery cell and does nothing else. On its own cell, when
/// its balance exceeds the cost of an upgrade, it adds a gear while there are
/// fewer than three, then upgrades. Otherwise it buys a free cell whose price
/// is below its balance, pays the rent on another account's cell, and passes.
pub open spec fn gambler_choice_spec(props: Seq<Option<PropertyView>>, position: int, balance: u32, me: ActorId) -> Choice {
    match props[position] {
        Some(p) => if p.3 == 0 {
            if p.0 == crate::types::spec_actor_from_u64(65) {
                Choice::Teleport
            } else if p.0 == crate::types::spec_actor_from_u64(66) {
                Choice::Mystery
            } else {
                Choice::Pass
            }
        } else if p.0 == me && p.1.len() < 3 && balance > COST_FOR_UPGRADE {
            Choice::AddGear
        } else if p.0 == me && balance > COST_FOR_UPGRADE {
            Choice::Upgrade
        } else if p.0 == crate::types::spec_actor_zero() && balance > p.2 {
            Choice::BuyCell
        } else if p.0 != me {
            Choice::PayRent { sell: None }
        } else {
            Choice::Pass
        },
        None => Choice::Pass,
    }
}

/// The choice of the gambling strategy for its cell (see
/// `gambler_choice_spec`).
pub fn gambler_choice(properties: &Vec<Option<PropertyView>>, position: u8, balance: u32, me: &ActorId) -> (c: Choice)
    requires
        position < properties@.len(),
    ensures
        c == gambler_choice_spec(properties@, position as int, balance, *me),
        match properties@[position as int] {
            Some(p) => p.3 == 0 ==> {
                &&& p.0 == crate::types::spec_actor_from_u64(66) ==> c == Choice::Mystery
                &&& p.0 == crate::types::spec_actor_from_u64(65) ==> c == Choice::Teleport
            },
            None => true,
        },
{
    match &properties[position as usize] {
        Some(p) => {
            let mine = actor_eq(&p.0, me);
            let free = actor_eq(&p.0, &actor_zero());
            if p.3 == 0 {
                if actor_eq(&p.0, &actor_from_u64(65)) {
                    return Choice::Teleport;
                } else if actor_eq(&p.0, &actor_from_u64(66)) {
                    return Choice::Mystery;
                }
                return Choice::Pass;
            }
            if mine {
                if p.1.len() < 3 && balance > COST_FOR_UPGRADE {
                    return Choice::AddGear;
                } else if balance > COST_FOR_UPGRADE {
                    return Choice::Upgrade;
                }
            }
            if free && balance > p.2 {
                Choice::BuyCell
            } else if !mine {
                Choice::PayRent { sell: None }
            } else {
                Choice::Pass
            }
        },
        None => Choice::Pass,
    }
}

} // verus!
