use vstd::prelude::*;
use crate::types::{ActorId, CellType, PlayerInfoView, Property, JAIL_POSITION, NUMBER_OF_CELLS, PENALTY, PUNISHMENT_FEE};

verus! {

/// After debts and penalty points are checked, every player still in the game
/// owes nothing and has fewer than `PENALTY` points.
pub proof fn law_check_clears_remaining_players(p: PlayerInfoView, props: Seq<Option<Property>>)
    ensures
        !crate::utils::checked_player(p, props).lost ==> {
            &&& crate::utils::checked_player(p, props).debt == 0
            &&& crate::utils::checked_player(p, props).penalty < PENALTY
        },
{
}

/// A player that is out of the game stays out through the check.
pub proof fn law_check_keeps_lost_players_out(p: PlayerInfoView, props: Seq<Option<Property>>)
    requires
        p.lost,
    ensures
        crate::utils::checked_player(p, props).lost,
{
}

/// A player with `PENALTY` points, or with a debt that its balance and cells do
/// not pay, is put out of the game by the check.
pub proof fn law_check_puts_out_defaulters(p: PlayerInfoView, props: Seq<Option<Property>>)
    requires
        !p.lost,
        p.penalty < u8::MAX,
        p.penalty >= PENALTY || (p.debt > 0 && !crate::utils::settlement(p, props).0),
    ensures
        crate::utils::kicked_by_check(p, props),
        crate::utils::checked_player(p, props).lost,
{
}

/// The check does not move a player, does not change its jail state or its
/// round, and only takes cells away from it.
pub proof fn law_check_keeps_position(p: PlayerInfoView, props: Seq<Option<Property>>)
    ensures
        crate::utils::checked_player(p, props).position == p.position,
        crate::utils::checked_player(p, props).in_jail == p.in_jail,
        crate::utils::checked_player(p, props).round == p.round,
        crate::utils::checked_player(p, props).cells.subset_of(p.cells),
{
}

/// A player that pays its debt keeps at least its balance minus the debt: the
/// sales only add to the balance before the debt is taken from it.
pub proof fn law_paid_debt_costs_at_most_the_debt(p: PlayerInfoView, props: Seq<Option<Property>>)
    requires
        p.debt > 0,
        crate::utils::settlement(p, props).0,
    ensures
        crate::utils::checked_player(p, props).debt == 0,
        crate::utils::settlement(p, props).1 >= p.balance,
        crate::utils::settlement(p, props).1 - p.debt <= u32::MAX ==>
            crate::utils::after_debt(p, props).balance + p.debt >= p.balance,
{
    crate::utils::lemma_settle_balance_grows(p.cells, p.balance as int, p.debt as int, props, 0);
}

/// A player that the check puts out of the game leaves the queue, and every
/// cell it still holds goes back to the bank.
pub proof fn law_put_out_player_leaves_and_releases(
    players: Map<ActorId, PlayerInfoView>,
    queue: Seq<ActorId>,
    props: Seq<Option<Property>>,
    k: ActorId,
)
    requires
        players.contains_key(k),
        crate::utils::kicked_by_check(players[k], props),
    ensures
        !queue.filter(|a: ActorId| !(players.contains_key(a) && crate::utils::kicked_by_check(players[a], props))).contains(k),
        crate::utils::after_debt(players[k], props).cells.subset_of(crate::utils::all_released(players, props)),
        crate::utils::checked_player(players[k], props).lost,
{
    let keep = |a: ActorId| !(players.contains_key(a) && crate::utils::kicked_by_check(players[a], props));
    broadcast use vstd::seq_lib::group_filter_ensures;
    if queue.filter(keep).contains(k) {
        let i = choose|i: int| 0 <= i < queue.filter(keep).len() && queue.filter(keep)[i] == k;
        assert(keep(queue.filter(keep)[i]));
    }
    assert forall|c: u8| crate::utils::after_debt(players[k], props).cells.contains(c)
        implies crate::utils::all_released(players, props).contains(c) by {
        assert(crate::utils::cells_released(players[k], props).contains(c));
    }
}

/// A player that lands on the go-to-jail cell ends in jail, on the jail cell.
pub proof fn law_goto_jail_sends_to_jail(
    p: PlayerInfoView,
    player: ActorId,
    rolls: (u8, u8),
    ownership: Seq<ActorId>,
    props: Seq<Option<Property>>,
)
    requires
        crate::game::kind_at(props, crate::game::landing_cell(p, rolls)) == Some(CellType::GotoJail),
    ensures
        crate::game::moved_player(p, player, rolls, ownership, props).in_jail,
        crate::game::moved_player(p, player, rolls, ownership, props).position == JAIL_POSITION,
{
}

/// A move keeps a player on the board.
pub proof fn law_move_stays_on_board(
    p: PlayerInfoView,
    player: ActorId,
    rolls: (u8, u8),
    ownership: Seq<ActorId>,
    props: Seq<Option<Property>>,
)
    requires
        p.position < NUMBER_OF_CELLS,
    ensures
        crate::game::landing_cell(p, rolls) < NUMBER_OF_CELLS,
        crate::game::moved_player(p, player, rolls, ownership, props).position < NUMBER_OF_CELLS,
{
}

/// A move leaves the cells of a player alone and never marks it out of the
/// game; its balance changes only on the genesis, jackpot and punishment
/// cells.
pub proof fn law_move_keeps_holdings(
    p: PlayerInfoView,
    player: ActorId,
    rolls: (u8, u8),
    ownership: Seq<ActorId>,
    props: Seq<Option<Property>>,
)
    ensures
        crate::game::moved_player(p, player, rolls, ownership, props).cells == p.cells,
        crate::game::moved_player(p, player, rolls, ownership, props).lost == p.lost,
        crate::game::moved_player(p, player, rolls, ownership, props).penalty == p.penalty,
        crate::game::moved_player(p, player, rolls, ownership, props).round == p.round,
        crate::game::moved_player(p, player, rolls, ownership, props).balance != p.balance ==> {
            let k = crate::game::kind_at(props, crate::game::landing_cell(p, rolls));
            k == Some(CellType::Genesis) || k == Some(CellType::Jackpot) || k == Some(CellType::Punishment)
        },
{
}

/// The board has one jail, on the cell `JAIL_POSITION` where the rules put the
/// players they send to jail.
pub proof fn law_board_jail_cell(i: u8)
    requires
        i < NUMBER_OF_CELLS,
    ensures
        (crate::board::board_cell(i).3 == CellType::Jail) <==> i == JAIL_POSITION,
{
}

/// A player that lands on a cell held by another account owes the rent of
/// that cell.
pub proof fn law_rent_is_recorded(
    p: PlayerInfoView,
    player: ActorId,
    rolls: (u8, u8),
    ownership: Seq<ActorId>,
    props: Seq<Option<Property>>,
)
    requires
        ({
            let pos = crate::game::landing_cell(p, rolls);
            &&& ownership[pos] != player
            &&& ownership[pos] != crate::types::spec_actor_zero()
            &&& props[pos] is Some
        }),
    ensures
        match props[crate::game::landing_cell(p, rolls)] {
            Some(q) => crate::game::moved_player(p, player, rolls, ownership, props).debt == q.3,
            None => false,
        },
{
}

/// A player in jail does not move, whatever the dice.
pub proof fn law_jailed_player_stays(p: PlayerInfoView, rolls: (u8, u8))
    requires
        p.in_jail,
    ensures
        crate::game::landing_cell(p, rolls) == p.position,
{
}

/// A player that lands on a punishment cell either pays the fee or, when its
/// balance does not exceed the fee, goes to jail.
pub proof fn law_punishment_fee_or_jail(
    p: PlayerInfoView,
    player: ActorId,
    rolls: (u8, u8),
    ownership: Seq<ActorId>,
    props: Seq<Option<Property>>,
)
    requires
        crate::game::kind_at(props, crate::game::landing_cell(p, rolls)) == Some(CellType::Punishment),
    ensures
        ({
            let m = crate::game::moved_player(p, player, rolls, ownership, props);
            ||| p.balance > PUNISHMENT_FEE && m.balance == p.balance - PUNISHMENT_FEE
            ||| p.balance <= PUNISHMENT_FEE && m.balance == p.balance && m.in_jail && m.position == JAIL_POSITION
        }),
{
}

/// Checking debts and penalty points a second time changes no player, and
/// sends back to the bank only cells that the first check sent there.
pub proof fn law_check_is_idempotent(p: PlayerInfoView, props: Seq<Option<Property>>)
    ensures
        crate::utils::checked_player(crate::utils::checked_player(p, props), props) == crate::utils::checked_player(p, props),
        crate::utils::cells_released(crate::utils::checked_player(p, props), props).subset_of(
            crate::utils::cells_released(p, props)),
{
    let q = crate::utils::checked_player(p, props);
    if p.debt > 0 && !crate::utils::settlement(p, props).0 {
        assert(q.cells == p.cells && q.balance == p.balance && q.debt == p.debt);
        assert(crate::utils::settlement(q, props) == crate::utils::settlement(p, props));
    }
    assert(crate::utils::cells_released(q, props).subset_of(crate::utils::cells_released(p, props)));
}

/// The check puts out of the game exactly the players that were in it and
/// are out after it.
pub proof fn law_kicked_means_newly_out(p: PlayerInfoView, props: Seq<Option<Property>>)
    ensures
        crate::utils::kicked_by_check(p, props) <==> (!p.lost && crate::utils::checked_player(p, props).lost),
{
}

/// After the check every player is either out of the game or has no debt and
/// fewer than `PENALTY` points.
pub proof fn law_checked_players_are_out_or_clear(players: Map<ActorId, PlayerInfoView>, props: Seq<Option<Property>>)
    ensures
        forall|k: ActorId| #[trigger] players.contains_key(k) ==> {
            let q = players.map_values(|p: PlayerInfoView| crate::utils::checked_player(p, props))[k];
            q.lost || (q.penalty < PENALTY && q.debt == 0)
        },
{
}

/// The queue left by the check is the old queue without exactly the players
/// that the check put out of the game (every occurrence), the others in their
/// order.
pub proof fn law_queue_loses_exactly_the_newly_out(
    players: Map<ActorId, PlayerInfoView>,
    queue: Seq<ActorId>,
    props: Seq<Option<Property>>,
)
    ensures
        queue.filter(|a: ActorId| !(players.contains_key(a) && crate::utils::kicked_by_check(players[a], props)))
            == queue.filter(|a: ActorId| !(players.contains_key(a) && !players[a].lost
                && players.map_values(|p: PlayerInfoView| crate::utils::checked_player(p, props))[a].lost)),
{
    let f1 = |a: ActorId| !(players.contains_key(a) && crate::utils::kicked_by_check(players[a], props));
    let f2 = |a: ActorId| !(players.contains_key(a) && !players[a].lost
        && players.map_values(|p: PlayerInfoView| crate::utils::checked_player(p, props))[a].lost);
    assert(f1 =~= f2);
}

/// Checking all players a second time changes none of them, and sends back
/// to the bank only cells that the first check sent there.
pub proof fn law_checking_all_players_twice_changes_nothing(
    players: Map<ActorId, PlayerInfoView>,
    props: Seq<Option<Property>>,
)
    ensures
        ({
            let once = players.map_values(|p: PlayerInfoView| crate::utils::checked_player(p, props));
            &&& once.map_values(|p: PlayerInfoView| crate::utils::checked_player(p, props)) == once
            &&& crate::utils::all_released(once, props).subset_of(crate::utils::all_released(players, props))
        }),
{
    let once = players.map_values(|p: PlayerInfoView| crate::utils::checked_player(p, props));
    assert forall|k: ActorId| #[trigger] once.contains_key(k) implies
        crate::utils::checked_player(once[k], props) == once[k]
        && crate::utils::cells_released(once[k], props).subset_of(crate::utils::cells_released(players[k], props)) by {
        law_check_is_idempotent(players[k], props);
    }
    assert(once.map_values(|p: PlayerInfoView| crate::utils::checked_player(p, props)) =~= once);
    assert forall|c: u8| #[trigger] crate::utils::all_released(once, props).contains(c) implies
        crate::utils::all_released(players, props).contains(c) by {
        let k = choose|k: ActorId| once.contains_key(k) && #[trigger] crate::utils::cells_released(once[k], props).contains(c);
        assert(crate::utils::cells_released(players[k], props).contains(c));
    }
}

/// Every cell that the board lays out has no gears; it is a cell on sale
/// exactly when it has a rent, and exactly when no account holds it; every
/// other cell belongs to one of the accounts 60 to 66.
pub proof fn law_board_cells_are_consistent(p: Option<Property>, i: int)
    requires
        0 <= i < NUMBER_OF_CELLS,
        crate::board::is_board_property(p, i),
    ensures
        p matches Some(q) && {
            &&& q.1@.len() == 0
            &&& (q.4 == CellType::Normal) <==> q.3 > 0
            &&& (q.4 == CellType::Normal) <==> q.0 == crate::types::spec_actor_zero()
            &&& q.4 != CellType::Normal ==> exists|k: u64| 60 <= k <= 66 && q.0 == crate::types::spec_actor_from_u64(k)
        },
{
    let k = crate::board::board_cell(i as u8).0;
    assert(crate::board::board_cell(i as u8).3 == CellType::Normal <==> crate::board::board_cell(i as u8).2 > 0);
    assert(crate::board::board_cell(i as u8).3 == CellType::Normal <==> k == 0);
    assert(crate::board::board_cell(i as u8).3 != CellType::Normal ==> 60 <= k <= 66);
}

/// A player with no debt that is out of the game already, or has fewer than
/// `PENALTY` points, goes through the check unchanged and gives up no cell.
pub proof fn law_check_leaves_clean_players_alone(p: PlayerInfoView, props: Seq<Option<Property>>)
    requires
        p.debt == 0,
        p.lost || p.penalty < PENALTY,
    ensures
        crate::utils::checked_player(p, props) == p,
        crate::utils::cells_released(p, props) == Set::<u8>::empty(),
{
    assert(crate::utils::cells_released(p, props) =~= Set::<u8>::empty());
}

/// The check keeps players that are out of the game out, never lowers a
/// player's penalty points and never raises its debt.
pub proof fn law_check_is_monotone(p: PlayerInfoView, props: Seq<Option<Property>>)
    requires
        (p.debt > 0 && crate::utils::settlement(p, props).0) ==> p.penalty < u8::MAX,
    ensures
        p.lost ==> crate::utils::checked_player(p, props).lost,
        crate::utils::checked_player(p, props).penalty >= p.penalty,
        crate::utils::checked_player(p, props).debt <= p.debt,
{
}

/// Every cell that the check sends back to the bank is a cell of one of the
/// players.
pub proof fn law_released_cells_belong_to_players(players: Map<ActorId, PlayerInfoView>, props: Seq<Option<Property>>)
    ensures
        forall|c: u8| #[trigger] crate::utils::all_released(players, props).contains(c) ==>
            exists|k: ActorId| players.contains_key(k) && #[trigger] players[k].cells.contains(c),
{
    assert forall|c: u8| #[trigger] crate::utils::all_released(players, props).contains(c) implies
        exists|k: ActorId| players.contains_key(k) && #[trigger] players[k].cells.contains(c) by {
        let k = choose|k: ActorId| players.contains_key(k) && #[trigger] crate::utils::cells_released(players[k], props).contains(c);
        let p = players[k];
        crate::utils::lemma_settle_balance_grows(p.cells, p.balance as int, p.debt as int, props, 0);
        assert(p.cells.contains(c));
    }
}

/// A second check of the whole game, on the state that a first check left,
/// changes nothing: not the players, not the queue, not the bank and not the
/// accounts that hold the cells.
pub proof fn law_second_check_changes_no_state(
    players: Map<ActorId, PlayerInfoView>,
    queue: Seq<ActorId>,
    bank: Set<u8>,
    ownership: Seq<ActorId>,
    admin: ActorId,
    props: Seq<Option<Property>>,
)
    ensures
        ({
            let once = players.map_values(|p: PlayerInfoView| crate::utils::checked_player(p, props));
            let queue1 = queue.filter(|a: ActorId| !(players.contains_key(a) && crate::utils::kicked_by_check(players[a], props)));
            let bank1 = bank.union(crate::utils::all_released(players, props));
            let ownership1 = crate::utils::hand_over(ownership, crate::utils::all_released(players, props), admin);
            &&& once.map_values(|p: PlayerInfoView| crate::utils::checked_player(p, props)) == once
            &&& queue1.filter(|a: ActorId| !(once.contains_key(a) && crate::utils::kicked_by_check(once[a], props))) == queue1
            &&& bank1.union(crate::utils::all_released(once, props)) == bank1
            &&& crate::utils::hand_over(ownership1, crate::utils::all_released(once, props), admin) == ownership1
        }),
{
    let once = players.map_values(|p: PlayerInfoView| crate::utils::checked_player(p, props));
    let queue1 = queue.filter(|a: ActorId| !(players.contains_key(a) && crate::utils::kicked_by_check(players[a], props)));
    let bank1 = bank.union(crate::utils::all_released(players, props));
    let ownership1 = crate::utils::hand_over(ownership, crate::utils::all_released(players, props), admin);
    law_checking_all_players_twice_changes_nothing(players, props);
    let keep = |a: ActorId| !(once.contains_key(a) && crate::utils::kicked_by_check(once[a], props));
    assert forall|a: ActorId| #[trigger] keep(a) by {
        if once.contains_key(a) {
            law_check_is_idempotent(players[a], props);
            law_kicked_means_newly_out(once[a], props);
        }
    }
    crate::utils::lemma_filter_all(queue1, keep);
    assert(bank1.union(crate::utils::all_released(once, props)) =~= bank1);
    assert(crate::utils::hand_over(ownership1, crate::utils::all_released(once, props), admin) =~= ownership1);
}

/// A sale that goes through moves only cells that the seller holds, and only
/// to the administrator.
pub proof fn law_sale_moves_only_the_sellers_cells(
    sale: Seq<u8>,
    ownership: Seq<ActorId>,
    props: Seq<Option<Property>>,
    source: ActorId,
    admin: ActorId,
)
    requires
        crate::utils::owned_before(sale, ownership, source, sale.len() as int),
    ensures
        forall|i: int| 0 <= i < ownership.len()
            && #[trigger] crate::utils::hand_over(ownership, crate::utils::cells_for_sale(sale, props), admin)[i] != ownership[i]
            ==> ownership[i] == source && crate::utils::hand_over(ownership, crate::utils::cells_for_sale(sale, props), admin)[i] == admin,
{
    let sold = crate::utils::cells_for_sale(sale, props);
    assert forall|i: int| 0 <= i < ownership.len()
        && #[trigger] crate::utils::hand_over(ownership, sold, admin)[i] != ownership[i] implies
        ownership[i] == source && crate::utils::hand_over(ownership, sold, admin)[i] == admin by {
        assert(crate::utils::in_cells(sold, i));
        assert(sale.contains(i as u8));
        let j = choose|j: int| 0 <= j < sale.len() && sale[j] == i as u8;
        assert(sale[j] < ownership.len() && ownership[sale[j] as int] == source);
    }
}

/// A player that lands on the jail cell is in jail there after its move; and
/// after any move a player is in jail exactly when it stands on the jail cell.
pub proof fn law_landing_on_the_jail_cell_jails(
    p: PlayerInfoView,
    player: ActorId,
    rolls: (u8, u8),
    ownership: Seq<ActorId>,
    props: Seq<Option<Property>>,
)
    ensures
        crate::game::landing_cell(p, rolls) == JAIL_POSITION ==> {
            &&& crate::game::moved_player(p, player, rolls, ownership, props).in_jail
            &&& crate::game::moved_player(p, player, rolls, ownership, props).position == JAIL_POSITION
        },
        crate::game::moved_player(p, player, rolls, ownership, props).in_jail
            <==> crate::game::moved_player(p, player, rolls, ownership, props).position == JAIL_POSITION,
{
}

/// A player that is not in jail moves forward by the sum of its dice, around
/// the board.
pub proof fn law_free_player_moves_by_the_dice(p: PlayerInfoView, rolls: (u8, u8))
    requires
        !p.in_jail,
    ensures
        0 <= crate::game::landing_cell(p, rolls) < NUMBER_OF_CELLS,
        (crate::game::landing_cell(p, rolls) - p.position - rolls.0 - rolls.1) % (NUMBER_OF_CELLS as int) == 0,
{
}

/// The gambling strategy plays every mystery cell (a rent-free cell of the
/// account 66) and teleports on every teleport cell (a rent-free cell of the
/// account 65), whatever its balance.
pub proof fn law_gambler_takes_every_mystery_and_teleport(
    props: Seq<Option<crate::messages::PropertyView>>,
    position: int,
    balance: u32,
    me: ActorId,
)
    ensures
        match props[position] {
            Some(q) => q.3 == 0 ==> {
                &&& q.0 == crate::types::spec_actor_from_u64(66)
                    ==> crate::strategy::gambler_choice_spec(props, position, balance, me) == crate::strategy::Choice::Mystery
                &&& q.0 == crate::types::spec_actor_from_u64(65)
                    ==> crate::strategy::gambler_choice_spec(props, position, balance, me) == crate::strategy::Choice::Teleport
            },
            None => true,
        },
{
}

/// On its own cell the basic strategy adds a gear while the cell has fewer
/// than three gears (none included), and upgrades only once it has three or
/// more, whatever its balance.
pub proof fn law_basic_adds_gears_before_upgrading(
    props: Seq<Option<crate::messages::PropertyView>>,
    position: int,
    balance: u32,
    me: ActorId,
    first: Option<u8>,
)
    ensures
        match props[position] {
            Some(q) => q.0 == me ==> {
                &&& (crate::strategy::basic_choice_spec(props, position, balance, me, first) == crate::strategy::Choice::AddGear
                    <==> q.1.len() < 3)
                &&& (crate::strategy::basic_choice_spec(props, position, balance, me, first) == crate::strategy::Choice::Upgrade
                    <==> q.1.len() >= 3)
            },
            None => true,
        },
{
}

/// A strategy program may play exactly when the message comes from the
/// player itself and its last move was in an earlier round, however much
/// earlier.
pub proof fn law_player_may_play_after_any_earlier_round(
    player: ActorId,
    players: Map<ActorId, crate::types::PlayerInfo>,
    current_round: u128,
    source: ActorId,
)
    ensures
        crate::utils::may_play(player, players, current_round, source)
            <==> (source == player && players[player].round < current_round),
{
}

/// The price of every cell on sale is ten times its rent, give or take ten,
/// and the prices grow side by side around the board: a cell on sale of the
/// side `i / 10` costs from `1000 * (i / 10 + 1)` to below `1000 * (i / 10 + 2)`.
pub proof fn law_board_prices_follow_rents_and_sides(i: u8)
    requires
        i < NUMBER_OF_CELLS,
        crate::board::board_cell(i).3 == CellType::Normal,
    ensures
        10 * crate::board::board_cell(i).2 <= crate::board::board_cell(i).1 + 10,
        crate::board::board_cell(i).1 <= 10 * crate::board::board_cell(i).2 + 10,
        1000 * (i / 10 + 1) <= crate::board::board_cell(i).1 < 1000 * (i / 10 + 2),
{
}

/// Going around the board, no cell on sale costs less than one before it.
pub proof fn law_board_prices_never_fall(i: u8, j: u8)
    requires
        i <= j < NUMBER_OF_CELLS,
        crate::board::board_cell(i).3 == CellType::Normal,
        crate::board::board_cell(j).3 == CellType::Normal,
    ensures
        crate::board::board_cell(i).1 <= crate::board::board_cell(j).1,
{
}

} // verus!
