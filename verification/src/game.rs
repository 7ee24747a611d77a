use vstd::prelude::*;
use std::collections::BTreeMap;
use std::collections::BTreeSet;
use crate::board::init_properties;
use crate::types::{
    actor_eq, actor_zero, ActorId, CellType, Game, GameStatus, PlayerInfo, PlayerInfoView,
    INITIAL_BALANCE, JACKPOT_EARN, JAIL_POSITION, NEW_CIRCLE, NUMBER_OF_CELLS, NUMBER_OF_PLAYERS,
    PENALTY, PUNISHMENT_FEE,
};
use crate::utils::bankrupt_and_penalty;

verus! {

broadcast use vstd::std_specs::btree::group_btree_axioms;

/// Whether a player stands on the board and owns only cells of the board.
pub open spec fn player_on_board(p: PlayerInfoView) -> bool {
    &&& p.position < NUMBER_OF_CELLS
    &&& forall|c: u8| #[trigger] p.cells.contains(c) ==> c < NUMBER_OF_CELLS
}

/// The record of a player that has just registered.
pub open spec fn registered_player() -> PlayerInfoView {
    PlayerInfoView {
        position: 0,
        balance: INITIAL_BALANCE,
        debt: 0,
        in_jail: false,
        round: 0,
        cells: Set::empty(),
        penalty: 0,
        lost: false,
    }
}

impl Game {
    /// The invariant of a laid-out game: a board of `NUMBER_OF_CELLS` cells,
    /// each with a property and an account; players that stand on the board
    /// and own cells of it; and a queue of registered players, each once and
    /// at most `NUMBER_OF_PLAYERS` of them, which during registration is
    /// exactly the set of registered players.
    pub open spec fn well_formed(&self) -> bool {
        &&& self.properties@.len() == NUMBER_OF_CELLS
        &&& self.ownership@.len() == NUMBER_OF_CELLS
        &&& forall|i: int| 0 <= i < NUMBER_OF_CELLS ==> #[trigger] self.properties@[i] is Some
        &&& forall|k: ActorId| #[trigger] self.players@.contains_key(k) ==> player_on_board(self.players@[k]@)
        &&& forall|i: int| 0 <= i < self.players_queue@.len()
            ==> self.players@.contains_key(#[trigger] self.players_queue@[i])
        &&& self.players_queue@.no_duplicates()
        &&& self.players_queue@.len() <= NUMBER_OF_PLAYERS
        &&& self.game_status == GameStatus::Registration ==> {
            &&& self.players_queue@.len() < NUMBER_OF_PLAYERS
            &&& self.players_queue@.to_set() == self.players@.dom()
        }
    }

    /// Whether this is the game that `admin` opens: the board laid out, no
    /// player, nothing sold, registration open.
    pub open spec fn is_new_game(&self, admin: ActorId) -> bool {
        &&& self.admin == admin
        &&& self.properties_in_bank@ == Set::<u8>::empty()
        &&& self.round == 0
        &&& self.players@ == Map::<ActorId, PlayerInfo>::empty()
        &&& self.players_queue@ == Seq::<ActorId>::empty()
        &&& self.current_player == crate::types::spec_actor_zero()
        &&& self.current_step == 0
        &&& self.properties@.len() == NUMBER_OF_CELLS
        &&& forall|i: int| 0 <= i < NUMBER_OF_CELLS
            ==> #[trigger] crate::board::is_board_property(self.properties@[i], i)
        &&& self.ownership@ == Seq::new(NUMBER_OF_CELLS as nat, |i: int| crate::types::spec_actor_zero())
        &&& self.game_status == GameStatus::Registration
        &&& self.winner == crate::types::spec_actor_zero()
    }

    /// Opens a game run by `admin`: lays out the board and opens registration.
    pub fn new(admin: ActorId) -> (g: Game)
        ensures
            g.is_new_game(admin),
            g.well_formed(),
    {
        let mut properties = Vec::new();
        let mut ownership = Vec::new();
        init_properties(&mut properties, &mut ownership);
        assert(properties@.subrange(0, 0) =~= Seq::<Option<crate::types::Property>>::empty());
        assert(ownership@ =~= Seq::new(NUMBER_OF_CELLS as nat, |i: int| crate::types::spec_actor_zero()));
        let g = Game {
            admin,
            properties_in_bank: BTreeSet::new(),
            round: 0,
            players: BTreeMap::new(),
            players_queue: Vec::new(),
            current_player: actor_zero(),
            current_step: 0,
            properties,
            ownership,
            game_status: GameStatus::Registration,
            winner: actor_zero(),
        };
        assert forall|i: int| 0 <= i < NUMBER_OF_CELLS implies
            #[trigger] crate::board::is_board_property(g.properties@[i], i) by {
            assert(crate::board::is_board_property(g.properties@[0 + i], i));
        }
        assert forall|i: int| 0 <= i < NUMBER_OF_CELLS implies #[trigger] g.properties@[i] is Some by {
            assert(crate::board::is_board_property(g.properties@[i], i));
        }
        assert(g.players_queue@ =~= Seq::<ActorId>::empty());
        assert(g.players_queue@.to_set() =~= g.players@.dom());
        g
    }

    /// Refuses the call unless the game is in the phase `game_status`.
    pub fn check_status(&self, game_status: GameStatus)
        requires
            self.game_status == game_status,
    {
    }

    /// Refuses the call unless `source` is the administrator of the game.
    pub fn only_admin(&self, source: &ActorId)
        requires
            *source == self.admin,
    {
    }

    /// Refuses the call unless `source` is a registered player.
    pub fn only_player(&self, source: &ActorId)
        requires
            self.players@.contains_key(*source),
    {
    }

    /// Opens a new game once the current one is over: the administrator stays,
    /// everything else starts afresh.
    pub fn start_registration(&mut self, source: &ActorId)
        requires
            old(self).game_status == GameStatus::Finished,
            *source == old(self).admin,
        ensures
            final(self).is_new_game(old(self).admin),
            final(self).well_formed(),
    {
        let game = Game::new(self.admin);
        *self = game;
    }

    /// Registers `player` with the initial balance; the game starts when
    /// `NUMBER_OF_PLAYERS` players are in the queue.
    pub fn register(&mut self, player: &ActorId)
        requires
            old(self).game_status == GameStatus::Registration,
            !old(self).players@.contains_key(*player),
            old(self).players_queue@.len() < usize::MAX,
        ensures
            crate::types::players_view(final(self).players@)
                == crate::types::players_view(old(self).players@).insert(*player, registered_player()),
            final(self).players_queue@ == old(self).players_queue@.push(*player),
            final(self).game_status == if final(self).players_queue@.len() == NUMBER_OF_PLAYERS {
                GameStatus::Play
            } else {
                GameStatus::Registration
            },
            final(self).admin == old(self).admin,
            final(self).properties_in_bank@ == old(self).properties_in_bank@,
            final(self).round == old(self).round,
            final(self).current_player == old(self).current_player,
            final(self).current_step == old(self).current_step,
            final(self).properties@ == old(self).properties@,
            final(self).ownership@ == old(self).ownership@,
            final(self).winner == old(self).winner,
            old(self).well_formed() ==> final(self).well_formed(),
    {
        let mut info = PlayerInfo::default();
        info.balance = INITIAL_BALANCE;
        self.players.insert(*player, info);
        self.players_queue.push(*player);
        if self.players_queue.len() == NUMBER_OF_PLAYERS as usize {
            self.game_status = GameStatus::Play;
        }
        assert(crate::types::players_view(self.players@)
            =~= crate::types::players_view(old(self).players@).insert(*player, registered_player()));
        proof {
            if old(self).well_formed() {
                let q0 = old(self).players_queue@;
                assert(!q0.contains(*player)) by {
                    if q0.contains(*player) {
                        assert(q0.to_set().contains(*player));
                    }
                }
                assert(self.players_queue@ == q0.push(*player));
                assert(self.players_queue@.no_duplicates()) by {
                    assert forall|i: int, j: int| 0 <= i < j < self.players_queue@.len()
                        implies self.players_queue@[i] != self.players_queue@[j] by {
                        if j == q0.len() {
                            assert(q0.contains(q0[i]));
                        }
                    }
                }
                assert(self.players_queue@.to_set() =~= self.players@.dom()) by {
                    assert forall|a: ActorId| self.players@.dom().contains(a) implies self.players_queue@.to_set().contains(a) by {
                        if a != *player {
                            assert(q0.to_set().contains(a));
                            let i = choose|i: int| 0 <= i < q0.len() && q0[i] == a;
                            assert(self.players_queue@[i] == a);
                        } else {
                            assert(self.players_queue@[q0.len() as int] == a);
                        }
                    }
                    assert forall|a: ActorId| self.players_queue@.to_set().contains(a) implies self.players@.dom().contains(a) by {
                        let i = choose|i: int| 0 <= i < self.players_queue@.len() && self.players_queue@[i] == a;
                        if i < q0.len() {
                            assert(q0.to_set().contains(q0[i]));
                        }
                    }
                }
                assert forall|k: ActorId| #[trigger] self.players@.contains_key(k) implies player_on_board(self.players@[k]@) by {
                    if k != *player {
                        assert(old(self).players@.contains_key(k));
                    }
                }
                assert forall|i: int| 0 <= i < self.players_queue@.len() implies
                    self.players@.contains_key(#[trigger] self.players_queue@[i]) by {
                    if i < q0.len() {
                        assert(old(self).players@.contains_key(q0[i]));
                    }
                }
            }
        }
    }
}

/// What the game does before it opens a round.
#[derive(Clone, Copy, Debug, PartialEq, Eq, Structural)]
pub enum RoundGate {
    /// The game is not in play: the rounds stop.
    Stop,
    /// There is gas enough: the round is played.
    PlayRound,
    /// Gas runs low: the game hands the next round to a message paid from a
    /// reservation and stops here.
    PassToReservation,
    /// Gas runs low and nothing is reserved: the administrator must give
    /// more gas.
    OutOfGas,
}

/// The decision at the top of the round loop, from the phase of the game,
/// whether the gas left is at most what a round needs, and whether a gas
/// reservation is left.
pub fn round_gate(status: GameStatus, gas_low: bool, has_reservation: bool) -> (r: RoundGate)
    ensures
        status != GameStatus::Play ==> r == RoundGate::Stop,
        status == GameStatus::Play && !gas_low ==> r == RoundGate::PlayRound,
        status == GameStatus::Play && gas_low && has_reservation ==> r == RoundGate::PassToReservation,
        status == GameStatus::Play && gas_low && !has_reservation ==> r == RoundGate::OutOfGas,
{
    match status {
        GameStatus::Play => {
            if !gas_low {
                RoundGate::PlayRound
            } else if has_reservation {
                RoundGate::PassToReservation
            } else {
                RoundGate::OutOfGas
            }
        },
        _ => RoundGate::Stop,
    }
}

/// How a round opens.
pub enum RoundStart {
    /// One player is left: it has won and the game is over.
    Finished { winner: ActorId },
    /// The round is on: the players of this queue take their turns in order.
    Turns { queue: Vec<ActorId> },
}

/// How a turn went.
#[derive(Clone, Copy, Debug, PartialEq, Eq, Structural)]
pub enum TurnOutcome {
    /// The player is out of the game and does not move.
    Skipped,
    /// The player has moved and the cell it landed on has had its effect.
    Done,
    /// The player has moved and its strategy program must now play the cell.
    AwaitPlayer,
}

/// The round number after `round`, wrapping around.
pub open spec fn next_round(round: u128) -> u128 {
    if round == u128::MAX { 0 } else { (round + 1) as u128 }
}

/// The cell a player reaches: it stays where it is while in jail, otherwise
/// it moves forward by the sum of the dice, around the board.
pub open spec fn landing_cell(p: PlayerInfoView, rolls: (u8, u8)) -> int {
    if p.in_jail {
        p.position as int
    } else {
        (p.position + rolls.0 + rolls.1) % (NUMBER_OF_CELLS as int)
    }
}

/// Whether landing on cell `pos` hands the turn to the player's strategy
/// program (ordinary, jail, mystery and teleport cells).
pub open spec fn cell_asks_player(props: Seq<Option<crate::types::Property>>, pos: int) -> bool {
    match props[pos] {
        Some(q) => q.4 == CellType::Normal || q.4 == CellType::Jail || q.4 == CellType::Mystery
            || q.4 == CellType::Teleport,
        None => false,
    }
}

/// A player after it has moved to its landing cell: on a cell held by
/// another account it owes the rent of the cell; it is in jail exactly when it
/// stands on the jail cell.
pub open spec fn arrived_player(
    p: PlayerInfoView,
    player: ActorId,
    pos: int,
    ownership: Seq<ActorId>,
    props: Seq<Option<crate::types::Property>>,
) -> PlayerInfoView {
    let owner = ownership[pos];
    let debt = if owner != player && owner != crate::types::spec_actor_zero() {
        match props[pos] {
            Some(q) => q.3,
            None => p.debt,
        }
    } else {
        p.debt
    };
    PlayerInfoView { position: pos as u8, in_jail: pos == JAIL_POSITION, debt, ..p }
}

/// A player after the cell it landed on has had its effect: the go-to-jail
/// cell sends it to jail, the genesis and jackpot cells pay it, the punishment
/// cell takes its fee or, when the balance does not exceed the fee, sends it to
/// jail.
pub open spec fn cell_effect(a: PlayerInfoView, props: Seq<Option<crate::types::Property>>, pos: int) -> PlayerInfoView {
    match props[pos] {
        Some(q) => if q.4 == CellType::GotoJail {
            PlayerInfoView { in_jail: true, position: JAIL_POSITION, ..a }
        } else if q.4 == CellType::Genesis {
            PlayerInfoView { balance: (a.balance + NEW_CIRCLE) as u32, ..a }
        } else if q.4 == CellType::Jackpot {
            PlayerInfoView { balance: (a.balance + JACKPOT_EARN) as u32, ..a }
        } else if q.4 == CellType::Punishment {
            if a.balance > PUNISHMENT_FEE {
                PlayerInfoView { balance: (a.balance - PUNISHMENT_FEE) as u32, ..a }
            } else {
                PlayerInfoView { in_jail: true, position: JAIL_POSITION, ..a }
            }
        } else {
            a
        },
        None => a,
    }
}

/// A player after its move and the effect of the cell it landed on.
pub open spec fn moved_player(
    p: PlayerInfoView,
    player: ActorId,
    rolls: (u8, u8),
    ownership: Seq<ActorId>,
    props: Seq<Option<crate::types::Property>>,
) -> PlayerInfoView {
    let pos = landing_cell(p, rolls);
    cell_effect(arrived_player(p, player, pos, ownership, props), props, pos)
}

/// The kind of the cell `pos`, if it holds a property.
pub open spec fn kind_at(props: Seq<Option<crate::types::Property>>, pos: int) -> Option<CellType> {
    match props[pos] {
        Some(q) => Some(q.4),
        None => None,
    }
}

/// Whether a move stays within the machine's limits: the dice do not overflow
/// the position, the landing cell is a cell of the board, and a payment does
/// not overflow the balance.
pub open spec fn move_fits(
    p: PlayerInfoView,
    player: ActorId,
    rolls: (u8, u8),
    ownership: Seq<ActorId>,
    props: Seq<Option<crate::types::Property>>,
) -> bool {
    let pos = landing_cell(p, rolls);
    let a = arrived_player(p, player, pos, ownership, props);
    &&& !p.in_jail ==> p.position + rolls.0 + rolls.1 <= u8::MAX
    &&& pos < ownership.len()
    &&& pos < props.len()
    &&& kind_at(props, pos) == Some(CellType::Genesis) ==> a.balance + NEW_CIRCLE <= u32::MAX
    &&& kind_at(props, pos) == Some(CellType::Jackpot) ==> a.balance + JACKPOT_EARN <= u32::MAX
}

impl Game {
    /// Whether `player` throws the dice on its turn: it is in the game and
    /// not in jail.
    pub fn needs_rolls(&self, player: &ActorId) -> (r: bool)
        ensures
            r == (self.players@.contains_key(*player) && !self.players@[*player].lost
                && !self.players@[*player].in_jail),
    {
        match self.players.get(player) {
            Some(info) => !info.lost && !info.in_jail,
            None => false,
        }
    }

    /// Opens a round of a game in play, at the request of the administrator
    /// or of the game program itself (`program_id`): debts and penalty points
    /// are checked (see `bankrupt_and_penalty`); if one player is left it wins
    /// and the game is over, otherwise the round number moves on and the
    /// players of the queue take their turns.
    pub fn begin_round(&mut self, source: &ActorId, program_id: &ActorId) -> (r: RoundStart)
        requires
            *source == old(self).admin || *source == *program_id,
            old(self).game_status == GameStatus::Play,
            forall|k: ActorId| #[trigger] old(self).players@.contains_key(k)
                ==> crate::utils::check_fits(old(self).players@[k]@, old(self).properties@, old(self).ownership@.len() as int),
        ensures
            old(self).well_formed() ==> final(self).well_formed(),
            crate::types::players_view(final(self).players@) == crate::types::players_view(old(self).players@).map_values(
                |p: PlayerInfoView| crate::utils::checked_player(p, old(self).properties@)),
            final(self).players_queue@ == old(self).players_queue@.filter(|a: ActorId|
                !(crate::types::players_view(old(self).players@).contains_key(a)
                    && crate::utils::kicked_by_check(crate::types::players_view(old(self).players@)[a], old(self).properties@))),
            final(self).properties_in_bank@ == old(self).properties_in_bank@.union(
                crate::utils::all_released(crate::types::players_view(old(self).players@), old(self).properties@)),
            final(self).ownership@ == crate::utils::hand_over(old(self).ownership@,
                crate::utils::all_released(crate::types::players_view(old(self).players@), old(self).properties@), old(self).admin),
            final(self).admin == old(self).admin,
            final(self).properties@ == old(self).properties@,
            final(self).current_player == old(self).current_player,
            final(self).current_step == old(self).current_step,
            final(self).players_queue@.len() == 1 ==> {
                &&& r == RoundStart::Finished { winner: final(self).players_queue@[0] }
                &&& final(self).winner == final(self).players_queue@[0]
                &&& final(self).game_status == GameStatus::Finished
                &&& final(self).round == old(self).round
            },
            final(self).players_queue@.len() != 1 ==> {
                &&& r matches RoundStart::Turns { queue } && queue@ == final(self).players_queue@
                &&& final(self).winner == old(self).winner
                &&& final(self).game_status == GameStatus::Play
                &&& final(self).round == next_round(old(self).round)
            },
    {
        bankrupt_and_penalty(
            &self.admin,
            &mut self.players,
            &mut self.players_queue,
            self.properties.as_mut_slice(),
            &mut self.properties_in_bank,
            self.ownership.as_mut_slice(),
        );
        proof {
            let pv0 = crate::types::players_view(old(self).players@);
            let props = old(self).properties@;
            let keep = |a: ActorId| !(pv0.contains_key(a) && crate::utils::kicked_by_check(pv0[a], props));
            assert(self.players_queue@ == old(self).players_queue@.filter(keep));
            assert(self.players_queue@ == queue_after_check(old(self).players_queue@, pv0, props));
            assert forall|k: ActorId| self.players@.contains_key(k) == old(self).players@.contains_key(k) by {
                assert(crate::types::players_view(self.players@).contains_key(k) == self.players@.contains_key(k));
                assert(pv0.contains_key(k) == old(self).players@.contains_key(k));
            }
            if old(self).well_formed() {
                assert forall|k: ActorId| #[trigger] self.players@.contains_key(k) implies player_on_board(self.players@[k]@) by {
                    assert(crate::types::players_view(self.players@)[k] == crate::utils::checked_player(pv0[k], props));
                    assert(old(self).players@.contains_key(k));
                    assert(player_on_board(pv0[k]));
                    assert forall|c: u8| #[trigger] self.players@[k]@.cells.contains(c) implies c < NUMBER_OF_CELLS by {
                        assert(pv0[k].cells.contains(c));
                    }
                }
                assert forall|i: int| 0 <= i < self.players_queue@.len() implies
                    self.players@.contains_key(#[trigger] self.players_queue@[i]) by {
                    let a = self.players_queue@[i];
                    assert(old(self).players_queue@.filter(keep).contains(a));
                    old(self).players_queue@.lemma_filter_contains_rev(keep, a);
                    let j = choose|j: int| 0 <= j < old(self).players_queue@.len() && old(self).players_queue@[j] == a;
                    assert(old(self).players@.contains_key(old(self).players_queue@[j]));
                }
                lemma_filter_no_duplicates(old(self).players_queue@, keep);
                lemma_filter_shorter(old(self).players_queue@, keep);
            }
        }
        if self.players_queue.len() == 1 {
            self.winner = self.players_queue[0];
            self.game_status = GameStatus::Finished;
            RoundStart::Finished { winner: self.winner }
        } else {
            self.round = self.round.wrapping_add(1);
            let queue = copy_accounts(&self.players_queue);
            RoundStart::Turns { queue }
        }
    }
}

impl Game {
    /// Plays the move of `player` with the dice `rolls` (ignored while the
    /// player is in jail). A player that is out of the game is skipped.
    /// Otherwise it becomes the current player, the step counter moves on, the
    /// player moves to its landing cell (see `moved_player`), and the outcome
    /// tells whether its strategy program must now play the cell.
    pub fn move_player(&mut self, player: ActorId, rolls: (u8, u8)) -> (r: TurnOutcome)
        requires
            old(self).players@.contains_key(player),
            !old(self).players@[player].lost ==> old(self).current_step < u64::MAX,
            !old(self).players@[player].lost ==> move_fits(old(self).players@[player]@, player, rolls,
                old(self).ownership@, old(self).properties@),
        ensures
            old(self).well_formed() ==> final(self).well_formed(),
            old(self).players@[player].lost ==> r == TurnOutcome::Skipped && final(self).players@ == old(self).players@
                && final(self).current_player == old(self).current_player
                && final(self).current_step == old(self).current_step,
            !old(self).players@[player].lost ==> {
                let pos = landing_cell(old(self).players@[player]@, rolls);
                &&& r == if cell_asks_player(old(self).properties@, pos) {
                    TurnOutcome::AwaitPlayer
                } else {
                    TurnOutcome::Done
                }
                &&& crate::types::players_view(final(self).players@) == crate::types::players_view(old(self).players@).insert(
                    player, moved_player(old(self).players@[player]@, player, rolls, old(self).ownership@, old(self).properties@))
                &&& final(self).current_player == player
                &&& final(self).current_step == old(self).current_step + 1
            },
            !old(self).players@[player].lost && landing_cell(old(self).players@[player]@, rolls) == JAIL_POSITION ==> {
                &&& final(self).players@[player].in_jail
                &&& final(self).players@[player].position == JAIL_POSITION
            },
            !old(self).players@[player].lost ==>
                (final(self).players@[player].in_jail <==> final(self).players@[player].position == JAIL_POSITION),
            final(self).admin == old(self).admin,
            final(self).properties_in_bank@ == old(self).properties_in_bank@,
            final(self).round == old(self).round,
            final(self).players_queue@ == old(self).players_queue@,
            final(self).properties@ == old(self).properties@,
            final(self).ownership@ == old(self).ownership@,
            final(self).game_status == old(self).game_status,
            final(self).winner == old(self).winner,
    {
        let lost = self.players.get(&player).unwrap().lost;
        if lost {
            return TurnOutcome::Skipped;
        }
        self.current_player = player;
        self.current_step = self.current_step + 1;
        let ghost p0 = old(self).players@[player]@;
        let mut info = self.players.remove(&player).unwrap();
        let position: u8 = if info.in_jail {
            info.position
        } else {
            let roll_sum: u8 = rolls.0 + rolls.1;
            (info.position + roll_sum) % NUMBER_OF_CELLS
        };
        assert(position as int == landing_cell(p0, rolls));
        let account = self.ownership[position as usize];
        if !actor_eq(&account, &player) && !actor_eq(&account, &actor_zero()) {
            match &self.properties[position as usize] {
                Some(p) => {
                    info.debt = p.3;
                },
                None => {},
            }
        }
        info.position = position;
        info.in_jail = position == JAIL_POSITION;
        assert(info@ == arrived_player(p0, player, position as int, self.ownership@, self.properties@));
        let ask = match &self.properties[position as usize] {
            Some(p) => match p.4 {
                CellType::GotoJail => {
                    info.in_jail = true;
                    info.position = JAIL_POSITION;
                    false
                },
                CellType::Genesis => {
                    info.balance = info.balance + NEW_CIRCLE;
                    false
                },
                CellType::Jackpot => {
                    info.balance = info.balance + JACKPOT_EARN;
                    false
                },
                CellType::Punishment => {
                    if info.balance > PUNISHMENT_FEE {
                        info.balance = info.balance - PUNISHMENT_FEE;
                    } else {
                        info.in_jail = true;
                        info.position = JAIL_POSITION;
                    }
                    false
                },
                CellType::Normal => true,
                CellType::Jail => true,
                CellType::Mystery => true,
                CellType::Teleport => true,
            },
            None => false,
        };
        assert(info@ == moved_player(p0, player, rolls, self.ownership@, self.properties@));
        self.players.insert(player, info);
        proof {
            assert(crate::types::players_view(self.players@) =~= crate::types::players_view(old(self).players@).insert(
                player, moved_player(p0, player, rolls, self.ownership@, self.properties@)));
            if old(self).well_formed() {
                assert forall|k: ActorId| #[trigger] self.players@.contains_key(k) implies player_on_board(self.players@[k]@) by {
                    if k != player {
                        assert(old(self).players@.contains_key(k));
                    }
                }
                assert(self.players@.dom() =~= old(self).players@.dom());
            }
        }
        if ask {
            TurnOutcome::AwaitPlayer
        } else {
            TurnOutcome::Done
        }
    }

    /// A copy of the game, taken before a player's program plays its turn.
    pub fn snapshot(&self) -> (g: Game)
        ensures
            g.admin == self.admin,
            g.properties_in_bank@ == self.properties_in_bank@,
            g.round == self.round,
            g.players@ == self.players@,
            g.players_queue@ == self.players_queue@,
            g.current_player == self.current_player,
            g.current_step == self.current_step,
            properties_view(g.properties@) == properties_view(self.properties@),
            g.ownership@ == self.ownership@,
            g.game_status == self.game_status,
            g.winner == self.winner,
            self.well_formed() ==> g.well_formed(),
    {
        let properties = copy_properties(&self.properties);
        let g = Game {
            admin: self.admin,
            properties_in_bank: self.properties_in_bank.clone(),
            round: self.round,
            players: self.players.clone(),
            players_queue: copy_accounts(&self.players_queue),
            current_player: self.current_player,
            current_step: self.current_step,
            properties,
            ownership: copy_accounts(&self.ownership),
            game_status: self.game_status,
            winner: self.winner,
        };
        proof {
            if self.well_formed() {
                assert(g.properties@.len() == properties_view(g.properties@).len());
                assert forall|i: int| 0 <= i < NUMBER_OF_CELLS implies #[trigger] g.properties@[i] is Some by {
                    assert(properties_view(g.properties@)[i] == properties_view(self.properties@)[i]);
                    assert(self.properties@[i] is Some);
                }
            }
        }
        g
    }

    /// Ends the turn of `player`, whose program was handed the game `saved`.
    /// If its program answered, the game stays as the turn left it; if it
    /// failed or did not answer, every change made during the turn is undone:
    /// the game goes back to `saved`, and the player gets `PENALTY` points.
    pub fn turn_replied(&mut self, saved: Game, player: &ActorId, replied: bool)
        requires
            !replied ==> saved.players@.contains_key(*player),
        ensures
            replied ==> *final(self) == *old(self),
            !replied ==> {
                &&& crate::types::players_view(final(self).players@) == crate::types::players_view(saved.players@).insert(
                    *player, (PlayerInfoView { penalty: PENALTY, ..saved.players@[*player]@ }))
                &&& final(self).admin == saved.admin
                &&& final(self).properties_in_bank@ == saved.properties_in_bank@
                &&& final(self).round == saved.round
                &&& final(self).players_queue@ == saved.players_queue@
                &&& final(self).current_player == saved.current_player
                &&& final(self).current_step == saved.current_step
                &&& final(self).properties@ == saved.properties@
                &&& final(self).ownership@ == saved.ownership@
                &&& final(self).game_status == saved.game_status
                &&& final(self).winner == saved.winner
                &&& saved.well_formed() ==> final(self).well_formed()
            },
    {
        if !replied {
            let ghost s0 = saved;
            *self = saved;
            let mut info = self.players.remove(player).unwrap();
            info.penalty = PENALTY;
            self.players.insert(*player, info);
            proof {
                assert(crate::types::players_view(self.players@) =~= crate::types::players_view(s0.players@).insert(
                    *player, PlayerInfoView { penalty: PENALTY, ..s0.players@[*player]@ }));
                if s0.well_formed() {
                    assert forall|k: ActorId| #[trigger] self.players@.contains_key(k) implies
                        player_on_board(self.players@[k]@) by {
                        assert(s0.players@.contains_key(k));
                    }
                }
            }
        }
    }
}

impl Game {
    /// Whether checking the debts and penalty points of every player stays
    /// within the machine's limits (the condition of `begin_round`).
    pub fn round_fits(&self) -> (r: bool)
        ensures
            r == forall|k: ActorId| #[trigger] self.players@.contains_key(k)
                ==> crate::utils::check_fits(self.players@[k]@, self.properties@, self.ownership@.len() as int),
    {
        let keys = crate::utils::player_keys(&self.players);
        let mut i: usize = 0;
        while i < keys.len()
            invariant
                i <= keys@.len(),
                keys@.to_set() == self.players@.dom(),
                forall|j: int| 0 <= j < i ==> #[trigger] crate::utils::check_fits(
                    self.players@[keys@[j]]@, self.properties@, self.ownership@.len() as int),
            decreases keys@.len() - i,
        {
            let k = keys[i];
            proof {
                assert(keys@.to_set().contains(k));
            }
            let info = self.players.get(&k).unwrap();
            if !crate::utils::player_check_fits(info, self.properties.as_slice(), self.ownership.len()) {
                return false;
            }
            i = i + 1;
        }
        proof {
            assert forall|k: ActorId| #[trigger] self.players@.contains_key(k) implies
                crate::utils::check_fits(self.players@[k]@, self.properties@, self.ownership@.len() as int) by {
                assert(keys@.to_set().contains(k));
                let j = choose|j: int| 0 <= j < keys@.len() && keys@[j] == k;
            }
        }
        true
    }

    /// Whether the move of `player` with `rolls` stays within the machine's
    /// limits (the condition of `move_player`).
    pub fn move_fits(&self, player: &ActorId, rolls: (u8, u8)) -> (r: bool)
        requires
            self.players@.contains_key(*player),
        ensures
            r == move_fits(self.players@[*player]@, *player, rolls, self.ownership@, self.properties@),
    {
        let info = self.players.get(player).unwrap();
        let position: u8 = if info.in_jail {
            info.position
        } else {
            if info.position as u16 + rolls.0 as u16 + rolls.1 as u16 > 255 {
                return false;
            }
            (info.position + rolls.0 + rolls.1) % NUMBER_OF_CELLS
        };
        if position as usize >= self.ownership.len() || position as usize >= self.properties.len() {
            return false;
        }
        let balance = info.balance;
        match &self.properties[position as usize] {
            Some(p) => {
                if p.4 == CellType::Genesis {
                    balance <= u32::MAX - NEW_CIRCLE
                } else if p.4 == CellType::Jackpot {
                    balance <= u32::MAX - JACKPOT_EARN
                } else {
                    true
                }
            },
            None => true,
        }
    }
}


/// A property by its mathematical value.
pub open spec fn property_value(p: Option<crate::types::Property>)
    -> Option<(ActorId, Seq<crate::types::Gear>, crate::types::Price, crate::types::Rent, CellType)> {
    match p {
        Some(q) => Some((q.0, q.1@, q.2, q.3, q.4)),
        None => None,
    }
}

/// The properties of the board, each by its mathematical value.
pub open spec fn properties_view(props: Seq<Option<crate::types::Property>>)
    -> Seq<Option<(ActorId, Seq<crate::types::Gear>, crate::types::Price, crate::types::Rent, CellType)>> {
    props.map_values(|p: Option<crate::types::Property>| property_value(p))
}

/// A copy of the properties of the board.
pub fn copy_properties(props: &Vec<Option<crate::types::Property>>) -> (r: Vec<Option<crate::types::Property>>)
    ensures
        properties_view(r@) == properties_view(props@),
{
    let mut r: Vec<Option<crate::types::Property>> = Vec::new();
    let mut i: usize = 0;
    while i < props.len()
        invariant
            i <= props@.len(),
            r@.len() == i,
            forall|j: int| 0 <= j < i ==> #[trigger] property_value(r@[j]) == property_value(props@[j]),
        decreases props@.len() - i,
    {
        let item = match &props[i] {
            Some(q) => Some((q.0, crate::messages::copy_gears(&q.1), q.2, q.3, q.4)),
            None => None,
        };
        r.push(item);
        i = i + 1;
    }
    assert(properties_view(r@) =~= properties_view(props@));
    r
}

/// The queue once debts and penalty points are checked: the players that
/// the check puts out of the game leave it.
pub open spec fn queue_after_check(
    queue: Seq<ActorId>,
    players: Map<ActorId, PlayerInfoView>,
    props: Seq<Option<crate::types::Property>>,
) -> Seq<ActorId> {
    queue.filter(|a: ActorId| !(players.contains_key(a) && crate::utils::kicked_by_check(players[a], props)))
}

/// Filtering a sequence without duplicates gives one without duplicates.
proof fn lemma_filter_no_duplicates<A>(s: Seq<A>, p: spec_fn(A) -> bool)
    requires
        s.no_duplicates(),
    ensures
        s.filter(p).no_duplicates(),
    decreases s.len(),
{
    reveal_with_fuel(Seq::filter, 1);
    if s.len() > 0 {
        let d = s.drop_last();
        assert(d.no_duplicates());
        lemma_filter_no_duplicates(d, p);
        if p(s.last()) {
            if d.filter(p).contains(s.last()) {
                d.lemma_filter_contains_rev(p, s.last());
                let i = choose|i: int| 0 <= i < d.len() && d[i] == s.last();
                assert(s[i] == s[s.len() - 1]);
            }
            let f = d.filter(p).push(s.last());
            assert forall|i: int, j: int| 0 <= i < j < f.len() implies f[i] != f[j] by {
                if j == f.len() - 1 {
                    assert(d.filter(p).contains(f[i]));
                }
            }
        }
    }
}

/// Filtering a sequence never makes it longer.
proof fn lemma_filter_shorter<A>(s: Seq<A>, p: spec_fn(A) -> bool)
    ensures
        s.filter(p).len() <= s.len(),
    decreases s.len(),
{
    reveal_with_fuel(Seq::filter, 1);
    if s.len() > 0 {
        lemma_filter_shorter(s.drop_last(), p);
    }
}

/// A copy of a list of accounts.
pub fn copy_accounts(accounts: &Vec<ActorId>) -> (r: Vec<ActorId>)
    ensures
        r@ == accounts@,
{
    let mut r: Vec<ActorId> = Vec::new();
    let mut i: usize = 0;
    while i < accounts.len()
        invariant
            i <= accounts.len(),
            r@ == accounts@.take(i as int),
        decreases accounts.len() - i,
    {
        r.push(accounts[i]);
        i = i + 1;
        assert(r@ =~= accounts@.take(i as int));
    }
    assert(accounts@.take(i as int) =~= accounts@);
    r
}

} // verus!
