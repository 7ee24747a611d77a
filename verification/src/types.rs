use vstd::prelude::*;
use std::collections::BTreeMap;
use std::collections::BTreeSet;

verus! {

/// Number of cells on the board.
pub const NUMBER_OF_CELLS: u8 = 40;
/// Number of players that fill a game.
pub const NUMBER_OF_PLAYERS: u8 = 4;
/// Cell of the jail.
pub const JAIL_POSITION: u8 = 10;
/// Price of one gear or of one upgrade.
pub const COST_FOR_UPGRADE: u32 = 500;
/// Fine paid to leave the jail.
pub const FINE: u32 = 1_000;
/// Penalty points after which a player is out of the game.
pub const PENALTY: u8 = 5;
/// Balance of a freshly registered player.
pub const INITIAL_BALANCE: u32 = 15_000;
/// Reward for landing on the genesis cell.
pub const NEW_CIRCLE: u32 = 2_000;
/// Number of blocks a player program has to answer its turn.
pub const WAIT_DURATION: u32 = 5;
/// Reward for landing on the jackpot cell.
pub const JACKPOT_EARN: u32 = 1000;
/// Stake of a mystery cell.
pub const MYSTERY_VALUE: u32 = 500;
/// Fee taken on a punishment cell.
pub const PUNISHMENT_FEE: u32 = 1000;
/// Fee of a teleport.
pub const TELEPORT_FEE: u32 = 250;

/// An account identifier: the 32 bytes of an actor id, read little-endian in
/// three parts (bytes 0..12, bytes 12..20 and bytes 20..32).
pub type ActorId = (u128, u64, u128);

/// The all-zero account, which owns no cell.
pub open spec fn spec_actor_zero() -> ActorId {
    (0u128, 0u64, 0u128)
}

/// The account whose bytes 12..20 hold `v` in little-endian order and whose
/// other bytes are zero (the special cells are owned by such accounts).
pub open spec fn spec_actor_from_u64(v: u64) -> ActorId {
    (0u128, v, 0u128)
}

/// The all-zero account.
pub fn actor_zero() -> (a: ActorId)
    ensures
        a == spec_actor_zero(),
{
    (0, 0, 0)
}

/// The account built from a number, as `From<u64>` does for actor ids.
pub fn actor_from_u64(v: u64) -> (a: ActorId)
    ensures
        a == spec_actor_from_u64(v),
{
    (0, v, 0)
}

/// Whether two accounts are the same.
pub fn actor_eq(a: &ActorId, b: &ActorId) -> (r: bool)
    ensures
        r == (*a == *b),
{
    a.0 == b.0 && a.1 == b.1 && a.2 == b.2
}

/// A gear built on a property.
#[derive(Clone, Copy, Debug, PartialEq, Eq, Structural)]
pub enum Gear {
    Bronze,
    Silver,
    Gold,
}

/// The gears built on a property.
pub type Gears = Vec<Gear>;
/// Price of a property.
pub type Price = u32;
/// Rent of a property.
pub type Rent = u32;

/// Kind of a cell of the board.
#[derive(Clone, Copy, Debug, PartialEq, Eq, Structural)]
pub enum CellType {
    Normal,
    Jail,
    GotoJail,
    Genesis,
    Jackpot,
    Punishment,
    Mystery,
    Teleport,
}

/// A cell of the board: its owner, its gears, its price, its rent and its kind.
pub type Property = (ActorId, Gears, Price, Rent, CellType);

/// Phase of a game.
#[derive(Clone, Copy, Debug, PartialEq, Eq, Structural)]
pub enum GameStatus {
    Registration,
    Play,
    Finished,
}

impl Default for GameStatus {
    fn default() -> (s: Self)
        ensures
            s == GameStatus::Registration,
    {
        GameStatus::Registration
    }
}

/// Error answered to a strategy program that broke a rule.
#[derive(Clone, Copy, Debug, PartialEq, Eq, Structural)]
pub enum GameError {
    StrategicError,
}

/// What the game knows of one player.
pub struct PlayerInfo {
    pub position: u8,
    pub balance: u32,
    pub debt: u32,
    pub in_jail: bool,
    pub round: u128,
    pub cells: BTreeSet<u8>,
    pub penalty: u8,
    pub lost: bool,
}

/// The mathematical value of a `PlayerInfo`.
pub struct PlayerInfoView {
    pub position: u8,
    pub balance: u32,
    pub debt: u32,
    pub in_jail: bool,
    pub round: u128,
    pub cells: Set<u8>,
    pub penalty: u8,
    pub lost: bool,
}

impl View for PlayerInfo {
    type V = PlayerInfoView;

    open spec fn view(&self) -> PlayerInfoView {
        PlayerInfoView {
            position: self.position,
            balance: self.balance,
            debt: self.debt,
            in_jail: self.in_jail,
            round: self.round,
            cells: self.cells@,
            penalty: self.penalty,
            lost: self.lost,
        }
    }
}

impl Default for PlayerInfo {
    fn default() -> (p: Self)
        ensures
            p@ == (PlayerInfoView {
                position: 0,
                balance: 0,
                debt: 0,
                in_jail: false,
                round: 0,
                cells: Set::empty(),
                penalty: 0,
                lost: false,
            }),
    {
        PlayerInfo {
            position: 0,
            balance: 0,
            debt: 0,
            in_jail: false,
            round: 0,
            cells: BTreeSet::new(),
            penalty: 0,
            lost: false,
        }
    }
}

impl Clone for PlayerInfo {
    /// A copy of this record.
    fn clone(&self) -> (p: Self)
        ensures
            p@ == self@,
    {
        PlayerInfo {
            position: self.position,
            balance: self.balance,
            debt: self.debt,
            in_jail: self.in_jail,
            round: self.round,
            cells: self.cells.clone(),
            penalty: self.penalty,
            lost: self.lost,
        }
    }
}

/// The players of a game, each by its mathematical value.
pub open spec fn players_view(m: Map<ActorId, PlayerInfo>) -> Map<ActorId, PlayerInfoView> {
    m.map_values(|p: PlayerInfo| p@)
}

/// The state of a game.
pub struct Game {
    pub admin: ActorId,
    pub properties_in_bank: BTreeSet<u8>,
    pub round: u128,
    pub players: BTreeMap<ActorId, PlayerInfo>,
    pub players_queue: Vec<ActorId>,
    pub current_player: ActorId,
    pub current_step: u64,
    /// For each cell, the property built on it.
    pub properties: Vec<Option<Property>>,
    /// For each cell, the account that holds it.
    pub ownership: Vec<ActorId>,
    pub game_status: GameStatus,
    pub winner: ActorId,
}

/// A move that a strategy can record.
#[derive(Clone, Copy, Debug)]
pub enum Step {
    BuyCell { cell: u8, account: ActorId },
    AddGear { cell: u8 },
    Upgrade { cell: u8 },
    Sell { cell: u8 },
}

} // verus!
