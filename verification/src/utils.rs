use vstd::prelude::*;
use std::collections::BTreeMap;
use std::collections::BTreeSet;
use crate::types::{actor_eq, ActorId, GameError, PlayerInfo, PlayerInfoView, Property, PENALTY};

verus! {

broadcast use vstd::std_specs::btree::group_btree_axioms;

/// Whether `i` is the number of a cell in `cells`.
pub open spec fn in_cells(cells: Set<u8>, i: int) -> bool {
    0 <= i < 256 && cells.contains(i as u8)
}

/// `accounts` with every cell in `cells` handed to `admin`.
pub open spec fn hand_over(accounts: Seq<ActorId>, cells: Set<u8>, admin: ActorId) -> Seq<ActorId> {
    Seq::new(accounts.len(), |i: int| if in_cells(cells, i) { admin } else { accounts[i] })
}

/// Paying a debt out of the balance, selling cells to the bank as needed:
/// as soon as the balance covers the debt, the debt is paid; otherwise the
/// cells `n`, `n + 1`, ... of the player are sold in increasing order, each
/// that holds a property for half its price, until the balance covers the
/// debt or no cell is left. The result is whether the debt is paid, the
/// balance at that moment (or once every cell was sold), and the cells sold.
pub open spec fn settle(cells: Set<u8>, balance: int, debt: int, props: Seq<Option<Property>>, n: nat) -> (bool, int, Set<u8>)
    decreases 256 - n,
{
    if balance >= debt {
        (true, balance, Set::empty())
    } else if n >= 256 {
        (false, balance, Set::empty())
    } else if cells.contains(n as u8) {
        match props[n as int] {
            Some(p) => {
                let r = settle(cells, balance + p.2 / 2, debt, props, n + 1);
                (r.0, r.1, r.2.insert(n as u8))
            },
            None => settle(cells, balance, debt, props, n + 1),
        }
    } else {
        settle(cells, balance, debt, props, n + 1)
    }
}

/// The debt settlement of a player, from its first cell on.
pub open spec fn settlement(p: PlayerInfoView, props: Seq<Option<Property>>) -> (bool, int, Set<u8>) {
    settle(p.cells, p.balance as int, p.debt as int, props, 0)
}

/// A player's record after its debt is settled. Where the debt is paid, the
/// sold cells are gone, the balance is the proceeds plus the old balance less
/// the debt, the debt is cleared and a penalty point is added. Where it is
/// not paid, the record stays as it was: the cells still go to the bank (see
/// `cells_sold`), but the record is not written back.
pub open spec fn after_debt(p: PlayerInfoView, props: Seq<Option<Property>>) -> PlayerInfoView {
    if p.debt > 0 && settlement(p, props).0 {
        PlayerInfoView {
            balance: (settlement(p, props).1 - p.debt) as u32,
            debt: 0,
            penalty: (p.penalty + 1) as u8,
            cells: p.cells.difference(settlement(p, props).2),
            ..p
        }
    } else {
        p
    }
}

/// The cells that a player sells to settle its debt.
pub open spec fn cells_sold(p: PlayerInfoView, props: Seq<Option<Property>>) -> Set<u8> {
    if p.debt > 0 {
        settlement(p, props).2
    } else {
        Set::empty()
    }
}

/// Whether a player is put out of the game: too many penalty points or a debt
/// left, and not out already.
pub open spec fn is_kicked(q: PlayerInfoView) -> bool {
    (q.penalty >= PENALTY || q.debt > 0) && !q.lost
}

/// A player after the check that puts it out of the game.
pub open spec fn after_kick(q: PlayerInfoView) -> PlayerInfoView {
    if is_kicked(q) {
        PlayerInfoView { lost: true, ..q }
    } else {
        q
    }
}

/// A player after debts and penalties are checked.
pub open spec fn checked_player(p: PlayerInfoView, props: Seq<Option<Property>>) -> PlayerInfoView {
    after_kick(after_debt(p, props))
}

/// Whether the check puts the player out of the game.
pub open spec fn kicked_by_check(p: PlayerInfoView, props: Seq<Option<Property>>) -> bool {
    is_kicked(after_debt(p, props))
}

/// The cells that go back to the bank when a player is checked: the cells it
/// sold, and all its cells if it is put out of the game.
pub open spec fn cells_released(p: PlayerInfoView, props: Seq<Option<Property>>) -> Set<u8> {
    if kicked_by_check(p, props) {
        cells_sold(p, props).union(after_debt(p, props).cells)
    } else {
        cells_sold(p, props)
    }
}

/// The cells released by the check of all players.
pub open spec fn all_released(players: Map<ActorId, PlayerInfoView>, props: Seq<Option<Property>>) -> Set<u8> {
    Set::new(|c: u8| exists|k: ActorId| players.contains_key(k) && #[trigger] cells_released(players[k], props).contains(c))
}

/// Whether settling a debt from cell `n` on reads only cells that exist: each
/// cell scanned before the debt is paid must be a cell of the board, and each
/// cell sold must have an account.
pub open spec fn scan_fits(cells: Set<u8>, balance: int, debt: int, props: Seq<Option<Property>>, cells_len: int, n: nat) -> bool
    decreases 256 - n,
{
    if balance >= debt || n >= 256 {
        true
    } else if cells.contains(n as u8) {
        if n >= props.len() {
            false
        } else {
            match props[n as int] {
                Some(p) => n < cells_len && scan_fits(cells, balance + p.2 / 2, debt, props, cells_len, n + 1),
                None => scan_fits(cells, balance, debt, props, cells_len, n + 1),
            }
        }
    } else {
        scan_fits(cells, balance, debt, props, cells_len, n + 1)
    }
}

/// Whether the check of this player stays within the machine's limits: the
/// cells it reads exist, and neither its balance nor its penalty points
/// overflow.
pub open spec fn check_fits(p: PlayerInfoView, props: Seq<Option<Property>>, cells_len: int) -> bool {
    &&& p.debt > 0 ==> scan_fits(p.cells, p.balance as int, p.debt as int, props, cells_len, 0)
    &&& p.debt > 0 ==> settlement(p, props).1 <= u32::MAX
    &&& (p.debt > 0 && settlement(p, props).0) ==> p.penalty < 255
    &&& kicked_by_check(p, props) ==> forall|c: u8| #[trigger] after_debt(p, props).cells.contains(c) ==> c < cells_len
}

/// The balance that `settle` reaches is never below the one it starts from.
pub proof fn lemma_settle_balance_grows(cells: Set<u8>, balance: int, debt: int, props: Seq<Option<Property>>, n: nat)
    ensures
        settle(cells, balance, debt, props, n).1 >= balance,
        forall|c: u8| #[trigger] settle(cells, balance, debt, props, n).2.contains(c) ==> n <= c && cells.contains(c),
        settle(cells, balance, debt, props, n).0 <==> settle(cells, balance, debt, props, n).1 >= debt,
    decreases 256 - n,
{
    if balance < debt && n < 256 {
        if cells.contains(n as u8) {
            match props[n as int] {
                Some(p) => lemma_settle_balance_grows(cells, balance + p.2 / 2, debt, props, n + 1),
                None => lemma_settle_balance_grows(cells, balance, debt, props, n + 1),
            }
        } else {
            lemma_settle_balance_grows(cells, balance, debt, props, n + 1);
        }
    }
}

/// Settles the debt of one player, handing the cells it sells to `admin` and
/// to the bank; returns the record to keep for the player, which is the one it
/// had when the debt is not paid.
fn settle_debt(
    admin: &ActorId,
    info: PlayerInfo,
    properties: &[Option<Property>],
    properties_in_bank: &mut BTreeSet<u8>,
    ownership: &mut [ActorId],
) -> (r: PlayerInfo)
    requires
        info.debt > 0,
        check_fits(info@, properties@, old(ownership)@.len() as int),
    ensures
        r@ == after_debt(info@, properties@),
        final(properties_in_bank)@ == old(properties_in_bank)@.union(cells_sold(info@, properties@)),
        final(ownership)@ == hand_over(old(ownership)@, cells_sold(info@, properties@), *admin),
{
    let ghost props = properties@;
    let ghost total = settlement(info@, props);
    let mut balance: u32 = info.balance;
    let mut cells = info.cells.clone();
    let mut n: usize = 0;
    let ghost mut sold: Set<u8> = Set::empty();
    proof {
        lemma_settle_balance_grows(info.cells@, info.balance as int, info.debt as int, props, 0);
        assert(hand_over(old(ownership)@, sold, *admin) =~= old(ownership)@);
        assert(old(properties_in_bank)@.union(sold) =~= old(properties_in_bank)@);
    }
    while n < 256 && balance < info.debt
        invariant
            n <= 256,
            properties@ == props,
            total == settlement(info@, props),
            info.debt > 0,
            check_fits(info@, props, old(ownership)@.len() as int),
            scan_fits(info.cells@, balance as int, info.debt as int, props, old(ownership)@.len() as int, n as nat),
            ({
                let rest = settle(info.cells@, balance as int, info.debt as int, props, n as nat);
                &&& total.0 == rest.0
                &&& total.1 == rest.1
                &&& total.2 == sold.union(rest.2)
            }),
            balance <= total.1,
            forall|c: u8| #[trigger] sold.contains(c) ==> c < n && info.cells@.contains(c),
            cells@ == info.cells@.difference(sold),
            ownership@.len() == old(ownership)@.len(),
            properties_in_bank@ == old(properties_in_bank)@.union(sold),
            ownership@ == hand_over(old(ownership)@, sold, *admin),
        decreases 256 - n,
    {
        let c: u8 = n as u8;
        if info.cells.contains(&c) {
            match &properties[n] {
                Some(p) => {
                    let ghost rest_next = settle(info.cells@, balance + p.2 / 2, info.debt as int, props, (n + 1) as nat);
                    proof {
                        lemma_settle_balance_grows(info.cells@, balance + p.2 / 2, info.debt as int, props, (n + 1) as nat);
                    }
                    balance = balance + p.2 / 2;
                    cells.remove(&c);
                    ownership[n] = *admin;
                    properties_in_bank.insert(c);
                    proof {
                        sold = sold.insert(c);
                        assert(total.2 =~= sold.union(rest_next.2));
                        assert(cells@ =~= info.cells@.difference(sold));
                        assert(properties_in_bank@ =~= old(properties_in_bank)@.union(sold));
                        assert(ownership@ =~= hand_over(old(ownership)@, sold, *admin));
                    }
                },
                None => {},
            }
        }
        n = n + 1;
    }
    proof {
        assert(total.2 =~= sold);
    }
    if balance >= info.debt {
        PlayerInfo {
            position: info.position,
            balance: balance - info.debt,
            debt: 0,
            in_jail: info.in_jail,
            round: info.round,
            cells,
            penalty: info.penalty + 1,
            lost: info.lost,
        }
    } else {
        info
    }
}

/// The accounts of the players, each once.
pub(crate) fn player_keys(players: &BTreeMap<ActorId, PlayerInfo>) -> (keys: Vec<ActorId>)
    ensures
        keys@.to_set() == players@.dom(),
        keys@.no_duplicates(),
{
    let mut keys: Vec<ActorId> = Vec::new();
    for k in it: players.keys()
        invariant
            keys@ == it.seq().take(it.index()).unref(),
            it.seq().unref().to_set() == players@.dom(),
            it.seq().unref().no_duplicates(),
            it.index() == it.seq().len() ==> keys@ == it.seq().unref(),
    {
        keys.push(*k);
        assert(it.seq().take(it.index() + 1).unref() =~= keys@);
        assert(it.index() + 1 == it.seq().len() ==> it.seq().take(it.index() + 1) =~= it.seq());
    }
    keys
}

/// Hands every cell in `cells` to `admin` and puts it in the bank.
fn release_cells(
    admin: &ActorId,
    cells: &BTreeSet<u8>,
    properties_in_bank: &mut BTreeSet<u8>,
    ownership: &mut [ActorId],
)
    requires
        forall|c: u8| #[trigger] cells@.contains(c) ==> c < old(ownership)@.len(),
    ensures
        final(properties_in_bank)@ == old(properties_in_bank)@.union(cells@),
        final(ownership)@ == hand_over(old(ownership)@, cells@, *admin),
{
    let mut n: usize = 0;
    while n < 256
        invariant
            n <= 256,
            forall|c: u8| #[trigger] cells@.contains(c) ==> c < old(ownership)@.len(),
            ownership@.len() == old(ownership)@.len(),
            properties_in_bank@ == old(properties_in_bank)@.union(cells@.filter(|c: u8| c < n)),
            ownership@ == hand_over(old(ownership)@, cells@.filter(|c: u8| c < n), *admin),
        decreases 256 - n,
    {
        let c: u8 = n as u8;
        if cells.contains(&c) {
            ownership[n] = *admin;
            properties_in_bank.insert(c);
        }
        n = n + 1;
        assert(properties_in_bank@ =~= old(properties_in_bank)@.union(cells@.filter(|c: u8| c < n)));
        assert(ownership@ =~= hand_over(old(ownership)@, cells@.filter(|c: u8| c < n), *admin));
    }
    assert(cells@.filter(|c: u8| c < n) =~= cells@);
}

/// Removes every occurrence of `player` from the queue.
fn remove_from_queue(players_queue: &mut Vec<ActorId>, player: &ActorId)
    ensures
        final(players_queue)@ == old(players_queue)@.filter(|a: ActorId| a != *player),
{
    let ghost pred = |a: ActorId| a != *player;
    let mut kept: Vec<ActorId> = Vec::new();
    let mut i: usize = 0;
    while i < players_queue.len()
        invariant
            i <= players_queue.len(),
            players_queue@ == old(players_queue)@,
            pred == (|a: ActorId| a != *player),
            kept@ == old(players_queue)@.take(i as int).filter(pred),
        decreases players_queue.len() - i,
    {
        let a = players_queue[i];
        proof {
            reveal_with_fuel(Seq::filter, 1);
            assert(old(players_queue)@.take(i + 1).drop_last() =~= old(players_queue)@.take(i as int));
        }
        let ghost before = kept@;
        if !actor_eq(&a, player) {
            kept.push(a);
        }
        proof {
            let t = old(players_queue)@.take(i + 1);
            assert(t.last() == a);
            assert(t.filter(pred) == if pred(a) { before.push(a) } else { before });
        }
        i = i + 1;
    }
    assert(old(players_queue)@.take(i as int) =~= old(players_queue)@);
    *players_queue = kept;
}

/// Handing over two sets of cells one after the other hands over their union.
proof fn lemma_hand_over_twice(accounts: Seq<ActorId>, a: Set<u8>, b: Set<u8>, admin: ActorId)
    ensures
        hand_over(hand_over(accounts, a, admin), b, admin) == hand_over(accounts, a.union(b), admin),
{
    assert(hand_over(hand_over(accounts, a, admin), b, admin) =~= hand_over(accounts, a.union(b), admin));
}

/// Filtering twice is filtering by both predicates.
proof fn lemma_filter_twice<A>(s: Seq<A>, p: spec_fn(A) -> bool, q: spec_fn(A) -> bool)
    ensures
        s.filter(p).filter(q) == s.filter(|a: A| p(a) && q(a)),
    decreases s.len(),
{
    reveal_with_fuel(Seq::filter, 1);
    let both = |a: A| p(a) && q(a);
    if s.len() > 0 {
        let d = s.drop_last();
        let l = s.last();
        lemma_filter_twice(d, p, q);
        if p(l) {
            assert(d.filter(p).push(l).drop_last() =~= d.filter(p));
            assert(s.filter(p) == d.filter(p).push(l));
            assert(s.filter(p).filter(q) == if q(l) { d.filter(p).filter(q).push(l) } else { d.filter(p).filter(q) });
        } else {
            assert(s.filter(p) == d.filter(p));
        }
        assert(s.filter(both) == if both(l) { d.filter(both).push(l) } else { d.filter(both) });
    } else {
        assert(s.filter(p).filter(q) =~= s.filter(both));
    }
}

/// The cells sold by the players `keys[0..i]` while settling their debts.
spec fn sold_by(keys: Seq<ActorId>, i: int, players: Map<ActorId, PlayerInfoView>, props: Seq<Option<Property>>) -> Set<u8> {
    Set::new(|c: u8| exists|j: int| 0 <= j < i && #[trigger] cells_sold(players[keys[j]], props).contains(c))
}

/// The cells given up by those of the players `keys[0..i]` that are put out.
spec fn lost_by(keys: Seq<ActorId>, i: int, players: Map<ActorId, PlayerInfoView>, props: Seq<Option<Property>>) -> Set<u8> {
    Set::new(|c: u8| exists|j: int| 0 <= j < i && kicked_by_check(players[keys[j]], props)
        && #[trigger] after_debt(players[keys[j]], props).cells.contains(c))
}

/// Whether `a` is one of the players `keys[0..i]` that are put out.
spec fn kicked_among(keys: Seq<ActorId>, i: int, players: Map<ActorId, PlayerInfoView>, props: Seq<Option<Property>>, a: ActorId) -> bool {
    exists|j: int| 0 <= j < i && keys[j] == a && kicked_by_check(players[keys[j]], props)
}

/// Checks the debts and penalty points that the players gathered in the last
/// round. A player with a debt pays it from its balance, selling its cells to
/// the bank for half their price in increasing order until the balance covers
/// it; a player that pays gets a penalty point. A player that cannot pay still
/// loses the cells sold to the bank, but its record keeps its balance and
/// cells as they were. Then every player that is not
/// out yet and has `PENALTY` points or a debt left is put out of the game: it
/// leaves the queue and its cells go back to the bank.
pub fn bankrupt_and_penalty(
    admin: &ActorId,
    players: &mut BTreeMap<ActorId, PlayerInfo>,
    players_queue: &mut Vec<ActorId>,
    properties: &mut [Option<Property>],
    properties_in_bank: &mut BTreeSet<u8>,
    ownership: &mut [ActorId],
)
    requires
        forall|k: ActorId| #[trigger] old(players)@.contains_key(k)
            ==> check_fits(old(players)@[k]@, old(properties)@, old(ownership)@.len() as int),
    ensures
        final(properties)@ == old(properties)@,
        crate::types::players_view(final(players)@) == crate::types::players_view(old(players)@).map_values(
            |p: PlayerInfoView| checked_player(p, old(properties)@)),
        final(players_queue)@ == old(players_queue)@.filter(|a: ActorId|
            !(crate::types::players_view(old(players)@).contains_key(a)
                && kicked_by_check(crate::types::players_view(old(players)@)[a], old(properties)@))),
        final(properties_in_bank)@ == old(properties_in_bank)@.union(
            all_released(crate::types::players_view(old(players)@), old(properties)@)),
        final(ownership)@ == hand_over(old(ownership)@,
            all_released(crate::types::players_view(old(players)@), old(properties)@), *admin),
{
    let ghost props = properties@;
    let ghost pv0 = crate::types::players_view(players@);
    let keys = player_keys(players);
    let ghost ks = keys@;
    proof {
        assert forall|k: ActorId| pv0.contains_key(k) implies exists|j: int| 0 <= j < ks.len() && ks[j] == k by {
            assert(ks.to_set().contains(k));
        }
        assert(sold_by(ks, 0, pv0, props) =~= Set::empty());
        assert(hand_over(old(ownership)@, Set::empty(), *admin) =~= old(ownership)@);
        assert(old(properties_in_bank)@.union(Set::empty()) =~= old(properties_in_bank)@);
    }
    let mut i: usize = 0;
    while i < keys.len()
        invariant
            i <= keys.len(),
            keys@ == ks,
            ks.to_set() == pv0.dom(),
            ks.no_duplicates(),
            properties@ == props,
            pv0 == crate::types::players_view(old(players)@),
            forall|k: ActorId| #[trigger] pv0.contains_key(k) ==> check_fits(pv0[k], props, old(ownership)@.len() as int),
            players@.dom() == pv0.dom(),
            forall|j: int| 0 <= j < i ==> #[trigger] players@[ks[j]]@ == after_debt(pv0[ks[j]], props),
            forall|j: int| i <= j < ks.len() ==> #[trigger] players@[ks[j]]@ == pv0[ks[j]],
            ownership@.len() == old(ownership)@.len(),
            properties_in_bank@ == old(properties_in_bank)@.union(sold_by(ks, i as int, pv0, props)),
            ownership@ == hand_over(old(ownership)@, sold_by(ks, i as int, pv0, props), *admin),
        decreases keys.len() - i,
    {
        let k = keys[i];
        proof {
            assert(ks.to_set().contains(k));
            assert(players@[k]@ == pv0[k]);
        }
        let info = players.remove(&k).unwrap();
        let ghost bank_before = properties_in_bank@;
        let ghost own_before = ownership@;
        if info.debt > 0 {
            let new_info = settle_debt(admin, info, properties, properties_in_bank, ownership);
            players.insert(k, new_info);
        } else {
            players.insert(k, info);
        }
        proof {
            lemma_hand_over_twice(old(ownership)@, sold_by(ks, i as int, pv0, props), cells_sold(pv0[k], props), *admin);
            assert(sold_by(ks, i + 1, pv0, props) =~= sold_by(ks, i as int, pv0, props).union(cells_sold(pv0[k], props)));
            assert(properties_in_bank@ =~= old(properties_in_bank)@.union(sold_by(ks, i + 1, pv0, props)));
            assert forall|j: int| 0 <= j < ks.len() && j != i implies ks[j] != k by {}
        }
        i = i + 1;
    }
    let ghost pv1 = crate::types::players_view(players@);
    let ghost own1 = ownership@;
    let ghost bank1 = properties_in_bank@;
    let ghost q0 = players_queue@;
    proof {
        assert(lost_by(ks, 0, pv0, props) =~= Set::empty());
        assert(hand_over(own1, Set::empty(), *admin) =~= own1);
        assert(bank1.union(Set::empty()) =~= bank1);
        assert(q0.filter(|a: ActorId| !kicked_among(ks, 0, pv0, props, a)) =~= q0) by {
            lemma_filter_all(q0, |a: ActorId| !kicked_among(ks, 0, pv0, props, a));
        }
    }
    let mut i: usize = 0;
    while i < keys.len()
        invariant
            i <= keys.len(),
            keys@ == ks,
            ks.to_set() == pv0.dom(),
            ks.no_duplicates(),
            properties@ == props,
            forall|k: ActorId| #[trigger] pv0.contains_key(k) ==> check_fits(pv0[k], props, old(ownership)@.len() as int),
            players@.dom() == pv0.dom(),
            forall|j: int| 0 <= j < i ==> #[trigger] players@[ks[j]]@ == checked_player(pv0[ks[j]], props),
            forall|j: int| i <= j < ks.len() ==> #[trigger] players@[ks[j]]@ == after_debt(pv0[ks[j]], props),
            ownership@.len() == own1.len(),
            own1.len() == old(ownership)@.len(),
            properties_in_bank@ == bank1.union(lost_by(ks, i as int, pv0, props)),
            ownership@ == hand_over(own1, lost_by(ks, i as int, pv0, props), *admin),
            players_queue@ == q0.filter(|a: ActorId| !kicked_among(ks, i as int, pv0, props, a)),
        decreases keys.len() - i,
    {
        let k = keys[i];
        proof {
            assert(ks.to_set().contains(k));
        }
        proof {
            assert(players@[ks[i as int]]@ == after_debt(pv0[ks[i as int]], props));
        }
        let mut info = players.remove(&k).unwrap();
        let ghost info0 = info@;
        let ghost q_before = players_queue@;
        if (info.penalty >= PENALTY || info.debt > 0) && !info.lost {
            info.lost = true;
            remove_from_queue(players_queue, &k);
            proof {
                let p0 = pv0[k];
                assert(check_fits(p0, props, old(ownership)@.len() as int));
                assert(info0 == after_debt(p0, props));
                assert(kicked_by_check(p0, props));
                assert forall|c: u8| #[trigger] info.cells@.contains(c) implies c < ownership@.len() by {
                    assert(after_debt(p0, props).cells.contains(c));
                }
            }
            release_cells(admin, &info.cells, properties_in_bank, ownership);
        }
        players.insert(k, info);
        proof {
            let before = |a: ActorId| !kicked_among(ks, i as int, pv0, props, a);
            let after = |a: ActorId| !kicked_among(ks, i + 1, pv0, props, a);
            assert forall|j: int| 0 <= j < ks.len() && j != i implies ks[j] != k by {}
            assert(info0 == after_debt(pv0[k], props));
            if kicked_by_check(pv0[k], props) {
                let neq = |a: ActorId| a != k;
                assert(players_queue@ == q_before.filter(neq));
                assert(q_before == q0.filter(before));
                lemma_hand_over_twice(own1, lost_by(ks, i as int, pv0, props), after_debt(pv0[k], props).cells, *admin);
                assert(lost_by(ks, i + 1, pv0, props) =~= lost_by(ks, i as int, pv0, props).union(after_debt(pv0[k], props).cells));
                lemma_filter_twice(q0, before, neq);
                let both = |a: ActorId| before(a) && neq(a);
                assert(q0.filter(before).filter(neq) == q0.filter(both));
                assert forall|a: ActorId| #[trigger] both(a) == after(a) by {
                    if kicked_among(ks, i + 1, pv0, props, a) && a != k {
                        let j = choose|j: int| 0 <= j < i + 1 && ks[j] == a && kicked_by_check(pv0[ks[j]], props);
                        assert(j != i);
                    }
                }
                assert(both =~= after);
                assert(players_queue@ == q0.filter(after));
            } else {
                assert(lost_by(ks, i + 1, pv0, props) =~= lost_by(ks, i as int, pv0, props));
                assert(before =~= after) by {
                    assert forall|a: ActorId| before(a) == #[trigger] after(a) by {
                        if kicked_among(ks, i + 1, pv0, props, a) {
                            let j = choose|j: int| 0 <= j < i + 1 && ks[j] == a && kicked_by_check(pv0[ks[j]], props);
                            assert(j != i);
                        }
                    }
                }
            }
            assert(properties_in_bank@ =~= bank1.union(lost_by(ks, i + 1, pv0, props)));
        }
        i = i + 1;
    }
    proof {
        let released = all_released(pv0, props);
        assert(sold_by(ks, ks.len() as int, pv0, props).union(lost_by(ks, ks.len() as int, pv0, props)) =~= released) by {
            assert forall|c: u8| released.contains(c) implies
                sold_by(ks, ks.len() as int, pv0, props).union(lost_by(ks, ks.len() as int, pv0, props)).contains(c) by {
                let k = choose|k: ActorId| pv0.contains_key(k) && #[trigger] cells_released(pv0[k], props).contains(c);
                assert(ks.to_set().contains(k));
                let j = choose|j: int| 0 <= j < ks.len() && ks[j] == k;
                if cells_sold(pv0[k], props).contains(c) {
                    assert(sold_by(ks, ks.len() as int, pv0, props).contains(c));
                } else {
                    assert(lost_by(ks, ks.len() as int, pv0, props).contains(c));
                }
            }
            assert forall|c: u8| sold_by(ks, ks.len() as int, pv0, props).union(lost_by(ks, ks.len() as int, pv0, props)).contains(c)
                implies released.contains(c) by {
                if sold_by(ks, ks.len() as int, pv0, props).contains(c) {
                    let j = choose|j: int| 0 <= j < ks.len() && #[trigger] cells_sold(pv0[ks[j]], props).contains(c);
                    assert(ks.to_set().contains(ks[j]));
                    assert(cells_released(pv0[ks[j]], props).contains(c));
                } else {
                    let j = choose|j: int| 0 <= j < ks.len() && kicked_by_check(pv0[ks[j]], props)
                        && #[trigger] after_debt(pv0[ks[j]], props).cells.contains(c);
                    assert(ks.to_set().contains(ks[j]));
                    assert(cells_released(pv0[ks[j]], props).contains(c));
                }
            }
        }
        lemma_hand_over_twice(old(ownership)@, sold_by(ks, ks.len() as int, pv0, props), lost_by(ks, ks.len() as int, pv0, props), *admin);
        assert(properties_in_bank@ =~= old(properties_in_bank)@.union(released));
        assert(crate::types::players_view(players@) =~= pv0.map_values(|p: PlayerInfoView| checked_player(p, props))) by {
            assert forall|k: ActorId| #[trigger] pv0.contains_key(k) implies crate::types::players_view(players@)[k] == checked_player(pv0[k], props) by {
                assert(ks.to_set().contains(k));
                let j = choose|j: int| 0 <= j < ks.len() && ks[j] == k;
            }
        }
        let kicked_pred = |a: ActorId| !(pv0.contains_key(a) && kicked_by_check(pv0[a], props));
        assert(q0.filter(|a: ActorId| !kicked_among(ks, ks.len() as int, pv0, props, a)) =~= q0.filter(kicked_pred)) by {
            assert((|a: ActorId| !kicked_among(ks, ks.len() as int, pv0, props, a)) =~= kicked_pred) by {
                assert forall|a: ActorId| !kicked_among(ks, ks.len() as int, pv0, props, a) == #[trigger] kicked_pred(a) by {
                    if pv0.contains_key(a) {
                        assert(ks.to_set().contains(a));
                        let j = choose|j: int| 0 <= j < ks.len() && ks[j] == a;
                    }
                }
            }
        }
    }
}

/// Filtering by a predicate that holds everywhere keeps the sequence.
pub(crate) proof fn lemma_filter_all<A>(s: Seq<A>, p: spec_fn(A) -> bool)
    requires
        forall|a: A| #[trigger] p(a),
    ensures
        s.filter(p) == s,
    decreases s.len(),
{
    reveal_with_fuel(Seq::filter, 1);
    if s.len() > 0 {
        lemma_filter_all(s.drop_last(), p);
        assert(s.drop_last().push(s.last()) =~= s);
    }
}

/// Whether the player may play now: the message comes from the player itself,
/// and the player has not played in round `current_round` yet.
pub open spec fn may_play(player: ActorId, players: Map<ActorId, PlayerInfo>, current_round: u128, source: ActorId) -> bool {
    source == player && players[player].round < current_round
}

/// Checks that the message of a strategy program comes from `player` and that
/// the player has not played in this round yet. A program that sends for
/// another player gets a penalty point (if it is a player); a player that has
/// played already gets one too; either way the answer is an error. When the
/// answer is `Ok`, the record of `player` is there to be updated.
pub fn get_player_info(
    player: &ActorId,
    players: &mut BTreeMap<ActorId, PlayerInfo>,
    current_round: u128,
    source: &ActorId,
) -> (r: Result<(), GameError>)
    requires
        *source == *player ==> old(players)@.contains_key(*player),
        !may_play(*player, old(players)@, current_round, *source) && old(players)@.contains_key(*source)
            ==> old(players)@[*source].penalty < u8::MAX,
    ensures
        r is Ok <==> may_play(*player, old(players)@, current_round, *source),
        *source == *player && old(players)@[*player].round < current_round ==> r is Ok,
        *source == *player && old(players)@[*player].round >= current_round ==> r is Err,
        *source != *player ==> r is Err,
        r is Ok ==> final(players)@ == old(players)@,
        r is Err ==> {
            &&& old(players)@.contains_key(*source) ==> crate::types::players_view(final(players)@)
                == crate::types::players_view(old(players)@).insert(*source,
                    (PlayerInfoView { penalty: (old(players)@[*source].penalty + 1) as u8, ..old(players)@[*source]@ }))
            &&& !old(players)@.contains_key(*source) ==> final(players)@ == old(players)@
        },
{
    if !actor_eq(source, player) {
        if players.contains_key(source) {
            let mut info = players.remove(source).unwrap();
            info.penalty = info.penalty + 1;
            players.insert(*source, info);
            assert(crate::types::players_view(players@) =~= crate::types::players_view(old(players)@).insert(*source,
                PlayerInfoView { penalty: (old(players)@[*source].penalty + 1) as u8, ..old(players)@[*source]@ }));
        }
        return Err(GameError::StrategicError);
    }
    let played = players.get(player).unwrap().round >= current_round;
    if played {
        let mut info = players.remove(player).unwrap();
        info.penalty = info.penalty + 1;
        players.insert(*player, info);
        assert(crate::types::players_view(players@) =~= crate::types::players_view(old(players)@).insert(*source,
            PlayerInfoView { penalty: (old(players)@[*source].penalty + 1) as u8, ..old(players)@[*source]@ }));
        return Err(GameError::StrategicError);
    }
    Ok(())
}

/// Whether every cell of `sale` before position `i` exists and is held by
/// `source`.
pub open spec fn owned_before(sale: Seq<u8>, ownership: Seq<ActorId>, source: ActorId, i: int) -> bool {
    forall|j: int| 0 <= j < i ==> #[trigger] sale[j] < ownership.len() && ownership[sale[j] as int] == source
}

/// What selling the cells of `sale` in this order brings in: half the price
/// of the property on each cell that holds one.
pub open spec fn sale_total(sale: Seq<u8>, props: Seq<Option<Property>>) -> int
    decreases sale.len(),
{
    if sale.len() == 0 {
        0
    } else {
        sale_total(sale.drop_last(), props) + match props[sale.last() as int] {
            Some(p) => p.2 / 2,
            None => 0,
        }
    }
}

/// The cells of `sale` that hold a property, which the sale hands to the bank.
pub open spec fn cells_for_sale(sale: Seq<u8>, props: Seq<Option<Property>>) -> Set<u8> {
    Set::new(|c: u8| sale.contains(c) && props[c as int] is Some)
}

/// Sells the cells of `properties_for_sale` to the bank for half their price,
/// once it is checked that `source` holds every one of them. If one is held by
/// another account, the player gets a penalty point and nothing is sold.
pub fn sell_property(
    admin: &ActorId,
    ownership: &mut [ActorId],
    properties_for_sale: &Vec<u8>,
    properties_in_bank: &mut BTreeSet<u8>,
    properties: &[Option<Property>],
    player_info: &mut PlayerInfo,
    source: &ActorId,
) -> (r: Result<(), GameError>)
    requires
        forall|i: int| 0 <= i < properties_for_sale@.len() && owned_before(properties_for_sale@, old(ownership)@, *source, i)
            ==> #[trigger] properties_for_sale@[i] < old(ownership)@.len(),
        owned_before(properties_for_sale@, old(ownership)@, *source, properties_for_sale@.len() as int) ==> {
            &&& forall|i: int| 0 <= i < properties_for_sale@.len() ==> #[trigger] properties_for_sale@[i] < properties@.len()
            &&& old(player_info).balance + sale_total(properties_for_sale@, properties@) <= u32::MAX
        },
        !owned_before(properties_for_sale@, old(ownership)@, *source, properties_for_sale@.len() as int)
            ==> old(player_info).penalty < u8::MAX,
    ensures
        r is Ok <==> owned_before(properties_for_sale@, old(ownership)@, *source, properties_for_sale@.len() as int),
        r is Ok ==> {
            let sold = cells_for_sale(properties_for_sale@, properties@);
            &&& final(player_info)@ == (PlayerInfoView {
                balance: (old(player_info).balance + sale_total(properties_for_sale@, properties@)) as u32,
                cells: old(player_info)@.cells.difference(sold),
                ..old(player_info)@
            })
            &&& final(ownership)@ == hand_over(old(ownership)@, sold, *admin)
            &&& final(properties_in_bank)@ == old(properties_in_bank)@.union(sold)
        },
        r is Err ==> {
            &&& final(player_info)@ == (PlayerInfoView { penalty: (old(player_info).penalty + 1) as u8, ..old(player_info)@ })
            &&& final(ownership)@ == old(ownership)@
            &&& final(properties_in_bank)@ == old(properties_in_bank)@
        },
{
    let ghost sale = properties_for_sale@;
    let mut i: usize = 0;
    while i < properties_for_sale.len()
        invariant
            i <= sale.len(),
            properties_for_sale@ == sale,
            ownership@ == old(ownership)@,
            player_info@ == old(player_info)@,
            properties_in_bank@ == old(properties_in_bank)@,
            owned_before(sale, ownership@, *source, i as int),
            forall|i: int| 0 <= i < sale.len() && owned_before(sale, old(ownership)@, *source, i)
                ==> #[trigger] sale[i] < old(ownership)@.len(),
            !owned_before(sale, old(ownership)@, *source, sale.len() as int) ==> old(player_info).penalty < u8::MAX,
        decreases sale.len() - i,
    {
        let property = properties_for_sale[i];
        if !actor_eq(&ownership[property as usize], source) {
            assert(!owned_before(sale, old(ownership)@, *source, sale.len() as int));
            player_info.penalty = player_info.penalty + 1;
            return Err(GameError::StrategicError);
        }
        i = i + 1;
    }
    let ghost props = properties@;
    let mut i: usize = 0;
    proof {
        assert(cells_for_sale(sale.take(0), props) =~= Set::empty());
        assert(hand_over(old(ownership)@, Set::empty(), *admin) =~= old(ownership)@);
        assert(old(properties_in_bank)@.union(Set::empty()) =~= old(properties_in_bank)@);
        assert(old(player_info)@.cells.difference(Set::empty()) =~= old(player_info)@.cells);
        assert(sale.take(0) =~= Seq::<u8>::empty());
    }
    while i < properties_for_sale.len()
        invariant
            i <= sale.len(),
            properties_for_sale@ == sale,
            properties@ == props,
            owned_before(sale, old(ownership)@, *source, sale.len() as int),
            forall|j: int| 0 <= j < sale.len() ==> #[trigger] sale[j] < props.len(),
            old(player_info).balance + sale_total(sale, props) <= u32::MAX,
            player_info@ == (PlayerInfoView {
                balance: (old(player_info).balance + sale_total(sale.take(i as int), props)) as u32,
                cells: old(player_info)@.cells.difference(cells_for_sale(sale.take(i as int), props)),
                ..old(player_info)@
            }),
            ownership@.len() == old(ownership)@.len(),
            ownership@ == hand_over(old(ownership)@, cells_for_sale(sale.take(i as int), props), *admin),
            properties_in_bank@ == old(properties_in_bank)@.union(cells_for_sale(sale.take(i as int), props)),
        decreases sale.len() - i,
    {
        let property = properties_for_sale[i];
        proof {
            lemma_sale_total_prefix(sale, props, i as int + 1);
            lemma_sale_total_nonneg(sale.take(i as int), props);
            assert(sale.take(i + 1).drop_last() =~= sale.take(i as int));
            assert(sale.take(i + 1).last() == property);
            assert(sale_total(sale.take(i + 1), props) == sale_total(sale.take(i as int), props) + match props[property as int] {
                Some(p) => p.2 / 2,
                None => 0,
            });
        }
        match &properties[property as usize] {
            Some(p) => {
                player_info.cells.remove(&property);
                player_info.balance = player_info.balance + p.2 / 2;
                ownership[property as usize] = *admin;
                properties_in_bank.insert(property);
            },
            None => {},
        }
        i = i + 1;
        proof {
            let before = cells_for_sale(sale.take(i - 1), props);
            let after = cells_for_sale(sale.take(i as int), props);
            if props[property as int] is Some {
                assert(after =~= before.insert(property)) by {
                    assert forall|c: u8| after.contains(c) implies before.insert(property).contains(c) by {
                        if c != property {
                            let j = choose|j: int| 0 <= j < sale.take(i as int).len() && #[trigger] sale.take(i as int)[j] == c;
                            assert(sale.take(i - 1)[j] == c);
                        }
                    }
                    assert forall|c: u8| before.insert(property).contains(c) implies after.contains(c) by {
                        if c != property {
                            let j = choose|j: int| 0 <= j < sale.take(i - 1).len() && #[trigger] sale.take(i - 1)[j] == c;
                            assert(sale.take(i as int)[j] == c);
                        } else {
                            assert(sale.take(i as int)[i - 1] == c);
                        }
                    }
                }
                lemma_hand_over_twice(old(ownership)@, before, set![property], *admin);
                assert(before.union(set![property]) =~= after);
                assert(ownership@ =~= hand_over(hand_over(old(ownership)@, before, *admin), set![property], *admin));
                assert(player_info@.cells =~= old(player_info)@.cells.difference(after));
            } else {
                assert(after =~= before) by {
                    assert forall|c: u8| after.contains(c) implies before.contains(c) by {
                        let j = choose|j: int| 0 <= j < sale.take(i as int).len() && #[trigger] sale.take(i as int)[j] == c;
                        if j < i - 1 {
                            assert(sale.take(i - 1)[j] == c);
                        }
                    }
                    assert forall|c: u8| before.contains(c) implies after.contains(c) by {
                        let j = choose|j: int| 0 <= j < sale.take(i - 1).len() && #[trigger] sale.take(i - 1)[j] == c;
                        assert(sale.take(i as int)[j] == c);
                    }
                }
            }
            assert(properties_in_bank@ =~= old(properties_in_bank)@.union(after));
        }
    }
    assert(sale.take(sale.len() as int) =~= sale);
    Ok(())
}

/// A sale never costs the player anything.
proof fn lemma_sale_total_nonneg(sale: Seq<u8>, props: Seq<Option<Property>>)
    ensures
        sale_total(sale, props) >= 0,
    decreases sale.len(),
{
    if sale.len() > 0 {
        lemma_sale_total_nonneg(sale.drop_last(), props);
    }
}

/// What a prefix of a sale brings in never exceeds what the whole sale does.
proof fn lemma_sale_total_prefix(sale: Seq<u8>, props: Seq<Option<Property>>, i: int)
    requires
        0 <= i <= sale.len(),
    ensures
        sale_total(sale.take(i), props) <= sale_total(sale, props),
    decreases sale.len() - i,
{
    if i < sale.len() {
        lemma_sale_total_prefix(sale, props, i + 1);
        assert(sale.take(i + 1).drop_last() =~= sale.take(i));
    } else {
        assert(sale.take(i) =~= sale);
    }
}

/// The two dice drawn from two random bytes: each die is its byte modulo six,
/// plus one.
pub fn rolls_from_random(first: u8, second: u8) -> (r: (u8, u8))
    ensures
        r == ((first % 6 + 1) as u8, (second % 6 + 1) as u8),
        1 <= r.0 <= 6,
        1 <= r.1 <= 6,
{
    let r1: u8 = first % 6 + 1;
    let r2: u8 = second % 6 + 1;
    (r1, r2)
}

/// Whether the check of this player stays within the machine's limits (see
/// `check_fits`).
pub fn player_check_fits(info: &PlayerInfo, properties: &[Option<Property>], cells_len: usize) -> (r: bool)
    ensures
        r == check_fits(info@, properties@, cells_len as int),
{
    let ghost p = info@;
    let ghost props = properties@;
    let ghost total = settlement(p, props);
    let ghost scan = scan_fits(p.cells, p.balance as int, p.debt as int, props, cells_len as int, 0);
    let mut balance: u64 = info.balance as u64;
    let mut sold: BTreeSet<u8> = BTreeSet::new();
    if info.debt > 0 {
        let mut n: usize = 0;
        proof {
            assert(sold@.union(total.2) =~= total.2);
        }
        while n < 256 && balance < info.debt as u64
            invariant
                n <= 256,
                p == info@,
                props == properties@,
                info.debt > 0,
                total == settlement(p, props),
                scan == scan_fits(p.cells, p.balance as int, p.debt as int, props, cells_len as int, 0),
                scan == scan_fits(p.cells, balance as int, p.debt as int, props, cells_len as int, n as nat),
                ({
                    let rest = settle(p.cells, balance as int, p.debt as int, props, n as nat);
                    &&& total.0 == rest.0
                    &&& total.1 == rest.1
                    &&& total.2 == sold@.union(rest.2)
                }),
                balance <= u32::MAX as u64 + n as u64 * 0x8000_0000u64,
                forall|c: u8| #[trigger] sold@.contains(c) ==> c < n,
            decreases 256 - n,
        {
            let c: u8 = n as u8;
            if info.cells.contains(&c) {
                if n >= properties.len() {
                    return false;
                }
                match &properties[n] {
                    Some(q) => {
                        if n >= cells_len {
                            return false;
                        }
                        let ghost rest_next = settle(p.cells, balance + q.2 / 2, p.debt as int, props, (n + 1) as nat);
                        balance = balance + (q.2 / 2) as u64;
                        sold.insert(c);
                        assert(total.2 =~= sold@.union(rest_next.2));
                    },
                    None => {},
                }
            }
            n = n + 1;
        }
        proof {
            assert(scan_fits(p.cells, balance as int, p.debt as int, props, cells_len as int, n as nat));
            assert(total.2 =~= sold@);
        }
        if balance > u32::MAX as u64 || (balance >= info.debt as u64 && info.penalty == u8::MAX) {
            return false;
        }
    }
    let ghost q = after_debt(p, props);
    let paid = info.debt > 0 && balance >= info.debt as u64;
    proof {
        if info.debt > 0 {
            assert(total.0 == paid);
        }
    }
    let kicked = if paid {
        info.penalty + 1 >= PENALTY && !info.lost
    } else {
        (info.penalty >= PENALTY || info.debt > 0) && !info.lost
    };
    assert(kicked == kicked_by_check(p, props));
    if kicked {
        let mut n: usize = 0;
        while n < 256
            invariant
                n <= 256,
                p == info@,
                props == properties@,
                q == after_debt(p, props),
                kicked_by_check(p, props),
                p.debt > 0 ==> scan_fits(p.cells, p.balance as int, p.debt as int, props, cells_len as int, 0),
                p.debt > 0 ==> settlement(p, props).1 <= u32::MAX,
                (p.debt > 0 && settlement(p, props).0) ==> p.penalty < 255,
                paid == (p.debt > 0 && settlement(p, props).0),
                paid ==> q.cells == p.cells.difference(sold@),
                !paid ==> q.cells == p.cells,
                forall|c: u8| #[trigger] q.cells.contains(c) && c < n ==> c < cells_len,
            decreases 256 - n,
        {
            let c: u8 = n as u8;
            if info.cells.contains(&c) && !(paid && sold.contains(&c)) && n >= cells_len {
                assert(q.cells.contains(c));
                assert(after_debt(p, props).cells.contains(c) && !(c < cells_len));
                return false;
            }
            n = n + 1;
        }
    }
    true
}

} // verus!
