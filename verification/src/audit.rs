//! Checks at run time that a state is in order. A caller that the verifier
//! does not see can ask before it calls an operation that asks for it.

use crate::game::Game;
use crate::game_model::{total_balance, total_in_play};
use crate::models::{spellings, ServerState, Table};
use crate::player::{Player, PlayerView};
use vstd::prelude::*;

verus! {

/// The totals of the first players are no more than the totals of all.
proof fn lemma_totals_grow(players: Seq<PlayerView>, n: int)
    requires
        0 <= n <= players.len(),
    ensures
        total_balance(players.take(n)) <= total_balance(players),
        total_in_play(players.take(n)) <= total_in_play(players),
    decreases players.len() - n,
{
    if n < players.len() {
        lemma_totals_grow(players, n + 1);
        assert(players.take(n + 1).drop_last() =~= players.take(n));
    } else {
        assert(players.take(n) =~= players);
    }
}

impl Player {
    /// Whether the player's chips, behind and in play together, fit the
    /// chip type.
    pub fn chips_fit(&self) -> (fit: bool)
        ensures
            fit == self@.chips_fit(),
    {
        self.balance.checked_add(self.chips_in_play).is_some()
    }
}

impl Game {
    /// The chips that the players hold back, all together, where they fit
    /// the chip type.
    pub fn total_balance(&self) -> (total: Option<u64>)
        ensures
            total is Some <==> self@.stacks_fit(),
            total is Some ==> total->Some_0 == total_balance(self@.players),
    {
        let ghost all = self@.players;
        let n = self.players.len();
        let mut total: u64 = 0;
        let mut i: usize = 0;
        while i < n
            invariant
                i <= n,
                n == self.players@.len(),
                all == self@.players,
                total == total_balance(all.take(i as int)),
            decreases n - i,
        {
            proof {
                assert(all.take(i as int + 1).drop_last() =~= all.take(i as int));
                assert(all[i as int] == self.players@[i as int]@);
                lemma_totals_grow(all, i as int + 1);
            }
            total = match total.checked_add(self.players[i].balance) {
                Some(sum) => sum,
                None => {
                    return None;
                },
            };
            i += 1;
        }
        assert(all.take(n as int) =~= all);
        Some(total)
    }

    /// The chips that the players have in play, all together, where they
    /// fit the chip type.
    pub fn total_in_play(&self) -> (total: Option<u64>)
        ensures
            total is Some <==> total_in_play(self@.players) <= u64::MAX,
            total is Some ==> total->Some_0 == total_in_play(self@.players),
    {
        let ghost all = self@.players;
        let n = self.players.len();
        let mut total: u64 = 0;
        let mut i: usize = 0;
        while i < n
            invariant
                i <= n,
                n == self.players@.len(),
                all == self@.players,
                total == total_in_play(all.take(i as int)),
            decreases n - i,
        {
            proof {
                assert(all.take(i as int + 1).drop_last() =~= all.take(i as int));
                assert(all[i as int] == self.players@[i as int]@);
                lemma_totals_grow(all, i as int + 1);
            }
            total = match total.checked_add(self.players[i].chips_in_play) {
                Some(sum) => sum,
                None => {
                    return None;
                },
            };
            i += 1;
        }
        assert(all.take(n as int) =~= all);
        Some(total)
    }

    /// Whether a hand can begin: the chips that the players hold back fit
    /// the chip type together.
    pub fn stacks_fit(&self) -> (fit: bool)
        ensures
            fit == self@.stacks_fit(),
    {
        self.total_balance().is_some()
    }

    /// Whether the accounts of the hand are in order: the pot holds what
    /// the players have in play, the bet to match is no more than the pot,
    /// and all chips at the table together fit the chip type.
    pub fn is_well_formed(&self) -> (ok: bool)
        ensures
            ok == self@.wf(),
    {
        let in_play = match self.total_in_play() {
            Some(total) => total,
            None => {
                return false;
            },
        };
        let behind = match self.total_balance() {
            Some(total) => total,
            None => {
                return false;
            },
        };
        self.pot == in_play && self.current_bet <= self.pot && self.pot.checked_add(
            behind,
        ).is_some()
    }

    /// Whether somebody is active, so that the turn can pass.
    pub fn has_active_player(&self) -> (found: bool)
        ensures
            found == exists|seat: int| self@.is_active(seat),
    {
        let n = self.players.len();
        let mut i: usize = 0;
        while i < n
            invariant
                i <= n,
                n == self.players@.len(),
                forall|seat: int| 0 <= seat < i ==> !self@.is_active(seat),
            decreases n - i,
        {
            assert(self@.players[i as int] == self.players@[i as int]@);
            if self.players[i].state == crate::player::PlayerState::Active {
                assert(self@.is_active(i as int));
                return true;
            }
            i += 1;
        }
        false
    }
}

/// Whether no name stands twice among the names.
fn all_different(names: &Vec<String>) -> (different: bool)
    ensures
        different == spellings(names@).no_duplicates(),
{
    let ghost all = spellings(names@);
    let n = names.len();
    let mut i: usize = 0;
    while i < n
        invariant
            i <= n,
            n == names@.len(),
            all == spellings(names@),
            forall|a: int, b: int| 0 <= a < b < n && a < i ==> all[a] != all[b],
        decreases n - i,
    {
        let mut j: usize = i + 1;
        while j < n
            invariant
                i < j <= n,
                n == names@.len(),
                all == spellings(names@),
                forall|b: int| i < b < j ==> all[i as int] != all[b],
            decreases n - j,
        {
            if names[i] == names[j] {
                assert(all[i as int] == all[j as int]);
                return false;
            }
            j += 1;
        }
        i += 1;
    }
    assert forall|a: int, b: int| 0 <= a < n && 0 <= b < n && a != b implies all[a] != all[b] by {
        if a < b {
            assert(all[a] != all[b]);
        } else {
            assert(all[b] != all[a]);
        }
    }
    true
}

impl Table {
    /// Whether the table is in order: nobody sits at it twice, and the
    /// accounts of its game are in order.
    pub fn is_well_formed(&self) -> (ok: bool)
        ensures
            ok == self@.wf(),
    {
        if !all_different(&self.players) {
            return false;
        }
        match &self.game {
            Some(game) => game.is_well_formed(),
            None => true,
        }
    }
}

impl ServerState {
    /// Whether the registry is in order: no two users share a name, no two
    /// tables an id, and every table is in order.
    pub fn is_well_formed(&self) -> (ok: bool)
        ensures
            ok == self@.wf(),
    {
        let mut names: Vec<String> = Vec::new();
        let mut u: usize = 0;
        while u < self.users.len()
            invariant
                u <= self.users@.len(),
                names@.len() == u,
                forall|i: int| 0 <= i < u ==> (#[trigger] names@[i])@ == self.users@[i].name@,
            decreases self.users@.len() - u,
        {
            names.push(self.users[u].name.clone());
            u += 1;
        }
        assert(spellings(names@) =~= self@.user_names());
        if !all_different(&names) {
            return false;
        }
        let ids = self.list_tables();
        if !all_different(&ids) {
            return false;
        }
        let mut t: usize = 0;
        while t < self.tables.len()
            invariant
                t <= self.tables@.len(),
                forall|i: int| 0 <= i < t ==> (#[trigger] self@.tables[i]).wf(),
            decreases self.tables@.len() - t,
        {
            assert(self@.tables[t as int] == self.tables@[t as int]@);
            if !self.tables[t].is_well_formed() {
                return false;
            }
            t += 1;
        }
        true
    }
}

} // verus!
