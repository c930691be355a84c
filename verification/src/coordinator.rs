//! The table coordinator: what joining a table, taking a turn and a turn
//! clock that runs out make of the shared registry. Every operation is one
//! short step from one state of the registry to the next; waiting for
//! clients and clocks is left to the caller.

use crate::card::Card;
use crate::deck::{is_full_deck, Deck};
use crate::error::GameError;
use crate::game::Game;
use crate::game_laws::{
    lemma_auto_fold_fires_once, lemma_player_action_keeps_names, lemma_settle_keeps_names,
    lemma_start_hand_keeps_accounts,
};
use crate::game_model::{total_balance, GameView};
use crate::models::{
    position_of, spelled, spelled_position, ServerState, ServerStateView, Table, TableView,
    UserView, BIG_BLIND, SMALL_BLIND, STARTING_BALANCE,
};
use crate::player::{PlayerAction, PlayerState, PlayerView};
use vstd::prelude::*;

verus! {

/// The members of a table as players who have just sat down, each with the
/// starting balance, in the order they joined.
pub open spec fn seated_players(members: Seq<Seq<char>>) -> Seq<PlayerView> {
    Seq::new(members.len(), |i: int| PlayerView::seated(members[i], STARTING_BALANCE as nat))
}

/// A new game of the members of a table, before its first hand.
pub open spec fn seated(members: Seq<Seq<char>>) -> GameView {
    GameView {
        players: seated_players(members),
        ..GameView::fresh(SMALL_BLIND as nat, BIG_BLIND as nat, Seq::empty())
    }
}

/// The members can start a game: there are two of them at least, and the
/// chips they bring fit the chip type together.
pub open spec fn can_start(members: Seq<Seq<char>>) -> bool {
    members.len() >= 2 && members.len() * STARTING_BALANCE <= u64::MAX
}

/// Players who have just sat down hold the starting balance each.
pub proof fn lemma_seated_balance(members: Seq<Seq<char>>)
    ensures
        total_balance(seated_players(members)) == members.len() * STARTING_BALANCE,
    decreases members.len(),
{
    if members.len() > 0 {
        lemma_seated_balance(members.drop_last());
        assert(seated_players(members).drop_last() =~= seated_players(members.drop_last()));
        assert(members.len() * STARTING_BALANCE == (members.len() - 1) * STARTING_BALANCE
            + STARTING_BALANCE) by (nonlinear_arith);
    }
}

impl TableView {
    /// The members after `user` joined: the user is added behind the
    /// others, unless they sit at the table already.
    pub open spec fn members_with(self, user: Seq<char>) -> Seq<Seq<char>> {
        if self.players.contains(user) {
            self.players
        } else {
            self.players.push(user)
        }
    }

    /// The table after `user` joined. As soon as the members can start a
    /// game, a new game of all members begins its first hand with the deck
    /// `fresh`, in place of any game that was there.
    pub open spec fn join(self, user: Seq<char>, fresh: Seq<Card>) -> TableView {
        let members = self.members_with(user);
        TableView {
            players: members,
            game: if can_start(members) {
                Some(seated(members).start_hand(fresh))
            } else {
                self.game
            },
            ..self
        }
    }

    /// A game is played at the table, and `user` has a seat in it.
    pub open spec fn seats(self, user: Seq<char>) -> bool {
        self.game is Some && self.game->Some_0.seat_of(user) is Some
    }
}

impl ServerStateView {
    /// The registry after `user` asked to join `table`. A table that is
    /// there takes the user in; and a user who is registered has it on
    /// record that they asked for that table, whether it is there or not.
    pub open spec fn join_table(self, user: Seq<char>, table: Seq<char>, fresh: Seq<Card>) ->
        ServerStateView {
        ServerStateView {
            tables: match self.find_table(table) {
                Some(t) => self.tables.update(t, self.tables[t].join(user, fresh)),
                None => self.tables,
            },
            users: match self.find_user(user) {
                Some(u) => self.users.update(
                    u,
                    UserView { table: Some(table), ..self.users[u] },
                ),
                None => self.users,
            },
        }
    }

    /// What `user` is told after asking to join `table`: that the table
    /// is not there, that they joined, or that they joined and a game of
    /// all members began.
    pub open spec fn join_outcome(self, user: Seq<char>, table: Seq<char>) -> JoinOutcome {
        match self.find_table(table) {
            None => JoinOutcome::TableNotFound,
            Some(t) => if can_start(self.tables[t].members_with(user)) {
                JoinOutcome::Started
            } else {
                JoinOutcome::Joined
            },
        }
    }

    /// For each table, whether `user` has a seat in its game.
    pub open spec fn seatings(self, user: Seq<char>) -> Seq<bool> {
        Seq::new(self.tables.len(), |t: int| self.tables[t].seats(user))
    }

    /// The first table in whose game `user` has a seat.
    pub open spec fn table_of(self, user: Seq<char>) -> Option<int> {
        self.seatings(user).index_of_first(true)
    }

    /// The registry with the game `game` at the table `t`.
    pub open spec fn with_game(self, t: int, game: GameView) -> ServerStateView {
        ServerStateView {
            tables: self.tables.update(t, TableView { game: Some(game), ..self.tables[t] }),
            ..self
        }
    }

    /// The registry after `user` took a turn in their game. Without a seat
    /// in a game, and where the game refuses the action, nothing changes.
    pub open spec fn take_turn(self, user: Seq<char>, action: PlayerAction) -> ServerStateView {
        match self.table_of(user) {
            Some(t) => {
                let game = self.tables[t].game->Some_0;
                match game.take_turn(game.seat_of(user)->Some_0, action) {
                    Ok(after) => self.with_game(t, after),
                    Err(_) => self,
                }
            },
            None => self,
        }
    }

    /// The turn clock of `user` has something to do when it runs out.
    pub open spec fn turn_expired(self, user: Seq<char>) -> bool {
        self.table_of(user) is Some && self.tables[self.table_of(
            user,
        )->Some_0].game->Some_0.turn_expired(user)
    }

    /// The registry after the turn clock of `user` ran out.
    pub open spec fn auto_fold(self, user: Seq<char>) -> ServerStateView {
        match self.table_of(user) {
            Some(t) => self.with_game(t, self.tables[t].game->Some_0.auto_fold(user)),
            None => self,
        }
    }
}

/// What became of a request to join a table.
#[derive(Debug, Clone, Copy, PartialEq, Eq, Structural)]
pub enum JoinOutcome {
    /// There is no table with that id.
    TableNotFound,
    /// The user sits at the table; no game began.
    Joined,
    /// The user sits at the table, and a game of all its members began.
    Started,
}

/// What a turn led to, for the player who took it.
#[derive(Debug, Clone)]
pub struct TurnReport {
    /// The action ended the betting round.
    pub round_ended: bool,
    /// The player whose turn it is now.
    pub next_player: Option<String>,
    /// The player who won the showdown, where the turn led to one.
    pub winner: Option<String>,
}

/// The answer to a player who asked to act.
#[derive(Debug, Clone)]
pub enum ActionReply {
    /// The player has no seat in any game.
    NotInGame,
    /// The game refused the action.
    Refused(GameError),
    /// The action was carried out.
    Done(TurnReport),
}

impl ActionReply {
    /// The reply is the answer that is due to `user` for asking to act in
    /// the registry `before`: that they are in no game; or why their game
    /// refuses the action; or, where it was carried out, whether it ended
    /// the betting round, whose turn it is now, and who won the showdown
    /// where it led to one.
    pub open spec fn answers(
        self,
        before: ServerStateView,
        user: Seq<char>,
        action: PlayerAction,
    ) -> bool {
        match before.table_of(user) {
            None => self is NotInGame,
            Some(t) => {
                let game = before.tables[t].game->Some_0;
                match game.player_action(game.seat_of(user)->Some_0, action) {
                    Err(e) => self matches ActionReply::Refused(reason) && reason == e,
                    Ok(acted) => {
                        &&& self matches ActionReply::Done(report)
                        &&& report.round_ended == acted.round_complete()
                        &&& spelled(report.next_player) == acted.settle().current_name()
                        &&& spelled(report.winner) == acted.settled_winner_name()
                    },
                }
            },
        }
    }
}

impl Table {
    /// Seats all members in a new game and begins its first hand with the
    /// given deck.
    fn start_game_with(&mut self, deck: Deck)
        requires
            can_start(old(self)@.players),
        ensures
            final(self)@ == (TableView {
                game: Some(seated(old(self)@.players).start_hand(deck@)),
                ..old(self)@
            }),
            final(self)@.game->Some_0.wf(),
    {
        let ghost members = self@.players;
        let mut game = Game::new(SMALL_BLIND, BIG_BLIND);
        let ghost first_deck = game.deck@;
        let n = self.players.len();
        let mut i: usize = 0;
        assert(game@.players =~= seated_players(members.take(0)));
        while i < n
            invariant
                i <= n,
                n == self.players@.len(),
                *self == *old(self),
                members == self@.players,
                game@ == (GameView {
                    players: seated_players(members.take(i as int)),
                    ..GameView::fresh(SMALL_BLIND as nat, BIG_BLIND as nat, first_deck)
                }),
            decreases n - i,
        {
            game.add_player(self.players[i].clone(), STARTING_BALANCE);
            assert(game@.players =~= seated_players(members.take(i as int + 1)));
            i += 1;
        }
        proof {
            assert(members.take(n as int) =~= members);
            lemma_seated_balance(members);
            lemma_start_hand_keeps_accounts(game@, deck@);
        }
        let _ = game.start_new_hand_with(deck);
        self.game = Some(game);
    }

    /// Takes `user` in, and begins a game of all members with the given
    /// deck as soon as they can start one. Says whether a game began.
    pub fn join_with(&mut self, user: &String, deck: Deck) -> (started: bool)
        requires
            old(self)@.wf(),
        ensures
            final(self)@ == old(self)@.join(user@, deck@),
            started == can_start(old(self)@.members_with(user@)),
            final(self)@.wf(),
    {
        proof {
            self@.players.index_of_first_ensures(user@);
        }
        match position_of(&self.players, user) {
            Some(_) => {},
            None => {
                self.players.push(user.clone());
                assert(self@.players =~= old(self)@.players.push(user@));
            },
        }
        let n = self.players.len();
        if n >= 2 && n as u64 <= u64::MAX / STARTING_BALANCE {
            assert(n * STARTING_BALANCE <= u64::MAX) by (nonlinear_arith)
                requires
                    n <= u64::MAX / STARTING_BALANCE,
                    STARTING_BALANCE == 100,
            ;
            self.start_game_with(deck);
            true
        } else {
            if n >= 2 {
                assert(n * STARTING_BALANCE > u64::MAX) by (nonlinear_arith)
                    requires
                        n > u64::MAX / STARTING_BALANCE,
                        STARTING_BALANCE == 100,
                ;
            }
            false
        }
    }
}

impl ServerState {
    /// Lets `user` join `table`, with the deck that a game is to begin
    /// with. A table that is not there is reported; a table that is there
    /// takes the user in and begins a game of all its members as soon as
    /// they can start one. A registered user has it on record which table
    /// they asked for.
    pub fn join_table_with(&mut self, user: &String, table: &String, deck: Deck) -> (outcome:
        JoinOutcome)
        requires
            old(self)@.wf(),
        ensures
            final(self)@ == old(self)@.join_table(user@, table@, deck@),
            final(self)@.wf(),
            outcome == old(self)@.join_outcome(user@, table@),
    {
        let ghost before = self@;
        let outcome = match self.find_table(table) {
            Some(t) => {
                assert(before.tables[t as int] == self.tables@[t as int]@);
                assert(before.tables[t as int].wf());
                let started = self.tables[t].join_with(user, deck);
                proof {
                    assert(self@.tables =~= before.tables.update(
                        t as int,
                        before.tables[t as int].join(user@, deck@),
                    ));
                    assert(self@.table_ids() =~= before.table_ids());
                }
                if started {
                    JoinOutcome::Started
                } else {
                    JoinOutcome::Joined
                }
            },
            None => JoinOutcome::TableNotFound,
        };
        let ghost joined = self@;
        assert(joined.users =~= before.users);
        match self.find_user(user) {
            Some(u) => {
                assert(before.users[u as int] == self.users@[u as int]@);
                self.users[u].table = Some(table.clone());
                proof {
                    assert(self@.users =~= before.users.update(
                        u as int,
                        UserView { table: Some(table@), ..before.users[u as int] },
                    ));
                    assert(self@.tables =~= joined.tables);
                    assert(self@.user_names() =~= before.user_names());
                    assert(self@.table_ids() =~= before.table_ids());
                }
            },
            None => {},
        }
        outcome
    }

    /// Lets `user` join `table`. A game that begins is dealt from a full
    /// deck in an order left to chance.
    pub fn join_table(&mut self, user: &String, table: &String) -> (outcome: JoinOutcome)
        requires
            old(self)@.wf(),
        ensures
            exists|fresh: Seq<Card>|
                is_full_deck(fresh) && final(self)@ == #[trigger] old(self)@.join_table(
                    user@,
                    table@,
                    fresh,
                ),
            final(self)@.wf(),
            outcome == old(self)@.join_outcome(user@, table@),
    {
        let deck = Deck::new_shuffled();
        self.join_table_with(user, table, deck)
    }

    /// The first table in whose game `user` has a seat.
    pub fn table_of(&self, user: &String) -> (found: Option<usize>)
        ensures
            spelled_position(found) == self@.table_of(user@),
            found is Some ==> found->Some_0 < self.tables@.len() && self@.tables[found->Some_0 as int].seats(
                user@,
            ),
    {
        let ghost all = self@.seatings(user@);
        let mut t: usize = 0;
        while t < self.tables.len()
            invariant
                t <= self.tables@.len(),
                all == self@.seatings(user@),
                forall|j: int| 0 <= j < t ==> !all[j],
            decreases self.tables@.len() - t,
        {
            assert(self@.tables[t as int] == self.tables@[t as int]@);
            let seated = match &self.tables[t].game {
                Some(game) => game.seat_of(user).is_some(),
                None => false,
            };
            if seated {
                proof {
                    assert(all[t as int]);
                    assert(all.contains(true));
                    all.index_of_first_ensures(true);
                }
                return Some(t);
            }
            t += 1;
        }
        proof {
            all.index_of_first_ensures(true);
            assert(!all.contains(true));
        }
        None
    }
}

/// What a player is shown of their game.
#[derive(Debug, Clone)]
pub struct GameStatus {
    /// The player's own hole cards.
    pub cards: Vec<Card>,
    pub pot: u64,
    pub community_cards: Vec<Card>,
    /// The player whose turn it is.
    pub current_player: Option<String>,
    /// The turn is the player's own: their turn clock is to be started.
    pub your_turn: bool,
    /// The player has folded.
    pub folded: bool,
}

/// What a player is shown of their game, as a mathematical value.
pub struct StatusView {
    pub cards: Seq<Card>,
    pub pot: nat,
    pub community_cards: Seq<Card>,
    pub current_player: Option<Seq<char>>,
    pub your_turn: bool,
    pub folded: bool,
}

impl View for GameStatus {
    type V = StatusView;

    open spec fn view(&self) -> StatusView {
        StatusView {
            cards: self.cards@,
            pot: self.pot as nat,
            community_cards: self.community_cards@,
            current_player: spelled(self.current_player),
            your_turn: self.your_turn,
            folded: self.folded,
        }
    }
}

impl GameView {
    /// What the player `user` is shown of the game: their own cards, the
    /// pot, the board, whose turn it is, and whether they folded.
    pub open spec fn status_of(self, user: Seq<char>) -> StatusView {
        let seat = self.seat_of(user)->Some_0;
        StatusView {
            cards: self.players[seat].hole_cards,
            pot: self.pot,
            community_cards: self.community_cards,
            current_player: self.current_name(),
            your_turn: self.current_name() == Some(user),
            folded: self.players[seat].state == PlayerState::Folded,
        }
    }

    /// The name of the player who wins the showdown that a finished
    /// betting round on the river leads to.
    pub open spec fn settled_winner_name(self) -> Option<Seq<char>> {
        match self.settled_winner() {
            Some(seat) => Some(self.players[seat].name),
            None => None,
        }
    }
}

impl ServerStateView {
    /// What `user` is shown of their game, if they have a seat in one.
    pub open spec fn status_of(self, user: Seq<char>) -> Option<StatusView> {
        match self.table_of(user) {
            Some(t) => Some(self.tables[t].game->Some_0.status_of(user)),
            None => None,
        }
    }
}

/// A copy of the cards.
fn copy_cards(cards: &Vec<Card>) -> (copy: Vec<Card>)
    ensures
        copy@ == cards@,
{
    let mut copy: Vec<Card> = Vec::new();
    let mut i: usize = 0;
    while i < cards.len()
        invariant
            i <= cards@.len(),
            copy@ == cards@.take(i as int),
        decreases cards@.len() - i,
    {
        copy.push(cards[i]);
        assert(cards@.take(i as int + 1) =~= cards@.take(i as int).push(cards@[i as int]));
        i += 1;
    }
    assert(cards@.take(i as int) =~= cards@);
    copy
}

impl Game {
    /// The name of the player whose turn it is.
    pub fn current_name(&self) -> (name: Option<String>)
        ensures
            spelled(name) == self@.current_name(),
    {
        if self.current_player < self.players.len() {
            assert(self@.players[self.current_player as int] == self.players@[self.current_player as int]@);
            Some(self.players[self.current_player].name.clone())
        } else {
            None
        }
    }

    /// What the player `user` is shown of the game, if they have a seat.
    pub fn status_of(&self, user: &String) -> (status: Option<GameStatus>)
        ensures
            status is Some <==> self@.seat_of(user@) is Some,
            status is Some ==> status->Some_0@ == self@.status_of(user@),
    {
        match self.seat_of(user) {
            Some(seat) => {
                assert(self@.players[seat as int] == self.players@[seat as int]@);
                let current_player = self.current_name();
                let your_turn = match &current_player {
                    Some(name) => *name == *user,
                    None => false,
                };
                Some(
                    GameStatus {
                        cards: copy_cards(&self.players[seat].hole_cards),
                        pot: self.pot,
                        community_cards: copy_cards(&self.community_cards),
                        current_player,
                        your_turn,
                        folded: self.players[seat].state == PlayerState::Folded,
                    },
                )
            },
            None => None,
        }
    }
}

/// The turn clock of the registry folds once and no more: after it folded
/// for a user it finds nothing to do for that user, whenever it runs out
/// again, so the user is told once.
pub proof fn lemma_clock_fires_once(s: ServerStateView, user: Seq<char>)
    requires
        s.turn_expired(user),
    ensures
        !s.auto_fold(user).turn_expired(user),
        s.auto_fold(user).auto_fold(user) == s.auto_fold(user),
{
    let after = s.auto_fold(user);
    s.seatings(user).index_of_first_ensures(true);
    let t = s.table_of(user)->Some_0;
    let game = s.tables[t].game->Some_0;
    lemma_auto_fold_fires_once(game, user);
    game.names().index_of_first_ensures(user);
    lemma_player_action_keeps_names(game, game.seat_of(user)->Some_0, PlayerAction::Fold);
    assert(after.seatings(user) =~= s.seatings(user));
    assert(after.auto_fold(user).tables =~= after.tables);
}

/// A turn clock that runs out when it has nothing to do changes nothing.
pub proof fn lemma_stale_clock_changes_nothing(s: ServerStateView, user: Seq<char>)
    requires
        !s.turn_expired(user),
    ensures
        s.auto_fold(user) == s,
{
    s.seatings(user).index_of_first_ensures(true);
    assert(s.auto_fold(user).tables =~= s.tables);
}

impl ServerState {
    /// Plays one turn for `user` in their game: the action, and what
    /// follows it. A user without a seat in a game is told so, and a refused
    /// action is reported with its reason; neither changes anything.
    pub fn take_turn(&mut self, user: &String, action: PlayerAction) -> (reply: ActionReply)
        requires
            old(self)@.wf(),
        ensures
            final(self)@ == old(self)@.take_turn(user@, action),
            final(self)@.wf(),
            reply.answers(old(self)@, user@, action),
    {
        let ghost before = self@;
        let t = match self.table_of(user) {
            Some(t) => t,
            None => {
                return ActionReply::NotInGame;
            },
        };
        assert(before.tables[t as int] == self.tables@[t as int]@);
        assert(before.tables[t as int].wf());
        let ghost game_before = before.tables[t as int].game->Some_0;
        let reply = match &mut self.tables[t].game {
            Some(game) => {
                let seat = match game.seat_of(user) {
                    Some(seat) => seat,
                    None => 0,
                };
                proof {
                    if game_before.player_action(seat as int, action) is Ok {
                        lemma_settle_keeps_names(
                            game_before.player_action(seat as int, action)->Ok_0,
                        );
                    }
                }
                match game.take_turn(seat, action) {
                    Ok(step) => {
                        let next_player = game.current_name();
                        let winner = match step.winner {
                            Some(w) => {
                                assert(game@.players[w as int] == game.players@[w as int]@);
                                Some(game.players[w].name.clone())
                            },
                            None => None,
                        };
                        ActionReply::Done(
                            TurnReport { round_ended: step.round_ended, next_player, winner },
                        )
                    },
                    Err(e) => ActionReply::Refused(e),
                }
            },
            None => ActionReply::NotInGame,
        };
        proof {
            let after = before.take_turn(user@, action);
            assert(self@.users =~= after.users);
            assert(self@.tables =~= after.tables);
            assert(self@.table_ids() =~= before.table_ids());
            assert(self@.user_names() =~= before.user_names());
        }
        reply
    }

    /// What `user` is shown of their game, if they have a seat in one.
    pub fn game_status(&self, user: &String) -> (status: Option<GameStatus>)
        ensures
            status is Some <==> self@.status_of(user@) is Some,
            status is Some ==> status->Some_0@ == self@.status_of(user@)->Some_0,
    {
        match self.table_of(user) {
            Some(t) => {
                assert(self@.tables[t as int] == self.tables@[t as int]@);
                match &self.tables[t].game {
                    Some(game) => game.status_of(user),
                    None => None,
                }
            },
            None => None,
        }
    }

    /// What the turn clock of `user` does when it runs out: it folds for
    /// the user where they have a seat in a game, the turn is still theirs
    /// and they have not folded, and it does nothing otherwise. Says whether
    /// it folded, so that the user is told once.
    pub fn auto_fold(&mut self, user: &String) -> (folded: bool)
        requires
            old(self)@.wf(),
        ensures
            folded == old(self)@.turn_expired(user@),
            final(self)@ == old(self)@.auto_fold(user@),
            final(self)@.wf(),
            !final(self)@.turn_expired(user@),
    {
        let ghost before = self@;
        proof {
            if before.turn_expired(user@) {
                lemma_clock_fires_once(before, user@);
            } else {
                lemma_stale_clock_changes_nothing(before, user@);
            }
        }
        let t = match self.table_of(user) {
            Some(t) => t,
            None => {
                return false;
            },
        };
        assert(before.tables[t as int] == self.tables@[t as int]@);
        assert(before.tables[t as int].wf());
        let folded = match &mut self.tables[t].game {
            Some(game) => game.auto_fold(user),
            None => false,
        };
        proof {
            let after = before.auto_fold(user@);
            assert(self@.users =~= after.users);
            assert(self@.tables =~= after.tables);
            assert(self@.table_ids() =~= before.table_ids());
            assert(self@.user_names() =~= before.user_names());
        }
        folded
    }
}

} // verus!
