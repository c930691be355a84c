//! The registry that a server shares between its connections: the users
//! who registered and the tables they sit at, each table with the game
//! that is played there.
//!
//! Users and tables are kept in the order they came, and none of them
//! twice: a name stands for one user, an id for one table, and a user sits
//! at a table once.

use crate::game::Game;
use crate::game_model::GameView;
use vstd::prelude::*;

verus! {

/// The chips that a user starts with, and that a player brings to a game.
pub const STARTING_BALANCE: u64 = 100;

/// The small blind of the games that tables start.
pub const SMALL_BLIND: u64 = 5;

/// The big blind of the games that tables start.
pub const BIG_BLIND: u64 = 10;

/// The seconds that a player has for a turn before the turn clock folds
/// for them.
pub const TURN_SECONDS: u64 = 15;

/// A user who registered with the server.
#[derive(Debug, Clone)]
pub struct User {
    /// The name, which no other user has.
    pub name: String,
    pub balance: u64,
    /// The table the user last joined, if any.
    pub table: Option<String>,
}

/// A user as a mathematical value.
pub struct UserView {
    pub name: Seq<char>,
    pub balance: nat,
    pub table: Option<Seq<char>>,
}

/// What a name that may be missing spells.
pub open spec fn spelled(name: Option<String>) -> Option<Seq<char>> {
    match name {
        Some(s) => Some(s@),
        None => None,
    }
}

impl View for User {
    type V = UserView;

    open spec fn view(&self) -> UserView {
        UserView { name: self.name@, balance: self.balance as nat, table: spelled(self.table) }
    }
}

/// A poker table.
#[derive(Debug, Clone)]
pub struct Table {
    /// The id, which no other table has.
    pub id: String,
    /// The names of the users who joined, in the order they joined, each
    /// of them once.
    pub players: Vec<String>,
    /// The game that is played at the table, once one has begun.
    pub game: Option<Game>,
}

/// A table as a mathematical value.
pub struct TableView {
    pub id: Seq<char>,
    pub players: Seq<Seq<char>>,
    pub game: Option<GameView>,
}

/// What each of the names spells.
pub open spec fn spellings(names: Seq<String>) -> Seq<Seq<char>> {
    Seq::new(names.len(), |i: int| names[i]@)
}

impl View for Table {
    type V = TableView;

    open spec fn view(&self) -> TableView {
        TableView {
            id: self.id@,
            players: spellings(self.players@),
            game: match self.game {
                Some(g) => Some(g@),
                None => None,
            },
        }
    }
}

/// The state that all connections of a server share.
#[derive(Debug, Clone)]
pub struct ServerState {
    /// The registered users, in the order they registered.
    pub users: Vec<User>,
    /// The tables, in the order they were created.
    pub tables: Vec<Table>,
}

/// The shared state as a mathematical value.
pub struct ServerStateView {
    pub users: Seq<UserView>,
    pub tables: Seq<TableView>,
}

impl View for ServerState {
    type V = ServerStateView;

    open spec fn view(&self) -> ServerStateView {
        ServerStateView {
            users: Seq::new(self.users@.len(), |i: int| self.users@[i]@),
            tables: Seq::new(self.tables@.len(), |i: int| self.tables@[i]@),
        }
    }
}

impl TableView {
    /// The table is in order: nobody sits at it twice, and the accounts of
    /// its game are in order.
    pub open spec fn wf(self) -> bool {
        &&& self.players.no_duplicates()
        &&& self.game is Some ==> self.game->Some_0.wf()
    }
}

impl ServerStateView {
    /// The names of the users, in the order they registered.
    pub open spec fn user_names(self) -> Seq<Seq<char>> {
        Seq::new(self.users.len(), |i: int| self.users[i].name)
    }

    /// The ids of the tables, in the order they were created.
    pub open spec fn table_ids(self) -> Seq<Seq<char>> {
        Seq::new(self.tables.len(), |i: int| self.tables[i].id)
    }

    /// The registry is in order: no two users share a name, no two tables
    /// an id, and every table is in order.
    pub open spec fn wf(self) -> bool {
        &&& self.user_names().no_duplicates()
        &&& self.table_ids().no_duplicates()
        &&& forall|t: int| 0 <= t < self.tables.len() ==> (#[trigger] self.tables[t]).wf()
    }

    /// Where the user with that name stands among the users.
    pub open spec fn find_user(self, name: Seq<char>) -> Option<int> {
        self.user_names().index_of_first(name)
    }

    /// Where the table with that id stands among the tables.
    pub open spec fn find_table(self, id: Seq<char>) -> Option<int> {
        self.table_ids().index_of_first(id)
    }

    /// The registry after `name` asked to register: with one more user who
    /// holds the starting balance and sits nowhere, unless the name is
    /// taken.
    pub open spec fn register(self, name: Seq<char>) -> ServerStateView {
        if self.find_user(name) is Some {
            self
        } else {
            ServerStateView {
                users: self.users.push(
                    UserView { name, balance: STARTING_BALANCE as nat, table: None },
                ),
                ..self
            }
        }
    }

    /// The registry after a table `id` was asked for: with one more table,
    /// empty and without a game, unless the id is taken.
    pub open spec fn create_table(self, id: Seq<char>) -> ServerStateView {
        if self.find_table(id) is Some {
            self
        } else {
            ServerStateView {
                tables: self.tables.push(TableView { id, players: Seq::empty(), game: None }),
                ..self
            }
        }
    }
}

/// Where `name` first stands among the names, if it does.
pub fn position_of(names: &Vec<String>, name: &String) -> (found: Option<usize>)
    ensures
        spelled_position(found) == spellings(names@).index_of_first(name@),
{
    let ghost all = spellings(names@);
    proof {
        all.index_of_first_ensures(name@);
    }
    let mut i: usize = 0;
    while i < names.len()
        invariant
            i <= names@.len(),
            all == spellings(names@),
            forall|j: int| 0 <= j < i ==> all[j] != name@,
        decreases names@.len() - i,
    {
        if names[i] == *name {
            assert(all[i as int] == name@);
            assert(all.contains(name@));
            proof {
                all.index_of_first_ensures(name@);
            }
            return Some(i);
        }
        i += 1;
    }
    assert(!all.contains(name@));
    None
}

/// A place in a vector as a mathematical value.
pub open spec fn spelled_position(found: Option<usize>) -> Option<int> {
    match found {
        Some(i) => Some(i as int),
        None => None,
    }
}

impl ServerState {
    /// A registry without users and tables.
    pub fn new() -> (state: ServerState)
        ensures
            state@.users.len() == 0,
            state@.tables.len() == 0,
            state@.wf(),
    {
        ServerState { users: Vec::new(), tables: Vec::new() }
    }

    /// Where the user with that name stands among the users.
    pub fn find_user(&self, name: &String) -> (found: Option<usize>)
        ensures
            spelled_position(found) == self@.find_user(name@),
            found is Some ==> found->Some_0 < self.users@.len() && self.users@[found->Some_0 as int].name@
                == name@,
    {
        let ghost all = self@.user_names();
        proof {
            all.index_of_first_ensures(name@);
        }
        let mut i: usize = 0;
        while i < self.users.len()
            invariant
                i <= self.users@.len(),
                all == self@.user_names(),
                forall|j: int| 0 <= j < i ==> all[j] != name@,
            decreases self.users@.len() - i,
        {
            if self.users[i].name == *name {
                assert(all[i as int] == name@);
                assert(all.contains(name@));
                proof {
                    all.index_of_first_ensures(name@);
                }
                return Some(i);
            }
            i += 1;
        }
        assert(!all.contains(name@));
        None
    }

    /// Where the table with that id stands among the tables.
    pub fn find_table(&self, id: &String) -> (found: Option<usize>)
        ensures
            spelled_position(found) == self@.find_table(id@),
            found is Some ==> found->Some_0 < self.tables@.len() && self.tables@[found->Some_0 as int].id@
                == id@,
    {
        let ghost all = self@.table_ids();
        proof {
            all.index_of_first_ensures(id@);
        }
        let mut i: usize = 0;
        while i < self.tables.len()
            invariant
                i <= self.tables@.len(),
                all == self@.table_ids(),
                forall|j: int| 0 <= j < i ==> all[j] != id@,
            decreases self.tables@.len() - i,
        {
            if self.tables[i].id == *id {
                assert(all[i as int] == id@);
                assert(all.contains(id@));
                proof {
                    all.index_of_first_ensures(id@);
                }
                return Some(i);
            }
            i += 1;
        }
        assert(!all.contains(id@));
        None
    }

    /// Registers a user under `name` with the starting balance. Says
    /// whether it did: a name that is taken is not registered again.
    pub fn register(&mut self, name: String) -> (registered: bool)
        requires
            old(self)@.wf(),
        ensures
            registered == (old(self)@.find_user(name@) is None),
            final(self)@ == old(self)@.register(name@),
            final(self)@.wf(),
    {
        match self.find_user(&name) {
            Some(_) => false,
            None => {
                proof {
                    old(self)@.user_names().index_of_first_ensures(name@);
                }
                self.users.push(User { name, balance: STARTING_BALANCE, table: None });
                proof {
                    let after = old(self)@.register(name@);
                    assert(self@.users =~= after.users);
                    assert(self@.tables =~= after.tables);
                    assert(self@.user_names() =~= old(self)@.user_names().push(name@));
                    assert(self@.table_ids() =~= old(self)@.table_ids());
                }
                true
            },
        }
    }

    /// Creates an empty table under `id`. Says whether it did: an id that
    /// is taken gets no second table.
    pub fn create_table(&mut self, id: String) -> (created: bool)
        requires
            old(self)@.wf(),
        ensures
            created == (old(self)@.find_table(id@) is None),
            final(self)@ == old(self)@.create_table(id@),
            final(self)@.wf(),
    {
        match self.find_table(&id) {
            Some(_) => false,
            None => {
                proof {
                    old(self)@.table_ids().index_of_first_ensures(id@);
                }
                self.tables.push(Table { id, players: Vec::new(), game: None });
                proof {
                    let after = old(self)@.create_table(id@);
                    assert(self@.tables[old(self).tables@.len() as int].players =~= Seq::empty());
                    assert(self@.users =~= after.users);
                    assert(self@.tables =~= after.tables);
                    assert(self@.table_ids() =~= old(self)@.table_ids().push(id@));
                    assert(self@.user_names() =~= old(self)@.user_names());
                }
                true
            },
        }
    }

    /// The ids of all tables, in the order the tables were created.
    pub fn list_tables(&self) -> (ids: Vec<String>)
        ensures
            spellings(ids@) == self@.table_ids(),
    {
        let mut ids: Vec<String> = Vec::new();
        let mut i: usize = 0;
        while i < self.tables.len()
            invariant
                i <= self.tables@.len(),
                ids@.len() == i,
                forall|j: int| 0 <= j < i ==> (#[trigger] ids@[j])@ == self.tables@[j].id@,
            decreases self.tables@.len() - i,
        {
            ids.push(self.tables[i].id.clone());
            i += 1;
        }
        assert(spellings(ids@) =~= self@.table_ids());
        ids
    }
}

impl Default for ServerState {
    fn default() -> (state: ServerState)
        ensures
            state@.users.len() == 0,
            state@.tables.len() == 0,
            state@.wf(),
    {
        ServerState::new()
    }
}

} // verus!
