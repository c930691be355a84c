//! The commands of a connection, as far as they decide anything: each
//! takes who the connection is registered as and what was asked, carries it
//! out on the registry, and says what is to be reported. Reading the
//! request and sending the report are left to the caller.

use crate::card::Card;
use crate::coordinator::{ActionReply, GameStatus, JoinOutcome};
use crate::deck::is_full_deck;
use crate::models::{spelled, spellings, ServerState, ServerStateView};
use crate::player::PlayerAction;
use vstd::prelude::*;

verus! {

/// Registers the connection under `name`, unless the name is taken. Says
/// whether it did; a connection that did is known by that name from then
/// on.
pub fn handle_register(name: String, state: &mut ServerState, user_id: &mut Option<String>) -> (registered:
    bool)
    requires
        old(state)@.wf(),
    ensures
        registered == (old(state)@.find_user(name@) is None),
        final(state)@ == old(state)@.register(name@),
        final(state)@.wf(),
        spelled(*final(user_id)) == if registered {
            Some(name@)
        } else {
            spelled(*old(user_id))
        },
{
    let known_as = name.clone();
    let registered = state.register(name);
    if registered {
        *user_id = Some(known_as);
    }
    registered
}

/// Creates the table `table`, unless there is one with that id. Says
/// whether it did.
pub fn handle_create_table(table: String, state: &mut ServerState) -> (created: bool)
    requires
        old(state)@.wf(),
    ensures
        created == (old(state)@.find_table(table@) is None),
        final(state)@ == old(state)@.create_table(table@),
        final(state)@.wf(),
{
    state.create_table(table)
}

/// Lets the connection join `table`. A connection that has not registered
/// is turned away with nothing, and nothing changes; any other gets the
/// outcome of joining.
pub fn handle_join_table(user_id: &Option<String>, table: &String, state: &mut ServerState) -> (outcome:
    Option<JoinOutcome>)
    requires
        old(state)@.wf(),
    ensures
        final(state)@.wf(),
        spelled(*user_id) is None ==> outcome is None && final(state)@ == old(state)@,
        spelled(*user_id) is Some ==> outcome == Some(
            old(state)@.join_outcome(spelled(*user_id)->Some_0, table@),
        ),
        spelled(*user_id) is Some ==> exists|fresh: Seq<Card>|
            is_full_deck(fresh) && final(state)@ == #[trigger] old(state)@.join_table(
                spelled(*user_id)->Some_0,
                table@,
                fresh,
            ),
{
    match user_id {
        Some(user) => Some(state.join_table(user, table)),
        None => None,
    }
}

/// The ids of all tables, in the order the tables were created.
pub fn handle_list_tables(state: &ServerState) -> (ids: Vec<String>)
    ensures
        spellings(ids@) == state@.table_ids(),
{
    state.list_tables()
}

/// The registry after the connection asked to act: the turn of the user it
/// is registered as, or no change where it is not registered.
pub open spec fn acted(before: ServerStateView, user_id: Option<String>, action: PlayerAction) ->
    ServerStateView {
    match user_id {
        Some(user) => before.take_turn(user@, action),
        None => before,
    }
}

/// The reply is the answer that is due to the connection for asking to
/// act: the answer due to the user it is registered as, or that it is in no
/// game where it is not registered.
pub open spec fn answered(
    reply: ActionReply,
    before: ServerStateView,
    user_id: Option<String>,
    action: PlayerAction,
) -> bool {
    match user_id {
        Some(user) => reply.answers(before, user@, action),
        None => reply is NotInGame,
    }
}

/// Plays one turn for the connection.
fn handle_action(user_id: &Option<String>, action: PlayerAction, state: &mut ServerState) -> (reply:
    ActionReply)
    requires
        old(state)@.wf(),
    ensures
        final(state)@ == acted(old(state)@, *user_id, action),
        final(state)@.wf(),
        answered(reply, old(state)@, *user_id, action),
{
    match user_id {
        Some(user) => state.take_turn(user, action),
        None => ActionReply::NotInGame,
    }
}

/// The connection bets: a raise of `amount` in the game of its user.
pub fn handle_bet(user_id: &Option<String>, amount: u64, state: &mut ServerState) -> (reply:
    ActionReply)
    requires
        old(state)@.wf(),
    ensures
        final(state)@ == acted(old(state)@, *user_id, PlayerAction::Raise(amount)),
        final(state)@.wf(),
        answered(reply, old(state)@, *user_id, PlayerAction::Raise(amount)),
{
    handle_action(user_id, PlayerAction::Raise(amount), state)
}

/// The connection calls in the game of its user.
pub fn handle_call(user_id: &Option<String>, state: &mut ServerState) -> (reply: ActionReply)
    requires
        old(state)@.wf(),
    ensures
        final(state)@ == acted(old(state)@, *user_id, PlayerAction::Call),
        final(state)@.wf(),
        answered(reply, old(state)@, *user_id, PlayerAction::Call),
{
    handle_action(user_id, PlayerAction::Call, state)
}

/// The connection checks in the game of its user.
pub fn handle_check(user_id: &Option<String>, state: &mut ServerState) -> (reply: ActionReply)
    requires
        old(state)@.wf(),
    ensures
        final(state)@ == acted(old(state)@, *user_id, PlayerAction::Check),
        final(state)@.wf(),
        answered(reply, old(state)@, *user_id, PlayerAction::Check),
{
    handle_action(user_id, PlayerAction::Check, state)
}

/// The connection folds in the game of its user.
pub fn handle_fold(user_id: &Option<String>, state: &mut ServerState) -> (reply: ActionReply)
    requires
        old(state)@.wf(),
    ensures
        final(state)@ == acted(old(state)@, *user_id, PlayerAction::Fold),
        final(state)@.wf(),
        answered(reply, old(state)@, *user_id, PlayerAction::Fold),
{
    handle_action(user_id, PlayerAction::Fold, state)
}

/// What the connection is shown of the game of its user: nothing where it
/// is not registered or its user has no seat in a game.
pub fn handle_show_state(state: &ServerState, user_id: &Option<String>) -> (status: Option<
    GameStatus,
>)
    ensures
        match spelled(*user_id) {
            Some(user) => {
                &&& status is Some <==> state@.status_of(user) is Some
                &&& status is Some ==> status->Some_0@ == state@.status_of(user)->Some_0
            },
            None => status is None,
        },
{
    match user_id {
        Some(user) => state.game_status(user),
        None => None,
    }
}

} // verus!
