//! Which sessions are sent which message. The engine does not send: it
//! names the sessions, and the caller queues the message to each.

use vstd::prelude::*;
use crate::models::{Client, ServerMessage};

verus! {

/// One message, and the sessions it goes to, in the order in which it is
/// queued to them.
#[derive(Debug)]
pub struct Delivery {
    pub recipients: Vec<u128>,
    pub message: ServerMessage,
}

/// The name of a message's kind.
pub open spec fn message_type(msg: ServerMessage) -> Seq<char> {
    match msg {
        ServerMessage::InitialState { .. } => "InitialState"@,
        ServerMessage::UserSync { .. } => "UserSync"@,
        ServerMessage::NewPost { .. } => "NewPost"@,
        ServerMessage::MarketUpdate { .. } => "MarketUpdate"@,
        ServerMessage::BalanceUpdate { .. } => "BalanceUpdate"@,
        ServerMessage::PositionUpdate { .. } => "PositionUpdate"@,
        ServerMessage::RealizedPnlUpdate { .. } => "RealizedPnlUpdate"@,
        ServerMessage::ExposureUpdate { .. } => "ExposureUpdate"@,
        ServerMessage::EquityUpdate { .. } => "EquityUpdate"@,
        ServerMessage::Error { .. } => "Error"@,
    }
}

/// The name of a message's kind, for logs.
pub fn message_type_for_debug(msg: &ServerMessage) -> (name: &'static str)
    ensures
        name@ == message_type(*msg),
{
    match msg {
        ServerMessage::InitialState { .. } => "InitialState",
        ServerMessage::UserSync { .. } => "UserSync",
        ServerMessage::NewPost { .. } => "NewPost",
        ServerMessage::MarketUpdate { .. } => "MarketUpdate",
        ServerMessage::BalanceUpdate { .. } => "BalanceUpdate",
        ServerMessage::PositionUpdate { .. } => "PositionUpdate",
        ServerMessage::RealizedPnlUpdate { .. } => "RealizedPnlUpdate",
        ServerMessage::ExposureUpdate { .. } => "ExposureUpdate",
        ServerMessage::EquityUpdate { .. } => "EquityUpdate",
        ServerMessage::Error { .. } => "Error",
    }
}

/// Those a message is meant for.
pub enum Audience {
    Everyone,
    /// Every session of one user.
    User(Seq<char>),
    /// One session.
    Session(u128),
}

/// Whether a session belongs to an audience.
pub open spec fn belongs(client: Client, audience: Audience) -> bool {
    match audience {
        Audience::Everyone => true,
        Audience::User(user_id) => client.user_id@ == user_id,
        Audience::Session(client_id) => client.client_id == client_id,
    }
}

/// `found`, followed by the sessions among `clients[from..]` that belong to
/// the audience, in their order.
pub open spec fn sessions_from(
    clients: Seq<Client>,
    from: int,
    audience: Audience,
    found: Seq<u128>,
) -> Seq<u128>
    decreases clients.len() - from,
{
    if from < 0 || from >= clients.len() {
        found
    } else if belongs(clients[from], audience) {
        sessions_from(clients, from + 1, audience, found.push(clients[from].client_id))
    } else {
        sessions_from(clients, from + 1, audience, found)
    }
}

/// The sessions of an audience, in the order of `clients`.
pub open spec fn sessions_of(clients: Seq<Client>, audience: Audience) -> Seq<u128> {
    sessions_from(clients, 0, audience, Seq::empty())
}

/// Every session.
pub fn every_session(clients: &Vec<Client>) -> (sessions: Vec<u128>)
    ensures
        sessions@ == sessions_of(clients@, Audience::Everyone),
{
    let mut sessions: Vec<u128> = Vec::new();
    let mut i: usize = 0;
    while i < clients.len()
        invariant
            i <= clients@.len(),
            sessions_from(clients@, i as int, Audience::Everyone, sessions@) == sessions_from(
                clients@,
                0,
                Audience::Everyone,
                Seq::empty(),
            ),
        decreases clients@.len() - i,
    {
        sessions.push(clients[i].client_id);
        i = i + 1;
    }
    sessions
}

/// The sessions of a user.
pub fn user_sessions(clients: &Vec<Client>, user_id: &String) -> (sessions: Vec<u128>)
    ensures
        sessions@ == sessions_of(clients@, Audience::User(user_id@)),
{
    let mut sessions: Vec<u128> = Vec::new();
    let mut i: usize = 0;
    while i < clients.len()
        invariant
            i <= clients@.len(),
            sessions_from(clients@, i as int, Audience::User(user_id@), sessions@) == sessions_from(
                clients@,
                0,
                Audience::User(user_id@),
                Seq::empty(),
            ),
        decreases clients@.len() - i,
    {
        if clients[i].user_id == *user_id {
            sessions.push(clients[i].client_id);
        }
        i = i + 1;
    }
    sessions
}

/// A message for one session. It goes to nobody if the session is not open.
pub fn send_to_client(client_id: u128, message: ServerMessage, clients: &Vec<Client>) -> (delivery:
    Delivery)
    ensures
        delivery.message == message,
        delivery.recipients@ == sessions_of(clients@, Audience::Session(client_id)),
{
    let mut recipients: Vec<u128> = Vec::new();
    let mut i: usize = 0;
    while i < clients.len()
        invariant
            i <= clients@.len(),
            sessions_from(clients@, i as int, Audience::Session(client_id), recipients@) == sessions_from(
                clients@,
                0,
                Audience::Session(client_id),
                Seq::empty(),
            ),
        decreases clients@.len() - i,
    {
        if clients[i].client_id == client_id {
            recipients.push(clients[i].client_id);
        }
        i = i + 1;
    }
    Delivery { recipients, message }
}

/// A message for every session.
pub fn broadcast_message(message: ServerMessage, clients: &Vec<Client>) -> (delivery: Delivery)
    ensures
        delivery.message == message,
        delivery.recipients@ == sessions_of(clients@, Audience::Everyone),
{
    Delivery { recipients: every_session(clients), message }
}

} // verus!
