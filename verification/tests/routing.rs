use fluke_server::auth::with_auth;
use fluke_server::constants::{INITIAL_BALANCE, SCALE};
use fluke_server::errors::{handle_rejection, AuthError, Rejection, TradeError};
use fluke_server::handlers::{
    broadcast_market_and_position_updates, error_message, handle_client_message,
    handle_connection, initial_state, open_market, report_trade, send_user_sync_update,
    TradeOutcome,
};
use fluke_server::models::{AuthQuery, Claims, Client, ClientMessage, Post, ServerMessage};
use fluke_server::state::AppState;
use fluke_server::websocket::{
    broadcast_message, every_session, message_type_for_debug, send_to_client, user_sessions,
};

const POST: u128 = 7;

fn clients() -> Vec<Client> {
    vec![
        Client { client_id: 1, user_id: "ann".to_string() },
        Client { client_id: 2, user_id: "ben".to_string() },
        Client { client_id: 3, user_id: "ann".to_string() },
    ]
}

fn market_state() -> AppState {
    let mut state = AppState::new();
    open_market(POST, 1, "author", "a post".to_string(), &mut state);
    state
}

fn claims(sub: &str) -> Claims {
    Claims { sub: sub.to_string(), aud: "authenticated".to_string(), exp: 2_000_000_000 }
}

#[test]
fn message_types_have_their_names() {
    let post = Post {
        id: 1,
        user_id: "ann".to_string(),
        content: "x".to_string(),
        timestamp: 0,
        price: None,
        supply: 0,
    };
    let cases = vec![
        (ServerMessage::InitialState { posts: vec![] }, "InitialState"),
        (
            ServerMessage::UserSync {
                balance: 0,
                exposure: 0,
                equity: 0,
                positions: vec![],
                total_realized_pnl: 0,
            },
            "UserSync",
        ),
        (ServerMessage::NewPost { post }, "NewPost"),
        (ServerMessage::MarketUpdate { post_id: 1, price: 1, supply: 1 }, "MarketUpdate"),
        (ServerMessage::BalanceUpdate { balance: 1 }, "BalanceUpdate"),
        (
            ServerMessage::PositionUpdate { post_id: 1, size: 1, average_price: 1, unrealized_pnl: 1 },
            "PositionUpdate",
        ),
        (ServerMessage::RealizedPnlUpdate { total_realized_pnl: 1 }, "RealizedPnlUpdate"),
        (ServerMessage::ExposureUpdate { exposure: 1 }, "ExposureUpdate"),
        (ServerMessage::EquityUpdate { equity: 1 }, "EquityUpdate"),
        (ServerMessage::Error { message: "x".to_string() }, "Error"),
    ];
    for (message, name) in cases {
        assert_eq!(message_type_for_debug(&message), name);
    }
}

#[test]
fn sessions_are_picked_in_order() {
    assert_eq!(every_session(&clients()), vec![1, 2, 3]);
    assert_eq!(user_sessions(&clients(), &"ann".to_string()), vec![1, 3]);
    assert_eq!(user_sessions(&clients(), &"cy".to_string()), Vec::<u128>::new());
    assert_eq!(every_session(&vec![]), Vec::<u128>::new());
}

#[test]
fn broadcast_goes_to_every_session() {
    let delivery = broadcast_message(ServerMessage::EquityUpdate { equity: 5 }, &clients());
    assert_eq!(delivery.recipients, vec![1, 2, 3]);
    assert!(matches!(delivery.message, ServerMessage::EquityUpdate { equity: 5 }));
}

#[test]
fn direct_message_goes_to_an_open_session_only() {
    let delivery = send_to_client(2, ServerMessage::EquityUpdate { equity: 5 }, &clients());
    assert_eq!(delivery.recipients, vec![2]);
    let delivery = send_to_client(9, ServerMessage::EquityUpdate { equity: 5 }, &clients());
    assert!(delivery.recipients.is_empty());
}

#[test]
fn error_messages_carry_the_text_of_the_error() {
    let cases = [
        (TradeError::MalformedRequest, "Malformed request"),
        (TradeError::UnknownPost, "Post not found"),
        (TradeError::InsufficientCollateral, "Insufficient collateral"),
        (TradeError::NumericFault, "Trade calculation error"),
        (TradeError::Internal, "Internal error"),
    ];
    for (error, text) in cases {
        assert_eq!(error.message(), text);
        match error_message(error) {
            ServerMessage::Error { message } => assert_eq!(message, text),
            other => panic!("{:?}", other),
        }
    }
}

#[test]
fn create_post_is_broadcast() {
    let mut state = AppState::new();
    let deliveries = handle_client_message(
        1,
        "ann",
        ClientMessage::CreatePost { content: "hello".to_string() },
        &clients(),
        &mut state,
    );
    assert_eq!(deliveries.len(), 1);
    assert_eq!(deliveries[0].recipients, vec![1, 2, 3]);
    match &deliveries[0].message {
        ServerMessage::NewPost { post } => {
            assert_eq!(post.user_id, "ann");
            assert_eq!(post.content, "hello");
            assert_eq!(post.supply, 0);
            assert_eq!(post.price, Some(SCALE));
            assert!(state.market(post.id).is_some());
        },
        other => panic!("{:?}", other),
    }
    assert_eq!(state.account("ann").unwrap().balance, INITIAL_BALANCE);
}

#[test]
fn buy_is_reported_to_everyone_and_synced_to_the_trader() {
    let mut state = market_state();
    let deliveries = handle_client_message(
        1,
        "ann",
        ClientMessage::Buy { post_id: POST, quantity: SCALE },
        &clients(),
        &mut state,
    );
    assert_eq!(deliveries.len(), 2);
    assert_eq!(deliveries[0].recipients, vec![1, 2, 3]);
    assert!(matches!(
        deliveries[0].message,
        ServerMessage::MarketUpdate {
            post_id: POST,
            price: 2_000_000_000_000_000_000,
            supply: 1_000_000_000_000_000_000
        }
    ));
    assert_eq!(deliveries[1].recipients, vec![1, 3]);
    match &deliveries[1].message {
        ServerMessage::UserSync { equity, positions, .. } => {
            assert_eq!(*equity, 998_666_666_666_666_666_668);
            assert_eq!(positions.len(), 1);
        },
        other => panic!("{:?}", other),
    }
}

#[test]
fn sell_is_the_trade_of_the_negated_quantity() {
    let mut state = market_state();
    let deliveries = handle_client_message(
        2,
        "ben",
        ClientMessage::Sell { post_id: POST, quantity: SCALE },
        &clients(),
        &mut state,
    );
    assert_eq!(deliveries.len(), 2);
    assert!(matches!(
        deliveries[0].message,
        ServerMessage::MarketUpdate {
            post_id: POST,
            price: 500_000_000_000_000_000,
            supply: -1_000_000_000_000_000_000
        }
    ));
    assert_eq!(deliveries[1].recipients, vec![2]);
    assert_eq!(state.account("ben").unwrap().positions[0].detail.size, -SCALE);
}

#[test]
fn refused_trade_is_answered_to_the_session_that_asked() {
    let mut state = market_state();
    let deliveries = handle_client_message(
        3,
        "ann",
        ClientMessage::Buy { post_id: POST, quantity: 0 },
        &clients(),
        &mut state,
    );
    assert_eq!(deliveries.len(), 1);
    assert_eq!(deliveries[0].recipients, vec![3]);
    match &deliveries[0].message {
        ServerMessage::Error { message } => assert_eq!(message, "Malformed request"),
        other => panic!("{:?}", other),
    }
    let deliveries = handle_client_message(
        3,
        "ann",
        ClientMessage::Sell { post_id: 99, quantity: SCALE },
        &clients(),
        &mut state,
    );
    match &deliveries[0].message {
        ServerMessage::Error { message } => assert_eq!(message, "Post not found"),
        other => panic!("{:?}", other),
    }
    assert_eq!(state.market(POST).unwrap().post.supply, 0);
}

#[test]
fn trade_report_syncs_every_affected_user() {
    let state = market_state();
    let outcome = TradeOutcome {
        post_id: POST,
        price: 3,
        supply: 4,
        effective_cost: 5,
        affected_users: vec!["ben".to_string(), "ann".to_string(), "cy".to_string()],
    };
    let deliveries = broadcast_market_and_position_updates(&outcome, &clients(), &state);
    assert_eq!(deliveries.len(), 4);
    assert_eq!(deliveries[0].recipients, vec![1, 2, 3]);
    assert!(matches!(
        deliveries[0].message,
        ServerMessage::MarketUpdate { post_id: POST, price: 3, supply: 4 }
    ));
    assert_eq!(deliveries[1].recipients, vec![2]);
    assert_eq!(deliveries[2].recipients, vec![1, 3]);
    assert!(deliveries[3].recipients.is_empty());
    for delivery in &deliveries[1..] {
        assert_eq!(message_type_for_debug(&delivery.message), "UserSync");
    }
    let same = report_trade(1, &Ok(outcome), &clients(), &state);
    assert_eq!(same.len(), 4);
    let refused = report_trade(1, &Err(TradeError::UnknownPost), &clients(), &state);
    assert_eq!(refused.len(), 1);
    assert_eq!(refused[0].recipients, vec![1]);
}

#[test]
fn user_sync_goes_to_the_sessions_of_the_user() {
    let state = market_state();
    let delivery = send_user_sync_update(&"ann".to_string(), &clients(), &state);
    assert_eq!(delivery.recipients, vec![1, 3]);
    assert_eq!(message_type_for_debug(&delivery.message), "UserSync");
}

#[test]
fn new_session_is_told_of_posts_and_account() {
    let mut state = market_state();
    open_market(8, 2, "author", "second".to_string(), &mut state);
    let deliveries = handle_connection(5, "dan", &mut state);
    assert_eq!(deliveries.len(), 2);
    assert_eq!(deliveries[0].recipients, vec![5]);
    assert_eq!(deliveries[1].recipients, vec![5]);
    match &deliveries[0].message {
        ServerMessage::InitialState { posts } => {
            let mut ids: Vec<u128> = posts.iter().map(|p| p.id).collect();
            ids.sort();
            assert_eq!(ids, vec![POST, 8]);
            assert!(posts.iter().all(|p| p.price == Some(SCALE)));
        },
        other => panic!("{:?}", other),
    }
    match &deliveries[1].message {
        ServerMessage::UserSync { balance, equity, .. } => {
            assert_eq!(*balance, INITIAL_BALANCE);
            assert_eq!(*equity, INITIAL_BALANCE);
        },
        other => panic!("{:?}", other),
    }
    assert!(state.account("dan").is_some());
}

#[test]
fn initial_state_quotes_the_price_of_the_supply() {
    let mut state = market_state();
    let mut market = state.market(POST).unwrap();
    market.post.supply = 4 * SCALE;
    market.post.price = None;
    state.set_market(POST, market);
    match initial_state(&state) {
        ServerMessage::InitialState { posts } => {
            assert_eq!(posts.len(), 1);
            assert_eq!(posts[0].price, Some(3 * SCALE));
            assert_eq!(posts[0].supply, 4 * SCALE);
        },
        other => panic!("{:?}", other),
    }
}

#[test]
fn rejections_are_answered_by_precedence() {
    let none = Rejection {
        not_found: false,
        invalid_token: false,
        method_not_allowed: false,
        invalid_query: false,
    };
    assert_eq!(handle_rejection(none), (500, "INTERNAL_SERVER_ERROR"));
    assert_eq!(handle_rejection(Rejection { not_found: true, ..none }), (404, "NOT_FOUND"));
    assert_eq!(handle_rejection(Rejection { invalid_token: true, ..none }), (401, "UNAUTHORIZED"));
    assert_eq!(
        handle_rejection(Rejection { method_not_allowed: true, ..none }),
        (405, "METHOD_NOT_ALLOWED")
    );
    assert_eq!(
        handle_rejection(Rejection { invalid_query: true, ..none }),
        (400, "BAD_REQUEST - Missing or invalid token query parameter")
    );
    let all = Rejection {
        not_found: true,
        invalid_token: true,
        method_not_allowed: true,
        invalid_query: true,
    };
    assert_eq!(handle_rejection(all).0, 404);
    assert_eq!(handle_rejection(Rejection { not_found: false, ..all }).0, 401);
    assert_eq!(handle_rejection(Rejection { not_found: false, invalid_token: false, ..all }).0, 405);
}

#[test]
fn valid_claims_admit_their_subject() {
    assert_eq!(with_auth(Ok(claims("ann"))), Ok("ann".to_string()));
}

#[test]
fn claims_without_subject_and_invalid_tokens_are_refused() {
    assert_eq!(with_auth(Ok(claims(""))), Err(AuthError::InvalidToken));
    assert_eq!(with_auth(Err("JWT validation failed".to_string())), Err(AuthError::InvalidToken));
}

#[test]
fn auth_query_holds_the_token() {
    let query = AuthQuery { token: "abc".to_string() };
    assert_eq!(query.clone().token, "abc");
}
