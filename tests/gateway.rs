use fps_server::client::{on_handled, on_pulled, ClientSession, Disconnected, ReceiveEnd};
use fps_server::server::{handoff, listing_body, route_of, route_request, Route, UpgradeHeaders};

#[test]
fn non_upgrade_request_is_answered_with_a_listing() {
    assert_eq!(route_of(false), Route::Listing);
}

#[test]
fn upgrade_request_is_handed_to_the_handshake() {
    assert_eq!(route_of(true), Route::Upgrade);
}

#[test]
fn completed_handshake_delivers_its_stream() {
    assert_eq!(handoff::<u32, String>(Ok(5)), Some(5));
}

#[test]
fn failed_handshake_delivers_nothing() {
    assert_eq!(handoff::<u32, String>(Err("bad handshake".to_string())), None);
}

#[test]
fn listing_puts_each_name_on_its_own_line() {
    let names = vec!["Server 1".to_string(), "Server 3".to_string()];
    assert_eq!(listing_body(&names), "Server 1\nServer 3\n");
}

#[test]
fn empty_listing_is_empty() {
    assert_eq!(listing_body(&Vec::new()), "");
}

#[test]
fn new_client_has_no_name_and_no_game() {
    let c: ClientSession<usize, Disconnected> = ClientSession::new();
    assert_eq!(c.get_name(), "");
    assert_eq!(c.get_game_id(), None);
}

#[test]
fn client_keeps_its_identity() {
    let c: ClientSession<usize, Disconnected> = ClientSession::with_identity("ann".to_string(), Some(3));
    assert_eq!(c.get_name(), "ann");
    assert_eq!(c.get_game_id(), Some(&3));
}

#[test]
fn received_message_goes_to_the_handler() {
    assert_eq!(on_pulled::<u8, ()>(Some(Ok(9))), Ok(9));
}

#[test]
fn end_or_bad_frame_ends_the_loop() {
    assert_eq!(on_pulled::<u8, ()>(None), Err(ReceiveEnd::StreamEnded));
    assert_eq!(on_pulled::<u8, ()>(Some(Err(()))), Err(ReceiveEnd::StreamEnded));
}

#[test]
fn handler_decides_whether_to_go_on() {
    assert_eq!(on_handled(Some(true)), None);
    assert_eq!(on_handled(Some(false)), None);
    assert_eq!(on_handled(None), Some(ReceiveEnd::Stopped));
}

fn headers(connection: &[&str], upgrade: &[&str]) -> UpgradeHeaders {
    UpgradeHeaders {
        connection: connection.iter().map(|v| v.as_bytes().to_vec()).collect(),
        upgrade: upgrade.iter().map(|v| v.as_bytes().to_vec()).collect(),
    }
}

#[test]
fn plain_request_is_routed_to_the_listing() {
    assert_eq!(route_request(&headers(&[], &[])), Route::Listing);
    assert_eq!(route_request(&headers(&["keep-alive"], &[])), Route::Listing);
}

#[test]
fn websocket_request_is_routed_to_the_handshake() {
    assert_eq!(route_request(&headers(&["keep-alive, Upgrade"], &["websocket"])), Route::Upgrade);
}

#[test]
fn header_items_are_trimmed_and_compared_ignoring_case() {
    assert_eq!(route_request(&headers(&["  UPGRADE\t"], &["h2c ,  WebSocket "])), Route::Upgrade);
    assert_eq!(route_request(&headers(&["close", "upgrade"], &["websocket"])), Route::Upgrade);
}

#[test]
fn partial_or_missing_tokens_do_not_upgrade() {
    assert_eq!(route_request(&headers(&["upgrades"], &["websocket"])), Route::Listing);
    assert_eq!(route_request(&headers(&["up grade"], &["websocket"])), Route::Listing);
    assert_eq!(route_request(&headers(&["upgrade"], &[])), Route::Listing);
    assert_eq!(route_request(&headers(&["upgrade"], &["web,socket"])), Route::Listing);
    assert_eq!(route_request(&headers(&[""], &[","])), Route::Listing);
}
