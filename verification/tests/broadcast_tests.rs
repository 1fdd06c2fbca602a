use sensor_profiles::broadcast::Broadcaster;
use sensor_profiles::command::Response;

fn message(text: &str) -> Response {
    Response {
        success: true,
        message: text.to_string(),
        data: None,
        sensor_values: None,
        response_type: Some("command_response".to_string()),
    }
}

#[test]
fn test_broadcast_channel() {
    let mut tx = Broadcaster::new(10);
    let rx = tx.subscribe();

    let response = message("Test message");
    tx.publish(response.clone());

    let received = tx.recv(rx).expect("one message");
    assert_eq!(received.success, response.success);
    assert_eq!(received.message, response.message);
    assert_eq!(received.response_type, response.response_type);
    assert!(tx.recv(rx).is_none());
}

#[test]
fn test_multiple_broadcast_subscribers() {
    let mut tx = Broadcaster::new(10);
    let rx1 = tx.subscribe();
    let rx2 = tx.subscribe();

    let response = message("Broadcast message");
    tx.publish(response.clone());

    let received1 = tx.recv(rx1).expect("first subscriber");
    let received2 = tx.recv(rx2).expect("second subscriber");

    assert_eq!(received1.message, response.message);
    assert_eq!(received2.message, response.message);
}

#[test]
fn test_late_subscriber_sees_no_history() {
    let mut tx = Broadcaster::new(10);
    tx.publish(message("before"));
    let rx = tx.subscribe();
    assert!(tx.recv(rx).is_none());
    tx.publish(message("after"));
    assert_eq!(tx.recv(rx).expect("one message").message, "after");
}

#[test]
fn test_lagging_subscriber_drops_oldest_unread() {
    let mut tx = Broadcaster::new(2);
    let slow = tx.subscribe();
    let fast = tx.subscribe();

    tx.publish(message("one"));
    assert_eq!(tx.recv(fast).expect("kept up").message, "one");
    tx.publish(message("two"));
    tx.publish(message("three"));

    // the slow subscriber fell a full ring behind: its oldest unread is gone
    assert_eq!(tx.recv(slow).expect("skipped forward").message, "two");
    assert_eq!(tx.recv(slow).expect("next").message, "three");
    assert!(tx.recv(slow).is_none());

    // the fast subscriber was unaffected
    assert_eq!(tx.recv(fast).expect("next").message, "two");
    assert_eq!(tx.recv(fast).expect("next").message, "three");
}
