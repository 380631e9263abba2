use agent_mesh::mailbox::{Mailbox, SendError, MAILBOX_CAPACITY};
use agent_mesh::message::AgentMessage;

fn task(text: &str) -> AgentMessage {
    AgentMessage::Task(text.to_string())
}

#[test]
fn reference_capacity_is_one_hundred() {
    assert_eq!(MAILBOX_CAPACITY, 100);
    let mailbox = Mailbox::new(MAILBOX_CAPACITY);
    assert_eq!(mailbox.capacity(), 100);
}

#[test]
fn new_mailbox_is_empty_and_open() {
    let mailbox = Mailbox::new(3);
    assert_eq!(mailbox.len(), 0);
    assert!(mailbox.is_empty());
    assert!(!mailbox.is_full());
    assert!(mailbox.is_open());
}

#[test]
fn messages_leave_in_the_order_they_arrived() {
    let mut mailbox = Mailbox::new(4);
    assert_eq!(mailbox.send(task("one")), Ok(()));
    assert_eq!(mailbox.send(task("two")), Ok(()));
    assert_eq!(mailbox.send(AgentMessage::Trigger("three".to_string())), Ok(()));
    assert_eq!(mailbox.len(), 3);
    assert_eq!(mailbox.receive(), Some(task("one")));
    assert_eq!(mailbox.send(task("four")), Ok(()));
    assert_eq!(mailbox.receive(), Some(task("two")));
    assert_eq!(mailbox.receive(), Some(AgentMessage::Trigger("three".to_string())));
    assert_eq!(mailbox.receive(), Some(task("four")));
    assert_eq!(mailbox.receive(), None);
}

#[test]
fn receive_on_empty_mailbox_changes_nothing() {
    let mut mailbox = Mailbox::new(2);
    assert_eq!(mailbox.receive(), None);
    assert_eq!(mailbox.len(), 0);
    assert!(mailbox.is_open());
    assert_eq!(mailbox.capacity(), 2);
}

#[test]
fn full_mailbox_hands_the_message_back_and_keeps_its_queue() {
    let mut mailbox = Mailbox::new(2);
    assert_eq!(mailbox.send(task("a")), Ok(()));
    assert_eq!(mailbox.send(task("b")), Ok(()));
    assert!(mailbox.is_full());
    assert_eq!(mailbox.send(task("c")), Err(SendError::Full(task("c"))));
    assert_eq!(mailbox.len(), 2);
    assert_eq!(mailbox.receive(), Some(task("a")));
    assert!(!mailbox.is_full());
    assert_eq!(mailbox.send(task("c")), Ok(()));
    assert_eq!(mailbox.receive(), Some(task("b")));
    assert_eq!(mailbox.receive(), Some(task("c")));
}

#[test]
fn mailbox_fills_at_exactly_its_capacity() {
    let mut mailbox = Mailbox::new(MAILBOX_CAPACITY);
    for k in 0..100 {
        assert_eq!(mailbox.send(task(&format!("m{}", k))), Ok(()));
    }
    assert_eq!(mailbox.len(), 100);
    assert!(mailbox.is_full());
    assert_eq!(mailbox.send(task("m100")), Err(SendError::Full(task("m100"))));
    for k in 0..100 {
        assert_eq!(mailbox.receive(), Some(task(&format!("m{}", k))));
    }
    assert_eq!(mailbox.receive(), None);
}

#[test]
fn mailbox_of_capacity_zero_never_has_room() {
    let mut mailbox = Mailbox::new(0);
    assert!(mailbox.is_full());
    assert!(mailbox.is_empty());
    assert_eq!(
        mailbox.send(AgentMessage::Shutdown),
        Err(SendError::Full(AgentMessage::Shutdown))
    );
    assert_eq!(mailbox.len(), 0);
}

#[test]
fn closed_mailbox_refuses_and_keeps_what_was_queued() {
    let mut mailbox = Mailbox::new(3);
    assert_eq!(mailbox.send(task("kept")), Ok(()));
    mailbox.close();
    assert!(!mailbox.is_open());
    assert_eq!(mailbox.send(task("late")), Err(SendError::Closed(task("late"))));
    assert_eq!(mailbox.len(), 1);
    assert_eq!(mailbox.receive(), Some(task("kept")));
}

#[test]
fn closed_takes_precedence_over_full() {
    let mut mailbox = Mailbox::new(1);
    assert_eq!(mailbox.send(task("only")), Ok(()));
    mailbox.close();
    assert_eq!(mailbox.send(task("x")), Err(SendError::Closed(task("x"))));
}

#[test]
fn message_clone_is_equal_and_shutdown_is_recognised() {
    let response = AgentMessage::Response("A".to_string(), "done".to_string());
    assert_eq!(response.clone(), response);
    assert_eq!(task("t").clone(), task("t"));
    assert_eq!(AgentMessage::Shutdown.clone(), AgentMessage::Shutdown);
    assert!(AgentMessage::Shutdown.is_shutdown());
    assert!(!task("Shutdown").is_shutdown());
    assert!(!response.is_shutdown());
    assert!(!AgentMessage::Trigger("t".to_string()).is_shutdown());
}
