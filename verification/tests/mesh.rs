use agent_mesh::agent::{Origin, PeerLink, ProcessorFailure, Status};
use agent_mesh::mailbox::MAILBOX_CAPACITY;
use agent_mesh::mesh::{
    all_distinct, find_identity, spawn_agents, Mesh, Progress, SeedError, SpawnError,
};
use agent_mesh::message::AgentMessage;

fn names(ids: &[&str]) -> Vec<String> {
    ids.iter().map(|id| id.to_string()).collect()
}

fn abc() -> Mesh {
    Mesh::spawn(&names(&["A", "B", "C"])).unwrap()
}

fn history(mesh: &Mesh, i: usize) -> Vec<String> {
    mesh.agent(i).unwrap().history().clone()
}

fn queued(mesh: &Mesh, i: usize) -> usize {
    mesh.mailbox(i).unwrap().len()
}

fn task(text: &str) -> AgentMessage {
    AgentMessage::Task(text.to_string())
}

#[test]
fn spawn_wires_a_complete_graph() {
    let mesh = Mesh::spawn(&names(&["Tom", "Richard", "Harry"])).unwrap();
    assert_eq!(mesh.len(), 3);
    let expected: [&[usize]; 3] = [&[1, 2], &[0, 2], &[0, 1]];
    for i in 0..3 {
        let agent = mesh.agent(i).unwrap();
        let links: Vec<usize> = agent.peers().iter().map(|link| link.target).collect();
        assert_eq!(links, expected[i].to_vec());
        assert!(!agent.peers().contains(&PeerLink { target: i }));
        assert_eq!(agent.status(), Status::Running);
        assert!(agent.history().is_empty());
        assert_eq!(mesh.mailbox(i).unwrap().capacity(), MAILBOX_CAPACITY);
        assert!(mesh.mailbox(i).unwrap().is_empty());
        assert!(mesh.pending_call(i).is_none());
        assert_eq!(mesh.unsent(i), 0);
    }
    assert_eq!(mesh.agent(0).unwrap().id(), "Tom");
    assert_eq!(mesh.agent(1).unwrap().id(), "Richard");
    assert_eq!(mesh.agent(2).unwrap().id(), "Harry");
    assert!(mesh.agent(3).is_none());
    assert!(mesh.mailbox(3).is_none());
}

#[test]
fn every_agent_of_a_larger_mesh_holds_all_others() {
    let ids: Vec<String> = (0..7).map(|k| format!("agent-{}", k)).collect();
    let mesh = Mesh::spawn(&ids).unwrap();
    for i in 0..7 {
        let links: Vec<usize> =
            mesh.agent(i).unwrap().peers().iter().map(|link| link.target).collect();
        let others: Vec<usize> = (0..7).filter(|j| *j != i).collect();
        assert_eq!(links, others);
    }
}

#[test]
fn spawn_refuses_a_repeated_identity() {
    assert_eq!(
        Mesh::spawn(&names(&["A", "B", "A"])).err(),
        Some(SpawnError::DuplicateIdentity)
    );
    assert_eq!(
        spawn_agents(&names(&["A", "A"])).err(),
        Some(SpawnError::DuplicateIdentity)
    );
    assert!(!all_distinct(&names(&["x", "y", "y"])));
    assert!(all_distinct(&names(&["x", "y", "z"])));
    assert!(all_distinct(&names(&[])));
    assert!(all_distinct(&names(&["a", "A"])));
}

#[test]
fn spawn_agents_gives_the_same_wiring_as_the_mesh() {
    let agents = spawn_agents(&names(&["A", "B", "C"])).unwrap();
    let mesh = abc();
    assert_eq!(agents.len(), 3);
    for i in 0..3 {
        assert_eq!(agents[i].id(), mesh.agent(i).unwrap().id());
        assert_eq!(agents[i].peers(), mesh.agent(i).unwrap().peers());
        assert_eq!(agents[i].status(), Status::Running);
    }
}

#[test]
fn empty_and_single_meshes_have_no_links() {
    let empty = Mesh::spawn(&names(&[])).unwrap();
    assert_eq!(empty.len(), 0);
    assert!(empty.all_terminated());
    let mut single = Mesh::spawn(&names(&["solo"])).unwrap();
    assert!(single.agent(0).unwrap().peers().is_empty());
    assert_eq!(single.seed("solo", task("t")), Ok(()));
    assert_eq!(single.poll(0), Progress::Invoked);
    assert!(single.complete(0, Ok("r".to_string())));
    assert_eq!(history(&single, 0), vec!["Task: t | Result: r".to_string()]);
    assert_eq!(queued(&single, 0), 0);
}

#[test]
fn find_gives_the_index_of_an_identity() {
    let mesh = abc();
    assert_eq!(mesh.find("A"), Some(0));
    assert_eq!(mesh.find("B"), Some(1));
    assert_eq!(mesh.find("C"), Some(2));
    assert_eq!(mesh.find("D"), None);
    assert_eq!(mesh.find(""), None);
    assert_eq!(mesh.find("a"), None);
}

#[test]
fn seed_to_an_unknown_identity_comes_back() {
    let mut mesh = abc();
    assert_eq!(
        mesh.seed("Nobody", task("t")),
        Err(SeedError::UnknownIdentity(task("t")))
    );
    for i in 0..3 {
        assert_eq!(queued(&mesh, i), 0);
    }
}

#[test]
fn seed_to_a_full_mailbox_comes_back() {
    let mut mesh = abc();
    for k in 0..MAILBOX_CAPACITY {
        assert_eq!(mesh.seed("B", task(&format!("t{}", k))), Ok(()));
    }
    assert_eq!(mesh.seed("B", task("over")), Err(SeedError::Full(task("over"))));
    assert_eq!(queued(&mesh, 1), MAILBOX_CAPACITY);
    assert_eq!(queued(&mesh, 0), 0);
}

#[test]
fn seed_to_a_terminated_agent_comes_back() {
    let mut mesh = abc();
    assert_eq!(mesh.seed("C", AgentMessage::Shutdown), Ok(()));
    assert_eq!(mesh.poll(2), Progress::Halted);
    assert_eq!(mesh.seed("C", task("late")), Err(SeedError::Closed(task("late"))));
}

#[test]
fn task_seeded_to_a_is_recorded_by_a_and_heard_by_b_and_c() {
    let mut mesh = abc();
    assert_eq!(mesh.seed("A", task("summarize benefits")), Ok(()));

    assert_eq!(mesh.poll(0), Progress::Invoked);
    let call = mesh.pending_call(0).unwrap();
    assert_eq!(call.origin(), Origin::Task);
    assert_eq!(call.task(), "summarize benefits");
    assert_eq!(mesh.agent(0).unwrap().id(), "A");

    assert!(mesh.complete(0, Ok("benefits: efficiency".to_string())));
    assert_eq!(
        history(&mesh, 0),
        vec!["Task: summarize benefits | Result: benefits: efficiency".to_string()]
    );
    assert_eq!(queued(&mesh, 0), 0);
    assert_eq!(queued(&mesh, 1), 1);
    assert_eq!(queued(&mesh, 2), 1);
    assert_eq!(mesh.unsent(0), 0);
    assert!(mesh.pending_call(0).is_none());

    assert_eq!(mesh.poll(1), Progress::Advanced);
    assert_eq!(mesh.poll(2), Progress::Advanced);
    assert_eq!(history(&mesh, 1), vec!["From A: benefits: efficiency".to_string()]);
    assert_eq!(history(&mesh, 2), vec!["From A: benefits: efficiency".to_string()]);

    for i in 0..3 {
        assert_eq!(queued(&mesh, i), 0);
        assert!(mesh.pending_call(i).is_none());
        assert_eq!(mesh.unsent(i), 0);
        assert_eq!(mesh.poll(i), Progress::Idle);
    }
    assert_eq!(
        history(&mesh, 0),
        vec!["Task: summarize benefits | Result: benefits: efficiency".to_string()]
    );
}

#[test]
fn trigger_seeded_to_b_is_processed_without_a_trace() {
    let mut mesh = abc();
    assert_eq!(mesh.seed("B", AgentMessage::Trigger("status check".to_string())), Ok(()));
    assert_eq!(mesh.poll(1), Progress::Invoked);
    assert_eq!(mesh.agent(1).unwrap().id(), "B");
    let call = mesh.pending_call(1).unwrap();
    assert_eq!(call.origin(), Origin::Trigger);
    assert_eq!(call.task(), "status check");

    assert!(mesh.complete(1, Ok("status: ok".to_string())));
    assert!(history(&mesh, 1).is_empty());
    assert_eq!(queued(&mesh, 0), 0);
    assert_eq!(queued(&mesh, 2), 0);
    assert_eq!(mesh.unsent(1), 0);
    assert_eq!(mesh.poll(0), Progress::Idle);
    assert_eq!(mesh.poll(2), Progress::Idle);
    assert!(history(&mesh, 0).is_empty());
    assert!(history(&mesh, 2).is_empty());
}

#[test]
fn shutdown_during_a_call_waits_for_the_call() {
    let mut mesh = abc();
    assert_eq!(mesh.seed("A", task("long task")), Ok(()));
    assert_eq!(mesh.poll(0), Progress::Invoked);

    assert!(mesh.shutdown_all());
    assert_eq!(mesh.poll(1), Progress::Halted);
    assert_eq!(mesh.poll(2), Progress::Halted);
    assert_eq!(mesh.agent(1).unwrap().status(), Status::Terminated);
    assert_eq!(mesh.agent(2).unwrap().status(), Status::Terminated);

    assert_eq!(mesh.poll(0), Progress::AwaitingOutcome);
    assert_eq!(mesh.poll(0), Progress::AwaitingOutcome);
    assert_eq!(mesh.agent(0).unwrap().status(), Status::Running);
    assert_eq!(queued(&mesh, 0), 1);
    assert!(!mesh.all_terminated());

    assert!(mesh.complete(0, Ok("done".to_string())));
    assert_eq!(history(&mesh, 0), vec!["Task: long task | Result: done".to_string()]);
    assert_eq!(mesh.unsent(0), 0);
    assert_eq!(queued(&mesh, 1), 0);
    assert_eq!(queued(&mesh, 2), 0);
    assert!(history(&mesh, 1).is_empty());
    assert!(history(&mesh, 2).is_empty());

    assert_eq!(mesh.poll(0), Progress::Halted);
    assert!(mesh.all_terminated());
    assert_eq!(history(&mesh, 0), vec!["Task: long task | Result: done".to_string()]);
}

#[test]
fn shutdown_leaves_queued_messages_unprocessed() {
    let mut mesh = abc();
    assert_eq!(mesh.seed("B", AgentMessage::Response("X".to_string(), "first".to_string())), Ok(()));
    assert_eq!(mesh.seed("B", AgentMessage::Shutdown), Ok(()));
    assert_eq!(mesh.seed("B", AgentMessage::Response("X".to_string(), "late".to_string())), Ok(()));
    assert_eq!(mesh.seed("B", task("never")), Ok(()));

    assert_eq!(mesh.poll(1), Progress::Advanced);
    assert_eq!(mesh.poll(1), Progress::Halted);
    assert_eq!(queued(&mesh, 1), 2);
    assert!(!mesh.mailbox(1).unwrap().is_open());

    for _ in 0..5 {
        assert_eq!(mesh.poll(1), Progress::Terminated);
        assert!(!mesh.tick(1));
        assert!(!mesh.complete(1, Ok("x".to_string())));
    }
    assert_eq!(queued(&mesh, 1), 2);
    assert_eq!(history(&mesh, 1), vec!["From X: first".to_string()]);
    assert!(mesh.pending_call(1).is_none());
}

#[test]
fn shutdown_all_reaches_every_agent() {
    let mut mesh = abc();
    assert!(!mesh.all_terminated());
    assert!(mesh.shutdown_all());
    for i in 0..3 {
        assert_eq!(queued(&mesh, i), 1);
        assert_eq!(mesh.poll(i), Progress::Halted);
    }
    assert!(mesh.all_terminated());
    assert!(mesh.shutdown_all());
    for i in 0..3 {
        assert_eq!(queued(&mesh, i), 0);
    }
}

#[test]
fn shutdown_all_reports_a_full_mailbox() {
    let mut mesh = abc();
    for k in 0..MAILBOX_CAPACITY {
        assert_eq!(mesh.seed("C", AgentMessage::Response("X".to_string(), format!("{}", k))), Ok(()));
    }
    assert!(!mesh.shutdown_all());
    assert_eq!(queued(&mesh, 0), 1);
    assert_eq!(queued(&mesh, 1), 1);
    assert_eq!(queued(&mesh, 2), MAILBOX_CAPACITY);
    assert_eq!(mesh.poll(2), Progress::Advanced);
    assert_eq!(mesh.seed("C", AgentMessage::Shutdown), Ok(()));
}

#[test]
fn failed_task_changes_no_history_and_reaches_no_mailbox() {
    let mut mesh = abc();
    assert_eq!(mesh.seed("A", AgentMessage::Response("B".to_string(), "old".to_string())), Ok(()));
    assert_eq!(mesh.seed("A", task("doomed")), Ok(()));
    assert_eq!(mesh.poll(0), Progress::Advanced);
    assert_eq!(mesh.poll(0), Progress::Invoked);
    let failure = ProcessorFailure { reason: "malformed output".to_string() };
    assert!(mesh.complete(0, Err(failure)));
    assert_eq!(history(&mesh, 0), vec!["From B: old".to_string()]);
    for i in 0..3 {
        assert_eq!(queued(&mesh, i), 0);
        assert_eq!(mesh.unsent(i), 0);
        assert!(mesh.pending_call(i).is_none());
    }
    assert_eq!(mesh.agent(0).unwrap().status(), Status::Running);
    assert_eq!(mesh.seed("A", task("next")), Ok(()));
    assert_eq!(mesh.poll(0), Progress::Invoked);
}

#[test]
fn tick_issues_the_self_summary_only_with_history() {
    let mut mesh = abc();
    assert!(!mesh.tick(0));
    assert!(mesh.pending_call(0).is_none());

    assert_eq!(mesh.seed("A", AgentMessage::Response("B".to_string(), "x".to_string())), Ok(()));
    assert!(!mesh.tick(0));
    assert_eq!(mesh.poll(0), Progress::Advanced);

    assert!(mesh.tick(0));
    let call = mesh.pending_call(0).unwrap();
    assert_eq!(call.origin(), Origin::SelfCheck);
    assert_eq!(call.task(), "Summarize what you've accomplished so far in one sentence.");

    assert!(!mesh.tick(0));
    assert!(mesh.complete(0, Ok("I heard from B.".to_string())));
    assert_eq!(history(&mesh, 0), vec!["From B: x".to_string()]);
    assert_eq!(queued(&mesh, 1), 0);
    assert_eq!(queued(&mesh, 2), 0);
    assert!(!mesh.tick(3));
}

#[test]
fn two_results_from_one_agent_are_heard_in_order() {
    let mut mesh = abc();
    assert_eq!(mesh.seed("A", task("first")), Ok(()));
    assert_eq!(mesh.seed("A", task("second")), Ok(()));
    assert_eq!(mesh.poll(0), Progress::Invoked);
    assert!(mesh.complete(0, Ok("one".to_string())));
    assert_eq!(mesh.poll(0), Progress::Invoked);
    assert!(mesh.complete(0, Ok("two".to_string())));
    for j in 1..3 {
        assert_eq!(queued(&mesh, j), 2);
        assert_eq!(mesh.poll(j), Progress::Advanced);
        assert_eq!(history(&mesh, j), vec!["From A: one".to_string()]);
        assert_eq!(mesh.poll(j), Progress::Advanced);
        assert_eq!(
            history(&mesh, j),
            vec!["From A: one".to_string(), "From A: two".to_string()]
        );
    }
}

#[test]
fn broadcast_to_a_terminated_peer_fails_silently() {
    let mut mesh = abc();
    assert_eq!(mesh.seed("B", AgentMessage::Shutdown), Ok(()));
    assert_eq!(mesh.poll(1), Progress::Halted);
    assert_eq!(mesh.seed("A", task("t")), Ok(()));
    assert_eq!(mesh.poll(0), Progress::Invoked);
    assert!(mesh.complete(0, Ok("r".to_string())));
    assert_eq!(mesh.unsent(0), 0);
    assert_eq!(queued(&mesh, 1), 0);
    assert_eq!(queued(&mesh, 2), 1);
    assert_eq!(mesh.poll(2), Progress::Advanced);
    assert_eq!(history(&mesh, 2), vec!["From A: r".to_string()]);
    assert!(history(&mesh, 1).is_empty());
    assert_eq!(history(&mesh, 0), vec!["Task: t | Result: r".to_string()]);
}

#[test]
fn full_peer_mailbox_suspends_the_sender_until_there_is_room() {
    let mut mesh = abc();
    for k in 0..MAILBOX_CAPACITY {
        assert_eq!(mesh.seed("B", AgentMessage::Response("X".to_string(), format!("{}", k))), Ok(()));
    }
    assert_eq!(mesh.seed("A", task("t")), Ok(()));
    assert_eq!(mesh.seed("A", AgentMessage::Response("X".to_string(), "queued".to_string())), Ok(()));
    assert_eq!(mesh.poll(0), Progress::Invoked);
    assert!(mesh.complete(0, Ok("r".to_string())));

    assert_eq!(mesh.unsent(0), 2);
    assert_eq!(queued(&mesh, 1), MAILBOX_CAPACITY);
    assert_eq!(queued(&mesh, 2), 0);
    assert_eq!(mesh.poll(0), Progress::Blocked);
    assert_eq!(queued(&mesh, 0), 1);
    assert!(!mesh.tick(0));
    assert_eq!(history(&mesh, 0), vec!["Task: t | Result: r".to_string()]);

    assert_eq!(mesh.poll(1), Progress::Advanced);
    assert_eq!(mesh.poll(0), Progress::Advanced);
    assert_eq!(mesh.unsent(0), 0);
    assert_eq!(queued(&mesh, 1), MAILBOX_CAPACITY);
    assert_eq!(queued(&mesh, 2), 1);

    assert_eq!(mesh.poll(0), Progress::Advanced);
    assert_eq!(
        history(&mesh, 0),
        vec!["Task: t | Result: r".to_string(), "From X: queued".to_string()]
    );
    for _ in 0..MAILBOX_CAPACITY - 1 {
        assert_eq!(mesh.poll(1), Progress::Advanced);
    }
    assert_eq!(queued(&mesh, 1), 1);
    assert_eq!(mesh.poll(1), Progress::Advanced);
    assert_eq!(history(&mesh, 1).len(), MAILBOX_CAPACITY + 1);
    assert_eq!(history(&mesh, 1)[MAILBOX_CAPACITY], "From A: r".to_string());
    assert_eq!(history(&mesh, 1)[0], "From X: 0".to_string());
}

#[test]
fn flush_on_an_agent_with_nothing_to_send_changes_nothing() {
    let mut mesh = abc();
    mesh.flush(0);
    mesh.flush(7);
    for i in 0..3 {
        assert_eq!(queued(&mesh, i), 0);
        assert_eq!(mesh.unsent(i), 0);
    }
}

#[test]
fn turns_on_an_absent_agent_do_nothing() {
    let mut mesh = abc();
    assert_eq!(mesh.poll(3), Progress::Absent);
    assert!(!mesh.tick(3));
    assert!(!mesh.complete(3, Ok("r".to_string())));
    assert!(mesh.pending_call(3).is_none());
    assert_eq!(mesh.unsent(3), 0);
}

#[test]
fn outcome_without_a_call_is_ignored() {
    let mut mesh = abc();
    assert!(!mesh.complete(0, Ok("r".to_string())));
    assert!(history(&mesh, 0).is_empty());
    assert_eq!(queued(&mesh, 1), 0);
    assert_eq!(queued(&mesh, 2), 0);
}

#[test]
fn responses_never_echo_around_the_mesh() {
    let mut mesh = abc();
    assert_eq!(mesh.seed("A", task("t")), Ok(()));
    assert_eq!(mesh.poll(0), Progress::Invoked);
    assert!(mesh.complete(0, Ok("r".to_string())));
    let mut turns = 0;
    loop {
        let mut progressed = false;
        for i in 0..3 {
            match mesh.poll(i) {
                Progress::Idle => {}
                Progress::Advanced => progressed = true,
                other => panic!("unexpected {:?}", other),
            }
        }
        turns += 1;
        if !progressed {
            break;
        }
    }
    assert_eq!(turns, 2);
    assert_eq!(history(&mesh, 0), vec!["Task: t | Result: r".to_string()]);
    assert_eq!(history(&mesh, 1), vec!["From A: r".to_string()]);
    assert_eq!(history(&mesh, 2), vec!["From A: r".to_string()]);
}

#[test]
fn completed_task_reaches_every_peer_and_never_its_author() {
    let ids = names(&["n0", "n1", "n2", "n3", "n4"]);
    for author in 0..5 {
        let mut mesh = Mesh::spawn(&ids).unwrap();
        assert_eq!(mesh.seed(&ids[author], task("work")), Ok(()));
        assert_eq!(mesh.poll(author), Progress::Invoked);
        assert!(mesh.complete(author, Ok("done".to_string())));
        for j in 0..5 {
            if j == author {
                assert_eq!(queued(&mesh, j), 0);
                assert_eq!(mesh.poll(j), Progress::Idle);
                assert_eq!(history(&mesh, j), vec!["Task: work | Result: done".to_string()]);
            } else {
                assert_eq!(queued(&mesh, j), 1);
                assert_eq!(mesh.poll(j), Progress::Advanced);
                assert_eq!(history(&mesh, j), vec![format!("From n{}: done", author)]);
                assert_eq!(mesh.unsent(j), 0);
                assert!(mesh.pending_call(j).is_none());
            }
        }
        for j in 0..5 {
            assert_eq!(mesh.poll(j), Progress::Idle);
        }
    }
}

#[test]
fn response_behind_queued_mail_is_heard_after_it() {
    let mut mesh = abc();
    assert_eq!(mesh.seed("B", AgentMessage::Response("X".to_string(), "one".to_string())), Ok(()));
    assert_eq!(mesh.seed("B", AgentMessage::Response("X".to_string(), "two".to_string())), Ok(()));
    assert_eq!(mesh.seed("A", task("t")), Ok(()));
    assert_eq!(mesh.poll(0), Progress::Invoked);
    assert!(mesh.complete(0, Ok("r".to_string())));
    assert_eq!(queued(&mesh, 1), 3);
    assert_eq!(mesh.poll(1), Progress::Advanced);
    assert_eq!(mesh.poll(1), Progress::Advanced);
    assert_eq!(history(&mesh, 1), vec!["From X: one".to_string(), "From X: two".to_string()]);
    assert_eq!(mesh.poll(1), Progress::Advanced);
    assert_eq!(
        history(&mesh, 1),
        vec!["From X: one".to_string(), "From X: two".to_string(), "From A: r".to_string()]
    );
}

#[test]
fn find_identity_gives_the_first_match() {
    let ids = names(&["Tom", "Richard", "Harry", "Richard"]);
    assert_eq!(find_identity(&ids, "Tom"), Some(0));
    assert_eq!(find_identity(&ids, "Richard"), Some(1));
    assert_eq!(find_identity(&ids, "Harry"), Some(2));
    assert_eq!(find_identity(&ids, "harry"), None);
    assert_eq!(find_identity(&ids, "Tom "), None);
    assert_eq!(find_identity(&names(&[]), "Tom"), None);
}
