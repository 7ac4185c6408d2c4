use executor::actor::{
    evaluate, process_buffer, process_command, run_cycle, ControlSignal, Registry, RunState,
};
use executor::codec::decode;
use executor::directory::Directory;
use executor::mailbox::{create, receive_with_timeout};
use executor::model::{MessageType, SystemCommand, SystemMessage};

fn expect_reply(registry: &Registry, handle: &executor::actor::ActorHandle) -> SystemMessage {
    let buffer = receive_with_timeout(&handle.receiver, 200).expect("a reply should be queued");
    let _ = registry;
    decode(&buffer).expect("replies are well formed envelopes")
}

#[test]
fn start_actor_exactly_once_test() {
    let registry = Registry::new();
    let first = registry.start_actor(String::from("arnold"));
    assert!(first.is_ok());
    let second = registry.start_actor(String::from("arnold"));
    let err = second.err().expect("a second start of the same name fails");
    assert_eq!("worker with name: arnold already has been started.", err.message);
    let other = registry.start_actor(String::from("silvester"));
    assert!(other.is_ok());
}

#[test]
fn directory_register_test() {
    let mut directory = Directory::new();
    let (handler_a, _receiver_a) = create();
    assert!(directory.register(String::from("a"), handler_a).is_ok());
    assert!(directory.contains_name(&String::from("a")));
    assert!(!directory.contains_name(&String::from("b")));
    assert!(directory.lookup(&String::from("a")).is_some());
    assert!(directory.lookup(&String::from("b")).is_none());
    let (handler_dup, _receiver_dup) = create();
    let err = directory.register(String::from("a"), handler_dup).err().expect("duplicate");
    assert_eq!("worker with name: a already has been started.", err.message);
    assert!(directory.lookup(&String::from("a")).is_some());
}

#[test]
fn evaluate_table_test() {
    assert_eq!(
        (Some(SystemCommand::Pong), ControlSignal::Break),
        evaluate(&SystemCommand::Ping)
    );
    assert_eq!((None, ControlSignal::Break), evaluate(&SystemCommand::Pong));
    assert_eq!(
        (Some(SystemCommand::Sequence(123)), ControlSignal::Continue),
        evaluate(&SystemCommand::Ack)
    );
    assert_eq!((None, ControlSignal::Continue), evaluate(&SystemCommand::NoAck));
    assert_eq!(
        (Some(SystemCommand::Okay), ControlSignal::Break),
        evaluate(&SystemCommand::HealthCheck)
    );
    assert_eq!((None, ControlSignal::Break), evaluate(&SystemCommand::Okay));
    assert_eq!((None, ControlSignal::Break), evaluate(&SystemCommand::Failed));
    assert_eq!((None, ControlSignal::Continue), evaluate(&SystemCommand::Sequence(7)));
}

#[test]
fn ping_ack_health_scenario_test() {
    let registry = Registry::new();
    let a = registry.start_actor(String::from("A")).expect("fresh name");
    let b = registry.start_actor(String::from("B")).expect("fresh name");

    registry.exchange_command(String::from("A"), String::from("B"), SystemCommand::Ping);
    let state = run_cycle("B", &b.receiver, &registry);
    assert_eq!(RunState::Waiting, state);
    let reply = expect_reply(&registry, &a);
    assert_eq!("B", reply.from);
    assert_eq!(Some(SystemCommand::Pong), reply.command);
    assert!(matches!(reply.message_type, MessageType::Command));

    registry.exchange_command(String::from("A"), String::from("B"), SystemCommand::Ack);
    assert_eq!(RunState::Waiting, run_cycle("B", &b.receiver, &registry));
    let reply = expect_reply(&registry, &a);
    assert_eq!("B", reply.from);
    assert_eq!(Some(SystemCommand::Sequence(123)), reply.command);

    registry.exchange_command(String::from("A"), String::from("B"), SystemCommand::HealthCheck);
    assert_eq!(RunState::Waiting, run_cycle("B", &b.receiver, &registry));
    let reply = expect_reply(&registry, &a);
    assert_eq!("B", reply.from);
    assert_eq!(Some(SystemCommand::Okay), reply.command);
}

#[test]
fn silent_commands_produce_no_reply_test() {
    let registry = Registry::new();
    let a = registry.start_actor(String::from("alpha")).expect("fresh name");
    let b = registry.start_actor(String::from("beta")).expect("fresh name");

    registry.exchange_command(String::from("alpha"), String::from("beta"), SystemCommand::NoAck);
    registry.exchange_command(String::from("alpha"), String::from("beta"), SystemCommand::Pong);
    registry.exchange_command(
        String::from("alpha"),
        String::from("beta"),
        SystemCommand::Sequence(9),
    );
    assert_eq!(RunState::Waiting, run_cycle("beta", &b.receiver, &registry));
    assert_eq!(RunState::Waiting, run_cycle("beta", &b.receiver, &registry));
    assert_eq!(RunState::Waiting, run_cycle("beta", &b.receiver, &registry));
    assert!(receive_with_timeout(&a.receiver, 100).is_none());
}

#[test]
fn unknown_destination_is_a_no_op_test() {
    let registry = Registry::new();
    let a = registry.start_actor(String::from("known")).expect("fresh name");
    registry.exchange_command(String::from("known"), String::from("ghost"), SystemCommand::Ping);
    registry.exchange_message(
        String::from("known"),
        String::from("ghost"),
        String::from("hello"),
        None,
        MessageType::Request,
    );
    assert!(receive_with_timeout(&a.receiver, 100).is_none());
    let again = registry.start_actor(String::from("known"));
    assert!(again.is_err());
}

#[test]
fn exchange_message_delivers_payload_test() {
    let registry = Registry::new();
    let _a = registry.start_actor(String::from("from-side")).expect("fresh name");
    let b = registry.start_actor(String::from("to-side")).expect("fresh name");
    registry.exchange_message(
        String::from("from-side"),
        String::from("to-side"),
        String::from("correct"),
        Some(String::from("123")),
        MessageType::Request,
    );
    let buffer = receive_with_timeout(&b.receiver, 200).expect("the payload should be queued");
    let message = decode(&buffer).expect("well formed");
    assert_eq!("from-side", message.from);
    assert_eq!(Some(String::from("123")), message.correlation_id);
    assert_eq!(Some("correct".as_bytes().to_vec()), message.payload);
    assert!(message.command.is_none());
}

#[test]
fn garbage_terminates_loop_test() {
    let registry = Registry::new();
    let (handler, receiver) = create();
    handler.send(vec![1, 2, 3, 4]);
    assert_eq!(RunState::Terminated, run_cycle("orphan", &receiver, &registry));

    // A live, unrelated actor keeps answering after another one was retired.
    let a = registry.start_actor(String::from("sound")).expect("fresh name");
    let b = registry.start_actor(String::from("echo")).expect("fresh name");
    registry.exchange_command(String::from("sound"), String::from("echo"), SystemCommand::Ping);
    assert_eq!(RunState::Waiting, run_cycle("echo", &b.receiver, &registry));
    let reply = receive_with_timeout(&a.receiver, 200).expect("the live actor replied");
    let message = decode(&reply).expect("well formed");
    assert_eq!(Some(SystemCommand::Pong), message.command);
}

#[test]
fn process_buffer_reports_termination_test() {
    let registry = Registry::new();
    assert_eq!(
        RunState::Terminated,
        process_buffer("anyone", vec![255, 0, 9], &registry)
    );
    let fine = executor::codec::encode(&SystemMessage {
        from: String::from("someone"),
        payload: None,
        correlation_id: None,
        command: None,
        message_type: MessageType::Request,
    });
    assert_eq!(RunState::Waiting, process_buffer("anyone", fine, &registry));
}

#[test]
fn process_command_signal_test() {
    let registry = Registry::new();
    let signal = process_command(
        SystemCommand::Ping,
        "me",
        &String::from("caller"),
        &registry,
    );
    assert_eq!(ControlSignal::Break, signal);
    let signal = process_command(
        SystemCommand::Ack,
        "me",
        &String::from("caller"),
        &registry,
    );
    assert_eq!(ControlSignal::Continue, signal);
}

#[test]
fn run_cycle_timeout_keeps_waiting_test() {
    let registry = Registry::new();
    let h = registry.start_actor(String::from("idle")).expect("fresh name");
    assert_eq!(RunState::Waiting, run_cycle("idle", &h.receiver, &registry));
}

#[test]
fn ping_pong_test() {
    let registry = Registry::new();
    let arnold = "arnold".to_string();
    let silvester = "silvester".to_string();

    let arnold_handle = registry.start_actor(arnold.clone()).expect("fresh name");
    let silvester_handle = registry.start_actor(silvester.clone()).expect("fresh name");

    registry.exchange_command(silvester.clone(), arnold.clone(), SystemCommand::Ping);
    registry.exchange_command(silvester.clone(), arnold.clone(), SystemCommand::Ack);
    registry.exchange_command(silvester.clone(), arnold.clone(), SystemCommand::HealthCheck);

    let words = String::from("{\"words\":[\"correct\"]}");
    registry.exchange_message(
        silvester.clone(),
        arnold.clone(),
        words,
        Some("123".to_string()),
        MessageType::Request,
    );

    for _ in 0..4 {
        run_cycle(arnold.as_str(), &arnold_handle.receiver, &registry);
    }
    for _ in 0..3 {
        run_cycle(silvester.as_str(), &silvester_handle.receiver, &registry);
    }
}
