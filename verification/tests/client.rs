use command_dispatch::client::{failure_of, ConfigError, Dispatch, SerenityDiscordClient};
use std::cell::RefCell;
use std::rc::Rc;

/// A handler that counts its invocations, keeps what it was handed and
/// answers with a fixed reply, or fails.
struct Recorder {
    reply: Option<&'static str>,
    calls: Vec<(String, u64)>,
}

impl Recorder {
    fn replying(reply: &'static str) -> Rc<RefCell<Recorder>> {
        Rc::new(RefCell::new(Recorder { reply: Some(reply), calls: Vec::new() }))
    }

    fn failing() -> Rc<RefCell<Recorder>> {
        Rc::new(RefCell::new(Recorder { reply: None, calls: Vec::new() }))
    }

    fn process(&mut self, text: &str, conversation_id: u64, reply: &dyn Fn(&str)) -> Result<(), String> {
        self.calls.push((String::from(text), conversation_id));
        match self.reply {
            Some(answer) => {
                reply(answer);
                Ok(())
            }
            None => Err(String::from("handler failed")),
        }
    }
}

/// Dispatches one message as an application would: asks the client, invokes
/// the handler that it names, and collects replies and failures.
fn deliver(
    client: &SerenityDiscordClient<Rc<RefCell<Recorder>>>,
    text: &str,
    conversation_id: u64,
    sent: &RefCell<Vec<(u64, String)>>,
    failures: &mut Vec<String>,
) {
    if let Dispatch::Invoke { handler, text, conversation_id } = client.on_message(text, conversation_id) {
        let outcome = handler.borrow_mut().process(text, conversation_id, &|reply| {
            sent.borrow_mut().push((conversation_id, String::from(reply)))
        });
        if let Some(error) = failure_of(outcome) {
            failures.push(error);
        }
    }
}

#[test]
fn a_new_client_answers_to_the_exclamation_mark() {
    let client: SerenityDiscordClient<u32> = SerenityDiscordClient::new();
    assert_eq!(client.prefix(), "!");
    assert!(client.lookup("ping").is_none());
}

#[test]
fn a_client_can_answer_to_another_prefix() {
    let mut client: SerenityDiscordClient<u32> = SerenityDiscordClient::with_prefix("?").ok().unwrap();
    assert_eq!(client.prefix(), "?");
    client.register_command("ping", 7).unwrap();
    assert_eq!(client.get_command_name("?ping"), Some(String::from("ping")));
    assert_eq!(client.get_command_name("!ping"), None);
    assert!(matches!(client.on_message("?ping", 1), Dispatch::Invoke { handler: &7, .. }));
    assert!(matches!(client.on_message("!ping", 1), Dispatch::NotACommand));
}

#[test]
fn an_empty_prefix_is_refused() {
    let refused = SerenityDiscordClient::<u32>::with_prefix("");
    assert_eq!(refused.err(), Some(ConfigError::EmptyPrefix));
}

#[test]
fn a_command_is_registered_once() {
    let mut client: SerenityDiscordClient<u32> = SerenityDiscordClient::new();
    assert!(client.register_command("ping", 1).is_ok());
    let refused = client.register_command("ping", 2);
    assert_eq!(refused.unwrap_err().name(), "ping");
    assert_eq!(client.lookup("ping"), Some(&1));
    assert!(matches!(client.on_message("!ping", 5), Dispatch::Invoke { handler: &1, .. }));
}

#[test]
fn ping_is_answered_with_pong_in_the_same_conversation() {
    let mut client = SerenityDiscordClient::new();
    let ping = Recorder::replying("pong");
    client.register_command("ping", ping.clone()).unwrap();
    let sent = RefCell::new(Vec::new());
    let mut failures = Vec::new();

    deliver(&client, "!ping", 42, &sent, &mut failures);
    assert_eq!(*sent.borrow(), vec![(42u64, String::from("pong"))]);
    assert_eq!(ping.borrow().calls.len(), 1);

    deliver(&client, "!pong", 42, &sent, &mut failures);
    assert_eq!(sent.borrow().len(), 1);
    assert_eq!(ping.borrow().calls.len(), 1);
    assert!(failures.is_empty());
}

#[test]
fn an_unregistered_command_reaches_no_handler() {
    let mut client = SerenityDiscordClient::new();
    let ping = Recorder::replying("pong");
    client.register_command("ping", ping.clone()).unwrap();
    match client.on_message("!pong now", 9) {
        Dispatch::UnknownCommand { name } => assert_eq!(name, "pong"),
        _ => panic!("an unknown command was not told apart"),
    }
    assert!(matches!(client.on_message("ping", 9), Dispatch::NotACommand));
    assert!(matches!(client.on_message("!", 9), Dispatch::NotACommand));
    assert!(matches!(client.on_message("", 9), Dispatch::NotACommand));
    let sent = RefCell::new(Vec::new());
    let mut failures = Vec::new();
    deliver(&client, "!pong now", 9, &sent, &mut failures);
    deliver(&client, "ping", 9, &sent, &mut failures);
    deliver(&client, "!Ping", 9, &sent, &mut failures);
    assert!(sent.borrow().is_empty());
    assert!(ping.borrow().calls.is_empty());
}

#[test]
fn the_handler_gets_the_whole_text_and_the_conversation() {
    let mut client = SerenityDiscordClient::new();
    let pic = Recorder::replying("here");
    let other = Recorder::replying("there");
    client.register_command("pic", pic.clone()).unwrap();
    client.register_command("辞書", other.clone()).unwrap();
    match client.on_message("!pic ももよ まじこい", 77) {
        Dispatch::Invoke { handler, text, conversation_id } => {
            assert!(Rc::ptr_eq(handler, &pic));
            assert_eq!(text, "!pic ももよ まじこい");
            assert_eq!(conversation_id, 77);
        }
        _ => panic!("a registered command was not dispatched"),
    }
    let sent = RefCell::new(Vec::new());
    let mut failures = Vec::new();
    deliver(&client, "!pic ももよ まじこい", 77, &sent, &mut failures);
    deliver(&client, "!辞書 勉強", 78, &sent, &mut failures);
    assert_eq!(pic.borrow().calls, vec![(String::from("!pic ももよ まじこい"), 77u64)]);
    assert_eq!(other.borrow().calls, vec![(String::from("!辞書 勉強"), 78u64)]);
    assert_eq!(
        *sent.borrow(),
        vec![(77u64, String::from("here")), (78u64, String::from("there"))]
    );
}

#[test]
fn a_failed_handler_leaves_later_messages_alone() {
    let mut client = SerenityDiscordClient::new();
    let broken = Recorder::failing();
    let ping = Recorder::replying("pong");
    client.register_command("broken", broken.clone()).unwrap();
    client.register_command("ping", ping.clone()).unwrap();
    let sent = RefCell::new(Vec::new());
    let mut failures = Vec::new();

    deliver(&client, "!broken", 1, &sent, &mut failures);
    assert_eq!(failures, vec![String::from("handler failed")]);
    assert!(sent.borrow().is_empty());

    deliver(&client, "!ping", 2, &sent, &mut failures);
    deliver(&client, "!broken again", 3, &sent, &mut failures);
    assert_eq!(*sent.borrow(), vec![(2u64, String::from("pong"))]);
    assert_eq!(failures.len(), 2);
    assert_eq!(broken.borrow().calls.len(), 2);
    assert_eq!(ping.borrow().calls.len(), 1);
}

#[test]
fn only_a_failure_is_reported() {
    assert_eq!(failure_of::<String>(Ok(())), None);
    assert_eq!(failure_of(Err(String::from("no"))), Some(String::from("no")));
    assert_eq!(failure_of(Err(3u8)), Some(3u8));
}
