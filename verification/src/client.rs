//! The client's command table and its routing of inbound messages.
//!
//! A client answers to one prefix and holds the registry of commands. For
//! each inbound message it decides whether a handler is to be invoked, and
//! with what. Invoking the handler, sending its replies and reporting its
//! failure are left to the caller, so that no lock on the client is held
//! while a handler runs.

use vstd::prelude::*;
use vstd::string::*;
use crate::parser::{command_name, extract};
use crate::registry::{CommandRegistry, RegistrationError};

verus! {

/// Why a client could not be configured.
#[derive(Debug, PartialEq, Eq, Structural)]
pub enum ConfigError {
    /// The command prefix is empty.
    EmptyPrefix,
}

/// What is to be done with one inbound message.
pub enum Dispatch<'a, H> {
    /// The message carries no command.
    NotACommand,
    /// The message names a command that nobody registered.
    UnknownCommand { name: String },
    /// `handler` is to be invoked once, with the whole text of the message
    /// and the conversation that it came from.
    Invoke { handler: &'a H, text: &'a str, conversation_id: u64 },
}

impl<'a, H> Dispatch<'a, H> {
    /// The handler that is to be invoked, if any.
    pub open spec fn invoked(&self) -> Option<H> {
        match self {
            Dispatch::Invoke { handler, .. } => Some(**handler),
            _ => None,
        }
    }
}

/// The handler that a message with the text `text` goes to, for a client
/// that answers to `prefix` and holds `commands`.
pub open spec fn route<H>(
    prefix: Seq<char>,
    commands: Map<Seq<char>, H>,
    text: Seq<char>,
) -> Option<H> {
    match command_name(prefix, text) {
        Some(name) => if commands.contains_key(name) {
            Some(commands[name])
        } else {
            None
        },
        None => None,
    }
}

/// The table after an attempt to register `handler` under `name`: a taken
/// name leaves it as it was.
pub open spec fn registered<H>(
    commands: Map<Seq<char>, H>,
    name: Seq<char>,
    handler: H,
) -> Map<Seq<char>, H> {
    if commands.contains_key(name) {
        commands
    } else {
        commands.insert(name, handler)
    }
}

/// The table after attempts to register `handlers[i]` under `names[i]`, in
/// the order of `i`.
pub open spec fn registered_all<H>(
    commands: Map<Seq<char>, H>,
    names: Seq<Seq<char>>,
    handlers: Seq<H>,
) -> Map<Seq<char>, H>
    recommends
        names.len() == handlers.len(),
    decreases names.len(),
{
    if names.len() == 0 || handlers.len() == 0 {
        commands
    } else {
        registered(
            registered_all(commands, names.drop_last(), handlers.drop_last()),
            names.last(),
            handlers.last(),
        )
    }
}

/// A name is registered once. After an attempt to register under `name`
/// the name is taken, a second attempt changes nothing, and the handler
/// that held the name first still holds it.
pub proof fn lemma_second_registration_refused<H>(
    commands: Map<Seq<char>, H>,
    name: Seq<char>,
    first: H,
    second: H,
)
    ensures
        registered(commands, name, first).contains_key(name),
        registered(registered(commands, name, first), name, second) == registered(
            commands,
            name,
            first,
        ),
        !commands.contains_key(name) ==> registered(
            registered(commands, name, first),
            name,
            second,
        )[name] == first,
        commands.contains_key(name) ==> registered(commands, name, first) == commands,
{
}

/// A registration touches one name only: every other name is registered
/// afterwards exactly if it was before, with the same handler.
pub proof fn lemma_registration_keeps_others<H>(
    commands: Map<Seq<char>, H>,
    name: Seq<char>,
    handler: H,
    other: Seq<char>,
)
    requires
        other != name,
    ensures
        registered(commands, name, handler).contains_key(other) == commands.contains_key(other),
        commands.contains_key(other) ==> registered(commands, name, handler)[other]
            == commands[other],
{
}

/// Registrations under different names do not depend on their order.
pub proof fn lemma_registration_order<H>(
    commands: Map<Seq<char>, H>,
    name_a: Seq<char>,
    handler_a: H,
    name_b: Seq<char>,
    handler_b: H,
)
    requires
        name_a != name_b,
    ensures
        registered(registered(commands, name_a, handler_a), name_b, handler_b) == registered(
            registered(commands, name_b, handler_b),
            name_a,
            handler_a,
        ),
{
    assert(registered(registered(commands, name_a, handler_a), name_b, handler_b) =~= registered(
        registered(commands, name_b, handler_b),
        name_a,
        handler_a,
    ));
}

/// No registration is lost. After registrations under names that differ
/// from each other and from those already taken, each name leads to the
/// handler that came with it, and what was registered before is still there.
pub proof fn lemma_all_registered_retrievable<H>(
    commands: Map<Seq<char>, H>,
    names: Seq<Seq<char>>,
    handlers: Seq<H>,
)
    requires
        names.len() == handlers.len(),
        forall|i: int, j: int| 0 <= i < j < names.len() ==> names[i] != names[j],
        forall|i: int| 0 <= i < names.len() ==> !commands.contains_key(#[trigger] names[i]),
    ensures
        forall|i: int|
            0 <= i < names.len() ==> registered_all(commands, names, handlers).contains_key(
                #[trigger] names[i],
            ) && registered_all(commands, names, handlers)[names[i]] == handlers[i],
        forall|key: Seq<char>| #[trigger]
            commands.contains_key(key) ==> registered_all(commands, names, handlers).contains_key(
                key,
            ) && registered_all(commands, names, handlers)[key] == commands[key],
        forall|key: Seq<char>| #[trigger]
            registered_all(commands, names, handlers).contains_key(key) ==> commands.contains_key(
                key,
            ) || names.contains(key),
    decreases names.len(),
{
    if names.len() > 0 {
        let before = registered_all(commands, names.drop_last(), handlers.drop_last());
        lemma_all_registered_retrievable(commands, names.drop_last(), handlers.drop_last());
        let last = names.len() - 1;
        assert(!before.contains_key(names[last])) by {
            if before.contains_key(names[last]) {
                assert(names.drop_last().contains(names[last]));
                let j = choose|j: int|
                    0 <= j < names.drop_last().len() && names.drop_last()[j] == names[last];
                assert(names[j] == names[last]);
            }
        }
        assert forall|i: int| 0 <= i < names.len() implies registered_all(
            commands,
            names,
            handlers,
        ).contains_key(#[trigger] names[i]) && registered_all(commands, names, handlers)[names[i]]
            == handlers[i] by {
            if i < last {
                assert(names.drop_last()[i] == names[i]);
                assert(handlers.drop_last()[i] == handlers[i]);
            }
        }
        assert forall|key: Seq<char>| #[trigger]
            registered_all(commands, names, handlers).contains_key(
                key,
            ) implies commands.contains_key(key) || names.contains(key) by {
            if key == names[last] {
                assert(names[last] == key);
            } else if !commands.contains_key(key) {
                assert(before.contains_key(key));
                let j = choose|j: int|
                    0 <= j < names.drop_last().len() && names.drop_last()[j] == key;
                assert(names[j] == key);
            }
        }
    }
}

/// A message without a command, or with a command that is not registered,
/// goes to no handler.
pub proof fn lemma_unregistered_not_routed<H>(
    prefix: Seq<char>,
    commands: Map<Seq<char>, H>,
    text: Seq<char>,
)
    requires
        command_name(prefix, text) matches Some(name) ==> !commands.contains_key(name),
    ensures
        route(prefix, commands, text) is None,
{
}

/// A message whose command is registered goes to the handler registered
/// under that name, and to no other.
pub proof fn lemma_registered_routed<H>(
    prefix: Seq<char>,
    commands: Map<Seq<char>, H>,
    text: Seq<char>,
    name: Seq<char>,
)
    requires
        command_name(prefix, text) == Some(name),
        commands.contains_key(name),
    ensures
        route(prefix, commands, text) == Some(commands[name]),
{
}

/// Registering a command changes the routing of the messages that carry
/// its name, and of no others.
pub proof fn lemma_registration_keeps_routes<H>(
    prefix: Seq<char>,
    commands: Map<Seq<char>, H>,
    name: Seq<char>,
    handler: H,
    text: Seq<char>,
)
    requires
        command_name(prefix, text) != Some(name),
    ensures
        route(prefix, registered(commands, name, handler), text) == route(prefix, commands, text),
{
}

/// A chat client's command side: the prefix that it answers to and the
/// commands registered with it.
#[verifier::reject_recursive_types(H)]
pub struct SerenityDiscordClient<H> {
    command_callbacks: CommandRegistry<H>,
    command_prefix: String,
}

impl<H> SerenityDiscordClient<H> {
    #[verifier::type_invariant]
    spec fn well_formed(&self) -> bool {
        self.command_prefix@.len() > 0
    }

    /// The prefix that marks a message as a command.
    pub closed spec fn prefix_view(&self) -> Seq<char> {
        self.command_prefix@
    }

    /// The registered commands, by name.
    pub closed spec fn commands(&self) -> Map<Seq<char>, H> {
        self.command_callbacks@
    }

    /// A client without commands that answers to `!`.
    pub fn new() -> (client: Self)
        ensures
            client.prefix_view() == seq!['!'],
            client.commands() == Map::<Seq<char>, H>::empty(),
    {
        proof {
            reveal_strlit("!");
        }
        let command_prefix = "!".to_owned();
        assert(command_prefix@ =~= seq!['!']);
        SerenityDiscordClient { command_callbacks: CommandRegistry::new(), command_prefix }
    }

    /// A client without commands that answers to `prefix`, which must not
    /// be empty.
    pub fn with_prefix(prefix: &str) -> (res: Result<Self, ConfigError>)
        ensures
            match res {
                Ok(client) => prefix@.len() > 0 && client.prefix_view() == prefix@
                    && client.commands() == Map::<Seq<char>, H>::empty(),
                Err(e) => prefix@.len() == 0 && e == ConfigError::EmptyPrefix,
            },
    {
        if prefix.unicode_len() == 0 {
            return Err(ConfigError::EmptyPrefix);
        }
        Ok(
            SerenityDiscordClient {
                command_callbacks: CommandRegistry::new(),
                command_prefix: prefix.to_owned(),
            },
        )
    }

    /// The prefix that marks a message as a command. It is never empty.
    pub fn prefix(&self) -> (prefix: &str)
        ensures
            prefix@ == self.prefix_view(),
            prefix@.len() > 0,
    {
        proof {
            use_type_invariant(self);
        }
        self.command_prefix.as_str()
    }

    /// Registers `command_handler` under the name `command`.
    ///
    /// A name that is taken is refused, and the handler registered first
    /// stays in place.
    pub fn register_command(&mut self, command: &str, command_handler: H) -> (res: Result<
        (),
        RegistrationError,
    >)
        ensures
            final(self).prefix_view() == old(self).prefix_view(),
            final(self).commands() == registered(old(self).commands(), command@, command_handler),
            res is Ok <==> !old(self).commands().contains_key(command@),
            res matches Err(e) ==> e == (RegistrationError::AlreadyRegistered { name: e->name })
                && e->name@ == command@,
    {
        proof {
            use_type_invariant(&*self);
        }
        // The table is taken out while it changes and put back afterwards.
        let mut table: CommandRegistry<H> = CommandRegistry::new();
        std::mem::swap(&mut table, &mut self.command_callbacks);
        let res = table.register(command, command_handler);
        std::mem::swap(&mut table, &mut self.command_callbacks);
        res
    }

    /// The handler registered under `name`, if there is one.
    pub fn lookup(&self, name: &str) -> (found: Option<&H>)
        ensures
            match found {
                Some(handler) => self.commands().contains_key(name@) && *handler
                    == self.commands()[name@],
                None => !self.commands().contains_key(name@),
            },
    {
        self.command_callbacks.lookup(name)
    }

    /// The command name that `full_command` carries under this client's
    /// prefix, if any.
    pub fn get_command_name(&self, full_command: &str) -> (name: Option<String>)
        ensures
            match name {
                Some(n) => command_name(self.prefix_view(), full_command@) == Some(n@),
                None => command_name(self.prefix_view(), full_command@) is None,
            },
    {
        extract(self.command_prefix.as_str(), full_command)
    }

    /// Decides what to do with a message of the text `text` that arrived in
    /// the conversation `conversation_id`.
    ///
    /// A message without a command, or with a command that nobody
    /// registered, is ignored. Otherwise the handler registered under the
    /// command's name is to be invoked, once, with the text as it arrived
    /// and the same conversation. The client itself is not changed.
    pub fn on_message<'a>(&'a self, text: &'a str, conversation_id: u64) -> (dispatch: Dispatch<
        'a,
        H,
    >)
        ensures
            dispatch.invoked() == route(self.prefix_view(), self.commands(), text@),
            match dispatch {
                Dispatch::NotACommand => command_name(self.prefix_view(), text@) is None,
                Dispatch::UnknownCommand { name } => command_name(self.prefix_view(), text@)
                    == Some(name@) && !self.commands().contains_key(name@),
                Dispatch::Invoke { handler, text: handed, conversation_id: conversation } => {
                    &&& command_name(self.prefix_view(), text@) is Some
                    &&& self.commands().contains_key(
                        command_name(self.prefix_view(), text@).unwrap(),
                    )
                    &&& *handler == self.commands()[command_name(
                        self.prefix_view(),
                        text@,
                    ).unwrap()]
                    &&& handed@ == text@
                    &&& conversation == conversation_id
                },
            },
    {
        match self.get_command_name(text) {
            None => Dispatch::NotACommand,
            Some(name) => match self.command_callbacks.lookup(name.as_str()) {
                None => Dispatch::UnknownCommand { name },
                Some(handler) => Dispatch::Invoke { handler, text, conversation_id },
            },
        }
    }
}

/// What is left to do once an invoked handler has returned: to report its
/// error, if it failed.
///
/// Nothing else follows from a failure. It reaches neither the client nor
/// the conversation, and the next message is dispatched like any other.
pub fn failure_of<E>(outcome: Result<(), E>) -> (report: Option<E>)
    ensures
        report == match outcome {
            Ok(_) => None::<E>,
            Err(error) => Some(error),
        },
{
    match outcome {
        Ok(_) => None,
        Err(error) => Some(error),
    }
}

} // verus!
