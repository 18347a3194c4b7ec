//! The table of registered commands.
//!
//! A registry maps command names to handlers. A name is registered at most
//! once: a second registration under the same name is refused and leaves the
//! table as it was. Names are compared exactly, character by character.
//!
//! The registry is a plain value. An application that registers and looks up
//! from several threads keeps it behind a lock of its own.

use vstd::prelude::*;
use vstd::hash_map::StringHashMap;

verus! {

/// Why a registration was refused.
#[derive(Debug)]
pub enum RegistrationError {
    /// The name is taken; `name` is the name that was asked for.
    AlreadyRegistered { name: String },
}

impl RegistrationError {
    /// The command name that the refused registration asked for.
    pub fn name(&self) -> (name: &str)
        ensures
            name@ == self->name@,
    {
        match self {
            RegistrationError::AlreadyRegistered { name } => name.as_str(),
        }
    }
}

/// A table from command name to handler, of type `H`.
///
/// Its view is the map from each registered name to its handler.
#[verifier::reject_recursive_types(H)]
pub struct CommandRegistry<H> {
    commands: StringHashMap<H>,
}

impl<H> View for CommandRegistry<H> {
    type V = Map<Seq<char>, H>;

    closed spec fn view(&self) -> Map<Seq<char>, H> {
        self.commands@
    }
}

impl<H> CommandRegistry<H> {
    /// An empty registry.
    pub fn new() -> (registry: Self)
        ensures
            registry@ == Map::<Seq<char>, H>::empty(),
    {
        CommandRegistry { commands: StringHashMap::new() }
    }

    /// Registers `handler` under `name`.
    ///
    /// A free name is taken and every other entry stays as it was. A name
    /// that is taken already is refused: the registry is left unchanged and
    /// the handler is dropped.
    pub fn register(&mut self, name: &str, handler: H) -> (res: Result<(), RegistrationError>)
        ensures
            match res {
                Ok(_) => !old(self)@.contains_key(name@) && final(self)@ == old(self)@.insert(
                    name@,
                    handler,
                ),
                Err(e) => old(self)@.contains_key(name@) && final(self)@ == old(self)@ && e
                    == (RegistrationError::AlreadyRegistered { name: e->name }) && e->name@
                    == name@,
            },
    {
        if self.commands.contains_key(name) {
            return Err(RegistrationError::AlreadyRegistered { name: name.to_owned() });
        }
        self.commands.insert(name.to_owned(), handler);
        Ok(())
    }

    /// The handler registered under `name`, if there is one.
    pub fn lookup(&self, name: &str) -> (found: Option<&H>)
        ensures
            match found {
                Some(handler) => self@.contains_key(name@) && *handler == self@[name@],
                None => !self@.contains_key(name@),
            },
    {
        self.commands.get(name)
    }

    /// Whether a handler is registered under `name`.
    pub fn contains(&self, name: &str) -> (found: bool)
        ensures
            found == self@.contains_key(name@),
    {
        self.commands.contains_key(name)
    }

    /// The number of registered commands.
    pub fn len(&self) -> (count: usize)
        ensures
            count == self@.len(),
    {
        self.commands.len()
    }

    /// Whether no command is registered.
    pub fn is_empty(&self) -> (empty: bool)
        ensures
            empty == self@.is_empty(),
    {
        self.commands.is_empty()
    }
}

} // verus!
