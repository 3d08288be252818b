//! Slots whose content can be taken out and substituted: a value, a named
//! placeholder left where a value was borrowed, or nothing.

use vstd::prelude::*;

verus! {

/// A name left behind where a value was taken: a message, a static label,
/// or a source location.
pub enum Key {
    String(String),
    Slice(&'static str),
    Info(&'static str, u32),
}

/// Anything that can name a placeholder.
pub trait ToKey: Sized {
    /// The key this value names.
    spec fn spec_key(self) -> Key;

    fn to_key(self) -> (r: Key)
        ensures
            r == self.spec_key(),
    ;
}

impl ToKey for String {
    open spec fn spec_key(self) -> Key {
        Key::String(self)
    }

    fn to_key(self) -> (r: Key)
    {
        Key::String(self)
    }
}

impl ToKey for &'static str {
    open spec fn spec_key(self) -> Key {
        Key::Slice(self)
    }

    fn to_key(self) -> (r: Key)
    {
        Key::Slice(self)
    }
}

impl ToKey for (&'static str, u32) {
    open spec fn spec_key(self) -> Key {
        Key::Info(self.0, self.1)
    }

    fn to_key(self) -> (r: Key)
    {
        Key::Info(self.0, self.1)
    }
}

/// A slot holding a value, a named placeholder, or nothing.
pub enum Placeholder<T> {
    Content(T),
    Placeholder(Key),
    Empty,
}

impl<T> Placeholder<T> {
    /// Move the slot's state out, leaving nothing.
    pub fn take(&mut self) -> (r: Placeholder<T>)
        ensures
            r == *old(self),
            *final(self) is Empty,
    {
        let mut out: Placeholder<T> = Placeholder::Empty;
        core::mem::swap(&mut out, self);
        out
    }

    /// Put a value in, returning what was there.
    pub fn replace(&mut self, value: T) -> (r: Placeholder<T>)
        ensures
            r == *old(self),
            *final(self) == Placeholder::Content(value),
    {
        let mut out: Placeholder<T> = Placeholder::Content(value);
        core::mem::swap(&mut out, self);
        out
    }

    /// Take the state out, leaving behind a placeholder named by the key
    /// made from the argument.
    pub fn get<K: ToKey>(&mut self, key: K) -> (r: Placeholder<T>)
        ensures
            r == *old(self),
            *final(self) == Placeholder::<T>::Placeholder(key.spec_key()),
    {
        let mut out: Placeholder<T> = Placeholder::Placeholder(key.to_key());
        core::mem::swap(&mut out, self);
        out
    }
}

} // verus!
