use vstd::prelude::*;

verus! {

/// An append did not fit: carries back the rejected input.
#[derive(Debug, Clone, Copy)]
pub struct CapacityError<T> {
    pub element: T,
}

impl<T> CapacityError<T> {
    /// Wrap the rejected input.
    pub fn new(element: T) -> (r: Self)
        ensures
            r.element == element,
    {
        CapacityError { element }
    }

    /// The input that did not fit.
    pub fn element(self) -> (r: T)
        ensures
            r == self.element,
    {
        self.element
    }
}

/// A raw buffer handed to a constructor was not valid UTF-8.
#[derive(Debug, Clone, Copy, PartialEq, Eq, Structural)]
pub struct InvalidEncoding;

/// Why text from a serialized form could not become a value.
#[derive(Debug, Clone, Copy, PartialEq, Eq, Structural)]
pub enum DecodeError {
    /// The text is `len` bytes long, more than the `capacity` of the type.
    InvalidLength { len: usize, capacity: usize },
    /// The bytes are not UTF-8, or the text holds a NUL character.
    InvalidValue,
}

} // verus!
