use vstd::prelude::*;
use vstd::std_specs::convert::{FromSpec, FromSpecImpl};

verus! {

/// A nullable owning pointer in the spirit of a C pointer: either nil or a boxed value.
#[derive(Debug, Clone, PartialEq, Eq, Default)]
pub struct Mbox<T>(pub Option<Box<T>>);

impl<T> View for Mbox<T> {
    /// The pointee, if any.
    type V = Option<T>;

    open spec fn view(&self) -> Option<T> {
        match self.0 {
            Some(b) => Some(*b),
            None => None,
        }
    }
}

impl<T> Mbox<T> {
    /// The nil pointer.
    pub fn nil() -> (r: Self)
        ensures
            r@ == None::<T>,
    {
        Self(None)
    }

    /// A pointer to `value`.
    pub fn new(value: T) -> (r: Self)
        ensures
            r@ == Some(value),
    {
        Self(Some(Box::new(value)))
    }

    /// Whether the pointer is nil.
    pub fn is_nil(&self) -> (r: bool)
        ensures
            r == (self@ is None),
    {
        self.0.is_none()
    }

    /// Borrows the pointee, if any.
    pub fn as_ref(&self) -> (r: Option<&T>)
        ensures
            match r {
                Some(v) => self@ == Some(*v),
                None => self@ is None,
            },
    {
        match &self.0 {
            Some(b) => Some(&**b),
            None => None,
        }
    }

    /// Borrows the pointee mutably, if any.
    pub fn as_mut(&mut self) -> (r: Option<&mut T>)
        ensures
            match r {
                Some(v) => old(self)@ == Some(*v) && final(self)@ == Some(*final(v)),
                None => old(self)@ is None && final(self)@ is None,
            },
    {
        match &mut self.0 {
            Some(b) => Some(&mut **b),
            None => None,
        }
    }

    /// Borrows the pointee; the pointer must not be nil.
    pub fn deref(&self) -> (r: &T)
        requires
            self@ is Some,
        ensures
            self@ == Some(*r),
    {
        let b = self.0.as_ref().unwrap();
        &**b
    }

    /// Borrows the pointee mutably; the pointer must not be nil.
    pub fn deref_mut(&mut self) -> (r: &mut T)
        requires
            old(self)@ is Some,
        ensures
            old(self)@ == Some(*r),
            final(self)@ == Some(*final(r)),
    {
        let b = self.0.as_mut().unwrap();
        &mut **b
    }

    /// Moves the pointee out; the pointer must not be nil.
    pub fn unwrap(self) -> (r: T)
        requires
            self@ is Some,
        ensures
            self@ == Some(r),
    {
        *self.0.unwrap()
    }
}

/// Turning an `Option<Box<T>>` into a pointer and back gives it back unchanged.
pub proof fn law_from_round_trip<T>(o: Option<Box<T>>)
    ensures
        <Option<Box<T>> as FromSpec<Mbox<T>>>::from_spec(<Mbox<T> as FromSpec<Option<Box<T>>>>::from_spec(o)) == o,
{
}

impl<T> From<Option<Box<T>>> for Mbox<T> {
    fn from(inner: Option<Box<T>>) -> (r: Self) {
        Self(inner)
    }
}

impl<T> FromSpecImpl<Option<Box<T>>> for Mbox<T> {
    open spec fn obeys_from_spec() -> bool {
        true
    }

    open spec fn from_spec(inner: Option<Box<T>>) -> Self {
        Mbox(inner)
    }
}

impl<T> From<Mbox<T>> for Option<Box<T>> {
    fn from(wrapper: Mbox<T>) -> (r: Self) {
        wrapper.0
    }
}

impl<T> FromSpecImpl<Mbox<T>> for Option<Box<T>> {
    open spec fn obeys_from_spec() -> bool {
        true
    }

    open spec fn from_spec(wrapper: Mbox<T>) -> Self {
        wrapper.0
    }
}

} // verus!
