//! A copy-on-write shared value: borrowed static data, or owned data shared
//! by reference counting, copied only when written to while shared.
use vstd::prelude::*;

use std::sync::Arc;

verus! {

/// Borrowed static data, or owned data shared by reference counting.
#[derive(Debug, PartialEq, Eq, Hash)]
pub enum CowRc<T: Clone + 'static> {
    /// Borrowed data.
    Borrowed(&'static T),
    /// Owned data.
    Owned(Arc<T>),
}

impl<T: Clone + 'static> CowRc<T> {
    /// The value, borrowed or owned.
    pub open spec fn value(&self) -> T {
        match self {
            CowRc::Borrowed(b) => **b,
            CowRc::Owned(o) => **o,
        }
    }

    /// Shares the static `v`.
    pub fn borrowed(v: &'static T) -> (r: CowRc<T>)
        ensures
            r is Borrowed,
            r.value() == *v,
    {
        CowRc::Borrowed(v)
    }

    /// Owns `v`.
    pub fn owned(v: T) -> (r: CowRc<T>)
        ensures
            r is Owned,
            r.value() == v,
    {
        CowRc::Owned(Arc::new(v))
    }

    /// Whether the data is borrowed.
    pub fn is_borrowed(&self) -> (r: bool)
        ensures
            r == self is Borrowed,
    {
        match self {
            CowRc::Borrowed(_) => true,
            CowRc::Owned(_) => false,
        }
    }

    /// Whether the data is owned.
    pub fn is_owned(&self) -> (r: bool)
        ensures
            r == self is Owned,
    {
        match self {
            CowRc::Borrowed(_) => false,
            CowRc::Owned(_) => true,
        }
    }

    /// The value.
    pub fn get(&self) -> (r: &T)
        ensures
            *r == self.value(),
    {
        match self {
            CowRc::Borrowed(b) => b,
            CowRc::Owned(o) => &**o,
        }
    }

    /// Mutable access to the owned data: borrowed data is first copied into
    /// owned data, and owned data shared with other handles is copied so that
    /// this handle owns it alone. The reference starts at the value or at a
    /// copy of it.
    pub fn to_mut(&mut self) -> (r: &mut T)
        ensures
            *final(self) is Owned,
            final(self).value() == *final(r),
            *old(self) is Owned ==> cloned::<T>(old(self).value(), *r),
            *old(self) is Borrowed ==> exists|v: T| cloned::<T>(old(self).value(), v) && cloned::<T>(v, *r),
    {
        let ghost v0 = self.value();
        if let CowRc::Borrowed(b) = self {
            let c = b.clone();
            assert(cloned::<T>(v0, c));
            let a = Arc::new(c);
            *self = CowRc::Owned(a);
        }
        match self {
            CowRc::Owned(owned) => arc_make_mut(owned),
            CowRc::Borrowed(b) => {
                let none: Option<&mut T> = None;
                none.unwrap()
            },
        }
    }
}

impl<T: Clone + 'static> Clone for CowRc<T> {
    /// Another handle on the same data: borrowed data stays borrowed, and
    /// owned data is shared, not copied.
    fn clone(&self) -> (r: CowRc<T>)
        ensures
            r is Borrowed <==> *self is Borrowed,
            r.value() == self.value(),
    {
        match self {
            CowRc::Borrowed(b) => CowRc::Borrowed(*b),
            CowRc::Owned(o) => CowRc::Owned(arc_share(o)),
        }
    }
}

/// `Arc::clone`: another pointer to the same allocation, so to the same
/// value; the value itself is not cloned.
#[verifier::external_body]
fn arc_share<T>(a: &Arc<T>) -> (r: Arc<T>)
    ensures
        *r == **a,
{
    Arc::clone(a)
}

impl<T: Clone + 'static> std::ops::Deref for CowRc<T> {
    type Target = T;

    fn deref(&self) -> (r: &T)
        ensures
            *r == self.value(),
    {
        self.get()
    }
}

/// `Arc::make_mut`: a mutable reference to the shared value, which is first
/// cloned into a new allocation when other handles share it; the handle then
/// holds what the reference ends with. The reference starts at the old value
/// or at what `T`'s `Clone` made of it; what a clone holds is not stated.
#[verifier::external_body]
fn arc_make_mut<T: Clone>(a: &mut Arc<T>) -> (r: &mut T)
    ensures
        **final(a) == *final(r),
        cloned::<T>(**old(a), *r),
{
    Arc::make_mut(a)
}

} // verus!
