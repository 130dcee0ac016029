//! How loud a message is, and keeping a repeated warning from being logged
//! once a frame.

use vstd::prelude::*;
use vstd::std_specs::cmp::PartialEqSpec;

verus! {

#[derive(Clone, Copy, PartialEq, Eq, Structural, Debug)]
pub enum Level {
    Error,
    Warning,
    Info,
}

/// The latest of a run of values, so that only a change of it is reported.
pub struct Changed<T>(Option<T>);

impl<T> Changed<T> {
    /// The latest value, none before the first.
    pub closed spec fn last(self) -> Option<T> {
        self.0
    }

    /// Whether `value` is a change from the latest value.
    pub open spec fn differs(self, value: T) -> bool where T: PartialEq {
        !(self.last() matches Some(last) && last.eq_spec(&value))
    }
}

/// Whether `==` on values of `T`, as Verus knows it, is equality.
pub open spec fn lawful_eq<T: PartialEq>() -> bool {
    &&& T::obeys_eq_spec()
    &&& forall|a: T, b: T| #[trigger] a.eq_spec(&b) <==> a == b
}

impl<T> Default for Changed<T> {
    fn default() -> (r: Changed<T>)
        ensures
            r.last() is None,
    {
        Changed(None)
    }
}

impl<T: PartialEq> Changed<T> {
    /// Take `value` as the latest, and say whether it differs from the one
    /// before. A value equal to the one before is not taken.
    pub fn changed(&mut self, value: T) -> (r: bool)
        ensures
            T::obeys_eq_spec() ==> r == old(self).differs(value),
            old(self).last() is None ==> r,
            r ==> final(self).last() == Some(value),
            !r ==> final(self).last() == old(self).last(),
            lawful_eq::<T>() ==> final(self).last() == Some(value),
    {
        match &self.0 {
            Some(last) => if last.eq(&value) {
                return false;
            },
            None => {},
        }
        self.0 = Some(value);
        true
    }
}

/// A value that was just taken is no change from itself, so reporting it
/// again says nothing.
pub proof fn lemma_repeat_is_no_change<T: PartialEq>(changed: Changed<T>, value: T)
    requires
        changed.last() == Some(value),
        value.eq_spec(&value),
    ensures
        !changed.differs(value),
{
}

/// Over a run of values, with `==` being equality: the latest value taken
/// is the latest value given, so a value is reported exactly when it is the
/// first, or differs from the one given just before it.
pub proof fn lemma_reports_run<T: PartialEq>(changed: Changed<T>, given: Seq<T>, value: T)
    requires
        lawful_eq::<T>(),
        changed.last() == (if given.len() == 0 {
            None
        } else {
            Some(given.last())
        }),
    ensures
        changed.differs(value) == (given.len() == 0 || value != given.last()),
{
    if given.len() > 0 {
        assert(given.last().eq_spec(&value) <==> given.last() == value);
    }
}

} // verus!
