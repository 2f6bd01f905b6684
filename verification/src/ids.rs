//! Ids of actors and of tasks.

use std::hash::{Hash, Hasher};
use std::marker::PhantomData;
use std::sync::atomic::AtomicBool;
use std::sync::Arc;

use vstd::prelude::*;
use vstd::std_specs::cmp::PartialEqSpec;

use crate::runtime::Actor;

verus! {

/// Calls `std::sync::Arc::ptr_eq`, which tells if two handles lead to the same
/// allocation. Claims that they do exactly when they hold the same atomic: an
/// atomic cannot be copied, so each stands in one allocation only.
#[verifier::external_body]
fn is_same_mark(one: &Arc<AtomicBool>, other: &Arc<AtomicBool>) -> (same: bool)
    ensures
        same == (**one == **other),
{
    Arc::ptr_eq(one, other)
}

/// `std::hash::Hash::hash` of a `String` feeds its text to a hasher. Nothing is
/// claimed: what a hasher makes of it is its own affair.
pub assume_specification<H: Hasher>[ <String as Hash>::hash::<H> ](
    text: &String,
    state: &mut H,
);

/// Makes the ids of one system. Each source has a mark of its own, which its
/// ids share, and numbers them.
pub struct IdSource {
    mark: Arc<AtomicBool>,
    issued: u64,
}

impl IdSource {
    /// The mark of the source.
    pub closed spec fn mark(self) -> AtomicBool {
        *self.mark
    }

    /// How many serial numbers were handed out so far.
    pub closed spec fn issued(self) -> nat {
        self.issued as nat
    }

    /// Makes a source that has handed out nothing. That its mark is not the one
    /// of another source is not stated: no value says which marks exist.
    pub fn new() -> (source: Self)
        ensures
            source.issued() == 0,
    {
        IdSource { mark: Arc::new(AtomicBool::new(false)), issued: 0 }
    }

    /// Tells if a serial number is left.
    pub fn has_next(&self) -> (left: bool)
        ensures
            left == (self.issued() < u64::MAX),
    {
        self.issued < u64::MAX
    }

    /// Hands out the next serial number.
    fn next(&mut self) -> (serial: u64)
        requires
            old(self).issued() < u64::MAX,
        ensures
            serial == old(self).issued(),
            final(self).mark() == old(self).mark(),
            final(self).issued() == old(self).issued() + 1,
    {
        let serial: u64 = self.issued;
        self.issued = serial + 1;
        serial
    }
}

/// The identity of the runtime of an actor or of a task.
///
/// Two ids are equal only if they are clones of the same id: the name is for
/// display, and two actors may share it.
pub struct Id {
    mark: Arc<AtomicBool>,
    name: String,
    serial: u64,
}

impl Id {
    /// The name that the id shows.
    pub closed spec fn name(self) -> Seq<char> {
        self.name@
    }

    /// The number that no other id of the same source has.
    pub closed spec fn serial(self) -> u64 {
        self.serial
    }

    /// The mark of the source that has made the id.
    pub closed spec fn mark(self) -> AtomicBool {
        *self.mark
    }

    /// The ids are equal: one source has made them under the same number and
    /// with the same name.
    pub open spec fn is_same(self, other: Id) -> bool {
        &&& self.mark() == other.mark()
        &&& self.serial() == other.serial()
        &&& self.name() == other.name()
    }

    /// A source that was in the given state has made the id.
    pub open spec fn is_made_by(self, source: IdSource) -> bool {
        self.mark() == source.mark() && self.serial() == source.issued()
    }

    /// Makes a new id for an actor, under the name that the actor gives itself.
    ///
    /// It differs from all ids that the source has made before. The ids of the
    /// children of one actor have to come from one source.
    pub fn of_actor<T: Actor>(source: &mut IdSource, entity: &T) -> (id: Self)
        requires
            old(source).issued() < u64::MAX,
        ensures
            id.is_made_by(*old(source)),
            id.mark() == old(source).mark(),
            id.serial() == old(source).issued(),
            final(source).mark() == old(source).mark(),
            final(source).issued() == old(source).issued() + 1,
            exists|name: String| #[trigger]
                call_ensures(T::name, (entity,), name) && name@ == id.name(),
            forall|earlier: Id|
                earlier.serial() < old(source).issued() ==> !#[trigger] PartialEqSpec::eq_spec(
                    &earlier,
                    &id,
                ),
    {
        let name = entity.name();
        Id { mark: source.mark.clone(), name, serial: source.next() }
    }

    /// The text that the id shows.
    pub fn to_string(&self) -> (text: String)
        ensures
            text@ == self.name(),
    {
        self.name.clone()
    }

    /// The name that the id shows.
    pub fn as_ref(&self) -> (name: &str)
        ensures
            name@ == self.name(),
    {
        self.name.as_str()
    }

    /// The number that stands for the id in a collection.
    pub(crate) fn key(&self) -> (key: u64)
        ensures
            key == self.serial(),
    {
        self.serial
    }
}

impl Clone for Id {
    fn clone(&self) -> (copy: Self)
        ensures
            copy == *self,
    {
        Id { mark: self.mark.clone(), name: self.name.clone(), serial: self.serial }
    }
}

impl PartialEq for Id {
    fn eq(&self, other: &Self) -> (same: bool) {
        is_same_mark(&self.mark, &other.mark) && self.serial == other.serial && self.name
            == other.name
    }
}

impl vstd::std_specs::cmp::PartialEqSpecImpl for Id {
    open spec fn obeys_eq_spec() -> bool {
        true
    }

    open spec fn eq_spec(&self, other: &Self) -> bool {
        self.is_same(*other)
    }
}

impl Eq for Id {

}

impl Hash for Id {
    /// Hashes the name, so that equal ids hash alike.
    fn hash<H: Hasher>(&self, state: &mut H) {
        self.name.hash(state);
    }
}

/// The id of an actor or of a task whose type is known.
pub struct IdOf<T> {
    id: Id,
    _origin: PhantomData<T>,
}

impl<T> IdOf<T> {
    /// The id without the type.
    pub closed spec fn id(self) -> Id {
        self.id
    }

    /// Ties an id to the type of its owner.
    pub fn new(id: Id) -> (typed: Self)
        ensures
            typed.id() == id,
    {
        IdOf { id, _origin: PhantomData }
    }

    /// Drops the type.
    pub fn into(self) -> (id: Id)
        ensures
            id == self.id(),
    {
        self.id
    }

    /// The id without the type.
    pub fn as_ref(&self) -> (id: &Id)
        ensures
            *id == self.id(),
    {
        &self.id
    }
}

impl<T> Clone for IdOf<T> {
    fn clone(&self) -> (copy: Self)
        ensures
            copy == *self,
    {
        IdOf { id: self.id.clone(), _origin: PhantomData }
    }
}

impl<T> PartialEq for IdOf<T> {
    fn eq(&self, other: &Self) -> (same: bool) {
        self.id == other.id
    }
}

impl<T> vstd::std_specs::cmp::PartialEqSpecImpl for IdOf<T> {
    open spec fn obeys_eq_spec() -> bool {
        true
    }

    open spec fn eq_spec(&self, other: &Self) -> bool {
        self.id().is_same(other.id())
    }
}

impl<T> Eq for IdOf<T> {

}

impl<T> Hash for IdOf<T> {
    /// Hashes the id.
    fn hash<H: Hasher>(&self, state: &mut H) {
        self.id.hash(state);
    }
}

/// The ids of two calls of `of_actor` differ, even under one name: those of one
/// source by their numbers, those of two sources by their marks.
pub proof fn law_ids_of_two_calls_differ(
    one_source: IdSource,
    one: Id,
    other_source: IdSource,
    other: Id,
)
    requires
        one.is_made_by(one_source),
        other.is_made_by(other_source),
        one_source.mark() != other_source.mark() || one_source.issued() != other_source.issued(),
    ensures
        !PartialEqSpec::eq_spec(&one, &other),
{
}

/// Equality of ids is an equivalence, and equal ids show the same name.
pub proof fn law_id_equality_is_an_equivalence(a: Id, b: Id, c: Id)
    ensures
        PartialEqSpec::eq_spec(&a, &a),
        PartialEqSpec::eq_spec(&a, &b) ==> PartialEqSpec::eq_spec(&b, &a),
        PartialEqSpec::eq_spec(&a, &b) && PartialEqSpec::eq_spec(&b, &c)
            ==> PartialEqSpec::eq_spec(&a, &c),
        PartialEqSpec::eq_spec(&a, &b) ==> a.name() == b.name(),
{
}

} // verus!
