//! Values whose type has been forgotten, and the identity of types: what
//! the verifier takes on trust about `std::any`.

use std::any::Any;
use std::any::TypeId;
use vstd::prelude::*;

verus! {

/// `std::any::TypeId`, the identity of a type. Opaque here: all that is
/// done with two identities is to compare them.
#[verifier::external_type_specification]
#[verifier::external_body]
pub struct ExTypeId(TypeId);

/// An owned value of some `'static` type, held as `Box<dyn Any>`. The only
/// way back to the value is a checked downcast to its type.
#[verifier::external_body]
pub struct Erased {
    inner: Box<dyn Any>,
}

impl Erased {
    /// Whether this box holds `value`: a downcast to `V` gives `value`, and
    /// gives nothing else.
    pub closed spec fn holds<V: 'static>(self, value: V) -> bool {
        &&& call_ensures(Erased::downcast_ref::<V>, (&self,), Some(&value))
        &&& forall|found: Option<&V>| #[trigger]
            call_ensures(Erased::downcast_ref::<V>, (&self,), found) ==> found == Some(&value)
    }

    /// What a downcast gives for a box that holds `value`.
    pub(crate) proof fn lemma_downcast_of_held<V: 'static>(self, value: V, found: Option<&V>)
        requires
            self.holds(value),
            call_ensures(Erased::downcast_ref::<V>, (&self,), found),
        ensures
            found == Some(&value),
    {
    }

    /// A box holds one value of a type and no other.
    pub proof fn lemma_holds_one<V: 'static>(self, first: V, second: V)
        requires
            self.holds(first),
            self.holds(second),
        ensures
            first == second,
    {
    }

    /// Boxes `value` and forgets its type (`Box::new`, coerced to
    /// `Box<dyn Any>`). The box holds `value`: as std documents it, a
    /// downcast to the type of the value gives the value back.
    #[verifier::external_body]
    pub(crate) fn new<V: 'static>(value: V) -> (erased: Erased)
        ensures
            erased.holds(value),
    {
        Erased { inner: Box::new(value) }
    }

    /// `<dyn Any>::downcast_ref`: the value, if it is a `V`. Which of the
    /// two it is, is not claimed here; it follows for a box of which it is
    /// known what it holds.
    #[verifier::external_body]
    pub(crate) fn downcast_ref<V: 'static>(&self) -> Option<&V> {
        self.inner.downcast_ref::<V>()
    }

    /// `<dyn Any>::downcast_mut`: the value, if it is a `V`. As std
    /// documents it, the reference is to the value inside: it starts as
    /// the value that the box holds, and the box ends up holding what the
    /// reference ends as. The box changes only through the reference: a
    /// failed downcast, or a reference whose value ends as it began, leaves
    /// the box as it was.
    #[verifier::external_body]
    pub(crate) fn downcast_mut<V: 'static>(&mut self) -> (value: Option<&mut V>)
        ensures
            value is None ==> *final(self) == *old(self),
            value matches Some(value) ==> (*final(value) == *value ==> *final(self) == *old(self)),
            forall|held: V| #[trigger] old(self).holds(held) ==> (value matches Some(value) && *value == held),
            value matches Some(value) ==> final(self).holds(*final(value)),
    {
        self.inner.downcast_mut::<V>()
    }
}

/// `TypeId::of`: the identity of the type `V`. Nothing is claimed of it.
#[verifier::external_body]
pub(crate) fn type_id_of<V: 'static>() -> TypeId {
    TypeId::of::<V>()
}

/// `==` on `TypeId`: whether the two are the same identity.
#[verifier::external_body]
pub(crate) fn same_type_id(first: &TypeId, second: &TypeId) -> (same: bool)
    ensures
        same == (*first == *second),
{
    first == second
}

} // verus!
