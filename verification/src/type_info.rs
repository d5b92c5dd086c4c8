use vstd::prelude::*;

verus! {

// `core::any::TypeId` is opaque to the verifier; declaring it lets it stand in
// fields and signatures. A value of it is the identity token of a runtime type.
#[verifier::external_type_specification]
#[verifier::external_body]
pub struct ExTypeId(core::any::TypeId);

/// Relies on `core::any::TypeId`'s `PartialEq`: two identifiers compare equal
/// exactly when they are the same token, that is, when they denote the same
/// runtime type.
pub assume_specification[ <core::any::TypeId as PartialEq>::eq ](
    a: &core::any::TypeId,
    b: &core::any::TypeId,
) -> (r: bool)
    ensures
        r == (a == b),
;

/// Relies on `core::any::TypeId::of`: returns the identity token of `T`.
pub assume_specification<T: ?Sized + 'static>[ core::any::TypeId::of::<T> ]() -> core::any::TypeId;

/// Relies on `disqualified::ShortName::of`, which captures the printable name
/// of the runtime type `A`; `original` hands the full name back.
#[verifier::external_body]
fn name_of<A: ?Sized>() -> &'static str {
    disqualified::ShortName::of::<A>().original()
}

/// An identity-comparable token standing in for a runtime type, together with
/// a human-readable name used in diagnostics only.
#[derive(Clone, Copy, Debug)]
pub struct TypeInfo {
    /// Diagnostic type name; never consulted by comparisons.
    pub name: &'static str,
    pub id: core::any::TypeId,
}

// Equality of `TypeInfo` is defined solely over `id`; two tokens for the same
// runtime type are equal no matter where their diagnostic names came from.
impl PartialEq for TypeInfo {
    fn eq(&self, other: &Self) -> (r: bool) {
        self.id == other.id
    }
}

impl vstd::std_specs::cmp::PartialEqSpecImpl for TypeInfo {
    open spec fn obeys_eq_spec() -> bool {
        true
    }

    open spec fn eq_spec(&self, other: &Self) -> bool {
        self.id == other.id
    }
}

impl TypeInfo {
    /// The token of the type `A`, named for diagnostics.
    pub fn of<A: 'static>() -> (r: TypeInfo) {
        TypeInfo { name: name_of::<A>(), id: core::any::TypeId::of::<A>() }
    }
}

/// Whether some entry of `s` carries the identity `id`.
pub open spec fn seq_contains_id(s: Seq<TypeInfo>, id: core::any::TypeId) -> bool {
    exists|k: int| 0 <= k < s.len() && s[k].id == id
}

/// Decides `seq_contains_id` for a concrete vector.
pub fn contains_id(v: &Vec<TypeInfo>, id: core::any::TypeId) -> (r: bool)
    ensures
        r == seq_contains_id(v@, id),
{
    let mut k: usize = 0;
    while k < v.len()
        invariant
            k <= v@.len(),
            forall|j: int| 0 <= j < k ==> v@[j].id != id,
        decreases v@.len() - k,
    {
        if v[k].id == id {
            return true;
        }
        k += 1;
    }
    false
}

/// Decides membership of an identity in a vector of identities.
pub fn id_in(v: &Vec<core::any::TypeId>, id: core::any::TypeId) -> (r: bool)
    ensures
        r == v@.contains(id),
{
    let mut k: usize = 0;
    while k < v.len()
        invariant
            k <= v@.len(),
            forall|j: int| 0 <= j < k ==> v@[j] != id,
        decreases v@.len() - k,
    {
        if v[k] == id {
            return true;
        }
        k += 1;
    }
    false
}

} // verus!
