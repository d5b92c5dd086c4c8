use vstd::prelude::*;
use crate::container::Container;
use crate::errors::{warning_views, Warning, WarningSpec};
use crate::type_info::{contains_id, id_in, seq_contains_id, TypeInfo};
use crate::PluginName;

verus! {

/// Spec-level image of one initializer: who registered it and which type
/// identities it consumes and produces.
pub struct InitMeta {
    pub owner: Seq<char>,
    pub reqs: Seq<TypeInfo>,
    pub creates: Seq<TypeInfo>,
}

/// All requirements of `m` are available in `sat`.
pub open spec fn runnable(m: InitMeta, sat: Set<core::any::TypeId>) -> bool {
    forall|k: int| 0 <= k < m.reqs.len() ==> sat.contains(m.reqs[k].id)
}

/// The identity of each entry, in order.
pub open spec fn ids_of(s: Seq<TypeInfo>) -> Seq<core::any::TypeId> {
    s.map_values(|t: TypeInfo| t.id)
}

/// The identities that running `m` makes available.
pub open spec fn created_id_set(m: InitMeta) -> Set<core::any::TypeId> {
    ids_of(m.creates).to_set()
}

/// The spec image of each initializer of `s`, in order.
pub open spec fn metas_of(s: Seq<ResourceInitializer>) -> Seq<InitMeta> {
    s.map_values(|i: ResourceInitializer| i@)
}

// The type-erased runner of one initialization function. Only the arity
// adapters below build values of it, so every runner reads exactly the types
// recorded as consumed and inserts exactly the type recorded as created.
#[verifier::external_body]
pub struct InitFn {
    run: Box<dyn Fn(&mut bevy_ecs::world::World)>,
}

/// Relies on `bevy_ecs::world::World::insert_non_send_resource`: the returned
/// runner stores the function's result as the resource of type `R`.
#[verifier::external_body]
fn init_fn0<R: 'static, F: Fn() -> R + 'static>(f: F) -> InitFn {
    InitFn {
        run: Box::new(move |w: &mut bevy_ecs::world::World| {
            let r = f();
            w.insert_non_send_resource(r);
        }),
    }
}

/// Relies on `bevy_ecs::world::World::{get_non_send_resource,
/// insert_non_send_resource}`: the returned runner reads the resource of type
/// `A` (aborting if absent), then stores the function's result as the resource
/// of type `R`.
#[verifier::external_body]
fn init_fn1<A: 'static, R: 'static, F: Fn(&A) -> R + 'static>(f: F) -> InitFn {
    InitFn {
        run: Box::new(move |w: &mut bevy_ecs::world::World| {
            let a = w.get_non_send_resource::<A>().unwrap();
            let r = f(a);
            w.insert_non_send_resource(r);
        }),
    }
}

/// Relies on `bevy_ecs::world::World::{get_non_send_resource,
/// insert_non_send_resource}`: the returned runner reads the resources of
/// types `A` and `B` (aborting if either is absent), then stores the
/// function's result as the resource of type `R`.
#[verifier::external_body]
fn init_fn2<A: 'static, B: 'static, R: 'static, F: Fn(&A, &B) -> R + 'static>(f: F) -> InitFn {
    InitFn {
        run: Box::new(move |w: &mut bevy_ecs::world::World| {
            let a = w.get_non_send_resource::<A>().unwrap();
            let b = w.get_non_send_resource::<B>().unwrap();
            let r = f(a, b);
            w.insert_non_send_resource(r);
        }),
    }
}

/// Relies on `bevy_ecs::world::World::{get_non_send_resource,
/// insert_non_send_resource}`: the returned runner reads the resources of
/// types `A`, `B` and `C` (aborting if any is absent), then stores the
/// function's result as the resource of type `R`.
#[verifier::external_body]
fn init_fn3<A: 'static, B: 'static, C: 'static, R: 'static, F: Fn(&A, &B, &C) -> R + 'static>(
    f: F,
) -> InitFn {
    InitFn {
        run: Box::new(move |w: &mut bevy_ecs::world::World| {
            let a = w.get_non_send_resource::<A>().unwrap();
            let b = w.get_non_send_resource::<B>().unwrap();
            let c = w.get_non_send_resource::<C>().unwrap();
            let r = f(a, b, c);
            w.insert_non_send_resource(r);
        }),
    }
}

/// One type-erased initialization function, annotated with the type identities
/// it requires and the ones it creates. `creates` is never empty.
pub struct ResourceInitializer {
    plugin_name: PluginName,
    consumed: Vec<TypeInfo>,
    created: Vec<TypeInfo>,
    func: InitFn,
}

impl View for ResourceInitializer {
    type V = InitMeta;

    closed spec fn view(&self) -> InitMeta {
        InitMeta { owner: self.plugin_name@, reqs: self.consumed@, creates: self.created@ }
    }
}

/// A requirement on the identity `id` overlaps when the other initializer
/// also requires it and neither initializer creates it.
pub open spec fn overlap_hit(a: InitMeta, b: InitMeta, id: core::any::TypeId) -> bool {
    seq_contains_id(b.reqs, id) && !(seq_contains_id(a.creates, id) || seq_contains_id(
        b.creates,
        id,
    ))
}

/// The overlap findings over the prefix `xs` of `a`'s requirements: one
/// finding per distinct shared identity that neither side creates, placed at
/// the identity's first occurrence. An identity listed several times still
/// yields a single finding.
pub open spec fn overlap_upto(a: InitMeta, b: InitMeta, xs: Seq<TypeInfo>) -> Seq<WarningSpec>
    decreases xs.len(),
{
    if xs.len() == 0 {
        Seq::empty()
    } else {
        let rest = overlap_upto(a, b, xs.drop_last());
        if overlap_hit(a, b, xs.last().id) && !seq_contains_id(xs.drop_last(), xs.last().id) {
            rest.push(
                WarningSpec::Overlap { required: xs.last(), owner_a: a.owner, owner_b: b.owner },
            )
        } else {
            rest
        }
    }
}

/// All overlap findings of `a` against `b`: one per type identity present in
/// both requirement lists that neither initializer creates.
pub open spec fn overlap_findings(a: InitMeta, b: InitMeta) -> Seq<WarningSpec> {
    overlap_upto(a, b, a.reqs)
}

/// An identity is among `ids_of(s)` exactly when some entry of `s` carries it.
pub proof fn lemma_ids_contains(s: Seq<TypeInfo>, id: core::any::TypeId)
    ensures
        ids_of(s).contains(id) == seq_contains_id(s, id),
{
    if ids_of(s).contains(id) {
        let i = choose|i: int| 0 <= i < ids_of(s).len() && ids_of(s)[i] == id;
        assert(s[i].id == id);
    }
    if seq_contains_id(s, id) {
        let i = choose|i: int| 0 <= i < s.len() && s[i].id == id;
        assert(ids_of(s)[i] == id);
        assert(ids_of(s).contains(id));
    }
}

/// One duplicate-producer finding of `x` against the created list `ys` of `b`.
pub open spec fn dup_inner(a: InitMeta, b: InitMeta, x: TypeInfo, ys: Seq<TypeInfo>) -> Seq<
    WarningSpec,
>
    decreases ys.len(),
{
    if ys.len() == 0 {
        Seq::empty()
    } else {
        let rest = dup_inner(a, b, x, ys.drop_last());
        if ys.last().id == x.id {
            rest.push(
                WarningSpec::DuplicateProducer { created: x, owner_a: a.owner, owner_b: b.owner },
            )
        } else {
            rest
        }
    }
}

/// The duplicate-producer findings of each created entry of `xs` against the
/// created entries of `b`, in order.
pub open spec fn dup_outer(a: InitMeta, b: InitMeta, xs: Seq<TypeInfo>) -> Seq<WarningSpec>
    decreases xs.len(),
{
    if xs.len() == 0 {
        Seq::empty()
    } else {
        dup_outer(a, b, xs.drop_last()) + dup_inner(a, b, xs.last(), b.creates)
    }
}

/// All duplicate-producer findings of `a` against `b`: one per pair of created
/// entries sharing a type identity.
pub open spec fn dup_findings(a: InitMeta, b: InitMeta) -> Seq<WarningSpec> {
    dup_outer(a, b, a.creates)
}

impl ResourceInitializer {
    /// The plugin that registered this initializer.
    pub fn plugin_name(&self) -> (r: PluginName)
        ensures
            r@ == self@.owner,
    {
        self.plugin_name
    }

    /// The types this initializer reads, in declared order.
    pub fn required(&self) -> (r: Vec<TypeInfo>)
        ensures
            r@ == self@.reqs,
    {
        let mut r: Vec<TypeInfo> = Vec::new();
        let mut k: usize = 0;
        while k < self.consumed.len()
            invariant
                k <= self.consumed@.len(),
                r@ == self.consumed@.take(k as int),
            decreases self.consumed@.len() - k,
        {
            r.push(self.consumed[k]);
            proof {
                assert(self.consumed@.take(k + 1 as int) =~= self.consumed@.take(k as int).push(
                    self.consumed@[k as int],
                ));
            }
            k += 1;
        }
        proof {
            assert(self.consumed@.take(self.consumed@.len() as int) =~= self.consumed@);
        }
        r
    }

    /// The types this initializer produces, in declared order.
    pub fn creates(&self) -> (r: Vec<TypeInfo>)
        ensures
            r@ == self@.creates,
    {
        let mut r: Vec<TypeInfo> = Vec::new();
        let mut k: usize = 0;
        while k < self.created.len()
            invariant
                k <= self.created@.len(),
                r@ == self.created@.take(k as int),
            decreases self.created@.len() - k,
        {
            r.push(self.created[k]);
            proof {
                assert(self.created@.take(k + 1 as int) =~= self.created@.take(k as int).push(
                    self.created@[k as int],
                ));
            }
            k += 1;
        }
        proof {
            assert(self.created@.take(self.created@.len() as int) =~= self.created@);
        }
        r
    }

    /// The identities of the produced types, in declared order.
    pub fn creates_ids(&self) -> (r: Vec<core::any::TypeId>)
        ensures
            r@ == ids_of(self@.creates),
    {
        let mut r: Vec<core::any::TypeId> = Vec::new();
        let mut k: usize = 0;
        while k < self.created.len()
            invariant
                k <= self.created@.len(),
                r@ == ids_of(self.created@.take(k as int)),
            decreases self.created@.len() - k,
        {
            r.push(self.created[k].id);
            proof {
                assert(ids_of(self.created@.take(k + 1 as int)) =~= ids_of(
                    self.created@.take(k as int),
                ).push(self.created@[k as int].id));
            }
            k += 1;
        }
        proof {
            assert(self.created@.take(self.created@.len() as int) =~= self.created@);
        }
        r
    }

    /// True exactly when every required identity is in `set`.
    pub fn all_requires_in(&self, set: &Vec<core::any::TypeId>) -> (r: bool)
        ensures
            r == runnable(self@, set@.to_set()),
    {
        let mut k: usize = 0;
        while k < self.consumed.len()
            invariant
                k <= self.consumed@.len(),
                forall|j: int| 0 <= j < k ==> set@.contains(#[trigger] self.consumed@[j].id),
            decreases self.consumed@.len() - k,
        {
            if !id_in(set, self.consumed[k].id) {
                proof {
                    assert(self@.reqs == self.consumed@);
                    assert(!set@.to_set().contains(self.consumed@[k as int].id));
                    assert(!runnable(self@, set@.to_set()));
                }
                return false;
            }
            k += 1;
        }
        proof {
            assert(self@.reqs == self.consumed@);
            assert forall|j: int|
                0 <= j < self@.reqs.len() implies set@.to_set().contains(
                self@.reqs[j].id,
            ) by {
                assert(set@.contains(self.consumed@[j].id));
            }
        }
        true
    }

    /// For every type both `self` and `other` require and neither creates,
    /// one finding, whatever the number of requirement entries listing it. A
    /// symmetric, non-fatal diagnostic: two independently owned initializers
    /// reading a resource neither produces may hide an unverified ordering
    /// dependency.
    pub fn init_overlap(&self, other: &Self) -> (r: Vec<Warning>)
        ensures
            warning_views(r@) == overlap_findings(self@, other@),
    {
        let mut r: Vec<Warning> = Vec::new();
        let mut seen: Vec<core::any::TypeId> = Vec::new();
        let ghost a = self@;
        let ghost b = other@;
        let mut i: usize = 0;
        proof {
            assert(seen@ =~= ids_of(a.reqs.take(0)));
            assert(warning_views(r@) =~= overlap_upto(a, b, a.reqs.take(0)));
        }
        while i < self.consumed.len()
            invariant
                i <= self.consumed@.len(),
                a == self@,
                b == other@,
                seen@ == ids_of(a.reqs.take(i as int)),
                warning_views(r@) == overlap_upto(a, b, a.reqs.take(i as int)),
            decreases self.consumed@.len() - i,
        {
            let x = self.consumed[i];
            let ghost r_entry = r@;
            let is_new = !id_in(&seen, x.id);
            let is_hit = is_new && contains_id(&other.consumed, x.id) && !(contains_id(
                &self.created,
                x.id,
            ) || contains_id(&other.created, x.id));
            let w_val = Warning::Overlap {
                required: x,
                owner_a: self.plugin_name,
                owner_b: other.plugin_name,
            };
            if is_hit {
                r.push(w_val);
            }
            seen.push(x.id);
            proof {
                let ti = a.reqs.take(i + 1 as int);
                assert(ti.drop_last() =~= a.reqs.take(i as int));
                assert(ti.last() == x);
                lemma_ids_contains(a.reqs.take(i as int), x.id);
                assert(seen@ =~= ids_of(ti));
                let ghost wspec = WarningSpec::Overlap {
                    required: x,
                    owner_a: a.owner,
                    owner_b: b.owner,
                };
                if is_hit {
                    assert(overlap_hit(a, b, x.id));
                    assert(overlap_upto(a, b, ti) == overlap_upto(
                        a,
                        b,
                        a.reqs.take(i as int),
                    ).push(wspec));
                    assert(r@ == r_entry.push(w_val));
                    assert(w_val@ == wspec);
                    assert(warning_views(r@) =~= warning_views(r_entry).push(wspec));
                } else {
                    assert(!(overlap_hit(a, b, x.id) && !seq_contains_id(
                        a.reqs.take(i as int),
                        x.id,
                    )));
                    assert(overlap_upto(a, b, ti) == overlap_upto(a, b, a.reqs.take(i as int)));
                }
            }
            i += 1;
        }
        proof {
            assert(a.reqs.take(a.reqs.len() as int) =~= a.reqs);
        }
        r
    }

    /// For every type both `self` and `other` produce, one finding per pair of
    /// matching created entries: whichever initializer runs last silently
    /// overwrites the other's value, which is rarely intended.
    pub fn producer_collisions(&self, other: &Self) -> (r: Vec<Warning>)
        ensures
            warning_views(r@) == dup_findings(self@, other@),
    {
        let mut r: Vec<Warning> = Vec::new();
        let ghost a = self@;
        let ghost b = other@;
        let mut i: usize = 0;
        while i < self.created.len()
            invariant
                i <= self.created@.len(),
                a == self@,
                b == other@,
                warning_views(r@) == dup_outer(a, b, a.creates.take(i as int)),
            decreases self.created@.len() - i,
        {
            let x = self.created[i];
            let ghost r_before = r@;
            let mut j: usize = 0;
            while j < other.created.len()
                invariant
                    j <= other.created@.len(),
                    a == self@,
                    b == other@,
                    x == a.creates[i as int],
                    i < a.creates.len(),
                    warning_views(r@) == warning_views(r_before) + dup_inner(
                        a,
                        b,
                        x,
                        b.creates.take(j as int),
                    ),
                decreases other.created@.len() - j,
            {
                let y = other.created[j];
                let ghost r_entry = r@;
                let is_hit = y.id == x.id;
                let w_val = Warning::DuplicateProducer {
                    created: x,
                    owner_a: self.plugin_name,
                    owner_b: other.plugin_name,
                };
                if is_hit {
                    r.push(w_val);
                }
                proof {
                    let ghost wspec = WarningSpec::DuplicateProducer {
                        created: x,
                        owner_a: a.owner,
                        owner_b: b.owner,
                    };
                    let tj = b.creates.take(j + 1 as int);
                    assert(tj.drop_last() =~= b.creates.take(j as int));
                    assert(tj.last() == y);
                    if is_hit {
                        assert(dup_inner(a, b, x, tj) == dup_inner(
                            a,
                            b,
                            x,
                            b.creates.take(j as int),
                        ).push(wspec));
                        assert(r@ == r_entry.push(w_val));
                        assert(w_val@ == wspec);
                        assert(warning_views(r@) =~= warning_views(r_entry).push(wspec));
                    } else {
                        assert(dup_inner(a, b, x, tj) == dup_inner(
                            a,
                            b,
                            x,
                            b.creates.take(j as int),
                        ));
                    }
                    assert(warning_views(r@) =~= warning_views(r_before) + dup_inner(a, b, x, tj));
                }
                j += 1;
            }
            proof {
                assert(b.creates.take(b.creates.len() as int) =~= b.creates);
                let ti = a.creates.take(i + 1 as int);
                assert(ti.drop_last() =~= a.creates.take(i as int));
                assert(ti.last() == a.creates[i as int]);
                assert(warning_views(r@) =~= dup_outer(a, b, a.creates.take(i + 1 as int)));
            }
            i += 1;
        }
        proof {
            assert(a.creates.take(a.creates.len() as int) =~= a.creates);
        }
        r
    }

    /// Runs the wrapped function against the container. Relies on the arity
    /// adapters (`init_fn0`..`init_fn3`), the only builders of `InitFn`: the
    /// stored runner reads exactly the resources recorded as required — all
    /// present, per the precondition — and inserts exactly the resources
    /// recorded as created, through
    /// `bevy_ecs::world::World::{get_non_send_resource, insert_non_send_resource}`.
    #[verifier::external_body]
    pub fn call(&self, container: &mut Container)
        requires
            forall|k: int|
                0 <= k < self@.reqs.len() ==> old(container).tokens().contains(self@.reqs[k].id),
        ensures
            final(container).tokens() == old(container).tokens().union(created_id_set(self@)),
    {
        (self.func.run)(&mut container.world)
    }
}

/// Adapts an initialization function of fixed arity into a
/// [`ResourceInitializer`], deriving the required and produced type identities
/// from the function's own signature. Implemented for functions of zero to
/// three borrowed parameters; extend the set of implementations to admit a
/// higher arity.
pub trait ResourceInit<Params, R>: Sized {
    /// The parameter types, in declared order.
    fn consumes() -> (r: Vec<TypeInfo>);

    /// The produced type: always exactly one.
    fn produces() -> (r: Vec<TypeInfo>)
        ensures
            r@.len() == 1,
    ;

    /// Wraps the function, stamped with `name` as owner.
    fn to_box(self, name: PluginName) -> (r: ResourceInitializer)
        ensures
            r@.owner == name@,
            r@.creates.len() == 1,
    ;
}

impl<F, R> ResourceInit<(), R> for F where F: Fn() -> R + 'static, R: 'static {
    fn consumes() -> (r: Vec<TypeInfo>)
        ensures
            r@.len() == 0,
    {
        Vec::new()
    }

    fn produces() -> (r: Vec<TypeInfo>)
        ensures
            r@.len() == 1,
    {
        let mut v: Vec<TypeInfo> = Vec::new();
        v.push(TypeInfo::of::<R>());
        v
    }

    fn to_box(self, name: PluginName) -> (r: ResourceInitializer)
        ensures
            r@.reqs.len() == 0,
    {
        ResourceInitializer {
            plugin_name: name,
            consumed: Self::consumes(),
            created: Self::produces(),
            func: init_fn0(self),
        }
    }
}

impl<F, A, R> ResourceInit<(A,), R> for F where
    F: Fn(&A) -> R + 'static,
    A: 'static,
    R: 'static,
 {
    fn consumes() -> (r: Vec<TypeInfo>)
        ensures
            r@.len() == 1,
    {
        let mut v: Vec<TypeInfo> = Vec::new();
        v.push(TypeInfo::of::<A>());
        v
    }

    fn produces() -> (r: Vec<TypeInfo>)
        ensures
            r@.len() == 1,
    {
        let mut v: Vec<TypeInfo> = Vec::new();
        v.push(TypeInfo::of::<R>());
        v
    }

    fn to_box(self, name: PluginName) -> (r: ResourceInitializer)
        ensures
            r@.reqs.len() == 1,
    {
        ResourceInitializer {
            plugin_name: name,
            consumed: Self::consumes(),
            created: Self::produces(),
            func: init_fn1(self),
        }
    }
}

impl<F, A, B, R> ResourceInit<(A, B), R> for F where
    F: Fn(&A, &B) -> R + 'static,
    A: 'static,
    B: 'static,
    R: 'static,
 {
    fn consumes() -> (r: Vec<TypeInfo>)
        ensures
            r@.len() == 2,
    {
        let mut v: Vec<TypeInfo> = Vec::new();
        v.push(TypeInfo::of::<A>());
        v.push(TypeInfo::of::<B>());
        v
    }

    fn produces() -> (r: Vec<TypeInfo>)
        ensures
            r@.len() == 1,
    {
        let mut v: Vec<TypeInfo> = Vec::new();
        v.push(TypeInfo::of::<R>());
        v
    }

    fn to_box(self, name: PluginName) -> (r: ResourceInitializer)
        ensures
            r@.reqs.len() == 2,
    {
        ResourceInitializer {
            plugin_name: name,
            consumed: Self::consumes(),
            created: Self::produces(),
            func: init_fn2(self),
        }
    }
}

impl<F, A, B, C, R> ResourceInit<(A, B, C), R> for F where
    F: Fn(&A, &B, &C) -> R + 'static,
    A: 'static,
    B: 'static,
    C: 'static,
    R: 'static,
 {
    fn consumes() -> (r: Vec<TypeInfo>)
        ensures
            r@.len() == 3,
    {
        let mut v: Vec<TypeInfo> = Vec::new();
        v.push(TypeInfo::of::<A>());
        v.push(TypeInfo::of::<B>());
        v.push(TypeInfo::of::<C>());
        v
    }

    fn produces() -> (r: Vec<TypeInfo>)
        ensures
            r@.len() == 1,
    {
        let mut v: Vec<TypeInfo> = Vec::new();
        v.push(TypeInfo::of::<R>());
        v
    }

    fn to_box(self, name: PluginName) -> (r: ResourceInitializer)
        ensures
            r@.reqs.len() == 3,
    {
        ResourceInitializer {
            plugin_name: name,
            consumed: Self::consumes(),
            created: Self::produces(),
            func: init_fn3(self),
        }
    }
}

} // verus!
