use vstd::prelude::*;
use crate::errors::BuildErrorSpec;
use crate::resources::{created_id_set, dup_findings, ids_of, overlap_findings, overlap_hit, overlap_upto, runnable, InitMeta};
use crate::type_info::{seq_contains_id, TypeInfo};
use crate::PluginName;

verus! {

/// An identity is among a metadata's created set exactly when some created
/// entry carries it.
pub proof fn lemma_created_contains(m: InitMeta, t: core::any::TypeId)
    ensures
        created_id_set(m).contains(t) == seq_contains_id(m.creates, t),
{
    if created_id_set(m).contains(t) {
        let i = choose|i: int| 0 <= i < ids_of(m.creates).len() && ids_of(m.creates)[i] == t;
        assert(m.creates[i].id == t);
    }
    if seq_contains_id(m.creates, t) {
        let i = choose|i: int| 0 <= i < m.creates.len() && m.creates[i].id == t;
        assert(ids_of(m.creates)[i] == t);
        assert(ids_of(m.creates).contains(t));
    }
}

/// An identity is in the union of everything created exactly when some
/// initializer creates it.
pub proof fn lemma_all_created_contains(inits: Seq<InitMeta>, t: core::any::TypeId)
    ensures
        all_created(inits).contains(t) == exists|j: int|
            0 <= j < inits.len() && seq_contains_id(#[trigger] inits[j].creates, t),
    decreases inits.len(),
{
    if inits.len() > 0 {
        lemma_created_contains(inits[0], t);
        lemma_all_created_contains(inits.drop_first(), t);
        if exists|j: int|
            0 <= j < inits.drop_first().len() && seq_contains_id(
                #[trigger] inits.drop_first()[j].creates,
                t,
            ) {
            let j = choose|j: int|
                0 <= j < inits.drop_first().len() && seq_contains_id(
                    inits.drop_first()[j].creates,
                    t,
                );
            assert(inits[j + 1] == inits.drop_first()[j]);
        }
        if exists|j: int| 0 <= j < inits.len() && seq_contains_id(#[trigger] inits[j].creates, t) {
            let j = choose|j: int|
                0 <= j < inits.len() && seq_contains_id(inits[j].creates, t);
            if j > 0 {
                assert(inits.drop_first()[j - 1] == inits[j]);
            }
        }
    }
}

/// The requirements of `reqs` whose identity is not in `fsat`, in order.
pub open spec fn missing_of(reqs: Seq<TypeInfo>, fsat: Set<core::any::TypeId>) -> Seq<TypeInfo>
    decreases reqs.len(),
{
    if reqs.len() == 0 {
        Seq::empty()
    } else {
        let rest = missing_of(reqs.drop_last(), fsat);
        if !fsat.contains(reqs.last().id) {
            rest.push(reqs.last())
        } else {
            rest
        }
    }
}

/// One fatal report per initializer still pending at the fixed point: its
/// owner, what it meant to produce, and the required types never satisfied.
pub open spec fn unresolved_errors(
    stuck: Seq<InitMeta>,
    fsat: Set<core::any::TypeId>,
) -> Seq<BuildErrorSpec>
    decreases stuck.len(),
{
    if stuck.len() == 0 {
        Seq::empty()
    } else {
        unresolved_errors(stuck.drop_last(), fsat).push(
            BuildErrorSpec::UnresolvableDependency {
                owner: stuck.last().owner,
                outputs: stuck.last().creates,
                missing: missing_of(stuck.last().reqs, fsat),
            },
        )
    }
}

/// One fatal report per declared requirement whose type was never produced.
pub open spec fn unmet_errors(
    reqs: Seq<(PluginName, TypeInfo)>,
    fsat: Set<core::any::TypeId>,
) -> Seq<BuildErrorSpec>
    decreases reqs.len(),
{
    if reqs.len() == 0 {
        Seq::empty()
    } else {
        let rest = unmet_errors(reqs.drop_last(), fsat);
        if !fsat.contains(reqs.last().1.id) {
            rest.push(
                BuildErrorSpec::UnmetRequirement {
                    owner: reqs.last().0@,
                    required: reqs.last().1,
                },
            )
        } else {
            rest
        }
    }
}

/// The overlap findings of `a` against each entry of `rest`, in order.
pub open spec fn overlap_row(a: InitMeta, rest: Seq<InitMeta>) -> Seq<crate::errors::WarningSpec>
    decreases rest.len(),
{
    if rest.len() == 0 {
        Seq::empty()
    } else {
        overlap_row(a, rest.drop_last()) + overlap_findings(a, rest.last())
    }
}

/// The overlap findings of the first `i` initializers, each scanned against
/// everything after it.
pub open spec fn overlap_scan_upto(inits: Seq<InitMeta>, i: int) -> Seq<crate::errors::WarningSpec>
    decreases i,
{
    if i <= 0 {
        Seq::empty()
    } else {
        overlap_scan_upto(inits, i - 1) + overlap_row(inits[i - 1], inits.skip(i))
    }
}

/// Every overlap finding of every unordered pair of initializers, in scan
/// order.
pub open spec fn overlap_scan(inits: Seq<InitMeta>) -> Seq<crate::errors::WarningSpec> {
    overlap_scan_upto(inits, inits.len() as int)
}

/// The duplicate-producer findings of `a` against each entry of `rest`.
pub open spec fn dup_row(a: InitMeta, rest: Seq<InitMeta>) -> Seq<crate::errors::WarningSpec>
    decreases rest.len(),
{
    if rest.len() == 0 {
        Seq::empty()
    } else {
        dup_row(a, rest.drop_last()) + dup_findings(a, rest.last())
    }
}

/// The duplicate-producer findings of the first `i` initializers, each scanned
/// against everything after it.
pub open spec fn dup_scan_upto(inits: Seq<InitMeta>, i: int) -> Seq<crate::errors::WarningSpec>
    decreases i,
{
    if i <= 0 {
        Seq::empty()
    } else {
        dup_scan_upto(inits, i - 1) + dup_row(inits[i - 1], inits.skip(i))
    }
}

/// Every duplicate-producer finding of every unordered pair, in scan order.
pub open spec fn dup_scan(inits: Seq<InitMeta>) -> Seq<crate::errors::WarningSpec> {
    dup_scan_upto(inits, inits.len() as int)
}

/// The identities of a concatenation are the union of the identities.
pub proof fn lemma_concat_to_set(a: Seq<core::any::TypeId>, b: Seq<core::any::TypeId>)
    ensures
        (a + b).to_set() == a.to_set().union(b.to_set()),
{
    assert forall|t: core::any::TypeId|
        (a + b).to_set().contains(t) == a.to_set().union(b.to_set()).contains(t) by {
        if (a + b).contains(t) {
            let i = choose|i: int| 0 <= i < (a + b).len() && (a + b)[i] == t;
            if i < a.len() {
                assert(a[i] == t);
            } else {
                assert(b[i - a.len()] == t);
            }
        }
        if a.contains(t) {
            let i = choose|i: int| 0 <= i < a.len() && a[i] == t;
            assert((a + b)[i] == t);
        }
        if b.contains(t) {
            let i = choose|i: int| 0 <= i < b.len() && b[i] == t;
            assert((a + b)[a.len() + i] == t);
        }
    }
    assert((a + b).to_set() =~= a.to_set().union(b.to_set()));
}

/// The identities produced by all initializers of `inits` together.
pub open spec fn all_created(inits: Seq<InitMeta>) -> Set<core::any::TypeId>
    decreases inits.len(),
{
    if inits.len() == 0 {
        Set::empty()
    } else {
        created_id_set(inits[0]).union(all_created(inits.drop_first()))
    }
}

/// One resolution pass: scan `pending` in order; run every initializer whose
/// requirements are all satisfied, adding what it creates to the satisfied
/// set at once, and keep the rest, in order.
pub open spec fn pass(sat: Set<core::any::TypeId>, pending: Seq<InitMeta>) -> (
    Set<core::any::TypeId>,
    Seq<InitMeta>,
)
    decreases pending.len(),
{
    if pending.len() == 0 {
        (sat, Seq::empty())
    } else if runnable(pending[0], sat) {
        pass(sat.union(created_id_set(pending[0])), pending.drop_first())
    } else {
        let rest = pass(sat, pending.drop_first());
        (rest.0, seq![pending[0]] + rest.1)
    }
}

/// Iterated passes until a fixed point: the pass that runs nothing ends the
/// resolution, successfully when nothing is left pending, stuck otherwise.
pub open spec fn resolve(sat: Set<core::any::TypeId>, pending: Seq<InitMeta>) -> (
    Set<core::any::TypeId>,
    Seq<InitMeta>,
)
    decreases pending.len(),
    via resolve_decreases
{
    let p = pass(sat, pending);
    if p.1.len() == pending.len() {
        (sat, pending)
    } else {
        resolve(p.0, p.1)
    }
}

#[via_fn]
proof fn resolve_decreases(sat: Set<core::any::TypeId>, pending: Seq<InitMeta>) {
    lemma_pass_props(sat, pending);
}

/// What the whole resolution of `inits` reaches, starting from nothing: the
/// final satisfied set and the initializers that never ran.
pub open spec fn resolution(inits: Seq<InitMeta>) -> (Set<core::any::TypeId>, Seq<InitMeta>) {
    resolve(Set::empty(), inits)
}

/// Basic shape of one pass: the satisfied set only grows; what stays pending
/// was already pending, in order; every initializer that left `pending` has
/// contributed its creations; and a pass that kept everything changed nothing.
pub proof fn lemma_pass_props(sat: Set<core::any::TypeId>, pending: Seq<InitMeta>)
    ensures
        pass(sat, pending).1.len() <= pending.len(),
        sat.subset_of(pass(sat, pending).0),
        forall|x: InitMeta| #[trigger]
            pass(sat, pending).1.contains(x) ==> pending.contains(x),
        forall|x: InitMeta| #[trigger]
            pending.contains(x) ==> pass(sat, pending).1.contains(x) || created_id_set(
                x,
            ).subset_of(pass(sat, pending).0),
        pass(sat, pending).0.union(all_created(pass(sat, pending).1)) == sat.union(
            all_created(pending),
        ),
        pass(sat, pending).1.len() == pending.len() ==> pass(sat, pending).0 == sat && pass(
            sat,
            pending,
        ).1 == pending,
    decreases pending.len(),
{
    let p = pass(sat, pending);
    if pending.len() == 0 {
        assert(p.0.union(all_created(p.1)) =~= sat.union(all_created(pending)));
    } else {
        let head = pending[0];
        let tail = pending.drop_first();
        if runnable(head, sat) {
            let sat2 = sat.union(created_id_set(head));
            lemma_pass_props(sat2, tail);
            assert forall|x: InitMeta| #[trigger] p.1.contains(x) implies pending.contains(x) by {
                assert(tail.contains(x));
                let k = choose|k: int| 0 <= k < tail.len() && tail[k] == x;
                assert(pending[k + 1] == x);
            }
            assert forall|x: InitMeta| #[trigger]
                pending.contains(x) implies p.1.contains(x) || created_id_set(x).subset_of(
                p.0,
            ) by {
                let k = choose|k: int| 0 <= k < pending.len() && pending[k] == x;
                if k == 0 {
                    assert(created_id_set(x).subset_of(sat2));
                } else {
                    assert(tail[k - 1] == x);
                    assert(tail.contains(x));
                }
            }
            assert(sat2.union(all_created(tail)) =~= sat.union(all_created(pending)));
        } else {
            lemma_pass_props(sat, tail);
            let rest = pass(sat, tail);
            assert(p.1 == seq![head] + rest.1);
            assert forall|x: InitMeta| #[trigger] p.1.contains(x) implies pending.contains(x) by {
                let k = choose|k: int| 0 <= k < p.1.len() && p.1[k] == x;
                if k == 0 {
                    assert(pending[0] == x);
                } else {
                    assert(rest.1[k - 1] == x);
                    assert(rest.1.contains(x));
                    let m = choose|m: int| 0 <= m < tail.len() && tail[m] == x;
                    assert(pending[m + 1] == x);
                }
            }
            assert forall|x: InitMeta| #[trigger]
                pending.contains(x) implies p.1.contains(x) || created_id_set(x).subset_of(
                p.0,
            ) by {
                let k = choose|k: int| 0 <= k < pending.len() && pending[k] == x;
                if k == 0 {
                    assert(p.1[0] == x);
                } else {
                    assert(tail[k - 1] == x);
                    assert(tail.contains(x));
                    if rest.1.contains(x) {
                        let m = choose|m: int| 0 <= m < rest.1.len() && rest.1[m] == x;
                        assert(p.1[m + 1] == x);
                    }
                }
            }
            assert(all_created(p.1) =~= created_id_set(head).union(all_created(rest.1))) by {
                assert(p.1[0] == head);
                assert(p.1.drop_first() =~= rest.1);
            }
            assert forall|t: core::any::TypeId|
                p.0.union(all_created(p.1)).contains(t) == sat.union(
                    all_created(pending),
                ).contains(t) by {
                assert(rest.0.union(all_created(rest.1)).contains(t) == sat.union(
                    all_created(tail),
                ).contains(t));
                assert(all_created(pending) == created_id_set(head).union(all_created(tail)));
            }
            assert(p.0.union(all_created(p.1)) =~= sat.union(all_created(pending)));
            if p.1.len() == pending.len() {
                assert(rest.1.len() == tail.len());
                assert(p.1 =~= pending) by {
                    assert(p.1.drop_first() =~= rest.1);
                }
            }
        }
    }
}

/// Everything any pending initializer requires is either satisfied already or
/// produced by something still pending.
pub open spec fn producers_available(sat: Set<core::any::TypeId>, pending: Seq<InitMeta>) -> bool {
    forall|i: int, k: int|
        0 <= i < pending.len() && 0 <= k < pending[i].reqs.len() ==> sat.contains(
            (#[trigger] pending[i].reqs[k]).id,
        ) || exists|j: int|
            0 <= j < pending.len() && seq_contains_id(
                (#[trigger] pending[j]).creates,
                pending[i].reqs[k].id,
            )
}

/// A witness of acyclicity: whenever an initializer requires one type and
/// creates another, the required type's rank is strictly smaller. Such a rank
/// exists exactly when the requires/creates relation over type identities
/// forms an acyclic graph.
pub open spec fn rank_ordered(rank: Map<core::any::TypeId, nat>, pending: Seq<InitMeta>) -> bool {
    forall|i: int, k: int, l: int|
        0 <= i < pending.len() && 0 <= k < pending[i].reqs.len() && 0 <= l
            < pending[i].creates.len() ==> rank[(#[trigger] pending[i].reqs[k]).id] < rank[(
        #[trigger] pending[i].creates[l]).id]
}

/// Under `producers_available` and an acyclicity witness, something pending is
/// always runnable: following the unsatisfied requirement of a stuck
/// initializer to its producer strictly lowers the rank, which cannot go on
/// forever.
proof fn lemma_find_runnable(
    sat: Set<core::any::TypeId>,
    pending: Seq<InitMeta>,
    rank: Map<core::any::TypeId, nat>,
    i: int,
    k: int,
)
    requires
        producers_available(sat, pending),
        rank_ordered(rank, pending),
        0 <= i < pending.len(),
        0 <= k < pending[i].reqs.len(),
        !sat.contains(pending[i].reqs[k].id),
    ensures
        exists|j: int| 0 <= j < pending.len() && runnable(#[trigger] pending[j], sat),
    decreases rank[pending[i].reqs[k].id],
{
    let r = pending[i].reqs[k].id;
    let j = choose|j: int| 0 <= j < pending.len() && seq_contains_id(pending[j].creates, r);
    if runnable(pending[j], sat) {
    } else {
        let k2 = choose|k2: int|
            0 <= k2 < pending[j].reqs.len() && !sat.contains(pending[j].reqs[k2].id);
        let l = choose|l: int| 0 <= l < pending[j].creates.len() && pending[j].creates[l].id == r;
        assert(rank[pending[j].reqs[k2].id] < rank[pending[j].creates[l].id]);
        lemma_find_runnable(sat, pending, rank, j, k2);
    }
}

/// When every required type has a producer and the dependency relation is
/// acyclic, resolution runs everything: nothing stays pending, and the
/// satisfied set is exactly what was there plus everything created.
pub proof fn lemma_dag_resolves(
    sat: Set<core::any::TypeId>,
    pending: Seq<InitMeta>,
    rank: Map<core::any::TypeId, nat>,
)
    requires
        producers_available(sat, pending),
        rank_ordered(rank, pending),
    ensures
        resolve(sat, pending).1 == Seq::<InitMeta>::empty(),
        resolve(sat, pending).0 == sat.union(all_created(pending)),
    decreases pending.len(),
{
    lemma_pass_props(sat, pending);
    let p = pass(sat, pending);
    if pending.len() == 0 {
        assert(resolve(sat, pending).1 =~= Seq::<InitMeta>::empty());
        assert(sat.union(all_created(pending)) =~= sat);
    } else {
        if !(exists|j: int| 0 <= j < pending.len() && runnable(#[trigger] pending[j], sat)) {
            assert(!runnable(pending[0], sat));
            let k = choose|k: int|
                0 <= k < pending[0].reqs.len() && !sat.contains(pending[0].reqs[k].id);
            lemma_find_runnable(sat, pending, rank, 0, k);
        }
        let j = choose|j: int| 0 <= j < pending.len() && runnable(#[trigger] pending[j], sat);
        lemma_pass_progress(sat, pending, j);
        // The hypotheses carry over to what is still pending.
        assert forall|i: int, k: int|
            0 <= i < p.1.len() && 0 <= k < p.1[i].reqs.len() implies p.0.contains(
            (#[trigger] p.1[i].reqs[k]).id,
        ) || exists|j2: int|
            0 <= j2 < p.1.len() && seq_contains_id(
                (#[trigger] p.1[j2]).creates,
                p.1[i].reqs[k].id,
            ) by {
            let x = p.1[i];
            assert(p.1.contains(x));
            assert(pending.contains(x));
            let i0 = choose|i0: int| 0 <= i0 < pending.len() && pending[i0] == x;
            let r = x.reqs[k].id;
            if !sat.contains(r) {
                let j0 = choose|j0: int|
                    0 <= j0 < pending.len() && seq_contains_id(pending[j0].creates, r);
                let y = pending[j0];
                assert(pending.contains(y));
                if p.1.contains(y) {
                    let j2 = choose|j2: int| 0 <= j2 < p.1.len() && p.1[j2] == y;
                    assert(seq_contains_id(p.1[j2].creates, r));
                } else {
                    assert(created_id_set(y).subset_of(p.0));
                    lemma_created_contains(y, r);
                    assert(p.0.contains(r));
                }
            }
        }
        assert forall|i: int, k: int, l: int|
            0 <= i < p.1.len() && 0 <= k < p.1[i].reqs.len() && 0 <= l
                < p.1[i].creates.len() implies rank[(#[trigger] p.1[i].reqs[k]).id] < rank[(
        #[trigger] p.1[i].creates[l]).id] by {
            let x = p.1[i];
            assert(p.1.contains(x));
            assert(pending.contains(x));
            let i0 = choose|i0: int| 0 <= i0 < pending.len() && pending[i0] == x;
            assert(rank[pending[i0].reqs[k].id] < rank[pending[i0].creates[l].id]);
        }
        lemma_dag_resolves(p.0, p.1, rank);
        assert(resolve(sat, pending) == resolve(p.0, p.1));
        assert forall|t: core::any::TypeId|
            resolve(sat, pending).0.contains(t) == sat.union(all_created(pending)).contains(
                t,
            ) by {
            assert(p.0.union(all_created(p.1)).contains(t) == sat.union(
                all_created(pending),
            ).contains(t));
        }
        assert(resolve(sat, pending).0 =~= sat.union(all_created(pending)));
    }
}

/// For an initializer set whose requires/creates relation forms an acyclic
/// graph over type identities, with every required type produced by someone,
/// resolution terminates successfully: nothing stays pending and the final
/// satisfied set equals the union of all created sets. The order the
/// initializers stand in plays no part in the conclusion.
pub proof fn lemma_dag_resolution_succeeds(
    inits: Seq<InitMeta>,
    rank: Map<core::any::TypeId, nat>,
)
    requires
        forall|i: int, k: int|
            0 <= i < inits.len() && 0 <= k < inits[i].reqs.len() ==> exists|j: int|
                0 <= j < inits.len() && seq_contains_id(
                    (#[trigger] inits[j]).creates,
                    (#[trigger] inits[i].reqs[k]).id,
                ),
        rank_ordered(rank, inits),
    ensures
        resolution(inits).1 == Seq::<InitMeta>::empty(),
        resolution(inits).0 == all_created(inits),
{
    assert(producers_available(Set::empty(), inits));
    lemma_dag_resolves(Set::empty(), inits, rank);
    assert(Set::empty().union(all_created(inits)) =~= all_created(inits));
}

/// Resolution can only ever satisfy identities that some initializer creates.
pub proof fn lemma_resolution_sat_bounded(
    sat: Set<core::any::TypeId>,
    pending: Seq<InitMeta>,
)
    ensures
        resolve(sat, pending).0.subset_of(sat.union(all_created(pending))),
    decreases pending.len(),
{
    lemma_pass_props(sat, pending);
    let p = pass(sat, pending);
    if p.1.len() == pending.len() {
    } else {
        lemma_resolution_sat_bounded(p.0, p.1);
        assert forall|t: core::any::TypeId|
            resolve(sat, pending).0.contains(t) implies sat.union(all_created(pending)).contains(
            t,
        ) by {
            assert(p.0.union(all_created(p.1)).contains(t) == sat.union(
                all_created(pending),
            ).contains(t));
        }
    }
}

/// `unmet_errors` reports an entry whose identity is unsatisfied.
proof fn lemma_unmet_errors_contains(
    reqs: Seq<(PluginName, TypeInfo)>,
    fsat: Set<core::any::TypeId>,
    k: int,
)
    requires
        0 <= k < reqs.len(),
        !fsat.contains(reqs[k].1.id),
    ensures
        unmet_errors(reqs, fsat).contains(
            BuildErrorSpec::UnmetRequirement { owner: reqs[k].0@, required: reqs[k].1 },
        ),
    decreases reqs.len(),
{
    let e = BuildErrorSpec::UnmetRequirement { owner: reqs[k].0@, required: reqs[k].1 };
    if k == reqs.len() - 1 {
        assert(reqs.last() == reqs[k]);
        let ws = unmet_errors(reqs, fsat);
        assert(ws.last() == e);
        assert(ws.contains(e));
    } else {
        assert(reqs.drop_last()[k] == reqs[k]);
        lemma_unmet_errors_contains(reqs.drop_last(), fsat, k);
        let rest = unmet_errors(reqs.drop_last(), fsat);
        let i = choose|i: int| 0 <= i < rest.len() && rest[i] == e;
        assert(unmet_errors(reqs, fsat)[i] == e);
    }
}

/// If a plugin declares a requirement on a type no initializer produces, the
/// resolution never satisfies it and the build's validation reports that
/// plugin and type.
pub proof fn lemma_unmet_requirement_reported(
    inits: Seq<InitMeta>,
    reqs: Seq<(PluginName, TypeInfo)>,
    k: int,
)
    requires
        0 <= k < reqs.len(),
        forall|j: int|
            0 <= j < inits.len() ==> !seq_contains_id((#[trigger] inits[j]).creates, reqs[k].1.id),
    ensures
        !resolution(inits).0.contains(reqs[k].1.id),
        unmet_errors(reqs, resolution(inits).0).contains(
            BuildErrorSpec::UnmetRequirement { owner: reqs[k].0@, required: reqs[k].1 },
        ),
        unmet_errors(reqs, resolution(inits).0).len() > 0,
{
    let t = reqs[k].1.id;
    lemma_resolution_sat_bounded(Set::empty(), inits);
    lemma_all_created_contains(inits, t);
    assert(!Set::empty().union(all_created(inits)).contains(t));
    assert(!resolution(inits).0.contains(t));
    lemma_unmet_errors_contains(reqs, resolution(inits).0, k);
}

/// Only members of `cyc` produce the identity `id`.
pub open spec fn only_cycle_produces(
    inits: Seq<InitMeta>,
    cyc: Set<InitMeta>,
    id: core::any::TypeId,
) -> bool {
    forall|j: int|
        0 <= j < inits.len() && seq_contains_id((#[trigger] inits[j]).creates, id) ==> cyc.contains(
            inits[j],
        )
}

/// `cyc` is a dependency cycle (or a closed needy cluster) of `inits`: each
/// member requires some type that only members produce. A true two-party cycle
/// — each needing the other's output — satisfies this, and so does a member
/// requiring a type nobody produces.
pub open spec fn cycle_blocked(inits: Seq<InitMeta>, cyc: Set<InitMeta>) -> bool {
    forall|x: InitMeta| #[trigger]
        cyc.contains(x) ==> exists|k: int|
            0 <= k < x.reqs.len() && only_cycle_produces(inits, cyc, (#[trigger] x.reqs[k]).id)
}

/// No identity that only cycle members produce is satisfied.
pub open spec fn sat_avoids(
    sat: Set<core::any::TypeId>,
    inits: Seq<InitMeta>,
    cyc: Set<InitMeta>,
) -> bool {
    forall|r: core::any::TypeId|
        only_cycle_produces(inits, cyc, r) ==> !(#[trigger] sat.contains(r))
}

/// A pass never runs a cycle member and never satisfies an identity that only
/// cycle members produce.
proof fn lemma_pass_cycle(
    sat: Set<core::any::TypeId>,
    pending: Seq<InitMeta>,
    inits: Seq<InitMeta>,
    cyc: Set<InitMeta>,
)
    requires
        cycle_blocked(inits, cyc),
        sat_avoids(sat, inits, cyc),
        forall|x: InitMeta| #[trigger] pending.contains(x) ==> inits.contains(x),
    ensures
        sat_avoids(pass(sat, pending).0, inits, cyc),
        forall|x: InitMeta|
            pending.contains(x) && cyc.contains(x) ==> (#[trigger] pass(
                sat,
                pending,
            ).1.contains(x)),
    decreases pending.len(),
{
    if pending.len() == 0 {
    } else {
        let h = pending[0];
        let tail = pending.drop_first();
        assert(pending.contains(h));
        assert forall|x: InitMeta| #[trigger] tail.contains(x) implies inits.contains(x) by {
            let i = choose|i: int| 0 <= i < tail.len() && tail[i] == x;
            assert(pending[i + 1] == x);
            assert(pending.contains(x));
        }
        if runnable(h, sat) {
            // A runnable initializer cannot be a cycle member: its critical
            // requirement would have to be satisfied, which `sat` avoids.
            assert(!cyc.contains(h)) by {
                if cyc.contains(h) {
                    let k = choose|k: int|
                        0 <= k < h.reqs.len() && only_cycle_produces(inits, cyc, h.reqs[k].id);
                    assert(sat.contains(h.reqs[k].id));
                }
            }
            let sat2 = sat.union(created_id_set(h));
            assert(sat_avoids(sat2, inits, cyc)) by {
                assert forall|r: core::any::TypeId|
                    only_cycle_produces(inits, cyc, r) implies !(#[trigger] sat2.contains(r)) by {
                    lemma_created_contains(h, r);
                    if seq_contains_id(h.creates, r) {
                        assert(inits.contains(h));
                        let j = choose|j: int| 0 <= j < inits.len() && inits[j] == h;
                        assert(seq_contains_id(inits[j].creates, r));
                        assert(cyc.contains(h));
                        let k = choose|k: int|
                            0 <= k < h.reqs.len() && only_cycle_produces(inits, cyc, h.reqs[k].id);
                        assert(sat.contains(h.reqs[k].id));
                    }
                }
            }
            lemma_pass_cycle(sat2, tail, inits, cyc);
            assert forall|x: InitMeta|
                pending.contains(x) && cyc.contains(x) implies (#[trigger] pass(
                sat,
                pending,
            ).1.contains(x)) by {
                let i = choose|i: int| 0 <= i < pending.len() && pending[i] == x;
                assert(i != 0);
                assert(tail[i - 1] == x);
                assert(tail.contains(x));
                assert(pass(sat2, tail).1.contains(x));
                assert(pass(sat, pending) == pass(sat2, tail));
            }
        } else {
            lemma_pass_cycle(sat, tail, inits, cyc);
            let rest = pass(sat, tail);
            assert(pass(sat, pending).1 == seq![h] + rest.1);
            assert forall|x: InitMeta|
                pending.contains(x) && cyc.contains(x) implies (#[trigger] pass(
                sat,
                pending,
            ).1.contains(x)) by {
                let i = choose|i: int| 0 <= i < pending.len() && pending[i] == x;
                if i == 0 {
                    assert(pass(sat, pending).1[0] == x);
                    assert(pass(sat, pending).1.contains(x));
                } else {
                    assert(tail[i - 1] == x);
                    assert(tail.contains(x));
                    assert(rest.1.contains(x));
                    let m = choose|m: int| 0 <= m < rest.1.len() && rest.1[m] == x;
                    assert(pass(sat, pending).1[m + 1] == x);
                    assert(pass(sat, pending).1.contains(x));
                }
            }
        }
    }
}

/// Through the whole resolution, cycle members stay pending.
proof fn lemma_resolve_cycle(
    sat: Set<core::any::TypeId>,
    pending: Seq<InitMeta>,
    inits: Seq<InitMeta>,
    cyc: Set<InitMeta>,
)
    requires
        cycle_blocked(inits, cyc),
        sat_avoids(sat, inits, cyc),
        forall|x: InitMeta| #[trigger] pending.contains(x) ==> inits.contains(x),
    ensures
        forall|x: InitMeta|
            pending.contains(x) && cyc.contains(x) ==> (#[trigger] resolve(
                sat,
                pending,
            ).1.contains(x)),
    decreases pending.len(),
{
    lemma_pass_props(sat, pending);
    lemma_pass_cycle(sat, pending, inits, cyc);
    let p = pass(sat, pending);
    if p.1.len() == pending.len() {
        assert(resolve(sat, pending) == (sat, pending));
    } else {
        assert forall|x: InitMeta| #[trigger] p.1.contains(x) implies inits.contains(x) by {
            assert(pending.contains(x));
        }
        lemma_resolve_cycle(p.0, p.1, inits, cyc);
        assert(resolve(sat, pending) == resolve(p.0, p.1));
        assert forall|x: InitMeta|
            pending.contains(x) && cyc.contains(x) implies (#[trigger] resolve(
            sat,
            pending,
        ).1.contains(x)) by {
            assert(p.1.contains(x));
            assert(resolve(p.0, p.1).1.contains(x));
        }
    }
}

/// For an initializer set containing a dependency cycle, resolution gets
/// stuck: every member of the cycle stays pending, so the build fails with one
/// `UnresolvableDependency` report per stuck initializer — exactly the ones
/// that never became satisfied, by the resolver's contract.
pub proof fn lemma_cycle_never_resolves(inits: Seq<InitMeta>, cyc: Set<InitMeta>)
    requires
        cycle_blocked(inits, cyc),
        exists|x: InitMeta| inits.contains(x) && (#[trigger] cyc.contains(x)),
    ensures
        forall|x: InitMeta|
            inits.contains(x) && cyc.contains(x) ==> (#[trigger] resolution(inits).1.contains(x)),
        resolution(inits).1.len() > 0,
{
    assert(sat_avoids(Set::empty(), inits, cyc));
    lemma_resolve_cycle(Set::empty(), inits, inits, cyc);
    let x = choose|x: InitMeta| inits.contains(x) && cyc.contains(x);
    assert(resolution(inits).1.contains(x));
}

/// How many overlap findings concern the identity `id`.
pub open spec fn count_findings(ws: Seq<crate::errors::WarningSpec>, id: core::any::TypeId) -> nat
    decreases ws.len(),
{
    if ws.len() == 0 {
        0
    } else {
        count_findings(ws.drop_last(), id) + (match ws.last() {
            crate::errors::WarningSpec::Overlap { required, .. } => if required.id == id {
                1nat
            } else {
                0nat
            },
            _ => 0nat,
        })
    }
}

/// `w` is an overlap finding naming the two owners.
pub open spec fn names_owners(
    w: crate::errors::WarningSpec,
    oa: Seq<char>,
    ob: Seq<char>,
) -> bool {
    w matches crate::errors::WarningSpec::Overlap { owner_a, owner_b, .. } && owner_a == oa
        && owner_b == ob
}

proof fn lemma_count_findings_concat(
    u: Seq<crate::errors::WarningSpec>,
    v: Seq<crate::errors::WarningSpec>,
    id: core::any::TypeId,
)
    ensures
        count_findings(u + v, id) == count_findings(u, id) + count_findings(v, id),
    decreases v.len(),
{
    if v.len() == 0 {
        assert(u + v =~= u);
    } else {
        assert((u + v).drop_last() =~= u + v.drop_last());
        assert((u + v).last() == v.last());
        lemma_count_findings_concat(u, v.drop_last(), id);
    }
}

proof fn lemma_overlap_upto_count(a: InitMeta, b: InitMeta, xs: Seq<TypeInfo>, t: TypeInfo)
    ensures
        count_findings(overlap_upto(a, b, xs), t.id) == if seq_contains_id(xs, t.id)
            && overlap_hit(a, b, t.id) {
            1nat
        } else {
            0nat
        },
        forall|i: int|
            0 <= i < overlap_upto(a, b, xs).len() ==> names_owners(
                #[trigger] overlap_upto(a, b, xs)[i],
                a.owner,
                b.owner,
            ),
    decreases xs.len(),
{
    if xs.len() == 0 {
    } else {
        lemma_overlap_upto_count(a, b, xs.drop_last(), t);
        let rest = overlap_upto(a, b, xs.drop_last());
        let x = xs.last();
        let w = crate::errors::WarningSpec::Overlap {
            required: x,
            owner_a: a.owner,
            owner_b: b.owner,
        };
        assert(seq_contains_id(xs, t.id) == (seq_contains_id(xs.drop_last(), t.id) || x.id
            == t.id)) by {
            if seq_contains_id(xs, t.id) {
                let i = choose|i: int| 0 <= i < xs.len() && xs[i].id == t.id;
                if i < xs.len() - 1 {
                    assert(xs.drop_last()[i].id == t.id);
                }
            }
            if seq_contains_id(xs.drop_last(), t.id) {
                let i = choose|i: int| 0 <= i < xs.drop_last().len() && xs.drop_last()[i].id == t.id;
                assert(xs[i].id == t.id);
            }
            if x.id == t.id {
                assert(xs[xs.len() - 1].id == t.id);
            }
        }
        if overlap_hit(a, b, x.id) && !seq_contains_id(xs.drop_last(), x.id) {
            assert(overlap_upto(a, b, xs) == rest.push(w));
            assert(rest.push(w).drop_last() =~= rest);
            assert(rest.push(w).last() == w);
            assert forall|i: int|
                0 <= i < overlap_upto(a, b, xs).len() implies names_owners(
                #[trigger] overlap_upto(a, b, xs)[i],
                a.owner,
                b.owner,
            ) by {
                if i < rest.len() {
                    assert(overlap_upto(a, b, xs)[i] == rest[i]);
                } else {
                    assert(overlap_upto(a, b, xs)[i] == w);
                }
            }
        } else {
            assert(overlap_upto(a, b, xs) == rest);
        }
    }
}

/// For two initializers both requiring a type `t`, where neither produces it,
/// exactly one overlap finding concerns `t`, and every finding of the pair
/// names both owners — regardless of the order the two stand in, and however
/// many requirement entries repeat `t`.
pub proof fn lemma_overlap_symmetric(a: InitMeta, b: InitMeta, t: TypeInfo)
    requires
        seq_contains_id(a.reqs, t.id),
        seq_contains_id(b.reqs, t.id),
        !seq_contains_id(a.creates, t.id),
        !seq_contains_id(b.creates, t.id),
    ensures
        count_findings(overlap_findings(a, b), t.id) == 1,
        count_findings(overlap_findings(b, a), t.id) == 1,
        forall|i: int|
            0 <= i < overlap_findings(a, b).len() ==> names_owners(
                #[trigger] overlap_findings(a, b)[i],
                a.owner,
                b.owner,
            ),
        forall|i: int|
            0 <= i < overlap_findings(b, a).len() ==> names_owners(
                #[trigger] overlap_findings(b, a)[i],
                b.owner,
                a.owner,
            ),
{
    lemma_overlap_upto_count(a, b, a.reqs, t);
    lemma_overlap_upto_count(b, a, b.reqs, t);
}

/// If anything pending is runnable, a pass makes progress.
pub proof fn lemma_pass_progress(sat: Set<core::any::TypeId>, pending: Seq<InitMeta>, i: int)
    requires
        0 <= i < pending.len(),
        runnable(pending[i], sat),
    ensures
        pass(sat, pending).1.len() < pending.len(),
    decreases pending.len(),
{
    let head = pending[0];
    let tail = pending.drop_first();
    if runnable(head, sat) {
        lemma_pass_props(sat.union(created_id_set(head)), tail);
    } else {
        assert(i != 0);
        assert(tail[i - 1] == pending[i]);
        lemma_pass_progress(sat, tail, i - 1);
    }
}

} // verus!
