use vstd::prelude::*;
use crate::built_server::BuiltServer;
use crate::container::Container;
use crate::errors::{error_views, warning_views, BuildError, BuildErrorSpec, Warning};
use crate::plugin::{str_eq, Plugin};
use crate::resolve::{
    all_created, cycle_blocked, dup_row, dup_scan, dup_scan_upto, lemma_all_created_contains,
    lemma_concat_to_set, lemma_cycle_never_resolves, lemma_dag_resolution_succeeds,
    lemma_pass_props, lemma_unmet_requirement_reported, missing_of, overlap_row, overlap_scan,
    overlap_scan_upto, pass, rank_ordered, resolution, resolve, unmet_errors, unresolved_errors,
};
use crate::resources::{created_id_set, dup_findings, ids_of, metas_of, overlap_findings, runnable, InitMeta, ResourceInitializer};
use crate::type_info::{id_in, seq_contains_id, TypeInfo};
use crate::PluginName;

verus! {

/// All initializers of `ps`, in registration order, then per-plugin order.
pub open spec fn flat_inits(ps: Seq<Plugin>) -> Seq<InitMeta>
    decreases ps.len(),
{
    if ps.len() == 0 {
        Seq::empty()
    } else {
        flat_inits(ps.drop_last()) + metas_of(ps.last().resource_initialisers@)
    }
}

/// All declared requirements of `ps`, in the same order.
pub open spec fn flat_reqs(ps: Seq<Plugin>) -> Seq<(PluginName, TypeInfo)>
    decreases ps.len(),
{
    if ps.len() == 0 {
        Seq::empty()
    } else {
        flat_reqs(ps.drop_last()) + ps.last().resource_requirements@
    }
}

/// The reserved labels of one plugin, each paired with the plugin's name.
pub open spec fn labels_of(name: Seq<char>, ls: Seq<&'static str>) -> Seq<(Seq<char>, Seq<char>)>
    decreases ls.len(),
{
    if ls.len() == 0 {
        Seq::empty()
    } else {
        labels_of(name, ls.drop_last()).push((name, ls.last()@))
    }
}

/// Every reserved label of every plugin, in order, paired with its owner.
pub open spec fn flat_labels(ps: Seq<Plugin>) -> Seq<(Seq<char>, Seq<char>)>
    decreases ps.len(),
{
    if ps.len() == 0 {
        Seq::empty()
    } else {
        flat_labels(ps.drop_last()) + labels_of(
            ps.last().spec_name(),
            ps.last().used_system_labels@,
        )
    }
}

/// One fatal report for each label occurrence that repeats an earlier one.
pub open spec fn dup_label_errors(pairs: Seq<(Seq<char>, Seq<char>)>) -> Seq<BuildErrorSpec>
    decreases pairs.len(),
{
    if pairs.len() == 0 {
        Seq::empty()
    } else {
        let rest = dup_label_errors(pairs.drop_last());
        if exists|m: int| 0 <= m < pairs.len() - 1 && pairs[m].1 == pairs.last().1 {
            rest.push(
                BuildErrorSpec::InvalidOrDuplicateLabel {
                    plugin: pairs.last().0,
                    label: pairs.last().1,
                },
            )
        } else {
            rest
        }
    }
}

/// What one build attempt yields: the server on success or every fatal
/// problem found, plus the non-fatal findings of the conflict scan either way.
pub struct BuildOutcome {
    pub result: Result<BuiltServer, Vec<BuildError>>,
    pub warnings: Vec<Warning>,
}

/// The composition root: plugins register here, and `build` wires them
/// together.
pub struct ServerBuilder {
    pub plugins: Vec<Plugin>,
}

impl ServerBuilder {
    pub fn new() -> (s: ServerBuilder)
        ensures
            s.plugins@.len() == 0,
    {
        ServerBuilder { plugins: Vec::new() }
    }

    /// Registers one plugin; refused, before any resolution is attempted, when
    /// a plugin of the same name is already registered.
    pub fn add_plugin(&mut self, plugin: Plugin) -> (r: Result<(), BuildError>)
        ensures
            r is Ok <==> !(exists|k: int|
                0 <= k < old(self).plugins@.len() && old(self).plugins@[k].spec_name()
                    == plugin.spec_name()),
            r is Ok ==> final(self).plugins@ == old(self).plugins@.push(plugin),
            r matches Err(e) ==> *final(self) == *old(self) && e@ == (BuildErrorSpec::DuplicatePluginName {
                name: plugin.spec_name(),
            }),
    {
        let mut k: usize = 0;
        while k < self.plugins.len()
            invariant
                self == old(self),
                k <= self.plugins@.len(),
                forall|j: int| 0 <= j < k ==> self.plugins@[j].spec_name() != plugin.spec_name(),
            decreases self.plugins@.len() - k,
        {
            if str_eq(self.plugins[k].name(), plugin.name()) {
                return Err(BuildError::DuplicatePluginName { name: plugin.name() });
            }
            k += 1;
        }
        self.plugins.push(plugin);
        Ok(())
    }

    /// Runs the whole composition: cross-plugin label validation, the conflict
    /// scan, fixed-point execution against a fresh container, and requirement
    /// validation. Warnings never block execution; any fatal problem fails the
    /// build, and every problem found is reported.
    pub fn build(self) -> (out: BuildOutcome)
        ensures
            dup_label_errors(flat_labels(self.plugins@)).len() > 0 ==> out.warnings@.len() == 0
                && (out.result matches Err(es) && error_views(es@) == dup_label_errors(
                flat_labels(self.plugins@),
            )),
            dup_label_errors(flat_labels(self.plugins@)).len() == 0 ==> {
                let inits = flat_inits(self.plugins@);
                let fsat = resolution(inits).0;
                let errs = unresolved_errors(resolution(inits).1, fsat) + unmet_errors(
                    flat_reqs(self.plugins@),
                    fsat,
                );
                warning_views(out.warnings@) == overlap_scan(inits) + dup_scan(inits) && (
                if errs.len() == 0 {
                    out.result matches Ok(s) && s.world.tokens() == fsat
                } else {
                    out.result matches Err(es) && error_views(es@) == errs
                })
            },
    {
        let ghost ps = self.plugins@;
        // Step 1: cross-plugin label validation, collecting every collision.
        let mut label_pairs: Vec<(PluginName, &'static str)> = Vec::new();
        let mut i: usize = 0;
        proof {
            assert(pair_views(label_pairs@) =~= flat_labels(ps.take(0)));
        }
        while i < self.plugins.len()
            invariant
                i <= self.plugins@.len(),
                ps == self.plugins@,
                pair_views(label_pairs@) == flat_labels(ps.take(i as int)),
            decreases self.plugins@.len() - i,
        {
            let p = &self.plugins[i];
            let ghost entry_pairs = label_pairs@;
            let mut j: usize = 0;
            proof {
                assert(pair_views(label_pairs@) =~= pair_views(entry_pairs) + labels_of(
                    p.spec_name(),
                    p.used_system_labels@.take(0),
                ));
            }
            while j < p.used_system_labels.len()
                invariant
                    j <= p.used_system_labels@.len(),
                    p == self.plugins@[i as int],
                    pair_views(label_pairs@) == pair_views(entry_pairs) + labels_of(
                        p.spec_name(),
                        p.used_system_labels@.take(j as int),
                    ),
                decreases p.used_system_labels@.len() - j,
            {
                let ghost lp_entry = label_pairs@;
                let lbl = p.used_system_labels[j];
                label_pairs.push((p.name(), lbl));
                proof {
                    let tj = p.used_system_labels@.take(j + 1 as int);
                    assert(tj.drop_last() =~= p.used_system_labels@.take(j as int));
                    assert(tj.last() == p.used_system_labels@[j as int]);
                    assert(lbl == p.used_system_labels@[j as int]);
                    assert(pair_views(label_pairs@) =~= pair_views(lp_entry).push(
                        (p.spec_name(), lbl@),
                    ));
                    assert(labels_of(p.spec_name(), tj) == labels_of(
                        p.spec_name(),
                        p.used_system_labels@.take(j as int),
                    ).push((p.spec_name(), lbl@)));
                    assert(pair_views(label_pairs@) =~= pair_views(entry_pairs) + labels_of(
                        p.spec_name(),
                        tj,
                    ));
                }
                j += 1;
            }
            proof {
                assert(p.used_system_labels@.take(p.used_system_labels@.len() as int)
                    =~= p.used_system_labels@);
                let ti = ps.take(i + 1 as int);
                assert(ti.drop_last() =~= ps.take(i as int));
                assert(ti.last() == ps[i as int]);
                assert(pair_views(label_pairs@) =~= flat_labels(ti));
            }
            i += 1;
        }
        proof {
            assert(ps.take(ps.len() as int) =~= ps);
        }
        let ghost pairs = pair_views(label_pairs@);
        let mut label_errors: Vec<BuildError> = Vec::new();
        let mut k: usize = 0;
        proof {
            assert(error_views(label_errors@) =~= dup_label_errors(pairs.take(0)));
        }
        while k < label_pairs.len()
            invariant
                k <= label_pairs@.len(),
                pairs == pair_views(label_pairs@),
                error_views(label_errors@) == dup_label_errors(pairs.take(k as int)),
            decreases label_pairs@.len() - k,
        {
            let mut m: usize = 0;
            let mut found = false;
            while m < k
                invariant
                    m <= k,
                    k < label_pairs@.len(),
                    pairs == pair_views(label_pairs@),
                    found == exists|q: int| 0 <= q < m && pairs[q].1 == pairs[k as int].1,
                decreases k - m,
            {
                let ghost found_entry = found;
                let hit = str_eq(label_pairs[m].1, label_pairs[k].1);
                if hit {
                    found = true;
                }
                proof {
                    assert(pairs[m as int].1 == label_pairs@[m as int].1@);
                    assert(pairs[k as int].1 == label_pairs@[k as int].1@);
                    assert((exists|q: int| 0 <= q < m + 1 && pairs[q].1 == pairs[k as int].1) == (
                    found_entry || pairs[m as int].1 == pairs[k as int].1)) by {
                        if found_entry {
                            let q0 = choose|q: int| 0 <= q < m && pairs[q].1 == pairs[k as int].1;
                            assert(0 <= q0 < m + 1 && pairs[q0].1 == pairs[k as int].1);
                        }
                        if pairs[m as int].1 == pairs[k as int].1 {
                            assert(0 <= m < m + 1 && pairs[m as int].1 == pairs[k as int].1);
                        }
                        if exists|q: int| 0 <= q < m + 1 && pairs[q].1 == pairs[k as int].1 {
                            let q0 = choose|q: int|
                                0 <= q < m + 1 && pairs[q].1 == pairs[k as int].1;
                            if q0 < m {
                                assert(found_entry);
                            } else {
                                assert(pairs[m as int].1 == pairs[k as int].1);
                            }
                        }
                    }
                }
                m += 1;
            }
            if found {
                label_errors.push(
                    BuildError::InvalidOrDuplicateLabel {
                        plugin: label_pairs[k].0,
                        label: label_pairs[k].1,
                    },
                );
            }
            proof {
                let tk = pairs.take(k + 1 as int);
                assert(tk.drop_last() =~= pairs.take(k as int));
                assert(tk.last() == pairs[k as int]);
                assert forall|q: int| 0 <= q < tk.len() - 1 implies tk[q] == pairs[q] by {}
                assert((exists|q: int| 0 <= q < tk.len() - 1 && tk[q].1 == tk.last().1) == found);
                assert(error_views(label_errors@) =~= dup_label_errors(tk));
            }
            k += 1;
        }
        proof {
            assert(pairs.take(pairs.len() as int) =~= pairs);
        }
        if label_errors.len() > 0 {
            return BuildOutcome { result: Err(label_errors), warnings: Vec::new() };
        }
        // Step 2: flatten initializers and requirements in registration order.
        let mut plugins = self.plugins;
        let mut inits: Vec<ResourceInitializer> = Vec::new();
        let mut reqs: Vec<(PluginName, TypeInfo)> = Vec::new();
        let mut idx: usize = 0;
        let total = plugins.len();
        proof {
            assert(plugins@ =~= ps.skip(0));
            assert(metas_of(inits@) =~= flat_inits(ps.take(0)));
            assert(reqs@ =~= flat_reqs(ps.take(0)));
        }
        while plugins.len() > 0
            invariant
                total == ps.len(),
                idx + plugins@.len() == total,
                idx <= ps.len(),
                plugins@ =~= ps.skip(idx as int),
                metas_of(inits@) == flat_inits(ps.take(idx as int)),
                reqs@ == flat_reqs(ps.take(idx as int)),
            decreases plugins@.len(),
        {
            let ghost pend_entry = plugins@;
            let mut p = plugins.remove(0);
            proof {
                assert(pend_entry[0] == ps[idx as int]);
                assert(p == ps[idx as int]);
                assert(plugins@ =~= ps.skip(idx + 1 as int));
            }
            let ghost inits_entry = inits@;
            let ghost reqs_entry = reqs@;
            inits.append(&mut p.resource_initialisers);
            reqs.append(&mut p.resource_requirements);
            proof {
                let ti = ps.take(idx + 1 as int);
                assert(ti.drop_last() =~= ps.take(idx as int));
                assert(ti.last() == ps[idx as int]);
                assert(metas_of(inits@) =~= metas_of(inits_entry) + metas_of(
                    ps[idx as int].resource_initialisers@,
                ));
                assert(metas_of(inits@) =~= flat_inits(ti));
                assert(reqs@ =~= flat_reqs(ti));
            }
            idx += 1;
        }
        proof {
            assert(ps.take(idx as int) =~= ps);
        }
        // Steps 3 to 5: conflict scan, fixed-point execution, requirement
        // validation.
        let ghost im = metas_of(inits@);
        let mut container = Container::new();
        let ghost ct0 = container.tokens();
        let (errors, warnings) = Self::run_resorce_inits(inits, &reqs, &mut container);
        proof {
            assert(im == flat_inits(ps));
            assert(ct0.union(resolution(im).0) =~= resolution(im).0);
            assert(error_views(errors@).len() == errors@.len());
        }
        if errors.len() > 0 {
            BuildOutcome { result: Err(errors), warnings }
        } else {
            BuildOutcome { result: Ok(BuiltServer::new(container)), warnings }
        }
    }

    /// The resolver core: scan every unordered pair of initializers for
    /// overlap findings; run passes over the pending initializers, executing
    /// each as soon as its requirements are satisfied, until a pass runs
    /// nothing; then report every initializer still pending and every declared
    /// requirement whose type was never produced.
    pub fn run_resorce_inits(
        resource_inits: Vec<ResourceInitializer>,
        resource_requirements: &Vec<(PluginName, TypeInfo)>,
        container: &mut Container,
    ) -> (out: (Vec<BuildError>, Vec<Warning>))
        ensures
            final(container).tokens() == old(container).tokens().union(
                resolution(metas_of(resource_inits@)).0,
            ),
            warning_views(out.1@) == overlap_scan(metas_of(resource_inits@)) + dup_scan(
                metas_of(resource_inits@),
            ),
            error_views(out.0@) == unresolved_errors(
                resolution(metas_of(resource_inits@)).1,
                resolution(metas_of(resource_inits@)).0,
            ) + unmet_errors(resource_requirements@, resolution(metas_of(resource_inits@)).0),
    {
        let ghost inits0 = metas_of(resource_inits@);
        let ghost tokens0 = container.tokens();
        // Conflict scan over every unordered pair, in order.
        let mut warnings: Vec<Warning> = Vec::new();
        let n = resource_inits.len();
        let mut i: usize = 0;
        while i < n
            invariant
                i <= n,
                n == resource_inits@.len(),
                inits0 == metas_of(resource_inits@),
                warning_views(warnings@) == overlap_scan_upto(inits0, i as int),
            decreases n - i,
        {
            let mut u: usize = i + 1;
            proof {
                assert(inits0.subrange(i + 1 as int, i + 1 as int) =~= Seq::<InitMeta>::empty());
                assert(warning_views(warnings@) =~= overlap_scan_upto(inits0, i as int)
                    + overlap_row(
                    inits0[i as int],
                    inits0.subrange(i + 1 as int, i + 1 as int),
                ));
            }
            while u < n
                invariant
                    i + 1 <= u <= n,
                    n == resource_inits@.len(),
                    i < n,
                    inits0 == metas_of(resource_inits@),
                    warning_views(warnings@) == overlap_scan_upto(inits0, i as int) + overlap_row(
                        inits0[i as int],
                        inits0.subrange(i + 1 as int, u as int),
                    ),
                decreases n - u,
            {
                let mut w = resource_inits[i].init_overlap(&resource_inits[u]);
                let ghost w_entry = warnings@;
                let ghost w_snap = w@;
                warnings.append(&mut w);
                proof {
                    let su = inits0.subrange(i + 1 as int, u + 1 as int);
                    assert(su.drop_last() =~= inits0.subrange(i + 1 as int, u as int));
                    assert(su.last() == inits0[u as int]);
                    assert(warnings@ == w_entry + w_snap);
                    assert(warning_views(warnings@) =~= warning_views(w_entry) + warning_views(
                        w_snap,
                    ));
                    assert(warning_views(w_snap) == overlap_findings(
                        inits0[i as int],
                        inits0[u as int],
                    ));
                    assert(warning_views(warnings@) =~= overlap_scan_upto(inits0, i as int)
                        + overlap_row(inits0[i as int], su));
                }
                u += 1;
            }
            proof {
                assert(inits0.subrange(i + 1 as int, n as int) =~= inits0.skip(i + 1 as int));
                assert(warning_views(warnings@) =~= overlap_scan_upto(inits0, i + 1 as int));
            }
            i += 1;
        }
        proof {
            assert(overlap_scan(inits0) == overlap_scan_upto(inits0, inits0.len() as int));
        }
        // Duplicate-producer scan over every unordered pair, in order.
        let mut i2: usize = 0;
        proof {
            assert(warning_views(warnings@) + dup_scan_upto(inits0, 0) =~= warning_views(
                warnings@,
            ));
        }
        while i2 < n
            invariant
                i2 <= n,
                n == resource_inits@.len(),
                inits0 == metas_of(resource_inits@),
                warning_views(warnings@) == overlap_scan(inits0) + dup_scan_upto(
                    inits0,
                    i2 as int,
                ),
            decreases n - i2,
        {
            let mut u2: usize = i2 + 1;
            proof {
                assert(inits0.subrange(i2 + 1 as int, i2 + 1 as int) =~= Seq::<InitMeta>::empty());
                assert(warning_views(warnings@) =~= overlap_scan(inits0) + (dup_scan_upto(
                    inits0,
                    i2 as int,
                ) + dup_row(inits0[i2 as int], inits0.subrange(i2 + 1 as int, i2 + 1 as int))));
            }
            while u2 < n
                invariant
                    i2 + 1 <= u2 <= n,
                    n == resource_inits@.len(),
                    i2 < n,
                    inits0 == metas_of(resource_inits@),
                    warning_views(warnings@) == overlap_scan(inits0) + (dup_scan_upto(
                        inits0,
                        i2 as int,
                    ) + dup_row(inits0[i2 as int], inits0.subrange(i2 + 1 as int, u2 as int))),
                decreases n - u2,
            {
                let mut w = resource_inits[i2].producer_collisions(&resource_inits[u2]);
                let ghost w_entry = warnings@;
                let ghost w_snap = w@;
                warnings.append(&mut w);
                proof {
                    let su = inits0.subrange(i2 + 1 as int, u2 + 1 as int);
                    assert(su.drop_last() =~= inits0.subrange(i2 + 1 as int, u2 as int));
                    assert(su.last() == inits0[u2 as int]);
                    assert(warnings@ == w_entry + w_snap);
                    assert(warning_views(warnings@) =~= warning_views(w_entry) + warning_views(
                        w_snap,
                    ));
                    assert(warning_views(w_snap) == dup_findings(
                        inits0[i2 as int],
                        inits0[u2 as int],
                    ));
                    assert(warning_views(warnings@) =~= overlap_scan(inits0) + (dup_scan_upto(
                        inits0,
                        i2 as int,
                    ) + dup_row(inits0[i2 as int], su)));
                }
                u2 += 1;
            }
            proof {
                assert(inits0.subrange(i2 + 1 as int, n as int) =~= inits0.skip(i2 + 1 as int));
                assert(warning_views(warnings@) =~= overlap_scan(inits0) + dup_scan_upto(
                    inits0,
                    i2 + 1 as int,
                ));
            }
            i2 += 1;
        }
        proof {
            assert(dup_scan(inits0) == dup_scan_upto(inits0, inits0.len() as int));
        }
        // Fixed-point execution.
        let mut sat: Vec<core::any::TypeId> = Vec::new();
        let mut pending: Vec<ResourceInitializer> = resource_inits;
        let mut done = false;
        proof {
            assert(sat@.to_set() =~= Set::<core::any::TypeId>::empty());
            assert(container.tokens() =~= tokens0.union(sat@.to_set()));
        }
        while !done
            invariant
                !done ==> resolve(sat@.to_set(), metas_of(pending@)) == resolution(inits0),
                done ==> sat@.to_set() == resolution(inits0).0 && metas_of(pending@) == resolution(
                    inits0,
                ).1,
                container.tokens() == tokens0.union(sat@.to_set()),
            decreases pending@.len(), (if done { 0int } else { 1int }),
        {
            let n_before = pending.len();
            let ghost pm = metas_of(pending@);
            let ghost sat0set = sat@.to_set();
            let mut rest: Vec<ResourceInitializer> = Vec::new();
            proof {
                assert(metas_of(rest@) =~= Seq::<InitMeta>::empty());
                assert(metas_of(rest@) + pass(sat@.to_set(), metas_of(pending@)).1 =~= pass(
                    sat0set,
                    pm,
                ).1);
            }
            while pending.len() > 0
                invariant
                    pass(sat0set, pm).0 == pass(sat@.to_set(), metas_of(pending@)).0,
                    pass(sat0set, pm).1 == metas_of(rest@) + pass(
                        sat@.to_set(),
                        metas_of(pending@),
                    ).1,
                    container.tokens() == tokens0.union(sat@.to_set()),
                decreases pending@.len(),
            {
                let ghost p_old = metas_of(pending@);
                let ghost sat_old = sat@.to_set();
                let x = pending.remove(0);
                proof {
                    assert(metas_of(pending@) =~= p_old.drop_first());
                    assert(x@ == p_old[0]);
                }
                if x.all_requires_in(&sat) {
                    proof {
                        assert forall|q: int|
                            0 <= q < x@.reqs.len() implies container.tokens().contains(
                            x@.reqs[q].id,
                        ) by {
                            assert(sat@.to_set().contains(x@.reqs[q].id));
                        }
                    }
                    x.call(container);
                    let cv = x.creates_ids();
                    let ghost sat_entry = sat@;
                    let mut q: usize = 0;
                    while q < cv.len()
                        invariant
                            q <= cv@.len(),
                            sat@ == sat_entry + cv@.take(q as int),
                        decreases cv@.len() - q,
                    {
                        sat.push(cv[q]);
                        proof {
                            assert(cv@.take(q + 1 as int) =~= cv@.take(q as int).push(
                                cv@[q as int],
                            ));
                            assert(sat@ =~= sat_entry + cv@.take(q + 1 as int));
                        }
                        q += 1;
                    }
                    proof {
                        assert(cv@.take(cv@.len() as int) =~= cv@);
                        lemma_concat_to_set(sat_entry, cv@);
                        assert(cv@.to_set() == created_id_set(x@));
                        assert(sat@.to_set() == sat_old.union(created_id_set(x@)));
                        assert(container.tokens() =~= tokens0.union(sat@.to_set()));
                        assert(runnable(p_old[0], sat_old));
                        assert(pass(sat_old, p_old) == pass(
                            sat_old.union(created_id_set(p_old[0])),
                            p_old.drop_first(),
                        ));
                    }
                } else {
                    let ghost rest_old = rest@;
                    rest.push(x);
                    proof {
                        assert(metas_of(rest@) =~= metas_of(rest_old).push(x@));
                        assert(!runnable(p_old[0], sat_old));
                        let r2 = pass(sat_old, p_old.drop_first());
                        assert(pass(sat_old, p_old) == (r2.0, seq![p_old[0]] + r2.1));
                        assert(metas_of(rest_old) + (seq![p_old[0]] + r2.1) =~= metas_of(rest@)
                            + r2.1);
                    }
                }
            }
            proof {
                assert(metas_of(pending@) =~= Seq::<InitMeta>::empty());
                assert(pass(sat@.to_set(), metas_of(pending@)) == (
                    sat@.to_set(),
                    Seq::<InitMeta>::empty(),
                ));
                assert(metas_of(rest@) + Seq::<InitMeta>::empty() =~= metas_of(rest@));
                assert(pass(sat0set, pm) == (sat@.to_set(), metas_of(rest@)));
                assert(rest@.len() == metas_of(rest@).len());
            }
            if rest.len() == n_before {
                proof {
                    lemma_pass_props(sat0set, pm);
                    assert(pass(sat0set, pm).1.len() == pm.len());
                    assert(sat@.to_set() == sat0set);
                    assert(resolve(sat0set, pm) == (sat0set, pm));
                    assert(metas_of(rest@) == pm);
                }
                done = true;
            } else {
                proof {
                    lemma_pass_props(sat0set, pm);
                    assert(pass(sat0set, pm).1.len() == rest@.len());
                    assert(pm.len() == n_before);
                    assert(pass(sat0set, pm).1.len() < pm.len());
                    assert(resolve(sat0set, pm) == resolve(
                        pass(sat0set, pm).0,
                        pass(sat0set, pm).1,
                    ));
                }
            }
            pending = rest;
        }
        // Report the initializers stuck at the fixed point.
        let ghost fsat = sat@.to_set();
        let ghost stuckm = metas_of(pending@);
        let mut errors: Vec<BuildError> = Vec::new();
        let mut k: usize = 0;
        proof {
            assert(error_views(errors@) =~= unresolved_errors(stuckm.take(0), fsat));
        }
        while k < pending.len()
            invariant
                k <= pending@.len(),
                fsat == sat@.to_set(),
                stuckm == metas_of(pending@),
                error_views(errors@) == unresolved_errors(stuckm.take(k as int), fsat),
            decreases pending@.len() - k,
        {
            let x = &pending[k];
            let outputs = x.creates();
            let req_list = x.required();
            let mut missing: Vec<TypeInfo> = Vec::new();
            let mut j: usize = 0;
            proof {
                assert(missing@ =~= missing_of(req_list@.take(0), fsat));
            }
            while j < req_list.len()
                invariant
                    j <= req_list@.len(),
                    fsat == sat@.to_set(),
                    req_list@ == metas_of(pending@)[k as int].reqs,
                    k < pending@.len(),
                    missing@ == missing_of(req_list@.take(j as int), fsat),
                decreases req_list@.len() - j,
            {
                if !id_in(&sat, req_list[j].id) {
                    missing.push(req_list[j]);
                }
                proof {
                    let tj = req_list@.take(j + 1 as int);
                    assert(tj.drop_last() =~= req_list@.take(j as int));
                    assert(tj.last() == req_list@[j as int]);
                    assert(fsat.contains(req_list@[j as int].id) == sat@.contains(
                        req_list@[j as int].id,
                    ));
                    assert(missing@ =~= missing_of(tj, fsat));
                }
                j += 1;
            }
            proof {
                assert(req_list@.take(req_list@.len() as int) =~= req_list@);
            }
            let owner = x.plugin_name();
            let ghost errors_entry = errors@;
            errors.push(BuildError::UnresolvableDependency { owner, outputs, missing });
            proof {
                let tk = stuckm.take(k + 1 as int);
                assert(tk.drop_last() =~= stuckm.take(k as int));
                assert(tk.last() == stuckm[k as int]);
                assert(error_views(errors@) =~= unresolved_errors(tk, fsat));
            }
            k += 1;
        }
        proof {
            assert(stuckm.take(stuckm.len() as int) =~= stuckm);
        }
        // Requirement validation: every declared requirement must be satisfied.
        let mut k2: usize = 0;
        proof {
            assert(error_views(errors@) + unmet_errors(resource_requirements@.take(0), fsat)
                =~= error_views(errors@));
        }
        while k2 < resource_requirements.len()
            invariant
                k2 <= resource_requirements@.len(),
                fsat == sat@.to_set(),
                error_views(errors@) == unresolved_errors(stuckm, fsat) + unmet_errors(
                    resource_requirements@.take(k2 as int),
                    fsat,
                ),
            decreases resource_requirements@.len() - k2,
        {
            let pr = resource_requirements[k2];
            let ghost errors_entry = errors@;
            let absent = !id_in(&sat, pr.1.id);
            if absent {
                errors.push(BuildError::UnmetRequirement { owner: pr.0, required: pr.1 });
            }
            proof {
                let tk = resource_requirements@.take(k2 + 1 as int);
                assert(tk.drop_last() =~= resource_requirements@.take(k2 as int));
                assert(tk.last() == resource_requirements@[k2 as int]);
                assert(pr == resource_requirements@[k2 as int]);
                assert(fsat.contains(pr.1.id) == sat@.contains(pr.1.id));
                if absent {
                    assert(errors@ == errors_entry.push(
                        BuildError::UnmetRequirement { owner: pr.0, required: pr.1 },
                    ));
                    assert(unmet_errors(tk, fsat) == unmet_errors(
                        resource_requirements@.take(k2 as int),
                        fsat,
                    ).push(BuildErrorSpec::UnmetRequirement { owner: pr.0@, required: pr.1 }));
                    assert(error_views(errors@) =~= error_views(errors_entry).push(
                        BuildErrorSpec::UnmetRequirement { owner: pr.0@, required: pr.1 },
                    ));
                } else {
                    assert(unmet_errors(tk, fsat) == unmet_errors(
                        resource_requirements@.take(k2 as int),
                        fsat,
                    ));
                }
                assert(error_views(errors@) =~= unresolved_errors(stuckm, fsat) + unmet_errors(
                    tk,
                    fsat,
                ));
            }
            k2 += 1;
        }
        proof {
            assert(resource_requirements@.take(resource_requirements@.len() as int)
                =~= resource_requirements@);
        }
        (errors, warnings)
    }
}

/// The spec images of owner-label pairs.
pub open spec fn pair_views(s: Seq<(PluginName, &'static str)>) -> Seq<(Seq<char>, Seq<char>)> {
    s.map_values(|p: (PluginName, &'static str)| (p.0@, p.1@))
}

/// The fixed point reports exactly one problem per stuck initializer.
pub proof fn lemma_unresolved_errors_len(stuck: Seq<InitMeta>, fsat: Set<core::any::TypeId>)
    ensures
        unresolved_errors(stuck, fsat).len() == stuck.len(),
    decreases stuck.len(),
{
    if stuck.len() > 0 {
        lemma_unresolved_errors_len(stuck.drop_last(), fsat);
    }
}

/// No requirement whose identity is satisfied is reported.
pub proof fn lemma_unmet_errors_empty(
    reqs: Seq<(PluginName, TypeInfo)>,
    fsat: Set<core::any::TypeId>,
)
    requires
        forall|k: int| 0 <= k < reqs.len() ==> fsat.contains((#[trigger] reqs[k]).1.id),
    ensures
        unmet_errors(reqs, fsat).len() == 0,
    decreases reqs.len(),
{
    if reqs.len() > 0 {
        assert forall|k: int|
            0 <= k < reqs.drop_last().len() implies fsat.contains(
            (#[trigger] reqs.drop_last()[k]).1.id,
        ) by {
            assert(reqs.drop_last()[k] == reqs[k]);
        }
        lemma_unmet_errors_empty(reqs.drop_last(), fsat);
    }
}

/// For a composed plugin set whose flattened requires/creates relation is
/// acyclic (witnessed by `rank`), with every required type and every declared
/// requirement produced by some initializer, the whole error list of a
/// label-clean build is empty: by `build`'s contract the build succeeds, the
/// satisfied set is exactly the union of every `creates` list, and the order
/// the plugins were registered in plays no part in that outcome.
pub proof fn lemma_dag_build_succeeds(ps: Seq<Plugin>, rank: Map<core::any::TypeId, nat>)
    requires
        forall|i: int, k: int|
            0 <= i < flat_inits(ps).len() && 0 <= k < flat_inits(ps)[i].reqs.len() ==> exists|
                j: int,
            |
                0 <= j < flat_inits(ps).len() && seq_contains_id(
                    (#[trigger] flat_inits(ps)[j]).creates,
                    (#[trigger] flat_inits(ps)[i].reqs[k]).id,
                ),
        rank_ordered(rank, flat_inits(ps)),
        forall|k: int|
            0 <= k < flat_reqs(ps).len() ==> exists|j: int|
                0 <= j < flat_inits(ps).len() && seq_contains_id(
                    (#[trigger] flat_inits(ps)[j]).creates,
                    (#[trigger] flat_reqs(ps)[k]).1.id,
                ),
    ensures
        resolution(flat_inits(ps)).1.len() == 0,
        resolution(flat_inits(ps)).0 == all_created(flat_inits(ps)),
        (unresolved_errors(resolution(flat_inits(ps)).1, resolution(flat_inits(ps)).0)
            + unmet_errors(flat_reqs(ps), resolution(flat_inits(ps)).0)).len() == 0,
{
    let inits = flat_inits(ps);
    lemma_dag_resolution_succeeds(inits, rank);
    lemma_unresolved_errors_len(resolution(inits).1, resolution(inits).0);
    assert forall|k: int|
        0 <= k < flat_reqs(ps).len() implies resolution(inits).0.contains(
        (#[trigger] flat_reqs(ps)[k]).1.id,
    ) by {
        lemma_all_created_contains(inits, flat_reqs(ps)[k].1.id);
    }
    lemma_unmet_errors_empty(flat_reqs(ps), resolution(inits).0);
}

/// A dependency cycle among the flattened initializers leaves the error list
/// of a label-clean build non-empty: by `build`'s contract the build fails,
/// with one `UnresolvableDependency` report per initializer that never became
/// satisfied.
pub proof fn lemma_cycle_build_fails(ps: Seq<Plugin>, cyc: Set<InitMeta>)
    requires
        cycle_blocked(flat_inits(ps), cyc),
        exists|x: InitMeta| flat_inits(ps).contains(x) && (#[trigger] cyc.contains(x)),
    ensures
        (unresolved_errors(resolution(flat_inits(ps)).1, resolution(flat_inits(ps)).0)
            + unmet_errors(flat_reqs(ps), resolution(flat_inits(ps)).0)).len() > 0,
{
    lemma_cycle_never_resolves(flat_inits(ps), cyc);
    lemma_unresolved_errors_len(resolution(flat_inits(ps)).1, resolution(flat_inits(ps)).0);
}

/// A declared requirement on a type no flattened initializer produces leaves
/// its report in the error list of a label-clean build, which is then
/// non-empty: by `build`'s contract the build fails, naming that plugin and
/// type.
pub proof fn lemma_unmet_requirement_fails_build(ps: Seq<Plugin>, k: int)
    requires
        0 <= k < flat_reqs(ps).len(),
        forall|j: int|
            0 <= j < flat_inits(ps).len() ==> !seq_contains_id(
                (#[trigger] flat_inits(ps)[j]).creates,
                flat_reqs(ps)[k].1.id,
            ),
    ensures
        unmet_errors(flat_reqs(ps), resolution(flat_inits(ps)).0).contains(
            BuildErrorSpec::UnmetRequirement {
                owner: flat_reqs(ps)[k].0@,
                required: flat_reqs(ps)[k].1,
            },
        ),
        (unresolved_errors(resolution(flat_inits(ps)).1, resolution(flat_inits(ps)).0)
            + unmet_errors(flat_reqs(ps), resolution(flat_inits(ps)).0)).len() > 0,
{
    lemma_unmet_requirement_reported(flat_inits(ps), flat_reqs(ps), k);
}

} // verus!
