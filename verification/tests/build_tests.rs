use feather_plugin::{BuildError, Plugin, ServerBuilder, TypeInfo, Warning};

#[derive(Clone)]
struct ValA(i32);
#[derive(Clone)]
struct ValB(i32);
#[derive(Clone)]
struct ValC(i32);
#[derive(Clone)]
struct SharedT(u8);
#[derive(Clone)]
struct OutA(u8);
#[derive(Clone)]
struct OutB(u8);
#[derive(Clone)]
struct NeverMade(u8);

fn plugin(name: &'static str) -> Plugin {
    match Plugin::new(name) {
        Ok(p) => p,
        Err(_) => panic!("plugin name rejected: {}", name),
    }
}

#[test]
fn scenario_two_initializers_in_registration_order() {
    let p = plugin("world_edit")
        .add_resource(|| -> usize { 1 })
        .add_resource(|x: &usize| -> i32 { (x + 1) as i32 })
        .add_resource_requirement::<usize>();
    let mut b = ServerBuilder::new();
    b.add_plugin(p).unwrap();
    let out = b.build();
    let s = out.result.unwrap();
    assert_eq!(Some(1usize), s.world.get_resource::<usize>());
    assert_eq!(Some(2i32), s.world.get_resource::<i32>());
}

#[test]
fn scenario_two_initializers_in_reverse_order() {
    let p = plugin("world_edit")
        .add_resource(|x: &usize| -> i32 { (x + 1) as i32 })
        .add_resource(|| -> usize { 1 })
        .add_resource_requirement::<usize>();
    let mut b = ServerBuilder::new();
    b.add_plugin(p).unwrap();
    let out = b.build();
    let s = out.result.unwrap();
    assert_eq!(Some(1usize), s.world.get_resource::<usize>());
    assert_eq!(Some(2i32), s.world.get_resource::<i32>());
}

#[test]
fn scenario_missing_requirement_names_plugin_and_type() {
    let p = plugin("needy").add_resource_requirement::<NeverMade>();
    let mut b = ServerBuilder::new();
    b.add_plugin(p).unwrap();
    let out = b.build();
    let errs = match out.result {
        Ok(_) => panic!("build must fail on an unmet requirement"),
        Err(errs) => errs,
    };
    assert_eq!(errs.len(), 1);
    match &errs[0] {
        BuildError::UnmetRequirement { owner, required } => {
            assert_eq!(*owner, "needy");
            assert_eq!(required.id, std::any::TypeId::of::<NeverMade>());
        },
        other => panic!("wrong error kind: {:?}", other),
    }
}

#[test]
fn scenario_reverse_dependency_chain_resolves() {
    // C needs B, B needs A; registered as C, B, A.
    let p = plugin("chain")
        .add_resource(|b: &ValB| -> ValC { ValC(b.0 + 1) })
        .add_resource(|a: &ValA| -> ValB { ValB(a.0 + 1) })
        .add_resource(|| -> ValA { ValA(10) });
    let mut b = ServerBuilder::new();
    b.add_plugin(p).unwrap();
    let out = b.build();
    let s = out.result.unwrap();
    assert!(matches!(s.world.get_resource::<ValA>(), Some(ValA(10))));
    assert!(matches!(s.world.get_resource::<ValB>(), Some(ValB(11))));
    assert!(matches!(s.world.get_resource::<ValC>(), Some(ValC(12))));
}

#[test]
fn scenario_duplicate_producers_last_write_wins() {
    // Two unrelated initializers both produce usize: the later one in
    // flattened order runs later in the same pass and overwrites.
    let p1 = plugin("first").add_resource(|| -> usize { 1 });
    let p2 = plugin("second").add_resource(|| -> usize { 9 });
    let mut b = ServerBuilder::new();
    b.add_plugin(p1).unwrap();
    b.add_plugin(p2).unwrap();
    let out = b.build();
    // The collision is reported as a non-fatal diagnostic naming both owners.
    let dup_hits: Vec<&Warning> = out
        .warnings
        .iter()
        .filter(|w| matches!(w, Warning::DuplicateProducer { .. }))
        .collect();
    assert_eq!(dup_hits.len(), 1);
    match dup_hits[0] {
        Warning::DuplicateProducer { created, owner_a, owner_b } => {
            assert_eq!(created.id, std::any::TypeId::of::<usize>());
            assert_eq!(*owner_a, "first");
            assert_eq!(*owner_b, "second");
        },
        _ => unreachable!(),
    }
    let s = out.result.unwrap();
    assert_eq!(Some(9usize), s.world.get_resource::<usize>());
}

#[test]
fn duplicate_plugin_name_is_refused_at_registration() {
    let mut b = ServerBuilder::new();
    b.add_plugin(plugin("dup")).unwrap();
    let r = b.add_plugin(plugin("dup"));
    match r {
        Err(BuildError::DuplicatePluginName { name }) => assert_eq!(name, "dup"),
        _ => panic!("expected a duplicate-name error"),
    }
    // A different name is still accepted afterwards.
    b.add_plugin(plugin("other")).unwrap();
}

#[test]
fn overlap_warning_names_both_owners_once() {
    for flip in [false, true] {
        let pa = plugin("alpha")
            .add_resource(|t: &SharedT| -> OutA { OutA(t.0) })
            .add_resource(|| -> SharedT { SharedT(7) });
        let pb = plugin("beta").add_resource(|t: &SharedT| -> OutB { OutB(t.0) });
        let mut b = ServerBuilder::new();
        if flip {
            b.add_plugin(pb).unwrap();
            b.add_plugin(pa).unwrap();
        } else {
            b.add_plugin(pa).unwrap();
            b.add_plugin(pb).unwrap();
        }
        let out = b.build();
        assert!(out.result.is_ok());
        let hits: Vec<&Warning> = out
            .warnings
            .iter()
            .filter(|w| match w {
                Warning::Overlap { required, .. } => {
                    required.id == std::any::TypeId::of::<SharedT>()
                },
                _ => false,
            })
            .collect();
        assert_eq!(hits.len(), 1);
        match hits[0] {
            Warning::Overlap { owner_a, owner_b, .. } => {
                let mut owners = [*owner_a, *owner_b];
                owners.sort();
                assert_eq!(owners, ["alpha", "beta"]);
            },
            _ => unreachable!(),
        }
    }
}

#[test]
fn dependency_cycle_reports_every_stuck_initializer() {
    let p = plugin("loopy")
        .add_resource(|a: &ValA| -> ValB { ValB(a.0) })
        .add_resource(|b: &ValB| -> ValA { ValA(b.0) });
    let mut b = ServerBuilder::new();
    b.add_plugin(p).unwrap();
    let out = b.build();
    let errs = match out.result {
        Ok(_) => panic!("a cycle must fail the build"),
        Err(errs) => errs,
    };
    assert_eq!(errs.len(), 2);
    for e in &errs {
        match e {
            BuildError::UnresolvableDependency { owner, outputs, missing } => {
                assert_eq!(*owner, "loopy");
                assert_eq!(outputs.len(), 1);
                assert_eq!(missing.len(), 1);
            },
            other => panic!("wrong error kind: {:?}", other),
        }
    }
}

#[test]
fn plugin_name_validation() {
    assert!(Plugin::new("fine_name").is_ok());
    assert!(matches!(Plugin::new(""), Err(BuildError::InvalidPluginName { .. })));
    assert!(matches!(Plugin::new("has space"), Err(BuildError::InvalidPluginName { .. })));
    assert!(matches!(Plugin::new("tab\there"), Err(BuildError::InvalidPluginName { .. })));
}

#[test]
fn label_validation_and_reservation() {
    let p = plugin("worker");
    let p = match p.add_system("worker::tick") {
        Ok(p) => p,
        Err(_) => panic!("a prefixed label must be accepted"),
    };
    // Missing prefix is refused.
    assert!(matches!(
        plugin("worker").add_system("tick"),
        Err(BuildError::InvalidOrDuplicateLabel { .. })
    ));
    // Reserving the same label twice in one plugin is refused.
    assert!(matches!(
        p.add_system("worker::tick"),
        Err(BuildError::InvalidOrDuplicateLabel { .. })
    ));
}

#[test]
fn cross_plugin_label_collision_fails_build() {
    // Two plugins whose names make the same label legal for both.
    let pa = plugin("ns").add_system("ns::shared").unwrap();
    let pb = plugin("ns2").add_resource(|| -> usize { 3 });
    let mut pb = pb;
    pb.used_system_labels.push("ns::shared");
    let mut b = ServerBuilder::new();
    b.add_plugin(pa).unwrap();
    b.add_plugin(pb).unwrap();
    let out = b.build();
    let errs = match out.result {
        Ok(_) => panic!("a label collision must fail the build"),
        Err(errs) => errs,
    };
    assert_eq!(errs.len(), 1);
    match &errs[0] {
        BuildError::InvalidOrDuplicateLabel { plugin, label } => {
            assert_eq!(*plugin, "ns2");
            assert_eq!(*label, "ns::shared");
        },
        other => panic!("wrong error kind: {:?}", other),
    }
}

#[test]
fn requirement_declared_twice_is_recorded_once() {
    let p = plugin("careful")
        .add_resource_requirement::<usize>()
        .add_resource_requirement::<usize>();
    assert_eq!(p.resource_requirements.len(), 1);
}

#[test]
fn requirement_tokens_follow_set_semantics() {
    let t = TypeInfo::of::<usize>();
    let u = TypeInfo::of::<i32>();
    let p = plugin("careful")
        .add_requirement_token(t)
        .add_requirement_token(t)
        .add_requirement_token(u);
    assert_eq!(p.resource_requirements.len(), 2);
    assert_eq!(p.resource_requirements[0].0, "careful");
    assert_eq!(p.resource_requirements[0].1, t);
    assert_eq!(p.resource_requirements[1].1, u);
    // The generic form reduces to the token form: still no new entry.
    let p = p.add_resource_requirement::<usize>();
    assert_eq!(p.resource_requirements.len(), 2);
}

#[test]
fn type_info_equality_is_by_identity_only() {
    let a = TypeInfo::of::<usize>();
    let b = TypeInfo::of::<usize>();
    let c = TypeInfo::of::<i32>();
    assert!(a == b);
    assert!(a != c);
    let mut renamed = TypeInfo::of::<usize>();
    renamed.name = "some other label";
    assert!(a == renamed);
}

#[test]
fn initializer_metadata_follows_the_signature() {
    let p = plugin("meta").add_resource(|a: &ValA, b: &ValB| -> ValC { ValC(a.0 + b.0) });
    let init = &p.resource_initialisers[0];
    assert_eq!(init.plugin_name(), "meta");
    let req = init.required();
    assert_eq!(req.len(), 2);
    assert_eq!(req[0].id, std::any::TypeId::of::<ValA>());
    assert_eq!(req[1].id, std::any::TypeId::of::<ValB>());
    let made = init.creates();
    assert_eq!(made.len(), 1);
    assert_eq!(made[0].id, std::any::TypeId::of::<ValC>());
    let ids = init.creates_ids();
    assert_eq!(ids, vec![std::any::TypeId::of::<ValC>()]);
    let mut sat = vec![std::any::TypeId::of::<ValA>()];
    assert!(!init.all_requires_in(&sat));
    sat.push(std::any::TypeId::of::<ValB>());
    assert!(init.all_requires_in(&sat));
}

#[test]
fn direct_overlap_scan_is_symmetric() {
    let pa = plugin("one").add_resource(|t: &SharedT| -> OutA { OutA(t.0) });
    let pb = plugin("two").add_resource(|t: &SharedT| -> OutB { OutB(t.0) });
    let ia = &pa.resource_initialisers[0];
    let ib = &pb.resource_initialisers[0];
    let f_ab = ia.init_overlap(ib);
    let f_ba = ib.init_overlap(ia);
    assert_eq!(f_ab.len(), 1);
    assert_eq!(f_ba.len(), 1);
    match &f_ab[0] {
        Warning::Overlap { required, owner_a, owner_b } => {
            assert_eq!(required.id, std::any::TypeId::of::<SharedT>());
            assert_eq!(*owner_a, "one");
            assert_eq!(*owner_b, "two");
        },
        _ => panic!("expected an overlap finding"),
    }
}

#[test]
fn repeated_requirement_entries_yield_one_overlap_finding() {
    // One initializer lists SharedT twice; the other once. Still one finding.
    let pa = plugin("twice").add_resource(|a: &SharedT, b: &SharedT| -> OutA { OutA(a.0 + b.0) });
    let pb = plugin("once").add_resource(|t: &SharedT| -> OutB { OutB(t.0) });
    let ia = &pa.resource_initialisers[0];
    let ib = &pb.resource_initialisers[0];
    assert_eq!(ia.init_overlap(ib).len(), 1);
    assert_eq!(ib.init_overlap(ia).len(), 1);
}

#[test]
fn type_info_carries_the_printable_type_name() {
    let t = TypeInfo::of::<usize>();
    assert_eq!(t.name, "usize");
    let n = TypeInfo::of::<NeverMade>().name;
    assert!(n.ends_with("NeverMade"));
}

#[test]
fn protocol_connection_plugin_builds() {
    let p = feather_plugin::protocol_connection::init_plugin();
    assert_eq!(p.name(), "feather_core_protocol_connection");
    assert_eq!(p.resource_initialisers.len(), 2);
    for init in &p.resource_initialisers {
        assert_eq!(init.required().len(), 0);
        assert_eq!(init.creates().len(), 1);
    }
    let mut b = ServerBuilder::new();
    b.add_plugin(p).unwrap();
    let out = b.build();
    assert!(out.result.is_ok());
}

#[test]
fn four_parameter_arities_cover_zero_to_three() {
    let p = plugin("arity")
        .add_resource(|| -> ValA { ValA(1) })
        .add_resource(|a: &ValA| -> ValB { ValB(a.0 + 1) })
        .add_resource(|a: &ValA, b: &ValB| -> ValC { ValC(a.0 + b.0) })
        .add_resource(|a: &ValA, b: &ValB, c: &ValC| -> usize { (a.0 + b.0 + c.0) as usize });
    let mut b = ServerBuilder::new();
    b.add_plugin(p).unwrap();
    let out = b.build();
    let s = out.result.unwrap();
    assert!(matches!(s.world.get_resource::<ValC>(), Some(ValC(3))));
    assert_eq!(Some(6usize), s.world.get_resource::<usize>());
}
