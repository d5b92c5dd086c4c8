use vstd::prelude::*;
use crate::type_info::TypeInfo;
use crate::PluginName;

verus! {

/// Spec-level image of a fatal build problem.
pub enum BuildErrorSpec {
    InvalidPluginName { name: Seq<char> },
    DuplicatePluginName { name: Seq<char> },
    InvalidOrDuplicateLabel { plugin: Seq<char>, label: Seq<char> },
    UnresolvableDependency { owner: Seq<char>, outputs: Seq<TypeInfo>, missing: Seq<TypeInfo> },
    UnmetRequirement { owner: Seq<char>, required: TypeInfo },
}

/// One fatal problem found while composing or building. A build reports every
/// problem it finds, not only the first.
#[derive(Debug)]
pub enum BuildError {
    /// The plugin name is empty or contains whitespace.
    InvalidPluginName { name: PluginName },
    /// Two composed plugins share a name.
    DuplicatePluginName { name: PluginName },
    /// A work-unit label lacks the `<plugin>::` prefix or repeats an already
    /// reserved label.
    InvalidOrDuplicateLabel { plugin: PluginName, label: &'static str },
    /// Resolution reached its fixed point with this initializer still pending:
    /// `missing` lists the required types that never became available.
    UnresolvableDependency { owner: PluginName, outputs: Vec<TypeInfo>, missing: Vec<TypeInfo> },
    /// A declared requirement's type was never produced.
    UnmetRequirement { owner: PluginName, required: TypeInfo },
}

impl View for BuildError {
    type V = BuildErrorSpec;

    open spec fn view(&self) -> BuildErrorSpec {
        match self {
            BuildError::InvalidPluginName { name } => BuildErrorSpec::InvalidPluginName {
                name: name@,
            },
            BuildError::DuplicatePluginName { name } => BuildErrorSpec::DuplicatePluginName {
                name: name@,
            },
            BuildError::InvalidOrDuplicateLabel { plugin, label } => {
                BuildErrorSpec::InvalidOrDuplicateLabel { plugin: plugin@, label: label@ }
            },
            BuildError::UnresolvableDependency { owner, outputs, missing } => {
                BuildErrorSpec::UnresolvableDependency {
                    owner: owner@,
                    outputs: outputs@,
                    missing: missing@,
                }
            },
            BuildError::UnmetRequirement { owner, required } => {
                BuildErrorSpec::UnmetRequirement { owner: owner@, required: *required }
            },
        }
    }
}

/// The spec images of a sequence of build errors.
pub open spec fn error_views(s: Seq<BuildError>) -> Seq<BuildErrorSpec> {
    s.map_values(|e: BuildError| e@)
}

/// Spec-level image of a non-fatal diagnostic.
pub enum WarningSpec {
    Overlap { required: TypeInfo, owner_a: Seq<char>, owner_b: Seq<char> },
    DuplicateProducer { created: TypeInfo, owner_a: Seq<char>, owner_b: Seq<char> },
}

/// A non-fatal diagnostic emitted by the pre-execution scans. Warnings never
/// block execution.
#[derive(Clone, Copy, Debug)]
pub enum Warning {
    /// Two initializers from different owners both require `required`, and
    /// neither produces it: they may silently depend on a third party's output.
    Overlap { required: TypeInfo, owner_a: PluginName, owner_b: PluginName },
    /// Two initializers both produce `created`; whichever runs last silently
    /// overwrites the other's value.
    DuplicateProducer { created: TypeInfo, owner_a: PluginName, owner_b: PluginName },
}

impl View for Warning {
    type V = WarningSpec;

    open spec fn view(&self) -> WarningSpec {
        match self {
            Warning::Overlap { required, owner_a, owner_b } => WarningSpec::Overlap {
                required: *required,
                owner_a: owner_a@,
                owner_b: owner_b@,
            },
            Warning::DuplicateProducer { created, owner_a, owner_b } => {
                WarningSpec::DuplicateProducer {
                    created: *created,
                    owner_a: owner_a@,
                    owner_b: owner_b@,
                }
            },
        }
    }
}

/// The spec images of a sequence of warnings.
pub open spec fn warning_views(s: Seq<Warning>) -> Seq<WarningSpec> {
    s.map_values(|w: Warning| w@)
}

} // verus!
