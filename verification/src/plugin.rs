use vstd::prelude::*;
use crate::errors::{BuildError, BuildErrorSpec};
use crate::resources::{ResourceInit, ResourceInitializer};
use crate::type_info::TypeInfo;
use crate::PluginName;

verus! {

/// A character counts as whitespace for plugin-name validation exactly when it
/// has the Unicode `White_Space` property.
pub open spec fn is_whitespace_char(c: char) -> bool {
    c == '\u{0009}' || c == '\u{000A}' || c == '\u{000B}' || c == '\u{000C}'
        || c == '\u{000D}' || c == '\u{0020}' || c == '\u{0085}' || c == '\u{00A0}'
        || c == '\u{1680}' || c == '\u{2000}' || c == '\u{2001}' || c == '\u{2002}'
        || c == '\u{2003}' || c == '\u{2004}' || c == '\u{2005}' || c == '\u{2006}'
        || c == '\u{2007}' || c == '\u{2008}' || c == '\u{2009}' || c == '\u{200A}'
        || c == '\u{2028}' || c == '\u{2029}' || c == '\u{202F}' || c == '\u{205F}'
        || c == '\u{3000}'
}

/// A plugin name is valid when it is non-empty and free of whitespace, so that
/// it can serve as an unambiguous label prefix.
pub open spec fn valid_plugin_name(s: Seq<char>) -> bool {
    s.len() > 0 && forall|i: int| 0 <= i < s.len() ==> !is_whitespace_char(s[i])
}

/// Decides `valid_plugin_name` for a concrete string.
pub fn check_plugin_name(name: &str) -> (r: bool)
    ensures
        r == valid_plugin_name(name@),
{
    let len = name.unicode_len();
    if len == 0 {
        return false;
    }
    let mut i: usize = 0;
    while i < len
        invariant
            i <= len,
            len == name@.len(),
            forall|j: int| 0 <= j < i ==> !is_whitespace_char(name@[j]),
        decreases len - i,
    {
        let c = name.get_char(i);
        if c == '\u{0009}' || c == '\u{000A}' || c == '\u{000B}' || c == '\u{000C}'
            || c == '\u{000D}' || c == '\u{0020}' || c == '\u{0085}' || c == '\u{00A0}'
            || c == '\u{1680}' || c == '\u{2000}' || c == '\u{2001}' || c == '\u{2002}'
            || c == '\u{2003}' || c == '\u{2004}' || c == '\u{2005}' || c == '\u{2006}'
            || c == '\u{2007}' || c == '\u{2008}' || c == '\u{2009}' || c == '\u{200A}'
            || c == '\u{2028}' || c == '\u{2029}' || c == '\u{202F}' || c == '\u{205F}'
            || c == '\u{3000}' {
            return false;
        }
        i += 1;
    }
    true
}

/// Decides equality of the character sequences of two strings.
pub fn str_eq(a: &str, b: &str) -> (r: bool)
    ensures
        r == (a@ == b@),
{
    let la = a.unicode_len();
    let lb = b.unicode_len();
    if la != lb {
        return false;
    }
    let mut i: usize = 0;
    while i < la
        invariant
            i <= la,
            la == a@.len(),
            la == b@.len(),
            forall|j: int| 0 <= j < i ==> a@[j] == b@[j],
        decreases la - i,
    {
        if a.get_char(i) != b.get_char(i) {
            return false;
        }
        i += 1;
    }
    proof {
        assert(a@ =~= b@);
    }
    true
}

/// `label` starts with `name` followed by `::` — the namespacing convention
/// every work-unit label must follow.
pub open spec fn label_reserves_prefix(label: Seq<char>, name: Seq<char>) -> bool {
    &&& label.len() >= name.len() + 2
    &&& label.subrange(0, name.len() as int) == name
    &&& label[name.len() as int] == ':'
    &&& label[name.len() as int + 1] == ':'
}

/// Decides `label_reserves_prefix` for concrete strings.
pub fn check_label_prefix(label: &str, name: &str) -> (r: bool)
    ensures
        r == label_reserves_prefix(label@, name@),
{
    let ln = name.unicode_len();
    let ll = label.unicode_len();
    if ll < ln {
        return false;
    }
    if ll - ln < 2 {
        return false;
    }
    let mut i: usize = 0;
    while i < ln
        invariant
            i <= ln,
            ln == name@.len(),
            ll == label@.len(),
            ll >= ln + 2,
            forall|j: int| 0 <= j < i ==> label@[j] == name@[j],
        decreases ln - i,
    {
        if label.get_char(i) != name.get_char(i) {
            return false;
        }
        i += 1;
    }
    if label.get_char(ln) != ':' {
        return false;
    }
    if label.get_char(ln + 1) != ':' {
        return false;
    }
    proof {
        assert(label@.subrange(0, name@.len() as int) =~= name@);
    }
    true
}

/// Some entry of `s` spells the label `l`.
pub open spec fn spec_has_label(s: Seq<&'static str>, l: Seq<char>) -> bool {
    exists|k: int| 0 <= k < s.len() && s[k]@ == l
}

/// `after` is `before` with the requirement `(owner, t)` recorded under set
/// semantics: unchanged when `owner` already requires `t`'s identity, extended
/// by exactly that pair otherwise.
pub open spec fn records_requirement(
    before: Seq<(PluginName, TypeInfo)>,
    owner_name: Seq<char>,
    owner: PluginName,
    after: Seq<(PluginName, TypeInfo)>,
    t: TypeInfo,
) -> bool {
    if spec_has_requirement(before, owner_name, t.id) {
        after == before
    } else {
        after == before.push((owner, t))
    }
}

/// Recording the same identity under the same owner twice is the same as
/// recording it once: the second recording finds the requirement present and
/// changes nothing.
pub proof fn lemma_requirement_recording_idempotent(
    before: Seq<(PluginName, TypeInfo)>,
    owner_name: Seq<char>,
    owner: PluginName,
    mid: Seq<(PluginName, TypeInfo)>,
    after: Seq<(PluginName, TypeInfo)>,
    t: TypeInfo,
)
    requires
        owner@ == owner_name,
        records_requirement(before, owner_name, owner, mid, t),
        records_requirement(mid, owner_name, owner, after, t),
    ensures
        after == mid,
{
    if !spec_has_requirement(before, owner_name, t.id) {
        assert(mid == before.push((owner, t)));
        assert(mid[mid.len() - 1].0@ == owner_name && mid[mid.len() - 1].1.id == t.id);
        assert(spec_has_requirement(mid, owner_name, t.id));
    } else {
        let k = choose|k: int|
            0 <= k < before.len() && before[k].0@ == owner_name && before[k].1.id == t.id;
        assert(mid[k].0@ == owner_name && mid[k].1.id == t.id);
        assert(spec_has_requirement(mid, owner_name, t.id));
    }
}

/// Some entry of `s` declares that `owner` requires the type identity `id`.
pub open spec fn spec_has_requirement(
    s: Seq<(PluginName, TypeInfo)>,
    owner: Seq<char>,
    id: core::any::TypeId,
) -> bool {
    exists|k: int| 0 <= k < s.len() && s[k].0@ == owner && s[k].1.id == id
}

/// A named, immutable-after-composition bundle of resource initializers,
/// declared external resource requirements, and reserved work-unit labels.
///
/// Every field is public so that contracts can speak of it (the verifier lets
/// a public contract name a field only when all of the type's fields are
/// visible to the caller). Build the value through [`Plugin::new`]: it
/// validates the name, which nothing downstream re-checks.
pub struct Plugin {
    pub name: PluginName,
    pub resource_initialisers: Vec<ResourceInitializer>,
    pub resource_requirements: Vec<(PluginName, TypeInfo)>,
    pub used_system_labels: Vec<&'static str>,
}

impl Plugin {
    /// The validated name of this plugin.
    pub open spec fn spec_name(&self) -> Seq<char> {
        self.name@
    }

    pub fn name(&self) -> (r: PluginName)
        ensures
            r@ == self.spec_name(),
    {
        self.name
    }

    /// A plugin under an empty or whitespace-bearing name is refused: the name
    /// doubles as the label prefix, and whitespace would make it ambiguous.
    pub fn new(name: PluginName) -> (r: Result<Plugin, BuildError>)
        ensures
            r is Ok <==> valid_plugin_name(name@),
            r matches Ok(p) ==> p.spec_name() == name@ && p.resource_initialisers@.len() == 0
                && p.resource_requirements@.len() == 0 && p.used_system_labels@.len() == 0,
            r matches Err(e) ==> e@ == (BuildErrorSpec::InvalidPluginName { name: name@ }),
    {
        if !check_plugin_name(name) {
            return Err(BuildError::InvalidPluginName { name });
        }
        Ok(
            Plugin {
                name,
                resource_initialisers: Vec::new(),
                resource_requirements: Vec::new(),
                used_system_labels: Vec::new(),
            },
        )
    }

    /// Appends one initializer, stamped with this plugin's name as owner.
    pub fn add_resource<Params, R, I: ResourceInit<Params, R>>(self, init: I) -> (r: Plugin)
        ensures
            r.spec_name() == self.spec_name(),
            r.resource_requirements@ == self.resource_requirements@,
            r.used_system_labels@ == self.used_system_labels@,
            r.resource_initialisers@.len() == self.resource_initialisers@.len() + 1,
            forall|k: int|
                0 <= k < self.resource_initialisers@.len() ==> r.resource_initialisers@[k]
                    == self.resource_initialisers@[k],
            r.resource_initialisers@.last()@.owner == self.spec_name(),
            r.resource_initialisers@.last()@.creates.len() == 1,
    {
        let mut s = self;
        let name = s.name;
        let boxed = init.to_box(name);
        s.resource_initialisers.push(boxed);
        s
    }

    /// Records that this plugin needs the resource with identity `t` to exist
    /// at runtime without creating it itself. Recording an identity this
    /// plugin already requires leaves the set unchanged.
    pub fn add_requirement_token(self, t: TypeInfo) -> (r: Plugin)
        ensures
            r.spec_name() == self.spec_name(),
            r.resource_initialisers@ == self.resource_initialisers@,
            r.used_system_labels@ == self.used_system_labels@,
            records_requirement(
                self.resource_requirements@,
                self.spec_name(),
                self.name,
                r.resource_requirements@,
                t,
            ),
    {
        let mut s = self;
        let mut k: usize = 0;
        while k < s.resource_requirements.len()
            invariant
                s == self,
                k <= s.resource_requirements@.len(),
                forall|j: int|
                    0 <= j < k ==> !(s.resource_requirements@[j].0@ == s.name@
                        && s.resource_requirements@[j].1.id == t.id),
            decreases s.resource_requirements@.len() - k,
        {
            let entry = s.resource_requirements[k];
            if entry.1.id == t.id && str_eq(entry.0, s.name) {
                proof {
                    assert(entry == s.resource_requirements@[k as int]);
                    assert(entry.0@ == self.spec_name());
                    assert(entry.1.id == t.id);
                    assert(spec_has_requirement(
                        self.resource_requirements@,
                        self.spec_name(),
                        t.id,
                    ));
                }
                return s;
            }
            k += 1;
        }
        proof {
            assert(!spec_has_requirement(self.resource_requirements@, self.spec_name(), t.id));
        }
        s.resource_requirements.push((s.name, t));
        s
    }

    /// Declares that this plugin needs a resource of type `T` to exist at
    /// runtime without creating it itself. Declaring the same type twice
    /// leaves the set unchanged; the exact set semantics stand on
    /// [`Plugin::add_requirement_token`], which this call reduces to.
    pub fn add_resource_requirement<T: 'static>(self) -> (r: Plugin)
        ensures
            r.spec_name() == self.spec_name(),
            r.resource_initialisers@ == self.resource_initialisers@,
            r.used_system_labels@ == self.used_system_labels@,
            exists|t: TypeInfo| #[trigger] records_requirement(
                self.resource_requirements@,
                self.spec_name(),
                self.name,
                r.resource_requirements@,
                t,
            ),
    {
        let t = TypeInfo::of::<T>();
        let r = self.add_requirement_token(t);
        proof {
            assert(records_requirement(
                self.resource_requirements@,
                self.spec_name(),
                self.name,
                r.resource_requirements@,
                t,
            ));
        }
        r
    }

    /// Reserves a work-unit label for this plugin. The label must begin with
    /// `<name>::` and must not repeat a label this plugin already reserved;
    /// collisions with other plugins' labels are caught at composition.
    pub fn add_system(self, label: &'static str) -> (r: Result<Plugin, BuildError>)
        ensures
            r is Ok <==> (label_reserves_prefix(label@, self.spec_name()) && !spec_has_label(
                self.used_system_labels@,
                label@,
            )),
            r matches Ok(p) ==> p.spec_name() == self.spec_name() && p.resource_initialisers@
                == self.resource_initialisers@ && p.resource_requirements@
                == self.resource_requirements@ && p.used_system_labels@
                == self.used_system_labels@.push(label),
            r matches Err(e) ==> e@ == (BuildErrorSpec::InvalidOrDuplicateLabel {
                plugin: self.spec_name(),
                label: label@,
            }),
    {
        if !check_label_prefix(label, self.name) {
            return Err(BuildError::InvalidOrDuplicateLabel { plugin: self.name, label });
        }
        let mut k: usize = 0;
        while k < self.used_system_labels.len()
            invariant
                k <= self.used_system_labels@.len(),
                forall|j: int| 0 <= j < k ==> self.used_system_labels@[j]@ != label@,
            decreases self.used_system_labels@.len() - k,
        {
            if str_eq(self.used_system_labels[k], label) {
                return Err(BuildError::InvalidOrDuplicateLabel { plugin: self.name, label });
            }
            k += 1;
        }
        let mut s = self;
        s.used_system_labels.push(label);
        Ok(s)
    }
}

} // verus!
