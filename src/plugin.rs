//! Domain plugins: named catalogs of node kinds, and the registry that
//! validates nodes against the domains registered in it.
use vstd::prelude::*;
use vstd::string::*;
use crate::document::Node;
use crate::text::{same_text, less_text, text_less, lemma_text_less_total, lemma_text_less_trans};
use crate::compiler::texts;

verus! {

/// A node kind known to a domain, with the category it is listed under.
#[derive(Debug, Clone, Copy, PartialEq, Eq)]
pub struct NodeTypeDescriptor {
    pub kind: &'static str,
    pub category: &'static str,
    pub description: &'static str,
}

/// Some entry of `catalog` has the kind `kind`.
pub open spec fn catalog_has(catalog: Seq<NodeTypeDescriptor>, kind: Seq<char>) -> bool {
    exists|i: int| 0 <= i < catalog.len() && (#[trigger] catalog[i]).kind@ == kind
}

/// The message for a kind that a domain does not know.
pub open spec fn unsupported_message(kind: Seq<char>, domain: Seq<char>) -> Seq<char> {
    "node kind '"@ + kind + "' is not supported in domain '"@ + domain + "'"@
}

/// The message for a kind that no registered domain knows.
pub open spec fn unhandled_message(kind: Seq<char>) -> Seq<char> {
    "node kind '"@ + kind + "' is not handled by any plugin"@
}

/// What a domain says of a node of kind `kind`.
pub open spec fn domain_verdict(domain: Seq<char>, catalog: Seq<NodeTypeDescriptor>, kind: Seq<char>) -> Result<(), Seq<char>> {
    if catalog_has(catalog, kind) {
        Ok(())
    } else {
        Err(unsupported_message(kind, domain))
    }
}

/// A verdict with its message as text.
pub open spec fn verdict_text(r: Result<(), String>) -> Result<(), Seq<char>> {
    match r {
        Ok(()) => Ok(()),
        Err(m) => Err(m@),
    }
}

/// Whether `kind` is in `catalog`.
pub fn catalog_contains(catalog: &Vec<NodeTypeDescriptor>, kind: &str) -> (r: bool)
    ensures
        r == catalog_has(catalog@, kind@),
{
    let mut i: usize = 0;
    while i < catalog.len()
        invariant
            i <= catalog@.len(),
            forall|j: int| 0 <= j < i ==> (#[trigger] catalog@[j]).kind@ != kind@,
        decreases catalog@.len() - i,
    {
        if same_text(catalog[i].kind, kind) {
            return true;
        }
        i = i + 1;
    }
    false
}

/// A named catalog of node kinds for one authoring vocabulary.
pub trait DomainPlugin {
    /// The domain's name.
    spec fn domain(&self) -> Seq<char>;

    /// The node kinds the domain defines.
    spec fn catalog(&self) -> Seq<NodeTypeDescriptor>;

    fn domain_name(&self) -> (r: &'static str)
        ensures
            r@ == self.domain(),
    ;

    fn node_types(&self) -> (r: Vec<NodeTypeDescriptor>)
        ensures
            r@ == self.catalog(),
    ;

    /// Whether the domain defines the kind `kind`, by exact match.
    fn supports_kind(&self, kind: &str) -> (r: bool)
        ensures
            r == catalog_has(self.catalog(), kind@),
    {
        let types = self.node_types();
        catalog_contains(&types, kind)
    }

    /// Accepts a node whose kind the domain defines, and otherwise fails
    /// naming the kind and the domain.
    fn validate_node(&self, node: &Node) -> (r: Result<(), String>)
        ensures
            verdict_text(r) == domain_verdict(self.domain(), self.catalog(), node.kind@),
    {
        if self.supports_kind(node.kind.as_str()) {
            Ok(())
        } else {
            let mut m = String::from_str("node kind '");
            m.append(node.kind.as_str());
            m.append("' is not supported in domain '");
            m.append(self.domain_name());
            m.append("'");
            Err(m)
        }
    }
}

/// A domain as the registry holds it: its name and its catalog, taken when
/// it was registered.
#[derive(Debug, Clone)]
pub struct RegisteredDomain {
    pub name: &'static str,
    pub node_types: Vec<NodeTypeDescriptor>,
}

impl DomainPlugin for RegisteredDomain {
    open spec fn domain(&self) -> Seq<char> {
        self.name@
    }

    open spec fn catalog(&self) -> Seq<NodeTypeDescriptor> {
        self.node_types@
    }

    fn domain_name(&self) -> (r: &'static str) {
        self.name
    }

    fn node_types(&self) -> (r: Vec<NodeTypeDescriptor>) {
        let mut r: Vec<NodeTypeDescriptor> = Vec::new();
        let mut i: usize = 0;
        while i < self.node_types.len()
            invariant
                i <= self.node_types@.len(),
                r@ == self.node_types@.subrange(0, i as int),
            decreases self.node_types@.len() - i,
        {
            r.push(self.node_types[i]);
            i = i + 1;
            assert(r@ =~= self.node_types@.subrange(0, i as int));
        }
        assert(r@ =~= self.node_types@);
        r
    }
}

/// What the registered domains, in order, say of a node of kind `kind`:
/// the verdict of the first domain that defines the kind, or an error when
/// none does.
pub open spec fn registry_verdict(domains: Seq<RegisteredDomain>, kind: Seq<char>) -> Result<(), Seq<char>>
    decreases domains.len(),
{
    if domains.len() == 0 {
        Err(unhandled_message(kind))
    } else if catalog_has(domains[0].catalog(), kind) {
        domain_verdict(domains[0].domain(), domains[0].catalog(), kind)
    } else {
        registry_verdict(domains.drop_first(), kind)
    }
}

/// Domain `i` is the first registered one that defines `kind`.
pub open spec fn first_to_define(domains: Seq<RegisteredDomain>, kind: Seq<char>, i: int) -> bool {
    &&& 0 <= i < domains.len()
    &&& catalog_has(domains[i].catalog(), kind)
    &&& forall|j: int| 0 <= j < i ==> !catalog_has((#[trigger] domains[j]).catalog(), kind)
}

/// The ordered domains of a registry, immutable once built.
pub struct PluginRegistry {
    plugins: Vec<RegisteredDomain>,
}

impl View for PluginRegistry {
    type V = Seq<RegisteredDomain>;

    closed spec fn view(&self) -> Seq<RegisteredDomain> {
        self.plugins@
    }
}

impl Default for PluginRegistry {
    fn default() -> (r: Self)
        ensures
            r@ == Seq::<RegisteredDomain>::empty(),
    {
        PluginRegistry::new()
    }
}

impl PluginRegistry {
    /// An empty registry.
    pub fn new() -> (r: Self)
        ensures
            r@ == Seq::<RegisteredDomain>::empty(),
    {
        PluginRegistry { plugins: Vec::new() }
    }

    /// Adds a domain after those already registered.
    pub fn register<P: DomainPlugin>(&mut self, plugin: P)
        ensures
            final(self)@.len() == old(self)@.len() + 1,
            final(self)@.subrange(0, old(self)@.len() as int) == old(self)@,
            final(self)@.last().domain() == plugin.domain(),
            final(self)@.last().catalog() == plugin.catalog(),
    {
        let entry = RegisteredDomain { name: plugin.domain_name(), node_types: plugin.node_types() };
        self.plugins.push(entry);
        assert(self.plugins@.subrange(0, old(self)@.len() as int) =~= old(self)@);
    }

    /// The registered domains, in registration order.
    pub fn plugins(&self) -> (r: &[RegisteredDomain])
        ensures
            r@ == self@,
    {
        self.plugins.as_slice()
    }

    /// Validates a node with the first registered domain that defines its
    /// kind; fails when no domain does.
    pub fn validate_node_with_any_plugin(&self, node: &Node) -> (r: Result<(), String>)
        ensures
            verdict_text(r) == registry_verdict(self@, node.kind@),
    {
        let mut i: usize = 0;
        assert(self@.skip(0) =~= self@);
        while i < self.plugins.len()
            invariant
                i <= self@.len(),
                registry_verdict(self@, node.kind@) == registry_verdict(self@.skip(i as int), node.kind@),
            decreases self@.len() - i,
        {
            assert(self@.skip(i as int).drop_first() =~= self@.skip(i + 1));
            let plugin = &self.plugins[i];
            if plugin.supports_kind(node.kind.as_str()) {
                return plugin.validate_node(node);
            }
            i = i + 1;
        }
        let mut m = String::from_str("node kind '");
        m.append(node.kind.as_str());
        m.append("' is not handled by any plugin");
        Err(m)
    }
}

/// Each text sorts strictly before the next: sorted, with no repeats.
pub open spec fn strictly_sorted(v: Seq<Seq<char>>) -> bool {
    forall|i: int, j: int| 0 <= i < j < v.len() ==> text_less(v[i], v[j])
}

/// Some registered domain defines `kind`.
pub open spec fn registry_defines(domains: Seq<RegisteredDomain>, kind: Seq<char>) -> bool {
    exists|i: int| 0 <= i < domains.len() && catalog_has((#[trigger] domains[i]).catalog(), kind)
}

/// Adds `k` to a strictly sorted list of texts, at its place, unless it is
/// there already.
fn insert_sorted(v: &mut Vec<String>, k: &str)
    requires
        strictly_sorted(texts(old(v)@)),
    ensures
        strictly_sorted(texts(final(v)@)),
        forall|s: Seq<char>| #[trigger] texts(final(v)@).contains(s) <==> (texts(old(v)@).contains(s) || s == k@),
{
    let ghost t0 = texts(v@);
    let mut p: usize = 0;
    while p < v.len() && less_text(v[p].as_str(), k)
        invariant
            p <= v@.len(),
            texts(v@) == t0,
            forall|j: int| 0 <= j < p ==> text_less(t0[j], k@),
        decreases v@.len() - p,
    {
        p = p + 1;
    }
    if p < v.len() && same_text(v[p].as_str(), k) {
        assert(t0[p as int] == k@);
        return;
    }
    proof {
        if p < v@.len() {
            lemma_text_less_total(t0[p as int], k@);
        }
    }
    v.insert(p, k.to_owned());
    proof {
        let t1 = texts(v@);
        assert(t1 =~= t0.insert(p as int, k@));
        assert forall|i: int, j: int| 0 <= i < j < t1.len() implies text_less(t1[i], t1[j]) by {
            if j < p {
            } else if j == p {
            } else if i < p {
                if j - 1 > p {
                    lemma_text_less_trans(k@, t0[p as int], t0[j - 1]);
                }
                lemma_text_less_trans(t0[i], k@, t0[j - 1]);
            } else if i == p {
                if j - 1 > p {
                    lemma_text_less_trans(k@, t0[p as int], t0[j - 1]);
                }
            }
        }
        assert forall|s: Seq<char>| #[trigger] t1.contains(s) <==> (t0.contains(s) || s == k@) by {
            if t1.contains(s) {
                let i = choose|i: int| 0 <= i < t1.len() && t1[i] == s;
                if i < p {
                    assert(t0[i] == s);
                } else if i > p {
                    assert(t0[i - 1] == s);
                }
            }
            if t0.contains(s) {
                let i = choose|i: int| 0 <= i < t0.len() && t0[i] == s;
                if i < p {
                    assert(t1[i] == s);
                } else {
                    assert(t1[i + 1] == s);
                }
            }
            if s == k@ {
                assert(t1[p as int] == s);
            }
        }
    }
}

/// Every node kind that some registered domain defines, once each, sorted.
pub fn list_supported_node_kinds(registry: &PluginRegistry) -> (r: Vec<String>)
    ensures
        strictly_sorted(texts(r@)),
        forall|s: Seq<char>| #[trigger] texts(r@).contains(s) <==> registry_defines(registry@, s),
{
    let domains = registry.plugins();
    let mut out: Vec<String> = Vec::new();
    let mut i: usize = 0;
    while i < domains.len()
        invariant
            domains@ == registry@,
            i <= domains@.len(),
            strictly_sorted(texts(out@)),
            forall|s: Seq<char>| #[trigger] texts(out@).contains(s) <==> registry_defines(registry@.subrange(0, i as int), s),
        decreases domains@.len() - i,
    {
        let types = &domains[i].node_types;
        let mut j: usize = 0;
        while j < types.len()
            invariant
                domains@ == registry@,
                i < domains@.len(),
                types@ == domains@[i as int].catalog(),
                j <= types@.len(),
                strictly_sorted(texts(out@)),
                forall|s: Seq<char>| #[trigger] texts(out@).contains(s) <==>
                    (registry_defines(registry@.subrange(0, i as int), s)
                        || exists|q: int| 0 <= q < j && (#[trigger] types@[q]).kind@ == s),
            decreases types@.len() - j,
        {
            insert_sorted(&mut out, types[j].kind);
            proof {
                assert forall|s: Seq<char>| #[trigger] texts(out@).contains(s) <==>
                    (registry_defines(registry@.subrange(0, i as int), s)
                        || exists|q: int| 0 <= q < j + 1 && (#[trigger] types@[q]).kind@ == s) by {
                    if s == types@[j as int].kind@ {
                        assert(exists|q: int| 0 <= q < j + 1 && (#[trigger] types@[q]).kind@ == s);
                    }
                }
            }
            j = j + 1;
        }
        proof {
            let prev = registry@.subrange(0, i as int);
            let next = registry@.subrange(0, i + 1);
            assert forall|s: Seq<char>| #[trigger] texts(out@).contains(s) <==> registry_defines(next, s) by {
                if registry_defines(prev, s) {
                    let d = choose|d: int| 0 <= d < prev.len() && catalog_has((#[trigger] prev[d]).catalog(), s);
                    assert(next[d] == prev[d]);
                }
                if exists|q: int| 0 <= q < types@.len() && (#[trigger] types@[q]).kind@ == s {
                    let q = choose|q: int| 0 <= q < types@.len() && (#[trigger] types@[q]).kind@ == s;
                    assert(catalog_has(next[i as int].catalog(), s));
                }
                if registry_defines(next, s) {
                    let d = choose|d: int| 0 <= d < next.len() && catalog_has((#[trigger] next[d]).catalog(), s);
                    if d < i {
                        assert(prev[d] == next[d]);
                    } else {
                        let q = choose|q: int| 0 <= q < types@.len() && (#[trigger] types@[q]).kind@ == s;
                    }
                }
            }
        }
        i = i + 1;
    }
    proof {
        assert(registry@.subrange(0, domains@.len() as int) =~= registry@);
    }
    out
}

/// The node kinds of one category of one domain.
#[derive(Debug, Clone)]
pub struct CategoryGroup {
    pub domain: &'static str,
    pub category: &'static str,
    pub nodes: Vec<NodeTypeDescriptor>,
}

/// Every catalog entry of the registered domains, with its domain's name,
/// in registration and catalog order.
pub open spec fn registry_entries(domains: Seq<RegisteredDomain>) -> Seq<(&'static str, NodeTypeDescriptor)>
    decreases domains.len(),
{
    if domains.len() == 0 {
        Seq::empty()
    } else {
        registry_entries(domains.drop_last()) + domains.last().node_types@.map_values(
            |t: NodeTypeDescriptor| (domains.last().name, t),
        )
    }
}

/// The descriptors of the entries listed under domain `d` and category `c`,
/// in order.
pub open spec fn group_nodes(entries: Seq<(&'static str, NodeTypeDescriptor)>, d: Seq<char>, c: Seq<char>) -> Seq<NodeTypeDescriptor>
    decreases entries.len(),
{
    if entries.len() == 0 {
        Seq::empty()
    } else {
        let rest = group_nodes(entries.drop_last(), d, c);
        let e = entries.last();
        if e.0@ == d && e.1.category@ == c {
            rest.push(e.1)
        } else {
            rest
        }
    }
}

/// Groups `g` list the descriptors of `entries`: one group per distinct
/// domain and category, each holding that pair's descriptors in order.
pub open spec fn groups_list(g: Seq<CategoryGroup>, entries: Seq<(&'static str, NodeTypeDescriptor)>) -> bool {
    &&& forall|i: int, j: int| 0 <= i < j < g.len() ==>
        !((#[trigger] g[i]).domain@ == (#[trigger] g[j]).domain@ && g[i].category@ == g[j].category@)
    &&& forall|i: int| 0 <= i < g.len() ==>
        (#[trigger] g[i]).nodes@ == group_nodes(entries, g[i].domain@, g[i].category@) && g[i].nodes@.len() > 0
    &&& forall|k: int| 0 <= k < entries.len() ==> has_group(g, (#[trigger] entries[k]).0@, entries[k].1.category@)
}

/// Some group of `g` is that of domain `d` and category `c`.
pub open spec fn has_group(g: Seq<CategoryGroup>, d: Seq<char>, c: Seq<char>) -> bool {
    exists|i: int| 0 <= i < g.len() && (#[trigger] g[i]).domain@ == d && g[i].category@ == c
}

proof fn lemma_group_nodes_nonempty(entries: Seq<(&'static str, NodeTypeDescriptor)>, k: int)
    requires
        0 <= k < entries.len(),
    ensures
        group_nodes(entries, entries[k].0@, entries[k].1.category@).len() > 0,
    decreases entries.len(),
{
    if k < entries.len() - 1 {
        lemma_group_nodes_nonempty(entries.drop_last(), k);
    }
}

/// The descriptors of `entries` listed under domain `d` and category `c`.
fn collect_group(entries: &Vec<(&'static str, NodeTypeDescriptor)>, d: &'static str, c: &'static str) -> (r: Vec<NodeTypeDescriptor>)
    ensures
        r@ == group_nodes(entries@, d@, c@),
{
    let mut r: Vec<NodeTypeDescriptor> = Vec::new();
    let mut k: usize = 0;
    while k < entries.len()
        invariant
            k <= entries@.len(),
            r@ == group_nodes(entries@.subrange(0, k as int), d@, c@),
        decreases entries@.len() - k,
    {
        assert(entries@.subrange(0, k + 1).drop_last() =~= entries@.subrange(0, k as int));
        let e = entries[k];
        if same_text(e.0, d) && same_text(e.1.category, c) {
            r.push(e.1);
        }
        k = k + 1;
    }
    assert(entries@.subrange(0, entries@.len() as int) =~= entries@);
    r
}

/// The position of the group of domain `d` and category `c`, if any.
fn find_group(groups: &Vec<CategoryGroup>, d: &'static str, c: &'static str) -> (r: Option<usize>)
    ensures
        match r {
            Some(a) => (a as int) < groups@.len() && groups@[a as int].domain@ == d@ && groups@[a as int].category@ == c@,
            None => forall|b: int| 0 <= b < groups@.len() ==> !((#[trigger] groups@[b]).domain@ == d@ && groups@[b].category@ == c@),
        },
{
    let mut a: usize = 0;
    while a < groups.len()
        invariant
            a <= groups@.len(),
            forall|b: int| 0 <= b < a ==> !((#[trigger] groups@[b]).domain@ == d@ && groups@[b].category@ == c@),
        decreases groups@.len() - a,
    {
        if same_text(groups[a].domain, d) && same_text(groups[a].category, c) {
            return Some(a);
        }
        a = a + 1;
    }
    None
}

/// The registered node kinds grouped by domain, then by category.
pub fn list_nodes_by_domain_and_category(registry: &PluginRegistry) -> (r: Vec<CategoryGroup>)
    ensures
        groups_list(r@, registry_entries(registry@)),
{
    let domains = registry.plugins();
    let mut entries: Vec<(&'static str, NodeTypeDescriptor)> = Vec::new();
    let mut i: usize = 0;
    while i < domains.len()
        invariant
            domains@ == registry@,
            i <= domains@.len(),
            entries@ == registry_entries(registry@.subrange(0, i as int)),
        decreases domains@.len() - i,
    {
        let dom = &domains[i];
        let ghost before = entries@;
        let mut j: usize = 0;
        while j < dom.node_types.len()
            invariant
                j <= dom.node_types@.len(),
                entries@ == before + dom.node_types@.subrange(0, j as int).map_values(
                    |t: NodeTypeDescriptor| (dom.name, t),
                ),
            decreases dom.node_types@.len() - j,
        {
            entries.push((dom.name, dom.node_types[j]));
            j = j + 1;
            assert(entries@ =~= before + dom.node_types@.subrange(0, j as int).map_values(
                |t: NodeTypeDescriptor| (dom.name, t),
            ));
        }
        proof {
            assert(registry@.subrange(0, i + 1).drop_last() =~= registry@.subrange(0, i as int));
            assert(dom.node_types@.subrange(0, dom.node_types@.len() as int) =~= dom.node_types@);
        }
        i = i + 1;
    }
    proof {
        assert(registry@.subrange(0, domains@.len() as int) =~= registry@);
    }
    let mut groups: Vec<CategoryGroup> = Vec::new();
    let mut k: usize = 0;
    while k < entries.len()
        invariant
            k <= entries@.len(),
            entries@ == registry_entries(registry@),
            forall|a: int, b: int| 0 <= a < b < groups@.len() ==>
                !((#[trigger] groups@[a]).domain@ == (#[trigger] groups@[b]).domain@ && groups@[a].category@ == groups@[b].category@),
            forall|a: int| 0 <= a < groups@.len() ==>
                (#[trigger] groups@[a]).nodes@ == group_nodes(entries@, groups@[a].domain@, groups@[a].category@)
                    && groups@[a].nodes@.len() > 0,
            forall|q: int| 0 <= q < k ==> has_group(groups@, (#[trigger] entries@[q]).0@, entries@[q].1.category@),
        decreases entries@.len() - k,
    {
        let e = entries[k];
        let found = find_group(&groups, e.0, e.1.category);
        if found.is_none() {
            let nodes = collect_group(&entries, e.0, e.1.category);
            proof {
                lemma_group_nodes_nonempty(entries@, k as int);
            }
            let ghost g0 = groups@;
            groups.push(CategoryGroup { domain: e.0, category: e.1.category, nodes });
            proof {
                assert forall|a: int, b: int| 0 <= a < b < groups@.len() implies
                    !((#[trigger] groups@[a]).domain@ == (#[trigger] groups@[b]).domain@ && groups@[a].category@ == groups@[b].category@) by {
                    if b == g0.len() {
                        assert(groups@[a] == g0[a]);
                    } else {
                        assert(groups@[a] == g0[a] && groups@[b] == g0[b]);
                    }
                }
                assert forall|q: int| 0 <= q < k + 1 implies has_group(groups@, (#[trigger] entries@[q]).0@, entries@[q].1.category@) by {
                    if q < k {
                        assert(has_group(g0, entries@[q].0@, entries@[q].1.category@));
                        let b = choose|b: int| 0 <= b < g0.len() && (#[trigger] g0[b]).domain@ == entries@[q].0@
                            && g0[b].category@ == entries@[q].1.category@;
                        assert(groups@[b] == g0[b]);
                    } else {
                        assert(groups@[g0.len() as int].domain@ == entries@[q].0@);
                    }
                }
            }
        } else {
            proof {
                let a = found.unwrap();
                assert(groups@[a as int].domain@ == entries@[k as int].0@);
            }
        }
        k = k + 1;
    }
    assert(groups_list(groups@, entries@));
    groups
}

/// A node is accepted exactly when some registered domain defines its kind.
pub proof fn lemma_accepted_iff_defined(domains: Seq<RegisteredDomain>, kind: Seq<char>)
    ensures
        registry_verdict(domains, kind) is Ok <==> exists|i: int|
            0 <= i < domains.len() && catalog_has((#[trigger] domains[i]).catalog(), kind),
    decreases domains.len(),
{
    if domains.len() > 0 {
        lemma_accepted_iff_defined(domains.drop_first(), kind);
        if !catalog_has(domains[0].catalog(), kind) {
            assert forall|i: int| 0 < i < domains.len() implies #[trigger] domains[i] == domains.drop_first()[i - 1] by {}
            if exists|i: int| 0 <= i < domains.len() && catalog_has((#[trigger] domains[i]).catalog(), kind) {
                let i = choose|i: int| 0 <= i < domains.len() && catalog_has((#[trigger] domains[i]).catalog(), kind);
                assert(catalog_has(domains.drop_first()[i - 1].catalog(), kind));
            }
        } else {
            assert(catalog_has(domains[0].catalog(), kind));
        }
    }
}

/// When several domains define a kind, the first registered of them gives
/// the verdict.
pub proof fn lemma_first_registered_governs(domains: Seq<RegisteredDomain>, kind: Seq<char>, i: int)
    requires
        first_to_define(domains, kind, i),
    ensures
        registry_verdict(domains, kind) == domain_verdict(domains[i].domain(), domains[i].catalog(), kind),
    decreases i,
{
    if i > 0 {
        assert(!catalog_has(domains[0].catalog(), kind));
        assert forall|j: int| 0 <= j < i - 1 implies !catalog_has((#[trigger] domains.drop_first()[j]).catalog(), kind) by {
            assert(domains.drop_first()[j] == domains[j + 1]);
        }
        lemma_first_registered_governs(domains.drop_first(), kind, i - 1);
    }
}

} // verus!
