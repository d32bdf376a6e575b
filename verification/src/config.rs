//! Validation of a descriptor set before any process is spawned.
//!
//! A set is accepted only when names are unique, every dependency name
//! resolves to a descriptor of the same set, and the dependency graph is
//! acyclic.  Acceptance yields a [`DescriptorSet`] carrying the resolved
//! graph and a complete launch order; rejection yields a [`ConfigError`]
//! and nothing is ever launched from the set.

use vstd::prelude::*;
use crate::descriptor::ServiceDescriptor;
use crate::order::acyclic;
use crate::order::graph_wf;
use crate::order::topological_order;
use crate::order::valid_complete_order;

verus! {

/// A startup configuration error: the descriptor set itself is bad and the
/// session never starts.
#[derive(Debug, PartialEq, Eq, Structural)]
pub enum ConfigError {
    /// Descriptors `first` and `second` carry the same name.
    DuplicateName { first: usize, second: usize },
    /// The dependency name `descriptors[service].depends_on[dep]` resolves
    /// to no descriptor of the set.
    UnknownDependency { service: usize, dep: usize },
    /// The dependency graph admits no complete launch order.
    DependencyCycle,
}

/// Two descriptors of the set carry the same name.
pub open spec fn has_duplicate_names(ds: Seq<ServiceDescriptor>) -> bool {
    exists|i: int, j: int| 0 <= i < j < ds.len() && ds[i].name@ == ds[j].name@
}

/// Index `j` is the descriptor of the set named `nm`.
pub open spec fn resolves(ds: Seq<ServiceDescriptor>, nm: Seq<char>, j: int) -> bool {
    0 <= j < ds.len() && ds[j].name@ == nm
}

/// The dependency name at `descriptors[i].depends_on[k]` names some
/// descriptor of the set.
pub open spec fn dep_resolvable(ds: Seq<ServiceDescriptor>, i: int, k: int) -> bool {
    exists|j: int| resolves(ds, ds[i].depends_on@[k]@, j)
}

/// Every dependency name of every descriptor resolves.
pub open spec fn all_deps_resolvable(ds: Seq<ServiceDescriptor>) -> bool {
    forall|i: int, k: int|
        0 <= i < ds.len() && 0 <= k < ds[i].depends_on@.len() ==> #[trigger] dep_resolvable(
            ds,
            i,
            k,
        )
}

/// `g` is the index form of the set's dependency graph: entry for entry, the
/// index of the descriptor that the dependency name resolves to.
pub open spec fn resolved_graph(ds: Seq<ServiceDescriptor>, g: Seq<Seq<usize>>) -> bool {
    &&& g.len() == ds.len()
    &&& forall|i: int| 0 <= i < ds.len() ==> (#[trigger] g[i]).len() == ds[i].depends_on@.len()
    &&& forall|i: int, k: int|
        0 <= i < ds.len() && 0 <= k < g[i].len() ==> resolves(
            ds,
            ds[i].depends_on@[k]@,
            #[trigger] g[i][k] as int,
        )
}

/// The set's dependency graph — unique once names are unique — admits a
/// complete launch order.
pub open spec fn config_acyclic(ds: Seq<ServiceDescriptor>) -> bool {
    forall|g: Seq<Seq<usize>>| resolved_graph(ds, g) ==> acyclic(g)
}

/// A descriptor set is accepted exactly under these three conditions.
pub open spec fn config_ok(ds: Seq<ServiceDescriptor>) -> bool {
    &&& !has_duplicate_names(ds)
    &&& all_deps_resolvable(ds)
    &&& config_acyclic(ds)
}

/// With unique names, the resolved dependency graph is unique.
pub proof fn lemma_resolution_unique(
    ds: Seq<ServiceDescriptor>,
    g1: Seq<Seq<usize>>,
    g2: Seq<Seq<usize>>,
)
    requires
        !has_duplicate_names(ds),
        resolved_graph(ds, g1),
        resolved_graph(ds, g2),
    ensures
        g1 =~~= g2,
{
    assert forall|i: int| 0 <= i < g1.len() implies g1[i] =~= g2[i] by {
        assert forall|k: int| 0 <= k < g1[i].len() implies g1[i][k] == g2[i][k] by {
            let a = g1[i][k] as int;
            let b = g2[i][k] as int;
            assert(resolves(ds, ds[i].depends_on@[k]@, a));
            assert(resolves(ds, ds[i].depends_on@[k]@, b));
            if a < b {
                assert(ds[a].name@ == ds[b].name@);
            } else if b < a {
                assert(ds[b].name@ == ds[a].name@);
            }
        }
    }
}

/// The ghost image of a validated descriptor set.
pub struct SetModel {
    /// The descriptors, in declaration order.
    pub descriptors: Seq<ServiceDescriptor>,
    /// The resolved dependency graph, indices into `descriptors`.
    pub deps: Seq<Seq<usize>>,
    /// The planned launch order: a complete valid topological order.
    pub order: Seq<usize>,
}

/// What every value of [`DescriptorSet`] satisfies.
pub open spec fn set_model_wf(m: SetModel) -> bool {
    &&& !has_duplicate_names(m.descriptors)
    &&& all_deps_resolvable(m.descriptors)
    &&& resolved_graph(m.descriptors, m.deps)
    &&& valid_complete_order(m.deps, m.order)
}

/// A validated descriptor set: unique names, a resolved acyclic dependency
/// graph, and a planned launch order.  Values exist only through
/// [`DescriptorSet::new`], so holding one is proof that the configuration
/// was accepted.
#[derive(Debug)]
pub struct DescriptorSet {
    descriptors: Vec<ServiceDescriptor>,
    deps: Vec<Vec<usize>>,
    launch_order: Vec<usize>,
}

impl View for DescriptorSet {
    type V = SetModel;

    closed spec fn view(&self) -> SetModel {
        SetModel {
            descriptors: self.descriptors@,
            deps: self.deps.deep_view(),
            order: self.launch_order@,
        }
    }
}

/// Find the descriptor named `nm`, scanning in declaration order.
fn find_name(descriptors: &Vec<ServiceDescriptor>, nm: &String) -> (r: Option<usize>)
    ensures
        r matches Some(j) ==> resolves(descriptors@, nm@, j as int),
        r is None ==> forall|j: int| !resolves(descriptors@, nm@, j),
{
    let n = descriptors.len();
    let mut j: usize = 0;
    while j < n
        invariant
            j <= n,
            n == descriptors@.len(),
            forall|q: int| 0 <= q < j ==> !resolves(descriptors@, nm@, q),
        decreases n - j,
    {
        if descriptors[j].name == *nm {
            return Some(j);
        }
        j = j + 1;
    }
    None
}

impl DescriptorSet {
    /// Every value of the type satisfies the validated-set invariant, so
    /// holding a value is proof that validation accepted the set.
    #[verifier::type_invariant]
    pub open spec fn inv(&self) -> bool {
        set_model_wf(self@)
    }

    /// Validate a descriptor set.  Succeeds exactly when names are unique,
    /// every dependency name resolves, and the dependency graph is acyclic;
    /// each error reports the first offence found in declaration order.
    pub fn new(descriptors: Vec<ServiceDescriptor>) -> (r: Result<DescriptorSet, ConfigError>)
        ensures
            r matches Ok(s) ==> s@.descriptors == descriptors@ && set_model_wf(s@),
            r is Ok <==> config_ok(descriptors@),
            r matches Err(e) ==> match e {
                ConfigError::DuplicateName { first, second } => {
                    &&& first < second < descriptors@.len()
                    &&& descriptors@[first as int].name@ == descriptors@[second as int].name@
                },
                ConfigError::UnknownDependency { service, dep } => {
                    &&& !has_duplicate_names(descriptors@)
                    &&& service < descriptors@.len()
                    &&& dep < descriptors@[service as int].depends_on@.len()
                    &&& !dep_resolvable(descriptors@, service as int, dep as int)
                },
                ConfigError::DependencyCycle => {
                    &&& !has_duplicate_names(descriptors@)
                    &&& all_deps_resolvable(descriptors@)
                    &&& !config_acyclic(descriptors@)
                },
            },
    {
        let n = descriptors.len();
        // Unique names.
        let mut i: usize = 0;
        while i < n
            invariant
                i <= n,
                n == descriptors@.len(),
                forall|a: int, b: int|
                    0 <= a < b < n && a < i ==> descriptors@[a].name@ != descriptors@[b].name@,
            decreases n - i,
        {
            let mut j: usize = i + 1;
            while j < n
                invariant
                    i < j <= n,
                    n == descriptors@.len(),
                    forall|b: int| i < b < j ==> descriptors@[i as int].name@ != descriptors@[b].name@,
                decreases n - j,
            {
                if descriptors[i].name == descriptors[j].name {
                    return Err(ConfigError::DuplicateName { first: i, second: j });
                }
                j = j + 1;
            }
            i = i + 1;
        }
        assert(!has_duplicate_names(descriptors@));
        // Resolve every dependency name to an index.
        let mut deps: Vec<Vec<usize>> = Vec::new();
        let mut i: usize = 0;
        while i < n
            invariant
                i <= n,
                n == descriptors@.len(),
                !has_duplicate_names(descriptors@),
                deps@.len() == i,
                forall|a: int| 0 <= a < i ==> (#[trigger] deps.deep_view()[a]).len()
                    == descriptors@[a].depends_on@.len(),
                forall|a: int, k: int|
                    0 <= a < i && 0 <= k < deps.deep_view()[a].len() ==> resolves(
                        descriptors@,
                        descriptors@[a].depends_on@[k]@,
                        #[trigger] deps.deep_view()[a][k] as int,
                    ),
            decreases n - i,
        {
            let m = descriptors[i].depends_on.len();
            let mut row: Vec<usize> = Vec::new();
            let mut k: usize = 0;
            while k < m
                invariant
                    k <= m,
                    i < n == descriptors@.len(),
                    !has_duplicate_names(descriptors@),
                    m == descriptors@[i as int].depends_on@.len(),
                    row@.len() == k,
                    forall|q: int|
                        0 <= q < k ==> resolves(
                            descriptors@,
                            descriptors@[i as int].depends_on@[q]@,
                            #[trigger] row@[q] as int,
                        ),
                decreases m - k,
            {
                match find_name(&descriptors, &descriptors[i].depends_on[k]) {
                    Some(j) => {
                        row.push(j);
                    },
                    None => {
                        proof {
                            assert(!dep_resolvable(descriptors@, i as int, k as int));
                        }
                        return Err(ConfigError::UnknownDependency { service: i, dep: k });
                    },
                }
                k = k + 1;
            }
            let ghost old_deps = deps.deep_view();
            deps.push(row);
            proof {
                assert(deps.deep_view() =~~= old_deps.push(row@));
            }
            i = i + 1;
        }
        let ghost dv = deps.deep_view();
        assert(resolved_graph(descriptors@, dv));
        assert(all_deps_resolvable(descriptors@)) by {
            assert forall|a: int, k: int|
                0 <= a < descriptors@.len() && 0 <= k
                    < descriptors@[a].depends_on@.len() implies #[trigger] dep_resolvable(
                descriptors@,
                a,
                k,
            ) by {
                assert(resolves(descriptors@, descriptors@[a].depends_on@[k]@, dv[a][k] as int));
            }
        }
        assert(graph_wf(dv));
        // Plan the launch order; fail exactly on a cyclic graph.
        match topological_order(&deps) {
            Some(ord) => {
                proof {
                    assert forall|g: Seq<Seq<usize>>| resolved_graph(descriptors@, g) implies acyclic(
                        g,
                    ) by {
                        lemma_resolution_unique(descriptors@, g, dv);
                    }
                }
                Ok(DescriptorSet { descriptors, deps, launch_order: ord })
            },
            None => {
                proof {
                    assert(!config_acyclic(descriptors@)) by {
                        assert(resolved_graph(descriptors@, dv) && !acyclic(dv));
                    }
                }
                Err(ConfigError::DependencyCycle)
            },
        }
    }

    /// Number of services in the set.
    pub fn len(&self) -> (n: usize)
        ensures
            n == self@.descriptors.len(),
    {
        self.descriptors.len()
    }

    /// The descriptors, in declaration order.
    pub fn descriptors(&self) -> (r: &Vec<ServiceDescriptor>)
        ensures
            r@ == self@.descriptors,
    {
        &self.descriptors
    }

    /// The resolved dependency indices of service `i`.
    pub fn deps_of(&self, i: usize) -> (r: &Vec<usize>)
        requires
            i < self@.descriptors.len(),
        ensures
            r@ == self@.deps[i as int],
    {
        proof {
            use_type_invariant(self);
            assert(self@.deps[i as int] =~= self.deps@[i as int]@);
        }
        &self.deps[i]
    }

    /// The planned launch order.
    pub fn launch_order(&self) -> (r: &Vec<usize>)
        ensures
            r@ == self@.order,
    {
        &self.launch_order
    }
}

} // verus!
