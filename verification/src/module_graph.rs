use vstd::prelude::*;

use crate::ast::{JsModule, SpecJsModule};
use crate::pg::{
    pg_add_node, pg_new, pg_out_edges, pg_update_edge, sg_edges, sg_nodes, sg_simple, PgGraph,
};

verus! {

broadcast use vstd::std_specs::vec::group_vec_axioms;

// ---------------------------------------------------------------------------
// The dependency graph: modules keyed by their stable identity, directed
// edges carrying declaration order, and the set of build entries. Node and
// edge storage lives in a stable graph whose weights are handles into this
// type's own vectors, so removals elsewhere would never shift surviving
// handles.
// ---------------------------------------------------------------------------

/// The stable, globally unique identity of a module.
pub struct ModuleId {
    pub id: String,
}

pub fn clone_module_id(id: &ModuleId) -> (r: ModuleId)
    ensures
        r.id@ == id.id@,
{
    ModuleId { id: id.id.clone() }
}

/// One module: its identity, whether it is a build entry, and its current
/// syntax tree, if one has been attached.
pub struct Module {
    pub id: ModuleId,
    pub is_entry: bool,
    pub ast: Option<JsModule>,
}

#[verifier::ext_equal]
pub struct SpecModule {
    pub id: Seq<char>,
    pub is_entry: bool,
    pub ast: Option<SpecJsModule>,
}

pub open spec fn view_module(m: Module) -> SpecModule {
    SpecModule {
        id: m.id.id@,
        is_entry: m.is_entry,
        ast: match m.ast {
            Some(a) => Some(a@),
            None => None,
        },
    }
}

impl View for Module {
    type V = SpecModule;

    open spec fn view(&self) -> SpecModule {
        view_module(*self)
    }
}

/// One dependency edge: the written specifier and the position at which the
/// dependency was declared in its module's source.
pub struct Dependency {
    pub source: String,
    pub order: u64,
}

#[verifier::ext_equal]
pub struct SpecDependency {
    pub source: Seq<char>,
    pub order: u64,
}

pub open spec fn view_dependency(d: Dependency) -> SpecDependency {
    SpecDependency { source: d.source@, order: d.order }
}

impl View for Dependency {
    type V = SpecDependency;

    open spec fn view(&self) -> SpecDependency {
        view_dependency(*self)
    }
}

pub fn clone_dependency(d: &Dependency) -> (r: Dependency)
    ensures
        r@ == d@,
{
    Dependency { source: d.source.clone(), order: d.order }
}

/// A graph consistency error: an operation named a module id that was never
/// registered.
#[derive(Debug)]
pub enum GraphError {
    ModuleNotFound(String),
}

impl GraphError {
    /// A diagnostic line naming the module id that was not found.
    pub fn message(&self) -> (r: String)
        ensures
            match self {
                GraphError::ModuleNotFound(id) => r@ == "module id '"@ + id@
                    + "' not found in the module graph"@,
            },
    {
        match self {
            GraphError::ModuleNotFound(id) => {
                let mut m = "module id '".to_owned();
                m.append(id.as_str());
                m.append("' not found in the module graph");
                m
            },
        }
    }
}

/// Ascending by the edge payload's declaration order.
pub open spec fn sorted_by_order(s: Seq<(ModuleId, Dependency)>) -> bool {
    forall|i: int, j: int| 0 <= i < j < s.len() ==> s[i].1@.order <= s[j].1@.order
}

/// The result of a sequence insertion contains exactly the old elements and
/// the inserted one.
proof fn lemma_insert_contains(s: Seq<(usize, u64)>, p: int, x: (usize, u64))
    requires
        0 <= p <= s.len(),
    ensures
        forall|y: (usize, u64)| s.insert(p, x).contains(y) <==> s.contains(y) || y == x,
        forall|k: int| 0 <= k < p ==> s.insert(p, x)[k] == s[k],
        s.insert(p, x)[p] == x,
        forall|k: int| p < k < s.len() + 1 ==> s.insert(p, x)[k] == s[k - 1],
{
    let t = s.insert(p, x);
    assert forall|y: (usize, u64)| t.contains(y) implies s.contains(y) || y == x by {
        let k = choose|k: int| 0 <= k < t.len() && t[k] == y;
        if k < p {
            assert(s[k] == y);
        } else if k > p {
            assert(s[k - 1] == y);
        }
    }
    assert forall|y: (usize, u64)| s.contains(y) implies t.contains(y) by {
        let k = choose|k: int| 0 <= k < s.len() && s[k] == y;
        if k < p {
            assert(t[k] == y);
        } else {
            assert(t[k + 1] == y);
        }
    }
    assert(t[p] == x);
    assert(t.contains(x));
}

/// The view of a dependency listing: target ids with edge payloads.
pub open spec fn dep_views(v: Seq<(ModuleId, Dependency)>) -> Seq<(Seq<char>, SpecDependency)> {
    v.map_values(|p: (ModuleId, Dependency)| (p.0.id@, p.1@))
}

pub struct ModuleGraph {
    graph: PgGraph,
    modules: Vec<Module>,
    node_ix: Vec<usize>,
    deps: Vec<Dependency>,
    entries: Vec<ModuleId>,
}

impl ModuleGraph {
    /// Well-formedness: the id-to-handle structures, the stable graph's
    /// model and this type's vectors describe one another.
    pub closed spec fn wf(self) -> bool {
        &&& self.node_ix@.len() == self.modules@.len()
        &&& self.modules@.len() < 0xffff_ffff
        &&& self.deps@.len() < 0xffff_ffff
        &&& sg_nodes(self.graph).dom().finite()
        &&& sg_nodes(self.graph).dom().len() == self.modules@.len()
        &&& (forall|i: int|
            0 <= i < self.modules@.len() ==> sg_nodes(self.graph).dom().contains(
                #[trigger] self.node_ix@[i] as int,
            ) && sg_nodes(self.graph)[self.node_ix@[i] as int] == i as u64)
        &&& (forall|n: int|
            #[trigger] sg_nodes(self.graph).dom().contains(n) ==> exists|i: int|
                0 <= i < self.modules@.len() && #[trigger] self.node_ix@[i] as int == n)
        &&& (forall|i: int, j: int|
            0 <= i < j < self.modules@.len() ==> #[trigger] self.modules@[i].id.id@
                != #[trigger] self.modules@[j].id.id@)
        &&& (forall|e: (int, int)|
            #[trigger] sg_edges(self.graph).dom().contains(e) ==> sg_nodes(
                self.graph,
            ).dom().contains(e.0) && sg_nodes(self.graph).dom().contains(e.1) && sg_edges(
                self.graph,
            )[e] < self.deps@.len())
        &&& sg_edges(self.graph).dom().finite()
        &&& sg_edges(self.graph).dom().len() <= self.deps@.len()
        &&& sg_simple(self.graph)
    }

    /// Is a module with this id registered?
    pub closed spec fn spec_has(self, id: Seq<char>) -> bool {
        exists|i: int| 0 <= i < self.modules@.len() && #[trigger] self.modules@[i].id.id@ == id
    }

    closed spec fn idx_of(self, id: Seq<char>) -> int {
        choose|i: int| 0 <= i < self.modules@.len() && #[trigger] self.modules@[i].id.id@ == id
    }

    /// The registered module with this id.
    pub closed spec fn spec_module(self, id: Seq<char>) -> SpecModule {
        view_module(self.modules@[self.idx_of(id)])
    }

    pub closed spec fn module_count(self) -> nat {
        self.modules@.len()
    }

    pub closed spec fn dep_count(self) -> nat {
        self.deps@.len()
    }

    /// The registered ids, in registration order.
    pub closed spec fn ids_seq(self) -> Seq<Seq<char>> {
        self.modules@.map_values(|m: Module| m.id.id@)
    }

    /// The entry ids, in registration order.
    pub closed spec fn entries_seq(self) -> Seq<Seq<char>> {
        self.entries@.map_values(|m: ModuleId| m.id@)
    }

    /// The edge from `from` to `to`, if both are registered and the edge
    /// was added.
    pub closed spec fn spec_edge(self, from: Seq<char>, to: Seq<char>) -> Option<SpecDependency> {
        if self.spec_has(from) && self.spec_has(to) {
            let key = (
                self.node_ix@[self.idx_of(from)] as int,
                self.node_ix@[self.idx_of(to)] as int,
            );
            if sg_edges(self.graph).dom().contains(key) {
                Some(view_dependency(self.deps@[sg_edges(self.graph)[key] as int]))
            } else {
                None
            }
        } else {
            None
        }
    }

    proof fn lemma_idx_of(self, id: Seq<char>)
        requires
            self.wf(),
            self.spec_has(id),
        ensures
            0 <= self.idx_of(id) < self.modules@.len(),
            self.modules@[self.idx_of(id)].id.id@ == id,
            forall|i: int|
                0 <= i < self.modules@.len() && #[trigger] self.modules@[i].id.id@ == id ==> i
                    == self.idx_of(id),
    {
    }

    pub fn new() -> (r: ModuleGraph)
        ensures
            r.wf(),
            r.module_count() == 0,
            r.dep_count() == 0,
            forall|id: Seq<char>| !r.spec_has(id),
            forall|f: Seq<char>, t: Seq<char>| r.spec_edge(f, t) is None,
            r.ids_seq() == Seq::<Seq<char>>::empty(),
            r.entries_seq() == Seq::<Seq<char>>::empty(),
    {
        let r = ModuleGraph {
            graph: pg_new(),
            modules: Vec::new(),
            node_ix: Vec::new(),
            deps: Vec::new(),
            entries: Vec::new(),
        };
        proof {
            assert(r.ids_seq() =~= Seq::<Seq<char>>::empty());
            assert(r.entries_seq() =~= Seq::<Seq<char>>::empty());
        }
        r
    }

    fn find_index(&self, id: &String) -> (r: Option<usize>)
        requires
            self.wf(),
        ensures
            match r {
                Some(i) => self.spec_has(id@) && i as int == self.idx_of(id@) && i
                    < self.modules@.len(),
                None => !self.spec_has(id@),
            },
    {
        let mut i: usize = 0;
        while i < self.modules.len()
            invariant
                self.wf(),
                i <= self.modules@.len(),
                forall|j: int| 0 <= j < i ==> self.modules@[j].id.id@ != id@,
            decreases self.modules@.len() - i,
        {
            if self.modules[i].id.id.eq(id) {
                proof {
                    assert(self.modules@[i as int].id.id@ == id@);
                    self.lemma_idx_of(id@);
                }
                return Some(i);
            }
            i = i + 1;
        }
        None
    }

    /// Registers a new module; its id must not already be present. The id
    /// count is bounded by the graph's index type.
    pub fn add_module(&mut self, module: Module)
        requires
            old(self).wf(),
            !old(self).spec_has(module.id.id@),
            old(self).module_count() < 0xffff_fffe,
        ensures
            final(self).wf(),
            final(self).spec_has(module.id.id@),
            final(self).spec_module(module.id.id@) == view_module(module),
            final(self).module_count() == old(self).module_count() + 1,
            final(self).dep_count() == old(self).dep_count(),
            forall|id: Seq<char>|
                id != module.id.id@ ==> #[trigger] final(self).spec_has(id) == old(self).spec_has(id),
            forall|id: Seq<char>|
                id != module.id.id@ && old(self).spec_has(id) ==> #[trigger] final(self).spec_module(id) == old(self).spec_module(id),
            forall|f: Seq<char>, t: Seq<char>| #[trigger]
                final(self).spec_edge(f, t) == old(self).spec_edge(f, t),
            final(self).ids_seq() == old(self).ids_seq().push(module.id.id@),
            final(self).entries_seq() == if module.is_entry {
                old(self).entries_seq().push(module.id.id@)
            } else {
                old(self).entries_seq()
            },
    {
        let ghost oldg = *self;
        let is_entry = module.is_entry;
        let entry_id = clone_module_id(&module.id);
        let ghost new_id = module.id.id@;
        let slot = self.modules.len();
        let ix = pg_add_node(&mut self.graph, slot as u64);
        self.modules.push(module);
        self.node_ix.push(ix);
        if is_entry {
            self.entries.push(entry_id);
        }
        proof {
            let s = *self;
            assert(sg_nodes(s.graph).dom().len() == s.modules@.len()) by {
                assert(sg_nodes(s.graph) == sg_nodes(oldg.graph).insert(ix as int, slot as u64));
                vstd::set_lib::lemma_len_union::<int>(
                    sg_nodes(oldg.graph).dom(),
                    Set::empty().insert(ix as int),
                );
                assert(sg_nodes(oldg.graph).dom().insert(ix as int) =~= sg_nodes(
                    s.graph,
                ).dom());
            }
            assert(s.wf()) by {
                assert forall|n: int| #[trigger]
                    sg_nodes(s.graph).dom().contains(n) implies exists|i: int|
                    0 <= i < s.modules@.len() && #[trigger] s.node_ix@[i] as int == n by {
                    if n == ix as int {
                        assert(s.node_ix@[slot as int] as int == n);
                    } else {
                        assert(sg_nodes(oldg.graph).dom().contains(n));
                        let i = choose|i: int|
                            0 <= i < oldg.modules@.len() && #[trigger] oldg.node_ix@[i] as int
                                == n;
                        assert(s.node_ix@[i] as int == n);
                    }
                }
            }
            // Registered ids and the chosen index are stable for old ids.
            assert forall|id: Seq<char>| id != new_id implies #[trigger] s.spec_has(id) == oldg
                .spec_has(id) by {
                if s.spec_has(id) {
                    let i = choose|i: int|
                        0 <= i < s.modules@.len() && #[trigger] s.modules@[i].id.id@ == id;
                    assert(i < oldg.modules@.len());
                    assert(oldg.modules@[i].id.id@ == id);
                }
                if oldg.spec_has(id) {
                    let i = choose|i: int|
                        0 <= i < oldg.modules@.len() && #[trigger] oldg.modules@[i].id.id@ == id;
                    assert(s.modules@[i].id.id@ == id);
                }
            }
            assert forall|id: Seq<char>| id != new_id && oldg.spec_has(id) implies #[trigger] s
                .spec_module(id) == oldg.spec_module(id) by {
                oldg.lemma_idx_of(id);
                s.lemma_idx_of(id);
                assert(s.modules@[oldg.idx_of(id)].id.id@ == id);
            }
            assert(s.spec_has(new_id)) by {
                assert(s.modules@[slot as int].id.id@ == new_id);
            }
            s.lemma_idx_of(new_id);
            assert(s.idx_of(new_id) == slot as int);
            assert forall|f: Seq<char>, t: Seq<char>| true implies #[trigger] s.spec_edge(f, t)
                == oldg.spec_edge(f, t) by {
                if f == new_id || t == new_id {
                    // The new node carries no edges.
                    if s.spec_has(f) && s.spec_has(t) {
                        let key = (
                            s.node_ix@[s.idx_of(f)] as int,
                            s.node_ix@[s.idx_of(t)] as int,
                        );
                        if sg_edges(s.graph).dom().contains(key) {
                            assert(sg_nodes(oldg.graph).dom().contains(key.0));
                            assert(sg_nodes(oldg.graph).dom().contains(key.1));
                            if f == new_id {
                                assert(key.0 == ix as int);
                                assert(false);
                            } else {
                                assert(key.1 == ix as int);
                                assert(false);
                            }
                        }
                    }
                } else {
                    if oldg.spec_has(f) && oldg.spec_has(t) {
                        oldg.lemma_idx_of(f);
                        oldg.lemma_idx_of(t);
                        s.lemma_idx_of(f);
                        s.lemma_idx_of(t);
                        assert(s.modules@[oldg.idx_of(f)].id.id@ == f);
                        assert(s.modules@[oldg.idx_of(t)].id.id@ == t);
                    }
                }
            }
            assert(s.ids_seq() =~= oldg.ids_seq().push(new_id));
            if is_entry {
                assert(s.entries_seq() =~= oldg.entries_seq().push(new_id));
            } else {
                assert(s.entries_seq() =~= oldg.entries_seq());
            }
        }
    }


    /// Replaces the stored syntax tree of a registered module: the
    /// in-place mutation later pipeline stages perform through a mutable
    /// lookup. Returns whether the id was registered.
    pub fn update_module_ast(&mut self, module_id: &ModuleId, ast: Option<JsModule>) -> (r: bool)
        requires
            old(self).wf(),
        ensures
            final(self).wf(),
            r == old(self).spec_has(module_id.id@),
            forall|id: Seq<char>| #[trigger]
                final(self).spec_has(id) == old(self).spec_has(id),
            r ==> final(self).spec_module(module_id.id@) == (SpecModule {
                id: old(self).spec_module(module_id.id@).id,
                is_entry: old(self).spec_module(module_id.id@).is_entry,
                ast: match ast {
                    Some(a) => Some(a@),
                    None => None,
                },
            }),
            forall|id: Seq<char>|
                id != module_id.id@ && old(self).spec_has(id) ==> #[trigger] final(self).spec_module(id) == old(self).spec_module(id),
            forall|f: Seq<char>, t: Seq<char>| #[trigger]
                final(self).spec_edge(f, t) == old(self).spec_edge(f, t),
            final(self).ids_seq() == old(self).ids_seq(),
            final(self).entries_seq() == old(self).entries_seq(),
            final(self).module_count() == old(self).module_count(),
            final(self).dep_count() == old(self).dep_count(),
            !r ==> *final(self) == *old(self),
    {
        let ghost oldg = *self;
        let i = match self.find_index(&module_id.id) {
            Some(i) => i,
            None => {
                return false;
            },
        };
        let m_old = self.modules.remove(i);
        let new_m = Module { id: m_old.id, is_entry: m_old.is_entry, ast };
        self.modules.insert(i, new_m);
        proof {
            let s = *self;
            assert(s.modules@.len() == oldg.modules@.len());
            assert forall|j: int| 0 <= j < s.modules@.len() implies #[trigger] s.modules@[j].id.id@
                == oldg.modules@[j].id.id@ && s.modules@[j].is_entry
                == oldg.modules@[j].is_entry by {
                if j < i {
                } else if j == i {
                } else {
                    assert(s.modules@[j] == oldg.modules@[j]);
                }
            }
            assert(s.wf()) by {
                assert forall|n: int| #[trigger]
                    sg_nodes(s.graph).dom().contains(n) implies exists|ii: int|
                    0 <= ii < s.modules@.len() && #[trigger] s.node_ix@[ii] as int == n by {
                    let ii = choose|ii: int|
                        0 <= ii < oldg.modules@.len() && #[trigger] oldg.node_ix@[ii] as int
                            == n;
                    assert(s.node_ix@[ii] as int == n);
                }
                assert forall|ii: int, jj: int|
                    0 <= ii < jj < s.modules@.len() implies #[trigger] s.modules@[ii].id.id@
                    != #[trigger] s.modules@[jj].id.id@ by {
                    assert(s.modules@[ii].id.id@ == oldg.modules@[ii].id.id@);
                    assert(s.modules@[jj].id.id@ == oldg.modules@[jj].id.id@);
                }
            }
            assert forall|id: Seq<char>| true implies #[trigger] s.spec_has(id) == oldg.spec_has(
                id,
            ) by {
                if s.spec_has(id) {
                    let j = choose|j: int|
                        0 <= j < s.modules@.len() && #[trigger] s.modules@[j].id.id@ == id;
                    assert(oldg.modules@[j].id.id@ == id);
                }
                if oldg.spec_has(id) {
                    let j = choose|j: int|
                        0 <= j < oldg.modules@.len() && #[trigger] oldg.modules@[j].id.id@ == id;
                    assert(s.modules@[j].id.id@ == id);
                }
            }
            assert forall|id: Seq<char>| oldg.spec_has(id) implies #[trigger] s.idx_of(id)
                == oldg.idx_of(id) by {
                oldg.lemma_idx_of(id);
                s.lemma_idx_of(id);
                assert(s.modules@[oldg.idx_of(id)].id.id@ == id);
            }
            assert(s.spec_has(module_id.id@));
            assert(s.idx_of(module_id.id@) == i as int);
            assert(s.spec_module(module_id.id@) == view_module(s.modules@[i as int]));
            assert forall|id: Seq<char>|
                id != module_id.id@ && oldg.spec_has(id) implies #[trigger] s.spec_module(id)
                == oldg.spec_module(id) by {
                oldg.lemma_idx_of(id);
                if oldg.idx_of(id) == i as int {
                    assert(oldg.modules@[i as int].id.id@ == id);
                    assert(oldg.modules@[i as int].id.id@ == module_id.id@);
                } else {
                    assert(s.modules@[oldg.idx_of(id)] == oldg.modules@[oldg.idx_of(id)]);
                }
            }
            assert forall|f: Seq<char>, t: Seq<char>| true implies #[trigger] s.spec_edge(f, t)
                == oldg.spec_edge(f, t) by {
                if oldg.spec_has(f) && oldg.spec_has(t) {
                }
            }
            assert(s.ids_seq() =~= oldg.ids_seq());
            assert(s.entries_seq() =~= oldg.entries_seq());
        }
        true
    }

    /// The number of registered modules; lets a caller check the
    /// registration budget before `add_module`.
    pub fn module_len(&self) -> (r: usize)
        ensures
            r == self.module_count(),
    {
        self.modules.len()
    }

    /// The number of stored edge payloads; lets a caller check the
    /// dependency budget before `add_dependency`.
    pub fn dep_len(&self) -> (r: usize)
        ensures
            r == self.dep_count(),
    {
        self.deps.len()
    }

    pub fn has_module(&self, module_id: &ModuleId) -> (r: bool)
        requires
            self.wf(),
        ensures
            r == self.spec_has(module_id.id@),
    {
        match self.find_index(&module_id.id) {
            Some(_) => true,
            None => false,
        }
    }

    pub fn get_module(&self, module_id: &ModuleId) -> (r: Option<&Module>)
        requires
            self.wf(),
        ensures
            match r {
                Some(m) => self.spec_has(module_id.id@) && view_module(*m) == self.spec_module(
                    module_id.id@,
                ),
                None => !self.spec_has(module_id.id@),
            },
    {
        match self.find_index(&module_id.id) {
            Some(i) => Some(&self.modules[i]),
            None => None,
        }
    }

    /// All registered ids, in registration order.
    pub fn get_module_ids(&self) -> (r: Vec<ModuleId>)
        requires
            self.wf(),
        ensures
            r@.map_values(|m: ModuleId| m.id@) == self.ids_seq(),
    {
        let mut r: Vec<ModuleId> = Vec::new();
        let mut i: usize = 0;
        while i < self.modules.len()
            invariant
                i <= self.modules@.len(),
                r@.len() == i,
                forall|j: int| 0 <= j < i ==> r@[j].id@ == self.modules@[j].id.id@,
            decreases self.modules@.len() - i,
        {
            r.push(clone_module_id(&self.modules[i].id));
            i = i + 1;
        }
        proof {
            assert(r@.map_values(|m: ModuleId| m.id@) =~= self.ids_seq());
        }
        r
    }

    /// The ids flagged as build entries, in registration order.
    pub fn get_entry_modules(&self) -> (r: Vec<ModuleId>)
        requires
            self.wf(),
        ensures
            r@.map_values(|m: ModuleId| m.id@) == self.entries_seq(),
    {
        let mut r: Vec<ModuleId> = Vec::new();
        let mut i: usize = 0;
        while i < self.entries.len()
            invariant
                i <= self.entries@.len(),
                r@.len() == i,
                forall|j: int| 0 <= j < i ==> r@[j].id@ == self.entries@[j].id@,
            decreases self.entries@.len() - i,
        {
            r.push(clone_module_id(&self.entries[i]));
            i = i + 1;
        }
        proof {
            assert(r@.map_values(|m: ModuleId| m.id@) =~= self.entries_seq());
        }
        r
    }

    /// Creates, or overwrites, the edge from `from` to `to`. Naming an
    /// unregistered module id is a graph consistency error. Every call,
    /// overwrites included, stores its payload in a fresh slot, so the
    /// dependency budget counts upserts too.
    pub fn add_dependency(&mut self, from: &ModuleId, to: &ModuleId, edge: Dependency) -> (r:
        Result<(), GraphError>)
        requires
            old(self).wf(),
            old(self).dep_count() < 0xffff_fffe,
        ensures
            final(self).wf(),
            r is Ok <==> old(self).spec_has(from.id@) && old(self).spec_has(to.id@),
            r is Err ==> *final(self) == *old(self),
            r is Err ==> match r->Err_0 {
                GraphError::ModuleNotFound(id) => id@ == if !old(self).spec_has(from.id@) {
                    from.id@
                } else {
                    to.id@
                },
            },
            r is Ok ==> {
                &&& final(self).spec_edge(from.id@, to.id@) == Some(view_dependency(edge))
                &&& forall|f: Seq<char>, t: Seq<char>|
                    !(f == from.id@ && t == to.id@) ==> #[trigger] final(self).spec_edge(f, t)
                        == old(self).spec_edge(f, t)
                &&& final(self).dep_count() == old(self).dep_count() + 1
            },
            final(self).module_count() == old(self).module_count(),
            forall|id: Seq<char>| #[trigger]
                final(self).spec_has(id) == old(self).spec_has(id),
            forall|id: Seq<char>|
                old(self).spec_has(id) ==> #[trigger] final(self).spec_module(id) == old(self).spec_module(id),
            final(self).ids_seq() == old(self).ids_seq(),
            final(self).entries_seq() == old(self).entries_seq(),
    {
        let ghost oldg = *self;
        let a = match self.find_index(&from.id) {
            Some(i) => i,
            None => {
                return Err(GraphError::ModuleNotFound(from.id.clone()));
            },
        };
        let b = match self.find_index(&to.id) {
            Some(i) => i,
            None => {
                return Err(GraphError::ModuleNotFound(to.id.clone()));
            },
        };
        let slot = self.deps.len();
        let na = self.node_ix[a];
        let nb = self.node_ix[b];
        self.deps.push(edge);
        pg_update_edge(&mut self.graph, na, nb, slot as u64);
        proof {
            let s = *self;
            let key = (na as int, nb as int);
            assert(sg_edges(s.graph) == sg_edges(oldg.graph).insert(key, slot as u64));
            assert(sg_edges(s.graph).dom().len() <= s.deps@.len()) by {
                vstd::set_lib::lemma_len_union::<(int, int)>(
                    sg_edges(oldg.graph).dom(),
                    Set::empty().insert(key),
                );
                assert(sg_edges(oldg.graph).dom().insert(key) =~= sg_edges(s.graph).dom());
            }
            assert(s.wf());
            oldg.lemma_idx_of(from.id@);
            oldg.lemma_idx_of(to.id@);
            assert(s.spec_edge(from.id@, to.id@) == Some(view_dependency(edge))) by {
                assert(s.idx_of(from.id@) == oldg.idx_of(from.id@));
                assert(s.idx_of(to.id@) == oldg.idx_of(to.id@));
                assert(s.node_ix@[s.idx_of(from.id@)] as int == na as int);
                assert(s.node_ix@[s.idx_of(to.id@)] as int == nb as int);
            }
            assert forall|f: Seq<char>, t: Seq<char>| !(f == from.id@ && t == to.id@) implies #[trigger]
                s.spec_edge(f, t) == oldg.spec_edge(f, t) by {
                if s.spec_has(f) && s.spec_has(t) {
                    s.lemma_idx_of(f);
                    s.lemma_idx_of(t);
                    oldg.lemma_idx_of(f);
                    oldg.lemma_idx_of(t);
                    let k2 = (s.node_ix@[s.idx_of(f)] as int, s.node_ix@[s.idx_of(t)] as int);
                    if k2 == key {
                        // Node handles determine the index, so the ids agree
                        // with the edge just written, contradiction.
                        assert(sg_nodes(s.graph)[k2.0] == s.idx_of(f) as u64);
                        assert(oldg.node_ix@[a as int] as int == key.0);
                        assert(sg_nodes(oldg.graph)[oldg.node_ix@[a as int] as int] == a as u64);
                        assert(sg_nodes(s.graph) == sg_nodes(oldg.graph));
                        assert(s.idx_of(f) == a as int);
                        assert(s.modules@[s.idx_of(f)].id.id@ == f);
                        assert(a as int == oldg.idx_of(from.id@));
                        assert(oldg.modules@[oldg.idx_of(from.id@)].id.id@ == from.id@);
                        assert(f == from.id@);
                        assert(sg_nodes(s.graph)[k2.1] == s.idx_of(t) as u64);
                        assert(oldg.node_ix@[b as int] as int == key.1);
                        assert(sg_nodes(oldg.graph)[oldg.node_ix@[b as int] as int] == b as u64);
                        assert(s.idx_of(t) == b as int);
                        assert(t == to.id@);
                    }
                }
            }
            assert(s.ids_seq() =~= oldg.ids_seq());
            assert(s.entries_seq() =~= oldg.entries_seq());
        }
        Ok(())
    }


    /// Law: with no two outgoing edges of `id` sharing a declaration order,
    /// any two listings of its edges are the same sequence: repeated calls
    /// of `get_dependencies` without intervening mutation agree.
    pub proof fn lemma_deps_listing_deterministic(
        self,
        id: Seq<char>,
        v1: Seq<(ModuleId, Dependency)>,
        v2: Seq<(ModuleId, Dependency)>,
    )
        requires
            self.deps_listing(id, v1),
            self.deps_listing(id, v2),
            forall|t1: Seq<char>, t2: Seq<char>|
                t1 != t2 && #[trigger] self.spec_edge(id, t1) is Some && #[trigger] self.spec_edge(
                    id,
                    t2,
                ) is Some ==> self.spec_edge(id, t1)->Some_0.order != self.spec_edge(
                    id,
                    t2,
                )->Some_0.order,
        ensures
            dep_views(v1) == dep_views(v2),
    {
        let w1 = dep_views(v1);
        let w2 = dep_views(v2);
        assert forall|p: (Seq<char>, SpecDependency)| #[trigger]
            w1.contains(p) implies self.spec_edge(id, p.0) == Some(p.1) by {
            let i = choose|i: int| 0 <= i < w1.len() && w1[i] == p;
            assert(w1[i] == (v1[i].0.id@, v1[i].1@));
        }
        assert forall|p: (Seq<char>, SpecDependency)| #[trigger]
            w2.contains(p) implies self.spec_edge(id, p.0) == Some(p.1) by {
            let i = choose|i: int| 0 <= i < w2.len() && w2[i] == p;
            assert(w2[i] == (v2[i].0.id@, v2[i].1@));
        }
        assert forall|p: (Seq<char>, SpecDependency)|
            self.spec_edge(id, p.0) == Some(p.1) implies #[trigger] w1.contains(p) by {
            let i = choose|i: int| 0 <= i < v1.len() && #[trigger] v1[i].0.id@ == p.0;
            assert(w1[i] == (v1[i].0.id@, v1[i].1@));
        }
        assert forall|p: (Seq<char>, SpecDependency)|
            self.spec_edge(id, p.0) == Some(p.1) implies #[trigger] w2.contains(p) by {
            let j = choose|j: int| 0 <= j < v2.len() && #[trigger] v2[j].0.id@ == p.0;
            assert(w2[j] == (v2[j].0.id@, v2[j].1@));
        }
        assert forall|i: int, j: int| 0 <= i < j < w1.len() implies w1[i].1.order
            <= w1[j].1.order && w1[i].0 != w1[j].0 by {
            assert(w1[i] == (v1[i].0.id@, v1[i].1@));
            assert(w1[j] == (v1[j].0.id@, v1[j].1@));
        }
        assert forall|i: int, j: int| 0 <= i < j < w2.len() implies w2[i].1.order
            <= w2[j].1.order && w2[i].0 != w2[j].0 by {
            assert(w2[i] == (v2[i].0.id@, v2[i].1@));
            assert(w2[j] == (v2[j].0.id@, v2[j].1@));
        }
        self.lemma_listing_views_unique(id, Set::empty(), w1, w2);
    }

    /// Two view-level listings of the same edge set less an excluded set,
    /// both sorted and with pairwise-distinct orders among the edges, are
    /// equal.
    proof fn lemma_listing_views_unique(
        self,
        id: Seq<char>,
        excl: Set<(Seq<char>, SpecDependency)>,
        w1: Seq<(Seq<char>, SpecDependency)>,
        w2: Seq<(Seq<char>, SpecDependency)>,
    )
        requires
            forall|p: (Seq<char>, SpecDependency)| #[trigger]
                w1.contains(p) ==> self.spec_edge(id, p.0) == Some(p.1) && !excl.contains(p),
            forall|p: (Seq<char>, SpecDependency)| #[trigger]
                w2.contains(p) ==> self.spec_edge(id, p.0) == Some(p.1) && !excl.contains(p),
            forall|p: (Seq<char>, SpecDependency)|
                (self.spec_edge(id, p.0) == Some(p.1) && !excl.contains(p)) ==> #[trigger] w1.contains(
                    p,
                ),
            forall|p: (Seq<char>, SpecDependency)|
                (self.spec_edge(id, p.0) == Some(p.1) && !excl.contains(p)) ==> #[trigger] w2.contains(
                    p,
                ),
            forall|i: int, j: int|
                0 <= i < j < w1.len() ==> w1[i].1.order <= w1[j].1.order && w1[i].0 != w1[j].0,
            forall|i: int, j: int|
                0 <= i < j < w2.len() ==> w2[i].1.order <= w2[j].1.order && w2[i].0 != w2[j].0,
            forall|t1: Seq<char>, t2: Seq<char>|
                t1 != t2 && #[trigger] self.spec_edge(id, t1) is Some && #[trigger] self.spec_edge(
                    id,
                    t2,
                ) is Some ==> self.spec_edge(id, t1)->Some_0.order != self.spec_edge(
                    id,
                    t2,
                )->Some_0.order,
        ensures
            w1 == w2,
        decreases w1.len(),
    {
        if w1.len() == 0 {
            if w2.len() > 0 {
                assert(w2.contains(w2[0]));
                assert(w1.contains(w2[0]));
            }
            assert(w1 =~= w2);
        } else {
            assert(w1.contains(w1[0]));
            assert(self.spec_edge(id, w1[0].0) == Some(w1[0].1) && !excl.contains(w1[0]));
            assert(w2.contains(w1[0]));
            assert(w2.len() > 0);
            assert(w2.contains(w2[0]));
            assert(self.spec_edge(id, w2[0].0) == Some(w2[0].1) && !excl.contains(w2[0]));
            assert(w1.contains(w2[0]));
            // The heads agree: each head is the unique minimum by order.
            let j = choose|j: int| 0 <= j < w2.len() && w2[j] == w1[0];
            let k = choose|k: int| 0 <= k < w1.len() && w1[k] == w2[0];
            assert(w2[j] == w1[0] && 0 <= j < w2.len());
            assert(w1[k] == w2[0] && 0 <= k < w1.len());
            if j > 0 {
                assert(w2[0].1.order <= w2[j].1.order);
                assert(w1[0].1.order <= w1[k].1.order);
                assert(w2[0].0 != w2[j].0);
                assert(self.spec_edge(id, w2[0].0)->Some_0.order != self.spec_edge(
                    id,
                    w1[0].0,
                )->Some_0.order);
                assert(false);
            }
            assert(w2[0] == w1[0]);
            // The tails list the same edges, with the head also excluded.
            let excl2 = excl.insert(w1[0]);
            let t1 = w1.drop_first();
            let t2 = w2.drop_first();
            assert forall|p: (Seq<char>, SpecDependency)| #[trigger]
                t1.contains(p) implies self.spec_edge(id, p.0) == Some(p.1) && !excl2.contains(
                p,
            ) by {
                let i = choose|i: int| 0 <= i < t1.len() && t1[i] == p;
                assert(w1[i + 1] == p);
                assert(w1.contains(p));
                assert(w1[0].0 != w1[i + 1].0);
            }
            assert forall|p: (Seq<char>, SpecDependency)| #[trigger]
                t2.contains(p) implies self.spec_edge(id, p.0) == Some(p.1) && !excl2.contains(
                p,
            ) by {
                let i = choose|i: int| 0 <= i < t2.len() && t2[i] == p;
                assert(w2[i + 1] == p);
                assert(w2.contains(p));
                assert(w2[0].0 != w2[i + 1].0);
            }
            assert forall|p: (Seq<char>, SpecDependency)|
                (self.spec_edge(id, p.0) == Some(p.1) && !excl2.contains(p))
                    implies #[trigger] t1.contains(p) by {
                assert(!excl.contains(p));
                assert(w1.contains(p));
                let i = choose|i: int| 0 <= i < w1.len() && w1[i] == p;
                if i == 0 {
                    assert(p == w1[0]);
                    assert(excl2.contains(p));
                }
                assert(t1[i - 1] == p);
            }
            assert forall|p: (Seq<char>, SpecDependency)|
                (self.spec_edge(id, p.0) == Some(p.1) && !excl2.contains(p))
                    implies #[trigger] t2.contains(p) by {
                assert(!excl.contains(p));
                assert(w2.contains(p));
                let i2 = choose|i2: int| 0 <= i2 < w2.len() && w2[i2] == p;
                if i2 == 0 {
                    assert(p == w2[0]);
                    assert(excl2.contains(p));
                }
                assert(t2[i2 - 1] == p);
            }
            self.lemma_listing_views_unique(id, excl2, t1, t2);
            assert(w1 =~= w2) by {
                assert(t1 == t2);
                assert(forall|i: int| 1 <= i < w1.len() ==> w1[i] == t1[i - 1]);
                assert(forall|i: int| 1 <= i < w2.len() ==> w2[i] == t2[i - 1]);
            }
        }
    }

    proof fn lemma_node_ix_injective(self, i: int, j: int)
        requires
            self.wf(),
            0 <= i < self.modules@.len(),
            0 <= j < self.modules@.len(),
            self.node_ix@[i] == self.node_ix@[j],
        ensures
            i == j,
    {
        assert(sg_nodes(self.graph)[self.node_ix@[i] as int] == i as u64);
        assert(sg_nodes(self.graph)[self.node_ix@[j] as int] == j as u64);
    }

    fn find_by_node(&self, n: usize) -> (r: Option<usize>)
        requires
            self.wf(),
        ensures
            match r {
                Some(i) => i < self.modules@.len() && self.node_ix@[i as int] == n,
                None => forall|i: int| 0 <= i < self.modules@.len() ==> self.node_ix@[i] != n,
            },
    {
        let mut i: usize = 0;
        while i < self.node_ix.len()
            invariant
                self.wf(),
                i <= self.node_ix@.len(),
                forall|j: int| 0 <= j < i ==> self.node_ix@[j] != n,
            decreases self.node_ix@.len() - i,
        {
            if self.node_ix[i] == n {
                return Some(i);
            }
            i = i + 1;
        }
        None
    }

    /// Is `v` a listing of the outgoing edges of `id`: each element a real
    /// edge, each edge present, one element per target, ascending by
    /// declaration order?
    pub open spec fn deps_listing(self, id: Seq<char>, v: Seq<(ModuleId, Dependency)>) -> bool {
        &&& (forall|i: int|
            0 <= i < v.len() ==> self.spec_edge(id, #[trigger] v[i].0.id@) == Some(v[i].1@))
        &&& (forall|t: Seq<char>|
            #[trigger] self.spec_edge(id, t) is Some ==> exists|i: int|
                0 <= i < v.len() && #[trigger] v[i].0.id@ == t)
        &&& (forall|i: int, j: int| 0 <= i < j < v.len() ==> v[i].0.id@ != v[j].0.id@)
        &&& sorted_by_order(v)
    }

    /// All outgoing edges of the module, each as the target id with the
    /// edge's payload, sorted ascending by declaration order. Naming an
    /// unregistered module id is a graph consistency error.
    #[verifier::rlimit(100)]
    pub fn get_dependencies(&self, module_id: &ModuleId) -> (r: Result<
        Vec<(ModuleId, Dependency)>,
        GraphError,
    >)
        requires
            self.wf(),
        ensures
            r is Ok <==> self.spec_has(module_id.id@),
            r is Err ==> match r->Err_0 {
                GraphError::ModuleNotFound(id) => id@ == module_id.id@,
            },
            r is Ok ==> self.deps_listing(module_id.id@, r->Ok_0@),
    {
        let ghost from_id = module_id.id@;
        let a = match self.find_index(&module_id.id) {
            Some(i) => i,
            None => {
                return Err(GraphError::ModuleNotFound(module_id.id.clone()));
            },
        };
        let na = self.node_ix[a];
        proof {
            assert(sg_nodes(self.graph).dom().contains(self.node_ix@[a as int] as int));
        }
        let raw = pg_out_edges(&self.graph, na);
        proof {
            assert forall|k: int| 0 <= k < raw@.len() implies #[trigger] raw@[k].1
                < self.deps@.len() by {
                assert(sg_edges(self.graph).contains_pair(
                    (na as int, raw@[k].0 as int),
                    raw@[k].1,
                ));
                assert(sg_edges(self.graph).dom().contains((na as int, raw@[k].0 as int)));
            }
        }
        // Sort the raw (target node, edge weight) pairs ascending by the
        // declaration order stored in the edge payload.
        let mut sr: Vec<(usize, u64)> = Vec::new();
        let mut i: usize = 0;
        while i < raw.len()
            invariant
                self.wf(),
                forall|k: int|
                    0 <= k < raw@.len() ==> sg_edges(self.graph).contains_pair(
                        (na as int, #[trigger] raw@[k].0 as int),
                        raw@[k].1,
                    ),
                forall|k: int, l: int| 0 <= k < l < raw@.len() ==> raw@[k].0 != raw@[l].0,
                forall|k: int| 0 <= k < raw@.len() ==> #[trigger] raw@[k].1 < self.deps@.len(),
                i <= raw@.len(),
                sr@.len() == i,
                forall|k: int|
                    0 <= k < sr@.len() ==> raw@.subrange(0, i as int).contains(#[trigger] sr@[k]),
                forall|j: int| 0 <= j < i ==> sr@.contains(#[trigger] raw@[j]),
                forall|k: int, l: int| 0 <= k < l < sr@.len() ==> sr@[k].0 != sr@[l].0,
                forall|k: int, l: int|
                    0 <= k < l < sr@.len() ==> self.deps@[sr@[k].1 as int]@.order
                        <= self.deps@[sr@[l].1 as int]@.order,
            decreases raw@.len() - i,
        {
            let elem = raw[i];
            let ghost before = sr@;
            // Find the insertion point.
            let mut p: usize = 0;
            while p < sr.len() && self.deps[sr[p].1 as usize].order
                <= self.deps[elem.1 as usize].order
                invariant
                    self.wf(),
                    p <= sr@.len(),
                    elem.1 < self.deps@.len(),
                    forall|k: int| 0 <= k < sr@.len() ==> #[trigger] sr@[k].1 < self.deps@.len(),
                    forall|k: int|
                        0 <= k < p ==> self.deps@[#[trigger] sr@[k].1 as int]@.order
                            <= self.deps@[elem.1 as int]@.order,
                decreases sr@.len() - p,
            {
                p = p + 1;
            }
            proof {
                assert(p == sr@.len() || self.deps@[sr@[p as int].1 as int]@.order
                    > self.deps@[elem.1 as int]@.order);
            }
            sr.insert(p, elem);
            proof {
                lemma_insert_contains(before, p as int, elem);
                assert(raw@.subrange(0, i as int + 1)[i as int] == raw@[i as int]);
                assert forall|k: int| 0 <= k < sr@.len() implies raw@.subrange(
                    0,
                    i as int + 1,
                ).contains(#[trigger] sr@[k]) by {
                    if k == p {
                        assert(raw@.subrange(0, i as int + 1).contains(raw@[i as int]));
                    } else {
                        let k0 = if k < p as int {
                            k
                        } else {
                            k - 1
                        };
                        assert(raw@.subrange(0, i as int).contains(before[k0]));
                        let j = choose|j: int|
                            0 <= j < i && raw@.subrange(0, i as int)[j] == before[k0];
                        assert(raw@.subrange(0, i as int + 1)[j] == before[k0]);
                        assert(raw@.subrange(0, i as int + 1).contains(before[k0]));
                    }
                }
                assert forall|j: int| 0 <= j < i + 1 implies sr@.contains(#[trigger] raw@[j]) by {
                    if j < i {
                        assert(before.contains(raw@[j]));
                    } else {
                        assert(sr@[p as int] == raw@[i as int]);
                    }
                }
                assert forall|k: int, l: int| 0 <= k < l < sr@.len() implies sr@[k].0
                    != sr@[l].0 by {
                    if k != p && l != p {
                        assert(sr@[k] == before[if k < p as int { k } else { k - 1 }]);
                        assert(sr@[l] == before[if l < p as int { l } else { l - 1 }]);
                    } else {
                        let m = if k == p { l } else { k };
                        let m0 = if m < p as int { m } else { m - 1 };
                        assert(sr@[m] == before[m0]);
                        // Each earlier element comes from the raw prefix,
                        // whose targets all differ from the new element's.
                        assert(raw@.subrange(0, i as int).contains(before[m0]));
                        let j = choose|j: int|
                            0 <= j < i && raw@.subrange(0, i as int)[j] == before[m0];
                        assert(raw@[j] == before[m0]);
                        assert(raw@[j].0 != raw@[i as int].0);
                    }
                }
                assert forall|k: int, l: int| 0 <= k < l < sr@.len() implies self.deps@[sr@[k].1 as int]@.order
                    <= self.deps@[sr@[l].1 as int]@.order by {
                    if k == p as int {
                        assert(sr@[l] == before[l - 1]);
                        assert(l - 1 >= p);
                        assert(self.deps@[before[p as int].1 as int]@.order
                            <= self.deps@[before[l - 1].1 as int]@.order);
                    } else if l == p as int {
                        assert(sr@[k] == before[k]);
                    } else {
                        assert(sr@[k] == before[if k < p as int { k } else { k - 1 }]);
                        assert(sr@[l] == before[if l < p as int { l } else { l - 1 }]);
                    }
                }
            }
            i = i + 1;
        }
        // Map each pair to the target module's id and the edge payload.
        let mut out: Vec<(ModuleId, Dependency)> = Vec::new();
        let mut t: usize = 0;
        while t < sr.len()
            invariant
                self.wf(),
                a as int == self.idx_of(from_id),
                a < self.modules@.len(),
                na == self.node_ix@[a as int],
                self.spec_has(from_id),
                forall|k: int|
                    0 <= k < raw@.len() ==> sg_edges(self.graph).contains_pair(
                        (na as int, #[trigger] raw@[k].0 as int),
                        raw@[k].1,
                    ),
                forall|b: int|
                    sg_edges(self.graph).dom().contains((na as int, b)) ==> exists|i: int|
                        0 <= i < raw@.len() && #[trigger] raw@[i].0 as int == b,
                forall|k: int|
                    0 <= k < sr@.len() ==> raw@.subrange(0, raw@.len() as int).contains(
                        #[trigger] sr@[k],
                    ),
                forall|j: int| 0 <= j < raw@.len() ==> sr@.contains(#[trigger] raw@[j]),
                forall|k: int, l: int| 0 <= k < l < sr@.len() ==> sr@[k].0 != sr@[l].0,
                forall|k: int, l: int|
                    0 <= k < l < sr@.len() ==> self.deps@[sr@[k].1 as int]@.order
                        <= self.deps@[sr@[l].1 as int]@.order,
                forall|k: int| 0 <= k < sr@.len() ==> #[trigger] sr@[k].1 < self.deps@.len(),
                t <= sr@.len(),
                out@.len() == t,
                forall|k: int|
                    0 <= k < t ==> self.spec_edge(from_id, #[trigger] out@[k].0.id@) == Some(
                        out@[k].1@,
                    ),
                forall|k: int|
                    0 <= k < t ==> self.spec_has(#[trigger] out@[k].0.id@) && self.node_ix@[self.idx_of(
                        out@[k].0.id@,
                    )] == sr@[k].0 && out@[k].1@ == self.deps@[sr@[k].1 as int]@,
            decreases sr@.len() - t,
        {
            let (b, w) = sr[t];
            proof {
                assert(raw@.subrange(0, raw@.len() as int).contains(sr@[t as int]));
                let k = choose|k: int|
                    0 <= k < raw@.len() && raw@.subrange(0, raw@.len() as int)[k]
                        == sr@[t as int];
                assert(raw@[k] == sr@[t as int]);
                assert(sg_edges(self.graph).contains_pair((na as int, b as int), w));
                assert(sg_edges(self.graph).dom().contains((na as int, b as int)));
            }
            let mi = match self.find_by_node(b) {
                Some(mi) => mi,
                None => {
                    // Every edge target is a node, and every node belongs to
                    // a module.
                    proof {
                        assert(sg_nodes(self.graph).dom().contains(b as int));
                        let j = choose|j: int|
                            0 <= j < self.modules@.len() && #[trigger] self.node_ix@[j] as int
                                == b as int;
                        assert(self.node_ix@[j] == b);
                        assert(false);
                    }
                    return Err(GraphError::ModuleNotFound(module_id.id.clone()));
                },
            };
            let ghost tid = self.modules@[mi as int].id.id@;
            proof {
                assert(self.spec_has(tid));
                self.lemma_idx_of(tid);
                assert(self.idx_of(tid) == mi as int);
                assert(sg_edges(self.graph)[(na as int, b as int)] == w);
            }
            let id = clone_module_id(&self.modules[mi].id);
            let dep = clone_dependency(&self.deps[w as usize]);
            out.push((id, dep));
            t = t + 1;
        }
        proof {
            assert forall|k: int, l: int| 0 <= k < l < out@.len() implies out@[k].0.id@
                != out@[l].0.id@ by {
                if out@[k].0.id@ == out@[l].0.id@ {
                    assert(self.node_ix@[self.idx_of(out@[k].0.id@)] == sr@[k].0);
                    assert(self.node_ix@[self.idx_of(out@[l].0.id@)] == sr@[l].0);
                    assert(sr@[k].0 != sr@[l].0);
                    assert(false);
                }
            }
            assert forall|tq: Seq<char>| #[trigger]
                self.spec_edge(from_id, tq) is Some implies exists|i: int|
                0 <= i < out@.len() && #[trigger] out@[i].0.id@ == tq by {
                assert(self.spec_has(tq));
                self.lemma_idx_of(tq);
                let bt = self.node_ix@[self.idx_of(tq)] as int;
                assert(sg_edges(self.graph).dom().contains((na as int, bt)));
                let k = choose|k: int| 0 <= k < raw@.len() && #[trigger] raw@[k].0 as int == bt;
                assert(sr@.contains(raw@[k]));
                let m = choose|m: int| 0 <= m < sr@.len() && sr@[m] == raw@[k];
                assert(self.node_ix@[self.idx_of(out@[m].0.id@)] == sr@[m].0);
                self.lemma_node_ix_injective(self.idx_of(out@[m].0.id@), self.idx_of(tq));
                assert(self.modules@[self.idx_of(tq)].id.id@ == tq);
                assert(out@[m].0.id@ == tq);
            }
        }
        Ok(out)

    }
}

} // verus!
