use vstd::prelude::*;
use crate::language::vm::{RDLTypes, RdlV, Object, rdl_text};

verus! {

/// The variables of one scope, from its entries: each name maps to its
/// value.
pub open spec fn scope_map(entries: Seq<(RDLTypes, RDLTypes)>) -> Map<RdlV, RdlV>
    decreases entries.len(),
{
    if entries.len() == 0 {
        Map::empty()
    } else {
        scope_map(entries.drop_last()).insert(entries.last().0@, entries.last().1@)
    }
}

/// No name occurs twice among the entries.
pub open spec fn names_unique(entries: Seq<(RDLTypes, RDLTypes)>) -> bool {
    forall|i: int, j: int| 0 <= i < j < entries.len() ==> entries[i].0@ != entries[j].0@
}

/// The value of `name` in a chain of scopes, innermost first: the value in
/// the first scope that has it.
pub open spec fn lookup(scopes: Seq<Map<RdlV, RdlV>>, name: RdlV) -> Option<RdlV>
    decreases scopes.len(),
{
    if scopes.len() == 0 {
        None
    } else if scopes[0].dom().contains(name) {
        Some(scopes[0][name])
    } else {
        lookup(scopes.drop_first(), name)
    }
}

/// The index of the first object whose name is `name`.
pub open spec fn first_named(names: Seq<Seq<char>>, name: Seq<char>) -> Option<int> {
    if exists|i: int| 0 <= i < names.len() && names[i] == name {
        Some(choose|i: int| 0 <= i < names.len() && names[i] == name && forall|j: int| 0 <= j < i ==> names[j] != name)
    } else {
        None
    }
}

/// The variables and objects of running code, with the scope it is nested
/// in, if any.
pub struct ExecutionContext<O> {
    variables: Vec<(RDLTypes, RDLTypes)>,
    objects: Vec<(String, O)>,
    parent: Option<Box<ExecutionContext<O>>>,
}

impl<O: Object> ExecutionContext<O> {
    /// The variables of this scope alone.
    pub closed spec fn vars(&self) -> Map<RdlV, RdlV> {
        scope_map(self.variables@)
    }

    /// The variables of this scope and of those it is nested in, innermost
    /// first.
    pub closed spec fn scopes(&self) -> Seq<Map<RdlV, RdlV>>
        decreases self,
    {
        match &self.parent {
            Some(p) => seq![self.vars()] + p.scopes(),
            None => seq![self.vars()],
        }
    }

    /// The scopes this one is nested in, innermost first.
    pub closed spec fn outer(&self) -> Seq<Map<RdlV, RdlV>> {
        match &self.parent {
            Some(p) => p.scopes(),
            None => Seq::empty(),
        }
    }

    /// The scopes are this scope's variables, then the outer scopes.
    pub proof fn lemma_scopes(&self)
        ensures
            self.scopes() == seq![self.vars()] + self.outer(),
    {
        match &self.parent {
            Some(p) => {},
            None => {
                assert(seq![self.vars()] + self.outer() =~= seq![self.vars()]);
            },
        }
    }

    /// The objects of this scope, in the order they were added.
    pub closed spec fn objects(&self) -> Seq<O> {
        self.objects@.map_values(|e: (String, O)| e.1)
    }

    /// The names the objects of this scope reported when they were added.
    pub closed spec fn object_names(&self) -> Seq<Seq<char>> {
        self.objects@.map_values(|e: (String, O)| e.0@)
    }

    /// No name occurs twice in a scope of the chain.
    pub closed spec fn wf(&self) -> bool
        decreases self,
    {
        &&& names_unique(self.variables@)
        &&& match &self.parent {
            Some(p) => p.wf(),
            None => true,
        }
    }

    /// A scope with no variables, no objects and nothing around it.
    pub fn new() -> (r: Self)
        ensures
            r.wf(),
            r.scopes() == seq![Map::<RdlV, RdlV>::empty()],
            r.objects() == Seq::<O>::empty(),
    {
        let r = ExecutionContext { variables: Vec::new(), objects: Vec::new(), parent: None };
        proof {
            assert(r.vars() =~= Map::<RdlV, RdlV>::empty());
        }
        r
    }

    /// A scope with no variables and no objects, nested in `parent`.
    pub fn with_parent(parent: ExecutionContext<O>) -> (r: Self)
        requires
            parent.wf(),
        ensures
            r.wf(),
            r.scopes() == seq![Map::<RdlV, RdlV>::empty()] + parent.scopes(),
            r.objects() == Seq::<O>::empty(),
    {
        let r = ExecutionContext { variables: Vec::new(), objects: Vec::new(), parent: Some(Box::new(parent)) };
        proof {
            assert(r.vars() =~= Map::<RdlV, RdlV>::empty());
        }
        r
    }

    /// Adds an object after the others, under the name it reports.
    pub fn add_object(&mut self, object: O)
        ensures
            final(self).wf() == old(self).wf(),
            final(self).scopes() == old(self).scopes(),
            final(self).objects() == old(self).objects().push(object),
            final(self).object_names().len() == old(self).object_names().len() + 1,
            final(self).object_names().drop_last() == old(self).object_names(),
    {
        let name = object.name();
        self.objects.push((name, object));
        proof {
            assert(self.objects() =~= old(self).objects().push(object));
            assert(self.object_names().drop_last() =~= old(self).object_names());
        }
    }

    /// The index of the first object of this scope named by the text of
    /// `name`.
    fn find_object(&self, name: &RDLTypes) -> (r: Option<usize>)
        ensures
            r matches Some(i) ==> i < self.objects().len() && first_named(self.object_names(), rdl_text(name@)) == Some(i as int),
            r is None ==> first_named(self.object_names(), rdl_text(name@)) is None,
    {
        let wanted = name.to_display_string();
        let n = self.objects.len();
        let mut i: usize = 0;
        while i < n
            invariant
                i <= n,
                n == self.objects@.len(),
                wanted@ == rdl_text(name@),
                forall|j: int| 0 <= j < i ==> self.object_names()[j] != wanted@,
            decreases n - i,
        {
            let got = &self.objects[i].0;
            assert(self.object_names()[i as int] == got@);
            if crate::language::text::str_eq(got.as_str(), wanted.as_str()) {
                proof {
                    let names = self.object_names();
                    assert(exists|k: int| 0 <= k < names.len() && names[k] == wanted@);
                    let c = choose|k: int| 0 <= k < names.len() && names[k] == wanted@ && forall|j: int| 0 <= j < k ==> names[j] != wanted@;
                    assert(forall|j: int| 0 <= j < i ==> names[j] != wanted@);
                    if c < i {
                        assert(names[c] != wanted@);
                    }
                    if c > i {
                        assert(names[i as int] == wanted@);
                    }
                }
                return Some(i);
            }
            i = i + 1;
        }
        None
    }

    /// The first object of this scope whose name is the text of `name`.
    pub fn get_object(&self, name: &RDLTypes) -> (r: Option<&O>)
        ensures
            match first_named(self.object_names(), rdl_text(name@)) {
                Some(i) => r == Some(&self.objects()[i]),
                None => r is None,
            },
    {
        match self.find_object(name) {
            Some(i) => Some(&self.objects[i].1),
            None => None,
        }
    }

    /// Whether this scope has an object whose name is the text of `name`.
    pub fn has_object(&self, name: &RDLTypes) -> (r: bool)
        ensures
            r == self.object_names().contains(rdl_text(name@)),
    {
        let r = self.find_object(name).is_some();
        proof {
            let names = self.object_names();
            if names.contains(rdl_text(name@)) {
                let k = choose|k: int| 0 <= k < names.len() && names[k] == rdl_text(name@);
                assert(0 <= k < names.len() && names[k] == rdl_text(name@));
            }
        }
        r
    }

    /// The objects of this scope, in order.
    pub fn get_objects(&self) -> (r: Vec<&O>)
        ensures
            r@.len() == self.objects().len(),
            forall|i: int| 0 <= i < r@.len() ==> *r@[i] == self.objects()[i],
    {
        let mut out: Vec<&O> = Vec::new();
        let n = self.objects.len();
        let mut i: usize = 0;
        while i < n
            invariant
                i <= n,
                n == self.objects@.len(),
                out@.len() == i,
                forall|j: int| 0 <= j < i ==> *out@[j] == self.objects@[j].1,
            decreases n - i,
        {
            out.push(&self.objects[i].1);
            i = i + 1;
        }
        out
    }

    /// The position of `name` among the entries of this scope.
    fn local_index(&self, name: &RDLTypes) -> (r: Option<usize>)
        requires
            names_unique(self.variables@),
        ensures
            r matches Some(i) ==> i < self.variables@.len() && self.variables@[i as int].0@ == name@,
            r is None ==> forall|i: int| 0 <= i < self.variables@.len() ==> self.variables@[i].0@ != name@,
    {
        let n = self.variables.len();
        let mut i: usize = 0;
        while i < n
            invariant
                i <= n,
                n == self.variables@.len(),
                forall|j: int| 0 <= j < i ==> self.variables@[j].0@ != name@,
            decreases n - i,
        {
            if self.variables[i].0.equals(name) {
                return Some(i);
            }
            i = i + 1;
        }
        None
    }

    /// Sets `name` to `value` in this scope.
    pub fn set_variable(&mut self, name: &RDLTypes, value: RDLTypes)
        requires
            old(self).wf(),
        ensures
            final(self).wf(),
            final(self).vars() == old(self).vars().insert(name@, value@),
            final(self).scopes() == old(self).scopes().update(0, old(self).vars().insert(name@, value@)),
            final(self).outer() == old(self).outer(),
            final(self).objects() == old(self).objects(),
    {
        proof {
            lemma_scope_map_keys(self.variables@);
        }
        let ghost before = self.variables@;
        match self.local_index(name) {
            Some(i) => {
                let key = name.duplicate();
                self.variables.set(i, (key, value));
                proof {
                    lemma_scope_map_set(before, i as int, (key, value));
                }
            },
            None => {
                let key = name.duplicate();
                self.variables.push((key, value));
                proof {
                    assert(self.variables@.drop_last() =~= before);
                    assert forall|a: int, b: int| 0 <= a < b < self.variables@.len()
                        implies self.variables@[a].0@ != self.variables@[b].0@ by {
                        if b == before.len() {
                            assert(before[a].0@ != name@);
                        }
                    }
                }
            },
        }
        proof {
            assert(self.vars() =~= old(self).vars().insert(name@, value@));
            match &self.parent {
                Some(p) => {
                    assert(self.scopes() =~= old(self).scopes().update(0, self.vars()));
                },
                None => {
                    assert(self.scopes() =~= old(self).scopes().update(0, self.vars()));
                },
            }
        }
    }

    /// The value of `name` in the innermost scope that has it.
    pub fn get_variable(&self, name: &RDLTypes) -> (r: Option<RDLTypes>)
        requires
            self.wf(),
        ensures
            match lookup(self.scopes(), name@) {
                Some(v) => r matches Some(x) && x@ == v,
                None => r is None,
            },
        decreases self,
    {
        proof {
            lemma_scope_map_keys(self.variables@);
        }
        match self.local_index(name) {
            Some(i) => {
                proof {
                    lemma_scope_map_at(self.variables@, i as int);
                    assert(self.scopes()[0] == self.vars());
                    assert(self.scopes().len() > 0);
                    assert(lookup(self.scopes(), name@) == Some(self.vars()[name@]));
                }
                let v = self.variables[i].1.duplicate();
                assert(v@ == self.vars()[name@]);
                Some(v)
            },
            None => {
                proof {
                    assert(!self.vars().dom().contains(name@));
                    assert(self.scopes()[0] == self.vars());
                }
                match &self.parent {
                    Some(p) => {
                        proof {
                            assert(self.scopes().drop_first() =~= p.scopes());
                            assert(lookup(self.scopes(), name@) == lookup(p.scopes(), name@));
                        }
                        p.get_variable(name)
                    },
                    None => {
                        proof {
                            assert(self.scopes().drop_first() =~= Seq::<Map<RdlV, RdlV>>::empty());
                            assert(lookup(self.scopes(), name@) == lookup(Seq::<Map<RdlV, RdlV>>::empty(), name@));
                        }
                        None
                    },
                }
            },
        }
    }

    /// Whether this scope itself has `name`.
    pub fn has_variable_local(&self, name: &RDLTypes) -> (r: bool)
        requires
            self.wf(),
        ensures
            r == self.vars().dom().contains(name@),
    {
        proof {
            lemma_scope_map_keys(self.variables@);
        }
        match self.local_index(name) {
            Some(i) => {
                proof {
                    lemma_scope_map_at(self.variables@, i as int);
                }
                true
            },
            None => false,
        }
    }

    /// Whether this scope or one it is nested in has `name`.
    pub fn has_variable(&self, name: &RDLTypes) -> (r: bool)
        requires
            self.wf(),
        ensures
            r == (lookup(self.scopes(), name@) is Some),
        decreases self,
    {
        if self.has_variable_local(name) {
            assert(self.scopes()[0] == self.vars());
            true
        } else {
            assert(self.scopes()[0] == self.vars());
            match &self.parent {
                Some(p) => {
                    assert(self.scopes().drop_first() =~= p.scopes());
                    p.has_variable(name)
                },
                None => {
                    assert(self.scopes().drop_first() =~= Seq::<Map<RdlV, RdlV>>::empty());
                    false
                },
            }
        }
    }

    /// A copy of the entries of this scope.
    pub(crate) fn snapshot(&self) -> (r: Vec<(RDLTypes, RDLTypes)>)
        requires
            self.wf(),
        ensures
            scope_map(r@) == self.vars(),
            names_unique(r@),
    {
        let mut out: Vec<(RDLTypes, RDLTypes)> = Vec::new();
        let n = self.variables.len();
        let mut i: usize = 0;
        while i < n
            invariant
                i <= n,
                n == self.variables@.len(),
                names_unique(self.variables@),
                out@.len() == i,
                forall|j: int| 0 <= j < i ==> (#[trigger] out@[j]).0@ == self.variables@[j].0@ && out@[j].1@ == self.variables@[j].1@,
            decreases n - i,
        {
            let k = self.variables[i].0.duplicate();
            let v = self.variables[i].1.duplicate();
            out.push((k, v));
            i = i + 1;
        }
        proof {
            lemma_scope_map_same(out@, self.variables@);
        }
        out
    }

    /// Puts back the entries of this scope from a copy.
    pub(crate) fn restore(&mut self, saved: Vec<(RDLTypes, RDLTypes)>)
        requires
            old(self).wf(),
            names_unique(saved@),
        ensures
            final(self).wf(),
            final(self).vars() == scope_map(saved@),
            final(self).scopes() == old(self).scopes().update(0, scope_map(saved@)),
            final(self).outer() == old(self).outer(),
            final(self).objects() == old(self).objects(),
    {
        self.variables = saved;
        proof {
            match &self.parent {
                Some(p) => {
                    assert(self.scopes() =~= old(self).scopes().update(0, self.vars()));
                },
                None => {
                    assert(self.scopes() =~= old(self).scopes().update(0, self.vars()));
                },
            }
        }
    }

    /// The entries of this scope: each variable with its value.
    pub fn get_local_variables(&self) -> (r: &Vec<(RDLTypes, RDLTypes)>)
        ensures
            scope_map(r@) == self.vars(),
            names_unique(r@) || !self.wf(),
    {
        &self.variables
    }
}

/// A name set in the innermost scope reads back with its new value, and
/// every other name reads as before.
pub proof fn lemma_lookup_after_set(scopes: Seq<Map<RdlV, RdlV>>, name: RdlV, v: RdlV, other: RdlV)
    requires
        scopes.len() > 0,
    ensures
        lookup(scopes.update(0, scopes[0].insert(name, v)), name) == Some(v),
        other != name ==> lookup(scopes.update(0, scopes[0].insert(name, v)), other) == lookup(scopes, other),
{
    let s2 = scopes.update(0, scopes[0].insert(name, v));
    assert(s2.drop_first() =~= scopes.drop_first());
}

/// A name of the innermost scope hides the same name in the outer ones;
/// a name it lacks is read from them.
pub proof fn lemma_lookup_nested(inner: Map<RdlV, RdlV>, outer: Seq<Map<RdlV, RdlV>>, name: RdlV)
    ensures
        lookup(seq![inner] + outer, name) == if inner.dom().contains(name) {
            Some(inner[name])
        } else {
            lookup(outer, name)
        },
{
    assert((seq![inner] + outer).drop_first() =~= outer);
}

/// The keys of a scope's map are the names of its entries.
proof fn lemma_scope_map_keys(entries: Seq<(RDLTypes, RDLTypes)>)
    ensures
        forall|k: RdlV| #[trigger] scope_map(entries).dom().contains(k)
            <==> exists|i: int| 0 <= i < entries.len() && entries[i].0@ == k,
    decreases entries.len(),
{
    if entries.len() > 0 {
        let init = entries.drop_last();
        lemma_scope_map_keys(init);
        assert forall|k: RdlV| #[trigger] scope_map(entries).dom().contains(k)
            <==> exists|i: int| 0 <= i < entries.len() && entries[i].0@ == k by {
            if k == entries.last().0@ {
                assert(entries[entries.len() - 1].0@ == k);
            } else {
                assert(scope_map(entries).dom().contains(k) == scope_map(init).dom().contains(k));
                if scope_map(init).dom().contains(k) {
                    let i = choose|i: int| 0 <= i < init.len() && init[i].0@ == k;
                    assert(entries[i] == init[i]);
                }
                if exists|i: int| 0 <= i < entries.len() && entries[i].0@ == k {
                    let i = choose|i: int| 0 <= i < entries.len() && entries[i].0@ == k;
                    assert(i < init.len());
                    assert(init[i] == entries[i]);
                    assert(scope_map(init).dom().contains(k));
                }
            }
        }
    }
}

/// Entries with the same views make the same map, and the same names.
proof fn lemma_scope_map_same(a: Seq<(RDLTypes, RDLTypes)>, b: Seq<(RDLTypes, RDLTypes)>)
    requires
        a.len() == b.len(),
        forall|j: int| 0 <= j < a.len() ==> (#[trigger] a[j]).0@ == b[j].0@ && a[j].1@ == b[j].1@,
        names_unique(b),
    ensures
        scope_map(a) == scope_map(b),
        names_unique(a),
    decreases a.len(),
{
    assert forall|i: int, j: int| 0 <= i < j < a.len() implies a[i].0@ != a[j].0@ by {
        assert(a[i].0@ == b[i].0@);
        assert(a[j].0@ == b[j].0@);
    }
    if a.len() > 0 {
        assert forall|j: int| 0 <= j < a.len() - 1 implies (#[trigger] a.drop_last()[j]).0@ == b.drop_last()[j].0@
            && a.drop_last()[j].1@ == b.drop_last()[j].1@ by {
            assert(a.drop_last()[j] == a[j]);
            assert(b.drop_last()[j] == b[j]);
        }
        lemma_scope_map_same(a.drop_last(), b.drop_last());
        assert(a.last().0@ == b.last().0@);
        assert(a.last().1@ == b.last().1@);
    }
}

/// With unique names, an entry's value is its name's value in the map.
proof fn lemma_scope_map_at(entries: Seq<(RDLTypes, RDLTypes)>, i: int)
    requires
        names_unique(entries),
        0 <= i < entries.len(),
    ensures
        scope_map(entries).dom().contains(entries[i].0@),
        scope_map(entries)[entries[i].0@] == entries[i].1@,
    decreases entries.len(),
{
    let init = entries.drop_last();
    if i < entries.len() - 1 {
        assert(init[i] == entries[i]);
        lemma_scope_map_at(init, i);
        assert(entries[i].0@ != entries.last().0@);
    }
}

/// Replacing the value of an entry, its name kept, updates the map there.
proof fn lemma_scope_map_set(entries: Seq<(RDLTypes, RDLTypes)>, i: int, e: (RDLTypes, RDLTypes))
    requires
        names_unique(entries),
        0 <= i < entries.len(),
        e.0@ == entries[i].0@,
    ensures
        names_unique(entries.update(i, e)),
        scope_map(entries.update(i, e)) == scope_map(entries).insert(e.0@, e.1@),
    decreases entries.len(),
{
    let u = entries.update(i, e);
    assert forall|a: int, b: int| 0 <= a < b < u.len() implies u[a].0@ != u[b].0@ by {
        assert(entries[a].0@ != entries[b].0@);
    }
    let init = entries.drop_last();
    if i == entries.len() - 1 {
        assert(u.drop_last() =~= init);
        assert(scope_map(u) =~= scope_map(entries).insert(e.0@, e.1@));
    } else {
        assert(u.drop_last() =~= init.update(i, e));
        assert(init[i] == entries[i]);
        lemma_scope_map_set(init, i, e);
        assert(e.0@ != entries.last().0@);
        assert(scope_map(u) =~= scope_map(entries).insert(e.0@, e.1@));
    }
}

} // verus!
