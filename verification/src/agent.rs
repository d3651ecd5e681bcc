//! Tool definitions that agents can call.
use vstd::prelude::*;
use crate::text::str_eq;

verus! {

/// A parameter accepted by a tool.
#[derive(Debug, Clone)]
pub struct ToolParameter {
    pub param_type: String,
    pub description: String,
    pub required: bool,
}

/// Describes a tool that an agent can call during execution. Parameter
/// names are distinct.
#[derive(Debug, Clone)]
pub struct ToolDefinition {
    pub name: String,
    pub description: String,
    pub parameters: Vec<(String, ToolParameter)>,
}

/// Abstract value of a parameter: type, description, whether required.
pub open spec fn param_view(p: ToolParameter) -> (Seq<char>, Seq<char>, bool) {
    (p.param_type@, p.description@, p.required)
}

/// Parameters by name (a later entry of a name wins).
pub open spec fn params_map(ps: Seq<(String, ToolParameter)>) -> Map<Seq<char>, (Seq<char>, Seq<char>, bool)>
    decreases ps.len(),
{
    if ps.len() == 0 {
        Map::empty()
    } else {
        params_map(ps.drop_last()).insert(ps.last().0@, param_view(ps.last().1))
    }
}

/// No two parameters share a name.
pub open spec fn distinct_param_names(ps: Seq<(String, ToolParameter)>) -> bool {
    forall|i: int, j: int|
        0 <= i < ps.len() && 0 <= j < ps.len() && i != j ==> (#[trigger] ps[i]).0@ != (
        #[trigger] ps[j]).0@
}

proof fn lemma_params_map(ps: Seq<(String, ToolParameter)>)
    requires
        distinct_param_names(ps),
    ensures
        forall|k: Seq<char>|
            #[trigger] params_map(ps).contains_key(k) <==> exists|i: int|
                0 <= i < ps.len() && (#[trigger] ps[i]).0@ == k,
        forall|i: int| 0 <= i < ps.len() ==> #[trigger] params_map(ps)[ps[i].0@] == param_view(ps[i].1),
        params_map(ps).dom().finite(),
        params_map(ps).dom().len() == ps.len(),
    decreases ps.len(),
{
    if ps.len() > 0 {
        let init = ps.drop_last();
        assert(distinct_param_names(init)) by {
            assert forall|i: int, j: int|
                0 <= i < init.len() && 0 <= j < init.len() && i != j implies (#[trigger] init[i]).0@
                != (#[trigger] init[j]).0@ by {
                assert(init[i] == ps[i] && init[j] == ps[j]);
            }
        }
        lemma_params_map(init);
        let last = ps.last();
        assert(!params_map(init).contains_key(last.0@)) by {
            if params_map(init).contains_key(last.0@) {
                let i = choose|i: int| 0 <= i < init.len() && (#[trigger] init[i]).0@ == last.0@;
                assert(ps[i] == init[i]);
                assert(ps[ps.len() - 1] == last);
            }
        }
        assert forall|k: Seq<char>|
            #[trigger] params_map(ps).contains_key(k) <==> exists|i: int|
                0 <= i < ps.len() && (#[trigger] ps[i]).0@ == k by {
            if params_map(ps).contains_key(k) {
                if k == last.0@ {
                    assert(ps[ps.len() - 1].0@ == k);
                } else {
                    let i = choose|i: int| 0 <= i < init.len() && (#[trigger] init[i]).0@ == k;
                    assert(ps[i] == init[i]);
                }
            }
            if exists|i: int| 0 <= i < ps.len() && (#[trigger] ps[i]).0@ == k {
                let i = choose|i: int| 0 <= i < ps.len() && (#[trigger] ps[i]).0@ == k;
                if i < ps.len() - 1 {
                    assert(init[i] == ps[i]);
                }
            }
        }
        assert forall|i: int| 0 <= i < ps.len() implies #[trigger] params_map(ps)[ps[i].0@]
            == param_view(ps[i].1) by {
            if i < ps.len() - 1 {
                assert(init[i] == ps[i]);
                assert(ps[i].0@ != last.0@);
            }
        }
    }
}

impl ToolDefinition {
    /// A tool with no parameters.
    pub fn new(name: &str, description: &str) -> (r: Self)
        ensures
            r.name@ == name@,
            r.description@ == description@,
            r.parameters@.len() == 0,
            r.wf(),
    {
        ToolDefinition {
            name: name.to_owned(),
            description: description.to_owned(),
            parameters: Vec::new(),
        }
    }

    /// Parameter names are distinct.
    pub open spec fn wf(&self) -> bool {
        distinct_param_names(self.parameters@)
    }

    /// Parameters by name.
    pub open spec fn params(&self) -> Map<Seq<char>, (Seq<char>, Seq<char>, bool)> {
        params_map(self.parameters@)
    }

    /// Adds a parameter, replacing one of the same name.
    pub fn with_param(self, name: &str, param_type: &str, description: &str, required: bool) -> (r: Self)
        requires
            self.wf(),
        ensures
            r.wf(),
            r.name == self.name,
            r.description == self.description,
            r.params() == self.params().insert(name@, (param_type@, description@, required)),
    {
        let mut t = self;
        let ghost old_ps = t.parameters@;
        proof {
            lemma_params_map(old_ps);
        }
        let p = ToolParameter {
            param_type: param_type.to_owned(),
            description: description.to_owned(),
            required,
        };
        let ghost pv = param_view(p);
        let mut i: usize = 0;
        while i < t.parameters.len()
            invariant
                t.parameters@ == old_ps,
                t.name == self.name,
                t.description == self.description,
                pv == param_view(p),
                pv == (param_type@, description@, required),
                old_ps == self.parameters@,
                distinct_param_names(old_ps),
                i <= old_ps.len(),
                forall|k: int| 0 <= k < i ==> old_ps[k].0@ != name@,
            decreases old_ps.len() - i,
        {
            if str_eq(t.parameters[i].0.as_str(), name) {
                t.parameters.set(i, (name.to_owned(), p));
                let ghost new_ps = t.parameters@;
                assert(distinct_param_names(new_ps)) by {
                    assert forall|a: int, b: int|
                        0 <= a < new_ps.len() && 0 <= b < new_ps.len() && a != b implies (
                        #[trigger] new_ps[a]).0@ != (#[trigger] new_ps[b]).0@ by {
                        assert(old_ps[a].0@ != old_ps[b].0@);
                    }
                }
                proof {
                    lemma_params_map(new_ps);
                    lemma_params_map(old_ps);
                    assert(params_map(new_ps) =~= params_map(old_ps).insert(name@, pv)) by {
                        assert forall|k: Seq<char>| #[trigger]
                            params_map(new_ps).contains_key(k) <==> params_map(old_ps).insert(
                                name@,
                                pv,
                            ).contains_key(k) by {
                            if params_map(new_ps).contains_key(k) {
                                let j = choose|j: int| 0 <= j < new_ps.len() && (#[trigger] new_ps[j]).0@ == k;
                                if j != i {
                                    assert(old_ps[j] == new_ps[j]);
                                }
                            }
                            if params_map(old_ps).contains_key(k) {
                                let j = choose|j: int| 0 <= j < old_ps.len() && (#[trigger] old_ps[j]).0@ == k;
                                if j != i {
                                    assert(old_ps[j] == new_ps[j]);
                                } else {
                                    assert(new_ps[i as int].0@ == k);
                                }
                            }
                            if k == name@ {
                                assert(new_ps[i as int].0@ == k);
                            }
                        }
                        assert forall|k: Seq<char>|
                            #[trigger] params_map(new_ps).contains_key(k) implies params_map(new_ps)[k]
                            == params_map(old_ps).insert(name@, pv)[k] by {
                            let j = choose|j: int| 0 <= j < new_ps.len() && (#[trigger] new_ps[j]).0@ == k;
                            if j != i {
                                assert(old_ps[j] == new_ps[j]);
                            }
                        }
                    }
                }
                return t;
            }
            i += 1;
        }
        t.parameters.push((name.to_owned(), p));
        assert(t.parameters@.drop_last() =~= old_ps);
        assert(distinct_param_names(t.parameters@)) by {
            let ps = t.parameters@;
            assert forall|a: int, b: int|
                0 <= a < ps.len() && 0 <= b < ps.len() && a != b implies (#[trigger] ps[a]).0@
                != (#[trigger] ps[b]).0@ by {
                if a < old_ps.len() {
                    assert(ps[a] == old_ps[a]);
                }
                if b < old_ps.len() {
                    assert(ps[b] == old_ps[b]);
                }
            }
        }
        t
    }

    /// The parameter of the given name.
    pub fn parameter(&self, name: &str) -> (r: Option<&ToolParameter>)
        requires
            self.wf(),
        ensures
            match r {
                Some(p) => self.params().contains_key(name@) && self.params()[name@] == param_view(*p),
                None => !self.params().contains_key(name@),
            },
    {
        proof {
            lemma_params_map(self.parameters@);
        }
        let mut i: usize = 0;
        while i < self.parameters.len()
            invariant
                self.wf(),
                i <= self.parameters@.len(),
                forall|k: int| 0 <= k < i ==> self.parameters@[k].0@ != name@,
            decreases self.parameters.len() - i,
        {
            if str_eq(self.parameters[i].0.as_str(), name) {
                proof {
                    lemma_params_map(self.parameters@);
                }
                return Some(&self.parameters[i].1);
            }
            i += 1;
        }
        None
    }

    /// Number of parameters.
    pub fn parameter_count(&self) -> (r: usize)
        requires
            self.wf(),
        ensures
            r == self.params().dom().len(),
    {
        proof {
            lemma_params_map(self.parameters@);
        }
        self.parameters.len()
    }

    /// Names of all required parameters, each once.
    pub fn required_params(&self) -> (r: Vec<&str>)
        requires
            self.wf(),
        ensures
            r@.len() == self.params().dom().filter(|k: Seq<char>| self.params()[k].2).len(),
            forall|k: Seq<char>|
                (self.params().contains_key(k) && self.params()[k].2) <==> exists|i: int|
                    0 <= i < r@.len() && (#[trigger] r@[i])@ == k,
    {
        proof {
            lemma_params_map(self.parameters@);
        }
        let ghost ps = self.parameters@;
        let ghost req = |k: Seq<char>| self.params()[k].2;
        let mut r: Vec<&str> = Vec::new();
        let ghost mut idx: Seq<int> = seq![];
        let mut i: usize = 0;
        while i < self.parameters.len()
            invariant
                ps == self.parameters@,
                self.wf(),
                i <= ps.len(),
                r@.len() == idx.len(),
                forall|q: int| 0 <= q < idx.len() ==> 0 <= #[trigger] idx[q] < i,
                forall|q: int| 0 <= q < idx.len() ==> ps[idx[q]].1.required,
                forall|q: int| 0 <= q < idx.len() ==> (#[trigger] r@[q])@ == ps[idx[q]].0@,
                forall|a: int, b: int| 0 <= a < b < idx.len() ==> idx[a] < idx[b],
                forall|k: int| 0 <= k < i && ps[k].1.required ==> exists|q: int|
                    0 <= q < idx.len() && #[trigger] idx[q] == k,
            decreases ps.len() - i,
        {
            let ghost old_idx = idx;
            if self.parameters[i].1.required {
                r.push(self.parameters[i].0.as_str());
                proof {
                    idx = idx.push(i as int);
                    assert(idx[idx.len() - 1] == i);
                }
            }
            assert forall|k: int| 0 <= k < i + 1 && ps[k].1.required implies exists|q: int|
                0 <= q < idx.len() && #[trigger] idx[q] == k by {
                if k < i {
                    let q = choose|q: int| 0 <= q < old_idx.len() && #[trigger] old_idx[q] == k;
                    assert(idx[q] == old_idx[q]);
                } else {
                    assert(idx[idx.len() - 1] == i);
                }
            }
            i += 1;
        }
        proof {
            lemma_params_map(ps);
            let dom = self.params().dom();
            let fd = dom.filter(req);
            let names = idx.map_values(|k: int| ps[k].0@);
            assert forall|k: Seq<char>|
                (self.params().contains_key(k) && self.params()[k].2) <==> exists|q: int|
                    0 <= q < r@.len() && (#[trigger] r@[q])@ == k by {
                if self.params().contains_key(k) && self.params()[k].2 {
                    let j = choose|j: int| 0 <= j < ps.len() && (#[trigger] ps[j]).0@ == k;
                    assert(self.params()[ps[j].0@] == param_view(ps[j].1));
                    let q = choose|q: int| 0 <= q < idx.len() && #[trigger] idx[q] == j;
                    assert(r@[q]@ == k);
                }
                if exists|q: int| 0 <= q < r@.len() && (#[trigger] r@[q])@ == k {
                    let q = choose|q: int| 0 <= q < r@.len() && (#[trigger] r@[q])@ == k;
                    assert(ps[idx[q]].0@ == k);
                    assert(self.params()[ps[idx[q]].0@] == param_view(ps[idx[q]].1));
                }
            }
            assert(names.no_duplicates()) by {
                assert forall|a: int, b: int| 0 <= a < names.len() && 0 <= b < names.len() && a != b
                    implies names[a] != names[b] by {
                    if a < b {
                        assert(idx[a] < idx[b]);
                    } else {
                        assert(idx[b] < idx[a]);
                    }
                }
            }
            assert(names.to_set() =~= fd) by {
                assert forall|k: Seq<char>| names.to_set().contains(k) <==> fd.contains(k) by {
                    if names.to_set().contains(k) {
                        let q = choose|q: int| 0 <= q < names.len() && names[q] == k;
                        assert(r@[q]@ == k);
                    }
                    if fd.contains(k) {
                        let q = choose|q: int| 0 <= q < r@.len() && (#[trigger] r@[q])@ == k;
                        assert(names[q] == k);
                    }
                }
            }
            names.unique_seq_to_set();
        }
        r
    }
}

/// The names of registered tools, in order of registration.
pub open spec fn tool_names_of<H>(entries: Seq<(ToolDefinition, H)>) -> Seq<Seq<char>> {
    entries.map_values(|e: (ToolDefinition, H)| e.0.name@)
}

/// The position of the tool named `name`.
pub open spec fn tool_position<H>(entries: Seq<(ToolDefinition, H)>, name: Seq<char>) -> Option<int>
    decreases entries.len(),
{
    if entries.len() == 0 {
        None
    } else if entries.last().0.name@ == name {
        Some(entries.len() - 1)
    } else {
        tool_position(entries.drop_last(), name)
    }
}

proof fn lemma_tool_position<H>(entries: Seq<(ToolDefinition, H)>, name: Seq<char>)
    ensures
        match tool_position(entries, name) {
            Some(k) => 0 <= k < entries.len() && entries[k].0.name@ == name,
            None => !tool_names_of(entries).contains(name),
        },
    decreases entries.len(),
{
    if entries.len() > 0 {
        let init = entries.drop_last();
        lemma_tool_position(init, name);
        if entries.last().0.name@ != name && tool_position(init, name) is None {
            assert(!tool_names_of(entries).contains(name)) by {
                if tool_names_of(entries).contains(name) {
                    let j = choose|j: int| 0 <= j < tool_names_of(entries).len() && tool_names_of(entries)[j] == name;
                    if j < init.len() {
                        assert(tool_names_of(init)[j] == name);
                    }
                }
            }
        }
    }
}

/// Tool definitions with their handlers, at most one per name.
///
/// The handlers are whatever the caller runs a tool with; this registry
/// only keeps them by name.
pub struct ToolRegistry<H> {
    tools: Vec<(ToolDefinition, H)>,
}

impl<H> ToolRegistry<H> {
    /// The registered tools, in order of registration.
    pub closed spec fn entries(&self) -> Seq<(ToolDefinition, H)> {
        self.tools@
    }

    /// Tool names are distinct.
    pub closed spec fn wf(&self) -> bool {
        tool_names_of(self.tools@).no_duplicates()
    }

    /// An empty registry.
    pub fn new() -> (r: Self)
        ensures
            r.wf(),
            r.entries().len() == 0,
    {
        ToolRegistry { tools: Vec::new() }
    }

    fn position(&self, name: &str) -> (r: Option<usize>)
        ensures
            match r {
                Some(k) => tool_position(self.entries(), name@) == Some(k as int),
                None => tool_position(self.entries(), name@) is None,
            },
    {
        let mut k = self.tools.len();
        let ghost es = self.tools@;
        assert(es.take(k as int) =~= es);
        while k > 0
            invariant
                k <= es.len(),
                es == self.tools@,
                tool_position(es, name@) == tool_position(es.take(k as int), name@),
            decreases k,
        {
            assert(es.take(k as int).drop_last() =~= es.take(k - 1));
            if crate::text::str_eq(self.tools[k - 1].0.name.as_str(), name) {
                return Some(k - 1);
            }
            k -= 1;
        }
        assert(es.take(0) =~= Seq::<(ToolDefinition, H)>::empty());
        None
    }

    /// Registers a tool; one of the same name is replaced in place.
    pub fn register(&mut self, definition: ToolDefinition, handler: H)
        requires
            old(self).wf(),
        ensures
            final(self).wf(),
            match tool_position(old(self).entries(), definition.name@) {
                Some(k) => final(self).entries() == old(self).entries().update(k, (definition, handler)),
                None => final(self).entries() == old(self).entries().push((definition, handler)),
            },
    {
        let ghost es = self.tools@;
        let ghost name = definition.name@;
        proof {
            lemma_tool_position(es, name);
        }
        match self.position(definition.name.as_str()) {
            Some(k) => {
                self.tools.set(k, (definition, handler));
                proof {
                    assert(tool_names_of(self.tools@) =~= tool_names_of(es));
                }
            },
            None => {
                self.tools.push((definition, handler));
                proof {
                    assert(tool_names_of(self.tools@) =~= tool_names_of(es).push(name));
                }
            },
        }
    }

    /// Whether a tool of that name is registered.
    pub fn has_tool(&self, name: &str) -> (r: bool)
        ensures
            r == tool_position(self.entries(), name@) is Some,
    {
        self.position(name).is_some()
    }

    /// The definition of the tool named `name`.
    pub fn get_definition(&self, name: &str) -> (r: Option<&ToolDefinition>)
        ensures
            match tool_position(self.entries(), name@) {
                Some(k) => r == Some(&self.entries()[k].0),
                None => r is None,
            },
    {
        proof {
            lemma_tool_position(self.tools@, name@);
        }
        match self.position(name) {
            Some(k) => Some(&self.tools[k].0),
            None => None,
        }
    }

    /// The handler of the tool named `name`.
    pub fn get_handler(&self, name: &str) -> (r: Option<&H>)
        ensures
            match tool_position(self.entries(), name@) {
                Some(k) => r == Some(&self.entries()[k].1),
                None => r is None,
            },
    {
        proof {
            lemma_tool_position(self.tools@, name@);
        }
        match self.position(name) {
            Some(k) => Some(&self.tools[k].1),
            None => None,
        }
    }

    /// The number of registered tools.
    pub fn len(&self) -> (r: usize)
        ensures
            r == self.entries().len(),
    {
        self.tools.len()
    }

    /// Whether no tool is registered.
    pub fn is_empty(&self) -> (r: bool)
        ensures
            r == (self.entries().len() == 0),
    {
        self.tools.len() == 0
    }

    /// The names of the registered tools, in order of registration.
    pub fn tool_names(&self) -> (r: Vec<&str>)
        ensures
            r@.len() == self.entries().len(),
            forall|i: int| 0 <= i < r@.len() ==> (#[trigger] r@[i])@ == self.entries()[i].0.name@,
    {
        let mut out: Vec<&str> = Vec::new();
        let n = self.tools.len();
        for i in 0..n
            invariant
                n == self.tools@.len(),
                out@.len() == i,
                forall|k: int| 0 <= k < i ==> (#[trigger] out@[k])@ == self.tools@[k].0.name@,
        {
            out.push(self.tools[i].0.name.as_str());
        }
        out
    }

    /// The definitions of the registered tools, in order of registration.
    pub fn definitions(&self) -> (r: Vec<&ToolDefinition>)
        ensures
            r@.len() == self.entries().len(),
            forall|i: int| 0 <= i < r@.len() ==> *(#[trigger] r@[i]) == self.entries()[i].0,
    {
        let mut out: Vec<&ToolDefinition> = Vec::new();
        let n = self.tools.len();
        for i in 0..n
            invariant
                n == self.tools@.len(),
                out@.len() == i,
                forall|k: int| 0 <= k < i ==> *(#[trigger] out@[k]) == self.tools@[k].0,
        {
            out.push(&self.tools[i].0);
        }
        out
    }

    /// Removes the tool named `name`; whether there was one.
    pub fn remove(&mut self, name: &str) -> (r: bool)
        requires
            old(self).wf(),
        ensures
            final(self).wf(),
            r == tool_position(old(self).entries(), name@) is Some,
            match tool_position(old(self).entries(), name@) {
                Some(k) => final(self).entries() == old(self).entries().remove(k),
                None => final(self).entries() == old(self).entries(),
            },
    {
        let ghost es = self.tools@;
        proof {
            lemma_tool_position(es, name@);
        }
        match self.position(name) {
            Some(k) => {
                self.tools.remove(k);
                proof {
                    let r = self.tools@;
                    assert forall|a: int, b: int|
                        0 <= a < tool_names_of(r).len() && 0 <= b < tool_names_of(r).len() && a != b
                        implies tool_names_of(r)[a] != tool_names_of(r)[b] by {
                        let a2 = if a < k { a } else { a + 1 };
                        let b2 = if b < k { b } else { b + 1 };
                        assert(tool_names_of(r)[a] == tool_names_of(es)[a2]);
                        assert(tool_names_of(r)[b] == tool_names_of(es)[b2]);
                    }
                }
                true
            },
            None => false,
        }
    }
}

/// Registering replaces: after registering a tool, its name is held once,
/// by the new definition, and every other name keeps its definition.
pub proof fn law_register_replaces<H>(before: Seq<(ToolDefinition, H)>, after: Seq<(ToolDefinition, H)>, d: ToolDefinition, h: H, other: Seq<char>)
    requires
        tool_names_of(before).no_duplicates(),
        tool_names_of(after).no_duplicates(),
        match tool_position(before, d.name@) {
            Some(k) => after == before.update(k, (d, h)),
            None => after == before.push((d, h)),
        },
        other != d.name@,
    ensures
        tool_position(after, d.name@) matches Some(k) && after[k].0 == d,
        tool_position(after, other) matches Some(k) ==> tool_position(before, other) matches Some(j)
            && after[k].0 == before[j].0,
        tool_position(before, other) is Some ==> tool_position(after, other) is Some,
{
    lemma_tool_position(before, d.name@);
    lemma_tool_position(after, d.name@);
    lemma_tool_position(before, other);
    lemma_tool_position(after, other);
    lemma_unique_position(after, d.name@);
    lemma_unique_position(after, other);
    lemma_unique_position(before, other);
    match tool_position(before, d.name@) {
        Some(k) => {
            assert(after[k].0.name@ == d.name@);
        },
        None => {
            assert(after[before.len() as int].0.name@ == d.name@);
        },
    }
    match tool_position(after, other) {
        Some(k) => {
            assert(after[k].0.name@ == other);
            assert(before[k].0.name@ == other);
            assert(tool_names_of(before)[k] == other);
        },
        None => {},
    }
    match tool_position(before, other) {
        Some(j) => {
            assert(after[j].0.name@ == other);
            assert(tool_names_of(after)[j] == other);
        },
        None => {},
    }
}

proof fn lemma_unique_position<H>(entries: Seq<(ToolDefinition, H)>, name: Seq<char>)
    requires
        tool_names_of(entries).no_duplicates(),
    ensures
        forall|i: int|
            0 <= i < entries.len() && (#[trigger] entries[i]).0.name@ == name ==> tool_position(entries, name) == Some(i),
    decreases entries.len(),
{
    if entries.len() > 0 {
        let init = entries.drop_last();
        assert(tool_names_of(init).no_duplicates()) by {
            assert forall|a: int, b: int| 0 <= a < tool_names_of(init).len() && 0 <= b < tool_names_of(init).len() && a != b
                implies tool_names_of(init)[a] != tool_names_of(init)[b] by {
                assert(tool_names_of(init)[a] == tool_names_of(entries)[a]);
                assert(tool_names_of(init)[b] == tool_names_of(entries)[b]);
            }
        }
        lemma_unique_position(init, name);
        assert forall|i: int| 0 <= i < entries.len() && (#[trigger] entries[i]).0.name@ == name implies tool_position(entries, name) == Some(i) by {
            if i < entries.len() - 1 {
                assert(init[i] == entries[i]);
                assert(tool_names_of(entries)[i] != tool_names_of(entries)[entries.len() - 1]);
            }
        }
    }
}

} // verus!
