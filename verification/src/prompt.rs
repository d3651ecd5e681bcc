//! Prompt templates with `{{variable}}` placeholders, and a library of them.
use vstd::prelude::*;
use crate::error::Error;
use crate::text::{chars_of, push_char, string_from_chars, string_from_range, trim, trim_range, lemma_trim_idempotent};
use vstd::string::StringExecFns;

verus! {

// ---------------------------------------------------------------------------
// Placeholder scanning

/// Index of the first `}` at or after `j` (or the end of `s`).
pub open spec fn find_close(s: Seq<char>, j: int) -> int
    decreases s.len() - j,
{
    if j >= s.len() {
        s.len() as int
    } else if s[j] == '}' {
        j
    } else {
        find_close(s, j + 1)
    }
}

/// Where `find_close` lands.
pub proof fn lemma_find_close_bounds(s: Seq<char>, j: int)
    requires
        0 <= j,
    ensures
        j <= find_close(s, j) || (j > s.len() && find_close(s, j) == s.len()),
        find_close(s, j) <= s.len() || find_close(s, j) == j,
    decreases s.len() - j,
{
    if j < s.len() && s[j] != '}' {
        lemma_find_close_bounds(s, j + 1);
    }
}

/// Where scanning resumes after a placeholder whose name ends at `close`:
/// past the `}` and a second `}` if there is one.
pub open spec fn after_close(s: Seq<char>, close: int) -> int {
    if close >= s.len() {
        s.len() as int
    } else if close + 1 < s.len() && s[close + 1] == '}' {
        close + 2
    } else {
        close + 1
    }
}

/// Trimmed names of the `{{...}}` placeholders of `s` from index `i`, in
/// order, repetitions included, empty names left out.
pub open spec fn placeholder_names(s: Seq<char>, i: int) -> Seq<Seq<char>>
    decreases s.len() - i,
{
    if i < 0 || i >= s.len() {
        seq![]
    } else if s[i] == '{' && i + 1 < s.len() && s[i + 1] == '{' {
        let close = find_close(s, i + 2);
        proof {
            lemma_find_close_bounds(s, i + 2);
        }
        let name = trim(s.subrange(i + 2, close));
        let rest = placeholder_names(s, after_close(s, close));
        if name.len() > 0 {
            seq![name] + rest
        } else {
            rest
        }
    } else {
        placeholder_names(s, i + 1)
    }
}

/// `v` without repetitions, keeping first occurrences in order.
pub open spec fn dedup(v: Seq<Seq<char>>) -> Seq<Seq<char>>
    decreases v.len(),
{
    if v.len() == 0 {
        seq![]
    } else {
        let d = dedup(v.drop_last());
        if d.contains(v.last()) {
            d
        } else {
            d.push(v.last())
        }
    }
}

/// The variables of a template: distinct placeholder names in order of
/// first appearance.
pub open spec fn template_variables(s: Seq<char>) -> Seq<Seq<char>> {
    dedup(placeholder_names(s, 0))
}

/// The character views of a list of strings.
pub open spec fn strings_view(v: Seq<String>) -> Seq<Seq<char>> {
    v.map_values(|x: String| x@)
}

/// Whether `v` holds `x`.
pub fn contains_string(v: &Vec<String>, x: &String) -> (r: bool)
    ensures
        r == strings_view(v@).contains(x@),
{
    let mut i: usize = 0;
    while i < v.len()
        invariant
            i <= v.len(),
            forall|k: int| 0 <= k < i ==> v@[k]@ != x@,
        decreases v.len() - i,
    {
        if v[i] == *x {
            assert(strings_view(v@)[i as int] == x@);
            return true;
        }
        i += 1;
    }
    assert(!strings_view(v@).contains(x@)) by {
        if strings_view(v@).contains(x@) {
            let k = choose|k: int| 0 <= k < strings_view(v@).len() && strings_view(v@)[k] == x@;
            assert(v@[k]@ == x@);
        }
    }
    false
}

proof fn lemma_placeholder_skip(s: Seq<char>, i: int)
    requires
        0 <= i < s.len(),
        !(s[i] == '{' && i + 1 < s.len() && s[i + 1] == '{'),
    ensures
        placeholder_names(s, i) == placeholder_names(s, i + 1),
{
}

pub(crate) proof fn lemma_dedup_push(v: Seq<Seq<char>>, x: Seq<char>)
    ensures
        dedup(v.push(x)) == if dedup(v).contains(x) {
            dedup(v)
        } else {
            dedup(v).push(x)
        },
{
    assert(v.push(x).drop_last() =~= v);
}

/// Distinct placeholder names of `template`, in order of first appearance.
fn extract_variables(template: &str) -> (vars: Vec<String>)
    ensures
        strings_view(vars@) == template_variables(template@),
{
    let cs = chars_of(template);
    let ghost s = cs@;
    let n = cs.len();
    let mut vars: Vec<String> = Vec::new();
    let ghost mut seen: Seq<Seq<char>> = seq![];
    let mut i: usize = 0;
    assert(strings_view(vars@) =~= dedup(seen));
    while i < n
        invariant
            s == cs@,
            n == s.len(),
            i <= n,
            strings_view(vars@) == dedup(seen),
            seen + placeholder_names(s, i as int) == placeholder_names(s, 0),
        decreases n - i,
    {
        if cs[i] == '{' && i + 1 < n && cs[i + 1] == '{' {
            let start = i + 2;
            let mut close = start;
            while close < n && cs[close] != '}'
                invariant
                    start <= close <= n,
                    n == s.len(),
                    s == cs@,
                    find_close(s, start as int) == find_close(s, close as int),
                decreases n - close,
            {
                close += 1;
            }
            let next = if close >= n {
                n
            } else if close + 1 < n && cs[close + 1] == '}' {
                close + 2
            } else {
                close + 1
            };
            let (a, b) = trim_range(&cs, start, close);
            let ghost name = trim(s.subrange(start as int, close as int));
            let ghost old_seen = seen;
            if a < b {
                let v = string_from_range(&cs, a, b);
                proof {
                    seen = seen.push(name);
                    lemma_dedup_push(old_seen, name);
                    assert(seq![name] + placeholder_names(s, next as int) =~= placeholder_names(s, i as int));
                    assert(seen + placeholder_names(s, next as int) =~= old_seen + placeholder_names(s, i as int));
                }
                if !contains_string(&vars, &v) {
                    let ghost before = vars@;
                    vars.push(v);
                    assert(strings_view(vars@) =~= strings_view(before).push(name));
                }
            } else {
                assert(placeholder_names(s, next as int) == placeholder_names(s, i as int));
            }
            i = next;
        } else {
            proof { lemma_placeholder_skip(s, i as int); }
            i += 1;
        }
    }
    assert(seen =~= placeholder_names(s, 0));
    vars
}

// ---------------------------------------------------------------------------
// Replacement

/// `s` with every non-overlapping occurrence of `pat`, leftmost first,
/// replaced by `rep` (what `str::replace` does for a non-empty pattern).
pub open spec fn replace_all(s: Seq<char>, pat: Seq<char>, rep: Seq<char>) -> Seq<char>
    decreases s.len(),
{
    if pat.len() == 0 || s.len() < pat.len() {
        s
    } else if s.take(pat.len() as int) == pat {
        rep + replace_all(s.skip(pat.len() as int), pat, rep)
    } else {
        seq![s[0]] + replace_all(s.drop_first(), pat, rep)
    }
}

/// The placeholder text `{{name}}`.
pub open spec fn placeholder(name: Seq<char>) -> Seq<char> {
    seq!['{', '{'] + name + seq!['}', '}']
}

fn placeholder_chars(name: &String) -> (r: Vec<char>)
    ensures
        r@ == placeholder(name@),
{
    let inner = chars_of(name.as_str());
    let mut r: Vec<char> = Vec::new();
    r.push('{');
    r.push('{');
    let mut i: usize = 0;
    while i < inner.len()
        invariant
            i <= inner.len(),
            r@ == seq!['{', '{'] + inner@.take(i as int),
        decreases inner.len() - i,
    {
        r.push(inner[i]);
        assert(inner@.take(i + 1) =~= inner@.take(i as int).push(inner@[i as int]));
        assert(r@ =~= seq!['{', '{'] + inner@.take(i + 1));
        i += 1;
    }
    r.push('}');
    r.push('}');
    assert(inner@.take(inner@.len() as int) =~= inner@);
    assert(r@ =~= placeholder(name@));
    r
}

/// Whether `pat` occurs in `s` at position `i`.
pub fn matches_at(s: &Vec<char>, i: usize, pat: &Vec<char>) -> (r: bool)
    requires
        i + pat.len() <= s.len(),
    ensures
        r == (s@.subrange(i as int, i + pat.len()) == pat@),
{
    let mut k: usize = 0;
    while k < pat.len()
        invariant
            k <= pat.len(),
            i + pat.len() <= s.len(),
            forall|m: int| 0 <= m < k ==> s@[i + m] == pat@[m],
        decreases pat.len() - k,
    {
        if s[i + k] != pat[k] {
            assert(s@.subrange(i as int, i + pat.len())[k as int] != pat@[k as int]);
            return false;
        }
        k += 1;
    }
    assert(s@.subrange(i as int, i + pat.len()) =~= pat@);
    true
}

fn replace_chars(s: &Vec<char>, pat: &Vec<char>, rep: &Vec<char>) -> (r: Vec<char>)
    requires
        pat.len() > 0,
    ensures
        r@ == replace_all(s@, pat@, rep@),
{
    let n = s.len();
    let m = pat.len();
    let mut out: Vec<char> = Vec::new();
    let mut i: usize = 0;
    assert(s@.subrange(0, n as int) =~= s@);
    while i < n
        invariant
            n == s.len(),
            m == pat.len(),
            m > 0,
            i <= n,
            out@ + replace_all(s@.subrange(i as int, n as int), pat@, rep@) == replace_all(
                s@,
                pat@,
                rep@,
            ),
        decreases n - i,
    {
        let ghost rest = s@.subrange(i as int, n as int);
        if m <= n - i && matches_at(s, i, pat) {
            assert(rest.take(m as int) =~= s@.subrange(i as int, i + m));
            assert(rest.skip(m as int) =~= s@.subrange(i + m, n as int));
            let ghost before = out@;
            let mut k: usize = 0;
            while k < rep.len()
                invariant
                    k <= rep.len(),
                    out@ == before + rep@.take(k as int),
                decreases rep.len() - k,
            {
                out.push(rep[k]);
                assert(rep@.take(k + 1) =~= rep@.take(k as int).push(rep@[k as int]));
                k += 1;
            }
            assert(rep@.take(rep@.len() as int) =~= rep@);
            assert(out@ + replace_all(s@.subrange(i + m, n as int), pat@, rep@) =~= before
                + replace_all(rest, pat@, rep@));
            i = i + m;
        } else {
            assert(rest.drop_first() =~= s@.subrange(i + 1, n as int));
            if m <= n - i {
                assert(rest.take(m as int) =~= s@.subrange(i as int, i + m));
            }
            let ghost before = out@;
            out.push(s[i]);
            assert(out@ + replace_all(s@.subrange(i + 1, n as int), pat@, rep@) =~= before
                + replace_all(rest, pat@, rep@));
            i = i + 1;
        }
    }
    assert(s@.subrange(n as int, n as int) =~= Seq::<char>::empty());
    assert(out@ =~= out@ + Seq::<char>::empty());
    out
}

/// `text` with every `{{name}}` replaced by `value`.
fn replace_placeholder(text: &Vec<char>, name: &String, value: &String) -> (r: Vec<char>)
    ensures
        r@ == replace_all(text@, placeholder(name@), value@),
{
    let pat = placeholder_chars(name);
    let rep = chars_of(value.as_str());
    replace_chars(text, &pat, &rep)
}

// ---------------------------------------------------------------------------
// Templates

/// A prompt template: a text with `{{variable}}` placeholders.
#[derive(Debug, Clone)]
pub struct PromptTemplate {
    pub name: String,
    pub template: String,
    pub variables: Vec<String>,
    pub description: Option<String>,
}

/// The character views of a list of `(name, value)` pairs.
pub open spec fn pairs_view(v: Seq<(String, String)>) -> Seq<(Seq<char>, Seq<char>)> {
    v.map_values(|p: (String, String)| (p.0@, p.1@))
}

/// The value of the first pair named `key`.
pub open spec fn lookup(vars: Seq<(Seq<char>, Seq<char>)>, key: Seq<char>) -> Option<Seq<char>>
    decreases vars.len(),
{
    if vars.len() == 0 {
        None
    } else if vars[0].0 == key {
        Some(vars[0].1)
    } else {
        lookup(vars.drop_first(), key)
    }
}

/// Rendering with the first `n` variables substituted in order; `Err`
/// carries the first variable that has no value.
pub open spec fn render_rec(
    t: Seq<char>,
    names: Seq<Seq<char>>,
    vars: Seq<(Seq<char>, Seq<char>)>,
    n: int,
) -> Result<Seq<char>, Seq<char>>
    decreases n,
{
    if n <= 0 {
        Ok(t)
    } else {
        match render_rec(t, names, vars, n - 1) {
            Err(e) => Err(e),
            Ok(r) => match lookup(vars, names[n - 1]) {
                None => Err(names[n - 1]),
                Some(v) => Ok(replace_all(r, placeholder(names[n - 1]), v)),
            },
        }
    }
}

/// The template with the placeholders of each of the first `n` pairs
/// replaced, in order.
pub open spec fn render_partial_rec(t: Seq<char>, vars: Seq<(Seq<char>, Seq<char>)>, n: int) -> Seq<
    char,
>
    decreases n,
{
    if n <= 0 {
        t
    } else {
        replace_all(render_partial_rec(t, vars, n - 1), placeholder(vars[n - 1].0), vars[n - 1].1)
    }
}

fn lookup_exec(vars: &[(String, String)], key: &String) -> (r: Option<usize>)
    ensures
        match r {
            Some(i) => i < vars@.len() && lookup(pairs_view(vars@), key@) == Some(vars@[i as int].1@),
            None => lookup(pairs_view(vars@), key@) is None,
        },
{
    let mut i: usize = 0;
    assert(pairs_view(vars@).skip(0) =~= pairs_view(vars@));
    while i < vars.len()
        invariant
            i <= vars@.len(),
            lookup(pairs_view(vars@), key@) == lookup(pairs_view(vars@).skip(i as int), key@),
        decreases vars.len() - i,
    {
        assert(pairs_view(vars@).skip(i as int).drop_first() =~= pairs_view(vars@).skip(i + 1));
        if vars[i].0 == *key {
            return Some(i);
        }
        i += 1;
    }
    assert(pairs_view(vars@).skip(i as int) =~= Seq::<(Seq<char>, Seq<char>)>::empty());
    None
}

impl PromptTemplate {
    /// A template named `name`; its variables are read from the text.
    pub fn new(name: &str, template: &str) -> (r: Self)
        ensures
            r.name@ == name@,
            r.template@ == template@,
            strings_view(r.variables@) == template_variables(template@),
            r.description is None,
    {
        let variables = Self::extract_variables(template);
        PromptTemplate {
            name: name.to_owned(),
            template: template.to_owned(),
            variables,
            description: None,
        }
    }

    /// The template with a description.
    pub fn with_description(self, desc: &str) -> (r: Self)
        ensures
            r.name == self.name,
            r.template == self.template,
            r.variables == self.variables,
            r.description matches Some(d) && d@ == desc@,
    {
        let mut t = self;
        t.description = Some(desc.to_owned());
        t
    }

    /// Distinct placeholder names of `template`, in order of first appearance.
    pub fn extract_variables(template: &str) -> (vars: Vec<String>)
        ensures
            strings_view(vars@) == template_variables(template@),
    {
        extract_variables(template)
    }

    /// The template with every variable replaced by its value; fails on the
    /// first variable (in order) that has no value.
    pub fn render(&self, vars: &[(String, String)]) -> (r: Result<String, Error>)
        ensures
            match render_rec(
                self.template@,
                strings_view(self.variables@),
                pairs_view(vars@),
                self.variables@.len() as int,
            ) {
                Ok(t) => r matches Ok(s) && s@ == t,
                Err(missing) => r matches Err(Error::InvalidInput(m)) && m@ == "missing variable: "@
                    + missing,
            },
    {
        let mut result = chars_of(self.template.as_str());
        let ghost names = strings_view(self.variables@);
        let ghost pv = pairs_view(vars@);
        let mut k: usize = 0;
        while k < self.variables.len()
            invariant
                k <= self.variables@.len(),
                names == strings_view(self.variables@),
                pv == pairs_view(vars@),
                render_rec(self.template@, names, pv, k as int) == Ok::<Seq<char>, Seq<char>>(
                    result@,
                ),
            decreases self.variables.len() - k,
        {
            let name = &self.variables[k];
            match lookup_exec(vars, name) {
                None => {
                    let msg = crate::error::concat_str("missing variable: ", name.as_str());
                    proof {
                        lemma_render_rec_err_stays(
                            self.template@,
                            names,
                            pv,
                            k + 1,
                            self.variables@.len() as int,
                        );
                    }
                    return Err(Error::InvalidInput(msg));
                },
                Some(i) => {
                    result = replace_placeholder(&result, name, &vars[i].1);
                },
            }
            k += 1;
        }
        Ok(string_from_chars(&result))
    }

    /// The template with the placeholder of every given pair replaced, in
    /// the order of the pairs; placeholders without a value stay as they are.
    pub fn render_partial(&self, vars: &[(String, String)]) -> (r: String)
        ensures
            r@ == render_partial_rec(self.template@, pairs_view(vars@), vars@.len() as int),
    {
        let mut result = chars_of(self.template.as_str());
        let mut k: usize = 0;
        while k < vars.len()
            invariant
                k <= vars@.len(),
                result@ == render_partial_rec(self.template@, pairs_view(vars@), k as int),
            decreases vars.len() - k,
        {
            result = replace_placeholder(&result, &vars[k].0, &vars[k].1);
            k += 1;
        }
        string_from_chars(&result)
    }

    /// Whether the template has a variable of that name.
    pub fn has_variable(&self, name: &str) -> (r: bool)
        ensures
            r == strings_view(self.variables@).contains(name@),
    {
        let key = name.to_owned();
        contains_string(&self.variables, &key)
    }

    /// The number of distinct variables.
    pub fn variable_count(&self) -> (r: usize)
        ensures
            r == self.variables@.len(),
    {
        self.variables.len()
    }
}

proof fn lemma_render_rec_err_stays(
    t: Seq<char>,
    names: Seq<Seq<char>>,
    vars: Seq<(Seq<char>, Seq<char>)>,
    k: int,
    n: int,
)
    requires
        1 <= k <= n,
        render_rec(t, names, vars, k) == Err::<Seq<char>, Seq<char>>(names[k - 1]),
    ensures
        render_rec(t, names, vars, n) == Err::<Seq<char>, Seq<char>>(names[k - 1]),
    decreases n - k,
{
    if n > k {
        lemma_render_rec_err_stays(t, names, vars, k, n - 1);
    }
}


/// Abstract value of a template: name, text, variables and description.
pub type TemplateView = (Seq<char>, Seq<char>, Seq<Seq<char>>, Option<Seq<char>>);

impl View for PromptTemplate {
    type V = TemplateView;

    open spec fn view(&self) -> TemplateView {
        (
            self.name@,
            self.template@,
            strings_view(self.variables@),
            match self.description {
                Some(d) => Some(d@),
                None => None,
            },
        )
    }
}

// ---------------------------------------------------------------------------
// Library

/// A collection of templates keyed by name.
#[derive(Debug)]
pub struct PromptLibrary {
    templates: Vec<PromptTemplate>,
}

/// No two templates share a name.
pub open spec fn unique_names(ts: Seq<PromptTemplate>) -> bool {
    forall|i: int, j: int|
        0 <= i < ts.len() && 0 <= j < ts.len() && i != j ==> (#[trigger] ts[i]).name@ != (
        #[trigger] ts[j]).name@
}

/// Templates by name.
pub open spec fn templates_map(ts: Seq<PromptTemplate>) -> Map<Seq<char>, TemplateView>
    decreases ts.len(),
{
    if ts.len() == 0 {
        Map::empty()
    } else {
        templates_map(ts.drop_last()).insert(ts.last().name@, ts.last()@)
    }
}

proof fn lemma_templates_map(ts: Seq<PromptTemplate>)
    requires
        unique_names(ts),
    ensures
        forall|k: Seq<char>|
            #[trigger] templates_map(ts).contains_key(k) <==> exists|i: int|
                0 <= i < ts.len() && (#[trigger] ts[i]).name@ == k,
        forall|i: int|
            0 <= i < ts.len() ==> #[trigger] templates_map(ts)[ts[i].name@] == ts[i]@,
        templates_map(ts).dom().finite(),
        templates_map(ts).dom().len() == ts.len(),
    decreases ts.len(),
{
    if ts.len() > 0 {
        let init = ts.drop_last();
        assert(unique_names(init)) by {
            assert forall|i: int, j: int|
                0 <= i < init.len() && 0 <= j < init.len() && i != j implies (#[trigger] init[i]).name@
                != (#[trigger] init[j]).name@ by {
                assert(init[i] == ts[i] && init[j] == ts[j]);
            }
        }
        lemma_templates_map(init);
        let last = ts.last();
        assert(!templates_map(init).contains_key(last.name@)) by {
            if templates_map(init).contains_key(last.name@) {
                let i = choose|i: int| 0 <= i < init.len() && (#[trigger] init[i]).name@ == last.name@;
                assert(ts[i] == init[i]);
                assert(ts[ts.len() - 1] == last);
            }
        }
        assert forall|k: Seq<char>|
            #[trigger] templates_map(ts).contains_key(k) <==> exists|i: int|
                0 <= i < ts.len() && (#[trigger] ts[i]).name@ == k by {
            if templates_map(ts).contains_key(k) {
                if k == last.name@ {
                    assert(ts[ts.len() - 1].name@ == k);
                } else {
                    let i = choose|i: int| 0 <= i < init.len() && (#[trigger] init[i]).name@ == k;
                    assert(ts[i] == init[i]);
                }
            }
            if exists|i: int| 0 <= i < ts.len() && (#[trigger] ts[i]).name@ == k {
                let i = choose|i: int| 0 <= i < ts.len() && (#[trigger] ts[i]).name@ == k;
                if i < ts.len() - 1 {
                    assert(init[i] == ts[i]);
                }
            }
        }
        assert forall|i: int| 0 <= i < ts.len() implies #[trigger] templates_map(ts)[ts[i].name@]
            == ts[i]@ by {
            if i < ts.len() - 1 {
                assert(init[i] == ts[i]);
                assert(ts[i].name@ != last.name@);
            }
        }
    }
}

proof fn lemma_templates_map_finite(ts: Seq<PromptTemplate>)
    ensures
        templates_map(ts).dom().finite(),
    decreases ts.len(),
{
    if ts.len() > 0 {
        lemma_templates_map_finite(ts.drop_last());
    }
}

impl View for PromptLibrary {
    type V = Map<Seq<char>, TemplateView>;

    closed spec fn view(&self) -> Map<Seq<char>, TemplateView> {
        templates_map(self.templates@)
    }
}

impl PromptLibrary {
    /// The library's internal invariant: template names are distinct.
    pub closed spec fn wf(&self) -> bool {
        unique_names(self.templates@)
    }

    /// A library holds finitely many names, so counts over its names (such as
    /// the length after a `register`) follow from its view.
    pub proof fn lemma_names_finite(&self)
        ensures
            self@.dom().finite(),
    {
        lemma_templates_map_finite(self.templates@);
    }

    /// An empty library.
    pub fn new() -> (r: Self)
        ensures
            r.wf(),
            r@ == Map::<Seq<char>, TemplateView>::empty(),
    {
        PromptLibrary { templates: Vec::new() }
    }

    /// Adds a template, replacing any template of the same name.
    pub fn register(&mut self, template: PromptTemplate)
        requires
            old(self).wf(),
        ensures
            final(self).wf(),
            final(self)@ == old(self)@.insert(template.name@, template@),
    {
        let ghost old_ts = self.templates@;
        proof {
            lemma_templates_map(old_ts);
        }
        let mut i: usize = 0;
        while i < self.templates.len()
            invariant
                self.templates@ == old_ts,
                old(self).templates@ == old_ts,
                unique_names(old_ts),
                i <= old_ts.len(),
                forall|k: int| 0 <= k < i ==> old_ts[k].name@ != template.name@,
            decreases old_ts.len() - i,
        {
            if self.templates[i].name == template.name {
                let ghost tv = template@;
                let ghost key = template.name@;
                self.templates.set(i, template);
                let ghost new_ts = self.templates@;
                assert(new_ts == old_ts.update(i as int, new_ts[i as int]));
                assert(unique_names(new_ts)) by {
                    assert forall|a: int, b: int|
                        0 <= a < new_ts.len() && 0 <= b < new_ts.len() && a != b implies (
                        #[trigger] new_ts[a]).name@ != (#[trigger] new_ts[b]).name@ by {
                        assert(old_ts[a].name@ != old_ts[b].name@);
                    }
                }
                proof {
                    lemma_templates_map(new_ts);
                    lemma_templates_map(old_ts);
                    assert(templates_map(new_ts) =~= templates_map(old_ts).insert(key, tv)) by {
                        assert forall|k: Seq<char>| #[trigger]
                            templates_map(new_ts).contains_key(k) <==> templates_map(
                                old_ts,
                            ).insert(key, tv).contains_key(k) by {
                            if templates_map(new_ts).contains_key(k) {
                                let j = choose|j: int|
                                    0 <= j < new_ts.len() && (#[trigger] new_ts[j]).name@ == k;
                                if j != i {
                                    assert(old_ts[j] == new_ts[j]);
                                }
                            }
                            if templates_map(old_ts).contains_key(k) {
                                let j = choose|j: int|
                                    0 <= j < old_ts.len() && (#[trigger] old_ts[j]).name@ == k;
                                if j != i {
                                    assert(old_ts[j] == new_ts[j]);
                                } else {
                                    assert(new_ts[i as int].name@ == k);
                                }
                            }
                            if k == key {
                                assert(new_ts[i as int].name@ == k);
                            }
                        }
                        assert forall|k: Seq<char>|
                            #[trigger] templates_map(new_ts).contains_key(k) implies templates_map(
                            new_ts,
                        )[k] == templates_map(old_ts).insert(key, tv)[k] by {
                            let j = choose|j: int|
                                0 <= j < new_ts.len() && (#[trigger] new_ts[j]).name@ == k;
                            if j != i {
                                assert(old_ts[j] == new_ts[j]);
                            }
                        }
                    }
                }
                assert(self@ == templates_map(old_ts).insert(key, tv));
                assert(old(self)@ == templates_map(old_ts));
                return;
            }
            i += 1;
        }
        let ghost key = template.name@;
        let ghost tv = template@;
        self.templates.push(template);
        assert(self.templates@.drop_last() =~= old_ts);
        assert(unique_names(self.templates@)) by {
            let ts = self.templates@;
            assert forall|a: int, b: int|
                0 <= a < ts.len() && 0 <= b < ts.len() && a != b implies (#[trigger] ts[a]).name@
                != (#[trigger] ts[b]).name@ by {
                if a < old_ts.len() {
                    assert(ts[a] == old_ts[a]);
                }
                if b < old_ts.len() {
                    assert(ts[b] == old_ts[b]);
                }
            }
        }
    }

    /// The template registered under `name`.
    pub fn get(&self, name: &str) -> (r: Option<&PromptTemplate>)
        requires
            self.wf(),
        ensures
            match r {
                Some(t) => self@.contains_key(name@) && self@[name@] == t@,
                None => !self@.contains_key(name@),
            },
    {
        proof {
            lemma_templates_map(self.templates@);
        }
        let mut i: usize = 0;
        while i < self.templates.len()
            invariant
                self.wf(),
                i <= self.templates@.len(),
                forall|k: int| 0 <= k < i ==> self.templates@[k].name@ != name@,
            decreases self.templates.len() - i,
        {
            if crate::text::str_eq(self.templates[i].name.as_str(), name) {
                proof {
                    lemma_templates_map(self.templates@);
                }
                return Some(&self.templates[i]);
            }
            i += 1;
        }
        None
    }

    /// Renders the template registered under `name`.
    pub fn render(&self, name: &str, vars: &[(String, String)]) -> (r: Result<String, Error>)
        requires
            self.wf(),
        ensures
            !self@.contains_key(name@) ==> (r matches Err(Error::NotFound(m)) && m@
                == "template not found: "@ + name@),
            self@.contains_key(name@) ==> match render_rec(
                self@[name@].1,
                self@[name@].2,
                pairs_view(vars@),
                self@[name@].2.len() as int,
            ) {
                Ok(t) => r matches Ok(s) && s@ == t,
                Err(missing) => r matches Err(Error::InvalidInput(m)) && m@ == "missing variable: "@
                    + missing,
            },
    {
        match self.get(name) {
            None => Err(Error::NotFound(crate::error::concat_str("template not found: ", name))),
            Some(t) => t.render(vars),
        }
    }

    /// Names of all registered templates, each once.
    pub fn names(&self) -> (r: Vec<&str>)
        requires
            self.wf(),
        ensures
            r@.len() == self@.dom().len(),
            forall|k: Seq<char>| self@.contains_key(k) <==> exists|i: int|
                0 <= i < r@.len() && (#[trigger] r@[i])@ == k,
    {
        proof {
            lemma_templates_map(self.templates@);
        }
        let mut r: Vec<&str> = Vec::new();
        let mut i: usize = 0;
        while i < self.templates.len()
            invariant
                i <= self.templates@.len(),
                r@.len() == i,
                forall|k: int| 0 <= k < i ==> (#[trigger] r@[k])@ == self.templates@[k].name@,
            decreases self.templates.len() - i,
        {
            r.push(self.templates[i].name.as_str());
            i += 1;
        }
        assert forall|k: Seq<char>| self@.contains_key(k) <==> exists|i: int|
            0 <= i < r@.len() && (#[trigger] r@[i])@ == k by {
            if self@.contains_key(k) {
                let j = choose|j: int|
                    0 <= j < self.templates@.len() && (#[trigger] self.templates@[j]).name@ == k;
                assert(r@[j]@ == k);
            }
            if exists|i: int| 0 <= i < r@.len() && (#[trigger] r@[i])@ == k {
                let j = choose|j: int| 0 <= j < r@.len() && (#[trigger] r@[j])@ == k;
                assert(self.templates@[j].name@ == k);
            }
        }
        r
    }

    /// The number of templates.
    pub fn len(&self) -> (r: usize)
        requires
            self.wf(),
        ensures
            r == self@.dom().len(),
    {
        proof {
            lemma_templates_map(self.templates@);
        }
        self.templates.len()
    }

    /// Whether there is no template.
    pub fn is_empty(&self) -> (r: bool)
        requires
            self.wf(),
        ensures
            r == (self@.dom().len() == 0),
    {
        proof {
            lemma_templates_map(self.templates@);
        }
        self.templates.len() == 0
    }

    /// The library with four built-in templates added: `summarize`,
    /// `analyze_proposal`, `explain` and `code_review`.
    pub fn with_defaults(self) -> (r: Self)
        requires
            self.wf(),
        ensures
            r.wf(),
            r@ == self@.insert(
                "summarize"@,
                default_template(
                    "summarize"@,
                    "Summarize the following text concisely:\n\n{{text}}"@,
                    "Summarize text"@,
                ),
            ).insert(
                "analyze_proposal"@,
                default_template(
                    "analyze_proposal"@,
                    "Analyze this governance proposal and provide your assessment:\n\nTitle: {{title}}\nDescription: {{description}}\n\nConsider: impact, risks, feasibility, and alignment with community values."@,
                    "Analyze a governance proposal"@,
                ),
            ).insert(
                "explain"@,
                default_template(
                    "explain"@,
                    "Explain {{topic}} in {{style}} terms. Target audience: {{audience}}."@,
                    "Explain a topic"@,
                ),
            ).insert(
                "code_review"@,
                default_template(
                    "code_review"@,
                    "Review this code for security, correctness, and performance:\n\n```{{language}}\n{{code}}\n```"@,
                    "Review code"@,
                ),
            ),
    {
        let mut lib = self;
        lib.register(
            PromptTemplate::new("summarize", "Summarize the following text concisely:\n\n{{text}}").with_description(
                "Summarize text",
            ),
        );
        lib.register(
            PromptTemplate::new(
                "analyze_proposal",
                "Analyze this governance proposal and provide your assessment:\n\nTitle: {{title}}\nDescription: {{description}}\n\nConsider: impact, risks, feasibility, and alignment with community values.",
            ).with_description("Analyze a governance proposal"),
        );
        lib.register(
            PromptTemplate::new(
                "explain",
                "Explain {{topic}} in {{style}} terms. Target audience: {{audience}}.",
            ).with_description("Explain a topic"),
        );
        lib.register(
            PromptTemplate::new(
                "code_review",
                "Review this code for security, correctness, and performance:\n\n```{{language}}\n{{code}}\n```",
            ).with_description("Review code"),
        );
        lib
    }
}

/// The abstract value of a built-in template.
pub open spec fn default_template(name: Seq<char>, text: Seq<char>, desc: Seq<char>) -> TemplateView {
    (name, text, template_variables(text), Some(desc))
}


// ---------------------------------------------------------------------------
// Laws

pub(crate) proof fn lemma_dedup(v: Seq<Seq<char>>)
    ensures
        dedup(v).no_duplicates(),
        forall|x: Seq<char>| dedup(v).contains(x) <==> v.contains(x),
    decreases v.len(),
{
    if v.len() > 0 {
        let init = v.drop_last();
        lemma_dedup(init);
        let d = dedup(init);
        assert(v == init.push(v.last()));
        assert forall|x: Seq<char>| d.contains(x) implies dedup(v).contains(x) by {
            let j = choose|j: int| 0 <= j < d.len() && d[j] == x;
            if !d.contains(v.last()) {
                assert(dedup(v)[j] == x);
            }
        }
        assert forall|x: Seq<char>| dedup(v).contains(x) <==> v.contains(x) by {
            if v.contains(x) {
                let i = choose|i: int| 0 <= i < v.len() && v[i] == x;
                if i < v.len() - 1 {
                    assert(init[i] == x);
                    assert(init.contains(x));
                } else if !d.contains(x) {
                    assert(d.push(x)[d.len() as int] == x);
                }
            }
            if dedup(v).contains(x) {
                if d.contains(x) {
                    assert(init.contains(x));
                    let i = choose|i: int| 0 <= i < init.len() && init[i] == x;
                    assert(v[i] == x);
                } else {
                    let i = choose|i: int| 0 <= i < dedup(v).len() && dedup(v)[i] == x;
                    if i < d.len() {
                        assert(d.push(v.last())[i] == d[i]);
                    }
                    assert(v[v.len() - 1] == x);
                }
            }
        }
        if !d.contains(v.last()) {
            assert(d.push(v.last()).no_duplicates()) by {
                let e = d.push(v.last());
                assert forall|i: int, j: int| 0 <= i < e.len() && 0 <= j < e.len() && i != j implies e[i]
                    != e[j] by {
                    if i < d.len() && j < d.len() {
                        assert(e[i] == d[i] && e[j] == d[j]);
                    } else if i < d.len() {
                        assert(e[i] == d[i]);
                    } else if j < d.len() {
                        assert(e[j] == d[j]);
                    }
                }
            }
        }
    }
}

/// A template's variables are its placeholder names, each exactly once.
pub proof fn law_variables_are_distinct_placeholders(s: Seq<char>)
    ensures
        template_variables(s).no_duplicates(),
        forall|x: Seq<char>|
            template_variables(s).contains(x) <==> placeholder_names(s, 0).contains(x),
{
    lemma_dedup(placeholder_names(s, 0));
}

/// Each placeholder name is trimmed and non-empty.
proof fn lemma_placeholder_names_trimmed(s: Seq<char>, i: int)
    ensures
        forall|k: int|
            0 <= k < placeholder_names(s, i).len() ==> (#[trigger] placeholder_names(s, i)[k]).len() > 0
                && trim(placeholder_names(s, i)[k]) == placeholder_names(s, i)[k],
    decreases s.len() - i,
{
    if i < 0 || i >= s.len() {
    } else if s[i] == '{' && i + 1 < s.len() && s[i + 1] == '{' {
        let close = find_close(s, i + 2);
        lemma_find_close_bounds(s, i + 2);
        let name = trim(s.subrange(i + 2, close));
        lemma_trim_idempotent(s.subrange(i + 2, close));
        let rest = placeholder_names(s, after_close(s, close));
        lemma_placeholder_names_trimmed(s, after_close(s, close));
        if name.len() > 0 {
            let all = seq![name] + rest;
            assert(placeholder_names(s, i) == all);
            assert forall|k: int| 0 <= k < all.len() implies (#[trigger] all[k]).len() > 0 && trim(all[k]) == all[k] by {
                if k > 0 {
                    assert(all[k] == rest[k - 1]);
                }
            }
        } else {
            assert(placeholder_names(s, i) == rest);
        }
    } else {
        lemma_placeholder_names_trimmed(s, i + 1);
        assert(placeholder_names(s, i) == placeholder_names(s, i + 1));
    }
}

/// A template's variables are trimmed and non-empty: `{{ a }}` names `a`,
/// and `{{}}` names nothing.
pub proof fn law_variables_trimmed_and_nonempty(s: Seq<char>)
    ensures
        forall|k: int|
            0 <= k < template_variables(s).len() ==> (#[trigger] template_variables(s)[k]).len() > 0
                && trim(template_variables(s)[k]) == template_variables(s)[k],
{
    law_variables_are_distinct_placeholders(s);
    lemma_placeholder_names_trimmed(s, 0);
    assert forall|k: int| 0 <= k < template_variables(s).len() implies (#[trigger] template_variables(s)[k]).len() > 0
        && trim(template_variables(s)[k]) == template_variables(s)[k] by {
        let x = template_variables(s)[k];
        assert(template_variables(s).contains(x));
        assert(placeholder_names(s, 0).contains(x));
        let j = choose|j: int| 0 <= j < placeholder_names(s, 0).len() && placeholder_names(s, 0)[j] == x;
        assert(placeholder_names(s, 0)[j] == x);
    }
}

/// Rendering with no values given leaves the template unchanged.
/// Rendering fails exactly when some variable has no value, and then it
/// names the first such variable (in order of appearance).
pub proof fn law_render_fails_on_first_missing(
    t: Seq<char>,
    names: Seq<Seq<char>>,
    vars: Seq<(Seq<char>, Seq<char>)>,
    n: int,
)
    requires
        0 <= n <= names.len(),
    ensures
        render_rec(t, names, vars, n) is Ok <==> forall|i: int|
            0 <= i < n ==> #[trigger] lookup(vars, names[i]) is Some,
        render_rec(t, names, vars, n) matches Err(m) ==> exists|i: int|
            0 <= i < n && names[i] == m && lookup(vars, #[trigger] names[i]) is None && forall|j: int|
                0 <= j < i ==> #[trigger] lookup(vars, names[j]) is Some,
    decreases n,
{
    if n > 0 {
        law_render_fails_on_first_missing(t, names, vars, n - 1);
        match render_rec(t, names, vars, n - 1) {
            Err(m) => {
                let i = choose|i: int|
                    0 <= i < n - 1 && names[i] == m && lookup(vars, #[trigger] names[i]) is None
                        && forall|j: int| 0 <= j < i ==> #[trigger] lookup(vars, names[j]) is Some;
                assert(lookup(vars, names[i]) is None);
            },
            Ok(_) => {
                if lookup(vars, names[n - 1]) is None {
                    assert(lookup(vars, names[n - 1]) is None);
                }
            },
        }
    }
}

/// Rendering with no values leaves a template as it is.
pub proof fn law_render_partial_without_values(t: Seq<char>)
    ensures
        render_partial_rec(t, seq![], 0) == t,
{
}

/// After registering a template, looking up its name gives that template,
/// and every other name gives what it gave before.
pub proof fn law_register_then_get(
    lib: Map<Seq<char>, TemplateView>,
    t: TemplateView,
    other: Seq<char>,
)
    requires
        other != t.0,
    ensures
        lib.insert(t.0, t).contains_key(t.0),
        lib.insert(t.0, t)[t.0] == t,
        lib.insert(t.0, t).contains_key(other) == lib.contains_key(other),
        lib.contains_key(other) ==> lib.insert(t.0, t)[other] == lib[other],
{
}

} // verus!
