//! Registry of protocol verbs: lookup by name and a reference card grouped by category.
use crate::text::{equals, join_lines, join_newline, push_str, texts, to_uppercase, upper_text};
use std::collections::HashMap;
use vstd::prelude::*;

verus! {

/// Defines a single verb of the protocol.
#[derive(Debug, Clone)]
pub struct VerbSpec {
    pub name: String,
    pub syntax: String,
    pub category: String,
}

impl VerbSpec {
    /// A copy of the spec.
    pub fn duplicate(&self) -> (r: VerbSpec)
        ensures
            r == *self,
    {
        VerbSpec {
            name: self.name.clone(),
            syntax: self.syntax.clone(),
            category: self.category.clone(),
        }
    }
}

/// The spec registered last under `name`, if any.
pub open spec fn latest_named(history: Seq<VerbSpec>, name: Seq<char>) -> Option<VerbSpec>
    decreases history.len(),
{
    if history.len() == 0 {
        None
    } else if history.last().name@ == name {
        Some(history.last())
    } else {
        latest_named(history.drop_last(), name)
    }
}

/// The registered verbs: for each name, the spec registered last under it, in the order of
/// those last registrations.
pub open spec fn current_verbs(history: Seq<VerbSpec>) -> Seq<VerbSpec>
    decreases history.len(),
{
    if history.len() == 0 {
        seq![]
    } else {
        let rest = current_verbs(history.drop_last());
        let kept = rest.filter(|v: VerbSpec| v.name@ != history.last().name@);
        kept.push(history.last())
    }
}

/// The distinct categories of the registered specs, in order of first registration.
pub open spec fn categories_of(history: Seq<VerbSpec>) -> Seq<Seq<char>>
    decreases history.len(),
{
    if history.len() == 0 {
        seq![]
    } else {
        let c = categories_of(history.drop_last());
        if c.contains(history.last().category@) {
            c
        } else {
            c.push(history.last().category@)
        }
    }
}

/// One line `"  <syntax>"` per registration in category `cat`, in registration order.
pub open spec fn syntax_lines(history: Seq<VerbSpec>, cat: Seq<char>) -> Seq<Seq<char>>
    decreases history.len(),
{
    if history.len() == 0 {
        seq![]
    } else {
        let r = syntax_lines(history.drop_last(), cat);
        if history.last().category@ == cat {
            r.push("  "@ + history.last().syntax@)
        } else {
            r
        }
    }
}

/// The lines of the sections of the given categories: a `CATEGORY:` title, the syntax lines,
/// an empty line.
pub open spec fn category_lines(history: Seq<VerbSpec>, cats: Seq<Seq<char>>) -> Seq<Seq<char>>
    decreases cats.len(),
{
    if cats.len() == 0 {
        seq![]
    } else {
        category_lines(history, cats.drop_last()) + seq![upper_text(cats.last()) + ":"@]
            + syntax_lines(history, cats.last()) + seq![seq![]]
    }
}

/// The lines of extra sections: a `TITLE:` line, the content, an empty line.
pub open spec fn extra_lines(extra: Seq<(String, String)>) -> Seq<Seq<char>>
    decreases extra.len(),
{
    if extra.len() == 0 {
        seq![]
    } else {
        extra_lines(extra.drop_last()) + seq![
            upper_text(extra.last().0@) + ":"@,
            extra.last().1@,
            seq![],
        ]
    }
}

/// The lines without the empty lines at their end.
pub open spec fn drop_trailing_empty(lines: Seq<Seq<char>>) -> Seq<Seq<char>>
    decreases lines.len(),
{
    if lines.len() > 0 && lines.last().len() == 0 {
        drop_trailing_empty(lines.drop_last())
    } else {
        lines
    }
}

/// Text of the reference card of a registration history with optional extra sections.
pub open spec fn reference_card_text(
    history: Seq<VerbSpec>,
    extra: Option<Seq<(String, String)>>,
) -> Seq<char> {
    join_lines(
        drop_trailing_empty(
            category_lines(history, categories_of(history)) + match extra {
                Some(e) => extra_lines(e),
                None => seq![],
            },
        ),
    )
}

/// The entries list each pair of the map exactly once.
pub open spec fn enumerates(entries: Seq<(String, String)>, m: Map<String, String>) -> bool {
    &&& entries.len() == m.dom().len()
    &&& forall|i: int|
        0 <= i < entries.len() ==> #[trigger] m.contains_key(entries[i].0) && m[entries[i].0]
            == entries[i].1
    &&& forall|i: int, j: int|
        0 <= i < j < entries.len() ==> #[trigger] entries[i].0 != #[trigger] entries[j].0
}

/// The entries of a map, each once, in the order in which `HashMap::iter` visits them. That
/// order depends on the map's hasher, so it is left unsaid here.
#[verifier::external_body]
fn map_entries(m: &HashMap<String, String>) -> (r: Vec<(String, String)>)
    ensures
        enumerates(r@, m@),
{
    m.iter().map(|(k, v)| (k.clone(), v.clone())).collect()
}

/// Registry of verb specifications that supports lookup by verb name and reference card
/// generation grouped by category. Its view is the sequence of registrations.
pub struct VerbRegistry {
    registered: Vec<VerbSpec>,
}

impl View for VerbRegistry {
    type V = Seq<VerbSpec>;

    closed spec fn view(&self) -> Seq<VerbSpec> {
        self.registered@
    }
}

impl VerbRegistry {
    /// Creates a new empty registry.
    pub fn new() -> (r: Self)
        ensures
            r@ == Seq::<VerbSpec>::empty(),
    {
        VerbRegistry { registered: Vec::new() }
    }

    /// Registers a single verb specification.
    pub fn register(&mut self, spec: VerbSpec)
        ensures
            final(self)@ == old(self)@.push(spec),
    {
        self.registered.push(spec);
    }

    /// Registers multiple verb specifications at once, in order.
    pub fn register_many(&mut self, specs: Vec<VerbSpec>)
        ensures
            final(self)@ == old(self)@ + specs@,
    {
        let mut i: usize = 0;
        let n = specs.len();
        while i < n
            invariant
                n == specs@.len(),
                i <= n,
                self@ == old(self)@ + specs@.take(i as int),
            decreases n - i,
        {
            self.register(specs[i].duplicate());
            assert(specs@.take(i + 1) =~= specs@.take(i as int).push(specs@[i as int]));
            i = i + 1;
        }
        assert(specs@.take(n as int) =~= specs@);
    }

    /// Looks up the specification registered last under `name`.
    pub fn lookup(&self, name: &str) -> (r: Option<&VerbSpec>)
        ensures
            match r {
                Some(s) => latest_named(self@, name@) == Some(*s),
                None => latest_named(self@, name@) is None,
            },
    {
        let mut i = self.registered.len();
        let ghost h = self.registered@;
        assert(h.take(i as int) =~= h);
        while i > 0
            invariant
                i <= h.len(),
                h == self.registered@,
                latest_named(h, name@) == latest_named(h.take(i as int), name@),
            decreases i,
        {
            let s = &self.registered[i - 1];
            assert(h.take(i as int).drop_last() =~= h.take(i - 1));
            if equals(s.name.as_str(), name) {
                return Some(s);
            }
            i = i - 1;
        }
        None
    }

    /// Returns all registered verb specifications, one per name.
    pub fn verbs(&self) -> (r: Vec<&VerbSpec>)
        ensures
            r@.map_values(|s: &VerbSpec| *s) == current_verbs(self@),
    {
        let mut r: Vec<&VerbSpec> = Vec::new();
        let n = self.registered.len();
        let mut i: usize = 0;
        while i < n
            invariant
                n == self.registered@.len(),
                i <= n,
                r@.map_values(|s: &VerbSpec| *s) == current_verbs(self.registered@.take(i as int)),
            decreases n - i,
        {
            let s = &self.registered[i];
            let ghost prev = r@.map_values(|s: &VerbSpec| *s);
            let mut kept: Vec<&VerbSpec> = Vec::new();
            let mut j: usize = 0;
            while j < r.len()
                invariant
                    j <= r@.len(),
                    prev == r@.map_values(|s: &VerbSpec| *s),
                    kept@.map_values(|s: &VerbSpec| *s) == prev.take(j as int).filter(
                        |v: VerbSpec| v.name@ != s.name@,
                    ),
                decreases r@.len() - j,
            {
                proof {
                    reveal_with_fuel(Seq::filter, 1);
                    assert(prev.take(j + 1).drop_last() =~= prev.take(j as int));
                }
                if r[j].name != s.name {
                    let ghost before = kept@.map_values(|s: &VerbSpec| *s);
                    kept.push(r[j]);
                    assert(kept@.map_values(|s: &VerbSpec| *s) =~= before.push(*r@[j as int]));
                }
                j = j + 1;
            }
            assert(prev.take(r@.len() as int) =~= prev);
            let ghost before = kept@.map_values(|s: &VerbSpec| *s);
            kept.push(s);
            assert(kept@.map_values(|s: &VerbSpec| *s) =~= before.push(*s));
            assert(self.registered@.take(i + 1).drop_last() =~= self.registered@.take(i as int));
            r = kept;
            i = i + 1;
        }
        assert(self.registered@.take(n as int) =~= self.registered@);
        r
    }

    /// Generates the reference card: one section per category, in order of first registration,
    /// listing the syntax of each registration in it; then the extra sections, each a title and
    /// its content, in the order given; trailing empty lines removed.
    pub fn generate_reference_card_with(&self, extra_sections: Option<&Vec<(String, String)>>) -> (r:
        String)
        ensures
            r@ == reference_card_text(
                self@,
                match extra_sections {
                    Some(e) => Some(e@),
                    None => None,
                },
            ),
    {
        let h = &self.registered;
        let n = h.len();
        // the categories, in order of first registration
        let mut cats: Vec<String> = Vec::new();
        let mut i: usize = 0;
        while i < n
            invariant
                n == h@.len(),
                i <= n,
                texts(cats@) == categories_of(h@.take(i as int)),
            decreases n - i,
        {
            assert(h@.take(i + 1).drop_last() =~= h@.take(i as int));
            let c = &h[i].category;
            let mut found = false;
            let mut j: usize = 0;
            while j < cats.len()
                invariant
                    j <= cats@.len(),
                    found == exists|k: int| 0 <= k < j && texts(cats@)[k] == c@,
                decreases cats@.len() - j,
            {
                assert(texts(cats@)[j as int] == cats@[j as int]@);
                if cats[j] == *c {
                    found = true;
                }
                j = j + 1;
            }
            assert(found == texts(cats@).contains(c@));
            if !found {
                let ghost prev = texts(cats@);
                cats.push(c.clone());
                assert(texts(cats@) =~= prev.push(c@));
            }
            i = i + 1;
        }
        assert(h@.take(n as int) =~= h@);
        // the category sections
        let mut lines: Vec<String> = Vec::new();
        let ghost all_cats = texts(cats@);
        let mut k: usize = 0;
        while k < cats.len()
            invariant
                n == h@.len(),
                k <= cats@.len(),
                all_cats == texts(cats@),
                texts(lines@) =~= category_lines(h@, all_cats.take(k as int)),
            decreases cats@.len() - k,
        {
            let cat = &cats[k];
            assert(all_cats.take(k + 1).drop_last() =~= all_cats.take(k as int));
            let ghost before = texts(lines@);
            let mut title = to_uppercase(cat.as_str());
            push_str(&mut title, ":");
            lines.push(title);
            let mut i: usize = 0;
            while i < n
                invariant
                    n == h@.len(),
                    i <= n,
                    texts(lines@) =~= before + seq![upper_text(cat@) + ":"@] + syntax_lines(
                        h@.take(i as int),
                        cat@,
                    ),
                decreases n - i,
            {
                assert(h@.take(i + 1).drop_last() =~= h@.take(i as int));
                if h[i].category == *cat {
                    let mut line = String::new();
                    push_str(&mut line, "  ");
                    push_str(&mut line, h[i].syntax.as_str());
                    let ghost prev = texts(lines@);
                    lines.push(line);
                    assert(texts(lines@) =~= prev.push(line@));
                }
                i = i + 1;
            }
            assert(h@.take(n as int) =~= h@);
            let ghost prev = texts(lines@);
            lines.push(String::new());
            assert(texts(lines@) =~= prev.push(seq![]));
            k = k + 1;
        }
        assert(all_cats.take(cats@.len() as int) =~= all_cats);
        let ghost after_cats = texts(lines@);
        // the extra sections
        if let Some(extra) = extra_sections {
            let mut e: usize = 0;
            while e < extra.len()
                invariant
                    e <= extra@.len(),
                    texts(lines@) =~= after_cats + extra_lines(extra@.take(e as int)),
                decreases extra@.len() - e,
            {
                assert(extra@.take(e + 1).drop_last() =~= extra@.take(e as int));
                let (title, content) = &extra[e];
                let ghost prev = texts(lines@);
                let mut t = to_uppercase(title.as_str());
                push_str(&mut t, ":");
                lines.push(t);
                lines.push(content.clone());
                lines.push(String::new());
                assert(texts(lines@) =~= prev + seq![
                    upper_text(title@) + ":"@,
                    content@,
                    seq![],
                ]);
                e = e + 1;
            }
            assert(extra@.take(extra@.len() as int) =~= extra@);
        }
        let ghost full = texts(lines@);
        // trailing empty lines
        while lines.len() > 0 && lines[lines.len() - 1].as_str().is_empty()
            invariant
                drop_trailing_empty(texts(lines@)) == drop_trailing_empty(full),
            decreases lines@.len(),
        {
            let ghost prev = texts(lines@);
            lines.pop();
            assert(texts(lines@) =~= prev.drop_last());
        }
        join_newline(&lines)
    }

    /// Generates the reference card with the sections of a map as extra sections. Which order
    /// those sections come in is the order in which the map is walked, which this leaves open.
    pub fn generate_reference_card(&self, extra_sections: Option<&HashMap<String, String>>) -> (r:
        String)
        ensures
            extra_sections is None ==> r@ == reference_card_text(self@, None),
            extra_sections matches Some(m) ==> exists|e: Seq<(String, String)>|
                enumerates(e, m@) && r@ == reference_card_text(self@, Some(e)),
    {
        match extra_sections {
            Some(m) => {
                let entries = map_entries(m);
                self.generate_reference_card_with(Some(&entries))
            },
            None => self.generate_reference_card_with(None),
        }
    }
}

impl Default for VerbRegistry {
    fn default() -> (r: Self)
        ensures
            r@ == Seq::<VerbSpec>::empty(),
    {
        Self::new()
    }
}

// ---------------------------------------------------------------------------
// Laws
// ---------------------------------------------------------------------------

/// After registering `spec`, looking up its name gives `spec`.
pub proof fn law_lookup_after_register(history: Seq<VerbSpec>, spec: VerbSpec)
    ensures
        latest_named(history.push(spec), spec.name@) == Some(spec),
{
}

/// Registering `spec` leaves the lookup of every other name as it was.
pub proof fn law_register_keeps_other_names(history: Seq<VerbSpec>, spec: VerbSpec, name: Seq<char>)
    requires
        name != spec.name@,
    ensures
        latest_named(history.push(spec), name) == latest_named(history, name),
{
    assert(history.push(spec).drop_last() =~= history);
}

proof fn lemma_latest_has_name(history: Seq<VerbSpec>, name: Seq<char>)
    ensures
        latest_named(history, name) matches Some(v) ==> v.name@ == name,
    decreases history.len(),
{
    if history.len() > 0 && history.last().name@ != name {
        lemma_latest_has_name(history.drop_last(), name);
    }
}

/// The verbs are the registered specs that a lookup gives, each name once: no two verbs share
/// a name, looking up the name of a verb gives that verb, and whatever a lookup gives is among
/// the verbs.
pub proof fn law_verbs_are_lookups(history: Seq<VerbSpec>)
    ensures
        forall|i: int, j: int|
            0 <= i < j < current_verbs(history).len() ==> (#[trigger] current_verbs(history)[i]).name@
                != (#[trigger] current_verbs(history)[j]).name@,
        forall|v: VerbSpec|
            current_verbs(history).contains(v) ==> #[trigger] latest_named(history, v.name@) == Some(
                v,
            ),
        forall|name: Seq<char>|
            #[trigger] latest_named(history, name) is Some ==> current_verbs(history).contains(
                latest_named(history, name).unwrap(),
            ),
    decreases history.len(),
{
    if history.len() > 0 {
        let h = history.drop_last();
        let s = history.last();
        law_verbs_are_lookups(h);
        let cv = current_verbs(h);
        let pred = |v: VerbSpec| v.name@ != s.name@;
        let f = cv.filter(pred);
        assert(history =~= h.push(s));
        assert(current_verbs(history) == f.push(s));
        assert forall|i: int, j: int|
            0 <= i < j < f.push(s).len() implies (#[trigger] f.push(s)[i]).name@ != (
            #[trigger] f.push(s)[j]).name@ by {
            cv.lemma_filter_pred(pred, i);
            if j < f.len() {
                cv.lemma_filter_pred(pred, j);
                lemma_filter_keeps_distinct_names(cv, pred, i, j);
            }
        }
        assert forall|v: VerbSpec| f.push(s).contains(v) implies #[trigger] latest_named(
            history,
            v.name@,
        ) == Some(v) by {
            if v != s {
                let k = choose|k: int| 0 <= k < f.push(s).len() && f.push(s)[k] == v;
                assert(k < f.len());
                cv.lemma_filter_pred(pred, k);
                assert(f.contains(v));
                cv.lemma_filter_contains_rev(pred, v);
                law_register_keeps_other_names(h, s, v.name@);
            }
        }
        assert forall|name: Seq<char>| #[trigger] latest_named(history, name) is Some implies f.push(
            s,
        ).contains(latest_named(history, name).unwrap()) by {
            if name == s.name@ {
                assert(f.push(s)[f.len() as int] == s);
            } else {
                law_register_keeps_other_names(h, s, name);
                lemma_latest_has_name(h, name);
                let v = latest_named(h, name).unwrap();
                assert(cv.contains(v));
                let k = choose|k: int| 0 <= k < cv.len() && cv[k] == v;
                cv.lemma_filter_contains(pred, k);
                let m = choose|m: int| 0 <= m < f.len() && f[m] == v;
                assert(f.push(s)[m] == v);
            }
        }
    }
}

proof fn lemma_filter_keeps_distinct_names(
    s: Seq<VerbSpec>,
    pred: spec_fn(VerbSpec) -> bool,
    i: int,
    j: int,
)
    requires
        forall|a: int, b: int|
            0 <= a < b < s.len() ==> (#[trigger] s[a]).name@ != (#[trigger] s[b]).name@,
        0 <= i < j < s.filter(pred).len(),
    ensures
        s.filter(pred)[i].name@ != s.filter(pred)[j].name@,
    decreases s.len(),
{
    reveal(Seq::filter);
    let d = s.drop_last();
    assert forall|a: int, b: int| 0 <= a < b < d.len() implies (#[trigger] d[a]).name@ != (
    #[trigger] d[b]).name@ by {
        assert(d[a] == s[a] && d[b] == s[b]);
    }
    if pred(s.last()) {
        assert(s.filter(pred) == d.filter(pred).push(s.last()));
        if j < d.filter(pred).len() {
            lemma_filter_keeps_distinct_names(d, pred, i, j);
        } else {
            let x = d.filter(pred)[i];
            assert(d.filter(pred).contains(x));
            d.lemma_filter_contains_rev(pred, x);
            let a = choose|a: int| 0 <= a < d.len() && d[a] == x;
            assert(s[a] == x);
            assert(s[s.len() - 1] == s.last());
        }
    } else {
        assert(s.filter(pred) == d.filter(pred));
        lemma_filter_keeps_distinct_names(d, pred, i, j);
    }
}

/// The history after registering `specs` one at a time, first to last.
pub open spec fn registered_one_by_one(history: Seq<VerbSpec>, specs: Seq<VerbSpec>) -> Seq<VerbSpec>
    decreases specs.len(),
{
    if specs.len() == 0 {
        history
    } else {
        registered_one_by_one(history, specs.drop_last()).push(specs.last())
    }
}

/// Registering many specs at once is registering them one by one: the histories agree, so
/// every lookup, the verb list and the reference card with the same extra sections agree.
pub proof fn law_register_many_is_one_by_one(
    history: Seq<VerbSpec>,
    specs: Seq<VerbSpec>,
    name: Seq<char>,
    extra: Option<Seq<(String, String)>>,
)
    ensures
        history + specs == registered_one_by_one(history, specs),
        latest_named(history + specs, name) == latest_named(registered_one_by_one(history, specs), name),
        current_verbs(history + specs) == current_verbs(registered_one_by_one(history, specs)),
        reference_card_text(history + specs, extra) == reference_card_text(
            registered_one_by_one(history, specs),
            extra,
        ),
    decreases specs.len(),
{
    if specs.len() > 0 {
        law_register_many_is_one_by_one(history, specs.drop_last(), name, extra);
        assert(history + specs =~= (history + specs.drop_last()).push(specs.last()));
    } else {
        assert(history + specs =~= history);
    }
}

} // verus!
