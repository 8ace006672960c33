//! The registry of loaded templates, keyed by the type they describe.
use vstd::prelude::*;
use crate::template::{Template, TemplateModel, template_model};

verus! {

/// Whether `i` is the first position of a template for type `k`.
pub open spec fn is_first_kind(s: Seq<TemplateModel>, k: Seq<char>, i: int) -> bool {
    &&& 0 <= i < s.len()
    &&& s[i].kind == k
    &&& forall|j: int| 0 <= j < i ==> #[trigger] s[j].kind != k
}

/// Whether some template of the list is for type `k`.
pub open spec fn has_kind(s: Seq<TemplateModel>, k: Seq<char>) -> bool {
    exists|i: int| 0 <= i < s.len() && #[trigger] s[i].kind == k
}

/// The first position of a template for type `k`.
pub open spec fn first_kind(s: Seq<TemplateModel>, k: Seq<char>) -> int {
    choose|i: int| is_first_kind(s, k, i)
}

/// The map from type name to template that a list of templates stands for.
pub open spec fn kind_map(s: Seq<TemplateModel>) -> Map<Seq<char>, TemplateModel> {
    Map::new(|k: Seq<char>| has_kind(s, k), |k: Seq<char>| s[first_kind(s, k)])
}

proof fn lemma_first_kind(s: Seq<TemplateModel>, k: Seq<char>, i: int)
    requires
        is_first_kind(s, k, i),
    ensures
        has_kind(s, k),
        first_kind(s, k) == i,
{
    let c = first_kind(s, k);
    assert(is_first_kind(s, k, c));
    if c < i {
        assert(s[c].kind != k);
    }
    if i < c {
        assert(s[i].kind != k);
    }
}

proof fn lemma_has_first_kind(s: Seq<TemplateModel>, k: Seq<char>)
    requires
        has_kind(s, k),
    ensures
        is_first_kind(s, k, first_kind(s, k)),
    decreases s.len(),
{
    let w = choose|i: int| 0 <= i < s.len() && #[trigger] s[i].kind == k;
    if has_kind(s.drop_last(), k) {
        lemma_has_first_kind(s.drop_last(), k);
        let c = first_kind(s.drop_last(), k);
        assert forall|j: int| 0 <= j < c implies #[trigger] s[j].kind != k by {
            assert(s.drop_last()[j] == s[j]);
        }
        assert(s.drop_last()[c] == s[c]);
        assert(is_first_kind(s, k, c));
        lemma_first_kind(s, k, c);
    } else {
        let n = s.len() - 1;
        assert forall|j: int| 0 <= j < n implies #[trigger] s[j].kind != k by {
            if s[j].kind == k {
                assert(s.drop_last()[j].kind == k);
            }
        }
        assert(w == n) by {
            if w < n {
                assert(s.drop_last()[w].kind == k);
            }
        }
        assert(is_first_kind(s, k, n));
        lemma_first_kind(s, k, n);
    }
}

/// Of two templates loaded under one type name, only the later one stays
/// registered under it; the other names keep their templates.
pub proof fn lemma_last_load_wins(reg: Map<Seq<char>, TemplateModel>, first: TemplateModel, second: TemplateModel)
    requires
        first.kind == second.kind,
    ensures
        reg.insert(first.kind, first).insert(second.kind, second) == reg.insert(second.kind, second),
        reg.insert(first.kind, first).insert(second.kind, second)[second.kind] == second,
{
    assert(reg.insert(first.kind, first).insert(second.kind, second) =~= reg.insert(second.kind, second));
}

/// A mapping from type name to template; a later insertion under a name
/// replaces the earlier one.
pub struct TemplateRegistry {
    templates: Vec<Template>,
}

impl TemplateRegistry {
    /// The models of the registered templates, in order.
    pub closed spec fn models(&self) -> Seq<TemplateModel> {
        Seq::new(self.templates@.len(), |i: int| template_model(&self.templates@[i]))
    }
}

impl View for TemplateRegistry {
    type V = Map<Seq<char>, TemplateModel>;

    open spec fn view(&self) -> Map<Seq<char>, TemplateModel> {
        kind_map(self.models())
    }
}

impl TemplateRegistry {
    /// An empty registry.
    pub fn new() -> (r: TemplateRegistry)
        ensures
            r@ == Map::<Seq<char>, TemplateModel>::empty(),
    {
        let r = TemplateRegistry { templates: Vec::new() };
        assert(r@ =~= Map::<Seq<char>, TemplateModel>::empty());
        r
    }

    /// The position of the first template for type `name`.
    fn position(&self, name: &String) -> (r: Option<usize>)
        ensures
            match r {
                Some(i) => is_first_kind(self.models(), name@, i as int),
                None => !has_kind(self.models(), name@),
            },
    {
        let ghost m = self.models();
        let mut i: usize = 0;
        while i < self.templates.len()
            invariant
                i <= self.templates@.len(),
                m == self.models(),
                forall|j: int| 0 <= j < i ==> #[trigger] m[j].kind != name@,
            decreases self.templates@.len() - i,
        {
            if self.templates[i].kind == *name {
                return Some(i);
            }
            i = i + 1;
        }
        None
    }

    /// The template registered for type `name`.
    pub fn get(&self, name: &String) -> (r: Option<&Template>)
        ensures
            match r {
                Some(t) => self@.contains_key(name@) && self@[name@] == template_model(t),
                None => !self@.contains_key(name@),
            },
    {
        match self.position(name) {
            Some(i) => {
                proof {
                    lemma_first_kind(self.models(), name@, i as int);
                }
                Some(&self.templates[i])
            },
            None => None,
        }
    }

    /// Registers `template` under its type name, replacing any template that
    /// was registered under that name.
    pub fn insert(&mut self, template: Template)
        ensures
            final(self)@ == old(self)@.insert(template.kind@, template_model(&template)),
    {
        let ghost k = template.kind@;
        let ghost tm = template_model(&template);
        let ghost m0 = self.models();
        match self.position(&template.kind) {
            Some(i) => {
                proof {
                    lemma_first_kind(m0, k, i as int);
                }
                self.templates.set(i, template);
                proof {
                    let m1 = self.models();
                    assert(m1 =~= m0.update(i as int, tm));
                    assert forall|k2: Seq<char>| #[trigger] has_kind(m1, k2) == (k2 == k || has_kind(m0, k2)) by {
                        if has_kind(m0, k2) && k2 != k {
                            let w = choose|j: int| 0 <= j < m0.len() && #[trigger] m0[j].kind == k2;
                            assert(m1[w].kind == k2);
                        }
                        if has_kind(m1, k2) && k2 != k {
                            let w = choose|j: int| 0 <= j < m1.len() && #[trigger] m1[j].kind == k2;
                            assert(m0[w].kind == k2);
                        }
                        if k2 == k {
                            assert(m1[i as int].kind == k);
                        }
                    }
                    assert forall|k2: Seq<char>| has_kind(m1, k2) implies #[trigger] m1[first_kind(m1, k2)] == (if k2 == k { tm } else { m0[first_kind(m0, k2)] }) by {
                        if k2 == k {
                            assert(is_first_kind(m1, k, i as int));
                            lemma_first_kind(m1, k, i as int);
                        } else {
                            lemma_has_first_kind(m0, k2);
                            let f = first_kind(m0, k2);
                            assert(is_first_kind(m1, k2, f));
                            lemma_first_kind(m1, k2, f);
                        }
                    }
                    assert(kind_map(m1) =~= kind_map(m0).insert(k, tm));
                }
            },
            None => {
                self.templates.push(template);
                proof {
                    let m1 = self.models();
                    assert(m1 =~= m0.push(tm));
                    assert forall|k2: Seq<char>| #[trigger] has_kind(m1, k2) == (k2 == k || has_kind(m0, k2)) by {
                        if has_kind(m0, k2) {
                            let w = choose|j: int| 0 <= j < m0.len() && #[trigger] m0[j].kind == k2;
                            assert(m1[w].kind == k2);
                        }
                        if has_kind(m1, k2) && k2 != k {
                            let w = choose|j: int| 0 <= j < m1.len() && #[trigger] m1[j].kind == k2;
                            assert(m0[w].kind == k2);
                        }
                        if k2 == k {
                            assert(m1[m0.len() as int].kind == k);
                        }
                    }
                    assert forall|k2: Seq<char>| has_kind(m1, k2) implies #[trigger] m1[first_kind(m1, k2)] == (if k2 == k { tm } else { m0[first_kind(m0, k2)] }) by {
                        if k2 == k {
                            assert forall|j: int| 0 <= j < m0.len() implies #[trigger] m1[j].kind != k by {
                                if m1[j].kind == k {
                                    assert(m0[j].kind == k);
                                }
                            }
                            assert(is_first_kind(m1, k, m0.len() as int));
                            lemma_first_kind(m1, k, m0.len() as int);
                        } else {
                            lemma_has_first_kind(m0, k2);
                            let f = first_kind(m0, k2);
                            assert(is_first_kind(m1, k2, f));
                            lemma_first_kind(m1, k2, f);
                        }
                    }
                    assert(kind_map(m1) =~= kind_map(m0).insert(k, tm));
                }
            },
        }
    }
}

} // verus!
