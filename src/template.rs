//! Templates and their instantiation onto entities.
use vstd::prelude::*;
use crate::pon::{Pon, PonModel, pon_model};
use crate::registry::TemplateRegistry;
use crate::store::{
    EntityId,
    EntityModel,
    EntityStore,
    fresh_entity,
    has_key,
    lemma_push_keeps,
    property_value,
    props_model,
    with_property,
};

verus! {

/// A named, reusable description of an entity: its type, the template it
/// inherits defaults from, its properties in declaration order and its child
/// entities.
#[derive(Debug, PartialEq)]
pub struct Template {
    pub kind: String,
    pub inherits: Option<String>,
    pub properties: Vec<(String, Pon)>,
    pub children: Vec<Template>,
}

/// The model of a template.
pub struct TemplateModel {
    pub kind: Seq<char>,
    pub inherits: Option<Seq<char>>,
    pub properties: Seq<(Seq<char>, PonModel)>,
    pub children: Seq<TemplateModel>,
}

/// The model of a template.
pub open spec fn template_model(t: &Template) -> TemplateModel
    decreases t,
{
    TemplateModel {
        kind: t.kind@,
        inherits: match t.inherits {
            Some(s) => Some(s@),
            None => None,
        },
        properties: props_model(t.properties@),
        children: Seq::new(
            t.children@.len(),
            |i: int|
                if 0 <= i < t.children@.len() {
                    template_model(&t.children@[i])
                } else {
                    TemplateModel { kind: Seq::empty(), inherits: None, properties: Seq::empty(), children: Seq::empty() }
                },
        ),
    }
}

/// How deep instantiation may nest, counting each step to a base template and
/// each step to a child.
pub const MAX_DEPTH: usize = 256;

/// Why a template could not be applied.
#[derive(Debug, PartialEq)]
pub enum ApplyError {
    /// The target entity is not in the store.
    NoSuchEntity,
    /// Instantiation nested deeper than allowed: an inheritance cycle, or a
    /// template that contains itself.
    TooDeep,
}

/// The properties of entity `e` after offering it the given defaults in order:
/// each key that the entity does not have yet is set.
pub open spec fn set_defaults(props: Seq<(Seq<char>, PonModel)>, e: nat, s: Seq<EntityModel>) -> Seq<EntityModel>
    decreases props.len(),
{
    if props.len() == 0 {
        s
    } else {
        let s1 = set_defaults(props.drop_last(), e, s);
        let (k, v) = props.last();
        if has_key(s1[e as int].properties, k) {
            s1
        } else {
            s1.update(e as int, with_property(s1[e as int], k, v))
        }
    }
}

/// The store after applying template `t` to entity `e` with registry `reg`,
/// nesting at most `depth` deep, and whether that succeeded: first the
/// inherited template (where it is registered), then the template's own
/// properties as defaults, then each child as a new entity under `e`.
pub open spec fn apply_model(
    t: TemplateModel,
    reg: Map<Seq<char>, TemplateModel>,
    e: nat,
    s: Seq<EntityModel>,
    depth: nat,
) -> (Seq<EntityModel>, bool)
    decreases depth, 0nat,
{
    if depth == 0 {
        (s, false)
    } else {
        let (s1, ok) = match t.inherits {
            Some(b) => if reg.contains_key(b) {
                apply_model(reg[b], reg, e, s, (depth - 1) as nat)
            } else {
                (s, true)
            },
            None => (s, true),
        };
        if !ok {
            (s1, false)
        } else {
            let s2 = set_defaults(t.properties, e, s1);
            apply_children(t.children, reg, e, s2, (depth - 1) as nat, t.children.len())
        }
    }
}

/// The store after creating and applying the first `n` children under `e`.
pub open spec fn apply_children(
    children: Seq<TemplateModel>,
    reg: Map<Seq<char>, TemplateModel>,
    e: nat,
    s: Seq<EntityModel>,
    depth: nat,
    n: nat,
) -> (Seq<EntityModel>, bool)
    decreases depth, n,
{
    if n == 0 {
        (s, true)
    } else {
        let (s1, ok) = apply_children(children, reg, e, s, depth, (n - 1) as nat);
        if !ok {
            (s1, false)
        } else {
            let c = children[n - 1];
            let s2 = s1.push(fresh_entity(c.kind, None, Some(e)));
            apply_model(c, reg, s1.len(), s2, depth)
        }
    }
}

proof fn lemma_children_failed(
    children: Seq<TemplateModel>,
    reg: Map<Seq<char>, TemplateModel>,
    e: nat,
    s: Seq<EntityModel>,
    depth: nat,
    n: nat,
    m: nat,
)
    requires
        n <= m,
        !apply_children(children, reg, e, s, depth, n).1,
    ensures
        apply_children(children, reg, e, s, depth, m) == apply_children(children, reg, e, s, depth, n),
    decreases m,
{
    if n < m {
        lemma_children_failed(children, reg, e, s, depth, n, (m - 1) as nat);
    }
}

/// Every property that an entity of `s` has stands unchanged in `s2`, and
/// `s2` has every entity of `s`.
pub open spec fn keeps_properties(s: Seq<EntityModel>, s2: Seq<EntityModel>) -> bool {
    &&& s.len() <= s2.len()
    &&& forall|i: int, k: Seq<char>|
        0 <= i < s.len() && #[trigger] has_key(s[i].properties, k) ==> has_key(s2[i].properties, k)
            && property_value(s2[i].properties, k) == property_value(s[i].properties, k)
}

proof fn lemma_keeps_trans(a: Seq<EntityModel>, b: Seq<EntityModel>, c: Seq<EntityModel>)
    requires
        keeps_properties(a, b),
        keeps_properties(b, c),
    ensures
        keeps_properties(a, c),
{
    assert forall|i: int, k: Seq<char>| 0 <= i < a.len() && #[trigger] has_key(a[i].properties, k) implies has_key(c[i].properties, k)
        && property_value(c[i].properties, k) == property_value(a[i].properties, k) by {
        assert(has_key(b[i].properties, k));
    }
}

pub(crate) proof fn lemma_set_defaults_keeps(props: Seq<(Seq<char>, PonModel)>, e: nat, s: Seq<EntityModel>)
    requires
        e < s.len(),
    ensures
        set_defaults(props, e, s).len() == s.len(),
        keeps_properties(s, set_defaults(props, e, s)),
    decreases props.len(),
{
    if props.len() > 0 {
        let s1 = set_defaults(props.drop_last(), e, s);
        lemma_set_defaults_keeps(props.drop_last(), e, s);
        let (k, v) = props.last();
        if !has_key(s1[e as int].properties, k) {
            let s2 = s1.update(e as int, with_property(s1[e as int], k, v));
            assert forall|i: int, k2: Seq<char>| 0 <= i < s1.len() && #[trigger] has_key(s1[i].properties, k2) implies has_key(s2[i].properties, k2)
                && property_value(s2[i].properties, k2) == property_value(s1[i].properties, k2) by {
                if i == e {
                    lemma_push_keeps(s1[i].properties, k, v, k2);
                }
            }
            lemma_keeps_trans(s, s1, s2);
        }
    }
}

/// Applying a template never changes or removes a property that an entity
/// already has, whether the caller set it or an earlier template did; it only
/// adds properties and entities.
pub proof fn lemma_apply_keeps_properties(
    t: TemplateModel,
    reg: Map<Seq<char>, TemplateModel>,
    e: nat,
    s: Seq<EntityModel>,
    depth: nat,
)
    requires
        e < s.len(),
    ensures
        keeps_properties(s, apply_model(t, reg, e, s, depth).0),
    decreases depth, 0nat,
{
    if depth > 0 {
        let (s1, ok) = match t.inherits {
            Some(b) => if reg.contains_key(b) {
                apply_model(reg[b], reg, e, s, (depth - 1) as nat)
            } else {
                (s, true)
            },
            None => (s, true),
        };
        match t.inherits {
            Some(b) => if reg.contains_key(b) {
                lemma_apply_keeps_properties(reg[b], reg, e, s, (depth - 1) as nat);
            },
            None => {},
        }
        if ok {
            let s2 = set_defaults(t.properties, e, s1);
            lemma_set_defaults_keeps(t.properties, e, s1);
            lemma_keeps_trans(s, s1, s2);
            lemma_children_keep_properties(t.children, reg, e, s2, (depth - 1) as nat, t.children.len());
            lemma_keeps_trans(s, s2, apply_children(t.children, reg, e, s2, (depth - 1) as nat, t.children.len()).0);
        }
    }
}

proof fn lemma_children_keep_properties(
    children: Seq<TemplateModel>,
    reg: Map<Seq<char>, TemplateModel>,
    e: nat,
    s: Seq<EntityModel>,
    depth: nat,
    n: nat,
)
    requires
        e < s.len(),
    ensures
        keeps_properties(s, apply_children(children, reg, e, s, depth, n).0),
    decreases depth, n,
{
    if n > 0 {
        let (s1, ok) = apply_children(children, reg, e, s, depth, (n - 1) as nat);
        lemma_children_keep_properties(children, reg, e, s, depth, (n - 1) as nat);
        if ok {
            let c = children[n - 1];
            let s2 = s1.push(fresh_entity(c.kind, None, Some(e)));
            assert forall|i: int, k: Seq<char>| 0 <= i < s1.len() && #[trigger] has_key(s1[i].properties, k) implies has_key(s2[i].properties, k)
                && property_value(s2[i].properties, k) == property_value(s1[i].properties, k) by {
                assert(s2[i] == s1[i]);
            }
            lemma_keeps_trans(s, s1, s2);
            lemma_apply_keeps_properties(c, reg, s1.len(), s2, depth);
            lemma_keeps_trans(s, s2, apply_model(c, reg, s1.len(), s2, depth).0);
        }
    }
}

/// A template whose base is not registered applies as if it named no base:
/// its own properties and children only, and no error on that account.
pub proof fn lemma_missing_base_ignored(
    t: TemplateModel,
    reg: Map<Seq<char>, TemplateModel>,
    e: nat,
    s: Seq<EntityModel>,
    depth: nat,
)
    requires
        t.inherits is Some,
        !reg.contains_key(t.inherits->Some_0),
    ensures
        apply_model(t, reg, e, s, depth) == apply_model(TemplateModel { inherits: None, ..t }, reg, e, s, depth),
{
}

impl Template {
    fn apply_bounded(&self, templates: &TemplateRegistry, store: &mut EntityStore, entity: EntityId, depth: usize) -> (r: Result<(), ApplyError>)
        requires
            entity < old(store)@.len(),
        ensures
            final(store)@.len() >= old(store)@.len(),
            r is Ok <==> apply_model(template_model(self), templates@, entity as nat, old(store)@, depth as nat).1,
            r is Err ==> r->Err_0 is TooDeep,
            final(store)@ == apply_model(template_model(self), templates@, entity as nat, old(store)@, depth as nat).0,
        decreases depth, 0nat,
    {
        let ghost tm = template_model(self);
        let ghost reg = templates@;
        if depth == 0 {
            return Err(ApplyError::TooDeep);
        }
        match &self.inherits {
            Some(b) => {
                match templates.get(b) {
                    Some(base) => {
                        match base.apply_bounded(templates, store, entity, depth - 1) {
                            Ok(()) => {},
                            Err(e) => {
                                return Err(e);
                            },
                        }
                    },
                    None => {},
                }
            },
            None => {},
        }
        let ghost s1 = store@;
        let ghost pm = tm.properties;
        let mut i: usize = 0;
        while i < self.properties.len()
            invariant
                i <= self.properties@.len(),
                pm == props_model(self.properties@),
                entity < s1.len(),
                store@ == set_defaults(pm.take(i as int), entity as nat, s1),
                store@.len() == s1.len(),
            decreases self.properties@.len() - i,
        {
            let key = &self.properties[i].0;
            proof {
                assert(pm.take(i + 1).drop_last() =~= pm.take(i as int));
            }
            match store.has_property(entity, key) {
                Ok(false) => {
                    let v = self.properties[i].1.duplicate();
                    // The entity is in the store, so this cannot fail.
                    let _ = store.set_property(entity, key.clone(), v);
                },
                _ => {},
            }
            i = i + 1;
        }
        proof {
            assert(pm.take(pm.len() as int) =~= pm);
        }
        let ghost s2 = store@;
        let ghost cm = tm.children;
        let ghost full = apply_model(tm, reg, entity as nat, old(store)@, depth as nat);
        assert(full == apply_children(cm, reg, entity as nat, s2, (depth - 1) as nat, cm.len()));
        let mut j: usize = 0;
        while j < self.children.len()
            invariant
                0 < depth,
                j <= self.children@.len(),
                cm == tm.children,
                cm.len() == self.children@.len(),
                tm == template_model(self),
                full == apply_children(cm, reg, entity as nat, s2, (depth - 1) as nat, cm.len()),
                full == apply_model(tm, reg, entity as nat, old(store)@, depth as nat),
                s2.len() >= old(store)@.len(),
                reg == templates@,
                entity < s2.len(),
                store@.len() >= s2.len(),
                (store@, true) == apply_children(cm, reg, entity as nat, s2, (depth - 1) as nat, j as nat),
            decreases self.children@.len() - j,
        {
            let child = &self.children[j];
            assert(cm[j as int] == template_model(child));
            let ghost sj = store@;
            let id = store.len();
            // The parent is in the store, so the new entity gets the id `id`.
            let _ = store.append_entity(Some(entity), child.kind.clone(), None);
            assert(store@ == sj.push(fresh_entity(cm[j as int].kind, None, Some(entity as nat))));
            match child.apply_bounded(templates, store, id, depth - 1) {
                Ok(()) => {},
                Err(e) => {
                    proof {
                        assert(apply_children(cm, reg, entity as nat, s2, (depth - 1) as nat, j as nat) == (sj, true));
                        assert(id == sj.len());
                        assert(!apply_children(cm, reg, entity as nat, s2, (depth - 1) as nat, (j + 1) as nat).1);
                        lemma_children_failed(cm, reg, entity as nat, s2, (depth - 1) as nat, (j + 1) as nat, cm.len());
                    }
                    return Err(e);
                },
            }
            j = j + 1;
        }
        Ok(())
    }

    /// Applies this template to `entity`: the inherited template first, where
    /// the registry holds it, then each own property that the entity does not
    /// have yet, then each child as a new entity under `entity`, recursively.
    /// Values that the entity already has are never replaced.
    pub fn apply(&self, templates: &TemplateRegistry, store: &mut EntityStore, entity: EntityId) -> (r: Result<(), ApplyError>)
        ensures
            entity >= old(store)@.len() ==> r is Err && r->Err_0 is NoSuchEntity && final(store)@ == old(store)@,
            entity < old(store)@.len() ==> {
                let (s, ok) = apply_model(template_model(self), templates@, entity as nat, old(store)@, MAX_DEPTH as nat);
                &&& final(store)@ == s
                &&& r is Ok <==> ok
                &&& r is Err ==> r->Err_0 is TooDeep
            },
    {
        if entity >= store.len() {
            return Err(ApplyError::NoSuchEntity);
        }
        self.apply_bounded(templates, store, entity, MAX_DEPTH)
    }
}

} // verus!
