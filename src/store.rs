//! The entity/property store that templates are instantiated onto.
//!
//! Entities are numbered in order of creation; each has a type, an optional
//! name, an optional parent and an ordered list of named properties.
use vstd::prelude::*;
use crate::pon::{Pon, PonModel, pon_model};

verus! {

/// Identifies an entity of an `EntityStore`: its position in creation order.
pub type EntityId = usize;

/// One entity with its properties.
pub struct Entity {
    pub kind: String,
    pub name: Option<String>,
    pub parent: Option<EntityId>,
    pub properties: Vec<(String, Pon)>,
}

/// The model of an entity.
pub struct EntityModel {
    pub kind: Seq<char>,
    pub name: Option<Seq<char>>,
    pub parent: Option<nat>,
    pub properties: Seq<(Seq<char>, PonModel)>,
}

/// Why a store operation could not be carried out.
#[derive(Debug, PartialEq)]
pub enum StoreError {
    /// The entity id names no entity of the store.
    NoSuchEntity,
    /// The entity has no property of that name.
    NoSuchProperty,
}

/// The model of an optional string.
pub open spec fn opt_str_model(o: Option<String>) -> Option<Seq<char>> {
    match o {
        Some(s) => Some(s@),
        None => None,
    }
}

/// The model of an optional entity id.
pub open spec fn opt_id_model(o: Option<EntityId>) -> Option<nat> {
    match o {
        Some(i) => Some(i as nat),
        None => None,
    }
}

/// The model of a property list.
pub open spec fn props_model(p: Seq<(String, Pon)>) -> Seq<(Seq<char>, PonModel)> {
    Seq::new(p.len(), |i: int| (p[i].0@, pon_model(&p[i].1)))
}

/// The model of an entity.
pub open spec fn entity_model(e: Entity) -> EntityModel {
    EntityModel {
        kind: e.kind@,
        name: opt_str_model(e.name),
        parent: opt_id_model(e.parent),
        properties: props_model(e.properties@),
    }
}

/// Whether a property list holds the key.
pub open spec fn has_key(props: Seq<(Seq<char>, PonModel)>, k: Seq<char>) -> bool {
    exists|i: int| 0 <= i < props.len() && #[trigger] props[i].0 == k
}

/// The first position of the key in a property list.
pub open spec fn is_first_key(props: Seq<(Seq<char>, PonModel)>, k: Seq<char>, i: int) -> bool {
    &&& 0 <= i < props.len()
    &&& props[i].0 == k
    &&& forall|j: int| 0 <= j < i ==> #[trigger] props[j].0 != k
}

/// The first position of a key that a property list holds.
pub open spec fn first_key(props: Seq<(Seq<char>, PonModel)>, k: Seq<char>) -> int {
    choose|i: int| is_first_key(props, k, i)
}

/// The value of a key in a property list: the value at its first position.
pub open spec fn property_value(props: Seq<(Seq<char>, PonModel)>, k: Seq<char>) -> Option<
    PonModel,
> {
    if has_key(props, k) {
        Some(props[first_key(props, k)].1)
    } else {
        None
    }
}

/// A property list after setting a key: the value replaced where the key
/// stands, else appended.
pub open spec fn set_key(props: Seq<(Seq<char>, PonModel)>, k: Seq<char>, v: PonModel) -> Seq<
    (Seq<char>, PonModel),
> {
    if has_key(props, k) {
        props.update(first_key(props, k), (k, v))
    } else {
        props.push((k, v))
    }
}

/// A new entity without properties.
pub open spec fn fresh_entity(kind: Seq<char>, name: Option<Seq<char>>, parent: Option<nat>) -> EntityModel {
    EntityModel { kind, name, parent, properties: Seq::empty() }
}

/// An entity with one of its properties set.
pub open spec fn with_property(e: EntityModel, k: Seq<char>, v: PonModel) -> EntityModel {
    EntityModel { properties: set_key(e.properties, k, v), ..e }
}

pub(crate) proof fn lemma_first_key(props: Seq<(Seq<char>, PonModel)>, k: Seq<char>, i: int)
    requires
        is_first_key(props, k, i),
    ensures
        has_key(props, k),
        first_key(props, k) == i,
{
    let c = first_key(props, k);
    assert(is_first_key(props, k, c));
    if c < i {
        assert(props[c].0 != k);
    }
    if i < c {
        assert(props[i].0 != k);
    }
}

pub(crate) proof fn lemma_has_first_key(props: Seq<(Seq<char>, PonModel)>, k: Seq<char>)
    requires
        has_key(props, k),
    ensures
        is_first_key(props, k, first_key(props, k)),
    decreases props.len(),
{
    let w = choose|i: int| 0 <= i < props.len() && #[trigger] props[i].0 == k;
    let d = props.drop_last();
    if has_key(d, k) {
        lemma_has_first_key(d, k);
        let c = first_key(d, k);
        assert forall|j: int| 0 <= j < c implies #[trigger] props[j].0 != k by {
            assert(d[j] == props[j]);
        }
        assert(d[c] == props[c]);
        assert(is_first_key(props, k, c));
        lemma_first_key(props, k, c);
    } else {
        let n = props.len() - 1;
        assert forall|j: int| 0 <= j < n implies #[trigger] props[j].0 != k by {
            if props[j].0 == k {
                assert(d[j].0 == k);
            }
        }
        assert(w == n) by {
            if w < n {
                assert(d[w].0 == k);
            }
        }
        assert(is_first_key(props, k, n));
        lemma_first_key(props, k, n);
    }
}

/// Appending a key that a property list lacks keeps the value of every key it
/// has.
pub(crate) proof fn lemma_push_keeps(props: Seq<(Seq<char>, PonModel)>, k: Seq<char>, v: PonModel, k2: Seq<char>)
    requires
        has_key(props, k2),
        !has_key(props, k),
    ensures
        has_key(props.push((k, v)), k2),
        property_value(props.push((k, v)), k2) == property_value(props, k2),
{
    let pushed = props.push((k, v));
    lemma_has_first_key(props, k2);
    let f = first_key(props, k2);
    assert(pushed[f] == props[f]);
    assert forall|j: int| 0 <= j < f implies #[trigger] pushed[j].0 != k2 by {
        assert(pushed[j] == props[j]);
    }
    assert(is_first_key(pushed, k2, f));
    lemma_first_key(pushed, k2, f);
}

/// The position of the first property named `key`, if any.
fn find_key(props: &Vec<(String, Pon)>, key: &String) -> (r: Option<usize>)
    ensures
        match r {
            Some(i) => is_first_key(props_model(props@), key@, i as int),
            None => !has_key(props_model(props@), key@),
        },
{
    let ghost m = props_model(props@);
    let mut i: usize = 0;
    while i < props.len()
        invariant
            i <= props.len(),
            m == props_model(props@),
            forall|j: int| 0 <= j < i ==> #[trigger] m[j].0 != key@,
        decreases props.len() - i,
    {
        if props[i].0 == *key {
            return Some(i);
        }
        i = i + 1;
    }
    None
}

/// An entity/property store.
pub struct EntityStore {
    entities: Vec<Entity>,
}

impl View for EntityStore {
    type V = Seq<EntityModel>;

    closed spec fn view(&self) -> Seq<EntityModel> {
        Seq::new(self.entities@.len(), |i: int| entity_model(self.entities@[i]))
    }
}

impl EntityStore {
    /// A store without entities.
    pub fn new() -> (r: EntityStore)
        ensures
            r@ == Seq::<EntityModel>::empty(),
    {
        let r = EntityStore { entities: Vec::new() };
        assert(r@ =~= Seq::<EntityModel>::empty());
        r
    }

    /// The number of entities.
    pub fn len(&self) -> (r: usize)
        ensures
            r == self@.len(),
    {
        self.entities.len()
    }

    /// Creates an entity of type `kind`, under `parent` where one is given.
    /// Its id is the number of entities before it.
    pub fn append_entity(&mut self, parent: Option<EntityId>, kind: String, name: Option<String>) -> (r: Result<EntityId, StoreError>)
        ensures
            match parent {
                Some(p) if p >= old(self)@.len() => r is Err && r->Err_0 is NoSuchEntity && final(self)@ == old(self)@,
                _ => r == Ok::<EntityId, StoreError>(old(self)@.len() as EntityId)
                    && final(self)@ == old(self)@.push(fresh_entity(kind@, opt_str_model(name), opt_id_model(parent))),
            },
    {
        if let Some(p) = parent {
            if p >= self.entities.len() {
                return Err(StoreError::NoSuchEntity);
            }
        }
        let id = self.entities.len();
        let e = Entity { kind, name, parent, properties: Vec::new() };
        proof {
            assert(props_model(e.properties@) =~= Seq::<(Seq<char>, PonModel)>::empty());
        }
        self.entities.push(e);
        proof {
            assert(self@ =~= old(self)@.push(fresh_entity(kind@, opt_str_model(name), opt_id_model(parent))));
        }
        Ok(id)
    }

    /// Whether the entity has a property named `key`.
    pub fn has_property(&self, entity: EntityId, key: &String) -> (r: Result<bool, StoreError>)
        ensures
            entity >= self@.len() ==> r is Err && r->Err_0 is NoSuchEntity,
            entity < self@.len() ==> r == Ok::<bool, StoreError>(has_key(self@[entity as int].properties, key@)),
    {
        if entity >= self.entities.len() {
            return Err(StoreError::NoSuchEntity);
        }
        match find_key(&self.entities[entity].properties, key) {
            Some(_) => Ok(true),
            None => Ok(false),
        }
    }

    /// Sets the property `key` of the entity to `value`, in place where it
    /// exists, else after the others.
    pub fn set_property(&mut self, entity: EntityId, key: String, value: Pon) -> (r: Result<(), StoreError>)
        ensures
            entity >= old(self)@.len() ==> r is Err && r->Err_0 is NoSuchEntity && final(self)@ == old(self)@,
            entity < old(self)@.len() ==> r is Ok && final(self)@ == old(self)@.update(
                entity as int,
                with_property(old(self)@[entity as int], key@, pon_model(&value)),
            ),
    {
        if entity >= self.entities.len() {
            return Err(StoreError::NoSuchEntity);
        }
        let ghost k = key@;
        let ghost v = pon_model(&value);
        let ghost before = self.entities@[entity as int];
        let mut e = self.entities.remove(entity);
        let found = find_key(&e.properties, &key);
        let ghost pm = props_model(e.properties@);
        match found {
            Some(i) => {
                proof {
                    lemma_first_key(pm, k, i as int);
                }
                e.properties.set(i, (key, value));
                proof {
                    assert(props_model(e.properties@) =~= set_key(pm, k, v));
                }
            },
            None => {
                e.properties.push((key, value));
                proof {
                    assert(props_model(e.properties@) =~= set_key(pm, k, v));
                }
            },
        }
        self.entities.insert(entity, e);
        proof {
            assert(self@ =~= old(self)@.update(entity as int, with_property(old(self)@[entity as int], k, v)));
        }
        Ok(())
    }

    /// The value of the entity's property `key`.
    pub fn get_property_value(&self, entity: EntityId, key: &String) -> (r: Result<Pon, StoreError>)
        ensures
            entity >= self@.len() ==> r is Err && r->Err_0 is NoSuchEntity,
            entity < self@.len() ==> match property_value(self@[entity as int].properties, key@) {
                Some(v) => r is Ok && pon_model(&r->Ok_0) == v,
                None => r is Err && r->Err_0 is NoSuchProperty,
            },
    {
        if entity >= self.entities.len() {
            return Err(StoreError::NoSuchEntity);
        }
        let props = &self.entities[entity].properties;
        match find_key(props, key) {
            Some(i) => {
                proof {
                    lemma_first_key(props_model(props@), key@, i as int);
                }
                Ok(props[i].1.duplicate())
            },
            None => Err(StoreError::NoSuchProperty),
        }
    }

    /// The type of the entity.
    pub fn get_entity_type_name(&self, entity: EntityId) -> (r: Result<String, StoreError>)
        ensures
            entity >= self@.len() ==> r is Err && r->Err_0 is NoSuchEntity,
            entity < self@.len() ==> r is Ok && r->Ok_0@ == self@[entity as int].kind,
    {
        if entity >= self.entities.len() {
            return Err(StoreError::NoSuchEntity);
        }
        Ok(self.entities[entity].kind.clone())
    }

    /// The children of the entity, in order of creation.
    pub fn get_children(&self, entity: EntityId) -> (r: Result<Vec<EntityId>, StoreError>)
        ensures
            entity >= self@.len() ==> r is Err && r->Err_0 is NoSuchEntity,
            entity < self@.len() ==> r is Ok && {
                let c = r->Ok_0@;
                &&& forall|i: int, j: int| 0 <= i < j < c.len() ==> c[i] < c[j]
                &&& forall|i: int| 0 <= i < c.len() ==> (c[i] as int) < self@.len() && #[trigger] self@[c[i] as int].parent == Some(entity as nat)
                &&& forall|k: int| 0 <= k < self@.len() && #[trigger] self@[k].parent == Some(entity as nat) ==> c.contains(k as EntityId)
            },
    {
        if entity >= self.entities.len() {
            return Err(StoreError::NoSuchEntity);
        }
        let mut c: Vec<EntityId> = Vec::new();
        let mut k: usize = 0;
        while k < self.entities.len()
            invariant
                k <= self@.len(),
                forall|i: int, j: int| 0 <= i < j < c@.len() ==> c@[i] < c@[j],
                forall|i: int| 0 <= i < c@.len() ==> #[trigger] c@[i] < k,
                forall|i: int| 0 <= i < c@.len() ==> #[trigger] self@[c@[i] as int].parent == Some(entity as nat),
                forall|m: int| 0 <= m < k && #[trigger] self@[m].parent == Some(entity as nat) ==> c@.contains(m as EntityId),
            decreases self@.len() - k,
        {
            let ghost c0 = c@;
            if self.entities[k].parent == Some(entity) {
                c.push(k);
            }
            proof {
                assert(self@[k as int].parent == opt_id_model(self.entities@[k as int].parent));
                assert forall|i: int, j: int| 0 <= i < j < c@.len() implies c@[i] < c@[j] by {
                    if j == c0.len() {
                        assert(c0[i] < k);
                    }
                }
                assert forall|m: int| 0 <= m < k + 1 && #[trigger] self@[m].parent == Some(entity as nat) implies c@.contains(m as EntityId) by {
                    if m == k {
                        assert(c@[c@.len() - 1] == k);
                    } else {
                        assert(c0.contains(m as EntityId));
                        let w = choose|w: int| 0 <= w < c0.len() && c0[w] == m as EntityId;
                        assert(c@[w] == m as EntityId);
                    }
                }
            }
            k = k + 1;
        }
        Ok(c)
    }

    /// The first entity with the given name.
    pub fn get_entity_by_name(&self, name: &String) -> (r: Option<EntityId>)
        ensures
            match r {
                Some(i) => (i as int) < self@.len() && self@[i as int].name == Some(name@)
                    && forall|j: int| 0 <= j < i ==> #[trigger] self@[j].name != Some(name@),
                None => forall|j: int| 0 <= j < self@.len() ==> #[trigger] self@[j].name != Some(name@),
            },
    {
        let mut i: usize = 0;
        while i < self.entities.len()
            invariant
                i <= self@.len(),
                forall|j: int| 0 <= j < i ==> #[trigger] self@[j].name != Some(name@),
            decreases self@.len() - i,
        {
            match &self.entities[i].name {
                Some(n) => {
                    if *n == *name {
                        return Some(i);
                    }
                },
                None => {},
            }
            i = i + 1;
        }
        None
    }
}

} // verus!
