//! Instantiation depends on the target entity's own properties alone: two
//! targets with equal properties receive equal properties and subtrees of the
//! same shape, wherever they stand and whatever else the stores hold.
use vstd::prelude::*;
use crate::store::{EntityModel, fresh_entity, with_property};
use crate::template::{TemplateModel, apply_children, apply_model, set_defaults};

verus! {

/// Where an entity of the first store corresponds in the second: the target
/// `e` to the target `ee`, and the entity created at `b + j` to `bb + j`.
pub open spec fn map_id(i: int, b: int, bb: int, e: int, ee: int) -> int {
    if i == e {
        ee
    } else {
        i - b + bb
    }
}

/// Two created entities alike: the same type, name and properties, and
/// corresponding parents.
pub open spec fn corresponds(x: EntityModel, y: EntityModel, b: int, bb: int, e: int, ee: int) -> bool {
    &&& x.kind == y.kind
    &&& x.name == y.name
    &&& x.properties == y.properties
    &&& match x.parent {
        Some(p) => y.parent == Some(map_id(p as int, b, bb, e, ee) as nat),
        None => y.parent is None,
    }
}

/// Stores `r` and `rr` grew from stores of lengths `b` and `bb` by equal
/// subtrees under the targets `e` and `ee`: the targets have equal properties,
/// and the entities created after `b` and after `bb` correspond one to one.
pub open spec fn same_subtree(r: Seq<EntityModel>, rr: Seq<EntityModel>, b: int, bb: int, e: int, ee: int) -> bool {
    &&& 0 <= e < b <= r.len()
    &&& 0 <= ee < bb <= rr.len()
    &&& r.len() - b == rr.len() - bb
    &&& r[e].properties == rr[ee].properties
    &&& forall|j: int| b <= j < r.len() ==> #[trigger] corresponds(r[j], rr[j - b + bb], b, bb, e, ee)
}

proof fn lemma_defaults_same(
    props: Seq<(Seq<char>, crate::pon::PonModel)>,
    r: Seq<EntityModel>,
    rr: Seq<EntityModel>,
    b: int,
    bb: int,
    e: int,
    ee: int,
    x: int,
)
    requires
        same_subtree(r, rr, b, bb, e, ee),
        x == e || b <= x < r.len(),
    ensures
        same_subtree(
            set_defaults(props, x as nat, r),
            set_defaults(props, map_id(x, b, bb, e, ee) as nat, rr),
            b,
            bb,
            e,
            ee,
        ),
    decreases props.len(),
{
    if props.len() > 0 {
        let y = map_id(x, b, bb, e, ee);
        lemma_defaults_same(props.drop_last(), r, rr, b, bb, e, ee, x);
        let r1 = set_defaults(props.drop_last(), x as nat, r);
        let rr1 = set_defaults(props.drop_last(), y as nat, rr);
        crate::template::lemma_set_defaults_keeps(props.drop_last(), x as nat, r);
        crate::template::lemma_set_defaults_keeps(props.drop_last(), y as nat, rr);
        let (k, v) = props.last();
        if x != e {
            assert(corresponds(r1[x], rr1[x - b + bb], b, bb, e, ee));
        }
        assert(r1[x].properties == rr1[y].properties);
        let r2 = set_defaults(props, x as nat, r);
        let rr2 = set_defaults(props, y as nat, rr);
        if !crate::store::has_key(r1[x].properties, k) {
            assert(r2 == r1.update(x, with_property(r1[x], k, v)));
            assert(rr2 == rr1.update(y, with_property(rr1[y], k, v)));
            assert forall|j: int| b <= j < r2.len() implies #[trigger] corresponds(r2[j], rr2[j - b + bb], b, bb, e, ee) by {
                assert(corresponds(r1[j], rr1[j - b + bb], b, bb, e, ee));
            }
        }
    }
}

/// Applying one template to corresponding targets keeps the subtrees alike,
/// with the same outcome.
proof fn lemma_apply_same(
    t: TemplateModel,
    reg: Map<Seq<char>, TemplateModel>,
    r: Seq<EntityModel>,
    rr: Seq<EntityModel>,
    b: int,
    bb: int,
    e: int,
    ee: int,
    x: int,
    depth: nat,
)
    requires
        same_subtree(r, rr, b, bb, e, ee),
        x == e || b <= x < r.len(),
    ensures
        ({
            let (s, ok) = apply_model(t, reg, x as nat, r, depth);
            let (ss, okk) = apply_model(t, reg, map_id(x, b, bb, e, ee) as nat, rr, depth);
            same_subtree(s, ss, b, bb, e, ee) && ok == okk && s.len() >= r.len()
        }),
    decreases depth, 0nat,
{
    let y = map_id(x, b, bb, e, ee);
    if depth > 0 {
        let (s1, ok) = match t.inherits {
            Some(n) => if reg.contains_key(n) {
                apply_model(reg[n], reg, x as nat, r, (depth - 1) as nat)
            } else {
                (r, true)
            },
            None => (r, true),
        };
        let (ss1, okk) = match t.inherits {
            Some(n) => if reg.contains_key(n) {
                apply_model(reg[n], reg, y as nat, rr, (depth - 1) as nat)
            } else {
                (rr, true)
            },
            None => (rr, true),
        };
        match t.inherits {
            Some(n) => if reg.contains_key(n) {
                lemma_apply_same(reg[n], reg, r, rr, b, bb, e, ee, x, (depth - 1) as nat);
            },
            None => {},
        }
        if ok {
            lemma_defaults_same(t.properties, s1, ss1, b, bb, e, ee, x);
            let s2 = set_defaults(t.properties, x as nat, s1);
            let ss2 = set_defaults(t.properties, y as nat, ss1);
            crate::template::lemma_set_defaults_keeps(t.properties, x as nat, s1);
            lemma_children_same(t.children, reg, s2, ss2, b, bb, e, ee, x, (depth - 1) as nat, t.children.len());
        }
    }
}

proof fn lemma_children_same(
    children: Seq<TemplateModel>,
    reg: Map<Seq<char>, TemplateModel>,
    r: Seq<EntityModel>,
    rr: Seq<EntityModel>,
    b: int,
    bb: int,
    e: int,
    ee: int,
    x: int,
    depth: nat,
    n: nat,
)
    requires
        same_subtree(r, rr, b, bb, e, ee),
        x == e || b <= x < r.len(),
    ensures
        ({
            let (s, ok) = apply_children(children, reg, x as nat, r, depth, n);
            let (ss, okk) = apply_children(children, reg, map_id(x, b, bb, e, ee) as nat, rr, depth, n);
            same_subtree(s, ss, b, bb, e, ee) && ok == okk && s.len() >= r.len()
        }),
    decreases depth, n,
{
    if n > 0 {
        let y = map_id(x, b, bb, e, ee);
        lemma_children_same(children, reg, r, rr, b, bb, e, ee, x, depth, (n - 1) as nat);
        let (s1, ok) = apply_children(children, reg, x as nat, r, depth, (n - 1) as nat);
        let (ss1, okk) = apply_children(children, reg, y as nat, rr, depth, (n - 1) as nat);
        if ok {
            let c = children[n - 1];
            let s2 = s1.push(fresh_entity(c.kind, None, Some(x as nat)));
            let ss2 = ss1.push(fresh_entity(c.kind, None, Some(y as nat)));
            assert forall|j: int| b <= j < s2.len() implies #[trigger] corresponds(s2[j], ss2[j - b + bb], b, bb, e, ee) by {
                if j < s1.len() {
                    assert(corresponds(s1[j], ss1[j - b + bb], b, bb, e, ee));
                }
            }
            assert(s2[e] == s1[e]);
            assert(ss2[ee] == ss1[ee]);
            assert(same_subtree(s2, ss2, b, bb, e, ee));
            assert(map_id(s1.len() as int, b, bb, e, ee) == ss1.len());
            lemma_apply_same(c, reg, s2, ss2, b, bb, e, ee, s1.len() as int, depth);
        }
    }
}

/// Applying a template to two entities whose properties are equal, in the
/// same store or in two stores, has the same outcome, gives the two entities
/// equal properties, and creates under them subtrees of the same shape: as
/// many entities, in the same order, with the same types, names, properties
/// and parent links.
pub proof fn lemma_apply_same_subtree(
    t: TemplateModel,
    reg: Map<Seq<char>, TemplateModel>,
    s: Seq<EntityModel>,
    e: nat,
    ss: Seq<EntityModel>,
    ee: nat,
    depth: nat,
)
    requires
        e < s.len(),
        ee < ss.len(),
        s[e as int].properties == ss[ee as int].properties,
    ensures
        ({
            let (r, ok) = apply_model(t, reg, e, s, depth);
            let (rr, okk) = apply_model(t, reg, ee, ss, depth);
            same_subtree(r, rr, s.len() as int, ss.len() as int, e as int, ee as int) && ok == okk
        }),
{
    assert(same_subtree(s, ss, s.len() as int, ss.len() as int, e as int, ee as int));
    lemma_apply_same(t, reg, s, ss, s.len() as int, ss.len() as int, e as int, ee as int, e as int, depth);
}

} // verus!
