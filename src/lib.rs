//! A template engine for entity hierarchies: markup is parsed into named
//! templates, which are kept in a registry and instantiated onto entities of a
//! property store.
use vstd::prelude::*;

pub mod loading;
pub mod markup;
pub mod parser;
pub mod pon;
pub mod registry;
pub mod store;
pub mod subtree;
pub mod template;

use crate::loading::{first_template_model, load_events};
use crate::markup::{events_model, markup_events, read_events};
use crate::parser::{ParseError, error_model, is_value_parser, stack_model};
use crate::pon::Pon;
use crate::registry::TemplateRegistry;
use crate::store::{EntityId, EntityModel, EntityStore};
use crate::template::{
    ApplyError,
    MAX_DEPTH,
    Template,
    TemplateModel,
    apply_model,
    lemma_apply_keeps_properties,
    template_model,
};

verus! {

/// The store after applying, to each of the first `n` entities in turn, the
/// template registered for its type, and whether that succeeded.
pub open spec fn apply_all_model(reg: Map<Seq<char>, TemplateModel>, s: Seq<EntityModel>, n: nat) -> (Seq<EntityModel>, bool)
    decreases n,
{
    if n == 0 {
        (s, true)
    } else {
        let (s1, ok) = apply_all_model(reg, s, (n - 1) as nat);
        if !ok {
            (s1, false)
        } else {
            let k = s1[n - 1].kind;
            if reg.contains_key(k) {
                apply_model(reg[k], reg, (n - 1) as nat, s1, MAX_DEPTH as nat)
            } else {
                (s1, true)
            }
        }
    }
}

proof fn lemma_all_failed(reg: Map<Seq<char>, TemplateModel>, s: Seq<EntityModel>, n: nat, m: nat)
    requires
        n <= m,
        !apply_all_model(reg, s, n).1,
    ensures
        apply_all_model(reg, s, m) == apply_all_model(reg, s, n),
    decreases m,
{
    if n < m {
        lemma_all_failed(reg, s, n, (m - 1) as nat);
    }
}

/// The template engine: where template files are found, and the templates
/// loaded so far.
pub struct TemplateSubSystem {
    pub root_path: String,
    pub templates: TemplateRegistry,
}

impl TemplateSubSystem {
    /// An engine without templates, reading template files below `root_path`.
    pub fn new(root_path: String) -> (r: TemplateSubSystem)
        ensures
            r.root_path == root_path,
            r.templates@ == Map::<Seq<char>, TemplateModel>::empty(),
    {
        TemplateSubSystem { root_path, templates: TemplateRegistry::new() }
    }

    /// Registers a template under its type name; a later one replaces an
    /// earlier one of the same name.
    pub fn insert(&mut self, template: Template)
        ensures
            final(self).root_path == old(self).root_path,
            final(self).templates@ == old(self).templates@.insert(template.kind@, template_model(&template)),
    {
        self.templates.insert(template);
    }

    /// Parses the first template of `markup` and registers it.
    pub fn load_from_string<F: Fn(String) -> Result<Pon, String>>(&mut self, markup: &str, parse_value: &F) -> (r: Result<(), ParseError>)
        requires
            is_value_parser(*parse_value),
        ensures
            final(self).root_path == old(self).root_path,
            match first_template_model(*parse_value, markup@) {
                Ok(t) => r is Ok && final(self).templates@ == old(self).templates@.insert(t.kind, t),
                Err(x) => r is Err && error_model(&r->Err_0) == x && final(self).templates@ == old(self).templates@,
            },
    {
        match Template::from_string(markup, parse_value) {
            Ok(t) => {
                self.templates.insert(t);
                Ok(())
            },
            Err(x) => Err(x),
        }
    }

    /// Registers every template of a template file: the templates stand side by
    /// side, optionally inside one wrapper element, which is skipped. The
    /// templates read before an error stay registered.
    pub fn load_from_markup<F: Fn(String) -> Result<Pon, String>>(&mut self, text: &str, parse_value: &F) -> (r: Result<(), ParseError>)
        requires
            is_value_parser(*parse_value),
        ensures
            final(self).root_path == old(self).root_path,
            ({
                let (reg, err) = load_events(*parse_value, markup_events(text@), Seq::empty(), old(self).templates@);
                &&& final(self).templates@ == reg
                &&& match err {
                    None => r is Ok,
                    Some(x) => r is Err && error_model(&r->Err_0) == x,
                }
            }),
    {
        let mut events = read_events(text);
        let ghost all = markup_events(text@);
        let ghost f = *parse_value;
        let ghost goal = load_events(f, all, Seq::empty(), self.templates@);
        let mut template_stack: Vec<Template> = Vec::new();
        proof {
            assert(stack_model(template_stack@) =~= Seq::<TemplateModel>::empty());
            assert(events_model(events@) =~= all.subrange(0, all.len() as int));
        }
        while events.len() > 0
            invariant
                is_value_parser(*parse_value),
                f == *parse_value,
                all == markup_events(text@),
                goal == load_events(f, all, Seq::empty(), old(self).templates@),
                self.root_path == old(self).root_path,
                events_model(events@) == all.subrange(all.len() - events@.len(), all.len() as int),
                events@.len() <= all.len(),
                goal == load_events(f, events_model(events@), stack_model(template_stack@), self.templates@),
            decreases events@.len(),
        {
            let ghost em = events_model(events@);
            let e = events.remove(0);
            proof {
                assert(em.len() > 0);
                assert(em[0] == crate::markup::event_model(&e));
                assert(events_model(events@) =~= em.drop_first());
            }
            if !crate::loading::is_wrapper_event(&e) {
                match Template::parse_event(&mut template_stack, e, parse_value) {
                    Ok(Some(t)) => {
                        self.templates.insert(t);
                    },
                    Ok(None) => {},
                    Err(x) => {
                        return Err(x);
                    },
                }
            }
        }
        if template_stack.len() > 0 {
            return Err(ParseError::Incomplete);
        }
        Ok(())
    }

    /// Applies the template registered for the entity's type, if any, to the
    /// entity.
    pub fn apply_to_entity(&self, store: &mut EntityStore, entity: EntityId) -> (r: Result<(), ApplyError>)
        ensures
            entity >= old(store)@.len() ==> r is Err && r->Err_0 is NoSuchEntity && final(store)@ == old(store)@,
            entity < old(store)@.len() ==> {
                let k = old(store)@[entity as int].kind;
                if self.templates@.contains_key(k) {
                    let (s, ok) = apply_model(self.templates@[k], self.templates@, entity as nat, old(store)@, MAX_DEPTH as nat);
                    &&& final(store)@ == s
                    &&& r is Ok <==> ok
                    &&& r is Err ==> r->Err_0 is TooDeep
                } else {
                    r is Ok && final(store)@ == old(store)@
                }
            },
    {
        let kind = match store.get_entity_type_name(entity) {
            Ok(k) => k,
            Err(_) => {
                return Err(ApplyError::NoSuchEntity);
            },
        };
        match self.templates.get(&kind) {
            Some(t) => t.apply(&self.templates, store, entity),
            None => Ok(()),
        }
    }

    /// Applies to every entity of the store, in order, the template registered
    /// for its type; entities that this creates are not visited. Stops at the
    /// first error.
    pub fn apply_to_all(&self, store: &mut EntityStore) -> (r: Result<(), ApplyError>)
        ensures
            ({
                let (s, ok) = apply_all_model(self.templates@, old(store)@, old(store)@.len());
                &&& final(store)@ == s
                &&& r is Ok <==> ok
                &&& r is Err ==> r->Err_0 is TooDeep
            }),
    {
        let ghost s0 = store@;
        let ghost reg = self.templates@;
        let n = store.len();
        let mut i: usize = 0;
        while i < n
            invariant
                i <= n,
                n == s0.len(),
                s0 == old(store)@,
                reg == self.templates@,
                store@.len() >= n,
                (store@, true) == apply_all_model(reg, s0, i as nat),
            decreases n - i,
        {
            let ghost si = store@;
            let r = self.apply_to_entity(store, i);
            proof {
                let k = si[i as int].kind;
                if reg.contains_key(k) {
                    lemma_apply_keeps_properties(reg[k], reg, i as nat, si, MAX_DEPTH as nat);
                }
            }
            match r {
                Ok(()) => {},
                Err(e) => {
                    proof {
                        lemma_all_failed(reg, s0, (i + 1) as nat, n as nat);
                    }
                    return Err(e);
                },
            }
            i = i + 1;
        }
        Ok(())
    }
}

} // verus!
