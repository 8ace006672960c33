use pyramid_template::loading::{template_sources, TemplateSource};
use pyramid_template::markup::{Attribute, MarkupEvent};
use pyramid_template::parser::ParseError;
use pyramid_template::pon::{Pon, TranslateError};
use pyramid_template::registry::TemplateRegistry;
use pyramid_template::store::{EntityId, EntityStore, StoreError};
use pyramid_template::template::{ApplyError, Template};
use pyramid_template::TemplateSubSystem;

/// Reads integers; every other text is refused.
fn parse_value(s: String) -> Result<Pon, String> {
    match s.trim().parse::<i64>() {
        Ok(n) => Ok(Pon::Integer(n)),
        Err(e) => Err(e.to_string()),
    }
}

fn s(x: &str) -> String {
    x.to_string()
}

fn store_with(kind: &str, name: &str) -> (EntityStore, EntityId) {
    let mut store = EntityStore::new();
    let e = store.append_entity(None, s(kind), Some(s(name))).unwrap();
    (store, e)
}

fn inline(markup: &str) -> Pon {
    Pon::Transform { name: s("template"), data: Box::new(Pon::Str(s(markup))) }
}

/// Loads what a directive lists (inline templates only) and applies the
/// templates to every entity of the store, as a host does when a document
/// loads.
fn load_and_apply(system: &mut TemplateSubSystem, directive: &Pon, store: &mut EntityStore) {
    let plan = template_sources(directive);
    assert!(plan.error.is_none());
    for source in &plan.sources {
        match source {
            TemplateSource::Inline(m) => system.load_from_string(m, &parse_value).unwrap(),
            TemplateSource::File(_) => panic!("no files here"),
        }
    }
    system.apply_to_all(store).unwrap();
}

#[test]
fn test_template() {
    let template = r#"<Rock x="5"/>"#;
    let directive = Pon::Array(vec![inline(template)]);
    let mut store = EntityStore::new();
    let root = store.append_entity(None, s("Root"), None).unwrap();
    store.append_entity(Some(root), s("Rock"), Some(s("tmp"))).unwrap();
    let ent = store.get_entity_by_name(&s("tmp")).unwrap();

    let mut system = TemplateSubSystem::new(String::new());
    load_and_apply(&mut system, &directive, &mut store);

    assert_eq!(store.get_property_value(ent, &s("x")), Ok(Pon::Integer(5)));
}

#[test]
fn test_template_inherits() {
    let template1 = r#"<Rock x="5"/>"#;
    let template2 = r#"<Granit inherits="Rock" y="2"/>"#;
    let directive = Pon::Array(vec![inline(template1), inline(template2)]);
    let mut store = EntityStore::new();
    let root = store.append_entity(None, s("Root"), None).unwrap();
    store.append_entity(Some(root), s("Granit"), Some(s("tmp"))).unwrap();
    let ent = store.get_entity_by_name(&s("tmp")).unwrap();

    let mut system = TemplateSubSystem::new(String::new());
    load_and_apply(&mut system, &directive, &mut store);

    assert_eq!(store.get_property_value(ent, &s("x")), Ok(Pon::Integer(5)));
    assert_eq!(store.get_property_value(ent, &s("y")), Ok(Pon::Integer(2)));
}

#[test]
fn test_template_from_string() {
    let str = r#"<Stone x="5"><Candle /></Stone>"#;
    let template = Template::from_string(str, &parse_value).unwrap();
    assert_eq!(
        template,
        Template {
            kind: "Stone".to_string(),
            inherits: None,
            properties: vec![("x".to_string(), Pon::Integer(5))],
            children: vec![Template {
                kind: "Candle".to_string(),
                inherits: None,
                properties: vec![],
                children: vec![]
            }]
        }
    )
}

#[test]
fn test_template_apply() {
    let str = r#"<Stone x="5"><Candle /></Stone>"#;
    let template = Template::from_string(str, &parse_value).unwrap();
    let (mut doc, _) = store_with("Stone", "tmp");
    let ent = doc.get_entity_by_name(&s("tmp")).unwrap();

    template.apply(&TemplateRegistry::new(), &mut doc, ent).unwrap();

    assert_eq!(doc.get_property_value(ent, &s("x")), Ok(Pon::Integer(5)));
    assert_eq!(doc.get_children(ent).unwrap().len(), 1);
}

#[test]
fn test_template_apply_dont_overwrite() {
    let str = r#"<Stone x="5" />"#;
    let template = Template::from_string(str, &parse_value).unwrap();
    let (mut doc, _) = store_with("Stone", "tmp");
    let ent = doc.get_entity_by_name(&s("tmp")).unwrap();
    doc.set_property(ent, s("x"), Pon::Integer(7)).unwrap();

    template.apply(&TemplateRegistry::new(), &mut doc, ent).unwrap();

    assert_eq!(doc.get_property_value(ent, &s("x")), Ok(Pon::Integer(7)));
}

#[test]
fn applied_child_has_its_type() {
    let template = Template::from_string(r#"<Stone x="5"><Candle /></Stone>"#, &parse_value).unwrap();
    let (mut doc, ent) = store_with("Stone", "tmp");
    template.apply(&TemplateRegistry::new(), &mut doc, ent).unwrap();
    let children = doc.get_children(ent).unwrap();
    assert_eq!(children.len(), 1);
    assert_eq!(doc.get_entity_type_name(children[0]), Ok(s("Candle")));
    assert_eq!(doc.len(), 2);
}

#[test]
fn inherited_chain_applies_base_first() {
    let mut registry = TemplateRegistry::new();
    registry.insert(Template::from_string(r#"<Rock x="5" z="1"/>"#, &parse_value).unwrap());
    registry.insert(Template::from_string(r#"<Granit inherits="Rock" x="9" y="2"/>"#, &parse_value).unwrap());
    let granit = Template::from_string(r#"<Marble inherits="Granit" w="3"/>"#, &parse_value).unwrap();
    let (mut doc, ent) = store_with("Marble", "m");
    granit.apply(&registry, &mut doc, ent).unwrap();
    // The base's value for x stands: templates never reclaim a key.
    assert_eq!(doc.get_property_value(ent, &s("x")), Ok(Pon::Integer(5)));
    assert_eq!(doc.get_property_value(ent, &s("y")), Ok(Pon::Integer(2)));
    assert_eq!(doc.get_property_value(ent, &s("z")), Ok(Pon::Integer(1)));
    assert_eq!(doc.get_property_value(ent, &s("w")), Ok(Pon::Integer(3)));
}

#[test]
fn later_load_replaces_earlier() {
    let mut system = TemplateSubSystem::new(String::new());
    system.load_from_string(r#"<Rock x="5"/>"#, &parse_value).unwrap();
    system.load_from_string(r#"<Rock y="6"/>"#, &parse_value).unwrap();
    let t = system.templates.get(&s("Rock")).unwrap();
    assert_eq!(t.properties, vec![(s("y"), Pon::Integer(6))]);
    let (mut doc, ent) = store_with("Rock", "r");
    system.apply_to_entity(&mut doc, ent).unwrap();
    assert_eq!(doc.get_property_value(ent, &s("x")), Err(StoreError::NoSuchProperty));
    assert_eq!(doc.get_property_value(ent, &s("y")), Ok(Pon::Integer(6)));
}

#[test]
fn missing_base_is_skipped() {
    let t = Template::from_string(r#"<Granit inherits="Nowhere" y="2"><Moss /></Granit>"#, &parse_value).unwrap();
    assert_eq!(t.inherits, Some(s("Nowhere")));
    let (mut doc, ent) = store_with("Granit", "g");
    assert_eq!(t.apply(&TemplateRegistry::new(), &mut doc, ent), Ok(()));
    assert_eq!(doc.get_property_value(ent, &s("y")), Ok(Pon::Integer(2)));
    assert_eq!(doc.get_children(ent).unwrap().len(), 1);
    assert_eq!(doc.get_property_value(ent, &s("inherits")), Err(StoreError::NoSuchProperty));
}

#[test]
fn apply_is_deterministic() {
    let t = Template::from_string(r#"<A p="1"><B q="2"><C /></B><D r="3" /></A>"#, &parse_value).unwrap();
    let run = || {
        let (mut doc, ent) = store_with("A", "a");
        t.apply(&TemplateRegistry::new(), &mut doc, ent).unwrap();
        let mut out = vec![];
        for e in 0..doc.len() {
            out.push((
                doc.get_entity_type_name(e).unwrap(),
                doc.get_children(e).unwrap(),
                doc.get_property_value(e, &s("p")),
                doc.get_property_value(e, &s("q")),
                doc.get_property_value(e, &s("r")),
            ));
        }
        out
    };
    let first = run();
    assert_eq!(first.len(), 4);
    assert_eq!(first, run());
}

#[test]
fn inheritance_cycle_is_too_deep() {
    let mut registry = TemplateRegistry::new();
    registry.insert(Template::from_string(r#"<A inherits="B" a="1"/>"#, &parse_value).unwrap());
    registry.insert(Template::from_string(r#"<B inherits="A" b="2"/>"#, &parse_value).unwrap());
    let a = registry.get(&s("A")).unwrap();
    let (mut doc, ent) = store_with("A", "a");
    assert_eq!(a.apply(&registry, &mut doc, ent), Err(ApplyError::TooDeep));
}

#[test]
fn apply_to_missing_entity_fails() {
    let t = Template::from_string(r#"<A a="1"/>"#, &parse_value).unwrap();
    let mut doc = EntityStore::new();
    assert_eq!(t.apply(&TemplateRegistry::new(), &mut doc, 3), Err(ApplyError::NoSuchEntity));
    assert_eq!(doc.len(), 0);
}

#[test]
fn bad_property_value_is_reported() {
    let r = Template::from_string(r#"<A a="1" b="oops"/>"#, &parse_value);
    match r {
        Err(ParseError::Property { value, .. }) => assert_eq!(value, s("oops")),
        other => panic!("unexpected {:?}", other),
    }
}

#[test]
fn malformed_markup_is_reported() {
    let r = Template::from_string(r#"<A a="1"><B></A>"#, &parse_value);
    assert!(matches!(r, Err(ParseError::Markup { .. })));
}

#[test]
fn empty_markup_is_an_error() {
    assert!(Template::from_string("", &parse_value).is_err());
}

#[test]
fn end_without_start_is_unbalanced() {
    let mut stack = vec![];
    let r = Template::parse_event(&mut stack, MarkupEvent::EndElement { name: s("A") }, &parse_value);
    assert_eq!(r, Err(ParseError::Unbalanced));
    assert!(stack.is_empty());
}

#[test]
fn parse_event_builds_tree() {
    let mut stack = vec![];
    let start = |n: &str, attrs: Vec<(&str, &str)>| MarkupEvent::StartElement {
        name: s(n),
        attributes: attrs.into_iter().map(|(k, v)| Attribute { name: s(k), value: s(v) }).collect(),
    };
    assert_eq!(Template::parse_event(&mut stack, start("A", vec![("inherits", "Z"), ("x", "4")]), &parse_value), Ok(None));
    assert_eq!(Template::parse_event(&mut stack, start("B", vec![]), &parse_value), Ok(None));
    assert_eq!(stack.len(), 2);
    assert_eq!(Template::parse_event(&mut stack, MarkupEvent::Other, &parse_value), Ok(None));
    assert_eq!(Template::parse_event(&mut stack, MarkupEvent::EndElement { name: s("B") }, &parse_value), Ok(None));
    let done = Template::parse_event(&mut stack, MarkupEvent::EndElement { name: s("A") }, &parse_value).unwrap().unwrap();
    assert!(stack.is_empty());
    assert_eq!(done.kind, s("A"));
    assert_eq!(done.inherits, Some(s("Z")));
    assert_eq!(done.properties, vec![(s("x"), Pon::Integer(4))]);
    assert_eq!(done.children.len(), 1);
    assert_eq!(done.children[0].kind, s("B"));
    let err = Template::parse_event(&mut stack, MarkupEvent::Error { message: s("bad") }, &parse_value);
    assert_eq!(err, Err(ParseError::Markup { message: s("bad") }));
}

#[test]
fn template_file_with_wrapper() {
    let mut system = TemplateSubSystem::new(s("root"));
    let text = r#"<Tpml><Rock x="5"/><Granit inherits="Rock" y="2"><Moss /></Granit></Tpml>"#;
    assert_eq!(system.load_from_markup(text, &parse_value), Ok(()));
    assert_eq!(system.templates.get(&s("Rock")).unwrap().properties, vec![(s("x"), Pon::Integer(5))]);
    let g = system.templates.get(&s("Granit")).unwrap();
    assert_eq!(g.children.len(), 1);
    assert!(system.templates.get(&s("Tpml")).is_none());
    assert!(system.templates.get(&s("Moss")).is_none());
}

#[test]
fn template_file_error_keeps_earlier_templates() {
    let mut system = TemplateSubSystem::new(s("root"));
    let text = r#"<Tpml><Rock x="5"/><Granit y="bad"/></Tpml>"#;
    assert!(matches!(system.load_from_markup(text, &parse_value), Err(ParseError::Property { .. })));
    assert!(system.templates.get(&s("Rock")).is_some());
    assert!(system.templates.get(&s("Granit")).is_none());
}

#[test]
fn directive_sources_in_order() {
    let directive = Pon::Array(vec![
        inline("<A/>"),
        Pon::Transform { name: s("templates_from_file"), data: Box::new(Pon::Str(s("t.xml"))) },
    ]);
    let plan = template_sources(&directive);
    assert_eq!(plan.sources, vec![TemplateSource::Inline(s("<A/>")), TemplateSource::File(s("t.xml"))]);
    assert_eq!(plan.error, None);
}

#[test]
fn directive_errors() {
    assert_eq!(template_sources(&Pon::Integer(1)).error, Some(TranslateError::ExpectedArray));
    let plan = template_sources(&Pon::Array(vec![inline("<A/>"), Pon::Integer(2), inline("<B/>")]));
    assert_eq!(plan.sources, vec![TemplateSource::Inline(s("<A/>"))]);
    assert_eq!(plan.error, Some(TranslateError::ExpectedTransform));
    let bad_arg = Pon::Transform { name: s("template"), data: Box::new(Pon::Integer(3)) };
    assert_eq!(template_sources(&Pon::Array(vec![bad_arg])).error, Some(TranslateError::ExpectedString));
    let unknown = Pon::Transform { name: s("prefab"), data: Box::new(Pon::Str(s("x"))) };
    assert_eq!(template_sources(&Pon::Array(vec![unknown])).error, Some(TranslateError::UnrecognizedType(s("prefab"))));
}

#[test]
fn store_set_and_replace() {
    let (mut doc, e) = store_with("A", "a");
    assert_eq!(doc.has_property(e, &s("k")), Ok(false));
    doc.set_property(e, s("k"), Pon::Integer(1)).unwrap();
    doc.set_property(e, s("k"), Pon::Str(s("two"))).unwrap();
    assert_eq!(doc.has_property(e, &s("k")), Ok(true));
    assert_eq!(doc.get_property_value(e, &s("k")), Ok(Pon::Str(s("two"))));
    assert_eq!(doc.has_property(9, &s("k")), Err(StoreError::NoSuchEntity));
    assert_eq!(doc.append_entity(Some(9), s("B"), None), Err(StoreError::NoSuchEntity));
    assert_eq!(doc.get_entity_by_name(&s("zz")), None);
}

#[test]
fn two_fresh_entities_get_same_subtree() {
    let t = Template::from_string(r#"<A p="1"><B q="2"><C /></B><D r="3" /></A>"#, &parse_value).unwrap();
    let mut doc = EntityStore::new();
    let e1 = doc.append_entity(None, s("A"), None).unwrap();
    let e2 = doc.append_entity(None, s("A"), None).unwrap();
    let registry = TemplateRegistry::new();
    t.apply(&registry, &mut doc, e1).unwrap();
    let mid = doc.len();
    t.apply(&registry, &mut doc, e2).unwrap();
    assert_eq!(mid, 5);
    assert_eq!(doc.len(), 8);
    for j in 0..3 {
        let (a, b) = (2 + j, mid + j);
        assert_eq!(doc.get_entity_type_name(a), doc.get_entity_type_name(b));
        for key in ["p", "q", "r"] {
            assert_eq!(doc.get_property_value(a, &s(key)), doc.get_property_value(b, &s(key)));
        }
    }
    assert_eq!(doc.get_children(e1).unwrap(), vec![2, 4]);
    assert_eq!(doc.get_children(e2).unwrap(), vec![mid, mid + 2]);
    assert_eq!(doc.get_children(2).unwrap(), vec![3]);
    assert_eq!(doc.get_children(mid).unwrap(), vec![mid + 1]);
    assert_eq!(doc.get_property_value(e1, &s("p")), Ok(Pon::Integer(1)));
    assert_eq!(doc.get_property_value(e2, &s("p")), Ok(Pon::Integer(1)));
}

#[test]
fn apply_to_all_visits_existing_entities() {
    let mut system = TemplateSubSystem::new(String::new());
    system.load_from_string(r#"<Rock x="5"><Pebble y="1" /></Rock>"#, &parse_value).unwrap();
    system.load_from_string(r#"<Pebble z="2"/>"#, &parse_value).unwrap();
    let mut doc = EntityStore::new();
    let rock = doc.append_entity(None, s("Rock"), None).unwrap();
    let tree = doc.append_entity(None, s("Tree"), None).unwrap();
    assert_eq!(system.apply_to_all(&mut doc), Ok(()));
    assert_eq!(doc.len(), 3);
    assert_eq!(doc.get_property_value(rock, &s("x")), Ok(Pon::Integer(5)));
    assert_eq!(doc.has_property(tree, &s("x")), Ok(false));
    // The pebble created under the rock gets its values from the rock's
    // template; entities created on the way are not visited again.
    assert_eq!(doc.get_property_value(2, &s("y")), Ok(Pon::Integer(1)));
    assert_eq!(doc.get_property_value(2, &s("z")), Err(StoreError::NoSuchProperty));
}
