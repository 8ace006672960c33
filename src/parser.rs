//! Building templates from markup events with a stack of open elements.
//!
//! Each start tag opens a template whose type is the element's name; the
//! reserved attribute `inherits` names its base template, and every other
//! attribute is a property whose value the property-expression parser reads.
//! Each end tag closes the innermost open template, which becomes the last
//! child of the template around it, or, at the outermost level, is complete.
use vstd::prelude::*;
use crate::markup::{Attribute, EventModel, MarkupEvent, attributes_model, event_model, events_model, markup_events, read_events};
use crate::pon::{Pon, PonModel, pon_model};
use crate::store::props_model;
use crate::template::{Template, TemplateModel, template_model};

verus! {

/// Why markup could not be read as templates.
#[derive(Debug, PartialEq)]
pub enum ParseError {
    /// The property-expression parser refused an attribute value.
    Property { value: String, message: String },
    /// The markup tokenizer reported an error.
    Markup { message: String },
    /// An end tag without a matching start tag.
    Unbalanced,
    /// The markup ended inside a template, or held none.
    Incomplete,
}

/// The model of a parse error.
pub enum ParseErrorModel {
    Property { value: Seq<char>, message: Seq<char> },
    Markup { message: Seq<char> },
    Unbalanced,
    Incomplete,
}

/// The model of a parse error.
pub open spec fn error_model(e: &ParseError) -> ParseErrorModel {
    match e {
        ParseError::Property { value, message } => ParseErrorModel::Property { value: value@, message: message@ },
        ParseError::Markup { message } => ParseErrorModel::Markup { message: message@ },
        ParseError::Unbalanced => ParseErrorModel::Unbalanced,
        ParseError::Incomplete => ParseErrorModel::Incomplete,
    }
}

/// The model of what the property-expression parser returns.
pub open spec fn value_result_model(r: Result<Pon, String>) -> Result<PonModel, Seq<char>> {
    match r {
        Ok(p) => Ok(pon_model(&p)),
        Err(e) => Err(e@),
    }
}

/// A property-expression parser: defined on every text, and giving equal
/// texts equal results.
pub open spec fn is_value_parser<F: Fn(String) -> Result<Pon, String>>(f: F) -> bool {
    &&& forall|s: String| #[trigger] f.requires((s,))
    &&& forall|a: String, b: String, ra: Result<Pon, String>, rb: Result<Pon, String>|
        a@ == b@ && #[trigger] f.ensures((a,), ra) && #[trigger] f.ensures((b,), rb) ==> value_result_model(ra)
            == value_result_model(rb)
}

/// Whether `r` is a result that `f` gives for some text equal to `s`.
pub open spec fn gives<F: Fn(String) -> Result<Pon, String>>(f: F, s: Seq<char>, r: Result<Pon, String>) -> bool {
    exists|a: String| a@ == s && #[trigger] f.ensures((a,), r)
}

/// What the property-expression parser `f` makes of the text `s`.
pub open spec fn parsed_value<F: Fn(String) -> Result<Pon, String>>(f: F, s: Seq<char>) -> Result<PonModel, Seq<char>> {
    value_result_model(choose|r: Result<Pon, String>| #[trigger] gives(f, s, r))
}

proof fn lemma_parsed_value<F: Fn(String) -> Result<Pon, String>>(f: F, a: String, r: Result<Pon, String>)
    requires
        is_value_parser(f),
        f.ensures((a,), r),
    ensures
        parsed_value(f, a@) == value_result_model(r),
{
    assert(gives(f, a@, r));
    let c = choose|r: Result<Pon, String>| #[trigger] gives(f, a@, r);
    assert(gives(f, a@, c));
    let b = choose|b: String| b@ == a@ && #[trigger] f.ensures((b,), c);
    assert(f.ensures((b,), c));
}

/// The reserved attribute that names a template's base.
pub open spec fn inherits_name() -> Seq<char> {
    seq!['i', 'n', 'h', 'e', 'r', 'i', 't', 's']
}

/// The value of the first `inherits` attribute.
pub open spec fn inherits_of(attrs: Seq<(Seq<char>, Seq<char>)>) -> Option<Seq<char>>
    decreases attrs.len(),
{
    if attrs.len() == 0 {
        None
    } else {
        match inherits_of(attrs.drop_last()) {
            Some(v) => Some(v),
            None => if attrs.last().0 == inherits_name() {
                Some(attrs.last().1)
            } else {
                None
            },
        }
    }
}

/// The properties of a start tag: every attribute but `inherits`, in order,
/// with its value parsed; or the error for the first value that does not parse.
pub open spec fn properties_of<F: Fn(String) -> Result<Pon, String>>(f: F, attrs: Seq<(Seq<char>, Seq<char>)>) -> Result<
    Seq<(Seq<char>, PonModel)>,
    ParseErrorModel,
>
    decreases attrs.len(),
{
    if attrs.len() == 0 {
        Ok(Seq::empty())
    } else {
        match properties_of(f, attrs.drop_last()) {
            Err(e) => Err(e),
            Ok(p) => {
                let (k, v) = attrs.last();
                if k == inherits_name() {
                    Ok(p)
                } else {
                    match parsed_value(f, v) {
                        Ok(x) => Ok(p.push((k, x))),
                        Err(m) => Err(ParseErrorModel::Property { value: v, message: m }),
                    }
                }
            },
        }
    }
}

/// The template that a start tag opens.
pub open spec fn start_model<F: Fn(String) -> Result<Pon, String>>(
    f: F,
    name: Seq<char>,
    attrs: Seq<(Seq<char>, Seq<char>)>,
) -> Result<TemplateModel, ParseErrorModel> {
    match properties_of(f, attrs) {
        Ok(p) => Ok(TemplateModel { kind: name, inherits: inherits_of(attrs), properties: p, children: Seq::empty() }),
        Err(e) => Err(e),
    }
}

/// A template with one more child.
pub open spec fn with_child(t: TemplateModel, c: TemplateModel) -> TemplateModel {
    TemplateModel { children: t.children.push(c), ..t }
}

/// One event applied to the stack of open templates: the new stack and the
/// template completed, if any; or the error.
pub open spec fn step_model<F: Fn(String) -> Result<Pon, String>>(
    f: F,
    stack: Seq<TemplateModel>,
    e: EventModel,
) -> Result<(Seq<TemplateModel>, Option<TemplateModel>), ParseErrorModel> {
    match e {
        EventModel::StartElement { name, attributes } => match start_model(f, name, attributes) {
            Ok(t) => Ok((stack.push(t), None)),
            Err(x) => Err(x),
        },
        EventModel::EndElement { .. } => if stack.len() == 0 {
            Err(ParseErrorModel::Unbalanced)
        } else {
            let top = stack.last();
            let rest = stack.drop_last();
            if rest.len() == 0 {
                Ok((rest, Some(top)))
            } else {
                Ok((rest.update(rest.len() - 1, with_child(rest.last(), top)), None))
            }
        },
        EventModel::Error { message } => Err(ParseErrorModel::Markup { message }),
        EventModel::Other => Ok((stack, None)),
    }
}

/// The first template that the events complete, starting from `stack`.
pub open spec fn first_template<F: Fn(String) -> Result<Pon, String>>(
    f: F,
    ev: Seq<EventModel>,
    stack: Seq<TemplateModel>,
) -> Result<TemplateModel, ParseErrorModel>
    decreases ev.len(),
{
    if ev.len() == 0 {
        Err(ParseErrorModel::Incomplete)
    } else {
        match step_model(f, stack, ev[0]) {
            Err(x) => Err(x),
            Ok((_, Some(t))) => Ok(t),
            Ok((s, None)) => first_template(f, ev.drop_first(), s),
        }
    }
}

/// The model of a stack of open templates.
pub open spec fn stack_model(s: Seq<Template>) -> Seq<TemplateModel> {
    Seq::new(s.len(), |i: int| template_model(&s[i]))
}

proof fn lemma_properties_failed<F: Fn(String) -> Result<Pon, String>>(
    f: F,
    attrs: Seq<(Seq<char>, Seq<char>)>,
    n: int,
    m: int,
)
    requires
        0 <= n <= m <= attrs.len(),
        properties_of(f, attrs.take(n)) is Err,
    ensures
        properties_of(f, attrs.take(m)) == properties_of(f, attrs.take(n)),
    decreases m,
{
    if n < m {
        lemma_properties_failed(f, attrs, n, m - 1);
        assert(attrs.take(m).drop_last() =~= attrs.take(m - 1));
    }
}

fn is_inherits(s: &String) -> (r: bool)
    ensures
        r == (s@ == inherits_name()),
{
    let k = "inherits".to_owned();
    proof {
        reveal_strlit("inherits");
        assert(k@ =~= inherits_name());
    }
    *s == k
}

fn open_template<F: Fn(String) -> Result<Pon, String>>(name: String, attributes: &Vec<Attribute>, parse_value: &F) -> (r: Result<Template, ParseError>)
    requires
        is_value_parser(*parse_value),
    ensures
        match start_model(*parse_value, name@, attributes_model(attributes@)) {
            Ok(t) => r is Ok && template_model(&r->Ok_0) == t,
            Err(x) => r is Err && error_model(&r->Err_0) == x,
        },
{
    let ghost am = attributes_model(attributes@);
    let mut inherits: Option<String> = None;
    let mut properties: Vec<(String, Pon)> = Vec::new();
    let mut i: usize = 0;
    proof {
        assert(am.take(0) =~= Seq::<(Seq<char>, Seq<char>)>::empty());
        assert(props_model(properties@) =~= Seq::<(Seq<char>, PonModel)>::empty());
    }
    while i < attributes.len()
        invariant
            is_value_parser(*parse_value),
            i <= attributes@.len(),
            am == attributes_model(attributes@),
            properties_of(*parse_value, am.take(i as int)) == Ok::<Seq<(Seq<char>, PonModel)>, ParseErrorModel>(props_model(properties@)),
            inherits_of(am.take(i as int)) == match inherits {
                Some(s) => Some(s@),
                None => None::<Seq<char>>,
            },
        decreases attributes@.len() - i,
    {
        let a = &attributes[i];
        proof {
            assert(am.take(i + 1).drop_last() =~= am.take(i as int));
            assert(am.take(i + 1).last() == (a.name@, a.value@));
        }
        if is_inherits(&a.name) {
            if inherits.is_none() {
                inherits = Some(a.value.clone());
            }
        } else {
            let r = parse_value(a.value.clone());
            proof {
                lemma_parsed_value(*parse_value, a.value, r);
            }
            match r {
                Ok(v) => {
                    let ghost before = properties@;
                    properties.push((a.name.clone(), v));
                    proof {
                        assert(props_model(properties@) =~= props_model(before).push((a.name@, pon_model(&v))));
                    }
                },
                Err(m) => {
                    proof {
                        lemma_properties_failed(*parse_value, am, i + 1, am.len() as int);
                        assert(am.take(am.len() as int) =~= am);
                    }
                    return Err(ParseError::Property { value: a.value.clone(), message: m });
                },
            }
        }
        i = i + 1;
    }
    proof {
        assert(am.take(am.len() as int) =~= am);
    }
    let t = Template { kind: name, inherits, properties, children: Vec::new() };
    proof {
        assert(template_model(&t).children =~= Seq::<TemplateModel>::empty());
    }
    Ok(t)
}

impl Template {
    /// Feeds one markup event to the stack of open templates. A start tag
    /// opens a template; an end tag closes the innermost one, which is
    /// returned when no template is left open around it. On an error the
    /// stack is left as it was.
    pub fn parse_event<F: Fn(String) -> Result<Pon, String>>(
        template_stack: &mut Vec<Template>,
        event: MarkupEvent,
        parse_value: &F,
    ) -> (r: Result<Option<Template>, ParseError>)
        requires
            is_value_parser(*parse_value),
        ensures
            match step_model(*parse_value, stack_model(old(template_stack)@), event_model(&event)) {
                Ok((s, o)) => r is Ok && stack_model(final(template_stack)@) == s && match o {
                    Some(t) => r->Ok_0 is Some && template_model(&r->Ok_0->Some_0) == t,
                    None => r->Ok_0 is None,
                },
                Err(x) => r is Err && error_model(&r->Err_0) == x && final(template_stack)@ == old(template_stack)@,
            },
    {
        let ghost sm = stack_model(template_stack@);
        match event {
            MarkupEvent::StartElement { name, attributes } => {
                match open_template(name, &attributes, parse_value) {
                    Ok(t) => {
                        template_stack.push(t);
                        proof {
                            assert(stack_model(template_stack@) =~= sm.push(template_model(&t)));
                        }
                        Ok(None)
                    },
                    Err(e) => Err(e),
                }
            },
            MarkupEvent::EndElement { .. } => {
                match template_stack.pop() {
                    None => Err(ParseError::Unbalanced),
                    Some(top) => {
                        proof {
                            assert(stack_model(template_stack@) =~= sm.drop_last());
                        }
                        match template_stack.pop() {
                            None => Ok(Some(top)),
                            Some(mut parent) => {
                                let ghost pm = template_model(&parent);
                                parent.children.push(top);
                                proof {
                                    assert(template_model(&parent).children =~= pm.children.push(template_model(&top)));
                                    assert(template_model(&parent) == with_child(pm, template_model(&top)));
                                }
                                template_stack.push(parent);
                                proof {
                                    let rest = sm.drop_last();
                                    assert(stack_model(template_stack@) =~= rest.update(rest.len() - 1, with_child(rest.last(), template_model(&top))));
                                }
                                Ok(None)
                            },
                        }
                    },
                }
            },
            MarkupEvent::Error { message } => Err(ParseError::Markup { message }),
            MarkupEvent::Other => Ok(None),
        }
    }

    /// Parses the first template of a markup text; the property values are
    /// read by `parse_value`.
    pub fn from_string<F: Fn(String) -> Result<Pon, String>>(string: &str, parse_value: &F) -> (r: Result<Template, ParseError>)
        requires
            is_value_parser(*parse_value),
        ensures
            match first_template(*parse_value, markup_events(string@), Seq::empty()) {
                Ok(t) => r is Ok && template_model(&r->Ok_0) == t,
                Err(x) => r is Err && error_model(&r->Err_0) == x,
            },
    {
        let mut events = read_events(string);
        let ghost all = markup_events(string@);
        let mut template_stack: Vec<Template> = Vec::new();
        proof {
            assert(stack_model(template_stack@) =~= Seq::<TemplateModel>::empty());
            assert(events_model(events@) =~= all.subrange(0, all.len() as int));
        }
        while events.len() > 0
            invariant
                is_value_parser(*parse_value),
                all == markup_events(string@),
                events_model(events@) == all.subrange(all.len() - events@.len(), all.len() as int),
                events@.len() <= all.len(),
                first_template(*parse_value, all, Seq::empty()) == first_template(
                    *parse_value,
                    events_model(events@),
                    stack_model(template_stack@),
                ),
            decreases events@.len(),
        {
            let ghost em = events_model(events@);
            let ghost sm0 = stack_model(template_stack@);
            let e = events.remove(0);
            proof {
                assert(em.len() > 0);
                assert(em[0] == event_model(&e));
                assert(events_model(events@) =~= em.drop_first());
            }
            let step = Template::parse_event(&mut template_stack, e, parse_value);
            proof {
                assert(first_template(*parse_value, em, sm0) == match step_model(*parse_value, sm0, em[0]) {
                    Err(x) => Err(x),
                    Ok((_, Some(t))) => Ok(t),
                    Ok((s, None)) => first_template(*parse_value, em.drop_first(), s),
                });
            }
            match step {
                Ok(Some(t)) => {
                    return Ok(t);
                },
                Ok(None) => {},
                Err(x) => {
                    return Err(x);
                },
            }
        }
        Err(ParseError::Incomplete)
    }
}

} // verus!
