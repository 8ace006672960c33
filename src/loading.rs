//! What loading templates means: template files with several templates, and
//! the directive that lists where templates come from.
use vstd::prelude::*;
use crate::markup::{EventModel, MarkupEvent, event_model, markup_events};
use crate::parser::{ParseErrorModel, first_template, step_model};
use crate::pon::{Pon, PonModel, TranslateError, pon_model};
use crate::template::TemplateModel;

verus! {

/// The first template of a markup text, as `Template::from_string` reads it.
pub open spec fn first_template_model<F: Fn(String) -> Result<Pon, String>>(f: F, text: Seq<char>) -> Result<
    TemplateModel,
    ParseErrorModel,
> {
    first_template(f, markup_events(text), Seq::empty())
}

/// The name of the element that may wrap the templates of a template file.
pub open spec fn wrapper_name() -> Seq<char> {
    seq!['T', 'p', 'm', 'l']
}

/// Whether the event is a start or end tag of the wrapper element.
pub open spec fn is_wrapper(e: EventModel) -> bool {
    match e {
        EventModel::StartElement { name, .. } => name == wrapper_name(),
        EventModel::EndElement { name } => name == wrapper_name(),
        _ => false,
    }
}

/// The registry after loading every template that the events hold, skipping
/// the wrapper's tags, and the error that stopped loading, if any.
pub open spec fn load_events<F: Fn(String) -> Result<Pon, String>>(
    f: F,
    ev: Seq<EventModel>,
    stack: Seq<TemplateModel>,
    reg: Map<Seq<char>, TemplateModel>,
) -> (Map<Seq<char>, TemplateModel>, Option<ParseErrorModel>)
    decreases ev.len(),
{
    if ev.len() == 0 {
        if stack.len() == 0 {
            (reg, None)
        } else {
            (reg, Some(ParseErrorModel::Incomplete))
        }
    } else if is_wrapper(ev[0]) {
        load_events(f, ev.drop_first(), stack, reg)
    } else {
        match step_model(f, stack, ev[0]) {
            Err(x) => (reg, Some(x)),
            Ok((s, Some(t))) => load_events(f, ev.drop_first(), s, reg.insert(t.kind, t)),
            Ok((s, None)) => load_events(f, ev.drop_first(), s, reg),
        }
    }
}

fn is_wrapper_name(s: &String) -> (r: bool)
    ensures
        r == (s@ == wrapper_name()),
{
    let w = "Tpml".to_owned();
    proof {
        reveal_strlit("Tpml");
        assert(w@ =~= wrapper_name());
    }
    *s == w
}

/// Whether the event is a start or end tag of the wrapper element.
pub(crate) fn is_wrapper_event(e: &MarkupEvent) -> (r: bool)
    ensures
        r == is_wrapper(event_model(e)),
{
    match e {
        MarkupEvent::StartElement { name, .. } => is_wrapper_name(name),
        MarkupEvent::EndElement { name } => is_wrapper_name(name),
        _ => false,
    }
}

/// Where templates come from.
#[derive(Debug, PartialEq)]
pub enum TemplateSource {
    /// A template written out in markup.
    Inline(String),
    /// A template file, by its path relative to the engine's root directory.
    File(String),
}

/// The model of a template source.
pub enum SourceModel {
    Inline(Seq<char>),
    File(Seq<char>),
}

/// The model of a translate error.
pub enum TranslateErrorModel {
    ExpectedArray,
    ExpectedTransform,
    ExpectedString,
    UnrecognizedType(Seq<char>),
}

/// The model of a template source.
pub open spec fn source_model(s: &TemplateSource) -> SourceModel {
    match s {
        TemplateSource::Inline(t) => SourceModel::Inline(t@),
        TemplateSource::File(p) => SourceModel::File(p@),
    }
}

/// The model of a list of template sources.
pub open spec fn sources_model(s: Seq<TemplateSource>) -> Seq<SourceModel> {
    Seq::new(s.len(), |i: int| source_model(&s[i]))
}

/// The model of a translate error.
pub open spec fn translate_error_model(e: &TranslateError) -> TranslateErrorModel {
    match e {
        TranslateError::ExpectedArray => TranslateErrorModel::ExpectedArray,
        TranslateError::ExpectedTransform => TranslateErrorModel::ExpectedTransform,
        TranslateError::ExpectedString => TranslateErrorModel::ExpectedString,
        TranslateError::UnrecognizedType(n) => TranslateErrorModel::UnrecognizedType(n@),
    }
}

/// The directive for one inline template.
pub open spec fn inline_directive() -> Seq<char> {
    seq!['t', 'e', 'm', 'p', 'l', 'a', 't', 'e']
}

/// The directive for a template file.
pub open spec fn file_directive() -> Seq<char> {
    seq!['t', 'e', 'm', 'p', 'l', 'a', 't', 'e', 's', '_', 'f', 'r', 'o', 'm', '_', 'f', 'i', 'l', 'e']
}

/// What one entry of the directive list asks for.
pub open spec fn source_of(p: PonModel) -> Result<SourceModel, TranslateErrorModel> {
    match p {
        PonModel::Transform { name, data } => if name == inline_directive() {
            match *data {
                PonModel::Str(s) => Ok(SourceModel::Inline(s)),
                _ => Err(TranslateErrorModel::ExpectedString),
            }
        } else if name == file_directive() {
            match *data {
                PonModel::Str(s) => Ok(SourceModel::File(s)),
                _ => Err(TranslateErrorModel::ExpectedString),
            }
        } else {
            Err(TranslateErrorModel::UnrecognizedType(name))
        },
        _ => Err(TranslateErrorModel::ExpectedTransform),
    }
}

/// The sources that the entries ask for, in order, up to the first entry in
/// error, and that error.
pub open spec fn sources_of(items: Seq<PonModel>) -> (Seq<SourceModel>, Option<TranslateErrorModel>)
    decreases items.len(),
{
    if items.len() == 0 {
        (Seq::empty(), None)
    } else {
        let (p, e) = sources_of(items.drop_last());
        if e is Some {
            (p, e)
        } else {
            match source_of(items.last()) {
                Ok(s) => (p.push(s), None),
                Err(x) => (p, Some(x)),
            }
        }
    }
}

/// What a directive value asks for: it must be an array of entries.
pub open spec fn plan_of(node: PonModel) -> (Seq<SourceModel>, Option<TranslateErrorModel>) {
    match node {
        PonModel::Array(items) => sources_of(items),
        _ => (Seq::empty(), Some(TranslateErrorModel::ExpectedArray)),
    }
}

/// The template sources of a directive, in order, and the error that ended
/// the list early, if any.
#[derive(Debug, PartialEq)]
pub struct LoadPlan {
    pub sources: Vec<TemplateSource>,
    pub error: Option<TranslateError>,
}

/// The model of a load plan.
pub open spec fn plan_model(p: &LoadPlan) -> (Seq<SourceModel>, Option<TranslateErrorModel>) {
    (
        sources_model(p.sources@),
        match &p.error {
            Some(e) => Some(translate_error_model(e)),
            None => None,
        },
    )
}

fn is_name(s: &String, lit: &str) -> (r: bool)
    ensures
        r == (s@ == lit@),
{
    let w = lit.to_owned();
    *s == w
}

fn source_entry(p: &Pon) -> (r: Result<TemplateSource, TranslateError>)
    ensures
        match source_of(pon_model(p)) {
            Ok(s) => r is Ok && source_model(&r->Ok_0) == s,
            Err(x) => r is Err && translate_error_model(&r->Err_0) == x,
        },
{
    proof {
        reveal_strlit("template");
        reveal_strlit("templates_from_file");
        assert("template"@ =~= inline_directive());
        assert("templates_from_file"@ =~= file_directive());
    }
    let (name, data) = match p.as_transform() {
        Ok(t) => t,
        Err(e) => {
            return Err(e);
        },
    };
    assert(pon_model(p) == (PonModel::Transform { name: name@, data: Box::new(pon_model(data)) }));
    if is_name(name, "template") {
        match data.as_string() {
            Ok(s) => Ok(TemplateSource::Inline(s.clone())),
            Err(e) => Err(e),
        }
    } else if is_name(name, "templates_from_file") {
        match data.as_string() {
            Ok(s) => Ok(TemplateSource::File(s.clone())),
            Err(e) => Err(e),
        }
    } else {
        Err(TranslateError::UnrecognizedType(name.clone()))
    }
}

/// Reads a directive value: an array whose entries are `template` with the
/// markup of one template, or `templates_from_file` with the path of a
/// template file.
pub fn template_sources(node: &Pon) -> (r: LoadPlan)
    ensures
        plan_model(&r) == plan_of(pon_model(node)),
{
    let items = match node.as_array() {
        Ok(v) => v,
        Err(e) => {
            let r = LoadPlan { sources: Vec::new(), error: Some(e) };
            proof {
                assert(sources_model(r.sources@) =~= Seq::<SourceModel>::empty());
            }
            return r;
        },
    };
    let ghost im = match pon_model(node) {
        PonModel::Array(s) => s,
        _ => Seq::empty(),
    };
    proof {
        assert(im.len() == items@.len());
    }
    let mut sources: Vec<TemplateSource> = Vec::new();
    let mut i: usize = 0;
    proof {
        assert(im.take(0) =~= Seq::<PonModel>::empty());
        assert(sources_model(sources@) =~= Seq::<SourceModel>::empty());
    }
    while i < items.len()
        invariant
            i <= items@.len(),
            im.len() == items@.len(),
            forall|j: int| 0 <= j < items@.len() ==> #[trigger] im[j] == pon_model(&items@[j]),
            sources_of(im.take(i as int)) == (sources_model(sources@), None::<TranslateErrorModel>),
            plan_of(pon_model(node)) == sources_of(im),
        decreases items@.len() - i,
    {
        proof {
            assert(im.take(i + 1).drop_last() =~= im.take(i as int));
            assert(im.take(i + 1).last() == pon_model(&items@[i as int]));
        }
        match source_entry(&items[i]) {
            Ok(s) => {
                let ghost s0 = sources@;
                sources.push(s);
                proof {
                    assert(sources_model(sources@) =~= sources_model(s0).push(source_model(&s)));
                }
            },
            Err(e) => {
                proof {
                    lemma_sources_failed(im, i as int + 1, im.len() as int);
                    assert(im.take(im.len() as int) =~= im);
                }
                return LoadPlan { sources, error: Some(e) };
            },
        }
        i = i + 1;
    }
    proof {
        assert(im.take(im.len() as int) =~= im);
    }
    LoadPlan { sources, error: None }
}

proof fn lemma_sources_failed(items: Seq<PonModel>, n: int, m: int)
    requires
        0 <= n <= m <= items.len(),
        sources_of(items.take(n)).1 is Some,
    ensures
        sources_of(items.take(m)) == sources_of(items.take(n)),
    decreases m,
{
    if n < m {
        lemma_sources_failed(items, n, m - 1);
        assert(items.take(m).drop_last() =~= items.take(m - 1));
    }
}

} // verus!
