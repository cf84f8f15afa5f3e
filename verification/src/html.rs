//! HTML documents, the script elements selected in them, and the JSON script
//! blocks (`<script type="application/json">`) among those.

use vstd::prelude::*;

use crate::candidate::{candidate_models, Candidate, CandidateModel, PendingModel, PendingValue};
use crate::reading::{json_text_value, read_json_text};
use crate::text::{chars_of, is_blank, matches_at, text_is_blank, trim, trim_text, CharClass};

verus! {

/// What the extraction reads of an element: its `id`, its attributes (local
/// name and value, in the order in which `scraper` lists them) and its text.
#[derive(Debug)]
pub struct HtmlElement {
    pub id: Option<String>,
    pub attrs: Vec<(String, String)>,
    pub text: String,
}

/// The model of an [`HtmlElement`].
pub struct ElementModel {
    pub id: Option<Seq<char>>,
    pub attrs: Seq<(Seq<char>, Seq<char>)>,
    pub text: Seq<char>,
}

impl View for HtmlElement {
    type V = ElementModel;

    open spec fn view(&self) -> ElementModel {
        ElementModel {
            id: match self.id {
                Some(s) => Some(s@),
                None => None,
            },
            attrs: self.attrs@.map_values(|a: (String, String)| (a.0@, a.1@)),
            text: self.text@,
        }
    }
}

/// The models of a sequence of elements.
pub open spec fn element_models(s: Seq<HtmlElement>) -> Seq<ElementModel> {
    s.map_values(|e: HtmlElement| e@)
}

/// The elements that `scraper` selects with the CSS selector `selector` in
/// the document `html`, in document order; `None` when `scraper` refuses the
/// selector.
pub uninterp spec fn html_selection(html: Seq<char>, selector: Seq<char>) -> Option<
    Seq<ElementModel>,
>;

/// Parses `html` with `scraper::Html::parse_document`, selects with the CSS
/// selector `selector` (`scraper::Selector::parse`, `Html::select`), and
/// reads of each selected element its `id` (`Element::id`), its attributes
/// (`Element::attrs`) and its text (`ElementRef::text`, concatenated).
/// Claimed: the result is `html_selection` of the two texts, which holds
/// because HTML parsing and selection depend on nothing but the two texts.
#[verifier::external_body]
fn select_elements(html: &str, selector: &str) -> (r: Option<Vec<HtmlElement>>)
    ensures
        match r {
            Some(es) => html_selection(html@, selector@) == Some(element_models(es@)),
            None => html_selection(html@, selector@) is None,
        },
{
    let selector = scraper::Selector::parse(selector).ok()?;
    let document = scraper::Html::parse_document(html);
    let found = document.select(&selector).map(|e| HtmlElement {
        id: e.value().id().map(str::to_string),
        attrs: e.value().attrs().map(|(n, v)| (n.to_string(), v.to_string())).collect(),
        text: e.text().collect(),
    }).collect();
    Some(found)
}

/// An HTML document, held as its source text.
pub struct HtmlDocument {
    source: String,
}

impl View for HtmlDocument {
    type V = Seq<char>;

    closed spec fn view(&self) -> Seq<char> {
        self.source@
    }
}

impl HtmlDocument {
    /// The document whose source is `html`.
    pub fn parse_document(html: &str) -> (r: HtmlDocument)
        ensures
            r@ == html@,
    {
        HtmlDocument { source: html.to_owned() }
    }

    /// The elements that `selector` selects; `None` when the selector is
    /// refused.
    pub fn select(&self, selector: &str) -> (r: Option<Vec<HtmlElement>>)
        ensures
            match r {
                Some(es) => html_selection(self@, selector@) == Some(element_models(es@)),
                None => html_selection(self@, selector@) is None,
            },
    {
        select_elements(self.source.as_str(), selector)
    }
}

/// The selector of JSON script blocks.
pub open spec fn json_script_selector() -> Seq<char> {
    "script[type=\"application/json\"]"@
}

/// The attribute-name prefix of custom data attributes.
pub open spec fn data_prefix() -> Seq<char> {
    seq!['d', 'a', 't', 'a', '-']
}

/// The value of the first attribute whose name starts with `data-`.
pub open spec fn first_data_attribute(attrs: Seq<(Seq<char>, Seq<char>)>) -> Option<Seq<char>>
    decreases attrs.len(),
{
    if attrs.len() == 0 {
        None
    } else if data_prefix().is_prefix_of(attrs[0].0) {
        Some(attrs[0].1)
    } else {
        first_data_attribute(attrs.drop_first())
    }
}

/// The key of a JSON script block: its `id`, else the value of its first
/// `data-*` attribute, else `anonymous`.
pub open spec fn json_script_key(e: ElementModel) -> Seq<char> {
    match e.id {
        Some(id) => id,
        None => match first_data_attribute(e.attrs) {
            Some(v) => v,
            None => "anonymous"@,
        },
    }
}

/// What a JSON script block contributes: nothing when its text is blank or
/// its trimmed text is no JSON, else its key and the value of that JSON.
pub open spec fn json_script_candidate(e: ElementModel) -> Seq<CandidateModel> {
    if is_blank(e.text) {
        Seq::empty()
    } else {
        match json_text_value(trim(e.text, CharClass::WhiteSpace)) {
            Some(v) => seq![CandidateModel { key: json_script_key(e), value: PendingModel::Ready(v) }],
            None => Seq::empty(),
        }
    }
}

/// What a sequence of JSON script blocks contributes, in order.
pub open spec fn json_script_candidates(es: Seq<ElementModel>) -> Seq<CandidateModel>
    decreases es.len(),
{
    if es.len() == 0 {
        Seq::empty()
    } else {
        json_script_candidates(es.drop_last()) + json_script_candidate(es.last())
    }
}

/// What the JSON script blocks of the document `html` contribute.
pub open spec fn document_json_scripts(html: Seq<char>) -> Seq<CandidateModel> {
    match html_selection(html, json_script_selector()) {
        Some(es) => json_script_candidates(es),
        None => Seq::empty(),
    }
}

/// Whether `name` starts with `data-`.
fn is_data_attribute(name: &String) -> (r: bool)
    ensures
        r == data_prefix().is_prefix_of(name@),
{
    let chars = chars_of(name.as_str());
    let prefix = vec!['d', 'a', 't', 'a', '-'];
    if chars.len() < prefix.len() {
        return false;
    }
    let r = matches_at(&chars, &prefix, 0);
    proof {
        assert(prefix@ =~= data_prefix());
        if r {
            assert(data_prefix().is_prefix_of(name@));
        } else {
            assert(chars@.subrange(0, 5) != data_prefix());
        }
    }
    r
}

/// The key of a JSON script block: its `id`, else the value of its first
/// `data-*` attribute, else `anonymous`.
pub fn script_key(e: &HtmlElement) -> (r: String)
    ensures
        r@ == json_script_key(e@),
{
    match &e.id {
        Some(id) => id.clone(),
        None => {
            let ghost attrs = e@.attrs;
            assert(attrs.skip(0) =~= attrs);
            let mut i: usize = 0;
            while i < e.attrs.len()
                invariant
                    i <= e.attrs@.len(),
                    e.id is None,
                    attrs == e@.attrs,
                    attrs.len() == e.attrs@.len(),
                    first_data_attribute(attrs) == first_data_attribute(attrs.skip(i as int)),
                decreases e.attrs.len() - i,
            {
                let ghost rest = attrs.skip(i as int);
                assert(rest[0] == attrs[i as int]);
                assert(rest.drop_first() =~= attrs.skip(i + 1));
                if is_data_attribute(&e.attrs[i].0) {
                    return e.attrs[i].1.clone();
                }
                i = i + 1;
            }
            assert(attrs.skip(i as int).len() == 0);
            "anonymous".to_owned()
        },
    }
}

/// The JSON script blocks (`<script type="application/json">`) of the
/// document, in document order: for each whose text is not blank and reads
/// as JSON once trimmed (`serde_json::from_str`), its key and that value.
pub fn extract_json_scripts(document: &HtmlDocument) -> (r: Vec<Candidate>)
    ensures
        candidate_models(r@) == document_json_scripts(document@),
{
    let elements = match document.select("script[type=\"application/json\"]") {
        Some(es) => es,
        None => {
            return Vec::new();
        },
    };
    let ghost es = element_models(elements@);
    let mut out: Vec<Candidate> = Vec::new();
    let mut i: usize = 0;
    while i < elements.len()
        invariant
            i <= elements@.len(),
            es == element_models(elements@),
            candidate_models(out@) == json_script_candidates(es.take(i as int)),
        decreases elements.len() - i,
    {
        let e = &elements[i];
        assert(es.take(i + 1).drop_last() =~= es.take(i as int));
        assert(es.take(i + 1).last() == e@);
        if !text_is_blank(e.text.as_str()) {
            let text = trim_text(e.text.as_str(), &CharClass::WhiteSpace);
            match read_json_text(text.as_str()) {
                Some(v) => {
                    let key = script_key(e);
                    out.push(Candidate { key, value: PendingValue::Ready(v) });
                },
                None => {},
            }
        }
        assert(candidate_models(out@) =~= json_script_candidates(es.take(i + 1)));
        i = i + 1;
    }
    assert(es.take(elements@.len() as int) =~= es);
    out
}

/// JSON script blocks give values, never number texts still to be read.
pub proof fn law_json_scripts_hold_values(es: Seq<ElementModel>)
    ensures
        forall|i: int|
            0 <= i < json_script_candidates(es).len() ==> #[trigger] json_script_candidates(
                es,
            )[i].value is Ready,
    decreases es.len(),
{
    if es.len() > 0 {
        law_json_scripts_hold_values(es.drop_last());
        let p = json_script_candidates(es.drop_last());
        let q = json_script_candidate(es.last());
        assert forall|i: int| 0 <= i < (p + q).len() implies #[trigger] (p + q)[i].value is Ready by {
            if i < p.len() {
                assert((p + q)[i] == p[i]);
            } else {
                assert((p + q)[i] == q[i - p.len()]);
            }
        }
    }
}

} // verus!
