//! Assignments in inline JavaScript: `<script>` elements without a `type`, or
//! of type `text/javascript`.

use vstd::prelude::*;

use crate::candidate::{candidate_models, Candidate, CandidateModel};
use crate::html::{element_models, html_selection, ElementModel, HtmlDocument};
use crate::js::{extract_assignments_from_tree, tree_assignments};
use crate::syntax::{javascript_syntax, SyntaxTree};
use crate::text::{chars_of, contains_pattern, contains_seq, is_blank, text_is_blank};

verus! {

/// What `htmlescape::decode_html` makes of `text`: the text with its HTML
/// character references decoded; `None` when it reports an error.
pub uninterp spec fn html_entities_decoded(text: Seq<char>) -> Option<Seq<char>>;

/// Decodes the HTML character references of `text` with
/// `htmlescape::decode_html`; an error becomes `None`.
/// Claimed: the result is `html_entities_decoded` of the text, which holds
/// because decoding depends on nothing but the text.
#[verifier::external_body]
fn decode_html_entities(text: &str) -> (r: Option<String>)
    ensures
        match r {
            Some(s) => html_entities_decoded(text@) == Some(s@),
            None => html_entities_decoded(text@) is None,
        },
{
    htmlescape::decode_html(text).ok()
}

/// `&quot;`
pub open spec fn quot_reference() -> Seq<char> {
    seq!['&', 'q', 'u', 'o', 't', ';']
}

/// `&amp;`
pub open spec fn amp_reference() -> Seq<char> {
    seq!['&', 'a', 'm', 'p', ';']
}

/// `&lt;`
pub open spec fn lt_reference() -> Seq<char> {
    seq!['&', 'l', 't', ';']
}

/// Script text that holds `&quot;`, `&amp;` or `&lt;`, as server-side
/// rendering of Pinia or Vue state leaves it.
pub open spec fn has_encoded_entities(s: Seq<char>) -> bool {
    contains_seq(s, quot_reference()) || contains_seq(s, amp_reference()) || contains_seq(
        s,
        lt_reference(),
    )
}

/// The JavaScript source of a script: its text, decoded when it holds
/// encoded entities and decoding succeeds.
pub open spec fn script_source(raw: Seq<char>) -> Seq<char> {
    if has_encoded_entities(raw) {
        match html_entities_decoded(raw) {
            Some(d) => d,
            None => raw,
        }
    } else {
        raw
    }
}

/// What one script assigns: nothing when its text is blank or cannot be
/// parsed, else what the statements of its program assign.
pub open spec fn script_assignments(raw: Seq<char>) -> Seq<CandidateModel> {
    if is_blank(raw) {
        Seq::empty()
    } else {
        match javascript_syntax(script_source(raw)) {
            None => Seq::empty(),
            Some(t) => if t.len() == 0 {
                Seq::empty()
            } else {
                tree_assignments(t, 0)
            },
        }
    }
}

/// What a sequence of scripts assigns, in order.
pub open spec fn scripts_assignments(es: Seq<ElementModel>) -> Seq<CandidateModel>
    decreases es.len(),
{
    if es.len() == 0 {
        Seq::empty()
    } else {
        scripts_assignments(es.drop_last()) + script_assignments(es.last().text)
    }
}

/// The selector of inline JavaScript.
pub open spec fn javascript_selector() -> Seq<char> {
    "script:not([type]), script[type='text/javascript']"@
}

/// What the inline scripts of the document `html` assign.
pub open spec fn document_window_assignments(html: Seq<char>) -> Seq<CandidateModel> {
    match html_selection(html, javascript_selector()) {
        Some(es) => scripts_assignments(es),
        None => Seq::empty(),
    }
}

/// The JavaScript source of a script text.
fn script_source_text(raw: &String) -> (r: String)
    ensures
        r@ == script_source(raw@),
{
    let chars = chars_of(raw.as_str());
    let quot = vec!['&', 'q', 'u', 'o', 't', ';'];
    let amp = vec!['&', 'a', 'm', 'p', ';'];
    let lt = vec!['&', 'l', 't', ';'];
    proof {
        assert(quot@ =~= quot_reference());
        assert(amp@ =~= amp_reference());
        assert(lt@ =~= lt_reference());
    }
    if contains_pattern(&chars, &quot) || contains_pattern(&chars, &amp) || contains_pattern(
        &chars,
        &lt,
    ) {
        match decode_html_entities(raw.as_str()) {
            Some(decoded) => decoded,
            None => raw.clone(),
        }
    } else {
        raw.clone()
    }
}

/// Appends what one script text assigns.
fn script_candidates(raw: &String, out: &mut Vec<Candidate>)
    ensures
        candidate_models(final(out)@) == candidate_models(old(out)@) + script_assignments(raw@),
{
    if text_is_blank(raw.as_str()) {
        assert(candidate_models(out@) =~= candidate_models(out@) + Seq::<CandidateModel>::empty());
        return;
    }
    let source = script_source_text(raw);
    match SyntaxTree::parse_javascript(source.as_str()) {
        None => {
            assert(candidate_models(out@) =~= candidate_models(out@) + Seq::<CandidateModel>::empty());
        },
        Some(tree) => {
            if tree.len() == 0 {
                assert(candidate_models(out@) =~= candidate_models(out@) + Seq::<
                    CandidateModel,
                >::empty());
            } else {
                extract_assignments_from_tree(&tree, 0, out);
            }
        },
    }
}

/// What the inline scripts (`<script>` without `type`, or of type
/// `text/javascript`) of the document assign, in document order: for each
/// script whose text is not blank, with HTML character references decoded
/// when it holds `&quot;`, `&amp;` or `&lt;`, the assignments of its program.
pub fn extract_window_assignments(document: &HtmlDocument) -> (r: Vec<Candidate>)
    ensures
        candidate_models(r@) == document_window_assignments(document@),
{
    let mut out: Vec<Candidate> = Vec::new();
    assert(candidate_models(out@) =~= Seq::<CandidateModel>::empty());
    let elements = match document.select("script:not([type]), script[type='text/javascript']") {
        Some(es) => es,
        None => {
            return out;
        },
    };
    let ghost es = element_models(elements@);
    let mut i: usize = 0;
    assert(es.take(0) =~= Seq::<ElementModel>::empty());
    while i < elements.len()
        invariant
            i <= elements@.len(),
            es == element_models(elements@),
            html_selection(document@, javascript_selector()) == Some(es),
            scripts_assignments(es.take(i as int)) == candidate_models(out@),
        decreases elements.len() - i,
    {
        assert(es.take(i + 1).drop_last() =~= es.take(i as int));
        assert(es.take(i + 1).last() == elements@[i as int]@);
        script_candidates(&elements[i].text, &mut out);
        i = i + 1;
    }
    assert(es.take(elements@.len() as int) =~= es);
    out
}

/// A script text that holds `&quot;`, `&amp;` or `&lt;` is read decoded,
/// where decoding succeeds; one that holds none of them is read as it is.
pub proof fn law_encoded_scripts_are_decoded(raw: Seq<char>)
    ensures
        (contains_seq(raw, seq!['&', 'q', 'u', 'o', 't', ';']) || contains_seq(
            raw,
            seq!['&', 'a', 'm', 'p', ';'],
        ) || contains_seq(raw, seq!['&', 'l', 't', ';'])) && html_entities_decoded(raw) is Some
            ==> script_source(raw) == html_entities_decoded(raw)->0,
        !(contains_seq(raw, seq!['&', 'q', 'u', 'o', 't', ';']) || contains_seq(
            raw,
            seq!['&', 'a', 'm', 'p', ';'],
        ) || contains_seq(raw, seq!['&', 'l', 't', ';'])) ==> script_source(raw) == raw,
{
}

} // verus!
