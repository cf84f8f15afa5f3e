//! The hydration state of a document: JSON script blocks first, then the
//! assignments of inline scripts, each later value of a key replacing the
//! earlier one, and devalue arrays turned into the values they stand for.

use vstd::prelude::*;

use crate::candidate::{candidate_models, Candidate, CandidateModel, PendingModel, PendingValue};
use crate::devalue::option_model;
use crate::html::{
    document_json_scripts, extract_json_scripts, html_selection, json_script_selector,
    law_json_scripts_hold_values, HtmlDocument,
};
use crate::json::{Json, JsonValue};
use crate::state::{postprocess, postprocess_map, HydrationState};
use crate::window::{document_window_assignments, extract_window_assignments};

verus! {

/// What the document `html` contributes, in order: its JSON script blocks,
/// then the assignments of its inline scripts.
pub open spec fn document_candidates(html: Seq<char>) -> Seq<CandidateModel> {
    document_json_scripts(html) + document_window_assignments(html)
}

/// The value a candidate settles on: its own when it holds one, else what
/// reading its number text as a float gave.
pub open spec fn settled(value: PendingModel, number_read: Option<Json>) -> Option<Json> {
    match value {
        PendingModel::Ready(v) => Some(v),
        PendingModel::NumberText(_) => number_read,
    }
}

/// The models of a sequence of optional values.
pub open spec fn option_models(s: Seq<Option<JsonValue>>) -> Seq<Option<Json>> {
    s.map_values(|o: Option<JsonValue>| option_model(o))
}

/// The map that setting the candidates one after the other gives, `read[i]`
/// being what reading the number text of candidate `i` gave (if it holds
/// one); a candidate that settles on no value sets nothing.
pub open spec fn apply_candidates(cs: Seq<CandidateModel>, read: Seq<Option<Json>>) -> Map<
    Seq<char>,
    Json,
>
    decreases cs.len(),
{
    if cs.len() == 0 {
        Map::empty()
    } else {
        let m = apply_candidates(cs.drop_last(), read.take(cs.len() - 1));
        match settled(cs.last().value, read[cs.len() - 1]) {
            Some(v) => m.insert(cs.last().key, v),
            None => m,
        }
    }
}

/// What the document contributes, in order: its JSON script blocks, then the
/// assignments of its inline scripts.
pub fn hydration_candidates(document: &HtmlDocument) -> (r: Vec<Candidate>)
    ensures
        candidate_models(r@) == document_candidates(document@),
{
    let mut scripts = extract_json_scripts(document);
    let mut assignments = extract_window_assignments(document);
    let ghost a = candidate_models(scripts@);
    let ghost b = candidate_models(assignments@);
    scripts.append(&mut assignments);
    assert(candidate_models(scripts@) =~= a + b);
    scripts
}

/// The hydration state from the candidates and what reading their number
/// texts as floats gave (`number_reads[i]` for candidate `i`, ignored when
/// the candidate holds its value):
/// the candidates are set in order, a later value of a key replacing an
/// earlier one, then each array that looks like devalue output becomes the
/// value it stands for.
pub fn extract_hydration_state(candidates: &Vec<Candidate>, number_reads: &Vec<Option<JsonValue>>) -> (r:
    HydrationState)
    requires
        candidates@.len() == number_reads@.len(),
    ensures
        r@ == postprocess_map(
            apply_candidates(candidate_models(candidates@), option_models(number_reads@)),
        ),
{
    let ghost cs = candidate_models(candidates@);
    let ghost rs = option_models(number_reads@);
    let mut state = HydrationState::new();
    let mut i: usize = 0;
    assert(cs.take(0) =~= Seq::<CandidateModel>::empty());
    while i < candidates.len()
        invariant
            i <= candidates@.len(),
            candidates@.len() == number_reads@.len(),
            cs == candidate_models(candidates@),
            rs == option_models(number_reads@),
            state@ == apply_candidates(cs.take(i as int), rs.take(i as int)),
        decreases candidates.len() - i,
    {
        let c = &candidates[i];
        let value: Option<JsonValue> = match &c.value {
            PendingValue::Ready(v) => Some(v.duplicate()),
            PendingValue::NumberText(_) => match &number_reads[i] {
                Some(v) => Some(v.duplicate()),
                None => None,
            },
        };
        proof {
            let t = cs.take(i + 1);
            assert(t.drop_last() =~= cs.take(i as int));
            assert(rs.take(i + 1).take(i as int) =~= rs.take(i as int));
            assert(t.last() == c@);
            assert(rs.take(i + 1)[i as int] == option_model(number_reads@[i as int]));
            assert(option_model(value) == settled(c@.value, option_model(number_reads@[i as int])));
        }
        match value {
            Some(v) => {
                state.insert(c.key.clone(), v);
            },
            None => {},
        }
        i = i + 1;
    }
    assert(cs.take(candidates@.len() as int) =~= cs);
    assert(rs.take(candidates@.len() as int) =~= rs);
    state.resolve_devalue_entries();
    state
}

/// A key gets the value of the last candidate for it that settles on a
/// value: a later value of a key replaces an earlier one.
pub proof fn law_last_value_wins(cs: Seq<CandidateModel>, read: Seq<Option<Json>>, i: int)
    requires
        cs.len() == read.len(),
        0 <= i < cs.len(),
        settled(cs[i].value, read[i]) is Some,
        forall|j: int|
            i < j < cs.len() && #[trigger] cs[j].key == cs[i].key ==> settled(cs[j].value, read[j])
                is None,
    ensures
        apply_candidates(cs, read).dom().contains(cs[i].key),
        apply_candidates(cs, read)[cs[i].key] == settled(cs[i].value, read[i])->0,
    decreases cs.len(),
{
    let p = cs.drop_last();
    let q = read.take(cs.len() - 1);
    if i < cs.len() - 1 {
        assert forall|j: int| i < j < p.len() && #[trigger] p[j].key == p[i].key implies settled(
            p[j].value,
            q[j],
        ) is None by {
            assert(p[j] == cs[j] && q[j] == read[j]);
        }
        assert(p[i] == cs[i] && q[i] == read[i]);
        law_last_value_wins(p, q, i);
    }
}

/// Only candidates that settle on a value give keys.
pub proof fn law_keys_come_from_settled_candidates(
    cs: Seq<CandidateModel>,
    read: Seq<Option<Json>>,
    k: Seq<char>,
)
    requires
        cs.len() == read.len(),
    ensures
        apply_candidates(cs, read).dom().contains(k) ==> exists|i: int|
            0 <= i < cs.len() && #[trigger] cs[i].key == k && settled(cs[i].value, read[i]) is Some,
    decreases cs.len(),
{
    if cs.len() > 0 {
        let p = cs.drop_last();
        let q = read.take(cs.len() - 1);
        law_keys_come_from_settled_candidates(p, q, k);
        if apply_candidates(p, q).dom().contains(k) {
            let i = choose|i: int|
                0 <= i < p.len() && #[trigger] p[i].key == k && settled(p[i].value, q[i]) is Some;
            assert(cs[i] == p[i] && read[i] == q[i]);
        }
        if apply_candidates(cs, read).dom().contains(k) && !apply_candidates(p, q).dom().contains(k) {
            assert(cs[cs.len() - 1].key == k);
        }
    }
}

/// Setting the candidates `a` and then the candidates `b` gives the map of
/// `a` overridden by the map of `b`: a key that `b` sets takes its value from
/// `b`, any other key keeps its value from `a`.
pub proof fn law_later_candidates_override(
    a: Seq<CandidateModel>,
    ra: Seq<Option<Json>>,
    b: Seq<CandidateModel>,
    rb: Seq<Option<Json>>,
)
    requires
        a.len() == ra.len(),
        b.len() == rb.len(),
    ensures
        apply_candidates(a + b, ra + rb) == apply_candidates(a, ra).union_prefer_right(
            apply_candidates(b, rb),
        ),
    decreases b.len(),
{
    let ma = apply_candidates(a, ra);
    if b.len() == 0 {
        assert(a + b =~= a);
        assert(ra + rb =~= ra);
        assert(ma.union_prefer_right(apply_candidates(b, rb)) =~= ma);
    } else {
        let b2 = b.drop_last();
        let rb2 = rb.take(b.len() - 1);
        law_later_candidates_override(a, ra, b2, rb2);
        let n = (a + b).len();
        assert((a + b).drop_last() =~= a + b2);
        assert((ra + rb).take(n - 1) =~= ra + rb2);
        assert((a + b).last() == b.last());
        assert((ra + rb)[n - 1] == rb[b.len() - 1]);
        let m2 = apply_candidates(b2, rb2);
        match settled(b.last().value, rb[b.len() - 1]) {
            Some(v) => {
                assert(ma.union_prefer_right(m2).insert(b.last().key, v) =~= ma.union_prefer_right(
                    m2.insert(b.last().key, v),
                ));
            },
            None => {},
        }
    }
}

/// Setting the same candidates a second time, with the same reads, changes
/// nothing.
pub proof fn law_applying_again_changes_nothing(cs: Seq<CandidateModel>, read: Seq<Option<Json>>)
    requires
        cs.len() == read.len(),
    ensures
        apply_candidates(cs + cs, read + read) == apply_candidates(cs, read),
{
    law_later_candidates_override(cs, read, cs, read);
    let m = apply_candidates(cs, read);
    assert(m.union_prefer_right(m) =~= m);
}

/// The hydration state of a document has the keys of its JSON script blocks
/// and those of its inline-script assignments; a key that an assignment sets
/// takes the value of the assignments, any other the value of the JSON
/// script blocks, each value post-processed.
pub proof fn law_assignments_override_json_scripts(html: Seq<char>, reads: Seq<Option<Json>>)
    requires
        reads.len() == document_candidates(html).len(),
    ensures
        ({
            let j = document_json_scripts(html);
            let w = document_window_assignments(html);
            let jm = apply_candidates(j, reads.take(j.len() as int));
            let wm = apply_candidates(w, reads.skip(j.len() as int));
            let state = postprocess_map(apply_candidates(document_candidates(html), reads));
            &&& state.dom() == jm.dom() + wm.dom()
            &&& forall|k: Seq<char>| #[trigger]
                wm.dom().contains(k) ==> state[k] == postprocess(wm[k])
            &&& forall|k: Seq<char>|
                #![trigger jm.dom().contains(k)]
                jm.dom().contains(k) && !wm.dom().contains(k) ==> state[k] == postprocess(jm[k])
        }),
{
    let j = document_json_scripts(html);
    let w = document_window_assignments(html);
    let rj = reads.take(j.len() as int);
    let rw = reads.skip(j.len() as int);
    assert(rj + rw =~= reads);
    law_later_candidates_override(j, rj, w, rw);
    let state = postprocess_map(apply_candidates(document_candidates(html), reads));
    let jm = apply_candidates(j, rj);
    let wm = apply_candidates(w, rw);
    assert(state.dom() =~= jm.dom() + wm.dom());
}

/// Candidates that all hold their values set the same map whatever was read.
pub proof fn law_values_need_no_reads(
    cs: Seq<CandidateModel>,
    r1: Seq<Option<Json>>,
    r2: Seq<Option<Json>>,
)
    requires
        cs.len() == r1.len(),
        cs.len() == r2.len(),
        forall|i: int| 0 <= i < cs.len() ==> #[trigger] cs[i].value is Ready,
    ensures
        apply_candidates(cs, r1) == apply_candidates(cs, r2),
    decreases cs.len(),
{
    if cs.len() > 0 {
        let p = cs.drop_last();
        assert forall|i: int| 0 <= i < p.len() implies #[trigger] p[i].value is Ready by {
            assert(p[i] == cs[i]);
        }
        law_values_need_no_reads(p, r1.take(cs.len() - 1), r2.take(cs.len() - 1));
        assert(cs.last().value is Ready);
    }
}

/// The JSON script blocks of a document set the same map whatever was read.
pub proof fn law_json_scripts_need_no_reads(
    html: Seq<char>,
    r1: Seq<Option<Json>>,
    r2: Seq<Option<Json>>,
)
    requires
        r1.len() == document_json_scripts(html).len(),
        r2.len() == document_json_scripts(html).len(),
    ensures
        apply_candidates(document_json_scripts(html), r1) == apply_candidates(
            document_json_scripts(html),
            r2,
        ),
{
    match html_selection(html, json_script_selector()) {
        Some(es) => law_json_scripts_hold_values(es),
        None => {},
    }
    law_values_need_no_reads(document_json_scripts(html), r1, r2);
}

} // verus!
