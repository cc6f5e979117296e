//! The whole pipeline for one document: parse, extract, classify, decode,
//! resolve, probe.
//!
//! The stages up to resolution are functions of the document text and the
//! document path alone.  The last stage asks the filesystem whether each
//! resolved path names an entry; what is on disk is outside this model,
//! so the result is stated against the probe outcomes, whatever they are.

use crate::events::link_targets;
use crate::parse::{parse_markdown, parsed_events};
use crate::paths::{parent_dir, parent_of};
use crate::resolve::{decode_failures, diag_raws, local_paths, resolve_targets, Diagnostic};
use vstd::prelude::*;

verus! {

/// Relies on std::path::Path::exists: probes the filesystem for an entry
/// of any kind at the given path.  What is on disk can change between
/// calls, so nothing is stated of the outcome.
#[verifier::external_body]
fn path_exists(p: &str) -> bool {
    std::path::Path::new(p).exists()
}

/// The paths among `paths` whose probe found nothing, in order.
/// `present` holds one probe outcome per path.
pub open spec fn missing_of(paths: Seq<Seq<char>>, present: Seq<bool>) -> Seq<Seq<char>>
    decreases paths.len(),
{
    if paths.len() == 0 {
        Seq::empty()
    } else {
        let rest = missing_of(paths.drop_first(), present.drop_first());
        let found = present.len() > 0 && present[0];
        if found {
            rest
        } else {
            seq![paths[0]] + rest
        }
    }
}

/// Keep the paths whose probe found nothing, in order.
pub fn filter_missing(paths: &Vec<String>, present: &Vec<bool>) -> (r: Vec<String>)
    requires
        paths@.len() == present@.len(),
    ensures
        r.deep_view() == missing_of(paths.deep_view(), present@),
{
    let ghost ps = paths.deep_view();
    let mut out: Vec<String> = Vec::new();
    let mut i: usize = 0;
    proof {
        assert(ps.skip(0) =~= ps);
        assert(present@.skip(0) =~= present@);
        assert(out.deep_view() + missing_of(ps, present@) =~= missing_of(ps, present@));
    }
    while i < paths.len()
        invariant
            i <= paths.len(),
            ps == paths.deep_view(),
            ps.len() == paths.len() == present@.len(),
            missing_of(ps, present@) == out.deep_view() + missing_of(
                ps.skip(i as int),
                present@.skip(i as int),
            ),
        decreases paths.len() - i,
    {
        proof {
            assert(ps.skip(i as int)[0] == ps[i as int]);
            assert(present@.skip(i as int)[0] == present@[i as int]);
            assert(ps.skip(i as int).drop_first() =~= ps.skip(i as int + 1));
            assert(present@.skip(i as int).drop_first() =~= present@.skip(i as int + 1));
        }
        if !present[i] {
            let ghost before = out.deep_view();
            out.push(paths[i].clone());
            proof {
                assert(out.deep_view() =~= before.push(ps[i as int]));
                assert(before.push(ps[i as int]) + missing_of(
                    ps.skip(i as int + 1),
                    present@.skip(i as int + 1),
                ) =~= before + (seq![ps[i as int]] + missing_of(
                    ps.skip(i as int + 1),
                    present@.skip(i as int + 1),
                )));
            }
        }
        i = i + 1;
    }
    proof {
        assert(ps.skip(paths.len() as int) =~= Seq::<Seq<char>>::empty());
        assert(out.deep_view() + missing_of(Seq::<Seq<char>>::empty(), present@.skip(paths.len() as int))
            =~= out.deep_view());
    }
    out
}

/// Check one document for broken local links.
///
/// `text` is the document's content and `doc_path` its place on disk,
/// which supplies the base directory for relative references.  Returns
/// the resolved paths that no filesystem entry answered for, in document
/// order, and one diagnostic for each target whose decoding failed.  The
/// part up to the probes is a function of the two arguments alone; the
/// probes decide which resolved paths are reported.
pub fn get_missing_links(text: &str, doc_path: &str) -> (r: (Vec<String>, Vec<Diagnostic>))
    ensures
        ({
            let ts = link_targets(parsed_events(text@));
            let candidates = local_paths(ts, parent_of(doc_path@));
            &&& diag_raws(r.1@) == decode_failures(ts)
            &&& exists|present: Seq<bool>|
                present.len() == candidates.len() && r.0.deep_view() == missing_of(
                    candidates,
                    present,
                )
            &&& is_subsequence(r.0.deep_view(), candidates)
        }),
{
    let events = parse_markdown(text);
    let mut targets: Vec<String> = Vec::new();
    proof {
        assert(targets.deep_view() =~= Seq::<Seq<char>>::empty());
    }
    crate::events::extract_links(&events, &mut targets);
    proof {
        assert(Seq::<Seq<char>>::empty() + link_targets(events.deep_view()) =~= link_targets(
            events.deep_view(),
        ));
    }
    let dir = parent_dir(doc_path);
    let (candidates, diags) = resolve_targets(&targets, dir.as_str());
    let mut present: Vec<bool> = Vec::new();
    let mut i: usize = 0;
    while i < candidates.len()
        invariant
            i <= candidates.len(),
            present@.len() == i,
        decreases candidates.len() - i,
    {
        let found = path_exists(candidates[i].as_str());
        present.push(found);
        i = i + 1;
    }
    let missing = filter_missing(&candidates, &present);
    proof {
        let ts = link_targets(parsed_events(text@));
        let cs = local_paths(ts, parent_of(doc_path@));
        assert(missing.deep_view() == missing_of(cs, present@));
        lemma_missing_keeps_order(cs, present@);
    }
    (missing, diags)
}

/// Whether `a` is `b` with zero or more elements removed, the order of
/// the rest untouched.
pub open spec fn is_subsequence(a: Seq<Seq<char>>, b: Seq<Seq<char>>) -> bool
    decreases b.len(),
{
    if a.len() == 0 {
        true
    } else if b.len() == 0 {
        false
    } else {
        (a[0] == b[0] && is_subsequence(a.drop_first(), b.drop_first())) || is_subsequence(
            a,
            b.drop_first(),
        )
    }
}

/// Law: order preservation.  The missing list is the candidate list with
/// the paths that were found removed, so its order is the candidates'
/// order — which is the pre-order, depth-first, left-to-right order of
/// the links in the document.
pub proof fn lemma_missing_keeps_order(paths: Seq<Seq<char>>, present: Seq<bool>)
    ensures
        is_subsequence(missing_of(paths, present), paths),
    decreases paths.len(),
{
    if paths.len() > 0 {
        lemma_missing_keeps_order(paths.drop_first(), present.drop_first());
        let rest = missing_of(paths.drop_first(), present.drop_first());
        if !(present.len() > 0 && present[0]) {
            assert(missing_of(paths, present) == seq![paths[0]] + rest);
            assert((seq![paths[0]] + rest).drop_first() =~= rest);
        }
    }
}

/// Every element of a subsequence is an element of the longer list.
pub proof fn lemma_subsequence_membership(a: Seq<Seq<char>>, b: Seq<Seq<char>>)
    requires
        is_subsequence(a, b),
    ensures
        forall|i: int| 0 <= i < a.len() ==> b.contains(#[trigger] a[i]),
    decreases b.len(),
{
    if a.len() > 0 && b.len() > 0 {
        if a[0] == b[0] && is_subsequence(a.drop_first(), b.drop_first()) {
            lemma_subsequence_membership(a.drop_first(), b.drop_first());
            assert forall|i: int| 0 <= i < a.len() implies b.contains(#[trigger] a[i]) by {
                if i == 0 {
                    assert(b[0] == a[i]);
                } else {
                    assert(a.drop_first()[i - 1] == a[i]);
                    let k = choose|k: int|
                        0 <= k < b.drop_first().len() && b.drop_first()[k] == a[i];
                    assert(b[k + 1] == a[i]);
                }
            }
        } else {
            lemma_subsequence_membership(a, b.drop_first());
            assert forall|i: int| 0 <= i < a.len() implies b.contains(#[trigger] a[i]) by {
                let k = choose|k: int| 0 <= k < b.drop_first().len() && b.drop_first()[k] == a[i];
                assert(b[k + 1] == a[i]);
            }
        }
    }
}

/// Law: external targets are never reported.  Every path in the missing
/// list is the resolution of a local reference; a target that parses as
/// an absolute URL appears in no form in the output.
pub proof fn lemma_externals_never_reported(
    ts: Seq<Seq<char>>,
    dir: Seq<char>,
    present: Seq<bool>,
)
    ensures
        forall|i: int|
            0 <= i < missing_of(local_paths(ts, dir), present).len()
                ==> crate::resolve::from_local_target(
                #[trigger] missing_of(local_paths(ts, dir), present)[i],
                ts,
                dir,
            ),
{
    let candidates = local_paths(ts, dir);
    let missing = missing_of(candidates, present);
    lemma_missing_keeps_order(candidates, present);
    lemma_subsequence_membership(missing, candidates);
    crate::resolve::lemma_local_paths_from_targets(ts, dir);
    assert forall|i: int| 0 <= i < missing.len() implies crate::resolve::from_local_target(
        #[trigger] missing[i],
        ts,
        dir,
    ) by {
        let k = choose|k: int| 0 <= k < candidates.len() && candidates[k] == missing[i];
        assert(crate::resolve::from_local_target(candidates[k], ts, dir));
    }
}

/// Law: the pipeline up to the probes is a function of the document text
/// and the document path alone, so two runs over an unchanged document
/// against an unchanged filesystem — the same probe outcome for every
/// candidate — return identical, order-identical missing lists.
pub proof fn lemma_unchanged_runs_agree(
    text: Seq<char>,
    doc_path: Seq<char>,
    present: Seq<bool>,
    r1: Seq<Seq<char>>,
    r2: Seq<Seq<char>>,
)
    requires
        r1 == missing_of(
            local_paths(link_targets(parsed_events(text)), parent_of(doc_path)),
            present,
        ),
        r2 == missing_of(
            local_paths(link_targets(parsed_events(text)), parent_of(doc_path)),
            present,
        ),
    ensures
        r1 == r2,
{
}

/// Law: a document with no link nodes reports nothing missing, whatever
/// the directory and whatever is on disk.
pub proof fn lemma_no_links_nothing_missing(
    evs: Seq<crate::events::EventStep>,
    dir: Seq<char>,
    present: Seq<bool>,
)
    requires
        forall|k: int| 0 <= k < evs.len() ==> !crate::events::is_link_enter(#[trigger] evs[k]),
    ensures
        missing_of(local_paths(link_targets(evs), dir), present) == Seq::<Seq<char>>::empty(),
{
    crate::events::lemma_no_links_no_targets(evs);
}

} // verus!
