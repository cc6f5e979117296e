//! Classification, decoding and resolution of link targets.
//!
//! Every target is either external — it parses as an absolute URL, and is
//! discarded — or a local reference.  A local reference is percent-decoded;
//! when decoding fails the target is dropped and reported as a diagnostic,
//! otherwise the decoded text is resolved against the document's
//! directory.  Order is kept throughout.

use crate::paths::resolved_path;
use vstd::prelude::*;

verus! {

/// Whether a string parses as an absolute URL (scheme and the rest per
/// standard URL syntax).
pub uninterp spec fn is_absolute_url(s: Seq<char>) -> bool;

/// Relies on url::Url::parse: whether a string parses as an absolute URL
/// depends on the string alone.
#[verifier::external_body]
fn parses_as_url(s: &str) -> (r: bool)
    ensures
        r == is_absolute_url(s@),
{
    url::Url::parse(s).is_ok()
}

/// What percent-decoding a target yields: the text of the decoded bytes,
/// or nothing when the decoded bytes are not valid text.
pub uninterp spec fn percent_decoded(s: Seq<char>) -> Option<Seq<char>>;

/// Relies on percent_encoding::percent_decode_str and its UTF-8 check:
/// each `%XX` escape becomes the byte `XX`, every other character passes
/// through, and the decoded bytes form a text exactly when they are valid
/// UTF-8.  The outcome depends on the input characters alone.
#[verifier::external_body]
fn decode_percent(s: &str) -> (r: Result<String, String>)
    ensures
        r matches Ok(d) ==> percent_decoded(s@) == Some(d@),
        r matches Err(_) ==> percent_decoded(s@) is None,
{
    match percent_encoding::percent_decode_str(s).decode_utf8() {
        Ok(d) => Ok(d.into_owned()),
        Err(e) => Err(e.to_string()),
    }
}

/// A link target that was dropped because its percent-decoding failed,
/// with the decoder's description of the failure.
pub struct Diagnostic {
    /// The raw target as it stood in the document.
    pub raw: String,
    /// The decoder's description of what went wrong.
    pub message: String,
}

/// The raw targets of a list of diagnostics.
pub open spec fn diag_raws(ds: Seq<Diagnostic>) -> Seq<Seq<char>> {
    ds.map_values(|d: Diagnostic| d.raw@)
}

/// The resolved paths of the local references among `ts`, in order:
/// targets that parse as absolute URLs and targets whose decoding fails
/// contribute nothing.
pub open spec fn local_paths(ts: Seq<Seq<char>>, dir: Seq<char>) -> Seq<Seq<char>>
    decreases ts.len(),
{
    if ts.len() == 0 {
        Seq::empty()
    } else {
        let rest = local_paths(ts.drop_first(), dir);
        if is_absolute_url(ts[0]) {
            rest
        } else {
            match percent_decoded(ts[0]) {
                Some(d) => seq![resolved_path(dir, d)] + rest,
                None => rest,
            }
        }
    }
}

/// The local references among `ts` whose percent-decoding fails, in
/// order, as they stood in the document.
pub open spec fn decode_failures(ts: Seq<Seq<char>>) -> Seq<Seq<char>>
    decreases ts.len(),
{
    if ts.len() == 0 {
        Seq::empty()
    } else {
        let rest = decode_failures(ts.drop_first());
        if !is_absolute_url(ts[0]) && percent_decoded(ts[0]) is None {
            seq![ts[0]] + rest
        } else {
            rest
        }
    }
}

/// Whether `p` is the resolution of some target in `ts` that is a local
/// reference — one that does not parse as an absolute URL — and whose
/// decoding succeeds.
pub open spec fn from_local_target(p: Seq<char>, ts: Seq<Seq<char>>, dir: Seq<char>) -> bool {
    exists|j: int|
        0 <= j < ts.len() && !is_absolute_url(#[trigger] ts[j]) && percent_decoded(ts[j]) is Some
            && p == resolved_path(dir, percent_decoded(ts[j]).unwrap())
}

/// Law: classification is exclusive.  Every resolved path comes from a
/// target that does not parse as an absolute URL; a target that does
/// parse as one contributes nothing, in any form.
pub proof fn lemma_local_paths_from_targets(ts: Seq<Seq<char>>, dir: Seq<char>)
    ensures
        forall|i: int|
            0 <= i < local_paths(ts, dir).len() ==> from_local_target(
                #[trigger] local_paths(ts, dir)[i],
                ts,
                dir,
            ),
    decreases ts.len(),
{
    if ts.len() > 0 {
        let tail = ts.drop_first();
        lemma_local_paths_from_targets(tail, dir);
        assert forall|p: Seq<char>| from_local_target(p, tail, dir) implies from_local_target(
            p,
            ts,
            dir,
        ) by {
            let j = choose|j: int|
                0 <= j < tail.len() && !is_absolute_url(#[trigger] tail[j]) && percent_decoded(
                    tail[j],
                ) is Some && p == resolved_path(dir, percent_decoded(tail[j]).unwrap());
            assert(tail[j] == ts[j + 1]);
        }
        let rest = local_paths(tail, dir);
        if !is_absolute_url(ts[0]) && percent_decoded(ts[0]) is Some {
            let head = resolved_path(dir, percent_decoded(ts[0]).unwrap());
            assert(local_paths(ts, dir) == seq![head] + rest);
            assert forall|i: int| 0 <= i < local_paths(ts, dir).len() implies from_local_target(
                #[trigger] local_paths(ts, dir)[i],
                ts,
                dir,
            ) by {
                if i == 0 {
                    assert(local_paths(ts, dir)[0] == head);
                } else {
                    assert(local_paths(ts, dir)[i] == rest[i - 1]);
                }
            }
        } else {
            assert(local_paths(ts, dir) == rest);
        }
    }
}

/// Classify, decode and resolve every extracted target: the resolved
/// paths of the local references, and one diagnostic for each local
/// reference whose decoding failed, both in document order.
pub fn resolve_targets(targets: &Vec<String>, dir: &str) -> (r: (Vec<String>, Vec<Diagnostic>))
    ensures
        r.0.deep_view() == local_paths(targets.deep_view(), dir@),
        diag_raws(r.1@) == decode_failures(targets.deep_view()),
{
    let ghost ts = targets.deep_view();
    let mut paths: Vec<String> = Vec::new();
    let mut diags: Vec<Diagnostic> = Vec::new();
    let mut i: usize = 0;
    proof {
        assert(ts.skip(0) =~= ts);
        assert(paths.deep_view() + local_paths(ts, dir@) =~= local_paths(ts, dir@));
        assert(diag_raws(diags@) + decode_failures(ts) =~= decode_failures(ts));
    }
    while i < targets.len()
        invariant
            i <= targets.len(),
            ts == targets.deep_view(),
            ts.len() == targets.len(),
            local_paths(ts, dir@) == paths.deep_view() + local_paths(ts.skip(i as int), dir@),
            decode_failures(ts) == diag_raws(diags@) + decode_failures(ts.skip(i as int)),
        decreases targets.len() - i,
    {
        proof {
            assert(ts.skip(i as int)[0] == ts[i as int]);
            assert(ts.skip(i as int).drop_first() =~= ts.skip(i as int + 1));
        }
        let t = &targets[i];
        if !parses_as_url(t.as_str()) {
            match decode_percent(t.as_str()) {
                Ok(decoded) => {
                    let ghost before = paths.deep_view();
                    let resolved = crate::paths::resolve_path(dir, decoded.as_str());
                    paths.push(resolved);
                    proof {
                        assert(paths.deep_view() =~= before.push(
                            resolved_path(dir@, percent_decoded(ts[i as int]).unwrap()),
                        ));
                        assert(before.push(resolved_path(dir@, percent_decoded(ts[i as int]).unwrap()))
                            + local_paths(ts.skip(i as int + 1), dir@) =~= before + (seq![
                            resolved_path(dir@, percent_decoded(ts[i as int]).unwrap()),
                        ] + local_paths(ts.skip(i as int + 1), dir@)));
                    }
                },
                Err(message) => {
                    let ghost before = diags@;
                    diags.push(Diagnostic { raw: t.clone(), message });
                    proof {
                        assert(diag_raws(diags@) =~= diag_raws(before).push(ts[i as int]));
                        assert(diag_raws(before).push(ts[i as int]) + decode_failures(
                            ts.skip(i as int + 1),
                        ) =~= diag_raws(before) + (seq![ts[i as int]] + decode_failures(
                            ts.skip(i as int + 1),
                        )));
                    }
                },
            }
        }
        i = i + 1;
    }
    proof {
        assert(ts.skip(targets.len() as int) =~= Seq::<Seq<char>>::empty());
        assert(paths.deep_view() + local_paths(Seq::<Seq<char>>::empty(), dir@) =~= paths.deep_view());
        assert(diag_raws(diags@) + decode_failures(Seq::<Seq<char>>::empty()) =~= diag_raws(diags@));
    }
    (paths, diags)
}

} // verus!
