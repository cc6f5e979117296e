//! The structural model of a parsed Markdown document.
//!
//! A document is a tree of nodes; here it is carried as the pre-order,
//! depth-first, left-to-right walk of that tree: an `Enter` event when the
//! walk steps into a node (holding the node's link target when the node is
//! a link) and an `Exit` event when it leaves it.  Link extraction works on
//! this stream: it records every link target in document order and never
//! descends into a link node's own subtree, so a link's display text is
//! not searched for further targets.

use vstd::prelude::*;

verus! {

/// One step of the pre-order walk of a document tree.
pub enum MdEvent {
    /// The walk steps into a node.  `link_url` holds the raw link target
    /// when the node is a link node, and is `None` for every other kind.
    Enter { link_url: Option<String> },
    /// The walk leaves the node of the matching `Enter`.
    Exit,
}

/// The mathematical value of one event: the same shape over `Seq<char>`.
pub enum EventStep {
    Enter { link_url: Option<Seq<char>> },
    Exit,
}

impl View for MdEvent {
    type V = EventStep;

    open spec fn view(&self) -> EventStep {
        match self {
            MdEvent::Enter { link_url: Some(u) } => EventStep::Enter { link_url: Some(u@) },
            MdEvent::Enter { link_url: None } => EventStep::Enter { link_url: None },
            MdEvent::Exit => EventStep::Exit,
        }
    }
}

impl DeepView for MdEvent {
    type V = EventStep;

    open spec fn deep_view(&self) -> EventStep {
        self.view()
    }
}

/// How many events it takes, reading `evs`, for `depth` open `Enter`s to be
/// closed by their matching `Exit`s.  Reading an `Enter` opens one more,
/// reading an `Exit` closes one.  If the stream ends first, the whole
/// stream is consumed.
pub open spec fn subtree_len(evs: Seq<EventStep>, depth: nat) -> nat
    decreases evs.len(),
{
    if depth == 0 || evs.len() == 0 {
        0
    } else {
        match evs[0] {
            EventStep::Enter { .. } => 1 + subtree_len(evs.drop_first(), depth + 1),
            EventStep::Exit => 1 + subtree_len(evs.drop_first(), (depth - 1) as nat),
        }
    }
}

/// The link targets of a document, in pre-order, depth-first,
/// left-to-right order.  A link node contributes its own target and its
/// subtree is passed over whole, so nothing inside a link's display text
/// is ever recorded; every other node is walked into.
pub open spec fn link_targets(evs: Seq<EventStep>) -> Seq<Seq<char>>
    decreases evs.len(),
{
    if evs.len() == 0 {
        Seq::empty()
    } else {
        match evs[0] {
            EventStep::Enter { link_url: Some(u) } => {
                let rest = evs.drop_first();
                let k = subtree_len(rest, 1);
                if k <= rest.len() {
                    seq![u] + link_targets(rest.skip(k as int))
                } else {
                    seq![u]
                }
            },
            _ => link_targets(evs.drop_first()),
        }
    }
}

/// How many more nodes a stretch of events steps into than out of.
pub open spec fn excess(evs: Seq<EventStep>) -> int
    decreases evs.len(),
{
    if evs.len() == 0 {
        0
    } else {
        (match evs[0] {
            EventStep::Enter { .. } => 1int,
            EventStep::Exit => -1int,
        }) + excess(evs.drop_first())
    }
}

/// A stretch of events is balanced when every node it steps into it also
/// steps out of, and never out of one it did not step into: the walk of a
/// complete forest of subtrees.
pub open spec fn balanced(evs: Seq<EventStep>) -> bool {
    excess(evs) == 0 && forall|k: int| 0 <= k <= evs.len() ==> excess(#[trigger] evs.take(k)) >= 0
}

/// Reading `a + b` from depth `d` consumes all of `a` and goes on into
/// `b`, provided the depth stays positive throughout `a`.
proof fn lemma_subtree_len_concat(a: Seq<EventStep>, b: Seq<EventStep>, d: nat)
    requires
        forall|k: int| 0 <= k <= a.len() ==> excess(#[trigger] a.take(k)) + d > 0,
    ensures
        subtree_len(a + b, d) == a.len() + subtree_len(b, (d + excess(a)) as nat),
    decreases a.len(),
{
    if a.len() == 0 {
        assert(a + b =~= b);
        assert(a.take(0) =~= a);
    } else {
        assert(a.take(0) =~= Seq::<EventStep>::empty());
        assert((a + b)[0] == a[0]);
        assert((a + b).drop_first() =~= a.drop_first() + b);
        assert forall|k: int| 0 <= k <= a.drop_first().len() implies excess(
            #[trigger] a.drop_first().take(k),
        ) == excess(a.take(k + 1)) - (match a[0] {
            EventStep::Enter { .. } => 1int,
            EventStep::Exit => -1int,
        }) by {
            assert(a.take(k + 1).drop_first() =~= a.drop_first().take(k));
            assert(a.take(k + 1)[0] == a[0]);
        }
        match a[0] {
            EventStep::Enter { .. } => {
                lemma_subtree_len_concat(a.drop_first(), b, d + 1);
            },
            EventStep::Exit => {
                assert(a.take(1)[0] == a[0]);
                assert(a.take(1).drop_first() =~= Seq::<EventStep>::empty());
                assert(excess(a.take(1)) + d > 0);
                lemma_subtree_len_concat(a.drop_first(), b, (d - 1) as nat);
            },
        }
    }
}

/// Law: a link's display text is not searched for further targets.  A
/// link node whose subtree walk is `text` — balanced, as every complete
/// walk is — contributes its own target and nothing from `text`, however
/// link-like `text` may look; extraction goes on behind the link.
pub proof fn lemma_link_text_not_scanned(u: Seq<char>, text: Seq<EventStep>, rest: Seq<EventStep>)
    requires
        balanced(text),
    ensures
        link_targets(
            seq![EventStep::Enter { link_url: Some(u) }] + text + seq![EventStep::Exit] + rest,
        ) == seq![u] + link_targets(rest),
{
    let whole = seq![EventStep::Enter { link_url: Some(u) }] + text + seq![EventStep::Exit] + rest;
    let tail = seq![EventStep::Exit] + rest;
    assert(whole[0] == EventStep::Enter { link_url: Some(u) });
    assert(whole.drop_first() =~= text + tail);
    assert forall|k: int| 0 <= k <= text.len() implies excess(#[trigger] text.take(k)) + 1 > 0 by {
        assert(excess(text.take(k)) >= 0);
    }
    lemma_subtree_len_concat(text, tail, 1);
    assert(tail[0] == EventStep::Exit);
    assert(tail.drop_first() =~= rest);
    assert(subtree_len(tail, 1) == 1 + subtree_len(rest, 0));
    let k = subtree_len(whole.drop_first(), 1);
    assert(k == text.len() + 1);
    assert((text + tail).skip(k as int) =~= rest);
}

/// Whether an event steps into a link node.
pub open spec fn is_link_enter(e: EventStep) -> bool {
    e matches EventStep::Enter { link_url: Some(_) }
}

/// Law: a document without link nodes yields no link targets.
pub proof fn lemma_no_links_no_targets(evs: Seq<EventStep>)
    requires
        forall|k: int| 0 <= k < evs.len() ==> !is_link_enter(#[trigger] evs[k]),
    ensures
        link_targets(evs) == Seq::<Seq<char>>::empty(),
    decreases evs.len(),
{
    if evs.len() > 0 {
        assert(!is_link_enter(evs[0]));
        assert forall|k: int| 0 <= k < evs.drop_first().len() implies !is_link_enter(
            #[trigger] evs.drop_first()[k],
        ) by {
            assert(evs.drop_first()[k] == evs[k + 1]);
        }
        lemma_no_links_no_targets(evs.drop_first());
    }
}

proof fn lemma_skip_skip<T>(s: Seq<T>, a: int, b: int)
    requires
        0 <= a,
        0 <= b,
        a + b <= s.len(),
    ensures
        s.skip(a).skip(b) == s.skip(a + b),
{
    assert(s.skip(a).skip(b) =~= s.skip(a + b));
}

/// Collect the link targets of a document, in document order.
pub fn collect_links(events: &Vec<MdEvent>) -> (out: Vec<String>)
    ensures
        out.deep_view() == link_targets(events.deep_view()),
{
    let ghost evs = events.deep_view();
    let mut out: Vec<String> = Vec::new();
    let mut i: usize = 0;
    proof {
        assert(evs.skip(0) =~= evs);
        assert(out.deep_view() + link_targets(evs) =~= link_targets(evs));
    }
    while i < events.len()
        invariant
            i <= events.len(),
            evs == events.deep_view(),
            evs.len() == events.len(),
            link_targets(evs) == out.deep_view() + link_targets(evs.skip(i as int)),
        decreases events.len() - i,
    {
        match &events[i] {
            MdEvent::Enter { link_url: Some(u) } => {
                let ghost rest = evs.skip(i as int + 1);
                let ghost out_before = out.deep_view();
                out.push(u.clone());
                proof {
                    assert(out.deep_view() =~= out_before.push(u@));
                }
                let mut depth: usize = 1;
                let mut j: usize = i + 1;
                while j < events.len() && depth > 0
                    invariant
                        i + 1 <= j <= events.len(),
                        depth <= j - i,
                        evs == events.deep_view(),
                        evs.len() == events.len(),
                        rest == evs.skip(i as int + 1),
                        subtree_len(rest, 1) == (j - i - 1) + subtree_len(
                            evs.skip(j as int),
                            depth as nat,
                        ),
                    decreases events.len() - j,
                {
                    proof {
                        assert(evs.skip(j as int)[0] == evs[j as int]);
                        assert(evs.skip(j as int).drop_first() =~= evs.skip(j as int + 1));
                    }
                    match &events[j] {
                        MdEvent::Enter { .. } => {
                            depth = depth + 1;
                        },
                        MdEvent::Exit => {
                            depth = depth - 1;
                        },
                    }
                    j = j + 1;
                }
                proof {
                    if j == events.len() {
                        assert(evs.skip(j as int) =~= Seq::<EventStep>::empty());
                    }
                    let k = subtree_len(rest, 1);
                    assert(k == j - i - 1);
                    lemma_skip_skip(evs, i as int + 1, k as int);
                    assert(evs.skip(i as int).drop_first() =~= rest);
                    assert(evs.skip(i as int)[0] == evs[i as int]);
                    assert(link_targets(evs.skip(i as int)) == seq![u@] + link_targets(
                        evs.skip(j as int),
                    ));
                    assert(out_before.push(u@) + link_targets(evs.skip(j as int)) =~= out_before + (
                    seq![u@] + link_targets(evs.skip(j as int))));
                }
                i = j;
            },
            _ => {
                proof {
                    assert(evs.skip(i as int)[0] == evs[i as int]);
                    assert(evs.skip(i as int).drop_first() =~= evs.skip(i as int + 1));
                }
                i = i + 1;
            },
        }
    }
    proof {
        assert(evs.skip(events.len() as int) =~= Seq::<EventStep>::empty());
        assert(out.deep_view() + link_targets(Seq::<EventStep>::empty()) =~= out.deep_view());
    }
    out
}

/// Append every link target found in `events` to `output`, in document
/// order, leaving what `output` already held in place.
pub fn extract_links(events: &Vec<MdEvent>, output: &mut Vec<String>)
    ensures
        final(output).deep_view() == old(output).deep_view() + link_targets(events.deep_view()),
{
    let ghost before = output.deep_view();
    let mut found = collect_links(events);
    let ghost found_view = found.deep_view();
    output.append(&mut found);
    proof {
        assert(output.deep_view() =~= before + found_view);
    }
}

} // verus!
