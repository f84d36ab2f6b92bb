//! The proposal index: pairing proposal roots with their patch chains,
//! resolving each proposal's state from status events, and matching a git
//! ref name to the proposal it derives from.
use vstd::prelude::*;

use crate::chain::{
    get_most_recent_patch_with_ancestors, lemma_newer_pair_irrefl, lemma_newer_pair_trans,
    newer_pair, pair_newer, thread_key_matches,
};
use crate::cover_letter::{
    event_to_cover_letter, slugify, spec_parse_cover_letter, spec_slugify,
};
use crate::events::{
    Event, STATUS_KIND_OPEN, all_wf, clone_event, event_is_revision_root, event_like,
    is_status_kind, lemma_event_like_tags, spec_event_is_revision_root, spec_from_events,
    spec_is_chain_root, spec_thread_key,
};
use crate::strutil::{starts_with_spec, starts_with_str, str_eq, substr_string};

verus! {

/// True when some `e` tag of the event names `id`.
pub open spec fn spec_e_tag_names(e: Event, id: Seq<char>) -> bool {
    exists|i: int|
        0 <= i < e.tags@.len() && (#[trigger] e.tags@[i])@[0]@ == "e"@ && e.tags@[i]@[1]@ == id
}

fn e_tag_names(e: &Event, id: &str) -> (r: bool)
    requires
        e.wf(),
    ensures
        r == spec_e_tag_names(*e, id@),
{
    let n: usize = e.tags.len();
    let mut i: usize = 0;
    while i < n
        invariant
            0 <= i <= n,
            n == e.tags@.len(),
            e.wf(),
            forall|j: int|
                0 <= j < i ==> !((#[trigger] e.tags@[j])@[0]@ == "e"@ && e.tags@[j]@[1]@ == id@),
        decreases n - i,
    {
        let t = &e.tags[i];
        if str_eq(t[0].as_str(), "e") && str_eq(t[1].as_str(), id) {
            return true;
        }
        i = i + 1;
    }
    false
}

/// True when status event `e` refers to the proposal root `root_id`: its
/// kind is a status kind and an `e` tag names the root id.
pub open spec fn spec_status_matches(e: Event, root_id: Seq<char>) -> bool {
    is_status_kind(e.kind) && spec_e_tag_names(e, root_id)
}

fn status_matches(e: &Event, root_id: &str) -> (r: bool)
    requires
        e.wf(),
    ensures
        r == spec_status_matches(*e, root_id@),
{
    let k = e.kind;
    if !(k == crate::events::STATUS_KIND_OPEN || k == crate::events::STATUS_KIND_APPLIED || k
        == crate::events::STATUS_KIND_CLOSED || k == crate::events::STATUS_KIND_DRAFT) {
        return false;
    }
    e_tag_names(e, root_id)
}

/// The dominant status event of a proposal: among the status events that
/// name `root_id`, the one with the greatest `created_at`, ties broken by
/// the lexicographically greater event id; of events tied in both, the
/// earliest in the list.
pub open spec fn spec_status_best(statuses: Seq<Event>, root_id: Seq<char>) -> Option<Event>
    decreases statuses.len(),
{
    if statuses.len() == 0 {
        None
    } else {
        let prev = spec_status_best(statuses.drop_last(), root_id);
        let e = statuses.last();
        if spec_status_matches(e, root_id) && (match prev {
            None => true,
            Some(p) => newer_pair((e.created_at, e.id@), (p.created_at, p.id@)),
        }) {
            Some(e)
        } else {
            prev
        }
    }
}

/// The dominant status kind: the kind of the dominant status event, Open
/// when no status event names the proposal.
pub open spec fn spec_dominant_kind(statuses: Seq<Event>, root_id: Seq<char>) -> u64 {
    match spec_status_best(statuses, root_id) {
        Some(e) => e.kind,
        None => STATUS_KIND_OPEN,
    }
}

/// The dominant status of a proposal is `k`: either no status event names
/// the proposal and `k` is Open, or some status event with kind `k` names
/// it and no other matching status event is newer (greater `created_at`,
/// ties broken by the lexicographically greater event id).
pub open spec fn spec_dominant_is(statuses: Seq<Event>, root_id: Seq<char>, k: u64) -> bool {
    if exists|j: int| 0 <= j < statuses.len() && spec_status_matches(#[trigger] statuses[j], root_id) {
        exists|j: int|
            0 <= j < statuses.len() && spec_status_matches(#[trigger] statuses[j], root_id)
                && statuses[j].kind == k && forall|m: int|
                0 <= m < statuses.len() && spec_status_matches(#[trigger] statuses[m], root_id)
                    ==> !newer_pair(
                    (statuses[m].created_at, statuses[m].id@),
                    (statuses[j].created_at, statuses[j].id@),
                )
    } else {
        k == STATUS_KIND_OPEN
    }
}

/// Status dominance: the dominant status kind is the kind of a matching
/// status event that no other matching status event beats on
/// `created_at` (ties broken by the lexicographically greater id), and it
/// is Open exactly when no status event names the proposal at all.
pub proof fn lemma_dominant_is_newest(statuses: Seq<Event>, root_id: Seq<char>)
    ensures
        spec_dominant_is(statuses, root_id, spec_dominant_kind(statuses, root_id)),
        match spec_status_best(statuses, root_id) {
            Some(e) => exists|j: int|
                0 <= j < statuses.len() && statuses[j] == e && spec_status_matches(
                    #[trigger] statuses[j],
                    root_id,
                ) && forall|m: int|
                    0 <= m < statuses.len() && spec_status_matches(#[trigger] statuses[m], root_id)
                        ==> !newer_pair(
                        (statuses[m].created_at, statuses[m].id@),
                        (e.created_at, e.id@),
                    ),
            None => forall|j: int|
                0 <= j < statuses.len() ==> !spec_status_matches(#[trigger] statuses[j], root_id),
        },
    decreases statuses.len(),
{
    if statuses.len() > 0 {
        let shorter = statuses.drop_last();
        lemma_dominant_is_newest(shorter, root_id);
        let e = statuses.last();
        let prev = spec_status_best(shorter, root_id);
        assert forall|j: int| 0 <= j < shorter.len() implies #[trigger] statuses[j]
            == shorter[j] by {}
        match spec_status_best(statuses, root_id) {
            Some(b) => {
                if spec_status_matches(e, root_id) && (match prev {
                    None => true,
                    Some(p) => newer_pair((e.created_at, e.id@), (p.created_at, p.id@)),
                }) {
                    assert(b == e);
                    assert(statuses[statuses.len() - 1] == e);
                    assert forall|m: int|
                        0 <= m < statuses.len() && spec_status_matches(
                            #[trigger] statuses[m],
                            root_id,
                        ) implies !newer_pair(
                        (statuses[m].created_at, statuses[m].id@),
                        (e.created_at, e.id@),
                    ) by {
                        if m == statuses.len() - 1 {
                            lemma_newer_pair_irrefl((e.created_at, e.id@));
                        } else if newer_pair(
                            (statuses[m].created_at, statuses[m].id@),
                            (e.created_at, e.id@),
                        ) {
                            let p = prev.unwrap();
                            lemma_newer_pair_trans(
                                (statuses[m].created_at, statuses[m].id@),
                                (e.created_at, e.id@),
                                (p.created_at, p.id@),
                            );
                        }
                    }
                } else {
                    assert(b == prev.unwrap());
                    assert forall|m: int|
                        0 <= m < statuses.len() && spec_status_matches(
                            #[trigger] statuses[m],
                            root_id,
                        ) implies !newer_pair(
                        (statuses[m].created_at, statuses[m].id@),
                        (b.created_at, b.id@),
                    ) by {
                        if m == statuses.len() - 1 {
                            assert(!newer_pair((e.created_at, e.id@), (b.created_at, b.id@)));
                        }
                    }
                }
            },
            None => {
                assert(prev is None);
                assert(!spec_status_matches(e, root_id));
            },
        }
    }
}

/// Resolves a proposal's state: the kind of the newest status event that
/// names it, `Open` when none does. Ties on `created_at` go to the
/// lexicographically greater event id, then to the earlier event.
pub fn dominant_status_kind(root_id: &str, statuses: &Vec<Event>) -> (r: u64)
    requires
        all_wf(statuses@),
    ensures
        r == spec_dominant_kind(statuses@, root_id@),
        spec_dominant_is(statuses@, root_id@, r),
{
    let n: usize = statuses.len();
    let mut best: usize = n;
    let mut i: usize = 0;
    proof {
        assert(statuses@.take(0) =~= Seq::<Event>::empty());
    }
    while i < n
        invariant
            0 <= i <= n,
            best <= n,
            n == statuses@.len(),
            all_wf(statuses@),
            best == n ==> spec_status_best(statuses@.take(i as int), root_id@) is None,
            best < n ==> best < i && spec_status_best(statuses@.take(i as int), root_id@) == Some(
                statuses@[best as int],
            ),
        decreases n - i,
    {
        proof {
            assert(statuses@.take(i + 1).drop_last() =~= statuses@.take(i as int));
            assert(statuses@.take(i + 1).last() == statuses@[i as int]);
        }
        if status_matches(&statuses[i], root_id) {
            if best == n {
                best = i;
            } else {
                let cur = &statuses[best];
                let cand = &statuses[i];
                if pair_newer(cand.created_at, cand.id.as_str(), cur.created_at, cur.id.as_str()) {
                    best = i;
                }
            }
        }
        i = i + 1;
    }
    proof {
        assert(statuses@.take(n as int) =~= statuses@);
        lemma_dominant_is_newest(statuses@, root_id@);
    }
    if best == n {
        STATUS_KIND_OPEN
    } else {
        statuses[best].kind
    }
}

/// The dominant status of `root_id` is Open.
pub open spec fn spec_dominant_is_open(statuses: Seq<Event>, root_id: Seq<char>) -> bool {
    spec_dominant_kind(statuses, root_id) == STATUS_KIND_OPEN
}

/// A revision root that supersedes the proposal rooted at `root_id`: it
/// names the earlier root in an `e` tag.
pub open spec fn spec_is_revision_of(rr: Event, root_id: Seq<char>) -> bool {
    spec_event_is_revision_root(rr) && spec_e_tag_names(rr, root_id)
}

/// True when patch event `e` belongs to the proposal rooted at `root_id`:
/// it is the root, it threads to the root, or it threads to a revision
/// root of the proposal.
pub open spec fn spec_belongs(e: Event, root_id: Seq<char>, patches: Seq<Event>) -> bool {
    e.id@ == root_id || spec_thread_key(e) == Some(root_id) || exists|m: int|
        0 <= m < patches.len() && spec_is_revision_of(#[trigger] patches[m], root_id)
            && spec_thread_key(e) == Some(patches[m].id@)
}

fn belongs(e: &Event, root_id: &str, patches: &Vec<Event>) -> (r: bool)
    requires
        e.wf(),
        all_wf(patches@),
    ensures
        r == spec_belongs(*e, root_id@, patches@),
{
    if str_eq(e.id.as_str(), root_id) || thread_key_matches(e, root_id) {
        return true;
    }
    let n: usize = patches.len();
    let mut m: usize = 0;
    while m < n
        invariant
            0 <= m <= n,
            n == patches@.len(),
            e.wf(),
            all_wf(patches@),
            forall|j: int|
                0 <= j < m ==> !(spec_is_revision_of(#[trigger] patches@[j], root_id@)
                    && spec_thread_key(*e) == Some(patches@[j].id@)),
        decreases n - m,
    {
        let rr = &patches[m];
        if event_is_revision_root(rr) && e_tag_names(rr, root_id) && thread_key_matches(
            e,
            rr.id.as_str(),
        ) {
            return true;
        }
        m = m + 1;
    }
    false
}

/// Selects, out of all patch events of a repository, those belonging to
/// the proposal rooted at `root_id`, revisions included.
pub fn events_for_proposal(patches: &Vec<Event>, root_id: &str) -> (r: Vec<Event>)
    requires
        all_wf(patches@),
    ensures
        all_wf(r@),
        forall|i: int| 0 <= i < r@.len() ==> spec_belongs(#[trigger] r@[i], root_id@, patches@),
        forall|i: int| 0 <= i < r@.len() ==> spec_from_events(patches@, #[trigger] r@[i]),
        forall|j: int|
            0 <= j < patches@.len() && spec_belongs(#[trigger] patches@[j], root_id@, patches@)
                ==> exists|i: int| 0 <= i < r@.len() && event_like(patches@[j], #[trigger] r@[i]),
{
    let n: usize = patches.len();
    let mut r: Vec<Event> = Vec::new();
    let mut j: usize = 0;
    while j < n
        invariant
            0 <= j <= n,
            n == patches@.len(),
            all_wf(patches@),
            all_wf(r@),
            forall|i: int| 0 <= i < r@.len() ==> spec_belongs(#[trigger] r@[i], root_id@, patches@),
            forall|i: int| 0 <= i < r@.len() ==> spec_from_events(patches@, #[trigger] r@[i]),
            forall|j2: int|
                0 <= j2 < j && spec_belongs(#[trigger] patches@[j2], root_id@, patches@)
                    ==> exists|i: int|
                    0 <= i < r@.len() && event_like(patches@[j2], #[trigger] r@[i]),
        decreases n - j,
    {
        let ghost r0 = r@;
        if belongs(&patches[j], root_id, patches) {
            let c = clone_event(&patches[j]);
            proof {
                assert(patches@[j as int].wf());
                lemma_event_like_tags(patches@[j as int], c);
                assert(spec_belongs(c, root_id@, patches@));
            }
            r.push(c);
            proof {
                assert(r@ =~= r0.push(c));
                assert forall|i: int|
                    0 <= i < r@.len() implies spec_belongs(
                    #[trigger] r@[i],
                    root_id@,
                    patches@,
                ) by {
                    if i < r0.len() {
                        assert(r@[i] == r0[i]);
                    } else {
                        assert(r@[i] == c);
                    }
                }
                assert forall|i: int|
                    0 <= i < r@.len() implies spec_from_events(patches@, #[trigger] r@[i]) by {
                    if i < r0.len() {
                        assert(r@[i] == r0[i]);
                    } else {
                        assert(r@[i] == c);
                        assert(event_like(patches@[j as int], c));
                    }
                }
                assert forall|j2: int|
                    0 <= j2 < j + 1 && spec_belongs(#[trigger] patches@[j2], root_id@, patches@)
                        implies exists|i: int|
                    0 <= i < r@.len() && event_like(patches@[j2], #[trigger] r@[i]) by {
                    if j2 == j {
                        assert(event_like(patches@[j as int], r@[r@.len() - 1]));
                    } else {
                        let i0 = choose|i0: int|
                            0 <= i0 < r0.len() && event_like(patches@[j2], #[trigger] r0[i0]);
                        assert(event_like(patches@[j2], r@[i0]));
                    }
                }
            }
        }
        j = j + 1;
    }
    r
}

/// One indexed proposal: its root event and its resolved patch chain.
pub struct Proposal {
    pub root: Event,
    pub chain: Vec<Event>,
}

/// Events that carry the same data are chain roots together and belong
/// to the same proposals.
proof fn lemma_event_like_belongs(a: Event, b: Event, root_id: Seq<char>, patches: Seq<Event>)
    requires
        event_like(a, b),
        a.wf(),
    ensures
        spec_is_chain_root(a) == spec_is_chain_root(b),
        spec_thread_key(a) == spec_thread_key(b),
        spec_belongs(a, root_id, patches) == spec_belongs(b, root_id, patches),
{
    lemma_event_like_tags(a, b);
    assert(spec_thread_key(a) == spec_thread_key(b));
    if spec_belongs(a, root_id, patches) && a.id@ != root_id && spec_thread_key(a) != Some(
        root_id,
    ) {
        let m = choose|m: int|
            0 <= m < patches.len() && spec_is_revision_of(#[trigger] patches[m], root_id)
                && spec_thread_key(a) == Some(patches[m].id@);
        assert(spec_thread_key(b) == Some(patches[m].id@));
    }
    if spec_belongs(b, root_id, patches) && b.id@ != root_id && spec_thread_key(b) != Some(
        root_id,
    ) {
        let m = choose|m: int|
            0 <= m < patches.len() && spec_is_revision_of(#[trigger] patches[m], root_id)
                && spec_thread_key(b) == Some(patches[m].id@);
        assert(spec_thread_key(a) == Some(patches[m].id@));
    }
}

/// Some patch event belonging to the proposal rooted at `root_id` is a
/// chain root: the condition under which a chain can be resolved.
pub open spec fn spec_has_chain_root(patches: Seq<Event>, root_id: Seq<char>) -> bool {
    exists|m: int|
        0 <= m < patches.len() && spec_belongs(#[trigger] patches[m], root_id, patches)
            && spec_is_chain_root(patches[m])
}

/// When the selection for a proposal holds no chain root, no patch event
/// belonging to the proposal is one either.
proof fn lemma_no_chain_in_selection(
    patches: Seq<Event>,
    selected: Seq<Event>,
    root_id: Seq<char>,
)
    requires
        all_wf(patches),
        forall|j: int|
            0 <= j < patches.len() && spec_belongs(#[trigger] patches[j], root_id, patches)
                ==> exists|i: int|
                0 <= i < selected.len() && event_like(patches[j], #[trigger] selected[i]),
        forall|j: int| 0 <= j < selected.len() ==> !spec_is_chain_root(#[trigger] selected[j]),
    ensures
        !spec_has_chain_root(patches, root_id),
{
    if spec_has_chain_root(patches, root_id) {
        let m = choose|m: int|
            0 <= m < patches.len() && spec_belongs(#[trigger] patches[m], root_id, patches)
                && spec_is_chain_root(patches[m]);
        let i = choose|i: int|
            0 <= i < selected.len() && event_like(patches[m], #[trigger] selected[i]);
        lemma_event_like_belongs(patches[m], selected[i], root_id, patches);
    }
}

/// Every event of a resolved chain belongs to the proposal whose
/// selection the resolver ran on, and carries the data of some patch
/// event of the repository.
proof fn lemma_chain_ties(
    selected: Seq<Event>,
    chain: Seq<Event>,
    root_id: Seq<char>,
    patches: Seq<Event>,
)
    requires
        all_wf(selected),
        forall|i: int|
            0 <= i < selected.len() ==> spec_belongs(#[trigger] selected[i], root_id, patches),
        forall|i: int| 0 <= i < selected.len() ==> spec_from_events(patches, #[trigger] selected[i]),
        forall|c: int|
            0 <= c < chain.len() ==> exists|j: int|
                0 <= j < selected.len() && event_like(#[trigger] selected[j], #[trigger] chain[c]),
    ensures
        forall|c: int|
            0 <= c < chain.len() ==> spec_belongs(#[trigger] chain[c], root_id, patches)
                && spec_from_events(patches, chain[c]),
{
    assert forall|c: int|
        0 <= c < chain.len() implies spec_belongs(#[trigger] chain[c], root_id, patches)
        && spec_from_events(patches, chain[c]) by {
        let j = choose|j: int|
            0 <= j < selected.len() && event_like(#[trigger] selected[j], chain[c]);
        lemma_event_like_belongs(selected[j], chain[c], root_id, patches);
        let j2 = choose|j2: int|
            0 <= j2 < patches.len() && event_like(#[trigger] patches[j2], selected[j]);
        assert(event_like(patches[j2], chain[c]));
    }
}

/// What every entry of the open-proposal index satisfies: its root is a
/// proposal root (not a revision) drawn from the candidate list, its
/// dominant status is Open, and its chain is a reply-linked patch chain
/// starting at a chain root, drawn from the proposal's own patch events.
pub open spec fn spec_open_entry(
    p: Proposal,
    proposals: Seq<Event>,
    statuses: Seq<Event>,
    patches: Seq<Event>,
) -> bool {
    spec_from_events(proposals, p.root) && !spec_event_is_revision_root(p.root)
        && spec_dominant_is_open(statuses, p.root.id@) && spec_chain_entry(p, patches)
}

/// The chain shape common to the open and the all index: non-empty, led
/// by a chain root, linked tip to root by `e (reply)` references, and
/// made of events that belong to this proposal (the root itself, events
/// threading to it, or events threading to one of its revision roots)
/// and carry the data of the repository's own patch events.
pub open spec fn spec_chain_entry(p: Proposal, patches: Seq<Event>) -> bool {
    p.chain@.len() >= 1 && all_wf(p.chain@) && spec_is_chain_root(p.chain@[0]) && (forall|i: int|
        1 <= i < p.chain@.len() ==> (#[trigger] p.chain@[i]).spec_ref_with_marker("reply"@)
            == Some(p.chain@[i - 1].id@)) && (forall|c: int|
        0 <= c < p.chain@.len() ==> spec_belongs(#[trigger] p.chain@[c], p.root.id@, patches)
            && spec_from_events(patches, p.chain@[c]))
}

/// An open-index candidate: the `i`-th proposal root is no revision, its
/// dominant status is Open, and a chain root stands among its patches.
pub open spec fn spec_open_candidate(
    proposals: Seq<Event>,
    statuses: Seq<Event>,
    patches: Seq<Event>,
    i: int,
) -> bool {
    !spec_event_is_revision_root(proposals[i]) && spec_dominant_is_open(
        statuses,
        proposals[i].id@,
    ) && spec_has_chain_root(patches, proposals[i].id@)
}

/// An all-index candidate: no revision, with a chain root among its
/// patches.
pub open spec fn spec_all_candidate(proposals: Seq<Event>, patches: Seq<Event>, i: int) -> bool {
    !spec_event_is_revision_root(proposals[i]) && spec_has_chain_root(patches, proposals[i].id@)
}

/// Builds the open-proposal index. Sound: every entry is a non-revision
/// proposal root drawn from the candidate list, with dominant status
/// Open and a chain of its own patch events. Complete: every candidate
/// whose patches hold a chain root appears; one whose chain cannot be
/// resolved (no chain root among its patches) is dropped silently.
#[verifier::rlimit(100)]
pub fn get_open_proposals(
    proposals: &Vec<Event>,
    statuses: &Vec<Event>,
    patches: &Vec<Event>,
) -> (r: Vec<Proposal>)
    requires
        all_wf(proposals@),
        all_wf(statuses@),
        all_wf(patches@),
    ensures
        forall|k: int|
            0 <= k < r@.len() ==> (#[trigger] r@[k]).root.wf() && spec_open_entry(
                r@[k],
                proposals@,
                statuses@,
                patches@,
            ),
        forall|i: int|
            0 <= i < proposals@.len() && #[trigger] spec_open_candidate(
                proposals@,
                statuses@,
                patches@,
                i,
            ) ==> exists|k: int|
                0 <= k < r@.len() && (#[trigger] r@[k]).root.id@ == proposals@[i].id@,
{
    let n: usize = proposals.len();
    let mut r: Vec<Proposal> = Vec::new();
    let mut i: usize = 0;
    while i < n
        invariant
            0 <= i <= n,
            n == proposals@.len(),
            all_wf(proposals@),
            all_wf(statuses@),
            all_wf(patches@),
            forall|k: int|
                0 <= k < r@.len() ==> (#[trigger] r@[k]).root.wf() && spec_open_entry(
                    r@[k],
                    proposals@,
                    statuses@,
                    patches@,
                ),
            forall|i2: int|
                0 <= i2 < i && #[trigger] spec_open_candidate(
                    proposals@,
                    statuses@,
                    patches@,
                    i2,
                ) ==> exists|k: int|
                    0 <= k < r@.len() && (#[trigger] r@[k]).root.id@ == proposals@[i2].id@,
        decreases n - i,
    {
        let ghost r0 = r@;
        let p = &proposals[i];
        proof {
            assert(proposals@[i as int].wf());
        }
        if !event_is_revision_root(p) {
            let status = dominant_status_kind(p.id.as_str(), statuses);
            if status == STATUS_KIND_OPEN {
                let selected = events_for_proposal(patches, p.id.as_str());
                match get_most_recent_patch_with_ancestors(&selected) {
                    Ok(chain) => {
                        let root = clone_event(p);
                        proof {
                            lemma_event_like_tags(proposals@[i as int], root);
                            lemma_chain_ties(
                                selected@,
                                chain@,
                                proposals@[i as int].id@,
                                patches@,
                            );
                        }
                        let entry = Proposal { root, chain };
                        r.push(entry);
                        proof {
                            assert(r@ =~= r0.push(entry));
                            assert(r@[r@.len() - 1].root.id@ == proposals@[i as int].id@);
                            assert forall|i2: int|
                                0 <= i2 < i + 1 && #[trigger] spec_open_candidate(
                                    proposals@,
                                    statuses@,
                                    patches@,
                                    i2,
                                ) implies exists|k: int|
                                0 <= k < r@.len() && (#[trigger] r@[k]).root.id@
                                    == proposals@[i2].id@ by {
                                if i2 < i {
                                    let k0 = choose|k0: int|
                                        0 <= k0 < r0.len() && (#[trigger] r0[k0]).root.id@
                                            == proposals@[i2].id@;
                                    assert(r@[k0] == r0[k0]);
                                }
                            }
                        }
                    },
                    Err(_) => {
                        proof {
                            lemma_no_chain_in_selection(
                                patches@,
                                selected@,
                                proposals@[i as int].id@,
                            );
                        }
                    },
                }
            } else {
                proof {
                    assert(spec_dominant_kind(statuses@, proposals@[i as int].id@)
                        != STATUS_KIND_OPEN);
                }
            }
        } else {
            proof {
                assert(spec_event_is_revision_root(proposals@[i as int]));
            }
        }
        i = i + 1;
    }
    r
}

/// The open index lies within the all index: any entry satisfying the
/// open index's guarantees names a proposal that is an all-index
/// candidate, so the all index's completeness forces the same proposal
/// id to appear there.
pub proof fn lemma_open_within_all(
    proposals: Seq<Event>,
    statuses: Seq<Event>,
    patches: Seq<Event>,
    entry: Proposal,
)
    requires
        all_wf(proposals),
        all_wf(patches),
        spec_open_entry(entry, proposals, statuses, patches),
    ensures
        exists|i: int|
            0 <= i < proposals.len() && #[trigger] spec_all_candidate(proposals, patches, i)
                && proposals[i].id@ == entry.root.id@,
{
    let i = choose|i: int| 0 <= i < proposals.len() && event_like(#[trigger] proposals[i], entry.root);
    lemma_event_like_tags(proposals[i], entry.root);
    assert(!spec_event_is_revision_root(proposals[i]));
    let root0 = entry.chain@[0];
    let j2 = choose|j2: int| 0 <= j2 < patches.len() && event_like(#[trigger] patches[j2], root0);
    lemma_event_like_belongs(patches[j2], root0, entry.root.id@, patches);
    assert(spec_belongs(patches[j2], proposals[i].id@, patches) && spec_is_chain_root(
        patches[j2],
    ));
    assert(spec_has_chain_root(patches, proposals[i].id@));
    assert(spec_all_candidate(proposals, patches, i));
}

/// Builds the index of all proposals, their status ignored, with the
/// same soundness and completeness as the open index.
#[verifier::rlimit(100)]
pub fn get_all_proposals(proposals: &Vec<Event>, patches: &Vec<Event>) -> (r: Vec<Proposal>)
    requires
        all_wf(proposals@),
        all_wf(patches@),
    ensures
        forall|k: int|
            0 <= k < r@.len() ==> (#[trigger] r@[k]).root.wf() && !spec_event_is_revision_root(
                r@[k].root,
            ) && spec_from_events(proposals@, r@[k].root) && spec_chain_entry(r@[k], patches@),
        forall|i: int|
            0 <= i < proposals@.len() && #[trigger] spec_all_candidate(proposals@, patches@, i)
                ==> exists|k: int|
                0 <= k < r@.len() && (#[trigger] r@[k]).root.id@ == proposals@[i].id@,
{
    let n: usize = proposals.len();
    let mut r: Vec<Proposal> = Vec::new();
    let mut i: usize = 0;
    while i < n
        invariant
            0 <= i <= n,
            n == proposals@.len(),
            all_wf(proposals@),
            all_wf(patches@),
            forall|k: int|
                0 <= k < r@.len() ==> (#[trigger] r@[k]).root.wf() && !spec_event_is_revision_root(
                    r@[k].root,
                ) && spec_from_events(proposals@, r@[k].root) && spec_chain_entry(r@[k], patches@),
            forall|i2: int|
                0 <= i2 < i && #[trigger] spec_all_candidate(proposals@, patches@, i2)
                    ==> exists|k: int|
                    0 <= k < r@.len() && (#[trigger] r@[k]).root.id@ == proposals@[i2].id@,
        decreases n - i,
    {
        let ghost r0 = r@;
        let p = &proposals[i];
        proof {
            assert(proposals@[i as int].wf());
        }
        if !event_is_revision_root(p) {
            let selected = events_for_proposal(patches, p.id.as_str());
            match get_most_recent_patch_with_ancestors(&selected) {
                Ok(chain) => {
                    let root = clone_event(p);
                    proof {
                        lemma_event_like_tags(proposals@[i as int], root);
                        lemma_chain_ties(selected@, chain@, proposals@[i as int].id@, patches@);
                    }
                    let entry = Proposal { root, chain };
                    r.push(entry);
                    proof {
                        assert(r@ =~= r0.push(entry));
                        assert(r@[r@.len() - 1].root.id@ == proposals@[i as int].id@);
                        assert forall|i2: int|
                            0 <= i2 < i + 1 && #[trigger] spec_all_candidate(
                                proposals@,
                                patches@,
                                i2,
                            ) implies exists|k: int|
                            0 <= k < r@.len() && (#[trigger] r@[k]).root.id@
                                == proposals@[i2].id@ by {
                            if i2 < i {
                                let k0 = choose|k0: int|
                                    0 <= k0 < r0.len() && (#[trigger] r0[k0]).root.id@
                                        == proposals@[i2].id@;
                                assert(r@[k0] == r0[k0]);
                            }
                        }
                    }
                },
                Err(_) => {
                    proof {
                        lemma_no_chain_in_selection(
                            patches@,
                            selected@,
                            proposals@[i as int].id@,
                        );
                    }
                },
            }
        } else {
            proof {
                assert(spec_event_is_revision_root(proposals@[i as int]));
            }
        }
        i = i + 1;
    }
    r
}

/// The view of an optional current-user key.
pub open spec fn opt_user_view(u: Option<String>) -> Option<Seq<char>> {
    match u {
        Some(s) => Some(s@),
        None => None,
    }
}

/// `refstr` with one leading `refs/heads/` removed, when present.
pub open spec fn spec_strip_heads(refstr: Seq<char>) -> Seq<char> {
    if starts_with_spec(refstr, "refs/heads/"@) {
        refstr.skip("refs/heads/"@.len() as int)
    } else {
        refstr
    }
}

/// The branch name a proposal answers to. The proposal's own author gets
/// the cover letter's literal branch name (the `branch-name` tag when it
/// is present); everyone else derives the name by slugifying the title.
pub open spec fn spec_candidate_branch_name(root: Event, user: Option<Seq<char>>) -> Option<
    Seq<char>,
> {
    match spec_parse_cover_letter(root) {
        None => None,
        Some(cl) => if user == Some(root.pubkey@) {
            Some(cl.branch_name)
        } else {
            Some(spec_slugify(cl.title))
        },
    }
}

/// True when `refstr` names the proposal rooted at `root` for `user`.
pub open spec fn spec_branch_match(root: Event, user: Option<Seq<char>>, refstr: Seq<char>) -> bool {
    spec_candidate_branch_name(root, user) == Some(spec_strip_heads(refstr))
}

/// Branch matching: for a proposal by a different author, a ref name
/// matches exactly when, stripped of `refs/heads/`, it equals the
/// slugified cover-letter title.
pub proof fn lemma_branch_match_other_author(root: Event, user: Seq<char>, refstr: Seq<char>)
    requires
        user != root.pubkey@,
        spec_parse_cover_letter(root) is Some,
    ensures
        spec_branch_match(root, Some(user), refstr) == (spec_strip_heads(refstr) == spec_slugify(
            spec_parse_cover_letter(root).unwrap().title,
        )),
{
}

fn strip_heads(refstr: &str) -> (r: String)
    ensures
        r@ == spec_strip_heads(refstr@),
{
    if starts_with_str(refstr, "refs/heads/") {
        let plen: usize = "refs/heads/".unicode_len();
        let rlen: usize = refstr.unicode_len();
        let out = substr_string(refstr, plen, rlen);
        proof {
            assert(refstr@.subrange(plen as int, rlen as int) =~= refstr@.skip(plen as int));
        }
        out
    } else {
        String::from_str(refstr)
    }
}

/// Finds the first open proposal whose derived branch name equals
/// `refstr` with its `refs/heads/` prefix stripped.
pub fn find_proposal_and_patches_by_branch_name(
    refstr: &str,
    open_proposals: &Vec<Proposal>,
    current_user: &Option<String>,
) -> (r: Option<usize>)
    requires
        forall|k: int| 0 <= k < open_proposals@.len() ==> (#[trigger] open_proposals@[k]).root.wf(),
    ensures
        match r {
            Some(i) => i < open_proposals@.len() && spec_branch_match(
                open_proposals@[i as int].root,
                opt_user_view(*current_user),
                refstr@,
            ) && forall|j: int|
                0 <= j < i ==> !spec_branch_match(
                    (#[trigger] open_proposals@[j]).root,
                    opt_user_view(*current_user),
                    refstr@,
                ),
            None => forall|j: int|
                0 <= j < open_proposals@.len() ==> !spec_branch_match(
                    (#[trigger] open_proposals@[j]).root,
                    opt_user_view(*current_user),
                    refstr@,
                ),
        },
{
    let wanted = strip_heads(refstr);
    let n: usize = open_proposals.len();
    let mut i: usize = 0;
    while i < n
        invariant
            0 <= i <= n,
            n == open_proposals@.len(),
            wanted@ == spec_strip_heads(refstr@),
            forall|k: int|
                0 <= k < open_proposals@.len() ==> (#[trigger] open_proposals@[k]).root.wf(),
            forall|j: int|
                0 <= j < i ==> !spec_branch_match(
                    (#[trigger] open_proposals@[j]).root,
                    opt_user_view(*current_user),
                    refstr@,
                ),
        decreases n - i,
    {
        let root = &open_proposals[i].root;
        match event_to_cover_letter(root) {
            Ok(cl) => {
                let is_author: bool = match current_user {
                    Some(u) => str_eq(u.as_str(), root.pubkey.as_str()),
                    None => false,
                };
                let candidate: String = if is_author {
                    cl.branch_name
                } else {
                    slugify(cl.title.as_str())
                };
                if candidate.eq(&wanted) {
                    return Some(i);
                }
            },
            Err(_) => {},
        }
        i = i + 1;
    }
    None
}

} // verus!
