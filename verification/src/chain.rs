//! Reconstructing the most recent linear patch chain out of an unordered
//! bag of patch events that share a proposal.
use vstd::prelude::*;

use crate::events::{
    Event, all_wf, clone_event, event_is_chain_root, event_like, event_ref_with_marker,
    lemma_event_like_tags, spec_is_chain_root, spec_thread_key,
};
use crate::strutil::{lemma_lex_lt_irrefl, lemma_lex_lt_trans, lex_lt, str_eq, str_lex_lt};

verus! {

/// Orders `(created_at, id)` pairs: newer timestamp first, ties broken by
/// the lexicographically greater id.
pub open spec fn newer_pair(a: (u64, Seq<char>), b: (u64, Seq<char>)) -> bool {
    a.0 > b.0 || (a.0 == b.0 && lex_lt(b.1, a.1))
}

/// True when `e` belongs to the thread group rooted at `root`: it is the
/// root itself or it references the root as its thread key.
pub open spec fn in_group(e: Event, root: Event) -> bool {
    e.id@ == root.id@ || spec_thread_key(e) == Some(root.id@)
}

/// The `(created_at, id)` of the newest event in `root`'s group, the root
/// itself counted.
pub open spec fn group_newest(events: Seq<Event>, root: Event) -> (u64, Seq<char>)
    decreases events.len(),
{
    if events.len() == 0 {
        (root.created_at, root.id@)
    } else {
        let rest = group_newest(events.drop_last(), root);
        let e = events.last();
        if in_group(e, root) && newer_pair((e.created_at, e.id@), rest) {
            (e.created_at, e.id@)
        } else {
            rest
        }
    }
}

pub fn pair_newer(a_ts: u64, a_id: &str, b_ts: u64, b_id: &str) -> (r: bool)
    ensures
        r == newer_pair((a_ts, a_id@), (b_ts, b_id@)),
{
    a_ts > b_ts || (a_ts == b_ts && str_lex_lt(b_id, a_id))
}

/// `newer_pair` never relates a pair to itself.
pub proof fn lemma_newer_pair_irrefl(a: (u64, Seq<char>))
    ensures
        !newer_pair(a, a),
{
    lemma_lex_lt_irrefl(a.1);
}

/// `newer_pair` is transitive.
pub proof fn lemma_newer_pair_trans(a: (u64, Seq<char>), b: (u64, Seq<char>), c: (u64, Seq<char>))
    requires
        newer_pair(a, b),
        newer_pair(b, c),
    ensures
        newer_pair(a, c),
{
    if a.0 == b.0 && b.0 == c.0 {
        lemma_lex_lt_trans(c.1, b.1, a.1);
    }
}

/// True when `e`'s thread key is exactly `root_id`.
pub fn thread_key_matches(e: &Event, root_id: &str) -> (r: bool)
    requires
        e.wf(),
    ensures
        r == (spec_thread_key(*e) == Some(root_id@)),
{
    match event_ref_with_marker(e, "root") {
        Some(k) => str_eq(k.as_str(), root_id),
        None => {
            if crate::events::event_is_patch_set_root(e) {
                str_eq(e.id.as_str(), root_id)
            } else {
                false
            }
        },
    }
}

fn in_group_exec(e: &Event, root: &Event) -> (r: bool)
    requires
        e.wf(),
    ensures
        r == in_group(*e, *root),
{
    str_eq(e.id.as_str(), root.id.as_str()) || thread_key_matches(e, root.id.as_str())
}

/// Computes the newest `(created_at, id)` of the group rooted at
/// `events[root_idx]`.
fn compute_group_newest(events: &Vec<Event>, root_idx: usize) -> (r: (u64, String))
    requires
        all_wf(events@),
        root_idx < events@.len(),
    ensures
        (r.0, r.1@) == group_newest(events@, events@[root_idx as int]),
{
    let root_ts: u64 = events[root_idx].created_at;
    let mut best_ts: u64 = root_ts;
    let mut best_id: String = events[root_idx].id.clone();
    let n: usize = events.len();
    let mut t: usize = 0;
    proof {
        assert(events@.take(0) =~= Seq::<Event>::empty());
    }
    while t < n
        invariant
            0 <= t <= n,
            n == events@.len(),
            all_wf(events@),
            root_idx < n,
            (best_ts, best_id@) == group_newest(events@.take(t as int), events@[root_idx as int]),
        decreases n - t,
    {
        let e = &events[t];
        proof {
            assert(events@.take(t + 1).drop_last() =~= events@.take(t as int));
            assert(events@.take(t + 1).last() == events@[t as int]);
        }
        if in_group_exec(e, &events[root_idx]) && pair_newer(
            e.created_at,
            e.id.as_str(),
            best_ts,
            best_id.as_str(),
        ) {
            best_ts = e.created_at;
            best_id = e.id.clone();
        }
        t = t + 1;
    }
    proof {
        assert(events@.take(n as int) =~= events@);
    }
    (best_ts, best_id)
}

/// Reconstructs the most recent linear patch chain from an unordered set
/// of patch events sharing a proposal.
///
/// The returned chain starts at a chain root whose thread group holds the
/// newest event among all chain roots present, and walks `e (reply)`
/// edges: each later event names its predecessor's id as its reply
/// reference, and where several events of the group reply to the same
/// tip, the one appended is the newest (greatest `created_at`, ties
/// broken by the lexicographically greater id) among those not already
/// on the chain. It ends only when no further event of the group replies
/// to its tip. The call fails exactly when the set holds no chain root.
#[verifier::rlimit(60)]
pub fn get_most_recent_patch_with_ancestors(events: &Vec<Event>) -> (r: Result<
    Vec<Event>,
    String,
>)
    requires
        all_wf(events@),
    ensures
        match r {
            Ok(chain) => chain@.len() >= 1 && all_wf(chain@) && spec_is_chain_root(chain@[0]) && (
            forall|i: int|
                1 <= i < chain@.len() ==> (#[trigger] chain@[i]).spec_ref_with_marker("reply"@)
                    == Some(chain@[i - 1].id@)) && (forall|i: int|
                0 <= i < chain@.len() ==> exists|j: int|
                    0 <= j < events@.len() && event_like(
                        #[trigger] events@[j],
                        #[trigger] chain@[i],
                    )) && (exists|b: int|
                0 <= b < events@.len() && event_like(events@[b], chain@[0]) && spec_is_chain_root(
                    events@[b],
                ) && forall|k: int|
                    0 <= k < events@.len() && spec_is_chain_root(#[trigger] events@[k])
                        ==> !newer_pair(
                        group_newest(events@, events@[k]),
                        group_newest(events@, events@[b]),
                    )) && (forall|j: int|
                0 <= j < events@.len() && (#[trigger] events@[j]).spec_ref_with_marker("reply"@)
                    == Some(chain@[chain@.len() - 1].id@) && spec_thread_key(events@[j]) == Some(
                    chain@[0].id@,
                ) ==> exists|i: int| 0 <= i < chain@.len() && chain@[i].id@ == events@[j].id@) && (
            forall|i2: int, j: int|
                1 <= i2 < chain@.len() && 0 <= j < events@.len() && (
                #[trigger] events@[j]).spec_ref_with_marker("reply"@) == Some(chain@[i2 - 1].id@)
                    && spec_thread_key(events@[j]) == Some(chain@[0].id@) && (forall|c: int|
                    0 <= c < i2 ==> (#[trigger] chain@[c]).id@ != events@[j].id@) ==> !newer_pair(
                    (events@[j].created_at, events@[j].id@),
                    ((#[trigger] chain@[i2]).created_at, chain@[i2].id@),
                )),
            Err(m) => m@ == "no patch chain found"@ && forall|j: int|
                0 <= j < events@.len() ==> !spec_is_chain_root(#[trigger] events@[j]),
        },
{
    let n: usize = events.len();
    let mut best: usize = n;
    let mut best_ts: u64 = 0;
    let mut best_id: String = String::new();
    let mut i: usize = 0;
    while i < n
        invariant
            0 <= i <= n,
            best <= n,
            n == events@.len(),
            all_wf(events@),
            best == n ==> forall|k: int| 0 <= k < i ==> !spec_is_chain_root(#[trigger] events@[k]),
            best < n ==> spec_is_chain_root(events@[best as int]) && (best_ts, best_id@)
                == group_newest(events@, events@[best as int]) && forall|k: int|
                0 <= k < i && spec_is_chain_root(#[trigger] events@[k]) ==> !newer_pair(
                    group_newest(events@, events@[k]),
                    group_newest(events@, events@[best as int]),
                ),
        decreases n - i,
    {
        if event_is_chain_root(&events[i]) {
            let pair = compute_group_newest(events, i);
            if best == n {
                best = i;
                best_ts = pair.0;
                best_id = pair.1;
                proof {
                    lemma_newer_pair_irrefl(group_newest(events@, events@[i as int]));
                }
            } else if pair_newer(pair.0, pair.1.as_str(), best_ts, best_id.as_str()) {
                let ghost old_best = best as int;
                best = i;
                best_ts = pair.0;
                best_id = pair.1;
                proof {
                    assert forall|k: int|
                        0 <= k < i + 1 && spec_is_chain_root(#[trigger] events@[k])
                            implies !newer_pair(
                        group_newest(events@, events@[k]),
                        group_newest(events@, events@[i as int]),
                    ) by {
                        if k == i {
                            lemma_newer_pair_irrefl(group_newest(events@, events@[i as int]));
                        } else if newer_pair(
                            group_newest(events@, events@[k]),
                            group_newest(events@, events@[i as int]),
                        ) {
                            lemma_newer_pair_trans(
                                group_newest(events@, events@[k]),
                                group_newest(events@, events@[i as int]),
                                group_newest(events@, events@[old_best]),
                            );
                        }
                    }
                }
            } else {
                proof {
                    assert(!newer_pair(
                        group_newest(events@, events@[i as int]),
                        group_newest(events@, events@[best as int]),
                    ));
                }
            }
        }
        i = i + 1;
    }
    if best == n {
        return Err(String::from_str("no patch chain found"));
    }
    let root = clone_event(&events[best]);
    proof {
        assert(events@[best as int].wf());
        lemma_event_like_tags(events@[best as int], root);
    }
    let root_id = root.id.clone();
    let mut chain: Vec<Event> = Vec::new();
    chain.push(root);
    let mut used: Vec<bool> = Vec::new();
    let mut j: usize = 0;
    while j < n
        invariant
            0 <= j <= n,
            used@.len() == j,
            forall|k: int| 0 <= k < j ==> !used@[k],
        decreases n - j,
    {
        used.push(false);
        j = j + 1;
    }
    used.set(best, true);
    proof {
        assert(chain@[0].id@ == events@[best as int].id@);
    }
    loop
        invariant
            n == events@.len(),
            all_wf(events@),
            used@.len() == n,
            best < n,
            chain@.len() >= 1,
            all_wf(chain@),
            spec_is_chain_root(chain@[0]),
            chain@[0].id@ == root_id@,
            event_like(events@[best as int], chain@[0]),
            spec_is_chain_root(events@[best as int]),
            forall|k: int|
                0 <= k < n && spec_is_chain_root(#[trigger] events@[k]) ==> !newer_pair(
                    group_newest(events@, events@[k]),
                    group_newest(events@, events@[best as int]),
                ),
            forall|i: int|
                1 <= i < chain@.len() ==> (#[trigger] chain@[i]).spec_ref_with_marker("reply"@)
                    == Some(chain@[i - 1].id@),
            forall|i: int|
                0 <= i < chain@.len() ==> exists|j: int|
                    0 <= j < events@.len() && event_like(
                        #[trigger] events@[j],
                        #[trigger] chain@[i],
                    ),
            forall|k: int|
                0 <= k < n && used@[k] ==> exists|i: int|
                    0 <= i < chain@.len() && chain@[i].id@ == (#[trigger] events@[k]).id@,
            forall|i2: int, j: int|
                1 <= i2 < chain@.len() && 0 <= j < n && (
                #[trigger] events@[j]).spec_ref_with_marker("reply"@) == Some(chain@[i2 - 1].id@)
                    && spec_thread_key(events@[j]) == Some(chain@[0].id@) && (forall|c: int|
                    0 <= c < i2 ==> (#[trigger] chain@[c]).id@ != events@[j].id@) ==> !newer_pair(
                    (events@[j].created_at, events@[j].id@),
                    ((#[trigger] chain@[i2]).created_at, chain@[i2].id@),
                ),
        ensures
            chain@.len() >= 1,
            all_wf(chain@),
            spec_is_chain_root(chain@[0]),
            event_like(events@[best as int], chain@[0]),
            spec_is_chain_root(events@[best as int]),
            best < n,
            forall|k: int|
                0 <= k < n && spec_is_chain_root(#[trigger] events@[k]) ==> !newer_pair(
                    group_newest(events@, events@[k]),
                    group_newest(events@, events@[best as int]),
                ),
            forall|i: int|
                1 <= i < chain@.len() ==> (#[trigger] chain@[i]).spec_ref_with_marker("reply"@)
                    == Some(chain@[i - 1].id@),
            forall|i: int|
                0 <= i < chain@.len() ==> exists|j: int|
                    0 <= j < events@.len() && event_like(
                        #[trigger] events@[j],
                        #[trigger] chain@[i],
                    ),
            forall|j2: int|
                0 <= j2 < n && (#[trigger] events@[j2]).spec_ref_with_marker("reply"@) == Some(
                    chain@[chain@.len() - 1].id@,
                ) && spec_thread_key(events@[j2]) == Some(chain@[0].id@) ==> exists|i2: int|
                    0 <= i2 < chain@.len() && chain@[i2].id@ == events@[j2].id@,
            forall|i2: int, j: int|
                1 <= i2 < chain@.len() && 0 <= j < n && (
                #[trigger] events@[j]).spec_ref_with_marker("reply"@) == Some(chain@[i2 - 1].id@)
                    && spec_thread_key(events@[j]) == Some(chain@[0].id@) && (forall|c: int|
                    0 <= c < i2 ==> (#[trigger] chain@[c]).id@ != events@[j].id@) ==> !newer_pair(
                    (events@[j].created_at, events@[j].id@),
                    ((#[trigger] chain@[i2]).created_at, chain@[i2].id@),
                ),
        decreases count_unused(used@),
    {
        let ghost used0 = used@;
        let last_idx: usize = chain.len() - 1;
        let mut child: usize = n;
        let mut k: usize = 0;
        while k < n
            invariant
                0 <= k <= n,
                child <= n,
                n == events@.len(),
                all_wf(events@),
                used@.len() == n,
                chain@.len() >= 1,
                last_idx == chain@.len() - 1,
                child == n ==> forall|m: int|
                    0 <= m < k ==> !(!used@[m] && (#[trigger] events@[m]).spec_ref_with_marker(
                        "reply"@,
                    ) == Some(chain@[last_idx as int].id@) && spec_thread_key(events@[m]) == Some(
                        root_id@,
                    )),
                child < n ==> !used@[child as int] && (events@[child as int]).spec_ref_with_marker(
                    "reply"@,
                ) == Some(chain@[last_idx as int].id@) && spec_thread_key(events@[child as int])
                    == Some(root_id@),
                child < n ==> forall|m: int|
                    0 <= m < k && !used@[m] && (#[trigger] events@[m]).spec_ref_with_marker(
                        "reply"@,
                    ) == Some(chain@[last_idx as int].id@) && spec_thread_key(events@[m]) == Some(
                        root_id@,
                    ) ==> !newer_pair(
                        (events@[m].created_at, events@[m].id@),
                        (events@[child as int].created_at, events@[child as int].id@),
                    ),
            decreases n - k,
        {
            if !used[k] {
                let matches_reply = match event_ref_with_marker(&events[k], "reply") {
                    Some(rid) => str_eq(rid.as_str(), chain[last_idx].id.as_str()),
                    None => false,
                };
                if matches_reply && thread_key_matches(&events[k], root_id.as_str()) {
                    if child == n {
                        child = k;
                        proof {
                            lemma_newer_pair_irrefl(
                                (events@[k as int].created_at, events@[k as int].id@),
                            );
                        }
                    } else {
                        let cur = &events[child];
                        let cand = &events[k];
                        if pair_newer(
                            cand.created_at,
                            cand.id.as_str(),
                            cur.created_at,
                            cur.id.as_str(),
                        ) {
                            let ghost oc = child as int;
                            child = k;
                            proof {
                                assert forall|m: int|
                                    0 <= m < k + 1 && !used@[m] && (
                                    #[trigger] events@[m]).spec_ref_with_marker("reply"@) == Some(
                                        chain@[last_idx as int].id@,
                                    ) && spec_thread_key(events@[m]) == Some(root_id@)
                                        implies !newer_pair(
                                    (events@[m].created_at, events@[m].id@),
                                    (events@[k as int].created_at, events@[k as int].id@),
                                ) by {
                                    if m == k {
                                        lemma_newer_pair_irrefl(
                                            (
                                                events@[k as int].created_at,
                                                events@[k as int].id@,
                                            ),
                                        );
                                    } else if newer_pair(
                                        (events@[m].created_at, events@[m].id@),
                                        (events@[k as int].created_at, events@[k as int].id@),
                                    ) {
                                        lemma_newer_pair_trans(
                                            (events@[m].created_at, events@[m].id@),
                                            (events@[k as int].created_at, events@[k as int].id@),
                                            (events@[oc].created_at, events@[oc].id@),
                                        );
                                    }
                                }
                            }
                        }
                    }
                }
            }
            k = k + 1;
        }
        if child == n {
            proof {
                assert forall|j2: int|
                    0 <= j2 < n && (#[trigger] events@[j2]).spec_ref_with_marker("reply"@) == Some(
                        chain@[chain@.len() - 1].id@,
                    ) && spec_thread_key(events@[j2]) == Some(chain@[0].id@) implies exists|
                    i2: int,
                |
                    0 <= i2 < chain@.len() && chain@[i2].id@ == events@[j2].id@ by {
                    assert(used@[j2]);
                }
            }
            break;
        }
        let ghost chain0 = chain@;
        let next = clone_event(&events[child]);
        proof {
            assert(events@[child as int].wf());
            lemma_event_like_tags(events@[child as int], next);
        }
        chain.push(next);
        used.set(child, true);
        proof {
            lemma_count_unused_set(used0, child as int);
            assert(used@ =~= used0.update(child as int, true));
            assert(chain@ =~= chain0.push(next));
            assert forall|k2: int| 0 <= k2 < n && used@[k2] implies exists|i: int|
                0 <= i < chain@.len() && chain@[i].id@ == (#[trigger] events@[k2]).id@ by {
                if k2 == child {
                    assert(chain@[chain@.len() - 1].id@ == events@[child as int].id@);
                } else {
                    assert(used0[k2]);
                    let i0 = choose|i0: int|
                        0 <= i0 < chain0.len() && chain0[i0].id@ == events@[k2].id@;
                    assert(chain@[i0].id@ == events@[k2].id@);
                }
            }
            assert forall|i2: int, j: int|
                1 <= i2 < chain@.len() && 0 <= j < n && (
                #[trigger] events@[j]).spec_ref_with_marker("reply"@) == Some(chain@[i2 - 1].id@)
                    && spec_thread_key(events@[j]) == Some(chain@[0].id@) && (forall|c: int|
                    0 <= c < i2 ==> (#[trigger] chain@[c]).id@ != events@[j].id@)
                    implies !newer_pair(
                (events@[j].created_at, events@[j].id@),
                ((#[trigger] chain@[i2]).created_at, chain@[i2].id@),
            ) by {
                if i2 < chain0.len() {
                    assert(chain@[i2] == chain0[i2]);
                    assert(chain@[i2 - 1] == chain0[i2 - 1]);
                    assert(chain@[0] == chain0[0]);
                    assert forall|c: int| 0 <= c < i2 implies (#[trigger] chain0[c]).id@
                        != events@[j].id@ by {
                        assert(chain@[c] == chain0[c]);
                    }
                } else {
                    assert(i2 == chain0.len());
                    assert(chain@[i2] == next);
                    assert(chain@[i2 - 1] == chain0[i2 - 1]);
                    if used0[j] {
                        let c0 = choose|c0: int|
                            0 <= c0 < chain0.len() && chain0[c0].id@ == events@[j].id@;
                        assert(chain@[c0].id@ == events@[j].id@);
                    } else {
                        assert(!newer_pair(
                            (events@[j].created_at, events@[j].id@),
                            (events@[child as int].created_at, events@[child as int].id@),
                        ));
                        assert(next.created_at == events@[child as int].created_at && next.id@
                            == events@[child as int].id@);
                    }
                }
            }
        }
    }
    proof {
        assert(0 <= best < n && event_like(events@[best as int], chain@[0])
            && spec_is_chain_root(events@[best as int]));
    }
    Ok(chain)
}

/// The number of `false` entries.
pub open spec fn count_unused(s: Seq<bool>) -> nat
    decreases s.len(),
{
    if s.len() == 0 {
        0
    } else {
        (if s.last() {
            0nat
        } else {
            1nat
        }) + count_unused(s.drop_last())
    }
}

proof fn lemma_count_unused_set(s: Seq<bool>, i: int)
    requires
        0 <= i < s.len(),
        !s[i],
    ensures
        count_unused(s.update(i, true)) < count_unused(s),
    decreases s.len(),
{
    let t = s.update(i, true);
    if i == s.len() - 1 {
        assert(t.drop_last() =~= s.drop_last());
        assert(t.last() == true && s.last() == false);
    } else {
        assert(t.drop_last() =~= s.drop_last().update(i, true));
        assert(t.last() == s.last());
        lemma_count_unused_set(s.drop_last(), i);
    }
}

} // verus!
