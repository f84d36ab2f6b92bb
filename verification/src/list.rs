//! The proposal picker: the labels a user chooses between and the lines
//! the `list` flow prints around the choice.
use vstd::prelude::*;

use crate::cover_letter::{event_to_cover_letter, spec_parse_cover_letter};
use crate::events::Event;
use crate::proposals::Proposal;
use crate::strutil::{dec_str, u64_to_string};

verus! {

/// The line printed while proposals are being looked up.
pub fn finding_proposals_message() -> (r: String)
    ensures
        r@ == "finding proposals..."@,
{
    String::from_str("finding proposals...")
}

/// The line printed when the repository has no proposals yet.
pub fn no_proposals_message() -> (r: String)
    ensures
        r@ == "no proposals found... create one? try `ngit send`"@,
{
    String::from_str("no proposals found... create one? try `ngit send`")
}

/// The line printed after checking out a chosen proposal's branch.
pub fn checked_out_message(new_commits: u64) -> (r: String)
    ensures
        r@ == "checked out proposal branch. pulled "@ + dec_str(new_commits as nat)
            + " new commits"@,
{
    let mut m = String::from_str("checked out proposal branch. pulled ");
    let n = u64_to_string(new_commits);
    m.append(n.as_str());
    m.append(" new commits");
    proof {
        assert(m@ =~= "checked out proposal branch. pulled "@ + dec_str(new_commits as nat)
            + " new commits"@);
    }
    m
}

/// The label a proposal is picked by: its cover letter's title — for a
/// series without a cover letter, the first commit's subject line — and
/// its event id when the root event cannot be read as either.
pub fn proposal_label(root: &Event) -> (r: String)
    requires
        root.wf(),
    ensures
        match spec_parse_cover_letter(*root) {
            Some(cl) => r@ == cl.title,
            None => r@ == root.id@,
        },
{
    match event_to_cover_letter(root) {
        Ok(cl) => cl.title,
        Err(_) => root.id.clone(),
    }
}

/// The choice labels of the picker, one per open proposal, in order.
pub fn proposal_labels(open_proposals: &Vec<Proposal>) -> (r: Vec<String>)
    requires
        forall|k: int| 0 <= k < open_proposals@.len() ==> (#[trigger] open_proposals@[k]).root.wf(),
    ensures
        r@.len() == open_proposals@.len(),
        forall|k: int|
            0 <= k < r@.len() ==> (#[trigger] r@[k])@ == (match spec_parse_cover_letter(
                open_proposals@[k].root,
            ) {
                Some(cl) => cl.title,
                None => open_proposals@[k].root.id@,
            }),
{
    let n: usize = open_proposals.len();
    let mut r: Vec<String> = Vec::new();
    let mut i: usize = 0;
    while i < n
        invariant
            0 <= i <= n,
            n == open_proposals@.len(),
            r@.len() == i,
            forall|k: int|
                0 <= k < open_proposals@.len() ==> (#[trigger] open_proposals@[k]).root.wf(),
            forall|k: int|
                0 <= k < i ==> (#[trigger] r@[k])@ == (match spec_parse_cover_letter(
                    open_proposals@[k].root,
                ) {
                    Some(cl) => cl.title,
                    None => open_proposals@[k].root.id@,
                }),
        decreases n - i,
    {
        r.push(proposal_label(&open_proposals[i].root));
        i = i + 1;
    }
    r
}

} // verus!
