//! The `send` flow: working out which commits a proposal covers, the
//! messages and decisions of the flow, and turning a commit series into a
//! signed cover letter and patch events.
use vstd::prelude::*;

use crate::cover_letter::{cover_letter_content, spec_cover_letter_content};
use crate::events::{
    Event, PATCH_KIND, REPO_REF_KIND, lemma_tag_value_dv_concat, lemma_tag_value_matches_dv,
    spec_event_is_patch_set_root, spec_tag_value_dv,
};
use crate::nostr_calls::sign_event;
use crate::strutil::{dec_str, find_str, match_at, opt_str_view, str_eq, u64_to_string};

verus! {

/// The arguments of the `send` subcommand.
pub struct SubCommandArgs {
    pub title: Option<String>,
    pub description: Option<String>,
    pub from_branch: Option<String>,
    pub to_branch: Option<String>,
    pub no_cover_letter: bool,
}

/// What the repository announcement provides to event generation.
pub struct RepoRef {
    pub identifier: String,
    pub maintainers: Vec<String>,
    pub relays: Vec<String>,
}

/// What the git repository answers to the send flow: local branches with
/// their tips, the head commit, the checked-out branch name, and the
/// ahead/behind answers for tip pairs that were compared.
pub struct RepoSnapshot {
    pub branches: Vec<(String, String)>,
    pub head: Option<String>,
    pub checked_out_branch: Option<String>,
    pub root_commit: String,
    pub ahead_behind: Vec<AheadBehindEntry>,
}

/// One answer of the commit-graph walk: the commits by which `from_tip`
/// is ahead of and behind `to_tip`, or the walker's error text.
pub struct AheadBehindEntry {
    pub to_tip: String,
    pub from_tip: String,
    pub result: Result<(Vec<String>, Vec<String>), String>,
}

/// The tip of the named branch, if the snapshot lists it.
pub open spec fn spec_branch_tip(branches: Seq<(String, String)>, name: Seq<char>) -> Option<
    Seq<char>,
>
    decreases branches.len(),
{
    if branches.len() == 0 {
        None
    } else if branches[0].0@ == name {
        Some(branches[0].1@)
    } else {
        spec_branch_tip(branches.drop_first(), name)
    }
}

/// The ahead/behind answer recorded for `(to_tip, from_tip)`, if any.
pub open spec fn spec_ahead_behind(
    entries: Seq<AheadBehindEntry>,
    to_tip: Seq<char>,
    from_tip: Seq<char>,
) -> Option<Result<(Vec<String>, Vec<String>), String>>
    decreases entries.len(),
{
    if entries.len() == 0 {
        None
    } else if entries[0].to_tip@ == to_tip && entries[0].from_tip@ == from_tip {
        Some(entries[0].result)
    } else {
        spec_ahead_behind(entries.drop_first(), to_tip, from_tip)
    }
}

impl RepoSnapshot {
    /// The tip of the named local branch.
    pub fn get_tip_of_local_branch(&self, name: &str) -> (r: Option<String>)
        ensures
            match r {
                Some(t) => spec_branch_tip(self.branches@, name@) == Some(t@),
                None => spec_branch_tip(self.branches@, name@) is None,
            },
    {
        let n: usize = self.branches.len();
        let mut i: usize = 0;
        proof {
            assert(self.branches@.skip(0) =~= self.branches@);
        }
        while i < n
            invariant
                0 <= i <= n,
                n == self.branches@.len(),
                spec_branch_tip(self.branches@, name@) == spec_branch_tip(
                    self.branches@.skip(i as int),
                    name@,
                ),
            decreases n - i,
        {
            proof {
                assert(self.branches@.skip(i as int)[0] == self.branches@[i as int]);
                assert(self.branches@.skip(i as int).drop_first() =~= self.branches@.skip(i + 1));
            }
            if str_eq(self.branches[i].0.as_str(), name) {
                return Some(self.branches[i].1.clone());
            }
            i = i + 1;
        }
        None
    }

    /// The default destination branch: `main` when it exists, else
    /// `master`.
    pub fn get_main_or_master_branch(&self) -> (r: Option<(String, String)>)
        ensures
            match r {
                Some(p) => (p.0@ == "main"@ && spec_branch_tip(self.branches@, "main"@) == Some(
                    p.1@,
                )) || (p.0@ == "master"@ && spec_branch_tip(self.branches@, "main"@) is None
                    && spec_branch_tip(self.branches@, "master"@) == Some(p.1@)),
                None => spec_branch_tip(self.branches@, "main"@) is None && spec_branch_tip(
                    self.branches@,
                    "master"@,
                ) is None,
            },
    {
        match self.get_tip_of_local_branch("main") {
            Some(t) => Some((String::from_str("main"), t)),
            None => match self.get_tip_of_local_branch("master") {
                Some(t) => Some((String::from_str("master"), t)),
                None => None,
            },
        }
    }

    /// The recorded ahead/behind answer for a pair of tips.
    pub fn get_commits_ahead_behind(&self, to_tip: &str, from_tip: &str) -> (r: Option<
        Result<(Vec<String>, Vec<String>), String>,
    >)
        ensures
            match r {
                Some(res) => exists|e: Result<(Vec<String>, Vec<String>), String>|
                    spec_ahead_behind(self.ahead_behind@, to_tip@, from_tip@) == Some(e)
                        && res_like(e, res),
                None => spec_ahead_behind(self.ahead_behind@, to_tip@, from_tip@) is None,
            },
    {
        let n: usize = self.ahead_behind.len();
        let mut i: usize = 0;
        proof {
            assert(self.ahead_behind@.skip(0) =~= self.ahead_behind@);
        }
        while i < n
            invariant
                0 <= i <= n,
                n == self.ahead_behind@.len(),
                spec_ahead_behind(self.ahead_behind@, to_tip@, from_tip@) == spec_ahead_behind(
                    self.ahead_behind@.skip(i as int),
                    to_tip@,
                    from_tip@,
                ),
            decreases n - i,
        {
            proof {
                assert(self.ahead_behind@.skip(i as int)[0] == self.ahead_behind@[i as int]);
                assert(self.ahead_behind@.skip(i as int).drop_first() =~= self.ahead_behind@.skip(
                    i + 1,
                ));
            }
            let e = &self.ahead_behind[i];
            if str_eq(e.to_tip.as_str(), to_tip) && str_eq(e.from_tip.as_str(), from_tip) {
                return Some(clone_ab_result(&e.result));
            }
            i = i + 1;
        }
        None
    }
}

/// Two ahead/behind answers carrying the same data.
pub open spec fn res_like(
    a: Result<(Vec<String>, Vec<String>), String>,
    b: Result<(Vec<String>, Vec<String>), String>,
) -> bool {
    match (a, b) {
        (Ok(x), Ok(y)) => x.0.deep_view() == y.0.deep_view() && x.1.deep_view() == y.1.deep_view(),
        (Err(x), Err(y)) => x@ == y@,
        _ => false,
    }
}

fn clone_string_vec(v: &Vec<String>) -> (r: Vec<String>)
    ensures
        r.deep_view() == v.deep_view(),
        r@.len() == v@.len(),
        forall|i: int| 0 <= i < v@.len() ==> #[trigger] r@[i]@ == v@[i]@,
{
    let n: usize = v.len();
    let mut r: Vec<String> = Vec::new();
    let mut i: usize = 0;
    while i < n
        invariant
            0 <= i <= n,
            n == v@.len(),
            r@.len() == i,
            forall|j: int| 0 <= j < i ==> #[trigger] r@[j]@ == v@[j]@,
        decreases n - i,
    {
        r.push(v[i].clone());
        i = i + 1;
    }
    assert(r.deep_view() =~= v.deep_view());
    r
}

fn clone_ab_result(v: &Result<(Vec<String>, Vec<String>), String>) -> (r: Result<
    (Vec<String>, Vec<String>),
    String,
>)
    ensures
        res_like(*v, r),
{
    match v {
        Ok(p) => Ok((clone_string_vec(&p.0), clone_string_vec(&p.1))),
        Err(m) => Err(m.clone()),
    }
}

/// True when `pat` occurs somewhere in `s`.
pub open spec fn contains_substr(s: Seq<char>, pat: Seq<char>) -> bool {
    exists|i: int| match_at(s, pat, i)
}

fn str_contains_substr(s: &str, pat: &str) -> (r: bool)
    ensures
        r == contains_substr(s@, pat@),
{
    match find_str(s, pat) {
        Some(i) => {
            proof {
                assert(match_at(s@, pat@, i as int));
            }
            true
        },
        None => false,
    }
}

/// Builds `'<from>' is not branched from '<to>'`.
fn not_branched_message(from_branch: &str, to_branch: &str) -> (r: String)
    ensures
        r@ == "'"@ + from_branch@ + "' is not branched from '"@ + to_branch@ + "'"@,
{
    let mut m = String::from_str("'");
    m.append(from_branch);
    m.append("' is not branched from '");
    m.append(to_branch);
    m.append("'");
    proof {
        assert(m@ =~= "'"@ + from_branch@ + "' is not branched from '"@ + to_branch@ + "'"@);
    }
    m
}

fn wrapped_message(pre: &str, mid: &str, post: &str, a: &str, b: &str) -> (r: String)
    ensures
        r@ == pre@ + a@ + mid@ + b@ + post@,
{
    let mut m = String::from_str(pre);
    m.append(a);
    m.append(mid);
    m.append(b);
    m.append(post);
    proof {
        assert(m@ =~= pre@ + a@ + mid@ + b@ + post@);
    }
    m
}

fn name_message(pre: &str, name: &str, post: &str) -> (r: String)
    ensures
        r@ == pre@ + name@ + post@,
{
    let mut m = String::from_str(pre);
    m.append(name);
    m.append(post);
    proof {
        assert(m@ =~= pre@ + name@ + post@);
    }
    m
}

/// What `identify_ahead_behind` resolves the `from` side to.
pub open spec fn spec_resolve_from(repo: RepoSnapshot, from_branch: Option<String>) -> Result<
    (Seq<char>, Seq<char>),
    Seq<char>,
> {
    match from_branch {
        Some(name) => match spec_branch_tip(repo.branches@, name@) {
            Some(t) => Ok((name@, t)),
            None => Err("cannot find from_branch '"@ + name@ + "'"@),
        },
        None => match repo.head {
            Some(h) => Ok(("head"@, h@)),
            None => Err(
                "checkout a commit or specify a from_branch. head does not reveal a commit"@,
            ),
        },
    }
}

/// What `identify_ahead_behind` resolves the `to` side to.
pub open spec fn spec_resolve_to(repo: RepoSnapshot, to_branch: Option<String>) -> Result<
    (Seq<char>, Seq<char>),
    Seq<char>,
> {
    match to_branch {
        Some(name) => match spec_branch_tip(repo.branches@, name@) {
            Some(t) => Ok((name@, t)),
            None => Err("cannot find to_branch '"@ + name@ + "'"@),
        },
        None => match spec_branch_tip(repo.branches@, "main"@) {
            Some(t) => Ok(("main"@, t)),
            None => match spec_branch_tip(repo.branches@, "master"@) {
                Some(t) => Ok(("master"@, t)),
                None => Err(
                    "a destination branch (to_branch) is not specified and the defaults (main or master) do not exist"@,
                ),
            },
        },
    }
}

/// Resolves the `from` and `to` sides of a send to branch names and
/// tips, without comparing histories; callers that need the comparison
/// hand both tips to the commit-graph walker first.
pub fn resolve_send_branches(
    repo: &RepoSnapshot,
    from_branch: &Option<String>,
    to_branch: &Option<String>,
) -> (r: Result<((String, String), (String, String)), String>)
    ensures
        match r {
            Ok(p) => (spec_resolve_from(*repo, *from_branch) matches Ok(f) && p.0.0@ == f.0
                && p.0.1@ == f.1) && (spec_resolve_to(*repo, *to_branch) matches Ok(t) && p.1.0@
                == t.0 && p.1.1@ == t.1),
            Err(m) => (spec_resolve_from(*repo, *from_branch) matches Err(e) && m@ == e) || (
            spec_resolve_from(*repo, *from_branch) is Ok && (spec_resolve_to(*repo, *to_branch)
                matches Err(e) && m@ == e)),
        },
{
    let from_pair: (String, String) = match from_branch {
        Some(name) => match repo.get_tip_of_local_branch(name.as_str()) {
            Some(t) => (name.clone(), t),
            None => {
                return Err(name_message("cannot find from_branch '", name.as_str(), "'"));
            },
        },
        None => match &repo.head {
            Some(h) => (String::from_str("head"), h.clone()),
            None => {
                return Err(
                    String::from_str(
                        "checkout a commit or specify a from_branch. head does not reveal a commit",
                    ),
                );
            },
        },
    };
    let to_pair: (String, String) = match to_branch {
        Some(name) => match repo.get_tip_of_local_branch(name.as_str()) {
            Some(t) => (name.clone(), t),
            None => {
                return Err(name_message("cannot find to_branch '", name.as_str(), "'"));
            },
        },
        None => match repo.get_main_or_master_branch() {
            Some(p) => p,
            None => {
                return Err(
                    String::from_str(
                        "a destination branch (to_branch) is not specified and the defaults (main or master) do not exist",
                    ),
                );
            },
        },
    };
    Ok((from_pair, to_pair))
}

/// Resolves the `from` and `to` branches of a send and compares their
/// histories. Returns `(from_branch, to_branch, ahead, behind)`: the
/// resolved names and the commits by which `from` is ahead of and behind
/// `to`, newest first.
pub fn identify_ahead_behind(
    repo: &RepoSnapshot,
    from_branch: &Option<String>,
    to_branch: &Option<String>,
) -> (r: Result<(String, String, Vec<String>, Vec<String>), String>)
    ensures
        match r {
            Ok(q) => (spec_resolve_from(*repo, *from_branch) matches Ok(f) && (
            spec_resolve_to(*repo, *to_branch) matches Ok(t) && q.0@ == f.0 && q.1@ == t.0
                && exists|a: Vec<String>, b: Vec<String>|
                spec_ahead_behind(repo.ahead_behind@, t.1, f.1) == Some(
                    Ok::<(Vec<String>, Vec<String>), String>((a, b)),
                ) && q.2.deep_view() == a.deep_view() && q.3.deep_view() == b.deep_view())),
            Err(m) => (spec_resolve_from(*repo, *from_branch) matches Err(e) && m@ == e) || (
            spec_resolve_from(*repo, *from_branch) is Ok && (spec_resolve_to(*repo, *to_branch)
                matches Err(e) && m@ == e)) || (spec_resolve_from(*repo, *from_branch) matches Ok(
                f,
            ) && (spec_resolve_to(*repo, *to_branch) matches Ok(t) && (match spec_ahead_behind(
                repo.ahead_behind@,
                t.1,
                f.1,
            ) {
                Some(res) => (res matches Err(e) && (if contains_substr(
                    e@,
                    "is not an ancestor of"@,
                ) {
                    m@ == "'"@ + f.0 + "' is not branched from '"@ + t.0 + "'"@
                } else {
                    m@ == "failed to get commits ahead and behind from '"@ + f.0 + "' to '"@ + t.0
                        + "'"@
                })),
                None => m@ == "failed to get commits ahead and behind from '"@ + f.0 + "' to '"@
                    + t.0 + "'"@,
            }))),
        },
{
    let (from_name, from_tip): (String, String) = match from_branch {
        Some(name) => match repo.get_tip_of_local_branch(name.as_str()) {
            Some(t) => (name.clone(), t),
            None => {
                return Err(name_message("cannot find from_branch '", name.as_str(), "'"));
            },
        },
        None => match &repo.head {
            Some(h) => (String::from_str("head"), h.clone()),
            None => {
                return Err(
                    String::from_str(
                        "checkout a commit or specify a from_branch. head does not reveal a commit",
                    ),
                );
            },
        },
    };
    let (to_name, to_tip): (String, String) = match to_branch {
        Some(name) => match repo.get_tip_of_local_branch(name.as_str()) {
            Some(t) => (name.clone(), t),
            None => {
                return Err(name_message("cannot find to_branch '", name.as_str(), "'"));
            },
        },
        None => match repo.get_main_or_master_branch() {
            Some(p) => p,
            None => {
                return Err(
                    String::from_str(
                        "a destination branch (to_branch) is not specified and the defaults (main or master) do not exist",
                    ),
                );
            },
        },
    };
    match repo.get_commits_ahead_behind(to_tip.as_str(), from_tip.as_str()) {
        Some(Ok(p)) => Ok((from_name, to_name, p.0, p.1)),
        Some(Err(e)) => {
            if str_contains_substr(e.as_str(), "is not an ancestor of") {
                Err(not_branched_message(from_name.as_str(), to_name.as_str()))
            } else {
                Err(
                    wrapped_message(
                        "failed to get commits ahead and behind from '",
                        "' to '",
                        "'",
                        from_name.as_str(),
                        to_name.as_str(),
                    ),
                )
            }
        },
        None => Err(
            wrapped_message(
                "failed to get commits ahead and behind from '",
                "' to '",
                "'",
                from_name.as_str(),
                to_name.as_str(),
            ),
        ),
    }
}

/// The error shown when nothing is ahead: no patches can be created.
pub fn no_commits_message(from_branch: &str, to_branch: &str) -> (r: String)
    ensures
        r@ == "'"@ + from_branch@ + "' is 0 commits ahead of '"@ + to_branch@
            + "' so no patches were created"@,
{
    wrapped_message(
        "'",
        "' is 0 commits ahead of '",
        "' so no patches were created",
        from_branch,
        to_branch,
    )
}

/// The confirmation asked before sending from a branch that has fallen
/// behind its destination.
pub fn divergence_prompt(from_branch: &str, to_branch: &str, ahead: u64, behind: u64) -> (r:
    String)
    ensures
        r@ == "'"@ + from_branch@ + "' is "@ + dec_str(behind as nat) + " commits behind '"@
            + to_branch@ + "' and "@ + dec_str(ahead as nat)
            + " ahead. Consider rebasing before sending patches. Proceed anyway?"@,
{
    let mut m = String::from_str("'");
    m.append(from_branch);
    m.append("' is ");
    let b = u64_to_string(behind);
    m.append(b.as_str());
    m.append(" commits behind '");
    m.append(to_branch);
    m.append("' and ");
    let a = u64_to_string(ahead);
    m.append(a.as_str());
    m.append(" ahead. Consider rebasing before sending patches. Proceed anyway?");
    proof {
        assert(m@ =~= "'"@ + from_branch@ + "' is "@ + dec_str(behind as nat)
            + " commits behind '"@ + to_branch@ + "' and "@ + dec_str(ahead as nat)
            + " ahead. Consider rebasing before sending patches. Proceed anyway?"@);
    }
    m
}

/// The decision after the divergence prompt: declining aborts the send
/// so the branch can be rebased first.
pub fn proceed_after_divergence(confirmed: bool) -> (r: Result<(), String>)
    ensures
        confirmed ==> r is Ok,
        !confirmed ==> (r matches Err(m) && m@ == "aborting so branch can be rebased"@),
{
    if confirmed {
        Ok(())
    } else {
        Err(String::from_str("aborting so branch can be rebased"))
    }
}

/// The cover-letter decision of the send flow, as a function of the
/// arguments and of what the user answered: no cover letter when asked
/// not to; the given title (and given or entered description) when a
/// title argument is present; the entered title and description when the
/// user confirmed wanting one; nothing otherwise.
pub fn plan_cover_letter(
    no_cover_letter: bool,
    title_arg: &Option<String>,
    description_arg: &Option<String>,
    confirmed_cover_letter: bool,
    entered_title: &str,
    entered_description: &str,
) -> (r: Option<(String, String)>)
    ensures
        no_cover_letter ==> r is None,
        !no_cover_letter ==> match *title_arg {
            Some(t) => (r matches Some(p) && p.0@ == t@ && (match *description_arg {
                Some(d) => p.1@ == d@,
                None => p.1@ == entered_description@,
            })),
            None => if confirmed_cover_letter {
                (r matches Some(p) && p.0@ == entered_title@ && (match *description_arg {
                    Some(d) => p.1@ == d@,
                    None => p.1@ == entered_description@,
                }))
            } else {
                r is None
            },
        },
{
    if no_cover_letter {
        return None;
    }
    let title: Option<String> = match title_arg {
        Some(t) => Some(t.clone()),
        None => {
            if confirmed_cover_letter {
                Some(String::from_str(entered_title))
            } else {
                None
            }
        },
    };
    match title {
        Some(t) => {
            let d = match description_arg {
                Some(d) => d.clone(),
                None => String::from_str(entered_description),
            };
            Some((t, d))
        },
        None => None,
    }
}

/// What a commit contributes to its patch event: its hash, its parent's
/// hash, its message, author and committer fields, its PGP signature if
/// any, and its git-format patch text.
pub struct CommitDetails {
    pub id: String,
    pub parent: String,
    pub message: String,
    pub author: Vec<String>,
    pub committer: Vec<String>,
    pub pgp_sig: String,
    pub patch: String,
}

/// The relay hint placed in `a` and `e` tags: the repository's first
/// relay, or the empty string.
pub open spec fn spec_relay_hint(rr: RepoRef) -> Seq<char> {
    if rr.relays@.len() > 0 {
        rr.relays@[0]@
    } else {
        Seq::<char>::empty()
    }
}

/// The `a` tag addressing the repository announcement: its kind, first
/// maintainer and identifier, with the relay hint when one exists.
pub open spec fn spec_a_tag(rr: RepoRef) -> Seq<Seq<char>> {
    let coord = dec_str(REPO_REF_KIND as nat) + ":"@ + rr.maintainers@[0]@ + ":"@
        + rr.identifier@;
    if rr.relays@.len() > 0 {
        seq!["a"@, coord, rr.relays@[0]@]
    } else {
        seq!["a"@, coord]
    }
}

/// One `p` tag per maintainer.
pub open spec fn spec_p_tags(maintainers: Seq<String>) -> Seq<Seq<Seq<char>>> {
    maintainers.map_values(|pk: String| seq!["p"@, pk@])
}

/// The tag list of one patch event, in order: the repository address, the
/// root-commit and commit references, the thread-root link (or the `root`
/// hashtag on a series root), the reply link when the patch has a
/// predecessor, the branch name on a series root, the maintainers, and
/// the commit-reconstruction fields.
pub open spec fn spec_patch_tags(
    c: CommitDetails,
    root_commit: Seq<char>,
    thread: Option<Seq<char>>,
    parent: Option<Seq<char>>,
    branch: Option<Seq<char>>,
    rr: RepoRef,
) -> Seq<Seq<Seq<char>>> {
    seq![spec_a_tag(rr), seq!["r"@, root_commit], seq!["r"@, c.id@]] + (match thread {
        Some(t) => seq![seq!["e"@, t, spec_relay_hint(rr), "root"@]],
        None => seq![seq!["t"@, "root"@]],
    }) + (match parent {
        Some(p) => seq![seq!["e"@, p, spec_relay_hint(rr), "reply"@]],
        None => Seq::<Seq<Seq<char>>>::empty(),
    }) + (match branch {
        Some(b) => if thread is None {
            seq![seq!["branch-name"@, b]]
        } else {
            Seq::<Seq<Seq<char>>>::empty()
        },
        None => Seq::<Seq<Seq<char>>>::empty(),
    }) + spec_p_tags(rr.maintainers@) + seq![
        seq!["commit"@, c.id@],
        seq!["parent-commit"@, c.parent@],
        seq!["commit-pgp-sig"@, c.pgp_sig@],
        seq!["description"@, c.message@],
        seq!["author"@] + c.author.deep_view(),
        seq!["committer"@] + c.committer.deep_view(),
    ]
}

/// The tag list of a cover-letter event: the repository address, the
/// root-commit reference, the `cover-letter` and `root` hashtags, the
/// branch name when one is checked out, and the maintainers.
pub open spec fn spec_cover_tags(
    rr: RepoRef,
    root_commit: Seq<char>,
    branch: Option<Seq<char>>,
) -> Seq<Seq<Seq<char>>> {
    seq![
        spec_a_tag(rr),
        seq!["r"@, root_commit],
        seq!["t"@, "cover-letter"@],
        seq!["t"@, "root"@],
    ] + (match branch {
        Some(b) => seq![seq!["branch-name"@, b]],
        None => Seq::<Seq<Seq<char>>>::empty(),
    }) + spec_p_tags(rr.maintainers@)
}

fn tag2(a: &str, b: &str) -> (r: Vec<String>)
    ensures
        r.deep_view() == seq![a@, b@],
        r@.len() == 2,
{
    let mut v: Vec<String> = Vec::new();
    v.push(String::from_str(a));
    v.push(String::from_str(b));
    proof {
        assert(v.deep_view() =~= seq![a@, b@]);
    }
    v
}

fn tag3(a: &str, b: &str, c: &str) -> (r: Vec<String>)
    ensures
        r.deep_view() == seq![a@, b@, c@],
        r@.len() == 3,
{
    let mut v: Vec<String> = Vec::new();
    v.push(String::from_str(a));
    v.push(String::from_str(b));
    v.push(String::from_str(c));
    proof {
        assert(v.deep_view() =~= seq![a@, b@, c@]);
    }
    v
}

fn tag4(a: &str, b: &str, c: &str, d: &str) -> (r: Vec<String>)
    ensures
        r.deep_view() == seq![a@, b@, c@, d@],
        r@.len() == 4,
{
    let mut v: Vec<String> = Vec::new();
    v.push(String::from_str(a));
    v.push(String::from_str(b));
    v.push(String::from_str(c));
    v.push(String::from_str(d));
    proof {
        assert(v.deep_view() =~= seq![a@, b@, c@, d@]);
    }
    v
}

fn tag_prepend(name: &str, vals: &Vec<String>) -> (r: Vec<String>)
    ensures
        r.deep_view() == seq![name@] + vals.deep_view(),
        r@.len() == 1 + vals@.len(),
{
    let mut v: Vec<String> = Vec::new();
    v.push(String::from_str(name));
    let n: usize = vals.len();
    let mut i: usize = 0;
    proof {
        assert(vals.deep_view().take(0) =~= Seq::<Seq<char>>::empty());
        assert(v.deep_view() =~= seq![name@] + Seq::<Seq<char>>::empty());
    }
    while i < n
        invariant
            0 <= i <= n,
            n == vals@.len(),
            v@.len() == 1 + i,
            v.deep_view() == seq![name@] + vals.deep_view().take(i as int),
        decreases n - i,
    {
        let ghost v0 = v.deep_view();
        v.push(vals[i].clone());
        proof {
            assert(v.deep_view() =~= v0.push(vals@[i as int]@));
            assert(vals.deep_view()[i as int] == vals@[i as int]@);
            assert(seq![name@] + vals.deep_view().take(i + 1) =~= v0.push(vals@[i as int]@));
        }
        i = i + 1;
    }
    proof {
        assert(vals.deep_view().take(n as int) =~= vals.deep_view());
    }
    v
}

/// Builds the repository-address coordinate `<kind>:<maintainer>:<id>`.
fn a_tag_coord(rr: &RepoRef) -> (r: String)
    requires
        rr.maintainers@.len() >= 1,
    ensures
        r@ == dec_str(REPO_REF_KIND as nat) + ":"@ + rr.maintainers@[0]@ + ":"@ + rr.identifier@,
{
    let mut c = u64_to_string(REPO_REF_KIND);
    c.append(":");
    c.append(rr.maintainers[0].as_str());
    c.append(":");
    c.append(rr.identifier.as_str());
    proof {
        assert(c@ =~= dec_str(REPO_REF_KIND as nat) + ":"@ + rr.maintainers@[0]@ + ":"@
            + rr.identifier@);
    }
    c
}

fn a_tag(rr: &RepoRef) -> (r: Vec<String>)
    requires
        rr.maintainers@.len() >= 1,
    ensures
        r.deep_view() == spec_a_tag(*rr),
        r@.len() >= 2,
{
    let coord = a_tag_coord(rr);
    if rr.relays.len() > 0 {
        tag3("a", coord.as_str(), rr.relays[0].as_str())
    } else {
        tag2("a", coord.as_str())
    }
}

fn push_p_tags(tags: &mut Vec<Vec<String>>, maintainers: &Vec<String>)
    ensures
        final(tags).deep_view() == old(tags).deep_view() + spec_p_tags(maintainers@),
        final(tags)@.len() == old(tags)@.len() + maintainers@.len(),
        forall|i: int|
            old(tags)@.len() <= i < final(tags)@.len() ==> (#[trigger] final(tags)@[i])@.len() == 2,
        forall|i: int|
            0 <= i < old(tags)@.len() ==> (#[trigger] final(tags)@[i]) == old(tags)@[i],
{
    let n: usize = maintainers.len();
    let mut i: usize = 0;
    proof {
        assert(spec_p_tags(maintainers@.take(0)) =~= Seq::<Seq<Seq<char>>>::empty());
        assert(tags.deep_view() + Seq::<Seq<Seq<char>>>::empty() =~= tags.deep_view());
    }
    while i < n
        invariant
            0 <= i <= n,
            n == maintainers@.len(),
            tags@.len() == old(tags)@.len() + i,
            tags.deep_view() == old(tags).deep_view() + spec_p_tags(maintainers@.take(i as int)),
            forall|k: int|
                old(tags)@.len() <= k < tags@.len() ==> (#[trigger] tags@[k])@.len() == 2,
            forall|k: int| 0 <= k < old(tags)@.len() ==> (#[trigger] tags@[k]) == old(tags)@[k],
        decreases n - i,
    {
        let ghost t0 = tags.deep_view();
        let t = tag2("p", maintainers[i].as_str());
        tags.push(t);
        proof {
            assert(tags.deep_view() =~= t0.push(seq!["p"@, maintainers@[i as int]@]));
            assert(spec_p_tags(maintainers@.take(i + 1)) =~= spec_p_tags(
                maintainers@.take(i as int),
            ).push(seq!["p"@, maintainers@[i as int]@]));
            assert(old(tags).deep_view() + spec_p_tags(maintainers@.take(i + 1)) =~= t0.push(
                seq!["p"@, maintainers@[i as int]@],
            ));
        }
        i = i + 1;
    }
    proof {
        assert(maintainers@.take(n as int) =~= maintainers@);
    }
}

/// The error used when the repository reference names no maintainer.
pub open spec fn spec_no_maintainer_msg() -> Seq<char> {
    "repo reference should always have at least one maintainer - the issuer of the repo event"@
}

/// Builds the full tag list of one patch event.
#[verifier::rlimit(100)]
pub fn build_patch_tags(
    commit: &CommitDetails,
    root_commit: &str,
    thread_event_id: &Option<String>,
    repo_ref: &RepoRef,
    parent_patch_event_id: &Option<String>,
    branch_name: &Option<String>,
) -> (r: Result<Vec<Vec<String>>, String>)
    ensures
        match r {
            Ok(tags) => repo_ref.maintainers@.len() >= 1 && tags.deep_view() == spec_patch_tags(
                *commit,
                root_commit@,
                opt_str_view(*thread_event_id),
                opt_str_view(*parent_patch_event_id),
                opt_str_view(*branch_name),
                *repo_ref,
            ) && forall|i: int| 0 <= i < tags@.len() ==> (#[trigger] tags@[i])@.len() >= 1,
            Err(m) => repo_ref.maintainers@.len() == 0 && m@ == spec_no_maintainer_msg(),
        },
{
    if repo_ref.maintainers.len() == 0 {
        return Err(
            String::from_str(
                "repo reference should always have at least one maintainer - the issuer of the repo event",
            ),
        );
    }
    let relay_hint: String = if repo_ref.relays.len() > 0 {
        repo_ref.relays[0].clone()
    } else {
        String::new()
    };
    proof {
        assert(relay_hint@ == spec_relay_hint(*repo_ref));
    }
    let ghost thread_v = opt_str_view(*thread_event_id);
    let ghost parent_v = opt_str_view(*parent_patch_event_id);
    let ghost branch_v = opt_str_view(*branch_name);
    let ghost spec_tags = spec_patch_tags(
        *commit,
        root_commit@,
        thread_v,
        parent_v,
        branch_v,
        *repo_ref,
    );
    let mut tags: Vec<Vec<String>> = Vec::new();
    let t_a = a_tag(repo_ref);
    let ghost t_a_v = t_a.deep_view();
    tags.push(t_a);
    proof {
        assert(tags.deep_view() =~= Seq::<Seq<Seq<char>>>::empty().push(t_a_v));
    }
    let ghost dv1 = tags.deep_view();
    tags.push(tag2("r", root_commit));
    proof {
        assert(tags.deep_view() =~= dv1.push(seq!["r"@, root_commit@]));
    }
    let ghost dv2 = tags.deep_view();
    tags.push(tag2("r", commit.id.as_str()));
    proof {
        assert(tags.deep_view() =~= dv2.push(seq!["r"@, commit.id@]));
    }
    let ghost dv3 = tags.deep_view();
    match thread_event_id {
        Some(t) => {
            tags.push(tag4("e", t.as_str(), relay_hint.as_str(), "root"));
            proof {
                assert(tags.deep_view() =~= dv3.push(seq![
                    "e"@,
                    t@,
                    spec_relay_hint(*repo_ref),
                    "root"@,
                ]));
            }
        },
        None => {
            tags.push(tag2("t", "root"));
            proof {
                assert(tags.deep_view() =~= dv3.push(seq!["t"@, "root"@]));
            }
        },
    }
    let ghost dv4 = tags.deep_view();
    match parent_patch_event_id {
        Some(p) => {
            tags.push(tag4("e", p.as_str(), relay_hint.as_str(), "reply"));
            proof {
                assert(tags.deep_view() =~= dv4.push(seq![
                    "e"@,
                    p@,
                    spec_relay_hint(*repo_ref),
                    "reply"@,
                ]));
            }
        },
        None => {},
    }
    let ghost dv5 = tags.deep_view();
    match branch_name {
        Some(b) => {
            match thread_event_id {
                Some(_) => {},
                None => {
                    tags.push(tag2("branch-name", b.as_str()));
                    proof {
                        assert(tags.deep_view() =~= dv5.push(seq!["branch-name"@, b@]));
                    }
                },
            }
        },
        None => {},
    }
    let ghost head = tags.deep_view();
    proof {
        assert(head =~= seq![spec_a_tag(*repo_ref), seq!["r"@, root_commit@], seq![
            "r"@,
            commit.id@,
        ]] + (match thread_v {
            Some(t) => seq![seq!["e"@, t, spec_relay_hint(*repo_ref), "root"@]],
            None => seq![seq!["t"@, "root"@]],
        }) + (match parent_v {
            Some(p) => seq![seq!["e"@, p, spec_relay_hint(*repo_ref), "reply"@]],
            None => Seq::<Seq<Seq<char>>>::empty(),
        }) + (match branch_v {
            Some(b) => if thread_v is None {
                seq![seq!["branch-name"@, b]]
            } else {
                Seq::<Seq<Seq<char>>>::empty()
            },
            None => Seq::<Seq<Seq<char>>>::empty(),
        }));
    }
    push_p_tags(&mut tags, &repo_ref.maintainers);
    let ghost mid = tags.deep_view();
    proof {
        assert(mid == head + spec_p_tags(repo_ref.maintainers@));
    }
    tags.push(tag2("commit", commit.id.as_str()));
    let ghost dv6 = tags.deep_view();
    tags.push(tag2("parent-commit", commit.parent.as_str()));
    let ghost dv7 = tags.deep_view();
    tags.push(tag2("commit-pgp-sig", commit.pgp_sig.as_str()));
    let ghost dv8 = tags.deep_view();
    tags.push(tag2("description", commit.message.as_str()));
    let ghost dv9 = tags.deep_view();
    tags.push(tag_prepend("author", &commit.author));
    let ghost dv10 = tags.deep_view();
    tags.push(tag_prepend("committer", &commit.committer));
    proof {
        assert(dv6 =~= mid.push(seq!["commit"@, commit.id@]));
        assert(dv7 =~= dv6.push(seq!["parent-commit"@, commit.parent@]));
        assert(dv8 =~= dv7.push(seq!["commit-pgp-sig"@, commit.pgp_sig@]));
        assert(dv9 =~= dv8.push(seq!["description"@, commit.message@]));
        assert(dv10 =~= dv9.push(seq!["author"@] + commit.author.deep_view()));
        assert(tags.deep_view() =~= dv10.push(seq!["committer"@] + commit.committer.deep_view()));
        assert(tags.deep_view() =~= mid + seq![
            seq!["commit"@, commit.id@],
            seq!["parent-commit"@, commit.parent@],
            seq!["commit-pgp-sig"@, commit.pgp_sig@],
            seq!["description"@, commit.message@],
            seq!["author"@] + commit.author.deep_view(),
            seq!["committer"@] + commit.committer.deep_view(),
        ]);
        assert(tags.deep_view() =~= spec_tags);
        assert forall|i: int| 0 <= i < tags@.len() implies (#[trigger] tags@[i])@.len() >= 1 by {
            assert(tags.deep_view()[i].len() == tags@[i]@.len());
        }
    }
    Ok(tags)
}

/// Builds the tag list of a cover-letter event.
pub fn build_cover_tags(repo_ref: &RepoRef, root_commit: &str, branch_name: &Option<String>) -> (r:
    Result<Vec<Vec<String>>, String>)
    ensures
        match r {
            Ok(tags) => repo_ref.maintainers@.len() >= 1 && tags.deep_view() == spec_cover_tags(
                *repo_ref,
                root_commit@,
                opt_str_view(*branch_name),
            ) && forall|i: int| 0 <= i < tags@.len() ==> (#[trigger] tags@[i])@.len() >= 1,
            Err(m) => repo_ref.maintainers@.len() == 0 && m@ == spec_no_maintainer_msg(),
        },
{
    if repo_ref.maintainers.len() == 0 {
        return Err(
            String::from_str(
                "repo reference should always have at least one maintainer - the issuer of the repo event",
            ),
        );
    }
    let ghost branch_v = opt_str_view(*branch_name);
    let mut tags: Vec<Vec<String>> = Vec::new();
    let t_a = a_tag(repo_ref);
    let ghost t_a_v = t_a.deep_view();
    tags.push(t_a);
    proof {
        assert(tags.deep_view() =~= Seq::<Seq<Seq<char>>>::empty().push(t_a_v));
    }
    let ghost dv1 = tags.deep_view();
    tags.push(tag2("r", root_commit));
    proof {
        assert(tags.deep_view() =~= dv1.push(seq!["r"@, root_commit@]));
    }
    let ghost dv2 = tags.deep_view();
    tags.push(tag2("t", "cover-letter"));
    proof {
        assert(tags.deep_view() =~= dv2.push(seq!["t"@, "cover-letter"@]));
    }
    let ghost dv3 = tags.deep_view();
    tags.push(tag2("t", "root"));
    proof {
        assert(tags.deep_view() =~= dv3.push(seq!["t"@, "root"@]));
    }
    let ghost dv4 = tags.deep_view();
    match branch_name {
        Some(b) => {
            tags.push(tag2("branch-name", b.as_str()));
            proof {
                assert(tags.deep_view() =~= dv4.push(seq!["branch-name"@, b@]));
            }
        },
        None => {},
    }
    let ghost head = tags.deep_view();
    proof {
        assert(head =~= seq![
            spec_a_tag(*repo_ref),
            seq!["r"@, root_commit@],
            seq!["t"@, "cover-letter"@],
            seq!["t"@, "root"@],
        ] + (match branch_v {
            Some(b) => seq![seq!["branch-name"@, b]],
            None => Seq::<Seq<Seq<char>>>::empty(),
        }));
    }
    push_p_tags(&mut tags, &repo_ref.maintainers);
    proof {
        assert(tags.deep_view() =~= spec_cover_tags(*repo_ref, root_commit@, branch_v));
        assert forall|i: int| 0 <= i < tags@.len() implies (#[trigger] tags@[i])@.len() >= 1 by {
            assert(tags.deep_view()[i].len() == tags@[i]@.len());
        }
    }
    Ok(tags)
}

proof fn lemma_p_tags_shape(ms: Seq<String>, name: Seq<char>)
    requires
        name != "p"@,
    ensures
        forall|i: int|
            0 <= i < spec_p_tags(ms).len() ==> (#[trigger] spec_p_tags(ms)[i]).len() == 2,
        spec_tag_value_dv(spec_p_tags(ms), name) is None,
    decreases ms.len(),
{
    assert forall|i: int| 0 <= i < spec_p_tags(ms).len() implies (#[trigger] spec_p_tags(
        ms,
    )[i]).len() == 2 by {
        assert(spec_p_tags(ms)[i] == seq!["p"@, ms[i]@]);
    }
    if ms.len() > 0 {
        assert(spec_p_tags(ms)[0] == seq!["p"@, ms[0]@]);
        assert(spec_p_tags(ms)[0][0] == "p"@);
        assert(spec_p_tags(ms).drop_first() =~= spec_p_tags(ms.drop_first()));
        lemma_p_tags_shape(ms.drop_first(), name);
    }
}

proof fn lemma_cover_tag_literals()
    ensures
        "a"@ != "description"@,
        "r"@ != "description"@,
        "t"@ != "description"@,
        "branch-name"@ != "description"@,
        "p"@ != "description"@,
        "a"@ != "branch-name"@,
        "r"@ != "branch-name"@,
        "t"@ != "branch-name"@,
        "p"@ != "branch-name"@,
{
    reveal_strlit("a");
    reveal_strlit("r");
    reveal_strlit("t");
    reveal_strlit("p");
    reveal_strlit("branch-name");
    reveal_strlit("description");
    assert("branch-name"@[0] == 'b' && "description"@[0] == 'd');
}

/// What a cover letter's tag list answers: each tag has a name and a
/// value, no tag is named `description`, the `branch-name` tag holds the
/// branch when one was given, and the `root` hashtag stands in fourth
/// position.
proof fn lemma_cover_tags_facts(rr: RepoRef, root_commit: Seq<char>, branch: Option<Seq<char>>)
    ensures
        forall|i: int|
            0 <= i < spec_cover_tags(rr, root_commit, branch).len() ==> (
            #[trigger] spec_cover_tags(rr, root_commit, branch)[i]).len() >= 2,
        spec_tag_value_dv(spec_cover_tags(rr, root_commit, branch), "description"@) is None,
        spec_tag_value_dv(spec_cover_tags(rr, root_commit, branch), "branch-name"@) == branch,
        spec_cover_tags(rr, root_commit, branch)[3] == seq!["t"@, "root"@],
{
    lemma_cover_tag_literals();
    let head = seq![
        spec_a_tag(rr),
        seq!["r"@, root_commit],
        seq!["t"@, "cover-letter"@],
        seq!["t"@, "root"@],
    ];
    let mid = (match branch {
        Some(b) => seq![seq!["branch-name"@, b]],
        None => Seq::<Seq<Seq<char>>>::empty(),
    });
    let p = spec_p_tags(rr.maintainers@);
    let whole = spec_cover_tags(rr, root_commit, branch);
    assert(whole == head + mid + p);
    lemma_p_tags_shape(rr.maintainers@, "description"@);
    lemma_p_tags_shape(rr.maintainers@, "branch-name"@);
    assert(spec_a_tag(rr).len() >= 2);
    assert forall|i: int| 0 <= i < whole.len() implies (#[trigger] whole[i]).len() >= 2 by {
        if i < 4 {
            assert(whole[i] == head[i]);
        } else if i < 4 + mid.len() {
            assert(whole[i] == mid[i - 4]);
        } else {
            assert(whole[i] == p[i - 4 - mid.len()]);
            assert(p[i - 4 - mid.len()].len() == 2);
        }
    }
    assert(spec_a_tag(rr)[0] == "a"@);
    reveal_with_fuel(spec_tag_value_dv, 6);
    assert(spec_tag_value_dv(head, "description"@) is None);
    assert(spec_tag_value_dv(mid, "description"@) is None);
    lemma_tag_value_dv_concat(head, mid, "description"@);
    lemma_tag_value_dv_concat(head + mid, p, "description"@);
    assert(head + mid + p =~= (head + mid) + p);
    assert(spec_tag_value_dv(head, "branch-name"@) is None);
    assert(spec_tag_value_dv(mid, "branch-name"@) == branch);
    lemma_tag_value_dv_concat(head, mid, "branch-name"@);
    lemma_tag_value_dv_concat(head + mid, p, "branch-name"@);
    assert(whole[3] == head[3]);
}

/// Codec round trip at the event level: a cover-letter event generated
/// from a title without newlines, a description and a hex last-commit
/// hash parses back to the same title, to the trimmed description, and to
/// the branch name it was generated with (the slugified title when none
/// was given).
pub proof fn lemma_generated_cover_letter_parses(
    ev: Event,
    last_commit: Seq<char>,
    n: nat,
    title: Seq<char>,
    description: Seq<char>,
    rr: RepoRef,
    root_commit: Seq<char>,
    branch: Option<Seq<char>>,
)
    requires
        ev.kind == PATCH_KIND,
        ev.content@ == spec_cover_letter_content(last_commit, n, title, description),
        ev.tags.deep_view() == spec_cover_tags(rr, root_commit, branch),
        !crate::strutil::contains_char(last_commit, ']'),
        !crate::strutil::contains_char(title, '\n'),
    ensures
        crate::cover_letter::spec_parse_cover_letter(ev) == Some(
            crate::cover_letter::CoverLetterData {
                title: title,
                description: crate::strutil::trim_spec(description),
                branch_name: match branch {
                    Some(b) => b,
                    None => crate::cover_letter::spec_slugify(title),
                },
            },
        ),
{
    let dv = spec_cover_tags(rr, root_commit, branch);
    lemma_cover_tags_facts(rr, root_commit, branch);
    assert(ev.tags.deep_view().len() == ev.tags@.len());
    assert forall|i: int| 0 <= i < ev.tags@.len() implies dv[i] == (
    #[trigger] ev.tags@[i]).deep_view() && ev.tags@[i]@.len() >= 2 by {
        assert(ev.tags.deep_view()[i] == ev.tags@[i].deep_view());
        assert(ev.tags@[i]@.len() == ev.tags@[i].deep_view().len());
        assert(dv[i].len() >= 2);
    }
    lemma_tag_value_matches_dv(ev.tags@, dv, "description"@);
    lemma_tag_value_matches_dv(ev.tags@, dv, "branch-name"@);
    assert(ev.tags@[3]@[1]@ == dv[3][1]);
    assert(ev.tags@[3]@[1]@ == "root"@);
    assert(ev.spec_has_tag_value("root"@));
    assert(spec_event_is_patch_set_root(ev));
    crate::cover_letter::lemma_cover_letter_round_trip(ev, last_commit, n, title, description);
}

/// Generates one signed patch event for a commit: content is the commit's
/// git-format patch text, and the tags bind it to the repository, its
/// thread and its predecessor as `spec_patch_tags` lays out.
pub fn generate_patch_event(
    commit: &CommitDetails,
    root_commit: &str,
    thread_event_id: &Option<String>,
    keys: &nostr::key::Keys,
    repo_ref: &RepoRef,
    parent_patch_event_id: &Option<String>,
    branch_name: &Option<String>,
) -> (r: Result<Event, String>)
    ensures
        repo_ref.maintainers@.len() == 0 ==> r is Err,
        match r {
            Ok(ev) => ev.kind == PATCH_KIND && ev.content@ == commit.patch@
                && ev.tags.deep_view() == spec_patch_tags(
                *commit,
                root_commit@,
                opt_str_view(*thread_event_id),
                opt_str_view(*parent_patch_event_id),
                opt_str_view(*branch_name),
                *repo_ref,
            ),
            Err(m) => repo_ref.maintainers@.len() == 0 ==> m@ == spec_no_maintainer_msg(),
        },
{
    let tags = match build_patch_tags(
        commit,
        root_commit,
        thread_event_id,
        repo_ref,
        parent_patch_event_id,
        branch_name,
    ) {
        Ok(t) => t,
        Err(m) => {
            return Err(m);
        },
    };
    let ghost tags_v = tags.deep_view();
    match sign_event(PATCH_KIND, commit.patch.clone(), tags, keys) {
        Ok(ev) => Ok(ev),
        Err(m) => Err(m),
    }
}

/// A series root's branch name: the checked-out branch, only on the
/// first event of the series.
pub open spec fn spec_series_branch(
    checked_out: Option<Seq<char>>,
    idx: int,
) -> Option<Seq<char>> {
    if idx == 0 {
        checked_out
    } else {
        None
    }
}

/// Generates the signed event series of a proposal: an optional cover
/// letter followed by one patch event per commit, oldest first. Each
/// patch after the first references the series root as its thread and
/// its predecessor as its reply parent.
#[verifier::rlimit(100)]
pub fn generate_pr_and_patch_events(
    cover_letter_title_description: &Option<(String, String)>,
    commits: &Vec<CommitDetails>,
    root_commit: &str,
    checked_out_branch: &Option<String>,
    keys: &nostr::key::Keys,
    repo_ref: &RepoRef,
) -> (r: Result<Vec<Event>, String>)
    requires
        cover_letter_title_description is Some ==> commits@.len() >= 1,
    ensures
        repo_ref.maintainers@.len() == 0 && (cover_letter_title_description is Some
            || commits@.len() >= 1) ==> (r matches Err(m) && m@ == spec_no_maintainer_msg()),
        match r {
            Ok(evs) => {
                let off: int = if cover_letter_title_description is Some {
                    1
                } else {
                    0
                };
                evs@.len() == commits@.len() + off && (match *cover_letter_title_description {
                    Some(td) => evs@[0].kind == PATCH_KIND && evs@[0].content@
                        == spec_cover_letter_content(
                        commits@.last().id@,
                        commits@.len(),
                        td.0@,
                        td.1@,
                    ) && evs@[0].tags.deep_view() == spec_cover_tags(
                        *repo_ref,
                        root_commit@,
                        opt_str_view(*checked_out_branch),
                    ),
                    None => true,
                }) && (forall|i: int|
                    0 <= i < commits@.len() ==> (#[trigger] evs@[off + i]).kind == PATCH_KIND
                        && evs@[off + i].content@ == commits@[i].patch@ && evs@[
                        off + i
                    ].tags.deep_view() == spec_patch_tags(
                        commits@[i],
                        root_commit@,
                        if off + i == 0 {
                            None
                        } else {
                            Some(evs@[0].id@)
                        },
                        if off + i == 0 {
                            None
                        } else {
                            Some(evs@[off + i - 1].id@)
                        },
                        spec_series_branch(opt_str_view(*checked_out_branch), off + i),
                        *repo_ref,
                    ))
            },
            Err(m) => true,
        },
{
    let mut events: Vec<Event> = Vec::new();
    match cover_letter_title_description {
        Some(td) => {
            let last = &commits[commits.len() - 1];
            let content = cover_letter_content(
                last.id.as_str(),
                commits.len() as u64,
                td.0.as_str(),
                td.1.as_str(),
            );
            let tags = match build_cover_tags(repo_ref, root_commit, checked_out_branch) {
                Ok(t) => t,
                Err(m) => {
                    return Err(m);
                },
            };
            match sign_event(PATCH_KIND, content, tags, keys) {
                Ok(ev) => events.push(ev),
                Err(m) => {
                    return Err(m);
                },
            }
        },
        None => {},
    }
    let ghost off: int = if cover_letter_title_description is Some {
        1
    } else {
        0
    };
    let n: usize = commits.len();
    let mut i: usize = 0;
    while i < n
        invariant
            0 <= i <= n,
            n == commits@.len(),
            events@.len() == off + i,
            off == (if cover_letter_title_description is Some {
                1int
            } else {
                0
            }),
            cover_letter_title_description is Some ==> commits@.len() >= 1,
            i > 0 || cover_letter_title_description is Some ==> repo_ref.maintainers@.len() >= 1,
            match *cover_letter_title_description {
                Some(td) => events@.len() >= 1 && events@[0].kind == PATCH_KIND
                    && events@[0].content@ == spec_cover_letter_content(
                    commits@.last().id@,
                    commits@.len(),
                    td.0@,
                    td.1@,
                ) && events@[0].tags.deep_view() == spec_cover_tags(
                    *repo_ref,
                    root_commit@,
                    opt_str_view(*checked_out_branch),
                ),
                None => true,
            },
            forall|k: int|
                0 <= k < i ==> (#[trigger] events@[off + k]).kind == PATCH_KIND && events@[
                    off + k
                ].content@ == commits@[k].patch@ && events@[off + k].tags.deep_view()
                    == spec_patch_tags(
                    commits@[k],
                    root_commit@,
                    if off + k == 0 {
                        None
                    } else {
                        Some(events@[0].id@)
                    },
                    if off + k == 0 {
                        None
                    } else {
                        Some(events@[off + k - 1].id@)
                    },
                    spec_series_branch(opt_str_view(*checked_out_branch), off + k),
                    *repo_ref,
                ),
        decreases n - i,
    {
        let thread_event_id: Option<String> = if events.len() > 0 {
            Some(events[0].id.clone())
        } else {
            None
        };
        let parent_patch_event_id: Option<String> = if events.len() > 0 {
            Some(events[events.len() - 1].id.clone())
        } else {
            None
        };
        let branch_name: Option<String> = if events.len() == 0 {
            match checked_out_branch {
                Some(b) => Some(b.clone()),
                None => None,
            }
        } else {
            None
        };
        let ghost events0 = events@;
        let ev = match generate_patch_event(
            &commits[i],
            root_commit,
            &thread_event_id,
            keys,
            repo_ref,
            &parent_patch_event_id,
            &branch_name,
        ) {
            Ok(ev) => ev,
            Err(m) => {
                return Err(m);
            },
        };
        events.push(ev);
        proof {
            assert(events@ =~= events0.push(ev));
            assert(events@[off + i as int] == ev);
            assert forall|k: int|
                0 <= k < i + 1 implies (#[trigger] events@[off + k]).kind == PATCH_KIND
                && events@[off + k].content@ == commits@[k].patch@ && events@[
                off + k
            ].tags.deep_view() == spec_patch_tags(
                commits@[k],
                root_commit@,
                if off + k == 0 {
                    None
                } else {
                    Some(events@[0].id@)
                },
                if off + k == 0 {
                    None
                } else {
                    Some(events@[off + k - 1].id@)
                },
                spec_series_branch(opt_str_view(*checked_out_branch), off + k),
                *repo_ref,
            ) by {
                if k < i {
                    assert(events@[off + k] == events0[off + k]);
                    if off + k > 0 {
                        assert(events@[off + k - 1] == events0[off + k - 1]);
                    }
                    if off + k != 0 || k > 0 {
                        assert(events@[0] == events0[0]);
                    }
                } else {
                    assert(opt_str_view(thread_event_id) == (if off + k == 0 {
                        None::<Seq<char>>
                    } else {
                        Some(events@[0].id@)
                    }));
                    assert(opt_str_view(parent_patch_event_id) == (if off + k == 0 {
                        None::<Seq<char>>
                    } else {
                        Some(events@[off + k - 1].id@)
                    }));
                    assert(opt_str_view(branch_name) == spec_series_branch(
                        opt_str_view(*checked_out_branch),
                        off + k,
                    ));
                }
            }
        }
        i = i + 1;
    }
    Ok(events)
}

/// The progress line printed before publishing: how many patches go out
/// and whether a covering letter goes with them.
pub fn posting_message(n_patches: u64, with_cover_letter: bool) -> (r: String)
    ensures
        r@ == "posting "@ + dec_str(n_patches as nat) + " patches "@ + (if with_cover_letter {
            "with"@
        } else {
            "without"@
        }) + " a covering letter..."@,
{
    let mut m = String::from_str("posting ");
    let n = u64_to_string(n_patches);
    m.append(n.as_str());
    m.append(" patches ");
    if with_cover_letter {
        m.append("with");
    } else {
        m.append("without");
    }
    m.append(" a covering letter...");
    proof {
        assert(m@ =~= "posting "@ + dec_str(n_patches as nat) + " patches "@ + (
        if with_cover_letter {
            "with"@
        } else {
            "without"@
        }) + " a covering letter..."@);
    }
    m
}

} // verus!
