//! Reading a cover letter (title, description, branch name) out of a patch
//! event, and the content template that a cover letter event carries.
use vstd::prelude::*;

use crate::events::{Event, spec_event_is_patch_set_root, event_is_patch_set_root, tag_value};
use crate::strutil::{
    contains_char, dec_str, find_char_first, find_char_from, find_first, find_str,
    is_digit_char, is_first_char, is_first_match, is_ws_char, lemma_dec_str_digits,
    lemma_find_char_first, lemma_find_char_first_none, lemma_find_first, lemma_find_first_none,
    match_at, substr_string, trim_spec, trim_start_spec, trim_string, u64_to_string,
};

verus! {

/// A derived value: the title, free-form description and branch name that
/// a patch-set root event carries.
#[derive(Debug)]
pub struct CoverLetter {
    pub title: String,
    pub description: String,
    pub branch_name: String,
}

/// The same value at the specification level.
pub struct CoverLetterData {
    pub title: Seq<char>,
    pub description: Seq<char>,
    pub branch_name: Seq<char>,
}

/// Whether a character survives branch-name slugification.
pub open spec fn slug_keep(c: char) -> bool {
    (48 <= c as int && c as int <= 57) || (65 <= c as int && c as int <= 90) || (97 <= c as int
        && c as int <= 122) || c == '/'
}

/// Slugification keeps ASCII alphanumerics and `/` and turns every other
/// character (spaces included) into `-`.
pub open spec fn slug_char(c: char) -> char {
    if slug_keep(c) {
        c
    } else {
        '-'
    }
}

/// The slugified form of a title: the deterministic branch-name mapping.
pub open spec fn spec_slugify(s: Seq<char>) -> Seq<char> {
    s.map_values(|c: char| slug_char(c))
}

/// Derives a branch name from a title: spaces and other non-`[A-Za-z0-9/]`
/// characters become `-`.
pub fn slugify(s: &str) -> (r: String)
    ensures
        r@ == spec_slugify(s@),
{
    let n: usize = s.unicode_len();
    let mut r = String::new();
    let mut i: usize = 0;
    while i < n
        invariant
            0 <= i <= n,
            n == s@.len(),
            r@ == spec_slugify(s@.take(i as int)),
        decreases n - i,
    {
        let c = s.get_char(i);
        let u: u32 = c as u32;
        if (48 <= u && u <= 57) || (65 <= u && u <= 90) || (97 <= u && u <= 122) || c == '/' {
            let piece = s.substring_char(i, i + 1);
            proof {
                assert(s@.subrange(i as int, i + 1) =~= seq![slug_char(s@[i as int])]);
            }
            r.append(piece);
        } else {
            proof {
                reveal_strlit("-");
                assert("-"@ =~= seq![slug_char(s@[i as int])]);
            }
            r.append("-");
        }
        proof {
            assert(spec_slugify(s@.take(i + 1)) =~= spec_slugify(s@.take(i as int)) + seq![
                slug_char(s@[i as int]),
            ]);
        }
        i = i + 1;
    }
    proof {
        assert(s@.take(n as int) =~= s@);
    }
    r
}

/// The first line of `s`: everything before the first newline.
pub open spec fn spec_first_line(s: Seq<char>) -> Seq<char> {
    match find_char_first(s, '\n', 0) {
        Some(k) => s.take(k),
        None => s,
    }
}

/// What follows the first line of `s`, trimmed; empty when `s` is a single
/// line.
pub open spec fn spec_rest_lines(s: Seq<char>) -> Seq<char> {
    match find_char_first(s, '\n', 0) {
        Some(k) => trim_spec(s.skip(k + 1)),
        None => Seq::<char>::empty(),
    }
}

/// Where the title starts and ends inside a patch-set root's content: the
/// title runs from just after the first `"] "` to the first newline after
/// it (or to the last character when no newline follows).
pub open spec fn spec_title_indices(c: Seq<char>) -> Option<(int, int)> {
    match find_first(c, "] "@) {
        None => None,
        Some(f) => {
            let ts = f + 2;
            let de = match find_char_first(c, '\n', ts) {
                Some(j) => j,
                None => c.len() - 1,
            };
            if de < ts {
                None
            } else {
                Some((ts, de))
            }
        },
    }
}

/// The cover letter that `event_to_cover_letter` reads out of an event:
/// `None` exactly when the read fails.
pub open spec fn spec_parse_cover_letter(e: Event) -> Option<CoverLetterData> {
    if !spec_event_is_patch_set_root(e) {
        None
    } else {
        match spec_title_indices(e.content@) {
            None => None,
            Some((ts, de)) => {
                let title = match e.spec_tag_value("description"@) {
                    Some(msg) => spec_first_line(msg),
                    None => e.content@.subrange(ts, de),
                };
                let description = match e.spec_tag_value("description"@) {
                    Some(msg) => spec_rest_lines(msg),
                    None => trim_spec(e.content@.skip(de)),
                };
                let branch_name = match e.spec_tag_value("branch-name"@) {
                    Some(b) => b,
                    None => spec_slugify(title),
                };
                Some(CoverLetterData { title, description, branch_name })
            },
        }
    }
}

/// Reads title, description and branch name from a patch-set root event.
/// Fails when the event is not a patch-set root, or when its content does
/// not carry the `"] "` subject marker that patch subjects have.
pub fn event_to_cover_letter(event: &Event) -> (r: Result<CoverLetter, String>)
    requires
        event.wf(),
    ensures
        match r {
            Ok(cl) => spec_parse_cover_letter(*event) == Some(
                CoverLetterData {
                    title: cl.title@,
                    description: cl.description@,
                    branch_name: cl.branch_name@,
                },
            ),
            Err(m) => spec_parse_cover_letter(*event) is None && if !spec_event_is_patch_set_root(
                *event,
            ) {
                m@ == "event is not a patch set root event (root patch or cover letter)"@
            } else {
                m@ == "event is not formatted as a patch or cover letter"@
            },
        },
{
    if !event_is_patch_set_root(event) {
        return Err(String::from_str("event is not a patch set root event (root patch or cover letter)"));
    }
    let content = event.content.as_str();
    let clen: usize = content.unicode_len();
    let f = match find_str(content, "] ") {
        Some(f) => f,
        None => {
            proof {
                lemma_find_first_none(content@, "] "@);
            }
            return Err(String::from_str("event is not formatted as a patch or cover letter"));
        },
    };
    proof {
        lemma_find_first(content@, "] "@, f as int);
        reveal_strlit("] ");
    }
    let ts: usize = f + 2;
    let de: usize = match find_char_from(content, '\n', ts) {
        Some(j) => {
            proof {
                lemma_find_char_first(content@, '\n', ts as int, j as int);
            }
            j
        },
        None => {
            proof {
                lemma_find_char_first_none(content@, '\n', ts as int);
            }
            clen - 1
        },
    };
    if de < ts {
        return Err(String::from_str("event is not formatted as a patch or cover letter"));
    }
    let title: String = match tag_value(event, "description") {
        Ok(msg) => {
            match find_char_from(msg.as_str(), '\n', 0) {
                Some(k) => {
                    proof {
                        lemma_find_char_first(msg@, '\n', 0, k as int);
                        assert(msg@.subrange(0, k as int) =~= msg@.take(k as int));
                    }
                    substr_string(msg.as_str(), 0, k)
                },
                None => {
                    proof {
                        lemma_find_char_first_none(msg@, '\n', 0);
                        assert(msg@.take(msg@.len() as int) =~= msg@);
                    }
                    msg.clone()
                },
            }
        },
        Err(_) => substr_string(content, ts, de),
    };
    let description: String = match tag_value(event, "description") {
        Ok(msg) => {
            match find_char_from(msg.as_str(), '\n', 0) {
                Some(k) => {
                    proof {
                        lemma_find_char_first(msg@, '\n', 0, k as int);
                    }
                    let mlen: usize = msg.as_str().unicode_len();
                    let tail = substr_string(msg.as_str(), k + 1, mlen);
                    proof {
                        assert(msg@.subrange(k + 1, msg@.len() as int) =~= msg@.skip(k + 1));
                    }
                    trim_string(tail.as_str())
                },
                None => {
                    proof {
                        lemma_find_char_first_none(msg@, '\n', 0);
                    }
                    String::new()
                },
            }
        },
        Err(_) => {
            let tail = substr_string(content, de, clen);
            proof {
                assert(content@.subrange(de as int, clen as int) =~= content@.skip(de as int));
            }
            trim_string(tail.as_str())
        },
    };
    let branch_name: String = match tag_value(event, "branch-name") {
        Ok(b) => b,
        Err(_) => slugify(title.as_str()),
    };
    Ok(CoverLetter { title, description, branch_name })
}

/// The content a cover-letter event carries: a `From <commit>` stamp line,
/// a `[PATCH 0/<n>]` subject holding the title, then the description.
pub open spec fn spec_cover_letter_content(
    last_commit: Seq<char>,
    n: nat,
    title: Seq<char>,
    description: Seq<char>,
) -> Seq<char> {
    "From "@ + last_commit + " Mon Sep 17 00:00:00 2001\nSubject: [PATCH 0/"@ + dec_str(n)
        + "] "@ + title + "\n\n"@ + description
}

/// Builds the cover-letter content for a series of `n_commits` commits
/// whose last commit is `last_commit`.
pub fn cover_letter_content(
    last_commit: &str,
    n_commits: u64,
    title: &str,
    description: &str,
) -> (r: String)
    ensures
        r@ == spec_cover_letter_content(
            last_commit@,
            n_commits as nat,
            title@,
            description@,
        ),
{
    let mut r = String::from_str("From ");
    r.append(last_commit);
    r.append(" Mon Sep 17 00:00:00 2001\nSubject: [PATCH 0/");
    let num = u64_to_string(n_commits);
    r.append(num.as_str());
    r.append("] ");
    r.append(title);
    r.append("\n\n");
    r.append(description);
    proof {
        assert(r@ =~= spec_cover_letter_content(
            last_commit@,
            n_commits as nat,
            title@,
            description@,
        ));
    }
    r
}

proof fn lemma_trim_two_nl(d: Seq<char>)
    ensures
        trim_spec(seq!['\n', '\n'] + d) == trim_spec(d),
{
    assert(is_ws_char('\n'));
    assert((seq!['\n', '\n'] + d).len() > 0 && (seq!['\n', '\n'] + d)[0] == '\n');
    assert((seq!['\n', '\n'] + d).drop_first() =~= seq!['\n'] + d);
    assert((seq!['\n'] + d).len() > 0 && (seq!['\n'] + d)[0] == '\n');
    assert((seq!['\n'] + d).drop_first() =~= d);
    assert(trim_start_spec(seq!['\n', '\n'] + d) == trim_start_spec(seq!['\n'] + d));
    assert(trim_start_spec(seq!['\n'] + d) == trim_start_spec(d));
}

#[verifier::rlimit(100)]
proof fn lemma_content_literals()
    ensures
        forall|i: int|
            0 <= i < "From "@.len() ==> #[trigger] "From "@[i] != ']',
        forall|i: int|
            0 <= i < " Mon Sep 17 00:00:00 2001\nSubject: [PATCH 0/"@.len()
                ==> #[trigger] " Mon Sep 17 00:00:00 2001\nSubject: [PATCH 0/"@[i] != ']',
        "] "@ == seq![']', ' '],
        "\n\n"@ == seq!['\n', '\n'],
{
    reveal_strlit("From ");
    reveal_strlit(" Mon Sep 17 00:00:00 2001\nSubject: [PATCH 0/");
    reveal_strlit("] ");
    reveal_strlit("\n\n");
    assert("From "@ =~= seq!['F', 'r', 'o', 'm', ' ']);
    assert(" Mon Sep 17 00:00:00 2001\nSubject: [PATCH 0/"@ =~= seq![
        ' ', 'M', 'o', 'n', ' ', 'S', 'e', 'p', ' ', '1', '7', ' ', '0', '0', ':', '0', '0',
        ':', '0', '0', ' ', '2', '0', '0', '1', '\n', 'S', 'u', 'b', 'j', 'e', 'c', 't', ':',
        ' ', '[', 'P', 'A', 'T', 'C', 'H', ' ', '0', '/',
    ]);
    assert("] "@ =~= seq![']', ' ']);
    assert("\n\n"@ =~= seq!['\n', '\n']);
}

#[verifier::rlimit(100)]
proof fn lemma_pre_no_bracket(pre: Seq<char>, last_commit: Seq<char>, n: nat)
    requires
        pre == "From "@ + last_commit + " Mon Sep 17 00:00:00 2001\nSubject: [PATCH 0/"@
            + dec_str(n),
        !contains_char(last_commit, ']'),
    ensures
        forall|j: int| 0 <= j < pre.len() ==> #[trigger] pre[j] != ']',
{
    lemma_content_literals();
    lemma_dec_str_digits(n);
    let lit1 = "From "@;
    let mid = " Mon Sep 17 00:00:00 2001\nSubject: [PATCH 0/"@;
    let num = dec_str(n);
    assert forall|j: int| 0 <= j < pre.len() implies #[trigger] pre[j] != ']' by {
        let l1 = lit1.len() as int;
        let l2 = l1 + last_commit.len() as int;
        let l3 = l2 + mid.len() as int;
        if j < l1 {
            assert(pre[j] == lit1[j]);
        } else if j < l2 {
            assert(pre[j] == last_commit[j - l1]);
        } else if j < l3 {
            assert(pre[j] == mid[j - l2]);
        } else {
            assert(pre[j] == num[j - l3]);
            assert(is_digit_char(num[j - l3]));
        }
    }
}

proof fn lemma_first_subject_marker(c: Seq<char>, pre: Seq<char>, tail: Seq<char>)
    requires
        c == pre + seq![']', ' '] + tail,
        forall|j: int| 0 <= j < pre.len() ==> #[trigger] pre[j] != ']',
        "] "@ == seq![']', ' '],
    ensures
        find_first(c, "] "@) == Some(pre.len() as int),
{
    let p = pre.len() as int;
    assert(c.subrange(p, p + 2) =~= seq![']', ' ']);
    assert(match_at(c, "] "@, p));
    assert forall|j: int| 0 <= j < p implies !match_at(c, "] "@, j) by {
        assert(c[j] == pre[j]);
        if match_at(c, "] "@, j) {
            assert(c.subrange(j, j + 2)[0] == ']');
        }
    }
    assert(is_first_match(c, "] "@, p));
    lemma_find_first(c, "] "@, p);
}

proof fn lemma_first_newline(c: Seq<char>, head: Seq<char>, title: Seq<char>, rest: Seq<char>)
    requires
        c == head + title + seq!['\n'] + rest,
        !contains_char(title, '\n'),
    ensures
        find_char_first(c, '\n', head.len() as int) == Some(head.len() + title.len() as int),
{
    let ts = head.len() as int;
    let de = ts + title.len() as int;
    assert forall|j: int| ts <= j < de implies c[j] != '\n' by {
        assert(c[j] == title[j - ts]);
    }
    assert(c[de] == '\n');
    assert(is_first_char(c, '\n', ts, de));
    lemma_find_char_first(c, '\n', ts, de);
}

/// Codec round trip: a cover letter built from a title without newlines, a
/// description and a non-empty commit series parses back to the same title
/// and to the description with its surrounding whitespace trimmed. The
/// branch name read back is the `branch-name` tag when the event carries
/// one, else the slugified title.
#[verifier::rlimit(100)]
pub proof fn lemma_cover_letter_round_trip(
    e: Event,
    last_commit: Seq<char>,
    n: nat,
    title: Seq<char>,
    description: Seq<char>,
)
    requires
        spec_event_is_patch_set_root(e),
        e.spec_tag_value("description"@) is None,
        e.content@ == spec_cover_letter_content(last_commit, n, title, description),
        !contains_char(last_commit, ']'),
        !contains_char(title, '\n'),
    ensures
        spec_parse_cover_letter(e) == Some(
            CoverLetterData {
                title: title,
                description: trim_spec(description),
                branch_name: match e.spec_tag_value("branch-name"@) {
                    Some(b) => b,
                    None => spec_slugify(title),
                },
            },
        ),
{
    let lit1 = "From "@;
    let mid = " Mon Sep 17 00:00:00 2001\nSubject: [PATCH 0/"@;
    let num = dec_str(n);
    let pre = lit1 + last_commit + mid + num;
    let c = e.content@;
    lemma_content_literals();
    lemma_pre_no_bracket(pre, last_commit, n);
    let p = pre.len() as int;
    let ts = p + 2;
    let de = ts + title.len() as int;
    assert(c =~= pre + seq![']', ' '] + (title + seq!['\n', '\n'] + description));
    lemma_first_subject_marker(c, pre, title + seq!['\n', '\n'] + description);
    assert(c =~= (pre + seq![']', ' ']) + title + seq!['\n'] + (seq!['\n'] + description));
    lemma_first_newline(c, pre + seq![']', ' '], title, seq!['\n'] + description);
    assert((pre + seq![']', ' ']).len() == ts);
    assert(spec_title_indices(c) == Some((ts, de)));
    assert(c.subrange(ts, de) =~= title);
    assert(c.skip(de) =~= seq!['\n', '\n'] + description);
    lemma_trim_two_nl(description);
}

} // verus!

