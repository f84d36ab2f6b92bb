//! The line-oriented conversation with the host git process: tokenizing
//! protocol lines, collecting a `fetch` batch, and listing helpers.
use vstd::prelude::*;

use crate::strutil::{
    find_char_from, find_char_first, is_first_char, lemma_find_char_first,
    lemma_find_char_first_none, str_eq, substr_string, trim_spec, trim_string,
};

verus! {

/// Joined with `", "` between successive items.
pub open spec fn comma_join(items: Seq<Seq<char>>) -> Seq<char>
    decreases items.len(),
{
    if items.len() == 0 {
        Seq::<char>::empty()
    } else if items.len() == 1 {
        items[0]
    } else {
        comma_join(items.drop_last()) + ", "@ + items.last()
    }
}

/// The natural-language list: items joined with commas, with `" and "`
/// before the final item, the empty sequence for no items.
pub open spec fn join_with_and_spec(items: Seq<Seq<char>>) -> Seq<char> {
    if items.len() == 0 {
        Seq::<char>::empty()
    } else if items.len() == 1 {
        items[0]
    } else {
        comma_join(items.drop_last()) + " and "@ + items.last()
    }
}

/// Joins items with commas, placing "and" before the final item:
/// `[a, b, c]` becomes `"a, b and c"`.
pub fn join_with_and(items: &Vec<String>) -> (r: String)
    ensures
        r@ == join_with_and_spec(items.deep_view()),
{
    let n: usize = items.len();
    proof {
        assert(items.deep_view().len() == n);
    }
    if n == 0 {
        return String::new();
    }
    if n == 1 {
        proof {
            assert(items.deep_view()[0] == items@[0]@);
        }
        return items[0].clone();
    }
    let mut rest = String::new();
    let mut i: usize = 0;
    while i < n - 1
        invariant
            0 <= i <= n - 1,
            2 <= n == items@.len(),
            items.deep_view().len() == n,
            forall|k: int| 0 <= k < n ==> #[trigger] items.deep_view()[k] == items@[k]@,
            rest@ == comma_join(items.deep_view().take(i as int)),
        decreases n - i,
    {
        if i > 0 {
            rest.append(", ");
        }
        rest.append(items[i].as_str());
        proof {
            let d = items.deep_view();
            assert(d.take(i + 1).drop_last() =~= d.take(i as int));
            assert(d.take(i + 1).last() == d[i as int]);
            if i == 0 {
                assert(comma_join(d.take(1)) == d[0]);
            }
        }
        i = i + 1;
    }
    rest.append(" and ");
    rest.append(items[n - 1].as_str());
    proof {
        let d = items.deep_view();
        assert(d.take(n - 1) =~= d.drop_last());
        assert(d.last() == d[n - 1]);
    }
    rest
}

/// The whitespace-free tokens of a line: the line is trimmed, split on
/// single spaces, and empty tokens are dropped.
pub open spec fn split_tokens(s: Seq<char>) -> Seq<Seq<char>>
    decreases s.len(),
{
    if s.len() == 0 {
        Seq::<Seq<char>>::empty()
    } else {
        match find_char_first(s, ' ', 0) {
            None => seq![s],
            Some(k) => (if k == 0 {
                Seq::<Seq<char>>::empty()
            } else {
                seq![s.take(k)]
            }) + split_tokens(s.skip(k + 1)),
        }
    }
}

/// The tokens of one protocol line.
pub open spec fn spec_line_tokens(line: Seq<char>) -> Seq<Seq<char>> {
    split_tokens(trim_spec(line))
}

/// Splits one protocol line into tokens: trims it, splits on single
/// spaces and drops empty tokens.
pub fn line_tokens(line: &str) -> (r: Vec<String>)
    ensures
        r.deep_view() == spec_line_tokens(line@),
{
    let t = trim_string(line);
    let ts = t.as_str();
    let n: usize = ts.unicode_len();
    let mut toks: Vec<String> = Vec::new();
    let mut p: usize = 0;
    proof {
        assert(ts@.skip(0) =~= ts@);
        assert(toks.deep_view() =~= Seq::<Seq<char>>::empty());
    }
    while p < n
        invariant
            0 <= p <= n,
            n == ts@.len(),
            ts@ == trim_spec(line@),
            spec_line_tokens(line@) == toks.deep_view() + split_tokens(ts@.skip(p as int)),
        decreases n - p,
    {
        let ghost toks0 = toks.deep_view();
        match find_char_from(ts, ' ', p) {
            Some(k) => {
                proof {
                    assert(ts@.skip(p as int)[k - p] == ts@[k as int]);
                    assert forall|j: int| 0 <= j < k - p implies ts@.skip(p as int)[j]
                        != ' ' by {
                        assert(ts@.skip(p as int)[j] == ts@[j + p]);
                    }
                    assert(is_first_char(ts@.skip(p as int), ' ', 0, k - p));
                    lemma_find_char_first(ts@.skip(p as int), ' ', 0, k - p);
                    assert(ts@.skip(p as int).take(k - p) =~= ts@.subrange(p as int, k as int));
                    assert(ts@.skip(p as int).skip(k - p + 1) =~= ts@.skip(k + 1));
                }
                if k > p {
                    toks.push(substr_string(ts, p, k));
                    proof {
                        assert(toks.deep_view() =~= toks0.push(ts@.subrange(p as int, k as int)));
                        assert(toks0 + (seq![ts@.subrange(p as int, k as int)] + split_tokens(
                            ts@.skip(k + 1),
                        )) =~= toks.deep_view() + split_tokens(ts@.skip(k + 1)));
                    }
                } else {
                    proof {
                        assert(toks0 + (Seq::<Seq<char>>::empty() + split_tokens(ts@.skip(k + 1)))
                            =~= toks.deep_view() + split_tokens(ts@.skip(k + 1)));
                    }
                }
                p = k + 1;
            },
            None => {
                proof {
                    assert forall|j: int| 0 <= j < ts@.skip(p as int).len() implies ts@.skip(
                        p as int,
                    )[j] != ' ' by {
                        assert(ts@.skip(p as int)[j] == ts@[j + p]);
                    }
                    lemma_find_char_first_none(ts@.skip(p as int), ' ', 0);
                    assert(ts@.skip(p as int).len() > 0);
                    assert(ts@.subrange(p as int, n as int) =~= ts@.skip(p as int));
                }
                toks.push(substr_string(ts, p, n));
                proof {
                    assert(toks.deep_view() =~= toks0.push(ts@.skip(p as int)));
                    assert(ts@.skip(n as int) =~= Seq::<char>::empty());
                    assert(toks0 + seq![ts@.skip(p as int)] =~= toks.deep_view()
                        + split_tokens(ts@.skip(n as int)));
                }
                p = n;
            },
        }
    }
    proof {
        assert(ts@.skip(n as int) =~= Seq::<char>::empty());
        assert(toks.deep_view() + Seq::<Seq<char>>::empty() =~= toks.deep_view());
    }
    toks
}

/// The map that an association list denotes; a later entry for the same
/// ref name replaces an earlier one.
pub open spec fn assoc_map(b: Seq<(String, String)>) -> Map<Seq<char>, Seq<char>>
    decreases b.len(),
{
    if b.len() == 0 {
        Map::<Seq<char>, Seq<char>>::empty()
    } else {
        assoc_map(b.drop_last()).insert(b.last().0@, b.last().1@)
    }
}

/// What a `fetch` batch denotes after reading `lines`: each line must be
/// `fetch <oid> <refstr>` and maps `refstr` to `oid`; an empty line ends
/// the batch; anything else is a protocol error (`None`).
pub open spec fn batch_spec(
    lines: Seq<Seq<char>>,
    acc: Map<Seq<char>, Seq<char>>,
) -> Option<Map<Seq<char>, Seq<char>>>
    decreases lines.len(),
{
    if lines.len() == 0 {
        Some(acc)
    } else {
        let toks = spec_line_tokens(lines[0]);
        if toks.len() == 0 {
            Some(acc)
        } else if toks.len() == 3 && toks[0] == "fetch"@ {
            batch_spec(lines.drop_first(), acc.insert(toks[2], toks[1]))
        } else {
            None
        }
    }
}

/// Collects a batch of `fetch <oid> <refstr>` commands. The first command
/// is given; each further line must be another `fetch` or an empty line,
/// which ends the batch. Any other line is a protocol error.
pub fn get_oids_from_fetch_batch(
    lines: &Vec<String>,
    initial_oid: &str,
    initial_refstr: &str,
) -> (r: Result<Vec<(String, String)>, String>)
    ensures
        match r {
            Ok(b) => Some(assoc_map(b@)) == batch_spec(
                lines.deep_view(),
                Map::<Seq<char>, Seq<char>>::empty().insert(initial_refstr@, initial_oid@),
            ),
            Err(m) => batch_spec(
                lines.deep_view(),
                Map::<Seq<char>, Seq<char>>::empty().insert(initial_refstr@, initial_oid@),
            ) is None && m@
                == "after a `fetch` command we are only expecting another fetch or an empty line"@,
        },
{
    let mut batch: Vec<(String, String)> = Vec::new();
    batch.push((String::from_str(initial_refstr), String::from_str(initial_oid)));
    proof {
        assert(assoc_map(Seq::<(String, String)>::empty()) =~~= Map::<Seq<char>, Seq<char>>::empty());
        assert(batch@.drop_last() =~= Seq::<(String, String)>::empty());
        assert(batch@.last().0@ == initial_refstr@ && batch@.last().1@ == initial_oid@);
        assert(assoc_map(batch@) =~~= Map::<Seq<char>, Seq<char>>::empty().insert(
            initial_refstr@,
            initial_oid@,
        ));
        assert(lines.deep_view().skip(0) =~= lines.deep_view());
    }
    let n: usize = lines.len();
    let mut i: usize = 0;
    while i < n
        invariant
            0 <= i <= n,
            n == lines@.len(),
            lines.deep_view().len() == n,
            forall|k: int| 0 <= k < n ==> #[trigger] lines.deep_view()[k] == lines@[k]@,
            batch_spec(
                lines.deep_view(),
                Map::<Seq<char>, Seq<char>>::empty().insert(initial_refstr@, initial_oid@),
            ) == batch_spec(lines.deep_view().skip(i as int), assoc_map(batch@)),
        decreases n - i,
    {
        let toks = line_tokens(lines[i].as_str());
        proof {
            let d = lines.deep_view();
            assert(d.skip(i as int)[0] == d[i as int]);
            assert(d.skip(i as int).drop_first() =~= d.skip(i + 1));
        }
        if toks.len() == 0 {
            proof {
                assert(spec_line_tokens(lines@[i as int]@).len() == 0);
            }
            return Ok(batch);
        }
        if toks.len() == 3 && str_eq(toks[0].as_str(), "fetch") {
            let ghost b0 = batch@;
            proof {
                assert(toks.deep_view()[0] == toks@[0]@);
                assert(toks.deep_view()[1] == toks@[1]@);
                assert(toks.deep_view()[2] == toks@[2]@);
            }
            batch.push((toks[2].clone(), toks[1].clone()));
            proof {
                assert(batch@.drop_last() =~= b0);
                assert(assoc_map(batch@) =~~= assoc_map(b0).insert(toks@[2]@, toks@[1]@));
            }
        } else {
            proof {
                let toks_s = spec_line_tokens(lines@[i as int]@);
                assert(toks.deep_view() == toks_s);
                assert(toks_s.len() != 0);
                if toks_s.len() == 3 && toks_s[0] == "fetch"@ {
                    assert(toks@[0]@ == "fetch"@);
                }
            }
            return Err(
                String::from_str(
                    "after a `fetch` command we are only expecting another fetch or an empty line",
                ),
            );
        }
        i = i + 1;
    }
    proof {
        assert(lines.deep_view().skip(n as int) =~= Seq::<Seq<char>>::empty());
    }
    Ok(batch)
}

/// Looks a ref name up in a collected batch; the last entry wins, as in
/// the map the batch denotes.
pub fn batch_get(batch: &Vec<(String, String)>, refstr: &str) -> (r: Option<String>)
    ensures
        match r {
            Some(oid) => assoc_map(batch@).contains_key(refstr@) && assoc_map(batch@)[refstr@]
                == oid@,
            None => !assoc_map(batch@).contains_key(refstr@),
        },
{
    let n: usize = batch.len();
    let mut i: usize = n;
    proof {
        assert(batch@.take(n as int) =~= batch@);
    }
    while i > 0
        invariant
            0 <= i <= n,
            n == batch@.len(),
            assoc_map(batch@).contains_key(refstr@) ==> assoc_map(batch@.take(i as int)).contains_key(
                refstr@,
            ) && assoc_map(batch@.take(i as int))[refstr@] == assoc_map(batch@)[refstr@],
            !assoc_map(batch@).contains_key(refstr@) ==> !assoc_map(
                batch@.take(i as int),
            ).contains_key(refstr@),
        decreases i,
    {
        proof {
            assert(batch@.take(i as int).drop_last() =~= batch@.take(i - 1));
            assert(batch@.take(i as int).last() == batch@[i - 1]);
        }
        if str_eq(batch[i - 1].0.as_str(), refstr) {
            return Some(batch[i - 1].1.clone());
        }
        i = i - 1;
    }
    proof {
        assert(batch@.take(0) =~= Seq::<(String, String)>::empty());
    }
    None
}

} // verus!
