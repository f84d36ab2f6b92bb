//! The multi-relay fan-out: the ordered target list for a publish (relays
//! on both lists first), per-relay display details, and the sequential
//! per-relay outcome.
use vstd::prelude::*;

use crate::strutil::str_eq;

verus! {

/// True when some string of `v` has the characters `x`.
pub open spec fn seq_contains_str(v: Seq<String>, x: Seq<char>) -> bool {
    exists|i: int| 0 <= i < v.len() && (#[trigger] v[i])@ == x
}

/// The values of `v1` that also occur in `v2`, in `v1`'s order.
pub open spec fn dup_of(v1: Seq<String>, v2: Seq<String>) -> Seq<Seq<char>>
    decreases v1.len(),
{
    if v1.len() == 0 {
        Seq::<Seq<char>>::empty()
    } else {
        let rest = dup_of(v1.drop_last(), v2);
        if seq_contains_str(v2, v1.last()@) {
            rest.push(v1.last()@)
        } else {
            rest
        }
    }
}

/// The values of `v1` that do not occur in `v2`, in `v1`'s order.
pub open spec fn uniq_of(v1: Seq<String>, v2: Seq<String>) -> Seq<Seq<char>>
    decreases v1.len(),
{
    if v1.len() == 0 {
        Seq::<Seq<char>>::empty()
    } else {
        let rest = uniq_of(v1.drop_last(), v2);
        if seq_contains_str(v2, v1.last()@) {
            rest
        } else {
            rest.push(v1.last()@)
        }
    }
}

/// The ordered fan-out target list: relays on both lists first, then
/// those only on the first, then those only on the second.
pub open spec fn all_of(v1: Seq<String>, v2: Seq<String>) -> Seq<Seq<char>> {
    dup_of(v1, v2) + uniq_of(v1, v2) + uniq_of(v2, v1)
}

fn vec_contains_str(v: &Vec<String>, x: &str) -> (r: bool)
    ensures
        r == seq_contains_str(v@, x@),
{
    let n: usize = v.len();
    let mut i: usize = 0;
    while i < n
        invariant
            0 <= i <= n,
            n == v@.len(),
            forall|j: int| 0 <= j < i ==> (#[trigger] v@[j])@ != x@,
        decreases n - i,
    {
        if str_eq(v[i].as_str(), x) {
            return true;
        }
        i = i + 1;
    }
    false
}

/// Splits two relay lists into the part unique to each, the part they
/// share, and the fan-out order `duplicates ++ unique-to-first ++
/// unique-to-second`.
pub fn unique_and_duplicate_all(vec1: &Vec<String>, vec2: &Vec<String>) -> (r: (
    Vec<String>,
    Vec<String>,
    Vec<String>,
    Vec<String>,
))
    ensures
        r.0.deep_view() == uniq_of(vec1@, vec2@),
        r.1.deep_view() == uniq_of(vec2@, vec1@),
        r.2.deep_view() == dup_of(vec1@, vec2@),
        r.3.deep_view() == all_of(vec1@, vec2@),
{
    let mut vec1_u: Vec<String> = Vec::new();
    let mut vec2_u: Vec<String> = Vec::new();
    let mut dup: Vec<String> = Vec::new();
    let n1: usize = vec1.len();
    let mut i: usize = 0;
    proof {
        assert(vec1@.take(0) =~= Seq::<String>::empty());
        assert(dup.deep_view() =~= Seq::<Seq<char>>::empty());
        assert(vec1_u.deep_view() =~= Seq::<Seq<char>>::empty());
    }
    while i < n1
        invariant
            0 <= i <= n1,
            n1 == vec1@.len(),
            dup.deep_view() == dup_of(vec1@.take(i as int), vec2@),
            vec1_u.deep_view() == uniq_of(vec1@.take(i as int), vec2@),
        decreases n1 - i,
    {
        let ghost d0 = dup.deep_view();
        let ghost u0 = vec1_u.deep_view();
        proof {
            assert(vec1@.take(i + 1).drop_last() =~= vec1@.take(i as int));
            assert(vec1@.take(i + 1).last() == vec1@[i as int]);
        }
        if vec_contains_str(vec2, vec1[i].as_str()) {
            dup.push(vec1[i].clone());
            proof {
                assert(dup.deep_view() =~= d0.push(vec1@[i as int]@));
            }
        } else {
            vec1_u.push(vec1[i].clone());
            proof {
                assert(vec1_u.deep_view() =~= u0.push(vec1@[i as int]@));
            }
        }
        i = i + 1;
    }
    let n2: usize = vec2.len();
    let mut j: usize = 0;
    proof {
        assert(vec1@.take(n1 as int) =~= vec1@);
        assert(vec2@.take(0) =~= Seq::<String>::empty());
        assert(vec2_u.deep_view() =~= Seq::<Seq<char>>::empty());
    }
    while j < n2
        invariant
            0 <= j <= n2,
            n2 == vec2@.len(),
            vec2_u.deep_view() == uniq_of(vec2@.take(j as int), vec1@),
        decreases n2 - j,
    {
        let ghost u0 = vec2_u.deep_view();
        proof {
            assert(vec2@.take(j + 1).drop_last() =~= vec2@.take(j as int));
            assert(vec2@.take(j + 1).last() == vec2@[j as int]);
        }
        if !vec_contains_str(vec1, vec2[j].as_str()) {
            vec2_u.push(vec2[j].clone());
            proof {
                assert(vec2_u.deep_view() =~= u0.push(vec2@[j as int]@));
            }
        }
        j = j + 1;
    }
    proof {
        assert(vec2@.take(n2 as int) =~= vec2@);
    }
    let mut all: Vec<String> = Vec::new();
    append_all(&mut all, &dup);
    append_all(&mut all, &vec1_u);
    append_all(&mut all, &vec2_u);
    proof {
        assert(Seq::<Seq<char>>::empty() + dup.deep_view() =~= dup.deep_view());
        assert(all.deep_view() =~= dup.deep_view() + vec1_u.deep_view() + vec2_u.deep_view());
    }
    (vec1_u, vec2_u, dup, all)
}

fn append_all(dst: &mut Vec<String>, src: &Vec<String>)
    ensures
        final(dst).deep_view() == old(dst).deep_view() + src.deep_view(),
{
    let n: usize = src.len();
    let mut i: usize = 0;
    proof {
        assert(src.deep_view().take(0) =~= Seq::<Seq<char>>::empty());
        assert(dst.deep_view() + Seq::<Seq<char>>::empty() =~= dst.deep_view());
    }
    while i < n
        invariant
            0 <= i <= n,
            n == src@.len(),
            src.deep_view().len() == n,
            dst.deep_view() == old(dst).deep_view() + src.deep_view().take(i as int),
        decreases n - i,
    {
        let ghost d0 = dst.deep_view();
        dst.push(src[i].clone());
        proof {
            assert(dst.deep_view() =~= d0.push(src@[i as int]@));
            assert(src.deep_view()[i as int] == src@[i as int]@);
            assert(src.deep_view().take(i + 1) =~= src.deep_view().take(i as int).push(
                src.deep_view()[i as int],
            ));
            assert(old(dst).deep_view() + src.deep_view().take(i + 1) =~= d0.push(
                src@[i as int]@,
            ));
        }
        i = i + 1;
    }
    proof {
        assert(src.deep_view().take(n as int) =~= src.deep_view());
    }
}

proof fn lemma_push_mem(s: Seq<Seq<char>>, y: Seq<char>, x: Seq<char>)
    ensures
        s.push(y).contains(x) == (s.contains(x) || x == y),
{
    if s.push(y).contains(x) {
        let k = choose|k: int| 0 <= k < s.push(y).len() && s.push(y)[k] == x;
        if k < s.len() {
            assert(s[k] == x);
        }
    }
    if s.contains(x) {
        let k = choose|k: int| 0 <= k < s.len() && s[k] == x;
        assert(s.push(y)[k] == x);
    }
    if x == y {
        assert(s.push(y)[s.len() as int] == x);
    }
}

proof fn lemma_dup_mem(v1: Seq<String>, v2: Seq<String>, x: Seq<char>)
    ensures
        dup_of(v1, v2).contains(x) == (seq_contains_str(v1, x) && seq_contains_str(v2, x)),
    decreases v1.len(),
{
    if v1.len() == 0 {
        assert(!dup_of(v1, v2).contains(x));
        if seq_contains_str(v1, x) {
            let i = choose|i: int| 0 <= i < v1.len() && (#[trigger] v1[i])@ == x;
            assert(false);
        }
    } else {
        lemma_dup_mem(v1.drop_last(), v2, x);
        lemma_contains_drop_last(v1, x);
        let rest = dup_of(v1.drop_last(), v2);
        if seq_contains_str(v2, v1.last()@) {
            lemma_push_mem(rest, v1.last()@, x);
        }
    }
}

proof fn lemma_uniq_mem(v1: Seq<String>, v2: Seq<String>, x: Seq<char>)
    ensures
        uniq_of(v1, v2).contains(x) == (seq_contains_str(v1, x) && !seq_contains_str(v2, x)),
    decreases v1.len(),
{
    if v1.len() == 0 {
        if seq_contains_str(v1, x) {
            let i = choose|i: int| 0 <= i < v1.len() && (#[trigger] v1[i])@ == x;
            assert(false);
        }
    } else {
        lemma_uniq_mem(v1.drop_last(), v2, x);
        lemma_contains_drop_last(v1, x);
        let rest = uniq_of(v1.drop_last(), v2);
        if !seq_contains_str(v2, v1.last()@) {
            lemma_push_mem(rest, v1.last()@, x);
        }
    }
}

proof fn lemma_contains_drop_last(v: Seq<String>, x: Seq<char>)
    requires
        v.len() > 0,
    ensures
        seq_contains_str(v, x) == (seq_contains_str(v.drop_last(), x) || v.last()@ == x),
{
    if seq_contains_str(v, x) {
        let i = choose|i: int| 0 <= i < v.len() && (#[trigger] v[i])@ == x;
        if i < v.len() - 1 {
            assert(v.drop_last()[i]@ == x);
        }
    }
    if seq_contains_str(v.drop_last(), x) {
        let i = choose|i: int| 0 <= i < v.drop_last().len() && (#[trigger] v.drop_last()[i])@ == x;
        assert(v[i]@ == x);
    }
    if v.last()@ == x {
        assert(v[v.len() - 1]@ == x);
    }
}

proof fn lemma_push_no_duplicates(s: Seq<Seq<char>>, y: Seq<char>)
    requires
        s.no_duplicates(),
        !s.contains(y),
    ensures
        s.push(y).no_duplicates(),
{
    assert forall|i: int, j: int|
        0 <= i < s.push(y).len() && 0 <= j < s.push(y).len() && i != j implies s.push(y)[i]
        != s.push(y)[j] by {
        if i < s.len() && j < s.len() {
            assert(s[i] != s[j]);
        } else if i < s.len() {
            if s[i] == y {
                assert(s.contains(y));
            }
        } else if j < s.len() {
            if s[j] == y {
                assert(s.contains(y));
            }
        }
    }
}

proof fn lemma_dup_no_duplicates(v1: Seq<String>, v2: Seq<String>)
    requires
        strings_distinct(v1),
    ensures
        dup_of(v1, v2).no_duplicates(),
        uniq_of(v1, v2).no_duplicates(),
    decreases v1.len(),
{
    if v1.len() > 0 {
        assert forall|i: int, j: int|
            0 <= i < v1.drop_last().len() && 0 <= j < v1.drop_last().len() && i != j implies (
        #[trigger] v1.drop_last()[i])@ != (#[trigger] v1.drop_last()[j])@ by {
            assert(v1[i]@ != v1[j]@);
        }
        lemma_dup_no_duplicates(v1.drop_last(), v2);
        lemma_dup_mem(v1.drop_last(), v2, v1.last()@);
        lemma_uniq_mem(v1.drop_last(), v2, v1.last()@);
        if seq_contains_str(v1.drop_last(), v1.last()@) {
            let i = choose|i: int|
                0 <= i < v1.drop_last().len() && (#[trigger] v1.drop_last()[i])@ == v1.last()@;
            assert(v1[i]@ == v1[v1.len() - 1]@);
            assert(false);
        }
        if seq_contains_str(v2, v1.last()@) {
            lemma_push_no_duplicates(dup_of(v1.drop_last(), v2), v1.last()@);
        } else {
            lemma_push_no_duplicates(uniq_of(v1.drop_last(), v2), v1.last()@);
        }
    }
}

/// No string value occurs twice in `v`.
pub open spec fn strings_distinct(v: Seq<String>) -> bool {
    forall|i: int, j: int|
        0 <= i < v.len() && 0 <= j < v.len() && i != j ==> (#[trigger] v[i])@ != (#[trigger] v[j])@
}

/// Fan-out dedup and idempotence: when neither relay list repeats a
/// value, the fan-out target list holds every relay of either list
/// exactly once — its membership is the union of the two lists and it has
/// no duplicates — so publishing the same lists again addresses exactly
/// the same relays in the same order.
pub proof fn lemma_fanout_targets(v1: Seq<String>, v2: Seq<String>)
    requires
        strings_distinct(v1),
        strings_distinct(v2),
    ensures
        all_of(v1, v2).no_duplicates(),
        forall|x: Seq<char>|
            #[trigger] all_of(v1, v2).contains(x) == (seq_contains_str(v1, x) || seq_contains_str(
                v2,
                x,
            )),
{
    lemma_dup_no_duplicates(v1, v2);
    lemma_dup_no_duplicates(v2, v1);
    let d = dup_of(v1, v2);
    let u1 = uniq_of(v1, v2);
    let u2 = uniq_of(v2, v1);
    assert forall|x: Seq<char>| true implies (#[trigger] d.contains(x) == (seq_contains_str(v1, x)
        && seq_contains_str(v2, x))) && (u1.contains(x) == (seq_contains_str(v1, x)
        && !seq_contains_str(v2, x))) && (u2.contains(x) == (seq_contains_str(v2, x)
        && !seq_contains_str(v1, x))) by {
        lemma_dup_mem(v1, v2, x);
        lemma_uniq_mem(v1, v2, x);
        lemma_uniq_mem(v2, v1, x);
    }
    assert forall|x: Seq<char>| #[trigger] all_of(v1, v2).contains(x) implies (seq_contains_str(
        v1,
        x,
    ) || seq_contains_str(v2, x)) by {
        let k = choose|k: int| 0 <= k < all_of(v1, v2).len() && all_of(v1, v2)[k] == x;
        lemma_all_index_cases(v1, v2, k);
        if k < d.len() {
            assert(d[k] == x);
            assert(d.contains(x));
        } else if k < d.len() + u1.len() {
            assert(u1[k - d.len()] == x);
            assert(u1.contains(x));
        } else {
            assert(u2[k - d.len() - u1.len()] == x);
            assert(u2.contains(x));
        }
    }
    assert forall|x: Seq<char>|
        seq_contains_str(v1, x) || seq_contains_str(v2, x) implies #[trigger] all_of(
        v1,
        v2,
    ).contains(x) by {
        if d.contains(x) {
            let k = choose|k: int| 0 <= k < d.len() && d[k] == x;
            assert(all_of(v1, v2)[k] == x);
        } else if u1.contains(x) {
            let k = choose|k: int| 0 <= k < u1.len() && u1[k] == x;
            assert(all_of(v1, v2)[d.len() + k] == x);
        } else {
            assert(u2.contains(x));
            let k = choose|k: int| 0 <= k < u2.len() && u2[k] == x;
            assert(all_of(v1, v2)[d.len() + u1.len() + k] == x);
        }
    }
    assert forall|i: int, j: int|
        0 <= i < all_of(v1, v2).len() && 0 <= j < all_of(v1, v2).len() && i != j implies all_of(
        v1,
        v2,
    )[i] != all_of(v1, v2)[j] by {
        lemma_all_index_cases(v1, v2, i);
        lemma_all_index_cases(v1, v2, j);
        let a = all_of(v1, v2)[i];
        let b = all_of(v1, v2)[j];
        lemma_dup_mem(v1, v2, a);
        lemma_uniq_mem(v1, v2, a);
        lemma_uniq_mem(v2, v1, a);
        lemma_dup_mem(v1, v2, b);
        lemma_uniq_mem(v1, v2, b);
        lemma_uniq_mem(v2, v1, b);
        let dl = d.len() as int;
        let ul = u1.len() as int;
        if i < dl {
            assert(d[i] == a);
            assert(d.contains(a));
        } else if i < dl + ul {
            assert(u1[i - dl] == a);
            assert(u1.contains(a));
        } else {
            assert(u2[i - dl - ul] == a);
            assert(u2.contains(a));
        }
        if j < dl {
            assert(d[j] == b);
            assert(d.contains(b));
        } else if j < dl + ul {
            assert(u1[j - dl] == b);
            assert(u1.contains(b));
        } else {
            assert(u2[j - dl - ul] == b);
            assert(u2.contains(b));
        }
        if i < dl && j < dl {
            assert(d[i] != d[j]);
        } else if dl <= i < dl + ul && dl <= j < dl + ul {
            assert(u1[i - dl] != u1[j - dl]);
        } else if dl + ul <= i && dl + ul <= j {
            assert(u2[i - dl - ul] != u2[j - dl - ul]);
        }
    }
}

proof fn lemma_all_index_cases(v1: Seq<String>, v2: Seq<String>, i: int)
    requires
        0 <= i < all_of(v1, v2).len(),
    ensures
        i < dup_of(v1, v2).len() ==> all_of(v1, v2)[i] == dup_of(v1, v2)[i],
        dup_of(v1, v2).len() <= i < dup_of(v1, v2).len() + uniq_of(v1, v2).len() ==> all_of(
            v1,
            v2,
        )[i] == uniq_of(v1, v2)[i - dup_of(v1, v2).len()],
        dup_of(v1, v2).len() + uniq_of(v1, v2).len() <= i ==> all_of(v1, v2)[i] == uniq_of(
            v2,
            v1,
        )[i - dup_of(v1, v2).len() - uniq_of(v1, v2).len()],
{
}

/// The display detail line for one relay: whether it is one of the
/// user's write relays, whether it is one of the repository's relays,
/// and the relay's address.
pub fn relay_details(relay: &str, my_write_relays: &Vec<String>, repo_read_relays: &Vec<String>) -> (r:
    String)
    ensures
        r@ == (if seq_contains_str(my_write_relays@, relay@) {
            " [my-relay]"@
        } else {
            Seq::<char>::empty()
        }) + (if seq_contains_str(repo_read_relays@, relay@) {
            " [repo-relay]"@
        } else {
            Seq::<char>::empty()
        }) + " "@ + relay@,
{
    let mut r = String::new();
    if vec_contains_str(my_write_relays, relay) {
        r.append(" [my-relay]");
    }
    if vec_contains_str(repo_read_relays, relay) {
        r.append(" [repo-relay]");
    }
    r.append(" ");
    r.append(relay);
    proof {
        assert(r@ =~= (if seq_contains_str(my_write_relays@, relay@) {
            " [my-relay]"@
        } else {
            Seq::<char>::empty()
        }) + (if seq_contains_str(repo_read_relays@, relay@) {
            " [repo-relay]"@
        } else {
            Seq::<char>::empty()
        }) + " "@ + relay@);
    }
    r
}

/// How far a relay worker got: the number of events acknowledged before
/// the first failure, publishing strictly in order and stopping at the
/// first failure.
pub fn publish_outcome(acks: &Vec<bool>) -> (r: (usize, bool))
    ensures
        r.0 <= acks@.len(),
        r.1 == (r.0 < acks@.len()),
        forall|i: int| 0 <= i < r.0 ==> acks@[i],
        r.0 < acks@.len() ==> !acks@[r.0 as int],
{
    let n: usize = acks.len();
    let mut i: usize = 0;
    while i < n
        invariant
            0 <= i <= n,
            n == acks@.len(),
            forall|j: int| 0 <= j < i ==> acks@[j],
        decreases n - i,
    {
        if !acks[i] {
            return (i, true);
        }
        i = i + 1;
    }
    (n, false)
}

} // verus!
