//! Character and string helpers shared by the event codec, the URL
//! rewriters and the remote-helper line protocol.
use vstd::prelude::*;

verus! {

/// The characters with the Unicode `White_Space` property, the set that
/// `str::trim` removes at both ends of a string.
pub open spec fn is_ws_char(c: char) -> bool {
    c == ' ' || c == '\t' || c == '\n' || c == '\u{b}' || c == '\u{c}' || c == '\r'
        || c == '\u{85}' || c == '\u{a0}' || c == '\u{1680}'
        || c == '\u{2000}' || c == '\u{2001}' || c == '\u{2002}' || c == '\u{2003}'
        || c == '\u{2004}' || c == '\u{2005}' || c == '\u{2006}' || c == '\u{2007}'
        || c == '\u{2008}' || c == '\u{2009}' || c == '\u{200a}'
        || c == '\u{2028}' || c == '\u{2029}' || c == '\u{202f}' || c == '\u{205f}'
        || c == '\u{3000}'
}

pub fn is_ws(c: char) -> (b: bool)
    ensures
        b == is_ws_char(c),
{
    c == ' ' || c == '\t' || c == '\n' || c == '\u{b}' || c == '\u{c}' || c == '\r'
        || c == '\u{85}' || c == '\u{a0}' || c == '\u{1680}'
        || c == '\u{2000}' || c == '\u{2001}' || c == '\u{2002}' || c == '\u{2003}'
        || c == '\u{2004}' || c == '\u{2005}' || c == '\u{2006}' || c == '\u{2007}'
        || c == '\u{2008}' || c == '\u{2009}' || c == '\u{200a}'
        || c == '\u{2028}' || c == '\u{2029}' || c == '\u{202f}' || c == '\u{205f}'
        || c == '\u{3000}'
}

/// `s` with its leading whitespace removed.
pub open spec fn trim_start_spec(s: Seq<char>) -> Seq<char>
    decreases s.len(),
{
    if s.len() > 0 && is_ws_char(s[0]) {
        trim_start_spec(s.drop_first())
    } else {
        s
    }
}

/// `s` with its trailing whitespace removed.
pub open spec fn trim_end_spec(s: Seq<char>) -> Seq<char>
    decreases s.len(),
{
    if s.len() > 0 && is_ws_char(s[s.len() - 1]) {
        trim_end_spec(s.drop_last())
    } else {
        s
    }
}

/// `s` with whitespace removed from both ends, as `str::trim` leaves it.
pub open spec fn trim_spec(s: Seq<char>) -> Seq<char> {
    trim_end_spec(trim_start_spec(s))
}

proof fn lemma_trim_start_skip(s: Seq<char>, k: int)
    requires
        0 <= k <= s.len(),
        forall|i: int| 0 <= i < k ==> is_ws_char(s[i]),
    ensures
        trim_start_spec(s) == trim_start_spec(s.skip(k)),
    decreases k,
{
    if k > 0 {
        assert(s.drop_first() =~= s.skip(1));
        lemma_trim_start_skip(s.skip(1), k - 1);
        assert(s.skip(1).skip(k - 1) =~= s.skip(k));
    } else {
        assert(s.skip(0) =~= s);
    }
}

proof fn lemma_trim_end_take(s: Seq<char>, k: int)
    requires
        0 <= k <= s.len(),
        forall|i: int| k <= i < s.len() ==> is_ws_char(s[i]),
    ensures
        trim_end_spec(s) == trim_end_spec(s.take(k)),
    decreases s.len() - k,
{
    if k < s.len() {
        assert(s.drop_last() =~= s.take(s.len() - 1));
        lemma_trim_end_take(s.take(s.len() - 1), k);
        assert(s.take(s.len() - 1).take(k) =~= s.take(k));
    } else {
        assert(s.take(s.len() as int) =~= s);
    }
}

proof fn lemma_trim_start_keeps(s: Seq<char>, k: int)
    requires
        0 <= k < s.len(),
        forall|i: int| 0 <= i < k ==> is_ws_char(s[i]),
        !is_ws_char(s[k]),
    ensures
        trim_start_spec(s) == s.skip(k),
    decreases k,
{
    lemma_trim_start_skip(s, k);
    assert(s.skip(k)[0] == s[k]);
}

proof fn lemma_trim_end_keeps(s: Seq<char>, k: int)
    requires
        0 <= k < s.len(),
        forall|i: int| k < i < s.len() ==> is_ws_char(s[i]),
        !is_ws_char(s[k]),
    ensures
        trim_end_spec(s) == s.take(k + 1),
{
    lemma_trim_end_take(s, k + 1);
    assert(s.take(k + 1)[k] == s[k]);
}

/// Removes whitespace from both ends, exactly as `str::trim` would.
pub fn trim_string(s: &str) -> (r: String)
    ensures
        r@ == trim_spec(s@),
{
    let n: usize = s.unicode_len();
    let mut a: usize = 0;
    while a < n && is_ws(s.get_char(a))
        invariant
            0 <= a <= n,
            n == s@.len(),
            forall|i: int| 0 <= i < a ==> is_ws_char(s@[i]),
        decreases n - a,
    {
        a = a + 1;
    }
    if a == n {
        proof {
            lemma_trim_start_skip(s@, a as int);
            assert(s@.skip(a as int) =~= Seq::<char>::empty());
        }
        return String::new();
    }
    let mut b: usize = n;
    while b > a + 1 && is_ws(s.get_char(b - 1))
        invariant
            a < b <= n,
            n == s@.len(),
            forall|i: int| b <= i < n ==> is_ws_char(s@[i]),
        decreases b,
    {
        b = b - 1;
    }
    proof {
        lemma_trim_start_keeps(s@, a as int);
        lemma_trim_end_keeps(s@.skip(a as int), (b - 1 - a) as int);
        assert(s@.skip(a as int).take(b - a) =~= s@.subrange(a as int, b as int));
    }
    let sub = s.substring_char(a, b);
    String::from_str(sub)
}

/// The view of an optional string.
pub open spec fn opt_str_view(o: Option<String>) -> Option<Seq<char>> {
    match o {
        Some(s) => Some(s@),
        None => None,
    }
}

/// True when `pre` is a prefix of `s`.
pub open spec fn starts_with_spec(s: Seq<char>, pre: Seq<char>) -> bool {
    s.len() >= pre.len() && s.take(pre.len() as int) == pre
}

pub fn starts_with_str(s: &str, pre: &str) -> (b: bool)
    ensures
        b == starts_with_spec(s@, pre@),
{
    let n: usize = s.unicode_len();
    let m: usize = pre.unicode_len();
    if n < m {
        return false;
    }
    let mut i: usize = 0;
    while i < m
        invariant
            0 <= i <= m <= n,
            n == s@.len(),
            m == pre@.len(),
            forall|j: int| 0 <= j < i ==> s@[j] == pre@[j],
        decreases m - i,
    {
        if s.get_char(i) != pre.get_char(i) {
            assert(s@.take(m as int)[i as int] != pre@[i as int]);
            return false;
        }
        i = i + 1;
    }
    assert(s@.take(m as int) =~= pre@);
    true
}

/// True when the characters of `s` and `t` are the same.
pub fn str_eq(s: &str, t: &str) -> (b: bool)
    ensures
        b == (s@ == t@),
{
    let n: usize = s.unicode_len();
    let m: usize = t.unicode_len();
    if n != m {
        return false;
    }
    let mut i: usize = 0;
    while i < n
        invariant
            0 <= i <= n,
            n == s@.len(),
            n == t@.len(),
            forall|j: int| 0 <= j < i ==> s@[j] == t@[j],
        decreases n - i,
    {
        if s.get_char(i) != t.get_char(i) {
            return false;
        }
        i = i + 1;
    }
    assert(s@ =~= t@);
    true
}

/// The substring `s[from..to]`, as an owned string.
pub fn substr_string(s: &str, from: usize, to: usize) -> (r: String)
    requires
        from <= to <= s@.len(),
    ensures
        r@ == s@.subrange(from as int, to as int),
{
    String::from_str(s.substring_char(from, to))
}

/// True when `pat` occurs in `s` at position `i`.
pub open spec fn match_at(s: Seq<char>, pat: Seq<char>, i: int) -> bool {
    0 <= i && i + pat.len() <= s.len() && s.subrange(i, i + pat.len() as int) == pat
}

/// Finds the first occurrence of `pat` in `s`, as `str::find` does.
pub fn find_str(s: &str, pat: &str) -> (r: Option<usize>)
    ensures
        match r {
            Some(i) => match_at(s@, pat@, i as int) && forall|j: int|
                0 <= j < i ==> !match_at(s@, pat@, j),
            None => forall|j: int| 0 <= j ==> !match_at(s@, pat@, j),
        },
{
    let n: usize = s.unicode_len();
    let m: usize = pat.unicode_len();
    if m > n {
        return None;
    }
    if m == 0 {
        assert(s@.subrange(0, 0) =~= pat@);
        return Some(0);
    }
    let mut i: usize = 0;
    while i <= n - m
        invariant
            0 <= i <= n - m + 1,
            0 < m <= n,
            n == s@.len(),
            m == pat@.len(),
            forall|j: int| 0 <= j < i ==> !match_at(s@, pat@, j),
        decreases n - i,
    {
        let mut k: usize = 0;
        let mut hit: bool = true;
        while k < m
            invariant
                0 <= k <= m,
                i + m <= n,
                n == s@.len(),
                m == pat@.len(),
                hit ==> forall|j: int| 0 <= j < k ==> s@[i + j] == pat@[j],
                !hit ==> !match_at(s@, pat@, i as int),
            decreases m - k,
        {
            if s.get_char(i + k) != pat.get_char(k) {
                proof {
                    assert(s@.subrange(i as int, i + m as int)[k as int] != pat@[k as int]);
                }
                hit = false;
                k = m;
            } else {
                k = k + 1;
            }
        }
        if hit {
            assert(s@.subrange(i as int, i + m as int) =~= pat@);
            return Some(i);
        }
        i = i + 1;
    }
    assert forall|j: int| 0 <= j implies !match_at(s@, pat@, j) by {
        if j + m <= n {
            assert(j <= n - m);
        }
    }
    None
}

/// True when `i` is the first occurrence of `pat` in `s`.
pub open spec fn is_first_match(s: Seq<char>, pat: Seq<char>, i: int) -> bool {
    match_at(s, pat, i) && forall|j: int| 0 <= j < i ==> !match_at(s, pat, j)
}

/// The position of the first occurrence of `pat` in `s`, if any.
pub open spec fn find_first(s: Seq<char>, pat: Seq<char>) -> Option<int> {
    if exists|i: int| is_first_match(s, pat, i) {
        Some(choose|i: int| is_first_match(s, pat, i))
    } else {
        None
    }
}

pub proof fn lemma_find_first(s: Seq<char>, pat: Seq<char>, i: int)
    requires
        is_first_match(s, pat, i),
    ensures
        find_first(s, pat) == Some(i),
{
    let k = choose|k: int| is_first_match(s, pat, k);
    assert(!(k < i) && !(i < k));
}

pub proof fn lemma_find_first_none(s: Seq<char>, pat: Seq<char>)
    requires
        forall|j: int| !match_at(s, pat, j),
    ensures
        find_first(s, pat) is None,
{
}

/// True when `i` is the first position at or after `from` holding `c`.
pub open spec fn is_first_char(s: Seq<char>, c: char, from: int, i: int) -> bool {
    from <= i < s.len() && s[i] == c && forall|j: int| from <= j < i ==> s[j] != c
}

/// The first position at or after `from` holding `c`, if any.
pub open spec fn find_char_first(s: Seq<char>, c: char, from: int) -> Option<int> {
    if exists|i: int| is_first_char(s, c, from, i) {
        Some(choose|i: int| is_first_char(s, c, from, i))
    } else {
        None
    }
}

pub proof fn lemma_find_char_first(s: Seq<char>, c: char, from: int, i: int)
    requires
        is_first_char(s, c, from, i),
    ensures
        find_char_first(s, c, from) == Some(i),
{
    let k = choose|k: int| is_first_char(s, c, from, k);
    assert(!(k < i) && !(i < k));
}

pub proof fn lemma_find_char_first_none(s: Seq<char>, c: char, from: int)
    requires
        forall|j: int| from <= j < s.len() ==> s[j] != c,
    ensures
        find_char_first(s, c, from) is None,
{
}

/// Finds the first index at or after `from` holding the character `c`.
pub fn find_char_from(s: &str, c: char, from: usize) -> (r: Option<usize>)
    requires
        from <= s@.len(),
    ensures
        match r {
            Some(i) => from <= i < s@.len() && s@[i as int] == c && forall|j: int|
                from <= j < i ==> s@[j] != c,
            None => forall|j: int| from <= j < s@.len() ==> s@[j] != c,
        },
{
    let n: usize = s.unicode_len();
    let mut i: usize = from;
    while i < n
        invariant
            from <= i <= n,
            n == s@.len(),
            forall|j: int| from <= j < i ==> s@[j] != c,
        decreases n - i,
    {
        if s.get_char(i) == c {
            return Some(i);
        }
        i = i + 1;
    }
    None
}

/// True when `s` holds the character `c` somewhere.
pub open spec fn contains_char(s: Seq<char>, c: char) -> bool {
    exists|i: int| 0 <= i < s.len() && s[i] == c
}

pub fn str_contains_char(s: &str, c: char) -> (b: bool)
    ensures
        b == contains_char(s@, c),
{
    match find_char_from(s, c, 0) {
        Some(_) => true,
        None => false,
    }
}

/// The decimal digit character for `d`.
pub open spec fn digit_char(d: int) -> char {
    if d == 0 { '0' } else if d == 1 { '1' } else if d == 2 { '2' } else if d == 3 { '3' }
    else if d == 4 { '4' } else if d == 5 { '5' } else if d == 6 { '6' } else if d == 7 { '7' }
    else if d == 8 { '8' } else { '9' }
}

/// The decimal rendering of `n`, most significant digit first.
pub open spec fn dec_str(n: nat) -> Seq<char>
    decreases n,
{
    if n < 10 {
        seq![digit_char(n as int)]
    } else {
        dec_str(n / 10) + seq![digit_char((n % 10) as int)]
    }
}

fn digit_str(d: u64) -> (r: &'static str)
    requires
        d < 10,
    ensures
        r@ == seq![digit_char(d as int)],
{
    proof {
        reveal_strlit("0");
        reveal_strlit("1");
        reveal_strlit("2");
        reveal_strlit("3");
        reveal_strlit("4");
        reveal_strlit("5");
        reveal_strlit("6");
        reveal_strlit("7");
        reveal_strlit("8");
        reveal_strlit("9");
    }
    let r: &'static str = if d == 0 { "0" } else if d == 1 { "1" } else if d == 2 { "2" }
        else if d == 3 { "3" } else if d == 4 { "4" } else if d == 5 { "5" }
        else if d == 6 { "6" } else if d == 7 { "7" } else if d == 8 { "8" } else { "9" };
    assert(r@ =~= seq![digit_char(d as int)]);
    r
}

/// Renders `n` in decimal.
pub fn u64_to_string(n: u64) -> (r: String)
    ensures
        r@ == dec_str(n as nat),
    decreases n,
{
    if n < 10 {
        String::from_str(digit_str(n))
    } else {
        let high = u64_to_string(n / 10);
        high.concat(digit_str(n % 10))
    }
}

/// True of the ten decimal digit characters.
pub open spec fn is_digit_char(c: char) -> bool {
    c == '0' || c == '1' || c == '2' || c == '3' || c == '4' || c == '5' || c == '6'
        || c == '7' || c == '8' || c == '9'
}

/// Every character of a decimal rendering is a digit.
pub proof fn lemma_dec_str_digits(n: nat)
    ensures
        forall|i: int| 0 <= i < dec_str(n).len() ==> is_digit_char(#[trigger] dec_str(n)[i]),
    decreases n,
{
    if n >= 10 {
        lemma_dec_str_digits(n / 10);
        assert forall|i: int| 0 <= i < dec_str(n).len() implies is_digit_char(dec_str(n)[i]) by {
            if i < dec_str(n / 10).len() {
                assert(dec_str(n)[i] == dec_str(n / 10)[i]);
            } else {
                assert(dec_str(n)[i] == digit_char((n % 10) as int));
            }
        }
    }
}

/// Lexicographic order on character sequences.
pub open spec fn lex_lt(a: Seq<char>, b: Seq<char>) -> bool
    decreases a.len(),
{
    if b.len() == 0 {
        false
    } else if a.len() == 0 {
        true
    } else if a[0] != b[0] {
        (a[0] as int) < (b[0] as int)
    } else {
        lex_lt(a.drop_first(), b.drop_first())
    }
}

pub proof fn lemma_lex_lt_irrefl(a: Seq<char>)
    ensures
        !lex_lt(a, a),
    decreases a.len(),
{
    if a.len() > 0 {
        lemma_lex_lt_irrefl(a.drop_first());
    }
}

pub proof fn lemma_lex_lt_trans(a: Seq<char>, b: Seq<char>, c: Seq<char>)
    requires
        lex_lt(a, b),
        lex_lt(b, c),
    ensures
        lex_lt(a, c),
    decreases a.len(),
{
    if a.len() > 0 {
        if a[0] == b[0] && b[0] == c[0] {
            lemma_lex_lt_trans(a.drop_first(), b.drop_first(), c.drop_first());
        }
    }
}

/// Compares two strings in lexicographic character order.
pub fn str_lex_lt(s: &str, t: &str) -> (b: bool)
    ensures
        b == lex_lt(s@, t@),
{
    let n: usize = s.unicode_len();
    let m: usize = t.unicode_len();
    let mut i: usize = 0;
    proof {
        assert(s@.skip(0) =~= s@);
        assert(t@.skip(0) =~= t@);
    }
    loop
        invariant
            0 <= i <= n,
            i <= m,
            n == s@.len(),
            m == t@.len(),
            forall|j: int| 0 <= j < i ==> s@[j] == t@[j],
            lex_lt(s@, t@) == lex_lt(s@.skip(i as int), t@.skip(i as int)),
        decreases n - i,
    {
        if i == n || i == m {
            return i == n && i < m;
        }
        let cs = s.get_char(i);
        let ct = t.get_char(i);
        if cs != ct {
            assert(s@.skip(i as int)[0] == cs && t@.skip(i as int)[0] == ct);
            return (cs as u32) < (ct as u32);
        }
        proof {
            assert(s@.skip(i as int).drop_first() =~= s@.skip(i + 1));
            assert(t@.skip(i as int).drop_first() =~= t@.skip(i + 1));
            assert(s@.skip(i as int)[0] == s@[i as int]);
            assert(t@.skip(i as int)[0] == t@[i as int]);
        }
        i = i + 1;
    }
}

} // verus!
