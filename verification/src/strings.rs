//! Character-level helpers over `str`/`String`, each specified over the
//! `Seq<char>` view.
use vstd::prelude::*;

verus! {

// ---------------------------------------------------------------------------
// Whitespace and trimming
// ---------------------------------------------------------------------------

/// Unicode `White_Space` property, the set `char::is_whitespace` tests.
pub open spec fn is_ws(c: char) -> bool {
    let u = c as u32;
    (0x09 <= u && u <= 0x0d) || u == 0x20 || u == 0x85 || u == 0xa0 || u == 0x1680 || (0x2000
        <= u && u <= 0x200a) || u == 0x2028 || u == 0x2029 || u == 0x202f || u == 0x205f || u
        == 0x3000
}

/// Same test as `char::is_whitespace`.
pub fn is_whitespace(c: char) -> (r: bool)
    ensures
        r == is_ws(c),
{
    let u = c as u32;
    (0x09 <= u && u <= 0x0d) || u == 0x20 || u == 0x85 || u == 0xa0 || u == 0x1680 || (0x2000
        <= u && u <= 0x200a) || u == 0x2028 || u == 0x2029 || u == 0x202f || u == 0x205f || u
        == 0x3000
}

/// Number of leading whitespace characters.
pub open spec fn ws_prefix_len(s: Seq<char>) -> nat
    decreases s.len(),
{
    if s.len() > 0 && is_ws(s[0]) {
        1 + ws_prefix_len(s.drop_first())
    } else {
        0
    }
}

/// Number of trailing whitespace characters.
pub open spec fn ws_suffix_len(s: Seq<char>) -> nat
    decreases s.len(),
{
    if s.len() > 0 && is_ws(s.last()) {
        1 + ws_suffix_len(s.drop_last())
    } else {
        0
    }
}

/// `str::trim_start`.
pub open spec fn trim_start_seq(s: Seq<char>) -> Seq<char> {
    s.skip(ws_prefix_len(s) as int)
}

/// `str::trim_end`.
pub open spec fn trim_end_seq(s: Seq<char>) -> Seq<char> {
    s.take(s.len() - ws_suffix_len(s))
}

/// `str::trim`.
pub open spec fn trim_seq(s: Seq<char>) -> Seq<char> {
    trim_end_seq(trim_start_seq(s))
}

pub proof fn lemma_ws_prefix_bound(s: Seq<char>)
    ensures
        ws_prefix_len(s) <= s.len(),
        forall|k: int| 0 <= k < ws_prefix_len(s) ==> is_ws(#[trigger] s[k]),
        ws_prefix_len(s) < s.len() ==> !is_ws(s[ws_prefix_len(s) as int]),
    decreases s.len(),
{
    if s.len() > 0 && is_ws(s[0]) {
        lemma_ws_prefix_bound(s.drop_first());
        assert forall|k: int| 0 <= k < ws_prefix_len(s) implies is_ws(#[trigger] s[k]) by {
            if k > 0 {
                assert(s[k] == s.drop_first()[k - 1]);
            }
        }
    }
}

pub proof fn lemma_ws_suffix_bound(s: Seq<char>)
    ensures
        ws_suffix_len(s) <= s.len(),
        forall|k: int| s.len() - ws_suffix_len(s) <= k < s.len() ==> is_ws(#[trigger] s[k]),
        ws_suffix_len(s) < s.len() ==> !is_ws(s[s.len() - ws_suffix_len(s) - 1]),
    decreases s.len(),
{
    if s.len() > 0 && is_ws(s.last()) {
        lemma_ws_suffix_bound(s.drop_last());
        assert forall|k: int| s.len() - ws_suffix_len(s) <= k < s.len() implies is_ws(
            #[trigger] s[k],
        ) by {
            if k < s.len() - 1 {
                assert(s[k] == s.drop_last()[k]);
            }
        }
    }
}

pub proof fn lemma_ws_prefix_exact(s: Seq<char>, i: int)
    requires
        0 <= i <= s.len(),
        forall|k: int| 0 <= k < i ==> is_ws(#[trigger] s[k]),
        i == s.len() || !is_ws(s[i]),
    ensures
        ws_prefix_len(s) == i,
    decreases i,
{
    if i > 0 {
        assert(is_ws(s[0]));
        let t = s.drop_first();
        assert forall|k: int| 0 <= k < i - 1 implies is_ws(#[trigger] t[k]) by {
            assert(t[k] == s[k + 1]);
        }
        if i < s.len() {
            assert(t[i - 1] == s[i]);
        }
        lemma_ws_prefix_exact(t, i - 1);
    }
}

pub proof fn lemma_ws_suffix_exact(s: Seq<char>, j: int)
    requires
        0 <= j <= s.len(),
        forall|k: int| j <= k < s.len() ==> is_ws(#[trigger] s[k]),
        j == 0 || !is_ws(s[j - 1]),
    ensures
        ws_suffix_len(s) == s.len() - j,
    decreases s.len() - j,
{
    if j < s.len() {
        assert(is_ws(s[s.len() - 1]));
        let t = s.drop_last();
        assert forall|k: int| j <= k < t.len() implies is_ws(#[trigger] t[k]) by {
            assert(t[k] == s[k]);
        }
        if j > 0 {
            assert(t[j - 1] == s[j - 1]);
        }
        lemma_ws_suffix_exact(t, j);
    }
}

/// The trimmed text is empty or starts and ends with a non-whitespace
/// character, and trimming it again changes nothing.
pub proof fn lemma_trim_props(s: Seq<char>)
    ensures
        trim_seq(s).len() == 0 || (!is_ws(trim_seq(s)[0]) && !is_ws(trim_seq(s).last())),
        trim_seq(trim_seq(s)) == trim_seq(s),
        trim_seq(s).len() <= s.len(),
{
    lemma_ws_prefix_bound(s);
    let a = trim_start_seq(s);
    lemma_ws_suffix_bound(a);
    let t = trim_seq(s);
    if t.len() > 0 {
        assert(t[0] == s[ws_prefix_len(s) as int]);
        assert(t.last() == a[a.len() - ws_suffix_len(a) - 1]);
        lemma_ws_prefix_exact(t, 0);
        lemma_ws_suffix_exact(t, t.len() as int);
        assert(trim_start_seq(t) =~= t);
        assert(trim_end_seq(t) =~= t);
    } else {
        assert(ws_prefix_len(t) == 0);
        assert(ws_suffix_len(t) == 0);
        assert(trim_seq(t) =~= t);
    }
}

/// `str::trim`.
pub fn trim(s: &str) -> (r: &str)
    ensures
        r@ == trim_seq(s@),
{
    let n = s.unicode_len();
    let mut i: usize = 0;
    loop
        invariant
            i <= n,
            n == s@.len(),
            forall|k: int| 0 <= k < i ==> is_ws(#[trigger] s@[k]),
        ensures
            i <= n,
            forall|k: int| 0 <= k < i ==> is_ws(#[trigger] s@[k]),
            i == n || !is_ws(s@[i as int]),
        decreases n - i,
    {
        if i == n || !is_whitespace(s.get_char(i)) {
            break ;
        }
        i = i + 1;
    }
    proof {
        lemma_ws_prefix_exact(s@, i as int);
    }
    let ghost a = s@.skip(i as int);
    let mut j: usize = n;
    loop
        invariant
            i <= j <= n,
            n == s@.len(),
            a == s@.skip(i as int),
            forall|k: int| j <= k < n ==> is_ws(#[trigger] s@[k]),
        ensures
            i <= j <= n,
            forall|k: int| j <= k < n ==> is_ws(#[trigger] s@[k]),
            j == i || !is_ws(s@[j - 1]),
        decreases j - i,
    {
        if j == i || !is_whitespace(s.get_char(j - 1)) {
            break ;
        }
        j = j - 1;
    }
    proof {
        assert forall|k: int| j - i <= k < a.len() implies is_ws(#[trigger] a[k]) by {
            assert(a[k] == s@[k + i]);
        }
        if j > i {
            assert(a[j - i - 1] == s@[j - 1]);
        }
        lemma_ws_suffix_exact(a, j - i);
        assert(trim_seq(s@) =~= s@.subrange(i as int, j as int));
    }
    s.substring_char(i, j)
}

/// `str::trim_end`.
pub fn trim_end(s: &str) -> (r: &str)
    ensures
        r@ == trim_end_seq(s@),
{
    let n = s.unicode_len();
    let mut j: usize = n;
    loop
        invariant
            j <= n,
            n == s@.len(),
            forall|k: int| j <= k < n ==> is_ws(#[trigger] s@[k]),
        ensures
            j <= n,
            forall|k: int| j <= k < n ==> is_ws(#[trigger] s@[k]),
            j == 0 || !is_ws(s@[j - 1]),
        decreases j,
    {
        if j == 0 || !is_whitespace(s.get_char(j - 1)) {
            break ;
        }
        j = j - 1;
    }
    proof {
        lemma_ws_suffix_exact(s@, j as int);
        assert(s@.subrange(0, j as int) =~= trim_end_seq(s@));
    }
    s.substring_char(0, j)
}

// ---------------------------------------------------------------------------
// Prefix / suffix / containment
// ---------------------------------------------------------------------------

pub open spec fn seq_starts_with(s: Seq<char>, p: Seq<char>) -> bool {
    p.len() <= s.len() && s.take(p.len() as int) == p
}

pub open spec fn seq_ends_with(s: Seq<char>, p: Seq<char>) -> bool {
    p.len() <= s.len() && s.skip(s.len() - p.len()) == p
}

/// `p` occurs in `s` as a contiguous run.
pub open spec fn seq_contains(s: Seq<char>, p: Seq<char>) -> bool {
    exists|i: int| 0 <= i && i + p.len() <= s.len() && #[trigger] s.subrange(i, i + p.len()) == p
}

/// True when `s[at..at + p.len()]` is `p`.
fn matches_at(s: &str, n: usize, p: &str, m: usize, at: usize) -> (r: bool)
    requires
        n == s@.len(),
        m == p@.len(),
        at + m <= n,
    ensures
        r == (s@.subrange(at as int, at + m) == p@),
{
    let mut k: usize = 0;
    while k < m
        invariant
            k <= m,
            n == s@.len(),
            m == p@.len(),
            at + m <= n,
            forall|t: int| 0 <= t < k ==> s@[at + t] == p@[t],
        decreases m - k,
    {
        if s.get_char(at + k) != p.get_char(k) {
            assert(s@.subrange(at as int, at + m)[k as int] != p@[k as int]);
            return false;
        }
        k = k + 1;
    }
    assert(s@.subrange(at as int, at + m) =~= p@);
    true
}

/// `str::starts_with` for a string pattern.
pub fn starts_with(s: &str, p: &str) -> (r: bool)
    ensures
        r == seq_starts_with(s@, p@),
{
    let n = s.unicode_len();
    let m = p.unicode_len();
    if m > n {
        return false;
    }
    let r = matches_at(s, n, p, m, 0);
    assert(s@.subrange(0, m as int) =~= s@.take(m as int));
    r
}

/// `str::ends_with` for a string pattern.
pub fn ends_with(s: &str, p: &str) -> (r: bool)
    ensures
        r == seq_ends_with(s@, p@),
{
    let n = s.unicode_len();
    let m = p.unicode_len();
    if m > n {
        return false;
    }
    let r = matches_at(s, n, p, m, n - m);
    assert(s@.subrange((n - m) as int, n as int) =~= s@.skip(n - m));
    r
}

/// `str::contains` for a string pattern.
pub fn contains(s: &str, p: &str) -> (r: bool)
    ensures
        r == seq_contains(s@, p@),
{
    let n = s.unicode_len();
    let m = p.unicode_len();
    if m == 0 {
        assert(s@.subrange(0int, 0int + p@.len()) =~= p@);
        return true;
    }
    if m > n {
        return false;
    }
    let mut i: usize = 0;
    while i <= n - m
        invariant
            n == s@.len(),
            m == p@.len(),
            1 <= m <= n,
            i <= n - m + 1,
            forall|j: int| 0 <= j < i ==> #[trigger] s@.subrange(j, j + m) != p@,
        decreases n - m + 1 - i,
    {
        if matches_at(s, n, p, m, i) {
            return true;
        }
        i = i + 1;
    }
    assert(!seq_contains(s@, p@)) by {
        if seq_contains(s@, p@) {
            let j = choose|j: int| 0 <= j && j + p@.len() <= s@.len() && #[trigger] s@.subrange(j, j + p@.len()) == p@;
            assert(s@.subrange(j, j + m) != p@);
        }
    }
    false
}

/// Content equality of two string slices.
pub fn str_eq(a: &str, b: &str) -> (r: bool)
    ensures
        r == (a@ == b@),
{
    let n = a.unicode_len();
    let m = b.unicode_len();
    if n != m {
        return false;
    }
    let r = matches_at(a, n, b, m, 0);
    assert(a@.subrange(0, n as int) =~= a@);
    r
}

// ---------------------------------------------------------------------------
// Building strings
// ---------------------------------------------------------------------------

/// Appends one character: `String::push`.
#[verifier::external_body]
pub(crate) fn push_char(s: &mut String, c: char)
    ensures
        final(s)@ == old(s)@.push(c),
{
    s.push(c)
}

/// A `String` holding exactly the given characters.
pub fn string_from_chars(cs: &Vec<char>) -> (r: String)
    ensures
        r@ == cs@,
{
    let mut r = String::new();
    let mut i: usize = 0;
    while i < cs.len()
        invariant
            i <= cs.len(),
            r@ == cs@.take(i as int),
        decreases cs.len() - i,
    {
        push_char(&mut r, cs[i]);
        assert(cs@.take(i + 1) =~= cs@.take(i as int).push(cs@[i as int]));
        i = i + 1;
    }
    assert(cs@.take(cs.len() as int) =~= cs@);
    r
}

/// The characters of `s`, in order.
pub fn chars_of(s: &str) -> (r: Vec<char>)
    ensures
        r@ == s@,
{
    let n = s.unicode_len();
    let mut r: Vec<char> = Vec::new();
    let mut i: usize = 0;
    while i < n
        invariant
            i <= n,
            n == s@.len(),
            r@ == s@.take(i as int),
        decreases n - i,
    {
        r.push(s.get_char(i));
        assert(s@.take(i + 1) =~= s@.take(i as int).push(s@[i as int]));
        i = i + 1;
    }
    assert(s@.take(n as int) =~= s@);
    r
}

// ---------------------------------------------------------------------------
// Decimal rendering
// ---------------------------------------------------------------------------

pub open spec fn digit_char(d: nat) -> char {
    if d == 0 {
        '0'
    } else if d == 1 {
        '1'
    } else if d == 2 {
        '2'
    } else if d == 3 {
        '3'
    } else if d == 4 {
        '4'
    } else if d == 5 {
        '5'
    } else if d == 6 {
        '6'
    } else if d == 7 {
        '7'
    } else if d == 8 {
        '8'
    } else {
        '9'
    }
}

/// Decimal digits of `n`, as `{}` prints an unsigned integer.
pub open spec fn decimal(n: nat) -> Seq<char>
    decreases n,
{
    if n < 10 {
        seq![digit_char(n)]
    } else {
        decimal(n / 10).push(digit_char(n % 10))
    }
}

fn digit(d: usize) -> (c: char)
    requires
        d < 10,
    ensures
        c == digit_char(d as nat),
{
    if d == 0 {
        '0'
    } else if d == 1 {
        '1'
    } else if d == 2 {
        '2'
    } else if d == 3 {
        '3'
    } else if d == 4 {
        '4'
    } else if d == 5 {
        '5'
    } else if d == 6 {
        '6'
    } else if d == 7 {
        '7'
    } else if d == 8 {
        '8'
    } else {
        '9'
    }
}

/// `n.to_string()` for a `usize`.
pub fn usize_to_string(n: usize) -> (r: String)
    ensures
        r@ == decimal(n as nat),
    decreases n,
{
    if n < 10 {
        let mut r = String::new();
        push_char(&mut r, digit(n));
        assert(r@ =~= seq![digit_char(n as nat)]);
        r
    } else {
        let mut r = usize_to_string(n / 10);
        push_char(&mut r, digit(n % 10));
        r
    }
}

/// `n.to_string()` for a `u128`.
pub fn u128_to_string(n: u128) -> (r: String)
    ensures
        r@ == decimal(n as nat),
    decreases n,
{
    if n < 10 {
        let mut r = String::new();
        push_char(&mut r, digit(n as usize));
        assert(r@ =~= seq![digit_char(n as nat)]);
        r
    } else {
        let mut r = u128_to_string(n / 10);
        push_char(&mut r, digit((n % 10) as usize));
        r
    }
}

// ---------------------------------------------------------------------------
// Ordering (the order `String`'s `Ord` gives: lexicographic by code point)
// ---------------------------------------------------------------------------

pub open spec fn seq_lt(a: Seq<char>, b: Seq<char>) -> bool
    decreases a.len(),
{
    if a.len() == 0 {
        b.len() > 0
    } else if b.len() == 0 {
        false
    } else if a[0] != b[0] {
        (a[0] as u32) < (b[0] as u32)
    } else {
        seq_lt(a.drop_first(), b.drop_first())
    }
}

pub proof fn lemma_lt_irreflexive(a: Seq<char>)
    ensures
        !seq_lt(a, a),
    decreases a.len(),
{
    if a.len() > 0 {
        lemma_lt_irreflexive(a.drop_first());
    }
}

pub proof fn lemma_lt_transitive(a: Seq<char>, b: Seq<char>, c: Seq<char>)
    requires
        seq_lt(a, b),
        seq_lt(b, c),
    ensures
        seq_lt(a, c),
    decreases a.len(),
{
    if a.len() > 0 && b.len() > 0 && c.len() > 0 {
        if a[0] == b[0] && b[0] == c[0] {
            lemma_lt_transitive(a.drop_first(), b.drop_first(), c.drop_first());
        }
    }
}

pub proof fn lemma_lt_total(a: Seq<char>, b: Seq<char>)
    ensures
        a == b || seq_lt(a, b) || seq_lt(b, a),
    decreases a.len(),
{
    if a.len() > 0 && b.len() > 0 && a[0] == b[0] {
        lemma_lt_total(a.drop_first(), b.drop_first());
        if a.drop_first() == b.drop_first() {
            assert(a =~= seq![a[0]] + a.drop_first());
            assert(b =~= seq![b[0]] + b.drop_first());
        }
    } else if a.len() == 0 && b.len() == 0 {
        assert(a =~= b);
    } else if a.len() > 0 && b.len() > 0 {
        if (a[0] as u32) == (b[0] as u32) {
            lemma_char_u32_injective(a[0], b[0]);
        }
    }
}

pub proof fn lemma_char_u32_injective(c: char, d: char)
    requires
        (c as u32) == (d as u32),
    ensures
        c == d,
{
}

pub proof fn lemma_lt_asymmetric(a: Seq<char>, b: Seq<char>)
    requires
        seq_lt(a, b),
    ensures
        !seq_lt(b, a),
    decreases a.len(),
{
    if a.len() > 0 && b.len() > 0 && a[0] == b[0] {
        lemma_lt_asymmetric(a.drop_first(), b.drop_first());
    }
}

/// `a < b` in the order `String` compares by.
pub fn str_lt(a: &str, b: &str) -> (r: bool)
    ensures
        r == seq_lt(a@, b@),
{
    let n = a.unicode_len();
    let m = b.unicode_len();
    let mut i: usize = 0;
    assert(a@.skip(0) =~= a@);
    assert(b@.skip(0) =~= b@);
    loop
        invariant
            n == a@.len(),
            m == b@.len(),
            i <= n,
            i <= m,
            seq_lt(a@, b@) == seq_lt(a@.skip(i as int), b@.skip(i as int)),
        decreases n - i,
    {
        let ghost sa = a@.skip(i as int);
        let ghost sb = b@.skip(i as int);
        if i == n {
            return i < m;
        }
        if i == m {
            return false;
        }
        let x = a.get_char(i);
        let y = b.get_char(i);
        assert(sa[0] == x && sb[0] == y);
        if x != y {
            return (x as u32) < (y as u32);
        }
        assert(sa.drop_first() =~= a@.skip(i + 1));
        assert(sb.drop_first() =~= b@.skip(i + 1));
        i = i + 1;
    }
}

// ---------------------------------------------------------------------------
// Case folding
// ---------------------------------------------------------------------------

/// What `str::to_lowercase` gives for a string with these characters.
pub uninterp spec fn lowercase(s: Seq<char>) -> Seq<char>;

/// `str::to_lowercase`: the full Unicode lowercase mapping of `s`. Its result
/// depends on `s` alone, so the contract names it `lowercase(s@)`; every
/// character maps to at least one, so only the empty text gives an empty
/// result.
#[verifier::external_body]
pub(crate) fn to_lowercase(s: &str) -> (r: String)
    ensures
        r@ == lowercase(s@),
        (r@.len() == 0) == (s@.len() == 0),
{
    s.to_lowercase()
}

} // verus!
