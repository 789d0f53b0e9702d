//! Character-level text processing: the trimming, case folding, searching and
//! splitting that the account and rank logic is built from. Every routine has
//! a specification over `Seq<char>`, the view of `String` and `&str`.

use vstd::prelude::*;

verus! {

/// The Unicode `White_Space` property, which `char::is_whitespace` tests.
pub open spec fn is_space(c: char) -> bool {
    let u = c as u32;
    ||| 0x09 <= u <= 0x0D
    ||| u == 0x20
    ||| u == 0x85
    ||| u == 0xA0
    ||| u == 0x1680
    ||| 0x2000 <= u <= 0x200A
    ||| u == 0x2028
    ||| u == 0x2029
    ||| u == 0x202F
    ||| u == 0x205F
    ||| u == 0x3000
}

pub fn is_space_char(c: char) -> (b: bool)
    ensures
        b == is_space(c),
{
    let u = c as u32;
    (0x09 <= u && u <= 0x0D) || u == 0x20 || u == 0x85 || u == 0xA0 || u == 0x1680 || (0x2000
        <= u && u <= 0x200A) || u == 0x2028 || u == 0x2029 || u == 0x202F || u == 0x205F || u
        == 0x3000
}

pub open spec fn lower_char(c: char) -> char {
    if 'A' <= c && c <= 'Z' {
        ((c as u32) + 32) as char
    } else {
        c
    }
}

pub open spec fn upper_char(c: char) -> char {
    if 'a' <= c && c <= 'z' {
        ((c as u32) - 32) as char
    } else {
        c
    }
}

pub fn ascii_lower_char(c: char) -> (r: char)
    ensures
        r == lower_char(c),
{
    if 'A' <= c && c <= 'Z' {
        ((c as u8) + 32) as char
    } else {
        c
    }
}

pub fn ascii_upper_char(c: char) -> (r: char)
    ensures
        r == upper_char(c),
{
    if 'a' <= c && c <= 'z' {
        ((c as u8) - 32) as char
    } else {
        c
    }
}


/// The characters of `s`, one by one.
pub fn chars_of(s: &str) -> (r: Vec<char>)
    ensures
        r@ == s@,
{
    let mut out: Vec<char> = Vec::new();
    for c in it: s.chars()
        invariant
            out@ == it.seq().take(it.index() as int),
            it.seq() == s@,
    {
        out.push(c);
    }
    out
}

/// `String::push`: appends one character.
#[verifier::external_body]
fn push_char(s: &mut String, c: char)
    ensures
        final(s)@ == old(s)@.push(c),
{
    s.push(c)
}

/// The string whose characters are `v`.
pub fn string_of(v: &Vec<char>) -> (r: String)
    ensures
        r@ == v@,
{
    let mut out = String::new();
    let n = v.len();
    let mut i: usize = 0;
    while i < n
        invariant
            n == v@.len(),
            i <= n,
            out@ == v@.take(i as int),
        decreases n - i,
    {
        push_char(&mut out, v[i]);
        i = i + 1;
        assert(v@.take(i as int) =~= v@.take((i - 1) as int).push(v@[i - 1]));
    }
    assert(v@.take(n as int) =~= v@);
    out
}

/// The characters of `v` from `a` up to `b`.
pub fn slice_of(v: &Vec<char>, a: usize, b: usize) -> (r: Vec<char>)
    requires
        a <= b <= v@.len(),
    ensures
        r@ == v@.subrange(a as int, b as int),
{
    let mut out: Vec<char> = Vec::new();
    let mut i = a;
    while i < b
        invariant
            a <= i <= b <= v@.len(),
            out@ == v@.subrange(a as int, i as int),
        decreases b - i,
    {
        out.push(v[i]);
        i = i + 1;
        assert(v@.subrange(a as int, i as int) =~= v@.subrange(a as int, (i - 1) as int).push(
            v@[i - 1],
        ));
    }
    out
}

/// `v` followed by `w`.
pub fn concat(v: &Vec<char>, w: &Vec<char>) -> (r: Vec<char>)
    ensures
        r@ == v@ + w@,
{
    let mut out = slice_of(v, 0, v.len());
    let n = w.len();
    let mut i: usize = 0;
    while i < n
        invariant
            n == w@.len(),
            i <= n,
            out@ == v@ + w@.take(i as int),
        decreases n - i,
    {
        out.push(w[i]);
        i = i + 1;
        assert(w@.take(i as int) =~= w@.take((i - 1) as int).push(w@[i - 1]));
    }
    assert(w@.take(n as int) =~= w@);
    assert(v@.subrange(0, v@.len() as int) =~= v@);
    out
}

/// Whether `v` and `w` hold the same characters.
pub fn same_chars(v: &Vec<char>, w: &Vec<char>) -> (b: bool)
    ensures
        b == (v@ == w@),
{
    if v.len() != w.len() {
        return false;
    }
    let n = v.len();
    let mut i: usize = 0;
    while i < n
        invariant
            n == v@.len(),
            n == w@.len(),
            i <= n,
            forall|j: int| 0 <= j < i ==> v@[j] == w@[j],
        decreases n - i,
    {
        if v[i] != w[i] {
            return false;
        }
        i = i + 1;
    }
    assert(v@ =~= w@);
    true
}

/// Whether the characters `v` spell the string `s`.
pub fn spells(v: &Vec<char>, s: &str) -> (b: bool)
    ensures
        b == (v@ == s@),
{
    same_chars(v, &chars_of(s))
}

/// Whether the string `s` is the string `t`.
pub fn str_equal(s: &str, t: &str) -> (b: bool)
    ensures
        b == (s@ == t@),
{
    same_chars(&chars_of(s), &chars_of(t))
}

// ---------------------------------------------------------------------------
// Trimming (`str::trim`, `str::trim_matches`)
// ---------------------------------------------------------------------------

/// `s` without its leading white space.
pub open spec fn trim_start(s: Seq<char>) -> Seq<char>
    decreases s.len(),
{
    if s.len() > 0 && is_space(s[0]) {
        trim_start(s.drop_first())
    } else {
        s
    }
}

/// `s` without its trailing white space.
pub open spec fn trim_end(s: Seq<char>) -> Seq<char>
    decreases s.len(),
{
    if s.len() > 0 && is_space(s.last()) {
        trim_end(s.drop_last())
    } else {
        s
    }
}

/// `s` without leading and trailing white space, as `str::trim` gives it.
pub open spec fn trim(s: Seq<char>) -> Seq<char> {
    trim_end(trim_start(s))
}

proof fn lemma_trim_start_skip(s: Seq<char>, a: int)
    requires
        0 <= a <= s.len(),
        forall|i: int| 0 <= i < a ==> is_space(#[trigger] s[i]),
        a == s.len() || !is_space(s[a]),
    ensures
        trim_start(s) == s.skip(a),
    decreases a,
{
    if a > 0 {
        assert forall|i: int| 0 <= i < a - 1 implies is_space(#[trigger] s.drop_first()[i]) by {
            assert(s.drop_first()[i] == s[i + 1]);
        }
        lemma_trim_start_skip(s.drop_first(), a - 1);
        assert(s.drop_first().skip(a - 1) =~= s.skip(a));
    } else {
        assert(s.skip(0) =~= s);
    }
}

proof fn lemma_trim_end_take(s: Seq<char>, b: int)
    requires
        0 <= b <= s.len(),
        forall|i: int| b <= i < s.len() ==> is_space(#[trigger] s[i]),
        b == 0 || !is_space(s[b - 1]),
    ensures
        trim_end(s) == s.take(b),
    decreases s.len() - b,
{
    if b < s.len() {
        assert forall|i: int| b <= i < s.drop_last().len() implies is_space(
            #[trigger] s.drop_last()[i],
        ) by {
            assert(s.drop_last()[i] == s[i]);
        }
        lemma_trim_end_take(s.drop_last(), b);
        assert(s.drop_last().take(b) =~= s.take(b));
    } else {
        assert(s.take(b) =~= s);
    }
}

/// The characters of `v` without leading and trailing white space.
pub fn trim_chars(v: &Vec<char>) -> (r: Vec<char>)
    ensures
        r@ == trim(v@),
{
    let n = v.len();
    let mut a: usize = 0;
    while a < n && is_space_char(v[a])
        invariant
            n == v@.len(),
            a <= n,
            forall|i: int| 0 <= i < a ==> is_space(#[trigger] v@[i]),
        decreases n - a,
    {
        a = a + 1;
    }
    let mut b: usize = n;
    while b > a && is_space_char(v[b - 1])
        invariant
            n == v@.len(),
            a <= b <= n,
            forall|i: int| b <= i < n ==> is_space(#[trigger] v@[i]),
        decreases b,
    {
        b = b - 1;
    }
    proof {
        lemma_trim_start_skip(v@, a as int);
        let t = v@.skip(a as int);
        assert forall|i: int| (b - a) <= i < t.len() implies is_space(#[trigger] t[i]) by {
            assert(t[i] == v@[i + a]);
        }
        if b > a {
            assert(t[b - a - 1] == v@[b - 1]);
        }
        lemma_trim_end_take(t, (b - a) as int);
        assert(t.take((b - a) as int) =~= v@.subrange(a as int, b as int));
    }
    slice_of(v, a, b)
}

/// `str::trim`.
pub fn trim_str(s: &str) -> (r: String)
    ensures
        r@ == trim(s@),
{
    string_of(&trim_chars(&chars_of(s)))
}

/// `s` without leading copies of `q`.
pub open spec fn strip_start(s: Seq<char>, q: char) -> Seq<char>
    decreases s.len(),
{
    if s.len() > 0 && s[0] == q {
        strip_start(s.drop_first(), q)
    } else {
        s
    }
}

/// `s` without trailing copies of `q`.
pub open spec fn strip_end(s: Seq<char>, q: char) -> Seq<char>
    decreases s.len(),
{
    if s.len() > 0 && s.last() == q {
        strip_end(s.drop_last(), q)
    } else {
        s
    }
}

/// `str::trim_matches` with a single character.
pub open spec fn strip(s: Seq<char>, q: char) -> Seq<char> {
    strip_end(strip_start(s, q), q)
}

proof fn lemma_strip_start_skip(s: Seq<char>, q: char, a: int)
    requires
        0 <= a <= s.len(),
        forall|i: int| 0 <= i < a ==> #[trigger] s[i] == q,
        a == s.len() || s[a] != q,
    ensures
        strip_start(s, q) == s.skip(a),
    decreases a,
{
    if a > 0 {
        assert forall|i: int| 0 <= i < a - 1 implies #[trigger] s.drop_first()[i] == q by {
            assert(s.drop_first()[i] == s[i + 1]);
        }
        lemma_strip_start_skip(s.drop_first(), q, a - 1);
        assert(s.drop_first().skip(a - 1) =~= s.skip(a));
    } else {
        assert(s.skip(0) =~= s);
    }
}

proof fn lemma_strip_end_take(s: Seq<char>, q: char, b: int)
    requires
        0 <= b <= s.len(),
        forall|i: int| b <= i < s.len() ==> #[trigger] s[i] == q,
        b == 0 || s[b - 1] != q,
    ensures
        strip_end(s, q) == s.take(b),
    decreases s.len() - b,
{
    if b < s.len() {
        assert forall|i: int| b <= i < s.drop_last().len() implies #[trigger] s.drop_last()[i]
            == q by {
            assert(s.drop_last()[i] == s[i]);
        }
        lemma_strip_end_take(s.drop_last(), q, b);
        assert(s.drop_last().take(b) =~= s.take(b));
    } else {
        assert(s.take(b) =~= s);
    }
}

/// The characters of `v` without leading and trailing copies of `q`.
pub fn strip_chars(v: &Vec<char>, q: char) -> (r: Vec<char>)
    ensures
        r@ == strip(v@, q),
{
    let n = v.len();
    let mut a: usize = 0;
    while a < n && v[a] == q
        invariant
            n == v@.len(),
            a <= n,
            forall|i: int| 0 <= i < a ==> #[trigger] v@[i] == q,
        decreases n - a,
    {
        a = a + 1;
    }
    let mut b: usize = n;
    while b > a && v[b - 1] == q
        invariant
            n == v@.len(),
            a <= b <= n,
            forall|i: int| b <= i < n ==> #[trigger] v@[i] == q,
        decreases b,
    {
        b = b - 1;
    }
    proof {
        lemma_strip_start_skip(v@, q, a as int);
        let t = v@.skip(a as int);
        assert forall|i: int| (b - a) <= i < t.len() implies #[trigger] t[i] == q by {
            assert(t[i] == v@[i + a]);
        }
        if b > a {
            assert(t[b - a - 1] == v@[b - 1]);
        }
        lemma_strip_end_take(t, q, (b - a) as int);
        assert(t.take((b - a) as int) =~= v@.subrange(a as int, b as int));
    }
    slice_of(v, a, b)
}


// ---------------------------------------------------------------------------
// ASCII case (`to_ascii_lowercase`, `to_ascii_uppercase`, `eq_ignore_ascii_case`)
// ---------------------------------------------------------------------------

/// `s` with ASCII capitals turned into small letters.
pub open spec fn lower(s: Seq<char>) -> Seq<char> {
    s.map_values(|c: char| lower_char(c))
}

/// `s` with ASCII small letters turned into capitals.
pub open spec fn upper(s: Seq<char>) -> Seq<char> {
    s.map_values(|c: char| upper_char(c))
}

/// Equality of two strings up to ASCII case, as `str::eq_ignore_ascii_case` tests it.
pub open spec fn same_ignoring_case(a: Seq<char>, b: Seq<char>) -> bool {
    lower(a) == lower(b)
}

pub fn lower_chars(v: &Vec<char>) -> (r: Vec<char>)
    ensures
        r@ == lower(v@),
{
    let mut out: Vec<char> = Vec::new();
    let n = v.len();
    let mut i: usize = 0;
    while i < n
        invariant
            n == v@.len(),
            i <= n,
            out@ == lower(v@.take(i as int)),
        decreases n - i,
    {
        out.push(ascii_lower_char(v[i]));
        i = i + 1;
        assert(lower(v@.take(i as int)) =~= lower(v@.take((i - 1) as int)).push(
            lower_char(v@[i - 1]),
        ));
    }
    assert(v@.take(n as int) =~= v@);
    out
}

pub fn upper_chars(v: &Vec<char>) -> (r: Vec<char>)
    ensures
        r@ == upper(v@),
{
    let mut out: Vec<char> = Vec::new();
    let n = v.len();
    let mut i: usize = 0;
    while i < n
        invariant
            n == v@.len(),
            i <= n,
            out@ == upper(v@.take(i as int)),
        decreases n - i,
    {
        out.push(ascii_upper_char(v[i]));
        i = i + 1;
        assert(upper(v@.take(i as int)) =~= upper(v@.take((i - 1) as int)).push(
            upper_char(v@[i - 1]),
        ));
    }
    assert(v@.take(n as int) =~= v@);
    out
}

/// `str::eq_ignore_ascii_case` on character vectors.
pub fn same_chars_ignoring_case(v: &Vec<char>, w: &Vec<char>) -> (b: bool)
    ensures
        b == same_ignoring_case(v@, w@),
{
    same_chars(&lower_chars(v), &lower_chars(w))
}

/// `str::eq_ignore_ascii_case`.
pub fn eq_ignore_case(s: &str, t: &str) -> (b: bool)
    ensures
        b == same_ignoring_case(s@, t@),
{
    same_chars_ignoring_case(&chars_of(s), &chars_of(t))
}

// ---------------------------------------------------------------------------
// Searching (`str::contains`, `str::find`)
// ---------------------------------------------------------------------------

/// `p` occurs in `s` starting at index `i`.
pub open spec fn occurs_at(s: Seq<char>, p: Seq<char>, i: int) -> bool {
    0 <= i && i + p.len() <= s.len() && s.subrange(i, i + p.len()) == p
}

/// `p` occurs somewhere in `s`, as `str::contains` tests it.
pub open spec fn contains(s: Seq<char>, p: Seq<char>) -> bool {
    exists|i: int| occurs_at(s, p, i)
}

/// The first index at or after `k` where `p` occurs in `s`.
pub open spec fn first_occurrence_from(s: Seq<char>, p: Seq<char>, k: int) -> Option<int>
    decreases s.len() + 1 - k,
{
    if k < 0 || k + p.len() > s.len() {
        None
    } else if occurs_at(s, p, k) {
        Some(k)
    } else {
        first_occurrence_from(s, p, k + 1)
    }
}

pub fn occurs_at_exec(v: &Vec<char>, p: &Vec<char>, i: usize) -> (b: bool)
    ensures
        b == occurs_at(v@, p@, i as int),
{
    if i > v.len() || p.len() > v.len() - i {
        return false;
    }
    let m = p.len();
    let end = i + m;
    let mut j: usize = 0;
    while j < m
        invariant
            m == p@.len(),
            end == i + m,
            i + m <= v@.len(),
            j <= m,
            forall|t: int| 0 <= t < j ==> v@[i + t] == p@[t],
        decreases m - j,
    {
        if v[i + j] != p[j] {
            assert(v@.subrange(i as int, i + m)[j as int] != p@[j as int]);
            return false;
        }
        j = j + 1;
    }
    assert(v@.subrange(i as int, i + m) =~= p@);
    true
}

/// The first index at or after `k` where `p` occurs in `v`.
pub fn find_from(v: &Vec<char>, p: &Vec<char>, k: usize) -> (r: Option<usize>)
    requires
        k <= v@.len(),
    ensures
        r == (match first_occurrence_from(v@, p@, k as int) {
            Some(i) => Some(i as usize),
            None => None::<usize>,
        }),
        r matches Some(i) ==> occurs_at(v@, p@, i as int) && k <= i,
{
    let n = v.len();
    if p.len() > n {
        return None;
    }
    let mut i = k;
    let last = n - p.len();
    while i <= last
        invariant
            n == v@.len(),
            p@.len() <= n,
            last == n - p@.len(),
            k <= i <= n,
            first_occurrence_from(v@, p@, k as int) == first_occurrence_from(v@, p@, i as int),
        decreases n + 1 - i,
    {
        if occurs_at_exec(v, p, i) {
            return Some(i);
        }
        proof {
            if p@.len() == 0 {
                assert(v@.subrange(i as int, i as int) =~= p@);
            }
        }
        i = i + 1;
    }
    None
}

proof fn lemma_first_occurrence_complete(s: Seq<char>, p: Seq<char>, k: int, i: int)
    requires
        0 <= k <= i,
        occurs_at(s, p, i),
    ensures
        first_occurrence_from(s, p, k) is Some,
    decreases i - k,
{
    if !occurs_at(s, p, k) {
        lemma_first_occurrence_complete(s, p, k + 1, i);
    }
}

/// `str::contains` on character vectors.
pub fn contains_chars(v: &Vec<char>, p: &Vec<char>) -> (b: bool)
    ensures
        b == contains(v@, p@),
{
    match find_from(v, p, 0) {
        Some(i) => {
            assert(occurs_at(v@, p@, i as int));
            true
        },
        None => {
            assert forall|i: int| !occurs_at(v@, p@, i) by {
                if occurs_at(v@, p@, i) {
                    lemma_first_occurrence_complete(v@, p@, 0, i);
                }
            }
            false
        },
    }
}

// ---------------------------------------------------------------------------
// Replacing (`str::replace`)
// ---------------------------------------------------------------------------

/// The rest of `s` from index `k` with every occurrence of `p` found from the
/// left, without overlap, replaced by `r`.
pub open spec fn replace_from(s: Seq<char>, p: Seq<char>, r: Seq<char>, k: int) -> Seq<char>
    decreases s.len() - k,
{
    if k < 0 || k >= s.len() {
        Seq::empty()
    } else if p.len() > 0 && occurs_at(s, p, k) {
        r + replace_from(s, p, r, k + p.len())
    } else {
        seq![s[k]] + replace_from(s, p, r, k + 1)
    }
}

/// `str::replace` with a non-empty pattern.
pub open spec fn replace(s: Seq<char>, p: Seq<char>, r: Seq<char>) -> Seq<char> {
    replace_from(s, p, r, 0)
}

/// `str::replace` with a non-empty pattern, on character vectors.
pub fn replace_chars(v: &Vec<char>, p: &Vec<char>, r: &Vec<char>) -> (out: Vec<char>)
    ensures
        out@ == replace(v@, p@, r@),
{
    let n = v.len();
    let mut out: Vec<char> = Vec::new();
    let mut k: usize = 0;
    while k < n
        invariant
            n == v@.len(),
            k <= n,
            out@ + replace_from(v@, p@, r@, k as int) == replace(v@, p@, r@),
        decreases n - k,
    {
        if p.len() > 0 && occurs_at_exec(v, p, k) {
            let ghost before = out@;
            let m = r.len();
            let mut j: usize = 0;
            while j < m
                invariant
                    m == r@.len(),
                    j <= m,
                    out@ == before + r@.take(j as int),
                decreases m - j,
            {
                out.push(r[j]);
                j = j + 1;
                assert(r@.take(j as int) =~= r@.take((j - 1) as int).push(r@[j - 1]));
            }
            assert(r@.take(m as int) =~= r@);
            assert(out@ + replace_from(v@, p@, r@, (k + p.len()) as int) =~= before
                + replace_from(v@, p@, r@, k as int));
            k = k + p.len();
        } else {
            let ghost before = out@;
            out.push(v[k]);
            assert(out@ + replace_from(v@, p@, r@, (k + 1) as int) =~= before + replace_from(
                v@,
                p@,
                r@,
                k as int,
            ));
            k = k + 1;
        }
    }
    assert(out@ =~= replace(v@, p@, r@));
    out
}

/// `s` without any copy of `c`, as `replace(c, "")` gives it.
pub open spec fn without_char(s: Seq<char>, c: char) -> Seq<char>
    decreases s.len(),
{
    if s.len() == 0 {
        s
    } else if s.last() == c {
        without_char(s.drop_last(), c)
    } else {
        without_char(s.drop_last(), c).push(s.last())
    }
}

pub fn without_char_exec(v: &Vec<char>, c: char) -> (r: Vec<char>)
    ensures
        r@ == without_char(v@, c),
{
    let mut out: Vec<char> = Vec::new();
    let n = v.len();
    let mut i: usize = 0;
    while i < n
        invariant
            n == v@.len(),
            i <= n,
            out@ == without_char(v@.take(i as int), c),
        decreases n - i,
    {
        if v[i] != c {
            out.push(v[i]);
        }
        i = i + 1;
        assert(v@.take(i as int).drop_last() =~= v@.take((i - 1) as int));
    }
    assert(v@.take(n as int) =~= v@);
    out
}

/// `s` with every `a` turned into `b`, as `replace(a, b)` gives it for single characters.
pub open spec fn swap_char(s: Seq<char>, a: char, b: char) -> Seq<char> {
    s.map_values(|x: char| if x == a { b } else { x })
}

pub fn swap_char_exec(v: &Vec<char>, a: char, b: char) -> (r: Vec<char>)
    ensures
        r@ == swap_char(v@, a, b),
{
    let mut out: Vec<char> = Vec::new();
    let n = v.len();
    let mut i: usize = 0;
    while i < n
        invariant
            n == v@.len(),
            i <= n,
            out@ == swap_char(v@.take(i as int), a, b),
        decreases n - i,
    {
        out.push(if v[i] == a { b } else { v[i] });
        i = i + 1;
        assert(swap_char(v@.take(i as int), a, b) =~= swap_char(v@.take((i - 1) as int), a, b).push(
            if v@[i - 1] == a { b } else { v@[i - 1] },
        ));
    }
    assert(v@.take(n as int) =~= v@);
    out
}


// ---------------------------------------------------------------------------
// Splitting (`str::split`, `str::rsplit_once`, `str::split_whitespace`)
// ---------------------------------------------------------------------------

/// The views of a vector of character vectors.
pub open spec fn views(v: Seq<Vec<char>>) -> Seq<Seq<char>> {
    v.map_values(|w: Vec<char>| w@)
}

/// The pieces of `s` from index `start` on, cut at every occurrence of `p`
/// found from index `k` on, from the left and without overlap.
pub open spec fn split_from(s: Seq<char>, p: Seq<char>, start: int, k: int) -> Seq<Seq<char>>
    decreases s.len() - k,
{
    if p.len() == 0 || start < 0 || k < start || k + p.len() > s.len() {
        seq![s.subrange(start, s.len() as int)]
    } else if occurs_at(s, p, k) {
        seq![s.subrange(start, k)] + split_from(s, p, k + p.len(), k + p.len())
    } else {
        split_from(s, p, start, k + 1)
    }
}

/// `str::split` with a non-empty string pattern.
pub open spec fn split(s: Seq<char>, p: Seq<char>) -> Seq<Seq<char>> {
    split_from(s, p, 0, 0)
}

/// `str::split` with a non-empty pattern, on character vectors.
pub fn split_chars(v: &Vec<char>, p: &Vec<char>) -> (r: Vec<Vec<char>>)
    requires
        p@.len() > 0,
    ensures
        views(r@) == split(v@, p@),
{
    let n = v.len();
    let m = p.len();
    let mut parts: Vec<Vec<char>> = Vec::new();
    let mut start: usize = 0;
    let mut k: usize = 0;
    while m <= n && k <= n - m
        invariant
            n == v@.len(),
            m == p@.len(),
            m > 0,
            start <= k <= n,
            views(parts@) + split_from(v@, p@, start as int, k as int) == split(v@, p@),
        decreases n - k,
    {
        if occurs_at_exec(v, p, k) {
            let piece = slice_of(v, start, k);
            let ghost before = parts@;
            parts.push(piece);
            assert(views(parts@) =~= views(before).push(piece@));
            assert(views(parts@) + split_from(v@, p@, (k + m) as int, (k + m) as int) =~= views(
                before,
            ) + split_from(v@, p@, start as int, k as int));
            k = k + m;
            start = k;
        } else {
            k = k + 1;
        }
    }
    let piece = slice_of(v, start, n);
    let ghost before = parts@;
    parts.push(piece);
    assert(views(parts@) =~= views(before).push(piece@));
    assert(views(parts@) =~= split(v@, p@));
    parts
}

/// The index of the last `c` in `s`.
pub open spec fn last_index_of(s: Seq<char>, c: char) -> Option<int>
    decreases s.len(),
{
    if s.len() == 0 {
        None
    } else if s.last() == c {
        Some(s.len() - 1)
    } else {
        last_index_of(s.drop_last(), c)
    }
}

pub fn last_index_of_exec(v: &Vec<char>, c: char) -> (r: Option<usize>)
    ensures
        r == (match last_index_of(v@, c) {
            Some(i) => Some(i as usize),
            None => None::<usize>,
        }),
        r matches Some(i) ==> i < v@.len() && v@[i as int] == c,
        last_index_of(v@, c) matches Some(i) ==> 0 <= i < v@.len(),
{
    proof {
        lemma_last_index_in_range(v@, c);
    }
    let mut i = v.len();
    assert(v@.take(i as int) =~= v@);
    while i > 0
        invariant
            i <= v@.len(),
            last_index_of(v@, c) == last_index_of(v@.take(i as int), c),
        decreases i,
    {
        assert(v@.take(i as int).drop_last() =~= v@.take((i - 1) as int));
        if v[i - 1] == c {
            return Some(i - 1);
        }
        i = i - 1;
    }
    None
}

proof fn lemma_last_index_in_range(s: Seq<char>, c: char)
    ensures
        last_index_of(s, c) matches Some(i) ==> 0 <= i < s.len(),
    decreases s.len(),
{
    if s.len() > 0 {
        lemma_last_index_in_range(s.drop_last(), c);
    }
}

/// The white-space separated words of `s`, as `str::split_whitespace` yields them.
pub open spec fn words(s: Seq<char>) -> Seq<Seq<char>>
    decreases s.len(),
{
    if s.len() == 0 {
        Seq::empty()
    } else if is_space(s.last()) {
        words(s.drop_last())
    } else if s.len() >= 2 && !is_space(s[s.len() - 2]) {
        let w = words(s.drop_last());
        w.update(w.len() - 1, w.last().push(s.last()))
    } else {
        words(s.drop_last()).push(seq![s.last()])
    }
}

proof fn lemma_words_nonempty(s: Seq<char>)
    requires
        s.len() > 0,
        !is_space(s.last()),
    ensures
        words(s).len() > 0,
    decreases s.len(),
{
    if s.len() >= 2 && !is_space(s[s.len() - 2]) {
        lemma_words_nonempty(s.drop_last());
    }
}

proof fn lemma_words_are_nonempty(s: Seq<char>)
    ensures
        forall|i: int| 0 <= i < words(s).len() ==> (#[trigger] words(s)[i]).len() > 0,
    decreases s.len(),
{
    if s.len() > 0 {
        lemma_words_are_nonempty(s.drop_last());
        if !is_space(s.last()) && s.len() >= 2 && !is_space(s[s.len() - 2]) {
            lemma_words_nonempty(s.drop_last());
        }
    }
}

/// `str::split_whitespace` on character vectors.
pub fn words_of(v: &Vec<char>) -> (r: Vec<Vec<char>>)
    ensures
        views(r@) == words(v@),
        forall|i: int| 0 <= i < r@.len() ==> (#[trigger] r@[i])@.len() > 0,
{
    let n = v.len();
    let mut out: Vec<Vec<char>> = Vec::new();
    let mut i: usize = 0;
    while i < n
        invariant
            n == v@.len(),
            i <= n,
            views(out@) == words(v@.take(i as int)),
        decreases n - i,
    {
        let c = v[i];
        let ghost prev = v@.take(i as int);
        assert(v@.take((i + 1) as int).drop_last() =~= prev);
        if is_space_char(c) {
        } else if i >= 1 && !is_space_char(v[i - 1]) {
            proof {
                assert(prev.last() == v@[i - 1]);
                lemma_words_nonempty(prev);
            }
            let last = out.len() - 1;
            let mut w = slice_of(&out[last], 0, out[last].len());
            w.push(c);
            let ghost before = out@;
            assert(w@ =~= before[last as int]@.push(c));
            out.set(last, w);
            assert(views(out@) =~= views(before).update(last as int, views(before)[last as int].push(c)));
            assert(v@.take((i + 1) as int)[i - 1] == v@[i - 1]);
        } else {
            let ghost before = out@;
            let single = vec![c];
            assert(single@ =~= seq![c]);
            out.push(single);
            assert(views(out@) =~= views(before).push(seq![c]));
        }
        i = i + 1;
    }
    assert(v@.take(n as int) =~= v@);
    proof {
        lemma_words_are_nonempty(v@);
        assert forall|i: int| 0 <= i < out@.len() implies (#[trigger] out@[i])@.len() > 0 by {
            assert(views(out@)[i] == out@[i]@);
        }
    }
    out
}

// ---------------------------------------------------------------------------
// Integers (`str::parse::<i32>`)
// ---------------------------------------------------------------------------

pub open spec fn is_digit(c: char) -> bool {
    '0' <= c && c <= '9'
}

/// The value of a string of decimal digits.
pub open spec fn decimal(s: Seq<char>) -> int
    decreases s.len(),
{
    if s.len() == 0 {
        0
    } else {
        decimal(s.drop_last()) * 10 + ((s.last() as u32) - ('0' as u32))
    }
}

/// The digits of `s` after an optional leading sign, and whether that sign is `-`.
pub open spec fn sign_and_digits(s: Seq<char>) -> (bool, Seq<char>) {
    if s.len() > 0 && s[0] == '-' {
        (true, s.drop_first())
    } else if s.len() > 0 && s[0] == '+' {
        (false, s.drop_first())
    } else {
        (false, s)
    }
}

/// `str::parse::<i32>`: an optional sign and at least one decimal digit, with
/// the value in range.
pub open spec fn parse_i32(s: Seq<char>) -> Option<i32> {
    let (negative, digits) = sign_and_digits(s);
    if digits.len() == 0 || !(forall|i: int| 0 <= i < digits.len() ==> is_digit(#[trigger] digits[i])) {
        None
    } else {
        let value = if negative {
            -decimal(digits)
        } else {
            decimal(digits)
        };
        if i32::MIN <= value <= i32::MAX {
            Some(value as i32)
        } else {
            None
        }
    }
}

proof fn lemma_decimal_grows(s: Seq<char>, j: int)
    requires
        0 <= j <= s.len(),
        forall|i: int| 0 <= i < s.len() ==> is_digit(#[trigger] s[i]),
    ensures
        decimal(s.take(j)) <= decimal(s),
        0 <= decimal(s.take(j)),
    decreases s.len() - j,
{
    if j < s.len() {
        lemma_decimal_grows(s, j + 1);
        assert(s.take(j + 1).drop_last() =~= s.take(j));
        assert(is_digit(s[j]));
    } else {
        assert(s.take(j) =~= s);
        lemma_decimal_nonneg(s);
    }
}

proof fn lemma_decimal_nonneg(s: Seq<char>)
    requires
        forall|i: int| 0 <= i < s.len() ==> is_digit(#[trigger] s[i]),
    ensures
        0 <= decimal(s),
    decreases s.len(),
{
    if s.len() > 0 {
        assert forall|i: int| 0 <= i < s.drop_last().len() implies is_digit(
            #[trigger] s.drop_last()[i],
        ) by {
            assert(s.drop_last()[i] == s[i]);
        }
        lemma_decimal_nonneg(s.drop_last());
        assert(is_digit(s[s.len() - 1]));
    }
}

/// `str::parse::<i32>` on character vectors.
pub fn parse_i32_chars(v: &Vec<char>) -> (r: Option<i32>)
    ensures
        r == parse_i32(v@),
{
    let n = v.len();
    let negative = n > 0 && v[0] == '-';
    let start: usize = if n > 0 && (v[0] == '-' || v[0] == '+') {
        1
    } else {
        0
    };
    let ghost digits = sign_and_digits(v@).1;
    assert(digits =~= v@.skip(start as int));
    if start == n {
        return None;
    }
    let mut acc: i64 = 0;
    let mut i = start;
    while i < n
        invariant
            n == v@.len(),
            start <= i <= n,
            start < n,
            digits == v@.skip(start as int),
            digits == sign_and_digits(v@).1,
            negative == sign_and_digits(v@).0,
            forall|j: int| start <= j < i ==> is_digit(#[trigger] v@[j]),
            acc == decimal(v@.subrange(start as int, i as int)),
            0 <= acc <= 2147483648,
        decreases n - i,
    {
        let c = v[i];
        if !('0' <= c && c <= '9') {
            assert(digits[i - start] == c);
            return None;
        }
        let d = (c as u32 - '0' as u32) as i64;
        assert(v@.subrange(start as int, (i + 1) as int).drop_last() =~= v@.subrange(
            start as int,
            i as int,
        ));
        acc = acc * 10 + d;
        i = i + 1;
        if acc > 2147483648 {
            // Every later digit only makes the value larger.
            proof {
                let rest = v@.skip(start as int);
                let ok = forall|j: int| 0 <= j < rest.len() ==> is_digit(#[trigger] rest[j]);
                if ok {
                    lemma_decimal_grows(rest, (i - start) as int);
                    assert(rest.take((i - start) as int) =~= v@.subrange(start as int, i as int));
                }
            }
            return None;
        }
    }
    assert(v@.subrange(start as int, n as int) =~= digits);
    assert forall|j: int| 0 <= j < digits.len() implies is_digit(#[trigger] digits[j]) by {
        assert(digits[j] == v@[j + start]);
    }
    if negative {
        Some((-acc) as i32)
    } else if acc <= 2147483647 {
        Some(acc as i32)
    } else {
        None
    }
}

} // verus!
