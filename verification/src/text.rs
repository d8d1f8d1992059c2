//! Character-level helpers on `Seq<char>`: whitespace, trimming,
//! substring search and decimal formatting.
use vstd::prelude::*;

verus! {

broadcast use vstd::string::group_string_axioms;

/// Unicode `White_Space`: the class that `char::is_whitespace` and
/// `str::trim` use, and that `\s` denotes in a Unicode regular expression.
pub open spec fn is_ws(c: char) -> bool {
    ||| ('\u{9}' <= c && c <= '\u{D}')
    ||| c == ' '
    ||| c == '\u{85}'
    ||| c == '\u{A0}'
    ||| c == '\u{1680}'
    ||| ('\u{2000}' <= c && c <= '\u{200A}')
    ||| c == '\u{2028}'
    ||| c == '\u{2029}'
    ||| c == '\u{202F}'
    ||| c == '\u{205F}'
    ||| c == '\u{3000}'
}

/// The first index at or after `i` that does not hold whitespace
/// (`s.len()` when the rest of `s` is whitespace).
pub open spec fn skip_ws(s: Seq<char>, i: int) -> int
    decreases s.len() - i,
{
    if 0 <= i < s.len() && is_ws(s[i]) {
        skip_ws(s, i + 1)
    } else {
        i
    }
}

/// The end of `s.take(j)` once its trailing whitespace is dropped.
pub open spec fn trim_back(s: Seq<char>, j: int) -> int
    decreases j,
{
    if 0 < j <= s.len() && is_ws(s[j - 1]) {
        trim_back(s, j - 1)
    } else {
        j
    }
}

/// `s` without leading and trailing whitespace, as `str::trim` gives it.
pub open spec fn trim(s: Seq<char>) -> Seq<char> {
    let a = skip_ws(s, 0);
    let b = trim_back(s, s.len() as int);
    if a < b {
        s.subrange(a, b)
    } else {
        Seq::empty()
    }
}

/// `needle` occurs in `hay` at index `k`.
pub open spec fn matches_at(hay: Seq<char>, k: int, needle: Seq<char>) -> bool {
    &&& 0 <= k
    &&& k + needle.len() <= hay.len()
    &&& hay.subrange(k, k + needle.len()) == needle
}

/// `needle` occurs somewhere in `hay`.
pub open spec fn contains(hay: Seq<char>, needle: Seq<char>) -> bool {
    exists|k: int| matches_at(hay, k, needle)
}

pub open spec fn starts_with(hay: Seq<char>, prefix: Seq<char>) -> bool {
    matches_at(hay, 0, prefix)
}

pub open spec fn ends_with(hay: Seq<char>, suffix: Seq<char>) -> bool {
    matches_at(hay, hay.len() - suffix.len(), suffix)
}

/// The first index at or after `i` where `needle` occurs in `hay`.
pub open spec fn find_from(hay: Seq<char>, needle: Seq<char>, i: int) -> Option<int>
    decreases hay.len() - i,
{
    if i < 0 || i + needle.len() > hay.len() {
        None
    } else if matches_at(hay, i, needle) {
        Some(i)
    } else if i >= hay.len() {
        None
    } else {
        find_from(hay, needle, i + 1)
    }
}

/// `find_from` gives the least index at or after `i` where `needle` occurs,
/// and `None` exactly when there is none.
pub proof fn lemma_find_from(hay: Seq<char>, needle: Seq<char>, i: int)
    requires
        0 <= i,
    ensures
        find_from(hay, needle, i) matches Some(k) ==> {
            &&& i <= k
            &&& matches_at(hay, k, needle)
            &&& forall|m: int| i <= m < k ==> !matches_at(hay, m, needle)
        },
        find_from(hay, needle, i) is None ==> forall|m: int|
            i <= m ==> !matches_at(hay, m, needle),
    decreases hay.len() - i,
{
    if i + needle.len() > hay.len() {
    } else if matches_at(hay, i, needle) {
    } else if i >= hay.len() {
        assert(hay.subrange(i, i) =~= needle);
    } else {
        lemma_find_from(hay, needle, i + 1);
    }
}

/// `skip_ws` stays within `i..=s.len()` and stops on a non-whitespace
/// character; everything it passes over is whitespace.
pub proof fn lemma_skip_ws(s: Seq<char>, i: int)
    requires
        0 <= i <= s.len(),
    ensures
        i <= skip_ws(s, i) <= s.len(),
        skip_ws(s, i) < s.len() ==> !is_ws(s[skip_ws(s, i)]),
        forall|m: int| i <= m < skip_ws(s, i) ==> is_ws(s[m]),
    decreases s.len() - i,
{
    if i < s.len() && is_ws(s[i]) {
        lemma_skip_ws(s, i + 1);
    }
}

/// `trim_back` stays within `0..=j`.
pub proof fn lemma_trim_back(s: Seq<char>, j: int)
    requires
        0 <= j <= s.len(),
    ensures
        0 <= trim_back(s, j) <= j,
    decreases j,
{
    if 0 < j && is_ws(s[j - 1]) {
        lemma_trim_back(s, j - 1);
    }
}

/// The trimmed text is a piece of the text.
pub proof fn lemma_trim_is_subrange(s: Seq<char>)
    ensures
        trim(s).len() == 0 || (0 <= skip_ws(s, 0) < trim_back(s, s.len() as int) <= s.len()
            && trim(s) == s.subrange(skip_ws(s, 0), trim_back(s, s.len() as int))),
{
    lemma_skip_ws(s, 0);
    lemma_trim_back(s, s.len() as int);
}

/// `is_ws` holds of exactly the 25 code points that Unicode gives the
/// `White_Space` property (those `char::is_whitespace` accepts): U+0009 to
/// U+000D, U+0020, U+0085, U+00A0, U+1680, U+2000 to U+200A, U+2028,
/// U+2029, U+202F, U+205F and U+3000.
pub proof fn lemma_is_ws_code_points(c: char)
    ensures
        is_ws(c) <==> ({
            let u = c as u32;
            ||| 9 <= u <= 13
            ||| u == 32
            ||| u == 0x85
            ||| u == 0xA0
            ||| u == 0x1680
            ||| 0x2000 <= u <= 0x200A
            ||| u == 0x2028
            ||| u == 0x2029
            ||| u == 0x202F
            ||| u == 0x205F
            ||| u == 0x3000
        }),
{
}

/// The value of a text of decimal digits, read in base ten.
pub open spec fn digits_value(s: Seq<char>) -> int
    decreases s.len(),
{
    if s.len() == 0 {
        0
    } else {
        digits_value(s.drop_last()) * 10 + (s.last() as int - '0' as int)
    }
}

/// `decimal(n)` is the base-ten notation of `n`: it is made of the digits
/// `0` to `9`, has no leading zero (unless `n` is zero), and its digits
/// read back as `n`.
pub proof fn lemma_decimal_value(n: nat)
    ensures
        decimal(n).len() > 0,
        forall|i: int| 0 <= i < decimal(n).len() ==> '0' <= #[trigger] decimal(n)[i] <= '9',
        n > 0 ==> decimal(n)[0] != '0',
        digits_value(decimal(n)) == n,
    decreases n,
{
    let d = decimal(n);
    let last = (n % 10) as nat;
    assert(digit_char(last) as int == '0' as int + last);
    assert(d.last() == digit_char(last));
    if n < 10 {
        assert(d.drop_last() =~= Seq::<char>::empty());
        assert(digits_value(Seq::<char>::empty()) == 0);
        assert(digits_value(d) == digits_value(d.drop_last()) * 10 + (d.last() as int - '0' as int));
    } else {
        lemma_decimal_value(n / 10);
        let p = decimal(n / 10);
        assert(d.drop_last() =~= p);
        assert(d[0] == p[0]);
        assert forall|i: int| 0 <= i < d.len() implies '0' <= #[trigger] d[i] <= '9' by {
            if i < p.len() {
                assert(d[i] == p[i]);
            }
        }
        assert(n == (n / 10) * 10 + n % 10);
        assert(digits_value(d) == digits_value(p) * 10 + (d.last() as int - '0' as int));
    }
}

/// `trim` drops exactly the whitespace at both ends: what it keeps is a
/// piece of the text that neither starts nor ends with whitespace, and
/// everything before and after that piece is whitespace (all of a text
/// made only of whitespace is dropped).
pub proof fn lemma_trim_drops_edge_whitespace(s: Seq<char>)
    ensures
        trim(s).len() == 0 ==> forall|i: int| 0 <= i < s.len() ==> is_ws(#[trigger] s[i]),
        trim(s).len() > 0 ==> {
            &&& !is_ws(trim(s)[0])
            &&& !is_ws(trim(s).last())
            &&& exists|a: int|
                {
                    &&& 0 <= a
                    &&& a + trim(s).len() <= s.len()
                    &&& #[trigger] s.subrange(a, a + trim(s).len()) == trim(s)
                    &&& forall|i: int| 0 <= i < a ==> is_ws(#[trigger] s[i])
                    &&& forall|i: int| a + trim(s).len() <= i < s.len() ==> is_ws(#[trigger] s[i])
                }
        },
{
    let a = skip_ws(s, 0);
    let b = trim_back(s, s.len() as int);
    lemma_skip_ws(s, 0);
    lemma_trim_back_ws(s, s.len() as int);
    if a < b {
        let t = trim(s);
        assert(t[0] == s[a]);
        assert(t.last() == s[b - 1]);
        assert(s.subrange(a, a + t.len()) == t);
    } else {
        assert forall|i: int| 0 <= i < s.len() implies is_ws(#[trigger] s[i]) by {
            if i >= a {
                assert(b <= i);
            }
        }
    }
}

/// `trim_back` stays within `0..=j`, stops after a non-whitespace
/// character, and passes over whitespace only.
pub proof fn lemma_trim_back_ws(s: Seq<char>, j: int)
    requires
        0 <= j <= s.len(),
    ensures
        0 <= trim_back(s, j) <= j,
        trim_back(s, j) > 0 ==> !is_ws(s[trim_back(s, j) - 1]),
        forall|i: int| trim_back(s, j) <= i < j ==> is_ws(#[trigger] s[i]),
    decreases j,
{
    if 0 < j && is_ws(s[j - 1]) {
        lemma_trim_back_ws(s, j - 1);
    }
}

/// The decimal digit `d` (for `d < 10`).
pub open spec fn digit_char(d: nat) -> char {
    if d == 0 {
        '0'
    } else if d == 1 {
        '1'
    } else if d == 2 {
        '2'
    } else if d == 3 {
        '3'
    } else if d == 4 {
        '4'
    } else if d == 5 {
        '5'
    } else if d == 6 {
        '6'
    } else if d == 7 {
        '7'
    } else if d == 8 {
        '8'
    } else {
        '9'
    }
}

/// The decimal notation of `n`, as `format!("{}", n)` writes it.
pub open spec fn decimal(n: nat) -> Seq<char>
    decreases n,
{
    if n < 10 {
        seq![digit_char(n)]
    } else {
        decimal(n / 10) + seq![digit_char(n % 10)]
    }
}

/// The characters of `s`, in order.
pub fn chars_of(s: &str) -> (v: Vec<char>)
    ensures
        v@ == s@,
{
    let mut v: Vec<char> = Vec::new();
    for c in it: s.chars()
        invariant
            v@ == it.seq().take(it.index()),
            it.seq() == s@,
    {
        v.push(c);
    }
    v
}

/// Whether `c` is Unicode whitespace.
pub fn is_whitespace(c: char) -> (b: bool)
    ensures
        b == is_ws(c),
{
    ('\u{9}' <= c && c <= '\u{D}') || c == ' ' || c == '\u{85}' || c == '\u{A0}' || c == '\u{1680}'
        || ('\u{2000}' <= c && c <= '\u{200A}') || c == '\u{2028}' || c == '\u{2029}' || c
        == '\u{202F}' || c == '\u{205F}' || c == '\u{3000}'
}

/// The first index at or after `i` that does not hold whitespace.
pub fn skip_whitespace(s: &Vec<char>, i: usize) -> (k: usize)
    requires
        i <= s.len(),
    ensures
        k == skip_ws(s@, i as int),
        i <= k <= s.len(),
{
    let mut k = i;
    while k < s.len() && is_whitespace(s[k])
        invariant
            i <= k <= s.len(),
            skip_ws(s@, k as int) == skip_ws(s@, i as int),
        decreases s.len() - k,
    {
        k = k + 1;
    }
    k
}

/// The bounds `(a, b)` of `trim(s)` inside `s`: the trimmed text is
/// `s[a..b]` when `a < b`, and empty otherwise.
pub fn trim_bounds(s: &Vec<char>) -> (r: (usize, usize))
    ensures
        r.0 == skip_ws(s@, 0),
        r.1 == trim_back(s@, s@.len() as int),
        r.0 <= s.len(),
        r.1 <= s.len(),
        trim(s@) == (if r.0 < r.1 { s@.subrange(r.0 as int, r.1 as int) } else { Seq::empty() }),
{
    let a = skip_whitespace(s, 0);
    let mut b = s.len();
    while b > 0 && is_whitespace(s[b - 1])
        invariant
            b <= s.len(),
            trim_back(s@, b as int) == trim_back(s@, s@.len() as int),
        decreases b,
    {
        b = b - 1;
    }
    (a, b)
}

/// Whether `needle` occurs in `hay` at index `k`.
pub fn matches_at_index(hay: &Vec<char>, k: usize, needle: &Vec<char>) -> (b: bool)
    ensures
        b == matches_at(hay@, k as int, needle@),
{
    if k > hay.len() || needle.len() > hay.len() - k {
        return false;
    }
    let mut j: usize = 0;
    while j < needle.len()
        invariant
            k + needle.len() <= hay.len(),
            j <= needle.len(),
            forall|m: int| 0 <= m < j ==> hay@[k + m] == needle@[m],
        decreases needle.len() - j,
    {
        if hay[k + j] != needle[j] {
            assert(hay@.subrange(k as int, k + needle.len())[j as int] != needle@[j as int]);
            return false;
        }
        j = j + 1;
    }
    assert(hay@.subrange(k as int, k + needle.len()) =~= needle@);
    true
}

/// The first index at or after `i` where `needle` occurs in `hay`.
pub fn find_at_or_after(hay: &Vec<char>, needle: &Vec<char>, i: usize) -> (r: Option<usize>)
    ensures
        r matches Some(k) ==> find_from(hay@, needle@, i as int) == Some(k as int),
        r is None ==> find_from(hay@, needle@, i as int) is None,
{
    let mut k = i;
    while k <= hay.len() && needle.len() <= hay.len() - k
        invariant
            i <= k,
            find_from(hay@, needle@, k as int) == find_from(hay@, needle@, i as int),
        decreases hay.len() + 1 - k,
    {
        if matches_at_index(hay, k, needle) {
            return Some(k);
        }
        if needle.len() == 0 {
            assert(hay@.subrange(k as int, k as int) =~= needle@);
        }
        k = k + 1;
    }
    None
}

/// The one-character text of the decimal digit `d`.
fn digit_str(d: usize) -> (s: &'static str)
    requires
        d < 10,
    ensures
        s@ == seq![digit_char(d as nat)],
{
    if d == 0 {
        proof { reveal_strlit("0"); }
        "0"
    } else if d == 1 {
        proof { reveal_strlit("1"); }
        "1"
    } else if d == 2 {
        proof { reveal_strlit("2"); }
        "2"
    } else if d == 3 {
        proof { reveal_strlit("3"); }
        "3"
    } else if d == 4 {
        proof { reveal_strlit("4"); }
        "4"
    } else if d == 5 {
        proof { reveal_strlit("5"); }
        "5"
    } else if d == 6 {
        proof { reveal_strlit("6"); }
        "6"
    } else if d == 7 {
        proof { reveal_strlit("7"); }
        "7"
    } else if d == 8 {
        proof { reveal_strlit("8"); }
        "8"
    } else {
        proof { reveal_strlit("9"); }
        "9"
    }
}

/// Appends the decimal notation of `n` to `out`.
pub fn push_decimal(out: &mut String, n: usize)
    ensures
        final(out)@ == old(out)@ + decimal(n as nat),
    decreases n,
{
    if n >= 10 {
        push_decimal(out, n / 10);
    }
    out.append(digit_str(n % 10));
    assert(decimal(n as nat) == if n < 10 { seq![digit_char(n as nat)] } else {
        decimal((n / 10) as nat) + seq![digit_char((n % 10) as nat)]
    });
}

} // verus!
