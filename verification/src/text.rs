use vstd::prelude::*;

verus! {

/// Appends one character to a string (`String::push`).
#[verifier::external_body]
pub(crate) fn push_char(s: &mut String, c: char)
    ensures
        final(s)@ == old(s)@.push(c),
{
    s.push(c);
}

/// Whether two strings hold the same characters.
pub(crate) fn str_eq(a: &str, b: &str) -> (r: bool)
    ensures
        r == (a@ == b@),
{
    let x = chars_of(a);
    let y = chars_of(b);
    if x.len() != y.len() {
        return false;
    }
    let mut i: usize = 0;
    while i < x.len()
        invariant
            i <= x@.len(),
            x@.len() == y@.len(),
            x@ == a@,
            y@ == b@,
            forall|t: int| 0 <= t < i ==> x@[t] == y@[t],
        decreases x@.len() - i,
    {
        if x[i] != y[i] {
            return false;
        }
        i = i + 1;
    }
    assert(x@ =~= y@);
    true
}

/// The characters of `s`, in order.
pub fn chars_of(s: &str) -> (r: Vec<char>)
    ensures
        r@ == s@,
{
    let mut r: Vec<char> = Vec::new();
    for c in it: s.chars()
        invariant
            it.seq() == s@,
            r@ == it.seq().take(it.index() as int),
    {
        r.push(c);
    }
    r
}

/// The decimal digit character for `d` (which is below ten).
pub open spec fn digit_char(d: nat) -> char {
    ((d + 48) as u8) as char
}

/// The decimal representation of `n`, without leading zeros.
pub open spec fn decimal(n: nat) -> Seq<char>
    decreases n,
{
    if n < 10 {
        seq![digit_char(n)]
    } else {
        decimal(n / 10).push(digit_char(n % 10))
    }
}

/// Appends the decimal representation of `n` to `out`.
pub fn push_decimal(out: &mut String, n: u128)
    ensures
        final(out)@ == old(out)@ + decimal(n as nat),
    decreases n,
{
    if n >= 10 {
        push_decimal(out, n / 10);
    }
    let d: u8 = (n % 10) as u8;
    push_char(out, (d + 48) as char);
}

/// The string made of `cs[lo..hi]`.
pub fn string_of(cs: &Vec<char>, lo: usize, hi: usize) -> (r: String)
    requires
        lo <= hi <= cs@.len(),
    ensures
        r@ == cs@.subrange(lo as int, hi as int),
{
    let mut r = String::new();
    let mut k = lo;
    while k < hi
        invariant
            lo <= k <= hi <= cs@.len(),
            r@ == cs@.subrange(lo as int, k as int),
        decreases hi - k,
    {
        push_char(&mut r, cs[k]);
        assert(cs@.subrange(lo as int, k + 1) =~= cs@.subrange(lo as int, k as int).push(cs@[k as int]));
        k = k + 1;
    }
    r
}

/// The index of the first occurrence of `c` in `s`, if any.
pub open spec fn first_index_of(s: Seq<char>, c: char) -> Option<int> {
    if exists|k: int| 0 <= k < s.len() && s[k] == c {
        Some(choose|k: int| 0 <= k < s.len() && s[k] == c && forall|t: int| 0 <= t < k ==> s[t] != c)
    } else {
        None
    }
}

/// Finds the first occurrence of `c` in `cs`.
pub fn find_char(cs: &Vec<char>, c: char) -> (r: Option<usize>)
    ensures
        match r {
            Some(k) => k < cs@.len() && cs@[k as int] == c && forall|t: int| 0 <= t < k ==> cs@[t] != c,
            None => forall|t: int| 0 <= t < cs@.len() ==> cs@[t] != c,
        },
        r matches Some(k) ==> first_index_of(cs@, c) == Some(k as int),
        r is None ==> first_index_of(cs@, c) is None,
{
    let mut k: usize = 0;
    while k < cs.len()
        invariant
            k <= cs@.len(),
            forall|t: int| 0 <= t < k ==> cs@[t] != c,
        decreases cs@.len() - k,
    {
        if cs[k] == c {
            proof {
                let j = choose|j: int| 0 <= j < cs@.len() && cs@[j] == c && forall|t: int| 0 <= t < j ==> cs@[t] != c;
                assert(j == k as int) by {
                    if j < k as int {
                    } else if j > k as int {
                        assert(cs@[k as int] == c);
                    }
                }
            }
            return Some(k);
        }
        k = k + 1;
    }
    None
}

/// Characters with the Unicode `White_Space` property, which `char::is_whitespace`
/// and `str::trim` go by.
pub open spec fn is_whitespace(c: char) -> bool {
    ('\t' <= c && c <= '\r') || c == ' ' || c == '\u{85}' || c == '\u{a0}' || c == '\u{1680}' || (
    '\u{2000}' <= c && c <= '\u{200a}') || c == '\u{2028}' || c == '\u{2029}' || c == '\u{202f}'
        || c == '\u{205f}' || c == '\u{3000}'
}

/// Whether `c` is white space in the sense of `is_whitespace`.
pub fn whitespace(c: char) -> (r: bool)
    ensures
        r == is_whitespace(c),
{
    ('\t' <= c && c <= '\r') || c == ' ' || c == '\u{85}' || c == '\u{a0}' || c == '\u{1680}' || (
    '\u{2000}' <= c && c <= '\u{200a}') || c == '\u{2028}' || c == '\u{2029}' || c == '\u{202f}'
        || c == '\u{205f}' || c == '\u{3000}'
}

/// `s` without its leading white space.
pub open spec fn trim_start(s: Seq<char>) -> Seq<char>
    decreases s.len(),
{
    if s.len() > 0 && is_whitespace(s[0]) {
        trim_start(s.subrange(1, s.len() as int))
    } else {
        s
    }
}

/// `s` without its trailing white space.
pub open spec fn trim_end(s: Seq<char>) -> Seq<char>
    decreases s.len(),
{
    if s.len() > 0 && is_whitespace(s.last()) {
        trim_end(s.drop_last())
    } else {
        s
    }
}

/// `s` without white space at either end, as `str::trim` gives it.
pub open spec fn trim(s: Seq<char>) -> Seq<char> {
    trim_end(trim_start(s))
}

/// The bounds of `cs[lo..hi]` once trimmed.
pub fn trim_range(cs: &Vec<char>, lo: usize, hi: usize) -> (r: (usize, usize))
    requires
        lo <= hi <= cs@.len(),
    ensures
        lo <= r.0 <= r.1 <= hi,
        cs@.subrange(r.0 as int, r.1 as int) == trim(cs@.subrange(lo as int, hi as int)),
{
    let mut a = lo;
    while a < hi && whitespace(cs[a])
        invariant
            lo <= a <= hi <= cs@.len(),
            trim_start(cs@.subrange(lo as int, hi as int)) == trim_start(
                cs@.subrange(a as int, hi as int),
            ),
        decreases hi - a,
    {
        assert(cs@.subrange(a as int, hi as int).subrange(1, (hi - a) as int) =~= cs@.subrange(
            a + 1,
            hi as int,
        ));
        a = a + 1;
    }
    let mut b = hi;
    while b > a && whitespace(cs[b - 1])
        invariant
            lo <= a <= b <= hi <= cs@.len(),
            trim_start(cs@.subrange(lo as int, hi as int)) == cs@.subrange(a as int, hi as int),
            trim(cs@.subrange(lo as int, hi as int)) == trim_end(cs@.subrange(a as int, b as int)),
        decreases b - a,
    {
        assert(cs@.subrange(a as int, b as int).drop_last() =~= cs@.subrange(a as int, b - 1));
        b = b - 1;
    }
    (a, b)
}

/// `str::trim`.
pub fn trimmed(s: &str) -> (r: String)
    ensures
        r@ == trim(s@),
{
    let cs = chars_of(s);
    let n = cs.len();
    let (a, b) = trim_range(&cs, 0, n);
    assert(cs@.subrange(0, n as int) =~= s@);
    string_of(&cs, a, b)
}

proof fn lemma_first_index_is(s: Seq<char>, c: char, k: int)
    requires
        0 <= k < s.len(),
        s[k] == c,
        forall|t: int| 0 <= t < k ==> s[t] != c,
    ensures
        first_index_of(s, c) == Some(k),
{
    let j = choose|j: int| 0 <= j < s.len() && s[j] == c && forall|t: int| 0 <= t < j ==> s[t] != c;
    assert(j == k) by {
        if j < k {
        } else if j > k {
            assert(s[k] == c);
        }
    }
}

/// The index of the last occurrence of `c` in `s`, if any.
pub open spec fn last_index_of(s: Seq<char>, c: char) -> Option<int> {
    if exists|k: int| 0 <= k < s.len() && s[k] == c {
        Some(choose|k: int| 0 <= k < s.len() && s[k] == c && forall|t: int| k < t < s.len() ==> s[t] != c)
    } else {
        None
    }
}

/// Finds the last occurrence of `c` in `cs`.
pub fn rfind_char(cs: &Vec<char>, c: char) -> (r: Option<usize>)
    ensures
        match r {
            Some(k) => k < cs@.len() && last_index_of(cs@, c) == Some(k as int),
            None => last_index_of(cs@, c) is None,
        },
{
    let mut k: usize = cs.len();
    while k > 0
        invariant
            k <= cs@.len(),
            forall|t: int| k <= t < cs@.len() ==> cs@[t] != c,
        decreases k,
    {
        if cs[k - 1] == c {
            proof {
                let i = (k - 1) as int;
                let j = choose|j: int| 0 <= j < cs@.len() && cs@[j] == c && forall|t: int| j < t < cs@.len() ==> cs@[t] != c;
                assert(j == i) by {
                    if j > i {
                    } else if j < i {
                        assert(cs@[i] == c);
                    }
                }
            }
            return Some(k - 1);
        }
        k = k - 1;
    }
    None
}

/// Whether `c` occurs in `s`.
pub fn contains_char(s: &str, c: char) -> (r: bool)
    ensures
        r == s@.contains(c),
{
    let cs = chars_of(s);
    match find_char(&cs, c) {
        Some(k) => {
            assert(s@[k as int] == c);
            true
        },
        None => false,
    }
}

/// `s` split at every `sep`, as `str::split` gives it: one more piece than
/// there are separators, empty pieces included.
#[verifier::opaque]
pub open spec fn split_pieces(s: Seq<char>, sep: char) -> Seq<Seq<char>>
    decreases s.len(),
{
    match first_index_of(s, sep) {
        Some(k) => if 0 <= k < s.len() {
            seq![s.take(k)] + split_pieces(s.skip(k + 1), sep)
        } else {
            seq![s]
        },
        None => seq![s],
    }
}

/// Splitting at a first separator at `k` gives the text before it, then the
/// pieces of the rest.
pub proof fn lemma_split_at_first(s: Seq<char>, sep: char, k: int)
    requires
        0 <= k < s.len(),
        s[k] == sep,
        forall|t: int| 0 <= t < k ==> s[t] != sep,
    ensures
        split_pieces(s, sep) == seq![s.take(k)] + split_pieces(s.skip(k + 1), sep),
{
    lemma_first_index_is(s, sep, k);
    reveal(split_pieces);
}

/// Text without the separator is one piece.
pub proof fn lemma_split_none(s: Seq<char>, sep: char)
    requires
        forall|t: int| 0 <= t < s.len() ==> s[t] != sep,
    ensures
        split_pieces(s, sep) == seq![s],
{
    reveal(split_pieces);
}

/// `p` occurs in `s` starting at index `k`.
pub open spec fn occurs_at(s: Seq<char>, p: Seq<char>, k: int) -> bool {
    0 <= k && k + p.len() <= s.len() && s.subrange(k, k + p.len()) == p
}

/// Where the last occurrence of `p` in `s` starts, if `p` occurs in `s`.
pub open spec fn last_occurrence(s: Seq<char>, p: Seq<char>) -> Option<int> {
    if exists|k: int| occurs_at(s, p, k) {
        Some(choose|k: int| occurs_at(s, p, k) && forall|t: int| k < t ==> !occurs_at(s, p, t))
    } else {
        None
    }
}

/// `s` begins with `p`.
pub open spec fn starts_with(s: Seq<char>, p: Seq<char>) -> bool {
    p.len() <= s.len() && s.take(p.len() as int) == p
}

/// Whether `pat` occurs in `cs` at index `k`.
fn matches_at(cs: &Vec<char>, pat: &Vec<char>, k: usize) -> (r: bool)
    requires
        k + pat@.len() <= cs@.len(),
    ensures
        r == occurs_at(cs@, pat@, k as int),
{
    let n = cs.len();
    let mut i: usize = 0;
    while i < pat.len()
        invariant
            i <= pat@.len(),
            n == cs@.len(),
            k + pat@.len() <= cs@.len(),
            forall|t: int| 0 <= t < i ==> cs@[k + t] == pat@[t],
        decreases pat@.len() - i,
    {
        if cs[k + i] != pat[i] {
            assert(cs@.subrange(k as int, k + pat@.len())[i as int] != pat@[i as int]);
            return false;
        }
        i = i + 1;
    }
    assert(cs@.subrange(k as int, k + pat@.len()) =~= pat@);
    true
}

/// Finds the last occurrence of `pat` in `cs`.
pub fn rfind_pattern(cs: &Vec<char>, pat: &Vec<char>) -> (r: Option<usize>)
    ensures
        match r {
            Some(k) => k + pat@.len() <= cs@.len() && last_occurrence(cs@, pat@) == Some(k as int),
            None => last_occurrence(cs@, pat@) is None,
        },
{
    let n = cs.len();
    let m = pat.len();
    if m > n {
        assert(forall|t: int| !occurs_at(cs@, pat@, t));
        return None;
    }
    let mut k: usize = n - m;
    loop
        invariant
            k <= n - m,
            n == cs@.len(),
            m == pat@.len(),
            m <= n,
            forall|t: int| k < t ==> !occurs_at(cs@, pat@, t),
        decreases k,
    {
        if matches_at(cs, pat, k) {
            proof {
                let i = k as int;
                let j = choose|j: int| occurs_at(cs@, pat@, j) && forall|t: int| j < t ==> !occurs_at(cs@, pat@, t);
                assert(j == i) by {
                    if j > i {
                    } else if j < i {
                        assert(occurs_at(cs@, pat@, i));
                    }
                }
            }
            return Some(k);
        }
        if k == 0 {
            assert(forall|t: int| !occurs_at(cs@, pat@, t));
            return None;
        }
        k = k - 1;
    }
}

/// Whether `cs` begins with `pat`.
pub fn has_prefix(cs: &Vec<char>, pat: &Vec<char>) -> (r: bool)
    ensures
        r == starts_with(cs@, pat@),
{
    if pat.len() > cs.len() {
        return false;
    }
    let r = matches_at(cs, pat, 0);
    assert(cs@.subrange(0, pat@.len() as int) =~= cs@.take(pat@.len() as int));
    r
}

} // verus!
