use vstd::prelude::*;

use crate::text::{chars_of, find_char, first_index_of, string_of};

verus! {

/// What `parse_key_value` gives for `s`: the text before the first `=` and the
/// text after it, or an error that quotes `s` when it holds no `=`.
pub open spec fn key_value_split(s: Seq<char>) -> Result<(Seq<char>, Seq<char>), Seq<char>> {
    match first_index_of(s, '=') {
        Some(k) => Ok((s.take(k), s.skip(k + 1))),
        None => Err("invalid KEY=VALUE: no '=' found in '"@ + s + "'"@),
    }
}

/// Parses a `KEY=VALUE` override given on the command line.
pub fn parse_key_value(s: &str) -> (r: Result<(String, String), String>)
    ensures
        match r {
            Ok((k, v)) => key_value_split(s@) == Ok::<(Seq<char>, Seq<char>), Seq<char>>((k@, v@)),
            Err(e) => key_value_split(s@) == Err::<(Seq<char>, Seq<char>), Seq<char>>(e@),
        },
{
    let cs = chars_of(s);
    let n = cs.len();
    match find_char(&cs, '=') {
        Some(pos) => {
            let key = string_of(&cs, 0, pos);
            let value = string_of(&cs, pos + 1, n);
            assert(key@ =~= s@.take(pos as int));
            assert(value@ =~= s@.skip(pos + 1));
            Ok((key, value))
        },
        None => {
            let mut e = String::from_str("invalid KEY=VALUE: no '=' found in '");
            e.append(s);
            e.append("'");
            Err(e)
        },
    }
}

/// Some occurrence of `c` at or before `k` comes before every other.
proof fn lemma_first_occurrence(s: Seq<char>, c: char, k: int) -> (j: int)
    requires
        0 <= k < s.len(),
        s[k] == c,
    ensures
        0 <= j <= k,
        s[j] == c,
        forall|t: int| 0 <= t < j ==> s[t] != c,
    decreases k,
{
    if exists|t: int| 0 <= t < k && s[t] == c {
        let t = choose|t: int| 0 <= t < k && s[t] == c;
        lemma_first_occurrence(s, c, t)
    } else {
        k
    }
}

/// The first `=` in `s` is where `first_index_of` finds it.
proof fn lemma_first_equals(s: Seq<char>) -> (j: int)
    requires
        s.contains('='),
    ensures
        first_index_of(s, '=') == Some(j),
        0 <= j < s.len(),
        s[j] == '=',
        forall|t: int| 0 <= t < j ==> s[t] != '=',
{
    let w = choose|w: int| 0 <= w < s.len() && s[w] == '=';
    let m = lemma_first_occurrence(s, '=', w);
    let j = choose|j: int| 0 <= j < s.len() && s[j] == '=' && forall|t: int| 0 <= t < j ==> s[t] != '=';
    assert(j == m) by {
        if j < m {
        } else if j > m {
            assert(s[m] == '=');
        }
    }
    j
}

/// A `KEY=VALUE` override splits at its first `=`: the key holds no `=`, and
/// key, `=` and value put back together give the argument; it is refused
/// exactly when it holds no `=`.
pub proof fn law_key_value_split(s: Seq<char>)
    ensures
        key_value_split(s) matches Ok((k, v)) ==> !k.contains('=') && k + seq!['='] + v == s,
        key_value_split(s) is Err <==> !s.contains('='),
{
    if s.contains('=') {
        let j = lemma_first_equals(s);
        let key = s.take(j);
        assert forall|t: int| 0 <= t < key.len() implies key[t] != '=' by {
            assert(key[t] == s[t]);
        }
        assert(key + seq!['='] + s.skip(j + 1) =~= s);
    } else {
        assert(!(exists|k: int| 0 <= k < s.len() && s[k] == '=')) by {
            if exists|k: int| 0 <= k < s.len() && s[k] == '=' {
                let k = choose|k: int| 0 <= k < s.len() && s[k] == '=';
                assert(s.contains('='));
            }
        }
    }
}

} // verus!
