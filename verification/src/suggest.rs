use vstd::prelude::*;

use crate::text::chars_of;

verus! {

/// The price of turning character `a[i]` into character `b[j]`.
pub open spec fn substitution_cost(a: Seq<char>, b: Seq<char>, i: int, j: int) -> nat {
    if a[i] == b[j] { 0 } else { 1 }
}

/// The least of three numbers.
pub open spec fn min3(x: nat, y: nat, z: nat) -> nat {
    if x <= y && x <= z { x } else if y <= z { y } else { z }
}

/// Edit distance between the first `i` characters of `a` and the first `j`
/// characters of `b`: insertions, deletions and substitutions cost one each.
pub open spec fn prefix_distance(a: Seq<char>, b: Seq<char>, i: nat, j: nat) -> nat
    decreases i + j,
{
    if i == 0 {
        j
    } else if j == 0 {
        i
    } else {
        min3(
            prefix_distance(a, b, (i - 1) as nat, j) + 1,
            prefix_distance(a, b, i, (j - 1) as nat) + 1,
            prefix_distance(a, b, (i - 1) as nat, (j - 1) as nat) + substitution_cost(
                a,
                b,
                i - 1,
                j - 1,
            ),
        )
    }
}

/// The Levenshtein distance between two character sequences.
pub open spec fn edit_distance(a: Seq<char>, b: Seq<char>) -> nat {
    prefix_distance(a, b, a.len(), b.len())
}

proof fn lemma_prefix_distance_bounded(a: Seq<char>, b: Seq<char>, i: nat, j: nat)
    ensures
        prefix_distance(a, b, i, j) <= if i >= j { i } else { j },
    decreases i + j,
{
    if i > 0 && j > 0 {
        lemma_prefix_distance_bounded(a, b, (i - 1) as nat, (j - 1) as nat);
    }
}

proof fn lemma_prefix_distance_symmetric(a: Seq<char>, b: Seq<char>, i: nat, j: nat)
    ensures
        prefix_distance(a, b, i, j) == prefix_distance(b, a, j, i),
    decreases i + j,
{
    if i > 0 && j > 0 {
        lemma_prefix_distance_symmetric(a, b, (i - 1) as nat, j);
        lemma_prefix_distance_symmetric(a, b, i, (j - 1) as nat);
        lemma_prefix_distance_symmetric(a, b, (i - 1) as nat, (j - 1) as nat);
    }
}

proof fn lemma_prefix_distance_self(a: Seq<char>, i: nat)
    ensures
        prefix_distance(a, a, i, i) == 0,
    decreases i,
{
    if i > 0 {
        lemma_prefix_distance_self(a, (i - 1) as nat);
    }
}

proof fn lemma_prefix_distance_at_least_gap(a: Seq<char>, b: Seq<char>, i: nat, j: nat)
    ensures
        prefix_distance(a, b, i, j) >= if i >= j { i - j } else { j - i },
    decreases i + j,
{
    if i > 0 && j > 0 {
        lemma_prefix_distance_at_least_gap(a, b, (i - 1) as nat, j);
        lemma_prefix_distance_at_least_gap(a, b, i, (j - 1) as nat);
        lemma_prefix_distance_at_least_gap(a, b, (i - 1) as nat, (j - 1) as nat);
    }
}

proof fn lemma_prefix_distance_zero(a: Seq<char>, b: Seq<char>, i: nat, j: nat)
    requires
        i <= a.len(),
        j <= b.len(),
        prefix_distance(a, b, i, j) == 0,
    ensures
        i == j,
        a.take(i as int) == b.take(j as int),
    decreases i + j,
{
    if i > 0 && j > 0 {
        lemma_prefix_distance_zero(a, b, (i - 1) as nat, (j - 1) as nat);
        assert(a.take(i as int) =~= a.take(i - 1).push(a[i - 1]));
        assert(b.take(j as int) =~= b.take(j - 1).push(b[j - 1]));
    } else {
        assert(a.take(0) =~= b.take(0));
    }
}

/// The distance is a metric-like measure: a string is at distance zero from
/// itself, the distance does not depend on the order of the arguments, and it
/// lies between the difference of the lengths and the longer length; it is
/// zero exactly for equal strings.
pub proof fn law_edit_distance_bounds(a: Seq<char>, b: Seq<char>)
    ensures
        edit_distance(a, a) == 0,
        edit_distance(a, b) == edit_distance(b, a),
        edit_distance(a, b) <= if a.len() >= b.len() { a.len() } else { b.len() },
        edit_distance(a, b) >= if a.len() >= b.len() { a.len() - b.len() } else { b.len() - a.len() },
        edit_distance(a, Seq::empty()) == a.len(),
        edit_distance(a, b) == 0 <==> a == b,
{
    if edit_distance(a, b) == 0 {
        lemma_prefix_distance_zero(a, b, a.len(), b.len());
        assert(a.take(a.len() as int) =~= a);
        assert(b.take(b.len() as int) =~= b);
    }
    lemma_prefix_distance_self(a, a.len());
    lemma_prefix_distance_symmetric(a, b, a.len(), b.len());
    lemma_prefix_distance_bounded(a, b, a.len(), b.len());
    lemma_prefix_distance_at_least_gap(a, b, a.len(), b.len());
}

/// Levenshtein distance between `a` and `b`, counted in characters.
pub fn levenshtein(a: &str, b: &str) -> (d: usize)
    requires
        a@.len() < usize::MAX,
        b@.len() < usize::MAX,
    ensures
        d == edit_distance(a@, b@),
{
    let a = chars_of(a);
    let b = chars_of(b);
    let m = a.len();
    let n = b.len();
    if m == 0 {
        return n;
    }
    if n == 0 {
        return m;
    }
    let ghost sa = a@;
    let ghost sb = b@;
    let mut prev: Vec<usize> = Vec::new();
    let mut curr: Vec<usize> = Vec::new();
    let mut k: usize = 0;
    while k <= n
        invariant
            k <= n + 1,
            n < usize::MAX,
            prev@.len() == k,
            curr@.len() == k,
            forall|t: int| 0 <= t < k ==> prev@[t] == prefix_distance(sa, sb, 0, t as nat),
        decreases n + 1 - k,
    {
        prev.push(k);
        curr.push(0);
        k = k + 1;
    }
    let mut i: usize = 1;
    while i <= m
        invariant
            1 <= i <= m + 1,
            m == sa.len(),
            n == sb.len(),
            a@ == sa,
            b@ == sb,
            m < usize::MAX,
            n < usize::MAX,
            prev@.len() == n + 1,
            curr@.len() == n + 1,
            forall|t: int|
                0 <= t <= n ==> prev@[t] == prefix_distance(sa, sb, (i - 1) as nat, t as nat),
        decreases m + 1 - i,
    {
        curr.set(0, i);
        let mut j: usize = 1;
        while j <= n
            invariant
                1 <= i <= m,
                1 <= j <= n + 1,
                m == sa.len(),
                n == sb.len(),
                a@ == sa,
                b@ == sb,
                m < usize::MAX,
                n < usize::MAX,
                prev@.len() == n + 1,
                curr@.len() == n + 1,
                forall|t: int|
                    0 <= t <= n ==> prev@[t] == prefix_distance(
                        sa,
                        sb,
                        (i - 1) as nat,
                        t as nat,
                    ),
                forall|t: int|
                    0 <= t < j ==> curr@[t] == prefix_distance(sa, sb, i as nat, t as nat),
            decreases n + 1 - j,
        {
            proof {
                lemma_prefix_distance_bounded(sa, sb, (i - 1) as nat, j as nat);
                lemma_prefix_distance_bounded(sa, sb, i as nat, (j - 1) as nat);
                lemma_prefix_distance_bounded(sa, sb, (i - 1) as nat, (j - 1) as nat);
            }
            let cost: usize = if a[i - 1] == b[j - 1] { 0 } else { 1 };
            let deletion = prev[j] + 1;
            let insertion = curr[j - 1] + 1;
            let substitution = prev[j - 1] + cost;
            let best = if deletion <= insertion && deletion <= substitution {
                deletion
            } else if insertion <= substitution {
                insertion
            } else {
                substitution
            };
            curr.set(j, best);
            j = j + 1;
        }
        std::mem::swap(&mut prev, &mut curr);
        i = i + 1;
    }
    prev[n]
}

/// The names of a list of discovered templates, as character sequences.
pub open spec fn template_names(templates: Seq<(String, String)>) -> Seq<Seq<char>> {
    templates.map_values(|t: (String, String)| t.0@)
}

/// Every template name fits the bound that `levenshtein` asks of its inputs.
pub open spec fn names_fit(templates: Seq<(String, String)>) -> bool {
    forall|k: int| 0 <= k < templates.len() ==> (#[trigger] templates[k]).0@.len() < usize::MAX
}

/// The largest distance at which a template is still offered as a suggestion.
pub const MAX_SUGGESTION_DISTANCE: usize = 3;

/// `k` is the first template whose name is nearest to `name`.
pub open spec fn is_first_nearest(name: Seq<char>, names: Seq<Seq<char>>, k: int) -> bool {
    &&& 0 <= k < names.len()
    &&& forall|t: int| 0 <= t < names.len() ==> edit_distance(name, names[k]) <= edit_distance(name, #[trigger] names[t])
    &&& forall|t: int| 0 <= t < k ==> edit_distance(name, names[k]) < edit_distance(name, #[trigger] names[t])
}

/// The template name to suggest for a mistyped `name`: the first of the nearest
/// names, provided it is within `MAX_SUGGESTION_DISTANCE` edits.
pub fn closest_template(name: &str, templates: &[(String, String)]) -> (r: Option<String>)
    requires
        name@.len() < usize::MAX,
        names_fit(templates@),
    ensures
        match r {
            Some(s) => exists|k: int|
                #![trigger template_names(templates@)[k]]
                is_first_nearest(name@, template_names(templates@), k) && s@ == template_names(templates@)[k]
                    && edit_distance(name@, s@) <= MAX_SUGGESTION_DISTANCE,
            None => forall|k: int|
                0 <= k < templates@.len() ==> edit_distance(name@, #[trigger] template_names(templates@)[k])
                    > MAX_SUGGESTION_DISTANCE,
        },
{
    let ghost names = template_names(templates@);
    let mut best: Option<(usize, usize)> = None;
    let mut k: usize = 0;
    while k < templates.len()
        invariant
            k <= templates@.len(),
            names == template_names(templates@),
            names_fit(templates@),
            name@.len() < usize::MAX,
            match best {
                None => k == 0,
                Some((b, d)) => {
                    &&& b < k
                    &&& d == edit_distance(name@, names[b as int])
                    &&& forall|t: int| 0 <= t < k ==> d <= edit_distance(name@, #[trigger] names[t])
                    &&& forall|t: int| 0 <= t < b ==> d < edit_distance(name@, #[trigger] names[t])
                },
            },
        decreases templates@.len() - k,
    {
        assert(templates@[k as int].0@.len() < usize::MAX);
        assert(names[k as int] == templates@[k as int].0@);
        let d = levenshtein(name, templates[k].0.as_str());
        match best {
            None => {
                best = Some((k, d));
            },
            Some((_, bd)) => {
                if d < bd {
                    best = Some((k, d));
                }
            },
        }
        k = k + 1;
    }
    match best {
        None => None,
        Some((b, d)) => {
            if d <= MAX_SUGGESTION_DISTANCE {
                assert(is_first_nearest(name@, names, b as int));
                Some(templates[b].0.clone())
            } else {
                None
            }
        },
    }
}

} // verus!
