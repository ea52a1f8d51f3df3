use vstd::prelude::*;
use vstd::utf8::encode_utf8;

use crate::curl::{law_sort_by_name, names_sorted, pair_views, sort_by_name, sorted_by_name};
use crate::response::lines_text;
use crate::style::{accent, bold, dim, red, show, Paint};
use crate::suggest::{closest_template, edit_distance, is_first_nearest, names_fit, template_names, MAX_SUGGESTION_DISTANCE};
use crate::template::Template;
use crate::text::{chars_of, has_prefix, push_char, starts_with, str_eq};

verus! {

/// Whether `std::path::Path` compares the paths `a` and `b` equal (by their
/// components).
pub uninterp spec fn same_path(a: Seq<char>, b: Seq<char>) -> bool;

/// `<Path as PartialEq>::eq` on the paths written `a` and `b`. Trusted: the
/// answer is taken to depend on the two texts alone, and is named
/// `same_path`.
#[verifier::external_body]
fn paths_equal(a: &str, b: &str) -> (r: bool)
    ensures
        r == same_path(a@, b@),
{
    std::path::Path::new(a) == std::path::Path::new(b)
}

/// `s` without each entry whose path equals that of the entry kept before it
/// (as `Vec::dedup_by` removes consecutive duplicates).
pub open spec fn dedup_paths(s: Seq<(Seq<char>, Seq<char>)>) -> Seq<(Seq<char>, Seq<char>)>
    decreases s.len(),
{
    if s.len() == 0 {
        Seq::empty()
    } else {
        let kept = dedup_paths(s.drop_last());
        if kept.len() > 0 && same_path(s.last().1, kept.last().1) {
            kept
        } else {
            kept.push(s.last())
        }
    }
}

/// Orders discovered templates, given as (name, path) pairs: sorted by name,
/// and an entry dropped where its path is the same as the one kept before it.
pub fn order_templates(found: &Vec<(String, String)>) -> (r: Vec<(String, String)>)
    ensures
        pair_views(r@) == dedup_paths(sort_by_name(pair_views(found@))),
{
    let sorted = sorted_by_name(found);
    let ghost all = pair_views(sorted@);
    let mut kept: Vec<(String, String)> = Vec::new();
    let mut i: usize = 0;
    while i < sorted.len()
        invariant
            i <= sorted@.len(),
            all == pair_views(sorted@),
            pair_views(kept@) == dedup_paths(all.take(i as int)),
        decreases sorted@.len() - i,
    {
        assert(all.take(i + 1).drop_last() =~= all.take(i as int));
        assert(all.take(i + 1).last() == (sorted@[i as int].0@, sorted@[i as int].1@));
        let n = kept.len();
        let duplicate = n > 0 && paths_equal(sorted[i].1.as_str(), kept[n - 1].1.as_str());
        if !duplicate {
            let ghost prev = kept@;
            kept.push((sorted[i].0.clone(), sorted[i].1.clone()));
            assert(pair_views(kept@) =~= pair_views(prev).push(all[i as int]));
        }
        i = i + 1;
    }
    assert(all.take(sorted@.len() as int) =~= all);
    kept
}

/// Where a template name leads.
pub enum TemplateLookup {
    /// The path of the template of that name.
    Found(String),
    /// No template has that name; this one is close to it.
    Suggestion(String),
    /// No template has that name or one close to it.
    NotFound,
}

/// `k` is the first template named `name`.
pub open spec fn is_first_named(templates: Seq<(String, String)>, name: Seq<char>, k: int) -> bool {
    &&& 0 <= k < templates.len()
    &&& templates[k].0@ == name
    &&& forall|t: int| 0 <= t < k ==> (#[trigger] templates[t]).0@ != name
}

/// Looks a template up by name; where none has the name, suggests the nearest
/// one within `MAX_SUGGESTION_DISTANCE` edits.
pub fn locate_template(name: &str, templates: &Vec<(String, String)>) -> (r: TemplateLookup)
    requires
        name@.len() < usize::MAX,
        names_fit(templates@),
    ensures
        match r {
            TemplateLookup::Found(path) => exists|k: int|
                is_first_named(templates@, name@, k) && #[trigger] templates@[k].1@ == path@,
            TemplateLookup::Suggestion(s) => (forall|k: int|
                0 <= k < templates@.len() ==> (#[trigger] templates@[k]).0@ != name@) && exists|k: int|
                #![trigger template_names(templates@)[k]]
                is_first_nearest(name@, template_names(templates@), k) && s@ == template_names(
                    templates@,
                )[k] && edit_distance(name@, s@) <= MAX_SUGGESTION_DISTANCE,
            TemplateLookup::NotFound => (forall|k: int|
                0 <= k < templates@.len() ==> (#[trigger] templates@[k]).0@ != name@) && forall|k: int|
                0 <= k < templates@.len() ==> edit_distance(
                    name@,
                    #[trigger] template_names(templates@)[k],
                ) > MAX_SUGGESTION_DISTANCE,
        },
{
    let mut i: usize = 0;
    while i < templates.len()
        invariant
            i <= templates@.len(),
            forall|t: int| 0 <= t < i ==> (#[trigger] templates@[t]).0@ != name@,
        decreases templates@.len() - i,
    {
        if str_eq(templates[i].0.as_str(), name) {
            assert(is_first_named(templates@, name@, i as int));
            let path = templates[i].1.clone();
            assert(templates@[i as int].1@ == path@);
            return TemplateLookup::Found(path);
        }
        i = i + 1;
    }
    match closest_template(name, templates.as_slice()) {
        Some(s) => TemplateLookup::Suggestion(s),
        None => TemplateLookup::NotFound,
    }
}

/// What a template is listed with: its description, else its name, else
/// nothing.
pub fn template_summary(t: &Template) -> (r: String)
    ensures
        r@ == if t.description@.len() > 0 {
            t.description@
        } else if t.name@.len() > 0 {
            t.name@
        } else {
            Seq::empty()
        },
{
    if !t.description.as_str().is_empty() {
        t.description.clone()
    } else if !t.name.as_str().is_empty() {
        t.name.clone()
    } else {
        String::new()
    }
}

/// The length of `s` in UTF-8 bytes, as `str::len` counts it.
pub open spec fn byte_len(s: Seq<char>) -> usize {
    encode_utf8(s).len() as usize
}

/// The widest of the first components of `entries`, in bytes (0 for none).
pub open spec fn widest(entries: Seq<(Seq<char>, Seq<char>)>) -> nat
    decreases entries.len(),
{
    if entries.len() == 0 {
        0
    } else {
        let w = widest(entries.drop_last());
        let b = byte_len(entries.last().0);
        if b > w { b as nat } else { w }
    }
}

/// The width of the name column: the byte length of the longest name.
pub fn name_column_width(entries: &Vec<(String, String)>) -> (r: usize)
    ensures
        r == widest(pair_views(entries@)),
{
    let ghost all = pair_views(entries@);
    let mut w: usize = 0;
    let mut i: usize = 0;
    while i < entries.len()
        invariant
            i <= entries@.len(),
            all == pair_views(entries@),
            w == widest(all.take(i as int)),
        decreases entries@.len() - i,
    {
        assert(all.take(i + 1).drop_last() =~= all.take(i as int));
        assert(all.take(i + 1).last().0 == entries@[i as int].0@);
        let b = entries[i].0.as_str().len();
        if b > w {
            w = b;
        }
        i = i + 1;
    }
    assert(all.take(entries@.len() as int) =~= all);
    w
}

/// `n` spaces.
pub open spec fn spaces(n: nat) -> Seq<char>
    decreases n,
{
    if n == 0 {
        Seq::empty()
    } else {
        spaces((n - 1) as nat).push(' ')
    }
}

/// `s` padded with spaces on the right to `width` characters, as `{:<width$}`
/// formats it.
pub open spec fn padded(s: Seq<char>, width: nat) -> Seq<char> {
    if s.len() >= width {
        s
    } else {
        s + spaces((width - s.len()) as nat)
    }
}

/// Pads `s` with spaces on the right to `width` characters.
pub fn pad_right(s: &str, width: usize) -> (r: String)
    ensures
        r@ == padded(s@, width as nat),
{
    let cs = chars_of(s);
    let mut r = String::from_str(s);
    let mut k = cs.len();
    while k < width
        invariant
            cs@ == s@,
            cs@.len() <= k,
            cs@.len() < width ==> k <= width && r@ == s@ + spaces((k - cs@.len()) as nat),
            cs@.len() >= width ==> r@ == s@,
        decreases width - k,
    {
        push_char(&mut r, ' ');
        k = k + 1;
    }
    r
}

/// The listing line of a template: its name, padded, and its summary when
/// there is one.
pub open spec fn listing_text(
    marker: Seq<char>,
    cell: Seq<char>,
    summary: Option<Seq<char>>,
) -> Seq<char> {
    match summary {
        Some(s) => "  "@ + marker + " "@ + cell + "    "@ + s,
        None => "  "@ + marker + " "@ + cell,
    }
}

/// The line that lists the template `name` with `description`, its name
/// padded to `width` characters, painted when `colors` is on.
pub open spec fn listing_line_text(
    name: Seq<char>,
    width: nat,
    description: Seq<char>,
    colors: bool,
) -> Seq<char> {
    listing_text(
        show(Paint::Accent, "❯"@, colors),
        show(Paint::Bold, padded(name, width), colors),
        if description.len() == 0 {
            None
        } else {
            Some(show(Paint::Dim, description, colors))
        },
    )
}

/// The line that lists a template.
pub fn listing_line(name: &str, width: usize, description: &str, colors: bool) -> (r: String)
    ensures
        r@ == listing_line_text(name@, width as nat, description@, colors),
{
    let marker = accent("❯", colors);
    let cell = pad_right(name, width);
    let bold_cell = bold(cell.as_str(), colors);
    let mut r = String::from_str("  ");
    r.append(marker.as_str());
    r.append(" ");
    r.append(bold_cell.as_str());
    if description.is_empty() {
        assert(r@ == listing_text(marker@, bold_cell@, None));
        r
    } else {
        let summary = dim(description, colors);
        r.append("    ");
        r.append(summary.as_str());
        assert(r@ == listing_text(marker@, bold_cell@, Some(summary@)));
        r
    }
}

/// The names among `names` that begin with `prefix`, in order.
pub open spec fn names_with_prefix(names: Seq<Seq<char>>, prefix: Seq<char>) -> Seq<Seq<char>>
    decreases names.len(),
{
    if names.len() == 0 {
        Seq::empty()
    } else {
        let kept = names_with_prefix(names.drop_last(), prefix);
        if starts_with(names.last(), prefix) {
            kept.push(names.last())
        } else {
            kept
        }
    }
}

/// The line that lists a template name among the available ones.
pub open spec fn available_line(name: Seq<char>, colors: bool) -> Seq<char> {
    "      "@ + show(Paint::Accent, "❯"@, colors) + " "@ + name
}

/// The lines that report a template name that matches none: the name, then
/// the suggestion, or else every template name.
pub open spec fn not_found_lines(
    name: Seq<char>,
    suggestion: Option<Seq<char>>,
    names: Seq<Seq<char>>,
    colors: bool,
) -> Seq<Seq<char>> {
    let head = "  "@ + show(Paint::Red, "✗"@, colors) + " template "@ + show(
        Paint::Bold,
        "'"@ + name + "'"@,
        colors,
    ) + " not found"@;
    match suggestion {
        Some(s) => seq![head, "    did you mean "@ + show(Paint::Accent, s, colors) + "?"@],
        None => seq![head, "    available templates:"@] + names.map_values(
            |n: Seq<char>| available_line(n, colors),
        ),
    }
}

/// What is reported when no template is named `name`: the suggestion when
/// there is one, else the list of templates.
pub fn not_found_report(
    name: &str,
    suggestion: Option<&str>,
    templates: &Vec<(String, String)>,
    colors: bool,
) -> (r: String)
    ensures
        r@ == lines_text(
            not_found_lines(
                name@,
                match suggestion {
                    Some(s) => Some(s@),
                    None => None,
                },
                template_names(templates@),
                colors,
            ),
        ),
{
    let cross = red("✗", colors);
    let mut quoted = String::from_str("'");
    quoted.append(name);
    quoted.append("'");
    let subject = bold(quoted.as_str(), colors);
    let mut r = String::from_str("  ");
    r.append(cross.as_str());
    r.append(" template ");
    r.append(subject.as_str());
    r.append(" not found");
    r.append("\n");
    let ghost head = "  "@ + cross@ + " template "@ + subject@ + " not found"@;
    proof {
        assert(seq![head].drop_last() =~= Seq::<Seq<char>>::empty());
        assert(lines_text(Seq::<Seq<char>>::empty()) == Seq::<char>::empty());
        assert(lines_text(seq![head]) =~= head + "\n"@);
        assert(r@ =~= lines_text(seq![head]));
    }
    match suggestion {
        Some(s) => {
            let shown = accent(s, colors);
            r.append("    did you mean ");
            r.append(shown.as_str());
            r.append("?");
            r.append("\n");
            proof {
                let second = "    did you mean "@ + shown@ + "?"@;
                assert(seq![head, second].drop_last() =~= seq![head]);
                assert(r@ =~= lines_text(seq![head]) + second + "\n"@);
            }
            r
        },
        None => {
            r.append("    available templates:");
            r.append("\n");
            let ghost first = seq![head, "    available templates:"@];
            let ghost names = template_names(templates@);
            let ghost rest = names.map_values(|n: Seq<char>| available_line(n, colors));
            proof {
                assert(first.drop_last() =~= seq![head]);
                assert(r@ =~= lines_text(seq![head]) + "    available templates:"@ + "\n"@);
                assert(first + rest.take(0) =~= first);
            }
            let mut i: usize = 0;
            while i < templates.len()
                invariant
                    i <= templates@.len(),
                    names == template_names(templates@),
                    rest == names.map_values(|n: Seq<char>| available_line(n, colors)),
                    r@ == lines_text(first + rest.take(i as int)),
                decreases templates@.len() - i,
            {
                let marker = accent("❯", colors);
                r.append("      ");
                r.append(marker.as_str());
                r.append(" ");
                r.append(templates[i].0.as_str());
                r.append("\n");
                proof {
                    let line = available_line(templates@[i as int].0@, colors);
                    assert(rest[i as int] == line);
                    assert((first + rest.take(i + 1)).drop_last() =~= first + rest.take(i as int));
                    assert((first + rest.take(i + 1)).last() == line);
                }
                i = i + 1;
            }
            assert(rest.take(templates@.len() as int) =~= rest);
            r
        },
    }
}

/// The template names that complete the word `current` typed on the command
/// line.
pub fn complete_names(current: &str, templates: &Vec<(String, String)>) -> (r: Vec<String>)
    ensures
        r@.map_values(|s: String| s@) == names_with_prefix(template_names(templates@), current@),
{
    let ghost names = template_names(templates@);
    let prefix = chars_of(current);
    let mut r: Vec<String> = Vec::new();
    let mut i: usize = 0;
    while i < templates.len()
        invariant
            i <= templates@.len(),
            names == template_names(templates@),
            prefix@ == current@,
            r@.map_values(|s: String| s@) == names_with_prefix(names.take(i as int), current@),
        decreases templates@.len() - i,
    {
        assert(names.take(i + 1).drop_last() =~= names.take(i as int));
        assert(names.take(i + 1).last() == templates@[i as int].0@);
        let name = chars_of(templates[i].0.as_str());
        if has_prefix(&name, &prefix) {
            let ghost prev = r@;
            r.push(templates[i].0.clone());
            assert(r@.map_values(|s: String| s@) =~= prev.map_values(|s: String| s@).push(
                templates@[i as int].0@,
            ));
        }
        i = i + 1;
    }
    assert(names.take(templates@.len() as int) =~= names);
    r
}

proof fn lemma_dedup_paths(s: Seq<(Seq<char>, Seq<char>)>)
    ensures
        forall|k: int| 0 <= k < dedup_paths(s).len() ==> s.contains(#[trigger] dedup_paths(s)[k]),
        forall|k: int|
            0 <= k < dedup_paths(s).len() - 1 ==> !same_path(
                dedup_paths(s)[k + 1].1,
                #[trigger] dedup_paths(s)[k].1,
            ),
        names_sorted(s) ==> names_sorted(dedup_paths(s)),
    decreases s.len(),
{
    if s.len() > 0 {
        let init = s.drop_last();
        lemma_dedup_paths(init);
        let kept = dedup_paths(init);
        assert forall|k: int| 0 <= k < kept.len() implies s.contains(#[trigger] kept[k]) by {
            let t = choose|t: int| 0 <= t < init.len() && init[t] == kept[k];
            assert(s[t] == kept[k]);
        }
        if !(kept.len() > 0 && same_path(s.last().1, kept.last().1)) {
            let d = kept.push(s.last());
            assert(d == dedup_paths(s));
            assert forall|k: int| 0 <= k < d.len() implies s.contains(#[trigger] d[k]) by {
                if k == kept.len() {
                    assert(s[s.len() - 1] == d[k]);
                } else {
                    assert(d[k] == kept[k]);
                }
            }
            assert forall|k: int| 0 <= k < d.len() - 1 implies !same_path(
                d[k + 1].1,
                #[trigger] d[k].1,
            ) by {
                if k + 1 < kept.len() {
                    assert(d[k] == kept[k] && d[k + 1] == kept[k + 1]);
                }
            }
            if names_sorted(s) {
                assert(names_sorted(init));
                assert forall|i: int, j: int| 0 <= i < j < d.len() implies crate::curl::name_le(
                    #[trigger] d[i].0,
                    #[trigger] d[j].0,
                ) by {
                    if j == kept.len() {
                        assert(init.contains(kept[i]));
                        let t = choose|t: int| 0 <= t < init.len() && init[t] == kept[i];
                        assert(s[t] == kept[i]);
                        assert(crate::curl::name_le(s[t].0, s[s.len() - 1].0));
                    } else {
                        assert(d[i] == kept[i] && d[j] == kept[j]);
                    }
                }
            }
        }
    }
}

/// Discovered templates come out sorted by name, each one of those found,
/// and none with the same path as the one before it.
pub proof fn law_templates_ordered(found: Seq<(Seq<char>, Seq<char>)>)
    ensures
        names_sorted(dedup_paths(sort_by_name(found))),
        forall|k: int|
            0 <= k < dedup_paths(sort_by_name(found)).len() ==> found.contains(
                #[trigger] dedup_paths(sort_by_name(found))[k],
            ),
        forall|k: int|
            0 <= k < dedup_paths(sort_by_name(found)).len() - 1 ==> !same_path(
                dedup_paths(sort_by_name(found))[k + 1].1,
                #[trigger] dedup_paths(sort_by_name(found))[k].1,
            ),
{
    broadcast use vstd::seq_lib::group_to_multiset_ensures;

    let sorted = sort_by_name(found);
    law_sort_by_name(found);
    lemma_dedup_paths(sorted);
    let d = dedup_paths(sorted);
    assert forall|k: int| 0 <= k < d.len() implies found.contains(#[trigger] d[k]) by {
        assert(sorted.contains(d[k]));
        assert(sorted.to_multiset().count(d[k]) > 0);
    }
}

/// Completion offers exactly the template names that begin with the typed
/// word, a name equal to the word included, in the order the templates come.
pub proof fn law_completion(names: Seq<Seq<char>>, word: Seq<char>)
    ensures
        forall|k: int|
            0 <= k < names.len() && starts_with(#[trigger] names[k], word) ==> names_with_prefix(
                names,
                word,
            ).contains(names[k]),
        forall|j: int|
            0 <= j < names_with_prefix(names, word).len() ==> starts_with(
                #[trigger] names_with_prefix(names, word)[j],
                word,
            ) && names.contains(names_with_prefix(names, word)[j]),
    decreases names.len(),
{
    if names.len() > 0 {
        let init = names.drop_last();
        law_completion(init, word);
        let kept = names_with_prefix(init, word);
        let r = names_with_prefix(names, word);
        assert forall|k: int|
            0 <= k < names.len() && starts_with(#[trigger] names[k], word) implies r.contains(
            names[k],
        ) by {
            if k < names.len() - 1 {
                assert(init[k] == names[k]);
                assert(kept.contains(names[k]));
                let t = choose|t: int| 0 <= t < kept.len() && kept[t] == names[k];
                if starts_with(names.last(), word) {
                    assert(r[t] == kept[t]);
                }
            } else {
                assert(r[r.len() - 1] == names.last());
            }
        }
        assert forall|j: int| 0 <= j < r.len() implies starts_with(#[trigger] r[j], word)
            && names.contains(r[j]) by {
            if j < kept.len() {
                assert(r[j] == kept[j]);
                assert(init.contains(kept[j]));
                let t = choose|t: int| 0 <= t < init.len() && init[t] == kept[j];
                assert(names[t] == init[t]);
            } else {
                assert(r[j] == names.last());
                assert(names[names.len() - 1] == names.last());
            }
        }
    }
}

} // verus!
