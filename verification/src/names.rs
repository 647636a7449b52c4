//! Why no two assets of a section share a name.
//!
//! An asset name ends with the values of its row, each after a hyphen. Two
//! rows of a section are told apart from the end of their names: the last
//! value in which they differ ends differently in the two names.

use crate::config::{
    asset_names_spec, config_name_spec, hyphenated, lemma_section_rows_differ,
    modifier_values_spec, section_configurations_spec, section_mods_spec, section_value_lists,
    sections_spec, Modifier, Section, SectionType,
};
use crate::product::{cartesian, lemma_cartesian_row};
use crate::text::{lower_char, lowercase, present, text, texts};
use vstd::prelude::*;

verus! {

/// What a value adds to a name: a hyphen and the value in lower case, or
/// nothing where the value is absent.
spec fn piece(value: Option<Seq<char>>) -> Seq<char> {
    match value {
        Some(v) => seq!['-'] + lowercase(v),
        None => Seq::empty(),
    }
}

/// What the values of a row add to a name, one after the other.
spec fn body(values: Seq<Option<Seq<char>>>) -> Seq<char>
    decreases values.len(),
{
    if values.len() == 0 {
        Seq::empty()
    } else {
        body(values.drop_last()) + piece(values.last())
    }
}

/// The character of a text at distance `d` from its end.
spec fn from_end(text: Seq<char>, d: int) -> char {
    text[text.len() - 1 - d]
}

/// Two texts differ at some distance from their ends that both reach.
spec fn end_distinct(first: Seq<char>, second: Seq<char>) -> bool {
    exists|d: int|
        0 <= d < first.len() && d < second.len() && #[trigger] from_end(first, d) != from_end(
            second,
            d,
        )
}

proof fn lemma_lowercase_add(a: Seq<char>, b: Seq<char>)
    ensures
        lowercase(a + b) == lowercase(a) + lowercase(b),
{
    assert(lowercase(a + b) =~= lowercase(a) + lowercase(b));
}

/// The name of a row is the section's name in lower case, then what the
/// values add, or a lone hyphen where no value is present.
proof fn lemma_name_by_body(section_name: Seq<char>, values: Seq<Option<Seq<char>>>)
    ensures
        config_name_spec(section_name, values) == lowercase(section_name) + (if body(values).len()
            == 0 {
            seq!['-']
        } else {
            body(values)
        }),
{
    lemma_hyphen_joined(values);
    let tail = seq!['-'] + hyphenated(present(values));
    assert(section_name + seq!['-'] + hyphenated(present(values)) =~= section_name + tail);
    lemma_lowercase_add(section_name, tail);
    lemma_lowercase_add(seq!['-'], hyphenated(present(values)));
    assert(lowercase(seq!['-']) =~= seq!['-']);
}

/// A hyphen and the lower-case hyphenated values are what the values add,
/// or a lone hyphen where no value is present.
proof fn lemma_hyphen_joined(values: Seq<Option<Seq<char>>>)
    ensures
        (present(values).len() == 0) == (body(values).len() == 0),
        seq!['-'] + lowercase(hyphenated(present(values))) == (if body(values).len() == 0 {
            seq!['-']
        } else {
            body(values)
        }),
    decreases values.len(),
{
    if values.len() == 0 {
        assert(lowercase(hyphenated(present(values))) =~= Seq::empty());
        assert(seq!['-'] + Seq::<char>::empty() =~= seq!['-']);
    } else {
        let head = values.drop_last();
        lemma_hyphen_joined(head);
        match values.last() {
            Some(v) => {
                let parts = present(values);
                assert(parts == present(head).push(v));
                assert(parts.drop_last() =~= present(head));
                assert(parts.last() == v);
                if present(head).len() == 0 {
                    assert(hyphenated(parts) == v);
                    assert(body(head) =~= Seq::empty());
                    assert(body(values) =~= seq!['-'] + lowercase(v));
                } else {
                    assert(hyphenated(parts) == hyphenated(present(head)) + seq!['-'] + v);
                    lemma_lowercase_add(hyphenated(present(head)) + seq!['-'], v);
                    lemma_lowercase_add(hyphenated(present(head)), seq!['-']);
                    assert(lowercase(seq!['-']) =~= seq!['-']);
                    assert(seq!['-'] + lowercase(hyphenated(parts)) =~= (seq!['-'] + lowercase(
                        hyphenated(present(head)),
                    )) + seq!['-'] + lowercase(v));
                    assert(body(values) =~= body(head) + seq!['-'] + lowercase(v));
                }
            },
            None => {
                assert(present(values) == present(head));
                assert(body(values) =~= body(head));
            },
        }
    }
}

/// The last character of a text, in lower case.
spec fn last_low(text: Seq<char>) -> char {
    lower_char(text[text.len() - 1])
}

/// The length and the last character of every value of the catalog.
proof fn lemma_catalog_ends()
    ensures
        "Std"@.len() == 3 && last_low("Std"@) == 'd',
        "Tac"@.len() == 3 && last_low("Tac"@) == 'c',
        "Sqr"@.len() == 3 && last_low("Sqr"@) == 'r',
        "45"@.len() == 2 && last_low("45"@) == '5',
        "9mm"@.len() == 3 && last_low("9mm"@) == 'm',
        "10mm"@.len() == 4 && last_low("10mm"@) == 'm',
        "38"@.len() == 2 && last_low("38"@) == '8',
        "40"@.len() == 2 && last_low("40"@) == '0',
        "Gov"@.len() == 3 && last_low("Gov"@) == 'v',
        "Com"@.len() == 3 && last_low("Com"@) == 'm',
        "Ext"@.len() == 3 && last_low("Ext"@) == 't',
        "Bob"@.len() == 3 && last_low("Bob"@) == 'b',
        "RChk"@.len() == 4 && last_low("RChk"@) == 'k',
        "RChain"@.len() == 6 && last_low("RChain"@) == 'n',
        "FChk"@.len() == 4 && last_low("FChk"@) == 'k',
        "Dual"@.len() == 4 && last_low("Dual"@) == 'l',
        "Tri"@.len() == 3 && last_low("Tri"@) == 'i',
        "Skeleton"@.len() == 8 && last_low("Skeleton"@) == 'n',
        "Novak"@.len() == 5 && last_low("Novak"@) == 'k',
        "Tritium-1"@.len() == 9 && last_low("Tritium-1"@) == '1',
        "Tritium-2"@.len() == 9 && last_low("Tritium-2"@) == '2',
        "Fiber-Optic"@.len() == 11 && last_low("Fiber-Optic"@) == 'c',
        "Smooth"@.len() == 6 && last_low("Smooth"@) == 'h',
        "Checkered"@.len() == 9 && last_low("Checkered"@) == 'd',
        lower_char("9mm"@[0]) == '9' && lower_char("10mm"@[1]) == '0',
{
    reveal_strlit("Std");
    reveal_strlit("Tac");
    reveal_strlit("Sqr");
    reveal_strlit("45");
    reveal_strlit("9mm");
    reveal_strlit("10mm");
    reveal_strlit("38");
    reveal_strlit("40");
    reveal_strlit("Gov");
    reveal_strlit("Com");
    reveal_strlit("Ext");
    reveal_strlit("Bob");
    reveal_strlit("RChk");
    reveal_strlit("RChain");
    reveal_strlit("FChk");
    reveal_strlit("Dual");
    reveal_strlit("Tri");
    reveal_strlit("Skeleton");
    reveal_strlit("Novak");
    reveal_strlit("Tritium-1");
    reveal_strlit("Tritium-2");
    reveal_strlit("Fiber-Optic");
    reveal_strlit("Smooth");
    reveal_strlit("Checkered");
}

/// The lower-case characters of a text, counted from its end.
proof fn lemma_from_end_low(text: Seq<char>, d: int)
    requires
        0 <= d < text.len(),
    ensures
        from_end(lowercase(text), d) == lower_char(text[text.len() - 1 - d]),
{
}

/// Every value of the catalog that is present has at least one character.
proof fn lemma_value_nonempty(modifier: Modifier, i: int)
    requires
        0 <= i < modifier_values_spec(modifier).len(),
    ensures
        match modifier_values_spec(modifier)[i] {
            Some(value) => value@.len() > 0,
            None => true,
        },
{
    lemma_catalog_ends();
}

/// Two values of one modifier end differently.
proof fn lemma_values_end_distinct(modifier: Modifier, i: int, j: int)
    requires
        0 <= i < modifier_values_spec(modifier).len(),
        0 <= j < modifier_values_spec(modifier).len(),
        i != j,
    ensures
        match (modifier_values_spec(modifier)[i], modifier_values_spec(modifier)[j]) {
            (Some(first), Some(second)) => end_distinct(lowercase(first@), lowercase(second@)),
            _ => true,
        },
{
    lemma_catalog_ends();
    match (modifier_values_spec(modifier)[i], modifier_values_spec(modifier)[j]) {
        (Some(first), Some(second)) => {
            let d: int = if modifier == Modifier::Caliber && ((i == 1 && j == 2) || (i == 2 && j
                == 1)) {
                2
            } else {
                0
            };
            lemma_from_end_low(first@, d);
            lemma_from_end_low(second@, d);
            assert(from_end(lowercase(first@), d) != from_end(lowercase(second@), d));
        },
        _ => {},
    }
}

/// In a section, a value of a modifier that may be absent ends otherwise
/// than every value of the modifiers before it.
proof fn lemma_later_value_ends_differently(section: Section, q: int, p: int, i: int, j: int)
    requires
        0 <= q < p < section_mods_spec(section).len(),
        0 <= i < section_value_lists(section)[q].len(),
        0 <= j < section_value_lists(section)[p].len(),
        section_value_lists(section)[p][0].is_none(),
    ensures
        match (section_value_lists(section)[q][i], section_value_lists(section)[p][j]) {
            (Some(before), Some(after)) => last_low(before@) != last_low(after@),
            _ => true,
        },
{
    lemma_catalog_ends();
}

/// The first `n` values of `row` are rendered values of the first `n`
/// modifiers of `section`.
spec fn is_row_start(section: Section, row: Seq<Option<&'static str>>, n: int) -> bool {
    &&& 0 <= n <= section_mods_spec(section).len()
    &&& row.len() == n
    &&& forall|i: int| 0 <= i < n ==> (#[trigger] section_value_lists(section)[i]).contains(row[i])
}

/// The text ends as some value of the first `n` modifiers of `section`
/// does.
spec fn ends_as_value(section: Section, n: int, ending: Seq<char>) -> bool {
    exists|q: int, k: int|
        0 <= q < n && 0 <= k < section_value_lists(section)[q].len() && (
        #[trigger] section_value_lists(section)[q][k]).is_some() && from_end(ending, 0)
            == last_low(section_value_lists(section)[q][k].unwrap()@)
}

/// A rendered value that is absent is the first of its list.
proof fn lemma_absent_is_first(section: Section, p: int, j: int)
    requires
        0 <= p < section_mods_spec(section).len(),
        0 <= j < section_value_lists(section)[p].len(),
        section_value_lists(section)[p][j].is_none(),
    ensures
        j == 0,
{
}

/// A rendered value is a value of the catalog, at the same place.
proof fn lemma_rendered_is_listed(section: Section, p: int, j: int)
    requires
        0 <= p < section_mods_spec(section).len(),
        0 <= j < section_value_lists(section)[p].len(),
    ensures
        j < modifier_values_spec(section_mods_spec(section)[p]).len(),
        section_value_lists(section)[p][j] == modifier_values_spec(section_mods_spec(section)[p])[j],
{
}

proof fn lemma_row_start_shorter(section: Section, row: Seq<Option<&'static str>>, n: int)
    requires
        is_row_start(section, row, n),
        n > 0,
    ensures
        is_row_start(section, row.drop_last(), n - 1),
        texts(row.drop_last()) == texts(row).drop_last(),
        texts(row).last() == text(row[n - 1]),
        body(texts(row)) == body(texts(row.drop_last())) + piece(text(row[n - 1])),
{
    let shorter = row.drop_last();
    assert forall|i: int| 0 <= i < n - 1 implies (#[trigger] section_value_lists(section)[i]).contains(
        shorter[i],
    ) by {
        assert(section_value_lists(section)[i].contains(row[i]));
    }
    assert(texts(shorter) =~= texts(row).drop_last());
}

/// What the values of a row start add is nothing, or ends as one of the
/// values does and has at least two characters.
proof fn lemma_body_end(section: Section, row: Seq<Option<&'static str>>, n: int)
    requires
        is_row_start(section, row, n),
    ensures
        body(texts(row)).len() == 0 || (body(texts(row)).len() >= 2 && ends_as_value(
            section,
            n,
            body(texts(row)),
        )),
    decreases n,
{
    if n > 0 {
        lemma_row_start_shorter(section, row, n);
        let shorter = row.drop_last();
        lemma_body_end(section, shorter, n - 1);
        let list = section_value_lists(section)[n - 1];
        assert(list.contains(row[n - 1]));
        let k = choose|k: int| 0 <= k < list.len() && list[k] == row[n - 1];
        match row[n - 1] {
            Some(value) => {
                lemma_rendered_is_listed(section, n - 1, k);
                lemma_value_nonempty(section_mods_spec(section)[n - 1], k);
                let whole = body(texts(row));
                assert(whole == body(texts(shorter)) + (seq!['-'] + lowercase(value@)));
                assert(from_end(whole, 0) == last_low(value@));
                assert(section_value_lists(section)[n - 1][k].is_some());
            },
            None => {
                assert(body(texts(row)) =~= body(texts(shorter)));
                if body(texts(shorter)).len() > 0 {
                    let (q, k) = choose|q: int, k: int|
                        0 <= q < n - 1 && 0 <= k < section_value_lists(section)[q].len() && (
                        #[trigger] section_value_lists(section)[q][k]).is_some() && from_end(
                            body(texts(shorter)),
                            0,
                        ) == last_low(section_value_lists(section)[q][k].unwrap()@);
                    assert(section_value_lists(section)[q][k].is_some());
                }
            },
        }
    }
}

proof fn lemma_cancel_suffix(first: Seq<char>, second: Seq<char>, suffix: Seq<char>)
    requires
        first + suffix == second + suffix,
    ensures
        first == second,
{
    let left = first + suffix;
    let right = second + suffix;
    assert(left.len() == first.len() + suffix.len());
    assert(right.len() == second.len() + suffix.len());
    assert(first.len() == second.len());
    assert forall|i: int| 0 <= i < first.len() implies first[i] == second[i] by {
        assert(left[i] == first[i]);
        assert(right[i] == second[i]);
    }
    assert(first =~= second);
}

proof fn lemma_cancel_prefix(prefix: Seq<char>, first: Seq<char>, second: Seq<char>)
    requires
        prefix + first == prefix + second,
    ensures
        first == second,
{
    let left = prefix + first;
    let right = prefix + second;
    assert(left.len() == prefix.len() + first.len());
    assert(right.len() == prefix.len() + second.len());
    assert(first.len() == second.len());
    assert forall|i: int| 0 <= i < first.len() implies first[i] == second[i] by {
        assert(left[prefix.len() + i] == first[i]);
        assert(right[prefix.len() + i] == second[i]);
    }
    assert(first =~= second);
}

/// Two row starts of a section that differ in some value add different
/// texts to a name.
proof fn lemma_bodies_differ(
    section: Section,
    a: Seq<Option<&'static str>>,
    b: Seq<Option<&'static str>>,
    n: int,
)
    requires
        is_row_start(section, a, n),
        is_row_start(section, b, n),
        texts(a) != texts(b),
    ensures
        body(texts(a)) != body(texts(b)),
    decreases n,
{
    if n == 0 {
        assert(texts(a) =~= texts(b));
    } else {
        lemma_row_start_shorter(section, a, n);
        lemma_row_start_shorter(section, b, n);
        let xa = a.drop_last();
        let xb = b.drop_last();
        let ha = a[n - 1];
        let hb = b[n - 1];
        if text(ha) == text(hb) {
            if texts(xa) == texts(xb) {
                assert(texts(a) =~= texts(b)) by {
                    assert forall|i: int| 0 <= i < n implies texts(a)[i] == texts(b)[i] by {
                        if i < n - 1 {
                            assert(texts(xa)[i] == texts(a)[i]);
                            assert(texts(xb)[i] == texts(b)[i]);
                        }
                    }
                }
            }
            lemma_bodies_differ(section, xa, xb, n - 1);
            if body(texts(a)) == body(texts(b)) {
                lemma_cancel_suffix(body(texts(xa)), body(texts(xb)), piece(text(ha)));
            }
        } else {
            let list = section_value_lists(section)[n - 1];
            let modifier = section_mods_spec(section)[n - 1];
            assert(list.contains(ha) && list.contains(hb));
            let i = choose|i: int| 0 <= i < list.len() && list[i] == ha;
            let j = choose|j: int| 0 <= j < list.len() && list[j] == hb;
            lemma_rendered_is_listed(section, n - 1, i);
            lemma_rendered_is_listed(section, n - 1, j);
            lemma_value_nonempty(modifier, i);
            lemma_value_nonempty(modifier, j);
            let whole_a = body(texts(a));
            let whole_b = body(texts(b));
            match (ha, hb) {
                (Some(first), Some(second)) => {
                    lemma_values_end_distinct(modifier, i, j);
                    let d = choose|d: int|
                        0 <= d < lowercase(first@).len() && d < lowercase(second@).len()
                            && #[trigger] from_end(lowercase(first@), d) != from_end(
                            lowercase(second@),
                            d,
                        );
                    assert(whole_a == body(texts(xa)) + (seq!['-'] + lowercase(first@)));
                    assert(whole_b == body(texts(xb)) + (seq!['-'] + lowercase(second@)));
                    assert(from_end(whole_a, d) == from_end(lowercase(first@), d));
                    assert(from_end(whole_b, d) == from_end(lowercase(second@), d));
                },
                (Some(first), None) => {
                    lemma_differs_from_shorter(section, a, b, n);
                },
                (None, Some(second)) => {
                    lemma_differs_from_shorter(section, b, a, n);
                },
                (None, None) => {},
            }
        }
    }
}

/// A row start that ends with a value adds another text than one that
/// ends with an absent value.
proof fn lemma_differs_from_shorter(
    section: Section,
    a: Seq<Option<&'static str>>,
    b: Seq<Option<&'static str>>,
    n: int,
)
    requires
        n > 0,
        is_row_start(section, a, n),
        is_row_start(section, b, n),
        a[n - 1].is_some(),
        b[n - 1].is_none(),
    ensures
        body(texts(a)) != body(texts(b)),
{
    lemma_row_start_shorter(section, a, n);
    lemma_row_start_shorter(section, b, n);
    let xb = b.drop_last();
    let list = section_value_lists(section)[n - 1];
    let modifier = section_mods_spec(section)[n - 1];
    assert(list.contains(a[n - 1]) && list.contains(b[n - 1]));
    let i = choose|i: int| 0 <= i < list.len() && list[i] == a[n - 1];
    let j = choose|j: int| 0 <= j < list.len() && list[j] == b[n - 1];
    lemma_rendered_is_listed(section, n - 1, i);
    lemma_value_nonempty(modifier, i);
    lemma_absent_is_first(section, n - 1, j);
    let value = a[n - 1].unwrap();
    let whole_a = body(texts(a));
    let whole_b = body(texts(b));
    assert(whole_a == body(texts(a.drop_last())) + (seq!['-'] + lowercase(value@)));
    assert(from_end(whole_a, 0) == last_low(value@));
    assert(whole_b =~= body(texts(xb)));
    lemma_body_end(section, xb, n - 1);
    if whole_b.len() > 0 {
        let (q, k) = choose|q: int, k: int|
            0 <= q < n - 1 && 0 <= k < section_value_lists(section)[q].len() && (
            #[trigger] section_value_lists(section)[q][k]).is_some() && from_end(whole_b, 0)
                == last_low(section_value_lists(section)[q][k].unwrap()@);
        lemma_later_value_ends_differently(section, q, n - 1, k, i);
    }
}

/// No two assets of a section have the same name.
pub proof fn lemma_asset_names_distinct(section: Section, a: int, b: int)
    requires
        0 <= a < section_configurations_spec(section).len(),
        0 <= b < section_configurations_spec(section).len(),
        a != b,
    ensures
        section_configurations_spec(section)[a] != section_configurations_spec(section)[b],
{
    let lists = section_value_lists(section);
    let n = section_mods_spec(section).len() as int;
    let first = cartesian(lists)[a];
    let second = cartesian(lists)[b];
    lemma_cartesian_row(lists, a);
    lemma_cartesian_row(lists, b);
    lemma_section_rows_differ(section, a, b);
    lemma_bodies_differ(section, first, second, n);
    lemma_body_end(section, first, n);
    lemma_body_end(section, second, n);
    let name = section.name_spec()@;
    lemma_name_by_body(name, texts(first));
    lemma_name_by_body(name, texts(second));
    let end_a = if body(texts(first)).len() == 0 {
        seq!['-']
    } else {
        body(texts(first))
    };
    let end_b = if body(texts(second)).len() == 0 {
        seq!['-']
    } else {
        body(texts(second))
    };
    assert(end_a != end_b) by {
        if end_a == end_b {
            assert(end_a.len() == end_b.len());
        }
    }
    if lowercase(name) + end_a == lowercase(name) + end_b {
        lemma_cancel_prefix(lowercase(name), end_a, end_b);
    }
}

/// Assets of different sections have different names.
pub proof fn lemma_section_names_differ(first: Section, a: int, second: Section, b: int)
    requires
        first != second,
        0 <= a < section_configurations_spec(first).len(),
        0 <= b < section_configurations_spec(second).len(),
    ensures
        section_configurations_spec(first)[a] != section_configurations_spec(second)[b],
{
    let name_a = section_configurations_spec(first)[a];
    let name_b = section_configurations_spec(second)[b];
    let row_a = cartesian(section_value_lists(first))[a];
    let row_b = cartesian(section_value_lists(second))[b];
    lemma_name_by_body(first.name_spec()@, texts(row_a));
    lemma_name_by_body(second.name_spec()@, texts(row_b));
    reveal_strlit("Barrel");
    reveal_strlit("Grips");
    reveal_strlit("MSH");
    reveal_strlit("Nose");
    reveal_strlit("Rear");
    reveal_strlit("Sights");
    reveal_strlit("Slide");
    reveal_strlit("Trigger");
    let n_a = first.name_spec()@;
    let n_b = second.name_spec()@;
    assert(n_a.len() >= 3 && n_b.len() >= 3);
    assert(name_a[0] == lower_char(n_a[0]) && name_a[1] == lower_char(n_a[1]));
    assert(name_b[0] == lower_char(n_b[0]) && name_b[1] == lower_char(n_b[1]));
    assert(lower_char(n_a[0]) != lower_char(n_b[0]) || lower_char(n_a[1]) != lower_char(n_b[1]));
}

/// Every name of a list of sections is the name of an asset of one of
/// them.
proof fn lemma_name_origin(sections: Seq<Section>, i: int) -> (origin: (int, int))
    requires
        0 <= i < asset_names_spec(sections).len(),
    ensures
        0 <= origin.0 < sections.len(),
        0 <= origin.1 < section_configurations_spec(sections[origin.0]).len(),
        asset_names_spec(sections)[i] == section_configurations_spec(sections[origin.0])[origin.1],
    decreases sections.len(),
{
    let head = asset_names_spec(sections.drop_last());
    if i < head.len() {
        let origin = lemma_name_origin(sections.drop_last(), i);
        assert(sections.drop_last()[origin.0] == sections[origin.0]);
        origin
    } else {
        (sections.len() - 1, i - head.len())
    }
}

proof fn lemma_names_of_sections_distinct(sections: Seq<Section>)
    requires
        sections.no_duplicates(),
    ensures
        asset_names_spec(sections).no_duplicates(),
    decreases sections.len(),
{
    if sections.len() > 0 {
        let rest = sections.drop_last();
        let last = sections.last();
        let head = asset_names_spec(rest);
        let tail = section_configurations_spec(last);
        let all = asset_names_spec(sections);
        assert(rest.no_duplicates());
        lemma_names_of_sections_distinct(rest);
        assert forall|i: int, j: int| 0 <= i < all.len() && 0 <= j < all.len() && i
            != j implies all[i] != all[j] by {
            if i < head.len() && j < head.len() {
                assert(head[i] != head[j]);
            } else if i >= head.len() && j >= head.len() {
                lemma_asset_names_distinct(last, i - head.len(), j - head.len());
            } else {
                let inner = if i < head.len() {
                    i
                } else {
                    j
                };
                let outer = if i < head.len() {
                    j
                } else {
                    i
                };
                let origin = lemma_name_origin(rest, inner);
                assert(rest[origin.0] == sections[origin.0]);
                assert(sections[origin.0] != sections[sections.len() - 1]);
                lemma_section_names_differ(rest[origin.0], origin.1, last, outer - head.len());
            }
        }
    }
}

/// No two assets of a half have the same name, so that a cache keyed by
/// name holds each of them.
pub proof fn lemma_half_asset_names_distinct(section_type: SectionType)
    ensures
        asset_names_spec(sections_spec(section_type)).no_duplicates(),
{
    lemma_names_of_sections_distinct(sections_spec(section_type));
}

} // verus!
