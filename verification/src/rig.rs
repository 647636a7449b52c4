//! The assets of the three sections that share the rotating camera rig:
//! the front, the rear and the upper section.
//!
//! These assets are named by the values of the product's options, written
//! one after the other with spaces between them.

use crate::product::{cartesian, multi_cartesian_product, rows};
use crate::text::{append_joined, joined, present};
use vstd::prelude::*;
use vstd::string::*;

verus! {

/// The values of each option of the product. An empty value stands for an
/// option that is not taken.
pub struct ConfigOptions<'a> {
    pub style: Vec<&'a str>,
    pub guard: Vec<&'a str>,
    pub caliber: Vec<&'a str>,
    pub size: Vec<&'a str>,
    pub ext: Vec<&'a str>,
    pub rear: Vec<&'a str>,
    pub rchk: Vec<&'a str>,
    pub fchk: Vec<&'a str>,
}

/// Whether a character is white space: one of the code points that have
/// the Unicode property White_Space.
pub open spec fn is_white_space(c: char) -> bool {
    let code = c as u32;
    ||| 0x09 <= code <= 0x0d
    ||| code == 0x20
    ||| code == 0x85
    ||| code == 0xa0
    ||| code == 0x1680
    ||| 0x2000 <= code <= 0x200a
    ||| code == 0x2028
    ||| code == 0x2029
    ||| code == 0x202f
    ||| code == 0x205f
    ||| code == 0x3000
}

/// The text without the white space at its end.
pub open spec fn trimmed_end(text: Seq<char>) -> Seq<char>
    decreases text.len(),
{
    if text.len() > 0 && is_white_space(text.last()) {
        trimmed_end(text.drop_last())
    } else {
        text
    }
}

/// `str::trim_end` of std, with the result copied into a string of its own:
/// the text up to its last character that is no white space, where white
/// space is what Unicode gives the property White_Space.
#[verifier::external_body]
fn trim_end(text: &str) -> (trimmed: String)
    ensures
        trimmed@ == trimmed_end(text@),
{
    text.trim_end().to_string()
}

/// The characters of each text of a list.
pub open spec fn views(parts: Seq<&str>) -> Seq<Seq<char>> {
    Seq::new(parts.len(), |i: int| parts[i]@)
}

/// Each part as a value that is present, or as an absent value where the
/// part is empty.
pub open spec fn taken(parts: Seq<Seq<char>>) -> Seq<Option<Seq<char>>> {
    Seq::new(
        parts.len(),
        |i: int|
            if parts[i].len() == 0 {
                None
            } else {
                Some(parts[i])
            },
    )
}

/// The parts that are not empty, with a space between neighbours.
pub open spec fn spaced_spec(parts: Seq<Seq<char>>) -> Seq<char> {
    joined(present(taken(parts)), seq![' '])
}

/// The name that the parts give: the parts that are not empty, with a
/// space between neighbours, and no white space at the end.
pub open spec fn name_spec(parts: Seq<Seq<char>>) -> Seq<char> {
    trimmed_end(spaced_spec(parts))
}

/// The text with `part` written after it, a space between the two where
/// neither is empty.
pub open spec fn glued(head: Seq<char>, part: Seq<char>) -> Seq<char> {
    if part.len() == 0 {
        head
    } else if head.len() == 0 {
        part
    } else {
        head + seq![' '] + part
    }
}

/// The spaced parts are empty exactly where every part is empty.
proof fn lemma_spaced_empty(parts: Seq<Seq<char>>)
    ensures
        (spaced_spec(parts).len() == 0) == (present(taken(parts)).len() == 0),
        forall|i: int|
            0 <= i < present(taken(parts)).len() ==> (#[trigger] present(taken(parts))[i]).len()
                > 0,
    decreases parts.len(),
{
    if parts.len() > 0 {
        let rest = parts.drop_last();
        lemma_spaced_empty(rest);
        assert(taken(parts).drop_last() =~= taken(rest));
        if parts.last().len() > 0 {
            let all = present(taken(parts));
            assert(all == present(taken(rest)).push(parts.last()));
            assert(all.drop_last() =~= present(taken(rest)));
        }
    }
}

/// One more part is glued to the spaced parts before it.
pub proof fn lemma_spaced_push(parts: Seq<Seq<char>>, part: Seq<char>)
    ensures
        spaced_spec(parts.push(part)) == glued(spaced_spec(parts), part),
        spaced_spec(Seq::<Seq<char>>::empty()) == Seq::<char>::empty(),
{
    let longer = parts.push(part);
    lemma_spaced_empty(parts);
    assert(longer.drop_last() =~= parts);
    assert(taken(longer).drop_last() =~= taken(parts));
    assert(taken(Seq::<Seq<char>>::empty()) =~= Seq::empty());
    if part.len() > 0 {
        let all = present(taken(longer));
        assert(all == present(taken(parts)).push(part));
        assert(all.drop_last() =~= present(taken(parts)));
    }
}

/// A text that is empty or ends with a character that is no white space
/// is trimmed already.
pub proof fn lemma_trimmed(text: Seq<char>)
    requires
        text.len() == 0 || !is_white_space(text.last()),
    ensures
        trimmed_end(text) == text,
{
}

/// Writes the parts that are not empty one after the other, with a space
/// between neighbours.
pub fn spaced(parts: &Vec<&str>) -> (line: String)
    ensures
        line@ == spaced_spec(views(parts@)),
{
    let mut values: Vec<Option<&str>> = Vec::new();
    let mut i: usize = 0;
    while i < parts.len()
        invariant
            i <= parts.len(),
            values.len() == i,
            forall|k: int|
                0 <= k < i ==> crate::text::text(#[trigger] values@[k]) == taken(views(parts@))[k],
        decreases parts.len() - i,
    {
        if parts[i].is_empty() {
            values.push(None);
        } else {
            values.push(Some(parts[i]));
        }
        i += 1;
    }
    proof {
        assert(crate::text::texts(values@) =~= taken(views(parts@)));
        reveal_strlit(" ");
        assert(" "@ =~= seq![' ']);
    }
    let mut line = String::new();
    append_joined(&mut line, &values, " ");
    proof {
        assert(line@ =~= spaced_spec(views(parts@)));
    }
    line
}

/// Builds the name of an asset from its parts.
pub fn get_name(v: Vec<&str>) -> (name: String)
    ensures
        name@ == name_spec(views(v@)),
{
    let line = spaced(&v);
    trim_end(line.as_str())
}

/// The lists of values of the options, in the order style, guard, caliber,
/// size, ext, rear, rchk, fchk.
pub open spec fn option_lists(options: ConfigOptions) -> Seq<Seq<&str>> {
    seq![
        options.style@,
        options.guard@,
        options.caliber@,
        options.size@,
        options.ext@,
        options.rear@,
        options.rchk@,
        options.fchk@,
    ]
}

/// The four names of a configuration of the rig, given one value for each
/// option: the name of the configuration itself, and the names of the
/// assets of its front, its rear and its upper section.
pub open spec fn rig_names(row: Seq<Seq<char>>) -> (Seq<char>, Seq<char>, Seq<char>, Seq<char>) {
    (
        name_spec(seq![row[0], row[1], row[2], row[3], row[4], row[5], row[6], row[7]]),
        name_spec(seq!["Front"@, row[0], row[1], row[3], row[4]]),
        name_spec(seq!["Rear"@, "9mm"@, row[5], row[6], row[7], ""@]),
        name_spec(seq!["Upper"@, row[2], row[3], row[4], "Novak"@]),
    )
}

/// The characters of each of four strings.
pub open spec fn views4(names: (String, String, String, String)) -> (
    Seq<char>,
    Seq<char>,
    Seq<char>,
    Seq<char>,
) {
    (names.0@, names.1@, names.2@, names.3@)
}

/// The names of the configurations of the rig: the four names of each row
/// of the Cartesian product of the options' values.
pub open spec fn configurations_spec(options: ConfigOptions) -> Seq<
    (Seq<char>, Seq<char>, Seq<char>, Seq<char>),
> {
    let product = cartesian(option_lists(options));
    Seq::new(product.len(), |k: int| rig_names(views(product[k])))
}

/// The four names of each list entry.
pub open spec fn all_views4(configs: Seq<(String, String, String, String)>) -> Seq<
    (Seq<char>, Seq<char>, Seq<char>, Seq<char>),
> {
    Seq::new(configs.len(), |i: int| views4(configs[i]))
}

/// Appends to `configs` the names of every configuration of the rig: for
/// each choice of one value for each option, the first option changing
/// slowest, the name of the configuration and the names of the assets of
/// its front, rear and upper section.
pub fn get_configurations<'a>(
    configs: &mut Vec<(String, String, String, String)>,
    options: ConfigOptions<'a>,
)
    ensures
        all_views4(final(configs)@) == all_views4(old(configs)@) + configurations_spec(options),
{
    let ghost lists = option_lists(options);
    let mut values: Vec<Vec<&'a str>> = Vec::new();
    values.push(options.style);
    values.push(options.guard);
    values.push(options.caliber);
    values.push(options.size);
    values.push(options.ext);
    values.push(options.rear);
    values.push(options.rchk);
    values.push(options.fchk);
    proof {
        assert(rows(values@) =~= lists);
    }
    let product = multi_cartesian_product(values);
    let ghost wanted = configurations_spec(options);
    let mut k: usize = 0;
    proof {
        assert(all_views4(configs@) =~= all_views4(old(configs)@) + wanted.take(0));
    }
    while k < product.len()
        invariant
            k <= product.len(),
            lists.len() == 8,
            rows(product@) == cartesian(lists),
            wanted == Seq::new(
                cartesian(lists).len(),
                |k: int| rig_names(views(cartesian(lists)[k])),
            ),
            all_views4(configs@) == all_views4(old(configs)@) + wanted.take(k as int),
        decreases product.len() - k,
    {
        let row = &product[k];
        proof {
            assert(rows(product@).len() == product.len());
            assert(rows(product@)[k as int] == row@);
            crate::product::lemma_cartesian_row(lists, k as int);
            assert(row.len() == 8);
        }
        let ghost r = views(row@);
        let whole = get_name(
            vec![row[0], row[1], row[2], row[3], row[4], row[5], row[6], row[7]],
        );
        let front = get_name(vec!["Front", row[0], row[1], row[3], row[4]]);
        let rear = get_name(vec!["Rear", "9mm", row[5], row[6], row[7], ""]);
        let upper = get_name(vec!["Upper", row[2], row[3], row[4], "Novak"]);
        let ghost before = configs@;
        proof {
            assert(views(seq![row[0], row[1], row[2], row[3], row[4], row[5], row[6], row[7]])
                =~= seq![r[0], r[1], r[2], r[3], r[4], r[5], r[6], r[7]]);
            assert(views(seq!["Front", row[0], row[1], row[3], row[4]]) =~= seq![
                "Front"@,
                r[0],
                r[1],
                r[3],
                r[4],
            ]);
            assert(views(seq!["Rear", "9mm", row[5], row[6], row[7], ""]) =~= seq![
                "Rear"@,
                "9mm"@,
                r[5],
                r[6],
                r[7],
                ""@,
            ]);
            assert(views(seq!["Upper", row[2], row[3], row[4], "Novak"]) =~= seq![
                "Upper"@,
                r[2],
                r[3],
                r[4],
                "Novak"@,
            ]);
        }
        configs.push((whole, front, rear, upper));
        proof {
            assert(views4(configs@[configs@.len() - 1]) == rig_names(r));
            assert(wanted.take(k + 1) =~= wanted.take(k as int).push(wanted[k as int]));
            assert(all_views4(configs@) =~= all_views4(before).push(rig_names(r)));
        }
        k += 1;
    }
    proof {
        assert(wanted.take(product.len() as int) =~= wanted);
    }
}

/// The names of the assets of the front section.
pub open spec fn front_configs_spec() -> Seq<&'static str> {
    seq![
        "Front Std Com",
        "Front Std Com Ext",
        "Front Std Gov",
        "Front Std Gov Ext",
        "Front Std Sqr Com",
        "Front Std Sqr Com Ext",
        "Front Std Sqr Gov",
        "Front Std Sqr Gov Ext",
        "Front Tac Com",
        "Front Tac Com Ext",
        "Front Tac Gov",
        "Front Tac Gov Ext",
        "Front Tac Sqr Com",
        "Front Tac Sqr Com Ext",
        "Front Tac Sqr Gov",
        "Front Tac Sqr Gov Ext",
    ]
}

/// The names of the assets of the rear section.
pub open spec fn rear_configs_spec() -> Seq<&'static str> {
    seq![
        "Rear 9mm",
        "Rear 9mm Bob",
        "Rear 9mm Bob FChk",
        "Rear 9mm Bob RChk",
        "Rear 9mm Bob RChk FChk",
        "Rear 9mm FChk",
        "Rear 9mm RChk",
        "Rear 9mm RChk FChk",
    ]
}

/// The names of the assets of the upper section.
pub open spec fn upper_configs_spec() -> Seq<&'static str> {
    seq![
        "Upper .45 Com Novak",
        "Upper .45 Com Ext Novak",
        "Upper .45 Gov Novak",
        "Upper .45 Gov Ext Novak",
        "Upper 9mm Com Novak",
        "Upper 9mm Com Ext Novak",
        "Upper 9mm Gov Novak",
        "Upper 9mm Gov Ext Novak",
        "Upper 10mm Com Novak",
        "Upper 10mm Com Ext Novak",
        "Upper 10mm Gov Novak",
        "Upper 10mm Gov Ext Novak",
        "Upper .38 Com Novak",
        "Upper .38 Com Ext Novak",
        "Upper .38 Gov Novak",
        "Upper .38 Gov Ext Novak",
        "Upper .40 Com Novak",
        "Upper .40 Com Ext Novak",
        "Upper .40 Gov Novak",
        "Upper .40 Gov Ext Novak",
    ]
}

/// The names of the assets of the front section.
pub fn front_configs() -> (names: Vec<&'static str>)
    ensures
        names@ == front_configs_spec(),
{
    let names = vec![
        "Front Std Com",
        "Front Std Com Ext",
        "Front Std Gov",
        "Front Std Gov Ext",
        "Front Std Sqr Com",
        "Front Std Sqr Com Ext",
        "Front Std Sqr Gov",
        "Front Std Sqr Gov Ext",
        "Front Tac Com",
        "Front Tac Com Ext",
        "Front Tac Gov",
        "Front Tac Gov Ext",
        "Front Tac Sqr Com",
        "Front Tac Sqr Com Ext",
        "Front Tac Sqr Gov",
        "Front Tac Sqr Gov Ext",
    ];
    proof {
        assert(names@ =~= front_configs_spec());
    }
    names
}

/// The names of the assets of the rear section.
pub fn rear_configs() -> (names: Vec<&'static str>)
    ensures
        names@ == rear_configs_spec(),
{
    let names = vec![
        "Rear 9mm",
        "Rear 9mm Bob",
        "Rear 9mm Bob FChk",
        "Rear 9mm Bob RChk",
        "Rear 9mm Bob RChk FChk",
        "Rear 9mm FChk",
        "Rear 9mm RChk",
        "Rear 9mm RChk FChk",
    ];
    proof {
        assert(names@ =~= rear_configs_spec());
    }
    names
}

/// The names of the assets of the upper section.
pub fn upper_configs() -> (names: Vec<&'static str>)
    ensures
        names@ == upper_configs_spec(),
{
    let names = vec![
        "Upper .45 Com Novak",
        "Upper .45 Com Ext Novak",
        "Upper .45 Gov Novak",
        "Upper .45 Gov Ext Novak",
        "Upper 9mm Com Novak",
        "Upper 9mm Com Ext Novak",
        "Upper 9mm Gov Novak",
        "Upper 9mm Gov Ext Novak",
        "Upper 10mm Com Novak",
        "Upper 10mm Com Ext Novak",
        "Upper 10mm Gov Novak",
        "Upper 10mm Gov Ext Novak",
        "Upper .38 Com Novak",
        "Upper .38 Com Ext Novak",
        "Upper .38 Gov Novak",
        "Upper .38 Gov Ext Novak",
        "Upper .40 Com Novak",
        "Upper .40 Com Ext Novak",
        "Upper .40 Gov Novak",
        "Upper .40 Gov Ext Novak",
    ];
    proof {
        assert(names@ =~= upper_configs_spec());
    }
    names
}

/// The values of the options of the product.
pub open spec fn product_lists() -> Seq<Seq<&'static str>> {
    seq![
        seq!["Std", "Tac"],
        seq!["", "Sqr"],
        seq![".45", "9mm", "10mm", ".38", ".40"],
        seq!["Com", "Gov"],
        seq!["", "Ext"],
        seq!["", "Bob"],
        seq!["", "RChk"],
        seq!["", "FChk"],
    ]
}

/// The options of the product.
pub fn product_options() -> (options: ConfigOptions<'static>)
    ensures
        option_lists(options) == product_lists(),
{
    let options = ConfigOptions {
        style: vec!["Std", "Tac"],
        guard: vec!["", "Sqr"],
        caliber: vec![".45", "9mm", "10mm", ".38", ".40"],
        size: vec!["Com", "Gov"],
        ext: vec!["", "Ext"],
        rear: vec!["", "Bob"],
        rchk: vec!["", "RChk"],
        fchk: vec!["", "FChk"],
    };
    proof {
        assert(options.style@ =~= product_lists()[0]);
        assert(options.guard@ =~= product_lists()[1]);
        assert(options.caliber@ =~= product_lists()[2]);
        assert(options.size@ =~= product_lists()[3]);
        assert(options.ext@ =~= product_lists()[4]);
        assert(options.rear@ =~= product_lists()[5]);
        assert(options.rchk@ =~= product_lists()[6]);
        assert(options.fchk@ =~= product_lists()[7]);
        assert(option_lists(options) =~= product_lists());
    }
    options
}

/// The text of an item of a list is the text of the list's entry at some
/// place.
proof fn lemma_text_of_listed(list: Seq<&'static str>, item: &'static str)
    requires
        list.contains(item),
    ensures
        exists|i: int| 0 <= i < list.len() && item@ == (#[trigger] list[i])@,
{
    let i = choose|i: int| 0 <= i < list.len() && list[i] == item;
    assert(item@ == list[i]@);
}

/// Every configuration of the product names assets that are listed: the
/// names that [`get_configurations`] gives for the front, the rear and the
/// upper section under the product's options are among the names of
/// [`front_configs`], [`rear_configs`] and [`upper_configs`].
pub proof fn lemma_rig_assets_listed(options: ConfigOptions, k: int)
    requires
        option_lists(options) == product_lists(),
        0 <= k < configurations_spec(options).len(),
    ensures
        views(front_configs_spec()).contains(configurations_spec(options)[k].1),
        views(rear_configs_spec()).contains(configurations_spec(options)[k].2),
        views(upper_configs_spec()).contains(configurations_spec(options)[k].3),
{
    let lists = product_lists();
    let row = cartesian(lists)[k];
    crate::product::lemma_cartesian_row(lists, k);
    let r = views(row);
    assert(r.len() == 8);
    lemma_text_of_listed(lists[0], row[0]);
    lemma_text_of_listed(lists[1], row[1]);
    lemma_text_of_listed(lists[2], row[2]);
    lemma_text_of_listed(lists[3], row[3]);
    lemma_text_of_listed(lists[4], row[4]);
    lemma_text_of_listed(lists[5], row[5]);
    lemma_text_of_listed(lists[6], row[6]);
    lemma_text_of_listed(lists[7], row[7]);
    lemma_front_listed(r[0], r[1], r[3], r[4]);
    lemma_rear_listed(r[5], r[6], r[7]);
    lemma_upper_listed(r[2], r[3], r[4]);
}

/// Every name of a front asset is in the list of the front's assets.
proof fn lemma_front_listed(style: Seq<char>, guard: Seq<char>, size: Seq<char>, ext: Seq<char>)
    requires
        style == "Std"@ || style == "Tac"@,
        guard == ""@ || guard == "Sqr"@,
        size == "Com"@ || size == "Gov"@,
        ext == ""@ || ext == "Ext"@,
    ensures
        views(front_configs_spec()).contains(name_spec(seq!["Front"@, style, guard, size, ext])),
{
    reveal_strlit("");
    reveal_strlit("Com");
    reveal_strlit("Ext");
    reveal_strlit("Front");
    reveal_strlit("Front Std Com");
    reveal_strlit("Front Std Com Ext");
    reveal_strlit("Front Std Gov");
    reveal_strlit("Front Std Gov Ext");
    reveal_strlit("Front Std Sqr Com");
    reveal_strlit("Front Std Sqr Com Ext");
    reveal_strlit("Front Std Sqr Gov");
    reveal_strlit("Front Std Sqr Gov Ext");
    reveal_strlit("Front Tac Com");
    reveal_strlit("Front Tac Com Ext");
    reveal_strlit("Front Tac Gov");
    reveal_strlit("Front Tac Gov Ext");
    reveal_strlit("Front Tac Sqr Com");
    reveal_strlit("Front Tac Sqr Com Ext");
    reveal_strlit("Front Tac Sqr Gov");
    reveal_strlit("Front Tac Sqr Gov Ext");
    reveal_strlit("Gov");
    reveal_strlit("Sqr");
    reveal_strlit("Std");
    reveal_strlit("Tac");
    let list = views(front_configs_spec());
    let start = Seq::<Seq<char>>::empty();
    lemma_spaced_push(start, "Front"@);
    let p0 = start.push("Front"@);
    lemma_spaced_push(p0, style);
    let p1 = p0.push(style);
    lemma_spaced_push(p1, guard);
    let p2 = p1.push(guard);
    lemma_spaced_push(p2, size);
    let p3 = p2.push(size);
    lemma_spaced_push(p3, ext);
    let p4 = p3.push(ext);
    assert(seq!["Front"@, style, guard, size, ext] =~= p4);
    let line = spaced_spec(p4);
    if style == "Std"@ && guard == ""@ && size == "Com"@ && ext == ""@ {
        assert(line =~= "Front Std Com"@);
        assert(list[0] == "Front Std Com"@);
    }
    if style == "Std"@ && guard == ""@ && size == "Com"@ && ext == "Ext"@ {
        assert(line =~= "Front Std Com Ext"@);
        assert(list[1] == "Front Std Com Ext"@);
    }
    if style == "Std"@ && guard == ""@ && size == "Gov"@ && ext == ""@ {
        assert(line =~= "Front Std Gov"@);
        assert(list[2] == "Front Std Gov"@);
    }
    if style == "Std"@ && guard == ""@ && size == "Gov"@ && ext == "Ext"@ {
        assert(line =~= "Front Std Gov Ext"@);
        assert(list[3] == "Front Std Gov Ext"@);
    }
    if style == "Std"@ && guard == "Sqr"@ && size == "Com"@ && ext == ""@ {
        assert(line =~= "Front Std Sqr Com"@);
        assert(list[4] == "Front Std Sqr Com"@);
    }
    if style == "Std"@ && guard == "Sqr"@ && size == "Com"@ && ext == "Ext"@ {
        assert(line =~= "Front Std Sqr Com Ext"@);
        assert(list[5] == "Front Std Sqr Com Ext"@);
    }
    if style == "Std"@ && guard == "Sqr"@ && size == "Gov"@ && ext == ""@ {
        assert(line =~= "Front Std Sqr Gov"@);
        assert(list[6] == "Front Std Sqr Gov"@);
    }
    if style == "Std"@ && guard == "Sqr"@ && size == "Gov"@ && ext == "Ext"@ {
        assert(line =~= "Front Std Sqr Gov Ext"@);
        assert(list[7] == "Front Std Sqr Gov Ext"@);
    }
    if style == "Tac"@ && guard == ""@ && size == "Com"@ && ext == ""@ {
        assert(line =~= "Front Tac Com"@);
        assert(list[8] == "Front Tac Com"@);
    }
    if style == "Tac"@ && guard == ""@ && size == "Com"@ && ext == "Ext"@ {
        assert(line =~= "Front Tac Com Ext"@);
        assert(list[9] == "Front Tac Com Ext"@);
    }
    if style == "Tac"@ && guard == ""@ && size == "Gov"@ && ext == ""@ {
        assert(line =~= "Front Tac Gov"@);
        assert(list[10] == "Front Tac Gov"@);
    }
    if style == "Tac"@ && guard == ""@ && size == "Gov"@ && ext == "Ext"@ {
        assert(line =~= "Front Tac Gov Ext"@);
        assert(list[11] == "Front Tac Gov Ext"@);
    }
    if style == "Tac"@ && guard == "Sqr"@ && size == "Com"@ && ext == ""@ {
        assert(line =~= "Front Tac Sqr Com"@);
        assert(list[12] == "Front Tac Sqr Com"@);
    }
    if style == "Tac"@ && guard == "Sqr"@ && size == "Com"@ && ext == "Ext"@ {
        assert(line =~= "Front Tac Sqr Com Ext"@);
        assert(list[13] == "Front Tac Sqr Com Ext"@);
    }
    if style == "Tac"@ && guard == "Sqr"@ && size == "Gov"@ && ext == ""@ {
        assert(line =~= "Front Tac Sqr Gov"@);
        assert(list[14] == "Front Tac Sqr Gov"@);
    }
    if style == "Tac"@ && guard == "Sqr"@ && size == "Gov"@ && ext == "Ext"@ {
        assert(line =~= "Front Tac Sqr Gov Ext"@);
        assert(list[15] == "Front Tac Sqr Gov Ext"@);
    }
    lemma_trimmed(line);
}

/// Every name of a rear asset is in the list of the rear's assets.
proof fn lemma_rear_listed(rear: Seq<char>, rchk: Seq<char>, fchk: Seq<char>)
    requires
        rear == ""@ || rear == "Bob"@,
        rchk == ""@ || rchk == "RChk"@,
        fchk == ""@ || fchk == "FChk"@,
    ensures
        views(rear_configs_spec()).contains(name_spec(seq!["Rear"@, "9mm"@, rear, rchk, fchk, ""@])),
{
    reveal_strlit("");
    reveal_strlit("9mm");
    reveal_strlit("Bob");
    reveal_strlit("FChk");
    reveal_strlit("RChk");
    reveal_strlit("Rear");
    reveal_strlit("Rear 9mm");
    reveal_strlit("Rear 9mm Bob");
    reveal_strlit("Rear 9mm Bob FChk");
    reveal_strlit("Rear 9mm Bob RChk");
    reveal_strlit("Rear 9mm Bob RChk FChk");
    reveal_strlit("Rear 9mm FChk");
    reveal_strlit("Rear 9mm RChk");
    reveal_strlit("Rear 9mm RChk FChk");
    let list = views(rear_configs_spec());
    let start = Seq::<Seq<char>>::empty();
    lemma_spaced_push(start, "Rear"@);
    let p0 = start.push("Rear"@);
    lemma_spaced_push(p0, "9mm"@);
    let p1 = p0.push("9mm"@);
    lemma_spaced_push(p1, rear);
    let p2 = p1.push(rear);
    lemma_spaced_push(p2, rchk);
    let p3 = p2.push(rchk);
    lemma_spaced_push(p3, fchk);
    let p4 = p3.push(fchk);
    lemma_spaced_push(p4, ""@);
    let p5 = p4.push(""@);
    assert(seq!["Rear"@, "9mm"@, rear, rchk, fchk, ""@] =~= p5);
    let line = spaced_spec(p5);
    if rear == ""@ && rchk == ""@ && fchk == ""@ {
        assert(line =~= "Rear 9mm"@);
        assert(list[0] == "Rear 9mm"@);
    }
    if rear == ""@ && rchk == ""@ && fchk == "FChk"@ {
        assert(line =~= "Rear 9mm FChk"@);
        assert(list[5] == "Rear 9mm FChk"@);
    }
    if rear == ""@ && rchk == "RChk"@ && fchk == ""@ {
        assert(line =~= "Rear 9mm RChk"@);
        assert(list[6] == "Rear 9mm RChk"@);
    }
    if rear == ""@ && rchk == "RChk"@ && fchk == "FChk"@ {
        assert(line =~= "Rear 9mm RChk FChk"@);
        assert(list[7] == "Rear 9mm RChk FChk"@);
    }
    if rear == "Bob"@ && rchk == ""@ && fchk == ""@ {
        assert(line =~= "Rear 9mm Bob"@);
        assert(list[1] == "Rear 9mm Bob"@);
    }
    if rear == "Bob"@ && rchk == ""@ && fchk == "FChk"@ {
        assert(line =~= "Rear 9mm Bob FChk"@);
        assert(list[2] == "Rear 9mm Bob FChk"@);
    }
    if rear == "Bob"@ && rchk == "RChk"@ && fchk == ""@ {
        assert(line =~= "Rear 9mm Bob RChk"@);
        assert(list[3] == "Rear 9mm Bob RChk"@);
    }
    if rear == "Bob"@ && rchk == "RChk"@ && fchk == "FChk"@ {
        assert(line =~= "Rear 9mm Bob RChk FChk"@);
        assert(list[4] == "Rear 9mm Bob RChk FChk"@);
    }
    lemma_trimmed(line);
}

/// Every name of an upper asset is in the list of the upper section's assets.
proof fn lemma_upper_listed(caliber: Seq<char>, size: Seq<char>, ext: Seq<char>)
    requires
        caliber == ".45"@ || caliber == "9mm"@ || caliber == "10mm"@ || caliber == ".38"@ || caliber == ".40"@,
        size == "Com"@ || size == "Gov"@,
        ext == ""@ || ext == "Ext"@,
    ensures
        views(upper_configs_spec()).contains(name_spec(seq!["Upper"@, caliber, size, ext, "Novak"@])),
{
    reveal_strlit("");
    reveal_strlit(".38");
    reveal_strlit(".40");
    reveal_strlit(".45");
    reveal_strlit("10mm");
    reveal_strlit("9mm");
    reveal_strlit("Com");
    reveal_strlit("Ext");
    reveal_strlit("Gov");
    reveal_strlit("Novak");
    reveal_strlit("Upper");
    reveal_strlit("Upper .38 Com Ext Novak");
    reveal_strlit("Upper .38 Com Novak");
    reveal_strlit("Upper .38 Gov Ext Novak");
    reveal_strlit("Upper .38 Gov Novak");
    reveal_strlit("Upper .40 Com Ext Novak");
    reveal_strlit("Upper .40 Com Novak");
    reveal_strlit("Upper .40 Gov Ext Novak");
    reveal_strlit("Upper .40 Gov Novak");
    reveal_strlit("Upper .45 Com Ext Novak");
    reveal_strlit("Upper .45 Com Novak");
    reveal_strlit("Upper .45 Gov Ext Novak");
    reveal_strlit("Upper .45 Gov Novak");
    reveal_strlit("Upper 10mm Com Ext Novak");
    reveal_strlit("Upper 10mm Com Novak");
    reveal_strlit("Upper 10mm Gov Ext Novak");
    reveal_strlit("Upper 10mm Gov Novak");
    reveal_strlit("Upper 9mm Com Ext Novak");
    reveal_strlit("Upper 9mm Com Novak");
    reveal_strlit("Upper 9mm Gov Ext Novak");
    reveal_strlit("Upper 9mm Gov Novak");
    let list = views(upper_configs_spec());
    let start = Seq::<Seq<char>>::empty();
    lemma_spaced_push(start, "Upper"@);
    let p0 = start.push("Upper"@);
    lemma_spaced_push(p0, caliber);
    let p1 = p0.push(caliber);
    lemma_spaced_push(p1, size);
    let p2 = p1.push(size);
    lemma_spaced_push(p2, ext);
    let p3 = p2.push(ext);
    lemma_spaced_push(p3, "Novak"@);
    let p4 = p3.push("Novak"@);
    assert(seq!["Upper"@, caliber, size, ext, "Novak"@] =~= p4);
    let line = spaced_spec(p4);
    if caliber == ".45"@ && size == "Com"@ && ext == ""@ {
        assert(line =~= "Upper .45 Com Novak"@);
        assert(list[0] == "Upper .45 Com Novak"@);
    }
    if caliber == ".45"@ && size == "Com"@ && ext == "Ext"@ {
        assert(line =~= "Upper .45 Com Ext Novak"@);
        assert(list[1] == "Upper .45 Com Ext Novak"@);
    }
    if caliber == ".45"@ && size == "Gov"@ && ext == ""@ {
        assert(line =~= "Upper .45 Gov Novak"@);
        assert(list[2] == "Upper .45 Gov Novak"@);
    }
    if caliber == ".45"@ && size == "Gov"@ && ext == "Ext"@ {
        assert(line =~= "Upper .45 Gov Ext Novak"@);
        assert(list[3] == "Upper .45 Gov Ext Novak"@);
    }
    if caliber == "9mm"@ && size == "Com"@ && ext == ""@ {
        assert(line =~= "Upper 9mm Com Novak"@);
        assert(list[4] == "Upper 9mm Com Novak"@);
    }
    if caliber == "9mm"@ && size == "Com"@ && ext == "Ext"@ {
        assert(line =~= "Upper 9mm Com Ext Novak"@);
        assert(list[5] == "Upper 9mm Com Ext Novak"@);
    }
    if caliber == "9mm"@ && size == "Gov"@ && ext == ""@ {
        assert(line =~= "Upper 9mm Gov Novak"@);
        assert(list[6] == "Upper 9mm Gov Novak"@);
    }
    if caliber == "9mm"@ && size == "Gov"@ && ext == "Ext"@ {
        assert(line =~= "Upper 9mm Gov Ext Novak"@);
        assert(list[7] == "Upper 9mm Gov Ext Novak"@);
    }
    if caliber == "10mm"@ && size == "Com"@ && ext == ""@ {
        assert(line =~= "Upper 10mm Com Novak"@);
        assert(list[8] == "Upper 10mm Com Novak"@);
    }
    if caliber == "10mm"@ && size == "Com"@ && ext == "Ext"@ {
        assert(line =~= "Upper 10mm Com Ext Novak"@);
        assert(list[9] == "Upper 10mm Com Ext Novak"@);
    }
    if caliber == "10mm"@ && size == "Gov"@ && ext == ""@ {
        assert(line =~= "Upper 10mm Gov Novak"@);
        assert(list[10] == "Upper 10mm Gov Novak"@);
    }
    if caliber == "10mm"@ && size == "Gov"@ && ext == "Ext"@ {
        assert(line =~= "Upper 10mm Gov Ext Novak"@);
        assert(list[11] == "Upper 10mm Gov Ext Novak"@);
    }
    if caliber == ".38"@ && size == "Com"@ && ext == ""@ {
        assert(line =~= "Upper .38 Com Novak"@);
        assert(list[12] == "Upper .38 Com Novak"@);
    }
    if caliber == ".38"@ && size == "Com"@ && ext == "Ext"@ {
        assert(line =~= "Upper .38 Com Ext Novak"@);
        assert(list[13] == "Upper .38 Com Ext Novak"@);
    }
    if caliber == ".38"@ && size == "Gov"@ && ext == ""@ {
        assert(line =~= "Upper .38 Gov Novak"@);
        assert(list[14] == "Upper .38 Gov Novak"@);
    }
    if caliber == ".38"@ && size == "Gov"@ && ext == "Ext"@ {
        assert(line =~= "Upper .38 Gov Ext Novak"@);
        assert(list[15] == "Upper .38 Gov Ext Novak"@);
    }
    if caliber == ".40"@ && size == "Com"@ && ext == ""@ {
        assert(line =~= "Upper .40 Com Novak"@);
        assert(list[16] == "Upper .40 Com Novak"@);
    }
    if caliber == ".40"@ && size == "Com"@ && ext == "Ext"@ {
        assert(line =~= "Upper .40 Com Ext Novak"@);
        assert(list[17] == "Upper .40 Com Ext Novak"@);
    }
    if caliber == ".40"@ && size == "Gov"@ && ext == ""@ {
        assert(line =~= "Upper .40 Gov Novak"@);
        assert(list[18] == "Upper .40 Gov Novak"@);
    }
    if caliber == ".40"@ && size == "Gov"@ && ext == "Ext"@ {
        assert(line =~= "Upper .40 Gov Ext Novak"@);
        assert(list[19] == "Upper .40 Gov Ext Novak"@);
    }
    lemma_trimmed(line);
}

} // verus!
