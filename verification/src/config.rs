//! The catalog of configurable attributes and product sections, and the
//! enumeration of configurations and asset names built on it.

use crate::product::{
    cartesian, count, lemma_cartesian_has_row, lemma_cartesian_len, lemma_cartesian_row,
    lemma_cartesian_rows_differ, multi_cartesian_product, rows,
};
use crate::text::{
    append_joined, ascii_lowercase, joined, lowercase, present, same_text, text, texts,
};
use vstd::prelude::*;
use vstd::string::*;

verus! {

/// A configurable attribute of the product.
///
/// Modifiers are ordered by their position in this declaration; lists of
/// modifiers are kept in that order.
#[derive(Clone, Copy, Debug, PartialEq, Eq, PartialOrd, Ord, Hash, Structural)]
pub enum Modifier {
    FrameStyle,
    TriggerGuardMod,
    Caliber,
    BarrelLength,
    DustCoverMod,
    RearCutMod,
    GripModRear,
    GripModFront,
    SlideMod,
    TriggerMod,
    SightType,
    BarrelMod,
    GripType,
}

/// A physical region of the product that is rendered on its own.
#[derive(Clone, Copy, Debug, PartialEq, Eq, Hash, Structural)]
pub enum Section {
    Barrel,
    Grips,
    MSH,
    Nose,
    Rear,
    Sights,
    Slide,
    Trigger,
}

/// One of the two halves of the product; every section belongs to one.
#[derive(Clone, Copy, Debug, PartialEq, Eq, Hash, Structural)]
pub enum SectionType {
    Upper,
    Lower,
}

/// The allowed values of a modifier, the default first.
pub open spec fn modifier_values_spec(modifier: Modifier) -> Seq<Option<&'static str>> {
    match modifier {
        Modifier::FrameStyle => seq![Some("Std"), Some("Tac")],
        Modifier::TriggerGuardMod => seq![None, Some("Sqr")],
        Modifier::Caliber => seq![Some("45"), Some("9mm"), Some("10mm"), Some("38"), Some("40")],
        Modifier::BarrelLength => seq![Some("Gov"), Some("Com")],
        Modifier::DustCoverMod => seq![None, Some("Ext")],
        Modifier::RearCutMod => seq![None, Some("Bob")],
        Modifier::GripModRear => seq![None, Some("RChk"), Some("RChain")],
        Modifier::GripModFront => seq![None, Some("FChk")],
        Modifier::SlideMod => seq![None, Some("Dual"), Some("Tri")],
        Modifier::TriggerMod => seq![None, Some("Skeleton")],
        Modifier::SightType => seq![
            Some("Novak"),
            Some("Tritium-1"),
            Some("Tritium-2"),
            Some("Fiber-Optic"),
        ],
        Modifier::BarrelMod => seq![None],
        Modifier::GripType => seq![Some("Smooth"), Some("Checkered")],
    }
}

/// No two entries of the list have the same text.
pub open spec fn distinct_texts(values: Seq<Option<&str>>) -> bool {
    forall|i: int, j: int|
        0 <= i < j < values.len() ==> text(#[trigger] values[i]) != text(#[trigger] values[j])
}

/// Every modifier has at least one value, and no value is listed twice.
pub proof fn lemma_modifier_values(modifier: Modifier)
    ensures
        modifier_values_spec(modifier).len() > 0,
        distinct_texts(modifier_values_spec(modifier)),
        modifier.default_spec() == modifier_values_spec(modifier)[0],
{
    reveal_strlit("Std");
    reveal_strlit("Tac");
    reveal_strlit("Sqr");
    reveal_strlit("45");
    reveal_strlit("9mm");
    reveal_strlit("10mm");
    reveal_strlit("38");
    reveal_strlit("40");
    reveal_strlit("Gov");
    reveal_strlit("Com");
    reveal_strlit("Ext");
    reveal_strlit("Bob");
    reveal_strlit("RChk");
    reveal_strlit("RChain");
    reveal_strlit("FChk");
    reveal_strlit("Dual");
    reveal_strlit("Tri");
    reveal_strlit("Skeleton");
    reveal_strlit("Novak");
    reveal_strlit("Tritium-1");
    reveal_strlit("Tritium-2");
    reveal_strlit("Fiber-Optic");
    reveal_strlit("Smooth");
    reveal_strlit("Checkered");
    assert("Std"@[0] != "Tac"@[0]);
    assert("9mm"@.len() != "10mm"@.len() && "45"@.len() != "9mm"@.len() && "45"@.len()
        != "10mm"@.len() && "38"@.len() != "9mm"@.len() && "38"@.len() != "10mm"@.len() && "40"@.len()
        != "9mm"@.len() && "40"@.len() != "10mm"@.len());
    assert("45"@[0] != "38"@[0] && "45"@[1] != "40"@[1] && "38"@[0] != "40"@[0]);
    assert("Gov"@[0] != "Com"@[0]);
    assert("RChk"@.len() != "RChain"@.len());
    assert("Dual"@.len() != "Tri"@.len());
    assert("Novak"@.len() != "Tritium-1"@.len() && "Novak"@.len() != "Tritium-2"@.len()
        && "Novak"@.len() != "Fiber-Optic"@.len() && "Tritium-1"@.len() != "Fiber-Optic"@.len()
        && "Tritium-2"@.len() != "Fiber-Optic"@.len());
    assert("Tritium-1"@[8] != "Tritium-2"@[8]);
    assert("Smooth"@.len() != "Checkered"@.len());
}

/// The allowed values of `modifier`, in catalog order.
pub fn modifier_values(modifier: &Modifier) -> (values: Vec<Option<&'static str>>)
    ensures
        values@ == modifier_values_spec(*modifier),
        values.len() > 0,
        distinct_texts(values@),
{
    let values = match modifier {
        Modifier::FrameStyle => vec![Some("Std"), Some("Tac")],
        Modifier::TriggerGuardMod => vec![None, Some("Sqr")],
        Modifier::Caliber => vec![Some("45"), Some("9mm"), Some("10mm"), Some("38"), Some("40")],
        Modifier::BarrelLength => vec![Some("Gov"), Some("Com")],
        Modifier::DustCoverMod => vec![None, Some("Ext")],
        Modifier::RearCutMod => vec![None, Some("Bob")],
        Modifier::GripModRear => vec![None, Some("RChk"), Some("RChain")],
        Modifier::GripModFront => vec![None, Some("FChk")],
        Modifier::SlideMod => vec![None, Some("Dual"), Some("Tri")],
        Modifier::TriggerMod => vec![None, Some("Skeleton")],
        Modifier::SightType => vec![
            Some("Novak"),
            Some("Tritium-1"),
            Some("Tritium-2"),
            Some("Fiber-Optic"),
        ],
        Modifier::BarrelMod => vec![None],
        Modifier::GripType => vec![Some("Smooth"), Some("Checkered")],
    };
    proof {
        assert(values@ =~= modifier_values_spec(*modifier));
        lemma_modifier_values(*modifier);
    }
    values
}

impl Modifier {
    /// The position of the modifier in the fixed order of modifiers.
    pub open spec fn rank_spec(self) -> nat {
        match self {
            Modifier::FrameStyle => 0,
            Modifier::TriggerGuardMod => 1,
            Modifier::Caliber => 2,
            Modifier::BarrelLength => 3,
            Modifier::DustCoverMod => 4,
            Modifier::RearCutMod => 5,
            Modifier::GripModRear => 6,
            Modifier::GripModFront => 7,
            Modifier::SlideMod => 8,
            Modifier::TriggerMod => 9,
            Modifier::SightType => 10,
            Modifier::BarrelMod => 11,
            Modifier::GripType => 12,
        }
    }

    /// The position of the modifier in the fixed order of modifiers.
    pub fn rank(&self) -> (rank: u8)
        ensures
            rank == self.rank_spec(),
    {
        match self {
            Modifier::FrameStyle => 0,
            Modifier::TriggerGuardMod => 1,
            Modifier::Caliber => 2,
            Modifier::BarrelLength => 3,
            Modifier::DustCoverMod => 4,
            Modifier::RearCutMod => 5,
            Modifier::GripModRear => 6,
            Modifier::GripModFront => 7,
            Modifier::SlideMod => 8,
            Modifier::TriggerMod => 9,
            Modifier::SightType => 10,
            Modifier::BarrelMod => 11,
            Modifier::GripType => 12,
        }
    }

    /// The value a modifier takes where a configuration does not bind it.
    pub open spec fn default_spec(self) -> Option<&'static str> {
        modifier_values_spec(self)[0]
    }

    /// The first value of the modifier's list.
    pub fn default(&self) -> (value: Option<&'static str>)
        ensures
            value == self.default_spec(),
    {
        let values = modifier_values(self);
        values[0]
    }
}

/// The list is in the fixed order of modifiers and names none twice.
pub open spec fn strictly_ordered(modifiers: Seq<Modifier>) -> bool {
    forall|i: int, j: int|
        0 <= i < j < modifiers.len() ==> (#[trigger] modifiers[i]).rank_spec() < (
        #[trigger] modifiers[j]).rank_spec()
}

/// The modifiers that change how a section looks, in the fixed order.
pub open spec fn section_mods_spec(section: Section) -> Seq<Modifier> {
    match section {
        Section::Barrel => seq![Modifier::Caliber, Modifier::BarrelLength, Modifier::BarrelMod],
        Section::Grips => seq![Modifier::RearCutMod, Modifier::GripType],
        Section::MSH => seq![Modifier::RearCutMod, Modifier::GripModRear],
        Section::Nose => seq![
            Modifier::FrameStyle,
            Modifier::TriggerGuardMod,
            Modifier::BarrelLength,
            Modifier::DustCoverMod,
        ],
        Section::Rear => seq![Modifier::RearCutMod, Modifier::GripModFront],
        Section::Sights => seq![Modifier::BarrelLength, Modifier::SightType],
        Section::Slide => seq![
            Modifier::Caliber,
            Modifier::BarrelLength,
            Modifier::DustCoverMod,
            Modifier::SlideMod,
        ],
        Section::Trigger => seq![Modifier::TriggerMod],
    }
}

/// The modifiers that change how any section of one half looks, in the
/// fixed order.
pub open spec fn section_type_mods_spec(section_type: SectionType) -> Seq<Modifier> {
    match section_type {
        SectionType::Upper => seq![
            Modifier::Caliber,
            Modifier::BarrelLength,
            Modifier::DustCoverMod,
            Modifier::SlideMod,
            Modifier::SightType,
            Modifier::BarrelMod,
        ],
        SectionType::Lower => seq![
            Modifier::FrameStyle,
            Modifier::TriggerGuardMod,
            Modifier::BarrelLength,
            Modifier::DustCoverMod,
            Modifier::RearCutMod,
            Modifier::GripModRear,
            Modifier::GripModFront,
            Modifier::TriggerMod,
            Modifier::GripType,
        ],
    }
}

/// Some section of the half is affected by the modifier.
pub open spec fn affects_half(section_type: SectionType, modifier: Modifier) -> bool {
    exists|section: Section|
        section.section_type_spec() == section_type && #[trigger] section_mods_spec(
            section,
        ).contains(modifier)
}

/// A section's modifiers are listed in the fixed order, none twice.
pub proof fn lemma_section_mods_ordered(section: Section)
    ensures
        strictly_ordered(section_mods_spec(section)),
        section_mods_spec(section).len() > 0,
{
}

/// A half's modifiers are listed in the fixed order, none twice, and are
/// exactly the modifiers of its sections.
pub proof fn lemma_section_type_mods(section_type: SectionType)
    ensures
        strictly_ordered(section_type_mods_spec(section_type)),
        forall|modifier: Modifier| #[trigger]
            section_type_mods_spec(section_type).contains(modifier) <==> affects_half(
                section_type,
                modifier,
            ),
{
    let mods = section_type_mods_spec(section_type);
    assert forall|modifier: Modifier| #[trigger] mods.contains(modifier) implies affects_half(
        section_type,
        modifier,
    ) by {
        let section = match modifier {
            Modifier::FrameStyle | Modifier::TriggerGuardMod => Section::Nose,
            Modifier::Caliber | Modifier::BarrelMod => Section::Barrel,
            Modifier::BarrelLength | Modifier::DustCoverMod => if section_type
                == SectionType::Upper {
                Section::Slide
            } else {
                Section::Nose
            },
            Modifier::RearCutMod | Modifier::GripType => Section::Grips,
            Modifier::GripModRear => Section::MSH,
            Modifier::GripModFront => Section::Rear,
            Modifier::SlideMod => Section::Slide,
            Modifier::TriggerMod => Section::Trigger,
            Modifier::SightType => Section::Sights,
        };
        assert(section_mods_spec(section)[0] == modifier || section_mods_spec(section)[1]
            == modifier || section_mods_spec(section)[2] == modifier || section_mods_spec(
            section,
        )[3] == modifier);
        assert(section.section_type_spec() == section_type);
        assert(section_mods_spec(section).contains(modifier));
    }
    assert forall|modifier: Modifier| affects_half(section_type, modifier) implies #[trigger]
        mods.contains(modifier) by {
        let section = choose|section: Section|
            section.section_type_spec() == section_type && #[trigger] section_mods_spec(
                section,
            ).contains(modifier);
        let k = choose|k: int|
            0 <= k < section_mods_spec(section).len() && section_mods_spec(section)[k] == modifier;
        assert(0 <= k < 4);
        assert(mods[0] == modifier || mods[1] == modifier || mods[2] == modifier || mods[3]
            == modifier || mods[4] == modifier || mods[5] == modifier || (mods.len() == 9 && (
            mods[6] == modifier || mods[7] == modifier || mods[8] == modifier)));
    }
}

/// Every modifier of a section is a modifier of the section's half.
pub proof fn lemma_section_mods_in_half(section: Section, modifier: Modifier)
    requires
        section_mods_spec(section).contains(modifier),
    ensures
        section_type_mods_spec(section.section_type_spec()).contains(modifier),
{
    lemma_section_type_mods(section.section_type_spec());
}

/// The modifiers that affect `section`, in the fixed order of modifiers.
pub fn section_mods(section: &Section) -> (modifiers: Vec<Modifier>)
    ensures
        modifiers@ == section_mods_spec(*section),
        strictly_ordered(modifiers@),
        modifiers.len() > 0,
{
    let modifiers = match section {
        Section::Barrel => vec![Modifier::Caliber, Modifier::BarrelLength, Modifier::BarrelMod],
        Section::Grips => vec![Modifier::RearCutMod, Modifier::GripType],
        Section::MSH => vec![Modifier::RearCutMod, Modifier::GripModRear],
        Section::Nose => vec![
            Modifier::FrameStyle,
            Modifier::TriggerGuardMod,
            Modifier::BarrelLength,
            Modifier::DustCoverMod,
        ],
        Section::Rear => vec![Modifier::RearCutMod, Modifier::GripModFront],
        Section::Sights => vec![Modifier::BarrelLength, Modifier::SightType],
        Section::Slide => vec![
            Modifier::Caliber,
            Modifier::BarrelLength,
            Modifier::DustCoverMod,
            Modifier::SlideMod,
        ],
        Section::Trigger => vec![Modifier::TriggerMod],
    };
    proof {
        assert(modifiers@ =~= section_mods_spec(*section));
        lemma_section_mods_ordered(*section);
    }
    modifiers
}

/// The modifiers that affect any section of `section_type`: the union of the
/// sections' lists, each modifier once, in the fixed order of modifiers.
pub fn section_type_mods(section_type: &SectionType) -> (modifiers: Vec<Modifier>)
    ensures
        modifiers@ == section_type_mods_spec(*section_type),
        strictly_ordered(modifiers@),
        forall|modifier: Modifier| #[trigger]
            modifiers@.contains(modifier) <==> affects_half(*section_type, modifier),
{
    let modifiers = match section_type {
        SectionType::Upper => vec![
            Modifier::Caliber,
            Modifier::BarrelLength,
            Modifier::DustCoverMod,
            Modifier::SlideMod,
            Modifier::SightType,
            Modifier::BarrelMod,
        ],
        SectionType::Lower => vec![
            Modifier::FrameStyle,
            Modifier::TriggerGuardMod,
            Modifier::BarrelLength,
            Modifier::DustCoverMod,
            Modifier::RearCutMod,
            Modifier::GripModRear,
            Modifier::GripModFront,
            Modifier::TriggerMod,
            Modifier::GripType,
        ],
    };
    proof {
        assert(modifiers@ =~= section_type_mods_spec(*section_type));
        lemma_section_type_mods(*section_type);
    }
    modifiers
}

impl Section {
    /// Every section, in catalog order.
    pub open spec fn all_spec() -> Seq<Section> {
        seq![
            Section::Barrel,
            Section::Grips,
            Section::MSH,
            Section::Nose,
            Section::Rear,
            Section::Sights,
            Section::Slide,
            Section::Trigger,
        ]
    }

    /// The section's name as it is written in the catalog.
    pub open spec fn name_spec(self) -> &'static str {
        match self {
            Section::Barrel => "Barrel",
            Section::Grips => "Grips",
            Section::MSH => "MSH",
            Section::Nose => "Nose",
            Section::Rear => "Rear",
            Section::Sights => "Sights",
            Section::Slide => "Slide",
            Section::Trigger => "Trigger",
        }
    }

    /// The half of the product that the section belongs to.
    pub open spec fn section_type_spec(self) -> SectionType {
        match self {
            Section::Barrel | Section::Sights | Section::Slide => SectionType::Upper,
            Section::Grips | Section::MSH | Section::Nose | Section::Rear | Section::Trigger =>
                SectionType::Lower,
        }
    }

    /// All sections, each once, in catalog order.
    pub fn iterator() -> (sections: Vec<Section>)
        ensures
            sections@ == Section::all_spec(),
            forall|section: Section| #[trigger] sections@.contains(section),
            sections@.no_duplicates(),
    {
        let sections = vec![
            Section::Barrel,
            Section::Grips,
            Section::MSH,
            Section::Nose,
            Section::Rear,
            Section::Sights,
            Section::Slide,
            Section::Trigger,
        ];
        proof {
            assert(sections@ =~= Section::all_spec());
            assert forall|section: Section| #[trigger] sections@.contains(section) by {
                let i: int = match section {
                    Section::Barrel => 0,
                    Section::Grips => 1,
                    Section::MSH => 2,
                    Section::Nose => 3,
                    Section::Rear => 4,
                    Section::Sights => 5,
                    Section::Slide => 6,
                    Section::Trigger => 7,
                };
                assert(sections@[i] == section);
            }
        }
        sections
    }

    /// The section's name.
    pub fn name(&self) -> (name: &'static str)
        ensures
            name == self.name_spec(),
    {
        match self {
            Section::Barrel => "Barrel",
            Section::Grips => "Grips",
            Section::MSH => "MSH",
            Section::Nose => "Nose",
            Section::Rear => "Rear",
            Section::Sights => "Sights",
            Section::Slide => "Slide",
            Section::Trigger => "Trigger",
        }
    }

    /// The half of the product that the section belongs to.
    pub fn section_type(&self) -> (section_type: SectionType)
        ensures
            section_type == self.section_type_spec(),
    {
        match self {
            Section::Barrel => SectionType::Upper,
            Section::Grips => SectionType::Lower,
            Section::MSH => SectionType::Lower,
            Section::Nose => SectionType::Lower,
            Section::Rear => SectionType::Lower,
            Section::Sights => SectionType::Upper,
            Section::Slide => SectionType::Upper,
            Section::Trigger => SectionType::Lower,
        }
    }
}

impl SectionType {
    /// Both halves, in catalog order.
    pub open spec fn all_spec() -> Seq<SectionType> {
        seq![SectionType::Upper, SectionType::Lower]
    }

    /// The half's name as it is written in the catalog.
    pub open spec fn name_spec(self) -> &'static str {
        match self {
            SectionType::Upper => "Upper",
            SectionType::Lower => "Lower",
        }
    }

    /// Both halves, each once, in catalog order.
    pub fn iterator() -> (section_types: Vec<SectionType>)
        ensures
            section_types@ == SectionType::all_spec(),
            forall|section_type: SectionType| #[trigger] section_types@.contains(section_type),
            section_types@.no_duplicates(),
    {
        let section_types = vec![SectionType::Upper, SectionType::Lower];
        proof {
            assert(section_types@ =~= SectionType::all_spec());
            assert(section_types@[0] == SectionType::Upper);
            assert(section_types@[1] == SectionType::Lower);
        }
        section_types
    }

    /// The half's name.
    pub fn name(&self) -> (name: &'static str)
        ensures
            name == self.name_spec(),
    {
        match self {
            SectionType::Upper => "Upper",
            SectionType::Lower => "Lower",
        }
    }
}

/// The parts written one after the other with a hyphen between neighbours.
pub open spec fn hyphenated(parts: Seq<Seq<char>>) -> Seq<char> {
    joined(parts, seq!['-'])
}

/// The asset name of a section with the given values: the section's name, a
/// hyphen, and the values that are present joined by hyphens, all in lower
/// case. A value that is absent contributes nothing, not even a hyphen.
pub open spec fn config_name_spec(
    section_name: Seq<char>,
    values: Seq<Option<Seq<char>>>,
) -> Seq<char> {
    lowercase(section_name + seq!['-'] + hyphenated(present(values)))
}

/// Builds the asset name of the section called `section_name` from the
/// values of its modifiers, given in the section's modifier order.
pub fn config_name(section_name: &str, values: Vec<Option<&str>>) -> (name: String)
    ensures
        name@ == config_name_spec(section_name@, texts(values@)),
{
    let mut name = section_name.to_owned();
    name.append("-");
    proof {
        reveal_strlit("-");
        assert("-"@ =~= seq!['-']);
    }
    append_joined(&mut name, &values, "-");
    proof {
        assert(name@ =~= section_name@ + seq!['-'] + hyphenated(present(texts(values@))));
    }
    ascii_lowercase(name)
}

/// The texts of the values that a configuration binds, in its order.
pub open spec fn bound_texts(config: Seq<(Modifier, Option<&str>)>) -> Seq<Option<Seq<char>>> {
    Seq::new(config.len(), |i: int| text(config[i].1))
}

/// The name of the picture of a half under a configuration: the bound
/// values that are present, joined by hyphens, in lower case.
pub open spec fn configuration_name_spec(config: Seq<(Modifier, Option<&str>)>) -> Seq<char> {
    lowercase(hyphenated(present(bound_texts(config))))
}

/// Builds the name under which the picture of `config` is kept.
pub fn configuration_name(config: &Vec<(Modifier, Option<&str>)>) -> (name: String)
    ensures
        name@ == configuration_name_spec(config@),
{
    let mut values: Vec<Option<&str>> = Vec::new();
    let mut i: usize = 0;
    while i < config.len()
        invariant
            i <= config.len(),
            values.len() == i,
            forall|k: int| 0 <= k < i ==> #[trigger] values@[k] == config@[k].1,
        decreases config.len() - i,
    {
        values.push(config[i].1);
        i += 1;
    }
    proof {
        assert(texts(values@) =~= bound_texts(config@));
    }
    let mut name = String::new();
    append_joined(&mut name, &values, "-");
    proof {
        reveal_strlit("-");
        assert("-"@ =~= seq!['-']);
        assert(name@ =~= hyphenated(present(texts(values@))));
    }
    ascii_lowercase(name)
}

/// The value that is rendered for a section where the configuration asks
/// for `value`. Every value stands for itself, with one exception: the
/// slide is rendered for the calibers `45` and `9mm` only, and the render
/// for `9mm` serves `10mm`, `38` and `40` too.
pub open spec fn fallback_spec(section: Section, value: Option<Seq<char>>) -> Option<Seq<char>> {
    if section == Section::Slide && (value == Some("10mm"@) || value == Some("38"@) || value
        == Some("40"@)) {
        Some("9mm"@)
    } else {
        value
    }
}

/// Replaces `value` by the value whose render stands for it in `section`.
pub fn apply_fallbacks<'a>(section: &Section, value: Option<&'a str>) -> (rendered: Option<
    &'a str,
>)
    ensures
        text(rendered) == fallback_spec(*section, text(value)),
{
    match section {
        Section::Slide => match value {
            Some(v) => {
                if same_text(v, "10mm") || same_text(v, "38") || same_text(v, "40") {
                    Some("9mm")
                } else {
                    value
                }
            },
            None => value,
        },
        _ => value,
    }
}

/// The text of the first value that `config` binds to `modifier`, or `None`
/// where it binds none.
pub open spec fn bound_value(
    config: Seq<(Modifier, Option<&str>)>,
    modifier: Modifier,
) -> Option<Option<Seq<char>>>
    decreases config.len(),
{
    if config.len() == 0 {
        None
    } else if config[0].0 == modifier {
        Some(text(config[0].1))
    } else {
        bound_value(config.drop_first(), modifier)
    }
}

/// The values that name the asset of `section` under `config`, one for each
/// modifier of the section: the bound value, or the modifier's default
/// where `config` binds none, replaced by the value whose render stands for
/// it.
pub open spec fn local_values(
    section: Section,
    config: Seq<(Modifier, Option<&str>)>,
) -> Seq<Option<Seq<char>>> {
    let modifiers = section_mods_spec(section);
    Seq::new(
        modifiers.len(),
        |i: int|
            fallback_spec(
                section,
                match bound_value(config, modifiers[i]) {
                    Some(value) => value,
                    None => text(modifiers[i].default_spec()),
                },
            ),
    )
}

/// The name of the asset that shows `section` under `config`.
pub open spec fn matching_config_spec(
    section: Section,
    config: Seq<(Modifier, Option<&str>)>,
) -> Seq<char> {
    config_name_spec(section.name_spec()@, local_values(section, config))
}

/// The asset name of a section is a function of the values that the
/// configuration binds to the section's own modifiers: two configurations
/// that agree on those give the same name, whatever else they bind.
pub proof fn lemma_matching_config_local(
    section: Section,
    first: Seq<(Modifier, Option<&str>)>,
    second: Seq<(Modifier, Option<&str>)>,
)
    requires
        forall|modifier: Modifier| #[trigger]
            section_mods_spec(section).contains(modifier) ==> bound_value(first, modifier)
                == bound_value(second, modifier),
    ensures
        matching_config_spec(section, first) == matching_config_spec(section, second),
{
    let modifiers = section_mods_spec(section);
    assert forall|i: int| 0 <= i < modifiers.len() implies bound_value(first, modifiers[i])
        == bound_value(second, modifiers[i]) by {
        assert(modifiers.contains(modifiers[i]));
    }
    assert(local_values(section, first) =~= local_values(section, second));
}

/// The bindings of `config` to the modifiers of `section`, in their order.
pub open spec fn restricted(
    config: Seq<(Modifier, Option<&str>)>,
    section: Section,
) -> Seq<(Modifier, Option<&str>)>
    decreases config.len(),
{
    if config.len() == 0 {
        Seq::empty()
    } else if section_mods_spec(section).contains(config[0].0) {
        seq![config[0]] + restricted(config.drop_first(), section)
    } else {
        restricted(config.drop_first(), section)
    }
}

proof fn lemma_restricted_binds(
    config: Seq<(Modifier, Option<&str>)>,
    section: Section,
    modifier: Modifier,
)
    requires
        section_mods_spec(section).contains(modifier),
    ensures
        bound_value(restricted(config, section), modifier) == bound_value(config, modifier),
    decreases config.len(),
{
    if config.len() > 0 {
        let rest = restricted(config.drop_first(), section);
        lemma_restricted_binds(config.drop_first(), section, modifier);
        if section_mods_spec(section).contains(config[0].0) {
            let kept = seq![config[0]] + rest;
            assert(kept[0] == config[0]);
            assert(kept.drop_first() =~= rest);
        }
    }
}

/// The asset name of a section under a configuration is its name under the
/// part of the configuration that binds the section's own modifiers.
pub proof fn lemma_matching_config_restricted(
    section: Section,
    config: Seq<(Modifier, Option<&str>)>,
)
    ensures
        matching_config_spec(section, config) == matching_config_spec(
            section,
            restricted(config, section),
        ),
{
    assert forall|modifier: Modifier| #[trigger]
        section_mods_spec(section).contains(modifier) implies bound_value(config, modifier)
        == bound_value(restricted(config, section), modifier) by {
        lemma_restricted_binds(config, section, modifier);
    }
    lemma_matching_config_local(section, config, restricted(config, section));
}

/// The first value that `config` binds to `modifier`.
fn find_value<'a>(config: &Vec<(Modifier, Option<&'a str>)>, modifier: Modifier) -> (found: Option<
    Option<&'a str>,
>)
    ensures
        match found {
            Some(value) => bound_value(config@, modifier) == Some(text(value)),
            None => bound_value(config@, modifier).is_none(),
        },
{
    let mut i: usize = 0;
    proof {
        assert(config@.skip(0) =~= config@);
    }
    while i < config.len()
        invariant
            i <= config.len(),
            bound_value(config@, modifier) == bound_value(config@.skip(i as int), modifier),
        decreases config.len() - i,
    {
        proof {
            assert(config@.skip(i as int)[0] == config@[i as int]);
            assert(config@.skip(i as int).drop_first() =~= config@.skip(i + 1));
        }
        if config[i].0 == modifier {
            return Some(config[i].1);
        }
        i += 1;
    }
    proof {
        assert(config@.skip(i as int).len() == 0);
    }
    None
}

impl Section {
    /// The name of the asset that shows this section under `config`: for
    /// each modifier of the section, the value that `config` binds to it
    /// (the modifier's default where it binds none), replaced by the value
    /// whose render stands for it, and the whole written as an asset name.
    pub fn matching_config<'a>(&self, config: &Vec<(Modifier, Option<&'a str>)>) -> (name: String)
        ensures
            name@ == matching_config_spec(*self, config@),
    {
        let modifiers = section_mods(self);
        let mut values: Vec<Option<&'a str>> = Vec::new();
        let mut i: usize = 0;
        while i < modifiers.len()
            invariant
                i <= modifiers.len(),
                modifiers@ == section_mods_spec(*self),
                values.len() == i,
                forall|k: int|
                    0 <= k < i ==> text(#[trigger] values@[k]) == local_values(*self, config@)[k],
            decreases modifiers.len() - i,
        {
            let bound = match find_value(config, modifiers[i]) {
                Some(value) => value,
                None => modifiers[i].default(),
            };
            values.push(apply_fallbacks(self, bound));
            i += 1;
        }
        proof {
            assert(texts(values@) =~= local_values(*self, config@));
        }
        config_name(self.name(), values)
    }
}

/// The values of a modifier that a section is rendered for. A value whose
/// render is served by another value's (see [`fallback_spec`]) is left out,
/// so that no asset is named twice: of the calibers, the slide keeps the
/// first two.
pub open spec fn rendered_values_spec(section: Section, modifier: Modifier) -> Seq<
    Option<&'static str>,
> {
    if section == Section::Slide && modifier == Modifier::Caliber {
        modifier_values_spec(modifier).take(2)
    } else {
        modifier_values_spec(modifier)
    }
}

/// The rendered values of each modifier of a section, in the section's
/// modifier order.
pub open spec fn section_value_lists(section: Section) -> Seq<Seq<Option<&'static str>>> {
    let modifiers = section_mods_spec(section);
    Seq::new(modifiers.len(), |i: int| rendered_values_spec(section, modifiers[i]))
}

/// The asset names of a section: one for each row of the Cartesian product
/// of its rendered values, in the order of the product.
pub open spec fn section_configurations_spec(section: Section) -> Seq<Seq<char>> {
    let product = cartesian(section_value_lists(section));
    Seq::new(
        product.len(),
        |k: int| config_name_spec(section.name_spec()@, texts(product[k])),
    )
}

/// The characters of each string of a list.
pub open spec fn names_of(names: Seq<String>) -> Seq<Seq<char>> {
    Seq::new(names.len(), |i: int| names[i]@)
}

/// The rendered values are what the fallback rule makes of the catalog's
/// values, each once: no two of them have the same text, the rule leaves
/// each of them as it is, and it sends every value of the catalog to one
/// of them.
pub proof fn lemma_rendered_values(section: Section, modifier: Modifier)
    ensures
        distinct_texts(rendered_values_spec(section, modifier)),
        forall|i: int|
            0 <= i < rendered_values_spec(section, modifier).len() ==> fallback_spec(
                section,
                text(#[trigger] rendered_values_spec(section, modifier)[i]),
            ) == text(rendered_values_spec(section, modifier)[i]),
        forall|i: int|
            0 <= i < modifier_values_spec(modifier).len() ==> texts(
                rendered_values_spec(section, modifier),
            ).contains(fallback_spec(section, text(#[trigger] modifier_values_spec(modifier)[i]))),
{
    lemma_modifier_values(modifier);
    let rendered = rendered_values_spec(section, modifier);
    let all = modifier_values_spec(modifier);
    assert forall|i: int| 0 <= i < all.len() implies texts(rendered).contains(
        fallback_spec(section, text(#[trigger] all[i])),
    ) by {
        lemma_fallback_of_value(section, modifier, i);
        if section == Section::Slide && modifier == Modifier::Caliber {
            let at: int = if i == 0 {
                0
            } else {
                1
            };
            assert(texts(rendered)[at] == fallback_spec(section, text(all[i])));
        } else {
            assert(texts(rendered)[i] == text(all[i]));
        }
    }
    assert forall|i: int| 0 <= i < rendered.len() implies fallback_spec(
        section,
        text(#[trigger] rendered[i]),
    ) == text(rendered[i]) by {
        lemma_fallback_of_value(section, modifier, i);
    }
}

/// What the fallback rule makes of the values of the catalog: of the last
/// three calibers, for the slide, the second caliber; of any other value,
/// the value itself.
proof fn lemma_fallback_of_value(section: Section, modifier: Modifier, i: int)
    requires
        0 <= i < modifier_values_spec(modifier).len(),
    ensures
        fallback_spec(section, text(modifier_values_spec(modifier)[i])) == (if section
            == Section::Slide && modifier == Modifier::Caliber && i >= 2 {
            text(modifier_values_spec(modifier)[1])
        } else {
            text(modifier_values_spec(modifier)[i])
        }),
{
    reveal_strlit("Std");
    reveal_strlit("Tac");
    reveal_strlit("Sqr");
    reveal_strlit("45");
    reveal_strlit("9mm");
    reveal_strlit("10mm");
    reveal_strlit("38");
    reveal_strlit("40");
    reveal_strlit("Gov");
    reveal_strlit("Com");
    reveal_strlit("Ext");
    reveal_strlit("Bob");
    reveal_strlit("RChk");
    reveal_strlit("RChain");
    reveal_strlit("FChk");
    reveal_strlit("Dual");
    reveal_strlit("Tri");
    reveal_strlit("Skeleton");
    reveal_strlit("Novak");
    reveal_strlit("Tritium-1");
    reveal_strlit("Tritium-2");
    reveal_strlit("Fiber-Optic");
    reveal_strlit("Smooth");
    reveal_strlit("Checkered");
    assert("10mm"@.len() == 4 && "38"@.len() == 2 && "40"@.len() == 2);
    assert("10mm"@[0] == '1' && "38"@[0] == '3' && "40"@[0] == '4');
    assert("45"@.len() == 2 && "45"@[1] == '5' && "45"@[0] == '4' && "9mm"@.len() == 3);
    assert("Std"@.len() == 3 && "Tac"@.len() == 3 && "Sqr"@.len() == 3 && "Gov"@.len() == 3
        && "Com"@.len() == 3 && "Ext"@.len() == 3 && "Bob"@.len() == 3 && "Tri"@.len() == 3);
    assert("RChk"@.len() == 4 && "FChk"@.len() == 4 && "Dual"@.len() == 4);
    assert("RChk"@[0] == 'R' && "FChk"@[0] == 'F' && "Dual"@[0] == 'D');
    assert("RChain"@.len() == 6 && "Skeleton"@.len() == 8 && "Novak"@.len() == 5
        && "Tritium-1"@.len() == 9 && "Tritium-2"@.len() == 9 && "Fiber-Optic"@.len() == 11
        && "Smooth"@.len() == 6 && "Checkered"@.len() == 9);
}

/// No two assets of a section stand for the same values: any two rows of
/// the section's product differ in the text of some value.
pub proof fn lemma_section_rows_differ(section: Section, a: int, b: int)
    requires
        0 <= a < cartesian(section_value_lists(section)).len(),
        0 <= b < cartesian(section_value_lists(section)).len(),
        a != b,
    ensures
        texts(cartesian(section_value_lists(section))[a]) != texts(
            cartesian(section_value_lists(section))[b],
        ),
{
    let lists = section_value_lists(section);
    let first = cartesian(lists)[a];
    let second = cartesian(lists)[b];
    lemma_cartesian_rows_differ(lists, a, b);
    let (p, i, j) = choose|p: int, i: int, j: int|
        0 <= p < lists.len() && 0 <= i < lists[p].len() && 0 <= j < lists[p].len() && i != j
            && #[trigger] lists[p][i] == first[p] && #[trigger] lists[p][j] == second[p];
    lemma_cartesian_row(lists, a);
    lemma_cartesian_row(lists, b);
    lemma_rendered_values(section, section_mods_spec(section)[p]);
    assert(text(lists[p][i]) != text(lists[p][j]));
    assert(texts(first)[p] == text(first[p]));
    assert(texts(second)[p] == text(second[p]));
}

/// A copy of the first `n` items of `values`.
fn first_values<'a>(values: &Vec<Option<&'a str>>, n: usize) -> (head: Vec<Option<&'a str>>)
    requires
        n <= values.len(),
    ensures
        head@ == values@.take(n as int),
{
    let mut head: Vec<Option<&'a str>> = Vec::new();
    let mut i: usize = 0;
    while i < n
        invariant
            i <= n <= values.len(),
            head@ == values@.take(i as int),
        decreases n - i,
    {
        head.push(values[i]);
        proof {
            assert(head@ =~= values@.take(i + 1));
        }
        i += 1;
    }
    head
}

impl Section {
    /// The names of all assets that are rendered for this section: one for
    /// each choice of a rendered value for each of its modifiers.
    pub fn configurations(&self) -> (names: Vec<String>)
        ensures
            names_of(names@) == section_configurations_spec(*self),
            names_of(names@).no_duplicates(),
    {
        let modifiers = section_mods(self);
        let mut lists: Vec<Vec<Option<&'static str>>> = Vec::new();
        let mut i: usize = 0;
        while i < modifiers.len()
            invariant
                i <= modifiers.len(),
                modifiers@ == section_mods_spec(*self),
                lists.len() == i,
                forall|k: int|
                    0 <= k < i ==> (#[trigger] lists@[k])@ == section_value_lists(*self)[k],
            decreases modifiers.len() - i,
        {
            let values = modifier_values(&modifiers[i]);
            let rendered = if *self == Section::Slide && modifiers[i] == Modifier::Caliber {
                first_values(&values, 2)
            } else {
                values
            };
            lists.push(rendered);
            i += 1;
        }
        proof {
            assert(rows(lists@) =~= section_value_lists(*self));
        }
        let product = multi_cartesian_product(lists);
        let mut names: Vec<String> = Vec::new();
        let mut k: usize = 0;
        while k < product.len()
            invariant
                k <= product.len(),
                rows(product@) == cartesian(section_value_lists(*self)),
                names.len() == k,
                forall|j: int|
                    0 <= j < k ==> (#[trigger] names@[j])@ == section_configurations_spec(
                        *self,
                    )[j],
            decreases product.len() - k,
        {
            let row = first_values(&product[k], product[k].len());
            proof {
                assert(row@ =~= product@[k as int]@);
                assert(rows(product@)[k as int] == product@[k as int]@);
            }
            names.push(config_name(self.name(), row));
            k += 1;
        }
        proof {
            assert(rows(product@).len() == product.len());
            assert(names_of(names@) =~= section_configurations_spec(*self));
            let all = section_configurations_spec(*self);
            assert forall|i: int, j: int| 0 <= i < all.len() && 0 <= j < all.len() && i
                != j implies all[i] != all[j] by {
                crate::names::lemma_asset_names_distinct(*self, i, j);
            }
        }
        names
    }
}

/// The bindings of a modifier to each of its values, in catalog order.
pub open spec fn bindings_spec(modifier: Modifier) -> Seq<(Modifier, Option<&'static str>)> {
    let values = modifier_values_spec(modifier);
    Seq::new(values.len(), |i: int| (modifier, values[i]))
}

/// The bindings of each modifier of a half, in the half's modifier order.
pub open spec fn global_lists(section_type: SectionType) -> Seq<
    Seq<(Modifier, Option<&'static str>)>,
> {
    let modifiers = section_type_mods_spec(section_type);
    Seq::new(modifiers.len(), |i: int| bindings_spec(modifiers[i]))
}

/// The configurations of a half: every way to bind each of its modifiers to
/// one of the modifier's values.
pub open spec fn configurations_spec(section_type: SectionType) -> Seq<
    Seq<(Modifier, Option<&'static str>)>,
> {
    cartesian(global_lists(section_type))
}

/// The product of the numbers of values of the modifiers of a list.
pub open spec fn value_count(modifiers: Seq<Modifier>) -> nat
    decreases modifiers.len(),
{
    if modifiers.len() == 0 {
        1
    } else {
        modifier_values_spec(modifiers[0]).len() * value_count(modifiers.drop_first())
    }
}

proof fn lemma_count_bindings(modifiers: Seq<Modifier>)
    ensures
        count(Seq::new(modifiers.len(), |i: int| bindings_spec(modifiers[i]))) == value_count(
            modifiers,
        ),
    decreases modifiers.len(),
{
    if modifiers.len() > 0 {
        let lists = Seq::new(modifiers.len(), |i: int| bindings_spec(modifiers[i]));
        let tail = modifiers.drop_first();
        lemma_count_bindings(tail);
        assert(lists.drop_first() =~= Seq::new(tail.len(), |i: int| bindings_spec(tail[i])));
    }
}

/// A half has as many configurations as the product of the numbers of
/// values of its modifiers: 240 for the upper half, 768 for the lower.
pub proof fn lemma_configuration_count(section_type: SectionType)
    ensures
        configurations_spec(section_type).len() == value_count(
            section_type_mods_spec(section_type),
        ),
        configurations_spec(section_type).len() == (if section_type == SectionType::Upper {
            240nat
        } else {
            768nat
        }),
{
    lemma_cartesian_len(global_lists(section_type));
    lemma_count_bindings(section_type_mods_spec(section_type));
    match section_type {
        SectionType::Upper => lemma_value_count_upper(),
        SectionType::Lower => lemma_value_count_lower(),
    }
}

proof fn lemma_value_count_upper()
    ensures
        value_count(section_type_mods_spec(SectionType::Upper)) == 240,
{
    let m = section_type_mods_spec(SectionType::Upper);
    let m1 = m.drop_first();
    let m2 = m1.drop_first();
    let m3 = m2.drop_first();
    let m4 = m3.drop_first();
    let m5 = m4.drop_first();
    assert(m5.drop_first().len() == 0);
    lemma_value_count_step(m5, 1, 1);
    assert(value_count(m5) == 1);
    lemma_value_count_step(m4, 4, 1);
    assert(value_count(m4) == 4);
    lemma_value_count_step(m3, 3, 4);
    assert(value_count(m3) == 12);
    lemma_value_count_step(m2, 2, 12);
    assert(value_count(m2) == 24);
    lemma_value_count_step(m1, 2, 24);
    assert(value_count(m1) == 48);
    lemma_value_count_step(m, 5, 48);
    assert(value_count(m) == 240);
}

proof fn lemma_value_count_lower()
    ensures
        value_count(section_type_mods_spec(SectionType::Lower)) == 768,
{
    let m = section_type_mods_spec(SectionType::Lower);
    let m1 = m.drop_first();
    let m2 = m1.drop_first();
    let m3 = m2.drop_first();
    let m4 = m3.drop_first();
    let m5 = m4.drop_first();
    let m6 = m5.drop_first();
    let m7 = m6.drop_first();
    let m8 = m7.drop_first();
    assert(m8.drop_first().len() == 0);
    lemma_value_count_step(m8, 2, 1);
    assert(value_count(m8) == 2);
    lemma_value_count_step(m7, 2, 2);
    assert(value_count(m7) == 4);
    lemma_value_count_step(m6, 2, 4);
    assert(value_count(m6) == 8);
    lemma_value_count_step(m5, 3, 8);
    assert(value_count(m5) == 24);
    lemma_value_count_step(m4, 2, 24);
    assert(value_count(m4) == 48);
    lemma_value_count_step(m3, 2, 48);
    assert(value_count(m3) == 96);
    lemma_value_count_step(m2, 2, 96);
    assert(value_count(m2) == 192);
    lemma_value_count_step(m1, 2, 192);
    assert(value_count(m1) == 384);
    lemma_value_count_step(m, 2, 384);
    assert(value_count(m) == 768);
}

proof fn lemma_value_count_step(modifiers: Seq<Modifier>, values: nat, rest: nat)
    requires
        modifiers.len() > 0,
        modifier_values_spec(modifiers[0]).len() == values,
        value_count(modifiers.drop_first()) == rest,
    ensures
        value_count(modifiers) == values * rest,
{
}

/// Every configuration of a half binds each modifier of the half once, in
/// the half's modifier order, to one of the modifier's values.
pub proof fn lemma_configuration_binds(section_type: SectionType, k: int)
    requires
        0 <= k < configurations_spec(section_type).len(),
    ensures
        configurations_spec(section_type)[k].len() == section_type_mods_spec(section_type).len(),
        forall|j: int|
            0 <= j < section_type_mods_spec(section_type).len() ==> {
                let binding = #[trigger] configurations_spec(section_type)[k][j];
                let modifier = section_type_mods_spec(section_type)[j];
                binding.0 == modifier && modifier_values_spec(modifier).contains(binding.1)
            },
{
    let lists = global_lists(section_type);
    lemma_cartesian_row(lists, k);
    let row = configurations_spec(section_type)[k];
    assert forall|j: int| 0 <= j < section_type_mods_spec(section_type).len() implies {
        let binding = #[trigger] row[j];
        let modifier = section_type_mods_spec(section_type)[j];
        binding.0 == modifier && modifier_values_spec(modifier).contains(binding.1)
    } by {
        let modifier = section_type_mods_spec(section_type)[j];
        assert(lists[j].contains(row[j]));
        let at = choose|at: int| 0 <= at < lists[j].len() && lists[j][at] == row[j];
        assert(lists[j][at] == (modifier, modifier_values_spec(modifier)[at]));
    }
}

/// No configuration of a half is listed twice: any two of them bind some
/// modifier to values of different text.
pub proof fn lemma_configurations_differ(section_type: SectionType, a: int, b: int)
    requires
        0 <= a < configurations_spec(section_type).len(),
        0 <= b < configurations_spec(section_type).len(),
        a != b,
    ensures
        bound_texts(configurations_spec(section_type)[a]) != bound_texts(
            configurations_spec(section_type)[b],
        ),
{
    let lists = global_lists(section_type);
    let first = configurations_spec(section_type)[a];
    let second = configurations_spec(section_type)[b];
    lemma_cartesian_rows_differ(lists, a, b);
    let (p, i, j) = choose|p: int, i: int, j: int|
        0 <= p < lists.len() && 0 <= i < lists[p].len() && 0 <= j < lists[p].len() && i != j
            && #[trigger] lists[p][i] == first[p] && #[trigger] lists[p][j] == second[p];
    lemma_cartesian_row(lists, a);
    lemma_cartesian_row(lists, b);
    let modifier = section_type_mods_spec(section_type)[p];
    lemma_modifier_values(modifier);
    let values = modifier_values_spec(modifier);
    assert(text(values[i]) != text(values[j]));
    assert(bound_texts(first)[p] == text(first[p].1));
    assert(bound_texts(second)[p] == text(second[p].1));
}

/// The bindings of `modifier` to each of its values.
fn bindings(modifier: Modifier) -> (list: Vec<(Modifier, Option<&'static str>)>)
    ensures
        list@ == bindings_spec(modifier),
{
    let values = modifier_values(&modifier);
    let mut list: Vec<(Modifier, Option<&'static str>)> = Vec::new();
    let mut i: usize = 0;
    while i < values.len()
        invariant
            i <= values.len(),
            values@ == modifier_values_spec(modifier),
            list.len() == i,
            forall|k: int| 0 <= k < i ==> #[trigger] list@[k] == bindings_spec(modifier)[k],
        decreases values.len() - i,
    {
        list.push((modifier, values[i]));
        i += 1;
    }
    proof {
        assert(list@ =~= bindings_spec(modifier));
    }
    list
}

impl SectionType {
    /// All configurations of this half: the Cartesian product of the values
    /// of its modifiers, each modifier bound in every configuration.
    pub fn configurations(&self) -> (configs: Vec<Vec<(Modifier, Option<&'static str>)>>)
        ensures
            rows(configs@) == configurations_spec(*self),
            configs.len() == value_count(section_type_mods_spec(*self)),
    {
        let modifiers = section_type_mods(self);
        let mut lists: Vec<Vec<(Modifier, Option<&'static str>)>> = Vec::new();
        let mut i: usize = 0;
        while i < modifiers.len()
            invariant
                i <= modifiers.len(),
                modifiers@ == section_type_mods_spec(*self),
                lists.len() == i,
                forall|k: int| 0 <= k < i ==> (#[trigger] lists@[k])@ == global_lists(*self)[k],
            decreases modifiers.len() - i,
        {
            lists.push(bindings(modifiers[i]));
            i += 1;
        }
        proof {
            assert(rows(lists@) =~= global_lists(*self));
            lemma_configuration_count(*self);
        }
        let configs = multi_cartesian_product(lists);
        proof {
            assert(rows(configs@).len() == configs.len());
        }
        configs
    }
}

/// The sections of a half, in catalog order.
pub open spec fn sections_spec(section_type: SectionType) -> Seq<Section> {
    match section_type {
        SectionType::Upper => seq![Section::Barrel, Section::Sights, Section::Slide],
        SectionType::Lower => seq![
            Section::Grips,
            Section::MSH,
            Section::Nose,
            Section::Rear,
            Section::Trigger,
        ],
    }
}

/// The list of a half's sections holds exactly the sections of that half,
/// each once and in catalog order.
pub proof fn lemma_sections(section_type: SectionType)
    ensures
        forall|section: Section| #[trigger]
            sections_spec(section_type).contains(section) <==> section.section_type_spec()
                == section_type,
        forall|i: int, j: int|
            0 <= i < j < sections_spec(section_type).len() ==> Section::all_spec().index_of(
                #[trigger] sections_spec(section_type)[i],
            ) < Section::all_spec().index_of(#[trigger] sections_spec(section_type)[j]),
{
    let list = sections_spec(section_type);
    let all = Section::all_spec();
    assert forall|section: Section| section.section_type_spec() == section_type implies #[trigger]
        list.contains(section) by {
        let i: int = match section {
            Section::Barrel | Section::Grips => 0,
            Section::Sights | Section::MSH => 1,
            Section::Slide | Section::Nose => 2,
            Section::Rear => 3,
            Section::Trigger => 4,
        };
        assert(list[i] == section);
    }
    assert forall|i: int, j: int| 0 <= i < j < list.len() implies all.index_of(
        #[trigger] list[i],
    ) < all.index_of(#[trigger] list[j]) by {
        lemma_catalog_position(list[i]);
        lemma_catalog_position(list[j]);
    }
}

proof fn lemma_catalog_position(section: Section)
    ensures
        Section::all_spec().index_of(section) == (match section {
            Section::Barrel => 0int,
            Section::Grips => 1,
            Section::MSH => 2,
            Section::Nose => 3,
            Section::Rear => 4,
            Section::Sights => 5,
            Section::Slide => 6,
            Section::Trigger => 7,
        }),
{
    let all = Section::all_spec();
    let at: int = match section {
        Section::Barrel => 0,
        Section::Grips => 1,
        Section::MSH => 2,
        Section::Nose => 3,
        Section::Rear => 4,
        Section::Sights => 5,
        Section::Slide => 6,
        Section::Trigger => 7,
    };
    assert(all[at] == section);
    assert(all.no_duplicates());
    all.index_of_first_ensures(section);
    let found = all.index_of(section);
    assert(0 <= found < all.len() && all[found] == section);
}

impl SectionType {
    /// The sections of this half, in catalog order.
    pub fn sections(&self) -> (sections: Vec<Section>)
        ensures
            sections@ == sections_spec(*self),
            forall|section: Section| #[trigger]
                sections@.contains(section) <==> section.section_type_spec() == *self,
    {
        let sections = match self {
            SectionType::Upper => vec![Section::Barrel, Section::Sights, Section::Slide],
            SectionType::Lower => vec![
                Section::Grips,
                Section::MSH,
                Section::Nose,
                Section::Rear,
                Section::Trigger,
            ],
        };
        proof {
            assert(sections@ =~= sections_spec(*self));
            lemma_sections(*self);
        }
        sections
    }
}

/// The asset names of the sections of a half under `config`, in the order
/// of the sections.
pub open spec fn assets_spec(
    section_type: SectionType,
    config: Seq<(Modifier, Option<&str>)>,
) -> Seq<Seq<char>> {
    let sections = sections_spec(section_type);
    Seq::new(sections.len(), |i: int| matching_config_spec(sections[i], config))
}

/// The names of the assets that show the sections of `section_type` under
/// `config`, one for each section of the half, in catalog order.
pub fn section_assets(section_type: SectionType, config: &Vec<(Modifier, Option<&str>)>) -> (names:
    Vec<String>)
    ensures
        names_of(names@) == assets_spec(section_type, config@),
{
    let sections = section_type.sections();
    let mut names: Vec<String> = Vec::new();
    let mut i: usize = 0;
    while i < sections.len()
        invariant
            i <= sections.len(),
            sections@ == sections_spec(section_type),
            names.len() == i,
            forall|k: int|
                0 <= k < i ==> (#[trigger] names@[k])@ == matching_config_spec(
                    sections@[k],
                    config@,
                ),
        decreases sections.len() - i,
    {
        names.push(sections[i].matching_config(config));
        i += 1;
    }
    proof {
        assert(names_of(names@) =~= assets_spec(section_type, config@));
    }
    names
}

/// The asset names of the sections of a list, section after section.
pub open spec fn asset_names_spec(sections: Seq<Section>) -> Seq<Seq<char>>
    decreases sections.len(),
{
    if sections.len() == 0 {
        Seq::empty()
    } else {
        asset_names_spec(sections.drop_last()) + section_configurations_spec(sections.last())
    }
}

impl SectionType {
    /// The names of all assets that are rendered for the sections of this
    /// half: the configurations of each section, section after section.
    pub fn asset_names(&self) -> (names: Vec<String>)
        ensures
            names_of(names@) == asset_names_spec(sections_spec(*self)),
            names_of(names@).no_duplicates(),
    {
        let sections = self.sections();
        let mut names: Vec<String> = Vec::new();
        let mut i: usize = 0;
        proof {
            assert(sections@.take(0) =~= Seq::empty());
            assert(names_of(names@) =~= Seq::empty());
        }
        while i < sections.len()
            invariant
                i <= sections.len(),
                sections@ == sections_spec(*self),
                names_of(names@) == asset_names_spec(sections@.take(i as int)),
            decreases sections.len() - i,
        {
            let mut more = sections[i].configurations();
            let ghost before = names@;
            let ghost added = more@;
            names.append(&mut more);
            proof {
                assert(sections@.take(i + 1).drop_last() =~= sections@.take(i as int));
                assert(sections@.take(i + 1).last() == sections@[i as int]);
                assert(names@ == before + added);
                assert(names_of(names@) =~= names_of(before) + names_of(added));
            }
            i += 1;
        }
        proof {
            assert(sections@.take(sections.len() as int) =~= sections@);
            crate::names::lemma_half_asset_names_distinct(*self);
        }
        names
    }
}

/// A configuration that binds `modifier` at place `j`, and no earlier,
/// binds it to the value at that place.
proof fn lemma_bound_value_at(config: Seq<(Modifier, Option<&str>)>, j: int)
    requires
        0 <= j < config.len(),
        forall|i: int| 0 <= i < j ==> (#[trigger] config[i]).0 != config[j].0,
    ensures
        bound_value(config, config[j].0) == Some(text(config[j].1)),
    decreases j,
{
    if j > 0 {
        let rest = config.drop_first();
        assert(config[0].0 != config[j].0);
        assert(rest[j - 1] == config[j]);
        assert forall|i: int| 0 <= i < j - 1 implies (#[trigger] rest[i]).0 != rest[j - 1].0 by {
            assert(rest[i] == config[i + 1]);
        }
        lemma_bound_value_at(rest, j - 1);
    }
}

/// `value` is a rendered value of the section's modifier at place `i`, and
/// its text is the value that names the asset of `section` under `config`.
spec fn renders(
    section: Section,
    config: Seq<(Modifier, Option<&str>)>,
    i: int,
    value: Option<&'static str>,
) -> bool {
    section_value_lists(section)[i].contains(value) && text(value) == local_values(
        section,
        config,
    )[i]
}

/// Some rendered value of the section's modifier at place `i` names the
/// asset of `section` under `config`.
spec fn has_render(section: Section, config: Seq<(Modifier, Option<&str>)>, i: int) -> bool {
    exists|value: Option<&'static str>| renders(section, config, i, value)
}

/// Every asset that a configuration of a half asks for is one of the
/// rendered assets of its section: the name that a section of the half has
/// under a configuration of the half is among the section's asset names.
pub proof fn lemma_matching_config_is_rendered(section: Section, k: int)
    requires
        0 <= k < configurations_spec(section.section_type_spec()).len(),
    ensures
        section_configurations_spec(section).contains(
            matching_config_spec(section, configurations_spec(section.section_type_spec())[k]),
        ),
{
    let half = section.section_type_spec();
    let config = configurations_spec(half)[k];
    let half_mods = section_type_mods_spec(half);
    let mods = section_mods_spec(section);
    let lists = section_value_lists(section);
    lemma_configuration_binds(half, k);
    lemma_section_type_mods(half);
    // For each modifier of the section, a rendered value whose text is the
    // value that names the asset.
    assert forall|i: int| 0 <= i < mods.len() implies has_render(section, config, i) by {
        let modifier = mods[i];
        assert(mods.contains(modifier));
        lemma_section_mods_in_half(section, modifier);
        let j = choose|j: int| 0 <= j < half_mods.len() && half_mods[j] == modifier;
        assert(config[j].0 == modifier);
        assert forall|e: int| 0 <= e < j implies (#[trigger] config[e]).0 != config[j].0 by {
            assert(config[e].0 == half_mods[e]);
            assert(half_mods[e].rank_spec() < half_mods[j].rank_spec());
        }
        lemma_bound_value_at(config, j);
        let values = modifier_values_spec(modifier);
        assert(values.contains(config[j].1));
        let a = choose|a: int| 0 <= a < values.len() && values[a] == config[j].1;
        lemma_rendered_values(section, modifier);
        let rendered = rendered_values_spec(section, modifier);
        let wanted = fallback_spec(section, text(values[a]));
        assert(texts(rendered).contains(wanted));
        let b = choose|b: int| 0 <= b < texts(rendered).len() && texts(rendered)[b] == wanted;
        assert(lists[i] == rendered);
        assert(lists[i][b] == rendered[b]);
        assert(text(rendered[b]) == local_values(section, config)[i]);
        assert(renders(section, config, i, rendered[b]));
    }
    let row = Seq::new(
        mods.len(),
        |i: int| choose|value: Option<&'static str>| renders(section, config, i, value),
    );
    assert forall|i: int| 0 <= i < mods.len() implies renders(section, config, i, #[trigger] row[i]) by {
        assert(has_render(section, config, i));
    }
    assert(texts(row) =~= local_values(section, config));
    lemma_cartesian_has_row(lists, row);
    let product = cartesian(lists);
    let r = choose|r: int| 0 <= r < product.len() && product[r] == row;
    assert(section_configurations_spec(section)[r] == matching_config_spec(section, config));
}

/// Once the assets of a half are loaded, no configuration of the half asks
/// for an asset that is missing: every name that [`assets_spec`] gives for
/// a configuration of the half is among the names of
/// [`asset_names_spec`].
pub proof fn lemma_assets_are_loaded(section_type: SectionType, k: int, i: int)
    requires
        0 <= k < configurations_spec(section_type).len(),
        0 <= i < sections_spec(section_type).len(),
    ensures
        asset_names_spec(sections_spec(section_type)).contains(
            assets_spec(section_type, configurations_spec(section_type)[k])[i],
        ),
{
    let sections = sections_spec(section_type);
    let section = sections[i];
    lemma_sections(section_type);
    assert(sections.contains(section));
    lemma_matching_config_is_rendered(section, k);
    let name = matching_config_spec(section, configurations_spec(section_type)[k]);
    lemma_asset_names_hold(sections, i, name);
}

proof fn lemma_asset_names_hold(sections: Seq<Section>, i: int, name: Seq<char>)
    requires
        0 <= i < sections.len(),
        section_configurations_spec(sections[i]).contains(name),
    ensures
        asset_names_spec(sections).contains(name),
    decreases sections.len(),
{
    let head = asset_names_spec(sections.drop_last());
    let tail = section_configurations_spec(sections.last());
    if i == sections.len() - 1 {
        let at = choose|at: int| 0 <= at < tail.len() && tail[at] == name;
        assert((head + tail)[head.len() + at] == name);
    } else {
        assert(sections.drop_last()[i] == sections[i]);
        lemma_asset_names_hold(sections.drop_last(), i, name);
        let at = choose|at: int| 0 <= at < head.len() && head[at] == name;
        assert((head + tail)[at] == name);
    }
}

} // verus!
