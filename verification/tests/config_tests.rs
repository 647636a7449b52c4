use composite::config::{
    apply_fallbacks, config_name, modifier_values, section_mods, section_type_mods, Modifier,
    Section, SectionType,
};

fn all_modifiers() -> Vec<Modifier> {
    vec![
        Modifier::FrameStyle,
        Modifier::TriggerGuardMod,
        Modifier::Caliber,
        Modifier::BarrelLength,
        Modifier::DustCoverMod,
        Modifier::RearCutMod,
        Modifier::GripModRear,
        Modifier::GripModFront,
        Modifier::SlideMod,
        Modifier::TriggerMod,
        Modifier::SightType,
        Modifier::BarrelMod,
        Modifier::GripType,
    ]
}

#[test]
fn modifier_values_are_non_empty_and_distinct() {
    for m in all_modifiers() {
        let values = modifier_values(&m);
        assert!(!values.is_empty());
        for i in 0..values.len() {
            for j in (i + 1)..values.len() {
                assert_ne!(values[i], values[j]);
            }
        }
        assert_eq!(m.default(), values[0]);
    }
}

#[test]
fn caliber_values_in_catalog_order() {
    assert_eq!(
        modifier_values(&Modifier::Caliber),
        vec![Some("45"), Some("9mm"), Some("10mm"), Some("38"), Some("40")]
    );
    assert_eq!(Modifier::Caliber.default(), Some("45"));
    assert_eq!(Modifier::BarrelMod.default(), None);
}

#[test]
fn modifiers_are_ordered_by_declaration() {
    let all = all_modifiers();
    for i in 0..all.len() {
        for j in (i + 1)..all.len() {
            assert!(all[i] < all[j]);
        }
    }
}

#[test]
fn section_lists() {
    assert_eq!(
        Section::iterator(),
        vec![
            Section::Barrel,
            Section::Grips,
            Section::MSH,
            Section::Nose,
            Section::Rear,
            Section::Sights,
            Section::Slide,
            Section::Trigger
        ]
    );
    assert_eq!(SectionType::iterator(), vec![SectionType::Upper, SectionType::Lower]);
    assert_eq!(Section::MSH.name(), "MSH");
    assert_eq!(SectionType::Lower.name(), "Lower");
    assert_eq!(Section::Sights.section_type(), SectionType::Upper);
    assert_eq!(Section::Nose.section_type(), SectionType::Lower);
}

#[test]
fn section_mods_are_sorted() {
    for s in Section::iterator() {
        let mods = section_mods(&s);
        let mut sorted = mods.clone();
        sorted.sort();
        sorted.dedup();
        assert_eq!(mods, sorted);
    }
    assert_eq!(
        section_mods(&Section::Slide),
        vec![
            Modifier::Caliber,
            Modifier::BarrelLength,
            Modifier::DustCoverMod,
            Modifier::SlideMod
        ]
    );
}

#[test]
fn section_type_mods_are_the_union_of_the_sections() {
    for t in SectionType::iterator() {
        let mut union: Vec<Modifier> = Vec::new();
        for s in Section::iterator() {
            if s.section_type() == t {
                union.extend(section_mods(&s));
            }
        }
        union.sort();
        union.dedup();
        assert_eq!(section_type_mods(&t), union);
    }
}

#[test]
fn config_name_joins_present_values_in_lower_case() {
    assert_eq!(
        config_name("Barrel", vec![Some("45"), Some("Gov"), None]),
        "barrel-45-gov"
    );
    assert_eq!(config_name("Trigger", vec![None]), "trigger-");
    assert_eq!(
        config_name("Sights", vec![Some("Com"), Some("Fiber-Optic")]),
        "sights-com-fiber-optic"
    );
    assert_eq!(config_name("MSH", vec![None, Some("RChain")]), "msh-rchain");
    assert_eq!(config_name("Nose", vec![]), "nose-");
}

#[test]
fn fallbacks_collapse_slide_calibers() {
    assert_eq!(apply_fallbacks(&Section::Slide, Some("10mm")), Some("9mm"));
    assert_eq!(apply_fallbacks(&Section::Slide, Some("38")), Some("9mm"));
    assert_eq!(apply_fallbacks(&Section::Slide, Some("40")), Some("9mm"));
    assert_eq!(apply_fallbacks(&Section::Slide, Some("45")), Some("45"));
    assert_eq!(apply_fallbacks(&Section::Slide, Some("9mm")), Some("9mm"));
    assert_eq!(apply_fallbacks(&Section::Slide, None), None);
    assert_eq!(apply_fallbacks(&Section::Barrel, Some("10mm")), Some("10mm"));
}

#[test]
fn global_configuration_counts() {
    assert_eq!(SectionType::Upper.configurations().len(), 240);
    assert_eq!(SectionType::Lower.configurations().len(), 768);
    for t in SectionType::iterator() {
        let expected: usize =
            section_type_mods(&t).iter().map(|m| modifier_values(m).len()).product();
        assert_eq!(t.configurations().len(), expected);
    }
}

#[test]
fn global_configurations_bind_every_modifier_in_order() {
    let configs = SectionType::Upper.configurations();
    let mods = section_type_mods(&SectionType::Upper);
    assert_eq!(
        configs[0],
        vec![
            (Modifier::Caliber, Some("45")),
            (Modifier::BarrelLength, Some("Gov")),
            (Modifier::DustCoverMod, None),
            (Modifier::SlideMod, None),
            (Modifier::SightType, Some("Novak")),
            (Modifier::BarrelMod, None),
        ]
    );
    assert_eq!(configs[1][4], (Modifier::SightType, Some("Tritium-1")));
    assert_eq!(configs[4][3], (Modifier::SlideMod, Some("Dual")));
    assert_eq!(configs[239][0], (Modifier::Caliber, Some("40")));
    for config in &configs {
        assert_eq!(config.len(), mods.len());
        for (binding, m) in config.iter().zip(mods.iter()) {
            assert_eq!(binding.0, *m);
            assert!(modifier_values(m).contains(&binding.1));
        }
    }
    for i in 0..configs.len() {
        for j in (i + 1)..configs.len() {
            assert_ne!(configs[i], configs[j]);
        }
    }
}

#[test]
fn section_configurations_of_the_slide() {
    let names = Section::Slide.configurations();
    assert_eq!(names.len(), 2 * 2 * 2 * 3);
    assert_eq!(names[0], "slide-45-gov");
    assert_eq!(names[1], "slide-45-gov-dual");
    assert_eq!(names[2], "slide-45-gov-tri");
    assert_eq!(names[3], "slide-45-gov-ext");
    assert_eq!(names[23], "slide-9mm-com-ext-tri");
    for i in 0..names.len() {
        for j in (i + 1)..names.len() {
            assert_ne!(names[i], names[j]);
        }
    }
}

#[test]
fn section_configurations_of_the_barrel_and_trigger() {
    let names = Section::Barrel.configurations();
    assert_eq!(names.len(), 10);
    assert_eq!(names[0], "barrel-45-gov");
    assert_eq!(names[9], "barrel-40-com");
    assert_eq!(Section::Trigger.configurations(), vec!["trigger-", "trigger-skeleton"]);
}

#[test]
fn matching_config_names_the_asset() {
    let config = vec![
        (Modifier::Caliber, Some("10mm")),
        (Modifier::BarrelLength, Some("Com")),
        (Modifier::DustCoverMod, Some("Ext")),
        (Modifier::SlideMod, Some("Tri")),
        (Modifier::SightType, Some("Tritium-2")),
        (Modifier::BarrelMod, None),
    ];
    assert_eq!(Section::Slide.matching_config(&config), "slide-9mm-com-ext-tri");
    assert_eq!(Section::Barrel.matching_config(&config), "barrel-10mm-com");
    assert_eq!(Section::Sights.matching_config(&config), "sights-com-tritium-2");
    // unbound modifiers take their default
    assert_eq!(Section::Grips.matching_config(&config), "grips-smooth");
    assert_eq!(Section::Nose.matching_config(&config), "nose-std-com-ext");
    assert_eq!(Section::Trigger.matching_config(&Vec::new()), "trigger-");
}

#[test]
fn matching_config_reads_only_the_sections_modifiers() {
    let a = vec![
        (Modifier::Caliber, Some("45")),
        (Modifier::BarrelLength, Some("Gov")),
        (Modifier::DustCoverMod, None),
        (Modifier::SlideMod, Some("Dual")),
        (Modifier::SightType, Some("Novak")),
        (Modifier::BarrelMod, None),
    ];
    let mut b = a.clone();
    b[2] = (Modifier::DustCoverMod, Some("Ext"));
    b[3] = (Modifier::SlideMod, None);
    b[4] = (Modifier::SightType, Some("Fiber-Optic"));
    assert_eq!(Section::Barrel.matching_config(&a), Section::Barrel.matching_config(&b));
    assert_eq!(Section::Barrel.matching_config(&a), Section::Barrel.matching_config(&a));
    assert_ne!(Section::Slide.matching_config(&a), Section::Slide.matching_config(&b));
}

#[test]
fn every_matching_name_is_a_rendered_asset() {
    for t in SectionType::iterator() {
        let sections: Vec<Section> =
            Section::iterator().into_iter().filter(|s| s.section_type() == t).collect();
        let assets: Vec<Vec<String>> = sections.iter().map(|s| s.configurations()).collect();
        for config in t.configurations() {
            for (s, names) in sections.iter().zip(assets.iter()) {
                assert!(names.contains(&s.matching_config(&config)));
            }
        }
    }
}

#[test]
fn no_section_has_two_assets_of_one_name() {
    let mut total = 0;
    for s in Section::iterator() {
        let names = s.configurations();
        total += names.len();
        for i in 0..names.len() {
            for j in (i + 1)..names.len() {
                assert_ne!(names[i], names[j]);
            }
        }
    }
    assert_eq!(total, 10 + 4 + 6 + 16 + 4 + 8 + 24 + 2);
}

#[test]
fn asset_names_of_a_half_list_its_sections_in_order() {
    let upper = SectionType::Upper.asset_names();
    assert_eq!(upper.len(), 10 + 8 + 24);
    assert_eq!(upper[0], "barrel-45-gov");
    assert_eq!(upper[10], "sights-gov-novak");
    assert_eq!(upper[18], "slide-45-gov");
    let lower = SectionType::Lower.asset_names();
    assert_eq!(lower.len(), 4 + 6 + 16 + 4 + 2);
    assert_eq!(lower[0], "grips-smooth");
    assert_eq!(lower[31], "trigger-skeleton");
    assert_eq!(
        SectionType::Upper.sections(),
        vec![Section::Barrel, Section::Sights, Section::Slide]
    );
    assert_eq!(
        SectionType::Lower.sections(),
        vec![Section::Grips, Section::MSH, Section::Nose, Section::Rear, Section::Trigger]
    );
}

#[test]
fn configuration_name_joins_the_bound_values() {
    let config = SectionType::Upper.configurations();
    assert_eq!(composite::config::configuration_name(&config[0]), "45-gov-novak");
    assert_eq!(
        composite::config::configuration_name(&config[239]),
        "40-com-ext-tri-fiber-optic"
    );
    assert_eq!(composite::config::configuration_name(&Vec::new()), "");
    let names = composite::config::section_assets(SectionType::Upper, &config[239]);
    assert_eq!(names, vec!["barrel-40-com", "sights-com-fiber-optic", "slide-9mm-com-ext-tri"]);
}

#[test]
fn rank_is_the_place_in_the_order_of_modifiers() {
    let all = all_modifiers();
    for (i, m) in all.iter().enumerate() {
        assert_eq!(m.rank() as usize, i);
    }
}

#[test]
fn no_two_assets_of_a_half_share_a_name() {
    for t in SectionType::iterator() {
        let names = t.asset_names();
        for i in 0..names.len() {
            for j in (i + 1)..names.len() {
                assert_ne!(names[i], names[j]);
            }
        }
    }
}
