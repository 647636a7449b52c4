use composite::rig::{
    front_configs, get_configurations, get_name, product_options, rear_configs, spaced,
    upper_configs, ConfigOptions,
};

#[test]
fn get_name_joins_the_parts_that_are_not_empty() {
    assert_eq!(get_name(vec!["Front", "Std", "", "Com", ""]), "Front Std Com");
    assert_eq!(get_name(vec!["Rear", "9mm", "", "", "", ""]), "Rear 9mm");
    assert_eq!(get_name(vec!["Upper", ".45", "Gov", "Ext", "Novak"]), "Upper .45 Gov Ext Novak");
    assert_eq!(get_name(vec![]), "");
    assert_eq!(get_name(vec!["", ""]), "");
    // white space at the end goes, white space inside stays
    assert_eq!(get_name(vec!["a ", "b \t"]), "a  b");
    assert_eq!(spaced(&vec!["a ", "b \t"]), "a  b \t");
    assert_eq!(spaced(&vec!["", "x", "", "y"]), "x y");
}

fn product() -> ConfigOptions<'static> {
    product_options()
}

#[test]
fn the_options_of_the_product() {
    let options = product_options();
    assert_eq!(options.style, vec!["Std", "Tac"]);
    assert_eq!(options.guard, vec!["", "Sqr"]);
    assert_eq!(options.caliber, vec![".45", "9mm", "10mm", ".38", ".40"]);
    assert_eq!(options.size, vec!["Com", "Gov"]);
    assert_eq!(options.ext, vec!["", "Ext"]);
    assert_eq!(options.rear, vec!["", "Bob"]);
    assert_eq!(options.rchk, vec!["", "RChk"]);
    assert_eq!(options.fchk, vec!["", "FChk"]);
}

#[test]
fn white_space_at_the_end_is_what_unicode_calls_white_space() {
    let white = [
        '\u{9}', '\u{a}', '\u{b}', '\u{c}', '\u{d}', ' ', '\u{85}', '\u{a0}', '\u{1680}',
        '\u{2000}', '\u{2005}', '\u{200a}', '\u{2028}', '\u{2029}', '\u{202f}', '\u{205f}',
        '\u{3000}',
    ];
    for c in white {
        let part = format!("a{}{}", c, c);
        assert_eq!(get_name(vec![part.as_str()]), "a", "{:?}", c);
    }
    // next to the ranges, and other blanks that are no white space
    let other = ['\u{8}', '\u{e}', '\u{1f}', '\u{84}', '\u{86}', '\u{180e}', '\u{1fff}',
        '\u{200b}', '\u{200c}', '\u{2027}', '\u{202a}', '\u{2060}', '\u{feff}', 'a', '-'];
    for c in other {
        let part = format!("a {}", c);
        assert_eq!(get_name(vec![part.as_str()]), part, "{:?}", c);
    }
    assert_eq!(get_name(vec![" \t\u{3000}"]), "");
}

#[test]
fn configurations_of_the_rig() {
    let mut configs = vec![("kept".to_string(), String::new(), String::new(), String::new())];
    get_configurations(&mut configs, product());
    assert_eq!(configs.len(), 1 + 2 * 2 * 5 * 2 * 2 * 2 * 2 * 2);
    assert_eq!(configs[0].0, "kept");
    let entry = |a: &str, b: &str, c: &str, d: &str| {
        (a.to_string(), b.to_string(), c.to_string(), d.to_string())
    };
    assert_eq!(configs[1], entry("Std .45 Com", "Front Std Com", "Rear 9mm", "Upper .45 Com Novak"));
    // the last option changes fastest
    assert_eq!(
        configs[2],
        entry("Std .45 Com FChk", "Front Std Com", "Rear 9mm FChk", "Upper .45 Com Novak")
    );
    assert_eq!(
        configs[3],
        entry("Std .45 Com RChk", "Front Std Com", "Rear 9mm RChk", "Upper .45 Com Novak")
    );
    assert_eq!(
        configs[640],
        entry(
            "Tac Sqr .40 Gov Ext Bob RChk FChk",
            "Front Tac Sqr Gov Ext",
            "Rear 9mm Bob RChk FChk",
            "Upper .40 Gov Ext Novak"
        )
    );
}

#[test]
fn every_rig_configuration_names_listed_assets() {
    let mut configs = Vec::new();
    get_configurations(&mut configs, product());
    let (front, rear, upper) = (front_configs(), rear_configs(), upper_configs());
    assert_eq!((front.len(), rear.len(), upper.len()), (16, 8, 20));
    for (_, f, r, u) in &configs {
        assert!(front.contains(&f.as_str()));
        assert!(rear.contains(&r.as_str()));
        assert!(upper.contains(&u.as_str()));
    }
    assert_eq!(front[0], "Front Std Com");
    assert_eq!(rear[7], "Rear 9mm RChk FChk");
    assert_eq!(upper[19], "Upper .40 Gov Ext Novak");
}

#[test]
fn an_option_without_values_gives_no_configuration() {
    let mut options = product();
    options.rchk = Vec::new();
    let mut configs = Vec::new();
    get_configurations(&mut configs, options);
    assert!(configs.is_empty());
}
