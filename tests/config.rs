use acmensa::config::{default_config, Mensa, PathTemplate};

#[test]
fn parse_cfg() {
    println!("{:#?}", default_config());
}

#[test]
fn gen_mensa_url_path() {
    let config = default_config();
    let mensa = "academica";

    // DE, this week
    assert_eq!(
        config.endpoint.menu.build_path(mensa, false, false),
        String::from("files/content/Downloads/Gastronomie/Speiseplaene/speiseplan_mensa_")
            + mensa
            + "_diese_woche.html"
    );

    // DE, next week
    assert_eq!(
        config.endpoint.menu.build_path(mensa, true, false),
        String::from("files/content/Downloads/Gastronomie/Speiseplaene/speiseplan_mensa_")
            + mensa
            + "_naechste_woche.html"
    );

    // EN, this week
    assert_eq!(
        config.endpoint.menu.build_path(mensa, false, true),
        String::from("files/content/Downloads/Gastronomie/Speiseplaene/menu_mensa_")
            + mensa
            + "_this_week.html"
    );

    // EN, next week
    assert_eq!(
        config.endpoint.menu.build_path(mensa, true, true),
        String::from("files/content/Downloads/Gastronomie/Speiseplaene/menu_mensa_")
            + mensa
            + "_next_week.html"
    );
}

#[test]
fn fill_suffix_v_replaces_every_placeholder() {
    assert_eq!(
        PathTemplate::fill_suffix_v("{{name}}-{{week}}-{{name}}", "vita", "next"),
        "vita-next-vita"
    );
    assert_eq!(PathTemplate::fill_suffix_v("plain", "vita", "next"), "plain");
}

#[test]
fn mensa_url_names() {
    assert_eq!(Mensa::Academica.url_name(), "academica");
    assert_eq!(Mensa::BistroTemplergraben.url_name(), "bistro_templergraben");
    assert_eq!(Mensa::EupenerStrasse.url_name(), "eupener_strasse");
    assert_eq!(Mensa::KMAC.url_name(), "kmac");
}
