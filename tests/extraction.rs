use acmensa::meal::{AllergenList, MealInfo, MealType, SideType};
use acmensa::scrape::{
    collect_allergens, extract_week, price_of, remove_allergens, scrape_page, vegan_detektiv,
    vegan_in_lowered, Cell, ExtractionError, WeekData,
};

fn strings(v: &[&str]) -> Vec<String> {
    v.iter().map(|s| s.to_string()).collect()
}

fn cell(html: &str, texts: &[&str], dish: Option<&[&str]>) -> Cell {
    Cell { html: html.to_string(), texts: strings(texts), dish_text: dish.map(strings) }
}

fn main_row() -> Vec<Cell> {
    let mut row = vec![cell("Klassiker (A,B)<br>2,50 €", &["Klassiker (A,B)", "2,50 €"], None)];
    for _ in 0..5 {
        row.push(cell(
            "<span class=\"dish-text\">Schnitzel (C)<br>mit Sauce</span>",
            &["Schnitzel (C)", "mit Sauce"],
            Some(&["Schnitzel (C)", "mit Sauce"]),
        ));
    }
    row
}

fn side_row() -> Vec<Cell> {
    let mut row = vec![cell("Sättigungsbeilage", &["Sättigungsbeilage"], None)];
    for _ in 0..5 {
        row.push(cell(
            "Kartoffeln (A)<br>oder<br>Reis",
            &["Kartoffeln (A)", "oder", "Reis"],
            None,
        ));
    }
    row
}

fn codes(a: &AllergenList) -> Vec<String> {
    a.codes().clone()
}

#[test]
fn clean_removes_markers_and_collapses_space() {
    assert_eq!(remove_allergens("  Schnitzel (A,B)  mit   Sauce (C) "), "Schnitzel mit Sauce");
    assert_eq!(remove_allergens("Suppe"), "Suppe");
    assert_eq!(remove_allergens("a\tb"), "a\tb");
    assert_eq!(remove_allergens("a \t b"), "a b");
    assert_eq!(remove_allergens("(a) (A1,2)x"), "(a) x");
    assert_eq!(remove_allergens(""), "");
}

#[test]
fn clean_is_idempotent_on_examples() {
    for t in ["  Schnitzel (A,B)  mit   Sauce (C) ", "x ( A ) y", "Reis\n\n(1)", " () ", "(A(B))", "((A)B) x"] {
        let once = remove_allergens(t);
        assert_eq!(remove_allergens(&once), once);
    }
}

#[test]
fn allergens_are_a_sorted_set() {
    assert_eq!(codes(&collect_allergens("Soup (A,C,A)")), strings(&["A", "C"]));
    assert_eq!(codes(&collect_allergens("x (C,B) y (A,B)")), strings(&["A", "B", "C"]));
    assert_eq!(codes(&collect_allergens("no markers (a)")), Vec::<String>::new());
    assert_eq!(codes(&collect_allergens("(A,,B)")), strings(&["", "A", "B"]));
    assert!(collect_allergens("nothing").is_empty());
    assert!(!collect_allergens("(10)").is_empty());
}

#[test]
fn allergen_list_display_joins_with_commas() {
    assert_eq!(collect_allergens("(C,A,B)").to_display_string(), "A, B, C");
    assert_eq!(collect_allergens("(A)").to_display_string(), "A");
    assert_eq!(collect_allergens("").to_display_string(), "");
}

#[test]
fn burger_classics_wins_over_classics() {
    assert_eq!(MealType::infer("Burger Classics"), MealType::BurgerClassics);
    assert_eq!(MealType::infer("<b>BURGER CLASSICS</b>"), MealType::BurgerClassics);
    assert_eq!(MealType::infer("Classics"), MealType::Klassiker);
    assert_eq!(MealType::infer("Klassiker (A,B)<br>2,50 €"), MealType::Klassiker);
    assert_eq!(MealType::infer("Burger of the week"), MealType::BurgerWoche);
    assert_eq!(MealType::infer("Pizza des Tages"), MealType::PizzaTag);
}

#[test]
fn unknown_labels_fall_back() {
    assert_eq!(MealType::infer("Dessert"), MealType::Unbekannt);
    assert_eq!(MealType::infer(""), MealType::Unbekannt);
    assert_eq!(SideType::infer("Salat"), SideType::Unknown);
    assert_eq!(SideType::infer("Hauptbeilage"), SideType::Main);
    assert_eq!(SideType::infer("Nebenbeilage"), SideType::Secondary);
    assert_eq!(SideType::infer("Secondary"), SideType::Secondary);
}

#[test]
fn type_names_come_from_the_table() {
    assert_eq!(MealType::BurgerClassics.name(false), "Burger Classics");
    assert_eq!(MealType::Tellergericht.name(true), "Stew");
    assert_eq!(MealType::Unbekannt.name(false), "Unbekannt");
    assert_eq!(MealType::Unbekannt.name(true), "Unknown");
    assert_eq!(SideType::Main.name(false), "Sättigungsbeilage");
    assert_eq!(SideType::Secondary.name(true), "Secondary");
    assert_eq!(SideType::Unknown.name(false), "Unbekannt");
}

#[test]
fn vegan_heuristic() {
    assert!(vegan_detektiv(&MealType::Vegetarisch, "anything"));
    assert!(vegan_detektiv(&MealType::Klassiker, "Contains vegan sauce"));
    assert!(vegan_detektiv(&MealType::Wok, "<img alt=\"VEGETARIAN\">"));
    assert!(!vegan_detektiv(&MealType::Klassiker, "Schnitzel"));
}

#[test]
fn price_follows_the_line_break() {
    assert_eq!(price_of(&"Klassiker<br>2,50 €".to_string()), "2,50 €");
    assert_eq!(price_of(&"Klassiker".to_string()), "");
    assert_eq!(price_of(&"a<br>b<br>c".to_string()), "b<br>c");
}

#[test]
fn main_row_gives_one_meal_per_day() {
    let week = extract_week(&vec![main_row()], &vec![]).unwrap();
    assert_eq!(week.main_dishes.len(), 5);
    for day in &week.main_dishes {
        assert_eq!(day.len(), 1);
        let m = &day[0];
        assert_eq!(m.typ, MealType::Klassiker);
        assert_eq!(m.text, "Schnitzel");
        assert_eq!(m.subtext, "mit Sauce");
        assert_eq!(m.price, "2,50 €");
        assert_eq!(codes(&m.allergens), strings(&["C"]));
        assert!(!m.vegan);
    }
}

#[test]
fn side_row_drops_the_separator() {
    let week = extract_week(&vec![], &vec![side_row()]).unwrap();
    for day in &week.side_dishes {
        assert_eq!(day.len(), 1);
        assert_eq!(day[0].typ, SideType::Main);
        let alts = &day[0].alternatives;
        assert_eq!(alts.len(), 2);
        assert_eq!(alts[0].text, "Kartoffeln");
        assert_eq!(codes(&alts[0].allergens), strings(&["A"]));
        assert_eq!(alts[1].text, "Reis");
        assert!(alts[1].allergens.is_empty());
    }
}

#[test]
fn short_row_is_a_layout_mismatch() {
    let mut short = main_row();
    short.pop();
    assert_eq!(extract_week(&vec![short], &vec![]).unwrap_err(), ExtractionError::LayoutMismatch);
    let mut short = side_row();
    short.pop();
    assert_eq!(
        extract_week(&vec![main_row()], &vec![short]).unwrap_err(),
        ExtractionError::LayoutMismatch
    );
    let mut empty_dish = main_row();
    empty_dish[3].dish_text = Some(vec![]);
    assert_eq!(
        extract_week(&vec![empty_dish], &vec![]).unwrap_err(),
        ExtractionError::LayoutMismatch
    );
}

#[test]
fn cells_without_dish_text_are_skipped() {
    let mut row = main_row();
    row[2].dish_text = None;
    let week = extract_week(&vec![row], &vec![]).unwrap();
    assert_eq!(week.main_dishes[1].len(), 0);
    assert_eq!(week.main_dishes[0].len(), 1);
}

const PAGE: &str = "<html><body><table>\
<tr class=\"main-dish\"><td>Klassiker (A,B)<br>2,50 €</td>\
<td><span class=\"dish-text\">Schnitzel (C)<br>mit Sauce</span></td>\
<td><span class=\"dish-text\">Schnitzel (C)<br>mit Sauce</span></td>\
<td><span class=\"dish-text\">Schnitzel (C)<br>mit Sauce</span></td>\
<td><span class=\"dish-text\">Schnitzel (C)<br>mit Sauce</span></td>\
<td><span class=\"dish-text\">Schnitzel (C)<br>mit Sauce</span></td></tr>\
<tr class=\"side-dish\"><td>Sättigungsbeilage</td>\
<td>Kartoffeln (A)<br>oder<br>Reis</td><td>Kartoffeln (A)<br>oder<br>Reis</td>\
<td>Kartoffeln (A)<br>oder<br>Reis</td><td>Kartoffeln (A)<br>oder<br>Reis</td>\
<td>Kartoffeln (A)<br>oder<br>Reis</td></tr>\
</table></body></html>";

#[test]
fn scrape_page_reads_main_and_side_rows() {
    let week = scrape_page(PAGE).unwrap();
    for d in 0..5 {
        let day = week.get_day(d);
        assert_eq!(day.main_dishes.len(), 1);
        let m = &day.main_dishes[0];
        assert_eq!(m.typ, MealType::Klassiker);
        assert_eq!(m.text, "Schnitzel");
        assert_eq!(m.subtext, "mit Sauce");
        assert_eq!(m.price, "2,50 €");
        assert_eq!(codes(&m.allergens), strings(&["C"]));
        assert!(!m.vegan);
        assert_eq!(day.side_dishes.len(), 1);
        let alts = &day.side_dishes[0].alternatives;
        assert_eq!(alts.len(), 2);
        assert_eq!(alts[0].text, "Kartoffeln");
        assert_eq!(alts[1].text, "Reis");
    }
}

#[test]
fn scrape_page_rejects_a_short_row() {
    let page = "<table><tr class=\"main-dish\"><td>Wok</td><td>a</td><td>b</td></tr></table>";
    assert_eq!(scrape_page(page).unwrap_err(), ExtractionError::LayoutMismatch);
}

#[test]
fn scrape_page_without_rows_gives_empty_days() {
    let week = scrape_page("<p>closed</p>").unwrap();
    for d in 0..5 {
        assert!(week.get_day(d).main_dishes.is_empty());
        assert!(week.get_day(d).side_dishes.is_empty());
    }
}

fn meal(typ: MealType, text: &str, allergens: &str, vegan: bool) -> MealInfo {
    MealInfo {
        typ,
        text: text.to_string(),
        subtext: String::new(),
        price: String::new(),
        allergens: AllergenList::from_text(allergens),
        vegan,
    }
}

#[test]
fn sorted_orders_by_type_then_text_and_is_idempotent() {
    let monday = vec![
        meal(MealType::Wok, "Nudeln", "", false),
        meal(MealType::Klassiker, "Schnitzel", "(A)", false),
        meal(MealType::Klassiker, "Braten", "", true),
        meal(MealType::Klassiker, "Braten", "", false),
        meal(MealType::Vegetarisch, "Curry", "", true),
    ];
    let week = WeekData {
        main_dishes: [monday.clone(), vec![], vec![], vec![], vec![]],
        side_dishes: [vec![], vec![], vec![], vec![], vec![]],
    };
    let once = week.sorted();
    let order: Vec<(MealType, String, bool)> =
        once.main_dishes[0].iter().map(|m| (m.typ, m.text.clone(), m.vegan)).collect();
    assert_eq!(
        order,
        vec![
            (MealType::Klassiker, "Braten".to_string(), false),
            (MealType::Klassiker, "Braten".to_string(), true),
            (MealType::Klassiker, "Schnitzel".to_string(), false),
            (MealType::Wok, "Nudeln".to_string(), false),
            (MealType::Vegetarisch, "Curry".to_string(), true),
        ]
    );
    let twice = once.sorted();
    assert_eq!(twice.main_dishes, once.main_dishes);
    assert_eq!(once.main_dishes[0].len(), monday.len());
    for m in &monday {
        assert!(once.main_dishes[0].contains(m));
    }
    let mut std_sorted = monday.clone();
    std_sorted.sort();
    assert_eq!(once.main_dishes[0], std_sorted);
}

#[test]
fn sorted_orders_sides_by_type() {
    let mut secondary = side_row();
    secondary[0] = cell("Gemüsebeilage", &["Gemüsebeilage"], None);
    let week = extract_week(&vec![], &vec![secondary, side_row()]).unwrap().sorted();
    assert_eq!(week.side_dishes[0][0].typ, SideType::Main);
    assert_eq!(week.side_dishes[0][1].typ, SideType::Secondary);
}

#[test]
fn nested_markers_are_removed_completely() {
    assert_eq!(remove_allergens("(A(B))"), "");
    assert_eq!(remove_allergens("Suppe ((A)B) heiß"), "Suppe heiß");
}

#[test]
fn lowered_classifiers() {
    assert_eq!(MealType::infer_lowered("burger classics"), MealType::BurgerClassics);
    assert_eq!(MealType::infer_lowered("Burger Classics"), MealType::Unbekannt);
    assert_eq!(MealType::infer_lowered("suggestion of the day"), MealType::Empfehlung);
    assert_eq!(SideType::infer_lowered("sättigungsbeilage"), SideType::Main);
    assert_eq!(SideType::infer_lowered("gemüsebeilage"), SideType::Secondary);
    assert!(vegan_in_lowered(&MealType::Wok, "tofu (vegan)"));
    assert!(!vegan_in_lowered(&MealType::Wok, "VEGAN"));
    assert!(vegan_in_lowered(&MealType::Vegetarisch, ""));
}
