use vstd::prelude::*;

use crate::markers::{allergen_codes, clean, lemma_clean_idempotent, no_marker, clean_vec, sorted_codes, strictly_sorted, trim, trim_vec};
use crate::meal::{
    AllergenList, AlternativeModel, MealInfo, MealModel, MealType, SideAlternative, SideInfo,
    SideModel, SideType, alternatives_view, meal_type_of, side_type_of,
};
use crate::sorting::{
    insert_by, insertion_sort, lemma_insert_by_split, lemma_insertion_sort,
    lemma_insertion_sort_of_sorted, sorted_by, total,
};
use crate::meal::{lemma_meal_cmp_flip, lemma_side_cmp_flip, meal_cmp, side_cmp};
use crate::text::{chars_of, compare_chars, is_infix, lower_of, lowercase, str_contains, string_of};

verus! {

/// The number of weekdays that a menu covers, Monday to Friday.
pub const OPEN_DAYS: usize = 5;

/// Why a page could not be read as a menu.
#[derive(Clone, Copy, PartialEq, Eq, Structural, Debug)]
pub enum ExtractionError {
    /// A row, cell or element that the menu table must have is missing.
    LayoutMismatch,
}

/// One table cell, as far as extraction reads it.
#[derive(Clone, PartialEq, Eq, Debug)]
pub struct Cell {
    /// The cell's inner markup.
    pub html: String,
    /// The cell's text nodes, in document order.
    pub texts: Vec<String>,
    /// The text nodes of the cell's first dish-text element, if it has one.
    pub dish_text: Option<Vec<String>>,
}

pub struct CellModel {
    pub html: Seq<char>,
    pub texts: Seq<Seq<char>>,
    pub dish_text: Option<Seq<Seq<char>>>,
}

pub open spec fn strings_view(v: Seq<String>) -> Seq<Seq<char>> {
    v.map_values(|s: String| s@)
}

impl View for Cell {
    type V = CellModel;

    open spec fn view(&self) -> CellModel {
        CellModel {
            html: self.html@,
            texts: strings_view(self.texts@),
            dish_text: match self.dish_text {
                Some(v) => Some(strings_view(v@)),
                None => None,
            },
        }
    }
}

pub open spec fn row_view(row: Seq<Cell>) -> Seq<CellModel> {
    row.map_values(|c: Cell| c@)
}

pub open spec fn rows_view(rows: Seq<Vec<Cell>>) -> Seq<Seq<CellModel>> {
    rows.map_values(|r: Vec<Cell>| row_view(r@))
}

/// Removes all allergen markers, collapses white-space runs and trims the ends.
pub fn remove_allergens(text: &str) -> (r: String)
    ensures
        r@ == clean(text@),
        no_marker(r@),
        clean(r@) == r@,
{
    let chars = chars_of(text);
    let cleaned = clean_vec(&chars);
    proof {
        lemma_clean_idempotent(text@);
    }
    string_of(&cleaned)
}

/// The allergen codes named in `full_text`, sorted and without duplicates.
pub fn collect_allergens(full_text: &str) -> (r: AllergenList)
    ensures
        strictly_sorted(r@),
        r@.to_set() == allergen_codes(full_text@),
        r@ == sorted_codes(full_text@),
{
    AllergenList::from_text(full_text)
}

/// Whether a dish counts as vegan: every vegetarian dish does, and so does any dish whose
/// cell markup names it vegan, vegetarian or vegetarisch in any letter case.
pub open spec fn is_vegan(typ: MealType, html: Seq<char>) -> bool {
    is_vegan_lowered(typ, lower_of(html))
}

/// The vegan test on markup that is already lower-cased.
pub open spec fn is_vegan_lowered(typ: MealType, lowered: Seq<char>) -> bool {
    typ == MealType::Vegetarisch || is_infix("vegan"@, lowered) || is_infix("vegetarian"@, lowered)
        || is_infix("vegetarisch"@, lowered)
}

/// Every vegetarian dish counts as vegan, whatever its markup says.
pub proof fn lemma_vegetarian_is_vegan(html: Seq<char>)
    ensures
        is_vegan(MealType::Vegetarisch, html),
{
}

/// Heuristic to catch as many vegan and vegetarian meals as possible.
pub fn vegan_detektiv(typ: &MealType, html: &str) -> (r: bool)
    ensures
        r == is_vegan(*typ, html@),
{
    if *typ == MealType::Vegetarisch {
        return true;
    }
    let t = lowercase(html);
    vegan_in_lowered(typ, t.as_str())
}

/// The vegan heuristic on markup that is already lower-cased.
pub fn vegan_in_lowered(typ: &MealType, lowered: &str) -> (r: bool)
    ensures
        r == is_vegan_lowered(*typ, lowered@),
{
    *typ == MealType::Vegetarisch || str_contains(lowered, "vegan") || str_contains(
        lowered,
        "vegetarian",
    ) || str_contains(lowered, "vegetarisch")
}

/// What follows the first line break `<br>` in `h`, or nothing when there is none.
pub open spec fn after_break(h: Seq<char>) -> Seq<char>
    decreases h.len(),
{
    if h.len() < 4 {
        Seq::empty()
    } else if h.take(4) == "<br>"@ {
        h.skip(4)
    } else {
        after_break(h.drop_first())
    }
}

/// The price text of a row: what follows the line break in its first cell.
pub fn price_of(h: &String) -> (r: String)
    ensures
        r@ == after_break(h@),
{
    let s = chars_of(h.as_str());
    let n = s.len();
    let mut i: usize = 0;
    proof {
        assert(s@.skip(0) =~= s@);
    }
    while n >= 4 && i <= n - 4
        invariant
            n == s@.len(),
            s@ == h@,
            i <= n,
            after_break(s@.skip(i as int)) == after_break(s@),
        decreases n - i,
    {
        if s[i] == '<' && s[i + 1] == 'b' && s[i + 2] == 'r' && s[i + 3] == '>' {
            let mut out: Vec<char> = Vec::new();
            let mut k: usize = i + 4;
            proof {
                reveal_strlit("<br>");
                assert(s@.skip(i as int).take(4) =~= "<br>"@);
            }
            while k < n
                invariant
                    i + 4 <= k <= n,
                    n == s@.len(),
                    s@ == h@,
                    after_break(s@.skip(i as int)) == after_break(s@),
                    s@.skip(i as int).take(4) == "<br>"@,
                    out@ == s@.subrange(i + 4, k as int),
                decreases n - k,
            {
                assert(s@.subrange(i + 4, k + 1) =~= s@.subrange(i + 4, k as int).push(
                    s@[k as int],
                ));
                out.push(s[k]);
                k = k + 1;
            }
            assert(s@.skip(i as int).skip(4) =~= s@.subrange(i + 4, n as int));
            return string_of(&out);
        }
        proof {
            reveal_strlit("<br>");
        }
        assert(s@.skip(i as int).take(4)[0] == s@[i as int]);
        assert(s@.skip(i as int).take(4)[1] == s@[i + 1]);
        assert(s@.skip(i as int).take(4)[2] == s@[i + 2]);
        assert(s@.skip(i as int).take(4)[3] == s@[i + 3]);
        assert(s@.skip(i as int).drop_first() =~= s@.skip(i + 1));
        i = i + 1;
    }
    assert(after_break(s@.skip(i as int)) == Seq::<char>::empty());
    String::new()
}

/// The text nodes joined with nothing between them.
pub open spec fn concat_runs(runs: Seq<Seq<char>>) -> Seq<char>
    decreases runs.len(),
{
    if runs.len() == 0 {
        Seq::empty()
    } else {
        concat_runs(runs.drop_last()) + runs.last()
    }
}

fn concat_strings(runs: &Vec<String>, from: usize) -> (r: Vec<char>)
    requires
        from <= runs@.len(),
    ensures
        r@ == concat_runs(strings_view(runs@).skip(from as int)),
{
    let ghost v = strings_view(runs@).skip(from as int);
    let mut out: Vec<char> = Vec::new();
    let mut i: usize = from;
    assert(v.take(0) =~= Seq::<Seq<char>>::empty());
    while i < runs.len()
        invariant
            from <= i <= runs@.len(),
            v == strings_view(runs@).skip(from as int),
            out@ == concat_runs(v.take(i - from)),
        decreases runs.len() - i,
    {
        let c = chars_of(runs[i].as_str());
        let ghost base = out@;
        let mut k: usize = 0;
        while k < c.len()
            invariant
                k <= c@.len(),
                out@ == base + c@.take(k as int),
            decreases c.len() - k,
        {
            assert(c@.take(k + 1) =~= c@.take(k as int).push(c@[k as int]));
            out.push(c[k]);
            k = k + 1;
        }
        assert(c@.take(k as int) =~= c@);
        assert(v.take(i + 1 - from).drop_last() =~= v.take(i - from));
        assert(v.take(i + 1 - from).last() == runs@[i as int]@);
        i = i + 1;
    }
    assert(v.take(i - from) =~= v);
    out
}

/// The main dish that a day cell holds, under the row's type and price. The headline is the
/// first text node of the dish-text element, trimmed; the subtext is all the others.
pub open spec fn meal_of(typ: MealType, price: Seq<char>, cell: CellModel) -> MealModel {
    let runs = cell.dish_text.unwrap();
    let head = trim(runs[0]);
    let rest = concat_runs(runs.skip(1));
    MealModel {
        typ,
        text: clean(head),
        subtext: clean(rest),
        price,
        allergens: sorted_codes(head + rest),
        vegan: is_vegan(typ, cell.html),
    }
}

fn meal_from_cell(typ: MealType, price: &String, cell: &Cell) -> (r: MealInfo)
    requires
        cell@.dish_text is Some,
        cell@.dish_text.unwrap().len() > 0,
    ensures
        r@ == meal_of(typ, price@, cell@),
{
    let runs = match &cell.dish_text {
        Some(v) => v,
        None => {
            proof {
                assert(false);
            }
            return MealInfo {
                typ,
                text: String::new(),
                subtext: String::new(),
                price: price.clone(),
                allergens: AllergenList::from_text(""),
                vegan: false,
            };
        },
    };
    let first = chars_of(runs[0].as_str());
    let head = trim_vec(&first);
    let rest = concat_strings(runs, 1);
    let mut both = head.clone();
    let mut k: usize = 0;
    while k < rest.len()
        invariant
            k <= rest@.len(),
            both@ == head@ + rest@.take(k as int),
        decreases rest.len() - k,
    {
        assert(rest@.take(k + 1) =~= rest@.take(k as int).push(rest@[k as int]));
        both.push(rest[k]);
        k = k + 1;
    }
    assert(rest@.take(k as int) =~= rest@);
    let both_s = string_of(&both);
    let head_s = string_of(&head);
    let rest_s = string_of(&rest);
    MealInfo {
        typ,
        text: remove_allergens(head_s.as_str()),
        subtext: remove_allergens(rest_s.as_str()),
        price: price.clone(),
        allergens: collect_allergens(both_s.as_str()),
        vegan: vegan_detektiv(&typ, cell.html.as_str()),
    }
}

/// The separator words between side alternatives.
pub open spec fn is_separator(t: Seq<char>) -> bool {
    t == "oder"@ || t == "or"@
}

/// The alternatives of a side cell: each text node but the separators, cleaned, with its
/// allergens.
pub open spec fn alternatives_of(texts: Seq<Seq<char>>) -> Seq<AlternativeModel>
    decreases texts.len(),
{
    if texts.len() == 0 {
        Seq::empty()
    } else if is_separator(texts.last()) {
        alternatives_of(texts.drop_last())
    } else {
        alternatives_of(texts.drop_last()).push(
            AlternativeModel { text: clean(texts.last()), allergens: sorted_codes(texts.last()) },
        )
    }
}

fn is_word(s: &String, w: &str) -> (r: bool)
    ensures
        r == (s@ == w@),
{
    let a = chars_of(s.as_str());
    let b = chars_of(w);
    compare_chars(&a, &b) == 0
}

/// The side slot that a day cell holds, under the row's type.
pub open spec fn side_of(typ: SideType, cell: CellModel) -> SideModel {
    SideModel { typ, alternatives: alternatives_of(cell.texts) }
}

fn side_from_cell(typ: SideType, cell: &Cell) -> (r: SideInfo)
    ensures
        r@ == side_of(typ, cell@),
{
    let texts = &cell.texts;
    let ghost tv = strings_view(texts@);
    let mut alternatives: Vec<SideAlternative> = Vec::new();
    let mut i: usize = 0;
    assert(tv.take(0) =~= Seq::<Seq<char>>::empty());
    while i < texts.len()
        invariant
            i <= texts@.len(),
            texts == &cell.texts,
            tv == strings_view(texts@),
            alternatives_view(alternatives@) == alternatives_of(tv.take(i as int)),
        decreases texts.len() - i,
    {
        let t = &texts[i];
        assert(tv.take(i + 1).drop_last() =~= tv.take(i as int));
        assert(tv.take(i + 1).last() == t@);
        if !(is_word(t, "oder") || is_word(t, "or")) {
            let alt = SideAlternative {
                text: remove_allergens(t.as_str()),
                allergens: collect_allergens(t.as_str()),
            };
            alternatives.push(alt);
            assert(alternatives_view(alternatives@) =~= alternatives_of(tv.take(i as int)).push(
                alt@,
            ));
        }
        i = i + 1;
    }
    assert(tv.take(i as int) =~= tv);
    SideInfo { typ, alternatives }
}

/// A main-dish row that extraction can read: a type cell and five day cells, where each
/// dish-text element holds at least one text node.
pub open spec fn main_row_ok(row: Seq<CellModel>) -> bool {
    row.len() > OPEN_DAYS && forall|d: int|
        1 <= d <= OPEN_DAYS && (#[trigger] row[d]).dish_text is Some ==> row[d].dish_text.unwrap().len() > 0
}

/// A side-dish row that extraction can read: a type cell and five day cells.
pub open spec fn side_row_ok(row: Seq<CellModel>) -> bool {
    row.len() > OPEN_DAYS
}

/// The main dishes of day `d` (0 for Monday) in the rows, in row order.
pub open spec fn main_day(rows: Seq<Seq<CellModel>>, d: int) -> Seq<MealModel>
    decreases rows.len(),
{
    if rows.len() == 0 {
        Seq::empty()
    } else {
        let prev = main_day(rows.drop_last(), d);
        let row = rows.last();
        if row[d + 1].dish_text is Some {
            prev.push(
                meal_of(meal_type_of(lower_of(row[0].html)), after_break(row[0].html), row[d + 1]),
            )
        } else {
            prev
        }
    }
}

/// The side slots of day `d` (0 for Monday) in the rows, in row order.
pub open spec fn side_day(rows: Seq<Seq<CellModel>>, d: int) -> Seq<SideModel>
    decreases rows.len(),
{
    if rows.len() == 0 {
        Seq::empty()
    } else {
        let row = rows.last();
        side_day(rows.drop_last(), d).push(side_of(side_type_of(lower_of(row[0].html)), row[d + 1]))
    }
}

/// The menu that the rows of a page give, day by day.
pub struct WeekModel {
    pub main_dishes: Seq<Seq<MealModel>>,
    pub side_dishes: Seq<Seq<SideModel>>,
}

/// Whether extraction succeeds on these rows: every row can be read.
pub open spec fn rows_ok(main_rows: Seq<Seq<CellModel>>, side_rows: Seq<Seq<CellModel>>) -> bool {
    (forall|r: int| 0 <= r < main_rows.len() ==> main_row_ok(#[trigger] main_rows[r])) && (forall|
        r: int,
    |
        0 <= r < side_rows.len() ==> side_row_ok(#[trigger] side_rows[r]))
}

/// The week that extraction gives on rows that can all be read.
pub open spec fn week_of(main_rows: Seq<Seq<CellModel>>, side_rows: Seq<Seq<CellModel>>) -> WeekModel {
    WeekModel {
        main_dishes: Seq::new(OPEN_DAYS as nat, |d: int| main_day(main_rows, d)),
        side_dishes: Seq::new(OPEN_DAYS as nat, |d: int| side_day(side_rows, d)),
    }
}

/// The menu of one week: for each weekday, Monday first, its main dishes and side slots.
#[derive(Clone, Debug)]
pub struct WeekData {
    pub main_dishes: [Vec<MealInfo>; OPEN_DAYS],
    pub side_dishes: [Vec<SideInfo>; OPEN_DAYS],
}

/// The five entries of `v` as an array, in order.
fn into_days<T>(v: Vec<T>) -> (r: [T; OPEN_DAYS])
    requires
        v@.len() == OPEN_DAYS,
    ensures
        r@ == v@,
{
    let ghost all = v@;
    let mut v = v;
    let e = v.pop().unwrap();
    let d = v.pop().unwrap();
    let c = v.pop().unwrap();
    let b = v.pop().unwrap();
    let a = v.pop().unwrap();
    let r = [a, b, c, d, e];
    assert(r@ =~= all);
    r
}

/// A view into one day of a `WeekData`.
#[derive(Clone, Debug)]
pub struct DayView<'a> {
    pub main_dishes: &'a Vec<MealInfo>,
    pub side_dishes: &'a Vec<SideInfo>,
}

/// The dishes of a single day, owned.
#[derive(Clone, Debug)]
pub struct DayData {
    /// Main dishes (Klassiker, Vegetarisch, Wok, ...).
    pub main_dishes: Vec<MealInfo>,
    /// Side dishes (Sättigungsbeilagen/Gemüsebeilagen).
    pub side_dishes: Vec<SideInfo>,
}

pub open spec fn meals_view(v: Seq<MealInfo>) -> Seq<MealModel> {
    v.map_values(|m: MealInfo| m@)
}

pub open spec fn sides_view(v: Seq<SideInfo>) -> Seq<SideModel> {
    v.map_values(|m: SideInfo| m@)
}

impl View for WeekData {
    type V = WeekModel;

    open spec fn view(&self) -> WeekModel {
        WeekModel {
            main_dishes: self.main_dishes@.map_values(|d: Vec<MealInfo>| meals_view(d@)),
            side_dishes: self.side_dishes@.map_values(|d: Vec<SideInfo>| sides_view(d@)),
        }
    }
}

impl WeekModel {
    /// Exactly one slot per weekday for each kind of dish.
    pub open spec fn wf(self) -> bool {
        self.main_dishes.len() == OPEN_DAYS && self.side_dishes.len() == OPEN_DAYS
    }
}

/// Whether one main dish comes no later than another.
pub open spec fn meal_order() -> spec_fn(MealModel, MealModel) -> bool {
    |a: MealModel, b: MealModel| meal_cmp(a, b) <= 0
}

/// Whether one side slot comes no later than another.
pub open spec fn side_order() -> spec_fn(SideModel, SideModel) -> bool {
    |a: SideModel, b: SideModel| side_cmp(a, b) <= 0
}

/// The week with each day's main dishes and side slots sorted, each kind on its own.
pub open spec fn sort_week(w: WeekModel) -> WeekModel {
    WeekModel {
        main_dishes: w.main_dishes.map_values(
            |d: Seq<MealModel>| insertion_sort(d, meal_order()),
        ),
        side_dishes: w.side_dishes.map_values(
            |d: Seq<SideModel>| insertion_sort(d, side_order()),
        ),
    }
}

/// What extraction gives on these rows.
pub open spec fn extract_spec(main_rows: Seq<Seq<CellModel>>, side_rows: Seq<Seq<CellModel>>) -> Result<WeekModel, ExtractionError> {
    if rows_ok(main_rows, side_rows) {
        Ok(week_of(main_rows, side_rows))
    } else {
        Err(ExtractionError::LayoutMismatch)
    }
}

pub open spec fn result_view(r: Result<WeekData, ExtractionError>) -> Result<WeekModel, ExtractionError> {
    match r {
        Ok(w) => Ok(w@),
        Err(e) => Err(e),
    }
}

fn check_main_rows(rows: &Vec<Vec<Cell>>) -> (r: bool)
    ensures
        r == forall|i: int| 0 <= i < rows@.len() ==> main_row_ok(#[trigger] rows_view(rows@)[i]),
{
    let mut i: usize = 0;
    while i < rows.len()
        invariant
            i <= rows@.len(),
            forall|k: int| 0 <= k < i ==> main_row_ok(#[trigger] rows_view(rows@)[k]),
        decreases rows.len() - i,
    {
        let row = &rows[i];
        let ghost rv = rows_view(rows@)[i as int];
        assert(rv == row_view(row@));
        if row.len() <= OPEN_DAYS {
            return false;
        }
        let mut d: usize = 1;
        while d <= OPEN_DAYS
            invariant
                1 <= d <= OPEN_DAYS + 1,
                i < rows@.len(),
                row == &rows@[i as int],
                rv == rows_view(rows@)[i as int],
                forall|k: int| 0 <= k < i ==> main_row_ok(#[trigger] rows_view(rows@)[k]),
                row.len() > OPEN_DAYS,
                rv == row_view(row@),
                forall|e: int| 1 <= e < d && (#[trigger] rv[e]).dish_text is Some ==> rv[e].dish_text.unwrap().len() > 0,
            decreases OPEN_DAYS + 1 - d,
        {
            assert(rv[d as int] == row@[d as int]@);
            match &row[d].dish_text {
                Some(runs) => {
                    if runs.len() == 0 {
                        assert(rv[d as int].dish_text.unwrap().len() == 0);
                        assert(!main_row_ok(rv));
                        return false;
                    }
                },
                None => {},
            }
            d = d + 1;
        }
        i = i + 1;
    }
    true
}

fn check_side_rows(rows: &Vec<Vec<Cell>>) -> (r: bool)
    ensures
        r == forall|i: int| 0 <= i < rows@.len() ==> side_row_ok(#[trigger] rows_view(rows@)[i]),
{
    let mut i: usize = 0;
    while i < rows.len()
        invariant
            i <= rows@.len(),
            forall|k: int| 0 <= k < i ==> side_row_ok(#[trigger] rows_view(rows@)[k]),
        decreases rows.len() - i,
    {
        assert(rows_view(rows@)[i as int] == row_view(rows@[i as int]@));
        if rows[i].len() <= OPEN_DAYS {
            return false;
        }
        i = i + 1;
    }
    true
}

fn main_dishes_of_day(rows: &Vec<Vec<Cell>>, d: usize) -> (r: Vec<MealInfo>)
    requires
        d < OPEN_DAYS,
        forall|i: int| 0 <= i < rows@.len() ==> main_row_ok(#[trigger] rows_view(rows@)[i]),
    ensures
        meals_view(r@) == main_day(rows_view(rows@), d as int),
{
    let ghost all = rows_view(rows@);
    let mut day: Vec<MealInfo> = Vec::new();
    let mut i: usize = 0;
    assert(all.take(0) =~= Seq::<Seq<CellModel>>::empty());
    while i < rows.len()
        invariant
            i <= rows@.len(),
            d < OPEN_DAYS,
            all == rows_view(rows@),
            forall|k: int| 0 <= k < rows@.len() ==> main_row_ok(#[trigger] all[k]),
            meals_view(day@) == main_day(all.take(i as int), d as int),
        decreases rows.len() - i,
    {
        let row = &rows[i];
        let ghost rv = all[i as int];
        assert(rv == row_view(row@));
        assert(main_row_ok(rv));
        assert(all.take(i + 1).drop_last() =~= all.take(i as int));
        assert(all.take(i + 1).last() == rv);
        assert(rv[0] == row@[0]@);
        assert(rv[d + 1] == row@[d + 1]@);
        let cell = &row[d + 1];
        match &cell.dish_text {
            Some(_) => {
                let typ = MealType::infer(row[0].html.as_str());
                let price = price_of(&row[0].html);
                let meal = meal_from_cell(typ, &price, cell);
                day.push(meal);
                assert(meals_view(day@) =~= meals_view(day@.drop_last()).push(meal@));
            },
            None => {},
        }
        i = i + 1;
    }
    assert(all.take(i as int) =~= all);
    day
}

fn side_dishes_of_day(rows: &Vec<Vec<Cell>>, d: usize) -> (r: Vec<SideInfo>)
    requires
        d < OPEN_DAYS,
        forall|i: int| 0 <= i < rows@.len() ==> side_row_ok(#[trigger] rows_view(rows@)[i]),
    ensures
        sides_view(r@) == side_day(rows_view(rows@), d as int),
{
    let ghost all = rows_view(rows@);
    let mut day: Vec<SideInfo> = Vec::new();
    let mut i: usize = 0;
    assert(all.take(0) =~= Seq::<Seq<CellModel>>::empty());
    while i < rows.len()
        invariant
            i <= rows@.len(),
            d < OPEN_DAYS,
            all == rows_view(rows@),
            forall|k: int| 0 <= k < rows@.len() ==> side_row_ok(#[trigger] all[k]),
            sides_view(day@) == side_day(all.take(i as int), d as int),
        decreases rows.len() - i,
    {
        let row = &rows[i];
        let ghost rv = all[i as int];
        assert(rv == row_view(row@));
        assert(side_row_ok(rv));
        assert(all.take(i + 1).drop_last() =~= all.take(i as int));
        assert(all.take(i + 1).last() == rv);
        assert(rv[0] == row@[0]@);
        assert(rv[d + 1] == row@[d + 1]@);
        let typ = SideType::infer(row[0].html.as_str());
        let side = side_from_cell(typ, &row[d + 1]);
        day.push(side);
        assert(sides_view(day@) =~= sides_view(day@.drop_last()).push(side@));
        i = i + 1;
    }
    assert(all.take(i as int) =~= all);
    day
}

/// Builds the week from the rows of a menu table: each main-dish row gives, for each weekday
/// whose cell has a dish-text element, one main dish; each side-dish row gives one side slot
/// per weekday. Fails with `LayoutMismatch` where a row lacks a cell or a dish-text element
/// holds no text, rather than give a partial week.
pub fn extract_week(main_rows: &Vec<Vec<Cell>>, side_rows: &Vec<Vec<Cell>>) -> (r: Result<WeekData, ExtractionError>)
    ensures
        result_view(r) == extract_spec(rows_view(main_rows@), rows_view(side_rows@)),
{
    if !check_main_rows(main_rows) || !check_side_rows(side_rows) {
        return Err(ExtractionError::LayoutMismatch);
    }
    let ghost target = week_of(rows_view(main_rows@), rows_view(side_rows@));
    let mut main_dishes: Vec<Vec<MealInfo>> = Vec::new();
    let mut side_dishes: Vec<Vec<SideInfo>> = Vec::new();
    let mut d: usize = 0;
    while d < OPEN_DAYS
        invariant
            d <= OPEN_DAYS,
            forall|i: int| 0 <= i < main_rows@.len() ==> main_row_ok(#[trigger] rows_view(main_rows@)[i]),
            forall|i: int| 0 <= i < side_rows@.len() ==> side_row_ok(#[trigger] rows_view(side_rows@)[i]),
            target == week_of(rows_view(main_rows@), rows_view(side_rows@)),
            main_dishes@.map_values(|v: Vec<MealInfo>| meals_view(v@)) == target.main_dishes.take(d as int),
            side_dishes@.map_values(|v: Vec<SideInfo>| sides_view(v@)) == target.side_dishes.take(d as int),
        decreases OPEN_DAYS - d,
    {
        let m = main_dishes_of_day(main_rows, d);
        let s = side_dishes_of_day(side_rows, d);
        let ghost old_main = main_dishes@;
        let ghost old_side = side_dishes@;
        main_dishes.push(m);
        side_dishes.push(s);
        assert(target.main_dishes[d as int] == main_day(rows_view(main_rows@), d as int));
        assert(target.side_dishes[d as int] == side_day(rows_view(side_rows@), d as int));
        assert(main_dishes@ == old_main.push(m));
        assert(side_dishes@ == old_side.push(s));
        assert(target.main_dishes.take(d + 1) =~= target.main_dishes.take(d as int).push(meals_view(m@)));
        assert(target.side_dishes.take(d + 1) =~= target.side_dishes.take(d as int).push(sides_view(s@)));
        assert(main_dishes@.map_values(|v: Vec<MealInfo>| meals_view(v@)) =~= target.main_dishes.take(d + 1));
        assert(side_dishes@.map_values(|v: Vec<SideInfo>| sides_view(v@)) =~= target.side_dishes.take(d + 1));
        d = d + 1;
    }
    let w = WeekData { main_dishes: into_days(main_dishes), side_dishes: into_days(side_dishes) };
    assert(w@.main_dishes =~= target.main_dishes);
    assert(w@.side_dishes =~= target.side_dishes);
    Ok(w)
}

pub proof fn lemma_meal_order_total()
    ensures
        total(meal_order()),
{
    assert forall|a: MealModel, b: MealModel| #[trigger] meal_order()(a, b) || meal_order()(b, a) by {
        lemma_meal_cmp_flip(a, b);
    }
}

pub proof fn lemma_side_order_total()
    ensures
        total(side_order()),
{
    assert forall|a: SideModel, b: SideModel| #[trigger] side_order()(a, b) || side_order()(b, a) by {
        lemma_side_cmp_flip(a, b);
    }
}

fn sort_meals(v: &Vec<MealInfo>) -> (r: Vec<MealInfo>)
    ensures
        meals_view(r@) == insertion_sort(meals_view(v@), meal_order()),
{
    let ghost le = meal_order();
    let ghost src = meals_view(v@);
    let mut out: Vec<MealInfo> = Vec::new();
    let mut i: usize = 0;
    assert(src.take(0) =~= Seq::<MealModel>::empty());
    while i < v.len()
        invariant
            i <= v@.len(),
            src == meals_view(v@),
            le == meal_order(),
            meals_view(out@) == insertion_sort(src.take(i as int), le),
        decreases v.len() - i,
    {
        let x = v[i].duplicate();
        let ghost xv = x@;
        let ghost s = meals_view(out@);
        assert(src.take(i + 1).drop_last() =~= src.take(i as int));
        assert(src.take(i + 1).last() == xv);
        let mut j: usize = out.len();
        let mut go: bool = j > 0 && out[j - 1].compare(&x) > 0;
        assert(s.skip(j as int) =~= Seq::<MealModel>::empty());
        while go
            invariant
                j <= out@.len(),
                s == meals_view(out@),
                xv == x@,
                le == meal_order(),
                forall|k: int| j <= k < s.len() ==> !le(#[trigger] s[k], xv),
                go ==> j > 0 && !le(s[j - 1], xv),
                !go ==> j == 0 || le(s[j - 1], xv),
            decreases j,
        {
            j = j - 1;
            go = j > 0 && out[j - 1].compare(&x) > 0;
        }
        proof {
            lemma_insert_by_split(xv, s, j as int, le);
            assert(s.take(j as int).len() == 0 || s.take(j as int).last() == s[j - 1]);
            assert(insert_by(xv, s.take(j as int), le) == s.take(j as int).push(xv));
        }
        out.insert(j, x);
        assert(meals_view(out@) =~= s.take(j as int).push(xv) + s.skip(j as int));
        i = i + 1;
    }
    assert(src.take(i as int) =~= src);
    out
}

fn sort_sides(v: &Vec<SideInfo>) -> (r: Vec<SideInfo>)
    ensures
        sides_view(r@) == insertion_sort(sides_view(v@), side_order()),
{
    let ghost le = side_order();
    let ghost src = sides_view(v@);
    let mut out: Vec<SideInfo> = Vec::new();
    let mut i: usize = 0;
    assert(src.take(0) =~= Seq::<SideModel>::empty());
    while i < v.len()
        invariant
            i <= v@.len(),
            src == sides_view(v@),
            le == side_order(),
            sides_view(out@) == insertion_sort(src.take(i as int), le),
        decreases v.len() - i,
    {
        let x = v[i].duplicate();
        let ghost xv = x@;
        let ghost s = sides_view(out@);
        assert(src.take(i + 1).drop_last() =~= src.take(i as int));
        assert(src.take(i + 1).last() == xv);
        let mut j: usize = out.len();
        let mut go: bool = j > 0 && out[j - 1].compare(&x) > 0;
        assert(s.skip(j as int) =~= Seq::<SideModel>::empty());
        while go
            invariant
                j <= out@.len(),
                s == sides_view(out@),
                xv == x@,
                le == side_order(),
                forall|k: int| j <= k < s.len() ==> !le(#[trigger] s[k], xv),
                go ==> j > 0 && !le(s[j - 1], xv),
                !go ==> j == 0 || le(s[j - 1], xv),
            decreases j,
        {
            j = j - 1;
            go = j > 0 && out[j - 1].compare(&x) > 0;
        }
        proof {
            lemma_insert_by_split(xv, s, j as int, le);
            assert(s.take(j as int).len() == 0 || s.take(j as int).last() == s[j - 1]);
            assert(insert_by(xv, s.take(j as int), le) == s.take(j as int).push(xv));
        }
        out.insert(j, x);
        assert(sides_view(out@) =~= s.take(j as int).push(xv) + s.skip(j as int));
        i = i + 1;
    }
    assert(src.take(i as int) =~= src);
    out
}

impl WeekData {
    /// A view into day `day` (0 for Monday).
    pub fn get_day<'a>(&'a self, day: usize) -> (r: DayView<'a>)
        requires
            day < OPEN_DAYS,
        ensures
            meals_view(r.main_dishes@) == self@.main_dishes[day as int],
            sides_view(r.side_dishes@) == self@.side_dishes[day as int],
    {
        DayView { main_dishes: &self.main_dishes[day], side_dishes: &self.side_dishes[day] }
    }

    /// The same week with each day's dishes sorted: main dishes by their order, side slots by
    /// theirs. The sort is stable.
    pub fn sorted(&self) -> (r: WeekData)
        ensures
            r@ == sort_week(self@),
    {
        let mut main_dishes: Vec<Vec<MealInfo>> = Vec::new();
        let mut side_dishes: Vec<Vec<SideInfo>> = Vec::new();
        let ghost target = sort_week(self@);
        let mut d: usize = 0;
        while d < OPEN_DAYS
            invariant
                d <= OPEN_DAYS,
                target == sort_week(self@),
                main_dishes@.map_values(|v: Vec<MealInfo>| meals_view(v@)) == target.main_dishes.take(d as int),
            decreases OPEN_DAYS - d,
        {
            let m = sort_meals(&self.main_dishes[d]);
            let ghost before = main_dishes@;
            main_dishes.push(m);
            assert(main_dishes@ == before.push(m));
            assert(target.main_dishes[d as int] == meals_view(m@));
            assert(target.main_dishes.take(d + 1) =~= target.main_dishes.take(d as int).push(meals_view(m@)));
            assert(main_dishes@.map_values(|v: Vec<MealInfo>| meals_view(v@)) =~= target.main_dishes.take(d + 1));
            d = d + 1;
        }
        let mut d: usize = 0;
        while d < OPEN_DAYS
            invariant
                d <= OPEN_DAYS,
                target == sort_week(self@),
                main_dishes@.map_values(|v: Vec<MealInfo>| meals_view(v@)) == target.main_dishes.take(OPEN_DAYS as int),
                side_dishes@.map_values(|v: Vec<SideInfo>| sides_view(v@)) == target.side_dishes.take(d as int),
            decreases OPEN_DAYS - d,
        {
            let s = sort_sides(&self.side_dishes[d]);
            let ghost before = side_dishes@;
            side_dishes.push(s);
            assert(side_dishes@ == before.push(s));
            assert(target.side_dishes[d as int] == sides_view(s@));
            assert(target.side_dishes.take(d + 1) =~= target.side_dishes.take(d as int).push(sides_view(s@)));
            assert(side_dishes@.map_values(|v: Vec<SideInfo>| sides_view(v@)) =~= target.side_dishes.take(d + 1));
            d = d + 1;
        }
        let r = WeekData { main_dishes: into_days(main_dishes), side_dishes: into_days(side_dishes) };
        assert(target.main_dishes.take(OPEN_DAYS as int) =~= target.main_dishes);
        assert(target.side_dishes.take(OPEN_DAYS as int) =~= target.side_dishes);
        assert(r@.main_dishes =~= target.main_dishes);
        assert(r@.side_dishes =~= target.side_dishes);
        r
    }
}

/// A week that extraction gives has exactly one slot per weekday for each kind of dish, so
/// each of its days can be viewed.
pub proof fn lemma_extracted_week_wf(m: Seq<Seq<CellModel>>, s: Seq<Seq<CellModel>>)
    ensures
        week_of(m, s).wf(),
{
}

/// The side slot of day `d` from the `k`-th side-dish row is that row's type with the
/// alternatives of its day cell: each text node that is not a separator, cleaned, with its
/// allergens, in document order.
pub proof fn lemma_side_slot(rows: Seq<Seq<CellModel>>, d: int, k: int)
    requires
        0 <= k < rows.len(),
    ensures
        side_day(rows, d).len() == rows.len(),
        side_day(rows, d)[k] == side_of(side_type_of(lower_of(rows[k][0].html)), rows[k][d + 1]),
        side_day(rows, d)[k].alternatives == alternatives_of(rows[k][d + 1].texts),
    decreases rows.len(),
{
    lemma_side_day_len(rows, d);
    if k < rows.len() - 1 {
        lemma_side_slot(rows.drop_last(), d, k);
    }
}

proof fn lemma_side_day_len(rows: Seq<Seq<CellModel>>, d: int)
    ensures
        side_day(rows, d).len() == rows.len(),
    decreases rows.len(),
{
    if rows.len() > 0 {
        lemma_side_day_len(rows.drop_last(), d);
    }
}

/// Every week holds one slot per weekday for each kind of dish, so `get_day` is defined on
/// each index below `OPEN_DAYS`.
pub proof fn lemma_week_has_every_day(w: WeekData)
    ensures
        w@.wf(),
{
}

/// Sorting a week twice gives what sorting it once gives.
pub proof fn lemma_sort_week_idempotent(w: WeekModel)
    ensures
        sort_week(sort_week(w)) == sort_week(w),
{
    let s = sort_week(w);
    let ss = sort_week(s);
    lemma_meal_order_total();
    lemma_side_order_total();
    assert forall|d: int| 0 <= d < w.main_dishes.len() implies #[trigger] ss.main_dishes[d] == s.main_dishes[d] by {
        lemma_insertion_sort(w.main_dishes[d], meal_order());
        lemma_insertion_sort_of_sorted(s.main_dishes[d], meal_order());
    }
    assert forall|d: int| 0 <= d < w.side_dishes.len() implies #[trigger] ss.side_dishes[d] == s.side_dishes[d] by {
        lemma_insertion_sort(w.side_dishes[d], side_order());
        lemma_insertion_sort_of_sorted(s.side_dishes[d], side_order());
    }
    assert(ss.main_dishes =~= s.main_dishes);
    assert(ss.side_dishes =~= s.side_dishes);
}

/// Sorting keeps every day's entries: the same dishes, each as often as before, and the same
/// number of days.
pub proof fn lemma_sort_week_permutes(w: WeekModel)
    ensures
        sort_week(w).main_dishes.len() == w.main_dishes.len(),
        sort_week(w).side_dishes.len() == w.side_dishes.len(),
        forall|d: int| 0 <= d < w.main_dishes.len() ==> (#[trigger] sort_week(w).main_dishes[d]).to_multiset() == w.main_dishes[d].to_multiset(),
        forall|d: int| 0 <= d < w.side_dishes.len() ==> (#[trigger] sort_week(w).side_dishes[d]).to_multiset() == w.side_dishes[d].to_multiset(),
        forall|d: int| 0 <= d < w.main_dishes.len() ==> sorted_by(#[trigger] sort_week(w).main_dishes[d], meal_order()),
        forall|d: int| 0 <= d < w.side_dishes.len() ==> sorted_by(#[trigger] sort_week(w).side_dishes[d], side_order()),
{
    lemma_meal_order_total();
    lemma_side_order_total();
    assert forall|d: int| 0 <= d < w.main_dishes.len() implies (#[trigger] sort_week(w).main_dishes[d]).to_multiset() == w.main_dishes[d].to_multiset()
        && sorted_by(sort_week(w).main_dishes[d], meal_order()) by {
        lemma_insertion_sort(w.main_dishes[d], meal_order());
    }
    assert forall|d: int| 0 <= d < w.side_dishes.len() implies (#[trigger] sort_week(w).side_dishes[d]).to_multiset() == w.side_dishes[d].to_multiset()
        && sorted_by(sort_week(w).side_dishes[d], side_order()) by {
        lemma_insertion_sort(w.side_dishes[d], side_order());
    }
}

#[verifier::external_type_specification]
#[verifier::external_body]
pub struct ExHtml(scraper::Html);

#[verifier::external_type_specification]
#[verifier::external_body]
pub struct ExSelector(scraper::Selector);

#[verifier::external_type_specification]
#[verifier::external_body]
pub struct ExElementRef<'a>(scraper::ElementRef<'a>);

/// Relies on `scraper::Html::parse_document`: parses a whole HTML document.
#[verifier::external_body]
fn parse_document(html: &str) -> (r: scraper::Html) {
    scraper::Html::parse_document(html)
}

/// Relies on `scraper::Selector::parse`: a CSS selector, or `None` where it does not parse.
#[verifier::external_body]
fn parse_selector(css: &str) -> (r: Option<scraper::Selector>) {
    scraper::Selector::parse(css).ok()
}

/// Relies on `scraper::Html::select`: the elements of the document that match, in document
/// order.
#[verifier::external_body]
fn select_in_document<'a>(dom: &'a scraper::Html, sel: &scraper::Selector) -> (r: Vec<
    scraper::ElementRef<'a>,
>) {
    dom.select(sel).collect()
}

/// Relies on `scraper::ElementRef::select`: the descendants of `e` that match, in document
/// order.
#[verifier::external_body]
fn select_in_element<'a>(e: &scraper::ElementRef<'a>, sel: &scraper::Selector) -> (r: Vec<
    scraper::ElementRef<'a>,
>) {
    e.select(sel).collect()
}

/// Relies on `scraper::ElementRef::inner_html`: the markup inside `e`.
#[verifier::external_body]
fn inner_html(e: &scraper::ElementRef) -> (r: String) {
    e.inner_html()
}

/// Relies on `scraper::ElementRef::text`: the text nodes below `e`, in document order.
#[verifier::external_body]
fn text_nodes(e: &scraper::ElementRef) -> (r: Vec<String>) {
    e.text().map(str::to_string).collect()
}

/// The rows that `row_sel` picks, each as its `td` cells.
fn read_rows(
    dom: &scraper::Html,
    row_sel: &scraper::Selector,
    cell_sel: &scraper::Selector,
    dish_sel: &scraper::Selector,
) -> (r: Vec<Vec<Cell>>) {
    let rows = select_in_document(dom, row_sel);
    let mut out: Vec<Vec<Cell>> = Vec::new();
    let mut i: usize = 0;
    while i < rows.len()
        decreases rows.len() - i,
    {
        let cells = select_in_element(&rows[i], cell_sel);
        let mut row: Vec<Cell> = Vec::new();
        let mut k: usize = 0;
        while k < cells.len()
            decreases cells.len() - k,
        {
            let c = &cells[k];
            let dish = select_in_element(c, dish_sel);
            let dish_text = if dish.len() > 0 {
                Some(text_nodes(&dish[0]))
            } else {
                None
            };
            row.push(Cell { html: inner_html(c), texts: text_nodes(c), dish_text });
            k = k + 1;
        }
        out.push(row);
        i = i + 1;
    }
    out
}

/// Reads the weekly menu from the HTML of a menu page. The page's table holds main-dish rows
/// (`tr.main-dish`) and side-dish rows (`tr.side-dish`); a dish cell's text stands in a
/// `.dish-text` element. The result is what `extract_week` gives on the rows as the HTML
/// parser hands them out. The parser's document, elements and selectors are opaque values,
/// so what it hands out is not stated here; `extract_week` carries the exact contract for
/// every value of it.
pub fn scrape_page(html: &str) -> (r: Result<WeekData, ExtractionError>)
    ensures
        r is Ok ==> r->Ok_0@.wf(),
        r is Ok ==> exists|m: Seq<Seq<CellModel>>, s: Seq<Seq<CellModel>>|
            rows_ok(m, s) && r->Ok_0@ == #[trigger] week_of(m, s),
        r is Err ==> r->Err_0 == ExtractionError::LayoutMismatch,
{
    let dom = parse_document(html);
    let sel_main = parse_selector("tr.main-dish");
    let sel_side = parse_selector("tr.side-dish");
    let sel_cell = parse_selector("td");
    let sel_dish = parse_selector(".dish-text");
    match (sel_main, sel_side, sel_cell, sel_dish) {
        (Some(main), Some(side), Some(cell), Some(dish)) => {
            let main_rows = read_rows(&dom, &main, &cell, &dish);
            let side_rows = read_rows(&dom, &side, &cell, &dish);
            let r = extract_week(&main_rows, &side_rows);
            proof {
                let m = rows_view(main_rows@);
                let s = rows_view(side_rows@);
                if r is Ok {
                    assert(r->Ok_0@ == week_of(m, s));
                }
            }
            r
        },
        _ => Err(ExtractionError::LayoutMismatch),
    }
}

} // verus!
