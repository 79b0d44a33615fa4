use vstd::prelude::*;

use crate::markers::{
    allergen_codes, codes_view, collect_codes, insert_code, lemma_strictly_sorted_unique, sorted_codes,
    strictly_sorted,
};
use crate::text::{chars_of, compare_chars, is_infix, lemma_lex_trichotomy, lex_lt, lower_of, lowercase, str_contains, string_of};

verus! {

/// The category of a main dish. Declaration order is the sort order.
#[derive(Clone, Copy, PartialEq, Eq, Structural, PartialOrd, Ord, Hash, Debug)]
pub enum MealType {
    /// Classic dish (usually includes meat).
    Klassiker,
    /// Stew (incl. vegan options).
    Tellergericht,
    /// Suggestion of the day (incl. vegan options).
    Empfehlung,
    /// Wok (incl. vegan options).
    Wok,
    /// Classic burgers (Cheeseburger/Veggieburger/Chicken burger).
    BurgerClassics,
    /// Burger of the week (special offer).
    BurgerWoche,
    /// Pizza of the day (special offer).
    PizzaTag,
    /// Standard vegetarian meal.
    Vegetarisch,
    /// Catch-all for categories that could not be recognised.
    Unbekannt,
}

/// The category of a side dish. Declaration order is the sort order.
#[derive(Clone, Copy, PartialEq, Eq, Structural, PartialOrd, Ord, Hash, Debug)]
pub enum SideType {
    /// Main side (Sättigungsbeilage).
    Main,
    /// Secondary side (Gemüsebeilage).
    Secondary,
    /// Catch-all for sides that could not be recognised.
    Unknown,
}

/// Position of a meal type in declaration order.
pub open spec fn meal_rank(t: MealType) -> int {
    match t {
        MealType::Klassiker => 0,
        MealType::Tellergericht => 1,
        MealType::Empfehlung => 2,
        MealType::Wok => 3,
        MealType::BurgerClassics => 4,
        MealType::BurgerWoche => 5,
        MealType::PizzaTag => 6,
        MealType::Vegetarisch => 7,
        MealType::Unbekannt => 8,
    }
}

pub fn meal_rank_of(t: MealType) -> (r: u8)
    ensures
        r == meal_rank(t),
{
    match t {
        MealType::Klassiker => 0,
        MealType::Tellergericht => 1,
        MealType::Empfehlung => 2,
        MealType::Wok => 3,
        MealType::BurgerClassics => 4,
        MealType::BurgerWoche => 5,
        MealType::PizzaTag => 6,
        MealType::Vegetarisch => 7,
        MealType::Unbekannt => 8,
    }
}

/// Position of a side type in declaration order.
pub open spec fn side_rank(t: SideType) -> int {
    match t {
        SideType::Main => 0,
        SideType::Secondary => 1,
        SideType::Unknown => 2,
    }
}

pub fn side_rank_of(t: SideType) -> (r: u8)
    ensures
        r == side_rank(t),
{
    match t {
        SideType::Main => 0,
        SideType::Secondary => 1,
        SideType::Unknown => 2,
    }
}

pub const MEAL_LABELS: usize = 8;

pub const SIDE_LABELS: usize = 4;

/// The main-dish label table: type, German label, English label. The order decides which
/// type wins when several labels occur: "Burger Classics" stands before "Classics".
pub open spec fn meal_label(i: int) -> (MealType, Seq<char>, Seq<char>) {
    if i == 0 {
        (MealType::BurgerClassics, "Burger Classics"@, "Burger Classics"@)
    } else if i == 1 {
        (MealType::BurgerWoche, "Burger der Woche"@, "Burger of the week"@)
    } else if i == 2 {
        (MealType::Tellergericht, "Tellergericht"@, "Stew"@)
    } else if i == 3 {
        (MealType::PizzaTag, "Pizza des Tages"@, "Pizza of the Day"@)
    } else if i == 4 {
        (MealType::Vegetarisch, "Vegetarisch"@, "Vegetarian"@)
    } else if i == 5 {
        (MealType::Empfehlung, "Empfehlung des Tages"@, "Suggestion of the day"@)
    } else if i == 6 {
        (MealType::Klassiker, "Klassiker"@, "Classics"@)
    } else {
        (MealType::Wok, "Wok"@, "Wok"@)
    }
}

fn meal_label_at(i: usize) -> (r: (MealType, &'static str, &'static str))
    requires
        i < MEAL_LABELS,
    ensures
        r.0 == meal_label(i as int).0,
        r.1@ == meal_label(i as int).1,
        r.2@ == meal_label(i as int).2,
{
    match i {
        0 => (MealType::BurgerClassics, "Burger Classics", "Burger Classics"),
        1 => (MealType::BurgerWoche, "Burger der Woche", "Burger of the week"),
        2 => (MealType::Tellergericht, "Tellergericht", "Stew"),
        3 => (MealType::PizzaTag, "Pizza des Tages", "Pizza of the Day"),
        4 => (MealType::Vegetarisch, "Vegetarisch", "Vegetarian"),
        5 => (MealType::Empfehlung, "Empfehlung des Tages", "Suggestion of the day"),
        6 => (MealType::Klassiker, "Klassiker", "Classics"),
        _ => (MealType::Wok, "Wok", "Wok"),
    }
}

/// The side-dish label table: type, German label, English label.
pub open spec fn side_label(i: int) -> (SideType, Seq<char>, Seq<char>) {
    if i == 0 {
        (SideType::Main, "Sättigungsbeilage"@, "Main side-dish"@)
    } else if i == 1 {
        (SideType::Main, "Hauptbeilage"@, "Main side-dish"@)
    } else if i == 2 {
        (SideType::Secondary, "Gemüsebeilage"@, "Secondary"@)
    } else {
        (SideType::Secondary, "Nebenbeilage"@, "Secondary"@)
    }
}

fn side_label_at(i: usize) -> (r: (SideType, &'static str, &'static str))
    requires
        i < SIDE_LABELS,
    ensures
        r.0 == side_label(i as int).0,
        r.1@ == side_label(i as int).1,
        r.2@ == side_label(i as int).2,
{
    match i {
        0 => (SideType::Main, "Sättigungsbeilage", "Main side-dish"),
        1 => (SideType::Main, "Hauptbeilage", "Main side-dish"),
        2 => (SideType::Secondary, "Gemüsebeilage", "Secondary"),
        _ => (SideType::Secondary, "Nebenbeilage", "Secondary"),
    }
}

/// The lower-cased German and English labels of entry `i` of the main-dish table.
pub open spec fn meal_key(i: int) -> (Seq<char>, Seq<char>) {
    if i == 0 {
        ("burger classics"@, "burger classics"@)
    } else if i == 1 {
        ("burger der woche"@, "burger of the week"@)
    } else if i == 2 {
        ("tellergericht"@, "stew"@)
    } else if i == 3 {
        ("pizza des tages"@, "pizza of the day"@)
    } else if i == 4 {
        ("vegetarisch"@, "vegetarian"@)
    } else if i == 5 {
        ("empfehlung des tages"@, "suggestion of the day"@)
    } else if i == 6 {
        ("klassiker"@, "classics"@)
    } else {
        ("wok"@, "wok"@)
    }
}

fn meal_key_at(i: usize) -> (r: (&'static str, &'static str))
    requires
        i < MEAL_LABELS,
    ensures
        r.0@ == meal_key(i as int).0,
        r.1@ == meal_key(i as int).1,
{
    match i {
        0 => ("burger classics", "burger classics"),
        1 => ("burger der woche", "burger of the week"),
        2 => ("tellergericht", "stew"),
        3 => ("pizza des tages", "pizza of the day"),
        4 => ("vegetarisch", "vegetarian"),
        5 => ("empfehlung des tages", "suggestion of the day"),
        6 => ("klassiker", "classics"),
        _ => ("wok", "wok"),
    }
}

/// The lower-cased German and English labels of entry `i` of the side-dish table.
pub open spec fn side_key(i: int) -> (Seq<char>, Seq<char>) {
    if i == 0 {
        ("sättigungsbeilage"@, "main side-dish"@)
    } else if i == 1 {
        ("hauptbeilage"@, "main side-dish"@)
    } else if i == 2 {
        ("gemüsebeilage"@, "secondary"@)
    } else {
        ("nebenbeilage"@, "secondary"@)
    }
}

fn side_key_at(i: usize) -> (r: (&'static str, &'static str))
    requires
        i < SIDE_LABELS,
    ensures
        r.0@ == side_key(i as int).0,
        r.1@ == side_key(i as int).1,
{
    match i {
        0 => ("sättigungsbeilage", "main side-dish"),
        1 => ("hauptbeilage", "main side-dish"),
        2 => ("gemüsebeilage", "secondary"),
        _ => ("nebenbeilage", "secondary"),
    }
}

/// Whether the lower-cased text `l` holds the German or the English key.
pub open spec fn label_matches(l: Seq<char>, key: (Seq<char>, Seq<char>)) -> bool {
    is_infix(key.1, l) || is_infix(key.0, l)
}

/// The type of the first main-dish label from entry `i` on that occurs in `l`.
pub open spec fn meal_type_from(l: Seq<char>, i: int) -> MealType
    decreases MEAL_LABELS - i,
{
    if i >= MEAL_LABELS {
        MealType::Unbekannt
    } else if label_matches(l, meal_key(i)) {
        meal_label(i).0
    } else {
        meal_type_from(l, i + 1)
    }
}

/// The main-dish type that a label names, given the label lower-cased.
pub open spec fn meal_type_of(l: Seq<char>) -> MealType {
    meal_type_from(l, 0)
}

/// The type of the first side-dish label from entry `i` on that occurs in `l`.
pub open spec fn side_type_from(l: Seq<char>, i: int) -> SideType
    decreases SIDE_LABELS - i,
{
    if i >= SIDE_LABELS {
        SideType::Unknown
    } else if label_matches(l, side_key(i)) {
        side_label(i).0
    } else {
        side_type_from(l, i + 1)
    }
}

/// The side-dish type that a label names, given the label lower-cased.
pub open spec fn side_type_of(l: Seq<char>) -> SideType {
    side_type_from(l, 0)
}

/// The display name of the first table entry `i` on whose type is `t`.
pub open spec fn meal_name_from(t: MealType, english: bool, i: int) -> Seq<char>
    decreases MEAL_LABELS - i,
{
    if i >= MEAL_LABELS {
        if english {
            "Unknown"@
        } else {
            "Unbekannt"@
        }
    } else if meal_label(i).0 == t {
        if english {
            meal_label(i).2
        } else {
            meal_label(i).1
        }
    } else {
        meal_name_from(t, english, i + 1)
    }
}

pub open spec fn side_name_from(t: SideType, english: bool, i: int) -> Seq<char>
    decreases SIDE_LABELS - i,
{
    if i >= SIDE_LABELS {
        if english {
            "Unknown"@
        } else {
            "Unbekannt"@
        }
    } else if side_label(i).0 == t {
        if english {
            side_label(i).2
        } else {
            side_label(i).1
        }
    } else {
        side_name_from(t, english, i + 1)
    }
}

impl MealType {
    /// The label of this type in the chosen language, from the label table.
    pub fn name(&self, english: bool) -> (r: &'static str)
        ensures
            r@ == meal_name_from(*self, english, 0),
    {
        let mut i: usize = 0;
        while i < MEAL_LABELS
            invariant
                i <= MEAL_LABELS,
                meal_name_from(*self, english, 0) == meal_name_from(*self, english, i as int),
            decreases MEAL_LABELS - i,
        {
            let (t, de, en) = meal_label_at(i);
            if t == *self {
                return if english {
                    en
                } else {
                    de
                };
            }
            i = i + 1;
        }
        if english {
            "Unknown"
        } else {
            "Unbekannt"
        }
    }

    /// Recognises the type that a label names; `Unbekannt` where no known label occurs.
    pub fn infer(s: &str) -> (r: MealType)
        ensures
            r == meal_type_of(lower_of(s@)),
    {
        let l = lowercase(s);
        Self::infer_lowered(l.as_str())
    }

    /// Recognises the type that an already lower-cased label names: the type of the first
    /// table entry whose German or English key occurs in it, else `Unbekannt`.
    pub fn infer_lowered(l: &str) -> (r: MealType)
        ensures
            r == meal_type_of(l@),
    {
        let mut i: usize = 0;
        while i < MEAL_LABELS
            invariant
                i <= MEAL_LABELS,
                meal_type_of(l@) == meal_type_from(l@, i as int),
            decreases MEAL_LABELS - i,
        {
            let (t, _, _) = meal_label_at(i);
            let (de, en) = meal_key_at(i);
            if str_contains(l, en) || str_contains(l, de) {
                return t;
            }
            i = i + 1;
        }
        MealType::Unbekannt
    }
}

impl SideType {
    /// The label of this type in the chosen language, from the label table.
    pub fn name(&self, english: bool) -> (r: &'static str)
        ensures
            r@ == side_name_from(*self, english, 0),
    {
        let mut i: usize = 0;
        while i < SIDE_LABELS
            invariant
                i <= SIDE_LABELS,
                side_name_from(*self, english, 0) == side_name_from(*self, english, i as int),
            decreases SIDE_LABELS - i,
        {
            let (t, de, en) = side_label_at(i);
            if t == *self {
                return if english {
                    en
                } else {
                    de
                };
            }
            i = i + 1;
        }
        if english {
            "Unknown"
        } else {
            "Unbekannt"
        }
    }

    /// Recognises the type that a label names; `Unknown` where no known label occurs.
    pub fn infer(s: &str) -> (r: SideType)
        ensures
            r == side_type_of(lower_of(s@)),
    {
        let l = lowercase(s);
        Self::infer_lowered(l.as_str())
    }

    /// Recognises the type that an already lower-cased label names: the type of the first
    /// table entry whose German or English key occurs in it, else `Unknown`.
    pub fn infer_lowered(l: &str) -> (r: SideType)
        ensures
            r == side_type_of(l@),
    {
        let mut i: usize = 0;
        while i < SIDE_LABELS
            invariant
                i <= SIDE_LABELS,
                side_type_of(l@) == side_type_from(l@, i as int),
            decreases SIDE_LABELS - i,
        {
            let (t, _, _) = side_label_at(i);
            let (de, en) = side_key_at(i);
            if str_contains(l, en) || str_contains(l, de) {
                return t;
            }
            i = i + 1;
        }
        SideType::Unknown
    }
}

/// A label in which "Burger Classics" occurs is a `BurgerClassics` label, whatever else it
/// holds: that entry is tried before every other, "Classics" among them.
pub proof fn lemma_burger_classics_first(l: Seq<char>)
    requires
        is_infix("burger classics"@, l),
    ensures
        meal_type_of(l) == MealType::BurgerClassics,
{
}

/// A label in which no known label occurs falls back to `Unbekannt` / `Unknown`.
pub proof fn lemma_fallback(l: Seq<char>)
    ensures
        (forall|i: int|
            0 <= i < MEAL_LABELS ==> !label_matches(l, #[trigger] meal_key(i)))
            ==> meal_type_of(l) == MealType::Unbekannt,
        (forall|i: int|
            0 <= i < SIDE_LABELS ==> !label_matches(l, #[trigger] side_key(i)))
            ==> side_type_of(l) == SideType::Unknown,
{
    reveal_with_fuel(meal_type_from, 9);
    reveal_with_fuel(side_type_from, 5);
}

/// A set of allergen codes, kept sorted and without duplicates.
#[derive(Clone, PartialEq, Eq, PartialOrd, Ord, Hash, Debug)]
pub struct AllergenList {
    codes: Vec<String>,
}

impl View for AllergenList {
    type V = Seq<Seq<char>>;

    closed spec fn view(&self) -> Seq<Seq<char>> {
        self.codes@.map_values(|c: String| c@)
    }
}

/// Three-way comparison of character sequences in `lex_lt`.
pub open spec fn chars_cmp(a: Seq<char>, b: Seq<char>) -> int {
    if a == b {
        0
    } else if lex_lt(a, b) {
        -1
    } else {
        1
    }
}

/// Lexicographic three-way comparison of sequences of codes: the order of sorted code sets.
pub open spec fn codes_cmp(a: Seq<Seq<char>>, b: Seq<Seq<char>>) -> int
    decreases a.len(),
{
    if a.len() == 0 {
        if b.len() == 0 {
            0
        } else {
            -1
        }
    } else if b.len() == 0 {
        1
    } else if chars_cmp(a[0], b[0]) != 0 {
        chars_cmp(a[0], b[0])
    } else {
        codes_cmp(a.drop_first(), b.drop_first())
    }
}

pub proof fn lemma_chars_cmp_flip(a: Seq<char>, b: Seq<char>)
    ensures
        chars_cmp(b, a) == -chars_cmp(a, b),
        chars_cmp(a, b) == 0 <==> a == b,
{
    lemma_lex_trichotomy(a, b);
}

pub proof fn lemma_codes_cmp_flip(a: Seq<Seq<char>>, b: Seq<Seq<char>>)
    ensures
        codes_cmp(b, a) == -codes_cmp(a, b),
    decreases a.len(),
{
    if a.len() > 0 && b.len() > 0 {
        lemma_chars_cmp_flip(a[0], b[0]);
        lemma_codes_cmp_flip(a.drop_first(), b.drop_first());
    }
}

impl AllergenList {
    /// The codes named by the allergen markers of `text`, each once, in increasing order.
    pub fn from_text(text: &str) -> (r: AllergenList)
        ensures
            strictly_sorted(r@),
            r@.to_set() == allergen_codes(text@),
            r@ == sorted_codes(text@),
    {
        let chars = chars_of(text);
        let found = collect_codes(&chars);
        let mut codes: Vec<String> = Vec::new();
        let mut i: usize = 0;
        while i < found.len()
            invariant
                i <= found@.len(),
                codes@.map_values(|c: String| c@) == codes_view(found@).take(i as int),
            decreases found.len() - i,
        {
            codes.push(string_of(&found[i]));
            assert(codes_view(found@).take(i + 1) =~= codes_view(found@).take(i as int).push(
                found@[i as int]@,
            ));
            assert(codes@.map_values(|c: String| c@) =~= codes_view(found@).take(i + 1));
            i = i + 1;
        }
        assert(codes_view(found@).take(i as int) =~= codes_view(found@));
        let r = AllergenList { codes };
        proof {
            let c = sorted_codes(text@);
            assert(strictly_sorted(c) && c.to_set() == allergen_codes(text@));
            lemma_strictly_sorted_unique(r@, c);
        }
        r
    }

    /// The given codes, each once, in increasing order.
    pub fn from_codes(codes: &Vec<String>) -> (r: AllergenList)
        ensures
            strictly_sorted(r@),
            r@.to_set() == codes@.map_values(|c: String| c@).to_set(),
    {
        let ghost src = codes@.map_values(|c: String| c@);
        let mut set: Vec<Vec<char>> = Vec::new();
        let mut i: usize = 0;
        assert(codes_view(set@).to_set() =~= src.take(0).to_set());
        while i < codes.len()
            invariant
                i <= codes@.len(),
                src == codes@.map_values(|c: String| c@),
                strictly_sorted(codes_view(set@)),
                codes_view(set@).to_set() == src.take(i as int).to_set(),
            decreases codes.len() - i,
        {
            let c = chars_of(codes[i].as_str());
            insert_code(&mut set, c);
            proof {
                assert(src.take(i + 1) =~= src.take(i as int).push(src[i as int]));
                src.take(i as int).lemma_push_to_set_commute(src[i as int]);
            }
            i = i + 1;
        }
        assert(src.take(i as int) =~= src);
        let mut out: Vec<String> = Vec::new();
        let mut k: usize = 0;
        while k < set.len()
            invariant
                k <= set@.len(),
                out@.map_values(|c: String| c@) == codes_view(set@).take(k as int),
            decreases set.len() - k,
        {
            out.push(string_of(&set[k]));
            assert(codes_view(set@).take(k + 1) =~= codes_view(set@).take(k as int).push(
                set@[k as int]@,
            ));
            assert(out@.map_values(|c: String| c@) =~= codes_view(set@).take(k + 1));
            k = k + 1;
        }
        assert(codes_view(set@).take(k as int) =~= codes_view(set@));
        AllergenList { codes: out }
    }

    pub fn is_empty(&self) -> (r: bool)
        ensures
            r == (self@.len() == 0),
    {
        self.codes.len() == 0
    }

    /// The codes, in increasing order.
    pub fn codes(&self) -> (r: &Vec<String>)
        ensures
            r@.map_values(|c: String| c@) == self@,
    {
        &self.codes
    }

    /// The codes joined by ", ".
    pub fn to_display_string(&self) -> (r: String)
        ensures
            r@ == join_codes(self@),
    {
        let mut out: Vec<char> = Vec::new();
        let mut i: usize = 0;
        while i < self.codes.len()
            invariant
                i <= self@.len(),
                out@ == join_codes(self@.take(i as int)),
            decreases self.codes.len() - i,
        {
            if i > 0 {
                out.push(',');
                out.push(' ');
            }
            let c = chars_of(self.codes[i].as_str());
            let mut k: usize = 0;
            let ghost base = out@;
            while k < c.len()
                invariant
                    k <= c@.len(),
                    out@ == base + c@.take(k as int),
                decreases c.len() - k,
            {
                assert(c@.take(k + 1) =~= c@.take(k as int).push(c@[k as int]));
                out.push(c[k]);
                k = k + 1;
            }
            assert(c@.take(k as int) =~= c@);
            assert(self@.take(i + 1).drop_last() =~= self@.take(i as int));
            assert(self@[i as int] == self.codes@[i as int]@);
            proof {
                if i > 0 {
                    assert(out@ =~= join_codes(self@.take(i as int)) + ", "@ + self@[i as int]) by {
                        reveal_strlit(", ");
                    }
                }
            }
            i = i + 1;
        }
        assert(self@.take(i as int) =~= self@);
        string_of(&out)
    }

    /// Three-way comparison with `other` in the order of code sequences.
    pub fn compare(&self, other: &AllergenList) -> (r: i8)
        ensures
            r == codes_cmp(self@, other@),
    {
        let n = self.codes.len();
        let m = other.codes.len();
        let mut i: usize = 0;
        proof {
            assert(self@.skip(0) =~= self@);
            assert(other@.skip(0) =~= other@);
        }
        while i < n && i < m
            invariant
                n == self@.len(),
                m == other@.len(),
                i <= n,
                i <= m,
                codes_cmp(self@, other@) == codes_cmp(self@.skip(i as int), other@.skip(i as int)),
            decreases n - i,
        {
            let a = chars_of(self.codes[i].as_str());
            let b = chars_of(other.codes[i].as_str());
            let c = compare_chars(&a, &b);
            assert(self@[i as int] == a@);
            assert(other@[i as int] == b@);
            proof {
                lemma_lex_trichotomy(a@, b@);
                assert(self@.skip(i as int)[0] == self@[i as int]);
                assert(other@.skip(i as int)[0] == other@[i as int]);
            }
            if c != 0 {
                return c;
            }
            assert(self@.skip(i as int).drop_first() =~= self@.skip(i + 1));
            assert(other@.skip(i as int).drop_first() =~= other@.skip(i + 1));
            i = i + 1;
        }
        if i < n {
            1
        } else if i < m {
            -1
        } else {
            0
        }
    }

    pub(crate) fn duplicate(&self) -> (r: AllergenList)
        ensures
            r@ == self@,
    {
        let mut codes: Vec<String> = Vec::new();
        let mut i: usize = 0;
        while i < self.codes.len()
            invariant
                i <= self@.len(),
                codes@.map_values(|c: String| c@) == self@.take(i as int),
            decreases self.codes.len() - i,
        {
            codes.push(self.codes[i].clone());
            assert(self@.take(i + 1) =~= self@.take(i as int).push(self@[i as int]));
            assert(codes@.map_values(|c: String| c@) =~= self@.take(i + 1));
            i = i + 1;
        }
        assert(self@.take(i as int) =~= self@);
        AllergenList { codes }
    }
}

/// The codes joined by ", ".
pub open spec fn join_codes(s: Seq<Seq<char>>) -> Seq<char>
    decreases s.len(),
{
    if s.len() == 0 {
        Seq::empty()
    } else if s.len() == 1 {
        s[0]
    } else {
        join_codes(s.drop_last()) + ", "@ + s.last()
    }
}

/// One main dish of one day.
#[derive(Clone, PartialEq, Eq, PartialOrd, Ord, Debug)]
pub struct MealInfo {
    /// Type of meal (e.g. Klassiker).
    pub typ: MealType,
    /// Main meal description.
    pub text: String,
    /// Secondary meal description (e.g. sauces, sides etc.).
    pub subtext: String,
    /// Meal price, as the page gives it; may be empty.
    pub price: String,
    /// Sorted, deduplicated list of allergens.
    pub allergens: AllergenList,
    /// Whether the dish looks vegan or vegetarian.
    pub vegan: bool,
}

/// One option within a side-dish slot.
#[derive(Clone, PartialEq, Eq, PartialOrd, Ord, Debug)]
pub struct SideAlternative {
    /// Main alternative description.
    pub text: String,
    /// Sorted, deduplicated list of allergens.
    pub allergens: AllergenList,
}

/// One side-dish slot of one day.
#[derive(Clone, PartialEq, Eq, PartialOrd, Ord, Debug)]
pub struct SideInfo {
    /// Type of side (Sättigungs-/Gemüsebeilage).
    pub typ: SideType,
    /// Alternative options for the side, in page order.
    pub alternatives: Vec<SideAlternative>,
}

pub struct MealModel {
    pub typ: MealType,
    pub text: Seq<char>,
    pub subtext: Seq<char>,
    pub price: Seq<char>,
    pub allergens: Seq<Seq<char>>,
    pub vegan: bool,
}

pub struct AlternativeModel {
    pub text: Seq<char>,
    pub allergens: Seq<Seq<char>>,
}

pub struct SideModel {
    pub typ: SideType,
    pub alternatives: Seq<AlternativeModel>,
}

impl View for MealInfo {
    type V = MealModel;

    open spec fn view(&self) -> MealModel {
        MealModel {
            typ: self.typ,
            text: self.text@,
            subtext: self.subtext@,
            price: self.price@,
            allergens: self.allergens@,
            vegan: self.vegan,
        }
    }
}

impl View for SideAlternative {
    type V = AlternativeModel;

    open spec fn view(&self) -> AlternativeModel {
        AlternativeModel { text: self.text@, allergens: self.allergens@ }
    }
}

pub open spec fn alternatives_view(v: Seq<SideAlternative>) -> Seq<AlternativeModel> {
    v.map_values(|a: SideAlternative| a@)
}

impl View for SideInfo {
    type V = SideModel;

    open spec fn view(&self) -> SideModel {
        SideModel { typ: self.typ, alternatives: alternatives_view(self.alternatives@) }
    }
}

pub open spec fn int_cmp(a: int, b: int) -> int {
    if a < b {
        -1
    } else if a == b {
        0
    } else {
        1
    }
}

/// The order of main dishes: by type, text, subtext, price, allergens, then vegan.
pub open spec fn meal_cmp(a: MealModel, b: MealModel) -> int {
    if a.typ != b.typ {
        int_cmp(meal_rank(a.typ), meal_rank(b.typ))
    } else if chars_cmp(a.text, b.text) != 0 {
        chars_cmp(a.text, b.text)
    } else if chars_cmp(a.subtext, b.subtext) != 0 {
        chars_cmp(a.subtext, b.subtext)
    } else if chars_cmp(a.price, b.price) != 0 {
        chars_cmp(a.price, b.price)
    } else if codes_cmp(a.allergens, b.allergens) != 0 {
        codes_cmp(a.allergens, b.allergens)
    } else {
        int_cmp(if a.vegan { 1 } else { 0 }, if b.vegan { 1 } else { 0 })
    }
}

/// The order of side alternatives: by text, then allergens.
pub open spec fn alternative_cmp(a: AlternativeModel, b: AlternativeModel) -> int {
    if chars_cmp(a.text, b.text) != 0 {
        chars_cmp(a.text, b.text)
    } else {
        codes_cmp(a.allergens, b.allergens)
    }
}

/// Lexicographic order of sequences of alternatives.
pub open spec fn alternatives_cmp(a: Seq<AlternativeModel>, b: Seq<AlternativeModel>) -> int
    decreases a.len(),
{
    if a.len() == 0 {
        if b.len() == 0 {
            0
        } else {
            -1
        }
    } else if b.len() == 0 {
        1
    } else if alternative_cmp(a[0], b[0]) != 0 {
        alternative_cmp(a[0], b[0])
    } else {
        alternatives_cmp(a.drop_first(), b.drop_first())
    }
}

/// The order of side slots: by type, then alternatives.
pub open spec fn side_cmp(a: SideModel, b: SideModel) -> int {
    if a.typ != b.typ {
        int_cmp(side_rank(a.typ), side_rank(b.typ))
    } else {
        alternatives_cmp(a.alternatives, b.alternatives)
    }
}

pub proof fn lemma_meal_cmp_flip(a: MealModel, b: MealModel)
    ensures
        meal_cmp(b, a) == -meal_cmp(a, b),
{
    lemma_chars_cmp_flip(a.text, b.text);
    lemma_chars_cmp_flip(a.subtext, b.subtext);
    lemma_chars_cmp_flip(a.price, b.price);
    lemma_codes_cmp_flip(a.allergens, b.allergens);
}

pub proof fn lemma_alternatives_cmp_flip(a: Seq<AlternativeModel>, b: Seq<AlternativeModel>)
    ensures
        alternatives_cmp(b, a) == -alternatives_cmp(a, b),
    decreases a.len(),
{
    if a.len() > 0 && b.len() > 0 {
        lemma_chars_cmp_flip(a[0].text, b[0].text);
        lemma_codes_cmp_flip(a[0].allergens, b[0].allergens);
        lemma_alternatives_cmp_flip(a.drop_first(), b.drop_first());
    }
}

pub proof fn lemma_side_cmp_flip(a: SideModel, b: SideModel)
    ensures
        side_cmp(b, a) == -side_cmp(a, b),
{
    lemma_alternatives_cmp_flip(a.alternatives, b.alternatives);
}

/// Three-way comparison of two strings in `lex_lt`.
pub fn compare_strings(a: &String, b: &String) -> (r: i8)
    ensures
        r == chars_cmp(a@, b@),
{
    let x = chars_of(a.as_str());
    let y = chars_of(b.as_str());
    proof {
        lemma_lex_trichotomy(x@, y@);
    }
    compare_chars(&x, &y)
}

fn compare_ints(a: u8, b: u8) -> (r: i8)
    ensures
        r == int_cmp(a as int, b as int),
{
    if a < b {
        -1
    } else if a == b {
        0
    } else {
        1
    }
}

impl MealInfo {
    /// Three-way comparison in the order of main dishes.
    pub fn compare(&self, other: &MealInfo) -> (r: i8)
        ensures
            r == meal_cmp(self@, other@),
    {
        if self.typ != other.typ {
            return compare_ints(meal_rank_of(self.typ), meal_rank_of(other.typ));
        }
        let c = compare_strings(&self.text, &other.text);
        if c != 0 {
            return c;
        }
        let c = compare_strings(&self.subtext, &other.subtext);
        if c != 0 {
            return c;
        }
        let c = compare_strings(&self.price, &other.price);
        if c != 0 {
            return c;
        }
        let c = self.allergens.compare(&other.allergens);
        if c != 0 {
            return c;
        }
        compare_ints(
            if self.vegan {
                1
            } else {
                0
            },
            if other.vegan {
                1
            } else {
                0
            },
        )
    }

    pub(crate) fn duplicate(&self) -> (r: MealInfo)
        ensures
            r@ == self@,
    {
        MealInfo {
            typ: self.typ,
            text: self.text.clone(),
            subtext: self.subtext.clone(),
            price: self.price.clone(),
            allergens: self.allergens.duplicate(),
            vegan: self.vegan,
        }
    }
}

impl SideAlternative {
    /// Three-way comparison in the order of side alternatives.
    pub fn compare(&self, other: &SideAlternative) -> (r: i8)
        ensures
            r == alternative_cmp(self@, other@),
    {
        let c = compare_strings(&self.text, &other.text);
        if c != 0 {
            return c;
        }
        self.allergens.compare(&other.allergens)
    }

    pub(crate) fn duplicate(&self) -> (r: SideAlternative)
        ensures
            r@ == self@,
    {
        SideAlternative { text: self.text.clone(), allergens: self.allergens.duplicate() }
    }
}

impl SideInfo {
    /// Three-way comparison in the order of side slots.
    pub fn compare(&self, other: &SideInfo) -> (r: i8)
        ensures
            r == side_cmp(self@, other@),
    {
        if self.typ != other.typ {
            return compare_ints(side_rank_of(self.typ), side_rank_of(other.typ));
        }
        let a = &self.alternatives;
        let b = &other.alternatives;
        let ghost av = alternatives_view(a@);
        let ghost bv = alternatives_view(b@);
        let mut i: usize = 0;
        proof {
            assert(av.skip(0) =~= av);
            assert(bv.skip(0) =~= bv);
        }
        while i < a.len() && i < b.len()
            invariant
                i <= a@.len(),
                i <= b@.len(),
                self.typ == other.typ,
                a == &self.alternatives,
                b == &other.alternatives,
                av == alternatives_view(a@),
                bv == alternatives_view(b@),
                alternatives_cmp(av, bv) == alternatives_cmp(av.skip(i as int), bv.skip(i as int)),
            decreases a.len() - i,
        {
            let c = a[i].compare(&b[i]);
            assert(av.skip(i as int)[0] == a@[i as int]@);
            assert(bv.skip(i as int)[0] == b@[i as int]@);
            assert(av.skip(i as int).len() > 0 && bv.skip(i as int).len() > 0);
            if c != 0 {
                assert(alternatives_cmp(av.skip(i as int), bv.skip(i as int)) == c);
                return c;
            }
            assert(av.skip(i as int).drop_first() =~= av.skip(i + 1));
            assert(bv.skip(i as int).drop_first() =~= bv.skip(i + 1));
            i = i + 1;
        }
        if i < a.len() {
            1
        } else if i < b.len() {
            -1
        } else {
            0
        }
    }

    pub(crate) fn duplicate(&self) -> (r: SideInfo)
        ensures
            r@ == self@,
    {
        let mut alternatives: Vec<SideAlternative> = Vec::new();
        let ghost src = alternatives_view(self.alternatives@);
        let mut i: usize = 0;
        while i < self.alternatives.len()
            invariant
                i <= self.alternatives@.len(),
                src == alternatives_view(self.alternatives@),
                alternatives_view(alternatives@) == src.take(i as int),
            decreases self.alternatives.len() - i,
        {
            alternatives.push(self.alternatives[i].duplicate());
            assert(src.take(i + 1) =~= src.take(i as int).push(src[i as int]));
            assert(alternatives_view(alternatives@) =~= src.take(i + 1));
            i = i + 1;
        }
        assert(src.take(i as int) =~= src);
        SideInfo { typ: self.typ, alternatives }
    }
}

} // verus!
