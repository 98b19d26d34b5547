//! What the client shows of a recipe: ingredient lines, the ingredients
//! grouped by section, and the initials on a recipe card without a photo.

use vstd::prelude::*;
use crate::model::{Ingredient, IngredientView, RecipeDetail};
use crate::text::{concat, is_whitespace, is_ws};

verus! {

broadcast use vstd::seq_lib::group_seq_properties;

/// One ingredient line, e.g. `180 g buckwheat flour, finely chopped`: the
/// quantity (as formatted by the caller) and the unit each followed by a
/// space, the name, and the preparation after a comma.
pub open spec fn line_of(quantity: Option<Seq<char>>, i: IngredientView) -> Seq<char> {
    let q: Seq<char> = match quantity {
        Some(q) => q + seq![' '],
        None => Seq::empty(),
    };
    let u: Seq<char> = match i.unit {
        Some(u) => u + seq![' '],
        None => Seq::empty(),
    };
    let p: Seq<char> = match i.prep {
        Some(p) => seq![',', ' '] + p,
        None => Seq::empty(),
    };
    q + u + i.name + p
}

/// One ingredient line; `quantity` is the formatted quantity, if the
/// ingredient has one.
pub fn ingredient_line(quantity: Option<&str>, ingredient: &Ingredient) -> (r: String)
    ensures
        r@ == line_of(
            match quantity {
                Some(q) => Some(q@),
                None => None,
            },
            ingredient.deep_view(),
        ),
{
    proof {
        reveal_strlit(" ");
        reveal_strlit(", ");
    }
    let mut line = String::new();
    match quantity {
        Some(q) => {
            line.append(q);
            line.append(" ");
        },
        None => {},
    }
    match &ingredient.unit {
        Some(u) => {
            line.append(u.as_str());
            line.append(" ");
        },
        None => {},
    }
    line.append(ingredient.name.as_str());
    match &ingredient.prep {
        Some(p) => {
            line.append(", ");
            line.append(p.as_str());
        },
        None => {},
    }
    proof {
        let qv = match quantity {
            Some(q) => Some(q@),
            None => None,
        };
        assert(line@ =~= line_of(qv, ingredient.deep_view()));
    }
    line
}

fn copy_option(o: &Option<String>) -> (r: Option<String>)
    ensures
        r.deep_view() == o.deep_view(),
{
    match o {
        Some(s) => Some(s.clone()),
        None => None,
    }
}

fn copy_ingredient(i: &Ingredient) -> (r: Ingredient)
    ensures
        r.deep_view() == i.deep_view(),
{
    Ingredient {
        quantity: i.quantity,
        unit: copy_option(&i.unit),
        name: i.name.clone(),
        prep: copy_option(&i.prep),
        section: copy_option(&i.section),
    }
}

/// A section title (none for unsectioned ingredients) and its ingredients.
pub struct DetailGroup {
    pub section: Option<String>,
    pub ingredients: Vec<Ingredient>,
}

pub struct DetailGroupView {
    pub section: Option<Seq<char>>,
    pub ingredients: Seq<IngredientView>,
}

impl DeepView for DetailGroup {
    type V = DetailGroupView;

    open spec fn deep_view(&self) -> DetailGroupView {
        DetailGroupView { section: self.section.deep_view(), ingredients: self.ingredients.deep_view() }
    }
}

pub open spec fn in_section(section: Option<Seq<char>>) -> spec_fn(IngredientView) -> bool {
    |i: IngredientView| i.section == section
}

/// The detail page's ingredient list: unsectioned ingredients first (when
/// there are any), then one group per section, in order.
pub open spec fn detail_groups_of(sections: Seq<Seq<char>>, ingredients: Seq<IngredientView>) -> Seq<DetailGroupView> {
    let plain = ingredients.filter(in_section(None));
    let head: Seq<DetailGroupView> = if plain.len() > 0 {
        seq![DetailGroupView { section: None, ingredients: plain }]
    } else {
        Seq::empty()
    };
    head + sections.map_values(
        |s: Seq<char>| DetailGroupView { section: Some(s), ingredients: ingredients.filter(in_section(Some(s))) },
    )
}

fn ingredients_in(v: &Vec<Ingredient>, section: &Option<String>) -> (r: Vec<Ingredient>)
    ensures
        r.deep_view() == v.deep_view().filter(in_section(section.deep_view())),
{
    let ghost a = v.deep_view();
    let ghost target = section.deep_view();
    let mut r: Vec<Ingredient> = Vec::new();
    let mut i: usize = 0;
    while i < v.len()
        invariant
            i <= v.len(),
            a == v.deep_view(),
            target == section.deep_view(),
            r.deep_view() == a.take(i as int).filter(in_section(target)),
        decreases v.len() - i,
    {
        proof {
            a.take(i as int).lemma_filter_push(a[i as int], in_section(target));
            assert(a.take(i + 1) =~= a.take(i as int).push(a[i as int]));
        }
        let same = match (&v[i].section, section) {
            (Some(x), Some(y)) => *x == *y,
            (None, None) => true,
            _ => false,
        };
        proof {
            assert(same == (a[i as int].section == target));
        }
        if same {
            let ghost r0 = r.deep_view();
            let x = copy_ingredient(&v[i]);
            r.push(x);
            proof {
                assert(r.deep_view() =~= r0.push(a[i as int]));
            }
        }
        i = i + 1;
    }
    proof {
        assert(a.take(a.len() as int) =~= a);
    }
    r
}

/// The detail page's ingredient list, grouped.
pub fn detail_groups(detail: &RecipeDetail) -> (r: Vec<DetailGroup>)
    ensures
        r.deep_view() == detail_groups_of(detail.sections.deep_view(), detail.ingredients.deep_view()),
{
    let mut groups: Vec<DetailGroup> = Vec::new();
    let plain = ingredients_in(&detail.ingredients, &None);
    if plain.len() > 0 {
        groups.push(DetailGroup { section: None, ingredients: plain });
    }
    let ghost head = groups.deep_view();
    let ghost secs = detail.sections.deep_view();
    let ghost ings = detail.ingredients.deep_view();
    let mut i: usize = 0;
    while i < detail.sections.len()
        invariant
            i <= detail.sections.len(),
            secs == detail.sections.deep_view(),
            ings == detail.ingredients.deep_view(),
            groups.deep_view() == head + secs.take(i as int).map_values(
                |s: Seq<char>| DetailGroupView { section: Some(s), ingredients: ings.filter(in_section(Some(s))) },
            ),
        decreases detail.sections.len() - i,
    {
        let ghost g0 = groups.deep_view();
        let name = Some(detail.sections[i].clone());
        let members = ingredients_in(&detail.ingredients, &name);
        let g = DetailGroup { section: name, ingredients: members };
        let ghost gv = g.deep_view();
        groups.push(g);
        proof {
            assert(gv == (DetailGroupView { section: Some(secs[i as int]), ingredients: ings.filter(in_section(Some(secs[i as int]))) }));
            assert(groups.deep_view() =~= g0.push(gv));
            assert(secs.take(i + 1) =~= secs.take(i as int).push(secs[i as int]));
            assert(secs.take(i + 1).map_values(
                |s: Seq<char>| DetailGroupView { section: Some(s), ingredients: ings.filter(in_section(Some(s))) },
            ) =~= secs.take(i as int).map_values(
                |s: Seq<char>| DetailGroupView { section: Some(s), ingredients: ings.filter(in_section(Some(s))) },
            ).push(gv));
        }
        i = i + 1;
    }
    proof {
        assert(secs.take(secs.len() as int) =~= secs);
        assert(groups.deep_view() =~= detail_groups_of(detail.sections.deep_view(), detail.ingredients.deep_view()));
    }
    groups
}

/// The first letters of the words of a text (words are separated by
/// whitespace), in order.
pub open spec fn word_initials(s: Seq<char>) -> Seq<char>
    decreases s.len(),
{
    if s.len() == 0 {
        Seq::empty()
    } else {
        let r = word_initials(s.drop_last());
        let i = s.len() - 1;
        if !is_ws(s[i]) && (i == 0 || is_ws(s[i - 1])) {
            r.push(s[i])
        } else {
            r
        }
    }
}

/// What `str::to_uppercase` gives for a text.
pub uninterp spec fn uppercase(s: Seq<char>) -> Seq<char>;

/// Calls `str::to_uppercase`. Trusted: the result is the named upper-case
/// form of the text (Unicode case mapping, which may change the length).
#[verifier::external_body]
fn to_uppercase(s: &str) -> (r: String)
    ensures
        r@ == uppercase(s@),
{
    s.to_uppercase()
}

/// Calls `String::push`. Trusted: the character is appended.
#[verifier::external_body]
fn push_char(s: &mut String, c: char)
    ensures
        final(s)@ == old(s)@.push(c),
{
    s.push(c)
}

/// The initials shown on a recipe card without a photo: the first letters of
/// the first two words of the name, upper-cased.
pub fn card_initials(name: &str) -> (r: String)
    ensures
        r@ == uppercase(word_initials(name@).take(if word_initials(name@).len() < 2 { word_initials(name@).len() as int } else { 2 })),
{
    let n = name.unicode_len();
    let mut letters = String::new();
    let mut i: usize = 0;
    let mut prev_ws = true;
    while i < n && letters.unicode_len() < 2
        invariant
            n == name@.len(),
            i <= n,
            letters@ == word_initials(name@.take(i as int)),
            letters@.len() <= 2,
            prev_ws == (i == 0 || is_ws(name@[i - 1])),
        decreases n - i,
    {
        let c = name.get_char(i);
        let ws = is_whitespace(c);
        proof {
            assert(name@.take(i + 1).drop_last() =~= name@.take(i as int));
            assert(name@.take(i + 1)[i as int] == c);
            if i > 0 {
                assert(name@.take(i + 1)[i - 1] == name@[i - 1]);
            }
        }
        if !ws && prev_ws {
            push_char(&mut letters, c);
        }
        prev_ws = ws;
        i = i + 1;
    }
    proof {
        lemma_initials_prefix(name@, i as int);
    }
    to_uppercase(letters.as_str())
}

proof fn lemma_initials_grow(s: Seq<char>, k: int)
    requires
        0 <= k <= s.len(),
    ensures
        word_initials(s.take(k)).len() <= word_initials(s).len(),
        word_initials(s) .take(word_initials(s.take(k)).len() as int) == word_initials(s.take(k)),
    decreases s.len() - k,
{
    if k == s.len() {
        assert(s.take(k) =~= s);
        assert(word_initials(s).take(word_initials(s).len() as int) =~= word_initials(s));
    } else {
        lemma_initials_grow(s, k + 1);
        let t = s.take(k + 1);
        assert(t.drop_last() =~= s.take(k));
        let a = word_initials(s.take(k));
        let b = word_initials(t);
        assert(b.take(a.len() as int) =~= a);
        let w = word_initials(s);
        assert(w.take(b.len() as int) == b);
        assert(w.take(a.len() as int) =~= a) by {
            assert forall|j: int| 0 <= j < a.len() implies w[j] == a[j] by {
                assert(w.take(b.len() as int)[j] == b[j]);
                assert(b.take(a.len() as int)[j] == b[j]);
            }
        }
    }
}

/// Scanning stops once two initials are found, or at the end: either way the
/// letters found are the first (up to) two initials of the whole text.
proof fn lemma_initials_prefix(s: Seq<char>, i: int)
    requires
        0 <= i <= s.len(),
        word_initials(s.take(i)).len() <= 2,
        i == s.len() || word_initials(s.take(i)).len() == 2,
    ensures
        word_initials(s.take(i)) == word_initials(s).take(
            if word_initials(s).len() < 2 { word_initials(s).len() as int } else { 2 },
        ),
{
    lemma_initials_grow(s, i);
    if i == s.len() {
        assert(s.take(i) =~= s);
        assert(word_initials(s).take(word_initials(s).len() as int) =~= word_initials(s));
    }
}

/// An ingredient line: a given quantity comes first, followed by a space,
/// whatever else the ingredient has; then a unit, if any, followed by a
/// space; then the name; then the preparation, if any, after a comma.
pub proof fn law_ingredient_line_parts(q: Seq<char>, i: IngredientView)
    ensures
        line_of(Some(q), i) == q + seq![' '] + line_of(None, i),
        line_of(Some(q), i).take(q.len() as int + 1) == q.push(' '),
        i.unit matches Some(u) ==> line_of(None, i) == u + seq![' '] + line_of(None, IngredientView { unit: None, ..i }),
        i.prep matches Some(p) ==> line_of(None, i) == line_of(None, IngredientView { prep: None, ..i }) + seq![',', ' '] + p,
        line_of(None, IngredientView { unit: None, prep: None, ..i }) == i.name,
{
    assert(line_of(Some(q), i) =~= q + seq![' '] + line_of(None, i));
    assert((q + seq![' '] + line_of(None, i)).take(q.len() as int + 1) =~= q.push(' '));
    if i.unit is Some {
        assert(line_of(None, i) =~= i.unit->0 + seq![' '] + line_of(None, IngredientView { unit: None, ..i }));
    }
    if i.prep is Some {
        assert(line_of(None, i) =~= line_of(None, IngredientView { prep: None, ..i }) + seq![',', ' '] + i.prep->0);
    }
    assert(line_of(None, IngredientView { unit: None, prep: None, ..i }) =~= i.name);
}

/// The detail page lists every ingredient under its own heading: one group
/// per section, in the recipe's section order, after a first group without a
/// heading that holds the ingredients in no section (present exactly when
/// there are such); an ingredient in a listed section is in that section's
/// group, and a group holds only ingredients of its section.
pub proof fn law_detail_groups(sections: Seq<Seq<char>>, ingredients: Seq<IngredientView>)
    ensures
        ({
            let g = detail_groups_of(sections, ingredients);
            let plain = exists|j: int| 0 <= j < ingredients.len() && (#[trigger] ingredients[j]).section is None;
            let off: int = if plain { 1 } else { 0 };
            &&& g.len() == off + sections.len()
            &&& plain ==> g[0].section is None
            &&& forall|k: int| 0 <= k < sections.len() ==> (#[trigger] g[off + k]).section == Some(sections[k])
            &&& forall|j: int| 0 <= j < ingredients.len() && (#[trigger] ingredients[j]).section is None
                ==> g[0].ingredients.contains(ingredients[j])
            &&& forall|j: int, k: int| 0 <= j < ingredients.len() && 0 <= k < sections.len()
                && (#[trigger] ingredients[j]).section == Some(#[trigger] sections[k])
                ==> g[off + k].ingredients.contains(ingredients[j])
            &&& forall|m: int, n: int| 0 <= m < g.len() && 0 <= n < g[m].ingredients.len()
                ==> (#[trigger] g[m].ingredients[n]).section == g[m].section
        }),
{
    let g = detail_groups_of(sections, ingredients);
    let pl = ingredients.filter(in_section(None));
    let plain = exists|j: int| 0 <= j < ingredients.len() && (#[trigger] ingredients[j]).section is None;
    let off: int = if plain { 1 } else { 0 };
    if plain {
        let j = choose|j: int| 0 <= j < ingredients.len() && (#[trigger] ingredients[j]).section is None;
        ingredients.lemma_filter_contains(in_section(None), j);
        assert(pl.len() > 0);
    } else {
        if pl.len() > 0 {
            ingredients.lemma_filter_pred(in_section(None), 0);
            ingredients.lemma_filter_contains_rev(in_section(None), pl[0]);
            let j = choose|j: int| 0 <= j < ingredients.len() && ingredients[j] == pl[0];
            assert(ingredients[j].section is None);
        }
    }
    assert forall|j: int| 0 <= j < ingredients.len() && (#[trigger] ingredients[j]).section is None
        implies g[0].ingredients.contains(ingredients[j]) by {
        ingredients.lemma_filter_contains(in_section(None), j);
    }
    assert forall|j: int, k: int| 0 <= j < ingredients.len() && 0 <= k < sections.len()
        && (#[trigger] ingredients[j]).section == Some(#[trigger] sections[k])
        implies g[off + k].ingredients.contains(ingredients[j]) by {
        ingredients.lemma_filter_contains(in_section(Some(sections[k])), j);
    }
    assert forall|m: int, n: int| 0 <= m < g.len() && 0 <= n < g[m].ingredients.len()
        implies (#[trigger] g[m].ingredients[n]).section == g[m].section by {
        if m < off {
            ingredients.lemma_filter_pred(in_section(None), n);
        } else {
            ingredients.lemma_filter_pred(in_section(Some(sections[m - off])), n);
        }
    }
}

} // verus!
