//! The grocery list: adding items, the `bought` flag as stored, and the
//! client's grouping of the list by category.

use vstd::prelude::*;
use crate::errors::{api_error, plain_error, ApiError, ApiErrorView, STATUS_INTERNAL, STATUS_UNPROCESSABLE};
use crate::model::{default_category, default_category_spec, GroceryItem, GroceryItemView, GroceryUpdate, NewGroceryItem};
use crate::recipes::{norm_opt, normalize_optional};
use crate::text::{is_blank, is_blank_seq, trim, trim_seq};

verus! {

broadcast use vstd::seq_lib::group_seq_properties;

/// `"item name must not be empty"`.
pub open spec fn blank_item_name_text() -> Seq<char> {
    seq!['i', 't', 'e', 'm', ' ', 'n', 'a', 'm', 'e', ' ', 'm', 'u', 's', 't', ' ', 'n', 'o', 't', ' ', 'b', 'e', ' ', 'e', 'm', 'p', 't', 'y']
}

/// `"no such grocery item"`.
pub open spec fn no_such_item_text() -> Seq<char> {
    seq!['n', 'o', ' ', 's', 'u', 'c', 'h', ' ', 'g', 'r', 'o', 'c', 'e', 'r', 'y', ' ', 'i', 't', 'e', 'm']
}

/// The row inserted for a new grocery item.
pub struct GroceryInsert {
    pub name: String,
    pub category: String,
}

/// The category an item is filed under: the given one, trimmed, unless it is
/// absent or blank, in which case the default group.
pub open spec fn category_of(given: Option<Seq<char>>) -> Seq<char> {
    match norm_opt(given) {
        Some(c) => c,
        None => default_category_spec(),
    }
}

/// Plan the insertion of a manually added item: the trimmed name, which must
/// not be blank, and its category.
pub fn plan_grocery_insert(item: &NewGroceryItem) -> (r: Result<GroceryInsert, ApiError>)
    ensures
        r is Ok <==> !is_blank_seq(item.name@),
        r matches Ok(ins) ==> ins.name@ == trim_seq(item.name@) && ins.category@ == category_of(item.category.deep_view()),
        r matches Err(e) ==> e.deep_view() == plain_error(STATUS_UNPROCESSABLE, blank_item_name_text()),
{
    let name = trim(item.name.as_str());
    if name.as_str().is_empty() {
        let text = "item name must not be empty".to_owned();
        proof {
            reveal_strlit("item name must not be empty");
            assert(text@ =~= blank_item_name_text());
        }
        return Err(ApiError::plain(STATUS_UNPROCESSABLE, text));
    }
    let category = match normalize_optional(&item.category) {
        Some(c) => c,
        None => default_category(),
    };
    Ok(GroceryInsert { name, category })
}

/// A `grocery_items` row; `bought` is stored as an integer.
pub struct GroceryRow {
    pub id: i64,
    pub name: String,
    pub bought: i64,
    pub category: String,
}

/// The item a row stands for: any non-zero flag is bought.
pub open spec fn item_of_row(row: GroceryRow) -> GroceryItemView {
    GroceryItemView { id: row.id, name: row.name@, bought: row.bought != 0, category: row.category@ }
}

/// The stored flag of a `bought` value.
pub open spec fn flag_of(bought: bool) -> i64 {
    if bought { 1 } else { 0 }
}

pub fn grocery_item_from_row(row: GroceryRow) -> (r: GroceryItem)
    ensures
        r.deep_view() == item_of_row(row),
{
    GroceryItem { id: row.id, name: row.name, bought: row.bought != 0, category: row.category }
}

/// The items of the listed rows, in the order given.
pub fn grocery_items_from_rows(rows: Vec<GroceryRow>) -> (r: Vec<GroceryItem>)
    ensures
        r.len() == rows.len(),
        forall|i: int| 0 <= i < rows.len() ==> #[trigger] r.deep_view()[i] == item_of_row(rows@[i]),
{
    let ghost orig = rows@;
    let mut rows = rows;
    let mut out: Vec<GroceryItem> = Vec::new();
    while rows.len() > 0
        invariant
            out.len() + rows.len() == orig.len(),
            forall|j: int| 0 <= j < rows.len() ==> #[trigger] rows@[j] == orig[out.len() + j],
            forall|j: int| 0 <= j < out.len() ==> #[trigger] out.deep_view()[j] == item_of_row(orig[j]),
        decreases rows.len(),
    {
        let ghost before = rows@;
        let row = rows.remove(0);
        let ghost old_out = out.deep_view();
        let item = grocery_item_from_row(row);
        out.push(item);
        proof {
            assert(out.deep_view() =~= old_out.push(item.deep_view()));
            assert forall|j: int| 0 <= j < rows.len() implies #[trigger] rows@[j] == orig[out.len() + j] by {
                assert(rows@[j] == before[j + 1]);
            }
        }
    }
    out
}

/// The flag stored for an update of the `bought` checkbox.
pub fn bought_flag(update: GroceryUpdate) -> (r: i64)
    ensures
        r == flag_of(update.bought),
{
    if update.bought { 1 } else { 0 }
}

/// The answer to an update of the `bought` flag: the updated row's item, or an
/// internal error when no such item exists (the update names a missing row).
pub fn updated_grocery_item(row: Option<GroceryRow>) -> (r: Result<GroceryItem, ApiError>)
    ensures
        match row {
            Some(row) => r matches Ok(item) && item.deep_view() == item_of_row(row),
            None => r matches Err(e) && e.deep_view() == api_error(STATUS_INTERNAL, no_such_item_text()),
        },
{
    match row {
        Some(row) => Ok(grocery_item_from_row(row)),
        None => {
            let text = "no such grocery item".to_owned();
            proof {
                reveal_strlit("no such grocery item");
                assert(text@ =~= no_such_item_text());
            }
            Err(ApiError::internal(text))
        },
    }
}


// ---------------------------------------------------------------------------
// The client's view of the list
// ---------------------------------------------------------------------------

/// The categories of the items, each once, in the order they first appear.
pub open spec fn categories_in_order(items: Seq<GroceryItemView>) -> Seq<Seq<char>>
    decreases items.len(),
{
    if items.len() == 0 {
        Seq::empty()
    } else {
        let c = categories_in_order(items.drop_last());
        if c.contains(items.last().category) {
            c
        } else {
            c.push(items.last().category)
        }
    }
}

pub open spec fn in_category(c: Seq<char>) -> spec_fn(GroceryItemView) -> bool {
    |x: GroceryItemView| x.category == c
}

/// A category header and the items filed under it.
pub struct CategoryGroup {
    pub category: String,
    pub items: Vec<GroceryItem>,
}

pub struct CategoryGroupView {
    pub category: Seq<char>,
    pub items: Seq<GroceryItemView>,
}

impl DeepView for CategoryGroup {
    type V = CategoryGroupView;

    open spec fn deep_view(&self) -> CategoryGroupView {
        CategoryGroupView { category: self.category@, items: self.items.deep_view() }
    }
}

/// The list grouped for display: one group per category, in first-seen
/// order, each holding exactly the items of its category in list order.
pub open spec fn grouped(items: Seq<GroceryItemView>) -> Seq<CategoryGroupView> {
    categories_in_order(items).map_values(
        |c: Seq<char>| CategoryGroupView { category: c, items: items.filter(in_category(c)) },
    )
}

proof fn lemma_categories_distinct(items: Seq<GroceryItemView>)
    ensures
        categories_in_order(items).no_duplicates(),
        forall|c: Seq<char>| #[trigger] categories_in_order(items).contains(c) <==> exists|i: int|
            0 <= i < items.len() && #[trigger] items[i].category == c,
    decreases items.len(),
{
    if items.len() > 0 {
        let prev = items.drop_last();
        lemma_categories_distinct(prev);
        let cs = categories_in_order(items);
        assert forall|c: Seq<char>| #[trigger] cs.contains(c) <==> exists|i: int|
            0 <= i < items.len() && #[trigger] items[i].category == c by {
            if cs.contains(c) {
                if categories_in_order(prev).contains(c) {
                    let i = choose|i: int| 0 <= i < prev.len() && #[trigger] prev[i].category == c;
                    assert(items[i].category == c);
                } else {
                    assert(items[items.len() - 1].category == c);
                }
            }
            if exists|i: int| 0 <= i < items.len() && #[trigger] items[i].category == c {
                let i = choose|i: int| 0 <= i < items.len() && #[trigger] items[i].category == c;
                if i < items.len() - 1 {
                    assert(prev[i].category == c);
                    assert(categories_in_order(prev).contains(c));
                }
            }
        }
    }
}

/// An item is filed under a category.
pub open spec fn filed_under(x: GroceryItemView, c: Seq<char>) -> bool {
    x.category == c
}

/// Of two categories of `c` (`i` before `j`), an item of the earlier one comes
/// before every item of the later one.
pub open spec fn earlier_first(items: Seq<GroceryItemView>, c: Seq<Seq<char>>, i: int, j: int) -> bool {
    exists|a: int| 0 <= a < items.len() && #[trigger] filed_under(items[a], c[i])
        && forall|b: int| 0 <= b <= a ==> !filed_under(#[trigger] items[b], c[j])
}

/// Of two categories in first-seen order, an item of the earlier one comes
/// before every item of the later one.
proof fn lemma_first_seen(items: Seq<GroceryItemView>)
    ensures
        forall|i: int, j: int| 0 <= i < j < categories_in_order(items).len()
            ==> #[trigger] earlier_first(items, categories_in_order(items), i, j),
    decreases items.len(),
{
    if items.len() > 0 {
        let prev = items.drop_last();
        lemma_first_seen(prev);
        lemma_categories_distinct(prev);
        let cp = categories_in_order(prev);
        let c = categories_in_order(items);
        let x = items.last().category;
        assert forall|i: int, j: int| 0 <= i < j < c.len() implies #[trigger] earlier_first(items, c, i, j) by {
            assert(c[i] == cp[i]);
            if j < cp.len() {
                assert(c[j] == cp[j]);
                assert(earlier_first(prev, cp, i, j));
                let a = choose|a: int| 0 <= a < prev.len() && #[trigger] filed_under(prev[a], cp[i])
                    && forall|b: int| 0 <= b <= a ==> !filed_under(#[trigger] prev[b], cp[j]);
                assert(items[a] == prev[a]);
                assert(filed_under(items[a], c[i]));
                assert forall|b: int| 0 <= b <= a implies !filed_under(#[trigger] items[b], c[j]) by {
                    assert(items[b] == prev[b]);
                    assert(!filed_under(prev[b], cp[j]));
                }
            } else {
                assert(!cp.contains(x));
                assert(c[j] == x);
                assert(cp.contains(cp[i]));
                let a = choose|a: int| 0 <= a < prev.len() && #[trigger] prev[a].category == cp[i];
                assert(items[a] == prev[a]);
                assert(filed_under(items[a], c[i]));
                assert forall|b: int| 0 <= b <= a implies !filed_under(#[trigger] items[b], c[j]) by {
                    assert(items[b] == prev[b]);
                    if prev[b].category == x {
                        assert(cp.contains(x));
                    }
                }
            }
        }
    }
}

/// The categories of the groups, in order.
pub open spec fn group_categories(groups: Seq<CategoryGroupView>) -> Seq<Seq<char>> {
    groups.map_values(|g: CategoryGroupView| g.category)
}

/// The groups follow the order in which their categories first appear in the
/// list: for two groups, an item of the earlier group's category comes before
/// every item of the later group's category. Every item's category has a
/// group, and a group holds only items of its category.
pub proof fn law_groups_in_first_seen_order(items: Seq<GroceryItemView>)
    ensures
        forall|i: int, j: int| 0 <= i < j < grouped(items).len()
            ==> #[trigger] earlier_first(items, group_categories(grouped(items)), i, j),
        forall|a: int| 0 <= a < items.len() ==> group_categories(grouped(items)).contains(#[trigger] items[a].category),
        forall|i: int, k: int| 0 <= i < grouped(items).len() && 0 <= k < grouped(items)[i].items.len()
            ==> (#[trigger] grouped(items)[i].items[k]).category == grouped(items)[i].category,
{
    lemma_first_seen(items);
    lemma_categories_distinct(items);
    let c = categories_in_order(items);
    let g = grouped(items);
    assert(group_categories(g) =~= c);
    assert forall|a: int| 0 <= a < items.len() implies group_categories(g).contains(#[trigger] items[a].category) by {
        assert(c.contains(items[a].category));
    }
    assert forall|i: int, k: int| 0 <= i < g.len() && 0 <= k < g[i].items.len()
        implies (#[trigger] g[i].items[k]).category == g[i].category by {
        items.lemma_filter_pred(in_category(c[i]), k);
    }
}

/// Group the list by category in first-seen order; each group keeps its
/// items in list order.
pub fn group_by_category(items: Vec<GroceryItem>) -> (r: Vec<CategoryGroup>)
    ensures
        r.deep_view() == grouped(items.deep_view()),
        r.deep_view().map_values(|g: CategoryGroupView| g.category).no_duplicates(),
{
    let ghost orig = items.deep_view();
    let mut rest = items;
    let mut groups: Vec<CategoryGroup> = Vec::new();
    let mut n: usize = 0;
    let total = rest.len();
    proof {
        assert(orig.len() == total);
        assert(orig.take(0) =~= Seq::<GroceryItemView>::empty());
        assert(groups.deep_view() =~= grouped(orig.take(0)));
    }
    while rest.len() > 0
        invariant
            n + rest.len() == orig.len(),
            orig.len() == total,
            forall|j: int| 0 <= j < rest.len() ==> #[trigger] rest.deep_view()[j] == orig[n + j],
            groups.deep_view() == grouped(orig.take(n as int)),
        decreases rest.len(),
    {
        let ghost before = rest.deep_view();
        let item = rest.remove(0);
        proof {
            assert forall|j: int| 0 <= j < rest.len() implies #[trigger] rest.deep_view()[j] == orig[n + 1 + j] by {
                assert(rest.deep_view()[j] == before[j + 1]);
            }
            assert(before[0] == orig[n as int]);
            assert(item.deep_view() == orig[n as int]);
        }
        let ghost pre = orig.take(n as int);
        let ghost x = item.deep_view();
        let ghost post = orig.take(n + 1);
        proof {
            assert(post =~= pre.push(x));
            assert(post.drop_last() =~= pre);
            lemma_categories_distinct(pre);
        }
        let ghost old_groups = groups.deep_view();
        let ghost cs0 = categories_in_order(pre);
        proof {
            assert(old_groups == grouped(pre));
            assert(old_groups.len() == cs0.len());
            assert(groups.len() == old_groups.len());
            assert forall|j: int| 0 <= j < cs0.len() implies (#[trigger] old_groups[j]).category == cs0[j] by {}
            assert(item.category@ == x.category);
        }
        let mut k: usize = 0;
        while k < groups.len() && !(groups[k].category == item.category)
            invariant
                k <= groups.len(),
                groups.deep_view() == old_groups,
                groups.len() == old_groups.len(),
                item.category@ == x.category,
                forall|j: int| 0 <= j < k ==> (#[trigger] old_groups[j]).category != x.category,
            decreases groups.len() - k,
        {
            proof {
                assert(groups.deep_view()[k as int].category == groups@[k as int].category@);
            }
            k = k + 1;
        }
        if k < groups.len() {
            proof {
                assert(groups.deep_view()[k as int].category == groups@[k as int].category@);
                assert(old_groups[k as int].category == x.category);
                assert(categories_in_order(pre)[k as int] == x.category);
                assert(categories_in_order(pre).contains(x.category));
            }
            let ghost gs0 = groups@;
            let mut g = CategoryGroup { category: String::new(), items: Vec::new() };
            groups.set_and_swap(k, &mut g);
            let ghost gv = g.deep_view();
            g.items.push(item);
            let ghost new_gv = g.deep_view();
            groups.set(k, g);
            proof {
                assert(new_gv.items =~= gv.items.push(x));
                assert(groups@ =~= gs0.update(k as int, g));
                assert(groups.deep_view() =~= old_groups.update(k as int, new_gv));
                assert(gv == old_groups[k as int]);
                assert(categories_in_order(post) == categories_in_order(pre));
                assert(groups.deep_view() =~= grouped(post)) by {
                    let cs = categories_in_order(pre);
                    assert forall|j: int| 0 <= j < cs.len() implies #[trigger] groups.deep_view()[j] == grouped(post)[j] by {
                        pre.lemma_filter_push(x, in_category(cs[j]));
                        if j != k {
                            assert(cs[j] != x.category);
                        }
                    }
                }
            }
        } else {
            let ghost cs = categories_in_order(pre);
            proof {
                assert forall|j: int| 0 <= j < cs.len() implies cs[j] != x.category by {
                    assert(old_groups[j].category == cs[j]);
                }
                assert(!cs.contains(x.category));
            }
            let mut fresh: Vec<GroceryItem> = Vec::new();
            let category = item.category.clone();
            fresh.push(item);
            let g = CategoryGroup { category, items: fresh };
            let ghost g_view = g.deep_view();
            groups.push(g);
            proof {
                assert(g_view.items =~= seq![x]);
                assert(g_view.category == x.category);
                assert(groups.deep_view() =~= old_groups.push(g_view));
                assert(groups.deep_view() =~= grouped(post)) by {
                    let cs2 = categories_in_order(post);
                    assert(cs2 == cs.push(x.category));
                    assert forall|j: int| 0 <= j < cs2.len() implies #[trigger] groups.deep_view()[j] == grouped(post)[j] by {
                        pre.lemma_filter_push(x, in_category(cs2[j]));
                        if j < cs.len() {
                            assert(cs2[j] != x.category);
                        } else {
                            assert(pre.filter(in_category(x.category)) =~= Seq::<GroceryItemView>::empty()) by {
                                pre.lemma_filter_len(in_category(x.category));
                                if pre.filter(in_category(x.category)).len() > 0 {
                                    let y = pre.filter(in_category(x.category))[0];
                                    pre.lemma_filter_contains_rev(in_category(x.category), y);
                                    assert(in_category(x.category)(y));
                                    lemma_categories_distinct(pre);
                                    let i = choose|i: int| 0 <= i < pre.len() && pre[i] == y;
                                    assert(pre[i].category == x.category);
                                }
                            }
                            assert(j == cs.len());
                            assert(groups.deep_view()[j].items =~= seq![x]);
                        }
                    }
                }
            }
        }
        n = n + 1;
    }
    proof {
        assert(orig.take(orig.len() as int) =~= orig);
        lemma_categories_distinct(orig);
        assert(groups.deep_view().map_values(|g: CategoryGroupView| g.category) =~= categories_in_order(orig));
    }
    groups
}


/// After a successful update of item `id`, the first item with that id in
/// the client's list takes the new `bought` value; nothing else changes.
pub fn set_bought(items: &mut Vec<GroceryItem>, id: i64, bought: bool)
    ensures
        (forall|k: int| 0 <= k < old(items).len() ==> (#[trigger] old(items)@[k]).id != id)
            ==> final(items).deep_view() == old(items).deep_view(),
        (exists|k: int| 0 <= k < old(items).len() && (#[trigger] old(items)@[k]).id == id) ==> exists|k: int|
            #![trigger old(items)@[k]]
            0 <= k < old(items).len() && old(items)@[k].id == id
            && (forall|j: int| 0 <= j < k ==> (#[trigger] old(items)@[j]).id != id)
            && final(items).deep_view() == old(items).deep_view().update(
                k,
                GroceryItemView { bought, ..old(items).deep_view()[k] },
            ),
{
    let ghost before = items.deep_view();
    let mut k: usize = 0;
    while k < items.len() && items[k].id != id
        invariant
            k <= items.len(),
            items@ == old(items)@,
            forall|j: int| 0 <= j < k ==> (#[trigger] old(items)@[j]).id != id,
        decreases items.len() - k,
    {
        k = k + 1;
    }
    if k < items.len() {
        let ghost v0 = items@;
        let mut it = GroceryItem { id: 0, name: String::new(), bought: false, category: String::new() };
        items.set_and_swap(k, &mut it);
        it.bought = bought;
        let ghost itv = it.deep_view();
        items.set(k, it);
        proof {
            assert(items@ =~= v0.update(k as int, it));
            assert(items.deep_view() =~= before.update(k as int, itv));
            assert(itv == GroceryItemView { bought, ..before[k as int] });
            assert(old(items)@[k as int].id == id);
        }
    } else {
        proof {
            assert(items.deep_view() =~= before);
        }
    }
}

/// The set of collapsed categories after a click on a group header: the
/// category is removed if it was collapsed, added otherwise.
pub open spec fn toggled(s: Set<Seq<char>>, name: Seq<char>) -> Set<Seq<char>> {
    if s.contains(name) {
        s.remove(name)
    } else {
        s.insert(name)
    }
}

/// The categories whose groups are collapsed on the shopping page.
pub struct CollapsedGroups {
    names: Vec<String>,
}

impl CollapsedGroups {
    pub closed spec fn wf(self) -> bool {
        self.names.deep_view().no_duplicates()
    }

    pub closed spec fn view_set(self) -> Set<Seq<char>> {
        self.names.deep_view().to_set()
    }

    /// Nothing collapsed.
    pub fn new() -> (r: CollapsedGroups)
        ensures
            r.wf(),
            r.view_set() == Set::<Seq<char>>::empty(),
    {
        let r = CollapsedGroups { names: Vec::new() };
        proof {
            assert(r.names.deep_view() =~= Seq::<Seq<char>>::empty());
            assert(r.names.deep_view().to_set() =~= Set::<Seq<char>>::empty());
        }
        r
    }

    fn position(&self, name: &String) -> (r: Option<usize>)
        ensures
            match r {
                Some(i) => i < self.names.len() && self.names.deep_view()[i as int] == name@,
                None => !self.names.deep_view().contains(name@),
            },
    {
        let mut i: usize = 0;
        while i < self.names.len()
            invariant
                i <= self.names.len(),
                forall|j: int| 0 <= j < i ==> self.names.deep_view()[j] != name@,
            decreases self.names.len() - i,
        {
            if self.names[i] == *name {
                return Some(i);
            }
            i = i + 1;
        }
        None
    }

    /// Whether the group of `name` is collapsed.
    pub fn is_collapsed(&self, name: &String) -> (b: bool)
        ensures
            b == self.view_set().contains(name@),
    {
        let r = self.position(name);
        proof {
            if self.names.deep_view().contains(name@) {
                assert(self.view_set().contains(name@));
            }
        }
        r.is_some()
    }

    /// Collapse the group of `name`, or expand it if it was collapsed.
    pub fn toggle(&mut self, name: String)
        requires
            old(self).wf(),
        ensures
            final(self).wf(),
            final(self).view_set() == toggled(old(self).view_set(), name@),
    {
        let ghost before = self.names.deep_view();
        match self.position(&name) {
            Some(i) => {
                self.names.remove(i);
                proof {
                    assert(self.names.deep_view() =~= before.remove(i as int));
                    before.lemma_multiset_has_no_duplicates();
                    assert(self.names.deep_view().no_duplicates());
                    assert(self.names.deep_view().to_set() =~= before.to_set().remove(name@)) by {
                        assert forall|x: Seq<char>| #[trigger] self.names.deep_view().to_set().contains(x)
                            <==> before.to_set().remove(name@).contains(x) by {
                            if self.names.deep_view().contains(x) {
                                let j = choose|j: int| 0 <= j < self.names.deep_view().len() && self.names.deep_view()[j] == x;
                                if j < i {
                                    assert(before[j] == x);
                                } else {
                                    assert(before[j + 1] == x);
                                }
                                assert(before.contains(x));
                            }
                            if before.contains(x) && x != name@ {
                                let j = choose|j: int| 0 <= j < before.len() && before[j] == x;
                                if j < i {
                                    assert(self.names.deep_view()[j] == x);
                                } else {
                                    assert(j != i);
                                    assert(self.names.deep_view()[j - 1] == x);
                                }
                                assert(self.names.deep_view().contains(x));
                            }
                        }
                    }
                    assert(before.to_set().contains(name@)) by {
                        assert(before[i as int] == name@);
                    }
                }
            },
            None => {
                self.names.push(name);
                proof {
                    assert(self.names.deep_view() =~= before.push(name@));
                    assert(self.names.deep_view().no_duplicates());
                    assert(self.names.deep_view().to_set() =~= before.to_set().insert(name@)) by {
                        assert forall|x: Seq<char>| #[trigger] self.names.deep_view().to_set().contains(x)
                            <==> before.to_set().insert(name@).contains(x) by {
                            if self.names.deep_view().contains(x) && x != name@ {
                                let j = choose|j: int| 0 <= j < self.names.deep_view().len() && self.names.deep_view()[j] == x;
                                assert(before[j] == x);
                            }
                            if before.contains(x) {
                                let j = choose|j: int| 0 <= j < before.len() && before[j] == x;
                                assert(self.names.deep_view()[j] == x);
                            }
                            if x == name@ {
                                assert(self.names.deep_view()[before.len() as int] == x);
                            }
                        }
                    }
                }
            },
        }
    }
}

/// The request made by the "Add" button: the typed name as is and the typed
/// group trimmed (absent when blank); nothing is sent for a blank name.
pub fn new_grocery_request(name: String, category: &str) -> (r: Option<NewGroceryItem>)
    ensures
        r is Some <==> !is_blank_seq(name@),
        r matches Some(item) ==> item.name@ == name@ && item.category.deep_view() == norm_opt(Some(category@)),
{
    let c = trim(category);
    let cat = if c.as_str().is_empty() { None } else { Some(c) };
    if is_blank(name.as_str()) {
        None
    } else {
        Some(NewGroceryItem { name, category: cat })
    }
}

/// Collapsing a group twice leaves the collapsed set as it was.
pub proof fn law_toggle_twice(s: Set<Seq<char>>, name: Seq<char>)
    ensures
        toggled(toggled(s, name), name) == s,
{
    if s.contains(name) {
        assert(s.remove(name).insert(name) =~= s);
    } else {
        assert(s.insert(name).remove(name) =~= s);
    }
}

/// The `bought` value written by an update is the one read back.
pub proof fn law_bought_round_trip(id: i64, name: String, category: String, update: GroceryUpdate)
    ensures
        item_of_row(GroceryRow { id, name, bought: flag_of(update.bought), category }).bought == update.bought,
{
}

} // verus!
