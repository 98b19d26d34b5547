//! The client's recipe editor: sections, ingredient rows and steps, each with
//! an identifier unique across the form, and the edits the form makes to
//! them (reordering by dragging, saving and deleting rows, submitting).

use vstd::prelude::*;
use crate::model::{RecipeDetail, RecipeDetailView};
use crate::recipes::{norm_opt, normalize_optional, trim_nonblank_list, trimmed_nonblank};
use crate::quantity::{quantity_check, quantity_ok};
use crate::text::{concat, is_blank, is_blank_seq, trim, trim_seq};

verus! {

broadcast use vstd::seq_lib::group_seq_properties;

/// A named ingredient section (e.g. "Crêpes", "Filling").
pub struct SectionRow {
    pub id: u64,
    pub name: String,
}

pub struct SectionRowView {
    pub id: u64,
    pub name: Seq<char>,
}

impl DeepView for SectionRow {
    type V = SectionRowView;

    open spec fn deep_view(&self) -> SectionRowView {
        SectionRowView { id: self.id, name: self.name@ }
    }
}

/// One ingredient in the editor list; its fields are the texts typed in the
/// ingredient dialog.
pub struct IngredientRow {
    pub id: u64,
    pub section_id: Option<u64>,
    pub name: String,
    pub quantity: String,
    pub unit: String,
    pub prep: String,
}

pub struct IngredientRowView {
    pub id: u64,
    pub section_id: Option<u64>,
    pub name: Seq<char>,
    pub quantity: Seq<char>,
    pub unit: Seq<char>,
    pub prep: Seq<char>,
}

impl DeepView for IngredientRow {
    type V = IngredientRowView;

    open spec fn deep_view(&self) -> IngredientRowView {
        IngredientRowView {
            id: self.id,
            section_id: self.section_id,
            name: self.name@,
            quantity: self.quantity@,
            unit: self.unit@,
            prep: self.prep@,
        }
    }
}

/// One instruction step.
pub struct StepRow {
    pub id: u64,
    pub text: String,
}

pub struct StepRowView {
    pub id: u64,
    pub text: Seq<char>,
}

impl DeepView for StepRow {
    type V = StepRowView;

    open spec fn deep_view(&self) -> StepRowView {
        StepRowView { id: self.id, text: self.text@ }
    }
}

impl SectionRow {
    pub fn duplicate(&self) -> (r: SectionRow)
        ensures
            r.deep_view() == self.deep_view(),
    {
        SectionRow { id: self.id, name: self.name.clone() }
    }
}

impl IngredientRow {
    pub fn duplicate(&self) -> (r: IngredientRow)
        ensures
            r.deep_view() == self.deep_view(),
    {
        IngredientRow {
            id: self.id,
            section_id: self.section_id,
            name: self.name.clone(),
            quantity: self.quantity.clone(),
            unit: self.unit.clone(),
            prep: self.prep.clone(),
        }
    }
}

impl StepRow {
    pub fn duplicate(&self) -> (r: StepRow)
        ensures
            r.deep_view() == self.deep_view(),
    {
        StepRow { id: self.id, text: self.text.clone() }
    }
}

// ---------------------------------------------------------------------------
// Reordering
// ---------------------------------------------------------------------------

/// `s` with the elements at `i` and `j` exchanged.
pub open spec fn swapped<T>(s: Seq<T>, i: int, j: int) -> Seq<T> {
    s.update(i, s[j]).update(j, s[i])
}

/// The first position of `id` in `ids`, or -1.
pub open spec fn first_index(ids: Seq<u64>, id: u64) -> int
    decreases ids.len(),
{
    if ids.len() == 0 {
        -1
    } else if ids[0] == id {
        0
    } else {
        let r = first_index(ids.drop_first(), id);
        if r < 0 { -1 } else { r + 1 }
    }
}

proof fn lemma_first_index(ids: Seq<u64>, id: u64)
    ensures
        -1 <= first_index(ids, id) < ids.len(),
        first_index(ids, id) >= 0 ==> ids[first_index(ids, id)] == id,
        first_index(ids, id) >= 0 ==> forall|j: int| 0 <= j < first_index(ids, id) ==> ids[j] != id,
        first_index(ids, id) < 0 ==> forall|j: int| 0 <= j < ids.len() ==> ids[j] != id,
    decreases ids.len(),
{
    if ids.len() > 0 && ids[0] != id {
        lemma_first_index(ids.drop_first(), id);
        let r = first_index(ids.drop_first(), id);
        assert forall|j: int| 1 <= j < ids.len() implies ids[j] == ids.drop_first()[j - 1] by {}
    }
}

/// Find the first position of `id` among `ids` as computed from `v`.
fn position_of_id(ids: &Vec<u64>, id: u64) -> (r: Option<usize>)
    ensures
        match r {
            Some(i) => first_index(ids@, id) == i,
            None => first_index(ids@, id) == -1,
        },
{
    proof {
        lemma_first_index(ids@, id);
    }
    let mut i: usize = 0;
    while i < ids.len()
        invariant
            i <= ids.len(),
            forall|j: int| 0 <= j < i ==> ids@[j] != id,
        decreases ids.len() - i,
    {
        if ids[i] == id {
            proof {
                lemma_first_index(ids@, id);
                if first_index(ids@, id) != i {
                    assert(first_index(ids@, id) >= 0);
                }
            }
            return Some(i);
        }
        i = i + 1;
    }
    proof {
        lemma_first_index(ids@, id);
    }
    None
}

/// Exchange two elements of a vector.
fn swap_elements<T>(v: &mut Vec<T>, i: usize, j: usize)
    requires
        i < j < old(v).len(),
    ensures
        final(v)@ == swapped(old(v)@, i as int, j as int),
{
    let ghost s = v@;
    let b = v.remove(j);
    let a = v.remove(i);
    v.insert(i, b);
    v.insert(j, a);
    proof {
        assert(v@ =~= swapped(s, i as int, j as int));
    }
}

pub open spec fn section_ids(s: Seq<SectionRowView>) -> Seq<u64> {
    s.map_values(|x: SectionRowView| x.id)
}

pub open spec fn row_ids(s: Seq<IngredientRowView>) -> Seq<u64> {
    s.map_values(|x: IngredientRowView| x.id)
}

pub open spec fn step_ids(s: Seq<StepRowView>) -> Seq<u64> {
    s.map_values(|x: StepRowView| x.id)
}

fn section_id_list(v: &Vec<SectionRow>) -> (ids: Vec<u64>)
    ensures
        ids@ == section_ids(v.deep_view()),
{
    let mut ids: Vec<u64> = Vec::new();
    let mut k: usize = 0;
    while k < v.len()
        invariant
            k <= v.len(),
            ids@ == section_ids(v.deep_view()).take(k as int),
        decreases v.len() - k,
    {
        ids.push(v[k].id);
        proof {
            assert(section_ids(v.deep_view()).take(k + 1) =~= section_ids(v.deep_view()).take(k as int).push(v[k as int].id));
        }
        k = k + 1;
    }
    proof {
        assert(section_ids(v.deep_view()).take(v.len() as int) =~= section_ids(v.deep_view()));
    }
    ids
}

fn step_id_list(v: &Vec<StepRow>) -> (ids: Vec<u64>)
    ensures
        ids@ == step_ids(v.deep_view()),
{
    let mut ids: Vec<u64> = Vec::new();
    let mut k: usize = 0;
    while k < v.len()
        invariant
            k <= v.len(),
            ids@ == step_ids(v.deep_view()).take(k as int),
        decreases v.len() - k,
    {
        ids.push(v[k].id);
        proof {
            assert(step_ids(v.deep_view()).take(k + 1) =~= step_ids(v.deep_view()).take(k as int).push(v[k as int].id));
        }
        k = k + 1;
    }
    proof {
        assert(step_ids(v.deep_view()).take(v.len() as int) =~= step_ids(v.deep_view()));
    }
    ids
}

fn row_id_list(v: &Vec<IngredientRow>) -> (ids: Vec<u64>)
    ensures
        ids@ == row_ids(v.deep_view()),
{
    let mut ids: Vec<u64> = Vec::new();
    let mut k: usize = 0;
    while k < v.len()
        invariant
            k <= v.len(),
            ids@ == row_ids(v.deep_view()).take(k as int),
        decreases v.len() - k,
    {
        ids.push(v[k].id);
        proof {
            assert(row_ids(v.deep_view()).take(k + 1) =~= row_ids(v.deep_view()).take(k as int).push(v[k as int].id));
        }
        k = k + 1;
    }
    proof {
        assert(row_ids(v.deep_view()).take(v.len() as int) =~= row_ids(v.deep_view()));
    }
    ids
}

pub open spec fn row_sections(s: Seq<IngredientRowView>) -> Seq<Option<u64>> {
    s.map_values(|x: IngredientRowView| x.section_id)
}

/// Moving the element at position `i` (or -1 when absent) one step down or
/// up: the new order, or `None` when it cannot move.
pub open spec fn moved_adjacent<T>(s: Seq<T>, i: int, down: bool) -> Option<Seq<T>> {
    let n = if down { i + 1 } else { i - 1 };
    if i < 0 || i >= s.len() || n < 0 || n >= s.len() {
        None
    } else {
        Some(swapped(s, i, n))
    }
}

/// The nearest position at or after `j` whose section is `s`, or -1.
pub open spec fn scan_down(secs: Seq<Option<u64>>, s: Option<u64>, j: int) -> int
    decreases secs.len() - j,
{
    if j < 0 || j >= secs.len() {
        -1
    } else if secs[j] == s {
        j
    } else {
        scan_down(secs, s, j + 1)
    }
}

/// The nearest position at or before `j` whose section is `s`, or -1.
pub open spec fn scan_up(secs: Seq<Option<u64>>, s: Option<u64>, j: int) -> int
    decreases j + 1,
{
    if j < 0 || j >= secs.len() {
        -1
    } else if secs[j] == s {
        j
    } else {
        scan_up(secs, s, j - 1)
    }
}

/// The sibling an ingredient at `i` is exchanged with: the nearest row in
/// the direction of the move that belongs to the same section.
pub open spec fn sibling(secs: Seq<Option<u64>>, i: int, down: bool) -> int {
    if down {
        scan_down(secs, secs[i], i + 1)
    } else {
        scan_up(secs, secs[i], i - 1)
    }
}

/// Moving ingredient row `i` among the rows of its own section.
pub open spec fn moved_in_section(s: Seq<IngredientRowView>, i: int, down: bool) -> Option<Seq<IngredientRowView>> {
    if i < 0 || i >= s.len() {
        None
    } else {
        let n = sibling(row_sections(s), i, down);
        if n < 0 {
            None
        } else {
            Some(swapped(s, i, n))
        }
    }
}

/// Move a section one slot down or up; whether it moved.
pub fn swap_section(sections: &mut Vec<SectionRow>, id: u64, down: bool) -> (moved: bool)
    ensures
        match moved_adjacent(old(sections).deep_view(), first_index(section_ids(old(sections).deep_view()), id), down) {
            Some(s) => moved && final(sections).deep_view() == s,
            None => !moved && final(sections).deep_view() == old(sections).deep_view(),
        },
{
    let ghost s0 = sections.deep_view();
    let ids = section_id_list(&sections);
    proof {
        assert(ids@ =~= section_ids(s0));
    }
    move_adjacent(sections, position_of_id(&ids, id), down)
}

/// Move a step one slot down or up; whether it moved.
pub fn swap_step(steps: &mut Vec<StepRow>, id: u64, down: bool) -> (moved: bool)
    ensures
        match moved_adjacent(old(steps).deep_view(), first_index(step_ids(old(steps).deep_view()), id), down) {
            Some(s) => moved && final(steps).deep_view() == s,
            None => !moved && final(steps).deep_view() == old(steps).deep_view(),
        },
{
    let ghost s0 = steps.deep_view();
    let ids = step_id_list(&steps);
    proof {
        assert(ids@ =~= step_ids(s0));
    }
    move_adjacent(steps, position_of_id(&ids, id), down)
}

fn move_adjacent<T: DeepView>(v: &mut Vec<T>, pos: Option<usize>, down: bool) -> (moved: bool)
    ensures
        match moved_adjacent(
            old(v).deep_view(),
            match pos {
                Some(i) => i as int,
                None => -1,
            },
            down,
        ) {
            Some(s) => moved && final(v).deep_view() == s,
            None => !moved && final(v).deep_view() == old(v).deep_view(),
        },
{
    let i = match pos {
        Some(i) => i,
        None => {
            return false;
        },
    };
    let ghost s0 = v@;
    if down {
        if i >= v.len() || i + 1 >= v.len() {
            return false;
        }
        swap_elements(v, i, i + 1);
        proof {
            assert(v.deep_view() =~= swapped(old(v).deep_view(), i as int, i + 1));
        }
        true
    } else {
        if i == 0 || i >= v.len() {
            return false;
        }
        swap_elements(v, i - 1, i);
        proof {
            assert(v.deep_view() =~= swapped(old(v).deep_view(), i as int, i - 1));
        }
        true
    }
}

/// Move an ingredient one slot down or up among the rows of its own
/// section (rows of other sections in between are skipped); whether it
/// moved.
#[verifier::spinoff_prover]
pub fn swap_ingredient(rows: &mut Vec<IngredientRow>, id: u64, down: bool) -> (moved: bool)
    ensures
        match moved_in_section(old(rows).deep_view(), first_index(row_ids(old(rows).deep_view()), id), down) {
            Some(s) => moved && final(rows).deep_view() == s,
            None => !moved && final(rows).deep_view() == old(rows).deep_view(),
        },
{
    let ghost s0 = rows.deep_view();
    let ids = row_id_list(&rows);
    proof {
        assert(ids@ =~= row_ids(s0));
    }
    let i = match position_of_id(&ids, id) {
        Some(i) => i,
        None => {
            return false;
        },
    };
    proof {
        lemma_first_index(row_ids(s0), id);
    }
    match sibling_index(rows, i, down) {
        Some(j) => {
            if j < i {
                swap_elements(rows, j, i);
            } else {
                swap_elements(rows, i, j);
            }
            proof {
                assert(rows.deep_view() =~= swapped(s0, i as int, j as int));
            }
            true
        },
        None => false,
    }
}

/// The position of the sibling a row is exchanged with, if any.
fn sibling_index(rows: &Vec<IngredientRow>, i: usize, down: bool) -> (r: Option<usize>)
    requires
        i < rows.len(),
    ensures
        match r {
            Some(j) => j < rows.len() && j != i && sibling(row_sections(rows.deep_view()), i as int, down) == j,
            None => sibling(row_sections(rows.deep_view()), i as int, down) < 0,
        },
{
    let ghost secs = row_sections(rows.deep_view());
    let section = rows[i].section_id;
    proof {
        assert(secs[i as int] == section);
    }
    if down {
        let mut j: usize = i + 1;
        while j < rows.len() && rows[j].section_id != section
            invariant
                i < j <= rows.len(),
                secs == row_sections(rows.deep_view()),
                section == secs[i as int],
                scan_down(secs, section, i + 1) == scan_down(secs, section, j as int),
            decreases rows.len() - j,
        {
            proof {
                assert(secs[j as int] == rows@[j as int].section_id);
            }
            j = j + 1;
        }
        if j >= rows.len() {
            return None;
        }
        proof {
            assert(secs[j as int] == rows@[j as int].section_id);
        }
        Some(j)
    } else {
        if i == 0 {
            return None;
        }
        let mut j: usize = i - 1;
        while j > 0 && rows[j].section_id != section
            invariant
                j < i < rows.len(),
                secs == row_sections(rows.deep_view()),
                section == secs[i as int],
                scan_up(secs, section, i - 1) == scan_up(secs, section, j as int),
            decreases j,
        {
            proof {
                assert(secs[j as int] == rows@[j as int].section_id);
            }
            j = j - 1;
        }
        proof {
            assert(secs[j as int] == rows@[j as int].section_id);
        }
        if rows[j].section_id != section {
            proof {
                assert(scan_up(secs, section, j - 1) == -1);
            }
            return None;
        }
        Some(j)
    }
}



// ---------------------------------------------------------------------------
// The editor state
// ---------------------------------------------------------------------------

pub open spec fn ids_distinct(x: Seq<u64>) -> bool {
    forall|i: int, j: int| 0 <= i < x.len() && 0 <= j < x.len() && i != j ==> x[i] != x[j]
}

pub open spec fn ids_disjoint(x: Seq<u64>, y: Seq<u64>) -> bool {
    forall|i: int, j: int| 0 <= i < x.len() && 0 <= j < y.len() ==> x[i] != y[j]
}

pub open spec fn ids_below(x: Seq<u64>, bound: u64) -> bool {
    forall|i: int| 0 <= i < x.len() ==> x[i] < bound
}

/// Every element of `x` occurs in `y`.
pub open spec fn ids_within(x: Seq<u64>, y: Seq<u64>) -> bool {
    forall|i: int| 0 <= i < x.len() ==> y.contains(#[trigger] x[i])
}

/// The whole form of the editor: the recipe name, the sections, the
/// ingredient rows and the steps, and the next identifier to hand out.
pub struct RecipeEditor {
    pub name: String,
    pub sections: Vec<SectionRow>,
    pub rows: Vec<IngredientRow>,
    pub steps: Vec<StepRow>,
    pub next_id: u64,
}

pub open spec fn ids_ok(sids: Seq<u64>, rids: Seq<u64>, tids: Seq<u64>, next: u64) -> bool {
    &&& ids_distinct(sids)
    &&& ids_distinct(rids)
    &&& ids_distinct(tids)
    &&& ids_disjoint(sids, rids)
    &&& ids_disjoint(sids, tids)
    &&& ids_disjoint(rids, tids)
    &&& ids_below(sids, next)
    &&& ids_below(rids, next)
    &&& ids_below(tids, next)
}

/// Every ingredient row is in no section or in a section whose id is in
/// `sids`.
pub open spec fn rows_in_sections(rows: Seq<IngredientRowView>, sids: Seq<u64>) -> bool {
    forall|k: int| 0 <= k < rows.len() && (#[trigger] rows[k]).section_id is Some
        ==> sids.contains(rows[k].section_id->0)
}

/// A section id a row may be put in: none, or one of `sids`.
pub open spec fn section_choice_ok(section_id: Option<u64>, sids: Seq<u64>) -> bool {
    section_id matches Some(s) ==> sids.contains(s)
}

impl RecipeEditor {
    /// Identifiers are unique across sections, rows and steps, and all below
    /// the next one to hand out; every ingredient row is in no section or in
    /// a current one.
    pub open spec fn wf(&self) -> bool {
        &&& ids_ok(
            section_ids(self.sections.deep_view()),
            row_ids(self.rows.deep_view()),
            step_ids(self.steps.deep_view()),
            self.next_id,
        )
        &&& rows_in_sections(self.rows.deep_view(), section_ids(self.sections.deep_view()))
    }
}

/// Rows keep naming current sections when each kept row was a row before and
/// each section a row named is still there (or the row is gone).
proof fn lemma_rows_in_sections_swapped(rows: Seq<IngredientRowView>, sids: Seq<u64>, i: int, n: int)
    requires
        0 <= i < rows.len(),
        0 <= n < rows.len(),
        rows_in_sections(rows, sids),
    ensures
        rows_in_sections(swapped(rows, i, n), sids),
{
    let y = swapped(rows, i, n);
    assert forall|k: int| 0 <= k < y.len() && (#[trigger] y[k]).section_id is Some
        implies sids.contains(y[k].section_id->0) by {
        let sk = if k == n { i } else if k == i { n } else { k };
        assert(y[k] == rows[sk]);
    }
}

/// A row list still names current sections when the section ids only grow.
proof fn lemma_rows_in_more_sections(rows: Seq<IngredientRowView>, sids: Seq<u64>, sids2: Seq<u64>)
    requires
        rows_in_sections(rows, sids),
        ids_within(sids, sids2),
    ensures
        rows_in_sections(rows, sids2),
{
    assert forall|k: int| 0 <= k < rows.len() && (#[trigger] rows[k]).section_id is Some
        implies sids2.contains(rows[k].section_id->0) by {
        let v = rows[k].section_id->0;
        let j = choose|j: int| 0 <= j < sids.len() && sids[j] == v;
        assert(sids2.contains(sids[j]));
    }
}

proof fn lemma_within_keeps(x2: Seq<u64>, x: Seq<u64>, y: Seq<u64>, bound: u64)
    requires
        ids_within(x2, x),
    ensures
        ids_disjoint(x, y) ==> ids_disjoint(x2, y),
        ids_disjoint(y, x) ==> ids_disjoint(y, x2),
        ids_below(x, bound) ==> ids_below(x2, bound),
{
    if ids_disjoint(x, y) {
        assert forall|i: int, j: int| 0 <= i < x2.len() && 0 <= j < y.len() implies x2[i] != y[j] by {
            assert(x.contains(x2[i]));
        }
    }
    if ids_disjoint(y, x) {
        assert forall|i: int, j: int| 0 <= i < y.len() && 0 <= j < x2.len() implies y[i] != x2[j] by {
            assert(x.contains(x2[j]));
        }
    }
    if ids_below(x, bound) {
        assert forall|i: int| 0 <= i < x2.len() implies x2[i] < bound by {
            assert(x.contains(x2[i]));
        }
    }
}

proof fn lemma_swapped_ids(x: Seq<u64>, i: int, n: int)
    requires
        0 <= i < x.len(),
        0 <= n < x.len(),
    ensures
        ids_within(swapped(x, i, n), x),
        ids_within(x, swapped(x, i, n)),
        ids_distinct(x) ==> ids_distinct(swapped(x, i, n)),
{
    let y = swapped(x, i, n);
    assert forall|k: int| 0 <= k < x.len() implies y.contains(#[trigger] x[k]) by {
        if k == n {
            assert(y[i] == x[k]);
        } else if k == i {
            assert(y[n] == x[k]);
        } else {
            assert(y[k] == x[k]);
        }
    }
    assert forall|k: int| 0 <= k < y.len() implies x.contains(#[trigger] y[k]) by {
        if k == n {
            assert(y[k] == x[i]);
        } else if k == i {
            assert(y[k] == x[n]);
        } else {
            assert(y[k] == x[k]);
        }
    }
    if ids_distinct(x) {
        assert forall|a: int, b: int| 0 <= a < y.len() && 0 <= b < y.len() && a != b implies y[a] != y[b] by {
            let sa = if a == n { i } else if a == i { n } else { a };
            let sb = if b == n { i } else if b == i { n } else { b };
            assert(y[a] == x[sa]);
            assert(y[b] == x[sb]);
        }
    }
}

proof fn lemma_pushed_fresh(x: Seq<u64>, y: Seq<u64>, z: Seq<u64>, next: u64)
    requires
        ids_ok(x, y, z, next),
        next < u64::MAX,
    ensures
        ids_ok(x.push(next), y, z, (next + 1) as u64),
        ids_ok(x, y.push(next), z, (next + 1) as u64),
        ids_ok(x, y, z.push(next), (next + 1) as u64),
{
}

proof fn lemma_section_ids_swapped(s: Seq<SectionRowView>, i: int, n: int)
    requires
        0 <= i < s.len(),
        0 <= n < s.len(),
    ensures
        section_ids(swapped(s, i, n)) == swapped(section_ids(s), i, n),
{
    assert(section_ids(swapped(s, i, n)) =~= swapped(section_ids(s), i, n));
}

proof fn lemma_step_ids_swapped(s: Seq<StepRowView>, i: int, n: int)
    requires
        0 <= i < s.len(),
        0 <= n < s.len(),
    ensures
        step_ids(swapped(s, i, n)) == swapped(step_ids(s), i, n),
{
    assert(step_ids(swapped(s, i, n)) =~= swapped(step_ids(s), i, n));
}

proof fn lemma_row_ids_swapped(s: Seq<IngredientRowView>, i: int, n: int)
    requires
        0 <= i < s.len(),
        0 <= n < s.len(),
    ensures
        row_ids(swapped(s, i, n)) == swapped(row_ids(s), i, n),
{
    assert(row_ids(swapped(s, i, n)) =~= swapped(row_ids(s), i, n));
}

/// `s` with its first element of id `id` replaced by `x`, if there is one.
pub open spec fn replace_first<T>(s: Seq<T>, ids: Seq<u64>, id: u64, x: T) -> Seq<T> {
    let k = first_index(ids, id);
    if k < 0 { s } else { s.update(k, x) }
}

impl RecipeEditor {
    /// Drag a section one slot down or up.
    pub fn move_section(&mut self, id: u64, down: bool) -> (moved: bool)
        requires
            old(self).wf(),
        ensures
            final(self).wf(),
            match moved_adjacent(old(self).sections.deep_view(), first_index(section_ids(old(self).sections.deep_view()), id), down) {
                Some(s) => moved && final(self).sections.deep_view() == s,
                None => !moved && final(self).sections.deep_view() == old(self).sections.deep_view(),
            },
            final(self).name == old(self).name,
            final(self).rows == old(self).rows,
            final(self).steps == old(self).steps,
            final(self).next_id == old(self).next_id,
    {
        let ghost s0 = self.sections.deep_view();
        let moved = swap_section(&mut self.sections, id, down);
        proof {
            let i = first_index(section_ids(s0), id);
            if moved {
                let n = if down { i + 1 } else { i - 1 };
                lemma_section_ids_swapped(s0, i, n);
                lemma_swapped_ids(section_ids(s0), i, n);
                lemma_rows_in_more_sections(self.rows.deep_view(), section_ids(s0), section_ids(self.sections.deep_view()));
                lemma_within_keeps(section_ids(self.sections.deep_view()), section_ids(s0), row_ids(self.rows.deep_view()), self.next_id);
                lemma_within_keeps(section_ids(self.sections.deep_view()), section_ids(s0), step_ids(self.steps.deep_view()), self.next_id);
            }
        }
        moved
    }

    /// Drag a step one slot down or up.
    pub fn move_step(&mut self, id: u64, down: bool) -> (moved: bool)
        requires
            old(self).wf(),
        ensures
            final(self).wf(),
            match moved_adjacent(old(self).steps.deep_view(), first_index(step_ids(old(self).steps.deep_view()), id), down) {
                Some(s) => moved && final(self).steps.deep_view() == s,
                None => !moved && final(self).steps.deep_view() == old(self).steps.deep_view(),
            },
            final(self).name == old(self).name,
            final(self).sections == old(self).sections,
            final(self).rows == old(self).rows,
            final(self).next_id == old(self).next_id,
    {
        let ghost s0 = self.steps.deep_view();
        let moved = swap_step(&mut self.steps, id, down);
        proof {
            let i = first_index(step_ids(s0), id);
            if moved {
                let n = if down { i + 1 } else { i - 1 };
                lemma_step_ids_swapped(s0, i, n);
                lemma_swapped_ids(step_ids(s0), i, n);
                lemma_within_keeps(step_ids(self.steps.deep_view()), step_ids(s0), section_ids(self.sections.deep_view()), self.next_id);
                lemma_within_keeps(step_ids(self.steps.deep_view()), step_ids(s0), row_ids(self.rows.deep_view()), self.next_id);
            }
        }
        moved
    }

    /// Drag an ingredient one slot down or up within its section.
    pub fn move_ingredient(&mut self, id: u64, down: bool) -> (moved: bool)
        requires
            old(self).wf(),
        ensures
            final(self).wf(),
            match moved_in_section(old(self).rows.deep_view(), first_index(row_ids(old(self).rows.deep_view()), id), down) {
                Some(s) => moved && final(self).rows.deep_view() == s,
                None => !moved && final(self).rows.deep_view() == old(self).rows.deep_view(),
            },
            final(self).name == old(self).name,
            final(self).sections == old(self).sections,
            final(self).steps == old(self).steps,
            final(self).next_id == old(self).next_id,
    {
        let ghost s0 = self.rows.deep_view();
        let moved = swap_ingredient(&mut self.rows, id, down);
        proof {
            let i = first_index(row_ids(s0), id);
            if moved {
                let n = sibling(row_sections(s0), i, down);
                if down {
                    lemma_scan_down(row_sections(s0), row_sections(s0)[i], i + 1);
                } else {
                    lemma_scan_up(row_sections(s0), row_sections(s0)[i], i - 1);
                }
                lemma_row_ids_swapped(s0, i, n);
                lemma_swapped_ids(row_ids(s0), i, n);
                lemma_rows_in_sections_swapped(s0, section_ids(self.sections.deep_view()), i, n);
                lemma_within_keeps(row_ids(self.rows.deep_view()), row_ids(s0), section_ids(self.sections.deep_view()), self.next_id);
                lemma_within_keeps(row_ids(self.rows.deep_view()), row_ids(s0), step_ids(self.steps.deep_view()), self.next_id);
            }
        }
        moved
    }

    /// Set the recipe name as typed.
    pub fn set_name(&mut self, name: String)
        requires
            old(self).wf(),
        ensures
            final(self).wf(),
            final(self).name == name,
            final(self).sections == old(self).sections,
            final(self).rows == old(self).rows,
            final(self).steps == old(self).steps,
            final(self).next_id == old(self).next_id,
    {
        self.name = name;
    }

    /// The section a new ingredient is put in by default: the last one.
    pub fn default_section(&self) -> (r: Option<u64>)
        ensures
            r == if self.sections.len() == 0 { None } else { Some(self.sections@.last().id) },
    {
        if self.sections.len() == 0 {
            None
        } else {
            Some(self.sections[self.sections.len() - 1].id)
        }
    }

    /// Save the section dialog: a blank name saves nothing; otherwise the
    /// trimmed name renames the section being edited, or is added as a new
    /// section with the next identifier. Whether the dialog was saved.
    pub fn save_section(&mut self, editing: Option<u64>, name: &str) -> (saved: bool)
        requires
            old(self).wf(),
            editing is None ==> old(self).next_id < u64::MAX,
        ensures
            final(self).wf(),
            saved == !is_blank_seq(name@),
            !saved ==> final(self).sections == old(self).sections && final(self).next_id == old(self).next_id,
            saved ==> match editing {
                Some(id) => final(self).sections.deep_view() == replace_first(
                    old(self).sections.deep_view(),
                    section_ids(old(self).sections.deep_view()),
                    id,
                    SectionRowView { id, name: trim_seq(name@) },
                ) && final(self).next_id == old(self).next_id,
                None => final(self).sections.deep_view() == old(self).sections.deep_view().push(
                    SectionRowView { id: old(self).next_id, name: trim_seq(name@) },
                ) && final(self).next_id == old(self).next_id + 1,
            },
            final(self).name == old(self).name,
            final(self).rows == old(self).rows,
            final(self).steps == old(self).steps,
    {
        let trimmed = trim(name);
        if trimmed.as_str().is_empty() {
            return false;
        }
        let ghost s0 = self.sections.deep_view();
        match editing {
            Some(id) => {
                let ids = section_id_list(&self.sections);
                proof {
                    assert(ids@ =~= section_ids(s0));
                    lemma_first_index(section_ids(s0), id);
                }
                match position_of_id(&ids, id) {
                    Some(i) => {
                        let row = SectionRow { id, name: trimmed };
                        let ghost rv = row.deep_view();
                        self.sections.set(i, row);
                        proof {
                            assert(self.sections.deep_view() =~= s0.update(i as int, rv));
                            assert(section_ids(self.sections.deep_view()) =~= section_ids(s0));
                        }
                    },
                    None => {},
                }
            },
            None => {
                let id = self.next_id;
                self.sections.push(SectionRow { id, name: trimmed });
                self.next_id = id + 1;
                proof {
                    assert(section_ids(self.sections.deep_view()) =~= section_ids(s0).push(id));
                    lemma_pushed_fresh(section_ids(s0), row_ids(self.rows.deep_view()), step_ids(self.steps.deep_view()), id);
                    assert forall|k: int| 0 <= k < section_ids(s0).len()
                        implies section_ids(self.sections.deep_view()).contains(#[trigger] section_ids(s0)[k]) by {
                        assert(section_ids(self.sections.deep_view())[k] == section_ids(s0)[k]);
                    }
                    lemma_rows_in_more_sections(self.rows.deep_view(), section_ids(s0), section_ids(self.sections.deep_view()));
                }
            },
        }
        true
    }

    /// Save the step dialog: a blank text saves nothing; otherwise the
    /// trimmed text replaces the step being edited, or is added as a new step
    /// with the next identifier. Whether the dialog was saved.
    pub fn save_step(&mut self, editing: Option<u64>, text: &str) -> (saved: bool)
        requires
            old(self).wf(),
            editing is None ==> old(self).next_id < u64::MAX,
        ensures
            final(self).wf(),
            saved == !is_blank_seq(text@),
            !saved ==> final(self).steps == old(self).steps && final(self).next_id == old(self).next_id,
            saved ==> match editing {
                Some(id) => final(self).steps.deep_view() == replace_first(
                    old(self).steps.deep_view(),
                    step_ids(old(self).steps.deep_view()),
                    id,
                    StepRowView { id, text: trim_seq(text@) },
                ) && final(self).next_id == old(self).next_id,
                None => final(self).steps.deep_view() == old(self).steps.deep_view().push(
                    StepRowView { id: old(self).next_id, text: trim_seq(text@) },
                ) && final(self).next_id == old(self).next_id + 1,
            },
            final(self).name == old(self).name,
            final(self).sections == old(self).sections,
            final(self).rows == old(self).rows,
    {
        let trimmed = trim(text);
        if trimmed.as_str().is_empty() {
            return false;
        }
        let ghost s0 = self.steps.deep_view();
        match editing {
            Some(id) => {
                let ids = step_id_list(&self.steps);
                proof {
                    assert(ids@ =~= step_ids(s0));
                    lemma_first_index(step_ids(s0), id);
                }
                match position_of_id(&ids, id) {
                    Some(i) => {
                        let row = StepRow { id, text: trimmed };
                        let ghost rv = row.deep_view();
                        self.steps.set(i, row);
                        proof {
                            assert(self.steps.deep_view() =~= s0.update(i as int, rv));
                            assert(step_ids(self.steps.deep_view()) =~= step_ids(s0));
                        }
                    },
                    None => {},
                }
            },
            None => {
                let id = self.next_id;
                self.steps.push(StepRow { id, text: trimmed });
                self.next_id = id + 1;
                proof {
                    assert(step_ids(self.steps.deep_view()) =~= step_ids(s0).push(id));
                    lemma_pushed_fresh(section_ids(self.sections.deep_view()), row_ids(self.rows.deep_view()), step_ids(s0), id);
                }
            },
        }
        true
    }

    /// Save the ingredient dialog: a blank name or a refused quantity (see
    /// `quantity::quantity_ok`) saves nothing; otherwise the trimmed fields replace the
    /// row being edited, or are added as a new row with the next identifier.
    /// The dialog only offers current sections. Whether the dialog was saved.
    pub fn save_ingredient(
        &mut self,
        editing: Option<u64>,
        section_id: Option<u64>,
        quantity: &str,
        unit: &str,
        name: &str,
        prep: &str,
    ) -> (saved: bool)
        requires
            old(self).wf(),
            editing is None ==> old(self).next_id < u64::MAX,
            section_choice_ok(section_id, section_ids(old(self).sections.deep_view())),
        ensures
            final(self).wf(),
            saved == (!is_blank_seq(name@) && quantity_ok(quantity@)),
            !saved ==> final(self).rows == old(self).rows && final(self).next_id == old(self).next_id,
            saved ==> match editing {
                Some(id) => final(self).rows.deep_view() == replace_first(
                    old(self).rows.deep_view(),
                    row_ids(old(self).rows.deep_view()),
                    id,
                    IngredientRowView {
                        id,
                        section_id,
                        name: trim_seq(name@),
                        quantity: trim_seq(quantity@),
                        unit: trim_seq(unit@),
                        prep: trim_seq(prep@),
                    },
                ) && final(self).next_id == old(self).next_id,
                None => final(self).rows.deep_view() == old(self).rows.deep_view().push(
                    IngredientRowView {
                        id: old(self).next_id,
                        section_id,
                        name: trim_seq(name@),
                        quantity: trim_seq(quantity@),
                        unit: trim_seq(unit@),
                        prep: trim_seq(prep@),
                    },
                ) && final(self).next_id == old(self).next_id + 1,
            },
            final(self).name == old(self).name,
            final(self).sections == old(self).sections,
            final(self).steps == old(self).steps,
    {
        let trimmed = trim(name);
        if trimmed.as_str().is_empty() {
            return false;
        }
        if quantity_check(quantity).is_err() {
            return false;
        }
        let ghost s0 = self.rows.deep_view();
        let ghost sids = section_ids(self.sections.deep_view());
        let quantity = trim(quantity);
        let unit = trim(unit);
        let prep = trim(prep);
        match editing {
            Some(id) => {
                let ids = row_id_list(&self.rows);
                proof {
                    assert(ids@ =~= row_ids(s0));
                    lemma_first_index(row_ids(s0), id);
                }
                match position_of_id(&ids, id) {
                    Some(i) => {
                        let row = IngredientRow { id, section_id, name: trimmed, quantity, unit, prep };
                        let ghost rv = row.deep_view();
                        self.rows.set(i, row);
                        proof {
                            assert(self.rows.deep_view() =~= s0.update(i as int, rv));
                            assert(row_ids(self.rows.deep_view()) =~= row_ids(s0));
                            let r1 = self.rows.deep_view();
                            assert forall|k: int| 0 <= k < r1.len() && (#[trigger] r1[k]).section_id is Some
                                implies sids.contains(r1[k].section_id->0) by {
                                if k != i {
                                    assert(r1[k] == s0[k]);
                                }
                            }
                        }
                    },
                    None => {},
                }
            },
            None => {
                let id = self.next_id;
                self.rows.push(IngredientRow { id, section_id, name: trimmed, quantity, unit, prep });
                self.next_id = id + 1;
                proof {
                    assert(row_ids(self.rows.deep_view()) =~= row_ids(s0).push(id));
                    lemma_pushed_fresh(section_ids(self.sections.deep_view()), row_ids(s0), step_ids(self.steps.deep_view()), id);
                    let r1 = self.rows.deep_view();
                    assert forall|k: int| 0 <= k < r1.len() && (#[trigger] r1[k]).section_id is Some
                        implies sids.contains(r1[k].section_id->0) by {
                        if k < s0.len() {
                            assert(r1[k] == s0[k]);
                        }
                    }
                }
            },
        }
        true
    }
}


pub open spec fn other_section(id: u64) -> spec_fn(SectionRowView) -> bool {
    |x: SectionRowView| x.id != id
}

pub open spec fn other_step(id: u64) -> spec_fn(StepRowView) -> bool {
    |x: StepRowView| x.id != id
}

pub open spec fn other_row(id: u64) -> spec_fn(IngredientRowView) -> bool {
    |x: IngredientRowView| x.id != id
}

pub open spec fn outside_section(id: u64) -> spec_fn(IngredientRowView) -> bool {
    |x: IngredientRowView| x.section_id != Some(id)
}

/// What a filter keeps is a subsequence: the keys of the kept elements occur
/// among the keys before, and stay distinct when they were.
proof fn lemma_filter_ids<T>(a: Seq<T>, pred: spec_fn(T) -> bool, key: spec_fn(T) -> u64)
    ensures
        ids_within(a.filter(pred).map_values(key), a.map_values(key)),
        ids_distinct(a.map_values(key)) ==> ids_distinct(a.filter(pred).map_values(key)),
    decreases a.len(),
{
    if a.len() == 0 {
        a.lemma_filter_len(pred);
    } else {
        let b = a.drop_last();
        let x = a.last();
        lemma_filter_ids(b, pred, key);
        assert(a =~= b.push(x));
        b.lemma_filter_push(x, pred);
        let fb = b.filter(pred).map_values(key);
        let ib = b.map_values(key);
        let ia = a.map_values(key);
        let fa = a.filter(pred).map_values(key);
        assert forall|k: int| 0 <= k < ib.len() implies ia[k] == ib[k] by {}
        assert forall|k: int| 0 <= k < fb.len() implies ia.contains(#[trigger] fb[k]) by {
            let j = choose|j: int| 0 <= j < ib.len() && ib[j] == fb[k];
            assert(ia[j] == fb[k]);
        }
        if pred(x) {
            assert(fa =~= fb.push(key(x)));
            assert(ia[a.len() - 1] == key(x));
            assert forall|k: int| 0 <= k < fa.len() implies ia.contains(#[trigger] fa[k]) by {
                if k < fb.len() {
                    assert(fa[k] == fb[k]);
                }
            }
            if ids_distinct(ia) {
                assert forall|p: int, q: int| 0 <= p < fa.len() && 0 <= q < fa.len() && p != q implies fa[p] != fa[q] by {
                    if p < fb.len() && q < fb.len() {
                        assert(fa[p] == fb[p] && fa[q] == fb[q]);
                    } else if p < fb.len() {
                        let j = choose|j: int| 0 <= j < ib.len() && ib[j] == fb[p];
                        assert(ia[j] == fa[p]);
                        assert(ia[a.len() - 1] == fa[q]);
                    } else {
                        let j = choose|j: int| 0 <= j < ib.len() && ib[j] == fb[q];
                        assert(ia[j] == fa[q]);
                        assert(ia[a.len() - 1] == fa[p]);
                    }
                }
            }
        } else {
            assert(fa =~= fb);
        }
    }
}

fn sections_without(v: &Vec<SectionRow>, id: u64) -> (r: Vec<SectionRow>)
    ensures
        r.deep_view() == v.deep_view().filter(other_section(id)),
        ids_within(section_ids(r.deep_view()), section_ids(v.deep_view())),
        ids_distinct(section_ids(v.deep_view())) ==> ids_distinct(section_ids(r.deep_view())),
{
    let ghost a = v.deep_view();
    let mut r: Vec<SectionRow> = Vec::new();
    let mut i: usize = 0;
    while i < v.len()
        invariant
            i <= v.len(),
            a == v.deep_view(),
            r.deep_view() == a.take(i as int).filter(other_section(id)),
        decreases v.len() - i,
    {
        let ghost r0 = r.deep_view();
        let x = v[i].duplicate();
        proof {
            a.take(i as int).lemma_filter_push(a[i as int], other_section(id));
            assert(a.take(i + 1) =~= a.take(i as int).push(a[i as int]));
        }
        if x.id != id {
            r.push(x);
            proof {
                assert(r.deep_view() =~= r0.push(a[i as int]));
            }
        }
        i = i + 1;
    }
    proof {
        assert(a.take(a.len() as int) =~= a);
        let key = |x: SectionRowView| x.id;
        lemma_filter_ids(a, other_section(id), key);
        assert(section_ids(a) =~= a.map_values(key));
        assert(section_ids(r.deep_view()) =~= a.filter(other_section(id)).map_values(key));
    }
    r
}

fn steps_without(v: &Vec<StepRow>, id: u64) -> (r: Vec<StepRow>)
    ensures
        r.deep_view() == v.deep_view().filter(other_step(id)),
        ids_within(step_ids(r.deep_view()), step_ids(v.deep_view())),
        ids_distinct(step_ids(v.deep_view())) ==> ids_distinct(step_ids(r.deep_view())),
{
    let ghost a = v.deep_view();
    let mut r: Vec<StepRow> = Vec::new();
    let mut i: usize = 0;
    while i < v.len()
        invariant
            i <= v.len(),
            a == v.deep_view(),
            r.deep_view() == a.take(i as int).filter(other_step(id)),
        decreases v.len() - i,
    {
        let ghost r0 = r.deep_view();
        let x = v[i].duplicate();
        proof {
            a.take(i as int).lemma_filter_push(a[i as int], other_step(id));
            assert(a.take(i + 1) =~= a.take(i as int).push(a[i as int]));
        }
        if x.id != id {
            r.push(x);
            proof {
                assert(r.deep_view() =~= r0.push(a[i as int]));
            }
        }
        i = i + 1;
    }
    proof {
        assert(a.take(a.len() as int) =~= a);
        let key = |x: StepRowView| x.id;
        lemma_filter_ids(a, other_step(id), key);
        assert(step_ids(a) =~= a.map_values(key));
        assert(step_ids(r.deep_view()) =~= a.filter(other_step(id)).map_values(key));
    }
    r
}

fn rows_without(v: &Vec<IngredientRow>, id: u64) -> (r: Vec<IngredientRow>)
    ensures
        r.deep_view() == v.deep_view().filter(other_row(id)),
        ids_within(row_ids(r.deep_view()), row_ids(v.deep_view())),
        ids_distinct(row_ids(v.deep_view())) ==> ids_distinct(row_ids(r.deep_view())),
{
    let ghost a = v.deep_view();
    let mut r: Vec<IngredientRow> = Vec::new();
    let mut i: usize = 0;
    while i < v.len()
        invariant
            i <= v.len(),
            a == v.deep_view(),
            r.deep_view() == a.take(i as int).filter(other_row(id)),
        decreases v.len() - i,
    {
        let ghost r0 = r.deep_view();
        let x = v[i].duplicate();
        proof {
            a.take(i as int).lemma_filter_push(a[i as int], other_row(id));
            assert(a.take(i + 1) =~= a.take(i as int).push(a[i as int]));
        }
        if x.id != id {
            r.push(x);
            proof {
                assert(r.deep_view() =~= r0.push(a[i as int]));
            }
        }
        i = i + 1;
    }
    proof {
        assert(a.take(a.len() as int) =~= a);
        let key = |x: IngredientRowView| x.id;
        lemma_filter_ids(a, other_row(id), key);
        assert(row_ids(a) =~= a.map_values(key));
        assert(row_ids(r.deep_view()) =~= a.filter(other_row(id)).map_values(key));
    }
    r
}

fn rows_outside_section(v: &Vec<IngredientRow>, id: u64) -> (r: Vec<IngredientRow>)
    ensures
        r.deep_view() == v.deep_view().filter(outside_section(id)),
        ids_within(row_ids(r.deep_view()), row_ids(v.deep_view())),
        ids_distinct(row_ids(v.deep_view())) ==> ids_distinct(row_ids(r.deep_view())),
{
    let ghost a = v.deep_view();
    let mut r: Vec<IngredientRow> = Vec::new();
    let mut i: usize = 0;
    while i < v.len()
        invariant
            i <= v.len(),
            a == v.deep_view(),
            r.deep_view() == a.take(i as int).filter(outside_section(id)),
        decreases v.len() - i,
    {
        let ghost r0 = r.deep_view();
        let x = v[i].duplicate();
        proof {
            a.take(i as int).lemma_filter_push(a[i as int], outside_section(id));
            assert(a.take(i + 1) =~= a.take(i as int).push(a[i as int]));
        }
        if x.section_id != Some(id) {
            r.push(x);
            proof {
                assert(r.deep_view() =~= r0.push(a[i as int]));
            }
        }
        i = i + 1;
    }
    proof {
        assert(a.take(a.len() as int) =~= a);
        let key = |x: IngredientRowView| x.id;
        lemma_filter_ids(a, outside_section(id), key);
        assert(row_ids(a) =~= a.map_values(key));
        assert(row_ids(r.deep_view()) =~= a.filter(outside_section(id)).map_values(key));
    }
    r
}

impl RecipeEditor {
    /// Delete a section together with its ingredient rows.
    pub fn delete_section(&mut self, id: u64)
        requires
            old(self).wf(),
        ensures
            final(self).wf(),
            final(self).sections.deep_view() == old(self).sections.deep_view().filter(other_section(id)),
            final(self).rows.deep_view() == old(self).rows.deep_view().filter(outside_section(id)),
            final(self).name == old(self).name,
            final(self).steps == old(self).steps,
            final(self).next_id == old(self).next_id,
    {
        let ghost s0 = section_ids(self.sections.deep_view());
        let ghost r0 = row_ids(self.rows.deep_view());
        let ghost t0 = step_ids(self.steps.deep_view());
        let ghost sv0 = self.sections.deep_view();
        let ghost rv0 = self.rows.deep_view();
        let sections = sections_without(&self.sections, id);
        let rows = rows_outside_section(&self.rows, id);
        self.sections = sections;
        self.rows = rows;
        proof {
            let sv1 = self.sections.deep_view();
            let rv1 = self.rows.deep_view();
            assert forall|k: int| 0 <= k < rv1.len() && (#[trigger] rv1[k]).section_id is Some
                implies section_ids(sv1).contains(rv1[k].section_id->0) by {
                let v = rv1[k].section_id->0;
                rv0.lemma_filter_pred(outside_section(id), k);
                assert(rv1.contains(rv1[k]));
                rv0.lemma_filter_contains_rev(outside_section(id), rv1[k]);
                let j = choose|j: int| 0 <= j < rv0.len() && rv0[j] == rv1[k];
                assert(rows_in_sections(rv0, s0));
                assert(rv0[j].section_id is Some);
                assert(s0.contains(v));
                let m = choose|m: int| 0 <= m < s0.len() && s0[m] == v;
                assert(sv0[m].id == v);
                assert(v != id);
                sv0.lemma_filter_contains(other_section(id), m);
                let p = choose|p: int| 0 <= p < sv1.len() && sv1[p] == sv0[m];
                assert(section_ids(sv1)[p] == v);
            }
            let s1 = section_ids(self.sections.deep_view());
            let r1 = row_ids(self.rows.deep_view());
            lemma_within_keeps(s1, s0, r0, self.next_id);
            lemma_within_keeps(s1, s0, t0, self.next_id);
            lemma_within_keeps(r1, r0, s1, self.next_id);
            lemma_within_keeps(r1, r0, t0, self.next_id);
        }
    }

    /// Delete an ingredient row.
    pub fn delete_ingredient(&mut self, id: u64)
        requires
            old(self).wf(),
        ensures
            final(self).wf(),
            final(self).rows.deep_view() == old(self).rows.deep_view().filter(other_row(id)),
            final(self).name == old(self).name,
            final(self).sections == old(self).sections,
            final(self).steps == old(self).steps,
            final(self).next_id == old(self).next_id,
    {
        let ghost s0 = section_ids(self.sections.deep_view());
        let ghost r0 = row_ids(self.rows.deep_view());
        let ghost t0 = step_ids(self.steps.deep_view());
        let ghost rv0 = self.rows.deep_view();
        let rows = rows_without(&self.rows, id);
        self.rows = rows;
        proof {
            let rv1 = self.rows.deep_view();
            assert forall|k: int| 0 <= k < rv1.len() && (#[trigger] rv1[k]).section_id is Some
                implies s0.contains(rv1[k].section_id->0) by {
                assert(rv1.contains(rv1[k]));
                rv0.lemma_filter_contains_rev(other_row(id), rv1[k]);
                let j = choose|j: int| 0 <= j < rv0.len() && rv0[j] == rv1[k];
                assert(rows_in_sections(rv0, s0));
                assert(rv0[j].section_id is Some);
            }
            let r1 = row_ids(self.rows.deep_view());
            lemma_within_keeps(r1, r0, s0, self.next_id);
            lemma_within_keeps(r1, r0, t0, self.next_id);
        }
    }

    /// Delete a step.
    pub fn delete_step(&mut self, id: u64)
        requires
            old(self).wf(),
        ensures
            final(self).wf(),
            final(self).steps.deep_view() == old(self).steps.deep_view().filter(other_step(id)),
            final(self).name == old(self).name,
            final(self).sections == old(self).sections,
            final(self).rows == old(self).rows,
            final(self).next_id == old(self).next_id,
    {
        let ghost s0 = section_ids(self.sections.deep_view());
        let ghost r0 = row_ids(self.rows.deep_view());
        let ghost t0 = step_ids(self.steps.deep_view());
        let steps = steps_without(&self.steps, id);
        self.steps = steps;
        proof {
            let t1 = step_ids(self.steps.deep_view());
            lemma_within_keeps(t1, t0, s0, self.next_id);
            lemma_within_keeps(t1, t0, r0, self.next_id);
        }
    }
}


// ---------------------------------------------------------------------------
// Loading a recipe into the editor
// ---------------------------------------------------------------------------

/// The first position of `x` in `s`, or -1.
pub open spec fn first_pos(s: Seq<Seq<char>>, x: Seq<char>) -> int
    decreases s.len(),
{
    if s.len() == 0 {
        -1
    } else if s[0] == x {
        0
    } else {
        let r = first_pos(s.drop_first(), x);
        if r < 0 { -1 } else { r + 1 }
    }
}

proof fn lemma_first_pos(s: Seq<Seq<char>>, x: Seq<char>)
    ensures
        -1 <= first_pos(s, x) < s.len(),
        first_pos(s, x) >= 0 ==> s[first_pos(s, x)] == x,
        first_pos(s, x) >= 0 ==> forall|j: int| 0 <= j < first_pos(s, x) ==> s[j] != x,
        first_pos(s, x) < 0 ==> forall|j: int| 0 <= j < s.len() ==> s[j] != x,
    decreases s.len(),
{
    if s.len() > 0 && s[0] != x {
        lemma_first_pos(s.drop_first(), x);
        assert forall|j: int| 1 <= j < s.len() implies s[j] == s.drop_first()[j - 1] by {}
    }
}

/// The section row an ingredient of a loaded recipe belongs to: the position
/// of the first section of that name.
pub open spec fn loaded_section(sections: Seq<Seq<char>>, section: Option<Seq<char>>) -> Option<u64> {
    match section {
        Some(x) => if first_pos(sections, x) >= 0 { Some(first_pos(sections, x) as u64) } else { None },
        None => None,
    }
}

pub open spec fn text_or_empty(o: Option<Seq<char>>) -> Seq<char> {
    match o {
        Some(t) => t,
        None => Seq::empty(),
    }
}

fn position_of_name(v: &Vec<String>, x: &String) -> (r: Option<usize>)
    ensures
        match r {
            Some(i) => first_pos(v.deep_view(), x@) == i,
            None => first_pos(v.deep_view(), x@) == -1,
        },
{
    proof {
        lemma_first_pos(v.deep_view(), x@);
    }
    let mut i: usize = 0;
    while i < v.len()
        invariant
            i <= v.len(),
            forall|j: int| 0 <= j < i ==> v.deep_view()[j] != x@,
        decreases v.len() - i,
    {
        if v[i] == *x {
            proof {
                lemma_first_pos(v.deep_view(), x@);
                assert(v.deep_view()[i as int] == x@);
                if first_pos(v.deep_view(), x@) != i {
                    assert(first_pos(v.deep_view(), x@) >= 0);
                }
            }
            return Some(i);
        }
        i = i + 1;
    }
    None
}

fn owned_or_empty(o: &Option<String>) -> (r: String)
    ensures
        r@ == text_or_empty(o.deep_view()),
{
    match o {
        Some(t) => t.clone(),
        None => String::new(),
    }
}

impl RecipeEditor {
    /// The editor for a recipe: sections numbered from 0, then the ingredient
    /// rows, then the steps, in order; an ingredient row is put in the first
    /// section of its section's name; `quantities` are the rows' quantity
    /// texts, formatted by the caller.
    pub fn from_detail(detail: &RecipeDetail, quantities: &Vec<String>) -> (r: RecipeEditor)
        requires
            quantities.len() == detail.ingredients.len(),
            detail.sections.len() + detail.ingredients.len() + detail.instructions.len() <= u64::MAX,
        ensures
            r.wf(),
            r.name@ == detail.name@,
            r.sections.len() == detail.sections.len(),
            forall|i: int| 0 <= i < detail.sections.len() ==> #[trigger] r.sections.deep_view()[i]
                == (SectionRowView { id: i as u64, name: detail.sections.deep_view()[i] }),
            r.rows.len() == detail.ingredients.len(),
            forall|i: int| 0 <= i < detail.ingredients.len() ==> #[trigger] r.rows.deep_view()[i] == (IngredientRowView {
                id: (detail.sections.len() + i) as u64,
                section_id: loaded_section(detail.sections.deep_view(), detail.ingredients.deep_view()[i].section),
                name: detail.ingredients.deep_view()[i].name,
                quantity: quantities.deep_view()[i],
                unit: text_or_empty(detail.ingredients.deep_view()[i].unit),
                prep: text_or_empty(detail.ingredients.deep_view()[i].prep),
            }),
            r.steps.len() == detail.instructions.len(),
            forall|i: int| 0 <= i < detail.instructions.len() ==> #[trigger] r.steps.deep_view()[i]
                == (StepRowView { id: (detail.sections.len() + detail.ingredients.len() + i) as u64, text: detail.instructions.deep_view()[i] }),
            r.next_id == detail.sections.len() + detail.ingredients.len() + detail.instructions.len(),
    {
        let ns = detail.sections.len();
        let ni = detail.ingredients.len();
        let nk = detail.instructions.len();
        let mut sections: Vec<SectionRow> = Vec::new();
        let mut i: usize = 0;
        while i < ns
            invariant
                ns == detail.sections.len(),
                i <= ns,
                ns + ni + nk <= u64::MAX,
                sections.len() == i,
                forall|j: int| 0 <= j < i ==> #[trigger] sections.deep_view()[j]
                    == (SectionRowView { id: j as u64, name: detail.sections.deep_view()[j] }),
            decreases ns - i,
        {
            let ghost s0 = sections.deep_view();
            let row = SectionRow { id: i as u64, name: detail.sections[i].clone() };
            sections.push(row);
            proof {
                assert(sections.deep_view() =~= s0.push(row.deep_view()));
            }
            i = i + 1;
        }
        let mut rows: Vec<IngredientRow> = Vec::new();
        let mut k: usize = 0;
        while k < ni
            invariant
                ns == detail.sections.len(),
                ni == detail.ingredients.len(),
                quantities.len() == ni,
                k <= ni,
                ns + ni + nk <= u64::MAX,
                rows.len() == k,
                forall|j: int| 0 <= j < k ==> #[trigger] rows.deep_view()[j] == (IngredientRowView {
                    id: (ns + j) as u64,
                    section_id: loaded_section(detail.sections.deep_view(), detail.ingredients.deep_view()[j].section),
                    name: detail.ingredients.deep_view()[j].name,
                    quantity: quantities.deep_view()[j],
                    unit: text_or_empty(detail.ingredients.deep_view()[j].unit),
                    prep: text_or_empty(detail.ingredients.deep_view()[j].prep),
                }),
            decreases ni - k,
        {
            let ing = &detail.ingredients[k];
            let section_id = match &ing.section {
                Some(x) => match position_of_name(&detail.sections, x) {
                    Some(p) => Some(p as u64),
                    None => None,
                },
                None => None,
            };
            let ghost r0 = rows.deep_view();
            let row = IngredientRow {
                id: ns as u64 + k as u64,
                section_id,
                name: ing.name.clone(),
                quantity: quantities[k].clone(),
                unit: owned_or_empty(&ing.unit),
                prep: owned_or_empty(&ing.prep),
            };
            rows.push(row);
            proof {
                assert(rows.deep_view() =~= r0.push(row.deep_view()));
                assert(detail.ingredients.deep_view()[k as int] == ing.deep_view());
            }
            k = k + 1;
        }
        let mut steps: Vec<StepRow> = Vec::new();
        let mut t: usize = 0;
        while t < nk
            invariant
                ns == detail.sections.len(),
                ni == detail.ingredients.len(),
                nk == detail.instructions.len(),
                t <= nk,
                ns + ni + nk <= u64::MAX,
                steps.len() == t,
                forall|j: int| 0 <= j < t ==> #[trigger] steps.deep_view()[j]
                    == (StepRowView { id: (ns + ni + j) as u64, text: detail.instructions.deep_view()[j] }),
            decreases nk - t,
        {
            let ghost t0 = steps.deep_view();
            let row = StepRow { id: ns as u64 + ni as u64 + t as u64, text: detail.instructions[t].clone() };
            steps.push(row);
            proof {
                assert(steps.deep_view() =~= t0.push(row.deep_view()));
            }
            t = t + 1;
        }
        let r = RecipeEditor {
            name: detail.name.clone(),
            sections,
            rows,
            steps,
            next_id: ns as u64 + ni as u64 + nk as u64,
        };
        proof {
            let sids = section_ids(r.sections.deep_view());
            let rids = row_ids(r.rows.deep_view());
            let tids = step_ids(r.steps.deep_view());
            assert forall|j: int| 0 <= j < sids.len() implies sids[j] == j by {
                assert(r.sections.deep_view()[j].id == j as u64);
            }
            assert forall|j: int| 0 <= j < rids.len() implies rids[j] == ns + j by {
                assert(r.rows.deep_view()[j].id == (ns + j) as u64);
            }
            assert forall|j: int| 0 <= j < tids.len() implies tids[j] == ns + ni + j by {
                assert(r.steps.deep_view()[j].id == (ns + ni + j) as u64);
            }
            let rv = r.rows.deep_view();
            assert forall|k: int| 0 <= k < rv.len() && (#[trigger] rv[k]).section_id is Some
                implies sids.contains(rv[k].section_id->0) by {
                let sec = detail.ingredients.deep_view()[k].section;
                lemma_first_pos(detail.sections.deep_view(), sec->0);
                let p = first_pos(detail.sections.deep_view(), sec->0);
                assert(0 <= p < sids.len());
                assert(sids[p] == p);
                assert(rv[k].section_id->0 == p as u64);
            }
        }
        r
    }
}


// ---------------------------------------------------------------------------
// What the form shows and submits
// ---------------------------------------------------------------------------

/// `"\u{2013}"`, shown for an ingredient with neither quantity nor unit.
pub open spec fn en_dash() -> Seq<char> {
    seq!['\u{2013}']
}

/// The amount column of an ingredient row, e.g. `180 g`.
pub open spec fn amount_of(quantity: Seq<char>, unit: Seq<char>) -> Seq<char> {
    let q = trim_seq(quantity);
    let u = trim_seq(unit);
    if q.len() == 0 && u.len() == 0 {
        en_dash()
    } else {
        q + (if q.len() > 0 && u.len() > 0 { seq![' '] } else { Seq::empty() }) + u
    }
}

/// Amount column of an ingredient row, e.g. `180 g`, or `–` when missing.
pub fn amount_text(row: &IngredientRow) -> (r: String)
    ensures
        r@ == amount_of(row.quantity@, row.unit@),
{
    let qty = trim(row.quantity.as_str());
    let unit = trim(row.unit.as_str());
    if qty.as_str().is_empty() && unit.as_str().is_empty() {
        let dash = "\u{2013}".to_owned();
        proof {
            reveal_strlit("\u{2013}");
            assert(dash@ =~= en_dash());
        }
        return dash;
    }
    let mut text = qty.clone();
    if !qty.as_str().is_empty() && !unit.as_str().is_empty() {
        text.append(" ");
        proof {
            reveal_strlit(" ");
        }
    }
    text.append(unit.as_str());
    proof {
        reveal_strlit(" ");
        assert(text@ =~= amount_of(row.quantity@, row.unit@));
    }
    text
}

/// An ingredient row as listed, with its amount column.
pub struct GroupEntry {
    pub row: IngredientRow,
    pub amount: String,
}

pub struct GroupEntryView {
    pub row: IngredientRowView,
    pub amount: Seq<char>,
}

impl DeepView for GroupEntry {
    type V = GroupEntryView;

    open spec fn deep_view(&self) -> GroupEntryView {
        GroupEntryView { row: self.row.deep_view(), amount: self.amount@ }
    }
}

/// A section header (none for unsectioned rows) and the rows under it.
pub struct EditorGroup {
    pub section: Option<SectionRow>,
    pub entries: Vec<GroupEntry>,
}

pub struct EditorGroupView {
    pub section: Option<SectionRowView>,
    pub entries: Seq<GroupEntryView>,
}

impl DeepView for EditorGroup {
    type V = EditorGroupView;

    open spec fn deep_view(&self) -> EditorGroupView {
        EditorGroupView { section: self.section.deep_view(), entries: self.entries.deep_view() }
    }
}

pub open spec fn in_target(target: Option<u64>) -> spec_fn(IngredientRowView) -> bool {
    |x: IngredientRowView| x.section_id == target
}

pub open spec fn entry_of(r: IngredientRowView) -> GroupEntryView {
    GroupEntryView { row: r, amount: amount_of(r.quantity, r.unit) }
}

/// The listed rows of a section (or of none), in order.
pub open spec fn entries_of(rows: Seq<IngredientRowView>, target: Option<u64>) -> Seq<GroupEntryView> {
    rows.filter(in_target(target)).map_values(|r: IngredientRowView| entry_of(r))
}

/// The ingredient list as shown: unsectioned rows first (when there are
/// any), then every section in order, empty sections included.
pub open spec fn editor_groups(sections: Seq<SectionRowView>, rows: Seq<IngredientRowView>) -> Seq<EditorGroupView> {
    let plain = entries_of(rows, None);
    let head: Seq<EditorGroupView> = if plain.len() > 0 {
        seq![EditorGroupView { section: None, entries: plain }]
    } else {
        Seq::empty()
    };
    head + sections.map_values(
        |s: SectionRowView| EditorGroupView { section: Some(s), entries: entries_of(rows, Some(s.id)) },
    )
}

fn entries_for(rows: &Vec<IngredientRow>, target: Option<u64>) -> (r: Vec<GroupEntry>)
    ensures
        r.deep_view() == entries_of(rows.deep_view(), target),
{
    let ghost a = rows.deep_view();
    let mut r: Vec<GroupEntry> = Vec::new();
    let mut i: usize = 0;
    while i < rows.len()
        invariant
            i <= rows.len(),
            a == rows.deep_view(),
            r.deep_view() == entries_of(a.take(i as int), target),
        decreases rows.len() - i,
    {
        proof {
            a.take(i as int).lemma_filter_push(a[i as int], in_target(target));
            assert(a.take(i + 1) =~= a.take(i as int).push(a[i as int]));
        }
        if rows[i].section_id == target {
            let ghost r0 = r.deep_view();
            let entry = GroupEntry { row: rows[i].duplicate(), amount: amount_text(&rows[i]) };
            r.push(entry);
            proof {
                assert(r.deep_view() =~= r0.push(entry_of(a[i as int])));
                assert(entries_of(a.take(i + 1), target) =~= entries_of(a.take(i as int), target).push(entry_of(a[i as int])));
            }
        } else {
            proof {
                assert(entries_of(a.take(i + 1), target) =~= entries_of(a.take(i as int), target));
            }
        }
        i = i + 1;
    }
    proof {
        assert(a.take(a.len() as int) =~= a);
    }
    r
}

/// A submitted ingredient: its quantity is still the typed text, which the
/// caller turns into a number.
pub struct IngredientDraft {
    pub quantity: String,
    pub unit: Option<String>,
    pub name: String,
    pub prep: Option<String>,
    pub section: Option<String>,
}

pub struct IngredientDraftView {
    pub quantity: Seq<char>,
    pub unit: Option<Seq<char>>,
    pub name: Seq<char>,
    pub prep: Option<Seq<char>>,
    pub section: Option<Seq<char>>,
}

impl DeepView for IngredientDraft {
    type V = IngredientDraftView;

    open spec fn deep_view(&self) -> IngredientDraftView {
        IngredientDraftView {
            quantity: self.quantity@,
            unit: self.unit.deep_view(),
            name: self.name@,
            prep: self.prep.deep_view(),
            section: self.section.deep_view(),
        }
    }
}

/// What the form submits.
pub struct RecipeDraft {
    pub name: String,
    pub sections: Vec<String>,
    pub ingredients: Vec<IngredientDraft>,
    pub instructions: Vec<String>,
}

pub struct RecipeDraftView {
    pub name: Seq<char>,
    pub sections: Seq<Seq<char>>,
    pub ingredients: Seq<IngredientDraftView>,
    pub instructions: Seq<Seq<char>>,
}

impl DeepView for RecipeDraft {
    type V = RecipeDraftView;

    open spec fn deep_view(&self) -> RecipeDraftView {
        RecipeDraftView {
            name: self.name@,
            sections: self.sections.deep_view(),
            ingredients: self.ingredients.deep_view(),
            instructions: self.instructions.deep_view(),
        }
    }
}

pub open spec fn named_row() -> spec_fn(IngredientRowView) -> bool {
    |r: IngredientRowView| !is_blank_seq(r.name)
}

/// The trimmed name of the first section with the given id.
pub open spec fn section_name_of(sections: Seq<SectionRowView>, section_id: Option<u64>) -> Option<Seq<char>> {
    match section_id {
        Some(id) => {
            let k = first_index(section_ids(sections), id);
            if k >= 0 { Some(trim_seq(sections[k].name)) } else { None }
        },
        None => None,
    }
}

pub open spec fn draft_of(r: IngredientRowView, sections: Seq<SectionRowView>) -> IngredientDraftView {
    IngredientDraftView {
        quantity: trim_seq(r.quantity),
        unit: norm_opt(Some(r.unit)),
        name: trim_seq(r.name),
        prep: norm_opt(Some(r.prep)),
        section: section_name_of(sections, r.section_id),
    }
}

/// The submitted ingredients: rows with a name, in order.
pub open spec fn drafts_of(rows: Seq<IngredientRowView>, sections: Seq<SectionRowView>) -> Seq<IngredientDraftView> {
    rows.filter(named_row()).map_values(|r: IngredientRowView| draft_of(r, sections))
}

/// `"Please enter a recipe name."`.
pub open spec fn missing_name_text() -> Seq<char> {
    "Please enter a recipe name."@
}

/// What the form submits: the trimmed name, which must not be blank; the
/// non-blank section names and step texts, trimmed; the named ingredients.
pub open spec fn draft_result(e: RecipeEditor) -> Result<RecipeDraftView, Seq<char>> {
    if is_blank_seq(e.name@) {
        Err(missing_name_text())
    } else {
        Ok(RecipeDraftView {
            name: trim_seq(e.name@),
            sections: trimmed_nonblank(e.sections.deep_view().map_values(|s: SectionRowView| s.name)),
            ingredients: drafts_of(e.rows.deep_view(), e.sections.deep_view()),
            instructions: trimmed_nonblank(e.steps.deep_view().map_values(|t: StepRowView| t.text)),
        })
    }
}

fn section_name(sections: &Vec<SectionRow>, section_id: Option<u64>) -> (r: Option<String>)
    ensures
        r.deep_view() == section_name_of(sections.deep_view(), section_id),
{
    match section_id {
        Some(id) => {
            let mut i: usize = 0;
            while i < sections.len()
                invariant
                    i <= sections.len(),
                    section_id == Some(id),
                    forall|j: int| 0 <= j < i ==> section_ids(sections.deep_view())[j] != id,
                decreases sections.len() - i,
            {
                proof {
                    assert(section_ids(sections.deep_view())[i as int] == sections@[i as int].id);
                    assert(sections.deep_view()[i as int].name == sections@[i as int].name@);
                }
                if sections[i].id == id {
                    proof {
                        let ids = section_ids(sections.deep_view());
                        lemma_first_index(ids, id);
                        assert(ids[i as int] == id);
                        let f = first_index(ids, id);
                        assert(f >= 0);
                        if f < i {
                            assert(ids[f] == id);
                        }
                        if f > i {
                            assert(ids[i as int] != id);
                        }
                        assert(f == i);
                        assert(section_id == Some(id));
                        assert(first_index(section_ids(sections.deep_view()), id) == i);
                        assert(sections.deep_view()[i as int].name == sections@[i as int].name@);
                        assert(section_name_of(sections.deep_view(), section_id) == Some(trim_seq(sections.deep_view()[i as int].name)));
                    }
                    return Some(trim(sections[i].name.as_str()));
                }
                i = i + 1;
            }
            proof {
                lemma_first_index(section_ids(sections.deep_view()), id);
            }
            None
        },
        None => None,
    }
}

impl RecipeEditor {
    /// The ingredient list as shown, grouped by section.
    pub fn groups(&self) -> (r: Vec<EditorGroup>)
        ensures
            r.deep_view() == editor_groups(self.sections.deep_view(), self.rows.deep_view()),
    {
        let mut groups: Vec<EditorGroup> = Vec::new();
        let plain = entries_for(&self.rows, None);
        if plain.len() > 0 {
            groups.push(EditorGroup { section: None, entries: plain });
        }
        let ghost head = groups.deep_view();
        let ghost secs = self.sections.deep_view();
        let mut i: usize = 0;
        while i < self.sections.len()
            invariant
                i <= self.sections.len(),
                secs == self.sections.deep_view(),
                groups.deep_view() == head + secs.take(i as int).map_values(
                    |s: SectionRowView| EditorGroupView { section: Some(s), entries: entries_of(self.rows.deep_view(), Some(s.id)) },
                ),
            decreases self.sections.len() - i,
        {
            let ghost g0 = groups.deep_view();
            let g = EditorGroup {
                section: Some(self.sections[i].duplicate()),
                entries: entries_for(&self.rows, Some(self.sections[i].id)),
            };
            let ghost gv = g.deep_view();
            groups.push(g);
            proof {
                assert(gv == (EditorGroupView { section: Some(secs[i as int]), entries: entries_of(self.rows.deep_view(), Some(secs[i as int].id)) }));
                assert(groups.deep_view() =~= g0.push(gv));
                assert(secs.take(i + 1) =~= secs.take(i as int).push(secs[i as int]));
                assert(secs.take(i + 1).map_values(
                    |s: SectionRowView| EditorGroupView { section: Some(s), entries: entries_of(self.rows.deep_view(), Some(s.id)) },
                ) =~= secs.take(i as int).map_values(
                    |s: SectionRowView| EditorGroupView { section: Some(s), entries: entries_of(self.rows.deep_view(), Some(s.id)) },
                ).push(gv));
                assert(groups.deep_view() =~= head + secs.take(i + 1).map_values(
                    |s: SectionRowView| EditorGroupView { section: Some(s), entries: entries_of(self.rows.deep_view(), Some(s.id)) },
                ));
            }
            i = i + 1;
        }
        proof {
            assert(secs.take(secs.len() as int) =~= secs);
            assert(groups.deep_view() =~= editor_groups(self.sections.deep_view(), self.rows.deep_view()));
        }
        groups
    }

    /// What the form submits, or the message shown when the name is blank.
    pub fn draft(&self) -> (r: Result<RecipeDraft, String>)
        ensures
            match (r, draft_result(*self)) {
                (Ok(d), Ok(dv)) => d.deep_view() == dv,
                (Err(m), Err(mv)) => m@ == mv,
                _ => false,
            },
    {
        let mut names: Vec<String> = Vec::new();
        let mut i: usize = 0;
        while i < self.sections.len()
            invariant
                i <= self.sections.len(),
                names.deep_view() == self.sections.deep_view().take(i as int).map_values(|s: SectionRowView| s.name),
            decreases self.sections.len() - i,
        {
            let ghost n0 = names.deep_view();
            names.push(self.sections[i].name.clone());
            proof {
                assert(names.deep_view() =~= n0.push(self.sections.deep_view()[i as int].name));
                assert(self.sections.deep_view().take(i + 1) =~= self.sections.deep_view().take(i as int).push(self.sections.deep_view()[i as int]));
                assert(names.deep_view() =~= self.sections.deep_view().take(i + 1).map_values(|s: SectionRowView| s.name));
            }
            i = i + 1;
        }
        proof {
            assert(self.sections.deep_view().take(self.sections.len() as int) =~= self.sections.deep_view());
        }
        let sections = trim_nonblank_list(&names);
        let mut texts: Vec<String> = Vec::new();
        let mut k: usize = 0;
        while k < self.steps.len()
            invariant
                k <= self.steps.len(),
                texts.deep_view() == self.steps.deep_view().take(k as int).map_values(|t: StepRowView| t.text),
            decreases self.steps.len() - k,
        {
            let ghost x0 = texts.deep_view();
            texts.push(self.steps[k].text.clone());
            proof {
                assert(texts.deep_view() =~= x0.push(self.steps.deep_view()[k as int].text));
                assert(self.steps.deep_view().take(k + 1) =~= self.steps.deep_view().take(k as int).push(self.steps.deep_view()[k as int]));
                assert(texts.deep_view() =~= self.steps.deep_view().take(k + 1).map_values(|t: StepRowView| t.text));
            }
            k = k + 1;
        }
        proof {
            assert(self.steps.deep_view().take(self.steps.len() as int) =~= self.steps.deep_view());
        }
        let instructions = trim_nonblank_list(&texts);
        let ghost a = self.rows.deep_view();
        let ghost sv = self.sections.deep_view();
        let mut drafts: Vec<IngredientDraft> = Vec::new();
        let mut j: usize = 0;
        while j < self.rows.len()
            invariant
                j <= self.rows.len(),
                a == self.rows.deep_view(),
                sv == self.sections.deep_view(),
                drafts.deep_view() == drafts_of(a.take(j as int), sv),
            decreases self.rows.len() - j,
        {
            let row = &self.rows[j];
            proof {
                a.take(j as int).lemma_filter_push(a[j as int], named_row());
                assert(a.take(j + 1) =~= a.take(j as int).push(a[j as int]));
                assert(row.deep_view() == a[j as int]);
            }
            if !is_blank(row.name.as_str()) {
                let ghost d0 = drafts.deep_view();
                let d = IngredientDraft {
                    quantity: trim(row.quantity.as_str()),
                    unit: normalize_optional(&Some(row.unit.clone())),
                    name: trim(row.name.as_str()),
                    prep: normalize_optional(&Some(row.prep.clone())),
                    section: section_name(&self.sections, row.section_id),
                };
                drafts.push(d);
                proof {
                    assert(d.deep_view() == draft_of(a[j as int], sv));
                    assert(drafts.deep_view() =~= d0.push(draft_of(a[j as int], sv)));
                    assert(drafts_of(a.take(j + 1), sv) =~= drafts_of(a.take(j as int), sv).push(draft_of(a[j as int], sv)));
                }
            } else {
                proof {
                    assert(drafts_of(a.take(j + 1), sv) =~= drafts_of(a.take(j as int), sv));
                }
            }
            j = j + 1;
        }
        proof {
            assert(a.take(a.len() as int) =~= a);
        }
        let name = trim(self.name.as_str());
        if name.as_str().is_empty() {
            let m = "Please enter a recipe name.".to_owned();
            return Err(m);
        }
        Ok(RecipeDraft { name, sections, ingredients: drafts, instructions })
    }
}

// ---------------------------------------------------------------------------
// Moving back undoes a move
// ---------------------------------------------------------------------------

proof fn lemma_scan_down(secs: Seq<Option<u64>>, s: Option<u64>, j: int)
    requires
        0 <= j,
    ensures
        scan_down(secs, s, j) >= 0 ==> {
            let r = scan_down(secs, s, j);
            &&& j <= r < secs.len()
            &&& secs[r] == s
            &&& forall|k: int| j <= k < r ==> secs[k] != s
        },
    decreases secs.len() - j,
{
    if j < secs.len() && secs[j] != s {
        lemma_scan_down(secs, s, j + 1);
    }
}

proof fn lemma_scan_up(secs: Seq<Option<u64>>, s: Option<u64>, j: int)
    requires
        j < secs.len(),
    ensures
        scan_up(secs, s, j) >= 0 ==> {
            let r = scan_up(secs, s, j);
            &&& 0 <= r <= j
            &&& secs[r] == s
            &&& forall|k: int| r < k <= j ==> secs[k] != s
        },
    decreases j + 1,
{
    if j >= 0 && secs[j] != s {
        lemma_scan_up(secs, s, j - 1);
    }
}

proof fn lemma_scan_up_finds(secs: Seq<Option<u64>>, s: Option<u64>, i: int, m: int)
    requires
        0 <= i <= m < secs.len(),
        secs[i] == s,
        forall|k: int| i < k <= m ==> secs[k] != s,
    ensures
        scan_up(secs, s, m) == i,
    decreases m - i,
{
    if m > i {
        lemma_scan_up_finds(secs, s, i, m - 1);
    }
}

proof fn lemma_scan_down_finds(secs: Seq<Option<u64>>, s: Option<u64>, i: int, m: int)
    requires
        0 <= m <= i < secs.len(),
        secs[i] == s,
        forall|k: int| m <= k < i ==> secs[k] != s,
    ensures
        scan_down(secs, s, m) == i,
    decreases i - m,
{
    if m < i {
        lemma_scan_down_finds(secs, s, i, m + 1);
    }
}

/// After exchanging positions `i` and `n`, the first position of the id that
/// was at `i` is `n`, when ids are distinct.
proof fn lemma_first_index_swapped(ids: Seq<u64>, i: int, n: int)
    requires
        ids.no_duplicates(),
        0 <= i < ids.len(),
        0 <= n < ids.len(),
        i != n,
    ensures
        first_index(swapped(ids, i, n), ids[i]) == n,
        first_index(ids, ids[i]) == i,
{
    let t = swapped(ids, i, n);
    lemma_first_index(t, ids[i]);
    lemma_first_index(ids, ids[i]);
    let f = first_index(t, ids[i]);
    if f != n {
        assert(t[n] == ids[i]);
        assert(f >= 0);
        assert(f < n);
        assert(t[f] == ids[i]);
        if f == i {
            assert(t[i] == ids[n]);
        } else {
            assert(t[f] == ids[f]);
        }
    }
    let g = first_index(ids, ids[i]);
    if g != i {
        assert(g >= 0 && g < i);
    }
}

/// What the form submits keeps what was typed: it is refused exactly when the
/// name is blank; otherwise the name is trimmed, and the submitted
/// ingredients are the rows with a non-blank name, in order, each with its
/// name and quantity trimmed and its unit and preparation trimmed, absent
/// exactly when blank; a row in no section is submitted in none.
pub proof fn law_draft_keeps_fields(e: RecipeEditor)
    ensures
        draft_result(e) is Ok <==> !is_blank_seq(e.name@),
        draft_result(e) matches Ok(d) ==> d.name == trim_seq(e.name@),
        draft_result(e) matches Ok(d) ==> d.ingredients.len()
            == e.rows.deep_view().filter(|r: IngredientRowView| !is_blank_seq(r.name)).len(),
        draft_result(e) matches Ok(d) ==> forall|k: int| 0 <= k < d.ingredients.len() ==> {
            let r = e.rows.deep_view().filter(|r: IngredientRowView| !is_blank_seq(r.name))[k];
            let i = #[trigger] d.ingredients[k];
            &&& !is_blank_seq(r.name)
            &&& i.name == trim_seq(r.name)
            &&& i.quantity == trim_seq(r.quantity)
            &&& (i.unit is None <==> is_blank_seq(r.unit))
            &&& (i.unit matches Some(u) ==> u == trim_seq(r.unit))
            &&& (i.prep is None <==> is_blank_seq(r.prep))
            &&& (i.prep matches Some(p) ==> p == trim_seq(r.prep))
            &&& (r.section_id is None ==> i.section is None)
        },
{
    let named = e.rows.deep_view().filter(|r: IngredientRowView| !is_blank_seq(r.name));
    assert(named_row() =~= (|r: IngredientRowView| !is_blank_seq(r.name)));
    assert(e.rows.deep_view().filter(named_row()) == named);
    if let Ok(d) = draft_result(e) {
        assert forall|k: int| 0 <= k < d.ingredients.len() implies {
            let r = named[k];
            let i = #[trigger] d.ingredients[k];
            &&& !is_blank_seq(r.name)
            &&& i.name == trim_seq(r.name)
            &&& i.quantity == trim_seq(r.quantity)
            &&& (i.unit is None <==> is_blank_seq(r.unit))
            &&& (i.unit matches Some(u) ==> u == trim_seq(r.unit))
            &&& (i.prep is None <==> is_blank_seq(r.prep))
            &&& (i.prep matches Some(p) ==> p == trim_seq(r.prep))
            &&& (r.section_id is None ==> i.section is None)
        } by {
            e.rows.deep_view().lemma_filter_pred(named_row(), k);
        }
    }
}

/// The ids of every section, ingredient row and step of an editor, in that
/// order.
pub open spec fn all_ids(e: RecipeEditor) -> Seq<u64> {
    section_ids(e.sections.deep_view()) + row_ids(e.rows.deep_view()) + step_ids(e.steps.deep_view())
}

/// In every editor state (loading a recipe makes one; every dialog save,
/// deletion and move keeps one, and `next_id` only grows): the ids of all
/// sections, ingredient rows and steps are pairwise distinct and below
/// `next_id`, and every ingredient row is in no section or in a current one.
pub proof fn law_editor_ids(e: RecipeEditor)
    requires
        e.wf(),
    ensures
        ids_distinct(all_ids(e)),
        ids_below(all_ids(e), e.next_id),
        forall|k: int| 0 <= k < e.rows.len() && (#[trigger] e.rows@[k]).section_id is Some
            ==> exists|j: int| 0 <= j < e.sections.len() && e.sections@[j].id == e.rows@[k].section_id->0,
{
    let x = section_ids(e.sections.deep_view());
    let y = row_ids(e.rows.deep_view());
    let z = step_ids(e.steps.deep_view());
    let all = all_ids(e);
    assert(all =~= x + y + z);
    assert forall|i: int| 0 <= i < all.len() implies #[trigger] all[i] < e.next_id by {
        if i < x.len() {
            assert(all[i] == x[i]);
        } else if i < x.len() + y.len() {
            assert(all[i] == y[i - x.len()]);
        } else {
            assert(all[i] == z[i - x.len() - y.len()]);
        }
    }
    assert forall|i: int, j: int| 0 <= i < all.len() && 0 <= j < all.len() && i != j implies all[i] != all[j] by {
        let xl = x.len() as int;
        let yl = y.len() as int;
        if i < xl {
            assert(all[i] == x[i]);
        } else if i < xl + yl {
            assert(all[i] == y[i - xl]);
        } else {
            assert(all[i] == z[i - xl - yl]);
        }
        if j < xl {
            assert(all[j] == x[j]);
        } else if j < xl + yl {
            assert(all[j] == y[j - xl]);
        } else {
            assert(all[j] == z[j - xl - yl]);
        }
    }
    assert forall|k: int| 0 <= k < e.rows.len() && (#[trigger] e.rows@[k]).section_id is Some
        implies exists|j: int| 0 <= j < e.sections.len() && e.sections@[j].id == e.rows@[k].section_id->0 by {
        assert(e.rows.deep_view()[k].section_id == e.rows@[k].section_id);
        let v = e.rows@[k].section_id->0;
        assert(x.contains(v));
        let j = choose|j: int| 0 <= j < x.len() && x[j] == v;
        assert(e.sections.deep_view()[j].id == e.sections@[j].id);
    }
}

/// Moving a section back the other way after a move restores the order,
/// when section ids are distinct.
pub proof fn law_section_move_undone(s: Seq<SectionRowView>, id: u64, down: bool)
    requires
        section_ids(s).no_duplicates(),
        moved_adjacent(s, first_index(section_ids(s), id), down) is Some,
    ensures
        ({
            let t = moved_adjacent(s, first_index(section_ids(s), id), down)->0;
            moved_adjacent(t, first_index(section_ids(t), id), !down) == Some(s)
        }),
{
    let ids = section_ids(s);
    let i = first_index(ids, id);
    lemma_first_index(ids, id);
    let n = if down { i + 1 } else { i - 1 };
    let t = swapped(s, i, n);
    assert(section_ids(t) =~= swapped(ids, i, n));
    lemma_first_index_swapped(ids, i, n);
    assert(swapped(t, n, i) =~= s);
}

/// Moving a step back the other way after a move restores the order, when
/// step ids are distinct.
pub proof fn law_step_move_undone(s: Seq<StepRowView>, id: u64, down: bool)
    requires
        step_ids(s).no_duplicates(),
        moved_adjacent(s, first_index(step_ids(s), id), down) is Some,
    ensures
        ({
            let t = moved_adjacent(s, first_index(step_ids(s), id), down)->0;
            moved_adjacent(t, first_index(step_ids(t), id), !down) == Some(s)
        }),
{
    let ids = step_ids(s);
    let i = first_index(ids, id);
    lemma_first_index(ids, id);
    let n = if down { i + 1 } else { i - 1 };
    let t = swapped(s, i, n);
    assert(step_ids(t) =~= swapped(ids, i, n));
    lemma_first_index_swapped(ids, i, n);
    assert(swapped(t, n, i) =~= s);
}

/// Moving an ingredient back the other way after a move within its section
/// restores the order, when row ids are distinct.
pub proof fn law_ingredient_move_undone(s: Seq<IngredientRowView>, id: u64, down: bool)
    requires
        row_ids(s).no_duplicates(),
        moved_in_section(s, first_index(row_ids(s), id), down) is Some,
    ensures
        ({
            let t = moved_in_section(s, first_index(row_ids(s), id), down)->0;
            moved_in_section(t, first_index(row_ids(t), id), !down) == Some(s)
        }),
{
    let ids = row_ids(s);
    let secs = row_sections(s);
    let i = first_index(ids, id);
    lemma_first_index(ids, id);
    let n = sibling(secs, i, down);
    let sec = secs[i];
    if down {
        lemma_scan_down(secs, sec, i + 1);
    } else {
        lemma_scan_up(secs, sec, i - 1);
    }
    let t = swapped(s, i, n);
    assert(row_ids(t) =~= swapped(ids, i, n));
    lemma_first_index_swapped(ids, i, n);
    assert(row_sections(t) =~= secs);
    if down {
        lemma_scan_up_finds(secs, sec, i, n - 1);
    } else {
        lemma_scan_down_finds(secs, sec, i, n + 1);
    }
    assert(sibling(row_sections(t), n, !down) == i);
    assert(swapped(t, n, i) =~= s);
}

} // verus!
