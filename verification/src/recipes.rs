//! Recipes: validation, normalisation, the layout in which a recipe is
//! stored, and the views rebuilt from stored rows.

use vstd::prelude::*;
use crate::errors::{api_error, not_found_text, plain_error, ApiError, ApiErrorView, STATUS_NOT_FOUND, STATUS_UNPROCESSABLE, STATUS_INTERNAL};
use crate::json::{decode_instructions, decoded_instructions, encode_instructions, json_decode_strings};
use crate::model::{Ingredient, IngredientView, Recipe, RecipeDetail, RecipeDetailView, RecipeInput, RecipeInputView, RecipeView};
use crate::text::{concat, is_blank, is_blank_seq, trim, trim_seq};

verus! {

// ---------------------------------------------------------------------------
// Normalisation
// ---------------------------------------------------------------------------

/// An optional text as stored: trimmed, and absent when blank.
pub open spec fn norm_opt(o: Option<Seq<char>>) -> Option<Seq<char>> {
    match o {
        Some(s) => if is_blank_seq(s) { None } else { Some(trim_seq(s)) },
        None => None,
    }
}

/// An ingredient as stored: name trimmed, optional texts normalised, the
/// quantity unchanged.
pub open spec fn normalized_ingredient(i: IngredientView) -> IngredientView {
    IngredientView {
        quantity: i.quantity,
        unit: norm_opt(i.unit),
        name: trim_seq(i.name),
        prep: norm_opt(i.prep),
        section: norm_opt(i.section),
    }
}

pub open spec fn normalized_ingredients(s: Seq<IngredientView>) -> Seq<IngredientView> {
    s.map_values(|i: IngredientView| normalized_ingredient(i))
}

/// The non-blank entries of a list, trimmed, in order.
pub open spec fn trimmed_nonblank(s: Seq<Seq<char>>) -> Seq<Seq<char>>
    decreases s.len(),
{
    if s.len() == 0 {
        Seq::empty()
    } else {
        let r = trimmed_nonblank(s.drop_last());
        if is_blank_seq(s.last()) {
            r
        } else {
            r.push(trim_seq(s.last()))
        }
    }
}

/// `acc` extended by the sections that the ingredients name and that it
/// lacks, in first-seen order.
pub open spec fn add_ingredient_sections(acc: Seq<Seq<char>>, ings: Seq<IngredientView>) -> Seq<Seq<char>>
    decreases ings.len(),
{
    if ings.len() == 0 {
        acc
    } else {
        let r = add_ingredient_sections(acc, ings.drop_last());
        match norm_opt(ings.last().section) {
            Some(s) => if r.contains(s) { r } else { r.push(s) },
            None => r,
        }
    }
}

/// The input's section list, plus any extra sections referenced by
/// ingredients (appended in first-seen order).
pub open spec fn completed_sections(sections: Seq<Seq<char>>, ings: Seq<IngredientView>) -> Seq<Seq<char>> {
    add_ingredient_sections(trimmed_nonblank(sections), ings)
}

/// Trimmed and absent when blank.
pub fn normalize_optional(o: &Option<String>) -> (r: Option<String>)
    ensures
        r.deep_view() == norm_opt(o.deep_view()),
{
    match o {
        Some(s) => {
            let t = trim(s.as_str());
            if t.as_str().is_empty() {
                None
            } else {
                Some(t)
            }
        },
        None => None,
    }
}

/// The ingredient as it is stored.
pub fn normalize_ingredient(i: &Ingredient) -> (r: Ingredient)
    ensures
        r.deep_view() == normalized_ingredient(i.deep_view()),
{
    Ingredient {
        quantity: i.quantity,
        unit: normalize_optional(&i.unit),
        name: trim(i.name.as_str()),
        prep: normalize_optional(&i.prep),
        section: normalize_optional(&i.section),
    }
}

/// Every ingredient as it is stored, in order.
pub fn normalize_ingredients(v: &Vec<Ingredient>) -> (r: Vec<Ingredient>)
    ensures
        r.deep_view() == normalized_ingredients(v.deep_view()),
{
    let mut r: Vec<Ingredient> = Vec::new();
    let mut i: usize = 0;
    while i < v.len()
        invariant
            i <= v.len(),
            r.deep_view() == normalized_ingredients(v.deep_view().take(i as int)),
        decreases v.len() - i,
    {
        let ghost old_r = r.deep_view();
        let n = normalize_ingredient(&v[i]);
        r.push(n);
        proof {
            assert(r.deep_view() =~= old_r.push(n.deep_view()));
            assert(v.deep_view().take(i + 1) =~= v.deep_view().take(i as int).push(v.deep_view()[i as int]));
            assert(r.deep_view() =~= normalized_ingredients(v.deep_view().take(i + 1)));
        }
        i = i + 1;
    }
    proof {
        assert(v.deep_view().take(v.len() as int) =~= v.deep_view());
    }
    r
}

/// Whether `v` holds a string equal to `s`.
pub fn contains_string(v: &Vec<String>, s: &String) -> (b: bool)
    ensures
        b == v.deep_view().contains(s@),
{
    let mut i: usize = 0;
    while i < v.len()
        invariant
            i <= v.len(),
            forall|j: int| 0 <= j < i ==> v.deep_view()[j] != s@,
        decreases v.len() - i,
    {
        if v[i] == *s {
            proof {
                assert(v.deep_view()[i as int] == s@);
            }
            return true;
        }
        i = i + 1;
    }
    false
}

/// The non-blank entries of a list, trimmed, in order.
pub fn trim_nonblank_list(v: &Vec<String>) -> (r: Vec<String>)
    ensures
        r.deep_view() == trimmed_nonblank(v.deep_view()),
{
    let ghost secs = v.deep_view();
    let mut r: Vec<String> = Vec::new();
    let mut i: usize = 0;
    while i < v.len()
        invariant
            i <= v.len(),
            secs == v.deep_view(),
            r.deep_view() == trimmed_nonblank(secs.take(i as int)),
        decreases v.len() - i,
    {
        let t = trim(v[i].as_str());
        proof {
            assert(secs.take(i + 1).drop_last() =~= secs.take(i as int));
            assert(secs.take(i + 1).last() == secs[i as int]);
        }
        if !t.as_str().is_empty() {
            r.push(t);
            proof {
                assert(r.deep_view() =~= trimmed_nonblank(secs.take(i as int)).push(trim_seq(secs[i as int])));
            }
        }
        i = i + 1;
    }
    proof {
        assert(secs.take(secs.len() as int) =~= secs);
    }
    r
}

/// Every section referenced by an ingredient is in the completed list, and the
/// completed list starts with the given one.
proof fn lemma_add_sections(acc: Seq<Seq<char>>, ings: Seq<IngredientView>)
    ensures
        add_ingredient_sections(acc, ings).len() >= acc.len(),
        add_ingredient_sections(acc, ings).subrange(0, acc.len() as int) == acc,
        forall|j: int| 0 <= j < ings.len() && norm_opt(#[trigger] ings[j].section) is Some
            ==> add_ingredient_sections(acc, ings).contains(norm_opt(ings[j].section)->0),
    decreases ings.len(),
{
    if ings.len() > 0 {
        let prev = ings.drop_last();
        lemma_add_sections(acc, prev);
        let r = add_ingredient_sections(acc, prev);
        let out = add_ingredient_sections(acc, ings);
        assert(out.subrange(0, acc.len() as int) =~= acc) by {
            assert(r.subrange(0, acc.len() as int) == acc);
            if out != r {
                assert forall|k: int| 0 <= k < acc.len() implies out[k] == r[k] by {}
            }
        }
        assert forall|j: int| 0 <= j < ings.len() && norm_opt(#[trigger] ings[j].section) is Some
            implies out.contains(norm_opt(ings[j].section)->0) by {
            if j < ings.len() - 1 {
                assert(prev[j] == ings[j]);
                let x = norm_opt(ings[j].section)->0;
                let k = choose|k: int| 0 <= k < r.len() && r[k] == x;
                assert(out[k] == x);
            } else {
                let x = norm_opt(ings[j].section)->0;
                if !r.contains(x) {
                    assert(out[out.len() - 1] == x);
                }
            }
        }
    }
}

/// The input's section list, trimmed and without blank entries, plus any
/// extra sections referenced by ingredients (appended in first-seen order).
pub fn complete_sections(input: &RecipeInput) -> (r: Vec<String>)
    ensures
        r.deep_view() == completed_sections(input.sections.deep_view(), input.ingredients.deep_view()),
        r.deep_view().subrange(0, trimmed_nonblank(input.sections.deep_view()).len() as int)
            == trimmed_nonblank(input.sections.deep_view()),
        forall|j: int| 0 <= j < input.ingredients.len()
            && norm_opt(#[trigger] input.ingredients.deep_view()[j].section) is Some
            ==> r.deep_view().contains(norm_opt(input.ingredients.deep_view()[j].section)->0),
        trimmed_nonblank(input.sections.deep_view()).no_duplicates() ==> r.deep_view().no_duplicates(),
{
    let ghost ings = input.ingredients.deep_view();
    let mut r = trim_nonblank_list(&input.sections);
    let ghost base = r.deep_view();
    let mut k: usize = 0;
    while k < input.ingredients.len()
        invariant
            k <= input.ingredients.len(),
            ings == input.ingredients.deep_view(),
            r.deep_view() == add_ingredient_sections(base, ings.take(k as int)),
        decreases input.ingredients.len() - k,
    {
        let s = normalize_optional(&input.ingredients[k].section);
        proof {
            assert(ings.take(k + 1).drop_last() =~= ings.take(k as int));
            assert(ings.take(k + 1).last() == ings[k as int]);
        }
        match s {
            Some(name) => {
                if !contains_string(&r, &name) {
                    r.push(name);
                    proof {
                        assert(r.deep_view() =~= add_ingredient_sections(base, ings.take(k as int)).push(
                            norm_opt(ings[k as int].section)->0));
                    }
                }
            },
            None => {},
        }
        k = k + 1;
    }
    proof {
        assert(ings.take(ings.len() as int) =~= ings);
        lemma_add_sections(base, ings);
        if base.no_duplicates() {
            lemma_add_sections_distinct(base, ings);
        }
    }
    r
}

// ---------------------------------------------------------------------------
// Validation
// ---------------------------------------------------------------------------

/// `"recipe name must not be empty"`.
pub open spec fn blank_recipe_name_text() -> Seq<char> {
    seq!['r', 'e', 'c', 'i', 'p', 'e', ' ', 'n', 'a', 'm', 'e', ' ', 'm', 'u', 's', 't', ' ', 'n', 'o', 't', ' ', 'b', 'e', ' ', 'e', 'm', 'p', 't', 'y']
}

/// A recipe needs a name that is not blank.
pub fn validate_recipe_input(input: &RecipeInput) -> (r: Result<(), ApiError>)
    ensures
        r is Ok <==> !is_blank_seq(input.name@),
        r matches Err(e) ==> e.deep_view() == plain_error(STATUS_UNPROCESSABLE, blank_recipe_name_text()),
{
    if is_blank(input.name.as_str()) {
        let text = "recipe name must not be empty".to_owned();
        proof {
            reveal_strlit("recipe name must not be empty");
            assert(text@ =~= blank_recipe_name_text());
        }
        Err(ApiError::plain(STATUS_UNPROCESSABLE, text))
    } else {
        Ok(())
    }
}

// ---------------------------------------------------------------------------
// Stored layout
// ---------------------------------------------------------------------------

/// `"/api/images/"`.
pub open spec fn image_url_prefix() -> Seq<char> {
    seq!['/', 'a', 'p', 'i', '/', 'i', 'm', 'a', 'g', 'e', 's', '/']
}

/// The URL under which a stored image path is served.
pub open spec fn image_url_of(path: Option<Seq<char>>) -> Option<Seq<char>> {
    match path {
        Some(p) => Some(image_url_prefix() + p),
        None => None,
    }
}

/// Stored image paths are relative to the image directory; the API exposes
/// them as URLs under `/api/images/`.
pub fn image_url(path: &Option<String>) -> (r: Option<String>)
    ensures
        r.deep_view() == image_url_of(path.deep_view()),
{
    match path {
        Some(p) => {
            let prefix = "/api/images/";
            proof {
                reveal_strlit("/api/images/");
                assert(prefix@ =~= image_url_prefix());
            }
            Some(concat(prefix, p.as_str()))
        },
        None => None,
    }
}

/// What is written for a recipe: the `recipes` row (trimmed name,
/// instructions as JSON, image paths), the section names in position order
/// and the ingredients in position order.
pub struct RecipeRecord {
    pub name: String,
    pub instructions: String,
    pub image_path: Option<String>,
    pub thumb_path: Option<String>,
    pub sections: Vec<String>,
    pub ingredients: Vec<Ingredient>,
}

pub struct RecipeRecordView {
    pub name: Seq<char>,
    pub instructions: Seq<char>,
    pub image_path: Option<Seq<char>>,
    pub thumb_path: Option<Seq<char>>,
    pub sections: Seq<Seq<char>>,
    pub ingredients: Seq<IngredientView>,
}

impl DeepView for RecipeRecord {
    type V = RecipeRecordView;

    open spec fn deep_view(&self) -> RecipeRecordView {
        RecipeRecordView {
            name: self.name@,
            instructions: self.instructions@,
            image_path: self.image_path.deep_view(),
            thumb_path: self.thumb_path.deep_view(),
            sections: self.sections.deep_view(),
            ingredients: self.ingredients.deep_view(),
        }
    }
}

/// The paths of an uploaded photo and its thumbnail, relative to the image
/// directory.
pub struct ImagePaths {
    pub image: String,
    pub thumb: String,
}

pub open spec fn image_of(p: Option<ImagePaths>) -> Option<Seq<char>> {
    match p {
        Some(p) => Some(p.image@),
        None => None,
    }
}

pub open spec fn thumb_of(p: Option<ImagePaths>) -> Option<Seq<char>> {
    match p {
        Some(p) => Some(p.thumb@),
        None => None,
    }
}

/// A `recipes` row: id, name and image paths.
pub struct RecipeRow {
    pub id: i64,
    pub name: String,
    pub image_path: Option<String>,
    pub thumb_path: Option<String>,
}

/// The grid summary of a stored recipe.
pub open spec fn summary_of(id: i64, name: Seq<char>, image_path: Option<Seq<char>>, thumb_path: Option<Seq<char>>) -> RecipeView {
    RecipeView { id, name, image: image_url_of(image_path), thumb: image_url_of(thumb_path) }
}

/// The detail view of a stored recipe, rebuilt from its row, its stored
/// instructions JSON and its section and ingredient rows in position order.
pub open spec fn detail_of(
    row: RecipeRow,
    instructions: Option<Seq<char>>,
    sections: Seq<Seq<char>>,
    ingredients: Seq<IngredientView>,
) -> Result<RecipeDetailView, ApiErrorView> {
    match decoded_instructions(instructions) {
        Ok(list) => Ok(RecipeDetailView {
            id: row.id,
            name: row.name@,
            sections,
            ingredients,
            instructions: list,
            image: image_url_of(row.image_path.deep_view()),
            thumb: image_url_of(row.thumb_path.deep_view()),
        }),
        Err(e) => Err(e),
    }
}

/// The detail view that a recipe written from `input` (with the given photo
/// paths) is read back as.
pub open spec fn expected_detail(
    id: i64,
    input: RecipeInputView,
    image_path: Option<Seq<char>>,
    thumb_path: Option<Seq<char>>,
) -> RecipeDetailView {
    RecipeDetailView {
        id,
        name: trim_seq(input.name),
        sections: completed_sections(input.sections, input.ingredients),
        ingredients: normalized_ingredients(input.ingredients),
        instructions: input.instructions,
        image: image_url_of(image_path),
        thumb: image_url_of(thumb_path),
    }
}

/// The summary of a recipe row.
pub fn recipe_summary(row: &RecipeRow) -> (r: Recipe)
    ensures
        r.deep_view() == summary_of(row.id, row.name@, row.image_path.deep_view(), row.thumb_path.deep_view()),
{
    Recipe {
        id: row.id,
        name: row.name.clone(),
        image: image_url(&row.image_path),
        thumb: image_url(&row.thumb_path),
    }
}

/// The summaries of the listed recipe rows, in the order given.
pub fn recipe_summaries(rows: &Vec<RecipeRow>) -> (r: Vec<Recipe>)
    ensures
        r.len() == rows.len(),
        forall|i: int| 0 <= i < rows.len() ==> #[trigger] r.deep_view()[i] == summary_of(
            rows@[i].id,
            rows@[i].name@,
            rows@[i].image_path.deep_view(),
            rows@[i].thumb_path.deep_view(),
        ),
{
    let mut r: Vec<Recipe> = Vec::new();
    let mut i: usize = 0;
    while i < rows.len()
        invariant
            i <= rows.len(),
            r.len() == i,
            forall|j: int| 0 <= j < i ==> #[trigger] r.deep_view()[j] == summary_of(
                rows@[j].id,
                rows@[j].name@,
                rows@[j].image_path.deep_view(),
                rows@[j].thumb_path.deep_view(),
            ),
        decreases rows.len() - i,
    {
        let ghost old_r = r.deep_view();
        let x = recipe_summary(&rows[i]);
        r.push(x);
        proof {
            assert(r.deep_view() =~= old_r.push(x.deep_view()));
        }
        i = i + 1;
    }
    r
}

/// `rec` is what a recipe written from `input` with the given photo paths
/// consists of, and reading its rows back under any id gives the trimmed,
/// normalised input.
pub open spec fn record_of_input(
    rec: RecipeRecordView,
    input: RecipeInputView,
    image_path: Option<Seq<char>>,
    thumb_path: Option<Seq<char>>,
) -> bool {
    &&& rec.name == trim_seq(input.name)
    &&& json_decode_strings(rec.instructions) == Ok::<Seq<Seq<char>>, Seq<char>>(input.instructions)
    &&& rec.image_path == image_path
    &&& rec.thumb_path == thumb_path
    &&& rec.sections == completed_sections(input.sections, input.ingredients)
    &&& rec.ingredients == normalized_ingredients(input.ingredients)
}

/// Reading back the rows of a record under `id`: the detail view rebuilt from
/// them.
pub open spec fn read_back(id: i64, rec: RecipeRecord) -> Result<RecipeDetailView, ApiErrorView> {
    detail_of(
        RecipeRow { id, name: rec.name, image_path: rec.image_path, thumb_path: rec.thumb_path },
        Some(rec.instructions@),
        rec.sections.deep_view(),
        rec.ingredients.deep_view(),
    )
}

/// What a recipe is written as: the trimmed name, the instructions encoded as
/// JSON, the photo paths, the completed section list and the normalised
/// ingredients. Reading the written rows back gives the trimmed, normalised
/// input: for any id, the rebuilt detail is the expected one.
pub fn recipe_record(input: &RecipeInput, image_path: Option<String>, thumb_path: Option<String>) -> (r: Result<RecipeRecord, ApiError>)
    ensures
        r is Ok,
        r matches Ok(rec) ==> record_of_input(rec.deep_view(), input.deep_view(), image_path.deep_view(), thumb_path.deep_view()),
        r matches Ok(rec) ==> forall|id: i64| #[trigger] read_back(id, rec) == Ok::<RecipeDetailView, ApiErrorView>(
            expected_detail(id, input.deep_view(), image_path.deep_view(), thumb_path.deep_view())),
{
    let instructions = encode_instructions(&input.instructions)?;
    let sections = complete_sections(input);
    let rec = RecipeRecord {
        name: trim(input.name.as_str()),
        instructions,
        image_path,
        thumb_path,
        sections,
        ingredients: normalize_ingredients(&input.ingredients),
    };
    Ok(rec)
}

/// What a new recipe is written as, with the paths of its photo if one was
/// uploaded.
pub fn new_recipe_record(input: &RecipeInput, image: Option<ImagePaths>) -> (r: Result<RecipeRecord, ApiError>)
    ensures
        r is Ok,
        r matches Ok(rec) ==> record_of_input(rec.deep_view(), input.deep_view(), image_of(image), thumb_of(image)),
        r matches Ok(rec) ==> forall|id: i64| #[trigger] read_back(id, rec) == Ok::<RecipeDetailView, ApiErrorView>(
            expected_detail(id, input.deep_view(), image_of(image), thumb_of(image))),
{
    match image {
        Some(p) => recipe_record(input, Some(p.image), Some(p.thumb)),
        None => recipe_record(input, None, None),
    }
}

/// The photo paths stored with a recipe.
pub struct StoredPhoto {
    pub image_path: Option<String>,
    pub thumb_path: Option<String>,
}

/// The stored files among a photo's paths, image first.
pub open spec fn files_of(p: StoredPhoto) -> Seq<Seq<char>> {
    let a: Seq<Seq<char>> = match p.image_path {
        Some(x) => seq![x@],
        None => Seq::empty(),
    };
    let b: Seq<Seq<char>> = match p.thumb_path {
        Some(x) => seq![x@],
        None => Seq::empty(),
    };
    a + b
}

/// The stored files of a photo, image first.
pub fn photo_files(p: StoredPhoto) -> (r: Vec<String>)
    ensures
        r.deep_view() == files_of(p),
{
    let ghost pv = p;
    let mut r: Vec<String> = Vec::new();
    match p.image_path {
        Some(x) => r.push(x),
        None => {},
    }
    match p.thumb_path {
        Some(x) => r.push(x),
        None => {},
    }
    proof {
        assert(r.deep_view() =~= files_of(pv));
    }
    r
}

/// `"no such recipe"`.
pub open spec fn no_such_recipe_text() -> Seq<char> {
    seq!['n', 'o', ' ', 's', 'u', 'c', 'h', ' ', 'r', 'e', 'c', 'i', 'p', 'e']
}

fn no_such_recipe() -> (r: String)
    ensures
        r@ == no_such_recipe_text(),
{
    let r = "no such recipe".to_owned();
    proof {
        reveal_strlit("no such recipe");
        assert(r@ =~= no_such_recipe_text());
    }
    r
}

/// How a recipe is replaced: the record to write and the stored files that
/// the new photo supersedes.
pub struct RecipeUpdate {
    pub record: RecipeRecord,
    pub discard: Vec<String>,
}

/// Plan the update of a recipe from its new content, the photo uploaded with
/// it (if any) and the photo paths stored with it (absent when no such recipe
/// exists). The name is validated first; a missing recipe is then an internal
/// error (the lookup of its photo paths failed). A new photo replaces the stored
/// one, whose files are discarded; otherwise the stored paths are kept.
pub fn plan_recipe_update(
    input: &RecipeInput,
    new_image: Option<ImagePaths>,
    existing: Option<StoredPhoto>,
) -> (r: Result<RecipeUpdate, ApiError>)
    ensures
        is_blank_seq(input.name@) ==> (r matches Err(e) && e.deep_view() == plain_error(STATUS_UNPROCESSABLE, blank_recipe_name_text())),
        !is_blank_seq(input.name@) && existing is None ==> (r matches Err(e) && e.deep_view() == api_error(STATUS_INTERNAL, no_such_recipe_text())),
        !is_blank_seq(input.name@) && existing is Some ==> r is Ok,
        r matches Ok(u) ==> existing matches Some(old) && match new_image {
            Some(p) => {
                &&& record_of_input(u.record.deep_view(), input.deep_view(), Some(p.image@), Some(p.thumb@))
                &&& u.discard.deep_view() == files_of(old)
            },
            None => {
                &&& record_of_input(u.record.deep_view(), input.deep_view(), old.image_path.deep_view(), old.thumb_path.deep_view())
                &&& u.discard.deep_view() == Seq::<Seq<char>>::empty()
            },
        },
        r matches Ok(u) ==> existing matches Some(old) && forall|id: i64| #[trigger] read_back(id, u.record) == Ok::<RecipeDetailView, ApiErrorView>(
            match new_image {
                Some(p) => expected_detail(id, input.deep_view(), Some(p.image@), Some(p.thumb@)),
                None => expected_detail(id, input.deep_view(), old.image_path.deep_view(), old.thumb_path.deep_view()),
            }),
{
    validate_recipe_input(input)?;
    let old = match existing {
        Some(old) => old,
        None => {
            return Err(ApiError::internal(no_such_recipe()));
        },
    };
    match new_image {
        Some(p) => {
            let record = recipe_record(input, Some(p.image), Some(p.thumb))?;
            Ok(RecipeUpdate { record, discard: photo_files(old) })
        },
        None => {
            let record = recipe_record(input, old.image_path, old.thumb_path)?;
            Ok(RecipeUpdate { record, discard: Vec::new() })
        },
    }
}

/// The answer when the row to update was not found.
pub fn require_updated(updated: bool) -> (r: Result<(), ApiError>)
    ensures
        r is Ok <==> updated,
        r matches Err(e) ==> e.deep_view() == plain_error(STATUS_NOT_FOUND, no_such_recipe_text()),
{
    if updated {
        Ok(())
    } else {
        Err(ApiError::plain(STATUS_NOT_FOUND, no_such_recipe()))
    }
}

/// Plan the deletion of a recipe from the photo paths stored with it (absent
/// when no such recipe exists): the files to remove, or `404 not found`.
pub fn plan_recipe_delete(existing: Option<StoredPhoto>) -> (r: Result<Vec<String>, ApiError>)
    ensures
        match existing {
            Some(p) => r matches Ok(files) && files.deep_view() == files_of(p),
            None => r matches Err(e) && e.deep_view() == plain_error(STATUS_NOT_FOUND, not_found_text()),
        },
{
    match existing {
        Some(p) => Ok(photo_files(p)),
        None => Err(ApiError::not_found()),
    }
}

/// The summary answered after a recipe was inserted under `id`.
pub fn inserted_recipe(id: i64, rec: &RecipeRecord) -> (r: Recipe)
    ensures
        r.deep_view() == summary_of(id, rec.name@, rec.image_path.deep_view(), rec.thumb_path.deep_view()),
{
    Recipe {
        id,
        name: rec.name.clone(),
        image: image_url(&rec.image_path),
        thumb: image_url(&rec.thumb_path),
    }
}

/// Assemble the detail view from the recipe row, its stored instructions
/// JSON and its section and ingredient rows (in position order).
pub fn recipe_detail(
    row: RecipeRow,
    instructions: Option<String>,
    sections: Vec<String>,
    ingredients: Vec<Ingredient>,
) -> (r: Result<RecipeDetail, ApiError>)
    ensures
        match (r, detail_of(row, instructions.deep_view(), sections.deep_view(), ingredients.deep_view())) {
            (Ok(d), Ok(dv)) => d.deep_view() == dv,
            (Err(e), Err(ev)) => e.deep_view() == ev,
            _ => false,
        },
{
    let image = image_url(&row.image_path);
    let thumb = image_url(&row.thumb_path);
    let instructions = decode_instructions(instructions)?;
    Ok(RecipeDetail { id: row.id, name: row.name, sections, ingredients, instructions, image, thumb })
}

/// A looked-up detail, or `404 not found`.
pub fn detail_or_not_found(found: Option<RecipeDetail>) -> (r: Result<RecipeDetail, ApiError>)
    ensures
        match found {
            Some(d) => r == Ok::<RecipeDetail, ApiError>(d),
            None => r matches Err(e) && e.deep_view() == plain_error(STATUS_NOT_FOUND, not_found_text()),
        },
{
    match found {
        Some(d) => Ok(d),
        None => Err(ApiError::not_found()),
    }
}

// ---------------------------------------------------------------------------
// Laws
// ---------------------------------------------------------------------------

proof fn lemma_add_sections_distinct(acc: Seq<Seq<char>>, ings: Seq<IngredientView>)
    requires
        acc.no_duplicates(),
    ensures
        add_ingredient_sections(acc, ings).no_duplicates(),
        forall|k: int| 0 <= k < add_ingredient_sections(acc, ings).len() ==>
            acc.contains(#[trigger] add_ingredient_sections(acc, ings)[k])
            || exists|j: int| 0 <= j < ings.len() && norm_opt(#[trigger] ings[j].section) == Some(add_ingredient_sections(acc, ings)[k]),
    decreases ings.len(),
{
    if ings.len() > 0 {
        let prev = ings.drop_last();
        lemma_add_sections_distinct(acc, prev);
        let r = add_ingredient_sections(acc, prev);
        let out = add_ingredient_sections(acc, ings);
        assert forall|k: int| 0 <= k < out.len() implies
            acc.contains(#[trigger] out[k])
            || exists|j: int| 0 <= j < ings.len() && norm_opt(#[trigger] ings[j].section) == Some(out[k]) by {
            if k < r.len() {
                assert(out[k] == r[k]);
                if !acc.contains(r[k]) {
                    let j = choose|j: int| 0 <= j < prev.len() && norm_opt(#[trigger] prev[j].section) == Some(r[k]);
                    assert(ings[j] == prev[j]);
                }
            } else {
                assert(norm_opt(ings[ings.len() - 1].section) == Some(out[k]));
            }
        }
    }
}

/// Saving a recipe stores each section once: when the given section list
/// (trimmed, blank entries dropped) repeats no name, neither does the stored
/// list, and every stored section is a given one or one an ingredient names.
pub proof fn law_completed_sections_distinct(sections: Seq<Seq<char>>, ings: Seq<IngredientView>)
    requires
        trimmed_nonblank(sections).no_duplicates(),
    ensures
        completed_sections(sections, ings).no_duplicates(),
        forall|k: int| 0 <= k < completed_sections(sections, ings).len() ==>
            trimmed_nonblank(sections).contains(#[trigger] completed_sections(sections, ings)[k])
            || exists|j: int| 0 <= j < ings.len() && norm_opt(#[trigger] ings[j].section) == Some(completed_sections(sections, ings)[k]),
{
    lemma_add_sections_distinct(trimmed_nonblank(sections), ings);
}

/// A recipe's summary gives its photo and its thumbnail each as its own
/// stored path under `/api/images/`, absent exactly when the path is absent:
/// the thumbnail does not depend on the photo, nor the photo on the
/// thumbnail.
pub proof fn law_summary_urls(
    id: i64,
    name: Seq<char>,
    image_path: Option<Seq<char>>,
    thumb_path: Option<Seq<char>>,
    other_image: Option<Seq<char>>,
    other_thumb: Option<Seq<char>>,
)
    ensures
        summary_of(id, name, image_path, thumb_path).id == id,
        summary_of(id, name, image_path, thumb_path).name == name,
        summary_of(id, name, image_path, thumb_path).thumb == summary_of(id, name, other_image, thumb_path).thumb,
        summary_of(id, name, image_path, thumb_path).image == summary_of(id, name, image_path, other_thumb).image,
        summary_of(id, name, image_path, thumb_path).thumb is Some <==> thumb_path is Some,
        summary_of(id, name, image_path, thumb_path).image is Some <==> image_path is Some,
        thumb_path matches Some(p) ==> summary_of(id, name, image_path, thumb_path).thumb == Some("/api/images/"@ + p),
        image_path matches Some(p) ==> summary_of(id, name, image_path, thumb_path).image == Some("/api/images/"@ + p),
{
    reveal_strlit("/api/images/");
    assert("/api/images/"@ =~= image_url_prefix());
}

/// A recipe's detail gives its photo and thumbnail each as its row's own
/// stored path under `/api/images/`, absent exactly when the path is absent.
pub proof fn law_detail_urls(
    row: RecipeRow,
    instructions: Option<Seq<char>>,
    sections: Seq<Seq<char>>,
    ingredients: Seq<IngredientView>,
)
    ensures
        detail_of(row, instructions, sections, ingredients) matches Ok(d) ==> {
            &&& d.id == row.id
            &&& d.name == row.name@
            &&& d.sections == sections
            &&& d.ingredients == ingredients
            &&& (d.thumb is Some <==> row.thumb_path is Some)
            &&& (d.image is Some <==> row.image_path is Some)
            &&& (row.thumb_path matches Some(p) ==> d.thumb == Some("/api/images/"@ + p@))
            &&& (row.image_path matches Some(p) ==> d.image == Some("/api/images/"@ + p@))
        },
{
    reveal_strlit("/api/images/");
    assert("/api/images/"@ =~= image_url_prefix());
}

} // verus!
