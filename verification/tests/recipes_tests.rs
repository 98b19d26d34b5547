use bouedig::errors::{STATUS_INTERNAL, STATUS_NOT_FOUND, STATUS_UNPROCESSABLE};
use bouedig::json::{decode_instructions, decode_string_list, encode_instructions};
use bouedig::model::{default_category, Ingredient, RecipeDetail, RecipeInput};
use bouedig::recipes::{
    complete_sections, contains_string, detail_or_not_found, image_url, inserted_recipe, new_recipe_record,
    normalize_ingredient, normalize_ingredients, normalize_optional, photo_files, plan_recipe_delete,
    plan_recipe_update, recipe_detail, recipe_record, recipe_summaries, recipe_summary, require_updated,
    trim_nonblank_list, validate_recipe_input, ImagePaths, RecipeRecord, RecipeRow, StoredPhoto,
};

fn ing(quantity: Option<f64>, unit: Option<&str>, name: &str, prep: Option<&str>, section: Option<&str>) -> Ingredient {
    Ingredient {
        quantity: quantity.map(f64::to_bits),
        unit: unit.map(str::to_owned),
        name: name.to_owned(),
        prep: prep.map(str::to_owned),
        section: section.map(str::to_owned),
    }
}

fn input(name: &str, sections: &[&str], ingredients: Vec<Ingredient>, instructions: &[&str]) -> RecipeInput {
    RecipeInput {
        name: name.to_owned(),
        sections: sections.iter().map(|s| s.to_string()).collect(),
        ingredients,
        instructions: instructions.iter().map(|s| s.to_string()).collect(),
    }
}

/// Store a record as the service does and read it back under `id`.
fn read_back(id: i64, rec: RecipeRecord) -> RecipeDetail {
    let row = RecipeRow { id, name: rec.name, image_path: rec.image_path, thumb_path: rec.thumb_path };
    recipe_detail(row, Some(rec.instructions), rec.sections, rec.ingredients).ok().unwrap()
}

#[test]
fn created_recipe_reads_back_its_details() {
    let soup = input(
        "Soup",
        &[],
        vec![
            ing(Some(300.0), Some("ml"), "water", None, None),
            ing(Some(1.0), Some("tbsp"), "salt", Some("to taste"), None),
        ],
        &["Boil water", "Add salt"],
    );
    assert!(validate_recipe_input(&soup).is_ok());
    let rec = new_recipe_record(&soup, None).ok().unwrap();
    let summary = inserted_recipe(7, &rec);
    assert_eq!(summary.id, 7);
    assert_eq!(summary.name, "Soup");
    assert_eq!(summary.image, None);
    let detail = read_back(7, rec);
    assert_eq!(detail.id, 7);
    assert_eq!(detail.name, "Soup");
    assert_eq!(detail.ingredients.len(), 2);
    assert_eq!(detail.ingredients[0].name, "water");
    assert_eq!(detail.ingredients[0].unit.as_deref(), Some("ml"));
    assert_eq!(detail.ingredients[1].quantity.map(f64::from_bits), Some(1.0));
    assert_eq!(detail.instructions, vec!["Boil water", "Add salt"]);
    assert!(detail.sections.is_empty());
}

#[test]
fn sections_keep_order_and_gain_referenced_ones() {
    let crepe = input(
        "Crêpe",
        &["Crêpes", "Filling"],
        vec![
            ing(Some(180.0), Some("g"), "buckwheat flour", None, Some("Crêpes")),
            ing(Some(3.0), None, "tomatoes", None, Some("Filling")),
        ],
        &[],
    );
    let detail = read_back(1, new_recipe_record(&crepe, None).ok().unwrap());
    assert_eq!(detail.sections, vec!["Crêpes", "Filling"]);
    assert_eq!(detail.ingredients[0].section.as_deref(), Some("Crêpes"));

    let renamed = input("Crêpe", &["Base", "Empty", "Filling"], vec![ing(Some(1.0), None, "tomato", None, Some("Filling"))], &[]);
    let update = plan_recipe_update(&renamed, None, Some(StoredPhoto { image_path: None, thumb_path: None })).ok().unwrap();
    assert!(update.discard.is_empty());
    let detail = read_back(1, update.record);
    assert_eq!(detail.sections, vec!["Base", "Empty", "Filling"]);
    assert_eq!(detail.ingredients.len(), 1);
    assert_eq!(detail.ingredients[0].section.as_deref(), Some("Filling"));

    let missing = input("X", &["A"], vec![ing(None, None, "egg", None, Some(" B ")), ing(None, None, "milk", None, Some("A"))], &[]);
    assert_eq!(complete_sections(&missing), vec!["A", "B"]);
}

#[test]
fn update_replaces_fields_and_keeps_photo() {
    let new = input("New", &[], vec![ing(Some(2.0), Some("g"), "carrot", Some("grated"), None)], &["step one", "step two"]);
    let old = StoredPhoto { image_path: Some("images/a.png".to_owned()), thumb_path: Some("images/thumbs/a.jpg".to_owned()) };
    let update = plan_recipe_update(&new, None, Some(old)).ok().unwrap();
    assert!(update.discard.is_empty());
    assert_eq!(update.record.image_path.as_deref(), Some("images/a.png"));
    let detail = read_back(3, update.record);
    assert_eq!(detail.name, "New");
    assert_eq!(detail.ingredients.len(), 1);
    assert_eq!(detail.ingredients[0].name, "carrot");
    assert_eq!(detail.ingredients[0].prep.as_deref(), Some("grated"));
    assert_eq!(detail.instructions.len(), 2);
    assert_eq!(detail.image.as_deref(), Some("/api/images/images/a.png"));
    assert_eq!(detail.thumb.as_deref(), Some("/api/images/images/thumbs/a.jpg"));
}

#[test]
fn update_with_new_photo_discards_old_files() {
    let new = input("Cake", &[], vec![], &[]);
    let old = StoredPhoto { image_path: Some("images/old.png".to_owned()), thumb_path: Some("images/thumbs/old.jpg".to_owned()) };
    let paths = ImagePaths { image: "images/new.webp".to_owned(), thumb: "images/thumbs/new.jpg".to_owned() };
    let update = plan_recipe_update(&new, Some(paths), Some(old)).ok().unwrap();
    assert_eq!(update.discard, vec!["images/old.png", "images/thumbs/old.jpg"]);
    assert_eq!(update.record.image_path.as_deref(), Some("images/new.webp"));
    assert_eq!(update.record.thumb_path.as_deref(), Some("images/thumbs/new.jpg"));
}

#[test]
fn update_errors() {
    let blank = input("  ", &[], vec![], &[]);
    let e = plan_recipe_update(&blank, None, None).err().unwrap();
    assert_eq!(e.status, STATUS_UNPROCESSABLE);
    assert_eq!(e.message, "recipe name must not be empty");
    let named = input("Pie", &[], vec![], &[]);
    let e = plan_recipe_update(&named, None, None).err().unwrap();
    assert_eq!(e.status, STATUS_INTERNAL);
    assert_eq!(e.message, "no such recipe");
    assert!(e.json);
    assert!(require_updated(true).is_ok());
    let e = require_updated(false).err().unwrap();
    assert_eq!((e.status, e.message.as_str()), (STATUS_NOT_FOUND, "no such recipe"));
}

#[test]
fn blank_recipe_name_is_unprocessable() {
    let e = validate_recipe_input(&input("   ", &[], vec![], &[])).err().unwrap();
    assert_eq!(e.status, 422);
    assert_eq!(e.message, "recipe name must not be empty");
    assert!(!e.json);
    assert!(validate_recipe_input(&input(" x ", &[], vec![], &[])).is_ok());
}

#[test]
fn delete_then_detail_is_not_found() {
    let files = plan_recipe_delete(Some(StoredPhoto { image_path: Some("images/a.jpg".to_owned()), thumb_path: None })).ok().unwrap();
    assert_eq!(files, vec!["images/a.jpg"]);
    let e = plan_recipe_delete(None).err().unwrap();
    assert_eq!((e.status, e.message.as_str(), e.json), (404, "not found", false));
    let e = detail_or_not_found(None).err().unwrap();
    assert_eq!((e.status, e.message.as_str()), (404, "not found"));
    let d = read_back(5, recipe_record(&input("Goner", &[], vec![], &[]), None, None).ok().unwrap());
    assert_eq!(detail_or_not_found(Some(d)).ok().unwrap().name, "Goner");
    assert!(photo_files(StoredPhoto { image_path: None, thumb_path: None }).is_empty());
}

#[test]
fn ingredient_fields_are_trimmed_and_blank_dropped() {
    let i = normalize_ingredient(&ing(Some(2.5), Some("  "), "  flour ", Some(" sifted "), Some("")));
    assert_eq!(i.name, "flour");
    assert_eq!(i.unit, None);
    assert_eq!(i.prep.as_deref(), Some("sifted"));
    assert_eq!(i.section, None);
    assert_eq!(i.quantity.map(f64::from_bits), Some(2.5));
    assert_eq!(normalize_optional(&Some(" g ".to_owned())).as_deref(), Some("g"));
    assert_eq!(normalize_optional(&None), None);
    let v = normalize_ingredients(&vec![ing(None, None, " a ", None, None), ing(None, None, "b", None, None)]);
    assert_eq!(v.len(), 2);
    assert_eq!(v[0].name, "a");
}

#[test]
fn list_helpers() {
    let v = vec![" a ".to_owned(), "  ".to_owned(), "b".to_owned()];
    assert_eq!(trim_nonblank_list(&v), vec!["a", "b"]);
    assert!(contains_string(&v, &"b".to_owned()));
    assert!(!contains_string(&v, &"a".to_owned()));
}

#[test]
fn image_urls_and_summaries() {
    assert_eq!(image_url(&Some("images/x.png".to_owned())).as_deref(), Some("/api/images/images/x.png"));
    assert_eq!(image_url(&None), None);
    let row = RecipeRow { id: 2, name: "Tart".to_owned(), image_path: None, thumb_path: Some("images/thumbs/t.jpg".to_owned()) };
    let r = recipe_summary(&row);
    assert_eq!((r.id, r.name.as_str()), (2, "Tart"));
    assert_eq!(r.thumb.as_deref(), Some("/api/images/images/thumbs/t.jpg"));
    let all = recipe_summaries(&vec![row]);
    assert_eq!(all.len(), 1);
    assert_eq!(all[0].image, None);
}

#[test]
fn instructions_json_round_trips_and_bad_json_is_reported() {
    let list = vec!["Mix".to_owned(), "Cook \"slowly\"".to_owned()];
    let text = encode_instructions(&list).ok().unwrap();
    assert_eq!(text, r#"["Mix","Cook \"slowly\""]"#);
    assert_eq!(decode_string_list(&text).ok().unwrap(), list);
    assert_eq!(decode_instructions(Some(text)).ok().unwrap(), list);
    assert!(decode_instructions(None).ok().unwrap().is_empty());
    let e = decode_instructions(Some("not json".to_owned())).err().unwrap();
    assert_eq!(e.status, 500);
    assert!(e.json);
    assert!(e.message.starts_with("bad instructions JSON: "), "{}", e.message);
    assert!(decode_string_list("[1]").is_err());
}

#[test]
fn stored_bad_instructions_fail_the_detail() {
    let row = RecipeRow { id: 1, name: "X".to_owned(), image_path: None, thumb_path: None };
    let e = recipe_detail(row, Some("{".to_owned()), vec![], vec![]).err().unwrap();
    assert_eq!(e.status, 500);
}

#[test]
fn default_category_is_groceries() {
    assert_eq!(default_category(), "Groceries");
}
