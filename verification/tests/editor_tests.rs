use bouedig::editor::{
    amount_text, swap_ingredient, swap_section, swap_step, IngredientRow, RecipeEditor, SectionRow, StepRow,
};
use bouedig::model::{Ingredient, RecipeDetail};
use bouedig::quantity::quantity_check;

fn row(id: u64, section_id: Option<u64>, name: &str) -> IngredientRow {
    IngredientRow {
        id,
        section_id,
        name: name.to_owned(),
        quantity: String::new(),
        unit: String::new(),
        prep: String::new(),
    }
}

fn ids_of_rows(rows: &[IngredientRow]) -> Vec<u64> {
    rows.iter().map(|r| r.id).collect()
}

fn empty_editor() -> RecipeEditor {
    RecipeEditor { name: String::new(), sections: vec![], rows: vec![], steps: vec![], next_id: 0 }
}

fn crepe_detail() -> RecipeDetail {
    let ing = |name: &str, unit: Option<&str>, section: Option<&str>| Ingredient {
        quantity: Some(180f64.to_bits()),
        unit: unit.map(str::to_owned),
        name: name.to_owned(),
        prep: None,
        section: section.map(str::to_owned),
    };
    RecipeDetail {
        id: 1,
        name: "Crêpe".to_owned(),
        sections: vec!["Crêpes".to_owned(), "Filling".to_owned()],
        ingredients: vec![ing("flour", Some("g"), Some("Crêpes")), ing("tomato", None, Some("Filling")), ing("salt", None, None)],
        instructions: vec!["Mix".to_owned(), "Cook".to_owned()],
        image: None,
        thumb: None,
    }
}

#[test]
fn ingredient_moves_skip_other_sections() {
    let mut rows = vec![row(1, Some(10), "a"), row(2, Some(20), "b"), row(3, Some(10), "c")];
    assert!(swap_ingredient(&mut rows, 1, true));
    assert_eq!(ids_of_rows(&rows), vec![3, 2, 1]);
    assert!(!swap_ingredient(&mut rows, 2, true));
    assert!(!swap_ingredient(&mut rows, 2, false));
    assert!(!swap_ingredient(&mut rows, 3, false));
    assert!(!swap_ingredient(&mut rows, 99, true));
    assert!(swap_ingredient(&mut rows, 1, false));
    assert_eq!(ids_of_rows(&rows), vec![1, 2, 3]);
}

#[test]
fn section_and_step_moves_swap_neighbours() {
    let mut secs = vec![SectionRow { id: 1, name: "A".to_owned() }, SectionRow { id: 2, name: "B".to_owned() }];
    assert!(swap_section(&mut secs, 1, true));
    assert_eq!(secs.iter().map(|s| s.id).collect::<Vec<_>>(), vec![2, 1]);
    assert!(!swap_section(&mut secs, 1, true));
    assert!(!swap_section(&mut secs, 2, false));
    let mut steps = vec![StepRow { id: 5, text: "First step".to_owned() }, StepRow { id: 6, text: "Second step".to_owned() }];
    assert!(swap_step(&mut steps, 5, true));
    assert_eq!(steps.iter().map(|s| s.text.as_str()).collect::<Vec<_>>(), vec!["Second step", "First step"]);
    assert!(swap_step(&mut steps, 5, false));
    assert_eq!(steps[0].text, "First step");
}

#[test]
fn moving_down_then_up_restores() {
    let mut ed = RecipeEditor::from_detail(&crepe_detail(), &vec!["180".to_owned(), "180".to_owned(), "180".to_owned()]);
    let before: Vec<u64> = ed.steps.iter().map(|s| s.id).collect();
    assert!(ed.move_step(before[0], true));
    assert!(ed.move_step(before[0], false));
    assert_eq!(ed.steps.iter().map(|s| s.id).collect::<Vec<_>>(), before);
    assert!(ed.move_section(0, true));
    assert_eq!(ed.sections[0].name, "Filling");
    assert!(ed.move_section(0, false));
    assert_eq!(ed.sections[0].name, "Crêpes");
}

#[test]
fn editor_loads_a_recipe() {
    let ed = RecipeEditor::from_detail(&crepe_detail(), &vec!["180".to_owned(), "3".to_owned(), "".to_owned()]);
    assert_eq!(ed.name, "Crêpe");
    assert_eq!(ed.sections.iter().map(|s| (s.id, s.name.as_str())).collect::<Vec<_>>(), vec![(0, "Crêpes"), (1, "Filling")]);
    assert_eq!(ed.rows.iter().map(|r| (r.id, r.section_id)).collect::<Vec<_>>(), vec![(2, Some(0)), (3, Some(1)), (4, None)]);
    assert_eq!(ed.rows[0].unit, "g");
    assert_eq!(ed.rows[1].unit, "");
    assert_eq!(ed.rows[1].quantity, "3");
    assert_eq!(ed.steps.iter().map(|s| s.id).collect::<Vec<_>>(), vec![5, 6]);
    assert_eq!(ed.next_id, 7);
    assert_eq!(ed.default_section(), Some(1));
}

#[test]
fn dialogs_add_rename_and_refuse_blank_names() {
    let mut ed = empty_editor();
    assert_eq!(ed.default_section(), None);
    assert!(!ed.save_section(None, "   "));
    assert!(ed.sections.is_empty());
    assert!(ed.save_section(None, " Base "));
    assert_eq!((ed.sections[0].id, ed.sections[0].name.as_str(), ed.next_id), (0, "Base", 1));
    assert!(ed.save_section(Some(0), "Dough"));
    assert_eq!(ed.sections[0].name, "Dough");
    assert_eq!(ed.next_id, 1);
    assert!(ed.save_ingredient(None, Some(0), " 200 ", " g ", " flour ", " sifted "));
    let r = &ed.rows[0];
    assert_eq!((r.id, r.section_id, r.name.as_str(), r.quantity.as_str(), r.unit.as_str(), r.prep.as_str()), (1, Some(0), "flour", "200", "g", "sifted"));
    assert!(!ed.save_ingredient(Some(1), None, "", "", " ", ""));
    assert_eq!(ed.rows[0].name, "flour");
    assert!(ed.save_step(None, " Mix "));
    assert!(ed.save_step(Some(2), "Stir"));
    assert_eq!(ed.steps.iter().map(|s| (s.id, s.text.as_str())).collect::<Vec<_>>(), vec![(2, "Stir")]);
    assert!(!ed.save_step(None, ""));
}

#[test]
fn deleting_a_section_deletes_its_ingredients() {
    let mut ed = RecipeEditor::from_detail(&crepe_detail(), &vec!["180".to_owned(), "3".to_owned(), "".to_owned()]);
    ed.delete_section(0);
    assert_eq!(ed.sections.iter().map(|s| s.id).collect::<Vec<_>>(), vec![1]);
    assert_eq!(ids_of_rows(&ed.rows), vec![3, 4]);
    ed.delete_ingredient(4);
    assert_eq!(ids_of_rows(&ed.rows), vec![3]);
    ed.delete_step(5);
    assert_eq!(ed.steps.iter().map(|s| s.id).collect::<Vec<_>>(), vec![6]);
}

#[test]
fn groups_list_unsectioned_rows_first() {
    let ed = RecipeEditor::from_detail(&crepe_detail(), &vec!["180".to_owned(), "3".to_owned(), "".to_owned()]);
    let groups = ed.groups();
    assert_eq!(groups.len(), 3);
    assert!(groups[0].section.is_none());
    assert_eq!(groups[0].entries[0].row.name, "salt");
    assert_eq!(groups[0].entries[0].amount, "\u{2013}");
    assert_eq!(groups[1].section.as_ref().unwrap().name, "Crêpes");
    assert_eq!(groups[1].entries[0].amount, "180 g");
    assert_eq!(groups[2].entries[0].amount, "3");
}

#[test]
fn amount_column() {
    let mut r = row(1, None, "x");
    assert_eq!(amount_text(&r), "\u{2013}");
    r.quantity = " 180 ".to_owned();
    r.unit = " g".to_owned();
    assert_eq!(amount_text(&r), "180 g");
    r.quantity = String::new();
    assert_eq!(amount_text(&r), "g");
}

#[test]
fn draft_requires_a_name_and_keeps_named_rows() {
    let mut ed = RecipeEditor::from_detail(&crepe_detail(), &vec!["180".to_owned(), "3".to_owned(), "".to_owned()]);
    ed.set_name("  ".to_owned());
    assert_eq!(ed.draft().err().unwrap(), "Please enter a recipe name.");
    ed.set_name(" Crêpe ".to_owned());
    ed.rows.push(row(100, None, "   "));
    ed.next_id = 101;
    let d = ed.draft().ok().unwrap();
    assert_eq!(d.name, "Crêpe");
    assert_eq!(d.sections, vec!["Crêpes", "Filling"]);
    assert_eq!(d.instructions, vec!["Mix", "Cook"]);
    assert_eq!(d.ingredients.len(), 3);
    assert_eq!(d.ingredients[0].section.as_deref(), Some("Crêpes"));
    assert_eq!(d.ingredients[0].unit.as_deref(), Some("g"));
    assert_eq!(d.ingredients[1].unit, None);
    assert_eq!(d.ingredients[2].section, None);
    assert_eq!(d.ingredients[2].quantity, "");
}

#[test]
fn quantity_must_be_blank_or_positive() {
    let accepted = [
        "", "  ", "200", " 1.5 ", ".5", "5.", "0.25", "007", "+2", "1e2", "1E-3", "2.5e+1", "inf", "Infinity", "+INF",
    ];
    let refused = [
        "0", "0.0", "00", ".", "1..2", "1.2.3", "-1", "-inf", "nan", "abc", "1,5", "1 2", "\u{bd}", "e5", "1e", "1e+", "0e5",
        "+", "++1", "infinit",
    ];
    for q in accepted {
        assert!(quantity_check(q).is_ok(), "{q:?}");
    }
    for q in refused {
        assert_eq!(quantity_check(q).err().as_deref(), Some("Quantity must be a positive number."), "{q:?}");
    }
    for q in accepted.iter().chain(refused.iter()) {
        let t = q.trim();
        let positive = t.is_empty() || t.parse::<f64>().map_or(false, |v| v > 0.0);
        assert_eq!(quantity_check(q).is_ok(), positive, "{q:?}");
    }
}

#[test]
fn invalid_quantity_blocks_the_ingredient_dialog() {
    let mut ed = empty_editor();
    assert!(ed.save_section(None, "Batter"));
    assert!(!ed.save_ingredient(None, Some(0), "0", "", "Flour", ""));
    assert!(ed.rows.is_empty());
    assert_eq!(ed.next_id, 1);
    assert!(!ed.save_ingredient(None, Some(0), "0", "", "", ""));
    assert!(ed.save_ingredient(None, Some(0), "200", "g", "Flour", ""));
    assert!(ed.save_ingredient(None, Some(0), "", "", "Milk", ""));
    assert!(!ed.save_ingredient(Some(1), Some(0), "-3", "g", "Flour", ""));
    assert_eq!(ed.rows[0].quantity, "200");
}

#[test]
fn editor_ids_stay_distinct_and_rows_stay_in_sections() {
    let mut ed = RecipeEditor::from_detail(&crepe_detail(), &vec!["180".to_owned(), "3".to_owned(), "".to_owned()]);
    assert!(ed.save_section(None, "Sauce"));
    assert!(ed.save_ingredient(None, Some(7), "1", "", "cream", ""));
    assert!(ed.save_step(None, "Serve"));
    ed.delete_section(0);
    assert!(!ed.move_ingredient(8, false));
    let mut ids: Vec<u64> = ed.sections.iter().map(|s| s.id).collect();
    ids.extend(ed.rows.iter().map(|r| r.id));
    ids.extend(ed.steps.iter().map(|s| s.id));
    let mut sorted = ids.clone();
    sorted.sort();
    sorted.dedup();
    assert_eq!(sorted.len(), ids.len());
    assert!(ids.iter().all(|&i| i < ed.next_id));
    for row in &ed.rows {
        if let Some(s) = row.section_id {
            assert!(ed.sections.iter().any(|x| x.id == s));
        }
    }
    assert_eq!(ed.next_id, 10);
}
