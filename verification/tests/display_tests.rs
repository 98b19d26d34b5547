use bouedig::display::{card_initials, detail_groups, ingredient_line};
use bouedig::model::{Ingredient, RecipeDetail};

fn ing(unit: Option<&str>, name: &str, prep: Option<&str>, section: Option<&str>) -> Ingredient {
    Ingredient {
        quantity: None,
        unit: unit.map(str::to_owned),
        name: name.to_owned(),
        prep: prep.map(str::to_owned),
        section: section.map(str::to_owned),
    }
}

#[test]
fn ingredient_lines() {
    let flour = ing(Some("g"), "buckwheat flour", Some("finely chopped"), None);
    assert_eq!(ingredient_line(Some("180"), &flour), "180 g buckwheat flour, finely chopped");
    assert_eq!(ingredient_line(None, &ing(None, "salt", None, None)), "salt");
    assert_eq!(ingredient_line(Some("200"), &ing(Some("g"), "Flour", None, None)), "200 g Flour");
}

#[test]
fn detail_groups_put_plain_ingredients_first() {
    let detail = RecipeDetail {
        id: 1,
        name: "Crêpe".to_owned(),
        sections: vec!["Crêpes".to_owned(), "Empty".to_owned()],
        ingredients: vec![ing(None, "flour", None, Some("Crêpes")), ing(None, "salt", None, None), ing(None, "egg", None, Some("Crêpes"))],
        instructions: vec![],
        image: None,
        thumb: None,
    };
    let groups = detail_groups(&detail);
    assert_eq!(groups.len(), 3);
    assert_eq!(groups[0].section, None);
    assert_eq!(groups[0].ingredients.iter().map(|i| i.name.as_str()).collect::<Vec<_>>(), vec!["salt"]);
    assert_eq!(groups[1].section.as_deref(), Some("Crêpes"));
    assert_eq!(groups[1].ingredients.iter().map(|i| i.name.as_str()).collect::<Vec<_>>(), vec!["flour", "egg"]);
    assert_eq!(groups[2].section.as_deref(), Some("Empty"));
    assert!(groups[2].ingredients.is_empty());

    let only_sections = RecipeDetail { ingredients: vec![ing(None, "flour", None, Some("Crêpes"))], ..detail };
    assert_eq!(detail_groups(&only_sections).len(), 2);
}

#[test]
fn card_initials_take_two_words() {
    assert_eq!(card_initials("buckwheat crêpe with ham"), "BC");
    assert_eq!(card_initials("  soup "), "S");
    assert_eq!(card_initials(""), "");
    assert_eq!(card_initials("éclair au chocolat"), "ÉA");
}
