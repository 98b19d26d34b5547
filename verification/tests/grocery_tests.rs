use bouedig::grocery::{
    bought_flag, group_by_category, grocery_item_from_row, grocery_items_from_rows, new_grocery_request,
    plan_grocery_insert, set_bought, updated_grocery_item, CollapsedGroups, GroceryRow,
};
use bouedig::model::{GroceryItem, GroceryUpdate, NewGroceryItem};

fn item(id: i64, name: &str, bought: bool, category: &str) -> GroceryItem {
    GroceryItem { id, name: name.to_owned(), bought, category: category.to_owned() }
}

#[test]
fn category_defaults_and_persists() {
    let ins = plan_grocery_insert(&NewGroceryItem { name: "Rice".to_owned(), category: None }).ok().unwrap();
    assert_eq!(ins.name, "Rice");
    assert_eq!(ins.category, "Groceries");
    let ins = plan_grocery_insert(&NewGroceryItem { name: " Wine ".to_owned(), category: Some("Online Alcohol".to_owned()) })
        .ok()
        .unwrap();
    assert_eq!(ins.name, "Wine");
    assert_eq!(ins.category, "Online Alcohol");
    let ins = plan_grocery_insert(&NewGroceryItem { name: "Salt".to_owned(), category: Some("   ".to_owned()) }).ok().unwrap();
    assert_eq!(ins.category, "Groceries");
    let ins = plan_grocery_insert(&NewGroceryItem { name: "Oil".to_owned(), category: Some(" Pantry ".to_owned()) }).ok().unwrap();
    assert_eq!(ins.category, "Pantry");
}

#[test]
fn blank_item_name_is_unprocessable() {
    let e = plan_grocery_insert(&NewGroceryItem { name: "  ".to_owned(), category: None }).err().unwrap();
    assert_eq!(e.status, 422);
    assert_eq!(e.message, "item name must not be empty");
    assert!(!e.json);
}

#[test]
fn toggle_bought_round_trips_through_the_row() {
    let flag = bought_flag(GroceryUpdate { bought: true });
    assert_eq!(flag, 1);
    assert_eq!(bought_flag(GroceryUpdate { bought: false }), 0);
    let row = GroceryRow { id: 4, name: "Rice".to_owned(), bought: flag, category: "Groceries".to_owned() };
    let it = updated_grocery_item(Some(row)).ok().unwrap();
    assert_eq!((it.id, it.name.as_str(), it.bought, it.category.as_str()), (4, "Rice", true, "Groceries"));
    let e = updated_grocery_item(None).err().unwrap();
    assert_eq!((e.status, e.message.as_str()), (500, "no such grocery item"));
    assert!(e.json);
}

#[test]
fn rows_become_items() {
    let it = grocery_item_from_row(GroceryRow { id: 1, name: "Milk".to_owned(), bought: 0, category: "Dairy".to_owned() });
    assert!(!it.bought);
    let it = grocery_item_from_row(GroceryRow { id: 1, name: "Milk".to_owned(), bought: 7, category: "Dairy".to_owned() });
    assert!(it.bought);
    let v = grocery_items_from_rows(vec![
        GroceryRow { id: 1, name: "a".to_owned(), bought: 0, category: "x".to_owned() },
        GroceryRow { id: 2, name: "b".to_owned(), bought: 1, category: "y".to_owned() },
    ]);
    assert_eq!(v.len(), 2);
    assert_eq!((v[1].id, v[1].bought), (2, true));
}

#[test]
fn items_group_by_category_in_first_seen_order() {
    let groups = group_by_category(vec![
        item(1, "Rice", false, "Groceries"),
        item(2, "Wine", false, "Online Alcohol"),
        item(3, "Salt", true, "Groceries"),
    ]);
    assert_eq!(groups.len(), 2);
    assert_eq!(groups[0].category, "Groceries");
    assert_eq!(groups[0].items.iter().map(|i| i.id).collect::<Vec<_>>(), vec![1, 3]);
    assert_eq!(groups[1].category, "Online Alcohol");
    assert_eq!(groups[1].items.len(), 1);
    assert!(group_by_category(vec![]).is_empty());
}

#[test]
fn set_bought_changes_only_the_first_match() {
    let mut items = vec![item(1, "a", false, "x"), item(2, "b", false, "x"), item(2, "c", false, "x")];
    set_bought(&mut items, 2, true);
    assert_eq!(items.iter().map(|i| i.bought).collect::<Vec<_>>(), vec![false, true, false]);
    set_bought(&mut items, 9, true);
    assert_eq!(items.iter().map(|i| i.bought).collect::<Vec<_>>(), vec![false, true, false]);
}

#[test]
fn collapsing_twice_restores() {
    let mut c = CollapsedGroups::new();
    let g = "Groceries".to_owned();
    assert!(!c.is_collapsed(&g));
    c.toggle(g.clone());
    assert!(c.is_collapsed(&g));
    assert!(!c.is_collapsed(&"Other".to_owned()));
    c.toggle(g.clone());
    assert!(!c.is_collapsed(&g));
}

#[test]
fn new_request_requires_a_name() {
    assert!(new_grocery_request("  ".to_owned(), "Pantry").is_none());
    let r = new_grocery_request("Eggs".to_owned(), "  ").unwrap();
    assert_eq!(r.name, "Eggs");
    assert_eq!(r.category, None);
    let r = new_grocery_request("Eggs".to_owned(), " Dairy ").unwrap();
    assert_eq!(r.category.as_deref(), Some("Dairy"));
}
