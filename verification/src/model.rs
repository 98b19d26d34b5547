//! The data the service and its clients exchange, with their mathematical
//! views.
//!
//! An ingredient quantity is a floating-point number in the API; the library
//! only carries it from the request to storage and back, so it holds the
//! number's IEEE-754 bit pattern (`f64::to_bits`), which the edges convert.

use vstd::prelude::*;

verus! {

/// The grocery category of items added without an explicit group.
pub open spec fn default_category_spec() -> Seq<char> {
    seq!['G', 'r', 'o', 'c', 'e', 'r', 'i', 'e', 's']
}

/// `"Groceries"`.
pub fn default_category() -> (r: String)
    ensures
        r@ == default_category_spec(),
{
    let r = "Groceries".to_owned();
    proof {
        reveal_strlit("Groceries");
        assert(r@ =~= default_category_spec());
    }
    r
}

/// A recipe as shown in the grid (summary; no ingredients or instructions).
pub struct Recipe {
    pub id: i64,
    pub name: String,
    /// URL of the full-resolution photo, if one was uploaded.
    pub image: Option<String>,
    /// URL of the compressed thumbnail shown in the recipe grid.
    pub thumb: Option<String>,
}

pub struct RecipeView {
    pub id: i64,
    pub name: Seq<char>,
    pub image: Option<Seq<char>>,
    pub thumb: Option<Seq<char>>,
}

impl DeepView for Recipe {
    type V = RecipeView;

    open spec fn deep_view(&self) -> RecipeView {
        RecipeView {
            id: self.id,
            name: self.name@,
            image: self.image.deep_view(),
            thumb: self.thumb.deep_view(),
        }
    }
}

/// One structured ingredient line of a recipe.
pub struct Ingredient {
    /// Bit pattern of the quantity (e.g. `180`); absent for "salt to taste".
    pub quantity: Option<u64>,
    /// e.g. `g`, `ml`, `tbsp`.
    pub unit: Option<String>,
    /// e.g. `buckwheat flour`.
    pub name: String,
    /// Optional preparation note, e.g. `finely chopped`.
    pub prep: Option<String>,
    /// Section this ingredient belongs to (e.g. "Crêpes", "Filling").
    pub section: Option<String>,
}

pub struct IngredientView {
    pub quantity: Option<u64>,
    pub unit: Option<Seq<char>>,
    pub name: Seq<char>,
    pub prep: Option<Seq<char>>,
    pub section: Option<Seq<char>>,
}

impl DeepView for Ingredient {
    type V = IngredientView;

    open spec fn deep_view(&self) -> IngredientView {
        IngredientView {
            quantity: self.quantity,
            unit: self.unit.deep_view(),
            name: self.name@,
            prep: self.prep.deep_view(),
            section: self.section.deep_view(),
        }
    }
}

/// The full recipe shown on the detail page.
pub struct RecipeDetail {
    pub id: i64,
    pub name: String,
    /// Ordered section names (may include empty sections).
    pub sections: Vec<String>,
    pub ingredients: Vec<Ingredient>,
    /// Ordered instruction steps.
    pub instructions: Vec<String>,
    /// URL of the full-resolution photo, if one was uploaded.
    pub image: Option<String>,
    /// URL of the compressed thumbnail shown in the recipe grid.
    pub thumb: Option<String>,
}

pub struct RecipeDetailView {
    pub id: i64,
    pub name: Seq<char>,
    pub sections: Seq<Seq<char>>,
    pub ingredients: Seq<IngredientView>,
    pub instructions: Seq<Seq<char>>,
    pub image: Option<Seq<char>>,
    pub thumb: Option<Seq<char>>,
}

impl DeepView for RecipeDetail {
    type V = RecipeDetailView;

    open spec fn deep_view(&self) -> RecipeDetailView {
        RecipeDetailView {
            id: self.id,
            name: self.name@,
            sections: self.sections.deep_view(),
            ingredients: self.ingredients.deep_view(),
            instructions: self.instructions.deep_view(),
            image: self.image.deep_view(),
            thumb: self.thumb.deep_view(),
        }
    }
}

/// Payload used to create or update a recipe (name and structured fields).
pub struct RecipeInput {
    pub name: String,
    pub sections: Vec<String>,
    pub ingredients: Vec<Ingredient>,
    pub instructions: Vec<String>,
}

pub struct RecipeInputView {
    pub name: Seq<char>,
    pub sections: Seq<Seq<char>>,
    pub ingredients: Seq<IngredientView>,
    pub instructions: Seq<Seq<char>>,
}

impl DeepView for RecipeInput {
    type V = RecipeInputView;

    open spec fn deep_view(&self) -> RecipeInputView {
        RecipeInputView {
            name: self.name@,
            sections: self.sections.deep_view(),
            ingredients: self.ingredients.deep_view(),
            instructions: self.instructions.deep_view(),
        }
    }
}

/// A grocery list item as stored in the database.
pub struct GroceryItem {
    pub id: i64,
    pub name: String,
    pub bought: bool,
    /// Group the item belongs to (collapsible header in the UI).
    pub category: String,
}

pub struct GroceryItemView {
    pub id: i64,
    pub name: Seq<char>,
    pub bought: bool,
    pub category: Seq<char>,
}

impl DeepView for GroceryItem {
    type V = GroceryItemView;

    open spec fn deep_view(&self) -> GroceryItemView {
        GroceryItemView { id: self.id, name: self.name@, bought: self.bought, category: self.category@ }
    }
}

/// Payload used to add a grocery item manually.
pub struct NewGroceryItem {
    pub name: String,
    pub category: Option<String>,
}

pub struct NewGroceryItemView {
    pub name: Seq<char>,
    pub category: Option<Seq<char>>,
}

impl DeepView for NewGroceryItem {
    type V = NewGroceryItemView;

    open spec fn deep_view(&self) -> NewGroceryItemView {
        NewGroceryItemView { name: self.name@, category: self.category.deep_view() }
    }
}

/// Payload used to flip the `bought` checkbox of a grocery item.
#[derive(Clone, Copy, PartialEq, Eq, Structural)]
pub struct GroceryUpdate {
    pub bought: bool,
}

} // verus!
