use bevy_craft::block::BlockType;
use bevy_craft::crafting::{
    initialize_recipe_book, CraftingGridSize, CraftingRecipe, RecipeBook, RecipeIngredient,
    RecipeOutput,
};
use bevy_craft::inventory::{ItemType, ResourceType, ToolType};

fn stone_pickaxe_with_pickaxe_ingredient() -> CraftingRecipe {
    CraftingRecipe::new(
        "stone_pickaxe".to_string(),
        "Stone Pickaxe".to_string(),
        CraftingGridSize::Size3x3,
        vec![
            RecipeIngredient::new(ItemType::Block(BlockType::Stone), 3),
            RecipeIngredient::new(ItemType::Tool(ToolType::Pickaxe), 1),
        ],
        RecipeOutput::new(ItemType::Tool(ToolType::Pickaxe), 1),
    )
}

#[test]
fn test_ingredient_creation() {
    let ingredient = RecipeIngredient::new(ItemType::Block(BlockType::Stone), 2);
    assert_eq!(ingredient.quantity, 2);
}

#[test]
fn test_crafting_grid_size() {
    assert_eq!(CraftingGridSize::Size1x1.size(), 1);
    assert_eq!(CraftingGridSize::Size2x2.size(), 4);
    assert_eq!(CraftingGridSize::Size3x3.size(), 9);
}

#[test]
fn test_recipe_can_craft() {
    let recipe = stone_pickaxe_with_pickaxe_ingredient();
    let available_items = vec![
        (ItemType::Block(BlockType::Stone), 3),
        (ItemType::Tool(ToolType::Pickaxe), 1),
    ];
    assert!(recipe.can_craft(&available_items));
}

#[test]
fn test_recipe_cannot_craft_insufficient() {
    let recipe = stone_pickaxe_with_pickaxe_ingredient();
    let available_items = vec![(ItemType::Block(BlockType::Stone), 2)];
    assert!(!recipe.can_craft(&available_items));
}

#[test]
fn can_craft_looks_only_at_first_entry_of_a_kind() {
    let recipe = stone_pickaxe_with_pickaxe_ingredient();
    let available_items = vec![
        (ItemType::Block(BlockType::Stone), 1),
        (ItemType::Block(BlockType::Stone), 10),
        (ItemType::Tool(ToolType::Pickaxe), 1),
    ];
    assert!(!recipe.can_craft(&available_items));
}

#[test]
fn can_craft_without_ingredients_always_succeeds() {
    let recipe = CraftingRecipe::new(
        "free".to_string(),
        "Free".to_string(),
        CraftingGridSize::Size1x1,
        vec![],
        RecipeOutput::new(ItemType::Block(BlockType::Dirt), 1),
    );
    assert!(recipe.can_craft(&[]));
}

#[test]
fn default_recipe_book_holds_five_recipes_in_order() {
    let book = initialize_recipe_book();
    let ids: Vec<&str> = book.get_all_recipes().iter().map(|r| r.id.as_str()).collect();
    assert_eq!(
        ids,
        vec!["wooden_pickaxe", "stone_pickaxe", "wooden_axe", "wooden_shovel", "stick"]
    );
    let stick = book.get_recipe(&"stick".to_string()).unwrap();
    assert_eq!(stick.name, "Stick");
    assert_eq!(stick.grid_size, CraftingGridSize::Size2x2);
    assert_eq!(stick.ingredients, vec![RecipeIngredient::new(ItemType::Block(BlockType::Wood), 2)]);
    assert_eq!(stick.output, RecipeOutput::new(ItemType::Resource(ResourceType::Stick), 4));
    let default_book = RecipeBook::default();
    assert_eq!(default_book.recipes.len(), 5);
}

#[test]
fn get_recipe_of_unknown_id_is_none() {
    let book = initialize_recipe_book();
    assert!(book.get_recipe(&"diamond_sword".to_string()).is_none());
    assert!(RecipeBook::new().get_recipe(&"stick".to_string()).is_none());
}

#[test]
fn get_recipe_returns_first_of_equal_ids() {
    let mut book = RecipeBook::new();
    book.add_recipe(CraftingRecipe::new(
        "x".to_string(),
        "First".to_string(),
        CraftingGridSize::Size1x1,
        vec![],
        RecipeOutput::new(ItemType::Block(BlockType::Dirt), 1),
    ));
    book.add_recipe(CraftingRecipe::new(
        "x".to_string(),
        "Second".to_string(),
        CraftingGridSize::Size1x1,
        vec![],
        RecipeOutput::new(ItemType::Block(BlockType::Dirt), 2),
    ));
    assert_eq!(book.get_recipe(&"x".to_string()).unwrap().name, "First");
}

#[test]
fn find_craftable_recipes_filters_in_book_order() {
    let book = initialize_recipe_book();
    let available = vec![
        (ItemType::Block(BlockType::Wood), 3),
        (ItemType::Resource(ResourceType::Stick), 2),
    ];
    let found: Vec<&str> = book
        .find_craftable_recipes(&available)
        .iter()
        .map(|r| r.id.as_str())
        .collect();
    assert_eq!(found, vec!["wooden_pickaxe", "wooden_axe", "wooden_shovel", "stick"]);
    assert!(book.find_craftable_recipes(&[]).is_empty());
}
