use vstd::prelude::*;
use crate::block::BlockType;
use crate::inventory::{ItemType, ResourceType, ToolType};

verus! {

/// Identifier of a crafting recipe.
pub type RecipeId = String;

/// One item requirement of a recipe.
#[derive(Debug, Clone, Copy, PartialEq, Eq, Hash, Structural)]
pub struct RecipeIngredient {
    pub item_type: ItemType,
    pub quantity: u32,
}

impl RecipeIngredient {
    pub fn new(item_type: ItemType, quantity: u32) -> (r: RecipeIngredient)
        ensures
            r.item_type == item_type,
            r.quantity == quantity,
    {
        RecipeIngredient { item_type, quantity }
    }
}

/// What a recipe makes.
#[derive(Debug, Clone, Copy, PartialEq, Eq, Structural)]
pub struct RecipeOutput {
    pub item_type: ItemType,
    pub quantity: u32,
}

impl RecipeOutput {
    pub fn new(item_type: ItemType, quantity: u32) -> (r: RecipeOutput)
        ensures
            r.item_type == item_type,
            r.quantity == quantity,
    {
        RecipeOutput { item_type, quantity }
    }
}

/// Size of the crafting grid a recipe needs.
#[derive(Debug, Clone, Copy, PartialEq, Eq, Hash, Structural)]
pub enum CraftingGridSize {
    Size1x1,
    Size2x2,
    Size3x3,
}

impl CraftingGridSize {
    /// Number of cells of the grid.
    pub open spec fn size_spec(self) -> nat {
        match self {
            CraftingGridSize::Size1x1 => 1,
            CraftingGridSize::Size2x2 => 4,
            CraftingGridSize::Size3x3 => 9,
        }
    }

    /// Number of cells of the grid: 1, 4 or 9.
    pub fn size(&self) -> (r: usize)
        ensures
            r == self.size_spec(),
    {
        match self {
            CraftingGridSize::Size1x1 => 1,
            CraftingGridSize::Size2x2 => 4,
            CraftingGridSize::Size3x3 => 9,
        }
    }
}

/// Quantity of the first entry of `available` that holds items of type `t`.
pub open spec fn first_quantity(available: Seq<(ItemType, u32)>, t: ItemType) -> Option<u32>
    decreases available.len(),
{
    if available.len() == 0 {
        None
    } else if available[0].0 == t {
        Some(available[0].1)
    } else {
        first_quantity(available.drop_first(), t)
    }
}

/// Whether `available` covers `ingredient`: its first entry of the
/// ingredient's type holds at least the required quantity.
pub open spec fn covers(available: Seq<(ItemType, u32)>, ingredient: RecipeIngredient) -> bool {
    match first_quantity(available, ingredient.item_type) {
        Some(q) => q >= ingredient.quantity,
        None => false,
    }
}

/// Whether `available` covers every ingredient of `ingredients`.
pub open spec fn covers_all(available: Seq<(ItemType, u32)>, ingredients: Seq<RecipeIngredient>) -> bool {
    forall|i: int| 0 <= i < ingredients.len() ==> covers(available, #[trigger] ingredients[i])
}

/// Whether the first entry of `available` that holds items of type `t`
/// exists and holds at least `q` of them.
pub open spec fn first_entry_holds(available: Seq<(ItemType, u32)>, t: ItemType, q: u32) -> bool {
    exists|j: int|
        0 <= j < available.len() && available[j].0 == t && available[j].1 >= q && forall|k: int|
            0 <= k < j ==> (#[trigger] available[k]).0 != t
}

/// An ingredient is covered exactly when the first entry of its item type
/// holds at least the required quantity.
pub proof fn lemma_covers_first_entry(available: Seq<(ItemType, u32)>, ingredient: RecipeIngredient)
    ensures
        covers(available, ingredient) == first_entry_holds(
            available,
            ingredient.item_type,
            ingredient.quantity,
        ),
    decreases available.len(),
{
    let t = ingredient.item_type;
    let q = ingredient.quantity;
    if available.len() == 0 {
    } else if available[0].0 == t {
        if first_entry_holds(available, t, q) {
            let j = choose|j: int|
                0 <= j < available.len() && available[j].0 == t && available[j].1 >= q && forall|k: int|
                    0 <= k < j ==> (#[trigger] available[k]).0 != t;
            if j > 0 {
                assert(available[0].0 != t);
            }
        }
        if available[0].1 >= q {
            assert(forall|k: int| 0 <= k < 0 ==> (#[trigger] available[k]).0 != t);
        }
    } else {
        let rest = available.drop_first();
        lemma_covers_first_entry(rest, ingredient);
        if first_entry_holds(rest, t, q) {
            let j = choose|j: int|
                0 <= j < rest.len() && rest[j].0 == t && rest[j].1 >= q && forall|k: int|
                    0 <= k < j ==> (#[trigger] rest[k]).0 != t;
            assert(available[j + 1] == rest[j]);
            assert forall|k: int| 0 <= k < j + 1 implies (#[trigger] available[k]).0 != t by {
                if k > 0 {
                    assert(available[k] == rest[k - 1]);
                }
            }
        }
        if first_entry_holds(available, t, q) {
            let j = choose|j: int|
                0 <= j < available.len() && available[j].0 == t && available[j].1 >= q && forall|k: int|
                    0 <= k < j ==> (#[trigger] available[k]).0 != t;
            assert(j > 0);
            assert(rest[j - 1] == available[j]);
            assert forall|k: int| 0 <= k < j - 1 implies (#[trigger] rest[k]).0 != t by {
                assert(rest[k] == available[k + 1]);
            }
        }
    }
}

/// A recipe can be made exactly when, for every ingredient, the first entry
/// of `available` of that ingredient's item type exists and holds at least
/// the required quantity.
pub proof fn lemma_covers_all_iff(available: Seq<(ItemType, u32)>, ingredients: Seq<RecipeIngredient>)
    ensures
        covers_all(available, ingredients) <==> forall|i: int|
            0 <= i < ingredients.len() ==> first_entry_holds(
                available,
                (#[trigger] ingredients[i]).item_type,
                ingredients[i].quantity,
            ),
{
    assert forall|i: int| 0 <= i < ingredients.len() implies covers(available, #[trigger] ingredients[i])
        == first_entry_holds(available, ingredients[i].item_type, ingredients[i].quantity) by {
        lemma_covers_first_entry(available, ingredients[i]);
    }
}

/// A complete crafting recipe.
#[derive(Debug, Clone)]
pub struct CraftingRecipe {
    pub id: RecipeId,
    pub name: String,
    pub grid_size: CraftingGridSize,
    pub ingredients: Vec<RecipeIngredient>,
    pub output: RecipeOutput,
}

impl CraftingRecipe {
    pub fn new(
        id: RecipeId,
        name: String,
        grid_size: CraftingGridSize,
        ingredients: Vec<RecipeIngredient>,
        output: RecipeOutput,
    ) -> (r: CraftingRecipe)
        ensures
            r.id@ == id@,
            r.name@ == name@,
            r.grid_size == grid_size,
            r.ingredients@ == ingredients@,
            r.output == output,
    {
        CraftingRecipe { id, name, grid_size, ingredients, output }
    }

    /// Whether `available_items` covers every ingredient: for each, the first
    /// entry of its item type holds at least the required quantity.
    pub fn can_craft(&self, available_items: &[(ItemType, u32)]) -> (r: bool)
        ensures
            r == covers_all(available_items@, self.ingredients@),
            r <==> forall|i: int|
                0 <= i < self.ingredients@.len() ==> first_entry_holds(
                    available_items@,
                    (#[trigger] self.ingredients@[i]).item_type,
                    self.ingredients@[i].quantity,
                ),
    {
        proof {
            lemma_covers_all_iff(available_items@, self.ingredients@);
        }
        let mut i: usize = 0;
        while i < self.ingredients.len()
            invariant
                i <= self.ingredients@.len(),
                forall|k: int| 0 <= k < i ==> covers(available_items@, #[trigger] self.ingredients@[k]),
            decreases self.ingredients.len() - i,
        {
            let required = self.ingredients[i];
            if !covered(available_items, &required) {
                proof {
                    lemma_covers_first_entry(available_items@, required);
                    assert(!first_entry_holds(
                        available_items@,
                        self.ingredients@[i as int].item_type,
                        self.ingredients@[i as int].quantity,
                    ));
                }
                return false;
            }
            i = i + 1;
        }
        true
    }

    /// A copy of the recipe.
    pub fn duplicate(&self) -> (r: CraftingRecipe)
        ensures
            r.same_as(*self),
    {
        let mut ingredients: Vec<RecipeIngredient> = Vec::new();
        let mut i: usize = 0;
        while i < self.ingredients.len()
            invariant
                i <= self.ingredients@.len(),
                ingredients@ == self.ingredients@.take(i as int),
            decreases self.ingredients.len() - i,
        {
            ingredients.push(self.ingredients[i]);
            i = i + 1;
        }
        assert(ingredients@ =~= self.ingredients@);
        CraftingRecipe {
            id: self.id.clone(),
            name: self.name.clone(),
            grid_size: self.grid_size,
            ingredients,
            output: self.output,
        }
    }

    /// Whether `self` and `other` have the same id, name, grid, ingredients and output.
    pub open spec fn same_as(&self, other: CraftingRecipe) -> bool {
        &&& self.id@ == other.id@
        &&& self.name@ == other.name@
        &&& self.grid_size == other.grid_size
        &&& self.ingredients@ == other.ingredients@
        &&& self.output == other.output
    }
}

/// Whether the first entry of `available` of the ingredient's type holds enough.
fn covered(available: &[(ItemType, u32)], required: &RecipeIngredient) -> (r: bool)
    ensures
        r == covers(available@, *required),
{
    let mut j: usize = 0;
    assert(available@.skip(0) =~= available@);
    while j < available.len()
        invariant
            j <= available@.len(),
            first_quantity(available@, required.item_type) == first_quantity(
                available@.skip(j as int),
                required.item_type,
            ),
        decreases available.len() - j,
    {
        proof {
            assert(available@.skip(j as int)[0] == available@[j as int]);
            assert(available@.skip(j as int).drop_first() =~= available@.skip(j + 1));
        }
        let (t, q) = available[j];
        if t == required.item_type {
            return q >= required.quantity;
        }
        j = j + 1;
    }
    proof {
        assert(available@.skip(j as int) =~= Seq::<(ItemType, u32)>::empty());
    }
    false
}

/// Index of the first recipe of `recipes` with id `id`.
pub open spec fn recipe_index(recipes: Seq<CraftingRecipe>, id: Seq<char>) -> Option<int>
    decreases recipes.len(),
{
    if recipes.len() == 0 {
        None
    } else if recipes[0].id@ == id {
        Some(0)
    } else {
        match recipe_index(recipes.drop_first(), id) {
            Some(i) => Some(i + 1),
            None => None,
        }
    }
}

/// All known crafting recipes.
#[derive(Debug, Clone)]
pub struct RecipeBook {
    pub recipes: Vec<CraftingRecipe>,
}

impl RecipeBook {
    /// A book without recipes.
    pub fn new() -> (r: RecipeBook)
        ensures
            r.recipes@ == Seq::<CraftingRecipe>::empty(),
    {
        RecipeBook { recipes: Vec::new() }
    }

    /// Adds `recipe` at the end of the book.
    pub fn add_recipe(&mut self, recipe: CraftingRecipe)
        ensures
            final(self).recipes@ == old(self).recipes@.push(recipe),
    {
        self.recipes.push(recipe);
    }

    /// The first recipe with id `id`, if any.
    pub fn get_recipe(&self, id: &RecipeId) -> (r: Option<&CraftingRecipe>)
        ensures
            match recipe_index(self.recipes@, id@) {
                Some(i) => r == Some(&self.recipes@[i]),
                None => r is None,
            },
    {
        let mut i: usize = 0;
        assert(self.recipes@.skip(0) =~= self.recipes@);
        while i < self.recipes.len()
            invariant
                i <= self.recipes@.len(),
                recipe_index(self.recipes@, id@) == match recipe_index(self.recipes@.skip(i as int), id@) {
                    Some(k) => Some(k + i),
                    None => None,
                },
            decreases self.recipes.len() - i,
        {
            proof {
                assert(self.recipes@.skip(i as int)[0] == self.recipes@[i as int]);
                assert(self.recipes@.skip(i as int).drop_first() =~= self.recipes@.skip(i + 1));
            }
            if self.recipes[i].id == *id {
                return Some(&self.recipes[i]);
            }
            i = i + 1;
        }
        proof {
            assert(self.recipes@.skip(i as int) =~= Seq::<CraftingRecipe>::empty());
        }
        None
    }

    /// Every recipe of the book, in order.
    pub fn get_all_recipes(&self) -> (r: &[CraftingRecipe])
        ensures
            r@ == self.recipes@,
    {
        self.recipes.as_slice()
    }

    /// The recipes that `available_items` can craft, in book order.
    pub fn find_craftable_recipes(&self, available_items: &[(ItemType, u32)]) -> (r: Vec<
        &CraftingRecipe,
    >)
        ensures
            r@.map_values(|x: &CraftingRecipe| *x) == self.recipes@.filter(
                |rec: CraftingRecipe| covers_all(available_items@, rec.ingredients@),
            ),
    {
        let ghost pred = |rec: CraftingRecipe| covers_all(available_items@, rec.ingredients@);
        let mut out: Vec<&CraftingRecipe> = Vec::new();
        let mut i: usize = 0;
        while i < self.recipes.len()
            invariant
                i <= self.recipes@.len(),
                pred == (|rec: CraftingRecipe| covers_all(available_items@, rec.ingredients@)),
                out@.map_values(|x: &CraftingRecipe| *x) == self.recipes@.take(i as int).filter(pred),
            decreases self.recipes.len() - i,
        {
            proof {
                reveal(Seq::filter);
                assert(self.recipes@.take(i + 1).drop_last() =~= self.recipes@.take(i as int));
                assert(self.recipes@.take(i + 1).last() == self.recipes@[i as int]);
            }
            let rec = &self.recipes[i];
            if rec.can_craft(available_items) {
                out.push(rec);
                proof {
                    assert(out@.map_values(|x: &CraftingRecipe| *x) =~= self.recipes@.take(i + 1).filter(
                        pred,
                    ));
                }
            } else {
                proof {
                    assert(out@.map_values(|x: &CraftingRecipe| *x) =~= self.recipes@.take(i + 1).filter(
                        pred,
                    ));
                }
            }
            i = i + 1;
        }
        proof {
            assert(self.recipes@.take(self.recipes@.len() as int) =~= self.recipes@);
        }
        out
    }
}

/// Whether `r` has the given id, name, grid, ingredients and output.
pub open spec fn recipe_is(
    r: CraftingRecipe,
    id: Seq<char>,
    name: Seq<char>,
    grid_size: CraftingGridSize,
    ingredients: Seq<RecipeIngredient>,
    output: RecipeOutput,
) -> bool {
    &&& r.id@ == id
    &&& r.name@ == name
    &&& r.grid_size == grid_size
    &&& r.ingredients@ == ingredients
    &&& r.output == output
}

/// The recipes every new game starts with.
pub open spec fn default_recipes_spec(recipes: Seq<CraftingRecipe>) -> bool {
    let wood = ItemType::Block(BlockType::Wood);
    let stone = ItemType::Block(BlockType::Stone);
    let stick = ItemType::Resource(ResourceType::Stick);
    &&& recipes.len() == 5
    &&& recipe_is(
        recipes[0],
        "wooden_pickaxe"@,
        "Wooden Pickaxe"@,
        CraftingGridSize::Size3x3,
        seq![
            RecipeIngredient { item_type: wood, quantity: 3 },
            RecipeIngredient { item_type: stick, quantity: 2 },
        ],
        RecipeOutput { item_type: ItemType::Tool(ToolType::Pickaxe), quantity: 1 },
    )
    &&& recipe_is(
        recipes[1],
        "stone_pickaxe"@,
        "Stone Pickaxe"@,
        CraftingGridSize::Size3x3,
        seq![
            RecipeIngredient { item_type: stone, quantity: 3 },
            RecipeIngredient { item_type: stick, quantity: 2 },
        ],
        RecipeOutput { item_type: ItemType::Tool(ToolType::Pickaxe), quantity: 1 },
    )
    &&& recipe_is(
        recipes[2],
        "wooden_axe"@,
        "Wooden Axe"@,
        CraftingGridSize::Size3x3,
        seq![
            RecipeIngredient { item_type: wood, quantity: 3 },
            RecipeIngredient { item_type: stick, quantity: 2 },
        ],
        RecipeOutput { item_type: ItemType::Tool(ToolType::Axe), quantity: 1 },
    )
    &&& recipe_is(
        recipes[3],
        "wooden_shovel"@,
        "Wooden Shovel"@,
        CraftingGridSize::Size3x3,
        seq![
            RecipeIngredient { item_type: wood, quantity: 1 },
            RecipeIngredient { item_type: stick, quantity: 2 },
        ],
        RecipeOutput { item_type: ItemType::Tool(ToolType::Shovel), quantity: 1 },
    )
    &&& recipe_is(
        recipes[4],
        "stick"@,
        "Stick"@,
        CraftingGridSize::Size2x2,
        seq![RecipeIngredient { item_type: wood, quantity: 2 }],
        RecipeOutput { item_type: stick, quantity: 4 },
    )
}

/// A two-ingredient recipe.
fn recipe_of_two(
    id: &str,
    name: &str,
    grid_size: CraftingGridSize,
    first: RecipeIngredient,
    second: RecipeIngredient,
    output: RecipeOutput,
) -> (r: CraftingRecipe)
    ensures
        recipe_is(r, id@, name@, grid_size, seq![first, second], output),
{
    let mut ingredients: Vec<RecipeIngredient> = Vec::new();
    ingredients.push(first);
    ingredients.push(second);
    assert(ingredients@ =~= seq![first, second]);
    CraftingRecipe::new(id.to_owned(), name.to_owned(), grid_size, ingredients, output)
}

/// The recipe book of a new game: wooden pickaxe, stone pickaxe, wooden axe,
/// wooden shovel and stick, in that order.
pub fn initialize_recipe_book() -> (r: RecipeBook)
    ensures
        default_recipes_spec(r.recipes@),
{
    let wood = ItemType::Block(BlockType::Wood);
    let stone = ItemType::Block(BlockType::Stone);
    let stick = ItemType::Resource(ResourceType::Stick);
    let mut book = RecipeBook::new();
    book.add_recipe(
        recipe_of_two(
            "wooden_pickaxe",
            "Wooden Pickaxe",
            CraftingGridSize::Size3x3,
            RecipeIngredient::new(wood, 3),
            RecipeIngredient::new(stick, 2),
            RecipeOutput::new(ItemType::Tool(ToolType::Pickaxe), 1),
        ),
    );
    book.add_recipe(
        recipe_of_two(
            "stone_pickaxe",
            "Stone Pickaxe",
            CraftingGridSize::Size3x3,
            RecipeIngredient::new(stone, 3),
            RecipeIngredient::new(stick, 2),
            RecipeOutput::new(ItemType::Tool(ToolType::Pickaxe), 1),
        ),
    );
    book.add_recipe(
        recipe_of_two(
            "wooden_axe",
            "Wooden Axe",
            CraftingGridSize::Size3x3,
            RecipeIngredient::new(wood, 3),
            RecipeIngredient::new(stick, 2),
            RecipeOutput::new(ItemType::Tool(ToolType::Axe), 1),
        ),
    );
    book.add_recipe(
        recipe_of_two(
            "wooden_shovel",
            "Wooden Shovel",
            CraftingGridSize::Size3x3,
            RecipeIngredient::new(wood, 1),
            RecipeIngredient::new(stick, 2),
            RecipeOutput::new(ItemType::Tool(ToolType::Shovel), 1),
        ),
    );
    let mut stick_ingredients: Vec<RecipeIngredient> = Vec::new();
    stick_ingredients.push(RecipeIngredient::new(wood, 2));
    assert(stick_ingredients@ =~= seq![RecipeIngredient { item_type: wood, quantity: 2 }]);
    book.add_recipe(
        CraftingRecipe::new(
            "stick".to_owned(),
            "Stick".to_owned(),
            CraftingGridSize::Size2x2,
            stick_ingredients,
            RecipeOutput::new(stick, 4),
        ),
    );
    book
}

impl Default for RecipeBook {
    /// The recipe book of a new game.
    fn default() -> (r: RecipeBook)
        ensures
            default_recipes_spec(r.recipes@),
    {
        initialize_recipe_book()
    }
}

} // verus!
