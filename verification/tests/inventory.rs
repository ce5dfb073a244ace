use bevy_craft::block::BlockType;
use bevy_craft::hotbar_ui::{hotbar_info_line, item_icon_path};
use bevy_craft::inventory::{
    initialize_inventory, inventory_update_system, FoodType, Inventory, ItemStack, ItemType,
    ResourceType, ToolType,
};

fn stone() -> ItemType {
    ItemType::Block(BlockType::Stone)
}

#[test]
fn item_names() {
    assert_eq!(ItemType::Block(BlockType::Grass).name(), "Grass");
    assert_eq!(ItemType::Tool(ToolType::Pickaxe).name(), "Pickaxe");
    assert_eq!(ItemType::Resource(ResourceType::IronIngot).name(), "Iron Ingot");
    assert_eq!(ItemType::Food(FoodType::MeatCooked).name(), "Cooked Meat");
}

#[test]
fn item_stack_add_and_remove() {
    let mut s = ItemStack::new(stone(), 60);
    assert!(s.can_add(4, 64));
    assert!(!s.can_add(5, 64));
    assert_eq!(s.add(10, 64), 6);
    assert_eq!(s.quantity, 64);
    assert_eq!(s.remove(100), 64);
    assert!(s.is_empty());
}

#[test]
fn default_inventory_sizes() {
    let inv = Inventory::default();
    assert_eq!(inv.slots.len(), 27);
    assert_eq!(inv.hotbar_slots.len(), 9);
    assert_eq!(inv.max_stack_size, 64);
    assert_eq!(inv.selected_hotbar_slot, 0);
    assert!(inv.hotbar_slots.iter().all(|s| s.quantity == 0));
}

#[test]
fn add_item_fills_hotbar_first_and_stacks() {
    let mut inv = Inventory::new(3, 2, 10);
    assert!(inv.add_item(stone(), 6));
    assert_eq!(inv.hotbar_slots[0], ItemStack::new(stone(), 6));
    assert!(inv.add_item(stone(), 4));
    assert_eq!(inv.hotbar_slots[0].quantity, 10);
    // Does not fit onto the full stack: goes into the next empty slot.
    assert!(inv.add_item(stone(), 1));
    assert_eq!(inv.hotbar_slots[1], ItemStack::new(stone(), 1));
    assert_eq!(inv.get_item_count(stone()), 11);
}

#[test]
fn add_item_fails_when_full() {
    let mut inv = Inventory::new(0, 1, 5);
    assert!(inv.add_item(stone(), 5));
    assert!(!inv.add_item(ItemType::Block(BlockType::Dirt), 1));
    assert_eq!(inv.get_item_count(stone()), 5);
}

#[test]
fn remove_item_and_counts() {
    let mut inv = Inventory::new(2, 1, 64);
    inv.add_item(stone(), 10);
    assert!(inv.has_item(stone(), 10));
    assert!(!inv.has_item(stone(), 11));
    assert_eq!(inv.remove_item(stone(), 4), 4);
    assert_eq!(inv.get_item_count(stone()), 6);
    // Asking for more than is held takes what there is.
    assert_eq!(inv.remove_item(stone(), 10), 6);
    assert_eq!(inv.get_item_count(stone()), 0);
    assert_eq!(inv.remove_item(stone(), 3), 0);
}

#[test]
fn remove_item_takes_part_of_one_stack() {
    let mut inv = Inventory::new(1, 1, 64);
    assert!(inv.add_item(stone(), 32));
    assert_eq!(inv.remove_item(stone(), 10), 10);
    assert_eq!(inv.get_item_count(stone()), 22);
}

#[test]
fn remove_item_draws_on_the_hotbar_first() {
    let mut inv = Inventory::new(1, 1, 64);
    inv.hotbar_slots[0] = ItemStack::new(stone(), 5);
    inv.slots[0] = ItemStack::new(stone(), 64);
    assert_eq!(inv.remove_item(stone(), 3), 3);
    assert_eq!(inv.hotbar_slots[0].quantity, 2);
    assert_eq!(inv.slots[0].quantity, 64);
    // The hotbar runs out and the rest comes from the main slots.
    assert_eq!(inv.remove_item(stone(), 10), 10);
    assert_eq!(inv.hotbar_slots[0].quantity, 0);
    assert_eq!(inv.slots[0].quantity, 56);
    assert_eq!(inv.get_item_count(stone()), 56);
}

#[test]
fn remove_item_keeps_other_kinds() {
    let mut inv = Inventory::new(2, 1, 64);
    let dirt = ItemType::Block(BlockType::Dirt);
    assert!(inv.add_item(stone(), 8));
    assert!(inv.add_item(dirt, 5));
    assert_eq!(inv.remove_item(dirt, 2), 2);
    assert_eq!(inv.get_item_count(stone()), 8);
    assert_eq!(inv.get_item_count(dirt), 3);
}

#[test]
fn hotbar_selection_wraps() {
    let mut inv = Inventory::new(0, 3, 64);
    inv.previous_hotbar_slot();
    assert_eq!(inv.selected_hotbar_slot, 2);
    inv.next_hotbar_slot();
    assert_eq!(inv.selected_hotbar_slot, 0);
    inv.select_hotbar_slot(7);
    assert_eq!(inv.selected_hotbar_slot, 0);
    inv.select_hotbar_slot(1);
    assert_eq!(inv.selected_hotbar_slot, 1);
}

#[test]
fn hotbar_next_then_previous_returns() {
    for start in 0..9 {
        let mut inv = Inventory::default();
        inv.select_hotbar_slot(start);
        inv.next_hotbar_slot();
        inv.previous_hotbar_slot();
        assert_eq!(inv.selected_hotbar_slot, start);
    }
}

#[test]
fn hotbar_keys_digit_then_arrows() {
    let mut inv = Inventory::default();
    let mut digits = [false; 9];
    digits[2] = true;
    digits[4] = true;
    inventory_update_system(&mut inv, digits, true, false);
    assert_eq!(inv.selected_hotbar_slot, 5);
    inventory_update_system(&mut inv, [false; 9], false, true);
    assert_eq!(inv.selected_hotbar_slot, 4);
}

#[test]
fn swap_slots_twice_restores() {
    let mut inv = Inventory::new(2, 2, 64);
    inv.add_item(stone(), 3);
    let before_h = inv.hotbar_slots.clone();
    let before_s = inv.slots.clone();
    inv.swap_slots(0, true, 1, false);
    assert_eq!(inv.slots[1], ItemStack::new(stone(), 3));
    inv.swap_slots(0, true, 1, false);
    assert_eq!(inv.hotbar_slots, before_h);
    assert_eq!(inv.slots, before_s);
}

#[test]
fn clear_slot_empties() {
    let mut inv = Inventory::new(1, 1, 64);
    inv.add_item(stone(), 3);
    inv.clear_slot(0, true);
    assert_eq!(inv.get_item_count(stone()), 0);
}

#[test]
fn starting_inventory() {
    let mut inv = Inventory::default();
    initialize_inventory(&mut inv);
    assert_eq!(inv.get_item_count(stone()), 32);
    assert_eq!(inv.get_item_count(ItemType::Resource(ResourceType::Stick)), 32);
    assert_eq!(inv.get_item_count(ItemType::Food(FoodType::MeatCooked)), 4);
    assert_eq!(inv.hotbar_slots[0], ItemStack::new(stone(), 32));
    assert_eq!(inv.slots[0], ItemStack::new(ItemType::Food(FoodType::Potato), 8));
}

#[test]
fn selected_item_can_be_changed_in_place() {
    let mut inv = Inventory::default();
    inv.add_item(stone(), 5);
    if let Some(stack) = inv.get_selected_item_mut() {
        stack.quantity = 7;
    }
    assert_eq!(inv.get_selected_item().unwrap().quantity, 7);
}

#[test]
fn hotbar_line_shows_labels_and_selection() {
    let mut inv = Inventory::new(0, 3, 64);
    inv.add_item(stone(), 5);
    inv.select_hotbar_slot(1);
    assert_eq!(hotbar_info_line(&inv), "\u{1F3AE} Hotbar: [Stone | [\u{2205}] | \u{2205}]");
    let empty = Inventory::new(0, 0, 64);
    assert_eq!(hotbar_info_line(&empty), "\u{1F3AE} Hotbar: []");
}

#[test]
fn icon_paths_of_items() {
    assert_eq!(item_icon_path(ItemType::Block(BlockType::Grass)), Some("textures/grass_icon.png"));
    assert_eq!(item_icon_path(ItemType::Block(BlockType::Bedrock)), Some("textures/bedrock_icon.png"));
    assert_eq!(item_icon_path(ItemType::Tool(ToolType::Pickaxe)), Some("textures/pickaxe_icon.png"));
    assert_eq!(
        item_icon_path(ItemType::Resource(ResourceType::IronIngot)),
        Some("textures/iron_ingot_icon.png")
    );
    assert_eq!(item_icon_path(ItemType::Block(BlockType::Air)), None);
    assert_eq!(item_icon_path(ItemType::Block(BlockType::Lava)), None);
    assert_eq!(item_icon_path(ItemType::Food(FoodType::Apple)), None);
    let blocks = [
        BlockType::Air,
        BlockType::Dirt,
        BlockType::Stone,
        BlockType::Grass,
        BlockType::Wood,
        BlockType::Leaves,
        BlockType::Sand,
        BlockType::Water,
        BlockType::Bedrock,
        BlockType::Lava,
    ];
    let mut with_icon = blocks.iter().filter(|b| item_icon_path(ItemType::Block(**b)).is_some()).count();
    for t in [ToolType::Pickaxe, ToolType::Axe, ToolType::Shovel, ToolType::Sword] {
        assert!(item_icon_path(ItemType::Tool(t)).is_some());
        with_icon += 1;
    }
    for r in [
        ResourceType::Stick,
        ResourceType::String,
        ResourceType::Coal,
        ResourceType::IronIngot,
        ResourceType::GoldIngot,
    ] {
        assert!(item_icon_path(ItemType::Resource(r)).is_some());
        with_icon += 1;
    }
    assert_eq!(with_icon, 17);
}

#[test]
fn hotbar_keys_without_arrows_keep_any_selection() {
    let mut inv = Inventory::new(0, 4, 64);
    inv.selected_hotbar_slot = usize::MAX;
    inventory_update_system(&mut inv, [false; 9], false, false);
    assert_eq!(inv.selected_hotbar_slot, usize::MAX);
    let mut digits = [false; 9];
    digits[2] = true;
    inventory_update_system(&mut inv, digits, true, false);
    assert_eq!(inv.selected_hotbar_slot, 3);
    // A digit key past the hotbar leaves the selection alone.
    let mut beyond = [false; 9];
    beyond[6] = true;
    inventory_update_system(&mut inv, beyond, false, true);
    assert_eq!(inv.selected_hotbar_slot, 2);
}
