use vstd::prelude::*;
use crate::block::{BlockType, block_name_spec};

verus! {

/// Kinds of tools.
#[derive(Debug, Clone, Copy, PartialEq, Eq, Hash, Structural)]
pub enum ToolType {
    Pickaxe,
    Axe,
    Shovel,
    Sword,
}

/// Kinds of crafting resources.
#[derive(Debug, Clone, Copy, PartialEq, Eq, Hash, Structural)]
pub enum ResourceType {
    Stick,
    String,
    Coal,
    IronIngot,
    GoldIngot,
}

/// Kinds of food.
#[derive(Debug, Clone, Copy, PartialEq, Eq, Hash, Structural)]
pub enum FoodType {
    Apple,
    Bread,
    MeatCooked,
    MeatRaw,
    Carrot,
    Potato,
    Mushroom,
}

/// Anything that can be held in an inventory slot.
#[derive(Debug, Clone, Copy, PartialEq, Eq, Hash, Structural)]
pub enum ItemType {
    Block(BlockType),
    Tool(ToolType),
    Resource(ResourceType),
    Food(FoodType),
}

pub open spec fn tool_name_spec(t: ToolType) -> Seq<char> {
    match t {
        ToolType::Pickaxe => "Pickaxe"@,
        ToolType::Axe => "Axe"@,
        ToolType::Shovel => "Shovel"@,
        ToolType::Sword => "Sword"@,
    }
}

pub open spec fn resource_name_spec(r: ResourceType) -> Seq<char> {
    match r {
        ResourceType::Stick => "Stick"@,
        ResourceType::String => "String"@,
        ResourceType::Coal => "Coal"@,
        ResourceType::IronIngot => "Iron Ingot"@,
        ResourceType::GoldIngot => "Gold Ingot"@,
    }
}

pub open spec fn food_name_spec(f: FoodType) -> Seq<char> {
    match f {
        FoodType::Apple => "Apple"@,
        FoodType::Bread => "Bread"@,
        FoodType::MeatCooked => "Cooked Meat"@,
        FoodType::MeatRaw => "Raw Meat"@,
        FoodType::Carrot => "Carrot"@,
        FoodType::Potato => "Potato"@,
        FoodType::Mushroom => "Mushroom"@,
    }
}

pub open spec fn item_name_spec(i: ItemType) -> Seq<char> {
    match i {
        ItemType::Block(b) => block_name_spec(b),
        ItemType::Tool(t) => tool_name_spec(t),
        ItemType::Resource(r) => resource_name_spec(r),
        ItemType::Food(f) => food_name_spec(f),
    }
}

impl ToolType {
    /// Display name of the tool.
    pub fn name(&self) -> (r: &'static str)
        ensures
            r@ == tool_name_spec(*self),
    {
        match self {
            ToolType::Pickaxe => "Pickaxe",
            ToolType::Axe => "Axe",
            ToolType::Shovel => "Shovel",
            ToolType::Sword => "Sword",
        }
    }
}

impl ResourceType {
    /// Display name of the resource.
    pub fn name(&self) -> (r: &'static str)
        ensures
            r@ == resource_name_spec(*self),
    {
        match self {
            ResourceType::Stick => "Stick",
            ResourceType::String => "String",
            ResourceType::Coal => "Coal",
            ResourceType::IronIngot => "Iron Ingot",
            ResourceType::GoldIngot => "Gold Ingot",
        }
    }
}

impl FoodType {
    /// Display name of the food.
    pub fn name(&self) -> (r: &'static str)
        ensures
            r@ == food_name_spec(*self),
    {
        match self {
            FoodType::Apple => "Apple",
            FoodType::Bread => "Bread",
            FoodType::MeatCooked => "Cooked Meat",
            FoodType::MeatRaw => "Raw Meat",
            FoodType::Carrot => "Carrot",
            FoodType::Potato => "Potato",
            FoodType::Mushroom => "Mushroom",
        }
    }
}

impl ItemType {
    /// Display name of the item: the name of the block, tool, resource or food.
    pub fn name(&self) -> (r: &'static str)
        ensures
            r@ == item_name_spec(*self),
    {
        match self {
            ItemType::Block(b) => b.name(),
            ItemType::Tool(t) => t.name(),
            ItemType::Resource(r) => r.name(),
            ItemType::Food(f) => f.name(),
        }
    }
}

/// A pile of items of one kind in a slot.
#[derive(Debug, Clone, Copy, PartialEq, Eq, Structural)]
pub struct ItemStack {
    pub item_type: ItemType,
    pub quantity: u32,
}

impl ItemStack {
    pub fn new(item_type: ItemType, quantity: u32) -> (r: ItemStack)
        ensures
            r.item_type == item_type,
            r.quantity == quantity,
    {
        ItemStack { item_type, quantity }
    }

    /// A stack is empty when it holds no items, whatever its kind.
    pub fn is_empty(&self) -> (r: bool)
        ensures
            r == (self.quantity == 0),
    {
        self.quantity == 0
    }

    /// Whether `amount` more items fit under `max_stack_size`.
    pub fn can_add(&self, amount: u32, max_stack_size: u32) -> (r: bool)
        ensures
            r == (self.quantity + amount <= max_stack_size),
    {
        (self.quantity as u64) + (amount as u64) <= max_stack_size as u64
    }

    /// Adds as many of `amount` items as fit under `max_stack_size`, and
    /// returns how many did not fit.
    pub fn add(&mut self, amount: u32, max_stack_size: u32) -> (leftover: u32)
        ensures
            final(self).item_type == old(self).item_type,
            final(self).quantity == old(self).quantity + add_amount_spec(
                old(self).quantity,
                amount,
                max_stack_size,
            ),
            leftover == amount - add_amount_spec(old(self).quantity, amount, max_stack_size),
    {
        let remaining_space = max_stack_size.saturating_sub(self.quantity);
        let amount_to_add = if amount < remaining_space {
            amount
        } else {
            remaining_space
        };
        self.quantity = self.quantity + amount_to_add;
        amount - amount_to_add
    }

    /// Removes up to `amount` items and returns how many were removed.
    pub fn remove(&mut self, amount: u32) -> (removed: u32)
        ensures
            final(self).item_type == old(self).item_type,
            removed == min_u32(amount, old(self).quantity),
            final(self).quantity == old(self).quantity - removed,
    {
        let amount_to_remove = if amount < self.quantity {
            amount
        } else {
            self.quantity
        };
        self.quantity = self.quantity - amount_to_remove;
        amount_to_remove
    }
}

pub open spec fn min_u32(a: u32, b: u32) -> u32 {
    if a < b {
        a
    } else {
        b
    }
}

/// How many of `amount` items fit onto a stack of `quantity` under `max`.
pub open spec fn add_amount_spec(quantity: u32, amount: u32, max: u32) -> u32 {
    let space: int = if max >= quantity {
        max - quantity
    } else {
        0
    };
    if amount < space {
        amount
    } else {
        space as u32
    }
}

} // verus!

verus! {

/// Whether `i` is the first index of `s` whose element satisfies `p`.
pub open spec fn is_first<A>(s: Seq<A>, i: int, p: spec_fn(A) -> bool) -> bool {
    &&& 0 <= i < s.len()
    &&& p(s[i])
    &&& forall|j: int| 0 <= j < i ==> !p(#[trigger] s[j])
}

/// The first index of `s` whose element satisfies `p`, if there is one.
pub open spec fn first_match<A>(s: Seq<A>, p: spec_fn(A) -> bool) -> Option<int> {
    if exists|i: int| is_first(s, i, p) {
        Some(choose|i: int| is_first(s, i, p))
    } else {
        None
    }
}

pub proof fn lemma_first_match_found<A>(s: Seq<A>, i: int, p: spec_fn(A) -> bool)
    requires
        is_first(s, i, p),
    ensures
        first_match(s, p) == Some(i),
{
    let k = choose|k: int| is_first(s, k, p);
    assert(is_first(s, k, p));
    if k < i {
        assert(!p(s[k]));
    } else if k > i {
        assert(!p(s[i]));
    }
}

pub proof fn lemma_first_match_absent<A>(s: Seq<A>, p: spec_fn(A) -> bool)
    requires
        forall|j: int| 0 <= j < s.len() ==> !p(#[trigger] s[j]),
    ensures
        first_match(s, p) is None,
{
    if exists|i: int| is_first(s, i, p) {
        let k = choose|k: int| is_first(s, k, p);
        assert(p(s[k]));
    }
}

/// A stack of kind `t` onto which `n` more items fit under `max`.
pub open spec fn stackable(t: ItemType, n: u32, max: u32) -> spec_fn(ItemStack) -> bool {
    |st: ItemStack| st.item_type == t && st.quantity + n <= max
}

/// A stack that holds nothing.
pub open spec fn empty_stack() -> spec_fn(ItemStack) -> bool {
    |st: ItemStack| st.quantity == 0
}

/// What `add_item` makes of the hotbar `h` and the main slots `s`, and whether
/// it succeeds: the first stack of the same kind (hotbar first) that takes all
/// `n` items gets them; failing that, the first empty slot (hotbar first)
/// becomes a stack of `n` items of kind `t`; failing that, nothing changes.
pub open spec fn add_item_outcome(
    h: Seq<ItemStack>,
    s: Seq<ItemStack>,
    t: ItemType,
    n: u32,
    max: u32,
) -> (Seq<ItemStack>, Seq<ItemStack>, bool) {
    match first_match(h, stackable(t, n, max)) {
        Some(i) => (
            h.update(i, ItemStack { item_type: t, quantity: (h[i].quantity + n) as u32 }),
            s,
            true,
        ),
        None => match first_match(s, stackable(t, n, max)) {
            Some(i) => (
                h,
                s.update(i, ItemStack { item_type: t, quantity: (s[i].quantity + n) as u32 }),
                true,
            ),
            None => match first_match(h, empty_stack()) {
                Some(i) => (h.update(i, ItemStack { item_type: t, quantity: n }), s, true),
                None => match first_match(s, empty_stack()) {
                    Some(i) => (h, s.update(i, ItemStack { item_type: t, quantity: n }), true),
                    None => (h, s, false),
                },
            },
        },
    }
}

/// Number of items of kind `t` held in the stacks `s`.
pub open spec fn count_of(s: Seq<ItemStack>, t: ItemType) -> int
    decreases s.len(),
{
    if s.len() == 0 {
        0
    } else {
        count_of(s.drop_last(), t) + if s.last().item_type == t {
            s.last().quantity as int
        } else {
            0
        }
    }
}

/// The amount of kind `t` still to be removed after taking up to `r` items
/// from the stacks `s` in order: each stack of kind `t` gives up as many items
/// as are still needed, up to what it holds.
pub open spec fn removal_carry(s: Seq<ItemStack>, t: ItemType, r: u32) -> u32
    decreases s.len(),
{
    if s.len() == 0 {
        r
    } else {
        let c = removal_carry(s.drop_last(), t, r);
        if s.last().item_type == t {
            (c - min_u32(c, s.last().quantity)) as u32
        } else {
            c
        }
    }
}

/// The stacks `s` after taking up to `r` items of kind `t` from them in
/// order: each stack of kind `t` gives up as many items as are still needed,
/// up to what it holds.
pub open spec fn after_removal(s: Seq<ItemStack>, t: ItemType, r: u32) -> Seq<ItemStack> {
    Seq::new(
        s.len(),
        |i: int|
            if s[i].item_type == t {
                ItemStack {
                    item_type: s[i].item_type,
                    quantity: (s[i].quantity - min_u32(
                        removal_carry(s.take(i), t, r),
                        s[i].quantity,
                    )) as u32,
                }
            } else {
                s[i]
            },
    )
}

pub proof fn lemma_carry_le(s: Seq<ItemStack>, t: ItemType, r: u32)
    ensures
        removal_carry(s, t, r) <= r,
    decreases s.len(),
{
    if s.len() > 0 {
        lemma_carry_le(s.drop_last(), t, r);
    }
}

/// Once nothing is left to remove, nothing is left over longer prefixes either.
pub proof fn lemma_carry_prefix_zero(s: Seq<ItemStack>, t: ItemType, r: u32, k: int, j: int)
    requires
        0 <= k <= j <= s.len(),
        removal_carry(s.take(k), t, r) == 0,
    ensures
        removal_carry(s.take(j), t, r) == 0,
    decreases j - k,
{
    if j > k {
        lemma_carry_prefix_zero(s, t, r, k, j - 1);
        assert(s.take(j).drop_last() =~= s.take(j - 1));
    }
}

/// Visiting stacks with nothing left to remove changes nothing.
pub proof fn lemma_removal_of_zero(s: Seq<ItemStack>, t: ItemType)
    ensures
        removal_carry(s, t, 0) == 0,
        after_removal(s, t, 0) == s,
{
    assert(s.take(0) =~= Seq::<ItemStack>::empty());
    assert forall|j: int| 0 <= j <= s.len() implies removal_carry(s.take(j), t, 0) == 0 by {
        lemma_carry_prefix_zero(s, t, 0, 0, j);
    }
    assert(s.take(s.len() as int) =~= s);
    assert(after_removal(s, t, 0) =~= s);
}

pub proof fn lemma_count_prefix(s: Seq<ItemStack>, t: ItemType, i: int)
    requires
        0 <= i <= s.len(),
    ensures
        0 <= count_of(s.take(i), t) <= count_of(s, t),
    decreases s.len() - i,
{
    if i < s.len() {
        lemma_count_prefix(s, t, i + 1);
        assert(s.take(i + 1).drop_last() =~= s.take(i));
    } else {
        assert(s.take(i) =~= s);
    }
    lemma_count_nonneg(s.take(i), t);
}

pub proof fn lemma_count_nonneg(s: Seq<ItemStack>, t: ItemType)
    ensures
        count_of(s, t) >= 0,
    decreases s.len(),
{
    if s.len() > 0 {
        lemma_count_nonneg(s.drop_last(), t);
    }
}

/// Removes up to `amount` items of kind `t` stack by stack, in order, and
/// returns the amount that could not be removed.
fn remove_from_stacks(stacks: &mut Vec<ItemStack>, t: ItemType, amount: u32) -> (rest: u32)
    ensures
        final(stacks)@ == after_removal(old(stacks)@, t, amount),
        rest == removal_carry(old(stacks)@, t, amount),
{
    let ghost orig = stacks@;
    let mut remaining = amount;
    let mut i: usize = 0;
    while i < stacks.len()
        invariant
            i <= stacks.len(),
            stacks.len() == orig.len(),
            orig == old(stacks)@,
            remaining == removal_carry(orig.take(i as int), t, amount),
            forall|j: int| 0 <= j < i ==> stacks@[j] == after_removal(orig, t, amount)[j],
            forall|j: int| i <= j < stacks.len() ==> stacks@[j] == orig[j],
        decreases stacks.len() - i,
    {
        let mut stack = stacks[i];
        assert(orig.take(i + 1).drop_last() =~= orig.take(i as int));
        if stack.item_type == t {
            let removed = stack.remove(remaining);
            remaining = remaining - removed;
            stacks.set(i, stack);
            if remaining == 0 {
                proof {
                    assert forall|j: int| i < j < stacks.len() implies stacks@[j] == after_removal(
                        orig,
                        t,
                        amount,
                    )[j] by {
                        lemma_carry_prefix_zero(orig, t, amount, i + 1, j);
                    }
                    lemma_carry_prefix_zero(orig, t, amount, i + 1, orig.len() as int);
                    assert(orig.take(orig.len() as int) =~= orig);
                    assert(stacks@ =~= after_removal(orig, t, amount));
                }
                return remaining;
            }
        }
        i = i + 1;
    }
    assert(orig.take(orig.len() as int) =~= orig);
    assert(stacks@ =~= after_removal(orig, t, amount));
    remaining
}

/// What `swap_slots` makes of the hotbar `h` and the main slots `s`.
pub open spec fn swap_outcome(
    h: Seq<ItemStack>,
    s: Seq<ItemStack>,
    hotbar_size: usize,
    inventory_size: usize,
    slot1: usize,
    is_hotbar1: bool,
    slot2: usize,
    is_hotbar2: bool,
) -> (Seq<ItemStack>, Seq<ItemStack>) {
    if is_hotbar1 && is_hotbar2 && slot1 < hotbar_size && slot2 < hotbar_size {
        (h.update(slot1 as int, h[slot2 as int]).update(slot2 as int, h[slot1 as int]), s)
    } else if !is_hotbar1 && !is_hotbar2 && slot1 < inventory_size && slot2 < inventory_size {
        (h, s.update(slot1 as int, s[slot2 as int]).update(slot2 as int, s[slot1 as int]))
    } else if is_hotbar1 && !is_hotbar2 && slot1 < hotbar_size && slot2 < inventory_size {
        (h.update(slot1 as int, s[slot2 as int]), s.update(slot2 as int, h[slot1 as int]))
    } else if !is_hotbar1 && is_hotbar2 && slot1 < inventory_size && slot2 < hotbar_size {
        (h.update(slot2 as int, s[slot1 as int]), s.update(slot1 as int, h[slot2 as int]))
    } else {
        (h, s)
    }
}

/// The slots that `swap_slots` can reach exist, and a slot is not swapped with itself.
pub open spec fn swap_allowed(
    h_len: nat,
    s_len: nat,
    hotbar_size: usize,
    inventory_size: usize,
    slot1: usize,
    is_hotbar1: bool,
    slot2: usize,
    is_hotbar2: bool,
) -> bool {
    &&& (is_hotbar1 && is_hotbar2 && slot1 < hotbar_size && slot2 < hotbar_size) ==> (slot1
        != slot2 && slot1 < h_len && slot2 < h_len)
    &&& (!is_hotbar1 && !is_hotbar2 && slot1 < inventory_size && slot2 < inventory_size) ==> (
    slot1 != slot2 && slot1 < s_len && slot2 < s_len)
    &&& (is_hotbar1 && !is_hotbar2 && slot1 < hotbar_size && slot2 < inventory_size) ==> (slot1
        < h_len && slot2 < s_len)
    &&& (!is_hotbar1 && is_hotbar2 && slot1 < inventory_size && slot2 < hotbar_size) ==> (slot1
        < s_len && slot2 < h_len)
}

/// Swapping the same two slots twice gives back the slots one started with.
pub proof fn lemma_swap_twice(
    h: Seq<ItemStack>,
    s: Seq<ItemStack>,
    hotbar_size: usize,
    inventory_size: usize,
    slot1: usize,
    is_hotbar1: bool,
    slot2: usize,
    is_hotbar2: bool,
)
    requires
        swap_allowed(
            h.len(),
            s.len(),
            hotbar_size,
            inventory_size,
            slot1,
            is_hotbar1,
            slot2,
            is_hotbar2,
        ),
    ensures
        ({
            let (h1, s1) = swap_outcome(
                h,
                s,
                hotbar_size,
                inventory_size,
                slot1,
                is_hotbar1,
                slot2,
                is_hotbar2,
            );
            swap_outcome(
                h1,
                s1,
                hotbar_size,
                inventory_size,
                slot1,
                is_hotbar1,
                slot2,
                is_hotbar2,
            ) == (h, s)
        }),
{
    let (h1, s1) = swap_outcome(
        h,
        s,
        hotbar_size,
        inventory_size,
        slot1,
        is_hotbar1,
        slot2,
        is_hotbar2,
    );
    let (h2, s2) = swap_outcome(
        h1,
        s1,
        hotbar_size,
        inventory_size,
        slot1,
        is_hotbar1,
        slot2,
        is_hotbar2,
    );
    assert(h2 =~= h);
    assert(s2 =~= s);
}

/// The hotbar slot after `current`, wrapping around after the last of `size` slots.
pub open spec fn next_slot_spec(current: usize, size: usize) -> int {
    (current + 1) % (size as int)
}

/// The hotbar slot before `current`, wrapping around before the first slot.
pub open spec fn previous_slot_spec(current: usize, size: usize) -> int {
    if current == 0 {
        size - 1
    } else {
        current - 1
    }
}

/// Moving the hotbar selection right and then left comes back to the slot one
/// started from, and so does moving left and then right.
pub proof fn lemma_next_previous_inverse(current: usize, size: usize)
    requires
        current < size,
    ensures
        previous_slot_spec(next_slot_spec(current, size) as usize, size) == current,
        next_slot_spec(previous_slot_spec(current, size) as usize, size) == current,
{
    if current + 1 < size {
        vstd::arithmetic::div_mod::lemma_small_mod((current + 1) as nat, size as nat);
    } else {
        vstd::arithmetic::div_mod::lemma_mod_self_0(size as int);
    }
    if current == 0 {
        vstd::arithmetic::div_mod::lemma_mod_self_0(size as int);
    } else {
        vstd::arithmetic::div_mod::lemma_small_mod(current as nat, size as nat);
    }
}

/// Contribution of one stack to the count of kind `t`.
pub open spec fn contribution(st: ItemStack, t: ItemType) -> int {
    if st.item_type == t {
        st.quantity as int
    } else {
        0
    }
}

pub proof fn lemma_count_update(s: Seq<ItemStack>, i: int, x: ItemStack, t: ItemType)
    requires
        0 <= i < s.len(),
    ensures
        count_of(s.update(i, x), t) == count_of(s, t) - contribution(s[i], t) + contribution(x, t),
    decreases s.len(),
{
    if i < s.len() - 1 {
        lemma_count_update(s.drop_last(), i, x, t);
        assert(s.update(i, x).drop_last() =~= s.drop_last().update(i, x));
    } else {
        assert(s.update(i, x).drop_last() =~= s.drop_last());
    }
}

/// Counting over two stack sequences of the same kinds where each stack of
/// the first holds no more than the matching stack of the second.
pub proof fn lemma_count_le(a: Seq<ItemStack>, b: Seq<ItemStack>, t: ItemType)
    requires
        a.len() == b.len(),
        forall|i: int|
            0 <= i < a.len() ==> (#[trigger] a[i]).item_type == b[i].item_type && a[i].quantity
                <= b[i].quantity,
    ensures
        count_of(a, t) <= count_of(b, t),
    decreases a.len(),
{
    if a.len() > 0 {
        lemma_count_le(a.drop_last(), b.drop_last(), t);
    }
}

/// A successful `add_item` adds exactly the added quantity to the count of
/// that kind and leaves the count of every other kind as it was; a failed one
/// changes nothing.
pub proof fn lemma_add_item_count(
    h: Seq<ItemStack>,
    s: Seq<ItemStack>,
    t: ItemType,
    n: u32,
    max: u32,
    u: ItemType,
)
    ensures
        ({
            let (h1, s1, ok) = add_item_outcome(h, s, t, n, max);
            &&& ok ==> count_of(h1, u) + count_of(s1, u) == count_of(h, u) + count_of(s, u) + if u
                == t {
                n as int
            } else {
                0
            }
            &&& !ok ==> h1 == h && s1 == s
        }),
{
    match first_match(h, stackable(t, n, max)) {
        Some(i) => {
            let k = choose|k: int| is_first(h, k, stackable(t, n, max));
            assert(is_first(h, k, stackable(t, n, max)));
            lemma_count_update(
                h,
                i,
                ItemStack { item_type: t, quantity: (h[i].quantity + n) as u32 },
                u,
            );
        },
        None => match first_match(s, stackable(t, n, max)) {
            Some(i) => {
                let k = choose|k: int| is_first(s, k, stackable(t, n, max));
                assert(is_first(s, k, stackable(t, n, max)));
                lemma_count_update(
                    s,
                    i,
                    ItemStack { item_type: t, quantity: (s[i].quantity + n) as u32 },
                    u,
                );
            },
            None => match first_match(h, empty_stack()) {
                Some(i) => {
                    let k = choose|k: int| is_first(h, k, empty_stack());
                    assert(is_first(h, k, empty_stack()));
                    lemma_count_update(h, i, ItemStack { item_type: t, quantity: n }, u);
                },
                None => match first_match(s, empty_stack()) {
                    Some(i) => {
                        let k = choose|k: int| is_first(s, k, empty_stack());
                        assert(is_first(s, k, empty_stack()));
                        lemma_count_update(s, i, ItemStack { item_type: t, quantity: n }, u);
                    },
                    None => {},
                },
            },
        },
    }
}

/// Items go onto an existing stack before any empty slot is used: when a
/// hotbar stack of kind `t` has room for all `n` items, the first such stack
/// takes them and nothing else changes.
pub proof fn lemma_add_item_stacks_on_hotbar(
    h: Seq<ItemStack>,
    s: Seq<ItemStack>,
    t: ItemType,
    n: u32,
    max: u32,
    i: int,
)
    requires
        0 <= i < h.len(),
        h[i].item_type == t && h[i].quantity + n <= max,
        forall|j: int| 0 <= j < i ==> !((#[trigger] h[j]).item_type == t && h[j].quantity + n <= max),
    ensures
        add_item_outcome(h, s, t, n, max) == (
            h.update(i, ItemStack { item_type: t, quantity: (h[i].quantity + n) as u32 }),
            s,
            true,
        ),
{
    lemma_first_match_found(h, i, stackable(t, n, max));
}

/// When no hotbar stack of kind `t` has room for all `n` items but a stack of
/// kind `t` in the main slots does, the first such main stack takes them: the
/// hotbar is untouched and no empty slot is filled.
pub proof fn lemma_add_item_stacks_in_main(
    h: Seq<ItemStack>,
    s: Seq<ItemStack>,
    t: ItemType,
    n: u32,
    max: u32,
    i: int,
)
    requires
        forall|j: int| 0 <= j < h.len() ==> !((#[trigger] h[j]).item_type == t && h[j].quantity + n <= max),
        0 <= i < s.len(),
        s[i].item_type == t && s[i].quantity + n <= max,
        forall|j: int| 0 <= j < i ==> !((#[trigger] s[j]).item_type == t && s[j].quantity + n <= max),
    ensures
        add_item_outcome(h, s, t, n, max) == (
            h,
            s.update(i, ItemStack { item_type: t, quantity: (s[i].quantity + n) as u32 }),
            true,
        ),
{
    lemma_first_match_absent(h, stackable(t, n, max));
    lemma_first_match_found(s, i, stackable(t, n, max));
}

/// Taking up to `r` items of kind `t` from the stacks `s` leaves
/// `r - count_of(s, t)` still to remove (zero when the stacks hold enough),
/// lowers the count of `t` by exactly what was taken and keeps the count of
/// every other kind.
pub proof fn lemma_removal_counts(s: Seq<ItemStack>, t: ItemType, r: u32, u: ItemType)
    ensures
        removal_carry(s, t, r) == (if count_of(s, t) >= r {
            0
        } else {
            r - count_of(s, t)
        }),
        count_of(after_removal(s, t, r), u) == count_of(s, u) - (if u == t {
            r - removal_carry(s, t, r)
        } else {
            0
        }),
    decreases s.len(),
{
    lemma_count_nonneg(s, t);
    if s.len() == 0 {
        assert(after_removal(s, t, r) =~= s);
    } else {
        let p = s.drop_last();
        lemma_removal_counts(p, t, r, u);
        lemma_count_nonneg(p, t);
        let a = after_removal(s, t, r);
        assert forall|i: int| 0 <= i < p.len() implies #[trigger] s.take(i) == p.take(i) by {
            assert(s.take(i) =~= p.take(i));
        }
        assert(a.drop_last() =~= after_removal(p, t, r));
        assert(s.take(p.len() as int) =~= p);
    }
}

/// The player's inventory: main slots, hotbar slots and the selected hotbar slot.
#[derive(Debug)]
pub struct Inventory {
    pub slots: Vec<ItemStack>,
    pub hotbar_slots: Vec<ItemStack>,
    pub selected_hotbar_slot: usize,
    pub max_stack_size: u32,
    pub inventory_size: usize,
    pub hotbar_size: usize,
}

/// The stack that fills an unused slot: no air.
pub open spec fn air_stack() -> ItemStack {
    ItemStack { item_type: ItemType::Block(BlockType::Air), quantity: 0 }
}

/// `n` unused slots.
pub fn empty_slots(n: usize) -> (v: Vec<ItemStack>)
    ensures
        v@ == Seq::new(n as nat, |i: int| air_stack()),
{
    let mut v: Vec<ItemStack> = Vec::new();
    let mut i: usize = 0;
    while i < n
        invariant
            i <= n,
            v@ == Seq::new(i as nat, |k: int| air_stack()),
        decreases n - i,
    {
        v.push(ItemStack::new(ItemType::Block(BlockType::Air), 0));
        i = i + 1;
    }
    v
}

/// Index of the first stack in `stacks` of kind `t` that takes `n` more items.
fn first_stackable_index(stacks: &Vec<ItemStack>, t: ItemType, n: u32, max: u32) -> (r: Option<
    usize,
>)
    ensures
        match r {
            Some(i) => first_match(stacks@, stackable(t, n, max)) == Some(i as int),
            None => first_match(stacks@, stackable(t, n, max)) is None,
        },
{
    let mut i: usize = 0;
    while i < stacks.len()
        invariant
            i <= stacks.len(),
            forall|j: int| 0 <= j < i ==> !stackable(t, n, max)(#[trigger] stacks@[j]),
        decreases stacks.len() - i,
    {
        let stack = stacks[i];
        if stack.item_type == t && stack.can_add(n, max) {
            proof {
                lemma_first_match_found(stacks@, i as int, stackable(t, n, max));
            }
            return Some(i);
        }
        i = i + 1;
    }
    proof {
        lemma_first_match_absent(stacks@, stackable(t, n, max));
    }
    None
}

/// Index of the first empty stack in `stacks`.
fn first_empty_index(stacks: &Vec<ItemStack>) -> (r: Option<usize>)
    ensures
        match r {
            Some(i) => first_match(stacks@, empty_stack()) == Some(i as int),
            None => first_match(stacks@, empty_stack()) is None,
        },
{
    let mut i: usize = 0;
    while i < stacks.len()
        invariant
            i <= stacks.len(),
            forall|j: int| 0 <= j < i ==> !empty_stack()(#[trigger] stacks@[j]),
        decreases stacks.len() - i,
    {
        if stacks[i].is_empty() {
            proof {
                lemma_first_match_found(stacks@, i as int, empty_stack());
            }
            return Some(i);
        }
        i = i + 1;
    }
    proof {
        lemma_first_match_absent(stacks@, empty_stack());
    }
    None
}

impl Inventory {
    /// Slot vectors as long as the sizes say.
    pub open spec fn wf(&self) -> bool {
        &&& self.slots.len() == self.inventory_size
        &&& self.hotbar_slots.len() == self.hotbar_size
    }

    /// An inventory of `inventory_size` main slots and `hotbar_size` hotbar
    /// slots, all unused, with the first hotbar slot selected.
    pub fn new(inventory_size: usize, hotbar_size: usize, max_stack_size: u32) -> (inv: Inventory)
        ensures
            inv.wf(),
            inv.slots@ == Seq::new(inventory_size as nat, |i: int| air_stack()),
            inv.hotbar_slots@ == Seq::new(hotbar_size as nat, |i: int| air_stack()),
            inv.selected_hotbar_slot == 0,
            inv.max_stack_size == max_stack_size,
            inv.inventory_size == inventory_size,
            inv.hotbar_size == hotbar_size,
    {
        Inventory {
            slots: empty_slots(inventory_size),
            hotbar_slots: empty_slots(hotbar_size),
            selected_hotbar_slot: 0,
            max_stack_size,
            inventory_size,
            hotbar_size,
        }
    }

    /// The item stack in the selected hotbar slot, if that slot exists.
    pub fn get_selected_item(&self) -> (r: Option<&ItemStack>)
        ensures
            r == (if self.selected_hotbar_slot < self.hotbar_slots.len() {
                Some(&self.hotbar_slots@[self.selected_hotbar_slot as int])
            } else {
                None
            }),
    {
        if self.selected_hotbar_slot < self.hotbar_slots.len() {
            Some(&self.hotbar_slots[self.selected_hotbar_slot])
        } else {
            None
        }
    }

    /// Selects hotbar slot `slot` when it is below the hotbar size; otherwise
    /// nothing changes.
    pub fn select_hotbar_slot(&mut self, slot: usize)
        ensures
            old(self).wf() ==> final(self).wf(),
            final(self).selected_hotbar_slot == (if slot < old(self).hotbar_size {
                slot
            } else {
                old(self).selected_hotbar_slot
            }),
            final(self).slots == old(self).slots,
            final(self).hotbar_slots == old(self).hotbar_slots,
            final(self).max_stack_size == old(self).max_stack_size,
            final(self).inventory_size == old(self).inventory_size,
            final(self).hotbar_size == old(self).hotbar_size,
    {
        if slot < self.hotbar_size {
            self.selected_hotbar_slot = slot;
        }
    }

    /// Moves the selection one slot right, wrapping from the last slot to the first.
    pub fn next_hotbar_slot(&mut self)
        requires
            old(self).hotbar_size > 0,
            old(self).selected_hotbar_slot < usize::MAX,
        ensures
            old(self).wf() ==> final(self).wf(),
            final(self).selected_hotbar_slot == next_slot_spec(
                old(self).selected_hotbar_slot,
                old(self).hotbar_size,
            ),
            final(self).slots == old(self).slots,
            final(self).hotbar_slots == old(self).hotbar_slots,
            final(self).max_stack_size == old(self).max_stack_size,
            final(self).inventory_size == old(self).inventory_size,
            final(self).hotbar_size == old(self).hotbar_size,
    {
        self.selected_hotbar_slot = (self.selected_hotbar_slot + 1) % self.hotbar_size;
    }

    /// Moves the selection one slot left, wrapping from the first slot to the last.
    pub fn previous_hotbar_slot(&mut self)
        requires
            old(self).selected_hotbar_slot == 0 ==> old(self).hotbar_size > 0,
        ensures
            old(self).wf() ==> final(self).wf(),
            final(self).selected_hotbar_slot == previous_slot_spec(
                old(self).selected_hotbar_slot,
                old(self).hotbar_size,
            ),
            final(self).slots == old(self).slots,
            final(self).hotbar_slots == old(self).hotbar_slots,
            final(self).max_stack_size == old(self).max_stack_size,
            final(self).inventory_size == old(self).inventory_size,
            final(self).hotbar_size == old(self).hotbar_size,
    {
        if self.selected_hotbar_slot == 0 {
            self.selected_hotbar_slot = self.hotbar_size - 1;
        } else {
            self.selected_hotbar_slot = self.selected_hotbar_slot - 1;
        }
    }

    /// Adds `quantity` items of kind `item_type`: onto the first stack of that
    /// kind (hotbar first) that takes them all, else into the first empty slot
    /// (hotbar first). Returns false, changing nothing, when neither exists.
    pub fn add_item(&mut self, item_type: ItemType, quantity: u32) -> (r: bool)
        ensures
            old(self).wf() ==> final(self).wf(),
            (final(self).hotbar_slots@, final(self).slots@, r) == add_item_outcome(
                old(self).hotbar_slots@,
                old(self).slots@,
                item_type,
                quantity,
                old(self).max_stack_size,
            ),
            final(self).selected_hotbar_slot == old(self).selected_hotbar_slot,
            final(self).max_stack_size == old(self).max_stack_size,
            final(self).inventory_size == old(self).inventory_size,
            final(self).hotbar_size == old(self).hotbar_size,
    {
        let max = self.max_stack_size;
        match first_stackable_index(&self.hotbar_slots, item_type, quantity, max) {
            Some(i) => {
                let mut stack = self.hotbar_slots[i];
                let remaining = stack.add(quantity, max);
                self.hotbar_slots.set(i, stack);
                assert(remaining == 0);
                return true;
            },
            None => {},
        }
        match first_stackable_index(&self.slots, item_type, quantity, max) {
            Some(i) => {
                let mut stack = self.slots[i];
                let remaining = stack.add(quantity, max);
                self.slots.set(i, stack);
                assert(remaining == 0);
                return true;
            },
            None => {},
        }
        match first_empty_index(&self.hotbar_slots) {
            Some(i) => {
                self.hotbar_slots.set(i, ItemStack::new(item_type, quantity));
                return true;
            },
            None => {},
        }
        match first_empty_index(&self.slots) {
            Some(i) => {
                self.slots.set(i, ItemStack::new(item_type, quantity));
                return true;
            },
            None => {},
        }
        false
    }

    /// Takes up to `quantity` items of kind `item_type` out of the hotbar
    /// stacks in order, then out of the main slots for whatever is still
    /// needed, and returns how many were taken: `quantity`, or everything held
    /// when that is less.
    pub fn remove_item(&mut self, item_type: ItemType, quantity: u32) -> (r: u32)
        ensures
            old(self).wf() ==> final(self).wf(),
            r == (if count_of(old(self).hotbar_slots@, item_type) + count_of(old(self).slots@, item_type)
                >= quantity {
                quantity as int
            } else {
                count_of(old(self).hotbar_slots@, item_type) + count_of(old(self).slots@, item_type)
            }),
            count_of(final(self).hotbar_slots@, item_type) + count_of(final(self).slots@, item_type)
                == count_of(old(self).hotbar_slots@, item_type) + count_of(old(self).slots@, item_type)
                - r,
            forall|u: ItemType|
                u != item_type ==> #[trigger] count_of(final(self).hotbar_slots@, u) + count_of(
                    final(self).slots@,
                    u,
                ) == count_of(old(self).hotbar_slots@, u) + count_of(old(self).slots@, u),
            final(self).hotbar_slots@ == after_removal(old(self).hotbar_slots@, item_type, quantity),
            final(self).slots@ == after_removal(
                old(self).slots@,
                item_type,
                removal_carry(old(self).hotbar_slots@, item_type, quantity),
            ),
            r == quantity - removal_carry(
                old(self).slots@,
                item_type,
                removal_carry(old(self).hotbar_slots@, item_type, quantity),
            ),
            final(self).selected_hotbar_slot == old(self).selected_hotbar_slot,
            final(self).max_stack_size == old(self).max_stack_size,
            final(self).inventory_size == old(self).inventory_size,
            final(self).hotbar_size == old(self).hotbar_size,
    {
        let mut remaining_quantity = remove_from_stacks(&mut self.hotbar_slots, item_type, quantity);
        if remaining_quantity > 0 {
            remaining_quantity = remove_from_stacks(&mut self.slots, item_type, remaining_quantity);
        } else {
            proof {
                lemma_removal_of_zero(self.slots@, item_type);
            }
        }
        proof {
            let h = old(self).hotbar_slots@;
            let m = old(self).slots@;
            let c = removal_carry(h, item_type, quantity);
            lemma_carry_le(h, item_type, quantity);
            lemma_carry_le(m, item_type, c);
            lemma_removal_counts(h, item_type, quantity, item_type);
            lemma_removal_counts(m, item_type, c, item_type);
            assert forall|u: ItemType| u != item_type implies #[trigger] count_of(
                self.hotbar_slots@,
                u,
            ) + count_of(self.slots@, u) == count_of(h, u) + count_of(m, u) by {
                lemma_removal_counts(h, item_type, quantity, u);
                lemma_removal_counts(m, item_type, c, u);
            }
        }
        quantity - remaining_quantity
    }

    /// Number of items of kind `item_type` in the hotbar and the main slots.
    pub fn get_item_count(&self, item_type: ItemType) -> (r: u32)
        requires
            count_of(self.hotbar_slots@, item_type) + count_of(self.slots@, item_type) <= u32::MAX,
        ensures
            r == count_of(self.hotbar_slots@, item_type) + count_of(self.slots@, item_type),
    {
        let mut count: u32 = 0;
        let mut i: usize = 0;
        proof {
            lemma_count_nonneg(self.slots@, item_type);
            lemma_count_nonneg(self.hotbar_slots@, item_type);
            assert(self.hotbar_slots@.take(0) =~= Seq::<ItemStack>::empty());
        }
        while i < self.hotbar_slots.len()
            invariant
                i <= self.hotbar_slots.len(),
                count == count_of(self.hotbar_slots@.take(i as int), item_type),
                count_of(self.hotbar_slots@, item_type) + count_of(self.slots@, item_type) <= u32::MAX,
                count_of(self.slots@, item_type) >= 0,
            decreases self.hotbar_slots.len() - i,
        {
            proof {
                assert(self.hotbar_slots@.take(i + 1).drop_last() =~= self.hotbar_slots@.take(i as int));
                lemma_count_prefix(self.hotbar_slots@, item_type, i + 1);
            }
            if self.hotbar_slots[i].item_type == item_type {
                count = count + self.hotbar_slots[i].quantity;
            }
            i = i + 1;
        }
        assert(self.hotbar_slots@.take(i as int) =~= self.hotbar_slots@);
        let ghost base = count as int;
        let mut j: usize = 0;
        assert(self.slots@.take(0) =~= Seq::<ItemStack>::empty());
        while j < self.slots.len()
            invariant
                j <= self.slots.len(),
                base == count_of(self.hotbar_slots@, item_type),
                count == base + count_of(self.slots@.take(j as int), item_type),
                base + count_of(self.slots@, item_type) <= u32::MAX,
            decreases self.slots.len() - j,
        {
            proof {
                assert(self.slots@.take(j + 1).drop_last() =~= self.slots@.take(j as int));
                lemma_count_prefix(self.slots@, item_type, j + 1);
            }
            if self.slots[j].item_type == item_type {
                count = count + self.slots[j].quantity;
            }
            j = j + 1;
        }
        assert(self.slots@.take(j as int) =~= self.slots@);
        count
    }

    /// Whether the inventory holds at least `quantity` items of kind `item_type`.
    pub fn has_item(&self, item_type: ItemType, quantity: u32) -> (r: bool)
        requires
            count_of(self.hotbar_slots@, item_type) + count_of(self.slots@, item_type) <= u32::MAX,
        ensures
            r == (count_of(self.hotbar_slots@, item_type) + count_of(self.slots@, item_type)
                >= quantity),
    {
        self.get_item_count(item_type) >= quantity
    }

    /// Empties one slot (hotbar or main) when its index is below the matching size.
    pub fn clear_slot(&mut self, slot_index: usize, is_hotbar: bool)
        requires
            is_hotbar && slot_index < old(self).hotbar_size ==> slot_index < old(
                self,
            ).hotbar_slots.len(),
            !is_hotbar && slot_index < old(self).inventory_size ==> slot_index < old(
                self,
            ).slots.len(),
        ensures
            old(self).wf() ==> final(self).wf(),
            final(self).hotbar_slots@ == (if is_hotbar && slot_index < old(self).hotbar_size {
                old(self).hotbar_slots@.update(slot_index as int, air_stack())
            } else {
                old(self).hotbar_slots@
            }),
            final(self).slots@ == (if !is_hotbar && slot_index < old(self).inventory_size {
                old(self).slots@.update(slot_index as int, air_stack())
            } else {
                old(self).slots@
            }),
            final(self).selected_hotbar_slot == old(self).selected_hotbar_slot,
            final(self).max_stack_size == old(self).max_stack_size,
            final(self).inventory_size == old(self).inventory_size,
            final(self).hotbar_size == old(self).hotbar_size,
    {
        if is_hotbar && slot_index < self.hotbar_size {
            self.hotbar_slots.set(slot_index, ItemStack::new(ItemType::Block(BlockType::Air), 0));
        } else if !is_hotbar && slot_index < self.inventory_size {
            self.slots.set(slot_index, ItemStack::new(ItemType::Block(BlockType::Air), 0));
        }
    }

    /// Swaps the contents of two slots, each in the hotbar or the main slots.
    /// Out-of-range indices leave everything as it is.
    pub fn swap_slots(&mut self, slot1: usize, is_hotbar1: bool, slot2: usize, is_hotbar2: bool)
        requires
            swap_allowed(
                old(self).hotbar_slots.len() as nat,
                old(self).slots.len() as nat,
                old(self).hotbar_size,
                old(self).inventory_size,
                slot1,
                is_hotbar1,
                slot2,
                is_hotbar2,
            ),
        ensures
            old(self).wf() ==> final(self).wf(),
            (final(self).hotbar_slots@, final(self).slots@) == swap_outcome(
                old(self).hotbar_slots@,
                old(self).slots@,
                old(self).hotbar_size,
                old(self).inventory_size,
                slot1,
                is_hotbar1,
                slot2,
                is_hotbar2,
            ),
            final(self).selected_hotbar_slot == old(self).selected_hotbar_slot,
            final(self).max_stack_size == old(self).max_stack_size,
            final(self).inventory_size == old(self).inventory_size,
            final(self).hotbar_size == old(self).hotbar_size,
    {
        if is_hotbar1 && is_hotbar2 && slot1 < self.hotbar_size && slot2 < self.hotbar_size {
            let a = self.hotbar_slots[slot1];
            let b = self.hotbar_slots[slot2];
            self.hotbar_slots.set(slot1, b);
            self.hotbar_slots.set(slot2, a);
        } else if !is_hotbar1 && !is_hotbar2 && slot1 < self.inventory_size && slot2
            < self.inventory_size {
            let a = self.slots[slot1];
            let b = self.slots[slot2];
            self.slots.set(slot1, b);
            self.slots.set(slot2, a);
        } else if is_hotbar1 && !is_hotbar2 && slot1 < self.hotbar_size && slot2
            < self.inventory_size {
            let hotbar_item = self.hotbar_slots[slot1];
            let inventory_item = self.slots[slot2];
            self.slots.set(slot2, hotbar_item);
            self.hotbar_slots.set(slot1, inventory_item);
        } else if !is_hotbar1 && is_hotbar2 && slot1 < self.inventory_size && slot2
            < self.hotbar_size {
            let inventory_item = self.slots[slot1];
            let hotbar_item = self.hotbar_slots[slot2];
            self.hotbar_slots.set(slot2, inventory_item);
            self.slots.set(slot1, hotbar_item);
        }
    }
}


impl Default for Inventory {
    /// 27 main slots, 9 hotbar slots, stacks of at most 64 items.
    fn default() -> (inv: Inventory)
        ensures
            inv.wf(),
            inv.slots@ == Seq::new(27, |i: int| air_stack()),
            inv.hotbar_slots@ == Seq::new(9, |i: int| air_stack()),
            inv.selected_hotbar_slot == 0,
            inv.max_stack_size == 64,
            inv.inventory_size == 27,
            inv.hotbar_size == 9,
    {
        Inventory::new(27, 9, 64)
    }
}

impl Inventory {
    /// The item stack in the selected hotbar slot, for changing it in place.
    pub fn get_selected_item_mut(&mut self) -> (r: Option<&mut ItemStack>)
        ensures
            old(self).wf() ==> final(self).wf(),
            old(self).selected_hotbar_slot < old(self).hotbar_slots.len() ==> {
                &&& r is Some
                &&& *r->0 == old(self).hotbar_slots@[old(self).selected_hotbar_slot as int]
                &&& final(self).hotbar_slots@ == old(self).hotbar_slots@.update(
                    old(self).selected_hotbar_slot as int,
                    *final(r->0),
                )
            },
            old(self).selected_hotbar_slot >= old(self).hotbar_slots.len() ==> r is None
                && final(self).hotbar_slots@ == old(self).hotbar_slots@,
            final(self).slots == old(self).slots,
            final(self).selected_hotbar_slot == old(self).selected_hotbar_slot,
            final(self).max_stack_size == old(self).max_stack_size,
            final(self).inventory_size == old(self).inventory_size,
            final(self).hotbar_size == old(self).hotbar_size,
    {
        let i = self.selected_hotbar_slot;
        if i < self.hotbar_slots.len() {
            Some(&mut self.hotbar_slots[i])
        } else {
            None
        }
    }
}

/// The items a new game starts with, in the order they are added.
pub open spec fn starting_items() -> Seq<(ItemType, u32)> {
    seq![
        (ItemType::Block(BlockType::Stone), 32u32),
        (ItemType::Block(BlockType::Dirt), 16u32),
        (ItemType::Block(BlockType::Grass), 8u32),
        (ItemType::Block(BlockType::Wood), 16u32),
        (ItemType::Block(BlockType::Sand), 8u32),
        (ItemType::Resource(ResourceType::Stick), 32u32),
        (ItemType::Food(FoodType::Apple), 10u32),
        (ItemType::Food(FoodType::Bread), 5u32),
        (ItemType::Food(FoodType::Carrot), 8u32),
        (ItemType::Food(FoodType::Potato), 8u32),
        (ItemType::Food(FoodType::Mushroom), 12u32),
        (ItemType::Food(FoodType::MeatRaw), 6u32),
        (ItemType::Food(FoodType::MeatCooked), 4u32),
    ]
}

/// Hotbar and main slots after adding each of `items` in turn with `add_item`.
pub open spec fn add_all(
    h: Seq<ItemStack>,
    s: Seq<ItemStack>,
    items: Seq<(ItemType, u32)>,
    max: u32,
) -> (Seq<ItemStack>, Seq<ItemStack>)
    decreases items.len(),
{
    if items.len() == 0 {
        (h, s)
    } else {
        let prev = add_all(h, s, items.drop_last(), max);
        let next = add_item_outcome(prev.0, prev.1, items.last().0, items.last().1, max);
        (next.0, next.1)
    }
}

/// Adds the starting items of a new game, one after another, with `add_item`.
pub fn initialize_inventory(inventory: &mut Inventory)
    ensures
        old(inventory).wf() ==> final(inventory).wf(),
        (final(inventory).hotbar_slots@, final(inventory).slots@) == add_all(
            old(inventory).hotbar_slots@,
            old(inventory).slots@,
            starting_items(),
            old(inventory).max_stack_size,
        ),
        final(inventory).selected_hotbar_slot == old(inventory).selected_hotbar_slot,
        final(inventory).max_stack_size == old(inventory).max_stack_size,
        final(inventory).inventory_size == old(inventory).inventory_size,
        final(inventory).hotbar_size == old(inventory).hotbar_size,
{
    let items: [(ItemType, u32); 13] = [
        (ItemType::Block(BlockType::Stone), 32),
        (ItemType::Block(BlockType::Dirt), 16),
        (ItemType::Block(BlockType::Grass), 8),
        (ItemType::Block(BlockType::Wood), 16),
        (ItemType::Block(BlockType::Sand), 8),
        (ItemType::Resource(ResourceType::Stick), 32),
        (ItemType::Food(FoodType::Apple), 10),
        (ItemType::Food(FoodType::Bread), 5),
        (ItemType::Food(FoodType::Carrot), 8),
        (ItemType::Food(FoodType::Potato), 8),
        (ItemType::Food(FoodType::Mushroom), 12),
        (ItemType::Food(FoodType::MeatRaw), 6),
        (ItemType::Food(FoodType::MeatCooked), 4),
    ];
    assert(items@ == starting_items());
    let mut i: usize = 0;
    while i < 13
        invariant
            i <= 13,
            items@ == starting_items(),
            (inventory.hotbar_slots@, inventory.slots@) == add_all(
                old(inventory).hotbar_slots@,
                old(inventory).slots@,
                starting_items().take(i as int),
                old(inventory).max_stack_size,
            ),
            inventory.selected_hotbar_slot == old(inventory).selected_hotbar_slot,
            inventory.max_stack_size == old(inventory).max_stack_size,
            inventory.inventory_size == old(inventory).inventory_size,
            inventory.hotbar_size == old(inventory).hotbar_size,
            old(inventory).wf() ==> inventory.wf(),
        decreases 13 - i,
    {
        let (t, n) = items[i];
        proof {
            assert(starting_items().take(i + 1).drop_last() =~= starting_items().take(i as int));
            assert(starting_items().take(i + 1).last() == (t, n));
        }
        inventory.add_item(t, n);
        i = i + 1;
    }
    assert(starting_items().take(13) =~= starting_items());
}

/// The selected slot after the digit keys `digits[0..n]` that were just
/// pressed select their slots in turn (key `k + 1` selects slot `k` when the
/// hotbar has it).
pub open spec fn after_digit_keys(selected: usize, size: usize, digits: Seq<bool>, n: int) -> usize
    decreases n,
{
    if n <= 0 {
        selected
    } else {
        let prev = after_digit_keys(selected, size, digits, n - 1);
        if digits[n - 1] && ((n - 1) as usize) < size {
            (n - 1) as usize
        } else {
            prev
        }
    }
}

/// The selected slot after one frame of hotbar keys: digit keys 1 to 9 in
/// turn, then the right arrow (next slot), then the left arrow (previous slot).
pub open spec fn after_hotbar_keys(
    selected: usize,
    size: usize,
    digits: Seq<bool>,
    right: bool,
    left: bool,
) -> int {
    let d = after_digit_keys(selected, size, digits, 9);
    let r = if right {
        next_slot_spec(d, size)
    } else {
        d as int
    };
    if left {
        previous_slot_spec(r as usize, size)
    } else {
        r
    }
}

/// Applies one frame of hotbar keys: `digits_just_pressed[k]` for the key of
/// digit `k + 1`, then the right and left arrows.
pub fn inventory_update_system(
    inventory: &mut Inventory,
    digits_just_pressed: [bool; 9],
    right_just_pressed: bool,
    left_just_pressed: bool,
)
    requires
        right_just_pressed ==> old(inventory).hotbar_size > 0 && after_digit_keys(
            old(inventory).selected_hotbar_slot,
            old(inventory).hotbar_size,
            digits_just_pressed@,
            9,
        ) < usize::MAX,
        left_just_pressed ==> (after_hotbar_keys(
            old(inventory).selected_hotbar_slot,
            old(inventory).hotbar_size,
            digits_just_pressed@,
            right_just_pressed,
            false,
        ) == 0 ==> old(inventory).hotbar_size > 0),
    ensures
        old(inventory).wf() ==> final(inventory).wf(),
        final(inventory).selected_hotbar_slot == after_hotbar_keys(
            old(inventory).selected_hotbar_slot,
            old(inventory).hotbar_size,
            digits_just_pressed@,
            right_just_pressed,
            left_just_pressed,
        ),
        final(inventory).slots == old(inventory).slots,
        final(inventory).hotbar_slots == old(inventory).hotbar_slots,
        final(inventory).max_stack_size == old(inventory).max_stack_size,
        final(inventory).inventory_size == old(inventory).inventory_size,
        final(inventory).hotbar_size == old(inventory).hotbar_size,
{
    let mut k: usize = 0;
    while k < 9
        invariant
            k <= 9,
            inventory.selected_hotbar_slot == after_digit_keys(
                old(inventory).selected_hotbar_slot,
                old(inventory).hotbar_size,
                digits_just_pressed@,
                k as int,
            ),
            inventory.slots == old(inventory).slots,
            inventory.hotbar_slots == old(inventory).hotbar_slots,
            inventory.max_stack_size == old(inventory).max_stack_size,
            inventory.inventory_size == old(inventory).inventory_size,
            inventory.hotbar_size == old(inventory).hotbar_size,
        decreases 9 - k,
    {
        if digits_just_pressed[k] {
            inventory.select_hotbar_slot(k);
        }
        k = k + 1;
    }
    if right_just_pressed {
        inventory.next_hotbar_slot();
    }
    if left_just_pressed {
        inventory.previous_hotbar_slot();
    }
}

} // verus!
