use vstd::prelude::*;
use vstd::string::StringExecFns;
use crate::block::BlockType;
use crate::inventory::{item_name_spec, Inventory, ItemStack, ItemType, ResourceType, ToolType};

verus! {

/// The `k`-th four-byte pixel of an RGBA8 buffer.
pub open spec fn rgba_at(out: Seq<u8>, k: int) -> Seq<u8> {
    out.subrange(4 * k, 4 * k + 4)
}

/// The high byte of the little-endian 16-bit channel starting at byte `i`.
pub open spec fn high_byte(data: Seq<u8>, i: int) -> u8 {
    data[i + 1]
}

/// The signed little-endian 16-bit channel starting at byte `i`, shifted to
/// `0..=65535` and scaled to a byte: `(v + 32768) * 255 / 65535`.
pub open spec fn scaled_signed(data: Seq<u8>, i: int) -> u8 {
    let shifted = ((data[i + 1] as int + 128) % 256) * 256 + data[i] as int;
    ((shifted * 255) / 65535) as u8
}

/// Appends pixel `(a, b, c, d)`.
fn push_rgba(out: &mut Vec<u8>, a: u8, b: u8, c: u8, d: u8)
    ensures
        final(out)@ == old(out)@ + seq![a, b, c, d],
{
    out.push(a);
    out.push(b);
    out.push(c);
    out.push(d);
    assert(out@ =~= old(out)@ + seq![a, b, c, d]);
}

/// Appending a pixel to a buffer of `n` pixels keeps them and adds it as pixel `n`.
pub proof fn lemma_push_rgba(before: Seq<u8>, after: Seq<u8>, n: int, px: Seq<u8>)
    requires
        before.len() == 4 * n,
        px.len() == 4,
        after == before + px,
    ensures
        after.len() == 4 * (n + 1),
        forall|k: int| 0 <= k < n ==> rgba_at(after, k) == rgba_at(before, k),
        rgba_at(after, n) == px,
{
    assert forall|k: int| 0 <= k < n implies rgba_at(after, k) == rgba_at(before, k) by {
        assert(rgba_at(after, k) =~= rgba_at(before, k));
    }
    assert(rgba_at(after, n) =~= px);
}

/// `(v + 32768) * 255 / 65535` for the signed channel at byte `i`.
fn scale_signed(data: &[u8], i: usize) -> (r: u8)
    requires
        i + 1 < data@.len(),
    ensures
        r == scaled_signed(data@, i as int),
{
    let len = data.len();
    assert(i + 1 < len);
    let hi: u32 = data[i + 1] as u32;
    let lo: u32 = data[i] as u32;
    let shifted: u32 = ((hi + 128) % 256) * 256 + lo;
    assert(shifted * 255 / 65535 <= 255) by (nonlinear_arith)
        requires
            shifted <= 65535,
    ;
    (shifted * 255 / 65535) as u8
}

/// One-channel 16-bit pixels to grey RGBA8: the high byte of each channel in
/// red, green and blue, alpha 255; a trailing odd byte is dropped.
pub fn convert_r16_to_rgba8(data: &[u8], _size: (u32, u32)) -> (r: Vec<u8>)
    ensures
        r@.len() == 4 * (data@.len() / 2),
        forall|k: int|
            0 <= k < data@.len() / 2 ==> #[trigger] rgba_at(r@, k) == seq![
                high_byte(data@, 2 * k),
                high_byte(data@, 2 * k),
                high_byte(data@, 2 * k),
                255u8,
            ],
{
    let len = data.len();
    let n = len / 2;
    proof {
        vstd::arithmetic::div_mod::lemma_fundamental_div_mod(data@.len() as int, 2);
    }
    let mut out: Vec<u8> = Vec::new();
    let mut k: usize = 0;
    while k < n
        invariant
            n == data@.len() / 2,
            len == data@.len(),
            2 * n <= len,
            k <= n,
            out@.len() == 4 * k,
            forall|j: int|
                0 <= j < k ==> #[trigger] rgba_at(out@, j) == seq![
                    high_byte(data@, 2 * j),
                    high_byte(data@, 2 * j),
                    high_byte(data@, 2 * j),
                    255u8,
                ],
        decreases n - k,
    {
        let byte = data[2 * k + 1];
        let ghost before = out@;
        push_rgba(&mut out, byte, byte, byte, 255);
        proof {
            lemma_push_rgba(before, out@, k as int, seq![byte, byte, byte, 255u8]);
        }
        k = k + 1;
    }
    out
}

/// Two-channel 16-bit pixels to RGBA8: the high bytes in red and green, blue
/// 0, alpha 255; trailing bytes of an incomplete pixel are dropped.
pub fn convert_rg16_to_rgba8(data: &[u8], _size: (u32, u32)) -> (r: Vec<u8>)
    ensures
        r@.len() == 4 * (data@.len() / 4),
        forall|k: int|
            0 <= k < data@.len() / 4 ==> #[trigger] rgba_at(r@, k) == seq![
                high_byte(data@, 4 * k),
                high_byte(data@, 4 * k + 2),
                0u8,
                255u8,
            ],
{
    let len = data.len();
    let n = len / 4;
    proof {
        vstd::arithmetic::div_mod::lemma_fundamental_div_mod(data@.len() as int, 4);
    }
    let mut out: Vec<u8> = Vec::new();
    let mut k: usize = 0;
    while k < n
        invariant
            n == data@.len() / 4,
            len == data@.len(),
            4 * n <= len,
            k <= n,
            out@.len() == 4 * k,
            forall|j: int|
                0 <= j < k ==> #[trigger] rgba_at(out@, j) == seq![
                    high_byte(data@, 4 * j),
                    high_byte(data@, 4 * j + 2),
                    0u8,
                    255u8,
                ],
        decreases n - k,
    {
        let r = data[4 * k + 1];
        let g = data[4 * k + 3];
        let ghost before = out@;
        push_rgba(&mut out, r, g, 0, 255);
        proof {
            lemma_push_rgba(before, out@, k as int, seq![r, g, 0u8, 255u8]);
        }
        k = k + 1;
    }
    out
}

/// Four-channel 16-bit pixels to RGBA8: the high byte of each channel.
pub fn convert_rgba16_to_rgba8(data: &[u8], _size: (u32, u32)) -> (r: Vec<u8>)
    ensures
        r@.len() == 4 * (data@.len() / 8),
        forall|k: int|
            0 <= k < data@.len() / 8 ==> #[trigger] rgba_at(r@, k) == seq![
                high_byte(data@, 8 * k),
                high_byte(data@, 8 * k + 2),
                high_byte(data@, 8 * k + 4),
                high_byte(data@, 8 * k + 6),
            ],
{
    let len = data.len();
    let n = len / 8;
    proof {
        vstd::arithmetic::div_mod::lemma_fundamental_div_mod(data@.len() as int, 8);
    }
    let mut out: Vec<u8> = Vec::new();
    let mut k: usize = 0;
    while k < n
        invariant
            n == data@.len() / 8,
            len == data@.len(),
            8 * n <= len,
            k <= n,
            out@.len() == 4 * k,
            forall|j: int|
                0 <= j < k ==> #[trigger] rgba_at(out@, j) == seq![
                    high_byte(data@, 8 * j),
                    high_byte(data@, 8 * j + 2),
                    high_byte(data@, 8 * j + 4),
                    high_byte(data@, 8 * j + 6),
                ],
        decreases n - k,
    {
        let r = data[8 * k + 1];
        let g = data[8 * k + 3];
        let b = data[8 * k + 5];
        let a = data[8 * k + 7];
        let ghost before = out@;
        push_rgba(&mut out, r, g, b, a);
        proof {
            lemma_push_rgba(before, out@, k as int, seq![r, g, b, a]);
        }
        k = k + 1;
    }
    out
}

/// Three-channel 16-bit pixels to RGBA8: the high byte of each channel, alpha 255.
pub fn convert_rgb16_to_rgba8(data: &[u8], _size: (u32, u32)) -> (r: Vec<u8>)
    ensures
        r@.len() == 4 * (data@.len() / 6),
        forall|k: int|
            0 <= k < data@.len() / 6 ==> #[trigger] rgba_at(r@, k) == seq![
                high_byte(data@, 6 * k),
                high_byte(data@, 6 * k + 2),
                high_byte(data@, 6 * k + 4),
                255u8,
            ],
{
    let len = data.len();
    let n = len / 6;
    proof {
        vstd::arithmetic::div_mod::lemma_fundamental_div_mod(data@.len() as int, 6);
    }
    let mut out: Vec<u8> = Vec::new();
    let mut k: usize = 0;
    while k < n
        invariant
            n == data@.len() / 6,
            len == data@.len(),
            6 * n <= len,
            k <= n,
            out@.len() == 4 * k,
            forall|j: int|
                0 <= j < k ==> #[trigger] rgba_at(out@, j) == seq![
                    high_byte(data@, 6 * j),
                    high_byte(data@, 6 * j + 2),
                    high_byte(data@, 6 * j + 4),
                    255u8,
                ],
        decreases n - k,
    {
        let r = data[6 * k + 1];
        let g = data[6 * k + 3];
        let b = data[6 * k + 5];
        let ghost before = out@;
        push_rgba(&mut out, r, g, b, 255);
        proof {
            lemma_push_rgba(before, out@, k as int, seq![r, g, b, 255u8]);
        }
        k = k + 1;
    }
    out
}

/// One-channel signed 16-bit pixels to grey RGBA8: each channel shifted and
/// scaled to a byte in red, green and blue, alpha 255.
pub fn convert_r16i_to_rgba8(data: &[u8], _size: (u32, u32)) -> (r: Vec<u8>)
    ensures
        r@.len() == 4 * (data@.len() / 2),
        forall|k: int|
            0 <= k < data@.len() / 2 ==> #[trigger] rgba_at(r@, k) == seq![
                scaled_signed(data@, 2 * k),
                scaled_signed(data@, 2 * k),
                scaled_signed(data@, 2 * k),
                255u8,
            ],
{
    let len = data.len();
    let n = len / 2;
    proof {
        vstd::arithmetic::div_mod::lemma_fundamental_div_mod(data@.len() as int, 2);
    }
    let mut out: Vec<u8> = Vec::new();
    let mut k: usize = 0;
    while k < n
        invariant
            n == data@.len() / 2,
            len == data@.len(),
            2 * n <= len,
            k <= n,
            out@.len() == 4 * k,
            forall|j: int|
                0 <= j < k ==> #[trigger] rgba_at(out@, j) == seq![
                    scaled_signed(data@, 2 * j),
                    scaled_signed(data@, 2 * j),
                    scaled_signed(data@, 2 * j),
                    255u8,
                ],
        decreases n - k,
    {
        let byte = scale_signed(data, 2 * k);
        let ghost before = out@;
        push_rgba(&mut out, byte, byte, byte, 255);
        proof {
            lemma_push_rgba(before, out@, k as int, seq![byte, byte, byte, 255u8]);
        }
        k = k + 1;
    }
    out
}

/// Two-channel signed 16-bit pixels to RGBA8: the scaled channels in red and
/// green, blue 0, alpha 255.
pub fn convert_rg16i_to_rgba8(data: &[u8], _size: (u32, u32)) -> (r: Vec<u8>)
    ensures
        r@.len() == 4 * (data@.len() / 4),
        forall|k: int|
            0 <= k < data@.len() / 4 ==> #[trigger] rgba_at(r@, k) == seq![
                scaled_signed(data@, 4 * k),
                scaled_signed(data@, 4 * k + 2),
                0u8,
                255u8,
            ],
{
    let len = data.len();
    let n = len / 4;
    proof {
        vstd::arithmetic::div_mod::lemma_fundamental_div_mod(data@.len() as int, 4);
    }
    let mut out: Vec<u8> = Vec::new();
    let mut k: usize = 0;
    while k < n
        invariant
            n == data@.len() / 4,
            len == data@.len(),
            4 * n <= len,
            k <= n,
            out@.len() == 4 * k,
            forall|j: int|
                0 <= j < k ==> #[trigger] rgba_at(out@, j) == seq![
                    scaled_signed(data@, 4 * j),
                    scaled_signed(data@, 4 * j + 2),
                    0u8,
                    255u8,
                ],
        decreases n - k,
    {
        let r = scale_signed(data, 4 * k);
        let g = scale_signed(data, 4 * k + 2);
        let ghost before = out@;
        push_rgba(&mut out, r, g, 0, 255);
        proof {
            lemma_push_rgba(before, out@, k as int, seq![r, g, 0u8, 255u8]);
        }
        k = k + 1;
    }
    out
}

/// Four-channel signed 16-bit pixels to RGBA8: each channel scaled to a byte.
pub fn convert_rgba16i_to_rgba8(data: &[u8], _size: (u32, u32)) -> (r: Vec<u8>)
    ensures
        r@.len() == 4 * (data@.len() / 8),
        forall|k: int|
            0 <= k < data@.len() / 8 ==> #[trigger] rgba_at(r@, k) == seq![
                scaled_signed(data@, 8 * k),
                scaled_signed(data@, 8 * k + 2),
                scaled_signed(data@, 8 * k + 4),
                scaled_signed(data@, 8 * k + 6),
            ],
{
    let len = data.len();
    let n = len / 8;
    proof {
        vstd::arithmetic::div_mod::lemma_fundamental_div_mod(data@.len() as int, 8);
    }
    let mut out: Vec<u8> = Vec::new();
    let mut k: usize = 0;
    while k < n
        invariant
            n == data@.len() / 8,
            len == data@.len(),
            8 * n <= len,
            k <= n,
            out@.len() == 4 * k,
            forall|j: int|
                0 <= j < k ==> #[trigger] rgba_at(out@, j) == seq![
                    scaled_signed(data@, 8 * j),
                    scaled_signed(data@, 8 * j + 2),
                    scaled_signed(data@, 8 * j + 4),
                    scaled_signed(data@, 8 * j + 6),
                ],
        decreases n - k,
    {
        let r = scale_signed(data, 8 * k);
        let g = scale_signed(data, 8 * k + 2);
        let b = scale_signed(data, 8 * k + 4);
        let a = scale_signed(data, 8 * k + 6);
        let ghost before = out@;
        push_rgba(&mut out, r, g, b, a);
        proof {
            lemma_push_rgba(before, out@, k as int, seq![r, g, b, a]);
        }
        k = k + 1;
    }
    out
}

/// How an image of `len` bytes and `pixels` pixels is made UI-ready: 1 for
/// one 16-bit channel, 2 for two, 3 for three; 0 when it is left alone
/// (not 16-bit by its size, or exactly twice the RGBA8 size).
pub open spec fn ui_conversion_kind(len: int, pixels: int) -> int {
    let is_16bit = len == pixels * 2 || len == pixels * 4 || len == pixels * 6 || len == pixels * 8;
    if !is_16bit || pixels * 4 * 2 == len {
        0
    } else if len == pixels * 2 {
        1
    } else if len == pixels * 4 {
        2
    } else {
        3
    }
}

/// The RGBA8 data a UI image of `size_x` by `size_y` pixels is replaced with,
/// or `None` when it is left as it is: data whose length says one, two or
/// three 16-bit channels per pixel is converted to RGBA8 by keeping the high
/// byte of each channel.
pub fn fix_ui_texture_data(data: &[u8], size_x: u32, size_y: u32) -> (r: Option<Vec<u8>>)
    requires
        size_x * size_y * 8 <= u32::MAX,
    ensures
        ({
            let kind = ui_conversion_kind(data@.len() as int, size_x * size_y);
            &&& kind == 0 ==> r is None
            &&& kind != 0 ==> r is Some
            &&& kind == 1 ==> r->0@.len() == 4 * (data@.len() / 2) && forall|k: int|
                0 <= k < data@.len() / 2 ==> #[trigger] rgba_at(r->0@, k) == seq![
                    high_byte(data@, 2 * k),
                    high_byte(data@, 2 * k),
                    high_byte(data@, 2 * k),
                    255u8,
                ]
            &&& kind == 2 ==> r->0@.len() == 4 * (data@.len() / 4) && forall|k: int|
                0 <= k < data@.len() / 4 ==> #[trigger] rgba_at(r->0@, k) == seq![
                    high_byte(data@, 4 * k),
                    high_byte(data@, 4 * k + 2),
                    0u8,
                    255u8,
                ]
            &&& kind == 3 ==> r->0@.len() == 4 * (data@.len() / 6) && forall|k: int|
                0 <= k < data@.len() / 6 ==> #[trigger] rgba_at(r->0@, k) == seq![
                    high_byte(data@, 6 * k),
                    high_byte(data@, 6 * k + 2),
                    high_byte(data@, 6 * k + 4),
                    255u8,
                ]
        }),
{
    assert(size_x * size_y <= u32::MAX) by (nonlinear_arith)
        requires
            size_x * size_y * 8 <= u32::MAX,
    ;
    let pixels: u32 = size_x * size_y;
    let len = data.len();
    let expected_rgba8_size = (pixels * 4) as usize;
    let two = (pixels * 2) as usize;
    let four = (pixels * 4) as usize;
    let six = (pixels * 6) as usize;
    let eight = (pixels * 8) as usize;
    let is_16bit = len == two || len == four || len == six || len == eight;
    if is_16bit && expected_rgba8_size as u64 * 2 == len as u64 {
        return None;
    }
    if !is_16bit {
        return None;
    }
    let size = (size_x, size_y);
    if len == two {
        Some(convert_r16_to_rgba8(data, size))
    } else if len == four {
        Some(convert_rg16_to_rgba8(data, size))
    } else {
        Some(convert_rgb16_to_rgba8(data, size))
    }
}

/// How a hotbar slot is shown: the empty-set sign when it holds nothing,
/// else the name of its item.
pub open spec fn slot_label(st: ItemStack) -> Seq<char> {
    if st.quantity == 0 {
        "\u{2205}"@
    } else {
        item_name_spec(st.item_type)
    }
}

/// The first `n` entries of the hotbar line: each slot's label, the selected
/// one in brackets, separated by `" | "`.
pub open spec fn hotbar_entries(slots: Seq<ItemStack>, selected: int, n: int) -> Seq<char>
    decreases n,
{
    if n <= 0 {
        Seq::empty()
    } else {
        let i = n - 1;
        let label = if i == selected {
            "["@ + slot_label(slots[i]) + "]"@
        } else {
            slot_label(slots[i])
        };
        let sep = if i < slots.len() - 1 {
            " | "@
        } else {
            Seq::empty()
        };
        hotbar_entries(slots, selected, n - 1) + label + sep
    }
}

/// The line that shows the hotbar.
pub open spec fn hotbar_line_spec(inventory: Inventory) -> Seq<char> {
    "\u{1F3AE} Hotbar: ["@ + hotbar_entries(
        inventory.hotbar_slots@,
        inventory.selected_hotbar_slot as int,
        inventory.hotbar_slots@.len() as int,
    ) + "]"@
}

/// The label of a hotbar slot.
fn slot_label_of(st: &ItemStack) -> (r: &'static str)
    ensures
        r@ == slot_label(*st),
{
    if st.is_empty() {
        "\u{2205}"
    } else {
        st.item_type.name()
    }
}

/// The line that shows the hotbar: every slot's label (the selected one in
/// brackets) between the game-pad sign with `" Hotbar: ["` and `"]"`,
/// separated by `" | "`.
pub fn hotbar_info_line(inventory: &Inventory) -> (r: String)
    ensures
        r@ == hotbar_line_spec(*inventory),
{
    let mut line = "\u{1F3AE} Hotbar: [".to_owned();
    let n = inventory.hotbar_slots.len();
    let mut i: usize = 0;
    while i < n
        invariant
            i <= n,
            n == inventory.hotbar_slots@.len(),
            line@ == "\u{1F3AE} Hotbar: ["@ + hotbar_entries(
                inventory.hotbar_slots@,
                inventory.selected_hotbar_slot as int,
                i as int,
            ),
        decreases n - i,
    {
        let label = slot_label_of(&inventory.hotbar_slots[i]);
        if i == inventory.selected_hotbar_slot {
            line.append("[");
            line.append(label);
            line.append("]");
        } else {
            line.append(label);
        }
        if i < n - 1 {
            line.append(" | ");
        }
        proof {
            assert(line@ =~= "\u{1F3AE} Hotbar: ["@ + hotbar_entries(
                inventory.hotbar_slots@,
                inventory.selected_hotbar_slot as int,
                i + 1,
            ));
        }
        i = i + 1;
    }
    line.append("]");
    line
}


/// Path of the hotbar icon of `item`, when it has one: every block item but
/// air and lava, every tool and every resource has `textures/<name>_icon.png`;
/// food items and the two blocks have none.
pub open spec fn icon_path(item: ItemType) -> Option<Seq<char>> {
    match item {
        ItemType::Block(BlockType::Grass) => Some("textures/grass_icon.png"@),
        ItemType::Block(BlockType::Dirt) => Some("textures/dirt_icon.png"@),
        ItemType::Block(BlockType::Stone) => Some("textures/stone_icon.png"@),
        ItemType::Block(BlockType::Wood) => Some("textures/wood_icon.png"@),
        ItemType::Block(BlockType::Leaves) => Some("textures/leaves_icon.png"@),
        ItemType::Block(BlockType::Sand) => Some("textures/sand_icon.png"@),
        ItemType::Block(BlockType::Bedrock) => Some("textures/bedrock_icon.png"@),
        ItemType::Block(BlockType::Water) => Some("textures/water_icon.png"@),
        ItemType::Tool(ToolType::Pickaxe) => Some("textures/pickaxe_icon.png"@),
        ItemType::Tool(ToolType::Axe) => Some("textures/axe_icon.png"@),
        ItemType::Tool(ToolType::Shovel) => Some("textures/shovel_icon.png"@),
        ItemType::Tool(ToolType::Sword) => Some("textures/sword_icon.png"@),
        ItemType::Resource(ResourceType::Stick) => Some("textures/stick_icon.png"@),
        ItemType::Resource(ResourceType::String) => Some("textures/string_icon.png"@),
        ItemType::Resource(ResourceType::Coal) => Some("textures/coal_icon.png"@),
        ItemType::Resource(ResourceType::IronIngot) => Some("textures/iron_ingot_icon.png"@),
        ItemType::Resource(ResourceType::GoldIngot) => Some("textures/gold_ingot_icon.png"@),
        _ => None,
    }
}

/// The asset path of the hotbar icon of `item`, or `None` when the item has
/// no icon of its own.
pub fn item_icon_path(item: ItemType) -> (r: Option<&'static str>)
    ensures
        r is Some <==> icon_path(item) is Some,
        r matches Some(path) ==> path@ == icon_path(item)->0,
{
    match item {
        ItemType::Block(BlockType::Grass) => Some("textures/grass_icon.png"),
        ItemType::Block(BlockType::Dirt) => Some("textures/dirt_icon.png"),
        ItemType::Block(BlockType::Stone) => Some("textures/stone_icon.png"),
        ItemType::Block(BlockType::Wood) => Some("textures/wood_icon.png"),
        ItemType::Block(BlockType::Leaves) => Some("textures/leaves_icon.png"),
        ItemType::Block(BlockType::Sand) => Some("textures/sand_icon.png"),
        ItemType::Block(BlockType::Bedrock) => Some("textures/bedrock_icon.png"),
        ItemType::Block(BlockType::Water) => Some("textures/water_icon.png"),
        ItemType::Tool(ToolType::Pickaxe) => Some("textures/pickaxe_icon.png"),
        ItemType::Tool(ToolType::Axe) => Some("textures/axe_icon.png"),
        ItemType::Tool(ToolType::Shovel) => Some("textures/shovel_icon.png"),
        ItemType::Tool(ToolType::Sword) => Some("textures/sword_icon.png"),
        ItemType::Resource(ResourceType::Stick) => Some("textures/stick_icon.png"),
        ItemType::Resource(ResourceType::String) => Some("textures/string_icon.png"),
        ItemType::Resource(ResourceType::Coal) => Some("textures/coal_icon.png"),
        ItemType::Resource(ResourceType::IronIngot) => Some("textures/iron_ingot_icon.png"),
        ItemType::Resource(ResourceType::GoldIngot) => Some("textures/gold_ingot_icon.png"),
        _ => None,
    }
}

} // verus!
