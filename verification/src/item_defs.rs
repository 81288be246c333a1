//! Item ids, weapon types and the liquid kinds that containers hold.

use vstd::prelude::*;

verus! {

// Food: raw 0-99, cooked 100-199
pub const ITEM_BERRIES: u16 = 0;
pub const ITEM_RAW_MEAT: u16 = 1;
pub const ITEM_RAW_FISH: u16 = 2;
pub const ITEM_NECTAR: u16 = 3;
pub const ITEM_COOKED_MEAT: u16 = 100;
pub const ITEM_COOKED_FISH: u16 = 101;
// Raw materials 200-299
pub const ITEM_WOOD: u16 = 200;
pub const ITEM_ROCK: u16 = 201;
pub const ITEM_FIBER: u16 = 202;
pub const ITEM_CLAY: u16 = 203;
pub const ITEM_SCRAP_WOOD: u16 = 204;
pub const ITEM_LOG: u16 = 205;
pub const ITEM_REED_STALK: u16 = 206;
pub const ITEM_THORNS: u16 = 207;
pub const ITEM_SALT: u16 = 208;
pub const ITEM_DRIED_PETALS: u16 = 209;
pub const ITEM_CHARCOAL: u16 = 210;
// Intermediate / crafted materials 300-399
pub const ITEM_ROPE: u16 = 300;
pub const ITEM_PLANK: u16 = 301;
pub const ITEM_UNFIRED_JUG: u16 = 302;
// Containers 400-499
pub const ITEM_WOODEN_BUCKET: u16 = 400;
pub const ITEM_CLAY_JUG: u16 = 401;
// Tools 500-599
pub const ITEM_STONE_AXE: u16 = 500;
pub const ITEM_STONE_PICK: u16 = 501;
pub const ITEM_WOODEN_SHOVEL: u16 = 502;
pub const ITEM_KNIFE: u16 = 503;
pub const ITEM_PRIMITIVE_HAMMERSTONE: u16 = 504;
pub const ITEM_PRIMITIVE_STONE_BLADE: u16 = 505;
pub const ITEM_FLINT_BLADE: u16 = 506;
pub const ITEM_FLINT_PICK: u16 = 507;
pub const ITEM_FLINT_AXE: u16 = 508;
pub const ITEM_PRIMITIVE_DIGGING_STICK: u16 = 509;
// Weapons 600-699
pub const ITEM_PISTOL: u16 = 600;
// Equipment / utility 700-799
pub const ITEM_FIBER_BELT: u16 = 700;
pub const ITEM_FISHING_LINE: u16 = 701;
pub const ITEM_SNARE: u16 = 702;
// Ammo 800-899
pub const ITEM_PISTOL_ROUNDS: u16 = 800;

// Weapon types (as the shader numbers them)
pub const WEAPON_NONE: u8 = 0;
pub const WEAPON_AXE: u8 = 1;
pub const WEAPON_PICK: u8 = 2;
pub const WEAPON_SHOVEL: u8 = 3;
pub const WEAPON_PISTOL: u8 = 4;
pub const WEAPON_KNIFE: u8 = 5;

/// Number of item id slots in the item registry.
pub const MAX_ITEMS: usize = 900;

/// Liquid that a container can hold.
#[derive(Clone, Copy, Debug, PartialEq, Eq)]
pub enum LiquidType {
    Water,
}

/// Stack size of an item definition that does not give one.
pub fn default_stack_max() -> (n: u16)
    ensures
        n == 1,
{
    1
}

} // verus!
