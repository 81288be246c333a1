//! The block type ids as WGSL constant declarations, so shaders use the same names.

use vstd::prelude::*;
use vstd::string::StringExecFns;
use crate::grid::{BT_AIR, BT_STONE, BT_GROUND, BT_WATER, BT_WALL, BT_GLASS, BT_FIREPLACE, BT_CEILING_LIGHT, BT_TREE, BT_BENCH, BT_FLOOR_LAMP, BT_TABLE_LAMP, BT_FAN, BT_COMPOST, BT_INSULATED, BT_PIPE, BT_PUMP, BT_TANK, BT_VALVE, BT_OUTLET, BT_INLET, BT_WOOD_WALL, BT_STEEL_WALL, BT_SANDSTONE, BT_GRANITE, BT_LIMESTONE, BT_WOOD_FLOOR, BT_STONE_FLOOR, BT_CONCRETE_FLOOR, BT_CANNON, BT_BED, BT_BERRY_BUSH, BT_DUG_GROUND, BT_CRATE, BT_ROCK, BT_MUD_WALL, BT_WIRE, BT_SOLAR, BT_BATTERY_S, BT_BATTERY_M, BT_BATTERY_L, BT_WIND_TURBINE, BT_SWITCH, BT_DIMMER, BT_DIAGONAL, BT_BREAKER, BT_RESTRICTOR, BT_CROP, BT_FLOODLIGHT, BT_LIQUID_PIPE, BT_PIPE_BRIDGE, BT_WIRE_BRIDGE, BT_LIQUID_INTAKE, BT_LIQUID_PUMP, BT_LIQUID_OUTPUT, BT_WALL_TORCH, BT_WALL_LAMP, BT_WORKBENCH, BT_KILN, BT_WELL, BT_ROUGH_FLOOR, BT_SAW_HORSE, BT_CAMPFIRE, BT_LOW_WALL, BT_SNARE, BT_DUSTWHISKER, BT_HOLLOW_REED, BT_THORNBRAKE, BT_SALTBRUSH, BT_DUSKBLOOM, BT_CHARCOAL_MOUND, BT_SALVAGE_CRATE, BT_CRATER, BT_ROUGH_TABLE, BT_STOOL, BT_DRYING_RACK};

verus! {

/// Decimal digit character.
pub open spec fn digit_char(d: int) -> char {
    if d == 0 {
        '0'
    } else if d == 1 {
        '1'
    } else if d == 2 {
        '2'
    } else if d == 3 {
        '3'
    } else if d == 4 {
        '4'
    } else if d == 5 {
        '5'
    } else if d == 6 {
        '6'
    } else if d == 7 {
        '7'
    } else if d == 8 {
        '8'
    } else {
        '9'
    }
}

/// Decimal representation of n, without leading zeros.
pub open spec fn decimal(n: nat) -> Seq<char>
    decreases n,
{
    if n < 10 {
        seq![digit_char(n as int)]
    } else {
        decimal(n / 10) + seq![digit_char((n % 10) as int)]
    }
}

/// One WGSL declaration line: `const NAME: u32 = VALUEu;` and a newline.
pub open spec fn wgsl_line(name: Seq<char>, value: u32) -> Seq<char> {
    "const "@ + name + ": u32 = "@ + decimal(value as nat) + "u;\n"@
}

/// The declaration lines of a table of (name, value) pairs, in order.
pub open spec fn wgsl_lines(table: Seq<(Seq<char>, u32)>) -> Seq<char>
    decreases table.len(),
{
    if table.len() == 0 {
        Seq::empty()
    } else {
        wgsl_lines(table.drop_last()) + wgsl_line(table.last().0, table.last().1)
    }
}

/// Every block type id with its name, in id order.
pub open spec fn block_constant_table() -> Seq<(Seq<char>, u32)> {
    seq![
        ("BT_AIR"@, BT_AIR),
        ("BT_STONE"@, BT_STONE),
        ("BT_GROUND"@, BT_GROUND),
        ("BT_WATER"@, BT_WATER),
        ("BT_WALL"@, BT_WALL),
        ("BT_GLASS"@, BT_GLASS),
        ("BT_FIREPLACE"@, BT_FIREPLACE),
        ("BT_CEILING_LIGHT"@, BT_CEILING_LIGHT),
        ("BT_TREE"@, BT_TREE),
        ("BT_BENCH"@, BT_BENCH),
        ("BT_FLOOR_LAMP"@, BT_FLOOR_LAMP),
        ("BT_TABLE_LAMP"@, BT_TABLE_LAMP),
        ("BT_FAN"@, BT_FAN),
        ("BT_COMPOST"@, BT_COMPOST),
        ("BT_INSULATED"@, BT_INSULATED),
        ("BT_PIPE"@, BT_PIPE),
        ("BT_PUMP"@, BT_PUMP),
        ("BT_TANK"@, BT_TANK),
        ("BT_VALVE"@, BT_VALVE),
        ("BT_OUTLET"@, BT_OUTLET),
        ("BT_INLET"@, BT_INLET),
        ("BT_WOOD_WALL"@, BT_WOOD_WALL),
        ("BT_STEEL_WALL"@, BT_STEEL_WALL),
        ("BT_SANDSTONE"@, BT_SANDSTONE),
        ("BT_GRANITE"@, BT_GRANITE),
        ("BT_LIMESTONE"@, BT_LIMESTONE),
        ("BT_WOOD_FLOOR"@, BT_WOOD_FLOOR),
        ("BT_STONE_FLOOR"@, BT_STONE_FLOOR),
        ("BT_CONCRETE_FLOOR"@, BT_CONCRETE_FLOOR),
        ("BT_CANNON"@, BT_CANNON),
        ("BT_BED"@, BT_BED),
        ("BT_BERRY_BUSH"@, BT_BERRY_BUSH),
        ("BT_DUG_GROUND"@, BT_DUG_GROUND),
        ("BT_CRATE"@, BT_CRATE),
        ("BT_ROCK"@, BT_ROCK),
        ("BT_MUD_WALL"@, BT_MUD_WALL),
        ("BT_WIRE"@, BT_WIRE),
        ("BT_SOLAR"@, BT_SOLAR),
        ("BT_BATTERY_S"@, BT_BATTERY_S),
        ("BT_BATTERY_M"@, BT_BATTERY_M),
        ("BT_BATTERY_L"@, BT_BATTERY_L),
        ("BT_WIND_TURBINE"@, BT_WIND_TURBINE),
        ("BT_SWITCH"@, BT_SWITCH),
        ("BT_DIMMER"@, BT_DIMMER),
        ("BT_DIAGONAL"@, BT_DIAGONAL),
        ("BT_BREAKER"@, BT_BREAKER),
        ("BT_RESTRICTOR"@, BT_RESTRICTOR),
        ("BT_CROP"@, BT_CROP),
        ("BT_FLOODLIGHT"@, BT_FLOODLIGHT),
        ("BT_LIQUID_PIPE"@, BT_LIQUID_PIPE),
        ("BT_PIPE_BRIDGE"@, BT_PIPE_BRIDGE),
        ("BT_WIRE_BRIDGE"@, BT_WIRE_BRIDGE),
        ("BT_LIQUID_INTAKE"@, BT_LIQUID_INTAKE),
        ("BT_LIQUID_PUMP"@, BT_LIQUID_PUMP),
        ("BT_LIQUID_OUTPUT"@, BT_LIQUID_OUTPUT),
        ("BT_WALL_TORCH"@, BT_WALL_TORCH),
        ("BT_WALL_LAMP"@, BT_WALL_LAMP),
        ("BT_WORKBENCH"@, BT_WORKBENCH),
        ("BT_KILN"@, BT_KILN),
        ("BT_WELL"@, BT_WELL),
        ("BT_ROUGH_FLOOR"@, BT_ROUGH_FLOOR),
        ("BT_SAW_HORSE"@, BT_SAW_HORSE),
        ("BT_CAMPFIRE"@, BT_CAMPFIRE),
        ("BT_LOW_WALL"@, BT_LOW_WALL),
        ("BT_SNARE"@, BT_SNARE),
        ("BT_DUSTWHISKER"@, BT_DUSTWHISKER),
        ("BT_HOLLOW_REED"@, BT_HOLLOW_REED),
        ("BT_THORNBRAKE"@, BT_THORNBRAKE),
        ("BT_SALTBRUSH"@, BT_SALTBRUSH),
        ("BT_DUSKBLOOM"@, BT_DUSKBLOOM),
        ("BT_CHARCOAL_MOUND"@, BT_CHARCOAL_MOUND),
        ("BT_SALVAGE_CRATE"@, BT_SALVAGE_CRATE),
        ("BT_CRATER"@, BT_CRATER),
        ("BT_ROUGH_TABLE"@, BT_ROUGH_TABLE),
        ("BT_STOOL"@, BT_STOOL),
        ("BT_DRYING_RACK"@, BT_DRYING_RACK)
    ]
}

/// Header line of the generated WGSL block.
pub open spec fn wgsl_header() -> Seq<char> {
    "// --- Block type constants (generated from grid.rs) ---\n"@
}

fn append_digit(s: &mut String, d: u32)
    requires
        d < 10,
    ensures
        final(s)@ == old(s)@ + seq![digit_char(d as int)],
{
    proof {
        reveal_strlit("0");
        reveal_strlit("1");
        reveal_strlit("2");
        reveal_strlit("3");
        reveal_strlit("4");
        reveal_strlit("5");
        reveal_strlit("6");
        reveal_strlit("7");
        reveal_strlit("8");
        reveal_strlit("9");
    }
    if d == 0 {
        s.append("0");
    } else if d == 1 {
        s.append("1");
    } else if d == 2 {
        s.append("2");
    } else if d == 3 {
        s.append("3");
    } else if d == 4 {
        s.append("4");
    } else if d == 5 {
        s.append("5");
    } else if d == 6 {
        s.append("6");
    } else if d == 7 {
        s.append("7");
    } else if d == 8 {
        s.append("8");
    } else {
        s.append("9");
    }
}

fn append_decimal(s: &mut String, n: u32)
    ensures
        final(s)@ == old(s)@ + decimal(n as nat),
    decreases n,
{
    if n >= 10 {
        append_decimal(s, n / 10);
        append_digit(s, n % 10);
        assert(old(s)@ + decimal((n / 10) as nat) + seq![digit_char((n % 10) as int)] =~= old(s)@
            + decimal(n as nat));
    } else {
        append_digit(s, n);
        assert(decimal(n as nat) == seq![digit_char(n as int)]);
    }
}

/// WGSL `const BT_*: u32 = N;` lines for all block type ids, after a header line and
/// followed by an empty line. Prepended to shader sources so that WGSL uses the same
/// names as Rust.
pub fn wgsl_block_constants() -> (s: String)
    ensures
        s@ == wgsl_header() + wgsl_lines(block_constant_table()) + "\n"@,
{
    let mut s = String::from_str("// --- Block type constants (generated from grid.rs) ---\n");
    let consts: [(&str, u32); 76] = [
        ("BT_AIR", BT_AIR),
        ("BT_STONE", BT_STONE),
        ("BT_GROUND", BT_GROUND),
        ("BT_WATER", BT_WATER),
        ("BT_WALL", BT_WALL),
        ("BT_GLASS", BT_GLASS),
        ("BT_FIREPLACE", BT_FIREPLACE),
        ("BT_CEILING_LIGHT", BT_CEILING_LIGHT),
        ("BT_TREE", BT_TREE),
        ("BT_BENCH", BT_BENCH),
        ("BT_FLOOR_LAMP", BT_FLOOR_LAMP),
        ("BT_TABLE_LAMP", BT_TABLE_LAMP),
        ("BT_FAN", BT_FAN),
        ("BT_COMPOST", BT_COMPOST),
        ("BT_INSULATED", BT_INSULATED),
        ("BT_PIPE", BT_PIPE),
        ("BT_PUMP", BT_PUMP),
        ("BT_TANK", BT_TANK),
        ("BT_VALVE", BT_VALVE),
        ("BT_OUTLET", BT_OUTLET),
        ("BT_INLET", BT_INLET),
        ("BT_WOOD_WALL", BT_WOOD_WALL),
        ("BT_STEEL_WALL", BT_STEEL_WALL),
        ("BT_SANDSTONE", BT_SANDSTONE),
        ("BT_GRANITE", BT_GRANITE),
        ("BT_LIMESTONE", BT_LIMESTONE),
        ("BT_WOOD_FLOOR", BT_WOOD_FLOOR),
        ("BT_STONE_FLOOR", BT_STONE_FLOOR),
        ("BT_CONCRETE_FLOOR", BT_CONCRETE_FLOOR),
        ("BT_CANNON", BT_CANNON),
        ("BT_BED", BT_BED),
        ("BT_BERRY_BUSH", BT_BERRY_BUSH),
        ("BT_DUG_GROUND", BT_DUG_GROUND),
        ("BT_CRATE", BT_CRATE),
        ("BT_ROCK", BT_ROCK),
        ("BT_MUD_WALL", BT_MUD_WALL),
        ("BT_WIRE", BT_WIRE),
        ("BT_SOLAR", BT_SOLAR),
        ("BT_BATTERY_S", BT_BATTERY_S),
        ("BT_BATTERY_M", BT_BATTERY_M),
        ("BT_BATTERY_L", BT_BATTERY_L),
        ("BT_WIND_TURBINE", BT_WIND_TURBINE),
        ("BT_SWITCH", BT_SWITCH),
        ("BT_DIMMER", BT_DIMMER),
        ("BT_DIAGONAL", BT_DIAGONAL),
        ("BT_BREAKER", BT_BREAKER),
        ("BT_RESTRICTOR", BT_RESTRICTOR),
        ("BT_CROP", BT_CROP),
        ("BT_FLOODLIGHT", BT_FLOODLIGHT),
        ("BT_LIQUID_PIPE", BT_LIQUID_PIPE),
        ("BT_PIPE_BRIDGE", BT_PIPE_BRIDGE),
        ("BT_WIRE_BRIDGE", BT_WIRE_BRIDGE),
        ("BT_LIQUID_INTAKE", BT_LIQUID_INTAKE),
        ("BT_LIQUID_PUMP", BT_LIQUID_PUMP),
        ("BT_LIQUID_OUTPUT", BT_LIQUID_OUTPUT),
        ("BT_WALL_TORCH", BT_WALL_TORCH),
        ("BT_WALL_LAMP", BT_WALL_LAMP),
        ("BT_WORKBENCH", BT_WORKBENCH),
        ("BT_KILN", BT_KILN),
        ("BT_WELL", BT_WELL),
        ("BT_ROUGH_FLOOR", BT_ROUGH_FLOOR),
        ("BT_SAW_HORSE", BT_SAW_HORSE),
        ("BT_CAMPFIRE", BT_CAMPFIRE),
        ("BT_LOW_WALL", BT_LOW_WALL),
        ("BT_SNARE", BT_SNARE),
        ("BT_DUSTWHISKER", BT_DUSTWHISKER),
        ("BT_HOLLOW_REED", BT_HOLLOW_REED),
        ("BT_THORNBRAKE", BT_THORNBRAKE),
        ("BT_SALTBRUSH", BT_SALTBRUSH),
        ("BT_DUSKBLOOM", BT_DUSKBLOOM),
        ("BT_CHARCOAL_MOUND", BT_CHARCOAL_MOUND),
        ("BT_SALVAGE_CRATE", BT_SALVAGE_CRATE),
        ("BT_CRATER", BT_CRATER),
        ("BT_ROUGH_TABLE", BT_ROUGH_TABLE),
        ("BT_STOOL", BT_STOOL),
        ("BT_DRYING_RACK", BT_DRYING_RACK)
    ];
    let ghost table = block_constant_table();
    assert(consts@.len() == table.len());
    assert forall|k: int| 0 <= k < table.len() implies #[trigger] table[k] == (consts@[k].0@, consts@[k].1) by {
    }
    let mut k: usize = 0;
    while k < 76
        invariant
            k <= 76,
            table == block_constant_table(),
            table.len() == 76,
            forall|j: int| 0 <= j < 76 ==> #[trigger] table[j] == (consts@[j].0@, consts@[j].1),
            s@ == wgsl_header() + wgsl_lines(table.take(k as int)),
        decreases 76 - k,
    {
        let (name, val) = consts[k];
        let ghost before = s@;
        s.append("const ");
        s.append(name);
        s.append(": u32 = ");
        append_decimal(&mut s, val);
        s.append("u;\n");
        assert(table.take(k + 1).drop_last() =~= table.take(k as int));
        assert(table.take(k + 1).last() == table[k as int]);
        assert(s@ =~= before + wgsl_line(name@, val));
        k = k + 1;
    }
    assert(table.take(76) =~= table);
    s.append("\n");
    s
}

} // verus!
