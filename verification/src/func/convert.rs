//! Unit conversion: `CONVERT` scales a number between two units of the same physical system, with
//! the SI decimal prefixes on metric units, the binary prefixes on information units, and
//! temperature converted through kelvin. Conversion factors are kept as decimal text and read into
//! the number domain, so each is exactly the nearest number to its decimal value.

use vstd::prelude::*;
use crate::eval::{coerce_num, digit_free, lemma_scalarize_same, restored, scalarize, spec_trim, EvalCtx};
use crate::expr::{args_size, lemma_arg_size, Expr, Resolver};
use crate::func::helpers::{arg_text, finite_or_num, lit_scalar, room};
use crate::strings::chars_of;
use crate::value::{ErrKind, Number, Value};

verus! {

/// The area system.
pub const AREA: u8 = 0;
/// The distance system.
pub const DISTANCE: u8 = 1;
/// The energy system.
pub const ENERGY: u8 = 2;
/// The force system.
pub const FORCE: u8 = 3;
/// The information system.
pub const INFORMATION: u8 = 4;
/// The magnetism system.
pub const MAGNETISM: u8 = 5;
/// The mass system.
pub const MASS: u8 = 6;
/// The power system.
pub const POWER: u8 = 7;
/// The pressure system.
pub const PRESSURE: u8 = 8;
/// The speed system.
pub const SPEED: u8 = 9;
/// The temperature system.
pub const TEMPERATURE: u8 = 10;
/// The time system.
pub const TIME: u8 = 11;
/// The volume system.
pub const VOLUME: u8 = 12;

/// One base unit: its exact name, system, conversion factor to the system's base (as decimal text),
/// whether it takes SI prefixes, and the power a prefix is raised to (2 for areas, 3 for volumes).
#[derive(Clone, Copy, Debug)]
pub struct UnitRow {
    pub name: &'static str,
    pub sys: u8,
    pub factor: &'static str,
    pub si: bool,
    pub pow: u8,
}

/// The number of base units.
pub const UNIT_COUNT: u32 = 151;


/// The base-unit table, as [`unit_row`] reads it.
pub open spec fn spec_unit_row(i: u32) -> Option<UnitRow> {
    match i {
        0u32 => Some(UnitRow { name: "Morgen", sys: AREA, factor: "2500.0", si: false, pow: 1 }),
        1u32 => Some(UnitRow { name: "Nmi2", sys: AREA, factor: "3429904.0", si: false, pow: 2 }),
        2u32 => Some(UnitRow { name: "Nmi^2", sys: AREA, factor: "3429904.0", si: false, pow: 2 }),
        3u32 => Some(UnitRow { name: "Pica2", sys: AREA, factor: "1.24452160493827e-07", si: false, pow: 2 }),
        4u32 => Some(UnitRow { name: "Pica^2", sys: AREA, factor: "1.24452160493827e-07", si: false, pow: 2 }),
        5u32 => Some(UnitRow { name: "Picapt2", sys: AREA, factor: "1.24452160493827e-07", si: false, pow: 2 }),
        6u32 => Some(UnitRow { name: "Picapt^2", sys: AREA, factor: "1.24452160493827e-07", si: false, pow: 2 }),
        7u32 => Some(UnitRow { name: "ang2", sys: AREA, factor: "1e-20", si: true, pow: 2 }),
        8u32 => Some(UnitRow { name: "ang^2", sys: AREA, factor: "1e-20", si: true, pow: 2 }),
        9u32 => Some(UnitRow { name: "ar", sys: AREA, factor: "100.0", si: true, pow: 1 }),
        10u32 => Some(UnitRow { name: "ft2", sys: AREA, factor: "0.09290304", si: false, pow: 2 }),
        11u32 => Some(UnitRow { name: "ft^2", sys: AREA, factor: "0.09290304", si: false, pow: 2 }),
        12u32 => Some(UnitRow { name: "ha", sys: AREA, factor: "10000.0", si: false, pow: 1 }),
        13u32 => Some(UnitRow { name: "in2", sys: AREA, factor: "0.00064516", si: false, pow: 2 }),
        14u32 => Some(UnitRow { name: "in^2", sys: AREA, factor: "0.00064516", si: false, pow: 2 }),
        15u32 => Some(UnitRow { name: "ly2", sys: AREA, factor: "8.95054210748189e+31", si: false, pow: 2 }),
        16u32 => Some(UnitRow { name: "ly^2", sys: AREA, factor: "8.95054210748189e+31", si: false, pow: 2 }),
        17u32 => Some(UnitRow { name: "m2", sys: AREA, factor: "1.0", si: true, pow: 2 }),
        18u32 => Some(UnitRow { name: "m^2", sys: AREA, factor: "1.0", si: true, pow: 2 }),
        19u32 => Some(UnitRow { name: "mi2", sys: AREA, factor: "2589988.110336", si: false, pow: 2 }),
        20u32 => Some(UnitRow { name: "mi^2", sys: AREA, factor: "2589988.110336", si: false, pow: 2 }),
        21u32 => Some(UnitRow { name: "uk_acre", sys: AREA, factor: "4046.8564224", si: false, pow: 1 }),
        22u32 => Some(UnitRow { name: "us_acre", sys: AREA, factor: "4046.87260987425", si: false, pow: 1 }),
        23u32 => Some(UnitRow { name: "yd2", sys: AREA, factor: "0.83612736", si: false, pow: 2 }),
        24u32 => Some(UnitRow { name: "yd^2", sys: AREA, factor: "0.83612736", si: false, pow: 2 }),
        25u32 => Some(UnitRow { name: "Nmi", sys: DISTANCE, factor: "1852.0", si: false, pow: 1 }),
        26u32 => Some(UnitRow { name: "Pica", sys: DISTANCE, factor: "0.000352777777777778", si: false, pow: 1 }),
        27u32 => Some(UnitRow { name: "Picapt", sys: DISTANCE, factor: "0.000352777777777778", si: false, pow: 1 }),
        28u32 => Some(UnitRow { name: "ang", sys: DISTANCE, factor: "1e-10", si: true, pow: 1 }),
        29u32 => Some(UnitRow { name: "ell", sys: DISTANCE, factor: "1.143", si: false, pow: 1 }),
        30u32 => Some(UnitRow { name: "ft", sys: DISTANCE, factor: "0.3048", si: false, pow: 1 }),
        31u32 => Some(UnitRow { name: "in", sys: DISTANCE, factor: "0.0254", si: false, pow: 1 }),
        32u32 => Some(UnitRow { name: "ly", sys: DISTANCE, factor: "9460730472580800.0", si: true, pow: 1 }),
        33u32 => Some(UnitRow { name: "m", sys: DISTANCE, factor: "1.0", si: true, pow: 1 }),
        34u32 => Some(UnitRow { name: "mi", sys: DISTANCE, factor: "1609.344", si: false, pow: 1 }),
        35u32 => Some(UnitRow { name: "parsec", sys: DISTANCE, factor: "3.0856775812815532e+16", si: true, pow: 1 }),
        36u32 => Some(UnitRow { name: "pc", sys: DISTANCE, factor: "3.0856775812815532e+16", si: true, pow: 1 }),
        37u32 => Some(UnitRow { name: "pica", sys: DISTANCE, factor: "0.00423333333333333", si: false, pow: 1 }),
        38u32 => Some(UnitRow { name: "survey_mi", sys: DISTANCE, factor: "1609.34721869444", si: false, pow: 1 }),
        39u32 => Some(UnitRow { name: "yd", sys: DISTANCE, factor: "0.9144", si: false, pow: 1 }),
        40u32 => Some(UnitRow { name: "BTU", sys: ENERGY, factor: "1055.05585262", si: false, pow: 1 }),
        41u32 => Some(UnitRow { name: "HPh", sys: ENERGY, factor: "2684519.53769617", si: false, pow: 1 }),
        42u32 => Some(UnitRow { name: "J", sys: ENERGY, factor: "1.0", si: true, pow: 1 }),
        43u32 => Some(UnitRow { name: "Wh", sys: ENERGY, factor: "3600.0", si: true, pow: 1 }),
        44u32 => Some(UnitRow { name: "btu", sys: ENERGY, factor: "1055.05585262", si: false, pow: 1 }),
        45u32 => Some(UnitRow { name: "c", sys: ENERGY, factor: "4.184", si: true, pow: 1 }),
        46u32 => Some(UnitRow { name: "cal", sys: ENERGY, factor: "4.1868", si: true, pow: 1 }),
        47u32 => Some(UnitRow { name: "e", sys: ENERGY, factor: "1e-07", si: true, pow: 1 }),
        48u32 => Some(UnitRow { name: "eV", sys: ENERGY, factor: "1.602176487e-19", si: true, pow: 1 }),
        49u32 => Some(UnitRow { name: "ev", sys: ENERGY, factor: "1.602176487e-19", si: true, pow: 1 }),
        50u32 => Some(UnitRow { name: "flb", sys: ENERGY, factor: "1.3558179483314", si: false, pow: 1 }),
        51u32 => Some(UnitRow { name: "hh", sys: ENERGY, factor: "2684519.53769617", si: false, pow: 1 }),
        52u32 => Some(UnitRow { name: "wh", sys: ENERGY, factor: "3600.0", si: true, pow: 1 }),
        53u32 => Some(UnitRow { name: "N", sys: FORCE, factor: "1.0", si: true, pow: 1 }),
        54u32 => Some(UnitRow { name: "dy", sys: FORCE, factor: "1e-05", si: true, pow: 1 }),
        55u32 => Some(UnitRow { name: "dyn", sys: FORCE, factor: "1e-05", si: true, pow: 1 }),
        56u32 => Some(UnitRow { name: "lbf", sys: FORCE, factor: "4.4482216152605", si: false, pow: 1 }),
        57u32 => Some(UnitRow { name: "bit", sys: INFORMATION, factor: "1.0", si: true, pow: 1 }),
        58u32 => Some(UnitRow { name: "byte", sys: INFORMATION, factor: "8.0", si: true, pow: 1 }),
        59u32 => Some(UnitRow { name: "T", sys: MAGNETISM, factor: "1.0", si: true, pow: 1 }),
        60u32 => Some(UnitRow { name: "ga", sys: MAGNETISM, factor: "0.0001", si: true, pow: 1 }),
        61u32 => Some(UnitRow { name: "LTON", sys: MASS, factor: "1016046.9088", si: false, pow: 1 }),
        62u32 => Some(UnitRow { name: "brton", sys: MASS, factor: "1016046.9088", si: false, pow: 1 }),
        63u32 => Some(UnitRow { name: "cwt", sys: MASS, factor: "45359.237", si: false, pow: 1 }),
        64u32 => Some(UnitRow { name: "g", sys: MASS, factor: "1.0", si: true, pow: 1 }),
        65u32 => Some(UnitRow { name: "grain", sys: MASS, factor: "0.06479891", si: false, pow: 1 }),
        66u32 => Some(UnitRow { name: "hweight", sys: MASS, factor: "50802.34544", si: false, pow: 1 }),
        67u32 => Some(UnitRow { name: "lbm", sys: MASS, factor: "453.59237", si: false, pow: 1 }),
        68u32 => Some(UnitRow { name: "lcwt", sys: MASS, factor: "50802.34544", si: false, pow: 1 }),
        69u32 => Some(UnitRow { name: "ozm", sys: MASS, factor: "28.349523125", si: false, pow: 1 }),
        70u32 => Some(UnitRow { name: "sg", sys: MASS, factor: "14593.9029372064", si: false, pow: 1 }),
        71u32 => Some(UnitRow { name: "shweight", sys: MASS, factor: "45359.237", si: false, pow: 1 }),
        72u32 => Some(UnitRow { name: "stone", sys: MASS, factor: "6350.29318", si: false, pow: 1 }),
        73u32 => Some(UnitRow { name: "ton", sys: MASS, factor: "907184.74", si: false, pow: 1 }),
        74u32 => Some(UnitRow { name: "u", sys: MASS, factor: "1.660538782e-24", si: true, pow: 1 }),
        75u32 => Some(UnitRow { name: "uk_cwt", sys: MASS, factor: "50802.34544", si: false, pow: 1 }),
        76u32 => Some(UnitRow { name: "uk_ton", sys: MASS, factor: "1016046.9088", si: false, pow: 1 }),
        77u32 => Some(UnitRow { name: "HP", sys: POWER, factor: "745.69987158227", si: false, pow: 1 }),
        78u32 => Some(UnitRow { name: "PS", sys: POWER, factor: "735.49875", si: false, pow: 1 }),
        79u32 => Some(UnitRow { name: "W", sys: POWER, factor: "1.0", si: true, pow: 1 }),
        80u32 => Some(UnitRow { name: "h", sys: POWER, factor: "745.69987158227", si: false, pow: 1 }),
        81u32 => Some(UnitRow { name: "w", sys: POWER, factor: "1.0", si: true, pow: 1 }),
        82u32 => Some(UnitRow { name: "Pa", sys: PRESSURE, factor: "1.0", si: true, pow: 1 }),
        83u32 => Some(UnitRow { name: "Torr", sys: PRESSURE, factor: "133.322368421053", si: false, pow: 1 }),
        84u32 => Some(UnitRow { name: "at", sys: PRESSURE, factor: "101325.0", si: true, pow: 1 }),
        85u32 => Some(UnitRow { name: "atm", sys: PRESSURE, factor: "101325.0", si: true, pow: 1 }),
        86u32 => Some(UnitRow { name: "mmHg", sys: PRESSURE, factor: "133.322", si: true, pow: 1 }),
        87u32 => Some(UnitRow { name: "p", sys: PRESSURE, factor: "1.0", si: true, pow: 1 }),
        88u32 => Some(UnitRow { name: "psi", sys: PRESSURE, factor: "6894.75729316836", si: false, pow: 1 }),
        89u32 => Some(UnitRow { name: "admkn", sys: SPEED, factor: "1853.184", si: false, pow: 1 }),
        90u32 => Some(UnitRow { name: "kn", sys: SPEED, factor: "1852.0", si: false, pow: 1 }),
        91u32 => Some(UnitRow { name: "m/h", sys: SPEED, factor: "1.0", si: true, pow: 1 }),
        92u32 => Some(UnitRow { name: "m/hr", sys: SPEED, factor: "1.0", si: true, pow: 1 }),
        93u32 => Some(UnitRow { name: "m/s", sys: SPEED, factor: "3600.0", si: true, pow: 1 }),
        94u32 => Some(UnitRow { name: "m/sec", sys: SPEED, factor: "3600.0", si: true, pow: 1 }),
        95u32 => Some(UnitRow { name: "mph", sys: SPEED, factor: "1609.344", si: true, pow: 1 }),
        96u32 => Some(UnitRow { name: "C", sys: TEMPERATURE, factor: "1.0", si: false, pow: 1 }),
        97u32 => Some(UnitRow { name: "F", sys: TEMPERATURE, factor: "1.0", si: false, pow: 1 }),
        98u32 => Some(UnitRow { name: "K", sys: TEMPERATURE, factor: "1.0", si: true, pow: 1 }),
        99u32 => Some(UnitRow { name: "Rank", sys: TEMPERATURE, factor: "1.0", si: false, pow: 1 }),
        100u32 => Some(UnitRow { name: "Reau", sys: TEMPERATURE, factor: "1.0", si: false, pow: 1 }),
        101u32 => Some(UnitRow { name: "cel", sys: TEMPERATURE, factor: "1.0", si: false, pow: 1 }),
        102u32 => Some(UnitRow { name: "fah", sys: TEMPERATURE, factor: "1.0", si: false, pow: 1 }),
        103u32 => Some(UnitRow { name: "kel", sys: TEMPERATURE, factor: "1.0", si: true, pow: 1 }),
        104u32 => Some(UnitRow { name: "d", sys: TIME, factor: "86400.0", si: false, pow: 1 }),
        105u32 => Some(UnitRow { name: "day", sys: TIME, factor: "86400.0", si: false, pow: 1 }),
        106u32 => Some(UnitRow { name: "hr", sys: TIME, factor: "3600.0", si: false, pow: 1 }),
        107u32 => Some(UnitRow { name: "min", sys: TIME, factor: "60.0", si: false, pow: 1 }),
        108u32 => Some(UnitRow { name: "mn", sys: TIME, factor: "60.0", si: false, pow: 1 }),
        109u32 => Some(UnitRow { name: "s", sys: TIME, factor: "1.0", si: true, pow: 1 }),
        110u32 => Some(UnitRow { name: "sec", sys: TIME, factor: "1.0", si: true, pow: 1 }),
        111u32 => Some(UnitRow { name: "yr", sys: TIME, factor: "31557600.0", si: false, pow: 1 }),
        112u32 => Some(UnitRow { name: "L", sys: VOLUME, factor: "1.0", si: true, pow: 1 }),
        113u32 => Some(UnitRow { name: "MTON", sys: VOLUME, factor: "1132.67386368", si: false, pow: 1 }),
        114u32 => Some(UnitRow { name: "Nmi3", sys: VOLUME, factor: "6352182208000.0", si: false, pow: 3 }),
        115u32 => Some(UnitRow { name: "Nmi^3", sys: VOLUME, factor: "6352182208000.0", si: false, pow: 3 }),
        116u32 => Some(UnitRow { name: "Pica3", sys: VOLUME, factor: "4.39039566186557e-08", si: false, pow: 3 }),
        117u32 => Some(UnitRow { name: "Pica^3", sys: VOLUME, factor: "4.39039566186557e-08", si: false, pow: 3 }),
        118u32 => Some(UnitRow { name: "Picapt3", sys: VOLUME, factor: "4.39039566186557e-08", si: false, pow: 3 }),
        119u32 => Some(UnitRow { name: "Picapt^3", sys: VOLUME, factor: "4.39039566186557e-08", si: false, pow: 3 }),
        120u32 => Some(UnitRow { name: "ang3", sys: VOLUME, factor: "1e-27", si: true, pow: 3 }),
        121u32 => Some(UnitRow { name: "ang^3", sys: VOLUME, factor: "1e-27", si: true, pow: 3 }),
        122u32 => Some(UnitRow { name: "barrel", sys: VOLUME, factor: "158.987294928", si: false, pow: 1 }),
        123u32 => Some(UnitRow { name: "bushel", sys: VOLUME, factor: "35.23907016688", si: false, pow: 1 }),
        124u32 => Some(UnitRow { name: "cup", sys: VOLUME, factor: "0.2365882365", si: false, pow: 1 }),
        125u32 => Some(UnitRow { name: "ft3", sys: VOLUME, factor: "28.316846592", si: false, pow: 3 }),
        126u32 => Some(UnitRow { name: "ft^3", sys: VOLUME, factor: "28.316846592", si: false, pow: 3 }),
        127u32 => Some(UnitRow { name: "gal", sys: VOLUME, factor: "3.785411784", si: false, pow: 1 }),
        128u32 => Some(UnitRow { name: "in3", sys: VOLUME, factor: "0.016387064", si: false, pow: 3 }),
        129u32 => Some(UnitRow { name: "in^3", sys: VOLUME, factor: "0.016387064", si: false, pow: 3 }),
        130u32 => Some(UnitRow { name: "l", sys: VOLUME, factor: "1.0", si: true, pow: 1 }),
        131u32 => Some(UnitRow { name: "lt", sys: VOLUME, factor: "1.0", si: true, pow: 1 }),
        132u32 => Some(UnitRow { name: "ly3", sys: VOLUME, factor: "8.467866646237152e+50", si: false, pow: 3 }),
        133u32 => Some(UnitRow { name: "ly^3", sys: VOLUME, factor: "8.467866646237152e+50", si: false, pow: 3 }),
        134u32 => Some(UnitRow { name: "m3", sys: VOLUME, factor: "1000.0", si: true, pow: 3 }),
        135u32 => Some(UnitRow { name: "m^3", sys: VOLUME, factor: "1000.0", si: true, pow: 3 }),
        136u32 => Some(UnitRow { name: "mi3", sys: VOLUME, factor: "4168181825440.5796", si: false, pow: 3 }),
        137u32 => Some(UnitRow { name: "mi^3", sys: VOLUME, factor: "4168181825440.5796", si: false, pow: 3 }),
        138u32 => Some(UnitRow { name: "oz", sys: VOLUME, factor: "0.0295735295625", si: false, pow: 1 }),
        139u32 => Some(UnitRow { name: "pt", sys: VOLUME, factor: "0.473176473", si: false, pow: 1 }),
        140u32 => Some(UnitRow { name: "qt", sys: VOLUME, factor: "0.946352946", si: false, pow: 1 }),
        141u32 => Some(UnitRow { name: "regton", sys: VOLUME, factor: "2831.6846592", si: false, pow: 1 }),
        142u32 => Some(UnitRow { name: "tbs", sys: VOLUME, factor: "0.01478676478125", si: false, pow: 1 }),
        143u32 => Some(UnitRow { name: "tsp", sys: VOLUME, factor: "0.00492892159375", si: false, pow: 1 }),
        144u32 => Some(UnitRow { name: "tspm", sys: VOLUME, factor: "0.005", si: false, pow: 1 }),
        145u32 => Some(UnitRow { name: "uk_gal", sys: VOLUME, factor: "4.54609", si: false, pow: 1 }),
        146u32 => Some(UnitRow { name: "uk_pt", sys: VOLUME, factor: "0.56826125", si: true, pow: 1 }),
        147u32 => Some(UnitRow { name: "uk_qt", sys: VOLUME, factor: "1.1365225", si: false, pow: 1 }),
        148u32 => Some(UnitRow { name: "us_pt", sys: VOLUME, factor: "0.473176473", si: false, pow: 1 }),
        149u32 => Some(UnitRow { name: "yd3", sys: VOLUME, factor: "764.554857984", si: false, pow: 3 }),
        150u32 => Some(UnitRow { name: "yd^3", sys: VOLUME, factor: "764.554857984", si: false, pow: 3 }),
        _ => None,
    }
}

/// The base unit with a given index.
pub fn unit_row(i: u32) -> (r: Option<UnitRow>)
    ensures
        r is Some <==> i < UNIT_COUNT,
        r == spec_unit_row(i),
{
    match i {
        0u32 => Some(UnitRow { name: "Morgen", sys: AREA, factor: "2500.0", si: false, pow: 1 }),
        1u32 => Some(UnitRow { name: "Nmi2", sys: AREA, factor: "3429904.0", si: false, pow: 2 }),
        2u32 => Some(UnitRow { name: "Nmi^2", sys: AREA, factor: "3429904.0", si: false, pow: 2 }),
        3u32 => Some(UnitRow { name: "Pica2", sys: AREA, factor: "1.24452160493827e-07", si: false, pow: 2 }),
        4u32 => Some(UnitRow { name: "Pica^2", sys: AREA, factor: "1.24452160493827e-07", si: false, pow: 2 }),
        5u32 => Some(UnitRow { name: "Picapt2", sys: AREA, factor: "1.24452160493827e-07", si: false, pow: 2 }),
        6u32 => Some(UnitRow { name: "Picapt^2", sys: AREA, factor: "1.24452160493827e-07", si: false, pow: 2 }),
        7u32 => Some(UnitRow { name: "ang2", sys: AREA, factor: "1e-20", si: true, pow: 2 }),
        8u32 => Some(UnitRow { name: "ang^2", sys: AREA, factor: "1e-20", si: true, pow: 2 }),
        9u32 => Some(UnitRow { name: "ar", sys: AREA, factor: "100.0", si: true, pow: 1 }),
        10u32 => Some(UnitRow { name: "ft2", sys: AREA, factor: "0.09290304", si: false, pow: 2 }),
        11u32 => Some(UnitRow { name: "ft^2", sys: AREA, factor: "0.09290304", si: false, pow: 2 }),
        12u32 => Some(UnitRow { name: "ha", sys: AREA, factor: "10000.0", si: false, pow: 1 }),
        13u32 => Some(UnitRow { name: "in2", sys: AREA, factor: "0.00064516", si: false, pow: 2 }),
        14u32 => Some(UnitRow { name: "in^2", sys: AREA, factor: "0.00064516", si: false, pow: 2 }),
        15u32 => Some(UnitRow { name: "ly2", sys: AREA, factor: "8.95054210748189e+31", si: false, pow: 2 }),
        16u32 => Some(UnitRow { name: "ly^2", sys: AREA, factor: "8.95054210748189e+31", si: false, pow: 2 }),
        17u32 => Some(UnitRow { name: "m2", sys: AREA, factor: "1.0", si: true, pow: 2 }),
        18u32 => Some(UnitRow { name: "m^2", sys: AREA, factor: "1.0", si: true, pow: 2 }),
        19u32 => Some(UnitRow { name: "mi2", sys: AREA, factor: "2589988.110336", si: false, pow: 2 }),
        20u32 => Some(UnitRow { name: "mi^2", sys: AREA, factor: "2589988.110336", si: false, pow: 2 }),
        21u32 => Some(UnitRow { name: "uk_acre", sys: AREA, factor: "4046.8564224", si: false, pow: 1 }),
        22u32 => Some(UnitRow { name: "us_acre", sys: AREA, factor: "4046.87260987425", si: false, pow: 1 }),
        23u32 => Some(UnitRow { name: "yd2", sys: AREA, factor: "0.83612736", si: false, pow: 2 }),
        24u32 => Some(UnitRow { name: "yd^2", sys: AREA, factor: "0.83612736", si: false, pow: 2 }),
        25u32 => Some(UnitRow { name: "Nmi", sys: DISTANCE, factor: "1852.0", si: false, pow: 1 }),
        26u32 => Some(UnitRow { name: "Pica", sys: DISTANCE, factor: "0.000352777777777778", si: false, pow: 1 }),
        27u32 => Some(UnitRow { name: "Picapt", sys: DISTANCE, factor: "0.000352777777777778", si: false, pow: 1 }),
        28u32 => Some(UnitRow { name: "ang", sys: DISTANCE, factor: "1e-10", si: true, pow: 1 }),
        29u32 => Some(UnitRow { name: "ell", sys: DISTANCE, factor: "1.143", si: false, pow: 1 }),
        30u32 => Some(UnitRow { name: "ft", sys: DISTANCE, factor: "0.3048", si: false, pow: 1 }),
        31u32 => Some(UnitRow { name: "in", sys: DISTANCE, factor: "0.0254", si: false, pow: 1 }),
        32u32 => Some(UnitRow { name: "ly", sys: DISTANCE, factor: "9460730472580800.0", si: true, pow: 1 }),
        33u32 => Some(UnitRow { name: "m", sys: DISTANCE, factor: "1.0", si: true, pow: 1 }),
        34u32 => Some(UnitRow { name: "mi", sys: DISTANCE, factor: "1609.344", si: false, pow: 1 }),
        35u32 => Some(UnitRow { name: "parsec", sys: DISTANCE, factor: "3.0856775812815532e+16", si: true, pow: 1 }),
        36u32 => Some(UnitRow { name: "pc", sys: DISTANCE, factor: "3.0856775812815532e+16", si: true, pow: 1 }),
        37u32 => Some(UnitRow { name: "pica", sys: DISTANCE, factor: "0.00423333333333333", si: false, pow: 1 }),
        38u32 => Some(UnitRow { name: "survey_mi", sys: DISTANCE, factor: "1609.34721869444", si: false, pow: 1 }),
        39u32 => Some(UnitRow { name: "yd", sys: DISTANCE, factor: "0.9144", si: false, pow: 1 }),
        40u32 => Some(UnitRow { name: "BTU", sys: ENERGY, factor: "1055.05585262", si: false, pow: 1 }),
        41u32 => Some(UnitRow { name: "HPh", sys: ENERGY, factor: "2684519.53769617", si: false, pow: 1 }),
        42u32 => Some(UnitRow { name: "J", sys: ENERGY, factor: "1.0", si: true, pow: 1 }),
        43u32 => Some(UnitRow { name: "Wh", sys: ENERGY, factor: "3600.0", si: true, pow: 1 }),
        44u32 => Some(UnitRow { name: "btu", sys: ENERGY, factor: "1055.05585262", si: false, pow: 1 }),
        45u32 => Some(UnitRow { name: "c", sys: ENERGY, factor: "4.184", si: true, pow: 1 }),
        46u32 => Some(UnitRow { name: "cal", sys: ENERGY, factor: "4.1868", si: true, pow: 1 }),
        47u32 => Some(UnitRow { name: "e", sys: ENERGY, factor: "1e-07", si: true, pow: 1 }),
        48u32 => Some(UnitRow { name: "eV", sys: ENERGY, factor: "1.602176487e-19", si: true, pow: 1 }),
        49u32 => Some(UnitRow { name: "ev", sys: ENERGY, factor: "1.602176487e-19", si: true, pow: 1 }),
        50u32 => Some(UnitRow { name: "flb", sys: ENERGY, factor: "1.3558179483314", si: false, pow: 1 }),
        51u32 => Some(UnitRow { name: "hh", sys: ENERGY, factor: "2684519.53769617", si: false, pow: 1 }),
        52u32 => Some(UnitRow { name: "wh", sys: ENERGY, factor: "3600.0", si: true, pow: 1 }),
        53u32 => Some(UnitRow { name: "N", sys: FORCE, factor: "1.0", si: true, pow: 1 }),
        54u32 => Some(UnitRow { name: "dy", sys: FORCE, factor: "1e-05", si: true, pow: 1 }),
        55u32 => Some(UnitRow { name: "dyn", sys: FORCE, factor: "1e-05", si: true, pow: 1 }),
        56u32 => Some(UnitRow { name: "lbf", sys: FORCE, factor: "4.4482216152605", si: false, pow: 1 }),
        57u32 => Some(UnitRow { name: "bit", sys: INFORMATION, factor: "1.0", si: true, pow: 1 }),
        58u32 => Some(UnitRow { name: "byte", sys: INFORMATION, factor: "8.0", si: true, pow: 1 }),
        59u32 => Some(UnitRow { name: "T", sys: MAGNETISM, factor: "1.0", si: true, pow: 1 }),
        60u32 => Some(UnitRow { name: "ga", sys: MAGNETISM, factor: "0.0001", si: true, pow: 1 }),
        61u32 => Some(UnitRow { name: "LTON", sys: MASS, factor: "1016046.9088", si: false, pow: 1 }),
        62u32 => Some(UnitRow { name: "brton", sys: MASS, factor: "1016046.9088", si: false, pow: 1 }),
        63u32 => Some(UnitRow { name: "cwt", sys: MASS, factor: "45359.237", si: false, pow: 1 }),
        64u32 => Some(UnitRow { name: "g", sys: MASS, factor: "1.0", si: true, pow: 1 }),
        65u32 => Some(UnitRow { name: "grain", sys: MASS, factor: "0.06479891", si: false, pow: 1 }),
        66u32 => Some(UnitRow { name: "hweight", sys: MASS, factor: "50802.34544", si: false, pow: 1 }),
        67u32 => Some(UnitRow { name: "lbm", sys: MASS, factor: "453.59237", si: false, pow: 1 }),
        68u32 => Some(UnitRow { name: "lcwt", sys: MASS, factor: "50802.34544", si: false, pow: 1 }),
        69u32 => Some(UnitRow { name: "ozm", sys: MASS, factor: "28.349523125", si: false, pow: 1 }),
        70u32 => Some(UnitRow { name: "sg", sys: MASS, factor: "14593.9029372064", si: false, pow: 1 }),
        71u32 => Some(UnitRow { name: "shweight", sys: MASS, factor: "45359.237", si: false, pow: 1 }),
        72u32 => Some(UnitRow { name: "stone", sys: MASS, factor: "6350.29318", si: false, pow: 1 }),
        73u32 => Some(UnitRow { name: "ton", sys: MASS, factor: "907184.74", si: false, pow: 1 }),
        74u32 => Some(UnitRow { name: "u", sys: MASS, factor: "1.660538782e-24", si: true, pow: 1 }),
        75u32 => Some(UnitRow { name: "uk_cwt", sys: MASS, factor: "50802.34544", si: false, pow: 1 }),
        76u32 => Some(UnitRow { name: "uk_ton", sys: MASS, factor: "1016046.9088", si: false, pow: 1 }),
        77u32 => Some(UnitRow { name: "HP", sys: POWER, factor: "745.69987158227", si: false, pow: 1 }),
        78u32 => Some(UnitRow { name: "PS", sys: POWER, factor: "735.49875", si: false, pow: 1 }),
        79u32 => Some(UnitRow { name: "W", sys: POWER, factor: "1.0", si: true, pow: 1 }),
        80u32 => Some(UnitRow { name: "h", sys: POWER, factor: "745.69987158227", si: false, pow: 1 }),
        81u32 => Some(UnitRow { name: "w", sys: POWER, factor: "1.0", si: true, pow: 1 }),
        82u32 => Some(UnitRow { name: "Pa", sys: PRESSURE, factor: "1.0", si: true, pow: 1 }),
        83u32 => Some(UnitRow { name: "Torr", sys: PRESSURE, factor: "133.322368421053", si: false, pow: 1 }),
        84u32 => Some(UnitRow { name: "at", sys: PRESSURE, factor: "101325.0", si: true, pow: 1 }),
        85u32 => Some(UnitRow { name: "atm", sys: PRESSURE, factor: "101325.0", si: true, pow: 1 }),
        86u32 => Some(UnitRow { name: "mmHg", sys: PRESSURE, factor: "133.322", si: true, pow: 1 }),
        87u32 => Some(UnitRow { name: "p", sys: PRESSURE, factor: "1.0", si: true, pow: 1 }),
        88u32 => Some(UnitRow { name: "psi", sys: PRESSURE, factor: "6894.75729316836", si: false, pow: 1 }),
        89u32 => Some(UnitRow { name: "admkn", sys: SPEED, factor: "1853.184", si: false, pow: 1 }),
        90u32 => Some(UnitRow { name: "kn", sys: SPEED, factor: "1852.0", si: false, pow: 1 }),
        91u32 => Some(UnitRow { name: "m/h", sys: SPEED, factor: "1.0", si: true, pow: 1 }),
        92u32 => Some(UnitRow { name: "m/hr", sys: SPEED, factor: "1.0", si: true, pow: 1 }),
        93u32 => Some(UnitRow { name: "m/s", sys: SPEED, factor: "3600.0", si: true, pow: 1 }),
        94u32 => Some(UnitRow { name: "m/sec", sys: SPEED, factor: "3600.0", si: true, pow: 1 }),
        95u32 => Some(UnitRow { name: "mph", sys: SPEED, factor: "1609.344", si: true, pow: 1 }),
        96u32 => Some(UnitRow { name: "C", sys: TEMPERATURE, factor: "1.0", si: false, pow: 1 }),
        97u32 => Some(UnitRow { name: "F", sys: TEMPERATURE, factor: "1.0", si: false, pow: 1 }),
        98u32 => Some(UnitRow { name: "K", sys: TEMPERATURE, factor: "1.0", si: true, pow: 1 }),
        99u32 => Some(UnitRow { name: "Rank", sys: TEMPERATURE, factor: "1.0", si: false, pow: 1 }),
        100u32 => Some(UnitRow { name: "Reau", sys: TEMPERATURE, factor: "1.0", si: false, pow: 1 }),
        101u32 => Some(UnitRow { name: "cel", sys: TEMPERATURE, factor: "1.0", si: false, pow: 1 }),
        102u32 => Some(UnitRow { name: "fah", sys: TEMPERATURE, factor: "1.0", si: false, pow: 1 }),
        103u32 => Some(UnitRow { name: "kel", sys: TEMPERATURE, factor: "1.0", si: true, pow: 1 }),
        104u32 => Some(UnitRow { name: "d", sys: TIME, factor: "86400.0", si: false, pow: 1 }),
        105u32 => Some(UnitRow { name: "day", sys: TIME, factor: "86400.0", si: false, pow: 1 }),
        106u32 => Some(UnitRow { name: "hr", sys: TIME, factor: "3600.0", si: false, pow: 1 }),
        107u32 => Some(UnitRow { name: "min", sys: TIME, factor: "60.0", si: false, pow: 1 }),
        108u32 => Some(UnitRow { name: "mn", sys: TIME, factor: "60.0", si: false, pow: 1 }),
        109u32 => Some(UnitRow { name: "s", sys: TIME, factor: "1.0", si: true, pow: 1 }),
        110u32 => Some(UnitRow { name: "sec", sys: TIME, factor: "1.0", si: true, pow: 1 }),
        111u32 => Some(UnitRow { name: "yr", sys: TIME, factor: "31557600.0", si: false, pow: 1 }),
        112u32 => Some(UnitRow { name: "L", sys: VOLUME, factor: "1.0", si: true, pow: 1 }),
        113u32 => Some(UnitRow { name: "MTON", sys: VOLUME, factor: "1132.67386368", si: false, pow: 1 }),
        114u32 => Some(UnitRow { name: "Nmi3", sys: VOLUME, factor: "6352182208000.0", si: false, pow: 3 }),
        115u32 => Some(UnitRow { name: "Nmi^3", sys: VOLUME, factor: "6352182208000.0", si: false, pow: 3 }),
        116u32 => Some(UnitRow { name: "Pica3", sys: VOLUME, factor: "4.39039566186557e-08", si: false, pow: 3 }),
        117u32 => Some(UnitRow { name: "Pica^3", sys: VOLUME, factor: "4.39039566186557e-08", si: false, pow: 3 }),
        118u32 => Some(UnitRow { name: "Picapt3", sys: VOLUME, factor: "4.39039566186557e-08", si: false, pow: 3 }),
        119u32 => Some(UnitRow { name: "Picapt^3", sys: VOLUME, factor: "4.39039566186557e-08", si: false, pow: 3 }),
        120u32 => Some(UnitRow { name: "ang3", sys: VOLUME, factor: "1e-27", si: true, pow: 3 }),
        121u32 => Some(UnitRow { name: "ang^3", sys: VOLUME, factor: "1e-27", si: true, pow: 3 }),
        122u32 => Some(UnitRow { name: "barrel", sys: VOLUME, factor: "158.987294928", si: false, pow: 1 }),
        123u32 => Some(UnitRow { name: "bushel", sys: VOLUME, factor: "35.23907016688", si: false, pow: 1 }),
        124u32 => Some(UnitRow { name: "cup", sys: VOLUME, factor: "0.2365882365", si: false, pow: 1 }),
        125u32 => Some(UnitRow { name: "ft3", sys: VOLUME, factor: "28.316846592", si: false, pow: 3 }),
        126u32 => Some(UnitRow { name: "ft^3", sys: VOLUME, factor: "28.316846592", si: false, pow: 3 }),
        127u32 => Some(UnitRow { name: "gal", sys: VOLUME, factor: "3.785411784", si: false, pow: 1 }),
        128u32 => Some(UnitRow { name: "in3", sys: VOLUME, factor: "0.016387064", si: false, pow: 3 }),
        129u32 => Some(UnitRow { name: "in^3", sys: VOLUME, factor: "0.016387064", si: false, pow: 3 }),
        130u32 => Some(UnitRow { name: "l", sys: VOLUME, factor: "1.0", si: true, pow: 1 }),
        131u32 => Some(UnitRow { name: "lt", sys: VOLUME, factor: "1.0", si: true, pow: 1 }),
        132u32 => Some(UnitRow { name: "ly3", sys: VOLUME, factor: "8.467866646237152e+50", si: false, pow: 3 }),
        133u32 => Some(UnitRow { name: "ly^3", sys: VOLUME, factor: "8.467866646237152e+50", si: false, pow: 3 }),
        134u32 => Some(UnitRow { name: "m3", sys: VOLUME, factor: "1000.0", si: true, pow: 3 }),
        135u32 => Some(UnitRow { name: "m^3", sys: VOLUME, factor: "1000.0", si: true, pow: 3 }),
        136u32 => Some(UnitRow { name: "mi3", sys: VOLUME, factor: "4168181825440.5796", si: false, pow: 3 }),
        137u32 => Some(UnitRow { name: "mi^3", sys: VOLUME, factor: "4168181825440.5796", si: false, pow: 3 }),
        138u32 => Some(UnitRow { name: "oz", sys: VOLUME, factor: "0.0295735295625", si: false, pow: 1 }),
        139u32 => Some(UnitRow { name: "pt", sys: VOLUME, factor: "0.473176473", si: false, pow: 1 }),
        140u32 => Some(UnitRow { name: "qt", sys: VOLUME, factor: "0.946352946", si: false, pow: 1 }),
        141u32 => Some(UnitRow { name: "regton", sys: VOLUME, factor: "2831.6846592", si: false, pow: 1 }),
        142u32 => Some(UnitRow { name: "tbs", sys: VOLUME, factor: "0.01478676478125", si: false, pow: 1 }),
        143u32 => Some(UnitRow { name: "tsp", sys: VOLUME, factor: "0.00492892159375", si: false, pow: 1 }),
        144u32 => Some(UnitRow { name: "tspm", sys: VOLUME, factor: "0.005", si: false, pow: 1 }),
        145u32 => Some(UnitRow { name: "uk_gal", sys: VOLUME, factor: "4.54609", si: false, pow: 1 }),
        146u32 => Some(UnitRow { name: "uk_pt", sys: VOLUME, factor: "0.56826125", si: true, pow: 1 }),
        147u32 => Some(UnitRow { name: "uk_qt", sys: VOLUME, factor: "1.1365225", si: false, pow: 1 }),
        148u32 => Some(UnitRow { name: "us_pt", sys: VOLUME, factor: "0.473176473", si: false, pow: 1 }),
        149u32 => Some(UnitRow { name: "yd3", sys: VOLUME, factor: "764.554857984", si: false, pow: 3 }),
        150u32 => Some(UnitRow { name: "yd^3", sys: VOLUME, factor: "764.554857984", si: false, pow: 3 }),
        _ => None,
    }
}

/// The number of SI prefixes.
pub const SI_PREFIX_COUNT: u32 = 21;


/// The SI-prefix table, as [`si_prefix`] reads it.
pub open spec fn spec_si_prefix(i: u32) -> Option<(&'static str, &'static str)> {
    match i {
        0u32 => Some(("Y", "1e24")),
        1u32 => Some(("Z", "1e21")),
        2u32 => Some(("E", "1e18")),
        3u32 => Some(("P", "1e15")),
        4u32 => Some(("T", "1e12")),
        5u32 => Some(("G", "1e9")),
        6u32 => Some(("M", "1e6")),
        7u32 => Some(("k", "1e3")),
        8u32 => Some(("h", "1e2")),
        9u32 => Some(("da", "1e1")),
        10u32 => Some(("e", "1e1")),
        11u32 => Some(("d", "1e-1")),
        12u32 => Some(("c", "1e-2")),
        13u32 => Some(("m", "1e-3")),
        14u32 => Some(("u", "1e-6")),
        15u32 => Some(("n", "1e-9")),
        16u32 => Some(("p", "1e-12")),
        17u32 => Some(("f", "1e-15")),
        18u32 => Some(("a", "1e-18")),
        19u32 => Some(("z", "1e-21")),
        20u32 => Some(("y", "1e-24")),
        _ => None,
    }
}

/// The SI prefix with a given index: its abbreviation and multiplier (as decimal text).
pub fn si_prefix(i: u32) -> (r: Option<(&'static str, &'static str)>)
    ensures
        r is Some <==> i < SI_PREFIX_COUNT,
        r == spec_si_prefix(i),
{
    match i {
        0u32 => Some(("Y", "1e24")),
        1u32 => Some(("Z", "1e21")),
        2u32 => Some(("E", "1e18")),
        3u32 => Some(("P", "1e15")),
        4u32 => Some(("T", "1e12")),
        5u32 => Some(("G", "1e9")),
        6u32 => Some(("M", "1e6")),
        7u32 => Some(("k", "1e3")),
        8u32 => Some(("h", "1e2")),
        9u32 => Some(("da", "1e1")),
        10u32 => Some(("e", "1e1")),
        11u32 => Some(("d", "1e-1")),
        12u32 => Some(("c", "1e-2")),
        13u32 => Some(("m", "1e-3")),
        14u32 => Some(("u", "1e-6")),
        15u32 => Some(("n", "1e-9")),
        16u32 => Some(("p", "1e-12")),
        17u32 => Some(("f", "1e-15")),
        18u32 => Some(("a", "1e-18")),
        19u32 => Some(("z", "1e-21")),
        20u32 => Some(("y", "1e-24")),
        _ => None,
    }
}

/// The number of binary prefixes.
pub const BIN_PREFIX_COUNT: u32 = 8;


/// The binary-prefix table, as [`bin_prefix`] reads it.
pub open spec fn spec_bin_prefix(i: u32) -> Option<(&'static str, &'static str)> {
    match i {
        0u32 => Some(("ki", "1024.0")),
        1u32 => Some(("Mi", "1048576.0")),
        2u32 => Some(("Gi", "1073741824.0")),
        3u32 => Some(("Ti", "1099511627776.0")),
        4u32 => Some(("Pi", "1125899906842624.0")),
        5u32 => Some(("Ei", "1152921504606846976.0")),
        6u32 => Some(("Zi", "1180591620717411303424.0")),
        7u32 => Some(("Yi", "1208925819614629174706176.0")),
        _ => None,
    }
}

/// The binary prefix with a given index: its abbreviation and multiplier (as decimal text).
pub fn bin_prefix(i: u32) -> (r: Option<(&'static str, &'static str)>)
    ensures
        r is Some <==> i < BIN_PREFIX_COUNT,
        r == spec_bin_prefix(i),
{
    match i {
        0u32 => Some(("ki", "1024.0")),
        1u32 => Some(("Mi", "1048576.0")),
        2u32 => Some(("Gi", "1073741824.0")),
        3u32 => Some(("Ti", "1099511627776.0")),
        4u32 => Some(("Pi", "1125899906842624.0")),
        5u32 => Some(("Ei", "1152921504606846976.0")),
        6u32 => Some(("Zi", "1180591620717411303424.0")),
        7u32 => Some(("Yi", "1208925819614629174706176.0")),
        _ => None,
    }
}

/// Whether a run of characters spells exactly `b`.
fn spells(a: &Vec<char>, b: &str) -> (r: bool)
    ensures
        r == (a@ == b@),
{
    let bc = chars_of(b);
    if a.len() != bc.len() {
        return false;
    }
    let mut i: usize = 0;
    while i < a.len()
        invariant
            a@.len() == bc@.len(),
            bc@ == b@,
            i <= a@.len(),
            forall|k: int| 0 <= k < i ==> a@[k] == bc@[k],
        decreases a@.len() - i,
    {
        if a[i] != bc[i] {
            return false;
        }
        i = i + 1;
    }
    assert(a@ == bc@);
    true
}

/// The rest of `name` after the prefix `pf`, or `None` when `name` does not start with it.
fn after_prefix(name: &Vec<char>, pf: &str) -> (r: Option<Vec<char>>)
    ensures
        match r {
            Some(rest) => name@ == pf@ + rest@,
            None => !(pf@.len() <= name@.len() && name@.subrange(0, pf@.len() as int) == pf@),
        },
{
    let pc = chars_of(pf);
    if pc.len() > name.len() {
        return None;
    }
    let mut i: usize = 0;
    while i < pc.len()
        invariant
            pc@ == pf@,
            pc@.len() <= name@.len(),
            i <= pc@.len(),
            forall|k: int| 0 <= k < i ==> name@[k] == pc@[k],
        decreases pc@.len() - i,
    {
        if name[i] != pc[i] {
            return None;
        }
        i = i + 1;
    }
    let mut rest: Vec<char> = Vec::new();
    let mut j: usize = pc.len();
    while j < name.len()
        invariant
            pc@.len() <= j <= name@.len(),
            rest@ == name@.subrange(pc@.len() as int, j as int),
        decreases name@.len() - j,
    {
        rest.push(name[j]);
        j = j + 1;
    }
    assert(name@ == pc@ + rest@);
    Some(rest)
}

/// The number a decimal text spells.
fn decimal<N: Number>(t: &str) -> Option<N> {
    N::parse_text(t)
}

/// `m` raised to the small power `p` (1, 2 or 3) by repeated multiplication.
pub open spec fn spec_small_power<N: Number>(m: N, p: u8) -> N {
    if p == 2 { m.spec_times(m) } else if p == 3 { m.spec_times(m.spec_times(m)) } else { m }
}

/// `m` raised to the small power `p` (see [`spec_small_power`]).
fn small_power<N: Number>(m: N, p: u8) -> (r: N)
    ensures
        r == spec_small_power(m, p),
{
    if p == 2 {
        m.times(m)
    } else if p == 3 {
        m.times(m.times(m))
    } else {
        m
    }
}

/// Whether base unit `u` is named `name` exactly (in a system a reading may have).
pub open spec fn base_named(u: u32, name: Seq<char>) -> bool {
    spec_unit_row(u) matches Some(row) && row.name@ == name && row.sys <= VOLUME
}

/// Whether `name` is SI prefix `p` followed by the name of prefixable base unit `u`.
pub open spec fn si_named(p: u32, u: u32, name: Seq<char>) -> bool {
    match (spec_si_prefix(p), spec_unit_row(u)) {
        (Some((abbr, _)), Some(row)) => row.si && row.sys <= VOLUME && row.name@.len() > 0 && name == abbr@ + row.name@,
        _ => false,
    }
}

/// Whether `name` is binary prefix `q` followed by the name of information unit `u`.
pub open spec fn bin_named(q: u32, u: u32, name: Seq<char>) -> bool {
    match (spec_bin_prefix(q), spec_unit_row(u)) {
        (Some((abbr, _)), Some(row)) => row.sys == INFORMATION && name == abbr@ + row.name@,
        _ => false,
    }
}

/// Whether a unit name has any reading: a base unit of that exact name, a prefixable base unit
/// after an SI prefix, or an information unit after a binary prefix.
pub open spec fn unit_known(name: Seq<char>) -> bool {
    ||| exists|u: u32| u < UNIT_COUNT && #[trigger] base_named(u, name)
    ||| exists|p: u32, u: u32| p < SI_PREFIX_COUNT && u < UNIT_COUNT && #[trigger] si_named(p, u, name)
    ||| exists|q: u32, u: u32| q < BIN_PREFIX_COUNT && u < UNIT_COUNT && #[trigger] bin_named(q, u, name)
}

/// Every reading of a unit name as `(system, factor)`: the base units of that exact name, then for
/// each SI prefix it starts with the prefixable base units named by the (non-empty) rest, scaled by
/// the prefix raised to the unit's power, then for each binary prefix the information units named
/// by the rest, scaled by the prefix. An unknown name has no reading.
pub fn resolve<N: Number>(name: &str) -> (r: Vec<(u8, N)>)
    ensures
        forall|k: int| 0 <= k < r@.len() ==> (#[trigger] r@[k]).0 <= VOLUME,
        r@.len() > 0 ==> unit_known(name@),
{
    let nc = chars_of(name);
    let mut out: Vec<(u8, N)> = Vec::new();
    let mut u: u32 = 0;
    while u < UNIT_COUNT
        invariant
            forall|k: int| 0 <= k < out@.len() ==> (#[trigger] out@[k]).0 <= VOLUME,
            nc@ == name@,
            out@.len() > 0 ==> unit_known(name@),
        decreases UNIT_COUNT - u,
    {
        let row = unit_row(u).unwrap();
        if spells(&nc, row.name) && row.sys <= VOLUME {
            match decimal::<N>(row.factor) {
                Some(f) => {
                    proof {
                        assert(base_named(u, name@));
                    }
                    out.push((row.sys, f));
                },
                None => {},
            }
        }
        u = u + 1;
    }
    let mut p: u32 = 0;
    while p < SI_PREFIX_COUNT
        invariant
            forall|k: int| 0 <= k < out@.len() ==> (#[trigger] out@[k]).0 <= VOLUME,
            nc@ == name@,
            out@.len() > 0 ==> unit_known(name@),
        decreases SI_PREFIX_COUNT - p,
    {
        let (abbr, mult) = si_prefix(p).unwrap();
        match after_prefix(&nc, abbr) {
            Some(rest) => {
                if rest.len() > 0 {
                    let mut v: u32 = 0;
                    while v < UNIT_COUNT
                        invariant
                            forall|k: int| 0 <= k < out@.len() ==> (#[trigger] out@[k]).0 <= VOLUME,
                            nc@ == name@,
                            out@.len() > 0 ==> unit_known(name@),
                            nc@ == abbr@ + rest@,
                            rest@.len() > 0,
                            p < SI_PREFIX_COUNT,
                            spec_si_prefix(p) == Some((abbr, mult)),
                        decreases UNIT_COUNT - v,
                    {
                        let row = unit_row(v).unwrap();
                        if row.si && row.sys <= VOLUME && spells(&rest, row.name) {
                            match (decimal::<N>(mult), decimal::<N>(row.factor)) {
                                (Some(m), Some(f)) => {
                                    proof {
                                        assert(si_named(p, v, name@));
                                    }
                                    out.push((row.sys, small_power(m, row.pow).times(f)));
                                },
                                _ => {},
                            }
                        }
                        v = v + 1;
                    }
                }
            },
            None => {},
        }
        p = p + 1;
    }
    let mut q: u32 = 0;
    while q < BIN_PREFIX_COUNT
        invariant
            forall|k: int| 0 <= k < out@.len() ==> (#[trigger] out@[k]).0 <= VOLUME,
            nc@ == name@,
            out@.len() > 0 ==> unit_known(name@),
        decreases BIN_PREFIX_COUNT - q,
    {
        let (abbr, mult) = bin_prefix(q).unwrap();
        match after_prefix(&nc, abbr) {
            Some(rest) => {
                let mut v: u32 = 0;
                while v < UNIT_COUNT
                    invariant
                        forall|k: int| 0 <= k < out@.len() ==> (#[trigger] out@[k]).0 <= VOLUME,
                        nc@ == name@,
                        out@.len() > 0 ==> unit_known(name@),
                        nc@ == abbr@ + rest@,
                        q < BIN_PREFIX_COUNT,
                        spec_bin_prefix(q) == Some((abbr, mult)),
                    decreases UNIT_COUNT - v,
                {
                    let row = unit_row(v).unwrap();
                    if row.sys == INFORMATION && spells(&rest, row.name) {
                        match (decimal::<N>(mult), decimal::<N>(row.factor)) {
                            (Some(m), Some(f)) => {
                                proof {
                                    assert(bin_named(q, v, name@));
                                }
                                out.push((INFORMATION, m.times(f)));
                            },
                            _ => {},
                        }
                    }
                    v = v + 1;
                }
            },
            None => {},
        }
        q = q + 1;
    }
    out
}

/// The first system both unit readings share, with the two factors: the first `from` reading whose
/// system some `to` reading has, paired with the first such `to` reading.
pub fn shared_system<N: Number>(froms: &Vec<(u8, N)>, tos: &Vec<(u8, N)>) -> (r: Option<(u8, N, N)>)
    ensures
        r matches Some(t) ==> (exists|i: int| 0 <= i < froms@.len() && (#[trigger] froms@[i]).0 == t.0 && froms@[i].1 == t.1)
            && (exists|j: int| 0 <= j < tos@.len() && (#[trigger] tos@[j]).0 == t.0 && tos@[j].1 == t.2),
        r is None ==> forall|i: int, j: int| 0 <= i < froms@.len() && 0 <= j < tos@.len()
            ==> (#[trigger] froms@[i]).0 != (#[trigger] tos@[j]).0,
{
    let mut i: usize = 0;
    while i < froms.len()
        invariant
            i <= froms@.len(),
            forall|a: int, b: int| 0 <= a < i && 0 <= b < tos@.len() ==> (#[trigger] froms@[a]).0 != (#[trigger] tos@[b]).0,
        decreases froms@.len() - i,
    {
        let (fs, ff) = froms[i];
        let mut j: usize = 0;
        while j < tos.len()
            invariant
                i < froms@.len(),
                froms@[i as int] == (fs, ff),
                j <= tos@.len(),
                forall|b: int| 0 <= b < j ==> (#[trigger] tos@[b]).0 != fs,
            decreases tos@.len() - j,
        {
            if tos[j].0 == fs {
                return Some((fs, ff, tos[j].1));
            }
            j = j + 1;
        }
        i = i + 1;
    }
    None
}

/// A temperature conversion through kelvin given the Celsius offset `off` (273.15) and the
/// Fahrenheit offset `foff` (459.67) (see [`convert_temp`]).
pub open spec fn spec_temp<N: Number>(number: N, from: Seq<char>, to: Seq<char>, from_factor: N, to_factor: N, off: N, foff: N) -> N {
    let five = N::spec_from_int(5);
    let nine = N::spec_from_int(9);
    let four = N::spec_from_int(4);
    let n0 = number.spec_times(from_factor);
    let n1 = if from == "C"@ || from == "cel"@ {
        n0.spec_plus(off)
    } else if from == "F"@ || from == "fah"@ {
        n0.spec_plus(foff).spec_times(five).spec_over(nine)
    } else if from == "Rank"@ {
        n0.spec_times(five.spec_over(nine))
    } else if from == "Reau"@ {
        n0.spec_times(five).spec_over(four).spec_plus(off)
    } else {
        n0
    };
    let n2 = if to == "C"@ || to == "cel"@ {
        n1.spec_minus(off)
    } else if to == "F"@ || to == "fah"@ {
        n1.spec_times(nine).spec_over(five).spec_minus(foff)
    } else if to == "Rank"@ {
        n1.spec_over(five.spec_over(nine))
    } else if to == "Reau"@ {
        n1.spec_minus(off).spec_over(five).spec_times(four)
    } else {
        n1
    };
    n2.spec_over(to_factor)
}

/// A temperature conversion through kelvin: scale by the from-unit's prefix factor, move onto the
/// kelvin scale (from Celsius, Fahrenheit, Rankine or Réaumur by their exact unit names), move off it
/// into the to-unit the same way, and divide by the to-unit's prefix factor.
fn convert_temp<N: Number>(number: N, from: &Vec<char>, to: &Vec<char>, from_factor: N, to_factor: N) -> (r: Option<N>)
    ensures
        r matches Some(x) ==> exists|off: N, foff: N| x == #[trigger] spec_temp(number, from@, to@, from_factor, to_factor, off, foff),
{
    let offset = decimal::<N>("273.15")?;
    let f_offset = decimal::<N>("459.67")?;
    let five = N::from_int(5);
    let nine = N::from_int(9);
    let four = N::from_int(4);
    let mut n = number.times(from_factor);
    if spells(from, "C") || spells(from, "cel") {
        n = n.plus(offset);
    } else if spells(from, "F") || spells(from, "fah") {
        n = n.plus(f_offset).times(five).over(nine);
    } else if spells(from, "Rank") {
        n = n.times(five.over(nine));
    } else if spells(from, "Reau") {
        n = n.times(five).over(four).plus(offset);
    }
    if spells(to, "C") || spells(to, "cel") {
        n = n.minus(offset);
    } else if spells(to, "F") || spells(to, "fah") {
        n = n.times(nine).over(five).minus(f_offset);
    } else if spells(to, "Rank") {
        n = n.over(five.over(nine));
    } else if spells(to, "Reau") {
        n = n.minus(offset).over(five).times(four);
    }
    let res = n.over(to_factor);
    proof {
        assert(res == spec_temp(number, from@, to@, from_factor, to_factor, offset, f_offset));
    }
    Some(res)
}

/// What [`convert_fn`] is stated to give, for a context `ctx` and arguments `args`.
pub open spec fn convert_fn_gives<'r, N: Number, R: Resolver<N>>(ctx: EvalCtx<'r, R>, args: Seq<Expr<N>>, r: Value<N>) -> bool {
    &&& r is Number || r is Error
    &&& room(ctx) ==> match lit_scalar(args[0]) {
        Some(Value::Error(k)) => r == Value::<N>::Error(k),
        Some(Value::Bool(_)) => r == Value::<N>::Error(ErrKind::Value),
        Some(Value::Text(t)) => digit_free(spec_trim(t@)) ==> r == Value::<N>::Error(ErrKind::Value),
        Some(_) => match args[1] {
            Expr::Lit(Value::Error(k)) => r == Value::<N>::Error(k),
            Expr::Lit(Value::Text(u)) => match args[2] {
                Expr::Lit(Value::Error(k)) => r == Value::<N>::Error(k),
                Expr::Lit(Value::Text(w)) => !unit_known(u@) || !unit_known(w@) ==> r == Value::<N>::Error(ErrKind::Na),
                _ => true,
            },
            _ => true,
        },
        None => true,
    }
}

/// `CONVERT(number, from_unit, to_unit)` — convert between two units of one system (see
/// [`resolve`] and [`shared_system`]): a pure ratio, or through kelvin for temperatures (see
/// [`convert_temp`]). Units sharing no system, or unknown (see [`unit_known`]), are `#N/A`; a boolean number is
/// `#VALUE!`; an argument error propagates.
pub fn convert_fn<N: Number, R: Resolver<N>>(ctx: &mut EvalCtx<R>, args: &[Expr<N>]) -> (r: Value<N>)
    requires
        args.len() == 3,
    ensures
        restored(*old(ctx), *final(ctx)),
        r is Number || r is Error,
        room(*old(ctx)) ==> match lit_scalar(args@[0]) {
            Some(Value::Error(k)) => r == Value::<N>::Error(k),
            Some(Value::Bool(_)) => r == Value::<N>::Error(ErrKind::Value),
            Some(Value::Text(t)) => digit_free(spec_trim(t@)) ==> r == Value::<N>::Error(ErrKind::Value),
            Some(_) => match args@[1] {
                Expr::Lit(Value::Error(k)) => r == Value::<N>::Error(k),
                Expr::Lit(Value::Text(u)) => match args@[2] {
                    Expr::Lit(Value::Error(k)) => r == Value::<N>::Error(k),
                    Expr::Lit(Value::Text(w)) => !unit_known(u@) || !unit_known(w@) ==> r == Value::<N>::Error(ErrKind::Na),
                    _ => true,
                },
                _ => true,
            },
            None => true,
        },
    decreases args_size(args@), 7nat,
{
    proof {
        lemma_arg_size(args@, 0);
        lemma_arg_size(args@, 1);
        lemma_arg_size(args@, 2);
    }
    let e0 = ctx.eval(&args[0]);
    proof {
        if room(*old(ctx)) && lit_scalar(args@[0]) is Some {
            lemma_scalarize_same(e0, lit_scalar(args@[0])->0);
        }
    }
    let number = match scalarize(e0) {
        Value::Error(k) => {
            return Value::Error(k);
        },
        Value::Bool(_) => {
            return Value::Error(ErrKind::Value);
        },
        other => match coerce_num(&other) {
            Ok(n) => n,
            Err(k) => {
                return Value::Error(k);
            },
        },
    };
    let from_unit = match arg_text(ctx, &args[1]) {
        Ok(t) => t,
        Err(k) => {
            return Value::Error(k);
        },
    };
    let to_unit = match arg_text(ctx, &args[2]) {
        Ok(t) => t,
        Err(k) => {
            return Value::Error(k);
        },
    };
    let froms = resolve::<N>(from_unit.as_str());
    let tos = resolve::<N>(to_unit.as_str());
    let (sys, ff, tf) = match shared_system(&froms, &tos) {
        Some(t) => t,
        None => {
            return Value::Error(ErrKind::Na);
        },
    };
    if sys == TEMPERATURE {
        match convert_temp(number, &chars_of(from_unit.as_str()), &chars_of(to_unit.as_str()), ff, tf) {
            Some(v) => finite_or_num(v),
            None => Value::Error(ErrKind::Num),
        }
    } else {
        finite_or_num(number.times(ff).over(tf))
    }
}

} // verus!
