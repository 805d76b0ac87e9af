//! Exact-match quantization of RGBA channel values into the RGB332 bit fields.

use std::collections::HashMap;
use vstd::prelude::*;

verus! {

broadcast use vstd::std_specs::hash::group_hash_axioms;

/// Bits of a packed byte that hold the red field.
pub const RED_MASK: u8 = 0b111_000_00;

/// Bits of a packed byte that hold the green field.
pub const GREEN_MASK: u8 = 0b000_111_00;

/// Bits of a packed byte that hold the blue field.
pub const BLUE_MASK: u8 = 0b000_000_11;

/// The red field of a packed byte for a red channel value, for the eight
/// values that three bits can stand for; `None` for every other value.
pub open spec fn red_bits(value: u8) -> Option<u8> {
    if value == 0x00 {
        Some(0b000_000_00u8)
    } else if value == 0x24 {
        Some(0b001_000_00u8)
    } else if value == 0x49 {
        Some(0b010_000_00u8)
    } else if value == 0x6d {
        Some(0b011_000_00u8)
    } else if value == 0x92 {
        Some(0b100_000_00u8)
    } else if value == 0xb6 {
        Some(0b101_000_00u8)
    } else if value == 0xdb {
        Some(0b110_000_00u8)
    } else if value == 0xff {
        Some(0b111_000_00u8)
    } else {
        None
    }
}

/// The green field of a packed byte for a green channel value, for the eight
/// values that three bits can stand for; `None` for every other value.
pub open spec fn green_bits(value: u8) -> Option<u8> {
    if value == 0x00 {
        Some(0b000_000_00u8)
    } else if value == 0x24 {
        Some(0b000_001_00u8)
    } else if value == 0x49 {
        Some(0b000_010_00u8)
    } else if value == 0x6d {
        Some(0b000_011_00u8)
    } else if value == 0x92 {
        Some(0b000_100_00u8)
    } else if value == 0xb6 {
        Some(0b000_101_00u8)
    } else if value == 0xdb {
        Some(0b000_110_00u8)
    } else if value == 0xff {
        Some(0b000_111_00u8)
    } else {
        None
    }
}

/// The blue field of a packed byte for a blue channel value, for the four
/// values that two bits can stand for; `None` for every other value.
pub open spec fn blue_bits(value: u8) -> Option<u8> {
    if value == 0x00 {
        Some(0b000_000_00u8)
    } else if value == 0x55 {
        Some(0b000_000_01u8)
    } else if value == 0xaa {
        Some(0b000_000_10u8)
    } else if value == 0xff {
        Some(0b000_000_11u8)
    } else {
        None
    }
}

/// What a lookup of one RGBA pixel gives: `Ok(None)` for a fully transparent
/// pixel, `Ok(Some(byte))` for an opaque pixel whose three colour channels all
/// have a field, and `Err(())` for everything else.
pub open spec fn lookup(pixel: [u8; 4]) -> Result<Option<u8>, ()> {
    if pixel[3] == 0x00 {
        Ok(None)
    } else if pixel[3] != 0xff {
        Err(())
    } else {
        match (red_bits(pixel[0]), green_bits(pixel[1]), blue_bits(pixel[2])) {
            (Some(red), Some(green), Some(blue)) => Ok(Some(red | green | blue)),
            _ => Err(()),
        }
    }
}

/// The table that the spec function `bits` describes, as a finite map.
pub open spec fn table_of(bits: spec_fn(u8) -> Option<u8>) -> Map<u8, u8> {
    Map::new(|value: u8| bits(value) is Some, |value: u8| bits(value).unwrap())
}

/// What a `LookupTable` holds: one exact-match table for each channel.
pub struct ChannelTables {
    pub red: Map<u8, u8>,
    pub green: Map<u8, u8>,
    pub blue: Map<u8, u8>,
}

/// The tables that the three channel functions describe: eight entries for
/// red, eight for green and four for blue.
pub open spec fn channel_tables() -> ChannelTables {
    ChannelTables {
        red: table_of(|value: u8| red_bits(value)),
        green: table_of(|value: u8| green_bits(value)),
        blue: table_of(|value: u8| blue_bits(value)),
    }
}

/// The three channel tables, built once and read-only afterwards.
pub struct LookupTable {
    red_table: HashMap<u8, u8>,
    green_table: HashMap<u8, u8>,
    blue_table: HashMap<u8, u8>,
}

impl View for LookupTable {
    type V = ChannelTables;

    closed spec fn view(&self) -> ChannelTables {
        ChannelTables {
            red: self.red_table@,
            green: self.green_table@,
            blue: self.blue_table@,
        }
    }
}

impl LookupTable {
    /// Every lookup table holds the same entries: no method changes one.
    #[verifier::type_invariant]
    spec fn holds_channel_tables(self) -> bool {
        self@ == channel_tables()
    }

    /// Builds the three tables.
    pub fn new() -> (table: Self)
        ensures
            table@ == channel_tables(),
    {
        let mut red_table: HashMap<u8, u8> = HashMap::new();
        red_table.insert(0x00, 0b000_000_00);
        red_table.insert(0x24, 0b001_000_00);
        red_table.insert(0x49, 0b010_000_00);
        red_table.insert(0x6d, 0b011_000_00);
        red_table.insert(0x92, 0b100_000_00);
        red_table.insert(0xb6, 0b101_000_00);
        red_table.insert(0xdb, 0b110_000_00);
        red_table.insert(0xff, 0b111_000_00);

        let mut green_table: HashMap<u8, u8> = HashMap::new();
        green_table.insert(0x00, 0b000_000_00);
        green_table.insert(0x24, 0b000_001_00);
        green_table.insert(0x49, 0b000_010_00);
        green_table.insert(0x6d, 0b000_011_00);
        green_table.insert(0x92, 0b000_100_00);
        green_table.insert(0xb6, 0b000_101_00);
        green_table.insert(0xdb, 0b000_110_00);
        green_table.insert(0xff, 0b000_111_00);

        let mut blue_table: HashMap<u8, u8> = HashMap::new();
        blue_table.insert(0x00, 0b000_000_00);
        blue_table.insert(0x55, 0b000_000_01);
        blue_table.insert(0xaa, 0b000_000_10);
        blue_table.insert(0xff, 0b000_000_11);

        assert(red_table@ =~= table_of(|value: u8| red_bits(value)));
        assert(green_table@ =~= table_of(|value: u8| green_bits(value)));
        assert(blue_table@ =~= table_of(|value: u8| blue_bits(value)));
        Self { red_table, green_table, blue_table }
    }

    /// Looks one RGBA pixel up.
    pub fn get(&self, key: &[u8; 4]) -> (result: Result<Option<u8>, ()>)
        ensures
            result == lookup(*key),
    {
        proof {
            use_type_invariant(self);
        }
        if key[3] == 0x00 {
            return Ok(None);
        } else if key[3] != 0xff {
            return Err(());
        }
        let red_bits = match self.red_table.get(&key[0]) {
            Some(bits) => *bits,
            None => return Err(()),
        };
        let green_bits = match self.green_table.get(&key[1]) {
            Some(bits) => *bits,
            None => return Err(()),
        };
        let blue_bits = match self.blue_table.get(&key[2]) {
            Some(bits) => *bits,
            None => return Err(()),
        };
        proof {
            lemma_fields_disjoint(key[0], key[1], key[2]);
            lemma_disjoint_fields_combine(red_bits, green_bits, blue_bits);
        }
        Ok(Some(red_bits ^ green_bits ^ blue_bits))
    }
}

/// The values of a red or green channel that have a field.
pub open spec fn three_bit_values() -> Set<u8> {
    set![0x00u8, 0x24u8, 0x49u8, 0x6du8, 0x92u8, 0xb6u8, 0xdbu8, 0xffu8]
}

/// The values of a blue channel that have a field.
pub open spec fn two_bit_values() -> Set<u8> {
    set![0x00u8, 0x55u8, 0xaau8, 0xffu8]
}

/// The value of level `level` of eight evenly spaced over 0..=255: the
/// fraction `255 * level / 7`, rounded to the nearest whole number.
pub open spec fn three_bit_value(level: int) -> int {
    (2 * 255 * level + 7) / 14
}

/// The value of level `level` of four evenly spaced over 0..=255:
/// `255 * level / 3`, which is whole.
pub open spec fn two_bit_value(level: int) -> int {
    255 * level / 3
}

/// A channel value has a field exactly if it is one of the listed values.
pub proof fn lemma_supported_values(value: u8)
    ensures
        red_bits(value) is Some <==> three_bit_values().contains(value),
        green_bits(value) is Some <==> three_bit_values().contains(value),
        blue_bits(value) is Some <==> two_bit_values().contains(value),
{
}

/// The listed values are those evenly spaced over 0..=255, eight of them for
/// red and green and four for blue, and the field of each is its level,
/// moved to the field's place in the byte.
pub proof fn lemma_fields_follow_even_spacing(level: int)
    ensures
        0 <= level < 8 ==> red_bits(three_bit_value(level) as u8) == Some((level * 32) as u8),
        0 <= level < 8 ==> green_bits(three_bit_value(level) as u8) == Some((level * 4) as u8),
        0 <= level < 4 ==> blue_bits(two_bit_value(level) as u8) == Some(level as u8),
        0 <= level < 8 ==> three_bit_values().contains(three_bit_value(level) as u8),
        0 <= level < 4 ==> two_bit_values().contains(two_bit_value(level) as u8),
{
    assert(three_bit_value(0) == 0x00 && three_bit_value(1) == 0x24);
    assert(three_bit_value(2) == 0x49 && three_bit_value(3) == 0x6d);
    assert(three_bit_value(4) == 0x92 && three_bit_value(5) == 0xb6);
    assert(three_bit_value(6) == 0xdb && three_bit_value(7) == 0xff);
}

/// The three fields of a packed byte never overlap: each channel's field lies
/// within its own mask, and the three masks share no bit and fill the byte.
pub proof fn lemma_fields_disjoint(red: u8, green: u8, blue: u8)
    ensures
        red_bits(red) matches Some(field) ==> field & RED_MASK == field,
        green_bits(green) matches Some(field) ==> field & GREEN_MASK == field,
        blue_bits(blue) matches Some(field) ==> field & BLUE_MASK == field,
        RED_MASK & GREEN_MASK == 0,
        RED_MASK & BLUE_MASK == 0,
        GREEN_MASK & BLUE_MASK == 0,
        RED_MASK | GREEN_MASK | BLUE_MASK == 0xff,
{
    assert(forall|field: u8|
        field == 0x00 || field == 0x20 || field == 0x40 || field == 0x60 || field == 0x80
            || field == 0xa0 || field == 0xc0 || field == 0xe0 ==> #[trigger] (field & 0xe0)
            == field) by (bit_vector);
    assert(forall|field: u8|
        field == 0x00 || field == 0x04 || field == 0x08 || field == 0x0c || field == 0x10
            || field == 0x14 || field == 0x18 || field == 0x1c ==> #[trigger] (field & 0x1c)
            == field) by (bit_vector);
    assert(forall|field: u8|
        field == 0x00 || field == 0x01 || field == 0x02 || field == 0x03 ==> #[trigger] (field
            & 0x03) == field) by (bit_vector);
    assert(0xe0u8 & 0x1cu8 == 0) by (bit_vector);
    assert(0xe0u8 & 0x03u8 == 0) by (bit_vector);
    assert(0x1cu8 & 0x03u8 == 0) by (bit_vector);
    assert(0xe0u8 | 0x1cu8 | 0x03u8 == 0xff) by (bit_vector);
}

/// On fields that lie within their masks, exclusive or, inclusive or and
/// addition all give the same packed byte, no two fields share a bit, and
/// each field can be read back from the byte.
pub proof fn lemma_disjoint_fields_combine(red: u8, green: u8, blue: u8)
    requires
        red & RED_MASK == red,
        green & GREEN_MASK == green,
        blue & BLUE_MASK == blue,
    ensures
        red ^ green ^ blue == red | green | blue,
        (red | green | blue) == red + green + blue,
        red & green == 0,
        red & blue == 0,
        green & blue == 0,
        (red | green | blue) & RED_MASK == red,
        (red | green | blue) & GREEN_MASK == green,
        (red | green | blue) & BLUE_MASK == blue,
{
    assert(red & 0xe0 == red && green & 0x1c == green && blue & 0x03 == blue ==> {
        &&& red ^ green ^ blue == red | green | blue
        &&& (red | green | blue) == red + green + blue
        &&& red & green == 0
        &&& red & blue == 0
        &&& green & blue == 0
        &&& (red | green | blue) & 0xe0 == red
        &&& (red | green | blue) & 0x1c == green
        &&& (red | green | blue) & 0x03 == blue
    }) by (bit_vector);
}

/// A fully opaque pixel whose three channels all hold listed values is
/// looked up as the three channels' fields combined by inclusive or, and no
/// two of the three fields share a bit.
pub proof fn lemma_lookup_of_supported_pixel(pixel: [u8; 4])
    requires
        pixel[3] == 0xff,
        three_bit_values().contains(pixel[0]),
        three_bit_values().contains(pixel[1]),
        two_bit_values().contains(pixel[2]),
    ensures
        red_bits(pixel[0]) is Some,
        green_bits(pixel[1]) is Some,
        blue_bits(pixel[2]) is Some,
        lookup(pixel) == Ok::<Option<u8>, ()>(
            Some(red_bits(pixel[0])->0 | green_bits(pixel[1])->0 | blue_bits(pixel[2])->0),
        ),
        red_bits(pixel[0])->0 & green_bits(pixel[1])->0 == 0,
        red_bits(pixel[0])->0 & blue_bits(pixel[2])->0 == 0,
        green_bits(pixel[1])->0 & blue_bits(pixel[2])->0 == 0,
{
    lemma_supported_values(pixel[0]);
    lemma_supported_values(pixel[1]);
    lemma_supported_values(pixel[2]);
    lemma_fields_disjoint(pixel[0], pixel[1], pixel[2]);
    lemma_disjoint_fields_combine(
        red_bits(pixel[0])->0,
        green_bits(pixel[1])->0,
        blue_bits(pixel[2])->0,
    );
}

/// A pixel with alpha 0 is looked up as transparent, whatever its colour.
pub proof fn lemma_lookup_of_transparent_pixel(pixel: [u8; 4])
    requires
        pixel[3] == 0x00,
    ensures
        lookup(pixel) == Ok::<Option<u8>, ()>(None),
{
}

/// A pixel with an alpha from 1 to 254 is unsupported, whatever its colour.
pub proof fn lemma_lookup_of_partly_transparent_pixel(pixel: [u8; 4])
    requires
        0x00 < pixel[3] < 0xff,
    ensures
        lookup(pixel) == Err::<Option<u8>, ()>(()),
{
}

/// A fully opaque pixel with a channel that holds none of the listed values
/// is unsupported.
pub proof fn lemma_lookup_of_unsupported_channel(pixel: [u8; 4])
    requires
        pixel[3] == 0xff,
        !three_bit_values().contains(pixel[0]) || !three_bit_values().contains(pixel[1])
            || !two_bit_values().contains(pixel[2]),
    ensures
        lookup(pixel) == Err::<Option<u8>, ()>(()),
{
    lemma_supported_values(pixel[0]);
    lemma_supported_values(pixel[1]);
    lemma_supported_values(pixel[2]);
}

} // verus!
