//! The colors that the panel cycles through, and how the next one is drawn.
use embedded_graphics::pixelcolor::{IntoStorage, Rgb565};
use vstd::prelude::*;

verus! {

/// Number of colors of the rainbow.
pub const RAINBOW_LEN: usize = 7;

/// The rainbow, as the red, green and blue channels to send. The panel swaps
/// red and blue, so the entries for what is seen as red, orange, yellow,
/// green, blue, indigo and violet have these two channels exchanged.
pub const RAINBOW: [(u8, u8, u8); 7] = [
    (0, 0, 31),
    (0, 20, 31),
    (0, 63, 31),
    (0, 63, 0),
    (31, 0, 0),
    (31, 0, 8),
    (31, 0, 31),
];

/// Place of blue in the rainbow.
pub const BLUE: usize = 4;

/// What the color generator starts from.
pub const LFSR_SEED: u32 = 0xace1;

/// Storage form of a color: five bits of red, six of green, five of blue.
pub open spec fn storage(r: u8, g: u8, b: u8) -> u16 {
    ((r % 32) * 2048 + (g % 64) * 32 + b % 32) as u16
}

/// Storage form of the rainbow's color `i`.
pub open spec fn rainbow_storage(i: int) -> u16 {
    storage(RAINBOW@[i].0, RAINBOW@[i].1, RAINBOW@[i].2)
}

/// Storage form of a color by `embedded_graphics`: `Rgb565::new`, then
/// `IntoStorage::into_storage`.
///
/// Trusted: red takes the five highest bits, green the six in the middle and
/// blue the five lowest; channel bits in excess of that are dropped.
#[verifier::external_body]
fn rgb565(r: u8, g: u8, b: u8) -> (raw: u16)
    ensures
        raw == storage(r, g, b),
{
    Rgb565::new(r, g, b).into_storage()
}

/// Storage form of the rainbow's color `i`.
pub fn rainbow_color(i: usize) -> (raw: u16)
    requires
        i < RAINBOW_LEN,
    ensures
        raw == rainbow_storage(i as int),
{
    let (r, g, b) = RAINBOW[i];
    rgb565(r, g, b)
}

/// The step of the color generator: three shifts, each folded in by
/// exclusive or.
pub open spec fn xorshift(x: u32) -> u32 {
    let a = x ^ (x << 13u32);
    let b = a ^ (a >> 17u32);
    b ^ (b << 5u32)
}

/// Advances the color generator.
pub fn next_lfsr(lfsr: u32) -> (next: u32)
    ensures
        next == xorshift(lfsr),
{
    let mut lfsr: u32 = lfsr;
    lfsr = lfsr ^ (lfsr << 13u32);
    lfsr = lfsr ^ (lfsr >> 17u32);
    lfsr = lfsr ^ (lfsr << 5u32);
    lfsr
}

/// The color that a state of the generator selects, by its place in the
/// rainbow.
pub open spec fn selected(lfsr: u32) -> int {
    lfsr as int % RAINBOW_LEN as int
}

/// Storage form of the color that a state of the generator selects.
pub fn select_color(lfsr: u32) -> (raw: u16)
    ensures
        raw == rainbow_storage(selected(lfsr)),
{
    rainbow_color(lfsr as usize % RAINBOW_LEN)
}

/// `i` is the first place in the rainbow with this storage form.
pub open spec fn is_place_of(raw: u16, i: int) -> bool {
    &&& 0 <= i < RAINBOW_LEN
    &&& rainbow_storage(i) == raw
    &&& forall|j: int| 0 <= j < i ==> rainbow_storage(j) != raw
}

/// The place in the rainbow of the color with this storage form, if it has one.
pub open spec fn place_of(raw: u16) -> Option<usize> {
    if exists|i: int| is_place_of(raw, i) {
        Some((choose|i: int| is_place_of(raw, i)) as usize)
    } else {
        None
    }
}

/// A color has at most one place.
proof fn lemma_place_unique(raw: u16, i: int)
    requires
        is_place_of(raw, i),
    ensures
        place_of(raw) == Some(i as usize),
{
    let k = choose|k: int| is_place_of(raw, k);
    assert(is_place_of(raw, k));
    assert(k == i);
}

/// Finds a color in the rainbow by its storage form.
pub fn find_color(raw: u16) -> (place: Option<usize>)
    ensures
        place == place_of(raw),
{
    let mut i: usize = 0;
    while i < RAINBOW_LEN
        invariant
            i <= RAINBOW_LEN,
            forall|j: int| 0 <= j < i ==> rainbow_storage(j) != raw,
        decreases RAINBOW_LEN - i,
    {
        if rainbow_color(i) == raw {
            proof {
                lemma_place_unique(raw, i as int);
            }
            return Some(i);
        }
        i = i + 1;
    }
    None
}

/// Name of the color at a place in the rainbow.
pub open spec fn name_at(place: Option<usize>) -> Seq<char> {
    match place {
        Some(0) => "Red"@,
        Some(1) => "Orange"@,
        Some(2) => "Yellow"@,
        Some(3) => "Green"@,
        Some(4) => "Blue"@,
        Some(5) => "Indigo"@,
        Some(6) => "Violet"@,
        _ => "Unknown"@,
    }
}

/// Name of the color at a place in the rainbow.
pub fn color_name(place: Option<usize>) -> (name: &'static str)
    ensures
        name@ == name_at(place),
{
    match place {
        Some(0) => "Red",
        Some(1) => "Orange",
        Some(2) => "Yellow",
        Some(3) => "Green",
        Some(4) => "Blue",
        Some(5) => "Indigo",
        Some(6) => "Violet",
        _ => "Unknown",
    }
}

/// No two colors of the rainbow share a storage form, so a color is always
/// found again at its own place.
pub proof fn law_rainbow_is_distinct(i: int, j: int)
    requires
        0 <= i < RAINBOW_LEN,
        0 <= j < RAINBOW_LEN,
    ensures
        rainbow_storage(i) == rainbow_storage(j) <==> i == j,
        place_of(rainbow_storage(i)) == Some(i as usize),
{
    assert(rainbow_storage(0) == 31);
    assert(rainbow_storage(1) == 671);
    assert(rainbow_storage(2) == 2047);
    assert(rainbow_storage(3) == 2016);
    assert(rainbow_storage(4) == 63488);
    assert(rainbow_storage(5) == 63496);
    assert(rainbow_storage(6) == 63519);
    lemma_place_unique(rainbow_storage(i), i);
}

/// The color generator never gets stuck: zero, which it would not leave, is
/// reached from zero only.
pub proof fn law_generator_never_sticks(x: u32)
    ensures
        xorshift(x) == 0 <==> x == 0,
{
    let a = x ^ (x << 13u32);
    let b = a ^ (a >> 17u32);
    let c = b ^ (b << 5u32);
    assert(a == 0 <==> x == 0) by (bit_vector)
        requires
            a == x ^ (x << 13u32),
    ;
    assert(b == 0 <==> a == 0) by (bit_vector)
        requires
            b == a ^ (a >> 17u32),
    ;
    assert(c == 0 <==> b == 0) by (bit_vector)
        requires
            c == b ^ (b << 5u32),
    ;
}

/// The generator loses no state: different states have different successors.
pub proof fn law_generator_is_injective(x: u32, y: u32)
    requires
        xorshift(x) == xorshift(y),
    ensures
        x == y,
{
    let a = x ^ (x << 13u32);
    let b = a ^ (a >> 17u32);
    let a2 = y ^ (y << 13u32);
    let b2 = a2 ^ (a2 >> 17u32);
    assert(b == b2) by (bit_vector)
        requires
            b ^ (b << 5u32) == b2 ^ (b2 << 5u32),
    ;
    assert(a == a2) by (bit_vector)
        requires
            a ^ (a >> 17u32) == a2 ^ (a2 >> 17u32),
    ;
    assert(x == y) by (bit_vector)
        requires
            x ^ (x << 13u32) == y ^ (y << 13u32),
    ;
}

/// The channels can be read off a color's storage form: blue from the five
/// lowest bits, green from the six above, red from the five highest. Of each
/// channel as many low bits are kept.
pub proof fn law_channels_read_back(r: u8, g: u8, b: u8)
    ensures
        storage(r, g, b) as int / 2048 == r as int % 32,
        storage(r, g, b) as int / 32 % 64 == g as int % 64,
        storage(r, g, b) as int % 32 == b as int % 32,
{
}

/// The storage forms of the rainbow, from red to violet as the panel shows
/// them; a storage form is found exactly at the place where it stands, and any
/// other one nowhere.
pub proof fn law_rainbow_in_numbers(raw: u16)
    ensures
        rainbow_storage(0) == 0x001f,
        rainbow_storage(1) == 0x029f,
        rainbow_storage(2) == 0x07ff,
        rainbow_storage(3) == 0x07e0,
        rainbow_storage(4) == 0xf800,
        rainbow_storage(5) == 0xf808,
        rainbow_storage(6) == 0xf81f,
        place_of(raw) == Some(0usize) <==> raw == 0x001f,
        place_of(raw) == Some(1usize) <==> raw == 0x029f,
        place_of(raw) == Some(2usize) <==> raw == 0x07ff,
        place_of(raw) == Some(3usize) <==> raw == 0x07e0,
        place_of(raw) == Some(4usize) <==> raw == 0xf800,
        place_of(raw) == Some(5usize) <==> raw == 0xf808,
        place_of(raw) == Some(6usize) <==> raw == 0xf81f,
        place_of(raw) matches Some(i) ==> i < 7,
{
    assert(rainbow_storage(0) == 0x001f);
    assert(rainbow_storage(1) == 0x029f);
    assert(rainbow_storage(2) == 0x07ff);
    assert(rainbow_storage(3) == 0x07e0);
    assert(rainbow_storage(4) == 0xf800);
    assert(rainbow_storage(5) == 0xf808);
    assert(rainbow_storage(6) == 0xf81f);
    law_rainbow_is_distinct(0, 0);
    law_rainbow_is_distinct(1, 1);
    law_rainbow_is_distinct(2, 2);
    law_rainbow_is_distinct(3, 3);
    law_rainbow_is_distinct(4, 4);
    law_rainbow_is_distinct(5, 5);
    law_rainbow_is_distinct(6, 6);
    if exists|i: int| is_place_of(raw, i) {
        let i = choose|i: int| is_place_of(raw, i);
        assert(is_place_of(raw, i));
    }
}

/// The step of the color generator in arithmetic on 32-bit numbers: the state
/// times 2^13 is folded in, of the outcome a 2^17th part, and of that outcome
/// 2^5 times itself.
pub proof fn law_generator_in_arithmetic(x: u32, a: u32, b: u32)
    requires
        a == x ^ ((x * 8192) % 0x1_0000_0000) as u32,
        b == a ^ (a / 131072),
    ensures
        xorshift(x) == b ^ ((b * 32) % 0x1_0000_0000) as u32,
{
    assert(((x * 8192) % 0x1_0000_0000) as u32 == x << 13u32) by (bit_vector);
    assert(a / 131072 == a >> 17u32) by (bit_vector);
    assert(((b * 32) % 0x1_0000_0000) as u32 == b << 5u32) by (bit_vector);
}

/// The generator is linear: the successor of two states folded into one is
/// their successors folded into one.
pub proof fn law_generator_is_linear(x: u32, y: u32)
    ensures
        xorshift(x ^ y) == xorshift(x) ^ xorshift(y),
{
    let a = x ^ (x << 13u32);
    let b = a ^ (a >> 17u32);
    let a2 = y ^ (y << 13u32);
    let b2 = a2 ^ (a2 >> 17u32);
    assert((x ^ y) ^ ((x ^ y) << 13u32) == (x ^ (x << 13u32)) ^ (y ^ (y << 13u32)))
        by (bit_vector);
    assert((a ^ a2) ^ ((a ^ a2) >> 17u32) == (a ^ (a >> 17u32)) ^ (a2 ^ (a2 >> 17u32)))
        by (bit_vector);
    assert((b ^ b2) ^ ((b ^ b2) << 5u32) == (b ^ (b << 5u32)) ^ (b2 ^ (b2 << 5u32)))
        by (bit_vector);
}

/// A state selects one of the seven places, and seven states later the same
/// again: the difference between a state and its place is a multiple of seven.
pub proof fn law_selection_is_modulo_seven(lfsr: u32, q: int, place: int)
    requires
        0 <= place < 7,
        lfsr == 7 * q + place,
    ensures
        selected(lfsr) == place,
{
}

/// The names, by storage form: every color of the rainbow goes by its own, and
/// anything else is unknown.
pub proof fn law_names_of_colors(raw: u16)
    ensures
        raw == 0x001f ==> name_at(place_of(raw)) == "Red"@,
        raw == 0x029f ==> name_at(place_of(raw)) == "Orange"@,
        raw == 0x07ff ==> name_at(place_of(raw)) == "Yellow"@,
        raw == 0x07e0 ==> name_at(place_of(raw)) == "Green"@,
        raw == 0xf800 ==> name_at(place_of(raw)) == "Blue"@,
        raw == 0xf808 ==> name_at(place_of(raw)) == "Indigo"@,
        raw == 0xf81f ==> name_at(place_of(raw)) == "Violet"@,
        raw != 0x001f && raw != 0x029f && raw != 0x07ff && raw != 0x07e0 && raw != 0xf800 && raw
            != 0xf808 && raw != 0xf81f ==> place_of(raw) is None && name_at(place_of(raw))
            == "Unknown"@,
{
    law_rainbow_in_numbers(raw);
}

/// A place beyond the rainbow has no name.
pub proof fn law_no_name_beyond_the_rainbow(place: usize)
    requires
        place >= 7,
    ensures
        name_at(Some(place)) == "Unknown"@,
{
}

} // verus!
