use vstd::prelude::*;
use rand::Rng;
use rand::ThreadRng;

verus! {

/// A 24-bit RGB colour packed as `0xRRGGBB`.
#[derive(Clone, Copy, Debug, PartialEq, Eq, Structural)]
pub struct Colour(pub u32);

/// The packed value of the channels `r`, `g`, `b`.
pub open spec fn rgb_value(r: int, g: int, b: int) -> int {
    r * 65536 + g * 256 + b
}

impl Colour {
    /// Packs the three channels, red highest.
    pub fn from_rgb(r: u8, g: u8, b: u8) -> (c: Colour)
        ensures
            c.0 as int == rgb_value(r as int, g as int, b as int),
    {
        Colour((r as u32) * 65536 + (g as u32) * 256 + (b as u32))
    }

    /// The colour whose packed value is the bits of `value`.
    pub fn from_i32(value: i32) -> (c: Colour)
        ensures
            c.0 as int == if value < 0 { value + 4294967296 } else { value as int },
    {
        proof {
            assert((value as u32) as int == if value < 0 { value + 4294967296 } else { value as int }) by (bit_vector);
        }
        Colour(value as u32)
    }
}

#[verifier::external_type_specification]
#[verifier::external_body]
pub struct ExThreadRng(ThreadRng);

/// `rand::thread_rng`: the thread's random generator. It panics when the
/// system offers no entropy to seed it; nothing is stated of the generator.
#[verifier::external_body]
fn thread_rng() -> ThreadRng {
    rand::thread_rng()
}

/// `Rng::gen_range` on bytes: a value in `low..high`. The crate asserts
/// `low < high`, which `requires` keeps.
#[verifier::external_body]
fn gen_range_u8(rng: &mut ThreadRng, low: u8, high: u8) -> (v: u8)
    requires
        low < high,
    ensures
        low <= v < high,
{
    rng.gen_range(low, high)
}

/// A colour whose three channels are each drawn from `0..255`.
pub fn random_color() -> (c: Colour)
    ensures
        exists|r: int, g: int, b: int|
            0 <= r < 255 && 0 <= g < 255 && 0 <= b < 255 && c.0 as int == rgb_value(r, g, b),
{
    let mut rng = thread_rng();
    let r: u8 = gen_range_u8(&mut rng, 0, 255);
    let g: u8 = gen_range_u8(&mut rng, 0, 255);
    let b: u8 = gen_range_u8(&mut rng, 0, 255);
    let c = Colour::from_rgb(r, g, b);
    assert(0 <= r < 255 && 0 <= g < 255 && 0 <= b < 255 && c.0 as int == rgb_value(r as int, g as int, b as int));
    c
}

} // verus!
