//! Material assignment for sprite pixels.

use vstd::prelude::*;

verus! {

/// Red exceeds both green and blue by more than 32.
pub open spec fn red_dominant(pixel: [u8; 4]) -> bool {
    pixel[0] > pixel[1] + 32 && pixel[0] > pixel[2] + 32
}

/// Head slot for the top quarter of the sprite (saturating `4 * y`), body
/// slot below.
pub open spec fn band_slot(local_y: u32, height: u32) -> u16 {
    let scaled = if local_y * 4 > u32::MAX { u32::MAX as int } else { local_y * 4 };
    if scaled < height { 2 } else { 1 }
}

pub fn is_red_dominant(pixel: [u8; 4]) -> (red: bool)
    ensures
        red == red_dominant(pixel),
        red <==> (pixel[0] as int > pixel[1] as int + 32 && pixel[0] as int > pixel[2] as int + 32),
{
    (pixel[0] as u16) > (pixel[1] as u16) + 32 && (pixel[0] as u16) > (pixel[2] as u16) + 32
}

fn band_slot_exec(local_y: u32, height: u32) -> (slot: u16)
    ensures
        slot == band_slot(local_y, height),
{
    let scaled: u32 = if local_y > u32::MAX / 4 { u32::MAX } else { local_y * 4 };
    if scaled < height {
        2
    } else {
        1
    }
}

/// The material of one sprite pixel: the accent slot (3) for red-dominant
/// pixels, else the head (2) or body (1) slot by height.
pub fn material_slot(pixel: [u8; 4], local_y: u32, height: u32) -> (slot: u16)
    ensures
        slot == (if red_dominant(pixel) { 3 } else { band_slot(local_y, height) }),
        slot == 3 <==> (pixel[0] as int > pixel[1] as int + 32 && pixel[0] as int > pixel[2] as int + 32),
        slot != 3 ==> (slot == 2 <==> local_y as int * 4 < height as int),
{
    if is_red_dominant(pixel) {
        3
    } else {
        band_slot_exec(local_y, height)
    }
}

/// Number of red-dominant pixels.
pub open spec fn red_count(pixels: Seq<[u8; 4]>) -> nat
    decreases pixels.len(),
{
    if pixels.len() == 0 {
        0
    } else {
        red_count(pixels.drop_last()) + if red_dominant(pixels.last()) { 1nat } else { 0nat }
    }
}

/// The material of a column of samples: body (1) when there are none, the
/// accent slot (3) when at least half are red-dominant, else by height.
pub fn material_slot_from_samples(pixels: &[[u8; 4]], local_y: u32, height: u32) -> (slot: u16)
    ensures
        slot == (if pixels@.len() == 0 {
            1
        } else if red_count(pixels@) * 2 >= pixels@.len() {
            3
        } else {
            band_slot(local_y, height)
        }),
{
    if pixels.len() == 0 {
        return 1;
    }
    let mut red: usize = 0;
    let mut i: usize = 0;
    while i < pixels.len()
        invariant
            i <= pixels@.len(),
            red <= i,
            red == red_count(pixels@.take(i as int)),
        decreases pixels@.len() - i,
    {
        proof {
            assert(pixels@.take(i + 1).drop_last() =~= pixels@.take(i as int));
        }
        if is_red_dominant(pixels[i]) {
            red = red + 1;
        }
        i = i + 1;
    }
    proof {
        assert(pixels@.take(pixels@.len() as int) =~= pixels@);
    }
    if red as u128 * 2 >= pixels.len() as u128 {
        return 3;
    }
    band_slot_exec(local_y, height)
}

} // verus!

verus! {

/// A pixel is red-dominant exactly when its red channel exceeds both its
/// green and its blue channel by more than 32.
pub proof fn law_red_dominance_needs_both_channels(pixel: [u8; 4])
    ensures
        red_dominant(pixel) ==> pixel[0] as int > pixel[1] as int + 32 && pixel[0] as int > pixel[2] as int + 32,
        pixel[0] as int > pixel[1] as int + 32 && pixel[0] as int > pixel[2] as int + 32 ==> red_dominant(pixel),
{
}

/// A pixel gets the accent slot 3 exactly when red dominates both other
/// channels by more than 32; otherwise the head slot 2 in the top quarter
/// of the height (`4 * y < height`) and the body slot 1 below it.
pub proof fn law_pixel_slot(pixel: [u8; 4], local_y: u32, height: u32)
    ensures
        (if red_dominant(pixel) { 3u16 } else { band_slot(local_y, height) }) == (if pixel[0] as int > pixel[1] as int
            + 32 && pixel[0] as int > pixel[2] as int + 32 {
            3u16
        } else if local_y as int * 4 < height as int {
            2u16
        } else {
            1u16
        }),
{
}

/// The count of red-dominant pixels counts the pixels whose red channel
/// exceeds both others by more than 32: it is at most the number of
/// pixels, and adding one pixel adds one exactly when that pixel does.
pub proof fn law_red_count_counts_both_channels(pixels: Seq<[u8; 4]>, pixel: [u8; 4])
    ensures
        red_count(pixels) <= pixels.len(),
        red_count(pixels.push(pixel)) == red_count(pixels) + if pixel[0] as int > pixel[1] as int + 32 && pixel[0] as int
            > pixel[2] as int + 32 {
            1int
        } else {
            0int
        },
    decreases pixels.len(),
{
    assert(pixels.push(pixel).drop_last() =~= pixels);
    if pixels.len() > 0 {
        law_red_count_counts_both_channels(pixels.drop_last(), pixels.last());
        assert(pixels.drop_last().push(pixels.last()) =~= pixels);
    }
}

} // verus!
