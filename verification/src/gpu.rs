use vstd::prelude::*;

verus! {

/// The width of the framebuffer, in pixels.
pub const FB_WIDTH: usize = 1024;

/// The height of the framebuffer, in pixels.
pub const FB_HEIGHT: usize = 768;

/// The bytes of a pixel: blue, green, red, and one left alone.
pub const BYTES_PER_PIXEL: usize = 4;

/// The bytes that the test pattern writes reach up to (exclusive): the red
/// byte of the last pixel is the last one written.
pub open spec fn pattern_extent() -> int {
    (FB_HEIGHT * FB_WIDTH - 1) * BYTES_PER_PIXEL + 3
}

/// Byte `i` of the framebuffer `old` once the test pattern is drawn: pixel
/// (x, y) gets blue x, green y and red x + y, each taken modulo 256; the
/// fourth byte of each pixel, and every byte past the screen, stay as they were.
pub open spec fn test_pattern_byte(old: Seq<u8>, i: int) -> u8 {
    let p = i / BYTES_PER_PIXEL as int;
    let x = p % FB_WIDTH as int;
    let y = p / FB_WIDTH as int;
    let c = i % BYTES_PER_PIXEL as int;
    if 0 <= i < (FB_HEIGHT * FB_WIDTH * BYTES_PER_PIXEL) as int && c < 3 {
        if c == 0 {
            (x % 256) as u8
        } else if c == 1 {
            (y % 256) as u8
        } else {
            ((x + y) % 256) as u8
        }
    } else {
        old[i]
    }
}

/// Where the bytes of pixel (x, y) start in the framebuffer.
pub open spec fn pixel_offset(x: int, y: int) -> int {
    (y * FB_WIDTH + x) * BYTES_PER_PIXEL
}

/// The test pattern gives pixel (x, y) blue x, green y and red x + y, each
/// modulo 256, and leaves its fourth byte alone.
pub proof fn lemma_test_pattern_pixel(old: Seq<u8>, x: int, y: int)
    requires
        0 <= x < FB_WIDTH,
        0 <= y < FB_HEIGHT,
    ensures
        test_pattern_byte(old, pixel_offset(x, y)) as int == x % 256,
        test_pattern_byte(old, pixel_offset(x, y) + 1) as int == y % 256,
        test_pattern_byte(old, pixel_offset(x, y) + 2) as int == (x + y) % 256,
        test_pattern_byte(old, pixel_offset(x, y) + 3) == old[pixel_offset(x, y) + 3],
{
    lemma_pixel_byte(x, y, 0);
    lemma_pixel_byte(x, y, 1);
    lemma_pixel_byte(x, y, 2);
    lemma_pixel_byte(x, y, 3);
}

/// The test pattern leaves every byte past the screen as it was.
pub proof fn lemma_test_pattern_off_screen(old: Seq<u8>, i: int)
    requires
        i >= (FB_HEIGHT * FB_WIDTH * BYTES_PER_PIXEL) as int,
    ensures
        test_pattern_byte(old, i) == old[i],
{
}

proof fn lemma_pixel_byte(x: int, y: int, c: int)
    requires
        0 <= x < FB_WIDTH,
        0 <= y < FB_HEIGHT,
        0 <= c < BYTES_PER_PIXEL,
    ensures
        ({
            let i = (y * FB_WIDTH + x) * BYTES_PER_PIXEL + c;
            &&& 0 <= i < (FB_HEIGHT * FB_WIDTH * BYTES_PER_PIXEL) as int
            &&& i / BYTES_PER_PIXEL as int == y * FB_WIDTH + x
            &&& i % BYTES_PER_PIXEL as int == c
            &&& (i / BYTES_PER_PIXEL as int) % FB_WIDTH as int == x
            &&& (i / BYTES_PER_PIXEL as int) / FB_WIDTH as int == y
        }),
{
    let p = y * FB_WIDTH + x;
    let i = p * BYTES_PER_PIXEL + c;
    vstd::arithmetic::div_mod::lemma_fundamental_div_mod_converse(i, BYTES_PER_PIXEL as int, p, c);
    vstd::arithmetic::div_mod::lemma_fundamental_div_mod_converse(p, FB_WIDTH as int, y, x);
}

/// Draws the test pattern into the framebuffer `fb`: pixel (x, y) gets blue
/// x, green y and red x + y, each modulo 256.
pub fn draw_test_pattern(fb: &mut [u8])
    requires
        old(fb)@.len() >= pattern_extent(),
    ensures
        final(fb)@.len() == old(fb)@.len(),
        forall|i: int| 0 <= i < final(fb)@.len() ==> #[trigger] final(fb)@[i] == test_pattern_byte(old(fb)@, i),
        forall|x: int, y: int|
            #![trigger pixel_offset(x, y)]
            0 <= x < FB_WIDTH && 0 <= y < FB_HEIGHT ==> {
                &&& final(fb)@[pixel_offset(x, y)] as int == x % 256
                &&& final(fb)@[pixel_offset(x, y) + 1] as int == y % 256
                &&& final(fb)@[pixel_offset(x, y) + 2] as int == (x + y) % 256
                &&& pixel_offset(x, y) + 3 < old(fb)@.len() ==> final(fb)@[pixel_offset(x, y) + 3]
                    == old(fb)@[pixel_offset(x, y) + 3]
            },
        forall|i: int|
            (FB_HEIGHT * FB_WIDTH * BYTES_PER_PIXEL) as int <= i < final(fb)@.len() ==> #[trigger] final(fb)@[i]
                == old(fb)@[i],
{
    let ghost orig = fb@;
    let mut y: usize = 0;
    while y < FB_HEIGHT
        invariant
            y <= FB_HEIGHT,
            orig.len() >= pattern_extent(),
            fb@.len() == orig.len(),
            forall|i: int|
                0 <= i < fb@.len() ==> #[trigger] fb@[i] == if i < (y * FB_WIDTH * BYTES_PER_PIXEL) as int {
                    test_pattern_byte(orig, i)
                } else {
                    orig[i]
                },
        decreases FB_HEIGHT - y,
    {
        let mut x: usize = 0;
        while x < FB_WIDTH
            invariant
                y < FB_HEIGHT,
                x <= FB_WIDTH,
                orig.len() >= pattern_extent(),
                fb@.len() == orig.len(),
                forall|i: int|
                    0 <= i < fb@.len() ==> #[trigger] fb@[i] == if i < ((y * FB_WIDTH + x) * BYTES_PER_PIXEL) as int {
                        test_pattern_byte(orig, i)
                    } else {
                        orig[i]
                    },
            decreases FB_WIDTH - x,
        {
            let idx = (y * FB_WIDTH + x) * BYTES_PER_PIXEL;
            proof {
                lemma_pixel_byte(x as int, y as int, 0);
                lemma_pixel_byte(x as int, y as int, 1);
                lemma_pixel_byte(x as int, y as int, 2);
                lemma_pixel_byte(x as int, y as int, 3);
            }
            let xy = x + y;
            assert(x as u8 == (x % 256) as u8) by (bit_vector);
            assert(y as u8 == (y % 256) as u8) by (bit_vector);
            assert(xy as u8 == (xy % 256) as u8) by (bit_vector);
            fb[idx] = x as u8;
            fb[idx + 1] = y as u8;
            fb[idx + 2] = xy as u8;
            proof {
                assert(orig[idx + 3] == test_pattern_byte(orig, idx + 3));
            }
            x = x + 1;
        }
        y = y + 1;
    }
    proof {
        assert forall|i: int| 0 <= i < fb@.len() implies #[trigger] fb@[i] == test_pattern_byte(orig, i) by {
            if i >= (FB_HEIGHT * FB_WIDTH * BYTES_PER_PIXEL) as int {
            }
        }
        assert forall|x: int, y: int|
            #![trigger pixel_offset(x, y)]
            0 <= x < FB_WIDTH && 0 <= y < FB_HEIGHT implies {
                &&& fb@[pixel_offset(x, y)] as int == x % 256
                &&& fb@[pixel_offset(x, y) + 1] as int == y % 256
                &&& fb@[pixel_offset(x, y) + 2] as int == (x + y) % 256
                &&& pixel_offset(x, y) + 3 < orig.len() ==> fb@[pixel_offset(x, y) + 3] == orig[pixel_offset(x, y) + 3]
            } by {
            lemma_test_pattern_pixel(orig, x, y);
            lemma_pixel_byte(x, y, 3);
            let o = pixel_offset(x, y);
            assert(fb@[o] == test_pattern_byte(orig, o));
            assert(fb@[o + 1] == test_pattern_byte(orig, o + 1));
            assert(fb@[o + 2] == test_pattern_byte(orig, o + 2));
            if o + 3 < orig.len() {
                assert(fb@[o + 3] == test_pattern_byte(orig, o + 3));
            }
        }
    }
}

} // verus!
