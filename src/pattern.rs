//! The test picture drawn into a framebuffer when a display is brought up.
use vstd::prelude::*;
use vstd::arithmetic::div_mod::lemma_add_mod_noop;

verus! {

/// Whether pixel `q` of a picture `width` pixels wide holds the test colour
/// in `fb`: column modulo 256 in byte 0, row modulo 256 in byte 1, their sum
/// modulo 256 in byte 2, and byte 3 as it was in `before`.
pub open spec fn pixel_drawn(fb: Seq<u8>, before: Seq<u8>, width: nat, q: int) -> bool {
    let x = q % (width as int);
    let y = q / (width as int);
    &&& fb[4 * q] == (x % 256) as u8
    &&& fb[4 * q + 1] == (y % 256) as u8
    &&& fb[4 * q + 2] == ((x + y) % 256) as u8
    &&& fb[4 * q + 3] == before[4 * q + 3]
}

/// Draws the test picture into the first `width * height` four-byte pixels
/// of `fb`, row by row; the bytes after them are left as they were.
pub fn fill_test_pattern(fb: &mut [u8], width: usize, height: usize)
    requires
        width * height * 4 <= old(fb)@.len(),
    ensures
        final(fb)@.len() == old(fb)@.len(),
        forall|q: int|
            0 <= q < width * height ==> #[trigger] pixel_drawn(final(fb)@, old(fb)@, width as nat, q),
        forall|j: int| width * height * 4 <= j < final(fb)@.len() ==> final(fb)@[j] == old(fb)@[j],
{
    let _len = fb.len();
    let total = width * height;
    let mut p: usize = 0;
    while p < total
        invariant
            p <= total,
            total == width * height,
            total * 4 <= fb@.len(),
            fb@.len() <= usize::MAX,
            fb@.len() == old(fb)@.len(),
            forall|q: int| 0 <= q < p ==> #[trigger] pixel_drawn(fb@, old(fb)@, width as nat, q),
            forall|j: int| 4 * p <= j < fb@.len() ==> fb@[j] == old(fb)@[j],
        decreases total - p,
    {
        proof {
            if width == 0 {
                assert(total == 0);
            }
        }
        let x = p % width;
        let y = p / width;
        proof {
            lemma_add_mod_noop(x as int, y as int, 256);
        }
        let i = p * 4;
        let ghost prev = fb@;
        fb[i] = (x % 256) as u8;
        fb[i + 1] = (y % 256) as u8;
        fb[i + 2] = (((x % 256) + (y % 256)) % 256) as u8;
        proof {
            assert forall|q: int| 0 <= q < p + 1 implies #[trigger] pixel_drawn(
                fb@,
                old(fb)@,
                width as nat,
                q,
            ) by {
                if q < p {
                    assert(pixel_drawn(prev, old(fb)@, width as nat, q));
                    assert(4 * q + 3 < 4 * p);
                }
            }
        }
        p = p + 1;
    }
}

} // verus!
