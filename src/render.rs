use vstd::arithmetic::div_mod::lemma_fundamental_div_mod_converse;
use vstd::prelude::*;

use crate::particle::Particle;
use crate::sandbox::Sandbox;

verus! {

/// The color of empty space.
pub const BACKGROUND_COLOR: (u8, u8, u8, u8) = (0, 0, 0, 0);

/// Byte `c` (red, green, blue, alpha) of what cell content `cell` looks like.
pub open spec fn color_byte(cell: Option<Particle>, c: int) -> u8 {
    let color = match cell {
        Some(p) => p.color,
        None => BACKGROUND_COLOR,
    };
    if c == 0 {
        color.0
    } else if c == 1 {
        color.1
    } else if c == 2 {
        color.2
    } else {
        color.3
    }
}

/// What byte `b` of an RGBA image of `sandbox` (row by row) should hold once the
/// pixels of strongly active tiles are redrawn over `old`.
pub open spec fn rendered_byte(sandbox: &Sandbox, old: Seq<u8>, b: int) -> u8 {
    let pixel = b / 4;
    let x = pixel % sandbox.spec_width();
    let y = pixel / sandbox.spec_width();
    if sandbox.strong(x / sandbox.cw(), y / sandbox.ch()) > 0 {
        color_byte(sandbox.cell(x, y), b % 4)
    } else {
        old[b]
    }
}

/// Redraws, in an RGBA image of the grid stored row by row, every pixel whose
/// tile is strongly active; the other pixels keep their bytes.
pub fn render_particles(sandbox: &Sandbox, data: &mut Vec<u8>)
    requires
        sandbox.wf(),
        old(data)@.len() == sandbox.spec_width() * sandbox.spec_height() * 4,
    ensures
        final(data)@.len() == old(data)@.len(),
        forall|b: int|
            0 <= b < old(data)@.len() ==> #[trigger] final(data)@[b] == rendered_byte(
                sandbox,
                old(data)@,
                b,
            ),
{
    proof {
        sandbox.lemma_dims();
    }
    let width = sandbox.width();
    let height = sandbox.height();
    let ghost start = data@;
    let n = data.len();
    assert(width * height * 4 == n);
    assert(0 <= width * height) by (nonlinear_arith)
        requires
            width >= 0,
            height >= 0,
    ;
    let total = width * height;
    let mut k: usize = 0;
    while k < total
        invariant
            k <= total,
            total == width * height,
            width == sandbox.spec_width(),
            height == sandbox.spec_height(),
            sandbox.wf(),
            data@.len() == start.len(),
            start.len() == total * 4,
            total * 4 <= usize::MAX,
            start == old(data)@,
            forall|b: int|
                0 <= b < start.len() ==> #[trigger] data@[b] == if b < k * 4 {
                    rendered_byte(sandbox, start, b)
                } else {
                    start[b]
                },
        decreases total - k,
    {
        proof {
            assert(width > 0) by (nonlinear_arith)
                requires
                    k < total,
                    total == width * height,
                    width >= 0,
                    height >= 0,
            ;
        }
        let x = k % width;
        let y = k / width;
        proof {
            assert(y < height) by (nonlinear_arith)
                requires
                    y == k / width,
                    k < width * height,
                    width > 0,
            ;
        }
        let chunk = sandbox.get_chunk(x, y);
        if chunk.is_strong_ticked() {
            let color = match sandbox.get(x, y) {
                Some(p) => p.color,
                None => BACKGROUND_COLOR,
            };
            let index = k * 4;
            data.set(index, color.0);
            data.set(index + 1, color.1);
            data.set(index + 2, color.2);
            data.set(index + 3, color.3);
        }
        proof {
            assert forall|b: int| 0 <= b < start.len() implies #[trigger] data@[b] == if b < (k + 1)
                * 4 {
                rendered_byte(sandbox, start, b)
            } else {
                start[b]
            } by {
                if k * 4 <= b < k * 4 + 4 {
                    lemma_fundamental_div_mod_converse(b, 4, k as int, b - k * 4);
                    assert(b / 4 == k);
                }
            }
        }
        k = k + 1;
    }
}

} // verus!
