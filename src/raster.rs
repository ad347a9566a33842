use vstd::prelude::*;
use vstd::string::StringExecFns;
use crate::decimal::{decimal, push_decimal};
use crate::picture::{
    channel_offset, image_dims, image_pixels, in_bounds, new_picture, put_pixel, Picture,
};

verus! {

/// The index, in a list of pixel colors ordered row after row from the top and each
/// row from the left, of the color for position `p` of a `width`-wide image.
pub open spec fn row_major_index(width: u32, p: (u32, u32)) -> int {
    (p.1 as int) * (width as int) + (p.0 as int)
}

/// The sample coordinates of the pixel that the renderer visits at step `k`: its
/// column, counted from the left, and its row, counted from the bottom of the image.
/// The top row, `height - 1`, comes first; each row is visited from the left.
pub open spec fn visit_at(width: u32, height: u32, k: int) -> (u32, u32) {
    ((k % (width as int)) as u32, (height as int - 1 - k / (width as int)) as u32)
}

/// The position in the image, with rows counted from the top, of the pixel whose
/// row counted from the bottom is `row`.
pub open spec fn image_position(height: u32, column: u32, row: u32) -> (u32, u32) {
    (column, (height as int - 1 - row as int) as u32)
}

/// The sample coordinates of every pixel of a `width` by `height` image, in the
/// order in which the renderer traces them: row index descending from `height - 1`,
/// and within a row the column ascending from 0.
pub fn visit_order(width: u32, height: u32) -> (r: Vec<(u32, u32)>)
    requires
        (width as int) * (height as int) <= usize::MAX,
    ensures
        r@.len() == (width as int) * (height as int),
        forall|k: int| 0 <= k < r@.len() ==> #[trigger] r@[k] == visit_at(width, height, k),
{
    let mut out: Vec<(u32, u32)> = Vec::new();
    let mut i: u32 = height;
    while i > 0
        invariant
            i <= height,
            out@.len() == (width as int) * (height as int - i as int),
            forall|k: int| 0 <= k < out@.len() ==> #[trigger] out@[k] == visit_at(width, height, k),
        decreases i,
    {
        i = i - 1;
        let mut j: u32 = 0;
        while j < width
            invariant
                i < height,
                j <= width,
                out@.len() == (width as int) * (height as int - 1 - i as int) + j as int,
                forall|k: int| 0 <= k < out@.len() ==> #[trigger] out@[k] == visit_at(width, height, k),
            decreases width - j,
        {
            proof {
                let k = out@.len() as int;
                let q = height as int - 1 - i as int;
                assert(k == (width as int) * q + j as int);
                assert(0 <= q);
                lemma_div_mod_row(width, q, j);
            }
            out.push((j, i));
            j = j + 1;
        }
        proof {
            assert((width as int) * (height as int - 1 - i as int) + width as int
                == (width as int) * (height as int - i as int)) by (nonlinear_arith);
        }
    }
    out
}

proof fn lemma_div_mod_row(width: u32, q: int, j: u32)
    requires
        0 <= q,
        j < width,
    ensures
        ((width as int) * q + j as int) / (width as int) == q,
        ((width as int) * q + j as int) % (width as int) == j as int,
{
    assert((width as int) * q == q * (width as int)) by (nonlinear_arith);
    vstd::arithmetic::div_mod::lemma_fundamental_div_mod_converse(
        (width as int) * q + j as int,
        width as int,
        q,
        j as int,
    );
}

/// The image that holds `colors`, given row after row from the top.
pub open spec fn pixels_of(width: u32, height: u32, colors: Seq<[u8; 3]>) -> Map<(u32, u32), Seq<u8>> {
    Map::new(
        |p: (u32, u32)| in_bounds(width, height, p),
        |p: (u32, u32)| colors[row_major_index(width, p)]@,
    )
}

proof fn lemma_index_in_range(width: u32, height: u32, x: u32, y: u32)
    requires
        x < width,
        y < height,
    ensures
        0 <= (y as int) * (width as int) + (x as int) < (width as int) * (height as int),
        (y as int) * (width as int) + (x as int) + 1 <= (y as int + 1) * (width as int),
        (width as int) * (height as int) <= 3 * (width as int) * (height as int),
{
    assert((width as int) * (height as int) <= 3 * (width as int) * (height as int))
        by (nonlinear_arith);
    assert((y as int + 1) * (width as int) <= (height as int) * (width as int)) by (nonlinear_arith)
        requires y < height;
    assert((y as int + 1) * (width as int) == (y as int) * (width as int) + width as int)
        by (nonlinear_arith);
    assert((y as int) * (width as int) >= 0) by (nonlinear_arith);
    assert((height as int) * (width as int) == (width as int) * (height as int)) by (nonlinear_arith);
}

/// Lays out the traced colors of a `width` by `height` image, given in the order in
/// which the renderer visits the pixels (row after row from the top, each row from
/// the left), as an image of the `image` crate.
pub fn render_picture(width: u32, height: u32, colors: &Vec<[u8; 3]>) -> (r: Picture)
    requires
        colors@.len() == (width as int) * (height as int),
        3 * (width as int) <= usize::MAX,
        3 * (width as int) * (height as int) <= usize::MAX,
    ensures
        image_dims(r) == (width, height),
        image_pixels(r) == pixels_of(width, height, colors@),
{
    let mut pic = new_picture(width, height);
    let mut y: u32 = 0;
    let mut k: usize = 0;
    while y < height
        invariant
            y <= height,
            k as int == (y as int) * (width as int),
            colors@.len() == (width as int) * (height as int),
            3 * (width as int) * (height as int) <= usize::MAX,
            image_dims(pic) == (width, height),
            image_pixels(pic) == Map::new(
                |p: (u32, u32)| in_bounds(width, height, p),
                |p: (u32, u32)|
                    if p.1 < y {
                        colors@[row_major_index(width, p)]@
                    } else {
                        seq![0u8, 0u8, 0u8]
                    },
            ),
        decreases height - y,
    {
        let mut x: u32 = 0;
        while x < width
            invariant
                y < height,
                x <= width,
                k as int == (y as int) * (width as int) + (x as int),
                colors@.len() == (width as int) * (height as int),
                3 * (width as int) * (height as int) <= usize::MAX,
                image_dims(pic) == (width, height),
                image_pixels(pic) == Map::new(
                    |p: (u32, u32)| in_bounds(width, height, p),
                    |p: (u32, u32)|
                        if p.1 < y || (p.1 == y && p.0 < x) {
                            colors@[row_major_index(width, p)]@
                        } else {
                            seq![0u8, 0u8, 0u8]
                        },
                ),
            decreases width - x,
        {
            proof {
                lemma_index_in_range(width, height, x, y);
            }
            put_pixel(&mut pic, x, y, colors[k]);
            proof {
                assert(image_pixels(pic) =~= Map::new(
                    |p: (u32, u32)| in_bounds(width, height, p),
                    |p: (u32, u32)|
                        if p.1 < y || (p.1 == y && p.0 < x + 1) {
                            colors@[row_major_index(width, p)]@
                        } else {
                            seq![0u8, 0u8, 0u8]
                        },
                ));
            }
            x = x + 1;
            k = k + 1;
        }
        proof {
            assert((y as int) * (width as int) + (width as int) == (y as int + 1) * (width as int))
                by (nonlinear_arith);
        }
        y = y + 1;
    }
    proof {
        assert(image_pixels(pic) =~= pixels_of(width, height, colors@));
    }
    pic
}

/// The channels of `colors`, three bytes for each color, in order.
pub open spec fn channels(colors: Seq<[u8; 3]>) -> Seq<u8>
    decreases colors.len(),
{
    if colors.len() == 0 {
        Seq::empty()
    } else {
        channels(colors.drop_last()) + colors.last()@
    }
}

/// The header of a binary PPM image: `P6 <width> <height> 255` and a newline.
pub open spec fn ppm_header(width: u32, height: u32) -> Seq<u8> {
    seq![80u8, 54u8, 32u8] + decimal(width as nat) + seq![32u8] + decimal(height as nat)
        + seq![32u8, 50u8, 53u8, 53u8, 10u8]
}

/// A binary PPM image, its header followed by the three channels of every pixel.
pub open spec fn ppm_image(width: u32, height: u32, colors: Seq<[u8; 3]>) -> Seq<u8> {
    ppm_header(width, height) + channels(colors)
}

/// Writes the header of a binary PPM image of the given size.
pub fn ppm_header_bytes(width: u32, height: u32) -> (r: Vec<u8>)
    ensures
        r@ == ppm_header(width, height),
{
    let mut out: Vec<u8> = Vec::new();
    out.push(80u8);
    out.push(54u8);
    out.push(32u8);
    push_decimal(&mut out, width);
    out.push(32u8);
    push_decimal(&mut out, height);
    out.push(32u8);
    out.push(50u8);
    out.push(53u8);
    out.push(53u8);
    out.push(10u8);
    assert(out@ =~= ppm_header(width, height));
    out
}

/// Encodes the traced colors of a `width` by `height` image, given row after row
/// from the top and each row from the left, as a binary PPM file: a header, then
/// the red, green and blue byte of every pixel.
pub fn encode_ppm(width: u32, height: u32, colors: &Vec<[u8; 3]>) -> (r: Vec<u8>)
    requires
        colors@.len() == (width as int) * (height as int),
    ensures
        r@ == ppm_image(width, height, colors@),
{
    let mut out = ppm_header_bytes(width, height);
    let mut k: usize = 0;
    while k < colors.len()
        invariant
            k <= colors@.len(),
            out@ == ppm_header(width, height) + channels(colors@.take(k as int)),
        decreases colors@.len() - k,
    {
        let c = colors[k];
        out.push(c[0]);
        out.push(c[1]);
        out.push(c[2]);
        proof {
            let next = colors@.take(k + 1);
            assert(next.drop_last() =~= colors@.take(k as int));
            assert(next.last() == c);
            assert(c@ =~= seq![c[0], c[1], c[2]]);
            assert(out@ =~= ppm_header(width, height) + channels(next));
        }
        k = k + 1;
    }
    assert(colors@.take(colors@.len() as int) =~= colors@);
    out
}

proof fn lemma_channels(colors: Seq<[u8; 3]>)
    ensures
        channels(colors).len() == 3 * colors.len(),
        forall|k: int, c: int|
            0 <= k < colors.len() && 0 <= c < 3 ==> #[trigger] channels(colors)[3 * k + c]
                == colors[k]@[c],
    decreases colors.len(),
{
    if colors.len() > 0 {
        let init = colors.drop_last();
        lemma_channels(init);
        assert forall|k: int, c: int|
            0 <= k < colors.len() && 0 <= c < 3 implies #[trigger] channels(colors)[3 * k + c]
            == colors[k]@[c] by {
            if k < init.len() {
                assert(init[k] == colors[k]);
            }
        }
    }
}

/// The pixel that the renderer traces at step `k` of `visit_order` goes, once its
/// row is turned to count from the top, to the place of the `k`-th color in
/// `render_picture` and in `encode_ppm`: the last traced row is the bottom row of
/// the image.
pub proof fn lemma_visit_lands_at_flipped_row(width: u32, height: u32, k: int)
    requires
        0 <= k < (width as int) * (height as int),
    ensures
        ({
            let (column, row) = visit_at(width, height, k);
            let p = image_position(height, column, row);
            row < height && in_bounds(width, height, p) && row_major_index(width, p) == k
        }),
{
    assert(width > 0) by (nonlinear_arith)
        requires 0 <= k < (width as int) * (height as int);
    vstd::arithmetic::div_mod::lemma_fundamental_div_mod(k, width as int);
    let q = k / (width as int);
    vstd::arithmetic::div_mod::lemma_div_pos_is_pos(k, width as int);
    assert(q < height) by (nonlinear_arith)
        requires
            k == (width as int) * q + k % (width as int),
            0 <= k % (width as int),
            k < (width as int) * (height as int),
            width > 0;
    assert(q * (width as int) == (width as int) * q) by (nonlinear_arith);
}

/// An image laid out by `render_picture` stores, row after row from the top, the
/// very bytes that follow the header in `encode_ppm` of the same colors: both
/// outputs hold the same pixels in the same places.
pub proof fn lemma_picture_bytes_match_ppm_body(width: u32, height: u32, colors: Seq<[u8; 3]>)
    requires
        colors.len() == (width as int) * (height as int),
    ensures
        channels(colors).len() == 3 * (width as int) * (height as int),
        forall|x: u32, y: u32, c: int|
            in_bounds(width, height, (x, y)) && 0 <= c < 3
                ==> #[trigger] channels(colors)[channel_offset(width, (x, y)) + c]
                == pixels_of(width, height, colors)[(x, y)][c],
{
    lemma_channels(colors);
    assert(3 * ((width as int) * (height as int)) == 3 * (width as int) * (height as int))
        by (nonlinear_arith);
    assert forall|x: u32, y: u32, c: int|
        in_bounds(width, height, (x, y)) && 0 <= c < 3 implies #[trigger] channels(
        colors,
    )[channel_offset(width, (x, y)) + c] == pixels_of(width, height, colors)[(x, y)][c] by {
        lemma_index_in_range(width, height, x, y);
        let k = row_major_index(width, (x, y));
        assert(channel_offset(width, (x, y)) + c == 3 * k + c);
    }
}

/// The name of the output file: `name` followed by `.png` for an image of the
/// `image` crate, or by `.ppm` for a binary PPM file.
pub fn output_name(name: &str, png: bool) -> (r: String)
    ensures
        r@ == name@ + (if png { ".png"@ } else { ".ppm"@ }),
{
    let mut file = name.to_owned();
    if png {
        file.append(".png");
    } else {
        file.append(".ppm");
    }
    file
}

} // verus!
