use vstd::prelude::*;
use vstd::arithmetic::div_mod::lemma_fundamental_div_mod;
use ndarray::{Array3, ShapeError};
use crate::canvas::Canvas;
use crate::ppm::Rgb8;

verus! {

/// A rows x columns x channels byte image held in an ndarray array.
#[verifier::external_body]
pub struct ImageArray {
    pub array: Array3<u8>,
}

/// ndarray's `ShapeError`, the error of `Array::from_shape_vec`; only carried.
#[verifier::external_type_specification]
#[verifier::external_body]
pub struct ExShapeError(ShapeError);

/// The elements of a three-axis byte array, in row-major order.
pub uninterp spec fn array_elements(a: ImageArray) -> Seq<u8>;

/// The lengths of the three axes of a byte array.
pub uninterp spec fn array_shape(a: ImageArray) -> (nat, nat, nat);

/// `n`, or 1 for an axis of length zero.
pub open spec fn nonzero_or_one(n: usize) -> int {
    if n == 0 {
        1
    } else {
        n as int
    }
}

/// The product of the axis lengths that are not zero.
pub open spec fn nonzero_product(shape: (usize, usize, usize)) -> int {
    nonzero_or_one(shape.0) * nonzero_or_one(shape.1) * nonzero_or_one(shape.2)
}

/// Relies on ndarray's `Array::from_shape_vec` with a plain tuple shape (the
/// default row-major layout): it fails exactly when the product of the
/// non-zero axis lengths exceeds `isize::MAX` or the axis lengths do not
/// multiply to the length of `bytes`, and otherwise holds `bytes` in order.
#[verifier::external_body]
fn array_from_bytes(shape: (usize, usize, usize), bytes: Vec<u8>) -> (r: Result<ImageArray, ShapeError>)
    ensures
        r is Ok <==> (nonzero_product(shape) <= isize::MAX && bytes@.len() == shape.0 as int
            * shape.1 as int * shape.2 as int),
        r matches Ok(a) ==> array_elements(a) == bytes@ && array_shape(a) == (
            shape.0 as nat,
            shape.1 as nat,
            shape.2 as nat,
        ),
{
    Array3::from_shape_vec(shape, bytes).map(|array| ImageArray { array })
}

/// Channel `k` of a pixel: 0 is red, 1 green and 2 blue.
pub open spec fn channel(p: Rgb8, k: int) -> u8 {
    if k == 0 {
        p.r
    } else if k == 1 {
        p.g
    } else {
        p.b
    }
}

/// The `j`-th pixel of a canvas in row-major order.
pub open spec fn pixel_in_order(canvas: Canvas<Rgb8>, j: int) -> Rgb8 {
    canvas.pixel(j % canvas.spec_width() as int, j / canvas.spec_width() as int)
}

/// The channels of every pixel of a canvas, in row-major order.
pub open spec fn canvas_bytes(canvas: Canvas<Rgb8>) -> Seq<u8> {
    Seq::new(
        3 * canvas.spec_width() * canvas.spec_height(),
        |i: int| channel(pixel_in_order(canvas, i / 3), i % 3),
    )
}

/// Hands a canvas to an image viewer as a rows x columns x channels byte array.
pub struct RerunViewer {}

impl RerunViewer {
    /// The channels of every pixel of `canvas`, row by row.
    fn image_bytes(canvas: &Canvas<Rgb8>) -> (r: Vec<u8>)
        requires
            canvas.wf(),
            3 * canvas.spec_width() * canvas.spec_height() <= usize::MAX,
        ensures
            r@ == canvas_bytes(*canvas),
    {
        let w = canvas.width();
        proof {
            let h = canvas.spec_height();
            assert(w * h <= 3 * w * h && 3 * w * h == 3 * (w * h)) by (nonlinear_arith);
        }
        let n = w * canvas.height();
        let ghost all = canvas_bytes(*canvas);
        let mut bytes: Vec<u8> = Vec::with_capacity(3 * n);
        let mut i: usize = 0;
        while i < n
            invariant
                canvas.wf(),
                w == canvas.spec_width(),
                n == w * canvas.spec_height(),
                3 * n <= usize::MAX,
                all == canvas_bytes(*canvas),
                all.len() == 3 * n,
                i <= n,
                bytes@ == all.subrange(0, 3 * i),
            decreases n - i,
        {
            let x = i % w;
            let y = i / w;
            proof {
                lemma_fundamental_div_mod(i as int, w as int);
                let q = i as int / w as int;
                let h = canvas.spec_height() as int;
                assert(q < h) by (nonlinear_arith)
                    requires
                        i as int == w * q + (i as int % w as int),
                        0 <= i as int % w as int,
                        i < w * h,
                        w > 0,
                ;
            }
            let px = match canvas.get_pixel(x, y) {
                Ok(px) => px,
                Err(_) => {
                    assert(false);
                    return bytes;
                },
            };
            bytes.push(px.r);
            bytes.push(px.g);
            bytes.push(px.b);
            proof {
                let b = 3 * i as int;
                assert(b / 3 == i && (b + 1) / 3 == i && (b + 2) / 3 == i);
                assert(b % 3 == 0 && (b + 1) % 3 == 1 && (b + 2) % 3 == 2);
                assert(bytes@ =~= all.subrange(0, 3 * (i + 1)));
            }
            i = i + 1;
        }
        assert(all.subrange(0, 3 * n as int) =~= all);
        bytes
    }

    /// The pixels of `canvas` as a byte array whose axes are rows, columns and
    /// the three channels, or `None` when the array would be too large for
    /// ndarray to hold.
    pub fn from_canvas(canvas: &Canvas<Rgb8>) -> (r: Option<ImageArray>)
        requires
            canvas.wf(),
        ensures
            r is Some <==> nonzero_product((canvas.spec_height() as usize, canvas.spec_width() as usize, 3))
                <= isize::MAX,
            r matches Some(a) ==> array_elements(a) == canvas_bytes(*canvas) && array_shape(a) == (
                canvas.spec_height(),
                canvas.spec_width(),
                3nat,
            ),
    {
        let w = canvas.width();
        let h = canvas.height();
        let shape = (h, w, 3usize);
        let rows = if h == 0 {
            1
        } else {
            h
        };
        let columns = if w == 0 {
            1
        } else {
            w
        };
        let fits = match rows.checked_mul(columns) {
            Some(p) => match p.checked_mul(3) {
                Some(q) => q <= isize::MAX as usize,
                None => false,
            },
            None => false,
        };
        if !fits {
            proof {
                assert(nonzero_product(shape) == rows * columns * 3);
                if rows * columns <= usize::MAX {
                    assert(rows * columns * 3 > usize::MAX || rows * columns * 3 > isize::MAX);
                } else {
                    assert(rows * columns * 3 > isize::MAX) by (nonlinear_arith)
                        requires
                            rows * columns > usize::MAX,
                    ;
                }
            }
            return None;
        }
        proof {
            assert(nonzero_product(shape) == rows * columns * 3);
            assert(3 * w * h <= rows * columns * 3) by (nonlinear_arith)
                requires
                    w <= columns,
                    h <= rows,
            ;
        }
        let bytes = Self::image_bytes(canvas);
        proof {
            assert(3 * w * h == h * w * 3) by (nonlinear_arith);
        }
        match array_from_bytes(shape, bytes) {
            Ok(a) => Some(a),
            Err(_) => None,
        }
    }
}

} // verus!
