//! Raster scheduling and reassembly for the per-pixel sampler.
//!
//! Pixels are numbered in output order: rows from the top of the image to
//! the bottom, and from left to right within a row. Row `j` counts from the
//! bottom, so the top row is row `height - 1`. Each pixel is an independent
//! unit of work tagged with its number. Workers may finish in any order;
//! sorting the tagged results by number restores the output order.

use crate::sort::{
    distinct_keys, lemma_sorted_distinct_is_sort_of, lemma_stable_sort_unique, payloads,
    sort_by_key, sorted, stable_sort_of,
};
use vstd::prelude::*;

verus! {

/// The column and row of the pixel with number `n` in an image of the given
/// size.
pub open spec fn pixel_of(n: int, width: int, height: int) -> (int, int) {
    (n % width, height - 1 - n / width)
}

/// The number of the pixel in column `i` and row `j`.
pub open spec fn number_of(i: int, j: int, width: int, height: int) -> int {
    (height - 1 - j) * width + i
}

/// Numbering and locating pixels undo each other: every number below
/// `width * height` names a pixel inside the image, and that pixel has this
/// number.
pub proof fn lemma_number_of_pixel(n: int, width: int, height: int)
    requires
        0 <= n < width * height,
        0 < width,
    ensures
        0 <= pixel_of(n, width, height).0 < width,
        0 <= pixel_of(n, width, height).1 < height,
        number_of(pixel_of(n, width, height).0, pixel_of(n, width, height).1, width, height) == n,
{
    lemma_row_in_range(n, width, height);
    vstd::arithmetic::div_mod::lemma_fundamental_div_mod(n, width);
    assert((n / width) * width == width * (n / width)) by (nonlinear_arith);
}

/// Every pixel inside the image has a number below `width * height`, and
/// that number names this pixel.
pub proof fn lemma_pixel_of_number(i: int, j: int, width: int, height: int)
    requires
        0 <= i < width,
        0 <= j < height,
    ensures
        0 <= number_of(i, j, width, height) < width * height,
        pixel_of(number_of(i, j, width, height), width, height) == (i, j),
{
    let row = height - 1 - j;
    assert(0 <= row * width && row * width + width <= height * width) by (nonlinear_arith)
        requires
            0 <= row <= height - 1,
            0 < width,
    ;
    assert(height * width == width * height) by (nonlinear_arith);
    vstd::arithmetic::div_mod::lemma_fundamental_div_mod_converse(
        row * width + i,
        width,
        row,
        i,
    );
}

proof fn lemma_row_in_range(n: int, width: int, height: int)
    requires
        0 <= n < width * height,
        0 < width,
    ensures
        0 <= n / width < height,
        0 <= n % width < width,
{
    vstd::arithmetic::div_mod::lemma_fundamental_div_mod(n, width);
    vstd::arithmetic::div_mod::lemma_div_pos_is_pos(n, width);
    vstd::arithmetic::div_mod::lemma_mod_bound(n, width);
    let q = n / width;
    assert(q < height) by (nonlinear_arith)
        requires
            width * q <= n,
            n < width * height,
            0 < width,
    ;
}

proof fn lemma_area_fits(width: u32, height: u32)
    ensures
        0 <= width * height <= u64::MAX,
{
    assert(0 <= width * height <= 0xffff_ffff * 0xffff_ffff) by (nonlinear_arith)
        requires
            0 <= width <= 0xffff_ffff,
            0 <= height <= 0xffff_ffff,
    ;
}

/// Returns the column and row of the pixel with number `n`, if the image has
/// that many pixels.
pub fn pixel_at(n: u64, width: u32, height: u32) -> (p: Option<(u32, u32)>)
    ensures
        n < width * height <==> p is Some,
        p matches Some((i, j)) ==> (i as int, j as int) == pixel_of(
            n as int,
            width as int,
            height as int,
        ) && i < width && j < height,
{
    proof {
        lemma_area_fits(width, height);
    }
    let count: u64 = (width as u64) * (height as u64);
    if n >= count {
        return None;
    }
    assert(width > 0) by (nonlinear_arith)
        requires
            n < width * height,
    ;
    proof {
        lemma_row_in_range(n as int, width as int, height as int);
    }
    let w: u64 = width as u64;
    let i: u32 = (n % w) as u32;
    let row: u32 = (n / w) as u32;
    Some((i, height - 1 - row))
}

/// Returns the number of the pixel in column `i` and row `j`, if the image
/// has that pixel.
pub fn index_of(i: u32, j: u32, width: u32, height: u32) -> (n: Option<u64>)
    ensures
        i < width && j < height <==> n is Some,
        n matches Some(k) ==> k == number_of(i as int, j as int, width as int, height as int)
            && k < width * height,
{
    if i >= width || j >= height {
        return None;
    }
    proof {
        lemma_pixel_of_number(i as int, j as int, width as int, height as int);
    }
    let row: u64 = (height - 1 - j) as u64;
    assert(row * width <= u32::MAX * u32::MAX) by (nonlinear_arith)
        requires
            0 <= row <= u32::MAX,
            0 <= width <= u32::MAX,
    ;
    Some(row * (width as u64) + (i as u64))
}

/// The units of work for an image of the given size, in output order.
pub open spec fn schedule(width: int, height: int) -> Seq<(u64, (u32, u32))> {
    Seq::new(
        (width * height) as nat,
        |n: int|
            (
                n as u64,
                (pixel_of(n, width, height).0 as u32, pixel_of(n, width, height).1 as u32),
            ),
    )
}

/// Returns the units of work for an image of the given size, in output
/// order: one per pixel, each tagged with the pixel's number.
pub fn work_items(width: u32, height: u32) -> (items: Vec<(u64, (u32, u32))>)
    requires
        width * height <= usize::MAX,
    ensures
        items@ == schedule(width as int, height as int),
{
    proof {
        lemma_area_fits(width, height);
    }
    let count: u64 = (width as u64) * (height as u64);
    let mut items: Vec<(u64, (u32, u32))> = Vec::new();
    let mut n: u64 = 0;
    while n < count
        invariant
            n <= count,
            count == width * height,
            count <= usize::MAX,
            items@ == schedule(width as int, height as int).take(n as int),
        decreases count - n,
    {
        match pixel_at(n, width, height) {
            Some(p) => {
                items.push((n, p));
            },
            None => {
                assert(false);
            },
        }
        assert(items@ == schedule(width as int, height as int).take(n + 1));
        n = n + 1;
    }
    assert(items@ == schedule(width as int, height as int));
    items
}

/// `out` holds the payloads of `results` in the order of their tags, and in
/// the order of `results` where tags are equal.
pub open spec fn assembled<T>(results: Seq<(u64, T)>, out: Seq<T>) -> bool {
    exists|order: Seq<(u64, T)>| #[trigger] stable_sort_of(order, results) && out == payloads(order)
}

/// The results of a serial run: payload `k` tagged with `k`.
pub open spec fn tagged<T>(serial: Seq<T>) -> Seq<(u64, T)> {
    Seq::new(serial.len(), |k: int| (k as u64, serial[k]))
}

/// Reassembly does not depend on the order in which the work was done: let
/// `results` hold the tagged results of a serial run in any order. Then what
/// is assembled from `results` is the serial run's own sequence of payloads.
pub proof fn lemma_assembly_restores_serial_order<T>(
    results: Seq<(u64, T)>,
    serial: Seq<T>,
    out: Seq<T>,
)
    requires
        serial.len() <= u64::MAX,
        results.to_multiset() == tagged(serial).to_multiset(),
        assembled(results, out),
    ensures
        out == serial,
{
    let t = tagged(serial);
    let order = choose|order: Seq<(u64, T)>| #[trigger]
        stable_sort_of(order, results) && out == payloads(order);
    assert(sorted(t));
    assert(distinct_keys(t));
    lemma_sorted_distinct_is_sort_of(t, results);
    lemma_stable_sort_unique(order, t, results);
    assert(payloads(t) =~= serial);
}

/// Returns the payloads of `results` sorted by tag. Where two results carry
/// the same tag, the one that stands first in `results` comes first.
pub fn assemble<T: Copy>(results: &Vec<(u64, T)>) -> (out: Vec<T>)
    ensures
        assembled(results@, out@),
        out.len() == results.len(),
{
    let order = sort_by_key(results);
    let mut out: Vec<T> = Vec::new();
    let mut i: usize = 0;
    while i < order.len()
        invariant
            i <= order.len(),
            out@ == payloads(order@).take(i as int),
        decreases order.len() - i,
    {
        out.push(order[i].1);
        assert(out@ == payloads(order@).take(i + 1));
        i = i + 1;
    }
    assert(out@ == payloads(order@));
    out
}

} // verus!
