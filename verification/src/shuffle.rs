//! Patch shuffle: the image is cut into square tiles, and every tile is moved
//! to the place of another.

use crate::error::ConfigError;
use crate::grid::block_shift;
use crate::grid::byte_column;
use crate::grid::byte_row;
use crate::grid::in_block;
use crate::grid::lemma_byte_position;
use crate::grid::lemma_run_is_row;
use crate::grid::lemma_slot;
use crate::grid::lemma_position_byte;
use crate::grid::rgba_offset;
use crate::pixel::flattened;
use crate::pixel::lemma_offset_in_bounds;
use crate::pixel::PixelBuffer;
use crate::pixel::Raster;
use crate::random::RandomSource;
use vstd::arithmetic::div_mod::lemma_div_basics;
use vstd::arithmetic::div_mod::lemma_div_is_ordered;
use vstd::arithmetic::div_mod::lemma_div_pos_is_pos;
use vstd::arithmetic::div_mod::lemma_fundamental_div_mod;
use vstd::arithmetic::div_mod::lemma_fundamental_div_mod_converse;
use vstd::arithmetic::div_mod::lemma_mod_bound;
use vstd::arithmetic::div_mod::lemma_multiply_divide_lt;
use vstd::arithmetic::mul::lemma_mul_inequality;
use vstd::arithmetic::mul::lemma_mul_is_commutative;
use vstd::arithmetic::mul::lemma_mul_is_distributive_add_other_way;
use vstd::prelude::*;
use vstd::set_lib::lemma_int_range;
use vstd::set_lib::lemma_len_subset;
use vstd::set_lib::set_int_range;

verus! {

/// Number of whole tiles of side `size` that fit side by side.
pub open spec fn tiles_across(input: Raster, size: int) -> int {
    input.width as int / size
}

/// Number of whole tiles of side `size` that fit one below the other.
pub open spec fn tiles_down(input: Raster, size: int) -> int {
    input.height as int / size
}

/// Number of tiles in the grid. They are numbered row by row from the top
/// left; what is left over at the right and at the bottom belongs to no tile.
pub open spec fn tile_count(input: Raster, size: int) -> int {
    tiles_across(input, size) * tiles_down(input, size)
}

/// Byte `i` belongs to the tile with number `tile`.
pub open spec fn in_tile(input: Raster, size: int, tile: int, i: int) -> bool {
    in_block(
        input.width as int,
        size,
        tile % tiles_across(input, size),
        tile / tiles_across(input, size),
        i,
    )
}

/// Byte `i` belongs to some tile of the grid.
pub open spec fn in_grid(input: Raster, size: int, i: int) -> bool {
    &&& byte_column(input.width as int, i) / size < tiles_across(input, size)
    &&& byte_row(input.width as int, i) / size < tiles_down(input, size)
}

/// Distance in bytes from a place in tile `to` back to the same place in tile
/// `from`.
pub open spec fn tile_shift(input: Raster, size: int, from: int, to: int) -> int {
    block_shift(
        input.width as int,
        size,
        from % tiles_across(input, size),
        from / tiles_across(input, size),
        to % tiles_across(input, size),
        to / tiles_across(input, size),
    )
}

/// `order` names each of the numbers below `count` exactly once.
pub open spec fn is_permutation(order: Seq<usize>, count: int) -> bool {
    &&& order.len() == count
    &&& forall|k: int| 0 <= k < count ==> #[trigger] order[k] < count
    &&& forall|j: int, k: int| 0 <= j < k < count ==> order[j] != order[k]
}

/// `out` is `input` with tile `k` moved to the place of tile `order[k]`, for
/// every tile of the grid, and with every byte outside the grid kept.
pub open spec fn rearranged(input: Raster, size: int, order: Seq<usize>, out: Raster) -> bool {
    &&& out.same_shape(input)
    &&& forall|k: int, i: int|
        0 <= k < tile_count(input, size) && 0 <= i < input.bytes.len() && #[trigger] in_tile(
            input,
            size,
            order[k] as int,
            i,
        ) ==> out.bytes[i] == input.bytes[i + tile_shift(input, size, k, order[k] as int)]
    &&& forall|i: int|
        0 <= i < input.bytes.len() && !in_grid(input, size, i) ==> #[trigger] out.bytes[i]
            == input.bytes[i]
}

/// Everything that is certain of the image after a patch shuffle, whatever was
/// drawn: its tiles are those of the input, rearranged by some permutation.
pub open spec fn shuffle_outcome(input: Raster, size: int, out: Raster) -> bool {
    exists|order: Seq<usize>|
        is_permutation(order, tile_count(input, size)) && rearranged(input, size, order, out)
}

/// A grid of tiles no larger than the image has at least one tile, and no
/// more tiles than the image has pixels.
proof fn lemma_grid_fits(width: int, height: int, size: int)
    requires
        0 < size <= width,
        size <= height,
    ensures
        1 <= width / size <= width,
        1 <= height / size <= height,
        (width / size) * size <= width,
        (height / size) * size <= height,
        1 <= (width / size) * (height / size) <= width * height,
{
    let across = width / size;
    let down = height / size;
    lemma_div_basics(size);
    lemma_div_is_ordered(size, width, size);
    lemma_div_is_ordered(size, height, size);
    lemma_fundamental_div_mod(width, size);
    lemma_fundamental_div_mod(height, size);
    lemma_mod_bound(width, size);
    lemma_mod_bound(height, size);
    lemma_mul_is_commutative(size, across);
    lemma_mul_is_commutative(size, down);
    lemma_mul_inequality(1, size, across);
    lemma_mul_inequality(1, size, down);
    lemma_mul_inequality(across, width, down);
    lemma_mul_inequality(down, height, width);
    lemma_mul_is_commutative(down, width);
    lemma_mul_is_commutative(height, width);
    lemma_mul_inequality(1, across, down);
    lemma_mul_is_commutative(across, down);
}

/// Every tile of the grid lies inside the image.
proof fn lemma_tile_fits(width: int, height: int, size: int, tile: int)
    requires
        0 < size <= width,
        size <= height,
        0 <= tile < (width / size) * (height / size),
    ensures
        0 <= tile % (width / size) < width / size,
        0 <= tile / (width / size) < height / size,
        (tile % (width / size)) * size + size <= width,
        (tile / (width / size)) * size + size <= height,
{
    let across = width / size;
    let down = height / size;
    lemma_grid_fits(width, height, size);
    lemma_mod_bound(tile, across);
    lemma_div_pos_is_pos(tile, across);
    lemma_multiply_divide_lt(tile, across, down);
    let col = tile % across;
    let row = tile / across;
    lemma_mul_inequality(col + 1, across, size);
    lemma_mul_is_distributive_add_other_way(size, col, 1);
    lemma_mul_inequality(row + 1, down, size);
    lemma_mul_is_distributive_add_other_way(size, row, 1);
}

/// Two tiles with different numbers differ in their column or in their row.
proof fn lemma_tiles_differ(across: int, a: int, b: int)
    requires
        0 < across,
        a != b,
    ensures
        a % across != b % across || a / across != b / across,
{
    lemma_fundamental_div_mod(a, across);
    lemma_fundamental_div_mod(b, across);
}

/// Copies `count` bytes of `src`, starting at `from`, over the bytes of `out`
/// that start at `to`.
fn copy_run(src: &Vec<u8>, out: &mut Vec<u8>, from: usize, to: usize, count: usize)
    requires
        from + count <= src@.len(),
        to + count <= old(out)@.len(),
    ensures
        final(out)@.len() == old(out)@.len(),
        forall|i: int|
            0 <= i < old(out)@.len() ==> #[trigger] final(out)@[i] == if to <= i < to + count {
                src@[i - to + from]
            } else {
                old(out)@[i]
            },
{
    let ghost before: Seq<u8> = out@;
    let src_len: usize = src.len();
    let out_len: usize = out.len();
    let mut j: usize = 0;
    while j < count
        invariant
            j <= count,
            src_len == src@.len(),
            out_len == out@.len(),
            from + count <= src@.len(),
            to + count <= out@.len(),
            out@.len() == before.len(),
            forall|i: int|
                0 <= i < before.len() ==> #[trigger] out@[i] == if to <= i < to + j {
                    src@[i - to + from]
                } else {
                    before[i]
                },
        decreases count - j,
    {
        out.set(to + j, src[from + j]);
        j = j + 1;
    }
}

/// Copies the square tile `(from_col, from_row)` of `src` over the tile
/// `(to_col, to_row)` of `out`; tiles have side `size`.
fn copy_tile(
    src: &Vec<u8>,
    out: &mut Vec<u8>,
    width: usize,
    height: usize,
    size: usize,
    from_col: usize,
    from_row: usize,
    to_col: usize,
    to_row: usize,
)
    requires
        size > 0,
        src@.len() == width * height * 4,
        old(out)@.len() == src@.len(),
        from_col * size + size <= width,
        to_col * size + size <= width,
        from_row * size + size <= height,
        to_row * size + size <= height,
    ensures
        final(out)@.len() == old(out)@.len(),
        forall|i: int|
            0 <= i < src@.len() ==> #[trigger] final(out)@[i] == if in_block(
                width as int,
                size as int,
                to_col as int,
                to_row as int,
                i,
            ) {
                src@[i + block_shift(
                    width as int,
                    size as int,
                    from_col as int,
                    from_row as int,
                    to_col as int,
                    to_row as int,
                )]
            } else {
                old(out)@[i]
            },
{
    let ghost before: Seq<u8> = out@;
    let ghost shift: int = block_shift(
        width as int,
        size as int,
        from_col as int,
        from_row as int,
        to_col as int,
        to_row as int,
    );
    let sx: usize = from_col * size;
    let sy: usize = from_row * size;
    let tx: usize = to_col * size;
    let ty: usize = to_row * size;
    let len: usize = src.len();
    let mut dy: usize = 0;
    while dy < size
        invariant
            dy <= size,
            len == src@.len(),
            size > 0,
            src@.len() == width * height * 4,
            out@.len() == src@.len(),
            before.len() == src@.len(),
            sx == from_col * size,
            sy == from_row * size,
            tx == to_col * size,
            ty == to_row * size,
            sx + size <= width,
            tx + size <= width,
            sy + size <= height,
            ty + size <= height,
            shift == ((sy - ty) * width + (sx - tx)) * 4,
            forall|i: int|
                0 <= i < src@.len() ==> #[trigger] out@[i] == if byte_column(width as int, i)
                    / (size as int) == to_col && ty <= byte_row(width as int, i) < ty + dy {
                    src@[i + shift]
                } else {
                    before[i]
                },
        decreases size - dy,
    {
        proof {
            lemma_offset_in_bounds(
                width as nat,
                height as nat,
                4,
                (sx + size - 1) as nat,
                (sy + dy) as nat,
                3,
            );
            lemma_offset_in_bounds(
                width as nat,
                height as nat,
                4,
                (tx + size - 1) as nat,
                (ty + dy) as nat,
                3,
            );
        }
        let from: usize = ((sy + dy) * width + sx) * 4;
        let to: usize = ((ty + dy) * width + tx) * 4;
        copy_run(src, out, from, to, 4 * size);
        proof {
            assert(from - to == shift) by (nonlinear_arith)
                requires
                    from == ((sy + dy) * width + sx) * 4,
                    to == ((ty + dy) * width + tx) * 4,
                    shift == ((sy - ty) * width + (sx - tx)) * 4,
            ;
            assert forall|i: int| 0 <= i < src@.len() implies #[trigger] out@[i] == if byte_column(
                width as int,
                i,
            ) / (size as int) == to_col && ty <= byte_row(width as int, i) < ty + dy + 1 {
                src@[i + shift]
            } else {
                before[i]
            } by {
                lemma_run_is_row(width as int, size as int, to_col as int, ty + dy, i);
            }
        }
        dy = dy + 1;
    }
    proof {
        assert forall|i: int| 0 <= i < src@.len() implies #[trigger] out@[i] == if in_block(
            width as int,
            size as int,
            to_col as int,
            to_row as int,
            i,
        ) {
            src@[i + shift]
        } else {
            before[i]
        } by {
            lemma_slot(size as int, byte_row(width as int, i), to_row as int);
        }
    }
}

/// A rearrangement of the numbers below `count`, drawn at random: every
/// position in turn is swapped with a position drawn among all of them.
pub fn random_permutation(count: usize, rng: &mut RandomSource) -> (order: Vec<usize>)
    ensures
        is_permutation(order@, count as int),
{
    let mut order: Vec<usize> = Vec::new();
    let mut k: usize = 0;
    while k < count
        invariant
            k <= count,
            order@.len() == k,
            forall|j: int| 0 <= j < k ==> #[trigger] order@[j] == j,
        decreases count - k,
    {
        order.push(k);
        k = k + 1;
    }
    let mut i: usize = 0;
    while i < count
        invariant
            i <= count,
            is_permutation(order@, count as int),
        decreases count - i,
    {
        let j: usize = rng.below(count);
        let first: usize = order[i];
        let second: usize = order[j];
        order.set(i, second);
        order.set(j, first);
        i = i + 1;
    }
    order
}

/// Moves tile `k` of the image to the place of tile `order[k]`, for every tile
/// of the grid of side `patch_size`, into a fresh buffer.
pub fn rearrange_tiles(input: &PixelBuffer, patch_size: u32, order: &Vec<usize>) -> (out:
    PixelBuffer)
    requires
        input.wf(),
        input@.channels == 4,
        0 < patch_size <= input@.width,
        patch_size <= input@.height,
        is_permutation(order@, tile_count(input@, patch_size as int)),
    ensures
        out.wf(),
        rearranged(input@, patch_size as int, order@, out@),
{
    let width: usize = input.width() as usize;
    let height: usize = input.height() as usize;
    let size: usize = patch_size as usize;
    let src: &Vec<u8> = input.data();
    let len: usize = src.len();
    proof {
        lemma_grid_fits(width as int, height as int, size as int);
        lemma_mul_inequality(1, 4, (width * height) as int);
    }
    let across: usize = width / size;
    let down: usize = height / size;
    let count: usize = across * down;
    let mut data: Vec<u8> = src.clone();
    assert(data@ =~= src@);
    let mut k: usize = 0;
    while k < count
        invariant
            k <= count,
            input.wf(),
            input@.channels == 4,
            width == input@.width,
            height == input@.height,
            size == patch_size,
            0 < size <= width,
            size <= height,
            across == width / size,
            down == height / size,
            count == across * down,
            src@ == input@.bytes,
            len == src@.len(),
            src@.len() == width * height * 4,
            data@.len() == src@.len(),
            is_permutation(order@, count as int),
            forall|j: int, i: int|
                0 <= j < k && 0 <= i < len && #[trigger] in_tile(
                    input@,
                    size as int,
                    order@[j] as int,
                    i,
                ) ==> data@[i] == src@[i + tile_shift(
                    input@,
                    size as int,
                    j,
                    order@[j] as int,
                )],
            forall|i: int|
                0 <= i < len && !in_grid(input@, size as int, i) ==> #[trigger] data@[i] == src@[i],
        decreases count - k,
    {
        let target: usize = order[k];
        proof {
            lemma_tile_fits(width as int, height as int, size as int, k as int);
            lemma_tile_fits(width as int, height as int, size as int, target as int);
        }
        let ghost before: Seq<u8> = data@;
        copy_tile(
            src,
            &mut data,
            width,
            height,
            size,
            k % across,
            k / across,
            target % across,
            target / across,
        );
        proof {
            assert forall|j: int, i: int|
                0 <= j < k + 1 && 0 <= i < len && #[trigger] in_tile(
                    input@,
                    size as int,
                    order@[j] as int,
                    i,
                ) implies data@[i] == src@[i + tile_shift(
                input@,
                size as int,
                j,
                order@[j] as int,
            )] by {
                if j < k {
                    lemma_tiles_differ(across as int, order@[j] as int, target as int);
                    assert(data@[i] == before[i]);
                }
            }
        }
        k = k + 1;
    }
    input.with_data(data)
}

/// Cuts the image into tiles of side `patch_size` and moves every tile to the
/// place of another, drawn at random. A patch size that no grid can be made of
/// is reported, and nothing else is done.
pub fn patch_shuffle(input: &PixelBuffer, patch_size: u32, rng: &mut RandomSource) -> (result:
    Result<PixelBuffer, ConfigError>)
    requires
        input.wf(),
        input@.channels == 4,
    ensures
        match result {
            Ok(out) => {
                &&& 0 < patch_size <= input@.width
                &&& patch_size <= input@.height
                &&& out.wf()
                &&& shuffle_outcome(input@, patch_size as int, out@)
            },
            Err(ConfigError::PatchSizeZero) => patch_size == 0,
            Err(ConfigError::PatchSizeExceedsImage) => {
                &&& patch_size > 0
                &&& patch_size > input@.width || patch_size > input@.height
            },
        },
        result is Err ==> *final(rng) == *old(rng),
        result matches Ok(out) ==> (patch_size == input@.width && patch_size == input@.height
            ==> out@ == input@),
{
    if patch_size == 0 {
        return Err(ConfigError::PatchSizeZero);
    }
    if patch_size > input.width() || patch_size > input.height() {
        return Err(ConfigError::PatchSizeExceedsImage);
    }
    let len: usize = input.len();
    proof {
        lemma_grid_fits(input@.width as int, input@.height as int, patch_size as int);
        lemma_mul_inequality(1, 4, (input@.width * input@.height) as int);
        assert(input@.width * input@.height <= len);
    }
    let across: usize = (input.width() / patch_size) as usize;
    let down: usize = (input.height() / patch_size) as usize;
    let order: Vec<usize> = random_permutation(across * down, rng);
    let out: PixelBuffer = rearrange_tiles(input, patch_size, &order);
    proof {
        if patch_size == input@.width && patch_size == input@.height {
            lemma_single_tile_keeps_image(input@, patch_size as int, out@);
        }
    }
    Ok(out)
}

/// No byte belongs to two tiles.
pub proof fn lemma_tiles_do_not_overlap(input: Raster, size: int, first: int, second: int, i: int)
    requires
        0 < size <= input.width,
        in_tile(input, size, first, i),
        in_tile(input, size, second, i),
    ensures
        first == second,
{
    lemma_div_basics(size);
    lemma_div_is_ordered(size, input.width as int, size);
    if first != second {
        lemma_tiles_differ(tiles_across(input, size), first, second);
    }
}

/// A permutation names every number below its length.
pub proof fn lemma_permutation_is_onto(order: Seq<usize>, count: int, target: int)
    requires
        is_permutation(order, count),
        0 <= target < count,
    ensures
        exists|k: int| 0 <= k < count && #[trigger] order[k] == target,
{
    let places = Seq::new(count as nat, |k: int| order[k] as int);
    assert(places.no_duplicates()) by {
        assert forall|i: int, j: int|
            0 <= i < places.len() && 0 <= j < places.len() && i != j implies places[i]
            != places[j] by {
            if i < j {
                assert(order[i] != order[j]);
            } else {
                assert(order[j] != order[i]);
            }
        }
    }
    places.unique_seq_to_set();
    lemma_int_range(0, count);
    if !places.contains(target) {
        let others = set_int_range(0, count).remove(target);
        assert(places.to_set().subset_of(others)) by {
            assert forall|a: int| places.to_set().contains(a) implies others.contains(a) by {
                let k = choose|k: int| 0 <= k < places.len() && places[k] == a;
                assert(order[k] < count);
            }
        }
        lemma_len_subset(places.to_set(), others);
        assert(others.len() == count - 1);
        assert(false);
    }
    let k = choose|k: int| 0 <= k < places.len() && places[k] == target;
    assert(order[k] == target);
}

/// The image, the grid and the order leave no choice: there is one
/// rearrangement and no other.
pub proof fn lemma_rearrangement_is_determined(
    input: Raster,
    size: int,
    order: Seq<usize>,
    first: Raster,
    second: Raster,
)
    requires
        input.wf(),
        input.channels == 4,
        0 < size <= input.width,
        size <= input.height,
        is_permutation(order, tile_count(input, size)),
        rearranged(input, size, order, first),
        rearranged(input, size, order, second),
    ensures
        first == second,
{
    let width = input.width as int;
    let across = tiles_across(input, size);
    let down = tiles_down(input, size);
    lemma_grid_fits(width, input.height as int, size);
    assert forall|i: int| 0 <= i < input.bytes.len() implies first.bytes[i] == second.bytes[i] by {
        if in_grid(input, size, i) {
            let col = byte_column(width, i) / size;
            let row = byte_row(width, i) / size;
            lemma_position_byte(width, i);
            lemma_div_pos_is_pos(byte_column(width, i), size);
            lemma_div_pos_is_pos(byte_row(width, i), size);
            let tile = row * across + col;
            lemma_fundamental_div_mod_converse(tile, across, row, col);
            assert(tile < across * down) by {
                lemma_mul_inequality(row + 1, down, across);
                lemma_mul_is_distributive_add_other_way(across, row, 1);
                lemma_mul_is_commutative(across, down);
            }
            assert(0 <= tile) by {
                lemma_mul_inequality(0, row, across);
            }
            lemma_permutation_is_onto(order, across * down, tile);
            let k = choose|k: int| 0 <= k < across * down && #[trigger] order[k] == tile;
            assert(in_tile(input, size, order[k] as int, i));
        }
    }
    assert(first.bytes =~= second.bytes);
}

/// The bytes of one tile, row by row.
pub open spec fn tile_bytes(image: Raster, size: int, tile: int) -> Seq<u8> {
    Seq::new(
        (size * size * 4) as nat,
        |j: int|
            image.bytes[rgba_offset(
                image.width as int,
                (tile % tiles_across(image, size)) * size + (j / 4) % size,
                (tile / tiles_across(image, size)) * size + (j / 4) / size,
                j % 4,
            )],
    )
}

/// The tiles of the grid, each by its bytes, in the order of their numbers.
pub open spec fn tiles(image: Raster, size: int) -> Seq<Seq<u8>> {
    Seq::new(tile_count(image, size) as nat, |k: int| tile_bytes(image, size, k))
}

/// Two sequences, of which one holds the items of the other in the places
/// that a permutation names, hold the same items, each as often.
pub proof fn lemma_rearranged_multiset<A>(a: Seq<A>, b: Seq<A>, order: Seq<usize>)
    requires
        is_permutation(order, a.len() as int),
        b.len() == a.len(),
        forall|k: int| 0 <= k < a.len() ==> b[#[trigger] order[k] as int] == a[k],
    ensures
        a.to_multiset() == b.to_multiset(),
    decreases a.len(),
{
    if a.len() == 0 {
        assert(a =~= b);
    } else {
        // Take the last item out of `a` and out of its place in `b`; the
        // places behind it move up by one.
        let last = a.len() - 1;
        let place = order[last] as int;
        let shorter = a.drop_last();
        let rest = b.remove(place);
        let renumbered = Seq::new(
            last as nat,
            |k: int|
                if order[k] < place {
                    order[k]
                } else {
                    (order[k] - 1) as usize
                },
        );
        assert forall|k: int| 0 <= k < last implies #[trigger] renumbered[k] < last
            && rest[renumbered[k] as int] == shorter[k] by {
            assert(order[k] != order[last]);
            assert(order[k] < a.len());
        }
        assert forall|j: int, k: int| 0 <= j < k < last implies renumbered[j]
            != renumbered[k] by {
            assert(order[j] != order[k]);
            assert(order[j] != order[last]);
            assert(order[k] != order[last]);
        }
        lemma_rearranged_multiset(shorter, rest, renumbered);
        assert(a =~= shorter.push(a[last]));
        vstd::seq_lib::to_multiset_build(shorter, a[last]);
        vstd::seq_lib::to_multiset_remove(b, place);
        vstd::seq_lib::to_multiset_contains(b, b[place]);
        assert(b.contains(b[place]));
        assert(b.to_multiset() =~= b.to_multiset().remove(b[place]).insert(b[place]));
    }
}

/// After a rearrangement, the place of tile `order[k]` holds what tile `k` of
/// the input held.
pub proof fn lemma_tile_moved(input: Raster, size: int, order: Seq<usize>, out: Raster, k: int)
    requires
        input.wf(),
        input.channels == 4,
        0 < size <= input.width,
        size <= input.height,
        is_permutation(order, tile_count(input, size)),
        rearranged(input, size, order, out),
        0 <= k < tile_count(input, size),
    ensures
        tile_bytes(out, size, order[k] as int) == tile_bytes(input, size, k),
{
    let width = input.width as int;
    let height = input.height as int;
    let across = tiles_across(input, size);
    let target = order[k] as int;
    lemma_tile_fits(width, height, size, k);
    lemma_tile_fits(width, height, size, target);
    let sx = (k % across) * size;
    let sy = (k / across) * size;
    let tx = (target % across) * size;
    let ty = (target / across) * size;
    assert(sx >= 0 && sy >= 0 && tx >= 0 && ty >= 0) by (nonlinear_arith)
        requires
            sx == (k % across) * size,
            sy == (k / across) * size,
            tx == (target % across) * size,
            ty == (target / across) * size,
            0 <= k % across,
            0 <= k / across,
            0 <= target % across,
            0 <= target / across,
            0 < size,
    ;
    assert forall|j: int| 0 <= j < size * size * 4 implies tile_bytes(out, size, target)[j]
        == tile_bytes(input, size, k)[j] by {
        let dx = (j / 4) % size;
        let dy = (j / 4) / size;
        let c = j % 4;
        lemma_mod_bound(j / 4, size);
        lemma_div_pos_is_pos(j / 4, size);
        lemma_multiply_divide_lt(j / 4, size, size);
        let at = rgba_offset(width, tx + dx, ty + dy, c);
        let from = rgba_offset(width, sx + dx, sy + dy, c);
        lemma_byte_position(width, tx + dx, ty + dy, c);
        lemma_slot(size, tx + dx, target % across);
        lemma_slot(size, ty + dy, target / across);
        lemma_offset_in_bounds(
            width as nat,
            height as nat,
            4,
            (tx + dx) as nat,
            (ty + dy) as nat,
            c as nat,
        );
        assert(in_tile(input, size, target, at));
        assert(at + tile_shift(input, size, k, target) == from) by (nonlinear_arith)
            requires
                at == ((ty + dy) * width + (tx + dx)) * 4 + c,
                from == ((sy + dy) * width + (sx + dx)) * 4 + c,
                tile_shift(input, size, k, target) == ((sy - ty) * width + (sx - tx)) * 4,
        ;
    }
    assert(tile_bytes(out, size, target) =~= tile_bytes(input, size, k));
}

/// A patch shuffle keeps the tiles: whatever was drawn, the image that comes
/// out holds, as tiles of the same grid, the tiles of the input, each as often.
pub proof fn lemma_shuffle_keeps_tiles(input: Raster, size: int, out: Raster)
    requires
        input.wf(),
        input.channels == 4,
        0 < size <= input.width,
        size <= input.height,
        shuffle_outcome(input, size, out),
    ensures
        tiles(out, size).to_multiset() == tiles(input, size).to_multiset(),
{
    let order = choose|order: Seq<usize>|
        is_permutation(order, tile_count(input, size)) && rearranged(input, size, order, out);
    lemma_grid_fits(input.width as int, input.height as int, size);
    let before = tiles(input, size);
    let after = tiles(out, size);
    assert forall|k: int| 0 <= k < before.len() implies after[#[trigger] order[k] as int]
        == before[k] by {
        lemma_tile_moved(input, size, order, out, k);
    }
    lemma_rearranged_multiset(tiles(input, size), tiles(out, size), order);
}

/// The bytes of one tile of an image with three channels to the pixel, row by
/// row.
pub open spec fn saved_tile_bytes(image: Raster, size: int, tile: int) -> Seq<u8> {
    Seq::new(
        (size * size * 3) as nat,
        |j: int|
            image.bytes[(((tile / tiles_across(image, size)) * size + (j / 3) / size)
                * image.width + (tile % tiles_across(image, size)) * size + (j / 3) % size) * 3
                + j % 3],
    )
}

/// The tiles of an image with three channels to the pixel, each by its
/// bytes, in the order of their numbers.
pub open spec fn saved_tiles(image: Raster, size: int) -> Seq<Seq<u8>> {
    Seq::new(tile_count(image, size) as nat, |k: int| saved_tile_bytes(image, size, k))
}

/// A tile of the image as it is saved holds the colour bytes of the tile.
proof fn lemma_saved_tile(image: Raster, size: int, tile: int, j: int)
    requires
        image.wf(),
        image.channels == 4,
        0 < size <= image.width,
        size <= image.height,
        0 <= tile < tile_count(image, size),
        0 <= j < size * size * 3,
    ensures
        0 <= j / 3 * 4 + j % 3 < size * size * 4,
        saved_tile_bytes(flattened(image), size, tile)[j] == tile_bytes(image, size, tile)[j / 3
            * 4 + j % 3],
{
    let width = image.width as int;
    let across = tiles_across(image, size);
    lemma_tile_fits(width, image.height as int, size, tile);
    let dx = (j / 3) % size;
    let dy = (j / 3) / size;
    let c = j % 3;
    let x = (tile % across) * size + dx;
    let y = (tile / across) * size + dy;
    lemma_mod_bound(j / 3, size);
    lemma_div_pos_is_pos(j / 3, size);
    lemma_multiply_divide_lt(j / 3, size, size);
    assert(x >= dx && y >= dy) by (nonlinear_arith)
        requires
            x == (tile % across) * size + dx,
            y == (tile / across) * size + dy,
            0 <= tile % across,
            0 <= tile / across,
            0 < size,
    ;
    lemma_offset_in_bounds(image.width, image.height, 4, x as nat, y as nat, c as nat);
    let pixel = y * width + x;
    let at = pixel * 3 + c;
    assert(at / 3 == pixel && at % 3 == c);
    assert(image.bytes.len() == (image.width * image.height) * 4);
    assert(flattened(image).bytes[at] == image.bytes[pixel * 4 + c]);
    let k = j / 3 * 4 + c;
    assert(k / 4 == j / 3 && k % 4 == c);
}

/// A patch shuffle keeps the tiles of the image as it is saved, too:
/// whatever was drawn, the image that is saved holds, as tiles of the same
/// grid, the tiles of the input as it would be saved, each as often.
pub proof fn lemma_shuffle_keeps_saved_tiles(input: Raster, size: int, out: Raster)
    requires
        input.wf(),
        input.channels == 4,
        0 < size <= input.width,
        size <= input.height,
        shuffle_outcome(input, size, out),
    ensures
        saved_tiles(flattened(out), size).to_multiset() == saved_tiles(
            flattened(input),
            size,
        ).to_multiset(),
{
    let order = choose|order: Seq<usize>|
        is_permutation(order, tile_count(input, size)) && rearranged(input, size, order, out);
    lemma_grid_fits(input.width as int, input.height as int, size);
    let before = saved_tiles(flattened(input), size);
    let after = saved_tiles(flattened(out), size);
    assert forall|k: int| 0 <= k < before.len() implies after[#[trigger] order[k] as int]
        == before[k] by {
        let target = order[k] as int;
        lemma_tile_moved(input, size, order, out, k);
        assert forall|j: int| 0 <= j < size * size * 3 implies saved_tile_bytes(
            flattened(out),
            size,
            target,
        )[j] == saved_tile_bytes(flattened(input), size, k)[j] by {
            lemma_saved_tile(out, size, target, j);
            lemma_saved_tile(input, size, k, j);
        }
        assert(saved_tile_bytes(flattened(out), size, target) =~= saved_tile_bytes(
            flattened(input),
            size,
            k,
        ));
    }
    lemma_rearranged_multiset(before, after, order);
}

/// With a single tile as large as the image, a patch shuffle keeps the image.
pub proof fn lemma_single_tile_keeps_image(input: Raster, size: int, out: Raster)
    requires
        input.wf(),
        input.channels == 4,
        0 < size,
        size == input.width,
        size == input.height,
        shuffle_outcome(input, size, out),
    ensures
        out == input,
{
    let order = choose|order: Seq<usize>|
        is_permutation(order, tile_count(input, size)) && rearranged(input, size, order, out);
    lemma_div_basics(size);
    assert(tiles_across(input, size) == 1 && tiles_down(input, size) == 1) by {
        assert(input.width as int == size && input.height as int == size);
        assert(size / size == 1);
    }
    let across = tiles_across(input, size);
    let down = tiles_down(input, size);
    assert(across * down == 1) by (nonlinear_arith)
        requires
            across == 1,
            down == 1,
    ;
    assert(order[0] == 0);
    assert forall|i: int| 0 <= i < input.bytes.len() implies out.bytes[i] == input.bytes[i] by {
        lemma_position_byte(size, i);
        lemma_slot(size, byte_column(size, i), 0);
        lemma_multiply_divide_lt(i / 4, size, size);
        lemma_slot(size, byte_row(size, i), 0);
        assert(in_tile(input, size, order[0] as int, i));
        assert(tile_shift(input, size, 0, order[0] as int) == 0);
    }
    assert(out.bytes =~= input.bytes);
}

} // verus!
