//! The distinct (height, color) pairs of a map, in order.
use crate::map::{Colormap, Heightmap};
use vstd::prelude::*;

verus! {

/// A height together with a color.
pub type HeightColor = (u32, [u8; 4]);

/// The height and color of a cell.
pub open spec fn cell_pair<H: Heightmap + ?Sized, C: Colormap + ?Sized>(
    heightmap: &H,
    colormap: &C,
    x: int,
    y: int,
) -> HeightColor {
    (heightmap.height_at(x, y), colormap.color_at(x, y))
}

/// Whether a cell takes part: with `cull`, zero heights and transparent colors do not.
pub open spec fn counted(pair: HeightColor, cull: bool) -> bool {
    !cull || (pair.0 > 0 && pair.1[3] > 0)
}

/// Pairs compare by height first, then by the color channels in order.
pub open spec fn pair_key(pair: HeightColor) -> int {
    pair.0 * 0x1_0000_0000 + pair.1[0] * 0x100_0000 + pair.1[1] * 0x1_0000 + pair.1[2] * 0x100
        + pair.1[3]
}

/// The pairs are in strictly increasing order.
pub open spec fn ordered(pairs: Seq<HeightColor>) -> bool {
    forall|i: int, j: int|
        0 <= i < j < pairs.len() ==> pair_key(#[trigger] pairs[i]) < pair_key(#[trigger] pairs[j])
}

/// Some counted cell has this pair.
pub open spec fn occurs<H: Heightmap + ?Sized, C: Colormap + ?Sized>(
    heightmap: &H,
    colormap: &C,
    cull: bool,
    pair: HeightColor,
) -> bool {
    exists|x: int, y: int|
        {
            &&& 0 <= x < heightmap.dims().0
            &&& 0 <= y < heightmap.dims().1
            &&& counted(pair, cull)
            &&& #[trigger] cell_pair(heightmap, colormap, x, y) == pair
        }
}

/// `pairs` lists, in order, the pairs of the counted cells.
pub open spec fn is_pair_list<H: Heightmap + ?Sized, C: Colormap + ?Sized>(
    heightmap: &H,
    colormap: &C,
    cull: bool,
    pairs: Seq<HeightColor>,
) -> bool {
    let (width, height) = heightmap.dims();
    &&& ordered(pairs)
    &&& forall|x: int, y: int|
        0 <= x < width && 0 <= y < height && counted(
            #[trigger] cell_pair(heightmap, colormap, x, y),
            cull,
        ) ==> pairs.contains(cell_pair(heightmap, colormap, x, y))
    &&& forall|i: int|
        0 <= i < pairs.len() ==> occurs(heightmap, colormap, cull, #[trigger] pairs[i])
}

/// Pairs with the same key are the same pair.
pub proof fn lemma_pair_key_injective(a: HeightColor, b: HeightColor)
    requires
        pair_key(a) == pair_key(b),
    ensures
        a == b,
{
    assert(a.0 == b.0 && a.1[0] == b.1[0] && a.1[1] == b.1[1] && a.1[2] == b.1[2] && a.1[3]
        == b.1[3]);
    assert(a.1@ =~= b.1@);
    assert(a.1 == b.1);
}

pub fn key_of(pair: &HeightColor) -> (key: u64)
    ensures
        key == pair_key(*pair),
{
    let c: [u8; 4] = pair.1;
    pair.0 as u64 * 0x1_0000_0000 + c[0] as u64 * 0x100_0000 + c[1] as u64 * 0x1_0000 + c[2] as u64
        * 0x100 + c[3] as u64
}

/// Index of the first pair whose key is not below that of `pair`.
pub fn lower_bound(pairs: &Vec<HeightColor>, pair: &HeightColor) -> (idx: usize)
    requires
        ordered(pairs@),
    ensures
        idx <= pairs@.len(),
        forall|i: int| 0 <= i < idx ==> pair_key(#[trigger] pairs@[i]) < pair_key(*pair),
        forall|i: int| idx <= i < pairs@.len() ==> pair_key(#[trigger] pairs@[i]) >= pair_key(*pair),
{
    let key: u64 = key_of(pair);
    let mut lo: usize = 0;
    let mut hi: usize = pairs.len();
    while lo < hi
        invariant
            lo <= hi <= pairs@.len(),
            key == pair_key(*pair),
            ordered(pairs@),
            forall|i: int| 0 <= i < lo ==> pair_key(#[trigger] pairs@[i]) < key,
            forall|i: int| hi <= i < pairs@.len() ==> pair_key(#[trigger] pairs@[i]) >= key,
        decreases hi - lo,
    {
        let mid: usize = lo + (hi - lo) / 2;
        if key_of(&pairs[mid]) < key {
            lo = mid + 1;
        } else {
            hi = mid;
        }
    }
    lo
}

/// Add a pair to an ordered list unless it is there already.
fn insert_pair(pairs: &mut Vec<HeightColor>, pair: HeightColor)
    requires
        ordered(old(pairs)@),
    ensures
        ordered(final(pairs)@),
        forall|p: HeightColor|
            final(pairs)@.contains(p) <==> (old(pairs)@.contains(p) || p == pair),
{
    let idx: usize = lower_bound(pairs, &pair);
    if idx < pairs.len() && key_of(&pairs[idx]) == key_of(&pair) {
        proof {
            lemma_pair_key_injective(pairs@[idx as int], pair);
            assert(pairs@.contains(pair));
        }
    } else {
        pairs.insert(idx, pair);
        proof {
            let before = old(pairs)@;
            let after = pairs@;
            assert forall|p: HeightColor| after.contains(p) <==> (before.contains(p) || p == pair) by {
                if before.contains(p) {
                    let i = choose|i: int| 0 <= i < before.len() && before[i] == p;
                    assert(after[if i < idx { i } else { i + 1 }] == p);
                }
                if after.contains(p) && p != pair {
                    let i = choose|i: int| 0 <= i < after.len() && after[i] == p;
                    assert(before[if i < idx { i } else { i - 1 }] == p);
                }
                assert(after[idx as int] == pair);
            }
        }
    }
}

/// A cell that comes before `(x, y)` when columns are walked in order.
pub open spec fn walked(i: int, j: int, x: int, y: int) -> bool {
    i < x || (i == x && j < y)
}

/// Collect every unique (height, color) combination present in the maps,
/// skipping transparent/zero-height pixels when `cull` is set.
pub fn collect_height_color_pairs<H: Heightmap + ?Sized, C: Colormap + ?Sized>(
    heightmap: &H,
    colormap: &C,
    cull: bool,
) -> (pairs: Vec<HeightColor>)
    requires
        heightmap.dims() == colormap.dims(),
    ensures
        is_pair_list(heightmap, colormap, cull, pairs@),
{
    let (width, height) = heightmap.size();
    let mut pairs: Vec<HeightColor> = Vec::new();
    let mut x: u32 = 0;
    while x < width
        invariant
            x <= width,
            (width, height) == heightmap.dims(),
            heightmap.dims() == colormap.dims(),
            ordered(pairs@),
            pairs_walked(heightmap, colormap, cull, pairs@, x as int, 0),
        decreases width - x,
    {
        let mut y: u32 = 0;
        while y < height
            invariant
                x < width,
                y <= height,
                (width, height) == heightmap.dims(),
                heightmap.dims() == colormap.dims(),
                ordered(pairs@),
                pairs_walked(heightmap, colormap, cull, pairs@, x as int, y as int),
            decreases height - y,
        {
            let h: u32 = heightmap.at(x, y);
            let c: [u8; 4] = colormap.at(x, y);
            let ghost before: Seq<HeightColor> = pairs@;
            assert(cell_pair(heightmap, colormap, x as int, y as int) == (h, c));
            if !cull || (h > 0 && c[3] > 0) {
                insert_pair(&mut pairs, (h, c));
            }
            proof {
                let after = pairs@;
                assert forall|i: int| 0 <= i < after.len() implies occurs(
                    heightmap,
                    colormap,
                    cull,
                    #[trigger] after[i],
                ) by {
                    assert(after.contains(after[i]));
                    if before.contains(after[i]) {
                        let k = choose|k: int| 0 <= k < before.len() && before[k] == after[i];
                        assert(before[k] == after[i]);
                    }
                }
            }
            y = y + 1;
        }
        x = x + 1;
    }
    pairs
}

/// `pairs` holds exactly the pairs of the counted cells before `(x, y)`.
spec fn pairs_walked<H: Heightmap + ?Sized, C: Colormap + ?Sized>(
    heightmap: &H,
    colormap: &C,
    cull: bool,
    pairs: Seq<HeightColor>,
    x: int,
    y: int,
) -> bool {
    let (width, height) = heightmap.dims();
    &&& forall|i: int, j: int|
        0 <= i < width && 0 <= j < height && walked(i, j, x, y) && counted(
            #[trigger] cell_pair(heightmap, colormap, i, j),
            cull,
        ) ==> pairs.contains(cell_pair(heightmap, colormap, i, j))
    &&& forall|k: int|
        0 <= k < pairs.len() ==> occurs(heightmap, colormap, cull, #[trigger] pairs[k])
}

} // verus!
