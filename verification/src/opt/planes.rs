//! One binary plane per (height, color) pair.
use crate::map::{Colormap, Heightmap};
use crate::opt::bitmask::BitMask;
use crate::opt::pairs::{key_of, lower_bound, HeightColor};
use vstd::prelude::*;

verus! {

/// Whether a row-major keep mask keeps the cell; without a mask every cell is kept.
pub open spec fn kept(mask: Option<Seq<bool>>, width: int, x: int, y: int) -> bool {
    match mask {
        Some(m) => m[y * width + x],
        None => true,
    }
}

/// The kept, counted cells whose height and color are `pair`.
pub open spec fn pair_cells<H: Heightmap + ?Sized, C: Colormap + ?Sized>(
    heightmap: &H,
    colormap: &C,
    cull: bool,
    mask: Option<Seq<bool>>,
    pair: HeightColor,
) -> Set<(int, int)> {
    Set::new(
        |c: (int, int)|
            {
                &&& 0 <= c.0 < heightmap.dims().0
                &&& 0 <= c.1 < heightmap.dims().1
                &&& kept(mask, heightmap.dims().0 as int, c.0, c.1)
                &&& crate::opt::pairs::counted(pair, cull)
                &&& crate::opt::pairs::cell_pair(heightmap, colormap, c.0, c.1) == pair
            },
    )
}

/// The view of an optional slice.
pub open spec fn mask_view(mask: Option<&[bool]>) -> Option<Seq<bool>> {
    match mask {
        Some(m) => Some(m@),
        None => None,
    }
}

/// A plane of `width` columns without a set cell.
fn blank_plane(width: u32) -> (plane: Vec<BitMask>)
    ensures
        plane@.len() == width,
        forall|x: int, y: int| 0 <= x < width ==> !(#[trigger] plane@[x].has(y)),
        forall|x: int| 0 <= x < width ==> (#[trigger] plane@[x])@.len() == 1,
{
    let mut plane: Vec<BitMask> = Vec::new();
    let mut x: u32 = 0;
    while x < width
        invariant
            x <= width,
            plane@.len() == x,
            forall|i: int, y: int| 0 <= i < x ==> !(#[trigger] plane@[i].has(y)),
            forall|i: int| 0 <= i < x ==> (#[trigger] plane@[i])@.len() == 1,
        decreases width - x,
    {
        plane.push(BitMask::new());
        x = x + 1;
    }
    plane
}

/// The planes hold the cells of their pairs that were walked before `(x, y)`.
spec fn planes_walked<H: Heightmap + ?Sized, C: Colormap + ?Sized>(
    heightmap: &H,
    colormap: &C,
    cull: bool,
    mask: Option<Seq<bool>>,
    pairs: Seq<HeightColor>,
    planes: Seq<Vec<BitMask>>,
    x: int,
    y: int,
) -> bool {
    forall|p: int, i: int, j: int|
        0 <= p < planes.len() && 0 <= i < heightmap.dims().0 ==> (#[trigger] planes[p]@[i].has(j)
            <==> (pair_cells(heightmap, colormap, cull, mask, pairs[p]).contains((i, j))
            && crate::opt::pairs::walked(i, j, x, y)))
}

/// Every plane has one mask per column, each of them short enough to count bits in.
spec fn planes_shaped(planes: Seq<Vec<BitMask>>, width: int) -> bool {
    &&& forall|p: int| 0 <= p < planes.len() ==> (#[trigger] planes[p])@.len() == width
    &&& forall|p: int, i: int|
        0 <= p < planes.len() && 0 <= i < width ==> (#[trigger] planes[p]@[i]).capacity()
            <= u32::MAX
}

/// Build one binary plane (one `BitMask` per image column) for each
/// (height, color) pair in a single pass over the image.
pub fn build_planes<H: Heightmap + ?Sized, C: Colormap + ?Sized>(
    heightmap: &H,
    colormap: &C,
    cull: bool,
    pairs: &Vec<HeightColor>,
    keep_mask: Option<&[bool]>,
) -> (planes: Vec<Vec<BitMask>>)
    requires
        heightmap.dims() == colormap.dims(),
        heightmap.dims().1 <= u32::MAX - 127,
        crate::opt::pairs::is_pair_list(heightmap, colormap, cull, pairs@),
        keep_mask matches Some(m) ==> m@.len() == heightmap.dims().0 * heightmap.dims().1,
    ensures
        planes@.len() == pairs@.len(),
        forall|p: int|
            0 <= p < planes@.len() ==> (#[trigger] planes@[p])@.len() == heightmap.dims().0,
        forall|p: int|
            0 <= p < planes@.len() ==> crate::opt::greedy::masks_fit((#[trigger] planes@[p])@),
        forall|p: int|
            0 <= p < planes@.len() ==> crate::opt::greedy::plane_cells((#[trigger] planes@[p])@)
                == pair_cells(heightmap, colormap, cull, mask_view(keep_mask), pairs@[p]),
{
    let (width, height) = heightmap.size();
    let mut planes: Vec<Vec<BitMask>> = Vec::new();
    let mut p: usize = 0;
    while p < pairs.len()
        invariant
            p <= pairs@.len(),
            planes@.len() == p,
            planes_shaped(planes@, width as int),
            forall|q: int, i: int, j: int|
                0 <= q < p && 0 <= i < width ==> !(#[trigger] planes@[q]@[i].has(j)),
        decreases pairs@.len() - p,
    {
        planes.push(blank_plane(width));
        p = p + 1;
    }
    let mut x: u32 = 0;
    while x < width
        invariant
            x <= width,
            (width, height) == heightmap.dims(),
            heightmap.dims() == colormap.dims(),
            height <= u32::MAX - 127,
            crate::opt::pairs::is_pair_list(heightmap, colormap, cull, pairs@),
            keep_mask matches Some(m) ==> m@.len() == width * height,
            planes@.len() == pairs@.len(),
            planes_shaped(planes@, width as int),
            planes_walked(
                heightmap,
                colormap,
                cull,
                mask_view(keep_mask),
                pairs@,
                planes@,
                x as int,
                0,
            ),
        decreases width - x,
    {
        let mut y: u32 = 0;
        while y < height
            invariant
                x < width,
                y <= height,
                (width, height) == heightmap.dims(),
                heightmap.dims() == colormap.dims(),
                height <= u32::MAX - 127,
                crate::opt::pairs::is_pair_list(heightmap, colormap, cull, pairs@),
                keep_mask matches Some(m) ==> m@.len() == width * height,
                planes@.len() == pairs@.len(),
                planes_shaped(planes@, width as int),
                planes_walked(
                    heightmap,
                    colormap,
                    cull,
                    mask_view(keep_mask),
                    pairs@,
                    planes@,
                    x as int,
                    y as int,
                ),
            decreases height - y,
        {
            let keep: bool = match keep_mask {
                Some(m) => {
                    let cells: usize = m.len();
                    proof {
                        crate::map::lemma_cell_index(x as int, y as int, width as int, height as int);
                    }
                    m[y as usize * width as usize + x as usize]
                },
                None => true,
            };
            let h: u32 = heightmap.at(x, y);
            let c: [u8; 4] = colormap.at(x, y);
            let pair: HeightColor = (h, c);
            assert(crate::opt::pairs::cell_pair(heightmap, colormap, x as int, y as int) == pair);
            let ghost before: Seq<Vec<BitMask>> = planes@;
            if keep && (!cull || (h > 0 && c[3] > 0)) {
                let idx: usize = lower_bound(pairs, &pair);
                proof {
                    let at = choose|i: int| 0 <= i < pairs@.len() && pairs@[i] == pair;
                    assert(pairs@.contains(pair));
                    assert(idx == at) by {
                        assert(pairs@[at] == pair);
                        if idx < at {
                            assert(crate::opt::pairs::pair_key(pairs@[idx as int])
                                < crate::opt::pairs::pair_key(pairs@[at]));
                        }
                    }
                }
                planes[idx][x as usize].set_bit(y);
            }
            y = y + 1;
        }
        x = x + 1;
    }
    planes
}

} // verus!
