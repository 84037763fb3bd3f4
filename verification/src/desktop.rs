//! Composing one picture of the whole desktop from per-monitor captures, and
//! pairing monitors with the displays that capture them.
use vstd::prelude::*;

use vstd::arithmetic::div_mod::{
    lemma_div_pos_is_pos, lemma_fundamental_div_mod, lemma_fundamental_div_mod_converse,
    lemma_mod_pos_bound,
};
use vstd::arithmetic::mul::lemma_mul_inequality;
use vstd::set_lib::{lemma_int_range, lemma_len_subset, set_int_range};

use crate::color_picker::{MonitorInfo, ScreenCapture};
use crate::pixels::{monitor_label, monitor_label_text};
use crate::text::{decimal, is_err_with, owned, push_decimal};

verus! {

// ---------------------------------------------------------------------------
// Copying a block of RGBA pixels
// ---------------------------------------------------------------------------
/// Where a block of pixels goes: the destination's size, the block's place in
/// it, and the source's size (all in pixels, 4 bytes each).
#[derive(Clone, Copy)]
pub struct BlitGeometry {
    pub dest_w: u32,
    pub dest_h: u32,
    pub dest_x: u32,
    pub dest_y: u32,
    pub src_w: u32,
    pub src_h: u32,
}

/// The number of source rows that fall inside the destination.
pub open spec fn rows_in(g: BlitGeometry) -> int {
    if g.dest_y >= g.dest_h {
        0
    } else if g.src_h <= g.dest_h - g.dest_y {
        g.src_h as int
    } else {
        g.dest_h - g.dest_y
    }
}

/// The number of source columns that fall inside the destination.
pub open spec fn cols_in(g: BlitGeometry) -> int {
    if g.dest_x >= g.dest_w {
        0
    } else if g.src_w <= g.dest_w - g.dest_x {
        g.src_w as int
    } else {
        g.dest_w - g.dest_x
    }
}

/// The byte offsets of the copied pixels fit in a `u32`.
pub open spec fn blit_fits(g: BlitGeometry) -> bool {
    let r = rows_in(g);
    let c = cols_in(g);
    r == 0 || c == 0 || (((r - 1) * g.src_w + (c - 1)) * 4 <= u32::MAX && ((g.dest_y + r - 1)
        * g.dest_w + g.dest_x + (c - 1)) * 4 <= u32::MAX)
}

/// The source byte that destination byte `k` receives, once the source rows
/// before `rows_done`, and the columns before `cols_done` of row `rows_done`,
/// are copied: a pixel is copied when it lies inside both the destination and
/// the source, and both buffers hold all four of its bytes.
pub open spec fn copied_from(
    g: BlitGeometry,
    dest_len: int,
    src_len: int,
    k: int,
    rows_done: int,
    cols_done: int,
) -> Option<int> {
    if g.dest_w == 0 || k < 0 {
        None
    } else {
        let p = k / 4;
        let y = p / (g.dest_w as int);
        let x = p % (g.dest_w as int);
        let row = y - g.dest_y;
        let col = x - g.dest_x;
        let s = (row * g.src_w + col) * 4;
        if 0 <= row < g.src_h && y < g.dest_h && 0 <= col < g.src_w && (row < rows_done || (row
            == rows_done && col < cols_done)) && 4 * p + 3 < dest_len && s + 3 < src_len {
            Some(s + k % 4)
        } else {
            None
        }
    }
}

/// `dest` with the pixels before (`rows_done`, `cols_done`) copied from `src`.
pub open spec fn blit_progress(
    dest: Seq<u8>,
    g: BlitGeometry,
    src: Seq<u8>,
    rows_done: int,
    cols_done: int,
) -> Seq<u8> {
    Seq::new(
        dest.len(),
        |k: int|
            match copied_from(g, dest.len() as int, src.len() as int, k, rows_done, cols_done) {
                Some(s) => src[s],
                None => dest[k],
            },
    )
}

/// `dest` with the whole block copied from `src`.
pub open spec fn blitted(dest: Seq<u8>, g: BlitGeometry, src: Seq<u8>) -> Seq<u8> {
    blit_progress(dest, g, src, g.src_h as int, 0)
}

proof fn lemma_pixel_split(w: int, p: int)
    requires
        w > 0,
        p >= 0,
    ensures
        p == (p / w) * w + p % w,
        0 <= p % w < w,
        p / w >= 0,
{
    lemma_fundamental_div_mod(p, w);
    assert((p / w) * w == w * (p / w)) by (nonlinear_arith);
    lemma_mod_pos_bound(p, w);
    lemma_div_pos_is_pos(p, w);
}

proof fn lemma_pixel_of(g: BlitGeometry, row: int, col: int, c: int)
    requires
        0 <= row,
        0 <= col,
        g.dest_x + col < g.dest_w,
        0 <= c < 4,
    ensures
        ({
            let p = (g.dest_y + row) * g.dest_w + g.dest_x + col;
            let k = p * 4 + c;
            &&& k / 4 == p
            &&& k % 4 == c
            &&& p / (g.dest_w as int) == g.dest_y + row
            &&& p % (g.dest_w as int) == g.dest_x + col
            &&& p >= 0
        }),
{
    let p = (g.dest_y + row) * g.dest_w + g.dest_x + col;
    assert(p >= 0) by (nonlinear_arith)
        requires
            p == (g.dest_y + row) * g.dest_w + g.dest_x + col,
            row >= 0,
            col >= 0,
    ;
    lemma_fundamental_div_mod_converse(p * 4 + c, 4, p, c);
    lemma_fundamental_div_mod_converse(p, g.dest_w as int, g.dest_y + row, g.dest_x + col);
}

/// Copies a `src_w × src_h` block of RGBA pixels into a `dest_w × dest_h`
/// buffer at (`dest_x`, `dest_y`), clipped to the destination; pixels for which
/// either buffer is too short are skipped.
pub fn blit_rgba(
    dest: &mut Vec<u8>,
    dest_w: u32,
    dest_h: u32,
    dest_x: u32,
    dest_y: u32,
    src_w: u32,
    src_h: u32,
    src: &[u8],
)
    requires
        blit_fits(BlitGeometry { dest_w, dest_h, dest_x, dest_y, src_w, src_h }),
    ensures
        final(dest)@ == blitted(
            old(dest)@,
            BlitGeometry { dest_w, dest_h, dest_x, dest_y, src_w, src_h },
            src@,
        ),
{
    let ghost g = BlitGeometry { dest_w, dest_h, dest_x, dest_y, src_w, src_h };
    let ghost d0 = dest@;
    assert(dest@ =~= blit_progress(d0, g, src@, 0, 0));
    let mut row: u32 = 0;
    while row < src_h
        invariant
            g == (BlitGeometry { dest_w, dest_h, dest_x, dest_y, src_w, src_h }),
            blit_fits(g),
            row <= src_h,
            row == 0 || dest_y + row - 1 < dest_h,
            dest@.len() == d0.len(),
            dest@ == blit_progress(d0, g, src@, row as int, 0),
        ensures
            dest@ == blit_progress(d0, g, src@, src_h as int, 0),
        decreases src_h - row,
    {
        if dest_y + row >= dest_h {
            assert(blit_progress(d0, g, src@, row as int, 0) =~= blit_progress(
                d0,
                g,
                src@,
                src_h as int,
                0,
            ));
            break;
        }
        let mut col: u32 = 0;
        while col < src_w
            invariant
                g == (BlitGeometry { dest_w, dest_h, dest_x, dest_y, src_w, src_h }),
                blit_fits(g),
                row < src_h,
                dest_y + row < dest_h,
                col <= src_w,
                col == 0 || dest_x + col - 1 < dest_w,
                dest@.len() == d0.len(),
                dest@ == blit_progress(d0, g, src@, row as int, col as int),
            ensures
                dest@ == blit_progress(d0, g, src@, row + 1, 0),
            decreases src_w - col,
        {
            if dest_x + col >= dest_w {
                assert(blit_progress(d0, g, src@, row as int, col as int) =~= blit_progress(
                    d0,
                    g,
                    src@,
                    row + 1,
                    0,
                ));
                break;
            }
            proof {
                assert(row < rows_in(g) && col < cols_in(g));
                lemma_mul_inequality(row as int, rows_in(g) - 1, src_w as int);
                lemma_mul_inequality(dest_y + row as int, dest_y + rows_in(g) - 1, dest_w as int);
            }
            let src_idx = ((row * src_w + col) * 4) as usize;
            let dst_idx = (((dest_y + row) * dest_w + dest_x + col) * 4) as usize;
            let ghost before = dest@;
            let ghost p = (dest_y + row) * dest_w + dest_x + col;
            let fits = src.len() > 3 && src_idx < src.len() - 3 && dest.len() > 3 && dst_idx
                < dest.len() - 3;
            if fits {
                dest.set(dst_idx, src[src_idx]);
                dest.set(dst_idx + 1, src[src_idx + 1]);
                dest.set(dst_idx + 2, src[src_idx + 2]);
                dest.set(dst_idx + 3, src[src_idx + 3]);
            }
            proof {
                assert forall|k: int| 0 <= k < dest@.len() implies dest@[k] == blit_progress(
                    d0,
                    g,
                    src@,
                    row as int,
                    col + 1,
                )[k] by {
                    let w = dest_w as int;
                    let q = k / 4;
                    lemma_pixel_split(w, q);
                    if p * 4 <= k < p * 4 + 4 {
                        lemma_pixel_of(g, row as int, col as int, k - p * 4);
                    } else {
                        assert(q != p);
                        assert(q == (q / w) * w + q % w);
                        assert(copied_from(g, d0.len() as int, src@.len() as int, k, row as int, col + 1)
                            == copied_from(g, d0.len() as int, src@.len() as int, k, row as int, col as int));
                    }
                    if !fits && p * 4 <= k < p * 4 + 4 {
                        assert(copied_from(g, d0.len() as int, src@.len() as int, k, row as int, col + 1)
                            is None);
                    }
                }
                assert(dest@ =~= blit_progress(d0, g, src@, row as int, col + 1));
            }
            col = col + 1;
        }
        if col == src_w {
            assert(blit_progress(d0, g, src@, row as int, col as int) =~= blit_progress(
                d0,
                g,
                src@,
                row + 1,
                0,
            ));
        }
        row = row + 1;
    }
}

// ---------------------------------------------------------------------------
// Pairing monitors with displays
// ---------------------------------------------------------------------------
/// The first display from `j` on that is not yet used and has exactly `size`.
pub open spec fn first_free_same(disps: Seq<(u32, u32)>, used: Seq<int>, size: (u32, u32), j: int) -> Option<int>
    decreases disps.len() - j,
{
    if j < 0 || j >= disps.len() {
        None
    } else if !used.contains(j) && disps[j] == size {
        Some(j)
    } else {
        first_free_same(disps, used, size, j + 1)
    }
}

/// The first display from `j` on (of `n`) that is not yet used.
pub open spec fn first_free(n: int, used: Seq<int>, j: int) -> Option<int>
    decreases n - j,
{
    if j < 0 || j >= n {
        None
    } else if !used.contains(j) {
        Some(j)
    } else {
        first_free(n, used, j + 1)
    }
}

/// The display a monitor of `size` is paired with: the first unused one of the
/// same physical size, else the first unused one.
pub open spec fn pick_display(disps: Seq<(u32, u32)>, used: Seq<int>, size: (u32, u32)) -> Option<int> {
    match first_free_same(disps, used, size, 0) {
        Some(i) => Some(i),
        None => first_free(disps.len() as int, used, 0),
    }
}

/// Pairs each monitor, in order, with a display (see `pick_display`); none when
/// some monitor finds no unused display.
pub open spec fn greedy_match(mons: Seq<(u32, u32)>, disps: Seq<(u32, u32)>) -> Option<Seq<int>>
    decreases mons.len(),
{
    if mons.len() == 0 {
        Some(Seq::empty())
    } else {
        match greedy_match(mons.drop_last(), disps) {
            None => None,
            Some(p) => match pick_display(disps, p, mons.last()) {
                None => None,
                Some(i) => Some(p.push(i)),
            },
        }
    }
}

/// The indices of a vector of positions.
pub open spec fn indices(v: Seq<usize>) -> Seq<int> {
    v.map_values(|i: usize| i as int)
}

/// The message for a monitor that no display is left for.
pub open spec fn unmatched_display_message() -> Seq<char> {
    "无法匹配显示器截屏源"@
}

proof fn lemma_first_free_same_found(disps: Seq<(u32, u32)>, used: Seq<int>, size: (u32, u32), j: int)
    ensures
        first_free_same(disps, used, size, j) matches Some(i) ==> j <= i < disps.len()
            && !used.contains(i) && disps[i] == size,
    decreases disps.len() - j,
{
    if 0 <= j < disps.len() && !(!used.contains(j) && disps[j] == size) {
        lemma_first_free_same_found(disps, used, size, j + 1);
    }
}

proof fn lemma_first_free_found(n: int, used: Seq<int>, j: int)
    ensures
        first_free(n, used, j) matches Some(i) ==> j <= i < n && !used.contains(i),
    decreases n - j,
{
    if 0 <= j < n && used.contains(j) {
        lemma_first_free_found(n, used, j + 1);
    }
}

proof fn lemma_greedy_none_extends(mons: Seq<(u32, u32)>, disps: Seq<(u32, u32)>, m: int)
    requires
        0 <= m <= mons.len(),
        greedy_match(mons.take(m), disps) is None,
    ensures
        greedy_match(mons, disps) is None,
    decreases mons.len() - m,
{
    if m < mons.len() {
        assert(mons.take(m + 1).drop_last() =~= mons.take(m));
        lemma_greedy_none_extends(mons, disps, m + 1);
    } else {
        assert(mons.take(m) =~= mons);
    }
}

/// For each monitor (by physical size, in order) the index of the display that
/// captures it: the first unused display of the same size, else the first
/// unused one.
pub fn match_displays(monitor_sizes: &Vec<(u32, u32)>, display_sizes: &Vec<(u32, u32)>) -> (r: Result<
    Vec<usize>,
    String,
>)
    ensures
        match greedy_match(monitor_sizes@, display_sizes@) {
            Some(p) => r matches Ok(v) && indices(v@) == p,
            None => is_err_with(r, unmatched_display_message()),
        },
{
    let n = display_sizes.len();
    let ghost mons = monitor_sizes@;
    let ghost disps = display_sizes@;
    let mut used: Vec<bool> = Vec::new();
    while used.len() < n
        invariant
            used.len() <= n,
            forall|i: int| 0 <= i < used.len() ==> !used@[i],
        decreases n - used.len(),
    {
        used.push(false);
    }
    let mut matched: Vec<usize> = Vec::new();
    let mut m: usize = 0;
    assert(mons.take(0) =~= Seq::<(u32, u32)>::empty());
    assert(indices(matched@) =~= Seq::<int>::empty());
    while m < monitor_sizes.len()
        invariant
            n == disps.len(),
            mons == monitor_sizes@,
            disps == display_sizes@,
            m <= mons.len(),
            used.len() == n,
            greedy_match(mons.take(m as int), disps) == Some(indices(matched@)),
            forall|i: int| 0 <= i < n ==> used@[i] == indices(matched@).contains(i),
        decreases mons.len() - m,
    {
        let size = monitor_sizes[m];
        let ghost p = indices(matched@);
        let mut pick: Option<usize> = None;
        let mut idx: usize = 0;
        while idx < n
            invariant_except_break
                pick is None,
            invariant
                n == disps.len(),
                disps == display_sizes@,
                used.len() == n,
                forall|i: int| 0 <= i < n ==> used@[i] == p.contains(i),
                idx <= n,
                first_free_same(disps, p, size, 0) == first_free_same(disps, p, size, idx as int),
            ensures
                match pick {
                    Some(i) => first_free_same(disps, p, size, 0) == Some(i as int),
                    None => first_free_same(disps, p, size, 0) is None,
                },
            decreases n - idx,
        {
            if !used[idx] && display_sizes[idx].0 == size.0 && display_sizes[idx].1 == size.1 {
                pick = Some(idx);
                break;
            }
            idx = idx + 1;
        }
        if pick.is_none() {
            let mut j: usize = 0;
            while j < n
                invariant_except_break
                    pick is None,
                invariant
                    n == disps.len(),
                    used.len() == n,
                    forall|i: int| 0 <= i < n ==> used@[i] == p.contains(i),
                    j <= n,
                    first_free(n as int, p, 0) == first_free(n as int, p, j as int),
                ensures
                    match pick {
                        Some(i) => first_free(n as int, p, 0) == Some(i as int),
                        None => first_free(n as int, p, 0) is None,
                    },
                decreases n - j,
            {
                if !used[j] {
                    pick = Some(j);
                    break;
                }
                j = j + 1;
            }
        }
        assert(mons.take(m + 1).drop_last() =~= mons.take(m as int));
        assert(mons.take(m + 1).last() == size);
        match pick {
            None => {
                proof {
                    lemma_greedy_none_extends(mons, disps, m + 1);
                }
                return Err(owned("无法匹配显示器截屏源"));
            },
            Some(i) => {
                proof {
                    lemma_first_free_same_found(disps, p, size, 0);
                    lemma_first_free_found(n as int, p, 0);
                }
                used.set(i, true);
                matched.push(i);
                assert(indices(matched@) =~= p.push(i as int));
                assert forall|t: int| 0 <= t < n implies used@[t] == p.push(i as int).contains(t) by {
                    if t == i {
                        assert(p.push(i as int)[p.len() as int] == t);
                    } else if p.contains(t) {
                        let w = choose|w: int| 0 <= w < p.len() && p[w] == t;
                        assert(p.push(i as int)[w] == t);
                    } else {
                        assert forall|w: int| 0 <= w < p.len() + 1 implies p.push(i as int)[w]
                            != t by {
                            if w < p.len() {
                                assert(p[w] != t);
                            }
                        }
                    }
                }
            },
        }
        m = m + 1;
    }
    assert(mons.take(m as int) =~= mons);
    Ok(matched)
}

proof fn lemma_none_free_means_all_used(n: int, used: Seq<int>, j: int)
    requires
        0 <= j,
        first_free(n, used, j) is None,
    ensures
        forall|w: int| j <= w < n ==> used.contains(w),
    decreases n - j,
{
    if j < n {
        lemma_none_free_means_all_used(n, used, j + 1);
    }
}

proof fn lemma_free_exists(n: int, used: Seq<int>)
    requires
        used.len() < n,
    ensures
        first_free(n, used, 0) is Some,
{
    if first_free(n, used, 0) is None {
        lemma_none_free_means_all_used(n, used, 0);
        lemma_int_range(0, n);
        used.lemma_cardinality_of_set();
        assert(set_int_range(0, n).subset_of(used.to_set()));
        lemma_len_subset(set_int_range(0, n), used.to_set());
    }
}

/// Pairing monitors with displays gives each monitor its own display: it
/// succeeds exactly when there are at least as many displays as monitors, and
/// then pairs every monitor, in order, with a distinct display.
pub proof fn lemma_displays_matched(mons: Seq<(u32, u32)>, disps: Seq<(u32, u32)>)
    ensures
        greedy_match(mons, disps) is Some <==> mons.len() <= disps.len(),
        greedy_match(mons, disps) matches Some(p) ==> p.len() == mons.len() && p.no_duplicates()
            && forall|i: int| 0 <= i < p.len() ==> 0 <= #[trigger] p[i] < disps.len(),
    decreases mons.len(),
{
    if mons.len() > 0 {
        lemma_displays_matched(mons.drop_last(), disps);
        if let Some(p) = greedy_match(mons.drop_last(), disps) {
            lemma_first_free_same_found(disps, p, mons.last(), 0);
            lemma_first_free_found(disps.len() as int, p, 0);
            if p.len() < disps.len() {
                lemma_free_exists(disps.len() as int, p);
            }
            if let Some(q) = greedy_match(mons, disps) {
                let i = q.last();
                assert(q == p.push(i));
                assert(!p.contains(i));
                assert forall|a: int, b: int|
                    0 <= a < q.len() && 0 <= b < q.len() && a != b implies q[a] != q[b] by {
                    if a == p.len() {
                        assert(q[b] == p[b]);
                    } else if b == p.len() {
                        assert(q[a] == p[a]);
                    }
                }
                assert(q.to_set().subset_of(set_int_range(0, disps.len() as int)));
                lemma_int_range(0, disps.len() as int);
                lemma_len_subset(q.to_set(), set_int_range(0, disps.len() as int));
                q.unique_seq_to_set();
            }
        }
    }
}

// ---------------------------------------------------------------------------
// The whole desktop
// ---------------------------------------------------------------------------
/// The least x of the monitors' positions (0 for none).
pub open spec fn least_x(ps: Seq<(i32, i32)>) -> int
    decreases ps.len(),
{
    if ps.len() == 0 {
        0
    } else if ps.len() == 1 {
        ps[0].0 as int
    } else {
        let m = least_x(ps.drop_last());
        if (ps.last().0 as int) < m {
            ps.last().0 as int
        } else {
            m
        }
    }
}

/// The least y of the monitors' positions (0 for none).
pub open spec fn least_y(ps: Seq<(i32, i32)>) -> int
    decreases ps.len(),
{
    if ps.len() == 0 {
        0
    } else if ps.len() == 1 {
        ps[0].1 as int
    } else {
        let m = least_y(ps.drop_last());
        if (ps.last().1 as int) < m {
            ps.last().1 as int
        } else {
            m
        }
    }
}

/// Where each capture lands in the desktop picture: its offset from the least
/// monitor position, and its size.
pub open spec fn placements(ps: Seq<(i32, i32)>, sizes: Seq<(u32, u32)>) -> Seq<(u32, u32, u32, u32)> {
    Seq::new(
        ps.len(),
        |i: int|
            (
                (ps[i].0 - least_x(ps)) as u32,
                (ps[i].1 - least_y(ps)) as u32,
                sizes[i].0,
                sizes[i].1,
            ),
    )
}

/// The desktop picture's width: the furthest right edge of the placements.
pub open spec fn extent_w(pl: Seq<(u32, u32, u32, u32)>) -> int
    decreases pl.len(),
{
    if pl.len() == 0 {
        0
    } else {
        let m = extent_w(pl.drop_last());
        let e = pl.last().0 + pl.last().2;
        if e > m {
            e
        } else {
            m
        }
    }
}

/// The desktop picture's height: the furthest bottom edge of the placements.
pub open spec fn extent_h(pl: Seq<(u32, u32, u32, u32)>) -> int
    decreases pl.len(),
{
    if pl.len() == 0 {
        0
    } else {
        let m = extent_h(pl.drop_last());
        let e = pl.last().1 + pl.last().3;
        if e > m {
            e
        } else {
            m
        }
    }
}

/// The copy of one placed capture into a `w × h` picture.
pub open spec fn placed(w: u32, h: u32, pl: (u32, u32, u32, u32)) -> BlitGeometry {
    BlitGeometry { dest_w: w, dest_h: h, dest_x: pl.0, dest_y: pl.1, src_w: pl.2, src_h: pl.3 }
}

/// The picture after copying the first `n` captures, in order, into a black
/// `w × h` picture.
pub open spec fn desktop_pixels(
    pl: Seq<(u32, u32, u32, u32)>,
    data: Seq<Seq<u8>>,
    w: u32,
    h: u32,
    n: int,
) -> Seq<u8>
    decreases n,
{
    if n <= 0 {
        Seq::new((w * h * 4) as nat, |k: int| 0u8)
    } else {
        blitted(desktop_pixels(pl, data, w, h, n - 1), placed(w, h, pl[n - 1]), data[n - 1])
    }
}

/// The sizes of the captures.
pub open spec fn capture_sizes(c: Seq<(u32, u32, Vec<u8>)>) -> Seq<(u32, u32)> {
    c.map_values(|t: (u32, u32, Vec<u8>)| (t.0, t.1))
}

/// The pixels of the captures.
pub open spec fn capture_data(c: Seq<(u32, u32, Vec<u8>)>) -> Seq<Seq<u8>> {
    c.map_values(|t: (u32, u32, Vec<u8>)| t.2@)
}

/// The right and bottom edges of a placement fit a `u32`.
pub open spec fn edges_fit(p: (u32, u32, u32, u32)) -> bool {
    p.0 + p.2 <= u32::MAX && p.1 + p.3 <= u32::MAX
}

/// The desktop's arithmetic stays in range: offsets fit an `i32`, right and
/// bottom edges a `u32`, the picture's bytes a `usize`, and every copy fits.
pub open spec fn desktop_fits(ps: Seq<(i32, i32)>, sizes: Seq<(u32, u32)>) -> bool {
    let pl = placements(ps, sizes);
    &&& forall|i: int| 0 <= i < ps.len() ==> #[trigger] ps[i].0 - least_x(ps) <= i32::MAX && ps[i].1
        - least_y(ps) <= i32::MAX
    &&& forall|i: int| 0 <= i < ps.len() ==> edges_fit(#[trigger] pl[i])
    &&& extent_w(pl) * extent_h(pl) * 4 <= usize::MAX
    &&& forall|i: int|
        0 <= i < ps.len() ==> blit_fits(
            #[trigger] placed(extent_w(pl) as u32, extent_h(pl) as u32, pl[i]),
        )
}

/// The message when no monitor is found.
pub open spec fn no_monitor_message() -> Seq<char> {
    "未检测到可用显示器"@
}

proof fn lemma_least_bounds(ps: Seq<(i32, i32)>)
    requires
        ps.len() > 0,
    ensures
        forall|i: int| 0 <= i < ps.len() ==> least_x(ps) <= #[trigger] ps[i].0 && least_y(ps) <= ps[i].1,
        i32::MIN <= least_x(ps) <= i32::MAX,
        i32::MIN <= least_y(ps) <= i32::MAX,
    decreases ps.len(),
{
    if ps.len() > 1 {
        let d = ps.drop_last();
        lemma_least_bounds(d);
        assert forall|i: int| 0 <= i < ps.len() implies least_x(ps) <= #[trigger] ps[i].0 && least_y(
            ps,
        ) <= ps[i].1 by {
            if i < ps.len() - 1 {
                assert(ps[i] == d[i]);
            }
        }
    }
}

proof fn lemma_extent_bounds(pl: Seq<(u32, u32, u32, u32)>)
    ensures
        forall|i: int| 0 <= i < pl.len() ==> #[trigger] pl[i].0 + pl[i].2 <= extent_w(pl) && pl[i].1
            + pl[i].3 <= extent_h(pl),
        0 <= extent_w(pl),
        0 <= extent_h(pl),
    decreases pl.len(),
{
    if pl.len() > 0 {
        let d = pl.drop_last();
        lemma_extent_bounds(d);
        assert forall|i: int| 0 <= i < pl.len() implies #[trigger] pl[i].0 + pl[i].2 <= extent_w(pl)
            && pl[i].1 + pl[i].3 <= extent_h(pl) by {
            if i < pl.len() - 1 {
                assert(pl[i] == d[i]);
            }
        }
    }
}

/// The origin of the desktop picture: the least x and the least y of the
/// monitors' positions; refused when there is no monitor.
pub fn desktop_origin(positions: &Vec<(i32, i32)>) -> (r: Result<(i32, i32), String>)
    ensures
        positions@.len() == 0 ==> is_err_with(r, no_monitor_message()),
        positions@.len() > 0 ==> (r matches Ok(o) && o.0 == least_x(positions@) && o.1 == least_y(
            positions@,
        )),
{
    if positions.len() == 0 {
        return Err(owned("未检测到可用显示器"));
    }
    let mut min_x = positions[0].0;
    let mut min_y = positions[0].1;
    let mut i: usize = 1;
    assert(positions@.take(1) =~= seq![positions@[0]]);
    while i < positions.len()
        invariant
            1 <= i <= positions@.len(),
            min_x == least_x(positions@.take(i as int)),
            min_y == least_y(positions@.take(i as int)),
        decreases positions@.len() - i,
    {
        assert(positions@.take(i + 1).drop_last() =~= positions@.take(i as int));
        if positions[i].0 < min_x {
            min_x = positions[i].0;
        }
        if positions[i].1 < min_y {
            min_y = positions[i].1;
        }
        i = i + 1;
    }
    assert(positions@.take(i as int) =~= positions@);
    Ok((min_x, min_y))
}

/// One picture of the whole desktop: each monitor's capture (in order) copied
/// into a black picture spanning all monitors, at its monitor's offset from the
/// least monitor position.
pub fn compose_desktop(positions: &Vec<(i32, i32)>, captures: &Vec<(u32, u32, Vec<u8>)>) -> (r:
    ScreenCapture)
    requires
        positions@.len() == captures@.len(),
        positions@.len() > 0,
        desktop_fits(positions@, capture_sizes(captures@)),
    ensures
        r.origin_x == least_x(positions@),
        r.origin_y == least_y(positions@),
        r.width == extent_w(placements(positions@, capture_sizes(captures@))),
        r.height == extent_h(placements(positions@, capture_sizes(captures@))),
        r.rgba@ == desktop_pixels(
            placements(positions@, capture_sizes(captures@)),
            capture_data(captures@),
            r.width,
            r.height,
            captures@.len() as int,
        ),
{
    let ghost ps = positions@;
    let ghost sizes = capture_sizes(captures@);
    let ghost pl = placements(ps, sizes);
    let ghost data = capture_data(captures@);
    let n = positions.len();
    let (min_x, min_y) = match desktop_origin(positions) {
        Ok(o) => o,
        Err(_) => {
            return ScreenCapture { origin_x: 0, origin_y: 0, width: 0, height: 0, rgba: Vec::new() };
        },
    };
    proof {
        lemma_least_bounds(ps);
        lemma_extent_bounds(pl);
    }
    let mut offsets: Vec<(u32, u32)> = Vec::new();
    let mut total_w: u32 = 0;
    let mut total_h: u32 = 0;
    let mut i: usize = 0;
    assert(pl.take(0) =~= Seq::<(u32, u32, u32, u32)>::empty());
    while i < n
        invariant
            n == ps.len(),
            ps == positions@,
            pl == placements(ps, sizes),
            sizes == capture_sizes(captures@),
            n == captures@.len(),
            min_x == least_x(ps),
            min_y == least_y(ps),
            desktop_fits(ps, sizes),
            forall|j: int| 0 <= j < ps.len() ==> least_x(ps) <= #[trigger] ps[j].0 && least_y(ps) <= ps[j].1,
            i <= n,
            offsets@.len() == i,
            forall|j: int| 0 <= j < i ==> #[trigger] offsets@[j] == (pl[j].0, pl[j].1),
            total_w == extent_w(pl.take(i as int)),
            total_h == extent_h(pl.take(i as int)),
        decreases n - i,
    {
        let p = positions[i];
        let ox = (p.0 - min_x) as u32;
        let oy = (p.1 - min_y) as u32;
        let w = captures[i].0;
        let h = captures[i].1;
        assert(pl[i as int] == (ox, oy, w, h));
        assert(edges_fit(pl[i as int]));
        let ex = ox + w;
        let ey = oy + h;
        assert(pl.take(i + 1).drop_last() =~= pl.take(i as int));
        if ex > total_w {
            total_w = ex;
        }
        if ey > total_h {
            total_h = ey;
        }
        offsets.push((ox, oy));
        i = i + 1;
    }
    assert(pl.take(n as int) =~= pl);
    let len = (total_w as usize) * (total_h as usize) * 4;
    let mut rgba: Vec<u8> = vec![0u8; len];
    assert(rgba@ =~= desktop_pixels(pl, data, total_w, total_h, 0));
    let mut k: usize = 0;
    while k < n
        invariant
            n == ps.len(),
            n == captures@.len(),
            pl == placements(ps, sizes),
            sizes == capture_sizes(captures@),
            data == capture_data(captures@),
            desktop_fits(ps, sizes),
            total_w == extent_w(pl),
            total_h == extent_h(pl),
            offsets@.len() == n,
            forall|j: int| 0 <= j < n ==> #[trigger] offsets@[j] == (pl[j].0, pl[j].1),
            k <= n,
            rgba@ == desktop_pixels(pl, data, total_w, total_h, k as int),
        decreases n - k,
    {
        let (ox, oy) = offsets[k];
        let w = captures[k].0;
        let h = captures[k].1;
        assert(extent_w(pl) as u32 == total_w && extent_h(pl) as u32 == total_h);
        assert(blit_fits(placed(extent_w(pl) as u32, extent_h(pl) as u32, pl[k as int])));
        assert(placed(total_w, total_h, pl[k as int]) == (BlitGeometry {
            dest_w: total_w,
            dest_h: total_h,
            dest_x: ox,
            dest_y: oy,
            src_w: w,
            src_h: h,
        }));
        assert(data[k as int] == captures@[k as int].2@);
        blit_rgba(&mut rgba, total_w, total_h, ox, oy, w, h, captures[k].2.as_slice());
        k = k + 1;
    }
    ScreenCapture { origin_x: min_x, origin_y: min_y, width: total_w, height: total_h, rgba }
}

/// Whether the byte offsets of one copy fit a `u32` (see `blit_fits`).
fn blit_fits_check(g: BlitGeometry) -> (b: bool)
    ensures
        b == blit_fits(g),
{
    let r: u64 = if g.dest_y >= g.dest_h {
        0
    } else if g.src_h <= g.dest_h - g.dest_y {
        g.src_h as u64
    } else {
        (g.dest_h - g.dest_y) as u64
    };
    let c: u64 = if g.dest_x >= g.dest_w {
        0
    } else if g.src_w <= g.dest_w - g.dest_x {
        g.src_w as u64
    } else {
        (g.dest_w - g.dest_x) as u64
    };
    assert(r == rows_in(g) && c == cols_in(g));
    if r == 0 || c == 0 {
        return true;
    }
    let rr = (r - 1) as u128;
    let sw = g.src_w as u128;
    assert(rr * sw <= 0xffff_ffffu128 * 0xffff_ffffu128) by (nonlinear_arith)
        requires
            rr <= 0xffff_ffff,
            sw <= 0xffff_ffff,
    ;
    let src_last: u128 = (rr * sw + (c - 1) as u128) * 4;
    let ry = (g.dest_y as u128) + rr;
    let dw = g.dest_w as u128;
    assert(ry * dw <= 0x1_ffff_ffffu128 * 0xffff_ffffu128) by (nonlinear_arith)
        requires
            ry <= 0x1_ffff_ffff,
            dw <= 0xffff_ffff,
    ;
    let dest_last: u128 = (ry * dw + g.dest_x as u128 + (c - 1) as u128) * 4;
    src_last <= 0xffff_ffffu128 && dest_last <= 0xffff_ffffu128
}

/// Whether the desktop picture of `captures` placed at `positions` stays in
/// range (`desktop_fits`), the condition `compose_desktop` needs.
pub fn desktop_fits_captures(positions: &Vec<(i32, i32)>, captures: &Vec<(u32, u32, Vec<u8>)>) -> (b:
    bool)
    requires
        positions@.len() == captures@.len(),
        positions@.len() > 0,
    ensures
        b == desktop_fits(positions@, capture_sizes(captures@)),
{
    let ghost ps = positions@;
    let ghost sizes = capture_sizes(captures@);
    let ghost pl = placements(ps, sizes);
    let n = positions.len();
    let (min_x, min_y) = match desktop_origin(positions) {
        Ok(o) => o,
        Err(_) => {
            return false;
        },
    };
    proof {
        lemma_least_bounds(ps);
    }
    let mut offsets: Vec<(u32, u32)> = Vec::new();
    let mut total_w: u32 = 0;
    let mut total_h: u32 = 0;
    let mut i: usize = 0;
    assert(pl.take(0) =~= Seq::<(u32, u32, u32, u32)>::empty());
    while i < n
        invariant
            n == ps.len(),
            ps == positions@,
            pl == placements(ps, sizes),
            sizes == capture_sizes(captures@),
            n == captures@.len(),
            min_x == least_x(ps),
            min_y == least_y(ps),
            forall|j: int| 0 <= j < ps.len() ==> least_x(ps) <= #[trigger] ps[j].0 && least_y(ps) <= ps[j].1,
            i <= n,
            offsets@.len() == i,
            forall|j: int| 0 <= j < i ==> #[trigger] offsets@[j] == (pl[j].0, pl[j].1),
            forall|j: int|
                0 <= j < i ==> #[trigger] ps[j].0 - least_x(ps) <= i32::MAX && ps[j].1 - least_y(ps)
                    <= i32::MAX,
            forall|j: int| 0 <= j < i ==> edges_fit(#[trigger] pl[j]),
            total_w == extent_w(pl.take(i as int)),
            total_h == extent_h(pl.take(i as int)),
        decreases n - i,
    {
        let p = positions[i];
        let dx = (p.0 as i64) - (min_x as i64);
        let dy = (p.1 as i64) - (min_y as i64);
        if dx > 0x7fff_ffff || dy > 0x7fff_ffff {
            assert(!(ps[i as int].0 - least_x(ps) <= i32::MAX && ps[i as int].1 - least_y(ps)
                <= i32::MAX));
            return false;
        }
        let ox = dx as u32;
        let oy = dy as u32;
        let w = captures[i].0;
        let h = captures[i].1;
        assert(sizes[i as int] == (w, h));
        assert(pl[i as int] == (ox, oy, w, h));
        if (ox as u64) + (w as u64) > 0xffff_ffff || (oy as u64) + (h as u64) > 0xffff_ffff {
            assert(!edges_fit(pl[i as int]));
            return false;
        }
        let ex = ox + w;
        let ey = oy + h;
        assert(pl.take(i + 1).drop_last() =~= pl.take(i as int));
        if ex > total_w {
            total_w = ex;
        }
        if ey > total_h {
            total_h = ey;
        }
        offsets.push((ox, oy));
        i = i + 1;
    }
    assert(pl.take(n as int) =~= pl);
    let tw = total_w as u128;
    let th = total_h as u128;
    assert(tw * th <= 0xffff_ffffu128 * 0xffff_ffffu128) by (nonlinear_arith)
        requires
            tw <= 0xffff_ffff,
            th <= 0xffff_ffff,
    ;
    let area: u128 = tw * th * 4;
    if area > (usize::MAX as u128) {
        return false;
    }
    let mut k: usize = 0;
    while k < n
        invariant
            n == ps.len(),
            n == captures@.len(),
            pl == placements(ps, sizes),
            sizes == capture_sizes(captures@),
            total_w == extent_w(pl),
            total_h == extent_h(pl),
            offsets@.len() == n,
            forall|j: int| 0 <= j < n ==> #[trigger] offsets@[j] == (pl[j].0, pl[j].1),
            k <= n,
            forall|j: int|
                0 <= j < k ==> blit_fits(
                    #[trigger] placed(extent_w(pl) as u32, extent_h(pl) as u32, pl[j]),
                ),
            ps == positions@,
            forall|j: int|
                0 <= j < n ==> #[trigger] ps[j].0 - least_x(ps) <= i32::MAX && ps[j].1 - least_y(ps)
                    <= i32::MAX,
            forall|j: int| 0 <= j < n ==> edges_fit(#[trigger] pl[j]),
            extent_w(pl) * extent_h(pl) * 4 <= usize::MAX,
        decreases n - k,
    {
        let (ox, oy) = offsets[k];
        let g = BlitGeometry {
            dest_w: total_w,
            dest_h: total_h,
            dest_x: ox,
            dest_y: oy,
            src_w: captures[k].0,
            src_h: captures[k].1,
        };
        assert(sizes[k as int] == (captures@[k as int].0, captures@[k as int].1));
        assert(g == placed(extent_w(pl) as u32, extent_h(pl) as u32, pl[k as int]));
        if !blit_fits_check(g) {
            assert(!blit_fits(placed(extent_w(pl) as u32, extent_h(pl) as u32, pl[k as int])));
            return false;
        }
        k = k + 1;
    }
    true
}

// ---------------------------------------------------------------------------
// Monitors and windows
// ---------------------------------------------------------------------------
/// A monitor's place and size, and its scale as a whole percentage (`None` for
/// 100%).
#[derive(Debug)]
pub struct MonitorGeometry {
    pub x: i32,
    pub y: i32,
    pub width: u32,
    pub height: u32,
    pub scale_percent: Option<u32>,
}

/// Whether the monitor at `i` is the primary one: as its display says, else
/// the first monitor.
pub open spec fn primary_at(display_primary: Seq<bool>, i: int) -> bool {
    if i < display_primary.len() {
        display_primary[i]
    } else {
        i == 0
    }
}

/// The monitors as the picker lists them, in order, with the primary flag of
/// the display paired with each.
pub fn describe_monitors(monitors: &Vec<MonitorGeometry>, display_primary: &Vec<bool>) -> (r: Vec<
    MonitorInfo,
>)
    ensures
        r@.len() == monitors@.len(),
        forall|i: int|
            0 <= i < r@.len() ==> {
                let m = monitors@[i];
                let prim = primary_at(display_primary@, i);
                &&& #[trigger] r@[i].index == i as u32
                &&& r@[i].label@ == monitor_label_text(
                    i as nat,
                    m.width,
                    m.height,
                    m.scale_percent,
                    prim,
                )
                &&& r@[i].x == m.x
                &&& r@[i].y == m.y
                &&& r@[i].width == m.width
                &&& r@[i].height == m.height
                &&& r@[i].is_primary == prim
            },
{
    let mut r: Vec<MonitorInfo> = Vec::new();
    let mut i: usize = 0;
    while i < monitors.len()
        invariant
            i <= monitors@.len(),
            r@.len() == i,
            forall|j: int|
                0 <= j < i ==> {
                    let m = monitors@[j];
                    let prim = primary_at(display_primary@, j);
                    &&& #[trigger] r@[j].index == j as u32
                    &&& r@[j].label@ == monitor_label_text(
                        j as nat,
                        m.width,
                        m.height,
                        m.scale_percent,
                        prim,
                    )
                    &&& r@[j].x == m.x
                    &&& r@[j].y == m.y
                    &&& r@[j].width == m.width
                    &&& r@[j].height == m.height
                    &&& r@[j].is_primary == prim
                },
        decreases monitors@.len() - i,
    {
        let m = &monitors[i];
        let is_primary = if i < display_primary.len() {
            display_primary[i]
        } else {
            i == 0
        };
        let label = monitor_label(i, m.width, m.height, m.scale_percent, is_primary);
        r.push(
            MonitorInfo {
                index: i as u32,
                label,
                x: m.x,
                y: m.y,
                width: m.width,
                height: m.height,
                is_primary,
            },
        );
        i = i + 1;
    }
    r
}

/// The message for a monitor without a display to capture it.
pub open spec fn no_capture_source_message(index: u32) -> Seq<char> {
    "显示器 "@ + decimal(index as nat) + " 截屏源不存在"@
}

/// The position of monitor `index` among `monitor_count` monitors paired with
/// `display_count` displays.
pub fn locate_display(index: u32, monitor_count: usize, display_count: usize) -> (r: Result<
    usize,
    String,
>)
    ensures
        index >= monitor_count ==> is_err_with(r, "显示器 "@ + decimal(index as nat) + " 不存在"@),
        index < monitor_count && index >= display_count ==> is_err_with(
            r,
            no_capture_source_message(index),
        ),
        index < monitor_count && index < display_count ==> r == Ok::<usize, String>(
            index as usize,
        ),
{
    if index as usize >= monitor_count {
        let mut m = owned("显示器 ");
        push_decimal(&mut m, index as u64);
        m.append(" 不存在");
        return Err(m);
    }
    if index as usize >= display_count {
        let mut m = owned("显示器 ");
        push_decimal(&mut m, index as u64);
        m.append(" 截屏源不存在");
        return Err(m);
    }
    Ok(index as usize)
}

/// The ids of the on-screen windows that belong to other processes: a window
/// whose owner is unknown counts as foreign, one without a positive window
/// number is left out.
pub open spec fn foreign_window_ids(windows: Seq<(Option<i32>, Option<i32>)>, own_pid: i32) -> Seq<i32>
    decreases windows.len(),
{
    if windows.len() == 0 {
        Seq::empty()
    } else {
        let prev = foreign_window_ids(windows.drop_last(), own_pid);
        let w = windows.last();
        let owner = match w.0 {
            Some(p) => p,
            None => -1i32,
        };
        if owner == own_pid {
            prev
        } else {
            match w.1 {
                Some(id) => if id > 0 {
                    prev.push(id)
                } else {
                    prev
                },
                None => prev,
            }
        }
    }
}

/// The message when every window on screen belongs to this process.
pub open spec fn no_foreign_window_message() -> Seq<char> {
    "截屏失败：排除本应用后无可用窗口层（请确认桌面可见）"@
}

/// The windows to composite a capture from, leaving out this process's own
/// (given as owner pid and window number, each when known).
pub fn windows_excluding_own(windows: &Vec<(Option<i32>, Option<i32>)>, own_pid: i32) -> (r: Result<
    Vec<i32>,
    String,
>)
    ensures
        foreign_window_ids(windows@, own_pid).len() == 0 ==> is_err_with(
            r,
            no_foreign_window_message(),
        ),
        foreign_window_ids(windows@, own_pid).len() > 0 ==> (r matches Ok(v) && v@
            == foreign_window_ids(windows@, own_pid)),
{
    let mut ids: Vec<i32> = Vec::new();
    let mut i: usize = 0;
    while i < windows.len()
        invariant
            i <= windows@.len(),
            ids@ == foreign_window_ids(windows@.take(i as int), own_pid),
        decreases windows@.len() - i,
    {
        assert(windows@.take(i + 1).drop_last() =~= windows@.take(i as int));
        let (owner, number) = windows[i];
        let owner_pid = match owner {
            Some(p) => p,
            None => -1,
        };
        if owner_pid != own_pid {
            match number {
                Some(id) => {
                    if id > 0 {
                        ids.push(id);
                    }
                },
                None => {},
            }
        }
        i = i + 1;
    }
    assert(windows@.take(i as int) =~= windows@);
    if ids.len() == 0 {
        return Err(owned("截屏失败：排除本应用后无可用窗口层（请确认桌面可见）"));
    }
    Ok(ids)
}

// ---------------------------------------------------------------------------
// Monitor order
// ---------------------------------------------------------------------------
/// `a` comes before `b` by x, then y.
pub open spec fn position_before(a: (i32, i32), b: (i32, i32)) -> bool {
    a.0 < b.0 || (a.0 == b.0 && a.1 < b.1)
}

/// The first place in `order` whose monitor comes after position `key`.
pub open spec fn first_after(order: Seq<int>, ps: Seq<(i32, i32)>, key: (i32, i32)) -> int
    decreases order.len(),
{
    if order.len() == 0 {
        0
    } else if position_before(key, ps[order[0]]) {
        0
    } else {
        1 + first_after(order.drop_first(), ps, key)
    }
}

/// The first `n` monitors ordered by position (x, then y); monitors at the
/// same position keep their order.
pub open spec fn position_order(ps: Seq<(i32, i32)>, n: int) -> Seq<int>
    decreases n,
{
    if n <= 0 {
        Seq::empty()
    } else {
        let o = position_order(ps, n - 1);
        o.insert(first_after(o, ps, ps[n - 1]), n - 1)
    }
}

proof fn lemma_first_after_at(order: Seq<int>, ps: Seq<(i32, i32)>, key: (i32, i32), p: int)
    requires
        0 <= p <= order.len(),
        forall|j: int| 0 <= j < p ==> !position_before(key, #[trigger] ps[order[j]]),
        p == order.len() || position_before(key, ps[order[p]]),
    ensures
        first_after(order, ps, key) == p,
    decreases p,
{
    if p > 0 {
        let d = order.drop_first();
        assert(!position_before(key, ps[order[0]]));
        assert forall|j: int| 0 <= j < p - 1 implies !position_before(key, #[trigger] ps[d[j]]) by {
            assert(d[j] == order[j + 1]);
        }
        if p < order.len() {
            assert(d[p - 1] == order[p]);
        }
        lemma_first_after_at(d, ps, key, p - 1);
    }
}

/// The positions of the monitors in order of place: by x, then y, keeping the
/// given order of monitors at the same place.
pub fn monitor_order(positions: &Vec<(i32, i32)>) -> (r: Vec<usize>)
    ensures
        indices(r@) == position_order(positions@, positions@.len() as int),
        r@.len() == positions@.len(),
        forall|i: int| 0 <= i < r@.len() ==> #[trigger] r@[i] < positions@.len(),
        forall|i: int, j: int| 0 <= i < j < r@.len() ==> r@[i] != r@[j],
        forall|i: int, j: int|
            0 <= i < j < r@.len() ==> {
                let a = positions@[#[trigger] r@[i] as int];
                let b = positions@[#[trigger] r@[j] as int];
                a.0 < b.0 || (a.0 == b.0 && a.1 <= b.1)
            },
{
    let ghost ps = positions@;
    let mut order: Vec<usize> = Vec::new();
    let mut n: usize = 0;
    assert(indices(order@) =~= Seq::<int>::empty());
    while n < positions.len()
        invariant
            ps == positions@,
            n <= ps.len(),
            indices(order@) == position_order(ps, n as int),
            forall|j: int| 0 <= j < order@.len() ==> #[trigger] order@[j] < n,
        decreases ps.len() - n,
    {
        let key = positions[n];
        let mut pos: usize = 0;
        while pos < order.len() && !(key.0 < positions[order[pos]].0 || (key.0
            == positions[order[pos]].0 && key.1 < positions[order[pos]].1))
            invariant
                ps == positions@,
                pos <= order@.len(),
                forall|j: int| 0 <= j < order@.len() ==> #[trigger] order@[j] < n,
                n < ps.len(),
                forall|j: int|
                    0 <= j < pos ==> !position_before(key, #[trigger] ps[indices(order@)[j]]),
            decreases order@.len() - pos,
        {
            pos = pos + 1;
        }
        proof {
            lemma_first_after_at(indices(order@), ps, key, pos as int);
        }
        let ghost before = order@;
        order.insert(pos, n);
        proof {
            assert(indices(order@) =~= indices(before).insert(pos as int, n as int));
            assert forall|j: int| 0 <= j < order@.len() implies #[trigger] order@[j] < n + 1 by {
                if j < pos {
                    assert(order@[j] == before[j]);
                } else if j > pos {
                    assert(order@[j] == before[j - 1]);
                }
            }
        }
        n = n + 1;
    }
    proof {
        lemma_monitor_order_lexicographic(ps);
        let o = position_order(ps, ps.len() as int);
        assert forall|i: int| 0 <= i < order@.len() implies #[trigger] order@[i] < positions@.len() by {
            assert(indices(order@)[i] == o[i]);
        }
        assert forall|i: int, j: int| 0 <= i < j < order@.len() implies order@[i] != order@[j] by {
            assert(indices(order@)[i] == o[i] && indices(order@)[j] == o[j]);
        }
        assert forall|i: int, j: int| 0 <= i < j < order@.len() implies {
            let a = positions@[#[trigger] order@[i] as int];
            let b = positions@[#[trigger] order@[j] as int];
            a.0 < b.0 || (a.0 == b.0 && a.1 <= b.1)
        } by {
            assert(indices(order@)[i] == o[i] && indices(order@)[j] == o[j]);
        }
    }
    order
}

proof fn lemma_first_after_bounds(order: Seq<int>, ps: Seq<(i32, i32)>, key: (i32, i32))
    ensures
        0 <= first_after(order, ps, key) <= order.len(),
        forall|j: int|
            0 <= j < first_after(order, ps, key) ==> !position_before(key, #[trigger] ps[order[j]]),
        first_after(order, ps, key) < order.len() ==> position_before(
            key,
            ps[order[first_after(order, ps, key)]],
        ),
    decreases order.len(),
{
    if order.len() > 0 && !position_before(key, ps[order[0]]) {
        let d = order.drop_first();
        lemma_first_after_bounds(d, ps, key);
        assert forall|j: int| 0 <= j < first_after(order, ps, key) implies !position_before(
            key,
            #[trigger] ps[order[j]],
        ) by {
            if j > 0 {
                assert(order[j] == d[j - 1]);
            }
        }
    }
}

/// Ordering monitors by place lists each monitor exactly once, and no monitor
/// is listed after one that comes later by x, then y.
pub proof fn lemma_monitor_order(ps: Seq<(i32, i32)>, n: int)
    requires
        0 <= n <= ps.len(),
    ensures
        position_order(ps, n).len() == n,
        position_order(ps, n).no_duplicates(),
        forall|i: int| 0 <= i < n ==> 0 <= #[trigger] position_order(ps, n)[i] < n,
        forall|i: int, j: int|
            0 <= i < j < n ==> !position_before(
                ps[#[trigger] position_order(ps, n)[j]],
                ps[#[trigger] position_order(ps, n)[i]],
            ),
    decreases n,
{
    if n > 0 {
        lemma_monitor_order(ps, n - 1);
        let o = position_order(ps, n - 1);
        let key = ps[n - 1];
        lemma_first_after_bounds(o, ps, key);
        let p = first_after(o, ps, key);
        let r = o.insert(p, n - 1);
        assert(r == position_order(ps, n));
        assert forall|i: int| 0 <= i < n implies 0 <= #[trigger] r[i] < n by {
            if i < p {
                assert(r[i] == o[i]);
            } else if i > p {
                assert(r[i] == o[i - 1]);
            }
        }
        assert forall|a: int, b: int| 0 <= a < r.len() && 0 <= b < r.len() && a != b implies r[a]
            != r[b] by {
            if a != p && b != p {
                let a2 = if a < p {
                    a
                } else {
                    a - 1
                };
                let b2 = if b < p {
                    b
                } else {
                    b - 1
                };
                assert(r[a] == o[a2] && r[b] == o[b2]);
            } else if a == p {
                let b2 = if b < p {
                    b
                } else {
                    b - 1
                };
                assert(r[b] == o[b2]);
            } else {
                let a2 = if a < p {
                    a
                } else {
                    a - 1
                };
                assert(r[a] == o[a2]);
            }
        }
        assert forall|i: int, j: int| 0 <= i < j < n implies !position_before(
            ps[#[trigger] r[j]],
            ps[#[trigger] r[i]],
        ) by {
            if j < p {
                assert(r[i] == o[i] && r[j] == o[j]);
            } else if j == p {
                assert(r[i] == o[i]);
            } else if i < p {
                assert(r[i] == o[i] && r[j] == o[j - 1]);
            } else if i == p {
                assert(r[j] == o[j - 1]);
                if j - 1 > p {
                    assert(!position_before(ps[o[j - 1]], ps[o[p]]));
                }
            } else {
                assert(r[i] == o[i - 1] && r[j] == o[j - 1]);
            }
        }
    }
}

/// Monitors are ordered left to right, and top to bottom among those at the
/// same x: the order lists every monitor once, and for any two listed in turn the
/// first has the smaller x, or the same x and a y no greater.
pub proof fn lemma_monitor_order_lexicographic(ps: Seq<(i32, i32)>)
    ensures
        position_order(ps, ps.len() as int).len() == ps.len(),
        position_order(ps, ps.len() as int).no_duplicates(),
        forall|i: int|
            0 <= i < ps.len() ==> 0 <= #[trigger] position_order(ps, ps.len() as int)[i] < ps.len(),
        forall|i: int, j: int|
            0 <= i < j < ps.len() ==> {
                let a = ps[#[trigger] position_order(ps, ps.len() as int)[i]];
                let b = ps[#[trigger] position_order(ps, ps.len() as int)[j]];
                a.0 < b.0 || (a.0 == b.0 && a.1 <= b.1)
            },
{
    let n = ps.len() as int;
    lemma_monitor_order(ps, n);
    let o = position_order(ps, n);
    assert forall|i: int, j: int| 0 <= i < j < n implies {
        let a = ps[#[trigger] o[i]];
        let b = ps[#[trigger] o[j]];
        a.0 < b.0 || (a.0 == b.0 && a.1 <= b.1)
    } by {
        assert(!position_before(ps[o[j]], ps[o[i]]));
    }
}

// ---------------------------------------------------------------------------
// The picker window over all work areas
// ---------------------------------------------------------------------------
/// The least x of the work areas `(x, y, width, height)` (0 for none).
pub open spec fn areas_min_x(a: Seq<(i32, i32, u32, u32)>) -> int
    decreases a.len(),
{
    if a.len() == 0 {
        0
    } else if a.len() == 1 {
        a[0].0 as int
    } else {
        let m = areas_min_x(a.drop_last());
        if (a.last().0 as int) < m {
            a.last().0 as int
        } else {
            m
        }
    }
}

/// The least y of the work areas (0 for none).
pub open spec fn areas_min_y(a: Seq<(i32, i32, u32, u32)>) -> int
    decreases a.len(),
{
    if a.len() == 0 {
        0
    } else if a.len() == 1 {
        a[0].1 as int
    } else {
        let m = areas_min_y(a.drop_last());
        if (a.last().1 as int) < m {
            a.last().1 as int
        } else {
            m
        }
    }
}

/// The furthest right edge of the work areas (0 for none).
pub open spec fn areas_max_right(a: Seq<(i32, i32, u32, u32)>) -> int
    decreases a.len(),
{
    if a.len() == 0 {
        0
    } else if a.len() == 1 {
        a[0].0 + a[0].2
    } else {
        let m = areas_max_right(a.drop_last());
        if a.last().0 + a.last().2 > m {
            a.last().0 + a.last().2
        } else {
            m
        }
    }
}

/// The furthest bottom edge of the work areas (0 for none).
pub open spec fn areas_max_bottom(a: Seq<(i32, i32, u32, u32)>) -> int
    decreases a.len(),
{
    if a.len() == 0 {
        0
    } else if a.len() == 1 {
        a[0].1 + a[0].3
    } else {
        let m = areas_max_bottom(a.drop_last());
        if a.last().1 + a.last().3 > m {
            a.last().1 + a.last().3
        } else {
            m
        }
    }
}

/// The edges and the span of the work areas fit an `i32`.
pub open spec fn areas_fit(a: Seq<(i32, i32, u32, u32)>) -> bool {
    &&& forall|i: int|
        0 <= i < a.len() ==> #[trigger] a[i].2 <= i32::MAX && a[i].3 <= i32::MAX && a[i].0 + a[i].2
            <= i32::MAX && a[i].1 + a[i].3 <= i32::MAX
    &&& areas_max_right(a) - areas_min_x(a) <= i32::MAX
    &&& areas_max_bottom(a) - areas_min_y(a) <= i32::MAX
}

/// The physical rectangle the picker window covers over all work areas: its
/// top-left corner and its size, at least one pixel each way; refused when there
/// is no monitor.
pub fn work_area_span(areas: &Vec<(i32, i32, u32, u32)>) -> (r: Result<(i32, i32, i32, i32), String>)
    requires
        areas_fit(areas@),
    ensures
        areas@.len() == 0 ==> is_err_with(r, no_monitor_message()),
        areas@.len() > 0 ==> (r matches Ok(s) && s.0 == areas_min_x(areas@) && s.1 == areas_min_y(
            areas@,
        ) && s.2 == (if areas_max_right(areas@) - areas_min_x(areas@) > 1 {
            areas_max_right(areas@) - areas_min_x(areas@)
        } else {
            1
        }) && s.3 == (if areas_max_bottom(areas@) - areas_min_y(areas@) > 1 {
            areas_max_bottom(areas@) - areas_min_y(areas@)
        } else {
            1
        })),
{
    if areas.len() == 0 {
        return Err(owned("未检测到可用显示器"));
    }
    let ghost a = areas@;
    assert(a[0].2 <= i32::MAX && a[0].3 <= i32::MAX);
    let mut min_x = areas[0].0;
    let mut min_y = areas[0].1;
    let mut max_x = areas[0].0 + areas[0].2 as i32;
    let mut max_y = areas[0].1 + areas[0].3 as i32;
    assert(a.take(1) =~= seq![a[0]]);
    let mut i: usize = 1;
    while i < areas.len()
        invariant
            a == areas@,
            areas_fit(a),
            1 <= i <= a.len(),
            min_x == areas_min_x(a.take(i as int)),
            min_y == areas_min_y(a.take(i as int)),
            max_x == areas_max_right(a.take(i as int)),
            max_y == areas_max_bottom(a.take(i as int)),
        decreases a.len() - i,
    {
        assert(a.take(i + 1).drop_last() =~= a.take(i as int));
        let (x, y, w, h) = areas[i];
        assert(a[i as int].2 <= i32::MAX && a[i as int].3 <= i32::MAX);
        let right = x + w as i32;
        let bottom = y + h as i32;
        if x < min_x {
            min_x = x;
        }
        if y < min_y {
            min_y = y;
        }
        if right > max_x {
            max_x = right;
        }
        if bottom > max_y {
            max_y = bottom;
        }
        i = i + 1;
    }
    assert(a.take(i as int) =~= a);
    proof {
        lemma_areas_bounds(a);
    }
    let w = max_x - min_x;
    let h = max_y - min_y;
    Ok((min_x, min_y, if w > 1 { w } else { 1 }, if h > 1 { h } else { 1 }))
}

proof fn lemma_areas_bounds(a: Seq<(i32, i32, u32, u32)>)
    requires
        a.len() > 0,
        areas_fit(a),
    ensures
        i32::MIN <= areas_min_x(a) <= i32::MAX,
        i32::MIN <= areas_min_y(a) <= i32::MAX,
        areas_min_x(a) <= areas_max_right(a) <= i32::MAX,
        areas_min_y(a) <= areas_max_bottom(a) <= i32::MAX,
    decreases a.len(),
{
    if a.len() > 1 {
        let d = a.drop_last();
        assert(areas_fit(d)) by {
            assert forall|i: int| 0 <= i < d.len() implies #[trigger] d[i].2 <= i32::MAX && d[i].3
                <= i32::MAX && d[i].0 + d[i].2 <= i32::MAX && d[i].1 + d[i].3 <= i32::MAX by {
                assert(d[i] == a[i]);
            }
            lemma_areas_order(d);
        }
        lemma_areas_bounds(d);
        assert(a[a.len() - 1] == a.last());
    }
}

proof fn lemma_areas_order(a: Seq<(i32, i32, u32, u32)>)
    requires
        forall|i: int|
            0 <= i < a.len() ==> #[trigger] a[i].2 <= i32::MAX && a[i].3 <= i32::MAX && a[i].0
                + a[i].2 <= i32::MAX && a[i].1 + a[i].3 <= i32::MAX,
    ensures
        areas_min_x(a) <= areas_max_right(a),
        areas_min_y(a) <= areas_max_bottom(a),
        a.len() > 0 ==> areas_max_right(a) <= i32::MAX && areas_max_bottom(a) <= i32::MAX,
        a.len() > 0 ==> areas_min_x(a) >= i32::MIN && areas_min_y(a) >= i32::MIN,
    decreases a.len(),
{
    if a.len() > 1 {
        let d = a.drop_last();
        assert forall|i: int| 0 <= i < d.len() implies #[trigger] d[i].2 <= i32::MAX && d[i].3
            <= i32::MAX && d[i].0 + d[i].2 <= i32::MAX && d[i].1 + d[i].3 <= i32::MAX by {
            assert(d[i] == a[i]);
        }
        lemma_areas_order(d);
        assert(a[a.len() - 1] == a.last());
    } else if a.len() == 1 {
        assert(a[0].2 <= i32::MAX);
    }
}

} // verus!
