//! Board geometry and board-wide specification functions: row-major
//! addressing of an N×N tile sequence, the Moore neighborhood, mine
//! counting, and the board transforms the engine's contracts speak of.

use vstd::prelude::*;
use crate::tile::{Tile, TileState};

verus! {

/// `(x, y)` lies on an `n`×`n` grid.
pub open spec fn in_bounds(n: int, x: int, y: int) -> bool {
    0 <= x < n && 0 <= y < n
}

/// The tile at `(x, y)` under row-major addressing.
pub open spec fn tile_at(g: Seq<Tile>, n: int, x: int, y: int) -> Tile {
    g[y * n + x]
}

/// `(nx, ny)` is one of the up-to-8 Moore neighbors of `(x, y)`:
/// a distinct cell within Chebyshev distance one.
pub open spec fn is_neighbor(x: int, y: int, nx: int, ny: int) -> bool {
    &&& !(nx == x && ny == y)
    &&& -1 <= nx - x <= 1
    &&& -1 <= ny - y <= 1
}

/// There is a mine at `(x, y)`; cells off the grid hold none.
pub open spec fn bomb_at(g: Seq<Tile>, n: int, x: int, y: int) -> bool {
    in_bounds(n, x, y) && tile_at(g, n, x, y).is_bomb
}

/// 1 if `(x, y)` holds a mine, else 0.
pub open spec fn bomb_weight(g: Seq<Tile>, n: int, x: int, y: int) -> int {
    if bomb_at(g, n, x, y) {
        1
    } else {
        0
    }
}

/// Number of mines among the Moore neighbors of `(x, y)`.
pub open spec fn neighbor_bomb_count(g: Seq<Tile>, n: int, x: int, y: int) -> int {
    bomb_weight(g, n, x - 1, y - 1) + bomb_weight(g, n, x, y - 1) + bomb_weight(g, n, x + 1, y - 1)
        + bomb_weight(g, n, x - 1, y) + bomb_weight(g, n, x + 1, y)
        + bomb_weight(g, n, x - 1, y + 1) + bomb_weight(g, n, x, y + 1)
        + bomb_weight(g, n, x + 1, y + 1)
}

pub proof fn lemma_neighbor_bomb_count_range(g: Seq<Tile>, n: int, x: int, y: int)
    ensures
        0 <= neighbor_bomb_count(g, n, x, y) <= 8,
{
}

/// The neighbor counts depend only on where the mines are.
pub proof fn lemma_neighbor_bomb_count_same_bombs(g1: Seq<Tile>, g2: Seq<Tile>, n: int, x: int, y: int)
    requires
        g1.len() == g2.len(),
        forall|i: int| 0 <= i < g1.len() ==> g1[i].is_bomb == #[trigger] g2[i].is_bomb,
        g1.len() == n * n,
        1 <= n,
    ensures
        neighbor_bomb_count(g1, n, x, y) == neighbor_bomb_count(g2, n, x, y),
{
    assert forall|px: int, py: int| bomb_at(g1, n, px, py) == bomb_at(g2, n, px, py) by {
        if in_bounds(n, px, py) {
            lemma_grid_index(n, px, py);
        }
    }
}

/// How many tiles of `g` satisfy `p`.
pub open spec fn count_matching(g: Seq<Tile>, p: spec_fn(Tile) -> bool) -> int
    decreases g.len(),
{
    if g.len() == 0 {
        0
    } else {
        count_matching(g.drop_last(), p) + if p(g.last()) {
            1int
        } else {
            0int
        }
    }
}

pub proof fn lemma_count_matching_bounds(g: Seq<Tile>, p: spec_fn(Tile) -> bool)
    ensures
        0 <= count_matching(g, p) <= g.len(),
    decreases g.len(),
{
    if g.len() > 0 {
        lemma_count_matching_bounds(g.drop_last(), p);
    }
}

/// Replacing one tile changes the count by the difference of the two
/// tiles' contributions.
pub proof fn lemma_count_matching_update(g: Seq<Tile>, p: spec_fn(Tile) -> bool, i: int, t: Tile)
    requires
        0 <= i < g.len(),
    ensures
        count_matching(g.update(i, t), p) == count_matching(g, p) - (if p(g[i]) {
            1int
        } else {
            0int
        }) + (if p(t) {
            1int
        } else {
            0int
        }),
    decreases g.len(),
{
    let gu = g.update(i, t);
    if i == g.len() - 1 {
        assert(gu.drop_last() =~= g.drop_last());
    } else {
        assert(gu.drop_last() =~= g.drop_last().update(i, t));
        lemma_count_matching_update(g.drop_last(), p, i, t);
    }
}

/// The count is zero exactly when no tile matches.
pub proof fn lemma_count_matching_zero(g: Seq<Tile>, p: spec_fn(Tile) -> bool)
    ensures
        (count_matching(g, p) == 0) <==> (forall|i: int| 0 <= i < g.len() ==> !p(#[trigger] g[i])),
    decreases g.len(),
{
    if g.len() > 0 {
        lemma_count_matching_zero(g.drop_last(), p);
        lemma_count_matching_bounds(g.drop_last(), p);
        assert(forall|i: int| 0 <= i < g.len() - 1 ==> g.drop_last()[i] == #[trigger] g[i]);
        assert(g.last() == g[g.len() - 1]);
    }
}

/// Boards on which `p` answers alike tile by tile have equal counts.
pub proof fn lemma_count_matching_pointwise(g1: Seq<Tile>, g2: Seq<Tile>, p: spec_fn(Tile) -> bool)
    requires
        g1.len() == g2.len(),
        forall|i: int| 0 <= i < g1.len() ==> p(#[trigger] g1[i]) == p(g2[i]),
    ensures
        count_matching(g1, p) == count_matching(g2, p),
    decreases g1.len(),
{
    if g1.len() > 0 {
        assert(forall|i: int|
            0 <= i < g1.len() - 1 ==> #[trigger] g1.drop_last()[i] == g1[i] && g2.drop_last()[i]
                == g2[i]);
        lemma_count_matching_pointwise(g1.drop_last(), g2.drop_last(), p);
        assert(p(g1.last()) == p(g2.last()));
    }
}

/// Number of mines on the board.
pub open spec fn count_bombs(g: Seq<Tile>) -> int {
    count_matching(g, |t: Tile| t.is_bomb)
}

/// Number of hidden tiles on the board.
pub open spec fn count_hidden(g: Seq<Tile>) -> int {
    count_matching(g, |t: Tile| t.state == TileState::Hidden)
}

/// Number of tiles that still block a win: mine-free and not revealed
/// (hidden or flagged alike).
pub open spec fn count_uncleared(g: Seq<Tile>) -> int {
    count_matching(g, |t: Tile| !t.is_bomb && t.state != TileState::Revealed)
}

/// Every mine-free tile is revealed: the win condition.
pub open spec fn all_cleared(g: Seq<Tile>) -> bool {
    forall|i: int| 0 <= i < g.len() && !g[i].is_bomb ==> (#[trigger] g[i]).state == TileState::Revealed
}

/// `t` with its state forced to revealed.
pub open spec fn revealed(t: Tile) -> Tile {
    Tile { state: TileState::Revealed, is_bomb: t.is_bomb, neighboring_bombs: t.neighboring_bombs }
}

/// The board with every mine tile's state forced to revealed,
/// overriding hidden and flagged alike.
pub open spec fn bombs_shown(g: Seq<Tile>) -> Seq<Tile> {
    Seq::new(
        g.len(),
        |i: int|
            if g[i].is_bomb {
                revealed(g[i])
            } else {
                g[i]
            },
    )
}

/// The board with every mine-free tile's stored neighbor count set to
/// the number of mines around it; mine tiles are untouched.
pub open spec fn with_counts(g: Seq<Tile>, n: int) -> Seq<Tile> {
    Seq::new(
        g.len(),
        |i: int|
            if g[i].is_bomb {
                g[i]
            } else {
                Tile {
                    state: g[i].state,
                    is_bomb: false,
                    neighboring_bombs: neighbor_bomb_count(g, n, i % n, i / n) as u8,
                }
            },
    )
}

/// Row-major index arithmetic: `(x, y)` maps to `y * n + x`, which lies
/// inside the grid and decodes back to the same coordinates.
pub proof fn lemma_grid_index(n: int, x: int, y: int)
    requires
        0 <= x < n,
        0 <= y < n,
    ensures
        0 <= y * n + x < n * n,
        (y * n + x) % n == x,
        (y * n + x) / n == y,
{
    assert(0 <= y * n + x < n * n) by (nonlinear_arith)
        requires
            0 <= x < n,
            0 <= y < n,
    ;
    vstd::arithmetic::div_mod::lemma_fundamental_div_mod_converse(y * n + x, n, y, x);
}

/// The decoding direction: any index decodes to in-bounds coordinates
/// that encode back to it.
pub proof fn lemma_grid_coords(n: int, i: int)
    requires
        1 <= n,
        0 <= i < n * n,
    ensures
        0 <= i % n < n,
        0 <= i / n < n,
        (i / n) * n + (i % n) == i,
{
    vstd::arithmetic::div_mod::lemma_fundamental_div_mod(i, n);
    vstd::arithmetic::div_mod::lemma_mod_bound(i, n);
    vstd::arithmetic::mul::lemma_mul_is_commutative(n, i / n);
    assert(0 <= i / n < n) by (nonlinear_arith)
        requires
            1 <= n,
            0 <= i < n * n,
            i == n * (i / n) + (i % n),
            0 <= i % n < n,
    ;
}

} // verus!
