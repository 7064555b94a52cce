//! Reachability specification for flood-fill disclosure: a tile is
//! revealed by one reveal action exactly when a chain of zero-count,
//! mine-free, hidden tiles connects it to the origin.

use vstd::prelude::*;
use crate::grid::{in_bounds, is_neighbor, lemma_grid_index, revealed, tile_at};
use crate::tile::{Tile, TileState};

verus! {

/// Flood fill propagates out of `(x, y)`: the tile is on the grid,
/// still hidden, mine-free, and its stored neighbor count is zero.
pub open spec fn propagates(g: Seq<Tile>, n: int, x: int, y: int) -> bool {
    &&& in_bounds(n, x, y)
    &&& tile_at(g, n, x, y).state == TileState::Hidden
    &&& !tile_at(g, n, x, y).is_bomb
    &&& tile_at(g, n, x, y).neighboring_bombs == 0
}

/// `path` walks from `(sx, sy)` to `(tx, ty)` through consecutive Moore
/// neighbors, and every node before the last one propagates.
pub open spec fn is_path(
    g: Seq<Tile>,
    n: int,
    path: Seq<(int, int)>,
    sx: int,
    sy: int,
    tx: int,
    ty: int,
) -> bool {
    &&& path.len() >= 1
    &&& path[0] == (sx, sy)
    &&& path[path.len() - 1] == (tx, ty)
    &&& forall|k: int|
        0 <= k < path.len() - 1 ==> propagates(g, n, (#[trigger] path[k]).0, path[k].1)
    &&& forall|k: int|
        0 <= k < path.len() - 1 ==> is_neighbor(
            (#[trigger] path[k]).0,
            path[k].1,
            path[k + 1].0,
            path[k + 1].1,
        )
}

/// Some propagation chain leads from `(sx, sy)` to `(tx, ty)`.
pub open spec fn reaches(g: Seq<Tile>, n: int, sx: int, sy: int, tx: int, ty: int) -> bool {
    exists|path: Seq<(int, int)>| #[trigger] is_path(g, n, path, sx, sy, tx, ty)
}

/// Every cell reaches itself, by the one-node chain.
pub proof fn lemma_reaches_self(g: Seq<Tile>, n: int, x: int, y: int)
    ensures
        reaches(g, n, x, y, x, y),
{
    let path: Seq<(int, int)> = seq![(x, y)];
    assert(is_path(g, n, path, x, y, x, y));
}

/// A chain to a propagating cell extends to any neighbor of that cell.
pub proof fn lemma_reaches_step(
    g: Seq<Tile>,
    n: int,
    sx: int,
    sy: int,
    px: int,
    py: int,
    qx: int,
    qy: int,
)
    requires
        reaches(g, n, sx, sy, px, py),
        propagates(g, n, px, py),
        is_neighbor(px, py, qx, qy),
    ensures
        reaches(g, n, sx, sy, qx, qy),
{
    let path = choose|path: Seq<(int, int)>| #[trigger] is_path(g, n, path, sx, sy, px, py);
    let path2 = path.push((qx, qy));
    assert(is_path(g, n, path2, sx, sy, qx, qy)) by {
        assert(path2[0] == path[0]);
        assert(path2[path2.len() - 1] == (qx, qy));
        assert(path2[path2.len() - 2] == path[path.len() - 1]);
        assert forall|k: int| 0 <= k < path2.len() - 1 implies propagates(
            g,
            n,
            (#[trigger] path2[k]).0,
            path2[k].1,
        ) by {
            if k < path.len() - 1 {
                assert(path2[k] == path[k]);
            } else {
                assert(path2[k] == (px, py));
            }
        }
        assert forall|k: int| 0 <= k < path2.len() - 1 implies is_neighbor(
            (#[trigger] path2[k]).0,
            path2[k].1,
            path2[k + 1].0,
            path2[k + 1].1,
        ) by {
            if k < path.len() - 1 {
                assert(path2[k] == path[k]);
                assert(path2[k + 1] == path[k + 1]);
            } else {
                assert(path2[k] == (px, py));
                assert(path2[k + 1] == (qx, qy));
            }
        }
    }
}

/// The board after one reveal action starting at `(sx, sy)`: each tile
/// that was hidden and is reachable from the origin becomes revealed;
/// every other tile keeps its record unchanged.
pub open spec fn reveal_closure(g: Seq<Tile>, n: int, sx: int, sy: int) -> Seq<Tile> {
    Seq::new(
        g.len(),
        |i: int|
            if g[i].state == TileState::Hidden && reaches(g, n, sx, sy, i % n, i / n) {
                revealed(g[i])
            } else {
                g[i]
            },
    )
}

/// The part of a fill's loop invariant that survives to the end: tiles
/// only change by having a hidden state turn revealed, and mine flags
/// and stored counts never change.
pub open spec fn fill_frame(g0: Seq<Tile>, cur: Seq<Tile>, n: int) -> bool {
    &&& cur.len() == g0.len()
    &&& forall|x: int, y: int|
        in_bounds(n, x, y) ==> (#[trigger] tile_at(cur, n, x, y)).is_bomb == tile_at(
            g0,
            n,
            x,
            y,
        ).is_bomb
    &&& forall|x: int, y: int|
        in_bounds(n, x, y) ==> (#[trigger] tile_at(cur, n, x, y)).neighboring_bombs == tile_at(
            g0,
            n,
            x,
            y,
        ).neighboring_bombs
    &&& forall|x: int, y: int|
        in_bounds(n, x, y) ==> ((#[trigger] tile_at(cur, n, x, y)).state == tile_at(
            g0,
            n,
            x,
            y,
        ).state || (tile_at(g0, n, x, y).state == TileState::Hidden && tile_at(
            cur,
            n,
            x,
            y,
        ).state == TileState::Revealed))
}

/// `(x, y)` was hidden on the original board and is revealed now.
pub open spec fn newly_revealed(g0: Seq<Tile>, cur: Seq<Tile>, n: int, x: int, y: int) -> bool {
    &&& in_bounds(n, x, y)
    &&& tile_at(g0, n, x, y).state == TileState::Hidden
    &&& tile_at(cur, n, x, y).state == TileState::Revealed
}

/// No work is left: around every newly revealed propagating tile, no
/// neighbor is still hidden.
pub open spec fn fill_closed(g0: Seq<Tile>, cur: Seq<Tile>, n: int) -> bool {
    forall|px: int, py: int, qx: int, qy: int|
        newly_revealed(g0, cur, n, px, py) && propagates(g0, n, px, py) && in_bounds(n, qx, qy)
            && #[trigger] is_neighbor(px, py, qx, qy) ==> tile_at(cur, n, qx, qy).state
            != TileState::Hidden
}

/// Completeness of a finished fill: under the frame and closedness
/// conditions, every hidden tile with a propagation chain from the
/// origin has been revealed. Induction over the chain.
pub proof fn lemma_reachable_is_revealed(
    g0: Seq<Tile>,
    cur: Seq<Tile>,
    n: int,
    sx: int,
    sy: int,
    path: Seq<(int, int)>,
    tx: int,
    ty: int,
)
    requires
        1 <= n,
        g0.len() == n * n,
        fill_frame(g0, cur, n),
        fill_closed(g0, cur, n),
        in_bounds(n, sx, sy) && tile_at(g0, n, sx, sy).state == TileState::Hidden
            ==> newly_revealed(g0, cur, n, sx, sy),
        is_path(g0, n, path, sx, sy, tx, ty),
        in_bounds(n, tx, ty),
        tile_at(g0, n, tx, ty).state == TileState::Hidden,
    ensures
        newly_revealed(g0, cur, n, tx, ty),
    decreases path.len(),
{
    if path.len() == 1 {
        assert(path[0] == (sx, sy));
        assert(path[0] == (tx, ty));
    } else {
        let m = path.len() - 1;
        let prev = path[m - 1];
        assert(propagates(g0, n, prev.0, prev.1));
        assert(is_neighbor(prev.0, prev.1, tx, ty)) by {
            assert(path[m] == (tx, ty));
        }
        let prefix = path.take(m);
        assert(is_path(g0, n, prefix, sx, sy, prev.0, prev.1)) by {
            assert(prefix[0] == path[0]);
            assert(prefix[m - 1] == path[m - 1]);
            assert forall|k: int| 0 <= k < prefix.len() - 1 implies propagates(
                g0,
                n,
                (#[trigger] prefix[k]).0,
                prefix[k].1,
            ) by {
                assert(prefix[k] == path[k]);
            }
            assert forall|k: int| 0 <= k < prefix.len() - 1 implies is_neighbor(
                (#[trigger] prefix[k]).0,
                prefix[k].1,
                prefix[k + 1].0,
                prefix[k + 1].1,
            ) by {
                assert(prefix[k] == path[k]);
                assert(prefix[k + 1] == path[k + 1]);
            }
        }
        lemma_reachable_is_revealed(g0, cur, n, sx, sy, prefix, prev.0, prev.1);
        assert(tile_at(cur, n, tx, ty).state != TileState::Hidden);
    }
}

/// Law: the cells a reveal action can uncover are the origin plus the
/// bordering ring of the reachable zero-count region. A cell is
/// reachable exactly when it is the origin itself, or a Moore neighbor
/// of some reachable propagating (hidden, mine-free, zero-count) cell —
/// so nonzero-count border cells are uncovered but never propagate
/// further.
pub proof fn lemma_reaches_ring(g: Seq<Tile>, n: int, sx: int, sy: int, tx: int, ty: int)
    ensures
        reaches(g, n, sx, sy, tx, ty) <==> ((tx == sx && ty == sy) || exists|qx: int, qy: int|
            reaches(g, n, sx, sy, qx, qy) && propagates(g, n, qx, qy) && #[trigger] is_neighbor(
                qx,
                qy,
                tx,
                ty,
            )),
{
    if reaches(g, n, sx, sy, tx, ty) {
        let path = choose|path: Seq<(int, int)>| #[trigger] is_path(g, n, path, sx, sy, tx, ty);
        if path.len() == 1 {
            assert(path[0] == (sx, sy));
            assert(path[0] == (tx, ty));
        } else {
            let m = path.len() - 1;
            let prev = path[m - 1];
            assert(propagates(g, n, prev.0, prev.1));
            assert(is_neighbor(prev.0, prev.1, tx, ty)) by {
                assert(path[m] == (tx, ty));
            }
            let prefix = path.take(m);
            assert(is_path(g, n, prefix, sx, sy, prev.0, prev.1)) by {
                assert(prefix[0] == path[0]);
                assert(prefix[m - 1] == path[m - 1]);
                assert forall|k: int| 0 <= k < prefix.len() - 1 implies propagates(
                    g,
                    n,
                    (#[trigger] prefix[k]).0,
                    prefix[k].1,
                ) by {
                    assert(prefix[k] == path[k]);
                }
                assert forall|k: int| 0 <= k < prefix.len() - 1 implies is_neighbor(
                    (#[trigger] prefix[k]).0,
                    prefix[k].1,
                    prefix[k + 1].0,
                    prefix[k + 1].1,
                ) by {
                    assert(prefix[k] == path[k]);
                    assert(prefix[k + 1] == path[k + 1]);
                }
            }
            assert(reaches(g, n, sx, sy, prev.0, prev.1));
        }
    }
    if tx == sx && ty == sy {
        lemma_reaches_self(g, n, sx, sy);
    } else if exists|qx: int, qy: int|
        reaches(g, n, sx, sy, qx, qy) && propagates(g, n, qx, qy) && #[trigger] is_neighbor(
            qx,
            qy,
            tx,
            ty,
        ) {
        let (qx, qy) = choose|qx: int, qy: int|
            reaches(g, n, sx, sy, qx, qy) && propagates(g, n, qx, qy) && #[trigger] is_neighbor(
                qx,
                qy,
                tx,
                ty,
            );
        lemma_reaches_step(g, n, sx, sy, qx, qy, tx, ty);
    }
}

/// Revealing one currently hidden tile preserves the fill frame.
pub proof fn lemma_fill_frame_reveal(g0: Seq<Tile>, cur: Seq<Tile>, n: int, x: int, y: int)
    requires
        1 <= n,
        g0.len() == n * n,
        cur.len() == g0.len(),
        fill_frame(g0, cur, n),
        in_bounds(n, x, y),
        tile_at(cur, n, x, y).state == TileState::Hidden,
    ensures
        fill_frame(g0, cur.update(y * n + x, revealed(tile_at(cur, n, x, y))), n),
{
    let cur2 = cur.update(y * n + x, revealed(tile_at(cur, n, x, y)));
    lemma_grid_index(n, x, y);
    assert forall|px: int, py: int| in_bounds(n, px, py) implies #[trigger] tile_at(cur2, n, px, py)
        == (if px == x && py == y {
        revealed(tile_at(cur, n, x, y))
    } else {
        tile_at(cur, n, px, py)
    }) by {
        lemma_grid_index(n, px, py);
    }
}

/// Sequence membership survives a push.
pub proof fn lemma_push_contains<T>(s: Seq<T>, e: T, u: T)
    requires
        s.contains(u),
    ensures
        s.push(e).contains(u),
{
    let k = choose|k: int| 0 <= k < s.len() && s[k] == u;
    assert(s.push(e)[k] == u);
}

/// Membership of anything but the last element survives dropping it.
pub proof fn lemma_drop_last_contains<T>(s: Seq<T>, u: T)
    requires
        s.contains(u),
        s.len() >= 1,
        u != s[s.len() - 1],
    ensures
        s.drop_last().contains(u),
{
    let k = choose|k: int| 0 <= k < s.len() && s[k] == u;
    assert(s.drop_last()[k] == u);
}

} // verus!
