//! The game engine: one grid, one selection, a status, and the
//! deferred-placement / flood-fill / win-lose rules over them.

use vstd::prelude::*;
use vstd::pervasive::VecAdditionalExecFns;
use crate::grid::{
    all_cleared, bombs_shown, count_bombs, in_bounds, is_neighbor,
    lemma_count_matching_bounds, lemma_count_matching_pointwise, lemma_count_matching_update,
    lemma_count_matching_zero,
    lemma_grid_coords, lemma_grid_index, lemma_neighbor_bomb_count_range,
    lemma_neighbor_bomb_count_same_bombs, neighbor_bomb_count, revealed, tile_at, with_counts,
};
use crate::flood::{
    fill_closed, fill_frame, is_path, lemma_drop_last_contains, lemma_fill_frame_reveal,
    lemma_reachable_is_revealed, lemma_reaches_self, lemma_reaches_step, newly_revealed,
    propagates, reaches, reveal_closure,
};
use crate::grid::{count_hidden, count_uncleared};
use crate::rng::{xorshift64, Rng};
use crate::tile::{toggled, GameStatus, Tile, TileState, Vec2};

verus! {

/// `(x, y)` lies in the safe zone of `p`: the cell `p` itself or one of
/// its Moore neighbors. Mine placement never puts a mine here.
pub open spec fn in_safe_zone(p: Vec2, x: int, y: int) -> bool {
    -1 <= x - p.x <= 1 && -1 <= y - p.y <= 1
}

/// What the rejection-sampling placement loop computes: starting from
/// board `g` and generator state `seed`, draw an `x` and then a `y`
/// below `n`, plant a mine there unless the cell is in the safe zone or
/// already mined, and repeat until `target` mines are placed or the
/// attempt budget runs out. Returns the board and the generator state
/// left behind.
pub open spec fn plant_rec(
    g: Seq<Tile>,
    n: int,
    seed: u64,
    placed: int,
    target: int,
    attempts: int,
    max_attempts: int,
    safe: Vec2,
) -> (Seq<Tile>, u64)
    decreases max_attempts - attempts,
{
    if placed >= target || attempts >= max_attempts {
        (g, seed)
    } else {
        let s1 = xorshift64(seed);
        let s2 = xorshift64(s1);
        let x = (s1 % (n as u64)) as int;
        let y = (s2 % (n as u64)) as int;
        if !in_safe_zone(safe, x, y) && !tile_at(g, n, x, y).is_bomb {
            let t = tile_at(g, n, x, y);
            plant_rec(
                g.update(
                    y * n + x,
                    Tile { state: t.state, is_bomb: true, neighboring_bombs: t.neighboring_bombs },
                ),
                n,
                s2,
                placed + 1,
                target,
                attempts + 1,
                max_attempts,
                safe,
            )
        } else {
            plant_rec(g, n, s2, placed, target, attempts + 1, max_attempts, safe)
        }
    }
}

/// Whether `(x, y)` lies in the safe zone of `p`, computed without
/// underflowing the unsigned coordinates.
fn is_safe_at(p: Vec2, x: usize, y: usize) -> (r: bool)
    ensures
        r == in_safe_zone(p, x as int, y as int),
{
    let dx_ok = if x >= p.x {
        x - p.x <= 1
    } else {
        p.x - x <= 1
    };
    let dy_ok = if y >= p.y {
        y - p.y <= 1
    } else {
        p.y - y <= 1
    };
    dx_ok && dy_ok
}

/// The whole engine state. Fields are public so that the surrounding
/// application can read the board for rendering; every transition goes
/// through the methods below.
pub struct Game {
    /// Grid extent N: the board is N×N, row-major in `grid`.
    pub size: usize,
    /// How many mines placement aims for.
    pub bomb_count: usize,
    pub grid: Vec<Tile>,
    pub selection: Vec2,
    pub status: GameStatus,
    pub is_first_move: bool,
    pub rng: Rng,
}

impl Game {
    /// Structural well-formedness: the board really is size×size and the
    /// selection is clamped to it. The size bound keeps N² inside usize
    /// on every platform, and the budget bound keeps the placement
    /// attempt budget (ten draws per requested mine) inside usize.
    pub open spec fn wf(self) -> bool {
        &&& 1 <= self.size <= 46340
        &&& self.grid@.len() == self.size * self.size
        &&& self.selection.x < self.size
        &&& self.selection.y < self.size
        &&& self.bomb_count * 10 <= usize::MAX
    }

    /// Before the first reveal no mine has been planted yet. Established
    /// at construction and maintained by every transition; mine placement
    /// relies on it.
    pub open spec fn pristine_if_first(self) -> bool {
        self.is_first_move ==> forall|i: int|
            0 <= i < self.grid@.len() ==> !(#[trigger] self.grid@[i]).is_bomb
    }

    /// A fresh game: all tiles hidden and mine-free, the selection at the
    /// center, status `Playing`, placement deferred to the first reveal.
    pub fn new(size: usize, bomb_count: usize, seed: u64) -> (g: Game)
        requires
            1 <= size <= 46340,
            bomb_count * 10 <= usize::MAX,
            seed != 0,
        ensures
            g.wf(),
            g.pristine_if_first(),
            g.size == size,
            g.bomb_count == bomb_count,
            forall|i: int|
                0 <= i < g.grid@.len() ==> #[trigger] g.grid@[i] == (Tile {
                    state: TileState::Hidden,
                    is_bomb: false,
                    neighboring_bombs: 0,
                }),
            g.selection.x == size / 2,
            g.selection.y == size / 2,
            g.status == GameStatus::Playing,
            g.is_first_move,
            g.rng.seed == seed,
    {
        proof {
            assert(size * size <= 2147395600) by (nonlinear_arith)
                requires
                    size <= 46340,
            ;
        }
        let total = size * size;
        let mut grid: Vec<Tile> = Vec::new();
        let mut i: usize = 0;
        while i < total
            invariant
                i <= total,
                grid@.len() == i,
                forall|j: int|
                    0 <= j < i ==> #[trigger] grid@[j] == (Tile {
                        state: TileState::Hidden,
                        is_bomb: false,
                        neighboring_bombs: 0,
                    }),
            decreases total - i,
        {
            grid.push(Tile::new());
            i += 1;
        }
        Game {
            size,
            bomb_count,
            grid,
            selection: Vec2 { x: size / 2, y: size / 2 },
            status: GameStatus::Playing,
            is_first_move: true,
            rng: Rng::new(seed),
        }
    }

    /// Read the tile at `(x, y)`.
    pub fn tile(&self, x: usize, y: usize) -> (t: Tile)
        requires
            self.wf(),
            x < self.size,
            y < self.size,
        ensures
            t == tile_at(self.grid@, self.size as int, x as int, y as int),
    {
        proof {
            lemma_grid_index(self.size as int, x as int, y as int);
            assert(self.size * self.size <= 2147395600) by (nonlinear_arith)
                requires
                    self.size <= 46340,
            ;
        }
        self.grid[y * self.size + x]
    }

    /// Plant or clear a mine at `(x, y)` without touching anything else.
    /// Scenario boards with a chosen layout are built from this.
    pub fn set_bomb(&mut self, x: usize, y: usize, bomb: bool)
        requires
            old(self).wf(),
            x < old(self).size,
            y < old(self).size,
        ensures
            final(self).wf(),
            final(self).grid@ == old(self).grid@.update(
                y as int * old(self).size as int + x as int,
                (Tile {
                    state: tile_at(old(self).grid@, old(self).size as int, x as int, y as int).state,
                    is_bomb: bomb,
                    neighboring_bombs: tile_at(
                        old(self).grid@,
                        old(self).size as int,
                        x as int,
                        y as int,
                    ).neighboring_bombs,
                }),
            ),
            final(self).size == old(self).size,
            final(self).bomb_count == old(self).bomb_count,
            final(self).selection == old(self).selection,
            final(self).status == old(self).status,
            final(self).is_first_move == old(self).is_first_move,
            final(self).rng == old(self).rng,
    {
        proof {
            lemma_grid_index(self.size as int, x as int, y as int);
            assert(self.size * self.size <= 2147395600) by (nonlinear_arith)
                requires
                    self.size <= 46340,
            ;
        }
        let idx = y * self.size + x;
        let t = self.grid[idx];
        self.grid.set(idx, Tile { state: t.state, is_bomb: bomb, neighboring_bombs: t.neighboring_bombs });
    }

    /// The Moore neighborhood of `(x, y)` clipped to the grid, in
    /// row-major order: exactly the in-bounds neighbors, each once.
    pub fn get_neighbors(&self, x: usize, y: usize) -> (r: Vec<Vec2>)
        requires
            self.wf(),
            x < self.size,
            y < self.size,
        ensures
            forall|k: int|
                0 <= k < r@.len() ==> in_bounds(
                    self.size as int,
                    (#[trigger] r@[k]).x as int,
                    r@[k].y as int,
                ) && is_neighbor(x as int, y as int, r@[k].x as int, r@[k].y as int),
            forall|px: int, py: int|
                in_bounds(self.size as int, px, py) && #[trigger] is_neighbor(
                    x as int,
                    y as int,
                    px,
                    py,
                ) ==> r@.contains(Vec2 { x: px as usize, y: py as usize }),
            forall|i: int, j: int| 0 <= i < j < r@.len() ==> #[trigger] r@[i] != #[trigger] r@[j],
            r@.len() <= 8,
    {
        let n = self.size;
        let mut r: Vec<Vec2> = Vec::new();
        let mut d: usize = 0;
        while d < 9
            invariant
                n == self.size,
                self.wf(),
                x < n,
                y < n,
                d <= 9,
                r@.len() + (if d >= 5 {
                    1int
                } else {
                    0int
                }) <= d,
                forall|k: int|
                    0 <= k < r@.len() ==> in_bounds(
                        n as int,
                        (#[trigger] r@[k]).x as int,
                        r@[k].y as int,
                    ) && is_neighbor(x as int, y as int, r@[k].x as int, r@[k].y as int),
                forall|px: int, py: int|
                    in_bounds(n as int, px, py) && #[trigger] is_neighbor(x as int, y as int, px, py)
                        && (py - y as int + 1) * 3 + (px - x as int + 1) < d ==> r@.contains(
                        Vec2 { x: px as usize, y: py as usize },
                    ),
                forall|i: int|
                    0 <= i < r@.len() ==> ((#[trigger] r@[i]).y as int - y as int + 1) * 3 + (
                    r@[i].x as int - x as int + 1) < d,
                forall|i: int, j: int| 0 <= i < j < r@.len() ==> #[trigger] r@[i] != #[trigger] r@[j],
            decreases 9 - d,
        {
            let ghost r_pre = r@;
            if d != 4 {
                let dx = d % 3;
                let dy = d / 3;
                proof {
                    vstd::arithmetic::div_mod::lemma_fundamental_div_mod(d as int, 3);
                    vstd::arithmetic::div_mod::lemma_mod_bound(d as int, 3);
                }
                if x + dx >= 1 && y + dy >= 1 && x + dx - 1 < n && y + dy - 1 < n {
                    r.push(Vec2 { x: x + dx - 1, y: y + dy - 1 });
                }
            }
            proof {
                assert forall|px: int, py: int|
                    in_bounds(n as int, px, py) && #[trigger] is_neighbor(
                        x as int,
                        y as int,
                        px,
                        py,
                    ) && (py - y as int + 1) * 3 + (px - x as int + 1) < d + 1 implies r@.contains(
                    Vec2 { x: px as usize, y: py as usize },
                ) by {
                    let ox = px - x as int + 1;
                    let oy = py - y as int + 1;
                    if oy * 3 + ox < d {
                        // handled by an earlier iteration
                        assert(r_pre.contains(Vec2 { x: px as usize, y: py as usize }));
                        if r@ != r_pre {
                            crate::flood::lemma_push_contains(
                                r_pre,
                                r@[r@.len() - 1],
                                Vec2 { x: px as usize, y: py as usize },
                            );
                            assert(r@ =~= r_pre.push(r@[r@.len() - 1]));
                        }
                    } else {
                        // this very candidate: decode its offset index
                        vstd::arithmetic::div_mod::lemma_fundamental_div_mod_converse(
                            d as int,
                            3,
                            oy,
                            ox,
                        );
                        assert(r@[r@.len() - 1] == Vec2 { x: px as usize, y: py as usize });
                    }
                }
            }
            d += 1;
        }
        r
    }

    /// Store, in every mine-free tile, the count of mines around it:
    /// the final step of the placement phase, also used to finish
    /// scenario boards built with `set_bomb`.
    pub fn compute_neighbor_counts(&mut self)
        requires
            old(self).wf(),
        ensures
            final(self).wf(),
            final(self).grid@ == with_counts(old(self).grid@, old(self).size as int),
            final(self).size == old(self).size,
            final(self).bomb_count == old(self).bomb_count,
            final(self).selection == old(self).selection,
            final(self).status == old(self).status,
            final(self).is_first_move == old(self).is_first_move,
            final(self).rng == old(self).rng,
    {
        let ghost g0 = self.grid@;
        let ghost n_int = self.size as int;
        let ghost sel0 = self.selection;
        let ghost st0 = self.status;
        let ghost fm0 = self.is_first_move;
        let ghost rng0 = self.rng;
        let ghost bc0 = self.bomb_count;
        let n = self.size;
        let total = self.grid.len();
        let mut i: usize = 0;
        while i < total
            invariant
                self.wf(),
                self.size == n,
                n_int == n as int,
                total == self.grid@.len(),
                self.grid@.len() == g0.len(),
                i <= total,
                self.selection == sel0,
                self.status == st0,
                self.is_first_move == fm0,
                self.rng == rng0,
                self.bomb_count == bc0,
                forall|j: int|
                    0 <= j < g0.len() ==> (#[trigger] self.grid@[j]).is_bomb == g0[j].is_bomb,
                forall|j: int| i <= j < g0.len() ==> #[trigger] self.grid@[j] == g0[j],
                forall|j: int| 0 <= j < i ==> #[trigger] self.grid@[j] == with_counts(g0, n_int)[j],
            decreases total - i,
        {
            let x = i % n;
            let y = i / n;
            proof {
                lemma_grid_coords(n_int, i as int);
            }
            let t = self.grid[i];
            if !t.is_bomb {
                let c = self.count_neighbor_bombs(x, y);
                proof {
                    lemma_neighbor_bomb_count_same_bombs(self.grid@, g0, n_int, x as int, y as int);
                    lemma_neighbor_bomb_count_range(g0, n_int, x as int, y as int);
                }
                self.grid.set(i, Tile { state: t.state, is_bomb: false, neighboring_bombs: c });
            }
            i += 1;
        }
        proof {
            assert(self.grid@ =~= with_counts(g0, n_int));
        }
    }

    /// Flood-fill disclosure from `(x, y)`, with an explicit work list
    /// so call depth never grows with the board. The resulting board is
    /// exactly `reveal_closure` of the original one: every tile that was
    /// hidden and has a propagation chain from the origin — the maximal
    /// connected zero-count region plus its bordering ring — becomes
    /// revealed, and nothing else changes. Flagged tiles stop both the
    /// origin and the propagation.
    pub fn reveal_recursive(&mut self, x: usize, y: usize)
        requires
            old(self).wf(),
            x < old(self).size,
            y < old(self).size,
        ensures
            final(self).wf(),
            final(self).grid@ == reveal_closure(
                old(self).grid@,
                old(self).size as int,
                x as int,
                y as int,
            ),
            final(self).size == old(self).size,
            final(self).bomb_count == old(self).bomb_count,
            final(self).selection == old(self).selection,
            final(self).status == old(self).status,
            final(self).is_first_move == old(self).is_first_move,
            final(self).rng == old(self).rng,
    {
        let ghost g0 = self.grid@;
        let ghost n_int = self.size as int;
        let ghost sx = x as int;
        let ghost sy = y as int;
        let ghost sel0 = self.selection;
        let ghost st0 = self.status;
        let ghost fm0 = self.is_first_move;
        let ghost rng0 = self.rng;
        let ghost bc0 = self.bomb_count;
        let n = self.size;
        let mut work: Vec<Vec2> = Vec::new();
        work.push(Vec2 { x, y });
        proof {
            lemma_count_matching_bounds(g0, |t: Tile| t.state == TileState::Hidden);
            lemma_reaches_self(g0, n_int, sx, sy);
            assert(work@[0] == Vec2 { x, y });
            assert(work@.contains(Vec2 { x, y }));
        }
        while work.len() > 0
            invariant
                self.wf(),
                self.size == n,
                n_int == n as int,
                1 <= n_int,
                sx == x as int,
                sy == y as int,
                x < n,
                y < n,
                self.selection == sel0,
                self.status == st0,
                self.is_first_move == fm0,
                self.rng == rng0,
                self.bomb_count == bc0,
                g0.len() == n_int * n_int,
                self.grid@.len() == g0.len(),
                fill_frame(g0, self.grid@, n_int),
                0 <= count_hidden(self.grid@),
                forall|k: int|
                    0 <= k < work@.len() ==> (#[trigger] work@[k]).x < n && work@[k].y < n,
                forall|k: int|
                    0 <= k < work@.len() ==> reaches(
                        g0,
                        n_int,
                        sx,
                        sy,
                        (#[trigger] work@[k]).x as int,
                        work@[k].y as int,
                    ),
                forall|px: int, py: int|
                    #[trigger] newly_revealed(g0, self.grid@, n_int, px, py) ==> reaches(
                        g0,
                        n_int,
                        sx,
                        sy,
                        px,
                        py,
                    ),
                forall|px: int, py: int, qx: int, qy: int|
                    newly_revealed(g0, self.grid@, n_int, px, py) && propagates(g0, n_int, px, py)
                        && in_bounds(n_int, qx, qy) && #[trigger] is_neighbor(px, py, qx, qy)
                        ==> work@.contains((Vec2 { x: qx as usize, y: qy as usize })) || tile_at(
                        self.grid@,
                        n_int,
                        qx,
                        qy,
                    ).state != TileState::Hidden,
                work@.contains((Vec2 { x, y })) || newly_revealed(g0, self.grid@, n_int, sx, sy)
                    || tile_at(g0, n_int, sx, sy).state != TileState::Hidden,
            decreases 10 * count_hidden(self.grid@) + work@.len(),
        {
            let ghost work0 = work@;
            let ghost grid_pre = self.grid@;
            let p = work.pop().unwrap();
            let ghost pv = p;
            proof {
                assert(pv == work0[work0.len() - 1]);
                assert(work@ =~= work0.drop_last());
                lemma_grid_index(n_int, pv.x as int, pv.y as int);
            }
            let t = self.tile(p.x, p.y);
            if t.state == TileState::Hidden {
                proof {
                    assert(self.size * self.size <= 2147395600) by (nonlinear_arith)
                        requires
                            self.size <= 46340,
                    ;
                    // on the original board this tile was hidden too
                    assert(tile_at(g0, n_int, pv.x as int, pv.y as int).state == TileState::Hidden);
                }
                let idx = p.y * n + p.x;
                let newt = Tile {
                    state: TileState::Revealed,
                    is_bomb: t.is_bomb,
                    neighboring_bombs: t.neighboring_bombs,
                };
                proof {
                    lemma_count_matching_update(
                        grid_pre,
                        |tt: Tile| tt.state == TileState::Hidden,
                        idx as int,
                        newt,
                    );
                    lemma_fill_frame_reveal(g0, grid_pre, n_int, pv.x as int, pv.y as int);
                    assert(newt == revealed(tile_at(grid_pre, n_int, pv.x as int, pv.y as int)));
                }
                self.grid.set(idx, newt);
                proof {
                    lemma_count_matching_bounds(self.grid@, |tt: Tile| tt.state == TileState::Hidden);
                    assert(tile_at(self.grid@, n_int, pv.x as int, pv.y as int) == newt);
                    assert(newly_revealed(g0, self.grid@, n_int, pv.x as int, pv.y as int));
                    // tiles other than the popped one are untouched
                    assert forall|px: int, py: int|
                        in_bounds(n_int, px, py) && !(px == pv.x as int && py == pv.y as int)
                            implies #[trigger] tile_at(self.grid@, n_int, px, py) == tile_at(
                        grid_pre,
                        n_int,
                        px,
                        py,
                    ) by {
                        lemma_grid_index(n_int, px, py);
                    }
                    // soundness: everything newly revealed has a chain
                    assert forall|px: int, py: int|
                        #[trigger] newly_revealed(g0, self.grid@, n_int, px, py) implies reaches(
                        g0,
                        n_int,
                        sx,
                        sy,
                        px,
                        py,
                    ) by {
                        if px == pv.x as int && py == pv.y as int {
                            assert(reaches(g0, n_int, sx, sy, pv.x as int, pv.y as int));
                        } else {
                            assert(newly_revealed(g0, grid_pre, n_int, px, py));
                        }
                    }
                }
                if t.neighboring_bombs == 0 && !t.is_bomb {
                    proof {
                        assert(propagates(g0, n_int, pv.x as int, pv.y as int));
                    }
                    let nbrs = self.get_neighbors(p.x, p.y);
                    let ghost nbrs_s = nbrs@;
                    let ghost work1 = work@;
                    let mut k: usize = 0;
                    while k < nbrs.len()
                        invariant
                            k <= nbrs.len(),
                            nbrs@ == nbrs_s,
                            work@ == work1 + nbrs_s.take(k as int),
                        decreases nbrs.len() - k,
                    {
                        work.push(nbrs[k]);
                        k += 1;
                        proof {
                            assert(work@ =~= work1 + nbrs_s.take(k as int));
                        }
                    }
                    proof {
                        assert(nbrs_s.take(nbrs_s.len() as int) =~= nbrs_s);
                        assert(work@ == work1 + nbrs_s);
                        // the work list keeps its properties
                        assert forall|j: int| 0 <= j < work@.len() implies (#[trigger] work@[j]).x
                            < n && work@[j].y < n && reaches(
                            g0,
                            n_int,
                            sx,
                            sy,
                            work@[j].x as int,
                            work@[j].y as int,
                        ) by {
                            if j < work1.len() {
                                assert(work@[j] == work0[j]);
                            } else {
                                let u = nbrs_s[j - work1.len()];
                                assert(work@[j] == u);
                                assert(is_neighbor(pv.x as int, pv.y as int, u.x as int, u.y as int));
                                lemma_reaches_step(
                                    g0,
                                    n_int,
                                    sx,
                                    sy,
                                    pv.x as int,
                                    pv.y as int,
                                    u.x as int,
                                    u.y as int,
                                );
                            }
                        }
                        // closedness
                        assert forall|px: int, py: int, qx: int, qy: int|
                            newly_revealed(g0, self.grid@, n_int, px, py) && propagates(
                                g0,
                                n_int,
                                px,
                                py,
                            ) && in_bounds(n_int, qx, qy) && #[trigger] is_neighbor(px, py, qx, qy)
                                implies work@.contains((Vec2 { x: qx as usize, y: qy as usize }))
                            || tile_at(self.grid@, n_int, qx, qy).state != TileState::Hidden by {
                            lemma_grid_index(n_int, qx, qy);
                            let qv = Vec2 { x: qx as usize, y: qy as usize };
                            if px == pv.x as int && py == pv.y as int {
                                assert(is_neighbor(pv.x as int, pv.y as int, qx, qy));
                                assert(nbrs_s.contains(qv));
                                let j = choose|j: int|
                                    0 <= j < nbrs_s.len() && nbrs_s[j] == qv;
                                assert(work@[work1.len() + j] == qv);
                                assert(work@.contains(qv));
                            } else {
                                assert(newly_revealed(g0, grid_pre, n_int, px, py));
                                if tile_at(grid_pre, n_int, qx, qy).state != TileState::Hidden {
                                    if qx == pv.x as int && qy == pv.y as int {
                                        assert(tile_at(self.grid@, n_int, qx, qy) == newt);
                                    } else {
                                        assert(tile_at(self.grid@, n_int, qx, qy) == tile_at(
                                            grid_pre,
                                            n_int,
                                            qx,
                                            qy,
                                        ));
                                    }
                                } else {
                                    assert(work0.contains(qv));
                                    if qv == pv {
                                        assert(tile_at(self.grid@, n_int, qx, qy) == newt);
                                    } else {
                                        lemma_drop_last_contains(work0, qv);
                                        let j2 = choose|j: int|
                                            0 <= j < work1.len() && work1[j] == qv;
                                        assert(work@[j2] == qv);
                                        assert(work@.contains(qv));
                                    }
                                }
                            }
                        }
                        // the start stays handled
                        if work0.contains(Vec2 { x, y }) {
                            if pv == (Vec2 { x, y }) {
                                assert(newly_revealed(g0, self.grid@, n_int, sx, sy));
                            } else {
                                lemma_drop_last_contains(work0, Vec2 { x, y });
                                let j3 = choose|j: int|
                                    0 <= j < work1.len() && work1[j] == Vec2 { x, y };
                                assert(work@[j3] == Vec2 { x, y });
                                assert(work@.contains((Vec2 { x, y })));
                            }
                        } else if newly_revealed(g0, grid_pre, n_int, sx, sy) {
                            assert(newly_revealed(g0, self.grid@, n_int, sx, sy));
                        }
                    }
                } else {
                    proof {
                        // no propagation from the popped tile: it is a mine
                        // or has a nonzero count, so it cannot propagate on
                        // the original board either
                        assert(!propagates(g0, n_int, pv.x as int, pv.y as int));
                        assert forall|px: int, py: int, qx: int, qy: int|
                            newly_revealed(g0, self.grid@, n_int, px, py) && propagates(
                                g0,
                                n_int,
                                px,
                                py,
                            ) && in_bounds(n_int, qx, qy) && #[trigger] is_neighbor(px, py, qx, qy)
                                implies work@.contains((Vec2 { x: qx as usize, y: qy as usize }))
                            || tile_at(self.grid@, n_int, qx, qy).state != TileState::Hidden by {
                            lemma_grid_index(n_int, qx, qy);
                            let qv = Vec2 { x: qx as usize, y: qy as usize };
                            assert(newly_revealed(g0, grid_pre, n_int, px, py));
                            if tile_at(grid_pre, n_int, qx, qy).state != TileState::Hidden {
                                if qx == pv.x as int && qy == pv.y as int {
                                    assert(tile_at(self.grid@, n_int, qx, qy) == newt);
                                } else {
                                    assert(tile_at(self.grid@, n_int, qx, qy) == tile_at(
                                        grid_pre,
                                        n_int,
                                        qx,
                                        qy,
                                    ));
                                }
                            } else {
                                assert(work0.contains(qv));
                                if qv == pv {
                                    assert(tile_at(self.grid@, n_int, qx, qy) == newt);
                                } else {
                                    lemma_drop_last_contains(work0, qv);
                                }
                            }
                        }
                        if work0.contains(Vec2 { x, y }) {
                            if pv == (Vec2 { x, y }) {
                                assert(newly_revealed(g0, self.grid@, n_int, sx, sy));
                            } else {
                                lemma_drop_last_contains(work0, Vec2 { x, y });
                            }
                        } else if newly_revealed(g0, grid_pre, n_int, sx, sy) {
                            assert(newly_revealed(g0, self.grid@, n_int, sx, sy));
                        }
                    }
                }
            } else {
                proof {
                    // skipped: the popped tile is already revealed or flagged
                    assert(tile_at(self.grid@, n_int, pv.x as int, pv.y as int).state
                        != TileState::Hidden);
                    assert forall|px: int, py: int, qx: int, qy: int|
                        newly_revealed(g0, self.grid@, n_int, px, py) && propagates(
                            g0,
                            n_int,
                            px,
                            py,
                        ) && in_bounds(n_int, qx, qy) && #[trigger] is_neighbor(px, py, qx, qy)
                            implies work@.contains((Vec2 { x: qx as usize, y: qy as usize }))
                        || tile_at(self.grid@, n_int, qx, qy).state != TileState::Hidden by {
                        let qv = Vec2 { x: qx as usize, y: qy as usize };
                        if tile_at(grid_pre, n_int, qx, qy).state != TileState::Hidden {
                        } else {
                            assert(work0.contains(qv));
                            if qv == pv {
                                assert(tile_at(self.grid@, n_int, qx, qy).state
                                    != TileState::Hidden);
                            } else {
                                lemma_drop_last_contains(work0, qv);
                            }
                        }
                    }
                    if work0.contains(Vec2 { x, y }) {
                        if pv == (Vec2 { x, y }) {
                            assert(tile_at(g0, n_int, sx, sy).state != TileState::Hidden
                                || newly_revealed(g0, self.grid@, n_int, sx, sy));
                        } else {
                            lemma_drop_last_contains(work0, Vec2 { x, y });
                        }
                    }
                }
            }
        }
        proof {
            assert(work@.len() == 0);
            assert(fill_closed(g0, self.grid@, n_int)) by {
                assert forall|px: int, py: int, qx: int, qy: int|
                    newly_revealed(g0, self.grid@, n_int, px, py) && propagates(g0, n_int, px, py)
                        && in_bounds(n_int, qx, qy) && #[trigger] is_neighbor(px, py, qx, qy)
                        implies tile_at(self.grid@, n_int, qx, qy).state != TileState::Hidden by {
                    assert(!work@.contains((Vec2 { x: qx as usize, y: qy as usize })));
                }
            }
            assert forall|i: int| 0 <= i < g0.len() implies self.grid@[i] == reveal_closure(
                g0,
                n_int,
                sx,
                sy,
            )[i] by {
                lemma_grid_coords(n_int, i);
                let cx = i % n_int;
                let cy = i / n_int;
                assert(tile_at(self.grid@, n_int, cx, cy) == self.grid@[i]);
                assert(tile_at(g0, n_int, cx, cy) == g0[i]);
                if g0[i].state == TileState::Hidden && reaches(g0, n_int, sx, sy, cx, cy) {
                    let path = choose|path: Seq<(int, int)>|
                        #[trigger] is_path(g0, n_int, path, sx, sy, cx, cy);
                    lemma_reachable_is_revealed(g0, self.grid@, n_int, sx, sy, path, cx, cy);
                    assert(newly_revealed(g0, self.grid@, n_int, cx, cy));
                    assert(self.grid@[i] == revealed(g0[i]));
                } else if g0[i].state == TileState::Hidden {
                    // hidden but unreachable: untouched, else soundness
                    // would yield a chain
                    if tile_at(self.grid@, n_int, cx, cy).state == TileState::Revealed {
                        assert(newly_revealed(g0, self.grid@, n_int, cx, cy));
                        assert(false);
                    }
                    assert(self.grid@[i] == g0[i]);
                } else {
                    assert(self.grid@[i] == g0[i]);
                }
            }
            assert(self.grid@ =~= reveal_closure(g0, n_int, sx, sy));
        }
    }

    /// Mine placement, run once on the first reveal with the player's
    /// chosen coordinate. Rejection-samples cells from the generator,
    /// skipping the safe zone and already-mined cells, until the target
    /// is met or the attempt budget (ten draws per requested mine) runs
    /// out — the budget may leave fewer mines than requested, which is
    /// accepted degraded behaviour, not an error. Then stores every
    /// mine-free tile's neighbor count.
    pub fn plant_bombs(&mut self, safe_pos: Vec2)
        requires
            old(self).wf(),
            safe_pos.x < old(self).size,
            safe_pos.y < old(self).size,
            forall|i: int| 0 <= i < old(self).grid@.len() ==> !(#[trigger] old(self).grid@[i]).is_bomb,
        ensures
            final(self).wf(),
            ({
                let (g1, s1) = plant_rec(
                    old(self).grid@,
                    old(self).size as int,
                    old(self).rng.seed,
                    0,
                    old(self).bomb_count as int,
                    0,
                    old(self).bomb_count as int * 10,
                    safe_pos,
                );
                final(self).grid@ == with_counts(g1, old(self).size as int) && final(self).rng.seed
                    == s1
            }),
            forall|x: int, y: int|
                in_bounds(old(self).size as int, x, y) && in_safe_zone(safe_pos, x, y)
                    ==> !(#[trigger] tile_at(final(self).grid@, old(self).size as int, x, y)).is_bomb,
            count_bombs(final(self).grid@) <= old(self).bomb_count,
            forall|i: int|
                0 <= i < old(self).grid@.len() ==> (#[trigger] final(self).grid@[i]).state == old(
                    self,
                ).grid@[i].state,
            final(self).size == old(self).size,
            final(self).bomb_count == old(self).bomb_count,
            final(self).selection == old(self).selection,
            final(self).status == old(self).status,
            final(self).is_first_move == old(self).is_first_move,
    {
        let ghost g0 = self.grid@;
        let ghost seed0 = self.rng.seed;
        let ghost n_int = self.size as int;
        let ghost sel0 = self.selection;
        let ghost st0 = self.status;
        let ghost fm0 = self.is_first_move;
        let n = self.size;
        let target = self.bomb_count;
        let max_attempts = self.bomb_count * 10;
        let mut bombs_placed: usize = 0;
        let mut attempts: usize = 0;
        proof {
            lemma_count_matching_zero(g0, |t: Tile| t.is_bomb);
            assert forall|px: int, py: int|
                in_bounds(n_int, px, py) && in_safe_zone(safe_pos, px, py) implies !(
            #[trigger] tile_at(self.grid@, n_int, px, py)).is_bomb by {
                lemma_grid_index(n_int, px, py);
            }
        }
        while bombs_placed < target && attempts < max_attempts
            invariant
                self.wf(),
                self.size == n,
                n_int == n as int,
                self.bomb_count == target,
                self.selection == sel0,
                self.status == st0,
                self.is_first_move == fm0,
                safe_pos.x < n,
                safe_pos.y < n,
                bombs_placed <= target,
                attempts <= max_attempts,
                max_attempts == target * 10,
                self.grid@.len() == g0.len(),
                forall|i: int|
                    0 <= i < g0.len() ==> (#[trigger] self.grid@[i]).state == g0[i].state && self
                        .grid@[i].neighboring_bombs == g0[i].neighboring_bombs,
                forall|x: int, y: int|
                    in_bounds(n_int, x, y) && in_safe_zone(safe_pos, x, y) ==> !(#[trigger] tile_at(
                        self.grid@,
                        n_int,
                        x,
                        y,
                    )).is_bomb,
                count_bombs(self.grid@) == bombs_placed,
                plant_rec(
                    self.grid@,
                    n_int,
                    self.rng.seed,
                    bombs_placed as int,
                    target as int,
                    attempts as int,
                    max_attempts as int,
                    safe_pos,
                ) == plant_rec(g0, n_int, seed0, 0, target as int, 0, max_attempts as int, safe_pos),
            decreases max_attempts - attempts,
        {
            let ghost pre_g = self.grid@;
            let ghost pre_seed = self.rng.seed;
            let ghost pre_placed = bombs_placed as int;
            let ghost pre_attempts = attempts as int;
            let x = self.rng.next_in_range(0, n);
            let y = self.rng.next_in_range(0, n);
            proof {
                assert(x as int == (xorshift64(pre_seed) % (n_int as u64)) as int);
                assert(y as int == (xorshift64(xorshift64(pre_seed)) % (n_int as u64)) as int);
            }
            let is_safe = is_safe_at(safe_pos, x, y);
            let t = self.tile(x, y);
            if !is_safe && !t.is_bomb {
                proof {
                    lemma_grid_index(n_int, x as int, y as int);
                    assert(self.size * self.size <= 2147395600) by (nonlinear_arith)
                        requires
                            self.size <= 46340,
                    ;
                }
                let idx = y * n + x;
                let newt = Tile {
                    state: t.state,
                    is_bomb: true,
                    neighboring_bombs: t.neighboring_bombs,
                };
                proof {
                    lemma_count_matching_update(pre_g, |t: Tile| t.is_bomb, idx as int, newt);
                }
                self.grid.set(idx, newt);
                bombs_placed += 1;
                proof {
                    assert forall|px: int, py: int|
                        in_bounds(n_int, px, py) && in_safe_zone(safe_pos, px, py)
                            implies !(#[trigger] tile_at(self.grid@, n_int, px, py)).is_bomb by {
                        lemma_grid_index(n_int, px, py);
                        assert(!tile_at(pre_g, n_int, px, py).is_bomb);
                        assert(!(px == x as int && py == y as int));
                        assert(py * n_int + px != y as int * n_int + x as int);
                    }
                }
            }
            attempts += 1;
            proof {
                assert(plant_rec(
                    pre_g,
                    n_int,
                    pre_seed,
                    pre_placed,
                    target as int,
                    pre_attempts,
                    max_attempts as int,
                    safe_pos,
                ) == plant_rec(
                    self.grid@,
                    n_int,
                    self.rng.seed,
                    bombs_placed as int,
                    target as int,
                    attempts as int,
                    max_attempts as int,
                    safe_pos,
                ));
            }
        }
        let ghost planted = self.grid@;
        proof {
            assert(plant_rec(
                self.grid@,
                n_int,
                self.rng.seed,
                bombs_placed as int,
                target as int,
                attempts as int,
                max_attempts as int,
                safe_pos,
            ) == (self.grid@, self.rng.seed));
        }
        self.compute_neighbor_counts();
        proof {
            lemma_count_matching_pointwise(self.grid@, planted, |t: Tile| t.is_bomb);
            assert forall|px: int, py: int|
                in_bounds(n_int, px, py) && in_safe_zone(safe_pos, px, py) implies !(
            #[trigger] tile_at(self.grid@, n_int, px, py)).is_bomb by {
                lemma_grid_index(n_int, px, py);
                assert(!tile_at(planted, n_int, px, py).is_bomb);
            }
        }
    }

    /// Count of Moore neighbors of `(x, y)` that hold a mine.
    #[verifier::rlimit(60)]
    pub fn count_neighbor_bombs(&self, x: usize, y: usize) -> (r: u8)
        requires
            self.wf(),
            x < self.size,
            y < self.size,
        ensures
            r as int == neighbor_bomb_count(self.grid@, self.size as int, x as int, y as int),
            r <= 8,
    {
        let n = self.size;
        let mut count: u8 = 0;
        if y >= 1 {
            if x >= 1 && self.tile(x - 1, y - 1).is_bomb {
                count += 1;
            }
            if self.tile(x, y - 1).is_bomb {
                count += 1;
            }
            if x + 1 < n && self.tile(x + 1, y - 1).is_bomb {
                count += 1;
            }
        }
        if x >= 1 && self.tile(x - 1, y).is_bomb {
            count += 1;
        }
        if x + 1 < n && self.tile(x + 1, y).is_bomb {
            count += 1;
        }
        if y + 1 < n {
            if x >= 1 && self.tile(x - 1, y + 1).is_bomb {
                count += 1;
            }
            if self.tile(x, y + 1).is_bomb {
                count += 1;
            }
            if x + 1 < n && self.tile(x + 1, y + 1).is_bomb {
                count += 1;
            }
        }
        count
    }

    /// Reveal every mine tile unconditionally, overriding flagged and
    /// hidden states, so the full layout becomes visible after a loss.
    pub fn reveal_all_bombs(&mut self)
        requires
            old(self).wf(),
        ensures
            final(self).wf(),
            final(self).grid@ == bombs_shown(old(self).grid@),
            final(self).size == old(self).size,
            final(self).bomb_count == old(self).bomb_count,
            final(self).selection == old(self).selection,
            final(self).status == old(self).status,
            final(self).is_first_move == old(self).is_first_move,
            final(self).rng == old(self).rng,
    {
        let ghost g0 = self.grid@;
        let ghost sel0 = self.selection;
        let ghost st0 = self.status;
        let ghost fm0 = self.is_first_move;
        let ghost rng0 = self.rng;
        let ghost bc0 = self.bomb_count;
        let n = self.size;
        let total = self.grid.len();
        let mut i: usize = 0;
        while i < total
            invariant
                self.wf(),
                self.size == n,
                total == self.grid@.len(),
                self.grid@.len() == g0.len(),
                i <= total,
                self.selection == sel0,
                self.status == st0,
                self.is_first_move == fm0,
                self.rng == rng0,
                self.bomb_count == bc0,
                forall|j: int| 0 <= j < i ==> #[trigger] self.grid@[j] == bombs_shown(g0)[j],
                forall|j: int| i <= j < g0.len() ==> #[trigger] self.grid@[j] == g0[j],
            decreases total - i,
        {
            let t = self.grid[i];
            if t.is_bomb {
                self.grid.set(
                    i,
                    Tile {
                        state: TileState::Revealed,
                        is_bomb: true,
                        neighboring_bombs: t.neighboring_bombs,
                    },
                );
            }
            i += 1;
        }
        proof {
            assert(self.grid@ =~= bombs_shown(g0));
        }
    }

    /// Count the tiles that still block a win and set `Win` when none is
    /// left: a mine-free tile counts as cleared only when revealed, so
    /// flagged mine-free tiles keep the game going.
    pub fn check_win_condition(&mut self)
        requires
            old(self).wf(),
        ensures
            final(self).wf(),
            final(self).status == (if all_cleared(old(self).grid@) {
                GameStatus::Win
            } else {
                old(self).status
            }),
            final(self).grid == old(self).grid,
            final(self).size == old(self).size,
            final(self).bomb_count == old(self).bomb_count,
            final(self).selection == old(self).selection,
            final(self).is_first_move == old(self).is_first_move,
            final(self).rng == old(self).rng,
    {
        let total = self.grid.len();
        let mut uncleared: usize = 0;
        let mut i: usize = 0;
        while i < total
            invariant
                total == self.grid@.len(),
                i <= total,
                uncleared <= i,
                uncleared as int == count_uncleared(self.grid@.take(i as int)),
            decreases total - i,
        {
            let t = self.grid[i];
            proof {
                assert(self.grid@.take(i as int + 1).drop_last() =~= self.grid@.take(i as int));
                assert(self.grid@.take(i as int + 1).last() == self.grid@[i as int]);
            }
            if !t.is_bomb && t.state != TileState::Revealed {
                uncleared += 1;
            }
            i += 1;
        }
        proof {
            assert(self.grid@.take(total as int) =~= self.grid@);
            lemma_count_matching_zero(
                self.grid@,
                |t: Tile| !t.is_bomb && t.state != TileState::Revealed,
            );
        }
        if uncleared == 0 {
            self.status = GameStatus::Win;
        }
    }

    /// Toggle a flag on the selected tile: hidden becomes flagged,
    /// flagged becomes hidden, revealed tiles are unaffected.
    pub fn toggle_flag(&mut self)
        requires
            old(self).wf(),
        ensures
            final(self).wf(),
            toggle_flag_post(*old(self), *final(self)),
    {
        proof {
            lemma_grid_index(
                self.size as int,
                self.selection.x as int,
                self.selection.y as int,
            );
            assert(self.size * self.size <= 2147395600) by (nonlinear_arith)
                requires
                    self.size <= 46340,
            ;
        }
        let idx = self.selection.y * self.size + self.selection.x;
        let t = self.grid[idx];
        let ghost g0 = self.grid@;
        match t.state {
            TileState::Hidden => {
                self.grid.set(
                    idx,
                    Tile {
                        state: TileState::Flagged,
                        is_bomb: t.is_bomb,
                        neighboring_bombs: t.neighboring_bombs,
                    },
                );
            },
            TileState::Flagged => {
                self.grid.set(
                    idx,
                    Tile {
                        state: TileState::Hidden,
                        is_bomb: t.is_bomb,
                        neighboring_bombs: t.neighboring_bombs,
                    },
                );
            },
            TileState::Revealed => {
                proof {
                    assert(self.grid@ =~= g0.update(
                        idx as int,
                        Tile {
                            state: toggled(g0[idx as int].state),
                            is_bomb: g0[idx as int].is_bomb,
                            neighboring_bombs: g0[idx as int].neighboring_bombs,
                        },
                    ));
                }
            },
        }
    }

    /// One reveal action on the selected tile: plant mines first if this
    /// is the first move, flood-fill from the selection, then settle the
    /// round — a revealed mine loses and shows every mine, otherwise a
    /// fully cleared board wins.
    pub fn reveal_selected(&mut self)
        requires
            old(self).wf(),
            old(self).pristine_if_first(),
        ensures
            final(self).wf(),
            reveal_selected_post(*old(self), *final(self)),
            old(self).status == GameStatus::Playing && final(self).status != GameStatus::Lose
                ==> ((final(self).status == GameStatus::Win) <==> all_cleared(final(self).grid@)),
    {
        let ghost n_int = self.size as int;
        if self.is_first_move {
            let sel = self.selection;
            self.plant_bombs(sel);
            self.is_first_move = false;
        }
        let sel_x = self.selection.x;
        let sel_y = self.selection.y;
        self.reveal_recursive(sel_x, sel_y);
        let t = self.tile(sel_x, sel_y);
        if t.is_bomb && t.state == TileState::Revealed {
            self.status = GameStatus::Lose;
            self.reveal_all_bombs();
        } else {
            self.check_win_condition();
        }
    }

    /// Dispatch one input command; a no-op entirely unless the game is
    /// still `Playing`. `w`/`s`/`a`/`d` move the selection with clamping,
    /// `f` toggles a flag, `t` reveals, anything else is ignored.
    pub fn handle_input(&mut self, key_char: char)
        requires
            old(self).wf(),
            old(self).pristine_if_first(),
        ensures
            final(self).wf(),
            final(self).pristine_if_first(),
            old(self).status != GameStatus::Playing ==> *final(self) == *old(self),
            old(self).status == GameStatus::Playing ==> match key_char {
                'w' => moved_post(
                    *old(self),
                    *final(self),
                    old(self).selection.x as int,
                    if old(self).selection.y as int > 0 {
                        old(self).selection.y as int - 1
                    } else {
                        0
                    },
                ),
                's' => moved_post(
                    *old(self),
                    *final(self),
                    old(self).selection.x as int,
                    if old(self).selection.y as int + 1 < old(self).size as int {
                        old(self).selection.y as int + 1
                    } else {
                        old(self).size as int - 1
                    },
                ),
                'a' => moved_post(
                    *old(self),
                    *final(self),
                    if old(self).selection.x as int > 0 {
                        old(self).selection.x as int - 1
                    } else {
                        0
                    },
                    old(self).selection.y as int,
                ),
                'd' => moved_post(
                    *old(self),
                    *final(self),
                    if old(self).selection.x as int + 1 < old(self).size as int {
                        old(self).selection.x as int + 1
                    } else {
                        old(self).size as int - 1
                    },
                    old(self).selection.y as int,
                ),
                'f' => toggle_flag_post(*old(self), *final(self)),
                't' => reveal_selected_post(*old(self), *final(self)),
                _ => *final(self) == *old(self),
            },
    {
        if !matches!(self.status, GameStatus::Playing) {
            return ;
        }
        match key_char {
            'w' => {
                if self.selection.y > 0 {
                    self.selection.y = self.selection.y - 1;
                }
            },
            's' => {
                if self.selection.y + 1 < self.size {
                    self.selection.y = self.selection.y + 1;
                }
            },
            'a' => {
                if self.selection.x > 0 {
                    self.selection.x = self.selection.x - 1;
                }
            },
            'd' => {
                if self.selection.x + 1 < self.size {
                    self.selection.x = self.selection.x + 1;
                }
            },
            'f' => self.toggle_flag(),
            't' => self.reveal_selected(),
            _ => {},
        }
        proof {
            if self.is_first_move {
                lemma_grid_index(
                    old(self).size as int,
                    old(self).selection.x as int,
                    old(self).selection.y as int,
                );
                assert forall|i: int| 0 <= i < self.grid@.len() implies !(#[trigger] self.grid@[i]).is_bomb by {
                    assert(!old(self).grid@[i].is_bomb);
                }
            }
        }
    }
}

/// What one flag toggle does to the whole game: the selected tile's
/// state is toggled, everything else is untouched.
pub open spec fn toggle_flag_post(pre: Game, post: Game) -> bool {
    let i = pre.selection.y as int * pre.size as int + pre.selection.x as int;
    &&& post.grid@ == pre.grid@.update(
        i,
        (Tile {
            state: toggled(pre.grid@[i].state),
            is_bomb: pre.grid@[i].is_bomb,
            neighboring_bombs: pre.grid@[i].neighboring_bombs,
        }),
    )
    &&& post.size == pre.size
    &&& post.bomb_count == pre.bomb_count
    &&& post.selection == pre.selection
    &&& post.status == pre.status
    &&& post.is_first_move == pre.is_first_move
    &&& post.rng == pre.rng
}

/// A selection move to `(x, y)`: only the selection changes.
pub open spec fn moved_post(pre: Game, post: Game, x: int, y: int) -> bool {
    &&& post.selection.x as int == x
    &&& post.selection.y as int == y
    &&& post.grid == pre.grid
    &&& post.size == pre.size
    &&& post.bomb_count == pre.bomb_count
    &&& post.status == pre.status
    &&& post.is_first_move == pre.is_first_move
    &&& post.rng == pre.rng
}

/// The selected tile, after the fill, is a revealed mine: the round is
/// lost.
pub open spec fn hit_bomb(g: Seq<Tile>, n: int, sx: int, sy: int) -> bool {
    tile_at(g, n, sx, sy).is_bomb && tile_at(g, n, sx, sy).state == TileState::Revealed
}

/// The whole effect of one reveal action. If this is the first move,
/// the board and generator first advance by the placement phase; the
/// board then becomes the reveal closure at the selection; a revealed
/// mine there turns the status to `Lose` and shows every mine, and
/// otherwise a fully cleared board turns it to `Win`.
pub open spec fn reveal_selected_post(pre: Game, post: Game) -> bool {
    let n = pre.size as int;
    let sx = pre.selection.x as int;
    let sy = pre.selection.y as int;
    let planted = plant_rec(
        pre.grid@,
        n,
        pre.rng.seed,
        0,
        pre.bomb_count as int,
        0,
        pre.bomb_count as int * 10,
        pre.selection,
    );
    let g1 = if pre.is_first_move {
        with_counts(planted.0, n)
    } else {
        pre.grid@
    };
    let seed1 = if pre.is_first_move {
        planted.1
    } else {
        pre.rng.seed
    };
    let g2 = reveal_closure(g1, n, sx, sy);
    let lose = hit_bomb(g2, n, sx, sy);
    &&& post.grid@ == (if lose {
        bombs_shown(g2)
    } else {
        g2
    })
    &&& post.status == (if lose {
        GameStatus::Lose
    } else if all_cleared(g2) {
        GameStatus::Win
    } else {
        pre.status
    })
    &&& post.rng.seed == seed1
    &&& post.size == pre.size
    &&& post.bomb_count == pre.bomb_count
    &&& post.selection == pre.selection
    &&& post.is_first_move == false
}

/// Law: two consecutive flag toggles restore the game exactly — in
/// particular a hidden tile goes back to hidden.
pub proof fn lemma_flag_toggle_idempotent(a: Game, b: Game, c: Game)
    requires
        a.wf(),
        toggle_flag_post(a, b),
        toggle_flag_post(b, c),
    ensures
        c.grid@ == a.grid@,
        c.selection == a.selection,
        c.status == a.status,
        c.size == a.size,
        c.bomb_count == a.bomb_count,
        c.is_first_move == a.is_first_move,
        c.rng == a.rng,
{
    let i = a.selection.y as int * a.size as int + a.selection.x as int;
    lemma_grid_index(a.size as int, a.selection.x as int, a.selection.y as int);
    crate::tile::lemma_toggled_involutive(a.grid@[i].state);
    assert(c.grid@ =~= a.grid@);
}

} // verus!
