use vstd::prelude::*;

use crate::engine::hero::Army;
use crate::engine::player::TownId;
use crate::engine::resources::ResourceBag;

verus! {

/// How much the player knows of a tile: never seen, seen before, or in sight now.
#[derive(Debug, Clone, Copy, PartialEq, Eq, Structural)]
pub enum VisibilityState {
    Unexplored,
    Visited,
    Visible,
}

/// A cell of the map grid; `x` grows to the right and `y` downwards.
#[derive(Debug, Clone, Copy, PartialEq, Eq, Hash, Structural)]
pub struct Position {
    pub x: i32,
    pub y: i32,
}

impl Position {
    pub fn new(x: i32, y: i32) -> (r: Self)
        ensures
            r.x == x,
            r.y == y,
    {
        Self { x, y }
    }
}

/// The terrain of a tile.
#[derive(Debug, Clone, Copy, PartialEq, Eq, Structural)]
pub enum TileKind {
    Ground,
    Obstacle,
    Water,
}

/// Something that stands on a tile.
#[derive(Debug, Clone)]
pub enum MapObject {
    ResourcePile(ResourceBag),
    Town(TownId),
    NeutralArmy(Army),
}

/// One tile of the map.
#[derive(Debug, Clone)]
pub struct Tile {
    pub kind: TileKind,
    pub object: Option<MapObject>,
}

impl Tile {
    /// Open ground with nothing on it.
    pub fn ground() -> (r: Self)
        ensures
            r.kind == TileKind::Ground,
            r.object is None,
    {
        Self { kind: TileKind::Ground, object: None }
    }

    /// Whether a neutral army stands on the tile.
    pub open spec fn has_neutral_army(self) -> bool {
        self.object matches Some(MapObject::NeutralArmy(_))
    }

    /// Whether a hero may stand on the tile: open ground with no neutral army.
    pub open spec fn walkable(self) -> bool {
        self.kind == TileKind::Ground && !self.has_neutral_army()
    }
}

/// The adventure map: `width × height` tiles and what the player knows of each,
/// stored row by row.
#[derive(Debug, Clone)]
pub struct AdventureMap {
    pub width: u32,
    pub height: u32,
    pub tiles: Vec<Tile>,
    pub visibility: Vec<VisibilityState>,
}

/// `y * w + x` lies in `0 .. w * h` for a cell of a `w × h` grid.
pub proof fn lemma_cell_index(w: int, h: int, x: int, y: int)
    requires
        0 <= x < w,
        0 <= y < h,
    ensures
        0 <= y * w + x < w * h,
{
    assert(0 <= y * w) by (nonlinear_arith)
        requires
            0 <= y,
            0 <= w,
    ;
    assert(y * w + x < w * h) by (nonlinear_arith)
        requires
            x < w,
            y < h,
            0 <= x,
            0 <= y,
    ;
}

/// Two cells of a grid of width `w` share an index only when they are the same cell.
pub proof fn lemma_cell_index_injective(w: int, x1: int, y1: int, x2: int, y2: int)
    requires
        0 <= x1 < w,
        0 <= x2 < w,
        0 <= y1,
        0 <= y2,
        y1 * w + x1 == y2 * w + x2,
    ensures
        x1 == x2,
        y1 == y2,
{
    if y1 < y2 {
        assert(y1 * w + w <= y2 * w) by (nonlinear_arith)
            requires
                y1 < y2,
                0 <= w,
        ;
    } else if y2 < y1 {
        assert(y2 * w + w <= y1 * w) by (nonlinear_arith)
            requires
                y2 < y1,
                0 <= w,
        ;
    }
}

impl AdventureMap {
    /// The tile and visibility vectors hold exactly one entry per cell.
    pub open spec fn wf(self) -> bool {
        &&& self.width * self.height <= u32::MAX
        &&& self.tiles@.len() == self.width * self.height
        &&& self.visibility@.len() == self.width * self.height
    }

    /// Whether `pos` lies on the map.
    pub open spec fn in_bounds(self, pos: Position) -> bool {
        0 <= pos.x < self.width && 0 <= pos.y < self.height
    }

    /// Where the cell `pos` is stored.
    pub open spec fn index_of(self, pos: Position) -> int {
        pos.y * self.width + pos.x
    }

    /// The tile at `pos`, when `pos` lies on the map.
    pub open spec fn tile_at(self, pos: Position) -> Tile
        recommends
            self.in_bounds(pos),
    {
        self.tiles@[self.index_of(pos)]
    }

    /// Whether a hero may step onto `pos`: on the map, open ground, and no neutral army.
    pub open spec fn passable(self, pos: Position) -> bool {
        self.in_bounds(pos) && self.tile_at(pos).walkable()
    }

    /// A map of `width × height` ground tiles, none of them explored.
    pub fn new(width: u32, height: u32) -> (r: Self)
        requires
            width * height <= u32::MAX,
        ensures
            r.wf(),
            r.width == width,
            r.height == height,
            forall|i: int|
                0 <= i < r.tiles@.len() ==> (#[trigger] r.tiles@[i]).kind == TileKind::Ground
                    && r.tiles@[i].object is None,
            forall|i: int|
                0 <= i < r.visibility@.len() ==> #[trigger] r.visibility@[i]
                    == VisibilityState::Unexplored,
    {
        let size = (width * height) as usize;
        let mut tiles: Vec<Tile> = Vec::new();
        let mut visibility: Vec<VisibilityState> = Vec::new();
        let mut i: usize = 0;
        while i < size
            invariant
                i <= size,
                size == width * height,
                tiles@.len() == i,
                visibility@.len() == i,
                forall|j: int|
                    0 <= j < i ==> (#[trigger] tiles@[j]).kind == TileKind::Ground
                        && tiles@[j].object is None,
                forall|j: int| 0 <= j < i ==> #[trigger] visibility@[j] == VisibilityState::Unexplored,
            decreases size - i,
        {
            tiles.push(Tile::ground());
            visibility.push(VisibilityState::Unexplored);
            i = i + 1;
        }
        Self { width, height, tiles, visibility }
    }

    /// Whether the map is well formed: `wf`, tested.
    pub fn is_well_formed(&self) -> (r: bool)
        ensures
            r == self.wf(),
    {
        let w = self.width as u64;
        let h = self.height as u64;
        assert(w * h <= u32::MAX * u32::MAX) by (nonlinear_arith)
            requires
                w <= u32::MAX,
                h <= u32::MAX,
        ;
        let size = w * h;
        size <= u32::MAX as u64 && self.tiles.len() as u64 == size && self.visibility.len() as u64
            == size
    }

    fn idx(&self, pos: Position) -> (r: Option<usize>)
        requires
            self.wf(),
        ensures
            r is Some <==> self.in_bounds(pos),
            r matches Some(i) ==> i == self.index_of(pos) && i < self.tiles@.len(),
    {
        if pos.x < 0 || pos.y < 0 {
            return None;
        }
        let x = pos.x as u32;
        let y = pos.y as u32;
        if x >= self.width || y >= self.height {
            return None;
        }
        proof {
            lemma_cell_index(self.width as int, self.height as int, x as int, y as int);
        }
        Some((y * self.width + x) as usize)
    }

    /// The tile at `pos`, or `None` off the map.
    pub fn get(&self, pos: Position) -> (r: Option<&Tile>)
        requires
            self.wf(),
        ensures
            r is Some <==> self.in_bounds(pos),
            r matches Some(t) ==> *t == self.tile_at(pos),
    {
        match self.idx(pos) {
            Some(i) => Some(&self.tiles[i]),
            None => None,
        }
    }

    /// Whether a hero may step onto `pos`: on the map, open ground, and no neutral army.
    pub fn is_passable(&self, pos: Position) -> (r: bool)
        requires
            self.wf(),
        ensures
            r == self.passable(pos),
    {
        match self.get(pos) {
            Some(tile) => {
                matches!(tile.kind, TileKind::Ground) && !matches!(
                    tile.object,
                    Some(MapObject::NeutralArmy(_))
                )
            },
            None => false,
        }
    }

    /// What the player knows of `pos`, or `None` off the map.
    pub fn get_visibility(&self, pos: Position) -> (r: Option<VisibilityState>)
        requires
            self.wf(),
        ensures
            r == (if self.in_bounds(pos) {
                Some(self.visibility@[self.index_of(pos)])
            } else {
                None
            }),
    {
        match self.idx(pos) {
            Some(i) => Some(self.visibility[i]),
            None => None,
        }
    }

    /// Records what the player knows of `pos`; off the map nothing changes.
    pub fn set_visibility(&mut self, pos: Position, state: VisibilityState)
        requires
            old(self).wf(),
        ensures
            final(self).width == old(self).width,
            final(self).height == old(self).height,
            final(self).tiles == old(self).tiles,
            final(self).visibility@ == (if old(self).in_bounds(pos) {
                old(self).visibility@.update(old(self).index_of(pos), state)
            } else {
                old(self).visibility@
            }),
    {
        if let Some(i) = self.idx(pos) {
            self.visibility.set(i, state);
        }
    }

    /// The four cells around `pos`, in the order up, down, left, right.
    pub open spec fn around(pos: Position) -> Seq<Position> {
        seq![
            Position { x: pos.x, y: (pos.y - 1) as i32 },
            Position { x: pos.x, y: (pos.y + 1) as i32 },
            Position { x: (pos.x - 1) as i32, y: pos.y },
            Position { x: (pos.x + 1) as i32, y: pos.y },
        ]
    }

    /// The cells around `pos` that lie on the map, in the order up, down, left, right.
    pub fn neighbors(&self, pos: Position) -> (r: Vec<Position>)
        requires
            self.wf(),
            i32::MIN < pos.x < i32::MAX,
            i32::MIN < pos.y < i32::MAX,
        ensures
            r@ == Self::around(pos).filter(|p: Position| self.in_bounds(p)),
    {
        let candidates = [
            Position::new(pos.x, pos.y - 1),
            Position::new(pos.x, pos.y + 1),
            Position::new(pos.x - 1, pos.y),
            Position::new(pos.x + 1, pos.y),
        ];
        let ghost pred = |p: Position| self.in_bounds(p);
        let ghost all = Self::around(pos);
        let mut r: Vec<Position> = Vec::new();
        let mut i: usize = 0;
        while i < 4
            invariant
                i <= 4,
                candidates@ == all,
                all.len() == 4,
                self.wf(),
                pred == (|p: Position| self.in_bounds(p)),
                r@ == all.take(i as int).filter(pred),
            decreases 4 - i,
        {
            let p = candidates[i];
            proof {
                reveal_with_fuel(Seq::<_>::filter, 1);
                assert(all.take(i + 1).drop_last() =~= all.take(i as int));
            }
            if self.idx(p).is_some() {
                r.push(p);
            }
            i = i + 1;
        }
        assert(all.take(4) =~= all);
        r
    }

    /// The tile at `pos` for changing it, or `None` off the map.
    pub fn get_mut(&mut self, pos: Position) -> (r: Option<&mut Tile>)
        requires
            old(self).wf(),
        ensures
            r is Some <==> old(self).in_bounds(pos),
            r is None ==> *final(self) == *old(self),
            r matches Some(t) ==> *t == old(self).tile_at(pos),
            r matches Some(t) ==> final(self).tiles@ == old(self).tiles@.update(
                old(self).index_of(pos),
                *final(t),
            ),
            r matches Some(t) ==> 0 <= old(self).index_of(pos) < old(self).tiles@.len(),
            final(self).tiles@.len() == old(self).tiles@.len(),
            final(self).wf(),
            final(self).width == old(self).width,
            final(self).height == old(self).height,
            final(self).visibility == old(self).visibility,
    {
        match self.idx(pos) {
            Some(i) => Some(&mut self.tiles[i]),
            None => None,
        }
    }
}

} // verus!

verus! {

/// What a tile that falls out of sight becomes: what was in sight is now only visited.
pub open spec fn faded(v: VisibilityState) -> VisibilityState {
    if v == VisibilityState::Visible {
        VisibilityState::Visited
    } else {
        v
    }
}

/// Whether a hero at `hero` with sight `range` sees the cell at column `cx`, row `cy`:
/// the Euclidean distance is at most `range`.
pub open spec fn sees(hero: Position, range: u32, cx: int, cy: int) -> bool {
    (cx - hero.x) * (cx - hero.x) + (cy - hero.y) * (cy - hero.y) <= range * range
}

/// Whether the hero sees the cell stored at index `i` of a map of width `w`.
pub open spec fn sees_cell(hero: Position, range: u32, w: u32, i: int) -> bool {
    sees(hero, range, i % (w as int), i / (w as int))
}

/// The cell stored at index `i` of a map of width `w` is column `x`, row `y`.
pub open spec fn at_cell(w: u32, i: int, x: int, y: int) -> bool {
    i % (w as int) == x && i / (w as int) == y
}

/// On a well-formed map, the cell stored at index `i` is `pos` exactly when `pos` lies on the
/// map and is stored at `i`.
pub proof fn lemma_cell_matches(map: AdventureMap, i: int, pos: Position)
    requires
        map.wf(),
        0 <= i < map.tiles@.len(),
    ensures
        at_cell(map.width, i, pos.x as int, pos.y as int) <==> (map.in_bounds(pos) && i
            == map.index_of(pos)),
{
    let w = map.width as int;
    let h = map.height as int;
    lemma_cell_of(w, h, i);
    if map.in_bounds(pos) && i == map.index_of(pos) {
        lemma_cell_index_injective(w, i % w, i / w, pos.x as int, pos.y as int);
    }
}

/// What the player knows of every tile after the fog is refreshed for a hero at `hero` with
/// sight `range` on a map of width `w`.
pub open spec fn fog_after(vis: Seq<VisibilityState>, w: u32, hero: Position, range: u32) -> Seq<
    VisibilityState,
> {
    Seq::new(
        vis.len(),
        |i: int|
            if sees_cell(hero, range, w, i) {
                VisibilityState::Visible
            } else {
                faded(vis[i])
            },
    )
}

/// Refreshing the fog never hides again what was explored; a tile is visible afterwards
/// exactly when the hero sees it, and the hero always sees its own tile.
pub proof fn lemma_fog_keeps_explored(
    vis: Seq<VisibilityState>,
    w: u32,
    hero: Position,
    range: u32,
    i: int,
)
    requires
        0 <= i < vis.len(),
    ensures
        vis[i] != VisibilityState::Unexplored ==> fog_after(vis, w, hero, range)[i]
            != VisibilityState::Unexplored,
        (fog_after(vis, w, hero, range)[i] == VisibilityState::Visible) <==> sees_cell(
            hero,
            range,
            w,
            i,
        ),
        at_cell(w, i, hero.x as int, hero.y as int) ==> fog_after(vis, w, hero, range)[i]
            == VisibilityState::Visible,
{
    if at_cell(w, i, hero.x as int, hero.y as int) {
        let dx = i % (w as int) - hero.x;
        let dy = i / (w as int) - hero.y;
        assert(dx * dx + dy * dy == 0) by (nonlinear_arith)
            requires
                dx == 0,
                dy == 0,
        ;
    }
}

/// The cell at index `i` is seen and comes before offset (`dy`, `dx`) in row-major sweep order.
spec fn swept(hero: Position, range: u32, w: u32, i: int, dy: int, dx: int) -> bool {
    let ddx = i % (w as int) - hero.x;
    let ddy = i / (w as int) - hero.y;
    sees_cell(hero, range, w, i) && (ddy < dy || (ddy == dy && ddx < dx))
}

/// Index `i` of a `w × h` grid is the cell at column `i % w`, row `i / w`.
pub proof fn lemma_cell_of(w: int, h: int, i: int)
    requires
        0 <= w,
        0 <= h,
        0 <= i < w * h,
    ensures
        w > 0,
        0 <= i % w < w,
        0 <= i / w < h,
        i == (i / w) * w + i % w,
{
    assert(w > 0) by (nonlinear_arith)
        requires
            0 <= i < w * h,
            0 <= w,
            0 <= h,
    ;
    vstd::arithmetic::div_mod::lemma_fundamental_div_mod(i, w);
    vstd::arithmetic::div_mod::lemma_mod_bound(i, w);
    let q = i / w;
    let m = i % w;
    assert(q * w == w * q) by (nonlinear_arith);
    assert(0 <= q < h) by (nonlinear_arith)
        requires
            i == q * w + m,
            0 <= m < w,
            0 <= i < w * h,
            0 < w,
    ;
}

/// A seen offset lies within `range` on both axes.
proof fn lemma_seen_offsets(a: int, b: int, r: int)
    requires
        a * a + b * b <= r * r,
        0 <= r,
    ensures
        -r <= a <= r,
        -r <= b <= r,
{
    assert(0 <= b * b) by (nonlinear_arith);
    assert(0 <= a * a) by (nonlinear_arith);
    assert(-r <= a <= r) by (nonlinear_arith)
        requires
            a * a <= r * r,
            0 <= r,
    ;
    assert(-r <= b <= r) by (nonlinear_arith)
        requires
            b * b <= r * r,
            0 <= r,
    ;
}

/// Refreshes the fog of war for a hero at `hero_pos` with sight `sight_range`:
/// every tile in sight before becomes visited, then every tile within Euclidean distance
/// `sight_range` of the hero becomes visible.
pub fn update_visibility(map: &mut AdventureMap, hero_pos: Position, sight_range: u32)
    requires
        old(map).wf(),
        sight_range <= 32767,
        i32::MIN <= hero_pos.x - sight_range,
        hero_pos.x + sight_range <= i32::MAX,
        i32::MIN <= hero_pos.y - sight_range,
        hero_pos.y + sight_range <= i32::MAX,
    ensures
        final(map).wf(),
        final(map).width == old(map).width,
        final(map).height == old(map).height,
        final(map).tiles == old(map).tiles,
        final(map).visibility@.len() == old(map).visibility@.len(),
        final(map).visibility@ == fog_after(
            old(map).visibility@,
            old(map).width,
            hero_pos,
            sight_range,
        ),
        forall|i: int|
            0 <= i < old(map).visibility@.len() ==> #[trigger] final(map).visibility@[i] == (
            if sees_cell(hero_pos, sight_range, old(map).width, i) {
                VisibilityState::Visible
            } else {
                faded(old(map).visibility@[i])
            }),
{
    let size = (map.width * map.height) as usize;
    let ghost old_vis = map.visibility@;
    let ghost w = map.width;
    let ghost h = map.height;
    let mut i: usize = 0;
    while i < size
        invariant
            i <= size,
            size == w * h,
            map.wf(),
            map.width == w,
            map.height == h,
            map.tiles == old(map).tiles,
            old_vis == old(map).visibility@,
            map.visibility@.len() == size,
            forall|j: int| 0 <= j < i ==> #[trigger] map.visibility@[j] == faded(old_vis[j]),
            forall|j: int| i <= j < size ==> #[trigger] map.visibility@[j] == old_vis[j],
        decreases size - i,
    {
        if map.visibility[i] == VisibilityState::Visible {
            map.visibility.set(i, VisibilityState::Visited);
        }
        i = i + 1;
    }
    let r: i64 = sight_range as i64;
    assert(r * r <= 32767 * 32767) by (nonlinear_arith)
        requires
            0 <= r <= 32767,
    ;
    let r2: i64 = r * r;
    let hx: i64 = hero_pos.x as i64;
    let hy: i64 = hero_pos.y as i64;
    proof {
        assert forall|j: int| 0 <= j < size implies #[trigger] map.visibility@[j] == (if swept(
            hero_pos,
            sight_range,
            w,
            j,
            -r as int,
            -r as int,
        ) {
            VisibilityState::Visible
        } else {
            faded(old_vis[j])
        }) by {
            lemma_cell_of(w as int, h as int, j);
            if sees_cell(hero_pos, sight_range, w, j) {
                lemma_seen_offsets(j % (w as int) - hero_pos.x, j / (w as int) - hero_pos.y, r as int);
            }
        }
    }
    let mut dy: i64 = -r;
    while dy <= r
        invariant
            -r <= dy <= r + 1,
            r == sight_range,
            r2 == r * r,
            hx == hero_pos.x,
            hy == hero_pos.y,
            sight_range <= 32767,
            i32::MIN <= hero_pos.x - sight_range,
            hero_pos.x + sight_range <= i32::MAX,
            i32::MIN <= hero_pos.y - sight_range,
            hero_pos.y + sight_range <= i32::MAX,
            size == w * h,
            map.wf(),
            map.width == w,
            map.height == h,
            map.tiles == old(map).tiles,
            map.visibility@.len() == size,
            forall|j: int|
                0 <= j < size ==> #[trigger] map.visibility@[j] == (if swept(
                    hero_pos,
                    sight_range,
                    w,
                    j,
                    dy as int,
                    -r as int,
                ) {
                    VisibilityState::Visible
                } else {
                    faded(old_vis[j])
                }),
        decreases r + 1 - dy,
    {
        let mut dx: i64 = -r;
        while dx <= r
            invariant
                -r <= dx <= r + 1,
                -r <= dy <= r,
                r == sight_range,
                r2 == r * r,
                hx == hero_pos.x,
                hy == hero_pos.y,
                sight_range <= 32767,
                i32::MIN <= hero_pos.x - sight_range,
                hero_pos.x + sight_range <= i32::MAX,
                i32::MIN <= hero_pos.y - sight_range,
                hero_pos.y + sight_range <= i32::MAX,
                size == w * h,
                map.wf(),
                map.width == w,
                map.height == h,
                map.tiles == old(map).tiles,
                map.visibility@.len() == size,
                forall|j: int|
                    0 <= j < size ==> #[trigger] map.visibility@[j] == (if swept(
                        hero_pos,
                        sight_range,
                        w,
                        j,
                        dy as int,
                        dx as int,
                    ) {
                        VisibilityState::Visible
                    } else {
                        faded(old_vis[j])
                    }),
            decreases r + 1 - dx,
        {
            assert(0 <= dx * dx <= 32767 * 32767 && 0 <= dy * dy <= 32767 * 32767) by (nonlinear_arith)
                requires
                    -32767 <= dx <= 32767,
                    -32767 <= dy <= 32767,
            ;
            let ghost before = map.visibility@;
            if dx * dx + dy * dy <= r2 {
                let pos = Position::new((hx + dx) as i32, (hy + dy) as i32);
                map.set_visibility(pos, VisibilityState::Visible);
                proof {
                    if map.in_bounds(pos) {
                        lemma_cell_index(w as int, h as int, pos.x as int, pos.y as int);
                    }
                    let k = pos.y * (w as int) + pos.x;
                    assert forall|j: int| 0 <= j < size implies #[trigger] map.visibility@[j] == (
                    if swept(hero_pos, sight_range, w, j, dy as int, dx + 1) {
                        VisibilityState::Visible
                    } else {
                        faded(old_vis[j])
                    }) by {
                        lemma_cell_of(w as int, h as int, j);
                        let cx = j % (w as int);
                        let cy = j / (w as int);
                        if cx == pos.x && cy == pos.y {
                        } else {
                            if map.in_bounds(pos) && j == k {
                                lemma_cell_index_injective(w as int, cx, cy, pos.x as int, pos.y as int);
                            }
                        }
                    }
                }
            } else {
                proof {
                    assert forall|j: int| 0 <= j < size implies #[trigger] map.visibility@[j] == (
                    if swept(hero_pos, sight_range, w, j, dy as int, dx + 1) {
                        VisibilityState::Visible
                    } else {
                        faded(old_vis[j])
                    }) by {
                        lemma_cell_of(w as int, h as int, j);
                    }
                }
            }
            dx = dx + 1;
        }
        proof {
            assert forall|j: int| 0 <= j < size implies #[trigger] map.visibility@[j] == (if swept(
                hero_pos,
                sight_range,
                w,
                j,
                dy + 1,
                -r as int,
            ) {
                VisibilityState::Visible
            } else {
                faded(old_vis[j])
            }) by {
                lemma_cell_of(w as int, h as int, j);
                if sees_cell(hero_pos, sight_range, w, j) {
                    lemma_seen_offsets(j % (w as int) - hero_pos.x, j / (w as int) - hero_pos.y, r as int);
                }
            }
        }
        dy = dy + 1;
    }
    proof {
        assert forall|j: int| 0 <= j < old_vis.len() implies #[trigger] map.visibility@[j] == (
        if sees_cell(hero_pos, sight_range, w, j) {
            VisibilityState::Visible
        } else {
            faded(old_vis[j])
        }) by {
            lemma_cell_of(w as int, h as int, j);
            if sees_cell(hero_pos, sight_range, w, j) {
                lemma_seen_offsets(j % (w as int) - hero_pos.x, j / (w as int) - hero_pos.y, r as int);
            }
        }
    }
}

} // verus!
