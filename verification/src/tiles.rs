use crate::values::NO_DATA_I32;
use vstd::prelude::*;

verus! {

/// The values of one tile: `rows` times `cols` cells of `bands` values each, row
/// by row from the top, the bands of a cell side by side.
#[derive(Debug, Clone, PartialEq, Eq)]
pub struct TileBuffer {
    /// The mesh code of the tile.
    pub tile_code: u64,
    /// The values; `NO_DATA_I32` where nothing was written.
    pub values: Vec<i32>,
}

/// A buffer of `size` values that holds no data yet.
pub open spec fn blank_values(size: nat) -> Seq<i32> {
    Seq::new(size, |i: int| NO_DATA_I32)
}

/// `values` with `cells` written over it from place `base` on.
pub open spec fn overlay(values: Seq<i32>, base: int, cells: Seq<i32>) -> Seq<i32> {
    Seq::new(
        values.len(),
        |i: int|
            if base <= i < base + cells.len() {
                cells[i - base]
            } else {
                values[i]
            },
    )
}

/// Whether the tile codes of `tiles` strictly ascend.
pub open spec fn ascending(tiles: Seq<TileBuffer>) -> bool {
    forall|i: int, j: int|
        0 <= i < j < tiles.len() ==> (#[trigger] tiles[i]).tile_code < (#[trigger] tiles[j]).tile_code
}

/// Whether `tiles` holds a tile of code `code`.
pub open spec fn holds_tile(tiles: Seq<TileBuffer>, code: u64) -> bool {
    exists|i: int| 0 <= i < tiles.len() && (#[trigger] tiles[i]).tile_code == code
}

/// The place in `tiles` of a tile of code `code`.
pub open spec fn place_of(tiles: Seq<TileBuffer>, code: u64) -> int {
    choose|i: int| 0 <= i < tiles.len() && (#[trigger] tiles[i]).tile_code == code
}

/// The tiles of `tiles` by their codes.
pub open spec fn tile_map(tiles: Seq<TileBuffer>) -> Map<u64, Seq<i32>> {
    Map::new(|code: u64| holds_tile(tiles, code), |code: u64| tiles[place_of(tiles, code)].values@)
}

/// The buffers of the tiles met so far, kept in the order of their codes.
pub struct TileStore {
    tiles: Vec<TileBuffer>,
}

impl View for TileStore {
    type V = Map<u64, Seq<i32>>;

    /// The values of each tile, by the tile's code.
    closed spec fn view(&self) -> Map<u64, Seq<i32>> {
        tile_map(self.tiles@)
    }
}

/// In an ascending sequence a code stands at one place only.
pub proof fn lemma_place_of(tiles: Seq<TileBuffer>, i: int)
    requires
        ascending(tiles),
        0 <= i < tiles.len(),
    ensures
        holds_tile(tiles, tiles[i].tile_code),
        place_of(tiles, tiles[i].tile_code) == i,
        tile_map(tiles)[tiles[i].tile_code] == tiles[i].values@,
{
    let code = tiles[i].tile_code;
    let p = place_of(tiles, code);
    assert(0 <= p < tiles.len() && tiles[p].tile_code == code);
    if p < i {
        assert(tiles[p].tile_code < tiles[i].tile_code);
    } else if i < p {
        assert(tiles[i].tile_code < tiles[p].tile_code);
    }
}

/// Two ascending sequences that hold the same tiles are the same sequence, tile
/// for tile: what is held decides the order in which it comes out.
pub proof fn lemma_order_is_determined(a: Seq<TileBuffer>, b: Seq<TileBuffer>)
    requires
        ascending(a),
        ascending(b),
        tile_map(a) == tile_map(b),
    ensures
        a.len() == b.len(),
        forall|i: int|
            0 <= i < a.len() ==> (#[trigger] a[i]).tile_code == b[i].tile_code && a[i].values@
                == b[i].values@,
    decreases a.len(),
{
    if a.len() == 0 {
        if b.len() > 0 {
            lemma_place_of(b, 0);
            assert(tile_map(b).dom().contains(b[0].tile_code));
            assert(holds_tile(a, b[0].tile_code));
        }
    } else {
        let n = a.len() - 1;
        lemma_place_of(a, n);
        assert(tile_map(a).dom().contains(a[n].tile_code));
        assert(holds_tile(b, a[n].tile_code));
        assert(b.len() > 0);
        let m = b.len() - 1;
        lemma_place_of(b, m);
        assert(tile_map(b).dom().contains(b[m].tile_code));
        assert(holds_tile(a, b[m].tile_code));
        // The last of each is the greatest code of both.
        let pa = place_of(a, b[m].tile_code);
        let pb = place_of(b, a[n].tile_code);
        assert(a[pa].tile_code == b[m].tile_code && b[pb].tile_code == a[n].tile_code);
        if pa < n {
            assert(a[pa].tile_code < a[n].tile_code);
        }
        if pb < m {
            assert(b[pb].tile_code < b[m].tile_code);
        }
        assert(a[n].tile_code == b[m].tile_code);
        assert(a[n].values@ == b[m].values@);
        let fa = a.drop_last();
        let fb = b.drop_last();
        assert(ascending(fa)) by {
            assert forall|i: int, j: int| 0 <= i < j < fa.len() implies (#[trigger] fa[i]).tile_code
                < (#[trigger] fa[j]).tile_code by {
                assert(fa[i] == a[i] && fa[j] == a[j]);
            }
        }
        assert(ascending(fb)) by {
            assert forall|i: int, j: int| 0 <= i < j < fb.len() implies (#[trigger] fb[i]).tile_code
                < (#[trigger] fb[j]).tile_code by {
                assert(fb[i] == b[i] && fb[j] == b[j]);
            }
        }
        lemma_front_map(a);
        lemma_front_map(b);
        assert(tile_map(fa) =~= tile_map(fb));
        lemma_order_is_determined(fa, fb);
        assert forall|i: int| 0 <= i < a.len() implies (#[trigger] a[i]).tile_code
            == b[i].tile_code && a[i].values@ == b[i].values@ by {
            if i < n {
                assert(fa[i] == a[i] && fb[i] == b[i]);
            }
        }
    }
}

/// Without its last tile an ascending sequence holds what it held, but for that tile.
pub proof fn lemma_front_map(tiles: Seq<TileBuffer>)
    requires
        ascending(tiles),
        tiles.len() > 0,
    ensures
        tile_map(tiles.drop_last()) == tile_map(tiles).remove(tiles.last().tile_code),
{
    let front = tiles.drop_last();
    let last = tiles.last().tile_code;
    assert(ascending(front)) by {
        assert forall|i: int, j: int| 0 <= i < j < front.len() implies (#[trigger] front[i]).tile_code
            < (#[trigger] front[j]).tile_code by {
            assert(front[i] == tiles[i] && front[j] == tiles[j]);
        }
    }
    assert forall|code: u64| holds_tile(front, code) <==> (holds_tile(tiles, code) && code
        != last) by {
        if holds_tile(front, code) {
            let p = place_of(front, code);
            assert(front[p] == tiles[p]);
            assert(tiles[p].tile_code < tiles[tiles.len() - 1].tile_code);
        }
        if holds_tile(tiles, code) && code != last {
            let p = place_of(tiles, code);
            assert(p < tiles.len() - 1);
            assert(front[p] == tiles[p]);
        }
    }
    assert forall|code: u64| holds_tile(front, code) implies tile_map(front)[code] == tile_map(
        tiles,
    )[code] by {
        let p = place_of(front, code);
        assert(front[p] == tiles[p]);
        lemma_place_of(front, p);
        lemma_place_of(tiles, p);
    }
    assert(tile_map(front) =~= tile_map(tiles).remove(last));
}

impl TileStore {
    /// Whether the tiles stand in the order of their codes, each code once. Every
    /// store that `new` made and the functions below changed is so.
    pub closed spec fn wf(&self) -> bool {
        ascending(self.tiles@)
    }

    /// A store without tiles.
    pub fn new() -> (store: TileStore)
        ensures
            store.wf(),
            store@ == Map::<u64, Seq<i32>>::empty(),
    {
        let store = TileStore { tiles: Vec::new() };
        assert(store@ =~= Map::<u64, Seq<i32>>::empty());
        store
    }

    /// The place of the tile of code `code`, or else the place at which it would
    /// have to stand.
    fn find(&self, code: u64) -> (r: Result<usize, usize>)
        requires
            self.wf(),
        ensures
            match r {
                Ok(pos) => pos < self.tiles@.len() && self.tiles@[pos as int].tile_code == code,
                Err(pos) => pos <= self.tiles@.len() && !holds_tile(self.tiles@, code) && (forall|
                    i: int,
                |
                    0 <= i < pos ==> (#[trigger] self.tiles@[i]).tile_code < code) && (forall|i: int|
                    pos <= i < self.tiles@.len() ==> (#[trigger] self.tiles@[i]).tile_code > code),
            },
    {
        let mut low: usize = 0;
        let mut high: usize = self.tiles.len();
        while low < high
            invariant
                low <= high <= self.tiles@.len(),
                self.wf(),
                forall|i: int| 0 <= i < low ==> (#[trigger] self.tiles@[i]).tile_code < code,
                forall|i: int|
                    high <= i < self.tiles@.len() ==> (#[trigger] self.tiles@[i]).tile_code > code,
            decreases high - low,
        {
            let mid = low + (high - low) / 2;
            let c = self.tiles[mid].tile_code;
            if c == code {
                return Ok(mid);
            } else if c < code {
                assert forall|i: int| 0 <= i < mid + 1 implies (#[trigger] self.tiles@[i]).tile_code
                    < code by {
                    if i < mid {
                        assert(self.tiles@[i].tile_code < self.tiles@[mid as int].tile_code);
                    }
                }
                low = mid + 1;
            } else {
                assert forall|i: int| mid <= i < self.tiles@.len() implies (
                #[trigger] self.tiles@[i]).tile_code > code by {
                    if mid < i {
                        assert(self.tiles@[mid as int].tile_code < self.tiles@[i].tile_code);
                    }
                }
                high = mid;
            }
        }
        Err(low)
    }

    /// Writes `cells` into the tile of code `tile_code`, from place `base` on. A
    /// tile that is not held yet is made first, with `size` values that hold no
    /// data. What stood at the places written is lost; all else stays.
    pub fn write_cells(&mut self, tile_code: u64, size: usize, base: usize, cells: &Vec<i32>)
        requires
            old(self).wf(),
            base + cells@.len() <= size,
            old(self)@.dom().contains(tile_code) ==> old(self)@[tile_code].len() == size,
        ensures
            final(self).wf(),
            final(self)@ == old(self)@.insert(
                tile_code,
                overlay(
                    if old(self)@.dom().contains(tile_code) {
                        old(self)@[tile_code]
                    } else {
                        blank_values(size as nat)
                    },
                    base as int,
                    cells@,
                ),
            ),
    {
        let ghost before = self.tiles@;
        let pos = match self.find(tile_code) {
            Ok(pos) => {
                proof {
                    lemma_place_of(before, pos as int);
                }
                pos
            },
            Err(pos) => {
                let fresh = TileBuffer { tile_code, values: vec![NO_DATA_I32; size] };
                self.tiles.insert(pos, fresh);
                proof {
                    assert(fresh.values@ =~= blank_values(size as nat));
                    lemma_inserted(before, self.tiles@, pos as int, fresh);
                }
                pos
            },
        };
        let ghost made = self.tiles@;
        let ghost start = made[pos as int].values@;
        proof {
            lemma_place_of(made, pos as int);
        }
        let mut k: usize = 0;
        while k < cells.len()
            invariant
                k <= cells@.len(),
                pos < made.len(),
                self.tiles@.len() == made.len(),
                base + cells@.len() <= size,
                start.len() == size,
                start == made[pos as int].values@,
                self.tiles@[pos as int].tile_code == tile_code,
                self.tiles@[pos as int].values@ == overlay(start, base as int, cells@.take(k as int)),
                forall|i: int| 0 <= i < made.len() && i != pos ==> self.tiles@[i] == made[i],
            decreases cells@.len() - k,
        {
            let v = cells[k];
            self.tiles[pos].values[base + k] = v;
            proof {
                assert(self.tiles@[pos as int].values@ =~= overlay(
                    start,
                    base as int,
                    cells@.take(k + 1),
                ));
            }
            k = k + 1;
        }
        proof {
            assert(cells@.take(cells@.len() as int) =~= cells@);
            lemma_rewritten(made, self.tiles@, pos as int);
            assert(self@ =~= old(self)@.insert(
                tile_code,
                overlay(
                    if old(self)@.dom().contains(tile_code) {
                        old(self)@[tile_code]
                    } else {
                        blank_values(size as nat)
                    },
                    base as int,
                    cells@,
                ),
            ));
        }
    }

    /// Hands out the tiles in the order of their codes, and keeps none.
    pub fn take_all(&mut self) -> (tiles: Vec<TileBuffer>)
        requires
            old(self).wf(),
        ensures
            final(self).wf(),
            final(self)@ == Map::<u64, Seq<i32>>::empty(),
            ascending(tiles@),
            tile_map(tiles@) == old(self)@,
    {
        let mut out: Vec<TileBuffer> = Vec::new();
        std::mem::swap(&mut self.tiles, &mut out);
        assert(self@ =~= Map::<u64, Seq<i32>>::empty());
        out
    }
}

/// A sequence that ascends still does with a new tile put where its code belongs,
/// and then holds that tile besides the others.
pub proof fn lemma_inserted(before: Seq<TileBuffer>, after: Seq<TileBuffer>, pos: int, fresh: TileBuffer)
    requires
        ascending(before),
        0 <= pos <= before.len(),
        after == before.insert(pos, fresh),
        forall|i: int| 0 <= i < pos ==> (#[trigger] before[i]).tile_code < fresh.tile_code,
        forall|i: int| pos <= i < before.len() ==> (#[trigger] before[i]).tile_code > fresh.tile_code,
    ensures
        ascending(after),
        after[pos] == fresh,
        tile_map(after) == tile_map(before).insert(fresh.tile_code, fresh.values@),
{
    assert forall|i: int, j: int| 0 <= i < j < after.len() implies (#[trigger] after[i]).tile_code
        < (#[trigger] after[j]).tile_code by {
        let bi = if i < pos {
            i
        } else {
            i - 1
        };
        let bj = if j < pos {
            j
        } else {
            j - 1
        };
        if i != pos {
            assert(after[i] == before[bi]);
        }
        if j != pos {
            assert(after[j] == before[bj]);
        }
        if i != pos && j != pos {
            assert(before[bi].tile_code < before[bj].tile_code);
        }
    }
    assert forall|code: u64| holds_tile(after, code) <==> (holds_tile(before, code) || code
        == fresh.tile_code) by {
        if holds_tile(after, code) {
            let p = place_of(after, code);
            if p < pos {
                assert(after[p] == before[p]);
            } else if p > pos {
                assert(after[p] == before[p - 1]);
            }
        }
        if holds_tile(before, code) {
            let p = place_of(before, code);
            if p < pos {
                assert(after[p] == before[p]);
            } else {
                assert(after[p + 1] == before[p]);
            }
        }
        if code == fresh.tile_code {
            assert(after[pos].tile_code == code);
        }
    }
    assert forall|code: u64| holds_tile(after, code) implies tile_map(after)[code] == tile_map(
        before,
    ).insert(fresh.tile_code, fresh.values@)[code] by {
        let p = place_of(after, code);
        lemma_place_of(after, p);
        if p < pos {
            assert(after[p] == before[p]);
            lemma_place_of(before, p);
        } else if p > pos {
            assert(after[p] == before[p - 1]);
            lemma_place_of(before, p - 1);
        }
    }
    assert(tile_map(after) =~= tile_map(before).insert(fresh.tile_code, fresh.values@));
}

/// Where one tile of an ascending sequence got other values and all else stayed,
/// the sequence still ascends and holds the same tiles, that one with its new values.
pub proof fn lemma_rewritten(before: Seq<TileBuffer>, after: Seq<TileBuffer>, pos: int)
    requires
        ascending(before),
        0 <= pos < before.len(),
        after.len() == before.len(),
        after[pos].tile_code == before[pos].tile_code,
        forall|i: int| 0 <= i < before.len() && i != pos ==> after[i] == before[i],
    ensures
        ascending(after),
        tile_map(after) == tile_map(before).insert(before[pos].tile_code, after[pos].values@),
{
    assert forall|i: int, j: int| 0 <= i < j < after.len() implies (#[trigger] after[i]).tile_code
        < (#[trigger] after[j]).tile_code by {
        assert(after[i].tile_code == before[i].tile_code);
        assert(after[j].tile_code == before[j].tile_code);
        assert(before[i].tile_code < before[j].tile_code);
    }
    assert forall|code: u64| holds_tile(after, code) <==> holds_tile(before, code) by {
        if holds_tile(after, code) {
            let p = place_of(after, code);
            assert(before[p].tile_code == code);
        }
        if holds_tile(before, code) {
            let p = place_of(before, code);
            assert(after[p].tile_code == code);
        }
    }
    lemma_place_of(before, pos);
    assert forall|code: u64| holds_tile(after, code) implies tile_map(after)[code] == tile_map(
        before,
    ).insert(before[pos].tile_code, after[pos].values@)[code] by {
        let p = place_of(after, code);
        lemma_place_of(after, p);
        assert(before[p].tile_code == code);
        lemma_place_of(before, p);
    }
    assert(tile_map(after) =~= tile_map(before).insert(before[pos].tile_code, after[pos].values@));
}

} // verus!
