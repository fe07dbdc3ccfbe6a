use vstd::prelude::*;
use crate::geom::{Coord, Size};
use crate::shadowcast::{compute_field_of_view, field_of_view, MAX_RADIUS};
use crate::world::{Layer, Light, Tile, World};

verus! {

/// What the player knows of a cell.
#[derive(Clone, Copy, Debug, PartialEq, Eq, Structural)]
pub enum CellVisibility {
    /// Never observed.
    Never,
    /// Observed before, not in sight now.
    Remembered,
    /// In sight now.
    Visible,
}

/// Debug override that puts every cell in sight.
#[derive(Clone, Copy, Debug, PartialEq, Eq, Structural)]
pub struct Omniscient;

/// The player's knowledge of one cell: its state, the light it had when last
/// seen, and the feature seen there last.
#[derive(Clone, Copy, Debug, PartialEq, Eq, Structural)]
pub struct VisibilityCell {
    pub visibility: CellVisibility,
    pub light: u8,
    pub feature: Option<Tile>,
}

/// Per-cell visibility, with the scratch buffers that each recomputation reuses.
pub struct VisibilityGrid {
    size: Size,
    cells: Vec<VisibilityCell>,
    opacity: Vec<u8>,
    seen: Vec<bool>,
    lit: Vec<bool>,
    light: Vec<u8>,
}

/// The new state of a cell given whether it is in sight now, its light, and the
/// feature that stands there.
pub open spec fn updated_cell(c: VisibilityCell, seen: bool, light: u8, feature: Option<Tile>) -> VisibilityCell {
    if seen {
        VisibilityCell { visibility: CellVisibility::Visible, light, feature }
    } else if c.visibility == CellVisibility::Never {
        c
    } else {
        VisibilityCell { visibility: CellVisibility::Remembered, ..c }
    }
}

pub open spec fn apply_update(
    cells: Seq<VisibilityCell>,
    seen: Seq<bool>,
    light: Seq<u8>,
    features: Seq<Option<Tile>>,
) -> Seq<VisibilityCell> {
    Seq::new(cells.len(), |i: int| updated_cell(cells[i], seen[i], light[i], features[i]))
}

/// Updating twice with the same observations gives the same grid as updating once.
pub proof fn lemma_update_idempotent(
    cells: Seq<VisibilityCell>,
    seen: Seq<bool>,
    light: Seq<u8>,
    features: Seq<Option<Tile>>,
)
    ensures
        apply_update(apply_update(cells, seen, light, features), seen, light, features)
            == apply_update(cells, seen, light, features),
{
    assert(apply_update(apply_update(cells, seen, light, features), seen, light, features)
        =~= apply_update(cells, seen, light, features));
}

/// The feature tile standing in the cell at row-major position `i`.
pub open spec fn feature_at_index(w: World, i: int) -> Option<Tile> {
    match w.cells@[i].feature {
        Some(f) => w.tile.spec_get(f),
        None => None,
    }
}

/// Opacity of the cell at row-major position `i`.
pub open spec fn opacity_at_index(w: World, i: int) -> u8 {
    match feature_at_index(w, i) {
        Some(t) => t.spec_opacity(),
        None => 0,
    }
}

pub open spec fn features_of(w: World) -> Seq<Option<Tile>> {
    Seq::new(w.size.count(), |i: int| feature_at_index(w, i))
}

pub open spec fn opacity_of(w: World) -> Seq<u8> {
    Seq::new(w.size.count(), |i: int| opacity_at_index(w, i))
}

/// The light attached to the floor of the cell at row-major position `i`.
pub open spec fn light_at_index(w: World, i: int) -> Option<Light> {
    match w.cells@[i].floor {
        Some(f) => w.light.spec_get(f),
        None => None,
    }
}

/// Scan depth of a light of range `range`.
pub open spec fn light_radius(range: u32) -> int {
    if range < 1 {
        1
    } else if range > MAX_RADIUS {
        MAX_RADIUS as int
    } else {
        range as int
    }
}

/// Light levels after the lights of the first `k` cells have shone: a cell
/// takes the brightest intensity among the lights that see it.
pub open spec fn light_levels(w: World, k: int) -> Seq<u8>
    decreases k,
{
    if k <= 0 {
        Seq::new(w.size.count(), |i: int| 0u8)
    } else {
        let prev = light_levels(w, k - 1);
        match light_at_index(w, k - 1) {
            None => prev,
            Some(l) => {
                let fov = field_of_view(
                    opacity_of(w),
                    w.size,
                    w.size.coord_of(k - 1),
                    light_radius(l.range),
                );
                Seq::new(
                    prev.len(),
                    |i: int|
                        if fov[i] && l.intensity > prev[i] {
                            l.intensity
                        } else {
                            prev[i]
                        },
                )
            },
        }
    }
}

/// Scan depth that covers the whole grid from any viewpoint.
pub open spec fn view_radius(size: Size) -> int {
    if size.width >= size.height {
        size.width as int
    } else {
        size.height as int
    }
}

/// Which cells are in sight from `viewpoint`.
pub open spec fn seen_cells(w: World, viewpoint: Coord, omniscient: Option<Omniscient>) -> Seq<bool> {
    if omniscient is Some {
        Seq::new(w.size.count(), |i: int| true)
    } else {
        field_of_view(opacity_of(w), w.size, viewpoint, view_radius(w.size))
    }
}

impl VisibilityGrid {
    pub closed spec fn spec_size(&self) -> Size {
        self.size
    }

    pub closed spec fn spec_cells(&self) -> Seq<VisibilityCell> {
        self.cells@
    }

    pub open spec fn wf(&self) -> bool {
        &&& self.spec_size().wf()
        &&& self.spec_cells().len() == self.spec_size().count()
    }

    /// A grid where no cell has been observed.
    pub fn new(size: Size) -> (r: VisibilityGrid)
        requires
            size.wf(),
        ensures
            r.wf(),
            r.spec_size() == size,
            forall|i: int|
                0 <= i < r.spec_cells().len() ==> (#[trigger] r.spec_cells()[i]).visibility
                    == CellVisibility::Never,
    {
        let n = size.num_cells();
        let mut cells: Vec<VisibilityCell> = Vec::new();
        let mut i: usize = 0;
        while i < n
            invariant
                i <= n,
                cells@.len() == i,
                forall|k: int| 0 <= k < i ==> (#[trigger] cells@[k]).visibility == CellVisibility::Never,
            decreases n - i,
        {
            cells.push(VisibilityCell { visibility: CellVisibility::Never, light: 0, feature: None });
            i += 1;
        }
        VisibilityGrid {
            size,
            cells,
            opacity: Vec::new(),
            seen: Vec::new(),
            lit: Vec::new(),
            light: Vec::new(),
        }
    }

    pub fn size(&self) -> (r: Size)
        ensures
            r == self.spec_size(),
    {
        self.size
    }

    /// What is known of `c`; `Never` outside the grid.
    pub fn cell_visibility(&self, c: Coord) -> (r: CellVisibility)
        requires
            self.wf(),
        ensures
            self.spec_size().contains(c) ==> r == self.spec_cells()[self.spec_size().index_of(c)].visibility,
            !self.spec_size().contains(c) ==> r == CellVisibility::Never,
    {
        if self.size.is_valid(c) {
            self.cells[self.size.index(c)].visibility
        } else {
            CellVisibility::Never
        }
    }

    /// Everything known of `c`, or `None` outside the grid.
    pub fn get(&self, c: Coord) -> (r: Option<VisibilityCell>)
        requires
            self.wf(),
        ensures
            self.spec_size().contains(c) ==> r == Some(
                self.spec_cells()[self.spec_size().index_of(c)],
            ),
            !self.spec_size().contains(c) ==> r is None,
    {
        if self.size.is_valid(c) {
            Some(self.cells[self.size.index(c)])
        } else {
            None
        }
    }
}


impl VisibilityGrid {
    /// Recomputes the grid from `viewpoint` over the world's current state: a
    /// cell in sight becomes `Visible` with its current light and feature, a
    /// cell seen before and out of sight now becomes `Remembered` and keeps
    /// what was seen, and an unseen cell stays `Never`. The viewpoint itself is
    /// always `Visible`.
    pub fn update(&mut self, viewpoint: Coord, w: &World, omniscient: Option<Omniscient>)
        requires
            old(self).wf(),
            w.wf(),
            w.size == old(self).spec_size(),
            w.size.contains(viewpoint),
        ensures
            final(self).wf(),
            final(self).spec_size() == old(self).spec_size(),
            final(self).spec_cells() == apply_update(
                old(self).spec_cells(),
                seen_cells(*w, viewpoint, omniscient),
                light_levels(*w, w.size.count() as int),
                features_of(*w),
            ),
            final(self).spec_cells()[w.size.index_of(viewpoint)].visibility == CellVisibility::Visible,
    {
        let n = self.size.num_cells();
        self.fill_opacity(w);
        if omniscient.is_some() {
            self.seen.clear();
            let mut i: usize = 0;
            while i < n
                invariant
                    i <= n,
                    n == self.size.count(),
                    self.size == old(self).size,
                    self.cells == old(self).cells,
                    self.opacity@ == opacity_of(*w),
                    self.seen@.len() == i,
                    forall|k: int| 0 <= k < i ==> self.seen@[k],
                decreases n - i,
            {
                self.seen.push(true);
                i += 1;
            }
            assert(self.seen@ =~= seen_cells(*w, viewpoint, omniscient));
        } else {
            let radius: i64 = if self.size.width >= self.size.height {
                self.size.width as i64
            } else {
                self.size.height as i64
            };
            compute_field_of_view(&self.opacity, self.size, viewpoint, radius, &mut self.seen);
        }
        self.fill_light(w);
        let ghost before = self.cells@;
        let mut i: usize = 0;
        while i < n
            invariant
                i <= n,
                n == self.size.count(),
                self.size == w.size,
                w.wf(),
                self.seen@ == seen_cells(*w, viewpoint, omniscient),
                self.seen@.len() == n,
                self.light@ == light_levels(*w, n as int),
                self.light@.len() == n,
                self.cells@.len() == n,
                before.len() == n,
                forall|k: int|
                    0 <= k < i ==> self.cells@[k] == updated_cell(
                        before[k],
                        self.seen@[k],
                        self.light@[k],
                        feature_at_index(*w, k),
                    ),
                forall|k: int| i <= k < n ==> self.cells@[k] == before[k],
            decreases n - i,
        {
            let feature = match w.cells[i].feature {
                Some(f) => w.tile.get(f),
                None => None,
            };
            let c = self.cells[i];
            let nc = if self.seen[i] {
                VisibilityCell { visibility: CellVisibility::Visible, light: self.light[i], feature }
            } else if c.visibility == CellVisibility::Never {
                c
            } else {
                VisibilityCell { visibility: CellVisibility::Remembered, ..c }
            };
            self.cells.set(i, nc);
            i += 1;
        }
        assert(self.cells@ =~= apply_update(
            before,
            seen_cells(*w, viewpoint, omniscient),
            light_levels(*w, w.size.count() as int),
            features_of(*w),
        ));
        proof {
            crate::geom::lemma_index_coord(self.size, viewpoint);
        }
    }

    fn fill_opacity(&mut self, w: &World)
        requires
            old(self).wf(),
            w.wf(),
            w.size == old(self).spec_size(),
        ensures
            final(self).wf(),
            final(self).size == old(self).size,
            final(self).cells == old(self).cells,
            final(self).opacity@ == opacity_of(*w),
    {
        fill_opacity(w, &mut self.opacity);
    }

    fn fill_light(&mut self, w: &World)
        requires
            old(self).wf(),
            w.wf(),
            w.size == old(self).spec_size(),
            old(self).opacity@ == opacity_of(*w),
        ensures
            final(self).wf(),
            final(self).size == old(self).size,
            final(self).cells == old(self).cells,
            final(self).opacity == old(self).opacity,
            final(self).seen == old(self).seen,
            final(self).light@ == light_levels(*w, w.size.count() as int),
            final(self).light@.len() == w.size.count(),
    {
        let n = self.size.num_cells();
        self.light.clear();
        let mut i: usize = 0;
        while i < n
            invariant
                i <= n,
                n == w.size.count(),
                self.size == old(self).size,
                self.cells == old(self).cells,
                self.opacity == old(self).opacity,
                self.seen == old(self).seen,
                self.light@.len() == i,
                forall|k: int| 0 <= k < i ==> self.light@[k] == 0,
            decreases n - i,
        {
            self.light.push(0);
            i += 1;
        }
        assert(self.light@ =~= light_levels(*w, 0));
        let mut k: usize = 0;
        while k < n
            invariant
                k <= n,
                n == w.size.count(),
                w.wf(),
                self.wf(),
                self.size == w.size,
                self.size == old(self).size,
                self.opacity@ == opacity_of(*w),
                self.cells == old(self).cells,
                self.opacity == old(self).opacity,
                self.seen == old(self).seen,
                self.light@ == light_levels(*w, k as int),
                self.light@.len() == n,
            decreases n - k,
        {
            let source = match w.cells[k].floor {
                Some(f) => w.light.get(f),
                None => None,
            };
            match source {
                None => {},
                Some(l) => {
                    let origin = self.size.coord(k);
                    let radius: i64 = if l.range < 1 {
                        1
                    } else if l.range as i64 > MAX_RADIUS {
                        MAX_RADIUS
                    } else {
                        l.range as i64
                    };
                    compute_field_of_view(&self.opacity, self.size, origin, radius, &mut self.lit);
                    let ghost prev = self.light@;
                    let ghost fov = self.lit@;
                    let mut i: usize = 0;
                    while i < n
                        invariant
                            i <= n,
                            n == w.size.count(),
                            self.size == old(self).size,
                            self.cells == old(self).cells,
                            self.opacity == old(self).opacity,
                            self.seen == old(self).seen,
                            self.lit@.len() == n,
                            self.lit@ == fov,
                            prev.len() == n,
                            self.light@.len() == n,
                            forall|j: int|
                                0 <= j < i ==> self.light@[j] == (if self.lit@[j] && l.intensity
                                    > prev[j] {
                                    l.intensity
                                } else {
                                    prev[j]
                                }),
                            forall|j: int| i <= j < n ==> self.light@[j] == prev[j],
                        decreases n - i,
                    {
                        if self.lit[i] && l.intensity > self.light[i] {
                            self.light.set(i, l.intensity);
                        }
                        i += 1;
                    }
                    assert(self.light@ =~= light_levels(*w, k as int + 1));
                },
            }
            k += 1;
        }
    }
}

/// A recomputation leaves the viewpoint `Visible`, and a second recomputation
/// over the same world from the same viewpoint changes nothing.
pub proof fn lemma_recompute_stable(
    cells: Seq<VisibilityCell>,
    w: World,
    viewpoint: Coord,
    omniscient: Option<Omniscient>,
)
    ensures
        ({
            let once = apply_update(
                cells,
                seen_cells(w, viewpoint, omniscient),
                light_levels(w, w.size.count() as int),
                features_of(w),
            );
            apply_update(
                once,
                seen_cells(w, viewpoint, omniscient),
                light_levels(w, w.size.count() as int),
                features_of(w),
            ) == once
        }),
{
    lemma_update_idempotent(
        cells,
        seen_cells(w, viewpoint, omniscient),
        light_levels(w, w.size.count() as int),
        features_of(w),
    );
}

/// Writes the opacity of every cell of `w` into `out`, reusing its storage.
pub fn fill_opacity(w: &World, out: &mut Vec<u8>)
    requires
        w.wf(),
    ensures
        final(out)@ == opacity_of(*w),
{
    let n = w.size.num_cells();
    out.clear();
    let mut i: usize = 0;
    while i < n
        invariant
            i <= n,
            n == w.size.count(),
            w.cells@.len() == n,
            out@.len() == i,
            forall|k: int| 0 <= k < i ==> out@[k] == opacity_at_index(*w, k),
        decreases n - i,
    {
        let o = match w.cells[i].feature {
            Some(f) => match w.tile.get(f) {
                Some(t) => t.opacity(),
                None => 0,
            },
            None => 0,
        };
        out.push(o);
        i += 1;
    }
    assert(out@ =~= opacity_of(*w));
}
} // verus!
