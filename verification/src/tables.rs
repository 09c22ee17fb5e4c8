//! Retained table paint bookkeeping, collapsed-track spans, HTML table
//! span attributes and the caption order inside a table wrapper.

use vstd::prelude::*;
use std::collections::HashMap;
use std::collections::HashSet;
use crate::taffy_style::BoxId;
use crate::retained::{box_is_descendant_of, box_under, GeneratedBoxTree};
use vstd::std_specs::iter::IteratorSpec;

verus! {

broadcast use vstd::std_specs::hash::group_hash_axioms;

/// The role a generated box plays inside a CSS table.
#[derive(Clone, Copy, Debug, PartialEq, Eq, Structural)]
pub enum InternalTableRole {
    Wrapper,
    Grid,
    Caption,
    RowGroup,
    HeaderGroup,
    FooterGroup,
    Row,
    Cell,
    ColumnGroup,
    Column,
}

/// Table parts whose sticky positioning the retained scroll solver owns:
/// every part except columns, column groups and the grid itself.
pub fn supports_retained_sticky_table_part(role: InternalTableRole) -> (supported: bool)
    ensures
        supported == !(role == InternalTableRole::Grid || role == InternalTableRole::Column
            || role == InternalTableRole::ColumnGroup),
{
    match role {
        InternalTableRole::Wrapper
        | InternalTableRole::Caption
        | InternalTableRole::RowGroup
        | InternalTableRole::HeaderGroup
        | InternalTableRole::FooterGroup
        | InternalTableRole::Row
        | InternalTableRole::Cell => true,
        _ => false,
    }
}

/// Table parts whose absolute/fixed fragments are emitted outside track
/// sizing: the same parts as the sticky solver owns.
pub fn supports_shared_positioned_table_part(role: InternalTableRole) -> (supported: bool)
    ensures
        supported == !(role == InternalTableRole::Grid || role == InternalTableRole::Column
            || role == InternalTableRole::ColumnGroup),
{
    match role {
        InternalTableRole::Wrapper
        | InternalTableRole::Caption
        | InternalTableRole::RowGroup
        | InternalTableRole::HeaderGroup
        | InternalTableRole::FooterGroup
        | InternalTableRole::Row
        | InternalTableRole::Cell => true,
        _ => false,
    }
}

/// Row groups, rows and cells take their static position from the
/// post-track zero anchor.
pub fn uses_zero_track_static_anchor(role: InternalTableRole) -> (zero_anchor: bool)
    ensures
        zero_anchor == (role == InternalTableRole::RowGroup || role
            == InternalTableRole::HeaderGroup || role == InternalTableRole::FooterGroup || role
            == InternalTableRole::Row || role == InternalTableRole::Cell),
{
    match role {
        InternalTableRole::RowGroup
        | InternalTableRole::HeaderGroup
        | InternalTableRole::FooterGroup
        | InternalTableRole::Row
        | InternalTableRole::Cell => true,
        _ => false,
    }
}

/// The role of one structural table fragment.
#[derive(Clone, Copy, Debug, PartialEq, Eq, Structural)]
pub enum TableFragmentRole {
    Grid,
    ColumnGroup,
    Column,
    RowGroup,
    Row,
    Cell,
}

/// One structural fragment of a laid-out table, in paint order. A track
/// created implicitly by placement has no box.
#[derive(Clone, Copy, Debug, PartialEq, Eq, Structural)]
pub struct TableFragment {
    pub box_id: Option<BoxId>,
    pub role: TableFragmentRole,
}

/// Retained paint data for one table whose geometry was accepted: its
/// structural fragments, its border model, the table box that owns the
/// collapsed-border geometry (when borders collapse) and the cells that
/// cross a collapsed track boundary and are therefore clipped.
pub struct TablePaintModel {
    pub fragments: Vec<TableFragment>,
    pub separated: bool,
    pub collapsed_table: Option<BoxId>,
    pub clipped_cells: HashSet<BoxId>,
}

/// What the background pass paints for one structural fragment.
#[derive(Clone, Copy, Debug, PartialEq, Eq, Structural)]
pub struct TablePartPaint {
    pub shadow: bool,
    pub background: bool,
    pub border: bool,
}

/// The background paint layer of a structural fragment; the grid paints in
/// the table's layer only when borders collapse.
pub open spec fn spec_phase_of(role: TableFragmentRole, collapsed: bool) -> Option<usize> {
    match role {
        TableFragmentRole::Grid => if collapsed {
            Some(0usize)
        } else {
            None
        },
        TableFragmentRole::ColumnGroup => Some(1usize),
        TableFragmentRole::Column => Some(2usize),
        TableFragmentRole::RowGroup => Some(3usize),
        TableFragmentRole::Row => Some(4usize),
        TableFragmentRole::Cell => Some(5usize),
    }
}

#[verifier::when_used_as_spec(spec_phase_of)]
pub fn phase_of(role: TableFragmentRole, collapsed: bool) -> (phase: Option<usize>)
    ensures
        phase == spec_phase_of(role, collapsed),
{
    match role {
        TableFragmentRole::Grid => if collapsed {
            Some(0)
        } else {
            None
        },
        TableFragmentRole::ColumnGroup => Some(1),
        TableFragmentRole::Column => Some(2),
        TableFragmentRole::RowGroup => Some(3),
        TableFragmentRole::Row => Some(4),
        TableFragmentRole::Cell => Some(5),
    }
}

/// Fragment `k` paints in layer `phase`.
pub open spec fn in_phase(fragments: Seq<TableFragment>, collapsed: bool, phase: int) -> spec_fn(usize) -> bool {
    |k: usize| k < fragments.len() && spec_phase_of(fragments[k as int].role, collapsed) == Some(phase as usize)
}

/// The fragments of the layers before `phase`, layer by layer.
pub open spec fn phases_before(fragments: Seq<TableFragment>, collapsed: bool, phase: int) -> Seq<usize>
    decreases phase,
{
    if phase <= 0 {
        seq![]
    } else {
        phases_before(fragments, collapsed, phase - 1) + Seq::new(fragments.len(), |k: int| k as usize).filter(
            in_phase(fragments, collapsed, phase - 1),
        )
    }
}

pub open spec fn background_order_of(fragments: Seq<TableFragment>, collapsed: bool) -> Seq<usize> {
    phases_before(fragments, collapsed, 6)
}

impl TablePaintModel {
    /// Whether the table's borders collapse.
    pub open spec fn spec_is_collapsed(&self) -> bool {
        self.collapsed_table is Some
    }

    /// The table's paint pass owns a box's decorations when a fragment of
    /// that box is among its fragments and either borders collapse or they
    /// are separated and the fragment is not the grid.
    pub open spec fn spec_manages(&self, box_id: BoxId) -> bool {
        exists|i: int|
            0 <= i < self.fragments@.len() && (#[trigger] self.fragments@[i]).box_id == Some(box_id)
                && (self.spec_is_collapsed() || (self.separated && self.fragments@[i].role
                != TableFragmentRole::Grid))
    }

    pub fn fragments(&self) -> (fragments: &[TableFragment])
        ensures
            fragments@ == self.fragments@,
    {
        self.fragments.as_slice()
    }

    pub fn is_separated(&self) -> (separated: bool)
        ensures
            separated == self.separated,
    {
        self.separated
    }

    pub fn is_collapsed(&self) -> (collapsed: bool)
        ensures
            collapsed == self.spec_is_collapsed(),
    {
        self.collapsed_table.is_some()
    }

    /// The table box owning the collapsed-border geometry, if any.
    pub fn collapsed_table(&self) -> (table: Option<BoxId>)
        ensures
            table == self.collapsed_table,
    {
        self.collapsed_table
    }

    pub fn manages(&self, box_id: BoxId) -> (managed: bool)
        ensures
            managed == self.spec_manages(box_id),
    {
        let collapsed = self.is_collapsed();
        let mut i: usize = 0;
        while i < self.fragments.len()
            invariant
                i <= self.fragments@.len(),
                collapsed == self.spec_is_collapsed(),
                forall|j: int|
                    0 <= j < i ==> !((#[trigger] self.fragments@[j]).box_id == Some(box_id) && (
                    collapsed || (self.separated && self.fragments@[j].role
                        != TableFragmentRole::Grid))),
            decreases self.fragments@.len() - i,
        {
            let fragment = self.fragments[i];
            if fragment.box_id == Some(box_id) && (collapsed || (self.separated && fragment.role
                != TableFragmentRole::Grid)) {
                return true;
            }
            i = i + 1;
        }
        false
    }

    /// The structural fragments in background paint order: the grid (only
    /// when borders collapse), then column groups, columns, row groups, rows
    /// and cells, each layer in fragment order. Columns have no layout
    /// child and a spanning cell's grid position is not its DOM position,
    /// so this order is the table's own, not the DOM's.
    pub fn background_order(&self) -> (order: Vec<usize>)
        ensures
            order@ == background_order_of(self.fragments@, self.spec_is_collapsed()),
    {
        let collapsed = self.is_collapsed();
        let mut order: Vec<usize> = Vec::new();
        let mut phase: usize = 0;
        while phase < 6
            invariant
                phase <= 6,
                collapsed == self.spec_is_collapsed(),
                order@ == phases_before(self.fragments@, collapsed, phase as int),
            decreases 6 - phase,
        {
            let ghost prior = order@;
            let ghost keep = in_phase(self.fragments@, collapsed, phase as int);
            let mut i: usize = 0;
            while i < self.fragments.len()
                invariant
                    phase < 6,
                    i <= self.fragments@.len(),
                    collapsed == self.spec_is_collapsed(),
                    keep == in_phase(self.fragments@, collapsed, phase as int),
                    order@ == prior + Seq::new(i as nat, |k: int| k as usize).filter(keep),
                decreases self.fragments@.len() - i,
            {
                proof {
                    let all = Seq::new(i as nat, |k: int| k as usize);
                    assert(Seq::new((i + 1) as nat, |k: int| k as usize) =~= all.push(i));
                    all.lemma_filter_push(i, keep);
                }
                if phase_of(self.fragments[i].role, collapsed) == Some(phase) {
                    order.push(i);
                }
                i = i + 1;
            }
            phase = phase + 1;
        }
        order
    }

    /// What the background pass paints for one structural fragment of the
    /// table. `shown`: the fragment's element is styled, displayed and
    /// visible and its fragment is paintable. `hidden_empty_cell`: the
    /// fragment is a cell hidden by `empty-cells: hide` (see
    /// `hides_empty_cell`). The grid also paints the table's shadow; in the
    /// separated model a cell paints its own border, while tracks have
    /// backgrounds only.
    pub fn part_paint(&self, role: TableFragmentRole, shown: bool, hidden_empty_cell: bool) -> (paint: TablePartPaint)
        ensures
            paint == (if !shown || (role == TableFragmentRole::Cell && hidden_empty_cell) {
                TablePartPaint { shadow: false, background: false, border: false }
            } else {
                TablePartPaint {
                    shadow: role == TableFragmentRole::Grid,
                    background: true,
                    border: self.separated && role == TableFragmentRole::Cell,
                }
            }),
    {
        if !shown || (role == TableFragmentRole::Cell && hidden_empty_cell) {
            return TablePartPaint { shadow: false, background: false, border: false };
        }
        TablePartPaint {
            shadow: role == TableFragmentRole::Grid,
            background: true,
            border: self.separated && role == TableFragmentRole::Cell,
        }
    }

    /// Whether a cell crosses a collapsed track boundary and is clipped.
    pub fn clips_cell(&self, box_id: BoxId) -> (clipped: bool)
        ensures
            clipped == self.clipped_cells@.contains(box_id),
    {
        self.clipped_cells.contains(&box_id)
    }
}

} // verus!

verus! {

/// A copy of a set of cells.
fn copy_cells(cells: &HashSet<BoxId>) -> (copy: HashSet<BoxId>)
    ensures
        copy@ == cells@,
{
    let ghost all = vstd::std_specs::hash::spec_hash_keys_iter(cells).remaining();
    let mut copy: HashSet<BoxId> = HashSet::new();
    let ghost mut count: int = 0;
    for cell in it: cells.iter()
        invariant
            it.seq() == all,
            count == it.index(),
            forall|k: BoxId| #[trigger] copy@.contains(k) <==> exists|j: int| 0 <= j < count && *all[j] == k,
    {
        proof {
            assert(cell == all[count]);
        }
        copy.insert(*cell);
        proof {
            assert forall|k: BoxId| #[trigger] copy@.contains(k) <==> exists|j: int| 0 <= j < count + 1 && *all[j] == k by {
                if k == *cell {
                    assert(*all[count] == k);
                }
            }
            count = count + 1;
        }
    }
    proof {
        assert forall|k: BoxId| #[trigger] copy@.contains(k) <==> cells@.contains(k) by {
            assert(all.unref().to_set() == cells@);
            if cells@.contains(k) {
                assert(all.unref().to_set().contains(k));
                let j = choose|j: int| 0 <= j < all.unref().len() && all.unref()[j] == k;
                assert(*all[j] == k);
            }
            if copy@.contains(k) {
                let j = choose|j: int| 0 <= j < count && *all[j] == k;
                assert(all.unref()[j] == k);
                assert(all.unref().to_set().contains(k));
            }
        }
        assert(copy@ =~= cells@);
    }
    copy
}

impl TablePaintModel {
    /// A copy of this model.
    pub fn duplicate(&self) -> (copy: TablePaintModel)
        ensures
            copy.fragments@ == self.fragments@,
            copy.separated == self.separated,
            copy.collapsed_table == self.collapsed_table,
            copy.clipped_cells@ == self.clipped_cells@,
    {
        let mut fragments: Vec<TableFragment> = Vec::new();
        let mut i: usize = 0;
        while i < self.fragments.len()
            invariant
                i <= self.fragments@.len(),
                fragments@ == self.fragments@.take(i as int),
            decreases self.fragments@.len() - i,
        {
            fragments.push(self.fragments[i]);
            proof {
                assert(fragments@ =~= self.fragments@.take(i + 1));
            }
            i = i + 1;
        }
        assert(fragments@ =~= self.fragments@);
        TablePaintModel {
            fragments,
            separated: self.separated,
            collapsed_table: self.collapsed_table,
            clipped_cells: copy_cells(&self.clipped_cells),
        }
    }
}

} // verus!

verus! {

/// The paint-side index of every table that completed its block phase,
/// keyed by the table's grid box.
pub struct TablePaintPlane {
    pub tables: HashMap<BoxId, TablePaintModel>,
}

impl TablePaintPlane {
    pub fn new() -> (plane: TablePaintPlane)
        ensures
            plane.tables@ == Map::<BoxId, TablePaintModel>::empty(),
    {
        TablePaintPlane { tables: HashMap::new() }
    }

    pub open spec fn spec_manages(&self, box_id: BoxId) -> bool {
        exists|grid: BoxId| #[trigger]
            self.tables@.contains_key(grid) && self.tables@[grid].spec_manages(box_id)
    }

    pub open spec fn spec_clips_cell(&self, box_id: BoxId) -> bool {
        exists|grid: BoxId| #[trigger]
            self.tables@.contains_key(grid) && self.tables@[grid].clipped_cells@.contains(box_id)
    }

    /// The paint model of the table whose grid box is `grid`.
    pub fn table(&self, grid: BoxId) -> (table: Option<&TablePaintModel>)
        ensures
            table is Some <==> self.tables@.contains_key(grid),
            table matches Some(t) ==> *t == self.tables@[grid],
    {
        self.tables.get(&grid)
    }

    /// Whether any retained table's paint pass owns the box's decorations.
    pub fn manages(&self, box_id: BoxId) -> (managed: bool)
        ensures
            managed == self.spec_manages(box_id),
    {
        let ghost all = vstd::std_specs::hash::spec_hash_map_iter(&self.tables).remaining();
        let ghost mut count: int = 0;
        for entry in it: self.tables.iter()
            invariant
                it.seq() == all,
                count == it.index(),
                forall|j: int| 0 <= j < count ==> !(#[trigger] all[j]).1.spec_manages(box_id),
        {
            if entry.1.manages(box_id) {
                proof {
                    assert(entry == all[count]);
                    assert(self.tables@.contains_key(*all[count].0));
                    assert(self.tables@[*entry.0] == *entry.1);
                }
                return true;
            }
            proof {
                count = count + 1;
            }
        }
        proof {
            assert forall|grid: BoxId| #[trigger] self.tables@.contains_key(grid) implies !self.tables@[grid].spec_manages(box_id) by {
                assert(all.contains((&grid, &self.tables@[grid])));
                let j = choose|j: int| 0 <= j < all.len() && all[j] == (&grid, &self.tables@[grid]);
                assert(!all[j].1.spec_manages(box_id));
            }
        }
        false
    }

    /// Whether any retained table clips the cell.
    pub fn clips_cell(&self, box_id: BoxId) -> (clipped: bool)
        ensures
            clipped == self.spec_clips_cell(box_id),
    {
        let ghost all = vstd::std_specs::hash::spec_hash_map_iter(&self.tables).remaining();
        let ghost mut count: int = 0;
        for entry in it: self.tables.iter()
            invariant
                it.seq() == all,
                count == it.index(),
                forall|j: int| 0 <= j < count ==> !(#[trigger] all[j]).1.clipped_cells@.contains(box_id),
        {
            if entry.1.clips_cell(box_id) {
                proof {
                    assert(entry == all[count]);
                    assert(self.tables@.contains_key(*all[count].0));
                    assert(self.tables@[*entry.0] == *entry.1);
                }
                return true;
            }
            proof {
                count = count + 1;
            }
        }
        proof {
            assert forall|grid: BoxId| #[trigger] self.tables@.contains_key(grid) implies !self.tables@[grid].clipped_cells@.contains(box_id) by {
                assert(all.contains((&grid, &self.tables@[grid])));
                let j = choose|j: int| 0 <= j < all.len() && all[j] == (&grid, &self.tables@[grid]);
                assert(!all[j].1.clipped_cells@.contains(box_id));
            }
        }
        false
    }

    /// Replace only the tables rooted in one reconciled subtree: drop every
    /// table whose grid lies under `root` in `boxes`, and take from `fresh`
    /// every table whose grid lies under `fresh_root` in `fresh_boxes`. The
    /// other tables keep their models.
    pub fn replace_subtree_from(
        &mut self,
        fresh: &Self,
        boxes: &GeneratedBoxTree,
        fresh_boxes: &GeneratedBoxTree,
        root: BoxId,
        fresh_root: BoxId,
    )
        requires
            forall|grid: BoxId| #[trigger] old(self).tables@.contains_key(grid) ==> grid < boxes.spec_boxes().len(),
            forall|grid: BoxId| #[trigger] fresh.tables@.contains_key(grid) ==> grid < fresh_boxes.spec_boxes().len(),
        ensures
            forall|grid: BoxId| #[trigger] final(self).tables@.contains_key(grid) <==> (
                (fresh.tables@.contains_key(grid) && box_under(fresh_boxes.spec_boxes(), grid, fresh_root))
                || (old(self).tables@.contains_key(grid) && !box_under(boxes.spec_boxes(), grid, root))),
            forall|grid: BoxId| #[trigger] final(self).tables@.contains_key(grid) ==> {
                let model = final(self).tables@[grid];
                let source = if fresh.tables@.contains_key(grid) && box_under(fresh_boxes.spec_boxes(), grid, fresh_root) {
                    fresh.tables@[grid]
                } else {
                    old(self).tables@[grid]
                };
                &&& model.fragments@ == source.fragments@
                &&& model.separated == source.separated
                &&& model.collapsed_table == source.collapsed_table
                &&& model.clipped_cells@ == source.clipped_cells@
            },
    {
        let ghost before = self.tables@;
        let ghost old_entries = vstd::std_specs::hash::spec_hash_map_iter(&self.tables).remaining();
        let mut doomed: Vec<BoxId> = Vec::new();
        let ghost mut count: int = 0;
        for entry in it: self.tables.iter()
            invariant
                it.seq() == old_entries,
                count == it.index(),
                before == self.tables@,
                forall|grid: BoxId| #[trigger] before.contains_key(grid) ==> grid < boxes.spec_boxes().len(),
                forall|grid: BoxId| #[trigger] doomed@.contains(grid) <==> exists|j: int|
                    0 <= j < count && *old_entries[j].0 == grid && box_under(boxes.spec_boxes(), grid, root),
        {
            proof {
                assert(entry == old_entries[count]);
                assert(before.contains_key(*entry.0));
            }
            let grid = *entry.0;
            let under = box_is_descendant_of(boxes, grid, root);
            let ghost prior = doomed@;
            if under {
                doomed.push(grid);
            }
            proof {
                assert forall|g: BoxId| #[trigger] doomed@.contains(g) <==> exists|j: int|
                    0 <= j < count + 1 && *old_entries[j].0 == g && box_under(boxes.spec_boxes(), g, root) by {
                    if under {
                        assert(doomed@ == prior.push(grid));
                        if prior.contains(g) {
                            let m = choose|m: int| 0 <= m < prior.len() && prior[m] == g;
                            assert(doomed@[m] == g);
                        }
                        if g == grid {
                            assert(doomed@[prior.len() as int] == g);
                        }
                        if doomed@.contains(g) {
                            let m = choose|m: int| 0 <= m < doomed@.len() && doomed@[m] == g;
                            if m < prior.len() {
                                assert(prior[m] == g);
                            }
                        }
                    }
                    if exists|j: int| 0 <= j < count + 1 && *old_entries[j].0 == g && box_under(boxes.spec_boxes(), g, root) {
                        let j = choose|j: int| 0 <= j < count + 1 && *old_entries[j].0 == g && box_under(boxes.spec_boxes(), g, root);
                        if j < count {
                            assert(prior.contains(g));
                        }
                    }
                }
                count = count + 1;
            }
        }
        proof {
            assert forall|g: BoxId| #[trigger] doomed@.contains(g) <==> (before.contains_key(g) && box_under(boxes.spec_boxes(), g, root)) by {
                if doomed@.contains(g) {
                    let j = choose|j: int| 0 <= j < count && *old_entries[j].0 == g && box_under(boxes.spec_boxes(), g, root);
                    assert(before.contains_key(*old_entries[j].0));
                }
                if before.contains_key(g) && box_under(boxes.spec_boxes(), g, root) {
                    assert(old_entries.contains((&g, &before[g])));
                    let j = choose|j: int| 0 <= j < old_entries.len() && old_entries[j] == (&g, &before[g]);
                    assert(*old_entries[j].0 == g);
                }
            }
        }
        let mut k: usize = 0;
        while k < doomed.len()
            invariant
                k <= doomed@.len(),
                forall|grid: BoxId| #[trigger] self.tables@.contains_key(grid) <==> (before.contains_key(grid)
                    && !(exists|j: int| 0 <= j < k && doomed@[j] == grid)),
                forall|grid: BoxId| #[trigger] self.tables@.contains_key(grid) ==> self.tables@[grid] == before[grid],
            decreases doomed@.len() - k,
        {
            let grid = doomed[k];
            self.tables.remove(&grid);
            k = k + 1;
        }
        let ghost kept = self.tables@;
        proof {
            assert forall|g: BoxId| #[trigger] kept.contains_key(g) <==> (before.contains_key(g) && !box_under(boxes.spec_boxes(), g, root)) by {
                if exists|j: int| 0 <= j < doomed@.len() && doomed@[j] == g {
                    let j = choose|j: int| 0 <= j < doomed@.len() && doomed@[j] == g;
                    assert(doomed@.contains(g));
                }
                if doomed@.contains(g) {
                    let j = choose|j: int| 0 <= j < doomed@.len() && doomed@[j] == g;
                    assert(exists|j: int| 0 <= j < doomed@.len() && doomed@[j] == g);
                }
            }
        }
        let ghost fresh_entries = vstd::std_specs::hash::spec_hash_map_iter(&fresh.tables).remaining();
        let ghost mut taken: int = 0;
        for entry in it: fresh.tables.iter()
            invariant
                it.seq() == fresh_entries,
                taken == it.index(),
                forall|grid: BoxId| #[trigger] fresh.tables@.contains_key(grid) ==> grid < fresh_boxes.spec_boxes().len(),
                forall|grid: BoxId| #[trigger] self.tables@.contains_key(grid) <==> (kept.contains_key(grid)
                    || exists|j: int| 0 <= j < taken && *fresh_entries[j].0 == grid && box_under(fresh_boxes.spec_boxes(), grid, fresh_root)),
                forall|grid: BoxId| #[trigger] self.tables@.contains_key(grid) ==> {
                    let model = self.tables@[grid];
                    let source = if exists|j: int| 0 <= j < taken && *fresh_entries[j].0 == grid && box_under(fresh_boxes.spec_boxes(), grid, fresh_root) {
                        fresh.tables@[grid]
                    } else {
                        kept[grid]
                    };
                    &&& model.fragments@ == source.fragments@
                    &&& model.separated == source.separated
                    &&& model.collapsed_table == source.collapsed_table
                    &&& model.clipped_cells@ == source.clipped_cells@
                },
        {
            proof {
                assert(entry == fresh_entries[taken]);
                assert(fresh.tables@.contains_key(*entry.0));
                assert(fresh.tables@[*entry.0] == *entry.1);
            }
            let grid = *entry.0;
            if box_is_descendant_of(fresh_boxes, grid, fresh_root) {
                let model = entry.1.duplicate();
                self.tables.insert(grid, model);
            }
            proof {
                taken = taken + 1;
            }
        }
        proof {
            assert forall|grid: BoxId| (exists|j: int| 0 <= j < taken && *fresh_entries[j].0 == grid && box_under(fresh_boxes.spec_boxes(), grid, fresh_root))
                <==> #[trigger] fresh.tables@.contains_key(grid) && box_under(fresh_boxes.spec_boxes(), grid, fresh_root) by {
                if fresh.tables@.contains_key(grid) && box_under(fresh_boxes.spec_boxes(), grid, fresh_root) {
                    assert(fresh_entries.contains((&grid, &fresh.tables@[grid])));
                    let j = choose|j: int| 0 <= j < fresh_entries.len() && fresh_entries[j] == (&grid, &fresh.tables@[grid]);
                    assert(*fresh_entries[j].0 == grid);
                }
                if exists|j: int| 0 <= j < taken && *fresh_entries[j].0 == grid && box_under(fresh_boxes.spec_boxes(), grid, fresh_root) {
                    let j = choose|j: int| 0 <= j < taken && *fresh_entries[j].0 == grid && box_under(fresh_boxes.spec_boxes(), grid, fresh_root);
                    assert(fresh.tables@.contains_key(*fresh_entries[j].0));
                }
            }
        }
    }

    /// Absorb another plane; a table present in both keeps `other`'s model.
    pub fn merge(&mut self, other: Self)
        ensures
            final(self).tables@ == old(self).tables@.union_prefer_right(other.tables@),
    {
        let mut incoming = other.tables;
        let ghost before = self.tables@;
        let ghost all = incoming@;
        let ghost entries = vstd::std_specs::hash::spec_hash_map_iter(&incoming).remaining();
        let mut grids: Vec<BoxId> = Vec::new();
        for entry in it: incoming.iter()
            invariant
                it.seq() == entries,
                grids@.len() == it.index(),
                forall|j: int| 0 <= j < grids@.len() ==> #[trigger] grids@[j] == *entries[j].0,
        {
            grids.push(*entry.0);
        }
        proof {
            assert forall|g: BoxId| #[trigger] all.contains_key(g) implies grids@.contains(g) by {
                assert(entries.contains((&g, &all[g])));
                let j = choose|j: int| 0 <= j < entries.len() && entries[j] == (&g, &all[g]);
                assert(grids@[j] == g);
            }
        }
        let mut k: usize = 0;
        while k < grids.len()
            invariant
                k <= grids@.len(),
                forall|g: BoxId| #[trigger] all.contains_key(g) ==> grids@.contains(g),
                incoming@ == all.remove_keys(grids@.take(k as int).to_set()),
                self.tables@ == before.union_prefer_right(all.restrict(grids@.take(k as int).to_set())),
            decreases grids@.len() - k,
        {
            let grid = grids[k];
            let ghost done = grids@.take(k as int).to_set();
            assert(grids@.take(k + 1).to_set() =~= done.insert(grid)) by {
                assert(grids@.take(k + 1) =~= grids@.take(k as int).push(grid));
                grids@.take(k as int).lemma_push_to_set_commute(grid);
            }
            match incoming.remove(&grid) {
                Some(model) => {
                    self.tables.insert(grid, model);
                    assert(incoming@ =~= all.remove_keys(done.insert(grid)));
                    assert(self.tables@ =~= before.union_prefer_right(all.restrict(done.insert(grid))));
                },
                None => {
                    assert(incoming@ =~= all.remove_keys(done.insert(grid)));
                    assert(all.restrict(done.insert(grid)) =~= all.restrict(done));
                },
            }
            k = k + 1;
        }
        proof {
            assert(grids@.take(k as int) =~= grids@);
            assert(all.restrict(grids@.to_set()) =~= all);
        }
    }
}

} // verus!

verus! {

/// The parsed value of an HTML span attribute: `str::trim` then
/// `usize::from_str`; `None` for a missing or unparsable attribute.
pub open spec fn span_attribute_value(value: Option<Seq<char>>) -> Option<usize> {
    match value {
        Some(v) => crate::text::parsed_usize(crate::text::unicode_trim(v)),
        None => None,
    }
}

pub open spec fn opt_str_view(value: Option<&str>) -> Option<Seq<char>> {
    match value {
        Some(v) => Some(v@),
        None => None,
    }
}

fn parse_span_attribute(value: Option<&str>) -> (parsed: Option<usize>)
    ensures
        parsed == span_attribute_value(opt_str_view(value)),
{
    match value {
        Some(v) => {
            let chars = crate::text::chars_of(v);
            let trimmed = crate::text::trim_unicode(&chars);
            crate::text::parse_usize(&trimmed)
        },
        None => None,
    }
}

/// An HTML `colspan`/`span` value: a positive integer, at most `maximum`;
/// anything else (missing, zero, unparsable) is 1.
pub fn html_limited_span(value: Option<&str>, maximum: usize) -> (span: usize)
    ensures
        span == (match span_attribute_value(opt_str_view(value)) {
            Some(v) => if v > 0 {
                if v < maximum {
                    v
                } else {
                    maximum
                }
            } else {
                1
            },
            None => 1,
        }),
{
    match parse_span_attribute(value) {
        Some(v) => if v > 0 {
            if v < maximum {
                v
            } else {
                maximum
            }
        } else {
            1
        },
        None => 1,
    }
}

/// How many rows a table cell spans.
#[derive(Clone, Copy, Debug, PartialEq, Eq, Structural)]
pub enum TableRowSpan {
    /// `rowspan=0`: to the end of the row group.
    ToEndOfGroup,
    Count(usize),
}

/// The span attributes of one HTML table cell.
#[derive(Clone, Copy, Debug, PartialEq, Eq, Structural)]
pub struct TableCellInput {
    pub column_span: usize,
    pub row_span: TableRowSpan,
}

/// A cell's spans from its `colspan` and `rowspan` attributes: `colspan` is
/// limited to 1..=1000, `rowspan=0` spans to the end of the group, other
/// row spans are limited to 65534, and an absent or unparsable `rowspan` is 1.
pub fn html_cell_input(colspan: Option<&str>, rowspan: Option<&str>) -> (input: TableCellInput)
    ensures
        input.column_span == (match span_attribute_value(opt_str_view(colspan)) {
            Some(v) => if v > 0 {
                if v < 1000 {
                    v
                } else {
                    1000
                }
            } else {
                1
            },
            None => 1,
        }),
        input.row_span == (match span_attribute_value(opt_str_view(rowspan)) {
            Some(v) => if v == 0 {
                TableRowSpan::ToEndOfGroup
            } else if v < 65534 {
                TableRowSpan::Count(v)
            } else {
                TableRowSpan::Count(65534)
            },
            None => TableRowSpan::Count(1),
        }),
{
    let row_span = match parse_span_attribute(rowspan) {
        Some(0) => TableRowSpan::ToEndOfGroup,
        Some(value) => TableRowSpan::Count(if value < 65534 { value } else { 65534 }),
        None => TableRowSpan::Count(1),
    };
    TableCellInput { column_span: html_limited_span(colspan, 1000), row_span }
}

} // verus!

verus! {

/// Which column and row tracks of a table grid are collapsed
/// (`visibility: collapse`); tracks past the end of either list are not.
pub struct TableTrackVisibility {
    pub collapsed_columns: Vec<bool>,
    pub collapsed_rows: Vec<bool>,
}

pub open spec fn track_collapsed(collapsed: Seq<bool>, index: int) -> bool {
    0 <= index < collapsed.len() && collapsed[index]
}

impl TableTrackVisibility {
    pub fn column_is_collapsed(&self, index: usize) -> (collapsed: bool)
        ensures
            collapsed == track_collapsed(self.collapsed_columns@, index as int),
    {
        index < self.collapsed_columns.len() && self.collapsed_columns[index]
    }

    pub fn row_is_collapsed(&self, index: usize) -> (collapsed: bool)
        ensures
            collapsed == track_collapsed(self.collapsed_rows@, index as int),
    {
        index < self.collapsed_rows.len() && self.collapsed_rows[index]
    }
}

/// The grid placement of one table cell and the box it came from.
#[derive(Clone, Copy, Debug, PartialEq, Eq, Structural)]
pub struct TableCell {
    pub column: usize,
    pub column_span: usize,
    pub row: usize,
    pub row_span: usize,
    pub source: BoxId,
}

/// The end of a span, saturating at `usize::MAX`.
pub open spec fn span_end(start: usize, span: usize) -> int {
    if start + span > usize::MAX {
        usize::MAX as int
    } else {
        start + span
    }
}

/// Whether the tracks `start..start+span` include both a collapsed and an
/// uncollapsed track.
pub open spec fn straddles_collapse(collapsed: Seq<bool>, start: usize, span: usize) -> bool {
    &&& exists|i: int| start <= i < span_end(start, span) && #[trigger] track_collapsed(collapsed, i)
    &&& exists|i: int| start <= i < span_end(start, span) && !#[trigger] track_collapsed(collapsed, i)
}

fn straddles(collapsed: &Vec<bool>, start: usize, span: usize) -> (straddling: bool)
    ensures
        straddling == straddles_collapse(collapsed@, start, span),
{
    let end = start.saturating_add(span);
    let mut any_collapsed = false;
    let mut any_open = false;
    let mut i: usize = start;
    while i < end
        invariant
            start <= i <= end,
            end == span_end(start, span),
            any_collapsed == exists|k: int| start <= k < i && #[trigger] track_collapsed(collapsed@, k),
            any_open == exists|k: int| start <= k < i && !#[trigger] track_collapsed(collapsed@, k),
            !(any_collapsed && any_open),
        decreases end - i,
    {
        if i < collapsed.len() && collapsed[i] {
            any_collapsed = true;
        } else {
            any_open = true;
        }
        assert(track_collapsed(collapsed@, i as int) == (i < collapsed@.len() && collapsed@[i as int]));
        if any_collapsed && any_open {
            return true;
        }
        i = i + 1;
    }
    false
}

/// CSS Tables 3: a cell that spans both a collapsed and an uncollapsed
/// column, or both a collapsed and an uncollapsed row, is clipped.
pub fn table_cell_spans_collapsed_track(visibility: &TableTrackVisibility, cell: &TableCell) -> (clipped: bool)
    ensures
        clipped == (straddles_collapse(visibility.collapsed_columns@, cell.column, cell.column_span)
            || straddles_collapse(visibility.collapsed_rows@, cell.row, cell.row_span)),
{
    straddles(&visibility.collapsed_columns, cell.column, cell.column_span) || straddles(
        &visibility.collapsed_rows,
        cell.row,
        cell.row_span,
    )
}

/// One child of a table wrapper, and whether it is a caption placed below
/// the grid (`caption-side: bottom`).
#[derive(Clone, Copy, Debug, PartialEq, Eq, Structural)]
pub struct WrapperChild {
    pub box_id: BoxId,
    pub below: bool,
}

pub open spec fn ids_where(children: Seq<WrapperChild>, below: bool) -> Seq<BoxId>
    decreases children.len(),
{
    if children.len() == 0 {
        seq![]
    } else if children.last().below == below {
        ids_where(children.drop_last(), below).push(children.last().box_id)
    } else {
        ids_where(children.drop_last(), below)
    }
}

/// CSS 2.1 §17.4.1: captions below the grid are laid out after it. Every
/// other child keeps its place in front, and each group keeps source order.
pub fn wrapper_children_in_caption_order(children: &Vec<WrapperChild>) -> (order: Vec<BoxId>)
    ensures
        order@ == ids_where(children@, false) + ids_where(children@, true),
{
    let mut front: Vec<BoxId> = Vec::new();
    let mut back: Vec<BoxId> = Vec::new();
    let mut i: usize = 0;
    while i < children.len()
        invariant
            i <= children@.len(),
            front@ == ids_where(children@.take(i as int), false),
            back@ == ids_where(children@.take(i as int), true),
        decreases children@.len() - i,
    {
        proof {
            assert(children@.take(i + 1).drop_last() =~= children@.take(i as int));
        }
        let child = children[i];
        if child.below {
            back.push(child.box_id);
        } else {
            front.push(child.box_id);
        }
        i = i + 1;
    }
    assert(children@.take(children@.len() as int) =~= children@);
    let mut k: usize = 0;
    let ghost front_ids = front@;
    while k < back.len()
        invariant
            k <= back@.len(),
            front@ == front_ids + back@.take(k as int),
        decreases back@.len() - k,
    {
        front.push(back[k]);
        proof {
            assert(back@.take(k + 1) =~= back@.take(k as int).push(back@[k as int]));
        }
        k = k + 1;
    }
    assert(back@.take(back@.len() as int) =~= back@);
    front
}

} // verus!

verus! {

pub open spec fn child_ids(children: Seq<WrapperChild>) -> Seq<BoxId> {
    children.map_values(|c: WrapperChild| c.box_id)
}

/// Reordering captions never drops, duplicates or invents a child: the
/// wrapper's children in caption order are a permutation of its children.
pub proof fn law_caption_order_is_permutation(children: Seq<WrapperChild>)
    ensures
        (ids_where(children, false) + ids_where(children, true)).to_multiset() == child_ids(
            children,
        ).to_multiset(),
    decreases children.len(),
{
    broadcast use vstd::seq_lib::lemma_multiset_commutative;
    broadcast use vstd::seq_lib::to_multiset_build;
    broadcast use vstd::multiset::group_multiset_axioms;

    if children.len() == 0 {
        assert(child_ids(children) =~= seq![]);
        assert(ids_where(children, false) + ids_where(children, true) =~= seq![]);
    } else {
        let rest = children.drop_last();
        law_caption_order_is_permutation(rest);
        assert(child_ids(children) =~= child_ids(rest).push(children.last().box_id));
        let id = children.last().box_id;
        assert(ids_where(children, false).to_multiset().add(ids_where(children, true).to_multiset())
            =~= ids_where(rest, false).to_multiset().add(ids_where(rest, true).to_multiset()).insert(id));
    }
}

} // verus!

verus! {

/// The computed CSS `position` of a table part.
#[derive(Clone, Copy, Debug, PartialEq, Eq, Structural)]
pub enum CssPosition {
    Static,
    Relative,
    Absolute,
    Fixed,
    Sticky,
}

/// A positioning scheme the table pipeline leaves to another path.
#[derive(Clone, Copy, Debug, PartialEq, Eq, Structural)]
pub enum TablePositioningGap {
    Absolute,
    Fixed,
    Sticky,
}

/// One table part whose positioning the table pipeline leaves to another
/// path.
#[derive(Clone, Copy, Debug, PartialEq, Eq, Structural)]
pub struct TablePositioningGapRecord {
    pub table: BoxId,
    pub part: BoxId,
    pub gap: TablePositioningGap,
}

/// The positioning gap a table part leaves, if any. The grid's own
/// absolute or fixed positioning moves to its wrapper, and the grid and
/// every part the retained sticky solver owns keep their sticky
/// positioning, so those leave none.
pub fn table_positioning_gap(position: CssPosition, is_table: bool, role: Option<InternalTableRole>) -> (gap: Option<TablePositioningGap>)
    ensures
        gap == (match position {
            CssPosition::Absolute => if is_table {
                None
            } else {
                Some(TablePositioningGap::Absolute)
            },
            CssPosition::Fixed => if is_table {
                None
            } else {
                Some(TablePositioningGap::Fixed)
            },
            CssPosition::Sticky => if is_table || (role matches Some(r) && !(r == InternalTableRole::Grid
                || r == InternalTableRole::Column || r == InternalTableRole::ColumnGroup)) {
                None
            } else {
                Some(TablePositioningGap::Sticky)
            },
            _ => None,
        }),
{
    match position {
        CssPosition::Absolute => if is_table {
            None
        } else {
            Some(TablePositioningGap::Absolute)
        },
        CssPosition::Fixed => if is_table {
            None
        } else {
            Some(TablePositioningGap::Fixed)
        },
        CssPosition::Sticky => {
            let solver_owns = match role {
                Some(r) => supports_retained_sticky_table_part(r),
                None => false,
            };
            if is_table || solver_owns {
                None
            } else {
                Some(TablePositioningGap::Sticky)
            }
        },
        CssPosition::Static | CssPosition::Relative => None,
    }
}

/// Record a positioning gap once.
pub fn record_positioning_gap(gaps: &mut Vec<TablePositioningGapRecord>, record: TablePositioningGapRecord)
    ensures
        final(gaps)@ == if old(gaps)@.contains(record) {
            old(gaps)@
        } else {
            old(gaps)@.push(record)
        },
{
    let mut i: usize = 0;
    while i < gaps.len()
        invariant
            i <= gaps@.len(),
            forall|j: int| 0 <= j < i ==> gaps@[j] != record,
        decreases gaps@.len() - i,
    {
        if gaps[i] == record {
            return;
        }
        i = i + 1;
    }
    gaps.push(record);
}

} // verus!

verus! {

/// Whether a cell crosses a collapsed track boundary.
pub open spec fn cell_clipped(visibility: TableTrackVisibility, cell: TableCell) -> bool {
    straddles_collapse(visibility.collapsed_columns@, cell.column, cell.column_span)
        || straddles_collapse(visibility.collapsed_rows@, cell.row, cell.row_span)
}

/// The boxes of the cells a table clips because they cross a collapsed
/// track boundary.
pub fn clipped_cells(visibility: &TableTrackVisibility, cells: &Vec<TableCell>) -> (clipped: HashSet<BoxId>)
    ensures
        forall|b: BoxId| #[trigger] clipped@.contains(b) <==> exists|i: int|
            0 <= i < cells@.len() && cells@[i].source == b && cell_clipped(*visibility, cells@[i]),
{
    let mut clipped: HashSet<BoxId> = HashSet::new();
    let mut i: usize = 0;
    while i < cells.len()
        invariant
            i <= cells@.len(),
            forall|b: BoxId| #[trigger] clipped@.contains(b) <==> exists|j: int|
                0 <= j < i && cells@[j].source == b && cell_clipped(*visibility, cells@[j]),
        decreases cells@.len() - i,
    {
        let cell = cells[i];
        if table_cell_spans_collapsed_track(visibility, &cell) {
            clipped.insert(cell.source);
        }
        proof {
            assert forall|b: BoxId| #[trigger] clipped@.contains(b) <==> exists|j: int|
                0 <= j < i + 1 && cells@[j].source == b && cell_clipped(*visibility, cells@[j]) by {
                if exists|j: int| 0 <= j < i + 1 && cells@[j].source == b && cell_clipped(*visibility, cells@[j]) {
                    let j = choose|j: int| 0 <= j < i + 1 && cells@[j].source == b && cell_clipped(*visibility, cells@[j]);
                    if j < i {
                        assert(exists|m: int| 0 <= m < i && cells@[m].source == b && cell_clipped(*visibility, cells@[m]));
                    }
                }
            }
        }
        i = i + 1;
    }
    clipped
}

} // verus!
