//! The registry of the cells that the ingested lines have shown.

use crate::solar_data::ids::copy_ids;
use crate::solar_data::ids::find_id;
use crate::solar_data::ids::insert_all;
use crate::solar_data::ids::insert_id;
use crate::solar_data::ids::is_strictly_ascending;
use crate::solar_data::ids::same_ids;
use crate::solar_data::ids::strictly_ascending;
use vstd::prelude::*;
use vstd::std_specs::cmp::PartialEqSpecImpl;

verus! {

/// The ids of the cells seen so far: each once, in ascending order.
#[derive(Debug)]
pub struct AvailableCells {
    cells: Vec<u16>,
}

/// Why an id was not inserted.
#[derive(Clone, Copy, Debug, PartialEq, Eq, Structural)]
pub enum AvailableCellsError {
    /// The registry has the id already.
    CellAlreadyExists,
}

impl AvailableCellsError {
    /// The text shown for the error.
    pub open spec fn message_spec(&self) -> Seq<char> {
        "Tried to insert cell id that already existed."@
    }

    /// The text shown for the error.
    pub fn message(&self) -> (text: &'static str)
        ensures
            text@ == self.message_spec(),
    {
        "Tried to insert cell id that already existed."
    }
}

impl View for AvailableCells {
    type V = Seq<u16>;

    closed spec fn view(&self) -> Seq<u16> {
        self.cells@
    }
}

impl Default for AvailableCells {
    fn default() -> (r: AvailableCells)
        ensures
            r@ == Seq::<u16>::empty(),
            r.wf(),
    {
        AvailableCells { cells: Vec::new() }
    }
}

impl Clone for AvailableCells {
    fn clone(&self) -> (copy: AvailableCells)
        ensures
            copy@ == self@,
    {
        AvailableCells { cells: copy_ids(&self.cells) }
    }
}

impl PartialEq for AvailableCells {
    fn eq(&self, other: &AvailableCells) -> (r: bool) {
        same_ids(&self.cells, &other.cells)
    }
}

impl PartialEqSpecImpl for AvailableCells {
    open spec fn obeys_eq_spec() -> bool {
        true
    }

    open spec fn eq_spec(&self, other: &AvailableCells) -> bool {
        self@ == other@
    }
}

impl AvailableCells {
    /// The ids are in ascending order, each once.
    pub open spec fn wf(&self) -> bool {
        strictly_ascending(self@)
    }

    /// Whether the registry is one that the other functions accept.
    pub fn is_well_formed(&self) -> (ok: bool)
        ensures
            ok == self.wf(),
    {
        is_strictly_ascending(&self.cells)
    }

    /// The ids as a set.
    pub open spec fn ids(&self) -> Set<u16> {
        self@.to_set()
    }

    /// Whether the registry has the id.
    pub fn contains(&self, cell_id: u16) -> (found: bool)
        requires
            self.wf(),
        ensures
            found == self.ids().contains(cell_id),
    {
        match find_id(&self.cells, cell_id) {
            Ok(_) => true,
            Err(_) => false,
        }
    }

    /// Inserts an id at its place. An id that the registry has already is an
    /// error, and leaves the registry as it was.
    pub fn insert(&mut self, cell_id: u16) -> (r: Result<(), AvailableCellsError>)
        requires
            old(self).wf(),
        ensures
            final(self).wf(),
            r is Ok <==> !old(self).ids().contains(cell_id),
            final(self).ids() == old(self).ids().insert(cell_id),
            r is Err ==> final(self)@ == old(self)@,
            r is Ok ==> final(self)@.len() == old(self)@.len() + 1,
    {
        if insert_id(&mut self.cells, cell_id) {
            Ok(())
        } else {
            Err(AvailableCellsError::CellAlreadyExists)
        }
    }

    /// All ids, in ascending order.
    pub fn get_cells(&self) -> (ids: &Vec<u16>)
        ensures
            ids@ == self@,
    {
        &self.cells
    }

    /// Inserts every id of another registry; those already present change nothing.
    pub fn combine(&mut self, other: &AvailableCells)
        requires
            old(self).wf(),
        ensures
            final(self).wf(),
            final(self).ids() == old(self).ids().union(other.ids()),
    {
        insert_all(&mut self.cells, &other.cells);
    }
}

} // verus!
