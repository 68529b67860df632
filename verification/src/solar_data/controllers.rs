//! The registry of the controllers that the ingested lines have shown.

use crate::solar_data::ids::copy_ids;
use crate::solar_data::ids::find_id;
use crate::solar_data::ids::insert_all;
use crate::solar_data::ids::insert_id;
use crate::solar_data::ids::is_strictly_ascending;
use crate::solar_data::ids::same_ids;
use crate::solar_data::ids::strictly_ascending;
use vstd::prelude::*;
use vstd::std_specs::cmp::PartialEqSpecImpl;

verus! {

/// The ids of the controllers seen so far: each once, in ascending order.
#[derive(Debug)]
pub struct AvailableControllers {
    controllers: Vec<u16>,
}

/// Why an id was not inserted.
#[derive(Clone, Copy, Debug, PartialEq, Eq, Structural)]
pub enum AvailableControllersError {
    /// The registry has the id already.
    ControllerAlreadyExists,
}

impl AvailableControllersError {
    /// The text shown for the error.
    pub open spec fn message_spec(&self) -> Seq<char> {
        "Tried to insert controller id that already existed."@
    }

    /// The text shown for the error.
    pub fn message(&self) -> (text: &'static str)
        ensures
            text@ == self.message_spec(),
    {
        "Tried to insert controller id that already existed."
    }
}

impl View for AvailableControllers {
    type V = Seq<u16>;

    closed spec fn view(&self) -> Seq<u16> {
        self.controllers@
    }
}

impl Default for AvailableControllers {
    fn default() -> (r: AvailableControllers)
        ensures
            r@ == Seq::<u16>::empty(),
            r.wf(),
    {
        AvailableControllers { controllers: Vec::new() }
    }
}

impl Clone for AvailableControllers {
    fn clone(&self) -> (copy: AvailableControllers)
        ensures
            copy@ == self@,
    {
        AvailableControllers { controllers: copy_ids(&self.controllers) }
    }
}

impl PartialEq for AvailableControllers {
    fn eq(&self, other: &AvailableControllers) -> (r: bool) {
        same_ids(&self.controllers, &other.controllers)
    }
}

impl PartialEqSpecImpl for AvailableControllers {
    open spec fn obeys_eq_spec() -> bool {
        true
    }

    open spec fn eq_spec(&self, other: &AvailableControllers) -> bool {
        self@ == other@
    }
}

impl AvailableControllers {
    /// The ids are in ascending order, each once.
    pub open spec fn wf(&self) -> bool {
        strictly_ascending(self@)
    }

    /// Whether the registry is one that the other functions accept.
    pub fn is_well_formed(&self) -> (ok: bool)
        ensures
            ok == self.wf(),
    {
        is_strictly_ascending(&self.controllers)
    }

    /// The ids as a set.
    pub open spec fn ids(&self) -> Set<u16> {
        self@.to_set()
    }

    /// Whether the registry has the id.
    pub fn contains(&self, controller_id: u16) -> (found: bool)
        requires
            self.wf(),
        ensures
            found == self.ids().contains(controller_id),
    {
        match find_id(&self.controllers, controller_id) {
            Ok(_) => true,
            Err(_) => false,
        }
    }

    /// Inserts an id at its place. An id that the registry has already is an
    /// error, and leaves the registry as it was.
    pub fn insert(&mut self, controller_id: u16) -> (r: Result<(), AvailableControllersError>)
        requires
            old(self).wf(),
        ensures
            final(self).wf(),
            r is Ok <==> !old(self).ids().contains(controller_id),
            final(self).ids() == old(self).ids().insert(controller_id),
            r is Err ==> final(self)@ == old(self)@,
            r is Ok ==> final(self)@.len() == old(self)@.len() + 1,
    {
        if insert_id(&mut self.controllers, controller_id) {
            Ok(())
        } else {
            Err(AvailableControllersError::ControllerAlreadyExists)
        }
    }

    /// All ids, in ascending order.
    pub fn get_controllers(&self) -> (ids: &Vec<u16>)
        ensures
            ids@ == self@,
    {
        &self.controllers
    }

    /// Inserts every id of another registry; those already present change nothing.
    pub fn combine(&mut self, other: &AvailableControllers)
        requires
            old(self).wf(),
        ensures
            final(self).wf(),
            final(self).ids() == old(self).ids().union(other.ids()),
    {
        insert_all(&mut self.controllers, &other.controllers);
    }
}

} // verus!
