//! Entities: the lifecycle that the world drives, and the capability of
//! being drawn.
use vstd::prelude::*;
use crate::event::Identifier;
use crate::sprite::Sprite;

verus! {

/// The lifecycle of an entity in a world whose shared services are a `C`.
/// Each hook is modelled by a spec function that gives the entity and the
/// services after the hook from those before it; an implementation proved
/// in Verus defines these models, and its hooks are held to them.
pub trait ElementBase<C>: Sized {
    /// The entity and the services after `init` with `uuid`.
    closed spec fn init_step(&self, uuid: Identifier, c: C) -> (Self, C) {
        arbitrary()
    }

    /// The entity and the services after `local_update` with `td`.
    closed spec fn local_step(&self, td: i32, c: C) -> (Self, C) {
        arbitrary()
    }

    /// The entity and the services after `post_update`.
    closed spec fn post_step(&self, c: C) -> (Self, C) {
        arbitrary()
    }

    /// Whether the entity is the world's camera.
    closed spec fn is_camera_spec(&self) -> bool {
        arbitrary()
    }

    /// Called once, after the entity has been given its identifier: the place
    /// to acquire mailboxes and other capabilities from `components`.
    fn init(&mut self, uuid: Identifier, components: &mut C)
        ensures
            (*final(self), *final(components)) == old(self).init_step(uuid, *old(components)),
    ;

    /// Called once per tick: drain mailboxes and change local state. Nothing
    /// sent here may be meant for this tick.
    fn local_update(&mut self, td: i32, components: &mut C)
        ensures
            (*final(self), *final(components)) == old(self).local_step(td, *old(components)),
    ;

    /// Called once per tick, after every entity's `local_update`: the phase
    /// in which messages are sent.
    fn post_update(&mut self, components: &mut C)
        ensures
            (*final(self), *final(components)) == old(self).post_step(*old(components)),
    ;

    /// Whether this entity is the world's camera.
    fn is_camera(&self) -> (r: bool)
        ensures
            r == self.is_camera_spec(),
    ;
}

/// An entity that takes no part in the simulation: its hooks change nothing.
#[derive(Clone, Copy, Debug, PartialEq)]
pub struct NullElement;

impl<C> ElementBase<C> for NullElement {
    open spec fn init_step(&self, uuid: Identifier, c: C) -> (Self, C) {
        (*self, c)
    }

    open spec fn local_step(&self, td: i32, c: C) -> (Self, C) {
        (*self, c)
    }

    open spec fn post_step(&self, c: C) -> (Self, C) {
        (*self, c)
    }

    open spec fn is_camera_spec(&self) -> bool {
        false
    }

    fn init(&mut self, uuid: Identifier, components: &mut C) {
    }

    fn local_update(&mut self, td: i32, components: &mut C) {
    }

    fn post_update(&mut self, components: &mut C) {
    }

    fn is_camera(&self) -> (r: bool) {
        false
    }
}

/// An entity that is drawn: it shows a sprite.
pub trait Entity<C>: ElementBase<C> {
    fn sprite(&self) -> Sprite;
}

} // verus!
