//! The world driver: it owns the entities and the services they share, and
//! advances them in two phases per tick.
use vstd::prelude::*;
use crate::element::ElementBase;
use crate::event::{Identifier, fresh_identifier, has_key, lemma_keys_below_bound};

verus! {

/// The entities and services after `init` has been called on each entity of
/// `es` in order, with the entity's own identifier.
pub open spec fn init_phase<E: ElementBase<C>, C>(es: Seq<(Identifier, E)>, c: C) -> (Seq<(Identifier, E)>, C)
    decreases es.len(),
{
    if es.len() == 0 {
        (es, c)
    } else {
        let before = init_phase(es.drop_last(), c);
        let step = es.last().1.init_step(es.last().0, before.1);
        (before.0.push((es.last().0, step.0)), step.1)
    }
}

/// The entities and services after `local_update(td)` has been called on
/// each entity of `es` in order.
pub open spec fn local_phase<E: ElementBase<C>, C>(es: Seq<(Identifier, E)>, c: C, td: i32) -> (
    Seq<(Identifier, E)>,
    C,
)
    decreases es.len(),
{
    if es.len() == 0 {
        (es, c)
    } else {
        let before = local_phase(es.drop_last(), c, td);
        let step = es.last().1.local_step(td, before.1);
        (before.0.push((es.last().0, step.0)), step.1)
    }
}

/// The entities and services after `post_update` has been called on each
/// entity of `es` in order.
pub open spec fn post_phase<E: ElementBase<C>, C>(es: Seq<(Identifier, E)>, c: C) -> (Seq<(Identifier, E)>, C)
    decreases es.len(),
{
    if es.len() == 0 {
        (es, c)
    } else {
        let before = post_phase(es.drop_last(), c);
        let step = es.last().1.post_step(before.1);
        (before.0.push((es.last().0, step.0)), step.1)
    }
}

/// One tick: the local phase over every entity, then the post phase over the
/// entities and services that the local phase left. Nothing that the post
/// phase does is seen by the local phase of the same tick.
pub open spec fn tick<E: ElementBase<C>, C>(es: Seq<(Identifier, E)>, c: C, td: i32) -> (Seq<(Identifier, E)>, C) {
    let local = local_phase(es, c, td);
    post_phase(local.0, local.1)
}

/// The identifier of the last entity of `es` that is a camera, or `cam` when
/// none is.
pub open spec fn camera_after<E: ElementBase<C>, C>(es: Seq<(Identifier, E)>, cam: Option<Identifier>) -> Option<
    Identifier,
>
    decreases es.len(),
{
    if es.len() == 0 {
        cam
    } else if es.last().1.is_camera_spec() {
        Some(es.last().0)
    } else {
        camera_after::<E, C>(es.drop_last(), cam)
    }
}

/// A world: entities under distinct identifiers, and the services `C` that
/// they share.
pub struct Scene<E, C> {
    camera_uuid: Option<Identifier>,
    elements: Vec<(Identifier, E)>,
    component_manager: C,
}

impl<E: ElementBase<C>, C> Scene<E, C> {
    /// The entities with their identifiers, in insertion order.
    pub closed spec fn elements(&self) -> Seq<(Identifier, E)> {
        self.elements@
    }

    /// The entities' identifiers, in insertion order.
    pub open spec fn ids(&self) -> Seq<Identifier> {
        self.elements().map_values(|e: (Identifier, E)| e.0)
    }

    /// The identifier of the camera, once `init_elements` has found one.
    pub closed spec fn camera(&self) -> Option<Identifier> {
        self.camera_uuid
    }

    /// The services the entities share.
    pub closed spec fn components(&self) -> C {
        self.component_manager
    }

    /// Identifiers are distinct and the camera, if any, is one of them.
    pub open spec fn wf(&self) -> bool {
        &&& forall|i: int, j: int|
            0 <= i < self.ids().len() && 0 <= j < self.ids().len() && i != j ==> #[trigger] self.ids()[i]
                != #[trigger] self.ids()[j]
        &&& self.camera() matches Some(c) ==> self.ids().contains(c)
    }

    /// A world with no entity, sharing `component_manager`.
    pub fn new(component_manager: C) -> (r: Self)
        ensures
            r.wf(),
            r.elements() == Seq::<(Identifier, E)>::empty(),
            r.camera() is None,
            r.components() == component_manager,
    {
        Scene { camera_uuid: None, elements: Vec::new(), component_manager }
    }

    fn find(&self, uuid: Identifier) -> (r: Option<usize>)
        ensures
            r matches Some(i) ==> i < self.ids().len() && self.ids()[i as int] == uuid,
            r is None ==> !self.ids().contains(uuid),
    {
        let mut i: usize = 0;
        while i < self.elements.len()
            invariant
                0 <= i <= self.elements@.len(),
                forall|j: int| 0 <= j < i ==> self.ids()[j] != uuid,
            decreases self.elements@.len() - i,
        {
            if self.elements[i].0 == uuid {
                return Some(i);
            }
            i = i + 1;
        }
        None
    }

    /// An identifier that no entity has: a random one or, should that be
    /// taken, the smallest free one.
    fn unused_identifier(&self) -> (r: Identifier)
        ensures
            !self.ids().contains(r),
    {
        let drawn = fresh_identifier();
        if self.find(drawn).is_none() {
            return drawn;
        }
        let n = self.elements.len();
        let mut c: u128 = 0;
        let mut taken = self.find(c).is_some();
        while taken
            invariant
                n == self.elements@.len(),
                taken == self.ids().contains(c),
                forall|x: int| 0 <= x < c ==> #[trigger] has_key(self.elements@, x),
            decreases self.elements@.len() - c,
        {
            proof {
                assert forall|x: int| 0 <= x < c + 1 implies #[trigger] has_key(self.elements@, x) by {
                    if x == c {
                        let k = choose|k: int| 0 <= k < self.ids().len() && self.ids()[k] == c;
                        assert(self.elements@[k].0 == x);
                    }
                }
                lemma_keys_below_bound(self.elements@, c + 1);
            }
            c = c + 1;
            taken = self.find(c).is_some();
        }
        c
    }

    /// Inserts `element` under an identifier that no entity has yet,
    /// generated at random, and returns that identifier.
    pub fn add_element(&mut self, element: E) -> (r: Identifier)
        requires
            old(self).wf(),
        ensures
            final(self).wf(),
            !old(self).ids().contains(r),
            final(self).elements() == old(self).elements().push((r, element)),
            final(self).camera() == old(self).camera(),
            final(self).components() == old(self).components(),
    {
        let uuid = self.unused_identifier();
        self.elements.push((uuid, element));
        proof {
            assert(self.ids() =~= old(self).ids().push(uuid));
            if let Some(c) = self.camera_uuid {
                let k = choose|k: int| 0 <= k < old(self).ids().len() && old(self).ids()[k] == c;
                assert(self.ids()[k] == c);
            }
        }
        uuid
    }

    /// Initializes every entity once, in order, with its own identifier, and
    /// records the last camera among them as the world's camera.
    pub fn init_elements(&mut self)
        requires
            old(self).wf(),
        ensures
            final(self).wf(),
            final(self).ids() == old(self).ids(),
            (final(self).elements(), final(self).components()) == init_phase(
                old(self).elements(),
                old(self).components(),
            ),
            final(self).camera() == camera_after::<E, C>(old(self).elements(), old(self).camera()),
    {
        let ghost es = self.elements@;
        let ghost c0 = self.component_manager;
        let n = self.elements.len();
        let mut i: usize = 0;
        while i < n
            invariant
                0 <= i <= n,
                n == es.len(),
                self.elements@.len() == n,
                forall|j: int| 0 <= j < n ==> #[trigger] self.elements@[j].0 == es[j].0,
                forall|j: int| i <= j < n ==> #[trigger] self.elements@[j] == es[j],
                (self.elements@.take(i as int), self.component_manager) == init_phase(es.take(i as int), c0),
                self.camera_uuid == camera_after::<E, C>(es.take(i as int), old(self).camera_uuid),
                old(self).wf(),
                es == old(self).elements@,
            decreases n - i,
        {
            let uuid = self.elements[i].0;
            let ghost prev = self.elements@;
            let ghost prev_c = self.component_manager;
            proof {
                assert(es.take(i + 1).drop_last() =~= es.take(i as int));
                assert(es.take(i + 1).last() == es[i as int]);
            }
            if self.elements[i].1.is_camera() {
                self.camera_uuid = Some(uuid);
            }
            self.elements[i].1.init(uuid, &mut self.component_manager);
            proof {
                assert forall|j: int| 0 <= j < n && j != i implies self.elements@[j] == prev[j] by {}
                assert(self.elements@.take(i + 1) =~= prev.take(i as int).push(
                    (uuid, es[i as int].1.init_step(uuid, prev_c).0),
                ));
            }
            i = i + 1;
        }
        proof {
            assert(es.take(n as int) =~= es);
            assert(self.elements@.take(n as int) =~= self.elements@);
            assert(self.ids() =~= old(self).ids());
            lemma_camera_after_in::<E, C>(es, old(self).camera_uuid);
            if self.camera_uuid != old(self).camera_uuid {
                let k = choose|k: int|
                    0 <= k < es.len() && camera_after::<E, C>(es, old(self).camera_uuid) == Some(#[trigger] es[k].0);
                assert(self.ids()[k] == es[k].0);
            }
        }
    }

    /// One tick: `local_update` on every entity in order, then `post_update`
    /// on every entity in order, so that nothing sent in this tick's
    /// post-update phase can be seen before the next tick.
    pub fn update_elements(&mut self, td: i32)
        requires
            old(self).wf(),
        ensures
            final(self).wf(),
            final(self).ids() == old(self).ids(),
            final(self).camera() == old(self).camera(),
            (final(self).elements(), final(self).components()) == tick(
                old(self).elements(),
                old(self).components(),
                td,
            ),
    {
        let ghost es = self.elements@;
        let ghost c0 = self.component_manager;
        let n = self.elements.len();
        let mut i: usize = 0;
        while i < n
            invariant
                0 <= i <= n,
                n == es.len(),
                self.elements@.len() == n,
                forall|j: int| 0 <= j < n ==> #[trigger] self.elements@[j].0 == es[j].0,
                forall|j: int| i <= j < n ==> #[trigger] self.elements@[j] == es[j],
                (self.elements@.take(i as int), self.component_manager) == local_phase(es.take(i as int), c0, td),
                self.camera_uuid == old(self).camera_uuid,
            decreases n - i,
        {
            let ghost prev = self.elements@;
            let ghost prev_c = self.component_manager;
            proof {
                assert(es.take(i + 1).drop_last() =~= es.take(i as int));
                assert(es.take(i + 1).last() == es[i as int]);
            }
            self.elements[i].1.local_update(td, &mut self.component_manager);
            proof {
                assert forall|j: int| 0 <= j < n && j != i implies self.elements@[j] == prev[j] by {}
                assert(self.elements@.take(i + 1) =~= prev.take(i as int).push(
                    (es[i as int].0, es[i as int].1.local_step(td, prev_c).0),
                ));
            }
            i = i + 1;
        }
        proof {
            assert(es.take(n as int) =~= es);
            assert(self.elements@.take(n as int) =~= self.elements@);
        }
        let ghost ls = self.elements@;
        let ghost c1 = self.component_manager;
        let mut k: usize = 0;
        while k < n
            invariant
                0 <= k <= n,
                n == ls.len(),
                self.elements@.len() == n,
                forall|j: int| 0 <= j < n ==> #[trigger] self.elements@[j].0 == es[j].0,
                forall|j: int| 0 <= j < n ==> #[trigger] ls[j].0 == es[j].0,
                forall|j: int| k <= j < n ==> #[trigger] self.elements@[j] == ls[j],
                (self.elements@.take(k as int), self.component_manager) == post_phase(ls.take(k as int), c1),
                self.camera_uuid == old(self).camera_uuid,
            decreases n - k,
        {
            let ghost prev = self.elements@;
            let ghost prev_c = self.component_manager;
            proof {
                assert(ls.take(k + 1).drop_last() =~= ls.take(k as int));
                assert(ls.take(k + 1).last() == ls[k as int]);
            }
            self.elements[k].1.post_update(&mut self.component_manager);
            proof {
                assert forall|j: int| 0 <= j < n && j != k implies self.elements@[j] == prev[j] by {}
                assert(self.elements@.take(k + 1) =~= prev.take(k as int).push(
                    (ls[k as int].0, ls[k as int].1.post_step(prev_c).0),
                ));
            }
            k = k + 1;
        }
        proof {
            assert(ls.take(n as int) =~= ls);
            assert(self.elements@.take(n as int) =~= self.elements@);
            assert(self.ids() =~= old(self).ids());
        }
    }

    /// The services the entities share.
    pub fn component_manager(&self) -> (r: &C)
        ensures
            *r == self.components(),
    {
        &self.component_manager
    }

    /// The services the entities share, for changes between ticks.
    pub fn component_manager_mut(&mut self) -> (r: &mut C)
        ensures
            *r == old(self).components(),
            final(self).components() == *final(r),
            final(self).elements() == old(self).elements(),
            final(self).camera() == old(self).camera(),
    {
        &mut self.component_manager
    }

    /// The camera's identifier, if `init_elements` found a camera.
    pub fn camera_uuid(&self) -> (r: Option<Identifier>)
        ensures
            r == self.camera(),
    {
        self.camera_uuid
    }

    /// The number of entities.
    pub fn len(&self) -> (r: usize)
        ensures
            r == self.elements().len(),
    {
        self.elements.len()
    }

    /// The identifier and the entity at position `i` in insertion order.
    pub fn element(&self, i: usize) -> (r: (Identifier, &E))
        requires
            i < self.elements().len(),
        ensures
            r.0 == self.elements()[i as int].0,
            *r.1 == self.elements()[i as int].1,
    {
        (self.elements[i].0, &self.elements[i].1)
    }
}

/// One-tick latency for the world: nothing that the post phase does can be
/// seen by the local phase of the same tick. Two worlds whose entities agree
/// on their local steps come out of the local phase in the same state,
/// however their post steps differ; what a post phase produces reaches
/// entities only through the state the next tick begins from.
pub proof fn lemma_local_phase_ignores_post_steps<E: ElementBase<C>, C>(
    es1: Seq<(Identifier, E)>,
    es2: Seq<(Identifier, E)>,
    c: C,
    td: i32,
)
    requires
        es1.len() == es2.len(),
        forall|i: int| 0 <= i < es1.len() ==> #[trigger] es1[i].0 == es2[i].0,
        forall|i: int, d: i32, s: C|
            0 <= i < es1.len() ==> #[trigger] es1[i].1.local_step(d, s) == es2[i].1.local_step(d, s),
    ensures
        local_phase(es1, c, td) == local_phase(es2, c, td),
    decreases es1.len(),
{
    if es1.len() > 0 {
        let n = es1.len() - 1;
        assert forall|i: int| 0 <= i < n implies #[trigger] es1.drop_last()[i].0 == es2.drop_last()[i].0 by {
            assert(es1[i].0 == es2[i].0);
        }
        assert forall|i: int, d: i32, s: C| 0 <= i < n implies #[trigger] es1.drop_last()[i].1.local_step(d, s)
            == es2.drop_last()[i].1.local_step(d, s) by {
            assert(es1[i].1.local_step(d, s) == es2[i].1.local_step(d, s));
        }
        lemma_local_phase_ignores_post_steps(es1.drop_last(), es2.drop_last(), c, td);
        let before = local_phase(es1.drop_last(), c, td);
        assert(es1.last().1.local_step(td, before.1) == es2.last().1.local_step(td, before.1));
        assert(es1.last().0 == es2.last().0);
    }
}

/// The camera recorded over `es` is `cam` or the identifier of one of `es`.
proof fn lemma_camera_after_in<E: ElementBase<C>, C>(es: Seq<(Identifier, E)>, cam: Option<Identifier>)
    ensures
        camera_after::<E, C>(es, cam) == cam || exists|k: int|
            0 <= k < es.len() && camera_after::<E, C>(es, cam) == Some(#[trigger] es[k].0),
    decreases es.len(),
{
    if es.len() > 0 {
        lemma_camera_after_in::<E, C>(es.drop_last(), cam);
        if !es.last().1.is_camera_spec() && camera_after::<E, C>(es, cam) != cam {
            let k = choose|k: int|
                0 <= k < es.drop_last().len() && camera_after::<E, C>(es.drop_last(), cam) == Some(
                    #[trigger] es.drop_last()[k].0,
                );
            assert(es[k] == es.drop_last()[k]);
        }
    }
}

} // verus!
