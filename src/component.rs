//! The capability registry: named singleton services, looked up by name.
use vstd::prelude::*;
use crate::element::NullElement;
use crate::event::Sender;

verus! {

/// A service that takes part in the world's ticks through an entity of type
/// `E` (one whose hooks do nothing, when it takes no part).
pub trait Component<E> {
    /// The entity that represents the service in the world's update loop.
    closed spec fn element_spec(&self) -> E {
        arbitrary()
    }

    fn build_element(&self) -> (r: E)
        ensures
            r == self.element_spec(),
    ;
}

/// A broadcaster takes no part in ticks: its entity does nothing.
impl<T: Copy> Component<NullElement> for Sender<T> {
    open spec fn element_spec(&self) -> NullElement {
        NullElement
    }

    fn build_element(&self) -> (r: NullElement) {
        NullElement
    }
}

/// No two entries share a name.
pub open spec fn names_distinct<S>(entries: Seq<(Seq<char>, S)>) -> bool {
    forall|i: int, j: int|
        0 <= i < entries.len() && 0 <= j < entries.len() && i != j ==> #[trigger] entries[i].0
            != #[trigger] entries[j].0
}

/// Some entry is registered under `name`.
pub open spec fn has_name<S>(entries: Seq<(Seq<char>, S)>, name: Seq<char>) -> bool {
    exists|i: int| 0 <= i < entries.len() && #[trigger] entries[i].0 == name
}

/// A registry of services of type `S` (typically an enum of the world's
/// capabilities), one per name.
pub struct ComponentManager<S> {
    components: Vec<(String, S)>,
}

impl<S> View for ComponentManager<S> {
    type V = Seq<(Seq<char>, S)>;

    closed spec fn view(&self) -> Seq<(Seq<char>, S)> {
        self.components@.map_values(|e: (String, S)| (e.0@, e.1))
    }
}

impl<S> ComponentManager<S> {
    /// The registry's names are distinct.
    pub open spec fn wf(&self) -> bool {
        names_distinct(self@)
    }

    /// An empty registry.
    pub fn new() -> (r: Self)
        ensures
            r@ == Seq::<(Seq<char>, S)>::empty(),
            r.wf(),
    {
        ComponentManager { components: Vec::new() }
    }

    fn find(&self, name: &str) -> (r: Option<usize>)
        ensures
            r matches Some(i) ==> i < self@.len() && self@[i as int].0 == name@,
            r is None ==> !has_name(self@, name@),
    {
        let key = name.to_owned();
        let mut i: usize = 0;
        while i < self.components.len()
            invariant
                0 <= i <= self.components@.len(),
                key@ == name@,
                forall|j: int| 0 <= j < i ==> self@[j].0 != name@,
            decreases self.components@.len() - i,
        {
            if self.components[i].0 == key {
                return Some(i);
            }
            i = i + 1;
        }
        None
    }

    /// Stores `component` under `name`, replacing a service already stored
    /// under it, and returns the entity through which the service takes part
    /// in the world's ticks.
    pub fn add<E>(&mut self, name: &str, component: S) -> (r: E) where S: Component<E>
        requires
            old(self).wf(),
        ensures
            r == component.element_spec(),
            final(self).wf(),
            !has_name(old(self)@, name@) ==> final(self)@ == old(self)@.push((name@, component)),
            forall|j: int|
                0 <= j < old(self)@.len() && #[trigger] old(self)@[j].0 == name@ ==> final(self)@
                    == old(self)@.update(j, (name@, component)),
    {
        let element = component.build_element();
        match self.find(name) {
            Some(i) => {
                self.components.set(i, (name.to_owned(), component));
                proof {
                    assert(self@ =~= old(self)@.update(i as int, (name@, component)));
                    assert forall|j: int|
                        0 <= j < old(self)@.len() && #[trigger] old(self)@[j].0 == name@ implies j == i by {}
                }
            },
            None => {
                self.components.push((name.to_owned(), component));
                proof {
                    assert(self@ =~= old(self)@.push((name@, component)));
                }
            },
        }
        element
    }

    /// The service stored under `name`, for changes; `None` when there is none.
    pub fn access_mut(&mut self, name: &str) -> (r: Option<&mut S>)
        requires
            old(self).wf(),
        ensures
            r is None <==> !has_name(old(self)@, name@),
            r is None ==> final(self)@ == old(self)@,
            forall|j: int|
                0 <= j < old(self)@.len() && #[trigger] old(self)@[j].0 == name@ ==> (r matches Some(m) && *m
                    == old(self)@[j].1 && final(self)@ == old(self)@.update(j, (name@, *final(m)))),
    {
        match self.find(name) {
            Some(i) => {
                proof {
                    assert forall|j: int| 0 <= j < self@.len() && #[trigger] self@[j].0 == name@ implies j == i by {}
                }
                let entry = &mut self.components[i];
                Some(&mut entry.1)
            },
            None => None,
        }
    }

    /// The service stored under `name`, or `None` when there is none. A miss
    /// is not an error: callers decide what to do without the service.
    pub fn access(&self, name: &str) -> (r: Option<&S>)
        requires
            self.wf(),
        ensures
            r is None <==> !has_name(self@, name@),
            forall|j: int| 0 <= j < self@.len() && #[trigger] self@[j].0 == name@ ==> r == Some(&self@[j].1),
    {
        match self.find(name) {
            Some(i) => {
                proof {
                    assert forall|j: int| 0 <= j < self@.len() && #[trigger] self@[j].0 == name@ implies j == i by {}
                }
                Some(&self.components[i].1)
            },
            None => None,
        }
    }
}

} // verus!
