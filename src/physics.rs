//! Axis-aligned box physics. Objects are submitted to the engine as messages;
//! once per tick the engine applies gravity to the dynamic objects, tests each
//! of them against every static object, and routes the resulting requests back
//! to the owners in the post-update phase.
//!
//! Lengths, velocities, gravity strengths and tick durations are fixed-point
//! numbers with `UNIT` steps to the world unit.
use vstd::prelude::*;
use crate::event::{
    Identifier, Receiver, RoutedEvent, Router, has_id, ids_distinct, lemma_routed_messages_arrive, route_all, targets,
};

verus! {

/// Steps per world unit.
pub const UNIT: i64 = 1000;

/// Velocity change per tick at a gravity strength of one unit, in steps:
/// five hundredths of a world unit, downwards.
pub const GRAVITY: i64 = -50;

/// How an object takes part in the simulation.
#[derive(Clone, Copy, Debug, PartialEq)]
pub struct POSettings {
    /// Solid objects are pushed out of other solid objects.
    pub solid: bool,
    /// Multiplies `GRAVITY`; zero switches gravity off.
    pub gravity_strength: i32,
    /// No gravity is applied once the vertical velocity is at or below this.
    pub terminal_velocity: i32,
}

/// An axis-aligned box spanning `pos` to `pos + shape`, with velocity `delta`.
#[derive(Clone, Copy, Debug, PartialEq)]
pub struct PhysObj {
    pub pos: [i32; 2],
    pub shape: [i32; 2],
    pub delta: [i32; 2],
    pub settings: POSettings,
}

/// The messages that entities and the physics engine exchange.
#[derive(Clone, Copy, Debug, PartialEq)]
pub enum PhysEvent {
    /// Registers a static collider once and for all.
    StaticPO(Identifier, PhysObj),
    /// Registers a dynamic object for the current tick only.
    DynamicPO(Identifier, PhysObj),
    /// Reserved: the engine does not act on it.
    RemoveStaticPO(Identifier),
    /// The receiver's object overlaps the static object under this identifier.
    Collision(Identifier, PhysObj),
    /// Asks the receiver to move its object by this vector.
    PosDeltaRequest([i64; 2]),
    /// Asks the receiver to change its object's velocity by this vector.
    VelocityDeltaRequest([i64; 2]),
}

/// The box's left edge.
pub open spec fn left(o: PhysObj) -> int {
    o.pos[0] as int
}

/// The box's right edge.
pub open spec fn right(o: PhysObj) -> int {
    o.pos[0] + o.shape[0]
}

/// The box's bottom edge.
pub open spec fn bottom(o: PhysObj) -> int {
    o.pos[1] as int
}

/// The box's top edge.
pub open spec fn top(o: PhysObj) -> int {
    o.pos[1] + o.shape[1]
}

/// The boxes of `a` and `b` share a point on both axes: boxes whose edges
/// touch count as overlapping.
pub open spec fn overlaps(a: PhysObj, b: PhysObj) -> bool {
    !(left(a) > right(b) || right(a) < left(b) || bottom(a) > top(b) || top(a) < bottom(b))
}

/// The magnitude of `x`.
pub open spec fn abs(x: int) -> int {
    if x < 0 {
        -x
    } else {
        x
    }
}

/// The smaller of the two horizontal moves that take `s` clear of `o`
/// (the move to the left on a tie).
pub open spec fn horizontal_push(s: PhysObj, o: PhysObj) -> int {
    let to_left = left(o) - right(s);
    let to_right = right(o) - left(s);
    if abs(to_left) > abs(to_right) {
        to_right
    } else {
        to_left
    }
}

/// The smaller of the two vertical moves that take `s` clear of `o`
/// (the move down on a tie).
pub open spec fn vertical_push(s: PhysObj, o: PhysObj) -> int {
    let down = bottom(o) - top(s);
    let up = top(o) - bottom(s);
    if abs(down) > abs(up) {
        up
    } else {
        down
    }
}

/// The single-axis correction for `s` against `o`: the horizontal move when
/// it is greater, as a signed number, than the vertical one, else the
/// vertical move.
pub open spec fn push_out(s: PhysObj, o: PhysObj) -> [i64; 2] {
    let h = horizontal_push(s, o);
    let v = vertical_push(s, o);
    if h > v {
        [h as i64, 0]
    } else {
        [0, v as i64]
    }
}

impl PhysObj {
    /// Whether the two boxes overlap.
    pub fn intersects(&self, other: &PhysObj) -> (r: bool)
        ensures
            r == overlaps(*self, *other),
    {
        let this_left = self.pos[0] as i64;
        let this_right = self.pos[0] as i64 + self.shape[0] as i64;
        let this_bottom = self.pos[1] as i64;
        let this_top = self.pos[1] as i64 + self.shape[1] as i64;

        let other_left = other.pos[0] as i64;
        let other_right = other.pos[0] as i64 + other.shape[0] as i64;
        let other_bottom = other.pos[1] as i64;
        let other_top = other.pos[1] as i64 + other.shape[1] as i64;

        !(this_left > other_right || this_right < other_left || this_bottom > other_top || this_top
            < other_bottom)
    }

    /// The vector that, added to `self.pos`, takes `self` out of `other`
    /// along one axis.
    pub fn exclusive_delta(&self, other: &Self) -> (r: [i64; 2])
        ensures
            r == push_out(*self, *other),
    {
        let left = other.pos[0] as i64 - (self.pos[0] as i64 + self.shape[0] as i64);
        let right = (other.pos[0] as i64 + other.shape[0] as i64) - self.pos[0] as i64;
        let down = other.pos[1] as i64 - (self.pos[1] as i64 + self.shape[1] as i64);
        let up = (other.pos[1] as i64 + other.shape[1] as i64) - self.pos[1] as i64;

        let horizontal = if magnitude(left) > magnitude(right) {
            right
        } else {
            left
        };

        let vertical = if magnitude(down) > magnitude(up) {
            up
        } else {
            down
        };

        if horizontal > vertical {
            [horizontal, 0]
        } else {
            [0, vertical]
        }
    }
}

fn magnitude(x: i64) -> (r: i64)
    requires
        x > i64::MIN,
    ensures
        r == abs(x as int),
{
    if x < 0 {
        -x
    } else {
        x
    }
}

/// A collider at `pos` with extent `shape`, at rest, with default settings.
pub fn box_collider(pos: [i32; 2], shape: [i32; 2]) -> (r: PhysObj)
    ensures
        r.pos == pos,
        r.shape == shape,
        r.delta == [0i32, 0i32],
        r.settings == default_settings(),
{
    PhysObj { pos: pos, shape: shape, delta: [0, 0], settings: POSettings::default() }
}

/// Solid, with a gravity strength of one unit and a terminal velocity of
/// minus ten units.
pub open spec fn default_settings() -> POSettings {
    POSettings { solid: true, gravity_strength: 1000i32, terminal_velocity: -10000i32 }
}

impl Default for POSettings {
    fn default() -> (r: Self)
        ensures
            r == default_settings(),
    {
        POSettings { solid: true, gravity_strength: 1000i32, terminal_velocity: -10000i32 }
    }
}


/// The hooks through which entities react to static objects: `on_each` for
/// every static object, `on_collision` for each one it overlaps. Both receive
/// the identifier of the dynamic object's owner, so that each entity can have
/// its own reactions; their results are sent to that owner. Each is a
/// function of the identifier and the two objects alone.
pub trait ReactionPolicy {
    closed spec fn each_reaction(&self, id: Identifier, this: PhysObj, other: PhysObj) -> Seq<PhysEvent> {
        arbitrary()
    }

    closed spec fn collision_reaction(&self, id: Identifier, this: PhysObj, other: PhysObj) -> Seq<PhysEvent> {
        arbitrary()
    }

    fn on_each(&self, id: Identifier, this: &PhysObj, other: &PhysObj) -> (r: Vec<PhysEvent>)
        ensures
            r@ == self.each_reaction(id, *this, *other),
    ;

    fn on_collision(&self, id: Identifier, this: &PhysObj, other: &PhysObj) -> (r: Vec<PhysEvent>)
        ensures
            r@ == self.collision_reaction(id, *this, *other),
    ;
}

/// Hooks that never react.
pub struct NoReaction;

impl ReactionPolicy for NoReaction {
    open spec fn each_reaction(&self, id: Identifier, this: PhysObj, other: PhysObj) -> Seq<PhysEvent> {
        Seq::empty()
    }

    open spec fn collision_reaction(&self, id: Identifier, this: PhysObj, other: PhysObj) -> Seq<PhysEvent> {
        Seq::empty()
    }

    fn on_each(&self, id: Identifier, this: &PhysObj, other: &PhysObj) -> (r: Vec<PhysEvent>) {
        Vec::new()
    }

    fn on_collision(&self, id: Identifier, this: &PhysObj, other: &PhysObj) -> (r: Vec<PhysEvent>) {
        Vec::new()
    }
}

/// Each of `events` addressed to `id`.
pub open spec fn addressed_to(id: Identifier, events: Seq<PhysEvent>) -> Seq<RoutedEvent<PhysEvent>> {
    events.map_values(|e: PhysEvent| RoutedEvent(Some(id), e))
}

/// `p / d`, rounded toward zero.
pub open spec fn scaled_toward_zero(p: int, d: int) -> int {
    if p >= 0 {
        p / d
    } else {
        -((-p) / d)
    }
}

/// The vertical velocity change that gravity adds in a tick of length `td`
/// to an object of gravity strength `strength`, rounded toward zero.
pub open spec fn gravity_step(strength: int, td: int) -> int {
    scaled_toward_zero(GRAVITY * (strength * td), UNIT * UNIT)
}

/// The engine's own messages for one dynamic object: a velocity change
/// while gravity applies and the object is above its terminal velocity.
pub open spec fn individual_messages(id: Identifier, o: PhysObj, td: int) -> Seq<RoutedEvent<PhysEvent>> {
    if o.settings.gravity_strength != 0 && o.delta[1] > o.settings.terminal_velocity {
        seq![
            RoutedEvent(
                Some(id),
                PhysEvent::VelocityDeltaRequest([0i64, gravity_step(o.settings.gravity_strength as int, td) as i64]),
            ),
        ]
    } else {
        Seq::empty()
    }
}

/// The messages for the dynamic object `d` of `id` against the static object
/// `s` of `sid`, all addressed to `id`: the `on_each` reaction; then, when the
/// boxes overlap, a collision notice, the `on_collision` reaction and, when
/// both are solid, the push-out request.
pub open spec fn interaction_messages<R: ReactionPolicy>(
    reactions: R,
    id: Identifier,
    d: PhysObj,
    sid: Identifier,
    s: PhysObj,
) -> Seq<RoutedEvent<PhysEvent>> {
    addressed_to(id, reactions.each_reaction(id, d, s)) + if overlaps(d, s) {
        seq![RoutedEvent(Some(id), PhysEvent::Collision(sid, s))] + addressed_to(
            id,
            reactions.collision_reaction(id, d, s),
        ) + if d.settings.solid && s.settings.solid {
            seq![RoutedEvent(Some(id), PhysEvent::PosDeltaRequest(push_out(d, s)))]
        } else {
            Seq::empty()
        }
    } else {
        Seq::empty()
    }
}

/// The interaction messages of `d` against each of `statics`, in order.
pub open spec fn pair_messages<R: ReactionPolicy>(
    reactions: R,
    id: Identifier,
    d: PhysObj,
    statics: Seq<(Identifier, PhysObj)>,
) -> Seq<RoutedEvent<PhysEvent>>
    decreases statics.len(),
{
    if statics.len() == 0 {
        Seq::empty()
    } else {
        pair_messages(reactions, id, d, statics.drop_last()) + interaction_messages(
            reactions,
            id,
            d,
            statics.last().0,
            statics.last().1,
        )
    }
}

/// Everything one tick sends about the given dynamic objects: for each in
/// turn, its own messages and then its interactions with every static object.
pub open spec fn tick_messages<R: ReactionPolicy>(
    reactions: R,
    dynamics: Seq<(Identifier, PhysObj)>,
    statics: Seq<(Identifier, PhysObj)>,
    td: int,
) -> Seq<RoutedEvent<PhysEvent>>
    decreases dynamics.len(),
{
    if dynamics.len() == 0 {
        Seq::empty()
    } else {
        tick_messages(reactions, dynamics.drop_last(), statics, td) + individual_messages(
            dynamics.last().0,
            dynamics.last().1,
            td,
        ) + pair_messages(reactions, dynamics.last().0, dynamics.last().1, statics)
    }
}

/// The static registrations among `events`, in order.
pub open spec fn statics_in(events: Seq<PhysEvent>) -> Seq<(Identifier, PhysObj)>
    decreases events.len(),
{
    if events.len() == 0 {
        Seq::empty()
    } else {
        match events.last() {
            PhysEvent::StaticPO(id, o) => statics_in(events.drop_last()).push((id, o)),
            _ => statics_in(events.drop_last()),
        }
    }
}

/// The dynamic registrations among `events`, in order.
pub open spec fn dynamics_in(events: Seq<PhysEvent>) -> Seq<(Identifier, PhysObj)>
    decreases events.len(),
{
    if events.len() == 0 {
        Seq::empty()
    } else {
        match events.last() {
            PhysEvent::DynamicPO(id, o) => dynamics_in(events.drop_last()).push((id, o)),
            _ => dynamics_in(events.drop_last()),
        }
    }
}

fn gravity_change(strength: i32, td: i32) -> (r: i64)
    ensures
        r == gravity_step(strength as int, td as int),
{
    let s = strength as i128;
    let t = td as i128;
    proof {
        assert(-4611686018427387904 <= s * t <= 4611686018427387904) by (nonlinear_arith)
            requires
                -2147483648 <= s <= 2147483647,
                -2147483648 <= t <= 2147483647,
        ;
    }
    let product: i128 = (GRAVITY as i128) * (s * t);
    let scale: i128 = 1_000_000;
    assert(scale == UNIT * UNIT);
    if product >= 0 {
        let q = product / scale;
        proof {
            assert(q <= product);
        }
        q as i64
    } else {
        let q = (-product) / scale;
        proof {
            assert(q <= -product);
        }
        -(q as i64)
    }
}

fn individual(uuid: Identifier, this: &PhysObj, td: i32) -> (r: Vec<RoutedEvent<PhysEvent>>)
    ensures
        r@ == individual_messages(uuid, *this, td as int),
{
    let mut queue: Vec<RoutedEvent<PhysEvent>> = Vec::new();
    if this.settings.gravity_strength != 0 && this.delta[1] > this.settings.terminal_velocity {
        let dv = gravity_change(this.settings.gravity_strength, td);
        queue.push(RoutedEvent(Some(uuid), PhysEvent::VelocityDeltaRequest([0, dv])));
        proof {
            assert(queue@ =~= individual_messages(uuid, *this, td as int));
        }
    }
    queue
}

fn append_addressed(queue: &mut Vec<RoutedEvent<PhysEvent>>, uuid: Identifier, events: &Vec<PhysEvent>)
    ensures
        final(queue)@ == old(queue)@ + addressed_to(uuid, events@),
{
    let mut i: usize = 0;
    while i < events.len()
        invariant
            0 <= i <= events@.len(),
            queue@ == old(queue)@ + addressed_to(uuid, events@.take(i as int)),
        decreases events@.len() - i,
    {
        queue.push(RoutedEvent(Some(uuid), events[i]));
        proof {
            assert(addressed_to(uuid, events@.take(i + 1)) =~= addressed_to(uuid, events@.take(i as int)).push(
                RoutedEvent(Some(uuid), events@[i as int]),
            ));
        }
        i = i + 1;
    }
    proof {
        assert(events@.take(i as int) =~= events@);
    }
}

fn interaction<R: ReactionPolicy>(
    reactions: &R,
    this_uuid: Identifier,
    this: &PhysObj,
    other_uuid: Identifier,
    other: &PhysObj,
) -> (r: Vec<RoutedEvent<PhysEvent>>)
    ensures
        r@ == interaction_messages(*reactions, this_uuid, *this, other_uuid, *other),
{
    let mut queue: Vec<RoutedEvent<PhysEvent>> = Vec::new();
    let each = reactions.on_each(this_uuid, this, other);
    append_addressed(&mut queue, this_uuid, &each);
    let ghost first = queue@;
    if this.intersects(other) {
        queue.push(RoutedEvent(Some(this_uuid), PhysEvent::Collision(other_uuid, *other)));
        let hits = reactions.on_collision(this_uuid, this, other);
        append_addressed(&mut queue, this_uuid, &hits);
        if this.settings.solid && other.settings.solid {
            let delta = this.exclusive_delta(other);
            queue.push(RoutedEvent(Some(this_uuid), PhysEvent::PosDeltaRequest(delta)));
        }
    }
    proof {
        assert(queue@ =~= interaction_messages(*reactions, this_uuid, *this, other_uuid, *other));
    }
    queue
}


/// The physics engine. Entities submit registrations to its mailbox and read
/// its requests from mailboxes that it routes by identifier. Static colliders
/// persist from tick to tick; dynamic objects take part only in the tick in
/// which they were submitted.
pub struct PhysObjManager {
    statics: Vec<(Identifier, PhysObj)>,
    receiver: Receiver<PhysEvent>,
    router: Router<PhysEvent>,
    send_queue: Vec<RoutedEvent<PhysEvent>>,
}

impl PhysObjManager {
    /// The static colliders registered so far, in registration order.
    pub closed spec fn static_colliders(&self) -> Seq<(Identifier, PhysObj)> {
        self.statics@
    }

    /// The messages submitted since the last tick.
    pub closed spec fn pending(&self) -> Seq<PhysEvent> {
        self.receiver@
    }

    /// The entities' mailboxes, by identifier.
    pub closed spec fn mailboxes(&self) -> Seq<(Identifier, Seq<PhysEvent>)> {
        self.router@
    }

    /// The messages computed in this tick and not yet sent.
    pub closed spec fn outbox(&self) -> Seq<RoutedEvent<PhysEvent>> {
        self.send_queue@
    }

    /// The mailboxes' identifiers are distinct.
    pub open spec fn wf(&self) -> bool {
        ids_distinct(self.mailboxes())
    }

    /// An engine with no collider, no mailbox and nothing to send.
    pub fn new() -> (r: Self)
        ensures
            r.wf(),
            r.static_colliders() == Seq::<(Identifier, PhysObj)>::empty(),
            r.pending() == Seq::<PhysEvent>::empty(),
            r.mailboxes() == Seq::<(Identifier, Seq<PhysEvent>)>::empty(),
            r.outbox() == Seq::<RoutedEvent<PhysEvent>>::empty(),
    {
        PhysObjManager {
            statics: Vec::new(),
            receiver: Receiver::new(),
            router: Router::new(),
            send_queue: Vec::new(),
        }
    }

    /// Hands `event` to the engine for its next tick.
    pub fn submit(&mut self, event: PhysEvent)
        ensures
            final(self).pending() == old(self).pending().push(event),
            final(self).static_colliders() == old(self).static_colliders(),
            final(self).mailboxes() == old(self).mailboxes(),
            final(self).outbox() == old(self).outbox(),
    {
        self.receiver.receive(event);
    }

    /// Registers an empty mailbox under `uuid`, replacing one already there,
    /// and returns `uuid`.
    pub fn new_receiver_uuid(&mut self, uuid: Identifier) -> (r: Identifier)
        requires
            old(self).wf(),
        ensures
            r == uuid,
            final(self).wf(),
            !has_id(old(self).mailboxes(), uuid) ==> final(self).mailboxes() == old(self).mailboxes().push(
                (uuid, Seq::<PhysEvent>::empty()),
            ),
            forall|j: int|
                0 <= j < old(self).mailboxes().len() && #[trigger] old(self).mailboxes()[j].0 == uuid
                    ==> final(self).mailboxes() == old(self).mailboxes().update(j, (uuid, Seq::<PhysEvent>::empty())),
            final(self).static_colliders() == old(self).static_colliders(),
            final(self).pending() == old(self).pending(),
            final(self).outbox() == old(self).outbox(),
    {
        self.router.new_receiver_uuid(uuid)
    }

    /// Registers an empty mailbox under an identifier that no mailbox has
    /// yet, generated at random, and returns that identifier.
    pub fn new_receiver(&mut self) -> (r: Identifier)
        requires
            old(self).wf(),
        ensures
            final(self).wf(),
            !has_id(old(self).mailboxes(), r),
            final(self).mailboxes() == old(self).mailboxes().push((r, Seq::<PhysEvent>::empty())),
            final(self).static_colliders() == old(self).static_colliders(),
            final(self).pending() == old(self).pending(),
            final(self).outbox() == old(self).outbox(),
    {
        self.router.new_receiver()
    }

    /// Drains the mailbox registered under `uuid`; an unknown `uuid` drains
    /// nothing.
    pub fn poll(&mut self, uuid: Identifier) -> (r: Vec<PhysEvent>)
        requires
            old(self).wf(),
        ensures
            final(self).wf(),
            !has_id(old(self).mailboxes(), uuid) ==> r@ == Seq::<PhysEvent>::empty() && final(self).mailboxes()
                == old(self).mailboxes(),
            forall|j: int|
                0 <= j < old(self).mailboxes().len() && #[trigger] old(self).mailboxes()[j].0 == uuid ==> r@
                    == old(self).mailboxes()[j].1 && final(self).mailboxes() == old(self).mailboxes().update(
                    j,
                    (uuid, Seq::<PhysEvent>::empty()),
                ),
            final(self).static_colliders() == old(self).static_colliders(),
            final(self).pending() == old(self).pending(),
            final(self).outbox() == old(self).outbox(),
    {
        self.router.poll(uuid)
    }

    /// One tick's computation. Drains the engine's mailbox, appends the static
    /// registrations to the persistent colliders and takes the dynamic ones for
    /// this tick; then queues, for each dynamic object in turn, its gravity
    /// request and its interactions with every static collider. Other messages
    /// are ignored. Nothing is delivered before `post_update`.
    pub fn local_update<R: ReactionPolicy>(&mut self, td: i32, reactions: &R)
        requires
            old(self).wf(),
        ensures
            final(self).wf(),
            final(self).pending() == Seq::<PhysEvent>::empty(),
            final(self).static_colliders() == old(self).static_colliders() + statics_in(old(self).pending()),
            final(self).mailboxes() == old(self).mailboxes(),
            final(self).outbox() == old(self).outbox() + tick_messages(
                *reactions,
                dynamics_in(old(self).pending()),
                final(self).static_colliders(),
                td as int,
            ),
    {
        let events = self.receiver.poll();
        let mut dynamics: Vec<(Identifier, PhysObj)> = Vec::new();
        let mut i: usize = 0;
        while i < events.len()
            invariant
                0 <= i <= events@.len(),
                events@ == old(self).pending(),
                self.statics@ == old(self).statics@ + statics_in(events@.take(i as int)),
                dynamics@ == dynamics_in(events@.take(i as int)),
                self.router == old(self).router,
                self.send_queue == old(self).send_queue,
                self.receiver@ == Seq::<PhysEvent>::empty(),
            decreases events@.len() - i,
        {
            proof {
                assert(events@.take(i + 1).drop_last() =~= events@.take(i as int));
            }
            match events[i] {
                PhysEvent::DynamicPO(uuid, po) => {
                    dynamics.push((uuid, po));
                },
                PhysEvent::StaticPO(uuid, po) => {
                    self.statics.push((uuid, po));
                    proof {
                        assert(self.statics@ =~= old(self).statics@ + statics_in(events@.take(i + 1)));
                    }
                },
                _ => {},
            }
            i = i + 1;
        }
        proof {
            assert(events@.take(i as int) =~= events@);
        }
        let ghost statics = self.statics@;
        let mut k: usize = 0;
        while k < dynamics.len()
            invariant
                0 <= k <= dynamics@.len(),
                dynamics@ == dynamics_in(old(self).pending()),
                self.statics@ == statics,
                self.router == old(self).router,
                self.receiver@ == Seq::<PhysEvent>::empty(),
                self.send_queue@ == old(self).send_queue@ + tick_messages(
                    *reactions,
                    dynamics@.take(k as int),
                    statics,
                    td as int,
                ),
            decreases dynamics@.len() - k,
        {
            let (uuid, d) = dynamics[k];
            let ghost base = self.send_queue@;
            let mut own = individual(uuid, &d, td);
            self.send_queue.append(&mut own);
            let ghost with_own = self.send_queue@;
            let mut m: usize = 0;
            while m < self.statics.len()
                invariant
                    0 <= m <= statics.len(),
                    self.statics@ == statics,
                    self.router == old(self).router,
                    self.receiver@ == Seq::<PhysEvent>::empty(),
                    self.send_queue@ == with_own + pair_messages(*reactions, uuid, d, statics.take(m as int)),
                decreases statics.len() - m,
            {
                let (s_uuid, s) = self.statics[m];
                let mut pair = interaction(reactions, uuid, &d, s_uuid, &s);
                self.send_queue.append(&mut pair);
                proof {
                    assert(statics.take(m + 1).drop_last() =~= statics.take(m as int));
                    assert(self.send_queue@ =~= with_own + pair_messages(
                        *reactions,
                        uuid,
                        d,
                        statics.take(m + 1),
                    ));
                }
                m = m + 1;
            }
            proof {
                assert(statics.take(m as int) =~= statics);
                assert(dynamics@.take(k + 1).drop_last() =~= dynamics@.take(k as int));
                assert(self.send_queue@ =~= old(self).send_queue@ + tick_messages(
                    *reactions,
                    dynamics@.take(k + 1),
                    statics,
                    td as int,
                ));
            }
            k = k + 1;
        }
        proof {
            assert(dynamics@.take(k as int) =~= dynamics@);
        }
    }

    /// Routes every queued message, in order, and empties the queue.
    pub fn post_update(&mut self)
        requires
            old(self).wf(),
        ensures
            final(self).wf(),
            final(self).outbox() == Seq::<RoutedEvent<PhysEvent>>::empty(),
            final(self).mailboxes() == route_all(old(self).mailboxes(), old(self).outbox()),
            final(self).static_colliders() == old(self).static_colliders(),
            final(self).pending() == old(self).pending(),
    {
        let mut i: usize = 0;
        while i < self.send_queue.len()
            invariant
                0 <= i <= self.send_queue@.len(),
                self.send_queue == old(self).send_queue,
                self.statics == old(self).statics,
                self.receiver == old(self).receiver,
                self.router.wf(),
                self.router@ == route_all(old(self).router@, self.send_queue@.take(i as int)),
            decreases self.send_queue@.len() - i,
        {
            let event = self.send_queue[i];
            self.router.send(event);
            proof {
                assert(self.send_queue@.take(i + 1).drop_last() =~= self.send_queue@.take(i as int));
            }
            i = i + 1;
        }
        proof {
            assert(self.send_queue@.take(i as int) =~= self.send_queue@);
        }
        self.send_queue.clear();
    }
}


/// Overlap does not depend on the order of the two boxes.
pub proof fn lemma_intersects_symmetric(a: PhysObj, b: PhysObj)
    ensures
        overlaps(a, b) == overlaps(b, a),
{
}

/// An object whose vertical velocity is at or below its terminal velocity
/// gets no gravity request, in any tick, whatever the tick's length.
pub proof fn lemma_no_gravity_at_terminal_velocity(id: Identifier, o: PhysObj, td: int)
    requires
        o.delta[1] <= o.settings.terminal_velocity,
    ensures
        individual_messages(id, o, td) == Seq::<RoutedEvent<PhysEvent>>::empty(),
{
}

/// An object above its terminal velocity with gravity switched on gets
/// exactly one request: the gravity step for its strength and the tick.
pub proof fn lemma_gravity_request(id: Identifier, o: PhysObj, td: int)
    requires
        o.settings.gravity_strength != 0,
        o.delta[1] > o.settings.terminal_velocity,
    ensures
        individual_messages(id, o, td) == seq![
            RoutedEvent(
                Some(id),
                PhysEvent::VelocityDeltaRequest([0i64, gravity_step(o.settings.gravity_strength as int, td) as i64]),
            ),
        ],
{
}

/// Every message about a dynamic object against static objects is addressed
/// to that object's owner.
proof fn lemma_pair_messages_addressed<R: ReactionPolicy>(
    reactions: R,
    id: Identifier,
    d: PhysObj,
    statics: Seq<(Identifier, PhysObj)>,
)
    ensures
        forall|k: int|
            0 <= k < pair_messages(reactions, id, d, statics).len() ==> #[trigger] pair_messages(
                reactions,
                id,
                d,
                statics,
            )[k].0 == Some(id),
    decreases statics.len(),
{
    if statics.len() > 0 {
        lemma_pair_messages_addressed(reactions, id, d, statics.drop_last());
        let prev = pair_messages(reactions, id, d, statics.drop_last());
        let last = interaction_messages(reactions, id, d, statics.last().0, statics.last().1);
        assert forall|k: int| 0 <= k < last.len() implies #[trigger] last[k].0 == Some(id) by {
            let each = addressed_to(id, reactions.each_reaction(id, d, statics.last().1));
            if k >= each.len() && overlaps(d, statics.last().1) {
                let hits = addressed_to(id, reactions.collision_reaction(id, d, statics.last().1));
                let k2 = k - each.len() - 1;
                if 0 <= k2 < hits.len() {
                    assert(last[k] == hits[k2]);
                }
            }
        }
        assert forall|k: int| 0 <= k < prev.len() + last.len() implies #[trigger] (prev + last)[k].0 == Some(
            id,
        ) by {
            if k >= prev.len() {
                assert((prev + last)[k] == last[k - prev.len()]);
            }
        }
    }
}

/// Every message of a tick is addressed to the owner of one of the tick's
/// dynamic objects.
proof fn lemma_tick_messages_addressed<R: ReactionPolicy>(
    reactions: R,
    dynamics: Seq<(Identifier, PhysObj)>,
    statics: Seq<(Identifier, PhysObj)>,
    td: int,
)
    ensures
        forall|k: int|
            0 <= k < tick_messages(reactions, dynamics, statics, td).len() ==> exists|i: int|
                0 <= i < dynamics.len() && #[trigger] tick_messages(reactions, dynamics, statics, td)[k].0
                    == Some(dynamics[i].0),
    decreases dynamics.len(),
{
    if dynamics.len() > 0 {
        let rest = dynamics.drop_last();
        lemma_tick_messages_addressed(reactions, rest, statics, td);
        let (id, d) = dynamics.last();
        lemma_pair_messages_addressed(reactions, id, d, statics);
        let prev = tick_messages(reactions, rest, statics, td);
        let own = individual_messages(id, d, td);
        let pairs = pair_messages(reactions, id, d, statics);
        let all = tick_messages(reactions, dynamics, statics, td);
        assert(all == prev + own + pairs);
        assert forall|k: int| 0 <= k < all.len() implies exists|i: int|
            0 <= i < dynamics.len() && #[trigger] all[k].0 == Some(dynamics[i].0) by {
            if k < prev.len() {
                assert(all[k] == prev[k]);
                let i = choose|i: int| 0 <= i < rest.len() && prev[k].0 == Some(rest[i].0);
                assert(rest[i] == dynamics[i]);
            } else if k < prev.len() + own.len() {
                assert(all[k] == own[k - prev.len()]);
                assert(all[k].0 == Some(dynamics[dynamics.len() - 1].0));
            } else {
                assert(all[k] == pairs[k - prev.len() - own.len()]);
                assert(all[k].0 == Some(dynamics[dynamics.len() - 1].0));
            }
        }
    }
}

/// The dynamic registrations of `events` all come from `DynamicPO` messages.
proof fn lemma_dynamics_from_messages(events: Seq<PhysEvent>)
    ensures
        forall|i: int|
            0 <= i < dynamics_in(events).len() ==> exists|k: int|
                0 <= k < events.len() && events[k] == PhysEvent::DynamicPO(
                    #[trigger] dynamics_in(events)[i].0,
                    dynamics_in(events)[i].1,
                ),
    decreases events.len(),
{
    if events.len() > 0 {
        let rest = events.drop_last();
        lemma_dynamics_from_messages(rest);
        let ds = dynamics_in(events);
        assert forall|i: int| 0 <= i < ds.len() implies exists|k: int|
            0 <= k < events.len() && events[k] == PhysEvent::DynamicPO(#[trigger] ds[i].0, ds[i].1) by {
            if i < dynamics_in(rest).len() {
                assert(ds[i] == dynamics_in(rest)[i]);
                let k = choose|k: int|
                    0 <= k < rest.len() && rest[k] == PhysEvent::DynamicPO(
                        dynamics_in(rest)[i].0,
                        dynamics_in(rest)[i].1,
                    );
                assert(events[k] == rest[k]);
            } else {
                assert(events[events.len() - 1] == PhysEvent::DynamicPO(ds[i].0, ds[i].1));
            }
        }
    }
}

/// Dynamic registration lasts one tick: when none of the messages that a tick
/// drains registers a dynamic object under `id`, none of the messages that
/// the tick queues is addressed to `id`, whatever was registered before.
pub proof fn lemma_dynamic_registration_is_per_tick<R: ReactionPolicy>(
    reactions: R,
    pending: Seq<PhysEvent>,
    statics: Seq<(Identifier, PhysObj)>,
    td: int,
    id: Identifier,
)
    requires
        forall|k: int, o: PhysObj| 0 <= k < pending.len() ==> pending[k] != PhysEvent::DynamicPO(id, o),
    ensures
        forall|k: int|
            0 <= k < tick_messages(reactions, dynamics_in(pending), statics, td).len() ==> #[trigger] tick_messages(
                reactions,
                dynamics_in(pending),
                statics,
                td,
            )[k].0 != Some(id),
{
    let ds = dynamics_in(pending);
    lemma_tick_messages_addressed(reactions, ds, statics, td);
    lemma_dynamics_from_messages(pending);
    let all = tick_messages(reactions, ds, statics, td);
    assert forall|k: int| 0 <= k < all.len() implies #[trigger] all[k].0 != Some(id) by {
        let i = choose|i: int| 0 <= i < ds.len() && all[k].0 == Some(ds[i].0);
        let j = choose|j: int| 0 <= j < pending.len() && pending[j] == PhysEvent::DynamicPO(ds[i].0, ds[i].1);
        if ds[i].0 == id {
            assert(pending[j] == PhysEvent::DynamicPO(id, ds[i].1));
        }
    }
}


/// Each `StaticPO` message among `events` yields its collider.
proof fn lemma_statics_from_messages(events: Seq<PhysEvent>, i: int, sid: Identifier, o: PhysObj)
    requires
        0 <= i < events.len(),
        events[i] == PhysEvent::StaticPO(sid, o),
    ensures
        statics_in(events).contains((sid, o)),
    decreases events.len(),
{
    if i < events.len() - 1 {
        lemma_statics_from_messages(events.drop_last(), i, sid, o);
        let rest = statics_in(events.drop_last());
        let m = choose|m: int| 0 <= m < rest.len() && rest[m] == (sid, o);
        match events.last() {
            PhysEvent::StaticPO(a, b) => {
                assert(statics_in(events)[m] == (sid, o));
            },
            _ => {},
        }
    } else {
        assert(statics_in(events).last() == (sid, o));
    }
}

/// A dynamic object that overlaps one of `statics` is sent a collision notice
/// naming it.
proof fn lemma_pair_messages_notice<R: ReactionPolicy>(
    reactions: R,
    id: Identifier,
    d: PhysObj,
    statics: Seq<(Identifier, PhysObj)>,
    j: int,
)
    requires
        0 <= j < statics.len(),
        overlaps(d, statics[j].1),
    ensures
        pair_messages(reactions, id, d, statics).contains(
            RoutedEvent(Some(id), PhysEvent::Collision(statics[j].0, statics[j].1)),
        ),
    decreases statics.len(),
{
    let notice = RoutedEvent(Some(id), PhysEvent::Collision(statics[j].0, statics[j].1));
    let prev = pair_messages(reactions, id, d, statics.drop_last());
    let last = interaction_messages(reactions, id, d, statics.last().0, statics.last().1);
    assert(pair_messages(reactions, id, d, statics) == prev + last);
    if j < statics.len() - 1 {
        lemma_pair_messages_notice(reactions, id, d, statics.drop_last(), j);
        let m = choose|m: int| 0 <= m < prev.len() && prev[m] == notice;
        assert((prev + last)[m] == notice);
    } else {
        let each = addressed_to(id, reactions.each_reaction(id, d, statics.last().1));
        assert(last[each.len() as int] == notice);
        assert((prev + last)[(prev.len() + each.len()) as int] == notice);
    }
}

/// Static registration persists: a collider registered by a `StaticPO`
/// message in some tick stays among the colliders after that tick, whatever
/// later ticks add, and every dynamic object that overlaps it in any of those
/// ticks is sent a collision notice naming it.
pub proof fn lemma_static_registration_persists<R: ReactionPolicy>(
    reactions: R,
    before: Seq<(Identifier, PhysObj)>,
    pending: Seq<PhysEvent>,
    i: int,
    sid: Identifier,
    o: PhysObj,
    later: Seq<(Identifier, PhysObj)>,
    id: Identifier,
    d: PhysObj,
)
    requires
        0 <= i < pending.len(),
        pending[i] == PhysEvent::StaticPO(sid, o),
        overlaps(d, o),
    ensures
        (before + statics_in(pending) + later).contains((sid, o)),
        pair_messages(reactions, id, d, before + statics_in(pending) + later).contains(
            RoutedEvent(Some(id), PhysEvent::Collision(sid, o)),
        ),
{
    lemma_statics_from_messages(pending, i, sid, o);
    let ss = statics_in(pending);
    let all = before + ss + later;
    let m = choose|m: int| 0 <= m < ss.len() && ss[m] == (sid, o);
    assert(all[before.len() + m] == (sid, o));
    lemma_pair_messages_notice(reactions, id, d, all, before.len() + m);
}

/// One-tick latency: what a tick queues reaches the mailboxes only through
/// `post_update`. The computation of a tick leaves every mailbox as it was,
/// so drains during that tick do not see its messages; once the queue is
/// routed, each queued message is in every registered mailbox it addresses,
/// ready for the next tick's first drain.
pub proof fn lemma_one_tick_latency(
    mailboxes: Seq<(Identifier, Seq<PhysEvent>)>,
    queued: Seq<RoutedEvent<PhysEvent>>,
    k: int,
    j: int,
)
    requires
        0 <= k < queued.len(),
        0 <= j < mailboxes.len(),
        targets(queued[k].0, mailboxes[j].0),
    ensures
        route_all(mailboxes, queued)[j].0 == mailboxes[j].0,
        route_all(mailboxes, queued)[j].1.contains(queued[k].1),
        route_all(mailboxes, Seq::<RoutedEvent<PhysEvent>>::empty()) == mailboxes,
{
    lemma_routed_messages_arrive(mailboxes, queued, j);
}

} // verus!
