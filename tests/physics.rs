use burge_proj::event::Identifier;
use burge_proj::physics::{box_collider, NoReaction, POSettings, PhysEvent, PhysObj, PhysObjManager, ReactionPolicy};

fn solid_box(pos: [i32; 2], shape: [i32; 2]) -> PhysObj {
    let mut o = box_collider(pos, shape);
    o.settings.gravity_strength = 0;
    o
}

fn tick(engine: &mut PhysObjManager) {
    engine.local_update(1000, &NoReaction);
    engine.post_update();
}

#[test]
fn half_overlapping_boxes_intersect_and_push_left() {
    let a = box_collider([0, 0], [1000, 1000]);
    let b = box_collider([500, 0], [1000, 1000]);
    assert!(a.intersects(&b));
    assert_eq!(a.exclusive_delta(&b), [-500, 0]);
}

#[test]
fn intersection_is_symmetric() {
    let boxes = [
        box_collider([0, 0], [1000, 1000]),
        box_collider([500, 0], [1000, 1000]),
        box_collider([1000, 1000], [10, 10]),
        box_collider([3000, -200], [500, 500]),
        box_collider([-100, -100], [5000, 5000]),
    ];
    for a in boxes.iter() {
        for b in boxes.iter() {
            assert_eq!(a.intersects(b), b.intersects(a));
        }
    }
}

#[test]
fn touching_edges_count_as_intersecting() {
    let a = box_collider([0, 0], [1000, 1000]);
    let right = box_collider([1000, 0], [1000, 1000]);
    let corner = box_collider([1000, 1000], [1000, 1000]);
    assert!(a.intersects(&right));
    assert!(a.intersects(&corner));
}

#[test]
fn separated_boxes_do_not_intersect() {
    let a = box_collider([0, 0], [1000, 1000]);
    assert!(!a.intersects(&box_collider([1001, 0], [1000, 1000])));
    assert!(!a.intersects(&box_collider([0, -2000], [1000, 999])));
}

#[test]
fn exclusive_delta_picks_vertical_when_horizontal_is_not_greater() {
    // Resting into a floor from above: the upward move is the smaller one.
    let player = box_collider([0, 900], [1000, 1000]);
    let floor = box_collider([-2000, -2000], [5000, 3000]);
    // left = -2000 - 1000 = -3000, right = 3000 - 0 = 3000 -> horizontal = -3000
    // down = -2000 - 1900 = -3900, up = 1000 - 900 = 100 -> vertical = 100
    assert_eq!(player.exclusive_delta(&floor), [0, 100]);
}

#[test]
fn exclusive_delta_uses_signed_comparison() {
    let s = box_collider([0, 0], [1000, 1000]);
    let o = box_collider([-800, -100], [1000, 1000]);
    // left = -800 - 1000 = -1800, right = 200 - 0 = 200 -> horizontal = 200
    // down = -100 - 1000 = -1100, up = 900 - 0 = 900 -> vertical = 900
    assert_eq!(s.exclusive_delta(&o), [0, 900]);
}

#[test]
fn default_settings() {
    let s = POSettings::default();
    assert!(s.solid);
    assert_eq!(s.gravity_strength, 1000);
    assert_eq!(s.terminal_velocity, -10000);
    let o = box_collider([1, 2], [3, 4]);
    assert_eq!(o.pos, [1, 2]);
    assert_eq!(o.shape, [3, 4]);
    assert_eq!(o.delta, [0, 0]);
}

#[test]
fn gravity_request_after_one_tick() {
    let mut engine = PhysObjManager::new();
    let d = engine.new_receiver_uuid(1);
    let obj = box_collider([0, 0], [1000, 1000]);
    engine.submit(PhysEvent::DynamicPO(d, obj));
    tick(&mut engine);
    assert_eq!(engine.poll(d), vec![PhysEvent::VelocityDeltaRequest([0, -50])]);
}

#[test]
fn gravity_stops_at_terminal_velocity() {
    let mut engine = PhysObjManager::new();
    let d = engine.new_receiver_uuid(1);
    let mut obj = box_collider([0, 0], [1000, 1000]);
    let mut ticks = 0;
    loop {
        engine.submit(PhysEvent::DynamicPO(d, obj));
        tick(&mut engine);
        let got = engine.poll(d);
        if obj.delta[1] <= -10000 {
            assert!(got.is_empty());
            break;
        }
        assert_eq!(got, vec![PhysEvent::VelocityDeltaRequest([0, -50])]);
        obj.delta[1] -= 50;
        ticks += 1;
    }
    assert_eq!(ticks, 200);
    for _ in 0..5 {
        engine.submit(PhysEvent::DynamicPO(d, obj));
        tick(&mut engine);
        assert!(engine.poll(d).is_empty());
    }
}

#[test]
fn gravity_scales_with_strength_and_tick_and_rounds_toward_zero() {
    let mut engine = PhysObjManager::new();
    let d = engine.new_receiver_uuid(1);
    let mut obj = box_collider([0, 0], [1000, 1000]);
    obj.settings.gravity_strength = 2000;
    engine.submit(PhysEvent::DynamicPO(d, obj));
    engine.local_update(16667, &NoReaction);
    engine.post_update();
    // -50 * 2 * 16.667 = -1666.7
    assert_eq!(engine.poll(d), vec![PhysEvent::VelocityDeltaRequest([0, -1666])]);
    obj.settings.gravity_strength = -1000;
    engine.submit(PhysEvent::DynamicPO(d, obj));
    engine.local_update(1000, &NoReaction);
    engine.post_update();
    assert_eq!(engine.poll(d), vec![PhysEvent::VelocityDeltaRequest([0, 50])]);
    obj.settings.gravity_strength = 1000;
    engine.submit(PhysEvent::DynamicPO(d, obj));
    engine.local_update(1, &NoReaction);
    engine.post_update();
    assert_eq!(engine.poll(d), vec![PhysEvent::VelocityDeltaRequest([0, 0])]);
}

#[test]
fn collision_with_solid_static_notifies_and_pushes_out() {
    let mut engine = PhysObjManager::new();
    let d = engine.new_receiver_uuid(1);
    let wall = solid_box([500, 0], [1000, 1000]);
    engine.submit(PhysEvent::StaticPO(77, wall));
    engine.submit(PhysEvent::DynamicPO(d, solid_box([0, 0], [1000, 1000])));
    tick(&mut engine);
    assert_eq!(
        engine.poll(d),
        vec![PhysEvent::Collision(77, wall), PhysEvent::PosDeltaRequest([-500, 0])]
    );
}

#[test]
fn collision_with_non_solid_static_only_notifies() {
    let mut engine = PhysObjManager::new();
    let d = engine.new_receiver_uuid(1);
    let mut zone = solid_box([500, 0], [1000, 1000]);
    zone.settings.solid = false;
    engine.submit(PhysEvent::StaticPO(5, zone));
    engine.submit(PhysEvent::DynamicPO(d, solid_box([0, 0], [1000, 1000])));
    tick(&mut engine);
    assert_eq!(engine.poll(d), vec![PhysEvent::Collision(5, zone)]);
}

#[test]
fn no_messages_without_overlap() {
    let mut engine = PhysObjManager::new();
    let d = engine.new_receiver_uuid(1);
    engine.submit(PhysEvent::StaticPO(5, solid_box([5000, 0], [1000, 1000])));
    engine.submit(PhysEvent::DynamicPO(d, solid_box([0, 0], [1000, 1000])));
    tick(&mut engine);
    assert!(engine.poll(d).is_empty());
}

#[test]
fn dynamic_registration_lasts_one_tick() {
    let mut engine = PhysObjManager::new();
    let d = engine.new_receiver_uuid(1);
    let wall = solid_box([500, 0], [1000, 1000]);
    engine.submit(PhysEvent::StaticPO(9, wall));
    engine.submit(PhysEvent::DynamicPO(d, solid_box([0, 0], [1000, 1000])));
    tick(&mut engine);
    assert_eq!(engine.poll(d).len(), 2);
    tick(&mut engine);
    assert!(engine.poll(d).is_empty());
}

#[test]
fn static_registration_persists() {
    let mut engine = PhysObjManager::new();
    let d = engine.new_receiver_uuid(1);
    let wall = solid_box([500, 0], [1000, 1000]);
    engine.submit(PhysEvent::StaticPO(9, wall));
    tick(&mut engine);
    assert!(engine.poll(d).is_empty());
    for _ in 0..3 {
        engine.submit(PhysEvent::DynamicPO(d, solid_box([0, 0], [1000, 1000])));
        tick(&mut engine);
        assert_eq!(
            engine.poll(d),
            vec![PhysEvent::Collision(9, wall), PhysEvent::PosDeltaRequest([-500, 0])]
        );
    }
}

#[test]
fn remove_static_is_ignored() {
    let mut engine = PhysObjManager::new();
    let d = engine.new_receiver_uuid(1);
    let wall = solid_box([500, 0], [1000, 1000]);
    engine.submit(PhysEvent::StaticPO(9, wall));
    engine.submit(PhysEvent::RemoveStaticPO(9));
    engine.submit(PhysEvent::DynamicPO(d, solid_box([0, 0], [1000, 1000])));
    tick(&mut engine);
    assert_eq!(engine.poll(d).len(), 2);
}

#[test]
fn messages_arrive_one_tick_later() {
    let mut engine = PhysObjManager::new();
    let d = engine.new_receiver_uuid(1);
    engine.submit(PhysEvent::DynamicPO(d, box_collider([0, 0], [1000, 1000])));
    engine.local_update(1000, &NoReaction);
    // a drain during this tick's local phase sees nothing of this tick
    assert!(engine.poll(d).is_empty());
    engine.post_update();
    assert_eq!(engine.poll(d), vec![PhysEvent::VelocityDeltaRequest([0, -50])]);
}

#[test]
fn each_dynamic_object_hears_only_about_itself() {
    let mut engine = PhysObjManager::new();
    let a = engine.new_receiver_uuid(1);
    let b = engine.new_receiver_uuid(2);
    let wall = solid_box([500, 0], [1000, 1000]);
    engine.submit(PhysEvent::StaticPO(9, wall));
    engine.submit(PhysEvent::DynamicPO(a, solid_box([0, 0], [1000, 1000])));
    engine.submit(PhysEvent::DynamicPO(b, solid_box([9000, 0], [1000, 1000])));
    tick(&mut engine);
    assert_eq!(engine.poll(a).len(), 2);
    assert!(engine.poll(b).is_empty());
}

#[test]
fn generated_receiver_identifier_gets_messages() {
    let mut engine = PhysObjManager::new();
    let d = engine.new_receiver();
    engine.submit(PhysEvent::DynamicPO(d, box_collider([0, 0], [1000, 1000])));
    tick(&mut engine);
    assert_eq!(engine.poll(d), vec![PhysEvent::VelocityDeltaRequest([0, -50])]);
}

/// Reacts to every static object, for one entity only.
struct Bounce {
    who: Identifier,
}

impl ReactionPolicy for Bounce {
    fn on_each(&self, id: Identifier, _this: &PhysObj, _other: &PhysObj) -> Vec<PhysEvent> {
        if id == self.who {
            vec![PhysEvent::VelocityDeltaRequest([0, 1])]
        } else {
            Vec::new()
        }
    }
    fn on_collision(&self, id: Identifier, _this: &PhysObj, other: &PhysObj) -> Vec<PhysEvent> {
        if id == self.who {
            vec![PhysEvent::PosDeltaRequest([0, other.shape[1] as i64])]
        } else {
            Vec::new()
        }
    }
}

#[test]
fn reaction_hooks_can_differ_per_entity() {
    let mut engine = PhysObjManager::new();
    let a = engine.new_receiver_uuid(1);
    let b = engine.new_receiver_uuid(2);
    let wall = solid_box([500, 0], [1000, 1000]);
    engine.submit(PhysEvent::StaticPO(9, wall));
    engine.submit(PhysEvent::DynamicPO(a, solid_box([0, 0], [1000, 1000])));
    engine.submit(PhysEvent::DynamicPO(b, solid_box([0, 0], [1000, 1000])));
    engine.local_update(1000, &Bounce { who: a });
    engine.post_update();
    assert_eq!(
        engine.poll(a),
        vec![
            PhysEvent::VelocityDeltaRequest([0, 1]),
            PhysEvent::Collision(9, wall),
            PhysEvent::PosDeltaRequest([0, 1000]),
            PhysEvent::PosDeltaRequest([-500, 0]),
        ]
    );
    assert_eq!(
        engine.poll(b),
        vec![PhysEvent::Collision(9, wall), PhysEvent::PosDeltaRequest([-500, 0])]
    );
}

#[test]
fn generated_receiver_identifiers_are_fresh() {
    let mut engine = PhysObjManager::new();
    let a = engine.new_receiver();
    let b = engine.new_receiver();
    assert_ne!(a, b);
}
