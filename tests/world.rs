use burge_proj::event::{Identifier, Sender};
use burge_proj::element::ElementBase;
use burge_proj::scene::Scene;

struct Services {
    bus: Sender<u32>,
    log: Vec<String>,
}

struct Node {
    name: u32,
    inbox: usize,
    seen: Vec<u32>,
    camera: bool,
    uuid: Identifier,
}

impl Node {
    fn new(name: u32, camera: bool) -> Self {
        Node { name, inbox: 0, seen: Vec::new(), camera, uuid: 0 }
    }
}

impl ElementBase<Services> for Node {
    fn init(&mut self, uuid: Identifier, components: &mut Services) {
        self.uuid = uuid;
        self.inbox = components.bus.new_receiver();
        components.log.push(format!("init {}", self.name));
    }
    fn local_update(&mut self, _td: i32, components: &mut Services) {
        self.seen.extend(components.bus.poll(self.inbox));
        components.log.push(format!("local {}", self.name));
    }
    fn post_update(&mut self, components: &mut Services) {
        components.bus.send(self.name);
        components.log.push(format!("post {}", self.name));
    }
    fn is_camera(&self) -> bool {
        self.camera
    }
}

fn world() -> Scene<Node, Services> {
    let mut scene = Scene::new(Services { bus: Sender::new(), log: Vec::new() });
    scene.add_element(Node::new(1, false));
    scene.add_element(Node::new(2, true));
    scene.add_element(Node::new(3, false));
    scene
}

#[test]
fn every_local_update_precedes_every_post_update() {
    let mut scene = world();
    scene.init_elements();
    scene.update_elements(1000);
    let log = &scene.component_manager().log;
    assert_eq!(log.len(), 9);
    let first_post = log.iter().position(|l| l.starts_with("post")).unwrap();
    let last_local = log.iter().rposition(|l| l.starts_with("local")).unwrap();
    assert!(last_local < first_post);
}

#[test]
fn messages_sent_in_post_update_arrive_next_tick() {
    let mut scene = world();
    scene.init_elements();
    scene.update_elements(1000);
    for i in 0..scene.len() {
        assert!(scene.element(i).1.seen.is_empty());
    }
    scene.update_elements(1000);
    for i in 0..scene.len() {
        let mut seen = scene.element(i).1.seen.clone();
        seen.sort();
        assert_eq!(seen, vec![1, 2, 3]);
    }
}

#[test]
fn init_gives_identifiers_and_finds_the_camera() {
    let mut scene = world();
    assert_eq!(scene.camera_uuid(), None);
    scene.init_elements();
    assert_eq!(scene.len(), 3);
    let mut ids = Vec::new();
    for i in 0..scene.len() {
        let (id, node) = scene.element(i);
        assert_eq!(node.uuid, id);
        ids.push(id);
        if node.camera {
            assert_eq!(scene.camera_uuid(), Some(id));
        }
    }
    ids.sort();
    ids.dedup();
    assert_eq!(ids.len(), 3);
}

#[test]
fn world_without_camera_has_none() {
    let mut scene = Scene::new(Services { bus: Sender::new(), log: Vec::new() });
    scene.add_element(Node::new(1, false));
    scene.init_elements();
    assert_eq!(scene.camera_uuid(), None);
    scene.component_manager_mut().log.clear();
    assert!(scene.component_manager().log.is_empty());
}

#[test]
fn added_entities_get_distinct_fresh_identifiers() {
    let mut scene = Scene::new(Services { bus: Sender::new(), log: Vec::new() });
    let a = scene.add_element(Node::new(1, false));
    let b = scene.add_element(Node::new(2, false));
    assert_ne!(a, b);
    assert_eq!(scene.element(0).0, a);
    assert_eq!(scene.element(1).1.name, 2);
}

#[test]
fn init_passes_each_entity_its_own_identifier_in_order() {
    let mut scene = world();
    scene.init_elements();
    assert_eq!(scene.component_manager().log, vec!["init 1", "init 2", "init 3"]);
    let camera = scene.element(1).0;
    assert_eq!(scene.camera_uuid(), Some(camera));
}

#[test]
fn tick_runs_local_phase_in_order_then_post_phase_in_order() {
    let mut scene = world();
    scene.init_elements();
    scene.component_manager_mut().log.clear();
    scene.update_elements(1000);
    assert_eq!(
        scene.component_manager().log,
        vec!["local 1", "local 2", "local 3", "post 1", "post 2", "post 3"]
    );
}
