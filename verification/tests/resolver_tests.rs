use lazy_assets::asset::{Asset, SHandleLoad};
use lazy_assets::bullet::{BulletOptions, Team};
use lazy_assets::enemy::ai::behaviors::Behavior;
use lazy_assets::enemy::ai::transitions::Transition;
use lazy_assets::enemy::ai::{Ai, Phase};
use lazy_assets::enemy::drop_table::DropTable;
use lazy_assets::enemy::EnemyOptions;
use lazy_assets::error::{LoadError, LoadFailed};
use lazy_assets::health::Health;
use lazy_assets::image::{LeafImage, PixelFormat};
use lazy_assets::items::item::{EquipableType, Item, ItemType};
use lazy_assets::kind::{AssetKind, ChildRef};
use lazy_assets::resolver::{Action, Event, Resolver, Stage};
use lazy_assets::scalar::Scalar;
use lazy_assets::shandle::{Handle, SHandle};

const PNG: [u8; 74] = [
    137, 80, 78, 71, 13, 10, 26, 10, 0, 0, 0, 13, 73, 72, 68, 82, 0, 0, 0, 2, 0, 0, 0, 1, 8, 6, 0,
    0, 0, 244, 34, 127, 138, 0, 0, 0, 17, 73, 68, 65, 84, 120, 156, 99, 248, 207, 192, 240, 159,
    161, 225, 191, 3, 0, 16, 186, 3, 190, 71, 150, 32, 160, 0, 0, 0, 0, 73, 69, 78, 68, 174, 66,
    96, 130,
];

/// A file of the store double: the bytes on disk and, for a record, what
/// they parse to.
struct File {
    path: String,
    bytes: Vec<u8>,
    record: Option<Asset>,
}

/// A store that keeps everything in memory and counts what is asked of it.
struct Store {
    files: Vec<File>,
    reads: Vec<String>,
    decodes: Vec<String>,
    labelled: Vec<(String, Asset, u64)>,
    root: Option<Asset>,
    first_id: u64,
}

impl Store {
    fn new() -> Store {
        Store {
            files: Vec::new(),
            reads: Vec::new(),
            decodes: Vec::new(),
            labelled: Vec::new(),
            root: None,
            first_id: 100,
        }
    }

    fn image(&mut self, path: &str) {
        self.files.push(File { path: path.to_string(), bytes: PNG.to_vec(), record: None });
    }

    fn record(&mut self, path: &str, record: Asset) {
        let bytes = format!("record at {}", path).into_bytes();
        self.files.push(File { path: path.to_string(), bytes, record: Some(record) });
    }

    fn read(&mut self, path: &str) -> Option<Vec<u8>> {
        self.reads.push(path.to_string());
        self.files.iter().find(|f| f.path == path).map(|f| f.bytes.clone())
    }

    fn parse(&self, kind: AssetKind, bytes: &[u8]) -> Option<Asset> {
        let file = self.files.iter().find(|f| f.bytes == bytes)?;
        let record = file.record.clone()?;
        if record.kind() == kind {
            Some(record)
        } else {
            None
        }
    }

    fn register(&mut self, label: String, asset: Asset) -> u64 {
        if let Some(entry) = self.labelled.iter().find(|e| e.0 == label) {
            return entry.2;
        }
        let id = self.first_id + self.labelled.len() as u64;
        self.labelled.push((label, asset, id));
        id
    }

    fn at(&self, id: u64) -> &Asset {
        &self.labelled.iter().find(|e| e.2 == id).unwrap().1
    }

    fn reads_of(&self, path: &str) -> usize {
        self.reads.iter().filter(|p| p.as_str() == path).count()
    }

    /// Drives one resolution to its end and records every action.
    fn load(&mut self, kind: AssetKind, path: &str) -> Result<(), LoadFailed> {
        let (mut resolver, mut action) = Resolver::start(kind, path.to_string());
        loop {
            action = match action {
                Action::Read { path } => {
                    let event = match self.read(&path) {
                        Some(bytes) => {
                            if matches!(resolver.stage(), Stage::Reading(ChildRef { kind: AssetKind::Image, .. })) {
                                self.decodes.push(path.clone());
                            }
                            Event::Bytes(bytes)
                        }
                        None => Event::ReadFailed,
                    };
                    resolver.step(event)
                }
                Action::Parse { kind, bytes } => {
                    let event = match self.parse(kind, &bytes) {
                        Some(record) => Event::Parsed(record),
                        None => Event::ParseFailed,
                    };
                    resolver.step(event)
                }
                Action::Register { label, asset } => {
                    let id = self.register(label, asset);
                    resolver.step(Event::Registered(id))
                }
                Action::Finish { asset } => {
                    assert!(resolver.is_done());
                    assert_eq!(resolver.depth(), 0);
                    self.root = Some(asset);
                    return Ok(());
                }
                Action::Fail(failed) => {
                    assert!(resolver.has_failed());
                    assert_eq!(resolver.depth(), 0);
                    assert_eq!(resolver.step(Event::Registered(1)), Action::Idle);
                    assert!(resolver.has_failed());
                    return Err(failed);
                }
                Action::Idle => panic!("the machine went idle before the load ended"),
            };
        }
    }
}

fn path<T>(p: &str) -> SHandle<T> {
    SHandle::Serialized(p.to_string())
}

fn loaded<T>(id: u64) -> SHandle<T> {
    SHandle::Loaded(Handle::new(id))
}

fn one() -> Scalar {
    Scalar { bits: 0x3f80_0000 }
}

fn zero() -> Scalar {
    Scalar { bits: 0 }
}

fn bullet(sprite: &str) -> BulletOptions {
    BulletOptions {
        damage: 40,
        speed: Scalar { bits: 0x4040_0000 },
        lifetime: one(),
        sprite: path(sprite),
        diagonal_sprite: false,
        team: Team::Enemy,
    }
}

fn weapon(name: &str, sprite: &str, bullet: &str) -> Item {
    Item {
        name: name.to_string(),
        sprite: path(sprite),
        item_type: ItemType::Equipable(EquipableType::Weapon(path(bullet))),
    }
}

fn trinket(name: &str, sprite: &str) -> Item {
    Item { name: name.to_string(), sprite: path(sprite), item_type: ItemType::Regular }
}

fn shoot(bullet: &str) -> Behavior {
    Behavior::ShootAtPlayer { bullet: path(bullet), interval: one() }
}

fn phase(behaviors: Vec<Behavior>) -> Phase {
    Phase { behaviors, transitions: Vec::new() }
}

fn decoded_png() -> LeafImage {
    LeafImage {
        width: 2,
        height: 1,
        format: PixelFormat::Rgba8UnormSrgb,
        data: vec![255, 0, 0, 255, 0, 128, 255, 64],
    }
}

#[test]
fn start_asks_for_the_bytes_of_the_root() {
    let (resolver, action) = Resolver::start(AssetKind::Enemy, "boss.enemy".to_string());
    assert_eq!(action, Action::Read { path: "boss.enemy".to_string() });
    assert_eq!(
        resolver.stage(),
        Stage::Reading(ChildRef { kind: AssetKind::Enemy, path: "boss.enemy".to_string() })
    );
    assert_eq!(resolver.depth(), 0);
    assert!(!resolver.is_done());
    assert!(!resolver.has_failed());
}

#[test]
fn bytes_of_a_record_are_handed_back_for_parsing() {
    let (mut resolver, _) = Resolver::start(AssetKind::Item, "gem.item".to_string());
    let action = resolver.step(Event::Bytes(vec![1, 2, 3]));
    assert_eq!(action, Action::Parse { kind: AssetKind::Item, bytes: vec![1, 2, 3] });
    assert_eq!(
        resolver.stage(),
        Stage::Parsing(ChildRef { kind: AssetKind::Item, path: "gem.item".to_string() })
    );
}

#[test]
fn bullet_record_is_committed_with_its_sprite_resolved() {
    let mut store = Store::new();
    store.image("bullet.png");
    store.record("pistol.bullet", Asset::Bullet(bullet("bullet.png")));
    assert_eq!(store.load(AssetKind::Bullet, "pistol.bullet"), Ok(()));
    assert_eq!(store.labelled, vec![("bullet.png".to_string(), Asset::Image(decoded_png()), 100)]);
    let mut expected = bullet("bullet.png");
    expected.sprite = loaded(100);
    assert_eq!(store.root, Some(Asset::Bullet(expected)));
    assert_eq!(store.reads, vec!["pistol.bullet".to_string(), "bullet.png".to_string()]);
}

#[test]
fn weapon_item_resolves_the_sprite_of_its_bullet_first() {
    let mut store = Store::new();
    store.image("bullet.png");
    store.image("pistol.png");
    store.record("pistol.weapon", Asset::Bullet(bullet("bullet.png")));
    store.record("pistol.item", Asset::Item(weapon("Pistol", "pistol.png", "pistol.weapon")));
    assert_eq!(store.load(AssetKind::Item, "pistol.item"), Ok(()));

    let item = match store.root.clone().unwrap() {
        Asset::Item(item) => item,
        other => panic!("the root is {:?}", other),
    };
    assert_eq!(item.name, "Pistol");
    assert!(item.sprite.is_loaded());
    let weapon_handle = match &item.item_type {
        ItemType::Equipable(EquipableType::Weapon(bullet)) => bullet.value().unwrap(),
        other => panic!("the item is {:?}", other),
    };
    let committed = match store.at(weapon_handle.id()) {
        Asset::Bullet(b) => b.clone(),
        other => panic!("the weapon is {:?}", other),
    };
    assert!(committed.sprite.is_loaded());
    let sprite = committed.sprite.value().unwrap();
    assert_eq!(store.at(sprite.id()), &Asset::Image(decoded_png()));

    let order: Vec<&str> = store.labelled.iter().map(|e| e.0.as_str()).collect();
    assert_eq!(order, vec!["pistol.png", "bullet.png", "pistol.weapon"]);
}

#[test]
fn missing_item_fails_the_drop_table_and_commits_no_table() {
    let mut store = Store::new();
    store.image("sword.png");
    store.record("sword.item", Asset::Item(trinket("Sword", "sword.png")));
    let table = DropTable { drops: vec![(path("sword.item"), one()), (path("missing.item"), zero())] };
    store.record("goblin.drops", Asset::DropTable(table));
    assert_eq!(
        store.load(AssetKind::DropTable, "goblin.drops"),
        Err(LoadFailed { path: "missing.item".to_string(), cause: LoadError::IoError })
    );
    assert_eq!(store.root, None);
    assert!(store.labelled.iter().all(|e| e.1.kind() != AssetKind::DropTable));
    assert!(store.labelled.iter().all(|e| e.0 != "goblin.drops"));
}

#[test]
fn sword_alone_would_have_resolved() {
    let mut store = Store::new();
    store.image("sword.png");
    store.record("sword.item", Asset::Item(trinket("Sword", "sword.png")));
    let table = DropTable { drops: vec![(path("sword.item"), one())] };
    store.record("goblin.drops", Asset::DropTable(table));
    assert_eq!(store.load(AssetKind::DropTable, "goblin.drops"), Ok(()));
    assert_eq!(
        store.root,
        Some(Asset::DropTable(DropTable { drops: vec![(loaded(101), one())] }))
    );
}

fn grunt() -> EnemyOptions {
    EnemyOptions {
        health: Health::new(30, Team::Enemy),
        sprite: path("grunt.png"),
        ai: Ai {
            phases: vec![
                ("Start".to_string(), phase(vec![Behavior::Idle, shoot("slow.bullet")])),
                ("2".to_string(), phase(vec![shoot("fast.bullet"), shoot("slow.bullet")])),
            ],
            current: "Start".to_string(),
        },
        drop_table: DropTable { drops: vec![(path("gem.item"), one())] },
    }
}

fn grunt_store() -> Store {
    let mut store = Store::new();
    store.image("grunt.png");
    store.image("bullet.png");
    store.image("gem.png");
    store.record("slow.bullet", Asset::Bullet(bullet("bullet.png")));
    store.record("fast.bullet", Asset::Bullet(bullet("bullet.png")));
    store.record("gem.item", Asset::Item(trinket("Gem", "gem.png")));
    store.record("grunt.enemy", Asset::Enemy(grunt()));
    store
}

#[test]
fn enemy_visits_the_first_phase_before_the_second() {
    let mut store = grunt_store();
    assert_eq!(store.load(AssetKind::Enemy, "grunt.enemy"), Ok(()));
    assert_eq!(
        store.reads,
        vec!["grunt.enemy", "grunt.png", "slow.bullet", "bullet.png", "fast.bullet", "gem.item", "gem.png"]
    );
    let slow = store.reads.iter().position(|p| p == "slow.bullet").unwrap();
    let fast = store.reads.iter().position(|p| p == "fast.bullet").unwrap();
    assert!(slow < fast);
}

#[test]
fn enemy_behaviour_can_fetch_its_bullet_after_the_load() {
    let mut store = grunt_store();
    assert_eq!(store.load(AssetKind::Enemy, "grunt.enemy"), Ok(()));
    let enemy = match store.root.clone().unwrap() {
        Asset::Enemy(enemy) => enemy,
        other => panic!("the root is {:?}", other),
    };
    let behavior = &enemy.ai.phases[0].1.behaviors[1];
    let handle = behavior.bullet().unwrap().unwrap();
    let options = match store.at(handle.id()) {
        Asset::Bullet(b) => b.clone(),
        other => panic!("the bullet is {:?}", other),
    };
    assert_eq!(options.damage, 40);
    assert_eq!(store.at(options.sprite.unwrap().id()), &Asset::Image(decoded_png()));
    assert_eq!(enemy.ai.phases[0].1.behaviors[0].bullet(), None);
}

#[test]
fn same_path_gets_the_same_handle_and_is_decoded_once() {
    let mut store = grunt_store();
    assert_eq!(store.load(AssetKind::Enemy, "grunt.enemy"), Ok(()));
    let enemy = match store.root.clone().unwrap() {
        Asset::Enemy(enemy) => enemy,
        other => panic!("the root is {:?}", other),
    };
    let first = enemy.ai.phases[0].1.behaviors[1].bullet().unwrap().unwrap();
    let again = enemy.ai.phases[1].1.behaviors[1].bullet().unwrap().unwrap();
    let other = enemy.ai.phases[1].1.behaviors[0].bullet().unwrap().unwrap();
    assert!(first.same_slot(&again));
    assert_eq!(first, again);
    assert!(!first.same_slot(&other));
    assert_eq!(store.reads_of("slow.bullet"), 1);
    assert_eq!(store.reads_of("bullet.png"), 1);
    assert_eq!(store.decodes, vec!["grunt.png", "bullet.png", "gem.png"]);

    let slow = match store.at(first.id()) {
        Asset::Bullet(b) => b.clone(),
        other => panic!("the bullet is {:?}", other),
    };
    let fast = match store.at(other.id()) {
        Asset::Bullet(b) => b.clone(),
        other => panic!("the bullet is {:?}", other),
    };
    assert_eq!(slow.sprite, fast.sprite);
}

#[test]
fn every_commit_is_fully_resolved_even_when_the_load_fails_later() {
    let mut store = grunt_store();
    store.files.retain(|f| f.path != "gem.png");
    assert_eq!(
        store.load(AssetKind::Enemy, "grunt.enemy"),
        Err(LoadFailed { path: "gem.png".to_string(), cause: LoadError::IoError })
    );
    assert_eq!(store.root, None);
    for (_, asset, _) in &store.labelled {
        assert_eq!(asset.next_child(), None);
        assert!(asset.kind() != AssetKind::Enemy && asset.kind() != AssetKind::Item);
    }
}

#[test]
fn failure_at_any_depth_names_the_path_and_the_cause() {
    let mut store = grunt_store();
    store.files.retain(|f| f.path != "bullet.png");
    assert_eq!(
        store.load(AssetKind::Enemy, "grunt.enemy"),
        Err(LoadFailed { path: "bullet.png".to_string(), cause: LoadError::IoError })
    );

    let mut store = grunt_store();
    store.files.retain(|f| f.path != "grunt.enemy");
    assert_eq!(
        store.load(AssetKind::Enemy, "grunt.enemy"),
        Err(LoadFailed { path: "grunt.enemy".to_string(), cause: LoadError::IoError })
    );
    assert!(store.labelled.is_empty());

    let mut store = grunt_store();
    for f in store.files.iter_mut() {
        if f.path == "fast.bullet" {
            f.record = None;
        }
    }
    assert_eq!(
        store.load(AssetKind::Enemy, "grunt.enemy"),
        Err(LoadFailed { path: "fast.bullet".to_string(), cause: LoadError::ParseError })
    );

    let mut store = grunt_store();
    for f in store.files.iter_mut() {
        if f.path == "gem.png" {
            f.bytes = vec![0, 1, 2, 3];
        }
    }
    assert_eq!(
        store.load(AssetKind::Enemy, "grunt.enemy"),
        Err(LoadFailed { path: "gem.png".to_string(), cause: LoadError::ParseError })
    );
}

#[test]
fn record_of_another_kind_is_a_parse_error() {
    let (mut resolver, _) = Resolver::start(AssetKind::Item, "gem.item".to_string());
    resolver.step(Event::Bytes(vec![1]));
    let action = resolver.step(Event::Parsed(Asset::Bullet(bullet("bullet.png"))));
    assert_eq!(
        action,
        Action::Fail(LoadFailed { path: "gem.item".to_string(), cause: LoadError::ParseError })
    );
    assert!(resolver.has_failed());
}

#[test]
fn record_that_arrives_with_a_handle_is_a_parse_error() {
    let (mut resolver, _) = Resolver::start(AssetKind::Bullet, "pistol.bullet".to_string());
    resolver.step(Event::Bytes(vec![1]));
    let mut record = bullet("bullet.png");
    record.sprite = loaded(7);
    let action = resolver.step(Event::Parsed(Asset::Bullet(record)));
    assert_eq!(
        action,
        Action::Fail(LoadFailed { path: "pistol.bullet".to_string(), cause: LoadError::ParseError })
    );
}

#[test]
fn event_that_answers_nothing_is_a_conflict() {
    let (mut resolver, _) = Resolver::start(AssetKind::Item, "gem.item".to_string());
    let action = resolver.step(Event::Registered(3));
    assert_eq!(
        action,
        Action::Fail(LoadFailed { path: "gem.item".to_string(), cause: LoadError::ResolutionConflict })
    );

    let (mut resolver, _) = Resolver::start(AssetKind::Item, "gem.item".to_string());
    resolver.step(Event::Bytes(vec![1]));
    let action = resolver.step(Event::Bytes(vec![1]));
    assert_eq!(
        action,
        Action::Fail(LoadFailed { path: "gem.item".to_string(), cause: LoadError::ResolutionConflict })
    );

    let (mut resolver, _) = Resolver::start(AssetKind::Item, "gem.item".to_string());
    let action = resolver.step(Event::Decoded(Some(decoded_png())));
    assert_eq!(
        action,
        Action::Fail(LoadFailed { path: "gem.item".to_string(), cause: LoadError::ResolutionConflict })
    );
}

#[test]
fn decoded_image_is_committed_as_it_is() {
    let (mut resolver, _) = Resolver::start(AssetKind::Bullet, "pistol.bullet".to_string());
    resolver.step(Event::Bytes(vec![1]));
    let action = resolver.step(Event::Parsed(Asset::Bullet(bullet("bullet.png"))));
    assert_eq!(action, Action::Read { path: "bullet.png".to_string() });
    let action = resolver.step(Event::Decoded(Some(decoded_png())));
    assert_eq!(
        action,
        Action::Register { label: "bullet.png".to_string(), asset: Asset::Image(decoded_png()) }
    );
    assert_eq!(
        resolver.stage(),
        Stage::Registering(ChildRef { kind: AssetKind::Image, path: "bullet.png".to_string() })
    );
    assert_eq!(resolver.registered(&"bullet.png".to_string()), None);
    let action = resolver.step(Event::Registered(9));
    let mut expected = bullet("bullet.png");
    expected.sprite = loaded(9);
    assert_eq!(action, Action::Finish { asset: Asset::Bullet(expected) });
    assert_eq!(resolver.registered(&"bullet.png".to_string()), Some((AssetKind::Image, 9)));
    assert!(resolver.is_done());
    assert_eq!(resolver.step(Event::ReadFailed), Action::Idle);
    assert!(resolver.is_done());
}

#[test]
fn image_that_does_not_decode_is_a_parse_error() {
    let (mut resolver, _) = Resolver::start(AssetKind::Bullet, "pistol.bullet".to_string());
    resolver.step(Event::Bytes(vec![1]));
    resolver.step(Event::Parsed(Asset::Bullet(bullet("bullet.png"))));
    let action = resolver.step(Event::Decoded(None));
    assert_eq!(
        action,
        Action::Fail(LoadFailed { path: "bullet.png".to_string(), cause: LoadError::ParseError })
    );
}

#[test]
fn image_as_root_is_decoded_and_finished() {
    let (mut resolver, action) = Resolver::start(AssetKind::Image, "bullet.png".to_string());
    assert_eq!(action, Action::Read { path: "bullet.png".to_string() });
    let action = resolver.step(Event::Bytes(PNG.to_vec()));
    assert_eq!(action, Action::Finish { asset: Asset::Image(decoded_png()) });
}

#[test]
fn path_registered_with_another_kind_is_a_parse_error() {
    let mut store = Store::new();
    store.image("shared.png");
    let odd = Item {
        name: "Odd".to_string(),
        sprite: path("shared.png"),
        item_type: ItemType::Equipable(EquipableType::Weapon(path("shared.png"))),
    };
    store.record("odd.item", Asset::Item(odd));
    assert_eq!(
        store.load(AssetKind::Item, "odd.item"),
        Err(LoadFailed { path: "shared.png".to_string(), cause: LoadError::ParseError })
    );
}

#[test]
fn record_that_refers_to_its_ancestor_is_a_parse_error() {
    let mut store = Store::new();
    store.image("loop.png");
    let table = DropTable { drops: vec![(path("loop.item"), one())] };
    store.record("loop.drops", Asset::DropTable(table));
    store.record("loop.item", Asset::Item(weapon("Loop", "loop.png", "loop.item")));
    assert_eq!(
        store.load(AssetKind::DropTable, "loop.drops"),
        Err(LoadFailed { path: "loop.item".to_string(), cause: LoadError::ParseError })
    );
    assert_eq!(store.reads_of("loop.item"), 1);
}

#[test]
fn ai_record_resolves_its_bullets_in_phase_order() {
    let mut store = Store::new();
    store.image("bullet.png");
    store.record("a.bullet", Asset::Bullet(bullet("bullet.png")));
    store.record("b.bullet", Asset::Bullet(bullet("bullet.png")));
    let ai = Ai {
        phases: vec![
            ("Start".to_string(), phase(vec![shoot("b.bullet")])),
            ("2".to_string(), phase(vec![shoot("a.bullet")])),
        ],
        current: "Start".to_string(),
    };
    store.record("test.ai", Asset::Ai(ai));
    assert_eq!(store.load(AssetKind::Ai, "test.ai"), Ok(()));
    assert_eq!(store.reads, vec!["test.ai", "b.bullet", "bullet.png", "a.bullet"]);
    let expected = Ai {
        phases: vec![
            (
                "Start".to_string(),
                phase(vec![Behavior::ShootAtPlayer { bullet: loaded(101), interval: one() }]),
            ),
            (
                "2".to_string(),
                phase(vec![Behavior::ShootAtPlayer { bullet: loaded(102), interval: one() }]),
            ),
        ],
        current: "Start".to_string(),
    };
    assert_eq!(store.root, Some(Asset::Ai(expected)));
    let _ = Transition::HealthLessThan(one());
}
