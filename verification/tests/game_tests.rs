use lazy_assets::asset::{Asset, SHandleLoad};
use lazy_assets::bullet::{detect_collisions, BulletOptions, Team};
use lazy_assets::enemy::ai::behaviors::Behavior;
use lazy_assets::enemy::ai::transitions::{do_transitions, Transition};
use lazy_assets::enemy::ai::{test_ai, Ai, Phase};
use lazy_assets::enemy::drop_table::DropTable;
use lazy_assets::enemy::EnemyOptions;
use lazy_assets::error::LoadError;
use lazy_assets::health::{despawn_dead, Health};
use lazy_assets::image::{LeafImage, PixelFormat};
use lazy_assets::items::inventory::{Inventory, PICKUP_SLOT, SLOTS};
use lazy_assets::items::item::{EquipableType, Item, ItemType};
use lazy_assets::kind::{AssetKind, ChildRef};
use lazy_assets::loader::{
    kind_of_extension, AiLoader, BulletOptionsLoader, EnemyOptionsLoader, ItemLoader,
};
use lazy_assets::resolver::{Action, Stage};
use lazy_assets::scalar::Scalar;
use lazy_assets::shandle::{Handle, SHandle};

fn path<T>(p: &str) -> SHandle<T> {
    SHandle::Serialized(p.to_string())
}

fn loaded<T>(id: u64) -> SHandle<T> {
    SHandle::Loaded(Handle::new(id))
}

fn child(kind: AssetKind, p: &str) -> Option<ChildRef> {
    Some(ChildRef { kind, path: p.to_string() })
}

fn half() -> Scalar {
    Scalar::from_bits(0.5f32.to_bits())
}

#[test]
fn scalar_keeps_its_bits() {
    assert_eq!(Scalar::from_bits(0x3f00_0000).to_bits(), 0x3f00_0000);
    assert_eq!(f32::from_bits(half().to_bits()), 0.5);
    assert_eq!(Scalar::from_bits(7), Scalar { bits: 7 });
}

#[test]
fn default_team_is_enemy() {
    assert_eq!(Team::default(), Team::Enemy);
}

#[test]
fn default_bullet_is_the_enemy_bullet() {
    let b = BulletOptions::default();
    assert_eq!(b.damage, 40);
    assert_eq!(f32::from_bits(b.speed.to_bits()), 3.0);
    assert_eq!(f32::from_bits(b.lifetime.to_bits()), 1.0);
    assert_eq!(b.sprite, path("bullet.png"));
    assert_eq!(b.team, Team::Enemy);
    assert!(!b.diagonal_sprite);
}

#[test]
fn bullet_waits_for_its_sprite_only() {
    let mut b = BulletOptions::default();
    assert!(b.is_fresh());
    assert_eq!(b.next_child(), child(AssetKind::Image, "bullet.png"));
    b.resolve_next(12);
    assert_eq!(b.sprite, loaded(12));
    assert_eq!(b.next_child(), None);
    assert!(!b.is_fresh());
    let before = b.clone();
    b.resolve_next(13);
    assert_eq!(b, before);
}

#[test]
fn health_starts_full_and_alive() {
    let h = Health::new(100, Team::Player);
    assert_eq!(h, Health { max: 100, current: 100, team: Team::Player, dead: false });
    assert_eq!(h.current(), 100);
    assert_eq!(h.max(), 100);
    assert_eq!(
        Health::from_parts(10, 4, Team::Enemy),
        Health { max: 10, current: 4, team: Team::Enemy, dead: false }
    );
}

#[test]
fn damage_stops_at_zero() {
    let mut h = Health::new(100, Team::Player);
    h.inflict_damage(40);
    assert_eq!(h.current(), 60);
    h.inflict_damage(60);
    assert_eq!(h.current(), 0);
    h.inflict_damage(u32::MAX);
    assert_eq!(h.current(), 0);
    assert_eq!(h.max(), 100);
}

#[test]
fn heal_stops_at_the_maximum() {
    let mut h = Health::from_parts(100, 10, Team::Player);
    h.heal(25);
    assert_eq!(h.current(), 35);
    h.heal(65);
    assert_eq!(h.current(), 100);
    h.heal(1);
    assert_eq!(h.current(), 100);
    let mut h = Health::from_parts(100, 10, Team::Player);
    h.heal(u32::MAX);
    assert_eq!(h.current(), 100);
    let mut over = Health::from_parts(10, 50, Team::Enemy);
    over.heal(0);
    assert_eq!(over.current(), 10);
    let mut top = Health::from_parts(u32::MAX, u32::MAX - 1, Team::Enemy);
    top.heal(5);
    assert_eq!(top.current(), u32::MAX);
}

#[test]
fn death_is_announced_once() {
    let mut h = Health::new(5, Team::Enemy);
    assert!(!despawn_dead(&mut h));
    assert!(!h.dead);
    h.inflict_damage(5);
    assert!(despawn_dead(&mut h));
    assert!(h.dead);
    assert!(!despawn_dead(&mut h));
    assert!(h.dead);
    assert_eq!(h.current(), 0);
}

#[test]
fn bullets_hit_the_other_team_only() {
    let mut h = Health::new(50, Team::Enemy);
    assert!(!detect_collisions(&mut h, Team::Enemy, 40));
    assert_eq!(h.current(), 50);
    assert!(detect_collisions(&mut h, Team::Player, 40));
    assert_eq!(h.current(), 10);
    assert!(detect_collisions(&mut h, Team::Player, 40));
    assert_eq!(h.current(), 0);
}

#[test]
fn inventory_starts_empty_and_picks_up_into_its_slot() {
    let mut inv = Inventory::new();
    assert_eq!(inv.contents.len(), SLOTS);
    assert!(inv.contents.iter().all(|s| s.is_none()));
    inv.pick_up(loaded(9));
    assert_eq!(PICKUP_SLOT, 3);
    for (i, slot) in inv.contents.iter().enumerate() {
        if i == PICKUP_SLOT {
            assert_eq!(slot, &Some(loaded(9)));
        } else {
            assert_eq!(slot, &None);
        }
    }
    inv.pick_up(loaded(10));
    assert_eq!(inv.contents[3], Some(loaded(10)));
}

#[test]
fn item_resolves_its_picture_before_its_bullet() {
    let mut item = Item {
        name: "Pistol".to_string(),
        sprite: path("pistol.png"),
        item_type: ItemType::Equipable(EquipableType::Weapon(path("pistol.weapon"))),
    };
    assert!(item.is_fresh());
    assert_eq!(item.next_child(), child(AssetKind::Image, "pistol.png"));
    item.resolve_next(1);
    assert_eq!(item.sprite, loaded(1));
    assert_eq!(item.next_child(), child(AssetKind::Bullet, "pistol.weapon"));
    assert!(!item.is_fresh());
    item.resolve_next(2);
    assert_eq!(item.item_type, ItemType::Equipable(EquipableType::Weapon(loaded(2))));
    assert_eq!(item.next_child(), None);
    let before = item.clone();
    item.resolve_next(3);
    assert_eq!(item, before);
}

#[test]
fn items_without_a_weapon_have_one_reference() {
    for item_type in [
        ItemType::Regular,
        ItemType::Equipable(EquipableType::Ability),
        ItemType::Equipable(EquipableType::Armor),
        ItemType::Equipable(EquipableType::Accessory),
    ] {
        let mut item = Item { name: "Gem".to_string(), sprite: path("gem.png"), item_type };
        assert!(item.is_fresh());
        item.resolve_next(4);
        assert_eq!(item.next_child(), None);
    }
    let held = Item {
        name: "Held".to_string(),
        sprite: path("gem.png"),
        item_type: ItemType::Equipable(EquipableType::Weapon(loaded(1))),
    };
    assert!(!held.is_fresh());
}

#[test]
fn test_ai_has_the_two_phases_in_order() {
    let ai = test_ai();
    assert_eq!(ai.current, "Start");
    assert_eq!(
        ai.phases,
        vec![
            (
                "Start".to_string(),
                Phase {
                    behaviors: vec![Behavior::Idle],
                    transitions: vec![(Transition::HealthLessThan(half()), "2".to_string())],
                }
            ),
            (
                "2".to_string(),
                Phase {
                    behaviors: vec![Behavior::Moving { x: half(), y: half() }],
                    transitions: vec![],
                }
            ),
        ]
    );
    assert_eq!(ai.current_phase(), Some(0));
    assert!(ai.is_fresh());
    assert_eq!(ai.next_bullet(), None);
}

#[test]
fn transitions_follow_the_last_one_that_fired() {
    let t = |name: &str| (Transition::HealthLessThan(half()), name.to_string());
    let all = vec![t("a"), t("b"), t("c")];
    assert_eq!(do_transitions(&all, &vec![false, false, false]), None);
    assert_eq!(do_transitions(&all, &vec![true, false, false]), Some("a".to_string()));
    assert_eq!(do_transitions(&all, &vec![true, true, false]), Some("b".to_string()));
    assert_eq!(do_transitions(&all, &vec![true, false, true]), Some("c".to_string()));
    assert_eq!(do_transitions(&all, &vec![true]), Some("a".to_string()));
    assert_eq!(do_transitions(&all, &vec![]), None);
    assert_eq!(do_transitions(&all, &vec![false, false, false, true]), None);
    assert_eq!(do_transitions(&vec![], &vec![true]), None);
    assert_eq!(Transition::HealthLessThan(half()).threshold(), half());
}

#[test]
fn ai_moves_to_the_phase_that_fired() {
    let mut ai = test_ai();
    ai.do_transitions(&vec![false]);
    assert_eq!(ai.current, "Start");
    ai.do_transitions(&vec![true]);
    assert_eq!(ai.current, "2");
    assert_eq!(ai.current_phase(), Some(1));
    ai.do_transitions(&vec![true]);
    assert_eq!(ai.current, "2");
    assert_eq!(ai.phases, test_ai().phases);
    ai.current = "nowhere".to_string();
    assert_eq!(ai.current_phase(), None);
}

fn shoot(p: &str) -> Behavior {
    Behavior::ShootAtPlayer { bullet: path(p), interval: half() }
}

fn shot(id: u64) -> Behavior {
    Behavior::ShootAtPlayer { bullet: loaded(id), interval: half() }
}

#[test]
fn behaviour_knows_its_bullet() {
    assert_eq!(Behavior::Idle.bullet(), None);
    assert_eq!(Behavior::ChasePlayer { speed: half() }.bullet(), None);
    assert_eq!(shoot("a.bullet").bullet(), Some(Err(LoadError::ReferenceNotResolved)));
    assert_eq!(shot(3).bullet(), Some(Ok(Handle::new(3))));
    assert_eq!(shoot("a.bullet").pending_path(), Some("a.bullet".to_string()));
    assert_eq!(shot(3).pending_path(), None);
    assert_eq!(Behavior::Idle.pending_path(), None);
    assert!(shot(3).holds_handle());
    assert!(!shoot("a.bullet").holds_handle());
    assert!(!Behavior::Idle.holds_handle());
    let mut b = shoot("a.bullet");
    b.resolve(5);
    assert_eq!(b, shot(5));
    b.resolve(6);
    assert_eq!(b, shot(5));
    let mut idle = Behavior::Idle;
    idle.resolve(5);
    assert_eq!(idle, Behavior::Idle);
}

#[test]
fn phases_are_resolved_in_the_order_they_were_written() {
    let mut ai = Ai {
        phases: vec![
            (
                "Start".to_string(),
                Phase { behaviors: vec![Behavior::Idle, shoot("s1"), shoot("s2")], transitions: vec![] },
            ),
            ("empty".to_string(), Phase { behaviors: vec![], transitions: vec![] }),
            ("2".to_string(), Phase { behaviors: vec![shoot("t1")], transitions: vec![] }),
        ],
        current: "Start".to_string(),
    };
    assert!(ai.is_fresh());
    assert_eq!(ai.next_bullet(), Some("s1".to_string()));
    assert_eq!(ai.next_child(), child(AssetKind::Bullet, "s1"));
    assert_eq!(ai.phases[0].1.next_bullet(), Some("s1".to_string()));
    assert_eq!(ai.phases[1].1.next_bullet(), None);
    ai.resolve_next(1);
    assert!(!ai.is_fresh());
    assert!(ai.phases[0].1.holds_handle());
    assert!(!ai.phases[2].1.holds_handle());
    assert_eq!(ai.next_bullet(), Some("s2".to_string()));
    ai.resolve_next(2);
    assert_eq!(ai.next_bullet(), Some("t1".to_string()));
    ai.resolve_next(3);
    assert_eq!(ai.next_bullet(), None);
    assert_eq!(ai.phases[0].1.behaviors, vec![Behavior::Idle, shot(1), shot(2)]);
    assert_eq!(ai.phases[2].1.behaviors, vec![shot(3)]);
    let before = ai.clone();
    ai.resolve_next(4);
    assert_eq!(ai, before);
}

#[test]
fn drop_table_resolves_in_order_and_drops_what_was_rolled() {
    let mut table = DropTable {
        drops: vec![
            (path("a.item"), Scalar::from_bits(1.0f32.to_bits())),
            (path("b.item"), half()),
            (path("c.item"), Scalar::from_bits(0)),
        ],
    };
    assert!(table.is_fresh());
    assert_eq!(table.next_item(), Some("a.item".to_string()));
    assert_eq!(table.next_child(), child(AssetKind::Item, "a.item"));
    table.resolve_next(1);
    assert!(!table.is_fresh());
    assert_eq!(table.next_item(), Some("b.item".to_string()));
    table.resolve_next(2);
    table.resolve_next(3);
    assert_eq!(table.next_item(), None);
    assert_eq!(table.drops[1], (loaded(2), half()));
    let before = table.clone();
    table.resolve_next(4);
    assert_eq!(table, before);

    assert_eq!(table.get_items(&vec![true, false, true]), vec![loaded(1), loaded(3)]);
    assert_eq!(table.get_items(&vec![false, false, false]), Vec::<SHandle<Item>>::new());
    assert_eq!(table.get_items(&vec![true, true, true]), vec![loaded(1), loaded(2), loaded(3)]);
    assert_eq!(table.get_items(&vec![false, true]), vec![loaded(2)]);
    assert_eq!(table.get_items(&vec![]), Vec::<SHandle<Item>>::new());
    assert_eq!(table.get_items(&vec![false, false, false, true]), Vec::<SHandle<Item>>::new());
}

#[test]
fn enemy_goes_through_sprite_behaviour_and_drops() {
    let mut enemy = EnemyOptions {
        health: Health::new(30, Team::Enemy),
        sprite: path("grunt.png"),
        ai: Ai {
            phases: vec![("Start".to_string(), Phase { behaviors: vec![shoot("b")], transitions: vec![] })],
            current: "Start".to_string(),
        },
        drop_table: DropTable { drops: vec![(path("gem.item"), half())] },
    };
    assert!(enemy.is_fresh());
    assert_eq!(enemy.next_child(), child(AssetKind::Image, "grunt.png"));
    enemy.resolve_next(1);
    assert!(!enemy.is_fresh());
    assert_eq!(enemy.next_child(), child(AssetKind::Bullet, "b"));
    enemy.resolve_next(2);
    assert_eq!(enemy.next_child(), child(AssetKind::Item, "gem.item"));
    enemy.resolve_next(3);
    assert_eq!(enemy.next_child(), None);
    assert_eq!(enemy.sprite, loaded(1));
    assert_eq!(enemy.ai.phases[0].1.behaviors, vec![shot(2)]);
    assert_eq!(enemy.drop_table.drops, vec![(loaded(3), half())]);
    assert_eq!(enemy.health, Health::new(30, Team::Enemy));
}

#[test]
fn image_has_no_references() {
    let mut image = LeafImage {
        width: 1,
        height: 1,
        format: PixelFormat::Rgba8UnormSrgb,
        data: vec![1, 2, 3, 4],
    };
    assert_eq!(image.next_child(), None);
    assert!(image.is_fresh());
    let before = image.clone();
    image.resolve_next(5);
    assert_eq!(image, before);
}

#[test]
fn asset_forwards_to_its_record() {
    let image = Asset::Image(LeafImage {
        width: 1,
        height: 1,
        format: PixelFormat::Rgba8UnormSrgb,
        data: vec![0, 0, 0, 0],
    });
    assert_eq!(image.kind(), AssetKind::Image);
    assert_eq!(image.next_child(), None);
    assert!(image.is_fresh());
    let mut same = image.clone();
    same.resolve_next(1);
    assert_eq!(same, image);

    let mut bullet = Asset::Bullet(BulletOptions::default());
    assert_eq!(bullet.kind(), AssetKind::Bullet);
    assert_eq!(bullet.next_child(), child(AssetKind::Image, "bullet.png"));
    bullet.resolve_next(2);
    assert_eq!(bullet.next_child(), None);
    assert!(!bullet.is_fresh());

    let mut ai = Asset::Ai(Ai {
        phases: vec![("Start".to_string(), Phase { behaviors: vec![shoot("b")], transitions: vec![] })],
        current: "Start".to_string(),
    });
    assert_eq!(ai.kind(), AssetKind::Ai);
    assert!(ai.is_fresh());
    assert_eq!(ai.next_child(), child(AssetKind::Bullet, "b"));
    ai.resolve_next(3);
    assert_eq!(ai.next_child(), None);

    let mut table = Asset::DropTable(DropTable { drops: vec![(path("gem.item"), half())] });
    assert_eq!(table.kind(), AssetKind::DropTable);
    assert!(table.is_fresh());
    assert_eq!(table.next_child(), child(AssetKind::Item, "gem.item"));
    table.resolve_next(4);
    assert_eq!(table.next_child(), None);
    assert!(!table.is_fresh());
}

#[test]
fn extensions_choose_the_loader() {
    assert_eq!(kind_of_extension("enemy"), Some(AssetKind::Enemy));
    assert_eq!(kind_of_extension("item"), Some(AssetKind::Item));
    assert_eq!(kind_of_extension("bullet"), Some(AssetKind::Bullet));
    assert_eq!(kind_of_extension("ai"), Some(AssetKind::Ai));
    assert_eq!(kind_of_extension("png"), None);
    assert_eq!(kind_of_extension(""), None);
    assert_eq!(kind_of_extension("Enemy"), None);
    assert_eq!(EnemyOptionsLoader::default().extensions(), vec!["enemy"]);
    assert_eq!(ItemLoader::default().extensions(), vec!["item"]);
    assert_eq!(BulletOptionsLoader::default().extensions(), vec!["bullet"]);
    assert_eq!(AiLoader::default().extensions(), vec!["ai"]);
}

#[test]
fn loaders_begin_with_the_read_of_their_root() {
    let (r, a) = EnemyOptionsLoader::default().load("grunt.enemy".to_string());
    assert_eq!(a, Action::Read { path: "grunt.enemy".to_string() });
    assert_eq!(
        r.stage(),
        Stage::Reading(ChildRef { kind: AssetKind::Enemy, path: "grunt.enemy".to_string() })
    );
    let (r, a) = ItemLoader::default().load("gem.item".to_string());
    assert_eq!(a, Action::Read { path: "gem.item".to_string() });
    assert_eq!(
        r.stage(),
        Stage::Reading(ChildRef { kind: AssetKind::Item, path: "gem.item".to_string() })
    );
    let (r, _) = BulletOptionsLoader::default().load("a.bullet".to_string());
    assert_eq!(
        r.stage(),
        Stage::Reading(ChildRef { kind: AssetKind::Bullet, path: "a.bullet".to_string() })
    );
    let (r, _) = AiLoader::default().load("test.ai".to_string());
    assert_eq!(
        r.stage(),
        Stage::Reading(ChildRef { kind: AssetKind::Ai, path: "test.ai".to_string() })
    );
}

#[test]
fn scripts_know_whether_their_names_are_distinct() {
    let mut ai = test_ai();
    assert!(ai.has_distinct_names());
    ai.phases.push(("Start".to_string(), Phase { behaviors: vec![], transitions: vec![] }));
    assert!(!ai.has_distinct_names());
    assert_eq!(ai.current_phase(), Some(0));
    let empty = Ai { phases: vec![], current: "Start".to_string() };
    assert!(empty.has_distinct_names());
    assert_eq!(empty.current_phase(), None);
}
