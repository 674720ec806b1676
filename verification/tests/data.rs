use rogue::data::{default_start_armor, Config, GameData, ItemTables, MonsterDef, MonsterFlag};

fn monster(name: &str, symbol: char, flags: Vec<MonsterFlag>) -> MonsterDef {
    MonsterDef {
        name: name.to_string(),
        symbol,
        carry: 0,
        flags,
        strength: 10,
        experience: 1,
        level: 1,
        armor: 8,
        damage: "1x4".parse().unwrap(),
    }
}

#[test]
fn flags_are_looked_up() {
    let flags = [MonsterFlag::Mean, MonsterFlag::Greed];
    assert!(MonsterFlag::is(&flags, MonsterFlag::Greed));
    assert!(!MonsterFlag::is(&flags, MonsterFlag::Fly));
    assert!(!MonsterFlag::is(&[], MonsterFlag::Mean));
    assert_eq!(default_start_armor(), 7);
    let m = monster("bat", 'B', vec![MonsterFlag::Fly]);
    assert!(MonsterFlag::is(&m.flags, MonsterFlag::Fly));
}

#[test]
fn monsters_found_by_symbol() {
    let data = GameData {
        config: Config {
            map_width: 80,
            map_height: 24,
            max_rooms: 9,
            max_passages: 13,
            max_objects_per_level: 9,
            max_traps: 10,
            amulet_level: 26,
            hunger_time: 1300,
            stomach_size: 2000,
            start_hp: 12,
            start_strength: 16,
            start_armor: 7,
        },
        monsters: vec![
            monster("aquator", 'A', vec![MonsterFlag::Mean]),
            monster("bat", 'B', vec![MonsterFlag::Fly]),
            monster("other bat", 'B', vec![]),
        ],
        items: ItemTables {
            categories: vec![],
            potions: vec![],
            scrolls: vec![],
            rings: vec![],
            sticks: vec![],
            armor: vec![],
            weapons: vec![],
        },
    };
    assert_eq!(data.monster_by_symbol('B').unwrap().name, "bat");
    assert_eq!(data.monster_by_symbol('A').unwrap().name, "aquator");
    assert!(data.monster_by_symbol('Z').is_none());
}
