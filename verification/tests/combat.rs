use rand::rngs::StdRng;
use rand::SeedableRng;
use rogue::combat::{add_dam, resolve_attack, roll_attack, str_plus, swing, swing_with_roll, Attacker};

#[test]
fn strength_tables_match_legacy() {
    // str 16 is the unenchanted baseline: no to-hit, +1 damage.
    assert_eq!(str_plus(16), 0);
    assert_eq!(add_dam(16), 1);
    // Extremes clamp safely.
    assert_eq!(str_plus(0), -7);
    assert_eq!(str_plus(31), 3);
    assert_eq!(add_dam(31), 6);
    assert_eq!(str_plus(99), 3);
}

#[test]
fn very_strong_low_ac_attacker_always_hits_weak_defender() {
    let att = Attacker {
        level: 10,
        strength: 31,
        damage: "2x6".parse().unwrap(),
        hit_plus: 5,
        dam_plus: 3,
    };
    let mut rng = StdRng::seed_from_u64(7);
    // High armor defender (easy to hit) -> always connects, positive damage.
    let mut hits = 0;
    for _ in 0..100 {
        if let Some(dmg) = roll_attack(&att, 9, &mut rng) {
            assert!(dmg > 0);
            hits += 1;
        }
    }
    assert_eq!(hits, 100);
}

#[test]
fn hopeless_attacker_misses_tough_defender() {
    let att = Attacker {
        level: 1,
        strength: 3,
        damage: "1x4".parse().unwrap(),
        hit_plus: 0,
        dam_plus: 0,
    };
    let mut rng = StdRng::seed_from_u64(3);
    // Very low (good) AC defender: need = 19 - (-10) = 29, impossible with rnd(20).
    for _ in 0..100 {
        assert!(roll_attack(&att, -10, &mut rng).is_none());
    }
}

#[test]
fn swing_needs_roll_plus_bonus_to_reach_target() {
    // need = 20 - at_lvl - op_arm = 20 - 1 - 5 = 14
    assert!(swing_with_roll(14, 1, 5, 0));
    assert!(!swing_with_roll(13, 1, 5, 0));
    assert!(swing_with_roll(10, 1, 5, 4));
    let mut rng = StdRng::seed_from_u64(11);
    // need <= wplus: always hits.
    for _ in 0..50 {
        assert!(swing(30, 0, 0, &mut rng));
        assert!(!swing(0, -30, 0, &mut rng));
    }
}

#[test]
fn resolved_attack_sums_each_hitting_term() {
    let att = Attacker {
        level: 3,
        strength: 18,
        damage: "1x6/2x4".parse().unwrap(),
        hit_plus: 1,
        dam_plus: 2,
    };
    // str_plus(18) = 1, add_dam(18) = 2; need = 20 - 3 - 5 = 12, wplus = 2.
    // First term hits (10 + 2 >= 12) for 2 + 4 + 2; second misses (5 + 2 < 12).
    assert_eq!(resolve_attack(&att, 5, &vec![10, 5], &vec![4, 3]), Some(8));
    // Neither hits.
    assert_eq!(resolve_attack(&att, 5, &vec![0, 0], &vec![1, 2]), None);
    // Both hit: (2 + 3 + 2) + (2 + 4 + 2) = 15.
    assert_eq!(resolve_attack(&att, 5, &vec![19, 19], &vec![3, 4]), Some(15));
}
