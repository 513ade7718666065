use goap::{AttackType, AttackTypeTransition, EnemyState, InventoryComponent, PrefabType};

#[test]
fn inventory_counts_wood() {
    let mut inv = InventoryComponent { wood: 0, max_wood: 5 };
    assert_eq!(inv.get_wood(), 0);
    assert!(!inv.is_full());

    inv.add_wood(3);
    assert_eq!(inv.get_wood(), 3);
    assert!(!inv.is_full());

    inv.add_wood(2);
    assert_eq!(inv.get_wood(), 5);
    assert!(inv.is_full());

    inv.remove_wood(4);
    assert_eq!(inv.get_wood(), 1);
    assert!(!inv.is_full());
}

#[test]
fn inventory_is_full_beyond_capacity() {
    let inv = InventoryComponent { wood: 9, max_wood: 5 };
    assert!(inv.is_full());
}

#[test]
fn prefab_names_resolve_to_their_classes() {
    assert_eq!(PrefabType::from("Wizard"), PrefabType::Player);
    assert_eq!(PrefabType::from("Swampeter"), PrefabType::Enemy);
    assert_eq!(PrefabType::from("Alian"), PrefabType::Enemy);
    assert_eq!(PrefabType::from("Dreamstone"), PrefabType::Collectible);
    assert_eq!(PrefabType::from("Projectile"), PrefabType::Projectile);
    assert_eq!(PrefabType::from("Scenery"), PrefabType::Scenery);
    assert_eq!(PrefabType::from("SpawnPoint"), PrefabType::SpawnPoint);
    assert_eq!(PrefabType::from("SpectatorPoint"), PrefabType::SpectatorPoint);
    assert_eq!(PrefabType::from("DamageParticle"), PrefabType::ParticleSystem);
    assert_eq!(PrefabType::from("Campfire"), PrefabType::Unknown);
    assert_eq!(PrefabType::from(""), PrefabType::Unknown);
    // resolution is case-sensitive
    assert_eq!(PrefabType::from("wizard"), PrefabType::Unknown);
}

#[test]
fn enemies_start_idle() {
    assert_eq!(EnemyState::default(), EnemyState::Idle);
}

#[test]
fn attack_transitions_match_the_declared_kind() {
    let t = AttackTypeTransition { attack_type: AttackType::Heavy };
    assert!(t.should_transition(Some(&AttackType::Heavy)));
    assert!(!t.should_transition(Some(&AttackType::Light)));
    assert!(!t.should_transition(Some(&AttackType::NoAttack)));
    // an agent with no attack component at all may always transition
    assert!(t.should_transition(None));
}
