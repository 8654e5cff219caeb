use chat_server::HandleRegistry;

fn names(registry: &HandleRegistry) -> Vec<String> {
    registry.snapshot()
}

#[test]
fn a_new_registry_is_empty() {
    let registry = HandleRegistry::new();
    assert!(registry.is_empty());
    assert_eq!(registry.len(), 0);
    assert_eq!(names(&registry), Vec::<String>::new());
    assert!(!registry.contains("alice"));
}

#[test]
fn a_free_name_can_be_claimed() {
    let mut registry = HandleRegistry::new();
    assert!(registry.claim("alice"));
    assert!(registry.contains("alice"));
    assert!(!registry.is_empty());
    assert_eq!(registry.len(), 1);
    assert_eq!(names(&registry), vec!["alice".to_string()]);
}

#[test]
fn a_claimed_name_cannot_be_claimed_again() {
    let mut registry = HandleRegistry::new();
    assert!(registry.claim("alice"));
    assert!(!registry.claim("alice"));
    assert_eq!(registry.len(), 1);
    assert_eq!(names(&registry), vec!["alice".to_string()]);
}

#[test]
fn names_differ_by_case_and_by_every_character() {
    let mut registry = HandleRegistry::new();
    assert!(registry.claim("alice"));
    assert!(registry.claim("Alice"));
    assert!(registry.claim("alice2"));
    assert!(registry.claim("アリス"));
    assert_eq!(registry.len(), 4);
}

#[test]
fn a_released_name_is_free_again() {
    let mut registry = HandleRegistry::new();
    assert!(registry.claim("alice"));
    registry.release("alice");
    assert!(!registry.contains("alice"));
    assert!(registry.is_empty());
    assert!(registry.claim("alice"));
}

#[test]
fn release_is_idempotent() {
    let mut registry = HandleRegistry::new();
    registry.release("nobody");
    assert!(registry.is_empty());
    assert!(registry.claim("alice"));
    assert!(registry.claim("bob"));
    registry.release("alice");
    registry.release("alice");
    registry.release("nobody");
    assert_eq!(names(&registry), vec!["bob".to_string()]);
}

#[test]
fn snapshot_lists_names_in_the_order_of_their_claims() {
    let mut registry = HandleRegistry::new();
    for name in ["carol", "alice", "bob"] {
        assert!(registry.claim(name));
    }
    assert_eq!(names(&registry), vec!["carol".to_string(), "alice".to_string(), "bob".to_string()]);
    registry.release("alice");
    assert_eq!(names(&registry), vec!["carol".to_string(), "bob".to_string()]);
    assert!(registry.claim("alice"));
    assert_eq!(names(&registry), vec!["carol".to_string(), "bob".to_string(), "alice".to_string()]);
}

#[test]
fn snapshot_is_a_copy_of_one_moment() {
    let mut registry = HandleRegistry::new();
    assert!(registry.claim("alice"));
    let before = registry.snapshot();
    assert!(registry.claim("bob"));
    registry.release("alice");
    assert_eq!(before, vec!["alice".to_string()]);
}

#[test]
fn no_sequence_of_claims_and_releases_lists_a_name_twice() {
    let pool = ["a", "b", "c", "d"];
    let mut registry = HandleRegistry::new();
    let mut held: Vec<&str> = Vec::new();
    let mut seed: u32 = 12345;
    for _ in 0..2000 {
        seed = seed.wrapping_mul(1103515245).wrapping_add(12345);
        let name = pool[((seed >> 16) % 4) as usize];
        if (seed >> 8) % 2 == 0 {
            let claimed = registry.claim(name);
            assert_eq!(claimed, !held.contains(&name));
            if claimed {
                held.push(name);
            }
        } else {
            registry.release(name);
            held.retain(|n| *n != name);
        }
        let listed = registry.snapshot();
        assert_eq!(listed, held.iter().map(|n| n.to_string()).collect::<Vec<String>>());
        for (i, n) in listed.iter().enumerate() {
            assert!(!listed[..i].contains(n));
        }
        assert_eq!(registry.len(), held.len());
    }
}
