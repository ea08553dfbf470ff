use space_survival::entity::{EntityId, EntityStore};

#[test]
fn insert_issues_consecutive_ids() {
    let mut store: EntityStore<&str> = EntityStore::new();
    assert_eq!(store.len(), 0);
    assert_eq!(store.insert("a"), EntityId(0));
    assert_eq!(store.insert("b"), EntityId(1));
    assert_eq!(store.insert("c"), EntityId(2));
    assert_eq!(store.len(), 3);
    assert_eq!(*store.get(EntityId(1)), "b");
}

#[test]
fn get_mut_changes_one_entity() {
    let mut store: EntityStore<u32> = EntityStore::new();
    store.insert(1);
    store.insert(2);
    *store.get_mut(EntityId(1)) += 40;
    assert_eq!(*store.get(EntityId(0)), 1);
    assert_eq!(*store.get(EntityId(1)), 42);
}

#[test]
fn get_mut_pair_borrows_two_entities_in_either_order() {
    let mut store: EntityStore<u32> = EntityStore::new();
    for v in [10, 20, 30, 40] {
        store.insert(v);
    }
    {
        let (a, b) = store.get_mut_pair(EntityId(0), EntityId(3));
        assert_eq!((*a, *b), (10, 40));
        *a += 1;
        *b += 2;
    }
    {
        let (a, b) = store.get_mut_pair(EntityId(2), EntityId(1));
        assert_eq!((*a, *b), (30, 20));
        std::mem::swap(a, b);
    }
    let all: Vec<u32> = (0..4).map(|i| *store.get(EntityId(i))).collect();
    assert_eq!(all, vec![11, 30, 20, 42]);
}
