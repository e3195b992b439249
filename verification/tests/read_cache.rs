use benilla::read_cache::{ReadCache, READ_CACHE_BUDGET, READ_CACHE_ENTRY_MAX};

#[test]
fn a_read_gives_back_what_was_put() {
    let mut c = ReadCache::new();
    assert_eq!(c.get("a"), None);
    c.put("a".to_string(), b"alpha");
    c.put("b".to_string(), b"beta");
    assert_eq!(c.get("a"), Some(b"alpha".to_vec()));
    assert_eq!(c.get("b"), Some(b"beta".to_vec()));
    // A second put replaces.
    c.put("a".to_string(), b"again");
    assert_eq!(c.get("a"), Some(b"again".to_vec()));
}

#[test]
fn an_entry_over_the_ceiling_is_read_straight_through() {
    let mut c = ReadCache::new();
    let big = vec![7u8; READ_CACHE_ENTRY_MAX + 1];
    c.put("big".to_string(), &big);
    assert_eq!(c.get("big"), None);
    let edge = vec![7u8; READ_CACHE_ENTRY_MAX];
    c.put("edge".to_string(), &edge);
    assert_eq!(c.get("edge").map(|b| b.len()), Some(READ_CACHE_ENTRY_MAX));
}

#[test]
fn the_least_recently_used_entry_is_evicted_first() {
    let mut c = ReadCache::new();
    let block = vec![1u8; READ_CACHE_ENTRY_MAX];
    let slots = READ_CACHE_BUDGET / READ_CACHE_ENTRY_MAX;
    for i in 0..slots {
        c.put(format!("k{i}"), &block);
    }
    // Touch the oldest so the second-oldest becomes the victim.
    assert!(c.get("k0").is_some());
    c.put("new".to_string(), &block);
    assert!(c.get("k1").is_none(), "the least recently used entry goes first");
    assert!(c.get("k0").is_some(), "a read protects an entry");
    assert!(c.get("new").is_some());
    assert!(c.get(&format!("k{}", slots - 1)).is_some());
}
