use alchemy::attribute_cache::clock_cache::node_meta::NodeMeta;

#[test]
fn test_a() {
    println!("it works");
}

#[test]
fn meta_dirty() {
    let mut meta = NodeMeta::new();

    assert!(!meta.is_dirty());

    meta.set_dirty();

    assert!(meta.is_dirty());
}

#[test]
fn meta_hotness() {
    let mut meta = NodeMeta::new();

    let mut hotness = meta.hotness();
    assert_eq!(hotness, 0);

    meta.inc_hotness(1);
    meta.inc_hotness(1);
    hotness = meta.hotness();
    assert_eq!(hotness, 2);

    let success = meta.try_dec_hotness(1);
    assert_eq!(success, true);
    hotness = meta.hotness();
    assert_eq!(hotness, 1);
}

#[test]
fn set_dirty_twice_is_set_dirty_once() {
    let mut meta = NodeMeta::new();
    meta.inc_hotness(3);
    meta.set_ref();
    meta.set_dirty();
    assert!(meta.is_dirty());
    assert_eq!(meta.hotness(), 3);
    assert!(meta.is_refed());
    meta.set_dirty();
    assert!(meta.is_dirty());
    assert_eq!(meta.hotness(), 3);
    assert!(meta.is_refed());
}
