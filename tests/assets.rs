use bevy_playdate::asset::{AssetCache, AssetPlugin, LoadStep};

const IMAGE: u64 = 1;
const SOUND: u64 = 2;

#[test]
fn get_resolves_while_a_strong_reference_is_held() {
    let mut cache: AssetCache<String> = AssetPlugin.build();
    let path = "images/player".to_string();
    assert!(cache.get(&path, IMAGE).is_none());
    let first = cache.insert(path.clone(), IMAGE, "pixels".to_string());
    assert_eq!(cache.strong_count(&first), 1);
    let second = cache.get(&path, IMAGE).expect("cached");
    assert_eq!(second.slot(), first.slot());
    assert_eq!(cache.strong_count(&first), 2);
    assert_eq!(cache.asset(&second), "pixels");
    cache.release(first);
    cache.clear_unused();
    assert!(cache.contains(&path, IMAGE));
    let third = cache.get(&path, IMAGE).expect("still held");
    assert_eq!(cache.asset(&third), "pixels");
    cache.release(second);
    cache.release(third);
    assert!(!cache.contains(&path, IMAGE));
    assert!(cache.get(&path, IMAGE).is_none());
}

#[test]
fn dropping_all_references_then_sweeping_forgets_the_asset() {
    let mut cache: AssetCache<Vec<u8>> = AssetCache::new();
    let path = "maps/level1".to_string();
    let r = cache.insert(path.clone(), IMAGE, vec![1, 2, 3]);
    let again = cache.retain(&r);
    cache.release(r);
    assert!(cache.contains(&path, IMAGE));
    cache.release(again);
    cache.clear_unused();
    assert!(!cache.contains(&path, IMAGE));
    assert!(cache.get(&path, IMAGE).is_none());
}

#[test]
fn same_path_different_type_is_a_different_entry() {
    let mut cache: AssetCache<&'static str> = AssetCache::new();
    let path = "shared".to_string();
    let image = cache.insert(path.clone(), IMAGE, "image");
    assert!(cache.get(&path, SOUND).is_none());
    let sound = cache.insert(path.clone(), SOUND, "sound");
    let got = cache.get(&path, IMAGE).unwrap();
    assert_eq!(*cache.asset(&got), "image");
    let got_sound = cache.get(&path, SOUND).unwrap();
    assert_eq!(*cache.asset(&got_sound), "sound");
    assert_ne!(image.slot(), sound.slot());
}

#[test]
fn insert_overwrites_the_entry_but_old_references_stay_valid() {
    let mut cache: AssetCache<u32> = AssetCache::new();
    let path = "font".to_string();
    let old = cache.insert(path.clone(), IMAGE, 1);
    let new = cache.insert(path.clone(), IMAGE, 2);
    let got = cache.get(&path, IMAGE).unwrap();
    assert_eq!(got.slot(), new.slot());
    assert_eq!(*cache.asset(&old), 1);
    assert_eq!(*cache.asset(&got), 2);
}

#[test]
fn second_load_of_a_cached_asset_does_no_io() {
    let mut cache: AssetCache<Vec<u8>> = AssetCache::new();
    let mut reads = 0;
    let path = "x".to_string();
    let mut load = |cache: &mut AssetCache<Vec<u8>>, reads: &mut u32| match cache.get(&path, IMAGE) {
        Some(r) => r,
        None => {
            *reads += 1;
            cache.store_loaded::<()>(path.clone(), IMAGE, Ok(vec![42])).unwrap()
        }
    };
    let first = load(&mut cache, &mut reads);
    assert_eq!(reads, 1);
    let second = load(&mut cache, &mut reads);
    assert_eq!(reads, 1);
    assert_eq!(first.slot(), second.slot());
    assert_eq!(cache.asset(&second), &vec![42]);
}

#[test]
fn failed_load_leaves_the_cache_alone() {
    let mut cache: AssetCache<u8> = AssetCache::new();
    let path = "missing".to_string();
    let r = cache.store_loaded(path.clone(), IMAGE, Err("not found"));
    assert!(matches!(r, Err("not found")));
    assert!(!cache.contains(&path, IMAGE));
}

#[test]
fn start_load_reports_hit_or_miss() {
    let mut cache: AssetCache<u8> = AssetCache::new();
    let path = "x".to_string();
    assert!(matches!(cache.start_load(&path, IMAGE), LoadStep::Load));
    let r = cache.store_loaded::<()>(path.clone(), IMAGE, Ok(5)).unwrap();
    match cache.start_load(&path, IMAGE) {
        LoadStep::Cached(h) => {
            assert_eq!(h.slot(), r.slot());
            assert_eq!(*cache.asset(&h), 5);
            assert_eq!(cache.strong_count(&h), 2);
        }
        LoadStep::Load => panic!("cached asset loaded again"),
    }
}

#[test]
fn freed_slot_is_reused() {
    let mut cache: AssetCache<u8> = AssetCache::new();
    let a = "a".to_string();
    let first = cache.insert(a.clone(), IMAGE, 1);
    let slot = first.slot();
    cache.release(first);
    cache.clear_unused();
    let second = cache.insert("b".to_string(), IMAGE, 2);
    assert_eq!(second.slot(), slot);
    assert_eq!(*cache.asset(&second), 2);
    assert!(!cache.contains(&a, IMAGE));
}

#[test]
fn slot_still_named_by_an_entry_is_not_reused() {
    let mut cache: AssetCache<u8> = AssetCache::new();
    let first = cache.insert("a".to_string(), IMAGE, 1);
    let slot = first.slot();
    cache.release(first);
    let second = cache.insert("b".to_string(), IMAGE, 2);
    assert_ne!(second.slot(), slot);
}
