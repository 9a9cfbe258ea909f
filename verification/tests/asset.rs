use rlvgl_core::asset::{AssetHandle, AssetPath, AssetRegistry, EmbeddedAssetSource, MemoryAssetSource, SlotCache};
use rlvgl_core::fs::{AssetError, AssetRead, AssetSource, FsError};
use rlvgl_core::image::{ImageData, ImageDescriptor, PixelFormat};

static PIXEL_2X1: &[u8] = &[0xFF, 0x00, 0x00, 0xFF, 0x00, 0xFF, 0x00, 0xFF];
static EMBED_TABLE: &[(&str, &[u8])] = &[("icons/red_green.raw", PIXEL_2X1)];

#[test]
fn embedded_source_open_hit() {
    let src = EmbeddedAssetSource::new(EMBED_TABLE);
    assert!(src.contains("icons/red_green.raw"));
    let mut reader = src.open("icons/red_green.raw").unwrap();
    assert_eq!(reader.len(), 8);
    let mut buf = [0u8; 8];
    let n = reader.read(&mut buf).unwrap();
    assert_eq!(n, 8);
    assert_eq!(&buf, PIXEL_2X1);
}

#[test]
fn embedded_source_open_miss() {
    let src = EmbeddedAssetSource::new(EMBED_TABLE);
    assert!(!src.contains("missing.raw"));
    let result = src.open("missing.raw");
    assert!(matches!(result, Err(AssetError::Fs(FsError::NoSuchFile))));
}

#[test]
fn memory_source_round_trip() {
    let mut src = MemoryAssetSource::new();
    src.insert("test.raw", vec![1, 2, 3, 4]);
    assert!(src.contains("test.raw"));
    let mut reader = src.open("test.raw").unwrap();
    let mut buf = [0u8; 4];
    reader.read(&mut buf).unwrap();
    assert_eq!(buf, [1, 2, 3, 4]);
}

#[test]
fn memory_source_replace() {
    let mut src = MemoryAssetSource::new();
    src.insert("a.raw", vec![1]);
    src.insert("a.raw", vec![2, 3]);
    let mut reader = src.open("a.raw").unwrap();
    assert_eq!(reader.len(), 2);
    let mut buf = [0u8; 2];
    reader.read(&mut buf).unwrap();
    assert_eq!(buf, [2, 3]);
}

fn make_desc(marker: u8) -> ImageDescriptor<'static> {
    ImageDescriptor {
        format: PixelFormat::Rgb565,
        width: 1,
        height: 1,
        data: ImageData::Owned(vec![marker]),
        stride: None,
    }
}

#[test]
fn slot_cache_basic_insert_and_get() {
    let mut cache: SlotCache<4> = SlotCache::new();
    let h = cache.insert(make_desc(42));
    let desc = cache.get(h).unwrap();
    assert_eq!(desc.data.as_bytes().unwrap(), &[42u8]);
}

#[test]
fn slot_cache_evicts_lru() {
    let mut cache: SlotCache<2> = SlotCache::new();
    let h1 = cache.insert(make_desc(1));
    let h2 = cache.insert(make_desc(2));
    let _ = cache.get(h1);
    let h3 = cache.insert(make_desc(3));
    assert!(cache.get(h2).is_none(), "h2 should have been evicted");
    assert!(cache.get(h1).is_some(), "h1 should still be cached");
    assert!(cache.get(h3).is_some(), "h3 should be cached");
}

#[test]
fn slot_cache_evict_explicit() {
    let mut cache: SlotCache<2> = SlotCache::new();
    let h = cache.insert(make_desc(7));
    assert!(cache.get(h).is_some());
    cache.evict(h);
    assert!(cache.get(h).is_none());
}

#[test]
fn slot_cache_touch_updates_recency() {
    let mut cache: SlotCache<2> = SlotCache::new();
    let h1 = cache.insert(make_desc(1));
    let h2 = cache.insert(make_desc(2));
    let _ = cache.get(h1);
    let h3 = cache.insert(make_desc(3));
    assert!(cache.get(h2).is_none(), "h2 evicted after h1 was touched");
    assert!(cache.get(h1).is_some());
    assert!(cache.get(h3).is_some());
}

#[test]
fn registry_register_and_resolve_embedded() {
    let mut reg: AssetRegistry<4> = AssetRegistry::new();
    reg.register_source(
        &AssetPath::Embedded(""),
        Box::new(EmbeddedAssetSource::new(EMBED_TABLE)),
    )
    .unwrap();
    let handle = reg.register(AssetPath::Embedded("icons/red_green.raw"));
    let desc = reg.resolve_image(handle).unwrap();
    assert!(!desc.data.is_empty());
}

#[test]
fn registry_resolve_unknown_handle_errors() {
    let mut reg: AssetRegistry<4> = AssetRegistry::new();
    let fake_handle = AssetHandle::new(99);
    let err = reg.resolve_image(fake_handle).unwrap_err();
    assert!(matches!(err, AssetError::Fs(FsError::NoSuchFile)));
}

#[test]
fn registry_resolve_cache_hit_on_second_call() {
    let mut reg: AssetRegistry<4> = AssetRegistry::new();
    reg.register_source(
        &AssetPath::Embedded(""),
        Box::new(EmbeddedAssetSource::new(EMBED_TABLE)),
    )
    .unwrap();
    let handle = reg.register(AssetPath::Embedded("icons/red_green.raw"));
    let _ = reg.resolve_image(handle).unwrap();
    let desc = reg.resolve_image(handle).unwrap();
    assert!(!desc.data.is_empty());
}

#[test]
fn registry_no_source_for_kind_errors() {
    let mut reg: AssetRegistry<4> = AssetRegistry::new();
    reg.register_source(
        &AssetPath::Memory(String::new()),
        Box::new(MemoryAssetSource::new()),
    )
    .unwrap();
    let handle = reg.register(AssetPath::Embedded("foo.raw"));
    let err = reg.resolve_image(handle).unwrap_err();
    assert!(matches!(err, AssetError::Fs(FsError::NoSuchFile)));
}

#[test]
fn registry_memory_source_round_trip() {
    let mut src = MemoryAssetSource::new();
    src.insert("logo.raw", vec![0xAA, 0xBB, 0xCC, 0xDD]);
    let mut reg: AssetRegistry<4> = AssetRegistry::new();
    reg.register_source(&AssetPath::Memory(String::new()), Box::new(src))
        .unwrap();
    let handle = reg.register(AssetPath::Memory("logo.raw".into()));
    let desc = reg.resolve_image(handle).unwrap();
    let bytes = desc.data.as_bytes().unwrap();
    assert_eq!(bytes, &[0xAA, 0xBB, 0xCC, 0xDD]);
}

#[test]
fn registry_evict_then_reload() {
    let mut src = MemoryAssetSource::new();
    src.insert("img.raw", vec![0x01, 0x02]);
    let mut reg: AssetRegistry<1> = AssetRegistry::new();
    reg.register_source(&AssetPath::Memory(String::new()), Box::new(src))
        .unwrap();
    let h1 = reg.register(AssetPath::Memory("img.raw".into()));
    let h2 = reg.register(AssetPath::Memory("img.raw".into()));
    let _ = reg.resolve_image(h1).unwrap();
    let _ = reg.resolve_image(h2).unwrap();
    let desc = reg.resolve_image(h1).unwrap();
    assert!(!desc.data.is_empty());
}

#[test]
fn image_data_asset_variant_constructs_and_matches() {
    let handle = AssetHandle::new(1);
    let data = ImageData::Asset(handle);
    assert_eq!(data.byte_len(), 0);
    assert!(data.is_empty());
    assert!(data.as_bytes().is_none());
    assert!(data.as_color_slice().is_none());
    match &data {
        ImageData::Asset(h) => assert_eq!(h.as_u32(), 1),
        _ => panic!("expected Asset variant"),
    }
}

#[test]
fn existing_image_data_variants_unaffected() {
    let borrowed_data = ImageData::Borrowed(&[1u8, 2, 3]);
    assert_eq!(borrowed_data.byte_len(), 3);
    assert!(borrowed_data.as_bytes().is_some());

    let owned_data: ImageData<'_> = ImageData::Owned(vec![4, 5]);
    assert_eq!(owned_data.byte_len(), 2);

    let check = match owned_data {
        ImageData::Borrowed(_) => "borrowed",
        ImageData::BorrowedColors(_) => "colors",
        ImageData::Owned(_) => "owned",
        ImageData::Asset(_) => "asset",
    };
    assert_eq!(check, "owned");
}

#[test]
fn asset_path_helpers() {
    let p = AssetPath::Embedded("icons/ok.raw");
    assert_eq!(p.path_str(), "icons/ok.raw");
    assert_eq!(p.source_kind(), "embedded");

    let p2 = AssetPath::Memory("fonts/mono.bin".into());
    assert_eq!(p2.source_kind(), "memory");
    assert_eq!(p2.path_str(), "fonts/mono.bin");
}

#[test]
fn slot_cache_handles_are_sequential_and_eviction_is_reproducible() {
    let run = || {
        let mut cache: SlotCache<3> = SlotCache::new();
        let mut handles = Vec::new();
        for i in 0..6u32 {
            handles.push(cache.insert(make_desc(i as u8)));
            if i % 2 == 0 {
                let _ = cache.get(handles[0]);
            }
        }
        let present: Vec<bool> = handles.iter().map(|h| cache.get(*h).is_some()).collect();
        (handles.iter().map(|h| h.as_u32()).collect::<Vec<u32>>(), present)
    };
    let (ids, present) = run();
    assert_eq!(ids, vec![1, 2, 3, 4, 5, 6]);
    assert_eq!(present, vec![true, false, false, false, true, true]);
    assert_eq!(run(), (ids, present));
}

#[test]
fn readers_clamp_reads_and_seeks_to_their_data() {
    let mut src = MemoryAssetSource::new();
    src.insert("a", vec![1, 2, 3, 4, 5]);
    let mut reader = src.open("a").ok().unwrap();
    assert_eq!(reader.len(), 5);
    assert!(!reader.is_empty());
    let mut buf = [9u8; 3];
    assert_eq!(reader.read(&mut buf).ok(), Some(3));
    assert_eq!(buf, [1, 2, 3]);
    assert_eq!(reader.read(&mut buf).ok(), Some(2));
    assert_eq!(buf, [4, 5, 3]);
    assert_eq!(reader.read(&mut buf).ok(), Some(0));
    assert_eq!(reader.seek(1).ok(), Some(1));
    assert_eq!(reader.read(&mut buf).ok(), Some(3));
    assert_eq!(buf, [2, 3, 4]);
    assert_eq!(reader.seek(99).ok(), Some(5));
    assert!(src.list("/").is_ok());

    let empty_bytes: &'static [u8] = &[];
    let table: &'static [(&'static str, &'static [u8])] = Box::leak(vec![("e", empty_bytes)].into_boxed_slice());
    let embedded = EmbeddedAssetSource::new(table);
    let empty = embedded.open("e").ok().unwrap();
    assert!(empty.is_empty());
    assert_eq!(empty.len(), 0);
    assert!(embedded.list("/").is_ok());
}

#[test]
fn resolved_image_holds_the_source_bytes_after_eviction_too() {
    let mut src = MemoryAssetSource::new();
    src.insert("logo.raw", vec![0xAA, 0xBB, 0xCC, 0xDD]);
    src.insert("other.raw", vec![1]);
    let mut reg: AssetRegistry<1> = AssetRegistry::new();
    reg.register_source(&AssetPath::Memory(String::new()), Box::new(src)).unwrap();
    let h = reg.register(AssetPath::Memory("logo.raw".into()));
    let other = reg.register(AssetPath::Memory("other.raw".into()));
    let first = reg.resolve_image(h).ok().unwrap().data.clone();
    assert_eq!(first, ImageData::Owned(vec![0xAA, 0xBB, 0xCC, 0xDD]));
    assert!(reg.resolve_image(other).is_ok());
    let again = reg.resolve_image(h).ok().unwrap().data.clone();
    assert_eq!(again, first);
}
