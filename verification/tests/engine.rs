use unitypackage::member::Part;
use unitypackage::reassembly::{meta_path, strip_assets, Demand, Reassembler, Skipped};
use unitypackage::state::{AssetParts, ItemStatus, PathTable};

fn id() -> Vec<u8> {
    b"0123456789abcdef0123456789abcdef".to_vec()
}

fn path_of(member: &str) -> Vec<u8> {
    let mut path = id();
    path.push(b'/');
    path.extend_from_slice(member.as_bytes());
    path
}

fn inspect(engine: &Reassembler<Vec<u8>>, member: &str) -> Demand {
    engine.inspect(true, Some(path_of(member).as_slice()))
}

#[test]
fn a_new_engine_holds_nothing() {
    let mut engine: Reassembler<Vec<u8>> = Reassembler::new();
    assert!(!engine.has_late());
    assert!(engine.take_late().is_none());
}

#[test]
fn inspect_asks_to_buffer_while_the_path_is_unknown() {
    let engine: Reassembler<Vec<u8>> = Reassembler::new();
    match inspect(&engine, "asset") {
        Demand::Buffer { id: named, part } => {
            assert_eq!(named, id());
            assert_eq!(part, Part::Asset);
        }
        other => panic!("got {:?}", other),
    }
    match inspect(&engine, "asset.meta") {
        Demand::Buffer { id: named, part } => {
            assert_eq!(named, id());
            assert_eq!(part, Part::AssetMeta);
        }
        other => panic!("got {:?}", other),
    }
}

#[test]
fn inspect_asks_to_read_a_pathname_in_every_state() {
    let mut engine: Reassembler<Vec<u8>> = Reassembler::new();
    assert!(matches!(inspect(&engine, "pathname"), Demand::Pathname { id: named } if named == id()));
    engine.fail(id());
    assert!(matches!(inspect(&engine, "pathname"), Demand::Pathname { id: named } if named == id()));
    let _ = engine.resolve(id(), "Assets/a".to_string());
    assert!(matches!(inspect(&engine, "pathname"), Demand::Pathname { id: named } if named == id()));
}

#[test]
fn inspect_gives_the_output_path_once_the_path_is_known() {
    let mut engine: Reassembler<Vec<u8>> = Reassembler::new();
    let resolution = engine.resolve(id(), "Assets/Dir/File.png".to_string());
    assert!(resolution.prefixed);
    assert!(resolution.ready.is_none());
    assert!(matches!(inspect(&engine, "asset"), Demand::Direct { path } if path == "Dir/File.png"));
    assert!(
        matches!(inspect(&engine, "asset.meta"), Demand::Direct { path } if path == "Dir/File.png.meta")
    );
}

#[test]
fn inspect_passes_over_an_identifier_in_error() {
    let mut engine: Reassembler<Vec<u8>> = Reassembler::new();
    engine.fail(id());
    assert!(matches!(inspect(&engine, "asset"), Demand::Skip(Skipped::Failed)));
    assert!(matches!(inspect(&engine, "asset.meta"), Demand::Skip(Skipped::Failed)));
}

#[test]
fn inspect_says_why_it_passes_over() {
    let engine: Reassembler<Vec<u8>> = Reassembler::new();
    assert!(matches!(
        engine.inspect(false, Some(path_of("asset").as_slice())),
        Demand::Skip(Skipped::NotFile)
    ));
    assert!(matches!(engine.inspect(false, None), Demand::Skip(Skipped::NotFile)));
    assert!(matches!(engine.inspect(true, None), Demand::PathError));
    assert!(matches!(engine.inspect(true, Some(b"asset")), Demand::Skip(Skipped::Misshapen)));
    assert!(matches!(engine.inspect(true, Some(b"a/b/asset")), Demand::Skip(Skipped::Misshapen)));
    assert!(matches!(inspect(&engine, "preview.png"), Demand::Skip(Skipped::Preview)));
    assert!(matches!(inspect(&engine, "thumbnail"), Demand::Skip(Skipped::Unrecognized)));
}

#[test]
fn store_keeps_a_part_until_the_path_is_known() {
    let mut engine: Reassembler<Vec<u8>> = Reassembler::new();
    assert!(engine.store(id(), Part::Asset, b"AAA".to_vec()));
    let resolution = engine.resolve(id(), "Assets/Foo".to_string());
    assert_eq!(resolution.ready, Some(("Foo".to_string(), b"AAA".to_vec())));
    assert!(!engine.has_late());
}

#[test]
fn store_replaces_what_was_kept_for_the_same_part() {
    let mut engine: Reassembler<Vec<u8>> = Reassembler::new();
    assert!(engine.store(id(), Part::AssetMeta, b"one".to_vec()));
    assert!(engine.store(id(), Part::AssetMeta, b"two".to_vec()));
    let resolution = engine.resolve(id(), "Assets/Foo".to_string());
    assert_eq!(resolution.ready, Some(("Foo.meta".to_string(), b"two".to_vec())));
    assert!(engine.take_late().is_none());
}

#[test]
fn store_keeps_nothing_once_the_path_is_known_or_in_error() {
    let mut engine: Reassembler<Vec<u8>> = Reassembler::new();
    let _ = engine.resolve(id(), "Assets/Foo".to_string());
    assert!(!engine.store(id(), Part::Asset, b"AAA".to_vec()));
    let again = engine.resolve(id(), "Assets/Foo".to_string());
    assert!(again.ready.is_none());
    let mut other = b"ffff".to_vec();
    engine.fail(other.clone());
    assert!(!engine.store(other.clone(), Part::Asset, b"AAA".to_vec()));
    other.push(b'0');
    assert!(!engine.store(other, Part::Pathname, b"Assets/x".to_vec()));
}

#[test]
fn resolve_releases_the_asset_and_holds_the_metadata_back() {
    let mut engine: Reassembler<Vec<u8>> = Reassembler::new();
    assert!(engine.store(id(), Part::AssetMeta, b"META".to_vec()));
    assert!(engine.store(id(), Part::Asset, b"AAA".to_vec()));
    let resolution = engine.resolve(id(), "Assets/Foo/Bar.txt".to_string());
    assert!(resolution.prefixed);
    assert_eq!(resolution.ready, Some(("Foo/Bar.txt".to_string(), b"AAA".to_vec())));
    assert!(engine.has_late());
    assert_eq!(engine.take_late(), Some(("Foo/Bar.txt.meta".to_string(), b"META".to_vec())));
    assert!(!engine.has_late());
    assert!(engine.take_late().is_none());
}

#[test]
fn resolve_says_when_the_prefix_is_missing() {
    let mut engine: Reassembler<Vec<u8>> = Reassembler::new();
    assert!(engine.store(id(), Part::Asset, b"AAA".to_vec()));
    let resolution = engine.resolve(id(), "Elsewhere/Foo".to_string());
    assert!(!resolution.prefixed);
    assert_eq!(resolution.ready, Some(("Elsewhere/Foo".to_string(), b"AAA".to_vec())));
}

#[test]
fn resolve_after_a_failure_gives_the_path_but_no_output() {
    let mut engine: Reassembler<Vec<u8>> = Reassembler::new();
    assert!(engine.store(id(), Part::Asset, b"AAA".to_vec()));
    engine.fail(id());
    let resolution = engine.resolve(id(), "Assets/Foo".to_string());
    assert!(resolution.ready.is_none());
    assert!(matches!(inspect(&engine, "asset"), Demand::Direct { path } if path == "Foo"));
}

#[test]
fn fail_discards_what_was_kept() {
    let mut engine: Reassembler<Vec<u8>> = Reassembler::new();
    assert!(engine.store(id(), Part::Asset, b"AAA".to_vec()));
    engine.fail(id());
    assert!(matches!(inspect(&engine, "asset"), Demand::Skip(Skipped::Failed)));
}

#[test]
fn identifiers_do_not_touch_each_other() {
    let mut engine: Reassembler<Vec<u8>> = Reassembler::new();
    let one = b"one".to_vec();
    let two = b"two".to_vec();
    assert!(engine.store(one.clone(), Part::Asset, b"1".to_vec()));
    assert!(engine.store(two.clone(), Part::Asset, b"2".to_vec()));
    engine.fail(one.clone());
    let resolution = engine.resolve(two, "Assets/Two".to_string());
    assert_eq!(resolution.ready, Some(("Two".to_string(), b"2".to_vec())));
    assert!(matches!(engine.inspect(true, Some(b"one/asset")), Demand::Skip(Skipped::Failed)));
}

#[test]
fn strip_assets_takes_the_prefix_off() {
    assert_eq!(strip_assets("Assets/Foo/Bar.txt".to_string()), ("Foo/Bar.txt".to_string(), true));
    assert_eq!(strip_assets("Assets/".to_string()), (String::new(), true));
    assert_eq!(strip_assets("Assets/Assets/x".to_string()), ("Assets/x".to_string(), true));
    assert_eq!(strip_assets("Assets/é".to_string()), ("é".to_string(), true));
}

#[test]
fn strip_assets_keeps_a_text_without_the_prefix() {
    assert_eq!(strip_assets("Foo/Bar.txt".to_string()), ("Foo/Bar.txt".to_string(), false));
    assert_eq!(strip_assets(String::new()), (String::new(), false));
    assert_eq!(strip_assets("Assets".to_string()), ("Assets".to_string(), false));
    assert_eq!(strip_assets("assets/x".to_string()), ("assets/x".to_string(), false));
    assert_eq!(strip_assets("Asset/s/x".to_string()), ("Asset/s/x".to_string(), false));
    assert_eq!(strip_assets("/Assets/x".to_string()), ("/Assets/x".to_string(), false));
    assert_eq!(strip_assets("éssets/xyz".to_string()), ("éssets/xyz".to_string(), false));
}

#[test]
fn meta_path_adds_the_suffix() {
    assert_eq!(meta_path(&"Foo/Bar.txt".to_string()), "Foo/Bar.txt.meta");
    assert_eq!(meta_path(&String::new()), ".meta");
}

#[test]
fn a_table_holds_what_was_set() {
    let mut table: PathTable<Vec<u8>> = PathTable::new();
    assert!(table.get(b"a").is_none());
    assert!(table.set(b"a".to_vec(), ItemStatus::KnownPath("x".to_string())).is_none());
    assert!(matches!(table.get(b"a"), Some(ItemStatus::KnownPath(path)) if path == "x"));
    assert!(table.get(b"b").is_none());
    assert!(table.get(b"").is_none());
}

#[test]
fn set_hands_back_what_the_table_held() {
    let mut table: PathTable<Vec<u8>> = PathTable::new();
    let parts = AssetParts { asset: Some(b"AAA".to_vec()), metadata: None };
    assert!(table.set(b"a".to_vec(), ItemStatus::AwaitingPath(parts)).is_none());
    assert!(table.set(b"b".to_vec(), ItemStatus::Error).is_none());
    match table.set(b"a".to_vec(), ItemStatus::KnownPath("x".to_string())) {
        Some(ItemStatus::AwaitingPath(parts)) => {
            assert_eq!(parts.asset, Some(b"AAA".to_vec()));
            assert_eq!(parts.metadata, None);
        }
        _ => panic!("expected the parts that were set"),
    }
    assert!(matches!(table.set(b"b".to_vec(), ItemStatus::Error), Some(ItemStatus::Error)));
    assert!(matches!(table.get(b"a"), Some(ItemStatus::KnownPath(path)) if path == "x"));
}

#[test]
fn get_or_create_enters_the_initial_state() {
    let mut table: PathTable<Vec<u8>> = PathTable::new();
    match table.get_or_create(b"a".to_vec()) {
        ItemStatus::AwaitingPath(parts) => {
            assert!(parts.asset.is_none());
            assert!(parts.metadata.is_none());
            parts.metadata = Some(b"META".to_vec());
        }
        _ => panic!("expected the initial state"),
    }
    match table.get(b"a") {
        Some(ItemStatus::AwaitingPath(parts)) => {
            assert!(parts.asset.is_none());
            assert_eq!(parts.metadata, Some(b"META".to_vec()));
        }
        _ => panic!("expected what was entered"),
    }
}

#[test]
fn get_or_create_finds_what_the_table_holds() {
    let mut table: PathTable<Vec<u8>> = PathTable::new();
    let _ = table.set(b"a".to_vec(), ItemStatus::Error);
    let _ = table.set(b"b".to_vec(), ItemStatus::KnownPath("x".to_string()));
    assert!(matches!(table.get_or_create(b"a".to_vec()), ItemStatus::Error));
    assert!(matches!(table.get_or_create(b"b".to_vec()), ItemStatus::KnownPath(path) if path == "x"));
}

#[test]
fn the_initial_state_awaits_the_path_with_no_part() {
    let status: ItemStatus<Vec<u8>> = ItemStatus::default();
    match status {
        ItemStatus::AwaitingPath(parts) => {
            assert!(parts.asset.is_none());
            assert!(parts.metadata.is_none());
        }
        _ => panic!("expected the initial state"),
    }
    let parts: AssetParts<Vec<u8>> = AssetParts::default();
    assert!(parts.asset.is_none() && parts.metadata.is_none());
}
