use unitypackage::package::{EntryError, Package, PackageEntry, PackageEntryContent, RawEntry};

const ID: &[u8] = b"11111111111111111111111111111111";
const OTHER: &[u8] = b"22222222222222222222222222222222";

fn member(id: &[u8], name: &str, content: &[u8]) -> RawEntry {
    let mut path = id.to_vec();
    path.push(b'/');
    path.extend_from_slice(name.as_bytes());
    RawEntry::Entry { is_file: true, path: Some(path), content: content.to_vec() }
}

fn bytes(content: &PackageEntryContent) -> Vec<u8> {
    match content {
        PackageEntryContent::Buffer(bytes) => bytes.clone(),
        PackageEntryContent::Direct(bytes) => bytes.clone(),
    }
}

fn output(item: Option<Result<PackageEntry, EntryError>>) -> (String, Vec<u8>) {
    match item {
        Some(Ok(entry)) => (entry.path.clone(), bytes(&entry.content)),
        other => panic!("expected an output, got {:?}", other),
    }
}

fn outputs_of(entries: Vec<RawEntry>) -> Vec<(String, Vec<u8>)> {
    let mut package = Package::new(entries);
    let mut pass = package.entries().unwrap();
    let mut all = Vec::new();
    while let Some(item) = pass.next() {
        if let Ok(entry) = item {
            all.push((entry.path.clone(), bytes(&entry.content)));
        }
    }
    all
}

fn failures_of(entries: Vec<RawEntry>) -> usize {
    let mut package = Package::new(entries);
    let mut pass = package.entries().unwrap();
    let mut failed = 0;
    while let Some(item) = pass.next() {
        if item.is_err() {
            failed += 1;
        }
    }
    failed
}

fn asset() -> (String, Vec<u8>) {
    ("Foo/Bar.txt".to_string(), b"AAA".to_vec())
}

fn metadata() -> (String, Vec<u8>) {
    ("Foo/Bar.txt.meta".to_string(), b"META".to_vec())
}

fn three() -> [RawEntry; 3] {
    [
        member(ID, "pathname", b"Assets/Foo/Bar.txt"),
        member(ID, "asset", b"AAA"),
        member(ID, "asset.meta", b"META"),
    ]
}

fn ordered(order: [usize; 3]) -> Vec<RawEntry> {
    let mut slots: Vec<Option<RawEntry>> = three().into_iter().map(Some).collect();
    order.iter().map(|&i| slots[i].take().unwrap()).collect()
}

#[test]
fn pathname_first_yields_asset_then_metadata() {
    let mut package = Package::new(vec![
        member(ID, "pathname", b"Assets/Foo/Bar.txt"),
        member(ID, "asset", b"AAA"),
        member(ID, "asset.meta", b"META"),
    ]);
    let mut entries = package.entries().unwrap();
    assert_eq!(output(entries.next()), asset());
    assert_eq!(output(entries.next()), metadata());
    assert!(entries.next().is_none());
}

#[test]
fn pathname_first_passes_the_contents_on_directly() {
    let mut package = Package::new(ordered([0, 1, 2]));
    let mut entries = package.entries().unwrap();
    match entries.next() {
        Some(Ok(entry)) => assert!(matches!(entry.content, PackageEntryContent::Direct(_))),
        other => panic!("expected an output, got {:?}", other),
    }
    match entries.next() {
        Some(Ok(entry)) => assert!(matches!(entry.content, PackageEntryContent::Direct(_))),
        other => panic!("expected an output, got {:?}", other),
    }
}

#[test]
fn pathname_last_yields_asset_then_metadata_from_the_late_slot() {
    let mut package = Package::new(vec![
        member(ID, "asset", b"AAA"),
        member(ID, "asset.meta", b"META"),
        member(ID, "pathname", b"Assets/Foo/Bar.txt"),
    ]);
    let mut entries = package.entries().unwrap();
    match entries.next() {
        Some(Ok(entry)) => {
            assert_eq!(entry.path, "Foo/Bar.txt");
            assert!(matches!(&entry.content, PackageEntryContent::Buffer(b) if b == b"AAA"));
        }
        other => panic!("expected the asset, got {:?}", other),
    }
    match entries.next() {
        Some(Ok(entry)) => {
            assert_eq!(entry.path, "Foo/Bar.txt.meta");
            assert!(matches!(&entry.content, PackageEntryContent::Buffer(b) if b == b"META"));
        }
        other => panic!("expected the metadata, got {:?}", other),
    }
    assert!(entries.next().is_none());
}

#[test]
fn metadata_before_asset_still_comes_second_when_the_pathname_is_last() {
    let all = outputs_of(vec![
        member(ID, "asset.meta", b"META"),
        member(ID, "asset", b"AAA"),
        member(ID, "pathname", b"Assets/Foo/Bar.txt"),
    ]);
    assert_eq!(all, vec![asset(), metadata()]);
}

#[test]
fn pathname_alone_yields_nothing() {
    let mut package = Package::new(vec![
        member(ID, "asset", b"AAA"),
        member(OTHER, "pathname", b"Assets/Empty.txt"),
        member(ID, "asset.meta", b"META"),
        member(ID, "pathname", b"Assets/Foo/Bar.txt"),
    ]);
    let mut entries = package.entries().unwrap();
    assert_eq!(output(entries.next()), asset());
    assert_eq!(output(entries.next()), metadata());
    assert!(entries.next().is_none());
    assert!(outputs_of(vec![member(OTHER, "pathname", b"Assets/Empty.txt")]).is_empty());
    assert_eq!(failures_of(vec![member(OTHER, "pathname", b"Assets/Empty.txt")]), 0);
}

#[test]
fn every_order_of_the_three_members_yields_two_outputs() {
    let orders = [[0, 1, 2], [0, 2, 1], [1, 0, 2], [1, 2, 0], [2, 0, 1], [2, 1, 0]];
    for order in orders {
        let mut all = outputs_of(ordered(order));
        assert_eq!(all.len(), 2, "order {:?}", order);
        all.sort();
        assert_eq!(all, vec![asset(), metadata()], "order {:?}", order);
    }
}

#[test]
fn outputs_come_in_the_order_in_which_they_become_ready() {
    assert_eq!(outputs_of(ordered([0, 2, 1])), vec![metadata(), asset()]);
    assert_eq!(outputs_of(ordered([1, 0, 2])), vec![asset(), metadata()]);
    assert_eq!(outputs_of(ordered([2, 0, 1])), vec![metadata(), asset()]);
    assert_eq!(outputs_of(ordered([1, 2, 0])), vec![asset(), metadata()]);
    assert_eq!(outputs_of(ordered([2, 1, 0])), vec![asset(), metadata()]);
}

#[test]
fn other_identifiers_between_the_members_change_nothing() {
    let all = outputs_of(vec![
        member(OTHER, "asset", b"BBB"),
        member(ID, "asset.meta", b"META"),
        member(OTHER, "pathname", b"Assets/Other.bin"),
        member(ID, "pathname", b"Assets/Foo/Bar.txt"),
        member(OTHER, "asset.meta", b"OTHERMETA"),
        member(ID, "asset", b"AAA"),
    ]);
    assert_eq!(
        all,
        vec![
            ("Other.bin".to_string(), b"BBB".to_vec()),
            metadata(),
            ("Other.bin.meta".to_string(), b"OTHERMETA".to_vec()),
            asset(),
        ]
    );
}

#[test]
fn asset_without_metadata_yields_one_output() {
    assert_eq!(
        outputs_of(vec![member(ID, "asset", b"AAA"), member(ID, "pathname", b"Assets/Foo/Bar.txt")]),
        vec![asset()]
    );
    assert_eq!(
        outputs_of(vec![member(ID, "pathname", b"Assets/Foo/Bar.txt"), member(ID, "asset", b"AAA")]),
        vec![asset()]
    );
}

#[test]
fn metadata_without_asset_yields_one_output() {
    assert_eq!(
        outputs_of(vec![
            member(ID, "asset.meta", b"META"),
            member(ID, "pathname", b"Assets/Foo/Bar.txt"),
        ]),
        vec![metadata()]
    );
    assert_eq!(
        outputs_of(vec![
            member(ID, "pathname", b"Assets/Foo/Bar.txt"),
            member(ID, "asset.meta", b"META"),
        ]),
        vec![metadata()]
    );
}

#[test]
fn unreadable_pathname_yields_no_output() {
    let unreadable: &[u8] = &[b'A', 0xff, 0xfe];
    let entries = vec![
        member(ID, "asset", b"AAA"),
        member(ID, "pathname", unreadable),
        member(ID, "asset.meta", b"META"),
    ];
    assert!(outputs_of(entries).is_empty());
    let mut package = Package::new(vec![
        member(ID, "asset", b"AAA"),
        member(ID, "pathname", unreadable),
        member(ID, "asset.meta", b"META"),
    ]);
    let mut pass = package.entries().unwrap();
    match pass.next() {
        Some(Err(EntryError::Pathname { id })) => assert_eq!(id, ID.to_vec()),
        other => panic!("expected the failure of the pathname, got {:?}", other),
    }
    assert!(pass.next().is_none());
}

#[test]
fn the_pass_goes_on_after_a_failure() {
    let all = outputs_of(vec![
        RawEntry::Broken,
        member(ID, "pathname", &[0xc0]),
        RawEntry::Entry { is_file: true, path: None, content: b"x".to_vec() },
        member(OTHER, "asset", b"BBB"),
        member(OTHER, "pathname", b"Assets/Other.bin"),
    ]);
    assert_eq!(all, vec![("Other.bin".to_string(), b"BBB".to_vec())]);
}

#[test]
fn each_failure_is_reported_once() {
    let mut package = Package::new(vec![
        RawEntry::Broken,
        RawEntry::Entry { is_file: true, path: None, content: b"x".to_vec() },
        member(ID, "pathname", &[0x80]),
    ]);
    let mut pass = package.entries().unwrap();
    assert!(matches!(pass.next(), Some(Err(EntryError::Header))));
    assert!(matches!(pass.next(), Some(Err(EntryError::Path))));
    assert!(matches!(pass.next(), Some(Err(EntryError::Pathname { .. }))));
    assert!(pass.next().is_none());
    assert!(pass.next().is_none());
}

#[test]
fn preview_yields_nothing_and_no_failure() {
    let entries = vec![
        member(ID, "preview.png", b"PNG"),
        member(ID, "pathname", b"Assets/Foo/Bar.txt"),
        member(ID, "preview.png", b"PNG"),
        member(OTHER, "preview.png", b"PNG"),
    ];
    assert!(outputs_of(entries).is_empty());
    assert_eq!(failures_of(vec![member(ID, "preview.png", b"PNG")]), 0);
}

#[test]
fn contents_are_the_bytes_of_their_members() {
    let big: Vec<u8> = (0..100_000u32).map(|i| (i % 251) as u8).collect();
    let all = outputs_of(vec![
        member(ID, "asset", &big),
        member(ID, "pathname", b"Assets/big.bin"),
        member(ID, "asset.meta", &[0, 159, 146, 150, 255]),
    ]);
    assert_eq!(
        all,
        vec![
            ("big.bin".to_string(), big.clone()),
            ("big.bin.meta".to_string(), vec![0, 159, 146, 150, 255]),
        ]
    );
}

#[test]
fn pathname_without_prefix_is_kept_as_it_is() {
    assert_eq!(
        outputs_of(vec![member(ID, "asset", b"AAA"), member(ID, "pathname", b"Packages/Foo.txt")]),
        vec![("Packages/Foo.txt".to_string(), b"AAA".to_vec())]
    );
    assert_eq!(
        outputs_of(vec![member(ID, "asset", b"AAA"), member(ID, "pathname", b"assets/Foo.txt")]),
        vec![("assets/Foo.txt".to_string(), b"AAA".to_vec())]
    );
    assert_eq!(
        outputs_of(vec![member(ID, "asset.meta", b"M"), member(ID, "pathname", b"Assets")]),
        vec![("Assets.meta".to_string(), b"M".to_vec())]
    );
}

#[test]
fn only_the_leading_prefix_is_taken_off() {
    assert_eq!(
        outputs_of(vec![
            member(ID, "asset", b"AAA"),
            member(ID, "pathname", b"Assets/Assets/Foo.txt"),
        ]),
        vec![("Assets/Foo.txt".to_string(), b"AAA".to_vec())]
    );
    assert_eq!(
        outputs_of(vec![member(ID, "asset", b"AAA"), member(ID, "pathname", b"Assets/")]),
        vec![(String::new(), b"AAA".to_vec())]
    );
}

#[test]
fn pathname_may_hold_text_beyond_ascii() {
    let text = "Assets/Ünïcödé/日本語.txt";
    assert_eq!(
        outputs_of(vec![member(ID, "pathname", text.as_bytes()), member(ID, "asset.meta", b"M")]),
        vec![("Ünïcödé/日本語.txt.meta".to_string(), b"M".to_vec())]
    );
}

#[test]
fn the_last_content_before_the_pathname_wins() {
    assert_eq!(
        outputs_of(vec![
            member(ID, "asset", b"old"),
            member(ID, "asset.meta", b"META"),
            member(ID, "asset", b"AAA"),
            member(ID, "pathname", b"Assets/Foo/Bar.txt"),
        ]),
        vec![asset(), metadata()]
    );
}

#[test]
fn members_after_the_pathname_are_each_passed_on() {
    assert_eq!(
        outputs_of(vec![
            member(ID, "pathname", b"Assets/Foo/Bar.txt"),
            member(ID, "asset", b"AAA"),
            member(ID, "asset", b"AAA"),
        ]),
        vec![asset(), asset()]
    );
}

#[test]
fn an_identifier_in_error_discards_later_members() {
    let mut package = Package::new(vec![
        member(ID, "pathname", &[0xff]),
        member(ID, "asset", b"AAA"),
        member(ID, "asset.meta", b"META"),
    ]);
    let mut pass = package.entries().unwrap();
    assert!(matches!(pass.next(), Some(Err(EntryError::Pathname { .. }))));
    assert!(pass.next().is_none());
}

#[test]
fn entries_that_are_not_regular_files_are_passed_over() {
    let mut path = ID.to_vec();
    path.extend_from_slice(b"/asset");
    let entries = vec![
        RawEntry::Entry { is_file: false, path: Some(ID.to_vec()), content: Vec::new() },
        RawEntry::Entry { is_file: false, path: Some(path), content: b"dir".to_vec() },
        RawEntry::Entry { is_file: false, path: None, content: Vec::new() },
        member(ID, "pathname", b"Assets/Foo/Bar.txt"),
    ];
    assert!(outputs_of(entries).is_empty());
    assert_eq!(
        failures_of(vec![RawEntry::Entry { is_file: false, path: None, content: Vec::new() }]),
        0
    );
}

#[test]
fn paths_of_another_shape_are_passed_over() {
    let shaped = |path: &[u8]| RawEntry::Entry {
        is_file: true,
        path: Some(path.to_vec()),
        content: b"AAA".to_vec(),
    };
    let entries = vec![
        shaped(b"asset"),
        shaped(b""),
        shaped(b"./11111111111111111111111111111111/asset"),
        shaped(b"11111111111111111111111111111111/sub/asset"),
        shaped(b"11111111111111111111111111111111/asset.bak"),
        shaped(b"11111111111111111111111111111111/ASSET"),
        member(ID, "pathname", b"Assets/Foo/Bar.txt"),
    ];
    assert!(outputs_of(entries).is_empty());
}

#[test]
fn separators_that_add_no_component_do_not_count() {
    let shaped = |path: &[u8], content: &[u8]| RawEntry::Entry {
        is_file: true,
        path: Some(path.to_vec()),
        content: content.to_vec(),
    };
    let all = outputs_of(vec![
        shaped(b"11111111111111111111111111111111//asset", b"AAA"),
        shaped(b"11111111111111111111111111111111/./asset.meta/", b"META"),
        shaped(b"11111111111111111111111111111111/pathname/.", b"Assets/Foo/Bar.txt"),
    ]);
    assert_eq!(all, vec![asset(), metadata()]);
}

#[test]
fn a_package_is_gone_through_once() {
    let mut package = Package::new(vec![member(ID, "asset", b"AAA")]);
    {
        let mut pass = package.entries().unwrap();
        assert!(pass.next().is_none());
    }
    assert!(package.entries().is_err());
}

#[test]
fn a_pass_that_consumed_nothing_may_begin_again() {
    let mut package = Package::new(vec![
        member(ID, "asset", b"AAA"),
        member(ID, "pathname", b"Assets/Foo/Bar.txt"),
    ]);
    {
        let _pass = package.entries().unwrap();
    }
    let mut pass = package.entries().unwrap();
    assert_eq!(output(pass.next()), asset());
}

#[test]
fn an_empty_archive_yields_nothing() {
    let mut package = Package::new(Vec::new());
    let mut pass = package.entries().unwrap();
    assert!(pass.next().is_none());
    assert!(pass.next().is_none());
}

#[test]
fn a_second_pathname_renames_what_comes_after_it() {
    assert_eq!(
        outputs_of(vec![
            member(ID, "pathname", b"Assets/One.txt"),
            member(ID, "asset", b"1"),
            member(ID, "pathname", b"Assets/Two.txt"),
            member(ID, "asset", b"2"),
        ]),
        vec![("One.txt".to_string(), b"1".to_vec()), ("Two.txt".to_string(), b"2".to_vec())]
    );
}

#[test]
fn collect_hands_out_all_that_is_left() {
    let mut package = Package::new(vec![
        RawEntry::Broken,
        member(ID, "asset", b"AAA"),
        member(ID, "asset.meta", b"META"),
        member(ID, "pathname", b"Assets/Foo/Bar.txt"),
        member(OTHER, "pathname", &[0xff]),
    ]);
    let mut pass = package.entries().unwrap();
    assert!(matches!(pass.next(), Some(Err(EntryError::Header))));
    assert_eq!(output(pass.next()), asset());
    let rest = pass.collect();
    assert_eq!(rest.len(), 2);
    match &rest[0] {
        Ok(entry) => {
            assert_eq!(entry.path, "Foo/Bar.txt.meta");
            assert_eq!(bytes(&entry.content), b"META".to_vec());
        }
        other => panic!("expected the metadata, got {:?}", other),
    }
    assert!(matches!(&rest[1], Err(EntryError::Pathname { id }) if id == OTHER));
    assert!(pass.collect().is_empty());
    assert!(pass.next().is_none());
}
