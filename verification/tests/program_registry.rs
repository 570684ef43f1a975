use ginkgo_kernel::program_registry::encoding::{encode, EncodeEntry};
use ginkgo_kernel::program_registry::entry::{
    Entry, EntryFlags, Field, ParseError, MAX_APP_ID_LEN, MAX_DISPLAY_NAME_LEN, MAX_ENTRIES,
    MAX_EXECUTABLE_PATH_LEN, VERSION,
};
use ginkgo_kernel::program_registry::parsing::Registry;

type RawEntry<'a> = (&'a [u8], &'a [u8], &'a [u8], u16);
type InvalidUtf8Case<'a> = (&'a [u8], &'a [u8], &'a [u8], Field);

fn files() -> EncodeEntry<'static> {
    EncodeEntry {
        app_id: "org.ginkgo.files",
        display_name: "Files",
        executable_path: "/system/bin/files",
        flags: EntryFlags::empty(),
    }
}

fn settings() -> EncodeEntry<'static> {
    EncodeEntry {
        app_id: "org.ginkgo.settings",
        display_name: "Settings",
        executable_path: "/system/bin/settings",
        flags: EntryFlags::hidden(),
    }
}

fn raw_registry(entries: &[RawEntry<'_>]) -> Vec<u8> {
    let mut bytes = Vec::new();
    bytes.extend_from_slice(b"GKR\0");
    bytes.extend_from_slice(&VERSION.to_le_bytes());
    bytes.extend_from_slice(&0u16.to_le_bytes());
    bytes.extend_from_slice(&(entries.len() as u32).to_le_bytes());
    for (app_id, display_name, path, flags) in entries {
        bytes.extend_from_slice(&(app_id.len() as u16).to_le_bytes());
        bytes.extend_from_slice(&(display_name.len() as u16).to_le_bytes());
        bytes.extend_from_slice(&(path.len() as u16).to_le_bytes());
        bytes.extend_from_slice(&flags.to_le_bytes());
        bytes.extend_from_slice(app_id);
        bytes.extend_from_slice(display_name);
        bytes.extend_from_slice(path);
    }
    bytes
}

#[test]
fn parses_and_borrows_valid_entries() {
    let bytes = encode(&[files(), settings()]).unwrap();
    let registry = Registry::parse(&bytes).unwrap();
    let entries: Vec<_> = registry.entries().collect();

    assert_eq!(registry.version(), VERSION);
    assert_eq!(registry.len(), 2);
    assert!(!registry.is_empty());
    assert_eq!(entries[0].app_id, files().app_id);
    assert_eq!(entries[0].display_name, files().display_name);
    assert_eq!(entries[0].executable_path, files().executable_path);
    assert!(entries[0].flags.is_empty());
    assert!(entries[1].flags.contains(EntryFlags::hidden()));
}

#[test]
fn parses_empty_registry() {
    let bytes = encode(&[]).unwrap();
    let registry = Registry::parse(&bytes).unwrap();
    assert!(registry.is_empty());
    assert_eq!(registry.entries().next(), None);
}

#[test]
fn filters_hidden_entries_without_reordering_visible_entries() {
    let terminal = EncodeEntry {
        app_id: "org.ginkgo.terminal",
        display_name: "Terminal",
        executable_path: "/system/bin/terminal",
        flags: EntryFlags::empty(),
    };
    let bytes = encode(&[files(), settings(), terminal]).unwrap();
    let registry = Registry::parse(&bytes).unwrap();
    let visible: Vec<_> = registry
        .visible_entries()
        .collect()
        .into_iter()
        .map(|entry| entry.app_id)
        .collect();

    assert_eq!(visible, vec!["org.ginkgo.files", "org.ginkgo.terminal"]);
}

#[test]
fn rejects_every_truncation_of_a_nonempty_registry() {
    let bytes = encode(&[files()]).unwrap();
    for end in 0..bytes.len() {
        assert!(
            Registry::parse(&bytes[..end]).is_err(),
            "accepted length {end}"
        );
    }
    assert!(Registry::parse(&bytes).is_ok());
}

#[test]
fn distinguishes_truncated_header_entry_header_and_entry_data() {
    let bytes = encode(&[files()]).unwrap();
    assert_eq!(
        Registry::parse(&bytes[..11]),
        Err(ParseError::TruncatedHeader)
    );
    assert_eq!(
        Registry::parse(&bytes[..19]),
        Err(ParseError::TruncatedEntryHeader { index: 0 })
    );
    assert_eq!(
        Registry::parse(&bytes[..20]),
        Err(ParseError::TruncatedEntryData { index: 0 })
    );
}

#[test]
fn rejects_bad_magic_version_header_flags_and_entry_count() {
    let bytes = encode(&[]).unwrap();

    let mut bad_magic = bytes.clone();
    bad_magic[0] = b'X';
    assert_eq!(Registry::parse(&bad_magic), Err(ParseError::BadMagic));

    let mut bad_version = bytes.clone();
    bad_version[4..6].copy_from_slice(&2u16.to_le_bytes());
    assert_eq!(
        Registry::parse(&bad_version),
        Err(ParseError::UnsupportedVersion(2))
    );

    let mut bad_header_flags = bytes.clone();
    bad_header_flags[6..8].copy_from_slice(&1u16.to_le_bytes());
    assert_eq!(
        Registry::parse(&bad_header_flags),
        Err(ParseError::UnknownHeaderFlags(1))
    );

    let mut too_many = bytes;
    too_many[8..12].copy_from_slice(&(MAX_ENTRIES + 1).to_le_bytes());
    assert_eq!(
        Registry::parse(&too_many),
        Err(ParseError::TooManyEntries {
            count: MAX_ENTRIES + 1,
            maximum: MAX_ENTRIES,
        })
    );
}

#[test]
fn rejects_trailing_data() {
    let mut bytes = encode(&[files()]).unwrap();
    bytes.push(0);
    assert_eq!(Registry::parse(&bytes), Err(ParseError::TrailingData));
}

#[test]
fn rejects_duplicate_app_ids() {
    let bytes = raw_registry(&[
        (b"org.ginkgo.files", b"Files", b"/bin/files", 0),
        (b"org.ginkgo.files", b"Other Files", b"/bin/other-files", 0),
    ]);
    assert_eq!(
        Registry::parse(&bytes),
        Err(ParseError::DuplicateAppId {
            first_index: 0,
            duplicate_index: 1,
        })
    );
    assert_eq!(
        encode(&[files(), files()]),
        Err(ParseError::DuplicateAppId {
            first_index: 0,
            duplicate_index: 1,
        })
    );
}

#[test]
fn rejects_invalid_utf8_in_each_field() {
    let cases: &[InvalidUtf8Case<'_>] = &[
        (&[0xff], b"Files", b"/bin/files", Field::AppId),
        (
            b"org.ginkgo.files",
            &[0xff],
            b"/bin/files",
            Field::DisplayName,
        ),
        (
            b"org.ginkgo.files",
            b"Files",
            &[0xff],
            Field::ExecutablePath,
        ),
    ];

    for &(app_id, display_name, path, field) in cases {
        let bytes = raw_registry(&[(app_id, display_name, path, 0)]);
        assert_eq!(
            Registry::parse(&bytes),
            Err(ParseError::InvalidUtf8 { index: 0, field })
        );
    }
}

#[test]
fn rejects_invalid_app_ids() {
    let invalid = [
        "",
        ".org.ginkgo",
        "org..ginkgo",
        "org.ginkgo.",
        "Org.ginkgo.files",
        "org.ginkgo.file_system",
        "org.ginkgo.-files",
        "org.ginkgo.files-",
        "org.ginkgo.café",
    ];

    for app_id in invalid {
        let bytes = raw_registry(&[(app_id.as_bytes(), b"App", b"/bin/app", 0)]);
        assert_eq!(
            Registry::parse(&bytes),
            Err(ParseError::InvalidAppId { index: 0 }),
            "accepted {app_id:?}"
        );
    }
}

#[test]
fn rejects_empty_whitespace_and_control_character_display_names() {
    for display_name in ["", "   ", "Bad\nName", "Bad\0Name"] {
        let bytes =
            raw_registry(&[(b"org.ginkgo.app", display_name.as_bytes(), b"/bin/app", 0)]);
        assert_eq!(
            Registry::parse(&bytes),
            Err(ParseError::InvalidDisplayName { index: 0 })
        );
    }
}

#[test]
fn rejects_invalid_or_unnormalized_executable_paths() {
    let invalid = [
        "",
        "/",
        "bin/app",
        "/bin/",
        "/bin//app",
        "/bin/./app",
        "/bin/../app",
        "/bin\\app",
        "/bin/app\0suffix",
        "/bin/app\nsuffix",
    ];

    for path in invalid {
        let bytes = raw_registry(&[(b"org.ginkgo.app", b"App", path.as_bytes(), 0)]);
        assert_eq!(
            Registry::parse(&bytes),
            Err(ParseError::InvalidExecutablePath { index: 0 }),
            "accepted {path:?}"
        );
    }
}

#[test]
fn accepts_unicode_display_names_and_paths() {
    let entry = EncodeEntry {
        app_id: "org.ginkgo.calculator",
        display_name: "Calculatrice 🧮",
        executable_path: "/applications/calculatrice-🧮",
        flags: EntryFlags::empty(),
    };
    let bytes = encode(&[entry]).unwrap();
    assert_eq!(
        Registry::parse(&bytes).unwrap().entries().next(),
        Some(Entry {
            app_id: entry.app_id,
            display_name: entry.display_name,
            executable_path: entry.executable_path,
            flags: entry.flags,
        })
    );
}

#[test]
fn rejects_unknown_entry_flags() {
    let bytes = raw_registry(&[(b"org.ginkgo.app", b"App", b"/bin/app", 0x8000)]);
    assert_eq!(
        Registry::parse(&bytes),
        Err(ParseError::UnknownEntryFlags {
            index: 0,
            bits: 0x8000,
        })
    );
    assert_eq!(EntryFlags::from_bits(0x8000), None);
}

#[test]
fn rejects_fields_over_semantic_length_limits() {
    let long_display = vec![b'a'; MAX_DISPLAY_NAME_LEN + 1];
    let bytes = raw_registry(&[(b"org.ginkgo.app", &long_display, b"/bin/app", 0)]);
    assert_eq!(
        Registry::parse(&bytes),
        Err(ParseError::FieldTooLong {
            index: 0,
            field: Field::DisplayName,
            length: MAX_DISPLAY_NAME_LEN + 1,
            maximum: MAX_DISPLAY_NAME_LEN,
        })
    );

    let long_path = "/a".repeat((MAX_EXECUTABLE_PATH_LEN / 2) + 1);
    let entry = EncodeEntry {
        app_id: "org.ginkgo.app",
        display_name: "App",
        executable_path: &long_path,
        flags: EntryFlags::empty(),
    };
    assert_eq!(
        encode(&[entry]),
        Err(ParseError::FieldTooLong {
            index: 0,
            field: Field::ExecutablePath,
            length: long_path.len(),
            maximum: MAX_EXECUTABLE_PATH_LEN,
        })
    );
}

#[test]
fn declared_field_lengths_cannot_run_past_input() {
    let mut bytes = encode(&[files()]).unwrap();
    bytes[12..14].copy_from_slice(&u16::MAX.to_le_bytes());
    assert_eq!(
        Registry::parse(&bytes),
        Err(ParseError::FieldTooLong {
            index: 0,
            field: Field::AppId,
            length: u16::MAX as usize,
            maximum: MAX_APP_ID_LEN,
        })
    );

    let mut bytes = encode(&[files()]).unwrap();
    bytes[16..18].copy_from_slice(&100u16.to_le_bytes());
    assert_eq!(
        Registry::parse(&bytes),
        Err(ParseError::TruncatedEntryData { index: 0 })
    );
}

#[test]
fn what_is_encoded_is_read_back() {
    let bytes = encode(&[files(), settings()]).unwrap();
    assert_eq!(&bytes[..12], b"GKR\0\x01\0\0\0\x02\0\0\0");
    let registry = Registry::parse(&bytes).unwrap();
    let entries = registry.entries().collect();
    assert_eq!(entries.len(), 2);
    assert_eq!(entries[1].display_name, "Settings");
    assert!(entries[0].is_visible() && !entries[1].is_visible());
}

#[test]
fn flags_combine() {
    let hidden = EntryFlags::hidden();
    assert_eq!(EntryFlags::from_bits(hidden.bits()), Some(hidden));
    assert_eq!(EntryFlags::empty().union(hidden), hidden);
    assert!(EntryFlags::default().is_empty());
}

#[test]
fn what_is_read_is_encoded_as_it_stood() {
    let bytes = raw_registry(&[
        (b"org.ginkgo.files", b"Files", b"/system/bin/files", 0),
        (b"org.ginkgo.notes", b"Notes", b"/system/bin/notes", 1),
    ]);
    let registry = Registry::parse(&bytes).unwrap();
    let entries: Vec<EncodeEntry<'_>> = registry
        .entries()
        .collect()
        .into_iter()
        .map(|entry| EncodeEntry {
            app_id: entry.app_id,
            display_name: entry.display_name,
            executable_path: entry.executable_path,
            flags: entry.flags,
        })
        .collect();
    assert_eq!(encode(&entries), Ok(bytes));
}

#[test]
fn a_copy_of_a_walk_goes_on_by_itself() {
    let bytes = encode(&[files(), settings()]).unwrap();
    let registry = Registry::parse(&bytes).unwrap();
    let mut walk = registry.entries();
    let copy = walk.clone();
    assert_eq!(walk.next().unwrap().app_id, files().app_id);
    assert_eq!(walk.next().unwrap().app_id, settings().app_id);
    assert_eq!(walk.next(), None);
    assert_eq!(copy.len(), 2);
    assert_eq!(copy.collect()[0].app_id, files().app_id);

    let mut visible = registry.visible_entries();
    let rest = visible.clone();
    assert!(visible.next().is_some());
    assert!(visible.next().is_none());
    assert_eq!(rest.collect().len(), 1);
}
