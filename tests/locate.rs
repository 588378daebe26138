use losrs::locator::{find_graph_root, find_page_files, DirEntry, PathFacts};
use losrs::select::{parse_fingerprint_or_id, parse_hex, CardId};
use losrs::identity::Fingerprint;
use losrs::side_store::SideStore;
use losrs::storage::StorageError;

fn file_facts(parent: Option<Option<&str>>, grandparent: Option<&str>) -> PathFacts {
    PathFacts {
        exists: true,
        is_dir: false,
        parent_name: parent.map(|p| p.map(|s| s.to_string())),
        grandparent: grandparent.map(|s| s.to_string()),
        pages_dir_exists: false,
        pages_entries: Vec::new(),
    }
}

fn chars(s: &str) -> Vec<char> {
    s.chars().collect()
}

#[test]
fn missing_path_is_not_found() {
    let mut f = file_facts(None, None);
    f.exists = false;
    assert!(matches!(find_page_files("/nowhere", &f), Err(StorageError::NotFound { .. })));
}

#[test]
fn directory_without_pages_is_invalid_layout() {
    let mut f = file_facts(None, None);
    f.is_dir = true;
    assert!(matches!(find_graph_root("/tmp", &f), Err(StorageError::InvalidLayout { .. })));
}

#[test]
fn file_in_pages_has_a_root() {
    let f = file_facts(Some(Some("pages")), Some("/graph"));
    assert_eq!(find_graph_root("/graph/pages/a.md", &f).unwrap(), Some("/graph".to_string()));
    assert_eq!(find_page_files("/graph/pages/a.md", &f).unwrap(), vec!["/graph/pages/a.md".to_string()]);
}

#[test]
fn file_elsewhere_has_no_root() {
    let f = file_facts(Some(Some("notes")), Some("/home"));
    assert_eq!(find_graph_root("/home/notes/a.md", &f).unwrap(), None);
    assert_eq!(find_page_files("/home/notes/a.md", &f).unwrap(), vec!["/home/notes/a.md".to_string()]);
}

#[test]
fn graph_root_lists_md_files_only() {
    let f = PathFacts {
        exists: true,
        is_dir: true,
        parent_name: None,
        grandparent: None,
        pages_dir_exists: true,
        pages_entries: vec![
            DirEntry { path: "/g/pages/x.md".to_string(), is_file: true, extension: Some("md".to_string()) },
            DirEntry { path: "/g/pages/sub.md".to_string(), is_file: false, extension: Some("md".to_string()) },
            DirEntry { path: "/g/pages/README".to_string(), is_file: true, extension: None },
        ],
    };
    assert_eq!(find_graph_root("/g", &f).unwrap(), Some("/g".to_string()));
    assert_eq!(find_page_files("/g", &f).unwrap(), vec!["/g/pages/x.md".to_string()]);
}

#[test]
fn card_ids_read_as_hex_or_serial() {
    assert_eq!(parse_fingerprint_or_id(&chars("0xb9de554a02212aca")), Some(CardId::Fingerprint(Fingerprint(0xb9de554a02212aca))));
    assert_eq!(parse_fingerprint_or_id(&chars("42")), Some(CardId::SerialNum(42)));
    assert_eq!(parse_fingerprint_or_id(&chars("0xZZ")), None);
    assert_eq!(parse_fingerprint_or_id(&chars("forty")), None);
    assert_eq!(parse_hex(&chars("0x0xFF")), Some(Fingerprint(255)));
    assert_eq!(parse_hex(&chars("0x")), None);
    assert_eq!(parse_hex(&chars("0x1ffffffffffffffff")), None);
}

#[test]
fn side_store_text_is_ordered_and_last_record_wins() {
    let a = "{\"serial_number\":5,\"scheduling_state\":{\"due\":\"2025-01-01T00:00:00Z\",\"stability\":1.5,\"difficulty\":5.0,\"elapsed_days\":0,\"scheduled_days\":1,\"reps\":1,\"lapses\":0,\"state\":\"Learning\",\"last_review\":\"2024-12-31T00:00:00Z\"}}";
    let b = "{\"serial_number\":2,\"scheduling_state\":{\"due\":\"2025-01-02T00:00:00Z\",\"stability\":2.0,\"difficulty\":5.0,\"elapsed_days\":1,\"scheduled_days\":2,\"reps\":2,\"lapses\":0,\"state\":\"Review\",\"last_review\":\"2025-01-01T00:00:00Z\"}}";
    let c = "{\"serial_number\":5,\"scheduling_state\":{\"due\":\"2025-01-03T00:00:00Z\",\"stability\":3.0,\"difficulty\":5.0,\"elapsed_days\":1,\"scheduled_days\":3,\"reps\":3,\"lapses\":0,\"state\":\"Review\",\"last_review\":\"2025-01-02T00:00:00Z\"}}";
    let store = SideStore::from_text(&format!("{}\n{}\n\n{}\n", a, b, c)).unwrap();
    assert_eq!(store.len(), 2);
    assert_eq!(store.get(5).unwrap().reps, 3);
    assert_eq!(store.get(2).unwrap().reps, 2);
    assert_eq!(store.get(7), None);
    let out = store.to_text();
    let first: Vec<&str> = out.lines().collect();
    assert!(first[0].starts_with("{\"serial_number\":2,"));
    assert!(first[1].starts_with("{\"serial_number\":5,\"scheduling_state\":{\"due\":\"2025-01-03T00:00:00Z\",\"stability\":3.0,"));
    assert_eq!(SideStore::from_text("").unwrap().len(), 0);
    assert_eq!(SideStore::from_text(&format!("{}\nnot json\n", a)).err(), Some(2));
}

#[test]
fn file_whose_parent_has_no_name_stands_for_itself() {
    let f = file_facts(Some(None), None);
    assert_eq!(find_page_files("page.md", &f).unwrap(), vec!["page.md".to_string()]);
    assert_eq!(find_graph_root("page.md", &f).unwrap(), None);
    let g = file_facts(None, None);
    assert_eq!(find_page_files("/", &g).unwrap(), vec!["/".to_string()]);
}
