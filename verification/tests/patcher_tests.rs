use snapshot_editor::checksum::adler32;
use snapshot_editor::container::{FormatVersion, Header, Section, VmStateContainer};
use snapshot_editor::patcher::{remove, replace, select, PatchError, SectionSelector};

fn sec(type_id: u32, version: u32, payload: &[u8]) -> Section {
    Section { type_id, version, payload: payload.to_vec() }
}

fn container_of(sections: Vec<Section>) -> VmStateContainer {
    VmStateContainer {
        header: Header { format_version: FormatVersion::V1, total_length: 77, checksum: 88 },
        sections,
    }
}

fn by_type(type_id: u32) -> SectionSelector {
    SectionSelector { type_id, index: None }
}

fn nth(type_id: u32, index: usize) -> SectionSelector {
    SectionSelector { type_id, index: Some(index) }
}

fn mixed() -> Vec<Section> {
    vec![
        sec(5, 1, b"a"),
        sec(9, 1, b"first"),
        sec(0xdead_beef, 4, b"unknown"),
        sec(9, 2, b"second"),
        sec(9, 3, b"third"),
    ]
}

#[test]
fn select_unique_type() {
    assert_eq!(select(&mixed(), &by_type(5)), Ok(0));
    assert_eq!(select(&mixed(), &by_type(0xdead_beef)), Ok(2));
}

#[test]
fn select_missing_type_is_not_found() {
    assert_eq!(select(&mixed(), &by_type(6)), Err(PatchError::SectionNotFound));
    assert_eq!(select(&vec![], &by_type(6)), Err(PatchError::SectionNotFound));
    assert_eq!(select(&mixed(), &nth(6, 0)), Err(PatchError::SectionNotFound));
}

#[test]
fn select_shared_type_without_index_is_ambiguous() {
    assert_eq!(select(&mixed(), &by_type(9)), Err(PatchError::AmbiguousSelector));
}

#[test]
fn select_by_index_counts_matches_in_file_order() {
    assert_eq!(select(&mixed(), &nth(9, 0)), Ok(1));
    assert_eq!(select(&mixed(), &nth(9, 1)), Ok(3));
    assert_eq!(select(&mixed(), &nth(9, 2)), Ok(4));
    assert_eq!(select(&mixed(), &nth(5, 0)), Ok(0));
}

#[test]
fn select_index_past_last_match_is_not_found() {
    assert_eq!(select(&mixed(), &nth(9, 3)), Err(PatchError::SectionNotFound));
    assert_eq!(select(&mixed(), &nth(5, 1)), Err(PatchError::SectionNotFound));
    assert_eq!(select(&mixed(), &nth(9, usize::MAX)), Err(PatchError::SectionNotFound));
}

#[test]
fn remove_deletes_only_the_selected_section() {
    let mut container = container_of(mixed());
    assert_eq!(remove(&mut container, &nth(9, 1)), Ok(()));
    assert_eq!(
        container.sections,
        vec![
            sec(5, 1, b"a"),
            sec(9, 1, b"first"),
            sec(0xdead_beef, 4, b"unknown"),
            sec(9, 3, b"third"),
        ]
    );
}

#[test]
fn remove_leaves_header_stale() {
    let mut container = container_of(mixed());
    remove(&mut container, &by_type(5)).unwrap();
    assert_eq!(container.header.total_length, 77);
    assert_eq!(container.header.checksum, 88);
}

#[test]
fn remove_failure_changes_nothing() {
    let mut container = container_of(mixed());
    assert_eq!(remove(&mut container, &by_type(9)), Err(PatchError::AmbiguousSelector));
    assert_eq!(container, container_of(mixed()));
    assert_eq!(remove(&mut container, &by_type(1)), Err(PatchError::SectionNotFound));
    assert_eq!(container, container_of(mixed()));
}

#[test]
fn replace_keeps_type_version_and_position() {
    let mut container = container_of(mixed());
    assert_eq!(replace(&mut container, &nth(9, 2), b"new payload".to_vec()), Ok(()));
    let mut expected = mixed();
    expected[4] = sec(9, 3, b"new payload");
    assert_eq!(container.sections, expected);
    assert_eq!(container.header.total_length, 77);
}

#[test]
fn replace_with_empty_payload() {
    let mut container = container_of(mixed());
    replace(&mut container, &by_type(0xdead_beef), Vec::new()).unwrap();
    assert_eq!(container.sections[2], sec(0xdead_beef, 4, b""));
}

#[test]
fn replace_failure_changes_nothing() {
    let mut container = container_of(mixed());
    assert_eq!(
        replace(&mut container, &by_type(9), b"x".to_vec()),
        Err(PatchError::AmbiguousSelector)
    );
    assert_eq!(
        replace(&mut container, &nth(5, 4), b"x".to_vec()),
        Err(PatchError::SectionNotFound)
    );
    assert_eq!(container, container_of(mixed()));
}

#[test]
fn unknown_sections_survive_edits_and_round_trip() {
    let mut container = container_of(mixed());
    remove(&mut container, &by_type(5)).unwrap();
    replace(&mut container, &nth(9, 0), b"edited".to_vec()).unwrap();
    let parsed = VmStateContainer::parse(&container.serialize().unwrap()).unwrap();
    assert_eq!(parsed.sections[1], sec(0xdead_beef, 4, b"unknown"));
    assert_eq!(
        parsed.sections,
        vec![
            sec(9, 1, b"edited"),
            sec(0xdead_beef, 4, b"unknown"),
            sec(9, 2, b"second"),
            sec(9, 3, b"third"),
        ]
    );
}

#[test]
fn remove_then_serialize_then_parse_scenario() {
    let mut container = container_of(vec![sec(1, 1, b"X"), sec(2, 1, b"YY")]);
    let before = VmStateContainer::parse(&container.serialize().unwrap()).unwrap();
    assert_eq!(before.header.total_length, 55);
    remove(&mut container, &by_type(1)).unwrap();
    let bytes = container.serialize().unwrap();
    assert_eq!(
        bytes,
        vec![
            86, 77, 83, 84, 65, 84, 69, 0, 1, 0, 0, 0, 38, 0, 0, 0, 0, 0, 0, 0, 2, 0, 0, 0, 1, 0,
            0, 0, 2, 0, 0, 0, 0, 0, 0, 0, 89, 89, 3, 3, 148, 80,
        ]
    );
    let parsed = VmStateContainer::parse(&bytes).unwrap();
    assert_eq!(parsed.sections, vec![sec(2, 1, b"YY")]);
    assert_eq!(parsed.header.total_length, 38);
    assert_eq!(parsed.header.checksum, 0x5094_0303);
    assert_eq!(parsed.header.checksum, adler32(&bytes[..38]));
    assert_ne!(parsed.header.checksum, before.header.checksum);
}
