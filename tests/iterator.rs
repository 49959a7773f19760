use gitbutler_core::branch::{Branch, BranchOwnershipClaims, Hunk, OwnershipClaim};
use gitbutler_core::ids::{BranchId, Oid};
use gitbutler_core::error::Code;
use gitbutler_core::reader::{list_branches, BranchIterator, ReadError, Reader};
use gitbutler_core::target::is_remote_ref_name;
use gitbutler_core::sessions::Repository;
use gitbutler_core::target::Target;

fn test_branch(index: usize) -> Branch {
    Branch {
        id: BranchId::from_bytes(vec![index as u8; 16]).unwrap(),
        name: format!("branch_name_{}", index),
        notes: String::new(),
        applied: true,
        upstream: Some(format!("refs/remotes/origin/upstream_{}", index)),
        upstream_head: None,
        created_timestamp_ms: index as u128,
        updated_timestamp_ms: (index + 100) as u128,
        head: Oid::parse(&format!("0123456789abcdef0123456789abcdef0123456{}", index)).unwrap(),
        tree: Oid::parse(&format!("0123456789abcdef0123456789abcdef012345{}", index + 10)).unwrap(),
        ownership: BranchOwnershipClaims::default(),
        order: index,
        selected_for_changes: Some(1),
    }
}

fn test_target(index: usize) -> Target {
    Target {
        branch: format!("refs/remotes/branch name{}/remote name {}", index, index),
        remote_url: format!("remote url {}", index),
        sha: Oid::parse(&format!("0123456789abcdef0123456789abcdef0123456{}", index)).unwrap(),
    }
}

#[test]
fn test_empty_iterator() {
    let mut repository = Repository::new();
    let session = repository.get_or_create_current_session();
    let session_reader = Reader::open(&repository, &session).unwrap();

    let iter = BranchIterator::new(&session_reader);

    assert_eq!(iter.count(), 0);
}

#[test]
fn test_iterate_all() {
    let mut repository = Repository::new();

    repository.write_default_target(&test_target(0));

    let mut branch_1 = test_branch(1);
    repository.write_branch(&mut branch_1, 1000);
    let mut branch_2 = test_branch(2);
    repository.write_branch(&mut branch_2, 1001);
    let mut branch_3 = test_branch(3);
    repository.write_branch(&mut branch_3, 1002);

    let session = repository.get_current_session().unwrap();
    let session_reader = Reader::open(&repository, &session).unwrap();

    let iter = BranchIterator::new(&session_reader).collect_all().unwrap();
    assert_eq!(iter.len(), 3);
    assert!(iter.contains(&branch_1));
    assert!(iter.contains(&branch_2));
    assert!(iter.contains(&branch_3));
}

#[test]
fn round_trip_keeps_every_field() {
    let mut repository = Repository::new();
    let mut branch = test_branch(4);
    branch.notes = "some notes, with ünïcode".to_string();
    branch.applied = false;
    branch.upstream = None;
    branch.upstream_head = Some(Oid::parse("ffffffffffffffffffffffffffffffffffffffff").unwrap());
    branch.selected_for_changes = Some(-3);
    branch.order = usize::MAX;
    branch.ownership = BranchOwnershipClaims {
        claims: vec![
            OwnershipClaim {
                file_path: "src/main.rs".to_string(),
                hunks: vec![Hunk { start: 1, end: 3 }, Hunk { start: 10, end: u32::MAX }],
            },
            OwnershipClaim { file_path: "README".to_string(), hunks: vec![] },
        ],
    };
    repository.write_branch(&mut branch, 5000);
    let session = repository.get_current_session().unwrap();
    let reader = Reader::open(&repository, &session).unwrap();
    let items = BranchIterator::new(&reader).collect_all().unwrap();
    assert_eq!(items, vec![branch]);
}

#[test]
fn new_session_before_writes_is_empty() {
    let mut repository = Repository::new();
    let mut b = test_branch(1);
    repository.write_branch(&mut b, 10);
    repository.finalize_current_session();
    assert!(repository.get_current_session().is_none());
    let session = repository.get_or_create_current_session();
    let reader = Reader::open(&repository, &session).unwrap();
    assert_eq!(BranchIterator::new(&reader).count(), 0);
    assert_eq!(reader.read_default_target(), Err(ReadError::NotFound));
}

#[test]
fn end_to_end_three_branches() {
    let mut repository = Repository::new();
    let session = repository.get_or_create_current_session();
    let mut b1 = test_branch(1);
    b1.order = 0;
    let mut b2 = test_branch(2);
    b2.order = 1;
    let mut b3 = test_branch(3);
    b3.order = 2;
    repository.write_branch(&mut b1, 1);
    repository.write_branch(&mut b2, 2);
    repository.write_branch(&mut b3, 3);
    let reader = Reader::open(&repository, &session).unwrap();
    let items = BranchIterator::new(&reader).collect_all().unwrap();
    assert_eq!(items.len(), 3);
    assert!(items.contains(&b1) && items.contains(&b2) && items.contains(&b3));
}

#[test]
fn many_branches_any_order() {
    let mut repository = Repository::new();
    let mut written = Vec::new();
    for index in [7usize, 3, 9, 1, 5] {
        let mut b = test_branch(index);
        repository.write_branch(&mut b, 100);
        written.push(b);
    }
    let session = repository.get_current_session().unwrap();
    let reader = Reader::open(&repository, &session).unwrap();
    let items = BranchIterator::new(&reader).collect_all().unwrap();
    assert_eq!(items.len(), written.len());
    for b in &written {
        assert_eq!(items.iter().filter(|x| x.id == b.id).count(), 1);
        assert!(items.contains(b));
    }
}

#[test]
fn overwrite_keeps_second_write() {
    let mut repository = Repository::new();
    let mut b = test_branch(2);
    b.name = "first".to_string();
    repository.write_branch(&mut b, 500);
    let first_update = b.updated_timestamp_ms;
    assert_eq!(first_update, 500);
    b.name = "second".to_string();
    repository.write_branch(&mut b, 400);
    assert!(b.updated_timestamp_ms > first_update);
    assert_eq!(b.updated_timestamp_ms, 501);
    let session = repository.get_current_session().unwrap();
    let reader = Reader::open(&repository, &session).unwrap();
    let items = BranchIterator::new(&reader).collect_all().unwrap();
    assert_eq!(items.len(), 1);
    assert_eq!(items[0].name, "second");
    assert_eq!(items[0], b);
}

#[test]
fn update_time_never_precedes_creation() {
    let mut repository = Repository::new();
    let mut b = test_branch(1);
    b.created_timestamp_ms = 9000;
    b.updated_timestamp_ms = 9000;
    repository.write_branch(&mut b, 10);
    assert_eq!(b.updated_timestamp_ms, 9001);
}

#[test]
fn corrupt_record_is_isolated() {
    let mut repository = Repository::new();
    let mut a = test_branch(1);
    let mut c = test_branch(3);
    repository.write_branch(&mut a, 1);
    let mut bad = gitbutler_core::branch::encode_branch(&test_branch(2));
    bad.order = b"not a number".to_vec();
    repository.put_branch_record(bad);
    repository.write_branch(&mut c, 2);
    let session = repository.get_current_session().unwrap();
    let reader = Reader::open(&repository, &session).unwrap();
    let results = BranchIterator::new(&reader).results();
    assert_eq!(results.len(), 3);
    assert_eq!(results.iter().filter(|r| r.is_ok()).count(), 2);
    assert_eq!(results[1], Err(ReadError::Parse));
    assert_eq!(results[0], Ok(a));
    assert_eq!(results[2], Ok(c));
    assert_eq!(BranchIterator::new(&reader).collect_all(), Err(ReadError::Parse));
}

#[test]
fn iterator_steps_past_errors() {
    let mut repository = Repository::new();
    let mut bad = gitbutler_core::branch::encode_branch(&test_branch(2));
    bad.name = vec![0xff, 0xfe];
    repository.put_branch_record(bad);
    let mut ok = test_branch(4);
    repository.write_branch(&mut ok, 7);
    let session = repository.get_current_session().unwrap();
    let reader = Reader::open(&repository, &session).unwrap();
    let mut it = BranchIterator::new(&reader);
    assert_eq!(it.next(), Some(Err(ReadError::Parse)));
    assert_eq!(it.next(), Some(Ok(ok)));
    assert_eq!(it.next(), None);
}

#[test]
fn target_last_write_wins() {
    let mut repository = Repository::new();
    repository.write_default_target(&test_target(1));
    repository.write_default_target(&test_target(2));
    let session = repository.get_current_session().unwrap();
    let reader = Reader::open(&repository, &session).unwrap();
    let target = reader.read_default_target().unwrap();
    assert_eq!(target, test_target(2));
    assert_eq!(target.remote_url, "remote url 2");
}

#[test]
fn open_unknown_session_is_not_found() {
    let repository = Repository::new();
    let session = gitbutler_core::sessions::Session { id: 3 };
    assert!(matches!(Reader::open(&repository, &session), Err(ReadError::NotFound)));
}

#[test]
fn writes_advance_history() {
    let mut repository = Repository::new();
    let mut b = test_branch(1);
    repository.write_branch(&mut b, 1);
    repository.write_branch(&mut b, 1);
    repository.write_default_target(&test_target(1));
    assert_eq!(repository.sessions[0].generation, 3);
    assert_eq!(repository.sessions[0].branches.len(), 1);
}

#[test]
fn walk_follows_identifier_order() {
    let mut repository = Repository::new();
    for index in [9usize, 1, 5] {
        let mut b = test_branch(index);
        repository.write_branch(&mut b, 1);
    }
    let session = repository.get_current_session().unwrap();
    let reader = Reader::open(&repository, &session).unwrap();
    let items = BranchIterator::new(&reader).collect_all().unwrap();
    let orders: Vec<usize> = items.iter().map(|b| b.order).collect();
    assert_eq!(orders, vec![1, 5, 9]);
}

#[test]
fn delete_removes_from_open_session_only() {
    let mut repository = Repository::new();
    let mut a = test_branch(1);
    let mut b = test_branch(2);
    repository.write_branch(&mut a, 1);
    repository.write_branch(&mut b, 1);
    let first = repository.get_current_session().unwrap();
    repository.finalize_current_session();
    repository.write_branch(&mut a, 2);
    repository.write_branch(&mut b, 2);
    repository.delete_branch(&a.id);
    let second = repository.get_current_session().unwrap();
    assert_ne!(first, second);
    let reader = Reader::open(&repository, &second).unwrap();
    assert_eq!(BranchIterator::new(&reader).collect_all().unwrap(), vec![b.clone()]);
    let old_reader = Reader::open(&repository, &first).unwrap();
    assert_eq!(BranchIterator::new(&old_reader).count(), 2);
    repository.delete_branch(&a.id);
    assert_eq!(repository.sessions[1].branches.len(), 1);
}

#[test]
fn listing_maps_read_errors() {
    let mut repository = Repository::new();
    let mut a = test_branch(1);
    repository.write_branch(&mut a, 1);
    let session = repository.get_current_session().unwrap();
    {
        let reader = Reader::open(&repository, &session).unwrap();
        assert_eq!(list_branches(&reader).unwrap(), vec![a.clone()]);
    }
    let mut bad = gitbutler_core::branch::encode_branch(&test_branch(2));
    bad.head = b"xyz".to_vec();
    repository.put_branch_record(bad);
    let reader = Reader::open(&repository, &session).unwrap();
    let e = list_branches(&reader).unwrap_err();
    assert_eq!(e.code(), Code::Validation);
    assert_eq!(e.message(), "Malformed record");
    let n = ReadError::NotFound.into_user_error();
    assert_eq!(n.code(), Code::Branches);
    assert_eq!(n.message(), "Not found");
}

#[test]
fn remote_ref_names() {
    assert!(is_remote_ref_name("refs/remotes/origin/main"));
    assert!(is_remote_ref_name("refs/remotes/origin/feature/x"));
    assert!(!is_remote_ref_name("refs/remotes/origin/"));
    assert!(!is_remote_ref_name("refs/remotes//main"));
    assert!(!is_remote_ref_name("refs/remotes/origin"));
    assert!(!is_remote_ref_name("refs/heads/origin/main"));
    assert!(is_remote_ref_name(&test_target(3).branch));
}

#[test]
fn well_formedness_check() {
    let mut repository = Repository::new();
    assert!(repository.is_well_formed());
    let mut a = test_branch(2);
    let mut b = test_branch(1);
    repository.write_branch(&mut a, 1);
    repository.write_branch(&mut b, 1);
    assert!(repository.is_well_formed());
    repository.sessions[0].branches.swap(0, 1);
    assert!(!repository.is_well_formed());
    repository.sessions[0].branches.swap(0, 1);
    repository.current = Some(5);
    assert!(!repository.is_well_formed());
}

#[test]
fn update_time_at_the_largest_value_stays() {
    let mut repository = Repository::new();
    let mut b = test_branch(1);
    b.updated_timestamp_ms = u128::MAX;
    repository.write_branch(&mut b, 3);
    assert_eq!(b.updated_timestamp_ms, u128::MAX);
    let session = repository.get_current_session().unwrap();
    let reader = Reader::open(&repository, &session).unwrap();
    assert_eq!(BranchIterator::new(&reader).collect_all().unwrap(), vec![b]);
}

#[test]
fn rewrite_of_a_copy_is_stamped_after_the_stored_write() {
    let mut repository = Repository::new();
    let mut first = test_branch(6);
    first.created_timestamp_ms = 0;
    first.updated_timestamp_ms = 0;
    let mut second = first.clone();
    second.name = "renamed".to_string();
    repository.write_branch(&mut first, 5);
    assert_eq!(first.updated_timestamp_ms, 5);
    repository.write_branch(&mut second, 5);
    assert_eq!(second.updated_timestamp_ms, 6);
    let session = repository.get_current_session().unwrap();
    let reader = Reader::open(&repository, &session).unwrap();
    let items = BranchIterator::new(&reader).collect_all().unwrap();
    assert_eq!(items, vec![second]);
}
