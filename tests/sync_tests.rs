use kaya_sync::sync::{
    collection_url, download_accepted, file_url, is_tracked, listing_accepted, parse_listing,
    plan_sync, tracked_names, upload_outcome, Collection, UploadOutcome,
};

fn strings(v: &[&str]) -> Vec<String> {
    v.iter().map(|s| s.to_string()).collect()
}

fn sorted(mut v: Vec<String>) -> Vec<String> {
    v.sort();
    v
}

#[test]
fn downloads_everything_into_empty_directory() {
    let plan = plan_sync(&strings(&["a.txt", "b.txt"]), &strings(&[]));
    assert_eq!(sorted(plan.to_download), strings(&["a.txt", "b.txt"]));
    assert!(plan.to_upload.is_empty());
}

#[test]
fn uploads_local_metadata_then_settles() {
    let local = tracked_names(Collection::Meta, &strings(&["note.toml"]));
    let plan = plan_sync(&strings(&[]), &local);
    assert!(plan.to_download.is_empty());
    assert_eq!(plan.to_upload, strings(&["note.toml"]));
    let again = plan_sync(&strings(&["note.toml"]), &local);
    assert!(again.to_download.is_empty());
    assert!(again.to_upload.is_empty());
}

#[test]
fn plan_is_the_symmetric_difference() {
    let remote = strings(&["a", "b", "c", "b"]);
    let local = strings(&["b", "d", "e", "d"]);
    let plan = plan_sync(&remote, &local);
    assert_eq!(sorted(plan.to_download), strings(&["a", "c"]));
    assert_eq!(sorted(plan.to_upload), strings(&["d", "e"]));
}

#[test]
fn second_cycle_transfers_nothing() {
    let remote = strings(&["a", "b"]);
    let local = strings(&["b", "c"]);
    let plan = plan_sync(&remote, &local);
    let mut remote2 = remote.clone();
    remote2.extend(plan.to_upload.clone());
    let mut local2 = local.clone();
    local2.extend(plan.to_download.clone());
    let again = plan_sync(&remote2, &local2);
    assert!(again.to_download.is_empty());
    assert!(again.to_upload.is_empty());
}

#[test]
fn listing_is_trimmed_decoded_and_filtered() {
    let names = parse_listing("a%20b.txt\n\n  c.txt \r\n%FF%FE\nd%2Fe\n");
    assert_eq!(sorted(names), strings(&["a b.txt", "c.txt", "d/e"]));
    assert!(parse_listing("").is_empty());
}

#[test]
fn hidden_and_foreign_files_are_not_tracked() {
    assert!(!is_tracked(Collection::Anga, ".DS_Store"));
    assert!(is_tracked(Collection::Anga, "photo.png"));
    assert!(is_tracked(Collection::Meta, "x.toml"));
    assert!(!is_tracked(Collection::Meta, "x.txt"));
    assert!(!is_tracked(Collection::Meta, ".x.toml"));
    let kept = tracked_names(Collection::Meta, &strings(&["a.toml", ".b.toml", "c.md"]));
    assert_eq!(kept, strings(&["a.toml"]));
}

#[test]
fn endpoints_encode_email_and_name() {
    assert_eq!(
        collection_url("https://kaya.example/", "me@x.org", Collection::Anga),
        "https://kaya.example/api/v1/me%40x.org/anga"
    );
    assert_eq!(
        collection_url("http://h", "a b", Collection::Meta),
        "http://h/api/v1/a%20b/meta"
    );
    assert_eq!(
        file_url("http://h//", "me@x.org", Collection::Anga, "my file.txt"),
        "http://h/api/v1/me%40x.org/anga/my%20file.txt"
    );
}

#[test]
fn conflict_counts_as_uploaded() {
    assert_eq!(upload_outcome(409), UploadOutcome::AlreadyPresent);
    assert!(!upload_outcome(409).is_failure());
    assert_eq!(upload_outcome(201), UploadOutcome::Stored);
    assert!(!upload_outcome(200).is_failure());
    assert_eq!(upload_outcome(500), UploadOutcome::Rejected(500));
    assert!(upload_outcome(404).is_failure());
}

#[test]
fn status_classes() {
    assert!(download_accepted(200));
    assert!(!download_accepted(404));
    assert!(listing_accepted(204));
    assert!(!listing_accepted(401));
}
