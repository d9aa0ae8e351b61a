use tag_sync::site::{Submission, SubmissionSite};
use tag_sync::tags::{parse_query, query_submissions, tag_display, update_tags};

fn sub(id: i32, tags: &[&str]) -> Submission {
    Submission {
        id,
        site: SubmissionSite::FurAffinity,
        title: "test".to_string(),
        posted_at: chrono::Local::now().timestamp(),
        tags: tags.iter().map(|t| t.to_string()).collect(),
    }
}

fn strings(v: &[&str]) -> Vec<String> {
    v.iter().map(|t| t.to_string()).collect()
}

#[test]
fn test_query_submissions() {
    let submissions = vec![
        Submission {
            id: 1,
            site: SubmissionSite::FurAffinity,
            title: "test".to_string(),
            posted_at: chrono::Local::now().timestamp(),
            tags: vec!["tag1".to_string(), "tag2".to_string()],
        },
        Submission {
            id: 2,
            site: SubmissionSite::FurAffinity,
            title: "test".to_string(),
            posted_at: chrono::Local::now().timestamp(),
            tags: vec!["tag3".to_string()],
        },
        Submission {
            id: 3,
            site: SubmissionSite::FurAffinity,
            title: "test".to_string(),
            posted_at: chrono::Local::now().timestamp(),
            tags: vec!["tag1".to_string(), "tag4".to_string()],
        },
    ];

    let items = query_submissions(&submissions, "tag1 -tag4");
    assert_eq!(items.iter().map(|sub| sub.id).collect::<Vec<_>>(), vec![1]);

    let items = query_submissions(&submissions, "tag1 tag2");
    assert_eq!(items.iter().map(|sub| sub.id).collect::<Vec<_>>(), vec![1]);

    let items = query_submissions(&submissions, "tag1");
    assert_eq!(
        items.iter().map(|sub| sub.id).collect::<Vec<_>>(),
        vec![1, 3]
    );
}

#[test]
fn test_update_tags() {
    let tags = vec!["tag1".to_string(), "tag2".to_string()];
    let new_tags = update_tags(&tags, "tag3 -tag2");
    assert_eq!(new_tags, vec!["tag1".to_string(), "tag3".to_string()]);
}

#[test]
fn query_ignores_case_of_query_and_tags() {
    let submissions = vec![sub(1, &["Tag1", "TAG2"]), sub(2, &["tag1"]), sub(3, &["tag2"])];
    let items = query_submissions(&submissions, "TAG1 -tag2");
    assert_eq!(items.iter().map(|s| s.id).collect::<Vec<_>>(), vec![2]);
    let items = query_submissions(&submissions, "tAg2");
    assert_eq!(items.iter().map(|s| s.id).collect::<Vec<_>>(), vec![1, 3]);
}

#[test]
fn query_with_tag_both_required_and_excluded_matches_nothing() {
    let submissions = vec![sub(1, &["Fox"]), sub(2, &["wolf"])];
    let items = query_submissions(&submissions, "FOX -fox");
    assert!(items.is_empty());
    let q = parse_query("FOX -Fox Wolf");
    assert_eq!(q.required, strings(&["fox", "wolf"]));
    assert_eq!(q.excluded, strings(&["fox"]));
}

#[test]
fn empty_query_token_requires_empty_tag() {
    let submissions = vec![sub(1, &["a"]), sub(2, &[""])];
    let items = query_submissions(&submissions, "");
    assert_eq!(items.iter().map(|s| s.id).collect::<Vec<_>>(), vec![2]);
}

#[test]
fn parse_query_splits_and_lowercases() {
    let q = parse_query("Cat -DOG bird");
    assert_eq!(q.required, strings(&["cat", "bird"]));
    assert_eq!(q.excluded, strings(&["dog"]));
}

#[test]
fn removal_only_change_is_idempotent() {
    let tags = strings(&["a", "B", "c", "b"]);
    let once = update_tags(&tags, "-b -C");
    assert_eq!(once, strings(&["a"]));
    let twice = update_tags(&once, "-b -C");
    assert_eq!(twice, once);
}

#[test]
fn addition_is_not_idempotent() {
    let tags = strings(&["a"]);
    let once = update_tags(&tags, "x");
    assert_eq!(once, strings(&["a", "x"]));
    let twice = update_tags(&once, "x");
    assert_eq!(twice, strings(&["a", "x", "x"]));
}

#[test]
fn removal_applies_to_added_tags_and_ignores_case() {
    let tags = strings(&["Keep", "DROP"]);
    let new_tags = update_tags(&tags, "New drop -Drop");
    assert_eq!(new_tags, strings(&["Keep", "New"]));
}

#[test]
fn diff_is_case_sensitive() {
    let old = strings(&["a", "Fox", "b"]);
    let new = strings(&["a", "fox", "c", "c"]);
    let d = tag_display(&old, &new);
    assert_eq!(d.added, strings(&["fox", "c"]));
    assert_eq!(d.removed, strings(&["Fox", "b"]));
}

#[test]
fn site_names() {
    assert_eq!(SubmissionSite::FurAffinity.as_str(), "FurAffinity");
    assert_eq!(SubmissionSite::Weasyl.as_str(), "Weasyl");
    assert_eq!(SubmissionSite::from_name("Weasyl"), Some(SubmissionSite::Weasyl));
    assert_eq!(SubmissionSite::from_name("FurAffinity"), Some(SubmissionSite::FurAffinity));
    assert_eq!(SubmissionSite::from_name("weasyl"), None);
}
