use tag_sync::catalog::{decode_row, decode_rows, encode_row, Catalog, StoredRow};
use tag_sync::error::{FormField, ParseError};
use tag_sync::furaffinity::{read_posted_at, cookie_header, edit_submission_form, gallery_submission, parse_document, parse_submission_page, EditData};
use tag_sync::gallery::{gallery_ids, id_from_link, page_ids, GalleryStep, GalleryWalk};
use tag_sync::site::{Submission, SubmissionSite};
use tag_sync::weasyl::{api_submission, ApiDetail, ApiPage, ApiSummary, CursorWalk, Listed, ListStep};

fn strings(v: &[&str]) -> Vec<String> {
    v.iter().map(|t| t.to_string()).collect()
}

fn sub(site: SubmissionSite, id: i32, tags: &[&str]) -> Submission {
    Submission { id, site, title: format!("t{}", id), posted_at: 100, tags: strings(tags) }
}

#[test]
fn link_ids() {
    assert_eq!(id_from_link("/view/123/"), Some(123));
    assert_eq!(id_from_link("/view/-7/"), Some(-7));
    assert_eq!(id_from_link("/view/abc/"), None);
    assert_eq!(id_from_link("/view/99999999999/"), None);
    assert_eq!(id_from_link("/view"), None);
    let hrefs = vec![Some("/view/1/".to_string()), None, Some("/user/x/".to_string()), Some("/view/2/".to_string())];
    assert_eq!(gallery_ids(&hrefs), vec![1, 2]);
}

#[test]
fn page_ids_read_links() {
    let page = r#"<html><body><div class="submission-list"><u><a href="/view/10/">a</a></u><u><a href="/view/11/">b</a></u><u><a>c</a></u></div></body></html>"#;
    assert_eq!(page_ids(page), vec![10, 11]);
    assert_eq!(page_ids("<html><body></body></html>"), Vec::<i32>::new());
}

#[test]
fn gallery_walk_stops_at_first_empty_page() {
    let pages = vec![vec![1, 2, 3], vec![4, 5], vec![6], vec![], vec![7]];
    let mut walk = GalleryWalk::new();
    let mut fetched = Vec::new();
    let mut step = walk.next_step();
    while let GalleryStep::Fetch(p) = step {
        fetched.push(p);
        step = walk.take_page(pages[(p - 1) as usize].clone());
    }
    assert_eq!(fetched, vec![1, 2, 3, 4]);
    assert_eq!(walk.ids, vec![1, 2, 3, 4, 5, 6]);
    assert_eq!(walk.take_page(vec![9]), GalleryStep::Done);
    assert_eq!(walk.ids, vec![1, 2, 3, 4, 5, 6]);
}

#[test]
fn submission_page_is_read() {
    let page = r#"<html><body>
<div class="submission-title"><h2><p>  My <b>Work</b> </p></h2></div>
<div class="submission-id-sub-container"><strong><span class="popup_date" title="Jan 5th, 2020 3:04 PM">x</span></strong></div>
<section class="tags-row"><a> fox </a><a>Wolf</a></section>
</body></html>"#;
    let s = parse_submission_page(42, page).unwrap();
    assert_eq!(s.id, 42);
    assert_eq!(s.site, SubmissionSite::FurAffinity);
    assert_eq!(s.title, "My Work");
    assert_eq!(s.tags, strings(&["fox", "Wolf"]));
}

#[test]
fn submission_page_errors() {
    assert_eq!(parse_submission_page(1, "<html></html>").unwrap_err(), ParseError::MissingTitle);
    let no_date = r#"<div class="submission-title"><h2><p>T</p></h2></div>"#;
    assert_eq!(parse_submission_page(1, no_date).unwrap_err(), ParseError::MissingPostedAt);
    let no_value = r#"<div class="submission-title"><h2><p>T</p></h2></div><div class="submission-id-sub-container"><strong><span class="popup_date">x</span></strong></div>"#;
    assert_eq!(parse_submission_page(1, no_value).unwrap_err(), ParseError::MissingPostedAtValue);
    let bad = r#"<div class="submission-title"><h2><p>T</p></h2></div><div class="submission-id-sub-container"><strong><span class="popup_date" title="yesterday">x</span></strong></div>"#;
    assert_eq!(parse_submission_page(1, bad).unwrap_err(), ParseError::UnknownDateFormat);
}

#[test]
fn gallery_submission_from_parts() {
    let s = gallery_submission(5, Some(" T ".to_string()), Some(77), &strings(&[" a", "b "])).unwrap();
    assert_eq!((s.id, s.title.as_str(), s.posted_at), (5, "T", 77));
    assert_eq!(s.tags, strings(&["a", "b"]));
    assert_eq!(gallery_submission(5, None, Some(1), &vec![]).unwrap_err(), ParseError::MissingTitle);
    assert_eq!(gallery_submission(5, Some("x".to_string()), None, &vec![]).unwrap_err(), ParseError::UnknownDateFormat);
}

const EDIT_PAGE: &str = r#"<html><body><form name="MsgForm">
<input name="key" value="k123">
<input name="rating" value="0"><input name="rating" value="1" checked>
<input id="title" value="Title!">
<textarea id="JSMessage">Hello there</textarea>
<select name="cat"><option value="1">a</option><option value="2" selected>b</option></select>
<select name="atype"><option value="3" selected>c</option></select>
<select name="species"><option value="4" selected>d</option></select>
<select name="gender"><option value="5" selected>e</option></select>
</form></body></html>"#;

#[test]
fn edit_form_is_read() {
    let d = parse_document(EDIT_PAGE).unwrap();
    assert_eq!(d.key, "k123");
    assert_eq!(d.rating, "1");
    assert_eq!(d.title, "Title!");
    assert_eq!(d.message, "Hello there");
    assert_eq!(d.cat, "2");
    assert_eq!(d.atype, "3");
    assert_eq!(d.species, "4");
    assert_eq!(d.gender, "5");
}

#[test]
fn edit_form_errors() {
    assert_eq!(parse_document("<html></html>").err(), Some(ParseError::MissingForm));
    let no_gender = EDIT_PAGE.replace(r#"<option value="5" selected>"#, r#"<option value="5">"#);
    assert_eq!(parse_document(&no_gender).err(), Some(ParseError::MissingField(FormField::Gender)));
    let no_key = EDIT_PAGE.replace(r#"value="k123""#, "");
    assert_eq!(parse_document(&no_key).err(), Some(ParseError::MissingField(FormField::Key)));
}

#[test]
fn edit_form_body() {
    let d = EditData {
        key: "k".into(),
        cat: "c".into(),
        atype: "a".into(),
        species: "s".into(),
        gender: "g".into(),
        rating: "r".into(),
        title: "t".into(),
        message: "m".into(),
    };
    let body = edit_submission_form(d, &strings(&["x", "y"]));
    let expect: Vec<(String, String)> = [
        ("update", "yes"),
        ("submit", "+Finalize"),
        ("keywords", "x y"),
        ("key", "k"),
        ("cat", "c"),
        ("atype", "a"),
        ("species", "s"),
        ("gender", "g"),
        ("rating", "r"),
        ("title", "t"),
        ("message", "m"),
    ]
    .iter()
    .map(|(a, b)| (a.to_string(), b.to_string()))
    .collect();
    assert_eq!(body, expect);
    assert_eq!(cookie_header("AA", "BB"), "a=AA;b=BB");
}

fn summary(id: i32, at: &str) -> ApiSummary {
    ApiSummary { id, title: format!("s{}", id), created_at: at.to_string() }
}

#[test]
fn cursor_walk_follows_next_cursor() {
    let mut walk = CursorWalk::new();
    assert_eq!(walk.next_step(), ListStep::Fetch(None));
    let p1 = ApiPage { items: vec![summary(1, "2020-01-01T00:00:00Z"), summary(2, "2020-01-01T01:00:00+01:00")], next_cursor: Some(2) };
    assert_eq!(walk.take_page(p1), Ok(ListStep::Fetch(Some(2))));
    let p2 = ApiPage { items: vec![summary(3, "1970-01-01T00:00:10Z")], next_cursor: None };
    assert_eq!(walk.take_page(p2), Ok(ListStep::Done));
    let got: Vec<(i32, i64)> = walk.listed.iter().map(|l| (l.id, l.posted_at)).collect();
    assert_eq!(got, vec![(1, 1577836800), (2, 1577836800), (3, 10)]);
}

#[test]
fn cursor_walk_rejects_bad_timestamp() {
    let mut walk = CursorWalk::new();
    let p = ApiPage { items: vec![summary(1, "2020-01-01T00:00:00Z"), summary(2, "Jan 1 2020")], next_cursor: Some(5) };
    assert_eq!(walk.take_page(p), Err(ParseError::BadTimestamp));
    assert!(walk.listed.is_empty());
    assert_eq!(walk.next_step(), ListStep::Fetch(None));
}

#[test]
fn api_submission_takes_detail_fields() {
    let listed = Listed { id: 1, title: "old".into(), posted_at: 9 };
    let s = api_submission(&listed, ApiDetail { id: 1, title: "new".into(), tags: strings(&["a"]) });
    assert_eq!((s.id, s.site, s.title.as_str(), s.posted_at), (1, SubmissionSite::Weasyl, "new", 9));
    assert_eq!(s.tags, strings(&["a"]));
}

#[test]
fn failed_load_keeps_catalog() {
    let mut c = Catalog::new();
    assert!(c.replace_all::<()>(Ok(vec![sub(SubmissionSite::Weasyl, 1, &["a"])])).is_ok());
    let r = c.replace_all::<&str>(Err("detail fetch failed"));
    assert_eq!(r, Err("detail fetch failed"));
    assert_eq!(c.rows.len(), 1);
    assert_eq!(c.rows[0].id, 1);
}

#[test]
fn load_keeps_first_of_each_key() {
    let mut c = Catalog::new();
    let items = vec![
        sub(SubmissionSite::Weasyl, 1, &["a"]),
        sub(SubmissionSite::FurAffinity, 1, &["b"]),
        sub(SubmissionSite::Weasyl, 1, &["c"]),
    ];
    assert!(c.replace_all::<()>(Ok(items)).is_ok());
    let got: Vec<(SubmissionSite, i32, Vec<String>)> = c.rows.iter().map(|s| (s.site, s.id, s.tags.clone())).collect();
    assert_eq!(got, vec![(SubmissionSite::Weasyl, 1, strings(&["a"])), (SubmissionSite::FurAffinity, 1, strings(&["b"]))]);
    c.update_tags(SubmissionSite::FurAffinity, 1, &strings(&["z"]));
    assert_eq!(c.rows[0].tags, strings(&["a"]));
    assert_eq!(c.rows[1].tags, strings(&["z"]));
}

#[test]
fn stored_rows_round_trip() {
    let s = sub(SubmissionSite::FurAffinity, 3, &["a \"q\"", "B"]);
    let row = encode_row(&s);
    assert_eq!(row.site, "FurAffinity");
    assert_eq!(row.tags, r#"["a \"q\"","B"]"#);
    let back = decode_row(&row).unwrap();
    assert_eq!((back.id, back.site, back.title.as_str(), back.posted_at), (3, SubmissionSite::FurAffinity, "t3", 100));
    assert_eq!(back.tags, s.tags);
    let bad_site = StoredRow { site: "Other".into(), id: 1, title: "x".into(), posted_at: 0, tags: "[]".into() };
    let bad_tags = StoredRow { site: "Weasyl".into(), id: 2, title: "x".into(), posted_at: 0, tags: "nope".into() };
    let good = StoredRow { site: "Weasyl".into(), id: 3, title: "x".into(), posted_at: 0, tags: "[]".into() };
    let rows = decode_rows(&vec![bad_site, bad_tags, good]);
    assert_eq!(rows.iter().map(|s| s.id).collect::<Vec<_>>(), vec![3]);
}

#[test]
fn posted_at_reads_within_a_day_of_wall_clock() {
    let t = read_posted_at("Jan 5th, 2020 3:04 PM").unwrap();
    let wall: i64 = 1578236640;
    assert!(t > wall - 86400 && t < wall + 86400);
    assert_eq!(read_posted_at("Jan 5th 2020"), None);
    assert_eq!(read_posted_at(""), None);
}

#[test]
fn edit_form_fields_are_read_inside_the_form_only() {
    let page = EDIT_PAGE.replace(r#"<input name="key" value="k123">"#, "")
        .replace("<html><body>", r#"<html><body><input name="key" value="outside">"#);
    assert_eq!(parse_document(&page).err(), Some(ParseError::MissingField(FormField::Key)));
}
