//! The local catalog: one row per `(site, id)`, replaced whole by a load and
//! updated in place by a tag change; and the stored form of a row.
use vstd::prelude::*;
use vstd::string::*;
use crate::site::{Submission, SubmissionSite, site_name, site_named};
use crate::text::views;

verus! {

/// A row as values: site, id, title, posting time, tags.
pub type RowView = (SubmissionSite, i32, Seq<char>, i64, Seq<Seq<char>>);

pub open spec fn row_view(s: Submission) -> RowView {
    (s.site, s.id, s.title@, s.posted_at, s.tag_list())
}

pub open spec fn rows_view(s: Seq<Submission>) -> Seq<RowView> {
    s.map_values(|x: Submission| row_view(x))
}

/// Whether a row with this key is among `rows`.
pub open spec fn has_key(rows: Seq<RowView>, site: SubmissionSite, id: i32) -> bool {
    exists|j: int| 0 <= j < rows.len() && (#[trigger] rows[j]).0 == site && rows[j].1 == id
}

/// The submissions with the later duplicates of a key left out.
pub open spec fn first_of_each_key(s: Seq<RowView>) -> Seq<RowView>
    decreases s.len(),
{
    if s.len() == 0 {
        Seq::<RowView>::empty()
    } else {
        let prev = first_of_each_key(s.drop_last());
        if has_key(prev, s.last().0, s.last().1) {
            prev
        } else {
            prev.push(s.last())
        }
    }
}

/// The catalog after a load: what was fetched, first of each key, where the
/// fetch succeeded; the old rows where it failed.
pub open spec fn after_load(old_rows: Seq<RowView>, fetched: Option<Seq<RowView>>) -> Seq<RowView> {
    match fetched {
        Some(s) => first_of_each_key(s),
        None => old_rows,
    }
}

/// The local catalog.
pub struct Catalog {
    pub rows: Vec<Submission>,
}

fn key_present(rows: &Vec<Submission>, site: SubmissionSite, id: i32) -> (r: bool)
    ensures
        r == has_key(rows_view(rows@), site, id),
{
    let mut i: usize = 0;
    while i < rows.len()
        invariant
            i <= rows@.len(),
            forall|j: int| 0 <= j < i ==> !((#[trigger] rows_view(rows@)[j]).0 == site && rows_view(rows@)[j].1 == id),
        decreases rows@.len() - i,
    {
        if rows[i].site == site && rows[i].id == id {
            proof {
                assert(rows_view(rows@)[i as int].0 == site && rows_view(rows@)[i as int].1 == id);
            }
            return true;
        }
        i = i + 1;
    }
    false
}

impl Catalog {
    /// The rows as values, in stored order.
    pub open spec fn view(&self) -> Seq<RowView> {
        rows_view(self.rows@)
    }

    /// An empty catalog.
    pub fn new() -> (r: Catalog)
        ensures
            r.view() == Seq::<RowView>::empty(),
    {
        Catalog { rows: Vec::new() }
    }

    /// Replaces every row by what a full load fetched, keeping the first
    /// submission of each key. A failed load changes nothing and hands its
    /// error back.
    pub fn replace_all<E>(&mut self, fetched: Result<Vec<Submission>, E>) -> (r: Result<(), E>)
        ensures
            final(self).view() == after_load(old(self).view(), match fetched {
                Ok(v) => Some(rows_view(v@)),
                Err(_) => None,
            }),
            r is Ok == fetched is Ok,
    {
        let items = match fetched {
            Err(e) => {
                return Err(e);
            },
            Ok(v) => v,
        };
        let mut rows: Vec<Submission> = Vec::new();
        let mut i: usize = 0;
        while i < items.len()
            invariant
                i <= items@.len(),
                rows_view(rows@) == first_of_each_key(rows_view(items@).take(i as int)),
            decreases items@.len() - i,
        {
            let item = &items[i];
            proof {
                assert(rows_view(items@).take(i + 1).drop_last() =~= rows_view(items@).take(i as int));
                assert(rows_view(items@).take(i + 1).last() == row_view(*item));
            }
            if !key_present(&rows, item.site, item.id) {
                let ghost prev = rows_view(rows@);
                let copy = item.clone_submission();
                rows.push(copy);
                proof {
                    assert(rows_view(rows@) =~= prev.push(row_view(*item)));
                }
            }
            i = i + 1;
        }
        proof {
            assert(rows_view(items@).take(items@.len() as int) =~= rows_view(items@));
        }
        self.rows = rows;
        Ok(())
    }

    /// Sets the tags of the row with this key, if there is one.
    pub fn update_tags(&mut self, site: SubmissionSite, id: i32, tags: &Vec<String>)
        ensures
            final(self).rows@.len() == old(self).rows@.len(),
            forall|j: int| 0 <= j < old(self).rows@.len() ==> {
                let o = #[trigger] old(self).rows@[j];
                let n = final(self).rows@[j];
                &&& n.site == o.site
                &&& n.id == o.id
                &&& n.title@ == o.title@
                &&& n.posted_at == o.posted_at
                &&& n.tag_list() == (if o.site == site && o.id == id {
                    views(tags@)
                } else {
                    o.tag_list()
                })
            },
    {
        let mut i: usize = 0;
        let ghost old_rows = self.rows@;
        let mut rows: Vec<Submission> = Vec::new();
        while i < self.rows.len()
            invariant
                i <= old_rows.len(),
                self.rows@ == old_rows,
                rows@.len() == i,
                forall|j: int| 0 <= j < i ==> {
                    let o = #[trigger] old_rows[j];
                    let n = rows@[j];
                    &&& n.site == o.site
                    &&& n.id == o.id
                    &&& n.title@ == o.title@
                    &&& n.posted_at == o.posted_at
                    &&& n.tag_list() == (if o.site == site && o.id == id {
                        views(tags@)
                    } else {
                        o.tag_list()
                    })
                },
            decreases old_rows.len() - i,
        {
            let mut row = self.rows[i].clone_submission();
            if row.site == site && row.id == id {
                row.tags = crate::text::copy_strings(tags.as_slice());
            }
            rows.push(row);
            i = i + 1;
        }
        self.rows = rows;
    }
}

impl Submission {
    /// A copy of the submission.
    pub fn clone_submission(&self) -> (r: Submission)
        ensures
            r.id == self.id,
            r.site == self.site,
            r.title@ == self.title@,
            r.posted_at == self.posted_at,
            r.tag_list() == self.tag_list(),
            row_view(r) == row_view(*self),
    {
        let tags = crate::text::copy_strings(self.tags.as_slice());
        Submission { id: self.id, site: self.site, title: self.title.clone(), posted_at: self.posted_at, tags }
    }
}

/// A load that fails leaves the catalog exactly as it was: no rows of the
/// failed load, none of the old ones taken out.
pub proof fn lemma_failed_load_keeps_catalog(old_rows: Seq<RowView>)
    ensures
        after_load(old_rows, None) == old_rows,
{
}

/// The strings of a JSON array of strings, if `s` is one.
pub uninterp spec fn json_string_list_of(s: Seq<char>) -> Option<Seq<Seq<char>>>;

/// The JSON array of these strings.
pub uninterp spec fn json_of_string_list(tags: Seq<Seq<char>>) -> Seq<char>;

/// Relies on `serde_json::from_str::<Vec<String>>`: the strings of a JSON
/// array of strings, or an error for any other text.
#[verifier::external_body]
fn decode_tag_list(s: &str) -> (r: Option<Vec<String>>)
    ensures
        match r {
            Some(v) => json_string_list_of(s@) == Some(views(v@)),
            None => json_string_list_of(s@) is None,
        },
{
    serde_json::from_str::<Vec<String>>(s).ok()
}

/// Relies on `serde_json::to_string`, which cannot fail on a list of
/// strings: the JSON array of the tags, which `from_str` reads back as the
/// same strings.
#[verifier::external_body]
fn encode_tag_list(tags: &Vec<String>) -> (r: String)
    ensures
        r@ == json_of_string_list(views(tags@)),
        json_string_list_of(r@) == Some(views(tags@)),
{
    serde_json::to_string(tags).unwrap()
}

/// A row as the store keeps it: the site by name, the tags as a JSON array.
pub struct StoredRow {
    pub site: String,
    pub id: i64,
    pub title: String,
    pub posted_at: i64,
    pub tags: String,
}

/// What a stored row decodes to, if anything: a row with an unknown site
/// name or tags that are not a JSON array of strings decodes to nothing.
pub open spec fn decoded(row: StoredRow) -> Option<RowView> {
    match (site_named(row.site@), json_string_list_of(row.tags@)) {
        (Some(site), Some(tags)) => Some((site, row.id as i32, row.title@, row.posted_at, tags)),
        _ => None,
    }
}

/// Decodes one stored row.
pub fn decode_row(row: &StoredRow) -> (r: Option<Submission>)
    ensures
        match r {
            Some(s) => decoded(*row) == Some(row_view(s)),
            None => decoded(*row) is None,
        },
{
    let site = SubmissionSite::from_name(row.site.as_str())?;
    let tags = decode_tag_list(row.tags.as_str())?;
    Some(Submission { id: row.id as i32, site, title: row.title.clone(), posted_at: row.posted_at, tags })
}

/// Decodes the stored rows, leaving out those that do not decode.
pub fn decode_rows(rows: &Vec<StoredRow>) -> (r: Vec<Submission>)
    ensures
        rows_view(r@) == rows@.filter_map(|row: StoredRow| decoded(row)),
{
    let mut out: Vec<Submission> = Vec::new();
    let mut i: usize = 0;
    while i < rows.len()
        invariant
            i <= rows@.len(),
            rows_view(out@) == rows@.take(i as int).filter_map(|row: StoredRow| decoded(row)),
        decreases rows@.len() - i,
    {
        proof {
            assert(rows@.take(i + 1).drop_last() =~= rows@.take(i as int));
        }
        match decode_row(&rows[i]) {
            Some(s) => {
                let ghost prev = rows_view(out@);
                let ghost v = row_view(s);
                out.push(s);
                proof {
                    assert(rows_view(out@) =~= prev.push(v));
                }
            },
            None => {},
        }
        i = i + 1;
    }
    proof {
        assert(rows@.take(rows@.len() as int) =~= rows@);
    }
    out
}

/// The stored form of a submission.
pub fn encode_row(sub: &Submission) -> (r: StoredRow)
    ensures
        r.site@ == site_name(sub.site),
        r.id == sub.id as i64,
        r.title@ == sub.title@,
        r.posted_at == sub.posted_at,
        r.tags@ == json_of_string_list(sub.tag_list()),
        json_string_list_of(r.tags@) == Some(sub.tag_list()),
{
    let site = String::from_str(sub.site.as_str());
    StoredRow { site, id: sub.id as i64, title: sub.title.clone(), posted_at: sub.posted_at, tags: encode_tag_list(&sub.tags) }
}

/// A submission stored and read back is the same submission.
pub proof fn lemma_stored_row_round_trip(sub: Submission, row: StoredRow)
    requires
        row.site@ == site_name(sub.site),
        row.id == sub.id as i64,
        row.title@ == sub.title@,
        row.posted_at == sub.posted_at,
        json_string_list_of(row.tags@) == Some(sub.tag_list()),
    ensures
        decoded(row) == Some(row_view(sub)),
{
    reveal_strlit("FurAffinity");
    reveal_strlit("Weasyl");
    assert("FurAffinity"@[0] != "Weasyl"@[0]);
}

} // verus!
