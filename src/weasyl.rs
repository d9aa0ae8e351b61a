//! The paginated API: pages of summaries linked by a cursor, then one detail
//! record per summary for its tags.
use vstd::prelude::*;
use crate::error::ParseError;
use crate::site::{Submission, SubmissionSite};
use crate::text::views;

verus! {

/// Seconds since the Unix epoch of an RFC 3339 timestamp, if it is one.
pub uninterp spec fn rfc3339_seconds_of(s: Seq<char>) -> Option<i64>;

/// Relies on chrono's `DateTime::parse_from_rfc3339` and `timestamp`: the
/// instant that the text names, whatever its offset, or `None` where the text
/// is not RFC 3339.
#[verifier::external_body]
fn rfc3339_seconds(s: &str) -> (r: Option<i64>)
    ensures
        r == rfc3339_seconds_of(s@),
{
    chrono::DateTime::parse_from_rfc3339(s).ok().map(|d| d.timestamp())
}

/// One summary of a list page.
pub struct ApiSummary {
    pub id: i32,
    pub title: String,
    pub created_at: String,
}

/// One list page and the cursor of the next, if there is one.
pub struct ApiPage {
    pub items: Vec<ApiSummary>,
    pub next_cursor: Option<i32>,
}

/// The detail record of one submission.
pub struct ApiDetail {
    pub id: i32,
    pub title: String,
    pub tags: Vec<String>,
}

/// A listed submission with its posting time read.
pub struct Listed {
    pub id: i32,
    pub title: String,
    pub posted_at: i64,
}

/// What the list phase does next.
#[derive(Debug, Clone, Copy, PartialEq, Eq, Structural)]
pub enum ListStep {
    /// Request a page, after this cursor where there is one.
    Fetch(Option<i32>),
    /// Every page has been read.
    Done,
}

/// A summary as values: id, title, posting time text.
pub open spec fn summary_view(s: ApiSummary) -> (i32, Seq<char>, Seq<char>) {
    (s.id, s.title@, s.created_at@)
}

/// Every summary carries an RFC 3339 posting time.
pub open spec fn all_times_read(items: Seq<ApiSummary>) -> bool {
    forall|i: int| 0 <= i < items.len() ==> (#[trigger] rfc3339_seconds_of(items[i].created_at@)) is Some
}

/// The listed submissions that these summaries give.
pub open spec fn listed_from(items: Seq<ApiSummary>) -> Seq<(i32, Seq<char>, i64)> {
    items.map_values(|s: ApiSummary| (s.id, s.title@, rfc3339_seconds_of(s.created_at@)->0))
}

/// The state of the list phase.
pub struct CursorWalk {
    pub listed: Vec<Listed>,
    pub cursor: Option<i32>,
    pub done: bool,
}

/// A list phase as values: what was listed, the cursor, whether it ended.
pub type CursorView = (Seq<(i32, Seq<char>, i64)>, Option<i32>, bool);

/// One page handed to the list phase (its posting times all read): its
/// summaries are appended and its cursor taken; no cursor ends the phase; a
/// phase that has ended stays as it is.
pub open spec fn cursor_step(w: CursorView, page: ApiPage) -> CursorView {
    if w.2 {
        w
    } else {
        (w.0 + listed_from(page.items@), page.next_cursor, page.next_cursor is None)
    }
}

/// The list phase after being handed each page in turn.
pub open spec fn cursor_through(w: CursorView, pages: Seq<ApiPage>) -> CursorView
    decreases pages.len(),
{
    if pages.len() == 0 {
        w
    } else {
        cursor_through(cursor_step(w, pages[0]), pages.drop_first())
    }
}

/// What the pages list, page after page.
pub open spec fn listed_pages(pages: Seq<ApiPage>) -> Seq<(i32, Seq<char>, i64)>
    decreases pages.len(),
{
    if pages.len() == 0 {
        Seq::empty()
    } else {
        listed_from(pages[0].items@) + listed_pages(pages.drop_first())
    }
}

/// A list phase that has not requested anything.
pub open spec fn cursor_start() -> CursorView {
    (Seq::empty(), None, false)
}

proof fn lemma_cursor_open_pages(w: CursorView, pages: Seq<ApiPage>)
    requires
        !w.2,
        pages.len() > 0,
        forall|i: int| 0 <= i < pages.len() ==> (#[trigger] pages[i]).next_cursor is Some,
    ensures
        cursor_through(w, pages) == (w.0 + listed_pages(pages), pages.last().next_cursor, false),
    decreases pages.len(),
{
    assert(pages[0].next_cursor is Some);
    let rest = pages.drop_first();
    let w1 = cursor_step(w, pages[0]);
    if rest.len() == 0 {
        assert(listed_pages(rest) =~= Seq::<(i32, Seq<char>, i64)>::empty());
        assert(w.0 + listed_pages(pages) =~= w1.0);
        assert(cursor_through(w1, rest) == w1);
        assert(pages.last() == pages[0]);
    } else {
        assert forall|i: int| 0 <= i < rest.len() implies (#[trigger] rest[i]).next_cursor is Some by {
            assert(rest[i] == pages[i + 1]);
        }
        lemma_cursor_open_pages(w1, rest);
        assert(rest.last() == pages.last());
        assert(w.0 + listed_pages(pages) =~= w1.0 + listed_pages(rest));
    }
}

proof fn lemma_cursor_ended(w: CursorView, pages: Seq<ApiPage>)
    requires
        w.2,
    ensures
        cursor_through(w, pages) == w,
    decreases pages.len(),
{
    if pages.len() > 0 {
        lemma_cursor_ended(w, pages.drop_first());
    }
}

/// A list phase handed pages that carry a next cursor, then one at position
/// `k` that carries none: after each of the first `k` pages it asks for the
/// page after that page's cursor; page `k` ends it, with the summaries of
/// pages `0..=k` each once, in page order; later pages change nothing.
pub proof fn lemma_cursor_walk_follows_cursors(pages: Seq<ApiPage>, k: int)
    requires
        0 <= k < pages.len(),
        pages[k].next_cursor is None,
        forall|i: int| 0 <= i < k ==> (#[trigger] pages[i]).next_cursor is Some,
    ensures
        forall|j: int| 1 <= j <= k ==> #[trigger] cursor_through(cursor_start(), pages.take(j)) == (
            listed_pages(pages.take(j)),
            pages[j - 1].next_cursor,
            false,
        ),
        cursor_through(cursor_start(), pages.take(k + 1)) == (listed_pages(pages.take(k + 1)), None::<i32>, true),
        cursor_through(cursor_start(), pages) == cursor_through(cursor_start(), pages.take(k + 1)),
{
    assert forall|j: int| 1 <= j <= k implies #[trigger] cursor_through(cursor_start(), pages.take(j)) == (
        listed_pages(pages.take(j)),
        pages[j - 1].next_cursor,
        false,
    ) by {
        let pre = pages.take(j);
        assert forall|i: int| 0 <= i < pre.len() implies (#[trigger] pre[i]).next_cursor is Some by {
            assert(pre[i] == pages[i]);
        }
        lemma_cursor_open_pages(cursor_start(), pre);
        assert(Seq::<(i32, Seq<char>, i64)>::empty() + listed_pages(pre) =~= listed_pages(pre));
    }
    lemma_cursor_prefix_end(cursor_start(), pages, k);
    let pre = pages.take(k + 1);
    assert(pre[k] == pages[k]);
    assert forall|i: int| 0 <= i < k implies (#[trigger] pre[i]).next_cursor is Some by {
        assert(pre[i] == pages[i]);
    }
    lemma_cursor_prefix_end(cursor_start(), pre, k);
    assert(pre.take(k + 1) =~= pre);
}

proof fn lemma_cursor_prefix_end(w: CursorView, pages: Seq<ApiPage>, k: int)
    requires
        !w.2,
        0 <= k < pages.len(),
        pages[k].next_cursor is None,
        forall|i: int| 0 <= i < k ==> (#[trigger] pages[i]).next_cursor is Some,
    ensures
        cursor_through(w, pages) == (w.0 + listed_pages(pages.take(k + 1)), None::<i32>, true),
    decreases k,
{
    let rest = pages.drop_first();
    let w1 = cursor_step(w, pages[0]);
    if k == 0 {
        lemma_cursor_ended(w1, rest);
        assert(pages.take(1).drop_first() =~= Seq::<ApiPage>::empty());
        assert(pages.take(1)[0] == pages[0]);
        assert(listed_pages(pages.take(1).drop_first()) =~= Seq::<(i32, Seq<char>, i64)>::empty());
        assert(listed_pages(pages.take(1)) =~= listed_from(pages[0].items@));
    } else {
        assert(pages[0].next_cursor is Some);
        assert(rest[k - 1] == pages[k]);
        assert forall|i: int| 0 <= i < k - 1 implies (#[trigger] rest[i]).next_cursor is Some by {
            assert(rest[i] == pages[i + 1]);
        }
        lemma_cursor_prefix_end(w1, rest, k - 1);
        assert(pages.take(k + 1).drop_first() =~= rest.take(k));
        assert(pages.take(k + 1)[0] == pages[0]);
        assert(w.0 + listed_pages(pages.take(k + 1)) =~= w1.0 + listed_pages(rest.take(k)));
    }
}

impl CursorWalk {
    pub open spec fn cursor_view(&self) -> CursorView {
        (self.listed_view(), self.cursor, self.done)
    }

    pub open spec fn listed_view(&self) -> Seq<(i32, Seq<char>, i64)> {
        self.listed@.map_values(|l: Listed| (l.id, l.title@, l.posted_at))
    }

    /// A list phase that starts with a request without cursor.
    pub fn new() -> (r: CursorWalk)
        ensures
            r.listed_view() == Seq::<(i32, Seq<char>, i64)>::empty(),
            r.cursor is None,
            !r.done,
    {
        CursorWalk { listed: Vec::new(), cursor: None, done: false }
    }

    /// The request to make next, or `Done`.
    pub fn next_step(&self) -> (r: ListStep)
        ensures
            r == (if self.done {
                ListStep::Done
            } else {
                ListStep::Fetch(self.cursor)
            }),
    {
        if self.done {
            ListStep::Done
        } else {
            ListStep::Fetch(self.cursor)
        }
    }

    /// Hands the list phase the page it asked for. The page's summaries are
    /// appended in the order given; a page without a next cursor ends the
    /// phase. A posting time that is not RFC 3339 is an error, and then the
    /// state is left as it was.
    pub fn take_page(&mut self, page: ApiPage) -> (r: Result<ListStep, ParseError>)
        requires
            !old(self).done,
        ensures
            all_times_read(page.items@) ==> final(self).cursor_view() == cursor_step(old(self).cursor_view(), page),
            all_times_read(page.items@) ==> {
                &&& final(self).listed_view() == old(self).listed_view() + listed_from(page.items@)
                &&& final(self).cursor == page.next_cursor
                &&& final(self).done == (page.next_cursor is None)
                &&& r == Ok::<ListStep, ParseError>(final(self).next_step_spec())
            },
            !all_times_read(page.items@) ==> {
                &&& r == Err::<ListStep, ParseError>(ParseError::BadTimestamp)
                &&& final(self).listed_view() == old(self).listed_view()
                &&& final(self).cursor == old(self).cursor
                &&& final(self).done == old(self).done
            },
    {
        let mut fresh: Vec<Listed> = Vec::new();
        let mut i: usize = 0;
        let ghost items = page.items@;
        while i < page.items.len()
            invariant
                i <= items.len(),
                items == page.items@,
                fresh@.map_values(|l: Listed| (l.id, l.title@, l.posted_at)) == listed_from(items.take(i as int)),
                all_times_read(items.take(i as int)),
            decreases items.len() - i,
        {
            let s = &page.items[i];
            match rfc3339_seconds(s.created_at.as_str()) {
                None => {
                    proof {
                        assert(rfc3339_seconds_of(items[i as int].created_at@) is None);
                    }
                    return Err(ParseError::BadTimestamp);
                },
                Some(t) => {
                    let ghost prev = fresh@.map_values(|l: Listed| (l.id, l.title@, l.posted_at));
                    let title = s.title.clone();
                    fresh.push(Listed { id: s.id, title, posted_at: t });
                    proof {
                        assert(fresh@.map_values(|l: Listed| (l.id, l.title@, l.posted_at)) =~= prev.push((s.id, s.title@, t)));
                        assert(items.take(i + 1).drop_last() =~= items.take(i as int));
                        assert(listed_from(items.take(i + 1)) =~= listed_from(items.take(i as int)).push((s.id, s.title@, t)));
                        assert forall|j: int| 0 <= j < i + 1 implies (#[trigger] rfc3339_seconds_of(items.take(i + 1)[j].created_at@)) is Some by {
                            if j < i {
                                assert(items.take(i + 1)[j] == items.take(i as int)[j]);
                            }
                        }
                    }
                },
            }
            i = i + 1;
        }
        proof {
            assert(items.take(items.len() as int) =~= items);
        }
        let ghost before = self.listed_view();
        self.listed.append(&mut fresh);
        proof {
            assert(self.listed_view() =~= before + listed_from(items));
        }
        self.cursor = page.next_cursor;
        self.done = page.next_cursor.is_none();
        Ok(self.next_step())
    }

    pub open spec fn next_step_spec(&self) -> ListStep {
        if self.done {
            ListStep::Done
        } else {
            ListStep::Fetch(self.cursor)
        }
    }
}

/// A submission from its listed summary and its detail record: id, title and
/// tags from the detail, posting time from the summary.
pub fn api_submission(listed: &Listed, detail: ApiDetail) -> (r: Submission)
    ensures
        r.id == detail.id,
        r.site == SubmissionSite::Weasyl,
        r.title@ == detail.title@,
        r.posted_at == listed.posted_at,
        r.tag_list() == views(detail.tags@),
{
    Submission { id: detail.id, site: SubmissionSite::Weasyl, title: detail.title, posted_at: listed.posted_at, tags: detail.tags }
}

} // verus!
