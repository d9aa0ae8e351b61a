//! Listing a scraped gallery: ids are read from the links of each index page,
//! and the walk over pages 1, 2, ... stops at the first page without ids.
use vstd::prelude::*;
use crate::html::{all_attrs, all_attrs_of, opt_view};
use crate::text::{split_by, split_on};

verus! {

pub open spec fn is_digit(c: char) -> bool {
    '0' <= c && c <= '9'
}

/// The number written by a string of decimal digits.
pub open spec fn digits_value(s: Seq<char>) -> int
    decreases s.len(),
{
    if s.len() == 0 {
        0
    } else {
        digits_value(s.drop_last()) * 10 + ((s.last() as u32) as int - ('0' as u32) as int)
    }
}

/// The integer written in decimal, with an optional `+` or `-` sign.
pub open spec fn decimal_value(s: Seq<char>) -> Option<int> {
    let signed = s.len() > 0 && (s[0] == '-' || s[0] == '+');
    let body = if signed { s.drop_first() } else { s };
    if body.len() > 0 && (forall|i: int| 0 <= i < body.len() ==> is_digit(#[trigger] body[i])) {
        if s.len() > 0 && s[0] == '-' {
            Some(-digits_value(body))
        } else {
            Some(digits_value(body))
        }
    } else {
        None
    }
}

/// The `i32` that a string writes in decimal, if it fits.
pub open spec fn decimal_i32(s: Seq<char>) -> Option<i32> {
    match decimal_value(s) {
        Some(v) => if i32::MIN <= v <= i32::MAX {
            Some(v as i32)
        } else {
            None
        },
        None => None,
    }
}

/// Relies on `str::parse::<i32>`: an optional sign followed by one or more
/// decimal digits, within the range of `i32`; anything else is an error.
#[verifier::external_body]
fn parse_i32(s: &str) -> (r: Option<i32>)
    ensures
        r == decimal_i32(s@),
{
    s.parse::<i32>().ok()
}

/// The submission id in a gallery link such as `/view/123/`: the third piece
/// between slashes, read as a decimal `i32`.
pub open spec fn link_id(href: Seq<char>) -> Option<i32> {
    let parts = split_by(href, '/');
    if parts.len() > 2 {
        decimal_i32(parts[2])
    } else {
        None
    }
}

pub open spec fn maybe_link_id(href: Option<Seq<char>>) -> Option<i32> {
    match href {
        Some(h) => link_id(h),
        None => None,
    }
}

pub open spec fn optional_views(v: Seq<Option<String>>) -> Seq<Option<Seq<char>>> {
    v.map_values(|h: Option<String>| match h {
        Some(s) => Some(s@),
        None => None,
    })
}

/// The id in one gallery link.
pub fn id_from_link(href: &str) -> (r: Option<i32>)
    ensures
        r == link_id(href@),
{
    let parts = split_on(href, '/');
    if parts.len() > 2 {
        parse_i32(parts[2].as_str())
    } else {
        None
    }
}

/// The ids of a gallery index page, from the `href` of each id link (`None`
/// where a link has none), in page order; links without an id are skipped.
pub fn gallery_ids(hrefs: &Vec<Option<String>>) -> (r: Vec<i32>)
    ensures
        r@ == optional_views(hrefs@).filter_map(|h: Option<Seq<char>>| maybe_link_id(h)),
{
    let mut out: Vec<i32> = Vec::new();
    let mut i: usize = 0;
    while i < hrefs.len()
        invariant
            i <= hrefs@.len(),
            out@ == optional_views(hrefs@).take(i as int).filter_map(
                |h: Option<Seq<char>>| maybe_link_id(h),
            ),
        decreases hrefs@.len() - i,
    {
        proof {
            assert(optional_views(hrefs@).take(i + 1).drop_last() =~= optional_views(hrefs@).take(i as int));
        }
        match &hrefs[i] {
            Some(h) => {
                match id_from_link(h.as_str()) {
                    Some(id) => {
                        out.push(id);
                    },
                    None => {},
                }
            },
            None => {},
        }
        i = i + 1;
    }
    proof {
        assert(optional_views(hrefs@).take(hrefs@.len() as int) =~= optional_views(hrefs@));
    }
    out
}

/// The selector of the id links on a gallery index page.
pub const ID_LINK_SELECTOR: &'static str = ".submission-list u a";

/// The ids that a gallery index page links to, in page order.
pub fn page_ids(page: &str) -> (r: Vec<i32>)
    ensures
        r@ == all_attrs_of(page@, ID_LINK_SELECTOR@, "href"@).filter_map(
            |h: Option<Seq<char>>| maybe_link_id(h),
        ),
{
    let hrefs = all_attrs(page, ID_LINK_SELECTOR, "href");
    proof {
        assert(optional_views(hrefs@) =~= hrefs@.map_values(|o: Option<String>| opt_view(o)));
    }
    gallery_ids(&hrefs)
}

/// What the walk does next.
#[derive(Debug, Clone, Copy, PartialEq, Eq, Structural)]
pub enum GalleryStep {
    /// Fetch this index page and hand its ids to `take_page`.
    Fetch(u64),
    /// The listing is complete.
    Done,
}

/// The state of a walk over gallery index pages.
pub struct GalleryWalk {
    pub ids: Vec<i32>,
    pub page: u64,
    pub done: bool,
}

/// A walk state as values: ids so far, next page, whether it has ended.
pub type WalkView = (Seq<i32>, int, bool);

/// One step: an empty page ends the walk; any other page appends its ids
/// and moves to the next page; a walk that has ended stays as it is.
pub open spec fn walk_step(w: WalkView, page_ids: Seq<i32>) -> WalkView {
    if w.2 {
        w
    } else if page_ids.len() == 0 {
        (w.0, w.1, true)
    } else {
        (w.0 + page_ids, w.1 + 1, false)
    }
}

/// The walk after being handed each page of `pages` in turn.
pub open spec fn walk_through(w: WalkView, pages: Seq<Seq<i32>>) -> WalkView
    decreases pages.len(),
{
    if pages.len() == 0 {
        w
    } else {
        walk_through(walk_step(w, pages[0]), pages.drop_first())
    }
}

/// A walk that has not read any page.
pub open spec fn walk_start() -> WalkView {
    (Seq::<i32>::empty(), 1, false)
}

impl GalleryWalk {
    pub open spec fn view(&self) -> WalkView {
        (self.ids@, self.page as int, self.done)
    }

    /// A walk that starts at page 1.
    pub fn new() -> (r: GalleryWalk)
        ensures
            r.view() == walk_start(),
    {
        GalleryWalk { ids: Vec::new(), page: 1, done: false }
    }

    /// The page to fetch next, or `Done`.
    pub fn next_step(&self) -> (r: GalleryStep)
        ensures
            r == (if self.done {
                GalleryStep::Done
            } else {
                GalleryStep::Fetch(self.page)
            }),
    {
        if self.done {
            GalleryStep::Done
        } else {
            GalleryStep::Fetch(self.page)
        }
    }

    /// Hands the walk the ids found on the page it asked for.
    pub fn take_page(&mut self, page_ids: Vec<i32>) -> (r: GalleryStep)
        requires
            old(self).page < u64::MAX,
        ensures
            final(self).view() == walk_step(old(self).view(), page_ids@),
            r == (if final(self).done {
                GalleryStep::Done
            } else {
                GalleryStep::Fetch(final(self).page)
            }),
    {
        if !self.done {
            if page_ids.len() == 0 {
                self.done = true;
            } else {
                let mut more = page_ids;
                self.ids.append(&mut more);
                self.page = self.page + 1;
            }
        }
        self.next_step()
    }
}

proof fn lemma_walk_through_done(w: WalkView, pages: Seq<Seq<i32>>)
    requires
        w.2,
    ensures
        walk_through(w, pages) == w,
    decreases pages.len(),
{
    if pages.len() > 0 {
        lemma_walk_through_done(w, pages.drop_first());
    }
}

proof fn lemma_walk_prefix(w: WalkView, pages: Seq<Seq<i32>>, k: int)
    requires
        !w.2,
        0 <= k < pages.len(),
        pages[k].len() == 0,
        forall|j: int| 0 <= j < k ==> #[trigger] pages[j].len() > 0,
    ensures
        walk_through(w, pages) == (w.0 + pages.take(k).flatten(), w.1 + k, true),
    decreases k,
{
    if k == 0 {
        assert(pages.take(0).flatten() =~= Seq::<i32>::empty());
        assert(w.0 + Seq::<i32>::empty() =~= w.0);
        lemma_walk_through_done(walk_step(w, pages[0]), pages.drop_first());
    } else {
        let w1 = walk_step(w, pages[0]);
        assert(pages[0].len() > 0);
        let rest = pages.drop_first();
        assert forall|j: int| 0 <= j < k - 1 implies #[trigger] rest[j].len() > 0 by {
            assert(rest[j] == pages[j + 1]);
        }
        lemma_walk_prefix(w1, rest, k - 1);
        assert(pages.take(k).drop_first() =~= rest.take(k - 1));
        assert(pages.take(k).flatten() == pages.take(k)[0] + pages.take(k).drop_first().flatten());
        assert(w.0 + pages.take(k).flatten() =~= w1.0 + rest.take(k - 1).flatten());
    }
}

proof fn lemma_walk_nonempty(w: WalkView, pages: Seq<Seq<i32>>)
    requires
        !w.2,
        forall|j: int| 0 <= j < pages.len() ==> #[trigger] pages[j].len() > 0,
    ensures
        walk_through(w, pages) == (w.0 + pages.flatten(), w.1 + pages.len(), false),
    decreases pages.len(),
{
    if pages.len() == 0 {
        assert(w.0 + pages.flatten() =~= w.0);
    } else {
        assert(pages[0].len() > 0);
        let rest = pages.drop_first();
        assert forall|j: int| 0 <= j < rest.len() implies #[trigger] rest[j].len() > 0 by {
            assert(rest[j] == pages[j + 1]);
        }
        lemma_walk_nonempty(walk_step(w, pages[0]), rest);
        assert(w.0 + pages.flatten() =~= (w.0 + pages[0]) + rest.flatten());
    }
}

/// A walk handed non-empty index pages and then an empty one at position `k`:
/// before each of the first `k` pages it asks for page `1 + j`, having gathered
/// the ids of the pages so far; the empty page ends it with the ids of all
/// pages before it, once each, in page order; pages after it change nothing.
pub proof fn lemma_walk_stops_at_first_empty_page(pages: Seq<Seq<i32>>, k: int)
    requires
        0 <= k < pages.len(),
        pages[k].len() == 0,
        forall|j: int| 0 <= j < k ==> #[trigger] pages[j].len() > 0,
    ensures
        forall|j: int| 0 <= j <= k ==> #[trigger] walk_through(walk_start(), pages.take(j)) == (
            pages.take(j).flatten(),
            1 + j,
            false,
        ),
        walk_through(walk_start(), pages.take(k + 1)) == (pages.take(k).flatten(), 1 + k, true),
        walk_through(walk_start(), pages) == walk_through(walk_start(), pages.take(k + 1)),
{
    assert forall|j: int| 0 <= j <= k implies #[trigger] walk_through(walk_start(), pages.take(j)) == (
        pages.take(j).flatten(),
        1 + j,
        false,
    ) by {
        let pre = pages.take(j);
        assert forall|i: int| 0 <= i < pre.len() implies #[trigger] pre[i].len() > 0 by {
            assert(pre[i] == pages[i]);
        }
        lemma_walk_nonempty(walk_start(), pre);
        assert(Seq::<i32>::empty() + pre.flatten() =~= pre.flatten());
    }
    let pre = pages.take(k + 1);
    assert forall|j: int| 0 <= j < k implies #[trigger] pre[j].len() > 0 by {
        assert(pre[j] == pages[j]);
    }
    assert(pre.take(k) =~= pages.take(k));
    lemma_walk_prefix(walk_start(), pre, k);
    lemma_walk_prefix(walk_start(), pages, k);
    assert(Seq::<i32>::empty() + pages.take(k).flatten() =~= pages.take(k).flatten());
}

/// A walk handed index pages of strictly decreasing size, down to an empty
/// page at position `k`, ends on that page, having gathered the ids of the
/// pages before it once each, in page order; pages after it change nothing.
pub proof fn lemma_walk_stops_at_empty_page(pages: Seq<Seq<i32>>, k: int)
    requires
        0 <= k < pages.len(),
        pages[k].len() == 0,
        forall|j: int| 0 <= j < k ==> #[trigger] pages[j].len() > pages[j + 1].len(),
    ensures
        walk_through(walk_start(), pages.take(k + 1)) == (pages.take(k).flatten(), 1 + k, true),
        walk_through(walk_start(), pages) == walk_through(walk_start(), pages.take(k + 1)),
{
    assert forall|j: int| 0 <= j < k implies #[trigger] pages[j].len() > 0 by {
        assert(pages[j].len() > pages[j + 1].len());
    }
    lemma_walk_stops_at_first_empty_page(pages, k);
}

} // verus!
