//! Reading HTML pages through the `scraper` crate. Each reader parses the page
//! as a document and applies one CSS selector; a selector that does not parse
//! matches nothing.
use vstd::prelude::*;

verus! {

/// Inside the first element that `outer` matches, the first element that
/// `inner` matches: the value of its attribute `attr`, if it has one. `None`
/// where either element is missing.
pub uninterp spec fn first_attr_within_of(page: Seq<char>, outer: Seq<char>, inner: Seq<char>, attr: Seq<char>) -> Option<Option<Seq<char>>>;

/// Inside the first element that `outer` matches, the joined text nodes of the
/// first element that `inner` matches. `None` where either element is missing.
pub uninterp spec fn first_text_within_of(page: Seq<char>, outer: Seq<char>, inner: Seq<char>) -> Option<Seq<char>>;

/// For the first element that `selector` matches: the value of its attribute
/// `attr`, if it has one.
pub uninterp spec fn first_attr_of(page: Seq<char>, selector: Seq<char>, attr: Seq<char>) -> Option<Option<Seq<char>>>;

/// The text nodes under the first element that `selector` matches, joined.
pub uninterp spec fn first_text_of(page: Seq<char>, selector: Seq<char>) -> Option<Seq<char>>;

/// The joined text nodes of each element that `selector` matches, in document order.
pub uninterp spec fn all_texts_of(page: Seq<char>, selector: Seq<char>) -> Seq<Seq<char>>;

/// The value of attribute `attr` (if any) of each element that `selector`
/// matches, in document order.
pub uninterp spec fn all_attrs_of(page: Seq<char>, selector: Seq<char>, attr: Seq<char>) -> Seq<Option<Seq<char>>>;

pub open spec fn opt_view(o: Option<String>) -> Option<Seq<char>> {
    match o {
        Some(s) => Some(s@),
        None => None,
    }
}

pub open spec fn opt_opt_view(o: Option<Option<String>>) -> Option<Option<Seq<char>>> {
    match o {
        Some(inner) => Some(opt_view(inner)),
        None => None,
    }
}

/// Relies on scraper's `Html::parse_document`, `Selector::parse`,
/// `Html::select`, `ElementRef::select` and `ElementRef::attr`: an attribute
/// of the first `inner` match under the first `outer` match.
#[verifier::external_body]
pub(crate) fn first_attr_within(page: &str, outer: &str, inner: &str, attr: &str) -> (r: Option<Option<String>>)
    ensures
        opt_opt_view(r) == first_attr_within_of(page@, outer@, inner@, attr@),
{
    let outer_sel = scraper::Selector::parse(outer).ok()?;
    let inner_sel = scraper::Selector::parse(inner).ok()?;
    let doc = scraper::Html::parse_document(page);
    let container = doc.select(&outer_sel).next()?;
    let found = container.select(&inner_sel).next()?;
    Some(found.attr(attr).map(|v| v.to_string()))
}

/// Relies on scraper's `Html::parse_document`, `Selector::parse`,
/// `Html::select`, `ElementRef::select` and `ElementRef::text`: the text of
/// the first `inner` match under the first `outer` match.
#[verifier::external_body]
pub(crate) fn first_text_within(page: &str, outer: &str, inner: &str) -> (r: Option<String>)
    ensures
        opt_view(r) == first_text_within_of(page@, outer@, inner@),
{
    let outer_sel = scraper::Selector::parse(outer).ok()?;
    let inner_sel = scraper::Selector::parse(inner).ok()?;
    let doc = scraper::Html::parse_document(page);
    let container = doc.select(&outer_sel).next()?;
    let found = container.select(&inner_sel).next()?;
    Some(found.text().collect::<String>())
}

/// Relies on scraper's `Html::parse_document`, `Selector::parse`,
/// `Html::select` and `ElementRef::attr`: an attribute of the first match.
#[verifier::external_body]
pub(crate) fn first_attr(page: &str, selector: &str, attr: &str) -> (r: Option<Option<String>>)
    ensures
        opt_opt_view(r) == first_attr_of(page@, selector@, attr@),
{
    let sel = scraper::Selector::parse(selector).ok()?;
    let doc = scraper::Html::parse_document(page);
    let first = doc.select(&sel).next();
    first.map(|e| e.attr(attr).map(|v| v.to_string()))
}

/// Relies on scraper's `Html::parse_document`, `Selector::parse`,
/// `Html::select` and `ElementRef::text`: the text of the first match.
#[verifier::external_body]
pub(crate) fn first_text(page: &str, selector: &str) -> (r: Option<String>)
    ensures
        opt_view(r) == first_text_of(page@, selector@),
{
    let sel = scraper::Selector::parse(selector).ok()?;
    let doc = scraper::Html::parse_document(page);
    let first = doc.select(&sel).next();
    first.map(|e| e.text().collect::<String>())
}

/// Relies on scraper's `Html::parse_document`, `Selector::parse`,
/// `Html::select` and `ElementRef::text`: the text of every match.
#[verifier::external_body]
pub(crate) fn all_texts(page: &str, selector: &str) -> (r: Vec<String>)
    ensures
        r@.map_values(|s: String| s@) == all_texts_of(page@, selector@),
{
    let Ok(sel) = scraper::Selector::parse(selector) else {
        return Vec::new();
    };
    let doc = scraper::Html::parse_document(page);
    doc.select(&sel).map(|e| e.text().collect::<String>()).collect()
}

/// Relies on scraper's `Html::parse_document`, `Selector::parse`,
/// `Html::select` and `ElementRef::attr`: an attribute of every match.
#[verifier::external_body]
pub(crate) fn all_attrs(page: &str, selector: &str, attr: &str) -> (r: Vec<Option<String>>)
    ensures
        r@.map_values(|o: Option<String>| opt_view(o)) == all_attrs_of(page@, selector@, attr@),
{
    let Ok(sel) = scraper::Selector::parse(selector) else {
        return Vec::new();
    };
    let doc = scraper::Html::parse_document(page);
    doc.select(&sel).map(|e| e.attr(attr).map(|v| v.to_string())).collect()
}

} // verus!
