//! The scraped gallery: reading a submission page, reading the edit form, and
//! building the form that writes tags back.
use vstd::prelude::*;
use vstd::string::*;
use chrono::TimeZone;
use crate::error::{FormField, ParseError};
use crate::html::{opt_view, all_texts, all_texts_of, first_attr, first_attr_of, first_attr_within, first_attr_within_of, first_text, first_text_of, first_text_within, first_text_within_of};
use crate::site::{Submission, SubmissionSite};
use crate::text::{join_spaces, join_with_spaces, views};

verus! {

pub const TITLE_SELECTOR: &'static str = ".submission-title h2 p";

pub const POSTED_AT_SELECTOR: &'static str = ".submission-id-sub-container strong span.popup_date";

pub const TAG_SELECTOR: &'static str = "section.tags-row a";

pub const FORM_SELECTOR: &'static str = "form[name=\"MsgForm\"]";

/// `s` without leading and trailing white space.
pub uninterp spec fn trim_of(s: Seq<char>) -> Seq<char>;

/// Relies on `str::trim`: strips leading and trailing white space.
#[verifier::external_body]
fn trim(s: &str) -> (r: String)
    ensures
        r@ == trim_of(s@),
{
    s.trim().to_string()
}

/// The pattern of a day of the month with its ordinal suffix ("5th").
pub const DAY_ORDINAL_PATTERN: &'static str = r"(\d{1,2})(st|nd|rd|th)";

/// What replaces a day with its ordinal suffix: the digits alone.
pub const DAY_DIGITS: &'static str = "$1";

/// The format of a posting time once the ordinal suffix is gone.
pub const POSTED_AT_FORMAT: &'static str = "%b %e, %Y %l:%M %p";

/// `text` with the first match of the regular expression `pattern` replaced
/// by `replacement` (where `$1` stands for the first group), or `None` where
/// `pattern` is not a valid regular expression.
pub uninterp spec fn replaced_first_of(pattern: Seq<char>, text: Seq<char>, replacement: Seq<char>) -> Option<Seq<char>>;

/// Relies on regex's `Regex::new` and `Regex::replace`: compiles the pattern,
/// then replaces its leftmost-first match.
#[verifier::external_body]
fn replace_first_match(pattern: &str, text: &str, replacement: &str) -> (r: Option<String>)
    ensures
        opt_view(r) == replaced_first_of(pattern@, text@, replacement@),
{
    let re = regex::Regex::new(pattern).ok()?;
    Some(re.replace(text, replacement).into_owned())
}

/// Seconds since the Unix epoch of the date and time that `s` writes in
/// `format`, read as if in UTC, if it parses.
pub uninterp spec fn naive_seconds_of(s: Seq<char>, format: Seq<char>) -> Option<i64>;

/// Relies on chrono's `NaiveDateTime::parse_from_str`, `and_utc` and
/// `timestamp`: the written date and time, without any time zone.
#[verifier::external_body]
fn naive_timestamp(s: &str, format: &str) -> (r: Option<i64>)
    ensures
        r == naive_seconds_of(s@, format@),
{
    chrono::NaiveDateTime::parse_from_str(s, format).ok().map(|d| d.and_utc().timestamp())
}

/// Relies on chrono's `DateTime::from_timestamp`, `naive_utc`,
/// `Local.from_local_datetime(..).single()` and `timestamp`: a wall-clock time
/// of the machine's time zone as seconds since the Unix epoch, `None` where the
/// zone skips it or holds it twice. A `FixedOffset` is less than a day, so the
/// result differs from the wall-clock seconds by less than a day.
#[verifier::external_body]
fn local_to_utc(wall_seconds: i64) -> (r: Option<i64>)
    ensures
        r is Some ==> wall_seconds - 86400 < r->0 < wall_seconds + 86400,
{
    let naive = chrono::DateTime::from_timestamp(wall_seconds, 0)?.naive_utc();
    chrono::Local.from_local_datetime(&naive).single().map(|d| d.timestamp())
}

/// The posting text with the day's ordinal suffix taken off, if the pattern
/// applies.
pub open spec fn cleaned_posted_at(raw: Seq<char>) -> Option<Seq<char>> {
    replaced_first_of(DAY_ORDINAL_PATTERN@, raw, DAY_DIGITS@)
}

/// The wall-clock seconds of a posting text, if it reads.
pub open spec fn posted_wall_seconds(raw: Seq<char>) -> Option<i64> {
    match cleaned_posted_at(raw) {
        Some(c) => naive_seconds_of(c, POSTED_AT_FORMAT@),
        None => None,
    }
}

/// Reads a posting text: the day's ordinal suffix taken off, then the date
/// and time read with the fixed format in the machine's time zone.
pub fn read_posted_at(raw: &str) -> (r: Option<i64>)
    ensures
        posted_wall_seconds(raw@) is None ==> r is None,
        r is Some ==> posted_wall_seconds(raw@) is Some
            && posted_wall_seconds(raw@)->0 - 86400 < r->0 < posted_wall_seconds(raw@)->0 + 86400,
{
    let cleaned = match replace_first_match(DAY_ORDINAL_PATTERN, raw, DAY_DIGITS) {
        Some(c) => c,
        None => {
            return None;
        },
    };
    match naive_timestamp(cleaned.as_str(), POSTED_AT_FORMAT) {
        Some(wall) => local_to_utc(wall),
        None => None,
    }
}

/// The trimmed strings.
pub open spec fn trimmed_all(v: Seq<Seq<char>>) -> Seq<Seq<char>> {
    v.map_values(|t: Seq<char>| trim_of(t))
}

fn trim_all(v: &Vec<String>) -> (r: Vec<String>)
    ensures
        views(r@) == trimmed_all(views(v@)),
{
    let mut out: Vec<String> = Vec::new();
    let mut i: usize = 0;
    while i < v.len()
        invariant
            i <= v@.len(),
            views(out@) == trimmed_all(views(v@.take(i as int))),
        decreases v@.len() - i,
    {
        let t = trim(v[i].as_str());
        let ghost prev = views(out@);
        out.push(t);
        proof {
            assert(views(v@.take(i + 1)) =~= views(v@.take(i as int)).push(v@[i as int]@));
            assert(views(out@) =~= prev.push(t@));
            assert(trimmed_all(views(v@.take(i + 1))) =~= trimmed_all(views(v@.take(i as int))).push(
                trim_of(v@[i as int]@),
            ));
        }
        i = i + 1;
    }
    proof {
        assert(v@.take(v@.len() as int) =~= v@);
    }
    out
}

/// The posted-at attribute as the page shows it, or why it is missing.
pub open spec fn posted_at_text(page: Seq<char>) -> Result<Seq<char>, ParseError> {
    match first_attr_of(page, POSTED_AT_SELECTOR@, "title"@) {
        None => Err(ParseError::MissingPostedAt),
        Some(None) => Err(ParseError::MissingPostedAtValue),
        Some(Some(v)) => Ok(v),
    }
}

/// A gallery submission from what its page yielded: the joined text of the
/// title element, the parsed posting time and the text of each tag link.
/// Title and tags are trimmed.
pub fn gallery_submission(id: i32, title_text: Option<String>, posted_at: Option<i64>, tag_texts: &Vec<String>) -> (r: Result<Submission, ParseError>)
    ensures
        match (title_text, posted_at) {
            (None, _) => r == Err::<Submission, ParseError>(ParseError::MissingTitle),
            (Some(_), None) => r == Err::<Submission, ParseError>(ParseError::UnknownDateFormat),
            (Some(t), Some(p)) => r is Ok && r->Ok_0.id == id && r->Ok_0.site == SubmissionSite::FurAffinity
                && r->Ok_0.title@ == trim_of(t@) && r->Ok_0.posted_at == p
                && r->Ok_0.tag_list() == trimmed_all(views(tag_texts@)),
        },
{
    let title = match title_text {
        None => {
            return Err(ParseError::MissingTitle);
        },
        Some(t) => trim(t.as_str()),
    };
    let posted = match posted_at {
        None => {
            return Err(ParseError::UnknownDateFormat);
        },
        Some(p) => p,
    };
    let tags = trim_all(tag_texts);
    Ok(Submission { id, site: SubmissionSite::FurAffinity, title, posted_at: posted, tags })
}

/// Reads a submission page. A missing title, posted-at element or posted-at
/// value is an error, in that order; the posting time, with the ordinal
/// suffix of its day taken off, is read in the machine's time zone.
pub fn parse_submission_page(id: i32, page: &str) -> (r: Result<Submission, ParseError>)
    ensures
        first_text_of(page@, TITLE_SELECTOR@) is None ==> r == Err::<Submission, ParseError>(ParseError::MissingTitle),
        first_text_of(page@, TITLE_SELECTOR@) is Some && posted_at_text(page@) is Err
            ==> r == Err::<Submission, ParseError>(posted_at_text(page@)->Err_0),
        first_text_of(page@, TITLE_SELECTOR@) is Some && posted_at_text(page@) is Ok ==> (match r {
            Ok(s) => s.id == id && s.site == SubmissionSite::FurAffinity
                && s.title@ == trim_of(first_text_of(page@, TITLE_SELECTOR@)->0)
                && s.tag_list() == trimmed_all(all_texts_of(page@, TAG_SELECTOR@))
                && posted_wall_seconds(posted_at_text(page@)->Ok_0) is Some
                && posted_wall_seconds(posted_at_text(page@)->Ok_0)->0 - 86400 < s.posted_at
                && s.posted_at < posted_wall_seconds(posted_at_text(page@)->Ok_0)->0 + 86400,
            Err(e) => e == ParseError::UnknownDateFormat,
        }),
        first_text_of(page@, TITLE_SELECTOR@) is Some && posted_at_text(page@) is Ok
            && posted_wall_seconds(posted_at_text(page@)->Ok_0) is None
            ==> r == Err::<Submission, ParseError>(ParseError::UnknownDateFormat),
{
    let title_text = first_text(page, TITLE_SELECTOR);
    if title_text.is_none() {
        return Err(ParseError::MissingTitle);
    }
    let raw = match first_attr(page, POSTED_AT_SELECTOR, "title") {
        None => {
            return Err(ParseError::MissingPostedAt);
        },
        Some(None) => {
            return Err(ParseError::MissingPostedAtValue);
        },
        Some(Some(v)) => v,
    };
    let posted_at = read_posted_at(raw.as_str());
    let tag_texts = all_texts(page, TAG_SELECTOR);
    proof {
        assert(views(tag_texts@) =~= all_texts_of(page@, TAG_SELECTOR@));
    }
    gallery_submission(id, title_text, posted_at, &tag_texts)
}

/// The selector of each field inside the edit form.
pub open spec fn field_selector_spec(f: FormField) -> Seq<char> {
    match f {
        FormField::Key => "input[name=\"key\"]"@,
        FormField::Rating => "input[name=\"rating\"][checked]"@,
        FormField::Title => "#title"@,
        FormField::Message => "#JSMessage"@,
        FormField::Category => "select[name=\"cat\"] option[selected]"@,
        FormField::Kind => "select[name=\"atype\"] option[selected]"@,
        FormField::Species => "select[name=\"species\"] option[selected]"@,
        FormField::Gender => "select[name=\"gender\"] option[selected]"@,
    }
}

/// The selector of a field inside the edit form.
pub fn field_selector(f: FormField) -> (r: &'static str)
    ensures
        r@ == field_selector_spec(f),
{
    match f {
        FormField::Key => "input[name=\"key\"]",
        FormField::Rating => "input[name=\"rating\"][checked]",
        FormField::Title => "#title",
        FormField::Message => "#JSMessage",
        FormField::Category => "select[name=\"cat\"] option[selected]",
        FormField::Kind => "select[name=\"atype\"] option[selected]",
        FormField::Species => "select[name=\"species\"] option[selected]",
        FormField::Gender => "select[name=\"gender\"] option[selected]",
    }
}

/// The value of a field of the page's edit form: the text of the
/// description, the `value` attribute of every other field.
pub open spec fn field_value(page: Seq<char>, f: FormField) -> Option<Seq<char>> {
    if f == FormField::Message {
        first_text_within_of(page, FORM_SELECTOR@, field_selector_spec(f))
    } else {
        match first_attr_within_of(page, FORM_SELECTOR@, field_selector_spec(f), "value"@) {
            Some(Some(v)) => Some(v),
            _ => None,
        }
    }
}

/// Reads one field of the page's edit form.
pub fn read_field(page: &str, f: FormField) -> (r: Result<String, ParseError>)
    ensures
        match field_value(page@, f) {
            Some(v) => r is Ok && r->Ok_0@ == v,
            None => r == Err::<String, ParseError>(ParseError::MissingField(f)),
        },
{
    let sel = field_selector(f);
    match f {
        FormField::Message => match first_text_within(page, FORM_SELECTOR, sel) {
            Some(t) => Ok(t),
            None => Err(ParseError::MissingField(f)),
        },
        _ => match first_attr_within(page, FORM_SELECTOR, sel, "value") {
            Some(Some(v)) => Ok(v),
            _ => Err(ParseError::MissingField(f)),
        },
    }
}

/// The fields of the edit form that a tag change sends back unchanged.
pub struct EditData {
    pub key: String,
    pub cat: String,
    pub atype: String,
    pub species: String,
    pub gender: String,
    pub rating: String,
    pub title: String,
    pub message: String,
}

/// The fields in the order in which they are read.
pub open spec fn form_fields() -> Seq<FormField> {
    seq![
        FormField::Key,
        FormField::Rating,
        FormField::Title,
        FormField::Message,
        FormField::Category,
        FormField::Kind,
        FormField::Species,
        FormField::Gender,
    ]
}

/// The first field, in reading order, that the page's form lacks.
pub open spec fn first_missing(page: Seq<char>) -> Option<FormField> {
    first_missing_from(page, form_fields())
}

pub open spec fn first_missing_from(page: Seq<char>, fields: Seq<FormField>) -> Option<FormField>
    decreases fields.len(),
{
    if fields.len() == 0 {
        None
    } else if field_value(page, fields[0]) is None {
        Some(fields[0])
    } else {
        first_missing_from(page, fields.drop_first())
    }
}

impl EditData {
    /// The value held for each field.
    pub open spec fn get(&self, f: FormField) -> Seq<char> {
        match f {
            FormField::Key => self.key@,
            FormField::Rating => self.rating@,
            FormField::Title => self.title@,
            FormField::Message => self.message@,
            FormField::Category => self.cat@,
            FormField::Kind => self.atype@,
            FormField::Species => self.species@,
            FormField::Gender => self.gender@,
        }
    }
}

/// Reads the edit page of a submission: the form, then each field in
/// reading order; the first one missing is the error.
pub fn parse_document(page: &str) -> (r: Result<EditData, ParseError>)
    ensures
        first_text_of(page@, FORM_SELECTOR@) is None ==> r == Err::<EditData, ParseError>(ParseError::MissingForm),
        first_text_of(page@, FORM_SELECTOR@) is Some ==> match first_missing(page@) {
            Some(f) => r == Err::<EditData, ParseError>(ParseError::MissingField(f)),
            None => r is Ok && forall|f: FormField| field_value(page@, f) == Some(#[trigger] r->Ok_0.get(f)),
        },
{
    if first_text(page, FORM_SELECTOR).is_none() {
        return Err(ParseError::MissingForm);
    }
    let ghost fields = form_fields();
    proof {
        reveal_with_fuel(first_missing_from, 9);
        assert(fields.drop_first() =~= seq![FormField::Rating, FormField::Title, FormField::Message, FormField::Category, FormField::Kind, FormField::Species, FormField::Gender]);
        assert(fields.drop_first().drop_first() =~= seq![FormField::Title, FormField::Message, FormField::Category, FormField::Kind, FormField::Species, FormField::Gender]);
        assert(fields.drop_first().drop_first().drop_first() =~= seq![FormField::Message, FormField::Category, FormField::Kind, FormField::Species, FormField::Gender]);
        assert(fields.drop_first().drop_first().drop_first().drop_first() =~= seq![FormField::Category, FormField::Kind, FormField::Species, FormField::Gender]);
        assert(fields.drop_first().drop_first().drop_first().drop_first().drop_first() =~= seq![FormField::Kind, FormField::Species, FormField::Gender]);
        assert(fields.drop_first().drop_first().drop_first().drop_first().drop_first().drop_first() =~= seq![FormField::Species, FormField::Gender]);
        assert(fields.drop_first().drop_first().drop_first().drop_first().drop_first().drop_first().drop_first() =~= seq![FormField::Gender]);
        assert(fields.drop_first().drop_first().drop_first().drop_first().drop_first().drop_first().drop_first().drop_first() =~= Seq::<FormField>::empty());
    }
    let key = read_field(page, FormField::Key)?;
    let rating = read_field(page, FormField::Rating)?;
    let title = read_field(page, FormField::Title)?;
    let message = read_field(page, FormField::Message)?;
    let cat = read_field(page, FormField::Category)?;
    let atype = read_field(page, FormField::Kind)?;
    let species = read_field(page, FormField::Species)?;
    let gender = read_field(page, FormField::Gender)?;
    let data = EditData { key, cat, atype, species, gender, rating, title, message };
    proof {
        assert forall|f: FormField| field_value(page@, f) == Some(#[trigger] data.get(f)) by {
            match f {
                FormField::Key => {},
                FormField::Rating => {},
                FormField::Title => {},
                FormField::Message => {},
                FormField::Category => {},
                FormField::Kind => {},
                FormField::Species => {},
                FormField::Gender => {},
            }
        }
    }
    Ok(data)
}

/// A name and value of a submitted form.
pub open spec fn pair_views(v: Seq<(String, String)>) -> Seq<(Seq<char>, Seq<char>)> {
    v.map_values(|p: (String, String)| (p.0@, p.1@))
}

fn pair(name: &str, value: String) -> (r: (String, String))
    ensures
        r.0@ == name@,
        r.1@ == value@,
{
    (String::from_str(name), value)
}

/// The form that sets the tags of a submission: the finalize marker, the tags
/// joined by spaces, and every other field as the edit page had it.
pub fn edit_submission_form(data: EditData, tags: &[String]) -> (r: Vec<(String, String)>)
    ensures
        pair_views(r@) == seq![
            ("update"@, "yes"@),
            ("submit"@, "+Finalize"@),
            ("keywords"@, join_spaces(views(tags@))),
            ("key"@, data.key@),
            ("cat"@, data.cat@),
            ("atype"@, data.atype@),
            ("species"@, data.species@),
            ("gender"@, data.gender@),
            ("rating"@, data.rating@),
            ("title"@, data.title@),
            ("message"@, data.message@),
        ],
{
    let mut out: Vec<(String, String)> = Vec::new();
    out.push(pair("update", String::from_str("yes")));
    out.push(pair("submit", String::from_str("+Finalize")));
    out.push(pair("keywords", join_with_spaces(tags)));
    out.push(pair("key", data.key));
    out.push(pair("cat", data.cat));
    out.push(pair("atype", data.atype));
    out.push(pair("species", data.species));
    out.push(pair("gender", data.gender));
    out.push(pair("rating", data.rating));
    out.push(pair("title", data.title));
    out.push(pair("message", data.message));
    proof {
        assert(pair_views(out@) =~= seq![
            ("update"@, "yes"@),
            ("submit"@, "+Finalize"@),
            ("keywords"@, join_spaces(views(tags@))),
            ("key"@, data.key@),
            ("cat"@, data.cat@),
            ("atype"@, data.atype@),
            ("species"@, data.species@),
            ("gender"@, data.gender@),
            ("rating"@, data.rating@),
            ("title"@, data.title@),
            ("message"@, data.message@),
        ]);
    }
    out
}

/// The cookie header that carries the two session cookies.
pub fn cookie_header(cookie_a: &str, cookie_b: &str) -> (r: String)
    ensures
        r@ == "a="@ + cookie_a@ + ";b="@ + cookie_b@,
{
    let mut out = String::from_str("a=");
    out.append(cookie_a);
    out.append(";b=");
    out.append(cookie_b);
    out
}

} // verus!
