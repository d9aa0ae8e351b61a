//! The two origin sites and the submission record shared by both sources.
use vstd::prelude::*;
use vstd::string::*;
use crate::text::views;

verus! {

/// The site that a submission was fetched from.
#[derive(Debug, Clone, Copy, PartialEq, Eq, Structural)]
pub enum SubmissionSite {
    FurAffinity,
    Weasyl,
}

/// The stored name of each site.
pub open spec fn site_name(site: SubmissionSite) -> Seq<char> {
    match site {
        SubmissionSite::FurAffinity => "FurAffinity"@,
        SubmissionSite::Weasyl => "Weasyl"@,
    }
}

/// The site stored under `name`, if any.
pub open spec fn site_named(name: Seq<char>) -> Option<SubmissionSite> {
    if name == site_name(SubmissionSite::FurAffinity) {
        Some(SubmissionSite::FurAffinity)
    } else if name == site_name(SubmissionSite::Weasyl) {
        Some(SubmissionSite::Weasyl)
    } else {
        None
    }
}

impl SubmissionSite {
    /// The name under which the site is stored and shown.
    pub fn as_str(&self) -> (r: &'static str)
        ensures
            r@ == site_name(*self),
    {
        match self {
            SubmissionSite::FurAffinity => "FurAffinity",
            SubmissionSite::Weasyl => "Weasyl",
        }
    }

    /// The site stored under `name`, if any.
    pub fn from_name(name: &str) -> (r: Option<SubmissionSite>)
        ensures
            r == site_named(name@),
    {
        let given = String::from_str(name);
        let fa = String::from_str(SubmissionSite::FurAffinity.as_str());
        let weasyl = String::from_str(SubmissionSite::Weasyl.as_str());
        if given.eq(&fa) {
            Some(SubmissionSite::FurAffinity)
        } else if given.eq(&weasyl) {
            Some(SubmissionSite::Weasyl)
        } else {
            None
        }
    }
}

/// One creative work at an origin site; `(site, id)` identifies it.
/// `posted_at` is in seconds since the Unix epoch, UTC.
#[derive(Debug)]
pub struct Submission {
    pub id: i32,
    pub site: SubmissionSite,
    pub title: String,
    pub posted_at: i64,
    pub tags: Vec<String>,
}

impl Submission {
    /// The tags as character sequences, in stored order.
    pub open spec fn tag_list(&self) -> Seq<Seq<char>> {
        views(self.tags@)
    }
}

} // verus!
