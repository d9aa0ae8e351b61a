//! The tag query and tag change language: space-separated tokens, where a
//! leading `-` excludes (in a query) or removes (in a change) a tag.
use vstd::prelude::*;
use crate::site::Submission;
use crate::text::{ascii_lower, same_text, copy_strings, split_on_spaces, split_spaces, to_ascii_lower, views};

verus! {

/// A token that starts with `-`.
pub open spec fn is_exclusion(t: Seq<char>) -> bool {
    t.len() > 0 && t[0] == '-'
}

/// The lower-cased tokens of a query.
pub open spec fn query_tokens(q: Seq<char>) -> Seq<Seq<char>> {
    split_spaces(q).map_values(|t: Seq<char>| ascii_lower(t))
}

/// The tags of a list, lower-cased.
pub open spec fn lowered(tags: Seq<Seq<char>>) -> Seq<Seq<char>> {
    tags.map_values(|t: Seq<char>| ascii_lower(t))
}

/// Whether some tag of the list lower-cases to `t`.
pub open spec fn has_tag(tags: Seq<Seq<char>>, t: Seq<char>) -> bool {
    lowered(tags).contains(t)
}

/// A submission with these tags matches the query: each plain token names a
/// tag it has and each `-` token names a tag it lacks, ignoring ASCII case.
pub open spec fn matches(tags: Seq<Seq<char>>, q: Seq<char>) -> bool {
    forall|i: int|
        0 <= i < query_tokens(q).len() ==> (if is_exclusion(#[trigger] query_tokens(q)[i]) {
            !has_tag(tags, query_tokens(q)[i].drop_first())
        } else {
            has_tag(tags, query_tokens(q)[i])
        })
}

pub open spec fn keep_required(t: Seq<char>) -> Option<Seq<char>> {
    if is_exclusion(t) {
        None
    } else {
        Some(t)
    }
}

pub open spec fn keep_excluded(t: Seq<char>) -> Option<Seq<char>> {
    if is_exclusion(t) {
        Some(t.drop_first())
    } else {
        None
    }
}

/// The required tags of a query, lower-cased, in query order.
pub open spec fn required_tags(q: Seq<char>) -> Seq<Seq<char>> {
    query_tokens(q).filter_map(|t: Seq<char>| keep_required(t))
}

/// The excluded tags of a query (without their `-`), lower-cased, in query order.
pub open spec fn excluded_tags(q: Seq<char>) -> Seq<Seq<char>> {
    query_tokens(q).filter_map(|t: Seq<char>| keep_excluded(t))
}

/// Set semantics of a parsed query: every required tag present and no
/// excluded tag present.
pub open spec fn accepts(required: Seq<Seq<char>>, excluded: Seq<Seq<char>>, tags: Seq<Seq<char>>) -> bool {
    (forall|t: Seq<char>| required.contains(t) ==> has_tag(tags, t))
    && (forall|t: Seq<char>| excluded.contains(t) ==> !has_tag(tags, t))
}

proof fn lemma_split_of_lowered(s: Seq<char>)
    ensures
        split_spaces(ascii_lower(s)) == split_spaces(s).map_values(|t: Seq<char>| ascii_lower(t)),
    decreases s.len(),
{
    crate::text::lemma_split_by_nonempty(s, ' ');
    assert(ascii_lower(Seq::<char>::empty()) =~= Seq::<char>::empty());
    if s.len() == 0 {
        assert(ascii_lower(s) =~= s);
        assert(split_spaces(s).map_values(|t: Seq<char>| ascii_lower(t)) =~= seq![Seq::<char>::empty()]);
    } else {
        let c = s.last();
        let rest = s.drop_last();
        assert(ascii_lower(s).drop_last() =~= ascii_lower(rest));
        assert(ascii_lower(s).last() == crate::text::lower_char(c));
        lemma_split_of_lowered(rest);
        crate::text::lemma_split_by_nonempty(rest, ' ');
        let prev = split_spaces(rest);
        let lprev = prev.map_values(|t: Seq<char>| ascii_lower(t));
        if c == ' ' {
            assert(split_spaces(s).map_values(|t: Seq<char>| ascii_lower(t)) =~= lprev.push(Seq::<char>::empty()));
        } else {
            assert(crate::text::lower_char(c) != ' ');
            assert(ascii_lower(prev.last().push(c)) =~= ascii_lower(prev.last()).push(crate::text::lower_char(c)));
            assert(split_spaces(s).map_values(|t: Seq<char>| ascii_lower(t)) =~= lprev.update(
                lprev.len() - 1,
                lprev.last().push(crate::text::lower_char(c)),
            ));
        }
    }
}

/// Matching ignores ASCII case in the query and in the tags, and ignores the
/// order and repetition of tags: two queries equal up to ASCII case, and two
/// tag lists with the same tags up to ASCII case, order and repetition, give
/// the same answer.
pub proof fn lemma_matching_ignores_case_and_repetition(
    tags: Seq<Seq<char>>,
    tags2: Seq<Seq<char>>,
    q: Seq<char>,
    q2: Seq<char>,
)
    requires
        ascii_lower(q) == ascii_lower(q2),
        lowered(tags).to_set() == lowered(tags2).to_set(),
    ensures
        matches(tags, q) == matches(tags2, q2),
{
    lemma_split_of_lowered(q);
    lemma_split_of_lowered(q2);
    assert(query_tokens(q) == query_tokens(q2));
    assert forall|t: Seq<char>| has_tag(tags, t) == has_tag(tags2, t) by {
        assert(lowered(tags).to_set().contains(t) == lowered(tags).contains(t));
        assert(lowered(tags2).to_set().contains(t) == lowered(tags2).contains(t));
    }
}

/// Membership in a `filter_map`: `t` is kept iff some element maps to it.
pub proof fn lemma_filter_map_member(
    s: Seq<Seq<char>>,
    f: spec_fn(Seq<char>) -> Option<Seq<char>>,
    t: Seq<char>,
)
    ensures
        s.filter_map(f).contains(t) <==> exists|i: int| 0 <= i < s.len() && f(s[i]) == Some(t),
    decreases s.len(),
{
    if s.len() > 0 {
        let rest = s.drop_last();
        lemma_filter_map_member(rest, f, t);
        if s.filter_map(f).contains(t) {
            if f(s.last()) != Some(t) {
                let k = choose|k: int| 0 <= k < s.filter_map(f).len() && s.filter_map(f)[k] == t;
                match f(s.last()) {
                    Some(x) => {
                        assert(k < rest.filter_map(f).len());
                        assert(rest.filter_map(f)[k] == t);
                    },
                    None => {
                        assert(rest.filter_map(f)[k] == t);
                    },
                }
                let i = choose|i: int| 0 <= i < rest.len() && f(rest[i]) == Some(t);
                assert(s[i] == rest[i]);
            } else {
                assert(f(s[s.len() - 1]) == Some(t));
            }
        }
        if exists|i: int| 0 <= i < s.len() && f(s[i]) == Some(t) {
            let i = choose|i: int| 0 <= i < s.len() && f(s[i]) == Some(t);
            if i == s.len() - 1 {
                assert(s.filter_map(f).last() == t);
                assert(s.filter_map(f).contains(t));
            } else {
                assert(rest[i] == s[i]);
                assert(rest.filter_map(f).contains(t));
                let k = choose|k: int| 0 <= k < rest.filter_map(f).len() && rest.filter_map(f)[k] == t;
                assert(s.filter_map(f)[k] == t);
            }
        }
    }
}

/// Parsing a query into required and excluded tags and testing them as sets
/// gives exactly the token-by-token meaning of the query.
pub proof fn lemma_parsed_query_matches(tags: Seq<Seq<char>>, q: Seq<char>)
    ensures
        accepts(required_tags(q), excluded_tags(q), tags) == matches(tags, q),
{
    let toks = query_tokens(q);
    let fr = |t: Seq<char>| keep_required(t);
    let fe = |t: Seq<char>| keep_excluded(t);
    if accepts(required_tags(q), excluded_tags(q), tags) {
        assert forall|i: int| 0 <= i < toks.len() implies (if is_exclusion(#[trigger] toks[i]) {
            !has_tag(tags, toks[i].drop_first())
        } else {
            has_tag(tags, toks[i])
        }) by {
            if is_exclusion(toks[i]) {
                lemma_filter_map_member(toks, fe, toks[i].drop_first());
            } else {
                lemma_filter_map_member(toks, fr, toks[i]);
            }
        }
    }
    if matches(tags, q) {
        assert forall|t: Seq<char>| required_tags(q).contains(t) implies has_tag(tags, t) by {
            lemma_filter_map_member(toks, fr, t);
            let i = choose|i: int| 0 <= i < toks.len() && fr(toks[i]) == Some(t);
            assert(is_exclusion(toks[i]) || !is_exclusion(toks[i]));
        }
        assert forall|t: Seq<char>| excluded_tags(q).contains(t) implies !has_tag(tags, t) by {
            lemma_filter_map_member(toks, fe, t);
            let i = choose|i: int| 0 <= i < toks.len() && fe(toks[i]) == Some(t);
            assert(is_exclusion(toks[i]) || !is_exclusion(toks[i]));
        }
    }
}

/// A parsed query.
pub struct TagQuery {
    pub required: Vec<String>,
    pub excluded: Vec<String>,
}

impl TagQuery {
    pub open spec fn required_list(&self) -> Seq<Seq<char>> {
        views(self.required@)
    }

    pub open spec fn excluded_list(&self) -> Seq<Seq<char>> {
        views(self.excluded@)
    }
}

/// Lower-cases each string of the list.
pub fn lower_all(v: &[String]) -> (r: Vec<String>)
    ensures
        views(r@) == lowered(views(v@)),
{
    let mut out: Vec<String> = Vec::new();
    let mut i: usize = 0;
    while i < v.len()
        invariant
            i <= v@.len(),
            views(out@) == lowered(views(v@.take(i as int))),
        decreases v@.len() - i,
    {
        let l = to_ascii_lower(v[i].as_str());
        out.push(l);
        proof {
            assert(views(v@.take(i + 1)) =~= views(v@.take(i as int)).push(v@[i as int]@));
            assert(lowered(views(v@.take(i + 1))) =~= lowered(views(v@.take(i as int))).push(
                ascii_lower(v@[i as int]@),
            ));
            assert(views(out@) =~= views(out@).drop_last().push(l@));
        }
        i = i + 1;
    }
    proof {
        assert(v@.take(v@.len() as int) =~= v@);
    }
    out
}

/// Whether `t` is one of the strings of `v`.
pub fn contains_text(v: &Vec<String>, t: &String) -> (r: bool)
    ensures
        r == views(v@).contains(t@),
{
    let mut i: usize = 0;
    while i < v.len()
        invariant
            i <= v@.len(),
            forall|j: int| 0 <= j < i ==> v@[j]@ != t@,
        decreases v@.len() - i,
    {
        if same_text(&v[i], t) {
            proof {
                assert(views(v@)[i as int] == t@);
            }
            return true;
        }
        i = i + 1;
    }
    proof {
        if views(v@).contains(t@) {
            let j = choose|j: int| 0 <= j < views(v@).len() && views(v@)[j] == t@;
            assert(v@[j]@ == t@);
        }
    }
    false
}

/// Splits a query into its required and its excluded tags, lower-cased.
pub fn parse_query(query: &str) -> (r: TagQuery)
    ensures
        r.required_list() == required_tags(query@),
        r.excluded_list() == excluded_tags(query@),
{
    let raw = split_on_spaces(query);
    let toks = lower_all(raw.as_slice());
    proof {
        assert(views(toks@) =~= query_tokens(query@));
    }
    let mut required: Vec<String> = Vec::new();
    let mut excluded: Vec<String> = Vec::new();
    let mut i: usize = 0;
    while i < toks.len()
        invariant
            i <= toks@.len(),
            views(toks@) == query_tokens(query@),
            views(required@) == views(toks@).take(i as int).filter_map(|t: Seq<char>| keep_required(t)),
            views(excluded@) == views(toks@).take(i as int).filter_map(|t: Seq<char>| keep_excluded(t)),
        decreases toks@.len() - i,
    {
        let tok = toks[i].as_str();
        let n = tok.unicode_len();
        proof {
            assert(views(toks@).take(i + 1).drop_last() =~= views(toks@).take(i as int));
            assert(views(toks@).take(i + 1).last() == tok@);
        }
        if n > 0 && tok.get_char(0) == '-' {
            let rest = String::from_str(tok.substring_char(1, n));
            excluded.push(rest);
            proof {
                assert(rest@ =~= tok@.drop_first());
                assert(views(excluded@) =~= views(excluded@).drop_last() + seq![rest@]);
            }
        } else {
            required.push(toks[i].clone());
            proof {
                assert(views(required@) =~= views(required@).drop_last() + seq![tok@]);
            }
        }
        i = i + 1;
    }
    proof {
        assert(views(toks@).take(toks@.len() as int) =~= views(toks@));
    }
    TagQuery { required, excluded }
}

impl TagQuery {
    /// Whether a submission with these tags passes the query.
    pub fn accepts_tags(&self, tags: &[String]) -> (r: bool)
        ensures
            r == accepts(self.required_list(), self.excluded_list(), views(tags@)),
    {
        let lowered_tags = lower_all(tags);
        let mut i: usize = 0;
        while i < self.required.len()
            invariant
                i <= self.required@.len(),
                views(lowered_tags@) == lowered(views(tags@)),
                forall|j: int| 0 <= j < i ==> has_tag(views(tags@), #[trigger] self.required@[j]@),
            decreases self.required@.len() - i,
        {
            if !contains_text(&lowered_tags, &self.required[i]) {
                proof {
                    assert(self.required_list()[i as int] == self.required@[i as int]@);
                    assert(self.required_list().contains(self.required@[i as int]@));
                }
                return false;
            }
            i = i + 1;
        }
        let mut k: usize = 0;
        while k < self.excluded.len()
            invariant
                k <= self.excluded@.len(),
                views(lowered_tags@) == lowered(views(tags@)),
                forall|j: int| 0 <= j < k ==> !has_tag(views(tags@), #[trigger] self.excluded@[j]@),
            decreases self.excluded@.len() - k,
        {
            if contains_text(&lowered_tags, &self.excluded[k]) {
                proof {
                    assert(self.excluded_list()[k as int] == self.excluded@[k as int]@);
                    assert(self.excluded_list().contains(self.excluded@[k as int]@));
                }
                return false;
            }
            k = k + 1;
        }
        proof {
            assert forall|t: Seq<char>| self.required_list().contains(t) implies has_tag(views(tags@), t) by {
                let j = choose|j: int| 0 <= j < self.required_list().len() && self.required_list()[j] == t;
                assert(self.required@[j]@ == t);
            }
            assert forall|t: Seq<char>| self.excluded_list().contains(t) implies !has_tag(views(tags@), t) by {
                let j = choose|j: int| 0 <= j < self.excluded_list().len() && self.excluded_list()[j] == t;
                assert(self.excluded@[j]@ == t);
            }
        }
        true
    }
}

/// The submissions that match the query, in their given order.
pub open spec fn matching(subs: Seq<Submission>, q: Seq<char>) -> Seq<Submission> {
    subs.filter_map(|s: Submission| if matches(s.tag_list(), q) { Some(s) } else { None })
}

/// The submissions of `submissions` that match `query`, in their given order.
pub fn query_submissions<'a>(submissions: &'a [Submission], query: &str) -> (r: Vec<&'a Submission>)
    ensures
        r@.map_values(|s: &Submission| *s) == matching(submissions@, query@),
{
    let parsed = parse_query(query);
    let mut out: Vec<&'a Submission> = Vec::new();
    let mut i: usize = 0;
    while i < submissions.len()
        invariant
            i <= submissions@.len(),
            parsed.required_list() == required_tags(query@),
            parsed.excluded_list() == excluded_tags(query@),
            out@.map_values(|s: &Submission| *s) == matching(submissions@.take(i as int), query@),
        decreases submissions@.len() - i,
    {
        let sub = &submissions[i];
        let ok = parsed.accepts_tags(sub.tags.as_slice());
        proof {
            lemma_parsed_query_matches(sub.tag_list(), query@);
            assert(submissions@.take(i + 1).drop_last() =~= submissions@.take(i as int));
            assert(submissions@.take(i + 1).last() == *sub);
        }
        if ok {
            out.push(sub);
            proof {
                assert(out@.map_values(|s: &Submission| *s) =~= out@.drop_last().map_values(
                    |s: &Submission| *s,
                ).push(*sub));
            }
        }
        i = i + 1;
    }
    proof {
        assert(submissions@.take(submissions@.len() as int) =~= submissions@);
    }
    out
}

pub open spec fn keep_addition(t: Seq<char>) -> Option<Seq<char>> {
    if is_exclusion(t) {
        None
    } else {
        Some(t)
    }
}

pub open spec fn keep_removal(t: Seq<char>) -> Option<Seq<char>> {
    if is_exclusion(t) {
        Some(ascii_lower(t.drop_first()))
    } else {
        None
    }
}

/// The tokens of a change that add a tag, as written.
pub open spec fn additions(change: Seq<char>) -> Seq<Seq<char>> {
    split_spaces(change).filter_map(|t: Seq<char>| keep_addition(t))
}

/// The tags that a change removes (without their `-`), lower-cased.
pub open spec fn removals(change: Seq<char>) -> Seq<Seq<char>> {
    split_spaces(change).filter_map(|t: Seq<char>| keep_removal(t))
}

/// Keeps the tags that no removal names, ignoring ASCII case.
pub open spec fn without_removed(tags: Seq<Seq<char>>, removed: Seq<Seq<char>>) -> Seq<Seq<char>> {
    tags.filter_map(|t: Seq<char>| if removed.contains(ascii_lower(t)) { None } else { Some(t) })
}

/// The tags after a change: the additions appended after the existing tags,
/// then every tag that a removal names taken out.
pub open spec fn apply_change(tags: Seq<Seq<char>>, change: Seq<char>) -> Seq<Seq<char>> {
    without_removed(tags + additions(change), removals(change))
}

proof fn lemma_no_additions(toks: Seq<Seq<char>>)
    requires
        forall|i: int| 0 <= i < toks.len() ==> is_exclusion(#[trigger] toks[i]),
    ensures
        toks.filter_map(|t: Seq<char>| keep_addition(t)) == Seq::<Seq<char>>::empty(),
    decreases toks.len(),
{
    if toks.len() > 0 {
        lemma_no_additions(toks.drop_last());
        assert(is_exclusion(toks[toks.len() - 1]));
    }
}

proof fn lemma_without_removed_twice(tags: Seq<Seq<char>>, removed: Seq<Seq<char>>)
    ensures
        without_removed(without_removed(tags, removed), removed) == without_removed(tags, removed),
    decreases tags.len(),
{
    if tags.len() > 0 {
        lemma_without_removed_twice(tags.drop_last(), removed);
        let once = without_removed(tags.drop_last(), removed);
        if !removed.contains(ascii_lower(tags.last())) {
            assert(without_removed(tags, removed) == once.push(tags.last()));
            assert(once.push(tags.last()).drop_last() =~= once);
        }
    }
}

proof fn lemma_without_removed_concat(a: Seq<Seq<char>>, b: Seq<Seq<char>>, removed: Seq<Seq<char>>)
    ensures
        without_removed(a + b, removed) == without_removed(a, removed) + without_removed(b, removed),
    decreases b.len(),
{
    if b.len() == 0 {
        assert(a + b =~= a);
        assert(without_removed(a, removed) + without_removed(b, removed) =~= without_removed(a, removed));
    } else {
        assert((a + b).drop_last() =~= a + b.drop_last());
        assert((a + b).last() == b.last());
        lemma_without_removed_concat(a, b.drop_last(), removed);
        if removed.contains(ascii_lower(b.last())) {
        } else {
            assert(without_removed(a, removed) + without_removed(b, removed) =~= (without_removed(a, removed)
                + without_removed(b.drop_last(), removed)).push(b.last()));
        }
    }
}

/// Applying a change a second time appends once more those of its additions
/// that its removals do not take out; so a second application changes nothing
/// exactly when no addition survives the removals.
pub proof fn lemma_change_applied_twice(tags: Seq<Seq<char>>, change: Seq<char>)
    ensures
        apply_change(apply_change(tags, change), change) == apply_change(tags, change) + without_removed(
            additions(change),
            removals(change),
        ),
{
    let once = apply_change(tags, change);
    lemma_without_removed_concat(once, additions(change), removals(change));
    lemma_without_removed_twice(tags + additions(change), removals(change));
}

/// A change made only of removals gives the same tags when applied a second
/// time.
pub proof fn lemma_removal_only_change_idempotent(tags: Seq<Seq<char>>, change: Seq<char>)
    requires
        forall|i: int| 0 <= i < split_spaces(change).len() ==> is_exclusion(#[trigger] split_spaces(change)[i]),
    ensures
        apply_change(apply_change(tags, change), change) == apply_change(tags, change),
{
    lemma_no_additions(split_spaces(change));
    let once = apply_change(tags, change);
    assert(tags + additions(change) =~= tags);
    assert(once + additions(change) =~= once);
    lemma_without_removed_twice(tags, removals(change));
}

/// Applies a change string to a tag list.
pub fn update_tags(tags: &[String], changes: &str) -> (r: Vec<String>)
    ensures
        views(r@) == apply_change(views(tags@), changes@),
{
    let toks = split_on_spaces(changes);
    let mut combined: Vec<String> = copy_strings(tags);
    let mut remove: Vec<String> = Vec::new();
    let ghost base = views(tags@);
    proof {
        assert(views(combined@) =~= base);
    }
    let mut i: usize = 0;
    while i < toks.len()
        invariant
            i <= toks@.len(),
            views(toks@) == split_spaces(changes@),
            base == views(tags@),
            views(combined@) == base + views(toks@).take(i as int).filter_map(|t: Seq<char>| keep_addition(t)),
            views(remove@) == views(toks@).take(i as int).filter_map(|t: Seq<char>| keep_removal(t)),
        decreases toks@.len() - i,
    {
        let tok = toks[i].as_str();
        let n = tok.unicode_len();
        proof {
            assert(views(toks@).take(i + 1).drop_last() =~= views(toks@).take(i as int));
            assert(views(toks@).take(i + 1).last() == tok@);
        }
        if n > 0 && tok.get_char(0) == '-' {
            let rest = to_ascii_lower(tok.substring_char(1, n));
            remove.push(rest);
            proof {
                assert(tok@.subrange(1, n as int) =~= tok@.drop_first());
                assert(views(remove@) =~= views(remove@).drop_last() + seq![rest@]);
                assert(views(toks@).take(i + 1).filter_map(|t: Seq<char>| keep_addition(t))
                    == views(toks@).take(i as int).filter_map(|t: Seq<char>| keep_addition(t)));
            }
        } else {
            let ghost prev = views(combined@);
            let added = toks[i].clone();
            combined.push(added);
            proof {
                assert(views(combined@) =~= prev + seq![tok@]);
                assert(views(toks@).take(i + 1).filter_map(|t: Seq<char>| keep_addition(t))
                    == views(toks@).take(i as int).filter_map(|t: Seq<char>| keep_addition(t)) + seq![tok@]);
                assert(views(combined@) =~= base + views(toks@).take(i + 1).filter_map(|t: Seq<char>| keep_addition(t)));
            }
        }
        i = i + 1;
    }
    proof {
        assert(views(toks@).take(toks@.len() as int) =~= views(toks@));
    }
    let mut out: Vec<String> = Vec::new();
    let mut k: usize = 0;
    while k < combined.len()
        invariant
            k <= combined@.len(),
            views(remove@) == removals(changes@),
            views(out@) == without_removed(views(combined@).take(k as int), removals(changes@)),
        decreases combined@.len() - k,
    {
        let low = to_ascii_lower(combined[k].as_str());
        let gone = contains_text(&remove, &low);
        proof {
            assert(views(combined@).take(k + 1).drop_last() =~= views(combined@).take(k as int));
            assert(views(combined@).take(k + 1).last() == combined@[k as int]@);
        }
        if !gone {
            out.push(combined[k].clone());
            proof {
                assert(views(out@) =~= views(out@).drop_last() + seq![combined@[k as int]@]);
            }
        }
        k = k + 1;
    }
    proof {
        assert(views(combined@).take(combined@.len() as int) =~= views(combined@));
    }
    out
}

/// The strings of `a` that `b` lacks, compared exactly (case counts), once
/// each, in the order of their first appearance in `a`.
pub open spec fn missing_from(a: Seq<Seq<char>>, b: Seq<Seq<char>>) -> Seq<Seq<char>>
    decreases a.len(),
{
    if a.len() == 0 {
        Seq::<Seq<char>>::empty()
    } else {
        let prev = missing_from(a.drop_last(), b);
        if b.contains(a.last()) || prev.contains(a.last()) {
            prev
        } else {
            prev.push(a.last())
        }
    }
}

/// What `missing_from` lists is the set difference of `a` and `b`, each
/// string once.
pub proof fn lemma_missing_from_is_set_difference(a: Seq<Seq<char>>, b: Seq<Seq<char>>)
    ensures
        missing_from(a, b).to_set() == a.to_set().difference(b.to_set()),
        missing_from(a, b).no_duplicates(),
    decreases a.len(),
{
    if a.len() > 0 {
        let rest = a.drop_last();
        let prev = missing_from(rest, b);
        lemma_missing_from_is_set_difference(rest, b);
        assert forall|t: Seq<char>| #[trigger] a.contains(t) <==> rest.contains(t) || t == a.last() by {
            if a.contains(t) {
                let i = choose|i: int| 0 <= i < a.len() && a[i] == t;
                if i < a.len() - 1 {
                    assert(rest[i] == t);
                }
            }
            if rest.contains(t) {
                let i = choose|i: int| 0 <= i < rest.len() && rest[i] == t;
                assert(a[i] == t);
            }
            if t == a.last() {
                assert(a[a.len() - 1] == t);
            }
        }
        if !(b.contains(a.last()) || prev.contains(a.last())) {
            let now = prev.push(a.last());
            assert forall|t: Seq<char>| #[trigger] now.contains(t) <==> prev.contains(t) || t == a.last() by {
                if now.contains(t) {
                    let i = choose|i: int| 0 <= i < now.len() && now[i] == t;
                    if i < prev.len() {
                        assert(prev[i] == t);
                    }
                }
                if prev.contains(t) {
                    let i = choose|i: int| 0 <= i < prev.len() && prev[i] == t;
                    assert(now[i] == t);
                }
                if t == a.last() {
                    assert(now[now.len() - 1] == t);
                }
            }
            assert forall|t: Seq<char>| now.to_set().contains(t) == a.to_set().difference(b.to_set()).contains(t) by {
                assert(prev.to_set().contains(t) == prev.contains(t));
                assert(rest.to_set().contains(t) == rest.contains(t));
                assert(now.to_set().contains(t) == now.contains(t));
                assert(a.to_set().contains(t) == a.contains(t));
                assert(b.to_set().contains(t) == b.contains(t));
            }
            assert(now.to_set() =~= a.to_set().difference(b.to_set()));
            assert forall|i: int, j: int| 0 <= i < now.len() && 0 <= j < now.len() && i != j implies now[i] != now[j] by {
                if i < prev.len() && j < prev.len() {
                } else if i < prev.len() {
                    assert(prev.contains(now[i]));
                } else {
                    assert(prev.contains(now[j]));
                }
            }
        } else {
            assert forall|t: Seq<char>| prev.to_set().contains(t) == a.to_set().difference(b.to_set()).contains(t) by {
                assert(prev.to_set().contains(t) == prev.contains(t));
                assert(rest.to_set().contains(t) == rest.contains(t));
                assert(a.to_set().contains(t) == a.contains(t));
                assert(b.to_set().contains(t) == b.contains(t));
            }
            assert(prev.to_set() =~= a.to_set().difference(b.to_set()));
        }
    } else {
        assert(missing_from(a, b).to_set() =~= a.to_set().difference(b.to_set()));
    }
}

/// The tags that a change adds and removes, compared exactly: unlike matching
/// and removal, a change of case shows here as one removal and one addition.
pub struct TagDiff {
    pub added: Vec<String>,
    pub removed: Vec<String>,
}

fn missing_strings(a: &[String], b: &[String]) -> (r: Vec<String>)
    ensures
        views(r@) == missing_from(views(a@), views(b@)),
{
    let bv = copy_strings(b);
    let mut out: Vec<String> = Vec::new();
    let mut i: usize = 0;
    while i < a.len()
        invariant
            i <= a@.len(),
            views(bv@) == views(b@),
            views(out@) == missing_from(views(a@).take(i as int), views(b@)),
        decreases a@.len() - i,
    {
        let in_b = contains_text(&bv, &a[i]);
        let seen = contains_text(&out, &a[i]);
        proof {
            assert(views(a@).take(i + 1).drop_last() =~= views(a@).take(i as int));
            assert(views(a@).take(i + 1).last() == a@[i as int]@);
        }
        if !in_b && !seen {
            let ghost prev = views(out@);
            let c = a[i].clone();
            out.push(c);
            proof {
                assert(views(out@) =~= prev.push(a@[i as int]@));
            }
        }
        i = i + 1;
    }
    proof {
        assert(views(a@).take(a@.len() as int) =~= views(a@));
    }
    out
}

/// The tags that going from `old` to `new` adds and removes, case-sensitively.
pub fn tag_display(old: &[String], new: &[String]) -> (r: TagDiff)
    ensures
        views(r.added@) == missing_from(views(new@), views(old@)),
        views(r.removed@) == missing_from(views(old@), views(new@)),
{
    let added = missing_strings(new, old);
    let removed = missing_strings(old, new);
    TagDiff { added, removed }
}

} // verus!
