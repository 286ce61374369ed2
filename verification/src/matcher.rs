//! The predicate evaluator: one commit record against a compiled query,
//! a disjunction of conjunctions of field-scoped terms.

use vstd::prelude::*;
use crate::mask::FilterBy;
use crate::text::{contains_seq, find_sub, lemma_find_at_first, match_at, str_to_chars};

verus! {

/// One commit as the search sees it: identifier, author and message.
#[derive(Clone, Debug, PartialEq, Eq)]
pub struct CommitInfo {
    pub id: String,
    pub author: String,
    pub message: String,
}

/// A copy of the record, equal to it field by field.
pub fn clone_commit(c: &CommitInfo) -> (r: CommitInfo)
    ensures
        r == *c,
{
    CommitInfo { id: c.id.clone(), author: c.author.clone(), message: c.message.clone() }
}

/// What `str::to_lowercase` returns for these characters; a function of the
/// characters alone.
pub uninterp spec fn lower_of(s: Seq<char>) -> Seq<char>;

/// Relies on str::to_lowercase: the lowercase equivalent of the string,
/// a function of its characters alone.
#[verifier::external_body]
fn lowercase(s: &str) -> (r: String)
    ensures
        r@ == lower_of(s@),
{
    s.to_lowercase()
}

/// True exactly when `needle` occurs as a contiguous run of characters in
/// `hay`; the empty needle occurs in everything.
fn contains_str(hay: &str, needle: &str) -> (r: bool)
    ensures
        r == contains_seq(hay@, needle@),
{
    let h = str_to_chars(hay);
    let n = str_to_chars(needle);
    if n.len() == 0 {
        proof {
            assert(h@.subrange(0, 0) =~= n@);
            assert(match_at(h@, n@, 0));
        }
        return true;
    }
    match find_sub(&h, &n) {
        Some(i) => {
            proof {
                lemma_find_at_first(h@, n@);
                assert(match_at(h@, n@, i as int));
            }
            true
        },
        None => {
            proof {
                lemma_find_at_first(h@, n@);
            }
            false
        },
    }
}

/// The characters a comparison sees: folded to lowercase unless the term is
/// case sensitive.
pub open spec fn folded(s: Seq<char>, case_sensitive: bool) -> Seq<char> {
    if case_sensitive {
        s
    } else {
        lower_of(s)
    }
}

/// One term against one commit: substring containment in at least one of the
/// fields the mask selects, then the optional negation.
pub open spec fn term_matches(c: CommitInfo, text: Seq<char>, m: FilterBy) -> bool {
    let needle = folded(text, m.case_sensitive);
    let hit = (m.sha && contains_seq(folded(c.id@, m.case_sensitive), needle)) || (m.author
        && contains_seq(folded(c.author@, m.case_sensitive), needle)) || (m.message && contains_seq(
        folded(c.message@, m.case_sensitive),
        needle,
    ));
    if m.negate {
        !hit
    } else {
        hit
    }
}

/// Every term of the conjunction matches the commit.
pub open spec fn conj_matches(c: CommitInfo, conj: Seq<(Seq<char>, FilterBy)>) -> bool {
    forall|i: int| 0 <= i < conj.len() ==> term_matches(c, #[trigger] conj[i].0, conj[i].1)
}

/// Some conjunction of the query matches the commit.
pub open spec fn query_matches(c: CommitInfo, q: Seq<Seq<(Seq<char>, FilterBy)>>) -> bool {
    exists|i: int| 0 <= i < q.len() && conj_matches(c, #[trigger] q[i])
}

/// The views of a conjunction's terms.
pub open spec fn term_views(ts: Seq<(String, FilterBy)>) -> Seq<(Seq<char>, FilterBy)> {
    ts.map_values(|t: (String, FilterBy)| (t.0@, t.1))
}

/// The views of a query's conjunctions.
pub open spec fn conj_views(cs: Seq<Vec<(String, FilterBy)>>) -> Seq<Seq<(Seq<char>, FilterBy)>> {
    cs.map_values(|c: Vec<(String, FilterBy)>| term_views(c@))
}

/// The commits of `batch` that match the query, in their incoming order.
pub open spec fn matching(batch: Seq<CommitInfo>, q: Seq<Seq<(Seq<char>, FilterBy)>>) -> Seq<
    CommitInfo,
> {
    batch.filter(|c: CommitInfo| query_matches(c, q))
}

/// Filtering one more commit keeps it exactly when it matches.
pub proof fn lemma_matching_push(
    batch: Seq<CommitInfo>,
    q: Seq<Seq<(Seq<char>, FilterBy)>>,
    c: CommitInfo,
)
    ensures
        matching(batch.push(c), q) == if query_matches(c, q) {
            matching(batch, q).push(c)
        } else {
            matching(batch, q)
        },
{
    reveal(Seq::filter);
    assert(batch.push(c).drop_last() =~= batch);
    assert(batch.push(c).last() == c);
}

/// Everything `matching` keeps satisfies the query.
pub proof fn lemma_matching_pred(batch: Seq<CommitInfo>, q: Seq<Seq<(Seq<char>, FilterBy)>>)
    ensures
        forall|i: int|
            0 <= i < matching(batch, q).len() ==> query_matches(
                #[trigger] matching(batch, q)[i],
                q,
            ),
{
    assert forall|i: int| 0 <= i < matching(batch, q).len() implies query_matches(
        #[trigger] matching(batch, q)[i],
        q,
    ) by {
        batch.lemma_filter_pred(|c: CommitInfo| query_matches(c, q), i);
    }
}

/// One term against one commit.
fn term_matches_exec(c: &CommitInfo, text: &String, m: FilterBy) -> (r: bool)
    ensures
        r == term_matches(*c, text@, m),
{
    let hit: bool;
    if m.case_sensitive {
        hit = (m.sha && contains_str(c.id.as_str(), text.as_str())) || (m.author && contains_str(
            c.author.as_str(),
            text.as_str(),
        )) || (m.message && contains_str(c.message.as_str(), text.as_str()));
    } else {
        let needle = lowercase(text.as_str());
        hit = (m.sha && {
            let hay = lowercase(c.id.as_str());
            contains_str(hay.as_str(), needle.as_str())
        }) || (m.author && {
            let hay = lowercase(c.author.as_str());
            contains_str(hay.as_str(), needle.as_str())
        }) || (m.message && {
            let hay = lowercase(c.message.as_str());
            contains_str(hay.as_str(), needle.as_str())
        });
    }
    if m.negate {
        !hit
    } else {
        hit
    }
}

/// One commit against the whole query.
pub fn query_matches_exec(c: &CommitInfo, filter_strings: &Vec<Vec<(String, FilterBy)>>) -> (r:
    bool)
    ensures
        r == query_matches(*c, conj_views(filter_strings@)),
{
    let ghost q = conj_views(filter_strings@);
    let mut i: usize = 0;
    while i < filter_strings.len()
        invariant
            q == conj_views(filter_strings@),
            i <= filter_strings@.len(),
            forall|j: int| 0 <= j < i ==> !conj_matches(*c, #[trigger] q[j]),
        decreases filter_strings@.len() - i,
    {
        let conj = &filter_strings[i];
        let mut t: usize = 0;
        let mut all = true;
        while t < conj.len()
            invariant
                q == conj_views(filter_strings@),
                i < filter_strings@.len(),
                conj == filter_strings@[i as int],
                t <= conj@.len(),
                all ==> forall|k: int|
                    0 <= k < t ==> term_matches(*c, #[trigger] q[i as int][k].0, q[i as int][k].1),
                !all ==> !conj_matches(*c, q[i as int]),
            decreases conj@.len() - t,
        {
            let pair = &conj[t];
            if !term_matches_exec(c, &pair.0, pair.1) {
                proof {
                    assert(q[i as int][t as int] == (conj@[t as int].0@, conj@[t as int].1));
                    assert(!term_matches(*c, q[i as int][t as int].0, q[i as int][t as int].1));
                }
                all = false;
                t = conj.len();
            } else {
                proof {
                    assert(q[i as int][t as int] == (conj@[t as int].0@, conj@[t as int].1));
                }
                t += 1;
            }
        }
        if all {
            proof {
                assert(conj_matches(*c, q[i as int]));
            }
            return true;
        }
        proof {
            assert(!conj_matches(*c, q[i as int]));
        }
        i += 1;
    }
    false
}

/// The commits of the batch that match the query, in their incoming order.
pub(crate) fn filter(
    vec_commit_info: Vec<CommitInfo>,
    filter_strings: &Vec<Vec<(String, FilterBy)>>,
) -> (r: Vec<CommitInfo>)
    ensures
        r@ == matching(vec_commit_info@, conj_views(filter_strings@)),
{
    let ghost q = conj_views(filter_strings@);
    let mut out: Vec<CommitInfo> = Vec::new();
    let mut i: usize = 0;
    proof {
        reveal(Seq::filter);
        assert(matching(vec_commit_info@.take(0), q) =~= Seq::<CommitInfo>::empty());
    }
    while i < vec_commit_info.len()
        invariant
            q == conj_views(filter_strings@),
            i <= vec_commit_info@.len(),
            out@ == matching(vec_commit_info@.take(i as int), q),
        decreases vec_commit_info@.len() - i,
    {
        let keep = {
            let c = &vec_commit_info[i];
            query_matches_exec(c, filter_strings)
        };
        proof {
            assert(vec_commit_info@.take(i as int).push(vec_commit_info@[i as int]) =~= (
            vec_commit_info@.take(i + 1)));
            lemma_matching_push(vec_commit_info@.take(i as int), q, vec_commit_info@[i as int]);
        }
        if keep {
            let c = clone_commit(&vec_commit_info[i]);
            out.push(c);
        }
        i += 1;
    }
    proof {
        assert(vec_commit_info@.take(vec_commit_info@.len() as int) =~= vec_commit_info@);
    }
    out
}

} // verus!
