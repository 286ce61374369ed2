//! The query compiler and the log view's filter state.
//!
//! A raw query is first rid of its bracket groups — `&&` distributes over a
//! parenthesized `||` group — then split on `||` into conjunctions, each
//! conjunction split on `&&` into terms, and each term given its field mask.

use vstd::prelude::*;
use crate::engine::AsyncCommitFilterer;
use crate::mask::FilterBy;
use crate::matcher::{conj_views, term_views, CommitInfo};
use crate::text::{
    chars_eq, chars_to_string, extend_chars, find_at, find_sub, join_chars, join_with,
    lemma_find_at_first, match_at, seq_views, split_chars, split_on, str_to_chars, subvec,
    trim_chars, trim_spec, trim_start_chars, trim_start_spec,
};

verus! {

/// The two-character conjunction separator.
pub open spec fn and_pat() -> Seq<char> {
    seq!['&', '&']
}

/// The two-character disjunction separator.
pub open spec fn or_pat() -> Seq<char> {
    seq!['|', '|']
}

/// The marker that opens a distributable bracket group.
pub open spec fn and_paren_pat() -> Seq<char> {
    seq!['&', '&', '(']
}

/// Index of the closing bracket that matches depth zero, scanning from `i`
/// with `depth` brackets already open.
pub open spec fn ending_bracket_from(s: Seq<char>, i: int, depth: int) -> Option<int>
    decreases s.len() - i,
{
    if i < 0 || i >= s.len() {
        None
    } else if s[i] == '(' {
        ending_bracket_from(s, i + 1, depth + 1)
    } else if s[i] == ')' {
        if depth == 0 {
            Some(i)
        } else {
            ending_bracket_from(s, i + 1, depth - 1)
        }
    } else {
        ending_bracket_from(s, i + 1, depth)
    }
}

/// Index of the first unmatched closing bracket of `s`.
pub open spec fn spec_ending_bracket(s: Seq<char>) -> Option<int> {
    ending_bracket_from(s, 0, 0)
}

/// A found ending bracket lies in range and is a closing bracket.
pub proof fn lemma_ending_bracket_range(s: Seq<char>, i: int, depth: int)
    ensures
        match ending_bracket_from(s, i, depth) {
            Some(j) => i <= j < s.len() && s[j] == ')',
            None => true,
        },
    decreases s.len() - i,
{
    if 0 <= i < s.len() {
        if s[i] == '(' {
            lemma_ending_bracket_range(s, i + 1, depth + 1);
        } else if s[i] == ')' {
            if depth != 0 {
                lemma_ending_bracket_range(s, i + 1, depth - 1);
            }
        } else {
            lemma_ending_bracket_range(s, i + 1, depth);
        }
    }
}

/// Each alternative wrapped into its surroundings: what the group's `&&`
/// prefix and the text after the group contribute to every alternative.
pub open spec fn distribute(parts: Seq<Seq<char>>, prefix: Seq<char>, suffix: Seq<char>) -> Seq<
    Seq<char>,
> {
    parts.map_values(|b: Seq<char>| prefix + b + suffix)
}

/// One pass of bracket elimination: the first `&&(` group, if it is closed,
/// is replaced by the disjunction of `prefix + alternative + suffix` over the
/// group's `||`-separated alternatives; anything else is left as it stands.
pub open spec fn rewrite_step(s: Seq<char>) -> Seq<char> {
    match find_at(s, and_paren_pat()) {
        None => s,
        Some(p) => {
            let rest = s.skip(p + 3);
            match spec_ending_bracket(rest) {
                None => s,
                Some(j) => {
                    let prefix = s.subrange(0, p + 2);
                    let inside = rest.subrange(0, j);
                    let suffix = rest.skip(j + 1);
                    join_with(distribute(split_on(inside, or_pat()), prefix, suffix), or_pat())
                },
            }
        },
    }
}

/// Number of `&&(` markers in the string.
pub open spec fn marker_count(s: Seq<char>) -> nat {
    (split_on(s, and_paren_pat()).len() - 1) as nat
}

/// Bracket elimination run to rest: passes repeat while a marker remains
/// and a pass still changes the string, ending in `Some` of the string at
/// rest. A pass that reduces the number of markers is productive and always
/// allowed; only a pass that fails to — the signature of the groups that
/// duplicate each other without bound — spends fuel, and `None` says the
/// fuel ran out before the passes came to rest.
pub open spec fn preprocess_fuel(s: Seq<char>, fuel: nat) -> Option<Seq<char>>
    decreases fuel, marker_count(s),
{
    match find_at(s, and_paren_pat()) {
        None => Some(s),
        Some(_) => {
            let t = rewrite_step(s);
            if t == s {
                Some(s)
            } else if marker_count(t) < marker_count(s) {
                preprocess_fuel(t, fuel)
            } else if fuel == 0 {
                None
            } else {
                preprocess_fuel(t, (fuel - 1) as nat)
            }
        },
    }
}

/// Number of opening brackets: the fuel of `spec_preprocess`. Expanding a
/// group consumes its bracket pair, so a pass fails to reduce the marker
/// count only when the rewriting duplicated other groups; on the inputs
/// whose groups duplicate each other without bound — where the rewriting
/// alone would never come to rest — this budget cuts the passes off.
pub open spec fn paren_count(s: Seq<char>) -> nat {
    s.filter(|c: char| c == '(').len()
}

/// The whole bracket-elimination phase: the string the passes bring to rest,
/// or — where the fuel runs out because the passes would go on without
/// bound — the input itself, unchanged.
pub open spec fn spec_preprocess(s: Seq<char>) -> Seq<char> {
    match preprocess_fuel(s, paren_count(s)) {
        Some(r) => r,
        None => s,
    }
}

/// Whatever `preprocess_fuel` brings to rest really is at rest: no marker is
/// left, or the rewriting pass returns it unchanged.
proof fn lemma_preprocess_fuel_rest(s: Seq<char>, fuel: nat)
    ensures
        match preprocess_fuel(s, fuel) {
            Some(r) => find_at(r, and_paren_pat()) is None || rewrite_step(r) == r,
            None => true,
        },
    decreases fuel, marker_count(s),
{
    match find_at(s, and_paren_pat()) {
        None => {},
        Some(_) => {
            let t = rewrite_step(s);
            if t == s {
            } else if marker_count(t) < marker_count(s) {
                lemma_preprocess_fuel_rest(t, fuel);
            } else if fuel == 0 {
            } else {
                lemma_preprocess_fuel_rest(t, (fuel - 1) as nat);
            }
        },
    }
}

/// Preprocessing is idempotent: run on its own output it changes nothing.
/// A string the passes brought to rest stays at rest, and on the inputs the
/// fuel cuts off the output is the input itself, which the second run cuts
/// off the same way.
pub proof fn lemma_preprocess_idempotent(s: Seq<char>)
    ensures
        spec_preprocess(spec_preprocess(s)) == spec_preprocess(s),
{
    lemma_preprocess_fuel_rest(s, paren_count(s));
    match preprocess_fuel(s, paren_count(s)) {
        Some(r) => {
            assert(preprocess_fuel(r, paren_count(r)) == Some(r));
        },
        None => {},
    }
}

/// The mask the letters of a flag run select, folded left to right.
pub open spec fn mask_of_flags(cs: Seq<char>) -> FilterBy
    decreases cs.len(),
{
    if cs.len() == 0 {
        FilterBy::spec_empty()
    } else {
        mask_of_flags(cs.drop_last()).spec_union(FilterBy::spec_flag_of(cs.last()))
    }
}

/// A mask that selects no field at all falls back to searching everywhere;
/// the modifiers alone never narrow the fields.
pub open spec fn fill_fields(m: FilterBy) -> FilterBy {
    if m.spec_exclude_modifiers().spec_is_empty() {
        m.spec_union(FilterBy::spec_everywhere())
    } else {
        m
    }
}

/// One `&&`-piece as a term: trimmed, and when it opens with `:`, the run up
/// to the first space read as flag letters and the rest, less leading
/// whitespace, as the search text.
pub open spec fn parse_term(piece: Seq<char>) -> (Seq<char>, FilterBy) {
    let t = trim_spec(piece);
    if t.len() > 0 && t[0] == ':' {
        match find_at(t, seq![' ']) {
            None => (Seq::<char>::empty(), fill_fields(mask_of_flags(t.skip(1)))),
            Some(i) => (
                trim_start_spec(t.skip(i + 1)),
                fill_fields(mask_of_flags(t.subrange(1, i))),
            ),
        }
    } else {
        (t, FilterBy::spec_everywhere())
    }
}

/// One `||`-side as a conjunction of terms.
pub open spec fn parse_conj(side: Seq<char>) -> Seq<(Seq<char>, FilterBy)> {
    split_on(side, and_pat()).map_values(|p: Seq<char>| parse_term(p))
}

/// A bracket-free query as a disjunction of conjunctions.
pub open spec fn parse_query(s: Seq<char>) -> Seq<Seq<(Seq<char>, FilterBy)>> {
    split_on(s, or_pat()).map_values(|side: Seq<char>| parse_conj(side))
}

/// Whitespace around a term is ignored: a piece and its trimmed form parse
/// to the same term, so spacing around the separators never changes what a
/// query means.
pub proof fn lemma_parse_term_trim(piece: Seq<char>)
    ensures
        parse_term(trim_spec(piece)) == parse_term(piece),
{
    crate::text::lemma_trim_idempotent(piece);
}

/// A letter with no assigned flag contributes nothing: dropping it anywhere
/// in a flag run leaves the parsed mask as it was, so unknown letters never
/// affect the recognized ones.
pub proof fn lemma_unknown_flag_dropped(a: Seq<char>, b: Seq<char>, c: char)
    requires
        FilterBy::spec_flag_of(c) == FilterBy::spec_empty(),
    ensures
        mask_of_flags(a + seq![c] + b) == mask_of_flags(a + b),
    decreases b.len(),
{
    if b.len() == 0 {
        assert(a + seq![c] + b =~= a.push(c));
        assert(a.push(c).drop_last() =~= a);
        assert(a.push(c).last() == c);
        assert(a + b =~= a);
    } else {
        assert((a + seq![c] + b).drop_last() =~= a + seq![c] + b.drop_last());
        assert((a + seq![c] + b).last() == b.last());
        assert((a + b).drop_last() =~= a + b.drop_last());
        assert((a + b).last() == b.last());
        lemma_unknown_flag_dropped(a, b.drop_last(), c);
    }
}

fn pat_and() -> (v: Vec<char>)
    ensures
        v@ == and_pat(),
{
    let mut v: Vec<char> = Vec::new();
    v.push('&');
    v.push('&');
    proof {
        assert(v@ =~= and_pat());
    }
    v
}

fn pat_or() -> (v: Vec<char>)
    ensures
        v@ == or_pat(),
{
    let mut v: Vec<char> = Vec::new();
    v.push('|');
    v.push('|');
    proof {
        assert(v@ =~= or_pat());
    }
    v
}

fn pat_and_paren() -> (v: Vec<char>)
    ensures
        v@ == and_paren_pat(),
{
    let mut v: Vec<char> = Vec::new();
    v.push('&');
    v.push('&');
    v.push('(');
    proof {
        assert(v@ =~= and_paren_pat());
    }
    v
}

fn pat_space() -> (v: Vec<char>)
    ensures
        v@ == seq![' '],
{
    let mut v: Vec<char> = Vec::new();
    v.push(' ');
    proof {
        assert(v@ =~= seq![' ']);
    }
    v
}

fn count_markers(s: &Vec<char>) -> (r: usize)
    ensures
        r as nat == marker_count(s@),
{
    let pat3 = pat_and_paren();
    let parts = split_chars(s, &pat3);
    proof {
        crate::text::lemma_split_on_len(s@, and_paren_pat());
        assert(seq_views(parts@).len() == parts@.len());
    }
    parts.len() - 1
}

fn ending_bracket_chars(s: &Vec<char>) -> (r: Option<usize>)
    ensures
        match r {
            Some(i) => spec_ending_bracket(s@) == Some(i as int),
            None => spec_ending_bracket(s@) == None::<int>,
        },
{
    let n = s.len();
    let mut i: usize = 0;
    let mut depth: usize = 0;
    while i < n
        invariant
            n == s@.len(),
            i <= n,
            depth <= i,
            spec_ending_bracket(s@) == ending_bracket_from(s@, i as int, depth as int),
        decreases n - i,
    {
        let c = s[i];
        if c == '(' {
            depth += 1;
        } else if c == ')' {
            if depth == 0 {
                return Some(i);
            }
            depth -= 1;
        }
        i += 1;
    }
    None
}

fn rewrite_chars(cs: &Vec<char>) -> (r: Vec<char>)
    ensures
        r@ == rewrite_step(cs@),
{
    let n = cs.len();
    let pat3 = pat_and_paren();
    let or2 = pat_or();
    match find_sub(cs, &pat3) {
        None => {
            let r = subvec(cs, 0, n);
            proof {
                assert(cs@.subrange(0, n as int) =~= cs@);
            }
            r
        },
        Some(p) => {
            proof {
                lemma_find_at_first(cs@, pat3@);
                assert(match_at(cs@, and_paren_pat(), p as int));
            }
            let rest = subvec(cs, p + 3, n);
            proof {
                assert(rest@ =~= cs@.skip(p + 3));
            }
            match ending_bracket_chars(&rest) {
                None => {
                    let r = subvec(cs, 0, n);
                    proof {
                        assert(cs@.subrange(0, n as int) =~= cs@);
                    }
                    r
                },
                Some(j) => {
                    proof {
                        lemma_ending_bracket_range(rest@, 0, 0);
                    }
                    let rest_len = rest.len();
                    let prefix = subvec(cs, 0, p + 2);
                    let inside = subvec(&rest, 0, j);
                    let suffix = subvec(&rest, j + 1, rest_len);
                    proof {
                        assert(suffix@ =~= rest@.skip(j + 1));
                    }
                    let pieces = split_chars(&inside, &or2);
                    let mut parts: Vec<Vec<char>> = Vec::new();
                    let mut k: usize = 0;
                    while k < pieces.len()
                        invariant
                            k <= pieces@.len(),
                            parts@.len() == k,
                            forall|l: int|
                                0 <= l < k ==> (#[trigger] parts@[l])@ == prefix@ + pieces@[l]@
                                    + suffix@,
                        decreases pieces@.len() - k,
                    {
                        let mut w: Vec<char> = Vec::new();
                        extend_chars(&mut w, &prefix);
                        extend_chars(&mut w, &pieces[k]);
                        extend_chars(&mut w, &suffix);
                        parts.push(w);
                        k += 1;
                    }
                    let joined = join_chars(&parts, &or2);
                    proof {
                        let alts = split_on(inside@, or_pat());
                        assert(seq_views(pieces@) == alts);
                        assert(seq_views(parts@) =~= distribute(alts, prefix@, suffix@));
                    }
                    joined
                },
            }
        },
    }
}

/// The log view: the filtering engine beside the query string last applied.
pub struct Revlog {
    /// The engine driven by this view.
    pub async_filter: AsyncCommitFilterer,
    /// Whether a compiled query is installed rather than the plain log shown.
    pub is_filtering: bool,
    /// The raw query string last handed to `filter`.
    pub filter_string: String,
}

impl Revlog {
    /// A fresh view: nothing filtered, the empty query string on record.
    pub fn new() -> (r: Revlog)
        ensures
            r.async_filter.wf(),
            r.async_filter.generation == 0,
            r.async_filter.filter_count == 0,
            !r.is_filtering,
            r.filter_string@ == Seq::<char>::empty(),
    {
        Revlog {
            async_filter: AsyncCommitFilterer::new(),
            is_filtering: false,
            filter_string: String::new(),
        }
    }

    /// Index of the first unmatched closing bracket of `s`.
    pub fn get_ending_bracket(s: &str) -> (r: Option<usize>)
        ensures
            match r {
                Some(i) => spec_ending_bracket(s@) == Some(i as int),
                None => spec_ending_bracket(s@) == None::<int>,
            },
    {
        let cs = str_to_chars(s);
        ending_bracket_chars(&cs)
    }

    /// One pass of bracket elimination over the string.
    pub fn remove_out_brackets(s: &str) -> (r: String)
        ensures
            r@ == rewrite_step(s@),
    {
        let cs = str_to_chars(s);
        let w = rewrite_chars(&cs);
        chars_to_string(&w)
    }

    /// Bracket elimination run to rest: passes repeat while a `&&(` marker
    /// remains and a pass still changes the string. A pass that reduces the
    /// number of markers always runs; one that fails to — only groups that
    /// duplicate each other do that — spends one unit of the budget, one per
    /// opening bracket. When the budget runs out the input is returned
    /// unchanged, so the function stays total and its output is always a
    /// fixpoint of itself.
    pub fn pre_process_string(s: String) -> (r: String)
        ensures
            r@ == spec_preprocess(s@),
    {
        let cs = str_to_chars(s.as_str());
        let n = cs.len();
        let mut fuel: usize = 0;
        let mut i: usize = 0;
        proof {
            reveal(Seq::filter);
            assert(cs@.take(0).filter(|c: char| c == '(') =~= Seq::<char>::empty());
        }
        while i < n
            invariant
                n == cs@.len(),
                i <= n,
                fuel <= i,
                fuel == paren_count(cs@.take(i as int)),
            decreases n - i,
        {
            proof {
                reveal(Seq::filter);
                assert(cs@.take(i + 1).drop_last() =~= cs@.take(i as int));
                assert(cs@.take(i + 1).last() == cs@[i as int]);
            }
            if cs[i] == '(' {
                fuel += 1;
            }
            i += 1;
        }
        proof {
            assert(cs@.take(n as int) =~= cs@);
        }
        let pat3 = pat_and_paren();
        let mut cur = cs;
        let mut left = fuel;
        loop
            invariant
                pat3@ == and_paren_pat(),
                fuel as nat == paren_count(s@),
                preprocess_fuel(cur@, left as nat) == preprocess_fuel(s@, fuel as nat),
            decreases left, marker_count(cur@),
        {
            let marker = find_sub(&cur, &pat3);
            if marker.is_none() {
                proof {
                    assert(find_at(cur@, and_paren_pat()) == None::<int>);
                    assert(preprocess_fuel(cur@, left as nat) == Some(cur@));
                }
                return chars_to_string(&cur);
            }
            let next = rewrite_chars(&cur);
            if chars_eq(&next, &cur) {
                proof {
                    assert(rewrite_step(cur@) == cur@);
                    assert(preprocess_fuel(cur@, left as nat) == Some(cur@));
                }
                return chars_to_string(&cur);
            }
            let mc_cur = count_markers(&cur);
            let mc_next = count_markers(&next);
            if mc_next < mc_cur {
                proof {
                    assert(preprocess_fuel(cur@, left as nat) == preprocess_fuel(
                        next@,
                        left as nat,
                    ));
                }
                cur = next;
            } else if left == 0 {
                proof {
                    assert(preprocess_fuel(cur@, left as nat) == None::<Seq<char>>);
                }
                return s;
            } else {
                proof {
                    assert(preprocess_fuel(cur@, left as nat) == preprocess_fuel(
                        next@,
                        (left - 1) as nat,
                    ));
                }
                cur = next;
                left -= 1;
            }
        }
    }

    /// The compiled form of a bracket-free query: its `||`-sides, each a
    /// conjunction of parsed terms.
    pub fn get_what_to_filter_by(filter_by_str: &str) -> (r: Vec<Vec<(String, FilterBy)>>)
        ensures
            conj_views(r@) == parse_query(filter_by_str@),
    {
        let cs = str_to_chars(filter_by_str);
        let or2 = pat_or();
        let and2 = pat_and();
        let sides = split_chars(&cs, &or2);
        let mut out: Vec<Vec<(String, FilterBy)>> = Vec::new();
        let mut k: usize = 0;
        while k < sides.len()
            invariant
                k <= sides@.len(),
                out@.len() == k,
                seq_views(sides@) == split_on(cs@, or_pat()),
                and2@ == and_pat(),
                forall|l: int|
                    0 <= l < k ==> term_views((#[trigger] out@[l])@) == parse_conj(
                        seq_views(sides@)[l],
                    ),
            decreases sides@.len() - k,
        {
            let ghost side_view = sides@[k as int]@;
            let pieces = split_chars(&sides[k], &and2);
            let mut conj: Vec<(String, FilterBy)> = Vec::new();
            let mut t: usize = 0;
            while t < pieces.len()
                invariant
                    t <= pieces@.len(),
                    conj@.len() == t,
                    seq_views(pieces@) == split_on(side_view, and_pat()),
                    forall|m: int|
                        0 <= m < t ==> ((#[trigger] conj@[m]).0@, conj@[m].1) == parse_term(
                            seq_views(pieces@)[m],
                        ),
                decreases pieces@.len() - t,
            {
                let pr = parse_term_exec(&pieces[t]);
                conj.push(pr);
                t += 1;
            }
            proof {
                assert(term_views(conj@) =~= parse_conj(side_view));
            }
            out.push(conj);
            k += 1;
        }
        proof {
            assert(seq_views(sides@).len() == sides@.len());
            assert(conj_views(out@) =~= parse_query(cs@));
        }
        out
    }

    /// Applies a new query string. Nothing happens when the string is the
    /// one already applied. The empty string stops filtering and rests the
    /// engine; any other string is compiled — brackets distributed, ends
    /// trimmed — and a new generation started on it. Returns whether the
    /// view changed and should be refreshed.
    pub fn filter(&mut self, filter_by: &str) -> (changed: bool)
        requires
            old(self).async_filter.wf(),
            old(self).async_filter.generation < u64::MAX,
        ensures
            final(self).async_filter.wf(),
            filter_by@ == old(self).filter_string@ ==> *final(self) == *old(self) && !changed,
            filter_by@ != old(self).filter_string@ ==> final(self).filter_string@ == filter_by@
                && changed,
            filter_by@ != old(self).filter_string@ && filter_by@.len() == 0 ==> {
                &&& final(self).async_filter.is_stopped(old(self).async_filter)
                &&& !final(self).is_filtering
            },
            filter_by@ != old(self).filter_string@ && filter_by@.len() > 0 ==> {
                &&& final(self).is_filtering
                &&& conj_views(final(self).async_filter.filter_strings@) == parse_query(
                    trim_spec(spec_preprocess(filter_by@)),
                )
                &&& final(self).async_filter.filtered_commits@ == Seq::<CommitInfo>::empty()
                &&& final(self).async_filter.filter_count == 0
                &&& !final(self).async_filter.filter_finished
                &&& final(self).async_filter.is_pending_local
                &&& final(self).async_filter.generation == old(self).async_filter.generation + 1
                &&& final(self).async_filter.cur_index == 0
            },
    {
        let new_chars = str_to_chars(filter_by);
        let old_chars = str_to_chars(self.filter_string.as_str());
        if chars_eq(&new_chars, &old_chars) {
            return false;
        }
        self.filter_string = filter_by.to_owned();
        let pre = Self::pre_process_string(filter_by.to_owned());
        let pre_chars = str_to_chars(pre.as_str());
        let trimmed = trim_chars(&pre_chars);
        if filter_by.is_empty() {
            self.async_filter.stop_filter();
            self.is_filtering = false;
        } else {
            let trimmed_str = chars_to_string(&trimmed);
            let filter_strings = Self::get_what_to_filter_by(trimmed_str.as_str());
            self.async_filter.start_filter(filter_strings);
            self.is_filtering = true;
        }
        true
    }
}

fn parse_term_exec(piece: &Vec<char>) -> (r: (String, FilterBy))
    ensures
        (r.0@, r.1) == parse_term(piece@),
{
    let t = trim_chars(piece);
    let tn = t.len();
    if tn > 0 && t[0] == ':' {
        let sp = pat_space();
        let m: FilterBy;
        let text: String;
        match find_sub(&t, &sp) {
            None => {
                let flags = subvec(&t, 1, tn);
                proof {
                    assert(flags@ =~= t@.skip(1));
                }
                m = mask_of_flags_exec(&flags);
                text = String::new();
            },
            Some(i) => {
                proof {
                    lemma_find_at_first(t@, sp@);
                    assert(match_at(t@, seq![' '], i as int));
                    assert(t@.subrange(i as int, i + 1)[0] == ' ');
                    assert(t@[i as int] == ' ');
                }
                let flags = subvec(&t, 1, i);
                let rest = subvec(&t, i + 1, tn);
                proof {
                    assert(rest@ =~= t@.skip(i + 1));
                }
                let text_chars = trim_start_chars(&rest);
                m = mask_of_flags_exec(&flags);
                text = chars_to_string(&text_chars);
            },
        }
        let filled = if m.exclude_modifiers().is_empty() {
            m.union(FilterBy::everywhere())
        } else {
            m
        };
        (text, filled)
    } else {
        (chars_to_string(&t), FilterBy::everywhere())
    }
}

fn mask_of_flags_exec(flags: &Vec<char>) -> (m: FilterBy)
    ensures
        m == mask_of_flags(flags@),
{
    let mut m = FilterBy::empty();
    let mut x: usize = 0;
    while x < flags.len()
        invariant
            x <= flags@.len(),
            m == mask_of_flags(flags@.take(x as int)),
        decreases flags@.len() - x,
    {
        m = m.union(FilterBy::from_char(flags[x]));
        proof {
            assert(flags@.take(x + 1).drop_last() =~= flags@.take(x as int));
            assert(flags@.take(x + 1).last() == flags@[x as int]);
        }
        x += 1;
    }
    proof {
        assert(flags@.take(flags@.len() as int) =~= flags@);
    }
    m
}

} // verus!
