//! Character-sequence utilities the query compiler is built on: first-match
//! search, splitting on a separator, whitespace trimming, joining, and the
//! conversions between `String` and `Vec<char>`.

use vstd::prelude::*;
use vstd::string::StrSliceExecFns;

verus! {

/// Whitespace as `char::is_whitespace` defines it: the Unicode White_Space
/// set, so trimming behaves as `str::trim` does.
pub open spec fn is_ws(c: char) -> bool {
    let u = c as u32;
    (0x09 <= u && u <= 0x0D) || u == 0x20 || u == 0x85 || u == 0xA0 || u == 0x1680 || (0x2000 <= u
        && u <= 0x200A) || u == 0x2028 || u == 0x2029 || u == 0x202F || u == 0x205F || u == 0x3000
}

/// Index of the first occurrence of `pat` in `s`, if any.
pub open spec fn find_at(s: Seq<char>, pat: Seq<char>) -> Option<int>
    decreases s.len(),
{
    if pat.len() == 0 {
        Some(0)
    } else if s.len() < pat.len() {
        None
    } else if s.subrange(0, pat.len() as int) == pat {
        Some(0)
    } else {
        match find_at(s.skip(1), pat) {
            None => None,
            Some(i) => Some(i + 1),
        }
    }
}

/// `pat` occurs in `s` starting at `i`.
pub open spec fn match_at(s: Seq<char>, pat: Seq<char>, i: int) -> bool {
    0 <= i && i + pat.len() <= s.len() && s.subrange(i, i + pat.len()) == pat
}

/// `pat` occurs somewhere in `s`.
pub open spec fn contains_seq(s: Seq<char>, pat: Seq<char>) -> bool {
    exists|i: int| match_at(s, pat, i)
}

/// A subrange of `s` that starts past the first character is a subrange of
/// `s` without its first character.
proof fn lemma_subrange_skip1(s: Seq<char>, j: int, l: int)
    requires
        1 <= j,
        0 <= l,
        j + l <= s.len(),
    ensures
        s.subrange(j, j + l) == s.skip(1).subrange(j - 1, j - 1 + l),
{
    assert(s.subrange(j, j + l) =~= s.skip(1).subrange(j - 1, j - 1 + l));
}

/// `find_at` returns the first occurrence: a match at the reported index and
/// none before it, or no occurrence at all.
pub proof fn lemma_find_at_first(s: Seq<char>, pat: Seq<char>)
    ensures
        match find_at(s, pat) {
            Some(i) => match_at(s, pat, i) && (forall|j: int| 0 <= j < i ==> !match_at(s, pat, j)),
            None => forall|j: int| !match_at(s, pat, j),
        },
    decreases s.len(),
{
    if pat.len() == 0 {
        assert(s.subrange(0, 0) =~= pat);
        assert(match_at(s, pat, 0));
    } else if s.len() < pat.len() {
        assert(forall|j: int| !match_at(s, pat, j));
    } else if s.subrange(0, pat.len() as int) == pat {
        assert(match_at(s, pat, 0));
    } else {
        lemma_find_at_first(s.skip(1), pat);
        match find_at(s.skip(1), pat) {
            None => {
                assert forall|j: int| !match_at(s, pat, j) by {
                    if 1 <= j && j + pat.len() <= s.len() {
                        lemma_subrange_skip1(s, j, pat.len() as int);
                        assert(!match_at(s.skip(1), pat, j - 1));
                    }
                }
            },
            Some(i) => {
                assert(match_at(s.skip(1), pat, i));
                lemma_subrange_skip1(s, i + 1, pat.len() as int);
                assert(match_at(s, pat, i + 1));
                assert forall|j: int| 0 <= j < i + 1 implies !match_at(s, pat, j) by {
                    if 1 <= j && j + pat.len() <= s.len() {
                        lemma_subrange_skip1(s, j, pat.len() as int);
                        assert(!match_at(s.skip(1), pat, j - 1));
                    }
                }
            },
        }
    }
}

/// A first occurrence determines the value of `find_at`.
pub proof fn lemma_find_at_some(s: Seq<char>, pat: Seq<char>, i: int)
    requires
        match_at(s, pat, i),
        forall|j: int| 0 <= j < i ==> !match_at(s, pat, j),
    ensures
        find_at(s, pat) == Some(i),
{
    lemma_find_at_first(s, pat);
    match find_at(s, pat) {
        Some(k) => {
            if k < i {
                assert(!match_at(s, pat, k));
            }
            if k > i {
                assert(!match_at(s, pat, i));
            }
        },
        None => {
            assert(!match_at(s, pat, i));
        },
    }
}

/// Absence of any occurrence determines the value of `find_at`.
pub proof fn lemma_find_at_none(s: Seq<char>, pat: Seq<char>)
    requires
        forall|j: int| !match_at(s, pat, j),
    ensures
        find_at(s, pat) == None::<int>,
{
    lemma_find_at_first(s, pat);
    match find_at(s, pat) {
        Some(k) => {
            assert(!match_at(s, pat, k));
        },
        None => {},
    }
}

/// The pieces of `s` between non-overlapping, left-most occurrences of `pat`;
/// a sequence without the separator is a single piece.
pub open spec fn split_on(s: Seq<char>, pat: Seq<char>) -> Seq<Seq<char>>
    decreases s.len(),
    via split_on_decreases
{
    if pat.len() == 0 {
        seq![s]
    } else {
        match find_at(s, pat) {
            None => seq![s],
            Some(i) => seq![s.subrange(0, i)] + split_on(
                s.subrange(i + pat.len(), s.len() as int),
                pat,
            ),
        }
    }
}

#[via_fn]
proof fn split_on_decreases(s: Seq<char>, pat: Seq<char>) {
    lemma_find_at_first(s, pat);
}

/// Splitting yields at least one piece.
pub proof fn lemma_split_on_len(s: Seq<char>, pat: Seq<char>)
    ensures
        split_on(s, pat).len() >= 1,
{
}

/// The views of a sequence of character vectors.
pub open spec fn seq_views(vs: Seq<Vec<char>>) -> Seq<Seq<char>> {
    vs.map_values(|v: Vec<char>| v@)
}

/// `s` without leading whitespace.
pub open spec fn trim_start_spec(s: Seq<char>) -> Seq<char>
    decreases s.len(),
{
    if s.len() > 0 && is_ws(s[0]) {
        trim_start_spec(s.skip(1))
    } else {
        s
    }
}

/// `s` without trailing whitespace.
pub open spec fn trim_end_spec(s: Seq<char>) -> Seq<char>
    decreases s.len(),
{
    if s.len() > 0 && is_ws(s.last()) {
        trim_end_spec(s.drop_last())
    } else {
        s
    }
}

/// `s` without leading and trailing whitespace.
pub open spec fn trim_spec(s: Seq<char>) -> Seq<char> {
    trim_end_spec(trim_start_spec(s))
}

/// The first index without leading whitespace pins `trim_start_spec` down.
pub proof fn lemma_trim_start_skip(s: Seq<char>, i: int)
    requires
        0 <= i <= s.len(),
        forall|j: int| 0 <= j < i ==> is_ws(s[j]),
        i == s.len() || !is_ws(s[i]),
    ensures
        trim_start_spec(s) == s.skip(i),
    decreases i,
{
    if i == 0 {
        assert(s.skip(0) =~= s);
    } else {
        assert(is_ws(s[0]));
        lemma_trim_start_skip(s.skip(1), i - 1);
        assert(s.skip(1).skip(i - 1) =~= s.skip(i));
    }
}

/// The last index without trailing whitespace pins `trim_end_spec` down.
pub proof fn lemma_trim_end_take(s: Seq<char>, i: int)
    requires
        0 <= i <= s.len(),
        forall|j: int| i <= j < s.len() ==> is_ws(s[j]),
        i == 0 || !is_ws(s[i - 1]),
    ensures
        trim_end_spec(s) == s.take(i),
    decreases s.len() - i,
{
    if i == s.len() {
        assert(s.take(i) =~= s);
    } else {
        assert(is_ws(s.last()));
        lemma_trim_end_take(s.drop_last(), i);
        assert(s.drop_last().take(i) =~= s.take(i));
    }
}

/// What trimming leaves never starts with whitespace.
pub proof fn lemma_trim_start_head(s: Seq<char>)
    ensures
        trim_start_spec(s).len() > 0 ==> !is_ws(trim_start_spec(s)[0]),
    decreases s.len(),
{
    if s.len() > 0 && is_ws(s[0]) {
        lemma_trim_start_head(s.skip(1));
    }
}

/// Trimming the end keeps the first character.
pub proof fn lemma_trim_end_head(s: Seq<char>)
    ensures
        trim_end_spec(s).len() > 0 ==> s.len() > 0 && trim_end_spec(s)[0] == s[0],
    decreases s.len(),
{
    if s.len() > 0 && is_ws(s.last()) {
        lemma_trim_end_head(s.drop_last());
    }
}

/// What trimming leaves never ends with whitespace.
pub proof fn lemma_trim_end_last(s: Seq<char>)
    ensures
        trim_end_spec(s).len() > 0 ==> !is_ws(trim_end_spec(s).last()),
    decreases s.len(),
{
    if s.len() > 0 && is_ws(s.last()) {
        lemma_trim_end_last(s.drop_last());
    }
}

/// Trimming twice is trimming once.
pub proof fn lemma_trim_idempotent(s: Seq<char>)
    ensures
        trim_spec(trim_spec(s)) == trim_spec(s),
{
    let u = trim_start_spec(s);
    let v = trim_end_spec(u);
    lemma_trim_start_head(s);
    lemma_trim_end_head(u);
    assert(trim_start_spec(v) == v);
    lemma_trim_end_last(u);
    assert(trim_end_spec(v) == v);
}

/// The pieces joined with `sep` between each two of them.
pub open spec fn join_with(parts: Seq<Seq<char>>, sep: Seq<char>) -> Seq<char>
    decreases parts.len(),
{
    if parts.len() == 0 {
        Seq::empty()
    } else if parts.len() == 1 {
        parts[0]
    } else {
        parts[0] + sep + join_with(parts.drop_first(), sep)
    }
}

/// Joining one more piece appends a separator and the piece.
pub proof fn lemma_join_with_push(parts: Seq<Seq<char>>, sep: Seq<char>, p: Seq<char>)
    ensures
        join_with(parts.push(p), sep) == if parts.len() == 0 {
            p
        } else {
            join_with(parts, sep) + sep + p
        },
    decreases parts.len(),
{
    let whole = parts.push(p);
    if parts.len() == 0 {
        assert(whole.len() == 1);
        assert(whole[0] == p);
    } else {
        assert(whole[0] == parts[0]);
        assert(whole.drop_first() =~= parts.drop_first().push(p));
        lemma_join_with_push(parts.drop_first(), sep, p);
        if parts.len() == 1 {
            assert(join_with(whole, sep) == parts[0] + sep + p);
            assert(join_with(parts, sep) == parts[0]);
        } else {
            assert(join_with(whole, sep) == parts[0] + sep + (join_with(parts.drop_first(), sep)
                + sep + p));
            assert(parts[0] + sep + (join_with(parts.drop_first(), sep) + sep + p) =~= (parts[0]
                + sep + join_with(parts.drop_first(), sep)) + sep + p);
        }
    }
}

/// The characters of `s`, in order.
pub fn str_to_chars(s: &str) -> (v: Vec<char>)
    ensures
        v@ == s@,
{
    let n = s.unicode_len();
    let mut v: Vec<char> = Vec::new();
    let mut i: usize = 0;
    while i < n
        invariant
            n == s@.len(),
            i <= n,
            v@ == s@.take(i as int),
        decreases n - i,
    {
        let c = s.get_char(i);
        v.push(c);
        assert(s@.take(i as int).push(s@[i as int]) =~= s@.take(i + 1));
        i += 1;
    }
    assert(s@.take(n as int) =~= s@);
    v
}

/// Relies on String::push: appends the given character to the end of the string.
#[verifier::external_body]
fn push_char(s: &mut String, c: char)
    ensures
        final(s)@ == old(s)@.push(c),
{
    s.push(c);
}

/// A string holding exactly the characters of `v`.
pub fn chars_to_string(v: &Vec<char>) -> (s: String)
    ensures
        s@ == v@,
{
    let mut s = String::new();
    let mut i: usize = 0;
    while i < v.len()
        invariant
            i <= v@.len(),
            s@ == v@.take(i as int),
        decreases v@.len() - i,
    {
        push_char(&mut s, v[i]);
        assert(v@.take(i as int).push(v@[i as int]) =~= v@.take(i + 1));
        i += 1;
    }
    assert(v@.take(v@.len() as int) =~= v@);
    s
}

/// The characters of `s` from `from` (inclusive) to `to` (exclusive).
pub fn subvec(s: &Vec<char>, from: usize, to: usize) -> (r: Vec<char>)
    requires
        from <= to <= s@.len(),
    ensures
        r@ == s@.subrange(from as int, to as int),
{
    let mut r: Vec<char> = Vec::new();
    let mut i: usize = from;
    while i < to
        invariant
            from <= i <= to <= s@.len(),
            r@ == s@.subrange(from as int, i as int),
        decreases to - i,
    {
        r.push(s[i]);
        assert(s@.subrange(from as int, i as int).push(s@[i as int]) =~= s@.subrange(
            from as int,
            i + 1,
        ));
        i += 1;
    }
    r
}

/// Appends all characters of `add` to `acc`.
pub fn extend_chars(acc: &mut Vec<char>, add: &Vec<char>)
    ensures
        final(acc)@ == old(acc)@ + add@,
{
    let mut i: usize = 0;
    while i < add.len()
        invariant
            i <= add@.len(),
            acc@ == old(acc)@ + add@.take(i as int),
        decreases add@.len() - i,
    {
        acc.push(add[i]);
        assert((old(acc)@ + add@.take(i as int)).push(add@[i as int]) =~= old(acc)@ + add@.take(
            i + 1,
        ));
        i += 1;
    }
    assert(old(acc)@ + add@.take(add@.len() as int) =~= old(acc)@ + add@);
}

/// Whether two character vectors hold the same characters.
pub fn chars_eq(a: &Vec<char>, b: &Vec<char>) -> (r: bool)
    ensures
        r == (a@ == b@),
{
    if a.len() != b.len() {
        return false;
    }
    let mut i: usize = 0;
    while i < a.len()
        invariant
            a@.len() == b@.len(),
            i <= a@.len(),
            forall|j: int| 0 <= j < i ==> a@[j] == b@[j],
        decreases a@.len() - i,
    {
        if a[i] != b[i] {
            return false;
        }
        i += 1;
    }
    assert(a@ =~= b@);
    true
}

/// Index of the first occurrence of `pat` in `s`, if any.
pub fn find_sub(s: &Vec<char>, pat: &Vec<char>) -> (r: Option<usize>)
    requires
        pat@.len() >= 1,
    ensures
        match r {
            Some(i) => find_at(s@, pat@) == Some(i as int),
            None => find_at(s@, pat@) == None::<int>,
        },
{
    if s.len() < pat.len() {
        proof {
            lemma_find_at_none(s@, pat@);
        }
        return None;
    }
    let last_start = s.len() - pat.len();
    let mut i: usize = 0;
    while i <= last_start
        invariant
            pat@.len() >= 1,
            s@.len() <= usize::MAX,
            last_start == s@.len() - pat@.len(),
            i <= last_start + 1,
            forall|j: int| 0 <= j < i ==> !match_at(s@, pat@, j),
        decreases last_start + 1 - i,
    {
        let mut j: usize = 0;
        let mut matched = true;
        while j < pat.len()
            invariant
                pat@.len() >= 1,
                i + pat@.len() <= s@.len() <= usize::MAX,
                j <= pat@.len(),
                matched ==> forall|k: int| 0 <= k < j ==> s@[i + k] == pat@[k],
                !matched ==> !match_at(s@, pat@, i as int),
            decreases pat@.len() - j,
        {
            if s[i + j] != pat[j] {
                proof {
                    if match_at(s@, pat@, i as int) {
                        assert(s@.subrange(i as int, i + pat@.len())[j as int] == pat@[j as int]);
                    }
                }
                matched = false;
                j = pat.len();
            } else {
                j += 1;
            }
        }
        if matched {
            proof {
                assert(s@.subrange(i as int, i + pat@.len()) =~= pat@);
                lemma_find_at_some(s@, pat@, i as int);
            }
            return Some(i);
        }
        i += 1;
    }
    proof {
        assert forall|j: int| !match_at(s@, pat@, j) by {
            if 0 <= j && j + pat@.len() <= s@.len() {
                assert(j < i);
            }
        }
        lemma_find_at_none(s@, pat@);
    }
    None
}

/// The pieces of `s` between occurrences of `pat`, left to right.
pub fn split_chars(s: &Vec<char>, pat: &Vec<char>) -> (r: Vec<Vec<char>>)
    requires
        pat@.len() >= 1,
    ensures
        seq_views(r@) == split_on(s@, pat@),
{
    let mut out: Vec<Vec<char>> = Vec::new();
    let mut rest: Vec<char> = subvec(s, 0, s.len());
    proof {
        assert(s@.subrange(0, s@.len() as int) =~= s@);
    }
    loop
        invariant
            pat@.len() >= 1,
            split_on(s@, pat@) == seq_views(out@) + split_on(rest@, pat@),
        ensures
            seq_views(out@) == split_on(s@, pat@),
        decreases rest@.len(),
    {
        match find_sub(&rest, pat) {
            None => {
                let ghost prev = out@;
                out.push(rest);
                proof {
                    assert(seq_views(out@) =~= seq_views(prev).push(out@[out@.len() - 1]@));
                    assert(seq_views(out@) =~= split_on(s@, pat@));
                }
                return out;
            },
            Some(i) => {
                proof {
                    lemma_find_at_first(rest@, pat@);
                    assert(match_at(rest@, pat@, i as int));
                }
                let piece = subvec(&rest, 0, i);
                let rest_len = rest.len();
                let new_rest = subvec(&rest, i + pat.len(), rest_len);
                let ghost prev = out@;
                let ghost old_rest = rest@;
                out.push(piece);
                rest = new_rest;
                proof {
                    assert(seq_views(out@) =~= seq_views(prev).push(old_rest.subrange(0, i as int)));
                    assert(split_on(old_rest, pat@) == seq![old_rest.subrange(0, i as int)]
                        + split_on(rest@, pat@));
                    assert(seq_views(out@) + split_on(rest@, pat@) =~= seq_views(prev) + split_on(
                        old_rest,
                        pat@,
                    ));
                }
            },
        }
    }
}

/// The pieces joined with `sep` between each two of them.
pub fn join_chars(parts: &Vec<Vec<char>>, sep: &Vec<char>) -> (r: Vec<char>)
    ensures
        r@ == join_with(seq_views(parts@), sep@),
{
    let mut r: Vec<char> = Vec::new();
    let mut i: usize = 0;
    while i < parts.len()
        invariant
            i <= parts@.len(),
            r@ == join_with(seq_views(parts@.take(i as int)), sep@),
        decreases parts@.len() - i,
    {
        if i > 0 {
            extend_chars(&mut r, sep);
        }
        extend_chars(&mut r, &parts[i]);
        proof {
            let views_i = seq_views(parts@.take(i as int));
            assert(seq_views(parts@.take(i + 1)) =~= views_i.push(parts@[i as int]@));
            lemma_join_with_push(views_i, sep@, parts@[i as int]@);
            if i == 0 {
                assert(views_i.len() == 0);
            }
        }
        i += 1;
    }
    assert(parts@.take(parts@.len() as int) =~= parts@);
    r
}

/// `s` without leading whitespace.
pub fn trim_start_chars(s: &Vec<char>) -> (r: Vec<char>)
    ensures
        r@ == trim_start_spec(s@),
{
    let n = s.len();
    let mut b: usize = 0;
    while b < n && is_ws_exec(s[b])
        invariant
            n == s@.len(),
            b <= n,
            forall|j: int| 0 <= j < b ==> is_ws(s@[j]),
        decreases n - b,
    {
        b += 1;
    }
    proof {
        lemma_trim_start_skip(s@, b as int);
        assert(s@.skip(b as int) =~= s@.subrange(b as int, n as int));
    }
    subvec(s, b, n)
}

/// `s` without leading and trailing whitespace.
pub fn trim_chars(s: &Vec<char>) -> (r: Vec<char>)
    ensures
        r@ == trim_spec(s@),
{
    let n = s.len();
    let mut b: usize = 0;
    while b < n && is_ws_exec(s[b])
        invariant
            n == s@.len(),
            b <= n,
            forall|j: int| 0 <= j < b ==> is_ws(s@[j]),
        decreases n - b,
    {
        b += 1;
    }
    proof {
        lemma_trim_start_skip(s@, b as int);
    }
    let mut e: usize = n;
    while e > b && is_ws_exec(s[e - 1])
        invariant
            n == s@.len(),
            b <= e <= n,
            forall|j: int| e <= j < n ==> is_ws(s@[j]),
        decreases e,
    {
        e -= 1;
    }
    proof {
        let t = s@.skip(b as int);
        assert forall|j: int| e - b <= j < t.len() implies is_ws(t[j]) by {
            assert(t[j] == s@[j + b]);
        }
        if e > b {
            assert(t[e - b - 1] == s@[e - 1]);
        }
        lemma_trim_end_take(t, e - b);
        assert(t.take(e - b) =~= s@.subrange(b as int, e as int));
    }
    subvec(s, b, e)
}

/// Whitespace as `char::is_whitespace` defines it: the Unicode White_Space
/// set, so trimming behaves as `str::trim` does.
pub fn is_ws_exec(c: char) -> (r: bool)
    ensures
        r == is_ws(c),
{
    let u = c as u32;
    (0x09 <= u && u <= 0x0D) || u == 0x20 || u == 0x85 || u == 0xA0 || u == 0x1680 || (0x2000 <= u
        && u <= 0x200A) || u == 0x2028 || u == 0x2029 || u == 0x202F || u == 0x205F || u == 0x3000
}

} // verus!
