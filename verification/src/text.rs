//! Character-level text model: whitespace classification, substring search,
//! whitespace tokenization, line splitting, joining, and decimal rendering.
//! All executable functions here are verified against spec functions over
//! `Seq<char>` views.

use vstd::prelude::*;

verus! {

/// A character counts as whitespace exactly when Rust's
/// `char::is_whitespace` says so: the Unicode `White_Space` property.
pub open spec fn is_wsp(c: char) -> bool {
    c == '\u{9}' || c == '\u{a}' || c == '\u{b}' || c == '\u{c}' || c == '\u{d}'
        || c == ' ' || c == '\u{85}' || c == '\u{a0}' || c == '\u{1680}'
        || ('\u{2000}' <= c && c <= '\u{200a}')
        || c == '\u{2028}' || c == '\u{2029}' || c == '\u{202f}' || c == '\u{205f}'
        || c == '\u{3000}'
}

/// Decides Unicode whitespace by the same table as `is_wsp`.
pub fn is_whitespace_char(c: char) -> (r: bool)
    ensures
        r == is_wsp(c),
{
    c == '\u{9}' || c == '\u{a}' || c == '\u{b}' || c == '\u{c}' || c == '\u{d}'
        || c == ' ' || c == '\u{85}' || c == '\u{a0}' || c == '\u{1680}'
        || ('\u{2000}' <= c && c <= '\u{200a}')
        || c == '\u{2028}' || c == '\u{2029}' || c == '\u{202f}' || c == '\u{205f}'
        || c == '\u{3000}'
}

/// The needle `q` occurs in `h` starting at position `i`.
pub open spec fn contains_at(h: Seq<char>, q: Seq<char>, i: int) -> bool {
    0 <= i && i + q.len() <= h.len() && h.subrange(i, i + q.len()) =~= q
}

/// The needle `q` occurs somewhere in `h`. The empty needle occurs in
/// every haystack.
pub open spec fn contains_seq(h: Seq<char>, q: Seq<char>) -> bool {
    exists|i: int| contains_at(h, q, i)
}

/// Position of the leftmost occurrence of `q` in `h`, if any.
pub open spec fn find_idx(h: Seq<char>, q: Seq<char>) -> Option<int>
    decreases h.len(),
{
    if contains_at(h, q, 0) {
        Some(0)
    } else if h.len() == 0 {
        None
    } else {
        match find_idx(h.drop_first(), q) {
            Some(i) => Some(i + 1),
            None => None,
        }
    }
}

/// `find_idx` returns the leftmost occurrence and returns `None` exactly
/// when there is no occurrence at all.
pub proof fn lemma_find_idx(h: Seq<char>, q: Seq<char>)
    ensures
        match find_idx(h, q) {
            Some(i) => contains_at(h, q, i) && forall|j: int| 0 <= j < i ==> !contains_at(h, q, j),
            None => !contains_seq(h, q),
        },
    decreases h.len(),
{
    if contains_at(h, q, 0) {
    } else if h.len() == 0 {
        assert forall|i: int| !contains_at(h, q, i) by {}
    } else {
        lemma_find_idx(h.drop_first(), q);
        let t = h.drop_first();
        assert forall|j: int| 1 <= j && j + q.len() <= h.len() implies (contains_at(h, q, j)
            <==> contains_at(t, q, j - 1)) by {
            assert(h.subrange(j, j + q.len()) =~= t.subrange(j - 1, j - 1 + q.len()));
        }
        match find_idx(t, q) {
            Some(i) => {
                assert(contains_at(h, q, i + 1));
            },
            None => {
                assert forall|i: int| !contains_at(h, q, i) by {
                    if 1 <= i && i + q.len() <= h.len() {
                        assert(!contains_at(t, q, i - 1));
                    }
                }
            },
        }
    }
}

/// Leftmost occurrence of the character sequence of `q` in `h`, as a char
/// index, scanning positions left to right.
pub fn find_in_str(h: &str, q: &str) -> (r: Option<usize>)
    ensures
        match r {
            Some(i) => find_idx(h@, q@) == Some(i as int),
            None => find_idx(h@, q@) is None,
        },
{
    let n: usize = h.unicode_len();
    let m: usize = q.unicode_len();
    if m > n {
        proof {
            lemma_find_none_when_too_long(h@, q@);
        }
        return None;
    }
    let mut i: usize = 0;
    while i <= n - m
        invariant
            m <= n,
            i <= n - m + 1,
            forall|j: int| 0 <= j < i ==> !contains_at(h@, q@, j),
        decreases n - m - i + 1,
    {
        let mut j: usize = 0;
        let mut ok: bool = true;
        while j < m
            invariant
                ok ==> h@.subrange(i as int, i + j) =~= q@.subrange(0, j as int),
                !ok ==> !contains_at(h@, q@, i as int),
                i + m <= n,
                j <= m,
            decreases m - j,
        {
            if h.get_char(i + j) != q.get_char(j) {
                proof {
                    if contains_at(h@, q@, i as int) {
                        assert(h@.subrange(i as int, i + q@.len())[j as int] == q@[j as int]);
                    }
                }
                ok = false;
                j = m;
            } else {
                proof {
                    if ok {
                        assert(h@.subrange(i as int, i + j + 1) =~= q@.subrange(0, j + 1));
                    }
                }
                j = j + 1;
            }
        }
        if ok {
            proof {
                assert(h@.subrange(i as int, i + q@.len()) =~= q@);
                lemma_find_at(h@, q@, i as int);
            }
            return Some(i);
        }
        i = i + 1;
    }
    proof {
        assert forall|j: int| !contains_at(h@, q@, j) by {}
        lemma_find_idx(h@, q@);
    }
    None
}

/// A needle longer than the haystack never occurs in it.
proof fn lemma_find_none_when_too_long(h: Seq<char>, q: Seq<char>)
    requires
        q.len() > h.len(),
    ensures
        find_idx(h, q) is None,
{
    lemma_find_idx(h, q);
    assert(!contains_seq(h, q));
}

/// If `q` occurs at `i` and nowhere earlier, `find_idx` returns `i`.
proof fn lemma_find_at(h: Seq<char>, q: Seq<char>, i: int)
    requires
        contains_at(h, q, i),
        forall|j: int| 0 <= j < i ==> !contains_at(h, q, j),
    ensures
        find_idx(h, q) == Some(i),
{
    lemma_find_idx(h, q);
    match find_idx(h, q) {
        Some(k) => {
            if k < i {
            } else if i < k {
            }
        },
        None => {
            assert(contains_seq(h, q));
        },
    }
}

/// The views of a sequence of owned strings.
pub open spec fn views_of(v: Seq<String>) -> Seq<Seq<char>> {
    v.map_values(|s: String| s@)
}

/// Length of the longest whitespace-free prefix of `s`.
pub open spec fn run_len(s: Seq<char>) -> nat
    decreases s.len(),
{
    if s.len() == 0 || is_wsp(s.first()) {
        0
    } else {
        1 + run_len(s.drop_first())
    }
}

/// A run never reaches past the end of the text.
pub proof fn lemma_run_len_le(s: Seq<char>)
    ensures
        run_len(s) <= s.len(),
    decreases s.len(),
{
    if !(s.len() == 0 || is_wsp(s.first())) {
        lemma_run_len_le(s.drop_first());
    }
}

/// The whitespace-delimited tokens of `s`: the maximal nonempty runs of
/// non-whitespace characters, in order, as `str::split_whitespace` yields
/// them.
pub open spec fn tokens(s: Seq<char>) -> Seq<Seq<char>>
    decreases s.len(),
{
    if s.len() == 0 {
        Seq::empty()
    } else if is_wsp(s.first()) {
        tokens(s.drop_first())
    } else {
        proof {
            lemma_run_len_le(s);
        }
        seq![s.take(run_len(s) as int)] + tokens(s.skip(run_len(s) as int))
    }
}

/// The non-whitespace run at the front of `s` is exactly `l` long when the
/// first `l` characters are non-whitespace and the next one (if any) is
/// whitespace.
pub proof fn lemma_run_len_is(s: Seq<char>, l: int)
    requires
        0 <= l <= s.len(),
        forall|k: int| 0 <= k < l ==> !is_wsp(s[k]),
        l == s.len() || is_wsp(s[l]),
    ensures
        run_len(s) == l,
    decreases l,
{
    if l == 0 {
    } else {
        assert(!is_wsp(s.first()));
        lemma_run_len_is(s.drop_first(), l - 1);
    }
}

/// A token never takes more characters than the text it came from.
pub proof fn lemma_tokens_count(s: Seq<char>)
    ensures
        tokens(s).len() <= s.len(),
    decreases s.len(),
{
    if s.len() == 0 {
    } else if is_wsp(s.first()) {
        lemma_tokens_count(s.drop_first());
    } else {
        lemma_run_len_le(s);
        assert(run_len(s) >= 1);
        lemma_tokens_count(s.skip(run_len(s) as int));
    }
}

/// Splits `s` into its whitespace-delimited tokens.
pub fn split_whitespace_tokens(s: &str) -> (r: Vec<String>)
    ensures
        views_of(r@) == tokens(s@),
{
    let n: usize = s.unicode_len();
    let mut toks: Vec<String> = Vec::new();
    let mut p: usize = 0;
    proof {
        assert(s@.skip(0) =~= s@);
        assert(views_of(toks@) =~= Seq::<Seq<char>>::empty());
        assert(views_of(toks@) + tokens(s@) =~= tokens(s@));
    }
    while p < n
        invariant
            p <= n,
            n == s@.len(),
            tokens(s@) =~= views_of(toks@) + tokens(s@.skip(p as int)),
        decreases n - p,
    {
        let c = s.get_char(p);
        if is_whitespace_char(c) {
            proof {
                assert(s@.skip(p as int).drop_first() =~= s@.skip(p + 1));
            }
            p = p + 1;
        } else {
            let start: usize = p;
            let mut j: usize = p + 1;
            while j < n && !is_whitespace_char(s.get_char(j))
                invariant
                    p < j <= n,
                    n == s@.len(),
                    forall|k: int| p <= k < j ==> !is_wsp(s@[k]),
                decreases n - j,
            {
                j = j + 1;
            }
            let tok = String::from_str(s.substring_char(start, j));
            proof {
                let suf = s@.skip(p as int);
                lemma_run_len_is(suf, j - p);
                assert(suf.take(j - p) =~= s@.subrange(p as int, j as int));
                assert(suf.skip(j - p) =~= s@.skip(j as int));
                assert(views_of(toks@.push(tok)) =~= views_of(toks@).push(tok@));
            }
            toks.push(tok);
            p = j;
        }
    }
    proof {
        assert(s@.skip(n as int) =~= Seq::<char>::empty());
        assert(tokens(s@) =~= views_of(toks@));
    }
    toks
}

/// Length of the longest prefix of `s` free of line feeds.
pub open spec fn nl_run(s: Seq<char>) -> nat
    decreases s.len(),
{
    if s.len() == 0 || s.first() == '\n' {
        0
    } else {
        1 + nl_run(s.drop_first())
    }
}

/// A line with its trailing carriage return removed, if it has one.
pub open spec fn strip_cr(t: Seq<char>) -> Seq<char> {
    if t.len() > 0 && t.last() == '\r' {
        t.drop_last()
    } else {
        t
    }
}

/// A line-feed-free run never reaches past the end of the text.
pub proof fn lemma_nl_run_le(s: Seq<char>)
    ensures
        nl_run(s) <= s.len(),
    decreases s.len(),
{
    if !(s.len() == 0 || s.first() == '\n') {
        lemma_nl_run_le(s.drop_first());
    }
}

/// The lines of `s`, split at line feeds, each stripped of one trailing
/// carriage return, with no entry for a final line terminator — exactly as
/// `str::lines` yields them.
pub open spec fn lines_of(s: Seq<char>) -> Seq<Seq<char>>
    decreases s.len(),
{
    if s.len() == 0 {
        Seq::empty()
    } else {
        let k = nl_run(s) as int;
        if k == s.len() {
            seq![s]
        } else {
            proof {
                lemma_nl_run_le(s);
            }
            seq![strip_cr(s.take(k))] + lines_of(s.skip(k + 1))
        }
    }
}

/// The line-feed-free run at the front of `s` is exactly `l` long.
pub proof fn lemma_nl_run_is(s: Seq<char>, l: int)
    requires
        0 <= l <= s.len(),
        forall|k: int| 0 <= k < l ==> s[k] != '\n',
        l == s.len() || s[l] == '\n',
    ensures
        nl_run(s) == l,
    decreases l,
{
    if l == 0 {
    } else {
        lemma_nl_run_is(s.drop_first(), l - 1);
    }
}

/// There are never more lines than characters, and the lines together hold
/// no more characters than the text they came from.
pub proof fn lemma_lines_bound(s: Seq<char>)
    ensures
        lines_of(s).len() <= s.len(),
        sum_lens(lines_of(s)) <= s.len(),
    decreases s.len(),
{
    if s.len() == 0 {
    } else {
        let k = nl_run(s) as int;
        lemma_nl_run_le(s);
        if k == s.len() {
            assert(seq![s].drop_last() =~= Seq::<Seq<char>>::empty());
            assert(sum_lens(seq![s]) == s.len() + sum_lens(Seq::<Seq<char>>::empty()));
        } else {
            lemma_lines_bound(s.skip(k + 1));
            let line = strip_cr(s.take(k));
            assert(line.len() <= k);
            assert(seq![line] + lines_of(s.skip(k + 1)) =~= lines_of(s.skip(k + 1)).insert(
                0,
                line,
            ));
            lemma_sum_lens_insert_front(lines_of(s.skip(k + 1)), line);
        }
    }
}

/// Total character count of a sequence of lines or tokens.
pub open spec fn sum_lens(ts: Seq<Seq<char>>) -> nat
    decreases ts.len(),
{
    if ts.len() == 0 {
        0
    } else {
        ts.last().len() + sum_lens(ts.drop_last())
    }
}

/// Appending one more sequence adds exactly its length to the total.
pub proof fn lemma_sum_lens_push(ts: Seq<Seq<char>>, t: Seq<char>)
    ensures
        sum_lens(ts.push(t)) == sum_lens(ts) + t.len(),
{
    assert(ts.push(t).drop_last() =~= ts);
}

/// Prepending one more sequence adds exactly its length to the total.
pub proof fn lemma_sum_lens_insert_front(ts: Seq<Seq<char>>, t: Seq<char>)
    ensures
        sum_lens(ts.insert(0, t)) == sum_lens(ts) + t.len(),
    decreases ts.len(),
{
    if ts.len() == 0 {
        assert(ts.insert(0, t) =~= seq![t]);
        assert(seq![t].drop_last() =~= Seq::<Seq<char>>::empty());
        assert(sum_lens(seq![t]) == t.len() + sum_lens(Seq::<Seq<char>>::empty()));
    } else {
        lemma_sum_lens_insert_front(ts.drop_last(), t);
        assert(ts.insert(0, t).drop_last() =~= ts.drop_last().insert(0, t));
        assert(ts.insert(0, t).last() == ts.last());
        assert(sum_lens(ts.insert(0, t)) == ts.last().len() + sum_lens(
            ts.drop_last().insert(0, t),
        ));
        assert(sum_lens(ts) == ts.last().len() + sum_lens(ts.drop_last()));
    }
}

/// A prefix of the lines holds no more characters than all of them.
pub proof fn lemma_sum_lens_take_le(ts: Seq<Seq<char>>, j: int)
    requires
        0 <= j <= ts.len(),
    ensures
        sum_lens(ts.take(j)) <= sum_lens(ts),
    decreases ts.len(),
{
    if j == ts.len() {
        assert(ts.take(j) =~= ts);
    } else {
        lemma_sum_lens_take_le(ts.drop_last(), j);
        assert(ts.take(j) =~= ts.drop_last().take(j));
    }
}

/// Splits `s` into lines as `str::lines` does: at line feeds, stripping one
/// trailing carriage return from each line.
pub fn split_lines(s: &str) -> (r: Vec<String>)
    ensures
        views_of(r@) == lines_of(s@),
{
    let n: usize = s.unicode_len();
    let mut out: Vec<String> = Vec::new();
    let mut p: usize = 0;
    proof {
        assert(s@.skip(0) =~= s@);
        assert(views_of(out@) =~= Seq::<Seq<char>>::empty());
        assert(views_of(out@) + lines_of(s@) =~= lines_of(s@));
    }
    while p < n
        invariant
            p <= n,
            n == s@.len(),
            lines_of(s@) =~= views_of(out@) + lines_of(s@.skip(p as int)),
        decreases n - p,
    {
        let mut j: usize = p;
        while j < n && s.get_char(j) != '\n'
            invariant
                p <= j <= n,
                n == s@.len(),
                forall|k: int| p <= k < j ==> s@[k] != '\n',
            decreases n - j,
        {
            j = j + 1;
        }
        proof {
            lemma_nl_run_is(s@.skip(p as int), j - p);
        }
        let ghost suf = s@.skip(p as int);
        if j == n {
            let line = String::from_str(s.substring_char(p, n));
            proof {
                assert(line@ =~= suf);
                assert(views_of(out@.push(line)) =~= views_of(out@).push(line@));
                assert(views_of(out@) + lines_of(suf) =~= views_of(out@.push(line))
                    + lines_of(s@.skip(n as int)));
            }
            out.push(line);
            p = n;
        } else {
            let line = if j > p && s.get_char(j - 1) == '\r' {
                String::from_str(s.substring_char(p, j - 1))
            } else {
                String::from_str(s.substring_char(p, j))
            };
            proof {
                assert(suf.take(j - p) =~= s@.subrange(p as int, j as int));
                assert(strip_cr(suf.take(j - p)) =~= line@);
                assert(suf.skip(j - p + 1) =~= s@.skip(j + 1));
                assert(views_of(out@.push(line)) =~= views_of(out@).push(line@));
            }
            out.push(line);
            p = j + 1;
        }
    }
    proof {
        assert(s@.skip(n as int) =~= Seq::<char>::empty());
        assert(lines_of(s@) =~= views_of(out@));
    }
    out
}

/// The tokens joined back together with a single space between neighbours.
pub open spec fn join_sp(ts: Seq<Seq<char>>) -> Seq<char>
    decreases ts.len(),
{
    if ts.len() == 0 {
        Seq::empty()
    } else if ts.len() == 1 {
        ts[0]
    } else {
        join_sp(ts.drop_last()) + seq![' '] + ts.last()
    }
}

/// The character for a single decimal digit.
pub open spec fn dec_digit(d: nat) -> char {
    if d == 0 {
        '0'
    } else if d == 1 {
        '1'
    } else if d == 2 {
        '2'
    } else if d == 3 {
        '3'
    } else if d == 4 {
        '4'
    } else if d == 5 {
        '5'
    } else if d == 6 {
        '6'
    } else if d == 7 {
        '7'
    } else if d == 8 {
        '8'
    } else {
        '9'
    }
}

/// The usual decimal rendering of `n`: most significant digit first, no
/// leading zeros (except for zero itself).
pub open spec fn dec_str(n: nat) -> Seq<char>
    decreases n,
{
    if n < 10 {
        seq![dec_digit(n)]
    } else {
        dec_str(n / 10).push(dec_digit(n % 10))
    }
}

/// One decimal digit as a string.
fn digit_string(d: usize) -> (r: String)
    requires
        d < 10,
    ensures
        r@ =~= seq![dec_digit(d as nat)],
{
    let s: &str = if d == 0 {
        "0"
    } else if d == 1 {
        "1"
    } else if d == 2 {
        "2"
    } else if d == 3 {
        "3"
    } else if d == 4 {
        "4"
    } else if d == 5 {
        "5"
    } else if d == 6 {
        "6"
    } else if d == 7 {
        "7"
    } else if d == 8 {
        "8"
    } else {
        "9"
    };
    proof {
        reveal_strlit("0");
        reveal_strlit("1");
        reveal_strlit("2");
        reveal_strlit("3");
        reveal_strlit("4");
        reveal_strlit("5");
        reveal_strlit("6");
        reveal_strlit("7");
        reveal_strlit("8");
        reveal_strlit("9");
    }
    String::from_str(s)
}

/// Renders `n` in decimal.
pub fn usize_to_string(n: usize) -> (r: String)
    ensures
        r@ == dec_str(n as nat),
    decreases n,
{
    if n < 10 {
        digit_string(n)
    } else {
        let high = usize_to_string(n / 10);
        let low = digit_string(n % 10);
        let r = high.concat(low.as_str());
        proof {
            assert(r@ =~= dec_str(n as nat / 10).push(dec_digit(n as nat % 10)));
        }
        r
    }
}

/// How many of the first `m` token comparison forms hold the query.
pub open spec fn count_found(tl: Seq<Seq<char>>, q: Seq<char>, m: int) -> int
    decreases m,
{
    if m <= 0 {
        0
    } else {
        count_found(tl, q, m - 1) + (if find_idx(tl[m - 1], q) is Some {
            1int
        } else {
            0int
        })
    }
}

/// The count of found tokens never exceeds the number of tokens looked at.
pub proof fn lemma_count_found_le(tl: Seq<Seq<char>>, q: Seq<char>, m: int)
    ensures
        0 <= count_found(tl, q, m) <= (if m <= 0 {
            0int
        } else {
            m
        }),
    decreases m,
{
    if m > 0 {
        lemma_count_found_le(tl, q, m - 1);
    }
}

/// Character-for-character string equality.
pub fn str_eq(a: &str, b: &str) -> (r: bool)
    ensures
        r == (a@ == b@),
{
    let n: usize = a.unicode_len();
    if n != b.unicode_len() {
        return false;
    }
    let mut i: usize = 0;
    while i < n
        invariant
            i <= n,
            n == a@.len() == b@.len(),
            forall|j: int| 0 <= j < i ==> a@[j] == b@[j],
        decreases n - i,
    {
        if a.get_char(i) != b.get_char(i) {
            return false;
        }
        i = i + 1;
    }
    proof {
        assert(a@ =~= b@);
    }
    true
}

} // verus!
