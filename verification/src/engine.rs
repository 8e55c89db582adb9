//! The match engine: scans contents line by line for a query, case
//! sensitively or not, and produces the matching lines with the matched
//! substring highlighted, together with match statistics.

use crate::config::Config;
use crate::text::contains_seq;
use crate::text::count_found;
use crate::text::find_idx;
use crate::text::find_in_str;
use crate::text::join_sp;
use crate::text::lemma_count_found_le;
use crate::text::lemma_find_idx;
use crate::text::lemma_lines_bound;
use crate::text::lemma_sum_lens_push;
use crate::text::lemma_sum_lens_take_le;
use crate::text::lemma_tokens_count;
use crate::text::lines_of;
use crate::text::split_lines;
use crate::text::split_whitespace_tokens;
use crate::text::sum_lens;
use crate::text::tokens;
use crate::text::views_of;
use colored::Colorize;
use vstd::prelude::*;

verus! {

/// What `str::to_lowercase` returns for a string with these characters.
pub uninterp spec fn lower_of(s: Seq<char>) -> Seq<char>;

/// Relies on `str::to_lowercase`: the result is a function of the input's
/// characters alone, and an empty string stays empty.
#[verifier::external_body]
fn to_lowercase_string(s: &str) -> (r: String)
    ensures
        r@ == lower_of(s@),
        s@.len() == 0 ==> r@.len() == 0,
{
    s.to_lowercase()
}

/// The comparison form of `s`: lowercased when `ignore_case` asks for it,
/// the text itself otherwise.
pub open spec fn norm(s: Seq<char>, ignore_case: bool) -> Seq<char> {
    if ignore_case {
        lower_of(s)
    } else {
        s
    }
}

/// Lowercases `s` when `ignore_case` is set; otherwise returns it as it is.
pub fn conditional_lowercase(s: &str, ignore_case: bool) -> (r: String)
    ensures
        r@ == norm(s@, ignore_case),
{
    if ignore_case {
        to_lowercase_string(s)
    } else {
        String::from_str(s)
    }
}

/// The ANSI reset sequence that ends a styled span.
pub open spec fn reset_chars() -> Seq<char> {
    seq!['\u{1b}', '[', '0', 'm']
}

/// What holds of a visually emphasised copy of `body`: unless `body` itself
/// holds a reset sequence (which the colorizer then rewrites internally),
/// the output is `body` with some prefix and suffix around it — empty ones
/// when colorization is off for the process.
pub open spec fn paint_ok(body: Seq<char>, out: Seq<char>) -> bool {
    contains_seq(body, reset_chars()) || (exists|pre: Seq<char>, suf: Seq<char>|
        out == pre + body + suf)
}

/// Relies on `colored::Colorize::{red, bold}` and `ColoredString`'s
/// `Display`: it writes a style escape prefix, the input unchanged, and a
/// reset suffix when colorization is enabled for the process, and the input
/// alone otherwise — except that an input already holding a reset sequence
/// gets further escapes spliced in after each one.
#[verifier::external_body]
fn paint_match(s: &str) -> (r: String)
    ensures
        paint_ok(s@, r@),
{
    format!("{}", s.red().bold())
}

/// What holds of the display form of a token whose characters
/// `[start, start + len)` matched the query: the pieces before and after
/// are kept as they are, and the matched slice is emphasised (or kept, when
/// `colorize` is off).
pub open spec fn highlighted_ok(
    tok: Seq<char>,
    start: int,
    len: int,
    colorize: bool,
    out: Seq<char>,
) -> bool {
    if colorize {
        exists|painted: Seq<char>|
            out == tok.take(start) + painted + tok.skip(start + len) && paint_ok(
                tok.subrange(start, start + len),
                painted,
            )
    } else {
        out == tok
    }
}

/// Rebuilds `token` with the characters `[start, start + len)` visually
/// emphasised when `colorize` is set, and unchanged otherwise. Slicing is
/// by character position, so multi-byte text is never cut apart.
pub fn highlight(token: &str, start: usize, len: usize, colorize: bool) -> (r: String)
    requires
        start + len <= token@.len(),
    ensures
        highlighted_ok(token@, start as int, len as int, colorize, r@),
{
    let n: usize = token.unicode_len();
    let before = token.substring_char(0, start);
    let matched = token.substring_char(start, start + len);
    let after = token.substring_char(start + len, n);
    if colorize {
        let painted = paint_match(matched);
        let r = String::from_str(before).concat(painted.as_str()).concat(after);
        proof {
            assert(before@ =~= token@.take(start as int));
            assert(after@ =~= token@.skip(start + len));
            assert(r@ == token@.take(start as int) + painted@ + token@.skip(start + len));
        }
        r
    } else {
        let r = String::from_str(before).concat(matched).concat(after);
        proof {
            assert(r@ =~= token@);
        }
        r
    }
}

/// How many token pairs the engine walks for one line: the original and
/// comparison tokenizations zipped positionally, so the shorter one bounds
/// the walk.
pub open spec fn zip_len(line: Seq<char>, low: Seq<char>) -> int {
    vstd::math::min(tokens(line).len() as int, tokens(low).len() as int)
}

/// What holds of the display form of one token: where the query was found
/// in the token's comparison form at a position that also fits the original
/// token, the original is re-sliced there and the match emphasised;
/// everywhere else the original token stands unchanged.
pub open spec fn decorated_token(
    orig: Seq<char>,
    low: Seq<char>,
    q: Seq<char>,
    colorize: bool,
    out: Seq<char>,
) -> bool {
    match find_idx(low, q) {
        Some(p) => {
            if colorize && p + q.len() <= orig.len() {
                highlighted_ok(orig, p, q.len() as int, colorize, out)
            } else {
                out == orig
            }
        },
        None => out == orig,
    }
}

/// What holds of a matching line's display form: each zipped token pair
/// yields one decorated token, and the decorated tokens are rejoined with
/// single spaces.
pub open spec fn line_display_ok(
    line: Seq<char>,
    low: Seq<char>,
    q: Seq<char>,
    colorize: bool,
    out: Seq<char>,
) -> bool {
    exists|outs: Seq<Seq<char>>|
        #![auto]
        outs.len() == zip_len(line, low) && (forall|k: int|
            0 <= k < outs.len() ==> decorated_token(
                tokens(line)[k],
                tokens(low)[k],
                q,
                colorize,
                outs[k],
            )) && out == join_sp(outs)
}

/// The display form of a matching line when no emphasis is applied: its
/// walked tokens rejoined with single spaces.
pub open spec fn plain_joined(line: Seq<char>, low: Seq<char>) -> Seq<char> {
    join_sp(tokens(line).take(zip_len(line, low)))
}

/// Builds the display form of one matching line: walks the original line's
/// tokens zipped with the comparison form's tokens, emphasises the query
/// inside each token whose comparison form holds it, and rejoins with
/// single spaces. Also counts the tokens that held the query.
pub fn highlight_line(line: &str, low: &str, query: &str, colorize: bool) -> (r: (String, usize))
    ensures
        r.1 as int == count_found(tokens(low@), query@, zip_len(line@, low@)),
        r.1 as int <= tokens(line@).len(),
        line_display_ok(line@, low@, query@, colorize, r.0@),
        !colorize ==> r.0@ == plain_joined(line@, low@),
{
    let to: Vec<String> = split_whitespace_tokens(line);
    let tl: Vec<String> = split_whitespace_tokens(low);
    let m: usize = if to.len() <= tl.len() {
        to.len()
    } else {
        tl.len()
    };
    let qlen: usize = query.unicode_len();
    let mut out = String::new();
    let mut words: usize = 0;
    let mut k: usize = 0;
    let ghost mut outs: Seq<Seq<char>> = Seq::empty();
    proof {
        assert(m as int == zip_len(line@, low@));
        reveal_strlit(" ");
        assert(" "@ =~= seq![' ']);
    }
    while k < m
        invariant
            k <= m,
            m <= to@.len(),
            m <= tl@.len(),
            m as int == zip_len(line@, low@),
            views_of(to@) == tokens(line@),
            views_of(tl@) == tokens(low@),
            qlen == query@.len(),
            outs.len() == k,
            forall|j: int|
                0 <= j < k ==> decorated_token(
                    tokens(line@)[j],
                    tokens(low@)[j],
                    query@,
                    colorize,
                    outs[j],
                ),
            out@ == join_sp(outs),
            words as int == count_found(tokens(low@), query@, k as int),
            words <= k,
            !colorize ==> outs == tokens(line@).take(k as int),
        decreases m - k,
    {
        let otok: &String = &to[k];
        let ltok: &String = &tl[k];
        proof {
            assert(otok@ == tokens(line@)[k as int]);
            assert(ltok@ == tokens(low@)[k as int]);
        }
        let found = find_in_str(ltok.as_str(), query);
        let piece: String = match found {
            Some(p) => {
                proof {
                    lemma_find_idx(ltok@, query@);
                }
                words = words + 1;
                let olen: usize = otok.as_str().unicode_len();
                if qlen <= olen && p <= olen - qlen {
                    highlight(otok.as_str(), p, qlen, colorize)
                } else {
                    otok.clone()
                }
            },
            None => otok.clone(),
        };
        proof {
            assert(decorated_token(
                tokens(line@)[k as int],
                tokens(low@)[k as int],
                query@,
                colorize,
                piece@,
            ));
        }
        if k > 0 {
            out.append(" ");
        }
        out.append(piece.as_str());
        proof {
            let prev = outs;
            outs = outs.push(piece@);
            if prev.len() == 0 {
                assert(outs[0] == piece@);
                assert(join_sp(outs) == piece@);
                assert(out@ == piece@);
            } else {
                assert(outs.drop_last() =~= prev);
                assert(outs.last() == piece@);
                assert(join_sp(outs) == join_sp(prev) + seq![' '] + piece@);
            }
            if !colorize {
                assert(piece@ == tokens(line@)[k as int]);
                assert(outs =~= tokens(line@).take(k + 1));
            }
        }
        k = k + 1;
    }
    proof {
        lemma_count_found_le(tokens(low@), query@, m as int);
        assert(line_display_ok(line@, low@, query@, colorize, out@));
    }
    (out, words)
}

/// A line matches when its comparison form holds the query's comparison
/// form as a substring.
pub open spec fn line_matches(line: Seq<char>, q: Seq<char>, ignore_case: bool) -> bool {
    contains_seq(norm(line, ignore_case), norm(q, ignore_case))
}

/// The indices, in order, of the matching lines among the first `n`.
pub open spec fn match_inds(lv: Seq<Seq<char>>, q: Seq<char>, ic: bool, n: int) -> Seq<int>
    decreases n,
{
    if n <= 0 {
        Seq::empty()
    } else {
        let p = match_inds(lv, q, ic, n - 1);
        if line_matches(lv[n - 1], q, ic) {
            p.push(n - 1)
        } else {
            p
        }
    }
}

/// The matching-line indices are exactly the indices of matching lines:
/// each entry names a matching line, the entries are strictly increasing,
/// and no matching line is left out.
pub proof fn lemma_match_inds(lv: Seq<Seq<char>>, q: Seq<char>, ic: bool, n: int)
    requires
        0 <= n <= lv.len(),
    ensures
        forall|k: int|
            #![auto]
            0 <= k < match_inds(lv, q, ic, n).len() ==> 0 <= match_inds(lv, q, ic, n)[k] < n
                && line_matches(lv[match_inds(lv, q, ic, n)[k]], q, ic),
        forall|k1: int, k2: int|
            #![auto]
            0 <= k1 < k2 < match_inds(lv, q, ic, n).len() ==> match_inds(lv, q, ic, n)[k1]
                < match_inds(lv, q, ic, n)[k2],
        forall|i: int|
            0 <= i < n && line_matches(lv[i], q, ic) ==> match_inds(lv, q, ic, n).contains(i),
    decreases n,
{
    if n > 0 {
        lemma_match_inds(lv, q, ic, n - 1);
        let p = match_inds(lv, q, ic, n - 1);
        if line_matches(lv[n - 1], q, ic) {
            let mi = p.push(n - 1);
            assert forall|i: int|
                0 <= i < n && line_matches(lv[i], q, ic) implies mi.contains(i) by {
                if i < n - 1 {
                    assert(p.contains(i));
                    let k0 = choose|k0: int| 0 <= k0 < p.len() && p[k0] == i;
                    assert(mi[k0] == i);
                } else {
                    assert(mi[p.len() as int] == i);
                }
            }
        }
    }
}

/// How many of the first `n` lines match.
pub open spec fn num_matching(lv: Seq<Seq<char>>, q: Seq<char>, ic: bool, n: int) -> int
    decreases n,
{
    if n <= 0 {
        0
    } else {
        num_matching(lv, q, ic, n - 1) + (if line_matches(lv[n - 1], q, ic) {
            1int
        } else {
            0int
        })
    }
}

/// For every input, the engine returns exactly one entry per source line
/// whose comparison form holds the query's comparison form.
pub proof fn lemma_result_count(lv: Seq<Seq<char>>, q: Seq<char>, ic: bool, n: int)
    ensures
        match_inds(lv, q, ic, n).len() == num_matching(lv, q, ic, n),
    decreases n,
{
    if n > 0 {
        lemma_result_count(lv, q, ic, n - 1);
    }
}

/// Over content where no line matches, the engine finds nothing.
pub proof fn lemma_no_match_empty(lv: Seq<Seq<char>>, q: Seq<char>, ic: bool, n: int)
    requires
        forall|i: int| 0 <= i < n ==> !line_matches(lv[i], q, ic),
    ensures
        match_inds(lv, q, ic, n).len() == 0,
    decreases n,
{
    if n > 0 {
        lemma_no_match_empty(lv, q, ic, n - 1);
    }
}

/// How many walked tokens of the matching line at `lv[i]` held the query.
pub open spec fn words_in_line(line: Seq<char>, q: Seq<char>, ic: bool) -> int {
    count_found(tokens(norm(line, ic)), norm(q, ic), zip_len(line, norm(line, ic)))
}

/// Total matched-token count over the matching lines among the first `n`.
pub open spec fn total_words(lv: Seq<Seq<char>>, q: Seq<char>, ic: bool, n: int) -> int
    decreases n,
{
    if n <= 0 {
        0
    } else {
        total_words(lv, q, ic, n - 1) + (if line_matches(lv[n - 1], q, ic) {
            words_in_line(lv[n - 1], q, ic)
        } else {
            0int
        })
    }
}

/// The views of the indices a search returned.
pub open spec fn ints_of(v: Seq<usize>) -> Seq<int> {
    v.map_values(|u: usize| u as int)
}

/// Everything `search` promises of its four results: the returned indices
/// are exactly the matching lines' indices in order; each display line is
/// the decorated form of its source line (and, with color off, exactly the
/// walked tokens rejoined with single spaces); the line count covers every
/// source line; and the word count totals the matched tokens.
pub open spec fn search_post(
    contents: Seq<char>,
    query: Seq<char>,
    ic: bool,
    no_color: bool,
    res: Seq<Seq<char>>,
    inds: Seq<int>,
    scanned: int,
    words: int,
) -> bool {
    let lv = lines_of(contents);
    let mi = match_inds(lv, query, ic, lv.len() as int);
    &&& res.len() == mi.len()
    &&& inds == mi
    &&& forall|k: int|
        #![auto]
        0 <= k < mi.len() ==> line_display_ok(
            lv[mi[k]],
            norm(lv[mi[k]], ic),
            norm(query, ic),
            !no_color,
            res[k],
        )
    &&& no_color ==> forall|k: int|
        #![auto]
        0 <= k < mi.len() ==> res[k] == plain_joined(lv[mi[k]], norm(lv[mi[k]], ic))
    &&& scanned == lv.len()
    &&& words == total_words(lv, query, ic, lv.len() as int)
}

/// Scans `contents` line by line for `config.query` and returns the
/// decorated matching lines, their 0-based source line indices in strictly
/// increasing order, the number of lines scanned, and the number of
/// matched words.
pub fn search(contents: &str, config: &Config) -> (r: (Vec<String>, Vec<usize>, i32, i32))
    requires
        contents@.len() < 0x8000_0000,
    ensures
        search_post(
            contents@,
            config.query@,
            config.ignore_case,
            config.no_color,
            views_of(r.0@),
            ints_of(r.1@),
            r.2 as int,
            r.3 as int,
        ),
        r.0@.len() == r.1@.len(),
        forall|k1: int, k2: int|
            #![auto]
            0 <= k1 < k2 < r.1@.len() ==> r.1@[k1] < r.1@[k2],
{
    let ghost q = config.query@;
    let ghost ic = config.ignore_case;
    let nq = conditional_lowercase(config.query.as_str(), config.ignore_case);
    let lines: Vec<String> = split_lines(contents);
    let ghost lv = lines_of(contents@);
    proof {
        lemma_lines_bound(contents@);
    }
    let mut results: Vec<String> = Vec::new();
    let mut found: Vec<usize> = Vec::new();
    let mut matched_words: i32 = 0;
    let mut i: usize = 0;
    proof {
        assert(lv.take(0) =~= Seq::<Seq<char>>::empty());
    }
    while i < lines.len()
        invariant
            i <= lines@.len(),
            views_of(lines@) == lv,
            lv == lines_of(contents@),
            lv.len() <= contents@.len() < 0x8000_0000,
            sum_lens(lv) <= contents@.len(),
            nq@ == norm(q, ic),
            results@.len() == match_inds(lv, q, ic, i as int).len(),
            found@.len() == results@.len(),
            forall|k: int|
                #![auto]
                0 <= k < found@.len() ==> found@[k] as int == match_inds(lv, q, ic, i as int)[k],
            forall|k: int|
                #![auto]
                0 <= k < results@.len() ==> line_display_ok(
                    lv[match_inds(lv, q, ic, i as int)[k]],
                    norm(lv[match_inds(lv, q, ic, i as int)[k]], ic),
                    norm(q, ic),
                    !config.no_color,
                    results@[k]@,
                ),
            config.no_color ==> forall|k: int|
                #![auto]
                0 <= k < results@.len() ==> results@[k]@ == plain_joined(
                    lv[match_inds(lv, q, ic, i as int)[k]],
                    norm(lv[match_inds(lv, q, ic, i as int)[k]], ic),
                ),
            matched_words as int == total_words(lv, q, ic, i as int),
            0 <= matched_words as int <= sum_lens(lv.take(i as int)),
        decreases lines@.len() - i,
    {
        let line: &String = &lines[i];
        proof {
            assert(line@ == lv[i as int]);
        }
        let hay = conditional_lowercase(line.as_str(), config.ignore_case);
        let pos = find_in_str(hay.as_str(), nq.as_str());
        proof {
            lemma_find_idx(hay@, nq@);
            lemma_sum_lens_take_le(lv, i + 1);
            assert(lv.take(i + 1) =~= lv.take(i as int).push(lv[i as int]));
            lemma_sum_lens_push(lv.take(i as int), lv[i as int]);
        }
        if pos.is_some() {
            proof {
                assert(line_matches(lv[i as int], q, ic));
            }
            found.push(i);
            let (disp, words) = highlight_line(
                line.as_str(),
                hay.as_str(),
                nq.as_str(),
                !config.no_color,
            );
            proof {
                lemma_tokens_count(line@);
                assert(words as int <= lv[i as int].len());
                assert(words as int == words_in_line(lv[i as int], q, ic));
            }
            results.push(disp);
            matched_words = matched_words + (words as i32);
        } else {
            proof {
                assert(!line_matches(lv[i as int], q, ic));
            }
        }
        i = i + 1;
    }
    let scanned = lines.len() as i32;
    proof {
        assert(lv.take(lv.len() as int) =~= lv);
        assert(ints_of(found@) =~= match_inds(lv, q, ic, lv.len() as int));
        lemma_match_inds(lv, q, ic, lv.len() as int);
    }
    (results, found, scanned, matched_words)
}

/// The match engine is deterministic: two runs over the same contents and
/// settings return the same indices and counts, and — whenever color is off,
/// so no environment-dependent emphasis is involved — the same display
/// lines too.
pub proof fn lemma_search_deterministic(
    contents: Seq<char>,
    query: Seq<char>,
    ic: bool,
    no_color: bool,
    res1: Seq<Seq<char>>,
    inds1: Seq<int>,
    scanned1: int,
    words1: int,
    res2: Seq<Seq<char>>,
    inds2: Seq<int>,
    scanned2: int,
    words2: int,
)
    requires
        search_post(contents, query, ic, no_color, res1, inds1, scanned1, words1),
        search_post(contents, query, ic, no_color, res2, inds2, scanned2, words2),
    ensures
        inds1 == inds2,
        scanned1 == scanned2,
        words1 == words2,
        res1.len() == res2.len(),
        no_color ==> res1 == res2,
{
    if no_color {
        assert(res1 =~= res2);
    }
}

} // verus!
