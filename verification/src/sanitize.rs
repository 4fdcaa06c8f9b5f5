//! Sanitization of raw model output into the quality server's markup
//! dialect: reasoning blocks are removed in their entirety, triple-backtick
//! code fences collapse to the server's double-backtick convention,
//! double-asterisk emphasis collapses to single asterisks, and surrounding
//! whitespace is trimmed. The rewriting is applied until no such shape is
//! left, so sanitization is idempotent and no complete reasoning block
//! survives it, on every input. Also holds the case-insensitive,
//! whitespace-tolerant detection of the false-positive marker in
//! sanitized text.

use vstd::prelude::*;
use vstd::string::*;

use crate::text::{
    contains_seq, find_seq_spec, is_ws, is_ws_char, lemma_find_seq_at, lemma_find_seq_found,
    lemma_occurs_skip, lemma_replace_id, lemma_replace_len_le, lemma_replace_shrinks,
    lemma_trim_idempotent, lemma_trim_len_le, matches_at, find_from, occurs_at, replace_all,
    replace_spec, trim_spec, trim_str,
};

verus! {

/// The opening delimiter of a reasoning block.
pub open spec fn open_tag() -> Seq<char> {
    seq!['<', 't', 'h', 'i', 'n', 'k', '>']
}

/// The closing delimiter of a reasoning block.
pub open spec fn close_tag() -> Seq<char> {
    seq!['<', '/', 't', 'h', 'i', 'n', 'k', '>']
}

/// No closing delimiter can begin inside an opening delimiter.
proof fn lemma_close_not_in_open(s: Seq<char>, i: int, k: int)
    requires
        occurs_at(s, open_tag(), i),
        i <= k < i + open_tag().len(),
    ensures
        !occurs_at(s, close_tag(), k),
{
    if occurs_at(s, close_tag(), k) {
        let o = k - i;
        assert(s.subrange(k, k + close_tag().len() as int)[0] == s[k]);
        assert(s.subrange(k, k + close_tag().len() as int)[1] == s[k + 1]);
        assert(s.subrange(i, i + open_tag().len() as int)[o] == s[i + o]);
        if o == 0 {
            assert(s.subrange(i, i + open_tag().len() as int)[1] == s[i + 1]);
        }
    }
}

/// Removal of reasoning blocks: at each position, an opening delimiter
/// with some closing delimiter after it removes everything through the
/// first closing delimiter; all other characters are kept. This is the
/// leftmost, shortest-match removal of `<think>...</think>` blocks.
pub open spec fn strip_think_spec(s: Seq<char>) -> Seq<char>
    decreases s.len(),
{
    if s.len() == 0 {
        s
    } else {
        let j = find_seq_spec(s, close_tag());
        if occurs_at(s, open_tag(), 0) && 0 <= j && occurs_at(s, close_tag(), j) {
            strip_think_spec(s.skip(j + close_tag().len() as int))
        } else {
            seq![s[0]] + strip_think_spec(s.skip(1))
        }
    }
}

/// A text with no closing delimiter anywhere is left unchanged.
proof fn lemma_strip_no_close(t: Seq<char>)
    requires
        !contains_seq(t, close_tag()),
    ensures
        strip_think_spec(t) == t,
    decreases t.len(),
{
    if t.len() > 0 {
        let j = find_seq_spec(t, close_tag());
        assert(!occurs_at(t, close_tag(), j));
        assert forall|k: int| 0 <= k implies !occurs_at(t.skip(1), close_tag(), k) by {
            lemma_occurs_skip(t, close_tag(), 1, k);
        }
        lemma_strip_no_close(t.skip(1));
        assert(seq![t[0]] + t.skip(1) =~= t);
    }
}

/// A complete reasoning block: an opening delimiter with a closing
/// delimiter at or after its end.
pub open spec fn has_think_block(t: Seq<char>) -> bool {
    exists|i: int, j: int|
        occurs_at(t, open_tag(), i) && occurs_at(t, close_tag(), j) && j >= i + open_tag().len()
}

/// A text without a complete reasoning block is left unchanged by the
/// stripper.
pub proof fn lemma_strip_id(t: Seq<char>)
    requires
        !has_think_block(t),
    ensures
        strip_think_spec(t) == t,
    decreases t.len(),
{
    if t.len() > 0 {
        let j = find_seq_spec(t, close_tag());
        if occurs_at(t, open_tag(), 0) && 0 <= j && occurs_at(t, close_tag(), j) {
            lemma_close_not_in_open(t, 0, j);
            if j >= open_tag().len() {
                assert(occurs_at(t, open_tag(), 0) && occurs_at(t, close_tag(), j) && j >= 0
                    + open_tag().len());
                assert(has_think_block(t));
            }
            assert(false);
        }
        assert forall|i: int, j2: int|
            occurs_at(t.skip(1), open_tag(), i) && occurs_at(t.skip(1), close_tag(), j2) && j2 >= i
                + open_tag().len() implies false by {
            lemma_occurs_skip(t, open_tag(), 1, i);
            lemma_occurs_skip(t, close_tag(), 1, j2);
            assert(has_think_block(t));
        }
        lemma_strip_id(t.skip(1));
        assert(seq![t[0]] + t.skip(1) =~= t);
    }
}

/// Executable removal of reasoning blocks.
pub fn strip_think(s: &str) -> (r: String)
    ensures
        r@ == strip_think_spec(s@),
{
    let n = s.unicode_len();
    let mut out = String::new();
    let mut i: usize = 0;
    proof {
        reveal_strlit("<think>");
        reveal_strlit("</think>");
        assert("<think>"@ =~= open_tag());
        assert("</think>"@ =~= close_tag());
        assert(s@.skip(0) =~= s@);
        assert(Seq::<char>::empty() + strip_think_spec(s@) =~= strip_think_spec(s@));
    }
    while i < n
        invariant
            n == s@.len(),
            i <= n,
            "<think>"@ == open_tag(),
            "</think>"@ == close_tag(),
            strip_think_spec(s@) == out@ + strip_think_spec(s@.skip(i as int)),
        decreases n - i,
    {
        let ghost t = s@.skip(i as int);
        if matches_at(s, "<think>", i) {
            proof {
                lemma_occurs_skip(s@, open_tag(), i as int, 0);
            }
            match find_from(s, "</think>", i + 7) {
                Some(j) => {
                    proof {
                        assert forall|k: int| 0 <= k < j - i implies !occurs_at(
                            t,
                            close_tag(),
                            k,
                        ) by {
                            lemma_occurs_skip(s@, close_tag(), i as int, k);
                            if k + i < i + 7 {
                                lemma_close_not_in_open(s@, i as int, k + i);
                            }
                        }
                        lemma_occurs_skip(s@, close_tag(), i as int, j - i);
                        lemma_find_seq_at(t, close_tag(), j - i);
                        assert(t.skip(j - i + close_tag().len() as int) =~= s@.skip(j + 8));
                        assert(strip_think_spec(t) == strip_think_spec(s@.skip(j + 8)));
                    }
                    i = j + 8;
                },
                None => {
                    proof {
                        assert forall|k: int| 0 <= k implies !occurs_at(t, close_tag(), k) by {
                            lemma_occurs_skip(s@, close_tag(), i as int, k);
                            if k + i < i + 7 {
                                lemma_close_not_in_open(s@, i as int, k + i);
                            }
                        }
                        lemma_strip_no_close(t);
                        assert(t =~= s@.subrange(i as int, n as int));
                        assert(s@.skip(n as int) =~= Seq::<char>::empty());
                        assert(out@ + t + Seq::<char>::empty() =~= out@ + t);
                    }
                    out.append(s.substring_char(i, n));
                    i = n;
                },
            }
        } else {
            proof {
                lemma_occurs_skip(s@, open_tag(), i as int, 0);
                assert(t[0] == s@[i as int]);
                assert(s@.subrange(i as int, i + 1) =~= seq![s@[i as int]]);
                assert(t.skip(1) =~= s@.skip(i + 1));
            }
            out.append(s.substring_char(i, i + 1));
            i += 1;
        }
    }
    proof {
        assert(s@.skip(n as int) =~= Seq::<char>::empty());
        assert(out@ + Seq::<char>::empty() =~= out@);
    }
    out
}

/// One sanitization pass: reasoning blocks removed, code fences and
/// emphasis collapsed once, left to right, surrounding whitespace
/// trimmed. One pass can leave or re-form a rewritten shape (four
/// backticks collapse to three; a removal can re-form delimiters), so
/// [`sanitize_spec`] iterates it until none is left.
pub open spec fn sanitize_pass_spec(s: Seq<char>) -> Seq<char> {
    trim_spec(
        replace_spec(
            replace_spec(strip_think_spec(s), seq!['`', '`', '`'], seq!['`', '`']),
            seq!['*', '*'],
            seq!['*'],
        ),
    )
}

/// One executable sanitization pass.
fn sanitize_pass(raw: &str) -> (r: String)
    ensures
        r@ == sanitize_pass_spec(raw@),
{
    let s1 = strip_think(raw);
    proof {
        reveal_strlit("```");
        reveal_strlit("``");
        reveal_strlit("*");
        reveal_strlit("**");
        assert("```"@ =~= seq!['`', '`', '`']);
        assert("``"@ =~= seq!['`', '`']);
        assert("**"@ =~= seq!['*', '*']);
        assert("*"@ =~= seq!['*']);
    }
    let s2 = replace_all(s1.as_str(), "```", "``");
    let s3 = replace_all(s2.as_str(), "**", "*");
    trim_str(s3.as_str())
}

/// Text holding none of the rewritten shapes: no complete reasoning
/// block, no triple backtick and no double asterisk. Every sanitized
/// result satisfies this — see [`lemma_sanitize_fully_sanitized`].
pub open spec fn fully_sanitized(t: Seq<char>) -> bool {
    &&& !has_think_block(t)
    &&& !contains_seq(t, seq!['`', '`', '`'])
    &&& !contains_seq(t, seq!['*', '*'])
}

/// Stripping never lengthens.
proof fn lemma_strip_len_le(t: Seq<char>)
    ensures
        strip_think_spec(t).len() <= t.len(),
    decreases t.len(),
{
    if t.len() > 0 {
        let j = find_seq_spec(t, close_tag());
        if occurs_at(t, open_tag(), 0) && 0 <= j && occurs_at(t, close_tag(), j) {
            lemma_strip_len_le(t.skip(j + close_tag().len() as int));
        } else {
            lemma_strip_len_le(t.skip(1));
        }
    }
}

/// Stripping strictly shortens a text holding a complete reasoning block.
proof fn lemma_strip_shrinks(t: Seq<char>)
    requires
        has_think_block(t),
    ensures
        strip_think_spec(t).len() < t.len(),
    decreases t.len(),
{
    let (i, jj) = choose|i: int, jj: int|
        occurs_at(t, open_tag(), i) && occurs_at(t, close_tag(), jj) && jj >= i
            + open_tag().len();
    let j = find_seq_spec(t, close_tag());
    if occurs_at(t, open_tag(), 0) && 0 <= j && occurs_at(t, close_tag(), j) {
        lemma_strip_len_le(t.skip(j + close_tag().len() as int));
    } else {
        if i == 0 {
            lemma_find_seq_found(t, close_tag());
            assert(false);
        }
        lemma_occurs_skip(t, open_tag(), 1, i - 1);
        lemma_occurs_skip(t, close_tag(), 1, jj - 1);
        assert(occurs_at(t.skip(1), open_tag(), i - 1) && occurs_at(t.skip(1), close_tag(), jj - 1)
            && jj - 1 >= i - 1 + open_tag().len());
        lemma_strip_shrinks(t.skip(1));
    }
}

/// A pass strictly shortens any text still holding a rewritten shape:
/// the termination measure of the pass iteration.
proof fn lemma_pass_shrinks(t: Seq<char>)
    requires
        !fully_sanitized(t),
    ensures
        sanitize_pass_spec(t).len() < t.len(),
{
    let tick3 = seq!['`', '`', '`'];
    let tick2 = seq!['`', '`'];
    let star2 = seq!['*', '*'];
    let star1 = seq!['*'];
    let u1 = strip_think_spec(t);
    let u2 = replace_spec(u1, tick3, tick2);
    let u3 = replace_spec(u2, star2, star1);
    lemma_trim_len_le(u3);
    if has_think_block(t) {
        lemma_strip_shrinks(t);
        lemma_replace_len_le(u1, tick3, tick2);
        lemma_replace_len_le(u2, star2, star1);
    } else {
        lemma_strip_id(t);
        if contains_seq(t, tick3) {
            lemma_replace_shrinks(t, tick3, tick2);
            lemma_replace_len_le(u2, star2, star1);
        } else {
            lemma_replace_id(t, tick3, tick2);
            lemma_replace_shrinks(t, star2, star1);
        }
    }
}

/// Pass results iterated until no rewritten shape is left; each round on
/// an unfinished text strictly shortens it, so the iteration ends.
pub open spec fn collapse_to_clean(t: Seq<char>) -> Seq<char>
    decreases t.len(),
    via collapse_to_clean_decreases
{
    if fully_sanitized(t) {
        t
    } else {
        collapse_to_clean(sanitize_pass_spec(t))
    }
}

#[via_fn]
proof fn collapse_to_clean_decreases(t: Seq<char>) {
    if !fully_sanitized(t) {
        lemma_pass_shrinks(t);
    }
}

/// The full sanitization: passes are applied until the result holds no
/// complete reasoning block, no triple backtick and no double asterisk.
/// The result is always trimmed, and sanitization is idempotent on every
/// input — see [`lemma_sanitize_fully_sanitized`] and
/// [`lemma_sanitize_idempotent`].
pub open spec fn sanitize_spec(s: Seq<char>) -> Seq<char> {
    collapse_to_clean(sanitize_pass_spec(s))
}

/// Every result of the iteration holds none of the rewritten shapes.
proof fn lemma_collapse_clean(t: Seq<char>)
    ensures
        fully_sanitized(collapse_to_clean(t)),
    decreases t.len(),
{
    if !fully_sanitized(t) {
        lemma_pass_shrinks(t);
        lemma_collapse_clean(sanitize_pass_spec(t));
    }
}

/// A pass output is always trimmed.
proof fn lemma_pass_trimmed(t: Seq<char>)
    ensures
        trim_spec(sanitize_pass_spec(t)) == sanitize_pass_spec(t),
{
    lemma_trim_idempotent(
        replace_spec(
            replace_spec(strip_think_spec(t), seq!['`', '`', '`'], seq!['`', '`']),
            seq!['*', '*'],
            seq!['*'],
        ),
    );
}

/// The iteration keeps a trimmed text trimmed.
proof fn lemma_collapse_trimmed(t: Seq<char>)
    requires
        trim_spec(t) == t,
    ensures
        trim_spec(collapse_to_clean(t)) == collapse_to_clean(t),
    decreases t.len(),
{
    if !fully_sanitized(t) {
        lemma_pass_shrinks(t);
        lemma_pass_trimmed(t);
        lemma_collapse_trimmed(sanitize_pass_spec(t));
    }
}

/// A pass leaves a trimmed text without rewritten shapes unchanged.
proof fn lemma_pass_of_clean(t: Seq<char>)
    requires
        fully_sanitized(t),
        trim_spec(t) == t,
    ensures
        sanitize_pass_spec(t) == t,
{
    lemma_strip_id(t);
    lemma_replace_id(t, seq!['`', '`', '`'], seq!['`', '`']);
    lemma_replace_id(t, seq!['*', '*'], seq!['*']);
}

/// Complete removal: for every input, the sanitized text holds no
/// complete reasoning block, no triple backtick and no double asterisk —
/// also where one removal re-forms delimiters, the re-formed block is
/// removed in turn.
pub proof fn lemma_sanitize_fully_sanitized(s: Seq<char>)
    ensures
        fully_sanitized(sanitize_spec(s)),
        !has_think_block(sanitize_spec(s)),
{
    lemma_collapse_clean(sanitize_pass_spec(s));
}

/// Sanitization is idempotent: for every input, applying it twice yields
/// exactly what applying it once yields.
pub proof fn lemma_sanitize_idempotent(s: Seq<char>)
    ensures
        sanitize_spec(sanitize_spec(s)) == sanitize_spec(s),
{
    let p = sanitize_pass_spec(s);
    let r = sanitize_spec(s);
    lemma_pass_trimmed(s);
    lemma_collapse_trimmed(p);
    lemma_collapse_clean(p);
    lemma_pass_of_clean(r);
    assert(collapse_to_clean(r) == r);
}

/// Executable test that a text holds none of the rewritten shapes.
fn is_fully_sanitized(s: &str) -> (r: bool)
    ensures
        r == fully_sanitized(s@),
{
    let n = s.unicode_len();
    proof {
        reveal_strlit("<think>");
        reveal_strlit("</think>");
        reveal_strlit("```");
        reveal_strlit("**");
        assert("<think>"@ =~= open_tag());
        assert("</think>"@ =~= close_tag());
        assert("```"@ =~= seq!['`', '`', '`']);
        assert("**"@ =~= seq!['*', '*']);
    }
    let has_block: bool = match find_from(s, "<think>", 0) {
        Some(i0) => {
            match find_from(s, "</think>", i0 + 7) {
                Some(j) => {
                    proof {
                        assert(occurs_at(s@, open_tag(), i0 as int) && occurs_at(
                            s@,
                            close_tag(),
                            j as int,
                        ) && j as int >= i0 + open_tag().len());
                        assert(has_think_block(s@));
                    }
                    true
                },
                None => {
                    proof {
                        assert forall|i: int, j2: int|
                            !(occurs_at(s@, open_tag(), i) && occurs_at(s@, close_tag(), j2) && j2
                                >= i + open_tag().len()) by {
                            if occurs_at(s@, open_tag(), i) && occurs_at(s@, close_tag(), j2) && j2
                                >= i + open_tag().len() {
                                assert(i >= i0);
                                assert(j2 >= i0 + 7);
                            }
                        }
                        assert(!has_think_block(s@));
                    }
                    false
                },
            }
        },
        None => {
            proof {
                assert forall|i: int, j2: int|
                    !(occurs_at(s@, open_tag(), i) && occurs_at(s@, close_tag(), j2) && j2 >= i
                        + open_tag().len()) by {}
                assert(!has_think_block(s@));
            }
            false
        },
    };
    let has_ticks: bool = match find_from(s, "```", 0) {
        Some(_) => true,
        None => {
            proof {
                assert(!contains_seq(s@, seq!['`', '`', '`']));
            }
            false
        },
    };
    let has_stars: bool = match find_from(s, "**", 0) {
        Some(_) => true,
        None => {
            proof {
                assert(!contains_seq(s@, seq!['*', '*']));
            }
            false
        },
    };
    !has_block && !has_ticks && !has_stars
}

/// Executable sanitization of a raw model response: passes are applied
/// until no rewritten shape is left, per [`sanitize_spec`].
pub fn sanitize(raw: &str) -> (r: String)
    ensures
        r@ == sanitize_spec(raw@),
{
    let mut cur = sanitize_pass(raw);
    while !is_fully_sanitized(cur.as_str())
        invariant
            sanitize_spec(raw@) == collapse_to_clean(cur@),
        decreases cur@.len(),
    {
        proof {
            lemma_pass_shrinks(cur@);
        }
        cur = sanitize_pass(cur.as_str());
    }
    cur
}

/// ASCII lowercasing of one character; other characters are unchanged.
pub open spec fn ascii_lower(c: char) -> char {
    if 'A' <= c && c <= 'Z' {
        (((c as u8) + 32) as u8) as char
    } else {
        c
    }
}

/// ASCII lowercasing of a text.
pub open spec fn lower_seq(s: Seq<char>) -> Seq<char> {
    s.map_values(|c: char| ascii_lower(c))
}

/// The false-positive marker's first word, with the opening emphasis.
pub open spec fn marker_head() -> Seq<char> {
    seq!['*', 'f', 'a', 'l', 's', 'e']
}

/// The false-positive marker's second word, with the closing emphasis.
pub open spec fn marker_tail() -> Seq<char> {
    seq!['p', 'o', 's', 'i', 't', 'i', 'v', 'e', '*']
}

/// One occurrence of the false-positive marker: `*false` at `i`, then a
/// non-empty whitespace run, then `positive*` at `j`, compared without
/// regard to ASCII case.
pub open spec fn marker_pair_at(s: Seq<char>, i: int, j: int) -> bool {
    &&& occurs_at(lower_seq(s), marker_head(), i)
    &&& occurs_at(lower_seq(s), marker_tail(), j)
    &&& i + marker_head().len() < j
    &&& forall|k: int| i + marker_head().len() <= k < j ==> is_ws(s[k])
}

/// The marker occurs in `s`: case-insensitive, and tolerating any
/// whitespace run between the two words. (The prompt template's exact
/// phrase holds one space.)
pub open spec fn marker_present(s: Seq<char>) -> bool {
    exists|i: int, j: int| marker_pair_at(s, i, j)
}

/// Executable ASCII lowercasing of one character.
fn ascii_lower_char(c: char) -> (r: char)
    ensures
        r == ascii_lower(c),
{
    if 'A' <= c && c <= 'Z' {
        ((c as u8) + 32) as char
    } else {
        c
    }
}

/// Executable, case-insensitive test for the marker's first word at `i`.
fn matches_head_at(s: &str, n: usize, i: usize) -> (r: bool)
    requires
        n == s@.len(),
    ensures
        r == occurs_at(lower_seq(s@), marker_head(), i as int),
{
    let ghost ls = lower_seq(s@);
    proof {
        assert(ls.len() == n);
    }
    if 6 > n || i > n - 6 {
        return false;
    }
    let r = ascii_lower_char(s.get_char(i)) == '*' && ascii_lower_char(s.get_char(i + 1)) == 'f'
        && ascii_lower_char(s.get_char(i + 2)) == 'a' && ascii_lower_char(s.get_char(i + 3)) == 'l'
        && ascii_lower_char(s.get_char(i + 4)) == 's' && ascii_lower_char(s.get_char(i + 5))
        == 'e';
    proof {
        assert forall|d: int| 0 <= d < 6 implies #[trigger] ls[i + d] == ascii_lower(s@[i + d]) by {}
        if r {
            assert(ls.subrange(i as int, i + 6) =~= marker_head());
        } else {
            if occurs_at(ls, marker_head(), i as int) {
                assert forall|d: int| 0 <= d < 6 implies ls[i + d] == marker_head()[d] by {
                    assert(ls.subrange(i as int, i + 6)[d] == ls[i + d]);
                }
                assert(false);
            }
        }
    }
    r
}

/// Executable, case-insensitive test for the marker's second word at `i`.
fn matches_tail_at(s: &str, n: usize, i: usize) -> (r: bool)
    requires
        n == s@.len(),
    ensures
        r == occurs_at(lower_seq(s@), marker_tail(), i as int),
{
    let ghost ls = lower_seq(s@);
    proof {
        assert(ls.len() == n);
    }
    if 9 > n || i > n - 9 {
        return false;
    }
    let r = ascii_lower_char(s.get_char(i)) == 'p' && ascii_lower_char(s.get_char(i + 1)) == 'o'
        && ascii_lower_char(s.get_char(i + 2)) == 's' && ascii_lower_char(s.get_char(i + 3)) == 'i'
        && ascii_lower_char(s.get_char(i + 4)) == 't' && ascii_lower_char(s.get_char(i + 5)) == 'i'
        && ascii_lower_char(s.get_char(i + 6)) == 'v' && ascii_lower_char(s.get_char(i + 7)) == 'e'
        && ascii_lower_char(s.get_char(i + 8)) == '*';
    proof {
        assert forall|d: int| 0 <= d < 9 implies #[trigger] ls[i + d] == ascii_lower(s@[i + d]) by {}
        if r {
            assert(ls.subrange(i as int, i + 9) =~= marker_tail());
        } else {
            if occurs_at(ls, marker_tail(), i as int) {
                assert forall|d: int| 0 <= d < 9 implies ls[i + d] == marker_tail()[d] by {
                    assert(ls.subrange(i as int, i + 9)[d] == ls[i + d]);
                }
                assert(false);
            }
        }
    }
    r
}

/// A whitespace character is not an ASCII capital, so lowercasing keeps
/// it.
proof fn lemma_ws_lower_id(c: char)
    requires
        is_ws(c),
    ensures
        ascii_lower(c) == c,
{
}

/// Executable, case-insensitive, whitespace-tolerant test for the
/// false-positive marker.
pub fn contains_marker(s: &str) -> (r: bool)
    ensures
        r == marker_present(s@),
{
    let n = s.unicode_len();
    let ghost ls = lower_seq(s@);
    proof {
        assert(ls.len() == n);
    }
    if n < 6 {
        proof {
            assert forall|i: int, j: int| !marker_pair_at(s@, i, j) by {}
        }
        return false;
    }
    let mut i: usize = 0;
    while i <= n - 6
        invariant
            n == s@.len(),
            ls == lower_seq(s@),
            6 <= n,
            i <= n - 6 + 1,
            forall|i2: int, j: int| 0 <= i2 < i ==> !marker_pair_at(s@, i2, j),
        decreases n - 6 - i + 1,
    {
        if matches_head_at(s, n, i) {
            let mut k: usize = i + 6;
            while k < n && is_ws_char(s.get_char(k))
                invariant
                    n == s@.len(),
                    i + 6 <= k <= n,
                    forall|k2: int| i + 6 <= k2 < k ==> is_ws(s@[k2]),
                decreases n - k,
            {
                k += 1;
            }
            if k > i + 6 && matches_tail_at(s, n, k) {
                proof {
                    assert(marker_pair_at(s@, i as int, k as int));
                    assert(marker_present(s@));
                }
                return true;
            }
            proof {
                assert forall|j: int| !marker_pair_at(s@, i as int, j) by {
                    if marker_pair_at(s@, i as int, j) {
                        if j < k {
                            assert(is_ws(s@[j]));
                            lemma_ws_lower_id(s@[j]);
                            assert(ls.subrange(j, j + 9)[0] == ls[j]);
                            assert(ls[j] == ascii_lower(s@[j]));
                            assert(s@[j] == 'p');
                        } else if j == k {
                        } else {
                            if k < n {
                                assert(is_ws(s@[k as int]));
                            }
                        }
                    }
                }
            }
        } else {
            proof {
                assert forall|j: int| !marker_pair_at(s@, i as int, j) by {}
            }
        }
        i += 1;
    }
    proof {
        assert forall|i2: int, j: int| !marker_pair_at(s@, i2, j) by {
            if 0 <= i2 < i {
            } else {
                assert(i2 < 0 || i2 + marker_head().len() > ls.len() || i2 >= i);
            }
        }
    }
    false
}

} // verus!