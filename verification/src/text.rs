//! Verified character-sequence utilities: substring search, replacement,
//! whitespace trimming, line splitting, decimal formatting and joining.
//! These are the primitives the sanitizer, the context extractor and the
//! prompt synthesizer are specified and proved with.

use vstd::prelude::*;
use vstd::string::*;

verus! {

/// `pat` occurs in `s` starting at index `i`.
pub open spec fn occurs_at(s: Seq<char>, pat: Seq<char>, i: int) -> bool {
    0 <= i && i + pat.len() <= s.len() && s.subrange(i, i + pat.len() as int) == pat
}

/// `pat` occurs somewhere in `s`.
pub open spec fn contains_seq(s: Seq<char>, pat: Seq<char>) -> bool {
    exists|i: int| occurs_at(s, pat, i)
}

/// Occurrences in a suffix correspond to shifted occurrences in the string.
pub proof fn lemma_occurs_skip(s: Seq<char>, pat: Seq<char>, d: int, k: int)
    requires
        0 <= d <= s.len(),
        0 <= k,
    ensures
        occurs_at(s.skip(d), pat, k) <==> occurs_at(s, pat, k + d),
{
    if k + pat.len() <= s.skip(d).len() {
        assert(s.skip(d).subrange(k, k + pat.len() as int) =~= s.subrange(
            k + d,
            k + d + pat.len() as int,
        ));
    }
}

/// Executable test that `pat` occurs in `s` at character index `i`.
pub fn matches_at(s: &str, pat: &str, i: usize) -> (r: bool)
    ensures
        r == occurs_at(s@, pat@, i as int),
{
    let n = s.unicode_len();
    let m = pat.unicode_len();
    if m > n || i > n - m {
        return false;
    }
    let mut j: usize = 0;
    while j < m
        invariant
            n == s@.len(),
            m == pat@.len(),
            m <= n,
            i <= n - m,
            j <= m,
            forall|jj: int| 0 <= jj < j ==> s@[i + jj] == pat@[jj],
        decreases m - j,
    {
        if s.get_char(i + j) != pat.get_char(j) {
            proof {
                if occurs_at(s@, pat@, i as int) {
                    assert(s@.subrange(i as int, i + m as int)[j as int] == s@[i + j]);
                }
            }
            return false;
        }
        j += 1;
    }
    proof {
        assert(s@.subrange(i as int, i + m as int) =~= pat@);
    }
    true
}

/// Executable search for the first occurrence of `pat` in `s` at or after
/// character index `from`.
pub fn find_from(s: &str, pat: &str, from: usize) -> (r: Option<usize>)
    requires
        pat@.len() >= 1,
    ensures
        match r {
            Some(j) => {
                &&& from <= j
                &&& occurs_at(s@, pat@, j as int)
                &&& forall|k: int| from <= k < j ==> !occurs_at(s@, pat@, k)
            },
            None => forall|k: int| from <= k ==> !occurs_at(s@, pat@, k),
        },
{
    let n = s.unicode_len();
    let m = pat.unicode_len();
    if m > n || from > n - m {
        return None;
    }
    let mut j: usize = from;
    while j <= n - m
        invariant
            n == s@.len(),
            m == pat@.len(),
            1 <= m <= n,
            from <= j,
            j <= n - m + 1,
            forall|k: int| from <= k < j ==> !occurs_at(s@, pat@, k),
        decreases n - m - j + 1,
    {
        if matches_at(s, pat, j) {
            return Some(j);
        }
        j += 1;
    }
    None
}

/// Left-to-right, non-overlapping replacement of `pat` by `rep`, the
/// semantics of the standard library's `str::replace`.
pub open spec fn replace_spec(s: Seq<char>, pat: Seq<char>, rep: Seq<char>) -> Seq<char>
    recommends
        pat.len() >= 1,
    decreases s.len(),
{
    if s.len() == 0 {
        s
    } else if pat.len() >= 1 && occurs_at(s, pat, 0) {
        rep + replace_spec(s.skip(pat.len() as int), pat, rep)
    } else {
        seq![s[0]] + replace_spec(s.skip(1), pat, rep)
    }
}

/// A string without an occurrence of the pattern is left unchanged by
/// replacement.
pub proof fn lemma_replace_id(s: Seq<char>, pat: Seq<char>, rep: Seq<char>)
    requires
        pat.len() >= 1,
        !contains_seq(s, pat),
    ensures
        replace_spec(s, pat, rep) == s,
    decreases s.len(),
{
    if s.len() > 0 {
        assert(!occurs_at(s, pat, 0));
        assert forall|k: int| !occurs_at(s.skip(1), pat, k) by {
            if k >= 0 {
                lemma_occurs_skip(s, pat, 1, k);
            }
        }
        lemma_replace_id(s.skip(1), pat, rep);
        assert(seq![s[0]] + s.skip(1) =~= s);
    }
}

/// Executable replacement of every occurrence of `pat` by `rep`.
pub fn replace_all(s: &str, pat: &str, rep: &str) -> (r: String)
    requires
        pat@.len() >= 1,
    ensures
        r@ == replace_spec(s@, pat@, rep@),
{
    let n = s.unicode_len();
    let m = pat.unicode_len();
    let mut out = String::new();
    let mut i: usize = 0;
    proof {
        assert(s@.skip(0) =~= s@);
        assert(Seq::<char>::empty() + replace_spec(s@, pat@, rep@) =~= replace_spec(
            s@,
            pat@,
            rep@,
        ));
    }
    while i < n
        invariant
            n == s@.len(),
            m == pat@.len(),
            1 <= m,
            i <= n,
            replace_spec(s@, pat@, rep@) == out@ + replace_spec(s@.skip(i as int), pat@, rep@),
        decreases n - i,
    {
        if matches_at(s, pat, i) {
            out.append(rep);
            proof {
                lemma_occurs_skip(s@, pat@, i as int, 0);
                assert(s@.skip(i as int).skip(m as int) =~= s@.skip(i + m as int));
            }
            i += m;
        } else {
            out.append(s.substring_char(i, i + 1));
            proof {
                lemma_occurs_skip(s@, pat@, i as int, 0);
                assert(s@.skip(i as int)[0] == s@[i as int]);
                assert(s@.subrange(i as int, i + 1) =~= seq![s@[i as int]]);
                assert(s@.skip(i as int).skip(1) =~= s@.skip(i + 1));
            }
            i += 1;
        }
    }
    proof {
        assert(s@.skip(n as int) =~= Seq::<char>::empty());
        assert(out@ + Seq::<char>::empty() =~= out@);
    }
    out
}

/// Index of the first occurrence of `pat` in `s`, or -1 when absent.
pub open spec fn find_seq_spec(s: Seq<char>, pat: Seq<char>) -> int
    decreases s.len(),
{
    if occurs_at(s, pat, 0) {
        0
    } else if s.len() == 0 {
        -1
    } else {
        let r = find_seq_spec(s.skip(1), pat);
        if r < 0 {
            -1
        } else {
            r + 1
        }
    }
}

/// `find_seq_spec` returns the least occurrence index.
pub proof fn lemma_find_seq_at(s: Seq<char>, pat: Seq<char>, t: int)
    requires
        occurs_at(s, pat, t),
        forall|k: int| 0 <= k < t ==> !occurs_at(s, pat, k),
    ensures
        find_seq_spec(s, pat) == t,
    decreases s.len(),
{
    if t > 0 {
        assert(!occurs_at(s, pat, 0));
        assert(s.len() > 0);
        lemma_occurs_skip(s, pat, 1, t - 1);
        assert forall|k: int| 0 <= k < t - 1 implies !occurs_at(s.skip(1), pat, k) by {
            lemma_occurs_skip(s, pat, 1, k);
        }
        lemma_find_seq_at(s.skip(1), pat, t - 1);
    }
}

/// `find_seq_spec` finds an occurrence whenever one exists.
pub proof fn lemma_find_seq_found(s: Seq<char>, pat: Seq<char>)
    requires
        contains_seq(s, pat),
    ensures
        find_seq_spec(s, pat) >= 0,
        occurs_at(s, pat, find_seq_spec(s, pat)),
    decreases s.len(),
{
    if !occurs_at(s, pat, 0) {
        let i = choose|i: int| occurs_at(s, pat, i);
        assert(i >= 1);
        lemma_occurs_skip(s, pat, 1, i - 1);
        lemma_find_seq_found(s.skip(1), pat);
        lemma_occurs_skip(s, pat, 1, find_seq_spec(s.skip(1), pat));
    }
}

/// Replacement by a piece no longer than the pattern never lengthens.
pub proof fn lemma_replace_len_le(s: Seq<char>, pat: Seq<char>, rep: Seq<char>)
    requires
        pat.len() >= 1,
        rep.len() <= pat.len(),
    ensures
        replace_spec(s, pat, rep).len() <= s.len(),
    decreases s.len(),
{
    if s.len() > 0 {
        if occurs_at(s, pat, 0) {
            lemma_replace_len_le(s.skip(pat.len() as int), pat, rep);
        } else {
            lemma_replace_len_le(s.skip(1), pat, rep);
        }
    }
}

/// Replacement by a strictly shorter piece strictly shortens a string
/// that holds the pattern.
pub proof fn lemma_replace_shrinks(s: Seq<char>, pat: Seq<char>, rep: Seq<char>)
    requires
        pat.len() >= 1,
        rep.len() < pat.len(),
        contains_seq(s, pat),
    ensures
        replace_spec(s, pat, rep).len() < s.len(),
    decreases s.len(),
{
    if occurs_at(s, pat, 0) {
        lemma_replace_len_le(s.skip(pat.len() as int), pat, rep);
    } else {
        let i = choose|i: int| occurs_at(s, pat, i);
        assert(i >= 1);
        lemma_occurs_skip(s, pat, 1, i - 1);
        lemma_replace_shrinks(s.skip(1), pat, rep);
    }
}

/// Character-level whitespace test covering the Unicode `White_Space`
/// property, the set the standard library's `trim` removes.
pub open spec fn is_ws(c: char) -> bool {
    c == ' ' || c == '\t' || c == '\n' || c == '\r' || c == '\u{000B}' || c == '\u{000C}'
        || c == '\u{0085}' || c == '\u{00A0}' || c == '\u{1680}' || c == '\u{2000}'
        || c == '\u{2001}' || c == '\u{2002}' || c == '\u{2003}' || c == '\u{2004}'
        || c == '\u{2005}' || c == '\u{2006}' || c == '\u{2007}' || c == '\u{2008}'
        || c == '\u{2009}' || c == '\u{200A}' || c == '\u{2028}' || c == '\u{2029}'
        || c == '\u{202F}' || c == '\u{205F}' || c == '\u{3000}'
}

/// Executable counterpart of [`is_ws`].
pub fn is_ws_char(c: char) -> (r: bool)
    ensures
        r == is_ws(c),
{
    c == ' ' || c == '\t' || c == '\n' || c == '\r' || c == '\u{000B}' || c == '\u{000C}'
        || c == '\u{0085}' || c == '\u{00A0}' || c == '\u{1680}' || c == '\u{2000}'
        || c == '\u{2001}' || c == '\u{2002}' || c == '\u{2003}' || c == '\u{2004}'
        || c == '\u{2005}' || c == '\u{2006}' || c == '\u{2007}' || c == '\u{2008}'
        || c == '\u{2009}' || c == '\u{200A}' || c == '\u{2028}' || c == '\u{2029}'
        || c == '\u{202F}' || c == '\u{205F}' || c == '\u{3000}'
}

/// Leading-whitespace removal.
pub open spec fn trim_start_spec(s: Seq<char>) -> Seq<char>
    decreases s.len(),
{
    if s.len() > 0 && is_ws(s[0]) {
        trim_start_spec(s.skip(1))
    } else {
        s
    }
}

/// Trailing-whitespace removal.
pub open spec fn trim_end_spec(s: Seq<char>) -> Seq<char>
    decreases s.len(),
{
    if s.len() > 0 && is_ws(s[s.len() - 1]) {
        trim_end_spec(s.take(s.len() - 1))
    } else {
        s
    }
}

/// Whitespace removal at both ends, the semantics of `str::trim`.
pub open spec fn trim_spec(s: Seq<char>) -> Seq<char> {
    trim_end_spec(trim_start_spec(s))
}

/// The result of `trim_start_spec` is empty or starts with non-whitespace.
pub proof fn lemma_trim_start_first(s: Seq<char>)
    ensures
        trim_start_spec(s).len() == 0 || !is_ws(trim_start_spec(s)[0]),
    decreases s.len(),
{
    if s.len() > 0 && is_ws(s[0]) {
        lemma_trim_start_first(s.skip(1));
    }
}

/// The result of `trim_end_spec` is empty or ends with non-whitespace.
pub proof fn lemma_trim_end_last(s: Seq<char>)
    ensures
        trim_end_spec(s).len() == 0 || !is_ws(trim_end_spec(s)[trim_end_spec(s).len() - 1]),
    decreases s.len(),
{
    if s.len() > 0 && is_ws(s[s.len() - 1]) {
        lemma_trim_end_last(s.take(s.len() - 1));
    }
}

/// The result of `trim_end_spec` is a prefix of its argument.
pub proof fn lemma_trim_end_prefix(s: Seq<char>)
    ensures
        trim_end_spec(s).len() <= s.len(),
        trim_end_spec(s) == s.take(trim_end_spec(s).len() as int),
    decreases s.len(),
{
    if s.len() > 0 && is_ws(s[s.len() - 1]) {
        lemma_trim_end_prefix(s.take(s.len() - 1));
        assert(s.take(s.len() - 1).take(trim_end_spec(s).len() as int) =~= s.take(
            trim_end_spec(s).len() as int,
        ));
    } else {
        assert(s.take(s.len() as int) =~= s);
    }
}

/// Removing leading whitespace never lengthens.
proof fn lemma_trim_start_len(s: Seq<char>)
    ensures
        trim_start_spec(s).len() <= s.len(),
    decreases s.len(),
{
    if s.len() > 0 && is_ws(s[0]) {
        lemma_trim_start_len(s.skip(1));
    }
}

/// Trimming never lengthens.
pub proof fn lemma_trim_len_le(s: Seq<char>)
    ensures
        trim_spec(s).len() <= s.len(),
{
    lemma_trim_start_len(s);
    lemma_trim_end_prefix(trim_start_spec(s));
}

/// Trimming is idempotent.
pub proof fn lemma_trim_idempotent(s: Seq<char>)
    ensures
        trim_spec(trim_spec(s)) == trim_spec(s),
{
    let u = trim_start_spec(s);
    let t = trim_end_spec(u);
    lemma_trim_start_first(s);
    lemma_trim_end_prefix(u);
    lemma_trim_end_last(u);
    if t.len() > 0 {
        assert(t[0] == u[0]);
    }
    assert(trim_start_spec(t) == t);
    assert(trim_end_spec(t) == t);
}

/// Executable trim mirroring `str::trim`.
pub fn trim_str(s: &str) -> (r: String)
    ensures
        r@ == trim_spec(s@),
{
    let n = s.unicode_len();
    let mut a: usize = 0;
    proof {
        assert(s@.skip(0) =~= s@);
    }
    while a < n && is_ws_char(s.get_char(a))
        invariant
            n == s@.len(),
            a <= n,
            trim_start_spec(s@) == trim_start_spec(s@.skip(a as int)),
        decreases n - a,
    {
        proof {
            assert(s@.skip(a as int)[0] == s@[a as int]);
            assert(s@.skip(a as int).skip(1) =~= s@.skip(a + 1));
        }
        a += 1;
    }
    proof {
        if a < n {
            assert(s@.skip(a as int)[0] == s@[a as int]);
        }
        assert(trim_start_spec(s@) == s@.skip(a as int));
    }
    let ghost t = s@.skip(a as int);
    let mut b: usize = n;
    proof {
        assert(t.take(n - a) =~= t);
    }
    while b > a && is_ws_char(s.get_char(b - 1))
        invariant
            n == s@.len(),
            a <= b <= n,
            t == s@.skip(a as int),
            trim_end_spec(t) == trim_end_spec(t.take(b - a)),
        decreases b,
    {
        proof {
            assert(t.take(b - a)[b - a - 1] == s@[b - 1]);
            assert(t.take(b - a).take(b - a - 1) =~= t.take(b - 1 - a));
        }
        b -= 1;
    }
    proof {
        if b > a {
            assert(t.take(b - a)[b - a - 1] == s@[b - 1]);
        }
        assert(trim_end_spec(t.take(b - a)) == t.take(b - a));
        assert(t.take(b - a) =~= s@.subrange(a as int, b as int));
    }
    String::from_str(s.substring_char(a, b))
}

/// The character for one decimal digit.
pub open spec fn digit_char(d: int) -> char
    recommends
        0 <= d < 10,
{
    if d == 0 {
        '0'
    } else if d == 1 {
        '1'
    } else if d == 2 {
        '2'
    } else if d == 3 {
        '3'
    } else if d == 4 {
        '4'
    } else if d == 5 {
        '5'
    } else if d == 6 {
        '6'
    } else if d == 7 {
        '7'
    } else if d == 8 {
        '8'
    } else {
        '9'
    }
}

/// Decimal rendering of a natural number, most significant digit first.
pub open spec fn dec_nat(n: nat) -> Seq<char>
    decreases n,
{
    if n < 10 {
        seq![digit_char(n as int)]
    } else {
        dec_nat(n / 10) + seq![digit_char((n % 10) as int)]
    }
}

/// Decimal rendering of a signed number, with a leading minus sign when
/// negative.
pub open spec fn dec_int(n: int) -> Seq<char> {
    if n < 0 {
        seq!['-'] + dec_nat((-n) as nat)
    } else {
        dec_nat(n as nat)
    }
}

/// Appends one decimal digit to `out`.
fn append_digit(out: &mut String, d: u64)
    requires
        d < 10,
    ensures
        final(out)@ == old(out)@ + seq![digit_char(d as int)],
{
    if d == 0 {
        out.append("0");
        proof {
            reveal_strlit("0");
            assert("0"@ =~= seq!['0']);
        }
    } else if d == 1 {
        out.append("1");
        proof {
            reveal_strlit("1");
            assert("1"@ =~= seq!['1']);
        }
    } else if d == 2 {
        out.append("2");
        proof {
            reveal_strlit("2");
            assert("2"@ =~= seq!['2']);
        }
    } else if d == 3 {
        out.append("3");
        proof {
            reveal_strlit("3");
            assert("3"@ =~= seq!['3']);
        }
    } else if d == 4 {
        out.append("4");
        proof {
            reveal_strlit("4");
            assert("4"@ =~= seq!['4']);
        }
    } else if d == 5 {
        out.append("5");
        proof {
            reveal_strlit("5");
            assert("5"@ =~= seq!['5']);
        }
    } else if d == 6 {
        out.append("6");
        proof {
            reveal_strlit("6");
            assert("6"@ =~= seq!['6']);
        }
    } else if d == 7 {
        out.append("7");
        proof {
            reveal_strlit("7");
            assert("7"@ =~= seq!['7']);
        }
    } else if d == 8 {
        out.append("8");
        proof {
            reveal_strlit("8");
            assert("8"@ =~= seq!['8']);
        }
    } else {
        out.append("9");
        proof {
            reveal_strlit("9");
            assert("9"@ =~= seq!['9']);
        }
    }
}

/// Appends the decimal rendering of `n` to `out`.
pub fn append_u64_dec(out: &mut String, n: u64)
    ensures
        final(out)@ == old(out)@ + dec_nat(n as nat),
    decreases n,
{
    if n < 10 {
        append_digit(out, n);
    } else {
        append_u64_dec(out, n / 10);
        append_digit(out, n % 10);
        proof {
            assert(old(out)@ + dec_nat((n / 10) as nat) + seq![
                digit_char((n % 10) as int),
            ] =~= old(out)@ + dec_nat(n as nat));
        }
    }
}

/// Appends the signed decimal rendering of `n` to `out`.
pub fn append_i32_dec(out: &mut String, n: i32)
    ensures
        final(out)@ == old(out)@ + dec_int(n as int),
{
    if n < 0 {
        out.append("-");
        proof {
            reveal_strlit("-");
            assert("-"@ =~= seq!['-']);
        }
        let m: u64 = (-(n as i64)) as u64;
        append_u64_dec(out, m);
        proof {
            assert(old(out)@ + seq!['-'] + dec_nat(m as nat) =~= old(out)@ + dec_int(n as int));
        }
    } else {
        append_u64_dec(out, n as u64);
    }
}

/// Decimal rendering of a signed number as a `String`.
pub fn i32_to_string(n: i32) -> (r: String)
    ensures
        r@ == dec_int(n as int),
{
    let mut out = String::new();
    append_i32_dec(&mut out, n);
    proof {
        assert(Seq::<char>::empty() + dec_int(n as int) =~= dec_int(n as int));
    }
    out
}

/// Decimal rendering of an unsigned number as a `String`.
pub fn u64_to_string(n: u64) -> (r: String)
    ensures
        r@ == dec_nat(n as nat),
{
    let mut out = String::new();
    append_u64_dec(&mut out, n);
    proof {
        assert(Seq::<char>::empty() + dec_nat(n as nat) =~= dec_nat(n as nat));
    }
    out
}

/// The pieces joined with a separator between consecutive pieces.
pub open spec fn join_sep(parts: Seq<Seq<char>>, sep: Seq<char>) -> Seq<char>
    decreases parts.len(),
{
    if parts.len() == 0 {
        Seq::empty()
    } else if parts.len() == 1 {
        parts[0]
    } else {
        parts[0] + sep + join_sep(parts.drop_first(), sep)
    }
}

/// Appending one piece extends the join at the back.
pub proof fn lemma_join_sep_push(parts: Seq<Seq<char>>, sep: Seq<char>, x: Seq<char>)
    ensures
        join_sep(parts.push(x), sep) == if parts.len() == 0 {
            x
        } else {
            join_sep(parts, sep) + sep + x
        },
    decreases parts.len(),
{
    if parts.len() == 0 {
        assert(parts.push(x)[0] == x);
    } else {
        lemma_join_sep_push(parts.drop_first(), sep, x);
        assert(parts.push(x).drop_first() =~= parts.drop_first().push(x));
        assert(join_sep(parts.push(x), sep) =~= join_sep(parts, sep) + sep + x);
    }
}

/// Joins the pieces with a single-space separator, as `slice::join(" ")`
/// does.
pub fn join_space(parts: &Vec<String>) -> (r: String)
    ensures
        r@ == join_sep(parts.deep_view(), " "@),
{
    let mut out = String::new();
    let mut i: usize = 0;
    while i < parts.len()
        invariant
            i <= parts.len(),
            out@ == join_sep(parts.deep_view().take(i as int), " "@),
        decreases parts.len() - i,
    {
        if i > 0 {
            out.append(" ");
        }
        out.append(parts[i].as_str());
        proof {
            let dv = parts.deep_view();
            assert(dv.take(i + 1).drop_last() =~= dv.take(i as int));
            assert(dv.take(i + 1).last() == dv[i as int]);
            assert(dv.take(i + 1) =~= dv.take(i as int).push(dv[i as int]));
            lemma_join_sep_push(dv.take(i as int), " "@, dv[i as int]);
        }
        i += 1;
    }
    proof {
        assert(parts.deep_view().take(parts.deep_view().len() as int) =~= parts.deep_view());
    }
    out
}

/// Index of the first occurrence of `c` in `s`, or -1 when absent.
pub open spec fn find_char_spec(s: Seq<char>, c: char) -> int
    decreases s.len(),
{
    if s.len() == 0 {
        -1
    } else if s[0] == c {
        0
    } else {
        let r = find_char_spec(s.skip(1), c);
        if r < 0 {
            -1
        } else {
            r + 1
        }
    }
}

/// `find_char_spec` returns the least index holding `c`.
pub proof fn lemma_find_char_at(s: Seq<char>, c: char, k: int)
    requires
        0 <= k < s.len(),
        s[k] == c,
        forall|kk: int| 0 <= kk < k ==> s[kk] != c,
    ensures
        find_char_spec(s, c) == k,
    decreases s.len(),
{
    if k > 0 {
        lemma_find_char_at(s.skip(1), c, k - 1);
    }
}

/// `find_char_spec` returns -1 exactly when `c` is absent.
pub proof fn lemma_find_char_none(s: Seq<char>, c: char)
    requires
        forall|kk: int| 0 <= kk < s.len() ==> s[kk] != c,
    ensures
        find_char_spec(s, c) == -1,
    decreases s.len(),
{
    if s.len() > 0 {
        lemma_find_char_none(s.skip(1), c);
    }
}

/// A line body with one trailing carriage return removed.
pub open spec fn chomp_cr(t: Seq<char>) -> Seq<char> {
    if t.len() > 0 && t[t.len() - 1] == '\r' {
        t.take(t.len() - 1)
    } else {
        t
    }
}

/// The lines of `s`, the semantics of `str::lines`: split at `'\n'`, strip
/// one `'\r'` before each split point, and no empty final line after a
/// trailing newline.
pub open spec fn lines_spec(s: Seq<char>) -> Seq<Seq<char>>
    decreases s.len(),
{
    if s.len() == 0 {
        Seq::empty()
    } else {
        let i = find_char_spec(s, '\n');
        if 0 <= i < s.len() {
            seq![chomp_cr(s.take(i))] + lines_spec(s.skip(i + 1))
        } else {
            seq![s]
        }
    }
}

/// A non-empty text has at least one line.
pub proof fn lemma_lines_nonempty(s: Seq<char>)
    requires
        s.len() > 0,
    ensures
        lines_spec(s).len() >= 1,
{
}

/// Executable line splitting mirroring `str::lines`.
pub fn split_lines(s: &str) -> (r: Vec<String>)
    ensures
        r.deep_view() == lines_spec(s@),
{
    let n = s.unicode_len();
    let mut res: Vec<String> = Vec::new();
    let mut pos: usize = 0;
    proof {
        reveal_strlit("\n");
        assert(s@.skip(0) =~= s@);
    }
    while pos < n
        invariant
            n == s@.len(),
            pos <= n,
            "\n"@ =~= seq!['\n'],
            lines_spec(s@) == res.deep_view() + lines_spec(s@.skip(pos as int)),
        decreases n - pos,
    {
        let ghost t = s@.skip(pos as int);
        let (end, next) = match find_from(s, "\n", pos) {
            Some(j) => {
                proof {
                    assert forall|k: int| 0 <= k < j - pos implies t[k] != '\n' by {
                        assert(t.subrange(k, k + 1) =~= seq![t[k]]);
                        lemma_occurs_skip(s@, "\n"@, pos as int, k);
                    }
                    assert(s@.subrange(j as int, j + 1)[0] == s@[j as int]);
                    assert(t[j - pos] == '\n');
                    lemma_find_char_at(t, '\n', j - pos as int);
                }
                (j, j + 1)
            },
            None => {
                proof {
                    assert forall|k: int| 0 <= k < t.len() implies t[k] != '\n' by {
                        assert(t.subrange(k, k + 1) =~= seq![t[k]]);
                        lemma_occurs_skip(s@, "\n"@, pos as int, k);
                    }
                    lemma_find_char_none(t, '\n');
                }
                (n, n)
            },
        };
        let body_end = if end < n && end > pos && s.get_char(end - 1) == '\r' {
            end - 1
        } else {
            end
        };
        let ghost old_dv = res.deep_view();
        let line = String::from_str(s.substring_char(pos, body_end));
        res.push(line);
        proof {
            let i = find_char_spec(t, '\n');
            let rest = lines_spec(s@.skip(next as int));
            if end < n {
                assert(i == end - pos);
                assert(t.take(i) =~= s@.subrange(pos as int, end as int));
                assert(t.skip(i + 1) =~= s@.skip(next as int));
                if end > pos && s@[end - 1] == '\r' {
                    assert(t.take(i)[i - 1] == s@[end - 1]);
                    assert(chomp_cr(t.take(i)) =~= s@.subrange(pos as int, end - 1));
                } else {
                    if i > 0 {
                        assert(t.take(i)[i - 1] == s@[end - 1]);
                    }
                    assert(chomp_cr(t.take(i)) =~= s@.subrange(pos as int, end as int));
                }
                assert(lines_spec(t) == seq![line@] + rest);
            } else {
                assert(i == -1);
                assert(t =~= s@.subrange(pos as int, body_end as int));
                assert(lines_spec(t) == seq![line@]);
                assert(s@.skip(next as int) =~= Seq::<char>::empty());
                assert(lines_spec(t) =~= seq![line@] + rest);
            }
            assert(res.deep_view() =~= old_dv + seq![line@]);
            assert(old_dv + (seq![line@] + rest) =~= (old_dv + seq![line@]) + rest);
        }
        pos = next;
    }
    proof {
        assert(s@.skip(n as int) =~= Seq::<char>::empty());
        assert(res.deep_view() + Seq::<Seq<char>>::empty() =~= res.deep_view());
    }
    res
}

} // verus!
