//! Text operations over character sequences, each stated against a
//! spec function that says what the operation computes.

use vstd::prelude::*;
use vstd::utf8::{decode_utf8, valid_utf8};

verus! {

/// Appends one character to a `String` (`String::push`).
#[verifier::external_body]
pub(crate) fn push_char(s: &mut String, c: char)
    ensures
        final(s)@ == old(s)@.push(c),
{
    s.push(c);
}

/// The characters of a string slice, in order.
pub fn chars_of(s: &str) -> (r: Vec<char>)
    ensures
        r@ == s@,
{
    let mut out: Vec<char> = Vec::new();
    for c in it: s.chars()
        invariant
            out@ == it.seq().take(it.index() as int),
            it.seq() == s@,
    {
        out.push(c);
    }
    out
}

/// A `String` holding the given characters.
pub fn string_of(cs: &[char]) -> (r: String)
    ensures
        r@ == cs@,
{
    let mut out = String::new();
    let mut i: usize = 0;
    while i < cs.len()
        invariant
            i <= cs.len(),
            out@ == cs@.take(i as int),
        decreases cs.len() - i,
    {
        push_char(&mut out, cs[i]);
        assert(cs@.take(i as int).push(cs@[i as int]) =~= cs@.take(i + 1));
        i = i + 1;
    }
    assert(cs@.take(cs.len() as int) =~= cs@);
    out
}

/// The Unicode `White_Space` property, the set that `char::is_whitespace`
/// and `str::trim` use.
pub open spec fn is_white_space(c: char) -> bool {
    let u = c as u32;
    ||| 0x09 <= u <= 0x0d
    ||| u == 0x20
    ||| u == 0x85
    ||| u == 0xa0
    ||| u == 0x1680
    ||| 0x2000 <= u <= 0x200a
    ||| u == 0x2028
    ||| u == 0x2029
    ||| u == 0x202f
    ||| u == 0x205f
    ||| u == 0x3000
}

/// Whether `c` is white space in the Unicode sense.
pub fn is_whitespace(c: char) -> (r: bool)
    ensures
        r == is_white_space(c),
{
    let u = c as u32;
    (0x09 <= u && u <= 0x0d) || u == 0x20 || u == 0x85 || u == 0xa0 || u == 0x1680 || (0x2000
        <= u && u <= 0x200a) || u == 0x2028 || u == 0x2029 || u == 0x202f || u == 0x205f || u
        == 0x3000
}

/// `s` without its leading white space.
pub open spec fn trim_start(s: Seq<char>) -> Seq<char>
    decreases s.len(),
{
    if s.len() > 0 && is_white_space(s[0]) {
        trim_start(s.drop_first())
    } else {
        s
    }
}

/// `s` without its trailing white space.
pub open spec fn trim_end(s: Seq<char>) -> Seq<char>
    decreases s.len(),
{
    if s.len() > 0 && is_white_space(s.last()) {
        trim_end(s.drop_last())
    } else {
        s
    }
}

/// `s` without leading and trailing white space, as `str::trim` gives it.
pub open spec fn trim(s: Seq<char>) -> Seq<char> {
    trim_end(trim_start(s))
}

proof fn lemma_trim_start_skip(s: Seq<char>, i: int)
    requires
        0 <= i <= s.len(),
        forall|j: int| 0 <= j < i ==> is_white_space(#[trigger] s[j]),
    ensures
        trim_start(s) == trim_start(s.skip(i)),
    decreases i,
{
    if i > 0 {
        assert(s.drop_first().skip(i - 1) =~= s.skip(i));
        lemma_trim_start_skip(s.drop_first(), i - 1);
    } else {
        assert(s.skip(0) =~= s);
    }
}

proof fn lemma_trim_end_take(s: Seq<char>, k: int)
    requires
        0 <= k <= s.len(),
        forall|j: int| k <= j < s.len() ==> is_white_space(#[trigger] s[j]),
    ensures
        trim_end(s) == trim_end(s.take(k)),
    decreases s.len() - k,
{
    if k < s.len() {
        assert(s.drop_last().take(k) =~= s.take(k));
        lemma_trim_end_take(s.drop_last(), k);
    } else {
        assert(s.take(k) =~= s);
    }
}

/// The characters of `s` without leading and trailing white space.
pub fn trim_chars(s: &[char]) -> (r: Vec<char>)
    ensures
        r@ == trim(s@),
{
    let n = s.len();
    let mut a: usize = 0;
    while a < n && is_whitespace(s[a])
        invariant
            a <= n,
            n == s@.len(),
            forall|j: int| 0 <= j < a ==> is_white_space(#[trigger] s@[j]),
        decreases n - a,
    {
        a = a + 1;
    }
    proof {
        lemma_trim_start_skip(s@, a as int);
    }
    let ghost t = s@.skip(a as int);
    assert(a == n || !is_white_space(t[0]));
    assert(trim_start(s@) == t);
    let mut b: usize = n;
    while b > a && is_whitespace(s[b - 1])
        invariant
            a <= b <= n,
            n == s@.len(),
            t == s@.skip(a as int),
            forall|j: int| b <= j < n ==> is_white_space(#[trigger] s@[j]),
        decreases b - a,
    {
        b = b - 1;
    }
    proof {
        assert forall|j: int| b - a <= j < t.len() implies is_white_space(#[trigger] t[j]) by {
            assert(t[j] == s@[j + a]);
        }
        lemma_trim_end_take(t, b - a);
        let u = t.take(b - a);
        assert(b == a || u.last() == s@[b - 1]);
    }
    let mut out: Vec<char> = Vec::new();
    let mut i: usize = a;
    while i < b
        invariant
            a <= i <= b <= n,
            n == s@.len(),
            out@ =~= s@.subrange(a as int, i as int),
        decreases b - i,
    {
        out.push(s[i]);
        i = i + 1;
    }
    assert(out@ =~= t.take(b - a));
    out
}

/// Whether `p` occurs in `s` starting at index `i`.
pub open spec fn matches_at(s: Seq<char>, p: Seq<char>, i: int) -> bool {
    0 <= i && i + p.len() <= s.len() && s.subrange(i, i + p.len()) == p
}

/// Whether `s` begins with `p` (`str::starts_with`).
pub open spec fn starts_with(s: Seq<char>, p: Seq<char>) -> bool {
    matches_at(s, p, 0)
}

/// Whether `s` ends with `p` (`str::ends_with`).
pub open spec fn ends_with(s: Seq<char>, p: Seq<char>) -> bool {
    matches_at(s, p, s.len() - p.len())
}

/// Whether `p` occurs anywhere in `s` (`str::contains`).
pub open spec fn contains(s: Seq<char>, p: Seq<char>) -> bool {
    exists|i: int| matches_at(s, p, i)
}

/// Whether `p` occurs in `s` at index `i`.
pub fn match_at(s: &[char], p: &[char], i: usize) -> (r: bool)
    ensures
        r == matches_at(s@, p@, i as int),
{
    if i > s.len() || p.len() > s.len() - i {
        return false;
    }
    let mut j: usize = 0;
    while j < p.len()
        invariant
            i + p.len() <= s.len(),
            j <= p.len(),
            forall|k: int| 0 <= k < j ==> s@[i + k] == p@[k],
        decreases p.len() - j,
    {
        if s[i + j] != p[j] {
            assert(s@.subrange(i as int, i + p.len())[j as int] != p@[j as int]);
            return false;
        }
        j = j + 1;
    }
    assert(s@.subrange(i as int, i + p.len()) =~= p@);
    true
}

/// Whether `s` begins with `p`.
pub fn has_prefix(s: &[char], p: &[char]) -> (r: bool)
    ensures
        r == starts_with(s@, p@),
{
    match_at(s, p, 0)
}

/// Whether `s` ends with `p`.
pub fn has_suffix(s: &[char], p: &[char]) -> (r: bool)
    ensures
        r == ends_with(s@, p@),
{
    if p.len() > s.len() {
        false
    } else {
        match_at(s, p, s.len() - p.len())
    }
}

/// Whether `p` occurs in `s`.
pub fn has_substring(s: &[char], p: &[char]) -> (r: bool)
    ensures
        r == contains(s@, p@),
{
    if p.len() == 0 {
        assert(s@.subrange(0, 0) =~= p@);
        assert(matches_at(s@, p@, 0));
        return true;
    }
    let mut i: usize = 0;
    while i < s.len()
        invariant
            i <= s.len(),
            p@.len() > 0,
            forall|k: int| 0 <= k < i ==> !matches_at(s@, p@, k),
        decreases s.len() - i,
    {
        if match_at(s, p, i) {
            return true;
        }
        i = i + 1;
    }
    false
}

/// `s` with every occurrence of `pat` replaced by `rep`, scanning from the
/// left and resuming after each replaced occurrence (`str::replace`).
pub open spec fn replaced(s: Seq<char>, pat: Seq<char>, rep: Seq<char>) -> Seq<char>
    decreases s.len(),
{
    if s.len() == 0 {
        s
    } else if pat.len() > 0 && starts_with(s, pat) {
        rep + replaced(s.skip(pat.len() as int), pat, rep)
    } else {
        seq![s[0]] + replaced(s.drop_first(), pat, rep)
    }
}

/// Replaces every occurrence of a non-empty `pat` in `s` by `rep`.
pub fn replace_all(s: &[char], pat: &[char], rep: &[char]) -> (r: Vec<char>)
    requires
        pat@.len() > 0,
    ensures
        r@ == replaced(s@, pat@, rep@),
{
    let mut out: Vec<char> = Vec::new();
    let mut i: usize = 0;
    assert(s@.skip(0) =~= s@);
    while i < s.len()
        invariant
            i <= s.len(),
            pat@.len() > 0,
            out@ + replaced(s@.skip(i as int), pat@, rep@) == replaced(s@, pat@, rep@),
        decreases s.len() - i,
    {
        let ghost t = s@.skip(i as int);
        if match_at(s, pat, i) {
            assert(t.subrange(0, pat@.len() as int) =~= s@.subrange(i as int, i + pat@.len()));
            assert(t.skip(pat@.len() as int) =~= s@.skip(i + pat@.len()));
            let mut k: usize = 0;
            let ghost before = out@;
            while k < rep.len()
                invariant
                    k <= rep.len(),
                    out@ == before + rep@.take(k as int),
                decreases rep.len() - k,
            {
                out.push(rep[k]);
                assert(rep@.take(k as int).push(rep@[k as int]) =~= rep@.take(k + 1));
                k = k + 1;
            }
            assert(rep@.take(rep.len() as int) =~= rep@);
            assert(before + (rep@ + replaced(s@.skip(i + pat@.len()), pat@, rep@)) =~= out@
                + replaced(s@.skip(i + pat@.len()), pat@, rep@));
            i = i + pat.len();
        } else {
            assert(!starts_with(t, pat@)) by {
                if starts_with(t, pat@) {
                    assert(t.subrange(0, pat@.len() as int) =~= s@.subrange(
                        i as int,
                        i + pat@.len(),
                    ));
                }
            }
            assert(t.drop_first() =~= s@.skip(i + 1));
            let ghost before = out@;
            out.push(s[i]);
            assert(before + (seq![t[0]] + replaced(s@.skip(i + 1), pat@, rep@)) =~= out@
                + replaced(s@.skip(i + 1), pat@, rep@));
            i = i + 1;
        }
    }
    assert(out@ + replaced(s@.skip(i as int), pat@, rep@) =~= out@);
    out
}

/// The pieces of `s` between the occurrences of `pat`, as `str::split`
/// yields them; there is always at least one piece.
pub open spec fn split(s: Seq<char>, pat: Seq<char>) -> Seq<Seq<char>>
    decreases s.len(),
{
    if s.len() == 0 {
        seq![Seq::<char>::empty()]
    } else if pat.len() > 0 && starts_with(s, pat) {
        seq![Seq::<char>::empty()] + split(s.skip(pat.len() as int), pat)
    } else {
        let rest = split(s.drop_first(), pat);
        seq![seq![s[0]] + rest[0]] + rest.drop_first()
    }
}

/// `split` always yields at least one piece.
pub proof fn lemma_split_nonempty(s: Seq<char>, pat: Seq<char>)
    ensures
        split(s, pat).len() >= 1,
    decreases s.len(),
{
    if s.len() == 0 {
    } else if pat.len() > 0 && starts_with(s, pat) {
        lemma_split_nonempty(s.skip(pat.len() as int), pat);
    } else {
        lemma_split_nonempty(s.drop_first(), pat);
    }
}

/// The pieces already complete, the piece being built, and the pieces of
/// the rest of the input, put together.
pub open spec fn glue(done: Seq<Seq<char>>, cur: Seq<char>, rest: Seq<Seq<char>>) -> Seq<
    Seq<char>,
> {
    done + seq![cur + rest[0]] + rest.drop_first()
}

/// The pieces of `s` between the occurrences of a non-empty `pat`.
pub fn split_pieces(s: &[char], pat: &[char]) -> (r: Vec<Vec<char>>)
    requires
        pat@.len() > 0,
    ensures
        r@.len() == split(s@, pat@).len(),
        forall|k: int| 0 <= k < r@.len() ==> #[trigger] r@[k]@ == split(s@, pat@)[k],
{
    let mut done: Vec<Vec<char>> = Vec::new();
    let ghost mut done_v: Seq<Seq<char>> = Seq::empty();
    let mut cur: Vec<char> = Vec::new();
    let mut i: usize = 0;
    assert(s@.skip(0) =~= s@);
    assert(glue(done_v, cur@, split(s@, pat@)) =~= split(s@, pat@)) by {
        lemma_split_nonempty(s@, pat@);
        assert(cur@ + split(s@, pat@)[0] =~= split(s@, pat@)[0]);
    }
    while i < s.len()
        invariant
            i <= s.len(),
            pat@.len() > 0,
            done@.len() == done_v.len(),
            forall|k: int| 0 <= k < done@.len() ==> #[trigger] done@[k]@ == done_v[k],
            glue(done_v, cur@, split(s@.skip(i as int), pat@)) == split(s@, pat@),
        decreases s.len() - i,
    {
        let ghost t = s@.skip(i as int);
        if match_at(s, pat, i) {
            assert(t.subrange(0, pat@.len() as int) =~= s@.subrange(i as int, i + pat@.len()));
            assert(t.skip(pat@.len() as int) =~= s@.skip(i + pat@.len()));
            let ghost r2 = split(s@.skip(i + pat@.len()), pat@);
            proof {
                lemma_split_nonempty(s@.skip(i + pat@.len()), pat@);
                assert(glue(done_v, cur@, seq![Seq::<char>::empty()] + r2) =~= glue(
                    done_v.push(cur@),
                    Seq::<char>::empty(),
                    r2,
                ));
                done_v = done_v.push(cur@);
            }
            let finished = cur;
            done.push(finished);
            cur = Vec::new();
            i = i + pat.len();
        } else {
            assert(!starts_with(t, pat@)) by {
                if starts_with(t, pat@) {
                    assert(t.subrange(0, pat@.len() as int) =~= s@.subrange(
                        i as int,
                        i + pat@.len(),
                    ));
                }
            }
            assert(t.drop_first() =~= s@.skip(i + 1));
            let ghost r1 = split(s@.skip(i + 1), pat@);
            proof {
                lemma_split_nonempty(s@.skip(i + 1), pat@);
            }
            let ghost old_cur = cur@;
            assert(t[0] == s@[i as int]);
            cur.push(s[i]);
            assert((seq![seq![t[0]] + r1[0]] + r1.drop_first()).drop_first() =~= r1.drop_first());
            assert(old_cur + (seq![t[0]] + r1[0]) =~= cur@ + r1[0]);
            assert(glue(done_v, old_cur, seq![seq![t[0]] + r1[0]] + r1.drop_first()) =~= glue(
                done_v,
                cur@,
                r1,
            ));
            i = i + 1;
        }
    }
    assert(s@.skip(i as int) =~= Seq::<char>::empty());
    assert(glue(done_v, cur@, seq![Seq::<char>::empty()]) =~= done_v.push(cur@));
    proof {
        done_v = done_v.push(cur@);
    }
    done.push(cur);
    done
}

/// `l` without one trailing carriage return.
pub open spec fn strip_cr(l: Seq<char>) -> Seq<char> {
    if l.len() > 0 && l.last() == '\r' {
        l.drop_last()
    } else {
        l
    }
}

/// The lines of `s` as `str::lines` yields them: split at each newline,
/// a carriage return before a newline removed, and no empty line after a
/// final newline.
pub open spec fn lines(s: Seq<char>) -> Seq<Seq<char>> {
    let p = split(s, seq!['\n']);
    let n = if p.last().len() == 0 {
        p.len() - 1
    } else {
        p.len() as int
    };
    Seq::new(
        n as nat,
        |k: int|
            if k < p.len() - 1 {
                strip_cr(p[k])
            } else {
                p[k]
            },
    )
}

proof fn lemma_lines_index(s: Seq<char>, k: int)
    requires
        0 <= k < lines(s).len(),
    ensures
        lines(s)[k] == (if k < split(s, seq!['\n']).len() - 1 {
            strip_cr(split(s, seq!['\n'])[k])
        } else {
            split(s, seq!['\n'])[k]
        }),
{
}

/// The lines of `s`.
pub fn lines_of(s: &[char]) -> (r: Vec<Vec<char>>)
    ensures
        r@.len() == lines(s@).len(),
        forall|k: int| 0 <= k < r@.len() ==> #[trigger] r@[k]@ == lines(s@)[k],
{
    let nl: Vec<char> = vec!['\n'];
    let pieces = split_pieces(s, nl.as_slice());
    let ghost p = split(s@, seq!['\n']);
    assert(nl@ =~= seq!['\n']);
    proof {
        lemma_split_nonempty(s@, seq!['\n']);
    }
    let np = pieces.len();
    let n = if pieces[np - 1].len() == 0 {
        np - 1
    } else {
        np
    };
    let mut out: Vec<Vec<char>> = Vec::new();
    let mut k: usize = 0;
    while k < n
        invariant
            n <= np,
            np == p.len(),
            p == split(s@, seq!['\n']),
            np >= 1,
            pieces@.len() == np,
            forall|j: int| 0 <= j < np ==> #[trigger] pieces@[j]@ == p[j],
            n == lines(s@).len(),
            k <= n,
            out@.len() == k,
            forall|j: int| 0 <= j < k ==> #[trigger] out@[j]@ == lines(s@)[j],
        decreases n - k,
    {
        let piece = &pieces[k];
        let mut line: Vec<char> = Vec::new();
        let mut len = piece.len();
        if k + 1 < np && len > 0 && piece[len - 1] == '\r' {
            len = len - 1;
        }
        let mut j: usize = 0;
        while j < len
            invariant
                len <= piece@.len(),
                j <= len,
                line@ =~= piece@.take(j as int),
            decreases len - j,
        {
            line.push(piece[j]);
            j = j + 1;
        }
        assert(piece@ == p[k as int]);
        proof {
            lemma_lines_index(s@, k as int);
        }
        assert(lines(s@)[k as int] == (if k < np - 1 {
            strip_cr(p[k as int])
        } else {
            p[k as int]
        }));
        assert(line@ =~= lines(s@)[k as int]);
        out.push(line);
        k = k + 1;
    }
    out
}

/// The index of the first `c` in `s` (`str::find` with a character).
pub open spec fn first_index(s: Seq<char>, c: char) -> Option<int>
    decreases s.len(),
{
    if s.len() == 0 {
        None
    } else if s[0] == c {
        Some(0)
    } else {
        match first_index(s.drop_first(), c) {
            Some(k) => Some(k + 1),
            None => None,
        }
    }
}

/// The index of the last `c` in `s` (`str::rfind` with a character).
pub open spec fn last_index(s: Seq<char>, c: char) -> Option<int>
    decreases s.len(),
{
    if s.len() == 0 {
        None
    } else if s.last() == c {
        Some(s.len() - 1)
    } else {
        last_index(s.drop_last(), c)
    }
}

pub(crate) proof fn lemma_first_index_skip(s: Seq<char>, c: char, i: int)
    requires
        0 <= i <= s.len(),
        forall|j: int| 0 <= j < i ==> s[j] != c,
    ensures
        first_index(s, c) == (match first_index(s.skip(i), c) {
            Some(k) => Some(k + i),
            None => None,
        }),
    decreases i,
{
    if i > 0 {
        assert(s.drop_first().skip(i - 1) =~= s.skip(i));
        lemma_first_index_skip(s.drop_first(), c, i - 1);
    } else {
        assert(s.skip(0) =~= s);
    }
}

proof fn lemma_last_index_take(s: Seq<char>, c: char, k: int)
    requires
        0 <= k <= s.len(),
        forall|j: int| k <= j < s.len() ==> s[j] != c,
    ensures
        last_index(s, c) == last_index(s.take(k), c),
    decreases s.len() - k,
{
    if k < s.len() {
        assert(s.drop_last().take(k) =~= s.take(k));
        lemma_last_index_take(s.drop_last(), c, k);
    } else {
        assert(s.take(k) =~= s);
    }
}

/// The index of the first `c` in `s`.
pub fn find_char(s: &[char], c: char) -> (r: Option<usize>)
    ensures
        match r {
            Some(k) => first_index(s@, c) == Some(k as int),
            None => first_index(s@, c) is None,
        },
{
    let mut i: usize = 0;
    while i < s.len()
        invariant
            i <= s.len(),
            forall|j: int| 0 <= j < i ==> s@[j] != c,
        decreases s.len() - i,
    {
        if s[i] == c {
            proof {
                lemma_first_index_skip(s@, c, i as int);
            }
            return Some(i);
        }
        i = i + 1;
    }
    proof {
        lemma_first_index_skip(s@, c, i as int);
    }
    None
}

/// The index of the last `c` in `s`.
pub fn rfind_char(s: &[char], c: char) -> (r: Option<usize>)
    ensures
        match r {
            Some(k) => last_index(s@, c) == Some(k as int),
            None => last_index(s@, c) is None,
        },
{
    let mut i: usize = s.len();
    while i > 0
        invariant
            i <= s.len(),
            forall|j: int| i <= j < s.len() ==> s@[j] != c,
        decreases i,
    {
        if s[i - 1] == c {
            proof {
                lemma_last_index_take(s@, c, i as int);
                assert(s@.take(i as int).last() == c);
            }
            return Some(i - 1);
        }
        i = i - 1;
    }
    proof {
        lemma_last_index_take(s@, c, 0);
    }
    None
}

/// `s` with every leading copy of `p` removed (`str::trim_start_matches`).
pub open spec fn strip_leading(s: Seq<char>, p: Seq<char>) -> Seq<char>
    decreases s.len(),
{
    if p.len() > 0 && starts_with(s, p) {
        strip_leading(s.skip(p.len() as int), p)
    } else {
        s
    }
}

/// Removes every leading copy of `p` from `s`.
pub fn strip_leading_chars(s: &[char], p: &[char]) -> (r: Vec<char>)
    ensures
        r@ == strip_leading(s@, p@),
{
    let mut i: usize = 0;
    assert(s@.skip(0) =~= s@);
    while p.len() > 0 && match_at(s, p, i)
        invariant
            i <= s.len(),
            strip_leading(s@.skip(i as int), p@) == strip_leading(s@, p@),
        decreases s.len() - i,
    {
        let ghost t = s@.skip(i as int);
        assert(t.subrange(0, p@.len() as int) =~= s@.subrange(i as int, i + p@.len()));
        assert(t.skip(p@.len() as int) =~= s@.skip(i + p@.len()));
        i = i + p.len();
    }
    let ghost t = s@.skip(i as int);
    assert(!(p@.len() > 0 && starts_with(t, p@))) by {
        if p@.len() > 0 && starts_with(t, p@) {
            assert(t.subrange(0, p@.len() as int) =~= s@.subrange(i as int, i + p@.len()));
        }
    }
    let mut out: Vec<char> = Vec::new();
    let mut j: usize = i;
    while j < s.len()
        invariant
            i <= j <= s.len(),
            out@ =~= s@.subrange(i as int, j as int),
        decreases s.len() - j,
    {
        out.push(s[j]);
        j = j + 1;
    }
    assert(out@ =~= t);
    out
}

/// The leading characters of `s` up to its first white space.
pub open spec fn word_prefix(s: Seq<char>) -> Seq<char>
    decreases s.len(),
{
    if s.len() == 0 || is_white_space(s[0]) {
        Seq::empty()
    } else {
        seq![s[0]] + word_prefix(s.drop_first())
    }
}

/// The first white-space separated word of `s`, if there is one
/// (`str::split_whitespace` followed by `next`).
pub open spec fn first_word(s: Seq<char>) -> Option<Seq<char>> {
    let t = trim_start(s);
    if t.len() == 0 {
        None
    } else {
        Some(word_prefix(t))
    }
}

proof fn lemma_word_prefix_take(s: Seq<char>, k: int)
    requires
        0 <= k <= s.len(),
        forall|j: int| 0 <= j < k ==> !is_white_space(#[trigger] s[j]),
        k == s.len() || is_white_space(s[k]),
    ensures
        word_prefix(s) == s.take(k),
    decreases k,
{
    if k == 0 {
        assert(s.take(0) =~= Seq::<char>::empty());
    } else {
        lemma_word_prefix_take(s.drop_first(), k - 1);
        assert(seq![s[0]] + s.drop_first().take(k - 1) =~= s.take(k));
    }
}

/// The first white-space separated word of `s`, or an empty sequence
/// where `s` holds none.
pub fn first_word_chars(s: &[char]) -> (r: Vec<char>)
    ensures
        r@ == (match first_word(s@) {
            Some(w) => w,
            None => Seq::<char>::empty(),
        }),
{
    let mut a: usize = 0;
    while a < s.len() && is_whitespace(s[a])
        invariant
            a <= s.len(),
            forall|j: int| 0 <= j < a ==> is_white_space(#[trigger] s@[j]),
        decreases s.len() - a,
    {
        a = a + 1;
    }
    proof {
        lemma_trim_start_skip(s@, a as int);
    }
    let ghost t = s@.skip(a as int);
    assert(a == s.len() || !is_white_space(t[0]));
    let mut out: Vec<char> = Vec::new();
    let mut b: usize = a;
    while b < s.len() && !is_whitespace(s[b])
        invariant
            a <= b <= s.len(),
            t == s@.skip(a as int),
            out@ =~= s@.subrange(a as int, b as int),
            forall|j: int| a <= j < b ==> !is_white_space(#[trigger] s@[j]),
        decreases s.len() - b,
    {
        out.push(s[b]);
        b = b + 1;
    }
    proof {
        assert forall|j: int| 0 <= j < b - a implies !is_white_space(#[trigger] t[j]) by {
            assert(t[j] == s@[j + a]);
        }
        if b < s.len() {
            assert(t[b - a] == s@[b as int]);
        }
        lemma_word_prefix_take(t, b - a);
        assert(out@ =~= t.take(b - a));
        if a == s.len() {
            assert(t.len() == 0);
        }
    }
    out
}

/// Whether every character of `s` is ASCII.
pub open spec fn all_ascii(s: Seq<char>) -> bool {
    forall|i: int| 0 <= i < s.len() ==> (#[trigger] s[i] as u32) < 128
}

/// `c` with an ASCII capital letter mapped to its small letter.
pub open spec fn ascii_lower_char(c: char) -> char {
    if 'A' <= c && c <= 'Z' {
        ((c as u32) + 32) as char
    } else {
        c
    }
}

/// `s` with each ASCII capital letter mapped to its small letter.
pub open spec fn ascii_lower(s: Seq<char>) -> Seq<char> {
    s.map_values(|c: char| ascii_lower_char(c))
}

/// What `str::to_lowercase` returns for `s`: the Unicode lowercase mapping
/// of each character, a function of `s` alone.
pub uninterp spec fn unicode_lowercase(s: Seq<char>) -> Seq<char>;

/// `str::to_lowercase`. The contract names its result, and states the one
/// case the documentation makes plain: on ASCII text it maps `A`-`Z` to
/// `a`-`z` and keeps every other character. What it does to other
/// characters is not stated.
#[verifier::external_body]
pub(crate) fn to_lowercase(s: &str) -> (r: String)
    ensures
        r@ == unicode_lowercase(s@),
        all_ascii(s@) ==> r@ == ascii_lower(s@),
{
    s.to_lowercase()
}

/// `String::from_utf8`: succeeds exactly on valid UTF-8, with the decoded
/// characters.
#[verifier::external_body]
pub(crate) fn utf8_decode(bytes: Vec<u8>) -> (r: Option<String>)
    ensures
        r is Some <==> valid_utf8(bytes@),
        r matches Some(t) ==> t@ == decode_utf8(bytes@),
{
    String::from_utf8(bytes).ok()
}

/// What `String::from_utf8_lossy` returns for `bytes`: the decoded text
/// with each invalid sequence replaced by U+FFFD, a function of `bytes`
/// alone.
pub uninterp spec fn lossy_decoding(bytes: Seq<u8>) -> Seq<char>;

/// `String::from_utf8_lossy`. The contract names its result and states
/// that on valid UTF-8 it is the plain decoding; where the replacement
/// characters go on invalid input is not stated.
#[verifier::external_body]
pub(crate) fn utf8_decode_lossy(bytes: &[u8]) -> (r: String)
    ensures
        r@ == lossy_decoding(bytes@),
        valid_utf8(bytes@) ==> r@ == decode_utf8(bytes@),
{
    String::from_utf8_lossy(bytes).into_owned()
}

/// A `String` with the characters of `s`.
pub fn owned(s: &str) -> (r: String)
    ensures
        r@ == s@,
{
    s.to_owned()
}

/// `s` without leading and trailing white space.
pub fn trimmed(s: &str) -> (r: String)
    ensures
        r@ == trim(s@),
{
    let cs = chars_of(s);
    let t = trim_chars(cs.as_slice());
    string_of(t.as_slice())
}

/// `s` with every occurrence of a non-empty `pat` replaced by `rep`.
pub fn replace_text(s: &str, pat: &str, rep: &str) -> (r: String)
    requires
        pat@.len() > 0,
    ensures
        r@ == replaced(s@, pat@, rep@),
{
    let cs = chars_of(s);
    let ps = chars_of(pat);
    let rs = chars_of(rep);
    let t = replace_all(cs.as_slice(), ps.as_slice(), rs.as_slice());
    string_of(t.as_slice())
}

/// Whether `s` begins with `p`.
pub fn text_starts_with(s: &str, p: &str) -> (r: bool)
    ensures
        r == starts_with(s@, p@),
{
    let cs = chars_of(s);
    let ps = chars_of(p);
    has_prefix(cs.as_slice(), ps.as_slice())
}

/// Whether `s` ends with `p`.
pub fn text_ends_with(s: &str, p: &str) -> (r: bool)
    ensures
        r == ends_with(s@, p@),
{
    let cs = chars_of(s);
    let ps = chars_of(p);
    has_suffix(cs.as_slice(), ps.as_slice())
}

/// Whether `p` occurs in `s`.
pub fn text_contains(s: &str, p: &str) -> (r: bool)
    ensures
        r == contains(s@, p@),
{
    let cs = chars_of(s);
    let ps = chars_of(p);
    has_substring(cs.as_slice(), ps.as_slice())
}

/// Whether two texts hold the same characters.
pub fn text_eq(a: &str, b: &str) -> (r: bool)
    ensures
        r == (a@ == b@),
{
    let x = chars_of(a);
    let y = chars_of(b);
    if x.len() != y.len() {
        return false;
    }
    let mut i: usize = 0;
    while i < x.len()
        invariant
            x@.len() == y@.len(),
            x@ == a@,
            y@ == b@,
            i <= x@.len(),
            forall|j: int| 0 <= j < i ==> x@[j] == y@[j],
        decreases x.len() - i,
    {
        if x[i] != y[i] {
            assert(x@[i as int] != y@[i as int]);
            return false;
        }
        i = i + 1;
    }
    assert(x@ =~= y@);
    true
}

/// Law: trimming twice is trimming once.
pub proof fn law_trim_idempotent(s: Seq<char>)
    ensures
        trim(trim(s)) == trim(s),
{
    lemma_trim_start_of_trimmed(s);
    lemma_trim_end_prefix(trim_start(s));
}

proof fn lemma_trim_start_no_lead(s: Seq<char>)
    ensures
        trim_start(s).len() == 0 || !is_white_space(trim_start(s)[0]),
    decreases s.len(),
{
    if s.len() > 0 && is_white_space(s[0]) {
        lemma_trim_start_no_lead(s.drop_first());
    }
}

proof fn lemma_trim_end_prefix(s: Seq<char>)
    ensures
        trim_end(s).len() <= s.len(),
        trim_end(s) == s.take(trim_end(s).len() as int),
        trim_end(s).len() == 0 || !is_white_space(trim_end(s).last()),
    decreases s.len(),
{
    if s.len() > 0 && is_white_space(s.last()) {
        lemma_trim_end_prefix(s.drop_last());
        assert(s.drop_last().take(trim_end(s).len() as int) =~= s.take(trim_end(s).len() as int));
    } else {
        assert(s.take(s.len() as int) =~= s);
    }
}

proof fn lemma_trim_start_of_trimmed(s: Seq<char>)
    ensures
        trim_start(trim(s)) == trim(s),
{
    let t = trim_start(s);
    lemma_trim_start_no_lead(s);
    lemma_trim_end_prefix(t);
    let u = trim_end(t);
    if u.len() > 0 {
        assert(u[0] == t[0]);
    }
}

/// Appends the characters of `t` to `out`.
pub fn push_chars(out: &mut String, t: &[char])
    ensures
        final(out)@ == old(out)@ + t@,
{
    let mut i: usize = 0;
    while i < t.len()
        invariant
            i <= t@.len(),
            out@ == old(out)@ + t@.take(i as int),
        decreases t.len() - i,
    {
        push_char(out, t[i]);
        assert((old(out)@ + t@.take(i as int)).push(t@[i as int]) =~= old(out)@ + t@.take(i + 1));
        i = i + 1;
    }
    assert(t@.take(t@.len() as int) =~= t@);
}

/// Appends `t` to `out`.
pub fn push_text(out: &mut String, t: &str)
    ensures
        final(out)@ == old(out)@ + t@,
{
    let cs = chars_of(t);
    push_chars(out, cs.as_slice());
}

/// `a` followed by `b`.
pub fn join_text(a: &str, b: &str) -> (r: String)
    ensures
        r@ == a@ + b@,
{
    let mut out = owned(a);
    push_text(&mut out, b);
    out
}

/// Law: replacing a pattern that does not occur changes nothing.
pub proof fn law_replace_absent(s: Seq<char>, pat: Seq<char>, rep: Seq<char>)
    requires
        pat.len() > 0,
        !contains(s, pat),
    ensures
        replaced(s, pat, rep) == s,
    decreases s.len(),
{
    if s.len() > 0 {
        assert(!matches_at(s, pat, 0));
        assert(!contains(s.drop_first(), pat)) by {
            if contains(s.drop_first(), pat) {
                let i = choose|i: int| matches_at(s.drop_first(), pat, i);
                assert(s.subrange(i + 1, i + 1 + pat.len()) =~= s.drop_first().subrange(
                    i,
                    i + pat.len(),
                ));
                assert(matches_at(s, pat, i + 1));
            }
        }
        law_replace_absent(s.drop_first(), pat, rep);
        assert(seq![s[0]] + s.drop_first() =~= s);
    }
}

} // verus!
