//! Character-level helpers: counting leading runs of characters, trimming
//! surrounding whitespace from a line, building runs of spaces, and splitting
//! a document into its lines.

use vstd::prelude::*;

verus! {

/// Whitespace characters that count toward a line's indentation and are
/// stripped from its ends.
pub open spec fn is_ws_char(c: char) -> bool {
    c == ' ' || c == '\t' || c == '\r'
}

/// Length of the longest prefix of `s` whose characters all satisfy `p`.
pub open spec fn leading_while(s: Seq<char>, p: spec_fn(char) -> bool) -> int
    decreases s.len(),
{
    if s.len() == 0 || !p(s[0]) {
        0
    } else {
        1 + leading_while(s.subrange(1, s.len() as int), p)
    }
}

/// `leading_while` is bounded by the length, every character before it
/// satisfies `p`, and the character at it (if any) does not.
pub proof fn lemma_leading_while(s: Seq<char>, p: spec_fn(char) -> bool)
    ensures
        0 <= leading_while(s, p) <= s.len(),
        forall|i: int| 0 <= i < leading_while(s, p) ==> p(s[i]),
        leading_while(s, p) < s.len() ==> !p(s[leading_while(s, p)]),
    decreases s.len(),
{
    if s.len() == 0 || !p(s[0]) {
    } else {
        let t = s.subrange(1, s.len() as int);
        lemma_leading_while(t, p);
        assert forall|i: int| 0 <= i < leading_while(s, p) implies p(s[i]) by {
            if i >= 1 {
                assert(t[i - 1] == s[i]);
            }
        }
        if leading_while(s, p) < s.len() {
            assert(t[leading_while(t, p)] == s[leading_while(s, p)]);
        }
    }
}

/// A position `j` such that everything before it satisfies `p` and it does
/// not (or it is the end) pins `leading_while` down to `j`.
pub proof fn lemma_leading_while_is(s: Seq<char>, p: spec_fn(char) -> bool, j: int)
    requires
        0 <= j <= s.len(),
        forall|i: int| 0 <= i < j ==> p(s[i]),
        j < s.len() ==> !p(s[j]),
    ensures
        leading_while(s, p) == j,
{
    lemma_leading_while(s, p);
    let l = leading_while(s, p);
    if l < j {
        assert(p(s[l]));
    }
    if l > j {
        assert(p(s[j]));
    }
}

/// Count of leading whitespace characters of `s`.
pub open spec fn leading_ws(s: Seq<char>) -> int {
    leading_while(s, |c: char| is_ws_char(c))
}

pub proof fn lemma_leading_ws(s: Seq<char>)
    ensures
        0 <= leading_ws(s) <= s.len(),
        forall|i: int| 0 <= i < leading_ws(s) ==> is_ws_char(s[i]),
        leading_ws(s) < s.len() ==> !is_ws_char(s[leading_ws(s)]),
{
    lemma_leading_while(s, |c: char| is_ws_char(c));
}

pub proof fn lemma_leading_ws_is(s: Seq<char>, j: int)
    requires
        0 <= j <= s.len(),
        forall|i: int| 0 <= i < j ==> is_ws_char(s[i]),
        j < s.len() ==> !is_ws_char(s[j]),
    ensures
        leading_ws(s) == j,
{
    lemma_leading_while_is(s, |c: char| is_ws_char(c), j);
}

/// Count of whitespace characters at the end of `s`.
pub open spec fn trailing_ws(s: Seq<char>) -> int
    decreases s.len(),
{
    if s.len() == 0 || !is_ws_char(s.last()) {
        0
    } else {
        1 + trailing_ws(s.drop_last())
    }
}

pub proof fn lemma_trailing_ws(s: Seq<char>)
    ensures
        0 <= trailing_ws(s) <= s.len(),
        forall|i: int| s.len() - trailing_ws(s) <= i < s.len() ==> is_ws_char(s[i]),
        trailing_ws(s) < s.len() ==> !is_ws_char(s[s.len() - 1 - trailing_ws(s)]),
    decreases s.len(),
{
    if s.len() == 0 || !is_ws_char(s.last()) {
    } else {
        let t = s.drop_last();
        lemma_trailing_ws(t);
        assert forall|i: int| s.len() - trailing_ws(s) <= i < s.len() implies is_ws_char(s[i]) by {
            if i < s.len() - 1 {
                assert(t[i] == s[i]);
            }
        }
        if trailing_ws(s) < s.len() {
            assert(t[t.len() - 1 - trailing_ws(t)] == s[s.len() - 1 - trailing_ws(s)]);
        }
    }
}

pub proof fn lemma_trailing_ws_is(s: Seq<char>, j: int)
    requires
        0 <= j <= s.len(),
        forall|i: int| s.len() - j <= i < s.len() ==> is_ws_char(s[i]),
        j < s.len() ==> !is_ws_char(s[s.len() - 1 - j]),
    ensures
        trailing_ws(s) == j,
{
    lemma_trailing_ws(s);
    let t = trailing_ws(s);
    if t < j {
        assert(is_ws_char(s[s.len() - 1 - t]));
    }
    if t > j {
        assert(is_ws_char(s[s.len() - 1 - j]));
    }
}

/// `s` with leading and trailing whitespace removed.
pub open spec fn trim_spec(s: Seq<char>) -> Seq<char> {
    if leading_ws(s) == s.len() {
        Seq::<char>::empty()
    } else {
        s.subrange(leading_ws(s), s.len() - trailing_ws(s))
    }
}

/// The trimmed regions do not overlap, the trimmed text starts and ends with
/// a non-whitespace character, and its length is what is left between them.
pub proof fn lemma_trim_spec(s: Seq<char>)
    ensures
        leading_ws(s) < s.len() ==> leading_ws(s) + trailing_ws(s) < s.len(),
        leading_ws(s) < s.len() ==> trim_spec(s).len() == s.len() - leading_ws(s) - trailing_ws(s),
        leading_ws(s) == s.len() ==> trim_spec(s).len() == 0,
        trim_spec(s).len() > 0 ==> !is_ws_char(trim_spec(s)[0]),
        leading_ws(trim_spec(s)) == 0 || trim_spec(s).len() == 0,
{
    lemma_leading_ws(s);
    lemma_trailing_ws(s);
    if leading_ws(s) < s.len() {
        let a = leading_ws(s);
        let b = trailing_ws(s);
        assert(!is_ws_char(s[a]));
        if b == s.len() {
            assert(is_ws_char(s[a]));
        }
        assert(b < s.len());
        assert(!is_ws_char(s[s.len() - 1 - b]));
        if a > s.len() - 1 - b {
            assert(is_ws_char(s[s.len() - 1 - b]));
        }
        assert(a + b < s.len());
        assert(trim_spec(s)[0] == s[a]);
        if trim_spec(s).len() > 0 {
            lemma_leading_ws_is(trim_spec(s), 0);
        }
    }
}

/// Count of the leading whitespace characters of `s`.
pub fn count_leading_ws(s: &str) -> (r: usize)
    ensures
        r as int == leading_ws(s@),
{
    let n = s.unicode_len();
    let mut i: usize = 0;
    while i < n
        invariant
            0 <= i <= n,
            n as int == s@.len(),
            forall|j: int| 0 <= j < i ==> is_ws_char(s@[j]),
        decreases n - i,
    {
        let c = s.get_char(i);
        if !(c == ' ' || c == '\t' || c == '\r') {
            proof {
                lemma_leading_ws_is(s@, i as int);
            }
            return i;
        }
        i = i + 1;
    }
    proof {
        lemma_leading_ws_is(s@, n as int);
    }
    i
}

/// Whether the character of `s` at position `k` is whitespace.
fn ws_at(s: &str, k: usize) -> (b: bool)
    requires
        k < s@.len(),
    ensures
        b == is_ws_char(s@[k as int]),
{
    let c = s.get_char(k);
    c == ' ' || c == '\t' || c == '\r'
}

/// The line `s` split as (count of leading whitespace, trimmed content).
pub fn trim_line(s: &str) -> (r: (usize, String))
    ensures
        r.0 as int == leading_ws(s@),
        r.1@ == trim_spec(s@),
{
    let n = s.unicode_len();
    let lead = count_leading_ws(s);
    if lead == n {
        (lead, String::new())
    } else {
        proof {
            lemma_leading_ws(s@);
            lemma_trim_spec(s@);
        }
        let mut j = n;
        while j > lead && ws_at(s, j - 1)
            invariant
                lead < j <= n,
                n as int == s@.len(),
                lead as int == leading_ws(s@),
                forall|k: int| j <= k < n ==> is_ws_char(s@[k]),
            decreases j,
        {
            proof {
                lemma_leading_ws(s@);
                if j - 1 == lead {
                    assert(!is_ws_char(s@[lead as int]));
                }
            }
            j = j - 1;
        }
        proof {
            lemma_leading_ws(s@);
            assert(!is_ws_char(s@[j - 1]));
            lemma_trailing_ws_is(s@, n - j);
        }
        let t = s.substring_char(lead, j);
        let out = String::from_str(t);
        proof {
            assert(out@ =~= trim_spec(s@));
        }
        (lead, out)
    }
}

/// A run of `n` spaces.
pub open spec fn spaces(n: int) -> Seq<char> {
    Seq::new(n as nat, |i: int| ' ')
}

pub fn make_spaces(n: usize) -> (r: String)
    ensures
        r@ == spaces(n as int),
{
    let mut r = String::new();
    let mut i: usize = 0;
    proof {
        assert(r@ =~= spaces(0));
    }
    while i < n
        invariant
            0 <= i <= n,
            r@ == spaces(i as int),
        decreases n - i,
    {
        r.append(" ");
        i = i + 1;
        proof {
            reveal_strlit(" ");
            assert(r@ =~= spaces(i as int));
        }
    }
    r
}

/// Count of leading space characters (the single character ' ') of `s`.
pub open spec fn leading_spaces(s: Seq<char>) -> int {
    leading_while(s, |c: char| c == ' ')
}

/// A run of `n` spaces followed by text that does not begin with a space has
/// exactly `n` leading spaces.
pub proof fn lemma_leading_spaces_of_padded(n: int, t: Seq<char>)
    requires
        n >= 0,
        t.len() == 0 || t[0] != ' ',
    ensures
        leading_spaces(spaces(n) + t) == n,
{
    let s = spaces(n) + t;
    assert forall|i: int| 0 <= i < n implies (s[i] == ' ') by {
        assert(s[i] == spaces(n)[i]);
    }
    if n < s.len() {
        assert(s[n] == t[0]);
    }
    lemma_leading_while_is(s, |c: char| c == ' ', n);
}

/// Trimming ignores any run of spaces put in front of a line.
pub proof fn lemma_trim_left_pad(n: int, t: Seq<char>)
    requires
        n >= 0,
    ensures
        trim_spec(spaces(n) + t) == trim_spec(t),
{
    let s = spaces(n) + t;
    lemma_leading_ws(t);
    lemma_trailing_ws(t);
    assert forall|i: int| 0 <= i < n + leading_ws(t) implies is_ws_char(s[i]) by {
        if i < n {
            assert(s[i] == ' ');
        } else {
            assert(s[i] == t[i - n]);
        }
    }
    if n + leading_ws(t) < s.len() {
        assert(s[n + leading_ws(t)] == t[leading_ws(t)]);
    }
    lemma_leading_ws_is(s, n + leading_ws(t));
    if leading_ws(t) == t.len() {
        assert(leading_ws(s) == s.len());
        assert(trim_spec(s) == trim_spec(t));
    } else {
        let tw = trailing_ws(t);
        if tw == t.len() {
            assert(is_ws_char(t[leading_ws(t)]));
        }
        assert(tw < t.len());
        assert forall|i: int| s.len() - tw <= i < s.len() implies is_ws_char(s[i]) by {
            assert(s[i] == t[i - n]);
        }
        assert(s[s.len() - 1 - tw] == t[t.len() - 1 - tw]);
        assert(!is_ws_char(s[s.len() - 1 - tw]));
        lemma_trailing_ws_is(s, tw);
        assert(trim_spec(s) =~= trim_spec(t));
    }
}

/// Trimming an already trimmed line changes nothing.
pub proof fn lemma_trim_trimmed(l: Seq<char>)
    ensures
        trim_spec(trim_spec(l)) == trim_spec(l),
{
    lemma_trim_spec(l);
    lemma_leading_ws(l);
    lemma_trailing_ws(l);
    let t = trim_spec(l);
    if t.len() == 0 {
        lemma_leading_ws(t);
        assert(trim_spec(t) =~= t);
    } else {
        assert(t.last() == l[l.len() - 1 - trailing_ws(l)]);
        assert(!is_ws_char(t.last()));
        assert(trailing_ws(t) == 0);
        assert(leading_ws(t) == 0);
        assert(trim_spec(t) =~= t);
    }
}

/// Position of the first line break in `s`, or its length when there is none.
pub open spec fn line_break(s: Seq<char>) -> int {
    leading_while(s, |c: char| c != '\n')
}

pub proof fn lemma_line_break_is(s: Seq<char>, j: int)
    requires
        0 <= j <= s.len(),
        forall|i: int| 0 <= i < j ==> s[i] != '\n',
        j < s.len() ==> s[j] == '\n',
    ensures
        line_break(s) == j,
{
    lemma_leading_while_is(s, |c: char| c != '\n', j);
}

/// The lines of `s`: maximal runs between line breaks, the break characters
/// themselves dropped, with no final empty line after a trailing break.
pub open spec fn split_lines_spec(s: Seq<char>) -> Seq<Seq<char>>
    decreases s.len(),
{
    if s.len() == 0 {
        Seq::<Seq<char>>::empty()
    } else {
        let i = line_break(s);
        if 0 <= i < s.len() {
            seq![s.subrange(0, i)] + split_lines_spec(s.subrange(i + 1, s.len() as int))
        } else {
            seq![s]
        }
    }
}

/// Whether the character of `s` at position `k` is a line break.
fn nl_at(s: &str, k: usize) -> (b: bool)
    requires
        k < s@.len(),
    ensures
        b == (s@[k as int] == '\n'),
{
    let c = s.get_char(k);
    c == '\n'
}

/// Splits `s` into its lines.
pub fn split_to_lines(s: &str) -> (r: Vec<String>)
    ensures
        r@.map_values(|x: String| x@) == split_lines_spec(s@),
{
    let n = s.unicode_len();
    let mut r: Vec<String> = Vec::new();
    let mut pos: usize = 0;
    proof {
        assert(r@.map_values(|x: String| x@) =~= Seq::<Seq<char>>::empty());
        assert(s@.subrange(0, n as int) =~= s@);
        assert(Seq::<Seq<char>>::empty() + split_lines_spec(s@) =~= split_lines_spec(s@));
    }
    while pos < n
        invariant
            0 <= pos <= n,
            n as int == s@.len(),
            split_lines_spec(s@) == r@.map_values(|x: String| x@) + split_lines_spec(
                s@.subrange(pos as int, n as int),
            ),
        decreases n - pos,
    {
        let ghost prev = r@.map_values(|x: String| x@);
        let mut j = pos;
        while j < n && !nl_at(s, j)
            invariant
                pos <= j <= n,
                n as int == s@.len(),
                forall|k: int| pos <= k < j ==> s@[k] != '\n',
            decreases n - j,
        {
            j = j + 1;
        }
        let line = String::from_str(s.substring_char(pos, j));
        proof {
            let u = s@.subrange(pos as int, n as int);
            assert forall|k: int| 0 <= k < j - pos implies u[k] != '\n' by {
                assert(u[k] == s@[pos + k]);
            }
            if (j as int) < n as int {
                assert(u[j - pos] == s@[j as int]);
            }
            lemma_line_break_is(u, j - pos);
            if (j as int) < n as int {
                assert(u.subrange(0, j - pos) =~= line@);
                assert(u.subrange(j - pos + 1, u.len() as int) =~= s@.subrange(
                    j + 1,
                    n as int,
                ));
                assert(split_lines_spec(u) == seq![line@] + split_lines_spec(
                    s@.subrange(j + 1, n as int),
                ));
            } else {
                assert(u =~= line@);
                assert(split_lines_spec(u) == seq![line@]);
            }
        }
        r.push(line);
        if j < n {
            pos = j + 1;
        } else {
            pos = n;
            proof {
                assert(s@.subrange(n as int, n as int) =~= Seq::<char>::empty());
            }
        }
        proof {
            assert(r@.map_values(|x: String| x@) =~= prev + seq![line@]);
        }
    }
    proof {
        assert(s@.subrange(n as int, n as int) =~= Seq::<char>::empty());
    }
    r
}

} // verus!
