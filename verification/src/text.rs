//! Small executable helpers on strings, verified character by character.

use vstd::prelude::*;

verus! {

/// Character-wise string equality; `==` on the views is what callers reason with.
pub fn str_eq(a: &str, b: &str) -> (r: bool)
    ensures
        r == (a@ == b@),
{
    let alen = a.unicode_len();
    let blen = b.unicode_len();
    if alen != blen {
        return false;
    }
    let mut i: usize = 0;
    while i < alen
        invariant
            i <= alen,
            alen == a@.len(),
            alen == b@.len(),
            forall|j: int| 0 <= j < i ==> a@[j] == b@[j],
        decreases alen - i,
    {
        if a.get_char(i) != b.get_char(i) {
            return false;
        }
        i = i + 1;
    }
    proof {
        assert(a@ =~= b@);
    }
    true
}

/// Index of the first occurrence of `c`, or the length of `s` when absent.
pub open spec fn first_ix(s: Seq<char>, c: char) -> int
    decreases s.len(),
{
    if s.len() == 0 {
        0
    } else if s[0] == c {
        0
    } else {
        1 + first_ix(s.skip(1), c)
    }
}

pub proof fn lemma_first_ix(s: Seq<char>, c: char)
    ensures
        0 <= first_ix(s, c) <= s.len(),
        first_ix(s, c) < s.len() ==> s[first_ix(s, c)] == c,
        forall|j: int| 0 <= j < first_ix(s, c) ==> s[j] != c,
    decreases s.len(),
{
    if s.len() == 0 {
    } else if s[0] == c {
    } else {
        lemma_first_ix(s.skip(1), c);
        assert forall|j: int| 0 <= j < first_ix(s, c) implies s[j] != c by {
            if j >= 1 {
                assert(s.skip(1)[j - 1] == s[j]);
            }
        }
        if first_ix(s, c) < s.len() {
            assert(s.skip(1)[first_ix(s.skip(1), c)] == s[first_ix(s, c)]);
        }
    }
}

/// Scan for `c`; the result is exactly `first_ix(s@, c)`.
pub fn find_char(s: &str, c: char) -> (r: usize)
    ensures
        r == first_ix(s@, c),
        r <= s@.len(),
        r < s@.len() ==> s@[r as int] == c,
        forall|j: int| 0 <= j < r ==> s@[j] != c,
{
    let len = s.unicode_len();
    let mut i: usize = 0;
    while i < len
        invariant
            i <= len,
            len == s@.len(),
            forall|j: int| 0 <= j < i ==> s@[j] != c,
        decreases len - i,
    {
        if s.get_char(i) == c {
            proof {
                lemma_first_ix(s@, c);
                if first_ix(s@, c) < i as int {
                    assert(s@[first_ix(s@, c)] != c);
                    assert(false);
                }
                if first_ix(s@, c) > i as int {
                    assert(s@[i as int] != c);
                    assert(false);
                }
            }
            return i;
        }
        i = i + 1;
    }
    proof {
        lemma_first_ix(s@, c);
        if first_ix(s@, c) < len as int {
            assert(s@[first_ix(s@, c)] != c);
            assert(false);
        }
    }
    len
}

/// A line terminated by `'\n'` loses one trailing `'\r'`; the last line keeps it.
pub open spec fn chomp_cr(l: Seq<char>) -> Seq<char> {
    if l.len() > 0 && l.last() == '\r' {
        l.drop_last()
    } else {
        l
    }
}

/// The lines of `s`: split at `'\n'`, each split-off line losing one trailing
/// `'\r'`; a final line ending produces no empty last line.
pub open spec fn spec_lines(s: Seq<char>) -> Seq<Seq<char>>
    decreases s.len(),
{
    if s.len() == 0 {
        Seq::empty()
    } else {
        let i = first_ix(s, '\n');
        if 0 <= i && i < s.len() {
            seq![chomp_cr(s.take(i))] + spec_lines(s.skip(i + 1))
        } else {
            seq![s]
        }
    }
}

/// Split into lines as `spec_lines` describes.
pub fn split_lines(s: &str) -> (lines: Vec<String>)
    ensures
        lines@.map_values(|l: String| l@) == spec_lines(s@),
{
    let mut lines: Vec<String> = Vec::new();
    let mut rest: &str = s;
    while rest.unicode_len() != 0
        invariant
            lines@.map_values(|l: String| l@) + spec_lines(rest@) == spec_lines(s@),
        decreases rest@.len(),
    {
        let len = rest.unicode_len();
        let i = find_char(rest, '\n');
        let ghost prev_lines = lines@;
        let ghost prev_rest = rest@;
        if i == len {
            lines.push(String::from_str(rest));
            rest = rest.substring_char(len, len);
            proof {
                assert(rest@ =~= Seq::<char>::empty());
                assert(spec_lines(prev_rest) =~= seq![prev_rest]);
                assert(lines@.map_values(|l: String| l@) =~= prev_lines.map_values(|l: String| l@)
                    .push(prev_rest));
                assert(lines@.map_values(|l: String| l@) + spec_lines(rest@) =~= prev_lines
                    .map_values(|l: String| l@) + spec_lines(prev_rest));
            }
        } else {
            let line_end: usize = if i > 0 && rest.get_char(i - 1) == '\r' {
                i - 1
            } else {
                i
            };
            let line = rest.substring_char(0, line_end);
            lines.push(String::from_str(line));
            rest = rest.substring_char(i + 1, len);
            proof {
                assert(rest@ =~= prev_rest.skip(i + 1));
                assert(line@ =~= chomp_cr(prev_rest.take(i as int)));
                assert(lines@.map_values(|l: String| l@) =~= prev_lines.map_values(|l: String| l@)
                    .push(line@));
                assert(spec_lines(prev_rest) == seq![chomp_cr(prev_rest.take(i as int))]
                    + spec_lines(prev_rest.skip(i + 1)));
                assert(lines@.map_values(|l: String| l@) + spec_lines(rest@) =~= prev_lines
                    .map_values(|l: String| l@) + spec_lines(prev_rest));
            }
        }
    }
    proof {
        assert(spec_lines(rest@) =~= Seq::<Seq<char>>::empty());
        assert(lines@.map_values(|l: String| l@) + spec_lines(rest@) =~= lines@.map_values(
            |l: String| l@,
        ));
    }
    lines
}

/// The token separators of a request line: space and horizontal tab.
pub open spec fn is_ws(c: char) -> bool {
    c == ' ' || c == '\t'
}

/// Index of the first separator character, or the length of `s` when none.
pub open spec fn first_ws(s: Seq<char>) -> int
    decreases s.len(),
{
    if s.len() == 0 {
        0
    } else if is_ws(s[0]) {
        0
    } else {
        1 + first_ws(s.skip(1))
    }
}

pub proof fn lemma_first_ws(s: Seq<char>)
    ensures
        0 <= first_ws(s) <= s.len(),
        first_ws(s) < s.len() ==> is_ws(s[first_ws(s)]),
        forall|j: int| 0 <= j < first_ws(s) ==> !is_ws(s[j]),
    decreases s.len(),
{
    if s.len() == 0 {
    } else if is_ws(s[0]) {
    } else {
        lemma_first_ws(s.skip(1));
        assert forall|j: int| 0 <= j < first_ws(s) implies !is_ws(s[j]) by {
            if j >= 1 {
                assert(s.skip(1)[j - 1] == s[j]);
            }
        }
        if first_ws(s) < s.len() {
            assert(s.skip(1)[first_ws(s.skip(1))] == s[first_ws(s)]);
        }
    }
}

/// Scan for the first separator; the result is exactly `first_ws(s@)`.
pub fn find_ws(s: &str) -> (r: usize)
    ensures
        r == first_ws(s@),
        r <= s@.len(),
        r < s@.len() ==> is_ws(s@[r as int]),
        forall|j: int| 0 <= j < r ==> !is_ws(s@[j]),
{
    let len = s.unicode_len();
    let mut i: usize = 0;
    while i < len
        invariant
            i <= len,
            len == s@.len(),
            forall|j: int| 0 <= j < i ==> !is_ws(s@[j]),
        decreases len - i,
    {
        let c = s.get_char(i);
        if c == ' ' || c == '\t' {
            proof {
                lemma_first_ws(s@);
                if first_ws(s@) < i as int {
                    assert(!is_ws(s@[first_ws(s@)]));
                    assert(false);
                }
                if first_ws(s@) > i as int {
                    assert(!is_ws(s@[i as int]));
                    assert(false);
                }
            }
            return i;
        }
        i = i + 1;
    }
    proof {
        lemma_first_ws(s@);
        if first_ws(s@) < len as int {
            assert(!is_ws(s@[first_ws(s@)]));
            assert(false);
        }
    }
    len
}

/// The separator-delimited tokens of `s`, leading and trailing runs ignored.
pub open spec fn ws_tokens(s: Seq<char>) -> Seq<Seq<char>>
    decreases s.len(),
{
    if s.len() == 0 {
        Seq::empty()
    } else if is_ws(s[0]) {
        ws_tokens(s.skip(1))
    } else {
        let i = first_ws(s);
        if 0 < i && i < s.len() {
            seq![s.take(i)] + ws_tokens(s.skip(i))
        } else {
            seq![s]
        }
    }
}

/// Split into separator-delimited tokens as `ws_tokens` describes.
pub fn split_tokens(s: &str) -> (toks: Vec<String>)
    ensures
        toks@.map_values(|t: String| t@) == ws_tokens(s@),
{
    let mut toks: Vec<String> = Vec::new();
    let mut rest: &str = s;
    while rest.unicode_len() != 0
        invariant
            toks@.map_values(|t: String| t@) + ws_tokens(rest@) == ws_tokens(s@),
        decreases rest@.len(),
    {
        let len = rest.unicode_len();
        let ghost prev_toks = toks@;
        let ghost prev_rest = rest@;
        let c = rest.get_char(0);
        if c == ' ' || c == '\t' {
            rest = rest.substring_char(1, len);
            proof {
                assert(rest@ =~= prev_rest.skip(1));
            }
        } else {
            let i = find_ws(rest);
            if i == len {
                toks.push(String::from_str(rest));
                rest = rest.substring_char(len, len);
                proof {
                    assert(rest@ =~= Seq::<char>::empty());
                    assert(ws_tokens(prev_rest) =~= seq![prev_rest]);
                    assert(toks@.map_values(|t: String| t@) =~= prev_toks.map_values(
                        |t: String| t@,
                    ).push(prev_rest));
                    assert(toks@.map_values(|t: String| t@) + ws_tokens(rest@) =~= prev_toks
                        .map_values(|t: String| t@) + ws_tokens(prev_rest));
                }
            } else {
                let tok = rest.substring_char(0, i);
                toks.push(String::from_str(tok));
                rest = rest.substring_char(i, len);
                proof {
                    assert(rest@ =~= prev_rest.skip(i as int));
                    assert(tok@ =~= prev_rest.take(i as int));
                    assert(0 < i);
                    assert(ws_tokens(prev_rest) == seq![prev_rest.take(i as int)] + ws_tokens(
                        prev_rest.skip(i as int),
                    ));
                    assert(toks@.map_values(|t: String| t@) =~= prev_toks.map_values(
                        |t: String| t@,
                    ).push(tok@));
                    assert(toks@.map_values(|t: String| t@) + ws_tokens(rest@) =~= prev_toks
                        .map_values(|t: String| t@) + ws_tokens(prev_rest));
                }
            }
        }
    }
    proof {
        assert(ws_tokens(rest@) =~= Seq::<Seq<char>>::empty());
        assert(toks@.map_values(|t: String| t@) + ws_tokens(rest@) =~= toks@.map_values(
            |t: String| t@,
        ));
    }
    toks
}

/// Lines rejoined with a bare `'\n'` between them.
pub open spec fn join_nl(ls: Seq<Seq<char>>) -> Seq<char>
    decreases ls.len(),
{
    if ls.len() == 0 {
        Seq::empty()
    } else if ls.len() == 1 {
        ls[0]
    } else {
        join_nl(ls.drop_last()) + seq!['\n'] + ls.last()
    }
}

/// Join `ls[from..]` with `'\n'` between the lines.
pub fn join_lines(ls: &Vec<String>, from: usize) -> (r: String)
    requires
        from <= ls@.len(),
    ensures
        r@ == join_nl(ls@.map_values(|l: String| l@).skip(from as int)),
{
    let ghost views = ls@.map_values(|l: String| l@);
    let mut out = String::new();
    let n = ls.len();
    let mut i: usize = from;
    while i < n
        invariant
            from <= i <= n,
            n == ls@.len(),
            views == ls@.map_values(|l: String| l@),
            out@ == join_nl(views.subrange(from as int, i as int)),
        decreases n - i,
    {
        if i > from {
            out.append("\n");
            proof {
                reveal_strlit("\n");
                assert(("\n")@ =~= seq!['\n']);
            }
        }
        out.append(ls[i].as_str());
        proof {
            let sub = views.subrange(from as int, i + 1);
            assert(sub.drop_last() =~= views.subrange(from as int, i as int));
            assert(sub.last() == views[i as int]);
            if i > from {
                assert(sub.len() > 1);
            } else {
                assert(sub.len() == 1);
                assert(sub[0] == views[i as int]);
            }
        }
        i = i + 1;
    }
    proof {
        assert(views.subrange(from as int, n as int) =~= views.skip(from as int));
    }
    out
}

/// A line that the parser treats as blank: every character is whitespace.
pub open spec fn is_blank(l: Seq<char>) -> bool {
    forall|i: int| 0 <= i < l.len() ==> is_trim_ws(#[trigger] l[i])
}

/// Whitespace for blank-line detection.
pub open spec fn is_trim_ws(c: char) -> bool {
    c == ' ' || c == '\t' || c == '\r' || c == '\n'
}

/// The character for one decimal digit.
pub open spec fn digit_char(d: nat) -> char {
    if d == 0 {
        '0'
    } else if d == 1 {
        '1'
    } else if d == 2 {
        '2'
    } else if d == 3 {
        '3'
    } else if d == 4 {
        '4'
    } else if d == 5 {
        '5'
    } else if d == 6 {
        '6'
    } else if d == 7 {
        '7'
    } else if d == 8 {
        '8'
    } else {
        '9'
    }
}

/// The decimal rendering of `n`, most significant digit first.
pub open spec fn spec_digits(n: nat) -> Seq<char>
    decreases n,
{
    if n < 10 {
        seq![digit_char(n)]
    } else {
        spec_digits(n / 10) + seq![digit_char(n % 10)]
    }
}

/// Append the decimal rendering of `n`.
pub fn push_digits(n: u64, out: &mut String)
    ensures
        final(out)@ == old(out)@ + spec_digits(n as nat),
    decreases n,
{
    if n >= 10 {
        push_digits(n / 10, out);
    }
    let ghost mid = out@;
    let d = n % 10;
    if d == 0 {
        out.append("0");
    } else if d == 1 {
        out.append("1");
    } else if d == 2 {
        out.append("2");
    } else if d == 3 {
        out.append("3");
    } else if d == 4 {
        out.append("4");
    } else if d == 5 {
        out.append("5");
    } else if d == 6 {
        out.append("6");
    } else if d == 7 {
        out.append("7");
    } else if d == 8 {
        out.append("8");
    } else {
        out.append("9");
    }
    proof {
        reveal_strlit("0");
        reveal_strlit("1");
        reveal_strlit("2");
        reveal_strlit("3");
        reveal_strlit("4");
        reveal_strlit("5");
        reveal_strlit("6");
        reveal_strlit("7");
        reveal_strlit("8");
        reveal_strlit("9");
        assert(out@ =~= mid + seq![digit_char((n % 10) as nat)]);
        if n >= 10 {
            assert(mid == old(out)@ + spec_digits((n / 10) as nat));
            assert(out@ =~= old(out)@ + (spec_digits((n / 10) as nat) + seq![digit_char(
                (n % 10) as nat,
            )]));
        } else {
            assert(spec_digits(n as nat) =~= seq![digit_char(n as nat)]);
            assert(out@ =~= old(out)@ + spec_digits(n as nat));
        }
    }
}

/// The decimal rendering of `n` as an owned string.
pub fn u64_to_string(n: u64) -> (r: String)
    ensures
        r@ == spec_digits(n as nat),
{
    let mut out = String::new();
    push_digits(n, &mut out);
    proof {
        assert(out@ =~= spec_digits(n as nat));
    }
    out
}

/// Decide whether a line is blank.
pub fn is_blank_line(l: &str) -> (r: bool)
    ensures
        r == is_blank(l@),
{
    let len = l.unicode_len();
    let mut i: usize = 0;
    while i < len
        invariant
            i <= len,
            len == l@.len(),
            forall|j: int| 0 <= j < i ==> is_trim_ws(#[trigger] l@[j]),
        decreases len - i,
    {
        let c = l.get_char(i);
        if !(c == ' ' || c == '\t' || c == '\r' || c == '\n') {
            return false;
        }
        i = i + 1;
    }
    true
}

} // verus!
