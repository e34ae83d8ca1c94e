//! Character-level text helpers: equality, prefix tests, and the
//! line-oriented split/join that the SSH merger and the JSON codec build on.
//! A "line" never contains `'\n'`; joining appends one `'\n'` after every
//! line, and splitting cuts at every `'\n'`.

use vstd::prelude::*;

verus! {

/// `pre` occurs at the start of `s`.
pub open spec fn has_prefix(s: Seq<char>, pre: Seq<char>) -> bool {
    pre.len() <= s.len() && s.subrange(0, pre.len() as int) == pre
}

/// `c` occurs somewhere in `s`.
pub open spec fn seq_has_char(s: Seq<char>, c: char) -> bool {
    exists|i: int| 0 <= i < s.len() && s[i] == c
}

/// Character-for-character equality of two string slices.
pub fn str_eq(a: &str, b: &str) -> (r: bool)
    ensures
        r == (a@ == b@),
{
    let alen = a.unicode_len();
    let blen = b.unicode_len();
    if alen != blen {
        return false;
    }
    let mut i: usize = 0;
    while i < alen
        invariant
            alen == a@.len(),
            alen == b@.len(),
            i <= alen,
            forall|j: int| 0 <= j < i ==> a@[j] == b@[j],
        decreases alen - i,
    {
        if a.get_char(i) != b.get_char(i) {
            return false;
        }
        i = i + 1;
    }
    proof {
        assert(a@ =~= b@);
    }
    true
}

/// Executable prefix test, tied to `has_prefix`.
pub fn starts_with_str(s: &str, pre: &str) -> (r: bool)
    ensures
        r == has_prefix(s@, pre@),
{
    let slen = s.unicode_len();
    let plen = pre.unicode_len();
    if plen > slen {
        return false;
    }
    let mut i: usize = 0;
    while i < plen
        invariant
            slen == s@.len(),
            plen == pre@.len(),
            plen <= slen,
            i <= plen,
            forall|j: int| 0 <= j < i ==> s@[j] == pre@[j],
        decreases plen - i,
    {
        if s.get_char(i) != pre.get_char(i) {
            proof {
                assert(s@.subrange(0, pre@.len() as int)[i as int] == s@[i as int]);
            }
            return false;
        }
        i = i + 1;
    }
    proof {
        assert(s@.subrange(0, pre@.len() as int) =~= pre@);
    }
    true
}

/// Position of the first occurrence of `c` in `s`, if any.
pub fn find_first_char(s: &str, c: char) -> (r: Option<usize>)
    ensures
        match r {
            Some(k) => k < s@.len() && s@[k as int] == c && forall|j: int|
                0 <= j < k ==> s@[j] != c,
            None => forall|j: int| 0 <= j < s@.len() ==> s@[j] != c,
        },
{
    let n = s.unicode_len();
    let mut i: usize = 0;
    while i < n
        invariant
            n == s@.len(),
            i <= n,
            forall|j: int| 0 <= j < i ==> s@[j] != c,
        decreases n - i,
    {
        if s.get_char(i) == c {
            return Some(i);
        }
        i = i + 1;
    }
    None
}

/// Position of the last occurrence of `c` in `s`, if any.
pub fn find_last_char(s: &str, c: char) -> (r: Option<usize>)
    ensures
        match r {
            Some(k) => k < s@.len() && s@[k as int] == c && forall|j: int|
                k < j < s@.len() ==> s@[j] != c,
            None => forall|j: int| 0 <= j < s@.len() ==> s@[j] != c,
        },
{
    let n = s.unicode_len();
    let mut i: usize = n;
    while i > 0
        invariant
            n == s@.len(),
            i <= n,
            forall|j: int| i <= j < n ==> s@[j] != c,
        decreases i,
    {
        i = i - 1;
        if s.get_char(i) == c {
            return Some(i);
        }
    }
    None
}

/// Relies on `String::push`: appends exactly the one character.
#[verifier::external_body]
pub fn push_char(s: &mut String, c: char)
    ensures
        final(s)@ == old(s)@.push(c),
{
    s.push(c);
}

/// The lines of `s`, cut at every `'\n'`; a trailing segment is kept only
/// when it is nonempty, so `"a\n"` and `"a"` both split into one line.
pub open spec fn split_lines_spec(s: Seq<char>) -> Seq<Seq<char>>
    decreases s.len(),
{
    if s.len() == 0 {
        Seq::empty()
    } else if s[0] == '\n' {
        seq![Seq::<char>::empty()] + split_lines_spec(s.skip(1))
    } else {
        let rest = split_lines_spec(s.skip(1));
        if rest.len() == 0 {
            seq![seq![s[0]]]
        } else {
            seq![seq![s[0]] + rest[0]] + rest.skip(1)
        }
    }
}

/// Every line followed by one `'\n'`.
pub open spec fn join_lines_spec(ls: Seq<Seq<char>>) -> Seq<char>
    decreases ls.len(),
{
    if ls.len() == 0 {
        Seq::empty()
    } else {
        ls[0] + seq!['\n'] + join_lines_spec(ls.skip(1))
    }
}

/// No line of `ls` contains a `'\n'`.
pub open spec fn newline_free(ls: Seq<Seq<char>>) -> bool {
    forall|i: int| 0 <= i < ls.len() ==> !seq_has_char(#[trigger] ls[i], '\n')
}

/// Splitting takes a leading newline-free line (plus its `'\n'`) off the front.
pub proof fn lemma_split_line(l: Seq<char>, t: Seq<char>)
    requires
        !seq_has_char(l, '\n'),
    ensures
        split_lines_spec(l + seq!['\n'] + t) == seq![l] + split_lines_spec(t),
    decreases l.len(),
{
    if l.len() == 0 {
        assert(l =~= Seq::<char>::empty());
        assert(l + seq!['\n'] + t =~= seq!['\n'] + t);
        assert((seq!['\n'] + t)[0] == '\n');
        assert((seq!['\n'] + t).skip(1) =~= t);
        assert(seq![Seq::<char>::empty()] + split_lines_spec(t) =~= seq![l] + split_lines_spec(t));
    } else {
        let s = l + seq!['\n'] + t;
        assert(s[0] == l[0]);
        assert(s[0] != '\n');
        assert(s.skip(1) =~= l.skip(1) + seq!['\n'] + t);
        assert(!seq_has_char(l.skip(1), '\n')) by {
            assert(forall|i: int| 0 <= i < l.skip(1).len() ==> l.skip(1)[i] == l[i + 1]);
        }
        lemma_split_line(l.skip(1), t);
        let rest = split_lines_spec(l.skip(1) + seq!['\n'] + t);
        assert(rest == seq![l.skip(1)] + split_lines_spec(t));
        assert(rest.len() > 0);
        assert(rest[0] == l.skip(1));
        assert(seq![s[0]] + rest[0] =~= l);
        assert(rest.skip(1) =~= split_lines_spec(t));
        assert(split_lines_spec(s) =~= seq![l] + split_lines_spec(t));
    }
}

/// A nonempty newline-free text is a single line.
pub proof fn lemma_split_last(l: Seq<char>)
    requires
        !seq_has_char(l, '\n'),
        l.len() > 0,
    ensures
        split_lines_spec(l) == seq![l],
    decreases l.len(),
{
    assert(l[0] != '\n');
    if l.len() == 1 {
        assert(l.skip(1) =~= Seq::<char>::empty());
        assert(split_lines_spec(Seq::<char>::empty()) =~= Seq::<Seq<char>>::empty());
        assert(seq![l[0]] =~= l);
        assert(seq![seq![l[0]]] =~= seq![l]);
    } else {
        assert(!seq_has_char(l.skip(1), '\n')) by {
            assert(forall|i: int| 0 <= i < l.skip(1).len() ==> l.skip(1)[i] == l[i + 1]);
        }
        lemma_split_last(l.skip(1));
        let rest = split_lines_spec(l.skip(1));
        assert(rest == seq![l.skip(1)]);
        assert(seq![l[0]] + rest[0] =~= l);
        assert(rest.skip(1) =~= Seq::<Seq<char>>::empty());
        assert(split_lines_spec(l) =~= seq![l]);
    }
}

/// Splitting a joined text recovers the lines exactly.
pub proof fn lemma_split_join(ls: Seq<Seq<char>>)
    requires
        newline_free(ls),
    ensures
        split_lines_spec(join_lines_spec(ls)) == ls,
    decreases ls.len(),
{
    if ls.len() == 0 {
    } else {
        assert(!seq_has_char(ls[0], '\n'));
        lemma_split_line(ls[0], join_lines_spec(ls.skip(1)));
        assert(newline_free(ls.skip(1))) by {
            assert(forall|i: int| 0 <= i < ls.skip(1).len() ==> ls.skip(1)[i] == ls[i + 1]);
        }
        lemma_split_join(ls.skip(1));
        assert(seq![ls[0]] + ls.skip(1) =~= ls);
    }
}

/// Every line produced by a split is newline-free.
pub proof fn lemma_split_newline_free(s: Seq<char>)
    ensures
        newline_free(split_lines_spec(s)),
    decreases s.len(),
{
    if s.len() == 0 {
    } else if s[0] == '\n' {
        lemma_split_newline_free(s.skip(1));
        let out = seq![Seq::<char>::empty()] + split_lines_spec(s.skip(1));
        assert(forall|i: int|
            1 <= i < out.len() ==> out[i] == split_lines_spec(s.skip(1))[i - 1]);
        assert(!seq_has_char(out[0], '\n'));
    } else {
        lemma_split_newline_free(s.skip(1));
        let rest = split_lines_spec(s.skip(1));
        if rest.len() == 0 {
            let out = seq![seq![s[0]]];
            assert(!seq_has_char(out[0], '\n'));
        } else {
            let out = seq![seq![s[0]] + rest[0]] + rest.skip(1);
            assert(!seq_has_char(rest[0], '\n'));
            assert(!seq_has_char(out[0], '\n')) by {
                assert(forall|i: int|
                    1 <= i < out[0].len() ==> out[0][i] == rest[0][i - 1]);
            }
            assert(forall|i: int| 1 <= i < out.len() ==> out[i] == rest[i]);
        }
    }
}

/// Cut a string into its lines.
pub fn split_lines(s: &str) -> (r: Vec<String>)
    ensures
        r.deep_view() == split_lines_spec(s@),
{
    let n = s.unicode_len();
    let mut out: Vec<String> = Vec::new();
    let mut line = String::new();
    let mut i: usize = 0;
    proof {
        assert(line@ + s@.skip(0) =~= s@);
        assert(out.deep_view() + split_lines_spec(s@) =~= split_lines_spec(s@));
    }
    while i < n
        invariant
            n == s@.len(),
            i <= n,
            !seq_has_char(line@, '\n'),
            split_lines_spec(s@) == out.deep_view() + split_lines_spec(line@ + s@.skip(i as int)),
        decreases n - i,
    {
        let ghost line0 = line@;
        let ghost out0 = out.deep_view();
        let c = s.get_char(i);
        proof {
            assert(s@.skip(i as int) =~= seq![s@[i as int]] + s@.skip(i as int + 1));
        }
        if c == '\n' {
            proof {
                assert(line0 + s@.skip(i as int) =~= line0 + seq!['\n'] + s@.skip(i as int + 1));
                lemma_split_line(line0, s@.skip(i as int + 1));
            }
            let finished = line;
            line = String::new();
            out.push(finished);
            proof {
                assert(out.deep_view() =~= out0.push(line0));
                assert(line@ + s@.skip(i as int + 1) =~= s@.skip(i as int + 1));
                assert(out0 + (seq![line0] + split_lines_spec(s@.skip(i as int + 1))) =~= out
                    .deep_view() + split_lines_spec(s@.skip(i as int + 1)));
            }
        } else {
            push_char(&mut line, c);
            proof {
                assert(line@ =~= line0.push(c));
                assert(!seq_has_char(line@, '\n'));
                assert(line0 + s@.skip(i as int) =~= line@ + s@.skip(i as int + 1));
            }
        }
        i = i + 1;
    }
    if line.unicode_len() > 0 {
        proof {
            assert(line@ + s@.skip(n as int) =~= line@);
            lemma_split_last(line@);
        }
        let ghost out0 = out.deep_view();
        let ghost line0 = line@;
        out.push(line);
        proof {
            assert(out.deep_view() =~= out0.push(line0));
            assert(out0 + seq![line0] =~= out.deep_view());
        }
    } else {
        proof {
            assert(line@ + s@.skip(n as int) =~= Seq::<char>::empty());
            assert(out.deep_view() + split_lines_spec(Seq::<char>::empty()) =~= out.deep_view());
        }
    }
    out
}

/// Join lines, one `'\n'` after each.
pub fn join_lines(ls: &Vec<String>) -> (r: String)
    ensures
        r@ == join_lines_spec(ls.deep_view()),
{
    let mut r = String::new();
    let mut i: usize = 0;
    proof {
        assert(ls.deep_view().skip(0) =~= ls.deep_view());
        assert(r@ + join_lines_spec(ls.deep_view()) =~= join_lines_spec(ls.deep_view()));
    }
    while i < ls.len()
        invariant
            i <= ls@.len(),
            join_lines_spec(ls.deep_view()) == r@ + join_lines_spec(
                ls.deep_view().skip(i as int)),
        decreases ls@.len() - i,
    {
        r.append(ls[i].as_str());
        push_char(&mut r, '\n');
        proof {
            let dv = ls.deep_view();
            assert(dv.skip(i as int)[0] == dv[i as int]);
            assert(dv.skip(i as int).skip(1) =~= dv.skip(i as int + 1));
            assert(r@ + join_lines_spec(dv.skip(i as int + 1)) =~= join_lines_spec(dv));
        }
        i = i + 1;
    }
    proof {
        assert(ls.deep_view().skip(ls@.len() as int) =~= Seq::<Seq<char>>::empty());
    }
    r
}


/// Leading whitespace characters of `s`.
pub open spec fn leading_ws(s: Seq<char>) -> int
    decreases s.len(),
{
    if s.len() == 0 {
        0
    } else if crate::validator::is_space_char(s[0]) {
        1 + leading_ws(s.skip(1))
    } else {
        0
    }
}

/// Trailing whitespace characters of `s`.
pub open spec fn trailing_ws(s: Seq<char>) -> int
    decreases s.len(),
{
    if s.len() == 0 {
        0
    } else if crate::validator::is_space_char(s.last()) {
        1 + trailing_ws(s.take(s.len() - 1))
    } else {
        0
    }
}

/// `s` with leading and trailing whitespace removed.
pub open spec fn trim_spec(s: Seq<char>) -> Seq<char> {
    let a = leading_ws(s);
    let b = s.len() - trailing_ws(s);
    if a <= b {
        s.subrange(a, b)
    } else {
        Seq::empty()
    }
}

proof fn lemma_leading_ws_unique(s: Seq<char>, k: int)
    requires
        0 <= k <= s.len(),
        forall|j: int| 0 <= j < k ==> crate::validator::is_space_char(#[trigger] s[j]),
        k < s.len() ==> !crate::validator::is_space_char(s[k]),
    ensures
        leading_ws(s) == k,
    decreases s.len(),
{
    if k == 0 {
    } else {
        let rest = s.skip(1);
        assert(forall|j: int| 0 <= j < rest.len() ==> rest[j] == s[j + 1]);
        lemma_leading_ws_unique(rest, k - 1);
    }
}

proof fn lemma_trailing_ws_unique(s: Seq<char>, k: int)
    requires
        0 <= k <= s.len(),
        forall|j: int| s.len() - k <= j < s.len() ==> crate::validator::is_space_char(#[trigger] s[j]),
        k < s.len() ==> !crate::validator::is_space_char(s[s.len() - k - 1]),
    ensures
        trailing_ws(s) == k,
    decreases s.len(),
{
    if k == 0 {
    } else {
        let head = s.take(s.len() - 1);
        assert(crate::validator::is_space_char(s.last()));
        assert(forall|j: int| 0 <= j < head.len() ==> head[j] == s[j]);
        lemma_trailing_ws_unique(head, k - 1);
    }
}

/// Remove leading and trailing whitespace.
pub fn trim_str(s: &str) -> (r: String)
    ensures
        r@ == trim_spec(s@),
{
    let n = s.unicode_len();
    let mut a: usize = 0;
    while a < n && crate::validator::ch_is_space(s.get_char(a))
        invariant
            n == s@.len(),
            a <= n,
            forall|j: int| 0 <= j < a ==> crate::validator::is_space_char(#[trigger] s@[j]),
        decreases n - a,
    {
        a = a + 1;
    }
    if a == n {
        proof {
            lemma_leading_ws_unique(s@, n as int);
            lemma_trailing_ws_unique(s@, n as int);
        }
        return String::new();
    }
    let mut b: usize = n;
    while b > a && crate::validator::ch_is_space(s.get_char(b - 1))
        invariant
            n == s@.len(),
            a < n,
            !crate::validator::is_space_char(s@[a as int]),
            forall|j: int| 0 <= j < a ==> crate::validator::is_space_char(#[trigger] s@[j]),
            a <= b <= n,
            forall|j: int| b <= j < n ==> crate::validator::is_space_char(#[trigger] s@[j]),
        decreases b,
    {
        b = b - 1;
    }
    proof {
        lemma_leading_ws_unique(s@, a as int);
        assert(b > a);
        assert(!crate::validator::is_space_char(s@[b - 1]));
        lemma_trailing_ws_unique(s@, n - b as int);
    }
    let piece = s.substring_char(a, b);
    piece.to_owned()
}

} // verus!
