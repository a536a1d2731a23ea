//! Whitespace tokenization of text lines, with the join/split round-trip
//! lemma that the mountinfo formatter relies on.

use vstd::prelude::*;

verus! {

/// Is `c` a separator between tokens?
pub open spec fn is_ws(c: char) -> bool {
    c == ' ' || c == '\t' || c == '\n' || c == '\r'
}

/// Length of the leading run of non-separator characters.
pub open spec fn token_end(s: Seq<char>) -> int
    decreases s.len(),
{
    if s.len() == 0 {
        0
    } else if is_ws(s[0]) {
        0
    } else {
        1 + token_end(s.drop_first())
    }
}

pub proof fn lemma_token_end_bounds(s: Seq<char>)
    ensures
        0 <= token_end(s) <= s.len(),
        forall|i: int| 0 <= i < token_end(s) ==> !is_ws(s[i]),
        token_end(s) < s.len() ==> is_ws(s[token_end(s)]),
    decreases s.len(),
{
    if s.len() > 0 && !is_ws(s[0]) {
        let t = s.drop_first();
        lemma_token_end_bounds(t);
        assert forall|i: int| 0 <= i < token_end(s) implies !is_ws(s[i]) by {
            if i > 0 {
                assert(s[i] == t[i - 1]);
                assert(!is_ws(t[i - 1]));
            }
        }
        if token_end(s) < s.len() {
            assert(s[token_end(s)] == t[token_end(t)]);
        }
    }
}

/// A run of non-separators followed by a separator or the end is the
/// leading token.
pub proof fn lemma_token_end_at(s: Seq<char>, j: int)
    requires
        0 <= j <= s.len(),
        forall|i: int| 0 <= i < j ==> !is_ws(s[i]),
        j < s.len() ==> is_ws(s[j]),
    ensures
        token_end(s) == j,
    decreases j,
{
    if j == 0 {
    } else {
        let t = s.drop_first();
        assert(forall|i: int| 0 <= i < j - 1 ==> t[i] == s[i + 1] && !is_ws(t[i]));
        if j - 1 < t.len() {
            assert(t[j - 1] == s[j]);
        }
        lemma_token_end_at(t, j - 1);
    }
}

/// The tokens of `s`: maximal runs of non-separator characters, in order.
pub open spec fn spec_tokens(s: Seq<char>) -> Seq<Seq<char>>
    decreases s.len(),
{
    if s.len() == 0 {
        Seq::empty()
    } else if is_ws(s[0]) {
        spec_tokens(s.drop_first())
    } else {
        let k = spec_token_split(s);
        seq![s.subrange(0, k)] + spec_tokens(s.subrange(k, s.len() as int))
    }
}

/// `token_end`, bounded for use inside `spec_tokens`'s recursion.
pub open spec fn spec_token_split(s: Seq<char>) -> int {
    if 1 <= token_end(s) <= s.len() {
        token_end(s)
    } else {
        1
    }
}

pub proof fn lemma_spec_token_split(s: Seq<char>)
    requires
        s.len() > 0,
        !is_ws(s[0]),
    ensures
        spec_token_split(s) == token_end(s),
        1 <= token_end(s) <= s.len(),
{
    lemma_token_end_bounds(s);
}

/// Tokenizing after a leading separator drops it.
pub proof fn lemma_tokens_skip_ws(s: Seq<char>)
    requires
        s.len() > 0,
        is_ws(s[0]),
    ensures
        spec_tokens(s) == spec_tokens(s.subrange(1, s.len() as int)),
{
    assert(s.drop_first() =~= s.subrange(1, s.len() as int));
}

/// Tokenizing at a token start yields that token and continues after it.
pub proof fn lemma_tokens_take_token(s: Seq<char>, j: int)
    requires
        0 < j <= s.len(),
        forall|i: int| 0 <= i < j ==> !is_ws(s[i]),
        j < s.len() ==> is_ws(s[j]),
    ensures
        spec_tokens(s) == seq![s.subrange(0, j)] + spec_tokens(s.subrange(j, s.len() as int)),
{
    lemma_token_end_at(s, j);
    lemma_spec_token_split(s);
}

/// Runtime test for a token separator.
pub fn is_separator(c: char) -> (r: bool)
    ensures
        r == is_ws(c),
{
    c == ' ' || c == '\t' || c == '\n' || c == '\r'
}

/// Split `s` into its whitespace-separated tokens.
pub fn split_tokens(s: &str) -> (r: Vec<String>)
    ensures
        r.deep_view() == spec_tokens(s@),
{
    let n = s.unicode_len();
    let mut r: Vec<String> = Vec::new();
    let mut i: usize = 0;
    proof {
        assert(r.deep_view() =~= Seq::<Seq<char>>::empty());
        assert(s@.subrange(0, n as int) =~= s@);
    }
    while i < n
        invariant
            0 <= i <= n,
            n == s@.len(),
            spec_tokens(s@) == r.deep_view() + spec_tokens(s@.subrange(i as int, n as int)),
        decreases n - i,
    {
        let c = s.get_char(i);
        if is_separator(c) {
            proof {
                let u = s@.subrange(i as int, n as int);
                lemma_tokens_skip_ws(u);
                assert(u.subrange(1, u.len() as int) =~= s@.subrange(i as int + 1, n as int));
            }
            i = i + 1;
        } else {
            let start: usize = i;
            let mut j: usize = i + 1;
            while j < n && !is_separator(s.get_char(j))
                invariant
                    start < j <= n,
                    n == s@.len(),
                    forall|k: int| start <= k < j ==> !is_ws(s@[k]),
                decreases n - j,
            {
                j = j + 1;
            }
            let tok = s.substring_char(start, j);
            let tok = String::from_str(tok);
            proof {
                let u = s@.subrange(start as int, n as int);
                assert(forall|k: int| 0 <= k < j - start ==> u[k] == s@[k + start] && !is_ws(
                    u[k],
                ));
                if j < n {
                    assert(u[j - start as int] == s@[j as int]);
                    assert(is_ws(u[j - start as int]));
                }
                lemma_tokens_take_token(u, j - start as int);
                assert(u.subrange(0, j - start as int) =~= s@.subrange(start as int, j as int));
                assert(u.subrange(j - start as int, u.len() as int) =~= s@.subrange(
                    j as int,
                    n as int,
                ));
                assert(tok@ == s@.subrange(start as int, j as int));
            }
            let ghost old_r = r.deep_view();
            r.push(tok);
            proof {
                assert(r.deep_view() =~= old_r + seq![tok@]);
                assert(old_r + (seq![tok@] + spec_tokens(s@.subrange(j as int, n as int)))
                    =~= (old_r + seq![tok@]) + spec_tokens(s@.subrange(j as int, n as int)));
            }
            i = j;
        }
    }
    proof {
        assert(s@.subrange(i as int, n as int) =~= Seq::<char>::empty());
        assert(spec_tokens(Seq::<char>::empty()) == Seq::<Seq<char>>::empty());
        assert(spec_tokens(s@) =~= r.deep_view());
    }
    r
}

/// Character-wise string equality.
pub fn str_eq(a: &str, b: &str) -> (r: bool)
    ensures
        r == (a@ == b@),
{
    let na = a.unicode_len();
    let nb = b.unicode_len();
    if na != nb {
        proof {
            assert(a@ != b@);
        }
        return false;
    }
    let mut i: usize = 0;
    while i < na
        invariant
            0 <= i <= na,
            na == a@.len(),
            na == b@.len(),
            forall|k: int| 0 <= k < i ==> a@[k] == b@[k],
        decreases na - i,
    {
        if a.get_char(i) != b.get_char(i) {
            proof {
                assert(a@[i as int] != b@[i as int]);
            }
            return false;
        }
        i = i + 1;
    }
    proof {
        assert(a@ =~= b@);
    }
    true
}

/// Join tokens into one line with single spaces between them.
pub fn join_tokens(toks: &Vec<String>) -> (r: String)
    requires
        toks.len() >= 1,
    ensures
        r@ == join_spaces(toks.deep_view()),
{
    let mut r: String = toks[0].clone();
    proof {
        assert(toks.deep_view().subrange(0, 1) =~= seq![toks.deep_view()[0]]);
        assert(join_spaces(seq![toks.deep_view()[0]]) == toks.deep_view()[0]);
    }
    let mut i: usize = 1;
    while i < toks.len()
        invariant
            1 <= i <= toks.len(),
            r@ == join_spaces(toks.deep_view().subrange(0, i as int)),
        decreases toks.len() - i,
    {
        proof {
            reveal_strlit(" ");
        }
        r.append(" ");
        r.append(toks[i].as_str());
        proof {
            let ts = toks.deep_view();
            lemma_join_push(ts.subrange(0, i as int), ts[i as int]);
            assert(ts.subrange(0, i as int).push(ts[i as int]) =~= ts.subrange(0, i as int + 1));
            assert(" "@ =~= seq![' ']);
        }
        i = i + 1;
    }
    proof {
        assert(toks.deep_view().subrange(0, toks.len() as int) =~= toks.deep_view());
    }
    r
}

/// Does `s` begin with `p`?
pub open spec fn spec_starts_with(s: Seq<char>, p: Seq<char>) -> bool {
    s.len() >= p.len() && s.subrange(0, p.len() as int) == p
}

/// Character-wise prefix test.
pub fn str_starts_with(s: &str, p: &str) -> (r: bool)
    ensures
        r == spec_starts_with(s@, p@),
{
    let np = p.unicode_len();
    let ns = s.unicode_len();
    if ns < np {
        return false;
    }
    let mut i: usize = 0;
    while i < np
        invariant
            0 <= i <= np,
            np == p@.len(),
            ns == s@.len(),
            np <= ns,
            forall|k: int| 0 <= k < i ==> s@[k] == p@[k],
        decreases np - i,
    {
        if s.get_char(i) != p.get_char(i) {
            proof {
                assert(s@.subrange(0, np as int)[i as int] != p@[i as int]);
            }
            return false;
        }
        i = i + 1;
    }
    proof {
        assert(s@.subrange(0, np as int) =~= p@);
    }
    true
}

/// Length of the leading run of whitespace.
pub open spec fn ws_prefix_len(s: Seq<char>) -> int
    decreases s.len(),
{
    if s.len() == 0 {
        0
    } else if !is_ws(s[0]) {
        0
    } else {
        1 + ws_prefix_len(s.drop_first())
    }
}

/// Index where the trailing run of whitespace begins.
pub open spec fn ws_suffix_start(s: Seq<char>) -> int
    decreases s.len(),
{
    if s.len() == 0 {
        0
    } else if !is_ws(s.last()) {
        s.len() as int
    } else {
        ws_suffix_start(s.drop_last())
    }
}

/// `s` with leading and trailing whitespace removed.
pub open spec fn spec_trim(s: Seq<char>) -> Seq<char> {
    let a = ws_prefix_len(s);
    let b = ws_suffix_start(s);
    if 0 <= a <= b <= s.len() {
        s.subrange(a, b)
    } else {
        Seq::empty()
    }
}

proof fn lemma_ws_prefix_at(s: Seq<char>, a: int)
    requires
        0 <= a <= s.len(),
        forall|k: int| 0 <= k < a ==> is_ws(s[k]),
        a < s.len() ==> !is_ws(s[a]),
    ensures
        ws_prefix_len(s) == a,
    decreases a,
{
    if a > 0 {
        let t = s.drop_first();
        assert(forall|k: int| 0 <= k < a - 1 ==> t[k] == s[k + 1] && is_ws(t[k]));
        if a - 1 < t.len() {
            assert(t[a - 1] == s[a]);
        }
        lemma_ws_prefix_at(t, a - 1);
    }
}

proof fn lemma_ws_suffix_at(s: Seq<char>, b: int)
    requires
        0 <= b <= s.len(),
        forall|k: int| b <= k < s.len() ==> is_ws(s[k]),
        b > 0 ==> !is_ws(s[b - 1]),
    ensures
        ws_suffix_start(s) == b,
    decreases s.len(),
{
    if s.len() > 0 {
        if b == s.len() {
        } else {
            assert(is_ws(s.last()));
            let t = s.drop_last();
            assert(forall|k: int| b <= k < t.len() ==> t[k] == s[k] && is_ws(t[k]));
            if b > 0 {
                assert(t[b - 1] == s[b - 1]);
            }
            lemma_ws_suffix_at(t, b);
        }
    }
}

/// Remove leading and trailing whitespace.
pub fn trim(s: &str) -> (r: &str)
    ensures
        r@ == spec_trim(s@),
{
    let n = s.unicode_len();
    let mut a: usize = 0;
    while a < n && is_separator(s.get_char(a))
        invariant
            0 <= a <= n,
            n == s@.len(),
            forall|k: int| 0 <= k < a ==> is_ws(s@[k]),
        decreases n - a,
    {
        a = a + 1;
    }
    let mut b: usize = n;
    while b > a && is_separator(s.get_char(b - 1))
        invariant
            a <= b <= n,
            n == s@.len(),
            forall|k: int| b <= k < n ==> is_ws(s@[k]),
        decreases b,
    {
        b = b - 1;
    }
    proof {
        if b == a {
            if a < n {
                // The first loop stopped on a non-separator, yet the
                // second loop's invariant says everything from `a` on is
                // whitespace: impossible.
                assert(!is_ws(s@[a as int]));
                assert(is_ws(s@[a as int]));
            } else {
                lemma_ws_prefix_at(s@, n as int);
                lemma_ws_suffix_all(s@);
            }
            assert(s@.subrange(a as int, b as int) =~= Seq::<char>::empty());
            assert(spec_trim(s@) =~= Seq::<char>::empty());
        } else {
            assert(a < b);
            assert(!is_ws(s@[a as int]));
            assert(!is_ws(s@[b - 1]));
            lemma_ws_prefix_at(s@, a as int);
            lemma_ws_suffix_at(s@, b as int);
        }
    }
    s.substring_char(a, b)
}

proof fn lemma_ws_suffix_all(s: Seq<char>)
    requires
        forall|k: int| 0 <= k < s.len() ==> is_ws(s[k]),
    ensures
        ws_suffix_start(s) == 0,
    decreases s.len(),
{
    if s.len() > 0 {
        let t = s.drop_last();
        assert(forall|k: int| 0 <= k < t.len() ==> t[k] == s[k] && is_ws(t[k]));
        lemma_ws_suffix_all(t);
    }
}

/// Trimming a whitespace-free string changes nothing.
pub proof fn lemma_trim_noop(s: Seq<char>)
    requires
        forall|i: int| 0 <= i < s.len() ==> !is_ws(s[i]),
    ensures
        spec_trim(s) == s,
{
    lemma_ws_prefix_at(s, 0);
    lemma_ws_suffix_at(s, s.len() as int);
    assert(spec_trim(s) =~= s);
}

/// A string that can stand as one token: non-empty and free of separators.
pub open spec fn wf_token(t: Seq<char>) -> bool {
    t.len() > 0 && forall|i: int| 0 <= i < t.len() ==> !is_ws(t[i])
}

/// The tokens joined back into a line with single spaces.
pub open spec fn join_spaces(ts: Seq<Seq<char>>) -> Seq<char>
    decreases ts.len(),
{
    if ts.len() == 0 {
        Seq::empty()
    } else if ts.len() == 1 {
        ts[0]
    } else {
        ts[0] + seq![' '] + join_spaces(ts.drop_first())
    }
}

/// Appending one more token appends a space and the token.
pub proof fn lemma_join_push(ts: Seq<Seq<char>>, t: Seq<char>)
    requires
        ts.len() >= 1,
    ensures
        join_spaces(ts.push(t)) == join_spaces(ts) + seq![' '] + t,
    decreases ts.len(),
{
    if ts.len() == 1 {
        let p = ts.push(t);
        assert(p.len() == 2);
        assert(p.drop_first() =~= seq![t]);
        assert(join_spaces(seq![t]) == t);
        assert(join_spaces(p) =~= ts[0] + seq![' '] + t);
        assert(join_spaces(ts) == ts[0]);
    } else {
        lemma_join_push(ts.drop_first(), t);
        assert(ts.push(t).drop_first() =~= ts.drop_first().push(t));
        assert(join_spaces(ts.push(t)) == ts[0] + seq![' '] + join_spaces(
            ts.drop_first().push(t),
        ));
        assert(join_spaces(ts.push(t)) =~= join_spaces(ts) + seq![' '] + t);
    }
}

/// Law: splitting a line joined from well-formed tokens gives those
/// tokens back.
pub proof fn lemma_tokens_of_join(ts: Seq<Seq<char>>)
    requires
        forall|i: int| 0 <= i < ts.len() ==> wf_token(#[trigger] ts[i]),
    ensures
        spec_tokens(join_spaces(ts)) == ts,
    decreases ts.len(),
{
    if ts.len() == 0 {
    } else if ts.len() == 1 {
        let t = ts[0];
        assert(wf_token(t));
        lemma_tokens_take_token(t, t.len() as int);
        assert(t.subrange(0, t.len() as int) =~= t);
        assert(t.subrange(t.len() as int, t.len() as int) =~= Seq::<char>::empty());
        assert(spec_tokens(t) =~= seq![t]);
        assert(ts =~= seq![t]);
    } else {
        let t = ts[0];
        let rest = ts.drop_first();
        let s = join_spaces(ts);
        assert(s == t + seq![' '] + join_spaces(rest));
        assert(wf_token(t));
        assert(forall|i: int| 0 <= i < rest.len() ==> rest[i] == #[trigger] ts[i + 1]);
        assert(forall|i: int| 0 <= i < rest.len() ==> wf_token(#[trigger] rest[i]));
        assert(forall|i: int| 0 <= i < t.len() ==> s[i] == t[i] && !is_ws(s[i]));
        assert(s[t.len() as int] == ' ');
        lemma_tokens_take_token(s, t.len() as int);
        assert(s.subrange(0, t.len() as int) =~= t);
        let after = s.subrange(t.len() as int, s.len() as int);
        assert(after.len() > 0 && is_ws(after[0]));
        lemma_tokens_skip_ws(after);
        assert(after.subrange(1, after.len() as int) =~= join_spaces(rest));
        lemma_tokens_of_join(rest);
        assert(spec_tokens(s) =~= seq![t] + rest);
        assert(seq![t] + rest =~= ts);
    }
}

} // verus!
