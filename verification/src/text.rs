//! Whitespace tokenization of lines: the mathematical model (`tokens`,
//! `join_space`) that the line codec is specified against, and the verified
//! executable splitters and joiner.

use vstd::prelude::*;

verus! {

use vstd::string::StrSliceExecFns;
use vstd::string::StringExecFns;

/// The characters the codec treats as token separators: the ASCII whitespace
/// set (space, tab, line feed, vertical tab, form feed, carriage return).
pub open spec fn is_space(c: char) -> bool {
    c == ' ' || c == '\t' || c == '\n' || c == '\u{b}' || c == '\u{c}' || c == '\r'
}

/// Length of the leading run of non-separator characters of `s`.
pub open spec fn first_token_len(s: Seq<char>) -> nat
    decreases s.len(),
{
    if s.len() == 0 || is_space(s[0]) {
        0
    } else {
        first_token_len(s.skip(1)) + 1
    }
}

pub proof fn lemma_first_token_len_le(s: Seq<char>)
    ensures
        first_token_len(s) <= s.len(),
    decreases s.len(),
{
    if s.len() != 0 && !is_space(s[0]) {
        lemma_first_token_len_le(s.skip(1));
    }
}

/// `first_token_len` is the unique boundary: a non-separator prefix of length
/// `k` that ends at a separator or at the end of `s`.
pub proof fn lemma_first_token_len_unique(s: Seq<char>, k: nat)
    requires
        k <= s.len(),
        forall|i: int| 0 <= i < k ==> !is_space(s[i]),
        k == s.len() || is_space(s[k as int]),
    ensures
        first_token_len(s) == k,
    decreases s.len(),
{
    if k == 0 {
    } else {
        assert(!is_space(s[0]));
        assert(forall|i: int| 0 <= i < k - 1 ==> s.skip(1)[i] == s[i + 1]);
        lemma_first_token_len_unique(s.skip(1), (k - 1) as nat);
    }
}

/// The whitespace-separated tokens of `s`, in order.
pub open spec fn tokens(s: Seq<char>) -> Seq<Seq<char>>
    decreases s.len(),
    via tokens_decreases
{
    if s.len() == 0 {
        Seq::empty()
    } else if is_space(s[0]) {
        tokens(s.skip(1))
    } else {
        seq![s.take(first_token_len(s) as int)] + tokens(s.skip(first_token_len(s) as int))
    }
}

#[via_fn]
proof fn tokens_decreases(s: Seq<char>) {
    if s.len() != 0 && !is_space(s[0]) {
        lemma_first_token_len_le(s);
    }
}

/// A well-formed token: nonempty and free of separator characters.
pub open spec fn token_wf(t: Seq<char>) -> bool {
    t.len() > 0 && forall|i: int| 0 <= i < t.len() ==> !is_space(t[i])
}

pub open spec fn all_tokens_wf(ts: Seq<Seq<char>>) -> bool {
    forall|i: int| 0 <= i < ts.len() ==> token_wf(#[trigger] ts[i])
}

/// Every token that `tokens` yields is well formed.
pub proof fn lemma_tokens_wf(s: Seq<char>)
    ensures
        all_tokens_wf(tokens(s)),
    decreases s.len(),
{
    if s.len() == 0 {
    } else if is_space(s[0]) {
        lemma_tokens_wf(s.skip(1));
    } else {
        let k = first_token_len(s) as int;
        lemma_first_token_len_le(s);
        lemma_first_token_len_spec(s);
        lemma_tokens_wf(s.skip(k));
        assert(token_wf(s.take(k)));
    }
}

/// The characters before the first token boundary are non-separators, and
/// the boundary itself, when inside `s`, is a separator.
pub proof fn lemma_first_token_len_spec(s: Seq<char>)
    ensures
        forall|i: int| 0 <= i < first_token_len(s) ==> !is_space(s[i]),
        first_token_len(s) < s.len() ==> is_space(s[first_token_len(s) as int]),
    decreases s.len(),
{
    if s.len() != 0 && !is_space(s[0]) {
        lemma_first_token_len_le(s);
        lemma_first_token_len_le(s.skip(1));
        lemma_first_token_len_spec(s.skip(1));
        assert forall|i: int| 0 <= i < first_token_len(s) implies !is_space(s[i]) by {
            if i > 0 {
                assert(i - 1 < first_token_len(s.skip(1)));
                assert(s.skip(1)[i - 1] == s[i]);
            }
        }
        let k = first_token_len(s) as int;
        if k < s.len() {
            assert(s.skip(1)[k - 1] == s[k]);
        }
    }
}

/// The tokens, rejoined with a single space between each pair.
pub open spec fn join_space(ts: Seq<Seq<char>>) -> Seq<char>
    decreases ts.len(),
{
    if ts.len() == 0 {
        Seq::empty()
    } else if ts.len() == 1 {
        ts[0]
    } else {
        ts[0] + seq![' '] + join_space(ts.skip(1))
    }
}

/// `s` with surrounding whitespace trimmed and internal runs of whitespace
/// collapsed to single spaces.
pub open spec fn normalize_spaces(s: Seq<char>) -> Seq<char> {
    join_space(tokens(s))
}

/// A string that normalization leaves unchanged: no leading or trailing
/// whitespace, and every internal whitespace run is one plain space.
pub open spec fn ws_normalized(s: Seq<char>) -> bool {
    s == normalize_spaces(s)
}

/// A trailing separator character adds no token.
pub proof fn lemma_tokens_snoc_space(s: Seq<char>, c: char)
    requires
        is_space(c),
    ensures
        tokens(s + seq![c]) == tokens(s),
    decreases s.len(),
{
    let sc = s + seq![c];
    if s.len() == 0 {
        assert(sc =~= seq![c]);
        assert(sc.skip(1) =~= Seq::<char>::empty());
        assert(tokens(Seq::<char>::empty()) =~= Seq::<Seq<char>>::empty());
        assert(tokens(sc) == tokens(sc.skip(1)));
    } else if is_space(s[0]) {
        assert(sc.skip(1) =~= s.skip(1) + seq![c]);
        lemma_tokens_snoc_space(s.skip(1), c);
    } else {
        let k = first_token_len(s) as nat;
        lemma_first_token_len_le(s);
        lemma_first_token_len_spec(s);
        assert(forall|i: int| 0 <= i < k ==> sc[i] == s[i] && !is_space(sc[i]));
        if k < s.len() {
            assert(sc[k as int] == s[k as int]);
        } else {
            assert(sc[k as int] == c);
        }
        assert(is_space(sc[k as int]));
        lemma_first_token_len_unique(sc, k);
        assert(sc.take(k as int) =~= s.take(k as int));
        assert(sc.skip(k as int) =~= s.skip(k as int) + seq![c]);
        lemma_tokens_snoc_space(s.skip(k as int), c);
    }
}

/// Splitting undoes joining: the tokens of a joined well-formed token list
/// are that list itself.
pub proof fn lemma_tokens_of_join(ts: Seq<Seq<char>>)
    requires
        all_tokens_wf(ts),
    ensures
        tokens(join_space(ts)) == ts,
    decreases ts.len(),
{
    let s = join_space(ts);
    if ts.len() == 0 {
        assert(tokens(s) =~= ts);
    } else if ts.len() == 1 {
        assert(token_wf(ts[0]));
        assert(forall|i: int| 0 <= i < s.len() ==> !is_space(s[i]));
        lemma_first_token_len_unique(s, s.len());
        assert(s.take(s.len() as int) =~= s);
        assert(s.skip(s.len() as int) =~= Seq::<char>::empty());
        assert(tokens(Seq::<char>::empty()) =~= Seq::<Seq<char>>::empty());
        if s.len() > 0 {
            assert(tokens(s) =~= seq![s] + tokens(s.skip(s.len() as int)));
        }
        assert(tokens(s) =~= ts);
    } else {
        let t0 = ts[0];
        let rest = join_space(ts.skip(1));
        assert(s == t0 + seq![' '] + rest);
        assert(token_wf(t0));
        let k = t0.len();
        assert(forall|i: int| 0 <= i < k ==> s[i] == t0[i] && !is_space(s[i]));
        assert(s[k as int] == ' ');
        lemma_first_token_len_unique(s, k);
        assert(s.take(k as int) =~= t0);
        assert(s.skip(k as int)[0] == s[k as int]);
        assert(tokens(s.skip(k as int)) == tokens(s.skip(k as int).skip(1)));
        assert(s.skip(k as int).skip(1) =~= rest);
        assert(all_tokens_wf(ts.skip(1)));
        lemma_tokens_of_join(ts.skip(1));
        assert(tokens(s) =~= seq![t0] + tokens(s.skip(k as int)));
        assert(tokens(s) =~= ts);
    }
}

/// Normalization is idempotent: what `normalize_spaces` yields is itself
/// normalized.
pub proof fn lemma_normalize_idempotent(s: Seq<char>)
    ensures
        ws_normalized(normalize_spaces(s)),
{
    lemma_tokens_wf(s);
    lemma_tokens_of_join(tokens(s));
}

/// Appending one token to a joined list appends a space and the token.
pub proof fn lemma_join_push(ts: Seq<Seq<char>>, t: Seq<char>)
    ensures
        join_space(ts.push(t)) == if ts.len() == 0 {
            t
        } else {
            join_space(ts) + seq![' '] + t
        },
    decreases ts.len(),
{
    let p = ts.push(t);
    if ts.len() == 0 {
        assert(p =~= seq![t]);
        assert(join_space(p) == t);
    } else if ts.len() == 1 {
        assert(p.skip(1) =~= seq![t]);
        assert(join_space(seq![t]) == t);
        assert(join_space(p) == ts[0] + seq![' '] + t);
    } else {
        assert(p.skip(1) =~= ts.skip(1).push(t));
        lemma_join_push(ts.skip(1), t);
        assert(join_space(p) =~= join_space(ts) + seq![' '] + t);
    }
}

/// Every character of a joined well-formed token list is either the single
/// space separator or a non-separator character.
pub proof fn lemma_join_space_chars(ts: Seq<Seq<char>>)
    requires
        all_tokens_wf(ts),
    ensures
        forall|i: int|
            0 <= i < join_space(ts).len() ==> (#[trigger] join_space(ts)[i] == ' ' || !is_space(
                join_space(ts)[i],
            )),
    decreases ts.len(),
{
    let s = join_space(ts);
    if ts.len() == 0 {
    } else if ts.len() == 1 {
        assert(token_wf(ts[0]));
    } else {
        assert(token_wf(ts[0]));
        let k = ts[0].len() as int;
        assert(all_tokens_wf(ts.skip(1)));
        lemma_join_space_chars(ts.skip(1));
        let rest = join_space(ts.skip(1));
        assert forall|i: int| 0 <= i < s.len() implies (s[i] == ' ' || !is_space(s[i])) by {
            if i < k {
                assert(s[i] == ts[0][i]);
            } else if i == k {
                assert(s[i] == ' ');
            } else {
                assert(s[i] == rest[i - k - 1]);
            }
        }
    }
}

/// A whitespace-normalized string contains no line feed.
pub proof fn lemma_normalized_no_line_feed(d: Seq<char>)
    requires
        ws_normalized(d),
    ensures
        forall|i: int| 0 <= i < d.len() ==> d[i] != '\n',
{
    lemma_tokens_wf(d);
    lemma_join_space_chars(tokens(d));
}

/// Length of the leading run of characters before the first line feed.
pub open spec fn line_len(s: Seq<char>) -> nat
    decreases s.len(),
{
    if s.len() == 0 || s[0] == '\n' {
        0
    } else {
        line_len(s.skip(1)) + 1
    }
}

pub proof fn lemma_line_len_le(s: Seq<char>)
    ensures
        line_len(s) <= s.len(),
    decreases s.len(),
{
    if s.len() != 0 && s[0] != '\n' {
        lemma_line_len_le(s.skip(1));
    }
}

/// `line_len` is the unique boundary: a line-feed-free prefix of length `k`
/// that ends at a line feed or at the end of `s`.
pub proof fn lemma_line_len_unique(s: Seq<char>, k: nat)
    requires
        k <= s.len(),
        forall|i: int| 0 <= i < k ==> s[i] != '\n',
        k == s.len() || s[k as int] == '\n',
    ensures
        line_len(s) == k,
    decreases s.len(),
{
    if k == 0 {
    } else {
        assert(s[0] != '\n');
        assert(forall|i: int| 0 <= i < k - 1 ==> s.skip(1)[i] == s[i + 1]);
        lemma_line_len_unique(s.skip(1), (k - 1) as nat);
    }
}

/// The lines of `s`, split on line feeds. A line feed ends the line before
/// it; a final line needs no terminator, and a terminator on the final line
/// adds no empty line after it.
pub open spec fn split_lines(s: Seq<char>) -> Seq<Seq<char>>
    decreases s.len(),
    via split_lines_decreases
{
    if s.len() == 0 {
        Seq::empty()
    } else if line_len(s) == s.len() {
        seq![s]
    } else {
        seq![s.take(line_len(s) as int)] + split_lines(s.skip(line_len(s) as int + 1))
    }
}

#[via_fn]
proof fn split_lines_decreases(s: Seq<char>) {
    lemma_line_len_le(s);
}

/// Decides `is_space` on a concrete character.
pub fn is_space_char(c: char) -> (r: bool)
    ensures
        r == is_space(c),
{
    c == ' ' || c == '\t' || c == '\n' || c == '\u{b}' || c == '\u{c}' || c == '\r'
}

/// Splits `s` into its whitespace-separated tokens, in order.
pub fn split_tokens(s: &str) -> (r: Vec<String>)
    ensures
        r.deep_view() == tokens(s@),
{
    let n = s.unicode_len();
    let mut out: Vec<String> = Vec::new();
    let mut i: usize = 0;
    proof {
        assert(s@.skip(0) =~= s@);
        assert(out.deep_view() + tokens(s@) =~= tokens(s@));
    }
    while i < n
        invariant
            n == s@.len(),
            i <= n,
            tokens(s@) == out.deep_view() + tokens(s@.skip(i as int)),
        decreases n - i,
    {
        if is_space_char(s.get_char(i)) {
            proof {
                assert(s@.skip(i as int).skip(1) =~= s@.skip(i + 1));
            }
            i = i + 1;
        } else {
            let start = i;
            let mut j = i + 1;
            while j < n && !is_space_char(s.get_char(j))
                invariant
                    n == s@.len(),
                    start < j <= n,
                    forall|k: int| start <= k < j ==> !is_space(s@[k]),
                decreases n - j,
            {
                j = j + 1;
            }
            let tok = s.substring_char(start, j);
            let ghost prev = out.deep_view();
            out.push(tok.to_owned());
            proof {
                let rest = s@.skip(start as int);
                assert(forall|k: int| 0 <= k < j - start ==> rest[k] == s@[start + k]);
                if j < n {
                    assert(rest[j - start] == s@[j as int]);
                }
                lemma_first_token_len_unique(rest, (j - start) as nat);
                assert(rest.take(j - start) =~= s@.subrange(start as int, j as int));
                assert(rest.skip(j - start) =~= s@.skip(j as int));
                assert(tokens(rest) == seq![s@.subrange(start as int, j as int)] + tokens(
                    s@.skip(j as int),
                ));
                assert(out.deep_view() =~= prev + seq![s@.subrange(start as int, j as int)]);
                assert(tokens(s@) =~= out.deep_view() + tokens(s@.skip(j as int)));
            }
            i = j;
        }
    }
    proof {
        assert(s@.skip(n as int) =~= Seq::<char>::empty());
        assert(tokens(Seq::<char>::empty()) =~= Seq::<Seq<char>>::empty());
        assert(out.deep_view() =~= tokens(s@));
    }
    out
}

/// Joins the elements of `v` from index `from` on, with a single space
/// between each pair.
pub fn join_from(v: &Vec<String>, from: usize) -> (r: String)
    requires
        from <= v.len(),
    ensures
        r@ == join_space(v.deep_view().skip(from as int)),
{
    let ghost ts = v.deep_view().skip(from as int);
    let mut out = String::new();
    let mut k = from;
    while k < v.len()
        invariant
            from <= k <= v.len(),
            ts == v.deep_view().skip(from as int),
            out@ == join_space(ts.take(k - from)),
        decreases v.len() - k,
    {
        proof {
            assert(ts.take(k + 1 - from) =~= ts.take(k - from).push(v.deep_view()[k as int]));
            lemma_join_push(ts.take(k - from), v.deep_view()[k as int]);
        }
        if k > from {
            out.append(" ");
            proof {
                reveal_strlit(" ");
            }
        }
        out.append(v[k].as_str());
        k = k + 1;
    }
    proof {
        assert(ts.take(k - from) =~= ts);
    }
    out
}

/// Splits `s` into its lines, on line feeds.
pub fn split_text_lines(s: &str) -> (r: Vec<String>)
    ensures
        r.deep_view() == split_lines(s@),
{
    let n = s.unicode_len();
    let mut out: Vec<String> = Vec::new();
    let mut i: usize = 0;
    proof {
        assert(s@.skip(0) =~= s@);
        assert(out.deep_view() + split_lines(s@) =~= split_lines(s@));
    }
    while i < n
        invariant
            n == s@.len(),
            i <= n,
            split_lines(s@) == out.deep_view() + split_lines(s@.skip(i as int)),
        decreases n - i,
    {
        let start = i;
        let mut j = i;
        while j < n && s.get_char(j) != '\n'
            invariant
                n == s@.len(),
                start <= j <= n,
                forall|k: int| start <= k < j ==> s@[k] != '\n',
            decreases n - j,
        {
            j = j + 1;
        }
        let line = s.substring_char(start, j);
        let ghost prev = out.deep_view();
        out.push(line.to_owned());
        proof {
            let rest = s@.skip(start as int);
            assert(forall|k: int| 0 <= k < j - start ==> rest[k] == s@[start + k]);
            if j < n {
                assert(rest[j - start] == s@[j as int]);
            }
            lemma_line_len_unique(rest, (j - start) as nat);
            assert(out.deep_view() =~= prev + seq![s@.subrange(start as int, j as int)]);
            if j == n {
                assert(rest =~= s@.subrange(start as int, j as int));
                assert(split_lines(rest) == seq![rest]);
                assert(s@.skip(n as int) =~= Seq::<char>::empty());
                assert(split_lines(Seq::<char>::empty()) =~= Seq::<Seq<char>>::empty());
                assert(split_lines(s@) =~= out.deep_view() + split_lines(s@.skip(n as int)));
            } else {
                assert(rest.take(j - start) =~= s@.subrange(start as int, j as int));
                assert(rest.skip(j - start + 1) =~= s@.skip(j + 1));
                assert(split_lines(rest) == seq![s@.subrange(start as int, j as int)]
                    + split_lines(s@.skip(j + 1)));
                assert(split_lines(s@) =~= out.deep_view() + split_lines(s@.skip(j + 1)));
            }
        }
        if j == n {
            i = n;
        } else {
            i = j + 1;
        }
    }
    proof {
        assert(s@.skip(n as int) =~= Seq::<char>::empty());
        assert(split_lines(Seq::<char>::empty()) =~= Seq::<Seq<char>>::empty());
        assert(out.deep_view() =~= split_lines(s@));
    }
    out
}

} // verus!
