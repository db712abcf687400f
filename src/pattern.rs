//! The path-pattern language: literal characters, `:name` parameters that
//! capture one path segment, and `*` globs that capture any rest.
use vstd::prelude::*;
use crate::error::Error;
use crate::matcher::{escape_literal, escape_char, escaped};

verus! {

broadcast use vstd::string::group_string_axioms;

/// One element of a parsed path pattern.
pub enum PathToken {
    /// A single character (a one-element text) that must appear as it is.
    Literal(Seq<char>),
    /// A named parameter: one or more characters other than `/`.
    Param(Seq<char>),
    /// A glob: any run of characters, `/` included.
    Glob,
}

/// The end of the run of characters other than `/` that starts at `i`.
pub open spec fn segment_end(s: Seq<char>, i: int) -> int
    decreases s.len() - i,
{
    if i < 0 || i >= s.len() || s[i] == '/' {
        i
    } else {
        segment_end(s, i + 1)
    }
}

/// A parameter starts at `i`: a `:` followed by a character other than `/`.
pub open spec fn param_starts_at(s: Seq<char>, i: int) -> bool {
    0 <= i && i + 1 < s.len() && s[i] == ':' && s[i + 1] != '/'
}

/// The tokens of the pattern text from position `i` on.
pub open spec fn tokens_from(s: Seq<char>, i: int) -> Seq<PathToken>
    decreases s.len() - i,
{
    if i < 0 || i >= s.len() {
        Seq::empty()
    } else if param_starts_at(s, i) {
        let j = segment_end(s, i + 1);
        if i < j <= s.len() {
            seq![PathToken::Param(s.subrange(i + 1, j))] + tokens_from(s, j)
        } else {
            Seq::empty()
        }
    } else if s[i] == '*' {
        seq![PathToken::Glob] + tokens_from(s, i + 1)
    } else {
        seq![PathToken::Literal(seq![s[i]])] + tokens_from(s, i + 1)
    }
}

/// The tokens of a whole pattern text.
pub open spec fn path_tokens(s: Seq<char>) -> Seq<PathToken> {
    tokens_from(s, 0)
}

/// Each character of `s` as a literal token.
pub open spec fn literals(s: Seq<char>) -> Seq<PathToken>
    decreases s.len(),
{
    if s.len() == 0 {
        Seq::empty()
    } else {
        literals(s.drop_last()).push(PathToken::Literal(seq![s.last()]))
    }
}

/// The regex text of one token.
pub open spec fn token_regex(t: PathToken) -> Seq<char> {
    match t {
        PathToken::Literal(t) => escaped(t),
        PathToken::Param(_) => "([^/]+)"@,
        PathToken::Glob => "(.*)"@,
    }
}

/// The regex text of a token sequence, without anchors.
pub open spec fn tokens_regex(ts: Seq<PathToken>) -> Seq<char>
    decreases ts.len(),
{
    if ts.len() == 0 {
        Seq::empty()
    } else {
        tokens_regex(ts.drop_last()) + token_regex(ts.last())
    }
}

/// The parameter name that a token contributes, if any.
pub open spec fn token_names(t: PathToken) -> Seq<Seq<char>> {
    match t {
        PathToken::Literal(_) => Seq::empty(),
        PathToken::Param(n) => seq![n],
        PathToken::Glob => seq!["*"@],
    }
}

/// The parameter names of a token sequence, in order; each glob is named `*`.
pub open spec fn param_names(ts: Seq<PathToken>) -> Seq<Seq<char>>
    decreases ts.len(),
{
    if ts.len() == 0 {
        Seq::empty()
    } else {
        param_names(ts.drop_last()) + token_names(ts.last())
    }
}

/// The regex text that matches the whole of a path: `(?s)^...$`.
pub open spec fn exact_regex_text(ts: Seq<PathToken>) -> Seq<char> {
    "(?s)^"@ + tokens_regex(ts) + "$"@
}

/// The regex text that matches the start of a path: `(?s)^...`.
pub open spec fn prefix_regex_text(ts: Seq<PathToken>) -> Seq<char> {
    "(?s)^"@ + tokens_regex(ts)
}

/// The views of a list of strings.
pub open spec fn views(v: Seq<String>) -> Seq<Seq<char>> {
    v.map_values(|x: String| x@)
}

/// The number of capture groups of a token sequence: one per parameter or glob.
pub open spec fn group_count(ts: Seq<PathToken>) -> nat
    decreases ts.len(),
{
    if ts.len() == 0 {
        0
    } else {
        match ts[0] {
            PathToken::Literal(_) => group_count(ts.drop_first()),
            _ => 1 + group_count(ts.drop_first()),
        }
    }
}

/// `caps` gives one value to each group of `ts`, in order, and each parameter
/// value is a non-empty run of characters other than `/`.
pub open spec fn captures_fit(ts: Seq<PathToken>, caps: Seq<Seq<char>>) -> bool
    decreases ts.len(),
{
    if ts.len() == 0 {
        caps.len() == 0
    } else {
        match ts[0] {
            PathToken::Literal(_) => captures_fit(ts.drop_first(), caps),
            PathToken::Param(_) => caps.len() > 0 && caps[0].len() > 0 && !caps[0].contains('/')
                && captures_fit(ts.drop_first(), caps.drop_first()),
            PathToken::Glob => caps.len() > 0 && captures_fit(ts.drop_first(), caps.drop_first()),
        }
    }
}

/// The text that a token sequence spells when its groups take the values `caps`.
pub open spec fn fill(ts: Seq<PathToken>, caps: Seq<Seq<char>>) -> Seq<char>
    decreases ts.len(),
{
    if ts.len() == 0 {
        Seq::empty()
    } else {
        match ts[0] {
            PathToken::Literal(t) => t + fill(ts.drop_first(), caps),
            _ => if caps.len() > 0 {
                caps[0] + fill(ts.drop_first(), caps.drop_first())
            } else {
                fill(ts.drop_first(), caps)
            },
        }
    }
}

/// `text` is in the language of the pattern `ts`.
pub open spec fn matches_path(ts: Seq<PathToken>, text: Seq<char>) -> bool {
    exists|caps: Seq<Seq<char>>| captures_fit(ts, caps) && #[trigger] fill(ts, caps) == text
}

/// Appending a string appends its view.
pub proof fn lemma_views_push(v: Seq<String>, x: String)
    ensures
        views(v.push(x)) == views(v).push(x@),
{
    assert(views(v.push(x)) =~= views(v).push(x@));
}

/// The values that a pattern's own text gives its groups: `:name` for a
/// parameter and `*` for a glob.
pub open spec fn own_captures(s: Seq<char>, i: int) -> Seq<Seq<char>>
    decreases s.len() - i,
{
    if i < 0 || i >= s.len() {
        Seq::empty()
    } else if param_starts_at(s, i) {
        let j = segment_end(s, i + 1);
        if i < j <= s.len() {
            seq![s.subrange(i, j)] + own_captures(s, j)
        } else {
            Seq::empty()
        }
    } else if s[i] == '*' {
        seq![seq!['*']] + own_captures(s, i + 1)
    } else {
        own_captures(s, i + 1)
    }
}

/// The number of `/` in a text.
pub open spec fn slash_count(s: Seq<char>) -> nat
    decreases s.len(),
{
    if s.len() == 0 {
        0
    } else {
        slash_count(s.drop_last()) + if s.last() == '/' { 1nat } else { 0nat }
    }
}

/// The number of literal `/` tokens.
pub open spec fn literal_slashes(ts: Seq<PathToken>) -> nat
    decreases ts.len(),
{
    if ts.len() == 0 {
        0
    } else {
        literal_slashes(ts.drop_first()) + match ts[0] {
            PathToken::Literal(t) => slash_count(t),
            _ => 0nat,
        }
    }
}

/// The pattern has no glob.
pub open spec fn glob_free(ts: Seq<PathToken>) -> bool {
    forall|k: int| 0 <= k < ts.len() ==> !(#[trigger] ts[k] is Glob)
}

proof fn lemma_segment_end(s: Seq<char>, i: int)
    requires
        0 <= i <= s.len(),
    ensures
        i <= segment_end(s, i) <= s.len(),
        forall|k: int| i <= k < segment_end(s, i) ==> s[k] != '/',
        segment_end(s, i) < s.len() ==> s[segment_end(s, i)] == '/',
    decreases s.len() - i,
{
    if i < s.len() && s[i] != '/' {
        lemma_segment_end(s, i + 1);
    }
}

proof fn lemma_slash_count_concat(a: Seq<char>, b: Seq<char>)
    ensures
        slash_count(a + b) == slash_count(a) + slash_count(b),
    decreases b.len(),
{
    if b.len() == 0 {
        assert(a + b =~= a);
    } else {
        lemma_slash_count_concat(a, b.drop_last());
        assert((a + b).drop_last() =~= a + b.drop_last());
        assert((a + b).last() == b.last());
    }
}

proof fn lemma_no_slash_count(s: Seq<char>)
    requires
        !s.contains('/'),
    ensures
        slash_count(s) == 0,
    decreases s.len(),
{
    if s.len() > 0 {
        assert(!s.drop_last().contains('/')) by {
            if s.drop_last().contains('/') {
                let k = choose|k: int| 0 <= k < s.drop_last().len() && s.drop_last()[k] == '/';
                assert(s[k] == '/');
            }
        }
        lemma_no_slash_count(s.drop_last());
        assert(s[s.len() - 1] == s.last());
    }
}

/// A pattern's own text is in its language, with its own captures.
proof fn lemma_own_text(s: Seq<char>, i: int)
    requires
        0 <= i <= s.len(),
    ensures
        captures_fit(tokens_from(s, i), own_captures(s, i)),
        fill(tokens_from(s, i), own_captures(s, i)) == s.subrange(i, s.len() as int),
    decreases s.len() - i,
{
    reveal_with_fuel(tokens_from, 2);
    reveal_with_fuel(own_captures, 2);
    let ts = tokens_from(s, i);
    let cs = own_captures(s, i);
    if i == s.len() {
        assert(s.subrange(i, s.len() as int) =~= Seq::<char>::empty());
    } else if param_starts_at(s, i) {
        let j = segment_end(s, i + 1);
        lemma_segment_end(s, i + 1);
        lemma_own_text(s, j);
        assert(ts == seq![PathToken::Param(s.subrange(i + 1, j))] + tokens_from(s, j));
        assert(ts.drop_first() =~= tokens_from(s, j));
        assert(cs.drop_first() =~= own_captures(s, j));
        let c = s.subrange(i, j);
        assert(!c.contains('/')) by {
            if c.contains('/') {
                let k = choose|k: int| 0 <= k < c.len() && c[k] == '/';
                assert(s[i + k] == '/');
            }
        }
        assert(s.subrange(i, s.len() as int) =~= c + s.subrange(j, s.len() as int));
    } else if s[i] == '*' {
        lemma_own_text(s, i + 1);
        assert(ts.drop_first() =~= tokens_from(s, i + 1));
        assert(cs.drop_first() =~= own_captures(s, i + 1));
        assert(s.subrange(i, s.len() as int) =~= seq!['*'] + s.subrange(i + 1, s.len() as int));
    } else {
        lemma_own_text(s, i + 1);
        assert(ts.drop_first() =~= tokens_from(s, i + 1));
        assert(s.subrange(i, s.len() as int) =~= seq![s[i]] + s.subrange(i + 1, s.len() as int));
    }
}

/// Every text in the language of a glob-free pattern has as many `/` as its literals.
proof fn lemma_fill_slashes(ts: Seq<PathToken>, caps: Seq<Seq<char>>)
    requires
        glob_free(ts),
        captures_fit(ts, caps),
        forall|k: int| 0 <= k < ts.len() ==> (#[trigger] ts[k] matches PathToken::Literal(t) ==> t.len() == 1),
    ensures
        slash_count(fill(ts, caps)) == literal_slashes(ts),
    decreases ts.len(),
{
    if ts.len() > 0 {
        let rest = ts.drop_first();
        assert(glob_free(rest)) by {
            assert forall|k: int| 0 <= k < rest.len() implies !(#[trigger] rest[k] is Glob) by {
                assert(rest[k] == ts[k + 1]);
            }
        }
        assert forall|k: int| 0 <= k < rest.len() implies (#[trigger] rest[k] matches PathToken::Literal(t) ==> t.len() == 1) by {
            assert(rest[k] == ts[k + 1]);
        }
        assert(!(ts[0] is Glob));
        match ts[0] {
            PathToken::Literal(t) => {
                lemma_fill_slashes(rest, caps);
                lemma_slash_count_concat(t, fill(rest, caps));
            },
            _ => {
                lemma_fill_slashes(rest, caps.drop_first());
                lemma_no_slash_count(caps[0]);
                lemma_slash_count_concat(caps[0], fill(rest, caps.drop_first()));
            },
        }
    }
}

/// Every text in the language of a pattern that ends in a literal `/` ends in `/`.
proof fn lemma_fill_ends_with_slash(ts: Seq<PathToken>, caps: Seq<Seq<char>>)
    requires
        ts.len() > 0,
        ts.last() == PathToken::Literal(seq!['/']),
        captures_fit(ts, caps),
    ensures
        fill(ts, caps).len() > 0,
        fill(ts, caps).last() == '/',
    decreases ts.len(),
{
    let rest = ts.drop_first();
    if ts.len() == 1 {
        assert(rest =~= Seq::<PathToken>::empty());
        assert(fill(ts, caps) =~= seq!['/']);
    } else {
        assert(rest.last() == ts.last());
        match ts[0] {
            PathToken::Literal(t) => {
                lemma_fill_ends_with_slash(rest, caps);
                assert((t + fill(rest, caps)).last() == fill(rest, caps).last());
            },
            _ => {
                lemma_fill_ends_with_slash(rest, caps.drop_first());
                assert((caps[0] + fill(rest, caps.drop_first())).last() == fill(rest, caps.drop_first()).last());
            },
        }
    }
}

/// The tokens of a pattern text from `i` on: each literal is one character,
/// and when the text ends in `/`, so do the tokens, with a literal `/`.
proof fn lemma_tokens_shape(s: Seq<char>, i: int)
    requires
        0 <= i <= s.len(),
    ensures
        forall|k: int| 0 <= k < tokens_from(s, i).len() ==> (#[trigger] tokens_from(s, i)[k] matches PathToken::Literal(t) ==> t.len() == 1),
        i < s.len() && s.last() == '/' ==> tokens_from(s, i).len() > 0 && tokens_from(s, i).last()
            == PathToken::Literal(seq!['/']),
        forall|k: int| 0 <= k < tokens_from(s, i).len() && (#[trigger] tokens_from(s, i)[k]) is Glob
            ==> s.contains('*'),
    decreases s.len() - i,
{
    reveal_with_fuel(tokens_from, 2);
    let ts = tokens_from(s, i);
    if i < s.len() {
        if param_starts_at(s, i) {
            let j = segment_end(s, i + 1);
            lemma_segment_end(s, i + 1);
            lemma_tokens_shape(s, j);
            assert(ts == seq![PathToken::Param(s.subrange(i + 1, j))] + tokens_from(s, j));
            assert forall|k: int| 0 <= k < ts.len() implies (#[trigger] ts[k] matches PathToken::Literal(t) ==> t.len() == 1) by {
                if k > 0 {
                    assert(ts[k] == tokens_from(s, j)[k - 1]);
                }
            }
            assert forall|k: int| 0 <= k < ts.len() && (#[trigger] ts[k]) is Glob implies s.contains('*') by {
                if k > 0 {
                    assert(ts[k] == tokens_from(s, j)[k - 1]);
                }
            }
            if s.last() == '/' {
                assert(s[s.len() - 1] == '/');
                assert(j < s.len());
                assert(ts.last() == tokens_from(s, j).last());
            }
        } else {
            lemma_tokens_shape(s, i + 1);
            let rest = tokens_from(s, i + 1);
            if s[i] == '*' {
                assert(ts == seq![PathToken::Glob] + rest);
                assert(s.contains('*'));
            } else {
                assert(ts == seq![PathToken::Literal(seq![s[i]])] + rest);
            }
            assert forall|k: int| 0 <= k < ts.len() implies (#[trigger] ts[k] matches PathToken::Literal(t) ==> t.len() == 1) by {
                if k > 0 {
                    assert(ts[k] == rest[k - 1]);
                }
            }
            assert forall|k: int| 0 <= k < ts.len() && (#[trigger] ts[k]) is Glob implies s.contains('*') by {
                if k > 0 {
                    assert(ts[k] == rest[k - 1]);
                }
            }
            if s.last() == '/' {
                if i + 1 < s.len() {
                    assert(ts.last() == rest.last());
                } else {
                    assert(s[i] == '/');
                    assert(rest =~= Seq::<PathToken>::empty());
                    assert(ts.last() == PathToken::Literal(seq![s[i]]));
                }
            }
        }
    }
}

/// Each parameter is last or followed by a literal `/`.
pub open spec fn params_delimited(ts: Seq<PathToken>) -> bool {
    forall|k: int|
        0 <= k < ts.len() && (#[trigger] ts[k]) is Param ==> k + 1 == ts.len() || ts[k + 1]
            == PathToken::Literal(seq!['/'])
}

proof fn lemma_tokens_delimited(s: Seq<char>, i: int)
    requires
        0 <= i <= s.len(),
    ensures
        params_delimited(tokens_from(s, i)),
    decreases s.len() - i,
{
    reveal_with_fuel(tokens_from, 2);
    let ts = tokens_from(s, i);
    if i < s.len() {
        if param_starts_at(s, i) {
            let j = segment_end(s, i + 1);
            lemma_segment_end(s, i + 1);
            lemma_tokens_delimited(s, j);
            let rest = tokens_from(s, j);
            assert(ts == seq![PathToken::Param(s.subrange(i + 1, j))] + rest);
            if j < s.len() {
                assert(s[j] == '/');
                assert(!param_starts_at(s, j));
                assert(rest == seq![PathToken::Literal(seq![s[j]])] + tokens_from(s, j + 1));
            }
            assert forall|k: int| 0 <= k < ts.len() && (#[trigger] ts[k]) is Param implies k + 1
                == ts.len() || ts[k + 1] == PathToken::Literal(seq!['/']) by {
                if k > 0 {
                    assert(ts[k] == rest[k - 1]);
                    if k + 1 < ts.len() {
                        assert(ts[k + 1] == rest[k]);
                    }
                } else if j < s.len() {
                    assert(ts[1] == rest[0]);
                } else {
                    assert(rest.len() == 0);
                }
            }
        } else {
            lemma_tokens_delimited(s, i + 1);
            let rest = tokens_from(s, i + 1);
            if s[i] == '*' {
                assert(ts == seq![PathToken::Glob] + rest);
            } else {
                assert(ts == seq![PathToken::Literal(seq![s[i]])] + rest);
            }
            assert forall|k: int| 0 <= k < ts.len() && (#[trigger] ts[k]) is Param implies k + 1
                == ts.len() || ts[k + 1] == PathToken::Literal(seq!['/']) by {
                assert(k > 0);
                assert(ts[k] == rest[k - 1]);
                if k + 1 < ts.len() {
                    assert(ts[k + 1] == rest[k]);
                }
            }
        }
    }
}

proof fn lemma_fill_unique(ts: Seq<PathToken>, c1: Seq<Seq<char>>, c2: Seq<Seq<char>>)
    requires
        glob_free(ts),
        params_delimited(ts),
        captures_fit(ts, c1),
        captures_fit(ts, c2),
        fill(ts, c1) == fill(ts, c2),
    ensures
        c1 == c2,
    decreases ts.len(),
{
    if ts.len() == 0 {
        assert(c1 =~= c2);
    } else {
        let rest = ts.drop_first();
        assert(glob_free(rest)) by {
            assert forall|k: int| 0 <= k < rest.len() implies !(#[trigger] rest[k] is Glob) by {
                assert(rest[k] == ts[k + 1]);
            }
        }
        assert(params_delimited(rest)) by {
            assert forall|k: int| 0 <= k < rest.len() && (#[trigger] rest[k]) is Param implies k + 1
                == rest.len() || rest[k + 1] == PathToken::Literal(seq!['/']) by {
                assert(rest[k] == ts[k + 1]);
                if k + 1 < rest.len() {
                    assert(rest[k + 1] == ts[k + 2]);
                }
            }
        }
        assert(!(ts[0] is Glob));
        match ts[0] {
            PathToken::Literal(t) => {
                let f1 = fill(rest, c1);
                let f2 = fill(rest, c2);
                assert(t + f1 == t + f2);
                assert(f1 =~= (t + f1).subrange(t.len() as int, (t + f1).len() as int));
                assert(f2 =~= (t + f2).subrange(t.len() as int, (t + f2).len() as int));
                lemma_fill_unique(rest, c1, c2);
            },
            PathToken::Param(_) => {
                let a = c1[0];
                let b = c2[0];
                let f1 = fill(rest, c1.drop_first());
                let f2 = fill(rest, c2.drop_first());
                let text = a + f1;
                assert(text == b + f2);
                if rest.len() > 0 {
                    assert(ts[1] == PathToken::Literal(seq!['/']));
                    assert(rest[0] == PathToken::Literal(seq!['/']));
                    assert(f1 == seq!['/'] + fill(rest.drop_first(), c1.drop_first()));
                    assert(f2 == seq!['/'] + fill(rest.drop_first(), c2.drop_first()));
                    assert(a.len() == b.len()) by {
                        if a.len() < b.len() {
                            assert(text[a.len() as int] == f1[0]);
                            assert(text[a.len() as int] == b[a.len() as int]);
                            assert(b.contains('/'));
                        } else if b.len() < a.len() {
                            assert(text[b.len() as int] == f2[0]);
                            assert(text[b.len() as int] == a[b.len() as int]);
                            assert(a.contains('/'));
                        }
                    }
                } else {
                    assert(rest =~= Seq::<PathToken>::empty());
                    assert(f1 =~= Seq::<char>::empty());
                    assert(f2 =~= Seq::<char>::empty());
                }
                assert(a =~= text.subrange(0, a.len() as int));
                assert(b =~= text.subrange(0, b.len() as int));
                assert(f1 =~= text.subrange(a.len() as int, text.len() as int));
                assert(f2 =~= text.subrange(b.len() as int, text.len() as int));
                lemma_fill_unique(rest, c1.drop_first(), c2.drop_first());
                assert(c1 =~= seq![a] + c1.drop_first());
                assert(c2 =~= seq![b] + c2.drop_first());
            },
            PathToken::Glob => {},
        }
    }
}

/// A path without parameters or globs: every character is a literal.
pub open spec fn literal_path(s: Seq<char>) -> bool {
    !s.contains('*') && forall|i: int| !#[trigger] param_starts_at(s, i)
}

proof fn lemma_tokens_no_param(s: Seq<char>, i: int)
    requires
        0 <= i <= s.len(),
        forall|j: int| !#[trigger] param_starts_at(s, j),
    ensures
        forall|k: int| 0 <= k < tokens_from(s, i).len() ==> !((#[trigger] tokens_from(s, i)[k]) is Param),
    decreases s.len() - i,
{
    reveal_with_fuel(tokens_from, 2);
    if i < s.len() {
        lemma_tokens_no_param(s, i + 1);
        let ts = tokens_from(s, i);
        let rest = tokens_from(s, i + 1);
        assert(!param_starts_at(s, i));
        if s[i] == '*' {
            assert(ts == seq![PathToken::Glob] + rest);
        } else {
            assert(ts == seq![PathToken::Literal(seq![s[i]])] + rest);
        }
        assert forall|k: int| 0 <= k < ts.len() implies !((#[trigger] ts[k]) is Param) by {
            if k > 0 {
                assert(ts[k] == rest[k - 1]);
            }
        }
    }
}

proof fn lemma_fill_literals(ts: Seq<PathToken>, c1: Seq<Seq<char>>, c2: Seq<Seq<char>>)
    requires
        forall|k: int| 0 <= k < ts.len() ==> (#[trigger] ts[k]) is Literal,
    ensures
        fill(ts, c1) == fill(ts, c2),
    decreases ts.len(),
{
    if ts.len() > 0 {
        let rest = ts.drop_first();
        assert forall|k: int| 0 <= k < rest.len() implies (#[trigger] rest[k]) is Literal by {
            assert(rest[k] == ts[k + 1]);
        }
        assert(ts[0] is Literal);
        lemma_fill_literals(rest, c1, c2);
    }
}

/// A path without parameters or globs matches exactly itself.
pub proof fn law_literal_path_matches_only_itself(path: Seq<char>, text: Seq<char>)
    requires
        literal_path(path),
    ensures
        matches_path(path_tokens(path), text) <==> text == path,
{
    let ts = path_tokens(path);
    law_exact_regex_matches_own_path(path, Seq::empty());
    lemma_tokens_shape(path, 0);
    lemma_tokens_no_param(path, 0);
    lemma_own_text(path, 0);
    assert(path.subrange(0, path.len() as int) =~= path);
    assert forall|k: int| 0 <= k < ts.len() implies (#[trigger] ts[k]) is Literal by {
        if ts[k] is Glob {
            assert(path.contains('*'));
        }
    }
    if matches_path(ts, text) {
        let caps = choose|caps: Seq<Seq<char>>| captures_fit(ts, caps) && #[trigger] fill(ts, caps) == text;
        lemma_fill_literals(ts, caps, own_captures(path, 0));
    }
}

/// For a path without `*`, a text in its language has one split only: the
/// values of its parameters are determined by the text.
pub proof fn law_params_unique(path: Seq<char>, c1: Seq<Seq<char>>, c2: Seq<Seq<char>>)
    requires
        !path.contains('*'),
        captures_fit(path_tokens(path), c1),
        captures_fit(path_tokens(path), c2),
        fill(path_tokens(path), c1) == fill(path_tokens(path), c2),
    ensures
        c1 == c2,
{
    lemma_tokens_shape(path, 0);
    lemma_tokens_delimited(path, 0);
    lemma_fill_unique(path_tokens(path), c1, c2);
}

/// The exact regex of a path matches the path itself; and for a path without
/// `*` that ends in `/` (as every registered path without a glob does), it
/// matches no longer text that starts with the path.
pub proof fn law_exact_regex_matches_own_path(path: Seq<char>, extra: Seq<char>)
    ensures
        matches_path(path_tokens(path), path),
        !path.contains('*') && path.len() > 0 && path.last() == '/' && extra.len() > 0
            ==> !matches_path(path_tokens(path), path + extra),
{
    let ts = path_tokens(path);
    lemma_own_text(path, 0);
    assert(path.subrange(0, path.len() as int) =~= path);
    assert(fill(ts, own_captures(path, 0)) == path);
    if !path.contains('*') && path.len() > 0 && path.last() == '/' && extra.len() > 0 {
        lemma_tokens_shape(path, 0);
        assert(glob_free(ts));
        lemma_fill_slashes(ts, own_captures(path, 0));
        if matches_path(ts, path + extra) {
            let caps = choose|caps: Seq<Seq<char>>| captures_fit(ts, caps) && #[trigger] fill(ts, caps) == path + extra;
            lemma_fill_slashes(ts, caps);
            lemma_fill_ends_with_slash(ts, caps);
            lemma_slash_count_concat(path, extra);
            assert(extra.last() == (path + extra).last());
            assert(slash_count(extra) > 0) by {
                assert(extra.drop_last() + seq![extra.last()] =~= extra);
                lemma_slash_count_concat(extra.drop_last(), seq![extra.last()]);
                assert(seq![extra.last()].drop_last() =~= Seq::<char>::empty());
            }
        }
    }
}

proof fn lemma_param_names_front(ts: Seq<PathToken>)
    requires
        ts.len() > 0,
    ensures
        param_names(ts) == token_names(ts[0]) + param_names(ts.drop_first()),
    decreases ts.len(),
{
    if ts.len() == 1 {
        assert(ts.drop_last() =~= Seq::<PathToken>::empty());
        assert(ts.drop_first() =~= Seq::<PathToken>::empty());
        assert(param_names(ts) =~= token_names(ts[0]) + param_names(ts.drop_first()));
    } else {
        lemma_param_names_front(ts.drop_last());
        assert(ts.drop_last().drop_first() =~= ts.drop_first().drop_last());
        assert(ts.drop_first().last() == ts.last());
        assert(ts.drop_last()[0] == ts[0]);
        assert(param_names(ts) =~= token_names(ts[0]) + param_names(ts.drop_first()));
    }
}

/// The number of groups is the number of parameter names.
pub proof fn lemma_group_count(ts: Seq<PathToken>)
    ensures
        group_count(ts) == param_names(ts).len(),
    decreases ts.len(),
{
    if ts.len() > 0 {
        lemma_param_names_front(ts);
        lemma_group_count(ts.drop_first());
    }
}

/// A `captures_fit` assignment has one value per group.
pub proof fn lemma_fit_len(ts: Seq<PathToken>, caps: Seq<Seq<char>>)
    requires
        captures_fit(ts, caps),
    ensures
        caps.len() == group_count(ts),
    decreases ts.len(),
{
    if ts.len() > 0 {
        match ts[0] {
            PathToken::Literal(_) => lemma_fit_len(ts.drop_first(), caps),
            _ => lemma_fit_len(ts.drop_first(), caps.drop_first()),
        }
    }
}

proof fn lemma_push_token(ts: Seq<PathToken>, t: PathToken)
    ensures
        tokens_regex(ts.push(t)) == tokens_regex(ts) + token_regex(t),
        param_names(ts.push(t)) == param_names(ts) + token_names(t),
{
    assert(ts.push(t).drop_last() =~= ts);
}

proof fn lemma_push_literals(ts: Seq<PathToken>, s: Seq<char>)
    ensures
        tokens_regex(ts + literals(s)) == tokens_regex(ts) + escaped(s),
        param_names(ts + literals(s)) == param_names(ts),
    decreases s.len(),
{
    if s.len() == 0 {
        assert(ts + literals(s) =~= ts);
        assert(tokens_regex(ts) + escaped(s) =~= tokens_regex(ts));
    } else {
        let p = s.drop_last();
        lemma_push_literals(ts, p);
        reveal_with_fuel(literals, 2);
        assert(literals(s) == literals(p).push(PathToken::Literal(seq![s.last()])));
        assert(ts + literals(s) =~= (ts + literals(p)).push(PathToken::Literal(seq![s.last()])));
        lemma_push_token(ts + literals(p), PathToken::Literal(seq![s.last()]));
        reveal_with_fuel(escaped, 2);
        assert(seq![s.last()].drop_last() =~= Seq::<char>::empty());
        assert(escaped(seq![s.last()]) =~= escape_char(s.last()));
        assert(tokens_regex(ts) + escaped(s) =~= tokens_regex(ts) + escaped(p) + escape_char(
            s.last(),
        ));
        assert(token_names(PathToken::Literal(seq![s.last()])) =~= Seq::<Seq<char>>::empty());
        assert(param_names(ts + literals(p)) + Seq::<Seq<char>>::empty() =~= param_names(
            ts + literals(p),
        ));
    }
}

proof fn lemma_literal_run(s: Seq<char>, start: int, i: int)
    requires
        0 <= start <= i < s.len(),
        !param_starts_at(s, i),
        s[i] != '*',
    ensures
        literals(s.subrange(start, i)) + tokens_from(s, i) =~= literals(s.subrange(start, i + 1))
            + tokens_from(s, i + 1),
{
    reveal_with_fuel(tokens_from, 2);
    reveal_with_fuel(literals, 2);
    assert(tokens_from(s, i) == seq![PathToken::Literal(seq![s[i]])] + tokens_from(s, i + 1));
    assert(s.subrange(start, i + 1).drop_last() =~= s.subrange(start, i));
    assert(literals(s.subrange(start, i + 1)) =~= literals(s.subrange(start, i)) + seq![
        PathToken::Literal(seq![s[i]]),
    ]);
}

/// Appends the escaped run `path[start..end]` to `out`.
fn flush_literals(path: &str, start: usize, end: usize, out: &mut String)
    requires
        start <= end <= path@.len(),
    ensures
        final(out)@ == old(out)@ + escaped(path@.subrange(start as int, end as int)),
{
    let lit = path.substring_char(start, end);
    let e = escape_literal(lit);
    out.append(e.as_str());
}

/// Translates a path pattern into regex text (without anchors) and the
/// ordered list of its parameter names.
///
/// Literal runs are escaped, `:name` becomes `([^/]+)` and `*` becomes `(.*)`.
pub fn generate_common_regex_str(path: &str) -> (r: Result<(String, Vec<String>), Error>)
    ensures
        r is Ok,
        r matches Ok((re, names)) ==> re@ == tokens_regex(path_tokens(path@)) && views(names@)
            == param_names(path_tokens(path@)),
{
    let ghost s = path@;
    let n = path.unicode_len();
    let mut out = String::new();
    let mut names: Vec<String> = Vec::new();
    let mut run_start: usize = 0;
    let mut i: usize = 0;
    let ghost mut done: Seq<PathToken> = Seq::empty();
    assert(s.subrange(0, 0) =~= Seq::<char>::empty());
    assert(literals(Seq::<char>::empty()) =~= Seq::<PathToken>::empty());
    assert(done + literals(s.subrange(0, 0)) + tokens_from(s, 0) =~= tokens_from(s, 0));
    assert(views(names@) =~= Seq::<Seq<char>>::empty());
    while i < n
        invariant
            0 <= run_start <= i <= n,
            n == s.len(),
            s == path@,
            path_tokens(s) == done + literals(s.subrange(run_start as int, i as int))
                + tokens_from(s, i as int),
            out@ == tokens_regex(done),
            views(names@) == param_names(done),
        decreases n - i,
    {
        let c = path.get_char(i);
        if c == ':' && i + 1 < n && path.get_char(i + 1) != '/' {
            flush_literals(path, run_start, i, &mut out);
            proof {
                lemma_push_literals(done, s.subrange(run_start as int, i as int));
                done = done + literals(s.subrange(run_start as int, i as int));
            }
            let mut j: usize = i + 1;
            while j < n && path.get_char(j) != '/'
                invariant
                    i + 1 <= j <= n,
                    n == s.len(),
                    s == path@,
                    segment_end(s, i + 1) == segment_end(s, j as int),
                decreases n - j,
            {
                j = j + 1;
            }
            let name = String::from_str(path.substring_char(i + 1, j));
            out.append("([^/]+)");
            let ghost t = PathToken::Param(s.subrange(i + 1, j as int));
            proof {
                assert(tokens_from(s, i as int) == seq![t] + tokens_from(s, j as int));
                lemma_push_token(done, t);
                assert(views(names@.push(name)) =~= views(names@).push(name@));
                done = done.push(t);
            }
            names.push(name);
            i = j;
            run_start = j;
            proof {
                assert(s.subrange(run_start as int, i as int) =~= Seq::<char>::empty());
                assert(literals(Seq::<char>::empty()) =~= Seq::<PathToken>::empty());
                assert(path_tokens(s) =~= done + literals(s.subrange(run_start as int, i as int))
                    + tokens_from(s, i as int));
            }
        } else if c == '*' {
            flush_literals(path, run_start, i, &mut out);
            proof {
                lemma_push_literals(done, s.subrange(run_start as int, i as int));
                done = done + literals(s.subrange(run_start as int, i as int));
            }
            out.append("(.*)");
            let star = String::from_str("*");
            proof {
                assert(tokens_from(s, i as int) == seq![PathToken::Glob] + tokens_from(
                    s,
                    i + 1,
                ));
                lemma_push_token(done, PathToken::Glob);
                assert(views(names@.push(star)) =~= views(names@).push(star@));
                done = done.push(PathToken::Glob);
            }
            names.push(star);
            i = i + 1;
            run_start = i;
            proof {
                assert(s.subrange(run_start as int, i as int) =~= Seq::<char>::empty());
                assert(literals(Seq::<char>::empty()) =~= Seq::<PathToken>::empty());
                assert(path_tokens(s) =~= done + literals(s.subrange(run_start as int, i as int))
                    + tokens_from(s, i as int));
            }
        } else {
            proof {
                assert(!param_starts_at(s, i as int));
                lemma_literal_run(s, run_start as int, i as int);
                assert(done + literals(s.subrange(run_start as int, i as int)) + tokens_from(s, i as int)
                    =~= done + (literals(s.subrange(run_start as int, i as int)) + tokens_from(s, i as int)));
                assert(done + literals(s.subrange(run_start as int, i + 1)) + tokens_from(s, i + 1)
                    =~= done + (literals(s.subrange(run_start as int, i + 1)) + tokens_from(s, i + 1)));
                assert(path_tokens(s) =~= done + literals(s.subrange(run_start as int, i + 1))
                    + tokens_from(s, i + 1));
            }
            i = i + 1;
        }
    }
    flush_literals(path, run_start, n, &mut out);
    proof {
        lemma_push_literals(done, s.subrange(run_start as int, n as int));
        assert(tokens_from(s, n as int) =~= Seq::<PathToken>::empty());
        assert(path_tokens(s) =~= done + literals(s.subrange(run_start as int, n as int)));
    }
    Ok((out, names))
}

} // verus!
