//! Shell-style patterns, compiled and matched by the `glob` crate.
use vstd::prelude::*;

use crate::text::ends_with;

verus! {

#[verifier::external_type_specification]
#[verifier::external_body]
pub struct ExGlobPattern(glob::Pattern);

/// What `glob::Pattern::new` makes of `pattern`: `None` when it compiles, otherwise
/// the text of the error it reports.
pub uninterp spec fn glob_compile_error(pattern: Seq<char>) -> Option<Seq<char>>;

/// Whether the compiled `pattern` matches `text` under the default match options, as
/// the crate answers on the target this library is built for (on Windows it compares
/// `/` and `\` as equal; elsewhere every character stands for itself).
pub uninterp spec fn glob_matches(pattern: Seq<char>, text: Seq<char>) -> bool;

/// A pattern made only of literal characters, `?`, and single `*` (no `[` and no `**`).
pub open spec fn is_simple_glob(p: Seq<char>) -> bool {
    forall|i: int|
        0 <= i < p.len() ==> #[trigger] p[i] != '[' && (p[i] == '*' ==> (i + 1 >= p.len() || p[i
            + 1] != '*'))
}

/// The documented meaning of a simple pattern: `?` matches any one character,
/// `*` any (possibly empty) sequence, and every other character itself.
pub open spec fn simple_match(p: Seq<char>, s: Seq<char>) -> bool
    decreases p.len() + s.len(),
{
    if p.len() == 0 {
        s.len() == 0
    } else if p[0] == '*' {
        simple_match(p.drop_first(), s) || (s.len() > 0 && simple_match(p, s.drop_first()))
    } else if s.len() == 0 {
        false
    } else if p[0] == '?' {
        simple_match(p.drop_first(), s.drop_first())
    } else {
        p[0] == s[0] && simple_match(p.drop_first(), s.drop_first())
    }
}

/// `s` holds no backslash, the character that `glob` also takes for a path separator
/// on Windows.
pub open spec fn no_backslash(s: Seq<char>) -> bool {
    forall|i: int| 0 <= i < s.len() ==> #[trigger] s[i] != '\\'
}

/// A pattern without `*` and `?`: every character stands for itself.
pub open spec fn is_literal_glob(p: Seq<char>) -> bool {
    forall|i: int| 0 <= i < p.len() ==> #[trigger] p[i] != '*' && p[i] != '?'
}

/// A pattern without wildcards matches its own text.
pub proof fn lemma_literal_matches_itself(l: Seq<char>)
    requires
        is_literal_glob(l),
    ensures
        simple_match(l, l),
    decreases l.len(),
{
    if l.len() > 0 {
        let t = l.drop_first();
        assert forall|i: int| 0 <= i < t.len() implies #[trigger] t[i] != '*' && t[i] != '?' by {
            assert(t[i] == l[i + 1]);
        }
        lemma_literal_matches_itself(t);
        assert(l[0] != '*' && l[0] != '?');
    }
}

/// `*` followed by a literal matches every text that ends with the literal.
pub proof fn lemma_star_literal_matches(l: Seq<char>, s: Seq<char>)
    requires
        is_literal_glob(l),
        ends_with(s, l),
    ensures
        simple_match(seq!['*'] + l, s),
    decreases s.len(),
{
    let p = seq!['*'] + l;
    assert(p[0] == '*');
    assert(p.drop_first() =~= l);
    if s.len() == l.len() {
        assert(s =~= s.skip(0));
        lemma_literal_matches_itself(l);
    } else {
        let t = s.drop_first();
        assert(t.skip(t.len() - l.len()) =~= s.skip(s.len() - l.len()));
        lemma_star_literal_matches(l, t);
    }
}

/// A literal, `*`, and a literal match every text that begins with the first, ends
/// with the second, and is long enough for both.
pub proof fn lemma_literal_star_literal_matches(a: Seq<char>, c: Seq<char>, s: Seq<char>)
    requires
        is_literal_glob(a),
        is_literal_glob(c),
        a.len() + c.len() <= s.len(),
        s.take(a.len() as int) == a,
        ends_with(s, c),
    ensures
        simple_match(a + seq!['*'] + c, s),
    decreases a.len(),
{
    if a.len() == 0 {
        assert(a + seq!['*'] + c =~= seq!['*'] + c);
        lemma_star_literal_matches(c, s);
    } else {
        let p = a + seq!['*'] + c;
        let a2 = a.drop_first();
        let s2 = s.drop_first();
        assert(p[0] == a[0]);
        assert(s[0] == s.take(a.len() as int)[0]);
        assert(a[0] != '*' && a[0] != '?');
        assert(p.drop_first() =~= a2 + seq!['*'] + c);
        assert forall|i: int| 0 <= i < a2.len() implies #[trigger] a2[i] != '*' && a2[i] != '?' by {
            assert(a2[i] == a[i + 1]);
        }
        assert(s2.take(a2.len() as int) =~= a2) by {
            assert forall|i: int| 0 <= i < a2.len() implies s2.take(a2.len() as int)[i] == a2[i] by {
                assert(s.take(a.len() as int)[i + 1] == s[i + 1]);
            }
        }
        assert(s2.skip(s2.len() - c.len()) =~= s.skip(s.len() - c.len()));
        lemma_literal_star_literal_matches(a2, c, s2);
    }
}

/// A pattern without wildcards matches only its own text.
pub proof fn lemma_literal_matches_only_itself(l: Seq<char>, s: Seq<char>)
    requires
        is_literal_glob(l),
        simple_match(l, s),
    ensures
        s == l,
    decreases l.len(),
{
    if l.len() == 0 {
        assert(s =~= l);
    } else {
        let t = l.drop_first();
        assert forall|i: int| 0 <= i < t.len() implies #[trigger] t[i] != '*' && t[i] != '?' by {
            assert(t[i] == l[i + 1]);
        }
        assert(l[0] != '*' && l[0] != '?');
        lemma_literal_matches_only_itself(t, s.drop_first());
        assert(s =~= l) by {
            assert forall|i: int| 0 <= i < s.len() implies s[i] == l[i] by {
                if i > 0 {
                    assert(s[i] == s.drop_first()[i - 1]);
                }
            }
        }
    }
}

/// `*` followed by a literal matches only texts that end with the literal.
pub proof fn lemma_star_literal_only(l: Seq<char>, s: Seq<char>)
    requires
        is_literal_glob(l),
        simple_match(seq!['*'] + l, s),
    ensures
        ends_with(s, l),
    decreases s.len(),
{
    let p = seq!['*'] + l;
    assert(p[0] == '*');
    assert(p.drop_first() =~= l);
    if simple_match(l, s) {
        lemma_literal_matches_only_itself(l, s);
        assert(s.skip(0) =~= s);
    } else {
        let t = s.drop_first();
        lemma_star_literal_only(l, t);
        assert(t.skip(t.len() - l.len()) =~= s.skip(s.len() - l.len()));
    }
}

/// A literal, `*`, and a literal match only texts that begin with the first, end
/// with the second, and are long enough for both.
pub proof fn lemma_literal_star_literal_only(a: Seq<char>, c: Seq<char>, s: Seq<char>)
    requires
        is_literal_glob(a),
        is_literal_glob(c),
        simple_match(a + seq!['*'] + c, s),
    ensures
        a.len() + c.len() <= s.len(),
        s.take(a.len() as int) == a,
        ends_with(s, c),
    decreases a.len(),
{
    if a.len() == 0 {
        assert(a + seq!['*'] + c =~= seq!['*'] + c);
        lemma_star_literal_only(c, s);
        assert(s.take(0) =~= a);
    } else {
        let p = a + seq!['*'] + c;
        let a2 = a.drop_first();
        assert(p[0] == a[0]);
        assert(a[0] != '*' && a[0] != '?');
        assert(p.drop_first() =~= a2 + seq!['*'] + c);
        assert forall|i: int| 0 <= i < a2.len() implies #[trigger] a2[i] != '*' && a2[i] != '?' by {
            assert(a2[i] == a[i + 1]);
        }
        let s2 = s.drop_first();
        lemma_literal_star_literal_only(a2, c, s2);
        assert(s.take(a.len() as int) =~= a) by {
            assert forall|i: int| 0 <= i < a.len() implies s.take(a.len() as int)[i] == a[i] by {
                if i > 0 {
                    assert(s[i] == s2[i - 1]);
                    assert(s2.take(a2.len() as int)[i - 1] == a2[i - 1]);
                }
            }
        }
        assert(s2.skip(s2.len() - c.len()) =~= s.skip(s.len() - c.len()));
    }
}

/// A compiled pattern together with the text it was compiled from.
pub struct GlobPattern {
    inner: glob::Pattern,
    text: Ghost<Seq<char>>,
}

impl GlobPattern {
    /// The text this pattern was compiled from.
    pub closed spec fn source(&self) -> Seq<char> {
        self.text@
    }

    /// Compiles `pattern` with `glob::Pattern::new`. The contract claims that the
    /// outcome depends on the text alone, that patterns without `[` and `**` always
    /// compile (the only errors the crate's parser raises come from those), and
    /// that an error is reported as the text of the crate's `PatternError`.
    #[verifier::external_body]
    pub(crate) fn compile(pattern: &str) -> (r: Result<GlobPattern, String>)
        ensures
            r is Ok <==> glob_compile_error(pattern@) is None,
            r matches Ok(g) ==> g.source() == pattern@,
            r matches Err(m) ==> glob_compile_error(pattern@) == Some(m@),
            is_simple_glob(pattern@) ==> r is Ok,
    {
        match glob::Pattern::new(pattern) {
            Ok(p) => Ok(GlobPattern { inner: p, text: Ghost(pattern@) }),
            Err(e) => Err(e.to_string()),
        }
    }

    /// Matches `text` with `glob::Pattern::matches` (default options: case-sensitive,
    /// `*` and `?` also match `/`). The contract claims that the answer depends on the
    /// pattern text and `text` alone, and that for a simple pattern it is the
    /// documented meaning `simple_match` when neither the pattern nor `text` holds a
    /// backslash (on Windows the crate compares `\` and `/` as equal).
    #[verifier::external_body]
    pub(crate) fn matches(&self, text: &str) -> (b: bool)
        ensures
            b == glob_matches(self.source(), text@),
            is_simple_glob(self.source()) && no_backslash(self.source()) && no_backslash(text@) ==> (b
                == simple_match(self.source(), text@)),
    {
        self.inner.matches(text)
    }
}

} // verus!
