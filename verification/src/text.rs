//! Character-level helpers over `str` and `String`, specified on `Seq<char>`.
use vstd::prelude::*;

verus! {

pub assume_specification[ String::push ](s: &mut String, ch: char)
    ensures
        final(s)@ == old(s)@.push(ch),
;

// ---------------------------------------------------------------------------
// Specifications
// ---------------------------------------------------------------------------

/// `prefix` is a prefix of `s`.
pub open spec fn starts_with(s: Seq<char>, prefix: Seq<char>) -> bool {
    prefix.len() <= s.len() && s.take(prefix.len() as int) == prefix
}

/// `suffix` is a suffix of `s`.
pub open spec fn ends_with(s: Seq<char>, suffix: Seq<char>) -> bool {
    suffix.len() <= s.len() && s.skip(s.len() - suffix.len()) == suffix
}

/// `needle` occurs in `s` at position `i`.
pub open spec fn occurs_at(s: Seq<char>, needle: Seq<char>, i: int) -> bool {
    0 <= i && i + needle.len() <= s.len() && s.subrange(i, i + needle.len()) == needle
}

/// `needle` occurs somewhere in `s`.
pub open spec fn contains(s: Seq<char>, needle: Seq<char>) -> bool {
    exists|i: int| #[trigger] occurs_at(s, needle, i)
}

/// The characters with the Unicode `White_Space` property.
pub open spec fn is_ws(c: char) -> bool {
    let u = c as u32;
    ||| 0x09 <= u <= 0x0d
    ||| u == 0x20
    ||| u == 0x85
    ||| u == 0xa0
    ||| u == 0x1680
    ||| 0x2000 <= u <= 0x200a
    ||| u == 0x2028
    ||| u == 0x2029
    ||| u == 0x202f
    ||| u == 0x205f
    ||| u == 0x3000
}

/// `s` without its leading white space.
pub open spec fn trim_start(s: Seq<char>) -> Seq<char>
    decreases s.len(),
{
    if s.len() > 0 && is_ws(s[0]) {
        trim_start(s.drop_first())
    } else {
        s
    }
}

/// `s` without its trailing white space.
pub open spec fn trim_end(s: Seq<char>) -> Seq<char>
    decreases s.len(),
{
    if s.len() > 0 && is_ws(s.last()) {
        trim_end(s.drop_last())
    } else {
        s
    }
}

/// `s` without leading and trailing white space.
pub open spec fn trim(s: Seq<char>) -> Seq<char> {
    trim_end(trim_start(s))
}

/// The pieces of `s` between occurrences of `sep`; an empty `s` gives one empty piece.
pub open spec fn split_on(s: Seq<char>, sep: char) -> Seq<Seq<char>>
    decreases s.len(),
{
    if s.len() == 0 {
        seq![Seq::<char>::empty()]
    } else {
        let rest = split_on(s.drop_last(), sep);
        if s.last() == sep {
            rest.push(Seq::<char>::empty())
        } else {
            rest.update(rest.len() - 1, rest.last().push(s.last()))
        }
    }
}

/// The comma-separated pieces of `s`, each trimmed of white space.
pub open spec fn comma_pieces(s: Seq<char>) -> Seq<Seq<char>> {
    split_on(s, ',').map_values(|p: Seq<char>| trim(p))
}

/// `s` with every backslash turned into a slash.
pub open spec fn slashes(s: Seq<char>) -> Seq<char> {
    s.map_values(|c: char| if c == '\\' { '/' } else { c })
}

/// `s` with every leading `./` removed.
pub open spec fn strip_dot_slash(s: Seq<char>) -> Seq<char>
    decreases s.len(),
{
    if s.len() >= 2 && s[0] == '.' && s[1] == '/' {
        strip_dot_slash(s.skip(2))
    } else {
        s
    }
}

/// A path as the scope rules read it: backslashes become slashes, leading `./` go.
pub open spec fn normalize_path(s: Seq<char>) -> Seq<char> {
    strip_dot_slash(slashes(s))
}

/// The last normal component among `segs`: empty and `.` segments are skipped,
/// and a final `..` gives the empty sequence.
pub open spec fn last_normal(segs: Seq<Seq<char>>) -> Seq<char>
    decreases segs.len(),
{
    if segs.len() == 0 {
        Seq::<char>::empty()
    } else {
        let l = segs.last();
        if l.len() == 0 || l == seq!['.'] {
            last_normal(segs.drop_last())
        } else if l == seq!['.', '.'] {
            Seq::<char>::empty()
        } else {
            l
        }
    }
}

/// The final component of a `/`-separated path, or the empty sequence when it has none.
pub open spec fn basename(p: Seq<char>) -> Seq<char> {
    last_normal(split_on(p, '/'))
}

/// Lexicographic order by code point, the order of UTF-8 bytes.
pub open spec fn lex_le(a: Seq<char>, b: Seq<char>) -> bool
    decreases a.len(),
{
    if a.len() == 0 {
        true
    } else if b.len() == 0 {
        false
    } else if a[0] < b[0] {
        true
    } else if a[0] > b[0] {
        false
    } else {
        lex_le(a.drop_first(), b.drop_first())
    }
}

/// Strict lexicographic order.
pub open spec fn lex_lt(a: Seq<char>, b: Seq<char>) -> bool {
    lex_le(a, b) && a != b
}

// ---------------------------------------------------------------------------
// Conversions
// ---------------------------------------------------------------------------

/// The characters of `s`, in order.
pub fn chars_of(s: &str) -> (v: Vec<char>)
    ensures
        v@ == s@,
{
    let mut v: Vec<char> = Vec::new();
    for c in it: s.chars()
        invariant
            v@ == it.seq().take(it.index() as int),
            it.seq() == s@,
    {
        v.push(c);
    }
    v
}

/// A `String` holding the characters of `v`.
pub fn string_of(v: &[char]) -> (s: String)
    ensures
        s@ == v@,
{
    let mut s = String::new();
    let mut i: usize = 0;
    while i < v.len()
        invariant
            i <= v.len(),
            s@ == v@.take(i as int),
        decreases v.len() - i,
    {
        s.push(v[i]);
        i = i + 1;
        assert(v@.take(i as int) == v@.take((i - 1) as int).push(v@[i - 1]));
    }
    assert(v@.take(v.len() as int) == v@);
    s
}

/// The decimal digit for `d`.
pub open spec fn digit_char(d: nat) -> char {
    seq!['0', '1', '2', '3', '4', '5', '6', '7', '8', '9'][d as int]
}

/// `n` in decimal, without leading zeros.
pub open spec fn decimal(n: nat) -> Seq<char>
    decreases n,
{
    if n < 10 {
        seq![digit_char(n)]
    } else {
        decimal(n / 10).push(digit_char(n % 10))
    }
}

/// `i` in decimal, with a leading `-` when it is negative.
pub open spec fn int_decimal(i: int) -> Seq<char> {
    if i < 0 {
        seq!['-'] + decimal((-i) as nat)
    } else {
        decimal(i as nat)
    }
}

/// Appends `n` in decimal to `out`.
pub fn push_decimal(n: u128, out: &mut String)
    ensures
        final(out)@ == old(out)@ + decimal(n as nat),
    decreases n,
{
    if n >= 10 {
        push_decimal(n / 10, out);
    }
    let d = (n % 10) as usize;
    let digits = ['0', '1', '2', '3', '4', '5', '6', '7', '8', '9'];
    let c = digits[d];
    assert(c == digit_char((n % 10) as nat));
    out.push(c);
}

/// `i` in decimal.
pub fn int_string(i: i64) -> (r: String)
    ensures
        r@ == int_decimal(i as int),
{
    let mut r = String::new();
    if i < 0 {
        r.push('-');
        let m: i128 = 0 - (i as i128);
        push_decimal(m as u128, &mut r);
    } else {
        push_decimal(i as u128, &mut r);
    }
    r
}

/// `n` in decimal.
pub fn count_string(n: usize) -> (r: String)
    ensures
        r@ == decimal(n as nat),
{
    let mut r = String::new();
    push_decimal(n as u128, &mut r);
    r
}

/// `a` followed by `b`.
pub fn concat(a: &str, b: &str) -> (r: String)
    ensures
        r@ == a@ + b@,
{
    let mut r = String::from_str(a);
    r.append(b);
    r
}

/// Equality of two strings, character by character.
pub fn str_eq(a: &str, b: &str) -> (r: bool)
    ensures
        r == (a@ == b@),
{
    let va = chars_of(a);
    let vb = chars_of(b);
    slice_eq(&va, &vb)
}

/// Equality of two character slices.
pub fn slice_eq(a: &[char], b: &[char]) -> (r: bool)
    ensures
        r == (a@ == b@),
{
    if a.len() != b.len() {
        return false;
    }
    let mut i: usize = 0;
    while i < a.len()
        invariant
            i <= a.len(),
            a.len() == b.len(),
            forall|j: int| 0 <= j < i ==> a@[j] == b@[j],
        decreases a.len() - i,
    {
        if a[i] != b[i] {
            return false;
        }
        i = i + 1;
    }
    assert(a@ =~= b@);
    true
}

// ---------------------------------------------------------------------------
// Searching
// ---------------------------------------------------------------------------

/// Whether `s` occurs in `t` at position `i`.
pub fn occurs_at_exec(t: &[char], s: &[char], i: usize) -> (r: bool)
    ensures
        r == occurs_at(t@, s@, i as int),
{
    if i > t.len() || s.len() > t.len() - i {
        return false;
    }
    let mut j: usize = 0;
    while j < s.len()
        invariant
            i + s.len() <= t.len(),
            j <= s.len(),
            forall|k: int| 0 <= k < j ==> t@[i + k] == s@[k],
        decreases s.len() - j,
    {
        if t[i + j] != s[j] {
            assert(t@.subrange(i as int, i + s.len())[j as int] != s@[j as int]);
            return false;
        }
        j = j + 1;
    }
    assert(t@.subrange(i as int, i + s.len()) =~= s@);
    true
}

/// Whether `t` begins with `p`.
pub fn starts_with_exec(t: &[char], p: &[char]) -> (r: bool)
    ensures
        r == starts_with(t@, p@),
{
    let r = occurs_at_exec(t, p, 0);
    assert(t@.subrange(0, p@.len() as int) == t@.take(p@.len() as int));
    r
}

/// Whether `t` ends with `p`.
pub fn ends_with_exec(t: &[char], p: &[char]) -> (r: bool)
    ensures
        r == ends_with(t@, p@),
{
    if p.len() > t.len() {
        return false;
    }
    let r = occurs_at_exec(t, p, t.len() - p.len());
    assert(t@.subrange(t.len() - p.len(), t.len() as int) == t@.skip(t.len() - p.len()));
    r
}

/// Whether `p` occurs anywhere in `t`.
pub fn contains_exec(t: &[char], p: &[char]) -> (r: bool)
    ensures
        r == contains(t@, p@),
{
    if p.len() > t.len() {
        assert forall|i: int| !occurs_at(t@, p@, i) by {}
        return false;
    }
    let last = t.len() - p.len();
    let mut i: usize = 0;
    loop
        invariant
            p.len() <= t.len(),
            last == t.len() - p.len(),
            i <= last,
            forall|k: int| 0 <= k < i ==> !occurs_at(t@, p@, k),
        ensures
            forall|k: int| 0 <= k <= last ==> !occurs_at(t@, p@, k),
        decreases last - i,
    {
        if occurs_at_exec(t, p, i) {
            return true;
        }
        if i == last {
            break;
        }
        i = i + 1;
    }
    assert forall|k: int| !occurs_at(t@, p@, k) by {
        if 0 <= k <= last {
        }
    }
    false
}

/// Whether `c` has the Unicode `White_Space` property.
pub fn is_whitespace(c: char) -> (r: bool)
    ensures
        r == is_ws(c),
{
    let u = c as u32;
    (0x09 <= u && u <= 0x0d) || u == 0x20 || u == 0x85 || u == 0xa0 || u == 0x1680 || (0x2000 <= u
        && u <= 0x200a) || u == 0x2028 || u == 0x2029 || u == 0x202f || u == 0x205f || u == 0x3000
}


// ---------------------------------------------------------------------------
// Trimming, splitting and paths
// ---------------------------------------------------------------------------

/// The bounds of `v[lo..hi]` once trimmed of white space on both sides.
pub fn trim_bounds(v: &[char], lo: usize, hi: usize) -> (r: (usize, usize))
    requires
        lo <= hi <= v.len(),
    ensures
        lo <= r.0 <= r.1 <= hi,
        v@.subrange(r.0 as int, r.1 as int) == trim(v@.subrange(lo as int, hi as int)),
{
    let mut a = lo;
    while a < hi && is_whitespace(v[a])
        invariant
            lo <= a <= hi <= v.len(),
            trim_start(v@.subrange(lo as int, hi as int)) == trim_start(
                v@.subrange(a as int, hi as int),
            ),
        decreases hi - a,
    {
        assert(v@.subrange(a as int, hi as int).drop_first() =~= v@.subrange(
            a + 1,
            hi as int,
        ));
        a = a + 1;
    }
    let mut b = hi;
    while b > a && is_whitespace(v[b - 1])
        invariant
            lo <= a <= b <= hi <= v.len(),
            trim_end(v@.subrange(a as int, hi as int)) == trim_end(v@.subrange(a as int, b as int)),
        decreases b - a,
    {
        assert(v@.subrange(a as int, b as int).drop_last() =~= v@.subrange(a as int, b - 1));
        b = b - 1;
    }
    (a, b)
}

/// The bounds of the pieces of `v` between occurrences of `sep`.
pub fn split_ranges(v: &[char], sep: char) -> (r: Vec<(usize, usize)>)
    ensures
        r@.len() == split_on(v@, sep).len(),
        forall|j: int|
            0 <= j < r@.len() ==> {
                &&& (#[trigger] r@[j]).0 <= r@[j].1 <= v.len()
                &&& v@.subrange(r@[j].0 as int, r@[j].1 as int) == split_on(v@, sep)[j]
            },
{
    let mut r: Vec<(usize, usize)> = Vec::new();
    let mut start: usize = 0;
    let mut i: usize = 0;
    assert(v@.take(0) =~= Seq::<char>::empty());
    assert(v@.subrange(0, 0) =~= Seq::<char>::empty());
    while i < v.len()
        invariant
            i <= v.len(),
            start <= i,
            r@.len() + 1 == split_on(v@.take(i as int), sep).len(),
            forall|j: int|
                0 <= j < r@.len() ==> {
                    &&& (#[trigger] r@[j]).0 <= r@[j].1 <= v.len()
                    &&& v@.subrange(r@[j].0 as int, r@[j].1 as int) == split_on(
                        v@.take(i as int),
                        sep,
                    )[j]
                },
            v@.subrange(start as int, i as int) == split_on(v@.take(i as int), sep).last(),
        decreases v.len() - i,
    {
        let ghost old_sp = split_on(v@.take(i as int), sep);
        assert(v@.take(i + 1).drop_last() =~= v@.take(i as int));
        assert(v@.take(i + 1).last() == v@[i as int]);
        if v[i] == sep {
            r.push((start, i));
            start = i + 1;
            assert(v@.subrange(start as int, i + 1) =~= Seq::<char>::empty());
        } else {
            assert(v@.subrange(start as int, i + 1) =~= v@.subrange(start as int, i as int).push(
                v@[i as int],
            ));
        }
        i = i + 1;
    }
    r.push((start, i));
    assert(v@.take(v.len() as int) =~= v@);
    r
}

/// The comma-separated pieces of `s`, each trimmed of white space.
pub fn comma_piece_strs(s: &str) -> (r: Vec<&str>)
    ensures
        r@.len() == comma_pieces(s@).len(),
        forall|j: int| 0 <= j < r@.len() ==> (#[trigger] r@[j])@ == comma_pieces(s@)[j],
{
    let v = chars_of(s);
    let ranges = split_ranges(&v, ',');
    let mut r: Vec<&str> = Vec::new();
    let mut k: usize = 0;
    while k < ranges.len()
        invariant
            v@ == s@,
            ranges@.len() == split_on(v@, ',').len(),
            forall|j: int|
                0 <= j < ranges@.len() ==> {
                    &&& (#[trigger] ranges@[j]).0 <= ranges@[j].1 <= v.len()
                    &&& v@.subrange(ranges@[j].0 as int, ranges@[j].1 as int) == split_on(
                        v@,
                        ',',
                    )[j]
                },
            k <= ranges.len(),
            r@.len() == k,
            forall|j: int| 0 <= j < k ==> (#[trigger] r@[j])@ == comma_pieces(s@)[j],
        decreases ranges.len() - k,
    {
        let (lo, hi) = ranges[k];
        let (a, b) = trim_bounds(&v, lo, hi);
        let piece = s.substring_char(a, b);
        r.push(piece);
        k = k + 1;
    }
    r
}

/// `v` with backslashes turned into slashes.
pub fn slashes_exec(v: &[char]) -> (w: Vec<char>)
    ensures
        w@ == slashes(v@),
{
    let mut w: Vec<char> = Vec::new();
    let mut i: usize = 0;
    while i < v.len()
        invariant
            i <= v.len(),
            w@ == slashes(v@.take(i as int)),
        decreases v.len() - i,
    {
        let c = if v[i] == '\\' {
            '/'
        } else {
            v[i]
        };
        w.push(c);
        i = i + 1;
        assert(slashes(v@.take(i as int)) =~= slashes(v@.take((i - 1) as int)).push(c));
    }
    assert(v@.take(v.len() as int) =~= v@);
    w
}

/// `v` with backslashes turned into slashes and leading `./` removed.
pub fn normalize_path_exec(v: &[char]) -> (r: Vec<char>)
    ensures
        r@ == normalize_path(v@),
{
    let w = slashes_exec(v);
    let mut k: usize = 0;
    assert(w@.skip(0) =~= w@);
    while w.len() - k >= 2 && w[k] == '.' && w[k + 1] == '/'
        invariant
            k <= w.len(),
            strip_dot_slash(w@) == strip_dot_slash(w@.skip(k as int)),
        decreases w.len() - k,
    {
        assert(w@.skip(k as int).skip(2) =~= w@.skip(k + 2));
        k = k + 2;
    }
    let r = copy_range(&w, k, w.len());
    assert(w@.subrange(k as int, w.len() as int) =~= w@.skip(k as int));
    r
}

/// A copy of `v[lo..hi]`.
pub fn copy_range(v: &[char], lo: usize, hi: usize) -> (r: Vec<char>)
    requires
        lo <= hi <= v.len(),
    ensures
        r@ == v@.subrange(lo as int, hi as int),
{
    let mut r: Vec<char> = Vec::new();
    let mut j = lo;
    while j < hi
        invariant
            lo <= j <= hi <= v.len(),
            r@ == v@.subrange(lo as int, j as int),
        decreases hi - j,
    {
        r.push(v[j]);
        j = j + 1;
        assert(v@.subrange(lo as int, j as int) =~= v@.subrange(lo as int, j - 1).push(v@[j - 1]));
    }
    r
}

/// The final component of the `/`-separated path `v`.
pub fn basename_exec(v: &[char]) -> (r: Vec<char>)
    ensures
        r@ == basename(v@),
{
    let ranges = split_ranges(v, '/');
    let ghost segs = split_on(v@, '/');
    let mut j = ranges.len();
    assert(segs.take(j as int) =~= segs);
    while j > 0
        invariant
            j <= ranges.len(),
            ranges@.len() == segs.len(),
            segs == split_on(v@, '/'),
            forall|q: int|
                0 <= q < ranges@.len() ==> {
                    &&& (#[trigger] ranges@[q]).0 <= ranges@[q].1 <= v.len()
                    &&& v@.subrange(ranges@[q].0 as int, ranges@[q].1 as int) == segs[q]
                },
            last_normal(segs) == last_normal(segs.take(j as int)),
        decreases j,
    {
        let (lo, hi) = ranges[j - 1];
        let ghost l = segs.take(j as int).last();
        assert(l == v@.subrange(lo as int, hi as int));
        assert(segs.take(j as int).drop_last() =~= segs.take(j - 1));
        if lo == hi {
            assert(l.len() == 0);
            j = j - 1;
        } else if hi - lo == 1 && v[lo] == '.' {
            assert(l =~= seq!['.']);
            j = j - 1;
        } else if hi - lo == 2 && v[lo] == '.' && v[lo + 1] == '.' {
            assert(l =~= seq!['.', '.']);
            return Vec::new();
        } else {
            assert(l.len() != 0);
            assert(l != seq!['.']) by {
                if l.len() == 1 {
                    assert(l[0] == v@[lo as int]);
                }
            }
            assert(l != seq!['.', '.']) by {
                if l.len() == 2 {
                    assert(l[0] == v@[lo as int]);
                    assert(l[1] == v@[lo + 1]);
                }
            }
            return copy_range(v, lo, hi);
        }
    }
    Vec::new()
}

/// Lexicographic comparison by code point.
pub fn lex_le_exec(a: &[char], b: &[char]) -> (r: bool)
    ensures
        r == lex_le(a@, b@),
{
    let mut i: usize = 0;
    assert(a@.skip(0) =~= a@);
    assert(b@.skip(0) =~= b@);
    while i < a.len() && i < b.len() && a[i] == b[i]
        invariant
            i <= a.len(),
            i <= b.len(),
            lex_le(a@, b@) == lex_le(a@.skip(i as int), b@.skip(i as int)),
        decreases a.len() - i,
    {
        assert(a@.skip(i as int).drop_first() =~= a@.skip(i + 1));
        assert(b@.skip(i as int).drop_first() =~= b@.skip(i + 1));
        i = i + 1;
    }
    if i == a.len() {
        true
    } else if i == b.len() {
        false
    } else {
        assert(a@.skip(i as int)[0] == a@[i as int]);
        assert(b@.skip(i as int)[0] == b@[i as int]);
        a[i] < b[i]
    }
}


/// Any two texts are ordered one way or the other.
pub proof fn lemma_lex_total(a: Seq<char>, b: Seq<char>)
    ensures
        lex_le(a, b) || lex_le(b, a),
    decreases a.len(),
{
    if a.len() > 0 && b.len() > 0 && a[0] == b[0] {
        lemma_lex_total(a.drop_first(), b.drop_first());
    }
}

/// The order of texts is transitive.
pub proof fn lemma_lex_trans(a: Seq<char>, b: Seq<char>, c: Seq<char>)
    requires
        lex_le(a, b),
        lex_le(b, c),
    ensures
        lex_le(a, c),
    decreases a.len(),
{
    if a.len() > 0 && b.len() > 0 && c.len() > 0 && a[0] == b[0] && b[0] == c[0] {
        lemma_lex_trans(a.drop_first(), b.drop_first(), c.drop_first());
    }
}

/// Texts ordered both ways are equal.
pub proof fn lemma_lex_antisym(a: Seq<char>, b: Seq<char>)
    requires
        lex_le(a, b),
        lex_le(b, a),
    ensures
        a == b,
    decreases a.len(),
{
    if a.len() > 0 && b.len() > 0 {
        lemma_lex_antisym(a.drop_first(), b.drop_first());
        assert(a =~= seq![a[0]] + a.drop_first());
        assert(b =~= seq![b[0]] + b.drop_first());
    }
}

} // verus!
