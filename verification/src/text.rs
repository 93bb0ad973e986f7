//! Character-level text model: the splitting, line breaking and trimming
//! that request parsing is built from, stated over `Seq<char>` and
//! implemented on `Vec<char>`.
use vstd::prelude::*;

verus! {

/// The characters that Rust's `char::is_whitespace` accepts (the Unicode
/// `White_Space` property).
pub open spec fn is_ws(c: char) -> bool {
    ||| c == '\t'
    ||| c == '\n'
    ||| c == '\x0B'
    ||| c == '\x0C'
    ||| c == '\r'
    ||| c == ' '
    ||| c == '\u{85}'
    ||| c == '\u{A0}'
    ||| c == '\u{1680}'
    ||| ('\u{2000}' <= c && c <= '\u{200A}')
    ||| c == '\u{2028}'
    ||| c == '\u{2029}'
    ||| c == '\u{202F}'
    ||| c == '\u{205F}'
    ||| c == '\u{3000}'
}

/// Whether `c` is a whitespace character.
pub fn is_whitespace(c: char) -> (r: bool)
    ensures
        r == is_ws(c),
{
    c == '\t' || c == '\n' || c == '\x0B' || c == '\x0C' || c == '\r' || c == ' ' || c == '\u{85}'
        || c == '\u{A0}' || c == '\u{1680}' || ('\u{2000}' <= c && c <= '\u{200A}') || c
        == '\u{2028}' || c == '\u{2029}' || c == '\u{202F}' || c == '\u{205F}' || c == '\u{3000}'
}

/// What separates the pieces of a split: one given character, or any
/// whitespace character.
#[derive(Clone, Copy)]
pub enum Sep {
    Char(char),
    Whitespace,
}

impl Sep {
    pub open spec fn spec_matches(self, c: char) -> bool {
        match self {
            Sep::Char(d) => c == d,
            Sep::Whitespace => is_ws(c),
        }
    }

    pub fn matches(&self, c: char) -> (r: bool)
        ensures
            r == self.spec_matches(c),
    {
        match self {
            Sep::Char(d) => c == *d,
            Sep::Whitespace => is_whitespace(c),
        }
    }
}

/// The pieces of `s` between separators, empty pieces included (as `str::split`):
/// splitting `s` followed by `c` starts a new piece when `c` is a separator
/// and otherwise extends the last piece with `c`.
pub open spec fn split_spec(s: Seq<char>, sep: Sep) -> Seq<Seq<char>>
    decreases s.len(),
{
    if s.len() == 0 {
        seq![Seq::<char>::empty()]
    } else {
        let prev = split_spec(s.drop_last(), sep);
        if sep.spec_matches(s.last()) {
            prev.push(Seq::<char>::empty())
        } else {
            prev.update(prev.len() - 1, prev.last().push(s.last()))
        }
    }
}

/// A split always yields at least one piece.
pub proof fn lemma_split_nonempty(s: Seq<char>, sep: Sep)
    ensures
        split_spec(s, sep).len() >= 1,
    decreases s.len(),
{
    if s.len() > 0 {
        lemma_split_nonempty(s.drop_last(), sep);
    }
}

/// No piece of a split contains a separator.
pub proof fn lemma_split_pieces_free(s: Seq<char>, sep: Sep)
    ensures
        forall|i: int, j: int|
            0 <= i < split_spec(s, sep).len() && 0 <= j < split_spec(s, sep)[i].len()
                ==> !sep.spec_matches(#[trigger] split_spec(s, sep)[i][j]),
    decreases s.len(),
{
    if s.len() > 0 {
        lemma_split_nonempty(s.drop_last(), sep);
        lemma_split_pieces_free(s.drop_last(), sep);
    }
}

/// A text without separators splits into itself alone.
pub proof fn lemma_split_free(s: Seq<char>, sep: Sep)
    requires
        forall|j: int| 0 <= j < s.len() ==> !sep.spec_matches(#[trigger] s[j]),
    ensures
        split_spec(s, sep) == seq![s],
    decreases s.len(),
{
    if s.len() > 0 {
        lemma_split_free(s.drop_last(), sep);
        assert(s.drop_last().push(s.last()) =~= s);
        assert(split_spec(s, sep) =~= seq![s]);
    } else {
        assert(s =~= Seq::<char>::empty());
    }
}

/// Splits `s` at every separator, keeping empty pieces.
pub fn split_chars(s: &Vec<char>, sep: Sep) -> (parts: Vec<Vec<char>>)
    ensures
        parts.deep_view() == split_spec(s@, sep),
{
    let mut parts: Vec<Vec<char>> = Vec::new();
    let mut cur: Vec<char> = Vec::new();
    let n = s.len();
    let mut i: usize = 0;
    proof {
        assert(s@.take(0) =~= Seq::<char>::empty());
        assert(parts.deep_view().push(cur@) =~= seq![Seq::<char>::empty()]);
    }
    while i < n
        invariant
            n == s.len(),
            i <= n,
            parts.deep_view().push(cur@) =~= split_spec(s@.take(i as int), sep),
        decreases n - i,
    {
        let c = s[i];
        let ghost old_parts = parts.deep_view();
        let ghost old_cur = cur@;
        proof {
            assert(cur.deep_view() =~= cur@);
            assert(s@.take(i + 1).drop_last() =~= s@.take(i as int));
            assert(s@.take(i + 1).last() == c);
        }
        if sep.matches(c) {
            parts.push(cur);
            cur = Vec::new();
            assert(parts.deep_view() =~= old_parts.push(old_cur));
        } else {
            cur.push(c);
            assert(parts.deep_view() =~= old_parts);
        }
        i = i + 1;
    }
    let ghost old_parts = parts.deep_view();
    let ghost old_cur = cur@;
    assert(cur.deep_view() =~= cur@);
    parts.push(cur);
    proof {
        assert(parts.deep_view() =~= old_parts.push(old_cur));
        assert(s@.take(n as int) =~= s@);
    }
    parts
}

/// `String::push` appends one character to the end of the string.
pub assume_specification[ String::push ](string: &mut String, ch: char)
    ensures
        final(string)@ == old(string)@.push(ch),
;

/// The characters of `s`, in order.
pub fn to_chars(s: &str) -> (v: Vec<char>)
    ensures
        v@ == s@,
{
    let n = s.unicode_len();
    let mut v: Vec<char> = Vec::new();
    let mut i: usize = 0;
    while i < n
        invariant
            n == s@.len(),
            i <= n,
            v@ == s@.take(i as int),
        decreases n - i,
    {
        v.push(s.get_char(i));
        i = i + 1;
        assert(v@ =~= s@.take(i as int));
    }
    assert(s@.take(n as int) =~= s@);
    v
}

/// A `String` holding the characters of `v`.
pub fn chars_to_string(v: &Vec<char>) -> (s: String)
    ensures
        s@ == v@,
{
    let mut s = String::new();
    let mut i: usize = 0;
    while i < v.len()
        invariant
            i <= v.len(),
            s@ == v@.take(i as int),
        decreases v.len() - i,
    {
        s.push(v[i]);
        i = i + 1;
        assert(s@ =~= v@.take(i as int));
    }
    assert(v@.take(v.len() as int) =~= v@);
    s
}

/// A copy of the characters of `v` from `from` up to `to`.
pub fn sub_chars(v: &Vec<char>, from: usize, to: usize) -> (r: Vec<char>)
    requires
        from <= to <= v.len(),
    ensures
        r@ == v@.subrange(from as int, to as int),
{
    let mut r: Vec<char> = Vec::new();
    let mut i: usize = from;
    while i < to
        invariant
            from <= i <= to <= v.len(),
            r@ == v@.subrange(from as int, i as int),
        decreases to - i,
    {
        r.push(v[i]);
        i = i + 1;
        assert(r@ =~= v@.subrange(from as int, i as int));
    }
    r
}

/// Whether `a` and `b` hold the same characters.
pub fn chars_eq(a: &Vec<char>, b: &Vec<char>) -> (r: bool)
    ensures
        r == (a@ == b@),
{
    if a.len() != b.len() {
        return false;
    }
    let mut i: usize = 0;
    while i < a.len()
        invariant
            a.len() == b.len(),
            i <= a.len(),
            forall|j: int| 0 <= j < i ==> a@[j] == b@[j],
        decreases a.len() - i,
    {
        if a[i] != b[i] {
            return false;
        }
        i = i + 1;
    }
    assert(a@ =~= b@);
    true
}

/// The first position of `c` in `s`.
pub fn find_char(s: &Vec<char>, c: char) -> (r: Option<usize>)
    ensures
        r matches Some(i) ==> s@.index_of_first(c) == Some(i as int),
        r is None ==> s@.index_of_first(c) is None,
{
    let mut i: usize = 0;
    proof {
        s@.index_of_first_ensures(c);
    }
    while i < s.len()
        invariant
            i <= s.len(),
            forall|j: int| 0 <= j < i ==> s@[j] != c,
        decreases s.len() - i,
    {
        if s[i] == c {
            proof {
                s@.index_of_first_ensures(c);
                assert(s@[i as int] == c);
                assert(s@.contains(c));
                let k = s@.index_of_first(c).unwrap();
                assert(k == i as int) by {
                    if k < i {
                        assert(s@[k] != c);
                    }
                }
            }
            return Some(i);
        }
        i = i + 1;
    }
    proof {
        s@.index_of_first_ensures(c);
        assert(!s@.contains(c));
    }
    None
}

/// Whether `pat` occurs in `s` starting at position `i`.
pub open spec fn occurs_at(s: Seq<char>, pat: Seq<char>, i: int) -> bool {
    0 <= i && i + pat.len() <= s.len() && s.subrange(i, i + pat.len()) == pat
}

/// For each position of `s`, its end included, whether `pat` occurs there.
pub open spec fn occurrences(s: Seq<char>, pat: Seq<char>) -> Seq<bool> {
    Seq::new(s.len() + 1, |i: int| occurs_at(s, pat, i))
}

/// The first position at which `pat` occurs in `s`.
pub open spec fn find_spec(s: Seq<char>, pat: Seq<char>) -> Option<int> {
    occurrences(s, pat).index_of_first(true)
}

/// Whether `pat` occurs at `s[i..]`.
fn occurs_at_exec(s: &Vec<char>, pat: &Vec<char>, i: usize) -> (r: bool)
    requires
        i <= s.len(),
    ensures
        r == occurs_at(s@, pat@, i as int),
{
    if pat.len() > s.len() - i {
        return false;
    }
    let mut k: usize = 0;
    while k < pat.len()
        invariant
            i <= s.len(),
            i + pat.len() <= s.len(),
            k <= pat.len(),
            forall|j: int| 0 <= j < k ==> s@[i + j] == pat@[j],
        decreases pat.len() - k,
    {
        if s[i + k] != pat[k] {
            assert(s@.subrange(i as int, i + pat.len())[k as int] != pat@[k as int]);
            return false;
        }
        k = k + 1;
    }
    assert(s@.subrange(i as int, i + pat.len()) =~= pat@);
    true
}

/// The first position at which `pat` occurs in `s`.
pub fn find_pattern(s: &Vec<char>, pat: &Vec<char>) -> (r: Option<usize>)
    ensures
        r matches Some(i) ==> find_spec(s@, pat@) == Some(i as int),
        r is None ==> find_spec(s@, pat@) is None,
{
    let ghost marks = occurrences(s@, pat@);
    proof {
        marks.index_of_first_ensures(true);
    }
    let mut i: usize = 0;
    while i < s.len()
        invariant
            i <= s.len(),
            marks == occurrences(s@, pat@),
            forall|j: int| 0 <= j < i ==> !marks[j],
        decreases s.len() - i,
    {
        if occurs_at_exec(s, pat, i) {
            proof {
                marks.index_of_first_ensures(true);
                assert(marks[i as int]);
                assert(marks.contains(true));
                let k = marks.index_of_first(true).unwrap();
                assert(k == i as int) by {
                    if k < i {
                        assert(!marks[k]);
                    }
                }
            }
            return Some(i);
        }
        i = i + 1;
    }
    if occurs_at_exec(s, pat, i) {
        proof {
            marks.index_of_first_ensures(true);
            assert(marks[i as int]);
            assert(marks.contains(true));
            let k = marks.index_of_first(true).unwrap();
            assert(k == i as int) by {
                if k < i {
                    assert(!marks[k]);
                }
            }
        }
        return Some(i);
    }
    proof {
        marks.index_of_first_ensures(true);
        assert(!marks.contains(true)) by {
            if marks.contains(true) {
                let k = choose|k: int| 0 <= k < marks.len() && marks[k] == true;
                assert(k == i as int || k < i);
            }
        }
    }
    None
}

/// The non-empty pieces of `s` between whitespace (as `str::split_whitespace`).
pub open spec fn words_spec(s: Seq<char>) -> Seq<Seq<char>> {
    split_spec(s, Sep::Whitespace).filter(|p: Seq<char>| p.len() > 0)
}

/// Splits `s` into its whitespace-separated words.
pub fn split_whitespace(s: &Vec<char>) -> (words: Vec<Vec<char>>)
    ensures
        words.deep_view() == words_spec(s@),
{
    let parts = split_chars(s, Sep::Whitespace);
    let ghost pv = parts.deep_view();
    let ghost f = |p: Seq<char>| p.len() > 0;
    let mut words: Vec<Vec<char>> = Vec::new();
    let mut i: usize = 0;
    proof {
        assert(pv.take(0) =~= Seq::<Seq<char>>::empty());
        reveal_with_fuel(Seq::filter, 1);
        assert(words.deep_view() =~= pv.take(0).filter(f));
    }
    while i < parts.len()
        invariant
            pv == parts.deep_view(),
            pv == split_spec(s@, Sep::Whitespace),
            i <= parts.len(),
            words.deep_view() == pv.take(i as int).filter(f),
            f == (|p: Seq<char>| p.len() > 0),
        decreases parts.len() - i,
    {
        let ghost before = words.deep_view();
        proof {
            assert(pv.take(i + 1) =~= pv.take(i as int).push(pv[i as int]));
            pv.take(i as int).lemma_filter_push(pv[i as int], f);
            assert(parts[i as int].deep_view() == pv[i as int]);
        }
        if parts[i].len() > 0 {
            let w = sub_chars(&parts[i], 0, parts[i].len());
            proof {
                assert(w@ =~= parts[i as int].deep_view());
                assert(w.deep_view() =~= w@);
            }
            words.push(w);
            assert(words.deep_view() =~= before.push(pv[i as int]));
        }
        i = i + 1;
    }
    assert(pv.take(parts.len() as int) =~= pv);
    words
}

/// A line without its final carriage return, if it has one.
pub open spec fn strip_cr(l: Seq<char>) -> Seq<char> {
    if l.len() > 0 && l.last() == '\r' {
        l.drop_last()
    } else {
        l
    }
}

/// The lines of `s` (as `str::lines`): the pieces between newlines, where a
/// final empty piece does not count and a line that ended with a newline
/// loses a carriage return before it.
pub open spec fn lines_spec(s: Seq<char>) -> Seq<Seq<char>> {
    let p = split_spec(s, Sep::Char('\n'));
    let n: int = if p.last().len() == 0 {
        p.len() - 1
    } else {
        p.len() as int
    };
    Seq::new(
        n as nat,
        |i: int|
            if i < p.len() - 1 {
                strip_cr(p[i])
            } else {
                p[i]
            },
    )
}

/// Splits `s` into lines.
pub fn lines(s: &Vec<char>) -> (ls: Vec<Vec<char>>)
    ensures
        ls.deep_view() == lines_spec(s@),
{
    let parts = split_chars(s, Sep::Char('\n'));
    let ghost pv = parts.deep_view();
    proof {
        lemma_split_nonempty(s@, Sep::Char('\n'));
    }
    let m = parts.len();
    let n = if parts[m - 1].len() == 0 {
        m - 1
    } else {
        m
    };
    assert(parts[m - 1].deep_view() == pv.last());
    let mut ls: Vec<Vec<char>> = Vec::new();
    let mut i: usize = 0;
    while i < n
        invariant
            pv == parts.deep_view(),
            m == parts.len(),
            n <= m,
            i <= n,
            ls.deep_view() == lines_spec(s@).take(i as int),
            lines_spec(s@).len() == n,
            pv == split_spec(s@, Sep::Char('\n')),
        decreases n - i,
    {
        let part = &parts[i];
        assert(part.deep_view() =~= part@);
        let len = part.len();
        let line = if i + 1 < m && len > 0 && part[len - 1] == '\r' {
            sub_chars(part, 0, len - 1)
        } else {
            sub_chars(part, 0, len)
        };
        proof {
            assert(line@ == lines_spec(s@)[i as int]);
            assert(line.deep_view() =~= line@);
        }
        let ghost before = ls.deep_view();
        let ghost lv = line@;
        ls.push(line);
        assert(ls.deep_view() =~= before.push(lv));
        i = i + 1;
        assert(ls.deep_view() =~= lines_spec(s@).take(i as int));
    }
    assert(lines_spec(s@).take(n as int) =~= lines_spec(s@));
    ls
}

/// `s` without its leading whitespace.
pub open spec fn trim_start_spec(s: Seq<char>) -> Seq<char>
    decreases s.len(),
{
    if s.len() > 0 && is_ws(s[0]) {
        trim_start_spec(s.drop_first())
    } else {
        s
    }
}

/// `s` without its trailing whitespace.
pub open spec fn trim_end_spec(s: Seq<char>) -> Seq<char>
    decreases s.len(),
{
    if s.len() > 0 && is_ws(s.last()) {
        trim_end_spec(s.drop_last())
    } else {
        s
    }
}

/// `s` without leading and trailing whitespace (as `str::trim`).
pub open spec fn trim_spec(s: Seq<char>) -> Seq<char> {
    trim_end_spec(trim_start_spec(s))
}

/// Removes leading and trailing whitespace.
pub fn trim(s: &Vec<char>) -> (r: Vec<char>)
    ensures
        r@ == trim_spec(s@),
{
    let n = s.len();
    let mut a: usize = 0;
    assert(s@.subrange(0, n as int) =~= s@);
    while a < n && is_whitespace(s[a])
        invariant
            n == s.len(),
            a <= n,
            trim_start_spec(s@) == trim_start_spec(s@.subrange(a as int, n as int)),
        decreases n - a,
    {
        assert(s@.subrange(a as int, n as int).drop_first() =~= s@.subrange(a + 1, n as int));
        a = a + 1;
    }
    let mut b: usize = n;
    while b > a && is_whitespace(s[b - 1])
        invariant
            n == s.len(),
            a <= b <= n,
            trim_start_spec(s@) == s@.subrange(a as int, n as int),
            trim_spec(s@) == trim_end_spec(s@.subrange(a as int, b as int)),
        decreases b - a,
    {
        assert(s@.subrange(a as int, b as int).drop_last() =~= s@.subrange(a as int, b - 1));
        b = b - 1;
    }
    sub_chars(s, a, b)
}

/// Appends the characters of `src` to `dst`.
pub fn append_chars(dst: &mut Vec<char>, src: &Vec<char>)
    ensures
        final(dst)@ == old(dst)@ + src@,
{
    let mut i: usize = 0;
    while i < src.len()
        invariant
            i <= src.len(),
            dst@ == old(dst)@ + src@.take(i as int),
        decreases src.len() - i,
    {
        dst.push(src[i]);
        i = i + 1;
        assert(dst@ =~= old(dst)@ + src@.take(i as int));
    }
    assert(src@.take(src.len() as int) =~= src@);
}

/// `s` cut at the first `c`: what stands before it and what follows it, or
/// all of `s` and nothing when `c` does not occur.
pub open spec fn split_at_first(s: Seq<char>, c: char) -> (Seq<char>, Seq<char>) {
    match s.index_of_first(c) {
        Some(i) => (s.take(i), s.skip(i + 1)),
        None => (s, Seq::<char>::empty()),
    }
}

/// Cuts `s` at the first `c`.
pub fn split_first(s: &Vec<char>, c: char) -> (r: (Vec<char>, Vec<char>))
    ensures
        (r.0@, r.1@) == split_at_first(s@, c),
{
    match find_char(s, c) {
        Some(i) => {
            proof {
                s@.index_of_first_ensures(c);
            }
            (sub_chars(s, 0, i), sub_chars(s, i + 1, s.len()))
        },
        None => (sub_chars(s, 0, s.len()), Vec::new()),
    }
}

/// Splitting two texts joined by a separator gives the pieces of the first
/// followed by the pieces of the second.
pub proof fn lemma_split_join(a: Seq<char>, c: char, b: Seq<char>, sep: Sep)
    requires
        sep.spec_matches(c),
    ensures
        split_spec(a + seq![c] + b, sep) == split_spec(a, sep) + split_spec(b, sep),
    decreases b.len(),
{
    lemma_split_nonempty(a, sep);
    if b.len() == 0 {
        assert((a + seq![c] + b).drop_last() =~= a);
        assert(split_spec(a + seq![c] + b, sep) =~= split_spec(a, sep) + split_spec(b, sep));
    } else {
        let b1 = b.drop_last();
        let s = a + seq![c] + b;
        assert(s.drop_last() =~= a + seq![c] + b1);
        lemma_split_join(a, c, b1, sep);
        lemma_split_nonempty(b1, sep);
        let pa = split_spec(a, sep);
        let pb = split_spec(b1, sep);
        assert(split_spec(s.drop_last(), sep) == pa + pb);
        if sep.spec_matches(b.last()) {
            assert((pa + pb).push(seq![]) =~= pa + pb.push(seq![]));
        } else {
            let q = pa + pb;
            assert(q.update(q.len() - 1, q.last().push(b.last())) =~= pa + pb.update(
                pb.len() - 1,
                pb.last().push(b.last()),
            ));
        }
    }
}

/// Two non-empty texts without whitespace, joined by a space, are two
/// words.
pub proof fn lemma_two_words(a: Seq<char>, b: Seq<char>)
    requires
        a.len() > 0,
        b.len() > 0,
        forall|j: int| 0 <= j < a.len() ==> !is_ws(#[trigger] a[j]),
        forall|j: int| 0 <= j < b.len() ==> !is_ws(#[trigger] b[j]),
    ensures
        words_spec(a + seq![' '] + b) == seq![a, b],
{
    lemma_split_join(a, ' ', b, Sep::Whitespace);
    lemma_split_free(a, Sep::Whitespace);
    lemma_split_free(b, Sep::Whitespace);
    let p = split_spec(a + seq![' '] + b, Sep::Whitespace);
    assert(p =~= seq![a, b]);
    let f = |x: Seq<char>| x.len() > 0;
    reveal_with_fuel(Seq::filter, 3);
    assert(seq![a, b].drop_last() =~= seq![a]);
    assert(seq![a].drop_last() =~= Seq::<Seq<char>>::empty());
    assert(seq![a, b].filter(f) =~= seq![a, b]);
}

/// `t` without its carriage returns.
pub open spec fn drop_cr(t: Seq<char>) -> Seq<char> {
    t.filter(|c: char| c != '\r')
}

/// Whether `t` holds no carriage return.
pub open spec fn cr_free(t: Seq<char>) -> bool {
    forall|j: int| 0 <= j < t.len() ==> #[trigger] t[j] != '\r'
}

/// Whether every carriage return in `t` is followed by a line feed.
pub open spec fn cr_only_before_lf(t: Seq<char>) -> bool {
    forall|i: int| 0 <= i < t.len() && #[trigger] t[i] == '\r' ==> i + 1 < t.len() && t[i + 1] == '\n'
}

proof fn lemma_drop_cr_push(t: Seq<char>, c: char)
    ensures
        drop_cr(t.push(c)) == if c == '\r' {
            drop_cr(t)
        } else {
            drop_cr(t).push(c)
        },
{
    t.lemma_filter_push(c, |x: char| x != '\r');
}

proof fn lemma_drop_cr_free(t: Seq<char>)
    requires
        cr_free(t),
    ensures
        drop_cr(t) == t,
    decreases t.len(),
{
    if t.len() == 0 {
        reveal_with_fuel(Seq::filter, 1);
        assert(drop_cr(t) =~= t);
    } else {
        lemma_drop_cr_free(t.drop_last());
        lemma_drop_cr_push(t.drop_last(), t.last());
        assert(t.drop_last().push(t.last()) =~= t);
    }
}

proof fn lemma_drop_cr_is_free(t: Seq<char>)
    ensures
        cr_free(drop_cr(t)),
{
    let f = |c: char| c != '\r';
    assert forall|j: int| 0 <= j < drop_cr(t).len() implies #[trigger] drop_cr(t)[j] != '\r' by {
        t.lemma_filter_pred(f, j);
    }
}

/// Whether `p` holds a carriage return at most as its last character.
pub open spec fn cr_at_end_only(p: Seq<char>) -> bool {
    forall|j: int| 0 <= j < p.len() - 1 ==> #[trigger] p[j] != '\r'
}

proof fn lemma_split_drop_cr(t: Seq<char>)
    requires
        forall|i: int| 0 <= i < t.len() - 1 && #[trigger] t[i] == '\r' ==> t[i + 1] == '\n',
    ensures
        split_spec(drop_cr(t), Sep::Char('\n')) == split_spec(t, Sep::Char('\n')).map_values(
            |p: Seq<char>| drop_cr(p),
        ),
        forall|k: int|
            0 <= k < split_spec(t, Sep::Char('\n')).len() ==> cr_at_end_only(
                #[trigger] split_spec(t, Sep::Char('\n'))[k],
            ),
        split_spec(t, Sep::Char('\n')).last().len() > 0 ==> split_spec(
            t,
            Sep::Char('\n'),
        ).last().last() == t.last(),
    decreases t.len(),
{
    let sep = Sep::Char('\n');
    let g = |p: Seq<char>| drop_cr(p);
    if t.len() == 0 {
        reveal_with_fuel(Seq::filter, 1);
        assert(drop_cr(t) =~= t);
        assert(drop_cr(Seq::<char>::empty()) =~= Seq::<char>::empty());
        assert(split_spec(t, sep).map_values(g) =~= split_spec(t, sep));
    } else {
        let t1 = t.drop_last();
        let c = t.last();
        assert(t1.push(c) =~= t);
        assert forall|i: int| 0 <= i < t1.len() - 1 && #[trigger] t1[i] == '\r' implies t1[i + 1]
            == '\n' by {
            assert(t[i] == t1[i] && t[i + 1] == t1[i + 1]);
        }
        lemma_split_drop_cr(t1);
        lemma_split_nonempty(t1, sep);
        lemma_split_nonempty(drop_cr(t1), sep);
        lemma_drop_cr_push(t1, c);
        let p1 = split_spec(t1, sep);
        let q1 = split_spec(drop_cr(t1), sep);
        let last = p1.last();
        assert(q1 == p1.map_values(g));
        // the last piece of `t1` is free of carriage returns unless `t1` ends with one
        if t1.len() > 0 && t1.last() == '\r' {
            assert(t[t1.len() - 1] == '\r');
        }
        if c != '\n' && last.len() > 0 {
            assert(last.last() != '\r') by {
                if last.last() == '\r' {
                    assert(t[t1.len() - 1] == '\r');
                }
            }
            assert(cr_free(last)) by {
                assert forall|j: int| 0 <= j < last.len() implies #[trigger] last[j] != '\r' by {
                    if j < last.len() - 1 {
                        assert(cr_at_end_only(p1[p1.len() - 1]));
                    }
                }
            }
        }
        if c == '\n' {
            assert(t.drop_last() =~= t1);
            assert(drop_cr(t).drop_last() =~= drop_cr(t1));
            reveal_with_fuel(Seq::filter, 1);
            assert(drop_cr(Seq::<char>::empty()) =~= Seq::<char>::empty());
            assert(split_spec(drop_cr(t), sep) =~= split_spec(t, sep).map_values(g));
        } else if c == '\r' {
            lemma_drop_cr_push(last, c);
            assert(split_spec(drop_cr(t), sep) =~= split_spec(t, sep).map_values(g));
            assert(cr_at_end_only(last.push(c))) by {
                if last.len() > 0 {
                    assert(cr_free(last));
                }
            }
        } else {
            lemma_drop_cr_push(last, c);
            assert(drop_cr(t).drop_last() =~= drop_cr(t1));
            assert(split_spec(drop_cr(t), sep) =~= split_spec(t, sep).map_values(g));
            assert(cr_at_end_only(last.push(c))) by {
                if last.len() > 0 {
                    assert(cr_free(last));
                }
            }
        }
    }
}

/// When every carriage return is followed by a line feed, the lines are
/// the same with the carriage returns taken out: CRLF and LF line endings
/// read alike.
pub proof fn law_lines_crlf_as_lf(s: Seq<char>)
    requires
        cr_only_before_lf(s),
    ensures
        lines_spec(drop_cr(s)) == lines_spec(s),
{
    let sep = Sep::Char('\n');
    lemma_split_drop_cr(s);
    lemma_split_nonempty(s, sep);
    let p = split_spec(s, sep);
    let q = split_spec(drop_cr(s), sep);
    let n = p.len();
    assert forall|k: int| 0 <= k < n implies strip_cr(#[trigger] p[k]) == drop_cr(p[k]) || k == n - 1
        by {
        assert(cr_at_end_only(p[k]));
        let x = p[k];
        if x.len() > 0 && x.last() == '\r' {
            assert(cr_free(x.drop_last()));
            lemma_drop_cr_free(x.drop_last());
            lemma_drop_cr_push(x.drop_last(), '\r');
            assert(x.drop_last().push('\r') =~= x);
        } else {
            assert(cr_free(x));
            lemma_drop_cr_free(x);
        }
    }
    // the last piece has no carriage return
    assert(cr_free(p.last())) by {
        assert(cr_at_end_only(p[n - 1]));
        if p.last().len() > 0 && p.last().last() == '\r' {
            assert(s[s.len() - 1] == '\r');
        }
    }
    lemma_drop_cr_free(p.last());
    assert forall|k: int| 0 <= k < n implies #[trigger] strip_cr(q[k]) == q[k] by {
        lemma_drop_cr_is_free(p[k]);
        assert(q[k] == drop_cr(p[k]));
    }
    assert(lines_spec(drop_cr(s)) =~= lines_spec(s));
}

} // verus!
