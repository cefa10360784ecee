//! Character-level text handling shared by the profile parser and the
//! request router: whitespace, trimming, splitting into lines and words.
use vstd::prelude::*;

verus! {

/// Unicode `White_Space`, the set `char::is_whitespace` tests.
pub open spec fn is_ws(c: char) -> bool {
    ||| ('\t' <= c && c <= '\r')
    ||| c == ' '
    ||| c == '\u{85}'
    ||| c == '\u{a0}'
    ||| c == '\u{1680}'
    ||| ('\u{2000}' <= c && c <= '\u{200a}')
    ||| c == '\u{2028}'
    ||| c == '\u{2029}'
    ||| c == '\u{202f}'
    ||| c == '\u{205f}'
    ||| c == '\u{3000}'
}

/// `s` without its leading whitespace.
pub open spec fn trim_start(s: Seq<char>) -> Seq<char>
    decreases s.len(),
{
    if s.len() > 0 && is_ws(s[0]) {
        trim_start(s.drop_first())
    } else {
        s
    }
}

/// `s` without its trailing whitespace.
pub open spec fn trim_end(s: Seq<char>) -> Seq<char>
    decreases s.len(),
{
    if s.len() > 0 && is_ws(s.last()) {
        trim_end(s.drop_last())
    } else {
        s
    }
}

/// `s` without leading and trailing whitespace.
pub open spec fn trim(s: Seq<char>) -> Seq<char> {
    trim_end(trim_start(s))
}

/// The pending piece `cur`, as a list of at most one non-empty piece.
pub open spec fn flush(cur: Seq<char>) -> Seq<Seq<char>> {
    if cur.len() == 0 {
        seq![]
    } else {
        seq![cur]
    }
}

/// The maximal runs of non-whitespace characters of `cur + s`, where `cur`
/// is a run already begun.
pub open spec fn words_from(s: Seq<char>, cur: Seq<char>) -> Seq<Seq<char>>
    decreases s.len(),
{
    if s.len() == 0 {
        flush(cur)
    } else if is_ws(s[0]) {
        flush(cur) + words_from(s.drop_first(), seq![])
    } else {
        words_from(s.drop_first(), cur.push(s[0]))
    }
}

/// The whitespace-separated words of `s`, in order (`str::split_whitespace`).
pub open spec fn words(s: Seq<char>) -> Seq<Seq<char>> {
    words_from(s, seq![])
}

/// The pieces of `cur + s` between newline characters, where `cur` is a
/// piece already begun.
pub open spec fn pieces_from(s: Seq<char>, cur: Seq<char>) -> Seq<Seq<char>>
    decreases s.len(),
{
    if s.len() == 0 {
        seq![cur]
    } else if s[0] == '\n' {
        seq![cur] + pieces_from(s.drop_first(), seq![])
    } else {
        pieces_from(s.drop_first(), cur.push(s[0]))
    }
}

/// The pieces of `s` between newline characters; a text of `n` newlines has
/// `n + 1` pieces.
pub open spec fn newline_pieces(s: Seq<char>) -> Seq<Seq<char>> {
    pieces_from(s, seq![])
}

/// The index of the first `c` in `s`, if there is one.
pub open spec fn find_char(s: Seq<char>, c: char) -> Option<int>
    decreases s.len(),
{
    if s.len() == 0 {
        None
    } else if s[0] == c {
        Some(0)
    } else {
        match find_char(s.drop_first(), c) {
            Some(i) => Some(i + 1),
            None => None,
        }
    }
}

/// Appends one character to a `String` (`String::push`).
#[verifier::external_body]
pub(crate) fn push_char(s: &mut String, c: char)
    ensures
        final(s)@ == old(s)@.push(c),
{
    s.push(c)
}

/// Whitespace test on one character.
pub fn char_is_ws(c: char) -> (b: bool)
    ensures
        b == is_ws(c),
{
    ('\t' <= c && c <= '\r') || c == ' ' || c == '\u{85}' || c == '\u{a0}' || c == '\u{1680}'
        || ('\u{2000}' <= c && c <= '\u{200a}') || c == '\u{2028}' || c == '\u{2029}'
        || c == '\u{202f}' || c == '\u{205f}' || c == '\u{3000}'
}

/// The characters of `s`.
pub fn chars_of(s: &str) -> (r: Vec<char>)
    ensures
        r@ == s@,
{
    let mut r: Vec<char> = Vec::new();
    for c in it: s.chars()
        invariant
            r@ == it.seq().take(it.index() as int),
    {
        r.push(c);
    }
    r
}


/// The characters `cs[lo..hi]` as a `String`.
pub fn string_from(cs: &Vec<char>, lo: usize, hi: usize) -> (r: String)
    requires
        lo <= hi <= cs@.len(),
    ensures
        r@ == cs@.subrange(lo as int, hi as int),
{
    let mut r = String::new();
    let mut i = lo;
    while i < hi
        invariant
            lo <= i <= hi <= cs@.len(),
            r@ == cs@.subrange(lo as int, i as int),
        decreases hi - i,
    {
        push_char(&mut r, cs[i]);
        i = i + 1;
        assert(r@ =~= cs@.subrange(lo as int, i as int));
    }
    r
}

/// The bounds of `trim(cs[lo..hi])` within `cs`.
pub fn trim_range(cs: &Vec<char>, lo: usize, hi: usize) -> (r: (usize, usize))
    requires
        lo <= hi <= cs@.len(),
    ensures
        lo <= r.0 <= r.1 <= hi,
        cs@.subrange(r.0 as int, r.1 as int) == trim(cs@.subrange(lo as int, hi as int)),
{
    let mut a = lo;
    while a < hi && char_is_ws(cs[a])
        invariant
            lo <= a <= hi <= cs@.len(),
            trim_start(cs@.subrange(lo as int, hi as int)) == trim_start(
                cs@.subrange(a as int, hi as int),
            ),
        decreases hi - a,
    {
        assert(cs@.subrange(a as int, hi as int).drop_first() =~= cs@.subrange(
            a + 1,
            hi as int,
        ));
        a = a + 1;
    }
    assert(trim_start(cs@.subrange(a as int, hi as int)) == cs@.subrange(a as int, hi as int));
    let mut b = hi;
    while b > a && char_is_ws(cs[b - 1])
        invariant
            lo <= a <= b <= hi <= cs@.len(),
            trim(cs@.subrange(lo as int, hi as int)) == trim_end(cs@.subrange(a as int, b as int)),
        decreases b - a,
    {
        assert(cs@.subrange(a as int, b as int).drop_last() =~= cs@.subrange(
            a as int,
            b - 1,
        ));
        b = b - 1;
    }
    (a, b)
}

/// The words of `cs[lo..hi]`.
pub fn words_in(cs: &Vec<char>, lo: usize, hi: usize) -> (r: Vec<String>)
    requires
        lo <= hi <= cs@.len(),
    ensures
        r.deep_view() == words(cs@.subrange(lo as int, hi as int)),
{
    let mut r: Vec<String> = Vec::new();
    let mut start = lo;
    let mut i = lo;
    assert(cs@.subrange(lo as int, lo as int) =~= seq![]);
    while i < hi
        invariant
            lo <= start <= i <= hi <= cs@.len(),
            words(cs@.subrange(lo as int, hi as int)) == r.deep_view() + words_from(
                cs@.subrange(i as int, hi as int),
                cs@.subrange(start as int, i as int),
            ),
        decreases hi - i,
    {
        let ghost rest = cs@.subrange(i as int, hi as int);
        let ghost cur = cs@.subrange(start as int, i as int);
        assert(rest.drop_first() =~= cs@.subrange(i + 1, hi as int));
        assert(rest[0] == cs@[i as int]);
        if char_is_ws(cs[i]) {
            let ghost before = r.deep_view();
            if start < i {
                let w = string_from(cs, start, i);
                r.push(w);
                assert(r.deep_view() =~= before + flush(cur));
            } else {
                assert(r.deep_view() =~= before + flush(cur));
            }
            i = i + 1;
            start = i;
            assert(cs@.subrange(start as int, i as int) =~= seq![]);
            assert(before + (flush(cur) + words_from(rest.drop_first(), seq![])) =~= r.deep_view()
                + words_from(cs@.subrange(i as int, hi as int), seq![]));
        } else {
            assert(cur.push(rest[0]) =~= cs@.subrange(start as int, i + 1));
            i = i + 1;
        }
    }
    let ghost cur = cs@.subrange(start as int, i as int);
    let ghost before = r.deep_view();
    if start < i {
        let w = string_from(cs, start, i);
        r.push(w);
    }
    assert(r.deep_view() =~= before + flush(cur));
    r
}

/// Proves that `find_char` finds `c` at `i` when no earlier character is `c`.
pub(crate) proof fn lemma_find_char_at(s: Seq<char>, c: char, i: int)
    requires
        0 <= i < s.len(),
        s[i] == c,
        forall|j: int| 0 <= j < i ==> s[j] != c,
    ensures
        find_char(s, c) == Some(i),
    decreases i,
{
    if i > 0 {
        assert forall|j: int| 0 <= j < i - 1 implies s.drop_first()[j] != c by {
            assert(s.drop_first()[j] == s[j + 1]);
        }
        lemma_find_char_at(s.drop_first(), c, i - 1);
    }
}

/// Proves that `find_char` finds nothing when no character is `c`.
proof fn lemma_find_char_none(s: Seq<char>, c: char)
    requires
        forall|j: int| 0 <= j < s.len() ==> s[j] != c,
    ensures
        find_char(s, c) is None,
    decreases s.len(),
{
    if s.len() > 0 {
        assert forall|j: int| 0 <= j < s.len() - 1 implies s.drop_first()[j] != c by {
            assert(s.drop_first()[j] == s[j + 1]);
        }
        lemma_find_char_none(s.drop_first(), c);
    }
}

/// The position of the first `c` in `cs[lo..hi]`, counted from the start of `cs`.
pub fn find_in(cs: &Vec<char>, lo: usize, hi: usize, c: char) -> (r: Option<usize>)
    requires
        lo <= hi <= cs@.len(),
    ensures
        match r {
            Some(j) => lo <= j < hi && find_char(cs@.subrange(lo as int, hi as int), c) == Some(
                j - lo,
            ),
            None => find_char(cs@.subrange(lo as int, hi as int), c) is None,
        },
{
    let ghost s = cs@.subrange(lo as int, hi as int);
    let mut i = lo;
    while i < hi
        invariant
            lo <= i <= hi <= cs@.len(),
            s == cs@.subrange(lo as int, hi as int),
            forall|j: int| 0 <= j < i - lo ==> s[j] != c,
        decreases hi - i,
    {
        if cs[i] == c {
            proof {
                lemma_find_char_at(s, c, i - lo);
            }
            return Some(i);
        }
        i = i + 1;
    }
    proof {
        lemma_find_char_none(s, c);
    }
    None
}

/// `ranges` locates each of `pieces` within `cs`.
pub open spec fn ranges_match(cs: Seq<char>, ranges: Seq<(usize, usize)>, pieces: Seq<Seq<char>>) -> bool {
    &&& ranges.len() == pieces.len()
    &&& forall|k: int| 0 <= k < ranges.len() ==> locates(cs, ranges[k], #[trigger] pieces[k])
}

/// `range` locates `piece` within `cs`.
pub open spec fn locates(cs: Seq<char>, range: (usize, usize), piece: Seq<char>) -> bool {
    &&& range.0 <= range.1 <= cs.len()
    &&& cs.subrange(range.0 as int, range.1 as int) == piece
}

proof fn lemma_ranges_match_push(
    cs: Seq<char>,
    ranges: Seq<(usize, usize)>,
    pieces: Seq<Seq<char>>,
    lo: usize,
    hi: usize,
)
    requires
        ranges_match(cs, ranges, pieces),
        lo <= hi <= cs.len(),
    ensures
        ranges_match(cs, ranges.push((lo, hi)), pieces.push(cs.subrange(lo as int, hi as int))),
{
    let r2 = ranges.push((lo, hi));
    let p2 = pieces.push(cs.subrange(lo as int, hi as int));
    assert forall|k: int| 0 <= k < r2.len() implies locates(cs, r2[k], #[trigger] p2[k]) by {
        if k < ranges.len() {
            assert(r2[k] == ranges[k]);
            assert(p2[k] == pieces[k]);
        } else {
            assert(r2[k] == (lo, hi));
            assert(p2[k] == cs.subrange(lo as int, hi as int));
        }
    }
}

/// The bounds within `cs` of each piece of `newline_pieces(cs)`.
pub fn newline_ranges(cs: &Vec<char>) -> (r: Vec<(usize, usize)>)
    ensures
        ranges_match(cs@, r@, newline_pieces(cs@)),
{
    let mut r: Vec<(usize, usize)> = Vec::new();
    let mut start: usize = 0;
    let mut i: usize = 0;
    let ghost done: Seq<Seq<char>> = seq![];
    assert(cs@.subrange(0, 0) =~= seq![]);
    assert(cs@.subrange(0, cs@.len() as int) =~= cs@);
    assert(done + pieces_from(cs@, seq![]) =~= pieces_from(cs@, seq![]));
    while i < cs.len()
        invariant
            start <= i <= cs@.len(),
            newline_pieces(cs@) == done + pieces_from(
                cs@.subrange(i as int, cs@.len() as int),
                cs@.subrange(start as int, i as int),
            ),
            ranges_match(cs@, r@, done),
        decreases cs@.len() - i,
    {
        let ghost rest = cs@.subrange(i as int, cs@.len() as int);
        let ghost cur = cs@.subrange(start as int, i as int);
        assert(rest.drop_first() =~= cs@.subrange(i + 1, cs@.len() as int));
        assert(rest[0] == cs@[i as int]);
        if cs[i] == '\n' {
            proof {
                lemma_ranges_match_push(cs@, r@, done, start, i);
            }
            r.push((start, i));
            proof {
                done = done.push(cur);
            }
            i = i + 1;
            start = i;
            assert(cs@.subrange(start as int, i as int) =~= seq![]);
            assert(done.drop_last() + (seq![cur] + pieces_from(rest.drop_first(), seq![])) =~= done
                + pieces_from(cs@.subrange(i as int, cs@.len() as int), seq![]));
        } else {
            assert(cur.push(rest[0]) =~= cs@.subrange(start as int, i + 1));
            i = i + 1;
        }
    }
    let ghost cur = cs@.subrange(start as int, i as int);
    assert(cs@.subrange(i as int, cs@.len() as int) =~= seq![]);
    proof {
        lemma_ranges_match_push(cs@, r@, done, start, i);
    }
    r.push((start, i));
    proof {
        done = done.push(cur);
        assert(newline_pieces(cs@) =~= done);
    }
    r
}

/// Whether `a` and `b` hold the same characters.
pub fn str_eq(a: &str, b: &str) -> (r: bool)
    ensures
        r == (a@ == b@),
{
    let x = chars_of(a);
    let y = chars_of(b);
    if x.len() != y.len() {
        return false;
    }
    let mut i: usize = 0;
    while i < x.len()
        invariant
            x@ == a@,
            y@ == b@,
            x@.len() == y@.len(),
            i <= x@.len(),
            forall|j: int| 0 <= j < i ==> x@[j] == y@[j],
        decreases x@.len() - i,
    {
        if x[i] != y[i] {
            return false;
        }
        i = i + 1;
    }
    assert(x@ =~= y@);
    true
}

/// Splitting at a whitespace character splits the words.
proof fn lemma_words_from_split(a: Seq<char>, c: char, b: Seq<char>, cur: Seq<char>)
    requires
        is_ws(c),
    ensures
        words_from(a + seq![c] + b, cur) == words_from(a, cur) + words(b),
    decreases a.len(),
{
    let s = a + seq![c] + b;
    if a.len() == 0 {
        assert(s[0] == c);
        assert(s.drop_first() =~= b);
        assert(words_from(a, cur) == flush(cur));
    } else {
        assert(s[0] == a[0]);
        assert(s.drop_first() =~= a.drop_first() + seq![c] + b);
        if is_ws(a[0]) {
            lemma_words_from_split(a.drop_first(), c, b, seq![]);
            assert(words_from(s, cur) =~= words_from(a, cur) + words(b));
        } else {
            lemma_words_from_split(a.drop_first(), c, b, cur.push(a[0]));
        }
    }
}

/// A run of non-whitespace characters continues the current word.
proof fn lemma_words_from_word(w: Seq<char>, cur: Seq<char>)
    requires
        forall|i: int| 0 <= i < w.len() ==> !is_ws(#[trigger] w[i]),
    ensures
        words_from(w, cur) == flush(cur + w),
    decreases w.len(),
{
    if w.len() == 0 {
        assert(cur + w =~= cur);
    } else {
        assert forall|i: int| 0 <= i < w.drop_first().len() implies !is_ws(
            #[trigger] w.drop_first()[i],
        ) by {
            assert(w.drop_first()[i] == w[i + 1]);
        }
        assert(!is_ws(w[0]));
        lemma_words_from_word(w.drop_first(), cur.push(w[0]));
        assert(cur.push(w[0]) + w.drop_first() =~= cur + w);
    }
}

/// Words are separated by whitespace: the words of `a`, a whitespace
/// character, then `b` are the words of `a` followed by those of `b`.
pub proof fn law_words_split(a: Seq<char>, c: char, b: Seq<char>)
    requires
        is_ws(c),
    ensures
        words(a + seq![c] + b) == words(a) + words(b),
{
    lemma_words_from_split(a, c, b, seq![]);
}

/// A non-empty run of non-whitespace characters is one word, whole.
pub proof fn law_words_single(w: Seq<char>)
    requires
        w.len() > 0,
        forall|i: int| 0 <= i < w.len() ==> !is_ws(#[trigger] w[i]),
    ensures
        words(w) == seq![w],
{
    lemma_words_from_word(w, seq![]);
    assert(seq![] + w =~= w);
}

/// Trailing whitespace adds no word.
pub proof fn lemma_words_trim_end(v: Seq<char>)
    ensures
        words(trim_end(v)) == words(v),
    decreases v.len(),
{
    if v.len() > 0 && is_ws(v.last()) {
        lemma_words_trim_end(v.drop_last());
        let none: Seq<char> = seq![];
        lemma_words_from_split(v.drop_last(), v.last(), none, seq![]);
        assert(v.drop_last() + seq![v.last()] + none =~= v);
        assert(words(none) =~= seq![]);
        assert(words(v.drop_last()) + words(none) =~= words(v.drop_last()));
    }
}

/// Trailing whitespace after a character that is not whitespace is all that
/// trimming the end removes.
pub proof fn lemma_trim_end_after(x: Seq<char>, v: Seq<char>)
    requires
        x.len() > 0,
        !is_ws(x.last()),
    ensures
        trim_end(x + v) == x + trim_end(v),
    decreases v.len(),
{
    if v.len() == 0 {
        assert(x + v =~= x);
        assert((x + v).last() == x.last());
    } else {
        assert((x + v).last() == v.last());
        if is_ws(v.last()) {
            assert((x + v).drop_last() =~= x + v.drop_last());
            lemma_trim_end_after(x, v.drop_last());
        }
    }
}

/// Text without whitespace is its own trim.
pub proof fn lemma_trim_no_ws(w: Seq<char>)
    requires
        forall|i: int| 0 <= i < w.len() ==> !is_ws(#[trigger] w[i]),
    ensures
        trim(w) == w,
{
    if w.len() > 0 {
        assert(!is_ws(w[0]));
        assert(!is_ws(w[w.len() - 1]));
    }
}

} // verus!
