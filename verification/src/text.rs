//! Character-level building blocks: Unicode facts taken from `char`, the
//! characters of a string, and splitting a character sequence at separators.

use vstd::prelude::*;

verus! {

/// Whether `c` has the Unicode `White_Space` property (as `char::is_whitespace`
/// and `str::trim` use it): tab through carriage return, space, next line,
/// no-break space, ogham space mark, the spaces U+2000 to U+200A, line and
/// paragraph separators, narrow no-break space, medium mathematical space and
/// ideographic space.
pub open spec fn unicode_whitespace(c: char) -> bool {
    let u = c as u32;
    ||| 0x09 <= u <= 0x0D
    ||| u == 0x20
    ||| u == 0x85
    ||| u == 0xA0
    ||| u == 0x1680
    ||| 0x2000 <= u <= 0x200A
    ||| u == 0x2028
    ||| u == 0x2029
    ||| u == 0x202F
    ||| u == 0x205F
    ||| u == 0x3000
}

/// The characters of the uppercase mapping of `c`, as `char::to_uppercase` yields them.
pub uninterp spec fn unicode_uppercase(c: char) -> Seq<char>;

/// Whether `c` is whitespace.
pub fn char_is_whitespace(c: char) -> (r: bool)
    ensures
        r == unicode_whitespace(c),
{
    let u = c as u32;
    (0x09 <= u && u <= 0x0D) || u == 0x20 || u == 0x85 || u == 0xA0 || u == 0x1680 || (0x2000
        <= u && u <= 0x200A) || u == 0x2028 || u == 0x2029 || u == 0x202F || u == 0x205F || u
        == 0x3000
}

/// Calls `char::to_uppercase` and collects what it yields. Trusted to give
/// `unicode_uppercase(c)`, which its documentation describes as one or more
/// characters; the mapping itself (a table of Unicode) is left unsaid.
#[verifier::external_body]
pub(crate) fn char_to_uppercase(c: char) -> (s: String)
    ensures
        s@ == unicode_uppercase(c),
        s@.len() >= 1,
{
    c.to_uppercase().collect()
}

/// Collects a sequence of characters into a `String` (`String: FromIterator<&char>`).
#[verifier::external_body]
pub(crate) fn string_from_chars(v: &[char]) -> (s: String)
    ensures
        s@ == v@,
{
    v.iter().collect()
}

/// The characters of `s`, in order.
pub fn chars_of(s: &str) -> (v: Vec<char>)
    ensures
        v@ == s@,
{
    broadcast use vstd::string::group_string_axioms;
    let mut v: Vec<char> = Vec::new();
    for c in it: s.chars()
        invariant
            v@ == it.seq().take(it.index() as int),
    {
        v.push(c);
    }
    assert(v@ =~= s@);
    v
}

/// Whether `a` and `b` hold the same characters.
pub fn str_eq(a: &str, b: &str) -> (r: bool)
    ensures
        r == (a@ == b@),
{
    let va = chars_of(a);
    let vb = chars_of(b);
    if va.len() != vb.len() {
        return false;
    }
    let mut i: usize = 0;
    while i < va.len()
        invariant
            i <= va@.len(),
            va@.len() == vb@.len(),
            va@ == a@,
            vb@ == b@,
            forall|j: int| 0 <= j < i ==> va@[j] == vb@[j],
        decreases va@.len() - i,
    {
        if va[i] != vb[i] {
            return false;
        }
        i = i + 1;
    }
    assert(va@ =~= vb@);
    true
}

/// The characters of `v` from `from` up to, not including, `to`.
pub fn copy_range(v: &Vec<char>, from: usize, to: usize) -> (r: Vec<char>)
    requires
        from <= to <= v@.len(),
    ensures
        r@ == v@.subrange(from as int, to as int),
{
    let mut r: Vec<char> = Vec::new();
    let mut i: usize = from;
    while i < to
        invariant
            from <= i <= to,
            to <= v@.len(),
            r@ == v@.subrange(from as int, i as int),
        decreases to - i,
    {
        r.push(v[i]);
        i = i + 1;
        assert(r@ =~= v@.subrange(from as int, i as int));
    }
    r
}

/// `s` begins with `p`.
pub open spec fn has_prefix(s: Seq<char>, p: Seq<char>) -> bool {
    p.len() <= s.len() && s.take(p.len() as int) == p
}

/// Whether `s` begins with `p`.
pub fn starts_with(s: &Vec<char>, p: &Vec<char>) -> (r: bool)
    ensures
        r == has_prefix(s@, p@),
{
    if s.len() < p.len() {
        return false;
    }
    let mut i: usize = 0;
    while i < p.len()
        invariant
            i <= p@.len(),
            p@.len() <= s@.len(),
            forall|j: int| 0 <= j < i ==> s@[j] == p@[j],
        decreases p@.len() - i,
    {
        if s[i] != p[i] {
            assert(s@.take(p@.len() as int)[i as int] != p@[i as int]);
            return false;
        }
        i = i + 1;
    }
    assert(s@.take(p@.len() as int) =~= p@);
    true
}

/// The index of the first `c` in `s`, or -1 where there is none.
pub open spec fn first_index_of(s: Seq<char>, c: char) -> int
    decreases s.len(),
{
    if s.len() == 0 {
        -1
    } else if s[0] == c {
        0
    } else {
        let r = first_index_of(s.drop_first(), c);
        if r < 0 {
            -1
        } else {
            r + 1
        }
    }
}

/// `first_index_of` is the first position that holds `c`.
pub proof fn lemma_first_index_of(s: Seq<char>, c: char, j: int)
    requires
        0 <= j <= s.len(),
        forall|k: int| 0 <= k < j ==> s[k] != c,
        j < s.len() ==> s[j] == c,
    ensures
        first_index_of(s, c) == if j < s.len() {
            j
        } else {
            -1
        },
    decreases j,
{
    if j > 0 {
        let t = s.drop_first();
        assert forall|k: int| 0 <= k < j - 1 implies t[k] != c by {
            assert(t[k] == s[k + 1]);
        }
        if j < s.len() {
            assert(t[j - 1] == s[j]);
        }
        lemma_first_index_of(t, c, j - 1);
    }
}

/// The index of the first `c` in `v` at or after `from`, if any.
pub fn find_char(v: &Vec<char>, from: usize, c: char) -> (r: Option<usize>)
    requires
        from <= v@.len(),
    ensures
        match r {
            Some(j) => from <= j < v@.len() && first_index_of(v@.skip(from as int), c) == j - from,
            None => first_index_of(v@.skip(from as int), c) == -1,
        },
{
    let ghost s = v@.skip(from as int);
    let mut j: usize = from;
    while j < v.len()
        invariant
            from <= j <= v@.len(),
            s == v@.skip(from as int),
            forall|k: int| 0 <= k < j - from ==> s[k] != c,
        decreases v@.len() - j,
    {
        if v[j] == c {
            proof {
                lemma_first_index_of(s, c, j - from);
            }
            return Some(j);
        }
        j = j + 1;
    }
    proof {
        lemma_first_index_of(s, c, s.len() as int);
    }
    None
}

/// The separators at which character sequences are cut in this library.
#[derive(Clone, Copy, Debug, PartialEq, Eq)]
pub enum Separator {
    /// A full stop, `'.'`, as between the parts of a reverse-DNS window class.
    Dot,
    /// Whitespace, `'-'` or `'_'`: what separates the words of a window class.
    WordBreak,
    /// A line feed, `'\n'`.
    Newline,
}

/// Whether `c` is a separator of kind `k`.
pub open spec fn is_separator(k: Separator, c: char) -> bool {
    match k {
        Separator::Dot => c == '.',
        Separator::WordBreak => unicode_whitespace(c) || c == '-' || c == '_',
        Separator::Newline => c == '\n',
    }
}

/// Whether `c` is a separator of kind `k`.
pub fn separator_matches(k: Separator, c: char) -> (r: bool)
    ensures
        r == is_separator(k, c),
{
    match k {
        Separator::Dot => c == '.',
        Separator::WordBreak => char_is_whitespace(c) || c == '-' || c == '_',
        Separator::Newline => c == '\n',
    }
}

/// The pieces of `s` between separators of kind `k`, in order, empty pieces
/// included, as `str::split` yields them: one more piece than there are separators.
pub open spec fn split_pieces(s: Seq<char>, k: Separator) -> Seq<Seq<char>>
    decreases s.len(),
{
    if s.len() == 0 {
        seq![Seq::empty()]
    } else {
        let prev = split_pieces(s.drop_last(), k);
        if is_separator(k, s.last()) {
            prev.push(Seq::empty())
        } else {
            prev.update(prev.len() - 1, prev.last().push(s.last()))
        }
    }
}

/// There is always at least one piece.
pub proof fn lemma_split_pieces_len(s: Seq<char>, k: Separator)
    ensures
        split_pieces(s, k).len() >= 1,
    decreases s.len(),
{
    if s.len() > 0 {
        lemma_split_pieces_len(s.drop_last(), k);
    }
}

/// Text without separators is a single piece.
pub proof fn lemma_split_no_separator(s: Seq<char>, k: Separator)
    requires
        forall|i: int| 0 <= i < s.len() ==> !is_separator(k, #[trigger] s[i]),
    ensures
        split_pieces(s, k) == seq![s],
    decreases s.len(),
{
    if s.len() > 0 {
        lemma_split_no_separator(s.drop_last(), k);
        assert(!is_separator(k, s[s.len() - 1]));
        assert(s.drop_last().push(s.last()) =~= s);
        assert(seq![s.drop_last()].update(0, s.drop_last().push(s.last())) =~= seq![s]);
    } else {
        assert(s =~= Seq::<char>::empty());
    }
}

/// Cutting `a + b` gives the pieces of `a` and of `b`, with the last piece of
/// `a` joined to the first piece of `b`.
pub proof fn lemma_split_concat(a: Seq<char>, b: Seq<char>, k: Separator)
    ensures
        split_pieces(a + b, k) == split_pieces(a, k).drop_last() + seq![
            split_pieces(a, k).last() + split_pieces(b, k)[0],
        ] + split_pieces(b, k).drop_first(),
    decreases b.len(),
{
    lemma_split_pieces_len(a, k);
    let pa = split_pieces(a, k);
    if b.len() == 0 {
        assert(a + b =~= a);
        assert(pa.last() + Seq::<char>::empty() =~= pa.last());
        assert(pa.drop_last() + seq![pa.last()] + Seq::<Seq<char>>::empty() =~= pa);
        assert(split_pieces(b, k) == seq![Seq::<char>::empty()]);
        assert(seq![Seq::<char>::empty()].drop_first() =~= Seq::<Seq<char>>::empty());
    } else {
        let b0 = b.drop_last();
        let c = b.last();
        lemma_split_concat(a, b0, k);
        lemma_split_pieces_len(b0, k);
        assert((a + b).drop_last() =~= a + b0);
        assert((a + b).last() == c);
        let pb0 = split_pieces(b0, k);
        let pb = split_pieces(b, k);
        let q = split_pieces(a + b0, k);
        assert(q == pa.drop_last() + seq![pa.last() + pb0[0]] + pb0.drop_first());
        if is_separator(k, c) {
            assert(pb == pb0.push(Seq::empty()));
            assert(pb[0] == pb0[0]);
            assert(pb.drop_first() =~= pb0.drop_first().push(Seq::empty()));
            assert(split_pieces(a + b, k) == q.push(Seq::empty()));
            assert(q.push(Seq::empty()) =~= pa.drop_last() + seq![pa.last() + pb[0]] + pb.drop_first());
        } else {
            assert(pb == pb0.update(pb0.len() - 1, pb0.last().push(c)));
            assert(split_pieces(a + b, k) == q.update(q.len() - 1, q.last().push(c)));
            if pb0.len() == 1 {
                assert(pb[0] == pb0[0].push(c));
                assert(pb.drop_first() =~= Seq::<Seq<char>>::empty());
                assert(pb0.drop_first() =~= Seq::<Seq<char>>::empty());
                assert((pa.last() + pb0[0]).push(c) =~= pa.last() + pb0[0].push(c));
                assert(q.update(q.len() - 1, q.last().push(c)) =~= pa.drop_last() + seq![pa.last() + pb[0]] + pb.drop_first());
            } else {
                assert(pb[0] == pb0[0]);
                assert(pb.drop_first() =~= pb0.drop_first().update(pb0.len() - 2, pb0.last().push(c)));
                assert(q.update(q.len() - 1, q.last().push(c)) =~= pa.drop_last() + seq![pa.last() + pb[0]] + pb.drop_first());
            }
        }
    }
}

/// The character sequences held in a sequence of vectors.
pub open spec fn views(v: Seq<Vec<char>>) -> Seq<Seq<char>> {
    v.map_values(|p: Vec<char>| p@)
}

/// Cuts `s` at every separator of kind `k`.
pub fn split_chars(s: &Vec<char>, k: Separator) -> (pieces: Vec<Vec<char>>)
    ensures
        views(pieces@) == split_pieces(s@, k),
        pieces@.len() >= 1,
{
    let mut pieces: Vec<Vec<char>> = Vec::new();
    pieces.push(Vec::new());
    let mut i: usize = 0;
    assert(views(pieces@) =~= split_pieces(s@.take(0), k));
    while i < s.len()
        invariant
            i <= s@.len(),
            views(pieces@) == split_pieces(s@.take(i as int), k),
            pieces@.len() >= 1,
        decreases s@.len() - i,
    {
        let c = s[i];
        let ghost before = views(pieces@);
        assert(s@.take(i + 1).drop_last() =~= s@.take(i as int));
        if separator_matches(k, c) {
            pieces.push(Vec::new());
            assert(views(pieces@) =~= before.push(Seq::empty()));
        } else {
            let mut last = pieces.pop().unwrap();
            last.push(c);
            pieces.push(last);
            assert(views(pieces@) =~= before.update(before.len() - 1, before.last().push(c)));
        }
        i = i + 1;
    }
    assert(s@.take(s@.len() as int) =~= s@);
    pieces
}

} // verus!
