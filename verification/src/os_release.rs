//! The operating system's name, read from the text of `/etc/os-release`.

use vstd::prelude::*;
use crate::text::{
    Separator, chars_of, copy_range, has_prefix, split_chars, split_pieces, starts_with,
    string_from_chars, views, lemma_split_concat, lemma_split_no_separator, lemma_split_pieces_len,
};

verus! {

/// `x` without one trailing carriage return.
pub open spec fn strip_cr(x: Seq<char>) -> Seq<char> {
    if x.len() > 0 && x.last() == '\r' {
        x.drop_last()
    } else {
        x
    }
}

/// The lines of `s` as `str::lines` yields them: cut at line feeds, a carriage
/// return before a line feed dropped, and no empty line after a final line feed.
pub open spec fn text_lines(s: Seq<char>) -> Seq<Seq<char>> {
    let p = split_pieces(s, Separator::Newline);
    let body = Seq::new((p.len() - 1) as nat, |i: int| strip_cr(p[i]));
    if p.last().len() == 0 {
        body
    } else {
        body.push(p.last())
    }
}

/// `s` without leading `'"'`.
pub open spec fn trim_quotes_start(s: Seq<char>) -> Seq<char>
    decreases s.len(),
{
    if s.len() > 0 && s[0] == '"' {
        trim_quotes_start(s.drop_first())
    } else {
        s
    }
}

/// `s` without trailing `'"'`.
pub open spec fn trim_quotes_end(s: Seq<char>) -> Seq<char>
    decreases s.len(),
{
    if s.len() > 0 && s.last() == '"' {
        trim_quotes_end(s.drop_last())
    } else {
        s
    }
}

/// `s` without the `'"'` at either end (as `trim_matches('"')` gives it).
pub open spec fn unquote(s: Seq<char>) -> Seq<char> {
    trim_quotes_end(trim_quotes_start(s))
}

/// The value of `line` for `key` (a key with its `=`), unquoted, if the line sets it.
pub open spec fn key_value(line: Seq<char>, key: Seq<char>) -> Option<Seq<char>> {
    if has_prefix(line, key) {
        Some(unquote(line.skip(key.len() as int)))
    } else {
        None
    }
}

/// The value that the first line that sets `key` gives it.
pub open spec fn first_value(lines: Seq<Seq<char>>, key: Seq<char>) -> Option<Seq<char>>
    decreases lines.len(),
{
    if lines.len() == 0 {
        None
    } else {
        match key_value(lines[0], key) {
            Some(v) => Some(v),
            None => first_value(lines.drop_first(), key),
        }
    }
}

/// The value that the last line that sets `key` gives it.
pub open spec fn last_value(lines: Seq<Seq<char>>, key: Seq<char>) -> Option<Seq<char>>
    decreases lines.len(),
{
    if lines.len() == 0 {
        None
    } else {
        match key_value(lines.last(), key) {
            Some(v) => Some(v),
            None => last_value(lines.drop_last(), key),
        }
    }
}

/// The `PRETTY_NAME` of an os-release text: the value of its first line that sets it.
pub open spec fn release_pretty_name_spec(content: Seq<char>) -> Option<Seq<char>> {
    first_value(text_lines(content), "PRETTY_NAME="@)
}

/// The name of the system that an os-release text describes: its `PRETTY_NAME`;
/// else its last `NAME`; else its last `ID`, followed by a space and the last
/// `VERSION_ID` where there is one.
pub open spec fn release_os_name_spec(content: Seq<char>) -> Option<Seq<char>> {
    let lines = text_lines(content);
    match first_value(lines, "PRETTY_NAME="@) {
        Some(v) => Some(v),
        None => match last_value(lines, "NAME="@) {
            Some(n) => Some(n),
            None => match last_value(lines, "ID="@) {
                Some(id) => Some(
                    match last_value(lines, "VERSION_ID="@) {
                        Some(v) => id + seq![' '] + v,
                        None => id,
                    },
                ),
                None => None,
            },
        },
    }
}

proof fn lemma_first_value_push(lines: Seq<Seq<char>>, x: Seq<char>, key: Seq<char>)
    ensures
        first_value(lines.push(x), key) == match first_value(lines, key) {
            Some(v) => Some(v),
            None => key_value(x, key),
        },
    decreases lines.len(),
{
    if lines.len() > 0 {
        assert(lines.push(x)[0] == lines[0]);
        assert(lines.push(x).drop_first() =~= lines.drop_first().push(x));
        lemma_first_value_push(lines.drop_first(), x, key);
    } else {
        assert(lines.push(x)[0] == x);
        assert(lines.push(x).drop_first() =~= Seq::<Seq<char>>::empty());
        assert(first_value(Seq::<Seq<char>>::empty(), key) is None);
    }
}

proof fn lemma_last_value_push(lines: Seq<Seq<char>>, x: Seq<char>, key: Seq<char>)
    ensures
        last_value(lines.push(x), key) == match key_value(x, key) {
            Some(v) => Some(v),
            None => last_value(lines, key),
        },
{
    assert(lines.push(x).drop_last() =~= lines);
}

/// The lines of `content`.
fn lines_of(content: &str) -> (r: Vec<Vec<char>>)
    ensures
        views(r@) == text_lines(content@),
{
    let v = chars_of(content);
    let mut pieces = split_chars(&v, Separator::Newline);
    let ghost p = views(pieces@);
    let last = pieces.pop().unwrap();
    let n = pieces.len();
    let mut r: Vec<Vec<char>> = Vec::new();
    let mut i: usize = 0;
    while i < n
        invariant
            i <= n,
            n == pieces@.len(),
            p.len() == n + 1,
            forall|j: int| 0 <= j < n ==> #[trigger] pieces@[j]@ == p[j],
            last@ == p.last(),
            views(r@) == Seq::new(i as nat, |j: int| strip_cr(p[j])),
        decreases n - i,
    {
        let mut line = copy_range(&pieces[i], 0, pieces[i].len());
        assert(line@ =~= p[i as int]);
        if line.len() > 0 && line[line.len() - 1] == '\r' {
            let ghost whole = line@;
            line.pop();
            assert(line@ =~= whole.drop_last());
        }
        assert(line@ == strip_cr(p[i as int]));
        let ghost before = views(r@);
        r.push(line);
        assert(views(r@) =~= before.push(strip_cr(p[i as int])));
        i = i + 1;
        assert(views(r@) =~= Seq::new(i as nat, |j: int| strip_cr(p[j])));
    }
    if last.len() > 0 {
        r.push(last);
        assert(views(r@) =~= text_lines(content@));
    } else {
        assert(views(r@) =~= text_lines(content@));
    }
    r
}

/// The value of `line` for `key`, if the line sets it.
fn key_value_of(line: &Vec<char>, key: &Vec<char>) -> (r: Option<Vec<char>>)
    ensures
        match r {
            Some(v) => key_value(line@, key@) == Some(v@),
            None => key_value(line@, key@) is None,
        },
{
    if !starts_with(line, key) {
        return None;
    }
    let n = line.len();
    let mut a = key.len();
    while a < n && line[a] == '"'
        invariant
            key@.len() <= a <= n,
            n == line@.len(),
            trim_quotes_start(line@.skip(key@.len() as int)) == trim_quotes_start(
                line@.subrange(a as int, n as int),
            ),
        decreases n - a,
    {
        assert(line@.subrange(a as int, n as int).drop_first() =~= line@.subrange(a + 1, n as int));
        a = a + 1;
    }
    assert(line@.skip(key@.len() as int) =~= line@.subrange(key@.len() as int, n as int));
    let ghost mid = line@.subrange(a as int, n as int);
    assert(trim_quotes_start(mid) == mid);
    let mut b = n;
    while b > a && line[b - 1] == '"'
        invariant
            a <= b <= n,
            n == line@.len(),
            mid == line@.subrange(a as int, n as int),
            trim_quotes_end(mid) == trim_quotes_end(line@.subrange(a as int, b as int)),
        decreases b,
    {
        assert(line@.subrange(a as int, b as int).drop_last() =~= line@.subrange(a as int, b - 1));
        b = b - 1;
    }
    let ghost fin = line@.subrange(a as int, b as int);
    assert(trim_quotes_end(fin) == fin);
    let r = copy_range(line, a, b);
    Some(r)
}

/// The `PRETTY_NAME` that an os-release text gives, if any.
pub fn release_pretty_name(content: &str) -> (r: Option<String>)
    ensures
        match r {
            Some(s) => release_pretty_name_spec(content@) == Some(s@),
            None => release_pretty_name_spec(content@) is None,
        },
{
    let lines = lines_of(content);
    let key = chars_of("PRETTY_NAME=");
    let ghost ls = views(lines@);
    let mut i: usize = 0;
    assert(ls.take(0) =~= Seq::<Seq<char>>::empty());
    while i < lines.len()
        invariant
            i <= lines@.len(),
            ls == views(lines@),
            ls == text_lines(content@),
            key@ == "PRETTY_NAME="@,
            first_value(ls.take(i as int), key@) is None,
        decreases lines@.len() - i,
    {
        proof {
            assert(ls.take(i + 1) =~= ls.take(i as int).push(ls[i as int]));
            lemma_first_value_push(ls.take(i as int), ls[i as int], key@);
        }
        match key_value_of(&lines[i], &key) {
            Some(v) => {
                proof {
                    assert(first_value(ls.take(i + 1), key@) == Some(v@));
                    lemma_first_value_prefix(ls, key@, i + 1);
                }
                return Some(string_from_chars(v.as_slice()));
            },
            None => {},
        }
        i = i + 1;
    }
    assert(ls.take(lines@.len() as int) =~= ls);
    None
}

/// The value of an optional vector of characters.
pub open spec fn opt_chars(o: Option<Vec<char>>) -> Option<Seq<char>> {
    match o {
        Some(v) => Some(v@),
        None => None,
    }
}

/// The name of the system that an os-release text describes, if it gives one.
pub fn release_os_name(content: &str) -> (r: Option<String>)
    ensures
        match r {
            Some(s) => release_os_name_spec(content@) == Some(s@),
            None => release_os_name_spec(content@) is None,
        },
{
    let lines = lines_of(content);
    let pretty_key = chars_of("PRETTY_NAME=");
    let name_key = chars_of("NAME=");
    let id_key = chars_of("ID=");
    let version_key = chars_of("VERSION_ID=");
    let ghost ls = views(lines@);
    let mut name: Option<Vec<char>> = None;
    let mut id: Option<Vec<char>> = None;
    let mut version_id: Option<Vec<char>> = None;
    let mut i: usize = 0;
    assert(ls.take(0) =~= Seq::<Seq<char>>::empty());
    while i < lines.len()
        invariant
            i <= lines@.len(),
            ls == views(lines@),
            ls == text_lines(content@),
            pretty_key@ == "PRETTY_NAME="@,
            name_key@ == "NAME="@,
            id_key@ == "ID="@,
            version_key@ == "VERSION_ID="@,
            first_value(ls.take(i as int), pretty_key@) is None,
            opt_chars(name) == last_value(ls.take(i as int), name_key@),
            opt_chars(id) == last_value(ls.take(i as int), id_key@),
            opt_chars(version_id) == last_value(ls.take(i as int), version_key@),
        decreases lines@.len() - i,
    {
        proof {
            assert(ls.take(i + 1) =~= ls.take(i as int).push(ls[i as int]));
            lemma_first_value_push(ls.take(i as int), ls[i as int], pretty_key@);
            lemma_last_value_push(ls.take(i as int), ls[i as int], name_key@);
            lemma_last_value_push(ls.take(i as int), ls[i as int], id_key@);
            lemma_last_value_push(ls.take(i as int), ls[i as int], version_key@);
        }
        match key_value_of(&lines[i], &pretty_key) {
            Some(v) => {
                proof {
                    lemma_first_value_prefix(ls, pretty_key@, i + 1);
                }
                return Some(string_from_chars(v.as_slice()));
            },
            None => {},
        }
        match key_value_of(&lines[i], &name_key) {
            Some(v) => {
                name = Some(v);
            },
            None => {},
        }
        match key_value_of(&lines[i], &id_key) {
            Some(v) => {
                id = Some(v);
            },
            None => {},
        }
        match key_value_of(&lines[i], &version_key) {
            Some(v) => {
                version_id = Some(v);
            },
            None => {},
        }
        i = i + 1;
    }
    assert(ls.take(lines@.len() as int) =~= ls);
    match name {
        Some(n) => {
            return Some(string_from_chars(n.as_slice()));
        },
        None => {},
    }
    match id {
        Some(mut result) => {
            match version_id {
                Some(mut v) => {
                    result.push(' ');
                    result.append(&mut v);
                },
                None => {},
            }
            Some(string_from_chars(result.as_slice()))
        },
        None => None,
    }
}

proof fn lemma_first_value_prefix(lines: Seq<Seq<char>>, key: Seq<char>, k: int)
    requires
        0 <= k <= lines.len(),
        first_value(lines.take(k), key) is Some,
    ensures
        first_value(lines, key) == first_value(lines.take(k), key),
    decreases k,
{
    if k > 0 && lines.len() > 0 {
        let t = lines.take(k);
        assert(t[0] == lines[0]);
        if key_value(lines[0], key) is None {
            assert(t.drop_first() =~= lines.drop_first().take(k - 1));
            lemma_first_value_prefix(lines.drop_first(), key, k - 1);
        }
    } else {
        assert(lines.take(k) =~= Seq::<Seq<char>>::empty());
    }
}

/// Where an os-release text sets `PRETTY_NAME`, that is the system's name,
/// whatever `NAME`, `ID` or `VERSION_ID` lines it also holds, before or after.
pub proof fn lemma_pretty_name_wins(content: Seq<char>)
    ensures
        release_pretty_name_spec(content) is Some ==> release_os_name_spec(content)
            == release_pretty_name_spec(content),
        release_pretty_name_spec(content) is None && last_value(text_lines(content), "NAME="@) is Some
            ==> release_os_name_spec(content) == last_value(text_lines(content), "NAME="@),
{
}

/// The first line that sets a key gives its value: the text after the key,
/// without the quotes at either end.
pub proof fn lemma_first_setting_line_wins(lines: Seq<Seq<char>>, key: Seq<char>, i: int)
    requires
        0 <= i < lines.len(),
        has_prefix(lines[i], key),
        forall|j: int| 0 <= j < i ==> !has_prefix(#[trigger] lines[j], key),
    ensures
        first_value(lines, key) == Some(unquote(lines[i].skip(key.len() as int))),
    decreases i,
{
    if i > 0 {
        let t = lines.drop_first();
        assert(!has_prefix(lines[0], key));
        assert forall|j: int| 0 <= j < i - 1 implies !has_prefix(#[trigger] t[j], key) by {
            assert(t[j] == lines[j + 1]);
        }
        assert(t[i - 1] == lines[i]);
        lemma_first_setting_line_wins(t, key, i - 1);
    }
}

/// The last line that sets a key gives its value.
pub proof fn lemma_last_setting_line_wins(lines: Seq<Seq<char>>, key: Seq<char>, i: int)
    requires
        0 <= i < lines.len(),
        has_prefix(lines[i], key),
        forall|j: int| i < j < lines.len() ==> !has_prefix(#[trigger] lines[j], key),
    ensures
        last_value(lines, key) == Some(unquote(lines[i].skip(key.len() as int))),
    decreases lines.len() - i,
{
    if i < lines.len() - 1 {
        let t = lines.drop_last();
        assert(!has_prefix(lines[lines.len() - 1], key));
        assert forall|j: int| i < j < t.len() implies !has_prefix(#[trigger] t[j], key) by {
            assert(t[j] == lines[j]);
        }
        assert(t[i] == lines[i]);
        lemma_last_setting_line_wins(t, key, i);
    }
}

proof fn lemma_trim_quotes_start_shape(s: Seq<char>)
    ensures
        trim_quotes_start(s).len() <= s.len(),
        trim_quotes_start(s) == s.skip(s.len() - trim_quotes_start(s).len()),
        forall|i: int| 0 <= i < s.len() - trim_quotes_start(s).len() ==> #[trigger] s[i] == '"',
        trim_quotes_start(s).len() > 0 ==> trim_quotes_start(s)[0] != '"',
    decreases s.len(),
{
    if s.len() > 0 && s[0] == '"' {
        let d = s.drop_first();
        lemma_trim_quotes_start_shape(d);
        let t = trim_quotes_start(d);
        assert(d.skip(d.len() - t.len()) =~= s.skip(s.len() - t.len()));
        assert forall|i: int| 0 <= i < s.len() - t.len() implies #[trigger] s[i] == '"' by {
            if i > 0 {
                assert(s[i] == d[i - 1]);
            }
        }
    } else {
        assert(s.skip(0) =~= s);
    }
}

proof fn lemma_trim_quotes_end_shape(s: Seq<char>)
    ensures
        trim_quotes_end(s).len() <= s.len(),
        trim_quotes_end(s) == s.take(trim_quotes_end(s).len() as int),
        forall|i: int| trim_quotes_end(s).len() <= i < s.len() ==> #[trigger] s[i] == '"',
        trim_quotes_end(s).len() > 0 ==> trim_quotes_end(s).last() != '"',
    decreases s.len(),
{
    if s.len() > 0 && s.last() == '"' {
        let d = s.drop_last();
        lemma_trim_quotes_end_shape(d);
        let t = trim_quotes_end(d);
        assert(d.take(t.len() as int) =~= s.take(t.len() as int));
        assert forall|i: int| t.len() <= i < s.len() implies #[trigger] s[i] == '"' by {
            if i < s.len() - 1 {
                assert(s[i] == d[i]);
            }
        }
    } else {
        assert(s.take(s.len() as int) =~= s);
    }
}

/// Unquoting removes the `'"'` at either end and nothing else: what is left is
/// a stretch of the text that neither starts nor ends with `'"'`, and every
/// character before or after it is a `'"'`.
pub proof fn lemma_unquote_shape(s: Seq<char>)
    ensures
        exists|a: int, b: int|
            0 <= a <= b <= s.len() && unquote(s) == s.subrange(a, b) && (forall|i: int|
                0 <= i < a ==> #[trigger] s[i] == '"') && (forall|i: int|
                b <= i < s.len() ==> #[trigger] s[i] == '"'),
        unquote(s).len() > 0 ==> unquote(s)[0] != '"' && unquote(s).last() != '"',
{
    lemma_trim_quotes_start_shape(s);
    let m = trim_quotes_start(s);
    lemma_trim_quotes_end_shape(m);
    let r = trim_quotes_end(m);
    let a = s.len() - m.len();
    let b = a + r.len();
    assert(r =~= s.subrange(a, b));
    assert forall|i: int| b <= i < s.len() implies #[trigger] s[i] == '"' by {
        assert(s[i] == m[i - a]);
    }
    if r.len() > 0 {
        assert(r[0] == m[0]);
    }
}

/// The first line of a text is what comes before its first line feed, without a
/// carriage return just before the line feed.
pub proof fn lemma_first_line(a: Seq<char>, b: Seq<char>)
    requires
        forall|i: int| 0 <= i < a.len() ==> a[i] != '\n',
    ensures
        text_lines(a + seq!['\n'] + b).len() >= 1,
        text_lines(a + seq!['\n'] + b)[0] == if a.len() > 0 && a.last() == '\r' {
            a.drop_last()
        } else {
            a
        },
{
    let k = Separator::Newline;
    let an = a + seq!['\n'];
    lemma_split_concat(an, b, k);
    lemma_split_no_separator(a, k);
    lemma_split_pieces_len(b, k);
    assert(an.drop_last() =~= a);
    assert(an.last() == '\n');
    assert(split_pieces(an, k) == seq![a].push(Seq::<char>::empty()));
    let p = split_pieces(an + b, k);
    assert(seq![a].push(Seq::<char>::empty()).drop_last() =~= seq![a]);
    assert(p[0] == a);
    assert(p.len() >= 2);
}

/// Without `PRETTY_NAME` and `NAME`, the system's name is the last `ID`,
/// followed by a space and the last `VERSION_ID` where the text sets one.
pub proof fn lemma_id_fallback(content: Seq<char>)
    requires
        release_pretty_name_spec(content) is None,
        last_value(text_lines(content), "NAME="@) is None,
    ensures
        last_value(text_lines(content), "ID="@) is None ==> release_os_name_spec(content) is None,
        last_value(text_lines(content), "ID="@) matches Some(id) ==> release_os_name_spec(content)
            == Some(
            match last_value(text_lines(content), "VERSION_ID="@) {
                Some(v) => id + seq![' '] + v,
                None => id,
            },
        ),
{
}

} // verus!
