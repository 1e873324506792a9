//! The events of Hyprland's event socket that name the focused window.

use vstd::prelude::*;
use crate::text::{chars_of, copy_range, find_char, first_index_of, has_prefix, starts_with, string_from_chars};

verus! {

/// `s` cut at its first `c`: what comes before it and what comes after it; all
/// of `s` and nothing where it holds no `c` (as `splitn(2, c)` yields them).
pub open spec fn split_once(s: Seq<char>, c: char) -> (Seq<char>, Seq<char>) {
    let i = first_index_of(s, c);
    if i < 0 {
        (s, Seq::empty())
    } else {
        (s.take(i), s.skip(i + 1))
    }
}

/// The class and title that an event line names: for a line
/// `activewindow>>CLASS,TITLE`, the text before the first comma and the rest.
pub open spec fn active_window_event(line: Seq<char>) -> Option<(Seq<char>, Seq<char>)> {
    let prefix = "activewindow>>"@;
    if has_prefix(line, prefix) {
        Some(split_once(line.skip(prefix.len() as int), ','))
    } else {
        None
    }
}

/// Reads the class and title of the focused window from one line of Hyprland's
/// event socket; `None` for any other event.
pub fn parse_active_window(line: &str) -> (r: Option<(String, String)>)
    ensures
        match r {
            Some((class, title)) => active_window_event(line@) == Some((class@, title@)),
            None => active_window_event(line@) is None,
        },
{
    let v = chars_of(line);
    let p = chars_of("activewindow>>");
    if !starts_with(&v, &p) {
        return None;
    }
    let start = p.len();
    let ghost data = v@.skip(start as int);
    match find_char(&v, start, ',') {
        Some(j) => {
            let class = copy_range(&v, start, j);
            let title = copy_range(&v, j + 1, v.len());
            assert(class@ =~= data.take(j - start));
            assert(title@ =~= data.skip(j - start + 1));
            Some((string_from_chars(class.as_slice()), string_from_chars(title.as_slice())))
        },
        None => {
            let class = copy_range(&v, start, v.len());
            assert(class@ =~= data);
            let title: Vec<char> = Vec::new();
            assert(title@ =~= Seq::<char>::empty());
            Some((string_from_chars(class.as_slice()), string_from_chars(title.as_slice())))
        },
    }
}

/// The path of Hyprland's event socket for runtime directory `runtime` and
/// instance signature `signature`: `RUNTIME/hypr/SIGNATURE/.socket2.sock`.
pub fn hyprland_socket_path(runtime: &str, signature: &str) -> (r: String)
    ensures
        r@ == runtime@ + "/hypr/"@ + signature@ + "/.socket2.sock"@,
{
    let mut path = runtime.to_owned();
    path.append("/hypr/");
    path.append(signature);
    path.append("/.socket2.sock");
    path
}

/// The class of an event holds no comma, and where the event holds one, class,
/// comma and title give back the whole text after `activewindow>>`.
pub proof fn lemma_split_once_rejoins(s: Seq<char>, c: char)
    ensures
        -1 <= first_index_of(s, c) < s.len(),
        first_index_of(s, c) >= 0 ==> s[first_index_of(s, c)] == c,
        !split_once(s, c).0.contains(c),
        first_index_of(s, c) >= 0 ==> split_once(s, c).0 + seq![c] + split_once(s, c).1 == s,
        first_index_of(s, c) < 0 ==> split_once(s, c).0 == s && split_once(s, c).1.len() == 0,
    decreases s.len(),
{
    if s.len() > 0 && s[0] != c {
        let t = s.drop_first();
        lemma_split_once_rejoins(t, c);
        let i = first_index_of(t, c);
        if i >= 0 {
            assert(s.take(i + 1) =~= seq![s[0]] + t.take(i));
            assert(s.skip(i + 2) =~= t.skip(i + 1));
            assert(split_once(s, c).0 + seq![c] + split_once(s, c).1 =~= s);
            let a = s.take(i + 1);
            assert forall|k: int| 0 <= k < a.len() implies #[trigger] a[k] != c by {
                if k > 0 {
                    assert(a[k] == t.take(i)[k - 1]);
                }
            }
        } else {
            assert forall|k: int| 0 <= k < s.len() implies #[trigger] s[k] != c by {
                if k > 0 {
                    assert(s[k] == t[k - 1]);
                }
            }
        }
    } else if s.len() > 0 {
        assert(s.take(0) =~= Seq::<char>::empty());
        assert(seq![c] + s.skip(1) =~= s);
        assert(Seq::<char>::empty() + seq![c] + s.skip(1) =~= s);
    }
}

/// A line made of `activewindow>>` and some text is that event, with the text
/// cut at its first comma; a line that does not begin with `activewindow>>` is none.
pub proof fn lemma_active_window_line(d: Seq<char>, line: Seq<char>)
    ensures
        active_window_event("activewindow>>"@ + d) == Some(split_once(d, ',')),
        !has_prefix(line, "activewindow>>"@) ==> active_window_event(line) is None,
{
    let p = "activewindow>>"@;
    assert((p + d).take(p.len() as int) =~= p);
    assert((p + d).skip(p.len() as int) =~= d);
}

} // verus!
