//! Browser tab titles made readable: the browser's name at the end of the
//! title removed, an empty tab shown as the application, a bare URL as its host.

use vstd::prelude::*;
use crate::rules::{lemma_trim_fixed, lemma_trim_shape, trim, trim_chars};
use crate::text::{char_is_whitespace, chars_of, copy_range, has_prefix, starts_with, string_from_chars, unicode_whitespace};

verus! {

/// How many browser names are recognised at the end of a title.
pub const BROWSER_NAMES: usize = 12;

/// How many separators may stand between a tab title and the browser's name.
pub const BROWSER_SEPARATORS: usize = 3;

/// The browser names that browsers put at the end of a window title.
pub open spec fn browser_name(i: int) -> Seq<char> {
    if i == 0 {
        "Mozilla Firefox"@
    } else if i == 1 {
        "Firefox"@
    } else if i == 2 {
        "Google Chrome"@
    } else if i == 3 {
        "Chromium"@
    } else if i == 4 {
        "Brave"@
    } else if i == 5 {
        "Vivaldi"@
    } else if i == 6 {
        "Microsoft Edge"@
    } else if i == 7 {
        "Opera"@
    } else if i == 8 {
        "LibreWolf"@
    } else if i == 9 {
        "Zen Browser"@
    } else if i == 10 {
        "Floorp"@
    } else {
        "Waterfox"@
    }
}

/// The separators between a tab title and the browser's name: a hyphen, an em
/// dash or an en dash, with a space on either side.
pub open spec fn browser_separator(j: int) -> Seq<char> {
    if j == 0 {
        " - "@
    } else if j == 1 {
        " — "@
    } else {
        " – "@
    }
}

/// The `k`-th browser suffix: a separator followed by a browser name.
pub open spec fn browser_suffix(k: int) -> Seq<char> {
    browser_separator(k % (BROWSER_SEPARATORS as int)) + browser_name(k / (BROWSER_SEPARATORS as int))
}

/// `s` ends with `p`.
pub open spec fn has_suffix(s: Seq<char>, p: Seq<char>) -> bool {
    p.len() <= s.len() && s.skip(s.len() - p.len()) == p
}

/// `s` without the first browser suffix, from the `k`-th on, that it ends with.
pub open spec fn strip_browser_suffix_from(s: Seq<char>, k: int) -> Seq<char>
    decreases (BROWSER_NAMES * BROWSER_SEPARATORS) - k,
{
    if k < 0 || k >= (BROWSER_NAMES * BROWSER_SEPARATORS) {
        s
    } else if has_suffix(s, browser_suffix(k)) {
        s.take(s.len() - browser_suffix(k).len())
    } else {
        strip_browser_suffix_from(s, k + 1)
    }
}

/// `s` without a browser suffix (such as `" - Mozilla Firefox"`) at its end.
pub open spec fn strip_browser_suffix(s: Seq<char>) -> Seq<char> {
    strip_browser_suffix_from(s, 0)
}

/// A character that ends the host part of a URL.
pub open spec fn is_url_stop(c: char) -> bool {
    c == '/' || c == '?' || c == '#'
}

/// The length of the host part at the start of `s`: up to the first `/`, `?` or `#`.
pub open spec fn host_len(s: Seq<char>) -> nat
    decreases s.len(),
{
    if s.len() == 0 || is_url_stop(s[0]) {
        0
    } else {
        1 + host_len(s.drop_first())
    }
}

/// The length of the scheme of an `http` or `https` URL, 0 for anything else.
pub open spec fn url_scheme_len(s: Seq<char>) -> nat {
    if has_prefix(s, "https://"@) {
        "https://"@.len()
    } else if has_prefix(s, "http://"@) {
        "http://"@.len()
    } else {
        0
    }
}

/// `s` is a bare URL: an `http` or `https` URL and nothing else, no whitespace.
pub open spec fn is_bare_url(s: Seq<char>) -> bool {
    &&& url_scheme_len(s) > 0
    &&& forall|i: int| 0 <= i < s.len() ==> !unicode_whitespace(#[trigger] s[i])
}

/// The host of a URL: what follows the scheme, up to the first `/`, `?` or `#`.
pub open spec fn url_host(s: Seq<char>) -> Seq<char> {
    let rest = s.skip(url_scheme_len(s) as int);
    rest.take(host_len(rest) as int)
}

/// The title shown for a window titled `title` of an application named `name`:
/// trimmed, without a browser suffix; `name` for an empty tab (`"New Tab"`);
/// the host for a bare URL with a host; else the text itself.
pub open spec fn cleaned_title(title: Seq<char>, name: Seq<char>) -> Seq<char> {
    let t = trim(strip_browser_suffix(trim(title)));
    if t == "New Tab"@ {
        name
    } else if is_bare_url(t) && url_host(t).len() > 0 {
        url_host(t)
    } else {
        t
    }
}

fn browser_name_text(i: usize) -> (r: &'static str)
    requires
        i < BROWSER_NAMES,
    ensures
        r@ == browser_name(i as int),
{
    if i == 0 {
        "Mozilla Firefox"
    } else if i == 1 {
        "Firefox"
    } else if i == 2 {
        "Google Chrome"
    } else if i == 3 {
        "Chromium"
    } else if i == 4 {
        "Brave"
    } else if i == 5 {
        "Vivaldi"
    } else if i == 6 {
        "Microsoft Edge"
    } else if i == 7 {
        "Opera"
    } else if i == 8 {
        "LibreWolf"
    } else if i == 9 {
        "Zen Browser"
    } else if i == 10 {
        "Floorp"
    } else {
        "Waterfox"
    }
}

fn browser_separator_text(j: usize) -> (r: &'static str)
    ensures
        r@ == browser_separator(j as int),
{
    if j == 0 {
        " - "
    } else if j == 1 {
        " — "
    } else {
        " – "
    }
}

/// Whether `s` ends with `p`.
fn ends_with(s: &Vec<char>, p: &Vec<char>) -> (r: bool)
    ensures
        r == has_suffix(s@, p@),
{
    if s.len() < p.len() {
        return false;
    }
    let n = s.len();
    let off = n - p.len();
    let mut i: usize = 0;
    while i < p.len()
        invariant
            n == s@.len(),
            i <= p@.len(),
            off + p@.len() == s@.len(),
            forall|j: int| 0 <= j < i ==> s@[off + j] == p@[j],
        decreases p@.len() - i,
    {
        if s[off + i] != p[i] {
            assert(s@.skip(off as int)[i as int] != p@[i as int]);
            return false;
        }
        i = i + 1;
    }
    assert(s@.skip(off as int) =~= p@);
    true
}

/// `s` without a browser suffix at its end.
pub fn strip_browser_suffix_chars(s: &Vec<char>) -> (r: Vec<char>)
    ensures
        r@ == strip_browser_suffix(s@),
{
    let mut k: usize = 0;
    while k < BROWSER_NAMES * BROWSER_SEPARATORS
        invariant
            k <= BROWSER_NAMES * BROWSER_SEPARATORS,
            strip_browser_suffix(s@) == strip_browser_suffix_from(s@, k as int),
        decreases BROWSER_NAMES * BROWSER_SEPARATORS - k,
    {
        let mut suffix = chars_of(browser_separator_text(k % BROWSER_SEPARATORS));
        let mut name = chars_of(browser_name_text(k / BROWSER_SEPARATORS));
        suffix.append(&mut name);
        assert(suffix@ == browser_suffix(k as int));
        if ends_with(s, &suffix) {
            return copy_range(s, 0, s.len() - suffix.len());
        }
        k = k + 1;
    }
    copy_range(s, 0, s.len())
}

/// The host of `s` where `s` is a bare URL with a non-empty host.
fn bare_url_host(s: &Vec<char>) -> (r: Option<Vec<char>>)
    ensures
        match r {
            Some(h) => is_bare_url(s@) && url_host(s@).len() > 0 && h@ == url_host(s@),
            None => !(is_bare_url(s@) && url_host(s@).len() > 0),
        },
{
    let https = chars_of("https://");
    let http = chars_of("http://");
    let scheme = if starts_with(s, &https) {
        https.len()
    } else if starts_with(s, &http) {
        http.len()
    } else {
        0
    };
    assert(scheme == url_scheme_len(s@));
    if scheme == 0 {
        return None;
    }
    let n = s.len();
    let mut i: usize = 0;
    while i < n
        invariant
            i <= n,
            n == s@.len(),
            forall|j: int| 0 <= j < i ==> !unicode_whitespace(#[trigger] s@[j]),
        decreases n - i,
    {
        if char_is_whitespace(s[i]) {
            return None;
        }
        i = i + 1;
    }
    let ghost rest = s@.skip(scheme as int);
    let mut e: usize = scheme;
    while e < n && !(s[e] == '/' || s[e] == '?' || s[e] == '#')
        invariant
            scheme <= e <= n,
            n == s@.len(),
            rest == s@.skip(scheme as int),
            host_len(rest) == (e - scheme) + host_len(s@.skip(e as int)),
        decreases n - e,
    {
        assert(s@.skip(e as int).drop_first() =~= s@.skip(e + 1));
        e = e + 1;
    }
    assert(host_len(s@.skip(e as int)) == 0);
    if e == scheme {
        return None;
    }
    let h = copy_range(s, scheme, e);
    assert(h@ =~= rest.take(host_len(rest) as int));
    Some(h)
}

/// The title shown for a window titled `title` of the application named `name`.
pub fn clean_title(title: &str, name: &str) -> (r: String)
    ensures
        r@ == cleaned_title(title@, name@),
{
    let v = chars_of(title);
    let t0 = trim_chars(&v);
    let stripped = strip_browser_suffix_chars(&t0);
    let t = trim_chars(&stripped);
    let new_tab = chars_of("New Tab");
    let is_new_tab = t.len() == new_tab.len() && starts_with(&t, &new_tab);
    assert(is_new_tab == (t@ == new_tab@)) by {
        if t@.len() == new_tab@.len() {
            assert(t@.take(new_tab@.len() as int) =~= t@);
        }
    }
    assert(t@ == trim(strip_browser_suffix(trim(title@))));
    if is_new_tab {
        let n = chars_of(name);
        return string_from_chars(n.as_slice());
    }
    match bare_url_host(&t) {
        Some(h) => string_from_chars(h.as_slice()),
        None => string_from_chars(t.as_slice()),
    }
}

/// A dash that separates a tab title from the browser's name.
pub open spec fn is_title_dash(c: char) -> bool {
    c == '-' || c == '—' || c == '–'
}

/// The position of the last dash in `s`, or -1 where there is none.
pub open spec fn last_dash(s: Seq<char>) -> int
    decreases s.len(),
{
    if s.len() == 0 {
        -1
    } else if is_title_dash(s.last()) {
        s.len() - 1
    } else {
        last_dash(s.drop_last())
    }
}

proof fn lemma_last_dash_append(x: Seq<char>, n: Seq<char>)
    requires
        forall|k: int| 0 <= k < n.len() ==> !is_title_dash(#[trigger] n[k]),
    ensures
        last_dash(x + n) == last_dash(x),
    decreases n.len(),
{
    if n.len() > 0 {
        let n0 = n.drop_last();
        assert((x + n).drop_last() =~= x + n0);
        assert((x + n).last() == n.last());
        assert(!is_title_dash(n[n.len() - 1]));
        lemma_last_dash_append(x, n0);
    } else {
        assert(x + n =~= x);
    }
}

proof fn lemma_separator_shape(j: int)
    requires
        0 <= j < BROWSER_SEPARATORS,
    ensures
        browser_separator(j).len() == 3,
        browser_separator(j)[0] == ' ',
        is_title_dash(browser_separator(j)[1]),
        browser_separator(j)[2] == ' ',
{
    reveal_strlit(" - ");
    reveal_strlit(" — ");
    reveal_strlit(" – ");
}

proof fn lemma_name_shape(i: int)
    requires
        0 <= i < BROWSER_NAMES,
    ensures
        browser_name(i).len() > 0,
        !unicode_whitespace(browser_name(i).last()),
        forall|k: int| 0 <= k < browser_name(i).len() ==> !is_title_dash(#[trigger] browser_name(i)[k]),
{
    reveal_strlit("Mozilla Firefox");
    reveal_strlit("Firefox");
    reveal_strlit("Google Chrome");
    reveal_strlit("Chromium");
    reveal_strlit("Brave");
    reveal_strlit("Vivaldi");
    reveal_strlit("Microsoft Edge");
    reveal_strlit("Opera");
    reveal_strlit("LibreWolf");
    reveal_strlit("Zen Browser");
    reveal_strlit("Floorp");
    reveal_strlit("Waterfox");
}

/// The last dash of text that ends with a browser suffix is the suffix's dash.
proof fn lemma_suffix_last_dash(u: Seq<char>, k: int)
    requires
        0 <= k < BROWSER_NAMES * BROWSER_SEPARATORS,
    ensures
        last_dash(u + browser_suffix(k)) == u.len() + 1,
        browser_suffix(k).len() >= 3,
{
    let j = k % (BROWSER_SEPARATORS as int);
    let i = k / (BROWSER_SEPARATORS as int);
    lemma_separator_shape(j);
    lemma_name_shape(i);
    let sep = browser_separator(j);
    let name = browser_name(i);
    assert(u + browser_suffix(k) =~= (u + sep) + name);
    lemma_last_dash_append(u + sep, name);
    let us = u + sep;
    let ud = u + seq![' ', sep[1]];
    assert(us.drop_last() =~= ud);
    assert(us.last() == sep[2]);
    assert(!is_title_dash(us.last()));
    assert(us.len() > 0);
    assert(last_dash(us) == last_dash(ud));
    assert(ud.last() == sep[1]);
    assert(ud.len() == u.len() + 2);
    assert(last_dash(ud) == ud.len() - 1);
}

/// Two browser suffixes that a text both ends with are the same text.
proof fn lemma_suffix_unique(x: Seq<char>, k: int, k2: int)
    requires
        0 <= k < BROWSER_NAMES * BROWSER_SEPARATORS,
        0 <= k2 < BROWSER_NAMES * BROWSER_SEPARATORS,
        has_suffix(x, browser_suffix(k)),
        has_suffix(x, browser_suffix(k2)),
    ensures
        browser_suffix(k2) == browser_suffix(k),
{
    let a = browser_suffix(k);
    let b = browser_suffix(k2);
    let u = x.take(x.len() - a.len());
    let v = x.take(x.len() - b.len());
    assert(u + a =~= x);
    assert(v + b =~= x);
    lemma_suffix_last_dash(u, k);
    lemma_suffix_last_dash(v, k2);
    assert(a.len() == b.len());
}

proof fn lemma_strip_from_suffix(x: Seq<char>, k0: int, k: int)
    requires
        0 <= k0 <= k < BROWSER_NAMES * BROWSER_SEPARATORS,
        has_suffix(x, browser_suffix(k)),
    ensures
        strip_browser_suffix_from(x, k0) == x.take(x.len() - browser_suffix(k).len()),
    decreases k - k0,
{
    if has_suffix(x, browser_suffix(k0)) {
        lemma_suffix_unique(x, k, k0);
    } else {
        lemma_strip_from_suffix(x, k0 + 1, k);
    }
}

proof fn lemma_strip_dash_free(s: Seq<char>, k0: int)
    requires
        0 <= k0 <= BROWSER_NAMES * BROWSER_SEPARATORS,
        forall|i: int| 0 <= i < s.len() ==> !is_title_dash(#[trigger] s[i]),
    ensures
        strip_browser_suffix_from(s, k0) == s,
    decreases BROWSER_NAMES * BROWSER_SEPARATORS - k0,
{
    if k0 < BROWSER_NAMES * BROWSER_SEPARATORS {
        if has_suffix(s, browser_suffix(k0)) {
            let a = browser_suffix(k0);
            lemma_separator_shape(k0 % (BROWSER_SEPARATORS as int));
            let p = s.len() - a.len() + 1;
            assert(s.skip(s.len() - a.len())[1] == s[p]);
            assert(a[1] == browser_separator(k0 % (BROWSER_SEPARATORS as int))[1]);
            assert(false);
        }
        lemma_strip_dash_free(s, k0 + 1);
    }
}

/// The browser suffixes that are removed from a title: for every browser name
/// and separator listed here, a title ending in the separator and the name has
/// them removed, whatever comes before.
pub proof fn lemma_browser_suffixes_recognised(t: Seq<char>, i: int, j: int)
    requires
        0 <= i < 12,
        0 <= j < 3,
    ensures
        ({
            let names = seq![
                "Mozilla Firefox"@,
                "Firefox"@,
                "Google Chrome"@,
                "Chromium"@,
                "Brave"@,
                "Vivaldi"@,
                "Microsoft Edge"@,
                "Opera"@,
                "LibreWolf"@,
                "Zen Browser"@,
                "Floorp"@,
                "Waterfox"@,
            ];
            let seps = seq![" - "@, " — "@, " – "@];
            strip_browser_suffix(t + seps[j] + names[i]) == t
        }),
{
    let names = seq![
        "Mozilla Firefox"@,
        "Firefox"@,
        "Google Chrome"@,
        "Chromium"@,
        "Brave"@,
        "Vivaldi"@,
        "Microsoft Edge"@,
        "Opera"@,
        "LibreWolf"@,
        "Zen Browser"@,
        "Floorp"@,
        "Waterfox"@,
    ];
    let seps = seq![" - "@, " — "@, " – "@];
    assert(names[i] == browser_name(i));
    assert(seps[j] == browser_separator(j));
    let k = 3 * i + j;
    assert(k % (BROWSER_SEPARATORS as int) == j);
    assert(k / (BROWSER_SEPARATORS as int) == i);
    let suffix = browser_suffix(k);
    assert(suffix == seps[j] + names[i]);
    let x = t + seps[j] + names[i];
    assert(x =~= t + suffix);
    assert(x.skip(x.len() - suffix.len()) =~= suffix);
    lemma_strip_from_suffix(x, 0, k);
    assert(x.take(x.len() - suffix.len()) =~= t);
}

/// A trimmed title with no dash in it is shown the same with or without a
/// browser suffix after it: "GitHub - Chromium" is shown as "GitHub" is, and
/// "New Tab - Chromium" as the application's name.
pub proof fn lemma_cleaned_title_ignores_browser_suffix(t: Seq<char>, name: Seq<char>, i: int, j: int)
    requires
        0 <= i < 12,
        0 <= j < 3,
        t.len() > 0,
        trim(t) == t,
        forall|k: int| 0 <= k < t.len() ==> !is_title_dash(#[trigger] t[k]),
    ensures
        ({
            let names = seq![
                "Mozilla Firefox"@,
                "Firefox"@,
                "Google Chrome"@,
                "Chromium"@,
                "Brave"@,
                "Vivaldi"@,
                "Microsoft Edge"@,
                "Opera"@,
                "LibreWolf"@,
                "Zen Browser"@,
                "Floorp"@,
                "Waterfox"@,
            ];
            let seps = seq![" - "@, " — "@, " – "@];
            cleaned_title(t + seps[j] + names[i], name) == cleaned_title(t, name)
        }),
{
    let names = seq![
        "Mozilla Firefox"@,
        "Firefox"@,
        "Google Chrome"@,
        "Chromium"@,
        "Brave"@,
        "Vivaldi"@,
        "Microsoft Edge"@,
        "Opera"@,
        "LibreWolf"@,
        "Zen Browser"@,
        "Floorp"@,
        "Waterfox"@,
    ];
    let seps = seq![" - "@, " — "@, " – "@];
    assert(names[i] == browser_name(i));
    lemma_name_shape(i);
    lemma_trim_shape(t);
    let x = t + seps[j] + names[i];
    assert(x[0] == t[0]);
    assert(x.last() == names[i].last());
    lemma_trim_fixed(x);
    lemma_browser_suffixes_recognised(t, i, j);
    lemma_strip_dash_free(t, 0);
}

/// An empty tab is shown as the application, with or without a browser suffix.
pub proof fn lemma_new_tab_shows_name(name: Seq<char>, i: int, j: int)
    requires
        0 <= i < 12,
        0 <= j < 3,
    ensures
        ({
            let names = seq![
                "Mozilla Firefox"@,
                "Firefox"@,
                "Google Chrome"@,
                "Chromium"@,
                "Brave"@,
                "Vivaldi"@,
                "Microsoft Edge"@,
                "Opera"@,
                "LibreWolf"@,
                "Zen Browser"@,
                "Floorp"@,
                "Waterfox"@,
            ];
            let seps = seq![" - "@, " — "@, " – "@];
            &&& cleaned_title("New Tab"@, name) == name
            &&& cleaned_title("New Tab"@ + seps[j] + names[i], name) == name
        }),
{
    reveal_strlit("New Tab");
    let t = "New Tab"@;
    assert(!unicode_whitespace(t[0]) && !unicode_whitespace(t.last()));
    lemma_trim_fixed(t);
    assert forall|k: int| 0 <= k < t.len() implies !is_title_dash(#[trigger] t[k]) by {}
    lemma_strip_dash_free(t, 0);
    lemma_cleaned_title_ignores_browser_suffix(t, name, i, j);
}

proof fn lemma_host_len(h: Seq<char>, rest: Seq<char>)
    requires
        forall|i: int| 0 <= i < h.len() ==> !is_url_stop(#[trigger] h[i]),
        rest.len() == 0 || is_url_stop(rest[0]),
    ensures
        host_len(h + rest) == h.len(),
    decreases h.len(),
{
    if h.len() > 0 {
        assert((h + rest)[0] == h[0]);
        assert((h + rest).drop_first() =~= h.drop_first() + rest);
        lemma_host_len(h.drop_first(), rest);
    } else {
        assert(h + rest =~= rest);
    }
}

/// The host of an `https` or `http` URL is what follows `https://` or `http://`
/// up to the first `/`, `?` or `#`.
pub proof fn lemma_url_host(h: Seq<char>, rest: Seq<char>)
    requires
        forall|i: int| 0 <= i < h.len() ==> !is_url_stop(#[trigger] h[i]),
        rest.len() == 0 || is_url_stop(rest[0]),
    ensures
        url_host("https://"@ + h + rest) == h,
        url_host("http://"@ + h + rest) == h,
{
    reveal_strlit("https://");
    reveal_strlit("http://");
    lemma_host_len(h, rest);
    let s1 = "https://"@ + h + rest;
    assert(s1.take(8) =~= "https://"@);
    assert(s1.skip(8) =~= h + rest);
    assert((h + rest).take(h.len() as int) =~= h);
    let s2 = "http://"@ + h + rest;
    assert(s2.take(7) =~= "http://"@);
    assert(!has_prefix(s2, "https://"@)) by {
        assert(s2[4] == ':');
        if has_prefix(s2, "https://"@) {
            assert(s2.take(8)[4] == "https://"@[4]);
        }
    }
    assert(s2.skip(7) =~= h + rest);
}

/// A title that is a bare `https` URL is shown as its host.
pub proof fn lemma_bare_url_shows_host(h: Seq<char>, rest: Seq<char>, name: Seq<char>)
    requires
        h.len() > 0,
        forall|i: int|
            0 <= i < h.len() ==> !is_url_stop(#[trigger] h[i]) && !unicode_whitespace(h[i])
                && !is_title_dash(h[i]),
        forall|i: int|
            0 <= i < rest.len() ==> !unicode_whitespace(#[trigger] rest[i]) && !is_title_dash(rest[i]),
        rest.len() == 0 || is_url_stop(rest[0]),
    ensures
        cleaned_title("https://"@ + h + rest, name) == h,
{
    reveal_strlit("https://");
    reveal_strlit("New Tab");
    let t = "https://"@ + h + rest;
    assert(t[0] == 'h');
    assert(!unicode_whitespace(t.last())) by {
        if rest.len() > 0 {
            assert(t.last() == rest[rest.len() - 1]);
        } else {
            assert(t.last() == h[h.len() - 1]);
        }
    }
    lemma_trim_fixed(t);
    assert forall|i: int| 0 <= i < t.len() implies !is_title_dash(#[trigger] t[i]) && !unicode_whitespace(t[i]) by {
        if i >= 8 && i < 8 + h.len() {
            assert(t[i] == h[i - 8]);
        } else if i >= 8 + h.len() {
            assert(t[i] == rest[i - 8 - h.len()]);
        }
    }
    lemma_strip_dash_free(t, 0);
    assert(t != "New Tab"@) by {
        assert("New Tab"@[0] == 'N');
    }
    lemma_url_host(h, rest);
    assert(t.take(8) =~= "https://"@);
}

} // verus!
