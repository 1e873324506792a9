//! How a presence is built from the focused window: the display name of a
//! window class, the large image, and the title cut to Discord's field limit.

use vstd::prelude::*;
use crate::browser::{clean_title, cleaned_title};
use crate::settings::{Config, RpcRule, opt_view};
use vstd::hash_map::StringHashMap;
use crate::text::{
    Separator, char_is_whitespace, char_to_uppercase, chars_of, copy_range, split_chars, split_pieces,
    string_from_chars, unicode_uppercase, unicode_whitespace, views, is_separator,
    lemma_split_concat, lemma_split_no_separator, lemma_split_pieces_len,
};

verus! {

/// Discord enforces a 128 char limit on text fields.
pub const MAX_FIELD_LEN: usize = 128;

/// `s` without its leading whitespace.
pub open spec fn trim_start(s: Seq<char>) -> Seq<char>
    decreases s.len(),
{
    if s.len() > 0 && unicode_whitespace(s[0]) {
        trim_start(s.drop_first())
    } else {
        s
    }
}

/// `s` without its trailing whitespace.
pub open spec fn trim_end(s: Seq<char>) -> Seq<char>
    decreases s.len(),
{
    if s.len() > 0 && unicode_whitespace(s.last()) {
        trim_end(s.drop_last())
    } else {
        s
    }
}

/// `s` without leading and trailing whitespace, as `str::trim` gives it.
pub open spec fn trim(s: Seq<char>) -> Seq<char> {
    trim_end(trim_start(s))
}

/// The text that is shown for `s` in a Discord field: `s` trimmed, and, where
/// that is longer than the limit, its first 127 characters followed by `'…'`.
pub open spec fn truncated(s: Seq<char>) -> Seq<char> {
    let t = trim(s);
    if t.len() <= MAX_FIELD_LEN {
        t
    } else {
        t.take(MAX_FIELD_LEN - 1).push('…')
    }
}

proof fn lemma_trim_start_skip(s: Seq<char>, i: int)
    requires
        0 <= i < s.len(),
        forall|j: int| 0 <= j <= i ==> unicode_whitespace(#[trigger] s[j]),
    ensures
        trim_start(s) == trim_start(s.subrange(i + 1, s.len() as int)),
    decreases i,
{
    if i == 0 {
        assert(s.drop_first() =~= s.subrange(1, s.len() as int));
    } else {
        lemma_trim_start_skip(s, i - 1);
        let t = s.subrange(i, s.len() as int);
        assert(t[0] == s[i]);
        assert(t.drop_first() =~= s.subrange(i + 1, s.len() as int));
    }
}

proof fn lemma_trim_end_cut(s: Seq<char>, j: int)
    requires
        0 <= j < s.len(),
        forall|k: int| j <= k < s.len() ==> unicode_whitespace(#[trigger] s[k]),
    ensures
        trim_end(s) == trim_end(s.take(j)),
    decreases s.len() - j,
{
    if j == s.len() - 1 {
        assert(s.drop_last() =~= s.take(j));
    } else {
        lemma_trim_end_cut(s, j + 1);
        let t = s.take(j + 1);
        assert(t.last() == s[j]);
        assert(t.drop_last() =~= s.take(j));
    }
}

/// `v` without leading and trailing whitespace.
pub fn trim_chars(v: &Vec<char>) -> (r: Vec<char>)
    ensures
        r@ == trim(v@),
{
    let n = v.len();
    let mut i: usize = 0;
    while i < n && char_is_whitespace(v[i])
        invariant
            i <= n,
            n == v@.len(),
            forall|j: int| 0 <= j < i ==> unicode_whitespace(#[trigger] v@[j]),
        decreases n - i,
    {
        i = i + 1;
    }
    proof {
        if i > 0 {
            lemma_trim_start_skip(v@, i - 1);
        }
        assert(v@.subrange(0, n as int) =~= v@);
    }
    let ghost rest = v@.subrange(i as int, n as int);
    assert(trim_start(v@) == rest);
    let mut j: usize = n;
    while j > i && char_is_whitespace(v[j - 1])
        invariant
            i <= j <= n,
            n == v@.len(),
            rest == v@.subrange(i as int, n as int),
            forall|k: int| j <= k < n ==> unicode_whitespace(#[trigger] v@[k]),
        decreases j,
    {
        j = j - 1;
    }
    proof {
        if j < n {
            assert forall|k: int| (j - i) <= k < rest.len() implies unicode_whitespace(#[trigger] rest[k]) by {
                assert(rest[k] == v@[k + i]);
            }
            lemma_trim_end_cut(rest, j - i);
        }
        assert(rest.take(j - i) =~= v@.subrange(i as int, j as int));
        assert(rest.take(rest.len() as int) =~= rest);
    }
    copy_range(v, i, j)
}

/// Trims `s` and cuts it to at most `MAX_FIELD_LEN` characters.
pub fn truncate(s: &str) -> (r: String)
    ensures
        r@ == truncated(s@),
        r@.len() <= MAX_FIELD_LEN,
{
    let v = chars_of(s);
    let t = trim_chars(&v);
    let len = t.len();
    let keep = if len <= MAX_FIELD_LEN { len } else { MAX_FIELD_LEN - 1 };
    let mut out = copy_range(&t, 0, keep);
    if len > MAX_FIELD_LEN {
        out.push('…');
    } else {
        assert(t@.subrange(0, len as int) =~= t@);
    }
    assert(len > MAX_FIELD_LEN ==> t@.subrange(0, keep as int) =~= t@.take(MAX_FIELD_LEN - 1));
    string_from_chars(out.as_slice())
}

/// `w` with its first character replaced by that character's uppercase mapping.
pub open spec fn capitalize(w: Seq<char>) -> Seq<char> {
    if w.len() == 0 {
        w
    } else {
        unicode_uppercase(w[0]) + w.drop_first()
    }
}

/// The non-empty pieces of `ps`, in order, each capitalized.
pub open spec fn capitalized_words(ps: Seq<Seq<char>>) -> Seq<Seq<char>>
    decreases ps.len(),
{
    if ps.len() == 0 {
        Seq::empty()
    } else {
        let r = capitalized_words(ps.drop_last());
        if ps.last().len() > 0 {
            r.push(capitalize(ps.last()))
        } else {
            r
        }
    }
}

/// The words of `ws` with `sep` between each two of them.
pub open spec fn join_words(ws: Seq<Seq<char>>, sep: Seq<char>) -> Seq<char>
    decreases ws.len(),
{
    if ws.len() == 0 {
        Seq::empty()
    } else if ws.len() == 1 {
        ws[0]
    } else {
        join_words(ws.drop_last(), sep) + sep + ws.last()
    }
}

/// The part of a window class after its last `'.'` (all of it where it has none).
pub open spec fn last_dot_segment(class: Seq<char>) -> Seq<char> {
    split_pieces(class, Separator::Dot).last()
}

/// The name made from a window class: the part after its last `'.'`, cut into
/// words at whitespace, `'-'` and `'_'`, each word capitalized, joined by spaces.
pub open spec fn auto_display_name(class: Seq<char>) -> Seq<char> {
    join_words(
        capitalized_words(split_pieces(last_dot_segment(class), Separator::WordBreak)),
        seq![' '],
    )
}

/// The display name of a class: its entry in `name_map`, else the name made from it.
pub open spec fn display_name(name_map: Map<Seq<char>, String>, class: Seq<char>) -> Seq<char> {
    if name_map.contains_key(class) {
        name_map[class]@
    } else {
        auto_display_name(class)
    }
}

proof fn lemma_join_push(ws: Seq<Seq<char>>, x: Seq<char>, sep: Seq<char>)
    ensures
        join_words(ws.push(x), sep) == if ws.len() == 0 {
            x
        } else {
            join_words(ws, sep) + sep + x
        },
{
    assert(ws.push(x).drop_last() =~= ws);
}

/// Turns a raw window class into a display name:
/// "org.mozilla.firefox" -> "Firefox", "kitty" -> "Kitty".
pub fn pretty_name(config: &Config, class: &str) -> (r: String)
    ensures
        r@ == display_name(config.name_map@, class@),
{
    match config.name_map.get(class) {
        Some(name) => {
            return name.clone();
        },
        None => {},
    }
    let cv = chars_of(class);
    let mut dots = split_chars(&cv, Separator::Dot);
    let seg = dots.pop().unwrap();
    assert(seg@ == last_dot_segment(class@));
    let words = split_chars(&seg, Separator::WordBreak);
    let ghost ps = views(words@);
    let mut out: Vec<char> = Vec::new();
    let mut any = false;
    let mut i: usize = 0;
    assert(ps.take(0) =~= Seq::<Seq<char>>::empty());
    while i < words.len()
        invariant
            i <= words@.len(),
            ps == views(words@),
            out@ == join_words(capitalized_words(ps.take(i as int)), seq![' ']),
            any == (capitalized_words(ps.take(i as int)).len() > 0),
        decreases words@.len() - i,
    {
        let w = &words[i];
        let ghost done = capitalized_words(ps.take(i as int));
        assert(ps.take(i + 1).drop_last() =~= ps.take(i as int));
        assert(ps.take(i + 1).last() == w@);
        if w.len() > 0 {
            let ghost before = out@;
            if any {
                out.push(' ');
            }
            let up = char_to_uppercase(w[0]);
            let mut upc = chars_of(up.as_str());
            out.append(&mut upc);
            let mut k: usize = 1;
            while k < w.len()
                invariant
                    1 <= k <= w@.len(),
                    out@ == (if any { before + seq![' '] } else { before }) + unicode_uppercase(w@[0]) + w@.subrange(1, k as int),
                decreases w@.len() - k,
            {
                out.push(w[k]);
                k = k + 1;
                assert(out@ =~= (if any { before + seq![' '] } else { before }) + unicode_uppercase(w@[0]) + w@.subrange(1, k as int));
            }
            proof {
                assert(w@.subrange(1, w@.len() as int) =~= w@.drop_first());
                lemma_join_push(done, capitalize(w@), seq![' ']);
                if any {
                    assert(out@ =~= join_words(done, seq![' ']) + seq![' '] + capitalize(w@));
                } else {
                    assert(done.len() == 0);
                    assert(before =~= Seq::<char>::empty());
                    assert(out@ =~= capitalize(w@));
                }
            }
            any = true;
        }
        i = i + 1;
    }
    assert(ps.take(words@.len() as int) =~= ps);
    string_from_chars(out.as_slice())
}

/// The large image of a class: its entry in `image_map`, else `default_large_image`.
pub open spec fn large_image_for(config: Config, class: Seq<char>) -> Option<Seq<char>> {
    if config.image_map@.contains_key(class) {
        Some(config.image_map@[class]@)
    } else {
        opt_view(config.default_large_image)
    }
}

/// What a class resolves to under `config`: its display name and large image.
pub open spec fn fresh_info(config: Config, class: Seq<char>) -> (Seq<char>, Option<Seq<char>>) {
    (display_name(config.name_map@, class), large_image_for(config, class))
}

/// Derived, class-specific data that never changes between windows of the same
/// application.
#[derive(Clone, Debug)]
pub struct ClassInfo {
    pub name: String,
    pub large_image: Option<String>,
}

impl View for ClassInfo {
    type V = (Seq<char>, Option<Seq<char>>);

    open spec fn view(&self) -> (Seq<char>, Option<Seq<char>>) {
        (self.name@, opt_view(self.large_image))
    }
}

impl ClassInfo {
    fn duplicate(&self) -> (r: ClassInfo)
        ensures
            r@ == self@,
    {
        let large_image = match &self.large_image {
            Some(s) => Some(s.clone()),
            None => None,
        };
        ClassInfo { name: self.name.clone(), large_image }
    }
}

/// The class information derived so far, by window class, so that
/// `pretty_name` and the map lookups are not re-run on every active-window event.
pub struct ClassCache {
    entries: StringHashMap<ClassInfo>,
}

impl View for ClassCache {
    type V = Map<Seq<char>, (Seq<char>, Option<Seq<char>>)>;

    closed spec fn view(&self) -> Map<Seq<char>, (Seq<char>, Option<Seq<char>>)> {
        self.entries@.map_values(|i: ClassInfo| i@)
    }
}

impl ClassCache {
    /// Every cached entry is what its class resolves to under `config`.
    pub open spec fn consistent_with(&self, config: Config) -> bool {
        forall|k: Seq<char>| #[trigger] self@.contains_key(k) ==> self@[k] == fresh_info(config, k)
    }
}

/// What `class` resolves to with cache `cache`: the cached entry where there is
/// one, else what it resolves to under `config`.
pub open spec fn resolved(
    cache: Map<Seq<char>, (Seq<char>, Option<Seq<char>>)>,
    config: Config,
    class: Seq<char>,
) -> (Seq<char>, Option<Seq<char>>) {
    if cache.contains_key(class) {
        cache[class]
    } else {
        fresh_info(config, class)
    }
}

/// An empty class cache.
pub fn class_cache() -> (r: ClassCache)
    ensures
        r@ == Map::<Seq<char>, (Seq<char>, Option<Seq<char>>)>::empty(),
{
    let r = ClassCache { entries: StringHashMap::new() };
    assert(r@ =~= Map::<Seq<char>, (Seq<char>, Option<Seq<char>>)>::empty());
    r
}

/// Resolves (and caches) the per-class derived info.
pub fn resolve_class(config: &Config, class: &str, cache: &mut ClassCache) -> (r: ClassInfo)
    ensures
        r@ == resolved(old(cache)@, *config, class@),
        final(cache)@ == old(cache)@.insert(class@, r@),
        old(cache).consistent_with(*config) ==> final(cache).consistent_with(*config) && r@
            == fresh_info(*config, class@),
{
    match cache.entries.get(class) {
        Some(info) => {
            let r = info.duplicate();
            assert(cache@.insert(class@, r@) =~= cache@);
            return r;
        },
        None => {},
    }
    let large_image = match config.image_map.get(class) {
        Some(img) => Some(img.clone()),
        None => match &config.default_large_image {
            Some(d) => Some(d.clone()),
            None => None,
        },
    };
    let info = ClassInfo { name: pretty_name(config, class), large_image };
    let key = class.to_owned();
    let ghost before = cache@;
    cache.entries.insert(key, info.duplicate());
    assert(cache@ =~= before.insert(class@, info@));
    info
}

/// Builds the rich-presence payload dynamically from the active window: the
/// state names the application, the details show the cleaned title.
pub fn build_presence(config: &Config, class: &str, title: &str, cache: &mut ClassCache) -> (r:
    RpcRule)
    ensures
        ({
            let info = resolved(old(cache)@, *config, class@);
            &&& opt_view(r.state) == Some("Using "@ + info.0)
            &&& opt_view(r.details) == if config.details_from_title {
                Some(truncated(cleaned_title(title@, info.0)))
            } else {
                None
            }
            &&& opt_view(r.large_image) == info.1
            &&& opt_view(r.large_text) == Some(info.0)
            &&& opt_view(r.small_image) == Some("hyprland"@)
            &&& opt_view(r.small_text) == Some("Hyprland"@)
            &&& final(cache)@ == old(cache)@.insert(class@, info)
        }),
        old(cache).consistent_with(*config) ==> final(cache).consistent_with(*config) && resolved(
            old(cache)@,
            *config,
            class@,
        ) == fresh_info(*config, class@),
{
    let info = resolve_class(config, class, cache);
    let details = if config.details_from_title {
        let cleaned = clean_title(title, info.name.as_str());
        Some(truncate(cleaned.as_str()))
    } else {
        None
    };
    let mut state = "Using ".to_owned();
    state.append(info.name.as_str());
    let large_text = info.name.clone();
    RpcRule {
        state: Some(state),
        details,
        large_image: info.large_image,
        large_text: Some(large_text),
        small_image: Some("hyprland".to_owned()),
        small_text: Some("Hyprland".to_owned()),
    }
}

/// An empty cache agrees with every configuration; with `resolve_class` keeping
/// agreement, a cache made by `class_cache` and filled under one configuration
/// only ever answers what resolving afresh answers.
pub proof fn lemma_empty_cache_consistent(cache: ClassCache, config: Config)
    requires
        cache@ == Map::<Seq<char>, (Seq<char>, Option<Seq<char>>)>::empty(),
    ensures
        cache.consistent_with(config),
{
}

/// A title whose trimmed text fits in a field is shown trimmed and whole; a
/// longer one is cut to exactly the limit, ending in `'…'`.
pub proof fn lemma_truncated_shape(s: Seq<char>)
    ensures
        trim(s).len() <= MAX_FIELD_LEN ==> truncated(s) == trim(s),
        trim(s).len() > MAX_FIELD_LEN ==> truncated(s).len() == MAX_FIELD_LEN && truncated(s).last()
            == '…' && truncated(s).drop_last() == trim(s).take(MAX_FIELD_LEN - 1),
{
    if trim(s).len() > MAX_FIELD_LEN {
        let t = trim(s).take(MAX_FIELD_LEN - 1);
        assert(t.push('…').drop_last() =~= t);
    }
}

proof fn lemma_trim_start_shape(s: Seq<char>)
    ensures
        trim_start(s).len() <= s.len(),
        trim_start(s) == s.skip(s.len() - trim_start(s).len()),
        trim_start(s).len() > 0 ==> !unicode_whitespace(trim_start(s)[0]),
    decreases s.len(),
{
    if s.len() > 0 && unicode_whitespace(s[0]) {
        lemma_trim_start_shape(s.drop_first());
        let t = trim_start(s.drop_first());
        assert(s.drop_first().skip(s.drop_first().len() - t.len()) =~= s.skip(s.len() - t.len()));
    } else {
        assert(s.skip(0) =~= s);
    }
}

proof fn lemma_trim_end_shape(s: Seq<char>)
    ensures
        trim_end(s).len() <= s.len(),
        trim_end(s) == s.take(trim_end(s).len() as int),
        trim_end(s).len() > 0 ==> !unicode_whitespace(trim_end(s).last()),
    decreases s.len(),
{
    if s.len() > 0 && unicode_whitespace(s.last()) {
        lemma_trim_end_shape(s.drop_last());
        let t = trim_end(s.drop_last());
        assert(s.drop_last().take(t.len() as int) =~= s.take(t.len() as int));
    } else {
        assert(s.take(s.len() as int) =~= s);
    }
}

/// The trimmed text starts and ends with a character that is not whitespace.
pub proof fn lemma_trim_shape(s: Seq<char>)
    ensures
        trim(s).len() > 0 ==> !unicode_whitespace(trim(s)[0]) && !unicode_whitespace(
            trim(s).last(),
        ),
{
    lemma_trim_start_shape(s);
    lemma_trim_end_shape(trim_start(s));
    let a = trim_start(s);
    if trim(s).len() > 0 {
        assert(trim(s)[0] == a.take(trim(s).len() as int)[0]);
    }
}

/// Text that is empty, or starts and ends with a character that is not
/// whitespace, is its own trim.
pub proof fn lemma_trim_fixed(s: Seq<char>)
    requires
        s.len() > 0 ==> !unicode_whitespace(s[0]) && !unicode_whitespace(s.last()),
    ensures
        trim(s) == s,
{
}

/// Cutting a title for Discord a second time changes nothing.
pub proof fn lemma_truncated_idempotent(s: Seq<char>)
    ensures
        truncated(truncated(s)) == truncated(s),
{
    lemma_trim_shape(s);
    let t = trim(s);
    if t.len() <= MAX_FIELD_LEN {
        lemma_trim_fixed(t);
    } else {
        let r = t.take(MAX_FIELD_LEN - 1).push('…');
        assert(r[0] == t[0]);
        assert(r.last() == '…');
        assert(!unicode_whitespace('…'));
        lemma_trim_fixed(r);
    }
}

proof fn lemma_last_segment_no_dot(s: Seq<char>)
    requires
        forall|i: int| 0 <= i < s.len() ==> s[i] != '.',
    ensures
        last_dot_segment(s) == s,
{
    lemma_split_no_separator(s, Separator::Dot);
}

proof fn lemma_last_segment_after_dot(p: Seq<char>, s: Seq<char>)
    requires
        forall|i: int| 0 <= i < s.len() ==> s[i] != '.',
    ensures
        last_dot_segment(p + seq!['.'] + s) == s,
{
    let a = p + seq!['.'];
    lemma_split_concat(a, s, Separator::Dot);
    lemma_split_no_separator(s, Separator::Dot);
    assert(a.drop_last() =~= p);
    assert(a.last() == '.');
    lemma_split_pieces_len(p, Separator::Dot);
    assert(split_pieces(a, Separator::Dot) == split_pieces(p, Separator::Dot).push(Seq::empty()));
    assert(Seq::<char>::empty() + s =~= s);
}

proof fn lemma_words_nonempty(s: Seq<char>, i: int)
    requires
        0 <= i < s.len(),
        !is_separator(Separator::WordBreak, s[i]),
    ensures
        capitalized_words(split_pieces(s, Separator::WordBreak)).len() > 0,
    decreases s.len(),
{
    let k = Separator::WordBreak;
    let d = s.drop_last();
    lemma_split_pieces_len(d, k);
    let prev = split_pieces(d, k);
    let ps = split_pieces(s, k);
    if !is_separator(k, s.last()) {
        assert(ps == prev.update(prev.len() - 1, prev.last().push(s.last())));
        assert(ps.last().len() > 0);
    } else {
        lemma_words_nonempty(d, i);
        assert(ps == prev.push(Seq::empty()));
        assert(ps.drop_last() =~= prev);
    }
}

/// A window class and the part after its last `'.'` have the same display name
/// when neither has a `name_map` entry: "org.gnome.TextEditor" is named as "TextEditor".
pub proof fn lemma_display_name_after_last_dot(m: Map<Seq<char>, String>, p: Seq<char>, s: Seq<char>)
    requires
        forall|i: int| 0 <= i < s.len() ==> s[i] != '.',
        !m.contains_key(p + seq!['.'] + s),
        !m.contains_key(s),
    ensures
        display_name(m, p + seq!['.'] + s) == display_name(m, s),
{
    lemma_last_segment_after_dot(p, s);
    lemma_last_segment_no_dot(s);
}

/// A class that is a single word without a `name_map` entry is named by that
/// word with its first character replaced by its uppercase mapping and every
/// other character kept: "kitty" is "Kitty", "CosmicTerm" stays "CosmicTerm".
pub proof fn lemma_display_name_one_word(m: Map<Seq<char>, String>, w: Seq<char>)
    requires
        w.len() > 0,
        forall|i: int|
            0 <= i < w.len() ==> w[i] != '.' && w[i] != '-' && w[i] != '_' && !unicode_whitespace(
                #[trigger] w[i],
            ),
        !m.contains_key(w),
    ensures
        display_name(m, w) == unicode_uppercase(w[0]) + w.drop_first(),
{
    lemma_last_segment_no_dot(w);
    lemma_split_no_separator(w, Separator::WordBreak);
    let ps = seq![w];
    assert(ps.drop_last() =~= Seq::<Seq<char>>::empty());
    assert(ps.last() == w);
    assert(capitalized_words(Seq::<Seq<char>>::empty()) == Seq::<Seq<char>>::empty());
    assert(capitalized_words(ps) =~= seq![capitalize(w)]);
    assert(join_words(seq![capitalize(w)], seq![' ']) == capitalize(w));
}

/// A word after a separator (whitespace, `'-'` or `'_'`) is added to the display
/// name after one space, first character uppercased and the rest kept, where the
/// class already holds a word: "my-app" is "My" then "App".
pub proof fn lemma_display_name_next_word(
    m: Map<Seq<char>, String>,
    s: Seq<char>,
    c: char,
    w: Seq<char>,
    j: int,
)
    requires
        forall|i: int| 0 <= i < s.len() ==> s[i] != '.',
        0 <= j < s.len(),
        s[j] != '-' && s[j] != '_' && !unicode_whitespace(s[j]),
        c == '-' || c == '_' || unicode_whitespace(c),
        w.len() > 0,
        forall|i: int|
            0 <= i < w.len() ==> w[i] != '.' && w[i] != '-' && w[i] != '_' && !unicode_whitespace(
                #[trigger] w[i],
            ),
        !m.contains_key(s),
        !m.contains_key(s + seq![c] + w),
    ensures
        display_name(m, s + seq![c] + w) == display_name(m, s) + seq![' '] + unicode_uppercase(w[0])
            + w.drop_first(),
{
    let k = Separator::WordBreak;
    let whole = s + seq![c] + w;
    assert forall|i: int| 0 <= i < whole.len() implies whole[i] != '.' by {
        if i < s.len() {
            assert(whole[i] == s[i]);
        } else if i > s.len() {
            assert(whole[i] == w[i - s.len() - 1]);
        }
    }
    lemma_last_segment_no_dot(whole);
    lemma_last_segment_no_dot(s);
    let a = s + seq![c];
    lemma_split_concat(a, w, k);
    lemma_split_no_separator(w, k);
    lemma_split_pieces_len(s, k);
    assert(a.drop_last() =~= s);
    let ps = split_pieces(s, k);
    assert(split_pieces(a, k) == ps.push(Seq::empty()));
    assert(Seq::<char>::empty() + w =~= w);
    assert(split_pieces(whole, k) =~= ps.push(w));
    assert(ps.push(w).drop_last() =~= ps);
    lemma_words_nonempty(s, j);
    lemma_join_push(capitalized_words(ps), capitalize(w), seq![' ']);
}

/// Separators at the end of a class add nothing to its display name.
pub proof fn lemma_display_name_trailing_separator(m: Map<Seq<char>, String>, s: Seq<char>, c: char)
    requires
        forall|i: int| 0 <= i < s.len() ==> s[i] != '.',
        c == '-' || c == '_' || unicode_whitespace(c),
        !m.contains_key(s),
        !m.contains_key(s.push(c)),
    ensures
        display_name(m, s.push(c)) == display_name(m, s),
{
    let k = Separator::WordBreak;
    assert forall|i: int| 0 <= i < s.push(c).len() implies s.push(c)[i] != '.' by {
        if i < s.len() {
            assert(s.push(c)[i] == s[i]);
        }
    }
    lemma_last_segment_no_dot(s.push(c));
    lemma_last_segment_no_dot(s);
    assert(s.push(c).drop_last() =~= s);
    let ps = split_pieces(s, k);
    assert(split_pieces(s.push(c), k) == ps.push(Seq::empty()));
    assert(ps.push(Seq::empty()).drop_last() =~= ps);
}

/// The large image of a class depends only on `image_map` and
/// `default_large_image`: a class listed in `image_map` gets its entry, any
/// other class gets `default_large_image`, whatever `name_map` says.
pub proof fn lemma_large_image_from_image_map(c1: Config, c2: Config, class: Seq<char>)
    requires
        c1.image_map@ == c2.image_map@,
        opt_view(c1.default_large_image) == opt_view(c2.default_large_image),
    ensures
        fresh_info(c1, class).1 == fresh_info(c2, class).1,
        c1.image_map@.contains_key(class) ==> fresh_info(c1, class).1 == Some(c1.image_map@[class]@),
        !c1.image_map@.contains_key(class) ==> fresh_info(c1, class).1 == opt_view(c1.default_large_image),
{
}

/// A class listed in `name_map` is shown by its entry there.
pub proof fn lemma_name_map_wins(m: Map<Seq<char>, String>, class: Seq<char>)
    requires
        m.contains_key(class),
    ensures
        display_name(m, class) == m[class]@,
{
}

/// A class in the cache is answered from the cache; any other class as under
/// the configuration.
pub proof fn lemma_cache_answers_first(
    cache: Map<Seq<char>, (Seq<char>, Option<Seq<char>>)>,
    config: Config,
    class: Seq<char>,
)
    ensures
        cache.contains_key(class) ==> resolved(cache, config, class) == cache[class],
        !cache.contains_key(class) ==> resolved(cache, config, class) == (
            display_name(config.name_map@, class),
            large_image_for(config, class),
        ),
{
}

} // verus!
