//! Configuration maps: inherited defaults, computed titles and front-matter lines.
use vstd::prelude::*;
use crate::text::{
    chars_of, contains, lemma_split_char_nonempty, lemma_split_once_absent, matches_at_exec, push_all, slice, split_char,
    split_char_exec, split_once, split_once_exec, string_of,
};

verus! {

/// What `titlecase::titlecase` makes of a text.
pub uninterp spec fn title_case_of(s: Seq<char>) -> Seq<char>;

/// Relies on `titlecase::titlecase`: capitalises the words of a text; the
/// result depends on the text alone.
#[verifier::external_body]
fn title_case(s: &str) -> (r: String)
    ensures
        r@ == title_case_of(s@),
{
    titlecase::titlecase(s)
}

/// `s` with underscores and hyphens turned into spaces.
pub open spec fn spaced(s: Seq<char>) -> Seq<char> {
    s.map_values(|c: char| if c == '_' || c == '-' { ' ' } else { c })
}

/// The human-readable title of one path segment.
pub open spec fn title_of(seg: Seq<char>) -> Seq<char> {
    title_case_of(spaced(seg))
}

/// The final segment of a `/`-separated path.
pub open spec fn last_segment(p: Seq<char>) -> Seq<char> {
    split_char(p, '/').last()
}

/// The title of a path segment given as characters.
pub fn segment_title(seg: &Vec<char>) -> (r: Vec<char>)
    ensures
        r@ == title_of(seg@),
{
    let mut s: Vec<char> = Vec::new();
    let mut i: usize = 0;
    while i < seg.len()
        invariant
            i <= seg.len(),
            s@ == spaced(seg@.subrange(0, i as int)),
        decreases seg.len() - i,
    {
        let c = seg[i];
        let d = if c == '_' || c == '-' {
            ' '
        } else {
            c
        };
        s.push(d);
        assert(spaced(seg@.subrange(0, i + 1)) =~= spaced(seg@.subrange(0, i as int)).push(d));
        i = i + 1;
    }
    assert(seg@.subrange(0, seg.len() as int) =~= seg@);
    let t = title_case(string_of(&s).as_str());
    chars_of(t.as_str())
}

/// The title of the last segment of `path`: underscores and hyphens become
/// spaces, then words are title-cased.
pub fn title(path: &str) -> (r: String)
    ensures
        r@ == title_of(last_segment(path@)),
{
    let p = chars_of(path);
    let segs = split_char_exec(&p, '/');
    proof {
        lemma_split_char_nonempty(p@, '/');
    }
    let t = segment_title(&segs[segs.len() - 1]);
    string_of(&t)
}

/// The position of the entry with key `k`, searching from the end; -1 if none.
pub open spec fn index_of(es: Seq<(Seq<char>, Seq<char>)>, k: Seq<char>) -> int
    decreases es.len(),
{
    if es.len() == 0 {
        -1
    } else if es.last().0 == k {
        es.len() - 1
    } else {
        index_of(es.drop_last(), k)
    }
}

/// The value stored under `k`.
pub open spec fn lookup(es: Seq<(Seq<char>, Seq<char>)>, k: Seq<char>) -> Option<Seq<char>> {
    let i = index_of(es, k);
    if i >= 0 {
        Some(es[i].1)
    } else {
        None
    }
}

/// The entries after storing `v` under `k`: an existing entry is overwritten
/// in place, a new key goes at the end.
pub open spec fn insert_entry(es: Seq<(Seq<char>, Seq<char>)>, k: Seq<char>, v: Seq<char>) -> Seq<
    (Seq<char>, Seq<char>),
> {
    let i = index_of(es, k);
    if i >= 0 {
        es.update(i, (k, v))
    } else {
        es.push((k, v))
    }
}

/// No key occurs twice.
pub open spec fn keys_unique(es: Seq<(Seq<char>, Seq<char>)>) -> bool {
    forall|i: int, j: int| 0 <= i < j < es.len() ==> es[i].0 != es[j].0
}

/// A found position holds the key; none found means no entry has it.
pub proof fn lemma_index_of(es: Seq<(Seq<char>, Seq<char>)>, k: Seq<char>)
    ensures
        -1 <= index_of(es, k) < es.len(),
        index_of(es, k) >= 0 ==> es[index_of(es, k)].0 == k,
        index_of(es, k) == -1 ==> forall|i: int| 0 <= i < es.len() ==> es[i].0 != k,
    decreases es.len(),
{
    if es.len() > 0 {
        lemma_index_of(es.drop_last(), k);
        if es.last().0 != k {
            assert forall|i: int| 0 <= i < es.len() - 1 implies es[i] == es.drop_last()[i] by {}
        }
    }
}

/// The position of a key depends on the keys alone.
pub proof fn lemma_index_of_same_keys(
    a: Seq<(Seq<char>, Seq<char>)>,
    b: Seq<(Seq<char>, Seq<char>)>,
    k: Seq<char>,
)
    requires
        a.len() == b.len(),
        forall|i: int| 0 <= i < a.len() ==> a[i].0 == b[i].0,
    ensures
        index_of(a, k) == index_of(b, k),
    decreases a.len(),
{
    if a.len() > 0 {
        lemma_index_of_same_keys(a.drop_last(), b.drop_last(), k);
    }
}

/// After storing `v` under `k`, looking up `k` gives `v`, and every other
/// key keeps its value.
pub proof fn lemma_lookup_insert(
    es: Seq<(Seq<char>, Seq<char>)>,
    k: Seq<char>,
    v: Seq<char>,
    q: Seq<char>,
)
    ensures
        lookup(insert_entry(es, k, v), q) == if q == k {
            Some(v)
        } else {
            lookup(es, q)
        },
{
    let i = index_of(es, k);
    let es2 = insert_entry(es, k, v);
    lemma_index_of(es, k);
    lemma_index_of(es, q);
    if i >= 0 {
        lemma_index_of_same_keys(es, es2, q);
        if q != k {
            assert(index_of(es, q) != i);
        }
    } else {
        assert(es2.drop_last() =~= es);
    }
}

/// Storing a value keeps keys unique.
pub proof fn lemma_insert_keeps_unique(es: Seq<(Seq<char>, Seq<char>)>, k: Seq<char>, v: Seq<char>)
    requires
        keys_unique(es),
    ensures
        keys_unique(insert_entry(es, k, v)),
{
    lemma_index_of(es, k);
}

/// An ordered map from configuration keys to values; each key occurs once.
pub struct ConfigMap {
    entries: Vec<(Vec<char>, Vec<char>)>,
}

impl View for ConfigMap {
    type V = Seq<(Seq<char>, Seq<char>)>;

    closed spec fn view(&self) -> Seq<(Seq<char>, Seq<char>)> {
        self.entries@.map_values(|e: (Vec<char>, Vec<char>)| (e.0@, e.1@))
    }
}

/// Whether two character vectors hold the same text.
fn same_chars(a: &Vec<char>, b: &Vec<char>) -> (r: bool)
    ensures
        r == (a@ == b@),
{
    if a.len() != b.len() {
        return false;
    }
    let r = matches_at_exec(a, b, 0);
    assert(a@.subrange(0, a@.len() as int) =~= a@);
    r
}

/// A copy of a character vector.
fn copy_chars(a: &Vec<char>) -> (r: Vec<char>)
    ensures
        r@ == a@,
{
    let r = slice(a, 0, a.len());
    assert(a@.subrange(0, a@.len() as int) =~= a@);
    r
}

impl ConfigMap {
    /// Keys are unique.
    pub closed spec fn wf(&self) -> bool {
        keys_unique(self@)
    }

    /// An empty map.
    pub fn new() -> (r: ConfigMap)
        ensures
            r@ == Seq::<(Seq<char>, Seq<char>)>::empty(),
            r.wf(),
    {
        let r = ConfigMap { entries: Vec::new() };
        assert(r@ =~= Seq::<(Seq<char>, Seq<char>)>::empty());
        r
    }

    /// The number of entries.
    pub fn len(&self) -> (r: usize)
        ensures
            r == self@.len(),
    {
        self.entries.len()
    }

    /// The key and value of entry `i`, in insertion order.
    pub fn entry_chars(&self, i: usize) -> (r: (Vec<char>, Vec<char>))
        requires
            i < self@.len(),
        ensures
            (r.0@, r.1@) == self@[i as int],
    {
        (copy_chars(&self.entries[i].0), copy_chars(&self.entries[i].1))
    }

    /// A copy with the same entries.
    pub fn copy(&self) -> (r: ConfigMap)
        ensures
            r@ == self@,
            self.wf() ==> r.wf(),
    {
        let mut entries: Vec<(Vec<char>, Vec<char>)> = Vec::new();
        let mut i: usize = 0;
        while i < self.entries.len()
            invariant
                i <= self.entries.len(),
                entries@.len() == i,
                forall|j: int|
                    0 <= j < i ==> (#[trigger] entries@[j].0@, entries@[j].1@) == self@[j],
            decreases self.entries.len() - i,
        {
            let e = self.entry_chars(i);
            entries.push(e);
            i = i + 1;
        }
        let r = ConfigMap { entries };
        assert(r@ =~= self@);
        r
    }

    /// Where key `k` stands, searching from the end.
    fn position(&self, k: &Vec<char>) -> (r: Option<usize>)
        ensures
            match r {
                Some(i) => index_of(self@, k@) == i,
                None => index_of(self@, k@) == -1,
            },
    {
        let mut j: usize = self.entries.len();
        assert(self@.subrange(0, j as int) =~= self@);
        while j > 0
            invariant
                j <= self.entries.len(),
                index_of(self@, k@) == index_of(self@.subrange(0, j as int), k@),
            decreases j,
        {
            let ghost sub = self@.subrange(0, j as int);
            assert(sub.drop_last() =~= self@.subrange(0, j - 1));
            if same_chars(&self.entries[j - 1].0, k) {
                return Some(j - 1);
            }
            j = j - 1;
        }
        None
    }

    /// Stores `value` under `key`, overwriting an existing value.
    pub fn insert_chars(&mut self, key: Vec<char>, value: Vec<char>)
        requires
            old(self).wf(),
        ensures
            final(self)@ == insert_entry(old(self)@, key@, value@),
            final(self).wf(),
    {
        proof {
            lemma_insert_keeps_unique(self@, key@, value@);
        }
        let ghost k = key@;
        let ghost v = value@;
        let pos = self.position(&key);
        proof {
            lemma_index_of(self@, k);
        }
        match pos {
            Some(i) => {
                self.entries.set(i, (key, value));
                assert(self@ =~= insert_entry(old(self)@, k, v));
            },
            None => {
                self.entries.push((key, value));
                assert(self@ =~= insert_entry(old(self)@, k, v));
            },
        }
    }

    /// Stores `value` under `key`, overwriting an existing value.
    pub fn insert(&mut self, key: &str, value: &str)
        requires
            old(self).wf(),
        ensures
            final(self)@ == insert_entry(old(self)@, key@, value@),
            final(self).wf(),
    {
        self.insert_chars(chars_of(key), chars_of(value));
    }

    /// The value stored under `key`, if any.
    pub fn get(&self, key: &str) -> (r: Option<String>)
        ensures
            match r {
                Some(v) => lookup(self@, key@) == Some(v@),
                None => lookup(self@, key@) is None,
            },
    {
        let k = chars_of(key);
        let pos = self.position(&k);
        proof {
            lemma_index_of(self@, k@);
        }
        match pos {
            Some(i) => Some(string_of(&self.entries[i].1)),
            None => None,
        }
    }
}

/// The separator between a page's front matter and its body.
pub open spec fn front_matter_separator() -> Seq<char> {
    "\n---\n"@
}

/// The delimiter between a key and its value on a front-matter line.
pub open spec fn line_delimiter() -> Seq<char> {
    ": "@
}

/// The key of a front-matter line: the text before the first delimiter, or
/// the whole line.
pub open spec fn line_key(l: Seq<char>) -> Seq<char> {
    match split_once(l, line_delimiter()) {
        Some((k, _)) => k,
        None => l,
    }
}

/// The value of a front-matter line: the text after the first delimiter, or
/// nothing.
pub open spec fn line_value(l: Seq<char>) -> Seq<char> {
    match split_once(l, line_delimiter()) {
        Some((_, v)) => v,
        None => Seq::empty(),
    }
}

/// The entries after storing each line's key and value, in order.
pub open spec fn insert_lines(es: Seq<(Seq<char>, Seq<char>)>, ls: Seq<Seq<char>>) -> Seq<
    (Seq<char>, Seq<char>),
>
    decreases ls.len(),
{
    if ls.len() == 0 {
        es
    } else {
        insert_entry(insert_lines(es, ls.drop_last()), line_key(ls.last()), line_value(ls.last()))
    }
}

/// The map a page starts from: the defaults, then the title of its directory.
pub open spec fn seeded(
    defaults: Option<Seq<(Seq<char>, Seq<char>)>>,
    parent: Option<Seq<char>>,
) -> Seq<(Seq<char>, Seq<char>)> {
    let base = match defaults {
        Some(d) => d,
        None => Seq::empty(),
    };
    match parent {
        Some(p) => insert_entry(base, "title"@, title_of(last_segment(p))),
        None => base,
    }
}

/// The map parsed from a front-matter block over defaults and a directory title.
pub open spec fn parsed_configs(
    text: Seq<char>,
    defaults: Option<Seq<(Seq<char>, Seq<char>)>>,
    parent: Option<Seq<char>>,
) -> Seq<(Seq<char>, Seq<char>)> {
    insert_lines(seeded(defaults, parent), split_char(text, '\n'))
}

/// The page's map: defaults alone without front matter, else the parsed block.
pub open spec fn page_configs(
    raw: Seq<char>,
    defaults: Seq<(Seq<char>, Seq<char>)>,
    parent: Seq<char>,
) -> Seq<(Seq<char>, Seq<char>)> {
    match split_once(raw, front_matter_separator()) {
        Some((fm, _)) => parsed_configs(fm, Some(defaults), Some(parent)),
        None => defaults,
    }
}

/// The page's body: the text after the front matter, or all of it.
pub open spec fn page_body(raw: Seq<char>) -> Seq<char> {
    match split_once(raw, front_matter_separator()) {
        Some((_, body)) => body,
        None => raw,
    }
}

/// A key whose last line sets `v` keeps `v` whatever the starting entries.
proof fn lemma_lines_override(
    base: Seq<(Seq<char>, Seq<char>)>,
    ls: Seq<Seq<char>>,
    k: Seq<char>,
    v: Seq<char>,
)
    requires
        lookup(insert_lines(Seq::empty(), ls), k) == Some(v),
    ensures
        lookup(insert_lines(base, ls), k) == Some(v),
    decreases ls.len(),
{
    if ls.len() == 0 {
    } else {
        let lk = line_key(ls.last());
        let lv = line_value(ls.last());
        lemma_lookup_insert(insert_lines(Seq::empty(), ls.drop_last()), lk, lv, k);
        lemma_lookup_insert(insert_lines(base, ls.drop_last()), lk, lv, k);
        if k != lk {
            lemma_lines_override(base, ls.drop_last(), k, v);
        }
    }
}

/// A key set by a front-matter line keeps that line's value over whatever
/// the defaults or the directory title say.
pub proof fn lemma_front_matter_wins(
    text: Seq<char>,
    defaults: Option<Seq<(Seq<char>, Seq<char>)>>,
    parent: Option<Seq<char>>,
    k: Seq<char>,
    v: Seq<char>,
)
    requires
        lookup(parsed_configs(text, None, None), k) == Some(v),
    ensures
        lookup(parsed_configs(text, defaults, parent), k) == Some(v),
{
    lemma_lines_override(seeded(defaults, parent), split_char(text, '\n'), k, v);
}

/// Parses the `key: value` lines of `config_string` over a copy of
/// `default_configs`, after setting `title` from the last segment of
/// `page_parent` when one is given.
pub fn parse_configs(
    config_string: &str,
    default_configs: Option<&ConfigMap>,
    page_parent: Option<&str>,
) -> (r: ConfigMap)
    requires
        default_configs matches Some(d) ==> d.wf(),
    ensures
        r.wf(),
        r@ == parsed_configs(
            config_string@,
            match default_configs {
                Some(d) => Some(d@),
                None => None,
            },
            match page_parent {
                Some(p) => Some(p@),
                None => None,
            },
        ),
{
    let mut map = match default_configs {
        Some(d) => d.copy(),
        None => ConfigMap::new(),
    };
    match page_parent {
        Some(p) => {
            map.insert_chars(chars_of("title"), chars_of(title(p).as_str()));
        },
        None => {},
    }
    let text = chars_of(config_string);
    let delim = chars_of(": ");
    let lines = split_char_exec(&text, '\n');
    let ghost ls = split_char(text@, '\n');
    let ghost base = map@;
    let mut i: usize = 0;
    while i < lines.len()
        invariant
            i <= lines.len(),
            lines.len() == ls.len(),
            forall|k: int| 0 <= k < lines.len() ==> #[trigger] lines[k]@ == ls[k],
            delim@ == line_delimiter(),
            map.wf(),
            map@ == insert_lines(base, ls.subrange(0, i as int)),
        decreases lines.len() - i,
    {
        let line = &lines[i];
        let (key, value) = match split_once_exec(line, &delim) {
            Some((k, v)) => (k, v),
            None => (copy_chars(line), Vec::new()),
        };
        assert(ls.subrange(0, i + 1).drop_last() =~= ls.subrange(0, i as int));
        assert(ls.subrange(0, i + 1).last() == ls[i as int]);
        proof {
            if key@ != line_key(ls[i as int]) || value@ != line_value(ls[i as int]) {
                assert(value@ =~= Seq::<char>::empty());
            }
        }
        map.insert_chars(key, value);
        i = i + 1;
    }
    assert(ls.subrange(0, lines.len() as int) =~= ls);
    map
}

/// Splits the front matter off `string`, leaving the body in it, and returns
/// the page's configuration: a copy of `default_configs` when there is no
/// front matter, else the parsed block over the defaults and the title of
/// `page_parent`.
pub fn get_configs(string: &mut String, default_configs: &ConfigMap, page_parent: &str) -> (r:
    ConfigMap)
    requires
        default_configs.wf(),
    ensures
        r.wf(),
        r@ == page_configs(old(string)@, default_configs@, page_parent@),
        final(string)@ == page_body(old(string)@),
{
    let raw = chars_of(string.as_str());
    let sep = chars_of("\n---\n");
    match split_once_exec(&raw, &sep) {
        Some((front, body)) => {
            *string = string_of(&body);
            parse_configs(string_of(&front).as_str(), Some(default_configs), Some(page_parent))
        },
        None => default_configs.copy(),
    }
}

/// A page without the separator has no front matter: its body is the whole
/// text and its configuration is the defaults alone.
pub proof fn lemma_no_front_matter(
    raw: Seq<char>,
    defaults: Seq<(Seq<char>, Seq<char>)>,
    parent: Seq<char>,
)
    requires
        !contains(raw, front_matter_separator()),
    ensures
        page_body(raw) == raw,
        page_configs(raw, defaults, parent) == defaults,
{
    lemma_split_once_absent(raw, front_matter_separator());
}

} // verus!
