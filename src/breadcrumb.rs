//! Breadcrumb trails: the chain of a page's ancestor directories, with titles
//! and links, rendered as an HTML list.
use vstd::prelude::*;
use crate::config::{lookup, segment_title, title_of, ConfigMap};
use crate::text::{chars_of, push_all, split_char, split_char_exec, string_of};

verus! {

/// One step of a breadcrumb trail: a label and, unless it is the current
/// directory or the root message, a link.
pub struct Crumb {
    pub label: String,
    pub link: Option<String>,
}

/// A crumb as a label and an optional link.
pub open spec fn crumb_view(c: Crumb) -> (Seq<char>, Option<Seq<char>>) {
    (
        c.label@,
        match c.link {
            Some(l) => Some(l@),
            None => None,
        },
    )
}

/// The directories above a page: every `/`-separated segment of its path but
/// the last.
pub open spec fn dirs_of(path: Seq<char>) -> Seq<Seq<char>> {
    split_char(path, '/').drop_last()
}

/// Directory segments joined with `/`.
pub open spec fn join_dirs(ds: Seq<Seq<char>>) -> Seq<char>
    decreases ds.len(),
{
    if ds.len() == 0 {
        Seq::empty()
    } else if ds.len() == 1 {
        ds[0]
    } else {
        join_dirs(ds.drop_last()) + seq!['/'] + ds.last()
    }
}

/// The page's parent directory as a path.
pub open spec fn parent_of(path: Seq<char>) -> Seq<char> {
    join_dirs(dirs_of(path))
}

/// The crumb of directory `j`: linked to its path, but for the last one.
pub open spec fn dir_crumb(ds: Seq<Seq<char>>, j: int) -> (Seq<char>, Option<Seq<char>>) {
    if j == ds.len() - 1 {
        (title_of(ds[j]), None)
    } else {
        (title_of(ds[j]), Some(seq!['/'] + join_dirs(ds.take(j + 1))))
    }
}

/// The message shown on a root-level page.
pub open spec fn root_message(defaults: Seq<(Seq<char>, Seq<char>)>) -> Seq<char> {
    match lookup(defaults, "breadcrumbs_root_message"@) {
        Some(m) => m,
        None => Seq::empty(),
    }
}

/// The trail of a page: the root message alone for a root-level page, else
/// a linked Home crumb followed by its directories, outermost first.
pub open spec fn trail(path: Seq<char>, root_msg: Seq<char>) -> Seq<(Seq<char>, Option<Seq<char>>)> {
    let ds = dirs_of(path);
    if ds.len() == 0 {
        seq![(root_msg, None)]
    } else {
        seq![("Home"@, Some("/"@))] + Seq::new(ds.len(), |j: int| dir_crumb(ds, j))
    }
}

/// One crumb as a list item.
pub open spec fn crumb_html(c: (Seq<char>, Option<Seq<char>>)) -> Seq<char> {
    match c.1 {
        Some(l) => "<li><a href=\""@ + l + "\">"@ + c.0 + "</a></li>"@,
        None => "<li>"@ + c.0 + "</li>"@,
    }
}

/// The first `n` crumbs as list items.
pub open spec fn items_html(cs: Seq<(Seq<char>, Option<Seq<char>>)>, n: int) -> Seq<char>
    decreases n,
{
    if n <= 0 {
        Seq::empty()
    } else {
        items_html(cs, n - 1) + crumb_html(cs[n - 1])
    }
}

/// A trail as an HTML list.
pub open spec fn trail_html(cs: Seq<(Seq<char>, Option<Seq<char>>)>) -> Seq<char> {
    "<ul class=\"breadcrumbs\">"@ + items_html(cs, cs.len() as int) + "</ul>"@
}

/// Text without the separator splits into one piece.
proof fn lemma_split_without_sep(s: Seq<char>, c: char)
    requires
        forall|i: int| 0 <= i < s.len() ==> s[i] != c,
    ensures
        split_char(s, c).len() == 1,
    decreases s.len(),
{
    if s.len() > 0 {
        lemma_split_without_sep(s.drop_last(), c);
    }
}

/// A page whose path has no `/` is at the root: its trail is the root
/// message alone, with no link and no Home crumb.
pub proof fn lemma_root_page_trail(path: Seq<char>, root_msg: Seq<char>)
    requires
        forall|i: int| 0 <= i < path.len() ==> path[i] != '/',
    ensures
        trail(path, root_msg) == seq![(root_msg, Option::<Seq<char>>::None)],
{
    lemma_split_without_sep(path, '/');
}

/// The breadcrumb trail of the page at `page_path`.
pub fn breadcrumb_trail(page_path: &str, default_configs: &ConfigMap) -> (r: Vec<Crumb>)
    ensures
        r.len() == trail(page_path@, root_message(default_configs@)).len(),
        forall|k: int|
            0 <= k < r.len() ==> crumb_view(#[trigger] r[k]) == trail(
                page_path@,
                root_message(default_configs@),
            )[k],
{
    let p = chars_of(page_path);
    let segs = split_char_exec(&p, '/');
    let ghost ds = dirs_of(page_path@);
    let ghost t = trail(page_path@, root_message(default_configs@));
    proof {
        crate::text::lemma_split_char_nonempty(p@, '/');
    }
    let n = segs.len() - 1;
    let mut r: Vec<Crumb> = Vec::new();
    if n == 0 {
        let msg = match default_configs.get("breadcrumbs_root_message") {
            Some(m) => m,
            None => String::new(),
        };
        r.push(Crumb { label: msg, link: None });
        return r;
    }
    r.push(Crumb { label: "Home".to_string(), link: Some("/".to_string()) });
    let mut joined: Vec<char> = Vec::new();
    let mut j: usize = 0;
    while j < n
        invariant
            n == ds.len(),
            n >= 1,
            j <= n,
            segs.len() == n + 1,
            forall|k: int| 0 <= k < n ==> #[trigger] segs[k]@ == ds[k],
            t == seq![("Home"@, Some("/"@))] + Seq::new(ds.len(), |i: int| dir_crumb(ds, i)),
            r.len() == j + 1,
            forall|k: int| 0 <= k < r.len() ==> crumb_view(#[trigger] r[k]) == t[k],
            joined@ == join_dirs(ds.take(j as int)),
        decreases n - j,
    {
        if j > 0 {
            joined.push('/');
        }
        push_all(&mut joined, &segs[j]);
        assert(ds.take(j + 1).drop_last() =~= ds.take(j as int));
        assert(joined@ =~= join_dirs(ds.take(j + 1)));
        let label = string_of(&segment_title(&segs[j]));
        let link = if j == n - 1 {
            None
        } else {
            let mut l: Vec<char> = Vec::new();
            l.push('/');
            push_all(&mut l, &joined);
            Some(string_of(&l))
        };
        r.push(Crumb { label, link });
        j = j + 1;
    }
    r
}

/// Renders a breadcrumb trail as an HTML list.
pub fn render_trail(cs: &Vec<Crumb>) -> (r: String)
    ensures
        r@ == trail_html(cs@.map_values(|c: Crumb| crumb_view(c))),
{
    let ghost v = cs@.map_values(|c: Crumb| crumb_view(c));
    let mut out = chars_of("<ul class=\"breadcrumbs\">");
    let ghost head = out@;
    let mut i: usize = 0;
    while i < cs.len()
        invariant
            i <= cs.len(),
            v == cs@.map_values(|c: Crumb| crumb_view(c)),
            head == "<ul class=\"breadcrumbs\">"@,
            out@ == head + items_html(v, i as int),
        decreases cs.len() - i,
    {
        let c = &cs[i];
        let ghost before = out@;
        match &c.link {
            Some(l) => {
                push_all(&mut out, &chars_of("<li><a href=\""));
                push_all(&mut out, &chars_of(l.as_str()));
                push_all(&mut out, &chars_of("\">"));
                push_all(&mut out, &chars_of(c.label.as_str()));
                push_all(&mut out, &chars_of("</a></li>"));
            },
            None => {
                push_all(&mut out, &chars_of("<li>"));
                push_all(&mut out, &chars_of(c.label.as_str()));
                push_all(&mut out, &chars_of("</li>"));
            },
        }
        assert(out@ =~= before + crumb_html(v[i as int]));
        assert(out@ =~= head + items_html(v, i + 1));
        i = i + 1;
    }
    push_all(&mut out, &chars_of("</ul>"));
    string_of(&out)
}

/// The breadcrumb list of the page at `page_path`, as HTML.
pub fn breadcrumbs(page_path: &str, default_configs: &ConfigMap) -> (r: String)
    ensures
        r@ == trail_html(trail(page_path@, root_message(default_configs@))),
{
    let cs = breadcrumb_trail(page_path, default_configs);
    let r = render_trail(&cs);
    assert(cs@.map_values(|c: Crumb| crumb_view(c)) =~= trail(
        page_path@,
        root_message(default_configs@),
    ));
    r
}

} // verus!
