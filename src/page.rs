//! Page rendering: front matter, style tokens, Markdown, breadcrumbs and
//! template placeholders, put together.
use vstd::prelude::*;
use crate::breadcrumb::{breadcrumbs, parent_of, root_message, trail, trail_html};
use crate::config::{get_configs, page_body, page_configs, ConfigMap};
use crate::style::{rewrite, rewritten};
use crate::text::{chars_of, push_all, replace_all, replace_all_exec, replace_first, replace_first_exec, split_char_exec, string_of};

verus! {

/// What `markdown::to_html_with_options` makes of a text, with raw HTML and
/// dangerous protocols allowed: the HTML, or the text of its error message.
pub uninterp spec fn markdown_of(s: Seq<char>) -> Result<Seq<char>, Seq<char>>;

/// Relies on `markdown::to_html_with_options`, with raw HTML and dangerous
/// link protocols passed through: the HTML of a Markdown text, or the
/// displayed message of the error; either depends on the text alone.
#[verifier::external_body]
fn markdown_to_html(s: &str) -> (r: Result<String, String>)
    ensures
        match r {
            Ok(h) => markdown_of(s@) == Ok::<Seq<char>, Seq<char>>(h@),
            Err(e) => markdown_of(s@) == Err::<Seq<char>, Seq<char>>(e@),
        },
{
    let options = markdown::Options {
        compile: markdown::CompileOptions {
            allow_dangerous_html: true,
            allow_dangerous_protocol: true,
            ..markdown::CompileOptions::default()
        },
        ..markdown::Options::default()
    };
    match markdown::to_html_with_options(s, &options) {
        Ok(h) => Ok(h),
        Err(e) => Err(format!("{e}")),
    }
}

/// The template marker that the page content replaces.
pub open spec fn content_placeholder() -> Seq<char> {
    "{!sting_replace}"@
}

/// The template marker that the breadcrumb list replaces.
pub open spec fn breadcrumb_placeholder() -> Seq<char> {
    "{!sting_breadcrumbs}"@
}

/// The template marker that the value of configuration key `k` replaces.
pub open spec fn config_placeholder(k: Seq<char>) -> Seq<char> {
    "{!sting_config_"@ + k + "}"@
}

/// `t` with the placeholders of the first `n` entries replaced by their values.
pub open spec fn substitute_configs(t: Seq<char>, es: Seq<(Seq<char>, Seq<char>)>, n: int) -> Seq<char>
    decreases n,
{
    if n <= 0 {
        t
    } else {
        replace_all(substitute_configs(t, es, n - 1), config_placeholder(es[n - 1].0), es[n - 1].1)
    }
}

/// The finished page from the Markdown outcome: the error text alone on
/// failure, else the template with content, breadcrumbs and values filled in.
pub open spec fn assembled(
    md: Result<Seq<char>, Seq<char>>,
    template: Seq<char>,
    configs: Seq<(Seq<char>, Seq<char>)>,
    page_path: Seq<char>,
    crumbs: Seq<char>,
) -> Seq<char> {
    match md {
        Err(e) => e,
        Ok(h) => {
            let content = "<base href=\"/"@ + parent_of(page_path) + "/\">"@ + h;
            let t1 = replace_first(template, content_placeholder(), content);
            let t2 = replace_first(t1, breadcrumb_placeholder(), crumbs);
            substitute_configs(t2, configs, configs.len() as int)
        },
    }
}

/// The finished page for a raw page text.
pub open spec fn rendered(
    raw: Seq<char>,
    template: Seq<char>,
    defaults: Seq<(Seq<char>, Seq<char>)>,
    page_path: Seq<char>,
) -> Seq<char> {
    assembled(
        markdown_of(rewritten(page_body(raw))),
        template,
        page_configs(raw, defaults, parent_of(page_path)),
        page_path,
        trail_html(trail(page_path, root_message(defaults))),
    )
}

/// The parent directory of the page at `page_path`.
pub fn page_parent(page_path: &str) -> (r: String)
    ensures
        r@ == parent_of(page_path@),
{
    let p = chars_of(page_path);
    let segs = split_char_exec(&p, '/');
    proof {
        crate::text::lemma_split_char_nonempty(p@, '/');
    }
    let ghost ds = crate::breadcrumb::dirs_of(page_path@);
    let n = segs.len() - 1;
    let mut joined: Vec<char> = Vec::new();
    let mut j: usize = 0;
    while j < n
        invariant
            n == ds.len(),
            j <= n,
            segs.len() == n + 1,
            forall|k: int| 0 <= k < n ==> #[trigger] segs[k]@ == ds[k],
            joined@ == crate::breadcrumb::join_dirs(ds.take(j as int)),
        decreases n - j,
    {
        if j > 0 {
            joined.push('/');
        }
        push_all(&mut joined, &segs[j]);
        assert(ds.take(j + 1).drop_last() =~= ds.take(j as int));
        assert(joined@ =~= crate::breadcrumb::join_dirs(ds.take(j + 1)));
        j = j + 1;
    }
    assert(ds.take(n as int) =~= ds);
    string_of(&joined)
}

/// Puts a page together from the outcome of the Markdown rendering: on an
/// error its text is the whole page; otherwise the HTML, after a `base` tag
/// for the page's directory, fills the template's content marker, `crumbs`
/// fills the breadcrumb marker, and each configuration value fills every
/// marker of its key.
pub fn assemble(
    markdown: Result<String, String>,
    template: &str,
    configs: &ConfigMap,
    page_path: &str,
    crumbs: &str,
) -> (r: String)
    ensures
        r@ == assembled(
            match markdown {
                Ok(h) => Ok(h@),
                Err(e) => Err(e@),
            },
            template@,
            configs@,
            page_path@,
            crumbs@,
        ),
        markdown matches Err(e) ==> r@ == e@,
{
    let html = match markdown {
        Ok(h) => h,
        Err(e) => return e,
    };
    let mut content = chars_of("<base href=\"/");
    push_all(&mut content, &chars_of(page_parent(page_path).as_str()));
    push_all(&mut content, &chars_of("/\">"));
    push_all(&mut content, &chars_of(html.as_str()));
    let t1 = replace_first_exec(&chars_of(template), &chars_of("{!sting_replace}"), &content);
    let mut out = replace_first_exec(&t1, &chars_of("{!sting_breadcrumbs}"), &chars_of(crumbs));
    let ghost t2 = out@;
    let mut i: usize = 0;
    while i < configs.len()
        invariant
            i <= configs@.len(),
            out@ == substitute_configs(t2, configs@, i as int),
        decreases configs@.len() - i,
    {
        let (key, value) = configs.entry_chars(i);
        let mut marker = chars_of("{!sting_config_");
        push_all(&mut marker, &key);
        push_all(&mut marker, &chars_of("}"));
        out = replace_all_exec(&out, &marker, &value);
        i = i + 1;
    }
    string_of(&out)
}

/// Renders one page: splits off its front matter, builds its configuration,
/// rewrites style tokens, renders the Markdown and fills the template.
pub fn parse(
    string: String,
    template: &String,
    default_configs: &ConfigMap,
    page_path: &str,
) -> (r: String)
    requires
        default_configs.wf(),
    ensures
        r@ == rendered(string@, template@, default_configs@, page_path@),
{
    let mut body = string;
    let parent = page_parent(page_path);
    let configs = get_configs(&mut body, default_configs, parent.as_str());
    let rewritten_body = rewrite(body.as_str());
    let markdown = markdown_to_html(rewritten_body.as_str());
    let crumbs = breadcrumbs(page_path, default_configs);
    assemble(markdown, template.as_str(), &configs, page_path, crumbs.as_str())
}

/// When the Markdown renderer reports an error, the page is that error's
/// text and nothing of the template.
pub proof fn lemma_markdown_failure(
    raw: Seq<char>,
    template: Seq<char>,
    defaults: Seq<(Seq<char>, Seq<char>)>,
    page_path: Seq<char>,
    e: Seq<char>,
)
    requires
        markdown_of(rewritten(page_body(raw))) == Err::<Seq<char>, Seq<char>>(e),
    ensures
        rendered(raw, template, defaults, page_path) == e,
{
}

} // verus!
