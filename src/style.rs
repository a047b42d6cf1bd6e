//! Style tokens: bracketed markers in page text that become `div` wrappers,
//! each escapable with a preceding backslash.
use vstd::prelude::*;
use crate::text::{chars_of, contains, matches_at, matches_at_exec, push_all, string_of};

verus! {

/// `s` from position `i` on, with each occurrence of `p` replaced by `t`,
/// except that a backslash followed by `p` becomes `p` itself.
pub open spec fn escaped_from(s: Seq<char>, p: Seq<char>, t: Seq<char>, i: int) -> Seq<char>
    decreases s.len() - i,
{
    if i < 0 || i >= s.len() {
        Seq::empty()
    } else if p.len() > 0 && s[i] == '\\' && matches_at(s, p, i + 1) {
        p + escaped_from(s, p, t, i + 1 + p.len())
    } else if p.len() > 0 && matches_at(s, p, i) {
        t + escaped_from(s, p, t, i + p.len())
    } else {
        seq![s[i]] + escaped_from(s, p, t, i + 1)
    }
}

/// `s` with the escape-aware replacement of `p` by `t`.
pub open spec fn replace_escaped(s: Seq<char>, p: Seq<char>, t: Seq<char>) -> Seq<char> {
    escaped_from(s, p, t, 0)
}

/// The token that opens a box.
pub open spec fn box_token() -> Seq<char> {
    "{box}"@
}

/// The token that opens a title.
pub open spec fn title_token() -> Seq<char> {
    "{title}"@
}

/// The token that opens a body.
pub open spec fn body_token() -> Seq<char> {
    "{body}"@
}

/// The token that closes a title or body.
pub open spec fn end_token() -> Seq<char> {
    "{end}"@
}

/// The token that closes a box.
pub open spec fn end_box_token() -> Seq<char> {
    "{end-box}"@
}

/// What the box token becomes.
pub open spec fn box_html() -> Seq<char> {
    "<div class=\"box\">\n\n"@
}

/// What the title token becomes.
pub open spec fn title_html() -> Seq<char> {
    "<div class=\"title\">\n\n"@
}

/// What the body token becomes.
pub open spec fn body_html() -> Seq<char> {
    "<div class=\"body\">\n\n"@
}

/// What both closing tokens become.
pub open spec fn close_html() -> Seq<char> {
    "</div>"@
}

/// The five style tokens rewritten in order: box, title, body, end, end-box.
pub open spec fn rewritten(s: Seq<char>) -> Seq<char> {
    let s1 = replace_escaped(s, box_token(), box_html());
    let s2 = replace_escaped(s1, title_token(), title_html());
    let s3 = replace_escaped(s2, body_token(), body_html());
    let s4 = replace_escaped(s3, end_token(), close_html());
    replace_escaped(s4, end_box_token(), close_html())
}

/// Whether `s` holds any of the five style tokens.
pub open spec fn has_style_token(s: Seq<char>) -> bool {
    contains(s, box_token()) || contains(s, title_token()) || contains(s, body_token())
        || contains(s, end_token()) || contains(s, end_box_token())
}

/// Without an occurrence of `p`, the rest of `s` from `i` comes out as it is.
proof fn lemma_escaped_absent(s: Seq<char>, p: Seq<char>, t: Seq<char>, i: int)
    requires
        !contains(s, p),
        0 <= i <= s.len(),
    ensures
        escaped_from(s, p, t, i) == s.subrange(i, s.len() as int),
    decreases s.len() - i,
{
    if i < s.len() {
        assert(!matches_at(s, p, i));
        assert(!matches_at(s, p, i + 1));
        lemma_escaped_absent(s, p, t, i + 1);
        assert(s.subrange(i, s.len() as int) =~= seq![s[i]] + s.subrange(i + 1, s.len() as int));
    } else {
        assert(s.subrange(i, s.len() as int) =~= Seq::<char>::empty());
    }
}

/// Replacing a token that does not occur leaves the text as it was.
pub proof fn lemma_replace_escaped_absent(s: Seq<char>, p: Seq<char>, t: Seq<char>)
    requires
        !contains(s, p),
    ensures
        replace_escaped(s, p, t) == s,
{
    lemma_escaped_absent(s, p, t, 0);
    assert(s.subrange(0, s.len() as int) =~= s);
}

/// Text without style tokens comes out of the rewrite unchanged.
pub proof fn lemma_rewrite_without_tokens(s: Seq<char>)
    requires
        !has_style_token(s),
    ensures
        rewritten(s) == s,
{
    lemma_replace_escaped_absent(s, box_token(), box_html());
    lemma_replace_escaped_absent(s, title_token(), title_html());
    lemma_replace_escaped_absent(s, body_token(), body_html());
    lemma_replace_escaped_absent(s, end_token(), close_html());
    lemma_replace_escaped_absent(s, end_box_token(), close_html());
}

/// Replaces each occurrence of `from` in `s` by `to`; a backslash before
/// `from` is dropped and `from` is kept as it is.
pub fn replace_with_escaping(s: &Vec<char>, from: &Vec<char>, to: &Vec<char>) -> (r: Vec<char>)
    ensures
        r@ == replace_escaped(s@, from@, to@),
{
    let mut out: Vec<char> = Vec::new();
    let mut i: usize = 0;
    while i < s.len()
        invariant
            i <= s.len(),
            out@ + escaped_from(s@, from@, to@, i as int) == replace_escaped(s@, from@, to@),
        decreases s.len() - i,
    {
        let ghost prev = out@;
        if from.len() > 0 && s[i] == '\\' && matches_at_exec(s, from, i + 1) {
            push_all(&mut out, from);
            assert(prev + escaped_from(s@, from@, to@, i as int) =~= out@ + escaped_from(
                s@,
                from@,
                to@,
                i + 1 + from.len(),
            ));
            i = i + 1 + from.len();
        } else if from.len() > 0 && matches_at_exec(s, from, i) {
            push_all(&mut out, to);
            assert(prev + escaped_from(s@, from@, to@, i as int) =~= out@ + escaped_from(
                s@,
                from@,
                to@,
                i + from.len(),
            ));
            i = i + from.len();
        } else {
            out.push(s[i]);
            assert(prev + escaped_from(s@, from@, to@, i as int) =~= out@ + escaped_from(
                s@,
                from@,
                to@,
                i + 1,
            ));
            i = i + 1;
        }
    }
    assert(out@ + escaped_from(s@, from@, to@, i as int) =~= out@);
    out
}

/// Rewrites the five style tokens of `s` into HTML, in order.
pub fn rewrite_chars(s: &Vec<char>) -> (r: Vec<char>)
    ensures
        r@ == rewritten(s@),
{
    let s1 = replace_with_escaping(s, &chars_of("{box}"), &chars_of("<div class=\"box\">\n\n"));
    let s2 = replace_with_escaping(&s1, &chars_of("{title}"), &chars_of("<div class=\"title\">\n\n"));
    let s3 = replace_with_escaping(&s2, &chars_of("{body}"), &chars_of("<div class=\"body\">\n\n"));
    let s4 = replace_with_escaping(&s3, &chars_of("{end}"), &chars_of("</div>"));
    replace_with_escaping(&s4, &chars_of("{end-box}"), &chars_of("</div>"))
}

/// Rewrites the five style tokens of `s` into HTML, in order.
pub fn rewrite(s: &str) -> (r: String)
    ensures
        r@ == rewritten(s@),
{
    string_of(&rewrite_chars(&chars_of(s)))
}

} // verus!
