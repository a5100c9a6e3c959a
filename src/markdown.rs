//! Documents as blocks of inline text, and their rendering as HTML and as
//! source text of the language (calls such as `(h1 (concat "..."))`).
use vstd::prelude::*;
use crate::print::{nat_text, push_nat, push_str, string_of};

verus! {

#[derive(Debug, PartialEq, Eq)]
pub enum MarkdownInline {
    Link(String, String),
    ExternalLink(String, String),
    Image(String, String),
    InlineCode(String),
    Bold(String),
    Italic(String),
    Plaintext(String),
    Strikethrough(String),
    Color(String),
}

pub type MarkdownText = Vec<MarkdownInline>;

#[derive(Debug, PartialEq, Eq)]
pub enum Markdown {
    Heading(usize, MarkdownText),
    OrderedList(Vec<MarkdownText>),
    UnorderedList(Vec<MarkdownText>),
    TaskList(Vec<(bool, MarkdownText)>),
    Line(MarkdownText),
    Codeblock(String, String),
    Blockquote(MarkdownText),
    HorizontalRule,
    Lisp(String),
}

/// Ghost model of inline text: the same variants, with text as `Seq<char>`.
pub enum InlineV {
    Link(Seq<char>, Seq<char>),
    ExternalLink(Seq<char>, Seq<char>),
    Image(Seq<char>, Seq<char>),
    InlineCode(Seq<char>),
    Bold(Seq<char>),
    Italic(Seq<char>),
    Plaintext(Seq<char>),
    Strikethrough(Seq<char>),
    Color(Seq<char>),
}

impl View for MarkdownInline {
    type V = InlineV;

    open spec fn view(&self) -> InlineV {
        match self {
            MarkdownInline::Link(a, b) => InlineV::Link(a@, b@),
            MarkdownInline::ExternalLink(a, b) => InlineV::ExternalLink(a@, b@),
            MarkdownInline::Image(a, b) => InlineV::Image(a@, b@),
            MarkdownInline::InlineCode(a) => InlineV::InlineCode(a@),
            MarkdownInline::Bold(a) => InlineV::Bold(a@),
            MarkdownInline::Italic(a) => InlineV::Italic(a@),
            MarkdownInline::Plaintext(a) => InlineV::Plaintext(a@),
            MarkdownInline::Strikethrough(a) => InlineV::Strikethrough(a@),
            MarkdownInline::Color(a) => InlineV::Color(a@),
        }
    }
}

pub open spec fn text_view(t: Seq<MarkdownInline>) -> Seq<InlineV> {
    t.map_values(|m: MarkdownInline| m@)
}

pub open spec fn texts_view(ts: Seq<MarkdownText>) -> Seq<Seq<InlineV>> {
    ts.map_values(|t: MarkdownText| text_view(t@))
}

/// Ghost model of a block.
pub enum BlockV {
    Heading(int, Seq<InlineV>),
    OrderedList(Seq<Seq<InlineV>>),
    UnorderedList(Seq<Seq<InlineV>>),
    TaskList(Seq<(bool, Seq<InlineV>)>),
    Line(Seq<InlineV>),
    Codeblock(Seq<char>, Seq<char>),
    Blockquote(Seq<InlineV>),
    HorizontalRule,
    Lisp(Seq<char>),
}

impl View for Markdown {
    type V = BlockV;

    open spec fn view(&self) -> BlockV {
        match self {
            Markdown::Heading(l, t) => BlockV::Heading(*l as int, text_view(t@)),
            Markdown::OrderedList(ts) => BlockV::OrderedList(texts_view(ts@)),
            Markdown::UnorderedList(ts) => BlockV::UnorderedList(texts_view(ts@)),
            Markdown::TaskList(ts) => BlockV::TaskList(
                ts@.map_values(|e: (bool, MarkdownText)| (e.0, text_view(e.1@))),
            ),
            Markdown::Line(t) => BlockV::Line(text_view(t@)),
            Markdown::Codeblock(a, b) => BlockV::Codeblock(a@, b@),
            Markdown::Blockquote(t) => BlockV::Blockquote(text_view(t@)),
            Markdown::HorizontalRule => BlockV::HorizontalRule,
            Markdown::Lisp(a) => BlockV::Lisp(a@),
        }
    }
}

/// A rendering as HTML.
pub struct HtmlString(pub String);

/// A rendering as source text of the language.
pub struct LispString(pub String);

pub open spec fn inline_html(m: MarkdownInline) -> Seq<char> {
    match m {
        MarkdownInline::Link(text, href) => "<a href=\""@ + href@ + "\">"@ + text@ + "</a>"@,
        MarkdownInline::ExternalLink(text, href) => "<a target=\"_blank\" href=\""@ + href@ + "\">"@ + text@ + "</a>"@,
        MarkdownInline::Image(text, src) => "<img src=\""@ + src@ + "\" alt=\""@ + text@ + "\" />"@,
        MarkdownInline::InlineCode(text) => "<code>"@ + text@ + "</code>"@,
        MarkdownInline::Bold(text) => "<strong>"@ + text@ + "</strong>"@,
        MarkdownInline::Italic(text) => "<em>"@ + text@ + "</em>"@,
        MarkdownInline::Plaintext(text) => text@,
        MarkdownInline::Strikethrough(text) => "<s>"@ + text@ + "</s>"@,
        MarkdownInline::Color(text) => "<span style=\"color: '"@ + text@ + "'\">\u{e2}\u{2014}\u{bc}</span> "@ + text@,
    }
}

fn write_inline_html(m: &MarkdownInline, out: &mut Vec<char>)
    ensures
        final(out)@ == old(out)@ + inline_html(*m),
{
    match m {
        MarkdownInline::Link(text, href) => {
            push_str(out, "<a href=\"");
            push_str(out, href.as_str());
            push_str(out, "\">");
            push_str(out, text.as_str());
            push_str(out, "</a>");
            assert(out@ =~= old(out)@ + inline_html(*m));
        },
        MarkdownInline::ExternalLink(text, href) => {
            push_str(out, "<a target=\"_blank\" href=\"");
            push_str(out, href.as_str());
            push_str(out, "\">");
            push_str(out, text.as_str());
            push_str(out, "</a>");
            assert(out@ =~= old(out)@ + inline_html(*m));
        },
        MarkdownInline::Image(text, src) => {
            push_str(out, "<img src=\"");
            push_str(out, src.as_str());
            push_str(out, "\" alt=\"");
            push_str(out, text.as_str());
            push_str(out, "\" />");
            assert(out@ =~= old(out)@ + inline_html(*m));
        },
        MarkdownInline::InlineCode(text) => {
            push_str(out, "<code>");
            push_str(out, text.as_str());
            push_str(out, "</code>");
            assert(out@ =~= old(out)@ + inline_html(*m));
        },
        MarkdownInline::Bold(text) => {
            push_str(out, "<strong>");
            push_str(out, text.as_str());
            push_str(out, "</strong>");
            assert(out@ =~= old(out)@ + inline_html(*m));
        },
        MarkdownInline::Italic(text) => {
            push_str(out, "<em>");
            push_str(out, text.as_str());
            push_str(out, "</em>");
            assert(out@ =~= old(out)@ + inline_html(*m));
        },
        MarkdownInline::Plaintext(text) => {
            push_str(out, text.as_str());
            assert(out@ =~= old(out)@ + inline_html(*m));
        },
        MarkdownInline::Strikethrough(text) => {
            push_str(out, "<s>");
            push_str(out, text.as_str());
            push_str(out, "</s>");
            assert(out@ =~= old(out)@ + inline_html(*m));
        },
        MarkdownInline::Color(text) => {
            push_str(out, "<span style=\"color: '");
            push_str(out, text.as_str());
            push_str(out, "'\">\u{e2}\u{2014}\u{bc}</span> ");
            push_str(out, text.as_str());
            assert(out@ =~= old(out)@ + inline_html(*m));
        },
    }
}

pub open spec fn inline_lisp(m: MarkdownInline) -> Seq<char> {
    match m {
        MarkdownInline::Link(text, href) => "(a \""@ + href@ + "\" \""@ + text@ + "\") "@,
        MarkdownInline::ExternalLink(text, href) => "(a-out \""@ + href@ + "\" \""@ + text@ + "\") "@,
        MarkdownInline::Image(text, src) => "(img \""@ + src@ + "\" \""@ + text@ + "\") "@,
        MarkdownInline::InlineCode(text) => "(code \""@ + text@ + "\") "@,
        MarkdownInline::Bold(text) => "(strong \""@ + text@ + "\") "@,
        MarkdownInline::Italic(text) => "(em \""@ + text@ + "\") "@,
        MarkdownInline::Plaintext(text) => "\""@ + text@ + "\" "@,
        MarkdownInline::Strikethrough(text) => "(strike \""@ + text@ + "\") "@,
        MarkdownInline::Color(text) => "(color \""@ + text@ + "\") "@,
    }
}

fn write_inline_lisp(m: &MarkdownInline, out: &mut Vec<char>)
    ensures
        final(out)@ == old(out)@ + inline_lisp(*m),
{
    match m {
        MarkdownInline::Link(text, href) => {
            push_str(out, "(a \"");
            push_str(out, href.as_str());
            push_str(out, "\" \"");
            push_str(out, text.as_str());
            push_str(out, "\") ");
            assert(out@ =~= old(out)@ + inline_lisp(*m));
        },
        MarkdownInline::ExternalLink(text, href) => {
            push_str(out, "(a-out \"");
            push_str(out, href.as_str());
            push_str(out, "\" \"");
            push_str(out, text.as_str());
            push_str(out, "\") ");
            assert(out@ =~= old(out)@ + inline_lisp(*m));
        },
        MarkdownInline::Image(text, src) => {
            push_str(out, "(img \"");
            push_str(out, src.as_str());
            push_str(out, "\" \"");
            push_str(out, text.as_str());
            push_str(out, "\") ");
            assert(out@ =~= old(out)@ + inline_lisp(*m));
        },
        MarkdownInline::InlineCode(text) => {
            push_str(out, "(code \"");
            push_str(out, text.as_str());
            push_str(out, "\") ");
            assert(out@ =~= old(out)@ + inline_lisp(*m));
        },
        MarkdownInline::Bold(text) => {
            push_str(out, "(strong \"");
            push_str(out, text.as_str());
            push_str(out, "\") ");
            assert(out@ =~= old(out)@ + inline_lisp(*m));
        },
        MarkdownInline::Italic(text) => {
            push_str(out, "(em \"");
            push_str(out, text.as_str());
            push_str(out, "\") ");
            assert(out@ =~= old(out)@ + inline_lisp(*m));
        },
        MarkdownInline::Plaintext(text) => {
            push_str(out, "\"");
            push_str(out, text.as_str());
            push_str(out, "\" ");
            assert(out@ =~= old(out)@ + inline_lisp(*m));
        },
        MarkdownInline::Strikethrough(text) => {
            push_str(out, "(strike \"");
            push_str(out, text.as_str());
            push_str(out, "\") ");
            assert(out@ =~= old(out)@ + inline_lisp(*m));
        },
        MarkdownInline::Color(text) => {
            push_str(out, "(color \"");
            push_str(out, text.as_str());
            push_str(out, "\") ");
            assert(out@ =~= old(out)@ + inline_lisp(*m));
        },
    }
}

pub open spec fn text_html(t: Seq<MarkdownInline>) -> Seq<char>
    decreases t.len(),
{
    if t.len() == 0 {
        Seq::empty()
    } else {
        text_html(t.drop_last()) + inline_html(t.last())
    }
}

pub open spec fn text_lisp(t: Seq<MarkdownInline>) -> Seq<char>
    decreases t.len(),
{
    if t.len() == 0 {
        Seq::empty()
    } else {
        text_lisp(t.drop_last()) + inline_lisp(t.last())
    }
}

fn write_text_html(t: &Vec<MarkdownInline>, out: &mut Vec<char>)
    ensures
        final(out)@ == old(out)@ + text_html(t@),
{
    let mut i: usize = 0;
    assert(t@.take(0) =~= Seq::<MarkdownInline>::empty());
    while i < t.len()
        invariant
            i <= t.len(),
            out@ == old(out)@ + text_html(t@.take(i as int)),
        decreases t.len() - i,
    {
        assert(t@.take(i + 1).drop_last() =~= t@.take(i as int));
        write_inline_html(&t[i], out);
        i += 1;
        assert(out@ =~= old(out)@ + text_html(t@.take(i as int)));
    }
    assert(t@.take(i as int) =~= t@);
}

fn write_text_lisp(t: &Vec<MarkdownInline>, out: &mut Vec<char>)
    ensures
        final(out)@ == old(out)@ + text_lisp(t@),
{
    let mut i: usize = 0;
    assert(t@.take(0) =~= Seq::<MarkdownInline>::empty());
    while i < t.len()
        invariant
            i <= t.len(),
            out@ == old(out)@ + text_lisp(t@.take(i as int)),
        decreases t.len() - i,
    {
        assert(t@.take(i + 1).drop_last() =~= t@.take(i as int));
        write_inline_lisp(&t[i], out);
        i += 1;
        assert(out@ =~= old(out)@ + text_lisp(t@.take(i as int)));
    }
    assert(t@.take(i as int) =~= t@);
}

/// Each element of a list between a prefix and a suffix.
pub open spec fn items_html(es: Seq<MarkdownText>) -> Seq<char>
    decreases es.len(),
{
    if es.len() == 0 {
        Seq::empty()
    } else {
        items_html(es.drop_last()) + "<li>"@ + text_html(es.last()@) + "</li>"@
    }
}

pub open spec fn task_html(checked: bool, t: MarkdownText) -> Seq<char> {
    if checked {
        "<li><input type='checkbox' checked />"@ + text_html(t@) + "</li>"@
    } else {
        "<li><input type='checkbox' />"@ + text_html(t@) + "</li>"@
    }
}

pub open spec fn tasks_html(es: Seq<(bool, MarkdownText)>) -> Seq<char>
    decreases es.len(),
{
    if es.len() == 0 {
        Seq::empty()
    } else {
        tasks_html(es.drop_last()) + task_html(es.last().0, es.last().1)
    }
}

pub open spec fn block_html(m: Markdown) -> Seq<char> {
    match m {
        Markdown::Heading(l, t) => "<h"@ + nat_text(l as nat) + ">"@ + text_html(t@) + "</h"@
            + nat_text(l as nat) + ">"@,
        Markdown::Blockquote(t) => "<blockquote>"@ + text_html(t@) + "</blockquote>"@,
        Markdown::UnorderedList(es) => "<ul>"@ + items_html(es@) + "</ul>"@,
        Markdown::OrderedList(es) => "<ol>"@ + items_html(es@) + "</ol>"@,
        Markdown::TaskList(es) => "<ul>"@ + tasks_html(es@) + "</ul>"@,
        Markdown::Codeblock(lang, code) => "<pre class=\""@ + lang@ + "-snippet\">"@ + code@
            + "</pre>"@,
        Markdown::Line(t) => if t@.len() == 0 {
            "<div></div>"@
        } else {
            "<p>"@ + text_html(t@) + "</p>"@
        },
        Markdown::HorizontalRule => "<hr />"@,
        Markdown::Lisp(l) => "<pre>"@ + l@ + "</pre>"@,
    }
}

pub open spec fn items_lisp(es: Seq<MarkdownText>, indent: bool) -> Seq<char>
    decreases es.len(),
{
    if es.len() == 0 {
        Seq::empty()
    } else {
        items_lisp(es.drop_last(), indent) + (if indent {
            "\t(li (concat "@
        } else {
            "(li (concat "@
        }) + text_lisp(es.last()@) + "))\n"@
    }
}

pub open spec fn task_lisp(checked: bool, t: MarkdownText) -> Seq<char> {
    if checked {
        "\t(li (concat checked "@ + text_lisp(t@) + "))\n"@
    } else {
        "\t(li (concat unchecked "@ + text_lisp(t@) + "))\n"@
    }
}

pub open spec fn tasks_lisp(es: Seq<(bool, MarkdownText)>) -> Seq<char>
    decreases es.len(),
{
    if es.len() == 0 {
        Seq::empty()
    } else {
        tasks_lisp(es.drop_last()) + task_lisp(es.last().0, es.last().1)
    }
}

pub open spec fn block_lisp(m: Markdown) -> Seq<char> {
    match m {
        Markdown::Heading(l, t) => "(h"@ + nat_text(l as nat) + " (concat "@ + text_lisp(t@)
            + "))\n"@,
        Markdown::Blockquote(t) => "(blockquote (concat "@ + text_lisp(t@) + "))\n"@,
        Markdown::UnorderedList(es) => "(ul\n(concat "@ + items_lisp(es@, false) + "))\n"@,
        Markdown::OrderedList(es) => "(ol\n(concat "@ + items_lisp(es@, true) + "))\n"@,
        Markdown::TaskList(es) => "(tasks\n(concat "@ + tasks_lisp(es@) + "))\n"@,
        Markdown::Codeblock(_, code) => "(pre \""@ + code@ + "\")\n"@,
        Markdown::Line(t) => if t@.len() == 0 {
            "(empty)\n"@
        } else {
            "(p (concat "@ + text_lisp(t@) + "))\n"@
        },
        Markdown::HorizontalRule => "hr\n"@,
        Markdown::Lisp(l) => l@ + " "@,
    }
}

fn write_items_html(es: &Vec<MarkdownText>, out: &mut Vec<char>)
    ensures
        final(out)@ == old(out)@ + items_html(es@),
{
    let mut i: usize = 0;
    assert(es@.take(0) =~= Seq::<MarkdownText>::empty());
    while i < es.len()
        invariant
            i <= es.len(),
            out@ == old(out)@ + items_html(es@.take(i as int)),
        decreases es.len() - i,
    {
        assert(es@.take(i + 1).drop_last() =~= es@.take(i as int));
        push_str(out, "<li>");
        write_text_html(&es[i], out);
        push_str(out, "</li>");
        i += 1;
        assert(out@ =~= old(out)@ + items_html(es@.take(i as int)));
    }
    assert(es@.take(i as int) =~= es@);
}

fn write_tasks_html(es: &Vec<(bool, MarkdownText)>, out: &mut Vec<char>)
    ensures
        final(out)@ == old(out)@ + tasks_html(es@),
{
    let mut i: usize = 0;
    assert(es@.take(0) =~= Seq::<(bool, MarkdownText)>::empty());
    while i < es.len()
        invariant
            i <= es.len(),
            out@ == old(out)@ + tasks_html(es@.take(i as int)),
        decreases es.len() - i,
    {
        assert(es@.take(i + 1).drop_last() =~= es@.take(i as int));
        if es[i].0 {
            push_str(out, "<li><input type='checkbox' checked />");
        } else {
            push_str(out, "<li><input type='checkbox' />");
        }
        write_text_html(&es[i].1, out);
        push_str(out, "</li>");
        i += 1;
        assert(out@ =~= old(out)@ + tasks_html(es@.take(i as int)));
    }
    assert(es@.take(i as int) =~= es@);
}

fn write_items_lisp(es: &Vec<MarkdownText>, indent: bool, out: &mut Vec<char>)
    ensures
        final(out)@ == old(out)@ + items_lisp(es@, indent),
{
    let mut i: usize = 0;
    assert(es@.take(0) =~= Seq::<MarkdownText>::empty());
    while i < es.len()
        invariant
            i <= es.len(),
            out@ == old(out)@ + items_lisp(es@.take(i as int), indent),
        decreases es.len() - i,
    {
        assert(es@.take(i + 1).drop_last() =~= es@.take(i as int));
        if indent {
            push_str(out, "\t(li (concat ");
        } else {
            push_str(out, "(li (concat ");
        }
        write_text_lisp(&es[i], out);
        push_str(out, "))\n");
        i += 1;
        assert(out@ =~= old(out)@ + items_lisp(es@.take(i as int), indent));
    }
    assert(es@.take(i as int) =~= es@);
}

fn write_tasks_lisp(es: &Vec<(bool, MarkdownText)>, out: &mut Vec<char>)
    ensures
        final(out)@ == old(out)@ + tasks_lisp(es@),
{
    let mut i: usize = 0;
    assert(es@.take(0) =~= Seq::<(bool, MarkdownText)>::empty());
    while i < es.len()
        invariant
            i <= es.len(),
            out@ == old(out)@ + tasks_lisp(es@.take(i as int)),
        decreases es.len() - i,
    {
        assert(es@.take(i + 1).drop_last() =~= es@.take(i as int));
        if es[i].0 {
            push_str(out, "\t(li (concat checked ");
        } else {
            push_str(out, "\t(li (concat unchecked ");
        }
        write_text_lisp(&es[i].1, out);
        push_str(out, "))\n");
        i += 1;
        assert(out@ =~= old(out)@ + tasks_lisp(es@.take(i as int)));
    }
    assert(es@.take(i as int) =~= es@);
}

fn write_block_html(m: &Markdown, out: &mut Vec<char>)
    ensures
        final(out)@ == old(out)@ + block_html(*m),
{
    match m {
        Markdown::Heading(l, t) => {
            push_str(out, "<h");
            push_nat(out, *l as u64);
            push_str(out, ">");
            write_text_html(t, out);
            push_str(out, "</h");
            push_nat(out, *l as u64);
            push_str(out, ">");
        },
        Markdown::Blockquote(t) => {
            push_str(out, "<blockquote>");
            write_text_html(t, out);
            push_str(out, "</blockquote>");
        },
        Markdown::UnorderedList(es) => {
            push_str(out, "<ul>");
            write_items_html(es, out);
            push_str(out, "</ul>");
        },
        Markdown::OrderedList(es) => {
            push_str(out, "<ol>");
            write_items_html(es, out);
            push_str(out, "</ol>");
        },
        Markdown::TaskList(es) => {
            push_str(out, "<ul>");
            write_tasks_html(es, out);
            push_str(out, "</ul>");
        },
        Markdown::Codeblock(lang, code) => {
            push_str(out, "<pre class=\"");
            push_str(out, lang.as_str());
            push_str(out, "-snippet\">");
            push_str(out, code.as_str());
            push_str(out, "</pre>");
        },
        Markdown::Line(t) => {
            if t.len() == 0 {
                push_str(out, "<div></div>");
            } else {
                push_str(out, "<p>");
                write_text_html(t, out);
                push_str(out, "</p>");
            }
        },
        Markdown::HorizontalRule => {
            push_str(out, "<hr />");
        },
        Markdown::Lisp(l) => {
            push_str(out, "<pre>");
            push_str(out, l.as_str());
            push_str(out, "</pre>");
        },
    }
    assert(out@ =~= old(out)@ + block_html(*m));
}

fn write_block_lisp(m: &Markdown, out: &mut Vec<char>)
    ensures
        final(out)@ == old(out)@ + block_lisp(*m),
{
    match m {
        Markdown::Heading(l, t) => {
            push_str(out, "(h");
            push_nat(out, *l as u64);
            push_str(out, " (concat ");
            write_text_lisp(t, out);
            push_str(out, "))\n");
        },
        Markdown::Blockquote(t) => {
            push_str(out, "(blockquote (concat ");
            write_text_lisp(t, out);
            push_str(out, "))\n");
        },
        Markdown::UnorderedList(es) => {
            push_str(out, "(ul\n(concat ");
            write_items_lisp(es, false, out);
            push_str(out, "))\n");
        },
        Markdown::OrderedList(es) => {
            push_str(out, "(ol\n(concat ");
            write_items_lisp(es, true, out);
            push_str(out, "))\n");
        },
        Markdown::TaskList(es) => {
            push_str(out, "(tasks\n(concat ");
            write_tasks_lisp(es, out);
            push_str(out, "))\n");
        },
        Markdown::Codeblock(_, code) => {
            push_str(out, "(pre \"");
            push_str(out, code.as_str());
            push_str(out, "\")\n");
        },
        Markdown::Line(t) => {
            if t.len() == 0 {
                push_str(out, "(empty)\n");
            } else {
                push_str(out, "(p (concat ");
                write_text_lisp(t, out);
                push_str(out, "))\n");
            }
        },
        Markdown::HorizontalRule => {
            push_str(out, "hr\n");
        },
        Markdown::Lisp(l) => {
            push_str(out, l.as_str());
            push_str(out, " ");
        },
    }
    assert(out@ =~= old(out)@ + block_lisp(*m));
}

/// Renderings of the blocks, one after the other.
pub open spec fn doc_html(ms: Seq<Markdown>) -> Seq<char>
    decreases ms.len(),
{
    if ms.len() == 0 {
        Seq::empty()
    } else {
        doc_html(ms.drop_last()) + block_html(ms.last())
    }
}

pub open spec fn doc_lisp(ms: Seq<Markdown>) -> Seq<char>
    decreases ms.len(),
{
    if ms.len() == 0 {
        Seq::empty()
    } else {
        doc_lisp(ms.drop_last()) + block_lisp(ms.last())
    }
}

impl HtmlString {
    pub fn from_markdown(md: &Markdown) -> (r: HtmlString)
        ensures
            r.0@ == block_html(*md),
    {
        let mut out: Vec<char> = Vec::new();
        write_block_html(md, &mut out);
        assert(out@ =~= block_html(*md));
        HtmlString(string_of(&out))
    }

    pub fn from_inline(md: &MarkdownInline) -> (r: HtmlString)
        ensures
            r.0@ == inline_html(*md),
    {
        let mut out: Vec<char> = Vec::new();
        write_inline_html(md, &mut out);
        assert(out@ =~= inline_html(*md));
        HtmlString(string_of(&out))
    }

    pub fn from_text(md: &MarkdownText) -> (r: HtmlString)
        ensures
            r.0@ == text_html(md@),
    {
        let mut out: Vec<char> = Vec::new();
        write_text_html(md, &mut out);
        assert(out@ =~= text_html(md@));
        HtmlString(string_of(&out))
    }

    /// The renderings of the blocks of a document, one after the other.
    pub fn from_document(ms: &Vec<Markdown>) -> (r: String)
        ensures
            r@ == doc_html(ms@),
    {
        let mut out: Vec<char> = Vec::new();
        let mut i: usize = 0;
        assert(ms@.take(0) =~= Seq::<Markdown>::empty());
        while i < ms.len()
            invariant
                i <= ms.len(),
                out@ == doc_html(ms@.take(i as int)),
            decreases ms.len() - i,
        {
            assert(ms@.take(i + 1).drop_last() =~= ms@.take(i as int));
            write_block_html(&ms[i], &mut out);
            i += 1;
        }
        assert(ms@.take(i as int) =~= ms@);
        string_of(&out)
    }
}

impl LispString {
    pub fn from_markdown(md: &Markdown) -> (r: LispString)
        ensures
            r.0@ == block_lisp(*md),
    {
        let mut out: Vec<char> = Vec::new();
        write_block_lisp(md, &mut out);
        assert(out@ =~= block_lisp(*md));
        LispString(string_of(&out))
    }

    pub fn from_inline(md: &MarkdownInline) -> (r: LispString)
        ensures
            r.0@ == inline_lisp(*md),
    {
        let mut out: Vec<char> = Vec::new();
        write_inline_lisp(md, &mut out);
        assert(out@ =~= inline_lisp(*md));
        LispString(string_of(&out))
    }

    pub fn from_text(md: &MarkdownText) -> (r: LispString)
        ensures
            r.0@ == text_lisp(md@),
    {
        let mut out: Vec<char> = Vec::new();
        write_text_lisp(md, &mut out);
        assert(out@ =~= text_lisp(md@));
        LispString(string_of(&out))
    }

    /// The renderings of the blocks of a document, one after the other.
    pub fn from_document(ms: &Vec<Markdown>) -> (r: String)
        ensures
            r@ == doc_lisp(ms@),
    {
        let mut out: Vec<char> = Vec::new();
        let mut i: usize = 0;
        assert(ms@.take(0) =~= Seq::<Markdown>::empty());
        while i < ms.len()
            invariant
                i <= ms.len(),
                out@ == doc_lisp(ms@.take(i as int)),
            decreases ms.len() - i,
        {
            assert(ms@.take(i + 1).drop_last() =~= ms@.take(i as int));
            write_block_lisp(&ms[i], &mut out);
            i += 1;
        }
        assert(ms@.take(i as int) =~= ms@);
        string_of(&out)
    }
}

} // verus!
