use bebop_lang::markdown_reader::{markdown_to_html, markdown_to_lisp};
use bebop_lang::{init_env, HtmlString, Lisp, LispString, Markdown, MarkdownInline};

fn text(s: &str) -> String {
    String::from(s)
}

#[test]
fn headings_render_with_their_level() {
    let md = Markdown::Heading(2, vec![MarkdownInline::Plaintext(text("Title"))]);
    assert_eq!(HtmlString::from_markdown(&md).0, "<h2>Title</h2>");
    assert_eq!(LispString::from_markdown(&md).0, "(h2 (concat \"Title\" ))\n");
}

#[test]
fn inline_elements_render() {
    let link = MarkdownInline::Link(text("title"), text("https://www.example.com"));
    assert_eq!(HtmlString::from_inline(&link).0, "<a href=\"https://www.example.com\">title</a>");
    assert_eq!(LispString::from_inline(&link).0, "(a \"https://www.example.com\" \"title\") ");
    let img = MarkdownInline::Image(text("alt text"), text("image.jpg"));
    assert_eq!(HtmlString::from_inline(&img).0, "<img src=\"image.jpg\" alt=\"alt text\" />");
    assert_eq!(LispString::from_inline(&img).0, "(img \"image.jpg\" \"alt text\") ");
    let bold = MarkdownInline::Bold(text("b"));
    assert_eq!(HtmlString::from_inline(&bold).0, "<strong>b</strong>");
    assert_eq!(LispString::from_inline(&bold).0, "(strong \"b\") ");
    let code = MarkdownInline::InlineCode(text("c"));
    assert_eq!(HtmlString::from_inline(&code).0, "<code>c</code>");
    let color = MarkdownInline::Color(text("#FF4F00"));
    assert_eq!(
        HtmlString::from_inline(&color).0,
        "<span style=\"color: '#FF4F00'\">\u{e2}\u{2014}\u{bc}</span> #FF4F00"
    );
}

#[test]
fn lists_and_lines_render() {
    let items = vec![
        vec![MarkdownInline::Plaintext(text("abc"))],
        vec![MarkdownInline::Italic(text("def"))],
    ];
    let ul = Markdown::UnorderedList(items);
    assert_eq!(HtmlString::from_markdown(&ul).0, "<ul><li>abc</li><li><em>def</em></li></ul>");
    assert_eq!(
        LispString::from_markdown(&ul).0,
        "(ul\n(concat (li (concat \"abc\" ))\n(li (concat (em \"def\") ))\n))\n"
    );
    let ol = Markdown::OrderedList(vec![vec![MarkdownInline::Plaintext(text("x"))]]);
    assert_eq!(LispString::from_markdown(&ol).0, "(ol\n(concat \t(li (concat \"x\" ))\n))\n");
    assert_eq!(HtmlString::from_markdown(&Markdown::Line(vec![])).0, "<div></div>");
    assert_eq!(LispString::from_markdown(&Markdown::Line(vec![])).0, "(empty)\n");
    let tasks = Markdown::TaskList(vec![(true, vec![MarkdownInline::Plaintext(text("t"))])]);
    assert_eq!(
        HtmlString::from_markdown(&tasks).0,
        "<ul><li><input type='checkbox' checked />t</li></ul>"
    );
}

#[test]
fn documents_render_block_after_block() {
    let doc = vec![
        Markdown::Heading(1, vec![MarkdownInline::Plaintext(text("h"))]),
        Markdown::HorizontalRule,
        Markdown::Codeblock(text("sql"), text("select 1")),
        Markdown::Lisp(text("(def [x] 1)")),
    ];
    assert_eq!(
        HtmlString::from_document(&doc),
        "<h1>h</h1><hr /><pre class=\"sql-snippet\">select 1</pre><pre>(def [x] 1)</pre>"
    );
    assert_eq!(
        LispString::from_document(&doc),
        "(h1 (concat \"h\" ))\nhr\n(pre \"select 1\")\n(def [x] 1) "
    );
}

#[test]
fn documents_become_programs_that_render_themselves() {
    let md = "# Title\nsome *words*\n";
    let source = markdown_to_lisp(md).unwrap();
    assert_eq!(source, "(h1 (concat \"Title\" ))\n(p (concat \"some \" (em \"words\") ))\n");
    assert_eq!(
        markdown_to_html(md).unwrap(),
        "<h1>Title</h1><p>some <em>words</em></p>"
    );
    let env = &mut init_env();
    Lisp::from_source(env, "def [h1] (\\ [children] [concat \"<h1>\" children \"</h1>\"])").unwrap();
    assert_eq!(Lisp::from_source(env, "(h1 (concat \"Title\" ))"), Ok(String::from("<h1>Title</h1>")));
    assert_eq!(markdown_to_lisp(""), Err(String::from("Not valid md")));
}
