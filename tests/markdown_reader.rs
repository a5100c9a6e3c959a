use bebop_lang::markdown_reader::{
parse_boldtext, parse_code_block, parse_header, parse_header_tag, parse_image,
parse_inline_code, parse_italics, parse_link, parse_markdown, parse_markdown_inline,
parse_markdown_text, parse_ordered_list, parse_ordered_list_element, parse_ordered_list_tag,
parse_plaintext, parse_unordered_list, parse_unordered_list_element, parse_unordered_list_tag,
MdCode, MdError,
};
use bebop_lang::{Markdown, MarkdownInline};

#[test]
fn test_parse_italics() {
    assert_eq!(
        parse_italics("*here is italic*"),
        Ok((String::from(""), MarkdownInline::Italic(String::from("here is italic"))))
    );
    assert_eq!(
        parse_italics("*here is italic*\n"),
        Ok((String::from("\n"),
            MarkdownInline::Italic(String::from("here is italic"))
        ))
    );
    assert!(parse_italics("*here is italic").is_err());
    assert!(parse_italics("here is italic*").is_err());
    assert!(parse_italics("here is italic").is_err());
    assert!(parse_italics("*").is_err());
    assert!(parse_italics("**").is_err());
    assert!(parse_italics("").is_err());
    assert!(parse_italics("**we are doing bold**").is_err());
}

#[test]
fn test_parse_boldtext() {
    assert_eq!(
        parse_boldtext("**here is bold**"),
        Ok((String::from(""), MarkdownInline::Bold(String::from("here is bold"))))
    );
    assert_eq!(
        parse_boldtext("**here is bold**\n"),
        Ok((String::from("\n"), MarkdownInline::Bold(String::from("here is bold"))))
    );
    assert!(parse_boldtext("**here is bold").is_err());
    assert!(parse_boldtext("here is bold**").is_err());
    assert!(parse_boldtext("here is bold").is_err());
    assert!(parse_boldtext("****").is_err());
    assert!(parse_boldtext("**").is_err());
    assert!(parse_boldtext("*").is_err());
    assert!(parse_boldtext("").is_err());
    assert!(parse_boldtext("*this is italic*").is_err());
}

#[test]
fn test_parse_inline_code() {
    assert_eq!(
        parse_inline_code("`here is bold`\n"),
        Ok((String::from("\n"),
            MarkdownInline::InlineCode(String::from("here is bold"))
        ))
    );
    assert!(parse_inline_code("`here is code").is_err());
    assert!(parse_inline_code("here is code`").is_err());
    assert!(parse_inline_code("``").is_err());
    assert!(parse_inline_code("`").is_err());
    assert!(parse_inline_code("").is_err());
}

#[test]
fn test_parse_link() {
    assert_eq!(
        parse_link("[title](https://www.example.com)"),
        Ok((String::from(""),
            MarkdownInline::Link(
                String::from("title"),
                String::from("https://www.example.com")
            )
        ))
    );
    assert!(parse_link("[title](whatever").is_err());
}

#[test]
fn test_parse_image() {
    assert_eq!(
        parse_image("![alt text](image.jpg)"),
        Ok((String::from(""),
            MarkdownInline::Image(String::from("alt text"), String::from("image.jpg"))
        ))
    );
    assert!(parse_image("[title](whatever").is_err());
}

#[test]
fn test_parse_plaintext() {
    assert_eq!(
        parse_plaintext("1234567890"),
        Ok((String::from(""), MarkdownInline::Plaintext(String::from("1234567890"))))
    );
    assert_eq!(
        parse_plaintext("oh my gosh!"),
        Ok((String::from(""), MarkdownInline::Plaintext(String::from("oh my gosh!"))))
    );
    assert_eq!(
        parse_plaintext("oh my gosh!["),
        Ok((String::from(""),
            MarkdownInline::Plaintext(String::from("oh my gosh!["))
        ))
    );
    assert_eq!(
        parse_plaintext("oh my gosh!*"),
        Ok((String::from(""),
            MarkdownInline::Plaintext(String::from("oh my gosh!*"))
        ))
    );
    assert_eq!(
        parse_plaintext("*bold babey bold*"),
        Err(MdError { input: String::from("*bold babey bold*"), code: MdCode::Not })
    );
    assert_eq!(
        parse_plaintext("[link babey](and then somewhat)"),
        Err(MdError { input: String::from("[link babey](and then somewhat)"), code: MdCode::Not })
    );
    assert_eq!(
        parse_plaintext("`codeblock for bums`"),
        Err(MdError { input: String::from("`codeblock for bums`"), code: MdCode::Not })
    );
    assert_eq!(
        parse_plaintext("![ but wait theres more](jk)"),
        Err(MdError { input: String::from("![ but wait theres more](jk)"), code: MdCode::Not })
    );
    assert_eq!(
        parse_plaintext("here is plaintext"),
        Ok((String::from(""),
            MarkdownInline::Plaintext(String::from("here is plaintext"))
        ))
    );
    assert_eq!(
        parse_plaintext("here is plaintext!"),
        Ok((String::from(""),
            MarkdownInline::Plaintext(String::from("here is plaintext!"))
        ))
    );
    assert_eq!(
        parse_plaintext("here is plaintext![image starting"),
        Ok((String::from(""),
            MarkdownInline::Plaintext(String::from("here is plaintext![image starting"))
        ))
    );
    assert_eq!(
        parse_plaintext("here is plaintext\n"),
        Ok((String::from("\n"),
            MarkdownInline::Plaintext(String::from("here is plaintext"))
        ))
    );
    assert_eq!(
        parse_plaintext("here is plaintext\nand the next line"),
        Ok((String::from("\nand the next line"),
            MarkdownInline::Plaintext(String::from("here is plaintext"))
        ))
    );
    assert_eq!(
        parse_plaintext("*here is italic*"),
        Err(MdError { input: String::from("*here is italic*"), code: MdCode::Not })
    );
    assert_eq!(
        parse_plaintext("**here is bold**"),
        Err(MdError { input: String::from("**here is bold**"), code: MdCode::Not })
    );
    assert_eq!(
        parse_plaintext("`here is code`"),
        Err(MdError { input: String::from("`here is code`"), code: MdCode::Not })
    );
    assert_eq!(
        parse_plaintext("[title](https://www.example.com)"),
        Err(MdError { input: String::from("[title](https://www.example.com)"), code: MdCode::Not })
    );
    assert_eq!(
        parse_plaintext("![alt text](image.jpg)"),
        Err(MdError { input: String::from("![alt text](image.jpg)"), code: MdCode::Not })
    );
    assert_eq!(
        parse_plaintext(""),
        Err(MdError { input: String::from(""), code: MdCode::Not })
    );
}

#[test]
fn test_parse_markdown_inline() {
    assert_eq!(
        parse_markdown_inline("*here is italic*"),
        Ok((String::from(""), MarkdownInline::Italic(String::from("here is italic"))))
    );
    assert_eq!(
        parse_markdown_inline("**here is bold**"),
        Ok((String::from(""), MarkdownInline::Bold(String::from("here is bold"))))
    );
    assert_eq!(
        parse_markdown_inline("`here is code`"),
        Ok((String::from(""),
            MarkdownInline::InlineCode(String::from("here is code"))
        ))
    );
    assert_eq!(
        parse_markdown_inline("[title](https://www.example.com)"),
        Ok((String::from(""),
            (MarkdownInline::Link(
                String::from("title"),
                String::from("https://www.example.com")
            ))
        ))
    );
    assert_eq!(
        parse_markdown_inline("![alt text](image.jpg)"),
        Ok((String::from(""),
            (MarkdownInline::Image(String::from("alt text"), String::from("image.jpg")))
        ))
    );
    assert_eq!(
        parse_markdown_inline("here is plaintext!"),
        Ok((String::from(""),
            MarkdownInline::Plaintext(String::from("here is plaintext!"))
        ))
    );
    assert_eq!(
        parse_markdown_inline("here is some plaintext *but what if we italicize?"),
        Ok((String::from(""),
            MarkdownInline::Plaintext(String::from(
                "here is some plaintext *but what if we italicize?"
            ))
        ))
    );
    assert_eq!(
        parse_markdown_inline(
            r#"here is some plaintext
    *but what if we italicize?"#
        ),
        Ok((String::from("\n    *but what if we italicize?"),
            MarkdownInline::Plaintext(String::from("here is some plaintext"))
        ))
    );
    assert!(parse_markdown_inline("\n").is_err(),);
    assert!(parse_markdown_inline("").is_err());
}

#[test]
fn test_parse_markdown_text() {
    assert_eq!(parse_markdown_text("\n"), Ok((String::from(""), vec![])));
    assert_eq!(
        parse_markdown_text("here is some plaintext\n"),
        Ok((String::from(""),
            vec![MarkdownInline::Plaintext(String::from(
                "here is some plaintext"
            ))]
        ))
    );
    assert_eq!(
        parse_markdown_text("here is some plaintext\nand some more yeah"),
        Ok((String::from("and some more yeah"),
            vec![MarkdownInline::Plaintext(String::from(
                "here is some plaintext"
            ))]
        ))
    );
    assert_eq!(
        parse_markdown_text("here is some plaintext *but what if we italicize?*\n"),
        Ok((String::from(""),
            vec![
                MarkdownInline::Plaintext(String::from("here is some plaintext ")),
                MarkdownInline::Italic(String::from("but what if we italicize?")),
            ]
        ))
    );
    assert_eq!(
            parse_markdown_text("here is some plaintext *but what if we italicize?* I guess it doesnt **matter** in my `code`\n"),
            Ok((String::from(""),vec![
                MarkdownInline::Plaintext(String::from("here is some plaintext ")),
                MarkdownInline::Italic(String::from("but what if we italicize?")),
                MarkdownInline::Plaintext(String::from(" I guess it doesnt ")),
                MarkdownInline::Bold(String::from("matter")),
                MarkdownInline::Plaintext(String::from(" in my ")),
                MarkdownInline::InlineCode(String::from("code")),
            ]))
        );
    assert_eq!(
        parse_markdown_text("here is some plaintext *but what if we italicize?*\n"),
        Ok((String::from(""),
            vec![
                MarkdownInline::Plaintext(String::from("here is some plaintext ")),
                MarkdownInline::Italic(String::from("but what if we italicize?")),
            ]
        ))
    );
}

#[test]
fn test_parse_header_tag() {
    assert_eq!(parse_header_tag("# "), Ok((String::from(""), 1)));
    assert_eq!(parse_header_tag("### "), Ok((String::from(""), 3)));
    assert_eq!(parse_header_tag("# h1"), Ok((String::from("h1"), 1)));
    assert_eq!(parse_header_tag("# h1"), Ok((String::from("h1"), 1)));
    assert_eq!(
        parse_header_tag(" "),
        Err(MdError { input: String::from(" "), code: MdCode::TakeWhile1 })
    );
    assert_eq!(
        parse_header_tag("#"),
        Err(MdError { input: String::from(""), code: MdCode::Tag })
    );
}

#[test]
fn test_parse_header() {
    assert_eq!(
        parse_header("# h1\n"),
        Ok((String::from(""),
            (1, vec![MarkdownInline::Plaintext(String::from("h1"))])
        ))
    );
    assert_eq!(
        parse_header("## h2\n"),
        Ok((String::from(""),
            (2, vec![MarkdownInline::Plaintext(String::from("h2"))])
        ))
    );
    assert_eq!(
        parse_header("###  h3\n"),
        Ok((String::from(""),
            (3, vec![MarkdownInline::Plaintext(String::from(" h3"))])
        ))
    );
    assert_eq!(
        parse_header("###h3"),
        Err(MdError { input: String::from("h3"), code: MdCode::Tag })
    );
    assert_eq!(
        parse_header("###"),
        Err(MdError { input: String::from(""), code: MdCode::Tag })
    );
    assert_eq!(
        parse_header(""),
        Err(MdError { input: String::from(""), code: MdCode::TakeWhile1 })
    );
    assert_eq!(
        parse_header("#"),
        Err(MdError { input: String::from(""), code: MdCode::Tag })
    );
    assert_eq!(parse_header("# \n"), Ok((String::from(""), (1, vec![]))));
    assert_eq!(
        parse_header("# test\n"),
        Ok((String::from(""),
            (1, vec![MarkdownInline::Plaintext(String::from("test"))])
        ))
    )
}

#[test]
fn test_parse_unordered_list_tag() {
    assert_eq!(parse_unordered_list_tag("- "), Ok((String::from(""), String::from("-"))));
    assert_eq!(
        parse_unordered_list_tag("- and some more"),
        Ok((String::from("and some more"), String::from("-")))
    );
    assert_eq!(
        parse_unordered_list_tag("-"),
        Err(MdError { input: String::from(""), code: MdCode::Tag })
    );
    assert_eq!(
        parse_unordered_list_tag("-and some more"),
        Err(MdError { input: String::from("and some more"), code: MdCode::Tag })
    );
    assert_eq!(
        parse_unordered_list_tag("--"),
        Err(MdError { input: String::from("-"), code: MdCode::Tag })
    );
    assert_eq!(
        parse_unordered_list_tag(""),
        Err(MdError { input: String::from(""), code: MdCode::Tag })
    );
}

#[test]
fn test_parse_unordered_list_element() {
    assert_eq!(
        parse_unordered_list_element("- this is an element\n"),
        Ok((String::from(""),
            vec![MarkdownInline::Plaintext(String::from(
                "this is an element"
            ))]
        ))
    );
    assert_eq!(
        parse_unordered_list_element(
            r#"- this is an element
- this is another element
"#
        ),
        Ok((String::from("- this is another element\n"),
            vec![MarkdownInline::Plaintext(String::from(
                "this is an element"
            ))]
        ))
    );
    assert_eq!(
        parse_unordered_list_element(""),
        Err(MdError { input: String::from(""), code: MdCode::Tag })
    );
    assert_eq!(parse_unordered_list_element("- \n"), Ok((String::from(""), vec![])));
    assert!(parse_unordered_list_element("- ").is_err());
    assert!(parse_unordered_list_element("- test").is_err());
    assert_eq!(
        parse_unordered_list_element("-"),
        Err(MdError { input: String::from(""), code: MdCode::Tag })
    );
}

#[test]
fn test_parse_unordered_list() {
    assert!(parse_unordered_list("- this is an element").is_err());
    assert_eq!(
        parse_unordered_list("- this is an element\n"),
        Ok((String::from(""),
            vec![vec![MarkdownInline::Plaintext(String::from(
                "this is an element"
            ))]]
        ))
    );
    assert_eq!(
        parse_unordered_list(
            r#"- this is an element
- here is another
"#
        ),
        Ok((String::from(""),
            vec![
                vec![MarkdownInline::Plaintext(String::from(
                    "this is an element"
                ))],
                vec![MarkdownInline::Plaintext(String::from("here is another"))]
            ]
        ))
    );
}

#[test]
fn test_parse_ordered_list_tag() {
    assert_eq!(parse_ordered_list_tag("1. "), Ok((String::from(""), String::from("1"))));
    assert_eq!(parse_ordered_list_tag("1234567. "), Ok((String::from(""), String::from("1234567"))));
    assert_eq!(
        parse_ordered_list_tag("3. and some more"),
        Ok((String::from("and some more"), String::from("3")))
    );
    assert_eq!(
        parse_ordered_list_tag("1"),
        Err(MdError { input: String::from(""), code: MdCode::Tag })
    );
    assert_eq!(
        parse_ordered_list_tag("1.and some more"),
        Err(MdError { input: String::from("and some more"), code: MdCode::Tag })
    );
    assert_eq!(
        parse_ordered_list_tag("1111."),
        Err(MdError { input: String::from(""), code: MdCode::Tag })
    );
    assert_eq!(
        parse_ordered_list_tag(""),
        Err(MdError { input: String::from(""), code: MdCode::TakeWhile1 })
    );
}

#[test]
fn test_parse_ordered_list_element() {
    assert_eq!(
        parse_ordered_list_element("1. this is an element\n"),
        Ok((String::from(""),
            vec![MarkdownInline::Plaintext(String::from(
                "this is an element"
            ))]
        ))
    );
    assert_eq!(
        parse_ordered_list_element(
            r#"1. this is an element
1. here is another
"#
        ),
        Ok((String::from("1. here is another\n"),
            vec![MarkdownInline::Plaintext(String::from(
                "this is an element"
            ))]
        ))
    );
    assert_eq!(
        parse_ordered_list_element(""),
        Err(MdError { input: String::from(""), code: MdCode::TakeWhile1 })
    );
    assert_eq!(
        parse_ordered_list_element(""),
        Err(MdError { input: String::from(""), code: MdCode::TakeWhile1 })
    );
    assert_eq!(parse_ordered_list_element("1. \n"), Ok((String::from(""), vec![])));
    assert!(parse_ordered_list_element("1. test").is_err());
    assert!(parse_ordered_list_element("1. ").is_err());
    assert!(parse_ordered_list_element("1.").is_err());
}

#[test]
fn test_parse_ordered_list() {
    assert_eq!(
        parse_ordered_list("1. this is an element\n"),
        Ok((String::from(""),
            vec![vec![MarkdownInline::Plaintext(String::from(
                "this is an element"
            ))]]
        ))
    );
    assert!(parse_ordered_list("1. test").is_err());
    assert_eq!(
        parse_ordered_list(
            r#"1. this is an element
2. here is another
"#
        ),
        Ok((String::from(""),
            vec![
                vec!(MarkdownInline::Plaintext(String::from(
                    "this is an element"
                ))),
                vec![MarkdownInline::Plaintext(String::from("here is another"))]
            ]
        ))
    );

    assert_eq!(
        parse_ordered_list(
            r#"1. this is an element
1. here is another
"#
        ),
        Ok((String::from(""),
            vec![
                vec!(MarkdownInline::Plaintext(String::from(
                    "this is an element"
                ))),
                vec![MarkdownInline::Plaintext(String::from("here is another"))]
            ]
        ))
    );
}

#[test]
fn test_parse_codeblock() {
    assert_eq!(
        parse_code_block(
            r#"```bash
    pip install foobar
```"#
        ),
        Ok((String::from(""),
            (
                String::from("bash"),
                String::from(
                    r#"    pip install foobar
"#
                )
            )
        ))
    );
    assert_eq!(
        parse_code_block(
            r#"```python
    import foobar

    foobar.pluralize('word') # returns 'words'
    foobar.pluralize('goose') # returns 'geese'
    foobar.singularize('phenomena') # returns 'phenomenon'
```"#
        ),
        Ok((String::from(""),
            (
                String::from("python"),
                String::from(
                    r#"    import foobar

    foobar.pluralize('word') # returns 'words'
    foobar.pluralize('goose') # returns 'geese'
    foobar.singularize('phenomena') # returns 'phenomenon'
"#
                )
            )
        ))
    );
    assert_eq!(
        parse_code_block(
            r#"```python
    import foobar

    foobar.pluralize('word') # returns 'words'
    foobar.pluralize('goose') # returns 'geese'
    foobar.singularize('phenomena') # returns 'phenomenon'
```
And the rest is here"#
        ),
        Ok((String::from("And the rest is here"),
            (
                String::from("python"),
                String::from(
                    r#"    import foobar

    foobar.pluralize('word') # returns 'words'
    foobar.pluralize('goose') # returns 'geese'
    foobar.singularize('phenomena') # returns 'phenomenon'
"#
                )
            )
        ))
    );
}

#[test]
fn test_parse_markdown() {
    assert_eq!(
        parse_markdown(r#"And that is all folks!"#),
        Ok((String::from(""),
            vec![Markdown::Line(vec![MarkdownInline::Plaintext(
                String::from("And that is all folks!")
            )])]
        ))
    );

    assert_eq!(
        parse_markdown(r#"# Digitheque Design Inspiration
## A little smaller

### Third level

#### Fourth level


##### Fifth level, what if this was really long and we were able to cross over lines more than once. Lets try tha tby typig a lot here.
In a hole in the ground there lived a hobbit. Not a nasty, dirty, wet hole, filled with the ends of worms and an oozy smell, nor yet a dry, bare, sandy hole with nothing in it to sit down on or to eat: it was a hobbit-hole, and that means comfort.
###### Lowest Level


### Notes

Colors that could be cool are red `#892B39` and linen `#F5F1E6`

International orange is another option: `#FF4F00`

```sql
My codeblock goes here. why does it 

look weird
```
"#),
        Ok((String::from(""),
            vec![
                Markdown::Heading(1, vec![MarkdownInline::Plaintext(String::from("Digitheque Design Inspiration"))]),
                Markdown::Heading(2, vec![MarkdownInline::Plaintext(String::from("A little smaller"))]),
                Markdown::Line(vec![]),
                Markdown::Heading(3, vec![MarkdownInline::Plaintext(String::from("Third level"))]),
                Markdown::Line(vec![]),
                Markdown::Heading(4, vec![MarkdownInline::Plaintext(String::from("Fourth level"))]),
                Markdown::Line(vec![]),
                Markdown::Line(vec![]),
                Markdown::Heading(5, vec![MarkdownInline::Plaintext(String::from("Fifth level, what if this was really long and we were able to cross over lines more than once. Lets try tha tby typig a lot here."))]),
                Markdown::Line(vec![MarkdownInline::Plaintext(String::from("In a hole in the ground there lived a hobbit. Not a nasty, dirty, wet hole, filled with the ends of worms and an oozy smell, nor yet a dry, bare, sandy hole with nothing in it to sit down on or to eat: it was a hobbit-hole, and that means comfort."))]),
                Markdown::Heading(6, vec![MarkdownInline::Plaintext(String::from("Lowest Level"))]),
                Markdown::Line(vec![]),
                Markdown::Line(vec![]),
                Markdown::Heading(3, vec![MarkdownInline::Plaintext(String::from("Notes"))]),
                Markdown::Line(vec![]),
                Markdown::Line(vec![MarkdownInline::Plaintext(String::from("Colors that could be cool are red ")),MarkdownInline::InlineCode(String::from("#892B39")),MarkdownInline::Plaintext(String::from(" and linen ")),MarkdownInline::InlineCode(String::from("#F5F1E6"))]),
            Markdown::Line(vec![]),
            Markdown::Line(vec![MarkdownInline::Plaintext(String::from("International orange is another option: ")),MarkdownInline::InlineCode(String::from("#FF4F00"))]),
            Markdown::Line(vec![]),
            Markdown::Codeblock(String::from("sql"),String::from("My codeblock goes here. why does it \n\nlook weird\n"))
            ]
        ))
    );

    assert_eq!(
        parse_markdown("# Digitheque Design Inspiration\r\n## A little smaller\r\n\r\n### Third level\r\n\r\n#### Fourth level\r\n\r\n\r\n##### Fifth level, what if this was really long and we were able to cross over lines more than once. Lets try tha tby typig a lot here.\r\nIn a hole in the ground there lived a hobbit. Not a nasty, dirty, wet hole, filled with the ends of worms and an oozy smell, nor yet a dry, bare, sandy hole with nothing in it to sit down on or to eat: it was a hobbit-hole, and that means comfort.\r\n###### Lowest Level\r\n\r\n\r\n### Notes\r\n\r\nColors that could be cool are red `#892B39` and linen `#F5F1E6`\r\n\r\nInternational orange is another option: `#FF4F00`\r\n\r\n```sql\r\nMy codeblock goes here. why does it \r\n\r\nlook weird\r\n```\r\n"),
        Ok((String::from(""),
            vec![
                Markdown::Heading(1, vec![MarkdownInline::Plaintext(String::from("Digitheque Design Inspiration"))]),
                Markdown::Heading(2, vec![MarkdownInline::Plaintext(String::from("A little smaller"))]),
                Markdown::Line(vec![]),
                Markdown::Heading(3, vec![MarkdownInline::Plaintext(String::from("Third level"))]),
                Markdown::Line(vec![]),
                Markdown::Heading(4, vec![MarkdownInline::Plaintext(String::from("Fourth level"))]),
                Markdown::Line(vec![]),
                Markdown::Line(vec![]),
                Markdown::Heading(5, vec![MarkdownInline::Plaintext(String::from("Fifth level, what if this was really long and we were able to cross over lines more than once. Lets try tha tby typig a lot here."))]),
                Markdown::Line(vec![MarkdownInline::Plaintext(String::from("In a hole in the ground there lived a hobbit. Not a nasty, dirty, wet hole, filled with the ends of worms and an oozy smell, nor yet a dry, bare, sandy hole with nothing in it to sit down on or to eat: it was a hobbit-hole, and that means comfort."))]),
                Markdown::Heading(6, vec![MarkdownInline::Plaintext(String::from("Lowest Level"))]),
                Markdown::Line(vec![]),
                Markdown::Line(vec![]),
                Markdown::Heading(3, vec![MarkdownInline::Plaintext(String::from("Notes"))]),
                Markdown::Line(vec![]),
                Markdown::Line(vec![MarkdownInline::Plaintext(String::from("Colors that could be cool are red ")),MarkdownInline::InlineCode(String::from("#892B39")),MarkdownInline::Plaintext(String::from(" and linen ")),MarkdownInline::InlineCode(String::from("#F5F1E6"))]),
            Markdown::Line(vec![]),
            Markdown::Line(vec![MarkdownInline::Plaintext(String::from("International orange is another option: ")),MarkdownInline::InlineCode(String::from("#FF4F00"))]),
            Markdown::Line(vec![]),
            Markdown::Codeblock(String::from("sql\r"),String::from("My codeblock goes here. why does it \r\n\r\nlook weird\r\n"))
            ]
        ))
    );

    assert_eq!(
        parse_markdown(
            r#"# Foobar

Foobar is a Python library for dealing with word pluralization.

```bash
pip install foobar
```
## Installation

Use the package manager [pip](https://pip.pypa.io/en/stable/) to install foobar.
```python
import foobar

foobar.pluralize('word') # returns 'words'
foobar.pluralize('goose') # returns 'geese'
foobar.singularize('phenomena') # returns 'phenomenon'
```
And that is all folks!"#
        ),
        Ok((String::from(""),
            vec![
                Markdown::Heading(1, vec![MarkdownInline::Plaintext(String::from("Foobar"))]),
                Markdown::Line(vec![]),
                Markdown::Line(vec![MarkdownInline::Plaintext(String::from(
                    "Foobar is a Python library for dealing with word pluralization."
                ))]),
                Markdown::Line(vec![]),
                Markdown::Codeblock(String::from("bash"), String::from("pip install foobar\n")),
                Markdown::Heading(
                    2,
                    vec![MarkdownInline::Plaintext(String::from("Installation"))]
                ),
                Markdown::Line(vec![]),
                Markdown::Line(vec![
                    MarkdownInline::Plaintext(String::from("Use the package manager ")),
                    MarkdownInline::Link(
                        String::from("pip"),
                        String::from("https://pip.pypa.io/en/stable/")
                    ),
                    MarkdownInline::Plaintext(String::from(" to install foobar.")),
                ]),
                Markdown::Codeblock(
                    String::from("python"),
                    String::from(
                        r#"import foobar

foobar.pluralize('word') # returns 'words'
foobar.pluralize('goose') # returns 'geese'
foobar.singularize('phenomena') # returns 'phenomenon'
"#
                    )
                ),
                Markdown::Line(vec![MarkdownInline::Plaintext(String::from(
                    "And that is all folks!"
                ))])
            ]
        ))
    )
}
