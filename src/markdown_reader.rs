//! The markdown reader: a document read into blocks of inline text.
//!
//! Each reader takes the text and a position and returns what it read and
//! where it stopped, or the position and kind of the step that failed. A
//! sequence of steps fails with its first failing step; a choice between
//! readers takes the first that succeeds, and fails as its last one does.
use vstd::prelude::*;
use crate::markdown::{
    BlockV, HtmlString, InlineV, LispString, Markdown, MarkdownInline, MarkdownText, doc_html,
    doc_lisp, text_view, texts_view,
};
use crate::print::{chars_of, string_of};
use vstd::string::StringExecFns;

verus! {

/// The kind of step that failed.
#[derive(Clone, Copy, Debug, PartialEq, Eq, Structural)]
pub enum MdCode {
    /// A fixed text was not there.
    Tag,
    /// A run of characters outside a stop set was empty.
    IsNot,
    /// A run of characters of a class was empty.
    TakeWhile1,
    /// Plain text was empty.
    Not,
    /// A repetition stopped advancing.
    Many0,
    /// A repetition of at least one stopped advancing.
    Many1,
}

/// A failure: the text from the failing position on, and the kind of step.
#[derive(Debug, PartialEq, Eq)]
pub struct MdError {
    pub input: String,
    pub code: MdCode,
}

pub type MdFail = (int, MdCode);

/// Character classes of runs.
#[derive(Clone, Copy, Debug, PartialEq, Eq, Structural)]
pub enum Class {
    /// Any character but this one.
    Not(char),
    Hash,
    /// A character whose low byte is an ASCII digit.
    Digit,
    /// A character whose low byte is not a line feed.
    NotNewline,
}

/// Which list a list item belongs to.
#[derive(Clone, Copy, Debug, PartialEq, Eq, Structural)]
pub enum ListKind {
    Unordered,
    Ordered,
}

pub open spec fn in_class(c: char, k: Class) -> bool {
    match k {
        Class::Not(x) => c != x,
        Class::Hash => c == '#',
        Class::Digit => 48 <= (c as u32) % 256 <= 57,
        Class::NotNewline => (c as u32) % 256 != 10,
    }
}

/// The end of the run of class `k` starting at `i`.
pub open spec fn run_end(s: Seq<char>, i: int, k: Class) -> int
    decreases s.len() - i,
{
    if 0 <= i < s.len() && in_class(s[i], k) {
        run_end(s, i + 1, k)
    } else {
        i
    }
}

/// A run of at least one character of class `k`.
pub open spec fn run1(s: Seq<char>, i: int, k: Class, code: MdCode) -> Result<int, MdFail> {
    let e = run_end(s, i, k);
    if e <= i {
        Err((i, code))
    } else {
        Ok(e)
    }
}

/// The fixed text `t` at `i`.
pub open spec fn tag(s: Seq<char>, i: int, t: Seq<char>) -> Result<int, MdFail> {
    if 0 <= i && i + t.len() <= s.len() && s.subrange(i, i + t.len()) == t {
        Ok(i + t.len())
    } else {
        Err((i, MdCode::Tag))
    }
}

/// `open`, then a non-empty run without `stop`, then `close`: the run.
pub open spec fn delimited(
    s: Seq<char>,
    i: int,
    open: Seq<char>,
    stop: char,
    close: Seq<char>,
) -> Result<(Seq<char>, int), MdFail> {
    match tag(s, i, open) {
        Err(e) => Err(e),
        Ok(a) => match run1(s, a, Class::Not(stop), MdCode::IsNot) {
            Err(e) => Err(e),
            Ok(b) => match tag(s, b, close) {
                Err(e) => Err(e),
                Ok(c) => Ok((s.subrange(a, b), c)),
            },
        },
    }
}

pub open spec fn bold_spec(s: Seq<char>, i: int) -> Result<(InlineV, int), MdFail> {
    match delimited(s, i, seq!['*', '*'], '*', seq!['*', '*']) {
        Err(e) => Err(e),
        Ok((t, j)) => Ok((InlineV::Bold(t), j)),
    }
}

pub open spec fn italic_spec(s: Seq<char>, i: int) -> Result<(InlineV, int), MdFail> {
    match delimited(s, i, seq!['*'], '*', seq!['*']) {
        Err(e) => Err(e),
        Ok((t, j)) => Ok((InlineV::Italic(t), j)),
    }
}

pub open spec fn code_spec(s: Seq<char>, i: int) -> Result<(InlineV, int), MdFail> {
    match delimited(s, i, seq!['`'], '`', seq!['`']) {
        Err(e) => Err(e),
        Ok((t, j)) => Ok((InlineV::InlineCode(t), j)),
    }
}

/// `[text](target)`, or `![text](target)` when `image`.
pub open spec fn link_spec(s: Seq<char>, i: int, image: bool) -> Result<(InlineV, int), MdFail> {
    let open = if image {
        seq!['!', '[']
    } else {
        seq!['[']
    };
    match delimited(s, i, open, ']', seq![']']) {
        Err(e) => Err(e),
        Ok((t, j)) => match delimited(s, j, seq!['('], ')', seq![')']) {
            Err(e) => Err(e),
            Ok((h, k)) => Ok((
                if image {
                    InlineV::Image(t, h)
                } else {
                    InlineV::Link(t, h)
                },
                k,
            )),
        },
    }
}

/// A line break: `\r\n` or `\n`.
pub open spec fn newline_spec(s: Seq<char>, i: int) -> Result<int, MdFail> {
    match tag(s, i, seq!['\r', '\n']) {
        Ok(j) => Ok(j),
        Err(_) => tag(s, i, seq!['\n']),
    }
}

/// Where plain text stops: before emphasis, code, an image, a link, a line
/// break, or the end.
pub open spec fn stops_at(s: Seq<char>, i: int) -> bool {
    ||| bold_spec(s, i) is Ok
    ||| italic_spec(s, i) is Ok
    ||| code_spec(s, i) is Ok
    ||| link_spec(s, i, true) is Ok
    ||| link_spec(s, i, false) is Ok
    ||| newline_spec(s, i) is Ok
    ||| i >= s.len()
}

pub open spec fn plain_end(s: Seq<char>, i: int) -> int
    decreases s.len() - i,
{
    if i >= s.len() || stops_at(s, i) {
        i
    } else {
        plain_end(s, i + 1)
    }
}

pub open spec fn plaintext_spec(s: Seq<char>, i: int) -> Result<(InlineV, int), MdFail> {
    let e = plain_end(s, i);
    if e <= i {
        Err((i, MdCode::Not))
    } else {
        Ok((InlineV::Plaintext(s.subrange(i, e)), e))
    }
}

pub open spec fn inline_spec(s: Seq<char>, i: int) -> Result<(InlineV, int), MdFail> {
    if italic_spec(s, i) is Ok {
        italic_spec(s, i)
    } else if code_spec(s, i) is Ok {
        code_spec(s, i)
    } else if bold_spec(s, i) is Ok {
        bold_spec(s, i)
    } else if link_spec(s, i, true) is Ok {
        link_spec(s, i, true)
    } else if link_spec(s, i, false) is Ok {
        link_spec(s, i, false)
    } else {
        plaintext_spec(s, i)
    }
}

/// Inline elements for as long as they read.
pub open spec fn inlines_spec(s: Seq<char>, i: int) -> Result<(Seq<InlineV>, int), MdFail>
    decreases s.len() - i,
{
    match inline_spec(s, i) {
        Err(_) => Ok((Seq::empty(), i)),
        Ok((v, j)) => if j <= i || j > s.len() {
            Err((i, MdCode::Many0))
        } else {
            match inlines_spec(s, j) {
                Err(e) => Err(e),
                Ok((vs, k)) => Ok((seq![v] + vs, k)),
            }
        },
    }
}

/// Inline elements, then a line break.
pub open spec fn text_spec(s: Seq<char>, i: int) -> Result<(Seq<InlineV>, int), MdFail> {
    match inlines_spec(s, i) {
        Err(e) => Err(e),
        Ok((vs, k)) => match newline_spec(s, k) {
            Err(e) => Err(e),
            Ok(m) => Ok((vs, m)),
        },
    }
}

/// `#`s then a space: the number of `#`s.
pub open spec fn header_tag_spec(s: Seq<char>, i: int) -> Result<(int, int), MdFail> {
    match run1(s, i, Class::Hash, MdCode::TakeWhile1) {
        Err(e) => Err(e),
        Ok(e) => match tag(s, e, seq![' ']) {
            Err(f) => Err(f),
            Ok(m) => Ok((e - i, m)),
        },
    }
}

pub open spec fn header_spec(s: Seq<char>, i: int) -> Result<((int, Seq<InlineV>), int), MdFail> {
    match header_tag_spec(s, i) {
        Err(e) => Err(e),
        Ok((n, j)) => match text_spec(s, j) {
            Err(e) => Err(e),
            Ok((t, k)) => Ok(((n, t), k)),
        },
    }
}

/// The marker of a list item: `- `, or digits then `. `; the `-` or the digits.
pub open spec fn list_tag_spec(s: Seq<char>, i: int, kind: ListKind) -> Result<
    (Seq<char>, int),
    MdFail,
> {
    match kind {
        ListKind::Unordered => match tag(s, i, seq!['-']) {
            Err(e) => Err(e),
            Ok(a) => match tag(s, a, seq![' ']) {
                Err(e) => Err(e),
                Ok(b) => Ok((seq!['-'], b)),
            },
        },
        ListKind::Ordered => match run1(s, i, Class::Digit, MdCode::TakeWhile1) {
            Err(e) => Err(e),
            Ok(e) => match tag(s, e, seq!['.']) {
                Err(f) => Err(f),
                Ok(a) => match tag(s, a, seq![' ']) {
                    Err(f) => Err(f),
                    Ok(b) => Ok((s.subrange(i, e), b)),
                },
            },
        },
    }
}

pub open spec fn item_spec(s: Seq<char>, i: int, kind: ListKind) -> Result<
    (Seq<InlineV>, int),
    MdFail,
> {
    match list_tag_spec(s, i, kind) {
        Err(e) => Err(e),
        Ok((_, j)) => text_spec(s, j),
    }
}

/// Further items, for as long as they read.
pub open spec fn more_items_spec(s: Seq<char>, i: int, kind: ListKind) -> Result<
    (Seq<Seq<InlineV>>, int),
    MdFail,
>
    decreases s.len() - i,
{
    match item_spec(s, i, kind) {
        Err(_) => Ok((Seq::empty(), i)),
        Ok((v, j)) => if j <= i || j > s.len() {
            Err((i, MdCode::Many1))
        } else {
            match more_items_spec(s, j, kind) {
                Err(e) => Err(e),
                Ok((vs, k)) => Ok((seq![v] + vs, k)),
            }
        },
    }
}

/// One or more items.
pub open spec fn list_spec(s: Seq<char>, i: int, kind: ListKind) -> Result<
    (Seq<Seq<InlineV>>, int),
    MdFail,
> {
    match item_spec(s, i, kind) {
        Err(e) => Err(e),
        Ok((v, j)) => if j <= i || j > s.len() {
            Err((i, MdCode::Many1))
        } else {
            match more_items_spec(s, j, kind) {
                Err(e) => Err(e),
                Ok((vs, k)) => Ok((seq![v] + vs, k)),
            }
        },
    }
}

pub open spec fn fence() -> Seq<char> {
    seq!['`', '`', '`']
}

/// The language name after an opening fence, `__UNKNOWN__` without one.
pub open spec fn lang_spec(s: Seq<char>, i: int) -> Result<(Seq<char>, int), MdFail> {
    match tag(s, i, fence()) {
        Err(e) => Err(e),
        Ok(a) => match run1(s, a, Class::NotNewline, MdCode::TakeWhile1) {
            Ok(e) => Ok((s.subrange(a, e), e)),
            Err(_) => Ok(("__UNKNOWN__"@, a)),
        },
    }
}

/// A line break, the code up to the closing fence, the fence, and the end
/// or a line break.
pub open spec fn body_spec(s: Seq<char>, i: int) -> Result<(Seq<char>, int), MdFail> {
    match newline_spec(s, i) {
        Err(e) => Err(e),
        Ok(a) => match run1(s, a, Class::Not('`'), MdCode::IsNot) {
            Err(e) => Err(e),
            Ok(b) => match tag(s, b, fence()) {
                Err(e) => Err(e),
                Ok(c) => if c >= s.len() {
                    Ok((s.subrange(a, b), c))
                } else {
                    match newline_spec(s, c) {
                        Err(e) => Err(e),
                        Ok(d) => Ok((s.subrange(a, b), d)),
                    }
                },
            },
        },
    }
}

pub open spec fn code_block_spec(s: Seq<char>, i: int) -> Result<
    ((Seq<char>, Seq<char>), int),
    MdFail,
> {
    match lang_spec(s, i) {
        Err(e) => Err(e),
        Ok((l, j)) => match body_spec(s, j) {
            Err(e) => Err(e),
            Ok((b, k)) => Ok(((l, b), k)),
        },
    }
}

/// `|source|`: source text of the language, passed through.
pub open spec fn lisp_spec(s: Seq<char>, i: int) -> Result<(Seq<char>, int), MdFail> {
    delimited(s, i, seq!['|'], '|', seq!['|'])
}

pub open spec fn block_spec(s: Seq<char>, i: int) -> Result<(BlockV, int), MdFail> {
    if header_spec(s, i) is Ok {
        let ((n, t), j) = header_spec(s, i)->Ok_0;
        Ok((BlockV::Heading(n, t), j))
    } else if list_spec(s, i, ListKind::Unordered) is Ok {
        let (ts, j) = list_spec(s, i, ListKind::Unordered)->Ok_0;
        Ok((BlockV::UnorderedList(ts), j))
    } else if list_spec(s, i, ListKind::Ordered) is Ok {
        let (ts, j) = list_spec(s, i, ListKind::Ordered)->Ok_0;
        Ok((BlockV::OrderedList(ts), j))
    } else if code_block_spec(s, i) is Ok {
        let ((l, b), j) = code_block_spec(s, i)->Ok_0;
        Ok((BlockV::Codeblock(l, b), j))
    } else if lisp_spec(s, i) is Ok {
        let (l, j) = lisp_spec(s, i)->Ok_0;
        Ok((BlockV::Lisp(l), j))
    } else if text_spec(s, i) is Ok {
        let (t, j) = text_spec(s, i)->Ok_0;
        Ok((BlockV::Line(t), j))
    } else {
        match inline_spec(s, i) {
            Err(e) => Err(e),
            Ok((v, j)) => Ok((BlockV::Line(seq![v]), j)),
        }
    }
}

pub open spec fn more_blocks_spec(s: Seq<char>, i: int) -> Result<(Seq<BlockV>, int), MdFail>
    decreases s.len() - i,
{
    match block_spec(s, i) {
        Err(_) => Ok((Seq::empty(), i)),
        Ok((v, j)) => if j <= i || j > s.len() {
            Err((i, MdCode::Many1))
        } else {
            match more_blocks_spec(s, j) {
                Err(e) => Err(e),
                Ok((vs, k)) => Ok((seq![v] + vs, k)),
            }
        },
    }
}

/// A document: one or more blocks.
pub open spec fn document_spec(s: Seq<char>, i: int) -> Result<(Seq<BlockV>, int), MdFail> {
    match block_spec(s, i) {
        Err(e) => Err(e),
        Ok((v, j)) => if j <= i || j > s.len() {
            Err((i, MdCode::Many1))
        } else {
            match more_blocks_spec(s, j) {
                Err(e) => Err(e),
                Ok((vs, k)) => Ok((seq![v] + vs, k)),
            }
        },
    }
}


// ---------------------------------------------------------------------------
// Reading

/// `items` followed by what the rest of a repetition reads to.
pub open spec fn prepend<T>(items: Seq<T>, rest: Result<(Seq<T>, int), MdFail>) -> Result<
    (Seq<T>, int),
    MdFail,
> {
    match rest {
        Ok((vs, k)) => Ok((items + vs, k)),
        Err(x) => Err(x),
    }
}

pub open spec fn blocks_view(bs: Seq<Markdown>) -> Seq<BlockV> {
    bs.map_values(|b: Markdown| b@)
}

fn in_class_exec(c: char, k: Class) -> (r: bool)
    ensures
        r == in_class(c, k),
{
    match k {
        Class::Not(x) => c != x,
        Class::Hash => c == '#',
        Class::Digit => {
            let b = (c as u32) % 256;
            48 <= b && b <= 57
        },
        Class::NotNewline => (c as u32) % 256 != 10,
    }
}

fn run_end_exec(s: &Vec<char>, i: usize, k: Class) -> (r: usize)
    requires
        i <= s.len(),
    ensures
        r == run_end(s@, i as int, k),
        i <= r <= s.len(),
{
    let mut p = i;
    while p < s.len() && in_class_exec(s[p], k)
        invariant
            i <= p <= s.len(),
            run_end(s@, p as int, k) == run_end(s@, i as int, k),
        decreases s.len() - p,
    {
        p += 1;
    }
    p
}

fn run1_exec(s: &Vec<char>, i: usize, k: Class, code: MdCode) -> (r: Result<usize, (usize, MdCode)>)
    requires
        i <= s.len(),
    ensures
        match run1(s@, i as int, k, code) {
            Ok(e) => r matches Ok(x) && x == e && x <= s.len(),
            Err((p, c)) => r matches Err((q, d)) && q == p && d == c && q <= s.len(),
        },
{
    let e = run_end_exec(s, i, k);
    if e <= i {
        Err((i, code))
    } else {
        Ok(e)
    }
}

fn tag_exec(s: &Vec<char>, i: usize, t: &Vec<char>) -> (r: Result<usize, (usize, MdCode)>)
    requires
        i <= s.len(),
    ensures
        match tag(s@, i as int, t@) {
            Ok(e) => r matches Ok(x) && x == e && x <= s.len(),
            Err((p, c)) => r matches Err((q, d)) && q == p && d == c && q <= s.len(),
        },
{
    if t.len() > s.len() - i {
        return Err((i, MdCode::Tag));
    }
    let mut k: usize = 0;
    while k < t.len()
        invariant
            k <= t.len(),
            i + t.len() <= s.len(),
            forall|m: int| 0 <= m < k ==> #[trigger] s@[i + m] == t@[m],
        decreases t.len() - k,
    {
        if s[i + k] != t[k] {
            assert(s@.subrange(i as int, i + t.len())[k as int] != t@[k as int]);
            return Err((i, MdCode::Tag));
        }
        k += 1;
    }
    assert forall|m: int| 0 <= m < t.len() implies #[trigger] s@.subrange(i as int, i + t.len())[m]
        == t@[m] by {
        assert(s@[i + m] == t@[m]);
    }
    assert(s@.subrange(i as int, i + t.len()) =~= t@);
    Ok(i + t.len())
}

fn chars1(a: char) -> (r: Vec<char>)
    ensures
        r@ == seq![a],
{
    let mut r: Vec<char> = Vec::new();
    r.push(a);
    assert(r@ =~= seq![a]);
    r
}

fn chars2(a: char, b: char) -> (r: Vec<char>)
    ensures
        r@ == seq![a, b],
{
    let mut r: Vec<char> = Vec::new();
    r.push(a);
    r.push(b);
    assert(r@ =~= seq![a, b]);
    r
}

fn fence_exec() -> (r: Vec<char>)
    ensures
        r@ == fence(),
{
    let mut r: Vec<char> = Vec::new();
    r.push('`');
    r.push('`');
    r.push('`');
    assert(r@ =~= fence());
    r
}

fn delimited_exec(s: &Vec<char>, i: usize, open: &Vec<char>, stop: char, close: &Vec<char>) -> (r:
    Result<(String, usize), (usize, MdCode)>)
    requires
        i <= s.len(),
    ensures
        match delimited(s@, i as int, open@, stop, close@) {
            Ok((t, j)) => r matches Ok((x, k)) && x@ == t && k == j && k <= s.len(),
            Err((p, c)) => r matches Err((q, d)) && q == p && d == c && q <= s.len(),
        },
{
    let a = match tag_exec(s, i, open) {
        Ok(a) => a,
        Err(e) => {
            return Err(e);
        },
    };
    let b = match run1_exec(s, a, Class::Not(stop), MdCode::IsNot) {
        Ok(b) => b,
        Err(e) => {
            return Err(e);
        },
    };
    let c = match tag_exec(s, b, close) {
        Ok(c) => c,
        Err(e) => {
            return Err(e);
        },
    };
    Ok((crate::parser::text_of_range(s, a, b), c))
}

fn bold_exec(s: &Vec<char>, i: usize) -> (r: Result<(MarkdownInline, usize), (usize, MdCode)>)
    requires
        i <= s.len(),
    ensures
        match bold_spec(s@, i as int) {
            Ok((v, j)) => r matches Ok((x, k)) && x@ == v && k == j && k <= s.len(),
            Err((p, c)) => r matches Err((q, d)) && q == p && d == c && q <= s.len(),
        },
{
    match delimited_exec(s, i, &chars2('*', '*'), '*', &chars2('*', '*')) {
        Ok((t, j)) => Ok((MarkdownInline::Bold(t), j)),
        Err(e) => Err(e),
    }
}

fn italic_exec(s: &Vec<char>, i: usize) -> (r: Result<(MarkdownInline, usize), (usize, MdCode)>)
    requires
        i <= s.len(),
    ensures
        match italic_spec(s@, i as int) {
            Ok((v, j)) => r matches Ok((x, k)) && x@ == v && k == j && k <= s.len(),
            Err((p, c)) => r matches Err((q, d)) && q == p && d == c && q <= s.len(),
        },
{
    match delimited_exec(s, i, &chars1('*'), '*', &chars1('*')) {
        Ok((t, j)) => Ok((MarkdownInline::Italic(t), j)),
        Err(e) => Err(e),
    }
}

fn code_exec(s: &Vec<char>, i: usize) -> (r: Result<(MarkdownInline, usize), (usize, MdCode)>)
    requires
        i <= s.len(),
    ensures
        match code_spec(s@, i as int) {
            Ok((v, j)) => r matches Ok((x, k)) && x@ == v && k == j && k <= s.len(),
            Err((p, c)) => r matches Err((q, d)) && q == p && d == c && q <= s.len(),
        },
{
    match delimited_exec(s, i, &chars1('`'), '`', &chars1('`')) {
        Ok((t, j)) => Ok((MarkdownInline::InlineCode(t), j)),
        Err(e) => Err(e),
    }
}

fn link_exec(s: &Vec<char>, i: usize, image: bool) -> (r: Result<
    (MarkdownInline, usize),
    (usize, MdCode),
>)
    requires
        i <= s.len(),
    ensures
        match link_spec(s@, i as int, image) {
            Ok((v, j)) => r matches Ok((x, k)) && x@ == v && k == j && k <= s.len(),
            Err((p, c)) => r matches Err((q, d)) && q == p && d == c && q <= s.len(),
        },
{
    let open = if image {
        chars2('!', '[')
    } else {
        chars1('[')
    };
    let (t, j) = match delimited_exec(s, i, &open, ']', &chars1(']')) {
        Ok(x) => x,
        Err(e) => {
            return Err(e);
        },
    };
    let (h, k) = match delimited_exec(s, j, &chars1('('), ')', &chars1(')')) {
        Ok(x) => x,
        Err(e) => {
            return Err(e);
        },
    };
    if image {
        Ok((MarkdownInline::Image(t, h), k))
    } else {
        Ok((MarkdownInline::Link(t, h), k))
    }
}

fn newline_exec(s: &Vec<char>, i: usize) -> (r: Result<usize, (usize, MdCode)>)
    requires
        i <= s.len(),
    ensures
        match newline_spec(s@, i as int) {
            Ok(e) => r matches Ok(x) && x == e && x <= s.len(),
            Err((p, c)) => r matches Err((q, d)) && q == p && d == c && q <= s.len(),
        },
{
    match tag_exec(s, i, &chars2('\r', '\n')) {
        Ok(j) => Ok(j),
        Err(_) => tag_exec(s, i, &chars1('\n')),
    }
}

fn stops_at_exec(s: &Vec<char>, i: usize) -> (r: bool)
    requires
        i <= s.len(),
    ensures
        r == stops_at(s@, i as int),
{
    bold_exec(s, i).is_ok() || italic_exec(s, i).is_ok() || code_exec(s, i).is_ok() || link_exec(
        s,
        i,
        true,
    ).is_ok() || link_exec(s, i, false).is_ok() || newline_exec(s, i).is_ok() || i >= s.len()
}

fn plaintext_exec(s: &Vec<char>, i: usize) -> (r: Result<(MarkdownInline, usize), (usize, MdCode)>)
    requires
        i <= s.len(),
    ensures
        match plaintext_spec(s@, i as int) {
            Ok((v, j)) => r matches Ok((x, k)) && x@ == v && k == j && k <= s.len(),
            Err((p, c)) => r matches Err((q, d)) && q == p && d == c && q <= s.len(),
        },
{
    let mut e = i;
    while e < s.len() && !stops_at_exec(s, e)
        invariant
            i <= e <= s.len(),
            plain_end(s@, e as int) == plain_end(s@, i as int),
        decreases s.len() - e,
    {
        e += 1;
    }
    if e <= i {
        Err((i, MdCode::Not))
    } else {
        Ok((MarkdownInline::Plaintext(crate::parser::text_of_range(s, i, e)), e))
    }
}

fn inline_exec(s: &Vec<char>, i: usize) -> (r: Result<(MarkdownInline, usize), (usize, MdCode)>)
    requires
        i <= s.len(),
    ensures
        match inline_spec(s@, i as int) {
            Ok((v, j)) => r matches Ok((x, k)) && x@ == v && k == j && k <= s.len(),
            Err((p, c)) => r matches Err((q, d)) && q == p && d == c && q <= s.len(),
        },
{
    let r = italic_exec(s, i);
    if r.is_ok() {
        return r;
    }
    let r = code_exec(s, i);
    if r.is_ok() {
        return r;
    }
    let r = bold_exec(s, i);
    if r.is_ok() {
        return r;
    }
    let r = link_exec(s, i, true);
    if r.is_ok() {
        return r;
    }
    let r = link_exec(s, i, false);
    if r.is_ok() {
        return r;
    }
    plaintext_exec(s, i)
}

fn text_exec(s: &Vec<char>, i: usize) -> (r: Result<(MarkdownText, usize), (usize, MdCode)>)
    requires
        i <= s.len(),
    ensures
        match text_spec(s@, i as int) {
            Ok((v, j)) => r matches Ok((x, k)) && text_view(x@) == v && k == j && k <= s.len(),
            Err((p, c)) => r matches Err((q, d)) && q == p && d == c && q <= s.len(),
        },
{
    let ghost target = inlines_spec(s@, i as int);
    let mut items: Vec<MarkdownInline> = Vec::new();
    let mut pos = i;
    assert(prepend(text_view(items@), inlines_spec(s@, pos as int)) =~= target) by {
        assert(text_view(items@) =~= Seq::<InlineV>::empty());
        match inlines_spec(s@, pos as int) {
            Ok((vs, k)) => {
                assert(Seq::<InlineV>::empty() + vs =~= vs);
            },
            Err(_) => {},
        }
    }
    loop
        invariant
            i <= pos <= s.len(),
            target == inlines_spec(s@, i as int),
            prepend(text_view(items@), inlines_spec(s@, pos as int)) == target,
        decreases s.len() - pos,
    {
        match inline_exec(s, pos) {
            Err(_) => {
                assert(text_view(items@) + Seq::<InlineV>::empty() =~= text_view(items@));
                return match newline_exec(s, pos) {
                    Ok(m) => Ok((items, m)),
                    Err(e) => Err(e),
                };
            },
            Ok((v, j)) => {
                if j <= pos || j > s.len() {
                    return Err((pos, MdCode::Many0));
                }
                let ghost before = text_view(items@);
                items.push(v);
                proof {
                    assert(text_view(items@) =~= before.push(v@));
                    match inlines_spec(s@, j as int) {
                        Ok((vs, k)) => {
                            assert(before + (seq![v@] + vs) =~= before.push(v@) + vs);
                        },
                        Err(_) => {},
                    }
                }
                pos = j;
            },
        }
    }
}

fn header_tag_exec(s: &Vec<char>, i: usize) -> (r: Result<(usize, usize), (usize, MdCode)>)
    requires
        i <= s.len(),
    ensures
        match header_tag_spec(s@, i as int) {
            Ok((n, j)) => r matches Ok((x, k)) && x == n && k == j && k <= s.len(),
            Err((p, c)) => r matches Err((q, d)) && q == p && d == c && q <= s.len(),
        },
{
    let e = match run1_exec(s, i, Class::Hash, MdCode::TakeWhile1) {
        Ok(e) => e,
        Err(x) => {
            return Err(x);
        },
    };
    match tag_exec(s, e, &chars1(' ')) {
        Ok(m) => Ok((e - i, m)),
        Err(x) => Err(x),
    }
}

fn header_exec(s: &Vec<char>, i: usize) -> (r: Result<((usize, MarkdownText), usize), (usize, MdCode)>)
    requires
        i <= s.len(),
    ensures
        match header_spec(s@, i as int) {
            Ok(((n, t), j)) => r matches Ok(((x, y), k)) && x == n && text_view(y@) == t && k == j
                && k <= s.len(),
            Err((p, c)) => r matches Err((q, d)) && q == p && d == c && q <= s.len(),
        },
{
    let (n, j) = match header_tag_exec(s, i) {
        Ok(x) => x,
        Err(e) => {
            return Err(e);
        },
    };
    match text_exec(s, j) {
        Ok((t, k)) => Ok(((n, t), k)),
        Err(e) => Err(e),
    }
}

fn list_tag_exec(s: &Vec<char>, i: usize, kind: ListKind) -> (r: Result<
    (String, usize),
    (usize, MdCode),
>)
    requires
        i <= s.len(),
    ensures
        match list_tag_spec(s@, i as int, kind) {
            Ok((t, j)) => r matches Ok((x, k)) && x@ == t && k == j && k <= s.len(),
            Err((p, c)) => r matches Err((q, d)) && q == p && d == c && q <= s.len(),
        },
{
    match kind {
        ListKind::Unordered => {
            let a = match tag_exec(s, i, &chars1('-')) {
                Ok(a) => a,
                Err(e) => {
                    return Err(e);
                },
            };
            match tag_exec(s, a, &chars1(' ')) {
                Ok(b) => Ok((string_of(&chars1('-')), b)),
                Err(e) => Err(e),
            }
        },
        ListKind::Ordered => {
            let e = match run1_exec(s, i, Class::Digit, MdCode::TakeWhile1) {
                Ok(e) => e,
                Err(x) => {
                    return Err(x);
                },
            };
            let a = match tag_exec(s, e, &chars1('.')) {
                Ok(a) => a,
                Err(x) => {
                    return Err(x);
                },
            };
            match tag_exec(s, a, &chars1(' ')) {
                Ok(b) => Ok((crate::parser::text_of_range(s, i, e), b)),
                Err(x) => Err(x),
            }
        },
    }
}

fn item_exec(s: &Vec<char>, i: usize, kind: ListKind) -> (r: Result<
    (MarkdownText, usize),
    (usize, MdCode),
>)
    requires
        i <= s.len(),
    ensures
        match item_spec(s@, i as int, kind) {
            Ok((v, j)) => r matches Ok((x, k)) && text_view(x@) == v && k == j && k <= s.len(),
            Err((p, c)) => r matches Err((q, d)) && q == p && d == c && q <= s.len(),
        },
{
    match list_tag_exec(s, i, kind) {
        Ok((_, j)) => text_exec(s, j),
        Err(e) => Err(e),
    }
}

#[verifier::rlimit(60)]
fn list_exec(s: &Vec<char>, i: usize, kind: ListKind) -> (r: Result<
    (Vec<MarkdownText>, usize),
    (usize, MdCode),
>)
    requires
        i <= s.len(),
    ensures
        match list_spec(s@, i as int, kind) {
            Ok((v, j)) => r matches Ok((x, k)) && texts_view(x@) == v && k == j && k <= s.len(),
            Err((p, c)) => r matches Err((q, d)) && q == p && d == c && q <= s.len(),
        },
{
    let (first, j0) = match item_exec(s, i, kind) {
        Ok(x) => x,
        Err(e) => {
            return Err(e);
        },
    };
    if j0 <= i || j0 > s.len() {
        return Err((i, MdCode::Many1));
    }
    let ghost target = more_items_spec(s@, j0 as int, kind);
    let mut items: Vec<MarkdownText> = Vec::new();
    let ghost first_view = text_view(first@);
    items.push(first);
    let mut pos = j0;
    assert(texts_view(items@) =~= seq![first_view]);
    loop
        invariant
            i < j0 <= pos <= s.len(),
            target == more_items_spec(s@, j0 as int, kind),
            prepend(texts_view(items@), more_items_spec(s@, pos as int, kind)) == prepend(
                seq![first_view],
                target,
            ),
            list_spec(s@, i as int, kind) == prepend(seq![first_view], target),
        decreases s.len() - pos,
    {
        match item_exec(s, pos, kind) {
            Err(_) => {
                assert(texts_view(items@) + Seq::<Seq<InlineV>>::empty() =~= texts_view(items@));
                return Ok((items, pos));
            },
            Ok((v, j)) => {
                if j <= pos || j > s.len() {
                    return Err((pos, MdCode::Many1));
                }
                let ghost before = texts_view(items@);
                let ghost vv = text_view(v@);
                items.push(v);
                proof {
                    assert(texts_view(items@) =~= before.push(vv));
                    match more_items_spec(s@, j as int, kind) {
                        Ok((vs, k)) => {
                            assert(before + (seq![vv] + vs) =~= before.push(vv) + vs);
                        },
                        Err(_) => {},
                    }
                }
                pos = j;
            },
        }
    }
}

fn lang_exec(s: &Vec<char>, i: usize) -> (r: Result<(String, usize), (usize, MdCode)>)
    requires
        i <= s.len(),
    ensures
        match lang_spec(s@, i as int) {
            Ok((t, j)) => r matches Ok((x, k)) && x@ == t && k == j && k <= s.len(),
            Err((p, c)) => r matches Err((q, d)) && q == p && d == c && q <= s.len(),
        },
{
    let a = match tag_exec(s, i, &fence_exec()) {
        Ok(a) => a,
        Err(e) => {
            return Err(e);
        },
    };
    match run1_exec(s, a, Class::NotNewline, MdCode::TakeWhile1) {
        Ok(e) => Ok((crate::parser::text_of_range(s, a, e), e)),
        Err(_) => Ok((String::from_str("__UNKNOWN__"), a)),
    }
}

fn body_exec(s: &Vec<char>, i: usize) -> (r: Result<(String, usize), (usize, MdCode)>)
    requires
        i <= s.len(),
    ensures
        match body_spec(s@, i as int) {
            Ok((t, j)) => r matches Ok((x, k)) && x@ == t && k == j && k <= s.len(),
            Err((p, c)) => r matches Err((q, d)) && q == p && d == c && q <= s.len(),
        },
{
    let a = match newline_exec(s, i) {
        Ok(a) => a,
        Err(e) => {
            return Err(e);
        },
    };
    let b = match run1_exec(s, a, Class::Not('`'), MdCode::IsNot) {
        Ok(b) => b,
        Err(e) => {
            return Err(e);
        },
    };
    let c = match tag_exec(s, b, &fence_exec()) {
        Ok(c) => c,
        Err(e) => {
            return Err(e);
        },
    };
    if c >= s.len() {
        return Ok((crate::parser::text_of_range(s, a, b), c));
    }
    match newline_exec(s, c) {
        Ok(d) => Ok((crate::parser::text_of_range(s, a, b), d)),
        Err(e) => Err(e),
    }
}

fn code_block_exec(s: &Vec<char>, i: usize) -> (r: Result<((String, String), usize), (usize, MdCode)>)
    requires
        i <= s.len(),
    ensures
        match code_block_spec(s@, i as int) {
            Ok(((l, b), j)) => r matches Ok(((x, y), k)) && x@ == l && y@ == b && k == j && k
                <= s.len(),
            Err((p, c)) => r matches Err((q, d)) && q == p && d == c && q <= s.len(),
        },
{
    let (l, j) = match lang_exec(s, i) {
        Ok(x) => x,
        Err(e) => {
            return Err(e);
        },
    };
    match body_exec(s, j) {
        Ok((b, k)) => Ok(((l, b), k)),
        Err(e) => Err(e),
    }
}

fn lisp_exec(s: &Vec<char>, i: usize) -> (r: Result<(String, usize), (usize, MdCode)>)
    requires
        i <= s.len(),
    ensures
        match lisp_spec(s@, i as int) {
            Ok((t, j)) => r matches Ok((x, k)) && x@ == t && k == j && k <= s.len(),
            Err((p, c)) => r matches Err((q, d)) && q == p && d == c && q <= s.len(),
        },
{
    delimited_exec(s, i, &chars1('|'), '|', &chars1('|'))
}

fn block_exec(s: &Vec<char>, i: usize) -> (r: Result<(Markdown, usize), (usize, MdCode)>)
    requires
        i <= s.len(),
    ensures
        match block_spec(s@, i as int) {
            Ok((v, j)) => r matches Ok((x, k)) && x@ == v && k == j && k <= s.len(),
            Err((p, c)) => r matches Err((q, d)) && q == p && d == c && q <= s.len(),
        },
{
    if let Ok(((n, t), j)) = header_exec(s, i) {
        return Ok((Markdown::Heading(n, t), j));
    }
    if let Ok((ts, j)) = list_exec(s, i, ListKind::Unordered) {
        return Ok((Markdown::UnorderedList(ts), j));
    }
    if let Ok((ts, j)) = list_exec(s, i, ListKind::Ordered) {
        return Ok((Markdown::OrderedList(ts), j));
    }
    if let Ok(((l, b), j)) = code_block_exec(s, i) {
        return Ok((Markdown::Codeblock(l, b), j));
    }
    if let Ok((l, j)) = lisp_exec(s, i) {
        return Ok((Markdown::Lisp(l), j));
    }
    if let Ok((t, j)) = text_exec(s, i) {
        return Ok((Markdown::Line(t), j));
    }
    match inline_exec(s, i) {
        Ok((v, j)) => {
            let ghost vv = v@;
            let mut t: Vec<MarkdownInline> = Vec::new();
            t.push(v);
            assert(text_view(t@) =~= seq![vv]);
            Ok((Markdown::Line(t), j))
        },
        Err(e) => Err(e),
    }
}

fn document_exec(s: &Vec<char>, i: usize) -> (r: Result<(Vec<Markdown>, usize), (usize, MdCode)>)
    requires
        i <= s.len(),
    ensures
        match document_spec(s@, i as int) {
            Ok((v, j)) => r matches Ok((x, k)) && blocks_view(x@) == v && k == j && k <= s.len(),
            Err((p, c)) => r matches Err((q, d)) && q == p && d == c && q <= s.len(),
        },
{
    let (first, j0) = match block_exec(s, i) {
        Ok(x) => x,
        Err(e) => {
            return Err(e);
        },
    };
    if j0 <= i || j0 > s.len() {
        return Err((i, MdCode::Many1));
    }
    let ghost target = more_blocks_spec(s@, j0 as int);
    let ghost first_view = first@;
    let mut items: Vec<Markdown> = Vec::new();
    items.push(first);
    let mut pos = j0;
    assert(blocks_view(items@) =~= seq![first_view]);
    loop
        invariant
            i < j0 <= pos <= s.len(),
            target == more_blocks_spec(s@, j0 as int),
            prepend(blocks_view(items@), more_blocks_spec(s@, pos as int)) == prepend(
                seq![first_view],
                target,
            ),
            document_spec(s@, i as int) == prepend(seq![first_view], target),
        decreases s.len() - pos,
    {
        match block_exec(s, pos) {
            Err(_) => {
                assert(blocks_view(items@) + Seq::<BlockV>::empty() =~= blocks_view(items@));
                return Ok((items, pos));
            },
            Ok((v, j)) => {
                if j <= pos || j > s.len() {
                    return Err((pos, MdCode::Many1));
                }
                let ghost before = blocks_view(items@);
                let ghost vv = v@;
                items.push(v);
                proof {
                    assert(blocks_view(items@) =~= before.push(vv));
                    match more_blocks_spec(s@, j as int) {
                        Ok((vs, k)) => {
                            assert(before + (seq![vv] + vs) =~= before.push(vv) + vs);
                        },
                        Err(_) => {},
                    }
                }
                pos = j;
            },
        }
    }
}


/// The error for a failure at `p`: the text from there on, and the kind.
fn fail_at(s: &Vec<char>, e: (usize, MdCode)) -> (r: MdError)
    requires
        e.0 <= s.len(),
    ensures
        r.input@ == s@.subrange(e.0 as int, s@.len() as int),
        r.code == e.1,
{
    MdError { input: crate::parser::text_of_range(s, e.0, s.len()), code: e.1 }
}

/// A document: one or more blocks. Returns the text after it.
pub fn parse_markdown(i: &str) -> (r: Result<(String, Vec<Markdown>), MdError>)
    ensures
        match document_spec(i@, 0) {
            Ok((v, j)) => r matches Ok((rest, x)) && blocks_view(x@) == v && rest@ == i@.subrange(
                j,
                i@.len() as int,
            ),
            Err((p, c)) => r matches Err(e) && e.input@ == i@.subrange(p, i@.len() as int)
                && e.code == c,
        },
{
    let s = chars_of(i);
    match document_exec(&s, 0) {
        Ok((x, k)) => Ok((crate::parser::text_of_range(&s, k, s.len()), x)),
        Err(e) => Err(fail_at(&s, e)),
    }
}

/// `**bold**`. Returns the text after it.
pub fn parse_boldtext(i: &str) -> (r: Result<(String, MarkdownInline), MdError>)
    ensures
        match bold_spec(i@, 0) {
            Ok((v, j)) => r matches Ok((rest, x)) && x@ == v && rest@ == i@.subrange(
                j,
                i@.len() as int,
            ),
            Err((p, c)) => r matches Err(e) && e.input@ == i@.subrange(p, i@.len() as int)
                && e.code == c,
        },
{
    let s = chars_of(i);
    match bold_exec(&s, 0) {
        Ok((x, k)) => Ok((crate::parser::text_of_range(&s, k, s.len()), x)),
        Err(e) => Err(fail_at(&s, e)),
    }
}

/// `*italic*`. Returns the text after it.
pub fn parse_italics(i: &str) -> (r: Result<(String, MarkdownInline), MdError>)
    ensures
        match italic_spec(i@, 0) {
            Ok((v, j)) => r matches Ok((rest, x)) && x@ == v && rest@ == i@.subrange(
                j,
                i@.len() as int,
            ),
            Err((p, c)) => r matches Err(e) && e.input@ == i@.subrange(p, i@.len() as int)
                && e.code == c,
        },
{
    let s = chars_of(i);
    match italic_exec(&s, 0) {
        Ok((x, k)) => Ok((crate::parser::text_of_range(&s, k, s.len()), x)),
        Err(e) => Err(fail_at(&s, e)),
    }
}

/// `` `code` ``. Returns the text after it.
pub fn parse_inline_code(i: &str) -> (r: Result<(String, MarkdownInline), MdError>)
    ensures
        match code_spec(i@, 0) {
            Ok((v, j)) => r matches Ok((rest, x)) && x@ == v && rest@ == i@.subrange(
                j,
                i@.len() as int,
            ),
            Err((p, c)) => r matches Err(e) && e.input@ == i@.subrange(p, i@.len() as int)
                && e.code == c,
        },
{
    let s = chars_of(i);
    match code_exec(&s, 0) {
        Ok((x, k)) => Ok((crate::parser::text_of_range(&s, k, s.len()), x)),
        Err(e) => Err(fail_at(&s, e)),
    }
}

/// `[text](target)`. Returns the text after it.
pub fn parse_link(i: &str) -> (r: Result<(String, MarkdownInline), MdError>)
    ensures
        match link_spec(i@, 0, false) {
            Ok((v, j)) => r matches Ok((rest, x)) && x@ == v && rest@ == i@.subrange(
                j,
                i@.len() as int,
            ),
            Err((p, c)) => r matches Err(e) && e.input@ == i@.subrange(p, i@.len() as int)
                && e.code == c,
        },
{
    let s = chars_of(i);
    match link_exec(&s, 0, false) {
        Ok((x, k)) => Ok((crate::parser::text_of_range(&s, k, s.len()), x)),
        Err(e) => Err(fail_at(&s, e)),
    }
}

/// `![text](target)`. Returns the text after it.
pub fn parse_image(i: &str) -> (r: Result<(String, MarkdownInline), MdError>)
    ensures
        match link_spec(i@, 0, true) {
            Ok((v, j)) => r matches Ok((rest, x)) && x@ == v && rest@ == i@.subrange(
                j,
                i@.len() as int,
            ),
            Err((p, c)) => r matches Err(e) && e.input@ == i@.subrange(p, i@.len() as int)
                && e.code == c,
        },
{
    let s = chars_of(i);
    match link_exec(&s, 0, true) {
        Ok((x, k)) => Ok((crate::parser::text_of_range(&s, k, s.len()), x)),
        Err(e) => Err(fail_at(&s, e)),
    }
}

/// Plain text, up to emphasis, code, an image, a link, a line break or the end. Returns the text after it.
pub fn parse_plaintext(i: &str) -> (r: Result<(String, MarkdownInline), MdError>)
    ensures
        match plaintext_spec(i@, 0) {
            Ok((v, j)) => r matches Ok((rest, x)) && x@ == v && rest@ == i@.subrange(
                j,
                i@.len() as int,
            ),
            Err((p, c)) => r matches Err(e) && e.input@ == i@.subrange(p, i@.len() as int)
                && e.code == c,
        },
{
    let s = chars_of(i);
    match plaintext_exec(&s, 0) {
        Ok((x, k)) => Ok((crate::parser::text_of_range(&s, k, s.len()), x)),
        Err(e) => Err(fail_at(&s, e)),
    }
}

/// One inline element. Returns the text after it.
pub fn parse_markdown_inline(i: &str) -> (r: Result<(String, MarkdownInline), MdError>)
    ensures
        match inline_spec(i@, 0) {
            Ok((v, j)) => r matches Ok((rest, x)) && x@ == v && rest@ == i@.subrange(
                j,
                i@.len() as int,
            ),
            Err((p, c)) => r matches Err(e) && e.input@ == i@.subrange(p, i@.len() as int)
                && e.code == c,
        },
{
    let s = chars_of(i);
    match inline_exec(&s, 0) {
        Ok((x, k)) => Ok((crate::parser::text_of_range(&s, k, s.len()), x)),
        Err(e) => Err(fail_at(&s, e)),
    }
}

/// Inline elements up to and including a line break. Returns the text after it.
pub fn parse_markdown_text(i: &str) -> (r: Result<(String, MarkdownText), MdError>)
    ensures
        match text_spec(i@, 0) {
            Ok((v, j)) => r matches Ok((rest, x)) && text_view(x@) == v && rest@ == i@.subrange(
                j,
                i@.len() as int,
            ),
            Err((p, c)) => r matches Err(e) && e.input@ == i@.subrange(p, i@.len() as int)
                && e.code == c,
        },
{
    let s = chars_of(i);
    match text_exec(&s, 0) {
        Ok((x, k)) => Ok((crate::parser::text_of_range(&s, k, s.len()), x)),
        Err(e) => Err(fail_at(&s, e)),
    }
}

/// `#`s and a space: the heading level. Returns the text after it.
pub fn parse_header_tag(i: &str) -> (r: Result<(String, usize), MdError>)
    ensures
        match header_tag_spec(i@, 0) {
            Ok((v, j)) => r matches Ok((rest, x)) && x as int == v && rest@ == i@.subrange(
                j,
                i@.len() as int,
            ),
            Err((p, c)) => r matches Err(e) && e.input@ == i@.subrange(p, i@.len() as int)
                && e.code == c,
        },
{
    let s = chars_of(i);
    match header_tag_exec(&s, 0) {
        Ok((x, k)) => Ok((crate::parser::text_of_range(&s, k, s.len()), x)),
        Err(e) => Err(fail_at(&s, e)),
    }
}

/// A heading: its level and text. Returns the text after it.
pub fn parse_header(i: &str) -> (r: Result<(String, (usize, MarkdownText)), MdError>)
    ensures
        match header_spec(i@, 0) {
            Ok((v, j)) => r matches Ok((rest, x)) && (x.0 as int, text_view(x.1@)) == v && rest@ == i@.subrange(
                j,
                i@.len() as int,
            ),
            Err((p, c)) => r matches Err(e) && e.input@ == i@.subrange(p, i@.len() as int)
                && e.code == c,
        },
{
    let s = chars_of(i);
    match header_exec(&s, 0) {
        Ok((x, k)) => Ok((crate::parser::text_of_range(&s, k, s.len()), x)),
        Err(e) => Err(fail_at(&s, e)),
    }
}

/// `- `: the `-`. Returns the text after it.
pub fn parse_unordered_list_tag(i: &str) -> (r: Result<(String, String), MdError>)
    ensures
        match list_tag_spec(i@, 0, ListKind::Unordered) {
            Ok((v, j)) => r matches Ok((rest, x)) && x@ == v && rest@ == i@.subrange(
                j,
                i@.len() as int,
            ),
            Err((p, c)) => r matches Err(e) && e.input@ == i@.subrange(p, i@.len() as int)
                && e.code == c,
        },
{
    let s = chars_of(i);
    match list_tag_exec(&s, 0, ListKind::Unordered) {
        Ok((x, k)) => Ok((crate::parser::text_of_range(&s, k, s.len()), x)),
        Err(e) => Err(fail_at(&s, e)),
    }
}

/// An item of an unordered list. Returns the text after it.
pub fn parse_unordered_list_element(i: &str) -> (r: Result<(String, MarkdownText), MdError>)
    ensures
        match item_spec(i@, 0, ListKind::Unordered) {
            Ok((v, j)) => r matches Ok((rest, x)) && text_view(x@) == v && rest@ == i@.subrange(
                j,
                i@.len() as int,
            ),
            Err((p, c)) => r matches Err(e) && e.input@ == i@.subrange(p, i@.len() as int)
                && e.code == c,
        },
{
    let s = chars_of(i);
    match item_exec(&s, 0, ListKind::Unordered) {
        Ok((x, k)) => Ok((crate::parser::text_of_range(&s, k, s.len()), x)),
        Err(e) => Err(fail_at(&s, e)),
    }
}

/// One or more items of an unordered list. Returns the text after it.
pub fn parse_unordered_list(i: &str) -> (r: Result<(String, Vec<MarkdownText>), MdError>)
    ensures
        match list_spec(i@, 0, ListKind::Unordered) {
            Ok((v, j)) => r matches Ok((rest, x)) && texts_view(x@) == v && rest@ == i@.subrange(
                j,
                i@.len() as int,
            ),
            Err((p, c)) => r matches Err(e) && e.input@ == i@.subrange(p, i@.len() as int)
                && e.code == c,
        },
{
    let s = chars_of(i);
    match list_exec(&s, 0, ListKind::Unordered) {
        Ok((x, k)) => Ok((crate::parser::text_of_range(&s, k, s.len()), x)),
        Err(e) => Err(fail_at(&s, e)),
    }
}

/// Digits and `. `: the digits. Returns the text after it.
pub fn parse_ordered_list_tag(i: &str) -> (r: Result<(String, String), MdError>)
    ensures
        match list_tag_spec(i@, 0, ListKind::Ordered) {
            Ok((v, j)) => r matches Ok((rest, x)) && x@ == v && rest@ == i@.subrange(
                j,
                i@.len() as int,
            ),
            Err((p, c)) => r matches Err(e) && e.input@ == i@.subrange(p, i@.len() as int)
                && e.code == c,
        },
{
    let s = chars_of(i);
    match list_tag_exec(&s, 0, ListKind::Ordered) {
        Ok((x, k)) => Ok((crate::parser::text_of_range(&s, k, s.len()), x)),
        Err(e) => Err(fail_at(&s, e)),
    }
}

/// An item of an ordered list. Returns the text after it.
pub fn parse_ordered_list_element(i: &str) -> (r: Result<(String, MarkdownText), MdError>)
    ensures
        match item_spec(i@, 0, ListKind::Ordered) {
            Ok((v, j)) => r matches Ok((rest, x)) && text_view(x@) == v && rest@ == i@.subrange(
                j,
                i@.len() as int,
            ),
            Err((p, c)) => r matches Err(e) && e.input@ == i@.subrange(p, i@.len() as int)
                && e.code == c,
        },
{
    let s = chars_of(i);
    match item_exec(&s, 0, ListKind::Ordered) {
        Ok((x, k)) => Ok((crate::parser::text_of_range(&s, k, s.len()), x)),
        Err(e) => Err(fail_at(&s, e)),
    }
}

/// One or more items of an ordered list. Returns the text after it.
pub fn parse_ordered_list(i: &str) -> (r: Result<(String, Vec<MarkdownText>), MdError>)
    ensures
        match list_spec(i@, 0, ListKind::Ordered) {
            Ok((v, j)) => r matches Ok((rest, x)) && texts_view(x@) == v && rest@ == i@.subrange(
                j,
                i@.len() as int,
            ),
            Err((p, c)) => r matches Err(e) && e.input@ == i@.subrange(p, i@.len() as int)
                && e.code == c,
        },
{
    let s = chars_of(i);
    match list_exec(&s, 0, ListKind::Ordered) {
        Ok((x, k)) => Ok((crate::parser::text_of_range(&s, k, s.len()), x)),
        Err(e) => Err(fail_at(&s, e)),
    }
}

/// A fenced code block: its language and code. Returns the text after it.
pub fn parse_code_block(i: &str) -> (r: Result<(String, (String, String)), MdError>)
    ensures
        match code_block_spec(i@, 0) {
            Ok((v, j)) => r matches Ok((rest, x)) && (x.0@, x.1@) == v && rest@ == i@.subrange(
                j,
                i@.len() as int,
            ),
            Err((p, c)) => r matches Err(e) && e.input@ == i@.subrange(p, i@.len() as int)
                && e.code == c,
        },
{
    let s = chars_of(i);
    match code_block_exec(&s, 0) {
        Ok((x, k)) => Ok((crate::parser::text_of_range(&s, k, s.len()), x)),
        Err(e) => Err(fail_at(&s, e)),
    }
}

/// The code of a fenced block, after its language. Returns the text after it.
pub fn parse_code_block_body(i: &str) -> (r: Result<(String, String), MdError>)
    ensures
        match body_spec(i@, 0) {
            Ok((v, j)) => r matches Ok((rest, x)) && x@ == v && rest@ == i@.subrange(
                j,
                i@.len() as int,
            ),
            Err((p, c)) => r matches Err(e) && e.input@ == i@.subrange(p, i@.len() as int)
                && e.code == c,
        },
{
    let s = chars_of(i);
    match body_exec(&s, 0) {
        Ok((x, k)) => Ok((crate::parser::text_of_range(&s, k, s.len()), x)),
        Err(e) => Err(fail_at(&s, e)),
    }
}

/// The opening fence and language of a code block. Returns the text after it.
pub fn parse_code_block_lang(i: &str) -> (r: Result<(String, String), MdError>)
    ensures
        match lang_spec(i@, 0) {
            Ok((v, j)) => r matches Ok((rest, x)) && x@ == v && rest@ == i@.subrange(
                j,
                i@.len() as int,
            ),
            Err((p, c)) => r matches Err(e) && e.input@ == i@.subrange(p, i@.len() as int)
                && e.code == c,
        },
{
    let s = chars_of(i);
    match lang_exec(&s, 0) {
        Ok((x, k)) => Ok((crate::parser::text_of_range(&s, k, s.len()), x)),
        Err(e) => Err(fail_at(&s, e)),
    }
}

/// `|source|`: the source text. Returns the text after it.
pub fn parse_lisp(i: &str) -> (r: Result<(String, String), MdError>)
    ensures
        match lisp_spec(i@, 0) {
            Ok((v, j)) => r matches Ok((rest, x)) && x@ == v && rest@ == i@.subrange(
                j,
                i@.len() as int,
            ),
            Err((p, c)) => r matches Err(e) && e.input@ == i@.subrange(p, i@.len() as int)
                && e.code == c,
        },
{
    let s = chars_of(i);
    match lisp_exec(&s, 0) {
        Ok((x, k)) => Ok((crate::parser::text_of_range(&s, k, s.len()), x)),
        Err(e) => Err(fail_at(&s, e)),
    }
}


/// A markdown document rendered as HTML, block after block; `Not valid md`
/// when it does not read.
pub fn markdown_to_html(md: &str) -> (r: Result<String, String>)
    ensures
        match document_spec(md@, 0) {
            Ok((bs, _)) => r matches Ok(t) && exists|ms: Seq<Markdown>|
                blocks_view(ms) == bs && t@ == doc_html(ms),
            Err(_) => r matches Err(t) && t@ == "Not valid md"@,
        },
{
    let s = chars_of(md);
    match document_exec(&s, 0) {
        Ok((blocks, _)) => Ok(HtmlString::from_document(&blocks)),
        Err(_) => Err(String::from_str("Not valid md")),
    }
}

/// A markdown document rendered as source text of the language, block after
/// block; `Not valid md` when it does not read.
pub fn markdown_to_lisp(md: &str) -> (r: Result<String, String>)
    ensures
        match document_spec(md@, 0) {
            Ok((bs, _)) => r matches Ok(t) && exists|ms: Seq<Markdown>|
                blocks_view(ms) == bs && t@ == doc_lisp(ms),
            Err(_) => r matches Err(t) && t@ == "Not valid md"@,
        },
{
    let s = chars_of(md);
    match document_exec(&s, 0) {
        Ok((blocks, _)) => Ok(LispString::from_document(&blocks)),
        Err(_) => Err(String::from_str("Not valid md")),
    }
}

} // verus!
