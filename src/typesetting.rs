use vstd::prelude::*;
use crate::token_handling::{
    put_tokens_into_vec, repeat, repeat_seq, text_is, tokens_to_words, word_text, SourceToken,
    Token, Word,
};

verus! {

pub const SPACES_PER_TAP: i32 = 4;

pub const MAX_LINE_LENGTH: i32 = 100;

pub const MAX_INTENT: i32 = 80;

/// The kind of nesting that spacing decisions depend on.
#[derive(Debug, Clone, Copy, PartialEq, Eq, Structural)]
pub enum Context {
    /// `{ ... }`
    CodeBlock,
    /// `{ foo, bar }`
    CurlyList,
    /// `( ... )`, `[ ... ]` or `< ... >`
    List,
    /// A list set one element per line, like a code block.
    ListExploded,
}

/// The words of a source text, and the passes that lay them out.
pub struct Typesetter {
    pub words: Vec<Word>,
}

impl View for Typesetter {
    type V = Seq<Word>;

    open spec fn view(&self) -> Seq<Word> {
        self.words@
    }
}

pub open spec fn opt_seq(o: Option<Word>) -> Seq<Word> {
    match o {
        Some(w) => seq![w],
        None => Seq::empty(),
    }
}

/// A plain or double line break, as the classifier makes them.
pub open spec fn is_break(w: Word) -> bool {
    w is LineBreak || w is LineBreakDouble
}

/// What the linebreak filter keeps of `w`, seen between `prev` and `peek`.
pub open spec fn filter_step(prev: Word, w: Word, peek: Word) -> Option<Word> {
    if !is_break(w) {
        Some(w)
    } else if peek is CloseBrace || peek is CloseBracket || peek is CloseParen || prev is OpenBrace
        || peek is Comma || peek is SemiColon || peek is OpenBrace || peek is OpenBracket
        || peek is OpenParen || peek is SlimInfix || prev is SlimInfix {
        None
    } else if prev is OpenBracket || prev is OpenParen {
        Some(Word::LineBreakIntentPlus)
    } else if prev is CloseBrace && peek is Other {
        if peek->Other_0@ == "else"@ {
            None
        } else {
            Some(w)
        }
    } else if prev is Other && peek is Other {
        if prev->Other_0@ == "else"@ && peek->Other_0@ == "if"@ {
            None
        } else {
            Some(w)
        }
    } else {
        Some(w)
    }
}

/// What the filter keeps of the words at positions `1 .. i`.
pub open spec fn filter_upto(ws: Seq<Word>, i: int) -> Seq<Word>
    decreases i,
{
    if i <= 1 {
        Seq::empty()
    } else {
        filter_upto(ws, i - 1) + opt_seq(filter_step(ws[i - 2], ws[i - 1], ws[i]))
    }
}

/// The linebreak filter: the first and the last word stay, each word between is filtered.
pub open spec fn filtered(ws: Seq<Word>) -> Seq<Word> {
    seq![ws[0]] + filter_upto(ws, ws.len() - 1) + seq![ws.last()]
}

fn filter_word(prev: &Word, word: &Word, peek: &Word) -> (r: Option<Word>)
    ensures
        r == filter_step(*prev, *word, *peek),
{
    let is_break = matches!(word, Word::LineBreak | Word::LineBreakDouble);
    if !is_break {
        return Some(word.duplicate());
    }
    if matches!(peek, Word::CloseBrace | Word::CloseBracket | Word::CloseParen | Word::Comma
        | Word::SemiColon | Word::OpenBrace | Word::OpenBracket | Word::OpenParen
        | Word::SlimInfix(_)) || matches!(prev, Word::OpenBrace | Word::SlimInfix(_)) {
        return None;
    }
    if matches!(prev, Word::OpenBracket | Word::OpenParen) {
        // exploded list
        return Some(Word::LineBreakIntentPlus);
    }
    match (prev, peek) {
        (Word::CloseBrace, Word::Other(s)) => {
            // put } else on one line
            if text_is(s.as_str(), "else") {
                None
            } else {
                Some(word.duplicate())
            }
        },
        (Word::Other(s1), Word::Other(s2)) => {
            // always put else and if on one line
            if text_is(s1.as_str(), "else") && text_is(s2.as_str(), "if") {
                None
            } else {
                Some(word.duplicate())
            }
        },
        _ => Some(word.duplicate()),
    }
}


/// Before these words a `*` is a dereference, not a multiplication.
pub open spec fn opens_operand(prev: Word) -> bool {
    ||| prev is BinaryOperator
    ||| prev is PrefixOperator
    ||| prev is SlimInfix
    ||| prev is OpenBracket
    ||| prev is OpenParen
    ||| prev is OpenBrace
    ||| prev is LineBreak
    ||| prev is LineBreakDouble
    ||| prev is LineBreakIntentPlus
    ||| prev is LineBreakIntentMinus
    ||| prev is SemiColon
    ||| prev is Comma
}

/// Keywords after which a `*` is a dereference.
pub open spec fn is_operand_keyword(s: Seq<char>) -> bool {
    s == "match"@ || s == "for"@ || s == "if"@ || s == "in"@ || s == "as"@
}

/// The role of `w` once the word before it, `prev`, is known.
pub open spec fn resolve_step(prev: Word, w: Word) -> Word {
    match w {
        Word::BinaryOperator(s) => if s@ == "*"@ && (opens_operand(prev) || (prev is Other
            && is_operand_keyword(prev->Other_0@))) {
            Word::PrefixOperator(s)
        } else {
            w
        },
        Word::PrefixOperator(s) => if s@ == "!"@ && ((prev is Other && prev->Other_0@ != "if"@) || (
        prev is PrefixOperator && prev->PrefixOperator_0@ == "#"@)) {
            Word::SlimInfix(s)
        } else {
            w
        },
        _ => w,
    }
}

/// The ambiguity resolver: each word but the first is retagged by the word before it.
pub open spec fn resolved(ws: Seq<Word>) -> Seq<Word> {
    Seq::new(ws.len(), |i: int| if i == 0 { ws[0] } else { resolve_step(ws[i - 1], ws[i]) })
}

fn resolve_word(prev: &Word, word: Word) -> (r: Word)
    ensures
        r == resolve_step(*prev, word),
{
    match word {
        Word::BinaryOperator(s) => {
            // dereference or multiplication
            if text_is(s.as_str(), "*") {
                let deref = match prev {
                    Word::BinaryOperator(_) | Word::PrefixOperator(_) | Word::SlimInfix(_)
                    | Word::OpenBracket | Word::OpenParen | Word::OpenBrace | Word::LineBreak
                    | Word::LineBreakDouble | Word::LineBreakIntentPlus
                    | Word::LineBreakIntentMinus | Word::SemiColon | Word::Comma => true,
                    Word::Other(p) => text_is(p.as_str(), "match") || text_is(p.as_str(), "for")
                        || text_is(p.as_str(), "if") || text_is(p.as_str(), "in") || text_is(
                        p.as_str(),
                        "as",
                    ),
                    _ => false,
                };
                if deref {
                    return Word::PrefixOperator(s);
                }
            }
            Word::BinaryOperator(s)
        },
        Word::PrefixOperator(p) => {
            if text_is(p.as_str(), "!") {
                let tight = match prev {
                    Word::Other(w) => !text_is(w.as_str(), "if"),
                    Word::PrefixOperator(h) => text_is(h.as_str(), "#"),
                    _ => false,
                };
                if tight {
                    return Word::SlimInfix(p);
                }
            }
            Word::PrefixOperator(p)
        },
        _ => word,
    }
}

pub open spec fn space(n: i32) -> Option<Word> {
    Some(Word::Whitespace(n))
}

/// The separator between `w` and `peek` in a block, if any.
pub open spec fn block_separator(w: Word, peek: Word) -> Option<Word> {
    match (w, peek) {
        (Word::SlimInfix(s), Word::OpenBrace) => if s@ == "::"@ {
            None
        } else {
            space(1)
        },
        (Word::Other(s), Word::OpenParen) => if s@ == "if"@ || s@ == "match"@ || s@ == "for"@
            || s@ == "let"@ {
            space(1)
        } else {
            None
        },
        (Word::OpenBrace, Word::CloseBrace) => None,
        (Word::OpenBrace, _) => Some(Word::LineBreakIntentPlus),
        (_, Word::CloseBrace) => Some(Word::LineBreakIntentMinus),
        (_, Word::LineBreakDouble) | (Word::LineBreakDouble, _) | (_, Word::LineBreak) | (
            Word::LineBreak,
            _,
        ) => None,
        (Word::Other(_), Word::Other(_)) | (Word::BinaryOperator(_), _) | (
            _,
            Word::BinaryOperator(_),
        ) | (_, Word::OpenBrace) => space(1),
        (Word::CloseBrace, Word::Other(s)) => if s@ == "else"@ {
            space(1)
        } else {
            Some(Word::LineBreak)
        },
        (Word::SemiColon, Word::Comment(_)) | (Word::Comma, Word::Comment(_)) => space(2),
        (Word::CloseBrace, Word::SemiColon) | (Word::CloseBrace, Word::Comma) => None,
        (Word::SemiColon, _) | (Word::Comma, _) | (Word::Comment(_), _) => Some(Word::LineBreak),
        (_, Word::PrefixOperator(p)) => if p@ == "#"@ {
            Some(Word::LineBreak)
        } else {
            space(1)
        },
        (_, Word::Comment(_)) => space(2),
        (_, _) => None,
    }
}

/// The separator that goes between `w` and `peek` in the context `c`, if any.
pub open spec fn separator(c: Context, w: Word, peek: Word) -> Option<Word> {
    match c {
        Context::CodeBlock | Context::CurlyList => block_separator(w, peek),
        Context::List => match (w, peek) {
            (Word::LineBreak, _) | (Word::LineBreakDouble, _) => space(SPACES_PER_TAP),
            (Word::Other(_), Word::Other(_)) | (Word::BinaryOperator(_), _) | (
                _,
                Word::BinaryOperator(_),
            ) | (Word::Comma, _) | (Word::Colon, _) | (Word::SemiColon, _) | (_, Word::OpenBrace)
            | (_, Word::OpenBracket) => space(1),
            (_, Word::Comment(_)) => space(2),
            (_, _) => None,
        },
        Context::ListExploded => match (w, peek) {
            (_, Word::CloseBracket) | (_, Word::CloseParen) => Some(Word::LineBreakIntentMinus),
            (_, Word::LineBreakDouble) | (Word::LineBreakDouble, _) | (_, Word::LineBreak) | (
                Word::LineBreak,
                _,
            ) => None,
            (Word::Other(_), Word::Other(_)) | (Word::BinaryOperator(_), _) | (
                _,
                Word::BinaryOperator(_),
            ) | (_, Word::OpenBrace) | (_, Word::OpenBracket) => space(1),
            (Word::SemiColon, Word::Comment(_)) | (Word::Comma, Word::Comment(_)) => space(2),
            (Word::CloseBracket, Word::Comma) => None,
            (Word::Comma, _) | (Word::Comment(_), _) | (Word::CloseBracket, _) | (
                Word::CloseParen,
                _,
            ) => Some(Word::LineBreak),
            (_, Word::Comment(_)) => space(2),
            (_, _) => None,
        },
    }
}

fn decide_block(word: &Word, peek: &Word) -> (r: Option<Word>)
    ensures
        r == block_separator(*word, *peek),
{
    match (word, peek) {
        (Word::SlimInfix(s), Word::OpenBrace) => {
            if text_is(s.as_str(), "::") {
                None  // foo::{bar, ...}
            } else {
                Some(Word::Whitespace(1))  // cases like <'a, 'b> {
            }
        },
        (Word::Other(s), Word::OpenParen) => {
            if text_is(s.as_str(), "if") || text_is(s.as_str(), "match") || text_is(
                s.as_str(),
                "for",
            ) || text_is(s.as_str(), "let") {
                Some(Word::Whitespace(1))
            } else {
                None
            }
        },
        (Word::OpenBrace, Word::CloseBrace) => None,
        (Word::OpenBrace, _) => Some(Word::LineBreakIntentPlus),
        (_, Word::CloseBrace) => Some(Word::LineBreakIntentMinus),
        (_, Word::LineBreakDouble) | (Word::LineBreakDouble, _) | (_, Word::LineBreak) | (
            Word::LineBreak,
            _,
        ) => None,
        (Word::Other(_), Word::Other(_)) | (Word::BinaryOperator(_), _) | (
            _,
            Word::BinaryOperator(_),
        ) | (_, Word::OpenBrace) => Some(Word::Whitespace(1)),
        (Word::CloseBrace, Word::Other(s)) => {
            if text_is(s.as_str(), "else") {
                Some(Word::Whitespace(1))
            } else {
                Some(Word::LineBreak)
            }
        },
        (Word::SemiColon, Word::Comment(_)) | (Word::Comma, Word::Comment(_)) => Some(
            Word::Whitespace(2),
        ),
        (Word::CloseBrace, Word::SemiColon) | (Word::CloseBrace, Word::Comma) => None,
        (Word::SemiColon, _) | (Word::Comma, _) | (Word::Comment(_), _) => Some(Word::LineBreak),
        (_, Word::PrefixOperator(p)) => {
            if text_is(p.as_str(), "#") {
                Some(Word::LineBreak)
            } else {
                Some(Word::Whitespace(1))
            }
        },
        (_, Word::Comment(_)) => Some(Word::Whitespace(2)),
        (_, _) => None,
    }
}

/// Decides which separator, if any, follows `word` when `peek` comes next.
pub fn decide_whitespace(context: &Context, word: &Word, peek: &Word) -> (r: Option<Word>)
    ensures
        r == separator(*context, *word, *peek),
{
    match context {
        Context::CodeBlock | Context::CurlyList => decide_block(word, peek),
        Context::List => match (word, peek) {
            (Word::LineBreak, _) | (Word::LineBreakDouble, _) => Some(
                Word::Whitespace(SPACES_PER_TAP),
            ),
            (Word::Other(_), Word::Other(_)) | (Word::BinaryOperator(_), _) | (
                _,
                Word::BinaryOperator(_),
            ) | (Word::Comma, _) | (Word::Colon, _) | (Word::SemiColon, _) | (_, Word::OpenBrace)
            | (_, Word::OpenBracket) => Some(Word::Whitespace(1)),
            (_, Word::Comment(_)) => Some(Word::Whitespace(2)),
            (_, _) => None,
        },
        Context::ListExploded => match (word, peek) {
            (_, Word::CloseBracket) | (_, Word::CloseParen) => Some(Word::LineBreakIntentMinus),
            (_, Word::LineBreakDouble) | (Word::LineBreakDouble, _) | (_, Word::LineBreak) | (
                Word::LineBreak,
                _,
            ) => None,
            (Word::Other(_), Word::Other(_)) | (Word::BinaryOperator(_), _) | (
                _,
                Word::BinaryOperator(_),
            ) | (_, Word::OpenBrace) | (_, Word::OpenBracket) => Some(Word::Whitespace(1)),
            (Word::SemiColon, Word::Comment(_)) | (Word::Comma, Word::Comment(_)) => Some(
                Word::Whitespace(2),
            ),
            (Word::CloseBracket, Word::Comma) => None,
            (Word::Comma, _) | (Word::Comment(_), _) | (Word::CloseBracket, _) | (
                Word::CloseParen,
                _,
            ) => Some(Word::LineBreak),
            (_, Word::Comment(_)) => Some(Word::Whitespace(2)),
            (_, _) => None,
        },
    }
}


/// The context on top of the stack; an empty stack is a code block.
pub open spec fn top(st: Seq<Context>) -> Context {
    if st.len() == 0 {
        Context::CodeBlock
    } else {
        st.last()
    }
}

pub open spec fn pop(st: Seq<Context>) -> Seq<Context> {
    if st.len() > 0 {
        st.drop_last()
    } else {
        st
    }
}

/// A list opened by a delimiter that a line break follows becomes an exploded list.
pub open spec fn explode(st: Seq<Context>, w: Word, peek: Word) -> Seq<Context> {
    if top(st) == Context::List && (w is OpenBracket || w is OpenParen)
        && peek is LineBreakIntentPlus {
        pop(st).push(Context::ListExploded)
    } else {
        st
    }
}

/// A `return` right before the brace that closes its block.
pub open spec fn closes_return(w: Word, peek: Word) -> bool {
    w is Other && w->Other_0@ == "return"@ && peek is CloseBrace
}

/// What the layout emits for `w`, seen before `peek` on the stack `st`.
pub open spec fn layout_chunk(w: Word, peek: Word, st: Seq<Context>) -> Seq<Word> {
    seq![w] + (if closes_return(w, peek) {
        seq![Word::SemiColon]
    } else {
        Seq::empty()
    }) + opt_seq(separator(top(explode(st, w, peek)), w, peek))
}

/// The stack after `w`, when `peek` comes next.
pub open spec fn next_stack(w: Word, peek: Word, st: Seq<Context>) -> Seq<Context> {
    let st1 = explode(st, w, peek);
    let st2 = if top(st1) == Context::CodeBlock && w is Comma && st1.len() > 0 {
        pop(st1).push(Context::CurlyList)
    } else {
        st1
    };
    match peek {
        Word::OpenBracket | Word::OpenParen => st2.push(Context::List),
        Word::OpenBrace => st2.push(Context::CodeBlock),
        Word::SlimInfix(s) => if s@ == "<"@ {
            st2.push(Context::List)
        } else if s@ == ">"@ {
            pop(st2)
        } else {
            st2
        },
        Word::CloseBrace | Word::CloseBracket | Word::CloseParen => pop(st2),
        _ => st2,
    }
}

/// The layout of the words from position `i` on, with the stack `st`; the last word is
/// replaced by the end marker.
pub open spec fn layout_from(ws: Seq<Word>, i: int, st: Seq<Context>) -> Seq<Word>
    decreases ws.len() - i,
{
    if i < 0 || i >= ws.len() - 1 {
        seq![Word::Eof]
    } else {
        layout_chunk(ws[i], ws[i + 1], st) + layout_from(ws, i + 1, next_stack(ws[i], ws[i + 1], st))
    }
}

pub open spec fn laid_out(ws: Seq<Word>) -> Seq<Word> {
    layout_from(ws, 0, Seq::empty())
}

/// The formatting passes in their order.
pub open spec fn pipeline(ws: Seq<Word>) -> Seq<Word> {
    laid_out(resolved(filtered(ws)))
}

/// What formatting makes of a classified word sequence: short ones stay as they are.
pub open spec fn formatted(ws: Seq<Word>) -> Seq<Word> {
    if ws.len() > 2 {
        pipeline(ws)
    } else {
        ws
    }
}

pub open spec fn clamp(v: int, low: int, upper: int) -> int {
    if v < low {
        low
    } else if v > upper {
        upper
    } else {
        v
    }
}

pub open spec fn indent_delta(w: Word) -> int {
    match w {
        Word::LineBreakIntentPlus => SPACES_PER_TAP as int,
        Word::LineBreakIntentMinus => -SPACES_PER_TAP,
        _ => 0,
    }
}

/// The indentation after `w`.
pub open spec fn next_indent(indent: int, w: Word) -> int {
    clamp(indent + indent_delta(w), 0, MAX_INTENT as int)
}

/// The text of `w` at the indentation `indent`: a line break is followed by the indentation.
pub open spec fn rendered_word(w: Word, indent: int) -> Seq<char> {
    match w {
        Word::LineBreak | Word::LineBreakIntentPlus | Word::LineBreakIntentMinus => "\n"@
            + repeat_seq(" "@, indent as nat),
        Word::LineBreakDouble => "\n\n"@ + repeat_seq(" "@, indent as nat),
        _ => word_text(w),
    }
}

pub open spec fn render_from(ws: Seq<Word>, indent: int) -> Seq<char>
    decreases ws.len(),
{
    if ws.len() == 0 {
        Seq::empty()
    } else {
        let ind = next_indent(indent, ws[0]);
        rendered_word(ws[0], ind) + render_from(ws.drop_first(), ind)
    }
}

/// The text of a word sequence, starting at indentation 0.
pub open spec fn rendered(ws: Seq<Word>) -> Seq<char> {
    render_from(ws, 0)
}

/// Any of the line break words.
pub open spec fn is_line_break(w: Word) -> bool {
    w is LineBreak || w is LineBreakDouble || w is LineBreakIntentPlus || w is LineBreakIntentMinus
}

pub open spec fn sat_add(a: int, b: int) -> int {
    if a + b > usize::MAX {
        usize::MAX as int
    } else {
        a + b
    }
}

pub open spec fn mark_view(m: Option<(usize, usize, i32)>) -> Option<(int, int, int)> {
    match m {
        Some((p, len, ind)) => Some((p as int, len as int, ind as int)),
        None => None,
    }
}

/// The rewrapping of the words from position `i` on. `column` and `indent` are those
/// before word `i`; `mark` is the last whitespace met since `floor`, as its position, the
/// output length there and the indentation there; `out` is what has been emitted. A line
/// that grows past the maximum is broken at the mark, when the word that overflows would
/// fit on a new line: what follows the mark is dropped and laid out again after a line break
/// and a continuation indent. No whitespace is used for a break twice.
pub open spec fn rewrap_from(
    ws: Seq<Word>,
    i: int,
    floor: int,
    column: int,
    indent: int,
    mark: Option<(int, int, int)>,
    out: Seq<Word>,
) -> Seq<Word>
    decreases ws.len() - floor, ws.len() - i,
{
    if i < 0 || floor < 0 || floor > i || i >= ws.len() {
        out
    } else {
        let w = ws[i];
        let ind = next_indent(indent, w);
        let col = if is_line_break(w) {
            ind
        } else {
            sat_add(column, word_text(w).len() as int)
        };
        let m = if w is Whitespace {
            Some((i, out.len() as int, ind))
        } else {
            mark
        };
        let overflows = col > MAX_LINE_LENGTH && (word_text(w).len() as int) < MAX_LINE_LENGTH - ind;
        match m {
            Some((p, len, pind)) if overflows && floor <= p <= i => rewrap_from(
                ws,
                p + 1,
                p + 1,
                pind + SPACES_PER_TAP,
                pind,
                None,
                out.subrange(0, len) + seq![Word::LineBreak, Word::Whitespace(SPACES_PER_TAP)],
            ),
            _ => rewrap_from(ws, i + 1, floor, col, ind, m, out.push(w)),
        }
    }
}

pub open spec fn rewrapped(ws: Seq<Word>) -> Seq<Word> {
    rewrap_from(ws, 0, 0, 0, 0, None, Seq::empty())
}

/// `out` is `ws` with some of its whitespace runs each replaced by a line break and a
/// continuation indent; every other word is kept, in order.
pub open spec fn wraps(ws: Seq<Word>, out: Seq<Word>) -> bool
    decreases ws.len(),
{
    if ws.len() == 0 {
        out.len() == 0
    } else {
        ||| out.len() > 0 && out.last() == ws.last() && wraps(ws.drop_last(), out.drop_last())
        ||| ws.last() is Whitespace && out.len() >= 2 && out.last() == Word::Whitespace(
            SPACES_PER_TAP,
        ) && out[out.len() - 2] == Word::LineBreak && wraps(
            ws.drop_last(),
            out.subrange(0, out.len() - 2),
        )
    }
}

/// The words of `ws` from position `i` on, starting at `column` with `indent`, all end
/// within the maximum line width.
pub open spec fn fits_from(ws: Seq<Word>, i: int, column: int, indent: int) -> bool
    decreases ws.len() - i,
{
    if i < 0 || i >= ws.len() {
        true
    } else {
        let w = ws[i];
        let ind = next_indent(indent, w);
        let col = if is_line_break(w) {
            ind
        } else {
            sat_add(column, word_text(w).len() as int)
        };
        col <= MAX_LINE_LENGTH && fits_from(ws, i + 1, col, ind)
    }
}

/// No line of `ws` grows past the maximum width.
pub open spec fn fits_width(ws: Seq<Word>) -> bool {
    fits_from(ws, 0, 0, 0)
}

proof fn lemma_rewrap_wraps(
    ws: Seq<Word>,
    i: int,
    floor: int,
    column: int,
    indent: int,
    mark: Option<(int, int, int)>,
    out: Seq<Word>,
)
    requires
        0 <= floor <= i <= ws.len(),
        wraps(ws.subrange(0, i), out),
        mark matches Some((p, len, pind)) ==> floor <= p < i && 0 <= len <= out.len()
            && ws[p] is Whitespace && wraps(ws.subrange(0, p), out.subrange(0, len)),
    ensures
        wraps(ws, rewrap_from(ws, i, floor, column, indent, mark, out)),
    decreases ws.len() - floor, ws.len() - i,
{
    if i >= ws.len() {
        assert(ws.subrange(0, i) =~= ws);
    } else {
        let w = ws[i];
        let ind = next_indent(indent, w);
        let col = if is_line_break(w) {
            ind
        } else {
            sat_add(column, word_text(w).len() as int)
        };
        let m = if w is Whitespace {
            Some((i, out.len() as int, ind))
        } else {
            mark
        };
        let overflows = col > MAX_LINE_LENGTH && (word_text(w).len() as int) < MAX_LINE_LENGTH - ind;
        let grown = ws.subrange(0, i + 1);
        assert(grown.drop_last() =~= ws.subrange(0, i));
        assert(grown.last() == w);
        let pushed = out.push(w);
        assert(pushed.drop_last() =~= out);
        assert(wraps(grown, pushed));
        match m {
            Some((p, len, pind)) => {
                if overflows && floor <= p <= i {
                    let cut = out.subrange(0, len) + seq![
                        Word::LineBreak,
                        Word::Whitespace(SPACES_PER_TAP),
                    ];
                    let upto = ws.subrange(0, p + 1);
                    assert(upto.drop_last() =~= ws.subrange(0, p));
                    assert(cut.subrange(0, cut.len() - 2) =~= out.subrange(0, len));
                    if p == i {
                        assert(out.subrange(0, len) =~= out);
                    }
                    assert(wraps(upto, cut));
                    lemma_rewrap_wraps(ws, p + 1, p + 1, pind + SPACES_PER_TAP, pind, None, cut);
                } else {
                    assert(pushed.subrange(0, len) =~= out.subrange(0, len));
                    lemma_rewrap_wraps(ws, i + 1, floor, col, ind, m, pushed);
                }
            },
            None => {
                lemma_rewrap_wraps(ws, i + 1, floor, col, ind, m, pushed);
            },
        }
    }
}

proof fn lemma_rewrap_fits(
    ws: Seq<Word>,
    i: int,
    floor: int,
    column: int,
    indent: int,
    mark: Option<(int, int, int)>,
    out: Seq<Word>,
)
    requires
        0 <= floor <= i <= ws.len(),
        fits_from(ws, i, column, indent),
    ensures
        rewrap_from(ws, i, floor, column, indent, mark, out) == out + ws.subrange(i, ws.len() as int),
    decreases ws.len() - i,
{
    if i >= ws.len() {
        assert(out + ws.subrange(i, ws.len() as int) =~= out);
    } else {
        let w = ws[i];
        let ind = next_indent(indent, w);
        let col = if is_line_break(w) {
            ind
        } else {
            sat_add(column, word_text(w).len() as int)
        };
        let m = if w is Whitespace {
            Some((i, out.len() as int, ind))
        } else {
            mark
        };
        lemma_rewrap_fits(ws, i + 1, floor, col, ind, m, out.push(w));
        assert(out.push(w) + ws.subrange(i + 1, ws.len() as int) =~= out + ws.subrange(
            i,
            ws.len() as int,
        ));
    }
}

fn top_of(stack: &Vec<Context>) -> (r: Context)
    ensures
        r == top(stack@),
{
    if stack.len() == 0 {
        Context::CodeBlock
    } else {
        stack[stack.len() - 1]
    }
}

fn pop_context(stack: &mut Vec<Context>)
    ensures
        final(stack)@ == pop(old(stack)@),
{
    if stack.len() > 0 {
        stack.pop();
    }
}

/// Clamps `*var` to `[low, upper]`.
pub fn limit(var: &mut i32, low: i32, upper: i32)
    ensures
        *final(var) == clamp(*old(var) as int, low as int, upper as int),
{
    if *var < low {
        *var = low;
    } else if *var > upper {
        *var = upper;
    }
}

impl Typesetter {
    /// Deletes or retags the line breaks that the layout decides itself.
    pub fn filter_linebreaks(&mut self)
        requires
            old(self)@.len() >= 2,
        ensures
            final(self)@ == filtered(old(self)@),
    {
        let mut result: Vec<Word> = Vec::new();
        let n = self.words.len();
        result.push(self.words[0].duplicate());
        let mut index: usize = 1;
        while index < n - 1
            invariant
                n == self.words@.len(),
                n >= 2,
                1 <= index <= n - 1,
                result@ == seq![self.words@[0]] + filter_upto(self.words@, index as int),
            decreases n - index,
        {
            let kept = filter_word(&self.words[index - 1], &self.words[index], &self.words[index + 1]);
            match kept {
                Some(w) => result.push(w),
                None => {},
            }
            assert(result@ =~= seq![self.words@[0]] + filter_upto(self.words@, index + 1));
            index += 1;
        }
        result.push(self.words[index].duplicate());
        self.words = result;
    }

    /// Retags operators whose role depends on the word before them.
    pub fn sort_out_ambiguities(&mut self)
        ensures
            final(self)@ == resolved(old(self)@),
    {
        let mut result: Vec<Word> = Vec::new();
        let n = self.words.len();
        if n == 0 {
            assert(self.words@ =~= resolved(self.words@));
            return;
        }
        result.push(self.words[0].duplicate());
        let mut index: usize = 1;
        while index < n
            invariant
                n == self.words@.len(),
                1 <= index <= n,
                result@.len() == index,
                forall|i: int| 0 <= i < index ==> result@[i] == resolved(self.words@)[i],
            decreases n - index,
        {
            let word = self.words[index].duplicate();
            result.push(resolve_word(&self.words[index - 1], word));
            index += 1;
        }
        assert(result@ =~= resolved(self.words@));
        self.words = result;
    }

    // All formatting decisions are made from the context and one word of lookahead. An
    // opening delimiter pushes a context onto the stack, a closing one pops it.
    /// Inserts the separators between words.
    pub fn format(&mut self)
        requires
            old(self)@.len() >= 1,
        ensures
            final(self)@ == laid_out(old(self)@),
    {
        let mut result: Vec<Word> = Vec::new();
        let mut index: usize = 0;
        let mut context_stack: Vec<Context> = Vec::new();
        let n = self.words.len();
        while index < n - 1
            invariant
                n == self.words@.len(),
                n >= 1,
                index <= n - 1,
                result@ + layout_from(self.words@, index as int, context_stack@) == laid_out(
                    self.words@,
                ),
            decreases n - index,
        {
            let ghost before = result@;
            let ghost st = context_stack@;
            let word = &self.words[index];
            let peek = &self.words[index + 1];
            result.push(word.duplicate());
            // switch to exploded list
            if top_of(&context_stack) == Context::List && matches!(word, Word::OpenBracket | Word::OpenParen)
                && matches!(peek, Word::LineBreakIntentPlus) {
                context_stack.pop();
                context_stack.push(Context::ListExploded);
            }
            // insert semicolon after return
            if let Word::Other(s) = word {
                if text_is(s.as_str(), "return") && matches!(peek, Word::CloseBrace) {
                    result.push(Word::SemiColon);
                }
            }
            match decide_whitespace(&top_of(&context_stack), word, peek) {
                Some(whitespace) => result.push(whitespace),
                None => {},
            }
            // switch to curly list, when a codeblock seems to be not a codeblock
            if top_of(&context_stack) == Context::CodeBlock && matches!(word, Word::Comma)
                && context_stack.len() > 0 {
                context_stack.pop();
                context_stack.push(Context::CurlyList);
            }
            // decide context changes
            match peek {
                Word::OpenBracket | Word::OpenParen => context_stack.push(Context::List),
                Word::OpenBrace => context_stack.push(Context::CodeBlock),
                Word::SlimInfix(s) => {
                    if text_is(s.as_str(), "<") {
                        context_stack.push(Context::List);
                    } else if text_is(s.as_str(), ">") {
                        pop_context(&mut context_stack);
                    }
                },
                Word::CloseBrace | Word::CloseBracket | Word::CloseParen => {
                    pop_context(&mut context_stack);
                },
                _ => {},
            }
            proof {
                let w = self.words@[index as int];
                let p = self.words@[index + 1];
                assert(result@ =~= before + layout_chunk(w, p, st));
                assert(context_stack@ =~= next_stack(w, p, st));
                assert(before + layout_from(self.words@, index as int, st) =~= result@ + layout_from(
                    self.words@,
                    index + 1,
                    context_stack@,
                ));
            }
            index += 1;
        }
        result.push(Word::Eof);
        assert(result@ =~= laid_out(self.words@));
        self.words = result;
    }

    /// The source text that the words render to.
    pub fn to_string(&self) -> (r: String)
        ensures
            r@ == rendered(self@),
    {
        let mut formated_source = String::new();
        let mut intent: i32 = 0;
        let n = self.words.len();
        let mut i: usize = 0;
        assert(self.words@.subrange(0, n as int) =~= self.words@);
        assert(formated_source@ + rendered(self@) =~= rendered(self@));
        while i < n
            invariant
                n == self.words@.len(),
                i <= n,
                0 <= intent <= MAX_INTENT,
                formated_source@ + render_from(self.words@.subrange(i as int, n as int), intent as int)
                    == rendered(self@),
            decreases n - i,
        {
            let ghost before = formated_source@;
            let ghost ind = intent;
            let word = &self.words[i];
            match word {
                Word::LineBreakIntentPlus => intent = intent + SPACES_PER_TAP,
                Word::LineBreakIntentMinus => intent = intent - SPACES_PER_TAP,
                _ => {},
            }
            limit(&mut intent, 0, MAX_INTENT);
            match word {
                Word::LineBreak | Word::LineBreakIntentPlus | Word::LineBreakIntentMinus => {
                    formated_source.append("\n");
                    formated_source.append(repeat(" ", intent as usize).as_str());
                },
                Word::LineBreakDouble => {
                    formated_source.append("\n\n");
                    formated_source.append(repeat(" ", intent as usize).as_str());
                },
                _ => {
                    let text = word.duplicate().to_string();
                    formated_source.append(text.as_str());
                },
            }
            proof {
                let rest = self.words@.subrange(i as int, n as int);
                assert(rest.drop_first() =~= self.words@.subrange(i + 1, n as int));
                assert(intent == next_indent(ind as int, rest[0]));
                assert(formated_source@ =~= before + rendered_word(rest[0], intent as int));
            }
            i += 1;
        }
        assert(self.words@.subrange(n as int, n as int) =~= Seq::<Word>::empty());
        formated_source
    }

    /// Runs the formatting passes over classified words; two words or fewer stay as they are.
    pub fn from_words(words: Vec<Word>) -> (r: Typesetter)
        ensures
            r@ == formatted(words@),
    {
        let mut typesetter = Typesetter { words };
        if typesetter.words.len() > 2 {
            typesetter.filter_linebreaks();
            typesetter.sort_out_ambiguities();
            typesetter.format();
        }
        typesetter
    }

    /// Classifies a token stream and formats its words.
    pub fn new(tokens: &Vec<SourceToken>) -> (r: Typesetter)
        requires
            exists|k: int| 0 <= k < tokens@.len() && tokens@[k].tok is Eof,
        ensures
            exists|ws: Seq<Word>| tokens_to_words(tokens@, ws) && r@ == formatted(ws),
    {
        let words = put_tokens_into_vec(tokens);
        let ghost ws = words@;
        let r = Typesetter::from_words(words);
        assert(tokens_to_words(tokens@, ws) && r@ == formatted(ws));
        r
    }

    /// Breaks lines that grow past the maximum width at their last whitespace.
    pub fn handle_overlong_lines(&mut self)
        ensures
            final(self)@ == rewrapped(old(self)@),
            wraps(old(self)@, final(self)@),
            fits_width(old(self)@) ==> final(self)@ == old(self)@,
    {
        proof {
            let ws = self.words@;
            assert(ws.subrange(0, 0) =~= Seq::<Word>::empty());
            lemma_rewrap_wraps(ws, 0, 0, 0, 0, None, Seq::empty());
            if fits_width(ws) {
                lemma_rewrap_fits(ws, 0, 0, 0, 0, None, Seq::empty());
                assert(Seq::<Word>::empty() + ws.subrange(0, ws.len() as int) =~= ws);
            }
        }
        let n = self.words.len();
        let mut result: Vec<Word> = Vec::new();
        let mut index: usize = 0;
        let mut floor: usize = 0;
        let mut column: usize = 0;
        let mut intent: i32 = 0;
        let mut mark: Option<(usize, usize, i32)> = None;
        while index < n
            invariant
                n == self.words@.len(),
                floor <= index <= n,
                0 <= intent <= MAX_INTENT,
                mark matches Some((p, len, ind)) ==> floor <= p < index && len <= result@.len() && 0
                    <= ind <= MAX_INTENT,
                rewrap_from(
                    self.words@,
                    index as int,
                    floor as int,
                    column as int,
                    intent as int,
                    mark_view(mark),
                    result@,
                ) == rewrapped(self.words@),
            decreases n - floor, n - index,
        {
            let ghost out = result@;
            let word = &self.words[index];
            match word {
                Word::LineBreakIntentPlus => intent = intent + SPACES_PER_TAP,
                Word::LineBreakIntentMinus => intent = intent - SPACES_PER_TAP,
                _ => {},
            }
            limit(&mut intent, 0, MAX_INTENT);
            let width = word.width();
            if matches!(word, Word::LineBreak | Word::LineBreakDouble | Word::LineBreakIntentPlus
                | Word::LineBreakIntentMinus) {
                column = intent as usize;
            } else {
                column = column.saturating_add(width);
            }
            if matches!(word, Word::Whitespace(_)) {
                mark = Some((index, result.len(), intent));
            }
            let wrap_at = match mark {
                Some((p, len, ind)) => {
                    if column > MAX_LINE_LENGTH as usize && width < (MAX_LINE_LENGTH - intent) as usize
                        && floor <= p {
                        Some((p, len, ind))
                    } else {
                        None
                    }
                },
                None => None,
            };
            match wrap_at {
                Some((p, len, ind)) => {
                    result.truncate(len);
                    result.push(Word::LineBreak);
                    result.push(Word::Whitespace(SPACES_PER_TAP));
                    assert(result@ =~= out.subrange(0, len as int) + seq![
                        Word::LineBreak,
                        Word::Whitespace(SPACES_PER_TAP),
                    ]);
                    index = p + 1;
                    floor = p + 1;
                    column = (ind + SPACES_PER_TAP) as usize;
                    intent = ind;
                    mark = None;
                },
                None => {
                    result.push(word.duplicate());
                    index += 1;
                },
            }
        }
        self.words = result;
    }
}

} // verus!
