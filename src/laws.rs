use vstd::prelude::*;
use crate::token_handling::Word;
use crate::typesetting::{
    closes_return, filter_step, filter_upto, filtered, formatted, is_break, laid_out,
    layout_chunk, layout_from, next_stack, opens_operand, pipeline, resolve_step, resolved,
    separator, space, top, Context,
};

verus! {

/// A brace, bracket or parenthesis.
pub open spec fn is_delim(w: Word) -> bool {
    ||| w is OpenBrace
    ||| w is CloseBrace
    ||| w is OpenBracket
    ||| w is CloseBracket
    ||| w is OpenParen
    ||| w is CloseParen
}

/// The braces, brackets and parentheses of `ws`, in order.
pub open spec fn delims(ws: Seq<Word>) -> Seq<Word>
    decreases ws.len(),
{
    if ws.len() == 0 {
        Seq::empty()
    } else {
        delims(ws.drop_last()) + if is_delim(ws.last()) {
            seq![ws.last()]
        } else {
            Seq::empty()
        }
    }
}

proof fn lemma_delims_add(a: Seq<Word>, b: Seq<Word>)
    ensures
        delims(a + b) == delims(a) + delims(b),
    decreases b.len(),
{
    if b.len() == 0 {
        assert(a + b =~= a);
        assert(delims(a) + delims(b) =~= delims(a));
    } else {
        lemma_delims_add(a, b.drop_last());
        assert((a + b).drop_last() =~= a + b.drop_last());
        assert((a + b).last() == b.last());
        assert(delims(a + b) =~= delims(a) + delims(b));
    }
}

proof fn lemma_delims_single(w: Word)
    ensures
        delims(seq![w]) == if is_delim(w) {
            seq![w]
        } else {
            Seq::<Word>::empty()
        },
{
    assert(seq![w].drop_last() =~= Seq::<Word>::empty());
    assert(delims(seq![w].drop_last()) == Seq::<Word>::empty());
    assert(seq![w].last() == w);
    assert(delims(seq![w]) =~= if is_delim(w) {
        seq![w]
    } else {
        Seq::<Word>::empty()
    });
}

/// Two sequences that agree wherever either holds a delimiter have the same delimiters.
proof fn lemma_delims_pointwise(a: Seq<Word>, b: Seq<Word>)
    requires
        a.len() == b.len(),
        forall|i: int| 0 <= i < a.len() && (is_delim(a[i]) || is_delim(b[i])) ==> a[i] == b[i],
    ensures
        delims(a) == delims(b),
    decreases a.len(),
{
    if a.len() > 0 {
        lemma_delims_pointwise(a.drop_last(), b.drop_last());
    }
}

proof fn lemma_filter_delims(ws: Seq<Word>, i: int)
    requires
        ws.len() >= 2,
        1 <= i <= ws.len() - 1,
    ensures
        delims(seq![ws[0]] + filter_upto(ws, i)) == delims(ws.subrange(0, i)),
    decreases i,
{
    if i == 1 {
        assert(seq![ws[0]] + filter_upto(ws, i) =~= ws.subrange(0, 1));
    } else {
        lemma_filter_delims(ws, i - 1);
        let kept = filter_step(ws[i - 2], ws[i - 1], ws[i]);
        let o = match kept {
            Some(w) => seq![w],
            None => Seq::empty(),
        };
        assert(seq![ws[0]] + filter_upto(ws, i) =~= (seq![ws[0]] + filter_upto(ws, i - 1)) + o);
        lemma_delims_add(seq![ws[0]] + filter_upto(ws, i - 1), o);
        assert(ws.subrange(0, i) =~= ws.subrange(0, i - 1) + seq![ws[i - 1]]);
        lemma_delims_add(ws.subrange(0, i - 1), seq![ws[i - 1]]);
        lemma_delims_single(ws[i - 1]);
        if kept is Some {
            lemma_delims_single(kept->0);
        }
    }
}

proof fn lemma_filtered_delims(ws: Seq<Word>)
    requires
        ws.len() >= 2,
    ensures
        delims(filtered(ws)) == delims(ws),
{
    let n = ws.len();
    lemma_filter_delims(ws, n - 1);
    lemma_delims_add(seq![ws[0]] + filter_upto(ws, n - 1), seq![ws.last()]);
    assert(ws =~= ws.subrange(0, n - 1) + seq![ws.last()]);
    lemma_delims_add(ws.subrange(0, n - 1), seq![ws.last()]);
}

proof fn lemma_resolved_delims(ws: Seq<Word>)
    ensures
        delims(resolved(ws)) == delims(ws),
{
    lemma_delims_pointwise(resolved(ws), ws);
}

proof fn lemma_chunk_delims(w: Word, peek: Word, st: Seq<Context>)
    ensures
        delims(layout_chunk(w, peek, st)) == delims(seq![w]),
{
    let semi = if closes_return(w, peek) {
        seq![Word::SemiColon]
    } else {
        Seq::<Word>::empty()
    };
    let c = layout_chunk(w, peek, st);
    let rest = c.subrange(1, c.len() as int);
    assert(c =~= seq![w] + rest);
    lemma_delims_add(seq![w], rest);
    let sep = separator(crate::typesetting::top(crate::typesetting::explode(st, w, peek)), w, peek);
    assert(sep is Some ==> !is_delim(sep->0));
    assert(rest =~= semi + match sep {
        Some(x) => seq![x],
        None => Seq::<Word>::empty(),
    });
    lemma_no_delims(rest);
    assert(delims(seq![w]) + Seq::<Word>::empty() =~= delims(seq![w]));
}

proof fn lemma_no_delims(ws: Seq<Word>)
    requires
        forall|i: int| 0 <= i < ws.len() ==> !is_delim(#[trigger] ws[i]),
    ensures
        delims(ws) =~= Seq::<Word>::empty(),
    decreases ws.len(),
{
    if ws.len() > 0 {
        lemma_no_delims(ws.drop_last());
    }
}

proof fn lemma_layout_delims(ws: Seq<Word>, i: int, st: Seq<Context>)
    requires
        ws.len() >= 1,
        0 <= i <= ws.len() - 1,
    ensures
        delims(layout_from(ws, i, st)) == delims(ws.subrange(i, ws.len() - 1)),
    decreases ws.len() - i,
{
    if i == ws.len() - 1 {
        lemma_delims_single(Word::Eof);
        assert(ws.subrange(i, ws.len() - 1) =~= Seq::<Word>::empty());
    } else {
        let st2 = next_stack(ws[i], ws[i + 1], st);
        lemma_layout_delims(ws, i + 1, st2);
        lemma_chunk_delims(ws[i], ws[i + 1], st);
        lemma_delims_add(layout_chunk(ws[i], ws[i + 1], st), layout_from(ws, i + 1, st2));
        assert(ws.subrange(i, ws.len() - 1) =~= seq![ws[i]] + ws.subrange(i + 1, ws.len() - 1));
        lemma_delims_add(seq![ws[i]], ws.subrange(i + 1, ws.len() - 1));
    }
}

/// Formatting keeps every brace, bracket and parenthesis of a classified word sequence, in
/// order, and adds none.
pub proof fn lemma_delimiters_preserved(ws: Seq<Word>)
    requires
        ws.len() > 0,
        ws.last() == Word::Eof,
    ensures
        delims(formatted(ws)) == delims(ws),
{
    if ws.len() > 2 {
        let f = filtered(ws);
        let r = resolved(f);
        lemma_filtered_delims(ws);
        lemma_resolved_delims(f);
        lemma_layout_delims(r, 0, Seq::empty());
        assert(r.last() == resolve_step(f[f.len() - 2], Word::Eof));
        assert(r =~= r.subrange(0, r.len() - 1) + seq![r.last()]);
        lemma_delims_add(r.subrange(0, r.len() - 1), seq![r.last()]);
        lemma_delims_single(r.last());
        assert(delims(r.subrange(0, r.len() - 1)) + Seq::<Word>::empty() =~= delims(
            r.subrange(0, r.len() - 1),
        ));
        assert(pipeline(ws) == layout_from(r, 0, Seq::empty()));
    }
}

/// The stack that the layout holds when it reaches position `i`.
pub open spec fn stack_at(ws: Seq<Word>, i: int) -> Seq<Context>
    decreases i,
{
    if i <= 0 {
        Seq::empty()
    } else {
        next_stack(ws[i - 1], ws[i], stack_at(ws, i - 1))
    }
}

/// What the layout emits for the words before position `i`.
pub open spec fn layout_prefix(ws: Seq<Word>, i: int) -> Seq<Word>
    decreases i,
{
    if i <= 0 {
        Seq::empty()
    } else {
        layout_prefix(ws, i - 1) + layout_chunk(ws[i - 1], ws[i], stack_at(ws, i - 1))
    }
}

proof fn lemma_layout_split(ws: Seq<Word>, i: int)
    requires
        ws.len() >= 1,
        0 <= i <= ws.len() - 1,
    ensures
        laid_out(ws) == layout_prefix(ws, i) + layout_from(ws, i, stack_at(ws, i)),
    decreases i,
{
    if i == 0 {
        assert(layout_prefix(ws, 0) + laid_out(ws) =~= laid_out(ws));
    } else {
        lemma_layout_split(ws, i - 1);
        let st = stack_at(ws, i - 1);
        assert(layout_from(ws, i - 1, st) == layout_chunk(ws[i - 1], ws[i], st) + layout_from(
            ws,
            i,
            stack_at(ws, i),
        ));
        assert(layout_prefix(ws, i - 1) + layout_from(ws, i - 1, st) =~= layout_prefix(ws, i)
            + layout_from(ws, i, stack_at(ws, i)));
    }
}

/// A `return` right before the closing brace of its block is followed by a semicolon in
/// the layout.
pub proof fn lemma_return_gets_semicolon(ws: Seq<Word>, i: int)
    requires
        0 <= i,
        i + 1 < ws.len(),
        closes_return(ws[i], ws[i + 1]),
    ensures
        exists|j: int|
            0 <= j && j + 1 < laid_out(ws).len() && #[trigger] laid_out(ws)[j] == ws[i] && laid_out(
                ws,
            )[j + 1] == Word::SemiColon,
{
    lemma_layout_split(ws, i);
    let pre = layout_prefix(ws, i);
    let c = layout_chunk(ws[i], ws[i + 1], stack_at(ws, i));
    let rest = layout_from(ws, i + 1, next_stack(ws[i], ws[i + 1], stack_at(ws, i)));
    assert(laid_out(ws) == pre + (c + rest));
    assert(c[0] == ws[i] && c[1] == Word::SemiColon);
    let j = pre.len() as int;
    assert(laid_out(ws)[j] == ws[i]);
    assert(laid_out(ws)[j + 1] == Word::SemiColon);
}

/// A `*` after an operator, an opening delimiter, a line break, `;` or `,`, or after one of
/// the keywords `match`, `for`, `if`, `in`, `as`, becomes a prefix marker with the same
/// text. After a name that is no such keyword, or after a closing delimiter, it stays a
/// binary operator. Either way the layout sets a binary operator between two spaces when
/// names stand on both sides, and sets no space between a prefix marker and a name.
pub proof fn lemma_star_roles(prev: Word, s: String, a: String, b: String, c: Context)
    requires
        s@ == "*"@,
    ensures
        opens_operand(prev) || (prev is Other && (prev->Other_0@ == "match"@ || prev->Other_0@
            == "for"@ || prev->Other_0@ == "if"@ || prev->Other_0@ == "in"@ || prev->Other_0@
            == "as"@)) ==> resolve_step(prev, Word::BinaryOperator(s)) == Word::PrefixOperator(s),
        (prev is CloseParen || prev is CloseBracket || prev is CloseBrace || (prev is Other && !(
        prev->Other_0@ == "match"@ || prev->Other_0@ == "for"@ || prev->Other_0@ == "if"@
            || prev->Other_0@ == "in"@ || prev->Other_0@ == "as"@))) ==> resolve_step(
            prev,
            Word::BinaryOperator(s),
        ) == Word::BinaryOperator(s),
        separator(c, Word::Other(a), Word::BinaryOperator(s)) == space(1),
        separator(c, Word::BinaryOperator(s), Word::Other(b)) == space(1),
        separator(c, Word::PrefixOperator(s), Word::Other(b)) is None,
{
}

/// A `!` after a name other than `if`, or right after a `#`, is set tight to what follows;
/// after `if` it stays a prefix marker.
pub proof fn lemma_bang_roles(prev: Word, s: String)
    requires
        s@ == "!"@,
    ensures
        (prev is Other && prev->Other_0@ != "if"@) ==> resolve_step(prev, Word::PrefixOperator(s))
            == Word::SlimInfix(s),
        (prev is PrefixOperator && prev->PrefixOperator_0@ == "#"@) ==> resolve_step(
            prev,
            Word::PrefixOperator(s),
        ) == Word::SlimInfix(s),
        (prev is Other && prev->Other_0@ == "if"@) ==> resolve_step(prev, Word::PrefixOperator(s))
            == Word::PrefixOperator(s),
{
}

/// A closing brace and a following `else` are joined: the line break between them is
/// dropped, and in a block the layout puts one space between them.
pub proof fn lemma_else_joined(w: Word, e: String, c: Context)
    requires
        is_break(w),
        e@ == "else"@,
        c == Context::CodeBlock || c == Context::CurlyList,
    ensures
        filter_step(Word::CloseBrace, w, Word::Other(e)) is None,
        separator(c, Word::CloseBrace, Word::Other(e)) == space(1),
{
}

/// In the layout of a block, a closing brace directly followed by `else` is followed by one
/// space and then the `else`.
pub proof fn lemma_else_after_brace(ws: Seq<Word>, i: int)
    requires
        0 <= i,
        i + 2 < ws.len(),
        ws[i] is CloseBrace,
        ws[i + 1] is Other && ws[i + 1]->Other_0@ == "else"@,
        top(stack_at(ws, i)) == Context::CodeBlock || top(stack_at(ws, i)) == Context::CurlyList,
    ensures
        exists|j: int|
            0 <= j && j + 2 < laid_out(ws).len() && #[trigger] laid_out(ws)[j] == ws[i] && laid_out(
                ws,
            )[j + 1] == Word::Whitespace(1) && laid_out(ws)[j + 2] == ws[i + 1],
{
    lemma_layout_split(ws, i);
    let pre = layout_prefix(ws, i);
    let st = stack_at(ws, i);
    let c = layout_chunk(ws[i], ws[i + 1], st);
    let st2 = next_stack(ws[i], ws[i + 1], st);
    let c2 = layout_chunk(ws[i + 1], ws[i + 2], st2);
    let rest = layout_from(ws, i + 2, next_stack(ws[i + 1], ws[i + 2], st2));
    assert(c =~= seq![ws[i], Word::Whitespace(1)]);
    assert(layout_from(ws, i, st) == c + layout_from(ws, i + 1, st2));
    assert(layout_from(ws, i + 1, st2) == c2 + rest);
    assert(c2[0] == ws[i + 1]);
    assert(laid_out(ws) =~= pre + (c + (c2 + rest)));
    let j = pre.len() as int;
    assert(laid_out(ws)[j] == ws[i]);
    assert(laid_out(ws)[j + 1] == Word::Whitespace(1));
    assert(laid_out(ws)[j + 2] == ws[i + 1]);
}

} // verus!
