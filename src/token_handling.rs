use vstd::prelude::*;

verus! {

/// `s` repeated `n` times.
pub open spec fn repeat_seq(s: Seq<char>, n: nat) -> Seq<char>
    decreases n,
{
    if n == 0 {
        Seq::empty()
    } else {
        repeat_seq(s, (n - 1) as nat) + s
    }
}

pub proof fn lemma_repeat_len(s: Seq<char>, n: nat)
    ensures
        repeat_seq(s, n).len() == n * s.len(),
    decreases n,
{
    if n > 0 {
        lemma_repeat_len(s, (n - 1) as nat);
        assert(n * s.len() == (n - 1) * s.len() + s.len()) by (nonlinear_arith);
    } else {
        assert(0 * s.len() == 0);
    }
}

/// Whether the text of `s` is exactly `lit`.
pub fn text_is(s: &str, lit: &str) -> (r: bool)
    ensures
        r == (s@ == lit@),
{
    let n = s.unicode_len();
    if n != lit.unicode_len() {
        return false;
    }
    let mut i: usize = 0;
    while i < n
        invariant
            n == s@.len(),
            n == lit@.len(),
            i <= n,
            forall|j: int| 0 <= j < i ==> s@[j] == lit@[j],
        decreases n - i,
    {
        if s.get_char(i) != lit.get_char(i) {
            return false;
        }
        i += 1;
    }
    assert(s@ =~= lit@);
    true
}

pub fn repeat(s: &str, n: usize) -> (r: String)
    ensures
        r@ == repeat_seq(s@, n as nat),
{
    let mut out = String::new();
    let mut i: usize = 0;
    while i < n
        invariant
            i <= n,
            out@ == repeat_seq(s@, i as nat),
        decreases n - i,
    {
        out.append(s);
        i += 1;
    }
    out
}


/// Arithmetic operators that also come in a compound-assignment form.
#[derive(Debug, Clone, Copy, PartialEq, Eq)]
pub enum BinOpToken {
    Plus,
    Minus,
    Star,
    Slash,
    Percent,
    Caret,
    And,
    Or,
    Shl,
    Shr,
}

/// The three kinds of delimiters.
#[derive(Debug, Clone, Copy, PartialEq, Eq)]
pub enum DelimToken {
    Paren,
    Bracket,
    Brace,
}

/// A literal as the lexer reports it: its text without quotes or prefixes.
#[derive(Debug, Clone, PartialEq, Eq)]
pub enum Lit {
    Byte(String),
    Char(String),
    Float(String),
    Integer(String),
    Str(String),
    /// A raw string and the number of `#` around it.
    StrRaw(String, usize),
    Binary(String),
    BinaryRaw(String, usize),
}

/// A lexical token of the source language.
#[derive(Debug, Clone, PartialEq, Eq)]
pub enum Token {
    Eq,
    Lt,
    Le,
    EqEq,
    Ne,
    Ge,
    Gt,
    AndAnd,
    OrOr,
    Not,
    Tilde,
    BinOp(BinOpToken),
    BinOpEq(BinOpToken),
    At,
    Dot,
    DotDot,
    DotDotDot,
    Comma,
    Semi,
    Colon,
    ModSep,
    RArrow,
    LArrow,
    FatArrow,
    Pound,
    Dollar,
    Question,
    OpenDelim(DelimToken),
    CloseDelim(DelimToken),
    /// A literal with its optional suffix (`1u8`).
    Literal(Lit, Option<String>),
    Ident(String),
    Underscore,
    /// A lifetime, with its leading apostrophe.
    Lifetime(String),
    DocComment(String),
    Whitespace,
    Comment,
    Shebang(String),
    /// A token that only macro expansion makes (an interpolated fragment, a macro variable).
    MacroFragment,
    Eof,
}

/// A token together with the exact source text of its span.
#[derive(Debug, Clone, PartialEq, Eq)]
pub struct SourceToken {
    pub tok: Token,
    pub snippet: String,
}

// A word is a token reduced to all the information the pretty printing process requires.
#[derive(Debug, Clone, PartialEq, Eq)]
pub enum Word {
    /// Set with one space on each side: `+`, `==`, `as`.
    BinaryOperator(String),
    /// Set with a space before and none after: `!`, `&`, `#`.
    PrefixOperator(String),
    /// Set with no space around it: `.`, `..`, `::`.
    SlimInfix(String),
    /// Identifiers, keywords and literals.
    Other(String),
    /// A comment, verbatim with its delimiters.
    Comment(String),
    LineBreak,
    LineBreakDouble,
    LineBreakIntentPlus,
    LineBreakIntentMinus,
    SemiColon,
    Comma,
    Colon,
    /// A run of spaces of the given width.
    Whitespace(i32),
    OpenBracket,
    CloseBracket,
    OpenParen,
    CloseParen,
    OpenBrace,
    CloseBrace,
    Nope,
    Eof,
}

/// The text a word renders to, line breaks rendered without indentation.
pub open spec fn word_text(w: Word) -> Seq<char> {
    match w {
        Word::BinaryOperator(s) => s@,
        Word::PrefixOperator(s) => s@,
        Word::SlimInfix(s) => s@,
        Word::Other(s) => s@,
        Word::Comment(s) => s@,
        Word::OpenParen => "("@,
        Word::CloseParen => ")"@,
        Word::OpenBrace => "{"@,
        Word::CloseBrace => "}"@,
        Word::OpenBracket => "["@,
        Word::CloseBracket => "]"@,
        Word::SemiColon => ";"@,
        Word::Comma => ","@,
        Word::Colon => ":"@,
        Word::LineBreak => "\n"@,
        Word::LineBreakIntentPlus => "\n"@,
        Word::LineBreakIntentMinus => "\n"@,
        Word::LineBreakDouble => "\n\n"@,
        Word::Whitespace(i) => if i > 0 {
            repeat_seq(" "@, i as nat)
        } else {
            Seq::empty()
        },
        Word::Nope => Seq::empty(),
        Word::Eof => Seq::empty(),
    }
}

pub open spec fn is_binary(w: Word, text: Seq<char>) -> bool {
    w matches Word::BinaryOperator(s) && s@ == text
}

pub open spec fn is_prefix(w: Word, text: Seq<char>) -> bool {
    w matches Word::PrefixOperator(s) && s@ == text
}

pub open spec fn is_slim(w: Word, text: Seq<char>) -> bool {
    w matches Word::SlimInfix(s) && s@ == text
}

pub open spec fn is_other(w: Word, text: Seq<char>) -> bool {
    w matches Word::Other(s) && s@ == text
}

pub open spec fn binop_text(b: BinOpToken) -> Seq<char> {
    match b {
        BinOpToken::Plus => "+"@,
        BinOpToken::Minus => "-"@,
        BinOpToken::Star => "*"@,
        BinOpToken::Slash => "/"@,
        BinOpToken::Percent => "%"@,
        BinOpToken::Caret => "^"@,
        BinOpToken::And => "&"@,
        BinOpToken::Or => "|"@,
        BinOpToken::Shl => "<<"@,
        BinOpToken::Shr => ">>"@,
    }
}

/// The canonical text of a literal, quotes, prefixes and raw delimiters included.
pub open spec fn literal_text(l: Lit) -> Seq<char> {
    match l {
        Lit::Byte(b) => "b'"@ + b@ + "'"@,
        Lit::Char(c) => "'"@ + c@ + "'"@,
        Lit::Float(c) => c@,
        Lit::Integer(c) => c@,
        Lit::Str(s) => "\""@ + s@ + "\""@,
        Lit::StrRaw(s, n) => "r"@ + repeat_seq("#"@, n as nat) + "\""@ + s@ + "\""@ + repeat_seq(
            "#"@,
            n as nat,
        ),
        Lit::Binary(v) => "b\""@ + v@ + "\""@,
        Lit::BinaryRaw(s, n) => "br"@ + repeat_seq("#"@, n as nat) + "\""@ + s@ + "\""@
            + repeat_seq("#"@, n as nat),
    }
}

pub open spec fn suffix_text(suf: Option<String>) -> Seq<char> {
    match suf {
        Some(s) => s@,
        None => Seq::empty(),
    }
}

/// `w` is the word that the token `t` maps to.
pub open spec fn classifies_token(t: Token, w: Word) -> bool {
    match t {
        Token::Eq => is_binary(w, "="@),
        Token::EqEq => is_binary(w, "=="@),
        Token::Ne => is_binary(w, "!="@),
        Token::Ge => is_binary(w, ">="@),
        Token::Gt => is_binary(w, ">"@),
        Token::Le => is_binary(w, "<="@),
        Token::Lt => is_binary(w, "<"@),
        Token::AndAnd => is_binary(w, "&&"@),
        Token::OrOr => is_binary(w, "||"@),
        Token::Not => is_prefix(w, "!"@),
        Token::Tilde => is_prefix(w, "~"@),
        Token::BinOp(b) => match b {
            BinOpToken::And => is_prefix(w, "&"@),
            _ => is_binary(w, binop_text(b)),
        },
        Token::BinOpEq(b) => is_binary(w, binop_text(b) + "="@),
        Token::At => is_prefix(w, "@"@),
        Token::Dot => is_slim(w, "."@),
        Token::DotDot => is_slim(w, ".."@),
        Token::DotDotDot => is_slim(w, "..."@),
        Token::ModSep => is_slim(w, "::"@),
        Token::Comma => w == Word::Comma,
        Token::Semi => w == Word::SemiColon,
        Token::Colon => w == Word::Colon,
        Token::RArrow => is_binary(w, "->"@),
        Token::LArrow => is_other(w, "<-"@),
        Token::FatArrow => is_binary(w, "=>"@),
        Token::OpenDelim(d) => w == match d {
            DelimToken::Paren => Word::OpenParen,
            DelimToken::Bracket => Word::OpenBracket,
            DelimToken::Brace => Word::OpenBrace,
        },
        Token::CloseDelim(d) => w == match d {
            DelimToken::Paren => Word::CloseParen,
            DelimToken::Bracket => Word::CloseBracket,
            DelimToken::Brace => Word::CloseBrace,
        },
        Token::Pound => is_prefix(w, "#"@),
        Token::Dollar => is_prefix(w, "$"@),
        Token::Question => is_prefix(w, "?"@),
        Token::Literal(l, suf) => is_other(w, literal_text(l) + suffix_text(suf)),
        Token::Ident(s) => if s@ == "as"@ {
            is_binary(w, s@)
        } else {
            is_other(w, s@)
        },
        Token::Lifetime(s) => is_other(w, s@),
        Token::Underscore => is_other(w, "_"@),
        Token::Whitespace => w == Word::Whitespace(0),
        Token::DocComment(s) => w matches Word::Comment(c) && c@ == s@,
        Token::Comment => w matches Word::Comment(c) && c@.len() == 0,
        Token::Shebang(_) => w == Word::Nope,
        Token::MacroFragment => w == Word::Nope,
        Token::Eof => false,
    }
}

fn text(s: &str) -> (r: String)
    ensures
        r@ == s@,
{
    String::from_str(s)
}

fn binary(s: &str) -> (r: Word)
    ensures
        is_binary(r, s@),
{
    Word::BinaryOperator(text(s))
}

fn prefix(s: &str) -> (r: Word)
    ensures
        is_prefix(r, s@),
{
    Word::PrefixOperator(text(s))
}

fn slim(s: &str) -> (r: Word)
    ensures
        is_slim(r, s@),
{
    Word::SlimInfix(text(s))
}

fn literal_to_string(l: &Lit) -> (r: String)
    ensures
        r@ == literal_text(*l),
{
    match l {
        Lit::Byte(b) => {
            let mut out = text("b'");
            out.append(b.as_str());
            out.append("'");
            out
        },
        Lit::Char(c) => {
            let mut out = text("'");
            out.append(c.as_str());
            out.append("'");
            out
        },
        Lit::Float(c) => c.clone(),
        Lit::Integer(c) => c.clone(),
        Lit::Str(s) => {
            let mut out = text("\"");
            out.append(s.as_str());
            out.append("\"");
            out
        },
        Lit::StrRaw(s, n) => {
            let delim = repeat("#", *n);
            let mut out = text("r");
            out.append(delim.as_str());
            out.append("\"");
            out.append(s.as_str());
            out.append("\"");
            out.append(delim.as_str());
            out
        },
        Lit::Binary(v) => {
            let mut out = text("b\"");
            out.append(v.as_str());
            out.append("\"");
            out
        },
        Lit::BinaryRaw(s, n) => {
            let delim = repeat("#", *n);
            let mut out = text("br");
            out.append(delim.as_str());
            out.append("\"");
            out.append(s.as_str());
            out.append("\"");
            out.append(delim.as_str());
            out
        },
    }
}

/// The number of line breaks in `s`.
pub open spec fn newline_count(s: Seq<char>) -> nat
    decreases s.len(),
{
    if s.len() == 0 {
        0
    } else {
        newline_count(s.drop_last()) + if s.last() == '\n' {
            1nat
        } else {
            0nat
        }
    }
}

/// The number of line breaks in `s`, counted up to 2.
fn newline_kind(s: &str) -> (r: u8)
    ensures
        r as nat == if newline_count(s@) >= 2 {
            2
        } else {
            newline_count(s@)
        },
{
    let n = s.unicode_len();
    let mut i: usize = 0;
    let mut count: u8 = 0;
    while i < n
        invariant
            n == s@.len(),
            i <= n,
            count as nat == if newline_count(s@.subrange(0, i as int)) >= 2 {
                2
            } else {
                newline_count(s@.subrange(0, i as int))
            },
        decreases n - i,
    {
        assert(s@.subrange(0, i + 1).drop_last() =~= s@.subrange(0, i as int));
        if s.get_char(i) == '\n' && count < 2 {
            count = count + 1;
        }
        i += 1;
    }
    assert(s@.subrange(0, n as int) =~= s@);
    count
}

impl Word {
    /// A copy of this word.
    pub fn duplicate(&self) -> (r: Word)
        ensures
            r == *self,
    {
        match self {
            Word::BinaryOperator(s) => Word::BinaryOperator(s.clone()),
            Word::PrefixOperator(s) => Word::PrefixOperator(s.clone()),
            Word::SlimInfix(s) => Word::SlimInfix(s.clone()),
            Word::Other(s) => Word::Other(s.clone()),
            Word::Comment(s) => Word::Comment(s.clone()),
            Word::LineBreak => Word::LineBreak,
            Word::LineBreakDouble => Word::LineBreakDouble,
            Word::LineBreakIntentPlus => Word::LineBreakIntentPlus,
            Word::LineBreakIntentMinus => Word::LineBreakIntentMinus,
            Word::SemiColon => Word::SemiColon,
            Word::Comma => Word::Comma,
            Word::Colon => Word::Colon,
            Word::Whitespace(i) => Word::Whitespace(*i),
            Word::OpenBracket => Word::OpenBracket,
            Word::CloseBracket => Word::CloseBracket,
            Word::OpenParen => Word::OpenParen,
            Word::CloseParen => Word::CloseParen,
            Word::OpenBrace => Word::OpenBrace,
            Word::CloseBrace => Word::CloseBrace,
            Word::Nope => Word::Nope,
            Word::Eof => Word::Eof,
        }
    }

    /// The number of characters in the text of this word.
    pub fn width(&self) -> (r: usize)
        ensures
            r == word_text(*self).len(),
    {
        match self {
            Word::BinaryOperator(s) => s.as_str().unicode_len(),
            Word::PrefixOperator(s) => s.as_str().unicode_len(),
            Word::SlimInfix(s) => s.as_str().unicode_len(),
            Word::Other(s) => s.as_str().unicode_len(),
            Word::Comment(s) => s.as_str().unicode_len(),
            Word::LineBreakDouble => {
                proof {
                    reveal_strlit("\n\n");
                }
                2
            },
            Word::Whitespace(i) => {
                if *i > 0 {
                    proof {
                        reveal_strlit(" ");
                        lemma_repeat_len(" "@, *i as nat);
                    }
                    *i as usize
                } else {
                    0
                }
            },
            Word::Nope | Word::Eof => 0,
            _ => {
                proof {
                    reveal_strlit("\n");
                    reveal_strlit("(");
                    reveal_strlit(")");
                    reveal_strlit("{");
                    reveal_strlit("}");
                    reveal_strlit("[");
                    reveal_strlit("]");
                    reveal_strlit(";");
                    reveal_strlit(",");
                    reveal_strlit(":");
                }
                1
            },
        }
    }

    /// The text of this word.
    pub fn to_string(self) -> (r: String)
        ensures
            r@ == word_text(self),
    {
        match self {
            Word::BinaryOperator(s) => s,
            Word::PrefixOperator(s) => s,
            Word::OpenParen => text("("),
            Word::CloseParen => text(")"),
            Word::OpenBrace => text("{"),
            Word::CloseBrace => text("}"),
            Word::OpenBracket => text("["),
            Word::CloseBracket => text("]"),
            Word::SemiColon => text(";"),
            Word::Comma => text(","),
            Word::Colon => text(":"),
            Word::SlimInfix(s) => s,
            Word::Other(s) => s,
            Word::Comment(s) => text(convert_comment(s.as_str())),
            Word::LineBreak | Word::LineBreakIntentPlus | Word::LineBreakIntentMinus => text("\n"),
            Word::LineBreakDouble => text("\n\n"),
            Word::Whitespace(i) => if i > 0 {
                repeat(" ", i as usize)
            } else {
                String::new()
            },
            Word::Nope => String::new(),
            Word::Eof => String::new(),
        }
    }

    /// Maps a token to its word.
    pub fn from_token(token: &Token) -> (r: Word)
        requires
            !(*token is Eof),
        ensures
            classifies_token(*token, r),
    {
        match token {
            Token::Eq => binary("="),
            Token::EqEq => binary("=="),
            Token::Ne => binary("!="),
            Token::Ge => binary(">="),
            Token::Gt => binary(">"),
            Token::Le => binary("<="),
            Token::Lt => binary("<"),
            Token::AndAnd => binary("&&"),
            Token::OrOr => binary("||"),
            Token::Not => prefix("!"),
            Token::Tilde => prefix("~"),
            Token::BinOp(b) => match b {
                BinOpToken::Plus => binary("+"),
                BinOpToken::Minus => binary("-"),
                BinOpToken::Star => binary("*"),
                BinOpToken::Slash => binary("/"),
                BinOpToken::Percent => binary("%"),
                BinOpToken::Caret => binary("^"),
                BinOpToken::And => prefix("&"),
                BinOpToken::Or => binary("|"),
                BinOpToken::Shl => binary("<<"),
                BinOpToken::Shr => binary(">>"),
            },
            Token::BinOpEq(b) => {
                let r = match b {
                    BinOpToken::Plus => binary("+="),
                    BinOpToken::Minus => binary("-="),
                    BinOpToken::Star => binary("*="),
                    BinOpToken::Slash => binary("/="),
                    BinOpToken::Percent => binary("%="),
                    BinOpToken::Caret => binary("^="),
                    BinOpToken::And => binary("&="),
                    BinOpToken::Or => binary("|="),
                    BinOpToken::Shl => binary("<<="),
                    BinOpToken::Shr => binary(">>="),
                };
                proof {
                    reveal_strlit("+");
                    reveal_strlit("-");
                    reveal_strlit("*");
                    reveal_strlit("/");
                    reveal_strlit("%");
                    reveal_strlit("^");
                    reveal_strlit("&");
                    reveal_strlit("|");
                    reveal_strlit("<<");
                    reveal_strlit(">>");
                    reveal_strlit("=");
                    reveal_strlit("+=");
                    reveal_strlit("-=");
                    reveal_strlit("*=");
                    reveal_strlit("/=");
                    reveal_strlit("%=");
                    reveal_strlit("^=");
                    reveal_strlit("&=");
                    reveal_strlit("|=");
                    reveal_strlit("<<=");
                    reveal_strlit(">>=");
                    assert(binop_text(*b) + "="@ =~= word_text(r));
                }
                r
            },
            Token::At => prefix("@"),
            Token::Dot => slim("."),
            Token::DotDot => slim(".."),
            Token::DotDotDot => slim("..."),
            Token::ModSep => slim("::"),
            Token::Comma => Word::Comma,
            Token::Semi => Word::SemiColon,
            Token::Colon => Word::Colon,
            Token::RArrow => binary("->"),
            Token::LArrow => Word::Other(text("<-")),
            Token::FatArrow => binary("=>"),
            Token::OpenDelim(DelimToken::Paren) => Word::OpenParen,
            Token::CloseDelim(DelimToken::Paren) => Word::CloseParen,
            Token::OpenDelim(DelimToken::Bracket) => Word::OpenBracket,
            Token::CloseDelim(DelimToken::Bracket) => Word::CloseBracket,
            Token::OpenDelim(DelimToken::Brace) => Word::OpenBrace,
            Token::CloseDelim(DelimToken::Brace) => Word::CloseBrace,
            Token::Pound => prefix("#"),
            Token::Dollar => prefix("$"),
            Token::Question => prefix("?"),
            Token::Literal(lit, suf) => {
                let mut out = literal_to_string(lit);
                match suf {
                    Some(s) => out.append(s.as_str()),
                    None => {},
                }
                proof {
                    if suf.is_none() {
                        assert(out@ =~= literal_text(*lit) + suffix_text(*suf));
                    }
                }
                Word::Other(out)
            },
            Token::Ident(s) => {
                if text_is(s.as_str(), "as") {
                    Word::BinaryOperator(s.clone())
                } else {
                    Word::Other(s.clone())
                }
            },
            Token::Lifetime(s) => Word::Other(s.clone()),
            Token::Underscore => Word::Other(text("_")),
            Token::Whitespace => Word::Whitespace(0),
            Token::DocComment(s) => Word::Comment(s.clone()),
            Token::Comment => Word::Comment(String::new()),
            Token::Shebang(_) | Token::MacroFragment => Word::Nope,
            Token::Eof => Word::Nope,
        }
    }
}

/// Whether the classifier keeps a word for this token.
pub open spec fn emits(t: SourceToken) -> bool {
    match t.tok {
        Token::Whitespace => newline_count(t.snippet@) >= 1,
        Token::Shebang(_) => false,
        Token::MacroFragment => false,
        _ => true,
    }
}

/// `w` is the word that the classifier keeps for the token `t`.
pub open spec fn classifies(t: SourceToken, w: Word) -> bool {
    match t.tok {
        Token::Whitespace => if newline_count(t.snippet@) >= 2 {
            w == Word::LineBreakDouble
        } else {
            w == Word::LineBreak
        },
        Token::Comment => w matches Word::Comment(c) && c@ == t.snippet@,
        Token::DocComment(_) => w matches Word::Comment(c) && c@ == t.snippet@,
        _ => classifies_token(t.tok, w),
    }
}

/// `ws` is the classification of `toks`, one word for each token that keeps one, in order.
pub open spec fn classified(toks: Seq<SourceToken>, ws: Seq<Word>) -> bool
    decreases toks.len(),
{
    if toks.len() == 0 {
        ws.len() == 0
    } else if emits(toks.last()) {
        &&& ws.len() > 0
        &&& classifies(toks.last(), ws.last())
        &&& classified(toks.drop_last(), ws.drop_last())
    } else {
        classified(toks.drop_last(), ws)
    }
}

/// `k` is the position of the first end-of-input token.
pub open spec fn first_eof(toks: Seq<SourceToken>, k: int) -> bool {
    &&& 0 <= k < toks.len()
    &&& toks[k].tok is Eof
    &&& forall|j: int| 0 <= j < k ==> !(toks[j].tok is Eof)
}

/// `ws` is what the classifier makes of `toks`: the words of the tokens before the
/// first end-of-input token, then the end marker.
pub open spec fn tokens_to_words(toks: Seq<SourceToken>, ws: Seq<Word>) -> bool {
    &&& ws.len() > 0
    &&& ws.last() == Word::Eof
    &&& forall|k: int| first_eof(toks, k) ==> classified(toks.subrange(0, k), ws.drop_last())
}

/// Classifies a token stream into words, up to and including its end marker.
pub fn put_tokens_into_vec(tokens: &Vec<SourceToken>) -> (r: Vec<Word>)
    requires
        exists|k: int| 0 <= k < tokens@.len() && tokens@[k].tok is Eof,
    ensures
        tokens_to_words(tokens@, r@),
{
    let mut words: Vec<Word> = Vec::new();
    let mut i: usize = 0;
    let n = tokens.len();
    loop
        invariant
            n == tokens@.len(),
            i < n,
            exists|k: int| i <= k < tokens@.len() && tokens@[k].tok is Eof,
            forall|j: int| 0 <= j < i ==> !(tokens@[j].tok is Eof),
            classified(tokens@.subrange(0, i as int), words@),
        decreases tokens@.len() - i,
    {
        let t = &tokens[i];
        let ghost before = words@;
        assert(tokens@.subrange(0, i + 1).drop_last() =~= tokens@.subrange(0, i as int));
        match &t.tok {
            Token::Eof => {
                words.push(Word::Eof);
                assert(words@.drop_last() =~= before);
                assert forall|k: int| first_eof(tokens@, k) implies classified(
                    tokens@.subrange(0, k),
                    words@.drop_last(),
                ) by {
                    assert(k == i);
                }
                return words;
            },
            Token::Whitespace => {
                let kind = newline_kind(t.snippet.as_str());
                if kind == 2 {
                    words.push(Word::LineBreakDouble);
                } else if kind == 1 {
                    words.push(Word::LineBreak);
                }
            },
            Token::Comment | Token::DocComment(_) => {
                words.push(Word::Comment(t.snippet.clone()));
            },
            Token::Shebang(_) | Token::MacroFragment => {},
            _ => {
                words.push(Word::from_token(&t.tok));
            },
        }
        assert(words@.len() > before.len() ==> words@.drop_last() =~= before);
        assert(classified(tokens@.subrange(0, i + 1), words@));
        proof {
            let k = choose|k: int| i <= k < tokens@.len() && tokens@[k].tok is Eof;
            assert(t.tok == tokens@[i as int].tok);
            assert(k != i);
        }
        i += 1;
    }
}

/// Turns a comment into the form it is printed in; comments are kept verbatim.
pub fn convert_comment(comment: &str) -> (r: &str)
    ensures
        r@ == comment@,
{
    comment
}
} // verus!
