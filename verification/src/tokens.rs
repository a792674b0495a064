//! Token streams as the code generators build them.
//!
//! A stream is a flat sequence of tokens in which groups are written as an
//! opening and a closing delimiter. Spans are handles: either the call site
//! of the macro, or the `k`-th span of the input. A `Splice(k)` token stands
//! for the `k`-th fragment of the input (a type, a visibility, a lifetime,
//! a generics list), copied as written.
use vstd::prelude::*;
use vstd::string::StringExecFns;

verus! {

/// Where a token's span comes from.
#[derive(Clone, Copy, PartialEq, Eq, Structural)]
pub enum SpanRef {
    CallSite,
    Input(usize),
}

#[derive(Clone, Copy, PartialEq, Eq, Structural)]
pub enum Delimiter {
    Parenthesis,
    Brace,
    Bracket,
}

#[derive(Clone, Copy, PartialEq, Eq, Structural)]
pub enum Spacing {
    Alone,
    Joint,
}

pub enum Token {
    Ident { name: String, span: SpanRef },
    Punct { ch: char, spacing: Spacing, span: SpanRef },
    /// A string literal with this value.
    StrLiteral { value: String },
    Open(Delimiter),
    Close(Delimiter),
    Splice(usize),
}

/// A token as a value: names and literal values as character sequences.
pub enum TokenView {
    Ident(Seq<char>, SpanRef),
    Punct(char, Spacing, SpanRef),
    StrLiteral(Seq<char>),
    Open(Delimiter),
    Close(Delimiter),
    Splice(usize),
}

impl View for Token {
    type V = TokenView;

    open spec fn view(&self) -> TokenView {
        match self {
            Token::Ident { name, span } => TokenView::Ident(name@, *span),
            Token::Punct { ch, spacing, span } => TokenView::Punct(*ch, *spacing, *span),
            Token::StrLiteral { value } => TokenView::StrLiteral(value@),
            Token::Open(d) => TokenView::Open(*d),
            Token::Close(d) => TokenView::Close(*d),
            Token::Splice(k) => TokenView::Splice(*k),
        }
    }
}

/// The view of a stream.
pub open spec fn toks(s: Seq<Token>) -> Seq<TokenView> {
    s.map_values(|t: Token| t@)
}

/// The concatenation of streams.
pub open spec fn flatten(s: Seq<Seq<TokenView>>) -> Seq<TokenView>
    decreases s.len(),
{
    if s.len() == 0 {
        Seq::empty()
    } else {
        s[0] + flatten(s.drop_first())
    }
}

/// An identifier at the call site.
pub open spec fn id(name: Seq<char>) -> TokenView {
    TokenView::Ident(name, SpanRef::CallSite)
}

/// A punctuation character standing alone, at the call site.
pub open spec fn p(ch: char) -> TokenView {
    TokenView::Punct(ch, Spacing::Alone, SpanRef::CallSite)
}

/// A punctuation character joined to the next one, at the call site.
pub open spec fn pj(ch: char) -> TokenView {
    TokenView::Punct(ch, Spacing::Joint, SpanRef::CallSite)
}

/// `::`
pub open spec fn colon2() -> Seq<TokenView> {
    seq![pj(':'), p(':')]
}

/// `stream` inside the delimiter `d`.
pub open spec fn grouped(d: Delimiter, stream: Seq<TokenView>) -> Seq<TokenView> {
    seq![TokenView::Open(d)] + stream + seq![TokenView::Close(d)]
}

/// An identifier from the input: its text and where it stands.
pub struct IdentModel {
    pub name: String,
    pub span: SpanRef,
}

impl IdentModel {
    /// This identifier as a token.
    pub open spec fn tok(self) -> TokenView {
        TokenView::Ident(self.name@, self.span)
    }

    pub fn duplicate(&self) -> (r: Self)
        ensures
            r.name@ == self.name@,
            r.span == self.span,
    {
        IdentModel { name: self.name.clone(), span: self.span }
    }

    pub fn to_token(&self) -> (r: Token)
        ensures
            r@ == self.tok(),
    {
        Token::Ident { name: self.name.clone(), span: self.span }
    }
}

/// An identifier at the call site.
pub fn ident(name: &str) -> (r: Token)
    ensures
        r@ == id(name@),
{
    Token::Ident { name: String::from_str(name), span: SpanRef::CallSite }
}

/// A punctuation character standing alone, at the call site.
pub fn punct(ch: char) -> (r: Token)
    ensures
        r@ == p(ch),
{
    Token::Punct { ch, spacing: Spacing::Alone, span: SpanRef::CallSite }
}

/// A punctuation character joined to the next one, at the call site.
pub fn punct_joint(ch: char) -> (r: Token)
    ensures
        r@ == pj(ch),
{
    Token::Punct { ch, spacing: Spacing::Joint, span: SpanRef::CallSite }
}

/// Appends `::` to `out`.
pub fn push_colon2(out: &mut Vec<Token>)
    ensures
        toks(final(out)@) == toks(old(out)@) + colon2(),
{
    let ghost before = out@;
    out.push(punct_joint(':'));
    out.push(punct(':'));
    proof {
        assert(toks(out@) =~= toks(before) + colon2());
    }
}

/// Appends `stream` to `out`.
pub fn push_all(out: &mut Vec<Token>, stream: Vec<Token>)
    ensures
        toks(final(out)@) == toks(old(out)@) + toks(stream@),
{
    let ghost before = out@;
    let ghost added = stream@;
    let mut stream = stream;
    out.append(&mut stream);
    proof {
        assert(toks(out@) =~= toks(before) + toks(added));
    }
}

/// `s` with `sep` between each two neighbours.
pub open spec fn interleave<A>(s: Seq<A>, sep: A) -> Seq<A> {
    Seq::new(
        if s.len() == 0 {
            0
        } else {
            (2 * s.len() - 1) as nat
        },
        |i: int|
            if i % 2 == 0 {
                s[i / 2]
            } else {
                sep
            },
    )
}

/// Appends a token.
pub fn push_tok(out: &mut Vec<Token>, t: Token)
    ensures
        toks(final(out)@) == toks(old(out)@) + seq![t@],
{
    let ghost before = out@;
    let ghost tv = t@;
    out.push(t);
    proof {
        assert(toks(out@) =~= toks(before) + seq![tv]);
    }
}

/// Appends an identifier at the call site.
pub fn push_ident(out: &mut Vec<Token>, name: &str)
    ensures
        toks(final(out)@) == toks(old(out)@) + seq![id(name@)],
{
    push_tok(out, ident(name));
}

/// Appends a punctuation character standing alone.
pub fn push_punct(out: &mut Vec<Token>, ch: char)
    ensures
        toks(final(out)@) == toks(old(out)@) + seq![p(ch)],
{
    push_tok(out, punct(ch));
}

/// Appends `->`.
pub fn push_rarrow(out: &mut Vec<Token>)
    ensures
        toks(final(out)@) == toks(old(out)@) + seq![pj('-'), p('>')],
{
    let ghost before = out@;
    out.push(punct_joint('-'));
    out.push(punct('>'));
    proof {
        assert(toks(out@) =~= toks(before) + seq![pj('-'), p('>')]);
    }
}

/// Appends an opening delimiter.
pub fn push_open(out: &mut Vec<Token>, d: Delimiter)
    ensures
        toks(final(out)@) == toks(old(out)@) + seq![TokenView::Open(d)],
{
    push_tok(out, Token::Open(d));
}

/// Appends a closing delimiter.
pub fn push_close(out: &mut Vec<Token>, d: Delimiter)
    ensures
        toks(final(out)@) == toks(old(out)@) + seq![TokenView::Close(d)],
{
    push_tok(out, Token::Close(d));
}

/// Appends the fragment of the input with handle `k`.
pub fn push_splice(out: &mut Vec<Token>, k: usize)
    ensures
        toks(final(out)@) == toks(old(out)@) + seq![TokenView::Splice(k)],
{
    push_tok(out, Token::Splice(k));
}

} // verus!
