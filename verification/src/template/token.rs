//! The tokenizer: raw template text is cut into plain text, `{{ ... }}`
//! variable markers and `{% ... %}` tag markers.
//!
//! The scan looks for the leftmost marker whose opening pair of characters is
//! followed somewhere by its closing pair, takes the shortest such span, and
//! continues after it; the text between spans is kept verbatim. The
//! segmentation into spans is exact: their concatenation is the source
//! (`lemma_tokens_reconstruct_source`). A token then carries the marker's
//! inner text with the delimiters and surrounding whitespace trimmed away.
use vstd::prelude::*;
use crate::template::text::{
    is_prefix_of, spec_find2, spec_trim, srep_prefix, srep_suffix, find2, starts_with_str,
    strip_prefix_rep, strip_suffix_rep, trim_str,
};

verus! {

/// Token types extracted from the template.
#[derive(Debug)]
pub enum Token {
    Text(String),
    Variable(String),
    Tag(String),
}

/// Mathematical view of a token: the same three shapes over character
/// sequences.
pub enum TokenView {
    Text(Seq<char>),
    Variable(Seq<char>),
    Tag(Seq<char>),
}

pub open spec fn token_view(t: Token) -> TokenView {
    match t {
        Token::Text(s) => TokenView::Text(s@),
        Token::Variable(s) => TokenView::Variable(s@),
        Token::Tag(s) => TokenView::Tag(s@),
    }
}

impl View for Token {
    type V = TokenView;

    open spec fn view(&self) -> TokenView {
        token_view(*self)
    }
}

impl DeepView for Token {
    type V = TokenView;

    open spec fn deep_view(&self) -> TokenView {
        token_view(*self)
    }
}

/// The leftmost marker span at or after `i`: its start and its end (one past
/// the closing pair). A `{{` with some later `}}` opens a variable span, a
/// `{%` with some later `%}` a tag span; the span ends at the earliest
/// closing pair.
pub open spec fn spec_next_span(s: Seq<char>, i: int) -> Option<(int, int)>
    decreases s.len() - i,
{
    if i < 0 || i + 1 >= s.len() {
        None
    } else if s[i] == '{' && s[i + 1] == '{' && spec_find2(s, i + 2, '}', '}') is Some {
        Some((i, spec_find2(s, i + 2, '}', '}')->0 + 2))
    } else if s[i] == '{' && s[i + 1] == '%' && spec_find2(s, i + 2, '%', '}') is Some {
        Some((i, spec_find2(s, i + 2, '%', '}')->0 + 2))
    } else {
        spec_next_span(s, i + 1)
    }
}

pub proof fn lemma_next_span_props(s: Seq<char>, i: int)
    requires
        0 <= i,
    ensures
        match spec_next_span(s, i) {
            Some(p) => i <= p.0 && p.0 + 4 <= p.1 <= s.len() && s[p.0] == '{' && (s[p.0 + 1] == '{'
                || s[p.0 + 1] == '%'),
            None => true,
        },
    decreases s.len() - i,
{
    if i + 1 >= s.len() {
    } else if s[i] == '{' && s[i + 1] == '{' && spec_find2(s, i + 2, '}', '}') is Some {
        crate::template::text::lemma_find2_props(s, i + 2, '}', '}');
    } else if s[i] == '{' && s[i + 1] == '%' && spec_find2(s, i + 2, '%', '}') is Some {
        crate::template::text::lemma_find2_props(s, i + 2, '%', '}');
    } else {
        lemma_next_span_props(s, i + 1);
    }
}

/// One segment of the source: either plain text between markers, or a whole
/// marker span with its delimiters.
pub enum Piece {
    Text(Seq<char>),
    Span(Seq<char>),
}

pub open spec fn piece_raw(p: Piece) -> Seq<char> {
    match p {
        Piece::Text(t) => t,
        Piece::Span(r) => r,
    }
}

/// The segmentation of `s` from position `i` on: alternating text and marker
/// spans, in source order.
pub open spec fn spec_pieces(s: Seq<char>, i: int) -> Seq<Piece>
    decreases s.len() - i,
{
    if i < 0 || i >= s.len() {
        Seq::empty()
    } else {
        match spec_next_span(s, i) {
            None => seq![Piece::Text(s.subrange(i, s.len() as int))],
            Some(p) => {
                let nxt = if i < p.1 <= s.len() {
                    p.1
                } else {
                    i + 1
                };
                let rest = spec_pieces(s, nxt);
                if p.0 > i {
                    seq![Piece::Text(s.subrange(i, p.0)), Piece::Span(s.subrange(p.0, p.1))] + rest
                } else {
                    seq![Piece::Span(s.subrange(p.0, p.1))] + rest
                }
            },
        }
    }
}

/// The inner text of a variable marker: the `{{` / `}}` delimiters stripped
/// repeatedly, then whitespace trimmed.
pub open spec fn spec_var_payload(m: Seq<char>) -> Seq<char> {
    spec_trim(srep_suffix(srep_prefix(m, "{{"@), "}}"@))
}

/// The inner text of a tag marker: the `{% ` / ` %}` delimiters (with their
/// single space of padding) stripped repeatedly, then whitespace trimmed.
pub open spec fn spec_tag_payload(m: Seq<char>) -> Seq<char> {
    spec_trim(srep_suffix(srep_prefix(m, "{% "@), " %}"@))
}

/// The token a piece yields: text verbatim; a marker trimmed, then classified
/// by its first two characters.
pub open spec fn piece_token(p: Piece) -> TokenView {
    match p {
        Piece::Text(t) => TokenView::Text(t),
        Piece::Span(raw) => {
            let m = spec_trim(raw);
            if is_prefix_of("{{"@, m) {
                TokenView::Variable(spec_var_payload(m))
            } else {
                TokenView::Tag(spec_tag_payload(m))
            }
        },
    }
}

pub open spec fn pieces_tokens(ps: Seq<Piece>) -> Seq<TokenView> {
    ps.map_values(|p: Piece| piece_token(p))
}

/// The token stream of a whole source text.
pub open spec fn spec_tokenize(s: Seq<char>) -> Seq<TokenView> {
    pieces_tokens(spec_pieces(s, 0))
}

pub open spec fn pieces_concat(ps: Seq<Piece>) -> Seq<char>
    decreases ps.len(),
{
    if ps.len() == 0 {
        Seq::empty()
    } else {
        piece_raw(ps[0]) + pieces_concat(ps.drop_first())
    }
}

proof fn lemma_pieces_concat_from(s: Seq<char>, i: int)
    requires
        0 <= i <= s.len(),
    ensures
        pieces_concat(spec_pieces(s, i)) == s.subrange(i, s.len() as int),
    decreases s.len() - i,
{
    let n = s.len() as int;
    if i >= n {
        assert(s.subrange(i, n) =~= Seq::<char>::empty());
    } else {
        match spec_next_span(s, i) {
            None => {
                let ps = spec_pieces(s, i);
                assert(ps.drop_first() =~= Seq::<Piece>::empty());
                assert(pieces_concat(Seq::<Piece>::empty()) == Seq::<char>::empty());
                assert(ps[0] == Piece::Text(s.subrange(i, n)));
                assert(pieces_concat(ps) == s.subrange(i, n) + Seq::<char>::empty());
                assert(s.subrange(i, n) + Seq::<char>::empty() =~= s.subrange(i, n));
            },
            Some(p) => {
                lemma_next_span_props(s, i);
                let a = p.0;
                let b = p.1;
                lemma_pieces_concat_from(s, b);
                let rest = spec_pieces(s, b);
                let span = Piece::Span(s.subrange(a, b));
                let tail = seq![span] + rest;
                assert(tail[0] == span);
                assert(tail.drop_first() =~= rest);
                assert(pieces_concat(tail) == s.subrange(a, b) + pieces_concat(rest));
                if a > i {
                    let ps = spec_pieces(s, i);
                    assert(ps =~= seq![Piece::Text(s.subrange(i, a))] + tail);
                    assert(ps[0] == Piece::Text(s.subrange(i, a)));
                    assert(ps.drop_first() =~= tail);
                    assert(pieces_concat(ps) == s.subrange(i, a) + (s.subrange(a, b) + s.subrange(
                        b,
                        n,
                    )));
                    assert(s.subrange(i, a) + (s.subrange(a, b) + s.subrange(b, n)) =~= s.subrange(
                        i,
                        n,
                    ));
                } else {
                    let ps = spec_pieces(s, i);
                    assert(ps =~= tail);
                    assert(s.subrange(a, b) + s.subrange(b, n) =~= s.subrange(i, n));
                }
            },
        }
    }
}

/// Splitting a source into tokens loses nothing: the pieces the tokenizer
/// cuts the source into — each token's payload together with its original
/// delimiters, and the text between markers — concatenate back to the source
/// exactly, for every source text.
pub proof fn lemma_tokens_reconstruct_source(s: Seq<char>)
    ensures
        pieces_concat(spec_pieces(s, 0)) == s,
{
    lemma_pieces_concat_from(s, 0);
    assert(s.subrange(0, s.len() as int) =~= s);
}

/// Tokenizes the template content into a token list.
pub fn tokenize_template(content: &str) -> (tokens: Vec<Token>)
    ensures
        tokens.deep_view() == spec_tokenize(content@),
{
    let n = content.unicode_len();
    let mut tokens: Vec<Token> = Vec::new();
    let mut pos: usize = 0;
    proof {
        assert(tokens.deep_view() =~= Seq::<TokenView>::empty());
        assert(tokens.deep_view() + pieces_tokens(spec_pieces(content@, 0)) =~= pieces_tokens(
            spec_pieces(content@, 0),
        ));
    }
    loop
        invariant_except_break
            spec_tokenize(content@) =~= tokens.deep_view() + pieces_tokens(
                spec_pieces(content@, pos as int),
            ),
        invariant
            n == content@.len(),
            0 <= pos <= n,
        ensures
            tokens.deep_view() == spec_tokenize(content@),
        decreases n - pos,
    {
        let s = content;
        match next_span(content, pos) {
            None => {
                if pos < n {
                    let t = content.substring_char(pos, n).to_owned();
                    let ghost tdv = tokens.deep_view();
                    tokens.push(Token::Text(t));
                    proof {
                        let ps = spec_pieces(s@, pos as int);
                        assert(ps =~= seq![Piece::Text(s@.subrange(pos as int, n as int))]);
                        assert(pieces_tokens(ps) =~= seq![
                            TokenView::Text(s@.subrange(pos as int, n as int)),
                        ]);
                        assert(tokens.deep_view() =~= tdv.push(
                            TokenView::Text(s@.subrange(pos as int, n as int)),
                        ));
                        assert(tdv.push(TokenView::Text(s@.subrange(pos as int, n as int))) =~= tdv
                            + pieces_tokens(ps));
                    }
                } else {
                    proof {
                        assert(spec_pieces(s@, pos as int) =~= Seq::<Piece>::empty());
                        assert(pieces_tokens(Seq::<Piece>::empty()) =~= Seq::<TokenView>::empty());
                        assert(tokens.deep_view() + Seq::<TokenView>::empty() =~= tokens.deep_view());
                    }
                }
                break ;
            },
            Some((a, b)) => {
                proof {
                    lemma_next_span_props(s@, pos as int);
                }
                let ghost pre = spec_pieces(s@, pos as int);
                let ghost span_piece = Piece::Span(s@.subrange(a as int, b as int));
                let ghost rest = spec_pieces(s@, b as int);
                if a > pos {
                    let t = content.substring_char(pos, a).to_owned();
                    let ghost tdv = tokens.deep_view();
                    tokens.push(Token::Text(t));
                    proof {
                        assert(pre =~= seq![Piece::Text(s@.subrange(pos as int, a as int))] + (seq![
                            span_piece,
                        ] + rest));
                        assert(pieces_tokens(pre) =~= seq![
                            TokenView::Text(s@.subrange(pos as int, a as int)),
                        ] + pieces_tokens(seq![span_piece] + rest));
                        assert(tokens.deep_view() =~= tdv.push(
                            TokenView::Text(s@.subrange(pos as int, a as int)),
                        ));
                        assert(spec_tokenize(content@) =~= tokens.deep_view() + pieces_tokens(
                            seq![span_piece] + rest,
                        ));
                    }
                } else {
                    proof {
                        assert(pre =~= seq![span_piece] + rest);
                    }
                }
                let raw = content.substring_char(a, b);
                let m = trim_str(raw);
                proof {
                    reveal_strlit("{{");
                    reveal_strlit("}}");
                    reveal_strlit("{% ");
                    reveal_strlit(" %}");
                }
                let ghost tok = piece_token(span_piece);
                let ghost tdv2 = tokens.deep_view();
                if starts_with_str(m, "{{") {
                    let inner = trim_str(strip_suffix_rep(strip_prefix_rep(m, "{{"), "}}"));
                    tokens.push(Token::Variable(inner.to_owned()));
                } else {
                    let inner = trim_str(strip_suffix_rep(strip_prefix_rep(m, "{% "), " %}"));
                    tokens.push(Token::Tag(inner.to_owned()));
                }
                proof {
                    assert(tokens.deep_view() =~= tdv2.push(tok));
                    assert(pieces_tokens(seq![span_piece] + rest) =~= seq![tok] + pieces_tokens(
                        rest,
                    ));
                    assert(tdv2.push(tok) + pieces_tokens(rest) =~= tdv2 + (seq![tok]
                        + pieces_tokens(rest)));
                }
                pos = b;
            },
        }
    }
    tokens
}

/// The leftmost marker span at or after `from`, as executable search.
fn next_span(s: &str, from: usize) -> (r: Option<(usize, usize)>)
    ensures
        match r {
            Some(p) => spec_next_span(s@, from as int) == Some((p.0 as int, p.1 as int)) && from
                <= p.0 && p.0 + 4 <= p.1 <= s@.len(),
            None => spec_next_span(s@, from as int) is None,
        },
{
    let n = s.unicode_len();
    let mut i: usize = from;
    while i < n && i + 1 < n
        invariant
            n == s@.len(),
            from <= i,
            spec_next_span(s@, from as int) == spec_next_span(s@, i as int),
        decreases n - i,
    {
        let c0 = s.get_char(i);
        let c1 = s.get_char(i + 1);
        if c0 == '{' && c1 == '{' {
            let f = find2(s, i + 2, '}', '}');
            match f {
                Some(j) => {
                    proof {
                        crate::template::text::lemma_find2_props(s@, i + 2, '}', '}');
                    }
                    return Some((i, j + 2));
                },
                None => {},
            }
        } else if c0 == '{' && c1 == '%' {
            let f = find2(s, i + 2, '%', '}');
            match f {
                Some(j) => {
                    proof {
                        crate::template::text::lemma_find2_props(s@, i + 2, '%', '}');
                    }
                    return Some((i, j + 2));
                },
                None => {},
            }
        }
        i = i + 1;
    }
    None
}

} // verus!
