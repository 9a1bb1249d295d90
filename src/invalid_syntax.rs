use vstd::prelude::*;

use crate::reserved_word::ReservedWord;
use crate::token::{Token, TokenBase, TokenBaseModel, TokenPosition, TokenView};

verus! {

/// The kinds of syntax diagnostic, as mathematical values.
pub enum DiagKind {
    /// One of these kinds of token was expected and this token was found.
    Expected(Seq<TokenBaseModel>, TokenView),
    /// The input ended where more was required.
    Eof,
    /// `**` directly after a unary-prefixed operand.
    Exponential,
}

/// A syntax diagnostic as mathematical values: its kind and where it points.
pub struct DiagView {
    pub kind: DiagKind,
    pub ln: int,
    pub col: int,
    pub path: Seq<char>,
}

/// The expected token kinds and the token that was found instead.
#[derive(Debug)]
pub struct ExpectedActuallyTokenPair(pub Vec<TokenBase>, pub Token);

/// The kind of a syntax diagnostic.
#[derive(Debug)]
pub enum InvalidSyntaxType {
    ExpectedNext(ExpectedActuallyTokenPair),
    UnexpectedEof,
    ExponentialError(),
}

/// A syntax diagnostic and the position it points at.
#[derive(Debug)]
pub struct InvalidSyntax {
    position: TokenPosition,
    invalid_syntax_type: InvalidSyntaxType,
}

pub open spec fn base_views(v: Seq<TokenBase>) -> Seq<TokenBaseModel> {
    v.map_values(|b: TokenBase| b@)
}

impl View for InvalidSyntaxType {
    type V = DiagKind;

    open spec fn view(&self) -> DiagKind {
        match self {
            InvalidSyntaxType::ExpectedNext(p) => DiagKind::Expected(base_views(p.0@), p.1@),
            InvalidSyntaxType::UnexpectedEof => DiagKind::Eof,
            InvalidSyntaxType::ExponentialError() => DiagKind::Exponential,
        }
    }
}

impl View for InvalidSyntax {
    type V = DiagView;

    closed spec fn view(&self) -> DiagView {
        DiagView {
            kind: self.invalid_syntax_type@,
            ln: self.position.ln as int,
            col: self.position.col as int,
            path: self.position.path@,
        }
    }
}

/// The position that a diagnostic about token `t` points at.
pub open spec fn diag_at(kind: DiagKind, t: TokenView) -> DiagView {
    DiagView { kind, ln: t.ln, col: t.col, path: t.path }
}

impl InvalidSyntax {
    pub fn new(position: TokenPosition, invalid_syntax_type: InvalidSyntaxType) -> (r: InvalidSyntax)
        ensures
            r@ == (DiagView {
                kind: invalid_syntax_type@,
                ln: position.ln as int,
                col: position.col as int,
                path: position.path@,
            }),
    {
        InvalidSyntax { position, invalid_syntax_type }
    }

    pub fn get_type(&self) -> (r: &InvalidSyntaxType)
        ensures
            r@ == self@.kind,
    {
        &self.invalid_syntax_type
    }

    pub fn get_position(&self) -> (r: &TokenPosition)
        ensures
            r.ln as int == self@.ln,
            r.col as int == self@.col,
            r.path@ == self@.path,
    {
        &self.position
    }

    /// A diagnostic about token `t`, pointing at it.
    pub fn at_token(t: &Token, invalid_syntax_type: InvalidSyntaxType) -> (r: InvalidSyntax)
        ensures
            r@ == diag_at(invalid_syntax_type@, t@),
    {
        InvalidSyntax::new(t.get_token_position(), invalid_syntax_type)
    }

    /// A diagnostic for an input that has no token at all to point at.
    pub fn at_start(invalid_syntax_type: InvalidSyntaxType) -> (r: InvalidSyntax)
        ensures
            r@ == (DiagView { kind: invalid_syntax_type@, ln: 0, col: 0, path: Seq::empty() }),
    {
        InvalidSyntax::new(
            TokenPosition { ln: 0, col: 0, ind: 0, len: 0, path: String::new() },
            invalid_syntax_type,
        )
    }
}

/// A parse that gave up on a production; the diagnostics say why.
#[derive(Debug)]
pub struct ParseError {
    pub message: &'static str,
}

impl ParseError {
    pub fn new(message: &'static str) -> (r: ParseError)
        ensures
            r.message == message,
    {
        ParseError { message }
    }
}

/// The syntax diagnostics of one parse, in the order they were found.
#[derive(Debug)]
pub struct ParseError2 {
    errors: Vec<InvalidSyntax>,
}

pub open spec fn diag_views(v: Seq<InvalidSyntax>) -> Seq<DiagView> {
    v.map_values(|d: InvalidSyntax| d@)
}

impl View for ParseError2 {
    type V = Seq<DiagView>;

    closed spec fn view(&self) -> Seq<DiagView> {
        diag_views(self.errors@)
    }
}

impl ParseError2 {
    pub fn new() -> (r: ParseError2)
        ensures
            r@.len() == 0,
    {
        let r = ParseError2 { errors: Vec::new() };
        assert(r@ =~= Seq::<DiagView>::empty());
        r
    }

    pub fn has_error(&self) -> (r: bool)
        ensures
            r == (self@.len() > 0),
    {
        self.errors.len() > 0
    }

    pub fn add_error(&mut self, invalid_syntax: InvalidSyntax)
        ensures
            final(self)@ == old(self)@.push(invalid_syntax@),
    {
        self.errors.push(invalid_syntax);
        assert(diag_views(self.errors@) =~= diag_views(old(self).errors@).push(invalid_syntax@));
    }

    /// The diagnostics, in order.
    pub fn errors(&self) -> (r: &Vec<InvalidSyntax>)
        ensures
            diag_views(r@) == self@,
    {
        &self.errors
    }

    /// The diagnostics to show: all of them up to and including the first unexpected end of
    /// input; later ones follow from it.
    pub fn shown(&self) -> (r: Vec<&InvalidSyntax>)
        ensures
            r@.len() <= self@.len(),
            forall|i: int| 0 <= i < r@.len() ==> r@[i]@ == #[trigger] self@[i],
            forall|i: int| 0 <= i < r@.len() - 1 ==> !(#[trigger] self@[i].kind is Eof),
            r@.len() < self@.len() ==> r@.len() > 0 && r@[r@.len() - 1]@.kind is Eof,
    {
        let mut out: Vec<&InvalidSyntax> = Vec::new();
        let mut i: usize = 0;
        while i < self.errors.len()
            invariant
                i <= self.errors@.len(),
                out@.len() == i,
                forall|j: int| 0 <= j < i ==> (#[trigger] out@[j])@ == self.errors@[j]@,
                forall|j: int| 0 <= j < i ==> !(#[trigger] self.errors@[j]@.kind is Eof),
            decreases self.errors@.len() - i,
        {
            out.push(&self.errors[i]);
            match self.errors[i].get_type() {
                InvalidSyntaxType::UnexpectedEof => {
                    return out;
                },
                _ => {},
            }
            i += 1;
        }
        out
    }
}

/// The label of one expected token kind in a diagnostic: `literal`, `identifier`, or the
/// reserved word in backticks.
pub open spec fn expected_label(m: TokenBaseModel) -> Seq<char> {
    match m {
        TokenBaseModel::Str(_) | TokenBaseModel::Num(_) => "literal"@,
        TokenBaseModel::Res(r) => if r == ReservedWord::True || r == ReservedWord::False {
            "literal"@
        } else {
            seq!['`'] + r.text() + seq!['`']
        },
        TokenBaseModel::Ident(_) => "identifier"@,
    }
}

/// The labels of `v`, each once, in the order of first appearance.
pub open spec fn distinct_labels(v: Seq<TokenBaseModel>) -> Seq<Seq<char>>
    decreases v.len(),
{
    if v.len() == 0 {
        Seq::empty()
    } else {
        let prev = distinct_labels(v.drop_last());
        let l = expected_label(v.last());
        if prev.contains(l) {
            prev
        } else {
            prev.push(l)
        }
    }
}

/// The parts joined with `", "` between them.
pub open spec fn join_comma(parts: Seq<Seq<char>>) -> Seq<char>
    decreases parts.len(),
{
    if parts.len() == 0 {
        Seq::empty()
    } else if parts.len() == 1 {
        parts[0]
    } else {
        join_comma(parts.drop_last()) + ", "@ + parts.last()
    }
}

fn label_of(tb: &TokenBase) -> (r: String)
    ensures
        r@ == expected_label(tb@),
{
    match tb {
        TokenBase::String(_) | TokenBase::Number(_) => String::from_str("literal"),
        TokenBase::Reserved(r) => {
            if *r == ReservedWord::True || *r == ReservedWord::False {
                String::from_str("literal")
            } else {
                let mut s = String::from_str("`");
                s.append(r.as_str());
                s.append("`");
                proof {
                    reveal_strlit("`");
                }
                s
            }
        },
        TokenBase::Identifier(_) => String::from_str("identifier"),
    }
}

fn contains_string(v: &Vec<String>, s: &String) -> (r: bool)
    ensures
        r == v@.map_values(|x: String| x@).contains(s@),
{
    let mut i: usize = 0;
    while i < v.len()
        invariant
            i <= v@.len(),
            forall|j: int| 0 <= j < i ==> v@[j]@ != s@,
        decreases v@.len() - i,
    {
        if v[i] == *s {
            assert(v@.map_values(|x: String| x@)[i as int] == s@);
            return true;
        }
        i += 1;
    }
    proof {
        if v@.map_values(|x: String| x@).contains(s@) {
            let m = v@.map_values(|x: String| x@);
            let j = choose|j: int| 0 <= j < m.len() && #[trigger] m[j] == s@;
            assert(v@[j]@ == s@);
        }
    }
    false
}

/// The expected kinds of a diagnostic as text: each label once, in order of first appearance,
/// separated by commas.
pub fn token_base_array_to_string(arr: &[TokenBase]) -> (r: String)
    ensures
        r@ == join_comma(distinct_labels(base_views(arr@))),
{
    let mut labels: Vec<String> = Vec::new();
    let mut i: usize = 0;
    while i < arr.len()
        invariant
            i <= arr@.len(),
            labels@.map_values(|x: String| x@) == distinct_labels(
                base_views(arr@.subrange(0, i as int)),
            ),
        decreases arr@.len() - i,
    {
        let l = label_of(&arr[i]);
        let ghost prev = labels@.map_values(|x: String| x@);
        proof {
            let sub = base_views(arr@.subrange(0, i + 1));
            assert(sub.drop_last() =~= base_views(arr@.subrange(0, i as int)));
            assert(sub.last() == arr@[i as int]@);
        }
        if !contains_string(&labels, &l) {
            labels.push(l);
            assert(labels@.map_values(|x: String| x@) =~= prev.push(l@));
        }
        i += 1;
    }
    assert(arr@.subrange(0, arr@.len() as int) =~= arr@);
    let mut out = String::new();
    let mut k: usize = 0;
    while k < labels.len()
        invariant
            k <= labels@.len(),
            out@ == join_comma(labels@.map_values(|x: String| x@).subrange(0, k as int)),
        decreases labels@.len() - k,
    {
        let ghost parts = labels@.map_values(|x: String| x@);
        proof {
            assert(parts.subrange(0, k + 1).drop_last() =~= parts.subrange(0, k as int));
        }
        if k > 0 {
            out.append(", ");
        } else {
            assert(parts.subrange(0, 1) =~= seq![parts[0]]);
        }
        out.append(labels[k].as_str());
        k += 1;
    }
    assert(labels@.map_values(|x: String| x@).subrange(0, labels@.len() as int) =~= labels@.map_values(|x: String| x@));
    out
}

} // verus!
