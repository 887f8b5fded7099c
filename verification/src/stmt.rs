//! The statement model: what the engine reads of each statement of the host
//! language — its outer shape, its annotation list, and its rendered text —
//! together with the mathematical view of each type.

use vstd::prelude::*;

verus! {

/// One token of an annotation's argument list, as the host tokenizer
/// delivered it: a bare identifier, or any other token, both carried as
/// their source text.
#[derive(Debug)]
pub enum Token {
    Ident(String),
    Other(String),
}

/// Mathematical value of a `Token`.
#[verifier::ext_equal]
pub enum TokenV {
    Ident(Seq<char>),
    Other(Seq<char>),
}

impl View for Token {
    type V = TokenV;

    open spec fn view(&self) -> TokenV {
        match self {
            Token::Ident(s) => TokenV::Ident(s@),
            Token::Other(s) => TokenV::Other(s@),
        }
    }
}

impl DeepView for Token {
    type V = TokenV;

    open spec fn deep_view(&self) -> TokenV {
        self.view()
    }
}

/// One annotation attached to a statement: a name such as `inline` or
/// `variant`, plus the tokens standing between the parentheses that follow
/// it (empty when the annotation carries no argument list).
#[derive(Debug)]
pub struct Annotation {
    pub name: String,
    pub args: Vec<Token>,
}

/// Mathematical value of an `Annotation`.
#[verifier::ext_equal]
pub struct AnnotationV {
    pub name: Seq<char>,
    pub args: Seq<TokenV>,
}

impl View for Annotation {
    type V = AnnotationV;

    open spec fn view(&self) -> AnnotationV {
        AnnotationV { name: self.name@, args: self.args.deep_view() }
    }
}

impl DeepView for Annotation {
    type V = AnnotationV;

    open spec fn deep_view(&self) -> AnnotationV {
        self.view()
    }
}

/// The outer syntactic shape of a statement, as far as the engine needs to
/// know it: whether the shape exposes an annotation list, and whether it is
/// one of the recognized shapes at all.
#[derive(Clone, Copy, PartialEq, Eq, Structural)]
pub enum StmtShape {
    /// An expression statement with a terminator; exposes annotations.
    ExprStmt,
    /// A value-producing tail expression without a terminator; exposes
    /// annotations.
    TailExpr,
    /// A binding or another recognized shape without an annotation list;
    /// always untagged.
    Binding,
    /// A shape outside the recognized set; it cannot be introspected for
    /// annotations, so classification must abort on it.
    Unknown,
}

/// One statement of the input body.
pub struct Statement {
    pub shape: StmtShape,
    pub annotations: Vec<Annotation>,
    /// The statement's own rendered text, terminator included, with the
    /// annotation list left out (annotations are rendered separately).
    pub text: String,
}

/// Mathematical value of a `Statement`.
#[verifier::ext_equal]
pub struct StatementV {
    pub shape: StmtShape,
    pub annotations: Seq<AnnotationV>,
    pub text: Seq<char>,
}

impl View for Statement {
    type V = StatementV;

    open spec fn view(&self) -> StatementV {
        StatementV {
            shape: self.shape,
            annotations: self.annotations.deep_view(),
            text: self.text@,
        }
    }
}

impl DeepView for Statement {
    type V = StatementV;

    open spec fn deep_view(&self) -> StatementV {
        self.view()
    }
}

/// The name of the marker annotation that assigns a statement to a variant.
pub open spec fn marker_name() -> Seq<char> {
    "variant"@
}

/// The reserved name of the baseline variant.
pub open spec fn default_name() -> Seq<char> {
    "default"@
}

/// Whether a statement of this shape exposes an annotation list at all.
pub open spec fn shape_exposes_annotations(shape: StmtShape) -> bool {
    shape == StmtShape::ExprStmt || shape == StmtShape::TailExpr
}

/// Whether an annotation is a variant marker.
pub open spec fn is_marker(a: AnnotationV) -> bool {
    a.name == marker_name()
}

/// The first variant marker of an annotation list, if any.
pub open spec fn find_marker(anns: Seq<AnnotationV>) -> Option<AnnotationV>
    decreases anns.len(),
{
    if anns.len() == 0 {
        None
    } else if is_marker(anns[0]) {
        Some(anns[0])
    } else {
        find_marker(anns.skip(1))
    }
}

/// The annotation list with every variant marker removed; all other
/// annotations stay, in order.
pub open spec fn strip_markers(anns: Seq<AnnotationV>) -> Seq<AnnotationV>
    decreases anns.len(),
{
    if anns.len() == 0 {
        Seq::empty()
    } else if is_marker(anns.last()) {
        strip_markers(anns.drop_last())
    } else {
        strip_markers(anns.drop_last()).push(anns.last())
    }
}

/// An annotation list holds a marker exactly when `find_marker` finds one.
pub proof fn lemma_find_marker_none(anns: Seq<AnnotationV>)
    ensures
        find_marker(anns) is None <==> (forall|i: int|
            0 <= i < anns.len() ==> !is_marker(anns[i])),
    decreases anns.len(),
{
    if anns.len() > 0 && !is_marker(anns[0]) {
        lemma_find_marker_none(anns.skip(1));
        assert(forall|i: int|
            1 <= i < anns.len() ==> anns.skip(1)[i - 1] == anns[i]);
    }
}

/// `find_marker` returns the marker with the lowest index.
pub proof fn lemma_find_marker_at(anns: Seq<AnnotationV>, j: int)
    requires
        0 <= j < anns.len(),
        is_marker(anns[j]),
        forall|k: int| 0 <= k < j ==> !is_marker(anns[k]),
    ensures
        find_marker(anns) == Some(anns[j]),
    decreases j,
{
    if j > 0 {
        lemma_find_marker_at(anns.skip(1), j - 1);
        assert(forall|i: int|
            0 <= i < anns.len() - 1 ==> anns.skip(1)[i] == anns[i + 1]);
    }
}

/// Stripping markers from a list without markers changes nothing.
pub proof fn lemma_strip_no_marker(anns: Seq<AnnotationV>)
    requires
        forall|i: int| 0 <= i < anns.len() ==> !is_marker(anns[i]),
    ensures
        strip_markers(anns) == anns,
    decreases anns.len(),
{
    if anns.len() == 0 {
        assert(strip_markers(anns) =~= anns);
    } else {
        lemma_strip_no_marker(anns.drop_last());
        assert(strip_markers(anns) =~= anns);
    }
}

/// A stripped annotation list holds no marker.
pub proof fn lemma_strip_markers_clean(anns: Seq<AnnotationV>)
    ensures
        forall|i: int|
            0 <= i < strip_markers(anns).len() ==> !is_marker(strip_markers(anns)[i]),
    decreases anns.len(),
{
    if anns.len() > 0 {
        lemma_strip_markers_clean(anns.drop_last());
        if !is_marker(anns.last()) {
            let r = strip_markers(anns.drop_last());
            assert(strip_markers(anns) == r.push(anns.last()));
            assert forall|i: int|
                0 <= i < strip_markers(anns).len() implies !is_marker(
                strip_markers(anns)[i],
            ) by {
                if i < r.len() {
                    assert(strip_markers(anns)[i] == r[i]);
                } else {
                    assert(strip_markers(anns)[i] == anns.last());
                }
            }
        }
    }
}

/// Produces an independent copy of a token, equal in value.
pub fn clone_token(t: &Token) -> (r: Token)
    ensures
        r@ == t@,
{
    match t {
        Token::Ident(s) => Token::Ident(s.clone()),
        Token::Other(s) => Token::Other(s.clone()),
    }
}

/// Produces an independent copy of a token list, equal in value.
pub fn clone_tokens(v: &Vec<Token>) -> (r: Vec<Token>)
    ensures
        r.deep_view() == v.deep_view(),
{
    let mut r: Vec<Token> = Vec::new();
    let mut i: usize = 0;
    while i < v.len()
        invariant
            i <= v.len(),
            r.deep_view() =~= v.deep_view().take(i as int),
        decreases v.len() - i,
    {
        let ghost r0 = r.deep_view();
        proof {
            assert(r.deep_view().len() == i as int);
            assert(r@.len() == i as int);
        }
        let t = clone_token(&v[i]);
        assert(t.deep_view() == v.deep_view()[i as int]);
        r.push(t);
        proof {
            assert forall|j: int| 0 <= j < r.deep_view().len() implies r.deep_view()[j]
                == v.deep_view().take(i + 1)[j] by {
                if j < r0.len() {
                    assert(r.deep_view()[j] == r0[j]);
                }
            }
            assert(r.deep_view().len() == i + 1);
            assert(v.deep_view().take(i + 1).len() == i + 1);
            assert(r.deep_view() =~= v.deep_view().take(i + 1));
        }
        i = i + 1;
    }
    assert(v.deep_view().take(v.len() as int) =~= v.deep_view());
    r
}

/// Produces an independent copy of an annotation, equal in value.
pub fn clone_annotation(a: &Annotation) -> (r: Annotation)
    ensures
        r@ == a@,
{
    Annotation { name: a.name.clone(), args: clone_tokens(&a.args) }
}

/// Produces an independent copy of an annotation list, equal in value.
pub fn clone_annotations(v: &Vec<Annotation>) -> (r: Vec<Annotation>)
    ensures
        r.deep_view() == v.deep_view(),
{
    let mut r: Vec<Annotation> = Vec::new();
    let mut i: usize = 0;
    while i < v.len()
        invariant
            i <= v.len(),
            r.deep_view() =~= v.deep_view().take(i as int),
        decreases v.len() - i,
    {
        let ghost r0 = r.deep_view();
        proof {
            assert(r.deep_view().len() == i as int);
            assert(r@.len() == i as int);
        }
        let a = clone_annotation(&v[i]);
        assert(a.deep_view() == v.deep_view()[i as int]);
        r.push(a);
        proof {
            assert forall|j: int| 0 <= j < r.deep_view().len() implies r.deep_view()[j]
                == v.deep_view().take(i + 1)[j] by {
                if j < r0.len() {
                    assert(r.deep_view()[j] == r0[j]);
                }
            }
            assert(r.deep_view().len() == i + 1);
            assert(v.deep_view().take(i + 1).len() == i + 1);
            assert(r.deep_view() =~= v.deep_view().take(i + 1));
        }
        i = i + 1;
    }
    assert(v.deep_view().take(v.len() as int) =~= v.deep_view());
    r
}

/// Produces an independent copy of a statement, equal in value.
pub fn clone_stmt(s: &Statement) -> (r: Statement)
    ensures
        r@ == s@,
{
    let r = Statement {
        shape: s.shape,
        annotations: clone_annotations(&s.annotations),
        text: s.text.clone(),
    };
    assert(r@ =~= s@);
    r
}

/// Produces an independent copy of a statement list, equal in value.
pub fn clone_stmts(v: &Vec<Statement>) -> (r: Vec<Statement>)
    ensures
        r.deep_view() == v.deep_view(),
{
    let mut r: Vec<Statement> = Vec::new();
    let mut i: usize = 0;
    while i < v.len()
        invariant
            i <= v.len(),
            r.deep_view() =~= v.deep_view().take(i as int),
        decreases v.len() - i,
    {
        let ghost r0 = r.deep_view();
        proof {
            assert(r.deep_view().len() == i as int);
            assert(r@.len() == i as int);
        }
        let s = clone_stmt(&v[i]);
        assert(s.deep_view() == v.deep_view()[i as int]);
        r.push(s);
        proof {
            assert forall|j: int| 0 <= j < r.deep_view().len() implies r.deep_view()[j]
                == v.deep_view().take(i + 1)[j] by {
                if j < r0.len() {
                    assert(r.deep_view()[j] == r0[j]);
                }
            }
            assert(r.deep_view().len() == i + 1);
            assert(v.deep_view().take(i + 1).len() == i + 1);
            assert(r.deep_view() =~= v.deep_view().take(i + 1));
        }
        i = i + 1;
    }
    assert(v.deep_view().take(v.len() as int) =~= v.deep_view());
    r
}

} // verus!
