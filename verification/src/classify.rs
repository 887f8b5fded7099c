//! The statement classifier: one left-to-right pass that, for each
//! statement, finds its variant marker if any, checks the marker's argument,
//! and produces a cleaned copy with every marker stripped and all other
//! annotations kept in order. A shape that cannot be introspected, a marker
//! whose argument is not one bare identifier, and a marker naming the
//! reserved baseline `default` each abort the pass.

use vstd::prelude::*;
use vstd::string::StringExecFns;

use crate::stmt::{
    Annotation, AnnotationV, Statement, StatementV, StmtShape, Token, TokenV, clone_annotation,
    clone_stmt, clone_tokens, default_name, find_marker, is_marker, lemma_find_marker_at,
    lemma_find_marker_none, lemma_strip_markers_clean, lemma_strip_no_marker, marker_name,
    shape_exposes_annotations, strip_markers,
};

verus! {

/// One classified statement: the cleaned copy, and the name of the variant
/// its marker named, or `None` when it was untagged.
pub struct Classified {
    pub stmt: Statement,
    pub tag: Option<String>,
}

/// Mathematical value of a `Classified`.
#[verifier::ext_equal]
pub struct ClassifiedV {
    pub stmt: StatementV,
    pub tag: Option<Seq<char>>,
}

impl View for Classified {
    type V = ClassifiedV;

    open spec fn view(&self) -> ClassifiedV {
        ClassifiedV { stmt: self.stmt@, tag: self.tag.deep_view() }
    }
}

impl DeepView for Classified {
    type V = ClassifiedV;

    open spec fn deep_view(&self) -> ClassifiedV {
        self.view()
    }
}

/// Why a pass aborted. Every error is fatal: no partial output is produced.
#[derive(Debug)]
pub enum TransformError {
    /// A statement's shape lies outside the recognized set, so its
    /// annotation list cannot be located. Silently treating it as untagged
    /// could silently drop a variant, so the pass aborts instead.
    UnrecognizedShape { pos: usize },
    /// A `variant(...)` marker whose argument is not a single bare
    /// identifier; the offending argument tokens are carried along.
    MalformedMarker { pos: usize, args: Vec<Token> },
    /// A marker explicitly naming the reserved baseline variant `default`;
    /// the pass rejects it rather than silently aliasing the baseline.
    ReservedVariantName { pos: usize },
}

/// Mathematical value of a `TransformError`.
#[verifier::ext_equal]
pub enum ErrorV {
    UnrecognizedShape { pos: int },
    MalformedMarker { pos: int, args: Seq<TokenV> },
    ReservedVariantName { pos: int },
}

impl View for TransformError {
    type V = ErrorV;

    open spec fn view(&self) -> ErrorV {
        match self {
            TransformError::UnrecognizedShape { pos } => ErrorV::UnrecognizedShape {
                pos: *pos as int,
            },
            TransformError::MalformedMarker { pos, args } => ErrorV::MalformedMarker {
                pos: *pos as int,
                args: args.deep_view(),
            },
            TransformError::ReservedVariantName { pos } => ErrorV::ReservedVariantName {
                pos: *pos as int,
            },
        }
    }
}

impl DeepView for TransformError {
    type V = ErrorV;

    open spec fn deep_view(&self) -> ErrorV {
        self.view()
    }
}

/// The marker of a statement: the first `variant` annotation of a shape
/// that exposes annotations; a shape without an annotation list never has
/// one.
pub open spec fn stmt_marker(s: StatementV) -> Option<AnnotationV> {
    if shape_exposes_annotations(s.shape) {
        find_marker(s.annotations)
    } else {
        None
    }
}

/// The variant name of a marker, provided its argument list is exactly one
/// bare identifier; `None` for any other argument shape.
pub open spec fn marker_arg(a: AnnotationV) -> Option<Seq<char>> {
    if a.args.len() == 1 {
        match a.args[0] {
            TokenV::Ident(name) => Some(name),
            TokenV::Other(_) => None,
        }
    } else {
        None
    }
}

/// Whether classification succeeds on this statement: its shape is
/// recognized, and its marker, if present, names one bare identifier other
/// than the reserved `default`.
pub open spec fn stmt_ok(s: StatementV) -> bool {
    &&& s.shape != StmtShape::Unknown
    &&& match stmt_marker(s) {
        None => true,
        Some(a) => match marker_arg(a) {
            Some(name) => name != default_name(),
            None => false,
        },
    }
}

/// The tag of a successfully classified statement: the marker's variant
/// name, or `None` when the statement is untagged.
pub open spec fn stmt_tag(s: StatementV) -> Option<Seq<char>> {
    match stmt_marker(s) {
        None => None,
        Some(a) => marker_arg(a),
    }
}

/// The cleaned copy: every variant marker stripped from the annotation
/// list, all other annotations kept in order; a shape without an annotation
/// list is copied unchanged.
pub open spec fn stmt_cleaned(s: StatementV) -> StatementV {
    if shape_exposes_annotations(s.shape) {
        StatementV { shape: s.shape, annotations: strip_markers(s.annotations), text: s.text }
    } else {
        s
    }
}

/// The error reported for a statement on which classification fails.
pub open spec fn stmt_err(s: StatementV, pos: int) -> ErrorV {
    if s.shape == StmtShape::Unknown {
        ErrorV::UnrecognizedShape { pos }
    } else {
        match stmt_marker(s) {
            Some(a) => if marker_arg(a) is None {
                ErrorV::MalformedMarker { pos, args: a.args }
            } else {
                ErrorV::ReservedVariantName { pos }
            },
            None => ErrorV::UnrecognizedShape { pos },
        }
    }
}

/// Classifies one statement standing at position `pos` of the body.
pub fn classify_stmt(s: &Statement, pos: usize) -> (r: Result<Classified, TransformError>)
    ensures
        stmt_ok(s@) ==> r is Ok && r->Ok_0@ == (ClassifiedV {
            stmt: stmt_cleaned(s@),
            tag: stmt_tag(s@),
        }),
        !stmt_ok(s@) ==> r is Err && r->Err_0@ == stmt_err(s@, pos as int),
{
    match s.shape {
        StmtShape::Unknown => Err(TransformError::UnrecognizedShape { pos }),
        StmtShape::Binding => {
            let c = Classified { stmt: clone_stmt(s), tag: None };
            assert(c@ =~= (ClassifiedV { stmt: stmt_cleaned(s@), tag: stmt_tag(s@) }));
            Ok(c)
        },
        StmtShape::ExprStmt | StmtShape::TailExpr => {
            let ghost anns = s@.annotations;
            let marker_label: String = String::from_str("variant");
            let mut kept: Vec<Annotation> = Vec::new();
            let mut found: bool = false;
            let mut midx: usize = 0;
            let mut i: usize = 0;
            while i < s.annotations.len()
                invariant
                    i <= s.annotations.len(),
                    anns == s@.annotations,
                    anns.len() == s.annotations.len(),
                    marker_label@ == marker_name(),
                    kept.deep_view() =~= strip_markers(anns.take(i as int)),
                    !found ==> forall|k: int| 0 <= k < i ==> !is_marker(anns[k]),
                    found ==> midx < i && is_marker(anns[midx as int]) && (forall|k: int|
                        0 <= k < midx ==> !is_marker(anns[k])),
                decreases s.annotations.len() - i,
            {
                proof {
                    assert(kept.deep_view().len() == strip_markers(anns.take(i as int)).len());
                    assert(kept@.len() == kept.deep_view().len());
                    assert(anns.take(i as int + 1).drop_last() =~= anns.take(i as int));
                    assert(anns.take(i as int + 1).last() == anns[i as int]);
                }
                let a = &s.annotations[i];
                assert(a@ == anns[i as int]);
                if a.name == marker_label {
                    assert(is_marker(anns[i as int]));
                    if !found {
                        found = true;
                        midx = i;
                    }
                } else {
                    assert(!is_marker(anns[i as int]));
                    let ghost kept0 = kept.deep_view();
                    kept.push(clone_annotation(a));
                    proof {
                        assert forall|j: int|
                            0 <= j < kept.deep_view().len() implies kept.deep_view()[j]
                            == strip_markers(anns.take(i as int + 1))[j] by {
                            if j < kept0.len() {
                                assert(kept.deep_view()[j] == kept0[j]);
                            }
                        }
                        assert(kept.deep_view() =~= strip_markers(anns.take(i as int + 1)));
                    }
                }
                i = i + 1;
            }
            proof {
                assert(anns.take(anns.len() as int) =~= anns);
            }
            if !found {
                proof {
                    lemma_find_marker_none(anns);
                    lemma_strip_no_marker(anns);
                }
                let c = Classified {
                    stmt: Statement {
                        shape: s.shape,
                        annotations: kept,
                        text: s.text.clone(),
                    },
                    tag: None,
                };
                assert(c@ =~= (ClassifiedV { stmt: stmt_cleaned(s@), tag: stmt_tag(s@) }));
                Ok(c)
            } else {
                proof {
                    lemma_find_marker_at(anns, midx as int);
                }
                let a = &s.annotations[midx];
                assert(a@ == anns[midx as int]);
                assert(stmt_marker(s@) == Some(anns[midx as int]));
                if a.args.len() != 1 {
                    let e = TransformError::MalformedMarker { pos, args: clone_tokens(&a.args) };
                    assert(e@ =~= stmt_err(s@, pos as int));
                    return Err(e);
                }
                let arg = &a.args[0];
                assert(arg@ == anns[midx as int].args[0]);
                match arg {
                    Token::Other(_) => {
                        let e = TransformError::MalformedMarker {
                            pos,
                            args: clone_tokens(&a.args),
                        };
                        assert(e@ =~= stmt_err(s@, pos as int));
                        Err(e)
                    },
                    Token::Ident(name) => {
                        let default_label: String = String::from_str("default");
                        if *name == default_label {
                            let e = TransformError::ReservedVariantName { pos };
                            assert(e@ =~= stmt_err(s@, pos as int));
                            Err(e)
                        } else {
                            let c = Classified {
                                stmt: Statement {
                                    shape: s.shape,
                                    annotations: kept,
                                    text: s.text.clone(),
                                },
                                tag: Some(name.clone()),
                            };
                            assert(c@ =~= (ClassifiedV {
                                stmt: stmt_cleaned(s@),
                                tag: stmt_tag(s@),
                            }));
                            Ok(c)
                        }
                    },
                }
            }
        },
    }
}

/// Whether classification succeeds on every statement of the body.
pub open spec fn seq_ok(ss: Seq<StatementV>) -> bool {
    forall|i: int| 0 <= i < ss.len() ==> stmt_ok(ss[i])
}

/// The classification of one statement.
pub open spec fn classify_elem(s: StatementV) -> ClassifiedV {
    ClassifiedV { stmt: stmt_cleaned(s), tag: stmt_tag(s) }
}

/// The classified sequence: each statement's cleaned copy and tag, in the
/// original order.
pub open spec fn classified_spec(ss: Seq<StatementV>) -> Seq<ClassifiedV> {
    ss.map_values(|s: StatementV| classify_elem(s))
}

/// The position of the first statement on which classification fails.
pub open spec fn first_bad(ss: Seq<StatementV>) -> int
    decreases ss.len(),
{
    if ss.len() == 0 {
        0
    } else if !stmt_ok(ss[0]) {
        0
    } else {
        1 + first_bad(ss.skip(1))
    }
}

/// The error reported for a body on which classification fails: the error
/// of the first failing statement, at its position.
pub open spec fn classify_err(ss: Seq<StatementV>) -> ErrorV {
    stmt_err(ss[first_bad(ss)], first_bad(ss))
}

/// `first_bad` names the lowest failing position.
pub proof fn lemma_first_bad_at(ss: Seq<StatementV>, i: int)
    requires
        0 <= i < ss.len(),
        forall|k: int| 0 <= k < i ==> stmt_ok(ss[k]),
        !stmt_ok(ss[i]),
    ensures
        first_bad(ss) == i,
    decreases i,
{
    if i > 0 {
        assert(forall|k: int| 0 <= k < ss.len() - 1 ==> ss.skip(1)[k] == ss[k + 1]);
        lemma_first_bad_at(ss.skip(1), i - 1);
    }
}

/// Classifies the whole body, in order. Succeeds exactly when every
/// statement classifies; otherwise reports the error of the first failing
/// statement and produces nothing else.
pub fn classify(stmts: &Vec<Statement>) -> (r: Result<Vec<Classified>, TransformError>)
    ensures
        seq_ok(stmts.deep_view()) ==> r is Ok && r->Ok_0.deep_view() == classified_spec(
            stmts.deep_view(),
        ),
        !seq_ok(stmts.deep_view()) ==> r is Err && r->Err_0@ == classify_err(stmts.deep_view()),
{
    let ghost ss = stmts.deep_view();
    let mut out: Vec<Classified> = Vec::new();
    let mut i: usize = 0;
    while i < stmts.len()
        invariant
            i <= stmts.len(),
            ss == stmts.deep_view(),
            ss.len() == stmts.len(),
            forall|k: int| 0 <= k < i ==> stmt_ok(ss[k]),
            out.deep_view() =~= classified_spec(ss.take(i as int)),
        decreases stmts.len() - i,
    {
        proof {
            assert(out.deep_view().len() == i as int);
            assert(out@.len() == i as int);
        }
        let st = &stmts[i];
        assert(st@ == ss[i as int]);
        match classify_stmt(st, i) {
            Ok(c) => {
                let ghost out0 = out.deep_view();
                out.push(c);
                proof {
                    assert forall|j: int|
                        0 <= j < out.deep_view().len() implies out.deep_view()[j]
                        == classified_spec(ss.take(i as int + 1))[j] by {
                        if j < out0.len() {
                            assert(out.deep_view()[j] == out0[j]);
                        }
                    }
                    assert(out.deep_view() =~= classified_spec(ss.take(i as int + 1)));
                }
            },
            Err(e) => {
                proof {
                    lemma_first_bad_at(ss, i as int);
                }
                return Err(e);
            },
        }
        i = i + 1;
    }
    proof {
        assert(ss.take(ss.len() as int) =~= ss);
    }
    Ok(out)
}

/// Idempotent cleaning: a cleaned statement carries no marker, cleaning it
/// again changes nothing, and a statement that already carries no marker is
/// classified as untagged with an unchanged copy.
pub proof fn lemma_cleaning_idempotent(s: StatementV)
    ensures
        stmt_marker(stmt_cleaned(s)) is None,
        stmt_tag(stmt_cleaned(s)) is None,
        stmt_cleaned(stmt_cleaned(s)) == stmt_cleaned(s),
        stmt_marker(s) is None ==> stmt_cleaned(s) == s,
{
    if shape_exposes_annotations(s.shape) {
        let stripped = strip_markers(s.annotations);
        lemma_strip_markers_clean(s.annotations);
        lemma_find_marker_none(stripped);
        lemma_strip_no_marker(stripped);
        assert(stmt_cleaned(stmt_cleaned(s)) =~= stmt_cleaned(s));
        if stmt_marker(s) is None {
            lemma_find_marker_none(s.annotations);
            lemma_strip_no_marker(s.annotations);
            assert(stmt_cleaned(s) =~= s);
        }
    }
}

} // verus!
