//! A statement-level variant-expansion engine.
//!
//! Given one function body whose statements may each carry a `variant(name)`
//! marker, the engine produces a family of function definitions, one per
//! distinct marker name plus a `default` baseline. Each variant's body holds
//! the untagged statements interleaved, in source order, with exactly the
//! statements tagged for that variant, markers stripped. The definitions
//! share the original signature, with the identifier replaced, and stand
//! together in one module named after the original function.
//!
//! The pass runs in strict sequence: the classifier walks the body once and
//! splits tagged from untagged statements, the builder assembles one ordered
//! statement list per variant, and emission renders every variant. Any
//! statement the classifier cannot read aborts the whole pass; no partial
//! output is ever produced.

pub mod builder;
pub mod classify;
pub mod emit;
pub mod stmt;

use vstd::prelude::*;

use crate::builder::{build_table, has_tag, no_reserved, table_spec};
use crate::classify::{
    ErrorV, TransformError, classified_spec, classify, classify_elem, classify_err, seq_ok,
    stmt_ok, stmt_tag,
};
use crate::emit::{FunctionTemplate, TemplateV, emit_module, render_module};
use crate::stmt::{StatementV, default_name};

verus! {

/// A sequence that classifies successfully never tags a statement with the
/// reserved baseline name: the classifier rejects such markers.
pub proof fn lemma_classified_no_reserved(ss: Seq<StatementV>)
    requires
        seq_ok(ss),
    ensures
        no_reserved(classified_spec(ss)),
{
    let cs = classified_spec(ss);
    if has_tag(cs, default_name()) {
        let i = choose|i: int| 0 <= i < cs.len() && cs[i].tag == Some(default_name());
        assert(cs[i] == classify_elem(ss[i]));
        assert(stmt_tag(ss[i]) == Some(default_name()));
        assert(stmt_ok(ss[i]));
        assert(false);
    }
}

/// What the whole pass produces for a template: the rendered module when
/// every statement classifies, else the error of the first failing
/// statement.
pub open spec fn expand_spec(t: TemplateV) -> Result<Seq<char>, ErrorV> {
    if seq_ok(t.body) {
        Ok(render_module(t, table_spec(classified_spec(t.body))))
    } else {
        Err(classify_err(t.body))
    }
}

/// Runs the whole pass: classify the body, build the variant table, render
/// the module. Succeeds exactly when every statement classifies; otherwise
/// returns the first classification error and produces nothing else.
pub fn expand(t: &FunctionTemplate) -> (r: Result<String, TransformError>)
    ensures
        seq_ok(t@.body) ==> r is Ok && r->Ok_0@ == expand_spec(t@)->Ok_0,
        !seq_ok(t@.body) ==> r is Err && r->Err_0@ == expand_spec(t@)->Err_0,
{
    let classified = match classify(&t.body) {
        Ok(c) => c,
        Err(e) => {
            return Err(e);
        },
    };
    proof {
        lemma_classified_no_reserved(t@.body);
    }
    let table = build_table(&classified);
    Ok(emit_module(t, &table))
}

/// Determinism: what the pass emits is a pure function of the template's
/// value alone — two runs on equal inputs yield the identical module text,
/// or the identical error; no other state enters the result.
pub proof fn lemma_deterministic(t1: TemplateV, t2: TemplateV)
    requires
        t1 == t2,
    ensures
        expand_spec(t1) == expand_spec(t2),
{
}

} // verus!
