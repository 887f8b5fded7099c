//! Emission: renders the frozen variant table as one module named after
//! the original function, holding one externally visible definition per
//! variant. Each definition carries the original signature with the
//! identifier replaced structurally — the name is its own field, so a name
//! that happens to recur as a substring elsewhere in the signature is never
//! touched.

use vstd::prelude::*;
use vstd::string::StringExecFns;

use crate::builder::{EntryV, VariantTable};
use crate::stmt::{Annotation, AnnotationV, Statement, StatementV, Token, TokenV};

verus! {

/// The original function: its identifier, the rendered pieces of its
/// signature around the identifier, and its statement sequence. Parsed
/// once, read-only; used once per variant to stamp out a definition.
pub struct FunctionTemplate {
    /// The function's identifier, held apart from the rest of the
    /// signature so that replacing it is a structural step, not a textual
    /// substitution.
    pub name: String,
    /// Rendered generic parameters and bounds, empty when there are none.
    pub generics: String,
    /// Rendered parameter list, without the surrounding parentheses.
    pub params: String,
    /// Rendered return clause with a trailing space (for instance `-> i32 `),
    /// empty when the function returns nothing.
    pub ret: String,
    /// The statement sequence of the function's body.
    pub body: Vec<Statement>,
}

/// Mathematical value of a `FunctionTemplate`.
#[verifier::ext_equal]
pub struct TemplateV {
    pub name: Seq<char>,
    pub generics: Seq<char>,
    pub params: Seq<char>,
    pub ret: Seq<char>,
    pub body: Seq<StatementV>,
}

impl View for FunctionTemplate {
    type V = TemplateV;

    open spec fn view(&self) -> TemplateV {
        TemplateV {
            name: self.name@,
            generics: self.generics@,
            params: self.params@,
            ret: self.ret@,
            body: self.body.deep_view(),
        }
    }
}

impl DeepView for FunctionTemplate {
    type V = TemplateV;

    open spec fn deep_view(&self) -> TemplateV {
        self.view()
    }
}

/// The text of one argument token.
pub open spec fn render_token(t: TokenV) -> Seq<char> {
    match t {
        TokenV::Ident(s) => s,
        TokenV::Other(s) => s,
    }
}

/// The text of an argument list: each token followed by one space.
pub open spec fn render_args(args: Seq<TokenV>) -> Seq<char>
    decreases args.len(),
{
    if args.len() == 0 {
        Seq::empty()
    } else {
        render_args(args.drop_last()) + render_token(args.last()) + " "@
    }
}

/// The text of one annotation, parentheses only when it has arguments.
pub open spec fn render_annotation(a: AnnotationV) -> Seq<char> {
    if a.args.len() == 0 {
        "#["@ + a.name + "]"@
    } else {
        "#["@ + a.name + "("@ + render_args(a.args) + ")]"@
    }
}

/// The text of an annotation list: each annotation followed by one space.
pub open spec fn render_anns(anns: Seq<AnnotationV>) -> Seq<char>
    decreases anns.len(),
{
    if anns.len() == 0 {
        Seq::empty()
    } else {
        render_anns(anns.drop_last()) + render_annotation(anns.last()) + " "@
    }
}

/// The text of one statement: its annotations, then its own text.
pub open spec fn render_stmt(s: StatementV) -> Seq<char> {
    render_anns(s.annotations) + s.text
}

/// The text of a body: each statement on a line of its own.
pub open spec fn render_body(stmts: Seq<StatementV>) -> Seq<char>
    decreases stmts.len(),
{
    if stmts.len() == 0 {
        Seq::empty()
    } else {
        render_body(stmts.drop_last()) + render_stmt(stmts.last()) + "\n"@
    }
}

/// The text of one variant's definition: the shared signature with the
/// identifier replaced by the variant's name, then the variant's body.
pub open spec fn render_def(t: TemplateV, name: Seq<char>, stmts: Seq<StatementV>) -> Seq<char> {
    "pub fn "@ + name + t.generics + "("@ + t.params + ") "@ + t.ret + "{\n"@ + render_body(stmts)
        + "}"@
}

/// The texts of all definitions of the table, in table order.
pub open spec fn render_defs(t: TemplateV, table: Seq<EntryV>) -> Seq<char>
    decreases table.len(),
{
    if table.len() == 0 {
        Seq::empty()
    } else {
        render_defs(t, table.drop_last()) + render_def(
            t,
            table.last().name,
            table.last().stmts,
        ) + "\n"@
    }
}

/// The whole output: one module named after the original function, holding
/// every variant's definition.
pub open spec fn render_module(t: TemplateV, table: Seq<EntryV>) -> Seq<char> {
    "pub mod "@ + t.name + " {\n"@ + render_defs(t, table) + "}"@
}

/// Renders an argument list.
fn render_args_exec(args: &Vec<Token>) -> (r: String)
    ensures
        r@ == render_args(args.deep_view()),
{
    let ghost av = args.deep_view();
    let mut out = String::new();
    let mut i: usize = 0;
    while i < args.len()
        invariant
            i <= args.len(),
            av == args.deep_view(),
            av.len() == args.len(),
            out@ =~= render_args(av.take(i as int)),
        decreases args.len() - i,
    {
        proof {
            assert(av.take(i as int + 1).drop_last() =~= av.take(i as int));
            assert(av.take(i as int + 1).last() == av[i as int]);
        }
        let t = &args[i];
        assert(t@ == av[i as int]);
        match t {
            Token::Ident(s) => out.append(s.as_str()),
            Token::Other(s) => out.append(s.as_str()),
        }
        out.append(" ");
        proof {
            assert(out@ =~= render_args(av.take(i as int + 1)));
        }
        i = i + 1;
    }
    proof {
        assert(av.take(av.len() as int) =~= av);
    }
    out
}

/// Renders one annotation.
fn render_annotation_exec(a: &Annotation) -> (r: String)
    ensures
        r@ == render_annotation(a@),
{
    let mut out = String::new();
    out.append("#[");
    out.append(a.name.as_str());
    if a.args.len() == 0 {
        out.append("]");
        proof {
            assert(out@ =~= render_annotation(a@));
        }
    } else {
        out.append("(");
        let rendered = render_args_exec(&a.args);
        out.append(rendered.as_str());
        out.append(")]");
        proof {
            assert(out@ =~= render_annotation(a@));
        }
    }
    out
}

/// Renders one statement: its kept annotations, then its text.
fn render_stmt_exec(s: &Statement) -> (r: String)
    ensures
        r@ == render_stmt(s@),
{
    let ghost anns = s@.annotations;
    let mut out = String::new();
    let mut i: usize = 0;
    while i < s.annotations.len()
        invariant
            i <= s.annotations.len(),
            anns == s@.annotations,
            anns.len() == s.annotations.len(),
            out@ =~= render_anns(anns.take(i as int)),
        decreases s.annotations.len() - i,
    {
        proof {
            assert(anns.take(i as int + 1).drop_last() =~= anns.take(i as int));
            assert(anns.take(i as int + 1).last() == anns[i as int]);
        }
        let a = &s.annotations[i];
        assert(a@ == anns[i as int]);
        let rendered = render_annotation_exec(a);
        out.append(rendered.as_str());
        out.append(" ");
        proof {
            assert(out@ =~= render_anns(anns.take(i as int + 1)));
        }
        i = i + 1;
    }
    proof {
        assert(anns.take(anns.len() as int) =~= anns);
    }
    out.append(s.text.as_str());
    proof {
        assert(out@ =~= render_stmt(s@));
    }
    out
}

/// Renders one variant's definition.
fn render_def_exec(t: &FunctionTemplate, name: &String, stmts: &Vec<Statement>) -> (r: String)
    ensures
        r@ == render_def(t@, name@, stmts.deep_view()),
{
    let ghost sv = stmts.deep_view();
    let mut out = String::new();
    out.append("pub fn ");
    out.append(name.as_str());
    out.append(t.generics.as_str());
    out.append("(");
    out.append(t.params.as_str());
    out.append(") ");
    out.append(t.ret.as_str());
    out.append("{\n");
    let ghost head = out@;
    let mut i: usize = 0;
    while i < stmts.len()
        invariant
            i <= stmts.len(),
            sv == stmts.deep_view(),
            sv.len() == stmts.len(),
            head == "pub fn "@ + name@ + t@.generics + "("@ + t@.params + ") "@ + t@.ret + "{\n"@,
            out@ =~= head + render_body(sv.take(i as int)),
        decreases stmts.len() - i,
    {
        proof {
            assert(sv.take(i as int + 1).drop_last() =~= sv.take(i as int));
            assert(sv.take(i as int + 1).last() == sv[i as int]);
        }
        let s = &stmts[i];
        assert(s@ == sv[i as int]);
        let rendered = render_stmt_exec(s);
        out.append(rendered.as_str());
        out.append("\n");
        proof {
            assert(out@ =~= head + render_body(sv.take(i as int + 1)));
        }
        i = i + 1;
    }
    proof {
        assert(sv.take(sv.len() as int) =~= sv);
    }
    out.append("}");
    proof {
        assert(out@ =~= render_def(t@, name@, sv));
    }
    out
}

/// Renders the whole module: every variant of the table, in table order,
/// wrapped in one module named after the original function.
pub fn emit_module(t: &FunctionTemplate, table: &VariantTable) -> (r: String)
    ensures
        r@ == render_module(t@, table@),
{
    let ghost tv = table@;
    let mut out = String::new();
    out.append("pub mod ");
    out.append(t.name.as_str());
    out.append(" {\n");
    let ghost head = out@;
    let mut i: usize = 0;
    while i < table.entries.len()
        invariant
            i <= table.entries.len(),
            tv == table@,
            tv.len() == table.entries.len(),
            head == "pub mod "@ + t@.name + " {\n"@,
            out@ =~= head + render_defs(t@, tv.take(i as int)),
        decreases table.entries.len() - i,
    {
        proof {
            assert(tv.take(i as int + 1).drop_last() =~= tv.take(i as int));
            assert(tv.take(i as int + 1).last() == tv[i as int]);
        }
        let e = &table.entries[i];
        assert(e@ == tv[i as int]);
        let rendered = render_def_exec(t, &e.name, &e.stmts);
        out.append(rendered.as_str());
        out.append("\n");
        proof {
            assert(out@ =~= head + render_defs(t@, tv.take(i as int + 1)));
        }
        i = i + 1;
    }
    proof {
        assert(tv.take(tv.len() as int) =~= tv);
    }
    out.append("}");
    proof {
        assert(out@ =~= render_module(t@, tv));
    }
    out
}

} // verus!
