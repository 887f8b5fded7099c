//! The variant builder: one left-to-right pass over the classified
//! sequence that constructs, for each variant name encountered plus the
//! implicit `default` baseline, the ordered statement list of that variant.
//! An untagged statement is appended to every entry; a tagged statement is
//! appended to its own variant's entry only, which is created on first
//! sight by cloning the baseline gathered so far.

use vstd::prelude::*;
use vstd::string::StringExecFns;

use crate::classify::ClassifiedV;
use crate::classify::Classified;
use crate::stmt::{Statement, StatementV, clone_stmt, clone_stmts, default_name};

verus! {

/// One variant of the table: its name and its ordered statement list.
pub struct VariantEntry {
    pub name: String,
    pub stmts: Vec<Statement>,
}

/// Mathematical value of a `VariantEntry`.
#[verifier::ext_equal]
pub struct EntryV {
    pub name: Seq<char>,
    pub stmts: Seq<StatementV>,
}

impl View for VariantEntry {
    type V = EntryV;

    open spec fn view(&self) -> EntryV {
        EntryV { name: self.name@, stmts: self.stmts.deep_view() }
    }
}

impl DeepView for VariantEntry {
    type V = EntryV;

    open spec fn deep_view(&self) -> EntryV {
        self.view()
    }
}

/// The variant table: entries in order of first sight, the baseline first.
pub struct VariantTable {
    pub entries: Vec<VariantEntry>,
}

impl View for VariantTable {
    type V = Seq<EntryV>;

    open spec fn view(&self) -> Seq<EntryV> {
        self.entries.deep_view()
    }
}

impl DeepView for VariantTable {
    type V = Seq<EntryV>;

    open spec fn deep_view(&self) -> Seq<EntryV> {
        self.view()
    }
}

/// The ordered list of untagged statements of a classified sequence.
pub open spec fn untagged_seq(cs: Seq<ClassifiedV>) -> Seq<StatementV>
    decreases cs.len(),
{
    if cs.len() == 0 {
        Seq::empty()
    } else {
        let rest = untagged_seq(cs.drop_last());
        if cs.last().tag is None {
            rest.push(cs.last().stmt)
        } else {
            rest
        }
    }
}

/// The body of variant `v`: the classified sequence restricted, in order,
/// to the untagged statements and the statements tagged for `v` itself.
pub open spec fn variant_seq(cs: Seq<ClassifiedV>, v: Seq<char>) -> Seq<StatementV>
    decreases cs.len(),
{
    if cs.len() == 0 {
        Seq::empty()
    } else {
        let rest = variant_seq(cs.drop_last(), v);
        if cs.last().tag is None || cs.last().tag == Some(v) {
            rest.push(cs.last().stmt)
        } else {
            rest
        }
    }
}

/// The distinct tag names of a classified sequence, in order of first
/// occurrence.
pub open spec fn tag_list(cs: Seq<ClassifiedV>) -> Seq<Seq<char>>
    decreases cs.len(),
{
    if cs.len() == 0 {
        Seq::empty()
    } else {
        let rest = tag_list(cs.drop_last());
        match cs.last().tag {
            None => rest,
            Some(v) => if rest.contains(v) {
                rest
            } else {
                rest.push(v)
            },
        }
    }
}

/// Whether some statement of the sequence is tagged for `v`.
pub open spec fn has_tag(cs: Seq<ClassifiedV>, v: Seq<char>) -> bool {
    exists|i: int| 0 <= i < cs.len() && cs[i].tag == Some(v)
}

/// No statement is tagged for the reserved baseline name; the classifier
/// guarantees this of every sequence it produces.
pub open spec fn no_reserved(cs: Seq<ClassifiedV>) -> bool {
    !has_tag(cs, default_name())
}

/// The names of the table's entries, in order: the baseline first, then
/// the tags in order of first occurrence.
pub open spec fn variant_names(cs: Seq<ClassifiedV>) -> Seq<Seq<char>> {
    seq![default_name()] + tag_list(cs)
}

/// The finished table: one entry per name, each holding that variant's
/// body.
pub open spec fn table_spec(cs: Seq<ClassifiedV>) -> Seq<EntryV> {
    variant_names(cs).map_values(|n: Seq<char>| EntryV { name: n, stmts: variant_seq(cs, n) })
}

/// Membership in a pushed sequence.
proof fn lemma_push_contains<A>(s: Seq<A>, x: A, y: A)
    ensures
        s.push(x).contains(y) <==> (s.contains(y) || x == y),
{
    if s.contains(y) {
        let i = choose|i: int| 0 <= i < s.len() && s[i] == y;
        assert(s.push(x)[i] == y);
    }
    if x == y {
        assert(s.push(x)[s.len() as int] == y);
    }
    if s.push(x).contains(y) {
        let i = choose|i: int| 0 <= i < s.push(x).len() && s.push(x)[i] == y;
        if i < s.len() {
            assert(s[i] == y);
        }
    }
}

/// How one more classified element changes the three sequences above.
pub proof fn lemma_step(cs: Seq<ClassifiedV>, c: ClassifiedV, v: Seq<char>)
    ensures
        c.tag is None ==> untagged_seq(cs.push(c)) == untagged_seq(cs).push(c.stmt),
        c.tag is Some ==> untagged_seq(cs.push(c)) == untagged_seq(cs),
        (c.tag is None || c.tag == Some(v)) ==> variant_seq(cs.push(c), v) == variant_seq(
            cs,
            v,
        ).push(c.stmt),
        !(c.tag is None || c.tag == Some(v)) ==> variant_seq(cs.push(c), v) == variant_seq(cs, v),
        c.tag is None ==> tag_list(cs.push(c)) == tag_list(cs),
        c.tag matches Some(w) ==> tag_list(cs.push(c)) == (if tag_list(cs).contains(w) {
            tag_list(cs)
        } else {
            tag_list(cs).push(w)
        }),
{
    assert(cs.push(c).drop_last() =~= cs);
    assert(cs.push(c).last() == c);
}

/// The tag names listed are exactly the tags that occur.
pub proof fn lemma_tag_list_contains(cs: Seq<ClassifiedV>, v: Seq<char>)
    ensures
        tag_list(cs).contains(v) <==> has_tag(cs, v),
    decreases cs.len(),
{
    if cs.len() > 0 {
        let head = cs.drop_last();
        let c = cs.last();
        lemma_tag_list_contains(head, v);
        assert(head.push(c) =~= cs);
        lemma_step(head, c, v);
        match c.tag {
            None => {
                if has_tag(cs, v) {
                    let i = choose|i: int| 0 <= i < cs.len() && cs[i].tag == Some(v);
                    assert(head[i] == cs[i]);
                }
                if has_tag(head, v) {
                    let i = choose|i: int| 0 <= i < head.len() && head[i].tag == Some(v);
                    assert(cs[i] == head[i]);
                }
            },
            Some(w) => {
                if !tag_list(head).contains(w) {
                    lemma_push_contains(tag_list(head), w, v);
                }
                if tag_list(cs).contains(v) {
                    if v == w {
                        assert(cs[cs.len() - 1].tag == Some(v));
                    } else {
                        let i = choose|i: int| 0 <= i < head.len() && head[i].tag == Some(v);
                        assert(cs[i] == head[i]);
                    }
                } else {
                    if has_tag(cs, v) {
                        let i = choose|i: int| 0 <= i < cs.len() && cs[i].tag == Some(v);
                        if i < head.len() {
                            assert(head[i] == cs[i]);
                        } else {
                            assert(v == w);
                        }
                    }
                }
            },
        }
    }
}

/// A variant for which no statement is tagged has exactly the baseline
/// body.
pub proof fn lemma_variant_seq_fresh(cs: Seq<ClassifiedV>, v: Seq<char>)
    requires
        !has_tag(cs, v),
    ensures
        variant_seq(cs, v) == untagged_seq(cs),
    decreases cs.len(),
{
    if cs.len() > 0 {
        let head = cs.drop_last();
        if has_tag(head, v) {
            let i = choose|i: int| 0 <= i < head.len() && head[i].tag == Some(v);
            assert(cs[i] == head[i]);
        }
        lemma_variant_seq_fresh(head, v);
        assert(cs[cs.len() - 1] == cs.last());
    }
}

/// The tag list never repeats a name.
pub proof fn lemma_tag_list_no_dup(cs: Seq<ClassifiedV>)
    ensures
        tag_list(cs).no_duplicates(),
    decreases cs.len(),
{
    if cs.len() > 0 {
        let head = cs.drop_last();
        lemma_tag_list_no_dup(head);
        match cs.last().tag {
            None => {},
            Some(w) => {
                if !tag_list(head).contains(w) {
                    let pushed = tag_list(head).push(w);
                    assert forall|i: int, j: int|
                        0 <= i < pushed.len() && 0 <= j < pushed.len() && i != j implies pushed[i]
                        != pushed[j] by {
                        if i < tag_list(head).len() && j < tag_list(head).len() {
                        } else if i < tag_list(head).len() {
                            assert(tag_list(head)[i] == pushed[i]);
                            assert(pushed[j] == w);
                        } else {
                            assert(tag_list(head)[j] == pushed[j]);
                            assert(pushed[i] == w);
                        }
                    }
                }
            },
        }
    }
}

/// A prefix of a sequence without reserved tags has none either.
pub proof fn lemma_no_reserved_prefix(cs: Seq<ClassifiedV>, n: int)
    requires
        no_reserved(cs),
        0 <= n <= cs.len(),
    ensures
        no_reserved(cs.take(n)),
{
    if has_tag(cs.take(n), default_name()) {
        let i = choose|i: int|
            0 <= i < cs.take(n).len() && cs.take(n)[i].tag == Some(default_name());
        assert(cs[i] == cs.take(n)[i]);
    }
}

/// The entry names of a table built from a sequence without reserved tags
/// never repeat.
pub proof fn lemma_names_distinct(cs: Seq<ClassifiedV>)
    requires
        no_reserved(cs),
    ensures
        variant_names(cs).no_duplicates(),
        variant_names(cs)[0] == default_name(),
        forall|k: int|
            1 <= k < variant_names(cs).len() ==> variant_names(cs)[k] == tag_list(cs)[k - 1],
{
    lemma_tag_list_no_dup(cs);
    lemma_tag_list_contains(cs, default_name());
    let names = variant_names(cs);
    assert(names[0] == default_name());
    assert forall|k: int| 1 <= k < names.len() implies names[k] == tag_list(cs)[k - 1] by {}
    assert forall|i: int, j: int|
        0 <= i < names.len() && 0 <= j < names.len() && i != j implies names[i] != names[j] by {
        if i >= 1 && j >= 1 {
            assert(tag_list(cs)[i - 1] != tag_list(cs)[j - 1]);
        } else if i == 0 && j >= 1 {
            if names[j] == default_name() {
                assert(tag_list(cs).contains(default_name()));
            }
        } else if j == 0 && i >= 1 {
            if names[i] == default_name() {
                assert(tag_list(cs).contains(default_name()));
            }
        }
    }
}

/// Returns the entries with `s` appended to every entry's statement list.
fn push_to_all(entries: Vec<VariantEntry>, s: &Statement) -> (r: Vec<VariantEntry>)
    ensures
        r.deep_view().len() == entries.deep_view().len(),
        forall|k: int|
            0 <= k < entries.deep_view().len() ==> r.deep_view()[k] == (EntryV {
                name: entries.deep_view()[k].name,
                stmts: entries.deep_view()[k].stmts.push(s@),
            }),
{
    let mut r: Vec<VariantEntry> = Vec::new();
    let mut i: usize = 0;
    while i < entries.len()
        invariant
            i <= entries.len(),
            entries.deep_view().len() == entries.len(),
            r.deep_view().len() == i as int,
            forall|k: int|
                0 <= k < i ==> r.deep_view()[k] == (EntryV {
                    name: entries.deep_view()[k].name,
                    stmts: entries.deep_view()[k].stmts.push(s@),
                }),
        decreases entries.len() - i,
    {
        proof {
            assert(r@.len() == i as int);
        }
        let e = &entries[i];
        assert(e@ == entries.deep_view()[i as int]);
        let mut stmts = clone_stmts(&e.stmts);
        proof {
            assert(stmts.deep_view().len() == e@.stmts.len());
            assert(stmts@.len() == stmts.deep_view().len());
        }
        stmts.push(clone_stmt(s));
        proof {
            assert(stmts.deep_view() =~= entries.deep_view()[i as int].stmts.push(s@));
        }
        let ghost r0 = r.deep_view();
        r.push(VariantEntry { name: e.name.clone(), stmts });
        proof {
            assert forall|k: int| 0 <= k < i as int + 1 implies r.deep_view()[k] == (EntryV {
                name: entries.deep_view()[k].name,
                stmts: entries.deep_view()[k].stmts.push(s@),
            }) by {
                if k < i as int {
                    assert(r.deep_view()[k] == r0[k]);
                } else {
                    assert(r.deep_view()[k] == (EntryV {
                        name: entries.deep_view()[i as int].name,
                        stmts: entries.deep_view()[i as int].stmts.push(s@),
                    }));
                }
            }
        }
        i = i + 1;
    }
    r
}

/// Returns the entries with `s` appended to the statement list of the
/// entry at `target` alone.
fn push_to_entry(entries: Vec<VariantEntry>, target: usize, s: &Statement) -> (r: Vec<
    VariantEntry,
>)
    requires
        (target as int) < entries.deep_view().len(),
    ensures
        r.deep_view().len() == entries.deep_view().len(),
        forall|k: int|
            0 <= k < entries.deep_view().len() && k != target as int ==> r.deep_view()[k]
                == entries.deep_view()[k],
        r.deep_view()[target as int] == (EntryV {
            name: entries.deep_view()[target as int].name,
            stmts: entries.deep_view()[target as int].stmts.push(s@),
        }),
{
    let mut r: Vec<VariantEntry> = Vec::new();
    let mut i: usize = 0;
    while i < entries.len()
        invariant
            i <= entries.len(),
            entries.deep_view().len() == entries.len(),
            (target as int) < entries.deep_view().len(),
            r.deep_view().len() == i as int,
            forall|k: int|
                0 <= k < i && k != target as int ==> r.deep_view()[k] == entries.deep_view()[k],
            (target as int) < i ==> r.deep_view()[target as int] == (EntryV {
                name: entries.deep_view()[target as int].name,
                stmts: entries.deep_view()[target as int].stmts.push(s@),
            }),
        decreases entries.len() - i,
    {
        proof {
            assert(r@.len() == i as int);
        }
        let e = &entries[i];
        assert(e@ == entries.deep_view()[i as int]);
        let mut stmts = clone_stmts(&e.stmts);
        proof {
            assert(stmts.deep_view().len() == e@.stmts.len());
            assert(stmts@.len() == stmts.deep_view().len());
        }
        if i == target {
            stmts.push(clone_stmt(s));
            proof {
                assert(stmts.deep_view() =~= entries.deep_view()[i as int].stmts.push(s@));
            }
        } else {
            proof {
                assert(stmts.deep_view() =~= entries.deep_view()[i as int].stmts);
            }
        }
        let ghost r0 = r.deep_view();
        r.push(VariantEntry { name: e.name.clone(), stmts });
        proof {
            assert(forall|k: int| 0 <= k < i ==> r.deep_view()[k] == r0[k]);
            if i == target {
                assert(r.deep_view()[i as int] == (EntryV {
                    name: entries.deep_view()[i as int].name,
                    stmts: entries.deep_view()[i as int].stmts.push(s@),
                }));
            } else {
                assert(r.deep_view()[i as int] =~= entries.deep_view()[i as int]);
            }
        }
        i = i + 1;
    }
    r
}

/// Finds the entry carrying `name`, if any.
fn find_entry(entries: &Vec<VariantEntry>, name: &String) -> (r: Option<usize>)
    ensures
        match r {
            Some(j) => (j as int) < entries.deep_view().len() && entries.deep_view()[j as int].name
                == name@,
            None => forall|k: int|
                0 <= k < entries.deep_view().len() ==> entries.deep_view()[k].name != name@,
        },
{
    let mut i: usize = 0;
    while i < entries.len()
        invariant
            i <= entries.len(),
            entries.deep_view().len() == entries.len(),
            forall|k: int| 0 <= k < i ==> entries.deep_view()[k].name != name@,
        decreases entries.len() - i,
    {
        let e = &entries[i];
        assert(e@ == entries.deep_view()[i as int]);
        if e.name == *name {
            return Some(i);
        }
        i = i + 1;
    }
    None
}

/// Builds the variant table in one pass: an untagged statement is appended
/// to every entry; a tagged one creates its entry on first sight, seeded
/// with the baseline gathered so far, and is appended there alone. The
/// result holds, for every entry, exactly that variant's body in source
/// order.
pub fn build_table(cs: &Vec<Classified>) -> (t: VariantTable)
    requires
        no_reserved(cs.deep_view()),
    ensures
        t.deep_view() == table_spec(cs.deep_view()),
{
    let ghost csv = cs.deep_view();
    let mut entries: Vec<VariantEntry> = Vec::new();
    entries.push(VariantEntry { name: String::from_str("default"), stmts: Vec::new() });
    proof {
        let empty = csv.take(0);
        assert(empty =~= Seq::<ClassifiedV>::empty());
        assert(variant_names(empty) =~= seq![default_name()]);
        assert(entries.deep_view().len() == 1);
        assert(entries.deep_view()[0] =~= table_spec(empty)[0]);
        assert(entries.deep_view() =~= table_spec(empty));
    }
    let mut i: usize = 0;
    while i < cs.len()
        invariant
            i <= cs.len(),
            csv == cs.deep_view(),
            csv.len() == cs.len(),
            no_reserved(csv),
            entries.deep_view() =~= table_spec(csv.take(i as int)),
        decreases cs.len() - i,
    {
        let ghost prefix = csv.take(i as int);
        let ghost prefix1 = csv.take(i as int + 1);
        proof {
            assert(prefix.push(csv[i as int]) =~= prefix1);
            lemma_no_reserved_prefix(csv, i as int);
            lemma_no_reserved_prefix(csv, i as int + 1);
            lemma_names_distinct(prefix);
        }
        let c = &cs[i];
        assert(c@ == csv[i as int]);
        let ghost names = variant_names(prefix);
        match &c.tag {
            None => {
                entries = push_to_all(entries, &c.stmt);
                proof {
                    lemma_step(prefix, csv[i as int], default_name());
                    assert(variant_names(prefix1) == names);
                    assert forall|k: int|
                        0 <= k < entries.deep_view().len() implies entries.deep_view()[k]
                        == table_spec(prefix1)[k] by {
                        lemma_step(prefix, csv[i as int], names[k]);
                    }
                    assert(entries.deep_view() =~= table_spec(prefix1));
                }
            },
            Some(name) => {
                let ghost v = name@;
                proof {
                    assert(csv[i as int].tag == Some(v));
                    if v == default_name() {
                        assert(has_tag(csv, default_name()));
                    }
                }
                match find_entry(&entries, name) {
                    Some(j) => {
                        proof {
                            assert(entries.deep_view()[j as int] == table_spec(prefix)[j as int]);
                            assert(names[j as int] == v);
                            assert(j != 0);
                            assert(tag_list(prefix)[j as int - 1] == v);
                            assert(tag_list(prefix).contains(v));
                            lemma_step(prefix, csv[i as int], v);
                            assert(variant_names(prefix1) == names);
                        }
                        entries = push_to_entry(entries, j, &c.stmt);
                        proof {
                            assert forall|k: int|
                                0 <= k < entries.deep_view().len() implies entries.deep_view()[k]
                                == table_spec(prefix1)[k] by {
                                lemma_step(prefix, csv[i as int], names[k]);
                                if k != j as int {
                                    assert(names[k] != v);
                                }
                            }
                            assert(entries.deep_view() =~= table_spec(prefix1));
                        }
                    },
                    None => {
                        proof {
                            if tag_list(prefix).contains(v) {
                                let k = choose|k: int|
                                    0 <= k < tag_list(prefix).len() && tag_list(prefix)[k] == v;
                                assert(names[k + 1] == v);
                                assert(entries.deep_view()[k + 1] == table_spec(prefix)[k + 1]);
                                assert(entries.deep_view()[k + 1].name == v);
                                assert(false);
                            }
                            lemma_tag_list_contains(prefix, v);
                            lemma_variant_seq_fresh(prefix, v);
                            lemma_tag_list_contains(prefix, default_name());
                            lemma_variant_seq_fresh(prefix, default_name());
                            lemma_step(prefix, csv[i as int], v);
                            assert(variant_names(prefix1) =~= names.push(v));
                        }
                        proof {
                            assert(entries.deep_view().len() == names.len());
                            assert(entries@.len() == entries.deep_view().len());
                            assert(entries.deep_view()[0] == table_spec(prefix)[0]);
                        }
                        let e0 = &entries[0];
                        assert(e0@ == entries.deep_view()[0]);
                        assert(e0@.stmts == untagged_seq(prefix));
                        let mut stmts = clone_stmts(&e0.stmts);
                        proof {
                            assert(stmts.deep_view().len() == e0@.stmts.len());
                            assert(stmts@.len() == stmts.deep_view().len());
                        }
                        stmts.push(clone_stmt(&c.stmt));
                        proof {
                            assert(stmts.deep_view() =~= untagged_seq(prefix).push(
                                csv[i as int].stmt,
                            ));
                        }
                        let ghost before = entries.deep_view();
                        proof {
                            assert(before.len() == names.len());
                            assert(entries@.len() == before.len());
                        }
                        entries.push(VariantEntry { name: name.clone(), stmts });
                        proof {
                            assert forall|k: int|
                                0 <= k < entries.deep_view().len() implies entries.deep_view()[k]
                                == table_spec(prefix1)[k] by {
                                if k < before.len() {
                                    assert(entries.deep_view()[k] == before[k]);
                                    lemma_step(prefix, csv[i as int], names[k]);
                                    assert(names[k] != v);
                                } else {
                                    assert(entries.deep_view()[k] == (EntryV {
                                        name: v,
                                        stmts: untagged_seq(prefix).push(csv[i as int].stmt),
                                    }));
                                    assert(variant_names(prefix1)[k] == v);
                                }
                            }
                            assert(entries.deep_view() =~= table_spec(prefix1));
                        }
                    },
                }
            },
        }
        i = i + 1;
    }
    proof {
        assert(csv.take(csv.len() as int) =~= csv);
    }
    VariantTable { entries }
}

/// Whether `a` occurs inside `b` as a subsequence: all of `a`'s elements,
/// in `a`'s order, possibly with other elements of `b` in between.
pub open spec fn is_subseq_of(a: Seq<StatementV>, b: Seq<StatementV>) -> bool
    decreases b.len(),
{
    if a.len() == 0 {
        true
    } else if b.len() == 0 {
        false
    } else if a.last() == b.last() {
        is_subseq_of(a.drop_last(), b.drop_last()) || is_subseq_of(a, b.drop_last())
    } else {
        is_subseq_of(a, b.drop_last())
    }
}

/// A subsequence survives appending to the right-hand side.
proof fn lemma_subseq_push(a: Seq<StatementV>, b: Seq<StatementV>, x: StatementV)
    requires
        is_subseq_of(a, b),
    ensures
        is_subseq_of(a, b.push(x)),
{
    assert(b.push(x).drop_last() =~= b);
    assert(b.push(x).last() == x);
}

/// Completeness: every untagged statement appears in every variant's body,
/// in the original relative order — for any name, the ordered untagged
/// list is a subsequence of that variant's body.
pub proof fn lemma_completeness(cs: Seq<ClassifiedV>, v: Seq<char>)
    ensures
        is_subseq_of(untagged_seq(cs), variant_seq(cs, v)),
    decreases cs.len(),
{
    if cs.len() > 0 {
        let head = cs.drop_last();
        let c = cs.last();
        lemma_completeness(head, v);
        lemma_step(head, c, v);
        assert(head.push(c) =~= cs);
        if c.tag is None {
            let u = untagged_seq(head).push(c.stmt);
            let w = variant_seq(head, v).push(c.stmt);
            assert(u.drop_last() =~= untagged_seq(head));
            assert(w.drop_last() =~= variant_seq(head, v));
            assert(u.last() == w.last());
        } else if c.tag == Some(v) {
            lemma_subseq_push(untagged_seq(head), variant_seq(head, v), c.stmt);
        }
    }
}

/// Exclusivity: a statement that occurs in the input only tagged for `v`
/// never appears in the baseline, nor in the body of any other variant
/// `w != v`.
pub proof fn lemma_exclusivity(cs: Seq<ClassifiedV>, s: StatementV, v: Seq<char>, w: Seq<char>)
    requires
        forall|i: int| 0 <= i < cs.len() && cs[i].stmt == s ==> cs[i].tag == Some(v),
        w != v,
    ensures
        !untagged_seq(cs).contains(s),
        !variant_seq(cs, w).contains(s),
    decreases cs.len(),
{
    if cs.len() > 0 {
        let head = cs.drop_last();
        let c = cs.last();
        assert forall|i: int| 0 <= i < head.len() && head[i].stmt == s implies head[i].tag == Some(
            v,
        ) by {
            assert(head[i] == cs[i]);
        }
        lemma_exclusivity(head, s, v, w);
        lemma_step(head, c, v);
        assert(head.push(c) =~= cs);
        assert(c == cs[cs.len() - 1]);
        if c.tag is None || c.tag == Some(w) {
            assert(c.stmt != s);
        }
        if c.tag is None {
            lemma_push_contains(untagged_seq(head), c.stmt, s);
        }
        if c.tag is None || c.tag == Some(w) {
            lemma_push_contains(variant_seq(head, w), c.stmt, s);
        }
    }
}

/// Order preservation: a variant's body is exactly the input sequence
/// filtered down to the untagged statements and those tagged for the
/// variant, in the original order.
pub proof fn lemma_order_preservation(cs: Seq<ClassifiedV>, v: Seq<char>)
    ensures
        variant_seq(cs, v) == cs.filter(|c: ClassifiedV| c.tag is None || c.tag == Some(v))
            .map_values(|c: ClassifiedV| c.stmt),
    decreases cs.len(),
{
    reveal(Seq::filter);
    let pred = |c: ClassifiedV| c.tag is None || c.tag == Some(v);
    let keep = |c: ClassifiedV| c.stmt;
    if cs.len() == 0 {
        assert(variant_seq(cs, v) =~= cs.filter(pred).map_values(keep));
    } else {
        let head = cs.drop_last();
        let c = cs.last();
        lemma_order_preservation(head, v);
        if pred(c) {
            assert(cs.filter(pred) == head.filter(pred).push(c));
            assert(cs.filter(pred).map_values(keep) =~= head.filter(pred).map_values(keep).push(
                c.stmt,
            ));
        } else {
            assert(cs.filter(pred) == head.filter(pred));
        }
    }
}

/// Baseline equivalence: the first table entry is the baseline, and its
/// body is exactly the ordered list of untagged statements, with no tagged
/// statement ever present.
pub proof fn lemma_baseline(cs: Seq<ClassifiedV>)
    requires
        no_reserved(cs),
    ensures
        table_spec(cs).len() >= 1,
        table_spec(cs)[0].name == default_name(),
        table_spec(cs)[0].stmts == untagged_seq(cs),
{
    lemma_tag_list_contains(cs, default_name());
    lemma_variant_seq_fresh(cs, default_name());
    assert(variant_names(cs)[0] == default_name());
}

} // verus!
