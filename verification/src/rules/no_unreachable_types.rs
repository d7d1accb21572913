//! The `noUnreachableTypes` lint rule.
use vstd::prelude::*;
use crate::diagnostics::{CodeFix, LintDiagnostic, LintSeverity, SourceSpan};
use crate::schema::{
    file_diags_view, span_of, DirectiveDef, DirectiveUsage, FieldSignature, FileDiagnostic,
    FileDiagnosticView, TypeDef, TypeDefKind,
};
use crate::text::str_eq;

verus! {

/// Lint rule that detects unreachable types in the schema
///
/// Types that are not reachable from any root type (Query, Mutation, Subscription)
/// are dead code in the schema. They add complexity without being usable.
pub struct NoUnreachableTypesRuleImpl;

impl NoUnreachableTypesRuleImpl {
    /// The rule's identifier.
    pub fn name(&self) -> (s: &'static str)
        ensures
            s@ == "noUnreachableTypes"@,
    {
        "noUnreachableTypes"
    }

    /// What the rule checks.
    pub fn description(&self) -> (s: &'static str)
        ensures
            s@ == "Detects types that are not reachable from any root operation type"@,
    {
        "Detects types that are not reachable from any root operation type"
    }

    /// The severity the rule reports with unless configured otherwise.
    pub fn default_severity(&self) -> (s: LintSeverity)
        ensures
            s == LintSeverity::Warning,
    {
        LintSeverity::Warning
    }
}

/// `n` is one of the strings `v`.
pub open spec fn has_name(v: Seq<String>, n: Seq<char>) -> bool {
    exists|k: int| 0 <= k < v.len() && (#[trigger] v[k])@ == n
}

/// Field `f` refers to the type named `n`: as its type, as the type of one
/// of its arguments, or as the type of an argument of a directive
/// definition whose directive is applied to `f`.
pub open spec fn field_refs(f: FieldSignature, dirs: Seq<DirectiveDef>, n: Seq<char>) -> bool {
    ||| f.type_ref.name@ == n
    ||| exists|a: int| 0 <= a < f.arguments@.len() && (#[trigger] f.arguments@[a]).type_ref.name@ == n
    ||| exists|u: int, d: int, a: int|
        0 <= u < f.directives@.len() && 0 <= d < dirs.len() && 0 <= a < dirs[d].arguments@.len()
        && (#[trigger] dirs[d]).name@ == (#[trigger] f.directives@[u]).name@
        && (#[trigger] dirs[d].arguments@[a]).type_ref.name@ == n
}

/// Type `types[i]` leads to the type named `n`: through a field, an
/// interface it implements, a union member, or (for an interface) a type
/// that implements it.
pub open spec fn refs_name(types: Seq<TypeDef>, dirs: Seq<DirectiveDef>, i: int, n: Seq<char>) -> bool {
    ||| exists|k: int| 0 <= k < types[i].fields@.len() && field_refs(#[trigger] types[i].fields@[k], dirs, n)
    ||| has_name(types[i].implements@, n)
    ||| has_name(types[i].union_members@, n)
    ||| exists|j: int| 0 <= j < types.len() && (#[trigger] types[j]).name@ == n && has_name(types[j].implements@, types[i].name@)
}

/// `types[i]` is reached from the root type names `roots` in at most `k` steps.
pub open spec fn reached_within(types: Seq<TypeDef>, dirs: Seq<DirectiveDef>, roots: Seq<String>, k: nat, i: int) -> bool
    decreases k,
{
    if k == 0 {
        has_name(roots, types[i].name@)
    } else {
        ||| reached_within(types, dirs, roots, (k - 1) as nat, i)
        ||| exists|j: int| 0 <= j < types.len() && reached_within(types, dirs, roots, (k - 1) as nat, j)
            && #[trigger] refs_name(types, dirs, j, types[i].name@)
    }
}

/// `types[i]` is reachable from the root type names `roots`.
pub open spec fn type_reached(types: Seq<TypeDef>, dirs: Seq<DirectiveDef>, roots: Seq<String>, i: int) -> bool {
    exists|k: nat| #[trigger] reached_within(types, dirs, roots, k, i)
}

/// The name `n` is reachable: a root, or referred to by a reachable type.
pub open spec fn name_reached(types: Seq<TypeDef>, dirs: Seq<DirectiveDef>, roots: Seq<String>, n: Seq<char>) -> bool {
    ||| has_name(roots, n)
    ||| exists|i: int| 0 <= i < types.len() && type_reached(types, dirs, roots, i) && #[trigger] refs_name(types, dirs, i, n)
}

/// Names are unique among the types, and among the directive definitions.
pub open spec fn schema_well_formed(types: Seq<TypeDef>, dirs: Seq<DirectiveDef>) -> bool {
    &&& forall|i: int, j: int| 0 <= i < j < types.len() ==> (#[trigger] types[i]).name@ != (#[trigger] types[j]).name@
    &&& forall|i: int, j: int| 0 <= i < j < dirs.len() ==> (#[trigger] dirs[i]).name@ != (#[trigger] dirs[j]).name@
}

fn contains_name(v: &Vec<String>, n: &str) -> (r: bool)
    ensures
        r == has_name(v@, n@),
{
    let mut k: usize = 0;
    while k < v.len()
        invariant
            0 <= k <= v@.len(),
            forall|j: int| 0 <= j < k ==> (#[trigger] v@[j])@ != n@,
        decreases v@.len() - k,
    {
        if str_eq(v[k].as_str(), n) {
            return true;
        }
        k += 1;
    }
    false
}

fn directive_refs(u: &DirectiveUsage, dirs: &Vec<DirectiveDef>, n: &str) -> (r: bool)
    ensures
        r == exists|d: int, a: int| 0 <= d < dirs@.len() && 0 <= a < dirs@[d].arguments@.len()
            && (#[trigger] dirs@[d]).name@ == u.name@ && (#[trigger] dirs@[d].arguments@[a]).type_ref.name@ == n@,
{
    let mut d: usize = 0;
    while d < dirs.len()
        invariant
            0 <= d <= dirs@.len(),
            forall|x: int, a: int| 0 <= x < d && 0 <= a < dirs@[x].arguments@.len()
                && (#[trigger] dirs@[x]).name@ == u.name@ ==> (#[trigger] dirs@[x].arguments@[a]).type_ref.name@ != n@,
        decreases dirs@.len() - d,
    {
        if str_eq(dirs[d].name.as_str(), u.name.as_str()) {
            let args = &dirs[d].arguments;
            let mut a: usize = 0;
            while a < args.len()
                invariant
                    0 <= a <= args@.len(),
                    d < dirs@.len(),
                    dirs@[d as int].name@ == u.name@,
                    args == dirs@[d as int].arguments,
                    forall|y: int| 0 <= y < a ==> (#[trigger] args@[y]).type_ref.name@ != n@,
                decreases args@.len() - a,
            {
                if str_eq(args[a].type_ref.name.as_str(), n) {
                    assert(dirs@[d as int].arguments@[a as int].type_ref.name@ == n@);
                    return true;
                }
                a += 1;
            }
        }
        d += 1;
    }
    false
}

fn field_refs_exec(f: &FieldSignature, dirs: &Vec<DirectiveDef>, n: &str) -> (r: bool)
    ensures
        r == field_refs(*f, dirs@, n@),
{
    if str_eq(f.type_ref.name.as_str(), n) {
        return true;
    }
    let mut a: usize = 0;
    while a < f.arguments.len()
        invariant
            0 <= a <= f.arguments@.len(),
            forall|y: int| 0 <= y < a ==> (#[trigger] f.arguments@[y]).type_ref.name@ != n@,
        decreases f.arguments@.len() - a,
    {
        if str_eq(f.arguments[a].type_ref.name.as_str(), n) {
            return true;
        }
        a += 1;
    }
    let mut u: usize = 0;
    while u < f.directives.len()
        invariant
            0 <= u <= f.directives@.len(),
            forall|x: int, d: int, a: int|
                0 <= x < u && 0 <= d < dirs@.len() && 0 <= a < dirs@[d].arguments@.len()
                && (#[trigger] dirs@[d]).name@ == (#[trigger] f.directives@[x]).name@
                ==> (#[trigger] dirs@[d].arguments@[a]).type_ref.name@ != n@,
        decreases f.directives@.len() - u,
    {
        if directive_refs(&f.directives[u], dirs, n) {
            return true;
        }
        u += 1;
    }
    false
}

fn refs_name_exec(types: &Vec<TypeDef>, dirs: &Vec<DirectiveDef>, i: usize, n: &str) -> (r: bool)
    requires
        i < types@.len(),
    ensures
        r == refs_name(types@, dirs@, i as int, n@),
{
    let t = &types[i];
    let mut k: usize = 0;
    while k < t.fields.len()
        invariant
            0 <= k <= t.fields@.len(),
            t == types@[i as int],
            forall|y: int| 0 <= y < k ==> !field_refs(#[trigger] t.fields@[y], dirs@, n@),
        decreases t.fields@.len() - k,
    {
        if field_refs_exec(&t.fields[k], dirs, n) {
            return true;
        }
        k += 1;
    }
    if contains_name(&t.implements, n) || contains_name(&t.union_members, n) {
        return true;
    }
    let mut j: usize = 0;
    while j < types.len()
        invariant
            0 <= j <= types@.len(),
            i < types@.len(),
            t == types@[i as int],
            forall|y: int| 0 <= y < j ==> !((#[trigger] types@[y]).name@ == n@ && has_name(types@[y].implements@, t.name@)),
        decreases types@.len() - j,
    {
        if str_eq(types[j].name.as_str(), n) && contains_name(&types[j].implements, t.name.as_str()) {
            return true;
        }
        j += 1;
    }
    false
}

/// Number of `false` entries of `s`.
pub open spec fn count_false(s: Seq<bool>) -> nat
    decreases s.len(),
{
    if s.len() == 0 {
        0
    } else {
        count_false(s.drop_last()) + if s.last() { 0nat } else { 1nat }
    }
}

proof fn lemma_count_false_mark(s: Seq<bool>, i: int)
    requires
        0 <= i < s.len(),
        !s[i],
    ensures
        count_false(s.update(i, true)) + 1 == count_false(s),
    decreases s.len(),
{
    if i < s.len() - 1 {
        lemma_count_false_mark(s.drop_last(), i);
        assert(s.update(i, true).drop_last() =~= s.drop_last().update(i, true));
    } else {
        assert(s.update(i, true).drop_last() =~= s.drop_last());
    }
}

proof fn lemma_closed_reaches(
    types: Seq<TypeDef>,
    dirs: Seq<DirectiveDef>,
    roots: Seq<String>,
    visited: Seq<bool>,
    k: nat,
    i: int,
)
    requires
        visited.len() == types.len(),
        0 <= i < types.len(),
        forall|x: int| 0 <= x < types.len() && has_name(roots, (#[trigger] types[x]).name@) ==> visited[x],
        forall|x: int, y: int| 0 <= x < types.len() && 0 <= y < types.len() && visited[x]
            && #[trigger] refs_name(types, dirs, x, (#[trigger] types[y]).name@) ==> visited[y],
        reached_within(types, dirs, roots, k, i),
    ensures
        visited[i],
    decreases k,
{
    if k > 0 {
        if reached_within(types, dirs, roots, (k - 1) as nat, i) {
            lemma_closed_reaches(types, dirs, roots, visited, (k - 1) as nat, i);
        } else {
            let j = choose|j: int| 0 <= j < types.len() && reached_within(types, dirs, roots, (k - 1) as nat, j)
                && #[trigger] refs_name(types, dirs, j, types[i].name@);
            lemma_closed_reaches(types, dirs, roots, visited, (k - 1) as nat, j);
        }
    }
}

/// Marks the types whose names are roots.
fn mark_roots(types: &Vec<TypeDef>, roots: &Vec<String>) -> (r: (Vec<bool>, Vec<usize>))
    ensures
        r.0@.len() == types@.len(),
        forall|x: int| 0 <= x < types@.len() ==> (r.0@[x] <==> has_name(roots@, (#[trigger] types@[x]).name@)),
        forall|x: int| 0 <= x < types@.len() && #[trigger] r.0@[x] ==> r.1@.contains(x as usize),
        forall|k: int| 0 <= k < r.1@.len() ==> (#[trigger] r.1@[k]) < types@.len() && r.0@[r.1@[k] as int],
{
    let mut visited: Vec<bool> = Vec::new();
    let mut stack: Vec<usize> = Vec::new();
    let mut i: usize = 0;
    while i < types.len()
        invariant
            0 <= i <= types@.len(),
            visited@.len() == i,
            forall|x: int| 0 <= x < i ==> (visited@[x] <==> has_name(roots@, (#[trigger] types@[x]).name@)),
            forall|x: int| 0 <= x < i && #[trigger] visited@[x] ==> stack@.contains(x as usize),
            forall|k: int| 0 <= k < stack@.len() ==> (#[trigger] stack@[k]) < i && visited@[stack@[k] as int],
        decreases types@.len() - i,
    {
        let root = contains_name(roots, types[i].name.as_str());
        let ghost old_stack = stack@;
        visited.push(root);
        if root {
            stack.push(i);
            assert(stack@[old_stack.len() as int] == i);
        }
        assert forall|x: int| 0 <= x <= i && #[trigger] visited@[x] implies stack@.contains(x as usize) by {
            if x < i {
                let w = choose|w: int| 0 <= w < old_stack.len() && old_stack[w] == x as usize;
                assert(stack@[w] == x as usize);
            } else {
                assert(stack@[old_stack.len() as int] == i);
            }
        }
        i += 1;
    }
    (visited, stack)
}

/// Which types are reachable from the root type names `roots`, by index.
pub fn reachable_types(types: &Vec<TypeDef>, dirs: &Vec<DirectiveDef>, roots: &Vec<String>) -> (v: Vec<bool>)
    ensures
        v@.len() == types@.len(),
        forall|i: int| 0 <= i < types@.len() ==> (v@[i] <==> type_reached(types@, dirs@, roots@, i)),
{
    let n = types.len();
    let (mut visited, mut stack) = mark_roots(types, roots);
    let mut done: Vec<bool> = Vec::new();
    let mut z: usize = 0;
    while z < n
        invariant
            0 <= z <= n,
            n == types@.len(),
            done@.len() == z,
            forall|x: int| 0 <= x < z ==> !(#[trigger] done@[x]),
        decreases n - z,
    {
        done.push(false);
        z += 1;
    }
    proof {
        assert forall|x: int| 0 <= x < n && #[trigger] visited@[x] implies type_reached(types@, dirs@, roots@, x) by {
            assert(reached_within(types@, dirs@, roots@, 0, x));
        }
    }
    while stack.len() > 0
        invariant
            n == types@.len(),
            visited@.len() == n,
            done@.len() == n,
            forall|x: int| 0 <= x < n && #[trigger] visited@[x] ==> type_reached(types@, dirs@, roots@, x),
            forall|x: int| 0 <= x < n && has_name(roots@, (#[trigger] types@[x]).name@) ==> visited@[x],
            forall|x: int, y: int| 0 <= x < n && 0 <= y < n && done@[x]
                && #[trigger] refs_name(types@, dirs@, x, (#[trigger] types@[y]).name@) ==> visited@[y],
            forall|x: int| 0 <= x < n && visited@[x] && !(#[trigger] done@[x]) ==> stack@.contains(x as usize),
            forall|k: int| 0 <= k < stack@.len() ==> (#[trigger] stack@[k]) < n && visited@[stack@[k] as int],
            forall|x: int| 0 <= x < n && #[trigger] done@[x] ==> visited@[x],
        decreases count_false(visited@), stack@.len(),
    {
        let ghost c0 = count_false(visited@);
        let ghost s0 = stack@.len();
        let ghost old_stack = stack@;
        let i = stack.pop().unwrap();
        assert(stack@ =~= old_stack.drop_last());
        assert(old_stack[old_stack.len() - 1] == i);
        proof {
            assert forall|x: int| 0 <= x < n && visited@[x] && !(#[trigger] done@[x]) && x != i implies stack@.contains(x as usize) by {
                let w = choose|w: int| 0 <= w < old_stack.len() && old_stack[w] == x as usize;
                assert(w != old_stack.len() - 1);
                assert(stack@[w] == x as usize);
            }
        }
        if done[i] {
            continue;
        }
        done.set(i, true);
        let ghost ki = choose|k: nat| #[trigger] reached_within(types@, dirs@, roots@, k, i as int);
        let mut j: usize = 0;
        while j < n
            invariant
                0 <= j <= n,
                n == types@.len(),
                i < n,
                visited@.len() == n,
                done@.len() == n,
                done@[i as int],
                reached_within(types@, dirs@, roots@, ki, i as int),
                count_false(visited@) + stack@.len() == c0 + s0 - 1,
                count_false(visited@) <= c0,
                forall|x: int| 0 <= x < n && #[trigger] visited@[x] ==> type_reached(types@, dirs@, roots@, x),
                forall|x: int| 0 <= x < n && has_name(roots@, (#[trigger] types@[x]).name@) ==> visited@[x],
                forall|x: int, y: int| 0 <= x < n && 0 <= y < n && done@[x] && x != i
                    && #[trigger] refs_name(types@, dirs@, x, (#[trigger] types@[y]).name@) ==> visited@[y],
                forall|y: int| 0 <= y < j && #[trigger] refs_name(types@, dirs@, i as int, types@[y].name@) ==> visited@[y],
                forall|x: int| 0 <= x < n && visited@[x] && !(#[trigger] done@[x]) ==> stack@.contains(x as usize),
                forall|k: int| 0 <= k < stack@.len() ==> (#[trigger] stack@[k]) < n && visited@[stack@[k] as int],
                forall|x: int| 0 <= x < n && #[trigger] done@[x] ==> visited@[x],
            decreases n - j,
        {
            if !visited[j] && refs_name_exec(types, dirs, i, types[j].name.as_str()) {
                proof {
                    lemma_count_false_mark(visited@, j as int);
                    assert(reached_within(types@, dirs@, roots@, ki + 1, j as int));
                }
                let ghost st = stack@;
                visited.set(j, true);
                stack.push(j);
                proof {
                    assert(stack@[st.len() as int] == j);
                    assert forall|x: int| 0 <= x < n && visited@[x] && !(#[trigger] done@[x]) implies stack@.contains(x as usize) by {
                        if x != j {
                            let w = choose|w: int| 0 <= w < st.len() && st[w] == x as usize;
                            assert(stack@[w] == x as usize);
                        }
                    }
                }
            }
            j += 1;
        }
    }
    proof {
        assert forall|x: int| 0 <= x < n && visited@[x] implies #[trigger] done@[x] by {
            if !done@[x] {
                assert(stack@.contains(x as usize));
            }
        }
        assert forall|i: int| 0 <= i < n implies (visited@[i] <==> type_reached(types@, dirs@, roots@, i)) by {
            if type_reached(types@, dirs@, roots@, i) {
                let k = choose|k: nat| #[trigger] reached_within(types@, dirs@, roots@, k, i);
                lemma_closed_reaches(types@, dirs@, roots@, visited@, k, i);
            }
        }
    }
    visited
}

/// `n` is the type of an argument of a directive that may be used in
/// executable documents: such types count as reachable.
pub open spec fn executable_arg_type(dirs: Seq<DirectiveDef>, n: Seq<char>) -> bool {
    exists|d: int, a: int| 0 <= d < dirs.len() && 0 <= a < dirs[d].arguments@.len()
        && (#[trigger] dirs[d]).has_executable_location && (#[trigger] dirs[d].arguments@[a]).type_ref.name@ == n
}

/// `n` counts as reachable.
pub open spec fn counts_reached(types: Seq<TypeDef>, dirs: Seq<DirectiveDef>, roots: Seq<String>, n: Seq<char>) -> bool {
    name_reached(types, dirs, roots, n) || executable_arg_type(dirs, n)
}

/// A directive named `n` is applied somewhere: on a type, a field, a field
/// argument or an enum value of `types`, or on the schema definition (the
/// names `on_schema`).
pub open spec fn directive_applied(types: Seq<TypeDef>, on_schema: Seq<String>, n: Seq<char>) -> bool {
    ||| has_name(on_schema, n)
    ||| exists|t: int| 0 <= t < types.len() && applied_in(#[trigger] types[t], n)
}

/// A directive named `n` is applied to `t`, one of its fields, one of its
/// fields' arguments, or one of its enum values.
pub open spec fn applied_in(t: TypeDef, n: Seq<char>) -> bool {
    ||| exists|u: int| 0 <= u < t.directives@.len() && (#[trigger] t.directives@[u]).name@ == n
    ||| exists|f: int, u: int| 0 <= f < t.fields@.len() && 0 <= u < t.fields@[f].directives@.len()
        && (#[trigger] t.fields@[f].directives@[u]).name@ == n
    ||| exists|f: int, a: int, u: int| 0 <= f < t.fields@.len() && 0 <= a < t.fields@[f].arguments@.len()
        && 0 <= u < t.fields@[f].arguments@[a].directives@.len()
        && (#[trigger] t.fields@[f].arguments@[a].directives@[u]).name@ == n
    ||| exists|e: int, u: int| 0 <= e < t.enum_values@.len() && 0 <= u < t.enum_values@[e].directives@.len()
        && (#[trigger] t.enum_values@[e].directives@[u]).name@ == n
}

/// The directives of the GraphQL specification.
pub open spec fn builtin_directive(n: Seq<char>) -> bool {
    n == "deprecated"@ || n == "skip"@ || n == "include"@ || n == "specifiedBy"@ || n == "defer"@
}

/// How messages name a kind of type.
pub open spec fn kind_name(k: TypeDefKind) -> Seq<char> {
    match k {
        TypeDefKind::Object => "Object type"@,
        TypeDefKind::Interface => "Interface type"@,
        TypeDefKind::Union => "Union type"@,
        TypeDefKind::Enum => "Enum type"@,
        TypeDefKind::InputObject => "Input object type"@,
        TypeDefKind::Scalar => "Scalar type"@,
    }
}

/// The report for an unreachable type definition (or extension) `t`, with
/// a fix that removes its definition.
pub open spec fn type_report(t: TypeDef) -> FileDiagnosticView {
    (t.file_id, (
        span_of(t.name_range),
        LintSeverity::Warning,
        kind_name(t.kind) + " `"@ + t.name@ + "` is unreachable."@,
        "noUnreachableTypes"@,
        Some(("Remove `"@ + t.name@ + "`"@, seq![(t.definition_range.start as int, t.definition_range.end as int, Seq::<char>::empty())])),
    ))
}

/// The report for an unreachable directive definition `d`, with a fix that
/// removes it.
pub open spec fn directive_report(d: DirectiveDef) -> FileDiagnosticView {
    (d.file_id, (
        span_of(d.name_range),
        LintSeverity::Warning,
        "Directive `"@ + d.name@ + "` is unreachable."@,
        "noUnreachableTypes"@,
        Some(("Remove `@"@ + d.name@ + "`"@, seq![(d.definition_range.start as int, d.definition_range.end as int, Seq::<char>::empty())])),
    ))
}

/// Reports for the type definitions `ts` whose names do not count as reachable.
pub open spec fn unreachable_type_reports(types: Seq<TypeDef>, dirs: Seq<DirectiveDef>, roots: Seq<String>, ts: Seq<TypeDef>) -> Seq<FileDiagnosticView>
    decreases ts.len(),
{
    if ts.len() == 0 {
        seq![]
    } else {
        let t = ts.last();
        unreachable_type_reports(types, dirs, roots, ts.drop_last())
            + if counts_reached(types, dirs, roots, t.name@) { seq![] } else { seq![type_report(t)] }
    }
}

/// Reports for the type extensions among `es` whose names do not count as reachable.
pub open spec fn unreachable_extension_reports(types: Seq<TypeDef>, dirs: Seq<DirectiveDef>, roots: Seq<String>, es: Seq<TypeDef>) -> Seq<FileDiagnosticView>
    decreases es.len(),
{
    if es.len() == 0 {
        seq![]
    } else {
        let e = es.last();
        unreachable_extension_reports(types, dirs, roots, es.drop_last())
            + if !e.is_extension || counts_reached(types, dirs, roots, e.name@) { seq![] } else { seq![type_report(e)] }
    }
}

/// Reports for the directive definitions among `ds` that are neither
/// built in, nor usable in executable documents, nor applied anywhere.
pub open spec fn unreachable_directive_reports(types: Seq<TypeDef>, on_schema: Seq<String>, ds: Seq<DirectiveDef>) -> Seq<FileDiagnosticView>
    decreases ds.len(),
{
    if ds.len() == 0 {
        seq![]
    } else {
        let d = ds.last();
        unreachable_directive_reports(types, on_schema, ds.drop_last())
            + if builtin_directive(d.name@) || d.has_executable_location || directive_applied(types, on_schema, d.name@) {
                seq![]
            } else {
                seq![directive_report(d)]
            }
    }
}

/// All reports of the rule, before ordering.
pub open spec fn all_reports(
    types: Seq<TypeDef>,
    dirs: Seq<DirectiveDef>,
    roots: Seq<String>,
    raw_defs: Seq<TypeDef>,
    on_schema: Seq<String>,
) -> Seq<FileDiagnosticView> {
    unreachable_type_reports(types, dirs, roots, types)
        + unreachable_extension_reports(types, dirs, roots, raw_defs)
        + unreachable_directive_reports(types, on_schema, dirs)
}

/// Diagnostics ordered by file, then by where their span starts.
pub open spec fn ordered_by_position(r: Seq<FileDiagnosticView>) -> bool {
    forall|i: int, j: int| 0 <= i < j < r.len() ==> position_le(#[trigger] r[i], #[trigger] r[j])
}

/// `a` comes no later than `b`: an earlier file, or the same file and a
/// span that starts no later.
pub open spec fn position_le(a: FileDiagnosticView, b: FileDiagnosticView) -> bool {
    a.0 < b.0 || (a.0 == b.0 && a.1.0.start <= b.1.0.start)
}

fn name_is_reached(types: &Vec<TypeDef>, dirs: &Vec<DirectiveDef>, roots: &Vec<String>, visited: &Vec<bool>, n: &str) -> (r: bool)
    requires
        visited@.len() == types@.len(),
        forall|i: int| 0 <= i < types@.len() ==> (visited@[i] <==> type_reached(types@, dirs@, roots@, i)),
    ensures
        r == name_reached(types@, dirs@, roots@, n@),
{
    if contains_name(roots, n) {
        return true;
    }
    let mut i: usize = 0;
    while i < types.len()
        invariant
            0 <= i <= types@.len(),
            visited@.len() == types@.len(),
            forall|x: int| 0 <= x < types@.len() ==> (visited@[x] <==> type_reached(types@, dirs@, roots@, x)),
            forall|x: int| 0 <= x < i ==> !(type_reached(types@, dirs@, roots@, x) && #[trigger] refs_name(types@, dirs@, x, n@)),
        decreases types@.len() - i,
    {
        if visited[i] && refs_name_exec(types, dirs, i, n) {
            return true;
        }
        i += 1;
    }
    false
}

fn is_executable_arg_type(dirs: &Vec<DirectiveDef>, n: &str) -> (r: bool)
    ensures
        r == executable_arg_type(dirs@, n@),
{
    let mut d: usize = 0;
    while d < dirs.len()
        invariant
            0 <= d <= dirs@.len(),
            forall|x: int, a: int| 0 <= x < d && 0 <= a < dirs@[x].arguments@.len() && (#[trigger] dirs@[x]).has_executable_location
                ==> (#[trigger] dirs@[x].arguments@[a]).type_ref.name@ != n@,
        decreases dirs@.len() - d,
    {
        if dirs[d].has_executable_location {
            let args = &dirs[d].arguments;
            let mut a: usize = 0;
            while a < args.len()
                invariant
                    0 <= a <= args@.len(),
                    d < dirs@.len(),
                    dirs@[d as int].has_executable_location,
                    args == dirs@[d as int].arguments,
                    forall|y: int| 0 <= y < a ==> (#[trigger] args@[y]).type_ref.name@ != n@,
                decreases args@.len() - a,
            {
                if str_eq(args[a].type_ref.name.as_str(), n) {
                    assert(dirs@[d as int].arguments@[a as int].type_ref.name@ == n@);
                    return true;
                }
                a += 1;
            }
        }
        d += 1;
    }
    false
}

fn has_usage(us: &Vec<DirectiveUsage>, n: &str) -> (r: bool)
    ensures
        r == exists|u: int| 0 <= u < us@.len() && (#[trigger] us@[u]).name@ == n@,
{
    let mut u: usize = 0;
    while u < us.len()
        invariant
            0 <= u <= us@.len(),
            forall|x: int| 0 <= x < u ==> (#[trigger] us@[x]).name@ != n@,
        decreases us@.len() - u,
    {
        if str_eq(us[u].name.as_str(), n) {
            return true;
        }
        u += 1;
    }
    false
}

fn applied_in_type(t: &TypeDef, n: &str) -> (r: bool)
    ensures
        r == applied_in(*t, n@),
{
    if has_usage(&t.directives, n) {
        return true;
    }
    let mut f: usize = 0;
    while f < t.fields.len()
        invariant
            0 <= f <= t.fields@.len(),
            forall|x: int, u: int| 0 <= x < f && 0 <= u < t.fields@[x].directives@.len()
                ==> (#[trigger] t.fields@[x].directives@[u]).name@ != n@,
            forall|x: int, a: int, u: int| 0 <= x < f && 0 <= a < t.fields@[x].arguments@.len()
                && 0 <= u < t.fields@[x].arguments@[a].directives@.len()
                ==> (#[trigger] t.fields@[x].arguments@[a].directives@[u]).name@ != n@,
        decreases t.fields@.len() - f,
    {
        let fd = &t.fields[f];
        if has_usage(&fd.directives, n) {
            return true;
        }
        let mut a: usize = 0;
        while a < fd.arguments.len()
            invariant
                0 <= a <= fd.arguments@.len(),
                f < t.fields@.len(),
                fd == t.fields@[f as int],
                forall|y: int, u: int| 0 <= y < a && 0 <= u < fd.arguments@[y].directives@.len()
                    ==> (#[trigger] fd.arguments@[y].directives@[u]).name@ != n@,
            decreases fd.arguments@.len() - a,
        {
            if has_usage(&fd.arguments[a].directives, n) {
                return true;
            }
            a += 1;
        }
        f += 1;
    }
    let mut e: usize = 0;
    while e < t.enum_values.len()
        invariant
            0 <= e <= t.enum_values@.len(),
            forall|x: int, u: int| 0 <= x < e && 0 <= u < t.enum_values@[x].directives@.len()
                ==> (#[trigger] t.enum_values@[x].directives@[u]).name@ != n@,
        decreases t.enum_values@.len() - e,
    {
        if has_usage(&t.enum_values[e].directives, n) {
            return true;
        }
        e += 1;
    }
    false
}

fn is_directive_applied(types: &Vec<TypeDef>, on_schema: &Vec<String>, n: &str) -> (r: bool)
    ensures
        r == directive_applied(types@, on_schema@, n@),
{
    if contains_name(on_schema, n) {
        return true;
    }
    let mut t: usize = 0;
    while t < types.len()
        invariant
            0 <= t <= types@.len(),
            !has_name(on_schema@, n@),
            forall|x: int| 0 <= x < t ==> !applied_in(#[trigger] types@[x], n@),
        decreases types@.len() - t,
    {
        if applied_in_type(&types[t], n) {
            return true;
        }
        t += 1;
    }
    false
}

fn kind_name_str(k: TypeDefKind) -> (r: &'static str)
    ensures
        r@ == kind_name(k),
{
    match k {
        TypeDefKind::Object => "Object type",
        TypeDefKind::Interface => "Interface type",
        TypeDefKind::Union => "Union type",
        TypeDefKind::Enum => "Enum type",
        TypeDefKind::InputObject => "Input object type",
        TypeDefKind::Scalar => "Scalar type",
    }
}

fn make_type_report(t: &TypeDef) -> (r: FileDiagnostic)
    ensures
        r.view() == type_report(*t),
{
    let mut m = kind_name_str(t.kind).to_owned();
    m.append(" `");
    m.append(t.name.as_str());
    m.append("` is unreachable.");
    let mut label = "Remove `".to_owned();
    label.append(t.name.as_str());
    label.append("`");
    let fix = CodeFix::delete(label.as_str(), t.definition_range.start, t.definition_range.end);
    let d = LintDiagnostic::new(SourceSpan::new(t.name_range.start, t.name_range.end), LintSeverity::Warning, m.as_str(), "noUnreachableTypes");
    let d = d.with_fix(fix);
    let r = FileDiagnostic { file_id: t.file_id, diagnostic: d };
    assert(r.view().1.4 == type_report(*t).1.4);
    r
}

fn make_directive_report(dd: &DirectiveDef) -> (r: FileDiagnostic)
    ensures
        r.view() == directive_report(*dd),
{
    let mut m = "Directive `".to_owned();
    m.append(dd.name.as_str());
    m.append("` is unreachable.");
    let mut label = "Remove `@".to_owned();
    label.append(dd.name.as_str());
    label.append("`");
    let fix = CodeFix::delete(label.as_str(), dd.definition_range.start, dd.definition_range.end);
    let d = LintDiagnostic::new(SourceSpan::new(dd.name_range.start, dd.name_range.end), LintSeverity::Warning, m.as_str(), "noUnreachableTypes");
    let d = d.with_fix(fix);
    let r = FileDiagnostic { file_id: dd.file_id, diagnostic: d };
    assert(r.view().1.4 == directive_report(*dd).1.4);
    r
}

fn is_builtin_directive(n: &str) -> (r: bool)
    ensures
        r == builtin_directive(n@),
{
    str_eq(n, "deprecated") || str_eq(n, "skip") || str_eq(n, "include") || str_eq(n, "specifiedBy") || str_eq(n, "defer")
}

fn position_before(a: &FileDiagnostic, b: &FileDiagnostic) -> (r: bool)
    ensures
        r == !position_le(b.view(), a.view()),
{
    a.file_id < b.file_id || (a.file_id == b.file_id && a.diagnostic.span.start < b.diagnostic.span.start)
}

/// Orders diagnostics by file, then by span start.
pub fn sort_by_position(v: Vec<FileDiagnostic>) -> (r: Vec<FileDiagnostic>)
    ensures
        ordered_by_position(file_diags_view(r@)),
        file_diags_view(r@).to_multiset() == file_diags_view(v@).to_multiset(),
{
    let ghost orig = file_diags_view(v@).to_multiset();
    let mut rest = v;
    let mut out: Vec<FileDiagnostic> = Vec::new();
    assert(file_diags_view(out@) =~= Seq::<FileDiagnosticView>::empty());
    proof {
        broadcast use vstd::multiset::group_multiset_axioms;
        file_diags_view(out@).to_multiset_ensures();
        vstd::multiset::lemma_multiset_empty_len(file_diags_view(out@).to_multiset());
        assert(file_diags_view(out@).to_multiset().add(file_diags_view(rest@).to_multiset()) =~= orig);
    }
    while rest.len() > 0
        invariant
            ordered_by_position(file_diags_view(out@)),
            file_diags_view(out@).to_multiset().add(file_diags_view(rest@).to_multiset()) == orig,
        decreases rest@.len(),
    {
        let ghost old_rest = file_diags_view(rest@);
        let x = rest.pop().unwrap();
        let ghost xv = x.view();
        assert(old_rest =~= file_diags_view(rest@).push(xv));
        let mut p: usize = 0;
        while p < out.len() && !position_before(&x, &out[p])
            invariant
                p <= out@.len(),
                xv == x.view(),
                forall|j: int| 0 <= j < p ==> position_le(#[trigger] file_diags_view(out@)[j], xv),
            decreases out@.len() - p,
        {
            assert(file_diags_view(out@)[p as int] == out@[p as int].view());
            p += 1;
        }
        let ghost old_out = file_diags_view(out@);
        out.insert(p, x);
        assert(file_diags_view(out@) =~= old_out.insert(p as int, xv));
        proof {
            broadcast use vstd::multiset::group_multiset_axioms;
            vstd::seq_lib::to_multiset_insert(old_out, p as int, xv);
            vstd::seq_lib::to_multiset_build(file_diags_view(rest@), xv);
            assert(file_diags_view(out@).to_multiset().add(file_diags_view(rest@).to_multiset())
                =~= old_out.to_multiset().add(old_rest.to_multiset()));
            let nv = file_diags_view(out@);
            assert forall|i: int, j: int| 0 <= i < j < nv.len() implies position_le(#[trigger] nv[i], #[trigger] nv[j]) by {
                if i < p && j == p {
                } else if i == p && j > p {
                    assert(nv[j] == old_out[j - 1]);
                    assert(position_le(old_out[p as int], old_out[j - 1]) || j - 1 == p);
                } else if i < p && j > p {
                    assert(nv[i] == old_out[i] && nv[j] == old_out[j - 1]);
                } else if i > p {
                    assert(nv[i] == old_out[i - 1] && nv[j] == old_out[j - 1]);
                } else {
                    assert(nv[i] == old_out[i] && nv[j] == old_out[j]);
                }
            }
        }
    }
    proof {
        broadcast use vstd::multiset::group_multiset_axioms;
        assert(file_diags_view(rest@) =~= Seq::<FileDiagnosticView>::empty());
        file_diags_view(rest@).to_multiset_ensures();
        vstd::multiset::lemma_multiset_empty_len(file_diags_view(rest@).to_multiset());
        assert(file_diags_view(out@).to_multiset().add(file_diags_view(rest@).to_multiset()) =~= file_diags_view(out@).to_multiset());
    }
    out
}

fn push_view(out: &mut Vec<FileDiagnostic>, d: FileDiagnostic)
    ensures
        file_diags_view(final(out)@) == file_diags_view(old(out)@).push(d.view()),
{
    let ghost before = file_diags_view(out@);
    out.push(d);
    assert(file_diags_view(out@) =~= before.push(d.view()));
}

impl NoUnreachableTypesRuleImpl {
    /// Reports the types (and type extensions) of the schema that cannot be
    /// reached from its root operation types `roots`, and the directive
    /// definitions that are never applied. `types` holds the merged type
    /// definitions, `raw_defs` every definition and extension as written,
    /// `on_schema` the directives applied to the schema definition itself.
    /// The reports come ordered by file, then by position.
    pub fn check(
        &self,
        types: &Vec<TypeDef>,
        dirs: &Vec<DirectiveDef>,
        roots: &Vec<String>,
        raw_defs: &Vec<TypeDef>,
        on_schema: &Vec<String>,
    ) -> (r: Vec<FileDiagnostic>)
        ensures
            ordered_by_position(file_diags_view(r@)),
            file_diags_view(r@).to_multiset() == all_reports(types@, dirs@, roots@, raw_defs@, on_schema@).to_multiset(),
    {
        let visited = reachable_types(types, dirs, roots);
        let mut out: Vec<FileDiagnostic> = Vec::new();
        let mut k: usize = 0;
        while k < types.len()
            invariant
                0 <= k <= types@.len(),
                visited@.len() == types@.len(),
                forall|i: int| 0 <= i < types@.len() ==> (visited@[i] <==> type_reached(types@, dirs@, roots@, i)),
                file_diags_view(out@) == unreachable_type_reports(types@, dirs@, roots@, types@.take(k as int)),
            decreases types@.len() - k,
        {
            let t = &types[k];
            assert(types@.take(k + 1).drop_last() =~= types@.take(k as int));
            if !name_is_reached(types, dirs, roots, &visited, t.name.as_str()) && !is_executable_arg_type(dirs, t.name.as_str()) {
                push_view(&mut out, make_type_report(t));
            }
            k += 1;
        }
        assert(types@.take(k as int) =~= types@);
        let ghost part1 = file_diags_view(out@);
        let mut e: usize = 0;
        while e < raw_defs.len()
            invariant
                0 <= e <= raw_defs@.len(),
                visited@.len() == types@.len(),
                forall|i: int| 0 <= i < types@.len() ==> (visited@[i] <==> type_reached(types@, dirs@, roots@, i)),
                file_diags_view(out@) == part1 + unreachable_extension_reports(types@, dirs@, roots@, raw_defs@.take(e as int)),
            decreases raw_defs@.len() - e,
        {
            let t = &raw_defs[e];
            assert(raw_defs@.take(e + 1).drop_last() =~= raw_defs@.take(e as int));
            if t.is_extension && !name_is_reached(types, dirs, roots, &visited, t.name.as_str())
                && !is_executable_arg_type(dirs, t.name.as_str()) {
                push_view(&mut out, make_type_report(t));
            }
            e += 1;
        }
        assert(raw_defs@.take(e as int) =~= raw_defs@);
        let ghost part2 = file_diags_view(out@);
        let mut d: usize = 0;
        while d < dirs.len()
            invariant
                0 <= d <= dirs@.len(),
                file_diags_view(out@) == part2 + unreachable_directive_reports(types@, on_schema@, dirs@.take(d as int)),
            decreases dirs@.len() - d,
        {
            let dd = &dirs[d];
            assert(dirs@.take(d + 1).drop_last() =~= dirs@.take(d as int));
            if !is_builtin_directive(dd.name.as_str()) && !dd.has_executable_location
                && !is_directive_applied(types, on_schema, dd.name.as_str()) {
                push_view(&mut out, make_directive_report(dd));
            }
            d += 1;
        }
        assert(dirs@.take(d as int) =~= dirs@);
        sort_by_position(out)
    }
}


proof fn lemma_type_report_names(t: TypeDef, u: TypeDef)
    requires
        type_report(t) == type_report(u),
    ensures
        t.name@ == u.name@,
{
    let p = "Remove `"@;
    let q = "`"@;
    let lt = p + t.name@ + q;
    let lu = p + u.name@ + q;
    assert(lt == lu);
    assert(t.name@ =~= lt.subrange(p.len() as int, (p.len() + t.name@.len()) as int));
    assert(u.name@ =~= lu.subrange(p.len() as int, (p.len() + u.name@.len()) as int));
}

proof fn lemma_directive_report_not_type(d: DirectiveDef, t: TypeDef)
    ensures
        directive_report(d) != type_report(t),
{
    reveal_strlit("Directive `");
    reveal_strlit("Object type");
    reveal_strlit("Interface type");
    reveal_strlit("Union type");
    reveal_strlit("Enum type");
    reveal_strlit("Input object type");
    reveal_strlit("Scalar type");
    let md = "Directive `"@ + d.name@ + "` is unreachable."@;
    let mt = kind_name(t.kind) + " `"@ + t.name@ + "` is unreachable."@;
    assert(md[0] == 'D');
    assert(mt[0] == kind_name(t.kind)[0]);
    assert(mt[0] != 'D');
}

proof fn lemma_type_reports_origin(types: Seq<TypeDef>, dirs: Seq<DirectiveDef>, roots: Seq<String>, ts: Seq<TypeDef>, x: FileDiagnosticView)
    requires
        unreachable_type_reports(types, dirs, roots, ts).contains(x),
    ensures
        exists|w: TypeDef| x == type_report(w) && !counts_reached(types, dirs, roots, w.name@),
    decreases ts.len(),
{
    let rest = unreachable_type_reports(types, dirs, roots, ts.drop_last());
    let all = unreachable_type_reports(types, dirs, roots, ts);
    let i = choose|i: int| 0 <= i < all.len() && all[i] == x;
    if i < rest.len() {
        assert(rest[i] == x);
        lemma_type_reports_origin(types, dirs, roots, ts.drop_last(), x);
    } else {
        assert(x == type_report(ts.last()));
    }
}

proof fn lemma_extension_reports_origin(types: Seq<TypeDef>, dirs: Seq<DirectiveDef>, roots: Seq<String>, es: Seq<TypeDef>, x: FileDiagnosticView)
    requires
        unreachable_extension_reports(types, dirs, roots, es).contains(x),
    ensures
        exists|w: TypeDef| x == type_report(w) && !counts_reached(types, dirs, roots, w.name@),
    decreases es.len(),
{
    let rest = unreachable_extension_reports(types, dirs, roots, es.drop_last());
    let all = unreachable_extension_reports(types, dirs, roots, es);
    let i = choose|i: int| 0 <= i < all.len() && all[i] == x;
    if i < rest.len() {
        assert(rest[i] == x);
        lemma_extension_reports_origin(types, dirs, roots, es.drop_last(), x);
    } else {
        assert(x == type_report(es.last()));
    }
}

proof fn lemma_directive_reports_origin(types: Seq<TypeDef>, on_schema: Seq<String>, ds: Seq<DirectiveDef>, x: FileDiagnosticView)
    requires
        unreachable_directive_reports(types, on_schema, ds).contains(x),
    ensures
        exists|d: DirectiveDef| x == directive_report(d),
    decreases ds.len(),
{
    let rest = unreachable_directive_reports(types, on_schema, ds.drop_last());
    let all = unreachable_directive_reports(types, on_schema, ds);
    let i = choose|i: int| 0 <= i < all.len() && all[i] == x;
    if i < rest.len() {
        assert(rest[i] == x);
        lemma_directive_reports_origin(types, on_schema, ds.drop_last(), x);
    } else {
        assert(x == directive_report(ds.last()));
    }
}

/// No type named `n` is reported when `n` counts as reached.
proof fn lemma_reached_name_not_reported(
    types: Seq<TypeDef>,
    dirs: Seq<DirectiveDef>,
    roots: Seq<String>,
    raw_defs: Seq<TypeDef>,
    on_schema: Seq<String>,
    n: Seq<char>,
    u: TypeDef,
)
    requires
        name_reached(types, dirs, roots, n),
        u.name@ == n,
    ensures
        !all_reports(types, dirs, roots, raw_defs, on_schema).contains(type_report(u)),
{
    let x = type_report(u);
    let a = unreachable_type_reports(types, dirs, roots, types);
    let b = unreachable_extension_reports(types, dirs, roots, raw_defs);
    let c = unreachable_directive_reports(types, on_schema, dirs);
    let all = all_reports(types, dirs, roots, raw_defs, on_schema);
    if all.contains(x) {
        let j = choose|j: int| 0 <= j < all.len() && all[j] == x;
        if j < a.len() {
            assert(a[j] == x);
            lemma_type_reports_origin(types, dirs, roots, types, x);
            let w = choose|w: TypeDef| x == type_report(w) && !counts_reached(types, dirs, roots, w.name@);
            lemma_type_report_names(w, u);
        } else if j < a.len() + b.len() {
            assert(b[j - a.len()] == x);
            lemma_extension_reports_origin(types, dirs, roots, raw_defs, x);
            let w = choose|w: TypeDef| x == type_report(w) && !counts_reached(types, dirs, roots, w.name@);
            lemma_type_report_names(w, u);
        } else {
            assert(c[j - a.len() - b.len()] == x);
            lemma_directive_reports_origin(types, on_schema, dirs, x);
            let d = choose|d: DirectiveDef| x == directive_report(d);
            lemma_directive_report_not_type(d, u);
        }
    }
}

/// The member types of a reachable union, the interfaces a reachable type
/// implements, and the types implementing a reachable interface are
/// reachable: no definition or extension of their names is reported as
/// unreachable.
pub proof fn law_related_types_are_reachable(
    types: Seq<TypeDef>,
    dirs: Seq<DirectiveDef>,
    roots: Seq<String>,
    raw_defs: Seq<TypeDef>,
    on_schema: Seq<String>,
    i: int,
    n: Seq<char>,
    u: TypeDef,
)
    requires
        0 <= i < types.len(),
        type_reached(types, dirs, roots, i),
        has_name(types[i].union_members@, n) || has_name(types[i].implements@, n)
            || exists|j: int| 0 <= j < types.len() && (#[trigger] types[j]).name@ == n
                && has_name(types[j].implements@, types[i].name@),
        u.name@ == n,
    ensures
        !all_reports(types, dirs, roots, raw_defs, on_schema).contains(type_report(u)),
{
    assert(refs_name(types, dirs, i, n));
    assert(name_reached(types, dirs, roots, n));
    lemma_reached_name_not_reported(types, dirs, roots, raw_defs, on_schema, n, u);
}

/// A root operation type (a type named among `roots`) is reachable.
pub proof fn law_root_types_are_reachable(types: Seq<TypeDef>, dirs: Seq<DirectiveDef>, roots: Seq<String>, i: int)
    requires
        0 <= i < types.len(),
        has_name(roots, types[i].name@),
    ensures
        type_reached(types, dirs, roots, i),
{
    assert(reached_within(types, dirs, roots, 0, i));
}

/// A type named as the type of a field of a reachable type, or as the type
/// of one of that field's arguments, is itself reachable: no definition or
/// extension of that name is reported as unreachable.
pub proof fn law_field_and_argument_types_are_reachable(
    types: Seq<TypeDef>,
    dirs: Seq<DirectiveDef>,
    roots: Seq<String>,
    raw_defs: Seq<TypeDef>,
    on_schema: Seq<String>,
    i: int,
    k: int,
    n: Seq<char>,
    u: TypeDef,
)
    requires
        0 <= i < types.len(),
        type_reached(types, dirs, roots, i),
        0 <= k < types[i].fields@.len(),
        types[i].fields@[k].type_ref.name@ == n || exists|a: int| 0 <= a < types[i].fields@[k].arguments@.len()
            && (#[trigger] types[i].fields@[k].arguments@[a]).type_ref.name@ == n,
        u.name@ == n,
    ensures
        !all_reports(types, dirs, roots, raw_defs, on_schema).contains(type_report(u)),
{
    assert(field_refs(types[i].fields@[k], dirs, n));
    assert(refs_name(types, dirs, i, n));
    assert(name_reached(types, dirs, roots, n));
    lemma_reached_name_not_reported(types, dirs, roots, raw_defs, on_schema, n, u);
}


/// The root operation types are never reported as unreachable.
pub proof fn law_root_types_not_reported(
    types: Seq<TypeDef>,
    dirs: Seq<DirectiveDef>,
    roots: Seq<String>,
    raw_defs: Seq<TypeDef>,
    on_schema: Seq<String>,
    u: TypeDef,
)
    requires
        has_name(roots, u.name@),
    ensures
        !all_reports(types, dirs, roots, raw_defs, on_schema).contains(type_report(u)),
{
    lemma_reached_name_not_reported(types, dirs, roots, raw_defs, on_schema, u.name@, u);
}

} // verus!
