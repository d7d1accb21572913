//! Assembling a schema from its definitions as written: the root operation
//! types, and each type with its extensions merged in.
use vstd::prelude::*;
use crate::rules::no_root_type::RootTypeNames;
use crate::rules::OperationKind;
use crate::schema::{DirectiveUsage, EnumValue, FieldSignature, TypeDef};
use crate::text::str_eq;

verus! {

/// A root operation type declared in a `schema` definition or extension:
/// `query: Query`.
#[derive(Debug, Clone)]
pub struct RootOperationType {
    pub kind: OperationKind,
    pub named_type: String,
}

/// An optional string as plain values.
pub open spec fn opt_view(o: Option<String>) -> Option<Seq<char>> {
    match o {
        Some(s) => Some(s@),
        None => None,
    }
}

/// The type named for `kind` by the last declaration of that kind.
pub open spec fn last_declared(ops: Seq<RootOperationType>, kind: OperationKind) -> Option<Seq<char>>
    decreases ops.len(),
{
    if ops.len() == 0 {
        None
    } else if ops.last().kind == kind {
        Some(ops.last().named_type@)
    } else {
        last_declared(ops.drop_last(), kind)
    }
}

/// Some type of `types` is named `n`.
pub open spec fn has_named_typed(types: Seq<TypeDef>, n: Seq<char>) -> bool {
    exists|i: int| 0 <= i < types.len() && (#[trigger] types[i]).name@ == n
}

/// The root type for `kind`: as the `schema` declarations say when there
/// are any, else the type with the conventional name `default`, if there is
/// one.
pub open spec fn spec_root_name(
    declared: Option<Seq<RootOperationType>>,
    types: Seq<TypeDef>,
    kind: OperationKind,
    default: Seq<char>,
) -> Option<Seq<char>> {
    match declared {
        Some(ops) => last_declared(ops, kind),
        None => if has_named_typed(types, default) { Some(default) } else { None },
    }
}

fn find_declared(ops: &Vec<RootOperationType>, kind: OperationKind) -> (r: Option<String>)
    ensures
        opt_view(r) == last_declared(ops@, kind),
{
    let mut k: usize = ops.len();
    assert(ops@.take(k as int) =~= ops@);
    while k > 0
        invariant
            0 <= k <= ops.len(),
            last_declared(ops@, kind) == last_declared(ops@.take(k as int), kind),
        decreases k,
    {
        assert(ops@.take(k as int).drop_last() =~= ops@.take(k - 1));
        if ops[k - 1].kind == kind {
            return Some(ops[k - 1].named_type.clone());
        }
        k -= 1;
    }
    None
}

fn find_named(types: &Vec<TypeDef>, name: &str) -> (r: Option<String>)
    ensures
        opt_view(r) == (if has_named_typed(types@, name@) { Some(name@) } else { None::<Seq<char>> }),
{
    let mut k: usize = 0;
    while k < types.len()
        invariant
            0 <= k <= types.len(),
            forall|j: int| 0 <= j < k ==> (#[trigger] types@[j]).name@ != name@,
        decreases types.len() - k,
    {
        if str_eq(types[k].name.as_str(), name) {
            return Some(name.to_owned());
        }
        k += 1;
    }
    None
}

fn root_name(declared: &Option<Vec<RootOperationType>>, types: &Vec<TypeDef>, kind: OperationKind, default: &str) -> (r: Option<String>)
    ensures
        opt_view(r) == spec_root_name(
            match declared { Some(v) => Some(v@), None => None },
            types@,
            kind,
            default@,
        ),
{
    match declared {
        Some(ops) => find_declared(ops, kind),
        None => find_named(types, default),
    }
}

/// The names of the root operation types. `declared` holds the root
/// operation types of the `schema` definitions and extensions, in order,
/// or `None` when the schema has none; then the types named `Query`,
/// `Mutation` and `Subscription` are the roots, where they exist.
pub fn root_type_names(declared: &Option<Vec<RootOperationType>>, types: &Vec<TypeDef>) -> (r: RootTypeNames)
    ensures
        opt_view(r.query) == spec_root_name(
            match declared { Some(v) => Some(v@), None => None },
            types@,
            OperationKind::Query,
            "Query"@,
        ),
        opt_view(r.mutation) == spec_root_name(
            match declared { Some(v) => Some(v@), None => None },
            types@,
            OperationKind::Mutation,
            "Mutation"@,
        ),
        opt_view(r.subscription) == spec_root_name(
            match declared { Some(v) => Some(v@), None => None },
            types@,
            OperationKind::Subscription,
            "Subscription"@,
        ),
{
    RootTypeNames {
        query: root_name(declared, types, OperationKind::Query, "Query"),
        mutation: root_name(declared, types, OperationKind::Mutation, "Mutation"),
        subscription: root_name(declared, types, OperationKind::Subscription, "Subscription"),
    }
}


/// What a type gathers from its definition and its extensions: fields,
/// enum values, interfaces, union members and applied directives.
pub type Members = (Seq<FieldSignature>, Seq<EnumValue>, Seq<String>, Seq<String>, Seq<DirectiveUsage>);

/// The members of one definition.
pub open spec fn members(t: TypeDef) -> Members {
    (t.fields@, t.enum_values@, t.implements@, t.union_members@, t.directives@)
}

/// The members of `a`, then those of `b`.
pub open spec fn join_members(a: Members, b: Members) -> Members {
    (a.0 + b.0, a.1 + b.1, a.2 + b.2, a.3 + b.3, a.4 + b.4)
}

/// `a` and `b` agree on everything but their members: name, kind, file,
/// ranges, description, and whether it is an extension.
pub open spec fn same_header(a: TypeDef, b: TypeDef) -> bool {
    &&& a.name == b.name
    &&& a.kind == b.kind
    &&& a.file_id == b.file_id
    &&& a.name_range == b.name_range
    &&& a.definition_range == b.definition_range
    &&& a.description == b.description
    &&& a.is_extension == b.is_extension
}

/// One merged type: the definition whose header it keeps, and its members.
pub type MergedView = (TypeDef, Members);

/// The first of the first `len` merged types named `n`.
pub open spec fn first_named(out: Seq<MergedView>, n: Seq<char>, len: int) -> Option<int>
    decreases len,
{
    if len <= 0 {
        None
    } else {
        match first_named(out, n, len - 1) {
            Some(i) => Some(i),
            None => if out[len - 1].0.name@ == n { Some(len - 1) } else { None },
        }
    }
}

/// Adding definition `t` to the merged types `out`: a new name starts a new
/// entry at the end; a definition met after an extension of its name takes
/// the lead, its members first; anything else adds its members after those
/// already gathered.
pub open spec fn merge_step(out: Seq<MergedView>, t: TypeDef) -> Seq<MergedView> {
    match first_named(out, t.name@, out.len() as int) {
        None => out.push((t, members(t))),
        Some(j) => if out[j].0.is_extension && !t.is_extension {
            out.update(j, (t, join_members(members(t), out[j].1)))
        } else {
            out.update(j, (out[j].0, join_members(out[j].1, members(t))))
        },
    }
}

/// The types of `raw` (definitions and extensions as written), one entry
/// per name in order of first appearance: the type's definition (or, lacking
/// one, its first extension) with the members of every definition and
/// extension of the name, the definition's first, the others' in order.
pub open spec fn spec_merged(raw: Seq<TypeDef>) -> Seq<MergedView>
    decreases raw.len(),
{
    if raw.len() == 0 {
        seq![]
    } else {
        merge_step(spec_merged(raw.drop_last()), raw.last())
    }
}

/// `r` holds the merged types `m`.
pub open spec fn merged_matches(r: Seq<TypeDef>, m: Seq<MergedView>) -> bool {
    &&& r.len() == m.len()
    &&& forall|k: int| 0 <= k < r.len() ==> same_header(#[trigger] r[k], m[k].0) && members(r[k]) == m[k].1
}

proof fn lemma_first_named_none(out: Seq<MergedView>, n: Seq<char>, len: int)
    requires
        forall|j: int| 0 <= j < len ==> (#[trigger] out[j]).0.name@ != n,
    ensures
        first_named(out, n, len) is None,
    decreases len,
{
    if len > 0 {
        lemma_first_named_none(out, n, len - 1);
    }
}

proof fn lemma_first_named_at(out: Seq<MergedView>, n: Seq<char>, k: int, len: int)
    requires
        0 <= k < len,
        out[k].0.name@ == n,
        forall|j: int| 0 <= j < k ==> (#[trigger] out[j]).0.name@ != n,
    ensures
        first_named(out, n, len) == Some(k),
    decreases len,
{
    if len == k + 1 {
        lemma_first_named_none(out, n, k);
    } else {
        lemma_first_named_at(out, n, k, len - 1);
    }
}

/// Merges each type's extensions into it: one entry per type name, in
/// order of first appearance, as `spec_merged` describes.
pub fn merge_type_extensions(raw: Vec<TypeDef>) -> (r: Vec<TypeDef>)
    ensures
        merged_matches(r@, spec_merged(raw@)),
{
    let ghost orig = raw@;
    let mut rest = raw;
    let mut out: Vec<TypeDef> = Vec::new();
    let ghost mut i: int = 0;
    assert(orig.skip(0) =~= orig);
    assert(orig.take(0) =~= Seq::<TypeDef>::empty());
    while rest.len() > 0
        invariant
            0 <= i <= orig.len(),
            rest@ == orig.skip(i),
            merged_matches(out@, spec_merged(orig.take(i))),
        decreases rest.len(),
    {
        let ghost m = spec_merged(orig.take(i));
        let mut t = rest.remove(0);
        assert(t == orig[i]);
        assert(orig.take(i + 1).drop_last() =~= orig.take(i));
        assert(spec_merged(orig.take(i + 1)) == merge_step(m, t));
        let mut k: usize = 0;
        let mut found = false;
        while k < out.len() && !found
            invariant
                0 <= k <= out.len(),
                merged_matches(out@, m),
                !found ==> forall|j: int| 0 <= j < k ==> (#[trigger] m[j]).0.name@ != t.name@,
                found ==> k < out.len() && m[k as int].0.name@ == t.name@
                    && forall|j: int| 0 <= j < k ==> (#[trigger] m[j]).0.name@ != t.name@,
            decreases out.len() - k + (if found { 0int } else { 1int }),
        {
            assert(same_header(out@[k as int], m[k as int].0));
            if str_eq(out[k].name.as_str(), t.name.as_str()) {
                found = true;
            } else {
                k += 1;
            }
        }
        if !found {
            proof { lemma_first_named_none(m, t.name@, m.len() as int); }
            out.push(t);
            assert(out@[out@.len() - 1] == t);
        } else {
            proof { lemma_first_named_at(m, t.name@, k as int, m.len() as int); }
            let ghost before = out@;
            let mut e = out.remove(k);
            assert(e == before[k as int]);
            assert(same_header(e, m[k as int].0));
            if e.is_extension && !t.is_extension {
                t.fields.append(&mut e.fields);
                t.enum_values.append(&mut e.enum_values);
                t.implements.append(&mut e.implements);
                t.union_members.append(&mut e.union_members);
                t.directives.append(&mut e.directives);
                out.insert(k, t);
            } else {
                e.fields.append(&mut t.fields);
                e.enum_values.append(&mut t.enum_values);
                e.implements.append(&mut t.implements);
                e.union_members.append(&mut t.union_members);
                e.directives.append(&mut t.directives);
                out.insert(k, e);
            }
            assert forall|j: int| 0 <= j < out@.len() && j != k implies out@[j] == before[j] by {}
        }
        proof { i = i + 1; }
        assert(orig.skip(i - 1).drop_first() =~= orig.skip(i));
    }
    assert(orig.take(i) =~= orig);
    out
}

} // verus!
