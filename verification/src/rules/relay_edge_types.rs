//! The `relayEdgeTypes` lint rule.
use vstd::prelude::*;
use crate::diagnostics::LintSeverity;
use crate::schema::{
    contains_str, field_index, file_diags_view, find_field, find_type, names_contain, push_file_diag,
    type_index, warning_at, warning_view, FieldSignature, FileDiagnostic, FileDiagnosticView, TypeDef,
    TypeDefKind,
};
use crate::text::{ends_with, str_ends_with, str_eq};

verus! {

/// Lint rule that enforces Relay edge type conventions.
///
/// Edge types (identified by being returned from a connection type's `edges`
/// field) must have:
/// - A `node` field returning a named type (not a list)
/// - A `cursor` field returning `String`
///
/// Configurable options:
/// - `withEdgeSuffix` (default: true) - edge type names must end with "Edge"
/// - `shouldImplementNode` (default: true) - the `node` field type must
///   implement the `Node` interface
/// - `listTypeCanWrapOnlyEdgeType` (default: true) - list fields on
///   connection types may only wrap edge types
pub struct RelayEdgeTypesRuleImpl;

impl RelayEdgeTypesRuleImpl {
    /// The rule's identifier.
    pub fn name(&self) -> (s: &'static str)
        ensures
            s@ == "relayEdgeTypes"@,
    {
        "relayEdgeTypes"
    }

    /// What the rule checks.
    pub fn description(&self) -> (s: &'static str)
        ensures
            s@ == "Enforces Relay-compliant edge type definitions"@,
    {
        "Enforces Relay-compliant edge type definitions"
    }

    /// The severity the rule reports with unless configured otherwise.
    pub fn default_severity(&self) -> (s: LintSeverity)
        ensures
            s == LintSeverity::Warning,
    {
        LintSeverity::Warning
    }
}

/// Options of the `relayEdgeTypes` rule.
#[derive(Debug, Clone, Copy)]
pub struct RelayEdgeTypesOptions {
    /// Edge type names must end with `Edge`.
    pub with_edge_suffix: bool,
    /// The type that `node` returns must implement `Node`.
    pub should_implement_node: bool,
    /// List fields of connection types may only wrap edge types.
    pub list_type_can_wrap_only_edge_type: bool,
}

impl Default for RelayEdgeTypesOptions {
    fn default() -> (r: Self)
        ensures
            r.with_edge_suffix && r.should_implement_node && r.list_type_can_wrap_only_edge_type,
    {
        RelayEdgeTypesOptions { with_edge_suffix: true, should_implement_node: true, list_type_can_wrap_only_edge_type: true }
    }
}

/// A type name that looks like a connection type.
pub open spec fn spec_is_connection_type(n: Seq<char>) -> bool {
    ends_with(n, "Connection"@)
}

/// Whether `name` looks like a connection type (ends with `Connection`).
pub fn is_connection_type(name: &str) -> (r: bool)
    ensures
        r == spec_is_connection_type(name@),
{
    str_ends_with(name, "Connection")
}

/// The `edges` field of `t`, when `t` is an object connection type whose
/// `edges` field is a list.
pub open spec fn connection_edges(t: TypeDef) -> Option<int> {
    if t.kind == TypeDefKind::Object && spec_is_connection_type(t.name@) {
        match field_index(t.fields@, "edges"@) {
            Some(e) => if t.fields@[e].type_ref.is_list { Some(e) } else { None },
            None => None,
        }
    } else {
        None
    }
}

/// Reports for the list fields among `fs` (of a connection type) that wrap
/// an object type whose name lacks the `Edge` suffix.
pub open spec fn wrap_reports(types: Seq<TypeDef>, fs: Seq<FieldSignature>) -> Seq<FileDiagnosticView>
    decreases fs.len(),
{
    if fs.len() == 0 {
        seq![]
    } else {
        let f = fs.last();
        wrap_reports(types, fs.drop_last()) + if f.type_ref.is_list && f.name@ != "edges"@ {
            match type_index(types, f.type_ref.name@) {
                Some(j) => if types[j].kind == TypeDefKind::Object && !ends_with(types[j].name@, "Edge"@) {
                    seq![(f.file_id, warning_view(f.name_range, "A list type should only wrap an edge type."@, "relayEdgeTypes"@))]
                } else {
                    seq![]
                },
                None => seq![],
            }
        } else {
            seq![]
        }
    }
}

/// Reports about the connection types among `ts`.
pub open spec fn connection_reports(types: Seq<TypeDef>, o: RelayEdgeTypesOptions, ts: Seq<TypeDef>) -> Seq<FileDiagnosticView>
    decreases ts.len(),
{
    if ts.len() == 0 {
        seq![]
    } else {
        let t = ts.last();
        connection_reports(types, o, ts.drop_last()) + if connection_edges(t) is Some && o.list_type_can_wrap_only_edge_type {
            wrap_reports(types, t.fields@)
        } else {
            seq![]
        }
    }
}

/// The names of the edge types that the connection types among `ts` wrap.
pub open spec fn edge_names(ts: Seq<TypeDef>) -> Seq<Seq<char>>
    decreases ts.len(),
{
    if ts.len() == 0 {
        seq![]
    } else {
        let t = ts.last();
        edge_names(ts.drop_last()) + match connection_edges(t) {
            Some(e) => seq![t.fields@[e].type_ref.name@],
            None => seq![],
        }
    }
}

pub open spec fn node_missing_message() -> Seq<char> {
    "Edge type must contain a field `node` that return either a Scalar, Enum, Object, Interface, Union, or a non-null wrapper around one of those types."@
}

pub open spec fn node_list_message() -> Seq<char> {
    "Field `node` must return either a Scalar, Enum, Object, Interface, Union, or a non-null wrapper around one of those types."@
}

pub open spec fn cursor_missing_message() -> Seq<char> {
    "Edge type must contain a field `cursor` that return either a String, Scalar, or a non-null wrapper wrapper around one of those types."@
}

pub open spec fn cursor_type_message() -> Seq<char> {
    "Field `cursor` must return either a String, Scalar, or a non-null wrapper wrapper around one of those types."@
}

/// Reports about the `node` field of the edge type `e`.
pub open spec fn node_reports(types: Seq<TypeDef>, o: RelayEdgeTypesOptions, e: TypeDef) -> Seq<FileDiagnosticView> {
    match field_index(e.fields@, "node"@) {
        None => seq![(e.file_id, warning_view(e.name_range, node_missing_message(), "relayEdgeTypes"@))],
        Some(i) => {
            let node = e.fields@[i];
            (if node.type_ref.is_list {
                seq![(node.file_id, warning_view(node.name_range, node_list_message(), "relayEdgeTypes"@))]
            } else {
                seq![]
            }) + (if o.should_implement_node && !node.type_ref.is_list {
                match type_index(types, node.type_ref.name@) {
                    Some(k) => if !names_contain(types[k].implements@, "Node"@)
                        && (types[k].kind == TypeDefKind::Object || types[k].kind == TypeDefKind::Interface) {
                        seq![(node.file_id, warning_view(node.name_range, "Edge type's field `node` must implement `Node` interface."@, "relayEdgeTypes"@))]
                    } else {
                        seq![]
                    },
                    None => seq![],
                }
            } else {
                seq![]
            })
        },
    }
}

/// A cursor type name that the rule accepts: `String`, a built-in scalar
/// other than `String`, or the name of a scalar type.
pub open spec fn cursor_type_ok(types: Seq<TypeDef>, n: Seq<char>) -> bool {
    n == "String"@ || (match type_index(types, n) {
        Some(k) => types[k].kind == TypeDefKind::Scalar,
        None => false,
    }) || n == "Int"@ || n == "Float"@ || n == "Boolean"@ || n == "ID"@
}

/// Reports about the `cursor` field of the edge type `e`.
pub open spec fn cursor_reports(types: Seq<TypeDef>, e: TypeDef) -> Seq<FileDiagnosticView> {
    match field_index(e.fields@, "cursor"@) {
        None => seq![(e.file_id, warning_view(e.name_range, cursor_missing_message(), "relayEdgeTypes"@))],
        Some(i) => {
            let c = e.fields@[i];
            if cursor_type_ok(types, c.type_ref.name@) {
                seq![]
            } else {
                seq![(c.file_id, warning_view(c.name_range, cursor_type_message(), "relayEdgeTypes"@))]
            }
        },
    }
}

/// Reports about the edge type named `n`, when it is an object type.
pub open spec fn edge_reports(types: Seq<TypeDef>, o: RelayEdgeTypesOptions, n: Seq<char>) -> Seq<FileDiagnosticView> {
    match type_index(types, n) {
        Some(j) => {
            let e = types[j];
            if e.kind != TypeDefKind::Object {
                seq![]
            } else {
                (if o.with_edge_suffix && !ends_with(e.name@, "Edge"@) {
                    seq![(e.file_id, warning_view(e.name_range, "Edge type must have \"Edge\" suffix."@, "relayEdgeTypes"@))]
                } else {
                    seq![]
                }) + node_reports(types, o, e) + cursor_reports(types, e)
            }
        },
        None => seq![],
    }
}

/// Reports about the edge types named `ns`, in order.
pub open spec fn edges_reports(types: Seq<TypeDef>, o: RelayEdgeTypesOptions, ns: Seq<Seq<char>>) -> Seq<FileDiagnosticView>
    decreases ns.len(),
{
    if ns.len() == 0 {
        seq![]
    } else {
        edges_reports(types, o, ns.drop_last()) + edge_reports(types, o, ns.last())
    }
}

fn report_wraps(types: &Vec<TypeDef>, t: &TypeDef, out: &mut Vec<FileDiagnostic>)
    ensures
        file_diags_view(final(out)@) == file_diags_view(old(out)@) + wrap_reports(types@, t.fields@),
{
    let ghost before = file_diags_view(out@);
    let mut k: usize = 0;
    while k < t.fields.len()
        invariant
            0 <= k <= t.fields@.len(),
            file_diags_view(out@) == before + wrap_reports(types@, t.fields@.take(k as int)),
        decreases t.fields@.len() - k,
    {
        let f = &t.fields[k];
        assert(t.fields@.take(k + 1).drop_last() =~= t.fields@.take(k as int));
        let ghost mid = file_diags_view(out@);
        if f.type_ref.is_list && !str_eq(f.name.as_str(), "edges") {
            if let Some(j) = find_type(types, f.type_ref.name.as_str()) {
                if types[j].kind == TypeDefKind::Object && !str_ends_with(types[j].name.as_str(), "Edge") {
                    push_file_diag(out, f.file_id, warning_at(f.name_range, "A list type should only wrap an edge type.", "relayEdgeTypes"));
                }
            }
        }
        assert(file_diags_view(out@) =~= mid + (file_diags_view(out@).subrange(mid.len() as int, file_diags_view(out@).len() as int)));
        k += 1;
    }
    assert(t.fields@.take(k as int) =~= t.fields@);
}

fn report_edge(types: &Vec<TypeDef>, o: &RelayEdgeTypesOptions, n: &str, out: &mut Vec<FileDiagnostic>)
    ensures
        file_diags_view(final(out)@) == file_diags_view(old(out)@) + edge_reports(types@, *o, n@),
{
    let ghost before = file_diags_view(out@);
    let j = match find_type(types, n) {
        Some(j) => j,
        None => {
            assert(file_diags_view(out@) =~= before + seq![]);
            return;
        },
    };
    let e = &types[j];
    if e.kind != TypeDefKind::Object {
        assert(file_diags_view(out@) =~= before + seq![]);
        return;
    }
    if o.with_edge_suffix && !str_ends_with(e.name.as_str(), "Edge") {
        push_file_diag(out, e.file_id, warning_at(e.name_range, "Edge type must have \"Edge\" suffix.", "relayEdgeTypes"));
    }
    let ghost after_suffix = file_diags_view(out@);
    match find_field(&e.fields, "node") {
        None => {
            push_file_diag(out, e.file_id, warning_at(e.name_range,
                "Edge type must contain a field `node` that return either a Scalar, Enum, Object, Interface, Union, or a non-null wrapper around one of those types.",
                "relayEdgeTypes"));
        },
        Some(i) => {
            let node = &e.fields[i];
            if node.type_ref.is_list {
                push_file_diag(out, node.file_id, warning_at(node.name_range,
                    "Field `node` must return either a Scalar, Enum, Object, Interface, Union, or a non-null wrapper around one of those types.",
                    "relayEdgeTypes"));
            }
            let ghost after_list = file_diags_view(out@);
            if o.should_implement_node && !node.type_ref.is_list {
                if let Some(k) = find_type(types, node.type_ref.name.as_str()) {
                    let nt = &types[k];
                    if !contains_str(&nt.implements, "Node")
                        && (nt.kind == TypeDefKind::Object || nt.kind == TypeDefKind::Interface) {
                        push_file_diag(out, node.file_id, warning_at(node.name_range,
                            "Edge type's field `node` must implement `Node` interface.", "relayEdgeTypes"));
                    }
                }
            }
            assert(file_diags_view(out@) =~= after_list + file_diags_view(out@).subrange(after_list.len() as int, file_diags_view(out@).len() as int));
        },
    }
    let ghost after_node = file_diags_view(out@);
    match find_field(&e.fields, "cursor") {
        None => {
            push_file_diag(out, e.file_id, warning_at(e.name_range,
                "Edge type must contain a field `cursor` that return either a String, Scalar, or a non-null wrapper wrapper around one of those types.",
                "relayEdgeTypes"));
        },
        Some(i) => {
            let c = &e.fields[i];
            let cn = c.type_ref.name.as_str();
            let ok = str_eq(cn, "String") || (match find_type(types, cn) {
                Some(k) => types[k].kind == TypeDefKind::Scalar,
                None => false,
            }) || str_eq(cn, "Int") || str_eq(cn, "Float") || str_eq(cn, "Boolean") || str_eq(cn, "ID");
            if !ok {
                push_file_diag(out, c.file_id, warning_at(c.name_range,
                    "Field `cursor` must return either a String, Scalar, or a non-null wrapper wrapper around one of those types.",
                    "relayEdgeTypes"));
            }
        },
    }
    assert(file_diags_view(out@) =~= before
        + after_suffix.subrange(before.len() as int, after_suffix.len() as int)
        + after_node.subrange(after_suffix.len() as int, after_node.len() as int)
        + file_diags_view(out@).subrange(after_node.len() as int, file_diags_view(out@).len() as int));
}

impl RelayEdgeTypesRuleImpl {
    /// Checks the edge types that the connection types of `types` wrap, and
    /// (with `list_type_can_wrap_only_edge_type`) the other list fields of
    /// connection types.
    pub fn check(&self, types: &Vec<TypeDef>, options: &RelayEdgeTypesOptions) -> (r: Vec<FileDiagnostic>)
        ensures
            file_diags_view(r@) == connection_reports(types@, *options, types@)
                + edges_reports(types@, *options, edge_names(types@)),
    {
        let mut out: Vec<FileDiagnostic> = Vec::new();
        let mut edges: Vec<(usize, usize)> = Vec::new();
        let mut k: usize = 0;
        while k < types.len()
            invariant
                0 <= k <= types@.len(),
                file_diags_view(out@) == connection_reports(types@, *options, types@.take(k as int)),
                edges@.len() == edge_names(types@.take(k as int)).len(),
                forall|x: int| 0 <= x < edges@.len() ==> (#[trigger] edges@[x]).0 < types@.len()
                    && edges@[x].1 < types@[edges@[x].0 as int].fields@.len()
                    && types@[edges@[x].0 as int].fields@[edges@[x].1 as int].type_ref.name@ == edge_names(types@.take(k as int))[x],
            decreases types@.len() - k,
        {
            let t = &types[k];
            assert(types@.take(k + 1).drop_last() =~= types@.take(k as int));
            let ghost names_before = edge_names(types@.take(k as int));
            let ghost mid = file_diags_view(out@);
            if t.kind == TypeDefKind::Object && is_connection_type(t.name.as_str()) {
                if let Some(e) = find_field(&t.fields, "edges") {
                    if t.fields[e].type_ref.is_list {
                        edges.push((k, e));
                        if options.list_type_can_wrap_only_edge_type {
                            report_wraps(types, t, &mut out);
                        }
                    }
                }
            }
            assert(file_diags_view(out@) =~= mid + file_diags_view(out@).subrange(mid.len() as int, file_diags_view(out@).len() as int));
            k += 1;
        }
        assert(types@.take(k as int) =~= types@);
        let ghost part1 = file_diags_view(out@);
        let ghost names = edge_names(types@);
        let mut x: usize = 0;
        while x < edges.len()
            invariant
                0 <= x <= edges@.len(),
                names == edge_names(types@),
                edges@.len() == names.len(),
                forall|y: int| 0 <= y < edges@.len() ==> (#[trigger] edges@[y]).0 < types@.len()
                    && edges@[y].1 < types@[edges@[y].0 as int].fields@.len()
                    && types@[edges@[y].0 as int].fields@[edges@[y].1 as int].type_ref.name@ == names[y],
                file_diags_view(out@) == part1 + edges_reports(types@, *options, names.take(x as int)),
            decreases edges@.len() - x,
        {
            let (ti, fi) = edges[x];
            assert(edges@[x as int].0 < types@.len());
            let n = types[ti].fields[fi].type_ref.name.as_str();
            assert(names.take(x + 1).drop_last() =~= names.take(x as int));
            report_edge(types, options, n, &mut out);
            x += 1;
        }
        assert(names.take(x as int) =~= names);
        out
    }
}

} // verus!
