//! The `no_deprecated` lint rule.
use vstd::prelude::*;
use crate::diagnostics::{diags_view, DiagnosticView, LintDiagnostic, LintSeverity};
use crate::document::{plain_view, push_diag, ArgValue, Argument, Definition, ExecutableDocument, Name, Selection, SelectionSet};
use crate::rules::OperationKind;
use crate::schema::{
    argument_index, enum_value_index, field_index, find_argument, find_enum_value, find_field, find_type,
    type_index, FieldSignature, TypeDef, TypeDefKind,
};
use crate::text::{first_satisfying, lemma_first_satisfying_bounds, lemma_first_satisfying_stable};

verus! {

/// Comprehensive rule that detects usage of deprecated schema elements
///
/// This rule checks for:
/// - Deprecated fields in object/interface types
/// - Deprecated arguments in field/directive calls
/// - Deprecated enum values
pub struct NoDeprecatedRuleImpl;

impl NoDeprecatedRuleImpl {
    /// The rule's identifier.
    pub fn name(&self) -> (s: &'static str)
        ensures
            s@ == "no_deprecated"@,
    {
        "no_deprecated"
    }

    /// What the rule checks.
    pub fn description(&self) -> (s: &'static str)
        ensures
            s@ == "Warns when using deprecated fields, arguments, or enum values"@,
    {
        "Warns when using deprecated fields, arguments, or enum values"
    }

    /// The severity the rule reports with unless configured otherwise.
    pub fn default_severity(&self) -> (s: LintSeverity)
        ensures
            s == LintSeverity::Warning,
    {
        LintSeverity::Warning
    }
}

/// `<what> '<name>' is deprecated`, with `: <reason>` when there is one.
pub open spec fn dep_message(what: Seq<char>, name: Seq<char>, reason: Option<String>) -> Seq<char> {
    match reason {
        Some(r) => what + " '"@ + name + "' is deprecated: "@ + r@,
        None => what + " '"@ + name + "' is deprecated"@,
    }
}

/// A report at the name `n` of `doc`.
pub open spec fn dep_view(doc: ExecutableDocument, n: Name, message: Seq<char>) -> DiagnosticView {
    plain_view(doc.spec_span(n.range.start, n.range.end), LintSeverity::Warning, message, "no_deprecated"@)
}

/// The first enum type of `types` whose value named `n` is deprecated.
pub open spec fn deprecated_enum_at(types: Seq<TypeDef>, n: Seq<char>) -> Option<int> {
    first_satisfying(types.len() as int, |k: int| types[k].kind == TypeDefKind::Enum
        && match enum_value_index(types[k].enum_values@, n) {
            Some(i) => types[k].enum_values@[i].is_deprecated,
            None => false,
        })
}

/// Reports about the deprecated enum values used in `v`, at any depth.
pub open spec fn value_reports(types: Seq<TypeDef>, doc: ExecutableDocument, v: ArgValue) -> Seq<DiagnosticView>
    decreases v,
{
    match v {
        ArgValue::Enum(Some(n)) => match deprecated_enum_at(types, n.value@) {
            Some(k) => {
                let ev = types[k].enum_values@[enum_value_index(types[k].enum_values@, n.value@).unwrap()];
                seq![dep_view(doc, n, dep_message("Enum value"@, n.value@, ev.deprecation_reason))]
            },
            None => seq![],
        },
        ArgValue::List(vs) => values_reports(types, doc, vs@),
        ArgValue::Object(fs) => field_values_reports(types, doc, fs@),
        _ => seq![],
    }
}

/// Reports about the values `vs`, in order.
pub open spec fn values_reports(types: Seq<TypeDef>, doc: ExecutableDocument, vs: Seq<ArgValue>) -> Seq<DiagnosticView>
    decreases vs,
{
    if vs.len() == 0 {
        seq![]
    } else {
        let k = vs.len() - 1;
        values_reports(types, doc, vs.subrange(0, k)) + value_reports(types, doc, vs[k])
    }
}

/// Reports about the values of the object fields `fs`, in order.
pub open spec fn field_values_reports(types: Seq<TypeDef>, doc: ExecutableDocument, fs: Seq<Option<ArgValue>>) -> Seq<DiagnosticView>
    decreases fs,
{
    if fs.len() == 0 {
        seq![]
    } else {
        let k = fs.len() - 1;
        field_values_reports(types, doc, fs.subrange(0, k)) + match fs[k] {
            Some(v) => value_reports(types, doc, v),
            None => seq![],
        }
    }
}

/// Reports about the arguments `args` given to field `fd`: a deprecated
/// argument, then the deprecated enum values in its value.
pub open spec fn args_reports(types: Seq<TypeDef>, doc: ExecutableDocument, fd: FieldSignature, args: Seq<Argument>) -> Seq<DiagnosticView>
    decreases args.len(),
{
    if args.len() == 0 {
        seq![]
    } else {
        args_reports(types, doc, fd, args.drop_last()) + match args.last().name {
            Some(an) => (match argument_index(fd.arguments@, an.value@) {
                Some(i) => if fd.arguments@[i].is_deprecated {
                    seq![dep_view(doc, an, dep_message("Argument"@, an.value@, fd.arguments@[i].deprecation_reason))]
                } else {
                    seq![]
                },
                None => seq![],
            }) + match args.last().value {
                Some(v) => value_reports(types, doc, v),
                None => seq![],
            },
            None => seq![],
        }
    }
}

/// Reports about the selections `sels` of a selection set on type `t`
/// (named `p`): each deprecated field, its arguments, and its own
/// selection set on its type; inline fragments on their type condition.
pub open spec fn dep_walk(types: Seq<TypeDef>, doc: ExecutableDocument, t: TypeDef, p: Seq<char>, sels: Seq<Selection>) -> Seq<DiagnosticView>
    decreases sels, 0int,
{
    if sels.len() == 0 {
        seq![]
    } else {
        let k = sels.len() - 1;
        dep_walk(types, doc, t, p, sels.subrange(0, k)) + match sels[k] {
            Selection::Field(f) => match f.name {
                Some(nm) => match field_index(t.fields@, nm.value@) {
                    Some(fi) => {
                        let fd = t.fields@[fi];
                        (if fd.is_deprecated {
                            seq![dep_view(doc, nm, dep_message("Field"@, nm.value@, fd.deprecation_reason))]
                        } else {
                            seq![]
                        }) + args_reports(types, doc, fd, f.arguments@) + match f.selection_set {
                            Some(ss) => dep_set_reports(types, doc, Some(fd.type_ref.name@), ss.selections@),
                            None => seq![],
                        }
                    },
                    None => seq![],
                },
                None => seq![],
            },
            Selection::InlineFragment(i) => match i.selection_set {
                Some(ss) => dep_set_reports(types, doc, Some(match i.type_condition {
                    Some(tc) => tc.value@,
                    None => p,
                }), ss.selections@),
                None => seq![],
            },
            Selection::FragmentSpread(_) => seq![],
        }
    }
}

/// Reports about a selection set `sels` on the type named `parent`;
/// nothing when the type is unknown.
pub open spec fn dep_set_reports(types: Seq<TypeDef>, doc: ExecutableDocument, parent: Option<Seq<char>>, sels: Seq<Selection>) -> Seq<DiagnosticView>
    decreases sels, 1int,
{
    match parent {
        Some(p) => match type_index(types, p) {
            Some(ti) => dep_walk(types, doc, types[ti], p, sels),
            None => seq![],
        },
        None => seq![],
    }
}

/// The root type of operations of kind `k`.
pub open spec fn root_type_name(k: OperationKind) -> Seq<char> {
    match k {
        OperationKind::Query => "Query"@,
        OperationKind::Mutation => "Mutation"@,
        OperationKind::Subscription => "Subscription"@,
    }
}

/// Reports about the definitions `defs` of `doc`: operations from their
/// root type, fragments from their type condition.
pub open spec fn dep_doc_reports(types: Seq<TypeDef>, doc: ExecutableDocument, defs: Seq<Definition>) -> Seq<DiagnosticView>
    decreases defs.len(),
{
    if defs.len() == 0 {
        seq![]
    } else {
        dep_doc_reports(types, doc, defs.drop_last()) + match defs.last() {
            Definition::Operation(op) => match op.selection_set {
                Some(ss) => dep_set_reports(types, doc, Some(root_type_name(op.kind)), ss.selections@),
                None => seq![],
            },
            Definition::Fragment(fr) => match fr.selection_set {
                Some(ss) => dep_set_reports(types, doc, match fr.type_condition {
                    Some(tc) => Some(tc.value@),
                    None => None,
                }, ss.selections@),
                None => seq![],
            },
            Definition::TypeSystem { .. } => seq![],
        }
    }
}

fn report_deprecated(doc: &ExecutableDocument, n: &Name, what: &str, reason: &Option<String>, out: &mut Vec<LintDiagnostic>)
    ensures
        diags_view(final(out)@) == diags_view(old(out)@).push(dep_view(*doc, *n, dep_message(what@, n.value@, *reason))),
{
    let mut message = what.to_owned();
    message.append(" '");
    message.append(n.value.as_str());
    match reason {
        Some(r) => {
            message.append("' is deprecated: ");
            message.append(r.as_str());
        },
        None => {
            message.append("' is deprecated");
        },
    }
    let d = LintDiagnostic::new(doc.span(n.range.start, n.range.end), LintSeverity::Warning, message.as_str(), "no_deprecated");
    push_diag(out, d);
}

/// The first enum type whose value named `n` is deprecated, with the index
/// of that value.
fn deprecated_enum(types: &Vec<TypeDef>, n: &str) -> (r: Option<(usize, usize)>)
    ensures
        match (r, deprecated_enum_at(types@, n@)) {
            (Some((k, i)), Some(j)) => k == j && k < types@.len() && i < types@[k as int].enum_values@.len()
                && enum_value_index(types@[k as int].enum_values@, n@) == Some(i as int),
            (None, None) => true,
            _ => false,
        },
{
    let ghost p = |k: int| types@[k].kind == TypeDefKind::Enum
        && match enum_value_index(types@[k].enum_values@, n@) {
            Some(i) => types@[k].enum_values@[i].is_deprecated,
            None => false,
        };
    let mut k: usize = 0;
    while k < types.len()
        invariant
            0 <= k <= types@.len(),
            first_satisfying(k as int, p) is None,
            p == (|k: int| types@[k].kind == TypeDefKind::Enum
                && match enum_value_index(types@[k].enum_values@, n@) {
                    Some(i) => types@[k].enum_values@[i].is_deprecated,
                    None => false,
                }),
        decreases types@.len() - k,
    {
        let t = &types[k];
        if t.kind == TypeDefKind::Enum {
            match find_enum_value(&t.enum_values, n) {
                Some(i) => {
                    if t.enum_values[i].is_deprecated {
                        proof {
                            assert(p(k as int));
                            assert(first_satisfying(k as int + 1, p) == Some(k as int));
                            lemma_first_satisfying_stable(k as int + 1, types@.len() as int, p);
                        }
                        return Some((k, i));
                    }
                },
                None => {},
            }
        }
        assert(!p(k as int));
        k += 1;
    }
    None
}

/// Reports the deprecated enum values used in `v`, at any depth.
fn check_value_for_deprecated_enum(types: &Vec<TypeDef>, doc: &ExecutableDocument, v: &ArgValue, out: &mut Vec<LintDiagnostic>)
    ensures
        diags_view(final(out)@) == diags_view(old(out)@) + value_reports(types@, *doc, *v),
    decreases v,
{
    let ghost start = diags_view(out@);
    match v {
        ArgValue::Enum(Some(n)) => {
            match deprecated_enum(types, n.value.as_str()) {
                Some((k, i)) => {
                    let ev = &types[k].enum_values[i];
                    report_deprecated(doc, n, "Enum value", &ev.deprecation_reason, out);
                },
                None => {
                    assert(diags_view(out@) =~= start + seq![]);
                },
            }
        },
        ArgValue::List(vs) => {
            let mut k: usize = 0;
            assert(diags_view(out@) =~= start + values_reports(types@, *doc, vs@.subrange(0, 0)));
            while k < vs.len()
                invariant
                    0 <= k <= vs@.len(),
                    *v == ArgValue::List(*vs),
                    diags_view(out@) == start + values_reports(types@, *doc, vs@.subrange(0, k as int)),
                decreases vs@.len() - k,
            {
                assert(vs@.subrange(0, k + 1).subrange(0, k as int) =~= vs@.subrange(0, k as int));
                assert(vs@.subrange(0, k + 1)[k as int] == vs@[k as int]);
                proof {
                    assert(decreases_to!(*v => (*v)->List_0));
                    assert(decreases_to!(*vs => vs@));
                    assert(decreases_to!(vs@ => vs@[k as int]));
                }
                check_value_for_deprecated_enum(types, doc, &vs[k], out);
                k += 1;
            }
            assert(vs@.subrange(0, vs@.len() as int) =~= vs@);
        },
        ArgValue::Object(fs) => {
            let mut k: usize = 0;
            assert(diags_view(out@) =~= start + field_values_reports(types@, *doc, fs@.subrange(0, 0)));
            while k < fs.len()
                invariant
                    0 <= k <= fs@.len(),
                    *v == ArgValue::Object(*fs),
                    diags_view(out@) == start + field_values_reports(types@, *doc, fs@.subrange(0, k as int)),
                decreases fs@.len() - k,
            {
                assert(fs@.subrange(0, k + 1).subrange(0, k as int) =~= fs@.subrange(0, k as int));
                assert(fs@.subrange(0, k + 1)[k as int] == fs@[k as int]);
                match &fs[k] {
                    Some(fv) => {
                        proof {
                            assert(decreases_to!(*v => (*v)->Object_0));
                            assert(decreases_to!(*fs => fs@));
                            assert(decreases_to!(fs@ => fs@[k as int]));
                            assert(decreases_to!(fs@[k as int] => *fv));
                        }
                        check_value_for_deprecated_enum(types, doc, fv, out)
                    },
                    None => {
                        assert(diags_view(out@) =~= diags_view(out@) + seq![]);
                    },
                }
                k += 1;
            }
            assert(fs@.subrange(0, fs@.len() as int) =~= fs@);
        },
        _ => {
            assert(diags_view(out@) =~= start + seq![]);
        },
    }
}

fn check_arguments(types: &Vec<TypeDef>, doc: &ExecutableDocument, fd: &FieldSignature, args: &Vec<Argument>, out: &mut Vec<LintDiagnostic>)
    ensures
        diags_view(final(out)@) == diags_view(old(out)@) + args_reports(types@, *doc, *fd, args@),
{
    let ghost start = diags_view(out@);
    let mut k: usize = 0;
    assert(diags_view(out@) =~= start + args_reports(types@, *doc, *fd, args@.take(0)));
    while k < args.len()
        invariant
            0 <= k <= args@.len(),
            diags_view(out@) == start + args_reports(types@, *doc, *fd, args@.take(k as int)),
        decreases args@.len() - k,
    {
        assert(args@.take(k + 1).drop_last() =~= args@.take(k as int));
        let ghost before = diags_view(out@);
        let a = &args[k];
        match &a.name {
            Some(an) => {
                match find_argument(&fd.arguments, an.value.as_str()) {
                    Some(i) => {
                        if fd.arguments[i].is_deprecated {
                            report_deprecated(doc, an, "Argument", &fd.arguments[i].deprecation_reason, out);
                        }
                    },
                    None => {},
                }
                let ghost mid = diags_view(out@);
                match &a.value {
                    Some(v) => check_value_for_deprecated_enum(types, doc, v, out),
                    None => {},
                }
                assert(diags_view(out@) =~= before + (mid.subrange(before.len() as int, mid.len() as int)
                    + diags_view(out@).subrange(mid.len() as int, diags_view(out@).len() as int)));
            },
            None => {},
        }
        assert(diags_view(out@) =~= start + args_reports(types@, *doc, *fd, args@.take(k + 1)));
        k += 1;
    }
    assert(args@.take(k as int) =~= args@);
}

/// Reports the deprecated fields, arguments and enum values used in the
/// selection set `ss` on the type named `parent`, at every depth.
#[verifier::spinoff_prover]
#[verifier::rlimit(40)]
fn check_selection_set(types: &Vec<TypeDef>, doc: &ExecutableDocument, parent: Option<&str>, ss: &SelectionSet, out: &mut Vec<LintDiagnostic>)
    ensures
        diags_view(final(out)@) == diags_view(old(out)@) + dep_set_reports(types@, *doc, match parent {
            Some(p) => Some(p@),
            None => None,
        }, ss.selections@),
    decreases ss,
{
    let ghost start = diags_view(out@);
    let p = match parent {
        Some(p) => p,
        None => {
            assert(diags_view(out@) =~= start + seq![]);
            return;
        },
    };
    let ti = match find_type(types, p) {
        Some(ti) => ti,
        None => {
            assert(diags_view(out@) =~= start + seq![]);
            return;
        },
    };
    let t = &types[ti];
    let ghost sels = ss.selections@;
    let mut k: usize = 0;
    assert(diags_view(out@) =~= start + dep_walk(types@, *doc, *t, p@, sels.subrange(0, 0)));
    while k < ss.selections.len()
        invariant
            0 <= k <= sels.len(),
            sels == ss.selections@,
            ti < types@.len(),
            *t == types@[ti as int],
            diags_view(out@) == start + dep_walk(types@, *doc, *t, p@, sels.subrange(0, k as int)),
        decreases sels.len() - k,
    {
        assert(sels.subrange(0, k + 1).subrange(0, k as int) =~= sels.subrange(0, k as int));
        assert(sels.subrange(0, k + 1)[k as int] == sels[k as int]);
        let ghost before = diags_view(out@);
        match &ss.selections[k] {
            Selection::Field(f) => match &f.name {
                Some(nm) => match find_field(&t.fields, nm.value.as_str()) {
                    Some(fi) => {
                        let fd = &t.fields[fi];
                        if fd.is_deprecated {
                            report_deprecated(doc, nm, "Field", &fd.deprecation_reason, out);
                        }
                        let ghost m1 = diags_view(out@);
                        check_arguments(types, doc, fd, &f.arguments, out);
                        let ghost m2 = diags_view(out@);
                        match &f.selection_set {
                            Some(nested) => check_selection_set(types, doc, Some(fd.type_ref.name.as_str()), nested, out),
                            None => {},
                        }
                        assert(diags_view(out@) =~= before + (m1.subrange(before.len() as int, m1.len() as int)
                            + m2.subrange(m1.len() as int, m2.len() as int)
                            + diags_view(out@).subrange(m2.len() as int, diags_view(out@).len() as int)));
                    },
                    None => {},
                },
                None => {},
            },
            Selection::InlineFragment(i) => match &i.selection_set {
                Some(nested) => {
                    let tn: &str = match &i.type_condition {
                        Some(tc) => tc.value.as_str(),
                        None => p,
                    };
                    check_selection_set(types, doc, Some(tn), nested, out);
                },
                None => {},
            },
            Selection::FragmentSpread(_) => {},
        }
        assert(diags_view(out@) =~= start + dep_walk(types@, *doc, *t, p@, sels.subrange(0, k + 1)));
        k += 1;
    }
    assert(sels.subrange(0, sels.len() as int) =~= sels);
}

fn root_type_str(k: OperationKind) -> (s: &'static str)
    ensures
        s@ == root_type_name(k),
{
    match k {
        OperationKind::Query => "Query",
        OperationKind::Mutation => "Mutation",
        OperationKind::Subscription => "Subscription",
    }
}

impl NoDeprecatedRuleImpl {
    /// Reports every use in `doc` of a field, argument or enum value that
    /// the schema `types` marks deprecated: fields and their arguments are
    /// looked up on the type each selection set is on, starting from the
    /// operation's root type or the fragment's type condition; enum values
    /// on the first enum type whose value of that name is deprecated.
    pub fn check(&self, types: &Vec<TypeDef>, doc: &ExecutableDocument) -> (r: Vec<LintDiagnostic>)
        ensures
            diags_view(r@) == dep_doc_reports(types@, *doc, doc.definitions@),
    {
        let mut out: Vec<LintDiagnostic> = Vec::new();
        let mut k: usize = 0;
        assert(diags_view(out@) =~= Seq::<DiagnosticView>::empty());
        while k < doc.definitions.len()
            invariant
                0 <= k <= doc.definitions@.len(),
                diags_view(out@) == dep_doc_reports(types@, *doc, doc.definitions@.take(k as int)),
            decreases doc.definitions@.len() - k,
        {
            assert(doc.definitions@.take(k + 1).drop_last() =~= doc.definitions@.take(k as int));
            let ghost before = diags_view(out@);
            match &doc.definitions[k] {
                Definition::Operation(op) => match &op.selection_set {
                    Some(ss) => check_selection_set(types, doc, Some(root_type_str(op.kind)), ss, &mut out),
                    None => {},
                },
                Definition::Fragment(fr) => match &fr.selection_set {
                    Some(ss) => {
                        let tc: Option<&str> = match &fr.type_condition {
                            Some(t) => Some(t.value.as_str()),
                            None => None,
                        };
                        check_selection_set(types, doc, tc, ss, &mut out);
                    },
                    None => {},
                },
                _ => {},
            }
            assert(diags_view(out@) =~= dep_doc_reports(types@, *doc, doc.definitions@.take(k + 1)));
            k += 1;
        }
        assert(doc.definitions@.take(k as int) =~= doc.definitions@);
        out
    }
}

} // verus!
