//! The `inputName` lint rule.
use vstd::prelude::*;
use crate::diagnostics::{CodeFix, LintSeverity, TextEdit};
use crate::schema::{
    file_diags_view, find_type, push_file_diag, type_index, warning_at, warning_view, ArgumentDef,
    FieldSignature, FileDiagnostic, FileDiagnosticView, TypeDef,
};
use crate::text::str_eq;
use crate::unicode::{eq_ignore_ascii_case, spec_eq_ignore_ascii_case};

verus! {

/// Lint rule that enforces conventional naming for mutation/query field
/// arguments.
///
/// By default, every argument on a `Mutation` field must be named `input`.
/// When `checkInputType` is enabled, the argument's type name must equal
/// `<FieldName>Input`. Optionally applies the same checks to `Query`
/// fields when `checkQueries` is enabled.
pub struct InputNameRuleImpl;

impl InputNameRuleImpl {
    /// The rule's identifier.
    pub fn name(&self) -> (s: &'static str)
        ensures
            s@ == "inputName"@,
    {
        "inputName"
    }

    /// What the rule checks.
    pub fn description(&self) -> (s: &'static str)
        ensures
            s@ == "Require mutation/query field arguments to be named `input` and (optionally) typed as `<FieldName>Input`"@,
    {
        "Require mutation/query field arguments to be named `input` and (optionally) typed as `<FieldName>Input`"
    }

    /// The severity the rule reports with unless configured otherwise.
    pub fn default_severity(&self) -> (s: LintSeverity)
        ensures
            s == LintSeverity::Warning,
    {
        LintSeverity::Warning
    }
}

/// Options for the `inputName` rule.
#[derive(Debug, Clone, Copy)]
pub struct InputNameOptions {
    /// The argument's type must be named `<FieldName>Input`.
    pub check_input_type: bool,
    /// Compare that type name with case.
    pub case_sensitive_input_type: bool,
    /// Check the fields of the query root type.
    pub check_queries: bool,
    /// Check the fields of the mutation root type.
    pub check_mutations: bool,
}

impl Default for InputNameOptions {
    fn default() -> (r: Self)
        ensures
            !r.check_input_type && r.case_sensitive_input_type && !r.check_queries && r.check_mutations,
    {
        InputNameOptions { check_input_type: false, case_sensitive_input_type: true, check_queries: false, check_mutations: true }
    }
}

/// Reports about argument `a` of field `f` of root type `root`: an argument
/// not named `input` (with a fix that renames it), and with
/// `check_input_type` a type not named `<FieldName>Input` (with a fix that
/// renames it when the type's range is not empty).
pub open spec fn argument_reports(o: InputNameOptions, root: TypeDef, f: FieldSignature, a: ArgumentDef) -> Seq<FileDiagnosticView> {
    let expected = f.name@ + "Input"@;
    let actual = a.type_ref.name@;
    let tr = a.type_ref.name_range;
    (if a.name@ != "input"@ {
        let w = warning_view(a.name_range, "Input \""@ + a.name@ + "\" should be named \"input\" for \""@ + root.name@ + "."@ + f.name@ + "\""@, "inputName"@);
        seq![(a.file_id, (w.0, w.1, w.2, w.3, Some(("Rename to `input`"@, seq![(a.name_range.start as int, a.name_range.end as int, "input"@)]))))]
    } else {
        seq![]
    }) + (if o.check_input_type && (if o.case_sensitive_input_type { actual != expected } else { !spec_eq_ignore_ascii_case(actual, expected) }) {
        let m = "Input type `"@ + actual + "` name should be `"@ + expected + "`."@;
        if tr.start == tr.end {
            seq![(a.file_id, warning_view(a.name_range, m, "inputName"@))]
        } else {
            let w = warning_view(tr, m, "inputName"@);
            seq![(a.file_id, (w.0, w.1, w.2, w.3, Some(("Rename to `"@ + expected + "`"@, seq![(tr.start as int, tr.end as int, expected)]))))]
        }
    } else {
        seq![]
    })
}

pub open spec fn args_reports(o: InputNameOptions, root: TypeDef, f: FieldSignature, args: Seq<ArgumentDef>) -> Seq<FileDiagnosticView>
    decreases args.len(),
{
    if args.len() == 0 {
        seq![]
    } else {
        args_reports(o, root, f, args.drop_last()) + argument_reports(o, root, f, args.last())
    }
}

pub open spec fn fields_reports(o: InputNameOptions, root: TypeDef, fs: Seq<FieldSignature>) -> Seq<FileDiagnosticView>
    decreases fs.len(),
{
    if fs.len() == 0 {
        seq![]
    } else {
        fields_reports(o, root, fs.drop_last()) + args_reports(o, root, fs.last(), fs.last().arguments@)
    }
}

/// Reports about the root type named `name`, if the schema has it.
pub open spec fn root_reports(o: InputNameOptions, types: Seq<TypeDef>, name: Option<String>) -> Seq<FileDiagnosticView> {
    match name {
        Some(n) => match type_index(types, n@) {
            Some(i) => fields_reports(o, types[i], types[i].fields@),
            None => seq![],
        },
        None => seq![],
    }
}

/// What the rule reports: the arguments of the mutation root type's fields
/// (with `check_mutations`), then those of the query root type's fields
/// (with `check_queries`).
pub open spec fn spec_input_name_check(o: InputNameOptions, types: Seq<TypeDef>, query: Option<String>, mutation: Option<String>) -> Seq<FileDiagnosticView> {
    (if o.check_mutations { root_reports(o, types, mutation) } else { seq![] })
        + (if o.check_queries { root_reports(o, types, query) } else { seq![] })
}

fn report_argument(o: &InputNameOptions, root: &TypeDef, f: &FieldSignature, a: &ArgumentDef, out: &mut Vec<FileDiagnostic>)
    ensures
        file_diags_view(final(out)@) == file_diags_view(old(out)@) + argument_reports(*o, *root, *f, *a),
{
    let ghost before = file_diags_view(out@);
    if !str_eq(a.name.as_str(), "input") {
        let mut m = "Input \"".to_owned();
        m.append(a.name.as_str());
        m.append("\" should be named \"input\" for \"");
        m.append(root.name.as_str());
        m.append(".");
        m.append(f.name.as_str());
        m.append("\"");
        let mut edits: Vec<TextEdit> = Vec::new();
        edits.push(TextEdit::new(a.name_range.start, a.name_range.end, "input"));
        let d = warning_at(a.name_range, m.as_str(), "inputName").with_fix(CodeFix::new("Rename to `input`", edits));
        assert(d.view().4 == Some(("Rename to `input`"@, seq![(a.name_range.start as int, a.name_range.end as int, "input"@)])));
        push_file_diag(out, a.file_id, d);
    }
    let ghost mid = file_diags_view(out@);
    if o.check_input_type {
        let mut expected = f.name.clone();
        expected.append("Input");
        let actual = a.type_ref.name.as_str();
        let mismatch = if o.case_sensitive_input_type {
            !str_eq(actual, expected.as_str())
        } else {
            !eq_ignore_ascii_case(actual, expected.as_str())
        };
        if mismatch {
            let mut m = "Input type `".to_owned();
            m.append(actual);
            m.append("` name should be `");
            m.append(expected.as_str());
            m.append("`.");
            let tr = a.type_ref.name_range;
            if tr.start == tr.end {
                push_file_diag(out, a.file_id, warning_at(a.name_range, m.as_str(), "inputName"));
            } else {
                let mut label = "Rename to `".to_owned();
                label.append(expected.as_str());
                label.append("`");
                let mut edits: Vec<TextEdit> = Vec::new();
                edits.push(TextEdit::new(tr.start, tr.end, expected.as_str()));
                let d = warning_at(tr, m.as_str(), "inputName").with_fix(CodeFix::new(label.as_str(), edits));
                assert(d.view().4 == Some((label@, seq![(tr.start as int, tr.end as int, expected@)])));
                push_file_diag(out, a.file_id, d);
            }
        }
    }
    assert(file_diags_view(out@) =~= before + mid.subrange(before.len() as int, mid.len() as int)
        + file_diags_view(out@).subrange(mid.len() as int, file_diags_view(out@).len() as int));
}

fn report_root(o: &InputNameOptions, types: &Vec<TypeDef>, name: &Option<String>, out: &mut Vec<FileDiagnostic>)
    ensures
        file_diags_view(final(out)@) == file_diags_view(old(out)@) + root_reports(*o, types@, *name),
{
    let ghost before = file_diags_view(out@);
    let n = match name {
        Some(n) => n,
        None => {
            assert(file_diags_view(out@) =~= before + seq![]);
            return;
        },
    };
    let i = match find_type(types, n.as_str()) {
        Some(i) => i,
        None => {
            assert(file_diags_view(out@) =~= before + seq![]);
            return;
        },
    };
    let root = &types[i];
    let mut k: usize = 0;
    while k < root.fields.len()
        invariant
            0 <= k <= root.fields@.len(),
            file_diags_view(out@) == before + fields_reports(*o, *root, root.fields@.take(k as int)),
        decreases root.fields@.len() - k,
    {
        let f = &root.fields[k];
        assert(root.fields@.take(k + 1).drop_last() =~= root.fields@.take(k as int));
        let ghost mid = file_diags_view(out@);
        let mut j: usize = 0;
        while j < f.arguments.len()
            invariant
                0 <= j <= f.arguments@.len(),
                file_diags_view(out@) == mid + args_reports(*o, *root, *f, f.arguments@.take(j as int)),
            decreases f.arguments@.len() - j,
        {
            assert(f.arguments@.take(j + 1).drop_last() =~= f.arguments@.take(j as int));
            report_argument(o, root, f, &f.arguments[j], out);
            j += 1;
        }
        assert(f.arguments@.take(j as int) =~= f.arguments@);
        k += 1;
    }
    assert(root.fields@.take(k as int) =~= root.fields@);
}

impl InputNameRuleImpl {
    /// Checks the arguments of the fields of the root types named `query`
    /// and `mutation`, as the options enable them.
    pub fn check(&self, options: &InputNameOptions, types: &Vec<TypeDef>, query: &Option<String>, mutation: &Option<String>) -> (r: Vec<FileDiagnostic>)
        ensures
            file_diags_view(r@) == spec_input_name_check(*options, types@, *query, *mutation),
    {
        let mut out: Vec<FileDiagnostic> = Vec::new();
        if options.check_mutations {
            report_root(options, types, mutation, &mut out);
        }
        let ghost mid = file_diags_view(out@);
        if options.check_queries {
            report_root(options, types, query, &mut out);
        }
        assert(file_diags_view(out@) =~= mid + file_diags_view(out@).subrange(mid.len() as int, file_diags_view(out@).len() as int));
        out
    }
}

} // verus!
