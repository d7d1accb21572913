//! The `lone_executable_definition` lint rule.
use vstd::prelude::*;
use crate::diagnostics::{diags_view, DiagnosticView, LintDiagnostic, LintSeverity};
use crate::document::{braces_fit, Definition, ExecutableDocument, OperationDefinition};

verus! {

/// Lint rule that requires each file to contain only one executable definition
///
/// Having one operation or fragment per file improves code organization and
/// makes it easier to find and maintain GraphQL operations.
pub struct LoneExecutableDefinitionRuleImpl;

impl LoneExecutableDefinitionRuleImpl {
    /// The rule's identifier.
    pub fn name(&self) -> (s: &'static str)
        ensures
            s@ == "lone_executable_definition"@,
    {
        "lone_executable_definition"
    }

    /// What the rule checks.
    pub fn description(&self) -> (s: &'static str)
        ensures
            s@ == "Requires each file to contain only one executable definition (operation or fragment)"@,
    {
        "Requires each file to contain only one executable definition (operation or fragment)"
    }

    /// The severity the rule reports with unless configured otherwise.
    pub fn default_severity(&self) -> (s: LintSeverity)
        ensures
            s == LintSeverity::Warning,
    {
        LintSeverity::Warning
    }
}

/// An executable definition as the rule reports it: its kind (`operation`
/// or `fragment`), its name if any, and the byte range the report covers.
#[derive(Debug)]
pub struct DefinitionAnchor {
    pub kind: &'static str,
    pub name: Option<String>,
    pub start: usize,
    pub end: usize,
}

/// An anchor as plain values.
pub type AnchorView = (Seq<char>, Option<Seq<char>>, usize, usize);

impl DefinitionAnchor {
    pub open spec fn view(&self) -> AnchorView {
        (self.kind@, match self.name {
            Some(n) => Some(n@),
            None => None,
        }, self.start, self.end)
    }
}

pub open spec fn anchors_view(v: Seq<DefinitionAnchor>) -> Seq<AnchorView> {
    Seq::new(v.len(), |k: int| v[k].view())
}

/// Where a report about operation `op` points: its name, else its keyword,
/// else the opening brace of its selection set.
pub open spec fn operation_anchor(op: OperationDefinition) -> Option<AnchorView> {
    let name = match op.name {
        Some(n) => Some(n.value@),
        None => None,
    };
    match op.name {
        Some(n) => Some(("operation"@, name, n.range.start, n.range.end)),
        None => match op.keyword_range {
            Some(r) => Some(("operation"@, name, r.start, r.end)),
            None => match op.selection_set {
                Some(ss) => Some(("operation"@, name, ss.range.start, (ss.range.start + 1) as usize)),
                None => None,
            },
        },
    }
}

/// The anchors of the operations among `defs`, in order.
pub open spec fn operation_anchors(defs: Seq<Definition>) -> Seq<AnchorView>
    decreases defs.len(),
{
    if defs.len() == 0 {
        seq![]
    } else {
        operation_anchors(defs.drop_last()) + match defs.last() {
            Definition::Operation(op) => match operation_anchor(op) {
                Some(a) => seq![a],
                None => seq![],
            },
            _ => seq![],
        }
    }
}

/// The anchors of the named fragments among `defs`, in order.
pub open spec fn fragment_anchors(defs: Seq<Definition>) -> Seq<AnchorView>
    decreases defs.len(),
{
    if defs.len() == 0 {
        seq![]
    } else {
        fragment_anchors(defs.drop_last()) + match defs.last() {
            Definition::Fragment(f) => match f.name {
                Some(n) => seq![("fragment"@, Some(n.value@), n.range.start, n.range.end)],
                None => seq![],
            },
            _ => seq![],
        }
    }
}

/// Number of operations and fragments among `defs`.
pub open spec fn executable_count(defs: Seq<Definition>) -> nat
    decreases defs.len(),
{
    if defs.len() == 0 {
        0
    } else {
        executable_count(defs.drop_last()) + match defs.last() {
            Definition::TypeSystem { .. } => 0nat,
            _ => 1nat,
        }
    }
}

/// Index of the first anchor with the smallest start among `v`.
pub open spec fn first_min_start(v: Seq<AnchorView>, n: int) -> int
    decreases n,
{
    if n <= 1 {
        0
    } else {
        let m = first_min_start(v, n - 1);
        if v[n - 1].2 < v[m].2 { n - 1 } else { m }
    }
}

/// The report about an anchor after the first definition.
pub open spec fn additional_report(doc: ExecutableDocument, a: AnchorView) -> DiagnosticView {
    let desc = match a.1 {
        Some(n) => a.0 + " '"@ + n + "'"@,
        None => "anonymous "@ + a.0,
    };
    (doc.spec_span(a.2, a.3), LintSeverity::Warning,
        "Only one executable definition is allowed per file. Found additional "@ + desc + "."@,
        "lone_executable_definition"@, None)
}

pub open spec fn additional_reports(doc: ExecutableDocument, v: Seq<AnchorView>) -> Seq<DiagnosticView> {
    Seq::new(v.len(), |k: int| additional_report(doc, v[k]))
}

/// Reports come in the order of the positions they point at.
pub open spec fn sorted_by_start(r: Seq<DiagnosticView>) -> bool {
    forall|i: int, j: int| 0 <= i < j < r.len() ==> (#[trigger] r[i]).0.start <= (#[trigger] r[j]).0.start
}

proof fn lemma_first_min_start(v: Seq<AnchorView>, n: int)
    requires
        1 <= n <= v.len(),
    ensures
        0 <= first_min_start(v, n) < n,
        forall|k: int| 0 <= k < n ==> v[first_min_start(v, n)].2 <= #[trigger] v[k].2,
    decreases n,
{
    if n > 1 {
        lemma_first_min_start(v, n - 1);
    }
}

fn collect_anchors(doc: &ExecutableDocument) -> (r: (Vec<DefinitionAnchor>, usize))
    requires
        braces_fit(doc.definitions@),
    ensures
        anchors_view(r.0@) == operation_anchors(doc.definitions@) + fragment_anchors(doc.definitions@),
        r.1 == executable_count(doc.definitions@),
{
    let defs = &doc.definitions;
    let mut out: Vec<DefinitionAnchor> = Vec::new();
    let mut count: usize = 0;
    let mut k: usize = 0;
    assert(anchors_view(out@) =~= Seq::<AnchorView>::empty());
    while k < defs.len()
        invariant
            0 <= k <= defs@.len(),
            braces_fit(defs@),
            count == executable_count(defs@.take(k as int)),
            count <= k,
            anchors_view(out@) == operation_anchors(defs@.take(k as int)),
        decreases defs@.len() - k,
    {
        assert(defs@.take(k + 1).drop_last() =~= defs@.take(k as int));
        let ghost before = anchors_view(out@);
        match &defs[k] {
            Definition::Operation(op) => {
                count += 1;
                let name = match &op.name {
                    Some(n) => Some(n.value.clone()),
                    None => None,
                };
                let anchor = match &op.name {
                    Some(n) => Some((n.range.start, n.range.end)),
                    None => match op.keyword_range {
                        Some(r) => Some((r.start, r.end)),
                        None => match &op.selection_set {
                            Some(ss) => Some((ss.range.start, ss.range.start + 1)),
                            None => None,
                        },
                    },
                };
                if let Some((start, end)) = anchor {
                    out.push(DefinitionAnchor { kind: "operation", name, start, end });
                    assert(anchors_view(out@) =~= before.push(out@[before.len() as int].view()));
                } else {
                    assert(anchors_view(out@) =~= before + seq![]);
                }
            },
            Definition::Fragment(_) => {
                count += 1;
                assert(anchors_view(out@) =~= before + seq![]);
            },
            Definition::TypeSystem { .. } => {
                assert(anchors_view(out@) =~= before + seq![]);
            },
        }
        k += 1;
    }
    assert(defs@.take(k as int) =~= defs@);
    let ghost ops = anchors_view(out@);
    let mut k: usize = 0;
    while k < defs.len()
        invariant
            0 <= k <= defs@.len(),
            anchors_view(out@) == ops + fragment_anchors(defs@.take(k as int)),
        decreases defs@.len() - k,
    {
        assert(defs@.take(k + 1).drop_last() =~= defs@.take(k as int));
        let ghost before = anchors_view(out@);
        match &defs[k] {
            Definition::Fragment(f) => {
                if let Some(n) = &f.name {
                    out.push(DefinitionAnchor { kind: "fragment", name: Some(n.value.clone()), start: n.range.start, end: n.range.end });
                    assert(anchors_view(out@) =~= before.push(out@[before.len() as int].view()));
                } else {
                    assert(anchors_view(out@) =~= before + seq![]);
                }
            },
            _ => {
                assert(anchors_view(out@) =~= before + seq![]);
            },
        }
        k += 1;
    }
    assert(defs@.take(k as int) =~= defs@);
    (out, count)
}

fn make_report(doc: &ExecutableDocument, a: &DefinitionAnchor) -> (d: LintDiagnostic)
    ensures
        d.view() == additional_report(*doc, a.view()),
{
    let mut desc = String::new();
    match &a.name {
        Some(n) => {
            desc.append(a.kind);
            desc.append(" '");
            desc.append(n.as_str());
            desc.append("'");
        },
        None => {
            desc.append("anonymous ");
            desc.append(a.kind);
        },
    }
    let mut m = "Only one executable definition is allowed per file. Found additional ".to_owned();
    m.append(desc.as_str());
    m.append(".");
    LintDiagnostic::new(doc.span(a.start, a.end), LintSeverity::Warning, m.as_str(), "lone_executable_definition")
}

impl LoneExecutableDefinitionRuleImpl {
    /// Reports every executable definition of `doc` but the first (by
    /// position) when the document holds more than one; the reports come in
    /// order of position.
    pub fn check(&self, doc: &ExecutableDocument) -> (r: Vec<LintDiagnostic>)
        requires
            braces_fit(doc.definitions@),
        ensures
            ({
                let anchors = operation_anchors(doc.definitions@) + fragment_anchors(doc.definitions@);
                if executable_count(doc.definitions@) <= 1 || anchors.len() == 0 {
                    diags_view(r@).len() == 0
                } else {
                    &&& sorted_by_start(diags_view(r@))
                    &&& diags_view(r@).to_multiset()
                        == additional_reports(*doc, anchors.remove(first_min_start(anchors, anchors.len() as int))).to_multiset()
                }
            }),
    {
        let (mut anchors, count) = collect_anchors(doc);
        let ghost av = anchors_view(anchors@);
        let mut out: Vec<LintDiagnostic> = Vec::new();
        if count <= 1 || anchors.len() == 0 {
            assert(diags_view(out@) =~= Seq::<DiagnosticView>::empty());
            return out;
        }
        let mut m: usize = 0;
        let mut k: usize = 1;
        while k < anchors.len()
            invariant
                1 <= k <= anchors@.len(),
                0 <= m < k,
                av == anchors_view(anchors@),
                m == first_min_start(av, k as int),
            decreases anchors@.len() - k,
        {
            assert(av[k as int] == anchors@[k as int].view());
            assert(av[m as int] == anchors@[m as int].view());
            if anchors[k].start < anchors[m].start {
                m = k;
            }
            k += 1;
        }
        proof {
            lemma_first_min_start(av, av.len() as int);
        }
        let _first = anchors.remove(m);
        assert(anchors_view(anchors@) =~= av.remove(m as int));
        let ghost rest = anchors_view(anchors@);
        let ghost target = additional_reports(*doc, rest).to_multiset();
        let mut sorted: Vec<LintDiagnostic> = Vec::new();
        assert(diags_view(sorted@) =~= Seq::<DiagnosticView>::empty());
        proof {
            broadcast use vstd::multiset::group_multiset_axioms;
            diags_view(sorted@).to_multiset_ensures();
            vstd::multiset::lemma_multiset_empty_len(diags_view(sorted@).to_multiset());
            assert(additional_reports(*doc, anchors_view(anchors@)) =~= additional_reports(*doc, rest));
        }
        while anchors.len() > 0
            invariant
                sorted_by_start(diags_view(sorted@)),
                diags_view(sorted@).to_multiset().add(additional_reports(*doc, anchors_view(anchors@)).to_multiset()) == target,
            decreases anchors@.len(),
        {
            let ghost old_rest = additional_reports(*doc, anchors_view(anchors@));
            let a = anchors.remove(0);
            let d = make_report(doc, &a);
            let ghost dv = d.view();
            assert(old_rest =~= seq![dv] + additional_reports(*doc, anchors_view(anchors@)));
            let mut p: usize = 0;
            while p < sorted.len() && sorted[p].span.start <= d.span.start
                invariant
                    p <= sorted@.len(),
                    dv == d.view(),
                    forall|j: int| 0 <= j < p ==> (#[trigger] diags_view(sorted@)[j]).0.start <= dv.0.start,
                decreases sorted@.len() - p,
            {
                assert(diags_view(sorted@)[p as int] == sorted@[p as int].view());
                p += 1;
            }
            let ghost old_sorted = diags_view(sorted@);
            assert(p < old_sorted.len() ==> old_sorted[p as int].0.start > dv.0.start) by {
                if p < old_sorted.len() {
                    assert(old_sorted[p as int] == sorted@[p as int].view());
                }
            }
            sorted.insert(p, d);
            assert(diags_view(sorted@) =~= old_sorted.insert(p as int, dv));
            proof {
                broadcast use vstd::multiset::group_multiset_axioms;
                vstd::seq_lib::to_multiset_insert(old_sorted, p as int, dv);
                let tail = additional_reports(*doc, anchors_view(anchors@));
                vstd::seq_lib::lemma_multiset_commutative(seq![dv], tail);
                assert((seq![dv] + tail).to_multiset() == seq![dv].to_multiset().add(tail.to_multiset()));
                assert(seq![dv] =~= Seq::<DiagnosticView>::empty().push(dv));
                vstd::seq_lib::to_multiset_build(Seq::<DiagnosticView>::empty(), dv);
                Seq::<DiagnosticView>::empty().to_multiset_ensures();
                vstd::multiset::lemma_multiset_empty_len(Seq::<DiagnosticView>::empty().to_multiset());
                assert(diags_view(sorted@).to_multiset().add(tail.to_multiset())
                    =~= old_sorted.to_multiset().add(old_rest.to_multiset()));
                let nv = diags_view(sorted@);
                assert forall|i: int, j: int| 0 <= i < j < nv.len() implies (#[trigger] nv[i]).0.start <= (#[trigger] nv[j]).0.start by {
                    if i < p && j == p {
                    } else if i == p && j > p {
                        assert(nv[j] == old_sorted[j - 1]);
                        if j - 1 > p {
                            assert(old_sorted[p as int].0.start <= old_sorted[j - 1].0.start);
                        }
                    } else if i < p && j > p {
                        assert(nv[i] == old_sorted[i] && nv[j] == old_sorted[j - 1]);
                    } else if i > p {
                        assert(nv[i] == old_sorted[i - 1] && nv[j] == old_sorted[j - 1]);
                    } else {
                        assert(nv[i] == old_sorted[i] && nv[j] == old_sorted[j]);
                    }
                }
            }
        }
        proof {
            broadcast use vstd::multiset::group_multiset_axioms;
            let e = additional_reports(*doc, anchors_view(anchors@));
            assert(e =~= Seq::<DiagnosticView>::empty());
            e.to_multiset_ensures();
            vstd::multiset::lemma_multiset_empty_len(e.to_multiset());
            assert(diags_view(sorted@).to_multiset().add(e.to_multiset()) =~= diags_view(sorted@).to_multiset());
        }
        sorted
    }
}

} // verus!
