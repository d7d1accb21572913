//! The `matchDocumentFilename` lint rule.
use vstd::prelude::*;
use crate::diagnostics::{diags_view, DiagnosticView, LintDiagnostic, LintSeverity};
use crate::document::{plain_view, push_diag, Definition, ExecutableDocument, Name};
use crate::rules::OperationKind;
use crate::text::{
    chars_to_string, has_prefix, has_prefix_at, has_suffix, has_suffix_at, join_strings, join_with,
    lemma_rfind_from_bounds, push_char, range_to_string, rfind_char_from, rfind_from, strings_view,
    str_eq, to_chars,
};
use crate::unicode::{
    char_is_lowercase, char_is_uppercase, char_lowercase, char_uppercase, is_lowercase,
    is_uppercase, str_lowercase, to_lowercase, to_lowercase_char, to_uppercase,
};

verus! {

/// Lint rule that enforces GraphQL operations and fragments match their filename.
///
/// For example, a file named `GetUser.graphql` should contain an operation named
/// `GetUser`. This helps with code organization and makes operations easy to find.
///
/// The rule supports configurable naming styles per definition type (query,
/// mutation, subscription, fragment) and optional suffixes.
///
/// Example:
/// ```graphql
/// # File: GetUser.graphql
/// # Good - operation name matches filename
/// query GetUser {
///   user { id name }
/// }
///
/// # File: GetUser.graphql
/// # Bad - operation name doesn't match filename
/// query FetchUser {
///   user { id name }
/// }
/// ```
pub struct MatchDocumentFilenameRuleImpl;

impl MatchDocumentFilenameRuleImpl {
    /// The rule's identifier.
    pub fn name(&self) -> (s: &'static str)
        ensures
            s@ == "matchDocumentFilename"@,
    {
        "matchDocumentFilename"
    }

    /// What the rule checks.
    pub fn description(&self) -> (s: &'static str)
        ensures
            s@ == "Enforces that operation and fragment names match the filename"@,
    {
        "Enforces that operation and fragment names match the filename"
    }

    /// The severity the rule reports with unless configured otherwise.
    pub fn default_severity(&self) -> (s: LintSeverity)
        ensures
            s == LintSeverity::Warning,
    {
        LintSeverity::Warning
    }
}

/// Supported naming styles for filenames.
#[derive(Debug, Clone, Copy, PartialEq, Eq, Default)]
pub enum FilenameStyle {
    /// `camelCase` (e.g., `getUserById`)
    CamelCase,
    /// `PascalCase` (e.g., `GetUserById`)
    PascalCase,
    /// `snake_case` (e.g., `get_user_by_id`)
    SnakeCase,
    /// kebab-case (e.g., `get-user-by-id`)
    KebabCase,
    /// Match the exact name used in the document
    #[default]
    MatchDocumentStyle,
}

/// Per-definition-type configuration.
#[derive(Debug, Clone, Default)]
pub struct DefinitionTypeConfig {
    /// The naming style to enforce
    pub style: FilenameStyle,
    /// Optional suffix that should appear in the filename after the name
    pub suffix: String,
}

/// Options for the `matchDocumentFilename` rule.
#[derive(Debug, Clone, Default)]
pub struct MatchDocumentFilenameOptions {
    /// Configuration for query operations
    pub query: DefinitionTypeConfig,
    /// Configuration for mutation operations
    pub mutation: DefinitionTypeConfig,
    /// Configuration for subscription operations
    pub subscription: DefinitionTypeConfig,
    /// Configuration for fragment definitions
    pub fragment: DefinitionTypeConfig,
}

/// The filename stem of `uri`: the last path segment (after an optional
/// `file://` scheme), without a `.graphql` or `.gql` extension; none when
/// that is empty.
pub open spec fn spec_filename_stem(uri: Seq<char>) -> Option<Seq<char>> {
    let n = uri.len() as int;
    let p0: int = if has_prefix(uri, 0, n, "file://"@) { "file://"@.len() as int } else { 0 };
    let f0: int = rfind_from(uri, p0, n, '/') + 1;
    let start: int = if f0 == 0 { p0 } else { f0 };
    let end: int = if has_suffix(uri, start, n, ".graphql"@) {
        n - ".graphql"@.len()
    } else if has_suffix(uri, start, n, ".gql"@) {
        n - ".gql"@.len()
    } else {
        n
    };
    if start == n || end == start {
        None
    } else {
        Some(uri.subrange(start, end))
    }
}

/// Extracts the filename stem (no path, no extension) from a URI string.
///
/// Handles both file URIs (`file:///path/to/File.graphql`) and plain paths.
/// Strips `.graphql` and `.gql` extensions.
pub fn extract_filename_stem(uri: &str) -> (r: Option<String>)
    ensures
        match (r, spec_filename_stem(uri@)) {
            (Some(a), Some(b)) => a@ == b,
            (None, None) => true,
            _ => false,
        },
{
    let v = to_chars(uri);
    let n = v.len();
    let scheme = to_chars("file://");
    let p0: usize = if has_prefix_at(&v, 0, n, &scheme) { scheme.len() } else { 0 };
    let start: usize = match rfind_char_from(&v, p0, n, '/') {
        Some(i) => i + 1,
        None => p0,
    };
    proof { lemma_rfind_from_bounds(v@, p0 as int, n as int, '/'); }
    if start == n {
        return None;
    }
    let graphql = to_chars(".graphql");
    let gql = to_chars(".gql");
    let end: usize = if has_suffix_at(&v, start, n, &graphql) {
        n - graphql.len()
    } else if has_suffix_at(&v, start, n, &gql) {
        n - gql.len()
    } else {
        n
    };
    if end == start {
        return None;
    }
    Some(range_to_string(&v, start, end))
}

/// State of splitting a name into words: the words so far and the current word.
pub type WordState = (Seq<Seq<char>>, Seq<char>);

/// The effect of one character on the word split.
pub open spec fn word_step(st: WordState, c: char) -> WordState {
    if c == '_' || c == '-' {
        if st.1.len() > 0 { (st.0.push(st.1), seq![]) } else { st }
    } else if char_is_uppercase(c) && st.1.len() > 0 {
        if char_is_lowercase(st.1.last()) {
            (st.0.push(st.1), seq![c])
        } else {
            (st.0, st.1.push(c))
        }
    } else {
        (st.0, st.1.push(c))
    }
}

/// The word split after the first `n` characters of `s`.
pub open spec fn word_scan(s: Seq<char>, n: int) -> WordState
    decreases n,
{
    if n <= 0 {
        (seq![], seq![])
    } else {
        word_step(word_scan(s, n - 1), s[n - 1])
    }
}

/// The words of a name: split at `_` and `-`, and before an upper-case letter
/// that follows a lower-case one.
pub open spec fn spec_split_words(s: Seq<char>) -> Seq<Seq<char>> {
    let st = word_scan(s, s.len() as int);
    if st.1.len() > 0 { st.0.push(st.1) } else { st.0 }
}

/// Splits a name into its word components. Handles `PascalCase`, `camelCase`,
/// `snake_case`, and kebab-case inputs.
pub fn split_words(name: &str) -> (r: Vec<String>)
    ensures
        strings_view(r@) == spec_split_words(name@),
{
    let v = to_chars(name);
    let mut words: Vec<String> = Vec::new();
    let mut current: Vec<char> = Vec::new();
    let mut k: usize = 0;
    while k < v.len()
        invariant
            0 <= k <= v.len(),
            v@ == name@,
            (strings_view(words@), current@) == word_scan(v@, k as int),
        decreases v.len() - k,
    {
        let ch = v[k];
        let ghost before = strings_view(words@);
        if ch == '_' || ch == '-' {
            if current.len() != 0 {
                words.push(chars_to_string(&current));
                assert(strings_view(words@) =~= before.push(current@));
                current = Vec::new();
            }
        } else if is_uppercase(ch) && current.len() != 0 {
            let prev_lower = is_lowercase(current[current.len() - 1]);
            if prev_lower {
                words.push(chars_to_string(&current));
                assert(strings_view(words@) =~= before.push(current@));
                current = Vec::new();
            }
            current.push(ch);
        } else {
            current.push(ch);
        }
        k += 1;
    }
    if current.len() != 0 {
        let ghost before = strings_view(words@);
        words.push(chars_to_string(&current));
        assert(strings_view(words@) =~= before.push(current@));
    }
    words
}

/// The characters of `s`, each replaced by its full lower-case mapping.
pub open spec fn lower_each(s: Seq<char>) -> Seq<char>
    decreases s.len(),
{
    if s.len() == 0 {
        seq![]
    } else {
        lower_each(s.drop_last()) + char_lowercase(s.last())
    }
}

/// A word with its first character upper-cased (first character of the
/// mapping) and the rest lower-cased character by character.
pub open spec fn capitalized(w: Seq<char>) -> Seq<char> {
    if w.len() == 0 {
        seq![]
    } else {
        seq![char_uppercase(w[0])[0]] + lower_each(w.drop_first())
    }
}

/// `camelCase` of a word list: the first word lower-cased, the others capitalized.
pub open spec fn camel_words(words: Seq<Seq<char>>) -> Seq<char>
    decreases words.len(),
{
    if words.len() == 0 {
        seq![]
    } else if words.len() == 1 {
        str_lowercase(words[0])
    } else {
        camel_words(words.drop_last()) + capitalized(words.last())
    }
}

/// `PascalCase` of a word list: every word capitalized.
pub open spec fn pascal_words(words: Seq<Seq<char>>) -> Seq<char>
    decreases words.len(),
{
    if words.len() == 0 {
        seq![]
    } else {
        pascal_words(words.drop_last()) + capitalized(words.last())
    }
}

/// Every word lower-cased.
pub open spec fn lowered(words: Seq<Seq<char>>) -> Seq<Seq<char>> {
    Seq::new(words.len(), |k: int| str_lowercase(words[k]))
}

fn capitalize_into(out: &mut String, w: &str)
    ensures
        final(out)@ == old(out)@ + capitalized(w@),
{
    let v = to_chars(w);
    if v.len() == 0 {
        assert(capitalized(w@) =~= Seq::<char>::empty());
        assert(old(out)@ + Seq::<char>::empty() =~= old(out)@);
        return;
    }
    let up = to_uppercase(v[0]);
    let uv = to_chars(up.as_str());
    push_char(out, uv[0]);
    let ghost head = out@;
    let mut k: usize = 1;
    while k < v.len()
        invariant
            1 <= k <= v.len(),
            v@ == w@,
            out@ == head + lower_each(v@.subrange(1, k as int)),
        decreases v.len() - k,
    {
        let lo = to_lowercase_char(v[k]);
        out.append(lo.as_str());
        assert(v@.subrange(1, k + 1).drop_last() =~= v@.subrange(1, k as int));
        k += 1;
    }
    assert(v@.subrange(1, v@.len() as int) =~= v@.drop_first());
}

/// Converts a name to `camelCase`.
pub fn to_camel_case(name: &str) -> (r: String)
    ensures
        r@ == camel_words(spec_split_words(name@)),
{
    let words = split_words(name);
    let ghost ws = strings_view(words@);
    let mut result = String::new();
    let mut i: usize = 0;
    while i < words.len()
        invariant
            0 <= i <= words.len(),
            ws == strings_view(words@),
            result@ == camel_words(ws.take(i as int)),
        decreases words.len() - i,
    {
        assert(ws.take(i + 1).drop_last() =~= ws.take(i as int));
        if i == 0 {
            let lw = to_lowercase(words[i].as_str());
            result.append(lw.as_str());
            assert(ws.take(0) =~= Seq::<Seq<char>>::empty());
        } else {
            capitalize_into(&mut result, words[i].as_str());
        }
        i += 1;
    }
    assert(ws.take(ws.len() as int) =~= ws);
    result
}

/// Converts a name to `PascalCase`.
pub fn to_pascal_case(name: &str) -> (r: String)
    ensures
        r@ == pascal_words(spec_split_words(name@)),
{
    let words = split_words(name);
    let ghost ws = strings_view(words@);
    let mut result = String::new();
    let mut i: usize = 0;
    while i < words.len()
        invariant
            0 <= i <= words.len(),
            ws == strings_view(words@),
            result@ == pascal_words(ws.take(i as int)),
        decreases words.len() - i,
    {
        assert(ws.take(i + 1).drop_last() =~= ws.take(i as int));
        capitalize_into(&mut result, words[i].as_str());
        i += 1;
    }
    assert(ws.take(ws.len() as int) =~= ws);
    result
}

fn lower_all(words: &Vec<String>) -> (r: Vec<String>)
    ensures
        strings_view(r@) == lowered(strings_view(words@)),
{
    let mut r: Vec<String> = Vec::new();
    let mut i: usize = 0;
    while i < words.len()
        invariant
            0 <= i <= words.len(),
            strings_view(r@) == lowered(strings_view(words@)).take(i as int),
        decreases words.len() - i,
    {
        let ghost before = strings_view(r@);
        let w = to_lowercase(words[i].as_str());
        r.push(w);
        assert(strings_view(r@) =~= before.push(w@));
        assert(lowered(strings_view(words@)).take(i + 1) =~= lowered(strings_view(words@)).take(i as int).push(w@));
        i += 1;
    }
    assert(lowered(strings_view(words@)).take(words@.len() as int) =~= lowered(strings_view(words@)));
    r
}

/// Converts a name to `snake_case`.
pub fn to_snake_case(name: &str) -> (r: String)
    ensures
        r@ == join_with(lowered(spec_split_words(name@)), "_"@),
{
    let words = split_words(name);
    let lw = lower_all(&words);
    join_strings(&lw, "_")
}

/// Converts a name to kebab-case.
pub fn to_kebab_case(name: &str) -> (r: String)
    ensures
        r@ == join_with(lowered(spec_split_words(name@)), "-"@),
{
    let words = split_words(name);
    let lw = lower_all(&words);
    join_strings(&lw, "-")
}

/// A name in the given filename style.
pub open spec fn styled_name(name: Seq<char>, style: FilenameStyle) -> Seq<char> {
    match style {
        FilenameStyle::MatchDocumentStyle => name,
        FilenameStyle::CamelCase => camel_words(spec_split_words(name)),
        FilenameStyle::PascalCase => pascal_words(spec_split_words(name)),
        FilenameStyle::SnakeCase => join_with(lowered(spec_split_words(name)), "_"@),
        FilenameStyle::KebabCase => join_with(lowered(spec_split_words(name)), "-"@),
    }
}

/// Builds the expected filename from a definition name, applying the given
/// style and then the suffix.
pub fn build_expected_filename(name: &str, style: FilenameStyle, suffix: &str) -> (r: String)
    ensures
        r@ == styled_name(name@, style) + suffix@,
{
    let mut styled = match style {
        FilenameStyle::MatchDocumentStyle => name.to_owned(),
        FilenameStyle::CamelCase => to_camel_case(name),
        FilenameStyle::PascalCase => to_pascal_case(name),
        FilenameStyle::SnakeCase => to_snake_case(name),
        FilenameStyle::KebabCase => to_kebab_case(name),
    };
    styled.append(suffix);
    styled
}

impl MatchDocumentFilenameOptions {
    /// The configuration for operations of kind `k`.
    pub open spec fn spec_for_kind(&self, k: OperationKind) -> DefinitionTypeConfig {
        match k {
            OperationKind::Query => self.query,
            OperationKind::Mutation => self.mutation,
            OperationKind::Subscription => self.subscription,
        }
    }

    /// The configuration for operations of kind `k`.
    pub fn for_kind(&self, k: OperationKind) -> (c: &DefinitionTypeConfig)
        ensures
            *c == self.spec_for_kind(k),
    {
        match k {
            OperationKind::Query => &self.query,
            OperationKind::Mutation => &self.mutation,
            OperationKind::Subscription => &self.subscription,
        }
    }
}

/// The report about a definition of kind `what` named `n` whose expected
/// filename under `cfg` is not `stem`.
pub open spec fn filename_report(
    doc: ExecutableDocument,
    stem: Seq<char>,
    what: Seq<char>,
    n: Name,
    cfg: DefinitionTypeConfig,
) -> Seq<DiagnosticView> {
    let expected = styled_name(n.value@, cfg.style) + cfg.suffix@;
    if expected == stem {
        seq![]
    } else {
        seq![plain_view(
            doc.spec_span(n.range.start, n.range.end),
            LintSeverity::Warning,
            "Filename '"@ + stem + "' does not match "@ + what + " name '"@ + n.value@
                + "'. Expected filename '"@ + expected + "'."@,
            "matchDocumentFilename"@,
        )]
    }
}

/// The report about definition `d` of `doc` in a file with stem `stem`.
pub open spec fn definition_filename_report(
    opts: MatchDocumentFilenameOptions,
    doc: ExecutableDocument,
    stem: Seq<char>,
    d: Definition,
) -> Seq<DiagnosticView> {
    match d {
        Definition::Operation(op) => match op.name {
            Some(n) => filename_report(doc, stem, op.kind.spec_keyword(), n, opts.spec_for_kind(op.kind)),
            None => seq![],
        },
        Definition::Fragment(fr) => match fr.name {
            Some(n) => filename_report(doc, stem, "fragment"@, n, opts.fragment),
            None => seq![],
        },
        Definition::TypeSystem { .. } => seq![],
    }
}

/// The reports about the definitions `defs` of `doc`.
pub open spec fn filename_reports(
    opts: MatchDocumentFilenameOptions,
    doc: ExecutableDocument,
    stem: Seq<char>,
    defs: Seq<Definition>,
) -> Seq<DiagnosticView>
    decreases defs.len(),
{
    if defs.len() == 0 {
        seq![]
    } else {
        filename_reports(opts, doc, stem, defs.drop_last()) + definition_filename_report(opts, doc, stem, defs.last())
    }
}

fn check_name(
    doc: &ExecutableDocument,
    stem: &str,
    what: &str,
    n: &Name,
    cfg: &DefinitionTypeConfig,
    out: &mut Vec<LintDiagnostic>,
)
    ensures
        diags_view(final(out)@) == diags_view(old(out)@) + filename_report(*doc, stem@, what@, *n, *cfg),
{
    let expected = build_expected_filename(n.value.as_str(), cfg.style, cfg.suffix.as_str());
    if str_eq(expected.as_str(), stem) {
        assert(diags_view(out@) =~= diags_view(out@) + seq![]);
        return;
    }
    let mut message = "Filename '".to_owned();
    message.append(stem);
    message.append("' does not match ");
    message.append(what);
    message.append(" name '");
    message.append(n.value.as_str());
    message.append("'. Expected filename '");
    message.append(expected.as_str());
    message.append("'.");
    let d = LintDiagnostic::warning(doc.span(n.range.start, n.range.end), message.as_str(), "matchDocumentFilename");
    push_diag(out, d);
}

impl MatchDocumentFilenameRuleImpl {
    /// Reports every named operation and fragment of `doc`, in the file
    /// `uri`, whose name in the configured style and with the configured
    /// suffix is not the file's stem; nothing when the stem is empty.
    pub fn check(&self, opts: &MatchDocumentFilenameOptions, uri: &str, doc: &ExecutableDocument) -> (r: Vec<LintDiagnostic>)
        ensures
            diags_view(r@) == match spec_filename_stem(uri@) {
                Some(stem) => filename_reports(*opts, *doc, stem, doc.definitions@),
                None => seq![],
            },
    {
        let mut out: Vec<LintDiagnostic> = Vec::new();
        let stem = match extract_filename_stem(uri) {
            Some(s) => s,
            None => {
                assert(diags_view(out@) =~= Seq::<DiagnosticView>::empty());
                return out;
            },
        };
        let ghost st = stem@;
        let mut k: usize = 0;
        assert(diags_view(out@) =~= Seq::<DiagnosticView>::empty());
        while k < doc.definitions.len()
            invariant
                0 <= k <= doc.definitions@.len(),
                st == stem@,
                diags_view(out@) == filename_reports(*opts, *doc, st, doc.definitions@.take(k as int)),
            decreases doc.definitions@.len() - k,
        {
            assert(doc.definitions@.take(k + 1).drop_last() =~= doc.definitions@.take(k as int));
            match &doc.definitions[k] {
                Definition::Operation(op) => match &op.name {
                    Some(n) => {
                        let what = op.kind.keyword();
                        check_name(doc, stem.as_str(), what, n, opts.for_kind(op.kind), &mut out);
                    },
                    None => assert(diags_view(out@) =~= diags_view(out@) + seq![]),
                },
                Definition::Fragment(fr) => match &fr.name {
                    Some(n) => {
                        check_name(doc, stem.as_str(), "fragment", n, &opts.fragment, &mut out);
                    },
                    None => assert(diags_view(out@) =~= diags_view(out@) + seq![]),
                },
                _ => assert(diags_view(out@) =~= diags_view(out@) + seq![]),
            }
            k += 1;
        }
        assert(doc.definitions@.take(k as int) =~= doc.definitions@);
        out
    }
}

} // verus!
