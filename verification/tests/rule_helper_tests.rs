use graphql_linter::rules::match_document_filename::{
    build_expected_filename, extract_filename_stem, split_words, to_camel_case, to_kebab_case,
    to_pascal_case, to_snake_case, FilenameStyle,
};
use graphql_linter::rules::redundant_fields::compute_line_deletion_range;
use graphql_linter::rules::require_import_fragment::parse_import_comments;

#[test]
fn test_extract_filename_stem_graphql() {
    assert_eq!(extract_filename_stem("file:///path/to/GetUser.graphql"), Some("GetUser".to_string()));
}

#[test]
fn test_extract_filename_stem_gql() {
    assert_eq!(extract_filename_stem("file:///path/to/GetUser.gql"), Some("GetUser".to_string()));
}

#[test]
fn test_extract_filename_stem_no_extension() {
    assert_eq!(extract_filename_stem("file:///path/to/GetUser"), Some("GetUser".to_string()));
}

#[test]
fn test_extract_filename_stem_plain_path() {
    assert_eq!(extract_filename_stem("GetUser.graphql"), Some("GetUser".to_string()));
}

#[test]
fn test_to_camel_case() {
    assert_eq!(to_camel_case("GetUser"), "getUser");
    assert_eq!(to_camel_case("get_user"), "getUser");
    assert_eq!(to_camel_case("get-user"), "getUser");
}

#[test]
fn test_to_pascal_case() {
    assert_eq!(to_pascal_case("getUser"), "GetUser");
    assert_eq!(to_pascal_case("get_user"), "GetUser");
    assert_eq!(to_pascal_case("get-user"), "GetUser");
}

#[test]
fn test_to_snake_case() {
    assert_eq!(to_snake_case("GetUser"), "get_user");
    assert_eq!(to_snake_case("getUser"), "get_user");
}

#[test]
fn test_to_kebab_case() {
    assert_eq!(to_kebab_case("GetUser"), "get-user");
    assert_eq!(to_kebab_case("getUser"), "get-user");
}

#[test]
fn split_words_on_case_and_separators() {
    assert_eq!(split_words("getUserByID"), vec!["get", "User", "By", "ID"]);
    assert_eq!(split_words("a_b-c"), vec!["a", "b", "c"]);
}

#[test]
fn expected_filename_with_suffix() {
    assert_eq!(build_expected_filename("GetUser", FilenameStyle::KebabCase, ".query"), "get-user.query");
    assert_eq!(build_expected_filename("GetUser", FilenameStyle::MatchDocumentStyle, ""), "GetUser");
}

#[test]
fn test_field_alone_on_line() {
    let source = "fragment Foo on Type {\n  ...Bar\n  id\n  name\n}";
    let (start, end) = compute_line_deletion_range(source, 34, 36);
    assert_eq!(start, 32);
    assert_eq!(end, 37);
}

#[test]
fn test_field_with_other_content_on_line() {
    let source = "{ ...Bar id name }";
    let (start, end) = compute_line_deletion_range(source, 9, 11);
    assert_eq!(start, 9);
    assert_eq!(end, 11);
}

#[test]
fn test_first_line_field() {
    let source = "  id\nname";
    let (start, end) = compute_line_deletion_range(source, 2, 4);
    assert_eq!(start, 0);
    assert_eq!(end, 5);
}

#[test]
fn test_last_line_field_no_trailing_newline() {
    let source = "name\n  id";
    let (start, end) = compute_line_deletion_range(source, 7, 9);
    assert_eq!(start, 5);
    assert_eq!(end, 9);
}

#[test]
fn test_field_with_trailing_whitespace() {
    let source = "fragment Foo on Type {\n  id  \n}";
    let (start, end) = compute_line_deletion_range(source, 25, 27);
    assert_eq!(start, 23);
    assert_eq!(end, 30);
}

#[test]
fn test_parse_import_comments_basic() {
    let imports = parse_import_comments(r#"# import Foo from "foo.graphql""#);
    assert_eq!(imports.len(), 1);
    assert_eq!(imports[0].names, Some(vec!["Foo".to_string()]));
}

#[test]
fn test_parse_import_comments_multiple() {
    let imports = parse_import_comments(r#"# import A, B from "types.graphql""#);
    assert_eq!(imports.len(), 1);
    assert_eq!(imports[0].names, Some(vec!["A".to_string(), "B".to_string()]));
}

#[test]
fn test_parse_import_comments_default() {
    let imports = parse_import_comments(r#"# import "foo.graphql""#);
    assert_eq!(imports.len(), 1);
    assert!(imports[0].names.is_none());
    assert_eq!(imports[0].path, "foo.graphql");
}

#[test]
fn test_parse_import_comments_non_import_comment() {
    let imports = parse_import_comments("# This is a regular comment");
    assert!(imports.is_empty());
}

#[test]
fn test_parse_import_comments_empty() {
    let imports = parse_import_comments("");
    assert!(imports.is_empty());
}

#[test]
fn import_comments_single_quotes_and_spacing() {
    let imports = parse_import_comments("query Q { a }\n  #   import   X ,Y  from   'a/b.gql'  \n#importZ from 'c'");
    assert_eq!(imports.len(), 1);
    assert_eq!(imports[0].names, Some(vec!["X".to_string(), "Y".to_string()]));
    assert_eq!(imports[0].path, "a/b.gql");
}
