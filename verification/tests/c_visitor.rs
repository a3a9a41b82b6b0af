use callix::cfamily::declarators::normalize_type;

/// The normalization a C++ overload's id depends on: two spellings of one
/// parameter type have to reduce to one string, or a header and its source
/// file produce two nodes for one function.
#[test]
fn normalize_type_folds_the_spellings_of_one_type() {
    assert_eq!(normalize_type("const char *"), "const char*");
    assert_eq!(normalize_type("const char*"), "const char*");
    assert_eq!(normalize_type("  const   char  * "), "const char*");
    assert_eq!(normalize_type("T && ..."), "T&&...");
    // Whitespace between two words is meaning, not formatting.
    assert_eq!(normalize_type("unsigned long long"), "unsigned long long");
    assert_eq!(normalize_type("operator  int"), "operator int");
    assert_eq!(normalize_type(""), "");
}

#[test]
fn normalize_type_is_a_fixed_point() {
    for text in ["int", "const char*", "unsigned long", "T&&...", "std::string&"] {
        assert_eq!(normalize_type(text), text, "{text} is not stable");
    }
}
