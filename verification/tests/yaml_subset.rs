use masterdata_core::yaml_subset::validate_masterdata_yaml_lexemes;

fn refused(content: &str) -> (String, String, Vec<String>) {
    let error = validate_masterdata_yaml_lexemes("items.yaml", content).unwrap_err();
    let diagnostic = error.diagnostic;
    assert_eq!(diagnostic.source.as_deref(), Some("items.yaml"));
    (diagnostic.code, diagnostic.message, diagnostic.related_requirements)
}

#[test]
fn canonical_documents_pass_unchanged() {
    let content = "kind: data\ntable: item\nrecords:\n  - id: 1\n    name: \"Potion\" # comment\n    price: -2.5\n    rate: 1.5e3\n    enabled: true\n    note: null\n";
    assert_eq!(validate_masterdata_yaml_lexemes("items.yaml", content).unwrap(), content);
}

#[test]
fn yaml_one_one_words_are_quoted() {
    assert_eq!(validate_masterdata_yaml_lexemes("items.yaml", "value: yes\n").unwrap(), "value: 'yes'\n");
    assert_eq!(validate_masterdata_yaml_lexemes("items.yaml", "value: True\n").unwrap(), "value: 'True'\n");
    assert_eq!(
        validate_masterdata_yaml_lexemes("items.yaml", "tags: [On, off, 'yes']\n").unwrap(),
        "tags: ['On', 'off', 'yes']\n"
    );
    assert_eq!(
        validate_masterdata_yaml_lexemes("items.yaml", "tags:\n  - NO\n  - plain\n").unwrap(),
        "tags:\n  - 'NO'\n  - plain\n"
    );
}

#[test]
fn tilde_null_and_noncanonical_numbers_are_refused() {
    let (code, message, requirements) = refused("value: ~\n");
    assert_eq!(code, "E-YAML-INVALID-NULL");
    assert_eq!(message, "`~` is not supported as a Masterdata null literal");
    assert_eq!(requirements, vec!["YAML-SUBSET-010".to_string()]);

    let (code, message, requirements) = refused("value: 0x10\n");
    assert_eq!(code, "E-YAML-INVALID-INTEGER");
    assert_eq!(message, "integer scalar `0x10` is not supported by the Masterdata YAML subset");
    assert_eq!(requirements, vec!["YAML-SUBSET-011".to_string()]);

    let (code, message, _) = refused("value: .5\n");
    assert_eq!(code, "E-YAML-INVALID-FLOAT");
    assert_eq!(message, "floating-point scalar `.5` is not supported by the Masterdata YAML subset");

    let (code, _, _) = refused("value: 1_000\n");
    assert_eq!(code, "E-YAML-INVALID-INTEGER");

    let (code, _, _) = refused("values: [1, .inf]\n");
    assert_eq!(code, "E-YAML-INVALID-FLOAT");
}

#[test]
fn entries_need_explicit_values() {
    let (code, message, requirements) = refused("name:\nother: 1\n");
    assert_eq!(code, "E-YAML-MISSING-VALUE");
    assert_eq!(message, "mapping entry `name` has no explicit value");
    assert_eq!(requirements, vec!["YAML-SUBSET-017".to_string()]);

    assert!(validate_masterdata_yaml_lexemes("items.yaml", "parent:\n  child: 1\n").is_ok());
    assert!(validate_masterdata_yaml_lexemes("items.yaml", "items:\n- a\n- b\n").is_ok());
    assert!(validate_masterdata_yaml_lexemes("items.yaml", "text: |\n  yes\n  ~\nnext: 1\n").is_ok());
}

#[test]
fn enum_member_values_use_the_integer_grammar() {
    let document = "kind: type\nname: Rarity\nenum:\n  underlying: int\n  members:\n    - name: Rare\n      value: 1.0\n";
    let (code, message, _) = refused(document);
    assert_eq!(code, "E-YAML-INVALID-INTEGER");
    assert_eq!(message, "Enum/Flags member integer `1.0` does not match the Masterdata YAML integer grammar");

    let valid = "kind: type\nname: Rarity\nenum:\n  underlying: int\n  members:\n    - name: Rare\n      value: -3\n";
    assert_eq!(validate_masterdata_yaml_lexemes("items.yaml", valid).unwrap(), valid);

    let data = "kind: data\nenum:\n  members:\n    - name: Rare\n      value: 1.0\n";
    assert!(validate_masterdata_yaml_lexemes("items.yaml", data).is_ok());
}
