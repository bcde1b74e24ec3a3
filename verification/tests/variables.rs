use fm_tester::workspace_data::WorkspaceDataDomainService;

fn vars(pairs: &[(&str, &str)]) -> Vec<(String, String)> {
    pairs.iter().map(|(k, v)| (k.to_string(), v.to_string())).collect()
}

#[test]
fn replace_variables_substitutes_known_names() {
    let r = WorkspaceDataDomainService::replace_variables(
        "{{host}}/api/{{version}}/users",
        &vars(&[("host", "https://x.io"), ("version", "v2")]),
    );
    assert_eq!(r.text, "https://x.io/api/v2/users");
    assert!(r.undefined_variables.is_empty());
}

#[test]
fn replace_variables_lists_undefined_names_sorted_once() {
    let r = WorkspaceDataDomainService::replace_variables("{{b}} {{a}} {{ b }} {{c}}", &vars(&[("c", "1")]));
    assert_eq!(r.text, "{{b}} {{a}} {{ b }} 1");
    assert_eq!(r.undefined_variables, vec!["a".to_string(), "b".to_string()]);
}

#[test]
fn replace_variables_trims_names_for_the_report_but_not_for_substitution() {
    let r = WorkspaceDataDomainService::replace_variables("{{ token }}", &vars(&[("token", "t")]));
    assert_eq!(r.text, "{{ token }}");
    assert!(r.undefined_variables.is_empty());
}

#[test]
fn replace_variables_applies_variables_in_order() {
    let r = WorkspaceDataDomainService::replace_variables("{{a}}", &vars(&[("a", "{{b}}"), ("b", "x")]));
    assert_eq!(r.text, "x");
    let r = WorkspaceDataDomainService::replace_variables("{{a}}", &vars(&[("b", "x"), ("a", "{{b}}")]));
    assert_eq!(r.text, "{{b}}");
}

#[test]
fn replace_variables_reference_grammar() {
    let r = WorkspaceDataDomainService::replace_variables("{{}} {{{x}}} {{y}", &vars(&[]));
    assert_eq!(r.undefined_variables, vec!["{x".to_string()]);
    let r = WorkspaceDataDomainService::replace_variables("no refs", &vars(&[("a", "b")]));
    assert_eq!(r.text, "no refs");
    assert!(r.undefined_variables.is_empty());
}

#[test]
fn text_without_braces_is_left_as_it_is() {
    let r = WorkspaceDataDomainService::replace_variables("plain {text} here }}", &vars(&[("text", "x"), ("a", "b")]));
    assert_eq!(r.text, "plain {text} here }}");
    assert!(r.undefined_variables.is_empty());
}
