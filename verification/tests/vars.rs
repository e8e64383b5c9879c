use hurlin::keys::{HurlinKey, TaskId};
use hurlin::vars::{hurl_call, injected_variables, HurlVar, HurlVarName, Variable};

fn name(text: &str) -> HurlVarName {
    HurlVarName::new(text.to_string()).ok().unwrap()
}

fn texts(list: &[Variable]) -> Vec<(String, String)> {
    list.iter()
        .map(|(name, value)| (name.as_str().to_string(), value.0.clone()))
        .collect()
}

#[test]
fn variable_names_follow_the_grammar() {
    for text in ["a", "Z", "hurlin-import", "a_b-C9", "x0"] {
        assert_eq!(name(text).as_str(), text);
    }
}

#[test]
fn other_texts_are_handed_back() {
    for text in ["", "0a", "-a", "_a", "a b", "a.b", "a=b", "é", "aé", "a\n", "@", "[", "`", "{"] {
        assert_eq!(
            HurlVarName::new(text.to_string()).err(),
            Some(text.to_string())
        );
    }
}

#[test]
fn hurl_is_called_with_arguments_variables_and_file() {
    let variables = vec![
        (name("a"), HurlVar("1".to_string())),
        (name("b"), HurlVar("x=y".to_string())),
    ];
    let arguments = vec!["--test".to_string(), "-v".to_string()];
    assert_eq!(
        hurl_call("f.hurl", &variables, &arguments),
        vec!["--test", "-v", "--color", "--variable", "a=1", "--variable", "b=x=y", "f.hurl"]
    );
    assert_eq!(hurl_call("f.hurl", &vec![], &vec![]), vec!["--color", "f.hurl"]);
}

#[test]
fn every_task_gets_the_services_of_the_session() {
    let key = HurlinKey::validate("0123456789abcdef").ok().unwrap();
    let task = TaskId::validate("fedcba9876543210").ok().unwrap();
    let at = |service: &str| {
        format!("http://localhost:8080/{service}/0123456789abcdef/fedcba9876543210/")
    };
    let pair = |name: &str, value: String| (name.to_string(), value);
    assert_eq!(
        texts(&injected_variables(8080, &key, &task, "sub/dir")),
        vec![
            pair("hurlin-import", at("import") + "sub/dir/"),
            pair("hurlin-async", at("async") + "sub/dir/"),
            pair("hurlin-readfile", at("readfile") + "sub/dir/"),
            pair("hurlin-await", at("await")),
            pair("hurlin-export", at("export")),
            pair("hurlin-noise", at("noise")),
        ]
    );
    assert_eq!(
        texts(&injected_variables(8080, &key, &task, ""))[..3],
        [
            pair("hurlin-import", at("import")),
            pair("hurlin-async", at("async")),
            pair("hurlin-readfile", at("readfile")),
        ]
    );
}
