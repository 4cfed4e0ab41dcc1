//! Tests of variable values and of the evaluation context.

use libabbs::apml::context::{ApmlContext, VariableValue};

#[test]
fn test_variable_value_string() {
    assert_eq!(VariableValue::default().as_string(), "");
    assert_eq!(VariableValue::String("test".into()).as_string(), "test");
    assert_eq!(VariableValue::String("test".into()).into_string(), "test");
    assert_eq!(VariableValue::String("test".into()).as_array(), vec!["test".to_string()]);
    assert_eq!(VariableValue::String("".into()).as_array(), Vec::<String>::new());
    assert_eq!(VariableValue::String("test".into()).into_array(), vec!["test".to_string()]);
    assert_eq!(VariableValue::String("".into()).into_array(), Vec::<String>::new());
    assert_eq!(VariableValue::String("test".into()).len(), 4);
    assert!(VariableValue::String("".into()).is_empty());
    assert!(!VariableValue::String("test".into()).is_empty());
    assert!(VariableValue::String("test".into())
        .add_str("test")
        .add_value(&VariableValue::String("test".into()))
        .eq_str("testtesttest"));
    assert_eq!(VariableValue::String("test'test".into()).to_string(), "'test'\\''test'");

    let long_str = "1234567890123456789012345678901234567890123456789012345";
    let array = VariableValue::String(long_str.to_string()).into_array();
    assert_eq!(array.len(), 1);
    assert_eq!(array, vec![long_str.to_string()]);
    let array = VariableValue::String(format!("{long_str} {long_str} 1 {long_str}")).into_array();
    assert_eq!(array.len(), 4);
    assert_eq!(
        array,
        vec![long_str.to_string(), long_str.to_string(), "1".to_string(), long_str.to_string()]
    );
}

#[test]
fn test_variable_value_array() {
    assert!(VariableValue::default().as_array().is_empty());
    assert_eq!(VariableValue::Array(vec!["test".into()]).as_string(), "test");
    assert_eq!(VariableValue::Array(vec!["test".into()]).into_string(), "test");
    assert_eq!(VariableValue::Array(vec!["test".into()]).as_array(), vec!["test".to_string()]);
    assert_eq!(VariableValue::Array(vec!["test".into()]).into_array(), vec!["test".to_string()]);
    assert_eq!(VariableValue::Array(vec!["test".into()]).len(), 1);
    assert!(VariableValue::Array(vec![]).is_empty());
    assert!(!VariableValue::Array(vec!["".into()]).is_empty());
    assert!(!VariableValue::Array(vec!["test".into()]).is_empty());
    assert_eq!(
        VariableValue::Array(vec!["test".into()])
            .add_value(&VariableValue::Array(vec!["test".into()]))
            .add_str("test"),
        VariableValue::Array(vec!["test".into(), "test".into(), "test".into()])
    );
    assert_eq!(
        VariableValue::Array(vec!["test'test".into(), "test".into(), "test".into()]).to_string(),
        "('test'\\''test' 'test' 'test')"
    );
}

const CONTEXT_SRC: &str = r##"
VAR1=("test")
VAR1+=("b")
A="${VAR1[@]}"
B="${VAR1[*]}"
"##;

#[test]
fn test_apml_context() {
    let mut apml = ApmlContext::eval_source(CONTEXT_SRC).unwrap();
    println!("{:?}", &apml);
    let apml2 = ApmlContext::eval_source(CONTEXT_SRC).unwrap();
    assert!(apml.index("VAR1").eq_str("test b"));
    assert!(apml.index("A").eq_str("test b"));
    assert!(apml.index("B").eq_str("test b"));
    assert!(apml.contains_var("VAR1"));
    assert!(!apml.contains_var("nonexistence"));
    assert!(apml.get("VAR1").unwrap().eq_str("test b"));
    assert!(apml.read("VAR1").eq_str("test b"));
    assert!(apml.read("VAR2").eq_str(""));
    assert!(apml.get_mut("VAR1").unwrap().eq_str("test b"));
    apml.get_mut("VAR1").unwrap().append_str("c");
    apml.get_mut("VAR1").unwrap().append_value(&VariableValue::from_str("c"));
    apml.get_mut("VAR1").unwrap().append_value(&apml2.read("B"));
    apml.get_mut("VAR1").unwrap().append_value(&apml2.read("VAR1"));
    apml.get_mut("VAR1").unwrap().append_value(&apml2.read("nonexistence"));
    apml.get_mut("VAR1").unwrap().append_value(apml2.get("B").unwrap());
    apml.get_mut("VAR1").unwrap().append_value(apml2.get("VAR1").unwrap());
    assert!(apml
        .get_mut("VAR1")
        .unwrap()
        .eq_str("test b c c test b test b test b test b"));
    apml.get_mut("B").unwrap().append_str("c");
    apml.get_mut("B").unwrap().append_value(apml2.get("B").unwrap());
    apml.get_mut("B").unwrap().append_value(&apml2.read("B"));
    assert!(apml.get_mut("B").unwrap().eq_str("test bctest btest b"));
    assert_eq!(apml.remove("A"), Some(VariableValue::from_str("test b")));
    assert_eq!(apml.remove("A"), None);
    assert_eq!(apml.get("A"), None);
    apml.insert("A".to_string(), VariableValue::from_str("test"));
    assert!(apml.index("A").eq_str("test"));
    {
        let mut keys = apml.keys();
        keys.sort();
        assert_eq!(keys, vec!["A", "B", "VAR1"]);
    }
    {
        let mut entries = apml.iter().into_iter().map(|(k, _)| k).collect::<Vec<_>>();
        entries.sort();
        assert_eq!(entries, vec!["A", "B", "VAR1"]);
    }
    {
        let copy = ApmlContext::eval_source(CONTEXT_SRC).unwrap();
        let mut entries = copy.into_iter().into_iter().map(|(k, _)| k).collect::<Vec<_>>();
        entries.sort();
        assert_eq!(entries, vec!["A", "B", "VAR1"]);
    }
}
