use jwx_rs::args::{parse_args, ArgDefinition};

fn definitions() -> Vec<ArgDefinition> {
    vec![
        ArgDefinition { name: "--help".to_string(), shorthand: Some("-h".to_string()), has_value: false },
        ArgDefinition { name: "--port".to_string(), shorthand: Some("-p".to_string()), has_value: true },
        ArgDefinition { name: "--config-dir".to_string(), shorthand: None, has_value: true },
    ]
}

fn args(list: &[&str]) -> Vec<String> {
    list.iter().map(|s| s.to_string()).collect()
}

#[test]
pub fn no_arguments_give_no_values() {
    assert_eq!(parse_args(&args(&[]), &definitions()).unwrap().len(), 0);
    assert_eq!(parse_args(&args(&["prog"]), &definitions()).unwrap().len(), 0);
}

#[test]
pub fn flags_and_options_are_read() {
    let values =
        parse_args(&args(&["prog", "-h", "--port", "80", "--config-dir", "x"]), &definitions())
            .unwrap();
    assert_eq!(values.len(), 3);
    assert_eq!(values.get("--help").unwrap(), "true");
    assert_eq!(values.get("--port").unwrap(), "80");
    assert_eq!(values.get("--config-dir").unwrap(), "x");
    let values = parse_args(&args(&["prog", "-p", "81"]), &definitions()).unwrap();
    assert_eq!(values.get("--port").unwrap(), "81");
}

#[test]
pub fn refused_arguments_are_named() {
    assert_eq!(
        parse_args(&args(&["prog", "what"]), &definitions()).unwrap_err(),
        "Unknown argument what"
    );
    assert_eq!(
        parse_args(&args(&["prog", "--port"]), &definitions()).unwrap_err(),
        "No value provided for argument --port"
    );
    assert_eq!(
        parse_args(&args(&["prog", "--port", "-h"]), &definitions()).unwrap_err(),
        "No value provided for argument -h"
    );
    assert_eq!(
        parse_args(&args(&["prog", "-h", "--help"]), &definitions()).unwrap_err(),
        "Argument --help already provided"
    );
    assert_eq!(
        parse_args(&args(&["prog", "-p", "1", "--port", "2"]), &definitions()).unwrap_err(),
        "Argument --port already provided"
    );
}
