use linear_algebra::{process, Arguments, Opt};

fn opt(debug: bool, in_file: &str, out_file: &str) -> Opt {
    Opt {
        debug,
        in_file: in_file.to_string(),
        out_file: out_file.to_string(),
    }
}

#[test]
fn test_fmt_debug() {
    let args = Arguments {
        debug: false,
        input: "test-file.json".to_string(),
        out: None,
    };

    let fmt = args.debug_text();
    assert_eq!(fmt, "Debug: false\nInput: \"test-file.json\"\nOut: None\n");

    let args = Arguments {
        debug: true,
        input: "test-file.json".to_string(),
        out: Some("test-out.json".to_string()),
    };

    let fmt = args.debug_text();
    assert_eq!(
        fmt,
        "Debug: true\nInput: \"test-file.json\"\nOut: \"test-out.json\"\n"
    );
}

#[test]
fn test_cmd_partialeq() {
    let args = Arguments {
        debug: true,
        input: "test-file.json".to_string(),
        out: Some("test-out.json".to_string()),
    };

    assert_eq!(
        args,
        Arguments {
            debug: true,
            input: "test-file.json".to_string(),
            out: Some("test-out.json".to_string()),
        }
    );

    assert_ne!(
        args,
        Arguments {
            debug: false,
            input: "test-file.json".to_string(),
            out: Some("test-out.json".to_string()),
        }
    );

    assert_ne!(
        args,
        Arguments {
            debug: true,
            input: "different-test-file.json".to_string(),
            out: Some("test-out.json".to_string()),
        }
    );

    assert_ne!(
        args,
        Arguments {
            debug: true,
            input: "test-file.json".to_string(),
            out: Some("different-test-out.json".to_string()),
        }
    )
}

#[test]
fn process_test_only_input() {
    let file = "test-input.json";
    let expected = Arguments {
        debug: false,
        input: file.to_string(),
        out: None,
    };

    let args = process(opt(false, file, ""));

    assert_eq!(args, expected)
}

#[test]
fn process_test_out() {
    let input = "test-input.json";
    let out = "test-out.json";
    let expected = Arguments {
        debug: false,
        input: input.to_string(),
        out: Some(out.to_string()),
    };

    let args = process(opt(false, input, out));

    assert_eq!(args, expected)
}

#[test]
fn process_test_debug() {
    let input = "test-input.json";

    let expected = Arguments {
        debug: true,
        input: input.to_string(),
        out: None,
    };

    let args = process(opt(true, input, ""));

    assert_eq!(args, expected)
}

#[test]
fn debug_text_escapes_quotes() {
    let args = Arguments {
        debug: false,
        input: "a\"b".to_string(),
        out: None,
    };
    assert_eq!(args.debug_text(), "Debug: false\nInput: \"a\\\"b\"\nOut: None\n");
}
