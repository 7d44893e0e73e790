use srcsrv::EvalError;
use srcsrv::SourceRetrievalMethod;
use srcsrv::SrcSrvStream;

#[test]
fn download_end_to_end() {
    let text = "SRCSRV: ini ------------------------------------------------\n\
VERSION=2\n\
SRCSRV: variables ------------------------------------------\n\
HGSERVER=https://hg.example/repo\n\
HTTP_EXTRACT_TARGET=%hgserver%/raw-file/%var3%/%var2%\n\
SRCSRVTRG=%http_extract_target%\n\
SRCSRV: source files ---------------------------------------\n\
/a/b/file.cpp*rel/file.cpp*deadbeef\n\
SRCSRV: end ------------------------------------------------\n";
    let stream = SrcSrvStream::parse(text.as_bytes()).unwrap();
    assert_eq!(
        stream.source_for_path("/a/b/file.cpp", "C:\\out").unwrap().unwrap(),
        SourceRetrievalMethod::Download {
            url: "https://hg.example/repo/raw-file/deadbeef/rel/file.cpp".to_string()
        }
    );
}

#[test]
fn environment_block_is_split_and_malformed_entries_dropped() {
    let text = "SRCSRV: ini ------------------------------------------------\n\
VERSION=2\n\
SRCSRV: variables ------------------------------------------\n\
SRCSRVTRG=%targ%\\out.txt\n\
SRCSRVCMD=fetch.exe %var1%\n\
SRCSRVENV=A=1\u{8}B=2\u{8}BAD\n\
SRCSRV: source files ---------------------------------------\n\
/a/b/file.cpp*rel/file.cpp\n\
SRCSRV: end ------------------------------------------------\n";
    let stream = SrcSrvStream::parse(text.as_bytes()).unwrap();
    let method = stream
        .source_for_path("/a/b/file.cpp", "C:\\out")
        .unwrap()
        .unwrap();
    assert_eq!(
        method,
        SourceRetrievalMethod::ExecuteCommand {
            command: "fetch.exe /a/b/file.cpp".to_string(),
            env: vec![
                ("A".to_string(), "1".to_string()),
                ("B".to_string(), "2".to_string()),
            ],
            version_ctrl: None,
            target_path: "C:\\out\\out.txt".to_string(),
            error_persistence_version_control: None,
        }
    );
}

#[test]
fn unknown_path_yields_none_not_an_error() {
    let text = "SRCSRV: ini ------------------------------------------------\n\
VERSION=2\n\
SRCSRV: variables ------------------------------------------\n\
SRCSRVTRG=%var2%\n\
SRCSRV: source files ---------------------------------------\n\
/a/b/file.cpp*rel/file.cpp\n\
SRCSRV: end ------------------------------------------------\n";
    let stream = SrcSrvStream::parse(text.as_bytes()).unwrap();
    assert_eq!(
        stream.source_for_path("/nonexistent/path", "C:\\out").unwrap(),
        None
    );
}

#[test]
fn mutual_references_fail_with_recursion_error() {
    let text = "SRCSRV: ini ------------------------------------------------\n\
VERSION=2\n\
SRCSRV: variables ------------------------------------------\n\
A=%B%\n\
B=%A%\n\
SRCSRVTRG=%A%\n\
SRCSRV: source files ---------------------------------------\n\
/a/b/file.cpp*rel/file.cpp\n\
SRCSRV: end ------------------------------------------------\n";
    let stream = SrcSrvStream::parse(text.as_bytes()).unwrap();
    assert_eq!(
        stream.source_for_path("/a/b/file.cpp", "C:\\out").unwrap_err(),
        EvalError::Recursion("a".to_string())
    );
}

#[test]
fn unknown_variable_reference_fails() {
    let text = "SRCSRV: ini ------------------------------------------------\n\
VERSION=2\n\
SRCSRV: variables ------------------------------------------\n\
SRCSRVTRG=%missing%\n\
SRCSRV: source files ---------------------------------------\n\
/a/b/file.cpp*rel/file.cpp\n\
SRCSRV: end ------------------------------------------------\n";
    let stream = SrcSrvStream::parse(text.as_bytes()).unwrap();
    assert_eq!(
        stream.source_for_path("/a/b/file.cpp", "C:\\out").unwrap_err(),
        EvalError::UnknownVariable("missing".to_string())
    );
}

#[test]
fn variable_references_resolve_case_insensitively() {
    for reference in ["%VAR2%", "%var2%", "%Var2%"] {
        let text = format!(
            "SRCSRV: ini ------------------------------------------------\n\
VERSION=2\n\
SRCSRV: variables ------------------------------------------\n\
SRCSRVTRG=http://example/{}\n\
SRCSRV: source files ---------------------------------------\n\
/a/b/file.cpp*rel/file.cpp\n\
SRCSRV: end ------------------------------------------------\n",
            reference
        );
        let stream = SrcSrvStream::parse(text.as_bytes()).unwrap();
        assert_eq!(
            stream.source_for_path("/a/b/file.cpp", "C:\\out").unwrap().unwrap(),
            SourceRetrievalMethod::Download {
                url: "http://example/rel/file.cpp".to_string()
            }
        );
    }
}

#[test]
fn path_lookup_is_case_insensitive() {
    let text = "SRCSRV: ini ------------------------------------------------\n\
VERSION=2\n\
SRCSRV: variables ------------------------------------------\n\
SRCSRVTRG=https://example/%var2%\n\
SRCSRV: source files ---------------------------------------\n\
C:\\Src\\File.CPP*rel/file.cpp\n\
SRCSRV: end ------------------------------------------------\n";
    let stream = SrcSrvStream::parse(text.as_bytes()).unwrap();
    assert_eq!(
        stream.source_for_path("c:\\src\\file.cpp", "C:\\out").unwrap().unwrap(),
        SourceRetrievalMethod::Download {
            url: "https://example/rel/file.cpp".to_string()
        }
    );
}

#[test]
fn unclassified_target_carries_resolved_values() {
    let text = "SRCSRV: ini ------------------------------------------------\n\
VERSION=2\n\
SRCSRV: variables ------------------------------------------\n\
SRCSRVTRG=plain-target/%var2%\n\
SRCSRV: source files ---------------------------------------\n\
/a/b/file.cpp*rel/file.cpp\n\
SRCSRV: end ------------------------------------------------\n";
    let stream = SrcSrvStream::parse(text.as_bytes()).unwrap();
    let (method, values) = stream
        .source_and_raw_var_values_for_path("/a/b/file.cpp", "C:\\out")
        .unwrap()
        .unwrap();
    assert_eq!(values.get("srcsrvtrg"), Some("plain-target/rel/file.cpp".to_string()));
    assert_eq!(values.get("targ"), Some("C:\\out".to_string()));
    assert_eq!(values.get("var1"), Some("/a/b/file.cpp".to_string()));
    assert_eq!(values.get("var2"), Some("rel/file.cpp".to_string()));
    match method {
        SourceRetrievalMethod::Other { raw_var_values } => {
            assert_eq!(
                raw_var_values.get("srcsrvtrg"),
                Some("plain-target/rel/file.cpp".to_string())
            );
        },
        other => panic!("expected an unclassified method, got {:?}", other),
    }
}

#[test]
fn memoized_variable_resolves_to_same_value() {
    // Both top-level fields resolve through the same variable; the
    // second resolution reads the memoized binding and both fields see
    // one identical value.
    let text = "SRCSRV: ini ------------------------------------------------\n\
VERSION=2\n\
SRCSRV: variables ------------------------------------------\n\
SHARED=%var2%-suffix\n\
SRCSRVTRG=%shared%\n\
SRCSRVVERCTRL=%shared%\n\
SRCSRV: source files ---------------------------------------\n\
/a/b/file.cpp*rel/file.cpp\n\
SRCSRV: end ------------------------------------------------\n";
    let stream = SrcSrvStream::parse(text.as_bytes()).unwrap();
    let (_, values) = stream
        .source_and_raw_var_values_for_path("/a/b/file.cpp", "C:\\out")
        .unwrap()
        .unwrap();
    assert_eq!(values.get("srcsrvtrg"), Some("rel/file.cpp-suffix".to_string()));
    assert_eq!(values.get("srcsrvverctrl"), Some("rel/file.cpp-suffix".to_string()));
    assert_eq!(values.get("shared"), Some("rel/file.cpp-suffix".to_string()));
}

#[test]
fn record_with_missing_positional_field_fails_resolution() {
    // The macro references %var3% but the record supplies only two
    // fields, so the reference is an unknown variable.
    let text = "SRCSRV: ini ------------------------------------------------\n\
VERSION=2\n\
SRCSRV: variables ------------------------------------------\n\
SRCSRVTRG=https://example/%var3%\n\
SRCSRV: source files ---------------------------------------\n\
/a/b/file.cpp*rel/file.cpp\n\
SRCSRV: end ------------------------------------------------\n";
    let stream = SrcSrvStream::parse(text.as_bytes()).unwrap();
    assert_eq!(
        stream.source_for_path("/a/b/file.cpp", "C:\\out").unwrap_err(),
        EvalError::UnknownVariable("var3".to_string())
    );
}

#[test]
fn excess_positional_fields_fold_into_the_tenth() {
    // Twelve candidate fields: the tenth takes the rest of the line,
    // delimiters included.
    let text = "SRCSRV: ini ------------------------------------------------\n\
VERSION=2\n\
SRCSRV: variables ------------------------------------------\n\
SRCSRVTRG=https://example/%var10%\n\
SRCSRV: source files ---------------------------------------\n\
p*f2*f3*f4*f5*f6*f7*f8*f9*f10*f11*f12\n\
SRCSRV: end ------------------------------------------------\n";
    let stream = SrcSrvStream::parse(text.as_bytes()).unwrap();
    assert_eq!(
        stream.source_for_path("p", "C:\\out").unwrap().unwrap(),
        SourceRetrievalMethod::Download {
            url: "https://example/f10*f11*f12".to_string()
        }
    );
}

#[test]
fn error_persistence_value_comes_from_named_positional_field() {
    let text = "SRCSRV: ini ------------------------------------------------\n\
VERSION=2\n\
SRCSRV: variables ------------------------------------------\n\
SRCSRVTRG=%targ%\\x\n\
SRCSRVCMD=run %var2%\n\
SRCSRVERRVAR=var2\n\
SRCSRV: source files ---------------------------------------\n\
/a/b/file.cpp*backend-seven\n\
SRCSRV: end ------------------------------------------------\n";
    let stream = SrcSrvStream::parse(text.as_bytes()).unwrap();
    match stream.source_for_path("/a/b/file.cpp", "C:\\out").unwrap().unwrap() {
        SourceRetrievalMethod::ExecuteCommand {
            error_persistence_version_control,
            ..
        } => {
            assert_eq!(
                error_persistence_version_control,
                Some("backend-seven".to_string())
            );
        },
        other => panic!("expected a command, got {:?}", other),
    }
}
