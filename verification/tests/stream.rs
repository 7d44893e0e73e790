use srcsrv::ParseError;
use srcsrv::SourceRetrievalMethod;
use srcsrv::SrcSrvStream;

#[test]
fn firefox() {
    let stream = r#"SRCSRV: ini ------------------------------------------------
VERSION=2
INDEXVERSION=2
VERCTRL=http
SRCSRV: variables ------------------------------------------
HGSERVER=https://hg.mozilla.org/mozilla-central
SRCSRVVERCTRL=http
HTTP_EXTRACT_TARGET=%hgserver%/raw-file/%var3%/%var2%
SRCSRVTRG=%http_extract_target%
SRCSRV: source files ---------------------------------------
/builds/worker/checkouts/gecko/mozglue/build/SSE.cpp*mozglue/build/SSE.cpp*1706d4d54ec68fae1280305b70a02cb24c16ff68
/builds/worker/checkouts/gecko/memory/build/mozjemalloc.cpp*memory/build/mozjemalloc.cpp*1706d4d54ec68fae1280305b70a02cb24c16ff68
/builds/worker/checkouts/gecko/vs2017_15.8.4/VC/include/algorithm*vs2017_15.8.4/VC/include/algorithm*1706d4d54ec68fae1280305b70a02cb24c16ff68
/builds/worker/checkouts/gecko/mozglue/baseprofiler/core/ProfilerBacktrace.cpp*mozglue/baseprofiler/core/ProfilerBacktrace.cpp*1706d4d54ec68fae1280305b70a02cb24c16ff68
/builds/worker/workspace/obj-build/dist/include/mozilla/IntegerRange.h*mfbt/IntegerRange.h*1706d4d54ec68fae1280305b70a02cb24c16ff68
SRCSRV: end ------------------------------------------------


"#;
    let stream = SrcSrvStream::parse(stream.as_bytes()).unwrap();
    assert_eq!(stream.version(), 2);
    assert_eq!(stream.datetime(), None);
    assert_eq!(
        stream.version_control_description(),
        Some("http".to_string())
    );
    assert_eq!(
        stream
            .source_for_path(
                r#"/builds/worker/checkouts/gecko/mozglue/baseprofiler/core/ProfilerBacktrace.cpp"#,
                r#"C:\Debugger\Cached Sources"#
            )
            .unwrap()
            .unwrap(),
        SourceRetrievalMethod::Download {
            url: "https://hg.mozilla.org/mozilla-central/raw-file/1706d4d54ec68fae1280305b70a02cb24c16ff68/mozglue/baseprofiler/core/ProfilerBacktrace.cpp".to_string()
        }
    );
}

#[test]
fn chrome() {
    let stream = r#"SRCSRV: ini ------------------------------------------------
VERSION=1
INDEXVERSION=2
VERCTRL=Subversion
DATETIME=Fri Jul 30 14:11:46 2021
SRCSRV: variables ------------------------------------------
SRC_EXTRACT_TARGET_DIR=%targ%\%fnbksl%(%var2%)\%var3%
SRC_EXTRACT_TARGET=%SRC_EXTRACT_TARGET_DIR%\%fnfile%(%var1%)
SRC_EXTRACT_CMD=cmd /c "mkdir "%SRC_EXTRACT_TARGET_DIR%" & python -c "import urllib2, base64;url = \"%var4%\";u = urllib2.urlopen(url);open(r\"%SRC_EXTRACT_TARGET%\", \"wb\").write(%var5%(u.read()))"
SRCSRVTRG=%SRC_EXTRACT_TARGET%
SRCSRVCMD=%SRC_EXTRACT_CMD%
SRCSRV: source files ---------------------------------------
c:\b\s\w\ir\cache\builder\src\third_party\pdfium\core\fdrm\fx_crypt.cpp*core/fdrm/fx_crypt.cpp*dab1161c861cc239e48a17e1a5d729aa12785a53*https://pdfium.googlesource.com/pdfium.git/+/dab1161c861cc239e48a17e1a5d729aa12785a53/core/fdrm/fx_crypt.cpp?format=TEXT*base64.b64decode
c:\b\s\w\ir\cache\builder\src\third_party\pdfium\core\fdrm\fx_crypt_aes.cpp*core/fdrm/fx_crypt_aes.cpp*dab1161c861cc239e48a17e1a5d729aa12785a53*https://pdfium.googlesource.com/pdfium.git/+/dab1161c861cc239e48a17e1a5d729aa12785a53/core/fdrm/fx_crypt_aes.cpp?format=TEXT*base64.b64decode
SRCSRV: end ------------------------------------------------"#;
    let stream = SrcSrvStream::parse(stream.as_bytes()).unwrap();
    assert_eq!(stream.version(), 1);
    assert_eq!(
        stream.datetime(),
        Some("Fri Jul 30 14:11:46 2021".to_string())
    );
    assert_eq!(
        stream.version_control_description(),
        Some("Subversion".to_string())
    );
    assert_eq!(
        stream
            .source_for_path(
                r#"c:\b\s\w\ir\cache\builder\src\third_party\pdfium\core\fdrm\fx_crypt.cpp"#,
                r#"C:\Debugger\Cached Sources"#,
            )
            .unwrap()
            .unwrap(),
        SourceRetrievalMethod::ExecuteCommand {
            command: r#"cmd /c "mkdir "C:\Debugger\Cached Sources\core\fdrm\fx_crypt.cpp\dab1161c861cc239e48a17e1a5d729aa12785a53" & python -c "import urllib2, base64;url = \"https://pdfium.googlesource.com/pdfium.git/+/dab1161c861cc239e48a17e1a5d729aa12785a53/core/fdrm/fx_crypt.cpp?format=TEXT\";u = urllib2.urlopen(url);open(r\"C:\Debugger\Cached Sources\core\fdrm\fx_crypt.cpp\dab1161c861cc239e48a17e1a5d729aa12785a53\fx_crypt.cpp\", \"wb\").write(base64.b64decode(u.read()))""#.to_string(),
            env: Vec::new(),
            target_path: r#"C:\Debugger\Cached Sources\core\fdrm\fx_crypt.cpp\dab1161c861cc239e48a17e1a5d729aa12785a53\fx_crypt.cpp"#.to_string(),
            version_ctrl: None,
            error_persistence_version_control: None,
        }
    );
}

#[test]
fn team_foundation() {
    let stream = r#"SRCSRV: ini ------------------------------------------------
VERSION=3
INDEXVERSION=2
VERCTRL=Team Foundation Server
DATETIME=Thu Mar 10 16:15:55 2016
SRCSRV: variables ------------------------------------------
TFS_EXTRACT_CMD=tf.exe view /version:%var4% /noprompt "$%var3%" /server:%fnvar%(%var2%) /output:%srcsrvtrg%
TFS_EXTRACT_TARGET=%targ%\%var2%%fnbksl%(%var3%)\%var4%\%fnfile%(%var1%)
VSTFDEVDIV_DEVDIV2=http://vstfdevdiv.redmond.corp.microsoft.com:8080/DevDiv2
SRCSRVVERCTRL=tfs
SRCSRVERRDESC=access
SRCSRVERRVAR=var2
SRCSRVTRG=%TFS_extract_target%
SRCSRVCMD=%TFS_extract_cmd%
SRCSRV: source files ---------------------------------------
f:\dd\externalapis\legacy\vctools\vc12\inc\cvconst.h*VSTFDEVDIV_DEVDIV2*/DevDiv/Fx/Rel/NetFxRel3Stage/externalapis/legacy/vctools/vc12/inc/cvconst.h*1363200
f:\dd\externalapis\legacy\vctools\vc12\inc\cvinfo.h*VSTFDEVDIV_DEVDIV2*/DevDiv/Fx/Rel/NetFxRel3Stage/externalapis/legacy/vctools/vc12/inc/cvinfo.h*1363200
f:\dd\externalapis\legacy\vctools\vc12\inc\vc\ammintrin.h*VSTFDEVDIV_DEVDIV2*/DevDiv/Fx/Rel/NetFxRel3Stage/externalapis/legacy/vctools/vc12/inc/vc/ammintrin.h*1363200
SRCSRV: end ------------------------------------------------"#;
    let stream = SrcSrvStream::parse(stream.as_bytes()).unwrap();
    assert_eq!(stream.version(), 3);
    assert_eq!(
        stream.datetime(),
        Some("Thu Mar 10 16:15:55 2016".to_string())
    );
    assert_eq!(
        stream.version_control_description(),
        Some("Team Foundation Server".to_string())
    );
    assert_eq!(
        stream
            .source_for_path(
                r#"F:\dd\externalapis\legacy\vctools\vc12\inc\cvinfo.h"#,
                r#"C:\Debugger\Cached Sources"#,
            )
            .unwrap()
            .unwrap(),
        SourceRetrievalMethod::ExecuteCommand {
            command: r#"tf.exe view /version:1363200 /noprompt "$/DevDiv/Fx/Rel/NetFxRel3Stage/externalapis/legacy/vctools/vc12/inc/cvinfo.h" /server:http://vstfdevdiv.redmond.corp.microsoft.com:8080/DevDiv2 /output:C:\Debugger\Cached Sources\VSTFDEVDIV_DEVDIV2\DevDiv\Fx\Rel\NetFxRel3Stage\externalapis\legacy\vctools\vc12\inc\cvinfo.h\1363200\cvinfo.h"#.to_string(),
            env: Vec::new(),
            version_ctrl: Some("tfs".to_string()),
            target_path: r#"C:\Debugger\Cached Sources\VSTFDEVDIV_DEVDIV2\DevDiv\Fx\Rel\NetFxRel3Stage\externalapis\legacy\vctools\vc12\inc\cvinfo.h\1363200\cvinfo.h"#.to_string(),
            error_persistence_version_control: Some("VSTFDEVDIV_DEVDIV2".to_string()),
        }
    );
}

#[test]
fn renderdoc() {
    let stream = r#"SRCSRV: ini ------------------------------------------------
VERSION=2
VERCTRL=http
SRCSRV: variables ------------------------------------------
HTTP_ALIAS=https://raw.githubusercontent.com/baldurk/renderdoc/v1.15/
HTTP_EXTRACT_TARGET=%HTTP_ALIAS%%var2%
SRCSRVTRG=%HTTP_EXTRACT_TARGET%
SRCSRV: source files ---------------------------------------
C:\build\renderdoc\qrenderdoc\Code\BufferFormatter.cpp*qrenderdoc/Code/BufferFormatter.cpp
C:\build\renderdoc\qrenderdoc\Windows\Dialogs\AnalyticsConfirmDialog.cpp*qrenderdoc/Windows/Dialogs/AnalyticsConfirmDialog.cpp
C:\build\renderdoc\renderdoc\data\glsl\gl_texsample.h*renderdoc/data/glsl/gl_texsample.h
C:\build\renderdoc\renderdoc\driver\d3d12\d3d12_device.cpp*renderdoc/driver/d3d12/d3d12_device.cpp
C:\build\renderdoc\renderdoc\maths\matrix.cpp*renderdoc/maths/matrix.cpp
C:\build\renderdoc\util\test\demos\texture_zoo.cpp*util/test/demos/texture_zoo.cpp
C:\build\renderdoc\Win32\Release\renderdoc_app.h*Win32/Release/renderdoc_app.h
C:\build\renderdoc\x64\Release\renderdoc_app.h*x64/Release/renderdoc_app.h
SRCSRV: end ------------------------------------------------"#;
    let stream = SrcSrvStream::parse(stream.as_bytes()).unwrap();
    assert_eq!(stream.version(), 2);
    assert_eq!(stream.datetime(), None);
    assert_eq!(
        stream.version_control_description(),
        Some("http".to_string())
    );
    assert_eq!(
        stream
            .source_for_path(
                r#"C:\build\renderdoc\renderdoc\data\glsl\gl_texsample.h"#,
                r#"C:\Debugger\Cached Sources"#,
            )
            .unwrap()
            .unwrap(),
        SourceRetrievalMethod::Download {
            url: "https://raw.githubusercontent.com/baldurk/renderdoc/v1.15/renderdoc/data/glsl/gl_texsample.h".to_string(),
        }
    );
}

#[test]
fn invalid_utf8_is_rejected() {
    assert_eq!(
        SrcSrvStream::parse(&[0xff, 0xfe, 0x00]).unwrap_err(),
        ParseError::InvalidUtf8
    );
}

#[test]
fn missing_ini_section_is_rejected() {
    assert_eq!(
        SrcSrvStream::parse(b"hello\nworld\n").unwrap_err(),
        ParseError::MissingIniSection
    );
}

#[test]
fn empty_stream_is_rejected() {
    assert_eq!(
        SrcSrvStream::parse(b"").unwrap_err(),
        ParseError::UnexpectedEof
    );
}

#[test]
fn truncated_stream_is_rejected() {
    assert_eq!(
        SrcSrvStream::parse(b"SRCSRV: ini --\nVERSION=2\n").unwrap_err(),
        ParseError::UnexpectedEof
    );
}

#[test]
fn field_line_without_equals_is_rejected() {
    assert_eq!(
        SrcSrvStream::parse(b"SRCSRV: ini --\nVERSION\nSRCSRV: end --\n").unwrap_err(),
        ParseError::MissingEquals
    );
}

#[test]
fn missing_version_is_rejected() {
    assert_eq!(
        SrcSrvStream::parse(b"SRCSRV: ini --\nSRCSRV: end --\n").unwrap_err(),
        ParseError::MissingVersion
    );
}

#[test]
fn unrecognized_version_is_rejected() {
    assert_eq!(
        SrcSrvStream::parse(b"SRCSRV: ini --\nVERSION=4\nSRCSRV: end --\n").unwrap_err(),
        ParseError::UnrecognizedVersion("4".to_string())
    );
}

#[test]
fn missing_variables_section_is_rejected() {
    assert_eq!(
        SrcSrvStream::parse(b"SRCSRV: ini --\nVERSION=2\nSRCSRV: end --\n").unwrap_err(),
        ParseError::MissingVariablesSection
    );
}

#[test]
fn missing_srcsrvtrg_is_rejected() {
    let text = b"SRCSRV: ini --\nVERSION=2\nSRCSRV: variables --\nA=b\nSRCSRV: end --\n";
    assert_eq!(
        SrcSrvStream::parse(text).unwrap_err(),
        ParseError::MissingSrcSrvTrgField
    );
}

#[test]
fn missing_source_files_section_is_rejected() {
    let text = b"SRCSRV: ini --\nVERSION=2\nSRCSRV: variables --\nSRCSRVTRG=x\nSRCSRV: end --\n";
    assert_eq!(
        SrcSrvStream::parse(text).unwrap_err(),
        ParseError::MissingSourceFilesSection
    );
}

#[test]
fn missing_end_marker_is_rejected() {
    // The sections before the terminator are all valid; only the end
    // marker line is wrong.
    let text = b"SRCSRV: ini --\nVERSION=2\nSRCSRV: variables --\nSRCSRVTRG=x\nSRCSRV: source files --\na*b\nSRCSRV: over --\n";
    assert_eq!(
        SrcSrvStream::parse(text).unwrap_err(),
        ParseError::MissingTerminationLine
    );
}

#[test]
fn bad_macro_in_variables_fails_parse() {
    let text = b"SRCSRV: ini --\nVERSION=2\nSRCSRV: variables --\nSRCSRVTRG=%oops\nSRCSRV: end --\n";
    assert_eq!(
        SrcSrvStream::parse(text).unwrap_err(),
        ParseError::MissingPercent
    );
}

#[test]
fn ini_fields_are_case_insensitive_and_last_write_wins() {
    let text = b"SRCSRV: ini --\nVERSION=2\nDATETIME=a\nDateTime=b\nSRCSRV: variables --\nSRCSRVTRG=x\nSRCSRV: source files --\na*b\nSRCSRV: end --\n";
    let stream = SrcSrvStream::parse(text).unwrap();
    assert_eq!(stream.get_ini_field("dAtEtImE"), Some("b".to_string()));
    assert_eq!(stream.datetime(), Some("b".to_string()));
    assert_eq!(stream.index_version(), None);
    assert_eq!(stream.get_ini_field("missing"), None);
}

#[test]
fn raw_variables_are_unevaluated() {
    let text = b"SRCSRV: ini --\nVERSION=2\nSRCSRV: variables --\nSRCSRVTRG=%a%%b%\nSRCSRV: source files --\na*b\nSRCSRV: end --\n";
    let stream = SrcSrvStream::parse(text).unwrap();
    assert_eq!(stream.get_raw_var("SrcSrvTrg"), Some("%a%%b%".to_string()));
    assert_eq!(stream.get_raw_var("other"), None);
}

#[test]
fn error_persistence_strings_come_from_errdesc_variables() {
    let text = b"SRCSRV: ini --\nVERSION=3\nSRCSRV: variables --\nSRCSRVTRG=x\nSRCSRVERRDESC=access\nSRCSRVERRVAR=var2\nSRCSRV: source files --\na*b\nSRCSRV: end --\n";
    let stream = SrcSrvStream::parse(text).unwrap();
    assert_eq!(
        stream.error_persistence_command_output_strings(),
        vec!["access".to_string()]
    );
}

#[test]
fn error_persistence_strings_are_deduplicated() {
    let text = b"SRCSRV: ini --\nVERSION=2\nSRCSRV: variables --\nSRCSRVTRG=x\nSRCSRVERRDESC=access\nSRCSRVERRDESCTWO=denied\nSRCSRVERRDESCTHREE=access\nSRCSRV: source files --\na*b\nSRCSRV: end --\n";
    let stream = SrcSrvStream::parse(text).unwrap();
    let mut strings = stream.error_persistence_command_output_strings();
    strings.sort();
    assert_eq!(strings, vec!["access".to_string(), "denied".to_string()]);
}

#[test]
fn crlf_line_endings_are_accepted() {
    let text = "SRCSRV: ini --\r\nVERSION=2\r\nSRCSRV: variables --\r\nSRCSRVTRG=https://example/%var2%\r\nSRCSRV: source files --\r\n/a/b/file.cpp*rel/file.cpp\r\nSRCSRV: end --\r\n";
    let stream = SrcSrvStream::parse(text.as_bytes()).unwrap();
    assert_eq!(stream.version(), 2);
    assert_eq!(
        stream.source_for_path("/a/b/file.cpp", "C:\\out").unwrap().unwrap(),
        SourceRetrievalMethod::Download {
            url: "https://example/rel/file.cpp".to_string()
        }
    );
}
