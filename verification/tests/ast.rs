use srcsrv::AstNode;
use srcsrv::EvalError;
use srcsrv::EvalVarMap;
use srcsrv::ParseError;
use srcsrv::SrcSrvStream;

fn word(s: &str) -> Vec<char> {
    s.chars().collect()
}

fn tiny_stream() -> SrcSrvStream {
    let text = "SRCSRV: ini ------------------------------------------------\n\
VERSION=2\n\
SRCSRV: variables ------------------------------------------\n\
SRCSRVTRG=%var2%\n\
SRCSRV: source files ---------------------------------------\n\
a*b\n\
SRCSRV: end ------------------------------------------------\n";
    SrcSrvStream::parse(text.as_bytes()).unwrap()
}

#[test]
fn it_works() -> Result<(), ParseError> {
    assert_eq!(
        AstNode::try_from_str("hello")?,
        AstNode::LiteralString(word("hello"))
    );
    assert_eq!(
        AstNode::try_from_str("hello%world%")?,
        AstNode::Sequence(vec![
            AstNode::LiteralString(word("hello")),
            AstNode::Variable(word("world"))
        ])
    );
    assert_eq!(
        AstNode::try_from_str("%hello%world")?,
        AstNode::Sequence(vec![
            AstNode::Variable(word("hello")),
            AstNode::LiteralString(word("world"))
        ])
    );
    Ok(())
}

#[test]
fn empty_macro_is_empty_literal() {
    assert_eq!(
        AstNode::try_from_str("").unwrap(),
        AstNode::LiteralString(Vec::new())
    );
}

#[test]
fn function_names_are_case_insensitive() {
    assert_eq!(
        AstNode::try_from_str("%FnBkSl%(x)").unwrap(),
        AstNode::FnBackslash(Box::new(AstNode::LiteralString(word("x"))))
    );
}

#[test]
fn missing_percent_fails() {
    assert_eq!(
        AstNode::try_from_str("%abc").unwrap_err(),
        ParseError::MissingPercent
    );
}

#[test]
fn missing_opening_paren_fails() {
    assert_eq!(
        AstNode::try_from_str("%fnvar%x").unwrap_err(),
        ParseError::MissingOpeningParen("fnvar".to_string())
    );
    assert_eq!(
        AstNode::try_from_str("%fnfile%").unwrap_err(),
        ParseError::MissingOpeningParen("fnfile".to_string())
    );
}

#[test]
fn missing_closing_paren_fails() {
    assert_eq!(
        AstNode::try_from_str("%fnbksl%(abc").unwrap_err(),
        ParseError::MissingClosingParen("fnbksl".to_string())
    );
}

#[test]
fn eval_literal_returns_input() {
    let stream = tiny_stream();
    let mut map = EvalVarMap::new();
    let node = AstNode::try_from_str("just a literal, no references").unwrap();
    assert_eq!(
        node.eval(&stream, &mut map).unwrap(),
        "just a literal, no references".to_string()
    );
}

#[test]
fn eval_fnfile_takes_name_after_backslash() {
    let stream = tiny_stream();
    let node = AstNode::try_from_str("%fnfile%(%var1%)").unwrap();

    let mut map = EvalVarMap::new();
    map.set("var1".to_string(), "C:\\a\\b\\c.txt".to_string());
    assert_eq!(node.eval(&stream, &mut map).unwrap(), "c.txt".to_string());

    let mut map = EvalVarMap::new();
    map.set("var1".to_string(), "a/b/c".to_string());
    assert_eq!(node.eval(&stream, &mut map).unwrap(), "a/b/c".to_string());
}

#[test]
fn eval_fnbksl_turns_slashes_around() {
    let stream = tiny_stream();
    let node = AstNode::try_from_str("%fnbksl%(%var1%)").unwrap();
    let mut map = EvalVarMap::new();
    map.set("var1".to_string(), "a/b/c".to_string());
    assert_eq!(node.eval(&stream, &mut map).unwrap(), "a\\b\\c".to_string());
}

#[test]
fn eval_variable_names_ignore_case() {
    let stream = tiny_stream();
    for text in ["%VAR1%", "%var1%", "%Var1%"] {
        let node = AstNode::try_from_str(text).unwrap();
        let mut m = EvalVarMap::new();
        m.set("var1".to_string(), "value".to_string());
        assert_eq!(node.eval(&stream, &mut m).unwrap(), "value".to_string());
    }
}

#[test]
fn eval_unknown_variable_fails() {
    let stream = tiny_stream();
    let node = AstNode::try_from_str("%nosuchname%").unwrap();
    let mut map = EvalVarMap::new();
    assert_eq!(
        node.eval(&stream, &mut map).unwrap_err(),
        EvalError::UnknownVariable("nosuchname".to_string())
    );
}

#[test]
fn literal_inside_argument_stops_at_closing_paren() {
    assert_eq!(
        AstNode::try_from_str("%fnbksl%(a/b)tail").unwrap(),
        AstNode::Sequence(vec![
            AstNode::FnBackslash(Box::new(AstNode::LiteralString(word("a/b")))),
            AstNode::LiteralString(word("tail")),
        ])
    );
}

#[test]
fn empty_function_argument_is_empty_literal() {
    assert_eq!(
        AstNode::try_from_str("%fnvar%()").unwrap(),
        AstNode::FnVar(Box::new(AstNode::LiteralString(Vec::new())))
    );
}

#[test]
fn unterminated_argument_at_end_of_input_fails() {
    assert_eq!(
        AstNode::try_from_str("%fnvar%(").unwrap_err(),
        ParseError::MissingClosingParen("fnvar".to_string())
    );
}
