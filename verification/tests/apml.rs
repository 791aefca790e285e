use apml::ApmlContext;
use apml::ApmlError;
use apml::ApmlLst;
use apml::VariableValue;
use apml::lst::ParseErrorKind;

#[test]
fn test_variable_value_string() {
    assert_eq!(VariableValue::default().as_string(), "");
    assert_eq!(VariableValue::String("test".into()).as_string(), "test");
    assert_eq!(VariableValue::String("test".into()).into_string(), "test");
    assert_eq!(
        VariableValue::String("".into()).as_array(),
        Vec::<String>::new()
    );
    assert_eq!(
        VariableValue::String("test".into()).into_array(),
        vec!["test".to_string()]
    );
    assert_eq!(
        VariableValue::String("".into()).into_array(),
        Vec::<String>::new()
    );
    assert_eq!(VariableValue::String("test".into()).len(), 4);
    assert!(VariableValue::String("".into()).is_empty());
    assert!(!VariableValue::String("test".into()).is_empty());
    assert_eq!(
        VariableValue::String("test".into())
            .concat("test".into())
            .concat(VariableValue::String("test".into())),
        "testtesttest".into()
    );
}

#[test]
fn test_variable_value_array() {
    assert!(VariableValue::default().as_array().is_empty());
    assert_eq!(
        VariableValue::Array(vec!["test".into()]).as_string(),
        "test"
    );
    assert_eq!(
        VariableValue::Array(vec!["test".into()]).into_string(),
        "test"
    );
    assert_eq!(
        VariableValue::Array(vec!["test".into()]).as_array(),
        vec!["test".to_string()]
    );
    assert_eq!(
        VariableValue::Array(vec!["test".into()]).into_array(),
        vec!["test".to_string()]
    );
    assert_eq!(VariableValue::Array(vec!["test".into()]).len(), 1);
    assert!(VariableValue::Array(vec![]).is_empty());
    assert!(!VariableValue::Array(vec!["".into()]).is_empty());
    assert!(!VariableValue::Array(vec!["test".into()]).is_empty());
    assert_eq!(
        VariableValue::Array(vec!["test".into()])
            .concat(VariableValue::Array(vec!["test".into()]))
            .concat(VariableValue::Array(vec!["test".into()])),
        VariableValue::Array(vec!["test".into(), "test".into(), "test".into()])
    );
}

#[test]
fn test_apml_parse() {
    let apml = ApmlContext::eval_source(
        r##"# Test APML

PKGVER=8.2
PKGDEP="x11-lib libdrm expat systemd elfutils libvdpau nettle \
        libva wayland s2tc lm-sensors libglvnd llvm-runtime libclc"
MESON_AFTER="-Ddri-drivers-path=/usr/lib/xorg/modules/dri \
             -Db_ndebug=true"
MESON_AFTER__AMD64=" \
             ${MESON_AFTER} \
             -Dlibunwind=true"
A="${b[@]}"
"##,
    )
    .unwrap();
    println!("{:?}", &apml);
}

#[test]
fn plain_assignment_yields_text() {
    let ctx = ApmlContext::eval_source("PKGVER=8.2").unwrap();
    assert_eq!(
        ctx.get("PKGVER"),
        Some(&VariableValue::String("8.2".to_string()))
    );
    assert_eq!(ctx.read("PKGVER").as_string(), "8.2");
}

#[test]
fn continuation_joins_lines_keeping_whitespace() {
    let ctx =
        ApmlContext::eval_source("PKGDEP=\"x11-lib libdrm expat \\\n        nettle\"\n").unwrap();
    assert_eq!(
        ctx.read("PKGDEP").as_string(),
        "x11-lib libdrm expat         nettle"
    );
}

#[test]
fn expansion_reads_earlier_assignment() {
    let ctx = ApmlContext::eval_source(
        "MESON_AFTER=\"-Dfoo=true\"\nMESON_AFTER__AMD64=\" ${MESON_AFTER} -Dbar=true\"\n",
    )
    .unwrap();
    assert_eq!(
        ctx.read("MESON_AFTER__AMD64").as_string(),
        " -Dfoo=true -Dbar=true"
    );
}

#[test]
fn array_expansion_of_unassigned_name_is_empty() {
    let ctx = ApmlContext::eval_source("A=\"${b[@]}\"").unwrap();
    let value = ctx.read("A");
    assert!(value.is_empty());
    assert_eq!(value, VariableValue::Array(vec![]));
}

#[test]
fn unterminated_quote_is_a_parse_error() {
    let result = ApmlContext::eval_source("PKGVER=\"");
    match result {
        Err(ApmlError::Parse(e)) => {
            assert_eq!(e.kind, ParseErrorKind::UnterminatedQuote);
            assert_eq!(e.pos, 7);
        }
        other => panic!("expected a parse error, got {:?}", other),
    }
}

#[test]
fn undefined_scalar_expansion_is_empty_text() {
    let ctx = ApmlContext::eval_source("A=$UNDEF\nB=\"x${MISSING}y\"\n").unwrap();
    assert_eq!(ctx.read("A"), VariableValue::String(String::new()));
    assert_eq!(ctx.read("B").as_string(), "xy");
    assert_eq!(ctx.read("NEVER_SET"), VariableValue::default());
    assert_eq!(ctx.get("NEVER_SET"), None);
}

#[test]
fn last_write_wins_and_earlier_value_stays_visible_between() {
    let ctx = ApmlContext::eval_source("A=1\nB=$A\nA=2\n").unwrap();
    assert_eq!(ctx.read("A").as_string(), "2");
    assert_eq!(ctx.read("B").as_string(), "1");
}

#[test]
fn first_segment_type_fixes_result_type() {
    let ctx = ApmlContext::eval_source("X=x\nL=\"${X[@]}\"rest\nT=a\"${X[@]}\"\n").unwrap();
    assert_eq!(
        ctx.read("L"),
        VariableValue::Array(vec!["x".to_string(), "rest".to_string()])
    );
    assert_eq!(ctx.read("T"), VariableValue::String("ax".to_string()));
}

#[test]
fn concat_keeps_left_operand_type() {
    let text = VariableValue::String("a".to_string());
    let array = VariableValue::Array(vec!["b".to_string(), "c".to_string()]);
    assert_eq!(
        text.clone().concat(array.clone()),
        VariableValue::String("ab c".to_string())
    );
    assert_eq!(
        array.clone().concat(text.clone()),
        VariableValue::Array(vec!["b".to_string(), "c".to_string(), "a".to_string()])
    );
    let empty = VariableValue::String(String::new());
    assert_eq!(
        array.concat(empty),
        VariableValue::Array(vec!["b".to_string(), "c".to_string()])
    );
}

#[test]
fn evaluation_is_deterministic() {
    let src = "A=1\nB=\"$A and ${A[@]}\"\nC='literal'\n";
    let first = ApmlContext::eval_source(src).unwrap();
    let second = ApmlContext::eval_source(src).unwrap();
    assert_eq!(first, second);
}

#[test]
fn expansion_forms() {
    let ctx = ApmlContext::eval_source("X=v\nA=$X\nB=${X}\nC=\"${X[@]}\"\n").unwrap();
    assert_eq!(ctx.read("A").as_string(), "v");
    assert_eq!(ctx.read("B").as_string(), "v");
    assert_eq!(ctx.read("C"), VariableValue::Array(vec!["v".to_string()]));
}

#[test]
fn single_quotes_are_literal() {
    let ctx = ApmlContext::eval_source("A='a $X b'\n").unwrap();
    assert_eq!(ctx.read("A").as_string(), "a $X b");
}

#[test]
fn escapes_keep_the_escaped_character() {
    let ctx = ApmlContext::eval_source("A=\\$X\nB=\"a\\\"b\"\n").unwrap();
    assert_eq!(ctx.read("A").as_string(), "$X");
    assert_eq!(ctx.read("B").as_string(), "a\"b");
}

#[test]
fn comments_and_blank_lines_are_skipped() {
    let ctx = ApmlContext::eval_source("# heading\n\nA=1\n   \n# tail").unwrap();
    assert_eq!(ctx.read("A").as_string(), "1");
    assert_eq!(ctx.keys(), vec!["A".to_string()]);
}

#[test]
fn parse_error_unexpected_char() {
    match ApmlContext::eval_source("=x") {
        Err(ApmlError::Parse(e)) => {
            assert_eq!(e.kind, ParseErrorKind::UnexpectedChar);
            assert_eq!(e.pos, 0);
        }
        other => panic!("expected a parse error, got {:?}", other),
    }
}

#[test]
fn parse_error_missing_equals() {
    match ApmlContext::eval_source("ABC\n") {
        Err(ApmlError::Parse(e)) => {
            assert_eq!(e.kind, ParseErrorKind::MissingEquals);
            assert_eq!(e.pos, 3);
        }
        other => panic!("expected a parse error, got {:?}", other),
    }
}

#[test]
fn parse_error_dangling_escape() {
    match ApmlContext::eval_source("A=\\") {
        Err(ApmlError::Parse(e)) => {
            assert_eq!(e.kind, ParseErrorKind::DanglingEscape);
            assert_eq!(e.pos, 2);
        }
        other => panic!("expected a parse error, got {:?}", other),
    }
}

#[test]
fn parse_error_unterminated_single_quote() {
    match ApmlContext::eval_source("A='x") {
        Err(ApmlError::Parse(e)) => {
            assert_eq!(e.kind, ParseErrorKind::UnterminatedQuote);
            assert_eq!(e.pos, 2);
        }
        other => panic!("expected a parse error, got {:?}", other),
    }
}

#[test]
fn parse_error_invalid_expansion() {
    match ApmlContext::eval_source("A=$ x") {
        Err(ApmlError::Parse(e)) => {
            assert_eq!(e.kind, ParseErrorKind::InvalidExpansion);
            assert_eq!(e.pos, 2);
        }
        other => panic!("expected a parse error, got {:?}", other),
    }
    match ApmlContext::eval_source("A=${x") {
        Err(ApmlError::Parse(e)) => {
            assert_eq!(e.kind, ParseErrorKind::InvalidExpansion);
            assert_eq!(e.pos, 2);
        }
        other => panic!("expected a parse error, got {:?}", other),
    }
}

#[test]
fn context_insert_get_remove_keys() {
    let mut ctx = ApmlContext::default();
    assert_eq!(ctx.get("A"), None);
    ctx.insert("A".to_string(), VariableValue::String("1".to_string()));
    ctx.insert("B".to_string(), VariableValue::Array(vec!["x".to_string()]));
    ctx.insert("A".to_string(), VariableValue::String("2".to_string()));
    assert_eq!(ctx.read("A").as_string(), "2");
    let mut keys = ctx.keys();
    keys.sort();
    assert_eq!(keys, vec!["A".to_string(), "B".to_string()]);
    assert_eq!(
        ctx.remove("A"),
        Some(VariableValue::String("2".to_string()))
    );
    assert_eq!(ctx.remove("A"), None);
    assert_eq!(ctx.get("A"), None);
    assert_eq!(ctx.keys(), vec!["B".to_string()]);
}

#[test]
fn context_get_mut_overwrites_in_place() {
    let mut ctx = ApmlContext::default();
    ctx.insert("A".to_string(), VariableValue::String("1".to_string()));
    assert_eq!(ctx.get_mut("B"), None);
    if let Some(v) = ctx.get_mut("A") {
        *v = VariableValue::String("9".to_string());
    } else {
        panic!("A should be present");
    }
    assert_eq!(ctx.read("A").as_string(), "9");
}

#[test]
fn context_clone_models_same_mapping() {
    let ctx = ApmlContext::eval_source("A=1\nB=2\n").unwrap();
    let copy = ctx.clone();
    assert_eq!(ctx, copy);
    assert_eq!(copy.read("A").as_string(), "1");
}

#[test]
fn staged_pipeline_matches_eval_source() {
    let src = "A=1\nB=\"$A\"\n";
    let lst = ApmlLst::parse(src).unwrap();
    let via_lst = ApmlContext::eval_lst(&lst).unwrap();
    let via_source = ApmlContext::eval_source(src).unwrap();
    assert_eq!(via_lst, via_source);
    let ast = apml::ApmlAst::emit_from(&lst).unwrap();
    let via_ast = ApmlContext::eval_ast(&ast).unwrap();
    assert_eq!(via_ast, via_source);
}

#[test]
fn value_from_text_is_a_string_value() {
    let v = VariableValue::from("hello");
    assert_eq!(v, VariableValue::String("hello".to_string()));
    assert_eq!(v.len(), 5);
}

#[test]
fn lossless_tree_reconstructs_source() {
    let src = "# heading\n\n  \nA=pre\"qa \\\n  ${X} \\\"esc\\\" $Y\"'lit'\\z${W[@]}$V\nB=2\n";
    let lst = ApmlLst::parse(src).unwrap();
    assert_eq!(lst.source_text(), src);
    let no_trailing_newline = "# tail comment";
    let lst2 = ApmlLst::parse(no_trailing_newline).unwrap();
    assert_eq!(lst2.source_text(), no_trailing_newline);
}
