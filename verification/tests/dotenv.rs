//! Files that set environment variables.
use wherebus::dotenv::{parse, to_set};

#[test]
fn parses_comments_quotes_and_export() {
    let content = "\u{feff}# 注释\n\
        \n\
        TELEGRAM_BOT_TOKEN=123:ABC\n\
        export WHEREBUS_BIND=0.0.0.0:8080\n\
        QUOTED=\"带 空格 的值\"\n\
        SINGLE='原样 $保留'\n\
        ESCAPED=\"第一行\\n第二行\"\n\
        TRAILING=值 # 行尾注释\n\
        HASH_IN_VALUE=abc#def\n\
        EMPTY=\n\
        不合法的行\n\
        带空格的键 = 值\n";
    let pairs = parse(content);
    assert_eq!(
        pairs,
        vec![
            ("TELEGRAM_BOT_TOKEN".into(), "123:ABC".into()),
            ("WHEREBUS_BIND".into(), "0.0.0.0:8080".into()),
            ("QUOTED".into(), "带 空格 的值".into()),
            ("SINGLE".into(), "原样 $保留".into()),
            ("ESCAPED".into(), "第一行\n第二行".into()),
            ("TRAILING".into(), "值".into()),
            ("HASH_IN_VALUE".into(), "abc#def".into()),
            ("EMPTY".into(), String::new()),
        ]
    );
}

#[test]
fn line_ends_and_escapes() {
    assert_eq!(parse("A=1\r\nB = 2 \r\n"), vec![("A".into(), "1".into()), ("B".into(), "2".into())]);
    assert_eq!(parse("A=\"x\\t\\r\\\\\\\"\\q\""), vec![("A".into(), "x\t\r\\\"q".into())]);
    assert_eq!(parse("A=\"half"), vec![("A".into(), "\"half".into())]);
    assert_eq!(parse("A=\""), vec![("A".into(), "\"".into())]);
    assert_eq!(parse("A=b=c"), vec![("A".into(), "b=c".into())]);
    assert_eq!(parse("=x\n1_a=2"), vec![("1_a".into(), "2".into())]);
}

#[test]
fn what_is_set_stays() {
    let pairs = parse("NEW=a\nSET=b\nNEW=c\n");
    assert_eq!(to_set(&pairs, &vec!["SET".into()]), vec![("NEW".into(), "a".into())]);
    assert!(to_set(&parse(""), &vec![]).is_empty());
}

#[test]
fn a_comment_follows_any_blank() {
    assert_eq!(parse("A=x\t# c"), vec![("A".into(), "x".into())]);
    assert_eq!(parse("A=x\u{3000}# c"), vec![("A".into(), "x".into())]);
    assert_eq!(parse("A=x#y # c"), vec![("A".into(), "x#y".into())]);
}
