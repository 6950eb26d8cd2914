use kv::split::multi_split;
use kv::Error;
use kv::Pattern;

fn seps(list: &[&str]) -> Vec<Vec<char>> {
    list.iter().map(|s| s.chars().collect()).collect()
}

#[test]
fn default() {
    let d = Pattern::default();
    let p = Pattern::compile("%{key}:%{val}").expect("compile");
    assert_eq!(d, p);
}

#[test]
fn test_multisplit() {
    let seps = seps(&[" ", ";"]);
    let input = "this=is;a=test for:seperators";

    let i = multi_split(input, &seps);
    assert_eq!(i, vec!["this=is", "a=test", "for:seperators"]);
}

#[test]
fn simple_split() {
    let kv = Pattern::compile("%{key}=%{val}").expect("Failed to build pattern");
    let r = kv.run("this=is a=test").expect("Failed to split input");
    assert_eq!(r.len(), 2);
    assert_eq!(r.get("this"), Some("is"));
    assert_eq!(r.get("a"), Some("test"));
}

#[test]
fn simple_split2() {
    let kv = Pattern::compile("&%{key}=%{val}").expect("Failed to build pattern");
    let r = kv.run("this=is&a=test").expect("Failed to split input");
    assert_eq!(r.len(), 2);
    assert_eq!(r.get("this"), Some("is"));
    assert_eq!(r.get("a"), Some("test"));
}

#[test]
fn newline_simple_() {
    let kv = Pattern::compile(r"\n%{key}=%{val}").expect("Failed to build pattern");
    let r = kv.run("this=is\na=test").expect("Failed to split input");
    assert_eq!(r.len(), 2);
    assert_eq!(r.get("this"), Some("is"));
    assert_eq!(r.get("a"), Some("test"));
}

#[test]
fn simple_split3() {
    let kv = Pattern::compile("&").expect("Failed to build pattern");
    let r = kv.run("this:is&a:test").expect("Failed to split input");
    assert_eq!(r.len(), 2);
    assert_eq!(r.get("this"), Some("is"));
    assert_eq!(r.get("a"), Some("test"));
}

#[test]
fn simple_split4() {
    let kv = Pattern::compile("%{key}%{%{val}").expect("Failed to build pattern");
    let r = kv.run("this%{is a%{test").expect("Failed to split input");
    assert_eq!(r.len(), 2);
    assert_eq!(r.get("this"), Some("is"));
    assert_eq!(r.get("a"), Some("test"));
}

#[test]
fn simple_split5() {
    let kv = Pattern::compile("%{key}%{key}%{val}").expect("Failed to build pattern");
    let r = kv
        .run("this%{key}is a%{key}test")
        .expect("Failed to split input");
    assert_eq!(r.len(), 2);
    assert_eq!(r.get("this"), Some("is"));
    assert_eq!(r.get("a"), Some("test"));
}

#[test]
fn invalid_pattern() {
    let kv = Pattern::compile("%{key} ");
    let e = kv.expect_err("no error");
    assert_eq!(e, Error::InvalidPattern(6));
    println!("{}", e.message());

    let kv = Pattern::compile("%{key} %{val} \\8");
    let e = kv.expect_err("no error");
    assert_eq!(e, Error::InvalidEscape('8'));
    println!("{}", e.message());

    let kv = Pattern::compile("%{key} %{val} ");
    let e = kv.expect_err("no error");
    assert_eq!(e, Error::DoubleSeperator(String::from(" ")));
    println!("{}", e.message());

    let kv = Pattern::compile("%{key}=%{val} %{key}==%{val}");
    let e = kv.expect_err("no error");
    assert_eq!(e, Error::DoubleSeperator(String::from("=")));
    println!("{}", e.message());

    let kv = Pattern::compile("%{key}=%{val}; %{key}:%{val} %{key}:%{val}");
    let e = kv.expect_err("no error");
    assert_eq!(e, Error::DoubleSeperator(String::from(" ")));
    println!("{}", e.message());

    let kv = Pattern::compile("%{key}=%{val};%{key}:%{val} :%{key}:%{val}");
    let e = kv.expect_err("no error");
    assert_eq!(e, Error::DoubleSeperator(String::from(":")));
    println!("{}", e.message());
}

#[test]
fn one_field() {
    let kv = Pattern::compile("%{key}=%{val}").expect("Failed to build pattern");
    let r = kv.run("this=is").expect("Failed to split input");
    assert_eq!(r.len(), 1);
    assert_eq!(r.get("this"), Some("is"));
}

#[test]
fn no_split() {
    let kv = Pattern::compile("%{key}=%{val}").expect("Failed to build pattern");
    let r = kv.run("this is a test");
    assert!(r.is_none());
}

#[test]
fn different_seperators() {
    let kv = Pattern::compile("%{key}=%{val};%{key}:%{val} %{key}:%{val}")
        .expect("Failed to build pattern");
    let r = kv
        .run("this=is;a=test for:seperators")
        .expect("Failed to split input");
    assert_eq!(r.len(), 3);
    assert_eq!(r.get("this"), Some("is"));
    assert_eq!(r.get("a"), Some("test"));
    assert_eq!(r.get("for"), Some("seperators"));
}

#[test]
fn different_seperators2() {
    let kv = Pattern::compile("%{key}=%{val}%{key}:%{val} %{key}:%{val};")
        .expect("Failed to build pattern");
    let r = kv
        .run("this=is;a=test for:seperators")
        .expect("Failed to split input");
    assert_eq!(r.len(), 3);
    assert_eq!(r.get("this"), Some("is"));
    assert_eq!(r.get("a"), Some("test"));
    assert_eq!(r.get("for"), Some("seperators"));
}

#[test]
fn invalid_pattern2() {
    let kv = Pattern::compile("%{key}=%{val};%{key}:%{val} %{key}:%{val}")
        .expect("Failed to build pattern");
    let r = kv
        .run("this=is;a=test for:seperators")
        .expect("Failed to split input");
    assert_eq!(r.len(), 3);
    assert_eq!(r.get("this"), Some("is"));
    assert_eq!(r.get("a"), Some("test"));
    assert_eq!(r.get("for"), Some("seperators"));
}

#[test]
fn unfinished_escape_in_pattern() {
    let res = Pattern::compile(r"%{key}=%{val}; \\\r\n\t\");
    assert_eq!(Err(Error::UnterminatedEscape), res);
    if let Err(e) = res {
        assert_eq!(
            "Unterminated escape at the end of line or of a delimiter %{ can't be escaped",
            &e.message()
        );
    }
}

#[test]
fn empty_template_is_default() {
    let p = Pattern::compile("").expect("Failed to build pattern");
    assert_eq!(p, Pattern::default());
}

#[test]
fn compile_twice_equal() {
    let a = Pattern::compile("%{key}=%{val};%{key}:%{val} %{key}:%{val}").expect("compile");
    let b = Pattern::compile("%{key}=%{val};%{key}:%{val} %{key}:%{val}").expect("compile");
    assert_eq!(a, b);
}

#[test]
fn escaped_separators_split() {
    let kv = Pattern::compile(r"\n%{key}=%{val}").expect("Failed to build pattern");
    let r = kv.run("a=1\nb=2").expect("Failed to split input");
    assert_eq!(r.len(), 2);
    assert_eq!(r.get("a"), Some("1"));
    assert_eq!(r.get("b"), Some("2"));
}

#[test]
fn tab_escape_splits() {
    let kv = Pattern::compile(r"\t%{key}=%{val}").expect("Failed to build pattern");
    let r = kv.run("a=1\tb=2").expect("Failed to split input");
    assert_eq!(r.len(), 2);
    assert_eq!(r.get("a"), Some("1"));
    assert_eq!(r.get("b"), Some("2"));
}

#[test]
fn carriage_return_escape_splits() {
    let kv = Pattern::compile(r"\r%{key}=%{val}").expect("Failed to build pattern");
    let r = kv.run("a=1\rb=2").expect("Failed to split input");
    assert_eq!(r.len(), 2);
    assert_eq!(r.get("a"), Some("1"));
    assert_eq!(r.get("b"), Some("2"));
}

#[test]
fn backslash_escape_splits() {
    let kv = Pattern::compile(r"\\%{key}=%{val}").expect("Failed to build pattern");
    let r = kv.run("a=1\\b=2").expect("Failed to split input");
    assert_eq!(r.len(), 2);
    assert_eq!(r.get("a"), Some("1"));
    assert_eq!(r.get("b"), Some("2"));
}

#[test]
fn dangling_field_dropped() {
    let kv = Pattern::compile("%{key}=%{val}").expect("Failed to build pattern");
    let r = kv.run("this=is a=test stray").expect("Failed to split input");
    assert_eq!(r.len(), 2);
    assert_eq!(r.get("this"), Some("is"));
    assert_eq!(r.get("a"), Some("test"));
    assert_eq!(r.get("stray"), None);
}

#[test]
fn duplicate_key_later_wins() {
    let kv = Pattern::compile("%{key}=%{val}").expect("Failed to build pattern");
    let r = kv.run("a=1 a=2").expect("Failed to split input");
    assert_eq!(r.len(), 1);
    assert_eq!(r.get("a"), Some("2"));
}

#[test]
fn field_with_three_subtokens_dropped() {
    let kv = Pattern::compile("%{key}=%{val}").expect("Failed to build pattern");
    let r = kv.run("a=1=2 b=3").expect("Failed to split input");
    assert_eq!(r.len(), 1);
    assert_eq!(r.get("b"), Some("3"));
    assert_eq!(r.get("a"), None);
}

#[test]
fn message_invalid_pattern() {
    assert_eq!(
        Error::InvalidPattern(6).message(),
        "invalid pattern at character 6"
    );
    assert_eq!(
        Error::InvalidPattern(123).message(),
        "invalid pattern at character 123"
    );
}

#[test]
fn message_invalid_escape() {
    assert_eq!(
        Error::InvalidEscape('8').message(),
        "Invalid escape sequence \\'8' is not valid."
    );
}

#[test]
fn message_double_seperator() {
    assert_eq!(
        Error::DoubleSeperator(String::from(" ")).message(),
        "The seperator ' ' is used for both key value seperation as well as pair seperation."
    );
}

#[test]
fn no_separators_at_all_absent() {
    let kv = Pattern::compile("%{key}=%{val}").expect("Failed to build pattern");
    let r = kv.run("noseparatorshere");
    assert!(r.is_none());
}
