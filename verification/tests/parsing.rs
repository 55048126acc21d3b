use multipasswd::parse::parse_line;
use multipasswd::parse::parse_u32;
use multipasswd::parse::split_fields;
use multipasswd::parse::trim_end;

fn v(s: &str) -> Vec<u8> {
    s.as_bytes().to_vec()
}

#[test]
fn parses_a_well_formed_line() {
    let p = parse_line(&v("alice:x:1000:1000:Alice Example:/home/alice:/bin/bash\n")).unwrap();
    assert_eq!(p.name, v("alice"));
    assert_eq!(p.passwd, v("x"));
    assert_eq!(p.uid, 1000);
    assert_eq!(p.gid, 1000);
    assert_eq!(p.gecos, v("Alice Example"));
    assert_eq!(p.dir, v("/home/alice"));
    assert_eq!(p.shell, v("/bin/bash"));
}

#[test]
fn round_trip_keeps_field_values() {
    let p = parse_line(&v("bob:*:7:42:Bob B.:/home/bob:/bin/sh")).unwrap();
    let rejoined = [
        p.name.clone(),
        p.passwd.clone(),
        v("7"),
        v("42"),
        p.gecos.clone(),
        p.dir.clone(),
        p.shell.clone(),
    ]
    .join(&58u8);
    assert_eq!(rejoined, v("bob:*:7:42:Bob B.:/home/bob:/bin/sh"));
    let q = parse_line(&rejoined).unwrap();
    assert_eq!(q.name, p.name);
    assert_eq!(q.passwd, p.passwd);
    assert_eq!(q.uid, p.uid);
    assert_eq!(q.gid, p.gid);
    assert_eq!(q.gecos, p.gecos);
    assert_eq!(q.dir, p.dir);
    assert_eq!(q.shell, p.shell);
}

#[test]
fn rejects_lines_with_fewer_than_seven_fields() {
    assert!(parse_line(&v("")).is_none());
    assert!(parse_line(&v("alice")).is_none());
    assert!(parse_line(&v("alice:x:1000:1000:gecos:/home/alice")).is_none());
    assert!(parse_line(&v("a:b:c:d:e:f")).is_none());
}

#[test]
fn rejects_non_numeric_uid_or_gid() {
    assert!(parse_line(&v("a:x:12x:10:c:d:e")).is_none());
    assert!(parse_line(&v("a:x::10:c:d:e")).is_none());
    assert!(parse_line(&v("a:x:10:ten:c:d:e")).is_none());
    assert!(parse_line(&v("a:x:-1:10:c:d:e")).is_none());
    assert!(parse_line(&v("a:x:1 0:10:c:d:e")).is_none());
}

#[test]
fn rejects_ids_that_do_not_fit() {
    assert!(parse_line(&v("a:x:4294967296:1:c:d:e")).is_none());
    assert!(parse_line(&v("a:x:99999999999999999999:1:c:d:e")).is_none());
    let p = parse_line(&v("a:x:4294967295:0:c:d:e")).unwrap();
    assert_eq!(p.uid, u32::MAX);
    assert_eq!(p.gid, 0);
}

#[test]
fn empty_text_fields_are_valid() {
    let p = parse_line(&v("::0:0:::")).unwrap();
    assert_eq!(p.name, v(""));
    assert_eq!(p.passwd, v(""));
    assert_eq!(p.uid, 0);
    assert_eq!(p.gid, 0);
    assert_eq!(p.gecos, v(""));
    assert_eq!(p.dir, v(""));
    assert_eq!(p.shell, v(""));
}

#[test]
fn fields_beyond_the_seventh_are_ignored() {
    let p = parse_line(&v("a:x:1:2:c:d:sh:extra:more")).unwrap();
    assert_eq!(p.shell, v("sh"));
}

#[test]
fn shell_field_is_trimmed_of_trailing_whitespace() {
    let p = parse_line(&v("a:x:1:2:c:d:/bin/bash \t\r\n")).unwrap();
    assert_eq!(p.shell, v("/bin/bash"));
    let q = parse_line(&v("a:x:1:2:c:d:  lead kept  ")).unwrap();
    assert_eq!(q.shell, v("  lead kept"));
}

#[test]
fn split_fields_matches_colon_splitting() {
    let fs = split_fields(&v("a:b::c"));
    assert_eq!(fs, vec![v("a"), v("b"), v(""), v("c")]);
    assert_eq!(split_fields(&v("")), vec![v("")]);
    assert_eq!(split_fields(&v(":")), vec![v(""), v("")]);
    assert_eq!(split_fields(&v("abc")), vec![v("abc")]);
}

#[test]
fn parse_u32_reads_decimal_ids() {
    assert_eq!(parse_u32(&v("0")), Some(0));
    assert_eq!(parse_u32(&v("007")), Some(7));
    assert_eq!(parse_u32(&v("+12")), Some(12));
    assert_eq!(parse_u32(&v("4294967295")), Some(u32::MAX));
    assert_eq!(parse_u32(&v("4294967296")), None);
    assert_eq!(parse_u32(&v("")), None);
    assert_eq!(parse_u32(&v("+")), None);
    assert_eq!(parse_u32(&v("1.5")), None);
    assert_eq!(parse_u32(&v(" 1")), None);
}

#[test]
fn trim_end_strips_only_trailing_whitespace() {
    assert_eq!(trim_end(&v("abc \t\n")), v("abc"));
    assert_eq!(trim_end(&v("  abc")), v("  abc"));
    assert_eq!(trim_end(&v("")), v(""));
    assert_eq!(trim_end(&v(" \n")), v(""));
}
