use multipasswd::arena::ArenaError;
use multipasswd::arena::OutputArena;
use multipasswd::parse::parse_line;
use multipasswd::writer::write_record;
use multipasswd::writer::PasswdLayout;

fn v(s: &str) -> Vec<u8> {
    s.as_bytes().to_vec()
}

fn empty_layout() -> PasswdLayout {
    PasswdLayout { name: 0, passwd: 0, uid: 0, gid: 0, gecos: 0, dir: 0, shell: 0 }
}

fn c_string_at(bytes: &[u8], off: usize) -> Vec<u8> {
    let mut r = Vec::new();
    let mut i = off;
    while bytes[i] != 0 {
        r.push(bytes[i]);
        i += 1;
    }
    r
}

#[test]
fn write_text_with_exact_capacity_succeeds_and_exhausts() {
    let mut a = OutputArena::new(6);
    let off = a.write_text(&v("hello")).unwrap();
    assert_eq!(off, 0);
    assert_eq!(a.remaining(), 0);
    assert_eq!(a.bytes().as_slice(), b"hello\0");
}

#[test]
fn write_text_one_byte_short_is_refused_whole() {
    let mut a = OutputArena::new(5);
    assert_eq!(a.write_text(&v("hello")), Err(ArenaError::BufferTooSmall));
    assert_eq!(a.len(), 0);
    assert_eq!(a.remaining(), 5);
}

#[test]
fn write_bytes_returns_successive_offsets() {
    let mut a = OutputArena::new(8);
    assert_eq!(a.write_bytes(&v("abc")), Ok(0));
    assert_eq!(a.write_bytes(&v("de")), Ok(3));
    assert_eq!(a.bytes().as_slice(), b"abcde");
    assert_eq!(a.remaining(), 3);
    assert_eq!(a.write_bytes(&v("toolong")), Err(ArenaError::BufferTooSmall));
    assert_eq!(a.bytes().as_slice(), b"abcde");
}

#[test]
fn write_record_lays_out_all_fields() {
    let p = parse_line(&v("alice:x:1000:2000:Alice:/home/alice:/bin/bash\n")).unwrap();
    let mut a = OutputArena::new(64);
    let mut out = empty_layout();
    assert!(write_record(&p, &mut a, &mut out).is_ok());
    let bytes = a.bytes();
    assert_eq!(c_string_at(bytes, out.name), v("alice"));
    assert_eq!(c_string_at(bytes, out.passwd), v("x"));
    assert_eq!(out.uid, 1000);
    assert_eq!(out.gid, 2000);
    assert_eq!(c_string_at(bytes, out.gecos), v("Alice"));
    assert_eq!(c_string_at(bytes, out.dir), v("/home/alice"));
    assert_eq!(c_string_at(bytes, out.shell), v("/bin/bash"));
    // name\0 x\0 Alice\0 /home/alice\0 /bin/bash\0
    assert_eq!(a.len(), 6 + 2 + 6 + 12 + 10);
}

#[test]
fn write_record_aborts_on_the_field_that_does_not_fit() {
    let p = parse_line(&v("alice:x:1:2:Alice:/home/alice:/bin/bash")).unwrap();
    // Room for "alice\0" and "x\0" but not "Alice\0".
    let mut a = OutputArena::new(10);
    let mut out = empty_layout();
    assert_eq!(write_record(&p, &mut a, &mut out), Err(ArenaError::BufferTooSmall));
    assert_eq!(c_string_at(a.bytes(), out.name), v("alice"));
    assert_eq!(c_string_at(a.bytes(), out.passwd), v("x"));
    assert_eq!(out.uid, 1);
    assert_eq!(out.gid, 2);
    assert_eq!(a.len(), 8);
    assert_eq!(out.gecos, 0);
    assert_eq!(out.dir, 0);
    assert_eq!(out.shell, 0);
}
