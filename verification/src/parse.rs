use vstd::prelude::*;

verus! {

/// One parsed account record. Text fields are byte strings in the host's
/// narrow encoding; the two ids are 32-bit unsigned integers.
pub struct Passwd {
    pub name: Vec<u8>,
    pub passwd: Vec<u8>,
    pub uid: u32,
    pub gid: u32,
    pub gecos: Vec<u8>,
    pub dir: Vec<u8>,
    pub shell: Vec<u8>,
}

/// The mathematical image of an account record.
pub ghost struct PasswdV {
    pub name: Seq<u8>,
    pub passwd: Seq<u8>,
    pub uid: u32,
    pub gid: u32,
    pub gecos: Seq<u8>,
    pub dir: Seq<u8>,
    pub shell: Seq<u8>,
}

impl View for Passwd {
    type V = PasswdV;

    open spec fn view(&self) -> PasswdV {
        PasswdV {
            name: self.name@,
            passwd: self.passwd@,
            uid: self.uid,
            gid: self.gid,
            gecos: self.gecos@,
            dir: self.dir@,
            shell: self.shell@,
        }
    }
}

/// The field separator, `:`.
pub open spec fn colon() -> u8 {
    58
}

/// Holds when no byte of `s` is the field separator.
pub open spec fn colon_free(s: Seq<u8>) -> bool {
    forall|j: int| 0 <= j < s.len() ==> s[j] != colon()
}

/// The fields of `s`, split on the separator, in order. An empty input has
/// one empty field; a separator at either end contributes an empty field.
pub open spec fn split_colon(s: Seq<u8>) -> Seq<Seq<u8>>
    decreases s.len(),
{
    if s.len() == 0 {
        seq![Seq::<u8>::empty()]
    } else if s[0] == colon() {
        seq![Seq::<u8>::empty()] + split_colon(s.skip(1))
    } else {
        let rest = split_colon(s.skip(1));
        seq![seq![s[0]] + rest[0]] + rest.skip(1)
    }
}

/// `fs` with `prefix` prepended onto its first element.
pub open spec fn prepend_first(prefix: Seq<u8>, fs: Seq<Seq<u8>>) -> Seq<Seq<u8>> {
    seq![prefix + fs[0]] + fs.skip(1)
}

/// A split always yields at least one field.
pub proof fn lemma_split_nonempty(s: Seq<u8>)
    ensures
        split_colon(s).len() >= 1,
    decreases s.len(),
{
    if s.len() > 0 {
        lemma_split_nonempty(s.skip(1));
    }
}

proof fn lemma_prepend_first_empty(fs: Seq<Seq<u8>>)
    requires
        fs.len() >= 1,
    ensures
        prepend_first(Seq::<u8>::empty(), fs) == fs,
{
    assert(Seq::<u8>::empty() + fs[0] =~= fs[0]);
    assert(prepend_first(Seq::<u8>::empty(), fs) =~= fs);
}

proof fn lemma_prepend_first_compose(a: Seq<u8>, b: Seq<u8>, fs: Seq<Seq<u8>>)
    requires
        fs.len() >= 1,
    ensures
        prepend_first(a, prepend_first(b, fs)) == prepend_first(a + b, fs),
{
    assert(a + (b + fs[0]) =~= (a + b) + fs[0]);
    assert(prepend_first(a, prepend_first(b, fs)) =~= prepend_first(a + b, fs));
}

/// Splitting a separator-free string yields that string as the one field.
pub proof fn lemma_split_colon_free(s: Seq<u8>)
    requires
        colon_free(s),
    ensures
        split_colon(s) == seq![s],
    decreases s.len(),
{
    if s.len() == 0 {
        assert(s =~= Seq::<u8>::empty());
        assert(split_colon(s) =~= seq![s]);
    } else {
        lemma_split_colon_free(s.skip(1));
        assert(seq![s[0]] + s.skip(1) =~= s);
        assert(split_colon(s) =~= seq![s]);
    }
}

/// A separator-free prefix, a separator, and a remainder split into the
/// prefix followed by the remainder's own fields.
pub proof fn lemma_split_join(a: Seq<u8>, rest: Seq<u8>)
    requires
        colon_free(a),
    ensures
        split_colon(a + seq![colon()] + rest) == seq![a] + split_colon(rest),
    decreases a.len(),
{
    let s = a + seq![colon()] + rest;
    if a.len() == 0 {
        assert(s =~= seq![colon()] + rest);
        assert(s.skip(1) =~= rest);
        assert(a =~= Seq::<u8>::empty());
        assert(split_colon(s) =~= seq![a] + split_colon(rest));
    } else {
        lemma_split_join(a.skip(1), rest);
        assert(s[0] == a[0] && a[0] != colon());
        assert(s.skip(1) =~= a.skip(1) + seq![colon()] + rest);
        let fs = split_colon(s.skip(1));
        assert(fs == seq![a.skip(1)] + split_colon(rest));
        assert(seq![s[0]] + fs[0] =~= a);
        assert(fs.skip(1) =~= split_colon(rest));
        assert(split_colon(s) =~= seq![a] + split_colon(rest));
    }
}

/// Holds when `b` is an ASCII decimal digit.
pub open spec fn is_digit(b: u8) -> bool {
    48 <= b && b <= 57
}

/// Holds when every byte of `s` is an ASCII decimal digit.
pub open spec fn all_digits(s: Seq<u8>) -> bool {
    forall|j: int| 0 <= j < s.len() ==> is_digit(s[j])
}

/// The value of `s` read as a decimal numeral, most significant digit first.
pub open spec fn dec_int(s: Seq<u8>) -> int
    decreases s.len(),
{
    if s.len() == 0 {
        0
    } else {
        dec_int(s.drop_last()) * 10 + s.last() - 48
    }
}

/// The value a field denotes as an unsigned 32-bit id: an optional leading
/// `+`, then at least one decimal digit, denoting a value that fits.
pub open spec fn parse_u32_spec(s: Seq<u8>) -> Option<u32> {
    let d = if s.len() > 0 && s[0] == 43 {
        s.skip(1)
    } else {
        s
    };
    if d.len() > 0 && all_digits(d) && dec_int(d) <= u32::MAX {
        Some(dec_int(d) as u32)
    } else {
        None
    }
}

/// A digit string's value is non-negative, and no prefix exceeds the whole.
pub proof fn lemma_dec_int_prefix(s: Seq<u8>, j: int)
    requires
        all_digits(s),
        0 <= j <= s.len(),
    ensures
        0 <= dec_int(s.take(j)) <= dec_int(s),
    decreases s.len(),
{
    if s.len() == 0 {
        assert(s.take(j) =~= s);
    } else if j == s.len() {
        lemma_dec_int_prefix(s.drop_last(), j - 1);
        assert(s.take(j) =~= s);
    } else {
        assert(s.drop_last().take(j) =~= s.take(j));
        lemma_dec_int_prefix(s.drop_last(), j);
    }
}

/// Reads a field as an unsigned 32-bit id, exactly as `parse_u32_spec`
/// describes; malformed or oversized numerals yield no value.
pub fn parse_u32(s: &Vec<u8>) -> (r: Option<u32>)
    ensures
        r == parse_u32_spec(s@),
{
    let start: usize = if s.len() > 0 && s[0] == 43 {
        1
    } else {
        0
    };
    let ghost d: Seq<u8> = s@.skip(start as int);
    proof {
        if start == 0 {
            assert(d =~= s@);
        }
    }
    if s.len() == start {
        return None;
    }
    let mut value: u64 = 0;
    let mut i: usize = start;
    while i < s.len()
        invariant
            start <= i <= s@.len(),
            start <= 1,
            (start == 1) <==> (s@.len() > 0 && s@[0] == 43),
            d == s@.skip(start as int),
            start == 0 ==> d == s@,
            d.len() == s@.len() - start,
            all_digits(d.take(i - start)),
            value == dec_int(d.take(i - start)),
            value <= u32::MAX,
        decreases s@.len() - i,
    {
        let b = s[i];
        proof {
            assert(d[i - start] == s@[i as int]);
            assert(d.take(i + 1 - start).drop_last() =~= d.take(i - start));
        }
        if b < 48 || b > 57 {
            proof {
                assert(0 <= i - start < d.len());
                assert(!is_digit(d[i - start]));
                assert(!all_digits(d));
                assert(parse_u32_spec(s@) is None);
            }
            return None;
        }
        proof {
            assert(d.take(i + 1 - start).last() == d[i - start]);
            assert(dec_int(d.take(i + 1 - start))
                == dec_int(d.take(i - start)) * 10 + b - 48);
        }
        value = value * 10 + (b - 48) as u64;
        i += 1;
        if value > 0xffff_ffff {
            proof {
                assert(value == dec_int(d.take(i - start)));
                if all_digits(d) {
                    lemma_dec_int_prefix(d, i - start);
                    assert(dec_int(d) >= value > u32::MAX);
                }
                assert(parse_u32_spec(s@) is None);
            }
            return None;
        }
    }
    proof {
        assert(d.take(i - start) =~= d);
    }
    Some(value as u32)
}

/// Splits a line into its separator-delimited fields, exactly as
/// `split_colon` describes.
pub fn split_fields(line: &Vec<u8>) -> (fields: Vec<Vec<u8>>)
    ensures
        fields@.map_values(|f: Vec<u8>| f@) == split_colon(line@),
{
    let ghost whole: Seq<Seq<u8>> = split_colon(line@);
    let mut fields: Vec<Vec<u8>> = Vec::new();
    let mut cur: Vec<u8> = Vec::new();
    let mut i: usize = 0;
    proof {
        lemma_split_nonempty(line@);
        lemma_prepend_first_empty(split_colon(line@));
        assert(line@.skip(0) =~= line@);
    }
    while i < line.len()
        invariant
            0 <= i <= line@.len(),
            whole == split_colon(line@),
            whole == fields@.map_values(|f: Vec<u8>| f@)
                + prepend_first(cur@, split_colon(line@.skip(i as int))),
        decreases line@.len() - i,
    {
        let ghost pre_fields = fields@.map_values(|f: Vec<u8>| f@);
        let ghost rest = line@.skip(i as int);
        let ghost rest2 = line@.skip(i as int + 1);
        proof {
            assert(rest.len() > 0);
            assert(rest[0] == line@[i as int]);
            assert(rest.skip(1) =~= rest2);
            lemma_split_nonempty(rest2);
        }
        let b = line[i];
        if b == 58 {
            proof {
                // split_colon(rest) == seq![empty] + split_colon(rest2)
                lemma_prepend_first_empty(split_colon(rest2));
                assert(cur@ + Seq::<u8>::empty() =~= cur@);
                assert(prepend_first(cur@, split_colon(rest))
                    =~= seq![cur@] + split_colon(rest2));
                assert((fields@ + seq![cur]).map_values(|f: Vec<u8>| f@)
                    =~= pre_fields + seq![cur@]);
                assert(whole =~= pre_fields + seq![cur@]
                    + prepend_first(Seq::<u8>::empty(), split_colon(rest2)));
            }
            fields.push(cur);
            cur = Vec::new();
        } else {
            proof {
                assert(split_colon(rest) == prepend_first(seq![b], split_colon(rest2)));
                lemma_prepend_first_compose(cur@, seq![b], split_colon(rest2));
                assert(cur@ + seq![b] =~= cur@.push(b));
            }
            cur.push(b);
        }
        i += 1;
    }
    proof {
        assert(line@.skip(i as int) =~= Seq::<u8>::empty());
        assert(split_colon(line@.skip(i as int)) =~= seq![Seq::<u8>::empty()]);
        assert(prepend_first(cur@, seq![Seq::<u8>::empty()])
            =~= seq![cur@]);
        assert(cur@ + Seq::<u8>::empty() =~= cur@);
        assert((fields@ + seq![cur]).map_values(|f: Vec<u8>| f@)
            =~= fields@.map_values(|f: Vec<u8>| f@) + seq![cur@]);
    }
    fields.push(cur);
    fields
}

/// Holds when `b` is an ASCII whitespace byte (space, tab, line feed,
/// vertical tab, form feed, carriage return).
pub open spec fn is_space(b: u8) -> bool {
    b == 32 || b == 9 || b == 10 || b == 11 || b == 12 || b == 13
}

/// `s` without its trailing whitespace bytes.
pub open spec fn trim_end_spec(s: Seq<u8>) -> Seq<u8>
    decreases s.len(),
{
    if s.len() > 0 && is_space(s.last()) {
        trim_end_spec(s.drop_last())
    } else {
        s
    }
}

/// Tests whether the byte of `s` at `i` is ASCII whitespace.
fn space_at(s: &Vec<u8>, i: usize) -> (r: bool)
    requires
        i < s@.len(),
    ensures
        r == is_space(s@[i as int]),
{
    let b = s[i];
    b == 32 || b == 9 || b == 10 || b == 11 || b == 12 || b == 13
}

/// Copies `s` without its trailing whitespace bytes.
pub fn trim_end(s: &Vec<u8>) -> (r: Vec<u8>)
    ensures
        r@ == trim_end_spec(s@),
{
    let mut n: usize = s.len();
    proof {
        assert(s@.take(n as int) =~= s@);
    }
    while n > 0 && space_at(s, n - 1)
        invariant
            0 <= n <= s@.len(),
            trim_end_spec(s@) == trim_end_spec(s@.take(n as int)),
        decreases n,
    {
        proof {
            assert(s@.take(n as int).last() == s@[n - 1]);
            assert(s@.take(n as int).drop_last() =~= s@.take(n - 1));
        }
        n -= 1;
    }
    let mut r: Vec<u8> = Vec::new();
    let mut i: usize = 0;
    while i < n
        invariant
            0 <= i <= n <= s@.len(),
            r@ == s@.take(i as int),
        decreases n - i,
    {
        let ghost prev = r@;
        r.push(s[i]);
        proof {
            assert(prev.push(s@[i as int]) =~= s@.take(i + 1));
        }
        i += 1;
    }
    proof {
        let t = s@.take(n as int);
        if n > 0 {
            assert(t.last() == s@[n - 1]);
        }
        assert(trim_end_spec(t) == t);
    }
    r
}

/// The record a line denotes: its first seven separator-delimited fields in
/// order name, password, user id, group id, comment, home directory, shell,
/// with both ids read as decimal numbers and the shell field trimmed of
/// trailing whitespace; or nothing, when fewer than seven fields are present
/// or either id field is not a number that fits.
pub open spec fn parse_line_spec(line: Seq<u8>) -> Option<PasswdV> {
    let fs = split_colon(line);
    if fs.len() < 7 {
        None
    } else {
        match (parse_u32_spec(fs[2]), parse_u32_spec(fs[3])) {
            (Some(uid), Some(gid)) => Some(
                PasswdV {
                    name: fs[0],
                    passwd: fs[1],
                    uid,
                    gid,
                    gecos: fs[4],
                    dir: fs[5],
                    shell: trim_end_spec(fs[6]),
                },
            ),
            _ => None,
        }
    }
}

/// Parses one line into a record, exactly as `parse_line_spec` describes;
/// a malformed line yields no record.
pub fn parse_line(line: &Vec<u8>) -> (r: Option<Passwd>)
    ensures
        (match r {
            Some(p) => parse_line_spec(line@) == Some(p@),
            None => parse_line_spec(line@) is None,
        }),
{
    let mut fields = split_fields(line);
    let ghost fs = split_colon(line@);
    if fields.len() < 7 {
        return None;
    }
    proof {
        assert(fields@[2]@ == fs[2] && fields@[3]@ == fs[3]);
    }
    let uid = match parse_u32(&fields[2]) {
        Some(u) => u,
        None => {
            return None;
        },
    };
    let gid = match parse_u32(&fields[3]) {
        Some(g) => g,
        None => {
            return None;
        },
    };
    let name = fields.remove(0);
    let passwd = fields.remove(0);
    let gecos = fields.remove(2);
    let dir = fields.remove(2);
    let shell_raw = fields.remove(2);
    let shell = trim_end(&shell_raw);
    proof {
        assert(name@ == fs[0] && passwd@ == fs[1]);
        assert(gecos@ == fs[4] && dir@ == fs[5] && shell_raw@ == fs[6]);
    }
    Some(
        Passwd {
            name,
            passwd,
            uid,
            gid,
            gecos,
            dir,
            shell,
        },
    )
}

/// The raw fields `fs`, joined in order with the separator between them.
pub open spec fn join_fields(fs: Seq<Seq<u8>>) -> Seq<u8>
    decreases fs.len(),
{
    if fs.len() <= 1 {
        fs[0]
    } else {
        fs[0] + seq![colon()] + join_fields(fs.skip(1))
    }
}

/// Splitting undoes joining: separator-free fields joined with the separator
/// split back into exactly those fields.
pub proof fn lemma_split_undoes_join(fs: Seq<Seq<u8>>)
    requires
        fs.len() >= 1,
        forall|i: int| 0 <= i < fs.len() ==> colon_free(#[trigger] fs[i]),
    ensures
        split_colon(join_fields(fs)) == fs,
    decreases fs.len(),
{
    if fs.len() == 1 {
        lemma_split_colon_free(fs[0]);
        assert(split_colon(join_fields(fs)) =~= fs);
    } else {
        let rest = fs.skip(1);
        assert(forall|i: int| 0 <= i < rest.len() ==> colon_free(#[trigger] rest[i]));
        lemma_split_undoes_join(rest);
        lemma_split_join(fs[0], join_fields(rest));
        assert(seq![fs[0]] + rest =~= fs);
    }
}

/// Round trip of a well-formed line: parsing the join of seven raw,
/// separator-free fields whose id fields are numbers reproduces every field
/// value exactly, except that the shell field comes back with its trailing
/// whitespace trimmed.
pub proof fn lemma_parse_round_trip(
    f0: Seq<u8>,
    f1: Seq<u8>,
    f2: Seq<u8>,
    f3: Seq<u8>,
    f4: Seq<u8>,
    f5: Seq<u8>,
    f6: Seq<u8>,
)
    requires
        colon_free(f0),
        colon_free(f1),
        colon_free(f2),
        colon_free(f3),
        colon_free(f4),
        colon_free(f5),
        colon_free(f6),
        parse_u32_spec(f2) is Some,
        parse_u32_spec(f3) is Some,
    ensures
        (parse_line_spec(join_fields(seq![f0, f1, f2, f3, f4, f5, f6])) == Some(
            PasswdV {
                name: f0,
                passwd: f1,
                uid: parse_u32_spec(f2).unwrap(),
                gid: parse_u32_spec(f3).unwrap(),
                gecos: f4,
                dir: f5,
                shell: trim_end_spec(f6),
            },
        )),
{
    let fs = seq![f0, f1, f2, f3, f4, f5, f6];
    assert forall|i: int| 0 <= i < fs.len() implies colon_free(#[trigger] fs[i]) by {
        if i == 0 {
            assert(fs[i] == f0);
        } else if i == 1 {
            assert(fs[i] == f1);
        } else if i == 2 {
            assert(fs[i] == f2);
        } else if i == 3 {
            assert(fs[i] == f3);
        } else if i == 4 {
            assert(fs[i] == f4);
        } else if i == 5 {
            assert(fs[i] == f5);
        } else {
            assert(fs[i] == f6);
        }
    }
    lemma_split_undoes_join(fs);
}

/// A line that splits into fewer than seven fields yields no record.
pub proof fn lemma_short_line_rejected(line: Seq<u8>)
    requires
        split_colon(line).len() < 7,
    ensures
        parse_line_spec(line) is None,
{
}

/// A line whose user-id or group-id field is not a number that fits yields
/// no record.
pub proof fn lemma_bad_id_rejected(line: Seq<u8>)
    requires
        split_colon(line).len() >= 7,
        parse_u32_spec(split_colon(line)[2]) is None || parse_u32_spec(split_colon(line)[3]) is None,
    ensures
        parse_line_spec(line) is None,
{
}

} // verus!
