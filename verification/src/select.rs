use crate::parse::all_digits;
use crate::parse::dec_int;
use crate::parse::parse_u32_spec;
use vstd::prelude::*;

verus! {

/// The decimal numeral of `n`, most significant digit first, without sign or
/// leading zeros; the numeral of zero is `0`.
pub open spec fn dec_str(n: nat) -> Seq<u8>
    decreases n,
{
    if n < 10 {
        seq![(48 + n) as u8]
    } else {
        dec_str(n / 10) + seq![(48 + n % 10) as u8]
    }
}

/// A decimal numeral is made of digits and denotes the number it was
/// rendered from.
pub proof fn lemma_dec_str_value(n: nat)
    ensures
        dec_str(n).len() >= 1,
        all_digits(dec_str(n)),
        dec_int(dec_str(n)) == n,
    decreases n,
{
    if n < 10 {
        assert(((48 + n) as u8) == 48 + n);
        assert(dec_str(n).drop_last() =~= Seq::<u8>::empty());
        assert(dec_str(n).last() == (48 + n) as u8);
        assert(dec_int(Seq::<u8>::empty()) == 0);
        assert(dec_int(dec_str(n)) == dec_int(Seq::<u8>::empty()) * 10 + (48 + n) - 48);
    } else {
        lemma_dec_str_value(n / 10);
        assert(n % 10 < 10);
        assert(((48 + n % 10) as u8) == 48 + n % 10);
        assert(dec_str(n).drop_last() =~= dec_str(n / 10));
        assert(dec_str(n).last() == (48 + n % 10) as u8);
        assert(dec_int(dec_str(n)) == dec_int(dec_str(n / 10)) * 10 + (48 + n % 10) - 48);
        assert((n / 10) * 10 + n % 10 == n);
    }
}

/// The id a shard file is named for parses back, as a record field, to that
/// id: rendering and numeric parsing round-trip.
pub proof fn lemma_dec_str_parses(uid: u32)
    ensures
        parse_u32_spec(dec_str(uid as nat)) == Some(uid),
{
    lemma_dec_str_value(uid as nat);
}

/// The fixed directory of shard files, `/etc/passwd.d/`, as bytes.
pub open spec fn shard_dir() -> Seq<u8> {
    seq![47u8, 101, 116, 99, 47, 112, 97, 115, 115, 119, 100, 46, 100, 47]
}

/// The path of the shard file that exposes the records of id `uid`:
/// `/etc/passwd.d/<uid>` with the id in decimal.
pub open spec fn shard_path(uid: u32) -> Seq<u8> {
    shard_dir() + dec_str(uid as nat)
}

/// Appends the decimal numeral of `n` to `out`.
fn push_dec(n: u32, out: &mut Vec<u8>)
    ensures
        final(out)@ == old(out)@ + dec_str(n as nat),
    decreases n,
{
    if n < 10 {
        out.push(48 + n as u8);
        proof {
            assert(old(out)@ + dec_str(n as nat) =~= old(out)@.push((48 + n) as u8));
        }
    } else {
        push_dec(n / 10, out);
        out.push(48 + (n % 10) as u8);
        proof {
            assert(old(out)@ + dec_str(n as nat) =~= (old(out)@ + dec_str(
                (n / 10) as nat,
            )).push((48 + n % 10) as u8));
        }
    }
}

/// Renders the shard file path of `uid`.
pub fn shard_path_for(uid: u32) -> (p: Vec<u8>)
    ensures
        p@ == shard_path(uid),
{
    let mut p: Vec<u8> = Vec::new();
    p.push(47);
    p.push(101);
    p.push(116);
    p.push(99);
    p.push(47);
    p.push(112);
    p.push(97);
    p.push(115);
    p.push(115);
    p.push(119);
    p.push(100);
    p.push(46);
    p.push(100);
    p.push(47);
    proof {
        assert(p@ =~= shard_dir());
    }
    push_dec(uid, &mut p);
    p
}

/// The ordered list of candidate files one lookup may search. The privileged
/// id sees every entry of the shard directory, in the order the directory
/// listing gave them; any other caller sees exactly its own shard file and
/// never another.
pub fn candidate_files(caller_uid: u32, dir_entries: Vec<Vec<u8>>) -> (files: Vec<Vec<u8>>)
    ensures
        caller_uid == 0 ==> files@ == dir_entries@,
        caller_uid != 0 ==> files@.len() == 1 && files@[0]@ == shard_path(caller_uid),
{
    if caller_uid == 0 {
        dir_entries
    } else {
        let mut files: Vec<Vec<u8>> = Vec::new();
        files.push(shard_path_for(caller_uid));
        files
    }
}

} // verus!
