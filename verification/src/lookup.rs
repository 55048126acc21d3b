use crate::arena::OutputArena;
use crate::parse::parse_line;
use crate::parse::parse_line_spec;
use crate::parse::Passwd;
use crate::parse::PasswdV;
use crate::status::LookupStatus;
use crate::writer::write_effect;
use crate::writer::write_record;
use crate::writer::PasswdLayout;
use vstd::prelude::*;

verus! {

/// One candidate source file as handed to a lookup: whether it could be
/// opened, and, if it could, its lines. A file that could not be opened
/// yields nothing and is skipped silently.
pub struct CandidateFile {
    pub opened: bool,
    pub lines: Vec<Vec<u8>>,
}

/// The mathematical image of a candidate file.
pub ghost struct CandidateFileV {
    pub opened: bool,
    pub lines: Seq<Seq<u8>>,
}

impl View for CandidateFile {
    type V = CandidateFileV;

    open spec fn view(&self) -> CandidateFileV {
        CandidateFileV { opened: self.opened, lines: self.lines@.map_values(|l: Vec<u8>| l@) }
    }
}

/// The images of a list of candidate files, in order.
pub open spec fn files_view(files: Seq<CandidateFile>) -> Seq<CandidateFileV> {
    files.map_values(|f: CandidateFile| f@)
}

/// The predicate a lookup by id searches with.
pub open spec fn id_key(uid: u32) -> spec_fn(PasswdV) -> bool {
    |p: PasswdV| p.uid == uid
}

/// The predicate a lookup by name searches with: names match byte for byte.
pub open spec fn name_key(name: Seq<u8>) -> spec_fn(PasswdV) -> bool {
    |p: PasswdV| p.name == name
}

/// The first record of `lines`, in line order, that parses and satisfies
/// `key`; lines that do not parse are skipped silently.
pub open spec fn scan_lines(lines: Seq<Seq<u8>>, key: spec_fn(PasswdV) -> bool) -> Option<
    PasswdV,
>
    decreases lines.len(),
{
    if lines.len() == 0 {
        None
    } else {
        match parse_line_spec(lines[0]) {
            Some(p) => if key(p) {
                Some(p)
            } else {
                scan_lines(lines.skip(1), key)
            },
            None => scan_lines(lines.skip(1), key),
        }
    }
}

/// The first match over a list of candidate files, in file-then-line order;
/// a file that could not be opened is skipped silently.
pub open spec fn scan_files(files: Seq<CandidateFileV>, key: spec_fn(PasswdV) -> bool) -> Option<
    PasswdV,
>
    decreases files.len(),
{
    if files.len() == 0 {
        None
    } else {
        let here = if files[0].opened {
            scan_lines(files[0].lines, key)
        } else {
            None
        };
        if here is Some {
            here
        } else {
            scan_files(files.skip(1), key)
        }
    }
}

/// Scans one file's lines for the first record with id `uid`, exactly as
/// `scan_lines` with `id_key` describes.
fn scan_file_by_id(lines: &Vec<Vec<u8>>, uid: u32) -> (r: Option<Passwd>)
    ensures
        (match r {
            Some(p) => scan_lines(lines@.map_values(|l: Vec<u8>| l@), id_key(uid)) == Some(p@),
            None => scan_lines(lines@.map_values(|l: Vec<u8>| l@), id_key(uid)) is None,
        }),
{
    let ghost lv = lines@.map_values(|l: Vec<u8>| l@);
    let mut i: usize = 0;
    proof {
        assert(lv.skip(0) =~= lv);
    }
    while i < lines.len()
        invariant
            0 <= i <= lines@.len(),
            lv == lines@.map_values(|l: Vec<u8>| l@),
            scan_lines(lv, id_key(uid)) == scan_lines(lv.skip(i as int), id_key(uid)),
        decreases lines@.len() - i,
    {
        let ghost rest = lv.skip(i as int);
        proof {
            assert(rest[0] == lv[i as int]);
            assert(lv[i as int] == lines@[i as int]@);
            assert(rest.skip(1) =~= lv.skip(i + 1));
        }
        if let Some(p) = parse_line(&lines[i]) {
            if p.uid == uid {
                proof {
                    assert(id_key(uid)(p@));
                }
                return Some(p);
            }
        }
        i += 1;
    }
    proof {
        assert(lv.skip(i as int) =~= Seq::<Seq<u8>>::empty());
    }
    None
}

/// Compares two byte strings for equality.
fn bytes_eq(a: &Vec<u8>, b: &Vec<u8>) -> (r: bool)
    ensures
        r == (a@ == b@),
{
    if a.len() != b.len() {
        return false;
    }
    let mut i: usize = 0;
    while i < a.len()
        invariant
            0 <= i <= a@.len(),
            a@.len() == b@.len(),
            forall|j: int| 0 <= j < i ==> a@[j] == b@[j],
        decreases a@.len() - i,
    {
        if a[i] != b[i] {
            return false;
        }
        i += 1;
    }
    proof {
        assert(a@ =~= b@);
    }
    true
}

/// Scans one file's lines for the first record named `name`, exactly as
/// `scan_lines` with `name_key` describes.
fn scan_file_by_name(lines: &Vec<Vec<u8>>, name: &Vec<u8>) -> (r: Option<Passwd>)
    ensures
        (match r {
            Some(p) => scan_lines(lines@.map_values(|l: Vec<u8>| l@), name_key(name@)) == Some(
                p@,
            ),
            None => scan_lines(lines@.map_values(|l: Vec<u8>| l@), name_key(name@)) is None,
        }),
{
    let ghost lv = lines@.map_values(|l: Vec<u8>| l@);
    let mut i: usize = 0;
    proof {
        assert(lv.skip(0) =~= lv);
    }
    while i < lines.len()
        invariant
            0 <= i <= lines@.len(),
            lv == lines@.map_values(|l: Vec<u8>| l@),
            scan_lines(lv, name_key(name@)) == scan_lines(lv.skip(i as int), name_key(name@)),
        decreases lines@.len() - i,
    {
        let ghost rest = lv.skip(i as int);
        proof {
            assert(rest[0] == lv[i as int]);
            assert(lv[i as int] == lines@[i as int]@);
            assert(rest.skip(1) =~= lv.skip(i + 1));
        }
        if let Some(p) = parse_line(&lines[i]) {
            if bytes_eq(&p.name, name) {
                proof {
                    assert(name_key(name@)(p@));
                }
                return Some(p);
            }
        }
        i += 1;
    }
    proof {
        assert(lv.skip(i as int) =~= Seq::<Seq<u8>>::empty());
    }
    None
}

/// What a finished lookup guarantees, given the first match the candidate
/// files hold for its key: no match leaves the arena and the layout
/// untouched and reports not-found; a match is serialized through the arena
/// into the layout as `write_effect` describes, success standing exactly for
/// a record written whole, and a record that did not fit reported distinctly.
pub open spec fn lookup_effect(
    found: Option<PasswdV>,
    old_arena_data: Seq<u8>,
    cap: nat,
    new_arena_data: Seq<u8>,
    old_out: PasswdLayout,
    new_out: PasswdLayout,
    st: LookupStatus,
) -> bool {
    match found {
        None => {
            &&& st == LookupStatus::NotFound
            &&& new_arena_data == old_arena_data
            &&& new_out == old_out
        },
        Some(p) => {
            &&& write_effect(
                p,
                old_arena_data,
                cap,
                new_arena_data,
                old_out,
                new_out,
                st == LookupStatus::Success,
            )
            &&& (st == LookupStatus::Success || st == LookupStatus::BufferTooSmall)
        },
    }
}

/// Looks up the first record with id `uid` over the candidate files, in
/// file-then-line order, and serializes it into the arena and the layout.
pub fn find_by_id(
    uid: u32,
    files: &Vec<CandidateFile>,
    arena: &mut OutputArena,
    out: &mut PasswdLayout,
) -> (st: LookupStatus)
    requires
        old(arena).wf(),
    ensures
        final(arena).wf(),
        final(arena).capacity_spec() == old(arena).capacity_spec(),
        lookup_effect(
            scan_files(files_view(files@), id_key(uid)),
            old(arena).data_spec(),
            old(arena).capacity_spec(),
            final(arena).data_spec(),
            *old(out),
            *final(out),
            st,
        ),
{
    let ghost fv = files_view(files@);
    let mut i: usize = 0;
    proof {
        assert(fv.skip(0) =~= fv);
    }
    while i < files.len()
        invariant
            0 <= i <= files@.len(),
            fv == files_view(files@),
            scan_files(fv, id_key(uid)) == scan_files(fv.skip(i as int), id_key(uid)),
            arena.wf(),
            arena == old(arena),
            out == old(out),
        decreases files@.len() - i,
    {
        let ghost rest = fv.skip(i as int);
        proof {
            assert(rest[0] == fv[i as int]);
            assert(fv[i as int] == files@[i as int]@);
            assert(rest.skip(1) =~= fv.skip(i + 1));
        }
        let f = &files[i];
        if f.opened {
            if let Some(p) = scan_file_by_id(&f.lines, uid) {
                proof {
                    assert(scan_files(fv, id_key(uid)) == Some(p@));
                }
                return match write_record(&p, arena, out) {
                    Ok(_) => LookupStatus::Success,
                    Err(_) => LookupStatus::BufferTooSmall,
                };
            }
        }
        i += 1;
    }
    proof {
        assert(fv.skip(i as int) =~= Seq::<CandidateFileV>::empty());
    }
    LookupStatus::NotFound
}

/// Looks up the first record named `name` (byte for byte) over the candidate
/// files, in file-then-line order, and serializes it into the arena and the
/// layout.
pub fn find_by_name(
    name: &Vec<u8>,
    files: &Vec<CandidateFile>,
    arena: &mut OutputArena,
    out: &mut PasswdLayout,
) -> (st: LookupStatus)
    requires
        old(arena).wf(),
    ensures
        final(arena).wf(),
        final(arena).capacity_spec() == old(arena).capacity_spec(),
        lookup_effect(
            scan_files(files_view(files@), name_key(name@)),
            old(arena).data_spec(),
            old(arena).capacity_spec(),
            final(arena).data_spec(),
            *old(out),
            *final(out),
            st,
        ),
{
    let ghost fv = files_view(files@);
    let mut i: usize = 0;
    proof {
        assert(fv.skip(0) =~= fv);
    }
    while i < files.len()
        invariant
            0 <= i <= files@.len(),
            fv == files_view(files@),
            scan_files(fv, name_key(name@)) == scan_files(fv.skip(i as int), name_key(name@)),
            arena.wf(),
            arena == old(arena),
            out == old(out),
        decreases files@.len() - i,
    {
        let ghost rest = fv.skip(i as int);
        proof {
            assert(rest[0] == fv[i as int]);
            assert(fv[i as int] == files@[i as int]@);
            assert(rest.skip(1) =~= fv.skip(i + 1));
        }
        let f = &files[i];
        if f.opened {
            if let Some(p) = scan_file_by_name(&f.lines, name) {
                proof {
                    assert(scan_files(fv, name_key(name@)) == Some(p@));
                }
                return match write_record(&p, arena, out) {
                    Ok(_) => LookupStatus::Success,
                    Err(_) => LookupStatus::BufferTooSmall,
                };
            }
        }
        i += 1;
    }
    proof {
        assert(fv.skip(i as int) =~= Seq::<CandidateFileV>::empty());
    }
    LookupStatus::NotFound
}

} // verus!
