use crate::arena::ArenaError;
use crate::arena::OutputArena;
use crate::parse::Passwd;
use crate::parse::PasswdV;
use vstd::prelude::*;

verus! {

/// The boundary-facing record, with its fields in the fixed, stable order
/// name, password, user id, group id, comment, home directory, shell. The
/// two ids are held directly; each text field is the offset, inside the
/// caller's output region, of that field's null-terminated bytes.
pub struct PasswdLayout {
    pub name: usize,
    pub passwd: usize,
    pub uid: u32,
    pub gid: u32,
    pub gecos: usize,
    pub dir: usize,
    pub shell: usize,
}

/// The bytes of the `i`-th text field of `p` in serialization order (name,
/// password, comment, home directory, shell), with the terminator.
pub open spec fn field_bytes(p: PasswdV, i: int) -> Seq<u8> {
    (if i == 0 {
        p.name
    } else if i == 1 {
        p.passwd
    } else if i == 2 {
        p.gecos
    } else if i == 3 {
        p.dir
    } else {
        p.shell
    }) + seq![0u8]
}

/// The serialization of the first `k` text fields of `p`, one after another.
pub open spec fn serialized(p: PasswdV, k: int) -> Seq<u8>
    decreases k,
{
    if k <= 0 {
        Seq::<u8>::empty()
    } else {
        serialized(p, k - 1) + field_bytes(p, k - 1)
    }
}

/// How many of the text fields of `p` from index `i` on still fit when
/// `avail` bytes are free, counted greedily in serialization order.
pub open spec fn fit_from(p: PasswdV, i: int, avail: int) -> int
    decreases 5 - i,
{
    if i >= 5 {
        5
    } else if field_bytes(p, i).len() <= avail {
        fit_from(p, i + 1, avail - field_bytes(p, i).len())
    } else {
        i
    }
}

/// How many leading text fields of `p` fit in `avail` free bytes when they
/// are written one after another: the first field that does not fit stops
/// the record, whole; all five fit exactly when the count is five.
pub open spec fn fit_count(p: PasswdV, avail: int) -> int {
    fit_from(p, 0, avail)
}

/// What writing record `p` does to an arena holding `old_data` bytes of a
/// region of `cap` bytes, and to the boundary layout: as many leading text
/// fields as fit are appended, each field's slot takes the offset at which
/// its bytes start, the ids are copied once the first two text fields stand,
/// every other slot keeps its old value, and the write as a whole succeeds
/// exactly when all five text fields fit.
pub open spec fn write_effect(
    p: PasswdV,
    old_data: Seq<u8>,
    cap: nat,
    new_data: Seq<u8>,
    old_out: PasswdLayout,
    new_out: PasswdLayout,
    ok: bool,
) -> bool {
    let base = old_data.len() as int;
    let fit = fit_count(p, cap - base);
    &&& new_data == old_data + serialized(p, fit)
    &&& (ok <==> fit == 5)
    &&& (if fit >= 1 {
        new_out.name == base + serialized(p, 0).len()
    } else {
        new_out.name == old_out.name
    })
    &&& (if fit >= 2 {
        &&& new_out.passwd == base + serialized(p, 1).len()
        &&& new_out.uid == p.uid
        &&& new_out.gid == p.gid
    } else {
        &&& new_out.passwd == old_out.passwd
        &&& new_out.uid == old_out.uid
        &&& new_out.gid == old_out.gid
    })
    &&& (if fit >= 3 {
        new_out.gecos == base + serialized(p, 2).len()
    } else {
        new_out.gecos == old_out.gecos
    })
    &&& (if fit >= 4 {
        new_out.dir == base + serialized(p, 3).len()
    } else {
        new_out.dir == old_out.dir
    })
    &&& (if fit >= 5 {
        new_out.shell == base + serialized(p, 4).len()
    } else {
        new_out.shell == old_out.shell
    })
}

/// Copies a matched record into the boundary layout: the two ids directly,
/// each text field serialized through the arena and located by its offset.
/// Fields are written in the fixed order; on the first text field that would
/// pass the arena's capacity the whole call reports `BufferTooSmall`, with
/// the fields already written left in place and the rest untouched.
pub fn write_record(p: &Passwd, arena: &mut OutputArena, out: &mut PasswdLayout) -> (r: Result<
    (),
    ArenaError,
>)
    requires
        old(arena).wf(),
    ensures
        final(arena).wf(),
        final(arena).capacity_spec() == old(arena).capacity_spec(),
        write_effect(
            p@,
            old(arena).data_spec(),
            old(arena).capacity_spec(),
            final(arena).data_spec(),
            *old(out),
            *final(out),
            r is Ok,
        ),
        r is Err ==> r == Err::<(), ArenaError>(ArenaError::BufferTooSmall),
{
    let ghost base = old(arena).data_spec().len() as int;
    let ghost avail0 = old(arena).capacity_spec() - base;
    let ghost avail1 = avail0 - field_bytes(p@, 0).len();
    let ghost avail2 = avail1 - field_bytes(p@, 1).len();
    let ghost avail3 = avail2 - field_bytes(p@, 2).len();
    let ghost avail4 = avail3 - field_bytes(p@, 3).len();
    proof {
        assert(serialized(p@, 0) == Seq::<u8>::empty());
        assert(old(arena).data_spec() + serialized(p@, 0) =~= old(arena).data_spec());
    }
    let o_name = match arena.write_text(&p.name) {
        Ok(o) => o,
        Err(e) => {
            proof {
                assert(fit_from(p@, 0, avail0) == 0);
            }
            return Err(e);
        },
    };
    proof {
        assert(fit_from(p@, 0, avail0) == fit_from(p@, 1, avail1));
        assert(arena.data_spec() =~= old(arena).data_spec() + serialized(p@, 1));
    }
    out.name = o_name;
    let o_passwd = match arena.write_text(&p.passwd) {
        Ok(o) => o,
        Err(e) => {
            proof {
                assert(fit_from(p@, 1, avail1) == 1);
            }
            return Err(e);
        },
    };
    proof {
        assert(fit_from(p@, 1, avail1) == fit_from(p@, 2, avail2));
        assert(arena.data_spec() =~= old(arena).data_spec() + serialized(p@, 2));
    }
    out.passwd = o_passwd;
    out.uid = p.uid;
    out.gid = p.gid;
    let o_gecos = match arena.write_text(&p.gecos) {
        Ok(o) => o,
        Err(e) => {
            proof {
                assert(fit_from(p@, 2, avail2) == 2);
            }
            return Err(e);
        },
    };
    proof {
        assert(fit_from(p@, 2, avail2) == fit_from(p@, 3, avail3));
        assert(arena.data_spec() =~= old(arena).data_spec() + serialized(p@, 3));
    }
    out.gecos = o_gecos;
    let o_dir = match arena.write_text(&p.dir) {
        Ok(o) => o,
        Err(e) => {
            proof {
                assert(fit_from(p@, 3, avail3) == 3);
            }
            return Err(e);
        },
    };
    proof {
        assert(fit_from(p@, 3, avail3) == fit_from(p@, 4, avail4));
        assert(arena.data_spec() =~= old(arena).data_spec() + serialized(p@, 4));
    }
    out.dir = o_dir;
    let o_shell = match arena.write_text(&p.shell) {
        Ok(o) => o,
        Err(e) => {
            proof {
                assert(fit_from(p@, 4, avail4) == 4);
            }
            return Err(e);
        },
    };
    proof {
        assert(fit_from(p@, 5, avail4 - field_bytes(p@, 4).len()) == 5);
        assert(fit_from(p@, 4, avail4) == 5);
        assert(arena.data_spec() =~= old(arena).data_spec() + serialized(p@, 5));
        assert(fit_count(p@, avail0) == 5);
    }
    out.shell = o_shell;
    Ok(())
}

} // verus!
