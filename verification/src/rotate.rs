//! Backup rotation: naming of timestamped backup copies, recognition of
//! backup files, and the choice of which old backups to delete. The
//! surrounding binary lists the directory, copies and deletes files; which
//! files those are is decided here.

use vstd::prelude::*;

verus! {

/// The `.bak` suffix, as bytes.
pub open spec fn bak_suffix() -> Seq<u8> {
    seq![0x2eu8, 0x62u8, 0x61u8, 0x6bu8]
}

/// Whether a file name (as bytes) is a backup file name: it ends in `.bak`.
pub open spec fn is_backup_name_spec(name: Seq<u8>) -> bool {
    name.len() >= 4 && name.subrange(name.len() - 4, name.len() as int) == bak_suffix()
}

pub fn is_backup_name(name: &Vec<u8>) -> (r: bool)
    ensures
        r == is_backup_name_spec(name@),
{
    if name.len() < 4 {
        return false;
    }
    let n = name.len();
    let r = name[n - 4] == 0x2e && name[n - 3] == 0x62 && name[n - 2] == 0x61 && name[n - 1]
        == 0x6b;
    proof {
        if r {
            assert(name@.subrange(name@.len() - 4, name@.len() as int) =~= bak_suffix());
        } else {
            assert(name@.subrange(name@.len() - 4, name@.len() as int) != bak_suffix()) by {
                if name@.subrange(name@.len() - 4, name@.len() as int) == bak_suffix() {
                    assert(name@[name@.len() - 4] == 0x2e);
                    assert(name@[name@.len() - 3] == 0x62);
                    assert(name@[name@.len() - 2] == 0x61);
                    assert(name@[name@.len() - 1] == 0x6b);
                }
            }
        }
    }
    r
}

/// The name of a timestamped backup beside the session file:
/// `<stem>-<timestamp>.bak`.
pub fn backup_file_name(stem: &str, timestamp: &str) -> (r: String)
    ensures
        r@ == stem@ + "-"@ + timestamp@ + ".bak"@,
{
    let mut r = stem.to_owned();
    r.append("-");
    r.append(timestamp);
    r.append(".bak");
    r
}

/// Relies on chrono's `Local::now` and `DateTime::to_rfc3339_opts`: renders
/// the current local time, to second precision, in RFC 3339 form. The
/// result depends on the clock, so nothing is promised of it.
#[verifier::external_body]
fn local_timestamp_secs() -> String {
    chrono::Local::now().to_rfc3339_opts(chrono::SecondsFormat::Secs, true)
}

/// The backup name for the present moment: the stem, a dash, the current
/// local timestamp, and the `.bak` suffix.
pub fn timestamped_backup_name(stem: &str) -> (r: String)
    ensures
        exists|ts: Seq<char>| r@ == stem@ + "-"@ + ts + ".bak"@,
{
    let ts = local_timestamp_secs();
    let r = backup_file_name(stem, ts.as_str());
    proof {
        assert(r@ == stem@ + "-"@ + ts@ + ".bak"@);
    }
    r
}

/// Whether entry `j` outranks entry `i`: strictly more recent, or equally
/// recent with the smaller position (the deterministic tie-break).
pub open spec fn outranks(mtimes: Seq<u64>, j: int, i: int) -> bool {
    mtimes[j] > mtimes[i] || (mtimes[j] == mtimes[i] && j < i)
}

pub open spec fn outrank_count_from(mtimes: Seq<u64>, i: int, j: int) -> nat
    decreases mtimes.len() - j,
{
    if j < 0 || j >= mtimes.len() {
        0
    } else {
        (if j != i && outranks(mtimes, j, i) {
            1nat
        } else {
            0nat
        }) + outrank_count_from(mtimes, i, j + 1)
    }
}

/// The rank of entry `i` among the backups: how many entries outrank it.
/// The `keep` most recent entries are exactly those of rank below `keep`.
pub open spec fn rank(mtimes: Seq<u64>, i: int) -> nat {
    outrank_count_from(mtimes, i, 0)
}

/// Which backups a rotation pass deletes, given one modification time per
/// backup file: every entry that is not among the `keep` most recent,
/// most-recent-first with ties broken by position. The result lists
/// positions into `mtimes`, in increasing order. When there are at most
/// `keep` entries nothing is deleted.
pub fn rotate_plan(mtimes: &Vec<u64>, keep: usize) -> (del: Vec<usize>)
    ensures
        forall|k: int| 0 <= k < del@.len() ==> (del@[k] as int) < mtimes@.len(),
        forall|a: int, b: int| 0 <= a < b < del@.len() ==> del@[a] < del@[b],
        forall|i: int|
            0 <= i < mtimes@.len() ==> (del@.contains(i as usize) <==> rank(mtimes@, i) >= keep),
{
    let mut del: Vec<usize> = Vec::new();
    let mut i: usize = 0;
    while i < mtimes.len()
        invariant
            i <= mtimes@.len(),
            forall|k: int| 0 <= k < del@.len() ==> (del@[k] as int) < i,
            forall|a: int, b: int| 0 <= a < b < del@.len() ==> del@[a] < del@[b],
            forall|j: int|
                0 <= j < i ==> (del@.contains(j as usize) <==> rank(mtimes@, j) >= keep),
        decreases mtimes@.len() - i,
    {
        let r = rank_of(mtimes, i);
        let ghost old_del = del@;
        if r >= keep {
            del.push(i);
            proof {
                assert forall|j: int|
                    0 <= j < i + 1 implies (del@.contains(j as usize) <==> rank(mtimes@, j)
                    >= keep) by {
                    if j < i {
                        if old_del.contains(j as usize) {
                            let k = choose|k: int| 0 <= k < old_del.len() && old_del[k] == (j as usize);
                            assert(del@[k] == (j as usize));
                        }
                        if del@.contains(j as usize) {
                            let k = choose|k: int| 0 <= k < del@.len() && del@[k] == (j as usize);
                            assert(k < old_del.len());
                        }
                    } else {
                        assert(del@[del@.len() - 1] == (j as usize));
                    }
                }
            }
        } else {
            proof {
                assert forall|j: int|
                    0 <= j < i + 1 implies (del@.contains(j as usize) <==> rank(mtimes@, j)
                    >= keep) by {
                    if j == i && del@.contains(j as usize) {
                        let k = choose|k: int| 0 <= k < del@.len() && del@[k] == (j as usize);
                        assert((del@[k] as int) < i);
                    }
                }
            }
        }
        i = i + 1;
    }
    del
}

/// The rank of entry `i`, computed by scanning all entries.
fn rank_of(mtimes: &Vec<u64>, i: usize) -> (r: usize)
    requires
        i < mtimes@.len(),
    ensures
        r == rank(mtimes@, i as int),
{
    let mut r: usize = 0;
    let mut j: usize = 0;
    while j < mtimes.len()
        invariant
            j <= mtimes@.len(),
            i < mtimes@.len(),
            r <= j,
            rank(mtimes@, i as int) == r + outrank_count_from(mtimes@, i as int, j as int),
        decreases mtimes@.len() - j,
    {
        if j != i && (mtimes[j] > mtimes[i] || (mtimes[j] == mtimes[i] && j < i)) {
            r = r + 1;
        }
        j = j + 1;
    }
    r
}

} // verus!
