//! Where snapshots are kept.
use vstd::prelude::*;
use vstd::string::{StrSliceExecFns, StringExecFns};

verus! {

/// The name of the file that holds the snapshot.
pub open spec fn snapshot_file() -> Seq<char> {
    "wallet_snapshot.bin"@
}

/// The name of the file that asks for the snapshot to be dropped.
pub open spec fn wipe_marker_file() -> Seq<char> {
    "wallet_snapshot.wipe-on-next-start"@
}

/// A file in a directory. A directory without a name is the current one, and one that ends in a slash
/// needs no other.
pub open spec fn joined(base: Seq<char>, file: Seq<char>) -> Seq<char> {
    if base.len() == 0 || base.last() == '/' {
        base + file
    } else {
        base + "/"@ + file
    }
}

fn join(base: &str, file: &str) -> (r: String)
    ensures
        r@ == joined(base@, file@),
{
    let mut path = base.to_owned();
    let n: usize = base.unicode_len();
    if n > 0 && base.get_char(n - 1) != '/' {
        path.append("/");
    }
    path.append(file);
    path
}

/// Where the snapshot lies.
pub fn snapshot_path(base: &str) -> (r: String)
    ensures
        r@ == joined(base@, snapshot_file()),
{
    join(base, "wallet_snapshot.bin")
}

/// Where the file lies that asks for the snapshot to be dropped at the next start.
pub fn wipe_marker_path(base: &str) -> (r: String)
    ensures
        r@ == joined(base@, wipe_marker_file()),
{
    join(base, "wallet_snapshot.wipe-on-next-start")
}

/// A path with one more extension behind those it has.
pub fn with_extension(path: &str, ext: &str) -> (r: String)
    ensures
        r@ == path@ + "."@ + ext@,
{
    let mut s = path.to_owned();
    s.append(".");
    s.append(ext);
    s
}

/// The snapshot and the file that asks to drop it are two files, whatever the directory.
pub proof fn marker_and_snapshot_differ(base: Seq<char>)
    ensures
        joined(base, snapshot_file()) != joined(base, wipe_marker_file()),
{
    reveal_strlit("wallet_snapshot.bin");
    reveal_strlit("wallet_snapshot.wipe-on-next-start");
    reveal_strlit("/");
    assert(snapshot_file().len() == 19 && wipe_marker_file().len() == 34);
    assert(joined(base, snapshot_file()).len() < joined(base, wipe_marker_file()).len());
}

} // verus!
