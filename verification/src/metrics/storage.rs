//! Disk space figures.
use vstd::prelude::*;

verus! {

/// The space of a mounted filesystem, as the system reports it.
#[derive(Debug, Clone)]
pub struct DiskSpace {
    /// Where the filesystem is mounted
    pub mount_point: String,
    /// Total space in bytes
    pub total_bytes: u64,
    /// Available space in bytes
    pub available_bytes: u64,
}

/// The used space of a filesystem: what is not available of the total.
pub fn used_bytes(total_bytes: u64, available_bytes: u64) -> (u: u64)
    requires
        available_bytes <= total_bytes,
    ensures
        u == total_bytes - available_bytes,
{
    total_bytes - available_bytes
}

/// The position of the first disk mounted at `/`, from position `i` on.
pub open spec fn root_position_from(disks: Seq<DiskSpace>, i: int) -> Option<int>
    decreases disks.len() - i,
{
    if i < 0 || i >= disks.len() {
        None
    } else if disks[i].mount_point@ == "/"@ {
        Some(i)
    } else {
        root_position_from(disks, i + 1)
    }
}

proof fn lemma_root_position_from(disks: Seq<DiskSpace>, i: int)
    requires
        0 <= i,
    ensures
        root_position_from(disks, i) matches Some(k) ==> i <= k < disks.len()
            && disks[k].mount_point@ == "/"@,
    decreases disks.len() - i,
{
    if i < disks.len() && disks[i].mount_point@ != "/"@ {
        lemma_root_position_from(disks, i + 1);
    }
}

/// The `(total, used)` bytes of the root filesystem: of the first disk mounted at `/`,
/// or `(0, 0)` where none is.
pub open spec fn root_usage(disks: Seq<DiskSpace>) -> (u64, u64) {
    match root_position_from(disks, 0) {
        Some(i) => (disks[i].total_bytes, (disks[i].total_bytes - disks[i].available_bytes) as u64),
        None => (0, 0),
    }
}

/// Whether the root filesystem reports no more space available than in total.
pub open spec fn root_consistent(disks: Seq<DiskSpace>) -> bool {
    root_position_from(disks, 0) matches Some(i) ==> disks[i].available_bytes
        <= disks[i].total_bytes
}

/// The `(total, used)` bytes of the root filesystem.
pub fn root_disk_usage(disks: &Vec<DiskSpace>) -> (r: (u64, u64))
    requires
        root_consistent(disks@),
    ensures
        r == root_usage(disks@),
{
    let root = String::from_str("/");
    proof {
        lemma_root_position_from(disks@, 0);
    }
    let mut i: usize = 0;
    while i < disks.len()
        invariant
            i <= disks.len(),
            root@ == "/"@,
            root_consistent(disks@),
            root_position_from(disks@, 0) == root_position_from(disks@, i as int),
        decreases disks.len() - i,
    {
        if disks[i].mount_point == root {
            let total = disks[i].total_bytes;
            return (total, used_bytes(total, disks[i].available_bytes));
        }
        i = i + 1;
    }
    (0, 0)
}

} // verus!

verus! {

/// The root filesystem figures are those of the first disk mounted at `/`: its total,
/// and its total less its available space; with no disk mounted at `/`, both are 0.
pub proof fn law_root_usage_first_root(disks: Seq<DiskSpace>)
    requires
        root_consistent(disks),
    ensures
        forall|i: int|
            0 <= i < disks.len() && (#[trigger] disks[i]).mount_point@ == "/"@ && (forall|j: int|
                0 <= j < i ==> disks[j].mount_point@ != "/"@) ==> root_usage(disks) == (
                disks[i].total_bytes,
                (disks[i].total_bytes - disks[i].available_bytes) as u64,
            ) && disks[i].available_bytes <= disks[i].total_bytes,
        (forall|j: int| 0 <= j < disks.len() ==> disks[j].mount_point@ != "/"@) ==> root_usage(disks)
            == (0u64, 0u64),
{
    assert forall|i: int|
        0 <= i < disks.len() && (#[trigger] disks[i]).mount_point@ == "/"@ && (forall|j: int|
            0 <= j < i ==> disks[j].mount_point@ != "/"@) implies root_position_from(disks, 0) == Some(i) by {
        lemma_root_position_at(disks, 0, i);
    }
    if forall|j: int| 0 <= j < disks.len() ==> disks[j].mount_point@ != "/"@ {
        lemma_no_root(disks, 0);
    }
}

proof fn lemma_root_position_at(disks: Seq<DiskSpace>, k: int, i: int)
    requires
        0 <= k <= i < disks.len(),
        disks[i].mount_point@ == "/"@,
        forall|j: int| 0 <= j < i ==> disks[j].mount_point@ != "/"@,
    ensures
        root_position_from(disks, k) == Some(i),
    decreases i - k,
{
    if k < i {
        lemma_root_position_at(disks, k + 1, i);
    }
}

proof fn lemma_no_root(disks: Seq<DiskSpace>, k: int)
    requires
        0 <= k,
        forall|j: int| 0 <= j < disks.len() ==> disks[j].mount_point@ != "/"@,
    ensures
        root_position_from(disks, k) is None,
    decreases disks.len() - k,
{
    if k < disks.len() {
        lemma_no_root(disks, k + 1);
    }
}

} // verus!
