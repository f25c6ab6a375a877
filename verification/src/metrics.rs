//! Disk and network totals over the machine's disks and interfaces.
//!
//! Totals saturate at `u64::MAX`: each is the true sum, capped.
use vstd::prelude::*;
use crate::text::chars_eq;
use crate::text::chars_of;

verus! {

/// What is known of one disk at the time of a sample.
pub struct DiskSample {
    pub mount_point: String,
    pub total_space: u64,
    pub available_space: u64,
    pub read_bytes: u64,
    pub written_bytes: u64,
    pub total_read_bytes: u64,
    pub total_written_bytes: u64,
}

/// Disk figures of a metrics batch.
pub struct DiskTotals {
    pub used: u64,
    pub total: u64,
    pub read_bytes: u64,
    pub written_bytes: u64,
    pub total_read_bytes: u64,
    pub total_written_bytes: u64,
}

/// What is known of one network interface at the time of a sample.
pub struct NetworkSample {
    pub received: u64,
    pub transmitted: u64,
    pub total_received: u64,
    pub total_transmitted: u64,
}

/// Network figures of a metrics batch.
pub struct NetworkTotals {
    pub received_bytes: u64,
    pub transmitted_bytes: u64,
    pub total_received_bytes: u64,
    pub total_transmitted_bytes: u64,
}

/// `x`, capped at `u64::MAX`.
pub open spec fn capped(x: int) -> u64 {
    if x > u64::MAX {
        u64::MAX
    } else {
        x as u64
    }
}

/// The sum of `f` over `s`.
pub open spec fn sum_of<A>(s: Seq<A>, f: spec_fn(A) -> u64) -> int
    decreases s.len(),
{
    if s.len() == 0 {
        0
    } else {
        sum_of(s.drop_last(), f) + f(s.last())
    }
}

/// A sum adds up item by item: one item sums to its own value, and the sum
/// over two lists one after the other is the sum of their sums.
pub proof fn lemma_sum_adds_up<A>(a: Seq<A>, b: Seq<A>, x: A, f: spec_fn(A) -> u64)
    ensures
        sum_of(seq![x], f) == f(x),
        sum_of(a + b, f) == sum_of(a, f) + sum_of(b, f),
    decreases b.len(),
{
    assert(seq![x].drop_last() =~= Seq::<A>::empty());
    assert(sum_of(seq![x], f) == sum_of(Seq::<A>::empty(), f) + f(seq![x].last()));
    if b.len() == 0 {
        assert(a + b =~= a);
    } else {
        lemma_sum_adds_up(a, b.drop_last(), x, f);
        assert((a + b).drop_last() =~= a + b.drop_last());
        assert((a + b).last() == b.last());
    }
}

/// The space in use on a disk: total less available, at least zero.
pub open spec fn used_space(d: DiskSample) -> u64 {
    if d.total_space >= d.available_space {
        (d.total_space - d.available_space) as u64
    } else {
        0
    }
}

/// The space in use and the space available make up a disk's total, when
/// the disk reports no more available space than it has; the space in use
/// is never more than the total.
pub proof fn lemma_used_space_complements(d: DiskSample)
    ensures
        d.available_space <= d.total_space ==> used_space(d) + d.available_space
            == d.total_space,
        used_space(d) <= d.total_space,
{
}

/// The mount point of the root file system.
pub open spec fn root_mount() -> Seq<char> {
    "/"@
}

/// The mount point of the data volume on macOS.
pub open spec fn data_volume_mount() -> Seq<char> {
    "/System/Volumes/Data"@
}

/// Whether `k` is the first disk of `disks` mounted at `m`.
pub open spec fn first_mounted_at(disks: Seq<DiskSample>, m: Seq<char>, k: int) -> bool {
    &&& 0 <= k < disks.len()
    &&& disks[k].mount_point@ == m
    &&& forall|j: int| 0 <= j < k ==> (#[trigger] disks[j]).mount_point@ != m
}

/// Whether some disk of `disks` is mounted at `m`.
pub open spec fn has_mount(disks: Seq<DiskSample>, m: Seq<char>) -> bool {
    exists|k: int| 0 <= k < disks.len() && (#[trigger] disks[k]).mount_point@ == m
}

/// The index of the first disk mounted at `lit`, if any.
fn find_mount(disks: &Vec<DiskSample>, lit: &str) -> (r: Option<usize>)
    ensures
        match r {
            Some(k) => first_mounted_at(disks@, lit@, k as int),
            None => !has_mount(disks@, lit@),
        },
{
    let mut i: usize = 0;
    while i < disks.len()
        invariant
            i <= disks.len(),
            forall|j: int| 0 <= j < i ==> (#[trigger] disks@[j]).mount_point@ != lit@,
        decreases disks.len() - i,
    {
        let m = chars_of(disks[i].mount_point.as_str());
        if chars_eq(&m, lit) {
            return Some(i);
        }
        i = i + 1;
    }
    None
}

/// Used and total space of the machine: those of the disk mounted at `/`
/// (on macOS, `prefer_data_volume`, that of `/System/Volumes/Data` first);
/// when there is no such disk, the capped sums over all disks.
pub fn disk_capacity(disks: &Vec<DiskSample>, prefer_data_volume: bool) -> (r: (u64, u64))
    ensures
        ({
            let s = disks@;
            if prefer_data_volume && has_mount(s, data_volume_mount()) {
                exists|k: int|
                    first_mounted_at(s, data_volume_mount(), k) && r == (
                        used_space(s[k]),
                        s[k].total_space,
                    )
            } else if has_mount(s, root_mount()) {
                exists|k: int|
                    first_mounted_at(s, root_mount(), k) && r == (
                        used_space(s[k]),
                        s[k].total_space,
                    )
            } else {
                r == (
                    capped(sum_of(s, |d: DiskSample| used_space(d))),
                    capped(sum_of(s, |d: DiskSample| d.total_space)),
                )
            }
        }),
{
    if prefer_data_volume {
        if let Some(k) = find_mount(disks, "/System/Volumes/Data") {
            let d = &disks[k];
            return (d.total_space.saturating_sub(d.available_space), d.total_space);
        }
    }
    if let Some(k) = find_mount(disks, "/") {
        let d = &disks[k];
        return (d.total_space.saturating_sub(d.available_space), d.total_space);
    }
    let mut used: u64 = 0;
    let mut total: u64 = 0;
    let mut i: usize = 0;
    while i < disks.len()
        invariant
            i <= disks.len(),
            used == capped(sum_of(disks@.take(i as int), |d: DiskSample| used_space(d))),
            total == capped(sum_of(disks@.take(i as int), |d: DiskSample| d.total_space)),
        decreases disks.len() - i,
    {
        let d = &disks[i];
        assert(disks@.take(i as int + 1) =~= disks@.take(i as int).push(disks@[i as int]));
        used = add_capped(
            used,
            d.total_space.saturating_sub(d.available_space),
            Ghost(disks@.take(i as int)),
            Ghost(|d: DiskSample| used_space(d)),
            Ghost(disks@[i as int]),
        );
        total = add_capped(
            total,
            d.total_space,
            Ghost(disks@.take(i as int)),
            Ghost(|d: DiskSample| d.total_space),
            Ghost(disks@[i as int]),
        );
        i = i + 1;
    }
    assert(disks@.take(disks.len() as int) =~= disks@);
    (used, total)
}

proof fn lemma_sum_nonneg<A>(s: Seq<A>, f: spec_fn(A) -> u64)
    ensures
        sum_of(s, f) >= 0,
    decreases s.len(),
{
    if s.len() > 0 {
        lemma_sum_nonneg(s.drop_last(), f);
    }
}

/// Adds `x` to a capped running sum.
fn add_capped<A>(acc: u64, x: u64, Ghost(s): Ghost<Seq<A>>, Ghost(f): Ghost<spec_fn(A) -> u64>, Ghost(a): Ghost<A>) -> (r: u64)
    requires
        acc == capped(sum_of(s, f)),
        x == f(a),
    ensures
        r == capped(sum_of(s.push(a), f)),
{
    proof {
        lemma_sum_nonneg(s, f);
        assert(s.push(a).drop_last() =~= s);
    }
    acc.saturating_add(x)
}

/// Disk figures of the machine: used and total space as `disk_capacity`
/// gives them, and the capped sums of the disks' I/O counters.
pub fn disk_usage(disks: &Vec<DiskSample>, prefer_data_volume: bool) -> (t: DiskTotals)
    ensures
        (t.used, t.total) == disk_capacity_spec(disks@, prefer_data_volume),
        t.read_bytes == capped(sum_of(disks@, |d: DiskSample| d.read_bytes)),
        t.written_bytes == capped(sum_of(disks@, |d: DiskSample| d.written_bytes)),
        t.total_read_bytes == capped(sum_of(disks@, |d: DiskSample| d.total_read_bytes)),
        t.total_written_bytes == capped(sum_of(disks@, |d: DiskSample| d.total_written_bytes)),
{
    let (used, total) = disk_capacity(disks, prefer_data_volume);
    proof {
        lemma_disk_capacity_spec(disks@, prefer_data_volume, (used, total));
    }
    let ghost s = disks@;
    let mut t = DiskTotals {
        used,
        total,
        read_bytes: 0,
        written_bytes: 0,
        total_read_bytes: 0,
        total_written_bytes: 0,
    };
    let mut i: usize = 0;
    while i < disks.len()
        invariant
            i <= disks.len(),
            s == disks@,
            (t.used, t.total) == disk_capacity_spec(s, prefer_data_volume),
            t.read_bytes == capped(sum_of(s.take(i as int), |d: DiskSample| d.read_bytes)),
            t.written_bytes == capped(sum_of(s.take(i as int), |d: DiskSample| d.written_bytes)),
            t.total_read_bytes == capped(
                sum_of(s.take(i as int), |d: DiskSample| d.total_read_bytes),
            ),
            t.total_written_bytes == capped(
                sum_of(s.take(i as int), |d: DiskSample| d.total_written_bytes),
            ),
        decreases disks.len() - i,
    {
        let d = &disks[i];
        assert(s.take(i as int + 1) =~= s.take(i as int).push(s[i as int]));
        t.read_bytes = add_capped(
            t.read_bytes,
            d.read_bytes,
            Ghost(s.take(i as int)),
            Ghost(|d: DiskSample| d.read_bytes),
            Ghost(s[i as int]),
        );
        t.written_bytes = add_capped(
            t.written_bytes,
            d.written_bytes,
            Ghost(s.take(i as int)),
            Ghost(|d: DiskSample| d.written_bytes),
            Ghost(s[i as int]),
        );
        t.total_read_bytes = add_capped(
            t.total_read_bytes,
            d.total_read_bytes,
            Ghost(s.take(i as int)),
            Ghost(|d: DiskSample| d.total_read_bytes),
            Ghost(s[i as int]),
        );
        t.total_written_bytes = add_capped(
            t.total_written_bytes,
            d.total_written_bytes,
            Ghost(s.take(i as int)),
            Ghost(|d: DiskSample| d.total_written_bytes),
            Ghost(s[i as int]),
        );
        i = i + 1;
    }
    assert(s.take(disks.len() as int) =~= s);
    t
}

/// Used and total space of the machine, as `disk_capacity` determines them.
pub open spec fn disk_capacity_spec(s: Seq<DiskSample>, prefer_data_volume: bool) -> (u64, u64) {
    if prefer_data_volume && has_mount(s, data_volume_mount()) {
        let k = choose|k: int| first_mounted_at(s, data_volume_mount(), k);
        (used_space(s[k]), s[k].total_space)
    } else if has_mount(s, root_mount()) {
        let k = choose|k: int| first_mounted_at(s, root_mount(), k);
        (used_space(s[k]), s[k].total_space)
    } else {
        (
            capped(sum_of(s, |d: DiskSample| used_space(d))),
            capped(sum_of(s, |d: DiskSample| d.total_space)),
        )
    }
}

proof fn lemma_first_mount_unique(s: Seq<DiskSample>, m: Seq<char>, k1: int, k2: int)
    requires
        first_mounted_at(s, m, k1),
        first_mounted_at(s, m, k2),
    ensures
        k1 == k2,
{
    if k1 < k2 {
        assert(s[k1].mount_point@ != m);
    } else if k2 < k1 {
        assert(s[k2].mount_point@ != m);
    }
}

proof fn lemma_disk_capacity_spec(s: Seq<DiskSample>, prefer_data_volume: bool, r: (u64, u64))
    requires
        if prefer_data_volume && has_mount(s, data_volume_mount()) {
            exists|k: int|
                first_mounted_at(s, data_volume_mount(), k) && r == (
                    used_space(s[k]),
                    s[k].total_space,
                )
        } else if has_mount(s, root_mount()) {
            exists|k: int|
                first_mounted_at(s, root_mount(), k) && r == (used_space(s[k]), s[k].total_space)
        } else {
            r == (
                capped(sum_of(s, |d: DiskSample| used_space(d))),
                capped(sum_of(s, |d: DiskSample| d.total_space)),
            )
        },
    ensures
        r == disk_capacity_spec(s, prefer_data_volume),
{
    if prefer_data_volume && has_mount(s, data_volume_mount()) {
        let k = choose|k: int|
            first_mounted_at(s, data_volume_mount(), k) && r == (
                used_space(s[k]),
                s[k].total_space,
            );
        let k2 = choose|k: int| first_mounted_at(s, data_volume_mount(), k);
        lemma_first_mount_unique(s, data_volume_mount(), k, k2);
    } else if has_mount(s, root_mount()) {
        let k = choose|k: int|
            first_mounted_at(s, root_mount(), k) && r == (used_space(s[k]), s[k].total_space);
        let k2 = choose|k: int| first_mounted_at(s, root_mount(), k);
        lemma_first_mount_unique(s, root_mount(), k, k2);
    }
}

/// Network figures of the machine: the capped sums of the interfaces'
/// counters.
pub fn network_usage(networks: &Vec<NetworkSample>) -> (t: NetworkTotals)
    ensures
        t.received_bytes == capped(sum_of(networks@, |n: NetworkSample| n.received)),
        t.transmitted_bytes == capped(sum_of(networks@, |n: NetworkSample| n.transmitted)),
        t.total_received_bytes == capped(sum_of(networks@, |n: NetworkSample| n.total_received)),
        t.total_transmitted_bytes == capped(
            sum_of(networks@, |n: NetworkSample| n.total_transmitted),
        ),
{
    let ghost s = networks@;
    let mut t = NetworkTotals {
        received_bytes: 0,
        transmitted_bytes: 0,
        total_received_bytes: 0,
        total_transmitted_bytes: 0,
    };
    let mut i: usize = 0;
    while i < networks.len()
        invariant
            i <= networks.len(),
            s == networks@,
            t.received_bytes == capped(sum_of(s.take(i as int), |n: NetworkSample| n.received)),
            t.transmitted_bytes == capped(
                sum_of(s.take(i as int), |n: NetworkSample| n.transmitted),
            ),
            t.total_received_bytes == capped(
                sum_of(s.take(i as int), |n: NetworkSample| n.total_received),
            ),
            t.total_transmitted_bytes == capped(
                sum_of(s.take(i as int), |n: NetworkSample| n.total_transmitted),
            ),
        decreases networks.len() - i,
    {
        let n = &networks[i];
        assert(s.take(i as int + 1) =~= s.take(i as int).push(s[i as int]));
        t.received_bytes = add_capped(
            t.received_bytes,
            n.received,
            Ghost(s.take(i as int)),
            Ghost(|n: NetworkSample| n.received),
            Ghost(s[i as int]),
        );
        t.transmitted_bytes = add_capped(
            t.transmitted_bytes,
            n.transmitted,
            Ghost(s.take(i as int)),
            Ghost(|n: NetworkSample| n.transmitted),
            Ghost(s[i as int]),
        );
        t.total_received_bytes = add_capped(
            t.total_received_bytes,
            n.total_received,
            Ghost(s.take(i as int)),
            Ghost(|n: NetworkSample| n.total_received),
            Ghost(s[i as int]),
        );
        t.total_transmitted_bytes = add_capped(
            t.total_transmitted_bytes,
            n.total_transmitted,
            Ghost(s.take(i as int)),
            Ghost(|n: NetworkSample| n.total_transmitted),
            Ghost(s[i as int]),
        );
        i = i + 1;
    }
    assert(s.take(networks.len() as int) =~= s);
    t
}

proof fn lemma_sum_remove<A>(s: Seq<A>, f: spec_fn(A) -> u64, k: int)
    requires
        0 <= k < s.len(),
    ensures
        sum_of(s, f) == sum_of(s.remove(k), f) + f(s[k]),
    decreases s.len(),
{
    if k == s.len() - 1 {
        assert(s.remove(k) =~= s.drop_last());
    } else {
        lemma_sum_remove(s.drop_last(), f, k);
        assert(s.remove(k).drop_last() =~= s.drop_last().remove(k));
        assert(s.remove(k).last() == s.last());
    }
}

/// A sum does not depend on the order of the items summed.
pub proof fn lemma_sum_order_free<A>(a: Seq<A>, b: Seq<A>, f: spec_fn(A) -> u64)
    requires
        a.to_multiset() == b.to_multiset(),
    ensures
        sum_of(a, f) == sum_of(b, f),
    decreases a.len(),
{
    broadcast use vstd::seq_lib::group_to_multiset_ensures;

    if a.len() == 0 {
        assert(b.to_multiset().len() == 0);
        assert(b.len() == 0);
    } else {
        let x = a.last();
        assert(a.to_multiset().count(x) > 0) by {
            assert(a.contains(x)) by {
                assert(a[a.len() - 1] == x);
            }
        }
        assert(b.contains(x));
        let k = choose|k: int| 0 <= k < b.len() && b[k] == x;
        lemma_sum_remove(b, f, k);
        assert(a.remove(a.len() - 1) =~= a.drop_last());
        assert(a.drop_last().to_multiset() =~= a.to_multiset().remove(x));
        assert(b.remove(k).to_multiset() =~= b.to_multiset().remove(x));
        lemma_sum_order_free(a.drop_last(), b.remove(k), f);
    }
}

/// The network totals do not depend on the order in which the interfaces
/// are listed: any two listings of the same interfaces give the same
/// totals.
pub proof fn lemma_network_totals_order_free(a: Seq<NetworkSample>, b: Seq<NetworkSample>)
    requires
        a.to_multiset() == b.to_multiset(),
    ensures
        capped(sum_of(a, |n: NetworkSample| n.received)) == capped(
            sum_of(b, |n: NetworkSample| n.received),
        ),
        capped(sum_of(a, |n: NetworkSample| n.transmitted)) == capped(
            sum_of(b, |n: NetworkSample| n.transmitted),
        ),
        capped(sum_of(a, |n: NetworkSample| n.total_received)) == capped(
            sum_of(b, |n: NetworkSample| n.total_received),
        ),
        capped(sum_of(a, |n: NetworkSample| n.total_transmitted)) == capped(
            sum_of(b, |n: NetworkSample| n.total_transmitted),
        ),
{
    lemma_sum_order_free(a, b, |n: NetworkSample| n.received);
    lemma_sum_order_free(a, b, |n: NetworkSample| n.transmitted);
    lemma_sum_order_free(a, b, |n: NetworkSample| n.total_received);
    lemma_sum_order_free(a, b, |n: NetworkSample| n.total_transmitted);
}

} // verus!
