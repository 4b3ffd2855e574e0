//! Chains of clusters and directory listings.

use vstd::prelude::*;
use crate::consts::{EOC, FRE};
use crate::error::FsError;
use crate::{Chain, Cluster, Dir, DirEntry, FatEntry};
use self::basic_fs_io::{
    lemma_cluster_round_trip, lemma_fat_entry_round_trip, lemma_put_cluster_frame,
    lemma_put_fat_entry_frame, lemma_slot_in_cluster, BaseIO, FileSystemBasicIO, Volume,
};
use self::directory::{decoded, zeros, DirectoryEntry, DirectoryEntryView, InodeView};
use vstd::string::*;

pub mod basic_fs_io;
pub mod directory;
pub mod filesystem;
pub mod split;

verus! {

/// The lowest cluster at or behind `next` whose table entry says that it is free.
/// The search ends with the error of the first entry that cannot be read, which
/// is the entry behind the table where no cluster is free.
pub open spec fn first_free(volume: Volume, next: FatEntry) -> Result<FatEntry, FsError>
    decreases u32::MAX - next,
{
    match volume.fat_entry(next) {
        Err(e) => Err(e),
        Ok(entry) => if entry == FRE {
            Ok(next)
        } else {
            first_free(volume, (next + 1) as u32)
        },
    }
}

/// What allocating a cluster gives: the cluster, and the volume in which its
/// table entry ends a chain.
pub open spec fn allocated(volume: Volume) -> Result<(FatEntry, Volume), FsError> {
    match first_free(volume, 1) {
        Err(e) => Err(e),
        Ok(cluster) => match volume.put_fat_entry(cluster, EOC) {
            Err(e) => Err(e),
            Ok(after) => Ok((cluster, after)),
        },
    }
}

/// `rest` behind `first`, where there is a rest.
pub open spec fn behind(first: Seq<FatEntry>, rest: Result<Seq<FatEntry>, FsError>) -> Result<
    Seq<FatEntry>,
    FsError,
> {
    match rest {
        Err(e) => Err(e),
        Ok(rest) => Ok(first + rest),
    }
}

/// The clusters from `cluster` on, link by link, up to the end of the chain. A
/// chain with more than `fuel` links never ends.
pub open spec fn walk(volume: Volume, cluster: FatEntry, fuel: nat) -> Result<
    Seq<FatEntry>,
    FsError,
>
    decreases fuel,
{
    if cluster == EOC {
        Ok(Seq::empty())
    } else {
        match volume.fat_entry(cluster) {
            Err(e) => Err(e),
            Ok(next) => if fuel == 0 {
                Err(FsError::Cycle)
            } else {
                behind(seq![cluster], walk(volume, next, (fuel - 1) as nat))
            },
        }
    }
}

/// Each cluster of `chain` points to the next one, and the last one ends the chain.
pub open spec fn is_chain(volume: Volume, chain: Seq<FatEntry>) -> bool {
    forall|i: int|
        0 <= i < chain.len() ==> #[trigger] volume.fat_entry(chain[i]) == Ok::<FatEntry, FsError>(
            if i + 1 < chain.len() {
                chain[i + 1]
            } else {
                EOC
            },
        )
}

/// What is known of the cluster that a search for a free one finds: it was free,
/// and every cluster before it was read and was not.
pub proof fn lemma_first_free(volume: Volume, next: FatEntry)
    ensures
        first_free(volume, next) matches Ok(cluster) ==> {
            &&& next <= cluster
            &&& volume.fat_entry(cluster) == Ok::<FatEntry, FsError>(FRE)
            &&& forall|lower: FatEntry|
                next <= lower < cluster ==> (#[trigger] volume.fat_entry(lower) matches Ok(entry)
                    && entry != FRE)
        },
    decreases u32::MAX - next,
{
    if let Ok(entry) = volume.fat_entry(next) {
        if entry != FRE {
            lemma_first_free(volume, (next + 1) as u32);
        }
    }
}

/// The volume after the last cluster of `chain`, if it has one, was made to point
/// to `cluster`.
pub open spec fn linked(volume: Volume, chain: Seq<FatEntry>, cluster: FatEntry) -> Result<
    Volume,
    FsError,
> {
    if chain.len() == 0 {
        Ok(volume)
    } else {
        volume.put_fat_entry(chain.last(), cluster)
    }
}

/// Appending keeps a chain a chain: where a free cluster is found, it is linked
/// behind the last cluster, each cluster then points to the next one as before,
/// and the new cluster ends the chain. So a chain that grew from the empty one
/// by `n` appends has `n` clusters, linked in order.
pub proof fn lemma_append_keeps_chain(volume: Volume, chain: Seq<FatEntry>)
    requires
        is_chain(volume, chain),
        allocated(volume) is Ok,
    ensures
        ({
            let (cluster, claimed) = allocated(volume)->Ok_0;
            linked(claimed, chain, cluster) matches Ok(after) && is_chain(
                after,
                chain.push(cluster),
            )
        }),
{
    let (cluster, claimed) = allocated(volume)->Ok_0;
    let longer = chain.push(cluster);
    lemma_first_free(volume, 1);
    lemma_put_fat_entry_frame(volume, cluster, EOC);
    lemma_fat_entry_round_trip(volume, cluster, EOC);
    assert forall|i: int| 0 <= i < chain.len() implies chain[i] != cluster && #[trigger]
        claimed.fat_entry(chain[i]) == volume.fat_entry(chain[i]) by {
        if i + 1 < chain.len() {
            assert(volume.fat_entry(chain[i + 1]) is Ok);
        }
    }
    if chain.len() > 0 {
        let last = chain.last();
        assert(claimed.fat_entry(last) == Ok::<FatEntry, FsError>(EOC));
        lemma_fat_entry_round_trip(claimed, last, cluster);
        let after = claimed.put_fat_entry(last, cluster)->Ok_0;
        lemma_put_fat_entry_frame(claimed, last, cluster);
        assert forall|i: int| 0 <= i < longer.len() implies #[trigger] after.fat_entry(longer[i])
            == Ok::<FatEntry, FsError>(
            if i + 1 < longer.len() {
                longer[i + 1]
            } else {
                EOC
            },
        ) by {
            if i + 1 < chain.len() {
                assert(volume.fat_entry(chain[i + 1]) is Ok);
            }
        }
    }
}

/// The volume and the chain after `n` clusters were appended to the empty chain,
/// one by one.
pub open spec fn grown(volume: Volume, n: nat) -> Result<(Volume, Seq<FatEntry>), FsError>
    decreases n,
{
    if n == 0 {
        Ok((volume, Seq::empty()))
    } else {
        match grown(volume, (n - 1) as nat) {
            Err(e) => Err(e),
            Ok((before, chain)) => match allocated(before) {
                Err(e) => Err(e),
                Ok((cluster, claimed)) => match linked(claimed, chain, cluster) {
                    Err(e) => Err(e),
                    Ok(after) => Ok((after, chain.push(cluster))),
                },
            },
        }
    }
}

/// A chain that grew from the empty one by `n` appends has `n` clusters, each
/// of which points to the next one while the last one ends the chain; and
/// walking from its first cluster gives the chain, cluster by cluster.
pub proof fn lemma_grown_chain(volume: Volume, n: nat)
    ensures
        grown(volume, n) matches Ok((after, chain)) ==> {
            &&& chain.len() == n
            &&& is_chain(after, chain)
            &&& n > 0 ==> walk(after, chain[0], after.fat_length as nat) == Ok::<
                Seq<FatEntry>,
                FsError,
            >(chain)
        },
    decreases n,
{
    if n > 0 {
        lemma_grown_chain(volume, (n - 1) as nat);
        if let Ok((before, chain)) = grown(volume, (n - 1) as nat) {
            if allocated(before) is Ok {
                lemma_append_keeps_chain(before, chain);
                if let Ok((after, longer)) = grown(volume, n) {
                    lemma_walk_chain(after, longer);
                }
            }
        }
    }
}

/// No cluster occurs twice in a chain.
pub proof fn lemma_chain_distinct(volume: Volume, chain: Seq<FatEntry>, i: int, j: int)
    requires
        is_chain(volume, chain),
        0 <= i < j < chain.len(),
    ensures
        chain[i] != chain[j],
    decreases chain.len() - j,
{
    if chain[i] == chain[j] {
        assert(volume.fat_entry(chain[i]) == volume.fat_entry(chain[j]));
        assert(volume.fat_entry(chain[i + 1]) is Ok);
        if j + 1 < chain.len() {
            lemma_chain_distinct(volume, chain, i + 1, j + 1);
        }
    }
}

/// A chain has at most as many clusters as the table has entries.
pub proof fn lemma_chain_length(volume: Volume, chain: Seq<FatEntry>)
    requires
        is_chain(volume, chain),
    ensures
        chain.len() <= volume.fat_length,
{
    let numbers = chain.map_values(|cluster: FatEntry| cluster as int);
    assert forall|i: int, j: int| 0 <= i < numbers.len() && 0 <= j < numbers.len() && i
        != j implies numbers[i] != numbers[j] by {
        if i < j {
            lemma_chain_distinct(volume, chain, i, j);
        } else {
            lemma_chain_distinct(volume, chain, j, i);
        }
    }
    numbers.unique_seq_to_set();
    let range = vstd::set_lib::set_int_range(1, volume.fat_length + 1);
    vstd::set_lib::lemma_int_range(1, volume.fat_length + 1);
    assert forall|number: int| numbers.to_set().contains(number) implies range.contains(
        number,
    ) by {
        let i = choose|i: int| 0 <= i < numbers.len() && numbers[i] == number;
        assert(volume.fat_entry(chain[i]) is Ok);
    }
    vstd::set_lib::lemma_len_subset(numbers.to_set(), range);
}

/// Walking from a cluster of a chain gives the rest of the chain, where the fuel
/// is enough for it.
proof fn lemma_walk_rest(volume: Volume, chain: Seq<FatEntry>, from: int, fuel: nat)
    requires
        is_chain(volume, chain),
        0 <= from <= chain.len(),
        chain.len() - from <= fuel,
    ensures
        walk(
            volume,
            if from < chain.len() {
                chain[from]
            } else {
                EOC
            },
            fuel,
        ) == Ok::<Seq<FatEntry>, FsError>(chain.subrange(from, chain.len() as int)),
    decreases chain.len() - from,
{
    if from < chain.len() {
        lemma_walk_rest(volume, chain, from + 1, (fuel - 1) as nat);
        assert(seq![chain[from]] + chain.subrange(from + 1, chain.len() as int)
            =~= chain.subrange(from, chain.len() as int));
    } else {
        assert(chain.subrange(from, chain.len() as int) =~= Seq::<FatEntry>::empty());
    }
}

/// Walking from the head of a chain gives the chain, cluster by cluster.
pub proof fn lemma_walk_chain(volume: Volume, chain: Seq<FatEntry>)
    requires
        is_chain(volume, chain),
        chain.len() > 0,
    ensures
        walk(volume, chain[0], volume.fat_length as nat) == Ok::<Seq<FatEntry>, FsError>(chain),
{
    lemma_chain_length(volume, chain);
    lemma_walk_rest(volume, chain, 0, volume.fat_length as nat);
    assert(chain.subrange(0, chain.len() as int) =~= chain);
}

/// The volume after the first `n` clusters of `chain` were set free one by one,
/// and whether that went well: the first cluster whose entry cannot be written
/// ends it, and the clusters before it stay free.
pub open spec fn set_free(volume: Volume, chain: Seq<FatEntry>, n: int) -> (
    Volume,
    Result<(), FsError>,
)
    decreases n,
{
    if n <= 0 {
        (volume, Ok(()))
    } else {
        let (before, so_far) = set_free(volume, chain, n - 1);
        match so_far {
            Err(e) => (before, Err(e)),
            Ok(()) => match before.put_fat_entry(chain[n - 1], FRE) {
                Err(e) => (before, Err(e)),
                Ok(after) => (after, Ok(())),
            },
        }
    }
}

/// Once a cluster could not be set free, nothing more is done.
proof fn lemma_set_free_stays_failed(volume: Volume, chain: Seq<FatEntry>, n: int, m: int)
    requires
        set_free(volume, chain, n).1 is Err,
        n <= m,
    ensures
        set_free(volume, chain, m) == set_free(volume, chain, n),
    decreases m - n,
{
    if n < m {
        lemma_set_free_stays_failed(volume, chain, n, m - 1);
    }
}

/// Every cluster of a chain can be set free; then each of them is free, and the
/// table entry of every other cluster is as it was.
pub proof fn lemma_set_free(volume: Volume, chain: Seq<FatEntry>, n: int)
    requires
        is_chain(volume, chain),
        0 <= n <= chain.len(),
    ensures
        ({
            let (after, done) = set_free(volume, chain, n);
            &&& done is Ok
            &&& after.fat_length == volume.fat_length
            &&& after.data_base == volume.data_base
            &&& after.image.len() == volume.image.len()
            &&& forall|i: int|
                0 <= i < n ==> #[trigger] after.fat_entry(chain[i]) == Ok::<FatEntry, FsError>(FRE)
            &&& forall|other: FatEntry|
                (forall|i: int| 0 <= i < n ==> chain[i] != other) ==> #[trigger] after.fat_entry(
                    other,
                ) == volume.fat_entry(other)
        }),
    decreases n,
{
    if n > 0 {
        lemma_set_free(volume, chain, n - 1);
        let (before, _) = set_free(volume, chain, n - 1);
        let cluster = chain[n - 1];
        assert(volume.fat_entry(cluster) is Ok);
        lemma_fat_entry_round_trip(before, cluster, FRE);
        lemma_put_fat_entry_frame(before, cluster, FRE);
        let (after, _) = set_free(volume, chain, n);
        assert forall|i: int| 0 <= i < n implies #[trigger] after.fat_entry(chain[i]) == Ok::<
            FatEntry,
            FsError,
        >(FRE) by {}
        assert forall|other: FatEntry|
            (forall|i: int| 0 <= i < n ==> chain[i] != other) implies #[trigger] after.fat_entry(
            other,
        ) == volume.fat_entry(other) by {}
    }
}

/// The name that is pending once `entry` was seen with `pending` pending: a
/// fragment adds its text, every other entry leaves nothing pending.
pub open spec fn pending_after(pending: Seq<char>, entry: DirectoryEntryView) -> Seq<char> {
    match entry {
        DirectoryEntryView::LongFileName(text) => pending + text,
        _ => Seq::empty(),
    }
}

/// An entry as a listing shows it: an inode carries the pending name before its own.
pub open spec fn listed(pending: Seq<char>, entry: DirectoryEntryView) -> DirectoryEntryView {
    match entry {
        DirectoryEntryView::File(inode) => DirectoryEntryView::File(
            InodeView { name: pending + inode.name, ..inode },
        ),
        DirectoryEntryView::Directory(inode) => DirectoryEntryView::Directory(
            InodeView { name: pending + inode.name, ..inode },
        ),
        other => other,
    }
}

/// The name that is pending once all of `entries` were seen, first to last.
pub open spec fn pending_name(entries: Seq<DirectoryEntryView>) -> Seq<char>
    decreases entries.len(),
{
    if entries.len() == 0 {
        Seq::empty()
    } else {
        pending_after(pending_name(entries.drop_last()), entries.last())
    }
}

/// What stands in place `k` of a directory that lies in `chain`: slot `k % 16` of
/// cluster `chain[k / 16]`.
pub open spec fn slot_entry(volume: Volume, chain: Seq<FatEntry>, k: int) -> Result<
    DirectoryEntryView,
    FsError,
> {
    match volume.slot(chain[k / 16], (k % 16) as u32) {
        Err(e) => Err(e),
        Ok(raw) => decoded(raw),
    }
}

/// The entries in the first `n` places of a directory that lies in `chain`.
pub open spec fn slot_entries(volume: Volume, chain: Seq<FatEntry>, n: int) -> Seq<
    DirectoryEntryView,
> {
    Seq::new(n as nat, |k: int| slot_entry(volume, chain, k)->Ok_0)
}

/// Place `k` of the listing of a directory that lies in `chain`: the entry with
/// the name that the fragments before it spell, and the cluster and slot it is in.
pub open spec fn listing_at(volume: Volume, chain: Seq<FatEntry>, k: int) -> (
    DirectoryEntryView,
    FatEntry,
    u32,
) {
    (
        listed(pending_name(slot_entries(volume, chain, k)), slot_entry(volume, chain, k)->Ok_0),
        chain[k / 16],
        (k % 16) as u32,
    )
}

/// The listing of a directory that lies in `chain`, 16 places for each cluster.
pub open spec fn listing(volume: Volume, chain: Seq<FatEntry>) -> Seq<
    (DirectoryEntryView, FatEntry, u32),
> {
    Seq::new(16 * chain.len(), |k: int| listing_at(volume, chain, k))
}

/// The first place at or behind `from` whose slot cannot be read or decoded, or
/// the number of places where there is none.
pub open spec fn first_unreadable(volume: Volume, chain: Seq<FatEntry>, from: int) -> int
    decreases 16 * chain.len() - from,
{
    if from < 0 || from >= 16 * chain.len() {
        16 * chain.len() as int
    } else if slot_entry(volume, chain, from) is Err {
        from
    } else {
        first_unreadable(volume, chain, from + 1)
    }
}

/// What reading a directory that lies in `chain` gives: its listing, or the error
/// of the first slot that cannot be read or decoded.
pub open spec fn dir_read(volume: Volume, chain: Seq<FatEntry>) -> Result<
    Seq<(DirectoryEntryView, FatEntry, u32)>,
    FsError,
> {
    let stop = first_unreadable(volume, chain, 0);
    if stop < 16 * chain.len() {
        Err(slot_entry(volume, chain, stop)->Err_0)
    } else {
        Ok(listing(volume, chain))
    }
}

/// The first unreadable place lies at or behind the place the search starts
/// from, and every place between the two can be read.
pub proof fn lemma_first_unreadable(volume: Volume, chain: Seq<FatEntry>, from: int)
    requires
        0 <= from <= 16 * chain.len(),
    ensures
        from <= first_unreadable(volume, chain, from) <= 16 * chain.len(),
        first_unreadable(volume, chain, from) < 16 * chain.len() ==> slot_entry(
            volume,
            chain,
            first_unreadable(volume, chain, from),
        ) is Err,
        forall|k: int|
            from <= k < first_unreadable(volume, chain, from) ==> #[trigger] slot_entry(
                volume,
                chain,
                k,
            ) is Ok,
    decreases 16 * chain.len() - from,
{
    if from < 16 * chain.len() && slot_entry(volume, chain, from) is Ok {
        lemma_first_unreadable(volume, chain, from + 1);
    }
}

/// A directory is read if and only if each of its slots can be read and decoded.
pub proof fn lemma_dir_read(volume: Volume, chain: Seq<FatEntry>)
    ensures
        dir_read(volume, chain) is Ok <==> forall|k: int|
            0 <= k < 16 * chain.len() ==> #[trigger] slot_entry(volume, chain, k) is Ok,
        dir_read(volume, chain) matches Ok(places) ==> places.len() == 16 * chain.len(),
{
    lemma_first_unreadable(volume, chain, 0);
}

/// A listing, with its text as sequences of characters.
pub open spec fn dir_view(dir: Seq<(DirectoryEntry, FatEntry, u32)>) -> Seq<
    (DirectoryEntryView, FatEntry, u32),
> {
    dir.map_values(|place: (DirectoryEntry, FatEntry, u32)| (place.0@, place.1, place.2))
}

/// One step of a listing: hands back `entry` as the listing shows it, and keeps
/// in `pending` the name that is pending behind it.
pub fn assemble(pending: &mut String, entry: DirectoryEntry) -> (shown: DirectoryEntry)
    ensures
        shown@ == listed(old(pending)@, entry@),
        final(pending)@ == pending_after(old(pending)@, entry@),
{
    match entry {
        DirectoryEntry::Invalid => {
            *pending = String::new();
            DirectoryEntry::Invalid
        },
        DirectoryEntry::LongFileName(text) => {
            pending.append(text.as_str());
            DirectoryEntry::LongFileName(text)
        },
        DirectoryEntry::File(inode) => {
            let mut inode = inode;
            let mut name = String::new();
            core::mem::swap(pending, &mut name);
            name.append(inode.name.as_str());
            inode.name = name;
            DirectoryEntry::File(inode)
        },
        DirectoryEntry::Directory(inode) => {
            let mut inode = inode;
            let mut name = String::new();
            core::mem::swap(pending, &mut name);
            name.append(inode.name.as_str());
            inode.name = name;
            DirectoryEntry::Directory(inode)
        },
    }
}

/// A filesystem on one device.
pub struct FileSystem {
    pub io: FileSystemBasicIO,
}

impl BaseIO for FileSystem {
    open spec fn volume(&self) -> Volume {
        self.io.volume()
    }

    fn read_fat_entry(&mut self, cluster: FatEntry) -> (result: Result<FatEntry, FsError>) {
        self.io.read_fat_entry(cluster)
    }

    fn write_fat_entry(&mut self, cluster: FatEntry, entry: FatEntry) -> (result: Result<
        (),
        FsError,
    >) {
        self.io.write_fat_entry(cluster, entry)
    }

    fn read_cluster(&mut self, cluster: FatEntry) -> (result: Result<Cluster, FsError>) {
        self.io.read_cluster(cluster)
    }

    fn write_cluster(&mut self, cluster: FatEntry, cluster_content: &Cluster) -> (result: Result<
        (),
        FsError,
    >) {
        self.io.write_cluster(cluster, cluster_content)
    }

    fn read_raw_directory_entry(&mut self, cluster: FatEntry, idx: u32) -> (result: Result<
        DirEntry,
        FsError,
    >) {
        self.io.read_raw_directory_entry(cluster, idx)
    }

    fn write_raw_directory_entry(&mut self, cluster: FatEntry, idx: u32, entry: &DirEntry) -> (result:
        Result<(), FsError>) {
        self.io.write_raw_directory_entry(cluster, idx, entry)
    }
}

impl FileSystem {
    /// Claims the lowest free cluster: its table entry then ends a chain.
    pub fn alloc_chunk(&mut self) -> (result: Result<FatEntry, FsError>)
        ensures
            match allocated(old(self).volume()) {
                Ok((cluster, after)) => result == Ok::<FatEntry, FsError>(cluster) && final(self).volume() == after,
                Err(e) => result == Err::<FatEntry, FsError>(e) && final(self).volume() == old(self).volume(),
            },
            result matches Ok(cluster) ==> {
                &&& old(self).volume().fat_entry(cluster) == Ok::<FatEntry, FsError>(FRE)
                &&& final(self).volume().fat_entry(cluster) == Ok::<FatEntry, FsError>(EOC)
                &&& forall|lower: FatEntry|
                    1 <= lower < cluster ==> (#[trigger] old(self).volume().fat_entry(
                        lower,
                    ) matches Ok(entry) && entry != FRE)
            },
    {
        let ghost before = self.volume();
        let mut next: FatEntry = 1;
        loop
            invariant
                before == old(self).volume(),
                self.volume() == before,
                first_free(before, 1) == first_free(before, next),
            ensures
                self.volume() == before,
                first_free(before, 1) == Ok::<FatEntry, FsError>(next),
            decreases u32::MAX - next,
        {
            match self.read_fat_entry(next) {
                Err(e) => {
                    return Err(e);
                },
                Ok(entry) => {
                    if entry == FRE {
                        break ;
                    }
                    next += 1;
                },
            }
        }
        proof {
            lemma_first_free(before, 1);
            lemma_fat_entry_round_trip(before, next, EOC);
        }
        match self.write_fat_entry(next, EOC) {
            Err(e) => Err(e),
            Ok(()) => Ok(next),
        }
    }

    /// Claims a cluster and links it behind the last cluster of `chain`. Where the
    /// link cannot be written, the cluster stays claimed and `chain` stays as it was.
    pub fn append_to_chain(&mut self, chain: &mut Chain) -> (result: Result<FatEntry, FsError>)
        ensures
            match allocated(old(self).volume()) {
                Err(e) => {
                    &&& result == Err::<FatEntry, FsError>(e)
                    &&& final(self).volume() == old(self).volume()
                    &&& final(chain)@ == old(chain)@
                },
                Ok((cluster, claimed)) => match linked(claimed, old(chain)@, cluster) {
                    Err(e) => {
                        &&& result == Err::<FatEntry, FsError>(e)
                        &&& final(self).volume() == claimed
                        &&& final(chain)@ == old(chain)@
                    },
                    Ok(after) => {
                        &&& result == Ok::<FatEntry, FsError>(cluster)
                        &&& final(self).volume() == after
                        &&& final(chain)@ == old(chain)@.push(cluster)
                    },
                },
            },
            is_chain(old(self).volume(), old(chain)@) ==> (result is Ok <==> allocated(
                old(self).volume(),
            ) is Ok),
            is_chain(old(self).volume(), old(chain)@) && result is Ok ==> is_chain(
                final(self).volume(),
                final(chain)@,
            ),
    {
        proof {
            if is_chain(self.volume(), chain@) && allocated(self.volume()) is Ok {
                lemma_append_keeps_chain(self.volume(), chain@);
            }
        }
        let new = match self.alloc_chunk() {
            Err(e) => {
                return Err(e);
            },
            Ok(new) => new,
        };
        let links = chain.len();
        if links > 0 {
            let last = chain[links - 1];
            if let Err(e) = self.write_fat_entry(last, new) {
                return Err(e);
            }
        }
        chain.push(new);
        Ok(new)
    }

    /// Appends a cluster as `append_to_chain` does, then clears it, so that each of
    /// its 16 slots reads as not in use.
    pub fn append_dir_to_chain(&mut self, chain: &mut Chain) -> (result: Result<
        FatEntry,
        FsError,
    >)
        ensures
            match allocated(old(self).volume()) {
                Err(e) => {
                    &&& result == Err::<FatEntry, FsError>(e)
                    &&& final(self).volume() == old(self).volume()
                    &&& final(chain)@ == old(chain)@
                },
                Ok((cluster, claimed)) => match linked(claimed, old(chain)@, cluster) {
                    Err(e) => {
                        &&& result == Err::<FatEntry, FsError>(e)
                        &&& final(self).volume() == claimed
                        &&& final(chain)@ == old(chain)@
                    },
                    Ok(after) => {
                        &&& final(chain)@ == old(chain)@.push(cluster)
                        &&& match after.put_cluster(cluster, zeros(1024)) {
                            Err(e) => result == Err::<FatEntry, FsError>(e) && final(self).volume() == after,
                            Ok(cleared) => result == Ok::<FatEntry, FsError>(cluster) && final(self).volume() == cleared,
                        }
                    },
                },
            },
            result matches Ok(cluster) ==> forall|idx: u32|
                idx < 16 ==> #[trigger] final(self).volume().slot(cluster, idx) == Ok::<
                    Seq<u8>,
                    FsError,
                >(zeros(64)) && decoded(zeros(64)) == Ok::<DirectoryEntryView, FsError>(
                    DirectoryEntryView::Invalid,
                ),
            old(self).volume().table_before_data() && is_chain(old(self).volume(), old(chain)@)
                && result is Ok ==> is_chain(final(self).volume(), final(chain)@),
    {
        let ghost before = self.volume();
        let ghost links = chain@;
        let new = match self.append_to_chain(chain) {
            Err(e) => {
                return Err(e);
            },
            Ok(new) => new,
        };
        let ghost after = self.volume();
        let empty = [0u8; 1024];
        assert(empty@ =~= zeros(1024));
        if let Err(e) = self.write_cluster(new, &empty) {
            return Err(e);
        }
        proof {
            lemma_cluster_round_trip(after, new, zeros(1024));
            lemma_put_cluster_frame(after, new, zeros(1024));
            lemma_put_fat_entry_frame(before, new, EOC);
            if links.len() > 0 {
                lemma_put_fat_entry_frame(allocated(before)->Ok_0.1, links.last(), new);
            }
            assert forall|idx: u32| idx < 16 implies #[trigger] self.volume().slot(new, idx)
                == Ok::<Seq<u8>, FsError>(zeros(64)) by {
                lemma_slot_in_cluster(self.volume(), new, idx);
                assert(zeros(1024).subrange(64 * idx, 64 * idx + 64) =~= zeros(64));
            }
            if before.table_before_data() && is_chain(before, links) {
                assert forall|i: int| 0 <= i < chain@.len() implies #[trigger]
                    self.volume().fat_entry(chain@[i]) == after.fat_entry(chain@[i]) by {}
            }
        }
        Ok(new)
    }

    /// Reads the directory that lies in `chain`: every slot of every cluster, in
    /// order, each inode under the name that the fragments before it spell.
    pub fn read_dir(&mut self, chain: &Chain) -> (result: Result<Dir, FsError>)
        ensures
            final(self).volume() == old(self).volume(),
            match dir_read(old(self).volume(), chain@) {
                Ok(places) => result matches Ok(dir) && dir_view(dir@) == places,
                Err(e) => result matches Err(err) && err == e,
            },
    {
        let ghost volume = self.volume();
        let mut dir: Dir = Vec::new();
        let mut filename = String::new();
        let clusters = chain.len();
        let mut i: usize = 0;
        while i < clusters
            invariant
                volume == old(self).volume(),
                self.volume() == volume,
                clusters == chain@.len(),
                i <= clusters,
                dir@.len() == 16 * i,
                first_unreadable(volume, chain@, 0) == first_unreadable(volume, chain@, 16 * i),
                forall|k: int|
                    0 <= k < 16 * i ==> #[trigger] dir_view(dir@)[k] == listing_at(
                        volume,
                        chain@,
                        k,
                    ),
                filename@ == pending_name(slot_entries(volume, chain@, 16 * i)),
            decreases clusters - i,
        {
            let cluster = chain[i];
            let mut j: u32 = 0;
            while j < 16
                invariant
                    volume == old(self).volume(),
                    self.volume() == volume,
                    clusters == chain@.len(),
                    i < clusters,
                    cluster == chain@[i as int],
                    j <= 16,
                    dir@.len() == 16 * i + j,
                    first_unreadable(volume, chain@, 0) == first_unreadable(
                        volume,
                        chain@,
                        16 * i + j,
                    ),
                    forall|k: int|
                        0 <= k < 16 * i + j ==> #[trigger] dir_view(dir@)[k] == listing_at(
                            volume,
                            chain@,
                            k,
                        ),
                    filename@ == pending_name(slot_entries(volume, chain@, 16 * i + j)),
                decreases 16 - j,
            {
                let ghost k = 16 * i + j;
                let raw = match self.read_raw_directory_entry(cluster, j) {
                    Err(e) => {
                        return Err(e);
                    },
                    Ok(raw) => raw,
                };
                let entry = match DirectoryEntry::decode(&raw) {
                    Err(e) => {
                        return Err(e);
                    },
                    Ok(entry) => entry,
                };
                proof {
                    let longer = slot_entries(volume, chain@, k + 1);
                    assert(longer.drop_last() =~= slot_entries(volume, chain@, k));
                }
                let ghost shorter = dir@;
                let shown = assemble(&mut filename, entry);
                dir.push((shown, cluster, j));
                proof {
                    assert forall|at: int| 0 <= at < 16 * i + j + 1 implies #[trigger] dir_view(
                        dir@,
                    )[at] == listing_at(volume, chain@, at) by {
                        if at < k {
                            assert(dir_view(shorter)[at] == listing_at(volume, chain@, at));
                        }
                    }
                }
                j += 1;
            }
            i += 1;
        }
        Ok(dir)
    }

    /// Sets every cluster of `chain` free, first to last. The first cluster whose
    /// table entry cannot be written ends this; the clusters before it stay free.
    pub fn free_chain(&mut self, chain: &Chain) -> (result: Result<(), FsError>)
        ensures
            (final(self).volume(), result) == set_free(
                old(self).volume(),
                chain@,
                chain@.len() as int,
            ),
    {
        let links = chain.len();
        let mut i: usize = 0;
        while i < links
            invariant
                links == chain@.len(),
                i <= links,
                (self.volume(), Ok::<(), FsError>(())) == set_free(
                    old(self).volume(),
                    chain@,
                    i as int,
                ),
            ensures
                i == links,
                (self.volume(), Ok::<(), FsError>(())) == set_free(
                    old(self).volume(),
                    chain@,
                    links as int,
                ),
            decreases links - i,
        {
            if let Err(e) = self.write_fat_entry(chain[i], FRE) {
                proof {
                    lemma_set_free_stays_failed(old(self).volume(), chain@, i + 1, links as int);
                }
                return Err(e);
            }
            i += 1;
        }
        Ok(())
    }

    /// Follows the links from `cluster` to the end of its chain.
    pub fn get_chain(&mut self, cluster: FatEntry) -> (result: Result<Chain, FsError>)
        ensures
            final(self).volume() == old(self).volume(),
            match walk(old(self).volume(), cluster, old(self).volume().fat_length as nat) {
                Ok(chain) => result matches Ok(found) && found@ == chain,
                Err(e) => result matches Err(err) && err == e,
            },
    {
        let ghost volume = self.volume();
        let ghost fuel = volume.fat_length as nat;
        let limit = self.io.fat_length;
        let mut chain: Vec<FatEntry> = Vec::new();
        let mut current = cluster;
        while current != EOC
            invariant
                volume == old(self).volume(),
                self.volume() == volume,
                limit == volume.fat_length,
                fuel == volume.fat_length,
                chain@.len() <= fuel,
                walk(volume, cluster, fuel) == behind(
                    chain@,
                    walk(volume, current, (fuel - chain@.len()) as nat),
                ),
            decreases fuel - chain@.len(),
        {
            let next = match self.read_fat_entry(current) {
                Err(e) => {
                    return Err(e);
                },
                Ok(next) => next,
            };
            if chain.len() as u64 >= limit as u64 {
                return Err(FsError::Cycle);
            }
            proof {
                let rest = walk(volume, next, (fuel - chain@.len() - 1) as nat);
                if let Ok(rest) = rest {
                    assert(chain@ + (seq![current] + rest) =~= chain@.push(current) + rest);
                }
            }
            chain.push(current);
            current = next;
        }
        Ok(chain)
    }
}

} // verus!
