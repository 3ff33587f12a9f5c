//! Which archives of a volume a retention policy removes.
//!
//! Archives are listed from the oldest to the newest.

use vstd::prelude::*;
use crate::sorting::Named;
use crate::text::texts;

verus! {

/// An archive in storage.
#[derive(Clone, Debug)]
pub struct ArchiveInfo {
    /// The file name.
    pub name: String,
    /// The size in bytes.
    pub size: u64,
}

/// What an [`ArchiveInfo`] says: a name and a size.
pub struct Archive {
    pub name: Seq<char>,
    pub size: u64,
}

impl View for ArchiveInfo {
    type V = Archive;

    open spec fn view(&self) -> Archive {
        Archive { name: self.name@, size: self.size }
    }
}

impl Named for ArchiveInfo {
    open spec fn key(&self) -> Seq<char> {
        self.name@
    }

    fn name(&self) -> (name: &str) {
        self.name.as_str()
    }
}

/// What a list of archives says.
pub open spec fn listed(archives: Seq<ArchiveInfo>) -> Seq<Archive> {
    archives.map_values(|a: ArchiveInfo| a@)
}

/// The names of archives.
pub open spec fn names(archives: Seq<Archive>) -> Seq<Seq<char>> {
    archives.map_values(|a: Archive| a.name)
}

/// The size of archives together.
pub open spec fn total_size(archives: Seq<Archive>) -> nat
    decreases archives.len(),
{
    if archives.len() == 0 {
        0
    } else {
        archives[0].size as nat + total_size(archives.drop_first())
    }
}

/// How much to keep of a volume's archives.
#[derive(Clone, Copy, Debug, PartialEq, Eq, Structural)]
pub enum RetentionPolicy {
    /// Keep the newest `keep`.
    Count { keep: usize },
    /// Keep at most `max_total_size` bytes, but never fewer than the newest
    /// `min_count`.
    Size { min_count: usize, max_total_size: u64 },
}

/// Whether it is enough to remove the oldest `removed` archives: no more than
/// `min_count` remain, or those that remain fit in `max_total_size`.
pub open spec fn enough_removed(
    archives: Seq<Archive>,
    min_count: nat,
    max_total_size: nat,
    removed: nat,
) -> bool {
    ||| archives.len() - removed <= min_count
    ||| total_size(archives.skip(removed as int)) <= max_total_size
}

/// The least number, from `start` on, that is enough to remove.
pub open spec fn removals_for_size(
    archives: Seq<Archive>,
    min_count: nat,
    max_total_size: nat,
    start: nat,
) -> nat
    decreases archives.len() - start,
{
    if start >= archives.len() || enough_removed(archives, min_count, max_total_size, start) {
        start
    } else {
        removals_for_size(archives, min_count, max_total_size, start + 1)
    }
}

/// How many of the oldest archives the policy removes.
pub open spec fn removal_count(archives: Seq<Archive>, policy: RetentionPolicy) -> nat {
    match policy {
        RetentionPolicy::Count { keep } => if archives.len() > keep {
            (archives.len() - keep) as nat
        } else {
            0
        },
        RetentionPolicy::Size { min_count, max_total_size } => removals_for_size(
            archives,
            min_count as nat,
            max_total_size as nat,
            0,
        ),
    }
}

/// The names of the archives that the policy removes, the oldest first.
pub open spec fn removals(archives: Seq<Archive>, policy: RetentionPolicy) -> Seq<Seq<char>> {
    names(archives.take(removal_count(archives, policy) as int))
}

/// The archives that the policy keeps.
pub open spec fn kept(archives: Seq<Archive>, policy: RetentionPolicy) -> Seq<Archive> {
    archives.skip(removal_count(archives, policy) as int)
}

/// Whether the policy's limit can be worked out in 64 bits: a size policy adds
/// up the sizes.
pub open spec fn sizes_fit(archives: Seq<Archive>, policy: RetentionPolicy) -> bool {
    policy is Size ==> total_size(archives) <= u64::MAX
}

/// The number found is enough, it is the least from `start` on, and it is no
/// more than there are archives.
pub proof fn lemma_removals_for_size(
    archives: Seq<Archive>,
    min_count: nat,
    max_total_size: nat,
    start: nat,
)
    requires
        start <= archives.len(),
    ensures
        ({
            let n = removals_for_size(archives, min_count, max_total_size, start);
            &&& start <= n <= archives.len()
            &&& enough_removed(archives, min_count, max_total_size, n)
            &&& forall|k: nat|
                start <= k < n ==> !enough_removed(archives, min_count, max_total_size, k)
        }),
    decreases archives.len() - start,
{
    if start >= archives.len() || enough_removed(archives, min_count, max_total_size, start) {
    } else {
        lemma_removals_for_size(archives, min_count, max_total_size, start + 1);
    }
}

/// A policy removes no more than there is.
pub proof fn lemma_removal_count(archives: Seq<Archive>, policy: RetentionPolicy)
    ensures
        removal_count(archives, policy) <= archives.len(),
{
    if let RetentionPolicy::Size { min_count, max_total_size } = policy {
        lemma_removals_for_size(archives, min_count as nat, max_total_size as nat, 0);
    }
}

/// Fewer archives are no larger together.
proof fn lemma_total_of_rest(archives: Seq<Archive>, n: int)
    requires
        0 <= n <= archives.len(),
    ensures
        total_size(archives.skip(n)) <= total_size(archives),
    decreases n,
{
    if n == 0 {
        assert(archives.skip(0) == archives);
    } else {
        lemma_total_of_rest(archives.drop_first(), n - 1);
        assert(archives.drop_first().skip(n - 1) == archives.skip(n));
    }
}

/// Adds up the sizes of archives, unless the sum exceeds 64 bits.
pub fn sum_sizes(archives: &[ArchiveInfo]) -> (sum: Option<u64>)
    ensures
        sum matches Some(n) ==> n == total_size(listed(archives@)),
        sum is None <==> total_size(listed(archives@)) > u64::MAX,
{
    let ghost all = listed(archives@);
    let mut sum: u64 = 0;
    let mut i: usize = archives.len();
    while i > 0
        invariant
            i <= archives.len(),
            all == listed(archives@),
            sum == total_size(all.skip(i as int)),
        decreases i,
    {
        proof {
            assert(all.skip(i - 1).drop_first() == all.skip(i as int));
            assert(all.skip(i - 1)[0] == archives@[i - 1]@);
            lemma_total_of_rest(all, i - 1);
        }
        match sum.checked_add(archives[i - 1].size) {
            Some(more) => {
                sum = more;
            },
            None => {
                return None;
            },
        }
        i = i - 1;
    }
    assert(all.skip(0) == all);
    Some(sum)
}

/// Gives the names of the oldest `count` archives.
fn oldest_names(archives: &[ArchiveInfo], count: usize) -> (result: Vec<String>)
    requires
        count <= archives@.len(),
    ensures
        texts(result@) == names(listed(archives@).take(count as int)),
{
    let mut result: Vec<String> = Vec::new();
    let mut i: usize = 0;
    while i < count
        invariant
            i <= count <= archives@.len(),
            result@.len() == i,
            forall|k: int| 0 <= k < i ==> (#[trigger] result@[k])@ == archives@[k].name@,
        decreases count - i,
    {
        result.push(archives[i].name.clone());
        i = i + 1;
    }
    assert(texts(result@) =~= names(listed(archives@).take(count as int)));
    result
}

/// Names the archives to remove so that at most `max_total_size` bytes remain:
/// the oldest ones, as few as will do, while more than `min_count` remain.
pub fn archives_to_remove_for_size(
    archives: &[ArchiveInfo],
    min_count: usize,
    max_total_size: u64,
) -> (to_remove: Vec<String>)
    requires
        total_size(listed(archives@)) <= u64::MAX,
    ensures
        texts(to_remove@) == names(listed(archives@).take(to_remove@.len() as int)),
        to_remove@.len() == removals_for_size(
            listed(archives@),
            min_count as nat,
            max_total_size as nat,
            0,
        ),
        to_remove@.len() <= archives@.len(),
        enough_removed(
            listed(archives@),
            min_count as nat,
            max_total_size as nat,
            to_remove@.len(),
        ),
        forall|k: nat|
            k < to_remove@.len() ==> !enough_removed(
                listed(archives@),
                min_count as nat,
                max_total_size as nat,
                k,
            ),
{
    let ghost all = listed(archives@);
    let mut total: u64 = sum_sizes(archives).unwrap();
    let mut count: usize = 0;
    assert(all.skip(0) == all);
    while count < archives.len() && archives.len() - count > min_count && total > max_total_size
        invariant
            count <= archives.len(),
            all == listed(archives@),
            total == total_size(all.skip(count as int)),
            removals_for_size(all, min_count as nat, max_total_size as nat, 0)
                == removals_for_size(
                all,
                min_count as nat,
                max_total_size as nat,
                count as nat,
            ),
        decreases archives.len() - count,
    {
        assert(all.skip(count as int).drop_first() == all.skip(count + 1));
        assert(all.skip(count as int)[0] == archives@[count as int]@);
        total = total - archives[count].size;
        count = count + 1;
    }
    proof {
        lemma_removals_for_size(all, min_count as nat, max_total_size as nat, 0);
    }
    let to_remove = oldest_names(archives, count);
    assert(texts(to_remove@).len() == to_remove@.len());
    to_remove
}

/// Names the archives that the policy removes, the oldest first.
pub fn archives_to_remove(archives: &[ArchiveInfo], policy: RetentionPolicy) -> (to_remove: Vec<
    String,
>)
    requires
        sizes_fit(listed(archives@), policy),
    ensures
        texts(to_remove@) == removals(listed(archives@), policy),
{
    match policy {
        RetentionPolicy::Count { keep } => {
            let count: usize = if archives.len() > keep {
                archives.len() - keep
            } else {
                0
            };
            oldest_names(archives, count)
        },
        RetentionPolicy::Size { min_count, max_total_size } => archives_to_remove_for_size(
            archives,
            min_count,
            max_total_size,
        ),
    }
}

/// A count policy keeps the newest archives, `keep` of them or all if there
/// are fewer.
pub proof fn law_count_keeps_the_newest(archives: Seq<Archive>, keep: usize)
    ensures
        kept(archives, RetentionPolicy::Count { keep }).len() == if archives.len() < keep {
            archives.len()
        } else {
            keep as nat
        },
        archives == archives.take(
            archives.len() - kept(archives, RetentionPolicy::Count { keep }).len(),
        ) + kept(archives, RetentionPolicy::Count { keep }),
{
}

/// A size policy keeps at least `min_count` archives, or all if there are
/// fewer, and they are the newest.
pub proof fn law_size_keeps_the_minimum(
    archives: Seq<Archive>,
    min_count: usize,
    max_total_size: u64,
)
    ensures
        ({
            let policy = RetentionPolicy::Size { min_count, max_total_size };
            let rest = kept(archives, policy);
            &&& rest.len() >= if archives.len() < min_count {
                archives.len()
            } else {
                min_count as nat
            }
            &&& archives == archives.take(archives.len() - rest.len()) + rest
        }),
{
    let n = removals_for_size(archives, min_count as nat, max_total_size as nat, 0);
    lemma_removals_for_size(archives, min_count as nat, max_total_size as nat, 0);
    if n > 0 {
        assert(!enough_removed(
            archives,
            min_count as nat,
            max_total_size as nat,
            (n - 1) as nat,
        ));
    }
}

/// What a size policy keeps fits in the limit, unless it is no more than the
/// minimum.
pub proof fn law_size_keeps_within_the_limit(
    archives: Seq<Archive>,
    min_count: usize,
    max_total_size: u64,
)
    ensures
        ({
            let rest = kept(archives, RetentionPolicy::Size { min_count, max_total_size });
            total_size(rest) <= max_total_size || rest.len() <= min_count
        }),
{
    lemma_removals_for_size(archives, min_count as nat, max_total_size as nat, 0);
}

/// A size policy removes no archive that could have stayed: with the newest of
/// those removed still there, more than the minimum remained and the limit was
/// exceeded.
pub proof fn law_size_removes_no_more_than_needed(
    archives: Seq<Archive>,
    min_count: usize,
    max_total_size: u64,
)
    ensures
        ({
            let n = removal_count(archives, RetentionPolicy::Size { min_count, max_total_size });
            n > 0 ==> {
                &&& archives.len() - (n - 1) > min_count
                &&& total_size(archives.skip(n - 1)) > max_total_size
            }
        }),
{
    let n = removals_for_size(archives, min_count as nat, max_total_size as nat, 0);
    lemma_removals_for_size(archives, min_count as nat, max_total_size as nat, 0);
    if n > 0 {
        assert(!enough_removed(
            archives,
            min_count as nat,
            max_total_size as nat,
            (n - 1) as nat,
        ));
    }
}

/// Cleaning up a second time removes nothing.
pub proof fn law_second_cleanup_removes_nothing(archives: Seq<Archive>, policy: RetentionPolicy)
    ensures
        removals(kept(archives, policy), policy) == Seq::<Seq<char>>::empty(),
{
    let rest = kept(archives, policy);
    lemma_removal_count(archives, policy);
    if let RetentionPolicy::Size { min_count, max_total_size } = policy {
        lemma_removals_for_size(archives, min_count as nat, max_total_size as nat, 0);
        assert(rest.skip(0) == rest);
        assert(enough_removed(rest, min_count as nat, max_total_size as nat, 0));
    }
    assert(removal_count(rest, policy) == 0);
    assert(removals(rest, policy) =~= Seq::<Seq<char>>::empty());
}

/// Whether a policy keeps at least one archive.
pub open spec fn keeps_some(policy: RetentionPolicy) -> bool {
    match policy {
        RetentionPolicy::Count { keep } => keep > 0,
        RetentionPolicy::Size { min_count, .. } => min_count > 0,
    }
}

/// Where the policy keeps at least one archive, the newest stays, so that a
/// restore after a cleanup reads what it would have read before.
pub proof fn law_cleanup_keeps_the_newest(archives: Seq<Archive>, policy: RetentionPolicy)
    requires
        keeps_some(policy),
        archives.len() > 0,
    ensures
        kept(archives, policy).len() > 0,
        kept(archives, policy).last() == archives.last(),
{
    match policy {
        RetentionPolicy::Count { keep } => {},
        RetentionPolicy::Size { min_count, max_total_size } => {
            law_size_keeps_the_minimum(archives, min_count, max_total_size);
        },
    }
}

/// Tells archives of this name and size from others.
pub open spec fn is_archive(name: Seq<char>, size: u64) -> spec_fn(ArchiveInfo) -> bool {
    |archive: ArchiveInfo| archive.name@ == name && archive.size == size
}

/// What is removed and what is kept make up the archives.
pub proof fn law_what_is_not_removed_is_kept(archives: Seq<Archive>, policy: RetentionPolicy)
    ensures
        names(archives) == removals(archives, policy) + names(kept(archives, policy)),
        kept(archives, policy) == archives.skip(removals(archives, policy).len() as int),
{
    lemma_removal_count(archives, policy);
    assert(names(archives) =~= removals(archives, policy) + names(kept(archives, policy)));
}

/// The sizes of archives added up.
pub open spec fn bytes_of(archives: Seq<ArchiveInfo>) -> int {
    archives.fold_right(|archive: ArchiveInfo, sum: int| archive.size + sum, 0)
}

/// The size of archives together is their sizes added up.
proof fn lemma_bytes(archives: Seq<ArchiveInfo>)
    ensures
        bytes_of(archives) == total_size(listed(archives)),
    decreases archives.len(),
{
    let add = |archive: ArchiveInfo, sum: int| archive.size + sum;
    archives.lemma_fold_right_alt(add, 0);
    lemma_bytes_from_the_front(archives);
}

/// The same, from the front.
proof fn lemma_bytes_from_the_front(archives: Seq<ArchiveInfo>)
    ensures
        archives.fold_right_alt(|archive: ArchiveInfo, sum: int| archive.size + sum, 0)
            == total_size(listed(archives)),
    decreases archives.len(),
{
    if archives.len() > 0 {
        let rest = archives.subrange(1, archives.len() as int);
        lemma_bytes_from_the_front(rest);
        assert(listed(archives).drop_first() =~= listed(rest));
    }
}

/// Adding up sizes gives their sum, unless it exceeds 64 bits.
pub proof fn law_sizes_are_added_up(archives: &[ArchiveInfo], sum: Option<u64>)
    requires
        call_ensures(sum_sizes, (archives,), sum),
    ensures
        sum is Some <==> bytes_of(archives@) <= u64::MAX,
        sum matches Some(n) ==> n == bytes_of(archives@),
{
    lemma_bytes(archives@);
}

/// Whether the names are those of the first archives.
pub open spec fn are_the_first(names: Seq<String>, archives: Seq<ArchiveInfo>) -> bool {
    &&& names.len() <= archives.len()
    &&& forall|i: int| 0 <= i < names.len() ==> (#[trigger] names[i])@ == archives[i].name@
}

/// A count policy removes the first archives, as many as there are more than it
/// keeps.
pub proof fn law_a_count_policy_removes_the_first(
    archives: &[ArchiveInfo],
    keep: usize,
    removed: Vec<String>,
)
    requires
        call_ensures(archives_to_remove, (archives, RetentionPolicy::Count { keep }), removed),
    ensures
        are_the_first(removed@, archives@),
        removed@.len() == if archives@.len() > keep {
            archives@.len() - keep
        } else {
            0
        },
{
    assert(texts(removed@).len() == removed@.len());
    lemma_first_names(removed@, archives@);
}

/// A size policy removes the first archives, and as few as will do: no more than
/// `min_count` are left, or those that are left fit in the limit, and with one
/// fewer removed neither would be so.
pub proof fn law_a_size_policy_removes_the_first(
    archives: &[ArchiveInfo],
    min_count: usize,
    max_total_size: u64,
    removed: Vec<String>,
)
    requires
        call_ensures(
            archives_to_remove,
            (archives, RetentionPolicy::Size { min_count, max_total_size }),
            removed,
        ) || call_ensures(
            archives_to_remove_for_size,
            (archives, min_count, max_total_size),
            removed,
        ),
    ensures
        are_the_first(removed@, archives@),
        archives@.len() - removed@.len() <= min_count || bytes_of(
            archives@.skip(removed@.len() as int),
        ) <= max_total_size,
        removed@.len() > 0 ==> archives@.len() - (removed@.len() - 1) > min_count && bytes_of(
            archives@.skip(removed@.len() - 1),
        ) > max_total_size,
{
    let all = listed(archives@);
    let n = removed@.len() as int;
    lemma_removals_for_size(all, min_count as nat, max_total_size as nat, 0);
    let k = removals_for_size(all, min_count as nat, max_total_size as nat, 0) as int;
    assert(texts(removed@) =~= names(all.take(k)));
    assert(texts(removed@).len() == n);
    lemma_first_names(removed@, archives@);
    lemma_bytes(archives@.skip(n));
    assert(listed(archives@.skip(n)) =~= all.skip(n));
    if n > 0 {
        assert(!enough_removed(all, min_count as nat, max_total_size as nat, (n - 1) as nat));
        lemma_bytes(archives@.skip(n - 1));
        assert(listed(archives@.skip(n - 1)) =~= all.skip(n - 1));
    }
}

/// Names that read as the first of the archives do.
proof fn lemma_first_names(removed: Seq<String>, archives: Seq<ArchiveInfo>)
    requires
        exists|n: int|
            0 <= n <= archives.len() && texts(removed) == names(#[trigger] listed(archives).take(n)),
    ensures
        are_the_first(removed, archives),
{
    let n = choose|n: int|
        0 <= n <= archives.len() && texts(removed) == names(#[trigger] listed(archives).take(n));
    assert(texts(removed).len() == removed.len());
    assert forall|i: int| 0 <= i < removed.len() implies (#[trigger] removed[i])@
        == archives[i].name@ by {
        assert(texts(removed)[i] == removed[i]@);
        assert(names(listed(archives).take(n))[i] == archives[i].name@);
    }
}

} // verus!
