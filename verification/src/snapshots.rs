//! Snapshots of preview files: which generation may be reserved, and which may be removed.
use crate::text::read_number;
use vstd::prelude::*;

verus! {

/// How much the cache may hold, in bytes.
pub const CACHE_LIMIT: u64 = 1_073_741_824;

/// How large a snapshot may be, in bytes.
pub const MAX_SNAPSHOT: u64 = 268_435_456;

/// Why a snapshot is refused.
#[derive(Clone, Copy, Debug, PartialEq, Eq, Structural)]
pub enum SnapshotRefusal {
    /// Generations count from 1.
    ZeroGeneration,
    /// A link stands in the cache.
    Link,
    /// The cache has no room for one more.
    CacheFull,
    /// The size of the cache cannot be counted.
    SizeOverflow,
}

/// Adds the size of one more file to that of those before.
pub fn add_bytes(total: u64, more: u64) -> (sum: Result<u64, SnapshotRefusal>)
    ensures
        sum == if total + more <= u64::MAX {
            Ok::<u64, SnapshotRefusal>((total + more) as u64)
        } else {
            Err(SnapshotRefusal::SizeOverflow)
        },
{
    match total.checked_add(more) {
        Some(sum) => Ok(sum),
        None => Err(SnapshotRefusal::SizeOverflow),
    }
}

/// The sum of the sizes.
pub open spec fn sum_of(sizes: Seq<u64>) -> nat
    decreases sizes.len(),
{
    if sizes.len() == 0 {
        0
    } else {
        sum_of(sizes.drop_last()) + sizes.last() as nat
    }
}

/// The size of a tree, from the sizes of the files in it.
pub fn tree_bytes(sizes: &Vec<u64>) -> (total: Result<u64, SnapshotRefusal>)
    ensures
        match total {
            Ok(n) => n == sum_of(sizes@),
            Err(e) => e == SnapshotRefusal::SizeOverflow && sum_of(sizes@) > u64::MAX,
        },
{
    let mut total: u64 = 0;
    let mut i: usize = 0;
    assert(sizes@.take(0).len() == 0);
    while i < sizes.len()
        invariant
            i <= sizes@.len(),
            total == sum_of(sizes@.take(i as int)),
        decreases sizes@.len() - i,
    {
        proof {
            assert(sizes@.take(i + 1).drop_last() =~= sizes@.take(i as int));
            lemma_sum_grows(sizes@, i + 1);
        }
        match add_bytes(total, sizes[i]) {
            Ok(sum) => {
                total = sum;
            },
            Err(e) => {
                return Err(e);
            },
        }
        i += 1;
    }
    assert(sizes@.take(i as int) =~= sizes@);
    Ok(total)
}

proof fn lemma_sum_grows(sizes: Seq<u64>, k: int)
    requires
        0 <= k <= sizes.len(),
    ensures
        sum_of(sizes.take(k)) <= sum_of(sizes),
    decreases sizes.len(),
{
    if k == sizes.len() {
        assert(sizes.take(k) =~= sizes);
    } else {
        lemma_sum_grows(sizes.drop_last(), k);
        assert(sizes.drop_last().take(k) =~= sizes.take(k));
    }
}

/// Whether a generation may be reserved. `has_link` says whether a link stands in the cache, and
/// `sizes` are those of the files in it.
pub fn reserve(generation: u64, has_link: bool, sizes: &Vec<u64>) -> (result: Result<
    String,
    SnapshotRefusal,
>)
    ensures
        match result {
            Ok(name) => generation != 0 && !has_link && sum_of(sizes@) <= CACHE_LIMIT - MAX_SNAPSHOT
                && name@ == crate::text::decimal(generation as nat),
            Err(e) => e == if generation == 0 {
                SnapshotRefusal::ZeroGeneration
            } else if has_link {
                SnapshotRefusal::Link
            } else if sum_of(sizes@) > u64::MAX {
                SnapshotRefusal::SizeOverflow
            } else {
                SnapshotRefusal::CacheFull
            } && (generation == 0 || has_link || sum_of(sizes@) > CACHE_LIMIT - MAX_SNAPSHOT),
        },
{
    if generation == 0 {
        return Err(SnapshotRefusal::ZeroGeneration);
    }
    if has_link {
        return Err(SnapshotRefusal::Link);
    }
    let bytes: u64 = match tree_bytes(sizes) {
        Ok(bytes) => bytes,
        Err(e) => {
            return Err(e);
        },
    };
    if bytes > CACHE_LIMIT - MAX_SNAPSHOT {
        return Err(SnapshotRefusal::CacheFull);
    }
    Ok(crate::text::decimal_text(generation))
}

/// The generation that a folder's name stands for: digits without a leading zero, and not 0.
pub open spec fn generation_of(name: Seq<char>) -> Option<nat> {
    match crate::text::number_in(name, u64::MAX as nat) {
        Some(n) => if n != 0 && crate::text::decimal(n) == name {
            Some(n)
        } else {
            None
        },
        None => None,
    }
}

/// A folder of the cache that may be removed once everything before `generation` is retired.
pub open spec fn is_retired(name: Seq<char>, is_dir: bool, generation: u64) -> bool {
    is_dir && generation_of(name) is Some && generation_of(name)->Some_0 < generation
}

/// Whether an entry of the cache may be removed once everything before `generation` is retired.
pub fn retire_before(name: &str, is_dir: bool, generation: u64) -> (b: bool)
    ensures
        b == is_retired(name@, is_dir, generation),
{
    match read_number(name, u64::MAX) {
        Some(old) => {
            if old == 0 || old >= generation {
                return false;
            }
            is_dir && crate::text::same_text(crate::text::decimal_text(old).as_str(), name)
        },
        None => false,
    }
}

/// The folder of a reserved generation that was never sent, which may be removed again.
pub fn discard_unpublished(generation: u64, root_is_link: bool) -> (name: Option<String>)
    ensures
        crate::events::optional_text(name) == if generation == 0 || root_is_link {
            None
        } else {
            Some(crate::text::decimal(generation as nat))
        },
{
    if generation == 0 || root_is_link {
        None
    } else {
        Some(crate::text::decimal_text(generation))
    }
}

/// A number in decimal is made of digits that stand for it.
pub proof fn lemma_decimal_digits(n: nat)
    ensures
        crate::text::is_digits(crate::text::decimal(n)),
        crate::text::digits_value(crate::text::decimal(n)) == n,
        crate::text::decimal(n).len() > 0,
        crate::text::decimal(n)[0] != '+',
    decreases n,
{
    let text = crate::text::decimal(n);
    if n < 10 {
        assert(text.drop_last() =~= Seq::empty());
        assert(crate::text::digits_value(text.drop_last()) == 0);
        assert(text[0] == crate::text::digit(n));
    } else {
        lemma_decimal_digits(n / 10);
        let head = crate::text::decimal(n / 10);
        assert(text.drop_last() =~= head);
        assert forall|i: int| 0 <= i < text.len() implies crate::text::is_digit(
            #[trigger] text[i],
        ) by {
            if i < head.len() {
                assert(crate::text::is_digit(head[i]));
            }
        }
        assert(text[0] == head[0]);
    }
}

/// A reserved snapshot is removed exactly when a later generation is the first that is kept:
/// its own folder, and no other, stands for it.
pub proof fn law_reserved_snapshots_retire_in_turn(generation: u64, kept_from: u64)
    requires
        generation != 0,
    ensures
        generation_of(crate::text::decimal(generation as nat)) == Some(generation as nat),
        is_retired(crate::text::decimal(generation as nat), true, kept_from) == (generation
            < kept_from),
{
    let name = crate::text::decimal(generation as nat);
    lemma_decimal_digits(generation as nat);
    assert(crate::text::without_plus(name) == name);
}

/// A folder with another name than a reserved one is never removed.
pub proof fn law_other_folders_are_kept(name: Seq<char>, is_dir: bool, kept_from: u64)
    requires
        forall|n: nat| n != 0 ==> name != #[trigger] crate::text::decimal(n),
    ensures
        !is_retired(name, is_dir, kept_from),
{
}

/// The size of a tree is what its files have together: one more file adds its size, wherever it
/// stands.
pub proof fn law_sizes_add_up(a: Seq<u64>, b: Seq<u64>, size: u64)
    ensures
        sum_of(a + seq![size] + b) == sum_of(a + b) + size,
        sum_of(Seq::empty()) == 0,
    decreases b.len(),
{
    let all = a + seq![size] + b;
    if b.len() == 0 {
        assert(all.drop_last() =~= a);
        assert(a + b =~= a);
        assert(all.last() == size);
    } else {
        law_sizes_add_up(a, b.drop_last(), size);
        assert(all.drop_last() =~= a + seq![size] + b.drop_last());
        assert((a + b).drop_last() =~= a + b.drop_last());
        assert(all.last() == b.last() && (a + b).last() == b.last());
    }
}

/// A snapshot folder is removed just where its generation is older; a file of that name, or a name
/// with a leading zero, never is.
pub proof fn law_older_generations_are_retired(old: u64, generation: u64)
    requires
        old > 0,
    ensures
        is_retired(crate::text::decimal(old as nat), true, generation) == (old < generation),
        !is_retired(crate::text::decimal(old as nat), false, generation),
        !is_retired(seq!['0'] + crate::text::decimal(old as nat), true, generation),
{
    let name = crate::text::decimal(old as nat);
    crate::text::law_decimals_read_back(old as nat, u64::MAX as nat);
    let padded = seq!['0'] + name;
    if generation_of(padded) is Some {
        let n = generation_of(padded)->Some_0;
        lemma_decimal_start(n);
        assert(crate::text::decimal(n)[0] == padded[0]);
    }
}

/// A number that is not 0 does not start with a zero.
proof fn lemma_decimal_start(n: nat)
    ensures
        crate::text::decimal(n).len() > 0,
        n > 0 ==> crate::text::decimal(n)[0] != '0',
    decreases n,
{
    if n >= 10 {
        lemma_decimal_start(n / 10);
        assert(crate::text::decimal(n)[0] == crate::text::decimal(n / 10)[0]);
    }
}

} // verus!
