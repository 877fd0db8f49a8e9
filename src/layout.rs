//! Names on disk: the temporary and final directory of a comic, image file
//! names, and which files a cleanup keeps.
use vstd::prelude::*;

use crate::text::{chars_of, decimal, string_of, zero_pad, zero_padded};
use crate::types::{format_extension, DownloadFormat};

verus! {

/// The prefix that marks a comic directory as still downloading.
pub open spec fn temp_prefix() -> Seq<char> {
    seq!['.', '下', '载', '中', '-']
}

/// The manifest written into every comic directory.
pub const METADATA_FILE_NAME: &'static str = "元数据.json";

/// The name of the temporary directory of a comic titled `title`.
pub fn temp_download_dir_name(title: &str) -> (r: String)
    ensures
        r@ == temp_prefix() + title@,
{
    let mut cs: Vec<char> = vec!['.', '下', '载', '中', '-'];
    let ghost p = cs@;
    let mut t = chars_of(title);
    let ghost tv = t@;
    cs.append(&mut t);
    proof {
        assert(cs@ =~= p + tv);
    }
    string_of(cs.as_slice())
}

/// Whether a directory entry named `name` is a finished comic rather than
/// one still downloading.
pub fn is_finished_dir_name(name: &str) -> (r: bool)
    ensures
        r == !temp_prefix().is_prefix_of(name@),
{
    let cs = chars_of(name);
    let p: Vec<char> = vec!['.', '下', '载', '中', '-'];
    !crate::text::starts_with(&cs, &p)
}

/// The file name of the image at 0-based position `index`: its 1-based
/// ordinal zero-padded to four digits, a dot, then `extension`.
pub open spec fn img_file_name_spec(index: nat, extension: Seq<char>) -> Seq<char> {
    zero_pad(decimal(index + 1), 4) + seq!['.'] + extension
}

pub fn img_file_name(index: usize, extension: &str) -> (r: String)
    requires
        index < u64::MAX,
    ensures
        r@ == img_file_name_spec(index as nat, extension@),
{
    let n = zero_padded(index as u64 + 1, 4);
    let mut cs = chars_of(n.as_str());
    let ghost nv = cs@;
    cs.push('.');
    let mut e = chars_of(extension);
    let ghost ev = e@;
    cs.append(&mut e);
    proof {
        assert(cs@ =~= nv + seq!['.'] + ev);
    }
    string_of(cs.as_slice())
}

/// Whether cleaning a temporary directory keeps a file with extension `ext`:
/// with a concrete format only files of its extension stay; with `Original`
/// everything stays.
pub open spec fn keeps_file(ext: Option<Seq<char>>, format: DownloadFormat) -> bool {
    match format_extension(format) {
        None => true,
        Some(e) => ext == Some(e),
    }
}

pub fn should_keep_file(ext: Option<&str>, format: DownloadFormat) -> (r: bool)
    ensures
        r == keeps_file(
            match ext {
                Some(e) => Some(e@),
                None => None,
            },
            format,
        ),
{
    match format.extension() {
        None => true,
        Some(want) => match ext {
            None => false,
            Some(e) => {
                let a = chars_of(e);
                let b = chars_of(want);
                let same = a.len() == b.len() && crate::text::starts_with(&a, &b);
                proof {
                    if a@.len() == b@.len() && b@.is_prefix_of(a@) {
                        assert(a@ =~= b@);
                    }
                }
                same
            },
        },
    }
}

/// `order` lists every position of `times` once, latest time first.
pub open spec fn is_newest_first(times: Seq<u64>, order: Seq<usize>) -> bool {
    &&& order.len() == times.len()
    &&& forall|k: int| 0 <= k < order.len() ==> (#[trigger] order[k] as int) < times.len()
    &&& forall|a: int, b: int|
        0 <= a < b < order.len() ==> #[trigger] order[a] != #[trigger] order[b]
    &&& forall|a: int, b: int|
        0 <= a < b < order.len() ==> times[#[trigger] order[a] as int]
            >= times[#[trigger] order[b] as int]
}

/// The positions of `times` ordered from the latest time to the earliest,
/// e.g. the modification times of the comics' manifests.
pub fn newest_first(times: &Vec<u64>) -> (r: Vec<usize>)
    ensures
        is_newest_first(times@, r@),
{
    let n = times.len();
    let mut used: Vec<bool> = Vec::new();
    let mut i: usize = 0;
    while i < n
        invariant
            i <= n == times@.len(),
            used@.len() == i,
            forall|j: int| 0 <= j < i ==> !used@[j],
        decreases n - i,
    {
        used.push(false);
        i = i + 1;
    }
    let mut order: Vec<usize> = Vec::new();
    while order.len() < n
        invariant
            n == times@.len(),
            used@.len() == n,
            order@.len() <= n,
            forall|k: int| 0 <= k < order@.len() ==> (#[trigger] order@[k] as int) < n,
            forall|k: int| 0 <= k < order@.len() ==> used@[#[trigger] order@[k] as int],
            forall|j: int| 0 <= j < n && used@[j] ==> lists(order@, j),
            forall|a: int, b: int|
                0 <= a < b < order@.len() ==> #[trigger] order@[a] != #[trigger] order@[b],
            forall|a: int, b: int|
                0 <= a < b < order@.len() ==> times@[#[trigger] order@[a] as int]
                    >= times@[#[trigger] order@[b] as int],
            forall|k: int, j: int|
                0 <= k < order@.len() && 0 <= j < n && !used@[j] ==> times@[#[trigger] order@[k] as int]
                    >= #[trigger] times@[j],
        decreases n - order@.len(),
    {
        let mut best: usize = n;
        let mut j: usize = 0;
        proof {
            if forall|q: int| 0 <= q < n ==> used@[q] {
                assert forall|q: int| 0 <= q < n implies #[trigger] lists(order@, q) by {
                    assert(used@[q]);
                }
                lemma_all_listed(order@, n as int);
            }
        }
        while j < n
            invariant
                n == times@.len(),
                used@.len() == n,
                j <= n,
                best == n || (best < j && !used@[best as int]),
                best == n ==> forall|q: int| 0 <= q < j ==> used@[q],
                best < n ==> forall|q: int| 0 <= q < j && !used@[q] ==> times@[q] <= times@[best as int],
            decreases n - j,
        {
            if !used[j] && (best == n || times[j] > times[best]) {
                best = j;
            }
            j = j + 1;
        }
        proof {
            if best == n {
                let q = choose|q: int| 0 <= q < n && !used@[q];
                assert(used@[q]);
            }
        }
        let ghost old_order = order@;
        let ghost old_used = used@;
        used.set(best, true);
        order.push(best);
        proof {
            assert forall|k: int| 0 <= k < order@.len() implies used@[#[trigger] order@[k] as int] by {
                if k < old_order.len() {
                    assert(order@[k] == old_order[k]);
                }
            }
            assert forall|q: int| 0 <= q < n && used@[q] implies lists(order@, q) by {
                if q == best {
                    assert(order@[old_order.len() as int] as int == q);
                    assert(lists(order@, q));
                } else {
                    assert(old_used[q]);
                    assert(lists(old_order, q));
                    let k = choose|k: int| 0 <= k < old_order.len() && #[trigger] old_order[k] as int == q;
                    assert(order@[k] == old_order[k]);
                    assert(lists(order@, q));
                }
            }
            assert forall|a: int, b: int| 0 <= a < b < order@.len() implies #[trigger] order@[a]
                != #[trigger] order@[b] by {
                if b == old_order.len() {
                    assert(old_used[order@[a] as int]);
                } else {
                    assert(order@[a] == old_order[a] && order@[b] == old_order[b]);
                }
            }
            assert forall|a: int, b: int| 0 <= a < b < order@.len() implies times@[#[trigger] order@[a] as int] >= times@[#[trigger] order@[b] as int] by {
                if b == old_order.len() {
                    assert(order@[a] == old_order[a]);
                    assert(!old_used[best as int]);
                } else {
                    assert(order@[a] == old_order[a] && order@[b] == old_order[b]);
                }
            }
            assert forall|k: int, q: int|
                0 <= k < order@.len() && 0 <= q < n && !used@[q] implies times@[#[trigger] order@[k] as int] >= #[trigger] times@[q] by {
                assert(!old_used[q]);
                if k < old_order.len() {
                    assert(order@[k] == old_order[k]);
                }
            }
        }
    }
    order
}

/// `order` lists the position `q`.
pub open spec fn lists(order: Seq<usize>, q: int) -> bool {
    exists|k: int| 0 <= k < order.len() && #[trigger] order[k] as int == q
}

/// A sequence that lists every integer of `0..n` has at least `n` entries.
proof fn lemma_all_listed(order: Seq<usize>, n: int)
    requires
        0 <= n,
        forall|q: int| 0 <= q < n ==> #[trigger] lists(order, q),
    ensures
        order.len() >= n,
{
    broadcast use vstd::seq_lib::seq_to_set_is_finite;

    let s = vstd::set_lib::set_int_range(0, n);
    let img = order.to_set().map(|x: usize| x as int);
    assert forall|q: int| s.contains(q) implies img.contains(q) by {
        assert(lists(order, q));
        let k = choose|k: int| 0 <= k < order.len() && #[trigger] order[k] as int == q;
        assert(order.to_set().contains(order[k]));
    }
    vstd::set_lib::lemma_int_range(0, n);
    order.lemma_cardinality_of_set();
    vstd::set_lib::lemma_map_size_bound(order.to_set(), img, |x: usize| x as int);
    vstd::set_lib::lemma_len_subset(s, img);
}

} // verus!
