//! Sizes: how they are shown, summed and ranked.

use crate::ops::delete::Platform;
use crate::ops::error::OpsError;
use crate::order::{arranged, ints, key1, key_views};
use crate::text::{decimal_chars, decimal_text, digit_char, push_all, push_text, string_of};
use vstd::prelude::*;
use vstd::string::StringExecFns;

verus! {

/// Answers questions about sizes.
#[derive(Debug, Clone, Copy)]
pub struct SpaceManager;

/// The index of the unit in which a size is shown: bytes below 1024, then
/// KB, MB and GB, each up to 1024 of the one before, and TB from there on.
pub open spec fn unit_index(bytes: u64) -> int {
    if bytes < 1024 {
        0
    } else if bytes < 1048576 {
        1
    } else if bytes < 1073741824 {
        2
    } else if bytes < 1099511627776 {
        3
    } else {
        4
    }
}

/// The number of bytes in one unit.
pub open spec fn unit_size(index: int) -> int {
    if index == 0 {
        1
    } else if index == 1 {
        1024
    } else if index == 2 {
        1048576
    } else if index == 3 {
        1073741824
    } else {
        1099511627776
    }
}

/// The name of a unit.
pub open spec fn unit_name(index: int) -> Seq<char> {
    if index == 0 {
        "B"@
    } else if index == 1 {
        "KB"@
    } else if index == 2 {
        "MB"@
    } else if index == 3 {
        "GB"@
    } else {
        "TB"@
    }
}

/// `bytes` in tenths of the unit `unit`, rounded to the nearest tenth; a
/// size that lies midway between two tenths goes to the even one.
pub open spec fn tenths(bytes: u64, unit: int) -> int {
    let scaled = bytes * 10;
    let q = scaled / unit;
    let r = scaled % unit;
    if 2 * r > unit || (2 * r == unit && q % 2 == 1) {
        q + 1
    } else {
        q
    }
}

/// How a size is shown: `0 B` for nothing, a whole number of bytes below
/// 1024, else the size in its unit with one decimal.
pub open spec fn size_text(bytes: u64) -> Seq<char> {
    let k = unit_index(bytes);
    if k == 0 {
        decimal_text(bytes as nat) + " B"@
    } else {
        let t = tenths(bytes, unit_size(k));
        decimal_text((t / 10) as nat) + "."@ + seq![digit_char((t % 10) as nat)] + " "@ + unit_name(
            k,
        )
    }
}

/// The sum of the sizes, capped at the largest `u64`.
pub open spec fn sizes_sum(sizes: Seq<u64>) -> nat
    decreases sizes.len(),
{
    if sizes.len() == 0 {
        0
    } else {
        let sum = sizes_sum(sizes.drop_last()) + sizes.last();
        if sum > u64::MAX {
            u64::MAX as nat
        } else {
            sum as nat
        }
    }
}

/// For each file a key that lists larger files first.
pub open spec fn largest_first_keys(files: Seq<(String, u64)>) -> Seq<Seq<int>> {
    Seq::new(files.len(), |i: int| seq![-(files[i].1 as int)])
}

impl SpaceManager {
    pub fn new() -> (out: SpaceManager) {
        SpaceManager
    }

    /// How `bytes` is shown.
    pub fn format_bytes(&self, bytes: u64) -> (out: String)
        ensures
            out@ == size_text(bytes),
    {
        if bytes < 1024 {
            let mut text = decimal_chars(bytes);
            push_text(&mut text, " B");
            return string_of(&text);
        }
        let (unit, name): (u128, &str) = if bytes < 1048576 {
            (1024, "KB")
        } else if bytes < 1073741824 {
            (1048576, "MB")
        } else if bytes < 1099511627776 {
            (1073741824, "GB")
        } else {
            (1099511627776, "TB")
        };
        let scaled: u128 = (bytes as u128) * 10;
        let q: u128 = scaled / unit;
        let r: u128 = scaled % unit;
        let t: u128 = if 2 * r > unit || (2 * r == unit && q % 2 == 1) {
            q + 1
        } else {
            q
        };
        assert(t == tenths(bytes, unit_size(unit_index(bytes))));
        assert(t / 10 <= u64::MAX);
        let mut text = decimal_chars((t / 10) as u64);
        text.push('.');
        let frac = decimal_chars((t % 10) as u64);
        proof {
            reveal_with_fuel(decimal_text, 1);
            reveal_strlit(".");
            reveal_strlit(" ");
            assert(frac@ == seq![digit_char((t % 10) as nat)]);
            assert("."@ =~= seq!['.']);
            assert(" "@ =~= seq![' ']);
        }
        push_all(&mut text, &frac);
        text.push(' ');
        push_text(&mut text, name);
        assert(text@ =~= size_text(bytes));
        string_of(&text)
    }

    /// The `limit` largest of `files`, largest first; files of one size in
    /// the order in which they were given. A file is its path and size.
    pub fn get_largest_files(&self, files: &Vec<(String, u64)>, limit: usize) -> (out: Vec<
        (String, u64),
    >)
        ensures
            out@.len() == crate::seqs::first_n(
                arranged(files@, largest_first_keys(files@)),
                limit as nat,
            ).len(),
            forall|k: int|
                0 <= k < out@.len() ==> (#[trigger] out@[k]) == arranged(
                    files@,
                    largest_first_keys(files@),
                )[k],
    {
        let mut keys: Vec<Vec<i128>> = Vec::new();
        let mut i: usize = 0;
        while i < files.len()
            invariant
                i <= files.len(),
                keys@.len() == i,
                forall|j: int|
                    0 <= j < i ==> ints((#[trigger] keys@[j])@) == seq![-(files@[j].1 as int)],
            decreases files.len() - i,
        {
            keys.push(key1(-(files[i].1 as i128)));
            i = i + 1;
        }
        assert(key_views(keys@) =~= largest_first_keys(files@));
        let order = crate::order::stable_order(&keys);
        let mut out: Vec<(String, u64)> = Vec::new();
        let mut k: usize = 0;
        while k < order.len() && k < limit
            invariant
                k <= order.len(),
                k <= limit,
                order@ == crate::order::the_stable_order(largest_first_keys(files@)),
                crate::order::is_stable_order(largest_first_keys(files@), order@),
                largest_first_keys(files@).len() == files@.len(),
                out@.len() == k,
                forall|j: int|
                    0 <= j < k ==> (#[trigger] out@[j]) == arranged(
                        files@,
                        largest_first_keys(files@),
                    )[j],
            decreases order.len() - k,
        {
            let at = order[k];
            out.push((files[at].0.clone(), files[at].1));
            k = k + 1;
        }
        out
    }

    /// The space that removing files of the given sizes frees: their sum,
    /// capped at the largest `u64`.
    pub fn estimate_cleanup_impact(&self, sizes: &Vec<u64>) -> (out: u64)
        ensures
            out == sizes_sum(sizes@),
    {
        let mut sum: u64 = 0;
        let mut i: usize = 0;
        while i < sizes.len()
            invariant
                i <= sizes.len(),
                sum == sizes_sum(sizes@.take(i as int)),
            decreases sizes.len() - i,
        {
            proof {
                assert(sizes@.take(i + 1).drop_last() == sizes@.take(i as int));
                assert(sizes@.take(i + 1).last() == sizes@[i as int]);
            }
            sum = sum.saturating_add(sizes[i]);
            i = i + 1;
        }
        assert(sizes@.take(sizes@.len() as int) == sizes@);
        sum
    }

    /// Whether `available` bytes are enough for `required` bytes.
    pub fn is_sufficient(&self, available: u64, required: u64) -> (r: bool)
        ensures
            r == (available >= required),
    {
        available >= required
    }

    /// The free space of a volume as the system reports it in `reading`.
    /// A reading that failed is a space error that quotes the failure; on
    /// a system that is neither Windows nor a Unix no space can be read.
    pub fn get_available_space(&self, platform: Platform, reading: &Result<u64, String>) -> (out:
        Result<u64, OpsError>)
        ensures
            match out {
                Ok(bytes) => !(platform is Other) && *reading == Ok::<u64, String>(bytes),
                Err(e) => e is SpaceError && (if platform is Other {
                    e.detail() == "Unsupported platform for space checking"@
                } else {
                    reading is Err && e.detail() == "Failed to read metadata: "@
                        + reading->Err_0@
                }),
            },
    {
        match platform {
            Platform::Other => Err(
                OpsError::SpaceError(String::from_str("Unsupported platform for space checking")),
            ),
            _ => match reading {
                Ok(bytes) => Ok(*bytes),
                Err(why) => Err(
                    OpsError::SpaceError(
                        crate::text::join2("Failed to read metadata: ", why.as_str()),
                    ),
                ),
            },
        }
    }

    /// The space of a volume of `total` bytes of which `available` are
    /// free.
    pub fn get_space_info(&self, available: u64, total: u64) -> (out: SpaceInfo)
        ensures
            out.total_bytes == total,
            out.available_bytes == available,
            out.used_bytes == (if available <= total {
                (total - available) as u64
            } else {
                0
            }),
            out.free_hundredths == free_share(available, total),
    {
        SpaceInfo {
            total_bytes: total,
            available_bytes: available,
            used_bytes: if available <= total {
                total - available
            } else {
                0
            },
            free_hundredths: Self::share(available, total),
        }
    }

    fn share(available: u64, total: u64) -> (out: u32)
        ensures
            out == free_share(available, total),
    {
        if total == 0 {
            return 0;
        }
        let share: u128 = (available as u128) * 10000 / (total as u128);
        if share > 4294967295 {
            u32::MAX
        } else {
            share as u32
        }
    }

    /// For each volume that was read, whether it has room for
    /// `required_bytes`, in the order of the readings.
    pub fn check_space_requirements(&self, readings: &Vec<VolumeReading>, required_bytes: u64) -> (out:
        Vec<SpaceCheck>)
        ensures
            out@.len() == readings@.len(),
            forall|k: int|
                0 <= k < out@.len() ==> {
                    &&& (#[trigger] out@[k]).path@ == readings@[k].path@
                    &&& out@[k].required_bytes == required_bytes
                    &&& out@[k].available_bytes == readings@[k].available_bytes
                    &&& out@[k].sufficient == (readings@[k].available_bytes >= required_bytes)
                    &&& out@[k].free_hundredths == free_share(
                        readings@[k].available_bytes,
                        readings@[k].total_bytes,
                    )
                },
    {
        let mut out: Vec<SpaceCheck> = Vec::new();
        let mut i: usize = 0;
        while i < readings.len()
            invariant
                i <= readings.len(),
                out@.len() == i,
                forall|k: int|
                    0 <= k < i ==> {
                        &&& (#[trigger] out@[k]).path@ == readings@[k].path@
                        &&& out@[k].required_bytes == required_bytes
                        &&& out@[k].available_bytes == readings@[k].available_bytes
                        &&& out@[k].sufficient == (readings@[k].available_bytes >= required_bytes)
                        &&& out@[k].free_hundredths == free_share(
                            readings@[k].available_bytes,
                            readings@[k].total_bytes,
                        )
                    },
            decreases readings.len() - i,
        {
            let r = &readings[i];
            out.push(
                SpaceCheck {
                    path: r.path.clone(),
                    required_bytes,
                    available_bytes: r.available_bytes,
                    sufficient: self.is_sufficient(r.available_bytes, required_bytes),
                    free_hundredths: Self::share(r.available_bytes, r.total_bytes),
                },
            );
            i = i + 1;
        }
        out
    }
}

/// The space of a volume.
#[derive(Debug, Clone)]
pub struct SpaceInfo {
    pub total_bytes: u64,
    pub available_bytes: u64,
    pub used_bytes: u64,
    /// The free share of the volume, in hundredths of a percent.
    pub free_hundredths: u32,
}

/// Whether a volume has room for what is required.
#[derive(Debug, Clone)]
pub struct SpaceCheck {
    pub path: String,
    pub required_bytes: u64,
    pub available_bytes: u64,
    pub sufficient: bool,
    /// The free share of the volume, in hundredths of a percent.
    pub free_hundredths: u32,
}

/// What the system says of the volume that holds a path.
#[derive(Debug, Clone)]
pub struct VolumeReading {
    pub path: String,
    pub available_bytes: u64,
    pub total_bytes: u64,
}

/// The free share of a volume in hundredths of a percent, rounded down
/// and capped; zero for a volume without bytes.
pub open spec fn free_share(available: u64, total: u64) -> u32 {
    if total == 0 {
        0
    } else if available * 10000 / (total as int) > u32::MAX {
        u32::MAX
    } else {
        (available * 10000 / (total as int)) as u32
    }
}

} // verus!
