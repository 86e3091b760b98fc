use vstd::prelude::*;

use crate::date::Date;
use crate::discovery::Asset;
use crate::disk::size_on_disk;
use crate::paths::copy_bytes;
use crate::paths::copy_prefix;
use crate::paths::path_view;

verus! {

pub open spec fn digit_byte(n: int) -> u8
    recommends
        0 <= n <= 9,
{
    (48 + n) as u8
}

/// The year as four zero-padded decimal digits.
pub open spec fn year_bytes(y: int) -> Seq<u8>
    recommends
        0 <= y <= 9999,
{
    seq![
        digit_byte(y / 1000 % 10),
        digit_byte(y / 100 % 10),
        digit_byte(y / 10 % 10),
        digit_byte(y % 10),
    ]
}

/// A month or day as two zero-padded decimal digits.
pub open spec fn two_digit_bytes(n: int) -> Seq<u8>
    recommends
        0 <= n <= 99,
{
    seq![digit_byte(n / 10 % 10), digit_byte(n % 10)]
}

/// The day directory's name: `YYYY-MM-DD`.
pub open spec fn day_dir_bytes(d: Date) -> Seq<u8> {
    year_bytes(d.year as int) + seq![45u8] + two_digit_bytes(d.month as int) + seq![45u8]
        + two_digit_bytes(d.day as int)
}

/// The destination directory of an asset modified on date `d`:
/// `<output_root>/<YYYY>/<YYYY>-<MM>-<DD>`.
pub open spec fn dest_dir_view(out_root: Seq<Seq<u8>>, d: Date) -> Seq<Seq<u8>> {
    out_root.push(year_bytes(d.year as int)).push(day_dir_bytes(d))
}

/// The destination of the asset itself: its base name under its
/// destination directory.
pub open spec fn dest_path_view(out_root: Seq<Seq<u8>>, a: Asset) -> Seq<Seq<u8>> {
    dest_dir_view(out_root, a.date).push(a.pathv().last())
}

fn push_two_digits(v: &mut Vec<u8>, n: u32)
    requires
        n <= 99,
    ensures
        final (v)@ == old(v)@ + two_digit_bytes(n as int),
{
    v.push(48 + (n / 10) as u8);
    v.push(48 + (n % 10) as u8);
    proof {
        assert(v@ =~= old(v)@ + two_digit_bytes(n as int));
    }
}

/// The year of a date as its four-digit directory name.
pub fn year_component(d: &Date) -> (r: Vec<u8>)
    requires
        d.wf(),
    ensures
        r@ == year_bytes(d.year as int),
{
    let y = d.year;
    let mut r: Vec<u8> = Vec::new();
    r.push(48 + (y / 1000 % 10) as u8);
    r.push(48 + (y / 100 % 10) as u8);
    r.push(48 + (y / 10 % 10) as u8);
    r.push(48 + (y % 10) as u8);
    proof {
        assert(r@ =~= year_bytes(d.year as int));
    }
    r
}

/// The day of a date as its `YYYY-MM-DD` directory name.
pub fn day_component(d: &Date) -> (r: Vec<u8>)
    requires
        d.wf(),
    ensures
        r@ == day_dir_bytes(*d),
{
    let mut r = year_component(d);
    r.push(45);
    push_two_digits(&mut r, d.month);
    r.push(45);
    push_two_digits(&mut r, d.day);
    proof {
        assert(r@ =~= day_dir_bytes(*d));
    }
    r
}

/// Where one asset goes: the date-bucketed directory that must exist, and
/// the destination path inside it that the copy writes.
pub struct ArchivePlan {
    pub dir: Vec<Vec<u8>>,
    pub dest: Vec<Vec<u8>>,
}

/// Derives an asset's destination: the `<YYYY>/<YYYY>-<MM>-<DD>` bucket
/// under the output root, and the asset's base name inside that bucket.
/// Deriving is pure, so a second run over the same root and assets derives
/// the same directories.
pub fn archive_plan(out_root: &Vec<Vec<u8>>, asset: &Asset) -> (r: ArchivePlan)
    requires
        asset.wf(),
    ensures
        path_view(r.dir) == dest_dir_view(path_view(*out_root), asset.date),
        path_view(r.dest) == dest_path_view(path_view(*out_root), *asset),
{
    let mut dir = copy_prefix(out_root, out_root.len());
    proof {
        assert(path_view(*out_root).subrange(0, out_root@.len() as int) =~= path_view(*out_root));
    }
    dir.push(year_component(&asset.date));
    dir.push(day_component(&asset.date));
    let mut dest = copy_prefix(&dir, dir.len());
    proof {
        assert(path_view(dir).subrange(0, dir@.len() as int) =~= path_view(dir));
    }
    let n = asset.path.len();
    dest.push(copy_bytes(&asset.path[n - 1]));
    proof {
        assert(path_view(dir) =~= dest_dir_view(path_view(*out_root), asset.date));
        assert(path_view(dest) =~= dest_path_view(path_view(*out_root), *asset));
    }
    ArchivePlan { dir, dest }
}

#[derive(Debug, PartialEq, Eq)]
pub enum ArchiveError {
    /// The destination's size could not be read back.
    SizeQuery { path: Vec<Vec<u8>> },
    /// The destination's size differs from the recorded source size.
    SizeMismatch { path: Vec<Vec<u8>>, expected: u64, actual: u64 },
}

/// The verdict on one measurement: accepts exactly when the size read back
/// for the destination equals the recorded source size, and otherwise
/// reports either the mismatching pair or the failed read, naming the
/// destination. Verified for every outcome of the read.
pub fn classify_measurement(
    expected: u64,
    dest: &Vec<Vec<u8>>,
    measured: Result<u64, fs_extra::error::Error>,
) -> (r: Result<u64, ArchiveError>)
    ensures
        measured is Ok && measured->Ok_0 == expected ==> (r matches Ok(v) && v
            == measured->Ok_0),
        measured is Ok && measured->Ok_0 != expected ==> (r matches Err(
            ArchiveError::SizeMismatch { path, expected: want, actual },
        ) && path_view(path) == path_view(*dest) && want == expected && actual
            == measured->Ok_0),
        measured is Err ==> (r matches Err(ArchiveError::SizeQuery { path }) && path_view(path)
            == path_view(*dest)),
{
    let copy = copy_prefix(dest, dest.len());
    proof {
        assert(path_view(*dest).subrange(0, dest@.len() as int) =~= path_view(*dest));
    }
    match measured {
        Ok(actual) => {
            if actual == expected {
                Ok(actual)
            } else {
                Err(ArchiveError::SizeMismatch { path: copy, expected, actual })
            }
        },
        Err(_) => Err(ArchiveError::SizeQuery { path: copy }),
    }
}

/// The integrity check after a copy: reads the destination's size back
/// from disk — recursive for directories, direct length for files, the
/// same rule discovery uses — and hands the outcome to
/// `classify_measurement`, which is exact for every value read.
pub fn verify_destination(expected: u64, dest: &Vec<Vec<u8>>) -> (r: Result<u64, ArchiveError>)
    ensures
        r matches Ok(actual) ==> actual == expected,
        r matches Err(e) ==> match e {
            ArchiveError::SizeQuery { path } => path_view(path) == path_view(*dest),
            ArchiveError::SizeMismatch { path, expected: want, actual } => path_view(path)
                == path_view(*dest) && want == expected && actual != expected,
        },
{
    classify_measurement(expected, dest, size_on_disk(dest))
}

} // verus!
