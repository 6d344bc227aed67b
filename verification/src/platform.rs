//! Disk-type detection on Linux: the block device of a folder is found
//! from its `dev_t` in `/sys/dev/block/<major>:<minor>`, and its
//! `queue/rotational` flag tells a spinning disk (`1`) from an SSD. Reading
//! the files happens outside the library.
use vstd::prelude::*;
use crate::strings::{append_decimal, append_str, chars_of, decimal, is_whitespace, string_of, unicode_whitespace};

verus! {

/// The major number of a 64-bit Linux `dev_t`.
pub open spec fn major_of(dev: u64) -> u64 {
    ((dev >> 8u64) & 0xfffu64) | ((dev >> 32u64) & !0xfffu64)
}

/// The minor number of a 64-bit Linux `dev_t`.
pub open spec fn minor_of(dev: u64) -> u64 {
    (dev & 0xffu64) | ((dev >> 12u64) & 0xffff_ff00u64)
}

pub fn dev_major(dev: u64) -> (m: u64)
    ensures
        m == major_of(dev),
{
    ((dev >> 8u64) & 0xfffu64) | ((dev >> 32u64) & !0xfffu64)
}

pub fn dev_minor(dev: u64) -> (m: u64)
    ensures
        m == minor_of(dev),
{
    (dev & 0xffu64) | ((dev >> 12u64) & 0xffff_ff00u64)
}

/// The sysfs directory of the block device `major:minor`.
pub fn sysfs_block_path(major: u64, minor: u64) -> (s: String)
    ensures
        s@ == "/sys/dev/block/"@ + decimal(major as nat) + ":"@ + decimal(minor as nat),
{
    let mut out: Vec<char> = Vec::new();
    append_str(&mut out, "/sys/dev/block/");
    append_decimal(&mut out, major as u128);
    append_str(&mut out, ":");
    append_decimal(&mut out, minor as u128);
    string_of(out.as_slice())
}

/// A flag file's text means "set" when, with surrounding whitespace
/// removed, it is exactly `1`.
pub open spec fn flag_text_set(s: Seq<char>) -> bool {
    exists|k: int|
        0 <= k < s.len() && s[k] == '1' && forall|j: int|
            0 <= j < s.len() && j != k ==> #[trigger] unicode_whitespace(s[j])
}

/// Reads a sysfs flag's text (`queue/rotational`).
pub fn flag_is_set(text: &str) -> (b: bool)
    ensures
        b == flag_text_set(text@),
{
    let cs = chars_of(text);
    let mut found: Option<usize> = None;
    let mut i: usize = 0;
    while i < cs.len()
        invariant
            i <= cs@.len(),
            cs@ == text@,
            match found {
                Some(k) => k < i && !unicode_whitespace(cs@[k as int]) && forall|j: int| 0 <= j < i && j != k ==> #[trigger] unicode_whitespace(cs@[j]),
                None => forall|j: int| 0 <= j < i ==> #[trigger] unicode_whitespace(cs@[j]),
            },
        decreases cs@.len() - i,
    {
        if !is_whitespace(cs[i]) {
            if found.is_some() {
                proof {
                    let k = found->0;
                    assert forall|k2: int|
                        0 <= k2 < cs@.len() && cs@[k2] == '1' implies !(forall|j: int|
                            0 <= j < cs@.len() && j != k2 ==> #[trigger] unicode_whitespace(cs@[j])) by {
                        if k2 != k as int {
                            assert(!unicode_whitespace(cs@[k as int]));
                        } else {
                            assert(!unicode_whitespace(cs@[i as int]));
                        }
                    }
                }
                return false;
            }
            found = Some(i);
        }
        i = i + 1;
    }
    match found {
        Some(k) => {
            let b = cs[k] == '1';
            proof {
                if !b {
                    assert forall|k2: int|
                        0 <= k2 < cs@.len() && cs@[k2] == '1' implies !(forall|j: int|
                            0 <= j < cs@.len() && j != k2 ==> #[trigger] unicode_whitespace(cs@[j])) by {
                        assert(k2 != k as int);
                        assert(!unicode_whitespace(cs@[k as int]));
                    }
                }
            }
            b
        },
        None => {
            let one_is_space = is_whitespace('1');
            proof {
                assert forall|k2: int|
                    0 <= k2 < cs@.len() && cs@[k2] == '1' implies !(forall|j: int|
                        0 <= j < cs@.len() && j != k2 ==> #[trigger] unicode_whitespace(cs@[j])) by {
                    assert(unicode_whitespace(cs@[k2]));
                    assert(!one_is_space);
                }
            }
            false
        },
    }
}

} // verus!
