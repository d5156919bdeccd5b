//! Decisions of the random seed tool: reading 128-bit ids, sizing the
//! seed buffer, and whether the loaded seed may be credited as entropy.

use vstd::prelude::*;
use crate::rules::eq_lit;
use crate::text::{chars_of, parse_int, parse_int_range, split_on, trim_ws};

verus! {

/// Upper bound of the seed buffer.
pub const RANDOM_POOL_SIZE_MAX: usize = 10485760;

/// Lower bound of the seed buffer.
pub const RANDOM_POOL_SIZE_MIN: usize = 512;

/// The value of a hexadecimal digit byte.
pub open spec fn hex_value(c: u8) -> Option<u8> {
    if 0x30 <= c <= 0x39 {
        Some((c - 0x30) as u8)
    } else if 0x61 <= c <= 0x66 {
        Some((c - 0x61 + 10) as u8)
    } else if 0x41 <= c <= 0x46 {
        Some((c - 0x41 + 10) as u8)
    } else {
        None
    }
}

/// The value of the hexadecimal digit `c`.
pub fn unhexchar(c: u8) -> (r: Result<u8, ()>)
    ensures
        r matches Ok(v) ==> hex_value(c) == Some(v),
        r is Err ==> hex_value(c) is None,
{
    if 0x30 <= c && c <= 0x39 {
        Ok(c - 0x30)
    } else if 0x61 <= c && c <= 0x66 {
        Ok(c - 0x61 + 10)
    } else if 0x41 <= c && c <= 0x46 {
        Ok(c - 0x41 + 10)
    } else {
        Err(())
    }
}

/// Outcome of reading a 128-bit id.
pub enum IdScan {
    /// the 16 bytes, the index after the last digit, whether dashes were
    /// seen in the GUID positions
    Read(Seq<u8>, int, bool),
    /// a misplaced dash or a bad digit
    Invalid,
    /// the text ends before 32 digits were read
    Short,
}

/// Reads the id from index `i` with `n` bytes (`acc`) read so far: pairs
/// of hexadecimal digits, where a dash may stand at index 8 (making the
/// id a GUID) and then at 13, 18 and 23.
pub open spec fn id_scan(buf: Seq<u8>, i: int, n: int, guid: bool, acc: Seq<u8>) -> IdScan
    decreases buf.len() - i,
{
    if n >= 16 {
        IdScan::Read(acc, i, guid)
    } else if i < 0 || i >= buf.len() {
        IdScan::Short
    } else if buf[i] == 0x2d {
        if i == 8 {
            id_scan(buf, i + 1, n, true, acc)
        } else if (i == 13 || i == 18 || i == 23) && guid {
            id_scan(buf, i + 1, n, guid, acc)
        } else {
            IdScan::Invalid
        }
    } else if hex_value(buf[i]) is None {
        IdScan::Invalid
    } else if i + 1 >= buf.len() {
        IdScan::Short
    } else if hex_value(buf[i + 1]) is None {
        IdScan::Invalid
    } else {
        let b = (hex_value(buf[i])->Some_0 * 16 + hex_value(buf[i + 1])->Some_0) as u8;
        id_scan(buf, i + 2, n + 1, guid, acc.push(b))
    }
}

/// The id that `buf` spells: 32 hexadecimal digits, or 36 characters in
/// the GUID form with dashes; `None` otherwise.
pub open spec fn id128_of(buf: Seq<u8>) -> Option<Seq<u8>> {
    match id_scan(buf, 0, 0, false, Seq::empty()) {
        IdScan::Read(bytes, end, guid) => if (guid && end == 36) || (!guid && end == 32) {
            Some(bytes)
        } else {
            None
        },
        _ => None,
    }
}

/// Reading the id does not run past the end of `buf`.
pub open spec fn id128_readable(buf: Seq<u8>) -> bool {
    !(id_scan(buf, 0, 0, false, Seq::empty()) is Short)
}

/// Parses a 128-bit id from its text form.
pub fn sd_id128_from_string(buf: &[u8]) -> (r: Result<[u8; 16], ()>)
    requires
        id128_readable(buf@),
    ensures
        r matches Ok(bytes) ==> id128_of(buf@) == Some(bytes@),
        r is Err ==> id128_of(buf@) is None,
{
    let mut bytes = [0u8; 16];
    let ghost mut acc: Seq<u8> = Seq::empty();
    let mut i: usize = 0;
    let mut is_guid = false;
    let mut n: usize = 0;
    while n < 16
        invariant
            n <= 16,
            acc.len() == n,
            bytes@.len() == 16,
            forall|k: int| 0 <= k < n ==> bytes@[k] == acc[k],
            id_scan(buf@, i as int, n as int, is_guid, acc) == id_scan(buf@, 0, 0, false, Seq::empty()),
            !(id_scan(buf@, i as int, n as int, is_guid, acc) is Short),
            i <= buf@.len(),
        decreases buf@.len() - i,
    {
        if buf[i] == 0x2du8 {
            if i == 8 {
                is_guid = true;
            } else if i == 13 || i == 18 || i == 23 {
                if !is_guid {
                    return Err(());
                }
            } else {
                return Err(());
            }
            i += 1;
            continue;
        }
        let a = match unhexchar(buf[i]) {
            Ok(a) => a,
            Err(_) => {
                return Err(());
            },
        };
        i += 1;
        let b = match unhexchar(buf[i]) {
            Ok(b) => b,
            Err(_) => {
                return Err(());
            },
        };
        i += 1;
        let v = a << 4 | b;
        assert(v == a * 16 + b) by (bit_vector)
            requires
                a < 16,
                b < 16,
                v == a << 4 | b,
        ;
        bytes.set(n, v);
        proof {
            acc = acc.push(v);
        }
        n += 1;
    }
    assert(bytes@ =~= acc);
    if is_guid && i != 36 {
        return Err(());
    }
    if !is_guid && i != 32 {
        return Err(());
    }
    Ok(bytes)
}

/// What the length read from the machine id file leaves of it: 32 or 36
/// characters, optionally followed by a newline.
pub open spec fn machine_id_text(buf: Seq<u8>, size: int) -> Option<int> {
    if size == 32 || size == 36 {
        Some(size)
    } else if (size == 33 || size == 37) && size - 1 < buf.len() && buf[size - 1] == 0x0a {
        Some(size - 1)
    } else {
        None
    }
}

/// Reads the machine id from the first `size` bytes read into `buf`.
pub fn machine_id_from(buf: &[u8], size: usize) -> (r: Result<[u8; 16], ()>)
    requires
        size <= buf@.len(),
        machine_id_text(buf@, size as int) matches Some(len) ==> id128_readable(buf@.take(len)),
    ensures
        r matches Ok(bytes) ==> machine_id_text(buf@, size as int) matches Some(len)
            && id128_of(buf@.take(len)) == Some(bytes@),
        r is Err ==> (machine_id_text(buf@, size as int) matches Some(len) ==> id128_of(buf@.take(len)) is None),
{
    let len: usize = if size == 32 || size == 36 {
        size
    } else if (size == 33 || size == 37) && buf[size - 1] == 0x0au8 {
        size - 1
    } else {
        return Err(());
    };
    let text = vstd::slice::slice_subrange(buf, 0, len);
    assert(text@ =~= buf@.take(len as int));
    sd_id128_from_string(text)
}

/// Whether reading an id from `buf` stays inside it (else the reader
/// would index past the end).
pub fn id128_readable_check(buf: &[u8]) -> (r: bool)
    ensures
        r == id128_readable(buf@),
{
    let mut i: usize = 0;
    let mut n: usize = 0;
    let mut guid = false;
    let ghost mut acc: Seq<u8> = Seq::empty();
    while n < 16
        invariant
            n <= 16,
            acc.len() == n,
            id_scan(buf@, i as int, n as int, guid, acc) == id_scan(buf@, 0, 0, false, Seq::empty()),
            i <= buf@.len(),
        decreases buf@.len() - i,
    {
        if i >= buf.len() {
            return false;
        }
        if buf[i] == 0x2du8 {
            if i == 8 {
                guid = true;
            } else if (i == 13 || i == 18 || i == 23) && guid {
            } else {
                return true;
            }
            i += 1;
        } else {
            let a = match unhexchar(buf[i]) {
                Ok(a) => a,
                Err(_) => {
                    return true;
                },
            };
            if i + 1 >= buf.len() {
                return false;
            }
            let b = match unhexchar(buf[i + 1]) {
                Ok(b) => b,
                Err(_) => {
                    return true;
                },
            };
            proof {
                acc = acc.push((a * 16 + b) as u8);
            }
            i += 2;
            n += 1;
        }
    }
    true
}

/// The booleans that settings accept.
pub open spec fn boolean_of(s: Seq<char>) -> Option<bool> {
    if s == "1"@ || s == "yes"@ || s == "y"@ || s == "true"@ || s == "t"@ || s == "on"@ {
        Some(true)
    } else if s == "0"@ || s == "no"@ || s == "n"@ || s == "false"@ || s == "f"@ || s == "off"@ {
        Some(false)
    } else {
        None
    }
}

/// Parses a boolean setting.
pub fn parse_boolean(s: &str) -> (r: Result<bool, ()>)
    ensures
        r matches Ok(b) ==> boolean_of(s@) == Some(b),
        r is Err ==> boolean_of(s@) is None,
{
    let v = chars_of(s);
    if eq_lit(&v, "1") || eq_lit(&v, "yes") || eq_lit(&v, "y") || eq_lit(&v, "true") || eq_lit(&v, "t")
        || eq_lit(&v, "on") {
        Ok(true)
    } else if eq_lit(&v, "0") || eq_lit(&v, "no") || eq_lit(&v, "n") || eq_lit(&v, "false") || eq_lit(&v, "f")
        || eq_lit(&v, "off") {
        Ok(false)
    } else {
        Err(())
    }
}

/// Whether the seed may be credited as entropy.
#[derive(Debug, Clone, Copy, PartialEq, Eq, Structural)]
pub enum CreditEntropy {
    NoWay,
    YesPlease,
    YesForced,
}

/// The crediting decision from the `SYSTEMD_RANDOM_SEED_CREDIT` setting,
/// the seed file's creditable attribute (`Err` where it could not be
/// read, `None` where it is absent) and whether this is a first boot.
pub open spec fn credit_of(setting: Option<Seq<char>>, attr: Result<Option<Seq<char>>, ()>, first_boot: bool) -> CreditEntropy {
    match setting {
        None => CreditEntropy::NoWay,
        Some(e) => if e == "force"@ {
            CreditEntropy::YesForced
        } else if boolean_of(e) != Some(true) {
            CreditEntropy::NoWay
        } else {
            match attr {
                Ok(Some(a)) => if boolean_of(a) == Some(true) && !first_boot {
                    CreditEntropy::YesPlease
                } else {
                    CreditEntropy::NoWay
                },
                _ => CreditEntropy::NoWay,
            }
        },
    }
}

/// Decides whether the loaded seed is credited as entropy.
pub fn may_credit(setting: Option<&str>, attr: Result<Option<&str>, ()>, first_boot: bool) -> (r: CreditEntropy)
    ensures
        r == credit_of(
            crate::hostname::str_opt(setting),
            match attr { Ok(a) => Ok(crate::hostname::str_opt(a)), Err(()) => Err(()) },
            first_boot,
        ),
{
    let e = match setting {
        None => {
            return CreditEntropy::NoWay;
        },
        Some(e) => e,
    };
    let ev = chars_of(e);
    if eq_lit(&ev, "force") {
        return CreditEntropy::YesForced;
    }
    match parse_boolean(e) {
        Ok(true) => {},
        _ => {
            return CreditEntropy::NoWay;
        },
    }
    let a = match attr {
        Ok(Some(a)) => a,
        _ => {
            return CreditEntropy::NoWay;
        },
    };
    match parse_boolean(a) {
        Ok(true) => {},
        _ => {
            return CreditEntropy::NoWay;
        },
    }
    if first_boot {
        return CreditEntropy::NoWay;
    }
    CreditEntropy::YesPlease
}

/// `usize::clamp`.
pub open spec fn clamp(x: int, lo: int, hi: int) -> int {
    if x < lo { lo } else if x > hi { hi } else { x }
}

/// The first line of `content` that is not blank (lines split at `\n`,
/// each without a trailing `\r`).
pub open spec fn first_nonblank(lines: Seq<Seq<char>>) -> Option<Seq<char>>
    decreases lines.len(),
{
    if lines.len() == 0 {
        None
    } else if trim_ws(strip_cr(lines[0])).len() > 0 {
        Some(strip_cr(lines[0]))
    } else {
        first_nonblank(lines.drop_first())
    }
}

/// A line without its trailing carriage return.
pub open spec fn strip_cr(l: Seq<char>) -> Seq<char> {
    if l.len() > 0 && l.last() == '\r' { l.drop_last() } else { l }
}

/// The seed buffer size from the kernel's pool size file: the first
/// nonblank line read as a number of bits, in bytes, clamped to the
/// bounds; the lower bound where the file gives nothing usable.
pub open spec fn pool_size_of(content: Seq<char>) -> int {
    match first_nonblank(split_on(content, '\n')) {
        Some(l) => match parse_int(l, 0, usize::MAX as int, false) {
            Some(bits) => clamp(bits / 8, RANDOM_POOL_SIZE_MIN as int, RANDOM_POOL_SIZE_MAX as int),
            None => RANDOM_POOL_SIZE_MIN as int,
        },
        None => RANDOM_POOL_SIZE_MIN as int,
    }
}

/// The seed buffer size for the pool size file's `content`.
pub fn random_pool_size(content: &str) -> (r: usize)
    ensures
        r == pool_size_of(content@),
{
    let lines = crate::text::split_char(content, '\n');
    let ghost lv = lines@.map_values(|p: &str| p@);
    let mut i: usize = 0;
    assert(lv.skip(0) =~= lv);
    while i < lines.len()
        invariant
            0 <= i <= lines.len(),
            lv == lines@.map_values(|p: &str| p@),
            lv == split_on(content@, '\n'),
            first_nonblank(lv.skip(i as int)) == first_nonblank(split_on(content@, '\n')),
        decreases lines.len() - i,
    {
        assert(lv.skip(i as int)[0] == lines@[i as int]@);
        assert(lv.skip(i as int).drop_first() =~= lv.skip(i + 1));
        let l = chars_of(lines[i]);
        let end = if l.len() > 0 && l[l.len() - 1] == '\r' { l.len() - 1 } else { l.len() };
        assert(l@.subrange(0, end as int) == strip_cr(l@));
        let (a, b) = crate::text::trim_bounds(&l, 0, end);
        if a < b {
            let size = match parse_int_range(&l, 0, end, 0, usize::MAX as i128, false) {
                Some(bits) => {
                    let bytes = (bits / 8) as usize;
                    if bytes < RANDOM_POOL_SIZE_MIN {
                        RANDOM_POOL_SIZE_MIN
                    } else if bytes > RANDOM_POOL_SIZE_MAX {
                        RANDOM_POOL_SIZE_MAX
                    } else {
                        bytes
                    }
                },
                None => RANDOM_POOL_SIZE_MIN,
            };
            return size;
        }
        i += 1;
    }
    RANDOM_POOL_SIZE_MIN
}

/// What the tool does with the seed file.
#[derive(Debug, Clone, Copy, PartialEq, Eq, Structural)]
pub enum SeedAction {
    /// feed the saved seed to the kernel
    Load,
    /// save a new seed
    Save,
}

/// The action that the verb names.
pub fn seed_action(verb: &str) -> (r: Result<SeedAction, ()>)
    ensures
        r == (if verb@ == "load"@ {
            Ok::<SeedAction, ()>(SeedAction::Load)
        } else if verb@ == "save"@ {
            Ok::<SeedAction, ()>(SeedAction::Save)
        } else {
            Err::<SeedAction, ()>(())
        }),
{
    let v = chars_of(verb);
    if eq_lit(&v, "load") {
        Ok(SeedAction::Load)
    } else if eq_lit(&v, "save") {
        Ok(SeedAction::Save)
    } else {
        Err(())
    }
}

/// The buffer size for a seed file of `file_size` bytes: the pool size,
/// or the file size where that is larger (at most the upper bound).
pub fn seed_buffer_size(pool_size: usize, file_size: u64) -> (r: usize)
    ensures
        r == (if file_size > pool_size {
            if file_size < RANDOM_POOL_SIZE_MAX { file_size as int } else { RANDOM_POOL_SIZE_MAX as int }
        } else {
            pool_size as int
        }),
{
    if file_size > pool_size as u64 {
        if file_size < RANDOM_POOL_SIZE_MAX as u64 {
            file_size as usize
        } else {
            RANDOM_POOL_SIZE_MAX
        }
    } else {
        pool_size
    }
}

/// Whether the seed is credited once the seed file was (or could not be)
/// synchronised: a failed synchronisation withdraws a requested credit
/// but not a forced one.
pub fn credit_after_sync(credit: CreditEntropy, attr_removed: bool, synced: bool) -> (r: bool)
    ensures
        r == (credit == CreditEntropy::YesForced || (credit == CreditEntropy::YesPlease && !(attr_removed && !synced))),
{
    let mut lets = credit;
    if attr_removed && !synced && lets == CreditEntropy::YesPlease {
        lets = CreditEntropy::NoWay;
    }
    lets == CreditEntropy::YesForced || lets == CreditEntropy::YesPlease
}

/// The header of an entropy-adding request for `len` bytes of seed.
pub struct RandPoolInfo {
    pub entropy_count: i32,
    pub buf_size: i32,
    pub buf: [u8; 0],
}

impl RandPoolInfo {
    /// The header for `len` bytes: all of them credited, eight bits each
    /// (both counts as the kernel's 32-bit fields hold them).
    pub fn for_len(len: usize) -> (r: RandPoolInfo)
        requires
            len * 8 <= usize::MAX,
        ensures
            r.entropy_count == (len * 8) as i32,
            r.buf_size == len as i32,
    {
        let bits = len * 8;
        RandPoolInfo { entropy_count: #[verifier::truncate] (bits as i32), buf_size: #[verifier::truncate] (len as i32), buf: [] }
    }
}

/// `h` is 32 hexadecimal digits.
pub open spec fn hex_digits32(h: Seq<u8>) -> bool {
    h.len() == 32 && forall|i: int| 0 <= i < 32 ==> #[trigger] hex_value(h[i]) is Some
}

/// The 16 bytes that the 32 hexadecimal digits `h` spell, two digits a
/// byte, the high digit first.
pub open spec fn hex_bytes(h: Seq<u8>) -> Seq<u8> {
    Seq::new(16, |k: int| (hex_value(h[2 * k])->Some_0 * 16 + hex_value(h[2 * k + 1])->Some_0) as u8)
}

/// The number of dashes of the GUID form before its position `i`.
pub open spec fn dashes_before(i: int) -> int {
    (if i > 8 { 1int } else { 0int }) + (if i > 13 { 1int } else { 0int }) + (if i > 18 { 1int } else { 0int })
        + (if i > 23 { 1int } else { 0int })
}

/// The GUID form of the digits `h`: dashes at positions 8, 13, 18 and
/// 23, that is before digits 8, 12, 16 and 20 of `h`.
pub open spec fn guid_text(h: Seq<u8>) -> Seq<u8> {
    Seq::new(36, |i: int| if i == 8 || i == 13 || i == 18 || i == 23 { 0x2du8 } else { h[i - dashes_before(i)] })
}

proof fn lemma_scan_plain(h: Seq<u8>, n: int)
    requires
        hex_digits32(h),
        0 <= n <= 16,
    ensures
        id_scan(h, 2 * n, n, false, hex_bytes(h).take(n)) == IdScan::Read(hex_bytes(h), 32, false),
    decreases 16 - n,
{
    if n == 16 {
        assert(hex_bytes(h).take(16) =~= hex_bytes(h));
    } else {
        lemma_scan_plain(h, n + 1);
        assert(hex_value(h[2 * n]) is Some);
        assert(hex_value(h[2 * n + 1]) is Some);
        assert(hex_bytes(h).take(n).push(hex_bytes(h)[n]) =~= hex_bytes(h).take(n + 1));
    }
}

/// Position of the high digit of byte `n` in the GUID form.
pub open spec fn guid_pos(n: int) -> int {
    2 * n + (if n >= 4 { 1int } else { 0int }) + (if n >= 6 { 1int } else { 0int }) + (if n >= 8 { 1int } else { 0int })
        + (if n >= 10 { 1int } else { 0int })
}

proof fn lemma_scan_guid(h: Seq<u8>, n: int)
    requires
        hex_digits32(h),
        0 <= n <= 16,
    ensures
        id_scan(guid_text(h), guid_pos(n), n, n >= 4, hex_bytes(h).take(n)) == IdScan::Read(hex_bytes(h), 36, true),
    decreases 16 - n,
{
    let g = guid_text(h);
    if n == 16 {
        assert(hex_bytes(h).take(16) =~= hex_bytes(h));
    } else {
        lemma_scan_guid(h, n + 1);
        let q = guid_pos(n);
        assert(g[q] == h[2 * n]);
        assert(g[q + 1] == h[2 * n + 1]);
        assert(hex_value(h[2 * n]) is Some);
        assert(hex_value(h[2 * n + 1]) is Some);
        assert(hex_value(0x2du8) is None);
        assert(hex_bytes(h).take(n).push(hex_bytes(h)[n]) =~= hex_bytes(h).take(n + 1));
        let acc1 = hex_bytes(h).take(n + 1);
        assert(id_scan(g, q, n, n >= 4, hex_bytes(h).take(n)) == id_scan(g, q + 2, n + 1, n >= 4, acc1));
        if n + 1 == 4 || n + 1 == 6 || n + 1 == 8 || n + 1 == 10 {
            assert(g[q + 2] == 0x2du8);
            assert(q + 3 == guid_pos(n + 1));
            assert(id_scan(g, q + 2, n + 1, n >= 4, acc1) == id_scan(g, q + 3, n + 1, true, acc1));
        } else {
            assert(q + 2 == guid_pos(n + 1));
        }
    }
}

/// Law: 32 hexadecimal digits, in either case, spell the id whose bytes
/// are their pairs, high digit first; the GUID form with dashes before
/// digits 8, 12, 16 and 20 spells the same id.
pub proof fn law_id128_forms(h: Seq<u8>)
    requires
        hex_digits32(h),
    ensures
        id128_of(h) == Some(hex_bytes(h)),
        id128_of(guid_text(h)) == Some(hex_bytes(h)),
{
    lemma_scan_plain(h, 0);
    assert(hex_bytes(h).take(0) =~= Seq::<u8>::empty());
    lemma_scan_guid(h, 0);
}

} // verus!
