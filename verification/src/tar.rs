//! POSIX ustar archives as the Docker Engine archive endpoints exchange
//! them: regular files and directories, long paths split into `prefix` and
//! `name`, built and read in memory.

use vstd::prelude::*;
use vstd::string::*;
use vstd::utf8::*;
use crate::copy::{CopyFromContainerError, CopyToContainerError};
use crate::docker_api::DOCKER_RESPONSE_BODY_LIMIT;
use crate::error::{io_error_invalid_data, io_error_kind};
use crate::text::push_decimal;

verus! {

broadcast use vstd::string::group_string_axioms;

/// Size of a tar block.
pub const BLOCK_SIZE: usize = 512;

pub const NAME_OFF: usize = 0;
pub const NAME_LEN: usize = 100;
pub const MODE_OFF: usize = 100;
pub const UID_OFF: usize = 108;
pub const GID_OFF: usize = 116;
pub const SIZE_OFF: usize = 124;
pub const SIZE_LEN: usize = 12;
pub const MTIME_OFF: usize = 136;
pub const CHKSUM_OFF: usize = 148;
pub const CHKSUM_LEN: usize = 8;
pub const TYPEFLAG_OFF: usize = 156;
pub const MAGIC_OFF: usize = 257;
pub const VERSION_OFF: usize = 263;
pub const PREFIX_OFF: usize = 345;
pub const PREFIX_LEN: usize = 155;

/// Longest `name` field content (one byte stays for the NUL).
pub const NAME_MAX: usize = 99;

/// Type flag of a regular file (a NUL flag means the same when reading).
pub const TYPEFLAG_REGULAR: u8 = 48;
/// Type flag of a directory.
pub const TYPEFLAG_DIRECTORY: u8 = 53;

/// Largest value of a seven-digit octal field (uid, gid).
pub const OCTAL_7DIGIT_MAX: u64 = 0o7777777;
/// Largest value of an eleven-digit octal field (size).
pub const OCTAL_11DIGIT_MAX: u64 = 0o77777777777;

// ---------------------------------------------------------------------
// The byte layout of a header
// ---------------------------------------------------------------------

/// `n` zero bytes.
pub open spec fn zeros(n: nat) -> Seq<u8> {
    Seq::new(n, |_i: int| 0u8)
}

/// `n` space bytes.
pub open spec fn spaces(n: nat) -> Seq<u8> {
    Seq::new(n, |_i: int| 32u8)
}

/// The `n` lowest octal digits of `v` as ASCII, most significant first.
pub open spec fn octal_digits(v: nat, n: nat) -> Seq<u8>
    decreases n,
{
    if n == 0 {
        Seq::empty()
    } else {
        octal_digits(v / 8, (n - 1) as nat).push((48 + v % 8) as u8)
    }
}

pub proof fn lemma_octal_digits_len(v: nat, n: nat)
    ensures
        octal_digits(v, n).len() == n,
    decreases n,
{
    if n > 0 {
        lemma_octal_digits_len(v / 8, (n - 1) as nat);
    }
}

/// A numeric field: `n` octal digits and a NUL.
pub open spec fn octal_field(v: nat, n: nat) -> Seq<u8> {
    octal_digits(v, n).push(0u8)
}

/// `8^n`.
pub open spec fn pow8(n: nat) -> nat
    decreases n,
{
    if n == 0 {
        1
    } else {
        8 * pow8((n - 1) as nat)
    }
}

/// The bytes `"ustar\0"`.
pub open spec fn ustar_magic() -> Seq<u8> {
    seq![117u8, 115u8, 116u8, 97u8, 114u8, 0u8]
}

/// A header before its checksum is known: the checksum field holds eight
/// spaces, as the checksum is computed over it.
pub open spec fn header_base(
    name: Seq<u8>,
    prefix: Seq<u8>,
    typeflag: u8,
    size: nat,
    mode: nat,
    uid: nat,
    gid: nat,
) -> Seq<u8> {
    name + zeros((100 - name.len()) as nat) + octal_field(mode % 4096, 7) + octal_field(uid, 7)
        + octal_field(gid, 7) + octal_field(size, 11) + octal_field(0, 11) + spaces(8) + seq![
        typeflag,
    ] + zeros(100) + ustar_magic() + seq![48u8, 48u8] + zeros(80) + prefix + zeros(
        (155 - prefix.len()) as nat,
    ) + zeros(12)
}

/// The sum of the bytes of `s`.
pub open spec fn byte_sum(s: Seq<u8>) -> nat
    decreases s.len(),
{
    if s.len() == 0 {
        0
    } else {
        byte_sum(s.drop_last()) + s.last() as nat
    }
}

/// `h` with its checksum field replaced by `field`.
pub open spec fn with_chksum_field(h: Seq<u8>, field: Seq<u8>) -> Seq<u8> {
    h.subrange(0, 148) + field + h.subrange(156, h.len() as int)
}

/// A complete header block: the base with its checksum written as six octal
/// digits, a NUL and a space.
pub open spec fn header_block(
    name: Seq<u8>,
    prefix: Seq<u8>,
    typeflag: u8,
    size: nat,
    mode: nat,
    uid: nat,
    gid: nat,
) -> Seq<u8> {
    let base = header_base(name, prefix, typeflag, size, mode, uid, gid);
    with_chksum_field(base, octal_digits(byte_sum(base), 6) + seq![0u8, 32u8])
}

// ---------------------------------------------------------------------
// Writing numeric fields
// ---------------------------------------------------------------------

/// Appends the `digits` lowest octal digits of `value`, then a NUL.
pub fn write_octal(out: &mut Vec<u8>, value: u64, digits: usize)
    ensures
        final(out)@ == old(out)@ + octal_field(value as nat, digits as nat),
{
    push_octal_digits(out, value, digits);
    out.push(0u8);
}

fn push_octal_digits(out: &mut Vec<u8>, value: u64, digits: usize)
    ensures
        final(out)@ == old(out)@ + octal_digits(value as nat, digits as nat),
    decreases digits,
{
    if digits == 0 {
        assert(final(out)@ =~= old(out)@ + octal_digits(value as nat, digits as nat));
        return;
    }
    push_octal_digits(out, value / 8, digits - 1);
    let d: u8 = (value % 8) as u8;
    out.push(48u8 + d);
    proof {
        assert(final(out)@ =~= old(out)@ + octal_digits(value as nat, digits as nat));
    }
}

fn overwrite_chksum_field(header: &mut Vec<u8>, field: &[u8])
    requires
        old(header)@.len() == 512,
        field@.len() == 8,
    ensures
        final(header)@ == with_chksum_field(old(header)@, field@),
{
    let ghost start = header@;
    let mut i: usize = 0;
    while i < 8
        invariant
            header@.len() == 512,
            start.len() == 512,
            field@.len() == 8,
            i <= 8,
            forall|k: int| 0 <= k < 148 || 156 <= k < 512 ==> header@[k] == start[k],
            forall|k: int| 0 <= k < i ==> header@[148 + k] == field@[k],
        decreases 8 - i,
    {
        header.set(148 + i, field[i]);
        i += 1;
    }
    proof {
        assert(header@ =~= with_chksum_field(start, field@));
    }
}

/// Overwrites the checksum field of the 512-byte `header` with `sum` as six
/// octal digits, a NUL and a space.
pub fn write_chksum(header: &mut Vec<u8>, sum: u32)
    requires
        old(header)@.len() == 512,
    ensures
        final(header)@ == with_chksum_field(
            old(header)@,
            octal_digits(sum as nat, 6) + seq![0u8, 32u8],
        ),
{
    let mut field: Vec<u8> = Vec::new();
    push_octal_digits(&mut field, sum as u64, 6);
    field.push(0u8);
    field.push(32u8);
    proof {
        lemma_octal_digits_len(sum as nat, 6);
    }
    overwrite_chksum_field(header, field.as_slice());
}

/// The sum of all bytes of `bytes`.
fn sum_bytes(bytes: &[u8]) -> (r: u32)
    requires
        bytes@.len() <= 512,
    ensures
        r as nat == byte_sum(bytes@),
{
    let mut sum: u32 = 0;
    let mut i: usize = 0;
    while i < bytes.len()
        invariant
            i <= bytes@.len(),
            bytes@.len() <= 512,
            sum as nat == byte_sum(bytes@.take(i as int)),
            sum <= 255 * i,
        decreases bytes@.len() - i,
    {
        proof {
            assert(bytes@.take(i + 1).drop_last() =~= bytes@.take(i as int));
        }
        sum = sum + bytes[i] as u32;
        i += 1;
    }
    assert(bytes@.take(i as int) =~= bytes@);
    sum
}

// ---------------------------------------------------------------------
// Reading numeric fields
// ---------------------------------------------------------------------

/// Index of the first NUL or space of `f` at or after `i`, or `f.len()`.
pub open spec fn stop_from(f: Seq<u8>, i: nat) -> nat
    decreases f.len() - i,
{
    if i >= f.len() {
        f.len()
    } else if f[i as int] == 0 || f[i as int] == 32 {
        i
    } else {
        stop_from(f, i + 1)
    }
}

/// The digits of a numeric field: everything before its first NUL or space.
pub open spec fn octal_run(f: Seq<u8>) -> Seq<u8> {
    f.take(stop_from(f, 0) as int)
}

/// Are all bytes ASCII octal digits?
pub open spec fn all_octal(s: Seq<u8>) -> bool {
    forall|k: int| 0 <= k < s.len() ==> 48 <= #[trigger] s[k] <= 55
}

/// The value of a run of octal digits, most significant first.
pub open spec fn octal_value(s: Seq<u8>) -> nat
    decreases s.len(),
{
    if s.len() == 0 {
        0
    } else {
        octal_value(s.drop_last()) * 8 + (s.last() - 48) as nat
    }
}

/// A numeric field read as octal, if its digits are octal and their value
/// does not exceed `max`.
pub open spec fn octal_parse(f: Seq<u8>, max: nat) -> Option<nat> {
    let run = octal_run(f);
    if all_octal(run) && octal_value(run) <= max {
        Some(octal_value(run))
    } else {
        None
    }
}

proof fn lemma_stop_from_skip(f: Seq<u8>, i: nat)
    requires
        i <= f.len(),
        forall|k: int| 0 <= k < i ==> f[k] != 0 && f[k] != 32,
    ensures
        stop_from(f, 0) == stop_from(f, i),
    decreases i,
{
    if i > 0 {
        lemma_stop_from_skip(f, (i - 1) as nat);
    }
}

proof fn lemma_stop_from_bounds(f: Seq<u8>, i: nat)
    requires
        i <= f.len(),
    ensures
        i <= stop_from(f, i) <= f.len(),
    decreases f.len() - i,
{
    if i < f.len() && !(f[i as int] == 0 || f[i as int] == 32) {
        lemma_stop_from_bounds(f, i + 1);
    }
}

proof fn lemma_octal_value_monotone(s: Seq<u8>, j: nat)
    requires
        j <= s.len(),
        all_octal(s),
    ensures
        octal_value(s.take(j as int)) <= octal_value(s),
    decreases s.len() - j,
{
    if j < s.len() {
        lemma_octal_value_monotone(s, j + 1);
        assert(s.take(j as int + 1).drop_last() =~= s.take(j as int));
        assert(s.take(j as int + 1).last() == s[j as int]);
    } else {
        assert(s.take(j as int) =~= s);
    }
}

/// Reads the octal value of a numeric field, which ends at its first NUL or
/// space. Fails on a non-octal digit or a value beyond `u64`.
pub fn parse_octal(field: &[u8]) -> (r: Result<u64, CopyFromContainerError>)
    ensures
        match octal_parse(field@, u64::MAX as nat) {
            Some(v) => r == Ok::<u64, CopyFromContainerError>(v as u64),
            None => r matches Err(CopyFromContainerError::Io(e)) && io_error_kind(e) == "InvalidData"@,
        },
{
    let mut value: u64 = 0;
    let mut i: usize = 0;
    proof {
        lemma_stop_from_bounds(field@, 0);
    }
    while i < field.len()
        invariant
            i <= field@.len(),
            forall|k: int| 0 <= k < i ==> field@[k] != 0 && field@[k] != 32,
            all_octal(field@.take(i as int)),
            value as nat == octal_value(field@.take(i as int)),
        decreases field@.len() - i,
    {
        let b: u8 = field[i];
        if b == 0 || b == 32 {
            proof {
                lemma_stop_from_skip(field@, i as nat);
                assert(octal_run(field@) =~= field@.take(i as int));
            }
            return Ok(value);
        }
        proof {
            lemma_stop_from_skip(field@, i as nat);
            lemma_stop_from_bounds(field@, i as nat + 1);
            assert(field@.take(i + 1).drop_last() =~= field@.take(i as int));
            assert(octal_run(field@).take(i + 1) =~= field@.take(i + 1));
        }
        if b < 48 || b > 55 {
            proof {
                assert(octal_run(field@)[i as int] == b);
            }
            return Err(CopyFromContainerError::Io(io_error_invalid_data("invalid octal field")));
        }
        if value > (u64::MAX - 7) / 8 || value * 8 > u64::MAX - (b - 48) as u64 {
            proof {
                if all_octal(octal_run(field@)) {
                    lemma_octal_value_monotone(octal_run(field@), i as nat + 1);
                }
            }
            return Err(CopyFromContainerError::Io(io_error_invalid_data("octal field overflow")));
        }
        value = value * 8 + (b - 48) as u64;
        i += 1;
    }
    proof {
        lemma_stop_from_skip(field@, i as nat);
        assert(octal_run(field@) =~= field@.take(i as int));
    }
    Ok(value)
}

/// Reads the checksum field, as `parse_octal` does but bounded by `u32`.
pub fn parse_chksum(field: &[u8]) -> (r: Result<u32, CopyFromContainerError>)
    ensures
        match octal_parse(field@, u32::MAX as nat) {
            Some(v) => r == Ok::<u32, CopyFromContainerError>(v as u32),
            None => r matches Err(CopyFromContainerError::Io(e)) && io_error_kind(e) == "InvalidData"@,
        },
{
    let mut value: u32 = 0;
    let mut i: usize = 0;
    proof {
        lemma_stop_from_bounds(field@, 0);
    }
    while i < field.len()
        invariant
            i <= field@.len(),
            forall|k: int| 0 <= k < i ==> field@[k] != 0 && field@[k] != 32,
            all_octal(field@.take(i as int)),
            value as nat == octal_value(field@.take(i as int)),
        decreases field@.len() - i,
    {
        let b: u8 = field[i];
        if b == 0 || b == 32 {
            proof {
                lemma_stop_from_skip(field@, i as nat);
                assert(octal_run(field@) =~= field@.take(i as int));
            }
            return Ok(value);
        }
        proof {
            lemma_stop_from_skip(field@, i as nat);
            lemma_stop_from_bounds(field@, i as nat + 1);
            assert(field@.take(i + 1).drop_last() =~= field@.take(i as int));
            assert(octal_run(field@).take(i + 1) =~= field@.take(i + 1));
        }
        if b < 48 || b > 55 {
            proof {
                assert(octal_run(field@)[i as int] == b);
            }
            return Err(
                CopyFromContainerError::Io(io_error_invalid_data("invalid checksum field")),
            );
        }
        if value > (u32::MAX - 7) / 8 || value * 8 > u32::MAX - (b - 48) as u32 {
            proof {
                if all_octal(octal_run(field@)) {
                    lemma_octal_value_monotone(octal_run(field@), i as nat + 1);
                }
            }
            return Err(
                CopyFromContainerError::Io(io_error_invalid_data("checksum field overflow")),
            );
        }
        value = value * 8 + (b - 48) as u32;
        i += 1;
    }
    proof {
        lemma_stop_from_skip(field@, i as nat);
        assert(octal_run(field@) =~= field@.take(i as int));
    }
    Ok(value)
}

// ---------------------------------------------------------------------
// Splitting a path into `prefix` and `name`
// ---------------------------------------------------------------------

/// Where a split point may lie: not at a directory's trailing slash.
pub open spec fn split_search_end(b: Seq<u8>) -> int {
    if b.len() > 0 && b.last() == 47 {
        b.len() - 1
    } else {
        b.len() as int
    }
}

/// A slash at `i` may separate `prefix` (before it) from `name` (after
/// it): both parts are non-empty and fit their fields.
pub open spec fn valid_split(b: Seq<u8>, i: int) -> bool {
    &&& 0 <= i < split_search_end(b)
    &&& b[i] == 47
    &&& 1 <= b.len() - (i + 1) <= NAME_MAX
    &&& 1 <= i <= PREFIX_LEN
}

/// `i` is the split point that leaves the longest name.
pub open spec fn first_split(b: Seq<u8>, i: int) -> bool {
    valid_split(b, i) && forall|j: int| 0 <= j < i ==> !valid_split(b, j)
}

/// The `(name, prefix)` a path is stored under: a path of at most
/// `NAME_MAX` bytes is the name alone; a longer one is split at the slash
/// that leaves the longest name. Empty paths, paths with a NUL and paths
/// that cannot be split have none.
pub open spec fn ustar_split(b: Seq<u8>) -> Option<(Seq<u8>, Seq<u8>)> {
    if b.len() == 0 || b.contains(0u8) {
        None
    } else if b.len() <= NAME_MAX {
        Some((b, Seq::empty()))
    } else if exists|i: int| first_split(b, i) {
        let i = choose|i: int| first_split(b, i);
        Some((b.subrange(i + 1, b.len() as int), b.subrange(0, i)))
    } else {
        None
    }
}

proof fn lemma_first_split_unique(b: Seq<u8>, i: int, k: int)
    requires
        first_split(b, i),
        first_split(b, k),
    ensures
        i == k,
{
    if i < k {
        assert(!valid_split(b, i));
    } else if k < i {
        assert(!valid_split(b, k));
    }
}

proof fn lemma_ascii_is_boundary(b: Seq<u8>, i: int)
    requires
        valid_utf8(b),
        0 <= i < b.len(),
        b[i] < 128,
    ensures
        is_char_boundary(b, i),
{
    is_char_boundary_iff_not_is_continuation_byte(b, i);
}

proof fn lemma_after_ascii_is_boundary(b: Seq<u8>)
    requires
        valid_utf8(b),
        b.len() >= 1,
        b[0] < 128,
    ensures
        is_char_boundary(b, 1),
{
    reveal_with_fuel(is_char_boundary, 2);
}

fn is_split_point(bytes: &[u8], i: usize, search_end: usize) -> (r: bool)
    requires
        i < search_end,
        search_end == split_search_end(bytes@),
    ensures
        r == valid_split(bytes@, i as int),
{
    let len: usize = bytes.len();
    bytes[i] == 47 && 1 <= len - (i + 1) && len - (i + 1) <= NAME_MAX && 1 <= i && i <= PREFIX_LEN
}

/// Splits a relative path into the `name` and `prefix` fields of a ustar
/// header.
pub fn split_ustar_path(path: &str) -> (r: Result<(String, String), CopyToContainerError>)
    ensures
        match ustar_split(path.spec_bytes()) {
            Some((n, p)) => r matches Ok((name, prefix)) && encode_utf8(name@) == n
                && encode_utf8(prefix@) == p,
            None => r matches Err(CopyToContainerError::PathNameError(_)),
        },
{
    let bytes = path.as_bytes();
    let ghost b = bytes@;
    proof {
        encode_utf8_valid_utf8(path@);
    }
    if bytes.len() == 0 {
        return Err(CopyToContainerError::PathNameError(
            String::from_str("tar entry path must not be empty"),
        ));
    }
    let mut k: usize = 0;
    while k < bytes.len()
        invariant
            k <= b.len(),
            b == bytes@,
            b == path.spec_bytes(),
            forall|j: int| 0 <= j < k ==> b[j] != 0,
        decreases b.len() - k,
    {
        if bytes[k] == 0 {
            proof {
                assert(b.contains(0u8)) by {
                    assert(b[k as int] == 0u8);
                }
            }
            assert(b == path.spec_bytes());
            assert(b.contains(0u8));
            assert(ustar_split(path.spec_bytes()) is None);
            return Err(CopyToContainerError::PathNameError(
                String::from_str("tar entry path must not contain NUL"),
            ));
        }
        k += 1;
    }
    assert(!b.contains(0u8));
    if bytes.len() <= NAME_MAX {
        let name = String::from_str(path);
        let prefix = String::new();
        proof {
            assert(encode_utf8(prefix@) =~= Seq::<u8>::empty()) by {
                assert(prefix@ =~= Seq::<char>::empty());
            }
        }
        return Ok((name, prefix));
    }
    let len: usize = bytes.len();
    let search_end: usize = if bytes[len - 1] == 47 {
        len - 1
    } else {
        len
    };
    if search_end == 0 {
        return Err(CopyToContainerError::PathNameError(
            String::from_str("tar entry path must not be empty"),
        ));
    }
    let mut i: usize = 0;
    while i < search_end && !is_split_point(bytes, i, search_end)
        invariant
            b == bytes@,
            b == path.spec_bytes(),
            len == b.len(),
            search_end == split_search_end(b),
            i <= search_end,
            forall|j: int| 0 <= j < i ==> !valid_split(b, j),
        decreases search_end - i,
    {
        i += 1;
    }
    let found: Option<usize> = if i < search_end {
        Some(i)
    } else {
        None
    };
    match found {
        None => {
            proof {
                assert forall|j: int| !first_split(b, j) by {
                    if 0 <= j < split_search_end(b) {
                        assert(!valid_split(b, j));
                    }
                }
            }
            let mut msg = String::from_str("tar entry path too long to fit ustar name/prefix: ");
            push_decimal(&mut msg, len as u128);
            msg.append(" bytes");
            Err(CopyToContainerError::PathNameError(msg))
        },
        Some(p) => {
            proof {
                assert(first_split(b, p as int));
                let c = choose|c: int| first_split(b, c);
                lemma_first_split_unique(b, p as int, c);
                lemma_ascii_is_boundary(b, p as int);
            }
            let (pre, rest) = path.split_at(p);
            proof {
                assert(rest.spec_bytes()[0] == 47u8);
                encode_utf8_valid_utf8(rest@);
                lemma_after_ascii_is_boundary(rest.spec_bytes());
            }
            let (_slash, nm) = rest.split_at(1);
            let name = String::from_str(nm);
            let prefix = String::from_str(pre);
            proof {
                assert(encode_utf8(name@) =~= b.subrange(p + 1, b.len() as int));
                assert(encode_utf8(prefix@) =~= b.subrange(0, p as int));
            }
            Ok((name, prefix))
        },
    }
}

// ---------------------------------------------------------------------
// Writing a header
// ---------------------------------------------------------------------

fn push_bytes(out: &mut Vec<u8>, bytes: &[u8])
    ensures
        final(out)@ == old(out)@ + bytes@,
{
    let ghost start = out@;
    let mut i: usize = 0;
    while i < bytes.len()
        invariant
            i <= bytes@.len(),
            out@ == start + bytes@.take(i as int),
        decreases bytes@.len() - i,
    {
        out.push(bytes[i]);
        i += 1;
        proof {
            assert(out@ =~= start + bytes@.take(i as int));
        }
    }
    assert(bytes@.take(i as int) =~= bytes@);
}

fn push_fill(out: &mut Vec<u8>, byte: u8, n: usize)
    ensures
        final(out)@ == old(out)@ + Seq::new(n as nat, |_i: int| byte),
{
    let ghost start = out@;
    let mut i: usize = 0;
    while i < n
        invariant
            i <= n,
            out@ == start + Seq::new(i as nat, |_i: int| byte),
        decreases n - i,
    {
        out.push(byte);
        i += 1;
        proof {
            assert(out@ =~= start + Seq::new(i as nat, |_i: int| byte));
        }
    }
}

pub proof fn lemma_ustar_split_bounds(b: Seq<u8>)
    ensures
        ustar_split(b) matches Some((n, p)) ==> 1 <= n.len() <= NAME_MAX && p.len()
            <= PREFIX_LEN,
{
    if !(b.len() == 0 || b.contains(0u8)) && b.len() > NAME_MAX {
        if exists|i: int| first_split(b, i) {
            let i = choose|i: int| first_split(b, i);
            assert(b.subrange(i + 1, b.len() as int).len() == b.len() - (i + 1));
        }
    }
}

proof fn lemma_octal_field_len(v: nat, n: nat)
    ensures
        octal_field(v, n).len() == n + 1,
{
    lemma_octal_digits_len(v, n);
}

pub proof fn lemma_header_base_len(
    name: Seq<u8>,
    prefix: Seq<u8>,
    typeflag: u8,
    size: nat,
    mode: nat,
    uid: nat,
    gid: nat,
)
    requires
        name.len() <= 100,
        prefix.len() <= 155,
    ensures
        header_base(name, prefix, typeflag, size, mode, uid, gid).len() == 512,
{
    lemma_octal_field_len(mode % 4096, 7);
    lemma_octal_field_len(uid, 7);
    lemma_octal_field_len(gid, 7);
    lemma_octal_field_len(size, 11);
    lemma_octal_field_len(0, 11);
}

/// Appends one header block for `relative_path` to `out`. Fails, leaving
/// `out` as it was, when the uid, gid or size does not fit its field or
/// the path has no ustar form.
pub fn append_header(
    out: &mut Vec<u8>,
    relative_path: &str,
    typeflag: u8,
    size: u64,
    mode: u32,
    uid: u32,
    gid: u32,
) -> (r: Result<(), CopyToContainerError>)
    ensures
        uid > OCTAL_7DIGIT_MAX || gid > OCTAL_7DIGIT_MAX || size > OCTAL_11DIGIT_MAX ==> (r matches Err(
            CopyToContainerError::IoError(e),
        ) && io_error_kind(e) == "InvalidData"@ && final(out)@ == old(out)@),
        !(uid > OCTAL_7DIGIT_MAX || gid > OCTAL_7DIGIT_MAX || size > OCTAL_11DIGIT_MAX) ==> match ustar_split(
            relative_path.spec_bytes(),
        ) {
            None => r matches Err(CopyToContainerError::PathNameError(_)) && final(out)@ == old(
                out,
            )@,
            Some((n, p)) => r is Ok && final(out)@ == old(out)@ + header_block(
                n,
                p,
                typeflag,
                size as nat,
                mode as nat,
                uid as nat,
                gid as nat,
            ),
        },
{
    if uid as u64 > OCTAL_7DIGIT_MAX {
        let mut msg = String::from_str("uid ");
        push_decimal(&mut msg, uid as u128);
        msg.append(" exceeds ustar 7-octal-digit limit (2097151)");
        return Err(CopyToContainerError::IoError(io_error_invalid_data(msg.as_str())));
    }
    if gid as u64 > OCTAL_7DIGIT_MAX {
        let mut msg = String::from_str("gid ");
        push_decimal(&mut msg, gid as u128);
        msg.append(" exceeds ustar 7-octal-digit limit (2097151)");
        return Err(CopyToContainerError::IoError(io_error_invalid_data(msg.as_str())));
    }
    if size > OCTAL_11DIGIT_MAX {
        let mut msg = String::from_str("data size ");
        push_decimal(&mut msg, size as u128);
        msg.append(" exceeds ustar 11-octal-digit limit (8589934591)");
        return Err(CopyToContainerError::IoError(io_error_invalid_data(msg.as_str())));
    }
    let (name, prefix) = match split_ustar_path(relative_path) {
        Ok(parts) => parts,
        Err(e) => {
            return Err(e);
        },
    };
    let name_bytes = name.as_str().as_bytes();
    let prefix_bytes = prefix.as_str().as_bytes();
    proof {
        lemma_ustar_split_bounds(relative_path.spec_bytes());
    }
    let masked: u32 = mode & 0o7777;
    assert(masked == mode % 4096) by (bit_vector)
        requires
            masked == mode & 0o7777,
    ;
    let mut header: Vec<u8> = Vec::new();
    push_bytes(&mut header, name_bytes);
    push_fill(&mut header, 0u8, NAME_LEN - name_bytes.len());
    write_octal(&mut header, masked as u64, 7);
    write_octal(&mut header, uid as u64, 7);
    write_octal(&mut header, gid as u64, 7);
    write_octal(&mut header, size, 11);
    write_octal(&mut header, 0, 11);
    push_fill(&mut header, 32u8, CHKSUM_LEN);
    header.push(typeflag);
    push_fill(&mut header, 0u8, 100);
    header.push(117u8);
    header.push(115u8);
    header.push(116u8);
    header.push(97u8);
    header.push(114u8);
    header.push(0u8);
    header.push(48u8);
    header.push(48u8);
    push_fill(&mut header, 0u8, 80);
    push_bytes(&mut header, prefix_bytes);
    push_fill(&mut header, 0u8, PREFIX_LEN - prefix_bytes.len());
    push_fill(&mut header, 0u8, 12);
    let ghost base = header_base(
        name_bytes@,
        prefix_bytes@,
        typeflag,
        size as nat,
        mode as nat,
        uid as nat,
        gid as nat,
    );
    proof {
        assert(header@ =~= base);
        lemma_header_base_len(
            name_bytes@,
            prefix_bytes@,
            typeflag,
            size as nat,
            mode as nat,
            uid as nat,
            gid as nat,
        );
    }
    let sum: u32 = sum_bytes(header.as_slice());
    write_chksum(&mut header, sum);
    push_bytes(out, header.as_slice());
    Ok(())
}

// ---------------------------------------------------------------------
// Building an archive
// ---------------------------------------------------------------------

/// Zero bytes that pad `n` data bytes to a whole number of blocks.
pub open spec fn block_pad(n: nat) -> nat {
    ((512 - n % 512) % 512) as nat
}

/// Does the path end with a slash?
pub open spec fn ends_with_slash(path: Seq<u8>) -> bool {
    path.len() > 0 && path.last() == 47
}

/// The entry for a regular file: header, data, zero padding.
pub open spec fn file_entry(
    name: Seq<u8>,
    prefix: Seq<u8>,
    data: Seq<u8>,
    mode: nat,
    uid: nat,
    gid: nat,
) -> Seq<u8> {
    header_block(name, prefix, TYPEFLAG_REGULAR, data.len(), mode, uid, gid) + data + zeros(
        block_pad(data.len()),
    )
}

/// Is the header of an entry for `path` with `size` data bytes writable:
/// do the ids and the size fit their fields and does the path split?
pub open spec fn header_writable(path: Seq<u8>, size: nat, uid: nat, gid: nat) -> bool {
    uid <= OCTAL_7DIGIT_MAX && gid <= OCTAL_7DIGIT_MAX && size <= OCTAL_11DIGIT_MAX
        && ustar_split(path) is Some
}

/// Is a regular file with `data_len` bytes accepted into an archive of
/// `buf_len` bytes?
pub open spec fn file_accepted(buf_len: nat, path: Seq<u8>, data_len: nat, uid: nat, gid: nat) -> bool {
    &&& !ends_with_slash(path)
    &&& buf_len + BLOCK_SIZE + data_len + block_pad(data_len) <= DOCKER_RESPONSE_BODY_LIMIT
    &&& header_writable(path, data_len, uid, gid)
}

/// Builds a ustar archive in memory, one entry after another. The archive,
/// trailer included, may not grow beyond `DOCKER_RESPONSE_BODY_LIMIT`.
pub struct UstarBuilder {
    buf: Vec<u8>,
}

impl View for UstarBuilder {
    type V = Seq<u8>;

    /// The bytes written so far.
    closed spec fn view(&self) -> Seq<u8> {
        self.buf@
    }
}

impl UstarBuilder {
    /// An empty archive.
    pub fn new() -> (r: UstarBuilder)
        ensures
            r@ == Seq::<u8>::empty(),
    {
        let r = UstarBuilder { buf: Vec::new() };
        assert(r@ =~= Seq::<u8>::empty());
        r
    }

    /// Fails with `SizeLimitExceeded`, naming `name`, once the archive is
    /// over the limit.
    fn check_limit(&self, name: &str) -> (r: Result<(), CopyToContainerError>)
        ensures
            self@.len() <= DOCKER_RESPONSE_BODY_LIMIT ==> r is Ok,
            self@.len() > DOCKER_RESPONSE_BODY_LIMIT ==> (r matches Err(
                CopyToContainerError::SizeLimitExceeded { limit, name: n },
            ) && limit == DOCKER_RESPONSE_BODY_LIMIT && n@ == name@),
    {
        if self.buf.len() > DOCKER_RESPONSE_BODY_LIMIT {
            return Err(CopyToContainerError::SizeLimitExceeded {
                limit: DOCKER_RESPONSE_BODY_LIMIT,
                name: String::from_str(name),
            });
        }
        Ok(())
    }

    /// Appends a directory entry; the path must end with a slash. The
    /// header stays written when it takes the archive over the limit.
    pub fn append_directory(
        &mut self,
        relative_path_with_trailing_slash: &str,
        mode: u32,
        uid: u32,
        gid: u32,
    ) -> (r: Result<(), CopyToContainerError>)
        ensures
            ({
                let path = relative_path_with_trailing_slash.spec_bytes();
                if !ends_with_slash(path) {
                    r matches Err(CopyToContainerError::PathNameError(_)) && final(self)@ == old(
                        self,
                    )@
                } else if uid > OCTAL_7DIGIT_MAX || gid > OCTAL_7DIGIT_MAX {
                    r matches Err(CopyToContainerError::IoError(e)) && io_error_kind(e) == "InvalidData"@ && final(self)@ == old(self)@
                } else {
                    match ustar_split(path) {
                        None => r matches Err(CopyToContainerError::PathNameError(_))
                            && final(self)@ == old(self)@,
                        Some((n, p)) => {
                            &&& final(self)@ == old(self)@ + header_block(
                                n,
                                p,
                                TYPEFLAG_DIRECTORY,
                                0,
                                mode as nat,
                                uid as nat,
                                gid as nat,
                            )
                            &&& final(self)@.len() <= DOCKER_RESPONSE_BODY_LIMIT ==> r is Ok
                            &&& final(self)@.len() > DOCKER_RESPONSE_BODY_LIMIT ==> (r matches Err(
                                CopyToContainerError::SizeLimitExceeded { limit, name },
                            ) && limit == DOCKER_RESPONSE_BODY_LIMIT && name@
                                == relative_path_with_trailing_slash@)
                        },
                    }
                }
            }),
    {
        let bytes = relative_path_with_trailing_slash.as_bytes();
        if !(bytes.len() > 0 && bytes[bytes.len() - 1] == 47) {
            return Err(CopyToContainerError::PathNameError(
                String::from_str("directory tar entry path must end with a slash"),
            ));
        }
        match append_header(
            &mut self.buf,
            relative_path_with_trailing_slash,
            TYPEFLAG_DIRECTORY,
            0,
            mode,
            uid,
            gid,
        ) {
            Ok(()) => {},
            Err(e) => {
                return Err(e);
            },
        }
        self.check_limit(relative_path_with_trailing_slash)
    }

    /// Appends a regular file: header, data and padding to a whole block.
    /// Refused, with the archive unchanged, when the path ends with a slash,
    /// when the archive would outgrow the limit, or when the header cannot
    /// be written.
    pub fn append_file(&mut self, relative_path: &str, data: &[u8], mode: u32, uid: u32, gid: u32) -> (r:
        Result<(), CopyToContainerError>)
        ensures
            ({
                let path = relative_path.spec_bytes();
                let projected = old(self)@.len() + BLOCK_SIZE + data@.len() + block_pad(
                    data@.len(),
                );
                if ends_with_slash(path) {
                    r matches Err(CopyToContainerError::PathNameError(_)) && final(self)@ == old(
                        self,
                    )@
                } else if projected > usize::MAX {
                    r matches Err(CopyToContainerError::IoError(e)) && io_error_kind(e) == "InvalidData"@ && final(self)@ == old(self)@
                } else if projected > DOCKER_RESPONSE_BODY_LIMIT {
                    r matches Err(CopyToContainerError::SizeLimitExceeded { limit, name })
                        && limit == DOCKER_RESPONSE_BODY_LIMIT && name@ == relative_path@
                        && final(self)@ == old(self)@
                } else if uid > OCTAL_7DIGIT_MAX || gid > OCTAL_7DIGIT_MAX || data@.len()
                    > OCTAL_11DIGIT_MAX {
                    r matches Err(CopyToContainerError::IoError(e)) && io_error_kind(e) == "InvalidData"@ && final(self)@ == old(self)@
                } else {
                    match ustar_split(path) {
                        None => r matches Err(CopyToContainerError::PathNameError(_))
                            && final(self)@ == old(self)@,
                        Some((n, p)) => r is Ok && final(self)@ == old(self)@ + file_entry(
                            n,
                            p,
                            data@,
                            mode as nat,
                            uid as nat,
                            gid as nat,
                        ),
                    }
                }
            }),
    {
        let bytes = relative_path.as_bytes();
        if bytes.len() > 0 && bytes[bytes.len() - 1] == 47 {
            return Err(CopyToContainerError::PathNameError(
                String::from_str("file tar entry path must not end with a slash"),
            ));
        }
        let pad: usize = (BLOCK_SIZE - (data.len() % BLOCK_SIZE)) % BLOCK_SIZE;
        let len: usize = self.buf.len();
        if len > usize::MAX - BLOCK_SIZE || len + BLOCK_SIZE > usize::MAX - data.len() || len
            + BLOCK_SIZE + data.len() > usize::MAX - pad {
            return Err(CopyToContainerError::IoError(io_error_invalid_data("tar size overflow")));
        }
        let projected: usize = len + BLOCK_SIZE + data.len() + pad;
        if projected > DOCKER_RESPONSE_BODY_LIMIT {
            return Err(CopyToContainerError::SizeLimitExceeded {
                limit: DOCKER_RESPONSE_BODY_LIMIT,
                name: String::from_str(relative_path),
            });
        }
        match append_header(
            &mut self.buf,
            relative_path,
            TYPEFLAG_REGULAR,
            data.len() as u64,
            mode,
            uid,
            gid,
        ) {
            Ok(()) => {},
            Err(e) => {
                return Err(e);
            },
        }
        push_bytes(&mut self.buf, data);
        push_fill(&mut self.buf, 0u8, pad);
        proof {
            let (n, p) = ustar_split(relative_path.spec_bytes())->0;
            assert(self@ =~= old(self)@ + file_entry(
                n,
                p,
                data@,
                mode as nat,
                uid as nat,
                gid as nat,
            ));
        }
        Ok(())
    }

    /// Ends the archive with two zero blocks and hands out its bytes;
    /// refused when the trailer takes it over the limit.
    pub fn finish(self) -> (r: Result<Vec<u8>, CopyToContainerError>)
        ensures
            self@.len() + 2 * BLOCK_SIZE <= DOCKER_RESPONSE_BODY_LIMIT ==> (r matches Ok(v) && v@
                == self@ + zeros(2 * BLOCK_SIZE as nat)),
            self@.len() + 2 * BLOCK_SIZE > DOCKER_RESPONSE_BODY_LIMIT ==> (r matches Err(
                CopyToContainerError::SizeLimitExceeded { limit, name },
            ) && limit == DOCKER_RESPONSE_BODY_LIMIT && name@ == "tar trailer"@),
    {
        let mut s = self;
        if s.buf.len() > usize::MAX - 2 * BLOCK_SIZE {
            return Err(CopyToContainerError::SizeLimitExceeded {
                limit: DOCKER_RESPONSE_BODY_LIMIT,
                name: String::from_str("tar trailer"),
            });
        }
        push_fill(&mut s.buf, 0u8, 2 * BLOCK_SIZE);
        match s.check_limit("tar trailer") {
            Ok(()) => {},
            Err(e) => {
                return Err(e);
            },
        }
        Ok(s.buf)
    }
}

/// The archive holding a single regular file, or `None` where building it
/// is refused.
pub open spec fn single_file_archive(
    path: Seq<u8>,
    data: Seq<u8>,
    mode: nat,
    uid: nat,
    gid: nat,
) -> Option<Seq<u8>> {
    if file_accepted(0, path, data.len(), uid, gid) && BLOCK_SIZE + data.len() + block_pad(
        data.len(),
    ) + 2 * BLOCK_SIZE <= DOCKER_RESPONSE_BODY_LIMIT {
        let (n, p) = ustar_split(path)->0;
        Some(file_entry(n, p, data, mode, uid, gid) + zeros(2 * BLOCK_SIZE as nat))
    } else {
        None
    }
}

/// An archive of the one regular file `name` holding `data`.
pub fn build_single_file_ustar(name: &str, data: &[u8], mode: u32, uid: u32, gid: u32) -> (r:
    Result<Vec<u8>, CopyToContainerError>)
    ensures
        match single_file_archive(name.spec_bytes(), data@, mode as nat, uid as nat, gid as nat) {
            Some(a) => r matches Ok(v) && v@ == a,
            None => r is Err,
        },
{
    let mut builder = UstarBuilder::new();
    match builder.append_file(name, data, mode, uid, gid) {
        Ok(()) => {},
        Err(e) => {
            return Err(e);
        },
    }
    proof {
        lemma_ustar_split_bounds(name.spec_bytes());
        let (n, p) = ustar_split(name.spec_bytes())->0;
        lemma_header_base_len(n, p, TYPEFLAG_REGULAR, data@.len(), mode as nat, uid as nat, gid as nat);
        lemma_octal_digits_len(
            byte_sum(header_base(n, p, TYPEFLAG_REGULAR, data@.len(), mode as nat, uid as nat, gid as nat)),
            6,
        );
    }
    builder.finish()
}

// ---------------------------------------------------------------------
// Reading an archive
// ---------------------------------------------------------------------

/// Does the body start with the gzip magic bytes?
pub open spec fn is_gzip(b: Seq<u8>) -> bool {
    b.len() >= 2 && b[0] == 0x1f && b[1] == 0x8b
}

/// Are all bytes zero?
pub open spec fn all_zero(s: Seq<u8>) -> bool {
    forall|k: int| 0 <= k < s.len() ==> s[k] == 0
}

/// What an unsupported type flag is called in the error.
pub open spec fn unsupported_entry_name(flag: u8) -> Seq<char> {
    if flag == 49 {
        "hardlink"@
    } else if flag == 50 {
        "symlink"@
    } else if flag == 51 {
        "char device"@
    } else if flag == 52 {
        "block device"@
    } else if flag == 54 {
        "fifo"@
    } else {
        "unknown typeflag"@
    }
}

/// The data of the first entry of `b`, read as a regular file whose
/// header's checksum matches and whose data is all there.
pub open spec fn entry_payload(b: Seq<u8>) -> Option<Seq<u8>> {
    let h = b.take(512);
    let stored = octal_parse(h.subrange(148, 156), u32::MAX as nat);
    let computed = byte_sum(with_chksum_field(h, spaces(8)));
    if stored != Some(computed) {
        None
    } else {
        match octal_parse(h.subrange(124, 136), u64::MAX as nat) {
            None => None,
            Some(size) => if 512 + size <= b.len() {
                Some(b.subrange(512, 512 + size as int))
            } else {
                None
            },
        }
    }
}

/// The contents of the first entry of an archive, when that entry is a
/// regular file that reads back whole.
pub open spec fn first_regular_file(b: Seq<u8>) -> Option<Seq<u8>> {
    if is_gzip(b) || b.len() < 512 || all_zero(b.take(512)) {
        None
    } else if b[156] == 0 || b[156] == TYPEFLAG_REGULAR {
        entry_payload(b)
    } else {
        None
    }
}

/// Reads the first entry of an archive and returns its contents when it is
/// a regular file. A gzip body, a directory, an empty archive and the
/// other entry types are refused, each with its own error; a short, corrupt
/// or truncated archive is an I/O error.
pub fn parse_first_regular_file_from_ustar(bytes: &[u8]) -> (r: Result<
    Vec<u8>,
    CopyFromContainerError,
>)
    ensures
        ({
            let b = bytes@;
            if is_gzip(b) {
                r matches Err(CopyFromContainerError::UnsupportedEntry(s)) && s@ == "gzip"@
            } else if b.len() < 512 {
                r matches Err(CopyFromContainerError::Io(e)) && io_error_kind(e) == "InvalidData"@
            } else if all_zero(b.take(512)) {
                r matches Err(CopyFromContainerError::EmptyArchive)
            } else if b[156] == TYPEFLAG_DIRECTORY {
                r matches Err(CopyFromContainerError::IsDirectory)
            } else if b[156] != 0 && b[156] != TYPEFLAG_REGULAR {
                r matches Err(CopyFromContainerError::UnsupportedEntry(s)) && s@
                    == unsupported_entry_name(b[156])
            } else {
                match entry_payload(b) {
                    Some(d) => r matches Ok(v) && v@ == d,
                    None => r matches Err(CopyFromContainerError::Io(e)) && io_error_kind(e) == "InvalidData"@,
                }
            }
        }),
        r is Ok <==> first_regular_file(bytes@) is Some,
        r matches Ok(v) ==> first_regular_file(bytes@) == Some(v@),
{
    if bytes.len() >= 2 && bytes[0] == 0x1f && bytes[1] == 0x8b {
        proof {
            reveal_strlit("gzip");
        }
        return Err(CopyFromContainerError::UnsupportedEntry("gzip"));
    }
    if bytes.len() < BLOCK_SIZE {
        return Err(CopyFromContainerError::Io(io_error_invalid_data("truncated tar header")));
    }
    let header = &bytes[0..BLOCK_SIZE];
    let mut k: usize = 0;
    let mut zero = true;
    while k < BLOCK_SIZE
        invariant
            header@ == bytes@.take(512),
            header@.len() == 512,
            k <= 512,
            zero == (forall|j: int| 0 <= j < k ==> header@[j] == 0),
        decreases 512 - k,
    {
        if header[k] != 0 {
            zero = false;
        }
        k += 1;
    }
    if zero {
        return Err(CopyFromContainerError::EmptyArchive);
    }
    let flag: u8 = header[TYPEFLAG_OFF];
    if flag == TYPEFLAG_DIRECTORY {
        return Err(CopyFromContainerError::IsDirectory);
    }
    if flag == 49 {
        proof {
            reveal_strlit("hardlink");
        }
        return Err(CopyFromContainerError::UnsupportedEntry("hardlink"));
    }
    if flag == 50 {
        proof {
            reveal_strlit("symlink");
        }
        return Err(CopyFromContainerError::UnsupportedEntry("symlink"));
    }
    if flag == 51 {
        proof {
            reveal_strlit("char device");
        }
        return Err(CopyFromContainerError::UnsupportedEntry("char device"));
    }
    if flag == 52 {
        proof {
            reveal_strlit("block device");
        }
        return Err(CopyFromContainerError::UnsupportedEntry("block device"));
    }
    if flag == 54 {
        proof {
            reveal_strlit("fifo");
        }
        return Err(CopyFromContainerError::UnsupportedEntry("fifo"));
    }
    if flag != 0 && flag != TYPEFLAG_REGULAR {
        proof {
            reveal_strlit("unknown typeflag");
        }
        return Err(CopyFromContainerError::UnsupportedEntry("unknown typeflag"));
    }
    let stored: u32 = match parse_chksum(&header[CHKSUM_OFF..CHKSUM_OFF + CHKSUM_LEN]) {
        Ok(v) => v,
        Err(e) => {
            return Err(e);
        },
    };
    let mut sum_header: Vec<u8> = Vec::new();
    push_bytes(&mut sum_header, header);
    let spaces8: [u8; 8] = [32u8; 8];
    proof {
        assert(spaces8@ =~= spaces(8));
    }
    overwrite_chksum_field(&mut sum_header, spaces8.as_slice());
    let computed: u32 = sum_bytes(sum_header.as_slice());
    if stored != computed {
        return Err(CopyFromContainerError::Io(io_error_invalid_data("tar header checksum mismatch")));
    }
    let size64: u64 = match parse_octal(&header[SIZE_OFF..SIZE_OFF + SIZE_LEN]) {
        Ok(v) => v,
        Err(e) => {
            return Err(e);
        },
    };
    if size64 as u128 > usize::MAX as u128 {
        return Err(CopyFromContainerError::Io(io_error_invalid_data("tar size does not fit in usize")));
    }
    let size: usize = size64 as usize;
    if size > usize::MAX - BLOCK_SIZE {
        return Err(CopyFromContainerError::Io(io_error_invalid_data("tar size overflow")));
    }
    let data_end: usize = BLOCK_SIZE + size;
    if bytes.len() < data_end {
        return Err(CopyFromContainerError::Io(io_error_invalid_data("truncated tar data")));
    }
    let mut out: Vec<u8> = Vec::new();
    push_bytes(&mut out, &bytes[BLOCK_SIZE..data_end]);
    Ok(out)
}

// ---------------------------------------------------------------------
// What is written reads back
// ---------------------------------------------------------------------

proof fn lemma_octal_digits_value(v: nat, n: nat)
    ensures
        all_octal(octal_digits(v, n)),
        octal_value(octal_digits(v, n)) == v % pow8(n),
        octal_digits(v, n).len() == n,
    decreases n,
{
    if n == 0 {
        assert(v % 1 == 0);
    } else {
        lemma_octal_digits_value(v / 8, (n - 1) as nat);
        let d = octal_digits(v, n);
        assert(d.drop_last() =~= octal_digits(v / 8, (n - 1) as nat));
        assert(pow8(n) == 8 * pow8((n - 1) as nat));
        assert(pow8((n - 1) as nat) > 0) by {
            lemma_pow8_positive((n - 1) as nat);
        }
        vstd::arithmetic::div_mod::lemma_mod_breakdown(v as int, 8, pow8((n - 1) as nat) as int);
        assert(all_octal(d)) by {
            assert forall|k: int| 0 <= k < d.len() implies 48 <= #[trigger] d[k] <= 55 by {
                if k < n - 1 {
                    assert(d[k] == octal_digits(v / 8, (n - 1) as nat)[k]);
                }
            }
        }
    }
}

proof fn lemma_pow8_positive(n: nat)
    ensures
        pow8(n) > 0,
    decreases n,
{
    if n > 0 {
        lemma_pow8_positive((n - 1) as nat);
    }
}

proof fn lemma_pow8_values()
    ensures
        pow8(6) == 262144,
        pow8(11) == 8589934592,
{
    assert(pow8(0) == 1);
    assert(pow8(1) == 8);
    assert(pow8(2) == 64);
    assert(pow8(3) == 512);
    assert(pow8(4) == 4096);
    assert(pow8(5) == 32768);
    assert(pow8(6) == 262144);
    assert(pow8(7) == 2097152);
    assert(pow8(8) == 16777216);
    assert(pow8(9) == 134217728);
    assert(pow8(10) == 1073741824);
    assert(pow8(11) == 8589934592);
}

/// A field of `n` octal digits of `v`, ended by a NUL, reads back as `v`.
proof fn lemma_octal_digits_parse(v: nat, n: nat, rest: Seq<u8>, max: nat)
    requires
        rest.len() >= 1,
        rest[0] == 0,
        v < pow8(n),
        v <= max,
    ensures
        octal_parse(octal_digits(v, n) + rest, max) == Some(v),
{
    lemma_octal_digits_value(v, n);
    let d = octal_digits(v, n);
    let f = d + rest;
    assert forall|k: int| 0 <= k < n implies f[k] != 0 && f[k] != 32 by {
        assert(f[k] == d[k]);
    }
    lemma_stop_from_skip(f, n);
    assert(f[n as int] == 0);
    assert(octal_run(f) =~= d);
    vstd::arithmetic::div_mod::lemma_small_mod(v, pow8(n));
}

proof fn lemma_byte_sum_bound(s: Seq<u8>)
    ensures
        byte_sum(s) <= 255 * s.len(),
    decreases s.len(),
{
    if s.len() > 0 {
        lemma_byte_sum_bound(s.drop_last());
    }
}

/// Where the fields of a header sit.
proof fn lemma_header_base_fields(
    name: Seq<u8>,
    prefix: Seq<u8>,
    typeflag: u8,
    size: nat,
    mode: nat,
    uid: nat,
    gid: nat,
)
    requires
        name.len() <= 100,
        prefix.len() <= 155,
    ensures
        ({
            let base = header_base(name, prefix, typeflag, size, mode, uid, gid);
            &&& base.len() == 512
            &&& forall|k: int| 0 <= k < name.len() ==> base[k] == name[k]
            &&& forall|k: int| name.len() <= k < 100 ==> base[k] == 0
            &&& base.subrange(124, 136) == octal_field(size, 11)
            &&& base.subrange(148, 156) == spaces(8)
            &&& base[156] == typeflag
            &&& base[257] == 117
        }),
{
    lemma_octal_field_len(mode % 4096, 7);
    lemma_octal_field_len(uid, 7);
    lemma_octal_field_len(gid, 7);
    lemma_octal_field_len(size, 11);
    lemma_octal_field_len(0, 11);
    let a = name + zeros((100 - name.len()) as nat);
    let b = a + octal_field(mode % 4096, 7) + octal_field(uid, 7) + octal_field(gid, 7);
    let c = b + octal_field(size, 11);
    let d = c + octal_field(0, 11) + spaces(8);
    let e = d + seq![typeflag] + zeros(100) + ustar_magic();
    let base = header_base(name, prefix, typeflag, size, mode, uid, gid);
    assert(a.len() == 100);
    assert(b.len() == 124);
    assert(c.len() == 136);
    assert(d.len() == 156);
    assert(e.len() == 263);
    assert(base =~= e + seq![48u8, 48u8] + zeros(80) + prefix + zeros((155 - prefix.len()) as nat)
        + zeros(12));
    assert(forall|k: int| 0 <= k < 263 ==> base[k] == e[k]);
    assert(forall|k: int| 0 <= k < 156 ==> e[k] == d[k]);
    assert(forall|k: int| 0 <= k < 136 ==> d[k] == c[k]);
    assert(forall|k: int| 0 <= k < 124 ==> c[k] == b[k]);
    assert(forall|k: int| 0 <= k < 100 ==> b[k] == a[k]);
    assert(base.subrange(124, 136) =~= octal_field(size, 11)) by {
        assert(c.subrange(124, 136) =~= octal_field(size, 11));
    }
    assert(base.subrange(148, 156) =~= spaces(8)) by {
        assert(d.subrange(148, 156) =~= spaces(8));
    }
    assert(e[156] == typeflag);
    assert(e[257] == 117);
}

proof fn lemma_valid_utf8_no_gzip_magic(n: Seq<u8>)
    requires
        valid_utf8(n),
        n.len() >= 2,
    ensures
        !(n[0] == 0x1f && n[1] == 0x8b),
{
    if n[0] == 0x1f {
        lemma_after_ascii_is_boundary(n);
        is_char_boundary_iff_not_is_continuation_byte(n, 1);
    }
}

/// The `name` part of a path's split.
pub open spec fn split_name(b: Seq<u8>) -> Seq<u8> {
    let (n, _p) = ustar_split(b)->0;
    n
}

/// The name a path is stored under is itself valid UTF-8.
proof fn lemma_split_name_valid(b: Seq<u8>)
    requires
        valid_utf8(b),
        ustar_split(b) is Some,
    ensures
        valid_utf8(split_name(b)),
{
    if b.len() > NAME_MAX {
        let i = choose|i: int| first_split(b, i);
        lemma_ascii_is_boundary(b, i);
        valid_utf8_split(b, i);
        let rest = b.subrange(i, b.len() as int);
        lemma_after_ascii_is_boundary(rest);
        valid_utf8_split(rest, 1);
        assert(rest.subrange(1, rest.len() as int) =~= b.subrange(i + 1, b.len() as int));
    }
}

/// Reading back an archive built around one regular file gives that file's
/// contents: for every path, data, mode and owner that building accepts.
pub proof fn lemma_single_file_round_trip(
    path: Seq<char>,
    data: Seq<u8>,
    mode: nat,
    uid: nat,
    gid: nat,
)
    requires
        single_file_archive(encode_utf8(path), data, mode, uid, gid) is Some,
    ensures
        first_regular_file(single_file_archive(encode_utf8(path), data, mode, uid, gid)->0)
            == Some(data),
{
    let b = encode_utf8(path);
    encode_utf8_valid_utf8(path);
    lemma_ustar_split_bounds(b);
    let (n, p) = ustar_split(b)->0;
    let size = data.len();
    let base = header_base(n, p, TYPEFLAG_REGULAR, size, mode, uid, gid);
    lemma_header_base_fields(n, p, TYPEFLAG_REGULAR, size, mode, uid, gid);
    let sum = byte_sum(base);
    lemma_byte_sum_bound(base);
    lemma_pow8_values();
    lemma_octal_digits_value(sum, 6);
    let chk = octal_digits(sum, 6) + seq![0u8, 32u8];
    let hb = with_chksum_field(base, chk);
    assert(hb == header_block(n, p, TYPEFLAG_REGULAR, size, mode, uid, gid));
    let tar = single_file_archive(b, data, mode, uid, gid)->0;
    assert(tar =~= hb + data + zeros(block_pad(size)) + zeros(1024));
    assert(hb.len() == 512);
    assert(forall|k: int| 0 <= k < 512 ==> tar[k] == hb[k]);
    assert(tar.take(512) =~= hb);
    assert(forall|k: int| (0 <= k < 148 || 156 <= k < 512) ==> hb[k] == base[k]);
    // not gzip
    if n.len() >= 2 {
        lemma_split_name_valid(b);
        assert(split_name(b) == n);
        lemma_valid_utf8_no_gzip_magic(n);
        assert(tar[0] == n[0] && tar[1] == n[1]);
    } else {
        assert(tar[1] == 0);
    }
    // not an empty archive, a regular file
    assert(tar.take(512)[257] == 117);
    assert(tar[156] == TYPEFLAG_REGULAR);
    // the checksum reads back and matches
    assert(hb.subrange(148, 156) =~= chk);
    lemma_octal_digits_parse(sum, 6, seq![0u8, 32u8], u32::MAX as nat);
    assert(with_chksum_field(hb, spaces(8)) =~= base);
    // the size reads back
    assert(hb.subrange(124, 136) =~= base.subrange(124, 136));
    lemma_octal_digits_parse(size, 11, seq![0u8], u64::MAX as nat);
    assert(octal_field(size, 11) =~= octal_digits(size, 11) + seq![0u8]);
    assert(tar.subrange(512, 512 + size as int) =~= data);
}

} // verus!
