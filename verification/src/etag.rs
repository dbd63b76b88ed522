//! The checksum verifier: computing and checking the composite content
//! tags that cloud object stores declare for uploaded objects.
//!
//! A single-part object carries the plain hex digest of its content. A
//! multi-part object carries `hex(md5(md5(part_1) ++ md5(part_2) ++ ...))`
//! followed by `-` and the part count. To check a downloaded body against
//! a declared tag without knowing the original part size, the part size
//! is derived heuristically: the length divided evenly over the declared
//! part count, rounded up to a whole megabyte. The derivation is only
//! exact when the upload used that convention, so checking is advisory;
//! size verification stays authoritative.

use vstd::prelude::*;
use vstd::string::*;
use crate::Error;

verus! {

/// What `md5::compute` returns for a byte sequence. Named here so that
/// contracts can speak about digests; the digest of given bytes is fixed
/// by the hash function alone.
pub uninterp spec fn md5_of(data: Seq<u8>) -> Seq<u8>;

/// Relies on md5::compute: the MD5 digest of the bytes, 16 bytes long,
/// a function of the input alone.
#[verifier::external_body]
fn md5_digest(data: &[u8]) -> (r: Vec<u8>)
    ensures
        r@ == md5_of(data@),
        r@.len() == 16,
{
    md5::compute(data).0.to_vec()
}

/// Relies on String::push: appends exactly one character.
#[verifier::external_body]
fn string_push(s: &mut String, c: char)
    ensures
        final(s)@ == old(s)@.push(c),
{
    s.push(c);
}

/// The lower-case hex digit for a nibble value (and the decimal digit for
/// values below ten).
pub open spec fn hex_char(n: int) -> char {
    if n == 0 {
        '0'
    } else if n == 1 {
        '1'
    } else if n == 2 {
        '2'
    } else if n == 3 {
        '3'
    } else if n == 4 {
        '4'
    } else if n == 5 {
        '5'
    } else if n == 6 {
        '6'
    } else if n == 7 {
        '7'
    } else if n == 8 {
        '8'
    } else if n == 9 {
        '9'
    } else if n == 10 {
        'a'
    } else if n == 11 {
        'b'
    } else if n == 12 {
        'c'
    } else if n == 13 {
        'd'
    } else if n == 14 {
        'e'
    } else {
        'f'
    }
}

/// The lower-case hex encoding of a byte sequence: two digits per byte.
pub open spec fn hex_of(data: Seq<u8>) -> Seq<char>
    decreases data.len(),
{
    if data.len() == 0 {
        Seq::empty()
    } else {
        hex_of(data.drop_last()) + seq![
            hex_char(data.last() as int / 16),
            hex_char(data.last() as int % 16),
        ]
    }
}

/// The decimal digit sequence of a non-negative number, most significant
/// digit first, without leading zeroes (just "0" for zero).
pub open spec fn dec_digits(n: int) -> Seq<char>
    decreases n,
{
    if n < 10 {
        seq![hex_char(n)]
    } else {
        dec_digits(n / 10).push(hex_char(n % 10))
    }
}

/// How many parts a body of `len` bytes splits into at `part_size` bytes
/// per part: the last part may be short, and even an empty body counts as
/// one part.
pub open spec fn chunk_count(len: int, part_size: int) -> int
    decreases len,
{
    if part_size <= 0 || len <= part_size {
        1
    } else {
        1 + chunk_count(len - part_size, part_size)
    }
}

/// The concatenated per-part digests of a body split at `part_size`.
pub open spec fn part_digests(data: Seq<u8>, part_size: int) -> Seq<u8>
    decreases data.len(),
{
    if part_size <= 0 || data.len() <= part_size {
        md5_of(data)
    } else {
        md5_of(data.take(part_size)) + part_digests(data.skip(part_size), part_size)
    }
}

/// The content tag of a body uploaded at `part_size` bytes per part: the
/// plain hex digest when a single part suffices, otherwise the hex digest
/// of the concatenated part digests with `-` and the part count appended.
pub open spec fn multipart_etag(data: Seq<u8>, part_size: int) -> Seq<char> {
    if data.len() <= part_size {
        hex_of(md5_of(data))
    } else {
        hex_of(md5_of(part_digests(data, part_size))) + seq!['-'] + dec_digits(
            chunk_count(data.len() as int, part_size),
        )
    }
}

/// The hex digit for a nibble, as executable code.
fn hex_char_of(n: u8) -> (c: char)
    requires
        n < 16,
    ensures
        c == hex_char(n as int),
{
    match n {
        0 => '0',
        1 => '1',
        2 => '2',
        3 => '3',
        4 => '4',
        5 => '5',
        6 => '6',
        7 => '7',
        8 => '8',
        9 => '9',
        10 => 'a',
        11 => 'b',
        12 => 'c',
        13 => 'd',
        14 => 'e',
        _ => 'f',
    }
}

/// Append the hex encoding of `data` to `out`.
fn push_hex(out: &mut String, data: &Vec<u8>)
    ensures
        final(out)@ == old(out)@ + hex_of(data@),
{
    let n = data.len();
    let mut i: usize = 0;
    proof {
        assert(data@.take(0) =~= Seq::<u8>::empty());
        assert(out@ =~= old(out)@ + hex_of(data@.take(0)));
    }
    while i < n
        invariant
            n == data@.len(),
            i <= n,
            out@ == old(out)@ + hex_of(data@.take(i as int)),
        decreases n - i,
    {
        let b = data[i];
        string_push(out, hex_char_of(b / 16));
        string_push(out, hex_char_of(b % 16));
        i += 1;
        proof {
            let taken = data@.take(i as int);
            assert(taken.drop_last() =~= data@.take(i - 1));
            assert(taken.last() == data@[i - 1]);
            assert(out@ =~= old(out)@ + hex_of(taken));
        }
    }
    proof {
        assert(data@.take(n as int) =~= data@);
    }
}

/// Append the decimal digits of `n` to `out`.
fn push_decimal(out: &mut String, n: u64)
    ensures
        final(out)@ == old(out)@ + dec_digits(n as int),
    decreases n,
{
    if n < 10 {
        string_push(out, hex_char_of(n as u8));
        proof {
            assert(out@ =~= old(out)@ + dec_digits(n as int));
        }
    } else {
        push_decimal(out, n / 10);
        string_push(out, hex_char_of((n % 10) as u8));
        proof {
            assert(out@ =~= old(out)@ + dec_digits(n as int));
        }
    }
}

/// Compute the composite tag of a body that needs at least two parts.
fn composite_tag(data: &Vec<u8>, part_size: usize) -> (out: String)
    requires
        1 <= part_size < data@.len(),
    ensures
        out@ == multipart_etag(data@, part_size as int),
{
    let n = data.len();
    let mut digests: Vec<u8> = Vec::new();
    let mut parts: u64 = 0;
    let mut pos: usize = 0;
    proof {
        assert(data@.skip(0) =~= data@);
    }
    while pos < n
        invariant
            1 <= part_size < data@.len(),
            n == data@.len(),
            pos <= n,
            parts <= pos,
            pos < n ==> part_digests(data@, part_size as int) == digests@ + part_digests(
                data@.skip(pos as int),
                part_size as int,
            ),
            pos == n ==> part_digests(data@, part_size as int) == digests@,
            pos < n ==> chunk_count(data@.len() as int, part_size as int) == parts + chunk_count(
                data@.len() - pos,
                part_size as int,
            ),
            pos == n ==> chunk_count(data@.len() as int, part_size as int) == parts,
        decreases n - pos,
    {
        let end = if n - pos >= part_size {
            pos + part_size
        } else {
            n
        };
        let mut chunk: Vec<u8> = Vec::new();
        let mut t = pos;
        while t < end
            invariant
                pos <= t <= end,
                end <= n,
                n == data@.len(),
                chunk@ == data@.subrange(pos as int, t as int),
            decreases end - t,
        {
            chunk.push(data[t]);
            t += 1;
            proof {
                assert(chunk@ =~= data@.subrange(pos as int, t as int));
            }
        }
        let mut d = md5_digest(chunk.as_slice());
        let ghost digests_before = digests@;
        digests.append(&mut d);
        parts += 1;
        let ghost oldpos = pos as int;
        pos = end;
        proof {
            let ps = part_size as int;
            let remaining = data@.skip(oldpos);
            assert(remaining.len() == n - oldpos);
            if pos < n {
                assert(remaining.len() > ps);
                assert(remaining.take(ps) =~= data@.subrange(oldpos, oldpos + ps));
                assert(chunk@ == remaining.take(ps));
                assert(remaining.skip(ps) =~= data@.skip(pos as int));
                assert(digests@ =~= digests_before + md5_of(chunk@));
            } else {
                assert(remaining.len() <= ps);
                assert(chunk@ =~= remaining);
                assert(part_digests(remaining, ps) == md5_of(remaining));
                assert(digests@ =~= digests_before + md5_of(chunk@));
            }
        }
    }
    let digest = md5_digest(digests.as_slice());
    let mut out = String::new();
    push_hex(&mut out, &digest);
    string_push(&mut out, '-');
    push_decimal(&mut out, parts);
    proof {
        assert(out@ =~= hex_of(md5_of(part_digests(data@, part_size as int))) + seq!['-']
            + dec_digits(chunk_count(data@.len() as int, part_size as int)));
    }
    out
}

/// Compute the content tag of `data` as if uploaded at `part_size` bytes
/// per part: the plain hex digest when one part suffices, the composite
/// digest with a part-count suffix otherwise. Only a zero part size on a
/// non-empty body cannot be tagged.
pub fn s3_etag(data: &Vec<u8>, part_size: usize) -> (r: Result<String, Error>)
    ensures
        part_size == 0 && data@.len() > 0 ==> (r matches Err(e) && e is InvalidTag),
        part_size >= 1 || data@.len() == 0 ==> (r matches Ok(tag) && tag@ == multipart_etag(
            data@,
            part_size as int,
        )),
{
    if data.len() <= part_size {
        let digest = md5_digest(data.as_slice());
        let mut out = String::new();
        push_hex(&mut out, &digest);
        Ok(out)
    } else if part_size == 0 {
        Err(Error::InvalidTag)
    } else {
        Ok(composite_tag(data, part_size))
    }
}

/// Law: the tag of a body that fits in a single part is exactly the
/// plain whole-content hex digest, with no part-count suffix.
pub proof fn lemma_single_part_tag_is_plain_digest(data: Seq<u8>, part_size: int)
    requires
        data.len() <= part_size,
    ensures
        multipart_etag(data, part_size) == hex_of(md5_of(data)),
{
}

/// The position of the first `-` in a tag, if any: it separates the hex
/// digest from the part count.
pub open spec fn dash_position(s: Seq<char>) -> Option<int>
    decreases s.len(),
{
    if s.len() == 0 {
        None
    } else if s.first() == '-' {
        Some(0)
    } else {
        match dash_position(s.drop_first()) {
            Some(i) => Some(i + 1),
            None => None,
        }
    }
}

/// A front-to-back scan that stops at the first `-` finds exactly what
/// [`dash_position`] denotes.
proof fn lemma_dash_position_from_scan(s: Seq<char>, i: int)
    requires
        0 <= i <= s.len(),
        forall|j: int| 0 <= j < i ==> s[j] != '-',
        i < s.len() ==> s[i] == '-',
    ensures
        dash_position(s) == if i < s.len() {
            Some(i)
        } else {
            None::<int>
        },
    decreases i,
{
    if s.len() == 0 {
    } else if i == 0 {
        assert(s.first() == s[0]);
    } else {
        assert(s.first() == s[0]);
        assert(s[0] != '-');
        let t = s.drop_first();
        assert forall|j: int| 0 <= j < i - 1 implies #[trigger] t[j] != '-' by {
            assert(t[j] == s[j + 1]);
        }
        assert(i - 1 < t.len() ==> t[i - 1] == '-') by {
            if i - 1 < t.len() {
                assert(t[i - 1] == s[i]);
            }
        }
        lemma_dash_position_from_scan(t, i - 1);
    }
}

/// The numeric value of a decimal digit character, or a negative value
/// for any other character.
pub open spec fn digit_val(c: char) -> int {
    if c == '0' {
        0
    } else if c == '1' {
        1
    } else if c == '2' {
        2
    } else if c == '3' {
        3
    } else if c == '4' {
        4
    } else if c == '5' {
        5
    } else if c == '6' {
        6
    } else if c == '7' {
        7
    } else if c == '8' {
        8
    } else if c == '9' {
        9
    } else {
        -1
    }
}

/// Whether a character is a decimal digit.
pub open spec fn is_digit(c: char) -> bool {
    digit_val(c) >= 0
}

/// Whether a character sequence consists of decimal digits only.
pub open spec fn all_digits(s: Seq<char>) -> bool {
    forall|i: int| 0 <= i < s.len() ==> is_digit(#[trigger] s[i])
}

/// The numeric value of a digit sequence, most significant digit first.
pub open spec fn dec_val(s: Seq<char>) -> int
    decreases s.len(),
{
    if s.len() == 0 {
        0
    } else {
        dec_val(s.drop_last()) * 10 + digit_val(s.last())
    }
}

/// The value of an all-digit sequence is never negative.
proof fn lemma_dec_val_nonneg(s: Seq<char>)
    requires
        all_digits(s),
    ensures
        dec_val(s) >= 0,
    decreases s.len(),
{
    if s.len() > 0 {
        assert(all_digits(s.drop_last())) by {
            assert forall|i: int| 0 <= i < s.drop_last().len() implies is_digit(
                #[trigger] s.drop_last()[i],
            ) by {
                assert(s.drop_last()[i] == s[i]);
            }
        }
        lemma_dec_val_nonneg(s.drop_last());
        assert(is_digit(s.last()));
    }
}

/// Reading more digits never shrinks the value: every prefix of an
/// all-digit sequence denotes at most the whole sequence's value.
proof fn lemma_dec_val_prefix(s: Seq<char>, k: int)
    requires
        all_digits(s),
        0 <= k <= s.len(),
    ensures
        dec_val(s.take(k)) <= dec_val(s),
    decreases s.len() - k,
{
    assert(all_digits(s.take(k))) by {
        assert forall|i: int| 0 <= i < s.take(k).len() implies is_digit(
            #[trigger] s.take(k)[i],
        ) by {
            assert(s.take(k)[i] == s[i]);
        }
    }
    if k == s.len() {
        assert(s.take(k) =~= s);
    } else {
        let t = s.take(k + 1);
        assert(t.drop_last() =~= s.take(k));
        assert(t.last() == s[k]);
        lemma_dec_val_nonneg(s.take(k));
        assert(is_digit(s[k]));
        assert(dec_val(s.take(k)) <= dec_val(t));
        lemma_dec_val_prefix(s, k + 1);
    }
}

/// The decimal digits of a non-negative number are digits, and there is
/// at least one of them.
proof fn lemma_dec_digits_are_digits(n: int)
    requires
        n >= 0,
    ensures
        all_digits(dec_digits(n)),
        dec_digits(n).len() >= 1,
    decreases n,
{
    if n < 10 {
        assert(is_digit(hex_char(n)));
    } else {
        lemma_dec_digits_are_digits(n / 10);
        let d = dec_digits(n);
        assert(d == dec_digits(n / 10).push(hex_char(n % 10)));
        assert(is_digit(hex_char(n % 10)));
        assert forall|i: int| 0 <= i < d.len() implies is_digit(#[trigger] d[i]) by {
            if i < d.len() - 1 {
                assert(d[i] == dec_digits(n / 10)[i]);
            } else {
                assert(d[i] == hex_char(n % 10));
            }
        }
    }
}

/// Writing a number in decimal and reading it back gives the number.
proof fn lemma_dec_val_of_dec_digits(n: int)
    requires
        n >= 0,
    ensures
        dec_val(dec_digits(n)) == n,
    decreases n,
{
    if n < 10 {
        let d = dec_digits(n);
        assert(d.drop_last() =~= Seq::<char>::empty());
        assert(d.last() == hex_char(n));
        assert(dec_val(Seq::<char>::empty()) == 0);
        assert(dec_val(d) == dec_val(d.drop_last()) * 10 + digit_val(d.last()));
        assert(digit_val(hex_char(n)) == n);
    } else {
        lemma_dec_val_of_dec_digits(n / 10);
        let d = dec_digits(n);
        assert(d.drop_last() =~= dec_digits(n / 10));
        assert(d.last() == hex_char(n % 10));
        assert(dec_val(d) == dec_val(d.drop_last()) * 10 + digit_val(d.last()));
        assert(digit_val(hex_char(n % 10)) == n % 10);
    }
}

/// A hex encoding contains no dash.
proof fn lemma_hex_of_no_dash(b: Seq<u8>)
    ensures
        forall|i: int| 0 <= i < hex_of(b).len() ==> hex_of(b)[i] != '-',
    decreases b.len(),
{
    if b.len() > 0 {
        lemma_hex_of_no_dash(b.drop_last());
        let h = hex_of(b);
        assert forall|i: int| 0 <= i < h.len() implies h[i] != '-' by {
            if i < hex_of(b.drop_last()).len() {
                assert(h[i] == hex_of(b.drop_last())[i]);
            } else {
                assert(hex_char(b.last() as int / 16) != '-');
                assert(hex_char(b.last() as int % 16) != '-');
            }
        }
    }
}

/// At `part_size` at least one byte per part, a non-empty body splits
/// into at least one and at most `len` parts, and into at least two when
/// it does not fit in one part.
proof fn lemma_chunk_count_bounds(len: int, part_size: int)
    requires
        part_size >= 1,
        len >= 1,
    ensures
        1 <= chunk_count(len, part_size) <= len,
        len > part_size ==> chunk_count(len, part_size) >= 2,
    decreases len,
{
    if len > part_size {
        lemma_chunk_count_bounds(len - part_size, part_size);
    }
}

/// Find the first dash of a declared tag, the separator before the part
/// count.
fn find_dash(s: &str) -> (r: Option<usize>)
    ensures
        s@.len() <= usize::MAX,
        r matches Some(i) ==> i < s@.len() && dash_position(s@) == Some(i as int),
        r is None ==> dash_position(s@) is None,
{
    let n = s.unicode_len();
    let mut i: usize = 0;
    while i < n
        invariant
            n == s@.len(),
            i <= n,
            forall|j: int| 0 <= j < i ==> s@[j] != '-',
        decreases n - i,
    {
        let c = s.get_char(i);
        if c == '-' {
            proof {
                lemma_dash_position_from_scan(s@, i as int);
            }
            return Some(i);
        }
        i += 1;
    }
    proof {
        lemma_dash_position_from_scan(s@, n as int);
    }
    None
}

/// The digit a character denotes, as executable code.
fn char_digit(c: char) -> (r: Option<u8>)
    ensures
        match r {
            Some(d) => is_digit(c) && d == digit_val(c),
            None => !is_digit(c),
        },
{
    match c {
        '0' => Some(0),
        '1' => Some(1),
        '2' => Some(2),
        '3' => Some(3),
        '4' => Some(4),
        '5' => Some(5),
        '6' => Some(6),
        '7' => Some(7),
        '8' => Some(8),
        '9' => Some(9),
        _ => None,
    }
}

/// Parse the part count declared after the dash of a tag: the characters
/// from `start` on must be one or more digits denoting a representable
/// number.
fn parse_suffix_count(s: &str, start: usize) -> (r: Result<usize, Error>)
    requires
        start <= s@.len(),
    ensures
        ({
            let suffix = s@.skip(start as int);
            &&& (suffix.len() > 0 && all_digits(suffix) && dec_val(suffix) <= usize::MAX as int)
                ==> (r matches Ok(v) && v == dec_val(suffix))
            &&& (suffix.len() == 0 || !all_digits(suffix) || dec_val(suffix) > usize::MAX as int)
                ==> (r matches Err(e) && e is InvalidTag)
        }),
{
    let ghost suffix = s@.skip(start as int);
    let n = s.unicode_len();
    if start == n {
        return Err(Error::InvalidTag);
    }
    let mut val: usize = 0;
    let mut j: usize = start;
    proof {
        assert(suffix.take(0) =~= Seq::<char>::empty());
    }
    while j < n
        invariant
            start <= j <= n,
            n == s@.len(),
            start < n,
            suffix == s@.skip(start as int),
            forall|m: int| 0 <= m < j - start ==> is_digit(#[trigger] suffix[m]),
            val == dec_val(suffix.take(j - start)),
        decreases n - j,
    {
        let c = s.get_char(j);
        proof {
            assert(suffix[j - start] == s@[j as int]);
        }
        match char_digit(c) {
            None => {
                proof {
                    assert(!is_digit(suffix[j - start]));
                    assert(!all_digits(suffix));
                }
                return Err(Error::InvalidTag);
            },
            Some(d) => {
                let ghost taken = suffix.take(j - start);
                let ghost taken1 = suffix.take(j - start + 1);
                proof {
                    assert(taken1.drop_last() =~= taken);
                    assert(taken1.last() == suffix[j - start]);
                    assert(dec_val(taken1) == val * 10 + d);
                    assert(all_digits(taken1)) by {
                        assert forall|m: int| 0 <= m < taken1.len() implies is_digit(
                            #[trigger] taken1[m],
                        ) by {
                            assert(taken1[m] == suffix[m]);
                        }
                    }
                }
                let next = match val.checked_mul(10) {
                    Some(v) => v.checked_add(d as usize),
                    None => None,
                };
                match next {
                    Some(v) => {
                        val = v;
                    },
                    None => {
                        proof {
                            assert(dec_val(taken1) > usize::MAX as int);
                            if all_digits(suffix) {
                                lemma_dec_val_prefix(suffix, j - start + 1);
                                assert(dec_val(suffix) > usize::MAX as int);
                            }
                        }
                        return Err(Error::InvalidTag);
                    },
                }
                j += 1;
            },
        }
    }
    proof {
        assert(suffix.take(n - start) =~= suffix);
        assert(all_digits(suffix));
    }
    Ok(val)
}

/// One megabyte: the granularity the part-size heuristic rounds up to.
pub const ONE_MEGABYTE: u64 = 1_048_576;

/// Division rounding up, for non-negative operands.
pub open spec fn ceil_div(a: int, b: int) -> int {
    (a + b - 1) / b
}

/// The heuristically derived part size for a body of `len` bytes
/// declared to have been uploaded in `parts` parts: the length divided
/// evenly over the parts, rounded up to a whole megabyte. Exact only for
/// uploads that used that convention.
pub open spec fn heuristic_part_size(len: int, parts: int) -> int {
    ceil_div(ceil_div(len, parts), ONE_MEGABYTE as int) * (ONE_MEGABYTE as int)
}

/// Derive the heuristic part size, reporting a size too large to address
/// as `None`.
fn derive_part_size(len: usize, parts: usize) -> (r: Option<usize>)
    requires
        parts >= 1,
    ensures
        match r {
            Some(ps) => ps == heuristic_part_size(len as int, parts as int) && (len >= 1 ==> ps
                >= 1),
            None => heuristic_part_size(len as int, parts as int) > usize::MAX as int,
        },
{
    let l = len as u128;
    let p = parts as u128;
    let q = (l + p - 1) / p;
    let mb = ONE_MEGABYTE as u128;
    let ps = ((q + mb - 1) / mb) * mb;
    proof {
        assert(q == ceil_div(len as int, parts as int));
        assert(ps == heuristic_part_size(len as int, parts as int));
        if len >= 1 {
            assert(q >= 1) by (nonlinear_arith)
                requires
                    l >= 1,
                    p >= 1,
                    q == (l + p - 1) / (p as int),
            ;
            assert(ps >= mb) by (nonlinear_arith)
                requires
                    q >= 1,
                    mb >= 1,
                    ps == ((q + mb - 1) / (mb as int)) * (mb as int),
            ;
        }
    }
    if ps > usize::MAX as u128 {
        None
    } else {
        Some(ps as usize)
    }
}

/// What verifying a declared tag against a body denotes. A tag without a
/// dash is compared against the plain whole-body digest. A tag with a
/// dash must carry a representable, positive part count after it; the
/// part size is then derived heuristically, and a body that would not
/// split into at least two such parts cannot be recomputed. Otherwise the
/// comparison is against the recomputed composite tag.
pub open spec fn verify_outcome(data: Seq<u8>, expected: Seq<char>) -> Result<bool, Error> {
    match dash_position(expected) {
        None => Ok(expected == hex_of(md5_of(data))),
        Some(i) => {
            let suffix = expected.skip(i + 1);
            if suffix.len() == 0 || !all_digits(suffix) || dec_val(suffix) > usize::MAX as int
                || dec_val(suffix) == 0 {
                Err(Error::InvalidTag)
            } else {
                let ps = heuristic_part_size(data.len() as int, dec_val(suffix));
                if data.len() <= ps {
                    Err(Error::InvalidTag)
                } else {
                    Ok(expected == multipart_etag(data, ps))
                }
            }
        },
    }
}

/// Check a downloaded body against a server-declared content tag without
/// knowing the original part size. The part-size derivation is a
/// heuristic, so a `false` answer is advisory; byte-count verification
/// stays the authoritative integrity check.
pub fn verify_s3_etag(data: &Vec<u8>, expected: &str) -> (r: Result<bool, Error>)
    ensures
        r == verify_outcome(data@, expected@),
{
    let expected_owned: String = expected.to_owned();
    match find_dash(expected) {
        None => {
            let digest = md5_digest(data.as_slice());
            let mut tag = String::new();
            push_hex(&mut tag, &digest);
            Ok(tag == expected_owned)
        },
        Some(i) => {
            let count = match parse_suffix_count(expected, i + 1) {
                Ok(c) => c,
                Err(e) => {
                    return Err(e);
                },
            };
            if count == 0 {
                return Err(Error::InvalidTag);
            }
            let ps = match derive_part_size(data.len(), count) {
                Some(ps) => ps,
                None => {
                    return Err(Error::InvalidTag);
                },
            };
            if data.len() <= ps {
                return Err(Error::InvalidTag);
            }
            let tag = composite_tag(data, ps);
            Ok(tag == expected_owned)
        },
    }
}

/// Law: recomputing a multi-part tag with the exact original part size
/// reproduces the declared tag, so verification accepts its own tag
/// whenever the heuristic derivation recovers that part size.
pub proof fn lemma_tag_round_trip(data: Seq<u8>, part_size: int)
    requires
        1 <= part_size < data.len(),
        data.len() <= usize::MAX,
        heuristic_part_size(
            data.len() as int,
            chunk_count(data.len() as int, part_size),
        ) == part_size,
    ensures
        verify_outcome(data, multipart_etag(data, part_size)) == Ok::<bool, Error>(true),
{
    let tag = multipart_etag(data, part_size);
    let hexpart = hex_of(md5_of(part_digests(data, part_size)));
    let cnt = chunk_count(data.len() as int, part_size);
    lemma_chunk_count_bounds(data.len() as int, part_size);
    lemma_dec_digits_are_digits(cnt);
    lemma_dec_val_of_dec_digits(cnt);
    lemma_hex_of_no_dash(md5_of(part_digests(data, part_size)));
    assert(tag == hexpart + seq!['-'] + dec_digits(cnt));
    assert forall|j: int| 0 <= j < hexpart.len() implies #[trigger] tag[j] != '-' by {
        assert(tag[j] == hexpart[j]);
    }
    assert(tag[hexpart.len() as int] == '-');
    lemma_dash_position_from_scan(tag, hexpart.len() as int);
    assert(dash_position(tag) == Some(hexpart.len() as int));
    let suffix = tag.skip(hexpart.len() as int + 1);
    assert(suffix =~= dec_digits(cnt));
    assert(suffix.len() >= 1);
    assert(all_digits(suffix));
    assert(dec_val(suffix) == cnt);
    assert(cnt <= usize::MAX as int);
    assert(cnt >= 2);
    assert(heuristic_part_size(data.len() as int, cnt) == part_size);
    assert(data.len() > part_size);
    assert(verify_outcome(data, tag) == Ok::<bool, Error>(tag == multipart_etag(
        data,
        part_size,
    )));
}

} // verus!
