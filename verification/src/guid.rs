use vstd::prelude::*;
use vstd::string::StringSliceAdditionalSpecFns;

verus! {

/// A provider GUID, field by field as the operating system takes it.
#[derive(Clone, Copy, Debug)]
pub struct Guid {
    pub data1: u32,
    pub data2: u16,
    pub data3: u16,
    pub data4: [u8; 8],
}

/// Whether `b` is an ASCII hexadecimal digit, of either case.
pub open spec fn is_hex_digit(b: u8) -> bool {
    (48 <= b <= 57) || (97 <= b <= 102) || (65 <= b <= 70)
}

/// The value of a hexadecimal digit.
pub open spec fn hex_digit_value(b: u8) -> nat {
    if 48 <= b <= 57 {
        (b - 48) as nat
    } else if 97 <= b <= 102 {
        (b - 87) as nat
    } else if 65 <= b <= 70 {
        (b - 55) as nat
    } else {
        0
    }
}

/// Whether every byte of `s` is a hexadecimal digit.
pub open spec fn all_hex(s: Seq<u8>) -> bool {
    forall|i: int| 0 <= i < s.len() ==> is_hex_digit(#[trigger] s[i])
}

/// The number that the hexadecimal digits `s` denote, most significant first.
pub open spec fn hex_num(s: Seq<u8>) -> nat
    decreases s.len(),
{
    if s.len() == 0 {
        0
    } else {
        hex_num(s.drop_last()) * 16 + hex_digit_value(s.last())
    }
}

/// What reading `s` as a base-16 number into an unsigned integer type whose
/// largest value is `max` gives: an optional leading `+`, then at least one
/// hexadecimal digit and nothing else, of a value no larger than `max`.
pub open spec fn radix16(s: Seq<u8>, max: nat) -> Option<nat> {
    if s.len() == 0 {
        None
    } else {
        let digits = if s[0] == 43u8 {
            s.drop_first()
        } else {
            s
        };
        if digits.len() == 0 || !all_hex(digits) || hex_num(digits) > max {
            None
        } else {
            Some(hex_num(digits))
        }
    }
}

proof fn lemma_hex_num_prefix_monotone(s: Seq<u8>, k: int)
    requires
        0 <= k <= s.len(),
    ensures
        hex_num(s.take(k)) <= hex_num(s),
    decreases s.len() - k,
{
    if k < s.len() {
        assert(s.take(k + 1).drop_last() =~= s.take(k));
        lemma_hex_num_prefix_monotone(s, k + 1);
    } else {
        assert(s.take(k) =~= s);
    }
}

/// Reads `s` as a base-16 number into an unsigned integer type whose largest
/// value is `max`, as the standard library's `from_str_radix` does.
pub fn parse_hex(s: &[u8], max: u32) -> (r: Option<u32>)
    ensures
        match r {
            Some(v) => radix16(s@, max as nat) == Some(v as nat),
            None => radix16(s@, max as nat) is None,
        },
{
    if s.len() == 0 {
        return None;
    }
    let start: usize = if s[0] == 43u8 { 1 } else { 0 };
    if start == s.len() {
        return None;
    }
    let ghost digits = if s@[0] == 43u8 { s@.drop_first() } else { s@ };
    assert(digits =~= s@.subrange(start as int, s@.len() as int));
    let mut acc: u64 = 0;
    let mut i: usize = start;
    while i < s.len()
        invariant
            start <= i <= s@.len(),
            s@.len() > 0,
            start < s@.len(),
            digits == (if s@[0] == 43u8 { s@.drop_first() } else { s@ }),
            digits == s@.subrange(start as int, s@.len() as int),
            acc as nat == hex_num(digits.take(i - start)),
            acc <= max,
            all_hex(digits.take(i - start)),
        decreases s@.len() - i,
    {
        let b = s[i];
        let ghost k = i - start;
        assert(digits[k] == b);
        let d: u64 = if 48u8 <= b && b <= 57u8 {
            (b - 48u8) as u64
        } else if 97u8 <= b && b <= 102u8 {
            (b - 87u8) as u64
        } else if 65u8 <= b && b <= 70u8 {
            (b - 55u8) as u64
        } else {
            assert(!all_hex(digits));
            return None;
        };
        assert(digits.take(k + 1).drop_last() =~= digits.take(k));
        assert(digits.take(k + 1).last() == b);
        acc = acc * 16 + d;
        i = i + 1;
        assert(all_hex(digits.take(i - start))) by {
            assert forall|j: int| 0 <= j < i - start implies is_hex_digit(
                #[trigger] digits.take(i - start)[j],
            ) by {
                if j < k {
                    assert(digits.take(i - start)[j] == digits.take(k)[j]);
                }
            }
        }
        if acc > max as u64 {
            proof {
                lemma_hex_num_prefix_monotone(digits, i - start);
            }
            return None;
        }
    }
    assert(digits.take(i - start) =~= digits);
    Some(acc as u32)
}

/// Whether byte index `i` of the UTF-8 text `s` starts a character or ends
/// the text, as the standard library's `str::is_char_boundary` decides.
pub open spec fn is_char_boundary(s: Seq<u8>, i: int) -> bool {
    i == 0 || i == s.len() || (0 < i < s.len() && !(0x80u8 <= s[i] < 0xC0u8))
}

/// Whether byte index `i` of the UTF-8 text `s` is a character boundary.
pub fn char_boundary(s: &[u8], i: usize) -> (b: bool)
    ensures
        b == is_char_boundary(s@, i as int),
{
    i == 0 || i == s.len() || (i < s.len() && !(0x80u8 <= s[i] && s[i] < 0xC0u8))
}

/// The bytes `a..e` of the text `s` read as a base-16 number no larger than
/// `max`; `None` where the range does not lie on character boundaries
/// within the text, or its bytes are no such number.
pub open spec fn text_field(s: Seq<u8>, a: int, e: int, max: nat) -> Option<nat> {
    if 0 <= a <= e <= s.len() && is_char_boundary(s, a) && is_char_boundary(s, e) {
        radix16(s.subrange(a, e), max)
    } else {
        None
    }
}

fn parse_text_field(s: &[u8], a: usize, e: usize, max: u32) -> (r: Option<u32>)
    ensures
        match r {
            Some(v) => text_field(s@, a as int, e as int, max as nat) == Some(v as nat),
            None => text_field(s@, a as int, e as int, max as nat) is None,
        },
{
    if a <= e && e <= s.len() && char_boundary(s, a) && char_boundary(s, e) {
        parse_hex(&s[a..e], max)
    } else {
        None
    }
}

/// The byte offset in the text of the `k`-th byte of the last GUID field,
/// in the fixed layout `xxxxxxxx-xxxx-xxxx-xxxx-xxxxxxxxxxxx`.
pub open spec fn fixed_data4_start(k: int) -> int {
    if k < 2 {
        19 + 2 * k
    } else {
        20 + 2 * k
    }
}

/// Whether every field of the fixed layout reads as a number of its width.
pub open spec fn fixed_layout_ok(s: Seq<u8>) -> bool {
    &&& text_field(s, 0, 8, 0xffff_ffff) is Some
    &&& text_field(s, 9, 13, 0xffff) is Some
    &&& text_field(s, 14, 18, 0xffff) is Some
    &&& forall|k: int|
        0 <= k < 8 ==> #[trigger] text_field(s, fixed_data4_start(k), fixed_data4_start(k) + 2, 0xff)
            is Some
}

/// Whether `g` holds the numbers that the fields of the fixed layout read as.
pub open spec fn fixed_layout_matches(s: Seq<u8>, g: Guid) -> bool {
    &&& text_field(s, 0, 8, 0xffff_ffff) == Some(g.data1 as nat)
    &&& text_field(s, 9, 13, 0xffff) == Some(g.data2 as nat)
    &&& text_field(s, 14, 18, 0xffff) == Some(g.data3 as nat)
    &&& forall|k: int|
        0 <= k < 8 ==> #[trigger] text_field(s, fixed_data4_start(k), fixed_data4_start(k) + 2, 0xff)
            == Some(g.data4@[k] as nat)
}

fn guid_from(data1: u32, data2: u16, data3: u16, d: &Vec<u8>) -> (g: Guid)
    requires
        d@.len() == 8,
    ensures
        g.data1 == data1,
        g.data2 == data2,
        g.data3 == data3,
        g.data4@ == d@,
{
    let data4: [u8; 8] = [d[0], d[1], d[2], d[3], d[4], d[5], d[6], d[7]];
    assert(data4@ =~= d@);
    Guid { data1, data2, data3, data4 }
}

impl Guid {
    /// Reads a GUID from its text form by fixed byte ranges: hex digits at
    /// `0..8`, `9..13`, `14..18`, then eight bytes from `19..21`, `21..23`,
    /// `24..26` up to `34..36`. The bytes between the ranges are not looked
    /// at. `None` where a range falls outside the text or off a character
    /// boundary, or does not read as a number of its width.
    pub fn parse_fixed(guid: &str) -> (r: Option<Guid>)
        ensures
            r is Some <==> fixed_layout_ok(guid.spec_bytes()),
            r matches Some(g) ==> fixed_layout_matches(guid.spec_bytes(), g),
    {
        let s = guid.as_bytes();
        let data1 = match parse_text_field(s, 0, 8, 0xffff_ffff) {
            Some(v) => v,
            None => return None,
        };
        let data2 = match parse_text_field(s, 9, 13, 0xffff) {
            Some(v) => v as u16,
            None => return None,
        };
        let data3 = match parse_text_field(s, 14, 18, 0xffff) {
            Some(v) => v as u16,
            None => return None,
        };
        let mut d: Vec<u8> = Vec::new();
        let mut k: usize = 0;
        while k < 8
            invariant
                k <= 8,
                s@ == guid.spec_bytes(),
                d@.len() == k,
                forall|j: int|
                    0 <= j < k ==> #[trigger] text_field(
                        s@,
                        fixed_data4_start(j),
                        fixed_data4_start(j) + 2,
                        0xff,
                    ) == Some(d@[j] as nat),
            decreases 8 - k,
        {
            let a: usize = if k < 2 { 19 + 2 * k } else { 20 + 2 * k };
            match parse_text_field(s, a, a + 2, 0xff) {
                Some(v) => {
                    d.push(v as u8);
                },
                None => {
                    assert(text_field(s@, fixed_data4_start(k as int), fixed_data4_start(k as int) + 2, 0xff) is None);
                    return None;
                },
            }
            k = k + 1;
        }
        let g = guid_from(data1, data2, data3, &d);
        assert(fixed_layout_matches(s@, g));
        Some(g)
    }
}

/// Why the text of a provider GUID was refused.
#[derive(Clone, Copy, Debug, PartialEq, Eq)]
pub enum GuidError {
    /// The text does not split on `-` into exactly five parts.
    WrongPartCount,
    /// Part `part` (counted from 1) is not `digits` bytes long.
    PartLength { part: u8, digits: u8 },
    /// A part, or a byte pair of the last two parts, is no base-16 number.
    NotHexDigits,
    /// A byte pair of the last two parts would be cut off a character
    /// boundary.
    NotCharBoundary,
}

/// The parts of `s` between its `-` bytes, in order; `n` dashes give `n + 1`
/// parts, empty ones included.
pub open spec fn split_dash(s: Seq<u8>) -> Seq<Seq<u8>>
    decreases s.len(),
{
    if s.len() == 0 {
        seq![Seq::<u8>::empty()]
    } else {
        let p = split_dash(s.drop_last());
        if s.last() == 45u8 {
            p.push(Seq::<u8>::empty())
        } else {
            p.update(p.len() - 1, p.last().push(s.last()))
        }
    }
}

/// Splitting always gives at least one part.
pub proof fn lemma_split_dash_nonempty(s: Seq<u8>)
    ensures
        split_dash(s).len() >= 1,
    decreases s.len(),
{
    if s.len() > 0 {
        lemma_split_dash_nonempty(s.drop_last());
    }
}

/// The part and the offset in it of the `k`-th byte of the last GUID field.
pub open spec fn pair_part(k: int) -> int {
    if k < 2 {
        3
    } else {
        4
    }
}

pub open spec fn pair_offset(k: int) -> int {
    if k < 2 {
        2 * k
    } else {
        2 * (k - 2)
    }
}

/// The byte pair at offset `a` of `part`, read as a base-16 byte.
pub open spec fn pair_of(part: Seq<u8>, a: int) -> Result<nat, GuidError> {
    if !(is_char_boundary(part, a) && is_char_boundary(part, a + 2)) {
        Err(GuidError::NotCharBoundary)
    } else {
        match radix16(part.subrange(a, a + 2), 0xff) {
            Some(v) => Ok(v),
            None => Err(GuidError::NotHexDigits),
        }
    }
}

/// The first error among the first `n` byte pairs of the last GUID field.
pub open spec fn pairs_error(parts: Seq<Seq<u8>>, n: int) -> Option<GuidError>
    decreases n,
{
    if n <= 0 {
        None
    } else {
        match pairs_error(parts, n - 1) {
            Some(e) => Some(e),
            None => match pair_of(parts[pair_part(n - 1)], pair_offset(n - 1)) {
                Err(e) => Some(e),
                Ok(_) => None,
            },
        }
    }
}

/// The error with which the text `s` of a provider GUID is refused, checked
/// in this order: the number of parts, the length of each part in turn, the
/// first three parts as numbers, then the eight byte pairs of the last two
/// parts in turn; `None` where it is accepted.
pub open spec fn register_guid_error(s: Seq<u8>) -> Option<GuidError> {
    let parts = split_dash(s);
    if parts.len() != 5 {
        Some(GuidError::WrongPartCount)
    } else if parts[0].len() != 8 {
        Some(GuidError::PartLength { part: 1, digits: 8 })
    } else if parts[1].len() != 4 {
        Some(GuidError::PartLength { part: 2, digits: 4 })
    } else if parts[2].len() != 4 {
        Some(GuidError::PartLength { part: 3, digits: 4 })
    } else if parts[3].len() != 4 {
        Some(GuidError::PartLength { part: 4, digits: 4 })
    } else if parts[4].len() != 12 {
        Some(GuidError::PartLength { part: 5, digits: 12 })
    } else if radix16(parts[0], 0xffff_ffff) is None || radix16(parts[1], 0xffff) is None
        || radix16(parts[2], 0xffff) is None {
        Some(GuidError::NotHexDigits)
    } else {
        pairs_error(parts, 8)
    }
}

/// Whether `g` holds the numbers that the parts of the accepted text `s`
/// read as.
pub open spec fn register_guid_matches(s: Seq<u8>, g: Guid) -> bool {
    let parts = split_dash(s);
    &&& radix16(parts[0], 0xffff_ffff) == Some(g.data1 as nat)
    &&& radix16(parts[1], 0xffff) == Some(g.data2 as nat)
    &&& radix16(parts[2], 0xffff) == Some(g.data3 as nat)
    &&& forall|k: int|
        0 <= k < 8 ==> #[trigger] pair_of(parts[pair_part(k)], pair_offset(k)) == Ok::<
            nat,
            GuidError,
        >(g.data4@[k] as nat)
}

fn split_on_dash(s: &[u8]) -> (parts: Vec<Vec<u8>>)
    ensures
        parts@.map_values(|v: Vec<u8>| v@) == split_dash(s@),
{
    let mut done: Vec<Vec<u8>> = Vec::new();
    let mut cur: Vec<u8> = Vec::new();
    let mut i: usize = 0;
    assert(s@.take(0) =~= Seq::<u8>::empty());
    assert(done@.map_values(|v: Vec<u8>| v@).push(cur@) =~= split_dash(s@.take(0)));
    while i < s.len()
        invariant
            i <= s@.len(),
            done@.map_values(|v: Vec<u8>| v@).push(cur@) == split_dash(s@.take(i as int)),
        decreases s@.len() - i,
    {
        let b = s[i];
        let ghost before = done@.map_values(|v: Vec<u8>| v@);
        assert(s@.take(i + 1).drop_last() =~= s@.take(i as int));
        assert(s@.take(i + 1).last() == b);
        if b == 45u8 {
            let finished = cur;
            cur = Vec::new();
            done.push(finished);
            assert(done@.map_values(|v: Vec<u8>| v@) =~= before.push(finished@));
        } else {
            cur.push(b);
        }
        i = i + 1;
        assert(done@.map_values(|v: Vec<u8>| v@).push(cur@) =~= split_dash(s@.take(i as int)));
    }
    let ghost before = done@.map_values(|v: Vec<u8>| v@);
    done.push(cur);
    assert(s@.take(i as int) =~= s@);
    assert(done@.map_values(|v: Vec<u8>| v@) =~= split_dash(s@));
    done
}

fn parse_pair(part: &[u8], a: usize) -> (r: Result<u8, GuidError>)
    requires
        a + 2 <= part@.len(),
    ensures
        match r {
            Ok(v) => pair_of(part@, a as int) == Ok::<nat, GuidError>(v as nat),
            Err(e) => pair_of(part@, a as int) == Err::<nat, GuidError>(e),
        },
{
    let n = part.len();
    assert(a + 2 <= n);
    if !(char_boundary(part, a) && char_boundary(part, a + 2)) {
        return Err(GuidError::NotCharBoundary);
    }
    match parse_hex(&part[a..a + 2], 0xff) {
        Some(v) => Ok(v as u8),
        None => Err(GuidError::NotHexDigits),
    }
}

impl Guid {
    /// Reads a GUID from its text form `xxxxxxxx-xxxx-xxxx-xxxx-xxxxxxxxxxxx`
    /// after checking its shape: five parts separated by `-`, of 8, 4, 4, 4
    /// and 12 bytes, each part or byte pair a base-16 number.
    pub fn parse_checked(guid: &str) -> (r: Result<Guid, GuidError>)
        ensures
            match r {
                Ok(g) => register_guid_error(guid.spec_bytes()) is None && register_guid_matches(
                    guid.spec_bytes(),
                    g,
                ),
                Err(e) => register_guid_error(guid.spec_bytes()) == Some(e),
            },
    {
        let s = guid.as_bytes();
        let parts = split_on_dash(s);
        let ghost sp = split_dash(s@);
        assert(parts@.len() == sp.len());
        if parts.len() != 5 {
            return Err(GuidError::WrongPartCount);
        }
        assert(forall|k: int| 0 <= k < 5 ==> #[trigger] parts@[k]@ == sp[k]);
        if parts[0].len() != 8 {
            return Err(GuidError::PartLength { part: 1, digits: 8 });
        }
        if parts[1].len() != 4 {
            return Err(GuidError::PartLength { part: 2, digits: 4 });
        }
        if parts[2].len() != 4 {
            return Err(GuidError::PartLength { part: 3, digits: 4 });
        }
        if parts[3].len() != 4 {
            return Err(GuidError::PartLength { part: 4, digits: 4 });
        }
        if parts[4].len() != 12 {
            return Err(GuidError::PartLength { part: 5, digits: 12 });
        }
        let data1 = match parse_hex(parts[0].as_slice(), 0xffff_ffff) {
            Some(v) => v,
            None => return Err(GuidError::NotHexDigits),
        };
        let data2 = match parse_hex(parts[1].as_slice(), 0xffff) {
            Some(v) => v as u16,
            None => return Err(GuidError::NotHexDigits),
        };
        let data3 = match parse_hex(parts[2].as_slice(), 0xffff) {
            Some(v) => v as u16,
            None => return Err(GuidError::NotHexDigits),
        };
        let mut d: Vec<u8> = Vec::new();
        let mut k: usize = 0;
        while k < 8
            invariant
                k <= 8,
                sp == split_dash(s@),
                s@ == guid.spec_bytes(),
                sp.len() == 5,
                sp[0].len() == 8,
                sp[1].len() == 4,
                sp[2].len() == 4,
                radix16(sp[0], 0xffff_ffff) == Some(data1 as nat),
                radix16(sp[1], 0xffff) == Some(data2 as nat),
                radix16(sp[2], 0xffff) == Some(data3 as nat),
                sp[3].len() == 4,
                sp[4].len() == 12,
                forall|j: int| 0 <= j < 5 ==> #[trigger] parts@[j]@ == sp[j],
                parts@.len() == 5,
                d@.len() == k,
                pairs_error(sp, k as int) is None,
                forall|j: int|
                    0 <= j < k ==> #[trigger] pair_of(sp[pair_part(j)], pair_offset(j)) == Ok::<
                        nat,
                        GuidError,
                    >(d@[j] as nat),
            decreases 8 - k,
        {
            let p: usize = if k < 2 { 3 } else { 4 };
            let a: usize = if k < 2 { 2 * k } else { 2 * (k - 2) };
            assert(parts@[p as int]@ == sp[pair_part(k as int)]);
            match parse_pair(parts[p].as_slice(), a) {
                Ok(v) => {
                    d.push(v);
                },
                Err(e) => {
                    assert(pairs_error(sp, k + 1) == Some(e));
                    proof {
                        lemma_pairs_error_sticks(sp, k + 1, 8);
                    }
                    return Err(e);
                },
            }
            k = k + 1;
        }
        let g = guid_from(data1, data2, data3, &d);
        Ok(g)
    }
}

proof fn lemma_pairs_error_sticks(parts: Seq<Seq<u8>>, n: int, m: int)
    requires
        n <= m,
        pairs_error(parts, n) is Some,
    ensures
        pairs_error(parts, m) == pairs_error(parts, n),
    decreases m - n,
{
    if n < m {
        lemma_pairs_error_sticks(parts, n, m - 1);
    }
}

/// Whether `s` is the canonical text of a GUID: 36 bytes, `-` at offsets 8,
/// 13, 18 and 23, and hexadecimal digits everywhere else.
pub open spec fn is_canonical_guid_text(s: Seq<u8>) -> bool {
    &&& s.len() == 36
    &&& forall|i: int|
        0 <= i < 36 ==> if i == 8 || i == 13 || i == 18 || i == 23 {
            #[trigger] s[i] == 45u8
        } else {
            is_hex_digit(s[i])
        }
}

/// 16 to the power `n`.
pub open spec fn pow16(n: nat) -> nat
    decreases n,
{
    if n == 0 {
        1
    } else {
        16 * pow16((n - 1) as nat)
    }
}

proof fn lemma_hex_num_bound(s: Seq<u8>)
    requires
        all_hex(s),
    ensures
        hex_num(s) < pow16(s.len()),
    decreases s.len(),
{
    if s.len() > 0 {
        let t = s.drop_last();
        assert(all_hex(t)) by {
            assert forall|i: int| 0 <= i < t.len() implies is_hex_digit(#[trigger] t[i]) by {
                assert(t[i] == s[i]);
            }
        }
        lemma_hex_num_bound(t);
        assert(is_hex_digit(s[s.len() - 1]));
        let h = hex_num(t);
        let p = pow16(t.len());
        let d = hex_digit_value(s.last());
        assert(d < 16);
        assert(h * 16 + d < p * 16) by (nonlinear_arith)
            requires
                h < p,
                d < 16,
        ;
    }
}

/// Reading a run of hexadecimal digits, without sign, as a number of a
/// width that holds every number of that many digits always succeeds.
proof fn lemma_radix16_of_digits(s: Seq<u8>, max: nat)
    requires
        s.len() > 0,
        all_hex(s),
        pow16(s.len()) <= max + 1,
    ensures
        radix16(s, max) == Some(hex_num(s)),
{
    assert(is_hex_digit(s[0]));
    lemma_hex_num_bound(s);
}

proof fn lemma_split_dash_extend(s: Seq<u8>, i: int, j: int)
    requires
        0 <= i <= j <= s.len(),
        forall|k: int| i <= k < j ==> #[trigger] s[k] != 45u8,
    ensures
        split_dash(s.take(j)).len() == split_dash(s.take(i)).len(),
        split_dash(s.take(j)) == split_dash(s.take(i)).update(
            split_dash(s.take(i)).len() - 1,
            split_dash(s.take(i)).last() + s.subrange(i, j),
        ),
    decreases j - i,
{
    lemma_split_dash_nonempty(s.take(i));
    if j == i {
        assert(s.subrange(i, j) =~= Seq::<u8>::empty());
        assert(split_dash(s.take(i)).last() + s.subrange(i, j) =~= split_dash(s.take(i)).last());
        assert(split_dash(s.take(i)).update(
            split_dash(s.take(i)).len() - 1,
            split_dash(s.take(i)).last(),
        ) =~= split_dash(s.take(i)));
    } else {
        lemma_split_dash_extend(s, i, j - 1);
        assert(s.take(j).drop_last() =~= s.take(j - 1));
        assert(s.take(j).last() == s[j - 1]);
        assert(s.subrange(i, j - 1).push(s[j - 1]) =~= s.subrange(i, j));
        assert(split_dash(s.take(j)) =~= split_dash(s.take(i)).update(
            split_dash(s.take(i)).len() - 1,
            split_dash(s.take(i)).last() + s.subrange(i, j),
        ));
    }
}

proof fn lemma_split_dash_at_dash(s: Seq<u8>, j: int)
    requires
        0 <= j < s.len(),
        s[j] == 45u8,
    ensures
        split_dash(s.take(j + 1)) == split_dash(s.take(j)).push(Seq::<u8>::empty()),
{
    assert(s.take(j + 1).drop_last() =~= s.take(j));
}

proof fn lemma_canonical_parts(s: Seq<u8>)
    requires
        is_canonical_guid_text(s),
    ensures
        split_dash(s) == seq![
            s.subrange(0, 8),
            s.subrange(9, 13),
            s.subrange(14, 18),
            s.subrange(19, 23),
            s.subrange(24, 36),
        ],
{
    assert(s.take(0) =~= Seq::<u8>::empty());
    assert forall|k: int| 0 <= k < 36 && k != 8 && k != 13 && k != 18 && k != 23 implies #[trigger] s[k]
        != 45u8 by {
        assert(is_hex_digit(s[k]));
    }
    assert(s[8] == 45u8 && s[13] == 45u8 && s[18] == 45u8 && s[23] == 45u8);
    lemma_split_dash_extend(s, 0, 8);
    assert(seq![Seq::<u8>::empty()].last() + s.subrange(0, 8) =~= s.subrange(0, 8));
    lemma_split_dash_at_dash(s, 8);
    lemma_split_dash_extend(s, 9, 13);
    lemma_split_dash_at_dash(s, 13);
    lemma_split_dash_extend(s, 14, 18);
    lemma_split_dash_at_dash(s, 18);
    lemma_split_dash_extend(s, 19, 23);
    lemma_split_dash_at_dash(s, 23);
    lemma_split_dash_extend(s, 24, 36);
    assert(s.take(36) =~= s);
    assert(Seq::<u8>::empty() + s.subrange(9, 13) =~= s.subrange(9, 13));
    assert(Seq::<u8>::empty() + s.subrange(14, 18) =~= s.subrange(14, 18));
    assert(Seq::<u8>::empty() + s.subrange(19, 23) =~= s.subrange(19, 23));
    assert(Seq::<u8>::empty() + s.subrange(24, 36) =~= s.subrange(24, 36));
    assert(split_dash(s) =~= seq![
        s.subrange(0, 8),
        s.subrange(9, 13),
        s.subrange(14, 18),
        s.subrange(19, 23),
        s.subrange(24, 36),
    ]);
}

proof fn lemma_hex_range(s: Seq<u8>, a: int, e: int)
    requires
        is_canonical_guid_text(s),
        0 <= a < e <= 36,
        e <= 8 || (9 <= a && e <= 13) || (14 <= a && e <= 18) || (19 <= a && e <= 23) || 24 <= a,
    ensures
        all_hex(s.subrange(a, e)),
{
    assert forall|i: int| 0 <= i < e - a implies is_hex_digit(#[trigger] s.subrange(a, e)[i]) by {
        assert(s.subrange(a, e)[i] == s[a + i]);
        assert(is_hex_digit(s[a + i]));
    }
}

/// Both ways of reading a provider GUID accept every GUID in canonical text
/// form, and read the same GUID from it.
pub proof fn lemma_canonical_guid_read_alike(s: Seq<u8>)
    requires
        is_canonical_guid_text(s),
    ensures
        fixed_layout_ok(s),
        register_guid_error(s) is None,
        forall|g: Guid| #[trigger] fixed_layout_matches(s, g) <==> register_guid_matches(s, g),
{
    lemma_canonical_parts(s);
    let parts = split_dash(s);
    assert(pow16(2) == 256 && pow16(4) == 65536 && pow16(8) == 0x1_0000_0000) by {
        reveal_with_fuel(pow16, 9);
    }
    assert forall|i: int| 0 <= i < 36 && i != 8 && i != 13 && i != 18 && i != 23 implies !(0x80u8
        <= #[trigger] s[i] < 0xC0u8) by {
        assert(is_hex_digit(s[i]));
    }
    assert(s[8] == 45u8 && s[13] == 45u8 && s[18] == 45u8 && s[23] == 45u8);
    lemma_hex_range(s, 0, 8);
    lemma_hex_range(s, 9, 13);
    lemma_hex_range(s, 14, 18);
    lemma_radix16_of_digits(s.subrange(0, 8), 0xffff_ffff);
    lemma_radix16_of_digits(s.subrange(9, 13), 0xffff);
    lemma_radix16_of_digits(s.subrange(14, 18), 0xffff);
    assert forall|k: int| 0 <= k < 8 implies {
        &&& #[trigger] text_field(s, fixed_data4_start(k), fixed_data4_start(k) + 2, 0xff) == Some(
            hex_num(s.subrange(fixed_data4_start(k), fixed_data4_start(k) + 2)),
        )
        &&& pair_of(parts[pair_part(k)], pair_offset(k)) == Ok::<nat, GuidError>(
            hex_num(s.subrange(fixed_data4_start(k), fixed_data4_start(k) + 2)),
        )
    } by {
        let a = fixed_data4_start(k);
        lemma_hex_range(s, a, a + 2);
        lemma_radix16_of_digits(s.subrange(a, a + 2), 0xff);
        let part = parts[pair_part(k)];
        let o = pair_offset(k);
        assert(part.subrange(o, o + 2) =~= s.subrange(a, a + 2));
        assert(part[o] == s[a]);
        if o + 2 < part.len() {
            assert(part[o + 2] == s[a + 2]);
        }
    }
    assert(pairs_error(parts, 8) is None) by {
        reveal_with_fuel(pairs_error, 9);
        assert(text_field(s, fixed_data4_start(0), fixed_data4_start(0) + 2, 0xff) is Some);
        assert(pair_of(parts[pair_part(0)], pair_offset(0)) is Ok);
        assert(text_field(s, fixed_data4_start(1), fixed_data4_start(1) + 2, 0xff) is Some);
        assert(pair_of(parts[pair_part(1)], pair_offset(1)) is Ok);
        assert(text_field(s, fixed_data4_start(2), fixed_data4_start(2) + 2, 0xff) is Some);
        assert(pair_of(parts[pair_part(2)], pair_offset(2)) is Ok);
        assert(text_field(s, fixed_data4_start(3), fixed_data4_start(3) + 2, 0xff) is Some);
        assert(pair_of(parts[pair_part(3)], pair_offset(3)) is Ok);
        assert(text_field(s, fixed_data4_start(4), fixed_data4_start(4) + 2, 0xff) is Some);
        assert(pair_of(parts[pair_part(4)], pair_offset(4)) is Ok);
        assert(text_field(s, fixed_data4_start(5), fixed_data4_start(5) + 2, 0xff) is Some);
        assert(pair_of(parts[pair_part(5)], pair_offset(5)) is Ok);
        assert(text_field(s, fixed_data4_start(6), fixed_data4_start(6) + 2, 0xff) is Some);
        assert(pair_of(parts[pair_part(6)], pair_offset(6)) is Ok);
        assert(text_field(s, fixed_data4_start(7), fixed_data4_start(7) + 2, 0xff) is Some);
        assert(pair_of(parts[pair_part(7)], pair_offset(7)) is Ok);
    }
}

/// The lower-case hexadecimal digit of `v`, for `v` below 16.
pub open spec fn lower_hex_digit(v: nat) -> u8 {
    if v < 10 {
        (48 + v) as u8
    } else {
        (87 + v) as u8
    }
}

/// `x` written with exactly `n` lower-case hexadecimal digits, most
/// significant first, leading zeros included.
pub open spec fn hex_text(x: nat, n: nat) -> Seq<u8>
    decreases n,
{
    if n == 0 {
        seq![]
    } else {
        hex_text(x / 16, (n - 1) as nat).push(lower_hex_digit(x % 16))
    }
}

/// The byte `b` with ASCII upper-case letters made lower-case.
pub open spec fn to_ascii_lower(b: u8) -> u8 {
    if 65 <= b <= 90 {
        (b + 32) as u8
    } else {
        b
    }
}

/// The text `s` with ASCII upper-case letters made lower-case.
pub open spec fn ascii_lowercase(s: Seq<u8>) -> Seq<u8> {
    s.map_values(|b: u8| to_ascii_lower(b))
}

/// The canonical lower-case text of `g`:
/// `xxxxxxxx-xxxx-xxxx-xxxx-xxxxxxxxxxxx`.
pub open spec fn guid_text(g: Guid) -> Seq<u8> {
    hex_text(g.data1 as nat, 8) + seq![45u8] + hex_text(g.data2 as nat, 4) + seq![45u8] + hex_text(
        g.data3 as nat,
        4,
    ) + seq![45u8] + hex_text(g.data4@[0] as nat, 2) + hex_text(g.data4@[1] as nat, 2) + seq![45u8]
        + hex_text(g.data4@[2] as nat, 2) + hex_text(g.data4@[3] as nat, 2) + hex_text(
        g.data4@[4] as nat,
        2,
    ) + hex_text(g.data4@[5] as nat, 2) + hex_text(g.data4@[6] as nat, 2) + hex_text(
        g.data4@[7] as nat,
        2,
    )
}

proof fn lemma_hex_text_of_digits(d: Seq<u8>)
    requires
        all_hex(d),
    ensures
        hex_text(hex_num(d), d.len()) == ascii_lowercase(d),
    decreases d.len(),
{
    if d.len() == 0 {
        assert(ascii_lowercase(d) =~= Seq::<u8>::empty());
    } else {
        let t = d.drop_last();
        let b = d.last();
        assert(all_hex(t)) by {
            assert forall|i: int| 0 <= i < t.len() implies is_hex_digit(#[trigger] t[i]) by {
                assert(t[i] == d[i]);
            }
        }
        assert(is_hex_digit(d[d.len() - 1]));
        lemma_hex_text_of_digits(t);
        let x = hex_num(d);
        let v = hex_digit_value(b);
        assert(v < 16);
        assert(x == hex_num(t) * 16 + v);
        assert(x / 16 == hex_num(t));
        assert(x % 16 == v);
        assert(lower_hex_digit(v) == to_ascii_lower(b));
        assert(ascii_lowercase(d) =~= ascii_lowercase(t).push(to_ascii_lower(b)));
    }
}

/// A GUID read from its canonical text gives that text back, in lower
/// case, when written out in canonical form.
pub proof fn lemma_canonical_guid_text_round_trip(s: Seq<u8>, g: Guid)
    requires
        is_canonical_guid_text(s),
        register_guid_matches(s, g),
    ensures
        guid_text(g) == ascii_lowercase(s),
{
    lemma_canonical_guid_read_alike(s);
    lemma_canonical_parts(s);
    let parts = split_dash(s);
    assert(pow16(2) == 256 && pow16(4) == 65536 && pow16(8) == 0x1_0000_0000) by {
        reveal_with_fuel(pow16, 9);
    }
    lemma_hex_range(s, 0, 8);
    lemma_hex_range(s, 9, 13);
    lemma_hex_range(s, 14, 18);
    lemma_radix16_of_digits(s.subrange(0, 8), 0xffff_ffff);
    lemma_radix16_of_digits(s.subrange(9, 13), 0xffff);
    lemma_radix16_of_digits(s.subrange(14, 18), 0xffff);
    lemma_hex_text_of_digits(s.subrange(0, 8));
    lemma_hex_text_of_digits(s.subrange(9, 13));
    lemma_hex_text_of_digits(s.subrange(14, 18));
    assert forall|k: int| 0 <= k < 8 implies #[trigger] hex_text(g.data4@[k] as nat, 2)
        == ascii_lowercase(s.subrange(fixed_data4_start(k), fixed_data4_start(k) + 2)) by {
        let a = fixed_data4_start(k);
        lemma_hex_range(s, a, a + 2);
        lemma_radix16_of_digits(s.subrange(a, a + 2), 0xff);
        let part = parts[pair_part(k)];
        let o = pair_offset(k);
        assert(part.subrange(o, o + 2) =~= s.subrange(a, a + 2));
        assert(part[o] == s[a]);
        if o + 2 < part.len() {
            assert(part[o + 2] == s[a + 2]);
        }
        assert(pair_of(part, o) == Ok::<nat, GuidError>(g.data4@[k] as nat));
        lemma_hex_text_of_digits(s.subrange(a, a + 2));
    }
    assert(s[8] == 45u8 && s[13] == 45u8 && s[18] == 45u8 && s[23] == 45u8);
    let pieces: Seq<Seq<u8>> = seq![
        s.subrange(0, 8),
        s.subrange(8, 9),
        s.subrange(9, 13),
        s.subrange(13, 14),
        s.subrange(14, 18),
        s.subrange(18, 19),
        s.subrange(19, 21),
        s.subrange(21, 23),
        s.subrange(23, 24),
        s.subrange(24, 26),
        s.subrange(26, 28),
        s.subrange(28, 30),
        s.subrange(30, 32),
        s.subrange(32, 34),
        s.subrange(34, 36),
    ];
    assert(hex_text(g.data4@[0] as nat, 2) == ascii_lowercase(s.subrange(19, 21)));
    assert(hex_text(g.data4@[1] as nat, 2) == ascii_lowercase(s.subrange(21, 23)));
    assert(hex_text(g.data4@[2] as nat, 2) == ascii_lowercase(s.subrange(24, 26)));
    assert(hex_text(g.data4@[3] as nat, 2) == ascii_lowercase(s.subrange(26, 28)));
    assert(hex_text(g.data4@[4] as nat, 2) == ascii_lowercase(s.subrange(28, 30)));
    assert(hex_text(g.data4@[5] as nat, 2) == ascii_lowercase(s.subrange(30, 32)));
    assert(hex_text(g.data4@[6] as nat, 2) == ascii_lowercase(s.subrange(32, 34)));
    assert(hex_text(g.data4@[7] as nat, 2) == ascii_lowercase(s.subrange(34, 36)));
    assert(seq![45u8] =~= ascii_lowercase(s.subrange(8, 9)));
    assert(seq![45u8] =~= ascii_lowercase(s.subrange(13, 14)));
    assert(seq![45u8] =~= ascii_lowercase(s.subrange(18, 19)));
    assert(seq![45u8] =~= ascii_lowercase(s.subrange(23, 24)));
    lemma_lowercase_pieces(s, pieces);
    assert(guid_text(g) =~= lowercase_concat(pieces));
}

/// The lower-cased pieces, one after the other.
pub open spec fn lowercase_concat(pieces: Seq<Seq<u8>>) -> Seq<u8>
    decreases pieces.len(),
{
    if pieces.len() == 0 {
        seq![]
    } else {
        lowercase_concat(pieces.drop_last()) + ascii_lowercase(pieces.last())
    }
}

/// The pieces, one after the other.
pub open spec fn concat_pieces(pieces: Seq<Seq<u8>>) -> Seq<u8>
    decreases pieces.len(),
{
    if pieces.len() == 0 {
        seq![]
    } else {
        concat_pieces(pieces.drop_last()) + pieces.last()
    }
}

proof fn lemma_lowercase_concat(pieces: Seq<Seq<u8>>)
    ensures
        lowercase_concat(pieces) == ascii_lowercase(concat_pieces(pieces)),
    decreases pieces.len(),
{
    if pieces.len() == 0 {
        assert(ascii_lowercase(Seq::<u8>::empty()) =~= Seq::<u8>::empty());
    } else {
        lemma_lowercase_concat(pieces.drop_last());
        let a = concat_pieces(pieces.drop_last());
        let b = pieces.last();
        assert(ascii_lowercase(a + b) =~= ascii_lowercase(a) + ascii_lowercase(b));
    }
}

proof fn lemma_lowercase_pieces(s: Seq<u8>, pieces: Seq<Seq<u8>>)
    requires
        s.len() == 36,
        pieces == seq![
            s.subrange(0, 8),
            s.subrange(8, 9),
            s.subrange(9, 13),
            s.subrange(13, 14),
            s.subrange(14, 18),
            s.subrange(18, 19),
            s.subrange(19, 21),
            s.subrange(21, 23),
            s.subrange(23, 24),
            s.subrange(24, 26),
            s.subrange(26, 28),
            s.subrange(28, 30),
            s.subrange(30, 32),
            s.subrange(32, 34),
            s.subrange(34, 36),
        ],
    ensures
        lowercase_concat(pieces) == ascii_lowercase(s),
{
    lemma_lowercase_concat(pieces);
    reveal_with_fuel(concat_pieces, 16);
    assert(concat_pieces(pieces) =~= s);
}

} // verus!
