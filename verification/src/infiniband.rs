//! Infiniband port values read from sysfs: the capability mask and the port GUID.
//!
//! The capability mask is a hexadecimal `u32` (such as `0xa751e848`); bit 10 of it
//! means "subnet manager disabled". The port GUID is read as eight `:`-separated
//! groups (`fe80:0000:0000:0000:e09d:7303:003f:3bf8`) and kept as `0x` followed by
//! the last four groups (`0xe09d7303003f3bf8`).
use crate::text::{
    lemma_trim_idempotent, lemma_lex_le_first_difference, lemma_lex_le_not_before_prefix, lemma_lex_total, lemma_lex_transitive, lex_le, chars_lex_le, chars_of, contains_bytes, contains_run, has_prefix, push_chars, push_str, split_chars, split_on,
    starts_with, string_from_chars, sub_chars, trim_chars, trimmed, utf8_len_is,
};
use vstd::prelude::*;
use vstd::utf8::encode_utf8;

verus! {

/// Why a text is not a number (the kinds that `u32::from_str_radix` reports).
#[derive(Clone, Copy, Debug, PartialEq, Eq, Structural)]
pub enum ParseIntError {
    /// The text is empty.
    Empty,
    /// A character is not a digit of the radix (also a lone `+` or `-`).
    InvalidDigit,
    /// The value does not fit in a `u32`.
    PosOverflow,
}

/// Errors of the port parsers.
#[derive(Clone, Debug)]
pub enum Error {
    /// The port GUID text (trimmed) is not eight `:`-separated four-byte groups starting with `fe80`.
    InvalidPortGuidString { guid: String },
    /// The capability mask text (as given) is not a hexadecimal `u32`.
    CapabilityCheck { mask: String, source: ParseIntError },
}

/// The value of a hexadecimal digit character, if it is one.
pub open spec fn hex_digit_value(c: char) -> Option<nat> {
    if '0' <= c <= '9' {
        Some((c as nat - '0' as nat) as nat)
    } else if 'a' <= c <= 'f' {
        Some((c as nat - 'a' as nat + 10) as nat)
    } else if 'A' <= c <= 'F' {
        Some((c as nat - 'A' as nat + 10) as nat)
    } else {
        None
    }
}

/// Every character of `d` is a hexadecimal digit.
pub open spec fn all_hex_digits(d: Seq<char>) -> bool {
    forall|i: int| 0 <= i < d.len() ==> (#[trigger] hex_digit_value(d[i])) is Some
}

/// The number written by the hexadecimal digits `d` (most significant first).
pub open spec fn hex_value(d: Seq<char>) -> nat
    decreases d.len(),
{
    if d.len() == 0 {
        0
    } else {
        hex_value(d.drop_last()) * 16 + match hex_digit_value(d.last()) {
            Some(v) => v,
            None => 0,
        }
    }
}

/// Reads the digits `d` from left to right as `u32::from_str_radix(_, 16)`
/// does, stopping at the first invalid digit or at the first overflow.
pub open spec fn scan_hex(d: Seq<char>) -> Result<nat, ParseIntError>
    decreases d.len(),
{
    if d.len() == 0 {
        Ok(0)
    } else {
        match scan_hex(d.drop_last()) {
            Err(e) => Err(e),
            Ok(acc) => match hex_digit_value(d.last()) {
                None => Err(ParseIntError::InvalidDigit),
                Some(v) => if acc * 16 + v > u32::MAX {
                    Err(ParseIntError::PosOverflow)
                } else {
                    Ok(acc * 16 + v)
                },
            },
        }
    }
}

/// What `u32::from_str_radix(s, 16)` returns: an empty text is `Empty`, a
/// lone sign is `InvalidDigit`, one leading `+` is skipped, and the digits are
/// then read from left to right.
pub open spec fn from_str_radix_16(s: Seq<char>) -> Result<u32, ParseIntError> {
    if s.len() == 0 {
        Err(ParseIntError::Empty)
    } else if (s[0] == '+' || s[0] == '-') && s.len() == 1 {
        Err(ParseIntError::InvalidDigit)
    } else {
        let d = if s[0] == '+' { s.drop_first() } else { s };
        match scan_hex(d) {
            Ok(v) => Ok(v as u32),
            Err(e) => Err(e),
        }
    }
}

/// `s` without one leading `0x`, if it has one.
pub open spec fn strip_0x(s: Seq<char>) -> Seq<char> {
    if has_prefix(s, seq!['0', 'x']) {
        s.skip(2)
    } else {
        s
    }
}

/// The digits that remain of a text after the `0x` and one `+` are taken off.
pub open spec fn hex_digits_of(s: Seq<char>) -> Seq<char> {
    let t = strip_0x(s);
    if t.len() > 0 && t[0] == '+' { t.drop_first() } else { t }
}

/// Reading the digits succeeds exactly when they are all hexadecimal digits and
/// their value fits in a `u32`; the value read is then their value.
pub proof fn lemma_scan_hex(d: Seq<char>)
    ensures
        (scan_hex(d) is Ok) == (all_hex_digits(d) && hex_value(d) <= u32::MAX),
        scan_hex(d) is Ok ==> scan_hex(d) == Ok::<nat, ParseIntError>(hex_value(d)),
    decreases d.len(),
{
    if d.len() > 0 {
        let p = d.drop_last();
        lemma_scan_hex(p);
        assert forall|i: int| 0 <= i < p.len() implies p[i] == d[i] by {}
        if all_hex_digits(d) {
            assert forall|i: int| 0 <= i < p.len() implies (#[trigger] hex_digit_value(p[i])) is Some by {
                assert(hex_digit_value(d[i]) is Some);
            }
            assert(hex_digit_value(d[d.len() - 1]) is Some);
        }
        if scan_hex(d) is Ok {
            assert forall|i: int| 0 <= i < d.len() implies (#[trigger] hex_digit_value(d[i])) is Some by {
                if i < p.len() {
                    assert(hex_digit_value(p[i]) is Some);
                }
            }
        }
    }
}

/// Once reading stops with an error, more digits after it change nothing.
proof fn lemma_scan_err_extends(d: Seq<char>, k: int)
    requires
        0 <= k <= d.len(),
        scan_hex(d.take(k)) is Err,
    ensures
        scan_hex(d) == scan_hex(d.take(k)),
    decreases d.len() - k,
{
    if k < d.len() {
        assert(d.take(k + 1).drop_last() =~= d.take(k));
        lemma_scan_err_extends(d, k + 1);
    } else {
        assert(d.take(k) =~= d);
    }
}

fn hex_digit(c: char) -> (r: Option<u32>)
    ensures
        match hex_digit_value(c) {
            Some(v) => r == Some(v as u32),
            None => r is None,
        },
{
    if '0' <= c && c <= '9' {
        Some((c as u32) - ('0' as u32))
    } else if 'a' <= c && c <= 'f' {
        Some((c as u32) - ('a' as u32) + 10)
    } else if 'A' <= c && c <= 'F' {
        Some((c as u32) - ('A' as u32) + 10)
    } else {
        None
    }
}

/// `u32::from_str_radix(text, 16)` on the characters of `s`.
#[verifier::spinoff_prover]
pub fn u32_from_hex_chars(s: &[char]) -> (r: Result<u32, ParseIntError>)
    ensures
        r == from_str_radix_16(s@),
{
    let n = s.len();
    if n == 0 {
        return Err(ParseIntError::Empty);
    }
    if (s[0] == '+' || s[0] == '-') && n == 1 {
        return Err(ParseIntError::InvalidDigit);
    }
    let start: usize = if s[0] == '+' { 1 } else { 0 };
    let ghost d = if s@[0] == '+' { s@.drop_first() } else { s@ };
    assert(d =~= s@.subrange(start as int, n as int));
    let mut acc: u32 = 0;
    let mut i: usize = start;
    while i < n
        invariant
            n == s@.len(),
            start <= i <= n,
            d == s@.subrange(start as int, n as int),
            n > 0,
            !((s@[0] == '+' || s@[0] == '-') && n == 1),
            d == (if s@[0] == '+' { s@.drop_first() } else { s@ }),
            scan_hex(d.take(i - start)) == Ok::<nat, ParseIntError>(acc as nat),
        decreases n - i,
    {
        let ghost pre = d.take(i - start);
        assert(d.take(i - start + 1).drop_last() =~= pre);
        assert(d.take(i - start + 1).last() == s@[i as int]);
        match hex_digit(s[i]) {
            None => {
                proof {
                    assert(scan_hex(d.take(i - start + 1)) == Err::<nat, ParseIntError>(ParseIntError::InvalidDigit));
                    lemma_scan_err_extends(d, i - start + 1);
                    assert(scan_hex(d) == Err::<nat, ParseIntError>(ParseIntError::InvalidDigit));
                }
                return Err(ParseIntError::InvalidDigit);
            },
            Some(v) => {
                if acc > (u32::MAX - v) / 16 {
                    assert(acc * 16 + v > u32::MAX) by (nonlinear_arith)
                        requires
                            acc > (u32::MAX - v) / 16,
                            v < 16,
                    ;
                    proof {
                        lemma_scan_err_extends(d, i - start + 1);
                    }
                    return Err(ParseIntError::PosOverflow);
                }
                assert(acc * 16 + v <= u32::MAX) by (nonlinear_arith)
                    requires
                        acc <= (u32::MAX - v) / 16,
                        v < 16,
                ;
                acc = acc * 16 + v;
            },
        }
        i = i + 1;
    }
    assert(d.take(n - start) =~= d);
    Ok(acc)
}

/// Converts a capability mask text such as `0xa750e84a` to its value: one
/// leading `0x` is dropped, the rest is read by `u32::from_str_radix(_, 16)`.
pub fn hex_string_to_u32(hex: &str) -> (r: Result<u32, ParseIntError>)
    ensures
        r == from_str_radix_16(strip_0x(hex@)),
        r is Ok <==> hex_digits_of(hex@).len() > 0 && all_hex_digits(hex_digits_of(hex@))
            && hex_value(hex_digits_of(hex@)) <= u32::MAX && !(strip_0x(hex@).len() > 0 && strip_0x(hex@)[0] == '-'),
        r matches Ok(v) ==> v == hex_value(hex_digits_of(hex@)),
{
    let v = chars_of(hex);
    let prefix = ['0', 'x'];
    let r = if starts_with(v.as_slice(), &prefix) {
        let rest = sub_chars(v.as_slice(), 2, v.len());
        assert(rest@ =~= v@.skip(2));
        u32_from_hex_chars(rest.as_slice())
    } else {
        u32_from_hex_chars(v.as_slice())
    };
    proof {
        let t = strip_0x(hex@);
        let d = hex_digits_of(hex@);
        if t.len() > 0 && t[0] != '+' {
            lemma_scan_hex(t);
            if t[0] == '-' {
                assert(hex_digit_value(t[0]) is None);
            }
        } else if t.len() > 0 {
            lemma_scan_hex(d);
        }
    }
    r
}


/// Capability mask of an Infiniband port.
#[derive(Clone, Copy, Debug, PartialEq, Eq, PartialOrd, Ord, Structural)]
pub struct CapabilityMask(pub u32);

impl CapabilityMask {
    /// Parses a capability mask text: surrounding white space is ignored, the
    /// rest is read by [`hex_string_to_u32`]; a failure reports the text as given.
    pub fn from_str(s: &str) -> (r: Result<CapabilityMask, Error>)
        ensures
            match from_str_radix_16(strip_0x(trimmed(s@))) {
                Ok(v) => r matches Ok(m) && m.0 == v,
                Err(e) => r matches Err(Error::CapabilityCheck { mask, source }) && mask@ == s@
                    && source == e,
            },
    {
        let v = chars_of(s);
        let t = trim_chars(v.as_slice());
        let ts = string_from_chars(t.as_slice());
        match hex_string_to_u32(ts.as_str()) {
            Ok(m) => Ok(CapabilityMask(m)),
            Err(e) => {
                let mut mask = String::new();
                push_str(&mut mask, s);
                Err(Error::CapabilityCheck { mask, source: e })
            },
        }
    }

    /// The mask's value.
    pub fn value(&self) -> (v: u32)
        ensures
            v == self.0,
    {
        self.0
    }
}

impl core::ops::Deref for CapabilityMask {
    type Target = u32;

    fn deref(&self) -> (r: &u32)
        ensures
            *r == self.0,
    {
        &self.0
    }
}

/// The port GUID that a sysfs GUID text stands for, if it is well formed: the
/// text without surrounding white space must start with `fe80` and consist of
/// eight `:`-separated groups of four bytes each; the GUID is `0x` followed by
/// the last four groups.
pub open spec fn port_guid_of(s: Seq<char>) -> Option<Seq<char>> {
    let t = trimmed(s);
    let parts = split_on(t, ':');
    if has_prefix(t, seq!['f', 'e', '8', '0']) && parts.len() == 8 && forall|i: int|
        0 <= i < 8 ==> #[trigger] encode_utf8(parts[i]).len() == 4 {
        Some(seq!['0', 'x'] + parts[4] + parts[5] + parts[6] + parts[7])
    } else {
        None
    }
}

/// Primary port GUID of an Infiniband port, kept as `0x` and sixteen digits.
#[derive(Clone, Debug, PartialEq, Eq, PartialOrd, Ord)]
pub struct PortGuid(pub String);

impl PortGuid {
    /// Parses a GUID text such as `fe80:0000:0000:0000:e09d:7303:003f:3bf8`
    /// into `0xe09d7303003f3bf8`; a malformed text is reported trimmed.
    pub fn from_str(s: &str) -> (r: Result<PortGuid, Error>)
        ensures
            match port_guid_of(s@) {
                Some(g) => r matches Ok(p) && p.0@ == g,
                None => r matches Err(Error::InvalidPortGuidString { guid }) && guid@ == trimmed(s@),
            },
    {
        let v = chars_of(s);
        let t = trim_chars(v.as_slice());
        let fe80 = ['f', 'e', '8', '0'];
        if !starts_with(t.as_slice(), &fe80) {
            return Err(Error::InvalidPortGuidString { guid: string_from_chars(t.as_slice()) });
        }
        let parts = split_chars(t.as_slice(), ':');
        if parts.len() != 8 {
            return Err(Error::InvalidPortGuidString { guid: string_from_chars(t.as_slice()) });
        }
        let mut i: usize = 0;
        while i < 8
            invariant
                parts@.len() == 8,
                t@ == trimmed(s@),
                parts@.len() == split_on(t@, ':').len(),
                forall|k: int| 0 <= k < 8 ==> #[trigger] parts@[k]@ == split_on(t@, ':')[k],
                i <= 8,
                forall|k: int| 0 <= k < i ==> #[trigger] encode_utf8(split_on(t@, ':')[k]).len() == 4,
            decreases 8 - i,
        {
            if !utf8_len_is(parts[i].as_slice(), 4) {
                return Err(Error::InvalidPortGuidString { guid: string_from_chars(t.as_slice()) });
            }
            i = i + 1;
        }
        let mut out = String::new();
        push_chars(&mut out, &['0', 'x']);
        push_chars(&mut out, parts[4].as_slice());
        push_chars(&mut out, parts[5].as_slice());
        push_chars(&mut out, parts[6].as_slice());
        push_chars(&mut out, parts[7].as_slice());
        Ok(PortGuid(out))
    }

    /// The GUID text.
    pub fn as_str(&self) -> (r: &str)
        ensures
            r@ == self.0@,
    {
        self.0.as_str()
    }
}

impl core::ops::Deref for PortGuid {
    type Target = String;

    fn deref(&self) -> (r: &String)
        ensures
            r@ == self.0@,
    {
        &self.0
    }
}

/// Bit 10 of a capability mask is the "subnet management disabled" flag.
pub open spec fn sm_disabled_bit(mask: u32) -> bool {
    (mask / 1024) % 2 == 1
}

/// The two values of an Infiniband port that matter for subnet management.
#[derive(Clone, Debug, PartialEq, Eq, PartialOrd, Ord)]
pub struct InfinibandPort {
    /// Capability mask, read as text such as `0xa751e848`.
    pub capability_mask: CapabilityMask,
    /// Primary (first enumerated) port GUID.
    pub port_guid: PortGuid,
}

impl InfinibandPort {
    /// Subnet management is enabled when the "SM disabled" bit (bit 10) is clear.
    pub fn is_sm_enabled(&self) -> (r: bool)
        ensures
            r == !sm_disabled_bit(self.capability_mask.0),
            r == (self.capability_mask.0 & 0x400 == 0),
    {
        let m = self.capability_mask.0;
        assert((m & 0x400 == 0) == ((m / 1024) % 2 == 0)) by (bit_vector);
        (m & 0x400u32) == 0
    }

    /// Builds a port from the texts of its `cap_mask` and `gids/0` sysfs files;
    /// the capability mask is checked first.
    pub fn from_sysfs(capability_mask: &str, first_guid: &str) -> (r: Result<InfinibandPort, Error>)
        ensures
            match (from_str_radix_16(strip_0x(trimmed(capability_mask@))), port_guid_of(first_guid@)) {
                (Ok(m), Some(g)) => r matches Ok(p) && p.capability_mask.0 == m && p.port_guid.0@ == g,
                (Err(e), _) => r matches Err(Error::CapabilityCheck { mask, source })
                    && mask@ == capability_mask@ && source == e,
                (Ok(_), None) => r matches Err(Error::InvalidPortGuidString { guid })
                    && guid@ == trimmed(first_guid@),
            },
    {
        let mask = CapabilityMask::from_str(capability_mask)?;
        let guid = PortGuid::from_str(first_guid)?;
        Ok(InfinibandPort { capability_mask: mask, port_guid: guid })
    }
}

/// The marker that the Vital Product Data of a software-managed device holds.
pub open spec fn sw_mng_marker() -> Seq<u8> {
    seq![0x53u8, 0x57u8, 0x5Fu8, 0x4Du8, 0x4Eu8, 0x47u8]
}

/// An Infiniband device found in sysfs.
#[derive(Clone, Debug)]
pub struct InfinibandDevice {
    /// Directory name of the device under the infiniband class.
    pub name: String,
    /// Ports of the device.
    pub ports: Vec<InfinibandPort>,
}

impl InfinibandDevice {
    /// Whether the device is software managed, given the bytes of its `device/vpd`
    /// file (`None` when the file does not exist): it is when they hold `SW_MNG`.
    pub fn is_device_sw_mng(&self, vpd: Option<&[u8]>) -> (r: bool)
        ensures
            r == (vpd matches Some(b) && contains_run(b@, sw_mng_marker())),
    {
        match vpd {
            None => false,
            Some(bytes) => {
                let needle: [u8; 6] = [0x53u8, 0x57u8, 0x5Fu8, 0x4Du8, 0x4Eu8, 0x47u8];
                assert(needle@ =~= sw_mng_marker());
                contains_bytes(bytes, &needle)
            },
        }
    }
}

/// The devices are in order of their names.
pub open spec fn sorted_by_name(d: Seq<InfinibandDevice>) -> bool {
    forall|i: int, j: int| 0 <= i < j < d.len() ==> lex_le(#[trigger] d[i].name@, #[trigger] d[j].name@)
}

/// The devices in order of their names (code point order, the byte order of
/// the names' UTF-8); devices with equal names keep their order.
pub fn sort_devices(devices: Vec<InfinibandDevice>) -> (r: Vec<InfinibandDevice>)
    ensures
        sorted_by_name(r@),
        r@.to_multiset() == devices@.to_multiset(),
{
    broadcast use vstd::seq_lib::group_to_multiset_ensures;
    let ghost orig = devices@;
    let mut rest = devices;
    let mut out: Vec<InfinibandDevice> = Vec::new();
    let ghost mut taken: int = 0;
    while rest.len() > 0
        invariant
            orig.skip(taken) == rest@,
            0 <= taken <= orig.len(),
            sorted_by_name(out@),
            out@.to_multiset() == orig.take(taken).to_multiset(),
        decreases rest@.len(),
    {
        let x = rest.remove(0);
        let ghost xs = orig.take(taken);
        assert(x == orig[taken]);
        assert(orig.take(taken + 1) =~= xs.push(x));
        assert(rest@ =~= orig.skip(taken + 1));
        let xn = chars_of(x.name.as_str());
        // the first position whose device comes strictly after `x`
        let mut p: usize = 0;
        let mut found = false;
        while p < out.len() && !found
            invariant
                p <= out@.len(),
                xn@ == x.name@,
                forall|k: int| 0 <= k < p ==> lex_le(#[trigger] out@[k].name@, x.name@),
                found ==> p < out@.len() && !lex_le(out@[p as int].name@, x.name@),
            decreases out@.len() - p + (if found { 0int } else { 1int }),
        {
            let on = chars_of(out[p].name.as_str());
            if chars_lex_le(on.as_slice(), xn.as_slice()) {
                p = p + 1;
            } else {
                found = true;
            }
        }
        let ghost old_out = out@;
        proof {
            if p < old_out.len() {
                assert(!lex_le(old_out[p as int].name@, x.name@));
                lemma_lex_total(old_out[p as int].name@, x.name@);
                assert forall|k: int| p <= k < old_out.len() implies lex_le(x.name@, #[trigger] old_out[k].name@) by {
                    if k > p {
                        lemma_lex_transitive(x.name@, old_out[p as int].name@, old_out[k].name@);
                    }
                }
            }
        }
        out.insert(p, x);
        proof {
            let n = out@;
            assert(n =~= old_out.insert(p as int, x));
            assert forall|i: int, j: int| 0 <= i < j < n.len() implies lex_le(#[trigger] n[i].name@, #[trigger] n[j].name@) by {
                if j < p {
                    assert(n[i] == old_out[i] && n[j] == old_out[j]);
                } else if j == p {
                    assert(n[i] == old_out[i]);
                } else if i == p {
                    assert(n[j] == old_out[j - 1]);
                } else if i < p {
                    assert(n[i] == old_out[i] && n[j] == old_out[j - 1]);
                } else {
                    assert(n[i] == old_out[i - 1] && n[j] == old_out[j - 1]);
                }
            }
            vstd::seq_lib::to_multiset_insert(old_out, p as int, x);
            vstd::seq_lib::to_multiset_build(xs, x);
            taken = taken + 1;
        }
    }
    assert(orig.take(taken) =~= orig);
    out
}

/// Sorted devices are in plain lexicographic order of their names: where the
/// names of an earlier and a later device first differ, the earlier name has
/// the smaller code point (so `mlx5_10` comes before `mlx5_2`).
pub proof fn lemma_sorted_names_first_difference(d: Seq<InfinibandDevice>, i: int, j: int, k: int)
    requires
        sorted_by_name(d),
        0 <= i < j < d.len(),
        0 <= k < d[i].name@.len(),
        k < d[j].name@.len(),
        forall|m: int| 0 <= m < k ==> (d[i].name@[m] as u32) == (d[j].name@[m] as u32),
        (d[i].name@[k] as u32) != (d[j].name@[k] as u32),
    ensures
        (d[i].name@[k] as u32) < (d[j].name@[k] as u32),
{
    assert(lex_le(d[i].name@, d[j].name@));
    lemma_lex_le_first_difference(d[i].name@, d[j].name@, k);
}

/// In sorted devices, a name never comes after a longer name that starts with
/// it (so `mlx5_1` comes before `mlx5_10`).
pub proof fn lemma_sorted_names_prefix_first(d: Seq<InfinibandDevice>, i: int, j: int)
    requires
        sorted_by_name(d),
        0 <= i < j < d.len(),
        d[j].name@.len() < d[i].name@.len(),
    ensures
        exists|m: int| 0 <= m < d[j].name@.len() && (d[i].name@[m] as u32) != (d[j].name@[m] as u32),
{
    assert(lex_le(d[i].name@, d[j].name@));
    if forall|m: int| 0 <= m < d[j].name@.len() ==> (d[i].name@[m] as u32) == (d[j].name@[m] as u32) {
        lemma_lex_le_not_before_prefix(d[i].name@, d[j].name@);
    }
}

/// White space around a port GUID text or a capability mask text does not
/// change how it is read.
pub proof fn lemma_parsers_ignore_surrounding_white_space(s: Seq<char>)
    ensures
        port_guid_of(trimmed(s)) == port_guid_of(s),
        from_str_radix_16(strip_0x(trimmed(trimmed(s)))) == from_str_radix_16(strip_0x(trimmed(s))),
{
    lemma_trim_idempotent(s);
}

/// The `0x` before a capability mask is optional: with or without it the
/// digits read the same.
pub proof fn lemma_hex_prefix_optional(d: Seq<char>)
    requires
        !has_prefix(d, seq!['0', 'x']),
    ensures
        from_str_radix_16(strip_0x(seq!['0', 'x'] + d)) == from_str_radix_16(strip_0x(d)),
{
    let t = seq!['0', 'x'] + d;
    assert(t.subrange(0, 2) =~= seq!['0', 'x']);
    assert(t.skip(2) =~= d);
}

/// The hexadecimal digit for `d` (below 16), upper-case or lower-case.
pub open spec fn hex_digit_char(d: nat, upper: bool) -> char {
    if d < 10 {
        ((d + 48) as u32) as char
    } else if upper {
        ((d + 55) as u32) as char
    } else {
        ((d + 87) as u32) as char
    }
}

/// The hexadecimal digits of `n` in the given case, without leading zeros (`0`
/// for zero), as `{:X}` or `{:x}` formats a number.
pub open spec fn hex_text(n: nat, upper: bool) -> Seq<char>
    decreases n,
{
    if n < 16 {
        seq![hex_digit_char(n, upper)]
    } else {
        hex_text(n / 16, upper).push(hex_digit_char(n % 16, upper))
    }
}

/// The lower-case hexadecimal digit for `d` (below 16).
pub open spec fn lower_hex_digit(d: nat) -> char {
    hex_digit_char(d, false)
}

/// The lower-case hexadecimal digits of `n` (`{:x}`).
pub open spec fn lower_hex(n: nat) -> Seq<char> {
    hex_text(n, false)
}

/// The upper-case hexadecimal digits of `n` (`{:X}`).
pub open spec fn upper_hex(n: nat) -> Seq<char> {
    hex_text(n, true)
}

/// `k` zero digits.
pub open spec fn zero_digits(k: nat) -> Seq<char> {
    Seq::new(k, |i: int| '0')
}

/// Digits are read in either case: an upper-case digit has the value of its
/// lower-case form.
pub proof fn lemma_hex_digit_either_case(d: nat)
    requires
        d < 16,
    ensures
        hex_digit_value(hex_digit_char(d, true)) == Some(d),
        hex_digit_value(hex_digit_char(d, false)) == Some(d),
{
}

proof fn lemma_hex_text_value(n: nat, upper: bool)
    ensures
        all_hex_digits(hex_text(n, upper)),
        hex_value(hex_text(n, upper)) == n,
        hex_text(n, upper).len() > 0,
        hex_digit_value(hex_text(n, upper)[0]) is Some,
    decreases n,
{
    if n < 16 {
        lemma_hex_digit_either_case(n);
        assert(hex_text(n, upper).drop_last() =~= Seq::<char>::empty());
        assert(hex_text(n, upper).last() == hex_digit_char(n, upper));
        assert(hex_value(hex_text(n, upper)) == hex_value(Seq::<char>::empty()) * 16 + n);
    } else {
        let p = hex_text(n / 16, upper);
        lemma_hex_text_value(n / 16, upper);
        lemma_hex_digit_either_case(n % 16);
        let d = hex_text(n, upper);
        assert(d.drop_last() =~= p);
        assert(d[0] == p[0]);
        assert forall|i: int| 0 <= i < d.len() implies (#[trigger] hex_digit_value(d[i])) is Some by {
            if i < p.len() {
                assert(d[i] == p[i]);
                assert(hex_digit_value(p[i]) is Some);
            }
        }
        assert(d.last() == hex_digit_char(n % 16, upper));
        assert(hex_value(d) == hex_value(p) * 16 + n % 16);
        assert(n == (n / 16) * 16 + n % 16) by (nonlinear_arith);
    }
}

proof fn lemma_lower_hex_value(n: nat)
    ensures
        all_hex_digits(lower_hex(n)),
        hex_value(lower_hex(n)) == n,
        lower_hex(n).len() > 0,
        hex_digit_value(lower_hex(n)[0]) is Some,
{
    lemma_hex_text_value(n, false);
}

proof fn lemma_leading_zeros(k: nat, d: Seq<char>)
    requires
        all_hex_digits(d),
    ensures
        all_hex_digits(zero_digits(k) + d),
        hex_value(zero_digits(k) + d) == hex_value(d),
    decreases k + d.len(),
{
    let t = zero_digits(k) + d;
    assert forall|i: int| 0 <= i < t.len() implies (#[trigger] hex_digit_value(t[i])) is Some by {
        if i >= k {
            assert(t[i] == d[i - k]);
        }
    }
    if d.len() > 0 {
        let p = d.drop_last();
        assert(all_hex_digits(p)) by {
            assert forall|i: int| 0 <= i < p.len() implies (#[trigger] hex_digit_value(p[i])) is Some by {
                assert(p[i] == d[i]);
            }
        }
        lemma_leading_zeros(k, p);
        assert(t.drop_last() =~= zero_digits(k) + p);
        assert(t.last() == d.last());
    } else if k > 0 {
        assert(t =~= zero_digits(k));
        assert(t.drop_last() =~= zero_digits((k - 1) as nat) + d);
        lemma_leading_zeros((k - 1) as nat, d);
    } else {
        assert(t =~= d);
    }
}

proof fn lemma_hex_text_roundtrip(v: u32, zeros: nat, upper: bool)
    ensures
        from_str_radix_16(strip_0x(zero_digits(zeros) + hex_text(v as nat, upper))) == Ok::<u32, ParseIntError>(v),
        from_str_radix_16(strip_0x(seq!['0', 'x'] + zero_digits(zeros) + hex_text(v as nat, upper))) == Ok::<
            u32,
            ParseIntError,
        >(v),
{
    let h = hex_text(v as nat, upper);
    let d = zero_digits(zeros) + h;
    lemma_hex_text_value(v as nat, upper);
    lemma_leading_zeros(zeros, h);
    lemma_scan_hex(d);
    assert(d.len() > 0);
    assert(hex_digit_value(d[0]) is Some) by {
        if zeros == 0 {
            assert(d[0] == h[0]);
        }
    }
    // `d` does not start with `0x`: its second character, if any, is a digit
    if d.len() >= 2 {
        assert(hex_digit_value(d[1]) is Some);
    }
    assert(strip_0x(d) == d);
    let t = seq!['0', 'x'] + d;
    assert(seq!['0', 'x'] + zero_digits(zeros) + h =~= t);
    assert(t.subrange(0, 2) =~= seq!['0', 'x']);
    assert(t.skip(2) =~= d);
}

/// A `u32` formatted in hexadecimal reads back as itself: its lower-case digits
/// (`{:x}`), after any number of leading zeros (`{:08x}`), with or without a
/// `0x` before them (`{:#x}`, `0x{:08x}`), are what `hex_string_to_u32` turns
/// into the same `u32`.
pub proof fn lemma_hex_roundtrip(v: u32, zeros: nat)
    ensures
        from_str_radix_16(strip_0x(zero_digits(zeros) + lower_hex(v as nat))) == Ok::<u32, ParseIntError>(v),
        from_str_radix_16(strip_0x(seq!['0', 'x'] + zero_digits(zeros) + lower_hex(v as nat))) == Ok::<u32, ParseIntError>(v),
{
    lemma_lower_hex_value(v as nat);
    lemma_hex_text_roundtrip(v, zeros, false);
}

/// The same holds of upper-case digits (`{:X}`, `{:08X}`, `{:#X}`): digits are
/// read in either case.
pub proof fn lemma_hex_roundtrip_upper(v: u32, zeros: nat)
    ensures
        from_str_radix_16(strip_0x(zero_digits(zeros) + upper_hex(v as nat))) == Ok::<u32, ParseIntError>(v),
        from_str_radix_16(strip_0x(seq!['0', 'x'] + zero_digits(zeros) + upper_hex(v as nat))) == Ok::<u32, ParseIntError>(v),
{
    lemma_hex_text_roundtrip(v, zeros, true);
}

} // verus!
