//! How the store names its entries: decimal numbers, hyphenated UUIDs,
//! protocol addresses and sender-key names, all as byte strings.

use vstd::prelude::*;

verus! {

/// The byte of the ASCII digit `d` (for `d < 10`).
pub open spec fn digit_byte(d: nat) -> u8 {
    (48 + d) as u8
}

/// The decimal text of `n`, without sign and without leading zeros.
pub open spec fn decimal(n: nat) -> Seq<u8>
    decreases n,
{
    if n < 10 {
        seq![digit_byte(n)]
    } else {
        decimal(n / 10).push(digit_byte(n % 10))
    }
}

pub open spec fn is_digit(b: u8) -> bool {
    48 <= b <= 57
}

pub open spec fn all_digits(s: Seq<u8>) -> bool {
    forall|i: int| 0 <= i < s.len() ==> #[trigger] is_digit(s[i])
}

/// The number that a string of decimal digits denotes.
pub open spec fn digits_value(s: Seq<u8>) -> nat
    decreases s.len(),
{
    if s.len() == 0 {
        0
    } else {
        digits_value(s.drop_last()) * 10 + (s.last() - 48) as nat
    }
}

/// The digits that `u32`'s parser reads: an optional leading `+` is dropped
/// when something follows it.
pub open spec fn unsigned_digits(s: Seq<u8>) -> Seq<u8> {
    if s.len() >= 2 && s[0] == 43u8 {
        s.drop_first()
    } else {
        s
    }
}

/// What parsing `s` as a `u32` gives: a non-empty run of decimal digits,
/// optionally after one `+`, whose value fits in 32 bits.
pub open spec fn parse_u32(s: Seq<u8>) -> Option<u32> {
    let d = unsigned_digits(s);
    if d.len() > 0 && all_digits(d) && digits_value(d) <= u32::MAX {
        Some(digits_value(d) as u32)
    } else {
        None
    }
}

/// The byte of the lower-case hexadecimal digit `d` (for `d < 16`).
pub open spec fn hex_byte(d: nat) -> u8 {
    if d < 10 {
        (48 + d) as u8
    } else {
        (87 + d) as u8
    }
}

/// The text of the first `n` bytes of a UUID in its hyphenated form: two
/// lower-case hexadecimal digits per byte, and a hyphen before bytes 4, 6, 8
/// and 10.
pub open spec fn uuid_text_upto(bytes: Seq<u8>, n: nat) -> Seq<u8>
    decreases n,
{
    if n == 0 {
        seq![]
    } else {
        let i = (n - 1) as nat;
        let sep: Seq<u8> = if i == 4 || i == 6 || i == 8 || i == 10 {
            seq![45u8]
        } else {
            seq![]
        };
        uuid_text_upto(bytes, i) + sep + seq![hex_byte(bytes[i as int] as nat / 16), hex_byte(bytes[i as int] as nat % 16)]
    }
}

/// A UUID, as its sixteen bytes in network order.
#[derive(Debug, Clone, Copy, PartialEq, Eq)]
pub struct Uuid {
    pub bytes: [u8; 16],
}

impl Uuid {
    /// The hyphenated lower-case text of the UUID, such as
    /// `67e55044-10b1-426f-9247-bb680e5fe0c8`.
    pub open spec fn text(self) -> Seq<u8> {
        uuid_text_upto(self.bytes@, 16)
    }
}

/// Appends `bytes` to `out`.
pub fn append_bytes(out: &mut Vec<u8>, bytes: &[u8])
    ensures
        final(out)@ == old(out)@ + bytes@,
{
    let mut i: usize = 0;
    while i < bytes.len()
        invariant
            i <= bytes@.len(),
            out@ == old(out)@ + bytes@.subrange(0, i as int),
        decreases bytes@.len() - i,
    {
        out.push(bytes[i]);
        i = i + 1;
        assert(out@ == old(out)@ + bytes@.subrange(0, i as int));
    }
    assert(bytes@.subrange(0, bytes@.len() as int) == bytes@);
}

/// Appends the decimal text of `n` to `out`.
pub fn append_decimal(out: &mut Vec<u8>, n: u32)
    ensures
        final(out)@ == old(out)@ + decimal(n as nat),
    decreases n,
{
    if n >= 10 {
        append_decimal(out, n / 10);
    }
    let d: u8 = (n % 10) as u8;
    out.push(48u8 + d);
    assert(out@ == old(out)@ + decimal(n as nat));
}

/// The decimal text of `n`.
pub fn decimal_bytes(n: u32) -> (r: Vec<u8>)
    ensures
        r@ == decimal(n as nat),
{
    let mut out: Vec<u8> = Vec::new();
    append_decimal(&mut out, n);
    assert(out@ == decimal(n as nat));
    out
}


/// The digits of a decimal text are digits, and they denote the number.
pub proof fn lemma_decimal_digits(n: nat)
    ensures
        decimal(n).len() > 0,
        all_digits(decimal(n)),
        digits_value(decimal(n)) == n,
        is_digit(decimal(n)[0]),
    decreases n,
{
    if n >= 10 {
        lemma_decimal_digits(n / 10);
        let s = decimal(n);
        assert(s.drop_last() == decimal(n / 10));
        assert forall|i: int| 0 <= i < s.len() implies #[trigger] is_digit(s[i]) by {
            if i < s.len() - 1 {
                assert(s[i] == decimal(n / 10)[i]);
            }
        }
        assert(s[0] == decimal(n / 10)[0]);
        assert(s.last() == digit_byte(n % 10));
        assert(n == (n / 10) * 10 + n % 10) by (nonlinear_arith);
        assert(digit_byte(n % 10) as int == 48 + n % 10);
        assert(digits_value(s) == digits_value(s.drop_last()) * 10 + (s.last() - 48) as nat);
    } else {
        assert(decimal(n).drop_last() == Seq::<u8>::empty());
        assert(digit_byte(n) as int == 48 + n);
        assert(digits_value(decimal(n)) == digits_value(decimal(n).drop_last()) * 10 + (decimal(n).last() - 48) as nat);
    }
}

/// Reading back the decimal text of a number gives the number.
pub proof fn lemma_parse_decimal(n: u32)
    ensures
        parse_u32(decimal(n as nat)) == Some(n),
{
    lemma_decimal_digits(n as nat);
    let s = decimal(n as nat);
    assert(s[0] != 43u8);
    assert(unsigned_digits(s) == s);
}

/// A prefix of a run of digits denotes no more than the whole run.
pub proof fn lemma_digits_value_prefix(s: Seq<u8>, k: int)
    requires
        all_digits(s),
        0 <= k <= s.len(),
    ensures
        digits_value(s.subrange(0, k)) <= digits_value(s),
    decreases s.len(),
{
    if k < s.len() {
        let t = s.drop_last();
        assert(all_digits(t)) by {
            assert forall|i: int| 0 <= i < t.len() implies #[trigger] is_digit(t[i]) by {
                assert(t[i] == s[i]);
            }
        }
        lemma_digits_value_prefix(t, k);
        assert(t.subrange(0, k) == s.subrange(0, k));
    } else {
        assert(s.subrange(0, k) == s);
    }
}

/// Parses `s` as a `u32`, as `str::parse::<u32>` does on its text.
pub fn parse_u32_bytes(s: &[u8]) -> (r: Option<u32>)
    ensures
        r == parse_u32(s@),
{
    let start: usize = if s.len() >= 2 && s[0] == 43u8 {
        1
    } else {
        0
    };
    let ghost d = unsigned_digits(s@);
    assert(d == s@.subrange(start as int, s@.len() as int));
    if start >= s.len() {
        return None;
    }
    let mut acc: u64 = 0;
    let mut i: usize = start;
    while i < s.len()
        invariant
            start <= i <= s@.len(),
            start < s@.len(),
            d == s@.subrange(start as int, s@.len() as int),
            d == unsigned_digits(s@),
            all_digits(s@.subrange(start as int, i as int)),
            acc == digits_value(s@.subrange(start as int, i as int)),
            acc <= u32::MAX,
        decreases s@.len() - i,
    {
        let b = s[i];
        let ghost pre = s@.subrange(start as int, i as int);
        let ghost next = s@.subrange(start as int, i + 1);
        assert(next.drop_last() == pre);
        assert(d[i - start] == b);
        if b < 48u8 || b > 57u8 {
            assert(!is_digit(d[i - start]));
            return None;
        }
        acc = acc * 10 + (b - 48u8) as u64;
        assert(acc == digits_value(next));
        assert(all_digits(next)) by {
            assert forall|j: int| 0 <= j < next.len() implies #[trigger] is_digit(next[j]) by {
                if j < pre.len() {
                    assert(next[j] == pre[j]);
                }
            }
        }
        if acc > 0xffff_ffffu64 {
            proof {
                if all_digits(d) {
                    assert(d.subrange(0, i + 1 - start) == next);
                    lemma_digits_value_prefix(d, i + 1 - start);
                }
            }
            return None;
        }
        i = i + 1;
    }
    assert(s@.subrange(start as int, i as int) == d);
    Some(acc as u32)
}

/// The hexadecimal digit of `d`.
pub fn hex_digit(d: u8) -> (r: u8)
    requires
        d < 16,
    ensures
        r == hex_byte(d as nat),
{
    if d < 10 {
        48u8 + d
    } else {
        87u8 + d
    }
}

/// Appends the hyphenated text of `u` to `out`.
pub fn append_uuid(out: &mut Vec<u8>, u: &Uuid)
    ensures
        final(out)@ == old(out)@ + u.text(),
{
    let mut i: usize = 0;
    while i < 16
        invariant
            i <= 16,
            u.bytes@.len() == 16,
            out@ == old(out)@ + uuid_text_upto(u.bytes@, i as nat),
        decreases 16 - i,
    {
        let ghost before = out@;
        if i == 4 || i == 6 || i == 8 || i == 10 {
            out.push(45u8);
        }
        let b = u.bytes[i];
        out.push(hex_digit(b / 16));
        out.push(hex_digit(b % 16));
        i = i + 1;
        assert(out@ == old(out)@ + uuid_text_upto(u.bytes@, i as nat));
    }
}


/// A copy of `bytes`.
pub fn copy_bytes(bytes: &[u8]) -> (r: Vec<u8>)
    ensures
        r@ == bytes@,
{
    let mut out: Vec<u8> = Vec::new();
    append_bytes(&mut out, bytes);
    assert(out@ == bytes@);
    out
}

/// Whether two byte strings are equal.
pub fn bytes_equal(a: &[u8], b: &[u8]) -> (r: bool)
    ensures
        r == (a@ == b@),
{
    if a.len() != b.len() {
        return false;
    }
    let mut i: usize = 0;
    while i < a.len()
        invariant
            i <= a@.len(),
            a@.len() == b@.len(),
            forall|j: int| 0 <= j < i ==> a@[j] == b@[j],
        decreases a@.len() - i,
    {
        if a[i] != b[i] {
            return false;
        }
        i = i + 1;
    }
    assert(a@ == b@);
    true
}

/// The text `<uuid>` of a UUID, as bytes.
pub fn uuid_bytes(u: &Uuid) -> (r: Vec<u8>)
    ensures
        r@ == u.text(),
{
    let mut out: Vec<u8> = Vec::new();
    append_uuid(&mut out, u);
    assert(out@ == u.text());
    out
}

/// The address of one device of a Signal account: the account's name and the
/// device's number.
#[derive(Debug, PartialEq, Eq)]
pub struct ProtocolAddress {
    pub name: String,
    pub device_id: u32,
}

/// A Signal account, by its UUID.
#[derive(Debug, Clone, Copy, PartialEq, Eq)]
pub struct ServiceAddress {
    pub uuid: Uuid,
}

/// The text `<name>.<device>` of an address.
pub open spec fn address_text(name: Seq<char>, device_id: u32) -> Seq<u8> {
    vstd::utf8::encode_utf8(name) + seq![46u8] + decimal(device_id as nat)
}

impl ProtocolAddress {
    /// The text `<name>.<device>` under which the address is stored.
    pub open spec fn text(&self) -> Seq<u8> {
        address_text(self.name@, self.device_id)
    }

    /// A copy of the address.
    pub fn duplicate(&self) -> (r: ProtocolAddress)
        ensures
            r.name@ == self.name@,
            r.device_id == self.device_id,
    {
        ProtocolAddress { name: self.name.as_str().to_owned(), device_id: self.device_id }
    }
}

/// The name `<name>.<device>/<distribution>` of the sender key that `sender`
/// uses in the distribution `distribution_id`.
pub open spec fn sender_key_text(sender: ProtocolAddress, distribution_id: Uuid) -> Seq<u8> {
    sender.text() + seq![47u8] + distribution_id.text()
}

/// The prefix `<uuid>.` that the session names of every device of `account`
/// begin with.
pub open spec fn device_prefix(account: ServiceAddress) -> Seq<u8> {
    account.uuid.text() + seq![46u8]
}

/// The text `<name>.<device>` of an address, as bytes.
pub fn address_bytes(address: &ProtocolAddress) -> (r: Vec<u8>)
    ensures
        r@ == address.text(),
{
    let mut out: Vec<u8> = Vec::new();
    append_bytes(&mut out, address.name.as_str().as_bytes());
    out.push(46u8);
    append_decimal(&mut out, address.device_id);
    assert(out@ == address.text());
    out
}

/// The name `<name>.<device>/<distribution>` of a sender key, as bytes.
pub fn sender_key_bytes(sender: &ProtocolAddress, distribution_id: &Uuid) -> (r: Vec<u8>)
    ensures
        r@ == sender_key_text(*sender, *distribution_id),
{
    let mut out = address_bytes(sender);
    out.push(47u8);
    append_uuid(&mut out, distribution_id);
    assert(out@ == sender_key_text(*sender, *distribution_id));
    out
}

/// The prefix `<uuid>.` of the session names of an account's devices.
pub fn device_prefix_bytes(account: &ServiceAddress) -> (r: Vec<u8>)
    ensures
        r@ == device_prefix(*account),
{
    let mut out = uuid_bytes(&account.uuid);
    out.push(46u8);
    out
}

} // verus!
