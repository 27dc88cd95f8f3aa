//! Attached boards: identity, capability tags, a stable identifier, and the
//! selection of exactly one board out of an enumeration.
use vstd::prelude::*;

verus! {

pub const FNV_OFFSET: u64 = 0xcbf29ce484222325;
pub const FNV_PRIME: u64 = 0x100000001b3;
/// Separates text fields in the identity stream; no `char` has this value.
pub const FIELD_SEPARATOR: u32 = 0x110000;

/// One attached board, as enumerated. Text fields may be empty.
#[derive(Debug, Clone)]
pub struct Device {
    pub vendor_id: u16,
    pub product_id: u16,
    pub vendor_string: String,
    pub product_string: String,
    pub serial_number: String,
    pub device_type: Option<String>,
    pub loader_type: Option<String>,
    pub debugger_type: Option<String>,
    pub bossa_path: Option<String>,
    pub cdc_path: Option<String>,
    pub msd_path: Option<String>,
    pub openocd_serial: Option<String>,
    pub can_trace_itm: bool,
}

pub open spec fn char_words(s: Seq<char>) -> Seq<u32> {
    s.map_values(|c: char| c as u32)
}

/// The identity fields of a device as one stream of words.
pub open spec fn identity_words(d: Device) -> Seq<u32> {
    seq![d.vendor_id as u32, d.product_id as u32] + char_words(d.vendor_string@) + seq![
        FIELD_SEPARATOR,
    ] + char_words(d.product_string@) + seq![FIELD_SEPARATOR] + char_words(d.serial_number@)
}

/// 64-bit FNV-1a over a stream of words.
pub open spec fn fnv(ws: Seq<u32>) -> u64
    decreases ws.len(),
{
    if ws.len() == 0 {
        FNV_OFFSET
    } else {
        (fnv(ws.drop_last()) ^ (ws.last() as u64)).wrapping_mul(FNV_PRIME)
    }
}

pub open spec fn device_id(d: Device) -> u64 {
    fnv(identity_words(d))
}

pub open spec fn hex_digit(v: u64) -> u8 {
    if v < 10 {
        (48 + v) as u8
    } else {
        (87 + v) as u8
    }
}

pub open spec fn is_hex_digit(b: u8) -> bool {
    (48 <= b <= 57) || (97 <= b <= 102)
}

/// The nibble of `h` at position `i`, most significant first.
pub open spec fn nibble(h: u64, i: int) -> u64 {
    (h >> ((60 - 4 * i) as u64)) & 15
}

/// `h` as sixteen lower-case hexadecimal digits (ASCII), most significant first.
pub open spec fn hex16(h: u64) -> Seq<u8> {
    Seq::new(16, |i: int| hex_digit(nibble(h, i)))
}

/// The identifier shown in listings: the first eight digits of the id.
pub open spec fn short_id_of(d: Device) -> Seq<u8> {
    hex16(device_id(d)).take(8)
}

pub open spec fn same_identity(a: Device, b: Device) -> bool {
    a.vendor_id == b.vendor_id && a.product_id == b.product_id && a.vendor_string@
        == b.vendor_string@ && a.product_string@ == b.product_string@ && a.serial_number@
        == b.serial_number@
}

proof fn lemma_nibble_small(h: u64, s: u64)
    ensures
        (h >> s) & 15 < 16,
{
    assert((h >> s) & 15 < 16) by (bit_vector);
}

fn push_char_words(words: &mut Vec<u32>, s: &str)
    ensures
        final(words)@ == old(words)@ + char_words(s@),
{
    let n = s.unicode_len();
    let mut i: usize = 0;
    while i < n
        invariant
            n == s@.len(),
            i <= n,
            words@ == old(words)@ + char_words(s@.take(i as int)),
        decreases n - i,
    {
        let c = s.get_char(i);
        words.push(c as u32);
        assert(char_words(s@.take(i + 1)) =~= char_words(s@.take(i as int)).push(c as u32));
        i = i + 1;
    }
    assert(s@.take(n as int) =~= s@);
}

impl Device {
    /// The stable identifier: a hash of the identity fields only.
    pub fn id(&self) -> (r: u64)
        ensures
            r == device_id(*self),
    {
        let mut words: Vec<u32> = Vec::new();
        words.push(self.vendor_id as u32);
        words.push(self.product_id as u32);
        push_char_words(&mut words, self.vendor_string.as_str());
        words.push(FIELD_SEPARATOR);
        push_char_words(&mut words, self.product_string.as_str());
        words.push(FIELD_SEPARATOR);
        push_char_words(&mut words, self.serial_number.as_str());
        assert(words@ =~= identity_words(*self));
        let mut h: u64 = FNV_OFFSET;
        let mut i: usize = 0;
        while i < words.len()
            invariant
                i <= words@.len(),
                h == fnv(words@.take(i as int)),
            decreases words@.len() - i,
        {
            assert(words@.take(i + 1).drop_last() =~= words@.take(i as int));
            h = (h ^ (words[i] as u64)).wrapping_mul(FNV_PRIME);
            i = i + 1;
        }
        assert(words@.take(i as int) =~= words@);
        h
    }

    /// The identifier as sixteen hexadecimal digits.
    pub fn id_hex(&self) -> (r: Vec<u8>)
        ensures
            r@ == hex16(device_id(*self)),
            forall|i: int| 0 <= i < r@.len() ==> is_hex_digit(#[trigger] r@[i]),
    {
        let h = self.id();
        let mut r: Vec<u8> = Vec::new();
        let mut i: usize = 0;
        while i < 16
            invariant
                h == device_id(*self),
                i <= 16,
                r@ == hex16(h).take(i as int),
                forall|j: int| 0 <= j < r@.len() ==> is_hex_digit(#[trigger] r@[j]),
            decreases 16 - i,
        {
            let v = (h >> ((60 - 4 * i) as u64)) & 15;
            proof {
                lemma_nibble_small(h, (60 - 4 * i) as u64);
            }
            let d: u8 = if v < 10 {
                (48 + v) as u8
            } else {
                (87 + v) as u8
            };
            r.push(d);
            assert(hex16(h).take(i + 1) =~= hex16(h).take(i as int).push(d));
            i = i + 1;
        }
        assert(hex16(h).take(16) =~= hex16(h));
        r
    }

    /// The identifier shown in listings: exactly eight hexadecimal digits.
    pub fn short_id(&self) -> (r: Vec<u8>)
        ensures
            r@ == short_id_of(*self),
            r@.len() == 8,
            forall|i: int| 0 <= i < r@.len() ==> is_hex_digit(#[trigger] r@[i]),
    {
        let mut r = self.id_hex();
        r.truncate(8);
        assert(r@ =~= hex16(device_id(*self)).take(8));
        r
    }
}

/// The listed identifier is eight hexadecimal digits and depends on the
/// identity fields alone, so two enumerations of an unchanged board show the
/// same one.
pub proof fn lemma_short_id_stable(a: Device, b: Device)
    requires
        same_identity(a, b),
    ensures
        short_id_of(a) == short_id_of(b),
        short_id_of(a).len() == 8,
        forall|i: int| 0 <= i < 8 ==> is_hex_digit(#[trigger] short_id_of(a)[i]),
{
    assert(identity_words(a) =~= identity_words(b));
    assert forall|i: int| 0 <= i < 8 implies is_hex_digit(#[trigger] short_id_of(a)[i]) by {
        lemma_nibble_small(device_id(a), (60 - 4 * i) as u64);
    }
}


/// Criteria that narrow an enumeration; an absent criterion accepts every device.
#[derive(Debug, Clone)]
pub struct Filter {
    pub vendor_id: Option<u16>,
    pub product_id: Option<u16>,
    /// A substring of the serial number.
    pub serial_number: Option<String>,
    /// A prefix of the hexadecimal id (ASCII digits).
    pub id_prefix: Option<Vec<u8>>,
    pub device_type: Option<String>,
}

pub open spec fn contains(hay: Seq<char>, needle: Seq<char>) -> bool {
    exists|i: int| 0 <= i <= hay.len() - needle.len() && #[trigger] hay.subrange(i, i + needle.len()) == needle
}

pub open spec fn accepts(f: Filter, d: Device) -> bool {
    &&& (f.vendor_id matches Some(v) ==> v == d.vendor_id)
    &&& (f.product_id matches Some(p) ==> p == d.product_id)
    &&& (f.serial_number matches Some(s) ==> contains(d.serial_number@, s@))
    &&& (f.id_prefix matches Some(p) ==> p@.len() <= 16 && hex16(device_id(d)).take(p@.len() as int) == p@)
    &&& (f.device_type matches Some(t) ==> (d.device_type matches Some(dt) && dt@ == t@))
}

/// The devices of `s` that `f` accepts, in their order.
pub open spec fn matching(s: Seq<Device>, f: Filter) -> Seq<Device>
    decreases s.len(),
{
    if s.len() == 0 {
        seq![]
    } else if accepts(f, s.last()) {
        matching(s.drop_last(), f).push(s.last())
    } else {
        matching(s.drop_last(), f)
    }
}

/// Why no single device could be selected.
#[derive(Debug, Clone, Copy, PartialEq, Eq, Structural)]
pub enum SelectError {
    NoMatch,
    AmbiguousMatch(usize),
}

/// The outcome of selecting one device out of `s`.
pub open spec fn selection(s: Seq<Device>) -> Result<Device, SelectError> {
    if s.len() == 0 {
        Err(SelectError::NoMatch)
    } else if s.len() > 1 {
        Err(SelectError::AmbiguousMatch(s.len() as usize))
    } else {
        Ok(s[0])
    }
}

pub(crate) fn str_eq(a: &str, b: &str) -> (r: bool)
    ensures
        r == (a@ == b@),
{
    let n = a.unicode_len();
    if n != b.unicode_len() {
        return false;
    }
    let mut i: usize = 0;
    while i < n
        invariant
            n == a@.len(),
            n == b@.len(),
            i <= n,
            forall|j: int| 0 <= j < i ==> a@[j] == b@[j],
        decreases n - i,
    {
        if a.get_char(i) != b.get_char(i) {
            return false;
        }
        i = i + 1;
    }
    assert(a@ =~= b@);
    true
}

fn str_contains(hay: &str, needle: &str) -> (r: bool)
    ensures
        r == contains(hay@, needle@),
{
    let n = hay.unicode_len();
    let m = needle.unicode_len();
    if m > n {
        return false;
    }
    let mut i: usize = 0;
    while i <= n - m
        invariant
            n == hay@.len(),
            m == needle@.len(),
            m <= n,
            i <= n - m + 1,
            forall|k: int| 0 <= k < i ==> #[trigger] hay@.subrange(k, k + m) != needle@,
        decreases n - m + 1 - i,
    {
        let mut j: usize = 0;
        let mut same = true;
        while j < m
            invariant
                n == hay@.len(),
                m == needle@.len(),
                i + m <= n,
                j <= m,
                same == forall|t: int| 0 <= t < j ==> hay@[i + t] == needle@[t],
            decreases m - j,
        {
            if hay.get_char(i + j) != needle.get_char(j) {
                same = false;
            }
            j = j + 1;
        }
        if same {
            assert(hay@.subrange(i as int, i + m) =~= needle@);
            return true;
        }
        assert(hay@.subrange(i as int, i + m) != needle@) by {
            let t = choose|t: int| 0 <= t < m && hay@[i + t] != needle@[t];
            assert(hay@.subrange(i as int, i + m)[t] == hay@[i + t]);
        }
        i = i + 1;
    }
    false
}

fn has_prefix(h: &Vec<u8>, p: &Vec<u8>) -> (r: bool)
    ensures
        r == (p@.len() <= h@.len() && h@.take(p@.len() as int) == p@),
{
    if p.len() > h.len() {
        return false;
    }
    let mut i: usize = 0;
    while i < p.len()
        invariant
            p@.len() <= h@.len(),
            i <= p@.len(),
            forall|j: int| 0 <= j < i ==> h@[j] == p@[j],
        decreases p@.len() - i,
    {
        if h[i] != p[i] {
            assert(h@.take(p@.len() as int)[i as int] == h@[i as int]);
            return false;
        }
        i = i + 1;
    }
    assert(h@.take(p@.len() as int) =~= p@);
    true
}

impl Filter {
    /// Whether the filter accepts the device.
    pub fn accepts(&self, d: &Device) -> (r: bool)
        ensures
            r == accepts(*self, *d),
    {
        if let Some(v) = self.vendor_id {
            if v != d.vendor_id {
                return false;
            }
        }
        if let Some(p) = self.product_id {
            if p != d.product_id {
                return false;
            }
        }
        if let Some(s) = &self.serial_number {
            if !str_contains(d.serial_number.as_str(), s.as_str()) {
                return false;
            }
        }
        if let Some(p) = &self.id_prefix {
            let h = d.id_hex();
            if !has_prefix(&h, p) {
                return false;
            }
        }
        if let Some(t) = &self.device_type {
            match &d.device_type {
                Some(dt) => {
                    if !str_eq(dt.as_str(), t.as_str()) {
                        return false;
                    }
                },
                None => {
                    return false;
                },
            }
        }
        true
    }
}

/// The enumerated devices that the filter accepts, in enumeration order; empty
/// when none does.
pub fn search(devices: Vec<Device>, filter: &Filter) -> (r: Vec<Device>)
    ensures
        r@ == matching(devices@, *filter),
{
    let ghost all = devices@;
    proof {
        vstd::std_specs::vec::axiom_spec_len(&devices);
    }
    let mut rest = devices;
    let mut out: Vec<Device> = Vec::new();
    let mut k: usize = 0;
    assert(all.skip(0) =~= all);
    assert(all.take(0) =~= Seq::<Device>::empty());
    while rest.len() > 0
        invariant
            k <= all.len(),
            rest@ == all.skip(k as int),
            all.len() <= usize::MAX,
            k + rest@.len() == all.len(),
            out@ == matching(all.take(k as int), *filter),
        decreases rest@.len(),
    {
        let d = rest.remove(0);
        assert(d == all[k as int]);
        assert(rest@ =~= all.skip(k + 1));
        assert(all.take(k + 1).drop_last() =~= all.take(k as int));
        if filter.accepts(&d) {
            out.push(d);
        }
        k = k + 1;
    }
    assert(all.take(k as int) =~= all);
    out
}

/// Exactly one device, or why there is not exactly one.
pub fn select_one(devices: Vec<Device>) -> (r: Result<Device, SelectError>)
    ensures
        r == selection(devices@),
{
    let n = devices.len();
    if n == 0 {
        Err(SelectError::NoMatch)
    } else if n > 1 {
        Err(SelectError::AmbiguousMatch(n))
    } else {
        let mut devices = devices;
        Ok(devices.remove(0))
    }
}

proof fn lemma_matching_empty(s: Seq<Device>, f: Filter)
    requires
        forall|i: int| 0 <= i < s.len() ==> !accepts(f, #[trigger] s[i]),
    ensures
        matching(s, f).len() == 0,
    decreases s.len(),
{
    if s.len() > 0 {
        assert(!accepts(f, s[s.len() - 1]));
        lemma_matching_empty(s.drop_last(), f);
    }
}

proof fn lemma_matching_len(s: Seq<Device>, f: Filter, i: int)
    requires
        0 <= i < s.len(),
        accepts(f, s[i]),
    ensures
        matching(s, f).len() >= matching(s.take(i), f).len() + 1,
        matching(s, f).len() <= s.len(),
    decreases s.len(),
{
    if i < s.len() - 1 {
        assert(s.drop_last()[i] == s[i]);
        assert(s.drop_last().take(i) =~= s.take(i));
        lemma_matching_len(s.drop_last(), f, i);
    } else {
        assert(s.drop_last() =~= s.take(i));
        lemma_matching_bound(s.drop_last(), f);
    }
}

proof fn lemma_matching_bound(s: Seq<Device>, f: Filter)
    ensures
        matching(s, f).len() <= s.len(),
    decreases s.len(),
{
    if s.len() > 0 {
        lemma_matching_bound(s.drop_last(), f);
    }
}

/// Selecting after a search fails with `NoMatch` when no device is accepted,
/// and with `AmbiguousMatch` carrying the number of accepted devices when two
/// or more are.
pub proof fn lemma_search_then_select(devices: Seq<Device>, f: Filter)
    ensures
        (forall|i: int| 0 <= i < devices.len() ==> !accepts(f, #[trigger] devices[i]))
            ==> selection(matching(devices, f)) == Err::<Device, SelectError>(SelectError::NoMatch),
        forall|i: int, j: int|
            0 <= i < j < devices.len() && accepts(f, #[trigger] devices[i]) && accepts(f, #[trigger] devices[j])
                ==> selection(matching(devices, f)) == Err::<Device, SelectError>(
                SelectError::AmbiguousMatch(matching(devices, f).len() as usize),
            ),
{
    if forall|i: int| 0 <= i < devices.len() ==> !accepts(f, #[trigger] devices[i]) {
        lemma_matching_empty(devices, f);
    }
    assert forall|i: int, j: int|
        0 <= i < j < devices.len() && accepts(f, #[trigger] devices[i]) && accepts(f, #[trigger] devices[j])
            implies matching(devices, f).len() > 1 by {
        lemma_matching_len(devices, f, j);
        let t = devices.take(j);
        assert(t[i] == devices[i]);
        lemma_matching_len(t, f, i);
    }
}

} // verus!
