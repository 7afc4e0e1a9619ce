//! PCI endpoint identities: bus addresses, slot/function packing, the typed
//! id values read from the host's per-device attributes, and the scoped
//! enable bookkeeping.
//!
//! Everything here is pure: the host I/O that feeds these functions (reading
//! an attribute file, writing the enable node) stays outside the library and
//! hands plain bytes in.

use vstd::prelude::*;

verus! {

/// ASCII '.'
pub const DOT: u8 = 0x2e;

/// ASCII ':'
pub const COLON: u8 = 0x3a;

/// Value of an ASCII hexadecimal digit (lower or upper case).
pub open spec fn spec_hex_digit_value(c: u8) -> Option<u8> {
    if 0x30 <= c && c <= 0x39 {
        Some((c - 0x30) as u8)
    } else if 0x61 <= c && c <= 0x66 {
        Some((c - 0x61 + 10) as u8)
    } else if 0x41 <= c && c <= 0x46 {
        Some((c - 0x41 + 10) as u8)
    } else {
        None
    }
}

/// Lower-case ASCII hexadecimal digit for a value below 16.
pub open spec fn spec_hex_digit_char(v: u8) -> u8
    recommends
        v < 16,
{
    if v < 10 {
        (0x30 + v) as u8
    } else {
        (0x61 + (v - 10)) as u8
    }
}

/// Value of one digit under the given radix (2 ..= 16).
pub open spec fn spec_digit_value(c: u8, radix: u8) -> Option<u8> {
    match spec_hex_digit_value(c) {
        Some(v) => if v < radix {
            Some(v)
        } else {
            None
        },
        None => None,
    }
}

/// Value of a digit string under the given radix, as an unbounded natural;
/// `None` for an empty string or any invalid digit.
pub open spec fn spec_digits_value(s: Seq<u8>, radix: u8) -> Option<nat>
    decreases s.len(),
{
    if s.len() == 0 {
        None
    } else {
        match spec_digit_value(s[s.len() - 1], radix) {
            None => None,
            Some(d) => if s.len() == 1 {
                Some(d as nat)
            } else {
                match spec_digits_value(s.drop_last(), radix) {
                    None => None,
                    Some(hi) => Some((hi * (radix as nat) + d) as nat),
                }
            },
        }
    }
}

/// `spec_digits_value`, capped: values above `max` are rejected, as a
/// fixed-width integer parse would reject them.
pub open spec fn spec_digits_value_capped(s: Seq<u8>, radix: u8, max: u32) -> Option<u32> {
    match spec_digits_value(s, radix) {
        Some(v) => if v <= max {
            Some(v as u32)
        } else {
            None
        },
        None => None,
    }
}

/// A prefix with a value keeps the whole string's value at least as large
/// (or turns it invalid).
proof fn lemma_digits_value_extend_ge(s: Seq<u8>, i: int, radix: u8, p: nat)
    requires
        0 < i <= s.len(),
        radix >= 2,
        spec_digits_value(s.subrange(0, i), radix) == Some(p),
    ensures
        spec_digits_value(s, radix) is Some ==> spec_digits_value(s, radix)->Some_0 >= p,
    decreases s.len() - i,
{
    if i == s.len() {
        assert(s.subrange(0, i) =~= s);
    } else {
        let t = s.subrange(0, i + 1);
        assert(t.drop_last() =~= s.subrange(0, i));
        match spec_digit_value(t[t.len() - 1], radix) {
            None => {
                lemma_digits_whole_invalid(s, i, radix);
            },
            Some(d) => {
                let q = (p * (radix as nat) + d) as nat;
                assert(spec_digits_value(t, radix) == Some(q));
                assert(q >= p) by (nonlinear_arith)
                    requires
                        radix >= 2,
                        q == p * (radix as nat) + d,
                ;
                lemma_digits_value_extend_ge(s, i + 1, radix, q);
            },
        }
    }
}

/// An invalid digit anywhere makes the whole string invalid.
proof fn lemma_digits_whole_invalid(s: Seq<u8>, i: int, radix: u8)
    requires
        0 <= i < s.len(),
        spec_digit_value(s[i], radix) is None,
    ensures
        spec_digits_value(s, radix) is None,
    decreases s.len(),
{
    if i == s.len() - 1 {
    } else {
        assert(s.drop_last()[i] == s[i]);
        lemma_digits_whole_invalid(s.drop_last(), i, radix);
    }
}

/// Parse a digit string under `radix`, rejecting empty strings, invalid
/// digits, and values above `max`.
pub fn parse_digits(s: &[u8], radix: u8, max: u32) -> (r: Option<u32>)
    requires
        2 <= radix <= 16,
        max < 0x8000_0000,
    ensures
        r == spec_digits_value_capped(s@, radix, max),
{
    if s.len() == 0 {
        return None;
    }
    let mut acc: u32 = 0;
    let mut i: usize = 0;
    while i < s.len()
        invariant
            0 <= i <= s@.len(),
            2 <= radix <= 16,
            max < 0x8000_0000,
            acc <= max,
            i > 0 ==> spec_digits_value(s@.subrange(0, i as int), radix) == Some(acc as nat),
            i == 0 ==> acc == 0,
        decreases s@.len() - i,
    {
        let c = s[i];
        let d: u8 = if 0x30 <= c && c <= 0x39 {
            c - 0x30
        } else if 0x61 <= c && c <= 0x66 {
            c - 0x61 + 10
        } else if 0x41 <= c && c <= 0x46 {
            c - 0x41 + 10
        } else {
            proof {
                lemma_digits_whole_invalid(s@, i as int, radix);
            }
            return None;
        };
        if d >= radix {
            proof {
                lemma_digits_whole_invalid(s@, i as int, radix);
            }
            return None;
        }
        proof {
            assert((acc as u64) * (radix as u64) <= 0x7fff_ffffu64 * 16) by (nonlinear_arith)
                requires
                    acc as u64 <= 0x7fff_ffff,
                    radix as u64 <= 16,
            ;
        }
        let next: u64 = (acc as u64) * (radix as u64) + (d as u64);
        proof {
            let prefix = s@.subrange(0, i + 1);
            assert(prefix.drop_last() =~= s@.subrange(0, i as int));
            assert(prefix[prefix.len() - 1] == s@[i as int]);
        }
        if next > max as u64 {
            proof {
                lemma_digits_value_extend_ge(s@, i + 1, radix, next as nat);
            }
            return None;
        }
        acc = next as u32;
        i = i + 1;
    }
    proof {
        assert(s@.subrange(0, s@.len() as int) =~= s@);
    }
    Some(acc)
}

/// Slot (device) and function of one PCI endpoint, packed as the host packs
/// them: slot in the upper five bits, function in the lower three.
#[derive(Clone, Copy, PartialEq, Eq, Structural, Debug)]
pub struct SlotFunction(pub u8);

/// The canonical rendering `SS.F`: two lower-case hex digits for the slot,
/// a dot, one octal digit for the function.
pub open spec fn spec_format_slot_function(sf: SlotFunction) -> Seq<u8> {
    seq![
        spec_hex_digit_char(((sf.0 >> 3) / 16) as u8),
        spec_hex_digit_char(((sf.0 >> 3) % 16) as u8),
        DOT,
        (0x30 + (sf.0 & 7)) as u8,
    ]
}

/// Accepted forms: `S.F` or `SS.F`, hex slot below 0x20, octal function.
pub open spec fn spec_parse_slot_function(s: Seq<u8>) -> Option<SlotFunction> {
    if s.len() == 3 && s[1] == DOT {
        spec_slot_function_from_parts(s.subrange(0, 1), s[2])
    } else if s.len() == 4 && s[2] == DOT {
        spec_slot_function_from_parts(s.subrange(0, 2), s[3])
    } else {
        None
    }
}

pub open spec fn spec_slot_function_from_parts(dev: Seq<u8>, fun: u8) -> Option<SlotFunction> {
    match spec_digits_value_capped(dev, 16, 0xff) {
        None => None,
        Some(d) => match spec_digit_value(fun, 8) {
            None => None,
            Some(f) => if d < 0x20 {
                Some(SlotFunction(((d as u8) << 3 | f) as u8))
            } else {
                None
            },
        },
    }
}

impl SlotFunction {
    pub fn slot(&self) -> (r: u8)
        ensures
            r == self.0 >> 3,
            r < 0x20,
    {
        proof {
            let v = self.0;
            assert(v >> 3 < 0x20) by (bit_vector);
        }
        self.0 >> 3
    }

    pub fn function(&self) -> (r: u8)
        ensures
            r == self.0 & 7,
            r < 8,
    {
        proof {
            let v = self.0;
            assert(v & 7 < 8) by (bit_vector);
        }
        self.0 & 7
    }

    /// Render as `SS.F`.
    pub fn format(&self) -> (r: Vec<u8>)
        ensures
            r@ == spec_format_slot_function(*self),
    {
        let slot = self.slot();
        let fun = self.function();
        let mut r: Vec<u8> = Vec::new();
        r.push(hex_digit_char(slot / 16));
        r.push(hex_digit_char(slot % 16));
        r.push(DOT);
        r.push(0x30 + fun);
        proof {
            assert(r@ =~= spec_format_slot_function(*self));
        }
        r
    }

    /// Parse `S.F` or `SS.F`.
    pub fn parse(s: &[u8]) -> (r: Option<SlotFunction>)
        ensures
            r == spec_parse_slot_function(s@),
    {
        if s.len() == 3 && s[1] == DOT {
            let d = parse_digits_slice1(s, 0);
            proof {
                assert(s@.subrange(0, 1) =~= seq![s@[0]]);
            }
            Self::from_parts(d, s[2])
        } else if s.len() == 4 && s[2] == DOT {
            let d = parse_digits_slice2(s, 0);
            proof {
                assert(s@.subrange(0, 2) =~= seq![s@[0], s@[1]]);
            }
            Self::from_parts(d, s[3])
        } else {
            None
        }
    }

    fn from_parts(dev: Option<u32>, fun: u8) -> (r: Option<SlotFunction>)
        requires
            dev is Some ==> dev->Some_0 <= 0xff,
        ensures
            ({
                let m = match dev {
                    None => None,
                    Some(d) => match spec_digit_value(fun, 8) {
                        None => None,
                        Some(f) => if d < 0x20 {
                            Some(SlotFunction(((d as u8) << 3 | f) as u8))
                        } else {
                            None
                        },
                    },
                };
                r == m
            }),
    {
        let d = match dev {
            None => {
                return None;
            },
            Some(d) => d,
        };
        if !(0x30 <= fun && fun <= 0x37) {
            return None;
        }
        let f = fun - 0x30;
        if d < 0x20 {
            Some(SlotFunction((d as u8) << 3 | f))
        } else {
            None
        }
    }
}

/// Parse one hex digit at `i` as a byte value.
fn parse_digits_slice1(s: &[u8], i: usize) -> (r: Option<u32>)
    requires
        i < s@.len(),
    ensures
        r == spec_digits_value_capped(seq![s@[i as int]], 16, 0xff),
{
    let c = s[i];
    let whole: [u8; 1] = [c];
    proof {
        assert(whole@ =~= seq![s@[i as int]]);
    }
    parse_digits(whole.as_slice(), 16, 0xff)
}

/// Parse two hex digits at `i`, `i + 1` as a byte value.
fn parse_digits_slice2(s: &[u8], i: usize) -> (r: Option<u32>)
    requires
        i + 1 < s@.len(),
    ensures
        r == spec_digits_value_capped(seq![s@[i as int], s@[i + 1]], 16, 0xff),
{
    let whole: [u8; 2] = [s[i], s[i + 1]];
    proof {
        assert(whole@ =~= seq![s@[i as int], s@[i + 1]]);
    }
    parse_digits(whole.as_slice(), 16, 0xff)
}

/// Parsing a rendered slot/function value gives the value back, for every
/// slot below 0x20 and function below 8.
pub proof fn lemma_slot_function_round_trip(d: u8, f: u8)
    requires
        d < 0x20,
        f < 8,
    ensures
        ({
            let sf = SlotFunction((d << 3 | f) as u8);
            &&& spec_parse_slot_function(spec_format_slot_function(sf)) == Some(sf)
            &&& sf.0 >> 3 == d
            &&& sf.0 & 7 == f
        }),
{
    let v = (d << 3 | f) as u8;
    assert(d < 0x20 && f < 8 ==> (d << 3 | f) >> 3 == d && (d << 3 | f) & 7 == f) by (bit_vector);
    let sf = SlotFunction(v);
    let s = spec_format_slot_function(sf);
    let slot = (v >> 3) as u8;
    let hi = (slot / 16) as u8;
    let lo = (slot % 16) as u8;
    assert(v >> 3 < 0x20) by (bit_vector);
    assert(hi < 16 && lo < 16);
    lemma_hex_digit_round_trip(hi);
    lemma_hex_digit_round_trip(lo);
    assert(s.len() == 4 && s[2] == DOT);
    let dev = s.subrange(0, 2);
    assert(dev.len() == 2);
    assert(dev[0] == spec_hex_digit_char(hi) && dev[1] == spec_hex_digit_char(lo));
    assert(dev.drop_last() =~= seq![spec_hex_digit_char(hi)]);
    assert(spec_digits_value(seq![spec_hex_digit_char(hi)], 16) == Some(hi as nat));
    assert(spec_digits_value(dev, 16) == Some((hi * 16 + lo) as nat));
    assert(hi * 16 + lo == slot);
    assert(v & 7 < 8) by (bit_vector);
    assert(s[3] == (0x30 + (v & 7)) as u8);
    assert(spec_digit_value(s[3], 8) == Some((v & 7) as u8));
    assert(spec_slot_function_from_parts(dev, s[3]) == Some(SlotFunction((slot << 3 | (v & 7)) as u8)));
    assert((v >> 3) << 3 | (v & 7) == v) by (bit_vector);
}

/// A hex digit char decodes to the value it encodes.
proof fn lemma_hex_digit_round_trip(v: u8)
    requires
        v < 16,
    ensures
        spec_hex_digit_value(spec_hex_digit_char(v)) == Some(v),
{
}

/// One PCI bus: domain and bus number.
#[derive(Clone, Copy, PartialEq, Eq, Structural, Debug)]
pub struct PciBus {
    pub domain: u16,
    pub bus: u8,
}

/// One PCI function: bus plus slot/function.
#[derive(Clone, Copy, PartialEq, Eq, Structural, Debug)]
pub struct PciEndpoint {
    pub bus: PciBus,
    pub slot_function: SlotFunction,
}

/// Index of the first occurrence of `c`, if any.
pub open spec fn spec_find(s: Seq<u8>, c: u8) -> Option<int>
    decreases s.len(),
{
    if s.len() == 0 {
        None
    } else if s[0] == c {
        Some(0)
    } else {
        match spec_find(s.subrange(1, s.len() as int), c) {
            None => None,
            Some(i) => Some(i + 1),
        }
    }
}

/// Accepted endpoint forms, at most 12 bytes: `BB:SS.F` (domain zero) or
/// `DDDD:BB:SS.F`, all fields hex except the octal function digit.
pub open spec fn spec_parse_endpoint(s: Seq<u8>) -> Option<PciEndpoint> {
    if s.len() > 12 {
        None
    } else {
        match spec_find(s, COLON) {
            None => None,
            Some(i) => {
                let rest = s.subrange(i + 1, s.len() as int);
                match spec_find(rest, COLON) {
                    None => spec_endpoint_from_parts(seq![], s.subrange(0, i), rest),
                    Some(j) => {
                        let rest2 = rest.subrange(j + 1, rest.len() as int);
                        if spec_find(rest2, COLON) is Some {
                            None
                        } else {
                            spec_endpoint_from_parts(s.subrange(0, i), rest.subrange(0, j), rest2)
                        }
                    },
                }
            },
        }
    }
}

/// Assemble an endpoint from its textual fields; an empty domain field
/// stands for domain zero.
pub open spec fn spec_endpoint_from_parts(domain: Seq<u8>, bus: Seq<u8>, devfun: Seq<u8>) -> Option<
    PciEndpoint,
> {
    let d = if domain.len() == 0 {
        Some(0u32)
    } else {
        spec_digits_value_capped(domain, 16, 0xffff)
    };
    match d {
        None => None,
        Some(d) => match spec_digits_value_capped(bus, 16, 0xff) {
            None => None,
            Some(b) => match spec_parse_slot_function(devfun) {
                None => None,
                Some(sf) => Some(
                    PciEndpoint {
                        bus: PciBus { domain: d as u16, bus: b as u8 },
                        slot_function: sf,
                    },
                ),
            },
        },
    }
}

/// Index of the first `c` at or after `from`.
fn find_byte(s: &[u8], from: usize, c: u8) -> (r: Option<usize>)
    requires
        from <= s@.len(),
    ensures
        ({
            let rel = spec_find(s@.subrange(from as int, s@.len() as int), c);
            match r {
                None => rel is None,
                Some(i) => rel == Some(i - from) && from <= i < s@.len(),
            }
        }),
    decreases s@.len() - from,
{
    if from == s.len() {
        None
    } else if s[from] == c {
        Some(from)
    } else {
        let r = find_byte(s, from + 1, c);
        proof {
            let tail = s@.subrange(from as int, s@.len() as int);
            assert(tail.subrange(1, tail.len() as int) =~= s@.subrange(
                from + 1,
                s@.len() as int,
            ));
        }
        r
    }
}

impl PciEndpoint {
    /// Parse `BB:SS.F` or `DDDD:BB:SS.F`.
    pub fn parse(s: &[u8]) -> (r: Option<PciEndpoint>)
        ensures
            r == spec_parse_endpoint(s@),
    {
        if s.len() > 12 {
            return None;
        }
        proof {
            assert(s@.subrange(0, s@.len() as int) =~= s@);
        }
        let i = match find_byte(s, 0, COLON) {
            None => {
                return None;
            },
            Some(i) => i,
        };
        let ghost rest = s@.subrange(i + 1, s@.len() as int);
        let j = match find_byte(s, i + 1, COLON) {
            None => {
                // two parts: bus, then slot/function
                let bus = Self::parse_range(s, 0, i, 16, 0xff);
                let sf = Self::parse_slot_function_range(s, i + 1, s.len());
                proof {
                    assert(rest =~= s@.subrange(i + 1, s@.len() as int));
                }
                return Self::from_parts(Some(0), bus, sf);
            },
            Some(j) => j,
        };
        proof {
            assert(rest.subrange(j - i, rest.len() as int) =~= s@.subrange(
                j + 1,
                s@.len() as int,
            ));
            assert(rest.subrange(0, j - i - 1) =~= s@.subrange(i + 1, j as int));
        }
        if let Some(_) = find_byte(s, j + 1, COLON) {
            return None;
        }
        let domain = if i == 0 {
            Some(0)
        } else {
            Self::parse_range(s, 0, i, 16, 0xffff)
        };
        let bus = Self::parse_range(s, i + 1, j, 16, 0xff);
        let sf = Self::parse_slot_function_range(s, j + 1, s.len());
        proof {
            if i == 0 {
                assert(s@.subrange(0, 0) =~= Seq::<u8>::empty());
            }
        }
        Self::from_parts(domain, bus, sf)
    }

    fn parse_range(s: &[u8], from: usize, to: usize, radix: u8, max: u32) -> (r: Option<u32>)
        requires
            from <= to <= s@.len(),
            2 <= radix <= 16,
            max < 0x8000_0000,
        ensures
            r == spec_digits_value_capped(s@.subrange(from as int, to as int), radix, max),
    {
        let mut part: Vec<u8> = Vec::new();
        let mut k: usize = from;
        while k < to
            invariant
                from <= k <= to <= s@.len(),
                part@ =~= s@.subrange(from as int, k as int),
            decreases to - k,
        {
            part.push(s[k]);
            k = k + 1;
        }
        parse_digits(part.as_slice(), radix, max)
    }

    fn parse_slot_function_range(s: &[u8], from: usize, to: usize) -> (r: Option<SlotFunction>)
        requires
            from <= to <= s@.len(),
        ensures
            r == spec_parse_slot_function(s@.subrange(from as int, to as int)),
    {
        let mut part: Vec<u8> = Vec::new();
        let mut k: usize = from;
        while k < to
            invariant
                from <= k <= to <= s@.len(),
                part@ =~= s@.subrange(from as int, k as int),
            decreases to - k,
        {
            part.push(s[k]);
            k = k + 1;
        }
        SlotFunction::parse(part.as_slice())
    }

    fn from_parts(domain: Option<u32>, bus: Option<u32>, sf: Option<SlotFunction>) -> (r: Option<
        PciEndpoint,
    >)
        requires
            domain is Some ==> domain->Some_0 <= 0xffff,
            bus is Some ==> bus->Some_0 <= 0xff,
        ensures
            ({
                let m = match domain {
                    None => None,
                    Some(d) => match bus {
                        None => None,
                        Some(b) => match sf {
                            None => None,
                            Some(sf) => Some(
                                PciEndpoint {
                                    bus: PciBus { domain: d as u16, bus: b as u8 },
                                    slot_function: sf,
                                },
                            ),
                        },
                    },
                };
                r == m
            }),
    {
        match (domain, bus, sf) {
            (Some(d), Some(b), Some(sf)) => Some(
                PciEndpoint { bus: PciBus { domain: d as u16, bus: b as u8 }, slot_function: sf },
            ),
            _ => None,
        }
    }

    /// Render as `DDDD:BB:SS.F`.
    pub fn format(&self) -> (r: Vec<u8>)
        ensures
            r@ == spec_format_endpoint(*self),
    {
        let mut r: Vec<u8> = Vec::new();
        let d = self.bus.domain;
        proof {
            assert(((d >> 12) & 0xf) < 16 && ((d >> 8) & 0xf) < 16 && ((d >> 4) & 0xf) < 16 && (d
                & 0xf) < 16) by (bit_vector);
        }
        r.push(hex_digit_char(((d >> 12) & 0xf) as u8));
        r.push(hex_digit_char(((d >> 8) & 0xf) as u8));
        r.push(hex_digit_char(((d >> 4) & 0xf) as u8));
        r.push(hex_digit_char((d & 0xf) as u8));
        r.push(COLON);
        r.push(hex_digit_char(self.bus.bus / 16));
        r.push(hex_digit_char(self.bus.bus % 16));
        r.push(COLON);
        let mut sf = self.slot_function.format();
        r.append(&mut sf);
        proof {
            assert(r@ =~= spec_format_endpoint(*self));
        }
        r
    }
}

/// The canonical rendering `DDDD:BB:SS.F`, all lower-case hex.
pub open spec fn spec_format_endpoint(ep: PciEndpoint) -> Seq<u8> {
    seq![
        spec_hex_digit_char(((ep.bus.domain >> 12) & 0xf) as u8),
        spec_hex_digit_char(((ep.bus.domain >> 8) & 0xf) as u8),
        spec_hex_digit_char(((ep.bus.domain >> 4) & 0xf) as u8),
        spec_hex_digit_char((ep.bus.domain & 0xf) as u8),
        COLON,
        spec_hex_digit_char((ep.bus.bus / 16) as u8),
        spec_hex_digit_char((ep.bus.bus % 16) as u8),
        COLON,
    ] + spec_format_slot_function(ep.slot_function)
}

/// Lower-case ASCII hex digit for a value below 16.
pub fn hex_digit_char(v: u8) -> (r: u8)
    requires
        v < 16,
    ensures
        r == spec_hex_digit_char(v),
{
    if v < 10 {
        0x30 + v
    } else {
        0x61 + (v - 10)
    }
}

#[derive(Clone, Copy, PartialEq, Eq, Structural, Debug)]
pub struct VendorId(pub u16);

#[derive(Clone, Copy, PartialEq, Eq, Structural, Debug)]
pub struct DeviceID(pub u16);

#[derive(Clone, Copy, PartialEq, Eq, Structural, Debug)]
pub struct ClassCode(pub u8);

#[derive(Clone, Copy, PartialEq, Eq, Structural, Debug)]
pub struct SubClassCode(pub u8);

#[derive(Clone, Copy, PartialEq, Eq, Structural, Debug)]
pub struct ProgrammingInterface(pub u8);

/// The three class bytes of one PCI function.
#[derive(Clone, Copy, PartialEq, Eq, Structural, Debug)]
pub struct Class {
    pub class_code: ClassCode,
    pub subclass_code: SubClassCode,
    pub programming_interface: ProgrammingInterface,
}

/// The value of a host info attribute of the form `0x` followed by hex
/// digits, as the trimmed file content hands it over.
pub open spec fn spec_parse_hex_info(s: Seq<u8>, max: u32) -> Option<u32> {
    if s.len() >= 2 && s[0] == 0x30 && s[1] == 0x78 {
        spec_digits_value_capped(s.subrange(2, s.len() as int), 16, max)
    } else {
        None
    }
}

/// Parse a `0x`-prefixed hex attribute value.
pub fn parse_hex_info(s: &[u8], max: u32) -> (r: Option<u32>)
    requires
        max < 0x8000_0000,
    ensures
        r == spec_parse_hex_info(s@, max),
{
    if s.len() >= 2 && s[0] == 0x30 && s[1] == 0x78 {
        let mut digits: Vec<u8> = Vec::new();
        let mut k: usize = 2;
        while k < s.len()
            invariant
                2 <= k <= s@.len(),
                digits@ =~= s@.subrange(2, k as int),
            decreases s@.len() - k,
        {
            digits.push(s[k]);
            k = k + 1;
        }
        parse_digits(digits.as_slice(), 16, max)
    } else {
        None
    }
}

impl PciEndpoint {
    /// Interpret the trimmed content of the `vendor` attribute.
    pub fn vendor(&self, raw: &[u8]) -> (r: Option<VendorId>)
        ensures
            ({
                let m = match spec_parse_hex_info(raw@, 0xffff) {
                    None => None::<VendorId>,
                    Some(v) => Some(VendorId(v as u16)),
                };
                r == m
            }),
    {
        match parse_hex_info(raw, 0xffff) {
            Some(v) => Some(VendorId(v as u16)),
            None => None,
        }
    }

    /// Interpret the trimmed content of the `device` attribute.
    pub fn device(&self, raw: &[u8]) -> (r: Option<DeviceID>)
        ensures
            ({
                let m = match spec_parse_hex_info(raw@, 0xffff) {
                    None => None::<DeviceID>,
                    Some(v) => Some(DeviceID(v as u16)),
                };
                r == m
            }),
    {
        match parse_hex_info(raw, 0xffff) {
            Some(v) => Some(DeviceID(v as u16)),
            None => None,
        }
    }

    /// Interpret the trimmed content of the `subsystem_vendor` attribute.
    pub fn subsystem_vendor(&self, raw: &[u8]) -> (r: Option<VendorId>)
        ensures
            ({
                let m = match spec_parse_hex_info(raw@, 0xffff) {
                    None => None::<VendorId>,
                    Some(v) => Some(VendorId(v as u16)),
                };
                r == m
            }),
    {
        match parse_hex_info(raw, 0xffff) {
            Some(v) => Some(VendorId(v as u16)),
            None => None,
        }
    }

    /// Interpret the trimmed content of the `subsystem_device` attribute.
    pub fn subsystem_device(&self, raw: &[u8]) -> (r: Option<DeviceID>)
        ensures
            ({
                let m = match spec_parse_hex_info(raw@, 0xffff) {
                    None => None::<DeviceID>,
                    Some(v) => Some(DeviceID(v as u16)),
                };
                r == m
            }),
    {
        match parse_hex_info(raw, 0xffff) {
            Some(v) => Some(DeviceID(v as u16)),
            None => None,
        }
    }

    /// Interpret the trimmed content of the `class` attribute: one 24-bit
    /// value holding class, subclass and programming interface bytes.
    pub fn class(&self, raw: &[u8]) -> (r: Option<Class>)
        ensures
            ({
                let m = match spec_parse_hex_info(raw@, 0xff_ffff) {
                    None => None::<Class>,
                    Some(v) => Some(
                        Class {
                            class_code: ClassCode(((v >> 16) & 0xff) as u8),
                            subclass_code: SubClassCode(((v >> 8) & 0xff) as u8),
                            programming_interface: ProgrammingInterface((v & 0xff) as u8),
                        },
                    ),
                };
                r == m
            }),
    {
        let v = match parse_hex_info(raw, 0xff_ffff) {
            None => {
                return None;
            },
            Some(v) => v,
        };
        proof {
            assert(((v >> 16) & 0xff) < 256 && ((v >> 8) & 0xff) < 256 && (v & 0xff) < 256)
                by (bit_vector);
        }
        Some(
            Class {
                class_code: ClassCode(((v >> 16) & 0xff) as u8),
                subclass_code: SubClassCode(((v >> 8) & 0xff) as u8),
                programming_interface: ProgrammingInterface((v & 0xff) as u8),
            },
        )
    }

    /// Interpret the trimmed content of the `secondary_bus_number`
    /// attribute (a decimal number); the domain is the endpoint's own.
    pub fn secondary_bus(&self, raw: &[u8]) -> (r: Option<PciBus>)
        ensures
            ({
                let m = match spec_digits_value_capped(raw@, 10, 0xff) {
                    None => None::<PciBus>,
                    Some(b) => Some(PciBus { domain: self.bus.domain, bus: b as u8 }),
                };
                r == m
            }),
    {
        match parse_digits(raw, 10, 0xff) {
            Some(b) => Some(PciBus { domain: self.bus.domain, bus: b as u8 }),
            None => None,
        }
    }

    /// Interpret the trimmed content of the `enable` attribute:
    /// `0` disabled, `1` enabled, anything else invalid.
    pub fn is_enabled(&self, raw: &[u8]) -> (r: Option<bool>)
        ensures
            ({
                let m = if raw@ =~= seq![0x30u8] {
                    Some(false)
                } else if raw@ =~= seq![0x31u8] {
                    Some(true)
                } else {
                    None::<bool>
                };
                r == m
            }),
    {
        if raw.len() == 1 && raw[0] == 0x30 {
            proof {
                assert(raw@ =~= seq![0x30u8]);
            }
            Some(false)
        } else if raw.len() == 1 && raw[0] == 0x31 {
            proof {
                assert(raw@ =~= seq![0x31u8]);
            }
            Some(true)
        } else {
            None
        }
    }

    /// Record what a scoped enable has to do for this endpoint, given its
    /// current enabled state: remember the endpoint exactly when it has to
    /// be enabled now (and hence disabled again on close).
    pub fn scoped_enable(&self, currently_enabled: bool) -> (r: ScopedEnable)
        ensures
            r == spec_scoped_enable(*self, currently_enabled),
            r.must_enable_now() == !currently_enabled,
    {
        if !currently_enabled {
            ScopedEnable { ep: Some(*self) }
        } else {
            ScopedEnable { ep: None }
        }
    }
}

/// Bookkeeping token of one scoped enable: holds the endpoint exactly when
/// the scope enabled it and so owes a disable on close.
pub struct ScopedEnable {
    pub ep: Option<PciEndpoint>,
}

pub open spec fn spec_scoped_enable(ep: PciEndpoint, currently_enabled: bool) -> ScopedEnable {
    ScopedEnable { ep: if currently_enabled { None } else { Some(ep) } }
}

impl ScopedEnable {
    /// Whether acquiring this scope had to enable the endpoint.
    pub open spec fn must_enable_now(&self) -> bool {
        self.ep is Some
    }

    /// Close the scope: the returned endpoint, if any, must now be
    /// disabled.  It is returned exactly when acquiring the scope enabled
    /// it.
    pub fn close(self) -> (r: Option<PciEndpoint>)
        ensures
            r == self.ep,
    {
        self.ep
    }
}

/// The enabled state of the endpoint after the directive `to_disable` of a
/// closed scope has been performed.
pub open spec fn spec_enabled_after_close(state: bool, to_disable: Option<PciEndpoint>) -> bool {
    if to_disable is Some {
        false
    } else {
        state
    }
}

/// For every scoped enable: after the scope is acquired (enabling the
/// endpoint if it was disabled) and later closed (performing the disable
/// directive that `close` returns), the endpoint's enabled state equals its
/// state before acquisition.
pub proof fn lemma_scoped_enable_restores(ep: PciEndpoint, currently_enabled: bool)
    ensures
        spec_enabled_after_close(true, spec_scoped_enable(ep, currently_enabled).ep)
            == currently_enabled,
{
}

} // verus!
