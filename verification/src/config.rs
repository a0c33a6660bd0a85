//! What guest to run: `Args`, the device specs that it holds, and the parser
//! of the command line that builds it.

use vstd::prelude::*;
use vstd::string::*;

use crate::i2c::MAX_I2C_ADDRESS;
use crate::text::{cat2, cat3, cat4, cat5, dec, dec_string, find_char, hex0x, hex0x_string, int_error_text, parse_uint, position, quote, quoted, read_uint, split, split_at_char, split_first, split_once, starts_with, str_eq, string_views, strip_prefix, views};

verus! {

/// A memory ceiling and a CPU quota for one sandboxed plugin.
#[derive(Clone, Copy, Debug, PartialEq, Eq, Structural)]
pub struct ResourceLimits {
    /// In megabytes.
    pub mem_limit_mb: Option<u64>,
    /// In percent of one CPU.
    pub cpu_quota_percent: Option<u32>,
}

impl Default for ResourceLimits {
    fn default() -> (r: Self)
        ensures
            r == (ResourceLimits { mem_limit_mb: None, cpu_quota_percent: None }),
    {
        ResourceLimits { mem_limit_mb: None, cpu_quota_percent: None }
    }
}

/// `s` without one `0x` in front.
pub open spec fn strip_0x(s: Seq<char>) -> Seq<char> {
    if starts_with(s, "0x"@) {
        s.skip(2)
    } else {
        s
    }
}

/// The number that the field `s` denotes in hexadecimal, with or without
/// `0x`; `what` says in the message what it was to be.
pub open spec fn hex_field(s: Seq<char>, what: Seq<char>) -> Result<u64, Seq<char>> {
    match parse_uint(strip_0x(s), 16, u64::MAX as nat) {
        Ok(n) => Ok(n as u64),
        Err(e) => Err("bad "@ + what + " "@ + quoted(s) + (": "@ + int_error_text(e))),
    }
}

/// Reads a hexadecimal field.
fn parse_hex(s: &str, what: &str) -> (r: Result<u64, String>)
    ensures
        match (r, hex_field(s@, what@)) {
            (Ok(n), Ok(m)) => n == m,
            (Err(e), Err(m)) => e@ == m,
            _ => false,
        },
{
    proof {
        reveal_strlit("0x");
    }
    let digits = match strip_prefix(s, "0x") {
        Some(t) => t,
        None => s,
    };
    match read_uint(digits, 16, u64::MAX) {
        Ok(n) => Ok(n),
        Err(e) => {
            let q = quote(s);
            let t = cat2(": ", e.text());
            Err(cat5("bad ", what, " ", q.as_str(), t.as_str()))
        },
    }
}

/// What may follow the fields that a spec must have.
pub struct TrailingOptions {
    pub dma_range: Option<(u64, u64)>,
    pub resource_limits: Option<ResourceLimits>,
}

/// `l` with one more `key=value` of the spec `spec`.
pub open spec fn limit_added(l: ResourceLimits, token: Seq<char>, spec: Seq<char>) -> Result<
    ResourceLimits,
    Seq<char>,
> {
    match split_first(token, '=') {
        None => Err(
            quoted(spec) + " has an unrecognized trailing field "@ + quoted(token)
                + " (expected key=value)"@,
        ),
        Some((key, value)) => if key == "mem"@ {
            match parse_uint(value, 10, u64::MAX as nat) {
                Err(e) => Err(quoted(spec) + "'s mem="@ + quoted(value) + ": "@ + int_error_text(e)),
                Ok(mb) => if mb == 0 {
                    Err(quoted(spec) + " has a zero mem= limit"@)
                } else {
                    Ok(ResourceLimits { mem_limit_mb: Some(mb as u64), ..l })
                },
            }
        } else if key == "cpu"@ {
            match parse_uint(value, 10, u32::MAX as nat) {
                Err(e) => Err(quoted(spec) + "'s cpu="@ + quoted(value) + ": "@ + int_error_text(e)),
                Ok(pct) => if pct == 0 || pct > 10_000 {
                    Err(
                        quoted(spec) + "'s cpu="@ + dec(pct)
                            + " must be 1-10000 (percent of one CPU, >100 allowed for multi-core quotas)"@,
                    )
                } else {
                    Ok(ResourceLimits { cpu_quota_percent: Some(pct as u32), ..l })
                },
            }
        } else {
            Err(
                quoted(spec) + " has an unrecognized trailing key "@ + quoted(key)
                    + " (expected mem or cpu)"@,
            )
        },
    }
}

/// The limits that `tokens` set one after the other, or what is wrong with
/// the first bad one.
pub open spec fn limits_of(tokens: Seq<Seq<char>>, spec: Seq<char>) -> Result<ResourceLimits, Seq<char>>
    decreases tokens.len(),
{
    if tokens.len() == 0 {
        Ok(ResourceLimits { mem_limit_mb: None, cpu_quota_percent: None })
    } else {
        match limits_of(tokens.drop_last(), spec) {
            Err(e) => Err(e),
            Ok(l) => limit_added(l, tokens.last(), spec),
        }
    }
}

/// Whether the fields `rest` begin with a DMA range: two fields without `=`.
pub open spec fn has_dma_range(rest: Seq<Seq<char>>) -> bool {
    rest.len() >= 2 && find_char(rest[0], '=') is None && find_char(rest[1], '=') is None
}

/// The DMA range of the two fields `base` and `size`.
pub open spec fn dma_range_of(base: Seq<char>, size: Seq<char>, spec: Seq<char>) -> Result<(u64, u64), Seq<char>> {
    match hex_field(base, "DMA range base"@) {
        Err(e) => Err(e),
        Ok(b) => match hex_field(size, "DMA range size"@) {
            Err(e) => Err(e),
            Ok(z) => if z == 0 {
                Err(quoted(spec) + " has a zero-sized DMA range"@)
            } else if b + z > u64::MAX {
                Err(quoted(spec) + "'s DMA range wraps past the end of the address space"@)
            } else {
                Ok((b, z))
            },
        },
    }
}

/// What the fields `rest` at the end of the spec `spec` say: a DMA range if
/// they begin with one, then `key=value` limits.
pub open spec fn trailing(rest: Seq<Seq<char>>, spec: Seq<char>) -> Result<TrailingOptions, Seq<char>> {
    let dma = if has_dma_range(rest) {
        match dma_range_of(rest[0], rest[1], spec) {
            Ok(r) => Ok(Some(r)),
            Err(e) => Err(e),
        }
    } else {
        Ok(None)
    };
    match dma {
        Err(e) => Err(e),
        Ok(dma_range) => match limits_of(
            if has_dma_range(rest) { rest.skip(2) } else { rest },
            spec,
        ) {
            Err(e) => Err(e),
            Ok(l) => Ok(
                TrailingOptions {
                    dma_range,
                    resource_limits: if l.mem_limit_mb is Some || l.cpu_quota_percent is Some {
                        Some(l)
                    } else {
                        None
                    },
                },
            ),
        },
    }
}

proof fn lemma_limits_stop(tokens: Seq<Seq<char>>, spec: Seq<char>, k: int)
    requires
        0 <= k <= tokens.len(),
        limits_of(tokens.take(k), spec) is Err,
    ensures
        limits_of(tokens, spec) == limits_of(tokens.take(k), spec),
    decreases tokens.len() - k,
{
    if k < tokens.len() {
        assert(tokens.take(k + 1).drop_last() =~= tokens.take(k));
        lemma_limits_stop(tokens, spec, k + 1);
    } else {
        assert(tokens.take(k) =~= tokens);
    }
}

fn parse_limit(l: &mut ResourceLimits, token: &str, spec: &str) -> (r: Result<(), String>)
    ensures
        match (r, limit_added(*old(l), token@, spec@)) {
            (Ok(_), Ok(n)) => *final(l) == n,
            (Err(e), Err(m)) => e@ == m,
            _ => false,
        },
{
    let q = quote(spec);
    let (key, value) = match split_once(token, '=') {
        Some(p) => p,
        None => {
            let t = quote(token);
            return Err(
                cat4(q.as_str(), " has an unrecognized trailing field ", t.as_str(), " (expected key=value)"),
            );
        },
    };
    let v = quote(value);
    if str_eq(key, "mem") {
        let mb: u64 = match read_uint(value, 10, u64::MAX) {
            Ok(n) => n,
            Err(e) => {
                return Err(cat5(q.as_str(), "'s mem=", v.as_str(), ": ", e.text()));
            },
        };
        if mb == 0 {
            return Err(cat2(q.as_str(), " has a zero mem= limit"));
        }
        l.mem_limit_mb = Some(mb);
    } else if str_eq(key, "cpu") {
        let pct: u64 = match read_uint(value, 10, u32::MAX as u64) {
            Ok(n) => n,
            Err(e) => {
                return Err(cat5(q.as_str(), "'s cpu=", v.as_str(), ": ", e.text()));
            },
        };
        if pct == 0 || pct > 10_000 {
            let p = dec_string(pct);
            return Err(
                cat4(
                    q.as_str(),
                    "'s cpu=",
                    p.as_str(),
                    " must be 1-10000 (percent of one CPU, >100 allowed for multi-core quotas)",
                ),
            );
        }
        l.cpu_quota_percent = Some(pct as u32);
    } else {
        let k = quote(key);
        return Err(
            cat4(q.as_str(), " has an unrecognized trailing key ", k.as_str(), " (expected mem or cpu)"),
        );
    }
    Ok(())
}

/// Reads the fields of `parts` from `from` on, the end of the spec `spec`.
fn parse_trailing_options(parts: &Vec<&str>, from: usize, spec: &str) -> (r: Result<TrailingOptions, String>)
    requires
        from <= parts@.len(),
    ensures
        match (r, trailing(views(parts@).skip(from as int), spec@)) {
            (Ok(t), Ok(u)) => t == u,
            (Err(e), Err(m)) => e@ == m,
            _ => false,
        },
{
    let ghost rest = views(parts@).skip(from as int);
    let mut dma_range: Option<(u64, u64)> = None;
    let mut i: usize = from;
    let n: usize = parts.len();
    assert(n - from >= 2 ==> rest[0] == parts@[from as int]@ && rest[1] == parts@[from + 1]@);
    if n - from >= 2 && position(parts[from], '=').is_none() && position(parts[from + 1], '=').is_none() {
        let base: u64 = parse_hex(parts[from], "DMA range base")?;
        let size: u64 = parse_hex(parts[from + 1], "DMA range size")?;
        if size == 0 {
            let q = quote(spec);
            return Err(cat2(q.as_str(), " has a zero-sized DMA range"));
        }
        if base.checked_add(size).is_none() {
            let q = quote(spec);
            return Err(cat2(q.as_str(), "'s DMA range wraps past the end of the address space"));
        }
        dma_range = Some((base, size));
        i = from + 2;
    }
    let mut limits = ResourceLimits::default();
    let ghost tokens = if has_dma_range(rest) { rest.skip(2) } else { rest };
    let ghost first = i as int;
    proof {
        assert(tokens =~= views(parts@).skip(first));
        assert(tokens.take(0) =~= seq![]);
    }
    while i < n
        invariant
            first <= i <= n == parts@.len(),
            from <= first,
            tokens == views(parts@).skip(first),
            limits_of(tokens.take(i - first), spec@) == Ok::<ResourceLimits, Seq<char>>(limits),
            rest == views(parts@).skip(from as int),
            tokens == (if has_dma_range(rest) { rest.skip(2) } else { rest }),
            match dma_range {
                Some(d) => has_dma_range(rest) && dma_range_of(rest[0], rest[1], spec@) == Ok::<(u64, u64), Seq<char>>(d),
                None => !has_dma_range(rest),
            },
        decreases n - i,
    {
        proof {
            let k = i - first;
            assert(tokens.take(k + 1).drop_last() =~= tokens.take(k));
            assert(tokens.take(k + 1).last() == parts@[i as int]@);
            if limits_of(tokens.take(k + 1), spec@) is Err {
                lemma_limits_stop(tokens, spec@, k + 1);
            }
        }
        match parse_limit(&mut limits, parts[i], spec) {
            Ok(_) => {},
            Err(e) => {
                return Err(e);
            },
        }
        i += 1;
    }
    assert(tokens.take(i - first) =~= tokens);
    let resource_limits = if limits.mem_limit_mb.is_some() || limits.cpu_quota_percent.is_some() {
        Some(limits)
    } else {
        None
    };
    Ok(TrailingOptions { dma_range, resource_limits })
}

/// A base and a size, in the fields `base` and `size`; `whole` is what the
/// messages call the spec.
pub open spec fn range_fields(base: Seq<char>, size: Seq<char>, whole: Seq<char>) -> Result<(u64, u64), Seq<char>> {
    match hex_field(base, "base address"@) {
        Err(e) => Err(e),
        Ok(b) => match hex_field(size, "size"@) {
            Err(e) => Err(e),
            Ok(z) => if z == 0 {
                Err(whole + " has a zero size"@)
            } else if b + z > u64::MAX {
                Err(whole + " wraps past the end of the address space"@)
            } else {
                Ok((b, z))
            },
        },
    }
}

fn parse_range(base: &str, size: &str, whole: &str) -> (r: Result<(u64, u64), String>)
    ensures
        match (r, range_fields(base@, size@, whole@)) {
            (Ok(n), Ok(m)) => n == m,
            (Err(e), Err(m)) => e@ == m,
            _ => false,
        },
{
    let b: u64 = parse_hex(base, "base address")?;
    let z: u64 = parse_hex(size, "size")?;
    if z == 0 {
        return Err(cat2(whole, " has a zero size"));
    }
    if b.checked_add(z).is_none() {
        return Err(cat2(whole, " wraps past the end of the address space"));
    }
    Ok((b, z))
}

/// The highest PCI device number.
pub const MAX_PCI_DEVICE_NUMBER: u8 = 31;

/// The PCI device number in the field `s`.
pub open spec fn device_number_field(s: Seq<char>) -> Result<u8, Seq<char>> {
    match parse_uint(s, 10, u8::MAX as nat) {
        Err(e) => Err("bad PCI device number "@ + quoted(s) + ": "@ + int_error_text(e)),
        Ok(n) => if n > MAX_PCI_DEVICE_NUMBER {
            Err("PCI device number "@ + dec(n) + " must be 0-31"@)
        } else {
            Ok(n as u8)
        },
    }
}

fn parse_device_number(s: &str) -> (r: Result<u8, String>)
    ensures
        match (r, device_number_field(s@)) {
            (Ok(n), Ok(m)) => n == m && n <= 31,
            (Err(e), Err(m)) => e@ == m,
            _ => false,
        },
{
    let n: u64 = match read_uint(s, 10, u8::MAX as u64) {
        Ok(n) => n,
        Err(e) => {
            let q = quote(s);
            return Err(cat4("bad PCI device number ", q.as_str(), ": ", e.text()));
        },
    };
    if n > MAX_PCI_DEVICE_NUMBER as u64 {
        let d = dec_string(n);
        return Err(cat3("PCI device number ", d.as_str(), " must be 0-31"));
    }
    Ok(n as u8)
}

/// The device and function number of function 0 of a device.
pub open spec fn devfn_of(device_number: u8) -> u8 {
    (8 * device_number % 256) as u8
}

pub(crate) fn devfn_from(device_number: u8) -> (r: u8)
    ensures
        r == devfn_of(device_number),
{
    assert(device_number << 3u8 == (8 * device_number) % 256) by (bit_vector);
    device_number << 3
}

/// A plugin mapped at a fixed address:
/// `<path>:<class>:<base>:<size>[:<dma_base>:<dma_size>][:mem=<mb>][:cpu=<pct>]`.
#[derive(Clone, Debug, PartialEq, Eq)]
pub struct DeviceSpec {
    pub path: String,
    pub class: String,
    pub base: u64,
    pub size: u64,
    pub dma_range: Option<(u64, u64)>,
    pub resource_limits: Option<ResourceLimits>,
}

/// What a `DeviceSpec` holds.
pub struct DeviceView {
    pub path: Seq<char>,
    pub class: Seq<char>,
    pub base: u64,
    pub size: u64,
    pub dma_range: Option<(u64, u64)>,
    pub resource_limits: Option<ResourceLimits>,
}

impl View for DeviceSpec {
    type V = DeviceView;

    open spec fn view(&self) -> DeviceView {
        DeviceView {
            path: self.path@,
            class: self.class@,
            base: self.base,
            size: self.size,
            dma_range: self.dma_range,
            resource_limits: self.resource_limits,
        }
    }
}

/// What the spec `s` describes.
pub open spec fn device_spec(s: Seq<char>) -> Result<DeviceView, Seq<char>> {
    let parts = split(s, ':');
    if parts.len() < 4 {
        Err(
            "expected --device <path>:<class>:<base>:<size>[:<dma_base>:<dma_size>][:mem=<mb>][:cpu=<pct>], got "@
                + quoted(s),
        )
    } else {
        match range_fields(parts[2], parts[3], "--device "@ + quoted(s)) {
            Err(e) => Err(e),
            Ok((base, size)) => match trailing(parts.skip(4), s) {
                Err(e) => Err(e),
                Ok(t) => Ok(
                    DeviceView {
                        path: parts[0],
                        class: parts[1],
                        base,
                        size,
                        dma_range: t.dma_range,
                        resource_limits: t.resource_limits,
                    },
                ),
            },
        }
    }
}

impl DeviceSpec {
    /// Reads a spec.
    pub fn parse(spec: &str) -> (r: Result<Self, String>)
        ensures
            match (r, device_spec(spec@)) {
                (Ok(d), Ok(v)) => d@ == v,
                (Err(e), Err(m)) => e@ == m,
                _ => false,
            },
    {
        let parts: Vec<&str> = split_at_char(spec, ':');
        let ghost p = views(parts@);
        let q = quote(spec);
        if parts.len() < 4 {
            return Err(
                cat2(
                    "expected --device <path>:<class>:<base>:<size>[:<dma_base>:<dma_size>][:mem=<mb>][:cpu=<pct>], got ",
                    q.as_str(),
                ),
            );
        }
        assert(p[0] == parts@[0]@ && p[1] == parts@[1]@ && p[2] == parts@[2]@ && p[3] == parts@[3]@);
        let whole = cat2("--device ", q.as_str());
        let (base, size) = parse_range(parts[2], parts[3], whole.as_str())?;
        let t = parse_trailing_options(&parts, 4, spec)?;
        Ok(
            DeviceSpec {
                path: parts[0].to_owned(),
                class: parts[1].to_owned(),
                base,
                size,
                dma_range: t.dma_range,
                resource_limits: t.resource_limits,
            },
        )
    }
}

/// A plugin on the PCI bus:
/// `<path>:<class>:<device_number>[:<dma_base>:<dma_size>][:mem=<mb>][:cpu=<pct>]`.
#[derive(Clone, Debug, PartialEq, Eq)]
pub struct PciDeviceSpec {
    pub path: String,
    pub class: String,
    pub device_number: u8,
    pub dma_range: Option<(u64, u64)>,
    pub resource_limits: Option<ResourceLimits>,
}

/// What a `PciDeviceSpec` holds.
pub struct PciDeviceView {
    pub path: Seq<char>,
    pub class: Seq<char>,
    pub device_number: u8,
    pub dma_range: Option<(u64, u64)>,
    pub resource_limits: Option<ResourceLimits>,
}

impl View for PciDeviceSpec {
    type V = PciDeviceView;

    open spec fn view(&self) -> PciDeviceView {
        PciDeviceView {
            path: self.path@,
            class: self.class@,
            device_number: self.device_number,
            dma_range: self.dma_range,
            resource_limits: self.resource_limits,
        }
    }
}

/// What the spec `s` describes.
pub open spec fn pci_device_spec(s: Seq<char>) -> Result<PciDeviceView, Seq<char>> {
    let parts = split(s, ':');
    if parts.len() < 3 {
        Err(
            "expected --pci-device <path>:<class>:<device_number 0-31>[:<dma_base>:<dma_size>][:mem=<mb>][:cpu=<pct>], got "@
                + quoted(s),
        )
    } else {
        match device_number_field(parts[2]) {
            Err(e) => Err(e),
            Ok(device_number) => match trailing(parts.skip(3), s) {
                Err(e) => Err(e),
                Ok(t) => Ok(
                    PciDeviceView {
                        path: parts[0],
                        class: parts[1],
                        device_number,
                        dma_range: t.dma_range,
                        resource_limits: t.resource_limits,
                    },
                ),
            },
        }
    }
}

impl PciDeviceSpec {
    /// Reads a spec.
    pub fn parse(spec: &str) -> (r: Result<Self, String>)
        ensures
            match (r, pci_device_spec(spec@)) {
                (Ok(d), Ok(v)) => d@ == v && d.device_number <= 31,
                (Err(e), Err(m)) => e@ == m,
                _ => false,
            },
    {
        let parts: Vec<&str> = split_at_char(spec, ':');
        let ghost p = views(parts@);
        if parts.len() < 3 {
            let q = quote(spec);
            return Err(
                cat2(
                    "expected --pci-device <path>:<class>:<device_number 0-31>[:<dma_base>:<dma_size>][:mem=<mb>][:cpu=<pct>], got ",
                    q.as_str(),
                ),
            );
        }
        assert(p[0] == parts@[0]@ && p[1] == parts@[1]@ && p[2] == parts@[2]@);
        let device_number: u8 = parse_device_number(parts[2])?;
        let t = parse_trailing_options(&parts, 3, spec)?;
        Ok(
            PciDeviceSpec {
                path: parts[0].to_owned(),
                class: parts[1].to_owned(),
                device_number,
                dma_range: t.dma_range,
                resource_limits: t.resource_limits,
            },
        )
    }

    /// The device's place on the bus.
    pub fn devfn(&self) -> (r: u8)
        ensures
            r == devfn_of(self.device_number),
    {
        devfn_from(self.device_number)
    }
}

/// A GPIO bank: `<path>:<class>`.
#[derive(Clone, Debug, PartialEq, Eq)]
pub struct GpioDeviceSpec {
    pub path: String,
    pub class: String,
}

/// What a `GpioDeviceSpec` holds.
pub struct GpioDeviceView {
    pub path: Seq<char>,
    pub class: Seq<char>,
}

impl View for GpioDeviceSpec {
    type V = GpioDeviceView;

    open spec fn view(&self) -> GpioDeviceView {
        GpioDeviceView { path: self.path@, class: self.class@ }
    }
}

/// What the spec `s` describes.
pub open spec fn gpio_device_spec(s: Seq<char>) -> Result<GpioDeviceView, Seq<char>> {
    let parts = split(s, ':');
    if parts.len() != 2 {
        Err("expected --gpio-device <path>:<class>, got "@ + quoted(s))
    } else {
        Ok(GpioDeviceView { path: parts[0], class: parts[1] })
    }
}

impl GpioDeviceSpec {
    /// Reads a spec.
    pub fn parse(spec: &str) -> (r: Result<Self, String>)
        ensures
            match (r, gpio_device_spec(spec@)) {
                (Ok(d), Ok(v)) => d@ == v,
                (Err(e), Err(m)) => e@ == m,
                _ => false,
            },
    {
        let parts: Vec<&str> = split_at_char(spec, ':');
        let ghost p = views(parts@);
        if parts.len() != 2 {
            let q = quote(spec);
            return Err(cat2("expected --gpio-device <path>:<class>, got ", q.as_str()));
        }
        assert(p[0] == parts@[0]@ && p[1] == parts@[1]@);
        Ok(GpioDeviceSpec { path: parts[0].to_owned(), class: parts[1].to_owned() })
    }
}

/// A target on the I2C bus: `<path>:<class>:<addr>`.
#[derive(Clone, Debug, PartialEq, Eq)]
pub struct I2cDeviceSpec {
    pub path: String,
    pub class: String,
    pub addr: u8,
}

/// What an `I2cDeviceSpec` holds.
pub struct I2cDeviceView {
    pub path: Seq<char>,
    pub class: Seq<char>,
    pub addr: u8,
}

impl View for I2cDeviceSpec {
    type V = I2cDeviceView;

    open spec fn view(&self) -> I2cDeviceView {
        I2cDeviceView { path: self.path@, class: self.class@, addr: self.addr }
    }
}

/// What the spec `s` describes.
pub open spec fn i2c_device_spec(s: Seq<char>) -> Result<I2cDeviceView, Seq<char>> {
    let parts = split(s, ':');
    if parts.len() != 3 {
        Err("expected --i2c-device <path>:<class>:<addr 0x00-0x7f>, got "@ + quoted(s))
    } else {
        match hex_field(parts[2], "I2C address"@) {
            Err(e) => Err(e),
            Ok(addr) => if addr > MAX_I2C_ADDRESS {
                Err(
                    "--i2c-device "@ + quoted(s) + ": address "@ + hex0x(addr as nat)
                        + " exceeds the 7-bit maximum 0x7f"@,
                )
            } else {
                Ok(I2cDeviceView { path: parts[0], class: parts[1], addr: addr as u8 })
            },
        }
    }
}

impl I2cDeviceSpec {
    /// Reads a spec.
    pub fn parse(spec: &str) -> (r: Result<Self, String>)
        ensures
            match (r, i2c_device_spec(spec@)) {
                (Ok(d), Ok(v)) => d@ == v && d.addr <= MAX_I2C_ADDRESS,
                (Err(e), Err(m)) => e@ == m,
                _ => false,
            },
    {
        let parts: Vec<&str> = split_at_char(spec, ':');
        let ghost p = views(parts@);
        let q = quote(spec);
        if parts.len() != 3 {
            return Err(
                cat2("expected --i2c-device <path>:<class>:<addr 0x00-0x7f>, got ", q.as_str()),
            );
        }
        assert(p[0] == parts@[0]@ && p[1] == parts@[1]@ && p[2] == parts@[2]@);
        let addr: u64 = parse_hex(parts[2], "I2C address")?;
        if addr > MAX_I2C_ADDRESS as u64 {
            let a = hex0x_string(addr);
            return Err(
                cat5(
                    "--i2c-device ",
                    q.as_str(),
                    ": address ",
                    a.as_str(),
                    " exceeds the 7-bit maximum 0x7f",
                ),
            );
        }
        Ok(I2cDeviceSpec { path: parts[0].to_owned(), class: parts[1].to_owned(), addr: addr as u8 })
    }
}

/// A native or WASM plugin mapped at a fixed address:
/// `<path>:<base>:<size>[:<dma_base>:<dma_size>]`.
#[derive(Clone, Debug, PartialEq, Eq)]
pub struct NativeDeviceSpec {
    pub path: String,
    pub base: u64,
    pub size: u64,
    pub dma_range: Option<(u64, u64)>,
}

/// What a `NativeDeviceSpec` holds.
pub struct NativeDeviceView {
    pub path: Seq<char>,
    pub base: u64,
    pub size: u64,
    pub dma_range: Option<(u64, u64)>,
}

impl View for NativeDeviceSpec {
    type V = NativeDeviceView;

    open spec fn view(&self) -> NativeDeviceView {
        NativeDeviceView {
            path: self.path@,
            base: self.base,
            size: self.size,
            dma_range: self.dma_range,
        }
    }
}

/// What the spec `s` of the flag `flag` describes.
pub open spec fn native_device_spec(flag: Seq<char>, s: Seq<char>) -> Result<NativeDeviceView, Seq<char>> {
    let parts = split(s, ':');
    if parts.len() < 3 {
        Err("expected "@ + flag + " <path>:<base>:<size>[:<dma_base>:<dma_size>], got "@ + quoted(s))
    } else {
        match range_fields(parts[1], parts[2], flag + " "@ + quoted(s)) {
            Err(e) => Err(e),
            Ok((base, size)) => match trailing(parts.skip(3), s) {
                Err(e) => Err(e),
                Ok(t) => if t.resource_limits is Some {
                    Err(
                        quoted(s) + ": mem=/cpu= don't apply to "@ + flag
                            + " plugins (no subprocess to limit)"@,
                    )
                } else {
                    Ok(NativeDeviceView { path: parts[0], base, size, dma_range: t.dma_range })
                },
            },
        }
    }
}

impl NativeDeviceSpec {
    /// Reads a spec of the flag `flag`.
    pub fn parse(flag: &str, spec: &str) -> (r: Result<Self, String>)
        ensures
            match (r, native_device_spec(flag@, spec@)) {
                (Ok(d), Ok(v)) => d@ == v,
                (Err(e), Err(m)) => e@ == m,
                _ => false,
            },
    {
        let parts: Vec<&str> = split_at_char(spec, ':');
        let ghost p = views(parts@);
        let q = quote(spec);
        if parts.len() < 3 {
            return Err(
                cat4("expected ", flag, " <path>:<base>:<size>[:<dma_base>:<dma_size>], got ", q.as_str()),
            );
        }
        assert(p[0] == parts@[0]@ && p[1] == parts@[1]@ && p[2] == parts@[2]@);
        let whole = cat3(flag, " ", q.as_str());
        let (base, size) = parse_range(parts[1], parts[2], whole.as_str())?;
        let t = parse_trailing_options(&parts, 3, spec)?;
        if t.resource_limits.is_some() {
            return Err(
                cat4(q.as_str(), ": mem=/cpu= don't apply to ", flag, " plugins (no subprocess to limit)"),
            );
        }
        Ok(NativeDeviceSpec { path: parts[0].to_owned(), base, size, dma_range: t.dma_range })
    }
}

/// A native or WASM plugin on the PCI bus:
/// `<path>:<device_number>[:<dma_base>:<dma_size>]`.
#[derive(Clone, Debug, PartialEq, Eq)]
pub struct NativePciDeviceSpec {
    pub path: String,
    pub device_number: u8,
    pub dma_range: Option<(u64, u64)>,
}

/// What a `NativePciDeviceSpec` holds.
pub struct NativePciDeviceView {
    pub path: Seq<char>,
    pub device_number: u8,
    pub dma_range: Option<(u64, u64)>,
}

impl View for NativePciDeviceSpec {
    type V = NativePciDeviceView;

    open spec fn view(&self) -> NativePciDeviceView {
        NativePciDeviceView {
            path: self.path@,
            device_number: self.device_number,
            dma_range: self.dma_range,
        }
    }
}

/// What the spec `s` of the flag `flag` describes.
pub open spec fn native_pci_device_spec(flag: Seq<char>, s: Seq<char>) -> Result<NativePciDeviceView, Seq<char>> {
    let parts = split(s, ':');
    if parts.len() < 2 {
        Err(
            "expected "@ + flag + " <path>:<device_number 0-31>[:<dma_base>:<dma_size>], got "@
                + quoted(s),
        )
    } else {
        match device_number_field(parts[1]) {
            Err(e) => Err(e),
            Ok(device_number) => match trailing(parts.skip(2), s) {
                Err(e) => Err(e),
                Ok(t) => if t.resource_limits is Some {
                    Err(quoted(s) + ": mem=/cpu= don't apply to "@ + flag + " plugins"@)
                } else {
                    Ok(NativePciDeviceView { path: parts[0], device_number, dma_range: t.dma_range })
                },
            },
        }
    }
}

impl NativePciDeviceSpec {
    /// Reads a spec of the flag `flag`.
    pub fn parse(flag: &str, spec: &str) -> (r: Result<Self, String>)
        ensures
            match (r, native_pci_device_spec(flag@, spec@)) {
                (Ok(d), Ok(v)) => d@ == v && d.device_number <= 31,
                (Err(e), Err(m)) => e@ == m,
                _ => false,
            },
    {
        let parts: Vec<&str> = split_at_char(spec, ':');
        let ghost p = views(parts@);
        let q = quote(spec);
        if parts.len() < 2 {
            return Err(
                cat4("expected ", flag, " <path>:<device_number 0-31>[:<dma_base>:<dma_size>], got ", q.as_str()),
            );
        }
        assert(p[0] == parts@[0]@ && p[1] == parts@[1]@);
        let device_number: u8 = parse_device_number(parts[1])?;
        let t = parse_trailing_options(&parts, 2, spec)?;
        if t.resource_limits.is_some() {
            return Err(cat4(q.as_str(), ": mem=/cpu= don't apply to ", flag, " plugins"));
        }
        Ok(NativePciDeviceSpec { path: parts[0].to_owned(), device_number, dma_range: t.dma_range })
    }

    /// The device's place on the bus.
    pub fn devfn(&self) -> (r: u8)
        ensures
            r == devfn_of(self.device_number),
    {
        devfn_from(self.device_number)
    }
}

/// How the program is called.
pub const USAGE: &'static str = "usage: hyperbug --kernel <bzImage> [--initrd <cpio.gz>] [--mem <MB>] \
     [--cmdline <str>] [--device <path.py>:<class>:<base>:<size>[:<dma_base>:<dma_size>]]... \
     [--pci-device <path.py>:<class>:<device_number>[:<dma_base>:<dma_size>]]... \
     [--device-sandboxed <path.py>:<class>:<base>:<size>[:<dma_base>:<dma_size>][:mem=<mb>][:cpu=<pct>]]... \
     [--pci-device-sandboxed <path.py>:<class>:<device_number>[:<dma_base>:<dma_size>][:mem=<mb>][:cpu=<pct>]]... \
     [--native-device <path.so>:<base>:<size>[:<dma_base>:<dma_size>]]... \
     [--native-pci-device <path.so>:<device_number>[:<dma_base>:<dma_size>]]... \
     [--wasm-device <path.wasm>:<base>:<size>[:<dma_base>:<dma_size>]]... \
     [--wasm-pci-device <path.wasm>:<device_number>[:<dma_base>:<dma_size>]]... \
     [--i2c-device <path.py>:<class>:<addr>]... \
     [--gpio-device <path.py>:<class>]... \
     [--uart2-log <path>] [--uart3-log <path>] [--uart4-log <path>] \
     [--vsock-uds <path>] \
     [--disk <path>]... [--net] [--rng-modern] [--control-socket <path>] [--smp <N>] \
     [--restore <path>] [--migrate-listen <host:port>] [--trace-file <path>] [--crash-dir <dir>] \
     [--gdb-stub <host:port>] [--record <path>] [--replay <path>]";

/// The kernel command line unless one is given.
pub const DEFAULT_CMDLINE: &'static str = "console=ttyS0 panic=1";

/// Guest memory in megabytes unless it is given.
pub const DEFAULT_MEM_MB: u64 = 256;

/// The view of a string that may be there.
pub open spec fn opt_view(s: Option<String>) -> Option<Seq<char>> {
    match s {
        Some(t) => Some(t@),
        None => None,
    }
}

/// Everything that describes a guest.
#[derive(Clone)]
pub struct Args {
    /// The kernel image.
    pub kernel: String,
    /// The initramfs.
    pub initrd: Option<String>,
    /// Guest memory in megabytes.
    pub mem_mb: u64,
    /// The kernel command line.
    pub cmdline: String,
    /// In-process plugins at fixed addresses.
    pub devices: Vec<DeviceSpec>,
    /// In-process plugins on the PCI bus.
    pub pci_devices: Vec<PciDeviceSpec>,
    /// Sandboxed plugins at fixed addresses.
    pub sandboxed_devices: Vec<DeviceSpec>,
    /// Sandboxed plugins on the PCI bus.
    pub sandboxed_pci_devices: Vec<PciDeviceSpec>,
    /// Native plugins at fixed addresses.
    pub native_devices: Vec<NativeDeviceSpec>,
    /// Native plugins on the PCI bus.
    pub native_pci_devices: Vec<NativePciDeviceSpec>,
    /// WASM plugins at fixed addresses.
    pub wasm_devices: Vec<NativeDeviceSpec>,
    /// WASM plugins on the PCI bus.
    pub wasm_pci_devices: Vec<NativePciDeviceSpec>,
    /// Targets on the I2C bus.
    pub i2c_devices: Vec<I2cDeviceSpec>,
    /// GPIO banks.
    pub gpio_devices: Vec<GpioDeviceSpec>,
    /// Where the second UART logs to.
    pub uart2_log: Option<String>,
    /// Where the third UART logs to.
    pub uart3_log: Option<String>,
    /// Where the fourth UART logs to.
    pub uart4_log: Option<String>,
    /// The socket behind the vsock device.
    pub vsock_uds: Option<String>,
    /// Disk images.
    pub disks: Vec<String>,
    /// Whether there is a network device.
    pub net: bool,
    /// Whether the RNG uses the modern transport.
    pub rng_modern: bool,
    /// The control socket.
    pub control_socket: Option<String>,
    /// How many CPUs.
    pub smp: u8,
    /// The snapshot to resume from.
    pub restore: Option<String>,
    /// Where to wait for a migration.
    pub migrate_listen: Option<String>,
    /// Where exits are traced to.
    pub trace_file: Option<String>,
    /// Where crash dumps go.
    pub crash_dir: Option<String>,
    /// Where to wait for a debugger.
    pub gdb_stub: Option<String>,
    /// Where to record to.
    pub record: Option<String>,
    /// What to replay.
    pub replay: Option<String>,
}

/// What an `Args` holds.
pub struct ArgsView {
    pub kernel: Seq<char>,
    pub initrd: Option<Seq<char>>,
    pub mem_mb: u64,
    pub cmdline: Seq<char>,
    pub devices: Seq<DeviceView>,
    pub pci_devices: Seq<PciDeviceView>,
    pub sandboxed_devices: Seq<DeviceView>,
    pub sandboxed_pci_devices: Seq<PciDeviceView>,
    pub native_devices: Seq<NativeDeviceView>,
    pub native_pci_devices: Seq<NativePciDeviceView>,
    pub wasm_devices: Seq<NativeDeviceView>,
    pub wasm_pci_devices: Seq<NativePciDeviceView>,
    pub i2c_devices: Seq<I2cDeviceView>,
    pub gpio_devices: Seq<GpioDeviceView>,
    pub uart2_log: Option<Seq<char>>,
    pub uart3_log: Option<Seq<char>>,
    pub uart4_log: Option<Seq<char>>,
    pub vsock_uds: Option<Seq<char>>,
    pub disks: Seq<Seq<char>>,
    pub net: bool,
    pub rng_modern: bool,
    pub control_socket: Option<Seq<char>>,
    pub smp: u8,
    pub restore: Option<Seq<char>>,
    pub migrate_listen: Option<Seq<char>>,
    pub trace_file: Option<Seq<char>>,
    pub crash_dir: Option<Seq<char>>,
    pub gdb_stub: Option<Seq<char>>,
    pub record: Option<Seq<char>>,
    pub replay: Option<Seq<char>>,
}

impl View for Args {
    type V = ArgsView;

    open spec fn view(&self) -> ArgsView {
        ArgsView {
            kernel: self.kernel@,
            initrd: opt_view(self.initrd),
            mem_mb: self.mem_mb,
            cmdline: self.cmdline@,
            devices: self.devices@.map_values(|d: DeviceSpec| d@),
            pci_devices: self.pci_devices@.map_values(|d: PciDeviceSpec| d@),
            sandboxed_devices: self.sandboxed_devices@.map_values(|d: DeviceSpec| d@),
            sandboxed_pci_devices: self.sandboxed_pci_devices@.map_values(|d: PciDeviceSpec| d@),
            native_devices: self.native_devices@.map_values(|d: NativeDeviceSpec| d@),
            native_pci_devices: self.native_pci_devices@.map_values(|d: NativePciDeviceSpec| d@),
            wasm_devices: self.wasm_devices@.map_values(|d: NativeDeviceSpec| d@),
            wasm_pci_devices: self.wasm_pci_devices@.map_values(|d: NativePciDeviceSpec| d@),
            i2c_devices: self.i2c_devices@.map_values(|d: I2cDeviceSpec| d@),
            gpio_devices: self.gpio_devices@.map_values(|d: GpioDeviceSpec| d@),
            uart2_log: opt_view(self.uart2_log),
            uart3_log: opt_view(self.uart3_log),
            uart4_log: opt_view(self.uart4_log),
            vsock_uds: opt_view(self.vsock_uds),
            disks: string_views(self.disks@),
            net: self.net,
            rng_modern: self.rng_modern,
            control_socket: opt_view(self.control_socket),
            smp: self.smp,
            restore: opt_view(self.restore),
            migrate_listen: opt_view(self.migrate_listen),
            trace_file: opt_view(self.trace_file),
            crash_dir: opt_view(self.crash_dir),
            gdb_stub: opt_view(self.gdb_stub),
            record: opt_view(self.record),
            replay: opt_view(self.replay),
        }
    }
}

/// The guest that no flag describes.
pub open spec fn default_args() -> ArgsView {
    ArgsView {
        kernel: seq![],
        initrd: None,
        mem_mb: DEFAULT_MEM_MB,
        cmdline: DEFAULT_CMDLINE@,
        devices: seq![],
        pci_devices: seq![],
        sandboxed_devices: seq![],
        sandboxed_pci_devices: seq![],
        native_devices: seq![],
        native_pci_devices: seq![],
        wasm_devices: seq![],
        wasm_pci_devices: seq![],
        i2c_devices: seq![],
        gpio_devices: seq![],
        uart2_log: None,
        uart3_log: None,
        uart4_log: None,
        vsock_uds: None,
        disks: seq![],
        net: false,
        rng_modern: false,
        control_socket: None,
        smp: 1,
        restore: None,
        migrate_listen: None,
        trace_file: None,
        crash_dir: None,
        gdb_stub: None,
        record: None,
        replay: None,
    }
}

impl Default for Args {
    fn default() -> (r: Self)
        ensures
            r@ == default_args(),
    {
        let r = Args {
            kernel: String::new(),
            initrd: None,
            mem_mb: DEFAULT_MEM_MB,
            cmdline: DEFAULT_CMDLINE.to_owned(),
            devices: Vec::new(),
            pci_devices: Vec::new(),
            sandboxed_devices: Vec::new(),
            sandboxed_pci_devices: Vec::new(),
            native_devices: Vec::new(),
            native_pci_devices: Vec::new(),
            wasm_devices: Vec::new(),
            wasm_pci_devices: Vec::new(),
            i2c_devices: Vec::new(),
            gpio_devices: Vec::new(),
            uart2_log: None,
            uart3_log: None,
            uart4_log: None,
            vsock_uds: None,
            disks: Vec::new(),
            net: false,
            rng_modern: false,
            control_socket: None,
            smp: 1,
            restore: None,
            migrate_listen: None,
            trace_file: None,
            crash_dir: None,
            gdb_stub: None,
            record: None,
            replay: None,
        };
        proof {
            assert(r@.kernel =~= default_args().kernel);
            assert(r@.cmdline =~= default_args().cmdline);
            assert(r@.devices =~= default_args().devices);
            assert(r@.pci_devices =~= default_args().pci_devices);
            assert(r@.sandboxed_devices =~= default_args().sandboxed_devices);
            assert(r@.sandboxed_pci_devices =~= default_args().sandboxed_pci_devices);
            assert(r@.native_devices =~= default_args().native_devices);
            assert(r@.native_pci_devices =~= default_args().native_pci_devices);
            assert(r@.wasm_devices =~= default_args().wasm_devices);
            assert(r@.wasm_pci_devices =~= default_args().wasm_pci_devices);
            assert(r@.i2c_devices =~= default_args().i2c_devices);
            assert(r@.gpio_devices =~= default_args().gpio_devices);
            assert(r@.disks =~= default_args().disks);
        }
        r
    }
}

/// A command line that is being read: what it describes so far, and the
/// kernel once it is given.
pub struct Parsing {
    pub args: ArgsView,
    pub kernel: Option<Seq<char>>,
}

/// The value `v` read as an unsigned number no greater than `max`; `flag` is
/// what the message names.
pub open spec fn number_flag(flag: Seq<char>, v: Seq<char>, max: nat) -> Result<nat, Seq<char>> {
    match parse_uint(v, 10, max) {
        Ok(n) => Ok(n),
        Err(e) => Err("bad "@ + flag + " "@ + quoted(v) + (": "@ + int_error_text(e))),
    }
}

/// Whether `flag` is followed by a value.
pub open spec fn takes_value(flag: Seq<char>) -> bool {
    ||| flag == "--kernel"@
    ||| flag == "--cmdline"@
    ||| flag == "--disk"@
    ||| flag == "--mem"@
    ||| flag == "--smp"@
    ||| flag == "--initrd"@
    ||| flag == "--control-socket"@
    ||| flag == "--restore"@
    ||| flag == "--migrate-listen"@
    ||| flag == "--trace-file"@
    ||| flag == "--crash-dir"@
    ||| flag == "--gdb-stub"@
    ||| flag == "--record"@
    ||| flag == "--replay"@
    ||| flag == "--uart2-log"@
    ||| flag == "--uart3-log"@
    ||| flag == "--uart4-log"@
    ||| flag == "--vsock-uds"@
    ||| flag == "--device"@
    ||| flag == "--pci-device"@
    ||| flag == "--device-sandboxed"@
    ||| flag == "--pci-device-sandboxed"@
    ||| flag == "--native-device"@
    ||| flag == "--native-pci-device"@
    ||| flag == "--wasm-device"@
    ||| flag == "--wasm-pci-device"@
    ||| flag == "--i2c-device"@
    ||| flag == "--gpio-device"@
}

/// `p` after the flag `flag` with the value `v`.
pub open spec fn valued_flag(p: Parsing, flag: Seq<char>, v: Seq<char>) -> Result<Parsing, Seq<char>> {
    let a = p.args;
    if flag == "--kernel"@ {
        Ok(Parsing { kernel: Some(v), ..p })
    } else if flag == "--cmdline"@ {
        Ok(Parsing { args: ArgsView { cmdline: v, ..a }, ..p })
    } else if flag == "--disk"@ {
        Ok(Parsing { args: ArgsView { disks: a.disks.push(v), ..a }, ..p })
    } else if flag == "--mem"@ {
        match number_flag(flag, v, u64::MAX as nat) {
            Ok(n) => Ok(Parsing { args: ArgsView { mem_mb: n as u64, ..a }, ..p }),
            Err(e) => Err(e),
        }
    } else if flag == "--smp"@ {
        match number_flag(flag, v, u8::MAX as nat) {
            Ok(n) => Ok(Parsing { args: ArgsView { smp: n as u8, ..a }, ..p }),
            Err(e) => Err(e),
        }
    } else if flag == "--initrd"@ {
        Ok(Parsing { args: ArgsView { initrd: Some(v), ..a }, ..p })
    } else if flag == "--control-socket"@ {
        Ok(Parsing { args: ArgsView { control_socket: Some(v), ..a }, ..p })
    } else if flag == "--restore"@ {
        Ok(Parsing { args: ArgsView { restore: Some(v), ..a }, ..p })
    } else if flag == "--migrate-listen"@ {
        Ok(Parsing { args: ArgsView { migrate_listen: Some(v), ..a }, ..p })
    } else if flag == "--trace-file"@ {
        Ok(Parsing { args: ArgsView { trace_file: Some(v), ..a }, ..p })
    } else if flag == "--crash-dir"@ {
        Ok(Parsing { args: ArgsView { crash_dir: Some(v), ..a }, ..p })
    } else if flag == "--gdb-stub"@ {
        Ok(Parsing { args: ArgsView { gdb_stub: Some(v), ..a }, ..p })
    } else if flag == "--record"@ {
        Ok(Parsing { args: ArgsView { record: Some(v), ..a }, ..p })
    } else if flag == "--replay"@ {
        Ok(Parsing { args: ArgsView { replay: Some(v), ..a }, ..p })
    } else if flag == "--uart2-log"@ {
        Ok(Parsing { args: ArgsView { uart2_log: Some(v), ..a }, ..p })
    } else if flag == "--uart3-log"@ {
        Ok(Parsing { args: ArgsView { uart3_log: Some(v), ..a }, ..p })
    } else if flag == "--uart4-log"@ {
        Ok(Parsing { args: ArgsView { uart4_log: Some(v), ..a }, ..p })
    } else if flag == "--vsock-uds"@ {
        Ok(Parsing { args: ArgsView { vsock_uds: Some(v), ..a }, ..p })
    } else if flag == "--device"@ {
        match device_spec(v) {
            Ok(d) => Ok(Parsing { args: ArgsView { devices: a.devices.push(d), ..a }, ..p }),
            Err(e) => Err(e),
        }
    } else if flag == "--pci-device"@ {
        match pci_device_spec(v) {
            Ok(d) => Ok(Parsing { args: ArgsView { pci_devices: a.pci_devices.push(d), ..a }, ..p }),
            Err(e) => Err(e),
        }
    } else if flag == "--device-sandboxed"@ {
        match device_spec(v) {
            Ok(d) => Ok(Parsing { args: ArgsView { sandboxed_devices: a.sandboxed_devices.push(d), ..a }, ..p }),
            Err(e) => Err(e),
        }
    } else if flag == "--pci-device-sandboxed"@ {
        match pci_device_spec(v) {
            Ok(d) => Ok(Parsing { args: ArgsView { sandboxed_pci_devices: a.sandboxed_pci_devices.push(d), ..a }, ..p }),
            Err(e) => Err(e),
        }
    } else if flag == "--native-device"@ {
        match native_device_spec(flag, v) {
            Ok(d) => Ok(Parsing { args: ArgsView { native_devices: a.native_devices.push(d), ..a }, ..p }),
            Err(e) => Err(e),
        }
    } else if flag == "--native-pci-device"@ {
        match native_pci_device_spec(flag, v) {
            Ok(d) => Ok(Parsing { args: ArgsView { native_pci_devices: a.native_pci_devices.push(d), ..a }, ..p }),
            Err(e) => Err(e),
        }
    } else if flag == "--wasm-device"@ {
        match native_device_spec(flag, v) {
            Ok(d) => Ok(Parsing { args: ArgsView { wasm_devices: a.wasm_devices.push(d), ..a }, ..p }),
            Err(e) => Err(e),
        }
    } else if flag == "--wasm-pci-device"@ {
        match native_pci_device_spec(flag, v) {
            Ok(d) => Ok(Parsing { args: ArgsView { wasm_pci_devices: a.wasm_pci_devices.push(d), ..a }, ..p }),
            Err(e) => Err(e),
        }
    } else if flag == "--i2c-device"@ {
        match i2c_device_spec(v) {
            Ok(d) => Ok(Parsing { args: ArgsView { i2c_devices: a.i2c_devices.push(d), ..a }, ..p }),
            Err(e) => Err(e),
        }
    } else if flag == "--gpio-device"@ {
        match gpio_device_spec(v) {
            Ok(d) => Ok(Parsing { args: ArgsView { gpio_devices: a.gpio_devices.push(d), ..a }, ..p }),
            Err(e) => Err(e),
        }
    } else {
        Err("unrecognized argument: "@ + flag)
    }
}

/// `p` after the arguments `argv`, from the left; the first that is wrong
/// decides.
pub open spec fn flags_read(p: Parsing, argv: Seq<Seq<char>>) -> Result<Parsing, Seq<char>>
    decreases argv.len(),
{
    if argv.len() == 0 {
        Ok(p)
    } else {
        let flag = argv[0];
        if flag == "--net"@ {
            flags_read(Parsing { args: ArgsView { net: true, ..p.args }, ..p }, argv.skip(1))
        } else if flag == "--rng-modern"@ {
            flags_read(Parsing { args: ArgsView { rng_modern: true, ..p.args }, ..p }, argv.skip(1))
        } else if !takes_value(flag) {
            Err("unrecognized argument: "@ + flag)
        } else if argv.len() < 2 {
            Err(flag + " requires an argument"@)
        } else {
            match valued_flag(p, flag, argv[1]) {
                Err(e) => Err(e),
                Ok(q) => flags_read(q, argv.skip(2)),
            }
        }
    }
}

/// The guest that the command line `argv` describes. A kernel must be given,
/// and only a sandboxed plugin can have limits.
pub open spec fn args_of(argv: Seq<Seq<char>>) -> Result<ArgsView, Seq<char>> {
    match flags_read(Parsing { args: default_args(), kernel: None }, argv) {
        Err(e) => Err(e),
        Ok(p) => match p.kernel {
            None => Err("--kernel is required\n"@ + USAGE@),
            Some(kernel) => if (exists|i: int|
                0 <= i < p.args.devices.len() && (#[trigger] p.args.devices[i]).resource_limits is Some) || (
            exists|i: int|
                0 <= i < p.args.pci_devices.len() && (#[trigger] p.args.pci_devices[i]).resource_limits is Some) {
                Err(
                    "mem=/cpu= resource limits only apply to --device-sandboxed/--pci-device-sandboxed (an in-process plugin shares the whole VMM's own resource budget)"@,
                )
            } else {
                Ok(ArgsView { kernel, ..p.args })
            },
        },
    }
}

fn has_value(flag: &str) -> (r: bool)
    ensures
        r == takes_value(flag@),
{
    str_eq(flag, "--kernel")
        || str_eq(flag, "--cmdline")
        || str_eq(flag, "--disk")
        || str_eq(flag, "--mem")
        || str_eq(flag, "--smp")
        || str_eq(flag, "--initrd")
        || str_eq(flag, "--control-socket")
        || str_eq(flag, "--restore")
        || str_eq(flag, "--migrate-listen")
        || str_eq(flag, "--trace-file")
        || str_eq(flag, "--crash-dir")
        || str_eq(flag, "--gdb-stub")
        || str_eq(flag, "--record")
        || str_eq(flag, "--replay")
        || str_eq(flag, "--uart2-log")
        || str_eq(flag, "--uart3-log")
        || str_eq(flag, "--uart4-log")
        || str_eq(flag, "--vsock-uds")
        || str_eq(flag, "--device")
        || str_eq(flag, "--pci-device")
        || str_eq(flag, "--device-sandboxed")
        || str_eq(flag, "--pci-device-sandboxed")
        || str_eq(flag, "--native-device")
        || str_eq(flag, "--native-pci-device")
        || str_eq(flag, "--wasm-device")
        || str_eq(flag, "--wasm-pci-device")
        || str_eq(flag, "--i2c-device")
        || str_eq(flag, "--gpio-device")
}

fn parse_number(flag: &str, v: &str, max: u64) -> (r: Result<u64, String>)
    ensures
        match (r, number_flag(flag@, v@, max as nat)) {
            (Ok(n), Ok(m)) => n == m && m <= max,
            (Err(e), Err(m)) => e@ == m,
            _ => false,
        },
{
    match read_uint(v, 10, max) {
        Ok(n) => Ok(n),
        Err(e) => {
            let q = quote(v);
            let t = cat2(": ", e.text());
            Err(cat5("bad ", flag, " ", q.as_str(), t.as_str()))
        },
    }
}

/// The value that follows `flag`, if the command line has one there.
fn next_value(argv: &Vec<String>, at: usize, flag: &str) -> (r: Result<String, String>)
    ensures
        match r {
            Ok(v) => at < argv@.len() && v@ == argv@[at as int]@,
            Err(e) => at >= argv@.len() && e@ == flag@ + " requires an argument"@,
        },
{
    if at < argv.len() {
        Ok(argv[at].clone())
    } else {
        Err(cat2(flag, " requires an argument"))
    }
}

impl Args {
    fn set_valued(&mut self, kernel: &mut Option<String>, flag: &str, v: String) -> (r: Result<(), String>)
        ensures
            match (
                r,
                valued_flag(Parsing { args: old(self)@, kernel: opt_view(*old(kernel)) }, flag@, v@),
            ) {
                (Ok(_), Ok(p)) => final(self)@ == p.args && opt_view(*final(kernel)) == p.kernel,
                (Err(e), Err(m)) => e@ == m,
                _ => false,
            },
    {
        let ghost want = valued_flag(
            Parsing { args: self@, kernel: opt_view(*kernel) },
            flag@,
            v@,
        );
        if str_eq(flag, "--kernel") {
            *kernel = Some(v);
        } else if str_eq(flag, "--cmdline") {
            self.cmdline = v;
        } else if str_eq(flag, "--disk") {
            self.disks.push(v);
            assert(self@.disks =~= old(self)@.disks.push(v@));
        } else if str_eq(flag, "--mem") {
            self.mem_mb = parse_number(flag, v.as_str(), u64::MAX)?;
        } else if str_eq(flag, "--smp") {
            self.smp = parse_number(flag, v.as_str(), u8::MAX as u64)? as u8;
        } else if str_eq(flag, "--initrd") {
            self.initrd = Some(v);
        } else if str_eq(flag, "--control-socket") {
            self.control_socket = Some(v);
        } else if str_eq(flag, "--restore") {
            self.restore = Some(v);
        } else if str_eq(flag, "--migrate-listen") {
            self.migrate_listen = Some(v);
        } else if str_eq(flag, "--trace-file") {
            self.trace_file = Some(v);
        } else if str_eq(flag, "--crash-dir") {
            self.crash_dir = Some(v);
        } else if str_eq(flag, "--gdb-stub") {
            self.gdb_stub = Some(v);
        } else if str_eq(flag, "--record") {
            self.record = Some(v);
        } else if str_eq(flag, "--replay") {
            self.replay = Some(v);
        } else if str_eq(flag, "--uart2-log") {
            self.uart2_log = Some(v);
        } else if str_eq(flag, "--uart3-log") {
            self.uart3_log = Some(v);
        } else if str_eq(flag, "--uart4-log") {
            self.uart4_log = Some(v);
        } else if str_eq(flag, "--vsock-uds") {
            self.vsock_uds = Some(v);
        } else if str_eq(flag, "--device") {
            let d = DeviceSpec::parse(v.as_str())?;
            self.devices.push(d);
            assert(self@.devices =~= old(self)@.devices.push(d@));
        } else if str_eq(flag, "--pci-device") {
            let d = PciDeviceSpec::parse(v.as_str())?;
            self.pci_devices.push(d);
            assert(self@.pci_devices =~= old(self)@.pci_devices.push(d@));
        } else if str_eq(flag, "--device-sandboxed") {
            let d = DeviceSpec::parse(v.as_str())?;
            self.sandboxed_devices.push(d);
            assert(self@.sandboxed_devices =~= old(self)@.sandboxed_devices.push(d@));
        } else if str_eq(flag, "--pci-device-sandboxed") {
            let d = PciDeviceSpec::parse(v.as_str())?;
            self.sandboxed_pci_devices.push(d);
            assert(self@.sandboxed_pci_devices =~= old(self)@.sandboxed_pci_devices.push(d@));
        } else if str_eq(flag, "--native-device") {
            let d = NativeDeviceSpec::parse(flag, v.as_str())?;
            self.native_devices.push(d);
            assert(self@.native_devices =~= old(self)@.native_devices.push(d@));
        } else if str_eq(flag, "--native-pci-device") {
            let d = NativePciDeviceSpec::parse(flag, v.as_str())?;
            self.native_pci_devices.push(d);
            assert(self@.native_pci_devices =~= old(self)@.native_pci_devices.push(d@));
        } else if str_eq(flag, "--wasm-device") {
            let d = NativeDeviceSpec::parse(flag, v.as_str())?;
            self.wasm_devices.push(d);
            assert(self@.wasm_devices =~= old(self)@.wasm_devices.push(d@));
        } else if str_eq(flag, "--wasm-pci-device") {
            let d = NativePciDeviceSpec::parse(flag, v.as_str())?;
            self.wasm_pci_devices.push(d);
            assert(self@.wasm_pci_devices =~= old(self)@.wasm_pci_devices.push(d@));
        } else if str_eq(flag, "--i2c-device") {
            let d = I2cDeviceSpec::parse(v.as_str())?;
            self.i2c_devices.push(d);
            assert(self@.i2c_devices =~= old(self)@.i2c_devices.push(d@));
        } else if str_eq(flag, "--gpio-device") {
            let d = GpioDeviceSpec::parse(v.as_str())?;
            self.gpio_devices.push(d);
            assert(self@.gpio_devices =~= old(self)@.gpio_devices.push(d@));
        } else {
            return Err(cat2("unrecognized argument: ", flag));
        }
        Ok(())
    }

    fn any_limits(devices: &Vec<DeviceSpec>, pci_devices: &Vec<PciDeviceSpec>) -> (r: bool)
        ensures
            r == ((exists|i: int|
                0 <= i < devices@.len() && (#[trigger] devices@[i]).resource_limits is Some) || (exists|
                i: int,
            |
                0 <= i < pci_devices@.len() && (#[trigger] pci_devices@[i]).resource_limits is Some)),
    {
        let mut i: usize = 0;
        while i < devices.len()
            invariant
                i <= devices@.len(),
                forall|k: int| 0 <= k < i ==> (#[trigger] devices@[k]).resource_limits is None,
            decreases devices@.len() - i,
        {
            if devices[i].resource_limits.is_some() {
                return true;
            }
            i += 1;
        }
        let mut j: usize = 0;
        while j < pci_devices.len()
            invariant
                j <= pci_devices@.len(),
                forall|k: int| 0 <= k < j ==> (#[trigger] pci_devices@[k]).resource_limits is None,
            decreases pci_devices@.len() - j,
        {
            if pci_devices[j].resource_limits.is_some() {
                return true;
            }
            j += 1;
        }
        false
    }

    /// Reads a command line.
    pub fn parse(argv: Vec<String>) -> (r: Result<Self, String>)
        ensures
            match (r, args_of(string_views(argv@))) {
                (Ok(a), Ok(v)) => a@ == v,
                (Err(e), Err(m)) => e@ == m,
                _ => false,
            },
    {
        let ghost all = string_views(argv@);
        let ghost start = Parsing { args: default_args(), kernel: None };
        let mut args = Args::default();
        let mut kernel: Option<String> = None;
        let mut i: usize = 0;
        assert(all.skip(0) =~= all);
        while i < argv.len()
            invariant
                i <= argv@.len(),
                all == string_views(argv@),
                start == (Parsing { args: default_args(), kernel: None }),
                flags_read(start, all) == flags_read(
                    (Parsing { args: args@, kernel: opt_view(kernel) }),
                    all.skip(i as int),
                ),
            decreases argv@.len() - i,
        {
            let flag = argv[i].as_str();
            proof {
                let rest = all.skip(i as int);
                assert(rest[0] == flag@);
                assert(rest.skip(1) =~= all.skip(i as int + 1));
                assert(i + 1 < argv@.len() ==> rest[1] == argv@[i + 1]@ && rest.skip(2) =~= all.skip(
                    i as int + 2,
                ));
            }
            if str_eq(flag, "--net") {
                args.net = true;
                i += 1;
            } else if str_eq(flag, "--rng-modern") {
                args.rng_modern = true;
                i += 1;
            } else if !has_value(flag) {
                return Err(cat2("unrecognized argument: ", flag));
            } else {
                let v = next_value(&argv, i + 1, flag)?;
                args.set_valued(&mut kernel, flag, v)?;
                i += 2;
            }
        }
        assert(all.skip(i as int) =~= seq![]);
        let ghost p = Parsing { args: args@, kernel: opt_view(kernel) };
        assert(flags_read(start, all) == Ok::<Parsing, Seq<char>>(p));
        match kernel {
            None => {
                return Err(cat2("--kernel is required\n", USAGE));
            },
            Some(k) => {
                args.kernel = k;
            },
        }
        proof {
            assert forall|i: int| 0 <= i < p.args.devices.len() implies p.args.devices[i] == args.devices@[i]@ by {}
            assert forall|i: int| 0 <= i < p.args.pci_devices.len() implies p.args.pci_devices[i]
                == args.pci_devices@[i]@ by {}
        }
        if Self::any_limits(&args.devices, &args.pci_devices) {
            proof {
                if exists|i: int| 0 <= i < args.devices@.len() && (#[trigger] args.devices@[i]).resource_limits is Some {
                    let i = choose|i: int| 0 <= i < args.devices@.len() && (#[trigger] args.devices@[i]).resource_limits is Some;
                    assert(p.args.devices[i].resource_limits is Some);
                } else {
                    let i = choose|i: int| 0 <= i < args.pci_devices@.len() && (#[trigger] args.pci_devices@[i]).resource_limits is Some;
                    assert(p.args.pci_devices[i].resource_limits is Some);
                }
            }
            return Err(
                "mem=/cpu= resource limits only apply to --device-sandboxed/--pci-device-sandboxed (an in-process plugin shares the whole VMM's own resource budget)".to_owned(),
            );
        }
        Ok(args)
    }
}

/// A command line is read from the left: what follows a part that is in order
/// goes on where that part ended. So repeated flags accumulate in their order.
pub proof fn law_flags_compose(p: Parsing, a: Seq<Seq<char>>, b: Seq<Seq<char>>)
    requires
        flags_read(p, a) is Ok,
    ensures
        flags_read(p, a + b) == flags_read(flags_read(p, a)->Ok_0, b),
    decreases a.len(),
{
    if a.len() == 0 {
        assert(a + b =~= b);
    } else {
        let all = a + b;
        assert(all[0] == a[0]);
        assert(all.skip(1) =~= a.skip(1) + b);
        if a[0] == "--net"@ {
            law_flags_compose(Parsing { args: ArgsView { net: true, ..p.args }, ..p }, a.skip(1), b);
        } else if a[0] == "--rng-modern"@ {
            law_flags_compose(
                Parsing { args: ArgsView { rng_modern: true, ..p.args }, ..p },
                a.skip(1),
                b,
            );
        } else {
            assert(all[1] == a[1]);
            assert(all.skip(2) =~= a.skip(2) + b);
            law_flags_compose(valued_flag(p, a[0], a[1])->Ok_0, a.skip(2), b);
        }
    }
}

/// A disk given last comes last, behind all disks given before it.
pub proof fn law_disks_accumulate(p: Parsing, a: Seq<Seq<char>>, path: Seq<char>)
    requires
        flags_read(p, a) is Ok,
    ensures
        ({
            let q = flags_read(p, a)->Ok_0;
            flags_read(p, a + seq!["--disk"@, path]) == Ok::<Parsing, Seq<char>>(
                Parsing { args: ArgsView { disks: q.args.disks.push(path), ..q.args }, ..q },
            )
        }),
{
    let b = seq!["--disk"@, path];
    law_flags_compose(p, a, b);
    reveal_strlit("--disk");
    reveal_strlit("--net");
    reveal_strlit("--rng-modern");
    reveal_strlit("--kernel");
    reveal_strlit("--cmdline");
    assert("--disk"@[2] == 'd' && "--net"@[2] == 'n' && "--rng-modern"@[2] == 'r' && "--kernel"@[2] == 'k'
        && "--cmdline"@[2] == 'c');
    assert(b.skip(2) =~= seq![]);
    assert(takes_value("--disk"@));
    let q = flags_read(p, a)->Ok_0;
    assert(valued_flag(q, "--disk"@, path) == Ok::<Parsing, Seq<char>>(
        Parsing { args: ArgsView { disks: q.args.disks.push(path), ..q.args }, ..q },
    ));
    reveal_with_fuel(flags_read, 2);
}

/// A flag with its value, if it takes one.
pub open spec fn is_group(g: Seq<Seq<char>>) -> bool {
    ||| g.len() == 1 && (g[0] == "--net"@ || g[0] == "--rng-modern"@)
    ||| g.len() == 2 && takes_value(g[0])
}

/// Flags, each with its value if it takes one.
pub open spec fn is_groups(argv: Seq<Seq<char>>) -> bool
    decreases argv.len(),
{
    ||| argv.len() == 0
    ||| argv.len() >= 1 && is_group(argv.take(1)) && is_groups(argv.skip(1))
    ||| argv.len() >= 2 && is_group(argv.take(2)) && is_groups(argv.skip(2))
}

/// `p` after one flag and the value `v`, which a flag that takes none ignores.
#[verifier::opaque]
pub open spec fn one_flag(p: Parsing, f: Seq<char>, v: Seq<char>) -> Result<Parsing, Seq<char>> {
    if f == "--net"@ {
        Ok(Parsing { args: ArgsView { net: true, ..p.args }, ..p })
    } else if f == "--rng-modern"@ {
        Ok(Parsing { args: ArgsView { rng_modern: true, ..p.args }, ..p })
    } else {
        valued_flag(p, f, v)
    }
}

/// Whether two outcomes of reading flags are the same but for the message.
pub open spec fn same_reading(a: Result<Parsing, Seq<char>>, b: Result<Parsing, Seq<char>>) -> bool {
    match (a, b) {
        (Ok(p), Ok(q)) => p == q,
        (Err(_), Err(_)) => true,
        _ => false,
    }
}

/// A flag that takes a value is not one of the two that take none.
proof fn lemma_valued_flags(f: Seq<char>)
    requires
        takes_value(f),
    ensures
        f != "--net"@,
        f != "--rng-modern"@,
{
    reveal_strlit("--net");
    reveal_strlit("--rng-modern");
    reveal_strlit("--kernel");
    reveal_strlit("--cmdline");
    reveal_strlit("--disk");
    reveal_strlit("--mem");
    reveal_strlit("--smp");
    reveal_strlit("--initrd");
    reveal_strlit("--control-socket");
    reveal_strlit("--restore");
    reveal_strlit("--migrate-listen");
    reveal_strlit("--trace-file");
    reveal_strlit("--crash-dir");
    reveal_strlit("--gdb-stub");
    reveal_strlit("--record");
    reveal_strlit("--replay");
    reveal_strlit("--uart2-log");
    reveal_strlit("--uart3-log");
    reveal_strlit("--uart4-log");
    reveal_strlit("--vsock-uds");
    reveal_strlit("--device");
    reveal_strlit("--pci-device");
    reveal_strlit("--device-sandboxed");
    reveal_strlit("--pci-device-sandboxed");
    reveal_strlit("--native-device");
    reveal_strlit("--native-pci-device");
    reveal_strlit("--wasm-device");
    reveal_strlit("--wasm-pci-device");
    reveal_strlit("--i2c-device");
    reveal_strlit("--gpio-device");
    assert("--net"@[2] == 'n' && "--net"@[3] == 'e' && "--net"@.len() == 5);
    assert("--rng-modern"@[2] == 'r' && "--rng-modern"@[3] == 'n');
}

/// Whether a value is accepted does not depend on what was read before.
proof fn lemma_same_acceptance(p: Parsing, q: Parsing, f: Seq<char>, v: Seq<char>)
    ensures
        one_flag(p, f, v) is Ok == one_flag(q, f, v) is Ok,
{
    reveal(one_flag);
}

/// The place of a flag among all flags.
spec fn flag_no(f: Seq<char>) -> int {
    if f == "--net"@ {
        0
    } else if f == "--rng-modern"@ {
        1
    } else if f == "--kernel"@ {
        2
    } else if f == "--cmdline"@ {
        3
    } else if f == "--disk"@ {
        4
    } else if f == "--mem"@ {
        5
    } else if f == "--smp"@ {
        6
    } else if f == "--initrd"@ {
        7
    } else if f == "--control-socket"@ {
        8
    } else if f == "--restore"@ {
        9
    } else if f == "--migrate-listen"@ {
        10
    } else if f == "--trace-file"@ {
        11
    } else if f == "--crash-dir"@ {
        12
    } else if f == "--gdb-stub"@ {
        13
    } else if f == "--record"@ {
        14
    } else if f == "--replay"@ {
        15
    } else if f == "--uart2-log"@ {
        16
    } else if f == "--uart3-log"@ {
        17
    } else if f == "--uart4-log"@ {
        18
    } else if f == "--vsock-uds"@ {
        19
    } else if f == "--device"@ {
        20
    } else if f == "--pci-device"@ {
        21
    } else if f == "--device-sandboxed"@ {
        22
    } else if f == "--pci-device-sandboxed"@ {
        23
    } else if f == "--native-device"@ {
        24
    } else if f == "--native-pci-device"@ {
        25
    } else if f == "--wasm-device"@ {
        26
    } else if f == "--wasm-pci-device"@ {
        27
    } else if f == "--i2c-device"@ {
        28
    } else if f == "--gpio-device"@ {
        29
    } else {
        -1
    }
}

/// Whether `p` and `q` agree but for what the flag number `n` sets.
spec fn agree_but_for(p: Parsing, q: Parsing, n: int) -> bool {
    &&& p.args.kernel == q.args.kernel
    &&& n != 0 ==> p.args.net == q.args.net
    &&& n != 1 ==> p.args.rng_modern == q.args.rng_modern
    &&& n != 2 ==> p.kernel == q.kernel
    &&& n != 3 ==> p.args.cmdline == q.args.cmdline
    &&& n != 4 ==> p.args.disks == q.args.disks
    &&& n != 5 ==> p.args.mem_mb == q.args.mem_mb
    &&& n != 6 ==> p.args.smp == q.args.smp
    &&& n != 7 ==> p.args.initrd == q.args.initrd
    &&& n != 8 ==> p.args.control_socket == q.args.control_socket
    &&& n != 9 ==> p.args.restore == q.args.restore
    &&& n != 10 ==> p.args.migrate_listen == q.args.migrate_listen
    &&& n != 11 ==> p.args.trace_file == q.args.trace_file
    &&& n != 12 ==> p.args.crash_dir == q.args.crash_dir
    &&& n != 13 ==> p.args.gdb_stub == q.args.gdb_stub
    &&& n != 14 ==> p.args.record == q.args.record
    &&& n != 15 ==> p.args.replay == q.args.replay
    &&& n != 16 ==> p.args.uart2_log == q.args.uart2_log
    &&& n != 17 ==> p.args.uart3_log == q.args.uart3_log
    &&& n != 18 ==> p.args.uart4_log == q.args.uart4_log
    &&& n != 19 ==> p.args.vsock_uds == q.args.vsock_uds
    &&& n != 20 ==> p.args.devices == q.args.devices
    &&& n != 21 ==> p.args.pci_devices == q.args.pci_devices
    &&& n != 22 ==> p.args.sandboxed_devices == q.args.sandboxed_devices
    &&& n != 23 ==> p.args.sandboxed_pci_devices == q.args.sandboxed_pci_devices
    &&& n != 24 ==> p.args.native_devices == q.args.native_devices
    &&& n != 25 ==> p.args.native_pci_devices == q.args.native_pci_devices
    &&& n != 26 ==> p.args.wasm_devices == q.args.wasm_devices
    &&& n != 27 ==> p.args.wasm_pci_devices == q.args.wasm_pci_devices
    &&& n != 28 ==> p.args.i2c_devices == q.args.i2c_devices
    &&& n != 29 ==> p.args.gpio_devices == q.args.gpio_devices
}

/// Whether `p` and `q` agree in what the flag number `n` sets.
spec fn agree_on(p: Parsing, q: Parsing, n: int) -> bool {
    &&& n == 0 ==> p.args.net == q.args.net
    &&& n == 1 ==> p.args.rng_modern == q.args.rng_modern
    &&& n == 2 ==> p.kernel == q.kernel
    &&& n == 3 ==> p.args.cmdline == q.args.cmdline
    &&& n == 4 ==> p.args.disks == q.args.disks
    &&& n == 5 ==> p.args.mem_mb == q.args.mem_mb
    &&& n == 6 ==> p.args.smp == q.args.smp
    &&& n == 7 ==> p.args.initrd == q.args.initrd
    &&& n == 8 ==> p.args.control_socket == q.args.control_socket
    &&& n == 9 ==> p.args.restore == q.args.restore
    &&& n == 10 ==> p.args.migrate_listen == q.args.migrate_listen
    &&& n == 11 ==> p.args.trace_file == q.args.trace_file
    &&& n == 12 ==> p.args.crash_dir == q.args.crash_dir
    &&& n == 13 ==> p.args.gdb_stub == q.args.gdb_stub
    &&& n == 14 ==> p.args.record == q.args.record
    &&& n == 15 ==> p.args.replay == q.args.replay
    &&& n == 16 ==> p.args.uart2_log == q.args.uart2_log
    &&& n == 17 ==> p.args.uart3_log == q.args.uart3_log
    &&& n == 18 ==> p.args.uart4_log == q.args.uart4_log
    &&& n == 19 ==> p.args.vsock_uds == q.args.vsock_uds
    &&& n == 20 ==> p.args.devices == q.args.devices
    &&& n == 21 ==> p.args.pci_devices == q.args.pci_devices
    &&& n == 22 ==> p.args.sandboxed_devices == q.args.sandboxed_devices
    &&& n == 23 ==> p.args.sandboxed_pci_devices == q.args.sandboxed_pci_devices
    &&& n == 24 ==> p.args.native_devices == q.args.native_devices
    &&& n == 25 ==> p.args.native_pci_devices == q.args.native_pci_devices
    &&& n == 26 ==> p.args.wasm_devices == q.args.wasm_devices
    &&& n == 27 ==> p.args.wasm_pci_devices == q.args.wasm_pci_devices
    &&& n == 28 ==> p.args.i2c_devices == q.args.i2c_devices
    &&& n == 29 ==> p.args.gpio_devices == q.args.gpio_devices
}

proof fn lemma_flag_is_local(p: Parsing, f: Seq<char>, v: Seq<char>)
    requires
        one_flag(p, f, v) is Ok,
    ensures
        agree_but_for(p, one_flag(p, f, v)->Ok_0, flag_no(f)),
{
    reveal(one_flag);
    let q = one_flag(p, f, v)->Ok_0;
    if f == "--net"@ {
        assert(agree_but_for(p, q, 0));
    } else if f == "--rng-modern"@ {
        assert(agree_but_for(p, q, 1));
    } else if f == "--kernel"@ {
        assert(agree_but_for(p, q, 2));
    } else if f == "--cmdline"@ {
        assert(agree_but_for(p, q, 3));
    } else if f == "--disk"@ {
        assert(agree_but_for(p, q, 4));
    } else if f == "--mem"@ {
        assert(agree_but_for(p, q, 5));
    } else if f == "--smp"@ {
        assert(agree_but_for(p, q, 6));
    } else if f == "--initrd"@ {
        assert(agree_but_for(p, q, 7));
    } else if f == "--control-socket"@ {
        assert(agree_but_for(p, q, 8));
    } else if f == "--restore"@ {
        assert(agree_but_for(p, q, 9));
    } else if f == "--migrate-listen"@ {
        assert(agree_but_for(p, q, 10));
    } else if f == "--trace-file"@ {
        assert(agree_but_for(p, q, 11));
    } else if f == "--crash-dir"@ {
        assert(agree_but_for(p, q, 12));
    } else if f == "--gdb-stub"@ {
        assert(agree_but_for(p, q, 13));
    } else if f == "--record"@ {
        assert(agree_but_for(p, q, 14));
    } else if f == "--replay"@ {
        assert(agree_but_for(p, q, 15));
    } else if f == "--uart2-log"@ {
        assert(agree_but_for(p, q, 16));
    } else if f == "--uart3-log"@ {
        assert(agree_but_for(p, q, 17));
    } else if f == "--uart4-log"@ {
        assert(agree_but_for(p, q, 18));
    } else if f == "--vsock-uds"@ {
        assert(agree_but_for(p, q, 19));
    } else if f == "--device"@ {
        assert(agree_but_for(p, q, 20));
    } else if f == "--pci-device"@ {
        assert(agree_but_for(p, q, 21));
    } else if f == "--device-sandboxed"@ {
        assert(agree_but_for(p, q, 22));
    } else if f == "--pci-device-sandboxed"@ {
        assert(agree_but_for(p, q, 23));
    } else if f == "--native-device"@ {
        assert(agree_but_for(p, q, 24));
    } else if f == "--native-pci-device"@ {
        assert(agree_but_for(p, q, 25));
    } else if f == "--wasm-device"@ {
        assert(agree_but_for(p, q, 26));
    } else if f == "--wasm-pci-device"@ {
        assert(agree_but_for(p, q, 27));
    } else if f == "--i2c-device"@ {
        assert(agree_but_for(p, q, 28));
    } else if f == "--gpio-device"@ {
        assert(agree_but_for(p, q, 29));
    }
}

proof fn lemma_flag_is_determined(p: Parsing, q: Parsing, f: Seq<char>, v: Seq<char>)
    requires
        one_flag(p, f, v) is Ok,
        one_flag(q, f, v) is Ok,
        agree_on(p, q, flag_no(f)),
    ensures
        agree_on(one_flag(p, f, v)->Ok_0, one_flag(q, f, v)->Ok_0, flag_no(f)),
{
    reveal(one_flag);
}

proof fn lemma_flags_have_numbers(p: Parsing, f: Seq<char>, v: Seq<char>, g: Seq<char>)
    requires
        one_flag(p, f, v) is Ok,
        f != g,
    ensures
        0 <= flag_no(f) < 30,
        flag_no(f) != flag_no(g),
{
    reveal(one_flag);
}

proof fn lemma_other_flag_agrees(p: Parsing, q: Parsing, n: int, m: int)
    requires
        n != m,
        agree_but_for(p, q, m),
    ensures
        agree_on(p, q, n),
{
}

proof fn lemma_agreeing_ends(p: Parsing, pf: Parsing, pg: Parsing, pfg: Parsing, pgf: Parsing, n: int, m: int)
    requires
        n != m,
        agree_but_for(p, pf, n),
        agree_but_for(p, pg, m),
        agree_but_for(pf, pfg, m),
        agree_but_for(pg, pgf, n),
        agree_on(pf, pgf, n),
        agree_on(pg, pfg, m),
    ensures
        pfg == pgf,
{
}

/// Two different flags do not touch one another's part of the outcome.
proof fn lemma_flags_commute(p: Parsing, f: Seq<char>, v: Seq<char>, g: Seq<char>, w: Seq<char>)
    requires
        f != g,
        one_flag(p, f, v) is Ok,
        one_flag(p, g, w) is Ok,
    ensures
        one_flag(one_flag(p, f, v)->Ok_0, g, w) is Ok,
        one_flag(one_flag(p, f, v)->Ok_0, g, w) == one_flag(one_flag(p, g, w)->Ok_0, f, v),
{
    let pf = one_flag(p, f, v)->Ok_0;
    let pg = one_flag(p, g, w)->Ok_0;
    lemma_same_acceptance(p, pf, g, w);
    lemma_same_acceptance(p, pg, f, v);
    let pfg = one_flag(pf, g, w)->Ok_0;
    let pgf = one_flag(pg, f, v)->Ok_0;
    let (n, m) = (flag_no(f), flag_no(g));
    lemma_flags_have_numbers(p, f, v, g);
    lemma_flag_is_local(p, f, v);
    lemma_flag_is_local(p, g, w);
    lemma_flag_is_local(pf, g, w);
    lemma_flag_is_local(pg, f, v);
    lemma_other_flag_agrees(p, pg, n, m);
    lemma_other_flag_agrees(p, pf, m, n);
    lemma_flag_is_determined(p, pg, f, v);
    lemma_flag_is_determined(p, pf, g, w);
    lemma_agreeing_ends(p, pf, pg, pfg, pgf, n, m);
}

/// The value of a group; a flag that takes none has an empty one.
pub open spec fn group_value(g: Seq<Seq<char>>) -> Seq<char> {
    if g.len() == 2 {
        g[1]
    } else {
        seq![]
    }
}

proof fn lemma_group_read(p: Parsing, g: Seq<Seq<char>>, rest: Seq<Seq<char>>)
    requires
        is_group(g),
    ensures
        flags_read(p, g + rest) == (match one_flag(p, g[0], group_value(g)) {
            Ok(q) => flags_read(q, rest),
            Err(e) => Err(e),
        }),
{
    reveal(one_flag);
    let all = g + rest;
    assert(all[0] == g[0]);
    if g.len() == 1 {
        assert(all.skip(1) =~= rest);
    } else {
        lemma_valued_flags(g[0]);
        assert(all[1] == g[1]);
        assert(all.skip(2) =~= rest);
    }
}

/// Two neighbouring flags, each with its value, may be swapped if they are
/// different flags: either both orders are accepted, with the same outcome, or
/// neither is. So lists keep the order of their own flag alone, and of a flag
/// that is repeated the last one counts, whatever stands between.
#[verifier::spinoff_prover]
#[verifier::rlimit(40)]
pub proof fn law_flags_may_be_swapped(p: Parsing, g1: Seq<Seq<char>>, g2: Seq<Seq<char>>, rest: Seq<Seq<char>>)
    requires
        is_group(g1),
        is_group(g2),
        g1[0] != g2[0],
    ensures
        same_reading(flags_read(p, g1 + g2 + rest), flags_read(p, g2 + g1 + rest)),
{
    let (f, v) = (g1[0], group_value(g1));
    let (g, w) = (g2[0], group_value(g2));
    assert(g1 + g2 + rest =~= g1 + (g2 + rest));
    assert(g2 + g1 + rest =~= g2 + (g1 + rest));
    lemma_group_read(p, g1, g2 + rest);
    lemma_group_read(p, g2, g1 + rest);
    let a = one_flag(p, f, v);
    let b = one_flag(p, g, w);
    if a is Ok {
        lemma_group_read(a->Ok_0, g2, rest);
        lemma_same_acceptance(p, a->Ok_0, g, w);
    }
    if b is Ok {
        lemma_group_read(b->Ok_0, g1, rest);
        lemma_same_acceptance(p, b->Ok_0, f, v);
    }
    if a is Ok && b is Ok {
        lemma_flags_commute(p, f, v, g, w);
    }
}

/// Groups begin with a group, and groups follow it.
proof fn lemma_first_group(before: Seq<Seq<char>>) -> (n: int)
    requires
        is_groups(before),
        before.len() > 0,
    ensures
        1 <= n <= before.len(),
        is_group(before.take(n)),
        is_groups(before.skip(n)),
{
    if is_group(before.take(1)) && is_groups(before.skip(1)) {
        1
    } else {
        2
    }
}

/// Groups that are refused are refused whatever follows them.
proof fn lemma_refused_groups(p: Parsing, before: Seq<Seq<char>>, rest: Seq<Seq<char>>)
    requires
        is_groups(before),
        before.len() > 0,
        flags_read(p, before) is Err,
    ensures
        flags_read(p, before + rest) is Err,
    decreases before.len(),
{
    let n = lemma_first_group(before);
    let g = before.take(n);
    let tail = before.skip(n);
    assert(before =~= g + tail);
    assert(before + rest =~= g + (tail + rest));
    lemma_group_read(p, g, tail);
    lemma_group_read(p, g, tail + rest);
    match one_flag(p, g[0], group_value(g)) {
        Ok(q) => {
            if tail.len() > 0 {
                lemma_refused_groups(q, tail, rest);
            }
        },
        Err(_) => {},
    }
}

proof fn lemma_groups_read(p: Parsing, before: Seq<Seq<char>>, rest: Seq<Seq<char>>)
    requires
        is_groups(before),
    ensures
        match flags_read(p, before) {
            Ok(q) => flags_read(p, before + rest) == flags_read(q, rest),
            Err(_) => flags_read(p, before + rest) is Err,
        },
{
    if flags_read(p, before) is Ok {
        law_flags_compose(p, before, rest);
    } else {
        lemma_refused_groups(p, before, rest);
    }
}

/// The same of a whole command line: swapping two neighbouring flags that are
/// different, behind any others, changes neither whether it is accepted nor
/// what it describes.
pub proof fn law_command_line_order(
    before: Seq<Seq<char>>,
    g1: Seq<Seq<char>>,
    g2: Seq<Seq<char>>,
    rest: Seq<Seq<char>>,
)
    requires
        is_groups(before),
        is_group(g1),
        is_group(g2),
        g1[0] != g2[0],
    ensures
        match (args_of(before + (g1 + g2 + rest)), args_of(before + (g2 + g1 + rest))) {
            (Ok(a), Ok(b)) => a == b,
            (Err(_), Err(_)) => true,
            _ => false,
        },
{
    let start = Parsing { args: default_args(), kernel: None };
    lemma_groups_read(start, before, g1 + g2 + rest);
    lemma_groups_read(start, before, g2 + g1 + rest);
    if let Ok(q) = flags_read(start, before) {
        law_flags_may_be_swapped(q, g1, g2, rest);
    }
}

#[verifier::spinoff_prover]
proof fn lemma_flag_names()
    ensures
        "--kernel"@.len() == 8 && "--kernel"@[2] == 'k',
        "--cmdline"@.len() == 9 && "--cmdline"@[2] == 'c',
        "--disk"@.len() == 6 && "--disk"@[2] == 'd',
        "--mem"@.len() == 5 && "--mem"@[2] == 'm',
        "--smp"@.len() == 5 && "--smp"@[2] == 's',
        "--initrd"@.len() == 8 && "--initrd"@[2] == 'i',
        "--control-socket"@.len() == 16 && "--control-socket"@[2] == 'c',
        "--restore"@.len() == 9 && "--restore"@[2] == 'r',
        "--migrate-listen"@.len() == 16 && "--migrate-listen"@[2] == 'm',
        "--trace-file"@.len() == 12 && "--trace-file"@[2] == 't',
        "--crash-dir"@.len() == 11 && "--crash-dir"@[2] == 'c',
        "--gdb-stub"@.len() == 10 && "--gdb-stub"@[2] == 'g',
        "--record"@.len() == 8 && "--record"@[2] == 'r' && "--record"@[4] == 'c',
        "--replay"@.len() == 8 && "--replay"@[2] == 'r' && "--replay"@[4] == 'p',
        "--uart2-log"@.len() == 11 && "--uart2-log"@[2] == 'u' && "--uart2-log"@[6] == '2',
        "--uart3-log"@.len() == 11 && "--uart3-log"@[2] == 'u' && "--uart3-log"@[6] == '3',
        "--uart4-log"@.len() == 11 && "--uart4-log"@[2] == 'u' && "--uart4-log"@[6] == '4',
        "--vsock-uds"@.len() == 11 && "--vsock-uds"@[2] == 'v',
        "--device"@.len() == 8 && "--device"@[2] == 'd',
        "--pci-device"@.len() == 12 && "--pci-device"@[2] == 'p',
        "--device-sandboxed"@.len() == 18 && "--device-sandboxed"@[2] == 'd',
        "--pci-device-sandboxed"@.len() == 22 && "--pci-device-sandboxed"@[2] == 'p',
        "--native-device"@.len() == 15 && "--native-device"@[2] == 'n',
        "--native-pci-device"@.len() == 19 && "--native-pci-device"@[2] == 'n',
        "--wasm-device"@.len() == 13 && "--wasm-device"@[2] == 'w',
        "--wasm-pci-device"@.len() == 17 && "--wasm-pci-device"@[2] == 'w',
        "--i2c-device"@.len() == 12 && "--i2c-device"@[2] == 'i',
        "--gpio-device"@.len() == 13 && "--gpio-device"@[2] == 'g',
        "--net"@.len() == 5 && "--net"@[2] == 'n',
        "--rng-modern"@.len() == 12 && "--rng-modern"@[2] == 'r',
{
    reveal_strlit("--kernel");
    reveal_strlit("--cmdline");
    reveal_strlit("--disk");
    reveal_strlit("--mem");
    reveal_strlit("--smp");
    reveal_strlit("--initrd");
    reveal_strlit("--control-socket");
    reveal_strlit("--restore");
    reveal_strlit("--migrate-listen");
    reveal_strlit("--trace-file");
    reveal_strlit("--crash-dir");
    reveal_strlit("--gdb-stub");
    reveal_strlit("--record");
    reveal_strlit("--replay");
    reveal_strlit("--uart2-log");
    reveal_strlit("--uart3-log");
    reveal_strlit("--uart4-log");
    reveal_strlit("--vsock-uds");
    reveal_strlit("--device");
    reveal_strlit("--pci-device");
    reveal_strlit("--device-sandboxed");
    reveal_strlit("--pci-device-sandboxed");
    reveal_strlit("--native-device");
    reveal_strlit("--native-pci-device");
    reveal_strlit("--wasm-device");
    reveal_strlit("--wasm-pci-device");
    reveal_strlit("--i2c-device");
    reveal_strlit("--gpio-device");
    reveal_strlit("--net");
    reveal_strlit("--rng-modern");
}

proof fn lemma_one_flag_read(p: Parsing, flag: Seq<char>, v: Seq<char>)
    requires
        takes_value(flag),
    ensures
        flags_read(p, seq![flag, v]) == valued_flag(p, flag, v),
{
    lemma_valued_flags(flag);
    let argv = seq![flag, v];
    assert(argv[0] == flag && argv[1] == v);
    assert(argv.skip(2) =~= seq![]);
    reveal_with_fuel(flags_read, 2);
}

/// Every flag with a text sets the argument that it is named after, to that
/// text, and no other.
#[verifier::spinoff_prover]
pub proof fn law_flags_set_what_they_name(p: Parsing, v: Seq<char>)
    ensures
        flags_read(p, seq!["--kernel"@, v]) == Ok::<Parsing, Seq<char>>(Parsing { kernel: Some(v), ..p }),
        flags_read(p, seq!["--cmdline"@, v]) == Ok::<Parsing, Seq<char>>(
            Parsing { args: ArgsView { cmdline: v, ..p.args }, ..p },
        ),
        flags_read(p, seq!["--initrd"@, v]) == Ok::<Parsing, Seq<char>>(
            Parsing { args: ArgsView { initrd: Some(v), ..p.args }, ..p },
        ),
        flags_read(p, seq!["--control-socket"@, v]) == Ok::<Parsing, Seq<char>>(
            Parsing { args: ArgsView { control_socket: Some(v), ..p.args }, ..p },
        ),
        flags_read(p, seq!["--restore"@, v]) == Ok::<Parsing, Seq<char>>(
            Parsing { args: ArgsView { restore: Some(v), ..p.args }, ..p },
        ),
        flags_read(p, seq!["--migrate-listen"@, v]) == Ok::<Parsing, Seq<char>>(
            Parsing { args: ArgsView { migrate_listen: Some(v), ..p.args }, ..p },
        ),
        flags_read(p, seq!["--trace-file"@, v]) == Ok::<Parsing, Seq<char>>(
            Parsing { args: ArgsView { trace_file: Some(v), ..p.args }, ..p },
        ),
        flags_read(p, seq!["--crash-dir"@, v]) == Ok::<Parsing, Seq<char>>(
            Parsing { args: ArgsView { crash_dir: Some(v), ..p.args }, ..p },
        ),
        flags_read(p, seq!["--gdb-stub"@, v]) == Ok::<Parsing, Seq<char>>(
            Parsing { args: ArgsView { gdb_stub: Some(v), ..p.args }, ..p },
        ),
        flags_read(p, seq!["--record"@, v]) == Ok::<Parsing, Seq<char>>(
            Parsing { args: ArgsView { record: Some(v), ..p.args }, ..p },
        ),
        flags_read(p, seq!["--replay"@, v]) == Ok::<Parsing, Seq<char>>(
            Parsing { args: ArgsView { replay: Some(v), ..p.args }, ..p },
        ),
        flags_read(p, seq!["--uart2-log"@, v]) == Ok::<Parsing, Seq<char>>(
            Parsing { args: ArgsView { uart2_log: Some(v), ..p.args }, ..p },
        ),
        flags_read(p, seq!["--uart3-log"@, v]) == Ok::<Parsing, Seq<char>>(
            Parsing { args: ArgsView { uart3_log: Some(v), ..p.args }, ..p },
        ),
        flags_read(p, seq!["--uart4-log"@, v]) == Ok::<Parsing, Seq<char>>(
            Parsing { args: ArgsView { uart4_log: Some(v), ..p.args }, ..p },
        ),
        flags_read(p, seq!["--vsock-uds"@, v]) == Ok::<Parsing, Seq<char>>(
            Parsing { args: ArgsView { vsock_uds: Some(v), ..p.args }, ..p },
        ),
        flags_read(p, seq!["--net"@]) == Ok::<Parsing, Seq<char>>(
            Parsing { args: ArgsView { net: true, ..p.args }, ..p },
        ),
        flags_read(p, seq!["--rng-modern"@]) == Ok::<Parsing, Seq<char>>(
            Parsing { args: ArgsView { rng_modern: true, ..p.args }, ..p },
        ),
{
    lemma_flag_names();
    lemma_one_flag_read(p, "--kernel"@, v);
    lemma_one_flag_read(p, "--cmdline"@, v);
    lemma_one_flag_read(p, "--initrd"@, v);
    lemma_one_flag_read(p, "--control-socket"@, v);
    lemma_one_flag_read(p, "--restore"@, v);
    lemma_one_flag_read(p, "--migrate-listen"@, v);
    lemma_one_flag_read(p, "--trace-file"@, v);
    lemma_one_flag_read(p, "--crash-dir"@, v);
    lemma_one_flag_read(p, "--gdb-stub"@, v);
    lemma_one_flag_read(p, "--record"@, v);
    lemma_one_flag_read(p, "--replay"@, v);
    lemma_one_flag_read(p, "--uart2-log"@, v);
    lemma_one_flag_read(p, "--uart3-log"@, v);
    lemma_one_flag_read(p, "--uart4-log"@, v);
    lemma_one_flag_read(p, "--vsock-uds"@, v);
    reveal_with_fuel(flags_read, 2);
    assert(seq!["--net"@].skip(1) =~= seq![]);
    assert(seq!["--rng-modern"@].skip(1) =~= seq![]);
}

/// Every flag that describes a device adds that device to the list of its kind,
/// behind those that were given before, and changes nothing else; one that is
/// described wrongly is refused.
#[verifier::spinoff_prover]
pub proof fn law_device_flags_add_devices(p: Parsing, v: Seq<char>)
    ensures
        flags_read(p, seq!["--device"@, v]) == (match device_spec(v) {
            Ok(d) => Ok::<Parsing, Seq<char>>(
                Parsing { args: ArgsView { devices: p.args.devices.push(d), ..p.args }, ..p },
            ),
            Err(e) => Err(e),
        }),
        flags_read(p, seq!["--pci-device"@, v]) == (match pci_device_spec(v) {
            Ok(d) => Ok::<Parsing, Seq<char>>(
                Parsing { args: ArgsView { pci_devices: p.args.pci_devices.push(d), ..p.args }, ..p },
            ),
            Err(e) => Err(e),
        }),
        flags_read(p, seq!["--device-sandboxed"@, v]) == (match device_spec(v) {
            Ok(d) => Ok::<Parsing, Seq<char>>(
                Parsing { args: ArgsView { sandboxed_devices: p.args.sandboxed_devices.push(d), ..p.args }, ..p },
            ),
            Err(e) => Err(e),
        }),
        flags_read(p, seq!["--pci-device-sandboxed"@, v]) == (match pci_device_spec(v) {
            Ok(d) => Ok::<Parsing, Seq<char>>(
                Parsing { args: ArgsView { sandboxed_pci_devices: p.args.sandboxed_pci_devices.push(d), ..p.args }, ..p },
            ),
            Err(e) => Err(e),
        }),
        flags_read(p, seq!["--native-device"@, v]) == (match native_device_spec("--native-device"@, v) {
            Ok(d) => Ok::<Parsing, Seq<char>>(
                Parsing { args: ArgsView { native_devices: p.args.native_devices.push(d), ..p.args }, ..p },
            ),
            Err(e) => Err(e),
        }),
        flags_read(p, seq!["--native-pci-device"@, v]) == (match native_pci_device_spec("--native-pci-device"@, v) {
            Ok(d) => Ok::<Parsing, Seq<char>>(
                Parsing { args: ArgsView { native_pci_devices: p.args.native_pci_devices.push(d), ..p.args }, ..p },
            ),
            Err(e) => Err(e),
        }),
        flags_read(p, seq!["--wasm-device"@, v]) == (match native_device_spec("--wasm-device"@, v) {
            Ok(d) => Ok::<Parsing, Seq<char>>(
                Parsing { args: ArgsView { wasm_devices: p.args.wasm_devices.push(d), ..p.args }, ..p },
            ),
            Err(e) => Err(e),
        }),
        flags_read(p, seq!["--wasm-pci-device"@, v]) == (match native_pci_device_spec("--wasm-pci-device"@, v) {
            Ok(d) => Ok::<Parsing, Seq<char>>(
                Parsing { args: ArgsView { wasm_pci_devices: p.args.wasm_pci_devices.push(d), ..p.args }, ..p },
            ),
            Err(e) => Err(e),
        }),
        flags_read(p, seq!["--i2c-device"@, v]) == (match i2c_device_spec(v) {
            Ok(d) => Ok::<Parsing, Seq<char>>(
                Parsing { args: ArgsView { i2c_devices: p.args.i2c_devices.push(d), ..p.args }, ..p },
            ),
            Err(e) => Err(e),
        }),
        flags_read(p, seq!["--gpio-device"@, v]) == (match gpio_device_spec(v) {
            Ok(d) => Ok::<Parsing, Seq<char>>(
                Parsing { args: ArgsView { gpio_devices: p.args.gpio_devices.push(d), ..p.args }, ..p },
            ),
            Err(e) => Err(e),
        }),
{
    lemma_flag_names();
    lemma_one_flag_read(p, "--device"@, v);
    lemma_one_flag_read(p, "--pci-device"@, v);
    lemma_one_flag_read(p, "--device-sandboxed"@, v);
    lemma_one_flag_read(p, "--pci-device-sandboxed"@, v);
    lemma_one_flag_read(p, "--native-device"@, v);
    lemma_one_flag_read(p, "--native-pci-device"@, v);
    lemma_one_flag_read(p, "--wasm-device"@, v);
    lemma_one_flag_read(p, "--wasm-pci-device"@, v);
    lemma_one_flag_read(p, "--i2c-device"@, v);
    lemma_one_flag_read(p, "--gpio-device"@, v);
}

/// The sizes are taken as they are given, in decimal, as far as there is room
/// for them.
pub proof fn law_numbers_are_taken(p: Parsing, n: nat, v: Seq<char>)
    ensures
        n <= u64::MAX ==> flags_read(p, seq!["--mem"@, dec(n)]) == Ok::<Parsing, Seq<char>>(
            Parsing { args: ArgsView { mem_mb: n as u64, ..p.args }, ..p },
        ),
        n <= 255 ==> flags_read(p, seq!["--smp"@, dec(n)]) == Ok::<Parsing, Seq<char>>(
            Parsing { args: ArgsView { smp: n as u8, ..p.args }, ..p },
        ),
        parse_uint(v, 10, u64::MAX as nat) is Err ==> flags_read(p, seq!["--mem"@, v]) is Err,
        parse_uint(v, 10, 255) is Err ==> flags_read(p, seq!["--smp"@, v]) is Err,
{
    lemma_flag_names();
    lemma_one_flag_read(p, "--mem"@, dec(n));
    lemma_one_flag_read(p, "--smp"@, dec(n));
    lemma_one_flag_read(p, "--mem"@, v);
    lemma_one_flag_read(p, "--smp"@, v);
    if n <= u64::MAX {
        crate::text::law_numeral_round_trip(n, 10, u64::MAX as nat);
    }
    if n <= 255 {
        crate::text::law_numeral_round_trip(n, 10, 255);
    }
}

/// What was not given has its default: 256 MiB, one CPU, the standard command
/// line, and nothing else. The kernel must be given; a flag that there is not,
/// or one that lacks its value, is refused.
pub proof fn law_defaults(kernel: Seq<char>, flag: Seq<char>)
    ensures
        args_of(seq!["--kernel"@, kernel]) matches Ok(a) && {
            &&& a.kernel == kernel
            &&& a.mem_mb == 256
            &&& a.smp == 1
            &&& a.cmdline == "console=ttyS0 panic=1"@
            &&& a.initrd is None
            &&& a.devices.len() == 0 && a.pci_devices.len() == 0
            &&& a.sandboxed_devices.len() == 0 && a.sandboxed_pci_devices.len() == 0
            &&& a.native_devices.len() == 0 && a.native_pci_devices.len() == 0
            &&& a.wasm_devices.len() == 0 && a.wasm_pci_devices.len() == 0
            &&& a.i2c_devices.len() == 0 && a.gpio_devices.len() == 0 && a.disks.len() == 0
            &&& a.uart2_log is None && a.uart3_log is None && a.uart4_log is None
            &&& a.vsock_uds is None && a.control_socket is None
            &&& !a.net && !a.rng_modern
            &&& a.restore is None && a.migrate_listen is None
            &&& a.trace_file is None && a.crash_dir is None && a.gdb_stub is None
            &&& a.record is None && a.replay is None
        },
        args_of(seq![]) is Err,
        !takes_value(flag) && flag != "--net"@ && flag != "--rng-modern"@ ==> args_of(seq![flag]) is Err,
        takes_value(flag) ==> args_of(seq![flag]) is Err,
{
    let p = Parsing { args: default_args(), kernel: None };
    law_flags_set_what_they_name(p, kernel);
    if takes_value(flag) {
        lemma_valued_flags(flag);
    }
    assert(seq![flag][0] == flag);
}

/// Whether a text can be one field of a description.
pub open spec fn is_field(s: Seq<char>) -> bool {
    !s.contains(':')
}

proof fn lemma_numbers_are_fields(n: nat)
    ensures
        is_field(hex0x(n)),
        is_field(dec(n)),
        !hex0x(n).contains('='),
        n <= u64::MAX ==> forall|what: Seq<char>| #[trigger] hex_field(hex0x(n), what) == Ok::<u64, Seq<char>>(n as u64),
{
    crate::text::law_numeral_round_trip(n, 16, n);
    crate::text::law_numeral_round_trip(n, 10, n);
    reveal_strlit("0x");
    let (h, x, d) = (crate::text::hex(n), hex0x(n), dec(n));
    assert forall|k: int| 0 <= k < x.len() implies x[k] != ':' && x[k] != '=' by {
        if k >= 2 {
            assert(x[k] == h[k - 2]);
            assert(crate::text::digit_value(h[k - 2], 16) is Some);
        }
    }
    assert forall|k: int| 0 <= k < d.len() implies d[k] != ':' by {
        assert(crate::text::digit_value(d[k], 10) is Some);
    }
    if n <= u64::MAX {
        crate::text::law_numeral_round_trip(n, 16, u64::MAX as nat);
        assert(x.take(2) =~= "0x"@);
        assert(x.skip(2) =~= h);
    }
}

proof fn lemma_fields(a: Seq<char>, b: Seq<char>, c: Seq<char>, d: Seq<char>)
    requires
        is_field(a),
        is_field(b),
        is_field(c),
        is_field(d),
    ensures
        split(a + seq![':'] + b, ':') == seq![a, b],
        split(a + seq![':'] + b + seq![':'] + c, ':') == seq![a, b, c],
        split(a + seq![':'] + b + seq![':'] + c + seq![':'] + d, ':') == seq![a, b, c, d],
{
    crate::text::law_split_everywhere(a, b, ':');
    crate::text::law_split_everywhere(b, c, ':');
    crate::text::law_split_everywhere(c, d, ':');
    crate::text::law_split_everywhere(d, d, ':');
    let ab = a + seq![':'] + b;
    assert(split(ab, ':') =~= seq![a, b]);
    crate::text::law_split_everywhere(ab, c, ':');
    let abc = ab + seq![':'] + c;
    assert(split(abc, ':') =~= seq![a, b, c]);
    crate::text::law_split_everywhere(abc, d, ':');
    assert(split(abc + seq![':'] + d, ':') =~= seq![a, b, c, d]);
}

proof fn lemma_no_options(spec: Seq<char>)
    ensures
        trailing(seq![], spec) == Ok::<TrailingOptions, Seq<char>>(
            TrailingOptions { dma_range: None, resource_limits: None },
        ),
{
}

/// A description of a device is taken field by field: where its code is, the
/// name of its class, and where it goes in memory. A size of zero, or a range
/// past the end of the address space, is refused.
pub proof fn law_device_descriptions(path: Seq<char>, class: Seq<char>, base: u64, size: u64)
    requires
        is_field(path),
        is_field(class),
    ensures
        ({
            let s = path + seq![':'] + class + seq![':'] + hex0x(base as nat) + seq![':'] + hex0x(size as nat);
            if size > 0 && base + size <= u64::MAX {
                device_spec(s) == Ok::<DeviceView, Seq<char>>(
                    DeviceView { path, class, base, size, dma_range: None, resource_limits: None },
                )
            } else {
                device_spec(s) is Err
            }
        }),
        device_spec(path) is Err,
        device_spec(path + seq![':'] + class) is Err,
{
    let (b, z) = (hex0x(base as nat), hex0x(size as nat));
    let s = path + seq![':'] + class + seq![':'] + b + seq![':'] + z;
    lemma_numbers_are_fields(base as nat);
    lemma_numbers_are_fields(size as nat);
    lemma_fields(path, class, b, z);
    crate::text::law_split_everywhere(path, class, ':');
    assert(split(s, ':').skip(4) =~= seq![]);
    lemma_no_options(s);
}

/// A native plugin is described by where its code is and where it goes.
pub proof fn law_native_descriptions(flag: Seq<char>, path: Seq<char>, base: u64, size: u64, number: nat)
    requires
        is_field(path),
    ensures
        ({
            let s = path + seq![':'] + hex0x(base as nat) + seq![':'] + hex0x(size as nat);
            if size > 0 && base + size <= u64::MAX {
                native_device_spec(flag, s) == Ok::<NativeDeviceView, Seq<char>>(
                    NativeDeviceView { path, base, size, dma_range: None },
                )
            } else {
                native_device_spec(flag, s) is Err
            }
        }),
        ({
            let s = path + seq![':'] + dec(number);
            if number <= 31 {
                native_pci_device_spec(flag, s) == Ok::<NativePciDeviceView, Seq<char>>(
                    NativePciDeviceView { path, device_number: number as u8, dma_range: None },
                )
            } else {
                native_pci_device_spec(flag, s) is Err
            }
        }),
{
    let (b, z, n) = (hex0x(base as nat), hex0x(size as nat), dec(number));
    lemma_numbers_are_fields(base as nat);
    lemma_numbers_are_fields(size as nat);
    lemma_numbers_are_fields(number);
    lemma_fields(path, b, z, z);
    lemma_fields(path, n, z, z);
    let s = path + seq![':'] + b + seq![':'] + z;
    let t = path + seq![':'] + n;
    assert(split(s, ':').skip(3) =~= seq![]);
    assert(split(t, ':').skip(2) =~= seq![]);
    lemma_no_options(s);
    lemma_no_options(t);
    law_device_numbers(number);
}

/// A place on the PCI bus is a number from 0 to 31, whose function 0 it is.
pub proof fn law_device_numbers(number: nat)
    ensures
        number <= 31 ==> device_number_field(dec(number)) == Ok::<u8, Seq<char>>(number as u8),
        number > 31 ==> device_number_field(dec(number)) is Err,
        number <= 31 ==> devfn_of(number as u8) == 8 * number,
{
    crate::text::law_numeral_round_trip(number, 10, number);
    if number <= 255 {
        crate::text::law_numeral_round_trip(number, 10, 255);
    } else {
        lemma_too_large(dec(number), number, 255);
    }
}

proof fn lemma_too_large(s: Seq<char>, n: nat, max: nat)
    requires
        max < n,
        parse_uint(s, 10, n) == Ok::<nat, crate::text::IntError>(n),
    ensures
        parse_uint(s, 10, max) is Err,
{
    let t = if s[0] == '+' { s.skip(1) } else { s };
    lemma_digits_bounded(t, n, max, 0);
}

proof fn lemma_digits_bounded(s: Seq<char>, big: nat, max: nat, acc: nat)
    requires
        max < big,
        acc <= max,
    ensures
        crate::text::digits_from(s, 10, max, acc) matches Ok(n) ==> n <= max && crate::text::digits_from(s, 10, big, acc)
            == Ok::<nat, crate::text::IntError>(n),
    decreases s.len(),
{
    if s.len() > 0 {
        if let Some(d) = crate::text::digit_value(s[0], 10) {
            if acc * 10 + d <= max {
                lemma_digits_bounded(s.skip(1), big, max, acc * 10 + d);
            }
        }
    }
}

/// A device on the PCI bus is described by where its code is, its class and its
/// number; one on the I2C bus by its 7-bit address in place of the number; and a
/// GPIO bank by the first two alone.
pub proof fn law_bus_device_descriptions(path: Seq<char>, class: Seq<char>, number: nat, addr: u64)
    requires
        is_field(path),
        is_field(class),
    ensures
        ({
            let s = path + seq![':'] + class + seq![':'] + dec(number);
            if number <= 31 {
                pci_device_spec(s) == Ok::<PciDeviceView, Seq<char>>(
                    PciDeviceView {
                        path,
                        class,
                        device_number: number as u8,
                        dma_range: None,
                        resource_limits: None,
                    },
                )
            } else {
                pci_device_spec(s) is Err
            }
        }),
        ({
            let s = path + seq![':'] + class + seq![':'] + hex0x(addr as nat);
            if addr <= 0x7f {
                i2c_device_spec(s) == Ok::<I2cDeviceView, Seq<char>>(I2cDeviceView { path, class, addr: addr as u8 })
            } else {
                i2c_device_spec(s) is Err
            }
        }),
        gpio_device_spec(path + seq![':'] + class) == Ok::<GpioDeviceView, Seq<char>>(GpioDeviceView { path, class }),
        gpio_device_spec(path) is Err,
{
    let (n, a) = (dec(number), hex0x(addr as nat));
    lemma_numbers_are_fields(number);
    lemma_numbers_are_fields(addr as nat);
    lemma_fields(path, class, n, n);
    lemma_fields(path, class, a, a);
    law_device_numbers(number);
    let s = path + seq![':'] + class + seq![':'] + n;
    assert(split(s, ':').skip(3) =~= seq![]);
    lemma_no_options(s);
    crate::text::law_split_everywhere(path, class, ':');
}

/// What may follow a description: a range of guest memory that the device may
/// use, taken as it is given unless it is empty or wraps, and limits.
pub proof fn law_dma_ranges_are_taken(base: u64, size: u64, spec: Seq<char>)
    ensures
        if size > 0 && base + size <= u64::MAX {
            trailing(seq![hex0x(base as nat), hex0x(size as nat)], spec) == Ok::<TrailingOptions, Seq<char>>(
                TrailingOptions { dma_range: Some((base, size)), resource_limits: None },
            )
        } else {
            trailing(seq![hex0x(base as nat), hex0x(size as nat)], spec) is Err
        },
{
    let (b, z) = (hex0x(base as nat), hex0x(size as nat));
    lemma_numbers_are_fields(base as nat);
    lemma_numbers_are_fields(size as nat);
    let rest = seq![b, z];
    assert(rest[0] == b && rest[1] == z);
    crate::text::law_first_place(b, '=');
    crate::text::law_first_place(z, '=');
    assert(rest.skip(2) =~= seq![]);
}

/// A limit sets what its name says: `mem` that many MiB, and `cpu` that many
/// hundredths of a CPU, from one to ten thousand. Zero of either is refused,
/// and so is any other name. Each leaves the other limit as it is.
pub proof fn law_limits_are_taken(l: ResourceLimits, n: nat, key: Seq<char>, spec: Seq<char>)
    requires
        !key.contains('='),
        key != "mem"@,
        key != "cpu"@,
    ensures
        limit_added(l, "mem"@ + seq!['='] + dec(n), spec) matches Ok(m) ==> 0 < n <= u64::MAX && m == (ResourceLimits {
            mem_limit_mb: Some(n as u64),
            ..l
        }),
        0 < n <= u64::MAX ==> limit_added(l, "mem"@ + seq!['='] + dec(n), spec) is Ok,
        limit_added(l, "cpu"@ + seq!['='] + dec(n), spec) matches Ok(m) ==> 0 < n <= 10_000 && m == (ResourceLimits {
            cpu_quota_percent: Some(n as u32),
            ..l
        }),
        0 < n <= 10_000 ==> limit_added(l, "cpu"@ + seq!['='] + dec(n), spec) is Ok,
        limit_added(l, key + seq!['='] + dec(n), spec) is Err,
        limit_added(l, key, spec) is Err,
{
    reveal_strlit("mem");
    reveal_strlit("cpu");
    assert("mem"@[0] == 'm' && "cpu"@[0] == 'c');
    assert(!"mem"@.contains('=') && !"cpu"@.contains('='));
    crate::text::law_split_once("mem"@, dec(n), '=');
    crate::text::law_split_once("cpu"@, dec(n), '=');
    crate::text::law_split_once(key, dec(n), '=');
    crate::text::law_numeral_round_trip(n, 10, n);
    if n <= u64::MAX {
        crate::text::law_numeral_round_trip(n, 10, u64::MAX as nat);
    } else {
        lemma_too_large(dec(n), n, u64::MAX as nat);
    }
    if n <= u32::MAX {
        crate::text::law_numeral_round_trip(n, 10, u32::MAX as nat);
    } else {
        lemma_too_large(dec(n), n, u32::MAX as nat);
    }
}

/// Limits are taken one after the other, and the first that is wrong is an
/// error. A device has limits if and only if one was given.
pub proof fn law_limits_add_up(a: Seq<char>, rest: Seq<Seq<char>>, spec: Seq<char>)
    ensures
        limits_of(seq![], spec) == Ok::<ResourceLimits, Seq<char>>(
            ResourceLimits { mem_limit_mb: None, cpu_quota_percent: None },
        ),
        limits_of(rest.push(a), spec) == (match limits_of(rest, spec) {
            Ok(l) => limit_added(l, a, spec),
            Err(e) => Err(e),
        }),
        !has_dma_range(rest) ==> match (trailing(rest, spec), limits_of(rest, spec)) {
            (Ok(t), Ok(l)) => t.dma_range is None && (match t.resource_limits {
                Some(m) => m == l,
                None => l.mem_limit_mb is None && l.cpu_quota_percent is None,
            }),
            (Err(_), Err(_)) => true,
            _ => false,
        },
{
    assert(rest.push(a).drop_last() =~= rest);
}

} // verus!
