//! GPU selection for virtual displays.

use crate::text::{
    append_decimal, behind_prefix, decimal, digit_value, digits_value, is_padding, lines, lines_of,
    padding_is_trimmed, parse_u32, same_text, split, split_of, texts, trim, trim_of, trim_start,
    trim_start_of, u32_value, without_prefix,
};
use vstd::prelude::*;

verus! {

/// Detected GPU configuration for an Xorg virtual display.
#[derive(Debug, Clone)]
pub struct GpuConfig {
    /// Xorg driver name: "nvidia" or "dummy".
    pub driver: String,
    /// PCI BusID in Xorg format, e.g. "PCI:187:0:0" (nvidia only).
    pub bus_id: Option<String>,
    /// DFP output name for ConnectedMonitor, e.g. "DFP-0" (nvidia only).
    pub dfp_output: Option<String>,
}

/// A detected NVIDIA GPU.
#[derive(Debug, Clone)]
pub struct NvidiaGpu {
    /// Model name, e.g. "NVIDIA L40S".
    pub model: String,
    /// PCI bus location, e.g. "0000:bb:00.0".
    pub pci_address: String,
    /// Xorg-format BusID, e.g. "PCI:187:0:0".
    pub xorg_bus_id: String,
}

/// What a GPU record says, as plain text.
pub struct GpuRecord {
    pub model: Seq<char>,
    pub pci_address: Seq<char>,
    pub xorg_bus_id: Seq<char>,
}

impl View for NvidiaGpu {
    type V = GpuRecord;

    open spec fn view(&self) -> GpuRecord {
        GpuRecord {
            model: self.model@,
            pci_address: self.pci_address@,
            xorg_bus_id: self.xorg_bus_id@,
        }
    }
}

/// One directory under `/proc/driver/nvidia/gpus`.
#[derive(Debug, Clone)]
pub struct ProcGpu {
    /// The directory's name, a PCI address.
    pub dir_name: String,
    /// The text of its `information` file, where it could be read.
    pub information: Option<String>,
}

/// What `/proc/driver/nvidia/gpus` holds.
#[derive(Debug, Clone)]
pub enum ProcListing {
    /// The directory is not there.
    Missing,
    /// The directory or one of its entries could not be read.
    Unreadable,
    /// Its entries, in the order in which they were listed.
    Entries(Vec<ProcGpu>),
}

/// What was found on the host about NVIDIA GPUs.
#[derive(Debug, Clone)]
pub struct NvidiaProbe {
    /// Whether the Xorg driver `nvidia_drv.so` is installed.
    pub driver_installed: bool,
    pub proc_gpus: ProcListing,
    /// What `nvidia-smi` printed about PCI bus ids, where it ran and succeeded.
    pub smi_stdout: Option<String>,
}

/// Why no NVIDIA GPU can be used.
#[derive(Debug, Clone, Copy, PartialEq, Eq, Structural)]
pub enum GpuError {
    DriverNotInstalled,
    KernelDriverNotLoaded,
    ProcUnreadable,
    NoDisplayGpus,
}

/// EDID v1.4 block of a "Dell Virtual HD" monitor, for headless NVIDIA displays.
/// It declares 1920x1080 as the preferred timing.
pub const EDID_BYTES: [u8; 128] = [
    0x00, 0xFF, 0xFF, 0xFF, 0xFF, 0xFF, 0xFF, 0x00,  // 0x00: Header
    0x10, 0xAC, 0x00, 0x00, 0x00, 0x00, 0x00, 0x00,  // 0x08: Manufacturer DEL, product 0
    0x01, 0x1D, 0x01, 0x04, 0xA5, 0x34, 0x20, 0x78,  // 0x10: Week 1, year 2019, EDID 1.4, digital
    0x3A, 0xEE, 0x95, 0xA3, 0x54, 0x4C, 0x99, 0x26,  // 0x18: Chromaticity coordinates
    0x0F, 0x50, 0x54, 0xA5, 0x4B, 0x00, 0x71, 0x4F,  // 0x20: Established and standard timings
    0x81, 0x80, 0xA9, 0xC0, 0xD1, 0xC0, 0x01, 0x01,  // 0x28: Standard timings
    0x01, 0x01, 0x01, 0x01, 0x01, 0x01, 0x02, 0x3A,  // 0x30: Standard timings, detailed timing
    0x80, 0x18, 0x71, 0x38, 0x2D, 0x40, 0x58, 0x2C,  // 0x38: Detailed timing: 1920x1080 at 60 Hz
    0x45, 0x00, 0x09, 0x25, 0x21, 0x00, 0x00, 0x1E,  // 0x40: Detailed timing
    0x00, 0x00, 0x00, 0xFF, 0x00, 0x56, 0x49, 0x52,  // 0x48: Serial: "VIRTUAL00000"
    0x54, 0x55, 0x41, 0x4C, 0x30, 0x30, 0x30, 0x30,  // 0x50: Serial
    0x30, 0x0A, 0x00, 0x00, 0x00, 0xFC, 0x00, 0x56,  // 0x58: Serial, monitor name: "Virtual HD"
    0x69, 0x72, 0x74, 0x75, 0x61, 0x6C, 0x20, 0x48,  // 0x60: Monitor name
    0x44, 0x0A, 0x20, 0x20, 0x00, 0x00, 0x00, 0xFD,  // 0x68: Monitor name, range limits
    0x00, 0x32, 0x4B, 0x1E, 0x51, 0x11, 0x00, 0x0A,  // 0x70: Range limits: 50-75 Hz, 30-81 kHz
    0x20, 0x20, 0x20, 0x20, 0x20, 0x20, 0x00, 0xC9,  // 0x78: Padding, extension flag, checksum byte
];

// ---------------------------------------------------------------------------
// PCI addresses
// ---------------------------------------------------------------------------

/// The text in lower case, as `str::to_lowercase` gives it.
pub uninterp spec fn lowercase_of(s: Seq<char>) -> Seq<char>;

/// An ASCII letter in lower case; any other character as it is.
pub open spec fn ascii_lower(c: char) -> char {
    if 'A' as u32 <= c as u32 <= 'Z' as u32 {
        (c as u32 + 32) as char
    } else {
        c
    }
}

/// `str::to_lowercase`: the text with Unicode lower case mapping. The mapping
/// is named, not spelled out, but for ASCII text, where it changes `A` to `Z`
/// into `a` to `z` and nothing else.
#[verifier::external_body]
fn to_lowercase(s: &str) -> (r: String)
    ensures
        r@ == lowercase_of(s@),
        s.is_ascii() ==> r@ == s@.map_values(|c: char| ascii_lower(c)),
{
    s.to_lowercase()
}

/// A lower-case PCI address without its domain, where the domain is zero.
pub open spec fn pci_without_domain(addr: Seq<char>) -> Seq<char> {
    match behind_prefix(addr, "00000000:"@) {
        Some(rest) => rest,
        None => match behind_prefix(addr, "0000:"@) {
            Some(rest) => rest,
            None => addr,
        },
    }
}

/// Removes the leading domain (`0000:` or `00000000:`) of a PCI address.
pub fn strip_pci_domain(addr: &str) -> (r: String)
    ensures
        r@ == pci_without_domain(addr@),
{
    match without_prefix(addr, "00000000:") {
        Some(rest) => rest.to_owned(),
        None => match without_prefix(addr, "0000:") {
            Some(rest) => rest.to_owned(),
            None => addr.to_owned(),
        },
    }
}

/// Normalizes a PCI address for comparison:
/// "00000000:BB:00.0" and "0000:bb:00.0" become "bb:00.0".
pub fn normalize_pci(addr: &str) -> (r: String)
    ensures
        r@ == pci_without_domain(lowercase_of(trim_of(addr@))),
{
    strip_pci_domain(to_lowercase(trim(addr)).as_str())
}

/// The number that a hexadecimal text spells, zero where it spells none.
pub open spec fn hex_or_zero(s: Seq<char>) -> nat {
    match u32_value(s, 16) {
        Some(v) => v as nat,
        None => 0,
    }
}

/// A BusID of Xorg.
pub open spec fn bus_id(bus: nat, device: nat, function: nat) -> Seq<char> {
    "PCI:"@ + decimal(bus) + ":"@ + decimal(device) + ":"@ + decimal(function)
}

/// The Xorg BusID of a PCI address: bus, device and function in decimal, or the
/// address itself where it does not have three parts. The first of four parts is a
/// domain, which a BusID does not have.
pub open spec fn xorg_bus_id_of(pci_addr: Seq<char>) -> Seq<char> {
    let addr = pci_without_domain(trim_of(pci_addr));
    let parts = split_of(addr, ":."@);
    if parts.len() == 4 {
        bus_id(hex_or_zero(parts[1]), hex_or_zero(parts[2]), hex_or_zero(parts[3]))
    } else if parts.len() >= 3 {
        bus_id(hex_or_zero(parts[0]), hex_or_zero(parts[1]), hex_or_zero(parts[2]))
    } else {
        "PCI:"@ + addr
    }
}

fn parse_hex_or_zero(s: &str) -> (r: u32)
    ensures
        r == hex_or_zero(s@),
{
    match parse_u32(s, 16) {
        Some(v) => v,
        None => 0,
    }
}

/// Converts a PCI bus address to Xorg BusID format:
/// "0000:bb:00.0" becomes "PCI:187:0:0".
pub fn pci_to_xorg_bus_id(pci_addr: &str) -> (r: String)
    ensures
        r@ == xorg_bus_id_of(pci_addr@),
{
    let addr: String = strip_pci_domain(trim(pci_addr));
    let parts: Vec<String> = split(addr.as_str(), ":.");
    let ghost pieces = split_of(addr@, ":."@);
    assert(pieces =~= texts(parts@));
    let mut r: String = "PCI:".to_owned();
    if parts.len() >= 3 {
        let first: usize = if parts.len() == 4 {
            1
        } else {
            0
        };
        append_decimal(&mut r, parse_hex_or_zero(parts[first].as_str()) as u64);
        r.append(":");
        append_decimal(&mut r, parse_hex_or_zero(parts[first + 1].as_str()) as u64);
        r.append(":");
        append_decimal(&mut r, parse_hex_or_zero(parts[first + 2].as_str()) as u64);
    } else {
        r.append(addr.as_str());
    }
    r
}

/// A hexadecimal text.
pub open spec fn is_hex(s: Seq<char>) -> bool {
    s.len() > 0 && forall|i: int| 0 <= i < s.len() ==> #[trigger] digit_value(s[i], 16) is Some
}

/// A PCI address: domain, bus, device and function.
pub open spec fn pci_address(
    domain: Seq<char>,
    bus: Seq<char>,
    device: Seq<char>,
    function: Seq<char>,
) -> Seq<char> {
    domain + ":"@ + bus + ":"@ + device + "."@ + function
}

/// Whatever the domain of a PCI address is, its BusID is made of bus, device and
/// function.
pub proof fn bus_id_has_no_domain(
    domain: Seq<char>,
    bus: Seq<char>,
    device: Seq<char>,
    function: Seq<char>,
)
    requires
        is_hex(domain),
        domain.len() == 4 || domain.len() == 8,
        is_hex(bus),
        is_hex(device),
        is_hex(function),
    ensures
        xorg_bus_id_of(pci_address(domain, bus, device, function)) == bus_id(
            hex_or_zero(bus),
            hex_or_zero(device),
            hex_or_zero(function),
        ),
{
    reveal_strlit(":");
    reveal_strlit(".");
    reveal_strlit(":.");
    reveal_strlit("0000:");
    reveal_strlit("00000000:");
    let seps = ":."@;
    let whole = pci_address(domain, bus, device, function);
    let short = bus + ":"@ + device + "."@ + function;
    assert(seps[0] == ':' && seps[1] == '.');
    assert(seps.contains(':') && seps.contains('.'));
    assert(digit_value(domain[0], 16) is Some);
    assert(digit_value(function.last(), 16) is Some);
    assert(whole[0] == domain[0]);
    assert(whole.last() == function.last());
    assert(trim_of(whole) == whole);
    lemma_plain_text(domain);
    lemma_plain_text(bus);
    lemma_plain_text(device);
    lemma_plain_text(function);
    lemma_one_piece(bus, seps);
    lemma_one_piece(domain, seps);
    lemma_last_piece(bus, ':', device, seps);
    lemma_last_piece(bus + ":"@ + device, '.', function, seps);
    assert(bus.push(':') + device =~= bus + ":"@ + device);
    assert((bus + ":"@ + device).push('.') + function =~= short);
    lemma_last_piece(domain, ':', bus, seps);
    assert(domain.push(':') + bus =~= domain + ":"@ + bus);
    lemma_last_piece(domain + ":"@ + bus, ':', device, seps);
    assert((domain + ":"@ + bus).push(':') + device =~= domain + ":"@ + bus + ":"@ + device);
    lemma_last_piece(domain + ":"@ + bus + ":"@ + device, '.', function, seps);
    assert((domain + ":"@ + bus + ":"@ + device).push('.') + function =~= whole);
    let n = domain.len() as int;
    assert(whole[n] == ':');
    assert(whole.skip(n + 1) =~= short);
    if "00000000:"@.is_prefix_of(whole) {
        if n == 4 {
            assert("00000000:"@[4] == whole[4]);
        }
    } else if "0000:"@.is_prefix_of(whole) {
        if n == 8 {
            assert("0000:"@[4] == whole[4]);
            assert(whole[4] == domain[4]);
            assert(digit_value(domain[4], 16) is Some);
        }
    }
}

/// A PCI address with whitespace around it reads the same.
pub proof fn padded_addresses_read_the_same(
    before: Seq<char>,
    pci_addr: Seq<char>,
    after: Seq<char>,
)
    requires
        is_padding(before),
        is_padding(after),
    ensures
        xorg_bus_id_of(before + pci_addr + after) == xorg_bus_id_of(pci_addr),
        pci_without_domain(lowercase_of(trim_of(before + pci_addr + after)))
            == pci_without_domain(lowercase_of(trim_of(pci_addr))),
{
    padding_is_trimmed(before, pci_addr, after);
}

/// Hexadecimal digits are no separators.
proof fn lemma_plain_text(s: Seq<char>)
    requires
        is_hex(s),
    ensures
        forall|i: int| 0 <= i < s.len() ==> !":."@.contains(#[trigger] s[i]),
{
    reveal_strlit(":.");
    assert forall|i: int| 0 <= i < s.len() implies !":."@.contains(#[trigger] s[i]) by {
        assert(digit_value(s[i], 16) is Some);
    }
}

/// A text without separators is one piece.
proof fn lemma_one_piece(s: Seq<char>, seps: Seq<char>)
    requires
        forall|i: int| 0 <= i < s.len() ==> !seps.contains(#[trigger] s[i]),
    ensures
        split_of(s, seps) == seq![s],
    decreases s.len(),
{
    if s.len() > 0 {
        lemma_one_piece(s.drop_last(), seps);
        assert(s.drop_last().push(s.last()) =~= s);
        assert(split_of(s, seps) =~= seq![s]);
    } else {
        assert(s =~= Seq::empty());
    }
}

/// What follows the last separator is the last piece.
proof fn lemma_last_piece(front: Seq<char>, sep: char, piece: Seq<char>, seps: Seq<char>)
    requires
        seps.contains(sep),
        forall|i: int| 0 <= i < piece.len() ==> !seps.contains(#[trigger] piece[i]),
    ensures
        split_of(front.push(sep) + piece, seps) == split_of(front, seps).push(piece),
    decreases piece.len(),
{
    let s = front.push(sep) + piece;
    if piece.len() == 0 {
        assert(s =~= front.push(sep));
        assert(s.drop_last() =~= front);
        assert(piece =~= Seq::empty());
    } else {
        lemma_last_piece(front, sep, piece.drop_last(), seps);
        assert(s.drop_last() =~= front.push(sep) + piece.drop_last());
        assert(piece.drop_last().push(piece.last()) =~= piece);
        assert(split_of(s, seps) =~= split_of(front, seps).push(piece));
    }
}

// ---------------------------------------------------------------------------
// What /proc and nvidia-smi say
// ---------------------------------------------------------------------------

/// The value in a line "Field Name: \t\t value" of the given field.
pub open spec fn line_field(line: Seq<char>, field: Seq<char>) -> Option<Seq<char>> {
    match behind_prefix(line, field) {
        Some(rest) => match behind_prefix(trim_start_of(rest), ":"@) {
            Some(value) => Some(trim_of(value)),
            None => None,
        },
        None => None,
    }
}

/// The value of a field in the first of `lines` that has it.
pub open spec fn first_field(lines: Seq<Seq<char>>, field: Seq<char>) -> Option<Seq<char>>
    decreases lines.len(),
{
    if lines.len() == 0 {
        None
    } else {
        match line_field(lines[0], field) {
            Some(value) => Some(value),
            None => first_field(lines.skip(1), field),
        }
    }
}

/// The value of a field in an `information` file.
pub open spec fn proc_field(info: Seq<char>, field: Seq<char>) -> Option<Seq<char>> {
    first_field(lines_of(info), field)
}

/// Parses a field from a GPU's `information` file.
/// Format: "Field Name: \t\t value".
pub fn parse_proc_field(info: &str, field: &str) -> (r: Option<String>)
    ensures
        match proc_field(info@, field@) {
            Some(value) => r is Some && r->0@ == value,
            None => r is None,
        },
{
    let all: Vec<String> = lines(info);
    let ghost ls = lines_of(info@);
    assert(ls =~= texts(all@));
    let mut i: usize = 0;
    assert(ls.skip(0) =~= ls);
    while i < all.len()
        invariant
            i <= all@.len(),
            ls == texts(all@),
            ls == lines_of(info@),
            first_field(ls, field@) == first_field(ls.skip(i as int), field@),
        decreases all.len() - i,
    {
        let ghost rest_lines = ls.skip(i as int);
        assert(rest_lines[0] == all@[i as int]@);
        match without_prefix(all[i].as_str(), field) {
            Some(rest) => {
                match without_prefix(trim_start(rest), ":") {
                    Some(value) => {
                        return Some(trim(value).to_owned());
                    },
                    None => {},
                }
            },
            None => {},
        }
        assert(rest_lines.skip(1) =~= ls.skip(i + 1));
        i = i + 1;
    }
    None
}

/// The normalized addresses in what `nvidia-smi` printed, one per line.
pub open spec fn smi_addresses(stdout: Option<Seq<char>>) -> Seq<Seq<char>> {
    match stdout {
        Some(text) => lines_of(text).map_values(
            |line: Seq<char>| pci_without_domain(lowercase_of(trim_of(trim_of(line)))),
        ),
        None => Seq::empty(),
    }
}

/// The text of an optional string.
pub open spec fn opt_text(s: Option<String>) -> Option<Seq<char>> {
    match s {
        Some(t) => Some(t@),
        None => None,
    }
}

/// The PCI addresses of the GPUs that `nvidia-smi` sees, normalized; none where
/// it could not be run.
pub fn nvidia_smi_pci_addresses(stdout: &Option<String>) -> (r: Vec<String>)
    ensures
        texts(r@) == smi_addresses(opt_text(*stdout)),
{
    let mut r: Vec<String> = Vec::new();
    match stdout {
        Some(text) => {
            let all: Vec<String> = lines(text.as_str());
            let ghost ls = lines_of(text@);
            let ghost want = smi_addresses(Some(text@));
            assert(ls =~= texts(all@));
            let mut i: usize = 0;
            while i < all.len()
                invariant
                    i <= all@.len(),
                    ls == texts(all@),
                    want == smi_addresses(Some(text@)),
                    ls == lines_of(text@),
                    texts(r@) == want.take(i as int),
                decreases all.len() - i,
            {
                let addr: String = normalize_pci(trim(all[i].as_str()));
                let ghost a = addr@;
                let ghost before = texts(r@);
                assert(ls[i as int] == all@[i as int]@);
                assert(a == want[i as int]);
                r.push(addr);
                assert(texts(r@) =~= before.push(a));
                i = i + 1;
                assert(want.take(i as int) =~= want.take(i - 1).push(want[i - 1]));
            }
            assert(want.take(want.len() as int) =~= want);
        },
        None => {
            assert(texts(r@) =~= Seq::empty());
        },
    }
    r
}

// ---------------------------------------------------------------------------
// Enumeration
// ---------------------------------------------------------------------------

/// The record of the GPU behind a `/proc` entry; `None` where its information
/// could not be read, or `nvidia-smi` lists GPUs and this is not among them.
pub open spec fn gpu_record(entry: ProcGpu, accessible: Seq<Seq<char>>) -> Option<GpuRecord> {
    match entry.information {
        Some(info) => {
            let model = match proc_field(info@, "Model"@) {
                Some(m) => m,
                None => Seq::empty(),
            };
            let address = match proc_field(info@, "Bus Location"@) {
                Some(a) => a,
                None => entry.dir_name@,
            };
            if accessible.len() == 0 || accessible.contains(
                pci_without_domain(lowercase_of(trim_of(address))),
            ) {
                Some(
                    GpuRecord {
                        model,
                        pci_address: address,
                        xorg_bus_id: xorg_bus_id_of(address),
                    },
                )
            } else {
                None
            }
        },
        None => None,
    }
}

/// Whether `a` comes before `b` in the order of code points.
pub open spec fn text_before(a: Seq<char>, b: Seq<char>) -> bool
    decreases b.len(),
{
    if b.len() == 0 {
        false
    } else if a.len() == 0 {
        true
    } else if a[0] != b[0] {
        (a[0] as u32) < (b[0] as u32)
    } else {
        text_before(a.skip(1), b.skip(1))
    }
}

/// Where a GPU at `address` goes among `gpus`: before the first whose address
/// comes after it.
pub open spec fn slot_for(gpus: Seq<GpuRecord>, address: Seq<char>) -> int
    decreases gpus.len(),
{
    if gpus.len() == 0 {
        0
    } else if text_before(address, gpus[0].pci_address) {
        0
    } else {
        1 + slot_for(gpus.skip(1), address)
    }
}

/// The display GPUs among the first `n` entries, in the order of their addresses.
pub open spec fn display_gpus(
    entries: Seq<ProcGpu>,
    accessible: Seq<Seq<char>>,
) -> Seq<GpuRecord>
    decreases entries.len(),
{
    if entries.len() == 0 {
        Seq::empty()
    } else {
        let front = display_gpus(entries.drop_last(), accessible);
        match gpu_record(entries.last(), accessible) {
            Some(gpu) => front.insert(slot_for(front, gpu.pci_address), gpu),
            None => front,
        }
    }
}

/// What records the vector holds.
pub open spec fn records(v: Seq<NvidiaGpu>) -> Seq<GpuRecord> {
    v.map_values(|g: NvidiaGpu| g@)
}

/// Whether `a` comes before `b` in the order of code points.
pub fn comes_before(a: &str, b: &str) -> (r: bool)
    ensures
        r == text_before(a@, b@),
{
    let av: Vec<char> = crate::text::chars_of(a);
    let bv: Vec<char> = crate::text::chars_of(b);
    let mut i: usize = 0;
    assert(a@.skip(0) =~= a@);
    assert(b@.skip(0) =~= b@);
    while i < av.len() && i < bv.len()
        invariant
            av@ == a@,
            bv@ == b@,
            i <= av@.len(),
            i <= bv@.len(),
            text_before(a@, b@) == text_before(a@.skip(i as int), b@.skip(i as int)),
        decreases av.len() - i,
    {
        if av[i] != bv[i] {
            return (av[i] as u32) < (bv[i] as u32);
        }
        assert(a@.skip(i as int).skip(1) =~= a@.skip(i + 1));
        assert(b@.skip(i as int).skip(1) =~= b@.skip(i + 1));
        i = i + 1;
    }
    i < bv.len()
}

/// Whether `text` is among the strings of `v`.
fn contains_text(v: &Vec<String>, text: &str) -> (r: bool)
    ensures
        r == texts(v@).contains(text@),
{
    let mut i: usize = 0;
    while i < v.len()
        invariant
            i <= v@.len(),
            forall|k: int| 0 <= k < i ==> #[trigger] v@[k]@ != text@,
        decreases v.len() - i,
    {
        if same_text(v[i].as_str(), text) {
            assert(texts(v@)[i as int] == text@);
            return true;
        }
        i = i + 1;
    }
    assert forall|k: int| 0 <= k < texts(v@).len() implies texts(v@)[k] != text@ by {
        assert(v@[k]@ != text@);
    }
    false
}

/// Reads a `/proc` entry as a GPU that sessions can use.
fn read_gpu(entry: &ProcGpu, accessible: &Vec<String>) -> (r: Option<NvidiaGpu>)
    ensures
        match gpu_record(*entry, texts(accessible@)) {
            Some(gpu) => r is Some && r->0@ == gpu,
            None => r is None,
        },
{
    let info: &str = match &entry.information {
        Some(info) => info.as_str(),
        None => {
            return None;
        },
    };
    let model: String = match parse_proc_field(info, "Model") {
        Some(m) => m,
        None => String::new(),
    };
    let address: String = match parse_proc_field(info, "Bus Location") {
        Some(a) => a,
        None => entry.dir_name.clone(),
    };
    if accessible.len() > 0 && !contains_text(
        accessible,
        normalize_pci(address.as_str()).as_str(),
    ) {
        return None;
    }
    let xorg_bus_id: String = pci_to_xorg_bus_id(address.as_str());
    Some(NvidiaGpu { model, pci_address: address, xorg_bus_id })
}

/// Puts a GPU where its address belongs.
fn insert_gpu(gpus: &mut Vec<NvidiaGpu>, gpu: NvidiaGpu)
    ensures
        records(final(gpus)@) == records(old(gpus)@).insert(
            slot_for(records(old(gpus)@), gpu@.pci_address),
            gpu@,
        ),
{
    let ghost rs = records(gpus@);
    let ghost addr = gpu@.pci_address;
    let mut i: usize = 0;
    assert(rs.skip(0) =~= rs);
    while i < gpus.len() && !comes_before(gpu.pci_address.as_str(), gpus[i].pci_address.as_str())
        invariant
            i <= gpus@.len(),
            rs == records(gpus@),
            addr == gpu.pci_address@,
            slot_for(rs, addr) == i + slot_for(rs.skip(i as int), addr),
        decreases gpus.len() - i,
    {
        assert(rs.skip(i as int)[0] == gpus@[i as int]@);
        assert(rs.skip(i as int).skip(1) =~= rs.skip(i + 1));
        i = i + 1;
    }
    assert(slot_for(rs, addr) == i) by {
        if i < rs.len() {
            assert(rs.skip(i as int)[0] == gpus@[i as int]@);
        }
    }
    let ghost g = gpu@;
    gpus.insert(i, gpu);
    assert(records(gpus@) =~= rs.insert(i as int, g));
}

/// Enumerates the NVIDIA GPUs that displays can use, in the order of their PCI
/// addresses. GPUs that `nvidia-smi` does not list belong to other containers
/// and are left out; where it lists none, all of `/proc` is used.
pub fn enumerate_nvidia_gpus(listing: &ProcListing, smi_stdout: &Option<String>) -> (r: Result<
    Vec<NvidiaGpu>,
    GpuError,
>)
    ensures
        match *listing {
            ProcListing::Missing => r == Err::<Vec<NvidiaGpu>, GpuError>(
                GpuError::KernelDriverNotLoaded,
            ),
            ProcListing::Unreadable => r == Err::<Vec<NvidiaGpu>, GpuError>(
                GpuError::ProcUnreadable,
            ),
            ProcListing::Entries(entries) => r is Ok && records(r->Ok_0@) == display_gpus(
                entries@,
                smi_addresses(opt_text(*smi_stdout)),
            ),
        },
{
    match listing {
        ProcListing::Missing => Err(GpuError::KernelDriverNotLoaded),
        ProcListing::Unreadable => Err(GpuError::ProcUnreadable),
        ProcListing::Entries(entries) => {
            let accessible: Vec<String> = nvidia_smi_pci_addresses(smi_stdout);
            let mut gpus: Vec<NvidiaGpu> = Vec::new();
            let mut i: usize = 0;
            assert(records(gpus@) =~= Seq::empty());
            while i < entries.len()
                invariant
                    i <= entries@.len(),
                    records(gpus@) == display_gpus(entries@.take(i as int), texts(accessible@)),
                decreases entries.len() - i,
            {
                assert(entries@.take(i + 1).drop_last() =~= entries@.take(i as int));
                match read_gpu(&entries[i], &accessible) {
                    Some(gpu) => {
                        insert_gpu(&mut gpus, gpu);
                    },
                    None => {},
                }
                i = i + 1;
            }
            assert(entries@.take(entries@.len() as int) =~= entries@);
            Ok(gpus)
        },
    }
}

// ---------------------------------------------------------------------------
// Selection
// ---------------------------------------------------------------------------

/// Which of `count` GPUs a display uses: sessions take them in turn, from the
/// first display of the range on.
pub open spec fn gpu_index(display_num: u32, display_start: u32, count: nat) -> int {
    if display_num >= display_start {
        (display_num - display_start) % count as int
    } else {
        0
    }
}

/// What a GPU configuration says, as plain text.
pub struct ConfigText {
    pub driver: Seq<char>,
    pub bus_id: Option<Seq<char>>,
    pub dfp_output: Option<Seq<char>>,
}

impl View for GpuConfig {
    type V = ConfigText;

    open spec fn view(&self) -> ConfigText {
        ConfigText {
            driver: self.driver@,
            bus_id: opt_text(self.bus_id),
            dfp_output: opt_text(self.dfp_output),
        }
    }
}

/// The configuration without a GPU.
pub open spec fn dummy_text() -> ConfigText {
    ConfigText { driver: "dummy"@, bus_id: None, dfp_output: None }
}

/// The outcome of looking for an NVIDIA GPU: the one whose turn it is, or why
/// there is none.
pub open spec fn nvidia_outcome(probe: NvidiaProbe, display_num: u32, display_start: u32) -> Result<
    ConfigText,
    GpuError,
> {
    if !probe.driver_installed {
        Err(GpuError::DriverNotInstalled)
    } else {
        match probe.proc_gpus {
            ProcListing::Missing => Err(GpuError::KernelDriverNotLoaded),
            ProcListing::Unreadable => Err(GpuError::ProcUnreadable),
            ProcListing::Entries(entries) => {
                let gpus = display_gpus(entries@, smi_addresses(opt_text(probe.smi_stdout)));
                if gpus.len() == 0 {
                    Err(GpuError::NoDisplayGpus)
                } else {
                    Ok(
                        ConfigText {
                            driver: "nvidia"@,
                            bus_id: Some(
                                gpus[gpu_index(display_num, display_start, gpus.len())].xorg_bus_id,
                            ),
                            dfp_output: Some("DFP-0"@),
                        },
                    )
                }
            },
        }
    }
}

/// The configuration of the dummy driver.
pub fn dummy_config() -> (r: GpuConfig)
    ensures
        r@ == dummy_text(),
{
    GpuConfig { driver: "dummy".to_owned(), bus_id: None, dfp_output: None }
}

/// Picks the NVIDIA GPU for a display. All sessions on a GPU share its output
/// DFP-0; each Xorg instance has its own GPU context.
pub fn try_detect_nvidia(probe: &NvidiaProbe, display_num: u32, display_start: u32) -> (r: Result<
    GpuConfig,
    GpuError,
>)
    ensures
        match nvidia_outcome(*probe, display_num, display_start) {
            Ok(text) => r is Ok && r->Ok_0@ == text,
            Err(e) => r == Err::<GpuConfig, GpuError>(e),
        },
{
    if !probe.driver_installed {
        return Err(GpuError::DriverNotInstalled);
    }
    let gpus: Vec<NvidiaGpu> = match enumerate_nvidia_gpus(&probe.proc_gpus, &probe.smi_stdout) {
        Ok(gpus) => gpus,
        Err(e) => {
            return Err(e);
        },
    };
    if gpus.len() == 0 {
        return Err(GpuError::NoDisplayGpus);
    }
    let session_index: usize = display_num.saturating_sub(display_start) as usize;
    let index: usize = session_index % gpus.len();
    assert(index == gpu_index(display_num, display_start, gpus@.len())) by {
        if display_num < display_start {
            assert(0int % gpus@.len() as int == 0);
        }
    }
    assert(records(gpus@)[index as int] == gpus@[index as int]@);
    Ok(
        GpuConfig {
            driver: "nvidia".to_owned(),
            bus_id: Some(gpus[index].xorg_bus_id.clone()),
            dfp_output: Some("DFP-0".to_owned()),
        },
    )
}

/// Detects the GPU configuration for the requested mode and display:
/// `"dummy"` always gives the dummy configuration, any other mode an NVIDIA GPU
/// where one can be used and the dummy configuration where none can.
pub fn detect_gpu(mode: &str, display_num: u32, display_start: u32, probe: &NvidiaProbe) -> (r:
    GpuConfig)
    ensures
        r@ == (if mode@ == "dummy"@ {
            dummy_text()
        } else {
            match nvidia_outcome(*probe, display_num, display_start) {
                Ok(text) => text,
                Err(_) => dummy_text(),
            }
        }),
{
    if same_text(mode, "dummy") {
        return dummy_config();
    }
    match try_detect_nvidia(probe, display_num, display_start) {
        Ok(config) => config,
        Err(_) => dummy_config(),
    }
}

/// A text that comes before another comes before all that the other comes
/// before.
proof fn lemma_before_is_transitive(a: Seq<char>, b: Seq<char>, c: Seq<char>)
    requires
        text_before(a, b),
        text_before(b, c),
    ensures
        text_before(a, c),
    decreases b.len(),
{
    if a.len() > 0 && a[0] == b[0] && b[0] == c[0] {
        lemma_before_is_transitive(a.skip(1), b.skip(1), c.skip(1));
    }
}

/// Where a GPU goes in a list: behind those that do not come after it, and
/// directly before one that does.
proof fn lemma_slot(gpus: Seq<GpuRecord>, address: Seq<char>)
    ensures
        0 <= slot_for(gpus, address) <= gpus.len(),
        forall|i: int|
            0 <= i < slot_for(gpus, address) ==> !text_before(
                address,
                (#[trigger] gpus[i]).pci_address,
            ),
        slot_for(gpus, address) < gpus.len() ==> text_before(
            address,
            gpus[slot_for(gpus, address)].pci_address,
        ),
    decreases gpus.len(),
{
    if gpus.len() > 0 && !text_before(address, gpus[0].pci_address) {
        let rest = gpus.skip(1);
        lemma_slot(rest, address);
        assert forall|i: int| 0 <= i < slot_for(gpus, address) implies !text_before(
            address,
            (#[trigger] gpus[i]).pci_address,
        ) by {
            if i > 0 {
                assert(gpus[i] == rest[i - 1]);
            }
        }
    }
}

/// GPUs are listed by PCI address, whatever order they were found in: none
/// stands before one that comes before it. So a display finds the same GPU
/// every time.
pub proof fn gpus_are_listed_by_address(entries: Seq<ProcGpu>, accessible: Seq<Seq<char>>)
    ensures
        forall|i: int, j: int|
            #![trigger display_gpus(entries, accessible)[i], display_gpus(entries, accessible)[j]]
            0 <= i < j < display_gpus(entries, accessible).len() ==> !text_before(
                display_gpus(entries, accessible)[j].pci_address,
                display_gpus(entries, accessible)[i].pci_address,
            ),
    decreases entries.len(),
{
    if entries.len() > 0 {
        gpus_are_listed_by_address(entries.drop_last(), accessible);
        let front = display_gpus(entries.drop_last(), accessible);
        let all = display_gpus(entries, accessible);
        match gpu_record(entries.last(), accessible) {
            Some(gpu) => {
                let slot = slot_for(front, gpu.pci_address);
                lemma_slot(front, gpu.pci_address);
                assert forall|i: int, j: int| 0 <= i < j < all.len() implies !text_before(
                    (#[trigger] all[j]).pci_address,
                    (#[trigger] all[i]).pci_address,
                ) by {
                    let a = if i < slot {
                        front[i]
                    } else {
                        front[i - 1]
                    };
                    let b = if j < slot {
                        front[j]
                    } else {
                        front[j - 1]
                    };
                    if i == slot {
                        assert(all[j] == front[j - 1]);
                        if text_before(all[j].pci_address, gpu.pci_address) {
                            lemma_before_is_transitive(
                                all[j].pci_address,
                                gpu.pci_address,
                                front[slot].pci_address,
                            );
                            if j - 1 == slot {
                                lemma_not_before_itself(front[slot].pci_address);
                            } else {
                                assert(!text_before(
                                    front[j - 1].pci_address,
                                    front[slot].pci_address,
                                ));
                            }
                        }
                    } else if j == slot {
                        assert(all[i] == front[i]);
                    } else {
                        assert(all[i] == a);
                        assert(all[j] == b);
                    }
                }
            },
            None => {},
        }
    }
}

/// No text comes before itself.
proof fn lemma_not_before_itself(a: Seq<char>)
    ensures
        !text_before(a, a),
    decreases a.len(),
{
    if a.len() > 0 {
        lemma_not_before_itself(a.skip(1));
    }
}

/// Sessions are spread over the GPUs in turn: `count` neighbouring displays use
/// all `count` GPUs, and every further round starts over.
pub proof fn displays_take_gpus_in_turn(a: u32, b: u32, display_start: u32, count: nat)
    requires
        count > 0,
        display_start <= a < b,
    ensures
        0 <= gpu_index(a, display_start, count) < count,
        b - a < count ==> gpu_index(a, display_start, count) != gpu_index(b, display_start, count),
        b - a == count ==> gpu_index(a, display_start, count) == gpu_index(
            b,
            display_start,
            count,
        ),
{
    let x = a - display_start;
    let y = b - display_start;
    let n = count as int;
    vstd::arithmetic::div_mod::lemma_fundamental_div_mod(x, n);
    vstd::arithmetic::div_mod::lemma_fundamental_div_mod(y, n);
    vstd::arithmetic::div_mod::lemma_mod_bound(x, n);
    if y - x == n {
        vstd::arithmetic::div_mod::lemma_mod_add_multiples_vanish(x, n);
    } else if y - x < n && x % n == y % n {
        let d = y / n - x / n;
        assert(y - x == n * d) by (nonlinear_arith)
            requires
                x == n * (x / n) + x % n,
                y == n * (y / n) + y % n,
                x % n == y % n,
                d == y / n - x / n,
        ;
        assert(false) by (nonlinear_arith)
            requires
                y - x == n * d,
                0 < y - x < n,
        ;
    }
}

/// The first display takes the first GPU, the next one the next, and so on through all of
/// them. A display below the first takes the first GPU too.
pub proof fn first_displays_take_gpus_in_order(display_start: u32, k: u32, count: nat)
    requires
        k < count,
        display_start + k <= u32::MAX,
    ensures
        gpu_index((display_start + k) as u32, display_start, count) == k,
        forall|below: u32|
            below < display_start ==> #[trigger] gpu_index(below, display_start, count) == 0,
{
    vstd::arithmetic::div_mod::lemma_small_mod(k as nat, count);
}

/// A GPU whose information can be read is used if `nvidia-smi` names no GPU at all, or
/// names its address. Its address is the bus location that it reports, and its
/// directory's name where it reports none. No other GPU is used.
pub proof fn accessible_gpus_are_used(entry: ProcGpu, accessible: Seq<Seq<char>>)
    ensures
        entry.information is None ==> gpu_record(entry, accessible) is None,
        entry.information is Some ==> ({
            let located = proc_field(entry.information->0@, "Bus Location"@);
            let address = if located is Some {
                located->0
            } else {
                entry.dir_name@
            };
            let named = exists|i: int|
                0 <= i < accessible.len() && #[trigger] accessible[i] == pci_without_domain(
                    lowercase_of(trim_of(address)),
                );
            &&& gpu_record(entry, accessible) is Some <==> accessible.len() == 0 || named
            &&& gpu_record(entry, accessible) matches Some(gpu) ==> gpu.pci_address == address
                && gpu.xorg_bus_id == xorg_bus_id_of(address)
            &&& gpu_record(entry, accessible) matches Some(gpu) ==> match proc_field(
                entry.information->0@,
                "Model"@,
            ) {
                Some(model) => gpu.model == model,
                None => gpu.model.len() == 0,
            }
        }),
{
}

/// Each GPU that is used is listed, and only those are: no one is lost or made up when
/// they are put in order.
pub proof fn all_gpus_are_listed(entries: Seq<ProcGpu>, accessible: Seq<Seq<char>>, gpu: GpuRecord)
    ensures
        display_gpus(entries, accessible).contains(gpu) <==> exists|i: int|
            0 <= i < entries.len() && gpu_record(#[trigger] entries[i], accessible) == Some(gpu),
        display_gpus(entries, accessible).len() <= entries.len(),
        (forall|i: int|
            0 <= i < entries.len() ==> gpu_record(#[trigger] entries[i], accessible) is Some)
            ==> display_gpus(entries, accessible).len() == entries.len(),
    decreases entries.len(),
{
    let all = display_gpus(entries, accessible);
    if entries.len() > 0 {
        let rest = entries.drop_last();
        let front = display_gpus(rest, accessible);
        all_gpus_are_listed(rest, accessible, gpu);
        assert(forall|i: int| 0 <= i < rest.len() ==> #[trigger] rest[i] == entries[i]);
        assert(entries[entries.len() - 1] == entries.last());
        if exists|i: int|
            0 <= i < rest.len() && gpu_record(#[trigger] rest[i], accessible) == Some(gpu) {
            let i = choose|i: int|
                0 <= i < rest.len() && gpu_record(#[trigger] rest[i], accessible) == Some(gpu);
            assert(gpu_record(entries[i], accessible) == Some(gpu));
        }
        if exists|i: int|
            0 <= i < entries.len() && gpu_record(#[trigger] entries[i], accessible) == Some(gpu) {
            let i = choose|i: int|
                0 <= i < entries.len() && gpu_record(#[trigger] entries[i], accessible) == Some(
                    gpu,
                );
            if i < rest.len() {
                assert(gpu_record(rest[i], accessible) == Some(gpu));
            } else {
                assert(gpu_record(entries.last(), accessible) == Some(gpu));
            }
        }
        if gpu_record(entries.last(), accessible) == Some(gpu) {
            assert(gpu_record(entries[entries.len() - 1], accessible) == Some(gpu));
        }
        if let Some(last) = gpu_record(entries.last(), accessible) {
            let slot = slot_for(front, last.pci_address);
            lemma_slot(front, last.pci_address);
            assert(all[slot] == last);
            if front.contains(gpu) {
                let k = choose|k: int| 0 <= k < front.len() && front[k] == gpu;
                if k < slot {
                    assert(all[k] == gpu);
                } else {
                    assert(all[k + 1] == gpu);
                }
            }
            if all.contains(gpu) && gpu != last {
                let k = choose|k: int| 0 <= k < all.len() && all[k] == gpu;
                if k < slot {
                    assert(front[k] == gpu);
                } else {
                    assert(front[k - 1] == gpu);
                }
            }
        }
    }
}

/// Two addresses are ordered by the first character in which they differ, and one comes
/// before all that continue it.
pub proof fn first_difference_orders_addresses(same: Seq<char>, a: Seq<char>, b: Seq<char>)
    requires
        b.len() > 0,
        a.len() == 0 || (a[0] as u32) < (b[0] as u32),
    ensures
        text_before(same + a, same + b),
        !text_before(same + b, same + a),
    decreases same.len(),
{
    if same.len() == 0 {
        assert(same + a =~= a);
        assert(same + b =~= b);
    } else {
        let rest = same.skip(1);
        first_difference_orders_addresses(rest, a, b);
        assert((same + a).skip(1) =~= rest + a);
        assert((same + b).skip(1) =~= rest + b);
        assert((same + a)[0] == same[0] && (same + b)[0] == same[0]);
    }
}

/// A part of an address is read as a hexadecimal number: each further digit counts
/// sixteen times less than the one before it. Digits are 0 to 9 (48 to 57) and a to f, small
/// (97 to 102) or large (65 to 70).
pub proof fn address_parts_are_hexadecimal(front: Seq<char>, c: char, d: nat)
    requires
        is_hex(front) || front.len() == 0,
        front.len() <= 7,
        (d < 10 && c as u32 == 48 + d) || (10 <= d < 16 && c as u32 == 87 + d) || (10 <= d < 16
            && c as u32 == 55 + d),
    ensures
        hex_or_zero(front.push(c)) == 16 * hex_or_zero(front) + d,
        hex_or_zero(front) < 0x1000_0000,
{
    lemma_hex_value(front);
    let all = front.push(c);
    assert(all.drop_last() =~= front);
    assert(digit_value(c, 16) == Some(d));
    if front.len() > 0 {
        assert(digit_value(front[0], 16) is Some);
        assert(all[0] == front[0]);
    }
}

proof fn lemma_hex_value(s: Seq<char>)
    requires
        is_hex(s) || s.len() == 0,
        s.len() <= 7,
    ensures
        digits_value(s, 16) is Some,
        digits_value(s, 16)->0 < 0x1000_0000,
        hex_or_zero(s) == digits_value(s, 16)->0,
        s.len() <= 6 ==> digits_value(s, 16)->0 < 0x100_0000,
        s.len() <= 5 ==> digits_value(s, 16)->0 < 0x10_0000,
        s.len() <= 4 ==> digits_value(s, 16)->0 < 0x1_0000,
        s.len() <= 3 ==> digits_value(s, 16)->0 < 0x1000,
        s.len() <= 2 ==> digits_value(s, 16)->0 < 0x100,
        s.len() <= 1 ==> digits_value(s, 16)->0 < 0x10,
        s.len() == 0 ==> digits_value(s, 16)->0 == 0,
    decreases s.len(),
{
    if s.len() > 0 {
        let front = s.drop_last();
        assert forall|i: int| 0 <= i < front.len() implies #[trigger] digit_value(
            front[i],
            16,
        ) is Some by {
            assert(digit_value(s[i], 16) is Some);
        }
        lemma_hex_value(front);
        assert(digit_value(s[s.len() - 1], 16) is Some);
        assert(digit_value(s[0], 16) is Some);
    }
}

/// The domain of an address is left out where it is zero, in four digits or in eight. What
/// does not start with a zero is left as it is.
pub proof fn zero_domains_are_left_out(rest: Seq<char>)
    ensures
        pci_without_domain("0000:"@ + rest) == rest,
        pci_without_domain("00000000:"@ + rest) == rest,
        rest.len() == 0 || rest[0] != '0' ==> pci_without_domain(rest) == rest,
{
    reveal_strlit("0000:");
    reveal_strlit("00000000:");
    let short = "0000:"@ + rest;
    let long = "00000000:"@ + rest;
    assert(short[4] == ':');
    assert("00000000:"@[4] == '0');
    if "00000000:"@.is_prefix_of(short) {
        assert(short.subrange(0, 9)[4] == short[4]);
    }
    assert(short.subrange(0, 5) =~= "0000:"@);
    assert(short.skip(5) =~= rest);
    assert(long.subrange(0, 9) =~= "00000000:"@);
    assert(long.skip(9) =~= rest);
    if "00000000:"@.is_prefix_of(rest) {
        assert(rest.subrange(0, 9)[0] == rest[0]);
    }
    if "0000:"@.is_prefix_of(rest) {
        assert(rest.subrange(0, 5)[0] == rest[0]);
    }
}

/// A field's value stands behind its name and a colon, and whitespace on either side of the
/// colon and behind the value is no part of it. The first line that has the field counts.
pub proof fn fields_stand_behind_colons(
    front: Seq<Seq<char>>,
    field: Seq<char>,
    gap: Seq<char>,
    value: Seq<char>,
    back: Seq<Seq<char>>,
)
    requires
        is_padding(gap),
        forall|i: int| 0 <= i < front.len() ==> line_field(#[trigger] front[i], field) is None,
    ensures
        line_field(field + gap + seq![':'] + value, field) == Some(trim_of(value)),
        first_field(front.push(field + gap + seq![':'] + value) + back, field) == Some(
            trim_of(value),
        ),
        first_field(front, field) is None,
    decreases front.len(),
{
    let line = field + gap + seq![':'] + value;
    let behind = gap + (seq![':'] + value);
    reveal_strlit(":");
    assert(line.subrange(0, field.len() as int) =~= field);
    assert(line.skip(field.len() as int) =~= behind);
    lemma_gap_is_skipped(gap, seq![':'] + value);
    let rest = seq![':'] + value;
    assert(rest.subrange(0, 1) =~= ":"@);
    assert(rest.skip(1) =~= value);
    let all = front.push(line) + back;
    if front.len() == 0 {
        assert(all[0] == line);
    } else {
        let others = front.skip(1);
        assert forall|i: int| 0 <= i < others.len() implies line_field(
            #[trigger] others[i],
            field,
        ) is None by {
            assert(others[i] == front[i + 1]);
        }
        fields_stand_behind_colons(others, field, gap, value, back);
        assert(all[0] == front[0]);
        assert(all.skip(1) =~= others.push(line) + back);
        assert(line_field(front[0], field) is None);
    }
}

proof fn lemma_gap_is_skipped(gap: Seq<char>, rest: Seq<char>)
    requires
        is_padding(gap),
        rest.len() > 0,
        rest[0] == ':',
    ensures
        trim_start_of(gap + rest) == rest,
    decreases gap.len(),
{
    let all = gap + rest;
    if gap.len() == 0 {
        assert(all =~= rest);
    } else {
        let less = gap.skip(1);
        assert forall|i: int| 0 <= i < less.len() implies crate::text::is_space(
            #[trigger] less[i],
        ) by {
            assert(less[i] == gap[i + 1]);
        }
        lemma_gap_is_skipped(less, rest);
        assert(crate::text::is_space(gap[0]));
        assert(all[0] == gap[0]);
        assert(all.skip(1) =~= less + rest);
    }
}

} // verus!
