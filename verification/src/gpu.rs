//! The machine's graphics adapters, and which one to use.

use vstd::prelude::*;

use crate::text::{decimal, hex_text, push_decimal, push_hex, push_signed, signed_decimal};

pub mod choice;

verus! {

/// How to choose the adapter that the device is made on.
#[derive(Debug, Clone, Copy, PartialEq, Eq, Structural)]
pub enum AdapterSelection {
    /// The system's pick.
    Auto,
    /// The adapter that drives the primary output.
    PrimaryOutput,
    /// The adapter with this index.
    Index(u32),
    /// The adapter with this packed LUID.
    Luid(i64),
}

impl Default for AdapterSelection {
    fn default() -> (s: Self)
        ensures
            s == AdapterSelection::Auto,
    {
        AdapterSelection::Auto
    }
}

/// Why no adapter could be used.
#[derive(Debug, Clone, Copy, PartialEq, Eq, Structural)]
pub enum GpuError {
    /// No adapter matches the selection.
    AdapterNotFound,
    /// No output is the primary one.
    PrimaryOutputNotFound,
    /// The device was made, but is not there.
    NoDevice,
}

impl GpuError {
    /// What the error says.
    pub fn message(self) -> (s: &'static str)
        ensures
            s@ == match self {
                GpuError::AdapterNotFound => "no DXGI adapter matched the requested selection"@,
                GpuError::PrimaryOutputNotFound =>
                    "no primary DXGI output (desktop rect at origin) found"@,
                GpuError::NoDevice =>
                    "D3D11CreateDevice returned success but produced no device"@,
            },
    {
        match self {
            GpuError::AdapterNotFound => "no DXGI adapter matched the requested selection",
            GpuError::PrimaryOutputNotFound =>
                "no primary DXGI output (desktop rect at origin) found",
            GpuError::NoDevice => "D3D11CreateDevice returned success but produced no device",
        }
    }
}

/// One display output.
#[derive(Debug)]
pub struct OutputInfo {
    /// The device's name.
    pub device_name: String,
    /// Whether this is the primary output.
    pub is_primary: bool,
    /// Whether it shows HDR.
    pub hdr: bool,
    pub bits_per_color: u32,
    pub width: i32,
    pub height: i32,
}

/// One adapter and the outputs it drives.
#[derive(Debug)]
pub struct AdapterInfo {
    pub index: u32,
    /// The packed LUID.
    pub luid: i64,
    pub description: String,
    pub vendor_id: u32,
    pub device_id: u32,
    pub dedicated_vram_mb: u64,
    /// None for an adapter that only renders.
    pub outputs: Vec<OutputInfo>,
}

/// All adapters and their outputs.
#[derive(Debug)]
pub struct Topology {
    /// In the order of their indices.
    pub adapters: Vec<AdapterInfo>,
}

/// Whether an output whose desktop rectangle begins here is the primary one.
pub fn is_primary_rect(left: i32, top: i32) -> (b: bool)
    ensures
        b == (left == 0 && top == 0),
{
    left == 0 && top == 0
}

/// Whether an adapter drives the primary output.
pub open spec fn drives_primary(adapter: AdapterInfo) -> bool {
    exists|k: int| 0 <= k < adapter.outputs@.len() && (#[trigger] adapter.outputs@[k]).is_primary
}

/// Whether one of the first `n` outputs is primary.
fn any_primary(outputs: &Vec<OutputInfo>) -> (b: bool)
    ensures
        b == exists|k: int| 0 <= k < outputs@.len() && (#[trigger] outputs@[k]).is_primary,
{
    let mut k: usize = 0;
    while k < outputs.len()
        invariant
            k <= outputs@.len(),
            forall|j: int| 0 <= j < k ==> !(#[trigger] outputs@[j]).is_primary,
        decreases outputs@.len() - k,
    {
        if outputs[k].is_primary {
            return true;
        }
        k = k + 1;
    }
    false
}

/// The first adapter from `i` on that drives the primary output.
pub open spec fn primary_from(adapters: Seq<AdapterInfo>, i: int) -> Option<u32>
    decreases adapters.len() - i,
{
    if i < 0 || i >= adapters.len() {
        None
    } else if drives_primary(adapters[i]) {
        Some(adapters[i].index)
    } else {
        primary_from(adapters, i + 1)
    }
}

/// The first adapter from `i` on that has a LUID.
pub open spec fn with_luid_from(adapters: Seq<AdapterInfo>, luid: i64, i: int) -> Option<u32>
    decreases adapters.len() - i,
{
    if i < 0 || i >= adapters.len() {
        None
    } else if adapters[i].luid == luid {
        Some(adapters[i].index)
    } else {
        with_luid_from(adapters, luid, i + 1)
    }
}

impl Topology {
    /// The index of the adapter that drives the primary output, if any does.
    pub fn primary_adapter_index(&self) -> (r: Option<u32>)
        ensures
            r == primary_from(self.adapters@, 0),
    {
        let mut i: usize = 0;
        while i < self.adapters.len()
            invariant
                i <= self.adapters@.len(),
                primary_from(self.adapters@, 0) == primary_from(self.adapters@, i as int),
            decreases self.adapters@.len() - i,
        {
            if any_primary(&self.adapters[i].outputs) {
                return Some(self.adapters[i].index);
            }
            i = i + 1;
        }
        None
    }

    /// Whether there is an adapter with an index.
    fn has_index(&self, index: u32) -> (b: bool)
        ensures
            b == exists|i: int|
                0 <= i < self.adapters@.len() && (#[trigger] self.adapters@[i]).index == index,
    {
        let mut i: usize = 0;
        while i < self.adapters.len()
            invariant
                i <= self.adapters@.len(),
                forall|j: int| 0 <= j < i ==> (#[trigger] self.adapters@[j]).index != index,
            decreases self.adapters@.len() - i,
        {
            if self.adapters[i].index == index {
                return true;
            }
            i = i + 1;
        }
        false
    }

    /// The index of the adapter with a LUID, if there is one.
    fn index_of_luid(&self, luid: i64) -> (r: Option<u32>)
        ensures
            r == with_luid_from(self.adapters@, luid, 0),
    {
        let mut i: usize = 0;
        while i < self.adapters.len()
            invariant
                i <= self.adapters@.len(),
                with_luid_from(self.adapters@, luid, 0) == with_luid_from(
                    self.adapters@,
                    luid,
                    i as int,
                ),
            decreases self.adapters@.len() - i,
        {
            if self.adapters[i].luid == luid {
                return Some(self.adapters[i].index);
            }
            i = i + 1;
        }
        None
    }

    /// The topology as text.
    pub fn to_text(&self) -> (s: String)
        ensures
            s@ == topology_text(self.adapters@),
    {
        let mut s: String = String::from_str("GPU topology: ");
        push_decimal(&mut s, self.adapters.len() as u64);
        s.append(" adapter(s)\n");
        let mut lines: String = String::new();
        let mut i: usize = 0;
        while i < self.adapters.len()
            invariant
                i <= self.adapters@.len(),
                lines@ == adapters_text(self.adapters@, i as int),
            decreases self.adapters@.len() - i,
        {
            let more: String = adapter_lines(&self.adapters[i]);
            lines.append(more.as_str());
            i = i + 1;
        }
        s.append(lines.as_str());
        s
    }
}

/// One output as a line of text.
pub open spec fn output_text(o: OutputInfo) -> Seq<char> {
    "        output "@ + o.device_name@ + " "@ + signed_decimal(o.width as int) + "x"@
        + signed_decimal(o.height as int) + " "@ + (if o.hdr {
        "HDR"@
    } else {
        "SDR"@
    }) + (if o.is_primary {
        " [PRIMARY]"@
    } else {
        ""@
    }) + "\n"@
}

/// The first `n` outputs as text.
pub open spec fn outputs_text(outputs: Seq<OutputInfo>, n: int) -> Seq<char>
    decreases n,
{
    if n <= 0 {
        Seq::empty()
    } else {
        outputs_text(outputs, n - 1) + output_text(outputs[n - 1])
    }
}

/// A number in 64 bits without a sign.
pub open spec fn as_unsigned(v: int) -> int {
    v % 0x1_0000_0000_0000_0000
}

/// One adapter as text.
pub open spec fn adapter_text(a: AdapterInfo) -> Seq<char> {
    "  ["@ + decimal(a.index as int) + "] "@ + a.description@ + " (vendor "@ + hex_text(
        a.vendor_id as int,
        4,
    ) + ", device "@ + hex_text(a.device_id as int, 4) + ", "@ + decimal(
        a.dedicated_vram_mb as int,
    ) + " MiB VRAM, luid "@ + hex_text(as_unsigned(a.luid as int), 16) + ")\n"@ + (
    if a.outputs@.len() == 0 {
        "        (drives no outputs — render-only)\n"@
    } else {
        ""@
    }) + outputs_text(a.outputs@, a.outputs@.len() as int)
}

/// The first `n` adapters as text.
pub open spec fn adapters_text(adapters: Seq<AdapterInfo>, n: int) -> Seq<char>
    decreases n,
{
    if n <= 0 {
        Seq::empty()
    } else {
        adapters_text(adapters, n - 1) + adapter_text(adapters[n - 1])
    }
}

/// A topology as text.
pub open spec fn topology_text(adapters: Seq<AdapterInfo>) -> Seq<char> {
    "GPU topology: "@ + decimal(adapters.len() as int) + " adapter(s)\n"@ + adapters_text(
        adapters,
        adapters.len() as int,
    )
}

/// One output's line.
fn output_line(o: &OutputInfo) -> (s: String)
    ensures
        s@ == output_text(*o),
{
    let mut s: String = String::from_str("        output ");
    s.append(o.device_name.as_str());
    s.append(" ");
    push_signed(&mut s, o.width as i64);
    s.append("x");
    push_signed(&mut s, o.height as i64);
    s.append(" ");
    s.append(
        if o.hdr {
            "HDR"
        } else {
            "SDR"
        },
    );
    s.append(
        if o.is_primary {
            " [PRIMARY]"
        } else {
            ""
        },
    );
    s.append("\n");
    s
}

/// A number with a sign as its 64 bits.
fn unsigned(v: i64) -> (u: u64)
    ensures
        u == as_unsigned(v as int),
{
    if v >= 0 {
        v as u64
    } else {
        let below: u64 = (-(v + 1)) as u64;
        u64::MAX - below
    }
}

/// One adapter's lines.
fn adapter_lines(a: &AdapterInfo) -> (s: String)
    ensures
        s@ == adapter_text(*a),
{
    let mut s: String = String::from_str("  [");
    push_decimal(&mut s, a.index as u64);
    s.append("] ");
    s.append(a.description.as_str());
    s.append(" (vendor ");
    push_hex(&mut s, a.vendor_id as u64, 4);
    s.append(", device ");
    push_hex(&mut s, a.device_id as u64, 4);
    s.append(", ");
    push_decimal(&mut s, a.dedicated_vram_mb);
    s.append(" MiB VRAM, luid ");
    push_hex(&mut s, unsigned(a.luid), 16);
    s.append(")\n");
    s.append(
        if a.outputs.len() == 0 {
            "        (drives no outputs — render-only)\n"
        } else {
            ""
        },
    );
    let outputs: String = output_lines(&a.outputs);
    s.append(outputs.as_str());
    s
}

/// The lines of an adapter's outputs.
fn output_lines(outputs: &Vec<OutputInfo>) -> (s: String)
    ensures
        s@ == outputs_text(outputs@, outputs@.len() as int),
{
    let mut s: String = String::new();
    let mut k: usize = 0;
    while k < outputs.len()
        invariant
            k <= outputs@.len(),
            s@ == outputs_text(outputs@, k as int),
        decreases outputs@.len() - k,
    {
        let line: String = output_line(&outputs[k]);
        s.append(line.as_str());
        k = k + 1;
    }
    s
}

/// A LUID as one number.
pub open spec fn packed_luid(high: i32, low: u32) -> int {
    high * 0x1_0000_0000 + low
}

/// Pack a LUID: the high part above the low one.
pub fn luid_to_i64(high: i32, low: u32) -> (luid: i64)
    ensures
        luid == high * 0x1_0000_0000 + low,
        luid == packed_luid(high, low),
{
    high as i64 * 0x1_0000_0000 + low as i64
}

/// Law: two LUIDs pack into the same number only if they are the same.
pub proof fn lemma_luids_stay_apart(h1: i32, l1: u32, h2: i32, l2: u32)
    requires
        packed_luid(h1, l1) == packed_luid(h2, l2),
    ensures
        h1 == h2,
        l1 == l2,
{
}

/// Dedicated memory in whole mebibytes.
pub fn vram_mb(bytes: u64) -> (mb: u64)
    ensures
        mb == bytes as int / 0x10_0000,
{
    bytes / 0x10_0000
}

/// The adapter that a selection means: none where the system picks, or the index of one that there
/// is.
pub open spec fn chosen_adapter(selection: AdapterSelection, adapters: Seq<AdapterInfo>) -> Result<
    Option<u32>,
    GpuError,
> {
    match selection {
        AdapterSelection::Auto => Ok(None),
        AdapterSelection::PrimaryOutput => match primary_from(adapters, 0) {
            None => Err(GpuError::PrimaryOutputNotFound),
            Some(index) => if has_adapter(adapters, index) {
                Ok(Some(index))
            } else {
                Err(GpuError::AdapterNotFound)
            },
        },
        AdapterSelection::Index(index) => if has_adapter(adapters, index) {
            Ok(Some(index))
        } else {
            Err(GpuError::AdapterNotFound)
        },
        AdapterSelection::Luid(luid) => match with_luid_from(adapters, luid, 0) {
            Some(index) => Ok(Some(index)),
            None => Err(GpuError::AdapterNotFound),
        },
    }
}

/// Whether there is an adapter with an index.
pub open spec fn has_adapter(adapters: Seq<AdapterInfo>, index: u32) -> bool {
    exists|i: int| 0 <= i < adapters.len() && (#[trigger] adapters[i]).index == index
}

/// Choose the adapter that a selection means.
pub fn resolve_adapter(selection: AdapterSelection, topology: &Topology) -> (r: Result<
    Option<u32>,
    GpuError,
>)
    ensures
        r == chosen_adapter(selection, topology.adapters@),
{
    let index: u32 = match selection {
        AdapterSelection::Auto => {
            return Ok(None);
        },
        AdapterSelection::Index(i) => i,
        AdapterSelection::PrimaryOutput => match topology.primary_adapter_index() {
            Some(i) => i,
            None => {
                return Err(GpuError::PrimaryOutputNotFound);
            },
        },
        AdapterSelection::Luid(luid) => {
            return match topology.index_of_luid(luid) {
                Some(i) => Ok(Some(i)),
                None => Err(GpuError::AdapterNotFound),
            };
        },
    };
    if topology.has_index(index) {
        Ok(Some(index))
    } else {
        Err(GpuError::AdapterNotFound)
    }
}

/// Whether the device's adapter is the one that drives the primary output. The primary adapter's
/// index is taken for its place.
pub open spec fn co_located(adapters: Seq<AdapterInfo>, luid: i64) -> bool {
    match primary_from(adapters, 0) {
        Some(i) => i < adapters.len() && adapters[i as int].luid == luid,
        None => false,
    }
}

/// Whether the device's adapter is the one that drives the primary output.
pub fn is_co_located(topology: &Topology, luid: i64) -> (b: bool)
    ensures
        b == co_located(topology.adapters@, luid),
{
    match topology.primary_adapter_index() {
        Some(i) => (i as u64) < topology.adapters.len() as u64 && topology.adapters[i as usize].luid
            == luid,
        None => false,
    }
}

/// What is said of the device's adapter.
pub fn co_location_text(co_located: bool) -> (s: &'static str)
    ensures
        s@ == if co_located {
            "yes (same-adapter WGC copy)"@
        } else {
            "no (WGC does a cross-adapter copy into this device's pool)"@
        },
{
    if co_located {
        "yes (same-adapter WGC copy)"
    } else {
        "no (WGC does a cross-adapter copy into this device's pool)"
    }
}

} // verus!
