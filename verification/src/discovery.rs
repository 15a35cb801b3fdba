//! Interpreting what the local machine and its storage report.
//!
//! Discovery reports facts only. Capability interpretation remains in the
//! planner, and performance measurement remains in calibration. Reading files and
//! directories belongs to the caller, who hands over what they hold.

use vstd::prelude::*;
use vstd::string::*;

use crate::paths;
use crate::profiles;
use crate::profiles::{
    Availability, CpuFeatureSet, DiscoveryState, GpuDeviceProfile, MachineProfile, StorageKind,
    StoragePathState, StorageProfile, PROFILE_SCHEMA_VERSION,
};
use crate::scan;
use crate::text;

verus! {

#[derive(Debug, Clone, Copy, PartialEq, Eq, Structural)]
pub enum MachineDiscoveryError {
    LogicalCpuUnavailable,
    InvalidDetectedFacts,
}

impl MachineDiscoveryError {
    pub open spec fn spec_message(self) -> Seq<char> {
        match self {
            MachineDiscoveryError::LogicalCpuUnavailable => "logical CPU count is unavailable"@,
            MachineDiscoveryError::InvalidDetectedFacts => "detected machine facts are invalid"@,
        }
    }

    pub fn message(&self) -> (message: String)
        ensures
            message@ == self.spec_message(),
    {
        match self {
            MachineDiscoveryError::LogicalCpuUnavailable => {
                "logical CPU count is unavailable".to_owned()
            },
            MachineDiscoveryError::InvalidDetectedFacts => {
                "detected machine facts are invalid".to_owned()
            },
        }
    }
}

#[derive(Debug, Clone, Copy, PartialEq, Eq, Structural)]
pub enum StorageDiscoveryError {
    InvalidPath,
    PermissionDenied,
    NotRegularFile,
    Unavailable,
}

impl StorageDiscoveryError {
    pub open spec fn spec_message(self) -> Seq<char> {
        match self {
            StorageDiscoveryError::InvalidPath => "storage path is invalid or unavailable"@,
            StorageDiscoveryError::PermissionDenied => "storage path permission denied"@,
            StorageDiscoveryError::NotRegularFile => "storage path is not a regular file"@,
            StorageDiscoveryError::Unavailable => "storage information is unavailable"@,
        }
    }

    pub fn message(&self) -> (message: String)
        ensures
            message@ == self.spec_message(),
    {
        match self {
            StorageDiscoveryError::InvalidPath => {
                "storage path is invalid or unavailable".to_owned()
            },
            StorageDiscoveryError::PermissionDenied => "storage path permission denied".to_owned(),
            StorageDiscoveryError::NotRegularFile => {
                "storage path is not a regular file".to_owned()
            },
            StorageDiscoveryError::Unavailable => "storage information is unavailable".to_owned(),
        }
    }
}

// ---------------------------------------------------------------------------
// Machine
// ---------------------------------------------------------------------------
#[derive(Debug)]
pub struct MachineFacts {
    pub os: String,
    pub architecture: String,
    pub kernel_version: Option<String>,
    pub cpu_vendor: Option<String>,
    pub cpu_model: Option<String>,
    pub physical_cpu_cores: Option<usize>,
    pub logical_cpu_cores: usize,
    pub cpu_features: CpuFeatureSet,
    pub total_ram_bytes: Option<u64>,
    pub available_ram_bytes: Option<u64>,
    pub gpu_inventory_state: DiscoveryState,
    pub gpus: Vec<GpuDeviceProfile>,
}

/// The profile that carries the facts: the CPU can always be used.
pub open spec fn profile_of(facts: MachineFacts) -> MachineProfile {
    MachineProfile {
        schema_version: PROFILE_SCHEMA_VERSION,
        os: facts.os,
        architecture: facts.architecture,
        kernel_version: facts.kernel_version,
        cpu_vendor: facts.cpu_vendor,
        cpu_model: facts.cpu_model,
        physical_cpu_cores: facts.physical_cpu_cores,
        logical_cpu_cores: facts.logical_cpu_cores,
        cpu_features: facts.cpu_features,
        total_ram_bytes: facts.total_ram_bytes,
        available_ram_bytes: facts.available_ram_bytes,
        cpu_backend: Availability { detected: true, supported: true, usable: true },
        gpu_inventory_state: facts.gpu_inventory_state,
        gpus: facts.gpus,
    }
}

pub fn machine_profile_from_facts(facts: MachineFacts) -> (result: Result<
    MachineProfile,
    MachineDiscoveryError,
>)
    ensures
        result == (match profiles::machine_check(profile_of(facts)) {
            Ok(_) => Ok::<MachineProfile, MachineDiscoveryError>(profile_of(facts)),
            Err(_) => Err(MachineDiscoveryError::InvalidDetectedFacts),
        }),
{
    let profile = MachineProfile {
        schema_version: PROFILE_SCHEMA_VERSION,
        os: facts.os,
        architecture: facts.architecture,
        kernel_version: facts.kernel_version,
        cpu_vendor: facts.cpu_vendor,
        cpu_model: facts.cpu_model,
        physical_cpu_cores: facts.physical_cpu_cores,
        logical_cpu_cores: facts.logical_cpu_cores,
        cpu_features: facts.cpu_features,
        total_ram_bytes: facts.total_ram_bytes,
        available_ram_bytes: facts.available_ram_bytes,
        cpu_backend: Availability { detected: true, supported: true, usable: true },
        gpu_inventory_state: facts.gpu_inventory_state,
        gpus: facts.gpus,
    };
    if profile.validate().is_err() {
        return Err(MachineDiscoveryError::InvalidDetectedFacts);
    }
    Ok(profile)
}

// ---------------------------------------------------------------------------
// Processor
// ---------------------------------------------------------------------------
#[derive(Debug, Default)]
pub struct CpuInfo {
    pub vendor: Option<String>,
    pub model: Option<String>,
    pub physical_cores: Option<usize>,
}

/// A line `key: value`, both without surrounding white space.
pub open spec fn field(line: Seq<char>) -> Option<(Seq<char>, Seq<char>)> {
    match scan::split_pair(line, seq![':']) {
        Some((key, value)) => Some((scan::trimmed(key), scan::trimmed(value))),
        None => None,
    }
}

/// What the fields of one section say; vendor and model keep what was said first.
#[verifier::ext_equal]
pub struct SectionFacts {
    pub vendor: Option<Seq<char>>,
    pub model: Option<Seq<char>>,
    pub processor: bool,
    pub physical_id: Option<int>,
    pub core_id: Option<int>,
}

pub open spec fn first_said(known: Option<Seq<char>>, value: Seq<char>) -> Option<Seq<char>> {
    if known is None && value.len() > 0 {
        Some(value)
    } else {
        known
    }
}

pub open spec fn with_field(
    section: SectionFacts,
    key: Seq<char>,
    value: Seq<char>,
) -> SectionFacts {
    if key == "processor"@ {
        SectionFacts { processor: true, ..section }
    } else if key == "physical id"@ {
        SectionFacts { physical_id: scan::number(value, u32::MAX as int), ..section }
    } else if key == "core id"@ {
        SectionFacts { core_id: scan::number(value, u32::MAX as int), ..section }
    } else if key == "vendor_id"@ || key == "CPU implementer"@ {
        SectionFacts { vendor: first_said(section.vendor, value), ..section }
    } else if key == "model name"@ || key == "Hardware"@ {
        SectionFacts { model: first_said(section.model, value), ..section }
    } else {
        section
    }
}

pub open spec fn with_line(section: SectionFacts, line: Seq<char>) -> SectionFacts {
    match field(line) {
        Some((key, value)) => with_field(section, key, value),
        None => section,
    }
}

pub open spec fn with_lines(section: SectionFacts, lines: Seq<Seq<char>>) -> SectionFacts
    decreases lines.len(),
{
    if lines.len() == 0 {
        section
    } else {
        with_line(with_lines(section, lines.drop_last()), lines.last())
    }
}

/// What a description of processors says.
#[verifier::ext_equal]
pub struct CpuFacts {
    pub vendor: Option<Seq<char>>,
    pub model: Option<Seq<char>>,
    /// The distinct pairs of package and core.
    pub cores: Set<(u32, u32)>,
    pub processors: nat,
    /// Every processor names its package and core.
    pub complete: bool,
}

pub open spec fn no_cpu() -> CpuFacts {
    CpuFacts {
        vendor: None,
        model: None,
        cores: Set::empty(),
        processors: 0,
        complete: true,
    }
}

/// A section that begins with what is known of vendor and model.
pub open spec fn section_start(cpu: CpuFacts) -> SectionFacts {
    SectionFacts {
        vendor: cpu.vendor,
        model: cpu.model,
        processor: false,
        physical_id: None,
        core_id: None,
    }
}

pub open spec fn with_section(cpu: CpuFacts, section: Seq<char>) -> CpuFacts {
    let read = with_lines(section_start(cpu), scan::lines(section));
    let known = CpuFacts { vendor: read.vendor, model: read.model, ..cpu };
    if !read.processor {
        known
    } else {
        match (read.physical_id, read.core_id) {
            (Some(package), Some(core)) => CpuFacts {
                cores: known.cores.insert((package as u32, core as u32)),
                processors: known.processors + 1,
                ..known
            },
            _ => CpuFacts { processors: known.processors + 1, complete: false, ..known },
        }
    }
}

pub open spec fn with_sections(sections: Seq<Seq<char>>) -> CpuFacts
    decreases sections.len(),
{
    if sections.len() == 0 {
        no_cpu()
    } else {
        with_section(with_sections(sections.drop_last()), sections.last())
    }
}

/// What a processor listing says: sections are separated by empty lines.
pub open spec fn cpu_facts(contents: Seq<char>) -> CpuFacts {
    with_sections(scan::sections(contents, seq!['\n', '\n']))
}

/// The number of physical cores, where every processor tells its own.
pub open spec fn core_count(cpu: CpuFacts) -> Option<usize> {
    if cpu.processors > 0 && cpu.complete && cpu.cores.len() > 0 {
        Some(cpu.cores.len() as usize)
    } else {
        None
    }
}

/// A section as it is read.
struct Section {
    vendor: Option<Vec<char>>,
    model: Option<Vec<char>>,
    processor: bool,
    physical_id: Option<u32>,
    core_id: Option<u32>,
}

spec fn optional_chars(value: Option<Vec<char>>) -> Option<Seq<char>> {
    match value {
        Some(chars) => Some(chars@),
        None => None,
    }
}

spec fn optional_int(value: Option<u32>) -> Option<int> {
    match value {
        Some(number) => Some(number as int),
        None => None,
    }
}

impl Section {
    spec fn facts(&self) -> SectionFacts {
        SectionFacts {
            vendor: optional_chars(self.vendor),
            model: optional_chars(self.model),
            processor: self.processor,
            physical_id: optional_int(self.physical_id),
            core_id: optional_int(self.core_id),
        }
    }

    fn read_line(&mut self, line: &Vec<char>)
        ensures
            final(self).facts() == with_line(old(self).facts(), line@),
    {
        let colon = text::to_chars(":");
        proof {
            reveal_strlit(":");
            assert(colon@ =~= seq![':']);
        }
        match scan::split_once(line, &colon) {
            Some((left, right)) => {
                let key = scan::trim(&left);
                let value = scan::trim(&right);
                self.read_field(&key, value);
            },
            None => {},
        }
    }

    fn read_field(&mut self, key: &Vec<char>, value: Vec<char>)
        ensures
            final(self).facts() == with_field(old(self).facts(), key@, value@),
    {
        if text::chars_are(key, "processor") {
            self.processor = true;
        } else if text::chars_are(key, "physical id") {
            self.physical_id = read_identifier(&value);
        } else if text::chars_are(key, "core id") {
            self.core_id = read_identifier(&value);
        } else if text::chars_are(key, "vendor_id") || text::chars_are(key, "CPU implementer") {
            if self.vendor.is_none() && value.len() > 0 {
                self.vendor = Some(value);
            }
        } else if text::chars_are(key, "model name") || text::chars_are(key, "Hardware") {
            if self.model.is_none() && value.len() > 0 {
                self.model = Some(value);
            }
        }
    }

    fn read_lines(&mut self, lines: &Vec<Vec<char>>)
        ensures
            final(self).facts() == with_lines(old(self).facts(), text::pieces(lines@)),
    {
        let ghost all = text::pieces(lines@);
        let ghost start = self.facts();
        for i in 0..lines.len()
            invariant
                all == text::pieces(lines@),
                start == old(self).facts(),
                self.facts() == with_lines(start, all.take(i as int)),
        {
            assert(all.take(i as int + 1).drop_last() =~= all.take(i as int));
            assert(all[i as int] == lines@[i as int]@);
            self.read_line(&lines[i]);
        }
        assert(all.take(all.len() as int) =~= all);
    }
}

fn read_identifier(value: &Vec<char>) -> (number: Option<u32>)
    ensures
        optional_int(number) == scan::number(value@, u32::MAX as int),
{
    match scan::parse_unsigned(value, u32::MAX as u64) {
        Some(number) => Some(number as u32),
        None => None,
    }
}

fn holds_core(cores: &Vec<(u32, u32)>, package: u32, core: u32) -> (found: bool)
    ensures
        found == cores@.contains((package, core)),
{
    for i in 0..cores.len()
        invariant
            forall|k: int| 0 <= k < i ==> #[trigger] cores@[k] != (package, core),
    {
        let (first, second) = cores[i];
        if first == package && second == core {
            assert(cores@[i as int] == (package, core));
            return true;
        }
    }
    false
}

fn optional_text(chars: &Option<Vec<char>>) -> (value: Option<String>)
    ensures
        text::text_option(value) == optional_chars(*chars),
{
    match chars {
        Some(content) => Some(text::from_chars(content)),
        None => None,
    }
}

pub fn parse_linux_cpuinfo(contents: &str) -> (info: CpuInfo)
    ensures
        text::text_option(info.vendor) == cpu_facts(contents@).vendor,
        text::text_option(info.model) == cpu_facts(contents@).model,
        info.physical_cores == core_count(cpu_facts(contents@)),
{
    let chars = text::to_chars(contents);
    let gap = text::to_chars("\n\n");
    proof {
        reveal_strlit("\n\n");
        assert(gap@ =~= seq!['\n', '\n']);
    }
    let sections = scan::split_text(&chars, &gap);
    let ghost all = text::pieces(sections@);
    let mut vendor: Option<Vec<char>> = None;
    let mut model: Option<Vec<char>> = None;
    let mut cores: Vec<(u32, u32)> = Vec::new();
    let mut processors: usize = 0;
    let mut complete = true;
    assert(cores@.to_set() =~= Set::empty());
    for i in 0..sections.len()
        invariant
            all == text::pieces(sections@),
            cores@.no_duplicates(),
            processors <= i,
            with_sections(all.take(i as int)) == (CpuFacts {
                vendor: optional_chars(vendor),
                model: optional_chars(model),
                cores: cores@.to_set(),
                processors: processors as nat,
                complete,
            }),
    {
        let ghost before = with_sections(all.take(i as int));
        assert(all.take(i as int + 1).drop_last() =~= all.take(i as int));
        assert(all[i as int] == sections@[i as int]@);
        let lines = scan::split_lines(&sections[i]);
        let mut section = Section {
            vendor,
            model,
            processor: false,
            physical_id: None,
            core_id: None,
        };
        assert(section.facts() =~= section_start(before));
        section.read_lines(&lines);
        vendor = section.vendor;
        model = section.model;
        let ghost known = cores@;
        if section.processor {
            processors = processors + 1;
            match (section.physical_id, section.core_id) {
                (Some(package), Some(core)) => {
                    if !holds_core(&cores, package, core) {
                        cores.push((package, core));
                        proof {
                            known.lemma_push_to_set_commute((package, core));
                        }
                    } else {
                        assert(known.to_set().contains((package, core)));
                        assert(known.to_set().insert((package, core)) =~= known.to_set());
                    }
                },
                _ => {
                    complete = false;
                },
            }
        }
        assert(with_sections(all.take(i as int + 1)) =~= (CpuFacts {
            vendor: optional_chars(vendor),
            model: optional_chars(model),
            cores: cores@.to_set(),
            processors: processors as nat,
            complete,
        }));
    }
    assert(all.take(all.len() as int) =~= all);
    proof {
        cores@.unique_seq_to_set();
    }
    CpuInfo {
        vendor: optional_text(&vendor),
        model: optional_text(&model),
        physical_cores: if processors > 0 && complete && cores.len() > 0 {
            Some(cores.len())
        } else {
            None
        },
    }
}

// ---------------------------------------------------------------------------
// Memory
// ---------------------------------------------------------------------------
/// A line of a memory listing: its key and its size in bytes, where it states a
/// size at all; the size is absent where it cannot be counted in 64 bits.
pub open spec fn memory_field(line: Seq<char>) -> Option<(Seq<char>, Option<u64>)> {
    match scan::split_pair(line, seq![':']) {
        None => None,
        Some((key, rest)) => if scan::words(rest).len() == 0 {
            None
        } else {
            match scan::number(scan::words(rest)[0], u64::MAX as int) {
                None => None,
                Some(kibibytes) => if kibibytes * 1024 > u64::MAX {
                    Some((key, None))
                } else {
                    Some((key, Some((kibibytes * 1024) as u64)))
                },
            }
        },
    }
}

/// Total and available memory as the lines state them, the last statement of each
/// counting.
pub open spec fn memory_facts(lines: Seq<Seq<char>>) -> (Option<u64>, Option<u64>)
    decreases lines.len(),
{
    if lines.len() == 0 {
        (None, None)
    } else {
        let (total, available) = memory_facts(lines.drop_last());
        match memory_field(lines.last()) {
            None => (total, available),
            Some((key, bytes)) => if key == "MemTotal"@ {
                (bytes, available)
            } else if key == "MemAvailable"@ {
                (total, bytes)
            } else {
                (total, available)
            },
        }
    }
}

/// Without a total nothing is known; what is available never exceeds the total.
pub open spec fn memory_of(contents: Seq<char>) -> (Option<u64>, Option<u64>) {
    let (total, available) = memory_facts(scan::lines(contents));
    if total is None {
        (None, None)
    } else if available is Some && available->0 > total->0 {
        (total, None)
    } else {
        (total, available)
    }
}

fn read_memory_line(line: &Vec<char>) -> (found: Option<(Vec<char>, Option<u64>)>)
    ensures
        match found {
            Some((key, bytes)) => memory_field(line@) == Some((key@, bytes)),
            None => memory_field(line@) is None,
        },
{
    let colon = text::to_chars(":");
    proof {
        reveal_strlit(":");
        assert(colon@ =~= seq![':']);
    }
    match scan::split_once(line, &colon) {
        None => None,
        Some((key, rest)) => {
            let words = scan::split_words(&rest);
            assert(text::pieces(words@).len() == words@.len());
            if words.len() == 0 {
                return None;
            }
            assert(text::pieces(words@)[0] == words@[0]@);
            match scan::parse_unsigned(&words[0], u64::MAX) {
                None => None,
                Some(kibibytes) => Some((key, kibibytes.checked_mul(1024))),
            }
        },
    }
}

pub fn parse_linux_meminfo(contents: &str) -> (memory: (Option<u64>, Option<u64>))
    ensures
        memory == memory_of(contents@),
{
    let chars = text::to_chars(contents);
    let lines = scan::split_lines(&chars);
    let ghost all = text::pieces(lines@);
    let mut total: Option<u64> = None;
    let mut available: Option<u64> = None;
    for i in 0..lines.len()
        invariant
            all == text::pieces(lines@),
            (total, available) == memory_facts(all.take(i as int)),
    {
        assert(all.take(i as int + 1).drop_last() =~= all.take(i as int));
        assert(all[i as int] == lines@[i as int]@);
        match read_memory_line(&lines[i]) {
            None => {},
            Some((key, bytes)) => {
                if text::chars_are(&key, "MemTotal") {
                    total = bytes;
                } else if text::chars_are(&key, "MemAvailable") {
                    available = bytes;
                }
            },
        }
    }
    assert(all.take(all.len() as int) =~= all);
    match total {
        None => (None, None),
        Some(total_bytes) => match available {
            Some(bytes) => if bytes <= total_bytes {
                (total, available)
            } else {
                (total, None)
            },
            None => (total, None),
        },
    }
}

/// What is known to be available never exceeds a known total.
pub proof fn lemma_available_within_total(contents: Seq<char>)
    ensures
        memory_of(contents).1 matches Some(available) ==> memory_of(contents).0 is Some
            && available <= memory_of(contents).0->0,
{
}

// ---------------------------------------------------------------------------
// Graphics
// ---------------------------------------------------------------------------
/// `card` and a number.
pub open spec fn is_card(name: Seq<char>) -> bool {
    &&& text::has_prefix(name, "card"@)
    &&& name.len() > 4
    &&& scan::all_digits(name.skip(4))
}

pub fn is_drm_card_name(name: &str) -> (yes: bool)
    ensures
        yes == is_card(name@),
{
    proof {
        reveal_strlit("card");
    }
    if !text::starts_with(name, "card") {
        return false;
    }
    let chars = text::to_chars(name);
    if chars.len() <= 4 {
        return false;
    }
    let ghost rest = name@.skip(4);
    for i in 4..chars.len()
        invariant
            chars@ == name@,
            chars@.len() > 4,
            rest == name@.skip(4),
            forall|k: int| 0 <= k < i - 4 ==> text::is_decimal_digit(#[trigger] rest[k]),
    {
        assert(rest[i - 4] == chars@[i as int]);
        if !text::decimal_char(chars[i]) {
            return false;
        }
    }
    true
}

/// The vendor of a PCI vendor identifier.
pub open spec fn vendor_of(identifier: Seq<char>) -> Option<Seq<char>> {
    let known = scan::lower(scan::trimmed(identifier));
    if known == "0x10de"@ {
        Some("NVIDIA"@)
    } else if known == "0x1002"@ {
        Some("AMD"@)
    } else if known == "0x8086"@ {
        Some("Intel"@)
    } else {
        None
    }
}

pub fn gpu_vendor_name(identifier: &str) -> (vendor: Option<String>)
    ensures
        text::text_option(vendor) == vendor_of(identifier@),
{
    let chars = text::to_chars(identifier);
    let known = scan::trim(&chars);
    if scan::lower_is(&known, "0x10de") {
        Some("NVIDIA".to_owned())
    } else if scan::lower_is(&known, "0x1002") {
        Some("AMD".to_owned())
    } else if scan::lower_is(&known, "0x8086") {
        Some("Intel".to_owned())
    } else {
        None
    }
}

/// What a directory entry of the graphics devices holds.
#[derive(Debug, Clone, PartialEq, Eq)]
pub struct GpuCardFacts {
    pub card: String,
    pub device_present: bool,
    pub slot: Option<String>,
    pub vendor_id: Option<String>,
    pub device_id: Option<String>,
    pub name: Option<String>,
    pub dedicated_memory: Option<String>,
}

/// The content of a device profile.
pub struct GpuFacts {
    pub identifier: Seq<char>,
    pub vendor: Option<Seq<char>>,
    pub device_id: Option<Seq<char>>,
    pub name: Option<Seq<char>>,
    pub dedicated_memory_bytes: Option<u64>,
    pub backend: Availability,
}

pub open spec fn gpu_facts(gpu: GpuDeviceProfile) -> GpuFacts {
    GpuFacts {
        identifier: gpu.identifier@,
        vendor: text::text_option(gpu.vendor),
        device_id: text::text_option(gpu.device_id),
        name: text::text_option(gpu.name),
        dedicated_memory_bytes: gpu.dedicated_memory_bytes,
        backend: gpu.backend,
    }
}

pub open spec fn gpu_list(gpus: Seq<GpuDeviceProfile>) -> Seq<GpuFacts> {
    Seq::new(gpus.len(), |i: int| gpu_facts(gpus[i]))
}

pub open spec fn or_else(value: Option<String>, other: Seq<char>) -> Seq<char> {
    match value {
        Some(content) => content@,
        None => other,
    }
}

/// The device of a card: it is detected, and no backend drives it.
pub open spec fn card_gpu(card: GpuCardFacts) -> GpuFacts {
    GpuFacts {
        identifier: "linux-drm:"@ + or_else(card.slot, card.card@) + ":"@ + or_else(
            card.vendor_id,
            "unknown-vendor"@,
        ) + ":"@ + or_else(card.device_id, "unknown-device"@),
        vendor: match card.vendor_id {
            Some(identifier) => vendor_of(identifier@),
            None => None,
        },
        device_id: text::text_option(card.device_id),
        name: text::text_option(card.name),
        dedicated_memory_bytes: match card.dedicated_memory {
            Some(content) => match scan::number(content@, u64::MAX as int) {
                Some(bytes) => Some(bytes as u64),
                None => None,
            },
            None => None,
        },
        backend: Availability { detected: true, supported: false, usable: false },
    }
}

/// The inventory so far: an entry that cannot be read, or a card without a device
/// or without its identifiers, leaves it partial; a device that is known already
/// is not taken twice.
pub struct Inventory {
    pub state: DiscoveryState,
    pub gpus: Seq<GpuFacts>,
}

pub open spec fn lists(gpus: Seq<GpuFacts>, identifier: Seq<char>) -> bool {
    exists|k: int| 0 <= k < gpus.len() && (#[trigger] gpus[k]).identifier == identifier
}

pub open spec fn with_entry(inventory: Inventory, entry: Option<GpuCardFacts>) -> Inventory {
    match entry {
        None => Inventory { state: DiscoveryState::Partial, ..inventory },
        Some(card) => if !is_card(card.card@) {
            inventory
        } else if !card.device_present {
            Inventory { state: DiscoveryState::Partial, ..inventory }
        } else {
            Inventory {
                state: if card.vendor_id is None || card.device_id is None {
                    DiscoveryState::Partial
                } else {
                    inventory.state
                },
                gpus: if lists(inventory.gpus, card_gpu(card).identifier) {
                    inventory.gpus
                } else {
                    inventory.gpus.push(card_gpu(card))
                },
            }
        },
    }
}

pub open spec fn with_entries(entries: Seq<Option<GpuCardFacts>>) -> Inventory
    decreases entries.len(),
{
    if entries.len() == 0 {
        Inventory { state: DiscoveryState::Complete, gpus: Seq::empty() }
    } else {
        with_entry(with_entries(entries.drop_last()), entries.last())
    }
}

pub open spec fn gpu_names(gpus: Seq<GpuFacts>) -> Seq<Seq<char>> {
    Seq::new(gpus.len(), |i: int| gpus[i].identifier)
}

/// The devices by identifier.
pub open spec fn by_identifier(gpus: Seq<GpuFacts>) -> Seq<GpuFacts> {
    let order = text::name_order(gpu_names(gpus));
    Seq::new(gpus.len(), |i: int| gpus[order[i]])
}

fn copy_option(value: &Option<String>) -> (copy: Option<String>)
    ensures
        copy == *value,
{
    match value {
        Some(content) => Some(content.clone()),
        None => None,
    }
}

fn copy_gpu(gpu: &GpuDeviceProfile) -> (copy: GpuDeviceProfile)
    ensures
        gpu_facts(copy) == gpu_facts(*gpu),
{
    GpuDeviceProfile {
        identifier: gpu.identifier.clone(),
        vendor: copy_option(&gpu.vendor),
        device_id: copy_option(&gpu.device_id),
        name: copy_option(&gpu.name),
        dedicated_memory_bytes: gpu.dedicated_memory_bytes,
        backend: gpu.backend,
    }
}

fn append_or(out: &mut String, value: &Option<String>, other: &str)
    ensures
        final(out)@ == old(out)@ + or_else(*value, other@),
{
    match value {
        Some(content) => out.append(content.as_str()),
        None => out.append(other),
    }
}

fn read_card(card: &GpuCardFacts) -> (gpu: GpuDeviceProfile)
    ensures
        gpu_facts(gpu) == card_gpu(*card),
{
    let mut identifier = "linux-drm:".to_owned();
    append_or(&mut identifier, &card.slot, card.card.as_str());
    identifier.append(":");
    append_or(&mut identifier, &card.vendor_id, "unknown-vendor");
    identifier.append(":");
    append_or(&mut identifier, &card.device_id, "unknown-device");
    let vendor = match &card.vendor_id {
        Some(content) => gpu_vendor_name(content.as_str()),
        None => None,
    };
    let dedicated_memory_bytes = match &card.dedicated_memory {
        Some(content) => {
            let chars = text::to_chars(content.as_str());
            scan::parse_unsigned(&chars, u64::MAX)
        },
        None => None,
    };
    let gpu = GpuDeviceProfile {
        identifier,
        vendor,
        device_id: copy_option(&card.device_id),
        name: copy_option(&card.name),
        dedicated_memory_bytes,
        backend: Availability { detected: true, supported: false, usable: false },
    };
    assert(gpu_facts(gpu).identifier =~= card_gpu(*card).identifier);
    gpu
}

fn is_listed(gpus: &Vec<GpuDeviceProfile>, identifier: &str) -> (found: bool)
    ensures
        found == lists(gpu_list(gpus@), identifier@),
{
    let ghost all = gpu_list(gpus@);
    for k in 0..gpus.len()
        invariant
            all == gpu_list(gpus@),
            forall|j: int| 0 <= j < k ==> (#[trigger] all[j]).identifier != identifier@,
    {
        assert(all[k as int].identifier == gpus@[k as int].identifier@);
        if text::str_equal(gpus[k].identifier.as_str(), identifier) {
            return true;
        }
    }
    false
}

fn sort_gpus(gpus: &Vec<GpuDeviceProfile>) -> (sorted: Vec<GpuDeviceProfile>)
    ensures
        gpu_list(sorted@) == by_identifier(gpu_list(gpus@)),
{
    let ghost all = gpu_list(gpus@);
    let mut names: Vec<String> = Vec::new();
    for i in 0..gpus.len()
        invariant
            text::texts(names@) == gpu_names(gpu_list(gpus@)).take(i as int),
    {
        let ghost before = text::texts(names@);
        let name = gpus[i].identifier.clone();
        names.push(name);
        assert(text::texts(names@) =~= before.push(gpus@[i as int].identifier@));
        assert(gpu_names(gpu_list(gpus@)).take(i as int + 1) =~= gpu_names(
            gpu_list(gpus@),
        ).take(i as int).push(gpus@[i as int].identifier@));
    }
    assert(text::texts(names@) =~= gpu_names(all));
    assert(names@.len() == text::texts(names@).len());
    let order = text::order_by_name(&names);
    let mut sorted: Vec<GpuDeviceProfile> = Vec::new();
    for i in 0..order.len()
        invariant
            all == gpu_list(gpus@),
            order@.len() == gpus@.len(),
            order@.map_values(|k: usize| k as int) == text::name_order(gpu_names(all)),
            forall|k: int| 0 <= k < order@.len() ==> (#[trigger] order@[k]) < gpus@.len(),
            gpu_list(sorted@) == by_identifier(all).take(i as int),
    {
        let ghost before = gpu_list(sorted@);
        let at: usize = order[i];
        assert(order@.map_values(|k: usize| k as int)[i as int] == at as int);
        let copy = copy_gpu(&gpus[at]);
        let ghost content = gpu_facts(copy);
        sorted.push(copy);
        assert(gpu_list(sorted@) =~= before.push(content));
        assert(by_identifier(all).take(i as int + 1) =~= by_identifier(all).take(i as int).push(
            content,
        ));
    }
    assert(by_identifier(all).take(all.len() as int) =~= by_identifier(all));
    sorted
}

/// Assembles the inventory from the directory's entries; an entry that could not
/// be read is absent.
pub fn gpu_inventory(entries: &Vec<Option<GpuCardFacts>>) -> (inventory: (
    DiscoveryState,
    Vec<GpuDeviceProfile>,
))
    ensures
        inventory.0 == with_entries(entries@).state,
        gpu_list(inventory.1@) == by_identifier(with_entries(entries@).gpus),
{
    let ghost all = entries@;
    let mut state = DiscoveryState::Complete;
    let mut gpus: Vec<GpuDeviceProfile> = Vec::new();
    assert(gpu_list(gpus@) =~= Seq::empty());
    for i in 0..entries.len()
        invariant
            all == entries@,
            state == with_entries(all.take(i as int)).state,
            gpu_list(gpus@) == with_entries(all.take(i as int)).gpus,
    {
        assert(all.take(i as int + 1).drop_last() =~= all.take(i as int));
        match &entries[i] {
            None => {
                state = DiscoveryState::Partial;
            },
            Some(card) => {
                if is_drm_card_name(card.card.as_str()) {
                    if !card.device_present {
                        state = DiscoveryState::Partial;
                    } else {
                        if card.vendor_id.is_none() || card.device_id.is_none() {
                            state = DiscoveryState::Partial;
                        }
                        let gpu = read_card(card);
                        if !is_listed(&gpus, gpu.identifier.as_str()) {
                            let ghost before = gpu_list(gpus@);
                            let ghost content = gpu_facts(gpu);
                            gpus.push(gpu);
                            assert(gpu_list(gpus@) =~= before.push(content));
                        }
                    }
                }
            },
        }
    }
    assert(all.take(all.len() as int) =~= all);
    (state, sort_gpus(&gpus))
}

// ---------------------------------------------------------------------------
// Storage
// ---------------------------------------------------------------------------
/// The content of a small file without surrounding white space, where there is any.
pub fn trimmed_content(content: &str) -> (value: Option<String>)
    ensures
        text::text_option(value) == (if scan::trimmed(content@).len() == 0 {
            None::<Seq<char>>
        } else {
            Some(scan::trimmed(content@))
        }),
{
    let chars = text::to_chars(content);
    let trimmed = scan::trim(&chars);
    if trimmed.len() == 0 {
        None
    } else {
        Some(text::from_chars(&trimmed))
    }
}

/// A flag file holds `0` or `1`.
pub fn flag_content(content: &str) -> (flag: Option<bool>)
    ensures
        flag == (if content@ == "0"@ {
            Some(false)
        } else if content@ == "1"@ {
            Some(true)
        } else {
            None
        }),
{
    if text::str_equal(content, "0") {
        Some(false)
    } else if text::str_equal(content, "1") {
        Some(true)
    } else {
        None
    }
}

#[derive(Debug)]
pub struct LinuxMount {
    pub mount_point: String,
    pub major_minor: String,
    pub filesystem_type: String,
}

/// The content of a mount.
#[verifier::ext_equal]
pub struct MountFacts {
    pub mount_point: Seq<char>,
    pub major_minor: Seq<char>,
    pub filesystem_type: Seq<char>,
}

impl View for LinuxMount {
    type V = MountFacts;

    open spec fn view(&self) -> MountFacts {
        MountFacts {
            mount_point: self.mount_point@,
            major_minor: self.major_minor@,
            filesystem_type: self.filesystem_type@,
        }
    }
}

/// A mount table writes blanks, tabs, line feeds and backslashes as octal escapes.
pub open spec fn unescaped(value: Seq<char>) -> Seq<char> {
    scan::replaced(
        scan::replaced(
            scan::replaced(scan::replaced(value, "\\040"@, " "@), "\\011"@, "\t"@),
            "\\012"@,
            "\n"@,
        ),
        "\\134"@,
        "\\"@,
    )
}

fn replace_literal(value: &Vec<char>, pattern: &str, with: &str) -> (out: Vec<char>)
    requires
        pattern@.len() > 0,
    ensures
        out@ == scan::replaced(value@, pattern@, with@),
{
    let from = text::to_chars(pattern);
    let to = text::to_chars(with);
    scan::replace(value, &from, &to)
}

fn decode_mount_field(value: &Vec<char>) -> (out: Vec<char>)
    ensures
        out@ == unescaped(value@),
{
    proof {
        reveal_strlit("\\040");
        reveal_strlit("\\011");
        reveal_strlit("\\012");
        reveal_strlit("\\134");
    }
    let blanks = replace_literal(value, "\\040", " ");
    let tabs = replace_literal(&blanks, "\\011", "\t");
    let feeds = replace_literal(&tabs, "\\012", "\n");
    replace_literal(&feeds, "\\134", "\\")
}

/// The mount of a line of the mount table, if the line has all its fields.
pub open spec fn mount_of(line: Seq<char>) -> Option<MountFacts> {
    match scan::split_pair(line, " - "@) {
        None => None,
        Some((left, right)) => if scan::words(left).len() < 5 || scan::words(right).len() == 0 {
            None
        } else {
            Some(
                MountFacts {
                    mount_point: unescaped(scan::words(left)[4]),
                    major_minor: scan::words(left)[2],
                    filesystem_type: scan::words(right)[0],
                },
            )
        },
    }
}

/// The mount of a line, if the path lies under it.
pub open spec fn mount_for(line: Seq<char>, path: Seq<char>) -> Option<MountFacts> {
    match mount_of(line) {
        Some(mount) => if paths::is_under(
            paths::path_of(path),
            paths::path_of(mount.mount_point),
        ) {
            Some(mount)
        } else {
            None
        },
        None => None,
    }
}

/// The length of a path as it is stored.
pub open spec fn stored_length(path: Seq<char>) -> int {
    vstd::utf8::encode_utf8(path).len() as int
}

/// The mount with the longest mount point, the first of equals.
pub open spec fn best_mount(lines: Seq<Seq<char>>, path: Seq<char>) -> Option<MountFacts>
    decreases lines.len(),
{
    if lines.len() == 0 {
        None
    } else {
        let earlier = best_mount(lines.drop_last(), path);
        match (mount_for(lines.last(), path), earlier) {
            (None, _) => earlier,
            (Some(mount), None) => Some(mount),
            (Some(mount), Some(best)) => if stored_length(mount.mount_point) > stored_length(
                best.mount_point,
            ) {
                Some(mount)
            } else {
                Some(best)
            },
        }
    }
}

pub open spec fn mount_option(mount: Option<LinuxMount>) -> Option<MountFacts> {
    match mount {
        Some(found) => Some(found@),
        None => None,
    }
}

fn read_mount(line: &Vec<char>, path: &str) -> (mount: Option<LinuxMount>)
    ensures
        mount_option(mount) == mount_for(line@, path@),
{
    let dash = text::to_chars(" - ");
    match scan::split_once(line, &dash) {
        None => None,
        Some((left, right)) => {
            let left_words = scan::split_words(&left);
            let right_words = scan::split_words(&right);
            assert(text::pieces(left_words@).len() == left_words@.len());
            assert(text::pieces(right_words@).len() == right_words@.len());
            if left_words.len() < 5 || right_words.len() == 0 {
                return None;
            }
            assert(text::pieces(left_words@)[4] == left_words@[4]@);
            assert(text::pieces(left_words@)[2] == left_words@[2]@);
            assert(text::pieces(right_words@)[0] == right_words@[0]@);
            let decoded = decode_mount_field(&left_words[4]);
            let mount_point = text::from_chars(&decoded);
            if !paths::path_starts_with(path, mount_point.as_str()) {
                return None;
            }
            Some(
                LinuxMount {
                    mount_point,
                    major_minor: text::from_chars(&left_words[2]),
                    filesystem_type: text::from_chars(&right_words[0]),
                },
            )
        },
    }
}

pub fn find_linux_mount(contents: &str, path: &str) -> (mount: Option<LinuxMount>)
    ensures
        mount_option(mount) == best_mount(scan::lines(contents@), path@),
{
    let chars = text::to_chars(contents);
    let lines = scan::split_lines(&chars);
    let ghost all = text::pieces(lines@);
    let mut best: Option<LinuxMount> = None;
    for i in 0..lines.len()
        invariant
            all == text::pieces(lines@),
            mount_option(best) == best_mount(all.take(i as int), path@),
    {
        assert(all.take(i as int + 1).drop_last() =~= all.take(i as int));
        assert(all[i as int] == lines@[i as int]@);
        if let Some(candidate) = read_mount(&lines[i], path) {
            let better = match &best {
                Some(current) => candidate.mount_point.as_str().as_bytes().len()
                    > current.mount_point.as_str().as_bytes().len(),
                None => true,
            };
            if better {
                best = Some(candidate);
            }
        }
    }
    assert(all.take(all.len() as int) =~= all);
    best
}

/// The mount that is found is one of those that hold the path, and none of them
/// has a longer mount point; where none is found, none holds it.
pub proof fn lemma_longest_mount(lines: Seq<Seq<char>>, path: Seq<char>)
    ensures
        match best_mount(lines, path) {
            Some(best) => {
                &&& exists|k: int|
                    0 <= k < lines.len() && #[trigger] mount_for(lines[k], path) == Some(best)
                &&& forall|k: int|
                    0 <= k < lines.len() ==> ((#[trigger] mount_for(lines[k], path)) matches Some(
                        mount,
                    ) ==> stored_length(mount.mount_point) <= stored_length(best.mount_point))
            },
            None => forall|k: int|
                0 <= k < lines.len() ==> (#[trigger] mount_for(lines[k], path)) is None,
        },
    decreases lines.len(),
{
    if lines.len() > 0 {
        let earlier = lines.drop_last();
        lemma_longest_mount(earlier, path);
        assert forall|k: int| 0 <= k < earlier.len() implies mount_for(earlier[k], path)
            == #[trigger] mount_for(lines[k], path) by {
            assert(earlier[k] == lines[k]);
        }
        let last = lines.len() - 1;
        assert(mount_for(lines[last], path) == mount_for(lines.last(), path));
        if let Some(best) = best_mount(lines, path) {
            if best_mount(earlier, path) == Some(best) {
                let k = choose|k: int|
                    0 <= k < earlier.len() && #[trigger] mount_for(earlier[k], path) == Some(best);
                assert(mount_for(lines[k], path) == Some(best));
            }
            assert forall|k: int| 0 <= k < lines.len() implies ((#[trigger] mount_for(
                lines[k],
                path,
            )) matches Some(mount) ==> stored_length(mount.mount_point) <= stored_length(
                best.mount_point,
            )) by {
                if k < last {
                    assert(mount_for(earlier[k], path) == mount_for(lines[k], path));
                }
            }
        }
    }
}

/// What the block device below a filesystem reports.
#[derive(Debug, Clone, PartialEq, Eq)]
pub struct BlockDeviceFacts {
    pub removable: Option<bool>,
    pub subsystem: Option<String>,
    pub rotational: Option<bool>,
}

pub open spec fn block_kind(
    removable: Option<bool>,
    subsystem: Option<Seq<char>>,
    rotational: Option<bool>,
) -> StorageKind {
    if removable == Some(true) {
        StorageKind::Removable
    } else if subsystem == Some("nvme"@) {
        StorageKind::Nvme
    } else if rotational == Some(false) {
        StorageKind::SolidState
    } else if rotational == Some(true) {
        StorageKind::Rotational
    } else {
        StorageKind::Local
    }
}

pub open spec fn str_option(value: Option<&str>) -> Option<Seq<char>> {
    match value {
        Some(content) => Some(content@),
        None => None,
    }
}

pub fn classify_block_storage(
    removable: Option<bool>,
    subsystem: Option<&str>,
    rotational: Option<bool>,
) -> (kind: StorageKind)
    ensures
        kind == block_kind(removable, str_option(subsystem), rotational),
{
    let nvme = match subsystem {
        Some(name) => text::str_equal(name, "nvme"),
        None => false,
    };
    if removable == Some(true) {
        StorageKind::Removable
    } else if nvme {
        StorageKind::Nvme
    } else if rotational == Some(false) {
        StorageKind::SolidState
    } else if rotational == Some(true) {
        StorageKind::Rotational
    } else {
        StorageKind::Local
    }
}

pub open spec fn is_network(filesystem_type: Seq<char>) -> bool {
    ||| filesystem_type == "nfs"@
    ||| filesystem_type == "nfs4"@
    ||| filesystem_type == "cifs"@
    ||| filesystem_type == "smb3"@
    ||| filesystem_type == "9p"@
    ||| filesystem_type == "ceph"@
    ||| filesystem_type == "glusterfs"@
    ||| filesystem_type == "fuse.sshfs"@
}

pub fn is_network_filesystem(filesystem_type: &str) -> (network: bool)
    ensures
        network == is_network(filesystem_type@),
{
    text::str_equal(filesystem_type, "nfs") || text::str_equal(filesystem_type, "nfs4")
        || text::str_equal(filesystem_type, "cifs") || text::str_equal(filesystem_type, "smb3")
        || text::str_equal(filesystem_type, "9p") || text::str_equal(filesystem_type, "ceph")
        || text::str_equal(filesystem_type, "glusterfs") || text::str_equal(
        filesystem_type,
        "fuse.sshfs",
    )
}

/// The kind of a storage: by its filesystem where that tells, else by the block
/// device below it, where there is one.
pub open spec fn storage_kind(filesystem_type: Seq<char>, block: Option<BlockDeviceFacts>)
    -> StorageKind {
    if is_network(filesystem_type) {
        StorageKind::Network
    } else if filesystem_type == "tmpfs"@ || filesystem_type == "ramfs"@ {
        StorageKind::MemoryBacked
    } else {
        match block {
            None => StorageKind::Unknown,
            Some(facts) => block_kind(
                facts.removable,
                text::text_option(facts.subsystem),
                facts.rotational,
            ),
        }
    }
}

pub fn classify_linux_storage(filesystem_type: &str, block: &Option<BlockDeviceFacts>) -> (kind:
    StorageKind)
    ensures
        kind == storage_kind(filesystem_type@, *block),
{
    if is_network_filesystem(filesystem_type) {
        return StorageKind::Network;
    }
    if text::str_equal(filesystem_type, "tmpfs") || text::str_equal(filesystem_type, "ramfs") {
        return StorageKind::MemoryBacked;
    }
    match block {
        None => StorageKind::Unknown,
        Some(facts) => {
            let subsystem = match &facts.subsystem {
                Some(name) => Some(name.as_str()),
                None => None,
            };
            classify_block_storage(facts.removable, subsystem, facts.rotational)
        },
    }
}

#[derive(Debug)]
pub struct StorageDetails {
    pub filesystem_type: Option<String>,
    pub filesystem_id: Option<String>,
    pub device_id: Option<String>,
    pub kind: StorageKind,
}

/// The details of a storage: named by its mount, or by the device number alone
/// where no mount is known.
pub fn storage_details(
    mount: &Option<LinuxMount>,
    device_number: u64,
    block: &Option<BlockDeviceFacts>,
) -> (details: StorageDetails)
    ensures
        match *mount {
            None => {
                &&& details.filesystem_type is None
                &&& details.filesystem_id is None
                &&& text::text_option(details.device_id) == Some(
                    "linux-dev:"@ + text::plain_hex(device_number as nat),
                )
                &&& details.kind == StorageKind::Unknown
            },
            Some(found) => {
                &&& text::text_option(details.filesystem_type) == Some(found@.filesystem_type)
                &&& text::text_option(details.filesystem_id) == Some(
                    found@.filesystem_type + ":"@ + found@.major_minor,
                )
                &&& text::text_option(details.device_id) == Some(
                    "linux-dev:"@ + found@.major_minor,
                )
                &&& details.kind == storage_kind(found@.filesystem_type, *block)
            },
        },
{
    match mount {
        None => {
            let mut device_id = "linux-dev:".to_owned();
            text::push_plain_hex(&mut device_id, device_number);
            StorageDetails {
                filesystem_type: None,
                filesystem_id: None,
                device_id: Some(device_id),
                kind: StorageKind::Unknown,
            }
        },
        Some(found) => {
            let mut filesystem_id = found.filesystem_type.clone();
            filesystem_id.append(":");
            filesystem_id.append(found.major_minor.as_str());
            let mut device_id = "linux-dev:".to_owned();
            device_id.append(found.major_minor.as_str());
            StorageDetails {
                filesystem_type: Some(found.filesystem_type.clone()),
                filesystem_id: Some(filesystem_id),
                device_id: Some(device_id),
                kind: classify_linux_storage(found.filesystem_type.as_str(), block),
            }
        },
    }
}

/// The profile of a regular file that could be opened.
pub open spec fn storage_profile_of(
    model_path: String,
    file_size_bytes: u64,
    seekable: bool,
    details: StorageDetails,
) -> StorageProfile {
    StorageProfile {
        schema_version: PROFILE_SCHEMA_VERSION,
        model_path,
        path_state: StoragePathState::Ready,
        readable: true,
        regular_file: true,
        file_size_bytes: Some(file_size_bytes),
        filesystem_type: details.filesystem_type,
        filesystem_id: details.filesystem_id,
        device_id: details.device_id,
        kind: details.kind,
        seekable,
    }
}

/// The profile of a file at its canonical path. Only a path without any characters
/// stands in the way.
pub fn storage_profile_from_facts(
    model_path: String,
    file_size_bytes: u64,
    seekable: bool,
    details: StorageDetails,
) -> (result: Result<StorageProfile, StorageDiscoveryError>)
    ensures
        result == (if model_path@.len() == 0 {
            Err::<StorageProfile, StorageDiscoveryError>(StorageDiscoveryError::Unavailable)
        } else {
            Ok(storage_profile_of(model_path, file_size_bytes, seekable, details))
        }),
{
    let profile = StorageProfile {
        schema_version: PROFILE_SCHEMA_VERSION,
        model_path,
        path_state: StoragePathState::Ready,
        readable: true,
        regular_file: true,
        file_size_bytes: Some(file_size_bytes),
        filesystem_type: details.filesystem_type,
        filesystem_id: details.filesystem_id,
        device_id: details.device_id,
        kind: details.kind,
        seekable,
    };
    if profile.validate().is_err() {
        return Err(StorageDiscoveryError::Unavailable);
    }
    Ok(profile)
}

/// The devices of an inventory ascend by identifier and no identifier occurs twice.
pub proof fn lemma_inventory_sorted(entries: Seq<Option<GpuCardFacts>>)
    ensures
        ({
            let gpus = by_identifier(with_entries(entries).gpus);
            forall|i: int, j: int|
                0 <= i < j < gpus.len() ==> text::text_less(
                    (#[trigger] gpus[i]).identifier,
                    (#[trigger] gpus[j]).identifier,
                )
        }),
{
    let found = with_entries(entries).gpus;
    let names = gpu_names(found);
    let order = text::name_order(names);
    let gpus = by_identifier(found);
    text::lemma_name_order(names);
    lemma_entries_distinct(entries);
    assert forall|i: int, j: int| 0 <= i < j < gpus.len() implies text::text_less(
        (#[trigger] gpus[i]).identifier,
        (#[trigger] gpus[j]).identifier,
    ) by {
        let a = order[i];
        let b = order[j];
        assert(gpus[i] == found[a] && gpus[j] == found[b]);
        assert(names[a] == found[a].identifier && names[b] == found[b].identifier);
        assert(found[a].identifier != found[b].identifier);
        text::lemma_text_less_total(found[a].identifier, found[b].identifier);
    }
}

proof fn lemma_entries_distinct(entries: Seq<Option<GpuCardFacts>>)
    ensures
        forall|i: int, j: int|
            0 <= i < with_entries(entries).gpus.len() && 0 <= j < with_entries(entries).gpus.len()
                && i != j ==> (#[trigger] with_entries(entries).gpus[i]).identifier != (
            #[trigger] with_entries(entries).gpus[j]).identifier,
    decreases entries.len(),
{
    if entries.len() > 0 {
        lemma_entries_distinct(entries.drop_last());
    }
}

/// The line starts with `name`, and the first word behind it is the number
/// `kibibytes`.
pub open spec fn amounts_to(line: Seq<char>, name: Seq<char>, kibibytes: int) -> bool {
    let rest = scan::words(line.skip(name.len() as int));
    text::has_prefix(line, name) && rest.len() > 0 && scan::number(rest[0], u64::MAX as int)
        == Some(kibibytes)
}

/// The line at `at` is the last one that gives an amount under `name`.
pub open spec fn last_amount(
    lines: Seq<Seq<char>>,
    name: Seq<char>,
    at: int,
    kibibytes: int,
) -> bool {
    &&& 0 <= at < lines.len()
    &&& amounts_to(lines[at], name, kibibytes)
    &&& forall|j: int, other: int|
        at < j < lines.len() ==> !#[trigger] amounts_to(lines[j], name, other)
}

proof fn lemma_named_line(line: Seq<char>, name: Seq<char>)
    requires
        forall|k: int| 0 <= k < name.len() ==> name[k] != ':',
    ensures
        text::has_prefix(line, name.push(':')) <==> (scan::split_pair(line, seq![':']) is Some
            && (scan::split_pair(line, seq![':'])->0).0 == name),
        text::has_prefix(line, name.push(':')) ==> (scan::split_pair(line, seq![':'])->0).1
            == line.skip(name.len() as int + 1),
{
    let colon = seq![':'];
    let named = name.push(':');
    scan::lemma_first_place(line, colon, 0);
    let found = scan::first_place(line, colon, 0);
    if text::has_prefix(line, named) {
        let head = line.subrange(0, named.len() as int);
        assert(head == named);
        assert(line[name.len() as int] == head[name.len() as int]);
        assert(line.subrange(name.len() as int, name.len() as int + 1) =~= colon);
        assert(scan::occurs_at(line, colon, name.len() as int));
        assert forall|k: int| 0 <= k < name.len() implies !scan::occurs_at(line, colon, k) by {
            assert(line[k] == head[k]);
            assert(line.subrange(k, k + 1)[0] == line[k]);
        }
        let at = found->0;
        assert(at == name.len());
        assert(line.take(at) =~= name) by {
            assert forall|k: int| 0 <= k < at implies line.take(at)[k] == name[k] by {
                assert(line[k] == head[k]);
            }
        }
    } else if found is Some && line.take(found->0) == name {
        let at = found->0;
        assert(line.subrange(at, at + 1) == colon);
        assert(line.subrange(at, at + 1)[0] == line[at]);
        assert(line.subrange(0, named.len() as int) =~= named) by {
            assert forall|k: int| 0 <= k < named.len() implies #[trigger] line.subrange(
                0,
                named.len() as int,
            )[k] == named[k] by {
                if k < at {
                    assert(line.take(at)[k] == line[k]);
                }
            }
        }
    }
}

proof fn lemma_memory_names()
    ensures
        "MemTotal:"@ == "MemTotal"@.push(':'),
        "MemAvailable:"@ == "MemAvailable"@.push(':'),
        forall|k: int| 0 <= k < "MemTotal"@.len() ==> "MemTotal"@[k] != ':',
        forall|k: int| 0 <= k < "MemAvailable"@.len() ==> "MemAvailable"@[k] != ':',
        "MemTotal"@ != "MemAvailable"@,
{
    reveal_strlit("MemTotal:");
    reveal_strlit("MemTotal");
    reveal_strlit("MemAvailable:");
    reveal_strlit("MemAvailable");
    assert("MemTotal:"@ =~= "MemTotal"@.push(':'));
    assert("MemAvailable:"@ =~= "MemAvailable"@.push(':'));
    assert("MemTotal"@.len() != "MemAvailable"@.len());
}

/// What one line of memory information says: under `MemTotal:` and
/// `MemAvailable:` the amount in kibibytes, and nothing under any other name.
proof fn lemma_memory_field(line: Seq<char>)
    ensures
        forall|kibibytes: int|
            amounts_to(line, "MemTotal:"@, kibibytes) <==> memory_field(line) == Some(
                (
                    "MemTotal"@,
                    if kibibytes * 1024 > u64::MAX {
                        None
                    } else {
                        Some((kibibytes * 1024) as u64)
                    },
                ),
            ) && amount_of(line) == Some(kibibytes),
        forall|kibibytes: int|
            amounts_to(line, "MemAvailable:"@, kibibytes) <==> memory_field(line) == Some(
                (
                    "MemAvailable"@,
                    if kibibytes * 1024 > u64::MAX {
                        None
                    } else {
                        Some((kibibytes * 1024) as u64)
                    },
                ),
            ) && amount_of(line) == Some(kibibytes),
        amount_of(line) matches Some(kibibytes) ==> kibibytes >= 0,
        memory_field(line) is Some ==> amount_of(line) is Some && (memory_field(line)->0).1 == (if 
        amount_of(line)->0 * 1024 > u64::MAX {
            None
        } else {
            Some((amount_of(line)->0 * 1024) as u64)
        }),
        memory_field(line) matches Some((key, _)) ==> {
            &&& key == "MemTotal"@ ==> amounts_to(line, "MemTotal:"@, amount_of(line)->0)
            &&& key == "MemAvailable"@ ==> amounts_to(line, "MemAvailable:"@, amount_of(line)->0)
        },
        !text::has_prefix(line, "MemTotal:"@) && !text::has_prefix(line, "MemAvailable:"@) ==> {
            memory_field(line) is None || ((memory_field(line)->0).0 != "MemTotal"@ && (
            memory_field(line)->0).0 != "MemAvailable"@)
        },
{
    lemma_memory_names();
    lemma_named_line(line, "MemTotal"@);
    lemma_named_line(line, "MemAvailable"@);
    match scan::split_pair(line, seq![':']) {
        Some((key, rest)) => {
            if scan::words(rest).len() > 0 {
                scan::lemma_number_range(scan::words(rest)[0], u64::MAX as int);
            }
        },
        None => {},
    }
}

spec fn amount_of(line: Seq<char>) -> Option<int> {
    match scan::split_pair(line, seq![':']) {
        None => None,
        Some((key, rest)) => if scan::words(rest).len() == 0 {
            None
        } else {
            scan::number(scan::words(rest)[0], u64::MAX as int)
        },
    }
}

/// A line is about memory that counts where it starts with `MemTotal:` or
/// `MemAvailable:`.
pub open spec fn about_memory() -> spec_fn(Seq<char>) -> bool {
    |line: Seq<char>|
        text::has_prefix(line, "MemTotal:"@) || text::has_prefix(line, "MemAvailable:"@)
}

proof fn lemma_memory_filtered(lines: Seq<Seq<char>>)
    ensures
        memory_facts(lines.filter(about_memory())) == memory_facts(lines),
    decreases lines.len(),
{
    reveal(Seq::filter);
    if lines.len() > 0 {
        let shorter = lines.drop_last();
        let kept = shorter.filter(about_memory());
        lemma_memory_filtered(shorter);
        lemma_memory_field(lines.last());
        if about_memory()(lines.last()) {
            assert(lines.filter(about_memory()) =~= kept.push(lines.last()));
            assert(kept.push(lines.last()).drop_last() =~= kept);
        } else {
            assert(lines.filter(about_memory()) =~= kept);
        }
    }
}

/// Lines that start with any other name can be added or removed without changing
/// what is found.
pub proof fn lemma_other_lines_ignored(first: Seq<char>, second: Seq<char>)
    requires
        scan::lines(first).filter(about_memory()) == scan::lines(second).filter(about_memory()),
    ensures
        memory_of(first) == memory_of(second),
{
    lemma_memory_filtered(scan::lines(first));
    lemma_memory_filtered(scan::lines(second));
}

proof fn lemma_memory_facts(lines: Seq<Seq<char>>)
    ensures
        forall|at: int, kibibytes: int| #[trigger]
            last_amount(lines, "MemTotal:"@, at, kibibytes) ==> memory_facts(lines).0 == (if 
            kibibytes * 1024 > u64::MAX {
                None
            } else {
                Some((kibibytes * 1024) as u64)
            }),
        forall|at: int, kibibytes: int| #[trigger]
            last_amount(lines, "MemAvailable:"@, at, kibibytes) ==> memory_facts(lines).1 == (if 
            kibibytes * 1024 > u64::MAX {
                None
            } else {
                Some((kibibytes * 1024) as u64)
            }),
        memory_facts(lines).0 is Some ==> exists|at: int, kibibytes: int| #[trigger]
            last_amount(lines, "MemTotal:"@, at, kibibytes) && kibibytes * 1024 == memory_facts(
                lines,
            ).0->0,
        memory_facts(lines).1 is Some ==> exists|at: int, kibibytes: int| #[trigger]
            last_amount(lines, "MemAvailable:"@, at, kibibytes) && kibibytes * 1024
                == memory_facts(lines).1->0,
    decreases lines.len(),
{
    if lines.len() > 0 {
        let shorter = lines.drop_last();
        let end = lines.len() - 1;
        let line = lines.last();
        lemma_memory_facts(shorter);
        lemma_memory_field(line);
        lemma_memory_names();
        lemma_last_amount(lines, "MemTotal:"@);
        lemma_last_amount(lines, "MemAvailable:"@);
        let field = memory_field(line);
        if field is Some && (field->0).0 == "MemTotal"@ {
            assert(last_amount(lines, "MemTotal:"@, end, amount_of(line)->0));
        }
        if field is Some && (field->0).0 == "MemAvailable"@ {
            assert(last_amount(lines, "MemAvailable:"@, end, amount_of(line)->0));
        }
        if memory_facts(lines).0 is Some && !(field is Some && (field->0).0 == "MemTotal"@) {
            let (at, kibibytes) = choose|at: int, kibibytes: int| #[trigger]
                last_amount(shorter, "MemTotal:"@, at, kibibytes) && kibibytes * 1024
                    == memory_facts(shorter).0->0;
            assert(last_amount(lines, "MemTotal:"@, at, kibibytes));
        }
        if memory_facts(lines).1 is Some && !(field is Some && (field->0).0 == "MemAvailable"@) {
            let (at, kibibytes) = choose|at: int, kibibytes: int| #[trigger]
                last_amount(shorter, "MemAvailable:"@, at, kibibytes) && kibibytes * 1024
                    == memory_facts(shorter).1->0;
            assert(last_amount(lines, "MemAvailable:"@, at, kibibytes));
        }
    }
}

proof fn lemma_last_amount(lines: Seq<Seq<char>>, name: Seq<char>)
    requires
        lines.len() > 0,
    ensures
        forall|at: int, kibibytes: int| #[trigger]
            last_amount(lines, name, at, kibibytes) ==> (at == lines.len() - 1 && amounts_to(
                lines.last(),
                name,
                kibibytes,
            )) || ((forall|other: int| !amounts_to(lines.last(), name, other)) && last_amount(
                lines.drop_last(),
                name,
                at,
                kibibytes,
            )),
        forall|at: int, kibibytes: int|
            (forall|other: int| !amounts_to(lines.last(), name, other)) && #[trigger] last_amount(
                lines.drop_last(),
                name,
                at,
                kibibytes,
            ) ==> last_amount(lines, name, at, kibibytes),
{
    let shorter = lines.drop_last();
    let end = lines.len() - 1;
    assert forall|at: int, kibibytes: int| #[trigger]
        last_amount(lines, name, at, kibibytes) implies (at == end && amounts_to(
        lines.last(),
        name,
        kibibytes,
    )) || ((forall|other: int| !amounts_to(lines.last(), name, other)) && last_amount(
        shorter,
        name,
        at,
        kibibytes,
    )) by {
        if at < end {
            assert forall|other: int| !amounts_to(lines.last(), name, other) by {
                assert(!amounts_to(lines[end], name, other));
            }
            assert forall|j: int, other: int| at < j < shorter.len() implies !#[trigger] amounts_to(
                shorter[j],
                name,
                other,
            ) by {
                assert(!amounts_to(lines[j], name, other));
            }
        }
    }
    assert forall|at: int, kibibytes: int|
        (forall|other: int| !amounts_to(lines.last(), name, other)) && #[trigger] last_amount(
            shorter,
            name,
            at,
            kibibytes,
        ) implies last_amount(lines, name, at, kibibytes) by {
        assert forall|j: int, other: int| at < j < lines.len() implies !#[trigger] amounts_to(
            lines[j],
            name,
            other,
        ) by {
            if j < end {
                assert(!amounts_to(shorter[j], name, other));
            } else {
                assert(lines[j] == lines.last());
                assert(!amounts_to(lines.last(), name, other));
            }
        }
    }
}

/// The total is 1024 times the amount on the last line that gives one under
/// `MemTotal:`, and what is available is 1024 times that on the last such line
/// under `MemAvailable:`. Nothing is reported that no such line gives; an
/// available amount is left out only where there is none, where it is more than
/// the total, or where there is no total.
pub proof fn lemma_memory_lines(contents: Seq<char>)
    ensures
        ({
            let lines = scan::lines(contents);
            let (total, available) = memory_of(contents);
            &&& total is Some ==> exists|at: int, kibibytes: int| #[trigger]
                last_amount(lines, "MemTotal:"@, at, kibibytes) && kibibytes * 1024 == total->0
            &&& available is Some ==> exists|at: int, kibibytes: int| #[trigger]
                last_amount(lines, "MemAvailable:"@, at, kibibytes) && kibibytes * 1024
                    == available->0
            &&& forall|at: int, kibibytes: int| #[trigger]
                last_amount(lines, "MemTotal:"@, at, kibibytes) && kibibytes * 1024 <= u64::MAX
                    ==> total == Some((kibibytes * 1024) as u64)
            &&& forall|at: int, kibibytes: int| #[trigger]
                last_amount(lines, "MemAvailable:"@, at, kibibytes) && total is Some && kibibytes
                    * 1024 <= total->0 ==> available == Some((kibibytes * 1024) as u64)
            &&& available is Some ==> total is Some && available->0 <= total->0
        }),
{
    lemma_memory_facts(scan::lines(contents));
}

/// The line names `key` before its colon and says `value` behind it.
pub open spec fn line_says(line: Seq<char>, key: Seq<char>, value: Seq<char>) -> bool {
    field(line) == Some((key, value))
}

/// The line names `key`.
pub open spec fn line_names(line: Seq<char>, key: Seq<char>) -> bool {
    field(line) is Some && (field(line)->0).0 == key
}

/// The line at `at` is the last one that names `key`.
pub open spec fn last_named(lines: Seq<Seq<char>>, key: Seq<char>, at: int) -> bool {
    &&& 0 <= at < lines.len()
    &&& line_names(lines[at], key)
    &&& forall|j: int| at < j < lines.len() ==> !line_names(#[trigger] lines[j], key)
}

/// The line says who made the processor, or what model it is.
pub open spec fn tells_of(line: Seq<char>, first: Seq<char>, second: Seq<char>) -> bool {
    (line_names(line, first) || line_names(line, second)) && (field(line)->0).1.len() > 0
}

/// The line at `at` is the first one that tells of either key.
pub open spec fn first_telling(
    lines: Seq<Seq<char>>,
    first: Seq<char>,
    second: Seq<char>,
    at: int,
) -> bool {
    &&& 0 <= at < lines.len()
    &&& tells_of(lines[at], first, second)
    &&& forall|j: int| 0 <= j < at ==> !tells_of(#[trigger] lines[j], first, second)
}

proof fn lemma_cpu_keys_differ()
    ensures
        "processor"@ != "physical id"@,
        "processor"@ != "core id"@,
        "processor"@ != "vendor_id"@,
        "processor"@ != "CPU implementer"@,
        "processor"@ != "model name"@,
        "processor"@ != "Hardware"@,
        "physical id"@ != "core id"@,
        "physical id"@ != "vendor_id"@,
        "physical id"@ != "CPU implementer"@,
        "physical id"@ != "model name"@,
        "physical id"@ != "Hardware"@,
        "core id"@ != "vendor_id"@,
        "core id"@ != "CPU implementer"@,
        "core id"@ != "model name"@,
        "core id"@ != "Hardware"@,
        "vendor_id"@ != "model name"@,
        "vendor_id"@ != "Hardware"@,
        "CPU implementer"@ != "model name"@,
        "CPU implementer"@ != "Hardware"@,
{
    reveal_strlit("processor");
    reveal_strlit("physical id");
    reveal_strlit("core id");
    reveal_strlit("vendor_id");
    reveal_strlit("CPU implementer");
    reveal_strlit("model name");
    reveal_strlit("Hardware");
    assert("processor"@[0] == 'p' && "physical id"@[0] == 'p');
    assert("processor"@[1] == 'r' && "physical id"@[1] == 'h');
    assert("core id"@[0] == 'c');
    assert("vendor_id"@[0] == 'v');
    assert("CPU implementer"@[0] == 'C');
    assert("model name"@[0] == 'm');
    assert("Hardware"@[0] == 'H');
}

/// What a block of lines says of a processor. It is about a processor where a
/// line names one; package and core are what the last lines on them say; maker
/// and model are what the first lines say that say anything, unless they are
/// known already.
pub proof fn lemma_section_lines(start: SectionFacts, lines: Seq<Seq<char>>)
    requires
        !start.processor,
        start.physical_id is None,
        start.core_id is None,
    ensures
        ({
            let read = with_lines(start, lines);
            &&& read.processor <==> exists|i: int|
                0 <= i < lines.len() && line_names(#[trigger] lines[i], "processor"@)
            &&& forall|i: int| #[trigger]
                last_named(lines, "physical id"@, i) ==> read.physical_id == scan::number(
                    (field(lines[i])->0).1,
                    u32::MAX as int,
                )
            &&& forall|i: int| #[trigger]
                last_named(lines, "core id"@, i) ==> read.core_id == scan::number(
                    (field(lines[i])->0).1,
                    u32::MAX as int,
                )
            &&& read.physical_id is Some ==> exists|i: int| #[trigger]
                last_named(lines, "physical id"@, i)
            &&& read.core_id is Some ==> exists|i: int| #[trigger]
                last_named(lines, "core id"@, i)
            &&& start.vendor is Some ==> read.vendor == start.vendor
            &&& start.vendor is None ==> (forall|i: int| #[trigger]
                first_telling(lines, "vendor_id"@, "CPU implementer"@, i) ==> read.vendor == Some(
                    (field(lines[i])->0).1,
                ))
            &&& start.vendor is None && read.vendor is Some ==> exists|i: int| #[trigger]
                first_telling(lines, "vendor_id"@, "CPU implementer"@, i)
            &&& start.model is Some ==> read.model == start.model
            &&& start.model is None ==> (forall|i: int| #[trigger]
                first_telling(lines, "model name"@, "Hardware"@, i) ==> read.model == Some(
                    (field(lines[i])->0).1,
                ))
            &&& start.model is None && read.model is Some ==> exists|i: int| #[trigger]
                first_telling(lines, "model name"@, "Hardware"@, i)
        }),
    decreases lines.len(),
{
    lemma_cpu_keys_differ();
    if lines.len() > 0 {
        let shorter = lines.drop_last();
        let end = lines.len() - 1;
        let line = lines.last();
        lemma_section_lines(start, shorter);
        let before = with_lines(start, shorter);
        let read = with_lines(start, lines);
        assert(forall|i: int| 0 <= i < end ==> #[trigger] shorter[i] == lines[i]);
        assert(lines[end] == line);
        if before.processor {
            let i = choose|i: int|
                0 <= i < shorter.len() && line_names(#[trigger] shorter[i], "processor"@);
            assert(line_names(lines[i], "processor"@));
        }
        if exists|i: int| 0 <= i < lines.len() && line_names(#[trigger] lines[i], "processor"@) {
            let i = choose|i: int|
                0 <= i < lines.len() && line_names(#[trigger] lines[i], "processor"@);
            if i < end {
                assert(line_names(shorter[i], "processor"@));
            }
        }
        lemma_last_named_step(lines, "physical id"@);
        lemma_last_named_step(lines, "core id"@);
        lemma_first_telling_step(lines, "vendor_id"@, "CPU implementer"@);
        lemma_first_telling_step(lines, "model name"@, "Hardware"@);
        if line_names(line, "physical id"@) {
            assert(last_named(lines, "physical id"@, end));
        } else if read.physical_id is Some {
            let i = choose|i: int| #[trigger] last_named(shorter, "physical id"@, i);
            assert(last_named(lines, "physical id"@, i));
        }
        if line_names(line, "core id"@) {
            assert(last_named(lines, "core id"@, end));
        } else if read.core_id is Some {
            let i = choose|i: int| #[trigger] last_named(shorter, "core id"@, i);
            assert(last_named(lines, "core id"@, i));
        }
        if start.vendor is None && read.vendor is Some {
            if before.vendor is Some {
                let i = choose|i: int| #[trigger]
                    first_telling(shorter, "vendor_id"@, "CPU implementer"@, i);
                assert(first_telling(lines, "vendor_id"@, "CPU implementer"@, i));
            } else {
                assert(tells_of(line, "vendor_id"@, "CPU implementer"@));
                lemma_first_exists(lines, "vendor_id"@, "CPU implementer"@);
            }
        }
        if start.model is None && read.model is Some {
            if before.model is Some {
                let i = choose|i: int| #[trigger]
                    first_telling(shorter, "model name"@, "Hardware"@, i);
                assert(first_telling(lines, "model name"@, "Hardware"@, i));
            } else {
                assert(tells_of(line, "model name"@, "Hardware"@));
                lemma_first_exists(lines, "model name"@, "Hardware"@);
            }
        }
        if before.vendor is Some && start.vendor is None {
            let i = choose|i: int| #[trigger]
                first_telling(shorter, "vendor_id"@, "CPU implementer"@, i);
            assert(first_telling(lines, "vendor_id"@, "CPU implementer"@, i));
        }
        if before.vendor is None && start.vendor is None {
            lemma_none_telling(shorter, "vendor_id"@, "CPU implementer"@);
        }
        if before.model is None && start.model is None {
            lemma_none_telling(shorter, "model name"@, "Hardware"@);
        }
    }
}

proof fn lemma_none_telling(lines: Seq<Seq<char>>, first: Seq<char>, second: Seq<char>)
    ensures
        (forall|i: int| !#[trigger] first_telling(lines, first, second, i)) ==> forall|i: int|
            0 <= i < lines.len() ==> !tells_of(#[trigger] lines[i], first, second),
{
    if exists|i: int| 0 <= i < lines.len() && tells_of(#[trigger] lines[i], first, second) {
        lemma_first_exists(lines, first, second);
    }
}

proof fn lemma_first_exists(lines: Seq<Seq<char>>, first: Seq<char>, second: Seq<char>)
    requires
        exists|i: int| 0 <= i < lines.len() && tells_of(#[trigger] lines[i], first, second),
    ensures
        exists|i: int| #[trigger] first_telling(lines, first, second, i),
    decreases lines.len(),
{
    let i = choose|i: int| 0 <= i < lines.len() && tells_of(#[trigger] lines[i], first, second);
    let shorter = lines.take(i);
    if exists|j: int| 0 <= j < shorter.len() && tells_of(#[trigger] shorter[j], first, second) {
        lemma_first_exists(shorter, first, second);
        let found = choose|k: int| #[trigger] first_telling(shorter, first, second, k);
        assert forall|j: int| 0 <= j < found implies !tells_of(
            #[trigger] lines[j],
            first,
            second,
        ) by {
            assert(shorter[j] == lines[j]);
        }
        assert(lines[found] == shorter[found]);
        assert(first_telling(lines, first, second, found));
    } else {
        assert forall|j: int| 0 <= j < i implies !tells_of(#[trigger] lines[j], first, second) by {
            assert(shorter[j] == lines[j]);
        }
        assert(first_telling(lines, first, second, i));
    }
}

proof fn lemma_last_named_step(lines: Seq<Seq<char>>, key: Seq<char>)
    requires
        lines.len() > 0,
    ensures
        forall|i: int| #[trigger]
            last_named(lines, key, i) ==> (i == lines.len() - 1 && line_names(lines.last(), key))
                || (!line_names(lines.last(), key) && last_named(lines.drop_last(), key, i)),
        !line_names(lines.last(), key) ==> forall|i: int| #[trigger]
            last_named(lines.drop_last(), key, i) ==> last_named(lines, key, i),
{
    let shorter = lines.drop_last();
    let end = lines.len() - 1;
    assert forall|i: int| #[trigger] last_named(lines, key, i) implies (i == end && line_names(
        lines.last(),
        key,
    )) || (!line_names(lines.last(), key) && last_named(shorter, key, i)) by {
        if i < end {
            assert(!line_names(lines[end], key));
            assert forall|j: int| i < j < shorter.len() implies !line_names(
                #[trigger] shorter[j],
                key,
            ) by {
                assert(!line_names(lines[j], key));
            }
        }
    }
    if !line_names(lines.last(), key) {
        assert forall|i: int| #[trigger] last_named(shorter, key, i) implies last_named(
            lines,
            key,
            i,
        ) by {
            assert forall|j: int| i < j < lines.len() implies !line_names(
                #[trigger] lines[j],
                key,
            ) by {
                if j < end {
                    assert(!line_names(shorter[j], key));
                }
            }
        }
    }
}

proof fn lemma_first_telling_step(lines: Seq<Seq<char>>, first: Seq<char>, second: Seq<char>)
    requires
        lines.len() > 0,
    ensures
        forall|i: int| #[trigger]
            first_telling(lines, first, second, i) ==> (i == lines.len() - 1 && forall|j: int|
                0 <= j < lines.len() - 1 ==> !tells_of(
                    #[trigger] lines.drop_last()[j],
                    first,
                    second,
                )) || first_telling(lines.drop_last(), first, second, i),
        forall|i: int| #[trigger]
            first_telling(lines.drop_last(), first, second, i) ==> first_telling(
                lines,
                first,
                second,
                i,
            ),
{
    let shorter = lines.drop_last();
    assert(forall|j: int| 0 <= j < shorter.len() ==> #[trigger] shorter[j] == lines[j]);
    assert forall|i: int| #[trigger] first_telling(shorter, first, second, i) implies first_telling(
        lines,
        first,
        second,
        i,
    ) by {
        assert forall|j: int| 0 <= j < i implies !tells_of(#[trigger] lines[j], first, second) by {
            assert(!tells_of(shorter[j], first, second));
        }
    }
    assert forall|i: int| #[trigger] first_telling(lines, first, second, i) implies (i
        == lines.len() - 1 && forall|j: int|
        0 <= j < lines.len() - 1 ==> !tells_of(#[trigger] shorter[j], first, second))
        || first_telling(shorter, first, second, i) by {
        assert forall|j: int| 0 <= j < i && j < shorter.len() implies !tells_of(
            #[trigger] shorter[j],
            first,
            second,
        ) by {
            assert(!tells_of(lines[j], first, second));
        }
    }
}

/// What a block of lines says of a processor, whatever is known already.
pub open spec fn block_facts(block: Seq<char>) -> SectionFacts {
    with_lines(section_start(no_cpu()), scan::lines(block))
}

proof fn lemma_start_irrelevant(left: SectionFacts, right: SectionFacts, lines: Seq<Seq<char>>)
    requires
        left.processor == right.processor,
        left.physical_id == right.physical_id,
        left.core_id == right.core_id,
    ensures
        with_lines(left, lines).processor == with_lines(right, lines).processor,
        with_lines(left, lines).physical_id == with_lines(right, lines).physical_id,
        with_lines(left, lines).core_id == with_lines(right, lines).core_id,
    decreases lines.len(),
{
    if lines.len() > 0 {
        lemma_start_irrelevant(left, right, lines.drop_last());
    }
}

/// Which cores there are: one for each pair of package and core that a block about
/// a processor names. The list of cores is complete where every such block names
/// both, and only a complete list that is not empty is counted.
pub proof fn lemma_core_pairs(blocks: Seq<Seq<char>>)
    ensures
        ({
            let cpu = with_sections(blocks);
            &&& forall|package: u32, core: u32|
                cpu.cores.contains((package, core)) <==> exists|i: int|
                    0 <= i < blocks.len() && block_facts(#[trigger] blocks[i]).processor
                        && block_facts(blocks[i]).physical_id is Some && block_facts(
                        blocks[i],
                    ).core_id is Some && block_facts(blocks[i]).physical_id->0 as u32 == package
                        && block_facts(blocks[i]).core_id->0 as u32 == core
            &&& cpu.complete <==> forall|i: int|
                0 <= i < blocks.len() && block_facts(#[trigger] blocks[i]).processor
                    ==> block_facts(blocks[i]).physical_id is Some && block_facts(
                    blocks[i],
                ).core_id is Some
            &&& cpu.processors > 0 <==> exists|i: int|
                0 <= i < blocks.len() && block_facts(#[trigger] blocks[i]).processor
            &&& cpu.processors <= blocks.len()
            &&& core_count(cpu) is Some ==> cpu.complete && cpu.processors > 0 && cpu.cores.len()
                > 0
        }),
    decreases blocks.len(),
{
    if blocks.len() > 0 {
        let shorter = blocks.drop_last();
        let end = blocks.len() - 1;
        lemma_core_pairs(shorter);
        let before = with_sections(shorter);
        let cpu = with_sections(blocks);
        assert(forall|i: int| 0 <= i < end ==> #[trigger] shorter[i] == blocks[i]);
        lemma_start_irrelevant(
            section_start(before),
            section_start(no_cpu()),
            scan::lines(blocks.last()),
        );
        let own = block_facts(blocks[end]);
        assert forall|package: u32, core: u32|
            cpu.cores.contains((package, core)) <==> exists|i: int|
                0 <= i < blocks.len() && block_facts(#[trigger] blocks[i]).processor
                    && block_facts(blocks[i]).physical_id is Some && block_facts(blocks[i]).core_id
                    is Some && block_facts(blocks[i]).physical_id->0 as u32 == package
                    && block_facts(blocks[i]).core_id->0 as u32 == core by {
            if before.cores.contains((package, core)) {
                let i = choose|i: int|
                    0 <= i < shorter.len() && block_facts(#[trigger] shorter[i]).processor
                        && block_facts(shorter[i]).physical_id is Some && block_facts(
                        shorter[i],
                    ).core_id is Some && block_facts(shorter[i]).physical_id->0 as u32 == package
                        && block_facts(shorter[i]).core_id->0 as u32 == core;
                assert(block_facts(blocks[i]).processor);
            }
            if exists|i: int|
                0 <= i < blocks.len() && block_facts(#[trigger] blocks[i]).processor
                    && block_facts(blocks[i]).physical_id is Some && block_facts(blocks[i]).core_id
                    is Some && block_facts(blocks[i]).physical_id->0 as u32 == package
                    && block_facts(blocks[i]).core_id->0 as u32 == core {
                let i = choose|i: int|
                    0 <= i < blocks.len() && block_facts(#[trigger] blocks[i]).processor
                        && block_facts(blocks[i]).physical_id is Some && block_facts(
                        blocks[i],
                    ).core_id is Some && block_facts(blocks[i]).physical_id->0 as u32 == package
                        && block_facts(blocks[i]).core_id->0 as u32 == core;
                if i < end {
                    assert(block_facts(shorter[i]).processor);
                }
            }
        }
        if cpu.complete {
            assert forall|i: int|
                0 <= i < blocks.len() && block_facts(
                    #[trigger] blocks[i],
                ).processor implies block_facts(blocks[i]).physical_id is Some && block_facts(
                blocks[i],
            ).core_id is Some by {
                if i < end {
                    assert(block_facts(shorter[i]).processor);
                }
            }
        } else if before.complete {
            assert(block_facts(blocks[end]).processor);
        } else {
            let i = choose|i: int|
                0 <= i < shorter.len() && block_facts(#[trigger] shorter[i]).processor && !(
                block_facts(shorter[i]).physical_id is Some && block_facts(shorter[i]).core_id
                    is Some);
            assert(block_facts(blocks[i]).processor);
        }
        if before.processors > 0 {
            let i = choose|i: int|
                0 <= i < shorter.len() && block_facts(#[trigger] shorter[i]).processor;
            assert(block_facts(blocks[i]).processor);
        }
        if own.processor {
            assert(block_facts(blocks[end]).processor);
        } else if exists|i: int|
            0 <= i < blocks.len() && block_facts(#[trigger] blocks[i]).processor {
            let i = choose|i: int|
                0 <= i < blocks.len() && block_facts(#[trigger] blocks[i]).processor;
            assert(block_facts(shorter[i]).processor);
        }
    }
}

/// The cores that are counted are the distinct pairs, all of them.
pub proof fn lemma_core_count(cpu: CpuFacts)
    ensures
        core_count(cpu) is Some <==> cpu.processors > 0 && cpu.complete && cpu.cores.len() > 0,
        core_count(cpu) is Some && cpu.cores.len() <= usize::MAX ==> core_count(cpu)->0
            == cpu.cores.len(),
{
}

/// The entry is a graphics card whose device can be read.
pub open spec fn is_device(entry: Option<GpuCardFacts>) -> bool {
    entry is Some && is_card((entry->0).card@) && (entry->0).device_present
}

/// What an inventory lists: the device of every card that can be read, once for
/// each identifier, as the first entry with that identifier describes it. It is
/// complete where every entry could be read, every card has a device and every
/// device names its vendor and itself.
pub proof fn lemma_inventory(entries: Seq<Option<GpuCardFacts>>)
    ensures
        ({
            let found = with_entries(entries);
            &&& found.state != DiscoveryState::Unavailable
            &&& found.state == DiscoveryState::Complete <==> forall|i: int|
                0 <= i < entries.len() ==> (#[trigger] entries[i]) is Some && (is_card(
                    (entries[i]->0).card@,
                ) ==> (entries[i]->0).device_present && (entries[i]->0).vendor_id is Some && (
                entries[i]->0).device_id is Some)
            &&& forall|i: int|
                0 <= i < entries.len() && is_device(#[trigger] entries[i]) ==> lists(
                    found.gpus,
                    card_gpu(entries[i]->0).identifier,
                )
            &&& forall|k: int|
                0 <= k < found.gpus.len() ==> exists|i: int|
                    0 <= i < entries.len() && is_device(#[trigger] entries[i]) && card_gpu(
                        entries[i]->0,
                    ) == #[trigger] found.gpus[k]
            &&& found.gpus.len() <= entries.len()
        }),
    decreases entries.len(),
{
    if entries.len() > 0 {
        let shorter = entries.drop_last();
        let end = entries.len() - 1;
        lemma_inventory(shorter);
        let before = with_entries(shorter);
        let found = with_entries(entries);
        assert(forall|i: int| 0 <= i < end ==> #[trigger] shorter[i] == entries[i]);
        assert(entries[end] == entries.last());
        assert forall|k: int| 0 <= k < before.gpus.len() implies #[trigger] found.gpus[k]
            == before.gpus[k] by {}
        if is_device(entries.last()) && !lists(
            before.gpus,
            card_gpu(entries.last()->0).identifier,
        ) {
            assert(found.gpus[before.gpus.len() as int] == card_gpu(entries.last()->0));
        }
        assert forall|i: int|
            0 <= i < entries.len() && is_device(#[trigger] entries[i]) implies lists(
            found.gpus,
            card_gpu(entries[i]->0).identifier,
        ) by {
            let name = card_gpu(entries[i]->0).identifier;
            if i < end {
                assert(is_device(shorter[i]));
                let k = choose|k: int|
                    0 <= k < before.gpus.len() && (#[trigger] before.gpus[k]).identifier == name;
                assert(found.gpus[k].identifier == name);
            } else if lists(before.gpus, name) {
                assert(found.gpus == before.gpus);
            }
        }
        assert forall|k: int| 0 <= k < found.gpus.len() implies exists|i: int|
            0 <= i < entries.len() && is_device(#[trigger] entries[i]) && card_gpu(entries[i]->0)
                == #[trigger] found.gpus[k] by {
            if k < before.gpus.len() {
                let i = choose|i: int|
                    0 <= i < shorter.len() && is_device(#[trigger] shorter[i]) && card_gpu(
                        shorter[i]->0,
                    ) == before.gpus[k];
                assert(is_device(entries[i]));
            } else {
                assert(is_device(entries[end]));
            }
        }
        if before.state == DiscoveryState::Complete {
            assert(forall|i: int|
                0 <= i < end ==> (#[trigger] entries[i]) is Some && (is_card(
                    (entries[i]->0).card@,
                ) ==> (entries[i]->0).device_present && (entries[i]->0).vendor_id is Some && (
                entries[i]->0).device_id is Some)) by {
                assert forall|i: int| 0 <= i < end implies (#[trigger] entries[i]) is Some && (
                is_card((entries[i]->0).card@) ==> (entries[i]->0).device_present && (
                entries[i]->0).vendor_id is Some && (entries[i]->0).device_id is Some) by {
                    assert(shorter[i] is Some);
                }
            }
        } else {
            let i = choose|i: int|
                0 <= i < shorter.len() && !((#[trigger] shorter[i]) is Some && (is_card(
                    (shorter[i]->0).card@,
                ) ==> (shorter[i]->0).device_present && (shorter[i]->0).vendor_id is Some && (
                shorter[i]->0).device_id is Some));
            assert(entries[i] == shorter[i]);
        }
    }
}

/// Ordering an inventory by identifier neither adds nor drops a device.
pub proof fn lemma_inventory_kept(gpus: Seq<GpuFacts>)
    ensures
        by_identifier(gpus).len() == gpus.len(),
        forall|i: int|
            0 <= i < gpus.len() ==> gpus.contains(#[trigger] by_identifier(gpus)[i]),
        forall|i: int|
            0 <= i < gpus.len() ==> by_identifier(gpus).contains(#[trigger] gpus[i]),
{
    let names = gpu_names(gpus);
    let order = text::name_order(names);
    text::lemma_name_order(names);
    let sorted = by_identifier(gpus);
    assert forall|i: int| 0 <= i < gpus.len() implies gpus.contains(#[trigger] sorted[i]) by {
        assert(gpus[order[i]] == sorted[i]);
    }
    assert forall|i: int| 0 <= i < gpus.len() implies sorted.contains(#[trigger] gpus[i]) by {
        text::lemma_every_place_listed(names, order, i);
        let k = choose|k: int| 0 <= k < order.len() && order[k] == i;
        assert(sorted[k] == gpus[i]);
    }
}

/// What is said of a device: it is there, and neither supported nor usable; its
/// vendor goes by its number, whatever the case and the space around it; its
/// memory is the number that is given, where one is.
pub proof fn lemma_card_described(card: GpuCardFacts)
    ensures
        ({
            let gpu = card_gpu(card);
            &&& gpu.backend.detected && !gpu.backend.supported && !gpu.backend.usable
            &&& gpu.device_id == text::text_option(card.device_id)
            &&& gpu.name == text::text_option(card.name)
            &&& card.vendor_id is None ==> gpu.vendor is None
            &&& card.vendor_id is Some ==> {
                let number = scan::lower(scan::trimmed((card.vendor_id->0)@));
                &&& number == "0x10de"@ ==> gpu.vendor == Some("NVIDIA"@)
                &&& number == "0x1002"@ ==> gpu.vendor == Some("AMD"@)
                &&& number == "0x8086"@ ==> gpu.vendor == Some("Intel"@)
                &&& number != "0x10de"@ && number != "0x1002"@ && number != "0x8086"@
                    ==> gpu.vendor is None
            }
            &&& gpu.dedicated_memory_bytes is Some ==> card.dedicated_memory is Some
                && scan::number((card.dedicated_memory->0)@, u64::MAX as int) == Some(
                gpu.dedicated_memory_bytes->0 as int,
            )
            &&& gpu.dedicated_memory_bytes is None ==> card.dedicated_memory is None
                || scan::number((card.dedicated_memory->0)@, u64::MAX as int) is None
            &&& text::has_prefix(gpu.identifier, "linux-drm:"@)
            &&& card.slot is Some && card.vendor_id is Some && card.device_id is Some
                ==> gpu.identifier == "linux-drm:"@ + (card.slot->0)@ + ":"@ + (card.vendor_id->0)@
                + ":"@ + (card.device_id->0)@
            &&& card.slot is None && card.vendor_id is None && card.device_id is None
                ==> gpu.identifier == "linux-drm:"@ + card.card@ + ":"@ + "unknown-vendor"@ + ":"@
                + "unknown-device"@
        }),
{
    let gpu = card_gpu(card);
    reveal_strlit("0x10de");
    reveal_strlit("0x1002");
    reveal_strlit("0x8086");
    assert("0x10de"@[4] == 'd' && "0x1002"@[4] == '0' && "0x8086"@[4] == '8');
    if card.dedicated_memory is Some {
        scan::lemma_number_range((card.dedicated_memory->0)@, u64::MAX as int);
    }
    assert(gpu.identifier.subrange(0, "linux-drm:"@.len() as int) =~= "linux-drm:"@);
}

/// A card is named `card` and a number, and nothing else is a card.
pub proof fn lemma_card_names(number: nat, name: Seq<char>)
    ensures
        is_card("card"@ + text::decimal(number)),
        is_card(name) ==> name.len() > 4 && name.take(4) == "card"@ && forall|i: int|
            4 <= i < name.len() ==> text::is_decimal_digit(#[trigger] name[i]),
{
    reveal_strlit("card");
    text::lemma_decimal_digits(number);
    let card = "card"@ + text::decimal(number);
    assert(card.subrange(0, 4) =~= "card"@);
    assert(card.skip(4) =~= text::decimal(number));
    if is_card(name) {
        assert(name.take(4) =~= name.subrange(0, 4));
        assert forall|i: int| 4 <= i < name.len() implies text::is_decimal_digit(
            #[trigger] name[i],
        ) by {
            assert(name.skip(4)[i - 4] == name[i]);
        }
    }
}

/// What a line of mount information says: the mount point is the fifth word, the
/// device the third, and the file system the first word behind the dash.
pub proof fn lemma_mount_fields(line: Seq<char>)
    ensures
        ({
            let parts = scan::split_pair(line, " - "@);
            let left = scan::words((parts->0).0);
            let right = scan::words((parts->0).1);
            &&& mount_of(line) is Some <==> parts is Some && left.len() >= 5 && right.len() >= 1
            &&& mount_of(line) is Some ==> {
                let mount = mount_of(line)->0;
                &&& mount.major_minor == left[2]
                &&& mount.mount_point == unescaped(left[4])
                &&& mount.filesystem_type == right[0]
            }
        }),
{
}

/// Of several mounts with the longest mount point, the first is taken.
pub proof fn lemma_first_longest_mount(lines: Seq<Seq<char>>, path: Seq<char>)
    ensures
        best_mount(lines, path) is Some ==> exists|k: int|
            0 <= k < lines.len() && #[trigger] mount_for(lines[k], path) == best_mount(lines, path)
                && forall|j: int|
                0 <= j < k ==> ((#[trigger] mount_for(lines[j], path)) is Some ==> stored_length(
                    (mount_for(lines[j], path)->0).mount_point,
                ) < stored_length((best_mount(lines, path)->0).mount_point)),
    decreases lines.len(),
{
    if lines.len() > 0 {
        let shorter = lines.drop_last();
        let end = lines.len() - 1;
        lemma_first_longest_mount(shorter, path);
        lemma_longest_mount(shorter, path);
        let best = best_mount(lines, path);
        assert(forall|i: int| 0 <= i < end ==> #[trigger] shorter[i] == lines[i]);
        if best is Some {
            if best_mount(shorter, path) is Some && best == best_mount(shorter, path) {
                let k = choose|k: int|
                    0 <= k < shorter.len() && #[trigger] mount_for(shorter[k], path) == best
                        && forall|j: int|
                        0 <= j < k ==> ((#[trigger] mount_for(shorter[j], path)) is Some
                            ==> stored_length((mount_for(shorter[j], path)->0).mount_point)
                            < stored_length((best->0).mount_point));
                assert(mount_for(lines[k], path) == best);
                assert forall|j: int|
                    0 <= j < k && (#[trigger] mount_for(lines[j], path)) is Some implies stored_length(
                    (mount_for(lines[j], path)->0).mount_point,
                ) < stored_length((best->0).mount_point) by {
                    assert(mount_for(shorter[j], path) == mount_for(lines[j], path));
                }
            } else {
                assert(mount_for(lines[end], path) == best);
                assert forall|j: int|
                    0 <= j < end && (#[trigger] mount_for(lines[j], path)) is Some implies stored_length(
                    (mount_for(lines[j], path)->0).mount_point,
                ) < stored_length((best->0).mount_point) by {
                    assert(mount_for(shorter[j], path) == mount_for(lines[j], path));
                }
            }
        }
    }
}

/// A mount that holds a path is one of the listed mounts whose mount point the
/// path is under.
pub proof fn lemma_mount_holds(line: Seq<char>, path: Seq<char>)
    ensures
        mount_for(line, path) is Some <==> mount_of(line) is Some && paths::is_under(
            paths::path_of(path),
            paths::path_of((mount_of(line)->0).mount_point),
        ),
        mount_for(line, path) is Some ==> mount_for(line, path) == mount_of(line),
{
}

/// What kind of storage a file is on. Network and memory file systems go by their
/// names; otherwise the block device decides: removable media first, then NVMe,
/// then whether it rotates; a device that says none of this is local, and where
/// there is no device the kind is unknown.
pub proof fn lemma_storage_kinds(filesystem_type: Seq<char>, block: Option<BlockDeviceFacts>)
    ensures
        ({
            let kind = storage_kind(filesystem_type, block);
            let network = filesystem_type == "nfs"@ || filesystem_type == "nfs4"@
                || filesystem_type == "cifs"@ || filesystem_type == "smb3"@ || filesystem_type
                == "9p"@ || filesystem_type == "ceph"@ || filesystem_type == "glusterfs"@
                || filesystem_type == "fuse.sshfs"@;
            let memory = filesystem_type == "tmpfs"@ || filesystem_type == "ramfs"@;
            let device = block->0;
            let nvme = text::text_option(device.subsystem) == Some("nvme"@);
            &&& kind == StorageKind::Network <==> network
            &&& kind == StorageKind::MemoryBacked <==> memory && !network
            &&& kind == StorageKind::Unknown <==> !network && !memory && block is None
            &&& !network && !memory && block is Some ==> {
                &&& kind == StorageKind::Removable <==> device.removable == Some(true)
                &&& kind == StorageKind::Nvme <==> device.removable != Some(true) && nvme
                &&& kind == StorageKind::SolidState <==> device.removable != Some(true) && !nvme
                    && device.rotational == Some(false)
                &&& kind == StorageKind::Rotational <==> device.removable != Some(true) && !nvme
                    && device.rotational == Some(true)
                &&& kind == StorageKind::Local <==> device.removable != Some(true) && !nvme
                    && device.rotational is None
            }
        }),
{
    if block is Some && (block->0).rotational is Some {
        let rotates = (block->0).rotational->0;
        assert((block->0).rotational == Some(rotates));
        assert(rotates == true || rotates == false);
    }
}

/// What a machine profile takes over from the facts; the CPU backend is always
/// there, supported and usable.
pub proof fn lemma_profile_of(facts: MachineFacts)
    ensures
        ({
            let profile = profile_of(facts);
            &&& profile.schema_version == 1
            &&& profile.os == facts.os && profile.architecture == facts.architecture
            &&& profile.kernel_version == facts.kernel_version
            &&& profile.cpu_vendor == facts.cpu_vendor && profile.cpu_model == facts.cpu_model
            &&& profile.physical_cpu_cores == facts.physical_cpu_cores
            &&& profile.logical_cpu_cores == facts.logical_cpu_cores
            &&& profile.cpu_features == facts.cpu_features
            &&& profile.total_ram_bytes == facts.total_ram_bytes
            &&& profile.available_ram_bytes == facts.available_ram_bytes
            &&& profile.gpu_inventory_state == facts.gpu_inventory_state
            &&& profile.gpus == facts.gpus
            &&& profile.cpu_backend.detected && profile.cpu_backend.supported
                && profile.cpu_backend.usable
        }),
{
}

/// What a storage profile takes over from what was found.
pub proof fn lemma_storage_profile_of(
    model_path: String,
    file_size_bytes: u64,
    seekable: bool,
    details: StorageDetails,
)
    ensures
        ({
            let profile = storage_profile_of(model_path, file_size_bytes, seekable, details);
            &&& profile.schema_version == 1
            &&& profile.model_path == model_path
            &&& profile.readable && profile.regular_file
            &&& profile.file_size_bytes == Some(file_size_bytes)
            &&& profile.filesystem_type == details.filesystem_type
            &&& profile.filesystem_id == details.filesystem_id
            &&& profile.device_id == details.device_id
            &&& profile.kind == details.kind
            &&& profile.seekable == seekable
        }),
{
}

/// A vendor is known by its number, whatever blanks surround it and whatever the case
/// of its letters is.
pub proof fn lemma_vendors(identifier: Seq<char>, other: Seq<char>)
    ensures
        scan::lower(scan::trimmed(identifier)) == scan::lower(scan::trimmed(other)) ==> vendor_of(
            identifier,
        ) == vendor_of(other),
        vendor_of(identifier) == Some("NVIDIA"@) <==> scan::lower(scan::trimmed(identifier))
            == "0x10de"@,
        vendor_of(identifier) == Some("AMD"@) <==> scan::lower(scan::trimmed(identifier))
            == "0x1002"@,
        vendor_of(identifier) == Some("Intel"@) <==> scan::lower(scan::trimmed(identifier))
            == "0x8086"@,
        vendor_of(identifier) is Some ==> vendor_of(identifier)->0 == "NVIDIA"@ || vendor_of(
            identifier,
        )->0 == "AMD"@ || vendor_of(identifier)->0 == "Intel"@,
{
    reveal_strlit("NVIDIA");
    reveal_strlit("AMD");
    reveal_strlit("Intel");
    reveal_strlit("0x10de");
    reveal_strlit("0x1002");
    reveal_strlit("0x8086");
    assert("NVIDIA"@.len() == 6 && "AMD"@.len() == 3 && "Intel"@.len() == 5);
    assert("NVIDIA"@ != "AMD"@ && "NVIDIA"@ != "Intel"@ && "AMD"@ != "Intel"@);
    assert("0x10de"@[2] != "0x8086"@[2]);
    assert("0x10de"@[4] != "0x1002"@[4]);
    assert("0x1002"@[2] != "0x8086"@[2]);
}

} // verus!
