//! The acquisition and fallback strategy.
//!
//! The host observes the filesystem — which scaling directories exist, what
//! the measurement files hold, what the global processor-information text
//! says — and hands those observations here as plain values. This module
//! decides which source to use, resolves each CPU's directory layout, and
//! turns the raw bytes into the ordered sample sequence. A host with no
//! recognized acquisition strategy gets an explicit signal, never an empty
//! sequence passed off as a normal result.

use vstd::prelude::*;
use crate::cpuinfo::parse_cpuinfo;
use crate::cpuinfo::spec_cpuinfo_khz;
use crate::sample::CpuFreqs;
use crate::text::parse_scaling_value;
use crate::text::spec_parse_khz;

verus! {

/// Which naming convention a CPU's scaling directory follows.
#[derive(Clone, Copy, Debug, PartialEq, Eq, Structural)]
pub enum ScalingDir {
    /// The CPU's own directory, `cpu{i}/cpufreq`.
    PerCpu,
    /// The shared policy directory, `cpufreq/policy{i}`.
    Policy,
}

/// Which acquisition strategy applies to this invocation.
#[derive(Clone, Copy, Debug, PartialEq, Eq, Structural)]
pub enum AcquisitionPlan {
    /// Scaling metadata exists somewhere: read per-CPU measurement files.
    Scaling,
    /// No scaling metadata anywhere: scan the global processor-information
    /// text.
    Fallback,
}

/// The explicit signal that this host offers no recognized way to read CPU
/// frequencies, as opposed to offering one that currently yields no data.
#[derive(Clone, Copy, Debug, PartialEq, Eq, Structural)]
pub struct UnsupportedPlatform;

/// Picks the acquisition strategy from the two gating existence checks:
/// the primary path is taken when either the global `cpufreq` directory or
/// the first CPU's `cpu0/cpufreq` directory exists.
pub fn choose_plan(global_dir_exists: bool, cpu0_dir_exists: bool) -> (p: AcquisitionPlan)
    ensures
        p == (if global_dir_exists || cpu0_dir_exists {
            AcquisitionPlan::Scaling
        } else {
            AcquisitionPlan::Fallback
        }),
{
    if global_dir_exists || cpu0_dir_exists {
        AcquisitionPlan::Scaling
    } else {
        AcquisitionPlan::Fallback
    }
}

/// Resolves one CPU's scaling directory from the two existence checks made
/// for its index. When both layouts exist the per-CPU one wins; when only
/// one exists it is used; when neither exists the directory is unresolved.
pub fn resolve_layout(policy_dir_exists: bool, percpu_dir_exists: bool) -> (r: Option<ScalingDir>)
    ensures
        r == (if percpu_dir_exists {
            Some(ScalingDir::PerCpu)
        } else if policy_dir_exists {
            Some(ScalingDir::Policy)
        } else {
            None::<ScalingDir>
        }),
{
    match (policy_dir_exists, percpu_dir_exists) {
        (true, true) => Some(ScalingDir::PerCpu),
        (true, false) => Some(ScalingDir::Policy),
        (false, true) => Some(ScalingDir::PerCpu),
        (false, false) => None,
    }
}

/// The raw contents of one CPU's three measurement files. A field is `None`
/// when the CPU's directory was unresolved or that file could not be read.
pub struct ScalingFiles {
    /// Content of `scaling_min_freq`.
    pub min: Option<Vec<u8>>,
    /// Content of `scaling_max_freq`.
    pub max: Option<Vec<u8>>,
    /// Content of `scaling_cur_freq`.
    pub cur: Option<Vec<u8>>,
}

/// What one measurement field comes to: absent text stays absent, present
/// text is parsed as a kilohertz count.
pub open spec fn spec_field_khz(t: Option<Vec<u8>>) -> Option<u64> {
    match t {
        Some(text) => spec_parse_khz(text@),
        None => None,
    }
}

/// The sample that one CPU's raw file contents denote.
pub open spec fn spec_sample(f: ScalingFiles) -> CpuFreqs {
    CpuFreqs {
        min: spec_field_khz(f.min),
        max: spec_field_khz(f.max),
        cur: spec_field_khz(f.cur),
    }
}

/// Builds one CPU's sample from its three raw file contents. A missing or
/// malformed file yields an absent field and never disturbs the other two.
pub fn sample_from_files(f: &ScalingFiles) -> (s: CpuFreqs)
    ensures
        s == spec_sample(*f),
{
    let min = match &f.min {
        Some(text) => parse_scaling_value(text.as_slice()),
        None => None,
    };
    let max = match &f.max {
        Some(text) => parse_scaling_value(text.as_slice()),
        None => None,
    };
    let cur = match &f.cur {
        Some(text) => parse_scaling_value(text.as_slice()),
        None => None,
    };
    CpuFreqs { min, max, cur }
}

/// Everything one invocation observed of the host, as plain values.
pub enum Acquisition {
    /// The primary layout is available: the raw measurement files of each
    /// logical CPU, in ascending CPU-index order.
    Scaling(Vec<ScalingFiles>),
    /// No scaling metadata anywhere: the global processor-information text,
    /// or `None` when it was unreadable.
    Cpuinfo(Option<Vec<u8>>),
    /// The host exposes no recognized source at all.
    Unsupported,
}

/// Computes the ordered per-CPU sample sequence from one invocation's
/// observations.
///
/// Under the primary path every CPU index yields exactly one sample, however
/// few of its fields resolved. Under the fallback path each matching line of
/// the text yields one current-only sample, and an unreadable text yields an
/// empty sequence — not an error. Only an unsupported host is an error.
pub fn read_all(acq: Acquisition) -> (r: Result<Vec<CpuFreqs>, UnsupportedPlatform>)
    ensures
        r is Err <==> acq is Unsupported,
        acq matches Acquisition::Scaling(obs) ==> r matches Ok(samples) && samples@.len()
            == obs@.len() && (forall|i: int|
            0 <= i < obs@.len() ==> samples@[i] == spec_sample(obs@[i])),
        acq matches Acquisition::Cpuinfo(Some(data)) ==> r matches Ok(samples) && samples@.len()
            == spec_cpuinfo_khz(data@).len() && (forall|i: int|
            0 <= i < samples@.len() ==> samples@[i] == (CpuFreqs {
                min: None,
                max: None,
                cur: Some(spec_cpuinfo_khz(data@)[i]),
            })),
        acq matches Acquisition::Cpuinfo(None) ==> r matches Ok(samples) && samples@.len() == 0,
{
    match acq {
        Acquisition::Scaling(obs) => {
            let mut samples: Vec<CpuFreqs> = Vec::new();
            let mut i: usize = 0;
            while i < obs.len()
                invariant
                    0 <= i <= obs@.len(),
                    samples@.len() == i,
                    forall|j: int| 0 <= j < i ==> samples@[j] == spec_sample(obs@[j]),
                decreases obs@.len() - i,
            {
                let s = sample_from_files(&obs[i]);
                samples.push(s);
                i = i + 1;
            }
            Ok(samples)
        },
        Acquisition::Cpuinfo(Some(data)) => Ok(parse_cpuinfo(data.as_slice())),
        Acquisition::Cpuinfo(None) => Ok(Vec::new()),
        Acquisition::Unsupported => Err(UnsupportedPlatform),
    }
}

} // verus!
