//! Residency observability for out-of-core layer streaming.

use vstd::prelude::*;

verus! {

#[derive(Debug, Clone, Copy, PartialEq, Eq, Structural)]
pub struct ResidencyStats {
    /// Total model weight bytes (sum of all tensors).
    pub total_model_weight_bytes: u64,
    /// Current resident layer weight bytes.
    pub current_resident_layer_bytes: u64,
    /// Peak resident layer weight bytes observed.
    pub peak_resident_layer_bytes: u64,
    /// Number of layer loads.
    pub num_layer_loads: u64,
    /// Number of layer releases.
    pub num_layer_releases: u64,
    /// Peak managed bytes (budget used).
    pub peak_managed_bytes: u64,
    /// Current managed bytes.
    pub current_managed_bytes: u64,
}

pub open spec fn larger(left: u64, right: u64) -> u64 {
    if right > left {
        right
    } else {
        left
    }
}

/// Nothing was observed yet.
pub open spec fn no_residency(total_model_weight_bytes: u64) -> ResidencyStats {
    ResidencyStats {
        total_model_weight_bytes,
        current_resident_layer_bytes: 0,
        peak_resident_layer_bytes: 0,
        num_layer_loads: 0,
        num_layer_releases: 0,
        peak_managed_bytes: 0,
        current_managed_bytes: 0,
    }
}

impl ResidencyStats {
    /// What is resident now never exceeds the peak.
    pub open spec fn wf(&self) -> bool {
        &&& self.current_resident_layer_bytes <= self.peak_resident_layer_bytes
        &&& self.current_managed_bytes <= self.peak_managed_bytes
    }

    /// The statistics with a new amount of managed bytes.
    pub open spec fn managing(self, current_managed: u64) -> ResidencyStats {
        ResidencyStats {
            current_managed_bytes: current_managed,
            peak_managed_bytes: larger(self.peak_managed_bytes, current_managed),
            ..self
        }
    }

    pub fn new(total_model_weight_bytes: u64) -> (stats: Self)
        ensures
            stats == no_residency(total_model_weight_bytes),
            stats.wf(),
    {
        ResidencyStats {
            total_model_weight_bytes,
            current_resident_layer_bytes: 0,
            peak_resident_layer_bytes: 0,
            num_layer_loads: 0,
            num_layer_releases: 0,
            peak_managed_bytes: 0,
            current_managed_bytes: 0,
        }
    }

    pub fn on_layer_load(&mut self, layer_bytes: u64, current_managed: u64)
        requires
            old(self).num_layer_loads < u64::MAX,
        ensures
            *final(self) == (ResidencyStats {
                num_layer_loads: (old(self).num_layer_loads + 1) as u64,
                current_resident_layer_bytes: layer_bytes,
                peak_resident_layer_bytes: larger(
                    old(self).peak_resident_layer_bytes,
                    layer_bytes,
                ),
                ..old(self).managing(current_managed)
            }),
            old(self).wf() ==> final(self).wf(),
    {
        self.num_layer_loads = self.num_layer_loads + 1;
        self.current_resident_layer_bytes = layer_bytes;
        if layer_bytes > self.peak_resident_layer_bytes {
            self.peak_resident_layer_bytes = layer_bytes;
        }
        self.update_managed(current_managed);
    }

    pub fn on_layer_release(&mut self, current_managed: u64)
        requires
            old(self).num_layer_releases < u64::MAX,
        ensures
            *final(self) == (ResidencyStats {
                num_layer_releases: (old(self).num_layer_releases + 1) as u64,
                current_resident_layer_bytes: 0,
                ..old(self).managing(current_managed)
            }),
            old(self).wf() ==> final(self).wf(),
    {
        self.num_layer_releases = self.num_layer_releases + 1;
        self.current_resident_layer_bytes = 0;
        self.update_managed(current_managed);
    }

    pub fn update_managed(&mut self, current_managed: u64)
        ensures
            *final(self) == old(self).managing(current_managed),
            old(self).wf() ==> final(self).wf(),
    {
        self.current_managed_bytes = current_managed;
        if current_managed > self.peak_managed_bytes {
            self.peak_managed_bytes = current_managed;
        }
    }
}

impl Default for ResidencyStats {
    fn default() -> (stats: Self)
        ensures
            stats == no_residency(0),
    {
        ResidencyStats::new(0)
    }
}

/// Managed bytes are reported as they are, and their peak is the most there was.
pub proof fn lemma_managed_peak(stats: ResidencyStats, current_managed: u64)
    ensures
        ({
            let after = stats.managing(current_managed);
            &&& after.current_managed_bytes == current_managed
            &&& after.peak_managed_bytes >= current_managed
            &&& after.peak_managed_bytes >= stats.peak_managed_bytes
            &&& after.peak_managed_bytes == current_managed || after.peak_managed_bytes
                == stats.peak_managed_bytes
            &&& after == (ResidencyStats {
                current_managed_bytes: after.current_managed_bytes,
                peak_managed_bytes: after.peak_managed_bytes,
                ..stats
            })
        }),
{
}

/// The larger of two numbers is one of them and below neither.
pub proof fn lemma_larger(left: u64, right: u64)
    ensures
        larger(left, right) >= left,
        larger(left, right) >= right,
        larger(left, right) == left || larger(left, right) == right,
{
}

} // verus!
