//! Lightweight optional generation profiler. Durations are in nanoseconds; the
//! clock belongs to the caller.

use vstd::prelude::*;

verus! {

#[derive(Debug, Clone, Copy, PartialEq, Eq, Structural)]
pub enum ProfileEvent {
    Prompt,
    LayerLoad,
    LayerCompute,
    LayerRelease,
    TensorConstruction,
    Dequantization,
    FloatMatvec,
    QuantizedMatvec,
    Allocation,
    Logits,
    Sampling,
    Output,
    TokenLatency,
    Total,
}

#[derive(Debug, Clone, Copy, PartialEq, Eq, Structural)]
pub struct ProfileSnapshot {
    pub prompt: u64,
    pub layer_load: u64,
    pub layer_compute: u64,
    pub layer_release: u64,
    pub tensor_construction: u64,
    pub dequantization: u64,
    pub float_matvec: u64,
    pub quantized_matvec: u64,
    pub allocation: u64,
    pub logits: u64,
    pub sampling: u64,
    pub output: u64,
    pub token_latency_total: u64,
    pub max_token_latency: u64,
    pub total: u64,
    pub tokens: u64,
    pub layer_loads: u64,
    pub layer_releases: u64,
    pub cache_hits: u64,
    pub cache_misses: u64,
    pub prompt_forwards: u64,
    pub decode_forwards: u64,
    pub terminal_forwards_skipped: u64,
    pub q4_0_matvecs: u64,
    pub q4_0_rows: u64,
    pub q4_0_columns: u64,
    pub q4_0_blocks: u64,
    pub q4_0_weight_bytes: u64,
}

/// Nothing was recorded.
pub open spec fn no_profile() -> ProfileSnapshot {
    ProfileSnapshot {
        prompt: 0,
        layer_load: 0,
        layer_compute: 0,
        layer_release: 0,
        tensor_construction: 0,
        dequantization: 0,
        float_matvec: 0,
        quantized_matvec: 0,
        allocation: 0,
        logits: 0,
        sampling: 0,
        output: 0,
        token_latency_total: 0,
        max_token_latency: 0,
        total: 0,
        tokens: 0,
        layer_loads: 0,
        layer_releases: 0,
        cache_hits: 0,
        cache_misses: 0,
        prompt_forwards: 0,
        decode_forwards: 0,
        terminal_forwards_skipped: 0,
        q4_0_matvecs: 0,
        q4_0_rows: 0,
        q4_0_columns: 0,
        q4_0_blocks: 0,
        q4_0_weight_bytes: 0,
    }
}

impl Default for ProfileSnapshot {
    fn default() -> (snapshot: Self)
        ensures
            snapshot == no_profile(),
    {
        ProfileSnapshot {
            prompt: 0,
            layer_load: 0,
            layer_compute: 0,
            layer_release: 0,
            tensor_construction: 0,
            dequantization: 0,
            float_matvec: 0,
            quantized_matvec: 0,
            allocation: 0,
            logits: 0,
            sampling: 0,
            output: 0,
            token_latency_total: 0,
            max_token_latency: 0,
            total: 0,
            tokens: 0,
            layer_loads: 0,
            layer_releases: 0,
            cache_hits: 0,
            cache_misses: 0,
            prompt_forwards: 0,
            decode_forwards: 0,
            terminal_forwards_skipped: 0,
            q4_0_matvecs: 0,
            q4_0_rows: 0,
            q4_0_columns: 0,
            q4_0_blocks: 0,
            q4_0_weight_bytes: 0,
        }
    }
}

/// Counters wrap around like the machine's own.
pub open spec fn counted(counter: u64, more: u64) -> u64 {
    counter.wrapping_add(more)
}

/// The counters after an event of that duration.
pub open spec fn with_event(
    counters: ProfileSnapshot,
    event: ProfileEvent,
    nanos: u64,
) -> ProfileSnapshot {
    match event {
        ProfileEvent::Prompt => ProfileSnapshot {
            prompt: counted(counters.prompt, nanos),
            ..counters
        },
        ProfileEvent::LayerLoad => ProfileSnapshot {
            layer_load: counted(counters.layer_load, nanos),
            ..counters
        },
        ProfileEvent::LayerCompute => ProfileSnapshot {
            layer_compute: counted(counters.layer_compute, nanos),
            ..counters
        },
        ProfileEvent::LayerRelease => ProfileSnapshot {
            layer_release: counted(counters.layer_release, nanos),
            ..counters
        },
        ProfileEvent::TensorConstruction => ProfileSnapshot {
            tensor_construction: counted(counters.tensor_construction, nanos),
            ..counters
        },
        ProfileEvent::Dequantization => ProfileSnapshot {
            dequantization: counted(counters.dequantization, nanos),
            ..counters
        },
        ProfileEvent::FloatMatvec => ProfileSnapshot {
            float_matvec: counted(counters.float_matvec, nanos),
            ..counters
        },
        ProfileEvent::QuantizedMatvec => ProfileSnapshot {
            quantized_matvec: counted(counters.quantized_matvec, nanos),
            ..counters
        },
        ProfileEvent::Allocation => ProfileSnapshot {
            allocation: counted(counters.allocation, nanos),
            ..counters
        },
        ProfileEvent::Logits => ProfileSnapshot {
            logits: counted(counters.logits, nanos),
            ..counters
        },
        ProfileEvent::Sampling => ProfileSnapshot {
            sampling: counted(counters.sampling, nanos),
            ..counters
        },
        ProfileEvent::Output => ProfileSnapshot {
            output: counted(counters.output, nanos),
            ..counters
        },
        ProfileEvent::TokenLatency => ProfileSnapshot {
            token_latency_total: counted(counters.token_latency_total, nanos),
            max_token_latency: if nanos > counters.max_token_latency {
                nanos
            } else {
                counters.max_token_latency
            },
            ..counters
        },
        ProfileEvent::Total => ProfileSnapshot {
            total: counted(counters.total, nanos),
            ..counters
        },
    }
}

/// A profiler records only while it is enabled.
#[derive(Debug, Clone)]
pub struct Profiler {
    enabled: bool,
    counters: ProfileSnapshot,
}

impl Profiler {
    pub closed spec fn spec_enabled(&self) -> bool {
        self.enabled
    }

    pub closed spec fn spec_counters(&self) -> ProfileSnapshot {
        self.counters
    }

    pub fn new() -> (profiler: Self)
        ensures
            !profiler.spec_enabled(),
            profiler.spec_counters() == no_profile(),
    {
        Profiler { enabled: false, counters: ProfileSnapshot::default() }
    }

    pub fn set_enabled(&mut self, enabled: bool)
        ensures
            final(self).spec_enabled() == enabled,
            final(self).spec_counters() == old(self).spec_counters(),
    {
        self.enabled = enabled;
    }

    pub fn is_enabled(&self) -> (enabled: bool)
        ensures
            enabled == self.spec_enabled(),
    {
        self.enabled
    }

    pub fn reset(&mut self)
        ensures
            final(self).spec_enabled() == old(self).spec_enabled(),
            final(self).spec_counters() == no_profile(),
    {
        self.counters = ProfileSnapshot::default();
    }

    pub fn record(&mut self, event: ProfileEvent, nanos: u64)
        ensures
            final(self).spec_enabled() == old(self).spec_enabled(),
            final(self).spec_counters() == (if old(self).spec_enabled() {
                with_event(old(self).spec_counters(), event, nanos)
            } else {
                old(self).spec_counters()
            }),
    {
        if !self.enabled {
            return;
        }
        match event {
            ProfileEvent::Prompt => {
                self.counters.prompt = self.counters.prompt.wrapping_add(nanos);
            },
            ProfileEvent::LayerLoad => {
                self.counters.layer_load = self.counters.layer_load.wrapping_add(nanos);
            },
            ProfileEvent::LayerCompute => {
                self.counters.layer_compute = self.counters.layer_compute.wrapping_add(nanos);
            },
            ProfileEvent::LayerRelease => {
                self.counters.layer_release = self.counters.layer_release.wrapping_add(nanos);
            },
            ProfileEvent::TensorConstruction => {
                self.counters.tensor_construction =
                self.counters.tensor_construction.wrapping_add(nanos);
            },
            ProfileEvent::Dequantization => {
                self.counters.dequantization = self.counters.dequantization.wrapping_add(nanos);
            },
            ProfileEvent::FloatMatvec => {
                self.counters.float_matvec = self.counters.float_matvec.wrapping_add(nanos);
            },
            ProfileEvent::QuantizedMatvec => {
                self.counters.quantized_matvec = self.counters.quantized_matvec.wrapping_add(nanos);
            },
            ProfileEvent::Allocation => {
                self.counters.allocation = self.counters.allocation.wrapping_add(nanos);
            },
            ProfileEvent::Logits => {
                self.counters.logits = self.counters.logits.wrapping_add(nanos);
            },
            ProfileEvent::Sampling => {
                self.counters.sampling = self.counters.sampling.wrapping_add(nanos);
            },
            ProfileEvent::Output => {
                self.counters.output = self.counters.output.wrapping_add(nanos);
            },
            ProfileEvent::TokenLatency => {
                if nanos > self.counters.max_token_latency {
                    self.counters.max_token_latency = nanos;
                }
                self.counters.token_latency_total =
                self.counters.token_latency_total.wrapping_add(nanos);
            },
            ProfileEvent::Total => {
                self.counters.total = self.counters.total.wrapping_add(nanos);
            },
        }
    }

    pub fn record_token(&mut self)
        ensures
            final(self).spec_enabled() == old(self).spec_enabled(),
            final(self).spec_counters() == (if old(self).spec_enabled() {
                ProfileSnapshot {
                    tokens: counted(old(self).spec_counters().tokens, 1),
                    ..old(self).spec_counters()
                }
            } else {
                old(self).spec_counters()
            }),
    {
        if self.enabled {
            self.counters.tokens = self.counters.tokens.wrapping_add(1);
        }
    }

    /// A layer that is read from disk is a cache miss.
    pub fn record_layer_load(&mut self)
        ensures
            final(self).spec_enabled() == old(self).spec_enabled(),
            final(self).spec_counters() == (if old(self).spec_enabled() {
                ProfileSnapshot {
                    layer_loads: counted(old(self).spec_counters().layer_loads, 1),
                    cache_misses: counted(old(self).spec_counters().cache_misses, 1),
                    ..old(self).spec_counters()
                }
            } else {
                old(self).spec_counters()
            }),
    {
        if self.enabled {
            self.counters.layer_loads = self.counters.layer_loads.wrapping_add(1);
            self.counters.cache_misses = self.counters.cache_misses.wrapping_add(1);
        }
    }

    pub fn record_layer_release(&mut self)
        ensures
            final(self).spec_enabled() == old(self).spec_enabled(),
            final(self).spec_counters() == (if old(self).spec_enabled() {
                ProfileSnapshot {
                    layer_releases: counted(old(self).spec_counters().layer_releases, 1),
                    ..old(self).spec_counters()
                }
            } else {
                old(self).spec_counters()
            }),
    {
        if self.enabled {
            self.counters.layer_releases = self.counters.layer_releases.wrapping_add(1);
        }
    }

    pub fn record_cache_hit(&mut self)
        ensures
            final(self).spec_enabled() == old(self).spec_enabled(),
            final(self).spec_counters() == (if old(self).spec_enabled() {
                ProfileSnapshot {
                    cache_hits: counted(old(self).spec_counters().cache_hits, 1),
                    ..old(self).spec_counters()
                }
            } else {
                old(self).spec_counters()
            }),
    {
        if self.enabled {
            self.counters.cache_hits = self.counters.cache_hits.wrapping_add(1);
        }
    }

    pub fn record_prompt_forward(&mut self)
        ensures
            final(self).spec_enabled() == old(self).spec_enabled(),
            final(self).spec_counters() == (if old(self).spec_enabled() {
                ProfileSnapshot {
                    prompt_forwards: counted(old(self).spec_counters().prompt_forwards, 1),
                    ..old(self).spec_counters()
                }
            } else {
                old(self).spec_counters()
            }),
    {
        if self.enabled {
            self.counters.prompt_forwards = self.counters.prompt_forwards.wrapping_add(1);
        }
    }

    pub fn record_decode_forward(&mut self)
        ensures
            final(self).spec_enabled() == old(self).spec_enabled(),
            final(self).spec_counters() == (if old(self).spec_enabled() {
                ProfileSnapshot {
                    decode_forwards: counted(old(self).spec_counters().decode_forwards, 1),
                    ..old(self).spec_counters()
                }
            } else {
                old(self).spec_counters()
            }),
    {
        if self.enabled {
            self.counters.decode_forwards = self.counters.decode_forwards.wrapping_add(1);
        }
    }

    pub fn record_terminal_forward_skipped(&mut self)
        ensures
            final(self).spec_enabled() == old(self).spec_enabled(),
            final(self).spec_counters() == (if old(self).spec_enabled() {
                ProfileSnapshot {
                    terminal_forwards_skipped: counted(
                        old(self).spec_counters().terminal_forwards_skipped,
                        1,
                    ),
                    ..old(self).spec_counters()
                }
            } else {
                old(self).spec_counters()
            }),
    {
        if self.enabled {
            self.counters.terminal_forwards_skipped =
            self.counters.terminal_forwards_skipped.wrapping_add(1);
        }
    }

    pub fn record_q4_0_matvec(&mut self, rows: u64, columns: u64, blocks: u64, weight_bytes: u64)
        ensures
            final(self).spec_enabled() == old(self).spec_enabled(),
            final(self).spec_counters() == (if old(self).spec_enabled() {
                ProfileSnapshot {
                    q4_0_matvecs: counted(old(self).spec_counters().q4_0_matvecs, 1),
                    q4_0_rows: counted(old(self).spec_counters().q4_0_rows, rows),
                    q4_0_columns: counted(old(self).spec_counters().q4_0_columns, columns),
                    q4_0_blocks: counted(old(self).spec_counters().q4_0_blocks, blocks),
                    q4_0_weight_bytes: counted(
                        old(self).spec_counters().q4_0_weight_bytes,
                        weight_bytes,
                    ),
                    ..old(self).spec_counters()
                }
            } else {
                old(self).spec_counters()
            }),
    {
        if self.enabled {
            self.counters.q4_0_matvecs = self.counters.q4_0_matvecs.wrapping_add(1);
            self.counters.q4_0_rows = self.counters.q4_0_rows.wrapping_add(rows);
            self.counters.q4_0_columns = self.counters.q4_0_columns.wrapping_add(columns);
            self.counters.q4_0_blocks = self.counters.q4_0_blocks.wrapping_add(blocks);
            self.counters.q4_0_weight_bytes =
            self.counters.q4_0_weight_bytes.wrapping_add(weight_bytes);
        }
    }

    pub fn snapshot(&self) -> (snapshot: ProfileSnapshot)
        ensures
            snapshot == self.spec_counters(),
    {
        self.counters
    }
}

impl Default for Profiler {
    fn default() -> (profiler: Self)
        ensures
            !profiler.spec_enabled(),
            profiler.spec_counters() == no_profile(),
    {
        Profiler::new()
    }
}

/// An event adds its time to its own counter and changes no other; a token's
/// latency also counts toward the longest one.
pub proof fn lemma_event_counted(counters: ProfileSnapshot, event: ProfileEvent, nanos: u64)
    ensures
        ({
            let after = with_event(counters, event, nanos);
            match event {
                ProfileEvent::Prompt => {
                    &&& after == (ProfileSnapshot { prompt: after.prompt, ..counters })
                    &&& counters.prompt + nanos <= u64::MAX ==> after.prompt == counters.prompt + nanos
                },
                ProfileEvent::LayerLoad => {
                    &&& after == (ProfileSnapshot { layer_load: after.layer_load, ..counters })
                    &&& counters.layer_load + nanos <= u64::MAX ==> after.layer_load == counters.layer_load + nanos
                },
                ProfileEvent::LayerCompute => {
                    &&& after == (ProfileSnapshot { layer_compute: after.layer_compute, ..counters })
                    &&& counters.layer_compute + nanos <= u64::MAX ==> after.layer_compute == counters.layer_compute + nanos
                },
                ProfileEvent::LayerRelease => {
                    &&& after == (ProfileSnapshot { layer_release: after.layer_release, ..counters })
                    &&& counters.layer_release + nanos <= u64::MAX ==> after.layer_release == counters.layer_release + nanos
                },
                ProfileEvent::TensorConstruction => {
                    &&& after == (ProfileSnapshot { tensor_construction: after.tensor_construction, ..counters })
                    &&& counters.tensor_construction + nanos <= u64::MAX ==> after.tensor_construction == counters.tensor_construction + nanos
                },
                ProfileEvent::Dequantization => {
                    &&& after == (ProfileSnapshot { dequantization: after.dequantization, ..counters })
                    &&& counters.dequantization + nanos <= u64::MAX ==> after.dequantization == counters.dequantization + nanos
                },
                ProfileEvent::FloatMatvec => {
                    &&& after == (ProfileSnapshot { float_matvec: after.float_matvec, ..counters })
                    &&& counters.float_matvec + nanos <= u64::MAX ==> after.float_matvec == counters.float_matvec + nanos
                },
                ProfileEvent::QuantizedMatvec => {
                    &&& after == (ProfileSnapshot { quantized_matvec: after.quantized_matvec, ..counters })
                    &&& counters.quantized_matvec + nanos <= u64::MAX ==> after.quantized_matvec == counters.quantized_matvec + nanos
                },
                ProfileEvent::Allocation => {
                    &&& after == (ProfileSnapshot { allocation: after.allocation, ..counters })
                    &&& counters.allocation + nanos <= u64::MAX ==> after.allocation == counters.allocation + nanos
                },
                ProfileEvent::Logits => {
                    &&& after == (ProfileSnapshot { logits: after.logits, ..counters })
                    &&& counters.logits + nanos <= u64::MAX ==> after.logits == counters.logits + nanos
                },
                ProfileEvent::Sampling => {
                    &&& after == (ProfileSnapshot { sampling: after.sampling, ..counters })
                    &&& counters.sampling + nanos <= u64::MAX ==> after.sampling == counters.sampling + nanos
                },
                ProfileEvent::Output => {
                    &&& after == (ProfileSnapshot { output: after.output, ..counters })
                    &&& counters.output + nanos <= u64::MAX ==> after.output == counters.output + nanos
                },
                ProfileEvent::Total => {
                    &&& after == (ProfileSnapshot { total: after.total, ..counters })
                    &&& counters.total + nanos <= u64::MAX ==> after.total == counters.total + nanos
                },
                ProfileEvent::TokenLatency => {
                    &&& after == (ProfileSnapshot {
                        token_latency_total: after.token_latency_total,
                        max_token_latency: after.max_token_latency,
                        ..counters
                    })
                    &&& counters.token_latency_total + nanos <= u64::MAX
                        ==> after.token_latency_total == counters.token_latency_total + nanos
                    &&& after.max_token_latency >= nanos && after.max_token_latency
                        >= counters.max_token_latency
                    &&& after.max_token_latency == nanos || after.max_token_latency
                        == counters.max_token_latency
                },
            }
        }),
{
}

} // verus!
