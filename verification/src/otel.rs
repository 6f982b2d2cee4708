//! Telemetry settings and the no-op telemetry provider: zerobox ships no
//! exporter, so providers are never built and every metric is dropped.
use vstd::prelude::*;
use std::collections::BTreeMap;

verus! {

/// Where telemetry goes.
#[derive(Clone, Debug, Copy, PartialEq, Eq, Structural)]
pub enum OtelExporter {
    /// No exporter.
    Disabled,
    Statsig,
}

/// Telemetry settings.
#[derive(Clone, Debug)]
pub struct OtelSettings {
    pub environment: String,
    pub service_name: String,
    pub service_version: String,
    pub codex_home: String,
    pub exporter: OtelExporter,
    pub trace_exporter: OtelExporter,
    pub metrics_exporter: OtelExporter,
    pub runtime_metrics: bool,
    pub span_attributes: BTreeMap<String, String>,
    pub tracestate: BTreeMap<String, BTreeMap<String, String>>,
}

/// Statsig metrics settings.
#[derive(Clone, Debug, PartialEq, Eq)]
pub struct StatsigMetricsSettings {
    pub environment: String,
}

/// Why telemetry could not be set up or recorded (never produced here).
#[derive(Clone, Debug, PartialEq, Eq, Structural)]
pub struct OtelError;

/// A telemetry provider.
pub struct OtelProvider {}

/// A metrics client.
pub struct MetricsClient {}

impl OtelProvider {
    /// No provider is built, whatever the settings.
    pub fn from(settings: &OtelSettings) -> (r: Result<Option<OtelProvider>, OtelError>)
        ensures
            r matches Ok(None),
    {
        Ok(None)
    }

    /// There is no metrics client.
    pub fn metrics(&self) -> (r: Option<&MetricsClient>)
        ensures
            r is None,
    {
        None
    }

    /// Nothing to shut down.
    pub fn shutdown(&self) {
    }
}

impl MetricsClient {
    /// Drops the sample and reports success.
    pub fn counter(&self, name: &str, inc: u64, tags: &[(&str, &str)]) -> (r: Result<(), OtelError>)
        ensures
            r is Ok,
    {
        Ok(())
    }

    /// Nothing to shut down.
    pub fn shutdown(&self) {
    }
}

/// No global Statsig settings are configured.
pub fn global_statsig_metrics_settings() -> (r: Option<StatsigMetricsSettings>)
    ensures
        r is None,
{
    None
}

} // verus!
