//! Twin-fact paths used by the demonstration bindings.
use vstd::prelude::*;

verus! {

pub const OPERATOR_ID: &'static str = "de.dpp.operator-id";

pub const REPARABILITY: &'static str = "de.dpp.reparability-score";

pub const CARBON: &'static str = "de.dpp.carbon-footprint";

pub const PSE_MARK: &'static str = "de.jp.pse-mark";

pub const TOP_RUNNER: &'static str = "de.jp.top-runner-class";

pub const CAPACITY_KWH: &'static str = "battery.capacity-kwh";

pub const MARKETS: &'static str = "subject.markets";

pub const SOH: &'static str = "battery.soh-pct";

pub const SOH_UNCERTAINTY: &'static str = "battery.soh-u-pct";

pub const ROUND_TRIP_EFFICIENCY: &'static str = "battery.round-trip-efficiency-pct";

/// Recycling instruction: deliberately not provided by the demo passport (the
/// consumer lens's explicit coverage gap).
pub const RECYCLING_INSTRUCTION: &'static str = "de.dpp.recycling-instruction";

/// The pack system's EU energy-label class (code value).
pub const ENERGY_LABEL: &'static str = "eu.energy-label-class";

/// Per-pack carbon footprint (kgCO2e).
pub const PACK_CARBON: &'static str = "pack.carbon-footprint";

/// Per-pack mass (kg).
pub const PACK_MASS: &'static str = "pack.mass-kg";

/// Per-pack state of health (%).
pub const PACK_SOH: &'static str = "pack.soh-pct";

/// CN regulatory protocol conformance: national regimes as registry content,
/// named not embedded in prose.
pub const CN_PROTOCOL_3C: &'static str = "cn.protocol.3c";

pub const CN_PROTOCOL_PRODUCER: &'static str = "cn.protocol.producer-regulation";

pub const CN_PROTOCOL_LICENSE: &'static str = "cn.protocol.industrial-license";

} // verus!
