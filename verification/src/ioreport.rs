//! Which IOReport energy channels count toward which part of the SoC.
use vstd::prelude::*;

use crate::text::{chars_of, ends_with_lit, eq_lit, has_prefix, has_suffix, starts_with_lit, trim, trim_ws};

verus! {

/// The IOReport group whose channels carry the energy model.
pub const ENERGY_MODEL_GROUP: &'static str = "Energy Model";

/// The part of the SoC a channel's energy is counted toward.
#[derive(Debug, Clone, Copy, PartialEq, Eq, Structural)]
pub enum EnergyComponent {
    Cpu,
    Gpu,
    Ane,
    Dram,
}

/// The unit of a channel's energy counter.
#[derive(Debug, Clone, Copy, PartialEq, Eq, Structural)]
pub enum EnergyUnit {
    MilliJoule,
    MicroJoule,
    NanoJoule,
}

/// The unit a channel's unit label names, surrounding whitespace ignored.
pub open spec fn unit_named(label: Seq<char>) -> Option<EnergyUnit> {
    let t = trim_ws(label);
    if t == "mJ"@ {
        Some(EnergyUnit::MilliJoule)
    } else if t == "uJ"@ {
        Some(EnergyUnit::MicroJoule)
    } else if t == "nJ"@ {
        Some(EnergyUnit::NanoJoule)
    } else {
        None
    }
}

/// The component a channel name counts toward: names ending in
/// "CPU Energy", exactly "GPU Energy", names starting with "ANE" or "DRAM".
pub open spec fn component_named(name: Seq<char>) -> Option<EnergyComponent> {
    if has_suffix(name, "CPU Energy"@) {
        Some(EnergyComponent::Cpu)
    } else if name == "GPU Energy"@ {
        Some(EnergyComponent::Gpu)
    } else if has_prefix(name, "ANE"@) {
        Some(EnergyComponent::Ane)
    } else if has_prefix(name, "DRAM"@) {
        Some(EnergyComponent::Dram)
    } else {
        None
    }
}

/// How a channel is counted: skipped (`None`) unless it is in the energy
/// model group, has a name, and has a known unit; otherwise its unit and the
/// component it adds to (none for other channels of the group).
pub open spec fn channel_class(
    group: Option<Seq<char>>,
    name: Option<Seq<char>>,
    unit: Option<Seq<char>>,
) -> Option<(EnergyUnit, Option<EnergyComponent>)> {
    if group != Some(ENERGY_MODEL_GROUP@) || name is None {
        None
    } else {
        let label = match unit {
            Some(u) => u,
            None => Seq::empty(),
        };
        match unit_named(label) {
            Some(eu) => Some((eu, component_named(name.unwrap()))),
            None => None,
        }
    }
}

pub fn energy_unit(label: &str) -> (r: Option<EnergyUnit>)
    ensures
        r == unit_named(label@),
{
    let c = chars_of(label);
    let t = trim(&c);
    if eq_lit(&t, "mJ") {
        Some(EnergyUnit::MilliJoule)
    } else if eq_lit(&t, "uJ") {
        Some(EnergyUnit::MicroJoule)
    } else if eq_lit(&t, "nJ") {
        Some(EnergyUnit::NanoJoule)
    } else {
        None
    }
}

pub fn energy_component(name: &str) -> (r: Option<EnergyComponent>)
    ensures
        r == component_named(name@),
{
    let c = chars_of(name);
    if ends_with_lit(&c, "CPU Energy") {
        Some(EnergyComponent::Cpu)
    } else if eq_lit(&c, "GPU Energy") {
        Some(EnergyComponent::Gpu)
    } else if starts_with_lit(&c, "ANE") {
        Some(EnergyComponent::Ane)
    } else if starts_with_lit(&c, "DRAM") {
        Some(EnergyComponent::Dram)
    } else {
        None
    }
}

/// Classifies one channel of a sample delta.
pub fn classify_channel(group: Option<&str>, name: Option<&str>, unit: Option<&str>) -> (r: Option<
    (EnergyUnit, Option<EnergyComponent>),
>)
    ensures
        r == channel_class(
            match group {
                Some(g) => Some(g@),
                None => None,
            },
            match name {
                Some(n) => Some(n@),
                None => None,
            },
            match unit {
                Some(u) => Some(u@),
                None => None,
            },
        ),
{
    let in_group = match group {
        Some(g) => {
            let c = chars_of(g);
            eq_lit(&c, ENERGY_MODEL_GROUP)
        },
        None => false,
    };
    if !in_group {
        return None;
    }
    let n = match name {
        Some(n) => n,
        None => {
            return None;
        },
    };
    let eu = match unit {
        Some(u) => energy_unit(u),
        None => {
            proof {
                reveal_strlit("");
                assert(""@ =~= Seq::<char>::empty());
            }
            energy_unit("")
        },
    };
    match eu {
        Some(eu) => Some((eu, energy_component(n))),
        None => None,
    }
}

} // verus!
