use tpower::ioreport::{classify_channel, energy_component, energy_unit, EnergyComponent, EnergyUnit};
use tpower::tray_icon::sleep_disabled_from;

#[test]
fn pmset_sleep_disabled_is_read_from_the_first_mention() {
    let out = "System-wide power settings:\n SleepDisabled\t\t1\nCurrently in use:\n standby 1\n";
    assert!(sleep_disabled_from(out));
    assert!(!sleep_disabled_from("System-wide power settings:\r\n SleepDisabled 0\r\n"));
    assert!(!sleep_disabled_from(" sleepdisabled 10\n"));
    assert!(!sleep_disabled_from(" standby 1\n"));
    assert!(!sleep_disabled_from(""));
    assert!(sleep_disabled_from("SLEEPDISABLED 1"));
    assert!(!sleep_disabled_from("SleepDisabled 0\nSleepDisabled 1\n"));
}

#[test]
fn energy_channels_are_classified() {
    assert_eq!(energy_unit(" mJ "), Some(EnergyUnit::MilliJoule));
    assert_eq!(energy_unit("uJ"), Some(EnergyUnit::MicroJoule));
    assert_eq!(energy_unit("nJ"), Some(EnergyUnit::NanoJoule));
    assert_eq!(energy_unit("J"), None);
    assert_eq!(energy_component("ECPU0 CPU Energy"), Some(EnergyComponent::Cpu));
    assert_eq!(energy_component("GPU Energy"), Some(EnergyComponent::Gpu));
    assert_eq!(energy_component("GPU0 Energy"), None);
    assert_eq!(energy_component("ANE0"), Some(EnergyComponent::Ane));
    assert_eq!(energy_component("DRAM0"), Some(EnergyComponent::Dram));
    assert_eq!(
        classify_channel(Some("Energy Model"), Some("GPU Energy"), Some("mJ")),
        Some((EnergyUnit::MilliJoule, Some(EnergyComponent::Gpu)))
    );
    assert_eq!(
        classify_channel(Some("Energy Model"), Some("ISP"), Some("nJ")),
        Some((EnergyUnit::NanoJoule, None))
    );
    assert_eq!(classify_channel(Some("CPU Stats"), Some("GPU Energy"), Some("mJ")), None);
    assert_eq!(classify_channel(Some("Energy Model"), None, Some("mJ")), None);
    assert_eq!(classify_channel(Some("Energy Model"), Some("GPU Energy"), None), None);
}
