# tpower

Battery, power and peripheral telemetry for Apple machines, written in Verus.

`src/` is the verified library: the decoding of SMC frames and values, the
battery registry and the figures derived from it, the power history, the
Bluetooth LE advertisement records and the Proximity Pairing payload, the
Bluetooth report and HID readings of accessories, the peripheral listing
(merge, order, stale entries, worker generations), the BLE scan cycle (which
headsets were heard, which devices to ask over GATT and when), the MobileDevice
preparation sequence, the device table, the companion watch walk, the local
power sender's settings, the IOReport channel classification and the `pmset`
sleep setting. Every public function states its result in its `ensures`;
the laws that span calls are public proof functions.

`app/` is the platform side: IOKit, SMC, IOReport and MobileDevice calls,
system commands, serialization, and the floating-point figures.

`tests/` runs the library on concrete values.
