//! The packed bit-field accessors of the firmware information table.

use implicit3d::tables::WirelessFwInfoTable;

#[test]
fn version_fields_unpack() {
    let t = WirelessFwInfoTable {
        version: 0x0102_0304,
        memory_size: 0x0A0B_0C0D,
        thread_info: 0,
        ble_info: 0,
    };
    assert_eq!(t.version_major(), 1);
    assert_eq!(t.version_minor(), 2);
    assert_eq!(t.subversion(), 3);
    assert_eq!(t.flash_size(), 13);
    assert_eq!(t.sram2a_size(), 10);
    assert_eq!(t.sram2b_size(), 11);
}

#[test]
fn version_fields_mask_seven_bits() {
    // The accessors read seven-bit fields: the top bit of each byte is
    // masked off.
    let t = WirelessFwInfoTable {
        version: 0xFFFF_FFFF,
        memory_size: 0xFFFF_FFFF,
        thread_info: 0,
        ble_info: 0,
    };
    assert_eq!(t.version_major(), 0x7f);
    assert_eq!(t.version_minor(), 0x7f);
    assert_eq!(t.subversion(), 0x7f);
    assert_eq!(t.flash_size(), 0x7f);
    assert_eq!(t.sram2a_size(), 0x7f);
    assert_eq!(t.sram2b_size(), 0x7f);
}
