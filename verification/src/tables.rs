//! Shared-memory table layouts of a wireless coprocessor interface.
//!
//! These records describe the information and buffer tables a radio
//! coprocessor publishes.  The buffer fields are plain machine addresses
//! (`usize`); reading or writing through them is I/O and lives outside
//! this library.  What is verified here is the pure part: the packed
//! bit-field accessors of the firmware information words.

use vstd::prelude::*;

verus! {

/// Boot-loader information: a single packed version word.
#[derive(Clone, Copy, Debug)]
pub struct SafeBootInfoTable {
    version: u32,
}

/// RSS information: version, memory size and status words.
#[derive(Clone, Copy, Debug)]
pub struct RssInfoTable {
    /// Packed version word.
    pub version: u32,
    /// Packed memory-size word.
    pub memory_size: u32,
    /// Status word.
    pub rss_info: u32,
}

/// Wireless firmware information.
///
/// `version` packs, from the low bits up: build (4 bits), branch
/// (4 bits), subversion (8 bits), minor version (8 bits), major version
/// (8 bits).  `memory_size` packs: flash size in 4K sectors (8 bits),
/// a reserved byte, SRAM2b size in 1K sectors (8 bits), SRAM2a size in
/// 1K sectors (8 bits).
#[derive(Clone, Copy, Debug)]
pub struct WirelessFwInfoTable {
    /// Packed version word.
    pub version: u32,
    /// Packed memory-size word.
    pub memory_size: u32,
    /// Thread stack information word.
    pub thread_info: u32,
    /// BLE stack information word.
    pub ble_info: u32,
}

impl WirelessFwInfoTable {
    /// The major version: bits 24 through 30 of `version`.
    pub fn version_major(&self) -> (r: u8)
        ensures
            r == ((self.version >> 24) & 0x7f) as u8,
    {
        let version = self.version;
        ((version >> 24) & 0x7f) as u8
    }

    /// The minor version: bits 16 through 22 of `version`.
    pub fn version_minor(&self) -> (r: u8)
        ensures
            r == ((self.version >> 16) & 0x7f) as u8,
    {
        let version = self.version;
        ((version >> 16) & 0x7f) as u8
    }

    /// The subversion: bits 8 through 14 of `version`.
    pub fn subversion(&self) -> (r: u8)
        ensures
            r == ((self.version >> 8) & 0x7f) as u8,
    {
        let version = self.version;
        ((version >> 8) & 0x7f) as u8
    }

    /// Size of flash, in 4K sectors: bits 0 through 6 of `memory_size`.
    pub fn flash_size(&self) -> (r: u8)
        ensures
            r == (self.memory_size & 0x7f) as u8,
    {
        let memory_size = self.memory_size;
        (memory_size & 0x7f) as u8
    }

    /// Size of SRAM2a, in 1K sectors: bits 24 through 30 of
    /// `memory_size`.
    pub fn sram2a_size(&self) -> (r: u8)
        ensures
            r == ((self.memory_size >> 24) & 0x7f) as u8,
    {
        let memory_size = self.memory_size;
        ((memory_size >> 24) & 0x7f) as u8
    }

    /// Size of SRAM2b, in 1K sectors: bits 16 through 22 of
    /// `memory_size`.
    pub fn sram2b_size(&self) -> (r: u8)
        ensures
            r == ((self.memory_size >> 16) & 0x7f) as u8,
    {
        let memory_size = self.memory_size;
        ((memory_size >> 16) & 0x7f) as u8
    }
}

/// Device information published by the coprocessor.
#[derive(Clone, Copy, Debug)]
pub struct DeviceInfoTable {
    /// Boot-loader information.
    pub safe_boot_info_table: SafeBootInfoTable,
    /// RSS information.
    pub rss_info_table: RssInfoTable,
    /// Wireless firmware information.
    pub wireless_fw_info_table: WirelessFwInfoTable,
}

/// BLE channel buffers, as machine addresses.
#[derive(Clone, Copy, Debug)]
pub struct BleTable {
    /// Command buffer address.
    pub pcmd_buffer: usize,
    /// Command status buffer address.
    pub pcs_buffer: usize,
    /// Event queue address.
    pub pevt_queue: usize,
    /// ACL data buffer address.
    pub phci_acl_data_buffer: usize,
}

/// Thread channel buffers, as machine addresses.
#[derive(Clone, Copy, Debug)]
pub struct ThreadTable {
    /// No-stack buffer address.
    pub nostack_buffer: usize,
    /// CLI command response buffer address.
    pub clicmdrsp_buffer: usize,
    /// OT command response buffer address.
    pub otcmdrsp_buffer: usize,
}

/// Link-layer test channel buffers, as machine addresses.
#[derive(Clone, Copy, Debug)]
pub struct LldTestsTable {
    /// CLI command response buffer address.
    pub clicmdrsp_buffer: usize,
    /// Coprocessor command buffer address.
    pub m0cmd_buffer: usize,
}

/// BLE link-layer channel buffers, as machine addresses.
#[derive(Clone, Copy, Debug)]
pub struct BleLldTable {
    /// Command response buffer address.
    pub cmdrsp_buffer: usize,
    /// Coprocessor command buffer address.
    pub m0cmd_buffer: usize,
}

/// Zigbee channel buffers, as machine addresses.
#[derive(Clone, Copy, Debug)]
pub struct ZigbeeTable {
    /// Notification buffer address.
    pub notif_m0_to_m4_buffer: usize,
    /// Application command buffer address.
    pub appli_cmd_m4_to_m0_bufer: usize,
    /// Request buffer address.
    pub request_m0_to_m4_buffer: usize,
}

/// System channel buffers, as machine addresses.
#[derive(Clone, Copy, Debug)]
pub struct SysTable {
    /// Command buffer address.
    pub pcmd_buffer: usize,
    /// System event queue address.
    pub sys_queue: usize,
}

/// Memory-manager buffers and pool sizes.
#[derive(Clone, Copy, Debug)]
pub struct MemManagerTable {
    /// Spare BLE event buffer address.
    pub spare_ble_buffer: usize,
    /// Spare system event buffer address.
    pub spare_sys_buffer: usize,
    /// BLE event pool address.
    pub blepool: usize,
    /// BLE event pool size in bytes.
    pub blepoolsize: u32,
    /// Free-buffer queue address.
    pub pevt_free_buffer_queue: usize,
    /// Traces event pool address.
    pub traces_evt_pool: usize,
    /// Traces pool size in bytes.
    pub tracespoolsize: u32,
}

/// Trace channel buffers, as machine addresses.
#[derive(Clone, Copy, Debug)]
pub struct TracesTable {
    /// Traces queue address.
    pub traces_queue: usize,
}

/// 802.15.4 MAC channel buffers, as machine addresses.
#[derive(Clone, Copy, Debug)]
pub struct Mac802_15_4Table {
    /// Command response buffer address.
    pub p_cmdrsp_buffer: usize,
    /// Notification acknowledgement buffer address.
    pub p_notack_buffer: usize,
    /// Event queue address.
    pub evt_queue: usize,
}

/// A fixed-size byte buffer whose placement the linker aligns.
pub struct AlignedData<const L: usize>([u8; L]);

/// Reference table: the addresses of all other tables.
#[derive(Clone, Copy, Debug)]
pub struct RefTable {
    /// Device information table address.
    pub device_info_table: usize,
    /// BLE table address.
    pub ble_table: usize,
    /// Thread table address.
    pub thread_table: usize,
    /// System table address.
    pub sys_table: usize,
    /// Memory manager table address.
    pub mem_manager_table: usize,
    /// Traces table address.
    pub traces_table: usize,
    /// 802.15.4 MAC table address.
    pub mac_802_15_4_table: usize,
}

} // verus!
