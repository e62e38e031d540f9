//! Addresses of programs and accounts that every bank has.

use vstd::prelude::*;

use crate::accounts::Pubkey;

verus! {

/// The system program. `11111111111111111111111111111111`
pub const SYSTEM_PROGRAM_ID: Pubkey = [
    0u8, 0u8, 0u8, 0u8, 0u8, 0u8, 0u8, 0u8,
    0u8, 0u8, 0u8, 0u8, 0u8, 0u8, 0u8, 0u8,
    0u8, 0u8, 0u8, 0u8, 0u8, 0u8, 0u8, 0u8,
    0u8, 0u8, 0u8, 0u8, 0u8, 0u8, 0u8, 0u8,
];

/// The clock. `SysvarC1ock11111111111111111111111111111111`
pub const CLOCK_SYSVAR_ID: Pubkey = [
    6u8, 167u8, 213u8, 23u8, 24u8, 199u8, 116u8, 201u8,
    40u8, 86u8, 99u8, 152u8, 105u8, 29u8, 94u8, 182u8,
    139u8, 94u8, 184u8, 163u8, 155u8, 75u8, 109u8, 92u8,
    115u8, 85u8, 91u8, 33u8, 0u8, 0u8, 0u8, 0u8,
];

/// The owner of the sysvars. `Sysvar1111111111111111111111111111111111111`
pub const SYSVAR_PROGRAM_ID: Pubkey = [
    6u8, 167u8, 213u8, 23u8, 24u8, 117u8, 247u8, 41u8,
    199u8, 61u8, 147u8, 64u8, 143u8, 33u8, 97u8, 32u8,
    6u8, 126u8, 216u8, 140u8, 118u8, 224u8, 140u8, 40u8,
    127u8, 193u8, 148u8, 96u8, 0u8, 0u8, 0u8, 0u8,
];

/// The loader of programs that cannot be upgraded. `BPFLoader2111111111111111111111111111111111`
pub const BPF_LOADER_ID: Pubkey = [
    2u8, 168u8, 246u8, 145u8, 78u8, 136u8, 161u8, 110u8,
    57u8, 90u8, 225u8, 40u8, 148u8, 143u8, 250u8, 105u8,
    86u8, 147u8, 55u8, 104u8, 24u8, 221u8, 71u8, 67u8,
    82u8, 33u8, 243u8, 198u8, 0u8, 0u8, 0u8, 0u8,
];

/// The first loader. `BPFLoader1111111111111111111111111111111111`
pub const BPF_LOADER_DEPRECATED_ID: Pubkey = [
    2u8, 168u8, 246u8, 145u8, 78u8, 136u8, 161u8, 107u8,
    189u8, 35u8, 149u8, 133u8, 95u8, 100u8, 4u8, 217u8,
    180u8, 244u8, 86u8, 183u8, 130u8, 27u8, 176u8, 20u8,
    87u8, 73u8, 66u8, 140u8, 0u8, 0u8, 0u8, 0u8,
];

/// The loader of programs that can be upgraded. `BPFLoaderUpgradeab1e11111111111111111111111`
pub const BPF_LOADER_UPGRADEABLE_ID: Pubkey = [
    2u8, 168u8, 246u8, 145u8, 78u8, 136u8, 161u8, 176u8,
    226u8, 16u8, 21u8, 62u8, 247u8, 99u8, 174u8, 43u8,
    0u8, 194u8, 185u8, 61u8, 22u8, 193u8, 36u8, 210u8,
    192u8, 83u8, 122u8, 16u8, 4u8, 128u8, 0u8, 0u8,
];

/// The fourth loader. `LoaderV411111111111111111111111111111111111`
pub const LOADER_V4_ID: Pubkey = [
    5u8, 18u8, 180u8, 17u8, 81u8, 81u8, 227u8, 122u8,
    173u8, 10u8, 139u8, 197u8, 211u8, 136u8, 46u8, 123u8,
    127u8, 218u8, 76u8, 243u8, 210u8, 192u8, 40u8, 200u8,
    207u8, 131u8, 54u8, 24u8, 0u8, 0u8, 0u8, 0u8,
];

} // verus!
