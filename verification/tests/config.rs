use simtpu::config::{MmuConfig, MmuConfigError, PeConfig, PeConfigError, TpuConfigError, VmemConfig, VmemConfigError};
use simtpu::TpuConfig;

fn config(rows: usize, cols: usize, act: u8, psum: u8, size: usize) -> TpuConfig {
    TpuConfig {
        mmu: MmuConfig { num_rows: rows, num_cols: cols, pe: PeConfig { act_bitw: act, psum_bitw: psum } },
        vmem: VmemConfig { size },
    }
}

#[test]
fn valid_configuration_passes() {
    assert!(config(2, 2, 8, 32, 1024).validate().is_ok());
    assert!(config(1, 1, 64, 64, 1).validate().is_ok());
}

#[test]
fn dimensions_are_checked_first() {
    assert!(matches!(
        config(0, 3, 7, 7, 0).validate(),
        Err(TpuConfigError::MmuConfig(MmuConfigError::InvalidDimensions { rows: 0, cols: 3 }))
    ));
}

#[test]
fn bit_widths_are_checked() {
    assert_eq!(PeConfig { act_bitw: 12, psum_bitw: 7 }.validate(), Err(PeConfigError::InvalidActBitw(12)));
    assert_eq!(PeConfig { act_bitw: 16, psum_bitw: 7 }.validate(), Err(PeConfigError::InvalidPsumBitw(7)));
    assert_eq!(
        PeConfig { act_bitw: 32, psum_bitw: 16 }.validate(),
        Err(PeConfigError::IncompatibleBitw { act_bitw: 32, psum_bitw: 16 })
    );
    assert!(matches!(
        config(1, 1, 16, 8, 1).validate(),
        Err(TpuConfigError::MmuConfig(MmuConfigError::PeConfig(PeConfigError::IncompatibleBitw { act_bitw: 16, psum_bitw: 8 })))
    ));
}

#[test]
fn memory_size_is_checked_after_the_array() {
    assert_eq!(VmemConfig { size: 0 }.validate(), Err(VmemConfigError::InvalidSize(0)));
    assert!(matches!(config(1, 1, 8, 8, 0).validate(), Err(TpuConfigError::VmemConfig(VmemConfigError::InvalidSize(0)))));
}
