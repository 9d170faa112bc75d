//! The hardware configuration and its validation.
use vstd::prelude::*;

verus! {

#[verifier::external_type_specification]
#[verifier::external_body]
pub struct ExYamlError(yaml_serde::Error);

pub struct TpuConfig {
    pub mmu: MmuConfig,
    pub vmem: VmemConfig,
}

pub struct MmuConfig {
    pub num_rows: usize,
    pub num_cols: usize,
    pub pe: PeConfig,
}

pub struct PeConfig {
    pub act_bitw: u8,
    pub psum_bitw: u8,
}

pub struct VmemConfig {
    pub size: usize,
}

#[derive(Debug)]
pub enum TpuConfigError {
    Parse(yaml_serde::Error),
    Io(std::io::Error),
    MmuConfig(MmuConfigError),
    VmemConfig(VmemConfigError),
}

#[derive(Debug, PartialEq, Eq, Structural)]
pub enum MmuConfigError {
    InvalidDimensions { rows: usize, cols: usize },
    PeConfig(PeConfigError),
}

#[derive(Debug, PartialEq, Eq, Structural)]
pub enum PeConfigError {
    InvalidActBitw(u8),
    InvalidPsumBitw(u8),
    IncompatibleBitw { act_bitw: u8, psum_bitw: u8 },
}

#[derive(Debug, PartialEq, Eq, Structural)]
pub enum VmemConfigError {
    InvalidSize(usize),
}

/// A supported word width in bits.
pub open spec fn supported_bitw(w: u8) -> bool {
    w == 8 || w == 16 || w == 32 || w == 64
}

/// What validating a processing-element configuration reports: each width
/// must be supported, the activation width checked first, and partial sums
/// must be at least as wide as activations.
pub open spec fn pe_config_check(c: PeConfig) -> Result<(), PeConfigError> {
    if !supported_bitw(c.act_bitw) {
        Err(PeConfigError::InvalidActBitw(c.act_bitw))
    } else if !supported_bitw(c.psum_bitw) {
        Err(PeConfigError::InvalidPsumBitw(c.psum_bitw))
    } else if c.psum_bitw < c.act_bitw {
        Err(PeConfigError::IncompatibleBitw { act_bitw: c.act_bitw, psum_bitw: c.psum_bitw })
    } else {
        Ok(())
    }
}

/// The array must have at least one row and one column; then its processing
/// elements are checked.
pub open spec fn mmu_config_check(c: MmuConfig) -> Result<(), MmuConfigError> {
    if c.num_rows == 0 || c.num_cols == 0 {
        Err(MmuConfigError::InvalidDimensions { rows: c.num_rows, cols: c.num_cols })
    } else {
        match pe_config_check(c.pe) {
            Ok(()) => Ok(()),
            Err(e) => Err(MmuConfigError::PeConfig(e)),
        }
    }
}

/// The memory must hold at least one word.
pub open spec fn vmem_config_check(c: VmemConfig) -> Result<(), VmemConfigError> {
    if c.size == 0 {
        Err(VmemConfigError::InvalidSize(c.size))
    } else {
        Ok(())
    }
}

/// A configuration that validates has a non-empty array, supported word
/// widths with partial sums at least as wide as activations, and a non-empty
/// memory: everything the datapath types are derived from.
pub proof fn lemma_validated_config(c: TpuConfig)
    requires
        mmu_config_check(c.mmu) is Ok,
        vmem_config_check(c.vmem) is Ok,
    ensures
        c.mmu.num_rows > 0,
        c.mmu.num_cols > 0,
        supported_bitw(c.mmu.pe.act_bitw),
        supported_bitw(c.mmu.pe.psum_bitw),
        c.mmu.pe.act_bitw <= c.mmu.pe.psum_bitw,
        c.vmem.size > 0,
{
}

/// The word widths accepted are exactly 8, 16, 32 and 64 bits: a
/// processing-element configuration passes just when both widths are among
/// them and partial sums are at least as wide as activations; any other
/// activation width is reported as such, and so is any other partial-sum
/// width once the activation width passes.
pub proof fn lemma_pe_config_widths(c: PeConfig)
    ensures
        pe_config_check(c) is Ok <==> {
            &&& (c.act_bitw == 8 || c.act_bitw == 16 || c.act_bitw == 32 || c.act_bitw == 64)
            &&& (c.psum_bitw == 8 || c.psum_bitw == 16 || c.psum_bitw == 32 || c.psum_bitw == 64)
            &&& c.act_bitw <= c.psum_bitw
        },
        !(c.act_bitw == 8 || c.act_bitw == 16 || c.act_bitw == 32 || c.act_bitw == 64) ==> pe_config_check(c)
            == Err::<(), PeConfigError>(PeConfigError::InvalidActBitw(c.act_bitw)),
        (c.act_bitw == 8 || c.act_bitw == 16 || c.act_bitw == 32 || c.act_bitw == 64) && !(c.psum_bitw == 8
            || c.psum_bitw == 16 || c.psum_bitw == 32 || c.psum_bitw == 64) ==> pe_config_check(c)
            == Err::<(), PeConfigError>(PeConfigError::InvalidPsumBitw(c.psum_bitw)),
        (c.act_bitw == 8 || c.act_bitw == 16 || c.act_bitw == 32 || c.act_bitw == 64) && (c.psum_bitw == 8
            || c.psum_bitw == 16 || c.psum_bitw == 32 || c.psum_bitw == 64) && c.psum_bitw < c.act_bitw
            ==> pe_config_check(c) == Err::<(), PeConfigError>(
            PeConfigError::IncompatibleBitw { act_bitw: c.act_bitw, psum_bitw: c.psum_bitw },
        ),
{
}

/// A hardware configuration passes exactly when the array has at least one
/// row and one column, both word widths are 8, 16, 32 or 64 bits with
/// partial sums at least as wide as activations, and the memory holds at
/// least one word; an unsupported activation width in an array of non-zero
/// size is reported as that width, through the array's error.
pub proof fn lemma_config_accepted(c: TpuConfig)
    ensures
        (mmu_config_check(c.mmu) is Ok && vmem_config_check(c.vmem) is Ok) <==> {
            &&& c.mmu.num_rows > 0
            &&& c.mmu.num_cols > 0
            &&& (c.mmu.pe.act_bitw == 8 || c.mmu.pe.act_bitw == 16 || c.mmu.pe.act_bitw == 32 || c.mmu.pe.act_bitw == 64)
            &&& (c.mmu.pe.psum_bitw == 8 || c.mmu.pe.psum_bitw == 16 || c.mmu.pe.psum_bitw == 32 || c.mmu.pe.psum_bitw == 64)
            &&& c.mmu.pe.act_bitw <= c.mmu.pe.psum_bitw
            &&& c.vmem.size > 0
        },
        c.mmu.num_rows > 0 && c.mmu.num_cols > 0 && !(c.mmu.pe.act_bitw == 8 || c.mmu.pe.act_bitw == 16
            || c.mmu.pe.act_bitw == 32 || c.mmu.pe.act_bitw == 64) ==> mmu_config_check(c.mmu)
            == Err::<(), MmuConfigError>(MmuConfigError::PeConfig(PeConfigError::InvalidActBitw(c.mmu.pe.act_bitw))),
        c.mmu.num_rows == 0 || c.mmu.num_cols == 0 ==> mmu_config_check(c.mmu) == Err::<(), MmuConfigError>(
            MmuConfigError::InvalidDimensions { rows: c.mmu.num_rows, cols: c.mmu.num_cols },
        ),
        c.vmem.size == 0 ==> vmem_config_check(c.vmem) == Err::<(), VmemConfigError>(VmemConfigError::InvalidSize(0)),
{
    lemma_pe_config_widths(c.mmu.pe);
}

impl TpuConfig {
    /// Checks the array configuration, then the memory configuration.
    pub fn validate(&self) -> (r: Result<(), TpuConfigError>)
        ensures
            match mmu_config_check(self.mmu) {
                Err(e) => r == Err::<(), TpuConfigError>(TpuConfigError::MmuConfig(e)),
                Ok(()) => match vmem_config_check(self.vmem) {
                    Err(e) => r == Err::<(), TpuConfigError>(TpuConfigError::VmemConfig(e)),
                    Ok(()) => r is Ok,
                },
            },
            r is Ok <==> {
                &&& self.mmu.num_rows > 0
                &&& self.mmu.num_cols > 0
                &&& (self.mmu.pe.act_bitw == 8 || self.mmu.pe.act_bitw == 16 || self.mmu.pe.act_bitw == 32
                    || self.mmu.pe.act_bitw == 64)
                &&& (self.mmu.pe.psum_bitw == 8 || self.mmu.pe.psum_bitw == 16 || self.mmu.pe.psum_bitw == 32
                    || self.mmu.pe.psum_bitw == 64)
                &&& self.mmu.pe.act_bitw <= self.mmu.pe.psum_bitw
                &&& self.vmem.size > 0
            },
    {
        proof {
            lemma_config_accepted(*self);
        }
        match self.mmu.validate() {
            Ok(()) => {},
            Err(e) => return Err(TpuConfigError::MmuConfig(e)),
        }
        match self.vmem.validate() {
            Ok(()) => {},
            Err(e) => return Err(TpuConfigError::VmemConfig(e)),
        }
        Ok(())
    }
}

impl MmuConfig {
    pub fn validate(&self) -> (r: Result<(), MmuConfigError>)
        ensures
            r == mmu_config_check(*self),
    {
        if self.num_rows == 0 || self.num_cols == 0 {
            return Err(MmuConfigError::InvalidDimensions { rows: self.num_rows, cols: self.num_cols });
        }
        match self.pe.validate() {
            Ok(()) => {},
            Err(e) => return Err(MmuConfigError::PeConfig(e)),
        }
        Ok(())
    }
}

impl PeConfig {
    pub fn validate(&self) -> (r: Result<(), PeConfigError>)
        ensures
            r == pe_config_check(*self),
            r is Ok <==> {
                &&& (self.act_bitw == 8 || self.act_bitw == 16 || self.act_bitw == 32 || self.act_bitw == 64)
                &&& (self.psum_bitw == 8 || self.psum_bitw == 16 || self.psum_bitw == 32 || self.psum_bitw == 64)
                &&& self.act_bitw <= self.psum_bitw
            },
            !(self.act_bitw == 8 || self.act_bitw == 16 || self.act_bitw == 32 || self.act_bitw == 64) ==> r
                == Err::<(), PeConfigError>(PeConfigError::InvalidActBitw(self.act_bitw)),
    {
        match self.act_bitw {
            8 | 16 | 32 | 64 => {},
            _ => return Err(PeConfigError::InvalidActBitw(self.act_bitw)),
        }
        match self.psum_bitw {
            8 | 16 | 32 | 64 => {},
            _ => return Err(PeConfigError::InvalidPsumBitw(self.psum_bitw)),
        }
        if self.psum_bitw < self.act_bitw {
            return Err(PeConfigError::IncompatibleBitw { act_bitw: self.act_bitw, psum_bitw: self.psum_bitw });
        }
        Ok(())
    }
}

impl VmemConfig {
    pub fn validate(&self) -> (r: Result<(), VmemConfigError>)
        ensures
            r == vmem_config_check(*self),
    {
        if self.size == 0 {
            return Err(VmemConfigError::InvalidSize(self.size));
        }
        Ok(())
    }
}

} // verus!
