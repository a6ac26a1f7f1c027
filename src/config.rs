use vstd::prelude::*;

verus! {

/// Sizes that govern a growable object file, all in bytes.
#[derive(Clone, Copy, Debug, PartialEq, Eq, Structural)]
pub struct MmapFileConfig {
    /// Hard ceiling on the mapped capacity.
    pub max_size: usize,
    /// Increment by which the capacity grows.
    pub growth_step: usize,
    /// Upper bound on the length of one serialized record.
    pub max_object_size: usize,
}

/// Why a configuration was rejected.
#[derive(Clone, Copy, Debug, PartialEq, Eq, Structural)]
pub enum ConfigError {
    /// `growth_step` cannot hold one record of the largest size.
    GrowthStepTooSmall,
    /// `max_size` leaves no room to grow beyond the first step.
    MaxSizeTooSmall,
}

impl MmapFileConfig {
    /// A configuration is valid when `max_object_size < growth_step < max_size`.
    pub open spec fn valid(&self) -> bool {
        self.max_object_size < self.growth_step && self.growth_step < self.max_size
    }

    /// The outcome of checking the configuration: the step is checked against the
    /// record size first, then the ceiling against the step.
    pub open spec fn check(&self) -> Result<(), ConfigError> {
        if self.growth_step <= self.max_object_size {
            Err(ConfigError::GrowthStepTooSmall)
        } else if self.max_size <= self.growth_step {
            Err(ConfigError::MaxSizeTooSmall)
        } else {
            Ok(())
        }
    }

    /// Checks the relation between the three sizes.
    pub fn validate(&self) -> (r: Result<(), ConfigError>)
        ensures
            r == self.check(),
            r is Ok <==> self.valid(),
    {
        if self.growth_step <= self.max_object_size {
            Err(ConfigError::GrowthStepTooSmall)
        } else if self.max_size <= self.growth_step {
            Err(ConfigError::MaxSizeTooSmall)
        } else {
            Ok(())
        }
    }
}

/// A valid configuration with a 16 MiB ceiling, 1 MiB steps and records of up to 256 bytes.
pub fn get_test_config() -> (r: MmapFileConfig)
    ensures
        r.max_size == 0x100_0000,
        r.growth_step == 0x10_0000,
        r.max_object_size == 0x100,
        r.valid(),
{
    MmapFileConfig { max_size: 0x100_0000, growth_step: 0x10_0000, max_object_size: 0x100 }
}

} // verus!
