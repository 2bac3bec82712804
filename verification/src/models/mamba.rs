//! Configuration of the Mamba state-space model used to fuse expert outputs.
use vstd::prelude::*;

verus! {

/// Mamba configuration.
#[derive(Debug, Clone)]
pub struct MambaConfig {
    /// Model dimension
    pub d_model: usize,
    /// State dimension
    pub d_state: usize,
    /// Expansion factor (`d_inner = d_model * expand`)
    pub expand: usize,
    /// Rank of the step-size projection
    pub dt_rank: usize,
    /// Local convolution kernel size
    pub conv_kernel: usize,
}

/// Parameters of the model: input projection, local convolution, the three
/// state projections, output projection and skip connection.
pub open spec fn mamba_param_count(d_model: int, d_inner: int, d_state: int) -> int {
    d_model * d_inner + d_inner * d_inner + d_inner * d_state * 3 + d_inner * d_model * 2
}

impl MambaConfig {
    /// Builds a configuration from its fields.
    pub fn new(d_model: usize, d_state: usize, expand: usize, dt_rank: usize, conv_kernel: usize) -> (c: MambaConfig)
        ensures
            c.d_model == d_model,
            c.d_state == d_state,
            c.expand == expand,
            c.dt_rank == dt_rank,
            c.conv_kernel == conv_kernel,
    {
        MambaConfig { d_model, d_state, expand, dt_rank, conv_kernel }
    }

    /// Small model: 128-dimensional, 16 states, expansion 2.
    pub fn small() -> (c: MambaConfig)
        ensures
            c.d_model == 128,
            c.d_state == 16,
            c.expand == 2,
            c.dt_rank == 16,
            c.conv_kernel == 4,
    {
        Self::new(128, 16, 2, 16, 4)
    }

    /// Medium model: 256-dimensional.
    pub fn medium() -> (c: MambaConfig)
        ensures
            c.d_model == 256,
            c.d_state == 16,
            c.expand == 2,
            c.dt_rank == 32,
            c.conv_kernel == 4,
    {
        Self::new(256, 16, 2, 32, 4)
    }

    /// The inner dimension of the model built from this configuration.
    pub fn d_inner(&self) -> (d: usize)
        requires
            self.d_model * self.expand <= usize::MAX,
        ensures
            d == self.d_model * self.expand,
    {
        self.d_model * self.expand
    }

    /// Estimated parameter count of the model built from this configuration.
    pub fn param_count(&self) -> (n: usize)
        requires
            self.d_model * self.expand <= usize::MAX,
            mamba_param_count(self.d_model as int, self.d_model * self.expand, self.d_state as int) <= usize::MAX,
        ensures
            n == mamba_param_count(self.d_model as int, self.d_model * self.expand, self.d_state as int),
    {
        let d_model = self.d_model as u128;
        let d_inner = self.d_inner() as u128;
        let d_state = self.d_state as u128;
        assert(d_model * d_inner <= 0xffff_ffff_ffff_ffff_ffff_ffff_ffff_ffffu128) by (nonlinear_arith)
            requires d_model <= 0xffff_ffff_ffff_ffffu128, d_inner <= 0xffff_ffff_ffff_ffffu128;
        assert(d_inner * d_inner <= 0xffff_ffff_ffff_ffff_ffff_ffff_ffff_ffffu128) by (nonlinear_arith)
            requires d_inner <= 0xffff_ffff_ffff_ffffu128;
        assert(d_inner * d_state <= 0xffff_ffff_ffff_ffff_ffff_ffff_ffff_ffffu128) by (nonlinear_arith)
            requires d_state <= 0xffff_ffff_ffff_ffffu128, d_inner <= 0xffff_ffff_ffff_ffffu128;
        assert(d_model * d_inner + d_inner * d_inner + d_inner * d_state * 3 + d_inner * d_model * 2 <= usize::MAX) by (nonlinear_arith)
            requires
                mamba_param_count(d_model as int, d_inner as int, d_state as int) <= usize::MAX;
        let total: u128 = d_model * d_inner + d_inner * d_inner + d_inner * d_state * 3 + d_inner * d_model * 2;
        total as usize
    }
}

} // verus!
