//! Configuration of the variational auto-encoder used as memory.
use vstd::prelude::*;

verus! {

/// VAE configuration.
#[derive(Debug, Clone)]
pub struct VaeConfig {
    /// Input dimension
    pub input_dim: usize,
    /// Encoder hidden dimension
    pub hidden_dim: usize,
    /// Latent dimension
    pub latent_dim: usize,
    /// Decoder hidden dimension
    pub decoder_hidden_dim: usize,
}

/// Parameters of the auto-encoder, counted with a hidden width of 64:
/// encoder layer, mean and log-variance projections, decoder layers.
pub open spec fn vae_param_count(input_dim: int, latent_dim: int) -> int {
    input_dim * 64 + 64 + 64 * latent_dim * 2 + latent_dim * 2 + latent_dim * 64 + 64 + 64 * input_dim + input_dim
}

impl VaeConfig {
    /// Builds a configuration from its fields.
    pub fn new(input_dim: usize, hidden_dim: usize, latent_dim: usize, decoder_hidden_dim: usize) -> (c: VaeConfig)
        ensures
            c.input_dim == input_dim,
            c.hidden_dim == hidden_dim,
            c.latent_dim == latent_dim,
            c.decoder_hidden_dim == decoder_hidden_dim,
    {
        VaeConfig { input_dim, hidden_dim, latent_dim, decoder_hidden_dim }
    }

    /// Default: 128 -> 64 -> 16 (latent).
    pub fn default() -> (c: VaeConfig)
        ensures
            c.input_dim == 128,
            c.hidden_dim == 64,
            c.latent_dim == 16,
            c.decoder_hidden_dim == 64,
    {
        Self::new(128, 64, 16, 64)
    }

    /// Long-term memory: larger latent space.
    pub fn memory() -> (c: VaeConfig)
        ensures
            c.input_dim == 256,
            c.hidden_dim == 128,
            c.latent_dim == 32,
            c.decoder_hidden_dim == 128,
    {
        Self::new(256, 128, 32, 128)
    }

    /// Estimated parameter count of the auto-encoder built from this
    /// configuration (the count assumes a hidden width of 64).
    pub fn param_count(&self) -> (n: usize)
        requires
            vae_param_count(self.input_dim as int, self.latent_dim as int) <= usize::MAX,
        ensures
            n == vae_param_count(self.input_dim as int, self.latent_dim as int),
    {
        let input_dim = self.input_dim as u128;
        let hidden_dim: u128 = 64;
        let latent_dim = self.latent_dim as u128;
        let total: u128 = input_dim * hidden_dim + hidden_dim + hidden_dim * latent_dim * 2 + latent_dim * 2
            + latent_dim * hidden_dim + hidden_dim + hidden_dim * input_dim + input_dim;
        total as usize
    }
}

} // verus!
