//! Security categories recognised by the character-level TextCNN classifier.
use vstd::prelude::*;

verus! {

/// Security classification categories (CICIDS2017 style).
#[derive(Debug, Clone, Copy, PartialEq, Eq, Structural)]
pub enum SecurityCategory {
    /// Normal traffic
    Normal,
    /// DoS attack
    DoS,
    /// DDoS attack
    DDoS,
    /// Port scan
    PortScan,
    /// Brute force
    BruteForce,
    /// Web attack
    WebAttack,
    /// Infiltration
    Infiltration,
    /// Botnet
    Botnet,
    /// FTP-Patator
    FtpPatator,
    /// SSH-Patator
    SshPatator,
    /// Heartbleed
    Heartbleed,
    /// SQL injection
    SqlInjection,
    /// XSS
    Xss,
    /// Buffer overflow
    BufferOverflow,
    /// Anything else
    Other,
}

/// The category that a classifier output index stands for: indices 0 to 13
/// name the categories in declaration order, every other index is `Other`.
pub open spec fn category_at(index: int) -> SecurityCategory {
    if index == 0 { SecurityCategory::Normal }
    else if index == 1 { SecurityCategory::DoS }
    else if index == 2 { SecurityCategory::DDoS }
    else if index == 3 { SecurityCategory::PortScan }
    else if index == 4 { SecurityCategory::BruteForce }
    else if index == 5 { SecurityCategory::WebAttack }
    else if index == 6 { SecurityCategory::Infiltration }
    else if index == 7 { SecurityCategory::Botnet }
    else if index == 8 { SecurityCategory::FtpPatator }
    else if index == 9 { SecurityCategory::SshPatator }
    else if index == 10 { SecurityCategory::Heartbleed }
    else if index == 11 { SecurityCategory::SqlInjection }
    else if index == 12 { SecurityCategory::Xss }
    else if index == 13 { SecurityCategory::BufferOverflow }
    else { SecurityCategory::Other }
}

/// The position of a category in declaration order.
pub open spec fn category_index(c: SecurityCategory) -> int {
    match c {
        SecurityCategory::Normal => 0,
        SecurityCategory::DoS => 1,
        SecurityCategory::DDoS => 2,
        SecurityCategory::PortScan => 3,
        SecurityCategory::BruteForce => 4,
        SecurityCategory::WebAttack => 5,
        SecurityCategory::Infiltration => 6,
        SecurityCategory::Botnet => 7,
        SecurityCategory::FtpPatator => 8,
        SecurityCategory::SshPatator => 9,
        SecurityCategory::Heartbleed => 10,
        SecurityCategory::SqlInjection => 11,
        SecurityCategory::Xss => 12,
        SecurityCategory::BufferOverflow => 13,
        SecurityCategory::Other => 14,
    }
}

impl SecurityCategory {
    /// Converts a classifier output index into a category.
    pub fn from_index(index: usize) -> (c: SecurityCategory)
        ensures
            c == category_at(index as int),
    {
        match index {
            0 => SecurityCategory::Normal,
            1 => SecurityCategory::DoS,
            2 => SecurityCategory::DDoS,
            3 => SecurityCategory::PortScan,
            4 => SecurityCategory::BruteForce,
            5 => SecurityCategory::WebAttack,
            6 => SecurityCategory::Infiltration,
            7 => SecurityCategory::Botnet,
            8 => SecurityCategory::FtpPatator,
            9 => SecurityCategory::SshPatator,
            10 => SecurityCategory::Heartbleed,
            11 => SecurityCategory::SqlInjection,
            12 => SecurityCategory::Xss,
            13 => SecurityCategory::BufferOverflow,
            _ => SecurityCategory::Other,
        }
    }

    /// The number of categories.
    pub fn count() -> (n: usize)
        ensures
            n == 15,
    {
        15
    }
}

/// The convolution parameters of filters with the first `n` kernel sizes,
/// for 128-dimensional embeddings.
pub open spec fn conv_params(num_filters: int, kernel_sizes: Seq<usize>, n: int) -> int
    decreases n,
{
    if n <= 0 {
        0
    } else {
        conv_params(num_filters, kernel_sizes, n - 1) + num_filters * kernel_sizes[n - 1] * 128
    }
}

/// Estimated parameter count of a TextCNN with `num_filters` filters per
/// kernel size: the convolutions (128-dimensional embeddings) and the
/// classifier (counted for 5 classes).
pub fn param_count(num_filters: usize, kernel_sizes: &[usize]) -> (n: usize)
    requires
        conv_params(num_filters as int, kernel_sizes@, kernel_sizes@.len() as int)
            + num_filters * kernel_sizes@.len() * 5 <= usize::MAX,
    ensures
        n == conv_params(num_filters as int, kernel_sizes@, kernel_sizes@.len() as int)
            + num_filters * kernel_sizes@.len() * 5,
{
    let embed_dim: u128 = 128;
    let filters = num_filters as u128;
    let count = kernel_sizes.len();
    let ghost total = conv_params(num_filters as int, kernel_sizes@, count as int) + num_filters * count * 5;
    let mut conv: u128 = 0;
    for k in 0..count
        invariant
            count == kernel_sizes@.len(),
            filters == num_filters,
            embed_dim == 128,
            total == conv_params(num_filters as int, kernel_sizes@, count as int) + num_filters * count * 5,
            total <= usize::MAX,
            conv == conv_params(num_filters as int, kernel_sizes@, k as int),
    {
        proof {
            lemma_conv_params_grow(num_filters as int, kernel_sizes@, k + 1, count as int);
            assert(num_filters * count * 5 >= 0) by (nonlinear_arith);
        }
        let size = kernel_sizes[k] as u128;
        assert(filters * size <= 0xffff_ffff_ffff_ffff_ffff_ffff_ffff_ffffu128) by (nonlinear_arith)
            requires filters <= 0xffff_ffff_ffff_ffffu128, size <= 0xffff_ffff_ffff_ffffu128;
        assert(conv + filters * size * embed_dim <= usize::MAX);
        conv = conv + filters * size * embed_dim;
    }
    assert(filters * (count as u128) <= 0xffff_ffff_ffff_ffff_ffff_ffff_ffff_ffffu128) by (nonlinear_arith)
        requires filters <= 0xffff_ffff_ffff_ffffu128, count <= 0xffff_ffff_ffff_ffffu128;
    let fc: u128 = filters * (count as u128) * 5;
    (conv + fc) as usize
}

/// Convolution parameters grow with the number of kernel sizes counted.
pub proof fn lemma_conv_params_grow(num_filters: int, kernel_sizes: Seq<usize>, n: int, m: int)
    requires
        0 <= num_filters,
        0 <= n <= m <= kernel_sizes.len(),
    ensures
        conv_params(num_filters, kernel_sizes, n) <= conv_params(num_filters, kernel_sizes, m),
    decreases m,
{
    if n < m {
        lemma_conv_params_grow(num_filters, kernel_sizes, n, m - 1);
        assert(num_filters * kernel_sizes[m - 1] * 128 >= 0) by (nonlinear_arith)
            requires 0 <= num_filters, 0 <= kernel_sizes[m - 1];
    }
}

/// Every category is reached by exactly its own index, and every index below
/// `count()` names a category: `from_index` is a bijection from `0..15` onto
/// the categories.
pub proof fn lemma_category_index_round_trip(c: SecurityCategory, index: int)
    ensures
        category_at(category_index(c)) == c,
        0 <= category_index(c) < 15,
        0 <= index < 15 ==> category_index(category_at(index)) == index,
{
}

} // verus!
