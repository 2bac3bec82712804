//! The schools and dimensions of the symbolic ethics system.
use vstd::prelude::*;

verus! {

/// Schools of ethics that the gateway weighs.
#[derive(Debug, Clone, Copy, PartialEq, Eq, Structural, Hash)]
pub enum EthicsSchool {
    /// Utilitarianism (consequences)
    Utilitarianism,
    /// Deontology (rules)
    Deontology,
    /// Virtue ethics (character)
    VirtueEthics,
    /// Confucian ethics (relationships)
    Confucian,
    /// Care ethics (care)
    CareEthics,
}

/// Dimensions along which a decision is scored.
#[derive(Debug, Clone, Copy, PartialEq, Eq, Structural, Hash)]
pub enum EthicsDimension {
    /// Safety (can it cause harm)
    Safety,
    /// Fairness (are all parties treated fairly)
    Fairness,
    /// Transparency (can it be explained)
    Transparency,
    /// Autonomy (does it respect free choice)
    Autonomy,
    /// Privacy (does it protect privacy)
    Privacy,
    /// Trustworthiness (can it be trusted)
    Trustworthiness,
}

/// All dimensions, in declaration order.
pub open spec fn all_dimensions() -> Seq<EthicsDimension> {
    seq![
        EthicsDimension::Safety,
        EthicsDimension::Fairness,
        EthicsDimension::Transparency,
        EthicsDimension::Autonomy,
        EthicsDimension::Privacy,
        EthicsDimension::Trustworthiness,
    ]
}

/// The display name of a dimension.
pub open spec fn dimension_name(d: EthicsDimension) -> Seq<char> {
    match d {
        EthicsDimension::Safety => "安全性"@,
        EthicsDimension::Fairness => "公平性"@,
        EthicsDimension::Transparency => "透明度"@,
        EthicsDimension::Autonomy => "自主权"@,
        EthicsDimension::Privacy => "隐私"@,
        EthicsDimension::Trustworthiness => "可信赖"@,
    }
}

impl EthicsDimension {
    /// All dimensions.
    pub fn all() -> (v: Vec<EthicsDimension>)
        ensures
            v@ == all_dimensions(),
    {
        let mut v: Vec<EthicsDimension> = Vec::new();
        v.push(EthicsDimension::Safety);
        v.push(EthicsDimension::Fairness);
        v.push(EthicsDimension::Transparency);
        v.push(EthicsDimension::Autonomy);
        v.push(EthicsDimension::Privacy);
        v.push(EthicsDimension::Trustworthiness);
        assert(v@ =~= all_dimensions());
        v
    }

    /// The display name of the dimension.
    pub fn name(&self) -> (s: &'static str)
        ensures
            s@ == dimension_name(*self),
    {
        match self {
            EthicsDimension::Safety => "安全性",
            EthicsDimension::Fairness => "公平性",
            EthicsDimension::Transparency => "透明度",
            EthicsDimension::Autonomy => "自主权",
            EthicsDimension::Privacy => "隐私",
            EthicsDimension::Trustworthiness => "可信赖",
        }
    }
}

/// Every dimension occurs exactly once in `all()`.
pub proof fn lemma_all_dimensions_once(d: EthicsDimension)
    ensures
        all_dimensions().contains(d),
        forall|i: int, j: int| 0 <= i < j < 6 ==> all_dimensions()[i] != all_dimensions()[j],
{
    let a = all_dimensions();
    match d {
        EthicsDimension::Safety => assert(a[0] == d),
        EthicsDimension::Fairness => assert(a[1] == d),
        EthicsDimension::Transparency => assert(a[2] == d),
        EthicsDimension::Autonomy => assert(a[3] == d),
        EthicsDimension::Privacy => assert(a[4] == d),
        EthicsDimension::Trustworthiness => assert(a[5] == d),
    }
}

} // verus!
