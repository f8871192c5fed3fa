//! A coarse guess of what kind of contract a source is, from the words it uses,
//! and which patterns do not apply to a kind.
use vstd::prelude::*;
use crate::text::{contains, str_has, lowercase, to_lowercase, str_eq};

verus! {

/// The kind of a contract.
#[derive(Debug, Clone, Copy, PartialEq, Eq, Structural)]
pub enum ContractType {
    Token,
    NFT,
    DEX,
    Lending,
    Staking,
    Governance,
    Unknown,
}

/// Guesses the kind of a contract.
pub struct ContractTypeDetector;

/// The kind of a contract whose lower-cased source is `l`: the first of these
/// rules that applies.
pub open spec fn contract_type_of(l: Seq<char>) -> ContractType {
    if str_has(l, "erc721"@) || str_has(l, "erc1155"@) {
        ContractType::NFT
    } else if (str_has(l, "uniswap"@) || str_has(l, "swap"@) || str_has(l, "pool"@))
        && (str_has(l, "sqrtpricex96"@) || str_has(l, "slot0"@) || str_has(l, "liquidity"@)) {
        ContractType::DEX
    } else if str_has(l, "erc20"@) || (str_has(l, "transfer"@) && str_has(l, "balanceof"@)) {
        ContractType::Token
    } else if str_has(l, "borrow"@) || str_has(l, "collateral"@) || str_has(l, "liquidate"@) {
        ContractType::Lending
    } else if str_has(l, "stake"@) || str_has(l, "reward"@) {
        ContractType::Staking
    } else if str_has(l, "propose"@) || str_has(l, "vote"@) || str_has(l, "timelock"@) {
        ContractType::Governance
    } else {
        ContractType::Unknown
    }
}

/// How a contract is classified from its lower-cased source `l`: NFT when it
/// mentions `erc721` or `erc1155`; otherwise DEX when it names a swap or pool
/// and a pool state (`sqrtpricex96`, `slot0`, `liquidity`); otherwise Token
/// when it mentions `erc20` or both `transfer` and `balanceof`; otherwise
/// Lending when it mentions `borrow`, `collateral` or `liquidate`; otherwise
/// Staking for `stake` or `reward`; otherwise Governance for `propose`,
/// `vote` or `timelock`; and Unknown when it mentions none of these.
pub proof fn law_contract_type_rules(l: Seq<char>)
    ensures
        ({
            let nft = str_has(l, "erc721"@) || str_has(l, "erc1155"@);
            let dex = (str_has(l, "uniswap"@) || str_has(l, "swap"@) || str_has(l, "pool"@))
                && (str_has(l, "sqrtpricex96"@) || str_has(l, "slot0"@) || str_has(l, "liquidity"@));
            let token = str_has(l, "erc20"@) || (str_has(l, "transfer"@) && str_has(l, "balanceof"@));
            let lending = str_has(l, "borrow"@) || str_has(l, "collateral"@) || str_has(l, "liquidate"@);
            let staking = str_has(l, "stake"@) || str_has(l, "reward"@);
            let governance = str_has(l, "propose"@) || str_has(l, "vote"@) || str_has(l, "timelock"@);
            let t = contract_type_of(l);
            &&& (t == ContractType::NFT) <==> nft
            &&& (t == ContractType::DEX) <==> (!nft && dex)
            &&& (t == ContractType::Token) <==> (!nft && !dex && token)
            &&& (t == ContractType::Lending) <==> (!nft && !dex && !token && lending)
            &&& (t == ContractType::Staking) <==> (!nft && !dex && !token && !lending && staking)
            &&& (t == ContractType::Governance) <==> (!nft && !dex && !token && !lending && !staking && governance)
            &&& (t == ContractType::Unknown) <==> (!nft && !dex && !token && !lending && !staking && !governance)
        }),
{
}

/// Whether a pattern is left out for a kind of contract: price patterns of
/// exchanges and token-pricing patterns for NFTs, mint and burn patterns for
/// exchanges.
pub open spec fn skipped_for(t: ContractType, id: Seq<char>) -> bool {
    match t {
        ContractType::NFT => id == "sqrt-price-no-bounds"@ || id == "uniswap-getamountout-no-twap"@
            || id == "price-from-single-pool"@ || id == "spot-price-from-reserves"@
            || id == "balanceof-this-pricing"@,
        ContractType::DEX => id == "external-mint-no-modifier"@ || id == "external-burn-no-modifier"@,
        _ => false,
    }
}

/// Which patterns are skipped: for NFT contracts the five pricing patterns,
/// for DEX contracts the unguarded mint and burn patterns, for any other
/// kind none.
pub proof fn law_skip_rules(t: ContractType, id: Seq<char>)
    ensures
        skipped_for(t, id) <==> ((t == ContractType::NFT && (id == "sqrt-price-no-bounds"@
            || id == "uniswap-getamountout-no-twap"@ || id == "price-from-single-pool"@
            || id == "spot-price-from-reserves"@ || id == "balanceof-this-pricing"@)) || (t == ContractType::DEX && (id
            == "external-mint-no-modifier"@ || id == "external-burn-no-modifier"@))),
{
}

impl ContractTypeDetector {
    /// The kind of a contract, judged on its lower-cased source.
    pub fn detect(source: &str) -> (r: ContractType)
        ensures
            r == contract_type_of(lowercase(source@)),
    {
        let lower = to_lowercase(source);
        Self::detect_lowercased(lower.as_str())
    }

    /// The kind of a contract whose source has already been lower-cased.
    pub fn detect_lowercased(lower: &str) -> (r: ContractType)
        ensures
            r == contract_type_of(lower@),
    {
        if contains(lower, "erc721") || contains(lower, "erc1155") {
            return ContractType::NFT;
        }
        if (contains(lower, "uniswap") || contains(lower, "swap") || contains(lower, "pool"))
            && (contains(lower, "sqrtpricex96") || contains(lower, "slot0") || contains(lower, "liquidity"))
        {
            return ContractType::DEX;
        }
        if contains(lower, "erc20") || (contains(lower, "transfer") && contains(lower, "balanceof")) {
            return ContractType::Token;
        }
        if contains(lower, "borrow") || contains(lower, "collateral") || contains(lower, "liquidate") {
            return ContractType::Lending;
        }
        if contains(lower, "stake") || contains(lower, "reward") {
            return ContractType::Staking;
        }
        if contains(lower, "propose") || contains(lower, "vote") || contains(lower, "timelock") {
            return ContractType::Governance;
        }
        ContractType::Unknown
    }

    /// Whether the pattern `pattern_id` does not apply to contracts of kind
    /// `contract_type`.
    pub fn should_skip_pattern(contract_type: ContractType, pattern_id: &str) -> (r: bool)
        ensures
            r == skipped_for(contract_type, pattern_id@),
    {
        match contract_type {
            ContractType::NFT => str_eq(pattern_id, "sqrt-price-no-bounds")
                || str_eq(pattern_id, "uniswap-getamountout-no-twap")
                || str_eq(pattern_id, "price-from-single-pool")
                || str_eq(pattern_id, "spot-price-from-reserves")
                || str_eq(pattern_id, "balanceof-this-pricing"),
            ContractType::DEX => str_eq(pattern_id, "external-mint-no-modifier")
                || str_eq(pattern_id, "external-burn-no-modifier"),
            _ => false,
        }
    }
}

} // verus!
