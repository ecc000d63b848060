//! The exchange's data model and the rules of each database operation.
//!
//! Every operation of the cohort database reads rows, decides, and writes
//! rows.  The deciding happens here, on plain values; the reading and
//! writing stays with the caller.
use vstd::prelude::*;

use crate::text::str_eq;

pub mod accounts;
pub mod auctions;
pub mod credits;
pub mod gifts;
pub mod markets;
pub mod orders;
pub mod portfolio;
pub mod positions;
pub mod settlement;
pub mod transfers;

verus! {

/// The side of an order.
#[derive(Clone, Copy, Debug, PartialEq, Eq, Structural)]
pub enum Side {
    Bid,
    Offer,
}

/// The text a side is stored as.
pub open spec fn spec_side_text(side: Side) -> Seq<char> {
    match side {
        Side::Bid => "bid"@,
        Side::Offer => "offer"@,
    }
}

/// The side stored as `s`, if `s` names one.
pub open spec fn spec_side_from_text(s: Seq<char>) -> Option<Side> {
    if s == "bid"@ {
        Some(Side::Bid)
    } else if s == "offer"@ {
        Some(Side::Offer)
    } else {
        None
    }
}

impl Side {
    /// The text the side is stored as: `bid` or `offer`.
    pub fn text(&self) -> (r: &'static str)
        ensures
            r@ == spec_side_text(*self),
    {
        match self {
            Side::Bid => "bid",
            Side::Offer => "offer",
        }
    }

    /// The side stored as `s`; `None` for any other text.
    pub fn from_text(s: &str) -> (r: Option<Side>)
        ensures
            r == spec_side_from_text(s@),
    {
        if str_eq(s, "bid") {
            Some(Side::Bid)
        } else if str_eq(s, "offer") {
            Some(Side::Offer)
        } else {
            None
        }
    }
}

/// Reading back the text a side is stored as gives the side again, and no
/// two sides are stored alike.
pub proof fn lemma_side_text_round_trip(side: Side)
    ensures
        spec_side_from_text(spec_side_text(side)) == Some(side),
{
    reveal_strlit("bid");
    reveal_strlit("offer");
    assert("bid"@ != "offer"@) by {
        assert("bid"@[0] != "offer"@[0]);
    }
}

/// A resting or newly placed order. Sizes and prices are in cents.
#[derive(Clone, Copy, Debug)]
pub struct Order {
    pub id: i64,
    pub market_id: i64,
    pub owner_id: i64,
    pub transaction_id: i64,
    pub size: i128,
    pub price: i128,
    pub side: Side,
}

/// One order's part in a match: how much of it traded and how much is left.
#[derive(Clone, Copy, Debug)]
pub struct OrderFill {
    pub id: i64,
    pub market_id: i64,
    pub owner_id: i64,
    pub size_filled: i128,
    pub size_remaining: i128,
    pub price: i128,
    pub side: Side,
}

} // verus!

verus! {

/// Why a request was refused.
#[derive(Clone, Copy, Debug, PartialEq, Eq, Structural)]
pub enum ValidationFailure {
    // Market related
    MarketNotFound,
    MarketSettled,
    MarketPaused,
    InvalidMarketStatus,
    MarketNotRedeemable,
    InvalidSettlement,
    InvalidSettlementPrice,
    ConstituentNotFound,
    ConstituentSettled,
    ConstituentNotSettled,
    InvalidMultiplier,
    InvalidRedeemFee,
    NotMarketOwner,

    // Order related
    OrderNotFound,
    NotOrderOwner,
    InvalidPrice,
    InvalidSize,
    NoSideProvided,

    // Account related
    AccountNotFound,
    AccountNotOwned,
    SameAccount,
    InitiatorNotUser,
    OwnerNotAUser,
    RecipientNotAUser,
    NotOwner,
    AlreadyOwner,
    EmptyName,
    NameAlreadyExists,
    NameSuffixExhausted,
    InvalidAccountColor,
    InvalidOwner,
    OwnerInDifferentUniverse,
    OwnerMustBeUser,
    NoNameProvidedForNewUser,
    AccountNotShared,
    CreditRemaining,

    // Balance/Funds related
    InsufficientFunds,
    InsufficientCredit,
    InvalidAmount,
    SharedOwnershipAccountHasOpenPositions,
    AuctionNotFound,
    AuctionSettled,
    NotAuctionOwner,
    BuyerIsSeller,
    SudoRequired,
    VisibleToAccountNotFound,

    // Category related
    MarketTypeNotFound,
    MarketTypeNotPublic,
    MarketTypeNameExists,
    CannotDeleteLastMarketType,

    // Group related
    MarketGroupNotFound,
    MarketGroupNameExists,
    MarketGroupTypeMismatch,

    // Universe related
    CrossUniverseTransfer,
    CrossUniverseTrade,
    NotUniverseOwner,
    UniverseNameExists,
    UniverseNotFound,

    // Option related
    NotOptionMarket,
    ContractNotFound,
    NotContractBuyer,
    OptionExpired,
    UnderlyingNotSettled,
    InvalidStrikePrice,

    // Redeem code related
    InvalidRedeemCode,
    RedeemCodeNotFound,
    RedeemCodeAlreadyRedeemed,
    RedeemCodeExpired,

    // Auction split related
    EmptyContributions,
    DuplicateContributor,
    ContributionsDontSumToTotal,
    OwnerNotInContributions,
    ContributionMustNotBeNegative,
}

/// The message shown to the client for each refusal.
pub open spec fn failure_message(f: ValidationFailure) -> Seq<char> {
    match f {
        ValidationFailure::MarketNotFound => "Market not found"@,
        ValidationFailure::MarketSettled => "Market already settled"@,
        ValidationFailure::MarketPaused => "Market is paused"@,
        ValidationFailure::InvalidMarketStatus => "Invalid market status"@,
        ValidationFailure::MarketNotRedeemable => "Fund not found"@,
        ValidationFailure::InvalidSettlement => "Invalid settlement prices"@,
        ValidationFailure::InvalidSettlementPrice => "Invalid settlement price"@,
        ValidationFailure::ConstituentNotFound => "Constituent not found"@,
        ValidationFailure::ConstituentSettled => "Constituent already settled"@,
        ValidationFailure::ConstituentNotSettled => "Constituent not settled"@,
        ValidationFailure::InvalidMultiplier => "Invalid multiplier"@,
        ValidationFailure::InvalidRedeemFee => "Invalid redeem fee"@,
        ValidationFailure::NotMarketOwner => "Not market owner"@,
        ValidationFailure::OrderNotFound => "Order not found"@,
        ValidationFailure::NotOrderOwner => "Not order owner"@,
        ValidationFailure::InvalidPrice => "Invalid price"@,
        ValidationFailure::InvalidSize => "Invalid size"@,
        ValidationFailure::NoSideProvided => "No side provided"@,
        ValidationFailure::AccountNotFound => "Account not found"@,
        ValidationFailure::AccountNotOwned => "Account not owned"@,
        ValidationFailure::SameAccount => "Cannot pay yourself"@,
        ValidationFailure::InitiatorNotUser => "Initiator not user"@,
        ValidationFailure::OwnerNotAUser => "Owner not a user"@,
        ValidationFailure::RecipientNotAUser => "Recipient not a user"@,
        ValidationFailure::NotOwner => "Not owner"@,
        ValidationFailure::AlreadyOwner => "Already owner"@,
        ValidationFailure::EmptyName => "Account name cannot be empty"@,
        ValidationFailure::NameAlreadyExists => "Account name already exists"@,
        ValidationFailure::NameSuffixExhausted => "Could not find an available numeric suffix for this name"@,
        ValidationFailure::InvalidAccountColor => "Account color must be a hex value like #aabbcc"@,
        ValidationFailure::InvalidOwner => "Invalid owner"@,
        ValidationFailure::OwnerInDifferentUniverse => "Owner must be in universe 0 or the same universe"@,
        ValidationFailure::OwnerMustBeUser => "Owner from main universe must be a user account"@,
        ValidationFailure::NoNameProvidedForNewUser => "No name provided for new user"@,
        ValidationFailure::AccountNotShared => "Account already not shared"@,
        ValidationFailure::CreditRemaining => "Ownership can only be revoked after removing all credits"@,
        ValidationFailure::InsufficientFunds => "Insufficient funds"@,
        ValidationFailure::InsufficientCredit => "Insufficient credit"@,
        ValidationFailure::InvalidAmount => "Invalid amount"@,
        ValidationFailure::SharedOwnershipAccountHasOpenPositions => "Shared ownership account has open positions"@,
        ValidationFailure::AuctionNotFound => "Auction not found"@,
        ValidationFailure::AuctionSettled => "Cannot delete a settled auction"@,
        ValidationFailure::NotAuctionOwner => "Not auction owner"@,
        ValidationFailure::BuyerIsSeller => "Buyer is the seller — pick a different buyer"@,
        ValidationFailure::SudoRequired => "Sudo required"@,
        ValidationFailure::VisibleToAccountNotFound => "One or more visible_to accounts not found"@,
        ValidationFailure::MarketTypeNotFound => "Category not found"@,
        ValidationFailure::MarketTypeNotPublic => "Cannot create market with non-public category"@,
        ValidationFailure::MarketTypeNameExists => "Category name already exists"@,
        ValidationFailure::CannotDeleteLastMarketType => "Cannot delete the last category"@,
        ValidationFailure::MarketGroupNotFound => "Market group not found"@,
        ValidationFailure::MarketGroupNameExists => "Market group name already exists"@,
        ValidationFailure::MarketGroupTypeMismatch => "Market category does not match group category"@,
        ValidationFailure::CrossUniverseTransfer => "Cannot transfer between accounts in different universes"@,
        ValidationFailure::CrossUniverseTrade => "Cannot trade in a market from a different universe"@,
        ValidationFailure::NotUniverseOwner => "Not the owner of this universe"@,
        ValidationFailure::UniverseNameExists => "Universe name already exists"@,
        ValidationFailure::UniverseNotFound => "Universe not found"@,
        ValidationFailure::NotOptionMarket => "Option markets cannot be settled; use exercise instead"@,
        ValidationFailure::ContractNotFound => "Option contract not found"@,
        ValidationFailure::NotContractBuyer => "Not the buyer of this contract"@,
        ValidationFailure::OptionExpired => "Option has expired"@,
        ValidationFailure::UnderlyingNotSettled => "Underlying market not yet settled"@,
        ValidationFailure::InvalidStrikePrice => "Invalid strike price"@,
        ValidationFailure::InvalidRedeemCode => "Invalid redeem code format"@,
        ValidationFailure::RedeemCodeNotFound => "Redeem code not found"@,
        ValidationFailure::RedeemCodeAlreadyRedeemed => "Redeem code already redeemed"@,
        ValidationFailure::RedeemCodeExpired => "Redeem code has expired"@,
        ValidationFailure::EmptyContributions => "At least one contributor is required"@,
        ValidationFailure::DuplicateContributor => "The same buyer cannot appear more than once"@,
        ValidationFailure::ContributionsDontSumToTotal => "Contributions must sum to the settle price"@,
        ValidationFailure::OwnerNotInContributions => "Labeled owner must be one of the contributors"@,
        ValidationFailure::ContributionMustNotBeNegative => "Contribution amount cannot be negative"@,
    }
}

impl ValidationFailure {
    /// The message shown to the client for this refusal.
    pub fn message(&self) -> (r: &'static str)
        ensures
            r@ == failure_message(*self),
    {
        match self {
            ValidationFailure::MarketNotFound => "Market not found",
            ValidationFailure::MarketSettled => "Market already settled",
            ValidationFailure::MarketPaused => "Market is paused",
            ValidationFailure::InvalidMarketStatus => "Invalid market status",
            ValidationFailure::MarketNotRedeemable => "Fund not found",
            ValidationFailure::InvalidSettlement => "Invalid settlement prices",
            ValidationFailure::InvalidSettlementPrice => "Invalid settlement price",
            ValidationFailure::ConstituentNotFound => "Constituent not found",
            ValidationFailure::ConstituentSettled => "Constituent already settled",
            ValidationFailure::ConstituentNotSettled => "Constituent not settled",
            ValidationFailure::InvalidMultiplier => "Invalid multiplier",
            ValidationFailure::InvalidRedeemFee => "Invalid redeem fee",
            ValidationFailure::NotMarketOwner => "Not market owner",
            ValidationFailure::OrderNotFound => "Order not found",
            ValidationFailure::NotOrderOwner => "Not order owner",
            ValidationFailure::InvalidPrice => "Invalid price",
            ValidationFailure::InvalidSize => "Invalid size",
            ValidationFailure::NoSideProvided => "No side provided",
            ValidationFailure::AccountNotFound => "Account not found",
            ValidationFailure::AccountNotOwned => "Account not owned",
            ValidationFailure::SameAccount => "Cannot pay yourself",
            ValidationFailure::InitiatorNotUser => "Initiator not user",
            ValidationFailure::OwnerNotAUser => "Owner not a user",
            ValidationFailure::RecipientNotAUser => "Recipient not a user",
            ValidationFailure::NotOwner => "Not owner",
            ValidationFailure::AlreadyOwner => "Already owner",
            ValidationFailure::EmptyName => "Account name cannot be empty",
            ValidationFailure::NameAlreadyExists => "Account name already exists",
            ValidationFailure::NameSuffixExhausted => "Could not find an available numeric suffix for this name",
            ValidationFailure::InvalidAccountColor => "Account color must be a hex value like #aabbcc",
            ValidationFailure::InvalidOwner => "Invalid owner",
            ValidationFailure::OwnerInDifferentUniverse => "Owner must be in universe 0 or the same universe",
            ValidationFailure::OwnerMustBeUser => "Owner from main universe must be a user account",
            ValidationFailure::NoNameProvidedForNewUser => "No name provided for new user",
            ValidationFailure::AccountNotShared => "Account already not shared",
            ValidationFailure::CreditRemaining => "Ownership can only be revoked after removing all credits",
            ValidationFailure::InsufficientFunds => "Insufficient funds",
            ValidationFailure::InsufficientCredit => "Insufficient credit",
            ValidationFailure::InvalidAmount => "Invalid amount",
            ValidationFailure::SharedOwnershipAccountHasOpenPositions => "Shared ownership account has open positions",
            ValidationFailure::AuctionNotFound => "Auction not found",
            ValidationFailure::AuctionSettled => "Cannot delete a settled auction",
            ValidationFailure::NotAuctionOwner => "Not auction owner",
            ValidationFailure::BuyerIsSeller => "Buyer is the seller — pick a different buyer",
            ValidationFailure::SudoRequired => "Sudo required",
            ValidationFailure::VisibleToAccountNotFound => "One or more visible_to accounts not found",
            ValidationFailure::MarketTypeNotFound => "Category not found",
            ValidationFailure::MarketTypeNotPublic => "Cannot create market with non-public category",
            ValidationFailure::MarketTypeNameExists => "Category name already exists",
            ValidationFailure::CannotDeleteLastMarketType => "Cannot delete the last category",
            ValidationFailure::MarketGroupNotFound => "Market group not found",
            ValidationFailure::MarketGroupNameExists => "Market group name already exists",
            ValidationFailure::MarketGroupTypeMismatch => "Market category does not match group category",
            ValidationFailure::CrossUniverseTransfer => "Cannot transfer between accounts in different universes",
            ValidationFailure::CrossUniverseTrade => "Cannot trade in a market from a different universe",
            ValidationFailure::NotUniverseOwner => "Not the owner of this universe",
            ValidationFailure::UniverseNameExists => "Universe name already exists",
            ValidationFailure::UniverseNotFound => "Universe not found",
            ValidationFailure::NotOptionMarket => "Option markets cannot be settled; use exercise instead",
            ValidationFailure::ContractNotFound => "Option contract not found",
            ValidationFailure::NotContractBuyer => "Not the buyer of this contract",
            ValidationFailure::OptionExpired => "Option has expired",
            ValidationFailure::UnderlyingNotSettled => "Underlying market not yet settled",
            ValidationFailure::InvalidStrikePrice => "Invalid strike price",
            ValidationFailure::InvalidRedeemCode => "Invalid redeem code format",
            ValidationFailure::RedeemCodeNotFound => "Redeem code not found",
            ValidationFailure::RedeemCodeAlreadyRedeemed => "Redeem code already redeemed",
            ValidationFailure::RedeemCodeExpired => "Redeem code has expired",
            ValidationFailure::EmptyContributions => "At least one contributor is required",
            ValidationFailure::DuplicateContributor => "The same buyer cannot appear more than once",
            ValidationFailure::ContributionsDontSumToTotal => "Contributions must sum to the settle price",
            ValidationFailure::OwnerNotInContributions => "Labeled owner must be one of the contributors",
            ValidationFailure::ContributionMustNotBeNegative => "Contribution amount cannot be negative",
        }
    }
}

/// A few characters that tell the refusal messages apart: the length, the
/// first two characters and the third from last.
spec fn message_key(s: Seq<char>) -> (int, char, char, char) {
    (s.len() as int, s[0], s[1], s[s.len() - 3])
}

/// The refusal whose message has key `k`.
spec fn failure_of_key(k: (int, char, char, char)) -> Option<ValidationFailure> {
    if k == (16int, 'M', 'a', 'u') {
        Some(ValidationFailure::MarketNotFound)
    } else if k == (22int, 'M', 'a', 'l') {
        Some(ValidationFailure::MarketSettled)
    } else if k == (16int, 'M', 'a', 's') {
        Some(ValidationFailure::MarketPaused)
    } else if k == (21int, 'I', 'n', 't') {
        Some(ValidationFailure::InvalidMarketStatus)
    } else if k == (14int, 'F', 'u', 'u') {
        Some(ValidationFailure::MarketNotRedeemable)
    } else if k == (25int, 'I', 'n', 'c') {
        Some(ValidationFailure::InvalidSettlement)
    } else if k == (24int, 'I', 'n', 'i') {
        Some(ValidationFailure::InvalidSettlementPrice)
    } else if k == (21int, 'C', 'o', 'u') {
        Some(ValidationFailure::ConstituentNotFound)
    } else if k == (27int, 'C', 'o', 'l') {
        Some(ValidationFailure::ConstituentSettled)
    } else if k == (23int, 'C', 'o', 'l') {
        Some(ValidationFailure::ConstituentNotSettled)
    } else if k == (18int, 'I', 'n', 'i') {
        Some(ValidationFailure::InvalidMultiplier)
    } else if k == (18int, 'I', 'n', 'f') {
        Some(ValidationFailure::InvalidRedeemFee)
    } else if k == (16int, 'N', 'o', 'n') {
        Some(ValidationFailure::NotMarketOwner)
    } else if k == (15int, 'O', 'r', 'u') {
        Some(ValidationFailure::OrderNotFound)
    } else if k == (15int, 'N', 'o', 'n') {
        Some(ValidationFailure::NotOrderOwner)
    } else if k == (13int, 'I', 'n', 'i') {
        Some(ValidationFailure::InvalidPrice)
    } else if k == (12int, 'I', 'n', 'i') {
        Some(ValidationFailure::InvalidSize)
    } else if k == (16int, 'N', 'o', 'd') {
        Some(ValidationFailure::NoSideProvided)
    } else if k == (17int, 'A', 'c', 'u') {
        Some(ValidationFailure::AccountNotFound)
    } else if k == (17int, 'A', 'c', 'n') {
        Some(ValidationFailure::AccountNotOwned)
    } else if k == (19int, 'C', 'a', 'e') {
        Some(ValidationFailure::SameAccount)
    } else if k == (18int, 'I', 'n', 's') {
        Some(ValidationFailure::InitiatorNotUser)
    } else if k == (16int, 'O', 'w', 's') {
        Some(ValidationFailure::OwnerNotAUser)
    } else if k == (20int, 'R', 'e', 's') {
        Some(ValidationFailure::RecipientNotAUser)
    } else if k == (9int, 'N', 'o', 'n') {
        Some(ValidationFailure::NotOwner)
    } else if k == (13int, 'A', 'l', 'n') {
        Some(ValidationFailure::AlreadyOwner)
    } else if k == (28int, 'A', 'c', 'p') {
        Some(ValidationFailure::EmptyName)
    } else if k == (27int, 'A', 'c', 's') {
        Some(ValidationFailure::NameAlreadyExists)
    } else if k == (56int, 'C', 'o', 'a') {
        Some(ValidationFailure::NameSuffixExhausted)
    } else if k == (46int, 'A', 'c', 'b') {
        Some(ValidationFailure::InvalidAccountColor)
    } else if k == (13int, 'I', 'n', 'n') {
        Some(ValidationFailure::InvalidOwner)
    } else if k == (48int, 'O', 'w', 'r') {
        Some(ValidationFailure::OwnerInDifferentUniverse)
    } else if k == (47int, 'O', 'w', 'u') {
        Some(ValidationFailure::OwnerMustBeUser)
    } else if k == (29int, 'N', 'o', 's') {
        Some(ValidationFailure::NoNameProvidedForNewUser)
    } else if k == (26int, 'A', 'c', 'r') {
        Some(ValidationFailure::AccountNotShared)
    } else if k == (56int, 'O', 'w', 'i') {
        Some(ValidationFailure::CreditRemaining)
    } else if k == (18int, 'I', 'n', 'n') {
        Some(ValidationFailure::InsufficientFunds)
    } else if k == (19int, 'I', 'n', 'd') {
        Some(ValidationFailure::InsufficientCredit)
    } else if k == (14int, 'I', 'n', 'u') {
        Some(ValidationFailure::InvalidAmount)
    } else if k == (43int, 'S', 'h', 'o') {
        Some(ValidationFailure::SharedOwnershipAccountHasOpenPositions)
    } else if k == (17int, 'A', 'u', 'u') {
        Some(ValidationFailure::AuctionNotFound)
    } else if k == (31int, 'C', 'a', 'i') {
        Some(ValidationFailure::AuctionSettled)
    } else if k == (17int, 'N', 'o', 'n') {
        Some(ValidationFailure::NotAuctionOwner)
    } else if k == (44int, 'B', 'u', 'y') {
        Some(ValidationFailure::BuyerIsSeller)
    } else if k == (13int, 'S', 'u', 'r') {
        Some(ValidationFailure::SudoRequired)
    } else if k == (41int, 'O', 'n', 'u') {
        Some(ValidationFailure::VisibleToAccountNotFound)
    } else if k == (18int, 'C', 'a', 'u') {
        Some(ValidationFailure::MarketTypeNotFound)
    } else if k == (45int, 'C', 'a', 'o') {
        Some(ValidationFailure::MarketTypeNotPublic)
    } else if k == (28int, 'C', 'a', 's') {
        Some(ValidationFailure::MarketTypeNameExists)
    } else if k == (31int, 'C', 'a', 'o') {
        Some(ValidationFailure::CannotDeleteLastMarketType)
    } else if k == (22int, 'M', 'a', 'u') {
        Some(ValidationFailure::MarketGroupNotFound)
    } else if k == (32int, 'M', 'a', 's') {
        Some(ValidationFailure::MarketGroupNameExists)
    } else if k == (45int, 'M', 'a', 'o') {
        Some(ValidationFailure::MarketGroupTypeMismatch)
    } else if k == (55int, 'C', 'a', 's') {
        Some(ValidationFailure::CrossUniverseTransfer)
    } else if k == (50int, 'C', 'a', 'r') {
        Some(ValidationFailure::CrossUniverseTrade)
    } else if k == (30int, 'N', 'o', 'r') {
        Some(ValidationFailure::NotUniverseOwner)
    } else if k == (28int, 'U', 'n', 's') {
        Some(ValidationFailure::UniverseNameExists)
    } else if k == (18int, 'U', 'n', 'u') {
        Some(ValidationFailure::UniverseNotFound)
    } else if k == (54int, 'O', 'p', 'e') {
        Some(ValidationFailure::NotOptionMarket)
    } else if k == (25int, 'O', 'p', 'u') {
        Some(ValidationFailure::ContractNotFound)
    } else if k == (30int, 'N', 'o', 'a') {
        Some(ValidationFailure::NotContractBuyer)
    } else if k == (18int, 'O', 'p', 'r') {
        Some(ValidationFailure::OptionExpired)
    } else if k == (33int, 'U', 'n', 'l') {
        Some(ValidationFailure::UnderlyingNotSettled)
    } else if k == (20int, 'I', 'n', 'i') {
        Some(ValidationFailure::InvalidStrikePrice)
    } else if k == (26int, 'I', 'n', 'm') {
        Some(ValidationFailure::InvalidRedeemCode)
    } else if k == (21int, 'R', 'e', 'u') {
        Some(ValidationFailure::RedeemCodeNotFound)
    } else if k == (28int, 'R', 'e', 'm') {
        Some(ValidationFailure::RedeemCodeAlreadyRedeemed)
    } else if k == (23int, 'R', 'e', 'r') {
        Some(ValidationFailure::RedeemCodeExpired)
    } else if k == (36int, 'A', 't', 'r') {
        Some(ValidationFailure::EmptyContributions)
    } else if k == (43int, 'T', 'h', 'n') {
        Some(ValidationFailure::DuplicateContributor)
    } else if k == (42int, 'C', 'o', 'i') {
        Some(ValidationFailure::ContributionsDontSumToTotal)
    } else if k == (45int, 'L', 'a', 'o') {
        Some(ValidationFailure::OwnerNotInContributions)
    } else if k == (38int, 'C', 'o', 'i') {
        Some(ValidationFailure::ContributionMustNotBeNegative)
    } else {
        None
    }
}

proof fn lemma_failure_of_message(f: ValidationFailure)
    ensures
        failure_message(f).len() > 0,
        failure_of_key(message_key(failure_message(f))) == Some(f),
{
    reveal_strlit("Market not found");
    reveal_strlit("Market already settled");
    reveal_strlit("Market is paused");
    reveal_strlit("Invalid market status");
    reveal_strlit("Fund not found");
    reveal_strlit("Invalid settlement prices");
    reveal_strlit("Invalid settlement price");
    reveal_strlit("Constituent not found");
    reveal_strlit("Constituent already settled");
    reveal_strlit("Constituent not settled");
    reveal_strlit("Invalid multiplier");
    reveal_strlit("Invalid redeem fee");
    reveal_strlit("Not market owner");
    reveal_strlit("Order not found");
    reveal_strlit("Not order owner");
    reveal_strlit("Invalid price");
    reveal_strlit("Invalid size");
    reveal_strlit("No side provided");
    reveal_strlit("Account not found");
    reveal_strlit("Account not owned");
    reveal_strlit("Cannot pay yourself");
    reveal_strlit("Initiator not user");
    reveal_strlit("Owner not a user");
    reveal_strlit("Recipient not a user");
    reveal_strlit("Not owner");
    reveal_strlit("Already owner");
    reveal_strlit("Account name cannot be empty");
    reveal_strlit("Account name already exists");
    reveal_strlit("Could not find an available numeric suffix for this name");
    reveal_strlit("Account color must be a hex value like #aabbcc");
    reveal_strlit("Invalid owner");
    reveal_strlit("Owner must be in universe 0 or the same universe");
    reveal_strlit("Owner from main universe must be a user account");
    reveal_strlit("No name provided for new user");
    reveal_strlit("Account already not shared");
    reveal_strlit("Ownership can only be revoked after removing all credits");
    reveal_strlit("Insufficient funds");
    reveal_strlit("Insufficient credit");
    reveal_strlit("Invalid amount");
    reveal_strlit("Shared ownership account has open positions");
    reveal_strlit("Auction not found");
    reveal_strlit("Cannot delete a settled auction");
    reveal_strlit("Not auction owner");
    reveal_strlit("Buyer is the seller — pick a different buyer");
    reveal_strlit("Sudo required");
    reveal_strlit("One or more visible_to accounts not found");
    reveal_strlit("Category not found");
    reveal_strlit("Cannot create market with non-public category");
    reveal_strlit("Category name already exists");
    reveal_strlit("Cannot delete the last category");
    reveal_strlit("Market group not found");
    reveal_strlit("Market group name already exists");
    reveal_strlit("Market category does not match group category");
    reveal_strlit("Cannot transfer between accounts in different universes");
    reveal_strlit("Cannot trade in a market from a different universe");
    reveal_strlit("Not the owner of this universe");
    reveal_strlit("Universe name already exists");
    reveal_strlit("Universe not found");
    reveal_strlit("Option markets cannot be settled; use exercise instead");
    reveal_strlit("Option contract not found");
    reveal_strlit("Not the buyer of this contract");
    reveal_strlit("Option has expired");
    reveal_strlit("Underlying market not yet settled");
    reveal_strlit("Invalid strike price");
    reveal_strlit("Invalid redeem code format");
    reveal_strlit("Redeem code not found");
    reveal_strlit("Redeem code already redeemed");
    reveal_strlit("Redeem code has expired");
    reveal_strlit("At least one contributor is required");
    reveal_strlit("The same buyer cannot appear more than once");
    reveal_strlit("Contributions must sum to the settle price");
    reveal_strlit("Labeled owner must be one of the contributors");
    reveal_strlit("Contribution amount cannot be negative");
}

/// Every refusal has a message, and no two refusals share one: the
/// message tells the client exactly which refusal it got.
pub proof fn lemma_failure_messages_distinct(a: ValidationFailure, b: ValidationFailure)
    ensures
        failure_message(a).len() > 0,
        failure_message(a) == failure_message(b) ==> a == b,
{
    lemma_failure_of_message(a);
    lemma_failure_of_message(b);
}

} // verus!
