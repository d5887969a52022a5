use vstd::prelude::*;

verus! {

/// An account identifier.
pub type AccountId = u64;

/// An amount of the fungible currency.
pub type Balance = u64;

/// The identity of a kitty: a 256-bit content hash.
pub type KittyId = [u8; 32];

/// Sixteen bytes of genetic material.
pub type Dna = [u8; 16];

#[derive(Clone, Copy, Debug, PartialEq, Eq, Structural)]
pub enum Gender {
    Male,
    Female,
}

/// A kitty as stored in the registry.
#[derive(Clone, Debug, PartialEq, Eq)]
pub struct Kitty {
    pub dna: Dna,
    pub price: Option<Balance>,
    pub gender: Gender,
    pub owner: AccountId,
    pub name: Option<Vec<u8>>,
}

/// The mathematical value of a kitty.
pub struct KittyView {
    pub dna: Seq<u8>,
    pub price: Option<Balance>,
    pub gender: Gender,
    pub owner: AccountId,
    pub name: Option<Seq<u8>>,
}

impl View for Kitty {
    type V = KittyView;

    open spec fn view(&self) -> KittyView {
        KittyView {
            dna: self.dna@,
            price: self.price,
            gender: self.gender,
            owner: self.owner,
            name: match self.name {
                Some(n) => Some(n@),
                None => None,
            },
        }
    }
}

/// The limits that a registry is set up with.
#[derive(Clone, Copy, Debug, PartialEq, Eq, Structural)]
pub struct Config {
    /// The most kitties that one account can own.
    pub max_kitty_owned: u32,
    /// The shortest name a kitty can be given.
    pub min_name_length: u32,
    /// The longest name a kitty can be given.
    pub max_name_length: u32,
}

/// Why an operation was rejected.
#[derive(Clone, Copy, Debug, PartialEq, Eq, Structural)]
pub enum Error {
    /// The kitty counter would overflow.
    KittyCntOverflow,
    /// The account cannot own more kitties.
    ExceedMaxKittyOwned,
    /// The buyer already owns the kitty.
    BuyerIsKittyOwner,
    /// A kitty cannot be sent to its own owner.
    TransferToSelf,
    /// No kitty has that id.
    KittyNotExist,
    /// A kitty with that id already exists.
    KittyExists,
    /// The caller does not own the kitty.
    NotKittyOwner,
    /// The kitty has no asking price.
    KittyNotForSale,
    /// The bid is below the asking price.
    KittyBidPriceTooLow,
    /// The buyer cannot pay the bid.
    NotEnoughBalance,
    /// The name is shorter than the configured minimum.
    NameTooShort,
    /// The name is longer than the configured maximum.
    NameTooLong,
    /// The two parents have the same gender.
    SameSex,
    /// A credit would overflow the receiving balance.
    BalanceOverflow,
}

/// A notification of a completed operation.
#[derive(Clone, Debug, PartialEq, Eq)]
pub enum Event {
    /// A kitty was created: owner, kitty id.
    Created(AccountId, KittyId),
    /// A price was set: owner, kitty id, new price.
    PriceSet(AccountId, KittyId, Option<Balance>),
    /// A kitty was transferred: from, to, kitty id.
    Transferred(AccountId, AccountId, KittyId),
    /// A kitty was bought: buyer, seller, kitty id, price paid.
    Bought(AccountId, AccountId, KittyId, Balance),
}

/// What the randomness source supplied for one call, with the call's position.
#[derive(Clone, Copy, Debug, PartialEq, Eq)]
pub struct Entropy {
    /// The draw under the "dna" tag.
    pub dna_random: [u8; 32],
    /// The draw under the "gender" tag.
    pub gender_random: [u8; 32],
    /// The draw under the "breed" tag.
    pub breed_random: [u8; 32],
    /// The index of the call within its block, if known.
    pub extrinsic_index: Option<u32>,
    /// The number of the block the call is in.
    pub block_number: u32,
}

} // verus!
