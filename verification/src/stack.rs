//! Ingredient descriptors: item stacks and fluid stacks.

use crate::order::{compare_bytes, lemma_seq_rel, Order, Ranked};
use vstd::prelude::*;
use vstd::utf8::{encode_utf8, encode_utf8_decode_utf8};

verus! {

/// The internal identifier that the game gives an item that it could not
/// resolve.
pub const PLACEHOLDER_ITEM_ID: &'static str = "tile.fire";

/// The display name that goes with `PLACEHOLDER_ITEM_ID`.
pub const PLACEHOLDER_ITEM_NAME: &'static str = "Fire";

/// Whether two strings hold the same text.
pub fn same_text(a: &str, b: &str) -> (r: bool)
    ensures
        r == (a@ == b@),
{
    proof {
        lemma_seq_rel::<u8>(encode_utf8(a@), encode_utf8(b@), encode_utf8(a@));
        encode_utf8_decode_utf8(a@);
        encode_utf8_decode_utf8(b@);
    }
    matches!(compare_bytes(a.as_bytes(), b.as_bytes()), Order::Equal)
}

/// A number of items of one kind.
#[derive(Debug, PartialEq, Eq, Hash)]
pub struct ItemStack {
    pub amount: i32,
    /// The item's sub-type.
    pub metadata: i32,
    /// The internal identifier, where it resolved.
    pub unlocalized_name: Option<String>,
    /// The display name, where it resolved.
    pub localized_name: Option<String>,
}

/// What an `ItemStack` stands for.
pub struct ItemModel {
    pub amount: i32,
    pub metadata: i32,
    pub unlocalized_name: Option<Seq<char>>,
    pub localized_name: Option<Seq<char>>,
}

impl DeepView for ItemStack {
    type V = ItemModel;

    open spec fn deep_view(&self) -> ItemModel {
        ItemModel {
            amount: self.amount,
            metadata: self.metadata,
            unlocalized_name: self.unlocalized_name.deep_view(),
            localized_name: self.localized_name.deep_view(),
        }
    }
}

impl View for ItemStack {
    type V = ItemModel;

    open spec fn view(&self) -> ItemModel {
        self.deep_view()
    }
}

impl ItemModel {
    /// An item is missing when one of its names is absent or is the
    /// placeholder that the game puts where a name did not resolve.
    pub open spec fn is_missing(self) -> bool {
        ||| self.unlocalized_name is None
        ||| self.localized_name is None
        ||| self.unlocalized_name == Some(PLACEHOLDER_ITEM_ID@)
        ||| self.localized_name == Some(PLACEHOLDER_ITEM_NAME@)
    }
}

impl Clone for ItemStack {
    fn clone(&self) -> (r: Self)
        ensures
            r == *self,
    {
        ItemStack {
            amount: self.amount,
            metadata: self.metadata,
            unlocalized_name: match &self.unlocalized_name {
                Some(s) => Some(s.clone()),
                None => None,
            },
            localized_name: match &self.localized_name {
                Some(s) => Some(s.clone()),
                None => None,
            },
        }
    }
}

impl ItemStack {
    /// Whether this item's identity failed to resolve.
    pub fn is_missing(&self) -> (r: bool)
        ensures
            r == self@.is_missing(),
    {
        match (&self.unlocalized_name, &self.localized_name) {
            (Some(id), Some(name)) => same_text(id.as_str(), PLACEHOLDER_ITEM_ID) || same_text(
                name.as_str(),
                PLACEHOLDER_ITEM_NAME,
            ),
            _ => true,
        }
    }
}

/// Items are ordered by amount, then sub-type, then internal identifier,
/// then display name; an absent name comes before any present one.
impl Ranked for ItemStack {
    open spec fn rel(a: ItemModel, b: ItemModel) -> Order {
        i32::rel(a.amount, b.amount).tie_break(i32::rel(a.metadata, b.metadata)).tie_break(
            Option::<String>::rel(a.unlocalized_name, b.unlocalized_name),
        ).tie_break(Option::<String>::rel(a.localized_name, b.localized_name))
    }

    proof fn lemma_rel(a: ItemModel, b: ItemModel, c: ItemModel) {
        Option::<String>::lemma_rel(a.unlocalized_name, b.unlocalized_name, c.unlocalized_name);
        Option::<String>::lemma_rel(a.localized_name, b.localized_name, c.localized_name);
        Option::<String>::lemma_rel(b.unlocalized_name, c.unlocalized_name, a.unlocalized_name);
        Option::<String>::lemma_rel(b.localized_name, c.localized_name, a.localized_name);
        Option::<String>::lemma_rel(a.unlocalized_name, c.unlocalized_name, a.unlocalized_name);
        Option::<String>::lemma_rel(a.localized_name, c.localized_name, a.localized_name);
    }

    fn compare(&self, other: &Self) -> (r: Order) {
        let by_amount = self.amount.compare(&other.amount);
        if !matches!(by_amount, Order::Equal) {
            return by_amount;
        }
        let by_metadata = self.metadata.compare(&other.metadata);
        if !matches!(by_metadata, Order::Equal) {
            return by_metadata;
        }
        let by_id = self.unlocalized_name.compare(&other.unlocalized_name);
        if !matches!(by_id, Order::Equal) {
            return by_id;
        }
        self.localized_name.compare(&other.localized_name)
    }
}

/// An amount of one fluid.
#[derive(Debug, PartialEq, Eq, Hash)]
pub struct FluidStack {
    pub amount: i32,
    /// The internal identifier, where it resolved.
    pub unlocalized_name: Option<String>,
    /// The display name, where it resolved.
    pub localized_name: Option<String>,
}

/// What a `FluidStack` stands for.
pub struct FluidModel {
    pub amount: i32,
    pub unlocalized_name: Option<Seq<char>>,
    pub localized_name: Option<Seq<char>>,
}

impl DeepView for FluidStack {
    type V = FluidModel;

    open spec fn deep_view(&self) -> FluidModel {
        FluidModel {
            amount: self.amount,
            unlocalized_name: self.unlocalized_name.deep_view(),
            localized_name: self.localized_name.deep_view(),
        }
    }
}

impl View for FluidStack {
    type V = FluidModel;

    open spec fn view(&self) -> FluidModel {
        self.deep_view()
    }
}

impl FluidModel {
    /// A fluid is missing when one of its names is absent.
    pub open spec fn is_missing(self) -> bool {
        self.unlocalized_name is None || self.localized_name is None
    }
}

impl Clone for FluidStack {
    fn clone(&self) -> (r: Self)
        ensures
            r == *self,
    {
        FluidStack {
            amount: self.amount,
            unlocalized_name: match &self.unlocalized_name {
                Some(s) => Some(s.clone()),
                None => None,
            },
            localized_name: match &self.localized_name {
                Some(s) => Some(s.clone()),
                None => None,
            },
        }
    }
}

impl FluidStack {
    /// Whether this fluid's identity failed to resolve.
    pub fn is_missing(&self) -> (r: bool)
        ensures
            r == self@.is_missing(),
    {
        self.unlocalized_name.is_none() || self.localized_name.is_none()
    }
}

/// Fluids are ordered by amount, then internal identifier, then display
/// name; an absent name comes before any present one.
impl Ranked for FluidStack {
    open spec fn rel(a: FluidModel, b: FluidModel) -> Order {
        i32::rel(a.amount, b.amount).tie_break(
            Option::<String>::rel(a.unlocalized_name, b.unlocalized_name),
        ).tie_break(Option::<String>::rel(a.localized_name, b.localized_name))
    }

    proof fn lemma_rel(a: FluidModel, b: FluidModel, c: FluidModel) {
        Option::<String>::lemma_rel(a.unlocalized_name, b.unlocalized_name, c.unlocalized_name);
        Option::<String>::lemma_rel(a.localized_name, b.localized_name, c.localized_name);
        Option::<String>::lemma_rel(b.unlocalized_name, c.unlocalized_name, a.unlocalized_name);
        Option::<String>::lemma_rel(b.localized_name, c.localized_name, a.localized_name);
        Option::<String>::lemma_rel(a.unlocalized_name, c.unlocalized_name, a.unlocalized_name);
        Option::<String>::lemma_rel(a.localized_name, c.localized_name, a.localized_name);
    }

    fn compare(&self, other: &Self) -> (r: Order) {
        let by_amount = self.amount.compare(&other.amount);
        if !matches!(by_amount, Order::Equal) {
            return by_amount;
        }
        let by_id = self.unlocalized_name.compare(&other.unlocalized_name);
        if !matches!(by_id, Order::Equal) {
            return by_id;
        }
        self.localized_name.compare(&other.localized_name)
    }
}

} // verus!
