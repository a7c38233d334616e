//! Page-composition helpers: the items a rendered page shows, with the
//! display-name choice the pages make (a usable profile name, else the
//! author's base58 key).

use vstd::prelude::*;
use crate::ids::base58_of;
use crate::item::{ItemData, ItemDisplayRow, ItemDisplayRowV, ItemRow};
use crate::text::{blank_str, is_blank, trim_str, trimmed};

verus! {

/// The name a page headline shows for a feed row: the author's display
/// name, trimmed, when it is usable, else their base58-rendered key.
pub open spec fn headline_name(d: ItemDisplayRowV) -> Seq<char> {
    match d.display_name {
        Some(n) => if !is_blank(n) {
            trimmed(n)
        } else {
            base58_of(d.item.user)
        },
        None => base58_of(d.item.user),
    }
}

/// One item of the homepage, paired with its parsed payload.
pub struct IndexPageItem {
    pub row: ItemDisplayRow,
    pub item: ItemData,
}

impl IndexPageItem {
    /// The parsed payload.
    pub fn item(&self) -> (r: &ItemData)
        ensures
            r == &self.item,
    {
        &self.item
    }

    /// The enriched stored row.
    pub fn row(&self) -> (r: &ItemDisplayRow)
        ensures
            r == &self.row,
    {
        &self.row
    }

    /// The name the homepage shows for this row's author; never empty for a
    /// row whose author ID holds any bytes.
    pub fn display_name(&self) -> (r: String)
        ensures
            r@ == headline_name(self.row@),
            self.row@.item.user.len() > 0 ==> r@.len() > 0,
    {
        match &self.row.display_name {
            Some(n) => {
                if !blank_str(n.as_str()) {
                    trim_str(n.as_str())
                } else {
                    self.row.item.user.to_base58()
                }
            },
            None => self.row.item.user.to_base58(),
        }
    }
}

/// One item of a user's timeline page, paired with its parsed payload.
pub struct UserPageItem {
    pub row: ItemRow,
    pub item: ItemData,
}

impl UserPageItem {
    /// The stored row.
    pub fn row(&self) -> (r: &ItemRow)
        ensures
            r == &self.row,
    {
        &self.row
    }

    /// The parsed payload.
    pub fn item(&self) -> (r: &ItemData)
        ensures
            r == &self.item,
    {
        &self.item
    }
}

} // verus!
