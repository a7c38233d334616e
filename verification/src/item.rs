//! The data model: stored item rows, the small payload substructure the core
//! extracts from an item's opaque bytes, and server-admitted users.
//!
//! An item's wire encoding is an external collaborator's business: the core
//! sees the raw bytes plus the few derived fields it needs (the embedded
//! timestamp and, for profile items, the declared display name and follow
//! list), handed over as plain values.

use vstd::prelude::*;
use crate::ids::{Signature, Timestamp, UserID};

verus! {

/// Mathematical image of a stored item row.
pub ghost struct ItemRowV {
    pub user: Seq<u8>,
    pub signature: Seq<u8>,
    pub timestamp: int,
    pub received: int,
    pub item_bytes: Seq<u8>,
}

/// One stored item: a signed, immutable unit of content.  `(user, signature)`
/// identifies it globally; `timestamp` is the caller-controlled embedded
/// timestamp; `received` is the server-assigned arrival time.
#[derive(Debug)]
pub struct ItemRow {
    pub user: UserID,
    pub signature: Signature,
    pub timestamp: Timestamp,
    pub received: Timestamp,
    pub item_bytes: Vec<u8>,
}

impl View for ItemRow {
    type V = ItemRowV;

    open spec fn view(&self) -> ItemRowV {
        ItemRowV {
            user: self.user@,
            signature: self.signature@,
            timestamp: self.timestamp.unix_utc_ms as int,
            received: self.received.unix_utc_ms as int,
            item_bytes: self.item_bytes@,
        }
    }
}

impl ItemRow {
    /// A well-formed row carries identity values of the right lengths.
    pub open spec fn wf(&self) -> bool {
        self.user.wf() && self.signature.wf()
    }
}

impl Clone for ItemRow {
    fn clone(&self) -> (r: Self)
        ensures
            r@ == self@,
            r.wf() == self.wf(),
    {
        let item_bytes = self.item_bytes.clone();
        proof {
            assert(item_bytes@ =~= self.item_bytes@);
        }
        ItemRow {
            user: self.user.clone(),
            signature: self.signature.clone(),
            timestamp: self.timestamp,
            received: self.received,
            item_bytes,
        }
    }
}

/// Mathematical image of one declared follow.
pub ghost struct FollowEntryV {
    pub user: Seq<u8>,
    pub display_name: Seq<char>,
}

/// One entry of a profile's declared follow list: a followed user and the
/// alias the follower gives them (possibly empty).
#[derive(Debug)]
pub struct FollowEntry {
    pub user: UserID,
    pub display_name: String,
}

impl View for FollowEntry {
    type V = FollowEntryV;

    open spec fn view(&self) -> FollowEntryV {
        FollowEntryV { user: self.user@, display_name: self.display_name@ }
    }
}

impl Clone for FollowEntry {
    fn clone(&self) -> (r: Self)
        ensures
            r@ == self@,
    {
        FollowEntry { user: self.user.clone(), display_name: self.display_name.clone() }
    }
}

/// Mathematical image of a profile payload.
pub ghost struct ProfileDataV {
    pub display_name: Seq<char>,
    pub about: Seq<char>,
    pub follows: Seq<FollowEntryV>,
}

/// The profile substructure of a profile-type item: the user's self-declared
/// display name, about-text, and full follow list (each new profile wholly
/// replaces the previous list).
#[derive(Debug)]
pub struct ProfileData {
    pub display_name: String,
    pub about: String,
    pub follows: Vec<FollowEntry>,
}

impl View for ProfileData {
    type V = ProfileDataV;

    open spec fn view(&self) -> ProfileDataV {
        ProfileDataV {
            display_name: self.display_name@,
            about: self.about@,
            follows: self.follows@.map_values(|f: FollowEntry| f@),
        }
    }
}

/// Mathematical image of a post payload.
pub ghost struct PostDataV {
    pub title: Seq<char>,
    pub body: Seq<char>,
}

/// The post substructure of a post-type item.
#[derive(Debug)]
pub struct PostData {
    pub title: String,
    pub body: String,
}

impl View for PostData {
    type V = PostDataV;

    open spec fn view(&self) -> PostDataV {
        PostDataV { title: self.title@, body: self.body@ }
    }
}

/// Mathematical image of an item's typed payload.
pub ghost enum ItemTypeV {
    Post(PostDataV),
    Profile(ProfileDataV),
}

/// The typed payload of an item, when the server recognizes it.
#[derive(Debug)]
pub enum ItemTypeData {
    Post(PostData),
    Profile(ProfileData),
}

impl View for ItemTypeData {
    type V = ItemTypeV;

    open spec fn view(&self) -> ItemTypeV {
        match self {
            ItemTypeData::Post(p) => ItemTypeV::Post(p@),
            ItemTypeData::Profile(p) => ItemTypeV::Profile(p@),
        }
    }
}

/// Mathematical image of a parsed item payload.
pub ghost struct ItemDataV {
    pub timestamp_ms_utc: int,
    pub utc_offset_minutes: int,
    pub item_type: Option<ItemTypeV>,
}

/// The fields the core extracts from an item's payload bytes.  `item_type`
/// is `None` for payload types newer than this server knows about.
#[derive(Debug)]
pub struct ItemData {
    pub timestamp_ms_utc: i64,
    pub utc_offset_minutes: i32,
    pub item_type: Option<ItemTypeData>,
}

impl View for ItemData {
    type V = ItemDataV;

    open spec fn view(&self) -> ItemDataV {
        ItemDataV {
            timestamp_ms_utc: self.timestamp_ms_utc as int,
            utc_offset_minutes: self.utc_offset_minutes as int,
            item_type: match &self.item_type {
                None => None,
                Some(t) => Some(t@),
            },
        }
    }
}

impl ItemData {
    /// A well-formed payload declares well-formed identities.
    pub open spec fn wf(&self) -> bool {
        match &self.item_type {
            Some(ItemTypeData::Profile(p)) => p.wf(),
            _ => true,
        }
    }
}

impl ProfileData {
    /// Every declared follow names a well-formed user ID.
    pub open spec fn wf(&self) -> bool {
        forall|i: int| 0 <= i < self.follows@.len() ==> (#[trigger] self.follows@[i]).user.wf()
    }
}

/// Whether an item is shown in feeds by default: posts are, profile updates
/// and unrecognized payload types are not.
pub open spec fn display_by_default_spec(t: ItemDataV) -> bool {
    match t.item_type {
        Some(ItemTypeV::Post(_)) => true,
        _ => false,
    }
}

/// Whether an item is shown in feeds by default.
pub fn display_by_default(item: &ItemData) -> (r: bool)
    ensures
        r == display_by_default_spec(item@),
{
    match &item.item_type {
        Some(ItemTypeData::Post(_)) => true,
        _ => false,
    }
}

/// Mathematical image of a feed row.
pub ghost struct ItemDisplayRowV {
    pub item: ItemRowV,
    pub display_name: Option<Seq<char>>,
}

/// One row of an enriched feed query: the item plus the display name the
/// query resolved for its author (absent when no usable name exists).
#[derive(Debug)]
pub struct ItemDisplayRow {
    pub item: ItemRow,
    pub display_name: Option<String>,
}

impl View for ItemDisplayRow {
    type V = ItemDisplayRowV;

    open spec fn view(&self) -> ItemDisplayRowV {
        ItemDisplayRowV {
            item: self.item@,
            display_name: match &self.display_name {
                None => None,
                Some(n) => Some(n@),
            },
        }
    }
}

/// Mathematical image of a server user row.
pub ghost struct ServerUserV {
    pub user: Seq<u8>,
    pub notes: Seq<char>,
    pub on_homepage: bool,
    pub max_bytes: int,
}

/// A user this server operator has explicitly admitted.  `on_homepage` puts
/// their items on the public homepage; `max_bytes` is a declared quota
/// ceiling (0 = unlimited) that no current policy enforces.
#[derive(Debug)]
pub struct ServerUser {
    pub user: UserID,
    pub notes: String,
    pub on_homepage: bool,
    pub max_bytes: u64,
}

impl View for ServerUser {
    type V = ServerUserV;

    open spec fn view(&self) -> ServerUserV {
        ServerUserV {
            user: self.user@,
            notes: self.notes@,
            on_homepage: self.on_homepage,
            max_bytes: self.max_bytes as int,
        }
    }
}

impl ServerUser {
    /// A well-formed row carries a user ID of the right length.
    pub open spec fn wf(&self) -> bool {
        self.user.wf()
    }
}

impl Clone for ServerUser {
    fn clone(&self) -> (r: Self)
        ensures
            r@ == self@,
            r.wf() == self.wf(),
    {
        ServerUser {
            user: self.user.clone(),
            notes: self.notes.clone(),
            on_homepage: self.on_homepage,
            max_bytes: self.max_bytes,
        }
    }
}

/// Why the admission policy refused an item.
#[derive(Debug, Clone, Copy, PartialEq, Eq, Structural)]
pub enum QuotaDenyReason {
    /// The posting user is neither a server user nor followed by one.
    UnknownUser,
}

} // verus!
