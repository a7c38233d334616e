//! The storage engine: five relations (items, server users, the
//! materialized profile and follow views, and a schema version marker) with
//! the uniqueness, ordering, and reference invariants of the schema, and the
//! transactional write path.
//!
//! The engine is an in-memory relational core: a caller in front of it does
//! the durability (and hands rows back in), while every rule about what the
//! relations may hold is enforced — and proved — here.

use vstd::prelude::*;
use vstd::pervasive::VecAdditionalExecFns;
use crate::ids::{Signature, Timestamp, UserID, USER_ID_LEN, SIGNATURE_LEN};
use crate::item::{
    FollowEntryV, ItemData, ItemDataV, ItemRow, ItemRowV, ItemTypeData, ItemTypeV, ProfileData,
    ProfileDataV, ServerUser, ServerUserV,
};
use crate::feed::{
    feed_name, feed_pred, feed_rows, homepage_pred, homepage_rows, resolve_display_name,
    take_up_to, user_items_pred, user_rows,
};
use crate::item::{ItemDisplayRow, ItemDisplayRowV, QuotaDenyReason};
use crate::keyed::{has_key, key_index, row_for, unique_keys};
use crate::order::{lex_lt, sorted_desc_by};
use crate::text::{blank_str, opt_str_view};

verus! {

/// The schema version this engine writes and accepts.
pub const CURRENT_SCHEMA_VERSION: u32 = 3;

/// A failure of a storage operation.
#[derive(Debug, Clone, Copy, PartialEq, Eq, Structural)]
pub enum StoreError {
    /// The store was written by a newer engine; refusing to touch it.
    VersionTooNew,
    /// The store has an older schema and no migration path is implemented.
    MigrationNeeded,
    /// The server user being added is already registered.
    DuplicateServerUser,
}

/// What a write of an item did.
#[derive(Debug, Clone, Copy, PartialEq, Eq, Structural)]
pub enum SaveOutcome {
    /// The item was new and is now stored.
    Inserted,
    /// An item with this `(user, signature)` was already stored; nothing
    /// changed.
    AlreadyExists,
}

/// Mathematical image of a materialized profile row.
pub ghost struct ProfileRowV {
    pub user: Seq<u8>,
    pub signature: Seq<u8>,
    pub display_name: Seq<char>,
}

/// The materialized profile of one user: a reference to the profile-type
/// item (by signature) it was derived from, and that item's declared display
/// name.  At most one row per user.
#[derive(Debug)]
pub struct ProfileRow {
    pub user: UserID,
    pub signature: Signature,
    pub display_name: String,
}

impl View for ProfileRow {
    type V = ProfileRowV;

    open spec fn view(&self) -> ProfileRowV {
        ProfileRowV {
            user: self.user@,
            signature: self.signature@,
            display_name: self.display_name@,
        }
    }
}

/// Mathematical image of a materialized follow row.
pub ghost struct FollowRowV {
    pub source: Seq<u8>,
    pub followed: Seq<u8>,
    pub display_name: Seq<char>,
}

/// One materialized follow: `source` follows `followed` under the alias
/// `display_name` (possibly empty).  At most one row per `(source,
/// followed)` pair; a user's rows are wholly replaced when a newer profile
/// of theirs is stored.
#[derive(Debug)]
pub struct FollowRow {
    pub source: UserID,
    pub followed: UserID,
    pub display_name: String,
}

impl View for FollowRow {
    type V = FollowRowV;

    open spec fn view(&self) -> FollowRowV {
        FollowRowV {
            source: self.source@,
            followed: self.followed@,
            display_name: self.display_name@,
        }
    }
}

impl Clone for ProfileRow {
    fn clone(&self) -> (r: Self)
        ensures
            r@ == self@,
    {
        ProfileRow {
            user: self.user.clone(),
            signature: self.signature.clone(),
            display_name: self.display_name.clone(),
        }
    }
}

impl Clone for FollowRow {
    fn clone(&self) -> (r: Self)
        ensures
            r@ == self@,
    {
        FollowRow {
            source: self.source.clone(),
            followed: self.followed.clone(),
            display_name: self.display_name.clone(),
        }
    }
}

/// The image of a vector of item rows.
pub open spec fn item_rows_view(v: Seq<ItemRow>) -> Seq<ItemRowV> {
    v.map_values(|r: ItemRow| r@)
}

/// The image of a vector of feed rows.
pub open spec fn display_rows_view(v: Seq<ItemDisplayRow>) -> Seq<ItemDisplayRowV> {
    v.map_values(|r: ItemDisplayRow| r@)
}

/// The image of a vector of server user rows.
pub open spec fn server_users_view(v: Seq<ServerUser>) -> Seq<ServerUserV> {
    v.map_values(|r: ServerUser| r@)
}

/// Resolves the display name a following feed shows: the viewer's alias when
/// usable, else the author's own name when usable, else none.
pub fn resolve_name(alias: Option<String>, own: Option<String>) -> (r: Option<String>)
    ensures
        opt_str_view(r) == resolve_display_name(opt_str_view(alias), opt_str_view(own)),
{
    match alias {
        Some(a) => {
            if !blank_str(a.as_str()) {
                Some(a)
            } else {
                match own {
                    Some(o) => {
                        if !blank_str(o.as_str()) {
                            Some(o)
                        } else {
                            None
                        }
                    },
                    None => None,
                }
            }
        },
        None => {
            match own {
                Some(o) => {
                    if !blank_str(o.as_str()) {
                        Some(o)
                    } else {
                        None
                    }
                },
                None => None,
            }
        },
    }
}

/// The image of a vector of follow rows.
pub open spec fn follows_view(v: Seq<FollowRow>) -> Seq<FollowRowV> {
    v.map_values(|r: FollowRow| r@)
}

/// The key of an item row: its global identity.
pub open spec fn item_key() -> spec_fn(ItemRowV) -> (Seq<u8>, Seq<u8>) {
    |r: ItemRowV| (r.user, r.signature)
}

/// The key of a server user row.
pub open spec fn server_user_key() -> spec_fn(ServerUserV) -> Seq<u8> {
    |r: ServerUserV| r.user
}

/// The key of a profile row.
pub open spec fn profile_key() -> spec_fn(ProfileRowV) -> Seq<u8> {
    |r: ProfileRowV| r.user
}

/// The key of a follow row.
pub open spec fn follow_key() -> spec_fn(FollowRowV) -> (Seq<u8>, Seq<u8>) {
    |r: FollowRowV| (r.source, r.followed)
}

/// The embedded timestamp of an item row, as the feed indices order it.
pub open spec fn item_ts() -> spec_fn(ItemRowV) -> int {
    |r: ItemRowV| r.timestamp
}

/// Server users are listed grouped by homepage flag, then by user ID.
pub open spec fn server_user_before(a: ServerUserV, b: ServerUserV) -> bool {
    (!a.on_homepage && b.on_homepage) || (a.on_homepage == b.on_homepage && lex_lt(a.user, b.user))
}

/// Two registration rows of different users are ordered one way or the
/// other.
pub proof fn lemma_su_order_total(a: ServerUserV, b: ServerUserV)
    requires
        a.user != b.user,
    ensures
        server_user_before(a, b) || server_user_before(b, a),
{
    if !lex_lt(a.user, b.user) && !lex_lt(b.user, a.user) {
        crate::order::lemma_lex_total(a.user, b.user);
    }
}

/// The server-user listing order is transitive.
pub proof fn lemma_su_order_trans(a: ServerUserV, b: ServerUserV, c: ServerUserV)
    requires
        server_user_before(a, b),
        server_user_before(b, c),
    ensures
        server_user_before(a, c),
{
    if a.on_homepage == b.on_homepage && b.on_homepage == c.on_homepage {
        crate::order::lemma_lex_trans(a.user, b.user, c.user);
    }
}

/// Mathematical image of the whole store.
#[verifier::ext_equal]
pub ghost struct StoreView {
    pub version: Option<int>,
    pub items: Seq<ItemRowV>,
    pub server_users: Seq<ServerUserV>,
    pub profiles: Seq<ProfileRowV>,
    pub follows: Seq<FollowRowV>,
}

impl StoreView {
    /// An item with this identity is stored.
    pub open spec fn has_item(self, u: Seq<u8>, s: Seq<u8>) -> bool {
        has_key(self.items, item_key(), (u, s))
    }

    /// The stored item with this identity.
    pub open spec fn item_at(self, u: Seq<u8>, s: Seq<u8>) -> ItemRowV {
        row_for(self.items, item_key(), (u, s))
    }

    /// This user is registered on the server.
    pub open spec fn has_server_user(self, u: Seq<u8>) -> bool {
        has_key(self.server_users, server_user_key(), u)
    }

    /// The registration row of this user.
    pub open spec fn server_user_at(self, u: Seq<u8>) -> ServerUserV {
        row_for(self.server_users, server_user_key(), u)
    }

    /// This user has a materialized profile.
    pub open spec fn has_profile(self, u: Seq<u8>) -> bool {
        has_key(self.profiles, profile_key(), u)
    }

    /// The materialized profile row of this user.
    pub open spec fn profile_at(self, u: Seq<u8>) -> ProfileRowV {
        row_for(self.profiles, profile_key(), u)
    }

    /// `src` currently follows `dst`.
    pub open spec fn has_follow(self, src: Seq<u8>, dst: Seq<u8>) -> bool {
        has_key(self.follows, follow_key(), (src, dst))
    }

    /// The materialized follow row for `(src, dst)`.
    pub open spec fn follow_at(self, src: Seq<u8>, dst: Seq<u8>) -> FollowRowV {
        row_for(self.follows, follow_key(), (src, dst))
    }

    /// The set of users `src` currently follows.
    pub open spec fn follow_set(self, src: Seq<u8>) -> Set<Seq<u8>> {
        Set::new(|dst: Seq<u8>| self.has_follow(src, dst))
    }

    /// A user the server recognizes: registered, or followed by someone
    /// registered (one level of indirection, not transitive).
    pub open spec fn known_user(self, u: Seq<u8>) -> bool {
        self.has_server_user(u) || exists|s: Seq<u8>|
            #[trigger] self.has_server_user(s) && self.has_follow(s, u)
    }

    /// The embedded timestamp of the item the materialized profile points
    /// at, if the user has one.
    pub open spec fn materialized_profile_ts(self, u: Seq<u8>) -> Option<int> {
        if self.has_profile(u) {
            Some(self.item_at(u, self.profile_at(u).signature).timestamp)
        } else {
            None
        }
    }

    /// The user's self-declared display name, from the materialized profile.
    pub open spec fn profile_name(self, u: Seq<u8>) -> Option<Seq<char>> {
        if self.has_profile(u) {
            Some(self.profile_at(u).display_name)
        } else {
            None
        }
    }

    /// Every identity value in every relation has its fixed length.
    pub open spec fn ids_wf(self) -> bool {
        &&& forall|i: int|
            0 <= i < self.items.len() ==> (#[trigger] self.items[i]).user.len() == USER_ID_LEN
                && self.items[i].signature.len() == SIGNATURE_LEN
        &&& forall|i: int|
            0 <= i < self.server_users.len() ==> (#[trigger] self.server_users[i]).user.len()
                == USER_ID_LEN
        &&& forall|i: int|
            0 <= i < self.profiles.len() ==> (#[trigger] self.profiles[i]).user.len() == USER_ID_LEN
                && self.profiles[i].signature.len() == SIGNATURE_LEN
        &&& forall|i: int|
            0 <= i < self.follows.len() ==> (#[trigger] self.follows[i]).source.len() == USER_ID_LEN
                && self.follows[i].followed.len() == USER_ID_LEN
    }

    /// The schema invariants: key uniqueness in every relation, the index
    /// orders, and every materialized profile pointing at a stored item.
    pub open spec fn wf(self) -> bool {
        &&& unique_keys(self.items, item_key())
        &&& unique_keys(self.server_users, server_user_key())
        &&& unique_keys(self.profiles, profile_key())
        &&& unique_keys(self.follows, follow_key())
        &&& sorted_desc_by(self.items, item_ts())
        &&& forall|i: int, j: int|
            0 <= i < j < self.server_users.len() ==> server_user_before(
                #[trigger] self.server_users[i],
                #[trigger] self.server_users[j],
            )
        &&& forall|u: Seq<u8>|
            #[trigger] self.has_profile(u) ==> self.has_item(u, self.profile_at(u).signature)
        &&& self.ids_wf()
    }
}

/// Well-formedness does not depend on the version marker: it carries over
/// between two store images whose relations agree.
pub proof fn lemma_wf_same_relations(a: StoreView, b: StoreView)
    requires
        b.items == a.items,
        b.server_users == a.server_users,
        b.profiles == a.profiles,
        b.follows == a.follows,
    ensures
        a.wf() ==> b.wf(),
{
    if a.wf() {
        assert forall|u: Seq<u8>| #[trigger] b.has_profile(u) implies b.has_item(
            u,
            b.profile_at(u).signature,
        ) by {
            assert(a.has_profile(u));
            assert(b.profile_at(u) == a.profile_at(u));
            assert(a.has_item(u, a.profile_at(u).signature));
        }
        assert(b.wf());
    }
}

/// The profile substructure of a payload, if it is a profile-type item.
pub open spec fn data_profile(d: ItemDataV) -> Option<ProfileDataV> {
    match d.item_type {
        Some(ItemTypeV::Profile(p)) => Some(p),
        _ => None,
    }
}

/// The alias a declared follow list gives `dst`: the last declaration wins
/// when the same user appears more than once; `None` when `dst` is not
/// declared at all.
pub open spec fn declared_alias(fs: Seq<FollowEntryV>, dst: Seq<u8>) -> Option<Seq<char>>
    decreases fs.len(),
{
    if fs.len() == 0 {
        None
    } else if fs.last().user == dst {
        Some(fs.last().display_name)
    } else {
        declared_alias(fs.drop_last(), dst)
    }
}

/// Whether an incoming profile-type item becomes the user's materialized
/// profile: only when it is one, and its embedded timestamp is strictly
/// newer than the currently materialized profile's (an absent profile is
/// older than anything).
pub open spec fn profile_update_applies(pre: StoreView, user: Seq<u8>, d: ItemDataV) -> bool {
    data_profile(d) is Some && match pre.materialized_profile_ts(user) {
        None => true,
        Some(t) => t < d.timestamp_ms_utc,
    }
}

/// The item relation grew by exactly `row`; every other item reads as
/// before.
pub open spec fn items_extended(pre: StoreView, post: StoreView, row: ItemRowV) -> bool {
    &&& post.items.len() == pre.items.len() + 1
    &&& forall|u: Seq<u8>, s: Seq<u8>|
        #[trigger] post.has_item(u, s) <==> pre.has_item(u, s) || (u == row.user && s
            == row.signature)
    &&& post.item_at(row.user, row.signature) == row
    &&& forall|u: Seq<u8>, s: Seq<u8>|
        #[trigger] pre.has_item(u, s) ==> post.item_at(u, s) == pre.item_at(u, s)
}

/// The materialized profile and follow relations are untouched.
pub open spec fn profile_unchanged(pre: StoreView, post: StoreView) -> bool {
    post.profiles == pre.profiles && post.follows == pre.follows
}

/// The profile declared by `(user, signature, p)` is now materialized: the
/// user's profile row points at that item, their follow rows are exactly
/// the declared list (duplicates collapsed, last alias wins), and no other
/// user's materialized state moved.
pub open spec fn profile_materialized(
    pre: StoreView,
    post: StoreView,
    user: Seq<u8>,
    signature: Seq<u8>,
    p: ProfileDataV,
) -> bool {
    &&& forall|u: Seq<u8>| u != user ==> (#[trigger] post.has_profile(u) <==> pre.has_profile(u))
    &&& forall|u: Seq<u8>|
        u != user && pre.has_profile(u) ==> #[trigger] post.profile_at(u) == pre.profile_at(u)
    &&& post.has_profile(user)
    &&& post.profile_at(user) == (ProfileRowV { user, signature, display_name: p.display_name })
    &&& forall|s2: Seq<u8>, dst: Seq<u8>|
        s2 != user ==> (#[trigger] post.has_follow(s2, dst) <==> pre.has_follow(s2, dst))
    &&& forall|s2: Seq<u8>, dst: Seq<u8>|
        s2 != user && pre.has_follow(s2, dst) ==> #[trigger] post.follow_at(s2, dst)
            == pre.follow_at(s2, dst)
    &&& forall|dst: Seq<u8>|
        #[trigger] post.has_follow(user, dst) <==> declared_alias(p.follows, dst) is Some
    &&& forall|dst: Seq<u8>|
        #[trigger] post.has_follow(user, dst) ==> post.follow_at(user, dst) == (FollowRowV {
            source: user,
            followed: dst,
            display_name: declared_alias(p.follows, dst).unwrap(),
        })
}

/// Everything `save_item` promises about the store it leaves behind, for
/// each outcome.
pub open spec fn save_transition(
    pre: StoreView,
    post: StoreView,
    row: ItemRowV,
    d: ItemDataV,
    outcome: SaveOutcome,
) -> bool {
    if pre.has_item(row.user, row.signature) {
        outcome == SaveOutcome::AlreadyExists && post == pre
    } else {
        &&& outcome == SaveOutcome::Inserted
        &&& post.version == pre.version
        &&& post.server_users == pre.server_users
        &&& items_extended(pre, post, row)
        &&& if profile_update_applies(pre, row.user, d) {
            profile_materialized(pre, post, row.user, row.signature, data_profile(d).unwrap())
        } else {
            profile_unchanged(pre, post)
        }
    }
}

/// The store: a versioned schema of five relations.
pub struct Store {
    version: Option<u32>,
    items: Vec<ItemRow>,
    server_users: Vec<ServerUser>,
    profiles: Vec<ProfileRow>,
    follows: Vec<FollowRow>,
}

impl View for Store {
    type V = StoreView;

    closed spec fn view(&self) -> StoreView {
        StoreView {
            version: match self.version {
                None => None,
                Some(v) => Some(v as int),
            },
            items: self.items@.map_values(|r: ItemRow| r@),
            server_users: self.server_users@.map_values(|r: ServerUser| r@),
            profiles: self.profiles@.map_values(|r: ProfileRow| r@),
            follows: self.follows@.map_values(|r: FollowRow| r@),
        }
    }
}

/// The image of a store no writes have reached.
pub open spec fn empty_store() -> StoreView {
    StoreView {
        version: None,
        items: Seq::empty(),
        server_users: Seq::empty(),
        profiles: Seq::empty(),
        follows: Seq::empty(),
    }
}

impl Store {
    /// Opens a fresh, empty store: no schema yet, no rows.
    pub fn new() -> (r: Store)
        ensures
            r@ =~= empty_store(),
            r@.wf(),
    {
        let s = Store {
            version: None,
            items: Vec::new(),
            server_users: Vec::new(),
            profiles: Vec::new(),
            follows: Vec::new(),
        };
        proof {
            assert(s@.items =~= Seq::<ItemRowV>::empty());
            assert(s@.server_users =~= Seq::<ServerUserV>::empty());
            assert(s@.profiles =~= Seq::<ProfileRowV>::empty());
            assert(s@.follows =~= Seq::<FollowRowV>::empty());
        }
        s
    }

    /// The stamped schema version, if the schema has been created.
    pub fn version_marker(&self) -> (r: Option<u32>)
        ensures
            match r {
                None => self@.version is None,
                Some(v) => self@.version == Some(v as int),
            },
    {
        self.version
    }

    /// Overwrites the version marker without touching any relation.  This is
    /// the operator's escape hatch (and the way a test simulates a store
    /// stamped by another engine); ordinary callers never need it.
    pub fn set_version_marker(&mut self, v: u32)
        ensures
            final(self)@ == (StoreView { version: Some(v as int), ..old(self)@ }),
            old(self)@.wf() ==> final(self)@.wf(),
    {
        self.version = Some(v);
        proof {
            lemma_wf_same_relations(old(self)@, self@);
        }
    }

    /// Creates the schema on an empty store, stamping the current version;
    /// on a non-empty store, succeeds as a no-op at the current version,
    /// and refuses to operate on a newer or older one.
    pub fn open_schema(&mut self) -> (r: Result<(), StoreError>)
        ensures
            final(self)@.items == old(self)@.items,
            final(self)@.server_users == old(self)@.server_users,
            final(self)@.profiles == old(self)@.profiles,
            final(self)@.follows == old(self)@.follows,
            old(self)@.wf() ==> final(self)@.wf(),
            match old(self)@.version {
                None => r is Ok && final(self)@.version == Some(CURRENT_SCHEMA_VERSION as int),
                Some(v) => final(self)@.version == old(self)@.version && if v
                    == CURRENT_SCHEMA_VERSION as int {
                    r is Ok
                } else if v > CURRENT_SCHEMA_VERSION as int {
                    r == Err::<(), StoreError>(StoreError::VersionTooNew)
                } else {
                    r == Err::<(), StoreError>(StoreError::MigrationNeeded)
                },
            },
    {
        match self.version {
            None => {
                self.version = Some(CURRENT_SCHEMA_VERSION);
                proof {
                    lemma_wf_same_relations(old(self)@, self@);
                }
                Ok(())
            },
            Some(v) => {
                if v == CURRENT_SCHEMA_VERSION {
                    Ok(())
                } else if v > CURRENT_SCHEMA_VERSION {
                    Err(StoreError::VersionTooNew)
                } else {
                    Err(StoreError::MigrationNeeded)
                }
            },
        }
    }
    /// The index of the stored item with this identity, if any.
    fn find_item_index(&self, user: &UserID, signature: &Signature) -> (r: Option<usize>)
        requires
            unique_keys(self@.items, item_key()),
        ensures
            match r {
                Some(i) => self@.has_item(user@, signature@) && i < self@.items.len() && key_index(
                    self@.items,
                    item_key(),
                    (user@, signature@),
                ) == i as int && self@.item_at(user@, signature@) == self@.items[i as int],
                None => !self@.has_item(user@, signature@),
            },
    {
        let n: usize = self.items.len();
        let mut i: usize = 0;
        while i < n
            invariant
                unique_keys(self@.items, item_key()),
                n == self@.items.len(),
                i <= n,
                forall|j: int|
                    0 <= j < i ==> item_key()(#[trigger] self@.items[j]) != (user@, signature@),
            decreases n - i,
        {
            if self.items[i].user.matches(user) && self.items[i].signature.matches(signature) {
                proof {
                    assert(item_key()(self@.items[i as int]) == (user@, signature@));
                    crate::keyed::lemma_found_at(self@.items, item_key(), i as int);
                }
                return Some(i);
            }
            i = i + 1;
        }
        proof {
            if self@.has_item(user@, signature@) {
                let j = choose|j: int|
                    0 <= j < self@.items.len() && item_key()(#[trigger] self@.items[j]) == (
                    user@,
                    signature@,
                    );
                assert(item_key()(self@.items[j]) != (user@, signature@));
            }
        }
        None
    }

    /// The index of the registration row of this user, if any.
    fn find_server_user_index(&self, user: &UserID) -> (r: Option<usize>)
        requires
            unique_keys(self@.server_users, server_user_key()),
        ensures
            match r {
                Some(i) => self@.has_server_user(user@) && i < self@.server_users.len()
                    && key_index(self@.server_users, server_user_key(), user@) == i as int
                    && self@.server_user_at(user@) == self@.server_users[i as int],
                None => !self@.has_server_user(user@),
            },
    {
        let n: usize = self.server_users.len();
        let mut i: usize = 0;
        while i < n
            invariant
                unique_keys(self@.server_users, server_user_key()),
                n == self@.server_users.len(),
                i <= n,
                forall|j: int|
                    0 <= j < i ==> server_user_key()(#[trigger] self@.server_users[j]) != user@,
            decreases n - i,
        {
            if self.server_users[i].user.matches(user) {
                proof {
                    assert(server_user_key()(self@.server_users[i as int]) == user@);
                    crate::keyed::lemma_found_at(self@.server_users, server_user_key(), i as int);
                }
                return Some(i);
            }
            i = i + 1;
        }
        proof {
            if self@.has_server_user(user@) {
                let j = choose|j: int|
                    0 <= j < self@.server_users.len() && server_user_key()(
                        #[trigger] self@.server_users[j],
                    ) == user@;
                assert(server_user_key()(self@.server_users[j]) != user@);
            }
        }
        None
    }

    /// The index of the materialized profile row of this user, if any.
    fn find_profile_index(&self, user: &UserID) -> (r: Option<usize>)
        requires
            unique_keys(self@.profiles, profile_key()),
        ensures
            match r {
                Some(i) => self@.has_profile(user@) && i < self@.profiles.len() && key_index(
                    self@.profiles,
                    profile_key(),
                    user@,
                ) == i as int && self@.profile_at(user@) == self@.profiles[i as int],
                None => !self@.has_profile(user@),
            },
    {
        let n: usize = self.profiles.len();
        let mut i: usize = 0;
        while i < n
            invariant
                unique_keys(self@.profiles, profile_key()),
                n == self@.profiles.len(),
                i <= n,
                forall|j: int| 0 <= j < i ==> profile_key()(#[trigger] self@.profiles[j]) != user@,
            decreases n - i,
        {
            if self.profiles[i].user.matches(user) {
                proof {
                    assert(profile_key()(self@.profiles[i as int]) == user@);
                    crate::keyed::lemma_found_at(self@.profiles, profile_key(), i as int);
                }
                return Some(i);
            }
            i = i + 1;
        }
        proof {
            if self@.has_profile(user@) {
                let j = choose|j: int|
                    0 <= j < self@.profiles.len() && profile_key()(#[trigger] self@.profiles[j])
                        == user@;
                assert(profile_key()(self@.profiles[j]) != user@);
            }
        }
        None
    }

    /// The index of the follow row for `(source, followed)`, if any.
    fn find_follow_index(&self, source: &UserID, followed: &UserID) -> (r: Option<usize>)
        requires
            unique_keys(self@.follows, follow_key()),
        ensures
            match r {
                Some(i) => self@.has_follow(source@, followed@) && i < self@.follows.len()
                    && key_index(self@.follows, follow_key(), (source@, followed@)) == i as int
                    && self@.follow_at(source@, followed@) == self@.follows[i as int],
                None => !self@.has_follow(source@, followed@),
            },
    {
        let n: usize = self.follows.len();
        let mut i: usize = 0;
        while i < n
            invariant
                unique_keys(self@.follows, follow_key()),
                n == self@.follows.len(),
                i <= n,
                forall|j: int|
                    0 <= j < i ==> follow_key()(#[trigger] self@.follows[j]) != (
                    source@,
                    followed@,
                    ),
            decreases n - i,
        {
            if self.follows[i].source.matches(source) && self.follows[i].followed.matches(
                followed,
            ) {
                proof {
                    assert(follow_key()(self@.follows[i as int]) == (source@, followed@));
                    crate::keyed::lemma_found_at(self@.follows, follow_key(), i as int);
                }
                return Some(i);
            }
            i = i + 1;
        }
        proof {
            if self@.has_follow(source@, followed@) {
                let j = choose|j: int|
                    0 <= j < self@.follows.len() && follow_key()(#[trigger] self@.follows[j]) == (
                    source@,
                    followed@,
                    );
                assert(follow_key()(self@.follows[j]) != (source@, followed@));
            }
        }
        None
    }

    /// Whether an item with this `(user, signature)` identity is stored.
    pub fn item_exists(&self, user: &UserID, signature: &Signature) -> (r: bool)
        requires
            self@.wf(),
        ensures
            r == self@.has_item(user@, signature@),
    {
        self.find_item_index(user, signature).is_some()
    }

    /// The stored item with this identity, if any.
    pub fn get_item(&self, user: &UserID, signature: &Signature) -> (r: Option<ItemRow>)
        requires
            self@.wf(),
        ensures
            match r {
                Some(row) => self@.has_item(user@, signature@) && row@ == self@.item_at(
                    user@,
                    signature@,
                ) && row.wf(),
                None => !self@.has_item(user@, signature@),
            },
    {
        match self.find_item_index(user, signature) {
            None => None,
            Some(i) => Some(self.items[i].clone()),
        }
    }

    /// The registration row of this user, if any.
    pub fn get_server_user(&self, user: &UserID) -> (r: Option<ServerUser>)
        requires
            self@.wf(),
        ensures
            match r {
                Some(row) => self@.has_server_user(user@) && row@ == self@.server_user_at(user@)
                    && row.wf(),
                None => !self@.has_server_user(user@),
            },
    {
        match self.find_server_user_index(user) {
            None => None,
            Some(i) => Some(self.server_users[i].clone()),
        }
    }

    /// The full stored item behind this user's materialized profile, if they
    /// have one: the profile view resolves `(user, signature)`, and the item
    /// fetch path loads the row.
    pub fn get_profile(&self, user: &UserID) -> (r: Option<ItemRow>)
        requires
            self@.wf(),
        ensures
            match r {
                Some(row) => self@.has_profile(user@) && row@ == self@.item_at(
                    user@,
                    self@.profile_at(user@).signature,
                ) && row.wf(),
                None => !self@.has_profile(user@),
            },
    {
        let i = match self.find_profile_index(user) {
            None => {
                return None;
            },
            Some(i) => i,
        };
        let signature = self.profiles[i].signature.clone();
        let r = self.get_item(user, &signature);
        proof {
            assert(self@.has_item(user@, self@.profile_at(user@).signature));
        }
        r
    }

    /// The embedded timestamp of the item behind this user's materialized
    /// profile, if they have one.
    fn materialized_ts_of(&self, user: &UserID) -> (r: Option<i64>)
        requires
            self@.wf(),
        ensures
            match r {
                Some(t) => self@.materialized_profile_ts(user@) == Some(t as int),
                None => self@.materialized_profile_ts(user@) is None,
            },
    {
        let i = match self.find_profile_index(user) {
            None => {
                return None;
            },
            Some(i) => i,
        };
        let signature = self.profiles[i].signature.clone();
        proof {
            assert(self@.has_item(user@, self@.profile_at(user@).signature));
        }
        match self.find_item_index(user, &signature) {
            None => {
                proof {
                    assert(false);
                }
                None
            },
            Some(j) => Some(self.items[j].timestamp.unix_utc_ms),
        }
    }

    /// Inserts a fresh item row at its place in the descending-timestamp
    /// order.
    fn insert_item_row(&mut self, row: ItemRow)
        requires
            old(self)@.wf(),
            row.wf(),
            !old(self)@.has_item(row.user@, row.signature@),
        ensures
            final(self)@.version == old(self)@.version,
            final(self)@.server_users == old(self)@.server_users,
            final(self)@.profiles == old(self)@.profiles,
            final(self)@.follows == old(self)@.follows,
            items_extended(old(self)@, final(self)@, row@),
            final(self)@.wf(),
    {
        let ghost pre = self@;
        let n: usize = self.items.len();
        let mut pos: usize = 0;
        while pos < n && self.items[pos].timestamp.unix_utc_ms >= row.timestamp.unix_utc_ms
            invariant
                n == self@.items.len(),
                pos <= n,
                self@ == pre,
                forall|j: int| 0 <= j < pos ==> item_ts()(#[trigger] self@.items[j]) >= row@.timestamp,
            decreases n - pos,
        {
            pos = pos + 1;
        }
        self.items.insert(pos, row);
        proof {
            let post = self@;
            assert(post.items =~= pre.items.insert(pos as int, row@)) by {
                assert(self.items@ == old(self).items@.insert(pos as int, row));
                assert forall|i: int| 0 <= i < post.items.len() implies post.items[i]
                    == pre.items.insert(pos as int, row@)[i] by {
                    assert(post.items[i] == self.items@[i]@);
                }
            }
            crate::keyed::lemma_insert(pre.items, item_key(), pos as int, row@);
            // The new row stands between the (older-or-equal-stamped) prefix
            // and the strictly older suffix.
            assert(pos < pre.items.len() ==> item_ts()(pre.items[pos as int]) < row@.timestamp);
            assert forall|i: int, j: int| 0 <= i < j < post.items.len() implies item_ts()(
                post.items[i],
            ) >= item_ts()(post.items[j]) by {
                let p = pos as int;
                if i < p && j == p {
                    assert(post.items[i] == pre.items[i]);
                } else if i == p && j > p {
                    assert(post.items[j] == pre.items[j - 1]);
                    assert(j - 1 >= p);
                    if j - 1 > p {
                        assert(item_ts()(pre.items[j - 1]) <= item_ts()(pre.items[p]));
                    }
                } else if i < p && j > p {
                    assert(post.items[i] == pre.items[i] && post.items[j] == pre.items[j - 1]);
                } else if i != p && j != p {
                    let i0 = if i < p {
                        i
                    } else {
                        i - 1
                    };
                    let j0 = if j < p {
                        j
                    } else {
                        j - 1
                    };
                    assert(post.items[i] == pre.items[i0] && post.items[j] == pre.items[j0]);
                }
            }
            assert(post.version == pre.version);
            assert(post.server_users =~= pre.server_users);
            assert(post.profiles =~= pre.profiles);
            assert(post.follows =~= pre.follows);
            assert forall|i: int| 0 <= i < post.items.len() implies (#[trigger] post.items[i]).user.len()
                == USER_ID_LEN && post.items[i].signature.len() == SIGNATURE_LEN by {
                let p = pos as int;
                if i < p {
                    assert(post.items[i] == pre.items[i]);
                } else if i > p {
                    assert(post.items[i] == pre.items[i - 1]);
                }
            }
            assert forall|u: Seq<u8>| #[trigger] post.has_profile(u) implies post.has_item(
                u,
                post.profile_at(u).signature,
            ) by {
                assert(post.profiles == pre.profiles);
                assert(pre.has_profile(u));
                assert(post.profile_at(u) == pre.profile_at(u));
                assert(pre.has_item(u, pre.profile_at(u).signature));
            }
        }
    }

    /// Materializes the profile declared by the stored item `(user,
    /// signature)`: replaces the user's follow rows with the declared list
    /// and points their profile row at the item.
    fn apply_profile_update(&mut self, user: &UserID, signature: &Signature, profile: &ProfileData)
        requires
            old(self)@.wf(),
            user.wf(),
            signature.wf(),
            profile.wf(),
            old(self)@.has_item(user@, signature@),
        ensures
            final(self)@.version == old(self)@.version,
            final(self)@.items == old(self)@.items,
            final(self)@.server_users == old(self)@.server_users,
            profile_materialized(old(self)@, final(self)@, user@, signature@, profile@),
            final(self)@.wf(),
    {
        let ghost pre = self@;
        let ghost pf = profile@.follows;
        // Drop every follow row this user previously declared.
        let n: usize = self.follows.len();
        let mut kept: Vec<FollowRow> = Vec::new();
        let mut i: usize = 0;
        while i < n
            invariant
                self@ == pre,
                pre.wf(),
                user.wf(),
                n == pre.follows.len(),
                i <= n,
                unique_keys(follows_view(kept@), follow_key()),
                forall|k: (Seq<u8>, Seq<u8>)|
                    #[trigger] has_key(follows_view(kept@), follow_key(), k) <==> (
                    has_key(pre.follows.take(i as int), follow_key(), k) && k.0 != user@),
                forall|k: (Seq<u8>, Seq<u8>)|
                    has_key(follows_view(kept@), follow_key(), k)
                        ==> #[trigger] row_for(follows_view(kept@), follow_key(), k)
                        == row_for(pre.follows.take(i as int), follow_key(), k),
                forall|j: int|
                    0 <= j < follows_view(kept@).len() ==> (#[trigger] follows_view(kept@)[j]).source.len()
                        == USER_ID_LEN && follows_view(kept@)[j].followed.len() == USER_ID_LEN,
            decreases n - i,
        {
            let ghost kv = follows_view(kept@);
            let ghost ti = pre.follows.take(i as int);
            let ghost cur = pre.follows[i as int];
            proof {
                assert(pre.follows.take(i + 1) =~= ti.push(cur));
                assert(unique_keys(ti, follow_key())) by {
                    assert(forall|a: int| 0 <= a < i ==> ti[a] == pre.follows[a]);
                }
                if has_key(ti, follow_key(), follow_key()(cur)) {
                    let a = key_index(ti, follow_key(), follow_key()(cur));
                    assert(0 <= a < i && follow_key()(pre.follows[a]) == follow_key()(cur));
                }
                crate::keyed::lemma_push(ti, follow_key(), cur);
            }
            let keep = !self.follows[i].source.matches(user);
            if keep {
                let rowc = self.follows[i].clone();
                proof {
                    crate::keyed::lemma_push(kv, follow_key(), cur);
                }
                kept.push(rowc);
                proof {
                    assert(follows_view(kept@) =~= kv.push(cur));
                }
            }
            i = i + 1;
        }
        proof {
            assert(pre.follows.take(n as int) =~= pre.follows);
        }
        self.follows = kept;
        // Insert one row per declared follow; a repeated followed-user
        // replaces the earlier row, so the last declaration wins.
        let m: usize = profile.follows.len();
        let mut t: usize = 0;
        proof {
            assert(self@.follows == follows_view(kept@));
            assert(pf.take(0) =~= Seq::<FollowEntryV>::empty());
            assert(self@.items =~= pre.items);
            assert(self@.server_users =~= pre.server_users);
            assert(self@.profiles =~= pre.profiles);
        }
        while t < m
            invariant
                self@.version == pre.version,
                self@.items == pre.items,
                self@.server_users == pre.server_users,
                self@.profiles == pre.profiles,
                pre.wf(),
                user.wf(),
                profile.wf(),
                pf == profile@.follows,
                m == profile.follows@.len(),
                t <= m,
                unique_keys(self@.follows, follow_key()),
                forall|s2: Seq<u8>, dst: Seq<u8>|
                    s2 != user@ ==> (#[trigger] self@.has_follow(s2, dst) <==> pre.has_follow(
                        s2,
                        dst,
                    )),
                forall|s2: Seq<u8>, dst: Seq<u8>|
                    s2 != user@ && pre.has_follow(s2, dst) ==> #[trigger] self@.follow_at(s2, dst)
                        == pre.follow_at(s2, dst),
                forall|dst: Seq<u8>|
                    #[trigger] self@.has_follow(user@, dst) <==> declared_alias(
                        pf.take(t as int),
                        dst,
                    ) is Some,
                forall|dst: Seq<u8>|
                    #[trigger] self@.has_follow(user@, dst) ==> self@.follow_at(user@, dst) == (
                    FollowRowV {
                        source: user@,
                        followed: dst,
                        display_name: declared_alias(pf.take(t as int), dst).unwrap(),
                    }),
                forall|j: int|
                    0 <= j < self@.follows.len() ==> (#[trigger] self@.follows[j]).source.len()
                        == USER_ID_LEN && self@.follows[j].followed.len() == USER_ID_LEN,
            decreases m - t,
        {
            let ghost shead = self@;
            let ghost oldfv = self@.follows;
            let entry_user = profile.follows[t].user.clone();
            let entry_name = profile.follows[t].display_name.clone();
            let newrow = FollowRow {
                source: user.clone(),
                followed: entry_user,
                display_name: entry_name,
            };
            proof {
                assert(pf[t as int] == profile.follows@[t as int]@);
                assert(newrow@ == (FollowRowV {
                    source: user@,
                    followed: pf[t as int].user,
                    display_name: pf[t as int].display_name,
                }));
                assert(pf.take(t + 1).drop_last() =~= pf.take(t as int));
                assert(pf.take(t + 1).last() == pf[t as int]);
            }
            let ghost oldvec = self.follows@;
            match self.find_follow_index(user, &profile.follows[t].user) {
                Some(idx) => {
                    let ghost newrowv = newrow@;
                    self.follows.set(idx, newrow);
                    proof {
                        assert(self@.follows =~= oldfv.update(idx as int, newrowv)) by {
                            assert forall|q: int| 0 <= q < self@.follows.len() implies self@.follows[q]
                                == oldfv.update(idx as int, newrowv)[q] by {
                                if q != idx {
                                    assert(self.follows@[q] == oldvec[q]);
                                }
                            }
                        }
                        assert(follow_key()(oldfv[idx as int]) == (user@, pf[t as int].user));
                        crate::keyed::lemma_update(oldfv, follow_key(), idx as int, newrowv);
                    }
                },
                None => {
                    let ghost newrowv = newrow@;
                    self.follows.push(newrow);
                    proof {
                        assert(self@.follows =~= oldfv.push(newrowv)) by {
                            assert forall|q: int| 0 <= q < self@.follows.len() implies self@.follows[q]
                                == oldfv.push(newrowv)[q] by {
                                if q < oldfv.len() {
                                    assert(self.follows@[q] == oldvec[q]);
                                }
                            }
                        }
                        crate::keyed::lemma_push(oldfv, follow_key(), newrowv);
                    }
                },
            }
            proof {
                let newkey = (user@, pf[t as int].user);
                let newrv = (FollowRowV {
                    source: user@,
                    followed: pf[t as int].user,
                    display_name: pf[t as int].display_name,
                });
                assert(profile.follows@[t as int].user.wf());
                assert(pf[t as int].user.len() == USER_ID_LEN);
                assert forall|k: (Seq<u8>, Seq<u8>)| #[trigger] has_key(
                    self@.follows,
                    follow_key(),
                    k,
                ) <==> (has_key(oldfv, follow_key(), k) || k == newkey) by {}
                assert(has_key(self@.follows, follow_key(), newkey));
                assert(row_for(self@.follows, follow_key(), newkey) == newrv);
                assert forall|k: (Seq<u8>, Seq<u8>)|
                    k != newkey && has_key(oldfv, follow_key(), k) implies #[trigger] row_for(
                    self@.follows,
                    follow_key(),
                    k,
                ) == row_for(oldfv, follow_key(), k) by {}
                assert forall|dst: Seq<u8>| #[trigger] has_key(
                    self@.follows,
                    follow_key(),
                    (user@, dst),
                ) <==> declared_alias(pf.take(t + 1), dst) is Some by {
                    assert(shead.has_follow(user@, dst) <==> declared_alias(
                        pf.take(t as int),
                        dst,
                    ) is Some);
                    assert(shead.has_follow(user@, dst) == has_key(oldfv, follow_key(), (user@, dst)));
                    assert(declared_alias(pf.take(t + 1), dst) == (if pf[t as int].user == dst {
                        Some(pf[t as int].display_name)
                    } else {
                        declared_alias(pf.take(t as int), dst)
                    }));
                }
                assert forall|dst: Seq<u8>| #[trigger] has_key(
                    self@.follows,
                    follow_key(),
                    (user@, dst),
                ) implies row_for(self@.follows, follow_key(), (user@, dst)) == (FollowRowV {
                    source: user@,
                    followed: dst,
                    display_name: declared_alias(pf.take(t + 1), dst).unwrap(),
                }) by {
                    assert(declared_alias(pf.take(t + 1), dst) == (if pf[t as int].user == dst {
                        Some(pf[t as int].display_name)
                    } else {
                        declared_alias(pf.take(t as int), dst)
                    }));
                    if dst != pf[t as int].user {
                        assert((user@, dst) != newkey);
                        assert(shead.has_follow(user@, dst));
                        assert(shead.has_follow(user@, dst) == has_key(
                            oldfv,
                            follow_key(),
                            (user@, dst),
                        ));
                        assert(shead.follow_at(user@, dst) == (FollowRowV {
                            source: user@,
                            followed: dst,
                            display_name: declared_alias(pf.take(t as int), dst).unwrap(),
                        }));
                        assert(shead.follow_at(user@, dst) == row_for(
                            oldfv,
                            follow_key(),
                            (user@, dst),
                        ));
                    }
                }
                assert forall|s2: Seq<u8>, dst: Seq<u8>| s2 != user@ implies (
                #[trigger] self@.has_follow(s2, dst) <==> pre.has_follow(s2, dst)) by {
                    assert(shead.has_follow(s2, dst) <==> pre.has_follow(s2, dst));
                    assert(shead.has_follow(s2, dst) == has_key(oldfv, follow_key(), (s2, dst)));
                    assert((s2, dst) != newkey);
                }
                assert forall|s2: Seq<u8>, dst: Seq<u8>|
                    s2 != user@ && pre.has_follow(s2, dst) implies #[trigger] self@.follow_at(
                    s2,
                    dst,
                ) == pre.follow_at(s2, dst) by {
                    assert(shead.has_follow(s2, dst) <==> pre.has_follow(s2, dst));
                    assert(shead.has_follow(s2, dst) == has_key(oldfv, follow_key(), (s2, dst)));
                    assert((s2, dst) != newkey);
                    assert(shead.follow_at(s2, dst) == pre.follow_at(s2, dst));
                    assert(shead.follow_at(s2, dst) == row_for(oldfv, follow_key(), (s2, dst)));
                }
                assert forall|j: int| 0 <= j < self@.follows.len() implies (
                #[trigger] self@.follows[j]).source.len() == USER_ID_LEN
                    && self@.follows[j].followed.len() == USER_ID_LEN by {
                    if j < oldfv.len() && self@.follows[j] == oldfv[j] {
                    } else {
                        assert(self@.follows[j] == newrv);
                    }
                }
            }
            t = t + 1;
        }
        proof {
            assert(pf.take(m as int) =~= pf);
        }
        // Point the profile row at this item.
        let prow = ProfileRow {
            user: user.clone(),
            signature: signature.clone(),
            display_name: profile.display_name.clone(),
        };
        let ghost prowv = prow@;
        let ghost oldpv = self@.profiles;
        let ghost oldpvec = self.profiles@;
        let ghost s2view = self@;
        match self.find_profile_index(user) {
            Some(idx) => {
                self.profiles.set(idx, prow);
                proof {
                    assert(self@.profiles =~= oldpv.update(idx as int, prowv)) by {
                        assert forall|q: int| 0 <= q < self@.profiles.len() implies self@.profiles[q]
                            == oldpv.update(idx as int, prowv)[q] by {
                            if q != idx {
                                assert(self.profiles@[q] == oldpvec[q]);
                            }
                        }
                    }
                    crate::keyed::lemma_update(oldpv, profile_key(), idx as int, prowv);
                }
            },
            None => {
                self.profiles.push(prow);
                proof {
                    assert(self@.profiles =~= oldpv.push(prowv)) by {
                        assert forall|q: int| 0 <= q < self@.profiles.len() implies self@.profiles[q]
                            == oldpv.push(prowv)[q] by {
                            if q < oldpv.len() {
                                assert(self.profiles@[q] == oldpvec[q]);
                            }
                        }
                    }
                    crate::keyed::lemma_push(oldpv, profile_key(), prowv);
                }
            },
        }
        proof {
            let post = self@;
            // The user's follow rows and profile row are as declared; nobody
            // else's materialized state moved.
            assert(post.follows == s2view.follows);
            assert(oldpv == pre.profiles);
            assert(pf.take(m as int) =~= pf);
            assert forall|dst: Seq<u8>| #[trigger] post.has_follow(user@, dst) <==> declared_alias(
                pf,
                dst,
            ) is Some by {
                assert(s2view.has_follow(user@, dst) <==> declared_alias(
                    pf.take(m as int),
                    dst,
                ) is Some);
                assert(post.has_follow(user@, dst) == s2view.has_follow(user@, dst));
            }
            assert forall|dst: Seq<u8>| #[trigger] post.has_follow(user@, dst) implies post.follow_at(
                user@,
                dst,
            ) == (FollowRowV {
                source: user@,
                followed: dst,
                display_name: declared_alias(pf, dst).unwrap(),
            }) by {
                assert(post.has_follow(user@, dst) == s2view.has_follow(user@, dst));
                assert(s2view.has_follow(user@, dst));
                assert(s2view.follow_at(user@, dst) == (FollowRowV {
                    source: user@,
                    followed: dst,
                    display_name: declared_alias(pf.take(m as int), dst).unwrap(),
                }));
                assert(post.follow_at(user@, dst) == s2view.follow_at(user@, dst));
            }
            assert forall|s2: Seq<u8>, dst: Seq<u8>| s2 != user@ implies (#[trigger] post.has_follow(
                s2,
                dst,
            ) <==> pre.has_follow(s2, dst)) by {
                assert(s2view.has_follow(s2, dst) <==> pre.has_follow(s2, dst));
                assert(post.has_follow(s2, dst) == s2view.has_follow(s2, dst));
            }
            assert forall|s2: Seq<u8>, dst: Seq<u8>|
                s2 != user@ && pre.has_follow(s2, dst) implies #[trigger] post.follow_at(s2, dst)
                == pre.follow_at(s2, dst) by {
                assert(s2view.has_follow(s2, dst) <==> pre.has_follow(s2, dst));
                assert(s2view.follow_at(s2, dst) == pre.follow_at(s2, dst));
                assert(post.follow_at(s2, dst) == s2view.follow_at(s2, dst));
            }
            assert(prowv == (ProfileRowV {
                user: user@,
                signature: signature@,
                display_name: profile@.display_name,
            }));
            assert(post.has_profile(user@));
            assert(post.profile_at(user@) == prowv);
            assert forall|u: Seq<u8>| u != user@ implies (#[trigger] post.has_profile(u)
                <==> pre.has_profile(u)) by {
                assert(has_key(oldpv, profile_key(), u) == pre.has_profile(u));
            }
            assert forall|u: Seq<u8>| u != user@ && pre.has_profile(u) implies #[trigger] post.profile_at(
                u,
            ) == pre.profile_at(u) by {
                assert(has_key(oldpv, profile_key(), u) == pre.has_profile(u));
                assert(row_for(oldpv, profile_key(), u) == pre.profile_at(u));
            }
            assert(profile_materialized(pre, post, user@, signature@, profile@));
            // Well-formedness of the final image.
            assert(unique_keys(post.items, item_key()));
            assert(sorted_desc_by(post.items, item_ts()));
            assert forall|j: int| 0 <= j < post.profiles.len() implies (
            #[trigger] post.profiles[j]).user.len() == USER_ID_LEN && post.profiles[j].signature.len()
                == SIGNATURE_LEN by {
                if j < oldpv.len() && oldpv[j] == post.profiles[j] {
                }
            }
            assert forall|u: Seq<u8>| #[trigger] post.has_profile(u) implies post.has_item(
                u,
                post.profile_at(u).signature,
            ) by {
                if u == user@ {
                    assert(post.profile_at(u).signature == signature@);
                    assert(pre.has_item(u, signature@));
                } else {
                    assert(pre.has_profile(u));
                    assert(post.profile_at(u) == pre.profile_at(u));
                    assert(pre.has_item(u, pre.profile_at(u).signature));
                }
            }
            assert(post.wf());
        }
    }

    /// The central write path: stores the item as one atomic unit of work,
    /// and, when the payload is a profile item newer than the user's
    /// materialized profile, also replaces their profile and follow rows.
    /// A duplicate `(user, signature)` leaves the store untouched and is
    /// reported as `AlreadyExists`, not as an error.
    pub fn save_item(&mut self, row: &ItemRow, payload: &ItemData) -> (r: SaveOutcome)
        requires
            old(self)@.wf(),
            row.wf(),
            payload.wf(),
            row.timestamp.unix_utc_ms == payload.timestamp_ms_utc,
        ensures
            final(self)@.wf(),
            save_transition(old(self)@, final(self)@, row@, payload@, r),
    {
        if self.item_exists(&row.user, &row.signature) {
            return SaveOutcome::AlreadyExists;
        }
        let ghost pre = self@;
        // Decide, against the state before the write, whether this payload
        // becomes the user's materialized profile.
        let applies: bool = match &payload.item_type {
            Some(ItemTypeData::Profile(_)) => {
                match self.materialized_ts_of(&row.user) {
                    None => true,
                    Some(t) => t < payload.timestamp_ms_utc,
                }
            },
            _ => false,
        };
        proof {
            assert(applies == profile_update_applies(pre, row.user@, payload@));
        }
        let rowc = row.clone();
        self.insert_item_row(rowc);
        let ghost mid = self@;
        if applies {
            match &payload.item_type {
                Some(ItemTypeData::Profile(p)) => {
                    proof {
                        assert(self@.has_item(row.user@, row.signature@));
                    }
                    self.apply_profile_update(&row.user, &row.signature, p);
                    proof {
                        let post = self@;
                        assert(data_profile(payload@) == Some(p@));
                        assert forall|u: Seq<u8>| u != row.user@ implies (
                        #[trigger] post.has_profile(u) <==> pre.has_profile(u)) by {
                            assert(mid.has_profile(u) == pre.has_profile(u));
                            assert(post.has_profile(u) <==> mid.has_profile(u));
                        }
                        assert forall|u: Seq<u8>|
                            u != row.user@ && pre.has_profile(u) implies #[trigger] post.profile_at(
                            u,
                        ) == pre.profile_at(u) by {
                            assert(mid.has_profile(u) == pre.has_profile(u));
                            assert(mid.profile_at(u) == pre.profile_at(u));
                            assert(post.profile_at(u) == mid.profile_at(u));
                        }
                        assert forall|s2: Seq<u8>, dst: Seq<u8>| s2 != row.user@ implies (
                        #[trigger] post.has_follow(s2, dst) <==> pre.has_follow(s2, dst)) by {
                            assert(mid.has_follow(s2, dst) == pre.has_follow(s2, dst));
                            assert(post.has_follow(s2, dst) <==> mid.has_follow(s2, dst));
                        }
                        assert forall|s2: Seq<u8>, dst: Seq<u8>|
                            s2 != row.user@ && pre.has_follow(s2, dst) implies #[trigger] post.follow_at(
                            s2,
                            dst,
                        ) == pre.follow_at(s2, dst) by {
                            assert(mid.has_follow(s2, dst) == pre.has_follow(s2, dst));
                            assert(mid.follow_at(s2, dst) == pre.follow_at(s2, dst));
                            assert(post.follow_at(s2, dst) == mid.follow_at(s2, dst));
                        }
                        assert(profile_materialized(pre, post, row.user@, row.signature@, p@));
                        assert(items_extended(pre, post, row@)) by {
                            assert(post.items == mid.items);
                            assert forall|u: Seq<u8>, s2: Seq<u8>| #[trigger] post.has_item(u, s2)
                                <==> pre.has_item(u, s2) || (u == row.user@ && s2
                                == row.signature@) by {
                                assert(post.has_item(u, s2) == mid.has_item(u, s2));
                            }
                            assert(post.item_at(row.user@, row.signature@) == mid.item_at(
                                row.user@,
                                row.signature@,
                            ));
                            assert forall|u: Seq<u8>, s2: Seq<u8>| #[trigger] pre.has_item(
                                u,
                                s2,
                            ) implies post.item_at(u, s2) == pre.item_at(u, s2) by {
                                assert(post.item_at(u, s2) == mid.item_at(u, s2));
                            }
                        }
                    }
                },
                _ => {
                    proof {
                        assert(false);
                    }
                },
            }
        }
        SaveOutcome::Inserted
    }

    /// One user's items, newest first by embedded timestamp, strictly before
    /// the cursor, at most `limit` rows.
    pub fn list_user_items(&self, user: &UserID, before: Timestamp, limit: usize) -> (r: Vec<
        ItemRow,
    >)
        requires
            self@.wf(),
        ensures
            item_rows_view(r@) == take_up_to(
                user_rows(self@, user@, before.unix_utc_ms as int),
                limit as int,
            ),
            forall|j: int| 0 <= j < r@.len() ==> (#[trigger] r@[j]).wf(),
    {
        let ghost pred = user_items_pred(user@, before.unix_utc_ms as int);
        let n: usize = self.items.len();
        let mut out: Vec<ItemRow> = Vec::new();
        let mut i: usize = 0;
        while i < n && out.len() < limit
            invariant
                self@.wf(),
                pred == user_items_pred(user@, before.unix_utc_ms as int),
                n == self@.items.len(),
                i <= n,
                out@.len() <= limit,
                item_rows_view(out@) == self@.items.take(i as int).filter(pred),
                forall|j: int| 0 <= j < out@.len() ==> (#[trigger] out@[j]).wf(),
            decreases n - i,
        {
            let ghost ti = self@.items.take(i as int);
            let ghost cur = self@.items[i as int];
            proof {
                assert(self@.items.take(i + 1) =~= ti.push(cur));
                crate::order::lemma_filter_push(ti, cur, pred);
            }
            let keep = self.items[i].user.matches(user) && self.items[i].timestamp.unix_utc_ms
                < before.unix_utc_ms;
            proof {
                assert(keep == pred(cur));
            }
            if keep {
                let ghost outv = item_rows_view(out@);
                let rowc = self.items[i].clone();
                proof {
                    assert(rowc.wf()) by {
                        assert(cur.user.len() == USER_ID_LEN && cur.signature.len()
                            == SIGNATURE_LEN);
                    }
                }
                out.push(rowc);
                proof {
                    assert(item_rows_view(out@) =~= outv.push(cur));
                }
            }
            i = i + 1;
        }
        proof {
            let full = self@.items.filter(pred);
            if i == n {
                assert(self@.items.take(n as int) =~= self@.items);
                assert(full.len() <= limit) by {
                    assert(item_rows_view(out@).len() <= limit);
                }
                assert(item_rows_view(out@) == take_up_to(full, limit as int));
            } else {
                assert(out@.len() == limit);
                let a = self@.items.take(i as int);
                let b = self@.items.skip(i as int);
                assert(self@.items =~= a + b);
                Seq::filter_distributes_over_add(a, b, pred);
                assert(full == a.filter(pred) + b.filter(pred));
                assert(a.filter(pred).len() == limit);
                assert(full.len() >= limit);
                assert(take_up_to(full, limit as int) =~= a.filter(pred)) by {
                    assert(forall|k: int|
                        0 <= k < limit ==> (a.filter(pred) + b.filter(pred))[k] == a.filter(pred)[
                            k
                        ]);
                }
            }
        }
        out
    }

    /// The homepage feed: items of homepage-flagged server users, newest
    /// first, strictly before the cursor, at most `limit` rows, each
    /// annotated with its author's self-declared display name.
    pub fn list_homepage_items(&self, before: Timestamp, limit: usize) -> (r: Vec<ItemDisplayRow>)
        requires
            self@.wf(),
        ensures
            display_rows_view(r@) == take_up_to(
                homepage_rows(self@, before.unix_utc_ms as int),
                limit as int,
            ),
            forall|j: int| 0 <= j < r@.len() ==> (#[trigger] r@[j]).item.wf(),
    {
        let ghost sview = self@;
        let ghost pred = homepage_pred(sview, before.unix_utc_ms as int);
        let ghost enrich = |r: ItemRowV|
            ItemDisplayRowV { item: r, display_name: sview.profile_name(r.user) };
        let n: usize = self.items.len();
        let mut out: Vec<ItemDisplayRow> = Vec::new();
        let mut i: usize = 0;
        while i < n && out.len() < limit
            invariant
                self@.wf(),
                sview == self@,
                pred == homepage_pred(sview, before.unix_utc_ms as int),
                enrich == (|r: ItemRowV|
                    ItemDisplayRowV { item: r, display_name: sview.profile_name(r.user) }),
                n == self@.items.len(),
                i <= n,
                out@.len() <= limit,
                display_rows_view(out@) == self@.items.take(i as int).filter(pred).map_values(
                    enrich,
                ),
                forall|j: int| 0 <= j < out@.len() ==> (#[trigger] out@[j]).item.wf(),
            decreases n - i,
        {
            let ghost ti = self@.items.take(i as int);
            let ghost cur = self@.items[i as int];
            proof {
                assert(self@.items.take(i + 1) =~= ti.push(cur));
                crate::order::lemma_filter_push(ti, cur, pred);
            }
            let on_home = match self.find_server_user_index(&self.items[i].user) {
                Some(j) => self.server_users[j].on_homepage,
                None => false,
            };
            let keep = on_home && self.items[i].timestamp.unix_utc_ms < before.unix_utc_ms;
            proof {
                assert(keep == pred(cur));
            }
            if keep {
                let ghost outv = display_rows_view(out@);
                let rowc = self.items[i].clone();
                proof {
                    assert(rowc.wf()) by {
                        assert(cur.user.len() == USER_ID_LEN && cur.signature.len()
                            == SIGNATURE_LEN);
                    }
                }
                let name = match self.find_profile_index(&rowc.user) {
                    Some(j) => Some(self.profiles[j].display_name.clone()),
                    None => None,
                };
                let drow = ItemDisplayRow { item: rowc, display_name: name };
                proof {
                    assert(drow@ == enrich(cur));
                }
                out.push(drow);
                proof {
                    assert(display_rows_view(out@) =~= outv.push(enrich(cur)));
                    assert(ti.push(cur).filter(pred).map_values(enrich) =~= ti.filter(
                        pred,
                    ).map_values(enrich).push(enrich(cur)));
                }
            }
            i = i + 1;
        }
        proof {
            let full = homepage_rows(sview, before.unix_utc_ms as int);
            assert(full == self@.items.filter(pred).map_values(enrich)) by {
                assert(full =~= self@.items.filter(pred).map_values(enrich));
            }
            if i == n {
                assert(self@.items.take(n as int) =~= self@.items);
                assert(display_rows_view(out@) == take_up_to(full, limit as int));
            } else {
                assert(out@.len() == limit);
                let a = self@.items.take(i as int);
                let b = self@.items.skip(i as int);
                assert(self@.items =~= a + b);
                Seq::filter_distributes_over_add(a, b, pred);
                assert(self@.items.filter(pred) == a.filter(pred) + b.filter(pred));
                assert(a.filter(pred).len() == limit);
                assert(take_up_to(full, limit as int) =~= a.filter(pred).map_values(enrich)) by {
                    assert(forall|k: int|
                        0 <= k < limit ==> (a.filter(pred) + b.filter(pred))[k] == a.filter(pred)[
                            k
                        ]);
                }
            }
        }
        out
    }

    /// A user's following feed: their own items and those of everyone they
    /// follow, newest first, strictly before the cursor, at most `limit`
    /// rows.  Display names prefer the alias this user assigned in their own
    /// follow list, then the author's self-declared name, then none.
    pub fn list_user_feed_items(&self, user: &UserID, before: Timestamp, limit: usize) -> (r: Vec<
        ItemDisplayRow,
    >)
        requires
            self@.wf(),
        ensures
            display_rows_view(r@) == take_up_to(
                feed_rows(self@, user@, before.unix_utc_ms as int),
                limit as int,
            ),
            forall|j: int| 0 <= j < r@.len() ==> (#[trigger] r@[j]).item.wf(),
    {
        let ghost sview = self@;
        let ghost pred = feed_pred(sview, user@, before.unix_utc_ms as int);
        let ghost enrich = |r: ItemRowV|
            ItemDisplayRowV { item: r, display_name: feed_name(sview, user@, r.user) };
        let n: usize = self.items.len();
        let mut out: Vec<ItemDisplayRow> = Vec::new();
        let mut i: usize = 0;
        while i < n && out.len() < limit
            invariant
                self@.wf(),
                sview == self@,
                pred == feed_pred(sview, user@, before.unix_utc_ms as int),
                enrich == (|r: ItemRowV|
                    ItemDisplayRowV { item: r, display_name: feed_name(sview, user@, r.user) }),
                n == self@.items.len(),
                i <= n,
                out@.len() <= limit,
                display_rows_view(out@) == self@.items.take(i as int).filter(pred).map_values(
                    enrich,
                ),
                forall|j: int| 0 <= j < out@.len() ==> (#[trigger] out@[j]).item.wf(),
            decreases n - i,
        {
            let ghost ti = self@.items.take(i as int);
            let ghost cur = self@.items[i as int];
            proof {
                assert(self@.items.take(i + 1) =~= ti.push(cur));
                crate::order::lemma_filter_push(ti, cur, pred);
            }
            let in_feed = self.items[i].user.matches(user) || self.find_follow_index(
                user,
                &self.items[i].user,
            ).is_some();
            let keep = in_feed && self.items[i].timestamp.unix_utc_ms < before.unix_utc_ms;
            proof {
                assert(keep == pred(cur));
            }
            if keep {
                let ghost outv = display_rows_view(out@);
                let rowc = self.items[i].clone();
                proof {
                    assert(rowc.wf()) by {
                        assert(cur.user.len() == USER_ID_LEN && cur.signature.len()
                            == SIGNATURE_LEN);
                    }
                }
                let alias = match self.find_follow_index(user, &rowc.user) {
                    Some(j) => Some(self.follows[j].display_name.clone()),
                    None => None,
                };
                let own = match self.find_profile_index(&rowc.user) {
                    Some(j) => Some(self.profiles[j].display_name.clone()),
                    None => None,
                };
                let name = resolve_name(alias, own);
                let drow = ItemDisplayRow { item: rowc, display_name: name };
                proof {
                    assert(drow@ == enrich(cur));
                }
                out.push(drow);
                proof {
                    assert(display_rows_view(out@) =~= outv.push(enrich(cur)));
                    assert(ti.push(cur).filter(pred).map_values(enrich) =~= ti.filter(
                        pred,
                    ).map_values(enrich).push(enrich(cur)));
                }
            }
            i = i + 1;
        }
        proof {
            let full = feed_rows(sview, user@, before.unix_utc_ms as int);
            assert(full == self@.items.filter(pred).map_values(enrich)) by {
                assert(full =~= self@.items.filter(pred).map_values(enrich));
            }
            if i == n {
                assert(self@.items.take(n as int) =~= self@.items);
                assert(display_rows_view(out@) == take_up_to(full, limit as int));
            } else {
                assert(out@.len() == limit);
                let a = self@.items.take(i as int);
                let b = self@.items.skip(i as int);
                assert(self@.items =~= a + b);
                Seq::filter_distributes_over_add(a, b, pred);
                assert(self@.items.filter(pred) == a.filter(pred) + b.filter(pred));
                assert(a.filter(pred).len() == limit);
                assert(take_up_to(full, limit as int) =~= a.filter(pred).map_values(enrich)) by {
                    assert(forall|k: int|
                        0 <= k < limit ==> (a.filter(pred) + b.filter(pred))[k] == a.filter(pred)[
                            k
                        ]);
                }
            }
        }
        out
    }

    /// Every registered server user, grouped by homepage flag and ordered by
    /// user ID within each group.
    pub fn list_server_users(&self) -> (r: Vec<ServerUser>)
        requires
            self@.wf(),
        ensures
            server_users_view(r@) == self@.server_users,
            forall|i: int, j: int|
                0 <= i < j < r@.len() ==> server_user_before(r@[i]@, r@[j]@),
            forall|j: int| 0 <= j < r@.len() ==> (#[trigger] r@[j]).wf(),
    {
        let n: usize = self.server_users.len();
        let mut out: Vec<ServerUser> = Vec::new();
        let mut i: usize = 0;
        while i < n
            invariant
                self@.wf(),
                n == self@.server_users.len(),
                i <= n,
                server_users_view(out@) == self@.server_users.take(i as int),
                forall|j: int| 0 <= j < out@.len() ==> (#[trigger] out@[j]).wf(),
            decreases n - i,
        {
            let ghost outv = server_users_view(out@);
            let rowc = self.server_users[i].clone();
            proof {
                assert(rowc.wf()) by {
                    assert(self@.server_users[i as int].user.len() == USER_ID_LEN);
                }
            }
            out.push(rowc);
            proof {
                assert(server_users_view(out@) =~= outv.push(self@.server_users[i as int]));
                assert(self@.server_users.take(i + 1) =~= self@.server_users.take(i as int).push(
                    self@.server_users[i as int],
                ));
            }
            i = i + 1;
        }
        proof {
            assert(self@.server_users.take(n as int) =~= self@.server_users);
            assert forall|i: int, j: int| 0 <= i < j < out@.len() implies server_user_before(
                out@[i]@,
                out@[j]@,
            ) by {
                assert(server_users_view(out@)[i] == out@[i]@);
                assert(server_users_view(out@)[j] == out@[j]@);
                assert(server_user_before(self@.server_users[i], self@.server_users[j]));
            }
        }
        out
    }

    /// The listing order of two registration rows.
    fn su_order(a: &ServerUser, b: &ServerUser) -> (r: bool)
        ensures
            r == server_user_before(a@, b@),
    {
        (!a.on_homepage && b.on_homepage) || (a.on_homepage == b.on_homepage
            && crate::order::bytes_lt(a.user.bytes(), b.user.bytes()))
    }

    /// The index at which a new registration row keeps the listing order.
    fn find_su_insert_pos(&self, su: &ServerUser) -> (pos: usize)
        requires
            self@.wf(),
        ensures
            pos <= self@.server_users.len(),
            forall|j: int|
                0 <= j < pos ==> server_user_before(#[trigger] self@.server_users[j], su@),
            pos < self@.server_users.len() ==> !server_user_before(
                self@.server_users[pos as int],
                su@,
            ),
    {
        let n: usize = self.server_users.len();
        let mut pos: usize = 0;
        while pos < n
            invariant
                self@.wf(),
                n == self@.server_users.len(),
                pos <= n,
                forall|j: int|
                    0 <= j < pos ==> server_user_before(#[trigger] self@.server_users[j], su@),
            decreases n - pos,
        {
            if !Self::su_order(&self.server_users[pos], su) {
                return pos;
            }
            pos = pos + 1;
        }
        pos
    }

    /// Registers a user on this server.  A user already registered is
    /// reported as a duplicate and nothing changes.
    pub fn add_server_user(&mut self, server_user: &ServerUser) -> (r: Result<(), StoreError>)
        requires
            old(self)@.wf(),
            server_user.wf(),
        ensures
            final(self)@.wf(),
            old(self)@.has_server_user(server_user.user@) ==> r == Err::<(), StoreError>(
                StoreError::DuplicateServerUser,
            ) && final(self)@ == old(self)@,
            !old(self)@.has_server_user(server_user.user@) ==> r is Ok && final(self)@.version
                == old(self)@.version && final(self)@.items == old(self)@.items
                && final(self)@.profiles == old(self)@.profiles && final(self)@.follows == old(
                self,
            )@.follows && (forall|u: Seq<u8>|
                #[trigger] final(self)@.has_server_user(u) <==> old(self)@.has_server_user(u) || u
                    == server_user.user@) && final(self)@.server_user_at(server_user.user@)
                == server_user@ && (forall|u: Seq<u8>|
                #[trigger] old(self)@.has_server_user(u) ==> final(self)@.server_user_at(u) == old(
                    self,
                )@.server_user_at(u)),
    {
        if self.find_server_user_index(&server_user.user).is_some() {
            return Err(StoreError::DuplicateServerUser);
        }
        let ghost pre = self@;
        let pos = self.find_su_insert_pos(server_user);
        let rowc = server_user.clone();
        self.server_users.insert(pos, rowc);
        proof {
            let post = self@;
            assert(post.server_users =~= pre.server_users.insert(pos as int, server_user@)) by {
                assert forall|q: int| 0 <= q < post.server_users.len() implies post.server_users[q]
                    == pre.server_users.insert(pos as int, server_user@)[q] by {
                    assert(post.server_users[q] == self.server_users@[q]@);
                }
            }
            crate::keyed::lemma_insert(
                pre.server_users,
                server_user_key(),
                pos as int,
                server_user@,
            );
            let p = pos as int;
            if p < pre.server_users.len() {
                assert(server_user_key()(pre.server_users[p]) != server_user.user@);
                lemma_su_order_total(pre.server_users[p], server_user@);
                assert(server_user_before(server_user@, pre.server_users[p]));
            }
            assert forall|i: int, j: int| 0 <= i < j < post.server_users.len() implies server_user_before(
                post.server_users[i],
                post.server_users[j],
            ) by {
                if i < p && j == p {
                    assert(post.server_users[i] == pre.server_users[i]);
                } else if i == p && j > p {
                    assert(post.server_users[j] == pre.server_users[j - 1]);
                    assert(server_user_before(server_user@, pre.server_users[p]));
                    if j - 1 > p {
                        assert(server_user_before(pre.server_users[p], pre.server_users[j - 1]));
                        lemma_su_order_trans(
                            server_user@,
                            pre.server_users[p],
                            pre.server_users[j - 1],
                        );
                    }
                } else if i < p && j > p {
                    assert(post.server_users[i] == pre.server_users[i] && post.server_users[j]
                        == pre.server_users[j - 1]);
                } else if i != p && j != p {
                    let i0 = if i < p {
                        i
                    } else {
                        i - 1
                    };
                    let j0 = if j < p {
                        j
                    } else {
                        j - 1
                    };
                    assert(post.server_users[i] == pre.server_users[i0] && post.server_users[j]
                        == pre.server_users[j0]);
                }
            }
            assert forall|q: int| 0 <= q < post.server_users.len() implies (
            #[trigger] post.server_users[q]).user.len() == USER_ID_LEN by {
                if q < p {
                    assert(post.server_users[q] == pre.server_users[q]);
                } else if q > p {
                    assert(post.server_users[q] == pre.server_users[q - 1]);
                }
            }
            assert(post.items =~= pre.items);
            assert(post.profiles =~= pre.profiles);
            assert(post.follows =~= pre.follows);
            assert forall|u: Seq<u8>| #[trigger] post.has_profile(u) implies post.has_item(
                u,
                post.profile_at(u).signature,
            ) by {
                assert(pre.has_profile(u));
                assert(post.profile_at(u) == pre.profile_at(u));
                assert(pre.has_item(u, pre.profile_at(u).signature));
            }
            assert(post.wf());
        }
        Ok(())
    }

    /// Whether this server recognizes the user: registered, or followed by
    /// any registered server user.
    pub fn is_user_known(&self, user: &UserID) -> (r: bool)
        requires
            self@.wf(),
        ensures
            r == self@.known_user(user@),
    {
        if self.find_server_user_index(user).is_some() {
            return true;
        }
        let n: usize = self.follows.len();
        let mut i: usize = 0;
        while i < n
            invariant
                self@.wf(),
                n == self@.follows.len(),
                i <= n,
                forall|j: int|
                    0 <= j < i ==> !((#[trigger] self@.follows[j]).followed == user@
                        && self@.has_server_user(self@.follows[j].source)),
            decreases n - i,
        {
            if self.follows[i].followed.matches(user) {
                if self.find_server_user_index(&self.follows[i].source).is_some() {
                    proof {
                        let src = self@.follows[i as int].source;
                        assert(follow_key()(self@.follows[i as int]) == (src, user@));
                        assert(self@.has_follow(src, user@));
                        assert(self@.has_server_user(src) && self@.has_follow(src, user@));
                    }
                    return true;
                }
            }
            i = i + 1;
        }
        proof {
            if self@.known_user(user@) {
                if !self@.has_server_user(user@) {
                    let s2 = choose|s2: Seq<u8>|
                        #[trigger] self@.has_server_user(s2) && self@.has_follow(s2, user@);
                    let j = key_index(self@.follows, follow_key(), (s2, user@));
                    assert(0 <= j < self@.follows.len() && follow_key()(self@.follows[j]) == (
                    s2,
                    user@,
                    ));
                    assert(self@.follows[j].followed == user@);
                    assert(self@.has_server_user(self@.follows[j].source));
                }
                assert(false);
            }
        }
        false
    }

    /// The admission policy: a registered server user may post, a user
    /// followed by any registered server user may post (per-user byte quotas
    /// are a declared future extension, deliberately not enforced), and
    /// every other user is denied as unknown.
    pub fn quota_check(&self, user: &UserID, raw_bytes: &[u8], parsed_item: &ItemData) -> (r:
        Option<QuotaDenyReason>)
        requires
            self@.wf(),
        ensures
            r is None <==> self@.known_user(user@),
            !self@.known_user(user@) ==> r == Some(QuotaDenyReason::UnknownUser),
    {
        let _ = raw_bytes.len();
        let _ = parsed_item.timestamp_ms_utc;
        if self.is_user_known(user) {
            None
        } else {
            Some(QuotaDenyReason::UnknownUser)
        }
    }
}

} // verus!
