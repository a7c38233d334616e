//! The three feed shapes, as mathematics: an indexed scan of the item
//! relation in descending embedded-timestamp order, bounded above
//! (exclusively) by a cursor, with display-name enrichment that annotates
//! rows and never filters them.

use vstd::prelude::*;
use crate::item::{ItemDisplayRowV, ItemRowV};
use crate::store::StoreView;
use crate::text::is_blank;

verus! {

/// The first `n` rows of `s`, or all of them when fewer exist.
pub open spec fn take_up_to<T>(s: Seq<T>, n: int) -> Seq<T> {
    if s.len() <= n {
        s
    } else {
        s.take(n)
    }
}

/// A usable display name: present and not all whitespace.
pub open spec fn fallback_name(own: Option<Seq<char>>) -> Option<Seq<char>> {
    match own {
        Some(o) => if !is_blank(o) {
            Some(o)
        } else {
            None
        },
        None => None,
    }
}

/// Display-name resolution for the following feed: the alias the viewer
/// assigned wins when it is usable, then the author's self-declared name,
/// then nothing.
pub open spec fn resolve_display_name(
    alias: Option<Seq<char>>,
    own: Option<Seq<char>>,
) -> Option<Seq<char>> {
    match alias {
        Some(a) => if !is_blank(a) {
            Some(a)
        } else {
            fallback_name(own)
        },
        None => fallback_name(own),
    }
}

/// Rows of one user's timeline: their items, strictly before the cursor.
pub open spec fn user_items_pred(u: Seq<u8>, before: int) -> spec_fn(ItemRowV) -> bool {
    |r: ItemRowV| r.user == u && r.timestamp < before
}

/// One user's timeline, newest first.
pub open spec fn user_rows(s: StoreView, u: Seq<u8>, before: int) -> Seq<ItemRowV> {
    s.items.filter(user_items_pred(u, before))
}

/// Rows of the homepage: items of homepage-flagged server users, strictly
/// before the cursor.
pub open spec fn homepage_pred(s: StoreView, before: int) -> spec_fn(ItemRowV) -> bool {
    |r: ItemRowV| r.timestamp < before && s.has_server_user(r.user) && s.server_user_at(
        r.user,
    ).on_homepage
}

/// The homepage feed, newest first, each row annotated with its author's
/// self-declared display name (absent when they have no profile).
pub open spec fn homepage_rows(s: StoreView, before: int) -> Seq<ItemDisplayRowV> {
    s.items.filter(homepage_pred(s, before)).map_values(
        |r: ItemRowV| ItemDisplayRowV { item: r, display_name: s.profile_name(r.user) },
    )
}

/// Rows of a user's following feed: their own items and those of everyone
/// they follow, strictly before the cursor.
pub open spec fn feed_pred(s: StoreView, viewer: Seq<u8>, before: int) -> spec_fn(ItemRowV) -> bool {
    |r: ItemRowV| r.timestamp < before && (r.user == viewer || s.has_follow(viewer, r.user))
}

/// The display name the following feed shows for `author`'s rows.
pub open spec fn feed_name(s: StoreView, viewer: Seq<u8>, author: Seq<u8>) -> Option<Seq<char>> {
    resolve_display_name(
        if s.has_follow(viewer, author) {
            Some(s.follow_at(viewer, author).display_name)
        } else {
            None
        },
        s.profile_name(author),
    )
}

/// A user's following feed, newest first, with resolved display names.
pub open spec fn feed_rows(s: StoreView, viewer: Seq<u8>, before: int) -> Seq<ItemDisplayRowV> {
    s.items.filter(feed_pred(s, viewer, before)).map_values(
        |r: ItemRowV| ItemDisplayRowV { item: r, display_name: feed_name(s, viewer, r.user) },
    )
}

} // verus!
