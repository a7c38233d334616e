//! The store's governing laws, each proved from the operation contracts: what
//! a committed write makes visible, idempotence of re-submission, the
//! monotonic-timestamp rule for materialized profiles, whole-list follow
//! replacement, and the soundness and completeness of the feed queries.

use vstd::prelude::*;
use crate::feed::{feed_name, feed_pred, feed_rows, homepage_pred, homepage_rows};
use crate::item::{FollowEntryV, ItemDataV};
use crate::store::{
    data_profile, declared_alias, profile_update_applies, save_transition, SaveOutcome, StoreView,
};
use crate::text::is_blank;

verus! {

broadcast use vstd::seq_lib::group_filter_ensures;

/// After a fresh save of `row`, the item is stored and reads back exactly as
/// written: `item_exists` answers true and `get_item` returns `row`.
pub proof fn lemma_saved_item_readable(
    pre: StoreView,
    post: StoreView,
    row: crate::item::ItemRowV,
    d: ItemDataV,
    outcome: SaveOutcome,
)
    requires
        save_transition(pre, post, row, d, outcome),
        outcome == SaveOutcome::Inserted,
    ensures
        post.has_item(row.user, row.signature),
        post.item_at(row.user, row.signature) == row,
{
}

/// Re-submitting an already-stored `(user, signature)` pair is not an error
/// and alters nothing: the outcome distinguishes it from a fresh insert, and
/// the store — the stored bytes included — is exactly as before.
pub proof fn lemma_resubmit_unchanged(
    pre: StoreView,
    post: StoreView,
    row: crate::item::ItemRowV,
    d: ItemDataV,
    outcome: SaveOutcome,
)
    requires
        save_transition(pre, post, row, d, outcome),
        pre.has_item(row.user, row.signature),
    ensures
        outcome == SaveOutcome::AlreadyExists,
        post == pre,
        post.item_at(row.user, row.signature) == pre.item_at(row.user, row.signature),
{
}

/// Out-of-order delivery does not regress a profile: once profile A (at
/// embedded time `ta`) is materialized, a later-arriving profile item B with
/// an older or equal embedded timestamp is stored as an item but the
/// materialized profile and follow rows remain A's.
pub proof fn lemma_newer_profile_kept(
    s0: StoreView,
    s1: StoreView,
    s2: StoreView,
    row_a: crate::item::ItemRowV,
    d_a: ItemDataV,
    row_b: crate::item::ItemRowV,
    d_b: ItemDataV,
)
    requires
        save_transition(s0, s1, row_a, d_a, SaveOutcome::Inserted),
        profile_update_applies(s0, row_a.user, d_a),
        row_a.timestamp == d_a.timestamp_ms_utc,
        save_transition(s1, s2, row_b, d_b, SaveOutcome::Inserted),
        row_b.user == row_a.user,
        d_b.timestamp_ms_utc <= d_a.timestamp_ms_utc,
    ensures
        s2.has_profile(row_a.user),
        s2.profile_at(row_a.user) == s1.profile_at(row_a.user),
        s2.profile_at(row_a.user).signature == row_a.signature,
        forall|dst: Seq<u8>|
            #[trigger] s2.has_follow(row_a.user, dst) <==> s1.has_follow(row_a.user, dst),
{
    let u = row_a.user;
    assert(s1.profile_at(u).signature == row_a.signature);
    assert(s1.item_at(u, row_a.signature) == row_a);
    assert(s1.materialized_profile_ts(u) == Some(row_a.timestamp));
    assert(!profile_update_applies(s1, u, d_b));
    assert(s2.profiles == s1.profiles);
    assert(s2.follows == s1.follows);
    assert(s2.has_profile(u) == s1.has_profile(u));
    assert(s2.profile_at(u) == s1.profile_at(u));
    assert forall|dst: Seq<u8>| #[trigger] s2.has_follow(u, dst) <==> s1.has_follow(u, dst) by {
        assert(s2.has_follow(u, dst) == s1.has_follow(u, dst));
    }
}

/// A declared follow list gives `dst` an alias exactly when some entry of it
/// names `dst`.
pub proof fn lemma_declared_follow_membership(fs: Seq<FollowEntryV>, dst: Seq<u8>)
    ensures
        declared_alias(fs, dst) is Some <==> exists|i: int|
            0 <= i < fs.len() && (#[trigger] fs[i]).user == dst,
    decreases fs.len(),
{
    if fs.len() > 0 {
        lemma_declared_follow_membership(fs.drop_last(), dst);
        if fs.last().user == dst {
            assert(fs[fs.len() - 1].user == dst);
        } else {
            if declared_alias(fs, dst) is Some {
                let i = choose|i: int|
                    0 <= i < fs.drop_last().len() && (#[trigger] fs.drop_last()[i]).user == dst;
                assert(fs[i].user == dst);
            }
            if exists|i: int| 0 <= i < fs.len() && (#[trigger] fs[i]).user == dst {
                let i = choose|i: int| 0 <= i < fs.len() && (#[trigger] fs[i]).user == dst;
                assert(i < fs.len() - 1);
                assert(fs.drop_last()[i].user == dst);
            }
        }
    }
}

/// A newer profile wholly replaces the user's follow list: afterwards the
/// user follows exactly the users the new profile declares — earlier follows
/// not re-declared are gone — and each alias is the declared one (the last
/// declaration wins on duplicates).
pub proof fn lemma_follow_list_replaced(
    pre: StoreView,
    post: StoreView,
    row: crate::item::ItemRowV,
    d: ItemDataV,
)
    requires
        save_transition(pre, post, row, d, SaveOutcome::Inserted),
        profile_update_applies(pre, row.user, d),
    ensures
        forall|dst: Seq<u8>|
            #[trigger] post.has_follow(row.user, dst) <==> exists|i: int|
                0 <= i < data_profile(d).unwrap().follows.len() && (#[trigger] data_profile(
                    d,
                ).unwrap().follows[i]).user == dst,
        forall|dst: Seq<u8>|
            #[trigger] post.has_follow(row.user, dst) ==> post.follow_at(row.user, dst).display_name
                == declared_alias(data_profile(d).unwrap().follows, dst).unwrap(),
        post.follow_set(row.user) =~= Set::new(
            |dst: Seq<u8>|
                exists|i: int|
                    0 <= i < data_profile(d).unwrap().follows.len() && (#[trigger] data_profile(
                        d,
                    ).unwrap().follows[i]).user == dst,
        ),
{
    let fs = data_profile(d).unwrap().follows;
    assert forall|dst: Seq<u8>| #[trigger] post.has_follow(row.user, dst) <==> exists|i: int|
        0 <= i < fs.len() && (#[trigger] fs[i]).user == dst by {
        lemma_declared_follow_membership(fs, dst);
    }
    let declared = Set::new(
        |dst: Seq<u8>|
            exists|i: int| 0 <= i < fs.len() && (#[trigger] fs[i]).user == dst,
    );
    assert forall|dst: Seq<u8>|
        post.follow_set(row.user).contains(dst) == #[trigger] declared.contains(dst) by {
        assert(post.follow_set(row.user).contains(dst) == post.has_follow(row.user, dst));
    }
    assert(post.follow_set(row.user) =~= declared);
}

/// The homepage feed is sound and complete: every row is an item of a
/// homepage-flagged server user with embedded timestamp strictly below the
/// cursor, annotated with that user's profile name; rows come newest first;
/// and every stored item that qualifies appears.
pub proof fn lemma_homepage_rows_correct(s: StoreView, before: int)
    requires
        s.wf(),
    ensures
        forall|k: int|
            0 <= k < homepage_rows(s, before).len() ==> {
                let d = #[trigger] homepage_rows(s, before)[k];
                d.item.timestamp < before && s.has_server_user(d.item.user) && s.server_user_at(
                    d.item.user,
                ).on_homepage && d.display_name == s.profile_name(d.item.user)
            },
        forall|k1: int, k2: int|
            0 <= k1 < k2 < homepage_rows(s, before).len() ==> (#[trigger] homepage_rows(s, before)[
                k1
            ]).item.timestamp >= (#[trigger] homepage_rows(s, before)[k2]).item.timestamp,
        forall|i: int|
            0 <= i < s.items.len() && (#[trigger] s.items[i]).timestamp < before
                && s.has_server_user(s.items[i].user) && s.server_user_at(s.items[i].user).on_homepage
                ==> exists|k: int|
                0 <= k < homepage_rows(s, before).len() && (#[trigger] homepage_rows(s, before)[
                    k
                ]).item == s.items[i],
{
    let pred = homepage_pred(s, before);
    let f = s.items.filter(pred);
    let rows = homepage_rows(s, before);
    assert(rows.len() == f.len());
    assert forall|k: int| 0 <= k < rows.len() implies {
        let d = #[trigger] rows[k];
        d.item.timestamp < before && s.has_server_user(d.item.user) && s.server_user_at(
            d.item.user,
        ).on_homepage && d.display_name == s.profile_name(d.item.user)
    } by {
        assert(rows[k].item == f[k]);
        assert(pred(f[k]));
    }
    crate::order::lemma_filter_sorted_desc(s.items, crate::store::item_ts(), pred);
    assert forall|k1: int, k2: int| 0 <= k1 < k2 < rows.len() implies (
    #[trigger] rows[k1]).item.timestamp >= (#[trigger] rows[k2]).item.timestamp by {
        assert(rows[k1].item == f[k1] && rows[k2].item == f[k2]);
        assert(crate::store::item_ts()(f[k1]) >= crate::store::item_ts()(f[k2]));
    }
    assert forall|i: int|
        0 <= i < s.items.len() && (#[trigger] s.items[i]).timestamp < before && s.has_server_user(
            s.items[i].user,
        ) && s.server_user_at(s.items[i].user).on_homepage implies exists|k: int|
        0 <= k < rows.len() && (#[trigger] rows[k]).item == s.items[i] by {
        assert(pred(s.items[i]));
        assert(f.contains(s.items[i]));
        let k = choose|k: int| 0 <= k < f.len() && f[k] == s.items[i];
        assert(rows[k].item == s.items[i]);
    }
}

/// The following feed is sound and complete: every row is an item of the
/// viewer or of a user the viewer follows, below the cursor, newest first —
/// and every qualifying stored item appears, whatever its author's homepage
/// flag; items of anyone else never appear.
pub proof fn lemma_feed_rows_correct(s: StoreView, viewer: Seq<u8>, before: int)
    requires
        s.wf(),
    ensures
        forall|k: int|
            0 <= k < feed_rows(s, viewer, before).len() ==> {
                let d = #[trigger] feed_rows(s, viewer, before)[k];
                d.item.timestamp < before && (d.item.user == viewer || s.has_follow(
                    viewer,
                    d.item.user,
                )) && d.display_name == feed_name(s, viewer, d.item.user)
            },
        forall|k1: int, k2: int|
            0 <= k1 < k2 < feed_rows(s, viewer, before).len() ==> (#[trigger] feed_rows(
                s,
                viewer,
                before,
            )[k1]).item.timestamp >= (#[trigger] feed_rows(s, viewer, before)[k2]).item.timestamp,
        forall|i: int|
            0 <= i < s.items.len() && (#[trigger] s.items[i]).timestamp < before && (s.items[i].user
                == viewer || s.has_follow(viewer, s.items[i].user)) ==> exists|k: int|
                0 <= k < feed_rows(s, viewer, before).len() && (#[trigger] feed_rows(
                    s,
                    viewer,
                    before,
                )[k]).item == s.items[i],
{
    let pred = feed_pred(s, viewer, before);
    let f = s.items.filter(pred);
    let rows = feed_rows(s, viewer, before);
    assert(rows.len() == f.len());
    assert forall|k: int| 0 <= k < rows.len() implies {
        let d = #[trigger] rows[k];
        d.item.timestamp < before && (d.item.user == viewer || s.has_follow(viewer, d.item.user))
            && d.display_name == feed_name(s, viewer, d.item.user)
    } by {
        assert(rows[k].item == f[k]);
        assert(pred(f[k]));
    }
    crate::order::lemma_filter_sorted_desc(s.items, crate::store::item_ts(), pred);
    assert forall|k1: int, k2: int| 0 <= k1 < k2 < rows.len() implies (
    #[trigger] rows[k1]).item.timestamp >= (#[trigger] rows[k2]).item.timestamp by {
        assert(rows[k1].item == f[k1] && rows[k2].item == f[k2]);
        assert(crate::store::item_ts()(f[k1]) >= crate::store::item_ts()(f[k2]));
    }
    assert forall|i: int|
        0 <= i < s.items.len() && (#[trigger] s.items[i]).timestamp < before && (s.items[i].user
            == viewer || s.has_follow(viewer, s.items[i].user)) implies exists|k: int|
        0 <= k < rows.len() && (#[trigger] rows[k]).item == s.items[i] by {
        assert(pred(s.items[i]));
        assert(f.contains(s.items[i]));
        let k = choose|k: int| 0 <= k < f.len() && f[k] == s.items[i];
        assert(rows[k].item == s.items[i]);
    }
}

/// Display-name resolution in the following feed: the alias the viewer
/// assigned wins when usable; a blank or absent alias falls back to the
/// author's self-declared name; when both are blank or absent, the name is
/// absent.
pub proof fn lemma_feed_name_resolution(s: StoreView, viewer: Seq<u8>, author: Seq<u8>)
    ensures
        s.has_follow(viewer, author) && !is_blank(s.follow_at(viewer, author).display_name)
            ==> feed_name(s, viewer, author) == Some(s.follow_at(viewer, author).display_name),
        (!s.has_follow(viewer, author) || is_blank(s.follow_at(viewer, author).display_name))
            && s.has_profile(author) && !is_blank(s.profile_at(author).display_name) ==> feed_name(
            s,
            viewer,
            author,
        ) == Some(s.profile_at(author).display_name),
        (!s.has_follow(viewer, author) || is_blank(s.follow_at(viewer, author).display_name)) && (
        !s.has_profile(author) || is_blank(s.profile_at(author).display_name)) ==> feed_name(
            s,
            viewer,
            author,
        ) is None,
{
}

} // verus!
